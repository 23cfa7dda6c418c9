use boxdoc::editor::EditorApp;
use boxdoc::model::{Document, Element};
use boxdoc::project::{
    install_clipboard_paste_listener, load_project, max_element_id, poll_clipboard_image,
    take_pending_image, take_pending_project, Project, ProjectImage, AI_HINT,
};

type Geom = (i32, i32);

fn png_bytes(w: u32, h: u32) -> Vec<u8> {
    let img = image::RgbaImage::new(w, h);
    let mut buf = std::io::Cursor::new(Vec::new());
    img.write_to(&mut buf, image::ImageFormat::Png).unwrap();
    buf.into_inner()
}

#[test]
fn saved_images_are_base64() {
    let mut app: EditorApp<Geom> = EditorApp::new();
    app.images.insert(1, b"hello".to_vec(), (0, 0));
    let p = app.project_for_save();
    assert_eq!(p.images.len(), 1);
    assert_eq!(p.images[0].id, 1);
    assert_eq!(p.images[0].png_base64, "aGVsbG8=");
    assert_eq!(p._ai_hint.as_deref(), Some(AI_HINT));
    assert!(AI_HINT.starts_with("BoxDoc-Dokument-Format (.boxdoc)"));
}

#[test]
fn save_then_load_gives_back_document_and_images() {
    let mut app: EditorApp<Geom> = EditorApp::new();
    let png = png_bytes(4, 3);
    app.add_image_from_bytes(png.clone(), |w, h| (w as i32, h as i32));
    app.add_text((5, 5));
    app.images.insert(9, b"not an image".to_vec(), (0, 0));
    let p = app.project_for_save();
    let (doc, images, next_id) = load_project(p).unwrap();
    assert_eq!(doc.pages.len(), 1);
    assert_eq!(doc.pages[0].elements.len(), 2);
    assert_eq!(doc.pages[0].elements[1].geom, (5, 5));
    assert_eq!(next_id, 3);
    assert_eq!(images.map.len(), 2);
    assert_eq!(images.map.get(&1).unwrap().png, png);
    assert_eq!(images.map.get(&1).unwrap().dim, (4, 3));
    assert_eq!(images.map.get(&9).unwrap().png, b"not an image".to_vec());
    assert_eq!(images.map.get(&9).unwrap().dim, (0, 0));
}

#[test]
fn load_fails_on_invalid_base64() {
    let p: Project<Geom> = Project::for_save(
        Document::new(),
        vec![ProjectImage { id: 1, png_base64: "!!!".to_string() }],
    );
    let r = load_project(p);
    assert!(r.is_err());
    assert!(!r.err().unwrap().is_empty());
}

#[test]
fn next_id_is_one_past_the_largest() {
    let mut doc: Document<Geom> = Document::new();
    doc.pages[0].elements.push(Element::new_text(7, (0, 0)));
    doc.pages[0].elements.push(Element::new_text(3, (0, 0)));
    assert_eq!(max_element_id(&doc), 7);
    let (_, _, next_id) = load_project(Project::for_save(doc, Vec::new())).unwrap();
    assert_eq!(next_id, 8);
    assert_eq!(max_element_id(&Document::<Geom>::new()), 0);
}

#[test]
fn opening_parsed_json_replaces_the_document() {
    let mut app: EditorApp<Geom> = EditorApp::new();
    app.add_text((0, 0));
    let mut doc: Document<Geom> = Document::new();
    doc.pages[0].elements.push(Element::new_text(41, (1, 2)));
    let p = Project::for_save(doc, vec![ProjectImage { id: 41, png_base64: "%%".to_string() }]);
    app.load_project_from_json(Ok(p));
    assert_eq!(app.status, "Dokument geöffnet.");
    assert_eq!(app.next_id, 42);
    assert_eq!(app.page_index, 0);
    assert!(app.selection.is_empty());
    assert!(!app.modified);
    assert_eq!(app.doc.pages[0].elements[0].id, 41);
    assert_eq!(app.images.map.get(&41).unwrap().png, Vec::<u8>::new());
    assert_eq!(app.images.map.get(&41).unwrap().dim, (0, 0));
}

#[test]
fn opening_broken_json_reports_the_error() {
    let mut app: EditorApp<Geom> = EditorApp::new();
    app.add_text((0, 0));
    app.load_project_from_json(Err("expected value at line 1".to_string()));
    assert_eq!(app.status, "Fehler beim Öffnen: expected value at line 1");
    assert_eq!(app.doc.pages[0].elements.len(), 1);
    assert_eq!(app.next_id, 2);
}

#[test]
fn desktop_has_no_pending_browser_input() {
    assert_eq!(poll_clipboard_image(), None);
    assert_eq!(take_pending_project(), None);
    assert_eq!(take_pending_image(), None);
    install_clipboard_paste_listener();
}
