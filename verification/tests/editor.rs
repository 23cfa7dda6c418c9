use boxdoc::editor::{BBoxAnchor, EditorApp};
use boxdoc::model::ElementKind;

type Geom = (i32, i32);

fn ids(app: &EditorApp<Geom>) -> Vec<u64> {
    app.doc.pages[app.page_index].elements.iter().map(|e| e.id).collect()
}

fn png_bytes(w: u32, h: u32) -> Vec<u8> {
    let img = image::RgbaImage::new(w, h);
    let mut buf = std::io::Cursor::new(Vec::new());
    img.write_to(&mut buf, image::ImageFormat::Png).unwrap();
    buf.into_inner()
}

#[test]
fn new_editor_starts_empty_and_ready() {
    let app: EditorApp<Geom> = EditorApp::new();
    assert_eq!(app.doc.pages.len(), 1);
    assert!(app.doc.pages[0].elements.is_empty());
    assert_eq!(app.next_id, 1);
    assert_eq!(app.status, "Bereit. Tipp: Bild per Drag&Drop hereinziehen.");
    assert!(!app.modified);
    assert!(!app.history.can_undo());
    assert_eq!(app.history.len(), 1);
}

#[test]
fn add_text_appends_selects_and_edits() {
    let mut app: EditorApp<Geom> = EditorApp::new();
    app.add_text((10, 20));
    let els = &app.doc.pages[0].elements;
    assert_eq!(els.len(), 1);
    assert_eq!(els[0].id, 1);
    assert_eq!(els[0].kind, ElementKind::Text);
    assert_eq!(els[0].geom, (10, 20));
    assert_eq!(els[0].text, "");
    assert_eq!(els[0].font, "default");
    assert_eq!(els[0].color, [20, 20, 20, 255]);
    assert_eq!(app.selection, vec![1]);
    assert_eq!(app.editing, Some((1, String::new())));
    assert!(app.edit_focus);
    assert!(app.modified);
    assert_eq!(app.next_id, 2);
    assert_eq!(app.status, "Text erstellt – tippe los.");
    assert!(app.history.can_undo());
}

#[test]
fn shapes_get_fresh_ids_and_statuses() {
    let mut app: EditorApp<Geom> = EditorApp::new();
    app.crop_mode = true;
    app.add_rectangle((0, 0));
    assert!(!app.crop_mode);
    assert_eq!(app.status, "Rechteck hinzugefügt.");
    app.add_line((1, 1));
    assert_eq!(app.status, "Linie hinzugefügt.");
    app.crop_mode = true;
    app.add_line_between((2, 2));
    assert!(app.crop_mode);
    assert_eq!(app.status, "Linie gezeichnet.");
    let els = &app.doc.pages[0].elements;
    assert_eq!(ids(&app), vec![1, 2, 3]);
    assert_eq!(els[0].kind, ElementKind::Rectangle);
    assert_eq!(els[1].kind, ElementKind::Line);
    assert_eq!(els[2].kind, ElementKind::Line);
    assert_eq!(els[0].fill_color, [80, 140, 220, 60]);
    assert_eq!(els[0].stroke_color, [40, 100, 180, 255]);
    assert_eq!(app.selection, vec![3]);
}

#[test]
fn toggle_selection_adds_and_swap_removes() {
    let mut app: EditorApp<Geom> = EditorApp::new();
    app.toggle_selected(4);
    app.toggle_selected(5);
    app.toggle_selected(6);
    assert_eq!(app.selection, vec![4, 5, 6]);
    assert!(app.is_selected(5));
    assert_eq!(app.primary(), Some(4));
    app.toggle_selected(4);
    assert_eq!(app.selection, vec![6, 5]);
    assert!(!app.is_selected(4));
    app.select_only(9);
    assert_eq!(app.selection, vec![9]);
    app.clear_selection();
    assert_eq!(app.primary(), None);
}

#[test]
fn delete_removes_exactly_the_selected_elements() {
    let mut app: EditorApp<Geom> = EditorApp::new();
    app.add_text((0, 0));
    app.add_rectangle((0, 0));
    app.add_line((0, 0));
    app.selection = vec![1, 3];
    app.editing = Some((1, String::from("x")));
    app.delete_selected();
    assert_eq!(ids(&app), vec![2]);
    assert!(app.selection.is_empty());
    assert_eq!(app.editing, None);
    assert_eq!(app.status, "Objekt(e) gelöscht.");
    assert_eq!(app.next_id, 4);
}

#[test]
fn delete_with_nothing_selected_changes_nothing() {
    let mut app: EditorApp<Geom> = EditorApp::new();
    app.add_text((0, 0));
    app.clear_selection();
    let len = app.history.len();
    app.delete_selected();
    assert_eq!(ids(&app), vec![1]);
    assert_eq!(app.history.len(), len);
}

#[test]
fn add_page_appends_and_switches() {
    let mut app: EditorApp<Geom> = EditorApp::new();
    app.add_text((0, 0));
    app.add_page();
    assert_eq!(app.doc.pages.len(), 2);
    assert_eq!(app.page_index, 1);
    assert!(app.selection.is_empty());
    assert!(app.doc.pages[1].elements.is_empty());
    assert_eq!(app.doc.pages[0].elements.len(), 1);
}

#[test]
fn copy_then_paste_gives_new_ids_and_placed_copies() {
    let mut app: EditorApp<Geom> = EditorApp::new();
    app.add_text((1, 1));
    app.add_rectangle((2, 2));
    app.add_line((3, 3));
    app.selection = vec![3, 1];
    app.copy_selection();
    assert_eq!(app.status, "2 Objekt(e) kopiert.");
    assert_eq!(app.clipboard.iter().map(|e| e.id).collect::<Vec<_>>(), vec![1, 3]);
    app.start_paste();
    assert!(app.pasting);
    assert!(app.selection.is_empty());
    assert_eq!(app.status, "Klicke zum Platzieren · Esc bricht ab.");
    app.confirm_paste(|g: Geom| (g.0 + 100, g.1 + 50));
    assert!(!app.pasting);
    assert_eq!(ids(&app), vec![1, 2, 3, 4, 5]);
    let els = &app.doc.pages[0].elements;
    assert_eq!(els[3].kind, ElementKind::Text);
    assert_eq!(els[3].geom, (101, 51));
    assert_eq!(els[4].kind, ElementKind::Line);
    assert_eq!(els[4].geom, (103, 53));
    assert_eq!(app.selection, vec![4, 5]);
    assert_eq!(app.next_id, 6);
    assert_eq!(app.status, "Eingefügt.");
}

#[test]
fn paste_copies_the_image_bytes_under_the_new_id() {
    let mut app: EditorApp<Geom> = EditorApp::new();
    let bytes = png_bytes(3, 2);
    app.add_image_from_bytes(bytes.clone(), |w, h| (w as i32, h as i32));
    app.copy_selection();
    app.start_paste();
    app.confirm_paste(|g: Geom| g);
    assert_eq!(app.images.map.len(), 2);
    assert_eq!(app.images.map.get(&2).unwrap().png, bytes);
    assert_eq!(app.images.map.get(&2).unwrap().dim, (3, 2));
}

#[test]
fn copy_with_nothing_selected_keeps_the_status() {
    let mut app: EditorApp<Geom> = EditorApp::new();
    app.add_text((0, 0));
    app.clear_selection();
    app.set_status(String::from("s"));
    app.copy_selection();
    assert!(app.clipboard.is_empty());
    assert_eq!(app.status, "s");
    app.start_paste();
    assert!(!app.pasting);
}

#[test]
fn add_image_records_bytes_and_decoded_size() {
    let mut app: EditorApp<Geom> = EditorApp::new();
    let bytes = png_bytes(3, 2);
    app.add_image_from_bytes(bytes.clone(), |w, h| (w as i32 * 10, h as i32 * 10));
    let el = &app.doc.pages[0].elements[0];
    assert_eq!(el.kind, ElementKind::Image);
    assert_eq!(el.id, 1);
    assert_eq!((el.image_w, el.image_h), (3, 2));
    assert_eq!(el.geom, (30, 20));
    assert_eq!(app.images.map.get(&1).unwrap().png, bytes);
    assert_eq!(app.images.map.get(&1).unwrap().dim, (3, 2));
    assert_eq!(app.status, "Bild hinzugefügt (3×2).");
    assert_eq!(app.selection, vec![1]);
}

#[test]
fn add_image_with_bad_bytes_only_reports() {
    let mut app: EditorApp<Geom> = EditorApp::new();
    app.add_image_from_bytes(vec![1, 2, 3, 4], |w, h| (w as i32, h as i32));
    assert!(app.doc.pages[0].elements.is_empty());
    assert!(app.images.map.is_empty());
    assert!(app.status.starts_with("Bild konnte nicht gelesen werden: "));
    assert!(app.status.len() > "Bild konnte nicht gelesen werden: ".len());
    assert_eq!(app.next_id, 2);
    assert!(app.history.can_undo());
}

#[test]
fn add_decoded_image_uses_the_given_size() {
    let mut app: EditorApp<Geom> = EditorApp::new();
    app.add_decoded_image(vec![9], Ok((640, 480)), |w, h| (w as i32, h as i32));
    assert_eq!(app.doc.pages[0].elements[0].geom, (640, 480));
    assert_eq!(app.status, "Bild hinzugefügt (640×480).");
    app.add_decoded_image(vec![9], Err(String::from("kaputt")), |w, h| (w as i32, h as i32));
    assert_eq!(app.status, "Bild konnte nicht gelesen werden: kaputt");
    assert_eq!(app.doc.pages[0].elements.len(), 1);
}

#[test]
fn undo_after_first_edit_restores_the_start() {
    let mut app: EditorApp<Geom> = EditorApp::new();
    app.add_text((0, 0));
    app.undo();
    assert!(app.doc.pages[0].elements.is_empty());
    assert!(app.selection.is_empty());
    assert_eq!(app.status, "Rückgängig.");
    assert!(app.modified);
    assert_eq!(app.next_id, 2);
}

#[test]
fn undo_takes_back_exactly_the_last_action_and_redo_restores_it() {
    let mut app: EditorApp<Geom> = EditorApp::new();
    app.add_text((0, 0));
    app.add_rectangle((0, 0));
    app.undo();
    assert_eq!(ids(&app), vec![1]);
    assert_eq!(app.selection, vec![1]);
    assert!(app.editing.is_none());
    app.redo();
    assert_eq!(ids(&app), vec![1, 2]);
    assert_eq!(app.selection, vec![2]);
    assert_eq!(app.status, "Wiederhergestellt.");
    assert!(!app.history.can_redo());
    app.redo();
    assert_eq!(ids(&app), vec![1, 2]);
    app.undo();
    app.undo();
    assert!(app.doc.pages[0].elements.is_empty());
    assert!(!app.history.can_undo());
}

#[test]
fn redo_after_undo_of_two_additions_gives_both_back() {
    let mut app: EditorApp<Geom> = EditorApp::new();
    app.add_text((0, 0));
    app.add_text((1, 1));
    app.undo();
    app.redo();
    assert_eq!(ids(&app), vec![1, 2]);
    assert_eq!(app.selection, vec![2]);
    assert!(app.editing.is_none());
}

#[test]
fn undo_restores_the_selection_the_action_started_from() {
    let mut app: EditorApp<Geom> = EditorApp::new();
    app.add_text((0, 0));
    app.add_text((1, 1));
    app.select_only(1);
    app.delete_selected();
    assert_eq!(ids(&app), vec![2]);
    app.undo();
    assert_eq!(ids(&app), vec![1, 2]);
    assert_eq!(app.selection, vec![1]);
}

#[test]
fn new_document_starts_a_new_history() {
    let mut app: EditorApp<Geom> = EditorApp::new();
    app.add_text((0, 0));
    app.add_text((1, 1));
    app.add_text((2, 2));
    app.new_document();
    assert!(!app.history.can_undo());
    app.undo();
    assert!(app.doc.pages[0].elements.is_empty());
    app.add_text((3, 3));
    assert_eq!(ids(&app), vec![1]);
    assert_ids_fresh(&app);
}

#[test]
fn edit_after_undo_then_undo_gives_back_the_state_before_the_edit() {
    let mut app: EditorApp<Geom> = EditorApp::new();
    app.add_text((0, 0));
    app.add_text((1, 1));
    app.add_text((2, 2));
    app.undo();
    let before: Vec<u64> = ids(&app);
    app.add_rectangle((5, 5));
    assert_ne!(ids(&app), before);
    app.undo();
    assert_eq!(ids(&app), before);
}

#[test]
fn undo_and_redo_without_history_change_nothing() {
    let mut app: EditorApp<Geom> = EditorApp::new();
    app.set_status(String::from("x"));
    app.undo();
    app.redo();
    assert_eq!(app.status, "x");
    assert!(!app.modified);
}

#[test]
fn new_document_resets_but_keeps_clipboard() {
    let mut app: EditorApp<Geom> = EditorApp::new();
    app.add_text((0, 0));
    app.copy_selection();
    app.new_document();
    assert!(app.doc.pages[0].elements.is_empty());
    assert_eq!(app.next_id, 1);
    assert_eq!(app.clipboard.len(), 1);
    assert_eq!(app.status, "Neues Dokument.");
    assert!(!app.modified);
}

#[test]
fn next_id_counts_up() {
    let mut app: EditorApp<Geom> = EditorApp::new();
    assert_eq!(app.next_id(), 1);
    assert_eq!(app.next_id(), 2);
    assert_eq!(app.next_id, 3);
    app.touch();
    assert!(app.modified);
}

#[test]
fn anchors_in_reading_order() {
    let all = BBoxAnchor::all();
    assert_eq!(all.len(), 9);
    assert_eq!(all[0], BBoxAnchor::TopLeft);
    assert_eq!(all[4], BBoxAnchor::Center);
    assert_eq!(all[8], BBoxAnchor::BotRight);
    assert_eq!(BBoxAnchor::default(), BBoxAnchor::TopLeft);
}

fn all_ids(app: &EditorApp<Geom>) -> Vec<u64> {
    app.doc.pages.iter().flat_map(|p| p.elements.iter().map(|e| e.id)).collect()
}

fn assert_ids_fresh(app: &EditorApp<Geom>) {
    let ids = all_ids(app);
    for (i, a) in ids.iter().enumerate() {
        assert!(*a < app.next_id);
        for b in &ids[i + 1..] {
            assert_ne!(a, b);
        }
    }
}

#[test]
fn ids_stay_unique_and_below_the_counter() {
    let mut app: EditorApp<Geom> = EditorApp::new();
    assert_ids_fresh(&app);
    app.add_text((0, 0));
    app.add_rectangle((0, 0));
    app.add_page();
    app.add_line((0, 0));
    assert_ids_fresh(&app);
    app.select_only(3);
    app.copy_selection();
    app.start_paste();
    app.confirm_paste(|g: Geom| g);
    assert_ids_fresh(&app);
    app.selection = vec![4];
    app.delete_selected();
    assert_ids_fresh(&app);
    app.add_image_from_bytes(png_bytes(2, 2), |w, h| (w as i32, h as i32));
    assert_ids_fresh(&app);
    assert_eq!(all_ids(&app), vec![1, 2, 3, 5]);
}
