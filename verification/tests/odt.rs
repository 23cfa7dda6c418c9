use boxdoc::model::{Document, Element, ElementKind, Orientation, Page, PaperFormat};
use boxdoc::odt::{
    assemble_import, attr, content_xml, esc, extract_text, frame_xml, image_entry_name,
    length_parts, manifest_xml, odt_frames, odt_image_files, rotate_argument, unescape,
    FramePlacement, ImportPart, OdtImageFile, CONTENT_HEAD, CONTENT_TAIL, MANIFEST_HEAD,
    META_XML, MIMETYPE, PAGE_BREAK, STYLES_XML,
};
use boxdoc::store::ImageStore;

type Geom = (i32, i32);

const NS: &str = " xmlns:office=\"urn:oasis:names:tc:opendocument:xmlns:office:1.0\" xmlns:text=\"urn:oasis:names:tc:opendocument:xmlns:text:1.0\" xmlns:draw=\"urn:oasis:names:tc:opendocument:xmlns:drawing:1.0\" xmlns:svg=\"urn:oasis:names:tc:opendocument:xmlns:svg-compatible:1.0\" xmlns:xlink=\"http://www.w3.org/1999/xlink\" xmlns:fo=\"urn:oasis:names:tc:opendocument:xmlns:xsl-fo-compatible:1.0\" xmlns:style=\"urn:oasis:names:tc:opendocument:xmlns:style:1.0\" xmlns:meta=\"urn:oasis:names:tc:opendocument:xmlns:meta:1.0\"";

fn placement(x: &str, y: &str, w: &str, h: &str) -> FramePlacement {
    FramePlacement {
        x: x.to_string(),
        y: y.to_string(),
        w: w.to_string(),
        h: h.to_string(),
        rotation: None,
    }
}

fn text_element(id: u64, text: &str) -> Element<Geom> {
    let mut el = Element::new_text(id, (0, 0));
    el.text = text.to_string();
    el
}

fn png_bytes(w: u32, h: u32) -> Vec<u8> {
    let img = image::RgbaImage::new(w, h);
    let mut buf = std::io::Cursor::new(Vec::new());
    img.write_to(&mut buf, image::ImageFormat::Png).unwrap();
    buf.into_inner()
}

fn chained_escape(s: &str) -> String {
    s.replace('&', "&amp;").replace('<', "&lt;").replace('>', "&gt;")
}

fn chained_unescape(s: &str) -> String {
    s.replace("&lt;", "<").replace("&gt;", ">").replace("&amp;", "&")
}

#[test]
fn escaping_matches_chained_replacement() {
    let samples = [
        "", "plain", "a<b>c&d", "&&<<>>", "&amp;", "&lt;&gt;", "ä<ö>ü&ß", "x & y < z > w",
        "&amp;lt;", "<<&>>", "; & ;",
    ];
    for s in samples {
        assert_eq!(esc(s), chained_escape(s));
        assert_eq!(unescape(s), chained_unescape(s));
        assert_eq!(unescape(&esc(s)), s);
    }
    assert_eq!(esc("a<b"), "a&lt;b");
    assert_eq!(unescape("&lt;&amp;lt;&gt;"), "<&lt;>");
}

#[test]
fn fixed_parts_of_the_archive() {
    assert_eq!(MIMETYPE, "application/vnd.oasis.opendocument.text");
    let head = format!(
        "<?xml version=\"1.0\" encoding=\"UTF-8\"?>\n<office:document-content {} office:version=\"1.2\">\n <office:automatic-styles/>\n <office:body>\n  <office:text>\n",
        NS
    );
    assert_eq!(CONTENT_HEAD, head);
    assert_eq!(CONTENT_TAIL, "  </office:text>\n </office:body>\n</office:document-content>\n");
    assert_eq!(PAGE_BREAK, "   <text:p text:style-name=\"Standard\"/>\n");
    let styles = format!(
        "<?xml version=\"1.0\" encoding=\"UTF-8\"?>\n<office:document-styles {} office:version=\"1.2\">\n<office:styles><style:style style:name=\"Standard\" style:family=\"paragraph\"/></office:styles>\n<office:automatic-styles/>\n</office:document-styles>\n",
        NS
    );
    assert_eq!(STYLES_XML, styles);
    let meta = format!(
        "<?xml version=\"1.0\" encoding=\"UTF-8\"?>\n<office:document-meta {} office:version=\"1.2\">\n<office:meta><meta:generator>BoxDoc</meta:generator></office:meta>\n</office:document-meta>\n",
        NS
    );
    assert_eq!(META_XML, meta);
}

#[test]
fn text_frame_is_written_with_escaped_paragraphs() {
    let el = text_element(1, "a<b\n\nzweite");
    let files: Vec<OdtImageFile> = Vec::new();
    let xml = frame_xml(&el, &files, &placement("1.000", "2.000", "3.000", "4.000"));
    assert_eq!(
        xml,
        "   <draw:frame text:anchor-type=\"page\" svg:x=\"1.000cm\" svg:y=\"2.000cm\" svg:width=\"3.000cm\" svg:height=\"4.000cm\">\n    <draw:text-box><text:p text:style-name=\"Standard\">a&lt;b</text:p><text:p text:style-name=\"Standard\"/><text:p text:style-name=\"Standard\">zweite</text:p></draw:text-box>\n   </draw:frame>\n"
    );
}

#[test]
fn image_frame_refers_to_its_picture_and_rotation() {
    let el: Element<Geom> = Element::new_image(7, 3, 2, (0, 0));
    let files = vec![
        OdtImageFile { id: 6, name: "Pictures/6.png".to_string(), mime: "image/png" },
        OdtImageFile { id: 7, name: "Pictures/7.jpg".to_string(), mime: "image/jpeg" },
    ];
    let mut p = placement("0.000", "0.500", "1.250", "2.000");
    p.rotation = Some(("0.5236".to_string(), "0.625".to_string(), "1.500".to_string()));
    let xml = frame_xml(&el, &files, &p);
    assert_eq!(
        xml,
        "   <draw:frame text:anchor-type=\"page\" svg:x=\"0.000cm\" svg:y=\"0.500cm\" svg:width=\"1.250cm\" svg:height=\"2.000cm\" draw:transform=\"rotate (0.5236 0.625 1.500)\">\n    <draw:image xlink:href=\"Pictures/7.jpg\" xlink:type=\"simple\" xlink:actuate=\"onLoad\"/>\n   </draw:frame>\n"
    );
    let missing = frame_xml(&Element::<Geom>::new_image(9, 1, 1, (0, 0)), &files, &p);
    assert!(missing.contains("<draw:image xlink:href=\"\" xlink:type"));
}

#[test]
fn content_puts_pages_in_order_with_breaks() {
    let mut page1: Page<Geom> = Page::new();
    page1.elements.push(text_element(1, "eins"));
    page1.elements.push(Element::new_rectangle(2, (0, 0)));
    let mut page2: Page<Geom> = Page::new();
    page2.elements.push(text_element(3, "drei"));
    let doc = Document { format: PaperFormat::A4, orientation: Orientation::Portrait, pages: vec![page1, page2] };
    let files: Vec<OdtImageFile> = Vec::new();
    let pl = vec![
        vec![placement("1", "1", "1", "1"), placement("2", "2", "2", "2")],
        vec![placement("3", "3", "3", "3")],
    ];
    let content = content_xml(&doc, &files, &pl);
    let f1 = frame_xml(&doc.pages[0].elements[0], &files, &pl[0][0]);
    let f2 = frame_xml(&doc.pages[0].elements[1], &files, &pl[0][1]);
    let f3 = frame_xml(&doc.pages[1].elements[0], &files, &pl[1][0]);
    assert_eq!(content, format!("{}{}{}{}{}{}", CONTENT_HEAD, f1, f2, PAGE_BREAK, f3, CONTENT_TAIL));
    assert!(f2.contains("<draw:text-box><text:p text:style-name=\"Standard\"/></draw:text-box>"));
}

#[test]
fn manifest_lists_every_image_file() {
    let files = vec![
        OdtImageFile { id: 1, name: "Pictures/1.png".to_string(), mime: "image/png" },
        OdtImageFile { id: 2, name: "Pictures/2.jpg".to_string(), mime: "image/jpeg" },
    ];
    let m = manifest_xml(&files);
    assert_eq!(
        m,
        format!(
            "{} <manifest:file-entry manifest:media-type=\"image/png\" manifest:full-path=\"Pictures/1.png\"/>\n <manifest:file-entry manifest:media-type=\"image/jpeg\" manifest:full-path=\"Pictures/2.jpg\"/>\n</manifest:manifest>\n",
            MANIFEST_HEAD
        )
    );
    assert!(MANIFEST_HEAD.ends_with("manifest:full-path=\"meta.xml\"/>\n"));
}

#[test]
fn image_files_are_named_by_kind() {
    let mut store = ImageStore::new();
    store.insert(3, vec![0x89, b'P', b'N', b'G', 1], (1, 1));
    store.insert(4, vec![0xFF, 0xD8, 0xFF, 0], (1, 1));
    store.insert(5, vec![1, 2, 3], (1, 1));
    let mut files = odt_image_files(&store);
    files.sort_by_key(|f| f.id);
    assert_eq!(files.len(), 3);
    assert_eq!((files[0].name.as_str(), files[0].mime), ("Pictures/3.png", "image/png"));
    assert_eq!((files[1].name.as_str(), files[1].mime), ("Pictures/4.jpg", "image/jpeg"));
    assert_eq!((files[2].name.as_str(), files[2].mime), ("Pictures/5.png", "image/png"));
}

#[test]
fn attributes_are_read_up_to_the_quote() {
    let block = " svg:x=\"2.5cm\" svg:y=\"1cm\" xlink:href=\"./Pictures/1.png\"";
    assert_eq!(attr(block, "svg:x"), Some("2.5cm".to_string()));
    assert_eq!(attr(block, "svg:y"), Some("1cm".to_string()));
    assert_eq!(attr(block, "xlink:href"), Some("./Pictures/1.png".to_string()));
    assert_eq!(attr(block, "svg:width"), None);
    assert_eq!(attr(" a=\"open", "a"), None);
}

#[test]
fn paragraphs_are_trimmed_unescaped_and_joined() {
    assert_eq!(extract_text("<text:p a=\"b\">  x &amp; y </text:p><text:p>z</text:p>"), "x & y\nz");
    assert_eq!(extract_text("<text:p a>x</text:p><text:p/>"), "x");
    assert_eq!(extract_text("no paragraphs"), "");
    assert_eq!(extract_text("<text:p>unclosed"), "");
}

#[test]
fn rotation_angle_is_the_first_word() {
    assert_eq!(rotate_argument("rotate (0.5236 1.0 2.0)"), Some("0.5236".to_string()));
    assert_eq!(rotate_argument("translate(1) rotate(  -1.5 )"), Some("-1.5".to_string()));
    assert_eq!(rotate_argument("rotate ( )"), Some("0".to_string()));
    assert_eq!(rotate_argument("scale(2)"), None);
    assert_eq!(rotate_argument("rotate (1"), None);
    assert_eq!(rotate_argument("rotate 1)"), None);
}

#[test]
fn lengths_split_into_number_and_unit() {
    assert_eq!(length_parts("2.540cm"), ("2.540".to_string(), true));
    assert_eq!(length_parts("12pt"), ("12".to_string(), false));
    assert_eq!(length_parts("-1.5cm"), ("-1.5".to_string(), true));
    assert_eq!(length_parts("abc"), ("".to_string(), false));
}

#[test]
fn entry_names_lose_leading_dot_slashes() {
    assert_eq!(image_entry_name("./Pictures/1.png"), "Pictures/1.png");
    assert_eq!(image_entry_name("/Pictures/x"), "Pictures/x");
    assert_eq!(image_entry_name("././a"), "a");
    assert_eq!(image_entry_name("//a"), "a");
    assert_eq!(image_entry_name("Pictures/b"), "Pictures/b");
}

#[test]
fn exported_frames_are_read_back() {
    let mut page: Page<Geom> = Page::new();
    page.elements.push(text_element(1, "Titel & mehr\nZeile <2>"));
    page.elements.push(Element::new_image(2, 3, 2, (0, 0)));
    let doc = Document { format: PaperFormat::A4, orientation: Orientation::Portrait, pages: vec![page] };
    let files = vec![OdtImageFile { id: 2, name: "Pictures/2.png".to_string(), mime: "image/png" }];
    let mut rotated = placement("0.000", "0.000", "5.000", "5.000");
    rotated.rotation = Some(("1.5708".to_string(), "2.500".to_string(), "2.500".to_string()));
    let pl = vec![vec![placement("1.000", "2.000", "3.000", "4.000"), rotated]];
    let content = content_xml(&doc, &files, &pl);
    let frames = odt_frames(&content);
    assert_eq!(frames.len(), 2);
    assert_eq!(frames[0].x, Some("1.000cm".to_string()));
    assert_eq!(frames[0].y, Some("2.000cm".to_string()));
    assert_eq!(frames[0].width, Some("3.000cm".to_string()));
    assert_eq!(frames[0].height, Some("4.000cm".to_string()));
    assert_eq!(frames[0].href, None);
    assert_eq!(frames[0].transform, None);
    assert_eq!(frames[0].text, "Titel & mehr\nZeile <2>");
    assert_eq!(frames[1].href, Some("Pictures/2.png".to_string()));
    assert_eq!(frames[1].transform, Some("rotate (1.5708 2.500 2.500)".to_string()));
    assert_eq!(rotate_argument(frames[1].transform.as_ref().unwrap()), Some("1.5708".to_string()));
    assert_eq!(frames[1].text, "");
}

#[test]
fn exported_numbers_are_parsed_back_by_the_import() {
    let mut page: Page<Geom> = Page::new();
    page.elements.push(text_element(7, "Kasten"));
    let doc = Document { format: PaperFormat::A4, orientation: Orientation::Portrait, pages: vec![page] };
    let mut pl = placement("-1.250", "0.5", "10", "2.75");
    pl.rotation = Some(("-0.7854".to_string(), "5".to_string(), "1.375".to_string()));
    let content = content_xml(&doc, &Vec::new(), &vec![vec![pl]]);
    let frames = odt_frames(&content);
    assert_eq!(frames.len(), 1);
    let f = &frames[0];
    assert_eq!(length_parts(f.x.as_ref().unwrap()), ("-1.250".to_string(), true));
    assert_eq!(length_parts(f.y.as_ref().unwrap()), ("0.5".to_string(), true));
    assert_eq!(length_parts(f.width.as_ref().unwrap()), ("10".to_string(), true));
    assert_eq!(length_parts(f.height.as_ref().unwrap()), ("2.75".to_string(), true));
    assert_eq!(rotate_argument(f.transform.as_ref().unwrap()), Some("-0.7854".to_string()));
    assert_eq!(f.text, "Kasten");
}

#[test]
fn unrotated_image_frame_is_read_without_rotation() {
    let mut page: Page<Geom> = Page::new();
    page.elements.push(Element::new_image(4, 9, 3, (0, 0)));
    let doc = Document { format: PaperFormat::A4, orientation: Orientation::Portrait, pages: vec![page] };
    let files = vec![OdtImageFile { id: 4, name: "Pictures/4.jpg".to_string(), mime: "image/jpeg" }];
    let content = content_xml(&doc, &files, &vec![vec![placement("1", "2", "3", "4")]]);
    let frames = odt_frames(&content);
    assert_eq!(frames.len(), 1);
    assert_eq!(frames[0].transform, None);
    assert_eq!(frames[0].href, Some("Pictures/4.jpg".to_string()));
    assert_eq!(frames[0].x, Some("1cm".to_string()));
}

#[test]
fn text_that_looks_like_an_attribute_is_read_as_one() {
    let mut page: Page<Geom> = Page::new();
    page.elements.push(text_element(1, "siehe xlink:href=\"bild.png\" und draw:transform=\"rotate (2)\""));
    let doc = Document { format: PaperFormat::A4, orientation: Orientation::Portrait, pages: vec![page] };
    let content = content_xml(&doc, &Vec::new(), &vec![vec![placement("1", "2", "3", "4")]]);
    let frames = odt_frames(&content);
    assert_eq!(frames.len(), 1);
    assert_eq!(frames[0].href, Some("bild.png".to_string()));
    assert_eq!(frames[0].transform, Some("rotate (2)".to_string()));
    assert_eq!(rotate_argument(frames[0].transform.as_ref().unwrap()), Some("2".to_string()));
}

#[test]
fn import_builds_one_page_with_fresh_ids() {
    let png = png_bytes(3, 2);
    let parts: Vec<ImportPart<Geom>> = vec![
        ImportPart::image(png.clone(), (9, 9), (1, 1)),
        ImportPart::Text { text: "  \n ".to_string(), geom: (2, 2) },
        ImportPart::Missing,
        ImportPart::Text { text: "Hallo".to_string(), geom: (3, 3) },
        ImportPart::image(vec![1, 2, 3], (5, 6), (4, 4)),
    ];
    let (doc, images, next_id) = assemble_import(parts);
    assert_eq!(doc.format, PaperFormat::A4);
    assert_eq!(doc.orientation, Orientation::Portrait);
    assert_eq!(doc.pages.len(), 1);
    let els = &doc.pages[0].elements;
    assert_eq!(els.len(), 3);
    assert_eq!((els[0].id, els[0].kind, els[0].image_w, els[0].image_h), (1, ElementKind::Image, 3, 2));
    assert_eq!(els[0].geom, (1, 1));
    assert_eq!((els[1].id, els[1].kind, els[1].text.as_str()), (2, ElementKind::Text, "Hallo"));
    assert_eq!(els[1].geom, (3, 3));
    assert_eq!((els[2].id, els[2].image_w, els[2].image_h), (3, 5, 6));
    assert_eq!(next_id, 4);
    assert_eq!(images.map.len(), 2);
    assert_eq!(images.map.get(&1).unwrap().dim, (3, 2));
    assert_eq!(images.map.get(&1).unwrap().png, png);
    assert_eq!(images.map.get(&3).unwrap().dim, (5, 6));
    assert_eq!(images.map.get(&3).unwrap().png, vec![1, 2, 3]);
}

#[test]
fn every_element_of_every_page_is_found_in_order() {
    let mut p1: Page<Geom> = Page::new();
    p1.elements.push(text_element(1, "eins"));
    let p2: Page<Geom> = Page::new();
    let mut p3: Page<Geom> = Page::new();
    p3.elements.push(Element::new_image(2, 4, 4, (0, 0)));
    p3.elements.push(text_element(3, "drei\nvier"));
    let doc = Document { format: PaperFormat::A5, orientation: Orientation::Landscape, pages: vec![p1, p2, p3] };
    let files = vec![OdtImageFile { id: 2, name: "Pictures/2.png".to_string(), mime: "image/png" }];
    let pl = vec![
        vec![placement("1.000", "1.000", "1.000", "1.000")],
        vec![],
        vec![placement("2.000", "2.000", "2.000", "2.000"), placement("3.000", "3.000", "3.000", "3.000")],
    ];
    let content = content_xml(&doc, &files, &pl);
    assert_eq!(content.matches(PAGE_BREAK).count(), 2);
    let frames = odt_frames(&content);
    assert_eq!(frames.len(), 3);
    assert_eq!(frames[0].text, "eins");
    assert_eq!(frames[0].x, Some("1.000cm".to_string()));
    assert_eq!(frames[1].href, Some("Pictures/2.png".to_string()));
    assert_eq!(frames[1].x, Some("2.000cm".to_string()));
    assert_eq!(frames[2].text, "drei\nvier");
    assert_eq!(frames[2].height, Some("3.000cm".to_string()));
}

#[test]
fn empty_document_has_no_frames() {
    let doc: Document<Geom> = Document::new();
    let files: Vec<OdtImageFile> = Vec::new();
    let content = content_xml(&doc, &files, &vec![vec![]]);
    assert_eq!(content, format!("{}{}", CONTENT_HEAD, CONTENT_TAIL));
    assert!(odt_frames(&content).is_empty());
}

#[test]
fn lines_with_outer_spaces_or_empty_lines_do_not_come_back_unchanged() {
    let mut page: Page<Geom> = Page::new();
    page.elements.push(text_element(1, "  eingerückt\n\nnach Leerzeile"));
    let doc = Document { format: PaperFormat::A4, orientation: Orientation::Portrait, pages: vec![page] };
    let files: Vec<OdtImageFile> = Vec::new();
    let content = content_xml(&doc, &files, &vec![vec![placement("0", "0", "1", "1")]]);
    let frames = odt_frames(&content);
    assert_eq!(frames.len(), 1);
    assert_ne!(frames[0].text, "  eingerückt\n\nnach Leerzeile");
    assert!(frames[0].text.starts_with("eingerückt\n"));
}
