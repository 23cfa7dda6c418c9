use boxdoc::codec::{is_jpeg, is_png, looks_like_image, size_or};
use boxdoc::model::{u32_through_f32, Document, Element, ElementKind, Orientation, PaperFormat, TextAlign, VAlign};
use boxdoc::settings::{load_or_detect, PageAlign, PanelSide, ScrollMode, Settings, Theme, Units};
use boxdoc::text::{push_decimal, white};

fn check_through_f32(v: u32) {
    assert_eq!(u32_through_f32(v), (v as f32) as u32, "value {}", v);
}

#[test]
fn pixel_sizes_round_like_f32() {
    for v in 0..200_000u32 {
        check_through_f32(v);
    }
    for k in 20..32u32 {
        let p = 1u32 << k;
        for d in 0..40u32 {
            check_through_f32(p.wrapping_add(d));
            check_through_f32(p.wrapping_sub(d));
        }
    }
    let mut x: u32 = 12345;
    for _ in 0..200_000 {
        x = x.wrapping_mul(1664525).wrapping_add(1013904223);
        check_through_f32(x);
    }
    assert_eq!(u32_through_f32(16_777_217), 16_777_216);
    assert_eq!(u32_through_f32(16_777_219), 16_777_220);
    assert_eq!(u32_through_f32(u32::MAX), u32::MAX);
}

#[test]
fn new_image_stores_rounded_sizes() {
    let el: Element<()> = Element::new_image(5, 0, 16_777_217, ());
    assert_eq!(el.kind, ElementKind::Image);
    assert_eq!((el.image_w, el.image_h), (1, 16_777_216));
    assert_eq!(el.color, [255, 255, 255, 255]);
    assert_eq!(el.text, "");
    let t: Element<()> = Element::new_text(6, ());
    assert_eq!(t.text, "Text");
    assert_eq!(t.align, TextAlign::Left);
    assert_eq!(t.valign, VAlign::Top);
    assert!(!t.bold && !t.italic && !t.underline);
}

#[test]
fn paper_formats() {
    let all = PaperFormat::all();
    assert_eq!(all, [PaperFormat::A4, PaperFormat::A3, PaperFormat::A5, PaperFormat::Letter, PaperFormat::Legal]);
    let labels: Vec<&str> = all.iter().map(|f| f.label()).collect();
    assert_eq!(labels, vec!["A4", "A3", "A5", "Letter", "Legal"]);
    let d: Document<()> = Document::default();
    assert_eq!(d.format, PaperFormat::A4);
    assert_eq!(d.orientation, Orientation::Portrait);
    assert_eq!(d.pages.len(), 1);
    assert!(d.current_page(0).is_some());
    assert!(d.current_page(1).is_none());
}

#[test]
fn settings_defaults_and_mobile_panel() {
    let s = Settings::default();
    assert_eq!(s.theme, Theme::Light);
    assert_eq!(s.panel_side, PanelSide::Right);
    assert_eq!(s.page_align, PageAlign::Center);
    assert_eq!(s.scroll_mode, ScrollMode::Continuous);
    assert_eq!(s.units, Units::Cm);
    assert_eq!(load_or_detect(s, true).panel_side, PanelSide::Bottom);
    assert_eq!(load_or_detect(s, false).panel_side, PanelSide::Right);
    let left = Settings { panel_side: PanelSide::Left, theme: Theme::DarkCalm, ..s };
    assert_eq!(load_or_detect(left, true), left);
    assert_eq!(Theme::all(), [Theme::Light, Theme::DarkClassic, Theme::DarkCalm]);
    assert_eq!(PanelSide::all(), [PanelSide::Right, PanelSide::Left, PanelSide::Bottom]);
    assert_eq!(Units::all(), [Units::Cm, Units::Mm, Units::Pt, Units::Inch]);
}

#[test]
fn white_space_is_unicode_white_space() {
    for c in (0u32..=0x10FFFF).filter_map(char::from_u32) {
        assert_eq!(white(c), c.is_whitespace(), "char {:?}", c);
    }
}

#[test]
fn decimals() {
    for n in [0u64, 7, 10, 99, 100, 1234567890, u64::MAX] {
        let mut s = String::from("x");
        push_decimal(&mut s, n);
        assert_eq!(s, format!("x{}", n));
    }
}

#[test]
fn image_signatures() {
    assert!(is_png(&[0x89, b'P', b'N', b'G', 0]));
    assert!(!is_png(&[0x89, b'P', b'N']));
    assert!(is_jpeg(&[0xFF, 0xD8, 0xFF]));
    assert!(!is_jpeg(&[0xFF, 0xD8, 0xFE]));
    assert!(looks_like_image(b"BMxx", ""));
    assert!(looks_like_image(&[1, 2], "image/webp"));
    assert!(!looks_like_image(&[1, 2], "imag"));
    assert!(!looks_like_image(&[1, 2], "text/plain"));
    assert_eq!(size_or(Ok((3, 4)), (1, 1)), (3, 4));
    assert_eq!(size_or(Err("e".to_string()), (1, 1)), (1, 1));
}
