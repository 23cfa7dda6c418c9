use boxdoc::editor::{CropEdge, EditorApp};
use boxdoc::selection::{HandleHit, PointerAction};

type Geom = (i32, i32);

fn drag_ids(a: &PointerAction<Geom>) -> Option<Vec<u64>> {
    match a {
        PointerAction::Drag(v) => Some(v.iter().map(|e| e.id).collect()),
        _ => None,
    }
}

fn three_texts() -> EditorApp<Geom> {
    let mut app: EditorApp<Geom> = EditorApp::new();
    app.add_text((0, 0));
    app.add_text((1, 1));
    app.add_text((2, 2));
    app.editing = None;
    app
}

#[test]
fn press_on_empty_canvas_clears_the_selection_and_opens_a_box() {
    let mut app = three_texts();
    app.crop_mode = true;
    let a = app.pointer_down(None, HandleHit::NoHandle, false);
    assert!(matches!(a, PointerAction::SelectionBox));
    assert!(app.selection.is_empty());
    assert!(!app.crop_mode);
}

#[test]
fn shift_press_on_empty_canvas_keeps_the_selection() {
    let mut app = three_texts();
    let a = app.pointer_down(None, HandleHit::NoHandle, true);
    assert!(matches!(a, PointerAction::SelectionBox));
    assert_eq!(app.selection, vec![3]);
}

#[test]
fn shift_click_toggles_and_moves_nothing() {
    let mut app = three_texts();
    let a = app.pointer_down(Some(1), HandleHit::NoHandle, true);
    assert!(matches!(a, PointerAction::Toggled));
    assert_eq!(app.selection, vec![3, 1]);
    let a = app.pointer_down(Some(3), HandleHit::NoHandle, true);
    assert!(matches!(a, PointerAction::Toggled));
    assert_eq!(app.selection, vec![1]);
}

#[test]
fn click_on_a_member_of_a_multiple_selection_drags_all_in_page_order() {
    let mut app = three_texts();
    app.selection = vec![3, 1];
    app.crop_mode = true;
    let a = app.pointer_down(Some(1), HandleHit::NoHandle, false);
    assert_eq!(drag_ids(&a), Some(vec![1, 3]));
    assert_eq!(app.selection, vec![3, 1]);
    assert!(app.crop_mode);
}

#[test]
fn click_on_another_element_selects_it_alone_and_drags_it() {
    let mut app = three_texts();
    app.selection = vec![3, 1];
    let before = app.doc.clone();
    let a = app.pointer_down(Some(2), HandleHit::NoHandle, false);
    assert_eq!(drag_ids(&a), Some(vec![2]));
    assert_eq!(app.selection, vec![2]);
    assert_eq!(app.doc.pages[0].elements.len(), before.pages[0].elements.len());
}

#[test]
fn a_handle_of_the_primary_element_wins() {
    let mut app = three_texts();
    let a = app.pointer_down(Some(1), HandleHit::CropEdge(CropEdge::Top), false);
    assert!(matches!(a, PointerAction::Handle(3, HandleHit::CropEdge(CropEdge::Top))));
    assert_eq!(app.selection, vec![3]);
    app.clear_selection();
    let a = app.pointer_down(Some(1), HandleHit::Corner(2), false);
    assert_eq!(drag_ids(&a), Some(vec![1]));
}

#[test]
fn texts_of_a_multiple_selection_are_set_together() {
    let mut app = three_texts();
    app.add_rectangle((5, 5));
    app.selection = vec![1, 3, 4];
    assert_eq!(app.selected_texts().len(), 2);
    assert_eq!(app.uniform_selected_text(), Some(String::new()));
    app.set_selected_texts("Hallo".to_string());
    let els = &app.doc.pages[0].elements;
    assert_eq!(els[0].text, "Hallo");
    assert_eq!(els[1].text, "");
    assert_eq!(els[2].text, "Hallo");
    assert_eq!(els[3].text, "");
    assert!(app.modified);
    app.selection = vec![1, 2];
    assert_eq!(app.uniform_selected_text(), None);
    app.undo();
    assert_eq!(app.doc.pages[0].elements[0].text, "");
    assert_eq!(app.selection, vec![1, 3, 4]);
}

#[test]
fn fonts_of_a_multiple_selection_are_set_together() {
    let mut app = three_texts();
    app.selection = vec![2, 3];
    assert_eq!(app.uniform_selected_font(), Some(app.doc.pages[0].elements[1].font.clone()));
    app.set_selected_fonts("lora".to_string());
    assert_eq!(app.uniform_selected_font(), Some("lora".to_string()));
    assert_ne!(app.doc.pages[0].elements[0].font, "lora");
    app.selection = vec![1, 2];
    assert_eq!(app.uniform_selected_font(), None);
}

#[test]
fn no_selected_text_gives_no_shared_value() {
    let mut app: EditorApp<Geom> = EditorApp::new();
    app.add_rectangle((0, 0));
    assert!(app.selected_texts().is_empty());
    assert_eq!(app.uniform_selected_text(), None);
    assert_eq!(app.uniform_selected_font(), None);
}
