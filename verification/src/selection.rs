//! Decisions on the selection: what a press of the pointer on the canvas
//! does to it, and the text edits that apply to every selected text.
//!
//! Whether the pointer is on an element or on one of its handles is a
//! question of floating-point geometry, answered by the caller; what
//! follows from the answer is decided here.
use vstd::prelude::*;

use crate::editor::{doc_fresh, page_ids_distinct, with_ids, with_page, CropEdge, EditorApp};
use crate::model::{DocumentView, Element, ElementKind};

verus! {

/// The handle of the primary selected element under the pointer, if any.
#[derive(Debug, Clone, Copy, PartialEq, Eq, Structural)]
pub enum HandleHit {
    NoHandle,
    /// An edge of the crop frame of an image in crop mode.
    CropEdge(CropEdge),
    /// An end of a line: the start when `true`.
    LineEnd(bool),
    /// The rotation grip.
    RotateGrip,
    /// A corner, numbered clockwise from the top left.
    Corner(u8),
}

/// What a press of the pointer starts.
pub enum PointerAction<G> {
    /// Working the handle of the primary selected element.
    Handle(u64, HandleHit),
    /// Moving these elements, in page order.
    Drag(Vec<Element<G>>),
    /// The selection was toggled; nothing moves.
    Toggled,
    /// A selection rectangle opens.
    SelectionBox,
}

/// The current page's elements, or none when the page index is off.
pub open spec fn page_of<G>(d: DocumentView<G>, i: int) -> Seq<Element<G>> {
    if 0 <= i < d.pages.len() {
        d.pages[i]
    } else {
        Seq::empty()
    }
}

/// The selection after toggling `id`: appended when absent, otherwise its
/// first occurrence replaced by the last selected id and the last dropped.
pub open spec fn toggled(sel: Seq<u64>, id: u64, r: Seq<u64>) -> bool {
    &&& !sel.contains(id) ==> r == sel.push(id)
    &&& sel.contains(id) ==> exists|p: int|
        0 <= p < sel.len() && sel[p] == id && (forall|q: int| 0 <= q < p ==> sel[q] != id) && r
            == sel.update(p, sel.last()).drop_last()
}

/// The selected text elements of a page, in page order.
pub open spec fn selected_texts<G>(s: Seq<Element<G>>, sel: Seq<u64>) -> Seq<Element<G>>
    decreases s.len(),
{
    if s.len() == 0 {
        s
    } else {
        let r = selected_texts(s.drop_last(), sel);
        if sel.contains(s.last().id) && s.last().kind == ElementKind::Text {
            r.push(s.last())
        } else {
            r
        }
    }
}

/// `e` with `value` as its text (or, when `font`, as its font) if it is a
/// selected text element; otherwise `e` itself.
pub open spec fn set_if_selected<G>(e: Element<G>, sel: Seq<u64>, value: String, font: bool) -> Element<G> {
    if sel.contains(e.id) && e.kind == ElementKind::Text {
        if font {
            Element { font: value, ..e }
        } else {
            Element { text: value, ..e }
        }
    } else {
        e
    }
}

/// A page with `value` set on each selected text element.
pub open spec fn set_on_selected<G>(s: Seq<Element<G>>, sel: Seq<u64>, value: String, font: bool) -> Seq<
    Element<G>,
> {
    Seq::new(s.len(), |k: int| set_if_selected(s[k], sel, value, font))
}

/// The text of `e`, or its font when `font`.
pub open spec fn field_of<G>(e: Element<G>, font: bool) -> Seq<char> {
    if font {
        e.font@
    } else {
        e.text@
    }
}

/// The value that all selected texts share (their text, or when `font`
/// their font), when there is at least one and they agree.
pub open spec fn uniform<G>(ts: Seq<Element<G>>, font: bool, r: Option<String>) -> bool {
    &&& r is Some <==> (ts.len() > 0 && forall|k: int|
        0 <= k < ts.len() ==> #[trigger] field_of(ts[k], font) == field_of(ts[0], font))
    &&& r matches Some(v) ==> v@ == field_of(ts[0], font)
}

/// Changing what a page holds, but not its ids, keeps the document fresh.
proof fn lemma_same_ids_fresh<G>(d: DocumentView<G>, i: int, els: Seq<Element<G>>, n: int)
    requires
        0 <= i < d.pages.len(),
        doc_fresh(d, n),
        els.len() == d.pages[i].len(),
        forall|k: int| 0 <= k < els.len() ==> (#[trigger] els[k]).id == d.pages[i][k].id,
    ensures
        doc_fresh(with_page(d, i, els), n),
{
    let r = with_page(d, i, els);
    assert forall|p: int, e: int| 0 <= p < r.pages.len() && 0 <= e < r.pages[p].len() implies (
    #[trigger] r.pages[p][e]).id < n by {
        if p == i {
            assert(r.pages[p][e].id == d.pages[i][e].id);
        } else {
            assert(r.pages[p] == d.pages[p]);
        }
    }
    assert forall|p: int| 0 <= p < r.pages.len() implies page_ids_distinct(#[trigger] r.pages[p]) by {
        if p == i {
            assert(page_ids_distinct(d.pages[i]));
            assert forall|a: int, b: int| 0 <= a < b < els.len() implies (#[trigger] els[a]).id != (
            #[trigger] els[b]).id by {
                assert(els[a].id == d.pages[i][a].id);
                assert(els[b].id == d.pages[i][b].id);
            }
        } else {
            assert(r.pages[p] == d.pages[p]);
        }
    }
    assert forall|p: int, q: int, e: int, f: int|
        0 <= p < r.pages.len() && 0 <= q < r.pages.len() && p != q && 0 <= e < r.pages[p].len() && 0 <= f
            < r.pages[q].len() implies (#[trigger] r.pages[p][e]).id != (#[trigger] r.pages[q][f]).id by {
        if p == i {
            assert(r.pages[p][e].id == d.pages[i][e].id);
            assert(r.pages[q] == d.pages[q]);
            assert(d.pages[i][e].id != d.pages[q][f].id);
        } else if q == i {
            assert(r.pages[q][f].id == d.pages[i][f].id);
            assert(r.pages[p] == d.pages[p]);
            assert(d.pages[p][e].id != d.pages[i][f].id);
        } else {
            assert(r.pages[p] == d.pages[p]);
            assert(r.pages[q] == d.pages[q]);
        }
    }
}

/// The selected text elements of `v`, in order.
fn selected_text_elements<G: Copy>(v: &Vec<Element<G>>, ids: &Vec<u64>) -> (r: Vec<Element<G>>)
    ensures
        r@ == selected_texts(v@, ids@),
{
    let mut r: Vec<Element<G>> = Vec::new();
    let mut i: usize = 0;
    while i < v.len()
        invariant
            i <= v@.len(),
            r@ == selected_texts(v@.take(i as int), ids@),
        decreases v@.len() - i,
    {
        let listed = crate::editor::first_position(ids, v[i].id).is_some();
        assert(v@.take(i + 1).drop_last() =~= v@.take(i as int));
        if listed && v[i].kind == ElementKind::Text {
            r.push(v[i].clone());
        }
        i = i + 1;
    }
    assert(v@.take(v@.len() as int) =~= v@);
    r
}

/// `v` with `value` set on each selected text element.
fn set_on_selected_elements<G: Copy>(v: &Vec<Element<G>>, ids: &Vec<u64>, value: &String, font: bool) -> (r: Vec<
    Element<G>,
>)
    ensures
        r@ == set_on_selected(v@, ids@, *value, font),
{
    let mut r: Vec<Element<G>> = Vec::new();
    let mut i: usize = 0;
    while i < v.len()
        invariant
            i <= v@.len(),
            r@.len() == i,
            forall|k: int| 0 <= k < i ==> r@[k] == set_if_selected(v@[k], ids@, *value, font),
        decreases v@.len() - i,
    {
        let mut e = v[i].clone();
        if first_listed(ids, e.id) && e.kind == ElementKind::Text {
            if font {
                e.font = value.clone();
            } else {
                e.text = value.clone();
            }
        }
        r.push(e);
        i = i + 1;
    }
    assert(r@ =~= set_on_selected(v@, ids@, *value, font));
    r
}

/// Whether `id` is listed.
fn first_listed(ids: &Vec<u64>, id: u64) -> (r: bool)
    ensures
        r == ids@.contains(id),
{
    crate::editor::first_position(ids, id).is_some()
}

impl<G: Copy> EditorApp<G> {
    /// Decides what a press of the pointer does. `handle` is the handle of
    /// the primary selected element under the pointer, `hit` the topmost
    /// element under it, and `shift` whether Shift is held.
    ///
    /// A handle wins and is worked. Otherwise a press on empty canvas
    /// clears the selection (kept under Shift), ends crop mode and opens a
    /// selection rectangle; a Shift press on an element toggles it in the
    /// selection and ends crop mode; a plain press on an element of a
    /// larger selection moves the whole selection, and on any other element
    /// selects it alone, ends crop mode and moves it. The document never
    /// changes here.
    pub fn pointer_down(&mut self, hit: Option<u64>, handle: HandleHit, shift: bool) -> (r: PointerAction<G>)
        ensures
            final(self).doc == old(self).doc,
            final(self).page_index == old(self).page_index,
            final(self).next_id == old(self).next_id,
            final(self).editing == old(self).editing,
            final(self).edit_focus == old(self).edit_focus,
            final(self).images == old(self).images,
            final(self).modified == old(self).modified,
            final(self).status == old(self).status,
            final(self).history == old(self).history,
            final(self).same_clipboard(*old(self)),
            handle != HandleHit::NoHandle && old(self).selection@.len() > 0 ==> {
                &&& r matches PointerAction::Handle(id, h) && id == old(self).selection@[0] && h
                    == handle
                &&& final(self).selection == old(self).selection
                &&& final(self).crop_mode == old(self).crop_mode
            },
            handle == HandleHit::NoHandle || old(self).selection@.len() == 0 ==> match hit {
                None => {
                    &&& r is SelectionBox
                    &&& final(self).selection@ == (if shift {
                        old(self).selection@
                    } else {
                        Seq::<u64>::empty()
                    })
                    &&& !final(self).crop_mode
                },
                Some(id) => if shift {
                    &&& r is Toggled
                    &&& toggled(old(self).selection@, id, final(self).selection@)
                    &&& !final(self).crop_mode
                } else {
                    &&& r matches PointerAction::Drag(v) && v@ == with_ids(
                        page_of(old(self).doc@, old(self).page_index as int),
                        final(self).selection@,
                    )
                    &&& if old(self).selection@.contains(id) && old(self).selection@.len() > 1 {
                        &&& final(self).selection == old(self).selection
                        &&& final(self).crop_mode == old(self).crop_mode
                    } else {
                        &&& final(self).selection@ == seq![id]
                        &&& !final(self).crop_mode
                    }
                },
            },
    {
        if handle != HandleHit::NoHandle {
            if let Some(id) = self.primary() {
                return PointerAction::Handle(id, handle);
            }
        }
        match hit {
            None => {
                if !shift {
                    self.clear_selection();
                }
                self.crop_mode = false;
                PointerAction::SelectionBox
            },
            Some(id) => {
                if self.is_selected(id) && self.selection.len() > 1 && !shift {
                    PointerAction::Drag(self.elements_on_page(true))
                } else if shift {
                    self.toggle_selected(id);
                    self.crop_mode = false;
                    PointerAction::Toggled
                } else {
                    self.select_only(id);
                    self.crop_mode = false;
                    PointerAction::Drag(self.elements_on_page(true))
                }
            },
        }
    }

    /// The selected elements of the current page in page order (all of
    /// them when `all`, else only the texts).
    fn elements_on_page(&self, all: bool) -> (r: Vec<Element<G>>)
        ensures
            all ==> r@ == with_ids(page_of(self.doc@, self.page_index as int), self.selection@),
            !all ==> r@ == selected_texts(page_of(self.doc@, self.page_index as int), self.selection@),
    {
        if self.page_index < self.doc.pages.len() {
            if all {
                crate::editor::filter_by_ids(&self.doc.pages[self.page_index].elements, &self.selection, true)
            } else {
                selected_text_elements(&self.doc.pages[self.page_index].elements, &self.selection)
            }
        } else {
            Vec::new()
        }
    }

    /// The selected text elements of the current page, in page order.
    pub fn selected_texts(&self) -> (r: Vec<Element<G>>)
        ensures
            r@ == selected_texts(page_of(self.doc@, self.page_index as int), self.selection@),
    {
        self.elements_on_page(false)
    }

    /// The value the selected texts share, or nothing.
    fn uniform_selected(&self, font: bool) -> (r: Option<String>)
        ensures
            uniform(selected_texts(page_of(self.doc@, self.page_index as int), self.selection@), font, r),
    {
        let ts = self.elements_on_page(false);
        if ts.len() == 0 {
            return None;
        }
        let first = if font { ts[0].font.clone() } else { ts[0].text.clone() };
        let mut k: usize = 1;
        while k < ts.len()
            invariant
                1 <= k <= ts@.len(),
                ts@ == selected_texts(page_of(self.doc@, self.page_index as int), self.selection@),
                first@ == field_of(ts@[0], font),
                forall|j: int| 0 <= j < k ==> #[trigger] field_of(ts@[j], font) == first@,
            decreases ts@.len() - k,
        {
            let same = if font { ts[k].font == first } else { ts[k].text == first };
            if !same {
                assert(field_of(ts@[k as int], font) != field_of(ts@[0], font));
                return None;
            }
            k = k + 1;
        }
        Some(first)
    }

    /// The text that all selected text elements share, when there is at
    /// least one and they agree.
    pub fn uniform_selected_text(&self) -> (r: Option<String>)
        ensures
            uniform(selected_texts(page_of(self.doc@, self.page_index as int), self.selection@), false, r),
    {
        self.uniform_selected(false)
    }

    /// The font that all selected text elements share, when there is at
    /// least one and they agree.
    pub fn uniform_selected_font(&self) -> (r: Option<String>)
        ensures
            uniform(selected_texts(page_of(self.doc@, self.page_index as int), self.selection@), true, r),
    {
        self.uniform_selected(true)
    }

    /// Records the state, sets `value` as text (or font) of every selected
    /// text element of the current page and marks the document modified.
    fn set_selected(&mut self, value: String, font: bool)
        ensures
            final(self).history@ == old(self).history@.recorded(old(self).snapshot_value()),
            final(self).doc@ == with_page(
                old(self).doc@,
                old(self).page_index as int,
                set_on_selected(page_of(old(self).doc@, old(self).page_index as int), old(self).selection@, value, font),
            ),
            final(self).modified,
            final(self).page_index == old(self).page_index,
            final(self).next_id == old(self).next_id,
            final(self).selection == old(self).selection,
            final(self).editing == old(self).editing,
            final(self).edit_focus == old(self).edit_focus,
            final(self).images == old(self).images,
            final(self).crop_mode == old(self).crop_mode,
            final(self).status == old(self).status,
            final(self).same_clipboard(*old(self)),
            old(self).ids_fresh() ==> final(self).ids_fresh(),
    {
        self.push_history();
        let i = self.page_index;
        if i < self.doc.pages.len() {
            let els = set_on_selected_elements(&self.doc.pages[i].elements, &self.selection, &value, font);
            let ghost ev = els@;
            proof {
                if old(self).ids_fresh() {
                    assert forall|k: int| 0 <= k < ev.len() implies (#[trigger] ev[k]).id
                        == old(self).doc@.pages[i as int][k].id by {}
                    lemma_same_ids_fresh(old(self).doc@, i as int, ev, old(self).next_id as int);
                }
            }
            self.doc.pages[i].elements = els;
            assert(self.doc@.pages =~= old(self).doc@.pages.update(i as int, ev));
        }
        self.modified = true;
    }

    /// Sets `text` as the text of every selected text element of the
    /// current page, as one step of the history.
    pub fn set_selected_texts(&mut self, text: String)
        ensures
            final(self).history@ == old(self).history@.recorded(old(self).snapshot_value()),
            final(self).doc@ == with_page(
                old(self).doc@,
                old(self).page_index as int,
                set_on_selected(page_of(old(self).doc@, old(self).page_index as int), old(self).selection@, text, false),
            ),
            final(self).modified,
            final(self).page_index == old(self).page_index,
            final(self).next_id == old(self).next_id,
            final(self).selection == old(self).selection,
            final(self).editing == old(self).editing,
            final(self).edit_focus == old(self).edit_focus,
            final(self).images == old(self).images,
            final(self).crop_mode == old(self).crop_mode,
            final(self).status == old(self).status,
            final(self).same_clipboard(*old(self)),
            old(self).ids_fresh() ==> final(self).ids_fresh(),
    {
        self.set_selected(text, false);
    }

    /// Sets `font` as the font of every selected text element of the
    /// current page, as one step of the history.
    pub fn set_selected_fonts(&mut self, font: String)
        ensures
            final(self).history@ == old(self).history@.recorded(old(self).snapshot_value()),
            final(self).doc@ == with_page(
                old(self).doc@,
                old(self).page_index as int,
                set_on_selected(page_of(old(self).doc@, old(self).page_index as int), old(self).selection@, font, true),
            ),
            final(self).modified,
            final(self).page_index == old(self).page_index,
            final(self).next_id == old(self).next_id,
            final(self).selection == old(self).selection,
            final(self).editing == old(self).editing,
            final(self).edit_focus == old(self).edit_focus,
            final(self).images == old(self).images,
            final(self).crop_mode == old(self).crop_mode,
            final(self).status == old(self).status,
            final(self).same_clipboard(*old(self)),
            old(self).ids_fresh() ==> final(self).ids_fresh(),
    {
        self.set_selected(font, true);
    }
}

} // verus!
