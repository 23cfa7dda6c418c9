//! The editor state and its operations: selection, creating and deleting
//! elements, pages, undo/redo and copy/paste.
use vstd::prelude::*;
use vstd::string::StringExecFns;

use crate::history::{History, HistoryView, Snapshot};
use crate::model::{Document, DocumentView, Element, ElementKind, Page};
use crate::codec::Decoded;
use crate::store::ImageStore;

verus! {

/// Reference point of the bounding box used for the position display.
#[derive(Debug, Clone, Copy, PartialEq, Eq, Structural)]
pub enum BBoxAnchor {
    TopLeft,
    TopCenter,
    TopRight,
    MidLeft,
    Center,
    MidRight,
    BotLeft,
    BotCenter,
    BotRight,
}

impl Default for BBoxAnchor {
    fn default() -> (r: Self)
        ensures
            r == BBoxAnchor::TopLeft,
    {
        BBoxAnchor::TopLeft
    }
}

impl BBoxAnchor {
    /// All nine anchors, row by row from the top left.
    pub fn all() -> (r: [BBoxAnchor; 9])
        ensures
            r@ == seq![
                BBoxAnchor::TopLeft,
                BBoxAnchor::TopCenter,
                BBoxAnchor::TopRight,
                BBoxAnchor::MidLeft,
                BBoxAnchor::Center,
                BBoxAnchor::MidRight,
                BBoxAnchor::BotLeft,
                BBoxAnchor::BotCenter,
                BBoxAnchor::BotRight,
            ],
    {
        let r = [
            BBoxAnchor::TopLeft,
            BBoxAnchor::TopCenter,
            BBoxAnchor::TopRight,
            BBoxAnchor::MidLeft,
            BBoxAnchor::Center,
            BBoxAnchor::MidRight,
            BBoxAnchor::BotLeft,
            BBoxAnchor::BotCenter,
            BBoxAnchor::BotRight,
        ];
        assert(r@ =~= seq![
            BBoxAnchor::TopLeft,
            BBoxAnchor::TopCenter,
            BBoxAnchor::TopRight,
            BBoxAnchor::MidLeft,
            BBoxAnchor::Center,
            BBoxAnchor::MidRight,
            BBoxAnchor::BotLeft,
            BBoxAnchor::BotCenter,
            BBoxAnchor::BotRight,
        ]);
        r
    }
}

/// The image edge being dragged while cropping.
#[derive(Debug, Clone, Copy, PartialEq, Eq, Structural)]
pub enum CropEdge {
    Left,
    Right,
    Top,
    Bottom,
}

/// The document after appending `el` to page `i`; a page index out of
/// range leaves the document as it is.
pub open spec fn with_element<G>(d: DocumentView<G>, i: int, el: Element<G>) -> DocumentView<G> {
    if 0 <= i < d.pages.len() {
        DocumentView {
            format: d.format,
            orientation: d.orientation,
            pages: d.pages.update(i, d.pages[i].push(el)),
        }
    } else {
        d
    }
}

/// `new` is `old` with one element appended to page `i` that satisfies
/// `p`, or `old` itself when `i` is no page.
pub open spec fn element_added<G>(
    old: DocumentView<G>,
    new: DocumentView<G>,
    i: int,
    p: spec_fn(Element<G>) -> bool,
) -> bool {
    if 0 <= i < old.pages.len() {
        &&& 0 <= i < new.pages.len()
        &&& new.pages[i].len() > 0
        &&& new == with_element(old, i, new.pages[i].last())
        &&& p(new.pages[i].last())
    } else {
        new == old
    }
}

/// The document with the elements of page `i` replaced; a page index out
/// of range leaves the document as it is.
pub open spec fn with_page<G>(d: DocumentView<G>, i: int, els: Seq<Element<G>>) -> DocumentView<G> {
    if 0 <= i < d.pages.len() {
        DocumentView { format: d.format, orientation: d.orientation, pages: d.pages.update(i, els) }
    } else {
        d
    }
}

/// The elements whose ids are not listed, in their order.
pub open spec fn without_ids<G>(s: Seq<Element<G>>, ids: Seq<u64>) -> Seq<Element<G>>
    decreases s.len(),
{
    if s.len() == 0 {
        s
    } else {
        let r = without_ids(s.drop_last(), ids);
        if ids.contains(s.last().id) {
            r
        } else {
            r.push(s.last())
        }
    }
}

/// The elements whose ids are listed, in their order.
pub open spec fn with_ids<G>(s: Seq<Element<G>>, ids: Seq<u64>) -> Seq<Element<G>>
    decreases s.len(),
{
    if s.len() == 0 {
        s
    } else {
        let r = with_ids(s.drop_last(), ids);
        if ids.contains(s.last().id) {
            r.push(s.last())
        } else {
            r
        }
    }
}

/// The elements whose ids are listed (`keep`) or not listed (`!keep`).
pub fn filter_by_ids<G: Copy>(v: &Vec<Element<G>>, ids: &Vec<u64>, keep: bool) -> (r: Vec<Element<G>>)
    ensures
        keep ==> r@ == with_ids(v@, ids@),
        !keep ==> r@ == without_ids(v@, ids@),
{
    let mut r: Vec<Element<G>> = Vec::new();
    let mut i: usize = 0;
    while i < v.len()
        invariant
            i <= v@.len(),
            keep ==> r@ == with_ids(v@.take(i as int), ids@),
            !keep ==> r@ == without_ids(v@.take(i as int), ids@),
        decreases v@.len() - i,
    {
        let listed = first_position(ids, v[i].id).is_some();
        assert(v@.take(i + 1).drop_last() =~= v@.take(i as int));
        if listed == keep {
            r.push(v[i].clone());
        }
        i = i + 1;
    }
    assert(v@.take(v@.len() as int) =~= v@);
    r
}

/// The image store after pasting `clip` with new ids from `next` on: every
/// pasted image element gets a copy of its image under its new id, in
/// clipboard order.
pub open spec fn paste_images<G>(
    m: Map<u64, (Seq<u8>, (u32, u32))>,
    clip: Seq<Element<G>>,
    next: int,
) -> Map<u64, (Seq<u8>, (u32, u32))>
    decreases clip.len(),
{
    if clip.len() == 0 {
        m
    } else {
        let m2 = if clip[0].kind == ElementKind::Image && m.contains_key(clip[0].id) {
            m.insert(next as u64, m[clip[0].id])
        } else {
            m
        };
        paste_images(m2, clip.skip(1), next + 1)
    }
}

/// `p` is the copy of `c` pasted under the id `id`, its geometry what the
/// placement gives for the copied geometry.
pub open spec fn is_pasted<G, F: Fn(G) -> G>(p: Element<G>, c: Element<G>, id: u64, place: F) -> bool {
    &&& p == Element { id: id, geom: p.geom, ..c }
    &&& call_ensures(place, (c.geom,), p.geom)
}

/// The position of the first occurrence of `id`.
pub fn first_position(v: &Vec<u64>, id: u64) -> (r: Option<usize>)
    ensures
        match r {
            Some(i) => i < v@.len() && v@[i as int] == id && forall|q: int|
                0 <= q < i ==> v@[q] != id,
            None => !v@.contains(id),
        },
{
    let mut i: usize = 0;
    while i < v.len()
        invariant
            i <= v@.len(),
            forall|j: int| 0 <= j < i ==> v@[j] != id,
        decreases v@.len() - i,
    {
        if v[i] == id {
            return Some(i);
        }
        i = i + 1;
    }
    None
}

/// Every element id of the document is below `n`.
pub open spec fn ids_below<G>(d: DocumentView<G>, n: int) -> bool {
    forall|p: int, e: int|
        0 <= p < d.pages.len() && 0 <= e < d.pages[p].len() ==> (#[trigger] d.pages[p][e]).id < n
}

/// No two elements of a page share an id.
pub open spec fn page_ids_distinct<G>(s: Seq<Element<G>>) -> bool {
    forall|i: int, j: int| 0 <= i < j < s.len() ==> (#[trigger] s[i]).id != (#[trigger] s[j]).id
}

/// No two elements of the document share an id.
pub open spec fn ids_unique<G>(d: DocumentView<G>) -> bool {
    &&& forall|p: int| 0 <= p < d.pages.len() ==> page_ids_distinct(#[trigger] d.pages[p])
    &&& forall|p: int, q: int, e: int, f: int|
        0 <= p < d.pages.len() && 0 <= q < d.pages.len() && p != q && 0 <= e < d.pages[p].len()
            && 0 <= f < d.pages[q].len() ==> (#[trigger] d.pages[p][e]).id != (#[trigger] d.pages[q][f]).id
}

/// Appending an element whose id is at least every id of the document
/// keeps the ids distinct.
proof fn lemma_with_element_fresh<G>(d: DocumentView<G>, i: int, el: Element<G>)
    requires
        ids_below(d, el.id as int),
        ids_unique(d),
    ensures
        ids_below(with_element(d, i, el), el.id + 1),
        ids_unique(with_element(d, i, el)),
{
    let r = with_element(d, i, el);
    if 0 <= i < d.pages.len() {
        assert forall|p: int, e: int| 0 <= p < r.pages.len() && 0 <= e < r.pages[p].len() implies (
        #[trigger] r.pages[p][e]).id < el.id + 1 by {
            if p == i && e == d.pages[i].len() {
            } else {
                assert(r.pages[p][e] == d.pages[p][e]);
            }
        }
        assert forall|p: int| 0 <= p < r.pages.len() implies page_ids_distinct(#[trigger] r.pages[p]) by {
            if p == i {
                assert forall|a: int, b: int| 0 <= a < b < r.pages[p].len() implies (#[trigger] r.pages[p][a]).id
                    != (#[trigger] r.pages[p][b]).id by {
                    assert(r.pages[p][a] == d.pages[p][a]);
                    if b < d.pages[p].len() {
                        assert(r.pages[p][b] == d.pages[p][b]);
                    }
                }
            } else {
                assert(r.pages[p] == d.pages[p]);
            }
        }
        assert forall|p: int, q: int, e: int, f: int|
            0 <= p < r.pages.len() && 0 <= q < r.pages.len() && p != q && 0 <= e < r.pages[p].len() && 0
                <= f < r.pages[q].len() implies (#[trigger] r.pages[p][e]).id != (#[trigger] r.pages[q][f]).id by {
            if p != i {
                assert(r.pages[p][e] == d.pages[p][e]);
            }
            if q != i {
                assert(r.pages[q][f] == d.pages[q][f]);
            }
            if p == i && e < d.pages[i].len() {
                assert(r.pages[p][e] == d.pages[p][e]);
            }
            if q == i && f < d.pages[i].len() {
                assert(r.pages[q][f] == d.pages[q][f]);
            }
        }
    }
}

/// What deleting by ids keeps comes from the page, and distinct ids stay
/// distinct.
proof fn lemma_without_ids_from<G>(s: Seq<Element<G>>, ids: Seq<u64>)
    ensures
        forall|k: int| 0 <= k < without_ids(s, ids).len() ==> s.contains(#[trigger] without_ids(s, ids)[k]),
        page_ids_distinct(s) ==> page_ids_distinct(without_ids(s, ids)),
    decreases s.len(),
{
    if s.len() > 0 {
        let t = s.drop_last();
        lemma_without_ids_from(t, ids);
        let r = without_ids(t, ids);
        assert forall|k: int| 0 <= k < r.len() implies s.contains(#[trigger] r[k]) by {
            let j = choose|j: int| 0 <= j < t.len() && t[j] == r[k];
            assert(s[j] == r[k]);
        }
        if !ids.contains(s.last().id) {
            let r2 = r.push(s.last());
            assert forall|k: int| 0 <= k < r2.len() implies s.contains(#[trigger] r2[k]) by {
                if k < r.len() {
                    assert(r2[k] == r[k]);
                } else {
                    assert(r2[k] == s[s.len() - 1]);
                }
            }
            if page_ids_distinct(s) {
                assert(page_ids_distinct(t)) by {
                    assert forall|a: int, b: int| 0 <= a < b < t.len() implies (#[trigger] t[a]).id
                        != (#[trigger] t[b]).id by {
                        assert(t[a] == s[a] && t[b] == s[b]);
                    }
                }
                assert forall|a: int, b: int| 0 <= a < b < r2.len() implies (#[trigger] r2[a]).id
                    != (#[trigger] r2[b]).id by {
                    if b < r.len() {
                        assert(r2[a] == r[a] && r2[b] == r[b]);
                    } else {
                        assert(r2[a] == r[a]);
                        assert(t.contains(r[a]));
                        let j = choose|j: int| 0 <= j < t.len() && t[j] == r[a];
                        assert(s[j] == r[a]);
                        assert(s[s.len() - 1] == r2[b]);
                    }
                }
            }
        } else if page_ids_distinct(s) {
            assert forall|a: int, b: int| 0 <= a < b < t.len() implies (#[trigger] t[a]).id
                != (#[trigger] t[b]).id by {
                assert(t[a] == s[a] && t[b] == s[b]);
            }
        }
    }
}

/// Deleting elements of one page keeps the ids below the bound and
/// distinct.
proof fn lemma_delete_fresh<G>(d: DocumentView<G>, i: int, ids: Seq<u64>, n: int)
    requires
        0 <= i < d.pages.len(),
        ids_below(d, n),
        ids_unique(d),
    ensures
        ids_below(with_page(d, i, without_ids(d.pages[i], ids)), n),
        ids_unique(with_page(d, i, without_ids(d.pages[i], ids))),
{
    let kept = without_ids(d.pages[i], ids);
    let r = with_page(d, i, kept);
    lemma_without_ids_from(d.pages[i], ids);
    assert forall|p: int, e: int| 0 <= p < r.pages.len() && 0 <= e < r.pages[p].len() implies (
    #[trigger] r.pages[p][e]).id < n by {
        if p == i {
            let j = choose|j: int| 0 <= j < d.pages[i].len() && d.pages[i][j] == kept[e];
            assert(d.pages[i][j].id < n);
        } else {
            assert(r.pages[p][e] == d.pages[p][e]);
        }
    }
    assert forall|p: int| 0 <= p < r.pages.len() implies page_ids_distinct(#[trigger] r.pages[p]) by {
        if p == i {
            assert(page_ids_distinct(d.pages[i]));
        } else {
            assert(r.pages[p] == d.pages[p]);
        }
    }
    assert forall|p: int, q: int, e: int, f: int|
        0 <= p < r.pages.len() && 0 <= q < r.pages.len() && p != q && 0 <= e < r.pages[p].len() && 0 <= f
            < r.pages[q].len() implies (#[trigger] r.pages[p][e]).id != (#[trigger] r.pages[q][f]).id by {
        if p == i {
            let j = choose|j: int| 0 <= j < d.pages[i].len() && d.pages[i][j] == kept[e];
            assert(r.pages[q][f] == d.pages[q][f]);
            assert(d.pages[p][j].id != d.pages[q][f].id);
        } else if q == i {
            let j = choose|j: int| 0 <= j < d.pages[i].len() && d.pages[i][j] == kept[f];
            assert(r.pages[p][e] == d.pages[p][e]);
            assert(d.pages[p][e].id != d.pages[q][j].id);
        } else {
            assert(r.pages[p][e] == d.pages[p][e]);
            assert(r.pages[q][f] == d.pages[q][f]);
        }
    }
}

/// Appending elements with the consecutive ids `n, n + 1, ...` to a page
/// whose document has only ids below `n` keeps the ids distinct.
proof fn lemma_paste_fresh<G>(d: DocumentView<G>, i: int, pasted: Seq<Element<G>>, n: int)
    requires
        0 <= i < d.pages.len(),
        ids_below(d, n),
        ids_unique(d),
        forall|k: int| 0 <= k < pasted.len() ==> (#[trigger] pasted[k]).id == n + k,
    ensures
        ids_below(with_page(d, i, d.pages[i] + pasted), n + pasted.len()),
        ids_unique(with_page(d, i, d.pages[i] + pasted)),
{
    let page = d.pages[i] + pasted;
    let r = with_page(d, i, page);
    let m = d.pages[i].len();
    assert forall|p: int, e: int| 0 <= p < r.pages.len() && 0 <= e < r.pages[p].len() implies (
    #[trigger] r.pages[p][e]).id < n + pasted.len() by {
        if p == i {
            if e < m {
                assert(page[e] == d.pages[i][e]);
            } else {
                assert(page[e] == pasted[e - m]);
            }
        } else {
            assert(r.pages[p][e] == d.pages[p][e]);
        }
    }
    assert forall|p: int| 0 <= p < r.pages.len() implies page_ids_distinct(#[trigger] r.pages[p]) by {
        if p == i {
            assert forall|a: int, b: int| 0 <= a < b < page.len() implies (#[trigger] page[a]).id
                != (#[trigger] page[b]).id by {
                if b < m {
                    assert(page[a] == d.pages[i][a] && page[b] == d.pages[i][b]);
                } else if a < m {
                    assert(page[a] == d.pages[i][a]);
                    assert(page[b] == pasted[b - m]);
                } else {
                    assert(page[a] == pasted[a - m]);
                    assert(page[b] == pasted[b - m]);
                }
            }
        } else {
            assert(r.pages[p] == d.pages[p]);
        }
    }
    assert forall|p: int, q: int, e: int, f: int|
        0 <= p < r.pages.len() && 0 <= q < r.pages.len() && p != q && 0 <= e < r.pages[p].len() && 0 <= f
            < r.pages[q].len() implies (#[trigger] r.pages[p][e]).id != (#[trigger] r.pages[q][f]).id by {
        if p == i {
            assert(r.pages[q][f] == d.pages[q][f]);
            if e < m {
                assert(page[e] == d.pages[i][e]);
            } else {
                assert(page[e] == pasted[e - m]);
            }
        } else if q == i {
            assert(r.pages[p][e] == d.pages[p][e]);
            if f < m {
                assert(page[f] == d.pages[i][f]);
            } else {
                assert(page[f] == pasted[f - m]);
            }
        } else {
            assert(r.pages[p][e] == d.pages[p][e]);
            assert(r.pages[q][f] == d.pages[q][f]);
        }
    }
}

/// Every element id of the document is below `n`, and no two elements
/// share an id.
pub open spec fn doc_fresh<G>(d: DocumentView<G>, n: int) -> bool {
    ids_below(d, n) && ids_unique(d)
}

/// Every document that the history can restore is fresh below `n`.
pub open spec fn history_fresh<G>(h: HistoryView<(DocumentView<G>, Seq<u64>, usize)>, n: int) -> bool {
    forall|i: int| 0 <= i < h.entries.len() ==> doc_fresh(#[trigger] h.entries[i].0, n)
}

/// Freshness below `n` holds below any larger bound.
proof fn lemma_history_fresh_grows<G>(h: HistoryView<(DocumentView<G>, Seq<u64>, usize)>, n: int, m: int)
    requires
        history_fresh(h, n),
        n <= m,
    ensures
        history_fresh(h, m),
{
    assert forall|i: int| 0 <= i < h.entries.len() implies doc_fresh(#[trigger] h.entries[i].0, m) by {
        let d = h.entries[i].0;
        assert(doc_fresh(d, n));
        assert forall|p: int, e: int| 0 <= p < d.pages.len() && 0 <= e < d.pages[p].len() implies (
        #[trigger] d.pages[p][e]).id < m by {}
    }
}

/// Recording a fresh state keeps the history fresh.
proof fn lemma_recorded_fresh<G>(
    h: HistoryView<(DocumentView<G>, Seq<u64>, usize)>,
    s: (DocumentView<G>, Seq<u64>, usize),
    n: int,
)
    requires
        h.valid(),
        history_fresh(h, n),
        doc_fresh(s.0, n),
    ensures
        history_fresh(h.with_current(s), n),
        history_fresh(h.recorded(s), n),
{
    let h1 = h.with_current(s);
    assert forall|i: int| 0 <= i < h1.entries.len() implies doc_fresh(#[trigger] h1.entries[i].0, n) by {
        if h.entries.len() > 0 && i != h.cursor {
            assert(h1.entries[i] == h.entries[i]);
        }
    }
    let kept = if h1.cursor + 1 < h1.entries.len() {
        h1.entries.take(h1.cursor + 1int)
    } else {
        h1.entries
    };
    let grown = kept.push(s);
    assert forall|j: int| 0 <= j < grown.len() implies doc_fresh(#[trigger] grown[j].0, n) by {
        if j < kept.len() {
            assert(grown[j] == h1.entries[j]);
        }
    }
    let h2 = h1.pushed(s);
    assert forall|i: int| 0 <= i < h2.entries.len() implies doc_fresh(#[trigger] h2.entries[i].0, n) by {
        if grown.len() > crate::history::MAX_HISTORY {
            assert(h2.entries[i] == grown[i + (grown.len() - crate::history::MAX_HISTORY)]);
        } else {
            assert(h2.entries[i] == grown[i]);
        }
    }
}

/// The editor's state: the document, selection, clipboard and history.
pub struct EditorApp<G> {
    pub doc: Document<G>,
    pub page_index: usize,
    pub next_id: u64,
    /// The ids of all selected elements.
    pub selection: Vec<u64>,
    /// (id, buffer) while a text is being edited.
    pub editing: Option<(u64, String)>,
    /// Ask for the keyboard focus once when text editing starts.
    pub edit_focus: bool,
    pub images: ImageStore,
    pub crop_mode: bool,
    pub modified: bool,
    pub status: String,
    /// Copied elements, for paste.
    pub clipboard: Vec<Element<G>>,
    /// Paste mode: the preview follows the pointer until a click places it.
    pub pasting: bool,
    pub history: History<Snapshot<Document<G>>>,
    /// Take a snapshot when the next property field gets the focus.
    pub prop_snapshot_pending: bool,
}

impl<G> EditorApp<G> {
    /// The state that a snapshot records.
    pub open spec fn snapshot_value(self) -> (DocumentView<G>, Seq<u64>, usize) {
        (self.doc@, self.selection@, self.page_index)
    }

    /// Every element id is below the next id to hand out, and no two
    /// elements share an id; the same holds of every document that undo or
    /// redo can restore, and the history is in one of its valid states.
    pub open spec fn ids_fresh(self) -> bool {
        &&& ids_below(self.doc@, self.next_id as int)
        &&& ids_unique(self.doc@)
        &&& history_fresh(self.history@, self.next_id as int)
        &&& self.history@.valid()
    }

    /// The parts of the state that neither the document nor the selection
    /// operations touch.
    pub open spec fn same_clipboard(self, other: Self) -> bool {
        &&& self.clipboard == other.clipboard
        &&& self.pasting == other.pasting
        &&& self.prop_snapshot_pending == other.prop_snapshot_pending
    }

    /// First selected element (the one that carries the resize handles).
    pub fn primary(&self) -> (r: Option<u64>)
        ensures
            self.selection@.len() > 0 ==> r == Some(self.selection@[0]),
            self.selection@.len() == 0 ==> r is None,
    {
        if self.selection.len() > 0 {
            Some(self.selection[0])
        } else {
            None
        }
    }

    pub fn is_selected(&self, id: u64) -> (r: bool)
        ensures
            r == self.selection@.contains(id),
    {
        let mut i: usize = 0;
        while i < self.selection.len()
            invariant
                i <= self.selection@.len(),
                forall|j: int| 0 <= j < i ==> self.selection@[j] != id,
            decreases self.selection@.len() - i,
        {
            if self.selection[i] == id {
                return true;
            }
            i = i + 1;
        }
        false
    }

    pub fn select_only(&mut self, id: u64)
        ensures
            final(self).selection@ == seq![id],
            final(self).doc == old(self).doc,
            final(self).page_index == old(self).page_index,
            final(self).next_id == old(self).next_id,
            final(self).editing == old(self).editing,
            final(self).edit_focus == old(self).edit_focus,
            final(self).images == old(self).images,
            final(self).crop_mode == old(self).crop_mode,
            final(self).modified == old(self).modified,
            final(self).status == old(self).status,
            final(self).same_clipboard(*old(self)),
            final(self).history == old(self).history,
    {
        self.selection.clear();
        self.selection.push(id);
        assert(self.selection@ =~= seq![id]);
    }

    pub fn clear_selection(&mut self)
        ensures
            final(self).selection@ == Seq::<u64>::empty(),
            final(self).doc == old(self).doc,
            final(self).page_index == old(self).page_index,
            final(self).next_id == old(self).next_id,
            final(self).editing == old(self).editing,
            final(self).edit_focus == old(self).edit_focus,
            final(self).images == old(self).images,
            final(self).crop_mode == old(self).crop_mode,
            final(self).modified == old(self).modified,
            final(self).status == old(self).status,
            final(self).same_clipboard(*old(self)),
            final(self).history == old(self).history,
    {
        self.selection.clear();
    }

    /// Adds `id` to the selection, or takes it out (its first occurrence,
    /// whose place the last selected id takes).
    pub fn toggle_selected(&mut self, id: u64)
        ensures
            !old(self).selection@.contains(id) ==> final(self).selection@ == old(
                self,
            ).selection@.push(id),
            old(self).selection@.contains(id) ==> exists|p: int|
                0 <= p < old(self).selection@.len() && old(self).selection@[p] == id && (forall|
                    q: int,
                | 0 <= q < p ==> old(self).selection@[q] != id) && final(self).selection@ == old(
                    self,
                ).selection@.update(p, old(self).selection@.last()).drop_last(),
            final(self).doc == old(self).doc,
            final(self).page_index == old(self).page_index,
            final(self).next_id == old(self).next_id,
            final(self).editing == old(self).editing,
            final(self).edit_focus == old(self).edit_focus,
            final(self).images == old(self).images,
            final(self).crop_mode == old(self).crop_mode,
            final(self).modified == old(self).modified,
            final(self).status == old(self).status,
            final(self).same_clipboard(*old(self)),
            final(self).history == old(self).history,
    {
        match first_position(&self.selection, id) {
            Some(i) => {
                let ghost before = self.selection@;
                self.selection.swap_remove(i);
                assert(self.selection@ =~= before.update(i as int, before.last()).drop_last());
            },
            None => {
                self.selection.push(id);
            },
        }
    }
    /// The next free element id; the counter moves on.
    pub fn next_id(&mut self) -> (id: u64)
        requires
            old(self).next_id < u64::MAX,
        ensures
            id == old(self).next_id,
            final(self).next_id == old(self).next_id + 1,
            history_fresh(old(self).history@, old(self).next_id as int) ==> history_fresh(
                final(self).history@,
                final(self).next_id as int,
            ),
            final(self).doc == old(self).doc,
            final(self).page_index == old(self).page_index,
            final(self).selection == old(self).selection,
            final(self).editing == old(self).editing,
            final(self).edit_focus == old(self).edit_focus,
            final(self).images == old(self).images,
            final(self).crop_mode == old(self).crop_mode,
            final(self).modified == old(self).modified,
            final(self).status == old(self).status,
            final(self).same_clipboard(*old(self)),
            final(self).history == old(self).history,
    {
        let id = self.next_id;
        self.next_id = self.next_id + 1;
        proof {
            if history_fresh(old(self).history@, old(self).next_id as int) {
                lemma_history_fresh_grows(self.history@, old(self).next_id as int, self.next_id as int);
            }
        }
        id
    }

    /// Marks the document as modified.
    pub fn touch(&mut self)
        ensures
            final(self).modified,
            final(self).doc == old(self).doc,
            final(self).page_index == old(self).page_index,
            final(self).next_id == old(self).next_id,
            final(self).selection == old(self).selection,
            final(self).editing == old(self).editing,
            final(self).edit_focus == old(self).edit_focus,
            final(self).images == old(self).images,
            final(self).crop_mode == old(self).crop_mode,
            final(self).status == old(self).status,
            final(self).same_clipboard(*old(self)),
            final(self).history == old(self).history,
    {
        self.modified = true;
    }

    pub fn set_status(&mut self, s: String)
        ensures
            final(self).status@ == s@,
            final(self).doc == old(self).doc,
            final(self).page_index == old(self).page_index,
            final(self).next_id == old(self).next_id,
            final(self).selection == old(self).selection,
            final(self).editing == old(self).editing,
            final(self).edit_focus == old(self).edit_focus,
            final(self).images == old(self).images,
            final(self).crop_mode == old(self).crop_mode,
            final(self).modified == old(self).modified,
            final(self).same_clipboard(*old(self)),
            final(self).history == old(self).history,
    {
        self.status = s;
    }
}

impl<G: Copy> EditorApp<G> {
    /// A snapshot of the current state.
    pub fn snapshot(&self) -> (s: Snapshot<Document<G>>)
        ensures
            s@ == self.snapshot_value(),
    {
        Snapshot {
            doc: self.doc.clone(),
            selection: vstd::slice::slice_to_vec(self.selection.as_slice()),
            page_index: self.page_index,
        }
    }

    /// Records the current state in the history; call it before a change,
    /// so that an undo of the change comes back to this state.
    pub fn push_history(&mut self)
        ensures
            final(self).history@ == old(self).history@.recorded(old(self).snapshot_value()),
            old(self).ids_fresh() ==> final(self).ids_fresh(),
            final(self).doc == old(self).doc,
            final(self).page_index == old(self).page_index,
            final(self).next_id == old(self).next_id,
            final(self).selection == old(self).selection,
            final(self).editing == old(self).editing,
            final(self).edit_focus == old(self).edit_focus,
            final(self).images == old(self).images,
            final(self).crop_mode == old(self).crop_mode,
            final(self).modified == old(self).modified,
            final(self).status == old(self).status,
            final(self).same_clipboard(*old(self)),
    {
        let current = self.snapshot();
        self.history.set_current(current);
        let snap = self.snapshot();
        self.history.push(snap);
        proof {
            if old(self).ids_fresh() {
                lemma_recorded_fresh(old(self).history@, old(self).snapshot_value(), old(self).next_id as int);
            }
        }
    }

    /// Appends an element to the current page, if there is one.
    fn push_to_current_page(&mut self, el: Element<G>)
        ensures
            final(self).doc@ == with_element(old(self).doc@, old(self).page_index as int, el),
            final(self).page_index == old(self).page_index,
            final(self).next_id == old(self).next_id,
            final(self).selection == old(self).selection,
            final(self).editing == old(self).editing,
            final(self).edit_focus == old(self).edit_focus,
            final(self).images == old(self).images,
            final(self).crop_mode == old(self).crop_mode,
            final(self).modified == old(self).modified,
            final(self).status == old(self).status,
            final(self).same_clipboard(*old(self)),
            final(self).history == old(self).history,
    {
        let i = self.page_index;
        if i < self.doc.pages.len() {
            let ghost el_copy = el;
            self.doc.pages[i].elements.push(el);
            assert(self.doc@.pages =~= old(self).doc@.pages.update(
                i as int,
                old(self).doc@.pages[i as int].push(el_copy),
            ));
        }
    }
    /// A fresh editor on an empty document, its history initialized with
    /// that state.
    pub fn new() -> (app: Self)
        ensures
            app.doc@.pages.len() == 1,
            app.doc.is_default(),
            app.page_index == 0,
            app.next_id == 1,
            app.selection@ == Seq::<u64>::empty(),
            app.editing is None,
            !app.edit_focus,
            app.images@ == Map::<u64, (Seq<u8>, (u32, u32))>::empty(),
            !app.crop_mode,
            !app.modified,
            app.status@ == "Bereit. Tipp: Bild per Drag&Drop hereinziehen."@,
            app.clipboard@ == Seq::<Element<G>>::empty(),
            !app.pasting,
            !app.prop_snapshot_pending,
            app.history@ == HistoryView::initialized(app.snapshot_value()),
            app.ids_fresh(),
    {
        let mut app = EditorApp {
            doc: Document::new(),
            page_index: 0,
            next_id: 1,
            selection: Vec::new(),
            editing: None,
            edit_focus: false,
            images: ImageStore::new(),
            crop_mode: false,
            modified: false,
            status: String::from_str("Bereit. Tipp: Bild per Drag&Drop hereinziehen."),
            clipboard: Vec::new(),
            pasting: false,
            history: History::new(),
            prop_snapshot_pending: false,
        };
        let snap = app.snapshot();
        app.history.init(snap);
        assert(app.doc@.pages[0] =~= Seq::<Element<G>>::empty());
        app
    }

    /// Starts over with an empty document and a history that starts there
    /// (the clipboard stays).
    pub fn new_document(&mut self)
        ensures
            final(self).doc.is_default(),
            final(self).page_index == 0,
            final(self).next_id == 1,
            final(self).selection@ == Seq::<u64>::empty(),
            final(self).editing is None,
            !final(self).edit_focus,
            final(self).images@ == Map::<u64, (Seq<u8>, (u32, u32))>::empty(),
            !final(self).crop_mode,
            !final(self).modified,
            final(self).status@ == "Neues Dokument."@,
            final(self).same_clipboard(*old(self)),
            final(self).history@ == HistoryView::initialized(final(self).snapshot_value()),
            final(self).ids_fresh(),
    {
        self.doc = Document::new();
        self.page_index = 0;
        self.next_id = 1;
        self.clear_selection();
        self.editing = None;
        self.edit_focus = false;
        self.images = ImageStore::new();
        self.crop_mode = false;
        self.modified = false;
        self.status = String::from_str("Neues Dokument.");
        let snap = self.snapshot();
        self.history.init(snap);
        assert(self.doc@.pages[0] =~= Seq::<Element<G>>::empty());
    }

    /// Adds an empty text element with the given geometry to the current
    /// page, selects it and starts editing it.
    pub fn add_text(&mut self, geom: G)
        requires
            old(self).next_id < u64::MAX,
        ensures
            final(self).history@ == old(self).history@.recorded(old(self).snapshot_value()),
            final(self).next_id == old(self).next_id + 1,
            element_added(
                old(self).doc@,
                final(self).doc@,
                old(self).page_index as int,
                |e: Element<G>| e.is_new_text(old(self).next_id, geom) && e.text@ == Seq::<char>::empty(),
            ),
            final(self).page_index == old(self).page_index,
            final(self).selection@ == seq![old(self).next_id],
            final(self).editing matches Some((id, buf)) && id == old(self).next_id && buf@
                == Seq::<char>::empty(),
            final(self).edit_focus,
            final(self).images == old(self).images,
            !final(self).crop_mode,
            final(self).modified,
            final(self).status@ == "Text erstellt – tippe los."@,
            final(self).same_clipboard(*old(self)),
            old(self).ids_fresh() ==> final(self).ids_fresh(),
    {
        self.push_history();
        let id = self.next_id();
        let mut el = Element::new_text(id, geom);
        el.text = String::new();
        let ghost added = el;
        self.push_to_current_page(el);
        proof {
            if old(self).ids_fresh() {
                lemma_with_element_fresh(old(self).doc@, old(self).page_index as int, added);
            }
        }
        self.select_only(id);
        self.crop_mode = false;
        self.modified = true;
        self.editing = Some((id, String::new()));
        self.edit_focus = true;
        self.status = String::from_str("Text erstellt – tippe los.");
    }

    /// Adds a shape element of the given kind; what the rectangle and
    /// line commands share.
    fn add_shape(&mut self, kind: ElementKind, geom: G)
        requires
            old(self).next_id < u64::MAX,
        ensures
            final(self).history@ == old(self).history@.recorded(old(self).snapshot_value()),
            final(self).next_id == old(self).next_id + 1,
            element_added(
                old(self).doc@,
                final(self).doc@,
                old(self).page_index as int,
                |e: Element<G>| e.is_new_shape(old(self).next_id, kind, geom),
            ),
            final(self).page_index == old(self).page_index,
            final(self).selection@ == seq![old(self).next_id],
            final(self).editing == old(self).editing,
            final(self).edit_focus == old(self).edit_focus,
            final(self).images == old(self).images,
            final(self).crop_mode == old(self).crop_mode,
            final(self).modified,
            final(self).status == old(self).status,
            final(self).same_clipboard(*old(self)),
            old(self).ids_fresh() ==> final(self).ids_fresh(),
    {
        self.push_history();
        let id = self.next_id();
        let el = Element::new_shape(id, kind, geom);
        let ghost added = el;
        self.push_to_current_page(el);
        proof {
            if old(self).ids_fresh() {
                lemma_with_element_fresh(old(self).doc@, old(self).page_index as int, added);
            }
        }
        self.select_only(id);
        self.modified = true;
    }

    /// Adds a rectangle with the given geometry to the current page and
    /// selects it.
    pub fn add_rectangle(&mut self, geom: G)
        requires
            old(self).next_id < u64::MAX,
        ensures
            final(self).history@ == old(self).history@.recorded(old(self).snapshot_value()),
            final(self).next_id == old(self).next_id + 1,
            element_added(
                old(self).doc@,
                final(self).doc@,
                old(self).page_index as int,
                |e: Element<G>| e.is_new_shape(old(self).next_id, ElementKind::Rectangle, geom),
            ),
            final(self).page_index == old(self).page_index,
            final(self).selection@ == seq![old(self).next_id],
            final(self).editing == old(self).editing,
            final(self).edit_focus == old(self).edit_focus,
            final(self).images == old(self).images,
            !final(self).crop_mode,
            final(self).modified,
            final(self).status@ == "Rechteck hinzugefügt."@,
            final(self).same_clipboard(*old(self)),
            old(self).ids_fresh() ==> final(self).ids_fresh(),
    {
        self.add_shape(ElementKind::Rectangle, geom);
        self.crop_mode = false;
        self.status = String::from_str("Rechteck hinzugefügt.");
    }

    /// Adds a line with the given geometry to the current page and
    /// selects it.
    pub fn add_line(&mut self, geom: G)
        requires
            old(self).next_id < u64::MAX,
        ensures
            final(self).history@ == old(self).history@.recorded(old(self).snapshot_value()),
            final(self).next_id == old(self).next_id + 1,
            element_added(
                old(self).doc@,
                final(self).doc@,
                old(self).page_index as int,
                |e: Element<G>| e.is_new_shape(old(self).next_id, ElementKind::Line, geom),
            ),
            final(self).page_index == old(self).page_index,
            final(self).selection@ == seq![old(self).next_id],
            final(self).editing == old(self).editing,
            final(self).edit_focus == old(self).edit_focus,
            final(self).images == old(self).images,
            !final(self).crop_mode,
            final(self).modified,
            final(self).status@ == "Linie hinzugefügt."@,
            final(self).same_clipboard(*old(self)),
            old(self).ids_fresh() ==> final(self).ids_fresh(),
    {
        self.add_shape(ElementKind::Line, geom);
        self.crop_mode = false;
        self.status = String::from_str("Linie hinzugefügt.");
    }

    /// Adds a line drawn between two points (their geometry given) and
    /// selects it; the crop mode is left as it is.
    pub fn add_line_between(&mut self, geom: G)
        requires
            old(self).next_id < u64::MAX,
        ensures
            final(self).history@ == old(self).history@.recorded(old(self).snapshot_value()),
            final(self).next_id == old(self).next_id + 1,
            element_added(
                old(self).doc@,
                final(self).doc@,
                old(self).page_index as int,
                |e: Element<G>| e.is_new_shape(old(self).next_id, ElementKind::Line, geom),
            ),
            final(self).page_index == old(self).page_index,
            final(self).selection@ == seq![old(self).next_id],
            final(self).editing == old(self).editing,
            final(self).edit_focus == old(self).edit_focus,
            final(self).images == old(self).images,
            final(self).crop_mode == old(self).crop_mode,
            final(self).modified,
            final(self).status@ == "Linie gezeichnet."@,
            final(self).same_clipboard(*old(self)),
            old(self).ids_fresh() ==> final(self).ids_fresh(),
    {
        self.add_shape(ElementKind::Line, geom);
        self.status = String::from_str("Linie gezeichnet.");
    }

    /// Appends an empty page and makes it the current one.
    pub fn add_page(&mut self)
        ensures
            final(self).doc@.format == old(self).doc@.format,
            final(self).doc@.orientation == old(self).doc@.orientation,
            final(self).doc@.pages == old(self).doc@.pages.push(Seq::<Element<G>>::empty()),
            final(self).page_index == old(self).doc@.pages.len(),
            final(self).selection@ == Seq::<u64>::empty(),
            final(self).modified,
            final(self).next_id == old(self).next_id,
            final(self).editing == old(self).editing,
            final(self).edit_focus == old(self).edit_focus,
            final(self).images == old(self).images,
            final(self).crop_mode == old(self).crop_mode,
            final(self).status == old(self).status,
            final(self).same_clipboard(*old(self)),
            final(self).history == old(self).history,
            old(self).ids_fresh() ==> final(self).ids_fresh(),
    {
        let ghost old_pages = self.doc@.pages;
        self.doc.pages.push(Page::new());
        assert(self.doc@.pages =~= old_pages.push(Seq::<Element<G>>::empty()));
        self.page_index = self.doc.pages.len() - 1;
        self.clear_selection();
        self.modified = true;
        proof {
            if old(self).ids_fresh() {
                let d = self.doc@;
                let n = old_pages.len() as int;
                assert forall|p: int| 0 <= p < d.pages.len() implies page_ids_distinct(#[trigger] d.pages[p]) by {
                    if p < n {
                        assert(d.pages[p] == old_pages[p]);
                    }
                }
                assert forall|p: int, e: int| 0 <= p < d.pages.len() && 0 <= e < d.pages[p].len() implies (
                #[trigger] d.pages[p][e]).id < self.next_id by {
                    assert(d.pages[p] == old_pages[p]);
                }
                assert forall|p: int, q: int, e: int, f: int|
                    0 <= p < d.pages.len() && 0 <= q < d.pages.len() && p != q && 0 <= e < d.pages[p].len()
                        && 0 <= f < d.pages[q].len() implies (#[trigger] d.pages[p][e]).id != (
                #[trigger] d.pages[q][f]).id by {
                    assert(d.pages[p] == old_pages[p]);
                    assert(d.pages[q] == old_pages[q]);
                }
            }
        }
    }
    /// Deletes the selected elements from the current page (their images
    /// stay in the store, for undo).
    pub fn delete_selected(&mut self)
        ensures
            old(self).selection@.len() == 0 ==> *final(self) == *old(self),
            old(self).selection@.len() > 0 ==> {
                &&& final(self).history@ == old(self).history@.recorded(old(self).snapshot_value())
                &&& final(self).doc@ == with_page(
                    old(self).doc@,
                    old(self).page_index as int,
                    without_ids(
                        old(self).doc@.pages[old(self).page_index as int],
                        old(self).selection@,
                    ),
                )
                &&& final(self).selection@ == Seq::<u64>::empty()
                &&& final(self).editing is None
                &&& !final(self).crop_mode
                &&& final(self).modified
                &&& final(self).status@ == "Objekt(e) gelöscht."@
            },
            final(self).page_index == old(self).page_index,
            final(self).next_id == old(self).next_id,
            final(self).edit_focus == old(self).edit_focus,
            final(self).images == old(self).images,
            final(self).same_clipboard(*old(self)),
            old(self).ids_fresh() ==> final(self).ids_fresh(),
    {
        if self.selection.len() == 0 {
            return;
        }
        self.push_history();
        let i = self.page_index;
        if i < self.doc.pages.len() {
            proof {
                if old(self).ids_fresh() {
                    lemma_delete_fresh(old(self).doc@, i as int, old(self).selection@, old(self).next_id as int);
                }
            }
            let kept = filter_by_ids(&self.doc.pages[i].elements, &self.selection, false);
            let ghost kept_v = kept@;
            self.doc.pages[i].elements = kept;
            assert(self.doc@.pages =~= old(self).doc@.pages.update(i as int, kept_v));
        }
        self.clear_selection();
        self.editing = None;
        self.crop_mode = false;
        self.modified = true;
        self.status = String::from_str("Objekt(e) gelöscht.");
    }

    /// Undo: records the current state in the history and restores the
    /// snapshot before it, if there is one; so an undo right after an
    /// action gives back the state the action started from.
    pub fn undo(&mut self)
        ensures
            undo_effect(*old(self), *final(self)),
            old(self).ids_fresh() ==> final(self).ids_fresh(),
    {
        if !self.history.can_undo() {
            return;
        }
        let current = self.snapshot();
        self.history.set_current(current);
        let restored = match self.history.undo() {
            Some(snap) => Some(
                (
                    snap.doc.clone(),
                    vstd::slice::slice_to_vec(snap.selection.as_slice()),
                    snap.page_index,
                ),
            ),
            None => None,
        };
        if let Some((doc, selection, page_index)) = restored {
            self.doc = doc;
            self.selection = selection;
            self.page_index = page_index;
            self.editing = None;
            self.crop_mode = false;
            self.modified = true;
            self.status = String::from_str("Rückgängig.");
        }
        proof {
            if old(self).ids_fresh() {
                lemma_recorded_fresh(old(self).history@, old(self).snapshot_value(), old(self).next_id as int);
                let h = old(self).history@.with_current(old(self).snapshot_value());
                assert(doc_fresh(h.entries[h.cursor - 1].0, self.next_id as int));
            }
        }
    }

    /// Redo: records the current state in the history and restores the
    /// snapshot after it, if there is one; so a redo right after an undo
    /// gives back the state the undo left.
    pub fn redo(&mut self)
        ensures
            redo_effect(*old(self), *final(self)),
            old(self).ids_fresh() ==> final(self).ids_fresh(),
    {
        if !self.history.can_redo() {
            return;
        }
        let current = self.snapshot();
        self.history.set_current(current);
        let restored = match self.history.redo() {
            Some(snap) => Some(
                (
                    snap.doc.clone(),
                    vstd::slice::slice_to_vec(snap.selection.as_slice()),
                    snap.page_index,
                ),
            ),
            None => None,
        };
        if let Some((doc, selection, page_index)) = restored {
            self.doc = doc;
            self.selection = selection;
            self.page_index = page_index;
            self.editing = None;
            self.crop_mode = false;
            self.modified = true;
            self.status = String::from_str("Wiederhergestellt.");
        }
        proof {
            if old(self).ids_fresh() {
                lemma_recorded_fresh(old(self).history@, old(self).snapshot_value(), old(self).next_id as int);
                let h = old(self).history@.with_current(old(self).snapshot_value());
                assert(doc_fresh(h.entries[h.cursor + 1int].0, self.next_id as int));
            }
        }
    }
    /// Copies the selected elements of the current page to the clipboard.
    pub fn copy_selection(&mut self)
        ensures
            old(self).page_index >= old(self).doc@.pages.len() ==> *final(self) == *old(self),
            old(self).page_index < old(self).doc@.pages.len() ==> {
                let copied = with_ids(
                    old(self).doc@.pages[old(self).page_index as int],
                    old(self).selection@,
                );
                &&& final(self).clipboard@ == copied
                &&& copied.len() > 0 ==> final(self).status@ == crate::text::decimal(
                    copied.len(),
                ) + " Objekt(e) kopiert."@
                &&& copied.len() == 0 ==> final(self).status == old(self).status
            },
            final(self).doc == old(self).doc,
            final(self).page_index == old(self).page_index,
            final(self).next_id == old(self).next_id,
            final(self).selection == old(self).selection,
            final(self).editing == old(self).editing,
            final(self).edit_focus == old(self).edit_focus,
            final(self).images == old(self).images,
            final(self).crop_mode == old(self).crop_mode,
            final(self).modified == old(self).modified,
            final(self).pasting == old(self).pasting,
            final(self).prop_snapshot_pending == old(self).prop_snapshot_pending,
            final(self).history == old(self).history,
    {
        if self.page_index >= self.doc.pages.len() {
            return;
        }
        let copied = filter_by_ids(&self.doc.pages[self.page_index].elements, &self.selection, true);
        self.clipboard = copied;
        if self.clipboard.len() > 0 {
            let mut st = String::new();
            crate::text::push_decimal(&mut st, self.clipboard.len() as u64);
            crate::text::push_str(&mut st, " Objekt(e) kopiert.");
            self.status = st;
        }
    }

    /// Starts paste mode: a preview follows the pointer until a click.
    pub fn start_paste(&mut self)
        ensures
            old(self).clipboard@.len() == 0 ==> *final(self) == *old(self),
            old(self).clipboard@.len() > 0 ==> {
                &&& final(self).pasting
                &&& final(self).selection@ == Seq::<u64>::empty()
                &&& final(self).status@ == "Klicke zum Platzieren · Esc bricht ab."@
            },
            final(self).doc == old(self).doc,
            final(self).page_index == old(self).page_index,
            final(self).next_id == old(self).next_id,
            final(self).editing == old(self).editing,
            final(self).edit_focus == old(self).edit_focus,
            final(self).images == old(self).images,
            final(self).crop_mode == old(self).crop_mode,
            final(self).modified == old(self).modified,
            final(self).clipboard == old(self).clipboard,
            final(self).prop_snapshot_pending == old(self).prop_snapshot_pending,
            final(self).history == old(self).history,
    {
        if self.clipboard.len() == 0 {
            return;
        }
        self.pasting = true;
        self.clear_selection();
        self.status = String::from_str("Klicke zum Platzieren · Esc bricht ab.");
    }

    /// Pastes the clipboard onto the current page under new ids, each copy
    /// placed where `place` puts the geometry of the copied element; image
    /// elements get a copy of their image. The pasted elements become the
    /// selection.
    pub fn confirm_paste<F: Fn(G) -> G>(&mut self, place: F)
        requires
            forall|g: G| call_requires(place, (g,)),
            old(self).next_id + old(self).clipboard@.len() <= u64::MAX,
        ensures
            old(self).clipboard@.len() == 0 ==> {
                &&& !final(self).pasting
                &&& final(self).doc == old(self).doc
                &&& final(self).next_id == old(self).next_id
                &&& final(self).selection == old(self).selection
                &&& final(self).images == old(self).images
                &&& final(self).modified == old(self).modified
                &&& final(self).status == old(self).status
                &&& final(self).history == old(self).history
            },
            old(self).clipboard@.len() > 0 ==> {
                let n = old(self).clipboard@.len();
                let pi = old(self).page_index as int;
                &&& final(self).history@ == old(self).history@.recorded(old(self).snapshot_value())
                &&& final(self).next_id == old(self).next_id + n
                &&& final(self).selection@ == Seq::new(n, |i: int| (old(self).next_id + i) as u64)
                &&& final(self).images@ == paste_images(
                    old(self).images@,
                    old(self).clipboard@,
                    old(self).next_id as int,
                )
                &&& (0 <= pi < old(self).doc@.pages.len() ==> {
                    let pasted = final(self).doc@.pages[pi].skip(old(self).doc@.pages[pi].len() as int);
                    &&& final(self).doc@ == with_page(
                        old(self).doc@,
                        pi,
                        old(self).doc@.pages[pi] + pasted,
                    )
                    &&& pasted.len() == n
                    &&& forall|i: int|
                        0 <= i < n ==> is_pasted(
                            #[trigger] pasted[i],
                            old(self).clipboard@[i],
                            (old(self).next_id + i) as u64,
                            place,
                        )
                })
                &&& (pi >= old(self).doc@.pages.len() ==> final(self).doc@ == old(self).doc@)
                &&& !final(self).pasting
                &&& final(self).modified
                &&& final(self).status@ == "Eingefügt."@
            },
            final(self).page_index == old(self).page_index,
            final(self).editing == old(self).editing,
            final(self).edit_focus == old(self).edit_focus,
            final(self).crop_mode == old(self).crop_mode,
            final(self).clipboard == old(self).clipboard,
            final(self).prop_snapshot_pending == old(self).prop_snapshot_pending,
            old(self).ids_fresh() ==> final(self).ids_fresh(),
    {
        if self.clipboard.len() == 0 {
            self.pasting = false;
            return;
        }
        self.push_history();
        let ghost start = *self;
        let ghost pi = self.page_index as int;
        let ghost base = self.doc@;
        let mut new_ids: Vec<u64> = Vec::new();
        let mut k: usize = 0;
        assert(self.clipboard@.skip(0) =~= self.clipboard@);
        assert(new_ids@ =~= Seq::new(0nat, |i: int| (start.next_id + i) as u64));
        proof {
            if 0 <= pi < base.pages.len() {
                assert(self.doc@.pages[pi].skip(base.pages[pi].len() as int) =~= Seq::<Element<G>>::empty());
                assert(self.doc@.pages[pi] =~= base.pages[pi] + Seq::<Element<G>>::empty());
            }
        }
        while k < self.clipboard.len()
            invariant
                forall|g: G| call_requires(place, (g,)),
                pi == start.page_index as int,
                base == start.doc@,
                k <= self.clipboard@.len(),
                self.clipboard == start.clipboard,
                self.page_index == start.page_index,
                self.next_id == start.next_id + k,
                start.next_id + self.clipboard@.len() <= u64::MAX,
                new_ids@ == Seq::new(k as nat, |i: int| (start.next_id + i) as u64),
                paste_images(self.images@, self.clipboard@.skip(k as int), self.next_id as int)
                    == paste_images(start.images@, start.clipboard@, start.next_id as int),
                self.doc@.format == base.format,
                self.doc@.orientation == base.orientation,
                self.doc@.pages.len() == base.pages.len(),
                forall|j: int| 0 <= j < base.pages.len() && j != pi ==> self.doc@.pages[j] == base.pages[j],
                0 <= pi < base.pages.len() ==> {
                    let pasted = self.doc@.pages[pi].skip(base.pages[pi].len() as int);
                    &&& self.doc@.pages[pi] == base.pages[pi] + pasted
                    &&& pasted.len() == k
                    &&& forall|i: int|
                        0 <= i < k ==> is_pasted(
                            #[trigger] pasted[i],
                            start.clipboard@[i],
                            (start.next_id + i) as u64,
                            place,
                        )
                },
                self.history == start.history,
                self.editing == start.editing,
                self.edit_focus == start.edit_focus,
                self.crop_mode == start.crop_mode,
                self.prop_snapshot_pending == start.prop_snapshot_pending,
                self.selection == start.selection,
                self.modified == start.modified,
                self.status == start.status,
                self.pasting == start.pasting,
            decreases self.clipboard@.len() - k,
        {
            let new_id = self.next_id();
            let ghost clip_rest = self.clipboard@.skip(k as int);
            let ghost imgs = self.images@;
            let mut new_el = self.clipboard[k].clone();
            if new_el.kind == ElementKind::Image {
                match self.images.get_copy(new_el.id) {
                    Some(entry) => {
                        self.images.insert(new_id, entry.png, entry.dim);
                    },
                    None => {},
                }
            }
            assert(clip_rest.skip(1) =~= self.clipboard@.skip(k + 1));
            let old_geom = new_el.geom;
            new_el.id = new_id;
            new_el.geom = place(old_geom);
            let ghost pasted_el = new_el;
            let ghost before = self.doc@;
            assert(self.page_index as int == pi);
            self.push_to_current_page(new_el);
            assert(self.doc@ == with_element(before, pi, pasted_el));
            proof {
                assert forall|j: int| 0 <= j < base.pages.len() && j != pi implies self.doc@.pages[j]
                    == base.pages[j] by {
                    assert(self.doc@.pages[j] == before.pages[j]);
                }
                if 0 <= pi < base.pages.len() {
                    let pasted_before = before.pages[pi].skip(base.pages[pi].len() as int);
                    assert(self.doc@.pages[pi] == before.pages[pi].push(pasted_el));
                    assert(before.pages[pi] == base.pages[pi] + pasted_before);
                    let pasted_after = self.doc@.pages[pi].skip(base.pages[pi].len() as int);
                    assert(pasted_after =~= pasted_before.push(pasted_el));
                    assert(self.doc@.pages[pi] =~= base.pages[pi] + pasted_after);
                    assert(pasted_el == Element { id: pasted_el.id, geom: pasted_el.geom, ..start.clipboard@[k as int] });
                }
            }
            new_ids.push(new_id);
            assert(new_ids@ =~= Seq::new((k + 1) as nat, |i: int| (start.next_id + i) as u64));
            k = k + 1;
        }
        proof {
            assert(self.clipboard@.skip(k as int) =~= Seq::<Element<G>>::empty());
            if 0 <= pi < base.pages.len() {
                assert(self.doc@.pages =~= base.pages.update(pi, self.doc@.pages[pi]));
                if start.ids_fresh() {
                    let pasted = self.doc@.pages[pi].skip(base.pages[pi].len() as int);
                    assert forall|i: int| 0 <= i < pasted.len() implies (#[trigger] pasted[i]).id
                        == start.next_id + i by {
                        assert(is_pasted(pasted[i], start.clipboard@[i], (start.next_id + i) as u64, place));
                    }
                    lemma_paste_fresh(base, pi, pasted, start.next_id as int);
                    assert(self.doc@ == with_page(base, pi, base.pages[pi] + pasted));
                }
            } else {
                assert(self.doc@.pages =~= base.pages);
            }
        }
        self.selection = new_ids;
        self.pasting = false;
        self.modified = true;
        self.status = String::from_str("Eingefügt.");
    }
    /// Adds an image whose decoding gave `size`: stores the bytes and adds
    /// an image element with the geometry that `place` gives for that size;
    /// when decoding failed, only the status tells so (the history step and
    /// the id are spent either way).
    pub fn add_decoded_image<F: Fn(u32, u32) -> G>(
        &mut self,
        bytes: Vec<u8>,
        size: Result<(u32, u32), String>,
        place: F,
    )
        requires
            old(self).next_id < u64::MAX,
            forall|w: u32, h: u32| call_requires(place, (w, h)),
        ensures
            image_added(*old(self), *final(self), bytes@, crate::codec::size_view(size), place),
            old(self).ids_fresh() ==> final(self).ids_fresh(),
    {
        self.push_history();
        let id = self.next_id();
        let (w, h) = match size {
            Ok(d) => d,
            Err(e) => {
                let mut st = String::from_str("Bild konnte nicht gelesen werden: ");
                crate::text::push_str(&mut st, e.as_str());
                self.status = st;
                return;
            },
        };
        let geom = place(w, h);
        let el = Element::new_image(id, w, h, geom);
        let ghost added = el;
        self.images.insert(id, bytes, (w, h));
        self.push_to_current_page(el);
        self.select_only(id);
        self.crop_mode = false;
        self.modified = true;
        let mut st = String::from_str("Bild hinzugefügt (");
        crate::text::push_decimal(&mut st, w as u64);
        crate::text::push_str(&mut st, "×");
        crate::text::push_decimal(&mut st, h as u64);
        crate::text::push_str(&mut st, ").");
        self.status = st;
        proof {
            if old(self).ids_fresh() {
                lemma_with_element_fresh(old(self).doc@, old(self).page_index as int, added);
            }
        }
    }

    /// Adds an image from its encoded bytes: decodes it for its pixel size
    /// and goes on as `add_decoded_image` with what the decoding gave, which
    /// it hands back.
    pub fn add_image_from_bytes<F: Fn(u32, u32) -> G>(&mut self, bytes: Vec<u8>, place: F) -> (d: Decoded)
        requires
            old(self).next_id < u64::MAX,
            forall|w: u32, h: u32| call_requires(place, (w, h)),
        ensures
            d.source() == bytes@,
            image_added(*old(self), *final(self), bytes@, d.outcome(), place),
            exists|size: Result<(u32, u32), Seq<char>>|
                image_added(*old(self), *final(self), bytes@, size, place),
            old(self).ids_fresh() ==> final(self).ids_fresh(),
    {
        let d = crate::codec::image_size(bytes.as_slice());
        let size = d.result();
        self.add_decoded_image(bytes, size, place);
        d
    }
}

/// An image added with the size `(w, h)` that its decoding gave is an image
/// element of exactly that pixel size (a zero side counted as 1), appended to
/// the current page and selected; the store holds its bytes with that size,
/// and the status reports `w×h`.
pub proof fn lemma_added_image_size<G, F: Fn(u32, u32) -> G>(
    old: EditorApp<G>,
    new: EditorApp<G>,
    bytes: Seq<u8>,
    place: F,
    w: u32,
    h: u32,
)
    requires
        image_added(old, new, bytes, Ok((w, h)), place),
        old.page_index < old.doc@.pages.len(),
    ensures
        new.images@.contains_key(old.next_id),
        new.images@[old.next_id] == (bytes, (w, h)),
        new.doc@.pages[old.page_index as int].len() == old.doc@.pages[old.page_index as int].len() + 1,
        new.doc@.pages[old.page_index as int].last().id == old.next_id,
        new.doc@.pages[old.page_index as int].last().kind == ElementKind::Image,
        new.doc@.pages[old.page_index as int].last().image_w == crate::model::through_f32(
            if w == 0 { 1 } else { w as nat },
        ),
        new.doc@.pages[old.page_index as int].last().image_h == crate::model::through_f32(
            if h == 0 { 1 } else { h as nat },
        ),
        new.selection@ == seq![old.next_id],
        new.status@ == "Bild hinzugefügt ("@ + crate::text::decimal(w as nat) + "×"@
            + crate::text::decimal(h as nat) + ")."@,
{
    let pi = old.page_index as int;
    assert(new.doc@.pages[pi] == old.doc@.pages[pi].push(new.doc@.pages[pi].last()));
}

/// An image whose decoding failed adds nothing: the document, the store and
/// the selection stay, and the status carries the error.
pub proof fn lemma_undecoded_image_adds_nothing<G, F: Fn(u32, u32) -> G>(
    old: EditorApp<G>,
    new: EditorApp<G>,
    bytes: Seq<u8>,
    place: F,
    msg: Seq<char>,
)
    requires
        image_added(old, new, bytes, Err(msg), place),
    ensures
        new.doc == old.doc,
        new.images == old.images,
        new.selection == old.selection,
        new.status@ == "Bild konnte nicht gelesen werden: "@ + msg,
{
}

/// The editor after an undo: when the history can undo, the current state
/// is recorded under the cursor, the cursor moves back and the snapshot
/// there is restored (text editing and crop mode end, the document counts
/// as modified); otherwise nothing changes. The next id, the images and the
/// clipboard stay.
pub open spec fn undo_effect<G>(old: EditorApp<G>, new: EditorApp<G>) -> bool {
    let h = old.history@.with_current(old.snapshot_value());
    &&& old.history@.can_undo() ==> {
        &&& new.history@ == h.undone()
        &&& new.snapshot_value() == h.entries[h.cursor - 1]
        &&& new.editing is None
        &&& !new.crop_mode
        &&& new.modified
        &&& new.status@ == "Rückgängig."@
    }
    &&& !old.history@.can_undo() ==> new == old
    &&& new.next_id == old.next_id
    &&& new.edit_focus == old.edit_focus
    &&& new.images == old.images
    &&& new.same_clipboard(old)
}

/// The editor after a redo: when the history can redo, the current state
/// is recorded under the cursor, the cursor moves forward and the snapshot
/// there is restored; otherwise nothing changes.
pub open spec fn redo_effect<G>(old: EditorApp<G>, new: EditorApp<G>) -> bool {
    let h = old.history@.with_current(old.snapshot_value());
    &&& old.history@.can_redo() ==> {
        &&& new.history@ == h.redone()
        &&& new.snapshot_value() == h.entries[h.cursor + 1int]
        &&& new.editing is None
        &&& !new.crop_mode
        &&& new.modified
        &&& new.status@ == "Wiederhergestellt."@
    }
    &&& !old.history@.can_redo() ==> new == old
    &&& new.next_id == old.next_id
    &&& new.edit_focus == old.edit_focus
    &&& new.images == old.images
    &&& new.same_clipboard(old)
}

/// An undo right after a recorded action gives back exactly the state the
/// action started from: its document, selection and page.
pub proof fn lemma_undo_after_edit<G>(before: EditorApp<G>, edited: EditorApp<G>, undone: EditorApp<G>)
    requires
        before.history@.valid(),
        edited.history@ == before.history@.recorded(before.snapshot_value()),
        undo_effect(edited, undone),
    ensures
        undone.snapshot_value() == before.snapshot_value(),
        undone.next_id == edited.next_id,
        undone.images == edited.images,
{
    crate::history::lemma_undo_after_recorded(before.history@, before.snapshot_value(), edited.snapshot_value());
}

/// A redo right after an undo gives back exactly the state before the
/// undo, and the history as it was with that state recorded.
pub proof fn lemma_redo_after_undo<G>(before: EditorApp<G>, undone: EditorApp<G>, redone: EditorApp<G>)
    requires
        before.history@.valid(),
        before.history@.can_undo(),
        undo_effect(before, undone),
        redo_effect(undone, redone),
    ensures
        redone.snapshot_value() == before.snapshot_value(),
        redone.history@ == before.history@.with_current(before.snapshot_value()),
        redone.next_id == before.next_id,
        redone.images == before.images,
{
    let h = before.history@.with_current(before.snapshot_value());
    assert(h.valid());
    assert(h.entries[h.cursor as int] == before.snapshot_value());
    crate::history::lemma_redo_undoes_undo(h);
    crate::history::lemma_with_current_same(h.undone(), undone.snapshot_value());
}

/// The editor after adding an image whose decoding gave `size`: a history
/// step and an id are spent; on success the bytes are stored under the id
/// and an image element of that size, placed by `place`, is appended to the
/// current page and selected; on failure the status carries the error.
pub open spec fn image_added<G, F: Fn(u32, u32) -> G>(
    old: EditorApp<G>,
    new: EditorApp<G>,
    bytes: Seq<u8>,
    size: Result<(u32, u32), Seq<char>>,
    place: F,
) -> bool {
    &&& new.history@ == old.history@.recorded(old.snapshot_value())
    &&& new.next_id == old.next_id + 1
    &&& new.page_index == old.page_index
    &&& new.editing == old.editing
    &&& new.edit_focus == old.edit_focus
    &&& new.same_clipboard(old)
    &&& match size {
        Ok((w, h)) => {
            &&& new.images@ == old.images@.insert(old.next_id, (bytes, (w, h)))
            &&& element_added(
                old.doc@,
                new.doc@,
                old.page_index as int,
                |e: Element<G>|
                    e.is_new_image(old.next_id, w, h, e.geom) && call_ensures(place, (w, h), e.geom),
            )
            &&& new.selection@ == seq![old.next_id]
            &&& !new.crop_mode
            &&& new.modified
            &&& new.status@ == "Bild hinzugefügt ("@ + crate::text::decimal(w as nat) + "×"@
                + crate::text::decimal(h as nat) + ")."@
        },
        Err(msg) => {
            &&& new.images == old.images
            &&& new.doc == old.doc
            &&& new.selection == old.selection
            &&& new.crop_mode == old.crop_mode
            &&& new.modified == old.modified
            &&& new.status@ == "Bild konnte nicht gelesen werden: "@ + msg
        },
    }
}

} // verus!
