//! The import finds the exported frames again: the frame blocks that the
//! import cuts out of an exported `content.xml` are, in order, the bodies of
//! the frames of all elements of all pages.
use vstd::prelude::*;

use crate::model::{DocumentView, Element, ElementKind};
use crate::odt::{
    content_xml_spec, escaped, frame_attrs, frame_block, frame_blocks, frame_body, frame_close,
    frame_inner, frame_open, frame_xml_spec, href_of, page_frames, pages_xml, paragraph_xml,
    paragraphs_xml, pieces_after, placements_fit, FramePlacement, OdtImageFile, CONTENT_HEAD,
    CONTENT_TAIL, PAGE_BREAK,
};
use crate::odt_roundtrip::{
    lacks, lemma_escaped_no_lt, lemma_frame_attrs_plain, no_lt, no_quote, plain_placement,
};
use crate::text::{find, lemma_find_at, lemma_find_passes, matches_at};

verus! {

/// The `<` at `k` does not begin `<draw:frame` (its second or seventh
/// character differs).
pub open spec fn not_open_at(s: Seq<char>, k: int) -> bool {
    (k + 1 < s.len() && s[k + 1] != 'd') || (k + 6 < s.len() && s[k + 6] != 'f')
}

/// The `<` at `k` does not begin `</draw:frame>` (its second, third or
/// eighth character differs).
pub open spec fn not_close_at(s: Seq<char>, k: int) -> bool {
    ||| (k + 1 < s.len() && s[k + 1] != '/')
    ||| (k + 2 < s.len() && s[k + 2] != 'd')
    ||| (k + 7 < s.len() && s[k + 7] != 'f')
}

/// Every `<` of `s` is seen, within `s`, not to begin a frame tag, so no
/// frame tag can begin inside `s`, whatever surrounds it.
pub open spec fn frame_free(s: Seq<char>) -> bool {
    forall|k: int| 0 <= k < s.len() && #[trigger] s[k] == '<' ==> not_open_at(s, k) && not_close_at(s, k)
}

/// Every `<` of `s` is seen, within `s`, not to begin `<draw:frame`.
pub open spec fn open_free(s: Seq<char>) -> bool {
    forall|k: int| 0 <= k < s.len() && #[trigger] s[k] == '<' ==> not_open_at(s, k)
}

pub proof fn lemma_no_lt_frame_free(s: Seq<char>)
    requires
        no_lt(s),
    ensures
        frame_free(s),
        open_free(s),
{
}

pub proof fn lemma_frame_free_add(a: Seq<char>, b: Seq<char>)
    requires
        frame_free(a),
        frame_free(b),
    ensures
        frame_free(a + b),
{
    let s = a + b;
    assert forall|k: int| 0 <= k < s.len() && #[trigger] s[k] == '<' implies not_open_at(s, k)
        && not_close_at(s, k) by {
        if k < a.len() {
            assert(a[k] == '<');
            assert(not_open_at(a, k) && not_close_at(a, k));
            assert forall|j: int| 0 <= j < a.len() implies s[j] == a[j] by {}
        } else {
            assert(b[k - a.len()] == '<');
            assert(not_open_at(b, k - a.len()) && not_close_at(b, k - a.len()));
            assert forall|j: int| 0 <= j < b.len() implies s[a.len() + j] == b[j] by {}
        }
    }
}

pub proof fn lemma_open_free_add(a: Seq<char>, b: Seq<char>)
    requires
        open_free(a),
        open_free(b),
    ensures
        open_free(a + b),
{
    let s = a + b;
    assert forall|k: int| 0 <= k < s.len() && #[trigger] s[k] == '<' implies not_open_at(s, k) by {
        if k < a.len() {
            assert(a[k] == '<');
            assert(not_open_at(a, k));
            assert forall|j: int| 0 <= j < a.len() implies s[j] == a[j] by {}
        } else {
            assert(b[k - a.len()] == '<');
            assert(not_open_at(b, k - a.len()));
            assert forall|j: int| 0 <= j < b.len() implies s[a.len() + j] == b[j] by {}
        }
    }
}

pub proof fn lemma_frame_free_open_free(s: Seq<char>)
    requires
        frame_free(s),
    ensures
        open_free(s),
{
}

/// No `<draw:frame` begins inside a part that is open-free.
pub proof fn lemma_no_open_inside(pre: Seq<char>, s: Seq<char>, post: Seq<char>)
    requires
        open_free(s),
    ensures
        forall|k: int|
            pre.len() <= k < pre.len() + s.len() ==> !matches_at(pre + s + post, frame_open(), k),
{
    let t = pre + s + post;
    assert forall|k: int| pre.len() <= k < pre.len() + s.len() implies !matches_at(t, frame_open(), k) by {
        let i = k - pre.len();
        assert(t[k] == s[i]);
        if matches_at(t, frame_open(), k) {
            assert(t.subrange(k, k + 11)[0] == '<');
            assert(s[i] == '<');
            assert(not_open_at(s, i));
            if i + 1 < s.len() && s[i + 1] != 'd' {
                assert(t[k + 1] == s[i + 1]);
                assert(t.subrange(k, k + 11)[1] == 'd');
            } else {
                assert(t[k + 6] == s[i + 6]);
                assert(t.subrange(k, k + 11)[6] == 'f');
            }
        }
    }
}

/// No `</draw:frame>` begins inside a part that is frame-free.
pub proof fn lemma_no_close_inside(pre: Seq<char>, s: Seq<char>, post: Seq<char>)
    requires
        frame_free(s),
    ensures
        forall|k: int|
            pre.len() <= k < pre.len() + s.len() ==> !matches_at(pre + s + post, frame_close(), k),
{
    let t = pre + s + post;
    assert forall|k: int| pre.len() <= k < pre.len() + s.len() implies !matches_at(t, frame_close(), k) by {
        let i = k - pre.len();
        assert(t[k] == s[i]);
        if matches_at(t, frame_close(), k) {
            assert(t.subrange(k, k + 13)[0] == '<');
            assert(s[i] == '<');
            assert(not_close_at(s, i));
            if i + 1 < s.len() && s[i + 1] != '/' {
                assert(t[k + 1] == s[i + 1]);
                assert(t.subrange(k, k + 13)[1] == '/');
            } else if i + 2 < s.len() && s[i + 2] != 'd' {
                assert(t[k + 2] == s[i + 2]);
                assert(t.subrange(k, k + 13)[2] == 'd');
            } else {
                assert(t[k + 7] == s[i + 7]);
                assert(t.subrange(k, k + 13)[7] == 'f');
            }
        }
    }
}

/// A piece of an exported `content.xml` after its head: text between
/// frames, or a frame (given by its body).
pub enum Token {
    Gap(Seq<char>),
    Frame(Seq<char>),
}

/// The end of a frame.
pub open spec fn frame_end() -> Seq<char> {
    "</draw:frame>\n"@
}

/// A frame as the export writes it, around its body.
pub open spec fn frame_text(body: Seq<char>) -> Seq<char> {
    "   "@ + frame_open() + body + frame_end()
}

pub open spec fn token_text(t: Token) -> Seq<char> {
    match t {
        Token::Gap(g) => g,
        Token::Frame(b) => frame_text(b),
    }
}

/// The text of a sequence of pieces.
pub open spec fn render(ts: Seq<Token>) -> Seq<char>
    decreases ts.len(),
{
    if ts.len() == 0 {
        Seq::empty()
    } else {
        render(ts.drop_last()) + token_text(ts.last())
    }
}

/// The bodies of the frames among the pieces, in order.
pub open spec fn bodies(ts: Seq<Token>) -> Seq<Seq<char>>
    decreases ts.len(),
{
    if ts.len() == 0 {
        Seq::empty()
    } else {
        let r = bodies(ts.drop_last());
        match ts.last() {
            Token::Frame(b) => r.push(b),
            Token::Gap(_) => r,
        }
    }
}

/// Every piece is frame-free (a frame's body, or a gap).
pub open spec fn tokens_free(ts: Seq<Token>) -> bool {
    forall|i: int|
        0 <= i < ts.len() ==> match #[trigger] ts[i] {
            Token::Gap(g) => frame_free(g),
            Token::Frame(b) => frame_free(b),
        }
}

pub proof fn lemma_render_add(a: Seq<Token>, b: Seq<Token>)
    ensures
        render(a + b) == render(a) + render(b),
        bodies(a + b) == bodies(a) + bodies(b),
    decreases b.len(),
{
    if b.len() == 0 {
        assert(a + b =~= a);
        assert(render(a) + render(b) =~= render(a));
        assert(bodies(a) + bodies(b) =~= bodies(a));
    } else {
        lemma_render_add(a, b.drop_last());
        assert((a + b).drop_last() =~= a + b.drop_last());
        assert((a + b).last() == b.last());
        assert(render(a) + render(b.drop_last()) + token_text(b.last()) =~= render(a) + (render(
            b.drop_last(),
        ) + token_text(b.last())));
        match b.last() {
            Token::Frame(x) => {
                assert((bodies(a) + bodies(b.drop_last())).push(x) =~= bodies(a) + bodies(
                    b.drop_last(),
                ).push(x));
            },
            Token::Gap(_) => {},
        }
    }
}

/// The first piece, split off.
pub proof fn lemma_render_front(ts: Seq<Token>)
    requires
        ts.len() > 0,
    ensures
        render(ts) == token_text(ts[0]) + render(ts.skip(1)),
        bodies(ts) == (match ts[0] {
            Token::Frame(b) => seq![b],
            Token::Gap(_) => Seq::<Seq<char>>::empty(),
        }) + bodies(ts.skip(1)),
{
    lemma_render_add(seq![ts[0]], ts.skip(1));
    assert(seq![ts[0]] + ts.skip(1) =~= ts);
    let one = seq![ts[0]];
    assert(one.drop_last() =~= Seq::<Token>::empty());
    assert(one.last() == ts[0]);
    assert(render(one.drop_last()) == Seq::<char>::empty());
    assert(bodies(one.drop_last()) == Seq::<Seq<char>>::empty());
    assert(render(one) =~= Seq::<char>::empty() + token_text(ts[0]));
    assert(Seq::<char>::empty() + token_text(ts[0]) =~= token_text(ts[0]));
    match ts[0] {
        Token::Frame(b) => {
            assert(bodies(one) =~= seq![b]);
        },
        Token::Gap(_) => {
            assert(bodies(one) =~= Seq::<Seq<char>>::empty());
        },
    }
}

proof fn lemma_literals()
    ensures
        frame_end().len() == 14,
        frame_end().subrange(0, 13) == frame_close(),
        open_free(frame_end()),
        no_lt("   "@),
        "   "@.len() == 3,
{
    reveal_strlit("</draw:frame>\n");
    reveal_strlit("   ");
    assert(frame_end().subrange(0, 13) =~= frame_close());
}

/// Text in which no `<draw:frame` begins has no frame.
proof fn lemma_no_open_none(s: Seq<char>)
    requires
        open_free(s),
    ensures
        find(s, frame_open()) is None,
{
    lemma_no_open_inside(Seq::empty(), s, Seq::empty());
    assert(Seq::<char>::empty() + s + Seq::<char>::empty() =~= s);
    lemma_find_passes(s, frame_open(), 0, s.len() as int);
}

/// The block of a frame is its body, whatever follows the end tag.
proof fn lemma_block(b: Seq<char>, x: Seq<char>)
    requires
        frame_free(b),
    ensures
        frame_block(b + frame_end() + x) == b,
{
    lemma_literals();
    let s = b + frame_end() + x;
    lemma_no_close_inside(Seq::empty(), b, frame_end() + x);
    assert(Seq::<char>::empty() + b + (frame_end() + x) =~= s);
    assert(s.subrange(b.len() as int, b.len() + 13int) =~= frame_end().subrange(0, 13));
    lemma_find_at(s, frame_close(), 0, b.len() as int);
    assert(s.take(b.len() as int) =~= b);
}

/// Cutting at the frames, from just after a frame's `<draw:frame` on:
/// that frame's body, then the bodies of the frames that follow.
proof fn lemma_pieces(b: Seq<char>, g: Seq<char>, ts: Seq<Token>, post: Seq<char>)
    requires
        frame_free(b),
        frame_free(g),
        tokens_free(ts),
        frame_free(post),
    ensures
        pieces_after(b + frame_end() + g + render(ts) + post).map_values(
            |raw: Seq<char>| frame_block(raw),
        ) == seq![b] + bodies(ts),
    decreases ts.len(),
{
    lemma_literals();
    let s = b + frame_end() + g + render(ts) + post;
    if ts.len() == 0 {
        assert(s =~= b + frame_end() + (g + post));
        lemma_frame_free_add(g, post);
        lemma_frame_free_open_free(b);
        lemma_frame_free_open_free(g + post);
        lemma_open_free_add(b, frame_end());
        lemma_open_free_add(b + frame_end(), g + post);
        lemma_no_open_none(s);
        lemma_block(b, g + post);
        assert(pieces_after(s) == seq![s]);
        assert(pieces_after(s).map_values(|raw: Seq<char>| frame_block(raw)) =~= seq![b]);
        assert(bodies(ts) =~= Seq::<Seq<char>>::empty());
        assert(seq![b] + bodies(ts) =~= seq![b]);
    } else {
        lemma_render_front(ts);
        let rest = ts.skip(1);
        assert(tokens_free(rest)) by {
            assert forall|i: int| 0 <= i < rest.len() implies match #[trigger] rest[i] {
                Token::Gap(x) => frame_free(x),
                Token::Frame(x) => frame_free(x),
            } by {
                assert(rest[i] == ts[i + 1]);
            }
        }
        match ts[0] {
            Token::Gap(g2) => {
                assert(frame_free(g2)) by {
                    assert(ts[0] == Token::Gap(g2));
                }
                lemma_frame_free_add(g, g2);
                assert(s =~= b + frame_end() + (g + g2) + render(rest) + post);
                lemma_pieces(b, g + g2, rest, post);
            },
            Token::Frame(b2) => {
                assert(frame_free(b2)) by {
                    assert(ts[0] == Token::Frame(b2));
                }
                let front = b + frame_end() + g + "   "@;
                let tail = b2 + frame_end() + Seq::<char>::empty() + render(rest) + post;
                assert(s =~= front + (frame_open() + tail));
                lemma_frame_free_open_free(b);
                lemma_frame_free_open_free(g);
                lemma_no_lt_frame_free("   "@);
                lemma_open_free_add(b, frame_end());
                lemma_open_free_add(b + frame_end(), g);
                lemma_open_free_add(b + frame_end() + g, "   "@);
                lemma_no_open_inside(Seq::empty(), front, frame_open() + tail);
                assert(Seq::<char>::empty() + front + (frame_open() + tail) =~= s);
                assert(s.subrange(front.len() as int, front.len() + 11int) =~= frame_open());
                lemma_find_at(s, frame_open(), 0, front.len() as int);
                assert(s.take(front.len() as int) =~= front);
                assert(s.skip(front.len() + 11int) =~= tail);
                assert(front =~= b + frame_end() + (g + "   "@));
                lemma_block(b, g + "   "@);
                lemma_pieces(b2, Seq::empty(), rest, post);
                let f = |raw: Seq<char>| frame_block(raw);
                assert(pieces_after(s) == seq![front] + pieces_after(tail));
                assert(pieces_after(s).map_values(f) =~= seq![frame_block(front)] + pieces_after(
                    tail,
                ).map_values(f));
                assert(seq![b] + (seq![b2] + bodies(rest)) =~= seq![b] + bodies(ts));
            },
        }
    }
}

/// The frame blocks of a text made of frame-free pieces are the bodies of
/// its frames.
pub proof fn lemma_blocks(pre: Seq<char>, ts: Seq<Token>, post: Seq<char>)
    requires
        frame_free(pre),
        tokens_free(ts),
        frame_free(post),
    ensures
        frame_blocks(pre + render(ts) + post) == bodies(ts),
    decreases ts.len(),
{
    lemma_literals();
    let s = pre + render(ts) + post;
    if ts.len() == 0 {
        assert(s =~= pre + post);
        lemma_frame_free_add(pre, post);
        lemma_frame_free_open_free(pre + post);
        lemma_no_open_none(s);
    } else {
        lemma_render_front(ts);
        let rest = ts.skip(1);
        assert(tokens_free(rest)) by {
            assert forall|i: int| 0 <= i < rest.len() implies match #[trigger] rest[i] {
                Token::Gap(x) => frame_free(x),
                Token::Frame(x) => frame_free(x),
            } by {
                assert(rest[i] == ts[i + 1]);
            }
        }
        match ts[0] {
            Token::Gap(g) => {
                assert(frame_free(g)) by {
                    assert(ts[0] == Token::Gap(g));
                }
                lemma_frame_free_add(pre, g);
                assert(s =~= (pre + g) + render(rest) + post);
                lemma_blocks(pre + g, rest, post);
            },
            Token::Frame(b) => {
                assert(frame_free(b)) by {
                    assert(ts[0] == Token::Frame(b));
                }
                let front = pre + "   "@;
                let tail = b + frame_end() + Seq::<char>::empty() + render(rest) + post;
                assert(s =~= front + (frame_open() + tail));
                lemma_no_lt_frame_free("   "@);
                lemma_frame_free_open_free(pre);
                lemma_open_free_add(pre, "   "@);
                lemma_no_open_inside(Seq::empty(), front, frame_open() + tail);
                assert(Seq::<char>::empty() + front + (frame_open() + tail) =~= s);
                assert(s.subrange(front.len() as int, front.len() + 11int) =~= frame_open());
                lemma_find_at(s, frame_open(), 0, front.len() as int);
                assert(s.skip(front.len() + 11int) =~= tail);
                lemma_pieces(b, Seq::empty(), rest, post);
                assert(seq![b] + bodies(rest) =~= bodies(ts));
            },
        }
    }
}

/// The pieces of the frames of the first `m` elements of a page.
pub open spec fn page_tokens<G>(
    els: Seq<Element<G>>,
    files: Seq<OdtImageFile>,
    pl: Seq<FramePlacement>,
    m: nat,
) -> Seq<Token>
    decreases m,
{
    if m == 0 {
        Seq::empty()
    } else {
        page_tokens(els, files, pl, (m - 1) as nat).push(
            Token::Frame(frame_body(els[m - 1], files, pl[m - 1]@)),
        )
    }
}

/// The pieces of the first `n` pages: an empty paragraph before every page
/// but the first, then the page's frames.
pub open spec fn doc_tokens<G>(
    pages: Seq<Seq<Element<G>>>,
    files: Seq<OdtImageFile>,
    pl: Seq<Vec<FramePlacement>>,
    n: nat,
) -> Seq<Token>
    decreases n,
{
    if n == 0 {
        Seq::empty()
    } else {
        doc_tokens(pages, files, pl, (n - 1) as nat) + (if n > 1 {
            seq![Token::Gap(PAGE_BREAK@)]
        } else {
            Seq::empty()
        }) + page_tokens(pages[n - 1], files, pl[n - 1]@, pages[n - 1].len())
    }
}

/// The frame bodies of the first `m` elements of a page.
pub open spec fn page_bodies<G>(
    els: Seq<Element<G>>,
    files: Seq<OdtImageFile>,
    pl: Seq<FramePlacement>,
    m: nat,
) -> Seq<Seq<char>>
    decreases m,
{
    if m == 0 {
        Seq::empty()
    } else {
        page_bodies(els, files, pl, (m - 1) as nat).push(frame_body(els[m - 1], files, pl[m - 1]@))
    }
}

/// The frame bodies of all elements of the first `n` pages, page by page.
pub open spec fn doc_bodies<G>(
    pages: Seq<Seq<Element<G>>>,
    files: Seq<OdtImageFile>,
    pl: Seq<Vec<FramePlacement>>,
    n: nat,
) -> Seq<Seq<char>>
    decreases n,
{
    if n == 0 {
        Seq::empty()
    } else {
        doc_bodies(pages, files, pl, (n - 1) as nat) + page_bodies(
            pages[n - 1],
            files,
            pl[n - 1]@,
            pages[n - 1].len(),
        )
    }
}

proof fn lemma_frame_text_is_frame<G>(el: Element<G>, files: Seq<OdtImageFile>, p: crate::odt::PlacementView)
    ensures
        frame_text(frame_body(el, files, p)) == frame_xml_spec(el, files, p),
{
    reveal_strlit("   <draw:frame");
    reveal_strlit("   ");
    assert("   <draw:frame"@ =~= "   "@ + frame_open());
    assert(frame_xml_spec(el, files, p) =~= "   "@ + frame_open() + frame_body(el, files, p)
        + frame_end());
}

proof fn lemma_page_tokens<G>(
    els: Seq<Element<G>>,
    files: Seq<OdtImageFile>,
    pl: Seq<FramePlacement>,
    m: nat,
)
    ensures
        render(page_tokens(els, files, pl, m)) == page_frames(els, files, pl, m),
        bodies(page_tokens(els, files, pl, m)) == page_bodies(els, files, pl, m),
    decreases m,
{
    if m > 0 {
        lemma_page_tokens(els, files, pl, (m - 1) as nat);
        let t = page_tokens(els, files, pl, m);
        assert(t.drop_last() =~= page_tokens(els, files, pl, (m - 1) as nat));
        lemma_frame_text_is_frame(els[m - 1], files, pl[m - 1]@);
    }
}

proof fn lemma_doc_tokens<G>(
    pages: Seq<Seq<Element<G>>>,
    files: Seq<OdtImageFile>,
    pl: Seq<Vec<FramePlacement>>,
    n: nat,
)
    requires
        n <= pages.len(),
        n <= pl.len(),
    ensures
        render(doc_tokens(pages, files, pl, n)) == pages_xml(pages, files, pl, n),
        bodies(doc_tokens(pages, files, pl, n)) == doc_bodies(pages, files, pl, n),
    decreases n,
{
    if n > 0 {
        lemma_doc_tokens(pages, files, pl, (n - 1) as nat);
        let before = doc_tokens(pages, files, pl, (n - 1) as nat);
        let brk: Seq<Token> = if n > 1 {
            seq![Token::Gap(PAGE_BREAK@)]
        } else {
            Seq::empty()
        };
        let page = page_tokens(pages[n - 1], files, pl[n - 1]@, pages[n - 1].len());
        lemma_page_tokens(pages[n - 1], files, pl[n - 1]@, pages[n - 1].len());
        lemma_render_add(before, brk);
        lemma_render_add(before + brk, page);
        if n > 1 {
            let one = seq![Token::Gap(PAGE_BREAK@)];
            assert(one.drop_last() =~= Seq::<Token>::empty());
            assert(render(one.drop_last()) == Seq::<char>::empty());
            assert(bodies(one.drop_last()) == Seq::<Seq<char>>::empty());
            assert(render(one) =~= PAGE_BREAK@);
            assert(bodies(one) =~= Seq::<Seq<char>>::empty());
        } else {
            assert(render(brk) == Seq::<char>::empty());
            assert(bodies(brk) == Seq::<Seq<char>>::empty());
        }
        assert(bodies(before) + bodies(brk) + bodies(page) =~= doc_bodies(pages, files, pl, (n - 1) as nat)
            + page_bodies(pages[n - 1], files, pl[n - 1]@, pages[n - 1].len()));
    }
}

/// The fixed texts around the frames hold no frame tag.
proof fn lemma_fixed_texts_free()
    ensures
        frame_free(CONTENT_HEAD@),
        frame_free(CONTENT_TAIL@),
        frame_free(PAGE_BREAK@),
        frame_free("<draw:text-box>"@),
        frame_free("</draw:text-box>"@),
        frame_free("<text:p text:style-name=\"Standard\">"@),
        frame_free("</text:p>"@),
        frame_free("<text:p text:style-name=\"Standard\"/>"@),
        frame_free("<draw:image xlink:href=\""@),
        frame_free("\" xlink:type=\"simple\" xlink:actuate=\"onLoad\"/>"@),
        frame_free("\n   "@),
{
    reveal_strlit("<?xml version=\"1.0\" encoding=\"UTF-8\"?>\n<office:document-content  xmlns:office=\"urn:oasis:names:tc:opendocument:xmlns:office:1.0\" xmlns:text=\"urn:oasis:names:tc:opendocument:xmlns:text:1.0\" xmlns:draw=\"urn:oasis:names:tc:opendocument:xmlns:drawing:1.0\" xmlns:svg=\"urn:oasis:names:tc:opendocument:xmlns:svg-compatible:1.0\" xmlns:xlink=\"http://www.w3.org/1999/xlink\" xmlns:fo=\"urn:oasis:names:tc:opendocument:xmlns:xsl-fo-compatible:1.0\" xmlns:style=\"urn:oasis:names:tc:opendocument:xmlns:style:1.0\" xmlns:meta=\"urn:oasis:names:tc:opendocument:xmlns:meta:1.0\" office:version=\"1.2\">\n <office:automatic-styles/>\n <office:body>\n  <office:text>\n");
    reveal_strlit("  </office:text>\n </office:body>\n</office:document-content>\n");
    reveal_strlit("   <text:p text:style-name=\"Standard\"/>\n");
    reveal_strlit("<draw:text-box>");
    reveal_strlit("</draw:text-box>");
    reveal_strlit("<text:p text:style-name=\"Standard\">");
    reveal_strlit("</text:p>");
    reveal_strlit("<text:p text:style-name=\"Standard\"/>");
    reveal_strlit("<draw:image xlink:href=\"");
    reveal_strlit("\" xlink:type=\"simple\" xlink:actuate=\"onLoad\"/>");
    reveal_strlit("\n   ");
}

/// The paragraphs of any lines hold no frame tag.
proof fn lemma_paragraphs_free(lines: Seq<Seq<char>>)
    ensures
        frame_free(paragraphs_xml(lines)),
    decreases lines.len(),
{
    lemma_fixed_texts_free();
    if lines.len() == 0 {
        lemma_no_lt_frame_free(Seq::empty());
    } else {
        lemma_paragraphs_free(lines.drop_last());
        let l = lines.last();
        assert(frame_free(paragraph_xml(l))) by {
            if l.len() > 0 {
                lemma_escaped_no_lt(l);
                lemma_no_lt_frame_free(escaped(l));
                lemma_frame_free_add("<text:p text:style-name=\"Standard\">"@, escaped(l));
                lemma_frame_free_add("<text:p text:style-name=\"Standard\">"@ + escaped(l), "</text:p>"@);
            }
        }
        lemma_frame_free_add(paragraphs_xml(lines.drop_last()), paragraph_xml(l));
    }
}

/// An image reference names one of the files, or is empty.
pub proof fn lemma_href_plain(id: u64, files: Seq<OdtImageFile>)
    ensures
        (forall|i: int| 0 <= i < files.len() ==> no_lt(#[trigger] files[i].name@)) ==> no_lt(
            href_of(id, files),
        ),
        (forall|i: int| 0 <= i < files.len() ==> no_quote(#[trigger] files[i].name@)) ==> no_quote(
            href_of(id, files),
        ),
        (forall|i: int| 0 <= i < files.len() ==> lacks(#[trigger] files[i].name@, 'd')) ==> lacks(
            href_of(id, files),
            'd',
        ),
    decreases files.len(),
{
    if files.len() > 0 && files[0].id != id {
        let rest = files.skip(1);
        assert forall|i: int| 0 <= i < rest.len() implies rest[i] == files[i + 1] by {}
        lemma_href_plain(id, rest);
    }
}

/// The body of an element's frame holds no frame tag.
proof fn lemma_body_free<G>(el: Element<G>, files: Seq<OdtImageFile>, p: crate::odt::PlacementView)
    requires
        plain_placement(p),
        forall|i: int| 0 <= i < files.len() ==> no_lt(#[trigger] files[i].name@),
    ensures
        frame_free(frame_body(el, files, p)),
{
    lemma_fixed_texts_free();
    lemma_frame_attrs_plain(p);
    lemma_no_lt_frame_free(frame_attrs(p));
    assert(frame_free(frame_inner(el, files))) by {
        if el.kind == ElementKind::Image {
            lemma_href_plain(el.id, files);
            lemma_no_lt_frame_free(href_of(el.id, files));
            lemma_frame_free_add("<draw:image xlink:href=\""@, href_of(el.id, files));
            lemma_frame_free_add(
                "<draw:image xlink:href=\""@ + href_of(el.id, files),
                "\" xlink:type=\"simple\" xlink:actuate=\"onLoad\"/>"@,
            );
        } else {
            let paras = paragraphs_xml(crate::odt::split_lines(el.text@));
            lemma_paragraphs_free(crate::odt::split_lines(el.text@));
            lemma_frame_free_add("<draw:text-box>"@, paras);
            lemma_frame_free_add("<draw:text-box>"@ + paras, "</draw:text-box>"@);
        }
    }
    lemma_frame_free_add(frame_attrs(p), frame_inner(el, files));
    lemma_frame_free_add(frame_attrs(p) + frame_inner(el, files), "\n   "@);
}

proof fn lemma_page_tokens_free<G>(
    els: Seq<Element<G>>,
    files: Seq<OdtImageFile>,
    pl: Seq<FramePlacement>,
    m: nat,
)
    requires
        m <= els.len(),
        m <= pl.len(),
        forall|e: int| 0 <= e < m ==> plain_placement(#[trigger] pl[e]@),
        forall|i: int| 0 <= i < files.len() ==> no_lt(#[trigger] files[i].name@),
    ensures
        tokens_free(page_tokens(els, files, pl, m)),
    decreases m,
{
    if m > 0 {
        lemma_page_tokens_free(els, files, pl, (m - 1) as nat);
        lemma_body_free(els[m - 1], files, pl[m - 1]@);
        let t = page_tokens(els, files, pl, m);
        let before = page_tokens(els, files, pl, (m - 1) as nat);
        assert forall|i: int| 0 <= i < t.len() implies match #[trigger] t[i] {
            Token::Gap(x) => frame_free(x),
            Token::Frame(x) => frame_free(x),
        } by {
            if i < before.len() {
                assert(t[i] == before[i]);
            }
        }
    }
}

proof fn lemma_tokens_free_add(a: Seq<Token>, b: Seq<Token>)
    requires
        tokens_free(a),
        tokens_free(b),
    ensures
        tokens_free(a + b),
{
    let t = a + b;
    assert forall|i: int| 0 <= i < t.len() implies match #[trigger] t[i] {
        Token::Gap(x) => frame_free(x),
        Token::Frame(x) => frame_free(x),
    } by {
        if i < a.len() {
            assert(t[i] == a[i]);
        } else {
            assert(t[i] == b[i - a.len()]);
        }
    }
}

proof fn lemma_doc_tokens_free<G>(
    pages: Seq<Seq<Element<G>>>,
    files: Seq<OdtImageFile>,
    pl: Seq<Vec<FramePlacement>>,
    n: nat,
)
    requires
        n <= pages.len(),
        n <= pl.len(),
        forall|p: int| 0 <= p < n ==> (#[trigger] pl[p])@.len() == pages[p].len(),
        forall|p: int, e: int|
            0 <= p < n && 0 <= e < pl[p]@.len() ==> plain_placement(#[trigger] pl[p]@[e]@),
        forall|i: int| 0 <= i < files.len() ==> no_lt(#[trigger] files[i].name@),
    ensures
        tokens_free(doc_tokens(pages, files, pl, n)),
    decreases n,
{
    if n > 0 {
        lemma_doc_tokens_free(pages, files, pl, (n - 1) as nat);
        lemma_fixed_texts_free();
        let brk: Seq<Token> = if n > 1 {
            seq![Token::Gap(PAGE_BREAK@)]
        } else {
            Seq::empty()
        };
        assert(tokens_free(brk)) by {
            if n > 1 {
                assert(brk[0] == Token::Gap(PAGE_BREAK@));
            }
        }
        let q = pl[n - 1]@;
        assert forall|e: int| 0 <= e < pages[n - 1].len() implies plain_placement(#[trigger] q[e]@) by {
            assert(plain_placement(pl[n - 1]@[e]@));
        }
        lemma_page_tokens_free(pages[n - 1], files, q, pages[n - 1].len());
        lemma_tokens_free_add(doc_tokens(pages, files, pl, (n - 1) as nat), brk);
        lemma_tokens_free_add(
            doc_tokens(pages, files, pl, (n - 1) as nat) + brk,
            page_tokens(pages[n - 1], files, q, pages[n - 1].len()),
        );
    }
}

/// The import finds the frames of an exported document again: the frame
/// blocks it cuts out of `content.xml` are, page by page and in drawing
/// order, the frame bodies of all elements, as long as the placements'
/// numbers and the image file names hold no `<`.
pub proof fn lemma_export_frames_found<G>(
    doc: DocumentView<G>,
    files: Seq<OdtImageFile>,
    pl: Seq<Vec<FramePlacement>>,
)
    requires
        placements_fit(doc, pl),
        forall|p: int, e: int|
            0 <= p < pl.len() && 0 <= e < pl[p]@.len() ==> plain_placement(#[trigger] pl[p]@[e]@),
        forall|i: int| 0 <= i < files.len() ==> no_lt(#[trigger] files[i].name@),
    ensures
        frame_blocks(content_xml_spec(doc, files, pl)) == doc_bodies(
            doc.pages,
            files,
            pl,
            doc.pages.len(),
        ),
{
    let n = doc.pages.len();
    lemma_doc_tokens(doc.pages, files, pl, n);
    lemma_doc_tokens_free(doc.pages, files, pl, n);
    lemma_fixed_texts_free();
    lemma_blocks(CONTENT_HEAD@, doc_tokens(doc.pages, files, pl, n), CONTENT_TAIL@);
}

/// A decimal numeral is made of ASCII digits.
proof fn lemma_decimal_digits(n: nat)
    ensures
        forall|k: int|
            0 <= k < crate::text::decimal(n).len() ==> '0' <= #[trigger] crate::text::decimal(n)[k]
                <= '9',
    decreases n,
{
    if n >= 10 {
        lemma_decimal_digits(n / 10);
        let d = crate::text::decimal(n / 10);
        let t = d.push(crate::text::digit_char(n % 10));
        assert forall|k: int| 0 <= k < t.len() implies '0' <= #[trigger] t[k] <= '9' by {
            if k < d.len() {
                assert(t[k] == d[k]);
            }
        }
    }
}

/// The names that the export gives its pictures hold no `<`, no `"` and no
/// `d`.
pub proof fn lemma_picture_name_plain(id: u64, b: Seq<u8>)
    ensures
        no_lt(crate::odt::picture_name(id, b)),
        no_quote(crate::odt::picture_name(id, b)),
        lacks(crate::odt::picture_name(id, b), 'd'),
{
    reveal_strlit("Pictures/");
    reveal_strlit(".");
    reveal_strlit("png");
    reveal_strlit("jpg");
    lemma_decimal_digits(id as nat);
    let name = crate::odt::picture_name(id, b);
    let d = crate::text::decimal(id as nat);
    assert forall|k: int| 0 <= k < name.len() implies name[k] != '<' && name[k] != '"' && name[k] != 'd' by {
        if 9 <= k < 9 + d.len() {
            assert(name[k] == d[k - 9]);
        }
    }
}

} // verus!
