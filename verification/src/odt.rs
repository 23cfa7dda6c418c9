//! OpenDocument text (ODT): the XML of an exported document, and reading
//! frames, attributes and paragraphs back out of `content.xml`.
use vstd::prelude::*;

use crate::codec::Decoded;

use crate::model::{Document, DocumentView, Element, ElementKind, Orientation, Page, PaperFormat};
use crate::editor::{ids_below, ids_unique};
use crate::store::ImageStore;
use crate::text::{
    chars_of, find, find_chars, join, push_char, push_range, push_str, trim, trim_range,
};

verus! {

pub open spec fn amp_entity() -> Seq<char> {
    seq!['&', 'a', 'm', 'p', ';']
}

pub open spec fn lt_entity() -> Seq<char> {
    seq!['&', 'l', 't', ';']
}

pub open spec fn gt_entity() -> Seq<char> {
    seq!['&', 'g', 't', ';']
}

/// How one character is written in XML text.
pub open spec fn escape_char(c: char) -> Seq<char> {
    if c == '&' {
        amp_entity()
    } else if c == '<' {
        lt_entity()
    } else if c == '>' {
        gt_entity()
    } else {
        seq![c]
    }
}

/// The text with `&`, `<` and `>` written as entities.
pub open spec fn escaped(s: Seq<char>) -> Seq<char>
    decreases s.len(),
{
    if s.len() == 0 {
        Seq::empty()
    } else {
        escape_char(s[0]) + escaped(s.skip(1))
    }
}

/// The text with the entities `&lt;`, `&gt;` and `&amp;` turned back into
/// characters, read from the front; anything else stays as it is.
pub open spec fn unescaped(s: Seq<char>) -> Seq<char>
    decreases s.len(),
{
    if s.len() == 0 {
        Seq::empty()
    } else if s.len() >= 4 && s.take(4) == lt_entity() {
        seq!['<'] + unescaped(s.skip(4))
    } else if s.len() >= 4 && s.take(4) == gt_entity() {
        seq!['>'] + unescaped(s.skip(4))
    } else if s.len() >= 5 && s.take(5) == amp_entity() {
        seq!['&'] + unescaped(s.skip(5))
    } else {
        seq![s[0]] + unescaped(s.skip(1))
    }
}

/// Appends `cs[a..b]` with `&`, `<` and `>` written as entities.
fn push_escaped(out: &mut String, cs: &Vec<char>, a: usize, b: usize)
    requires
        a <= b <= cs@.len(),
    ensures
        final(out)@ == old(out)@ + escaped(cs@.subrange(a as int, b as int)),
{
    let mut i = a;
    while i < b
        invariant
            a <= i <= b <= cs@.len(),
            old(out)@ + escaped(cs@.subrange(a as int, b as int)) == out@ + escaped(
                cs@.subrange(i as int, b as int),
            ),
        decreases b - i,
    {
        let c = cs[i];
        let ghost before = out@;
        let ghost rest = cs@.subrange(i as int, b as int);
        assert(rest.skip(1) =~= cs@.subrange(i + 1, b as int));
        assert(rest[0] == c);
        if c == '&' {
            push_char(out, '&');
            push_char(out, 'a');
            push_char(out, 'm');
            push_char(out, 'p');
            push_char(out, ';');
        } else if c == '<' {
            push_char(out, '&');
            push_char(out, 'l');
            push_char(out, 't');
            push_char(out, ';');
        } else if c == '>' {
            push_char(out, '&');
            push_char(out, 'g');
            push_char(out, 't');
            push_char(out, ';');
        } else {
            push_char(out, c);
        }
        assert(out@ =~= before + escape_char(c));
        assert(before + escaped(rest) =~= out@ + escaped(cs@.subrange(i + 1, b as int)));
        i = i + 1;
    }
    assert(cs@.subrange(b as int, b as int) =~= Seq::<char>::empty());
    assert(out@ + escaped(cs@.subrange(b as int, b as int)) =~= out@);
}

/// Escapes `&`, `<` and `>` for XML text.
pub fn esc(s: &str) -> (r: String)
    ensures
        r@ == escaped(s@),
{
    let cs = chars_of(s);
    let mut out = String::new();
    push_escaped(&mut out, &cs, 0, cs.len());
    assert(cs@.subrange(0, cs@.len() as int) =~= s@);
    assert(out@ =~= escaped(s@));
    out
}

/// Whether `s[i..]` starts with `pat`.
fn starts_at(s: &Vec<char>, i: usize, pat: &[char]) -> (r: bool)
    requires
        i <= s@.len(),
    ensures
        r == (s@.skip(i as int).len() >= pat@.len() && s@.skip(i as int).take(pat@.len() as int)
            == pat@),
{
    if s.len() - i < pat.len() {
        return false;
    }
    let mut k: usize = 0;
    let n = s.len();
    while k < pat.len()
        invariant
            k <= pat@.len(),
            n == s@.len(),
            i + pat@.len() <= s@.len(),
            forall|t: int| 0 <= t < k ==> s@[i + t] == pat@[t],
        decreases pat@.len() - k,
    {
        if s[i + k] != pat[k] {
            assert(s@.skip(i as int).take(pat@.len() as int)[k as int] != pat@[k as int]);
            return false;
        }
        k = k + 1;
    }
    assert(s@.skip(i as int).take(pat@.len() as int) =~= pat@);
    true
}

/// Turns the entities `&lt;`, `&gt;` and `&amp;` back into characters.
pub fn unescape(s: &str) -> (r: String)
    ensures
        r@ == unescaped(s@),
{
    let cs = chars_of(s);
    unescape_chars(&cs)
}

/// `unescape` on a character vector.
fn unescape_chars(cs: &Vec<char>) -> (r: String)
    ensures
        r@ == unescaped(cs@),
{
    let ghost s = cs@;
    let lt = ['&', 'l', 't', ';'];
    let gt = ['&', 'g', 't', ';'];
    let amp = ['&', 'a', 'm', 'p', ';'];
    assert(lt@ =~= lt_entity());
    assert(gt@ =~= gt_entity());
    assert(amp@ =~= amp_entity());
    let mut out = String::new();
    let mut i: usize = 0;
    assert(cs@.skip(0) =~= cs@);
    while i < cs.len()
        invariant
            i <= cs@.len(),
            cs@ == s,
            lt@ == lt_entity(),
            gt@ == gt_entity(),
            amp@ == amp_entity(),
            unescaped(s) == out@ + unescaped(cs@.skip(i as int)),
        decreases cs@.len() - i,
    {
        let ghost rest = cs@.skip(i as int);
        let ghost before = out@;
        if starts_at(&cs, i, &lt) {
            push_char(&mut out, '<');
            assert(rest.skip(4) =~= cs@.skip(i + 4));
            i = i + 4;
        } else if starts_at(&cs, i, &gt) {
            push_char(&mut out, '>');
            assert(rest.skip(4) =~= cs@.skip(i + 4));
            i = i + 4;
        } else if starts_at(&cs, i, &amp) {
            push_char(&mut out, '&');
            assert(rest.skip(5) =~= cs@.skip(i + 5));
            i = i + 5;
        } else {
            push_char(&mut out, cs[i]);
            assert(rest.skip(1) =~= cs@.skip(i + 1));
            i = i + 1;
        }
        assert(unescaped(rest) == (out@.skip(before.len() as int)) + unescaped(cs@.skip(i as int)));
        assert(out@ =~= before + out@.skip(before.len() as int));
    }
    assert(cs@.skip(i as int) =~= Seq::<char>::empty());
    assert(out@ =~= out@ + unescaped(cs@.skip(i as int)));
    out
}

/// Unescaping undoes escaping: every text comes back unchanged.
pub proof fn lemma_unescape_escape(s: Seq<char>)
    ensures
        unescaped(escaped(s)) == s,
    decreases s.len(),
{
    if s.len() == 0 {
        assert(escaped(s) =~= Seq::<char>::empty());
    } else {
        let c = s[0];
        let e = escaped(s.skip(1));
        lemma_unescape_escape(s.skip(1));
        let x = escape_char(c) + e;
        assert(escaped(s) == x);
        if c == '&' {
            assert(x.take(5) =~= amp_entity());
            assert(x.take(4) != lt_entity()) by {
                assert(x.take(4)[1] == 'a');
            }
            assert(x.take(4) != gt_entity()) by {
                assert(x.take(4)[1] == 'a');
            }
            assert(x.skip(5) =~= e);
        } else if c == '<' {
            assert(x.take(4) =~= lt_entity());
            assert(x.skip(4) =~= e);
        } else if c == '>' {
            assert(x.take(4) =~= gt_entity());
            assert(x.take(4) != lt_entity()) by {
                assert(x.take(4)[1] == 'g');
            }
            assert(x.skip(4) =~= e);
        } else {
            if x.len() >= 4 {
                assert(x.take(4)[0] == c);
                assert(x.take(4) != lt_entity());
                assert(x.take(4) != gt_entity());
            }
            if x.len() >= 5 {
                assert(x.take(5)[0] == c);
                assert(x.take(5) != amp_entity());
            }
            assert(x.skip(1) =~= e);
            assert(x[0] == c);
        }
        assert(unescaped(x) =~= s);
    }
}

/// The characters `cs[a..b]`.
pub fn sub_chars(cs: &Vec<char>, a: usize, b: usize) -> (r: Vec<char>)
    requires
        a <= b <= cs@.len(),
    ensures
        r@ == cs@.subrange(a as int, b as int),
{
    let mut r: Vec<char> = Vec::new();
    let mut i = a;
    while i < b
        invariant
            a <= i <= b <= cs@.len(),
            r@ == cs@.subrange(a as int, i as int),
        decreases b - i,
    {
        r.push(cs[i]);
        i = i + 1;
        assert(r@ =~= cs@.subrange(a as int, i as int));
    }
    r
}

/// The value of the attribute `key` in an XML fragment: the text between
/// the first `key="` and the next `"`.
pub open spec fn attr_value(block: Seq<char>, key: Seq<char>) -> Option<Seq<char>> {
    let needle = key + seq!['=', '"'];
    match find(block, needle) {
        None => None,
        Some(p) => {
            let rest = block.skip(p + needle.len());
            match find(rest, seq!['"']) {
                None => None,
                Some(e) => Some(rest.take(e)),
            }
        },
    }
}

/// Where the value of attribute `key` lies in `cs`.
fn attr_range(cs: &Vec<char>, key: &str) -> (r: Option<(usize, usize)>)
    ensures
        match r {
            Some((a, b)) => a <= b <= cs@.len() && attr_value(cs@, key@) == Some(
                cs@.subrange(a as int, b as int),
            ),
            None => attr_value(cs@, key@) is None,
        },
{
    let mut needle = chars_of(key);
    needle.push('=');
    needle.push('"');
    let ghost nd = key@ + seq!['=', '"'];
    assert(needle@ =~= nd);
    let p = match find_chars(cs, &needle, 0) {
        Some(p) => p,
        None => return None,
    };
    proof {
        crate::text::lemma_find_from_bounds(cs@, nd, 0);
    }
    let n = cs.len();
    assert(p + needle@.len() <= n);
    let start = p + needle.len();
    let mut quote: Vec<char> = Vec::new();
    quote.push('"');
    assert(quote@ =~= seq!['"']);
    proof {
        crate::text::lemma_find_skip(cs@, seq!['"'], start as int, 0);
    }
    let e = match find_chars(cs, &quote, start) {
        Some(e) => e,
        None => return None,
    };
    proof {
        crate::text::lemma_find_from_bounds(cs@, seq!['"'], start as int);
        assert(cs@.skip(start as int).take(e - start) =~= cs@.subrange(start as int, e as int));
    }
    Some((start, e))
}

/// The value of the attribute `key` in an XML fragment (the text between
/// the first `key="` and the next `"`).
pub fn attr(block: &str, key: &str) -> (r: Option<String>)
    ensures
        match r {
            Some(v) => attr_value(block@, key@) == Some(v@),
            None => attr_value(block@, key@) is None,
        },
{
    let cs = chars_of(block);
    match attr_range(&cs, key) {
        Some((a, b)) => {
            let mut v = String::new();
            push_range(&mut v, &cs, a, b);
            Some(v)
        },
        None => None,
    }
}

pub open spec fn p_open() -> Seq<char> {
    seq!['<', 't', 'e', 'x', 't', ':', 'p']
}

pub open spec fn p_close() -> Seq<char> {
    seq!['<', '/', 't', 'e', 'x', 't', ':', 'p', '>']
}

/// The paragraphs of an XML fragment: for each `<text:p`, the text from
/// the end of that tag (the next `>`) to the next `</text:p>`, trimmed and
/// unescaped; reading stops where one of these is missing.
pub open spec fn paragraphs(rest: Seq<char>) -> Seq<Seq<char>>
    decreases rest.len(),
{
    match find(rest, p_open()) {
        None => Seq::empty(),
        Some(st) => {
            let r = rest.skip(st);
            match find(r, seq!['>']) {
                None => Seq::empty(),
                Some(gt) => {
                    let inner = r.skip(gt + 1);
                    match find(inner, p_close()) {
                        None => Seq::empty(),
                        Some(end) => {
                            proof {
                                crate::text::lemma_find_from_bounds(rest, p_open(), 0);
                                crate::text::lemma_find_from_bounds(r, seq!['>'], 0);
                                crate::text::lemma_find_from_bounds(inner, p_close(), 0);
                            }
                            seq![unescaped(trim(inner.take(end)))] + paragraphs(
                                inner.skip(end + 9),
                            )
                        },
                    }
                },
            }
        },
    }
}

/// The text of an XML fragment: its paragraphs, one per line.
pub open spec fn text_of(block: Seq<char>) -> Seq<char> {
    join(paragraphs(block), seq!['\n'])
}

/// The text of an XML fragment: its paragraphs (trimmed and unescaped),
/// one per line.
pub fn extract_text(block: &str) -> (r: String)
    ensures
        r@ == text_of(block@),
{
    let cs = chars_of(block);
    let open = vstd::slice::slice_to_vec(&['<', 't', 'e', 'x', 't', ':', 'p']);
    let gt_char = vstd::slice::slice_to_vec(&['>']);
    let close = vstd::slice::slice_to_vec(&['<', '/', 't', 'e', 'x', 't', ':', 'p', '>']);
    assert(open@ =~= p_open());
    assert(gt_char@ =~= seq!['>']);
    assert(close@ =~= p_close());
    let mut out = String::new();
    let mut pos: usize = 0;
    let ghost mut lines: Seq<Seq<char>> = Seq::empty();
    let mut first = true;
    let n = cs.len();
    assert(cs@.skip(0) =~= cs@);
    loop
        invariant
            n == cs@.len(),
            pos <= cs@.len(),
            first == (lines.len() == 0),
            open@ == p_open(),
            gt_char@ == seq!['>'],
            close@ == p_close(),
            paragraphs(cs@) == lines + paragraphs(cs@.skip(pos as int)),
            out@ == join(lines, seq!['\n']),
        ensures
            paragraphs(cs@) == lines,
            out@ == join(lines, seq!['\n']),
        decreases cs@.len() - pos,
    {
        let ghost rest = cs@.skip(pos as int);
        proof {
            crate::text::lemma_find_skip(cs@, p_open(), pos as int, 0);
        }
        let st = match find_chars(&cs, &open, pos) {
            Some(st) => st,
            None => {
                assert(paragraphs(rest) =~= Seq::<Seq<char>>::empty());
                assert(lines + paragraphs(rest) =~= lines);
                break;
            },
        };
        proof {
            crate::text::lemma_find_from_bounds(cs@, p_open(), pos as int);
            crate::text::lemma_find_skip(cs@, seq!['>'], st as int, 0);
            assert(rest.skip(st - pos) =~= cs@.skip(st as int));
        }
        let gt = match find_chars(&cs, &gt_char, st) {
            Some(gt) => gt,
            None => {
                assert(paragraphs(rest) =~= Seq::<Seq<char>>::empty());
                assert(lines + paragraphs(rest) =~= lines);
                break;
            },
        };
        proof {
            crate::text::lemma_find_from_bounds(cs@, seq!['>'], st as int);
            crate::text::lemma_find_skip(cs@, p_close(), gt + 1, 0);
            assert(cs@.skip(st as int).skip(gt - st + 1) =~= cs@.skip(gt + 1));
        }
        let end = match find_chars(&cs, &close, gt + 1) {
            Some(end) => end,
            None => {
                assert(paragraphs(rest) =~= Seq::<Seq<char>>::empty());
                assert(lines + paragraphs(rest) =~= lines);
                break;
            },
        };
        proof {
            crate::text::lemma_find_from_bounds(cs@, p_close(), gt + 1);
            assert(cs@.skip(gt + 1).take(end - gt - 1) =~= cs@.subrange(gt + 1, end as int));
            assert(cs@.skip(gt + 1).skip(end - gt - 1 + 9) =~= cs@.skip(end + 9));
        }
        let (a, b) = trim_range(&cs, gt + 1, end);
        let piece = sub_chars(&cs, a, b);
        let line = unescape_chars(&piece);
        let ghost line_v = line@;
        assert(paragraphs(rest) == seq![line_v] + paragraphs(cs@.skip(end + 9)));
        if !first {
            push_char(&mut out, '\n');
        }
        first = false;
        push_str(&mut out, line.as_str());
        proof {
            let nl = lines.push(line_v);
            if lines.len() > 0 {
                assert(nl.drop_last() =~= lines);
                assert(join(nl, seq!['\n']) == join(lines, seq!['\n']) + seq!['\n'] + line_v);
            } else {
                assert(join(nl, seq!['\n']) == line_v);
            }
            assert(lines + paragraphs(rest) =~= nl + paragraphs(cs@.skip(end + 9)));
            lines = nl;
        }
        pos = end + 9;
    }
    out
}

pub open spec fn frame_open() -> Seq<char> {
    seq!['<', 'd', 'r', 'a', 'w', ':', 'f', 'r', 'a', 'm', 'e']
}

pub open spec fn frame_close() -> Seq<char> {
    seq!['<', '/', 'd', 'r', 'a', 'w', ':', 'f', 'r', 'a', 'm', 'e', '>']
}

/// The pieces of `s` between the occurrences of `<draw:frame`, `s` being
/// the text right after one of them.
pub open spec fn pieces_after(s: Seq<char>) -> Seq<Seq<char>>
    decreases s.len(),
{
    match find(s, frame_open()) {
        None => seq![s],
        Some(p) => {
            proof {
                crate::text::lemma_find_from_bounds(s, frame_open(), 0);
            }
            seq![s.take(p)] + pieces_after(s.skip(p + 11))
        },
    }
}

/// The frame blocks of `content.xml`: the text after each `<draw:frame`
/// up to the next `</draw:frame>` (or the next `<draw:frame`, or the end).
pub open spec fn frame_blocks(content: Seq<char>) -> Seq<Seq<char>> {
    match find(content, frame_open()) {
        None => Seq::empty(),
        Some(p) => pieces_after(content.skip(p + 11)).map_values(|raw: Seq<char>| frame_block(raw)),
    }
}

/// A frame's block: the piece up to its first `</draw:frame>`.
pub open spec fn frame_block(raw: Seq<char>) -> Seq<char> {
    match find(raw, frame_close()) {
        None => raw,
        Some(q) => raw.take(q),
    }
}

/// What the import reads of one frame: its position and size attributes,
/// its transform, its image reference and its text.
pub struct OdtFrame {
    pub x: Option<String>,
    pub y: Option<String>,
    pub width: Option<String>,
    pub height: Option<String>,
    pub transform: Option<String>,
    pub href: Option<String>,
    pub text: String,
}

pub open spec fn opt_view(o: Option<String>) -> Option<Seq<char>> {
    match o {
        Some(v) => Some(v@),
        None => None,
    }
}

/// The frame as read from `block`.
pub open spec fn frame_read(f: OdtFrame, block: Seq<char>) -> bool {
    &&& opt_view(f.x) == attr_value(block, "svg:x"@)
    &&& opt_view(f.y) == attr_value(block, "svg:y"@)
    &&& opt_view(f.width) == attr_value(block, "svg:width"@)
    &&& opt_view(f.height) == attr_value(block, "svg:height"@)
    &&& opt_view(f.transform) == attr_value(block, "draw:transform"@)
    &&& opt_view(f.href) == attr_value(block, "xlink:href"@)
    &&& f.text@ == text_of(block)
}

/// The attribute `key` of `cs[a..b]`.
fn attr_of(cs: &Vec<char>, key: &str) -> (r: Option<String>)
    ensures
        opt_view(r) == attr_value(cs@, key@),
{
    match attr_range(cs, key) {
        Some((a, b)) => {
            let mut v = String::new();
            push_range(&mut v, cs, a, b);
            Some(v)
        },
        None => None,
    }
}

/// Reads one frame block.
fn read_frame(block: &Vec<char>) -> (f: OdtFrame)
    ensures
        frame_read(f, block@),
{
    let text = extract_text(crate::text::string_of(block.as_slice()).as_str());
    OdtFrame {
        x: attr_of(block, "svg:x"),
        y: attr_of(block, "svg:y"),
        width: attr_of(block, "svg:width"),
        height: attr_of(block, "svg:height"),
        transform: attr_of(block, "draw:transform"),
        href: attr_of(block, "xlink:href"),
        text,
    }
}

/// The frames of `content.xml`, in document order.
pub fn odt_frames(content: &str) -> (r: Vec<OdtFrame>)
    ensures
        r@.len() == frame_blocks(content@).len(),
        forall|i: int| 0 <= i < r@.len() ==> frame_read(#[trigger] r@[i], frame_blocks(content@)[i]),
{
    let cs = chars_of(content);
    let open = vstd::slice::slice_to_vec(&['<', 'd', 'r', 'a', 'w', ':', 'f', 'r', 'a', 'm', 'e']);
    let close = vstd::slice::slice_to_vec(
        &['<', '/', 'd', 'r', 'a', 'w', ':', 'f', 'r', 'a', 'm', 'e', '>'],
    );
    assert(open@ =~= frame_open());
    assert(close@ =~= frame_close());
    let n = cs.len();
    let mut r: Vec<OdtFrame> = Vec::new();
    proof {
        crate::text::lemma_find_skip(cs@, frame_open(), 0, 0);
        assert(cs@.skip(0) =~= cs@);
    }
    let first = match find_chars(&cs, &open, 0) {
        Some(p) => p,
        None => {
            return r;
        },
    };
    proof {
        crate::text::lemma_find_from_bounds(cs@, frame_open(), 0);
    }
    let mut pos = first + 11;
    let ghost all = pieces_after(cs@.skip(pos as int));
    let ghost mut done: Seq<Seq<char>> = Seq::empty();
    loop
        invariant_except_break
            all == done + pieces_after(cs@.skip(pos as int)),
        invariant
            n == cs@.len(),
            pos <= cs@.len(),
            open@ == frame_open(),
            close@ == frame_close(),
            frame_blocks(cs@) == all.map_values(|raw: Seq<char>| frame_block(raw)),
            r@.len() == done.len(),
            forall|i: int| 0 <= i < r@.len() ==> frame_read(#[trigger] r@[i], frame_block(done[i])),
        ensures
            all == done,
            r@.len() == done.len(),
            forall|i: int| 0 <= i < r@.len() ==> frame_read(#[trigger] r@[i], frame_block(done[i])),
        decreases cs@.len() - pos,
    {
        proof {
            crate::text::lemma_find_skip(cs@, frame_open(), pos as int, 0);
        }
        let next = find_chars(&cs, &open, pos);
        let end = match next {
            Some(p) => p,
            None => n,
        };
        proof {
            crate::text::lemma_find_from_bounds(cs@, frame_open(), pos as int);
        }
        let raw = sub_chars(&cs, pos, end);
        assert(raw@ == pieces_after(cs@.skip(pos as int))[0]) by {
            assert(cs@.skip(pos as int).take(end - pos) =~= cs@.subrange(pos as int, end as int));
            if next is None {
                assert(cs@.skip(pos as int) =~= cs@.subrange(pos as int, end as int));
            }
        }
        proof {
            crate::text::lemma_find_skip(raw@, frame_close(), 0, 0);
            assert(raw@.skip(0) =~= raw@);
        }
        let block = match find_chars(&raw, &close, 0) {
            Some(q) => {
                proof {
                    crate::text::lemma_find_from_bounds(raw@, frame_close(), 0);
                }
                sub_chars(&raw, 0, q)
            },
            None => raw,
        };
        let f = read_frame(&block);
        r.push(f);
        proof {
            done = done.push(pieces_after(cs@.skip(pos as int))[0]);
        }
        match next {
            Some(p) => {
                assert(cs@.skip(pos as int).skip(p - pos + 11) =~= cs@.skip(p + 11));
                assert(pieces_after(cs@.skip(pos as int)) == seq![pieces_after(cs@.skip(pos as int))[0]] + pieces_after(cs@.skip(p + 11)));
                assert(all =~= done + pieces_after(cs@.skip(p + 11)));
                pos = p + 11;
            },
            None => {
                assert(pieces_after(cs@.skip(pos as int)) == seq![pieces_after(cs@.skip(pos as int))[0]]);
                assert(all =~= done);
                break;
            },
        }
    }
    r
}

/// `s` with every leading repetition of `p` removed.
pub open spec fn strip_leading(s: Seq<char>, p: Seq<char>) -> Seq<char>
    decreases s.len(),
{
    if p.len() > 0 && s.len() >= p.len() && s.take(p.len() as int) == p {
        strip_leading(s.skip(p.len() as int), p)
    } else {
        s
    }
}

/// The archive entry an image reference points to: the reference without
/// leading `./` and then without leading `/`.
pub open spec fn entry_name(href: Seq<char>) -> Seq<char> {
    strip_leading(strip_leading(href, seq!['.', '/']), seq!['/'])
}

/// Stripping a pattern made of `.` and `/` takes off a front of such
/// characters and keeps everything after it; what is left does not start
/// with the pattern.
proof fn lemma_strip_leading(s: Seq<char>, p: Seq<char>)
    requires
        p.len() > 0,
        forall|j: int| 0 <= j < p.len() ==> p[j] == '.' || p[j] == '/',
    ensures
        strip_leading(s, p).len() <= s.len(),
        s == s.take(s.len() - strip_leading(s, p).len()) + strip_leading(s, p),
        forall|i: int| 0 <= i < s.len() - strip_leading(s, p).len() ==> s[i] == '.' || s[i] == '/',
        !(strip_leading(s, p).len() >= p.len() && strip_leading(s, p).take(p.len() as int) == p),
    decreases s.len(),
{
    let r = strip_leading(s, p);
    if p.len() > 0 && s.len() >= p.len() && s.take(p.len() as int) == p {
        let t = s.skip(p.len() as int);
        lemma_strip_leading(t, p);
        assert forall|i: int| 0 <= i < s.len() - r.len() implies s[i] == '.' || s[i] == '/' by {
            if i < p.len() {
                assert(s[i] == s.take(p.len() as int)[i]);
            } else {
                assert(s[i] == t[i - p.len()]);
            }
        }
        let k = s.len() - r.len();
        assert forall|j: int| 0 <= j < s.len() implies s[j] == (s.take(k) + r)[j] by {
            if j >= k {
                assert(s[j] == t[j - p.len()]);
                assert(t[j - p.len()] == (t.take(t.len() - r.len()) + r)[j - p.len()]);
            }
        }
        assert(s =~= s.take(k) + r);
    } else {
        assert(s =~= s.take(0) + s);
    }
}

/// The archive entry of an image reference is the reference with its
/// leading `./` and `/` taken off and every later character kept: the
/// reference is a front of `.` and `/` followed by the entry name, which
/// does not start with `/`; a reference that starts with neither is its
/// own entry name.
pub proof fn lemma_entry_name(href: Seq<char>)
    ensures
        entry_name(href).len() <= href.len(),
        href == href.take(href.len() - entry_name(href).len()) + entry_name(href),
        forall|i: int|
            0 <= i < href.len() - entry_name(href).len() ==> href[i] == '.' || href[i] == '/',
        entry_name(href).len() == 0 || entry_name(href)[0] != '/',
        href.len() == 0 || (href[0] != '.' && href[0] != '/') ==> entry_name(href) == href,
{
    let dot = seq!['.', '/'];
    let slash = seq!['/'];
    let a = strip_leading(href, dot);
    let r = strip_leading(a, slash);
    lemma_strip_leading(href, dot);
    lemma_strip_leading(a, slash);
    assert(href =~= href.take(href.len() - r.len()) + r) by {
        assert(a =~= a.take(a.len() - r.len()) + r);
        assert(href =~= href.take(href.len() - a.len()) + a);
    }
    assert forall|i: int| 0 <= i < href.len() - r.len() implies href[i] == '.' || href[i] == '/' by {
        if i >= href.len() - a.len() {
            assert(href[i] == a[i - (href.len() - a.len())]);
        }
    }
    if r.len() > 0 {
        assert(r.take(1) =~= seq![r[0]]);
    }
    if href.len() == 0 || (href[0] != '.' && href[0] != '/') {
        if href.len() >= 2 {
            assert(href.take(2)[0] == href[0]);
        }
        if href.len() >= 1 {
            assert(href.take(1)[0] == href[0]);
        }
    }
}

/// Where `strip_leading` of `p` starts in `cs[from..]`.
fn strip_leading_at(cs: &Vec<char>, from: usize, p: &[char]) -> (r: usize)
    requires
        from <= cs@.len(),
        p@.len() > 0,
    ensures
        from <= r <= cs@.len(),
        cs@.skip(r as int) == strip_leading(cs@.skip(from as int), p@),
{
    let mut i = from;
    while i <= cs.len() && starts_at(cs, i, p)
        invariant
            from <= i <= cs@.len(),
            p@.len() > 0,
            strip_leading(cs@.skip(i as int), p@) == strip_leading(cs@.skip(from as int), p@),
        decreases cs@.len() - i,
    {
        assert(cs@.skip(i as int).skip(p@.len() as int) =~= cs@.skip(i + p@.len()));
        i = i + p.len();
    }
    i
}

/// The archive entry an image reference points to (the reference without
/// leading `./` and then without leading `/`).
pub fn image_entry_name(href: &str) -> (r: String)
    ensures
        r@ == entry_name(href@),
{
    let cs = chars_of(href);
    assert(cs@.skip(0) =~= cs@);
    let a = strip_leading_at(&cs, 0, &['.', '/']);
    assert(['.', '/']@ =~= seq!['.', '/']);
    let b = strip_leading_at(&cs, a, &['/']);
    assert(['/']@ =~= seq!['/']);
    let mut r = String::new();
    push_range(&mut r, &cs, b, cs.len());
    assert(cs@.subrange(b as int, cs@.len() as int) =~= cs@.skip(b as int));
    r
}

/// A character that can belong to a length number: an ASCII digit, `.` or
/// `-`.
pub open spec fn is_number_char(c: char) -> bool {
    ('0' <= c && c <= '9') || c == '.' || c == '-'
}

/// The leading run of number characters.
pub open spec fn number_prefix(s: Seq<char>) -> Seq<char>
    decreases s.len(),
{
    if s.len() > 0 && is_number_char(s[0]) {
        seq![s[0]] + number_prefix(s.skip(1))
    } else {
        Seq::empty()
    }
}

/// The parts of a length attribute such as `2.540cm`: its leading number
/// text, and whether the attribute mentions `cm` anywhere.
pub fn length_parts(v: &str) -> (r: (String, bool))
    ensures
        r.0@ == number_prefix(v@),
        r.1 == (find(v@, seq!['c', 'm']) is Some),
{
    let cs = chars_of(v);
    let mut out = String::new();
    let mut i: usize = 0;
    assert(cs@.skip(0) =~= cs@);
    while i < cs.len() && (('0' <= cs[i] && cs[i] <= '9') || cs[i] == '.' || cs[i] == '-')
        invariant
            i <= cs@.len(),
            cs@ == v@,
            number_prefix(v@) == out@ + number_prefix(cs@.skip(i as int)),
        decreases cs@.len() - i,
    {
        assert(cs@.skip(i as int).skip(1) =~= cs@.skip(i + 1));
        let ghost before = out@;
        push_char(&mut out, cs[i]);
        assert(out@ =~= before + seq![cs@[i as int]]);
        i = i + 1;
    }
    assert(number_prefix(cs@.skip(i as int)) =~= Seq::<char>::empty());
    assert(out@ =~= out@ + Seq::<char>::empty());
    let cm = vstd::slice::slice_to_vec(&['c', 'm']);
    assert(cm@ =~= seq!['c', 'm']);
    let has_cm = find_chars(&cs, &cm, 0).is_some();
    (out, has_cm)
}

/// The leading run of characters that are no white space.
pub open spec fn word_prefix(s: Seq<char>) -> Seq<char>
    decreases s.len(),
{
    if s.len() > 0 && !crate::text::is_white(s[0]) {
        seq![s[0]] + word_prefix(s.skip(1))
    } else {
        Seq::empty()
    }
}

/// The first white-space separated word, or `0` when there is none.
pub open spec fn first_word_or_zero(s: Seq<char>) -> Seq<char> {
    let t = crate::text::trim_start(s);
    if t.len() == 0 {
        seq!['0']
    } else {
        word_prefix(t)
    }
}

/// The angle text of a transform such as `rotate (0.5236 1.0 2.0)`: the
/// first word between the `(` after `rotate` and the next `)`, `0` if that
/// holds no word; nothing when `rotate`, `(` or `)` is missing.
pub open spec fn rotate_arg(tf: Seq<char>) -> Option<Seq<char>> {
    match find(tf, seq!['r', 'o', 't', 'a', 't', 'e']) {
        None => None,
        Some(idx) => {
            let rest = tf.skip(idx);
            match find(rest, seq!['(']) {
                None => None,
                Some(open) => {
                    let after = rest.skip(open + 1);
                    match find(after, seq![')']) {
                        None => None,
                        Some(close) => Some(first_word_or_zero(after.take(close))),
                    }
                },
            }
        },
    }
}

/// The angle text of a `draw:transform` value (see `rotate_arg`).
pub fn rotate_argument(tf: &str) -> (r: Option<String>)
    ensures
        opt_view(r) == rotate_arg(tf@),
{
    let cs = chars_of(tf);
    let n = cs.len();
    let rot = vstd::slice::slice_to_vec(&['r', 'o', 't', 'a', 't', 'e']);
    let lp = vstd::slice::slice_to_vec(&['(']);
    let rp = vstd::slice::slice_to_vec(&[')']);
    assert(rot@ =~= seq!['r', 'o', 't', 'a', 't', 'e']);
    assert(lp@ =~= seq!['(']);
    assert(rp@ =~= seq![')']);
    let idx = match find_chars(&cs, &rot, 0) {
        Some(i) => i,
        None => return None,
    };
    proof {
        crate::text::lemma_find_from_bounds(cs@, rot@, 0);
        crate::text::lemma_find_skip(cs@, seq!['('], idx as int, 0);
    }
    let open = match find_chars(&cs, &lp, idx) {
        Some(i) => i,
        None => return None,
    };
    proof {
        crate::text::lemma_find_from_bounds(cs@, seq!['('], idx as int);
        assert(cs@.skip(idx as int).skip(open - idx + 1) =~= cs@.skip(open + 1));
        crate::text::lemma_find_skip(cs@, seq![')'], open + 1, 0);
    }
    let close = match find_chars(&cs, &rp, open + 1) {
        Some(i) => i,
        None => return None,
    };
    proof {
        crate::text::lemma_find_from_bounds(cs@, seq![')'], open + 1);
        assert(cs@.skip(open + 1).take(close - open - 1) =~= cs@.subrange(open + 1, close as int));
    }
    let ghost inner = cs@.subrange(open + 1, close as int);
    let mut a = open + 1;
    while a < close && crate::text::white(cs[a])
        invariant
            open + 1 <= a <= close <= n,
            n == cs@.len(),
            inner == cs@.subrange(open + 1, close as int),
            crate::text::trim_start(cs@.subrange(a as int, close as int)) == crate::text::trim_start(inner),
        decreases close - a,
    {
        assert(cs@.subrange(a as int, close as int).skip(1) =~= cs@.subrange(a + 1, close as int));
        a = a + 1;
    }
    let mut out = String::new();
    if a == close {
        assert(cs@.subrange(a as int, close as int) =~= Seq::<char>::empty());
        push_char(&mut out, '0');
        assert(out@ =~= seq!['0']);
        return Some(out);
    }
    let mut b = a;
    while b < close && !crate::text::white(cs[b])
        invariant
            a <= b <= close <= n,
            n == cs@.len(),
            word_prefix(cs@.subrange(a as int, close as int)) == out@ + word_prefix(
                cs@.subrange(b as int, close as int),
            ),
        decreases close - b,
    {
        assert(cs@.subrange(b as int, close as int).skip(1) =~= cs@.subrange(b + 1, close as int));
        let ghost before = out@;
        push_char(&mut out, cs[b]);
        assert(out@ =~= before + seq![cs@[b as int]]);
        b = b + 1;
    }
    assert(word_prefix(cs@.subrange(b as int, close as int)) =~= Seq::<char>::empty());
    assert(out@ =~= out@ + Seq::<char>::empty());
    Some(out)
}

/// One frame of an imported document, ready to become an element: an image
/// with its bytes, what decoding them gave, the pixel size to record when
/// they do not decode and its geometry; a text with its geometry; or an
/// image whose entry could not be read.
pub enum ImportPart<G> {
    Image { bytes: Vec<u8>, decoded: Decoded, fallback: (u32, u32), geom: G },
    Text { text: String, geom: G },
    Missing,
}

pub enum ImportPartView<G> {
    Image { bytes: Seq<u8>, size: Result<(u32, u32), Seq<char>>, fallback: (u32, u32), geom: G },
    Text { text: Seq<char>, geom: G },
    Missing,
}

impl<G> View for ImportPart<G> {
    type V = ImportPartView<G>;

    open spec fn view(&self) -> ImportPartView<G> {
        match self {
            ImportPart::Image { bytes, decoded, fallback, geom } => ImportPartView::Image {
                bytes: bytes@,
                size: decoded.outcome(),
                fallback: *fallback,
                geom: *geom,
            },
            ImportPart::Text { text, geom } => ImportPartView::Text { text: text@, geom: *geom },
            ImportPart::Missing => ImportPartView::Missing,
        }
    }
}

impl<G> ImportPart<G> {
    /// The part of an image read from the archive: its bytes decoded for
    /// their pixel size, what the decoding gave kept in the part.
    pub fn image(bytes: Vec<u8>, fallback: (u32, u32), geom: G) -> (r: ImportPart<G>)
        ensures
            r matches ImportPart::Image { bytes: b, decoded, fallback: f, geom: g } && b@ == bytes@
                && decoded.source() == bytes@ && f == fallback && g == geom,
            r@ matches ImportPartView::Image { bytes: b, fallback: f, geom: g, .. } && b == bytes@
                && f == fallback && g == geom,
    {
        let decoded = crate::codec::image_size(bytes.as_slice());
        ImportPart::Image { bytes, decoded, fallback, geom }
    }
}

/// The pixel size recorded for an imported image: the decoded size, or the
/// fallback.
pub open spec fn import_size(size: Result<(u32, u32), Seq<char>>, fallback: (u32, u32)) -> (u32, u32) {
    match size {
        Ok(d) => d,
        Err(_) => fallback,
    }
}

/// A part becomes an element: every image, and every text that is not
/// blank once trimmed.
pub open spec fn produces<G>(p: ImportPartView<G>) -> bool {
    match p {
        ImportPartView::Image { .. } => true,
        ImportPartView::Text { text, .. } => trim(text).len() > 0,
        ImportPartView::Missing => false,
    }
}

/// The parts that become elements, in order.
pub open spec fn produced<G>(parts: Seq<ImportPartView<G>>) -> Seq<ImportPartView<G>>
    decreases parts.len(),
{
    if parts.len() == 0 {
        Seq::empty()
    } else if produces(parts.last()) {
        produced(parts.drop_last()).push(parts.last())
    } else {
        produced(parts.drop_last())
    }
}

/// The image store of an import: the i-th produced part, when an image,
/// stored under id i + 1.
pub open spec fn import_images<G>(outs: Seq<ImportPartView<G>>) -> Map<u64, (Seq<u8>, (u32, u32))>
    decreases outs.len(),
{
    if outs.len() == 0 {
        Map::empty()
    } else {
        let m = import_images(outs.drop_last());
        match outs.last() {
            ImportPartView::Image { bytes, size, fallback, .. } => m.insert(
                outs.len() as u64,
                (bytes, import_size(size, fallback)),
            ),
            _ => m,
        }
    }
}

/// `e` is the element that the import makes of part `p` under id `id`.
pub open spec fn imported_element<G>(e: Element<G>, p: ImportPartView<G>, id: u64) -> bool {
    match p {
        ImportPartView::Image { size, fallback, geom, .. } => {
            let d = import_size(size, fallback);
            e.is_new_image(id, d.0, d.1, geom)
        },
        ImportPartView::Text { text, geom } => e.is_new_text(id, geom) && e.text@ == text,
        ImportPartView::Missing => false,
    }
}

/// The element imported from an image part whose decoding gave `(w, h)` is
/// an image of exactly that pixel size (a zero side counted as 1); one whose
/// decoding failed has the fallback size.
pub proof fn lemma_imported_image_size<G>(
    e: Element<G>,
    bytes: Seq<u8>,
    size: Result<(u32, u32), Seq<char>>,
    fallback: (u32, u32),
    geom: G,
    id: u64,
)
    requires
        imported_element(e, ImportPartView::Image { bytes, size, fallback, geom }, id),
    ensures
        e.id == id,
        e.kind == ElementKind::Image,
        e.geom == geom,
        size matches Ok((w, h)) ==> e.image_w == crate::model::through_f32(
            if w == 0 { 1 } else { w as nat },
        ) && e.image_h == crate::model::through_f32(if h == 0 { 1 } else { h as nat }),
        size is Err ==> e.image_w == crate::model::through_f32(
            if fallback.0 == 0 { 1 } else { fallback.0 as nat },
        ) && e.image_h == crate::model::through_f32(
            if fallback.1 == 0 { 1 } else { fallback.1 as nat },
        ),
{
}

/// The store of an import holds, under the id of the element that the
/// `k`-th produced part became, that part's bytes with the size its
/// decoding gave, or its fallback size when the decoding failed.
pub proof fn lemma_import_store<G>(outs: Seq<ImportPartView<G>>, k: int)
    requires
        0 <= k < outs.len(),
        outs.len() < u64::MAX,
        outs[k] is Image,
    ensures
        import_images(outs).contains_key((k + 1) as u64),
        outs[k] matches ImportPartView::Image { bytes, size, fallback, .. } && import_images(outs)[(k
            + 1) as u64] == (bytes, match size {
            Ok(d) => d,
            Err(_) => fallback,
        }),
    decreases outs.len(),
{
    if k + 1 < outs.len() {
        lemma_import_store(outs.drop_last(), k);
        assert(outs.drop_last()[k] == outs[k]);
    }
}

/// Whether the text is blank (only white space).
fn is_blank(s: &String) -> (r: bool)
    ensures
        r == (trim(s@).len() == 0),
{
    let cs = chars_of(s.as_str());
    let (a, b) = trim_range(&cs, 0, cs.len());
    assert(cs@.subrange(0, cs@.len() as int) =~= cs@);
    a == b
}

/// Builds the imported document: one A4 portrait page holding, in order,
/// an element for each part that produces one, with ids counting from 1;
/// images go to the store under their element's id. Returns the document,
/// the store and the next free id.
pub fn assemble_import<G: Copy>(parts: Vec<ImportPart<G>>) -> (r: (Document<G>, ImageStore, u64))
    requires
        parts@.len() < u64::MAX,
    ensures
        ({
            let outs = produced(parts@.map_values(|p: ImportPart<G>| p@));
            &&& r.0@.format == PaperFormat::A4
            &&& r.0@.orientation == Orientation::Portrait
            &&& r.0@.pages.len() == 1
            &&& r.0@.pages[0].len() == outs.len()
            &&& forall|i: int|
                0 <= i < outs.len() ==> imported_element(
                    #[trigger] r.0@.pages[0][i],
                    outs[i],
                    (i + 1) as u64,
                )
            &&& r.1@ == import_images(outs)
            &&& r.2 == outs.len() + 1
        }),
        ids_below(r.0@, r.2 as int),
        ids_unique(r.0@),
{
    let ghost pv = parts@.map_values(|p: ImportPart<G>| p@);
    let mut elements: Vec<Element<G>> = Vec::new();
    let mut images = ImageStore::new();
    let mut next_id: u64 = 1;
    let mut i: usize = 0;
    assert(images@ =~= import_images(produced(pv.take(0))));
    while i < parts.len()
        invariant
            i <= parts@.len(),
            parts@.len() < u64::MAX,
            pv == parts@.map_values(|p: ImportPart<G>| p@),
            next_id == produced(pv.take(i as int)).len() + 1,
            next_id <= i + 1,
            elements@.len() == produced(pv.take(i as int)).len(),
            forall|k: int|
                0 <= k < elements@.len() ==> imported_element(
                    #[trigger] elements@[k],
                    produced(pv.take(i as int))[k],
                    (k + 1) as u64,
                ),
            images@ == import_images(produced(pv.take(i as int))),
        decreases parts@.len() - i,
    {
        let ghost before = produced(pv.take(i as int));
        assert(pv.take(i + 1).drop_last() =~= pv.take(i as int));
        assert(pv.take(i + 1).last() == parts@[i as int]@);
        match &parts[i] {
            ImportPart::Image { bytes, decoded, fallback, geom } => {
                let dims = match decoded.result() {
                    Ok(d) => d,
                    Err(_) => *fallback,
                };
                let id = next_id;
                next_id = next_id + 1;
                let copy = vstd::slice::slice_to_vec(bytes.as_slice());
                images.insert(id, copy, dims);
                elements.push(Element::new_image(id, dims.0, dims.1, *geom));
                assert(produced(pv.take(i + 1)) == before.push(parts@[i as int]@));
                assert(before.push(parts@[i as int]@).drop_last() =~= before);
                assert(dims == import_size(decoded.outcome(), *fallback));
            },
            ImportPart::Text { text, geom } => {
                if !is_blank(text) {
                    let id = next_id;
                    next_id = next_id + 1;
                    let mut el = Element::new_text(id, *geom);
                    el.text = text.clone();
                    elements.push(el);
                    assert(produced(pv.take(i + 1)) == before.push(parts@[i as int]@));
                    assert(before.push(parts@[i as int]@).drop_last() =~= before);
                } else {
                    assert(produced(pv.take(i + 1)) == before);
                }
            },
            ImportPart::Missing => {
                assert(produced(pv.take(i + 1)) == before);
            },
        }
        i = i + 1;
    }
    assert(pv.take(parts@.len() as int) =~= pv);
    let ghost outs = produced(pv);
    assert forall|k: int| 0 <= k < elements@.len() implies (#[trigger] elements@[k]).id == k + 1 by {
        assert(imported_element(elements@[k], outs[k], (k + 1) as u64));
    }
    let mut pages: Vec<Page<G>> = Vec::new();
    pages.push(Page { elements });
    let doc = Document { format: PaperFormat::A4, orientation: Orientation::Portrait, pages };
    assert(doc@.pages.len() == 1);
    assert(doc@.pages[0] == elements@);
    (doc, images, next_id)
}

/// The MIME type, stored first and uncompressed in the archive.
pub const MIMETYPE: &'static str = "application/vnd.oasis.opendocument.text";

/// The beginning of `content.xml`, up to the opened text body.
pub const CONTENT_HEAD: &'static str = "<?xml version=\"1.0\" encoding=\"UTF-8\"?>\n<office:document-content  xmlns:office=\"urn:oasis:names:tc:opendocument:xmlns:office:1.0\" xmlns:text=\"urn:oasis:names:tc:opendocument:xmlns:text:1.0\" xmlns:draw=\"urn:oasis:names:tc:opendocument:xmlns:drawing:1.0\" xmlns:svg=\"urn:oasis:names:tc:opendocument:xmlns:svg-compatible:1.0\" xmlns:xlink=\"http://www.w3.org/1999/xlink\" xmlns:fo=\"urn:oasis:names:tc:opendocument:xmlns:xsl-fo-compatible:1.0\" xmlns:style=\"urn:oasis:names:tc:opendocument:xmlns:style:1.0\" xmlns:meta=\"urn:oasis:names:tc:opendocument:xmlns:meta:1.0\" office:version=\"1.2\">\n <office:automatic-styles/>\n <office:body>\n  <office:text>\n";

/// The end of `content.xml`.
pub const CONTENT_TAIL: &'static str = "  </office:text>\n </office:body>\n</office:document-content>\n";

/// The empty paragraph between the frames of consecutive pages.
pub const PAGE_BREAK: &'static str = "   <text:p text:style-name=\"Standard\"/>\n";

/// `styles.xml`: the one paragraph style.
pub const STYLES_XML: &'static str = "<?xml version=\"1.0\" encoding=\"UTF-8\"?>\n<office:document-styles  xmlns:office=\"urn:oasis:names:tc:opendocument:xmlns:office:1.0\" xmlns:text=\"urn:oasis:names:tc:opendocument:xmlns:text:1.0\" xmlns:draw=\"urn:oasis:names:tc:opendocument:xmlns:drawing:1.0\" xmlns:svg=\"urn:oasis:names:tc:opendocument:xmlns:svg-compatible:1.0\" xmlns:xlink=\"http://www.w3.org/1999/xlink\" xmlns:fo=\"urn:oasis:names:tc:opendocument:xmlns:xsl-fo-compatible:1.0\" xmlns:style=\"urn:oasis:names:tc:opendocument:xmlns:style:1.0\" xmlns:meta=\"urn:oasis:names:tc:opendocument:xmlns:meta:1.0\" office:version=\"1.2\">\n<office:styles><style:style style:name=\"Standard\" style:family=\"paragraph\"/></office:styles>\n<office:automatic-styles/>\n</office:document-styles>\n";

/// `meta.xml`: names the generator.
pub const META_XML: &'static str = "<?xml version=\"1.0\" encoding=\"UTF-8\"?>\n<office:document-meta  xmlns:office=\"urn:oasis:names:tc:opendocument:xmlns:office:1.0\" xmlns:text=\"urn:oasis:names:tc:opendocument:xmlns:text:1.0\" xmlns:draw=\"urn:oasis:names:tc:opendocument:xmlns:drawing:1.0\" xmlns:svg=\"urn:oasis:names:tc:opendocument:xmlns:svg-compatible:1.0\" xmlns:xlink=\"http://www.w3.org/1999/xlink\" xmlns:fo=\"urn:oasis:names:tc:opendocument:xmlns:xsl-fo-compatible:1.0\" xmlns:style=\"urn:oasis:names:tc:opendocument:xmlns:style:1.0\" xmlns:meta=\"urn:oasis:names:tc:opendocument:xmlns:meta:1.0\" office:version=\"1.2\">\n<office:meta><meta:generator>BoxDoc</meta:generator></office:meta>\n</office:document-meta>\n";

/// The beginning of `META-INF/manifest.xml`, with the fixed entries.
pub const MANIFEST_HEAD: &'static str = "<?xml version=\"1.0\" encoding=\"UTF-8\"?>\n<manifest:manifest xmlns:manifest=\"urn:oasis:names:tc:opendocument:xmlns:manifest:1.0\" manifest:version=\"1.2\">\n <manifest:file-entry manifest:media-type=\"application/vnd.oasis.opendocument.text\" manifest:full-path=\"/\"/>\n <manifest:file-entry manifest:media-type=\"text/xml\" manifest:full-path=\"content.xml\"/>\n <manifest:file-entry manifest:media-type=\"text/xml\" manifest:full-path=\"styles.xml\"/>\n <manifest:file-entry manifest:media-type=\"text/xml\" manifest:full-path=\"meta.xml\"/>\n";

/// An image file of the archive: the element id, the entry name and the
/// MIME type.
pub struct OdtImageFile {
    pub id: u64,
    pub name: String,
    pub mime: &'static str,
}

/// The file extension for image bytes: `jpg` for JPEG, else `png`.
pub open spec fn image_ext(b: Seq<u8>) -> Seq<char> {
    if !crate::codec::png_signature(b) && crate::codec::jpeg_signature(b) {
        "jpg"@
    } else {
        "png"@
    }
}

/// The MIME type for image bytes: `image/jpeg` for JPEG, else `image/png`.
pub open spec fn image_mime(b: Seq<u8>) -> Seq<char> {
    if !crate::codec::png_signature(b) && crate::codec::jpeg_signature(b) {
        "image/jpeg"@
    } else {
        "image/png"@
    }
}

/// The archive entry name of the image with the given id and bytes.
pub open spec fn picture_name(id: u64, b: Seq<u8>) -> Seq<char> {
    "Pictures/"@ + crate::text::decimal(id as nat) + "."@ + image_ext(b)
}

/// The image files of the archive, one per stored image; the order is that
/// of the store's hash map.
pub fn odt_image_files(store: &ImageStore) -> (r: Vec<OdtImageFile>)
    ensures
        r@.len() == store@.dom().len(),
        forall|i: int, j: int| 0 <= i < j < r@.len() ==> r@[i].id != r@[j].id,
        forall|i: int|
            0 <= i < r@.len() ==> store@.contains_key(#[trigger] r@[i].id) && r@[i].name@
                == picture_name(r@[i].id, store@[r@[i].id].0) && r@[i].mime@ == image_mime(
                store@[r@[i].id].0,
            ),
        forall|id: u64| #[trigger] store@.contains_key(id) ==> exists|i: int| 0 <= i < r@.len() && r@[i].id == id,
{
    let mut r: Vec<OdtImageFile> = Vec::new();
    assert(store@.dom() =~= store.map@.dom());
    for k in it: store.map.keys()
        invariant
            it.seq().unref().to_set() == store.map@.dom(),
            it.seq().no_duplicates(),
            it.seq().len() == store@.dom().len(),
            store@.dom() == store.map@.dom(),
            forall|id: u64| #[trigger] store@.contains_key(id) ==> exists|i: int| 0 <= i < it.seq().len() && *it.seq()[i] == id,
            r@.len() == it.index(),
            forall|i: int| 0 <= i < it.index() ==> r@[i].id == *it.seq()[i],
            forall|i: int, j: int| 0 <= i < j < r@.len() ==> r@[i].id != r@[j].id,
            forall|i: int|
                0 <= i < r@.len() ==> store@.contains_key(#[trigger] r@[i].id) && r@[i].name@
                    == picture_name(r@[i].id, store@[r@[i].id].0) && r@[i].mime@ == image_mime(
                    store@[r@[i].id].0,
                ),
    {
        let id = *k;
        assert(forall|i: int| 0 <= i < r@.len() ==> r@[i].id != id) by {
            assert forall|i: int| 0 <= i < r@.len() implies r@[i].id != id by {
                assert(it.seq()[i] != it.seq()[it.index() as int]);
            }
        }
        assert(it.seq().unref().to_set().contains(id)) by {
            assert(it.seq().unref()[it.index() as int] == id);
        }
        match store.map.get(&id) {
            Some(entry) => {
                assert(store@[id] == entry.value());
                let png = crate::codec::is_png(entry.png.as_slice());
                let jpeg = crate::codec::is_jpeg(entry.png.as_slice());
                let (ext, mime) = if !png && jpeg {
                    ("jpg", "image/jpeg")
                } else {
                    ("png", "image/png")
                };
                let mut name = String::new();
                push_str(&mut name, "Pictures/");
                crate::text::push_decimal(&mut name, id);
                push_str(&mut name, ".");
                push_str(&mut name, ext);
                r.push(OdtImageFile { id, name, mime });
            },
            None => {},
        }
    }
    r
}

/// The numbers of a frame as the export writes them (in cm): position,
/// size, and the rotation as (angle, center x, center y) when the element
/// is rotated.
pub struct FramePlacement {
    pub x: String,
    pub y: String,
    pub w: String,
    pub h: String,
    pub rotation: Option<(String, String, String)>,
}

pub struct PlacementView {
    pub x: Seq<char>,
    pub y: Seq<char>,
    pub w: Seq<char>,
    pub h: Seq<char>,
    pub rotation: Option<(Seq<char>, Seq<char>, Seq<char>)>,
}

impl View for FramePlacement {
    type V = PlacementView;

    open spec fn view(&self) -> PlacementView {
        PlacementView {
            x: self.x@,
            y: self.y@,
            w: self.w@,
            h: self.h@,
            rotation: match self.rotation {
                Some((a, b, c)) => Some((a@, b@, c@)),
                None => None,
            },
        }
    }
}

/// The lines of a text: the pieces between its line breaks.
pub open spec fn split_lines(s: Seq<char>) -> Seq<Seq<char>>
    decreases s.len(),
{
    match find(s, seq!['\n']) {
        None => seq![s],
        Some(p) => {
            proof {
                crate::text::lemma_find_from_bounds(s, seq!['\n'], 0);
            }
            seq![s.take(p)] + split_lines(s.skip(p + 1))
        },
    }
}

/// One paragraph of a text box.
pub open spec fn paragraph_xml(line: Seq<char>) -> Seq<char> {
    if line.len() == 0 {
        "<text:p text:style-name=\"Standard\"/>"@
    } else {
        "<text:p text:style-name=\"Standard\">"@ + escaped(line) + "</text:p>"@
    }
}

/// The paragraphs of the given lines.
pub open spec fn paragraphs_xml(lines: Seq<Seq<char>>) -> Seq<char>
    decreases lines.len(),
{
    if lines.len() == 0 {
        Seq::empty()
    } else {
        paragraphs_xml(lines.drop_last()) + paragraph_xml(lines.last())
    }
}

/// The image entry of element `id`: the name of the first file with that
/// id, or empty.
pub open spec fn href_of(id: u64, files: Seq<OdtImageFile>) -> Seq<char>
    decreases files.len(),
{
    if files.len() == 0 {
        Seq::empty()
    } else if files[0].id == id {
        files[0].name@
    } else {
        href_of(id, files.skip(1))
    }
}

/// The content of an element's frame: the image reference for an image, a
/// text box with one paragraph per line for the other kinds.
pub open spec fn frame_inner<G>(el: Element<G>, files: Seq<OdtImageFile>) -> Seq<char> {
    if el.kind == ElementKind::Image {
        "<draw:image xlink:href=\""@ + href_of(el.id, files)
            + "\" xlink:type=\"simple\" xlink:actuate=\"onLoad\"/>"@
    } else {
        "<draw:text-box>"@ + paragraphs_xml(split_lines(el.text@)) + "</draw:text-box>"@
    }
}

/// The rotation attribute of a frame, if it is rotated.
pub open spec fn transform_xml(p: PlacementView) -> Seq<char> {
    match p.rotation {
        None => Seq::empty(),
        Some((a, cx, cy)) => " draw:transform=\"rotate ("@ + a + " "@ + cx + " "@ + cy + ")\""@,
    }
}

/// The attributes of a frame placed as `p`, up to the end of its tag.
pub open spec fn frame_attrs(p: PlacementView) -> Seq<char> {
    " text:anchor-type=\"page\" svg:x=\""@ + p.x + "cm\" svg:y=\""@ + p.y + "cm\" svg:width=\""@
        + p.w + "cm\" svg:height=\""@ + p.h + "cm\""@ + transform_xml(p) + ">\n    "@
}

/// What stands between `<draw:frame` and `</draw:frame>` in the frame of
/// one element: its attributes and its content.
pub open spec fn frame_body<G>(el: Element<G>, files: Seq<OdtImageFile>, p: PlacementView) -> Seq<char> {
    frame_attrs(p) + frame_inner(el, files) + "\n   "@
}

/// The frame of one element.
pub open spec fn frame_xml_spec<G>(el: Element<G>, files: Seq<OdtImageFile>, p: PlacementView) -> Seq<char> {
    "   <draw:frame"@ + frame_body(el, files, p) + "</draw:frame>\n"@
}

/// Appends the paragraph for the line `cs[a..b]`.
fn push_paragraph(out: &mut String, cs: &Vec<char>, a: usize, b: usize)
    requires
        a <= b <= cs@.len(),
    ensures
        final(out)@ == old(out)@ + paragraph_xml(cs@.subrange(a as int, b as int)),
{
    let ghost line = cs@.subrange(a as int, b as int);
    if a == b {
        push_str(out, "<text:p text:style-name=\"Standard\"/>");
    } else {
        let ghost before = out@;
        push_str(out, "<text:p text:style-name=\"Standard\">");
        push_escaped(out, cs, a, b);
        push_str(out, "</text:p>");
        assert(out@ =~= before + paragraph_xml(line));
    }
}

/// Appends one paragraph per line of `text`.
fn push_paragraphs(out: &mut String, text: &String)
    ensures
        final(out)@ == old(out)@ + paragraphs_xml(split_lines(text@)),
{
    let cs = chars_of(text.as_str());
    let mut nl: Vec<char> = Vec::new();
    nl.push('\n');
    assert(nl@ =~= seq!['\n']);
    let mut start: usize = 0;
    let n = cs.len();
    let ghost mut done: Seq<Seq<char>> = Seq::empty();
    assert(cs@.skip(0) =~= cs@);
    loop
        invariant_except_break
            start <= cs@.len(),
            n == cs@.len(),
            cs@ == text@,
            nl@ == seq!['\n'],
            split_lines(text@) == done + split_lines(cs@.skip(start as int)),
            out@ == old(out)@ + paragraphs_xml(done),
        ensures
            out@ == old(out)@ + paragraphs_xml(split_lines(text@)),
        decreases cs@.len() - start,
    {
        let ghost t = cs@.skip(start as int);
        proof {
            crate::text::lemma_find_skip(cs@, nl@, start as int, 0);
            crate::text::lemma_find_from_bounds(cs@, nl@, start as int);
        }
        match find_chars(&cs, &nl, start) {
            Some(j) => {
                let ghost line = cs@.subrange(start as int, j as int);
                proof {
                    assert(find(t, seq!['\n']) == Some(j - start));
                    assert(j + 1 <= n);
                    assert(t.take(j - start) =~= line);
                    assert(t.skip(j - start + 1) =~= cs@.skip(j + 1));
                    assert(split_lines(t) == seq![line] + split_lines(cs@.skip(j + 1)));
                    assert(done + (seq![line] + split_lines(cs@.skip(j + 1))) =~= done.push(line)
                        + split_lines(cs@.skip(j + 1)));
                    assert(done.push(line).drop_last() =~= done);
                }
                push_paragraph(out, &cs, start, j);
                proof {
                    done = done.push(line);
                }
                start = j + 1;
            },
            None => {
                let ghost line = cs@.subrange(start as int, cs@.len() as int);
                proof {
                    assert(find(t, seq!['\n']) is None);
                    assert(t =~= line);
                    assert(split_lines(t) == seq![line]);
                    assert(done + seq![line] =~= done.push(line));
                    assert(done.push(line).drop_last() =~= done);
                }
                push_paragraph(out, &cs, start, cs.len());
                proof {
                    done = done.push(line);
                }
                break;
            },
        }
    }
}

/// Appends the name of the first image file for element `id`, if any.
fn push_href(out: &mut String, id: u64, files: &Vec<OdtImageFile>)
    ensures
        final(out)@ == old(out)@ + href_of(id, files@),
{
    let mut i: usize = 0;
    assert(files@.skip(0) =~= files@);
    while i < files.len()
        invariant
            i <= files@.len(),
            out@ == old(out)@,
            href_of(id, files@) == href_of(id, files@.skip(i as int)),
        decreases files@.len() - i,
    {
        assert(files@.skip(i as int)[0] == files@[i as int]);
        assert(files@.skip(i as int).skip(1) =~= files@.skip(i + 1));
        if files[i].id == id {
            push_str(out, files[i].name.as_str());
            return;
        }
        i = i + 1;
    }
    assert(files@.skip(i as int).len() == 0);
    assert(out@ =~= old(out)@ + href_of(id, files@));
}

/// Appends the content of an element's frame.
fn push_frame_inner<G>(out: &mut String, el: &Element<G>, files: &Vec<OdtImageFile>)
    ensures
        final(out)@ == old(out)@ + frame_inner(*el, files@),
{
    let ghost before = out@;
    match el.kind {
        ElementKind::Image => {
            push_str(out, "<draw:image xlink:href=\"");
            push_href(out, el.id, files);
            push_str(out, "\" xlink:type=\"simple\" xlink:actuate=\"onLoad\"/>");
        },
        _ => {
            push_str(out, "<draw:text-box>");
            push_paragraphs(out, &el.text);
            push_str(out, "</draw:text-box>");
        },
    }
    assert(out@ =~= before + frame_inner(*el, files@));
}

/// Appends the rotation attribute of a frame, if it is rotated.
fn push_transform(out: &mut String, p: &FramePlacement)
    ensures
        final(out)@ == old(out)@ + transform_xml(p@),
{
    let ghost before = out@;
    match &p.rotation {
        Some((a, cx, cy)) => {
            push_str(out, " draw:transform=\"rotate (");
            push_str(out, a.as_str());
            push_str(out, " ");
            push_str(out, cx.as_str());
            push_str(out, " ");
            push_str(out, cy.as_str());
            push_str(out, ")\"");
        },
        None => {},
    }
    assert(out@ =~= before + transform_xml(p@));
}

/// The `draw:frame` of one element, placed as `p` says.
pub fn frame_xml<G>(el: &Element<G>, files: &Vec<OdtImageFile>, p: &FramePlacement) -> (r: String)
    ensures
        r@ == frame_xml_spec(*el, files@, p@),
{
    let mut out = String::new();
    push_str(&mut out, "   <draw:frame");
    push_str(&mut out, " text:anchor-type=\"page\" svg:x=\"");
    push_str(&mut out, p.x.as_str());
    push_str(&mut out, "cm\" svg:y=\"");
    push_str(&mut out, p.y.as_str());
    push_str(&mut out, "cm\" svg:width=\"");
    push_str(&mut out, p.w.as_str());
    push_str(&mut out, "cm\" svg:height=\"");
    push_str(&mut out, p.h.as_str());
    push_str(&mut out, "cm\"");
    push_transform(&mut out, p);
    push_str(&mut out, ">\n    ");
    push_frame_inner(&mut out, el, files);
    push_str(&mut out, "\n   ");
    push_str(&mut out, "</draw:frame>\n");
    assert(out@ =~= frame_xml_spec(*el, files@, p@));
    out
}

/// The frames of the first `n` elements of a page.
pub open spec fn page_frames<G>(
    els: Seq<Element<G>>,
    files: Seq<OdtImageFile>,
    pl: Seq<FramePlacement>,
    n: nat,
) -> Seq<char>
    decreases n,
{
    if n == 0 {
        Seq::empty()
    } else {
        page_frames(els, files, pl, (n - 1) as nat) + frame_xml_spec(els[n - 1], files, pl[n - 1]@)
    }
}

/// The frames of the first `n` pages, with an empty paragraph before each
/// page but the first.
pub open spec fn pages_xml<G>(
    pages: Seq<Seq<Element<G>>>,
    files: Seq<OdtImageFile>,
    pl: Seq<Vec<FramePlacement>>,
    n: nat,
) -> Seq<char>
    decreases n,
{
    if n == 0 {
        Seq::empty()
    } else {
        pages_xml(pages, files, pl, (n - 1) as nat) + (if n > 1 {
            PAGE_BREAK@
        } else {
            Seq::empty()
        }) + page_frames(pages[n - 1], files, pl[n - 1]@, pages[n - 1].len())
    }
}

/// `content.xml` of an exported document.
pub open spec fn content_xml_spec<G>(
    doc: DocumentView<G>,
    files: Seq<OdtImageFile>,
    pl: Seq<Vec<FramePlacement>>,
) -> Seq<char> {
    CONTENT_HEAD@ + pages_xml(doc.pages, files, pl, doc.pages.len()) + CONTENT_TAIL@
}

/// There is one placement for each element of each page.
pub open spec fn placements_fit<G>(doc: DocumentView<G>, pl: Seq<Vec<FramePlacement>>) -> bool {
    &&& pl.len() == doc.pages.len()
    &&& forall|i: int| 0 <= i < pl.len() ==> (#[trigger] pl[i])@.len() == doc.pages[i].len()
}

/// `content.xml`: every element of every page as a frame, in order; the
/// placements give each frame's numbers.
pub fn content_xml<G>(
    doc: &Document<G>,
    files: &Vec<OdtImageFile>,
    placements: &Vec<Vec<FramePlacement>>,
) -> (r: String)
    requires
        placements_fit(doc@, placements@),
    ensures
        r@ == content_xml_spec(doc@, files@, placements@),
{
    let ghost pages = doc@.pages;
    let mut out = String::new();
    push_str(&mut out, CONTENT_HEAD);
    let ghost head = out@;
    let mut pi: usize = 0;
    while pi < doc.pages.len()
        invariant
            pi <= doc.pages@.len(),
            pages == doc@.pages,
            pages.len() == doc.pages@.len(),
            placements_fit(doc@, placements@),
            out@ == head + pages_xml(pages, files@, placements@, pi as nat),
        decreases doc.pages@.len() - pi,
    {
        let ghost before = out@;
        if pi > 0 {
            push_str(&mut out, PAGE_BREAK);
        }
        let ghost mid = out@;
        let page = &doc.pages[pi];
        let pls = &placements[pi];
        assert(pages[pi as int] == page.elements@);
        assert(pls@.len() == page.elements@.len());
        let mut ei: usize = 0;
        while ei < page.elements.len()
            invariant
                ei <= page.elements@.len(),
                pls@.len() == page.elements@.len(),
                out@ == mid + page_frames(page.elements@, files@, pls@, ei as nat),
            decreases page.elements@.len() - ei,
        {
            let frame = frame_xml(&page.elements[ei], files, &pls[ei]);
            push_str(&mut out, frame.as_str());
            ei = ei + 1;
            assert(out@ =~= mid + page_frames(page.elements@, files@, pls@, ei as nat));
        }
        pi = pi + 1;
        assert(out@ =~= head + pages_xml(pages, files@, placements@, pi as nat));
    }
    push_str(&mut out, CONTENT_TAIL);
    assert(out@ =~= content_xml_spec(doc@, files@, placements@));
    out
}

/// The manifest line of one image file.
pub open spec fn manifest_entry(f: OdtImageFile) -> Seq<char> {
    " <manifest:file-entry manifest:media-type=\""@ + f.mime@ + "\" manifest:full-path=\""@
        + f.name@ + "\"/>\n"@
}

/// The manifest lines of the first `n` image files.
pub open spec fn manifest_entries(files: Seq<OdtImageFile>, n: nat) -> Seq<char>
    decreases n,
{
    if n == 0 {
        Seq::empty()
    } else {
        manifest_entries(files, (n - 1) as nat) + manifest_entry(files[n - 1])
    }
}

/// The entries of the first `n` files do not change when a file is added
/// at the end.
proof fn lemma_manifest_entries_push(files: Seq<OdtImageFile>, f: OdtImageFile, n: nat)
    requires
        n <= files.len(),
    ensures
        manifest_entries(files.push(f), n) == manifest_entries(files, n),
    decreases n,
{
    if n > 0 {
        lemma_manifest_entries_push(files, f, (n - 1) as nat);
        assert(files.push(f)[n - 1] == files[n - 1]);
    }
}

/// The manifest of no image files holds only the fixed entries; listing one
/// more file adds exactly its file-entry line, whatever the file is, before
/// the closing tag.
pub proof fn lemma_manifest_lists_each_file(files: Seq<OdtImageFile>, f: OdtImageFile)
    ensures
        MANIFEST_HEAD@ + manifest_entries(Seq::empty(), 0) + "</manifest:manifest>\n"@ == MANIFEST_HEAD@
            + "</manifest:manifest>\n"@,
        MANIFEST_HEAD@ + manifest_entries(files.push(f), files.len() + 1) + "</manifest:manifest>\n"@
            == MANIFEST_HEAD@ + manifest_entries(files, files.len()) + (
        " <manifest:file-entry manifest:media-type=\""@ + f.mime@ + "\" manifest:full-path=\""@
            + f.name@ + "\"/>\n"@) + "</manifest:manifest>\n"@,
{
    assert(MANIFEST_HEAD@ + Seq::<char>::empty() =~= MANIFEST_HEAD@);
    lemma_manifest_entries_push(files, f, files.len());
    assert(files.push(f)[files.len() as int] == f);
    assert(manifest_entries(files.push(f), files.len() + 1) == manifest_entries(files, files.len())
        + manifest_entry(f));
}

/// `META-INF/manifest.xml`: the fixed entries, then one per image file.
pub fn manifest_xml(files: &Vec<OdtImageFile>) -> (r: String)
    ensures
        r@ == MANIFEST_HEAD@ + manifest_entries(files@, files@.len()) + "</manifest:manifest>\n"@,
{
    let mut out = String::new();
    push_str(&mut out, MANIFEST_HEAD);
    let ghost head = out@;
    let mut i: usize = 0;
    while i < files.len()
        invariant
            i <= files@.len(),
            out@ == head + manifest_entries(files@, i as nat),
        decreases files@.len() - i,
    {
        let ghost before = out@;
        push_str(&mut out, " <manifest:file-entry manifest:media-type=\"");
        push_str(&mut out, files[i].mime);
        push_str(&mut out, "\" manifest:full-path=\"");
        push_str(&mut out, files[i].name.as_str());
        push_str(&mut out, "\"/>\n");
        assert(out@ =~= before + manifest_entry(files@[i as int]));
        i = i + 1;
        assert(out@ =~= head + manifest_entries(files@, i as nat));
    }
    push_str(&mut out, "</manifest:manifest>\n");
    assert(out@ =~= MANIFEST_HEAD@ + manifest_entries(files@, files@.len()) + "</manifest:manifest>\n"@);
    out
}

} // verus!
