//! What the OpenDocument import reads back of what the export writes: the
//! text of an exported text frame comes back unchanged, as long as no line
//! of it is empty or starts or ends with white space (the import trims
//! every paragraph); the position, size, rotation and picture of an
//! exported frame come back as the number texts and the name they were
//! written with; and a frame without rotation or picture is read without
//! them, as long as its text holds no `"` (the export does not escape `"`,
//! and the import takes the first `key="` of a frame wherever it stands).
use vstd::prelude::*;

use crate::model::{Element, ElementKind};
use crate::odt::{
    attr_value, is_number_char, escape_char, escaped, first_word_or_zero, frame_attrs, frame_body, frame_inner, href_of, lemma_unescape_escape,
    number_prefix, rotate_arg, word_prefix, p_close,
    p_open, paragraph_xml, paragraphs, paragraphs_xml, split_lines, text_of, transform_xml,
    OdtImageFile, PlacementView,
};
use crate::text::{
    find, is_white, join, lemma_find_at, lemma_find_from_bounds, lemma_find_none, lemma_find_passes,
    lemma_find_skip, lemma_join_front, matches_at, trim, trim_start,
};

verus! {

/// `s` holds no `<`.
pub open spec fn no_lt(s: Seq<char>) -> bool {
    forall|k: int| 0 <= k < s.len() ==> s[k] != '<'
}

/// A line that the import reads back as it is: not empty, and neither
/// starting nor ending with white space.
pub open spec fn plain_line(l: Seq<char>) -> bool {
    l.len() > 0 && !is_white(l[0]) && !is_white(l.last())
}

/// A text all of whose lines are plain.
pub open spec fn plain_text(t: Seq<char>) -> bool {
    forall|i: int| 0 <= i < split_lines(t).len() ==> plain_line(#[trigger] split_lines(t)[i])
}

/// The numbers of a placement hold no `<`.
pub open spec fn plain_placement(p: PlacementView) -> bool {
    &&& no_lt(p.x)
    &&& no_lt(p.y)
    &&& no_lt(p.w)
    &&& no_lt(p.h)
    &&& (p.rotation matches Some((a, cx, cy)) ==> no_lt(a) && no_lt(cx) && no_lt(cy))
}

pub proof fn lemma_no_lt_add(a: Seq<char>, b: Seq<char>)
    requires
        no_lt(a),
        no_lt(b),
    ensures
        no_lt(a + b),
{
    assert forall|k: int| 0 <= k < (a + b).len() implies (a + b)[k] != '<' by {
        if k < a.len() {
            assert((a + b)[k] == a[k]);
        } else {
            assert((a + b)[k] == b[k - a.len()]);
        }
    }
}

/// Escaped text holds no `<`.
pub proof fn lemma_escaped_no_lt(s: Seq<char>)
    ensures
        no_lt(escaped(s)),
    decreases s.len(),
{
    if s.len() > 0 {
        lemma_escaped_no_lt(s.skip(1));
        let c = s[0];
        assert(no_lt(escape_char(c))) by {
            if c == '&' || c == '<' || c == '>' {
                assert(escape_char(c)[0] == '&');
            }
        }
        lemma_no_lt_add(escape_char(c), escaped(s.skip(1)));
    }
}

/// Escaping one more character appends its escape.
proof fn lemma_escaped_push(s: Seq<char>, c: char)
    ensures
        escaped(s.push(c)) == escaped(s) + escape_char(c),
    decreases s.len(),
{
    let t = s.push(c);
    assert(t[0] == if s.len() == 0 { c } else { s[0] });
    if s.len() == 0 {
        assert(t.skip(1) =~= Seq::<char>::empty());
        assert(escaped(t.skip(1)) == Seq::<char>::empty());
        assert(escaped(s) == Seq::<char>::empty());
        assert(escape_char(c) + Seq::<char>::empty() =~= escape_char(c));
        assert(Seq::<char>::empty() + escape_char(c) =~= escape_char(c));
    } else {
        lemma_escaped_push(s.skip(1), c);
        assert(t.skip(1) =~= s.skip(1).push(c));
        assert(escape_char(s[0]) + (escaped(s.skip(1)) + escape_char(c)) =~= escape_char(s[0])
            + escaped(s.skip(1)) + escape_char(c));
    }
}

/// The escape of a plain line neither starts nor ends with white space.
proof fn lemma_escaped_trimmed(l: Seq<char>)
    requires
        plain_line(l),
    ensures
        trim(escaped(l)) == escaped(l),
        escaped(l).len() > 0,
{
    let e = escaped(l);
    assert(escape_char(l[0]).len() > 0);
    assert(e[0] == escape_char(l[0])[0]);
    assert(!is_white(e[0]));
    assert(trim_start(e) == e);
    lemma_escaped_push(l.drop_last(), l.last());
    assert(l.drop_last().push(l.last()) =~= l);
    let c = l.last();
    let ec = escape_char(c);
    assert(e.last() == ec.last());
    assert(!is_white(ec.last()));
}

/// A paragraph of a plain line, read back, gives the line, and the reading
/// goes on right after it.
proof fn lemma_read_paragraph(l: Seq<char>, rest: Seq<char>)
    requires
        plain_line(l),
    ensures
        paragraphs(paragraph_xml(l) + rest) == seq![l] + paragraphs(rest),
{
    reveal_strlit("<text:p text:style-name=\"Standard\">");
    reveal_strlit("</text:p>");
    let open = "<text:p text:style-name=\"Standard\">"@;
    let close = "</text:p>"@;
    let e = escaped(l);
    let x = paragraph_xml(l) + rest;
    lemma_escaped_trimmed(l);
    lemma_escaped_no_lt(l);
    assert(paragraph_xml(l) == open + e + close);
    assert(x =~= open + (e + (close + rest)));
    // `<text:p` at the very start
    assert(x.subrange(0, 7) =~= p_open());
    lemma_find_at(x, p_open(), 0, 0);
    let r = x.skip(0);
    assert(r =~= x);
    // the tag ends at its only `>`
    let gt = open.len() - 1;
    assert forall|k: int| 0 <= k < gt implies !matches_at(r, seq!['>'], k) by {
        assert(r.subrange(k, k + 1)[0] == open[k]);
    }
    assert(r.subrange(gt, gt + 1) =~= seq!['>']);
    lemma_find_at(r, seq!['>'], 0, gt);
    let inner = r.skip(gt + 1);
    assert(inner =~= e + (close + rest));
    // the paragraph ends at the first `</text:p>`, right after the escape
    assert forall|k: int| 0 <= k < e.len() implies !matches_at(inner, p_close(), k) by {
        assert(inner.subrange(k, k + 9)[0] == e[k]);
    }
    assert(inner.subrange(e.len() as int, e.len() + 9int) =~= p_close());
    lemma_find_at(inner, p_close(), 0, e.len() as int);
    assert(inner.take(e.len() as int) =~= e);
    assert(inner.skip(e.len() + 9int) =~= rest);
    lemma_unescape_escape(l);
    assert(find(x, p_open()) == Some(0int));
    assert(find(r, seq!['>']) == Some(gt));
    assert(find(inner, p_close()) == Some(e.len() as int));
}

/// The paragraphs of lines, split off at the front.
proof fn lemma_paragraphs_xml_front(lines: Seq<Seq<char>>)
    requires
        lines.len() > 0,
    ensures
        paragraphs_xml(lines) == paragraph_xml(lines[0]) + paragraphs_xml(lines.skip(1)),
    decreases lines.len(),
{
    if lines.len() == 1 {
        assert(lines.drop_last() =~= Seq::<Seq<char>>::empty());
        assert(lines.skip(1) =~= Seq::<Seq<char>>::empty());
        assert(Seq::<char>::empty() + paragraph_xml(lines[0]) =~= paragraph_xml(lines[0]));
        assert(paragraph_xml(lines[0]) + Seq::<char>::empty() =~= paragraph_xml(lines[0]));
    } else {
        lemma_paragraphs_xml_front(lines.drop_last());
        assert(lines.drop_last().skip(1) =~= lines.skip(1).drop_last());
        assert(lines.skip(1).last() == lines.last());
        assert(lines.drop_last()[0] == lines[0]);
        assert(paragraph_xml(lines[0]) + paragraphs_xml(lines.skip(1).drop_last()) + paragraph_xml(
            lines.last(),
        ) =~= paragraph_xml(lines[0]) + (paragraphs_xml(lines.skip(1).drop_last()) + paragraph_xml(
            lines.last(),
        )));
    }
}

/// Reading back the paragraphs of plain lines gives the lines.
proof fn lemma_read_paragraphs(lines: Seq<Seq<char>>, rest: Seq<char>)
    requires
        forall|i: int| 0 <= i < lines.len() ==> plain_line(#[trigger] lines[i]),
        paragraphs(rest) == Seq::<Seq<char>>::empty(),
    ensures
        paragraphs(paragraphs_xml(lines) + rest) == lines,
    decreases lines.len(),
{
    if lines.len() == 0 {
        assert(paragraphs_xml(lines) + rest =~= rest);
    } else {
        lemma_paragraphs_xml_front(lines);
        let tail = lines.skip(1);
        assert forall|i: int| 0 <= i < tail.len() implies plain_line(#[trigger] tail[i]) by {
            assert(tail[i] == lines[i + 1]);
        }
        lemma_read_paragraphs(tail, rest);
        assert(paragraphs_xml(lines) + rest =~= paragraph_xml(lines[0]) + (paragraphs_xml(tail)
            + rest));
        lemma_read_paragraph(lines[0], paragraphs_xml(tail) + rest);
        assert(seq![lines[0]] + tail =~= lines);
    }
}

/// Text in front that holds no `<text:p` does not change what is read.
proof fn lemma_read_after(pre: Seq<char>, x: Seq<char>)
    requires
        forall|k: int| 0 <= k < pre.len() ==> !matches_at(pre + x, p_open(), k),
    ensures
        paragraphs(pre + x) == paragraphs(x),
{
    let s = pre + x;
    lemma_find_passes(s, p_open(), 0, pre.len() as int);
    lemma_find_skip(s, p_open(), pre.len() as int, 0);
    assert(s.skip(pre.len() as int) =~= x);
    lemma_find_from_bounds(x, p_open(), 0);
    match find(x, p_open()) {
        None => {},
        Some(st) => {
            assert(s.skip(pre.len() + st) =~= x.skip(st));
        },
    }
}

/// A front that holds no `<` holds no `<text:p` either.
proof fn lemma_no_open_in(pre: Seq<char>, x: Seq<char>)
    requires
        no_lt(pre),
    ensures
        forall|k: int| 0 <= k < pre.len() ==> !matches_at(pre + x, p_open(), k),
{
    assert forall|k: int| 0 <= k < pre.len() implies !matches_at(pre + x, p_open(), k) by {
        if k + 7 <= (pre + x).len() {
            assert((pre + x).subrange(k, k + 7)[0] == pre[k]);
        }
    }
}

/// Splitting a text into lines and joining them again gives the text.
proof fn lemma_join_split(t: Seq<char>)
    ensures
        join(split_lines(t), seq!['\n']) == t,
    decreases t.len(),
{
    lemma_find_from_bounds(t, seq!['\n'], 0);
    match find(t, seq!['\n']) {
        None => {},
        Some(p) => {
            let rest = t.skip(p + 1);
            lemma_join_split(rest);
            lemma_join_front(t.take(p), split_lines(rest), seq!['\n']);
            assert(split_lines(rest).len() > 0);
            assert(t.subrange(p, p + 1) =~= seq!['\n']);
            assert(t.take(p) + seq!['\n'] + rest =~= t);
        },
    }
}

/// The literal pieces of a frame's attributes hold no `<`.
proof fn lemma_attribute_pieces()
    ensures
        no_lt(" text:anchor-type=\"page\" svg:x=\""@),
        no_lt("cm\" svg:y=\""@),
        no_lt("cm\" svg:width=\""@),
        no_lt("cm\" svg:height=\""@),
        no_lt("cm\""@),
        no_lt(">\n    "@),
        no_lt(" draw:transform=\"rotate ("@),
        no_lt(" "@),
        no_lt(")\""@),
        no_lt(Seq::<char>::empty()),
{
    reveal_strlit(" text:anchor-type=\"page\" svg:x=\"");
    reveal_strlit("cm\" svg:y=\"");
    reveal_strlit("cm\" svg:width=\"");
    reveal_strlit("cm\" svg:height=\"");
    reveal_strlit("cm\"");
    reveal_strlit(">\n    ");
    reveal_strlit(" draw:transform=\"rotate (");
    reveal_strlit(" ");
    reveal_strlit(")\"");
}

/// The attributes of a frame whose numbers hold no `<` hold no `<`.
pub proof fn lemma_frame_attrs_plain(p: PlacementView)
    requires
        plain_placement(p),
    ensures
        no_lt(frame_attrs(p)),
{
    lemma_attribute_pieces();
    assert(no_lt(transform_xml(p))) by {
        match p.rotation {
            None => {},
            Some((a, cx, cy)) => {
                lemma_no_lt_add(" draw:transform=\"rotate ("@, a);
                lemma_no_lt_add(" draw:transform=\"rotate ("@ + a, " "@);
                lemma_no_lt_add(" draw:transform=\"rotate ("@ + a + " "@, cx);
                lemma_no_lt_add(" draw:transform=\"rotate ("@ + a + " "@ + cx, " "@);
                lemma_no_lt_add(" draw:transform=\"rotate ("@ + a + " "@ + cx + " "@, cy);
                lemma_no_lt_add(" draw:transform=\"rotate ("@ + a + " "@ + cx + " "@ + cy, ")\""@);
            },
        }
    }
    let a1 = " text:anchor-type=\"page\" svg:x=\""@;
    lemma_no_lt_add(a1, p.x);
    lemma_no_lt_add(a1 + p.x, "cm\" svg:y=\""@);
    lemma_no_lt_add(a1 + p.x + "cm\" svg:y=\""@, p.y);
    lemma_no_lt_add(a1 + p.x + "cm\" svg:y=\""@ + p.y, "cm\" svg:width=\""@);
    lemma_no_lt_add(a1 + p.x + "cm\" svg:y=\""@ + p.y + "cm\" svg:width=\""@, p.w);
    lemma_no_lt_add(a1 + p.x + "cm\" svg:y=\""@ + p.y + "cm\" svg:width=\""@ + p.w, "cm\" svg:height=\""@);
    lemma_no_lt_add(
        a1 + p.x + "cm\" svg:y=\""@ + p.y + "cm\" svg:width=\""@ + p.w + "cm\" svg:height=\""@,
        p.h,
    );
    lemma_no_lt_add(
        a1 + p.x + "cm\" svg:y=\""@ + p.y + "cm\" svg:width=\""@ + p.w + "cm\" svg:height=\""@ + p.h,
        "cm\""@,
    );
    lemma_no_lt_add(
        a1 + p.x + "cm\" svg:y=\""@ + p.y + "cm\" svg:width=\""@ + p.w + "cm\" svg:height=\""@ + p.h
            + "cm\""@,
        transform_xml(p),
    );
    lemma_no_lt_add(
        a1 + p.x + "cm\" svg:y=\""@ + p.y + "cm\" svg:width=\""@ + p.w + "cm\" svg:height=\""@ + p.h
            + "cm\""@ + transform_xml(p),
        ">\n    "@,
    );
}

/// The text that the import reads from the frame of an exported text (or
/// shape) element is the element's text, when every line of it is plain and
/// the placement's numbers hold no `<`.
pub proof fn lemma_text_frame_roundtrip<G>(el: Element<G>, files: Seq<OdtImageFile>, p: PlacementView)
    requires
        el.kind != ElementKind::Image,
        plain_text(el.text@),
        plain_placement(p),
    ensures
        text_of(frame_body(el, files, p)) == el.text@,
{
    reveal_strlit("<draw:text-box>");
    reveal_strlit("</draw:text-box>");
    reveal_strlit("\n   ");
    lemma_attribute_pieces();
    let lines = split_lines(el.text@);
    let attrs = frame_attrs(p);
    lemma_frame_attrs_plain(p);
    let tb_open = "<draw:text-box>"@;
    let tail = "</draw:text-box>"@ + "\n   "@;
    let paras = paragraphs_xml(lines);
    assert(frame_inner(el, files) == tb_open + paras + "</draw:text-box>"@);
    assert(frame_body(el, files, p) =~= attrs + (tb_open + (paras + tail)));
    // nothing is read from what follows the paragraphs
    assert forall|k: int| 1 <= k < tail.len() implies tail[k] != '<' by {}
    assert(!matches_at(tail, p_open(), 0)) by {
        assert(tail.subrange(0, 7)[1] == '/');
    }
    lemma_find_passes(tail, p_open(), 0, 1);
    lemma_find_none(tail, p_open(), 1, '<');
    assert(paragraphs(tail) == Seq::<Seq<char>>::empty());
    lemma_read_paragraphs(lines, tail);
    // nor from the opening of the text box
    assert forall|k: int| 0 <= k < tb_open.len() implies !matches_at(tb_open + (paras + tail), p_open(), k) by {
        let s = tb_open + (paras + tail);
        if k + 7 <= s.len() {
            if k == 0 {
                assert(s.subrange(0, 7)[1] == 'd');
            } else {
                assert(s.subrange(k, k + 7)[0] == tb_open[k]);
            }
        }
    }
    lemma_read_after(tb_open, paras + tail);
    // nor from the attributes
    lemma_no_open_in(attrs, tb_open + (paras + tail));
    lemma_read_after(attrs, tb_open + (paras + tail));
    lemma_join_split(el.text@);
}

/// Every character of `s` belongs to a number: a digit, `.` or `-`.
pub open spec fn numeric(s: Seq<char>) -> bool {
    forall|k: int| 0 <= k < s.len() ==> is_number_char(#[trigger] s[k])
}

/// The numbers of a placement are number texts.
pub open spec fn numeric_placement(p: PlacementView) -> bool {
    &&& numeric(p.x)
    &&& numeric(p.y)
    &&& numeric(p.w)
    &&& numeric(p.h)
    &&& (p.rotation matches Some((a, cx, cy)) ==> numeric(a) && numeric(cx) && numeric(cy))
}

/// `s` holds no `"`.
pub open spec fn no_quote(s: Seq<char>) -> bool {
    forall|k: int| 0 <= k < s.len() ==> s[k] != '"'
}

/// The attribute `key` is found where its first `key="` stands, and its
/// value runs to the next `"`.
proof fn lemma_attr_found(block: Seq<char>, key: Seq<char>, pre: Seq<char>, v: Seq<char>, post: Seq<char>)
    requires
        block == pre + (key + seq!['=', '"']) + v + seq!['"'] + post,
        forall|k: int| 0 <= k < pre.len() ==> !matches_at(block, key + seq!['=', '"'], k),
        no_quote(v),
    ensures
        attr_value(block, key) == Some(v),
{
    let needle = key + seq!['=', '"'];
    assert(block.subrange(pre.len() as int, (pre.len() + needle.len()) as int) =~= needle);
    lemma_find_at(block, needle, 0, pre.len() as int);
    let rest = block.skip((pre.len() + needle.len()) as int);
    assert(rest =~= v + seq!['"'] + post);
    assert forall|k: int| 0 <= k < v.len() implies !matches_at(rest, seq!['"'], k) by {
        assert(rest.subrange(k, k + 1)[0] == v[k]);
    }
    assert(rest.subrange(v.len() as int, v.len() + 1int) =~= seq!['"']);
    lemma_find_at(rest, seq!['"'], 0, v.len() as int);
    assert(rest.take(v.len() as int) =~= v);
}

/// A number text holds none of the characters that start or close an
/// attribute.
proof fn lemma_numeric_chars(s: Seq<char>)
    requires
        numeric(s),
    ensures
        no_quote(s),
        no_lt(s),
        forall|j: int| 0 <= j < s.len() ==> s[j] != 's' && s[j] != 'd' && s[j] != 'x' && s[j] != ' ',
{
    assert forall|j: int| 0 <= j < s.len() implies s[j] != 's' && s[j] != 'd' && s[j] != 'x' && s[j]
        != '"' && s[j] != '<' && s[j] != ' ' by {
        assert(is_number_char(s[j]));
    }
}

/// Where `block` differs from `needle` at its `i`-th character from `k`,
/// `needle` does not stand at `k`.
proof fn lemma_mismatch(block: Seq<char>, needle: Seq<char>, k: int, i: int)
    requires
        0 <= i < needle.len(),
        0 <= k,
        k + i < block.len(),
        block[k + i] != needle[i],
    ensures
        !matches_at(block, needle, k),
{
    if k + needle.len() <= block.len() {
        assert(block.subrange(k, k + needle.len())[i] == block[k + i]);
    }
}

/// `a` hides no `key="` from the search: at each of its places, it differs
/// from `key` at the first, the second, the fifth or the seventh character.
pub open spec fn passes(a: Seq<char>, key: Seq<char>) -> bool {
    forall|k: int|
        0 <= k < a.len() ==> #[trigger] a[k] != key[0] || (k + 1 < a.len() && a[k + 1] != key[1]) || (
        k + 4 < a.len() && a[k + 4] != key[4]) || (k + 6 < a.len() && 6 < key.len() && a[k + 6]
            != key[6])
}

/// Where no `key="` begins in `a`, what follows `a` decides the value read
/// for `key`.
proof fn lemma_attr_skip_nomatch(a: Seq<char>, b: Seq<char>, key: Seq<char>)
    requires
        forall|k: int| 0 <= k < a.len() ==> !matches_at(a + b, key + seq!['=', '"'], k),
    ensures
        attr_value(a + b, key) == attr_value(b, key),
{
    let s = a + b;
    let needle = key + seq!['=', '"'];
    lemma_find_passes(s, needle, 0, a.len() as int);
    lemma_find_skip(s, needle, a.len() as int, 0);
    assert(s.skip(a.len() as int) =~= b);
    lemma_find_from_bounds(b, needle, 0);
    match find(b, needle) {
        None => {},
        Some(st) => {
            assert(s.skip(a.len() + st + needle.len()) =~= b.skip(st + needle.len()));
        },
    }
}

/// What `a` passes, it does not change the value read for `key`.
proof fn lemma_attr_skip(a: Seq<char>, b: Seq<char>, key: Seq<char>)
    requires
        key.len() > 4,
        passes(a, key),
    ensures
        attr_value(a + b, key) == attr_value(b, key),
{
    let s = a + b;
    let needle = key + seq!['=', '"'];
    assert forall|k: int| 0 <= k < a.len() implies !matches_at(s, needle, k) by {
        if a[k] != key[0] {
            lemma_mismatch(s, needle, k, 0);
        } else if k + 1 < a.len() && a[k + 1] != key[1] {
            lemma_mismatch(s, needle, k, 1);
        } else if k + 4 < a.len() && a[k + 4] != key[4] {
            lemma_mismatch(s, needle, k, 4);
        } else {
            lemma_mismatch(s, needle, k, 6);
        }
    }
    lemma_attr_skip_nomatch(a, b, key);
}

/// A text without `"` that is followed by a tag hides no `key="`.
proof fn lemma_attr_skip_text(e: Seq<char>, b: Seq<char>, key: Seq<char>)
    requires
        no_quote(e),
        no_lt(key),
        b.len() > 0,
        b[0] == '<',
    ensures
        attr_value(e + b, key) == attr_value(b, key),
{
    let s = e + b;
    let needle = key + seq!['=', '"'];
    let n = needle.len() as int;
    assert forall|k: int| 0 <= k < e.len() implies !matches_at(s, needle, k) by {
        if k + n <= e.len() {
            lemma_mismatch(s, needle, k, n - 1);
        } else {
            lemma_mismatch(s, needle, k, e.len() - k);
        }
    }
    lemma_attr_skip_nomatch(e, b, key);
}

/// A part that hides no `key="` leaves nothing to read.
proof fn lemma_attr_none(a: Seq<char>, key: Seq<char>)
    requires
        key.len() > 4,
        passes(a, key),
    ensures
        attr_value(a, key) is None,
{
    lemma_attr_skip(a, Seq::empty(), key);
    assert(a + Seq::<char>::empty() =~= a);
}

/// A value that holds no `"` is read whole from the front.
proof fn lemma_attr_front(key: Seq<char>, v: Seq<char>, post: Seq<char>)
    requires
        no_quote(v),
    ensures
        attr_value(key + seq!['=', '"'] + v + seq!['"'] + post, key) == Some(v),
{
    let block = key + seq!['=', '"'] + v + seq!['"'] + post;
    assert(block =~= Seq::<char>::empty() + (key + seq!['=', '"']) + v + seq!['"'] + post);
    lemma_attr_found(block, key, Seq::empty(), v, post);
}

/// `="`, which opens an attribute's value.
pub open spec fn eq_quote() -> Seq<char> {
    seq!['=', '"']
}

/// `cm" `, which closes a length and leads to the next attribute.
pub open spec fn cm_next() -> Seq<char> {
    seq!['c', 'm', '"', ' ']
}

/// What opens a frame's attributes, up to the first position attribute.
pub open spec fn anchor() -> Seq<char> {
    seq![
        ' ', 't', 'e', 'x', 't', ':', 'a', 'n', 'c', 'h', 'o', 'r', '-', 't', 'y', 'p', 'e', '=',
        '"', 'p', 'a', 'g', 'e', '"', ' ',
    ]
}

/// The value of a length attribute and what leads to the next one.
pub open spec fn value_part(v: Seq<char>) -> Seq<char> {
    eq_quote() + v + cm_next()
}

/// A frame's body from its `svg:height` on; `rest` follows the height.
pub open spec fn height_tail(p: PlacementView, rest: Seq<char>) -> Seq<char> {
    "svg:height"@ + (eq_quote() + p.h + seq!['c', 'm', '"'] + rest)
}

/// A frame's body from its `svg:width` on.
pub open spec fn width_tail(p: PlacementView, rest: Seq<char>) -> Seq<char> {
    "svg:width"@ + (value_part(p.w) + height_tail(p, rest))
}

/// A frame's body from its `svg:y` on.
pub open spec fn y_tail(p: PlacementView, rest: Seq<char>) -> Seq<char> {
    "svg:y"@ + (value_part(p.y) + width_tail(p, rest))
}

/// A frame's body from its `svg:x` on.
pub open spec fn x_tail(p: PlacementView, rest: Seq<char>) -> Seq<char> {
    "svg:x"@ + (value_part(p.x) + y_tail(p, rest))
}

/// What follows a frame's height: its rotation, the end of its tag, its
/// content.
pub open spec fn frame_rest<G>(el: Element<G>, files: Seq<OdtImageFile>, p: PlacementView) -> Seq<
    char,
> {
    transform_xml(p) + ">\n    "@ + frame_inner(el, files) + "\n   "@
}

/// The literal pieces of a frame's position attributes, cut at the keys.
proof fn lemma_position_pieces()
    ensures
        " text:anchor-type=\"page\" svg:x=\""@ == anchor() + "svg:x"@ + eq_quote(),
        "cm\" svg:y=\""@ == cm_next() + "svg:y"@ + eq_quote(),
        "cm\" svg:width=\""@ == cm_next() + "svg:width"@ + eq_quote(),
        "cm\" svg:height=\""@ == cm_next() + "svg:height"@ + eq_quote(),
        "cm\""@ == seq!['c', 'm', '"'],
{
    reveal_strlit(" text:anchor-type=\"page\" svg:x=\"");
    reveal_strlit("svg:x");
    reveal_strlit("cm\" svg:y=\"");
    reveal_strlit("svg:y");
    reveal_strlit("cm\" svg:width=\"");
    reveal_strlit("svg:width");
    reveal_strlit("cm\" svg:height=\"");
    reveal_strlit("svg:height");
    reveal_strlit("cm\"");
    assert(" text:anchor-type=\"page\" svg:x=\""@ =~= anchor() + "svg:x"@ + eq_quote());
    assert("cm\" svg:y=\""@ =~= cm_next() + "svg:y"@ + eq_quote());
    assert("cm\" svg:width=\""@ =~= cm_next() + "svg:width"@ + eq_quote());
    assert("cm\" svg:height=\""@ =~= cm_next() + "svg:height"@ + eq_quote());
    assert("cm\""@ =~= seq!['c', 'm', '"']);
}

/// A frame's body, cut where the search for an attribute passes.
#[verifier::spinoff_prover]
#[verifier::rlimit(40)]
proof fn lemma_body_parts<G>(el: Element<G>, files: Seq<OdtImageFile>, p: PlacementView)
    ensures
        frame_body(el, files, p) == anchor() + x_tail(p, frame_rest(el, files, p)),
{
    lemma_position_pieces();
    let rest = frame_rest(el, files, p);
    let h = height_tail(p, rest);
    let w = width_tail(p, rest);
    let y = y_tail(p, rest);
    let x = x_tail(p, rest);
    let l1 = " text:anchor-type=\"page\" svg:x=\""@;
    let l2 = "cm\" svg:y=\""@;
    let l3 = "cm\" svg:width=\""@;
    let l4 = "cm\" svg:height=\""@;
    let tail = "cm\""@ + rest;
    assert(frame_body(el, files, p) =~= l1 + p.x + l2 + p.y + l3 + p.w + l4 + p.h + tail);
    assert(l4 + p.h + tail =~= cm_next() + h);
    assert(l3 + p.w + (cm_next() + h) =~= cm_next() + w);
    assert(l2 + p.y + (cm_next() + w) =~= cm_next() + y);
    assert(l1 + p.x + (cm_next() + y) =~= anchor() + x);
    assert(l1 + p.x + l2 + p.y + l3 + p.w + l4 + p.h + tail =~= l1 + p.x + (l2 + p.y + (l3 + p.w + (
    l4 + p.h + tail))));
}

/// The attribute keys that the import reads, letter by letter.
proof fn lemma_keys()
    ensures
        "svg:x"@ == seq!['s', 'v', 'g', ':', 'x'],
        "svg:y"@ == seq!['s', 'v', 'g', ':', 'y'],
        "svg:width"@ == seq!['s', 'v', 'g', ':', 'w', 'i', 'd', 't', 'h'],
        "svg:height"@ == seq!['s', 'v', 'g', ':', 'h', 'e', 'i', 'g', 'h', 't'],
        "draw:transform"@ == seq!['d', 'r', 'a', 'w', ':', 't', 'r', 'a', 'n', 's', 'f', 'o', 'r', 'm'],
        "xlink:href"@ == seq!['x', 'l', 'i', 'n', 'k', ':', 'h', 'r', 'e', 'f'],
        "cm"@ == seq!['c', 'm'],
{
    reveal_strlit("svg:x");
    reveal_strlit("svg:y");
    reveal_strlit("svg:width");
    reveal_strlit("svg:height");
    reveal_strlit("draw:transform");
    reveal_strlit("xlink:href");
    reveal_strlit("cm");
    assert("svg:x"@ =~= seq!['s', 'v', 'g', ':', 'x']);
    assert("svg:y"@ =~= seq!['s', 'v', 'g', ':', 'y']);
    assert("svg:width"@ =~= seq!['s', 'v', 'g', ':', 'w', 'i', 'd', 't', 'h']);
    assert("svg:height"@ =~= seq!['s', 'v', 'g', ':', 'h', 'e', 'i', 'g', 'h', 't']);
    assert("draw:transform"@ =~= seq!['d', 'r', 'a', 'w', ':', 't', 'r', 'a', 'n', 's', 'f', 'o', 'r', 'm']);
    assert("xlink:href"@ =~= seq!['x', 'l', 'i', 'n', 'k', ':', 'h', 'r', 'e', 'f']);
    assert("cm"@ =~= seq!['c', 'm']);
}

/// A length attribute at the front is read as its number and `cm`.
proof fn lemma_read_length(key: Seq<char>, v: Seq<char>, post: Seq<char>)
    requires
        numeric(v),
    ensures
        attr_value(key + (value_part(v) + post), key) == Some(v + seq!['c', 'm']),
{
    lemma_numeric_chars(v);
    let val = v + seq!['c', 'm'];
    assert(no_quote(val));
    assert(key + (value_part(v) + post) =~= key + eq_quote() + val + seq!['"'] + (seq![' '] + post));
    lemma_attr_front(key, val, seq![' '] + post);
}

/// The length part of a frame holds no key's first letter.
proof fn lemma_value_passes(v: Seq<char>, key: Seq<char>)
    requires
        numeric(v),
        key.len() > 4,
        key[0] == 's' || key[0] == 'd' || key[0] == 'x',
    ensures
        passes(value_part(v), key),
{
    lemma_numeric_chars(v);
}

/// The search for `svg:x` finds the frame's x position.
proof fn lemma_read_x(p: PlacementView, rest: Seq<char>)
    requires
        numeric(p.x),
    ensures
        attr_value(anchor() + x_tail(p, rest), "svg:x"@) == Some(p.x + seq!['c', 'm']),
{
    lemma_keys();
    lemma_attr_skip(anchor(), x_tail(p, rest), "svg:x"@);
    lemma_read_length("svg:x"@, p.x, y_tail(p, rest));
}

/// The search for `svg:y` finds the frame's y position.
proof fn lemma_read_y(p: PlacementView, rest: Seq<char>)
    requires
        numeric(p.x),
        numeric(p.y),
    ensures
        attr_value(anchor() + x_tail(p, rest), "svg:y"@) == Some(p.y + seq!['c', 'm']),
{
    let key = "svg:y"@;
    lemma_keys();
    lemma_attr_skip(anchor(), x_tail(p, rest), key);
    lemma_attr_skip("svg:x"@, value_part(p.x) + y_tail(p, rest), key);
    lemma_value_passes(p.x, key);
    lemma_attr_skip(value_part(p.x), y_tail(p, rest), key);
    lemma_read_length(key, p.y, width_tail(p, rest));
}

/// The search for `svg:width` finds the frame's width.
proof fn lemma_read_width(p: PlacementView, rest: Seq<char>)
    requires
        numeric(p.x),
        numeric(p.y),
        numeric(p.w),
    ensures
        attr_value(anchor() + x_tail(p, rest), "svg:width"@) == Some(p.w + seq!['c', 'm']),
{
    let key = "svg:width"@;
    lemma_keys();
    lemma_attr_skip(anchor(), x_tail(p, rest), key);
    lemma_attr_skip("svg:x"@, value_part(p.x) + y_tail(p, rest), key);
    lemma_value_passes(p.x, key);
    lemma_attr_skip(value_part(p.x), y_tail(p, rest), key);
    lemma_attr_skip("svg:y"@, value_part(p.y) + width_tail(p, rest), key);
    lemma_value_passes(p.y, key);
    lemma_attr_skip(value_part(p.y), width_tail(p, rest), key);
    lemma_read_length(key, p.w, height_tail(p, rest));
}

/// Skips the x, y and width attributes in the search for `key`.
proof fn lemma_skip_xyw(p: PlacementView, rest: Seq<char>, key: Seq<char>)
    requires
        numeric(p.x),
        numeric(p.y),
        numeric(p.w),
        key.len() > 4,
        key[0] == 's' || key[0] == 'd',
        key[4] != 'x' && key[4] != 'y' && key[4] != 'w',
        key[0] == 'd' ==> key[1] != 't',
    ensures
        attr_value(anchor() + x_tail(p, rest), key) == attr_value(height_tail(p, rest), key),
{
    lemma_keys();
    lemma_attr_skip(anchor(), x_tail(p, rest), key);
    lemma_attr_skip("svg:x"@, value_part(p.x) + y_tail(p, rest), key);
    lemma_value_passes(p.x, key);
    lemma_attr_skip(value_part(p.x), y_tail(p, rest), key);
    lemma_attr_skip("svg:y"@, value_part(p.y) + width_tail(p, rest), key);
    lemma_value_passes(p.y, key);
    lemma_attr_skip(value_part(p.y), width_tail(p, rest), key);
    lemma_attr_skip("svg:width"@, value_part(p.w) + height_tail(p, rest), key);
    lemma_value_passes(p.w, key);
    lemma_attr_skip(value_part(p.w), height_tail(p, rest), key);
}

/// The search for `svg:height` finds the frame's height.
proof fn lemma_read_height(p: PlacementView, rest: Seq<char>)
    requires
        numeric(p.x),
        numeric(p.y),
        numeric(p.w),
        numeric(p.h),
    ensures
        attr_value(anchor() + x_tail(p, rest), "svg:height"@) == Some(p.h + seq!['c', 'm']),
{
    let key = "svg:height"@;
    lemma_keys();
    lemma_skip_xyw(p, rest, key);
    lemma_numeric_chars(p.h);
    let val = p.h + seq!['c', 'm'];
    assert(no_quote(val));
    assert(height_tail(p, rest) =~= key + eq_quote() + val + seq!['"'] + rest);
    lemma_attr_front(key, val, rest);
}

/// The value of a frame's rotation attribute.
pub open spec fn rotate_value(a: Seq<char>, cx: Seq<char>, cy: Seq<char>) -> Seq<char> {
    "rotate ("@ + a + " "@ + cx + " "@ + cy + ")"@
}

/// The literal pieces of a rotation attribute.
proof fn lemma_rotate_pieces()
    ensures
        " draw:transform=\"rotate ("@ == seq![' '] + "draw:transform"@ + eq_quote() + "rotate ("@,
        ")\""@ == ")"@ + seq!['"'],
        "rotate ("@ == seq!['r', 'o', 't', 'a', 't', 'e', ' ', '('],
        " "@ == seq![' '],
        ")"@ == seq![')'],
{
    reveal_strlit(" draw:transform=\"rotate (");
    reveal_strlit("draw:transform");
    reveal_strlit("rotate (");
    reveal_strlit(")\"");
    reveal_strlit(")");
    reveal_strlit(" ");
    assert(" draw:transform=\"rotate ("@ =~= seq![' '] + "draw:transform"@ + eq_quote() + "rotate ("@);
    assert(")\""@ =~= ")"@ + seq!['"']);
    assert("rotate ("@ =~= seq!['r', 'o', 't', 'a', 't', 'e', ' ', '(']);
    assert(" "@ =~= seq![' ']);
    assert(")"@ =~= seq![')']);
}

/// The search for `draw:transform` finds the rotation of a rotated frame.
proof fn lemma_read_transform(p: PlacementView, post: Seq<char>, a: Seq<char>, cx: Seq<char>, cy: Seq<char>)
    requires
        numeric(p.x),
        numeric(p.y),
        numeric(p.w),
        numeric(p.h),
        numeric(a),
        numeric(cx),
        numeric(cy),
        p.rotation == Some((a, cx, cy)),
    ensures
        attr_value(anchor() + x_tail(p, transform_xml(p) + post), "draw:transform"@) == Some(
            rotate_value(a, cx, cy),
        ),
{
    let key = "draw:transform"@;
    let rest = transform_xml(p) + post;
    lemma_keys();
    lemma_rotate_pieces();
    lemma_skip_xyw(p, rest, key);
    lemma_attr_skip("svg:height"@, eq_quote() + p.h + seq!['c', 'm', '"'] + rest, key);
    lemma_numeric_chars(p.h);
    let hp = eq_quote() + p.h + seq!['c', 'm', '"', ' '];
    let v = rotate_value(a, cx, cy);
    let after = key + eq_quote() + v + seq!['"'] + post;
    assert(eq_quote() + p.h + seq!['c', 'm', '"'] + rest =~= hp + after);
    assert(passes(hp, key));
    lemma_attr_skip(hp, after, key);
    lemma_numeric_chars(a);
    lemma_numeric_chars(cx);
    lemma_numeric_chars(cy);
    assert(no_quote(v));
    lemma_attr_front(key, v, post);
}

/// The literal pieces around an image reference.
proof fn lemma_image_pieces()
    ensures
        "<draw:image xlink:href=\""@ == "<draw:image "@ + "xlink:href"@ + eq_quote(),
        "<draw:image "@ == seq!['<', 'd', 'r', 'a', 'w', ':', 'i', 'm', 'a', 'g', 'e', ' '],
        ">\n    "@ == seq!['>', '\n', ' ', ' ', ' ', ' '],
        "\" xlink:type=\"simple\" xlink:actuate=\"onLoad\"/>"@ == seq!['"']
            + "\" xlink:type=\"simple\" xlink:actuate=\"onLoad\"/>"@.skip(1),
{
    reveal_strlit("<draw:image xlink:href=\"");
    reveal_strlit("<draw:image ");
    reveal_strlit("xlink:href");
    reveal_strlit(">\n    ");
    reveal_strlit("\" xlink:type=\"simple\" xlink:actuate=\"onLoad\"/>");
    assert("<draw:image xlink:href=\""@ =~= "<draw:image "@ + "xlink:href"@ + eq_quote());
    assert("<draw:image "@ =~= seq!['<', 'd', 'r', 'a', 'w', ':', 'i', 'm', 'a', 'g', 'e', ' ']);
    assert(">\n    "@ =~= seq!['>', '\n', ' ', ' ', ' ', ' ']);
    assert("\" xlink:type=\"simple\" xlink:actuate=\"onLoad\"/>"@ =~= seq!['"']
        + "\" xlink:type=\"simple\" xlink:actuate=\"onLoad\"/>"@.skip(1));
}

/// A frame's rotation holds no `x`.
proof fn lemma_transform_passes(p: PlacementView, key: Seq<char>)
    requires
        numeric_placement(p),
        key.len() > 4,
        key[0] == 'x',
    ensures
        passes(transform_xml(p), key),
{
    lemma_keys();
    lemma_rotate_pieces();
    match p.rotation {
        None => {},
        Some((a, cx, cy)) => {
            lemma_numeric_chars(a);
            lemma_numeric_chars(cx);
            lemma_numeric_chars(cy);
        },
    }
}

/// The search for `xlink:href` in the frame of an image finds the name
/// of its picture file.
#[verifier::spinoff_prover]
proof fn lemma_read_href<G>(el: Element<G>, files: Seq<OdtImageFile>, p: PlacementView)
    requires
        el.kind == ElementKind::Image,
        numeric_placement(p),
        no_quote(href_of(el.id, files)),
    ensures
        attr_value(frame_body(el, files, p), "xlink:href"@) == Some(href_of(el.id, files)),
{
    let key = "xlink:href"@;
    let rest = frame_rest(el, files, p);
    let href = href_of(el.id, files);
    let l7 = "\" xlink:type=\"simple\" xlink:actuate=\"onLoad\"/>"@;
    let post = l7.skip(1) + "\n   "@;
    lemma_keys();
    lemma_image_pieces();
    lemma_body_parts(el, files, p);
    lemma_attr_skip(anchor(), x_tail(p, rest), key);
    assert(x_tail(p, rest) =~= ("svg:x"@ + value_part(p.x)) + y_tail(p, rest));
    lemma_numeric_chars(p.x);
    assert(passes("svg:x"@ + value_part(p.x), key));
    lemma_attr_skip("svg:x"@ + value_part(p.x), y_tail(p, rest), key);
    lemma_attr_skip("svg:y"@, value_part(p.y) + width_tail(p, rest), key);
    lemma_value_passes(p.y, key);
    lemma_attr_skip(value_part(p.y), width_tail(p, rest), key);
    lemma_attr_skip("svg:width"@, value_part(p.w) + height_tail(p, rest), key);
    lemma_value_passes(p.w, key);
    lemma_attr_skip(value_part(p.w), height_tail(p, rest), key);
    let hq = eq_quote() + p.h + seq!['c', 'm', '"'];
    lemma_attr_skip("svg:height"@, hq + rest, key);
    lemma_numeric_chars(p.h);
    assert(passes(hq, key));
    let img = key + eq_quote() + href + seq!['"'] + post;
    let after_t = ">\n    "@ + ("<draw:image "@ + img);
    assert(rest =~= transform_xml(p) + after_t);
    lemma_attr_skip(hq, rest, key);
    lemma_transform_passes(p, key);
    lemma_attr_skip(transform_xml(p), after_t, key);
    lemma_attr_skip(">\n    "@, "<draw:image "@ + img, key);
    lemma_attr_skip("<draw:image "@, img, key);
    lemma_attr_front(key, href, post);
}

/// The leading number of a number text followed by something else is that
/// text.
proof fn lemma_number_prefix(v: Seq<char>, post: Seq<char>)
    requires
        numeric(v),
        post.len() == 0 || !is_number_char(post[0]),
    ensures
        number_prefix(v + post) == v,
    decreases v.len(),
{
    if v.len() == 0 {
        assert(v + post =~= post);
    } else {
        assert((v + post).skip(1) =~= v.skip(1) + post);
        lemma_number_prefix(v.skip(1), post);
        assert(v =~= seq![v[0]] + v.skip(1));
    }
}

/// The leading word of a word followed by white space is that word.
proof fn lemma_word_prefix(v: Seq<char>, post: Seq<char>)
    requires
        forall|k: int| 0 <= k < v.len() ==> !is_white(#[trigger] v[k]),
        post.len() > 0,
        is_white(post[0]),
    ensures
        word_prefix(v + post) == v,
    decreases v.len(),
{
    if v.len() == 0 {
        assert(v + post =~= post);
    } else {
        assert((v + post).skip(1) =~= v.skip(1) + post);
        lemma_word_prefix(v.skip(1), post);
        assert(v =~= seq![v[0]] + v.skip(1));
    }
}

/// A length written as a number text and `cm` is read back as that number
/// text, marked as centimetres.
pub proof fn lemma_length_roundtrip(v: Seq<char>)
    requires
        numeric(v),
    ensures
        number_prefix(v + "cm"@) == v,
        find(v + "cm"@, seq!['c', 'm']) == Some(v.len() as int),
{
    lemma_keys();
    lemma_number_prefix(v, seq!['c', 'm']);
    let s = v + seq!['c', 'm'];
    lemma_numeric_chars(v);
    assert(s.subrange(v.len() as int, v.len() + 2int) =~= seq!['c', 'm']);
    assert forall|k: int| 0 <= k < v.len() implies !matches_at(s, seq!['c', 'm'], k) by {
        assert(is_number_char(v[k]));
        lemma_mismatch(s, seq!['c', 'm'], k, 0);
    }
    lemma_find_at(s, seq!['c', 'm'], 0, v.len() as int);
}

/// A rotation written as `rotate (a cx cy)` is read back as its angle text.
pub proof fn lemma_rotate_roundtrip(a: Seq<char>, cx: Seq<char>, cy: Seq<char>)
    requires
        numeric(a),
        numeric(cx),
        numeric(cy),
        a.len() > 0,
    ensures
        rotate_arg(rotate_value(a, cx, cy)) == Some(a),
{
    lemma_rotate_pieces();
    lemma_numeric_chars(a);
    lemma_numeric_chars(cx);
    lemma_numeric_chars(cy);
    let rot = seq!['r', 'o', 't', 'a', 't', 'e'];
    let tail = seq![' '] + cx + seq![' '] + cy;
    let tf = rotate_value(a, cx, cy);
    assert(tf =~= seq!['r', 'o', 't', 'a', 't', 'e', ' ', '('] + (a + tail + seq![')']));
    assert(tf.subrange(0, 6) =~= rot);
    lemma_find_at(tf, rot, 0, 0);
    assert(tf.skip(0) =~= tf);
    assert(tf.subrange(7, 8) =~= seq!['(']);
    assert forall|k: int| 0 <= k < 7 implies !matches_at(tf, seq!['('], k) by {
        lemma_mismatch(tf, seq!['('], k, 0);
    }
    lemma_find_at(tf, seq!['('], 0, 7);
    let after = tf.skip(8);
    assert(after =~= a + tail + seq![')']);
    let close = (a.len() + tail.len()) as int;
    assert(after.subrange(close, close + 1) =~= seq![')']);
    assert forall|k: int| 0 <= k < close implies !matches_at(after, seq![')'], k) by {
        if k < a.len() {
            assert(is_number_char(a[k]));
        }
        lemma_mismatch(after, seq![')'], k, 0);
    }
    lemma_find_at(after, seq![')'], 0, close);
    let w = after.take(close);
    assert(w =~= a + tail);
    assert forall|k: int| 0 <= k < a.len() implies !is_white(#[trigger] a[k]) by {
        assert(is_number_char(a[k]));
    }
    assert(!is_white(w[0]));
    assert(trim_start(w) == w);
    lemma_word_prefix(a, tail);
}

/// The import reads back from the frame of an exported element the
/// position and size it was placed with, each as its number text and `cm`,
/// the rotation of a rotated element, and for an image the name of its
/// picture file: whenever the placement's numbers are number texts, and the
/// picture's name holds no `"`.
pub proof fn lemma_frame_placement_roundtrip<G>(el: Element<G>, files: Seq<OdtImageFile>, p: PlacementView)
    requires
        numeric_placement(p),
        el.kind == ElementKind::Image ==> no_quote(href_of(el.id, files)),
    ensures
        attr_value(frame_body(el, files, p), "svg:x"@) == Some(p.x + "cm"@),
        attr_value(frame_body(el, files, p), "svg:y"@) == Some(p.y + "cm"@),
        attr_value(frame_body(el, files, p), "svg:width"@) == Some(p.w + "cm"@),
        attr_value(frame_body(el, files, p), "svg:height"@) == Some(p.h + "cm"@),
        p.rotation matches Some((a, cx, cy)) ==> attr_value(frame_body(el, files, p), "draw:transform"@)
            == Some(rotate_value(a, cx, cy)),
        el.kind == ElementKind::Image ==> attr_value(frame_body(el, files, p), "xlink:href"@) == Some(
            href_of(el.id, files),
        ),
{
    let rest = frame_rest(el, files, p);
    lemma_keys();
    lemma_body_parts(el, files, p);
    lemma_read_x(p, rest);
    lemma_read_y(p, rest);
    lemma_read_width(p, rest);
    lemma_read_height(p, rest);
    match p.rotation {
        None => {},
        Some((a, cx, cy)) => {
            let post = ">\n    "@ + frame_inner(el, files) + "\n   "@;
            assert(rest =~= transform_xml(p) + post);
            lemma_read_transform(p, post, a, cx, cy);
        },
    }
    if el.kind == ElementKind::Image {
        lemma_read_href(el, files, p);
    }
}

/// Escaping brings in no `"`.
proof fn lemma_escaped_no_quote(s: Seq<char>)
    requires
        no_quote(s),
    ensures
        no_quote(escaped(s)),
    decreases s.len(),
{
    if s.len() > 0 {
        lemma_escaped_no_quote(s.skip(1));
        let c = s[0];
        let e = escape_char(c);
        let r = escaped(s.skip(1));
        assert(no_quote(e));
        assert forall|k: int| 0 <= k < (e + r).len() implies (e + r)[k] != '"' by {
            if k >= e.len() {
                assert((e + r)[k] == r[k - e.len()]);
            }
        }
    }
}

/// The lines of a text without `"` hold no `"`.
proof fn lemma_lines_no_quote(t: Seq<char>)
    requires
        no_quote(t),
    ensures
        forall|i: int| 0 <= i < split_lines(t).len() ==> no_quote(#[trigger] split_lines(t)[i]),
    decreases t.len(),
{
    lemma_find_from_bounds(t, seq!['\n'], 0);
    match find(t, seq!['\n']) {
        None => {},
        Some(p) => {
            let rest = t.skip(p + 1);
            lemma_lines_no_quote(rest);
            let lines = split_lines(t);
            assert forall|i: int| 0 <= i < lines.len() implies no_quote(#[trigger] lines[i]) by {
                if i > 0 {
                    assert(lines[i] == split_lines(rest)[i - 1]);
                }
            }
        },
    }
}

/// The tags of a paragraph, letter by letter.
proof fn lemma_paragraph_tags()
    ensures
        "<text:p text:style-name=\"Standard\"/>"@ == seq![
            '<', 't', 'e', 'x', 't', ':', 'p', ' ', 't', 'e', 'x', 't', ':', 's', 't', 'y', 'l', 'e',
            '-', 'n', 'a', 'm', 'e', '=', '"', 'S', 't', 'a', 'n', 'd', 'a', 'r', 'd', '"', '/', '>',
        ],
        "<text:p text:style-name=\"Standard\">"@ == seq![
            '<', 't', 'e', 'x', 't', ':', 'p', ' ', 't', 'e', 'x', 't', ':', 's', 't', 'y', 'l', 'e',
            '-', 'n', 'a', 'm', 'e', '=', '"', 'S', 't', 'a', 'n', 'd', 'a', 'r', 'd', '"', '>',
        ],
        "</text:p>"@ == seq!['<', '/', 't', 'e', 'x', 't', ':', 'p', '>'],
{
    reveal_strlit("<text:p text:style-name=\"Standard\"/>");
    reveal_strlit("<text:p text:style-name=\"Standard\">");
    reveal_strlit("</text:p>");
    assert("<text:p text:style-name=\"Standard\"/>"@ =~= seq![
        '<', 't', 'e', 'x', 't', ':', 'p', ' ', 't', 'e', 'x', 't', ':', 's', 't', 'y', 'l', 'e',
        '-', 'n', 'a', 'm', 'e', '=', '"', 'S', 't', 'a', 'n', 'd', 'a', 'r', 'd', '"', '/', '>',
    ]);
    assert("<text:p text:style-name=\"Standard\">"@ =~= seq![
        '<', 't', 'e', 'x', 't', ':', 'p', ' ', 't', 'e', 'x', 't', ':', 's', 't', 'y', 'l', 'e',
        '-', 'n', 'a', 'm', 'e', '=', '"', 'S', 't', 'a', 'n', 'd', 'a', 'r', 'd', '"', '>',
    ]);
    assert("</text:p>"@ =~= seq!['<', '/', 't', 'e', 'x', 't', ':', 'p', '>']);
}

/// The keys whose values could be mistaken in a text box: the rotation and
/// the picture.
pub open spec fn frame_key(key: Seq<char>) -> bool {
    key == "draw:transform"@ || key == "xlink:href"@
}

/// A paragraph without `"` hides no rotation or picture attribute.
proof fn lemma_paragraph_skip(l: Seq<char>, b: Seq<char>, key: Seq<char>)
    requires
        no_quote(l),
        frame_key(key),
    ensures
        attr_value(paragraph_xml(l) + b, key) == attr_value(b, key),
{
    lemma_keys();
    lemma_paragraph_tags();
    assert(no_lt(key));
    if l.len() == 0 {
        lemma_attr_skip(paragraph_xml(l), b, key);
    } else {
        let open = "<text:p text:style-name=\"Standard\">"@;
        let close = "</text:p>"@;
        let e = escaped(l);
        assert(paragraph_xml(l) + b =~= open + (e + (close + b)));
        lemma_attr_skip(open, e + (close + b), key);
        lemma_escaped_no_quote(l);
        lemma_attr_skip_text(e, close + b, key);
        lemma_attr_skip(close, b, key);
    }
}

/// Paragraphs without `"` hide no rotation or picture attribute.
proof fn lemma_paragraphs_skip(lines: Seq<Seq<char>>, b: Seq<char>, key: Seq<char>)
    requires
        forall|i: int| 0 <= i < lines.len() ==> no_quote(#[trigger] lines[i]),
        frame_key(key),
    ensures
        attr_value(paragraphs_xml(lines) + b, key) == attr_value(b, key),
    decreases lines.len(),
{
    if lines.len() == 0 {
        assert(paragraphs_xml(lines) + b =~= b);
    } else {
        let init = lines.drop_last();
        let last = paragraph_xml(lines.last());
        assert(paragraphs_xml(lines) + b =~= paragraphs_xml(init) + (last + b));
        assert forall|i: int| 0 <= i < init.len() implies no_quote(#[trigger] init[i]) by {
            assert(init[i] == lines[i]);
        }
        lemma_paragraphs_skip(init, last + b, key);
        lemma_paragraph_skip(lines.last(), b, key);
    }
}

/// The text box of a text without `"`, from the end of the frame's tag on,
/// holds no rotation or picture attribute.
proof fn lemma_text_box_none<G>(el: Element<G>, files: Seq<OdtImageFile>, key: Seq<char>)
    requires
        el.kind != ElementKind::Image,
        no_quote(el.text@),
        frame_key(key),
    ensures
        attr_value(">\n    "@ + frame_inner(el, files) + "\n   "@, key) is None,
{
    let lines = split_lines(el.text@);
    let open = "<draw:text-box>"@;
    let tail = "</draw:text-box>"@ + "\n   "@;
    reveal_strlit("<draw:text-box>");
    reveal_strlit("</draw:text-box>");
    reveal_strlit("\n   ");
    reveal_strlit(">\n    ");
    lemma_keys();
    assert(open =~= seq!['<', 'd', 'r', 'a', 'w', ':', 't', 'e', 'x', 't', '-', 'b', 'o', 'x', '>']);
    assert(tail =~= seq![
        '<', '/', 'd', 'r', 'a', 'w', ':', 't', 'e', 'x', 't', '-', 'b', 'o', 'x', '>', '\n', ' ',
        ' ', ' ',
    ]);
    assert(">\n    "@ =~= seq!['>', '\n', ' ', ' ', ' ', ' ']);
    assert(">\n    "@ + frame_inner(el, files) + "\n   "@ =~= ">\n    "@ + (open + (paragraphs_xml(
        lines,
    ) + tail)));
    lemma_attr_skip(">\n    "@, open + (paragraphs_xml(lines) + tail), key);
    lemma_attr_skip(open, paragraphs_xml(lines) + tail, key);
    lemma_lines_no_quote(el.text@);
    lemma_paragraphs_skip(lines, tail, key);
    lemma_attr_none(tail, key);
}

/// The import reads no picture from the frame of an exported text (or
/// shape) element, and no rotation when the element is not rotated, as
/// long as its text holds no `"`.
pub proof fn lemma_text_frame_plain<G>(el: Element<G>, files: Seq<OdtImageFile>, p: PlacementView)
    requires
        el.kind != ElementKind::Image,
        no_quote(el.text@),
        numeric_placement(p),
    ensures
        attr_value(frame_body(el, files, p), "xlink:href"@) is None,
        p.rotation is None ==> attr_value(frame_body(el, files, p), "draw:transform"@) is None,
{
    let rest = frame_rest(el, files, p);
    let post = ">\n    "@ + frame_inner(el, files) + "\n   "@;
    let hq = eq_quote() + p.h + seq!['c', 'm', '"'];
    lemma_keys();
    lemma_body_parts(el, files, p);
    assert(rest =~= transform_xml(p) + post);
    lemma_numeric_chars(p.h);
    // the picture
    let key = "xlink:href"@;
    lemma_attr_skip(anchor(), x_tail(p, rest), key);
    assert(x_tail(p, rest) =~= ("svg:x"@ + value_part(p.x)) + y_tail(p, rest));
    lemma_numeric_chars(p.x);
    assert(passes("svg:x"@ + value_part(p.x), key));
    lemma_attr_skip("svg:x"@ + value_part(p.x), y_tail(p, rest), key);
    lemma_attr_skip("svg:y"@, value_part(p.y) + width_tail(p, rest), key);
    lemma_value_passes(p.y, key);
    lemma_attr_skip(value_part(p.y), width_tail(p, rest), key);
    lemma_attr_skip("svg:width"@, value_part(p.w) + height_tail(p, rest), key);
    lemma_value_passes(p.w, key);
    lemma_attr_skip(value_part(p.w), height_tail(p, rest), key);
    lemma_attr_skip("svg:height"@, hq + rest, key);
    assert(passes(hq, key));
    assert(hq + rest =~= hq + (transform_xml(p) + post));
    lemma_attr_skip(hq, transform_xml(p) + post, key);
    lemma_transform_passes(p, key);
    lemma_attr_skip(transform_xml(p), post, key);
    lemma_text_box_none(el, files, key);
    // the rotation
    if p.rotation is None {
        let tkey = "draw:transform"@;
        lemma_skip_xyw(p, rest, tkey);
        lemma_attr_skip("svg:height"@, hq + rest, tkey);
        assert(passes(hq, tkey));
        assert(rest =~= post);
        lemma_attr_skip(hq, post, tkey);
        lemma_text_box_none(el, files, tkey);
    }
}

/// `s` holds no `c`.
pub open spec fn lacks(s: Seq<char>, c: char) -> bool {
    forall|k: int| 0 <= k < s.len() ==> s[k] != c
}

/// The import reads no rotation from the frame of an exported image that is
/// not rotated, as long as its picture's name holds no `d` (the export's
/// picture names hold none).
pub proof fn lemma_image_frame_unrotated<G>(el: Element<G>, files: Seq<OdtImageFile>, p: PlacementView)
    requires
        el.kind == ElementKind::Image,
        numeric_placement(p),
        p.rotation is None,
        lacks(href_of(el.id, files), 'd'),
    ensures
        attr_value(frame_body(el, files, p), "draw:transform"@) is None,
{
    let key = "draw:transform"@;
    let rest = frame_rest(el, files, p);
    let hq = eq_quote() + p.h + seq!['c', 'm', '"'];
    let img = "<draw:image xlink:href=\""@;
    let href = href_of(el.id, files);
    let close = "\" xlink:type=\"simple\" xlink:actuate=\"onLoad\"/>"@ + "\n   "@;
    reveal_strlit("<draw:image xlink:href=\"");
    reveal_strlit("\" xlink:type=\"simple\" xlink:actuate=\"onLoad\"/>");
    reveal_strlit("\n   ");
    reveal_strlit(">\n    ");
    lemma_keys();
    lemma_body_parts(el, files, p);
    lemma_numeric_chars(p.h);
    lemma_skip_xyw(p, rest, key);
    lemma_attr_skip("svg:height"@, hq + rest, key);
    assert(passes(hq, key));
    assert(rest =~= ">\n    "@ + (img + (href + close)));
    lemma_attr_skip(hq, rest, key);
    assert(">\n    "@ =~= seq!['>', '\n', ' ', ' ', ' ', ' ']);
    lemma_attr_skip(">\n    "@, img + (href + close), key);
    assert(img =~= seq![
        '<', 'd', 'r', 'a', 'w', ':', 'i', 'm', 'a', 'g', 'e', ' ', 'x', 'l', 'i', 'n', 'k', ':',
        'h', 'r', 'e', 'f', '=', '"',
    ]);
    lemma_attr_skip(img, href + close, key);
    lemma_attr_skip(href, close, key);
    assert(close =~= seq![
            '"', ' ', 'x', 'l', 'i', 'n', 'k', ':', 't', 'y', 'p', 'e', '=', '"', 's', 'i', 'm', 'p',
            'l', 'e', '"', ' ', 'x', 'l', 'i', 'n', 'k', ':', 'a', 'c', 't', 'u', 'a', 't', 'e', '=',
            '"', 'o', 'n', 'L', 'o', 'a', 'd', '"', '/', '>',
        ] + seq!['\n', ' ', ' ', ' ']);
    lemma_attr_none(close, key);
}

} // verus!
