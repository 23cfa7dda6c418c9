//! Small string helpers: character vectors, decimal numbers.
use vstd::prelude::*;

verus! {

/// Appends one character to a string (`String::push`).
#[verifier::external_body]
pub(crate) fn push_char(s: &mut String, c: char)
    ensures
        final(s)@ == old(s)@.push(c),
{
    s.push(c);
}

/// The characters of a string.
pub fn chars_of(s: &str) -> (r: Vec<char>)
    ensures
        r@ == s@,
{
    let mut r: Vec<char> = Vec::new();
    for c in it: s.chars()
        invariant
            it.seq() == s@,
            r@ == s@.take(it.index() as int),
    {
        r.push(c);
        assert(r@ =~= s@.take(it.index() + 1));
    }
    assert(r@ =~= s@);
    r
}

/// A string holding exactly the given characters.
pub fn string_of(chars: &[char]) -> (r: String)
    ensures
        r@ == chars@,
{
    let mut r = String::new();
    let mut i: usize = 0;
    while i < chars.len()
        invariant
            i <= chars@.len(),
            r@ == chars@.take(i as int),
        decreases chars@.len() - i,
    {
        push_char(&mut r, chars[i]);
        i = i + 1;
        assert(r@ =~= chars@.take(i as int));
    }
    assert(chars@.take(chars@.len() as int) =~= chars@);
    r
}

/// Appends a string slice.
pub fn push_str(s: &mut String, t: &str)
    ensures
        final(s)@ == old(s)@ + t@,
{
    let cs = chars_of(t);
    let mut i: usize = 0;
    while i < cs.len()
        invariant
            i <= cs@.len(),
            cs@ == t@,
            s@ == old(s)@ + t@.take(i as int),
        decreases cs@.len() - i,
    {
        push_char(s, cs[i]);
        i = i + 1;
        assert(s@ =~= old(s)@ + t@.take(i as int));
    }
    assert(t@.take(t@.len() as int) =~= t@);
}

/// The decimal digit for `d` (0..=9).
pub open spec fn digit_char(d: nat) -> char {
    if d == 0 { '0' }
    else if d == 1 { '1' }
    else if d == 2 { '2' }
    else if d == 3 { '3' }
    else if d == 4 { '4' }
    else if d == 5 { '5' }
    else if d == 6 { '6' }
    else if d == 7 { '7' }
    else if d == 8 { '8' }
    else { '9' }
}

/// The decimal notation of a natural number, without leading zeros.
pub open spec fn decimal(n: nat) -> Seq<char>
    decreases n,
{
    if n < 10 {
        seq![digit_char(n)]
    } else {
        decimal(n / 10).push(digit_char(n % 10))
    }
}

fn digit(d: u64) -> (c: char)
    requires
        d < 10,
    ensures
        c == digit_char(d as nat),
{
    if d == 0 { '0' }
    else if d == 1 { '1' }
    else if d == 2 { '2' }
    else if d == 3 { '3' }
    else if d == 4 { '4' }
    else if d == 5 { '5' }
    else if d == 6 { '6' }
    else if d == 7 { '7' }
    else if d == 8 { '8' }
    else { '9' }
}

/// Appends the decimal notation of `n`.
pub fn push_decimal(s: &mut String, n: u64)
    ensures
        final(s)@ == old(s)@ + decimal(n as nat),
    decreases n,
{
    if n >= 10 {
        push_decimal(s, n / 10);
    }
    push_char(s, digit(n % 10));
    assert(s@ =~= old(s)@ + decimal(n as nat)) by {
        if n >= 10 {
            assert(decimal(n as nat) == decimal((n / 10) as nat).push(digit_char((n % 10) as nat)));
        }
    }
}

/// `pat` occurs in `s` at position `i`.
pub open spec fn matches_at(s: Seq<char>, pat: Seq<char>, i: int) -> bool {
    0 <= i && i + pat.len() <= s.len() && s.subrange(i, i + pat.len()) == pat
}

/// The first position at or after `i` where `pat` occurs in `s`.
pub open spec fn find_from(s: Seq<char>, pat: Seq<char>, i: int) -> Option<int>
    decreases s.len() + 1 - i,
{
    if i < 0 || i + pat.len() > s.len() {
        None
    } else if matches_at(s, pat, i) {
        Some(i)
    } else {
        find_from(s, pat, i + 1)
    }
}

/// The first position where `pat` occurs in `s` (what `str::find` gives,
/// counted in characters).
pub open spec fn find(s: Seq<char>, pat: Seq<char>) -> Option<int> {
    find_from(s, pat, 0)
}

pub proof fn lemma_find_from_bounds(s: Seq<char>, pat: Seq<char>, i: int)
    ensures
        find_from(s, pat, i) matches Some(j) ==> i <= j && j + pat.len() <= s.len() && matches_at(
            s,
            pat,
            j,
        ),
    decreases s.len() + 1 - i,
{
    if i < 0 || i + pat.len() > s.len() {
    } else if matches_at(s, pat, i) {
    } else {
        lemma_find_from_bounds(s, pat, i + 1);
    }
}

/// Whether `pat` occurs in `s` at position `i`.
fn matches_at_exec(s: &Vec<char>, pat: &Vec<char>, i: usize) -> (r: bool)
    requires
        i + pat@.len() <= s@.len(),
    ensures
        r == matches_at(s@, pat@, i as int),
{
    let mut k: usize = 0;
    let n = s.len();
    while k < pat.len()
        invariant
            k <= pat@.len(),
            n == s@.len(),
            i + pat@.len() <= s@.len(),
            forall|t: int| 0 <= t < k ==> s@[i + t] == pat@[t],
        decreases pat@.len() - k,
    {
        if s[i + k] != pat[k] {
            assert(s@.subrange(i as int, i + pat@.len())[k as int] != pat@[k as int]);
            return false;
        }
        k = k + 1;
    }
    assert(s@.subrange(i as int, i + pat@.len()) =~= pat@);
    true
}

/// The first position at or after `from` where `pat` occurs in `s`.
pub fn find_chars(s: &Vec<char>, pat: &Vec<char>, from: usize) -> (r: Option<usize>)
    ensures
        match r {
            Some(j) => find_from(s@, pat@, from as int) == Some(j as int),
            None => find_from(s@, pat@, from as int) is None,
        },
{
    if pat.len() > s.len() || from > s.len() - pat.len() {
        return None;
    }
    let mut i = from;
    while i <= s.len() - pat.len()
        invariant
            from <= i,
            pat@.len() <= s@.len(),
            find_from(s@, pat@, from as int) == find_from(s@, pat@, i as int),
        decreases s@.len() - i,
    {
        if matches_at_exec(s, pat, i) {
            return Some(i);
        }
        if i == s.len() - pat.len() {
            assert(find_from(s@, pat@, i + 1) is None);
            return None;
        }
        i = i + 1;
    }
    None
}

/// `c` is a white-space character (the Unicode `White_Space` property,
/// as `char::is_whitespace` defines it).
pub open spec fn is_white(c: char) -> bool {
    ||| ('\u{9}' <= c && c <= '\u{d}')
    ||| c == ' '
    ||| c == '\u{85}'
    ||| c == '\u{a0}'
    ||| c == '\u{1680}'
    ||| ('\u{2000}' <= c && c <= '\u{200a}')
    ||| c == '\u{2028}'
    ||| c == '\u{2029}'
    ||| c == '\u{202f}'
    ||| c == '\u{205f}'
    ||| c == '\u{3000}'
}

pub fn white(c: char) -> (r: bool)
    ensures
        r == is_white(c),
{
    ('\u{9}' <= c && c <= '\u{d}') || c == ' ' || c == '\u{85}' || c == '\u{a0}' || c == '\u{1680}'
        || ('\u{2000}' <= c && c <= '\u{200a}') || c == '\u{2028}' || c == '\u{2029}' || c
        == '\u{202f}' || c == '\u{205f}' || c == '\u{3000}'
}

/// `s` without leading white space.
pub open spec fn trim_start(s: Seq<char>) -> Seq<char>
    decreases s.len(),
{
    if s.len() > 0 && is_white(s[0]) {
        trim_start(s.skip(1))
    } else {
        s
    }
}

/// `s` without trailing white space.
pub open spec fn trim_end(s: Seq<char>) -> Seq<char>
    decreases s.len(),
{
    if s.len() > 0 && is_white(s.last()) {
        trim_end(s.drop_last())
    } else {
        s
    }
}

/// `s` without leading and trailing white space (`str::trim`).
pub open spec fn trim(s: Seq<char>) -> Seq<char> {
    trim_end(trim_start(s))
}

/// The range `[a, b)` of `s` that `trim` keeps.
pub fn trim_range(s: &Vec<char>, from: usize, to: usize) -> (r: (usize, usize))
    requires
        from <= to <= s@.len(),
    ensures
        from <= r.0 <= r.1 <= to,
        s@.subrange(r.0 as int, r.1 as int) == trim(s@.subrange(from as int, to as int)),
{
    let mut a = from;
    while a < to && white(s[a])
        invariant
            from <= a <= to <= s@.len(),
            trim_start(s@.subrange(a as int, to as int)) == trim_start(s@.subrange(from as int, to as int)),
        decreases to - a,
    {
        assert(s@.subrange(a as int, to as int).skip(1) =~= s@.subrange(a + 1, to as int));
        a = a + 1;
    }
    let mut b = to;
    while b > a && white(s[b - 1])
        invariant
            a <= b <= to,
            to <= s@.len(),
            trim_end(s@.subrange(a as int, b as int)) == trim_end(s@.subrange(a as int, to as int)),
        decreases b - a,
    {
        assert(s@.subrange(a as int, b as int).drop_last() =~= s@.subrange(a as int, b - 1));
        b = b - 1;
    }
    (a, b)
}

/// The pieces joined, with `sep` between neighbours.
pub open spec fn join(pieces: Seq<Seq<char>>, sep: Seq<char>) -> Seq<char>
    decreases pieces.len(),
{
    if pieces.len() == 0 {
        Seq::empty()
    } else if pieces.len() == 1 {
        pieces[0]
    } else {
        join(pieces.drop_last(), sep) + sep + pieces.last()
    }
}

/// Appends the characters `s[a..b]`.
pub fn push_range(out: &mut String, s: &Vec<char>, a: usize, b: usize)
    requires
        a <= b <= s@.len(),
    ensures
        final(out)@ == old(out)@ + s@.subrange(a as int, b as int),
{
    let mut i = a;
    while i < b
        invariant
            a <= i <= b <= s@.len(),
            out@ == old(out)@ + s@.subrange(a as int, i as int),
        decreases b - i,
    {
        push_char(out, s[i]);
        i = i + 1;
        assert(out@ =~= old(out)@ + s@.subrange(a as int, i as int));
    }
}

/// Searching a suffix is searching the whole text further on.
pub proof fn lemma_find_skip(s: Seq<char>, pat: Seq<char>, k: int, i: int)
    requires
        0 <= k <= s.len(),
        0 <= i,
    ensures
        find_from(s.skip(k), pat, i) == (match find_from(s, pat, i + k) {
            Some(j) => Some(j - k),
            None => None,
        }),
    decreases s.len() + 1 - (i + k),
{
    let t = s.skip(k);
    if i + pat.len() > t.len() {
    } else {
        assert(t.subrange(i, i + pat.len()) =~= s.subrange(i + k, i + k + pat.len()));
        if matches_at(t, pat, i) {
        } else {
            lemma_find_skip(s, pat, k, i + 1);
        }
    }
}

/// The search from `i` passes over positions where `pat` does not occur.
pub proof fn lemma_find_passes(s: Seq<char>, pat: Seq<char>, i: int, j: int)
    requires
        0 <= i <= j,
        forall|k: int| i <= k < j ==> !matches_at(s, pat, k),
    ensures
        find_from(s, pat, i) == find_from(s, pat, j),
    decreases j - i,
{
    if i < j {
        lemma_find_passes(s, pat, i + 1, j);
    }
}

/// Where `pat` first occurs at or after `i`, the search finds it.
pub proof fn lemma_find_at(s: Seq<char>, pat: Seq<char>, i: int, j: int)
    requires
        0 <= i <= j,
        matches_at(s, pat, j),
        forall|k: int| i <= k < j ==> !matches_at(s, pat, k),
    ensures
        find_from(s, pat, i) == Some(j),
{
    lemma_find_passes(s, pat, i, j);
}

/// A pattern that starts with `c` is not found where no `c` occurs from `i`
/// on.
pub proof fn lemma_find_none(s: Seq<char>, pat: Seq<char>, i: int, c: char)
    requires
        0 <= i,
        pat.len() > 0,
        pat[0] == c,
        forall|k: int| i <= k < s.len() ==> s[k] != c,
    ensures
        find_from(s, pat, i) is None,
    decreases s.len() + 1 - i,
{
    if i + pat.len() <= s.len() {
        assert(s.subrange(i, i + pat.len())[0] == s[i]);
        lemma_find_none(s, pat, i + 1, c);
    }
}

/// Joining the pieces `a`, then `rest`, puts the separator between `a` and
/// the joined rest.
pub proof fn lemma_join_front(a: Seq<char>, rest: Seq<Seq<char>>, sep: Seq<char>)
    ensures
        join(seq![a] + rest, sep) == (if rest.len() == 0 {
            a
        } else {
            a + sep + join(rest, sep)
        }),
    decreases rest.len(),
{
    let all = seq![a] + rest;
    if rest.len() == 0 {
        assert(all =~= seq![a]);
        assert(join(all, sep) == all[0]);
    } else if rest.len() == 1 {
        assert(all.drop_last() =~= seq![a]);
        assert(all.last() == rest[0]);
        assert(join(all.drop_last(), sep) == a);
        assert(join(all, sep) == join(all.drop_last(), sep) + sep + all.last());
        assert(join(rest, sep) == rest[0]);
    } else {
        lemma_join_front(a, rest.drop_last(), sep);
        assert(all.drop_last() =~= seq![a] + rest.drop_last());
        assert(all.last() == rest.last());
        assert(join(all, sep) == join(all.drop_last(), sep) + sep + all.last());
        assert(join(rest, sep) == join(rest.drop_last(), sep) + sep + rest.last());
        assert(a + sep + join(rest.drop_last(), sep) + sep + rest.last() =~= a + sep + (join(
            rest.drop_last(),
            sep,
        ) + sep + rest.last()));
    }
}

} // verus!
