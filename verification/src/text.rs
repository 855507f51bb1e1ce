//! Text as a sequence of characters: trimming, splitting, searching and case.
//!
//! Every operation is defined twice: as a spec function on `Seq<char>`, which is what
//! contracts elsewhere speak of, and as an executable function on `&[char]`.

use vstd::prelude::*;
use vstd::slice::slice_subrange;

verus! {

/// `String::push` appends one character to the end of the string.
pub assume_specification[ String::push ](s: &mut String, c: char)
    ensures
        final(s)@ == old(s)@.push(c),
;

/// The characters of `s`, in order.
pub fn chars_of(s: &str) -> (out: Vec<char>)
    ensures
        out@ == s@,
{
    let mut out: Vec<char> = Vec::new();
    for c in iter: s.chars()
        invariant
            out@ == iter.seq().take(iter.index() as int),
            iter.seq() == s@,
    {
        out.push(c);
    }
    out
}

/// The string made of `chars`.
pub fn string_of(chars: &[char]) -> (out: String)
    ensures
        out@ == chars@,
{
    let mut out = String::new();
    let mut i: usize = 0;
    while i < chars.len()
        invariant
            i <= chars@.len(),
            out@ == chars@.take(i as int),
        decreases chars@.len() - i,
    {
        out.push(chars[i]);
        i = i + 1;
    }
    out
}

/// The Unicode `White_Space` property.
pub open spec fn is_space(c: char) -> bool {
    let u = c as u32;
    ||| 0x09 <= u <= 0x0d
    ||| u == 0x20
    ||| u == 0x85
    ||| u == 0xa0
    ||| u == 0x1680
    ||| 0x2000 <= u <= 0x200a
    ||| u == 0x2028
    ||| u == 0x2029
    ||| u == 0x202f
    ||| u == 0x205f
    ||| u == 0x3000
}

/// Whether `c` is white space.
pub fn is_whitespace(c: char) -> (r: bool)
    ensures
        r == is_space(c),
{
    let u: u32 = c as u32;
    (0x09 <= u && u <= 0x0d) || u == 0x20 || u == 0x85 || u == 0xa0 || u == 0x1680 || (0x2000 <= u
        && u <= 0x200a) || u == 0x2028 || u == 0x2029 || u == 0x202f || u == 0x205f || u == 0x3000
}

/// `s` without its leading white space.
pub open spec fn trimmed_start(s: Seq<char>) -> Seq<char>
    decreases s.len(),
{
    if s.len() > 0 && is_space(s[0]) {
        trimmed_start(s.skip(1))
    } else {
        s
    }
}

/// `s` without its trailing white space.
pub open spec fn trimmed_end(s: Seq<char>) -> Seq<char>
    decreases s.len(),
{
    if s.len() > 0 && is_space(s.last()) {
        trimmed_end(s.drop_last())
    } else {
        s
    }
}

/// `s` without white space at either end.
pub open spec fn trimmed(s: Seq<char>) -> Seq<char> {
    trimmed_end(trimmed_start(s))
}

/// Trimming the start leaves part of the text, and no white space in front.
proof fn trimmed_start_is_part(s: Seq<char>, c: char)
    ensures
        trimmed_start(s).contains(c) ==> s.contains(c),
        trimmed_start(s).len() > 0 ==> !is_space(trimmed_start(s)[0]),
    decreases s.len(),
{
    if s.len() > 0 && is_space(s[0]) {
        trimmed_start_is_part(s.skip(1), c);
        if s.skip(1).contains(c) {
            let i = choose|i: int| 0 <= i < s.skip(1).len() && s.skip(1)[i] == c;
            assert(s[i + 1] == c);
        }
    }
}

/// Trimming the end leaves part of the text, with the same front, and no white space at the end.
proof fn trimmed_end_is_part(s: Seq<char>, c: char)
    ensures
        trimmed_end(s).contains(c) ==> s.contains(c),
        trimmed_end(s).len() > 0 ==> !is_space(trimmed_end(s).last()) && trimmed_end(s)[0] == s[0],
    decreases s.len(),
{
    if s.len() > 0 && is_space(s.last()) {
        trimmed_end_is_part(s.drop_last(), c);
        if s.drop_last().contains(c) {
            let i = choose|i: int| 0 <= i < s.drop_last().len() && s.drop_last()[i] == c;
            assert(s[i] == c);
        }
    }
}

/// Trimming leaves part of the text, without white space at its ends, so that it changes nothing
/// a second time.
pub proof fn trimmed_is_part(s: Seq<char>, c: char)
    ensures
        trimmed(s).contains(c) ==> s.contains(c),
        trimmed(s).len() > 0 ==> !is_space(trimmed(s).last()),
        trimmed(trimmed(s)) == trimmed(s),
{
    trimmed_start_is_part(s, c);
    trimmed_end_is_part(trimmed_start(s), c);
}

/// White space at the end is trimmed.
pub proof fn trimmed_push_space(s: Seq<char>, c: char)
    requires
        is_space(c),
    ensures
        trimmed(s.push(c)) == trimmed(s),
    decreases s.len(),
{
    let t = s.push(c);
    if s.len() == 0 {
        reveal_with_fuel(trimmed_start, 2);
        assert(t.skip(1) == s);
    } else if is_space(s[0]) {
        assert(t.skip(1) == s.skip(1).push(c));
        trimmed_push_space(s.skip(1), c);
    } else {
        assert(t.drop_last() == s);
    }
}

/// Removes leading white space.
pub fn trim_start(s: &[char]) -> (r: &[char])
    ensures
        r@ == trimmed_start(s@),
{
    let n: usize = s.len();
    let mut i: usize = 0;
    assert(s@.skip(0) == s@);
    while i < n && is_whitespace(s[i])
        invariant
            i <= n,
            n == s@.len(),
            trimmed_start(s@) == trimmed_start(s@.skip(i as int)),
        decreases n - i,
    {
        assert(s@.skip(i as int).skip(1) == s@.skip(i + 1));
        i = i + 1;
    }
    assert(s@.subrange(i as int, n as int) == s@.skip(i as int));
    slice_subrange(s, i, n)
}

/// Removes trailing white space.
pub fn trim_end(s: &[char]) -> (r: &[char])
    ensures
        r@ == trimmed_end(s@),
{
    let mut n: usize = s.len();
    assert(s@.take(n as int) == s@);
    while n > 0 && is_whitespace(s[n - 1])
        invariant
            n <= s@.len(),
            trimmed_end(s@) == trimmed_end(s@.take(n as int)),
        decreases n,
    {
        assert(s@.take(n as int).drop_last() == s@.take(n - 1));
        n = n - 1;
    }
    assert(s@.subrange(0, n as int) == s@.take(n as int));
    slice_subrange(s, 0, n)
}

/// Removes white space at both ends.
pub fn trim(s: &[char]) -> (r: &[char])
    ensures
        r@ == trimmed(s@),
{
    trim_end(trim_start(s))
}

/// `s` without any leading `c`.
pub open spec fn stripped_start(s: Seq<char>, c: char) -> Seq<char>
    decreases s.len(),
{
    if s.len() > 0 && s[0] == c {
        stripped_start(s.skip(1), c)
    } else {
        s
    }
}

/// `s` without any trailing `c`.
pub open spec fn stripped_end(s: Seq<char>, c: char) -> Seq<char>
    decreases s.len(),
{
    if s.len() > 0 && s.last() == c {
        stripped_end(s.drop_last(), c)
    } else {
        s
    }
}

/// Removes every leading `c`.
pub fn trim_start_char(s: &[char], c: char) -> (r: &[char])
    ensures
        r@ == stripped_start(s@, c),
{
    let n: usize = s.len();
    let mut i: usize = 0;
    assert(s@.skip(0) == s@);
    while i < n && s[i] == c
        invariant
            i <= n,
            n == s@.len(),
            stripped_start(s@, c) == stripped_start(s@.skip(i as int), c),
        decreases n - i,
    {
        assert(s@.skip(i as int).skip(1) == s@.skip(i + 1));
        i = i + 1;
    }
    assert(s@.subrange(i as int, n as int) == s@.skip(i as int));
    slice_subrange(s, i, n)
}

/// Removes every trailing `c`.
pub fn trim_end_char(s: &[char], c: char) -> (r: &[char])
    ensures
        r@ == stripped_end(s@, c),
{
    let mut n: usize = s.len();
    assert(s@.take(n as int) == s@);
    while n > 0 && s[n - 1] == c
        invariant
            n <= s@.len(),
            stripped_end(s@, c) == stripped_end(s@.take(n as int), c),
        decreases n,
    {
        assert(s@.take(n as int).drop_last() == s@.take(n - 1));
        n = n - 1;
    }
    assert(s@.subrange(0, n as int) == s@.take(n as int));
    slice_subrange(s, 0, n)
}

/// The ASCII lower-case form of one character.
pub open spec fn lowered_char(c: char) -> char {
    if 'A' <= c <= 'Z' {
        ((c as u32 + 32) as u8) as char
    } else {
        c
    }
}

/// `s` with its ASCII letters in lower case.
pub open spec fn lowered(s: Seq<char>) -> Seq<char> {
    s.map_values(|c: char| lowered_char(c))
}

/// Puts the ASCII letters of `s` in lower case.
pub fn to_lower(s: &[char]) -> (out: Vec<char>)
    ensures
        out@ == lowered(s@),
{
    let mut out: Vec<char> = Vec::new();
    let mut i: usize = 0;
    while i < s.len()
        invariant
            i <= s@.len(),
            out@ == lowered(s@).take(i as int),
        decreases s@.len() - i,
    {
        let c: char = s[i];
        if 'A' <= c && c <= 'Z' {
            out.push(((c as u32 + 32) as u8) as char);
        } else {
            out.push(c);
        }
        i = i + 1;
    }
    out
}

/// `s` starts with `p`.
pub open spec fn begins(s: Seq<char>, p: Seq<char>) -> bool {
    p.len() <= s.len() && s.take(p.len() as int) == p
}

/// `s` ends with `p`.
pub open spec fn ends(s: Seq<char>, p: Seq<char>) -> bool {
    p.len() <= s.len() && s.skip(s.len() - p.len()) == p
}

/// Whether `a` and `b` hold the same characters.
pub fn same(a: &[char], b: &[char]) -> (r: bool)
    ensures
        r == (a@ == b@),
{
    if a.len() != b.len() {
        return false;
    }
    let mut i: usize = 0;
    while i < a.len()
        invariant
            i <= a@.len(),
            a@.len() == b@.len(),
            forall|j: int| 0 <= j < i ==> a@[j] == b@[j],
        decreases a@.len() - i,
    {
        if a[i] != b[i] {
            return false;
        }
        i = i + 1;
    }
    assert(a@ =~= b@);
    true
}

/// Whether `s` holds exactly the characters of `t`.
pub fn same_text(s: &[char], t: &str) -> (r: bool)
    ensures
        r == (s@ == t@),
{
    let t: Vec<char> = chars_of(t);
    same(s, t.as_slice())
}

/// Whether `s` starts with `p`.
pub fn starts_with(s: &[char], p: &[char]) -> (r: bool)
    ensures
        r == begins(s@, p@),
{
    if p.len() > s.len() {
        return false;
    }
    same(slice_subrange(s, 0, p.len()), p)
}

/// Whether `s` ends with `p`.
pub fn ends_with(s: &[char], p: &[char]) -> (r: bool)
    ensures
        r == ends(s@, p@),
{
    if p.len() > s.len() {
        return false;
    }
    assert(s@.subrange(s@.len() - p@.len(), s@.len() as int) == s@.skip(s@.len() - p@.len()));
    same(slice_subrange(s, s.len() - p.len(), s.len()), p)
}

/// What follows the prefix `p`, if `s` starts with it.
pub open spec fn after_prefix(s: Seq<char>, p: Seq<char>) -> Option<Seq<char>> {
    if begins(s, p) {
        Some(s.skip(p.len() as int))
    } else {
        None
    }
}

/// What precedes the suffix `p`, if `s` ends with it.
pub open spec fn before_suffix(s: Seq<char>, p: Seq<char>) -> Option<Seq<char>> {
    if ends(s, p) {
        Some(s.take(s.len() - p.len()))
    } else {
        None
    }
}

/// The view of an optional slice.
pub open spec fn opt_view(s: Option<&[char]>) -> Option<Seq<char>> {
    match s {
        Some(s) => Some(s@),
        None => None,
    }
}

/// Removes the prefix `p`.
pub fn strip_prefix<'a>(s: &'a [char], p: &str) -> (r: Option<&'a [char]>)
    ensures
        opt_view(r) == after_prefix(s@, p@),
{
    let p: Vec<char> = chars_of(p);
    if starts_with(s, p.as_slice()) {
        assert(s@.subrange(p@.len() as int, s@.len() as int) == s@.skip(p@.len() as int));
        Some(slice_subrange(s, p.len(), s.len()))
    } else {
        None
    }
}

/// Removes the suffix `p`.
pub fn strip_suffix<'a>(s: &'a [char], p: &str) -> (r: Option<&'a [char]>)
    ensures
        opt_view(r) == before_suffix(s@, p@),
{
    let p: Vec<char> = chars_of(p);
    if ends_with(s, p.as_slice()) {
        assert(s@.subrange(0, s@.len() - p@.len()) == s@.take(s@.len() - p@.len()));
        Some(slice_subrange(s, 0, s.len() - p.len()))
    } else {
        None
    }
}

/// Where `p` first occurs in `s`.
pub open spec fn position_of(s: Seq<char>, p: Seq<char>) -> Option<int>
    decreases s.len(),
{
    if begins(s, p) {
        Some(0)
    } else if s.len() == 0 {
        None
    } else {
        match position_of(s.skip(1), p) {
            Some(i) => Some(i + 1),
            None => None,
        }
    }
}

/// `s` cut at the first occurrence of `p`: what stands before it and what stands after.
pub open spec fn cut(s: Seq<char>, p: Seq<char>) -> Option<(Seq<char>, Seq<char>)> {
    match position_of(s, p) {
        Some(i) => Some((s.take(i), s.skip(i + p.len()))),
        None => None,
    }
}

/// An occurrence lies inside the text, and none comes before it.
pub proof fn position_of_first(s: Seq<char>, p: Seq<char>)
    ensures
        match position_of(s, p) {
            Some(i) => {
                &&& 0 <= i <= s.len() - p.len()
                &&& s.subrange(i, i + p.len()) == p
                &&& forall|j: int| 0 <= j < i ==> !begins(#[trigger] s.skip(j), p)
            },
            None => forall|j: int| 0 <= j <= s.len() ==> !begins(#[trigger] s.skip(j), p),
        },
    decreases s.len(),
{
    assert(s.skip(0) == s);
    if begins(s, p) {
        assert(s.subrange(0, p.len() as int) == s.take(p.len() as int));
    } else if s.len() > 0 {
        position_of_first(s.skip(1), p);
        match position_of(s.skip(1), p) {
            Some(i) => {
                assert(s.subrange(i + 1, i + 1 + p.len()) == s.skip(1).subrange(i, i + p.len()));
                assert forall|j: int| 0 <= j < i + 1 implies !begins(#[trigger] s.skip(j), p) by {
                    if j > 0 {
                        assert(s.skip(j) == s.skip(1).skip(j - 1));
                    }
                }
            },
            None => {
                assert forall|j: int| 0 <= j <= s.len() implies !begins(#[trigger] s.skip(j), p) by {
                    if j > 0 {
                        assert(s.skip(j) == s.skip(1).skip(j - 1));
                    }
                }
            },
        }
    }
}

/// Finds the first occurrence of `p`.
pub fn find(s: &[char], p: &[char]) -> (r: Option<usize>)
    ensures
        match r {
            Some(i) => position_of(s@, p@) == Some(i as int),
            None => position_of(s@, p@) is None,
        },
{
    let n: usize = s.len();
    let mut i: usize = 0;
    assert(s@.skip(0) == s@);
    loop
        invariant
            i <= n,
            n == s@.len(),
            position_of(s@, p@) == (match position_of(s@.skip(i as int), p@) {
                Some(k) => Some(k + i),
                None => None::<int>,
            }),
        decreases n - i,
    {
        assert(s@.subrange(i as int, n as int) == s@.skip(i as int));
        if starts_with(slice_subrange(s, i, n), p) {
            return Some(i);
        }
        if i == n {
            return None;
        }
        assert(s@.skip(i as int).skip(1) == s@.skip(i + 1));
        i = i + 1;
    }
}

/// The views of the two sides of a cut.
pub open spec fn cut_view(r: Option<(&[char], &[char])>) -> Option<(Seq<char>, Seq<char>)> {
    match r {
        Some((a, b)) => Some((a@, b@)),
        None => None,
    }
}

/// Cuts `s` at the first occurrence of `p`.
pub fn split_once<'a>(s: &'a [char], p: &str) -> (r: Option<(&'a [char], &'a [char])>)
    ensures
        cut_view(r) == cut(s@, p@),
{
    let p: Vec<char> = chars_of(p);
    proof {
        position_of_first(s@, p@);
    }
    let n: usize = s.len();
    match find(s, p.as_slice()) {
        Some(i) => {
            assert(s@.subrange(0, i as int) == s@.take(i as int));
            assert(s@.subrange(i + p@.len(), s@.len() as int) == s@.skip(i + p@.len()));
            Some((slice_subrange(s, 0, i), slice_subrange(s, i + p.len(), n)))
        },
        None => None,
    }
}

/// Whether `c` occurs in `s`.
pub fn has_char(s: &[char], c: char) -> (r: bool)
    ensures
        r == s@.contains(c),
{
    let mut i: usize = 0;
    while i < s.len()
        invariant
            i <= s@.len(),
            forall|j: int| 0 <= j < i ==> s@[j] != c,
        decreases s@.len() - i,
    {
        if s[i] == c {
            return true;
        }
        i = i + 1;
    }
    false
}

/// How many characters stand before the first `c`, or in all of `s` if there is none.
pub open spec fn run_before(s: Seq<char>, c: char) -> int
    decreases s.len(),
{
    if s.len() == 0 || s[0] == c {
        0
    } else {
        1 + run_before(s.skip(1), c)
    }
}

/// What `run_before` counts.
pub proof fn run_before_is_first(s: Seq<char>, c: char)
    ensures
        0 <= run_before(s, c) <= s.len(),
        run_before(s, c) < s.len() ==> s[run_before(s, c)] == c,
        forall|j: int| 0 <= j < run_before(s, c) ==> s[j] != c,
    decreases s.len(),
{
    if s.len() > 0 && s[0] != c {
        run_before_is_first(s.skip(1), c);
        assert forall|j: int| 0 <= j < run_before(s, c) implies s[j] != c by {
            if j > 0 {
                assert(s[j] == s.skip(1)[j - 1]);
            }
        }
    }
}

/// Counts the characters before the first `c`.
pub fn length_before(s: &[char], c: char) -> (r: usize)
    ensures
        r == run_before(s@, c),
{
    let n: usize = s.len();
    let mut i: usize = 0;
    assert(s@.skip(0) == s@);
    while i < n && s[i] != c
        invariant
            i <= n,
            n == s@.len(),
            run_before(s@, c) == i + run_before(s@.skip(i as int), c),
        decreases n - i,
    {
        assert(s@.skip(i as int).skip(1) == s@.skip(i + 1));
        i = i + 1;
    }
    i
}

/// The pieces of `s` between the separators `c`. There is always one more piece than
/// there are separators.
pub open spec fn pieces(s: Seq<char>, c: char) -> Seq<Seq<char>>
    decreases s.len(),
    via pieces_shrink
{
    let n = run_before(s, c);
    if n == s.len() {
        seq![s]
    } else {
        seq![s.take(n)] + pieces(s.skip(n + 1), c)
    }
}

#[via_fn]
proof fn pieces_shrink(s: Seq<char>, c: char) {
    run_before_is_first(s, c);
}

/// The views of a list of slices.
pub open spec fn views(v: Seq<&[char]>) -> Seq<Seq<char>> {
    Seq::new(v.len(), |i: int| v[i]@)
}

/// Splits `s` at every `c`.
pub fn split<'a>(s: &'a [char], c: char) -> (out: Vec<&'a [char]>)
    ensures
        views(out@) == pieces(s@, c),
{
    let mut out: Vec<&'a [char]> = Vec::new();
    let mut rest: &'a [char] = s;
    assert(views(out@) + pieces(rest@, c) == pieces(s@, c));
    loop
        invariant
            views(out@) + pieces(rest@, c) == pieces(s@, c),
        decreases rest@.len(),
    {
        let n: usize = length_before(rest, c);
        proof {
            run_before_is_first(rest@, c);
        }
        if n == rest.len() {
            let ghost before = out@;
            out.push(rest);
            assert(views(out@) == views(before) + seq![rest@]);
            return out;
        }
        let ghost before = out@;
        let ghost old_rest = rest@;
        let head: &'a [char] = slice_subrange(rest, 0, n);
        assert(old_rest.subrange(0, n as int) == old_rest.take(n as int));
        out.push(head);
        assert(views(out@) == views(before) + seq![old_rest.take(n as int)]);
        assert(old_rest.subrange(n + 1, old_rest.len() as int) == old_rest.skip(n + 1));
        rest = slice_subrange(rest, n + 1, rest.len());
        assert(views(out@) + pieces(rest@, c) == views(before) + (seq![old_rest.take(n as int)]
            + pieces(rest@, c)));
    }
}

/// A line without the carriage return that may stand before its line feed.
pub open spec fn without_cr(s: Seq<char>) -> Seq<char> {
    if s.len() > 0 && s.last() == '\r' {
        s.drop_last()
    } else {
        s
    }
}

/// The lines of `s`: each ends at a line feed, or at a carriage return and a line feed;
/// the last may end with the text.
pub open spec fn lines_of(s: Seq<char>) -> Seq<Seq<char>>
    decreases s.len(),
    via lines_of_shrink
{
    let n = run_before(s, '\n');
    if s.len() == 0 {
        seq![]
    } else if n == s.len() {
        seq![s]
    } else {
        seq![without_cr(s.take(n))] + lines_of(s.skip(n + 1))
    }
}

#[via_fn]
proof fn lines_of_shrink(s: Seq<char>) {
    run_before_is_first(s, '\n');
}

/// Splits `s` into lines.
pub fn lines<'a>(s: &'a [char]) -> (out: Vec<&'a [char]>)
    ensures
        views(out@) == lines_of(s@),
        out@.len() <= s@.len(),
{
    let mut out: Vec<&'a [char]> = Vec::new();
    let mut rest: &'a [char] = s;
    assert(views(out@) + lines_of(rest@) == lines_of(s@));
    while rest.len() > 0
        invariant
            views(out@) + lines_of(rest@) == lines_of(s@),
            out@.len() + rest@.len() <= s@.len(),
        decreases rest@.len(),
    {
        let n: usize = length_before(rest, '\n');
        proof {
            run_before_is_first(rest@, '\n');
        }
        let ghost before = out@;
        let ghost old_rest = rest@;
        if n == rest.len() {
            out.push(rest);
            assert(views(out@) == views(before) + seq![old_rest]);
            return out;
        }
        assert(old_rest.subrange(0, n as int) == old_rest.take(n as int));
        let mut m: usize = n;
        if n > 0 && rest[n - 1] == '\r' {
            m = n - 1;
            assert(old_rest.take(n as int).drop_last() == old_rest.subrange(0, m as int));
        }
        let head: &'a [char] = slice_subrange(rest, 0, m);
        out.push(head);
        assert(views(out@) == views(before) + seq![without_cr(old_rest.take(n as int))]);
        assert(old_rest.subrange(n + 1, old_rest.len() as int) == old_rest.skip(n + 1));
        rest = slice_subrange(rest, n + 1, rest.len());
        assert(views(out@) + lines_of(rest@) == views(before) + (seq![
            without_cr(old_rest.take(n as int)),
        ] + lines_of(rest@)));
    }
    assert(views(out@) + lines_of(rest@) == views(out@));
    out
}

/// How many characters stand before the first white space.
pub open spec fn word_length(s: Seq<char>) -> int
    decreases s.len(),
{
    if s.len() == 0 || is_space(s[0]) {
        0
    } else {
        1 + word_length(s.skip(1))
    }
}

/// What `word_length` counts.
pub proof fn word_length_bounds(s: Seq<char>)
    ensures
        0 <= word_length(s) <= s.len(),
        forall|j: int| 0 <= j < word_length(s) ==> !is_space(s[j]),
        word_length(s) < s.len() ==> is_space(s[word_length(s)]),
    decreases s.len(),
{
    if s.len() > 0 && !is_space(s[0]) {
        word_length_bounds(s.skip(1));
        assert forall|j: int| 0 <= j < word_length(s) implies !is_space(s[j]) by {
            if j > 0 {
                assert(s[j] == s.skip(1)[j - 1]);
            }
        }
    }
}

/// Trimming never lengthens, and leaves no leading white space.
pub proof fn trimmed_start_bounds(s: Seq<char>)
    ensures
        trimmed_start(s).len() <= s.len(),
        trimmed_start(s).len() > 0 ==> !is_space(trimmed_start(s)[0]),
    decreases s.len(),
{
    if s.len() > 0 && is_space(s[0]) {
        trimmed_start_bounds(s.skip(1));
    }
}

/// The maximal runs of `s` that hold no white space.
pub open spec fn words_of(s: Seq<char>) -> Seq<Seq<char>>
    decreases s.len(),
    via words_of_shrink
{
    let t = trimmed_start(s);
    if t.len() == 0 {
        seq![]
    } else {
        seq![t.take(word_length(t))] + words_of(t.skip(word_length(t)))
    }
}

#[via_fn]
proof fn words_of_shrink(s: Seq<char>) {
    trimmed_start_bounds(s);
    word_length_bounds(trimmed_start(s));
}

/// `s` holds no white space.
pub open spec fn is_word(s: Seq<char>) -> bool {
    s.len() > 0 && forall|i: int| 0 <= i < s.len() ==> !is_space(#[trigger] s[i])
}

/// A word alone is the one word.
pub proof fn words_of_one(a: Seq<char>)
    requires
        is_word(a),
    ensures
        words_of(a) == seq![a],
{
    word_length_bounds(a);
    assert(!is_space(a[0]));
    assert(word_length(a) == a.len());
    assert(a.take(a.len() as int) == a);
    assert(words_of(a.skip(a.len() as int)) == Seq::<Seq<char>>::empty());
}

/// Two words with a space between them are the two words.
pub proof fn words_of_two(a: Seq<char>, b: Seq<char>)
    requires
        is_word(a),
        is_word(b),
    ensures
        words_of(a.push(' ') + b) == seq![a, b],
{
    let s = a.push(' ') + b;
    let n = a.len() as int;
    word_length_bounds(s);
    assert forall|i: int| 0 <= i < n implies !is_space(s[i]) by {
        assert(s[i] == a[i]);
    }
    assert(s[n] == ' ');
    assert(word_length(s) == n);
    assert(s.take(n) == a);
    let rest = s.skip(n);
    assert(rest.skip(1) == b);
    assert(!is_space(b[0]));
    assert(trimmed_start(rest) == trimmed_start(b));
    assert(trimmed_start(b) == b);
    words_of_one(b);
    assert(words_of(rest) == words_of(b));
}

/// Splits `s` at runs of white space.
pub fn words<'a>(s: &'a [char]) -> (out: Vec<&'a [char]>)
    ensures
        views(out@) == words_of(s@),
{
    let mut out: Vec<&'a [char]> = Vec::new();
    let mut rest: &'a [char] = s;
    assert(views(out@) + words_of(rest@) == words_of(s@));
    loop
        invariant
            views(out@) + words_of(rest@) == words_of(s@),
        decreases rest@.len(),
    {
        let ghost before = out@;
        let ghost old_rest = rest@;
        proof {
            trimmed_start_bounds(rest@);
            word_length_bounds(trimmed_start(rest@));
        }
        let t: &'a [char] = trim_start(rest);
        if t.len() == 0 {
            assert(views(out@) + words_of(rest@) == views(out@));
            return out;
        }
        let mut n: usize = 0;
        assert(t@.skip(0) == t@);
        while n < t.len() && !is_whitespace(t[n])
            invariant
                n <= t@.len(),
                word_length(t@) == n + word_length(t@.skip(n as int)),
            decreases t@.len() - n,
        {
            assert(t@.skip(n as int).skip(1) == t@.skip(n + 1));
            n = n + 1;
        }
        assert(n == word_length(t@));
        assert(t@.subrange(0, n as int) == t@.take(n as int));
        assert(t@.subrange(n as int, t@.len() as int) == t@.skip(n as int));
        let head: &'a [char] = slice_subrange(t, 0, n);
        out.push(head);
        assert(views(out@) == views(before) + seq![t@.take(n as int)]);
        rest = slice_subrange(t, n, t.len());
        assert(views(out@) + words_of(rest@) == views(before) + (seq![t@.take(n as int)]
            + words_of(rest@)));
    }
}

/// The digit of value `d`, in base sixteen or less.
pub open spec fn digit(d: int) -> char {
    if d < 10 {
        (d + 48) as char
    } else {
        (d + 87) as char
    }
}

/// `n` written in base `base`, without leading zeros.
pub open spec fn numeral(n: nat, base: nat) -> Seq<char>
    decreases n,
    when base >= 2
    via numeral_shrink
{
    if n < base {
        seq![digit(n as int)]
    } else {
        numeral(n / base, base).push(digit((n % base) as int))
    }
}

#[via_fn]
proof fn numeral_shrink(n: nat, base: nat) {
    assert(n >= base && base >= 2 ==> n / base < n) by (nonlinear_arith);
}

/// `n` in decimal.
pub open spec fn decimal(n: nat) -> Seq<char> {
    numeral(n, 10)
}

/// `n` in lower-case hexadecimal.
pub open spec fn hexadecimal(n: nat) -> Seq<char> {
    numeral(n, 16)
}

/// Writes `n` in base `base`.
pub fn to_numeral(n: u64, base: u64) -> (out: Vec<char>)
    requires
        base == 10 || base == 16,
    ensures
        out@ == numeral(n as nat, base as nat),
    decreases n,
{
    let d: u64 = n % base;
    let c: char = if d < 10 {
        (d as u8 + 48) as char
    } else {
        (d as u8 + 87) as char
    };
    if n < base {
        let mut out: Vec<char> = Vec::new();
        out.push(c);
        assert(out@ == seq![digit(n as int)]);
        out
    } else {
        let mut out: Vec<char> = to_numeral(n / base, base);
        out.push(c);
        out
    }
}

/// The texts of a list of strings.
pub open spec fn texts(v: Seq<String>) -> Seq<Seq<char>> {
    Seq::new(v.len(), |i: int| v[i]@)
}

/// The text of an optional string.
pub open spec fn opt_text(s: Option<String>) -> Option<Seq<char>> {
    match s {
        Some(s) => Some(s@),
        None => None,
    }
}

/// The texts of a list of character lists.
pub open spec fn rows(v: Seq<Vec<char>>) -> Seq<Seq<char>> {
    Seq::new(v.len(), |i: int| v[i]@)
}

/// The texts `p` with `sep` between neighbours.
pub open spec fn joined(p: Seq<Seq<char>>, sep: Seq<char>) -> Seq<char>
    decreases p.len(),
{
    if p.len() == 0 {
        Seq::empty()
    } else if p.len() == 1 {
        p[0]
    } else {
        joined(p.drop_last(), sep) + sep + p.last()
    }
}

/// A join, taken apart at its front.
pub proof fn joined_front(p: Seq<Seq<char>>, sep: Seq<char>)
    requires
        p.len() > 1,
    ensures
        joined(p, sep) == p[0] + sep + joined(p.skip(1), sep),
    decreases p.len(),
{
    if p.len() == 2 {
        reveal_with_fuel(joined, 3);
        assert(p.drop_last() == seq![p[0]]);
        assert(p.skip(1) == seq![p[1]]);
    } else {
        joined_front(p.drop_last(), sep);
        assert(p.drop_last().skip(1) == p.skip(1).drop_last());
        assert(joined(p, sep) =~= p[0] + sep + joined(p.skip(1), sep));
    }
}

/// The count of characters before the first `c`, when one stands at `n`.
pub proof fn run_before_at(s: Seq<char>, c: char, n: int)
    requires
        0 <= n <= s.len(),
        n < s.len() ==> s[n] == c,
        forall|j: int| 0 <= j < n ==> s[j] != c,
    ensures
        run_before(s, c) == n,
{
    run_before_is_first(s, c);
}

/// Splitting undoes joining, when no text holds the separator.
pub proof fn pieces_of_joined(p: Seq<Seq<char>>, c: char)
    requires
        p.len() > 0,
        forall|i: int| 0 <= i < p.len() ==> !(#[trigger] p[i]).contains(c),
    ensures
        pieces(joined(p, seq![c]), c) == p,
    decreases p.len(),
{
    let s = joined(p, seq![c]);
    let n = p[0].len() as int;
    assert(!p[0].contains(c));
    if p.len() == 1 {
        run_before_at(s, c, n);
        assert(pieces(s, c) =~= p);
    } else {
        joined_front(p, seq![c]);
        let rest = p.skip(1);
        assert forall|i: int| 0 <= i < rest.len() implies !(#[trigger] rest[i]).contains(c) by {
            assert(rest[i] == p[i + 1]);
        }
        pieces_of_joined(rest, c);
        assert(s == p[0] + seq![c] + joined(rest, seq![c]));
        run_before_at(s, c, n);
        assert(s.take(n) =~= p[0]);
        assert(s.skip(n + 1) =~= joined(rest, seq![c]));
        assert(pieces(s, c) =~= p);
    }
}

/// Joining undoes splitting.
pub proof fn joined_of_pieces(s: Seq<char>, c: char)
    ensures
        joined(pieces(s, c), seq![c]) == s,
    decreases s.len(),
{
    run_before_is_first(s, c);
    let n = run_before(s, c);
    if n < s.len() {
        joined_of_pieces(s.skip(n + 1), c);
        let p = pieces(s, c);
        assert(p.skip(1) =~= pieces(s.skip(n + 1), c));
        assert(p.len() > 1);
        joined_front(p, seq![c]);
        assert(joined(p, seq![c]) =~= s);
    }
}

/// Every character of a join comes from a text or from the separator.
pub proof fn joined_holds(p: Seq<Seq<char>>, c: char, i: int)
    requires
        0 <= i < joined(p, seq![c]).len(),
    ensures
        joined(p, seq![c])[i] == c || exists|k: int|
            0 <= k < p.len() && (#[trigger] p[k]).contains(joined(p, seq![c])[i]),
    decreases p.len(),
{
    let s = joined(p, seq![c]);
    if p.len() == 1 {
        assert(p[0].contains(s[i]));
    } else {
        let front = joined(p.drop_last(), seq![c]);
        if i < front.len() {
            joined_holds(p.drop_last(), c, i);
            if s[i] != c {
                let k = choose|k: int|
                    0 <= k < p.drop_last().len() && (#[trigger] p.drop_last()[k]).contains(
                        front[i],
                    );
                assert(p[k].contains(s[i]));
            }
        } else if i > front.len() {
            assert(s[i] == p.last()[i - front.len() - 1]);
            assert(p[p.len() - 1].contains(s[i]));
        }
    }
}

/// Where `p` occurs first, when it occurs at `n` and nowhere before.
pub proof fn position_of_at(s: Seq<char>, p: Seq<char>, n: int)
    requires
        0 <= n <= s.len(),
        begins(s.skip(n), p),
        forall|j: int| 0 <= j < n ==> !begins(#[trigger] s.skip(j), p),
    ensures
        position_of(s, p) == Some(n),
{
    position_of_first(s, p);
    match position_of(s, p) {
        Some(i) => {
            if i < n {
                assert(s.skip(i).take(p.len() as int) == s.subrange(i, i + p.len()));
                assert(begins(s.skip(i), p));
            }
        },
        None => {},
    }
}

/// Appends the characters of `t`.
pub fn push_all(out: &mut Vec<char>, t: &[char])
    ensures
        final(out)@ == old(out)@ + t@,
{
    let ghost before = out@;
    let mut i: usize = 0;
    while i < t.len()
        invariant
            i <= t@.len(),
            out@ == before + t@.take(i as int),
        decreases t@.len() - i,
    {
        out.push(t[i]);
        i = i + 1;
    }
    assert(t@.take(i as int) == t@);
}

/// Appends the characters of `t`.
pub fn push_str(out: &mut Vec<char>, t: &str)
    ensures
        final(out)@ == old(out)@ + t@,
{
    let t: Vec<char> = chars_of(t);
    push_all(out, t.as_slice());
}

/// Joins texts with `sep` between neighbours.
pub fn join(parts: &Vec<Vec<char>>, sep: &str) -> (out: Vec<char>)
    ensures
        out@ == joined(rows(parts@), sep@),
{
    let ghost all = rows(parts@);
    let mut out: Vec<char> = Vec::new();
    let mut i: usize = 0;
    while i < parts.len()
        invariant
            i <= parts@.len(),
            all == rows(parts@),
            out@ == joined(all.take(i as int), sep@),
        decreases parts@.len() - i,
    {
        let ghost before = out@;
        assert(all.take(i + 1).drop_last() == all.take(i as int));
        if i > 0 {
            push_str(&mut out, sep);
        }
        push_all(&mut out, parts[i].as_slice());
        assert(all.take(i + 1).last() == parts@[i as int]@);
        i = i + 1;
    }
    assert(all.take(i as int) == all);
    out
}

/// The lines `lines`, each with its line end.
pub open spec fn lined(lines: Seq<Seq<char>>) -> Seq<char>
    decreases lines.len(),
{
    if lines.len() == 0 {
        Seq::empty()
    } else {
        lined(lines.drop_last()) + lines.last().push('\n')
    }
}

/// Writes lines, each with its line end.
pub fn write_lines(lines: &Vec<Vec<char>>) -> (out: String)
    ensures
        out@ == lined(rows(lines@)),
{
    let ghost all = rows(lines@);
    let mut out: Vec<char> = Vec::new();
    let mut i: usize = 0;
    while i < lines.len()
        invariant
            i <= lines@.len(),
            all == rows(lines@),
            out@ == lined(all.take(i as int)),
        decreases lines@.len() - i,
    {
        let ghost before = out@;
        assert(all.take(i + 1).drop_last() == all.take(i as int));
        assert(all.take(i + 1).last() == lines@[i as int]@);
        push_all(&mut out, lines[i].as_slice());
        out.push('\n');
        assert(out@ == before + lines@[i as int]@.push('\n'));
        i = i + 1;
    }
    assert(all.take(i as int) == all);
    string_of(out.as_slice())
}

/// Lines with their line ends, taken apart at the front.
proof fn lined_front(p: Seq<Seq<char>>)
    requires
        p.len() > 0,
    ensures
        lined(p) == p[0].push('\n') + lined(p.skip(1)),
    decreases p.len(),
{
    if p.len() == 1 {
        reveal_with_fuel(lined, 2);
        assert(p.drop_last() == Seq::<Seq<char>>::empty());
        assert(p.skip(1) == Seq::<Seq<char>>::empty());
    } else {
        lined_front(p.drop_last());
        assert(p.drop_last().skip(1) == p.skip(1).drop_last());
        assert(lined(p) =~= p[0].push('\n') + lined(p.skip(1)));
    }
}

/// `s` can stand as a line: it holds no line feed and does not end with a carriage return.
pub open spec fn is_line(s: Seq<char>) -> bool {
    !s.contains('\n') && (s.len() > 0 ==> s.last() != '\r')
}

/// Reading lines that were written gives them back.
pub proof fn lines_of_lined(p: Seq<Seq<char>>)
    requires
        forall|i: int| 0 <= i < p.len() ==> is_line(#[trigger] p[i]),
    ensures
        lines_of(lined(p)) == p,
    decreases p.len(),
{
    if p.len() > 0 {
        let s = lined(p);
        let rest = p.skip(1);
        lined_front(p);
        assert forall|i: int| 0 <= i < rest.len() implies is_line(#[trigger] rest[i]) by {
            assert(rest[i] == p[i + 1]);
        }
        lines_of_lined(rest);
        let n = p[0].len() as int;
        assert(is_line(p[0]));
        assert forall|i: int| 0 <= i < n implies s[i] != '\n' by {
            assert(s[i] == p[0][i]);
        }
        assert(s[n] == '\n');
        run_before_at(s, '\n', n);
        assert(s.take(n) == p[0]);
        assert(s.skip(n + 1) == lined(rest));
        assert(seq![p[0]] + rest == p);
    }
}

/// No line holds a line feed.
pub proof fn lines_hold_no_line_feed(s: Seq<char>, i: int)
    requires
        0 <= i < lines_of(s).len(),
    ensures
        !lines_of(s)[i].contains('\n'),
    decreases s.len(),
{
    let n = run_before(s, '\n');
    run_before_is_first(s, '\n');
    if s.len() > 0 && n < s.len() {
        let head = without_cr(s.take(n));
        if i == 0 {
            assert forall|j: int| 0 <= j < head.len() implies head[j] != '\n' by {
                assert(head[j] == s[j]);
            }
        } else {
            lines_hold_no_line_feed(s.skip(n + 1), i - 1);
            assert(lines_of(s)[i] == lines_of(s.skip(n + 1))[i - 1]);
        }
    }
}

/// Appends a copy of `t`.
pub fn push_string(list: &mut Vec<String>, t: &str)
    ensures
        texts(final(list)@) == texts(old(list)@).push(t@),
{
    let ghost before = list@;
    list.push(t.to_owned());
    assert(texts(list@) == texts(before).push(t@));
}

} // verus!
