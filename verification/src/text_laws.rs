//! What holds of every text.

use vstd::prelude::*;

use crate::addr::{digit_value, is_number, number_value, numeral_reads_back};
use crate::text::{
    decimal, digit, hexadecimal, is_space, is_word, joined, lined, lines_of, lowered, numeral,
    pieces, run_before, run_before_at, run_before_is_first, stripped_end, stripped_start,
    trimmed, trimmed_end, trimmed_start, word_length, word_length_bounds, words_of,
    words_of_one,
};

verus! {

/// A join is made of its parts: joins of parts, with the separator between them, make the join of
/// all; one part is its own join, and no part joins to nothing.
pub proof fn joins_add_up(p: Seq<Seq<char>>, q: Seq<Seq<char>>, x: Seq<char>, sep: Seq<char>)
    ensures
        p.len() > 0 && q.len() > 0 ==> joined(p + q, sep) == joined(p, sep) + sep + joined(q, sep),
        joined(seq![x], sep) == x,
        joined(Seq::<Seq<char>>::empty(), sep) == Seq::<char>::empty(),
    decreases q.len(),
{
    if p.len() > 0 && q.len() > 0 {
        let front = q.drop_last();
        assert((p + q).drop_last() =~= p + front);
        assert((p + q).last() == q.last());
        if q.len() == 1 {
            assert(p + front =~= p);
            assert(q.last() == q[0]);
        } else {
            joins_add_up(p, front, x, sep);
            assert(joined(p + q, sep) =~= joined(p, sep) + sep + joined(q, sep));
        }
    }
}

/// Lines with their line ends, one after the other, make the text of all.
pub proof fn lined_adds_up(a: Seq<Seq<char>>, b: Seq<Seq<char>>, line: Seq<char>)
    ensures
        lined(a + b) == lined(a) + lined(b),
        lined(seq![line]) == line + seq!['\n'],
    decreases b.len(),
{
    assert(seq![line].drop_last() =~= Seq::<Seq<char>>::empty());
    assert(seq![line].last() == line);
    reveal_with_fuel(lined, 2);
    assert(lined(seq![line]) =~= line + seq!['\n']);
    if b.len() == 0 {
        assert(a + b =~= a);
        assert(lined(a) + lined(b) =~= lined(a));
    } else {
        lined_adds_up(a, b.drop_last(), line);
        assert((a + b).drop_last() =~= a + b.drop_last());
        assert((a + b).last() == b.last());
        assert(lined(a + b) =~= lined(a) + lined(b));
    }
}

/// A text is read line by line: up to the first line feed, without a carriage return before it,
/// and on behind it. What no line feed ends is a line too, unless it is empty.
pub proof fn lines_are_read_one_by_one(line: Seq<char>, rest: Seq<char>)
    requires
        !line.contains('\n'),
    ensures
        lines_of(Seq::<char>::empty()).len() == 0,
        line.len() > 0 ==> lines_of(line) == seq![line],
        line.len() == 0 || line.last() != '\r' ==> lines_of(line + seq!['\n'] + rest) == seq![line]
            + lines_of(rest),
        lines_of(line + seq!['\r', '\n'] + rest) == seq![line] + lines_of(rest),
{
    run_before_is_first(line, '\n');
    assert(run_before(line, '\n') == line.len()) by {
        let n = run_before(line, '\n');
        if n < line.len() {
            assert(line[n] == '\n');
        }
    }
    let n = line.len() as int;
    let s = line + seq!['\n'] + rest;
    assert forall|j: int| 0 <= j < n implies s[j] != '\n' by {
        assert(s[j] == line[j]);
    }
    assert(s[n] == '\n');
    run_before_at(s, '\n', n);
    assert(s.take(n) =~= line);
    assert(s.skip(n + 1) =~= rest);
    let t = line + seq!['\r', '\n'] + rest;
    assert forall|j: int| 0 <= j < n + 1 implies t[j] != '\n' by {
        if j < n {
            assert(t[j] == line[j]);
        }
    }
    assert(t[n + 1] == '\n');
    run_before_at(t, '\n', n + 1);
    assert(t.take(n + 1) =~= line.push('\r'));
    assert(line.push('\r').drop_last() =~= line);
    assert(t.skip(n + 2) =~= rest);
}

/// Words are read one by one: white space in front is skipped, and a word goes up to the next
/// white space.
pub proof fn words_are_read_one_by_one(word: Seq<char>, space: char, rest: Seq<char>)
    requires
        is_word(word),
        is_space(space),
    ensures
        words_of(Seq::<char>::empty()).len() == 0,
        words_of(word) == seq![word],
        words_of(seq![space] + rest) == words_of(rest),
        words_of(word + seq![space] + rest) == seq![word] + words_of(rest),
{
    words_of_one(word);
    let r = seq![space] + rest;
    assert(r.skip(1) =~= rest);
    assert(trimmed_start(r) == trimmed_start(rest));
    assert(words_of(r) == words_of(rest));
    let s = word + seq![space] + rest;
    let n = word.len() as int;
    word_length_bounds(s);
    assert forall|i: int| 0 <= i < n implies !is_space(s[i]) by {
        assert(s[i] == word[i]);
    }
    assert(s[n] == space);
    assert(word_length(s) == n);
    assert(!is_space(s[0]));
    assert(s.take(n) =~= word);
    assert(s.skip(n) =~= r);
}

/// `s` is nothing but white space.
pub open spec fn is_blank(s: Seq<char>) -> bool {
    forall|i: int| 0 <= i < s.len() ==> is_space(#[trigger] s[i])
}

/// White space in front is trimmed.
proof fn front_is_trimmed(front: Seq<char>, s: Seq<char>)
    requires
        is_blank(front),
        s.len() > 0 ==> !is_space(s[0]),
    ensures
        trimmed_start(front + s) == s,
    decreases front.len(),
{
    if front.len() > 0 {
        assert(is_space(front[0]));
        let rest = front.skip(1);
        assert forall|i: int| 0 <= i < rest.len() implies is_space(#[trigger] rest[i]) by {
            assert(rest[i] == front[i + 1]);
        }
        front_is_trimmed(rest, s);
        assert((front + s).skip(1) =~= rest + s);
        assert((front + s)[0] == front[0]);
    } else {
        assert(front + s =~= s);
    }
}

/// White space at the end is trimmed.
proof fn end_is_trimmed(s: Seq<char>, end: Seq<char>)
    requires
        is_blank(end),
        s.len() > 0 ==> !is_space(s.last()),
    ensures
        trimmed_end(s + end) == s,
    decreases end.len(),
{
    if end.len() > 0 {
        assert(is_space(end[end.len() - 1]));
        let rest = end.drop_last();
        assert forall|i: int| 0 <= i < rest.len() implies is_space(#[trigger] rest[i]) by {
            assert(rest[i] == end[i]);
        }
        end_is_trimmed(s, rest);
        assert((s + end).drop_last() =~= s + rest);
        assert((s + end).last() == end.last());
    } else {
        assert(s + end =~= s);
    }
}

/// Trimming takes away the white space at both ends, and nothing else.
pub proof fn white_space_is_trimmed(front: Seq<char>, s: Seq<char>, end: Seq<char>)
    requires
        is_blank(front),
        is_blank(end),
        s.len() > 0 ==> !is_space(s[0]) && !is_space(s.last()),
    ensures
        trimmed(front + s + end) == s,
{
    if s.len() > 0 {
        assert(front + s + end =~= front + (s + end));
        front_is_trimmed(front, s + end);
    } else {
        let all = front + end;
        assert(front + s + end =~= all);
        assert forall|i: int| 0 <= i < all.len() implies is_space(#[trigger] all[i]) by {
            if i < front.len() {
                assert(is_space(front[i]));
            } else {
                assert(is_space(end[i - front.len()]));
            }
        }
        front_is_trimmed(all, s);
        assert(all + s =~= all);
    }
    end_is_trimmed(s, end);
}

/// Blanks, tabs and line ends are white space; the other printable ASCII characters are not.
pub proof fn ascii_white_space(c: char)
    ensures
        is_space(' '),
        is_space('\t'),
        is_space('\n'),
        is_space('\r'),
        '!' <= c <= '~' ==> !is_space(c),
{
}

/// White space is what Unicode says it is: the tab, the line ends and the form feed, the blank and
/// the other spaces, and the separators of lines and paragraphs.
pub proof fn unicode_white_space(c: char)
    ensures
        is_space(c) <==> seq![
            '\t',
            '\n',
            '\u{b}',
            '\u{c}',
            '\r',
            ' ',
            '\u{85}',
            '\u{a0}',
            '\u{1680}',
            '\u{2000}',
            '\u{2001}',
            '\u{2002}',
            '\u{2003}',
            '\u{2004}',
            '\u{2005}',
            '\u{2006}',
            '\u{2007}',
            '\u{2008}',
            '\u{2009}',
            '\u{200a}',
            '\u{2028}',
            '\u{2029}',
            '\u{202f}',
            '\u{205f}',
            '\u{3000}',
        ].contains(c),
{
    let all = seq![
        '\t',
        '\n',
        '\u{b}',
        '\u{c}',
        '\r',
        ' ',
        '\u{85}',
        '\u{a0}',
        '\u{1680}',
        '\u{2000}',
        '\u{2001}',
        '\u{2002}',
        '\u{2003}',
        '\u{2004}',
        '\u{2005}',
        '\u{2006}',
        '\u{2007}',
        '\u{2008}',
        '\u{2009}',
        '\u{200a}',
        '\u{2028}',
        '\u{2029}',
        '\u{202f}',
        '\u{205f}',
        '\u{3000}',
    ];
    let u = c as int;
    if 0x09 <= u <= 0x0d {
        assert(all[u - 9] == c);
    } else if 0x2000 <= u <= 0x200a {
        assert(all[u - 0x2000 + 9] == c);
    } else if is_space(c) {
        assert(c == all[5] || c == all[6] || c == all[7] || c == all[8] || c == all[20] || c
            == all[21] || c == all[22] || c == all[23] || c == all[24]);
    }
}

/// Every repeated character at an end is stripped, and nothing else.
pub proof fn repeats_are_stripped(s: Seq<char>, c: char, n: nat)
    ensures
        s.len() == 0 || s[0] != c ==> stripped_start(Seq::new(n, |i: int| c) + s, c) == s,
        s.len() == 0 || s.last() != c ==> stripped_end(s + Seq::new(n, |i: int| c), c) == s,
    decreases n,
{
    let r = Seq::new(n, |i: int| c);
    if n > 0 {
        let q = Seq::new((n - 1) as nat, |i: int| c);
        repeats_are_stripped(s, c, (n - 1) as nat);
        assert((r + s).skip(1) =~= q + s);
        assert((r + s)[0] == c);
        assert((s + r).drop_last() =~= s + q);
        assert((s + r).last() == c);
    } else {
        assert(r + s =~= s);
        assert(s + r =~= s);
    }
}

/// Lower case changes the ASCII capitals to the letters that they are capitals of, and nothing
/// else.
pub proof fn capitals_are_lowered(s: Seq<char>, i: int)
    requires
        0 <= i < s.len(),
    ensures
        lowered(s).len() == s.len(),
        'A' <= s[i] <= 'Z' ==> lowered(s)[i] as int == s[i] as int + 32,
        !('A' <= s[i] <= 'Z') ==> lowered(s)[i] == s[i],
{
}

/// A number without leading zeros is what its value writes in decimal, so that decimal writes
/// each number in one way.
pub proof fn decimal_is_canonical(s: Seq<char>)
    requires
        is_number(s, 10),
        s.len() == 1 || s[0] != '0',
    ensures
        number_value(s, 10) >= 0,
        decimal(number_value(s, 10) as nat) == s,
    decreases s.len(),
{
    let d = digit_value(s[s.len() - 1], 10)->0;
    assert(digit_value(s[s.len() - 1], 10) is Some);
    let front = s.drop_last();
    if s.len() == 1 {
        assert(front =~= Seq::<char>::empty());
        reveal_with_fuel(number_value, 2);
        assert(s =~= seq![s[0]]);
    } else {
        assert(front[0] == s[0]);
        assert forall|i: int| 0 <= i < front.len() implies digit_value(
            #[trigger] front[i],
            10,
        ) is Some by {
            assert(front[i] == s[i]);
            assert(digit_value(s[i], 10) is Some);
        }
        decimal_is_canonical(front);
        let v = number_value(front, 10);
        if v == 0 {
            assert(decimal(0) =~= seq!['0']);
            assert(front[0] == '0');
        }
        let n = number_value(s, 10);
        assert(n == v * 10 + d);
        assert(n / 10 == v && n % 10 == d);
        assert(decimal(n as nat) == numeral(v as nat, 10).push(digit(d)));
        assert(front.push(digit(d)) =~= s);
    }
}

/// Decimal has no leading zeros, and reads as the number that it writes.
pub proof fn decimal_has_no_leading_zeros(n: nat)
    ensures
        decimal(0) == seq!['0'],
        n > 0 ==> decimal(n)[0] != '0',
        is_number(decimal(n), 10),
        number_value(decimal(n), 10) == n,
    decreases n,
{
    numeral_reads_back(n, 10);
    if n >= 10 {
        decimal_has_no_leading_zeros(n / 10);
        assert(decimal(n)[0] == numeral(n / 10, 10)[0]) by {
            numeral_reads_back(n / 10, 10);
        }
    } else if n > 0 {
        assert(decimal(n)[0] == digit(n as int));
    }
}

/// Hexadecimal is in lower case, has no leading zeros, and reads as the number that it writes.
pub proof fn hexadecimal_is_lower_case(n: nat, i: int)
    requires
        0 <= i < hexadecimal(n).len(),
    ensures
        '0' <= hexadecimal(n)[i] <= '9' || 'a' <= hexadecimal(n)[i] <= 'f',
        n > 0 ==> hexadecimal(n)[0] != '0',
        number_value(hexadecimal(n), 16) == n,
    decreases n,
{
    numeral_reads_back(n, 16);
    if n >= 16 {
        let front = numeral(n / 16, 16);
        numeral_reads_back(n / 16, 16);
        assert(hexadecimal(n)[0] == front[0]);
        if i < front.len() {
            assert(hexadecimal(n)[i] == front[i]);
            hexadecimal_is_lower_case(n / 16, i);
        } else {
            hexadecimal_is_lower_case(n / 16, 0);
            assert(hexadecimal(n)[i] == digit((n % 16) as int));
        }
    } else {
        assert(hexadecimal(n)[i] == digit(n as int));
    }
}

/// Decimal digits count in tens.
pub proof fn digits_count_in_tens(s: Seq<char>, c: char)
    requires
        '0' <= c <= '9',
    ensures
        digit_value(c, 10) == Some(c as int - 48),
        number_value(s.push(c), 10) == number_value(s, 10) * 10 + (c as int - 48),
        number_value(Seq::<char>::empty(), 10) == 0,
{
    assert(s.push(c).drop_last() =~= s);
}

/// No piece holds the separator.
pub proof fn pieces_hold_no_separator(s: Seq<char>, c: char, i: int)
    requires
        0 <= i < pieces(s, c).len(),
    ensures
        !pieces(s, c)[i].contains(c),
    decreases s.len(),
{
    let n = run_before(s, c);
    run_before_is_first(s, c);
    if i == 0 {
        let head = s.take(n);
        if n == s.len() {
            assert(head =~= s);
        }
        assert forall|j: int| 0 <= j < head.len() implies head[j] != c by {
            assert(head[j] == s[j]);
        }
    } else {
        pieces_hold_no_separator(s.skip(n + 1), c, i - 1);
        assert(pieces(s, c)[i] == pieces(s.skip(n + 1), c)[i - 1]);
    }
}

} // verus!
