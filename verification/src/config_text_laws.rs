//! What holds of whole pattern files.

use vstd::prelude::*;

use crate::config::{
    content_of, entry_of, nothing, parsed, parsed_lines, with, with_entry, Entry, Fault, Parsed,
    Patterns,
};
use crate::config_laws::parsed_patterns_are_tidy;
use crate::text::{
    begins, is_line, is_space, lined, lines_hold_no_line_feed, lines_of, lines_of_lined,
    position_of, position_of_at, position_of_first, run_before, run_before_at,
    run_before_is_first, trimmed, trimmed_is_part, trimmed_push_space, without_cr,
};

verus! {

/// What counts of the lines: each without its comment and the white space around it, and none
/// that is blank.
pub open spec fn contents(lines: Seq<Seq<char>>) -> Seq<Seq<char>>
    decreases lines.len(),
{
    if lines.len() == 0 {
        Seq::empty()
    } else {
        let front = contents(lines.drop_last());
        let content = content_of(lines.last());
        if content.len() == 0 {
            front
        } else {
            front.push(content)
        }
    }
}

/// A text that holds no `#` is not cut at one.
proof fn no_comment(s: Seq<char>)
    requires
        !s.contains('#'),
    ensures
        content_of(s) == trimmed(s),
{
    reveal_strlit("#");
    position_of_first(s, "#"@);
    if let Some(i) = position_of(s, "#"@) {
        assert(s.subrange(i, i + 1)[0] == s[i]);
    }
}

/// The content of a line is part of it, holds no comment and no white space around it, and is
/// its own content.
proof fn content_is_final(line: Seq<char>, c: char)
    ensures
        content_of(content_of(line)) == content_of(line),
        content_of(line).contains(c) ==> line.contains(c),
        content_of(line).len() > 0 ==> !is_space(content_of(line).last()),
{
    reveal_strlit("#");
    position_of_first(line, "#"@);
    let before = match position_of(line, "#"@) {
        Some(i) => line.take(i),
        None => line,
    };
    assert forall|j: int| 0 <= j < before.len() implies before[j] != '#' by {
        if line[j] == '#' {
            assert(line.skip(j).take(1) =~= "#"@);
            assert(begins(line.skip(j), "#"@));
        }
    }
    trimmed_is_part(before, '#');
    trimmed_is_part(before, c);
    no_comment(trimmed(before));
    if before.contains(c) {
        let j = choose|j: int| 0 <= j < before.len() && before[j] == c;
        assert(line[j] == c);
    }
}

/// Two results agree: both are errors, or both are the same config.
pub open spec fn agree(a: Result<Parsed, Fault>, b: Result<Parsed, Fault>) -> bool {
    match (a, b) {
        (Ok(a), Ok(b)) => a == b,
        (Err(_), Err(_)) => true,
        _ => false,
    }
}

/// Whether an entry is taken, and what it adds, does not depend on the number of its line.
proof fn number_does_not_matter(p: Parsed, entry: Entry, m: int, n: int)
    ensures
        agree(with_entry(p, entry, m), with_entry(p, entry, n)),
{
}

/// Only the contents of lines count.
proof fn only_contents_of_lines_count(lines: Seq<Seq<char>>)
    ensures
        agree(parsed_lines(lines), parsed_lines(contents(lines))),
    decreases lines.len(),
{
    if lines.len() > 0 {
        let front = lines.drop_last();
        let content = content_of(lines.last());
        let c = contents(lines);
        only_contents_of_lines_count(front);
        content_is_final(lines.last(), '#');
        if content.len() > 0 {
            assert(c.drop_last() == contents(front));
            assert(c.last() == content);
            if let Ok(p) = parsed_lines(front) {
                number_does_not_matter(p, entry_of(content), lines.len() as int, c.len() as int);
            }
        }
    }
}

/// Dropping comments, the white space around lines, and blank lines changes nothing: a text whose
/// lines are the contents of another's is taken exactly if the other is, and then says the same.
pub proof fn only_contents_count(text: Seq<char>, bare: Seq<char>)
    requires
        lines_of(bare) == contents(lines_of(text)),
    ensures
        agree(parsed(text), parsed(bare)),
{
    only_contents_of_lines_count(lines_of(text));
}

/// The contents of a text, written one to a line, say what the text says.
pub proof fn bare_text_says_the_same(text: Seq<char>)
    ensures
        lines_of(lined(contents(lines_of(text)))) == contents(lines_of(text)),
        agree(parsed(text), parsed(lined(contents(lines_of(text))))),
{
    let c = contents(lines_of(text));
    assert forall|i: int| 0 <= i < lines_of(text).len() implies !(#[trigger] lines_of(
        text,
    )[i]).contains('\n') by {
        lines_hold_no_line_feed(text, i);
    }
    contents_are_lines(lines_of(text));
    lines_of_lined(c);
    only_contents_count(text, lined(c));
}

/// The contents of lines can stand as lines.
proof fn contents_are_lines(lines: Seq<Seq<char>>)
    requires
        forall|i: int| 0 <= i < lines.len() ==> !(#[trigger] lines[i]).contains('\n'),
    ensures
        forall|i: int| 0 <= i < contents(lines).len() ==> is_line(#[trigger] contents(lines)[i]),
    decreases lines.len(),
{
    if lines.len() > 0 {
        let front = lines.drop_last();
        assert forall|i: int| 0 <= i < front.len() implies !(#[trigger] front[i]).contains(
            '\n',
        ) by {
            assert(front[i] == lines[i]);
        }
        contents_are_lines(front);
        content_is_final(lines.last(), '\n');
        assert(lines.last() == lines[lines.len() - 1]);
        let c = contents(lines);
        assert forall|i: int| 0 <= i < c.len() implies is_line(#[trigger] c[i]) by {
            if i < contents(front).len() {
                assert(c[i] == contents(front)[i]);
            }
        }
    }
}

/// The contents of lines, taken in two parts.
proof fn contents_of_sum(a: Seq<Seq<char>>, b: Seq<Seq<char>>)
    ensures
        contents(a + b) == contents(a) + contents(b),
    decreases b.len(),
{
    if b.len() == 0 {
        assert(a + b == a);
    } else {
        contents_of_sum(a, b.drop_last());
        assert((a + b).drop_last() == a + b.drop_last());
    }
}

/// The content of one line.
proof fn contents_of_one(line: Seq<char>)
    ensures
        contents(seq![line]) == (if content_of(line).len() == 0 {
            Seq::<Seq<char>>::empty()
        } else {
            seq![content_of(line)]
        }),
{
    assert(seq![line].drop_last() == Seq::<Seq<char>>::empty());
    reveal_with_fuel(contents, 2);
}

/// A carriage return at the end of a line is no content.
proof fn carriage_return_is_no_content(line: Seq<char>)
    ensures
        content_of(without_cr(line)) == content_of(line),
{
    if line.len() > 0 && line.last() == '\r' {
        let s = line.drop_last();
        reveal_strlit("#");
        position_of_first(s, "#"@);
        match position_of(s, "#"@) {
            Some(i) => {
                assert(s.subrange(i, i + 1)[0] == '#');
                assert(line.skip(i).take(1) =~= "#"@);
                assert forall|j: int| 0 <= j < i implies !begins(#[trigger] line.skip(j), "#"@) by {
                    if begins(line.skip(j), "#"@) {
                        assert(line.skip(j).take(1)[0] == '#');
                        assert(s.skip(j).take(1) =~= "#"@);
                    }
                }
                position_of_at(line, "#"@, i);
                assert(line.take(i) =~= s.take(i));
            },
            None => {
                assert forall|j: int| 0 <= j < line.len() implies line[j] != '#' by {
                    if line[j] == '#' {
                        assert(s.skip(j).take(1) =~= "#"@);
                    }
                }
                no_comment(line);
                trimmed_push_space(s, '\r');
                assert(s.push('\r') =~= line);
            },
        }
    }
}

/// Two texts joined by a line feed have the contents of both.
proof fn contents_of_joined_texts(a: Seq<char>, b: Seq<char>)
    ensures
        contents(lines_of(a.push('\n') + b)) == contents(lines_of(a)) + contents(lines_of(b)),
    decreases a.len(),
{
    let s = a.push('\n') + b;
    let n = run_before(a, '\n');
    run_before_is_first(a, '\n');
    assert(s[a.len() as int] == '\n');
    assert forall|j: int| 0 <= j < n implies s[j] != '\n' by {
        assert(s[j] == a[j]);
    }
    assert(s[n] == '\n');
    run_before_at(s, '\n', n);
    let line = a.take(n);
    assert(s.take(n) =~= line);
    let head = seq![without_cr(line)];
    contents_of_one(without_cr(line));
    contents_of_one(line);
    carriage_return_is_no_content(line);
    assert(contents(head) == contents(seq![line]));
    if n == a.len() {
        assert(s.skip(n + 1) =~= b);
        assert(line =~= a);
        contents_of_sum(head, lines_of(b));
        if a.len() == 0 {
            assert(content_of(a).len() == 0) by {
                no_comment(a);
            }
        }
    } else {
        let rest = a.skip(n + 1);
        assert(s.skip(n + 1) =~= rest.push('\n') + b);
        contents_of_joined_texts(rest, b);
        contents_of_sum(head, lines_of(rest));
        contents_of_sum(head, lines_of(rest.push('\n') + b));
        assert(contents(lines_of(s)) =~= contents(lines_of(a)) + contents(lines_of(b)));
    }
}

/// The hosts of both lists, each once.
pub open spec fn merged(a: Seq<Seq<char>>, b: Seq<Seq<char>>) -> Seq<Seq<char>>
    decreases b.len(),
{
    if b.len() == 0 {
        a
    } else {
        with(merged(a, b.drop_last()), b.last())
    }
}

/// Merging keeps what either list holds, adds nothing, and is bounded by their lengths.
proof fn merged_holds_both(a: Seq<Seq<char>>, b: Seq<Seq<char>>)
    ensures
        forall|x: Seq<char>| #[trigger]
            merged(a, b).contains(x) == (a.contains(x) || b.contains(x)),
        a.len() <= merged(a, b).len() <= a.len() + b.len(),
    decreases b.len(),
{
    if b.len() > 0 {
        let front = b.drop_last();
        let m = merged(a, front);
        merged_holds_both(a, front);
        assert forall|x: Seq<char>| #[trigger]
            merged(a, b).contains(x) == (a.contains(x) || b.contains(x)) by {
            assert(m.push(b.last()).contains(x) == (m.contains(x) || x == b.last())) by {
                let p = m.push(b.last());
                assert(p[m.len() as int] == b.last());
                if m.contains(x) {
                    let i = choose|i: int| 0 <= i < m.len() && m[i] == x;
                    assert(p[i] == x);
                }
            }
            assert(b.contains(x) == (front.contains(x) || x == b.last())) by {
                assert(b[b.len() - 1] == b.last());
                if front.contains(x) {
                    let i = choose|i: int| 0 <= i < front.len() && front[i] == x;
                    assert(b[i] == x);
                }
                if b.contains(x) {
                    let i = choose|i: int| 0 <= i < b.len() && b[i] == x;
                    assert(i < front.len() ==> front[i] == x);
                }
            }
        }
    }
}

/// What two configs say together.
pub open spec fn combined(x: Parsed, y: Parsed) -> Parsed {
    Parsed {
        patterns: Patterns {
            exact: merged(x.patterns.exact, y.patterns.exact),
            suffixes: x.patterns.suffixes + y.patterns.suffixes,
            wildcards: x.patterns.wildcards + y.patterns.wildcards,
            regexes: x.patterns.regexes + y.patterns.regexes,
            sources: x.patterns.sources + y.patterns.sources,
        },
        ip_lists: x.ip_lists + y.ip_lists,
    }
}

/// An entry adds to two configs together what it adds to the second.
proof fn entry_adds_to_the_second(x: Parsed, y: Parsed, entry: Entry, m: int, n: int)
    requires
        with_entry(y, entry, m) is Ok,
    ensures
        with_entry(combined(x, y), entry, n) == Ok::<Parsed, Fault>(
            combined(x, with_entry(y, entry, m)->Ok_0),
        ),
{
    let z = combined(x, y);
    let w = combined(x, with_entry(y, entry, m)->Ok_0);
    merged_holds_both(x.patterns.exact, y.patterns.exact);
    let v = with_entry(z, entry, n)->Ok_0;
    match entry {
        Entry::Exact(host) => {
            if !y.patterns.exact.contains(host) {
                let e = y.patterns.exact.push(host);
                assert(e.drop_last() == y.patterns.exact);
            }
            assert(v.patterns.exact == w.patterns.exact);
        },
        _ => {},
    }
    assert(v =~~= w);
}

/// Lines after lines say what both say together.
proof fn lines_add_up(a: Seq<Seq<char>>, b: Seq<Seq<char>>)
    requires
        parsed_lines(a) is Ok,
        parsed_lines(b) is Ok,
    ensures
        parsed_lines(a + b) == Ok::<Parsed, Fault>(
            combined(parsed_lines(a)->Ok_0, parsed_lines(b)->Ok_0),
        ),
    decreases b.len(),
{
    let x = parsed_lines(a)->Ok_0;
    if b.len() == 0 {
        assert(a + b == a);
        assert(combined(x, nothing()) =~~= x);
    } else {
        let front = b.drop_last();
        lines_add_up(a, front);
        assert((a + b).drop_last() == a + front);
        entry_adds_to_the_second(
            x,
            parsed_lines(front)->Ok_0,
            entry_of(b.last()),
            b.len() as int,
            (a + b).len() as int,
        );
    }
}

/// Two pattern files joined by a line feed say what both say: their lists, suffixes, wildcards
/// and regexes one after the other, and the hosts of both, each once.
pub proof fn texts_add_up(a: Seq<char>, b: Seq<char>)
    requires
        parsed(a) is Ok,
        parsed(b) is Ok,
        parsed(a + "\n"@ + b) is Ok,
    ensures
        ({
            let x = parsed(a)->Ok_0;
            let y = parsed(b)->Ok_0;
            let z = parsed(a + "\n"@ + b)->Ok_0;
            &&& z == combined(x, y)
            &&& forall|h: Seq<char>| #[trigger]
                z.patterns.exact.contains(h) == (x.patterns.exact.contains(h)
                    || y.patterns.exact.contains(h))
            &&& x.patterns.exact.len() <= z.patterns.exact.len()
            &&& y.patterns.exact.len() <= z.patterns.exact.len()
            &&& z.patterns.exact.len() <= x.patterns.exact.len() + y.patterns.exact.len()
        }),
{
    reveal_strlit("\n");
    let s = a + "\n"@ + b;
    assert(s =~= a.push('\n') + b);
    let x = parsed(a)->Ok_0;
    let y = parsed(b)->Ok_0;
    only_contents_of_lines_count(lines_of(a));
    only_contents_of_lines_count(lines_of(b));
    only_contents_of_lines_count(lines_of(s));
    contents_of_joined_texts(a, b);
    lines_add_up(contents(lines_of(a)), contents(lines_of(b)));
    let e = x.patterns.exact;
    let f = y.patterns.exact;
    let m = merged(e, f);
    merged_holds_both(e, f);
    parsed_patterns_are_tidy(lines_of(b));
    f.unique_seq_to_set();
    m.lemma_cardinality_of_set();
    assert forall|h: Seq<char>| f.to_set().contains(h) implies m.to_set().contains(h) by {
        assert(f.contains(h));
        assert(m.contains(h));
    }
    vstd::set_lib::lemma_len_subset(f.to_set(), m.to_set());
}

} // verus!
