//! What holds of every pattern file.

use vstd::prelude::*;

use crate::config::{
    allowed, anchored, backslashes, content_of, ends_in_anchor, entry_of, matched, normalized,
    parsed, parsed_lines, pattern_count, unanchored, under, with_entry, wrapped, Entry, Fault,
    Parsed, Patterns,
};
use crate::matcher::{
    closes_unopened, glob_is_valid, glob_matches, groups_are_plain, is_literal, is_plain,
    regex_is_match, regex_is_valid, spelled, spelled_whole,
};
use crate::text::{
    begins, ends, is_space, lines_of, lowered, lowered_char, position_of, position_of_at,
    position_of_first, stripped_end, trimmed,
};

verus! {

/// A line that says `entry` allows the normalized name `n`.
pub open spec fn entry_allows(entry: Entry, n: Seq<char>) -> bool {
    match entry {
        Entry::Exact(host) => n == host,
        Entry::Suffix(suffix) => under(n, suffix),
        Entry::Wildcard(glob) => glob_matches(glob, n),
        Entry::Regex { body, source } => regex_is_match(wrapped(body), n),
        Entry::IpList(_) => false,
        Entry::Blank => false,
    }
}

/// A line that says `entry` is taken.
pub open spec fn entry_is_valid(entry: Entry) -> bool {
    match entry {
        Entry::Wildcard(glob) => glob_is_valid(glob),
        Entry::Regex { body, source } => regex_is_valid(body) && regex_is_valid(wrapped(body)),
        Entry::IpList(list) => list is Ok,
        _ => true,
    }
}

/// Some of `lines` allows the normalized name `n`.
pub open spec fn some_line_allows(lines: Seq<Seq<char>>, n: Seq<char>) -> bool {
    exists|i: int| 0 <= i < lines.len() && entry_allows(entry_of(#[trigger] lines[i]), n)
}

/// Adding a pattern matches what was matched before, and what the pattern matches.
proof fn matched_with_entry(p: Parsed, entry: Entry, number: int, n: Seq<char>)
    requires
        with_entry(p, entry, number) is Ok,
    ensures
        matched(with_entry(p, entry, number)->Ok_0.patterns, n) <==> (matched(p.patterns, n)
            || entry_allows(entry, n)),
{
    let q = with_entry(p, entry, number)->Ok_0.patterns;
    let o = p.patterns;
    assert(matched(o, n) ==> matched(q, n)) by {
        if o.exact.contains(n) {
            let i = choose|i: int| 0 <= i < o.exact.len() && o.exact[i] == n;
            assert(q.exact[i] == n);
        } else if exists|i: int| 0 <= i < o.suffixes.len() && under(n, #[trigger] o.suffixes[i]) {
            let i = choose|i: int| 0 <= i < o.suffixes.len() && under(n, #[trigger] o.suffixes[i]);
            assert(under(n, q.suffixes[i]));
        } else if exists|i: int|
            0 <= i < o.wildcards.len() && glob_matches(#[trigger] o.wildcards[i], n) {
            let i = choose|i: int|
                0 <= i < o.wildcards.len() && glob_matches(#[trigger] o.wildcards[i], n);
            assert(glob_matches(q.wildcards[i], n));
        } else if exists|i: int|
            0 <= i < o.regexes.len() && regex_is_match(#[trigger] o.regexes[i], n) {
            let i = choose|i: int|
                0 <= i < o.regexes.len() && regex_is_match(#[trigger] o.regexes[i], n);
            assert(regex_is_match(q.regexes[i], n));
        }
    }
    assert(entry_allows(entry, n) ==> matched(q, n)) by {
        match entry {
            Entry::Exact(host) => {
                if !o.exact.contains(host) {
                    assert(q.exact[q.exact.len() - 1] == host);
                }
            },
            Entry::Suffix(suffix) => {
                assert(q.suffixes[q.suffixes.len() - 1] == suffix);
            },
            Entry::Wildcard(glob) => {
                assert(q.wildcards[q.wildcards.len() - 1] == glob);
            },
            Entry::Regex { body, source } => {
                assert(q.regexes[q.regexes.len() - 1] == wrapped(body));
            },
            _ => {},
        }
    }
    assert(matched(q, n) ==> matched(o, n) || entry_allows(entry, n)) by {
        if q.exact.contains(n) {
            let i = choose|i: int| 0 <= i < q.exact.len() && q.exact[i] == n;
            if i < o.exact.len() {
                assert(o.exact[i] == n);
            }
        } else if exists|i: int| 0 <= i < q.suffixes.len() && under(n, #[trigger] q.suffixes[i]) {
            let i = choose|i: int| 0 <= i < q.suffixes.len() && under(n, #[trigger] q.suffixes[i]);
            if i < o.suffixes.len() {
                assert(under(n, o.suffixes[i]));
            }
        } else if exists|i: int|
            0 <= i < q.wildcards.len() && glob_matches(#[trigger] q.wildcards[i], n) {
            let i = choose|i: int|
                0 <= i < q.wildcards.len() && glob_matches(#[trigger] q.wildcards[i], n);
            if i < o.wildcards.len() {
                assert(glob_matches(o.wildcards[i], n));
            }
        } else if exists|i: int|
            0 <= i < q.regexes.len() && regex_is_match(#[trigger] q.regexes[i], n) {
            let i = choose|i: int|
                0 <= i < q.regexes.len() && regex_is_match(#[trigger] q.regexes[i], n);
            if i < o.regexes.len() {
                assert(regex_is_match(o.regexes[i], n));
            }
        }
    }
}

/// The lines match what some line of them matches.
proof fn lines_match_what_a_line_matches(lines: Seq<Seq<char>>, n: Seq<char>)
    requires
        parsed_lines(lines) is Ok,
    ensures
        matched(parsed_lines(lines)->Ok_0.patterns, n) <==> some_line_allows(lines, n),
    decreases lines.len(),
{
    if lines.len() > 0 {
        let front = lines.drop_last();
        lines_match_what_a_line_matches(front, n);
        matched_with_entry(
            parsed_lines(front)->Ok_0,
            entry_of(lines.last()),
            lines.len() as int,
            n,
        );
        if some_line_allows(front, n) {
            let i = choose|i: int|
                0 <= i < front.len() && entry_allows(entry_of(#[trigger] front[i]), n);
            assert(entry_allows(entry_of(lines[i]), n));
        }
        if entry_allows(entry_of(lines.last()), n) {
            assert(entry_allows(entry_of(lines[lines.len() - 1]), n));
        }
        if some_line_allows(lines, n) {
            let i = choose|i: int|
                0 <= i < lines.len() && entry_allows(entry_of(#[trigger] lines[i]), n);
            if i < front.len() {
                assert(entry_allows(entry_of(front[i]), n));
            }
        }
    }
}

/// A pattern file allows a name if and only if one of its lines does.
pub proof fn allowed_iff_a_line_allows(text: Seq<char>, name: Seq<char>)
    requires
        parsed(text) is Ok,
    ensures
        allowed(parsed(text)->Ok_0.patterns, name) <==> some_line_allows(
            lines_of(text),
            normalized(name),
        ),
{
    lines_match_what_a_line_matches(lines_of(text), normalized(name));
}

/// Every line is taken.
pub open spec fn all_valid(lines: Seq<Seq<char>>) -> bool {
    forall|i: int| 0 <= i < lines.len() ==> line_is_valid(#[trigger] lines[i])
}

/// A line is taken.
pub open spec fn line_is_valid(line: Seq<char>) -> bool {
    entry_is_valid(entry_of(line))
}

/// An entry is taken if and only if it is valid; otherwise its line is the one reported.
proof fn entry_is_taken_iff_valid(p: Parsed, line: Seq<char>, number: int)
    ensures
        with_entry(p, entry_of(line), number) is Ok <==> line_is_valid(line),
        with_entry(p, entry_of(line), number) matches Err(f) ==> fault_line(f) == Some(number),
{
}

/// Lines are taken if and only if every one of them is valid; otherwise the first that is not
/// is the one reported.
pub proof fn taken_iff_every_line_is_valid(lines: Seq<Seq<char>>)
    ensures
        parsed_lines(lines) is Ok <==> all_valid(lines),
        parsed_lines(lines) matches Err(f) ==> exists|k: int|
            {
                &&& 0 <= k < lines.len()
                &&& !line_is_valid(#[trigger] lines[k])
                &&& all_valid(lines.take(k))
                &&& fault_line(f) == Some(k + 1)
            },
    decreases lines.len(),
{
    if lines.len() > 0 {
        let front = lines.drop_last();
        let last = lines.len() - 1;
        taken_iff_every_line_is_valid(front);
        match parsed_lines(front) {
            Ok(p) => {
                entry_is_taken_iff_valid(p, lines[last], lines.len() as int);
                all_valid_step(lines);
                assert(lines.take(last) == front);
            },
            Err(f) => {
                all_valid_step(lines);
                let k = choose|k: int|
                    {
                        &&& 0 <= k < front.len()
                        &&& !line_is_valid(#[trigger] front[k])
                        &&& all_valid(front.take(k))
                        &&& fault_line(f) == Some(k + 1)
                    };
                assert(front[k] == lines[k]);
                assert(front.take(k) == lines.take(k));
            },
        }
    }
}

/// Lines are all valid if those before the last are, and the last is.
proof fn all_valid_step(lines: Seq<Seq<char>>)
    requires
        lines.len() > 0,
    ensures
        all_valid(lines) <==> all_valid(lines.drop_last()) && line_is_valid(lines.last()),
{
    let front = lines.drop_last();
    if all_valid(lines) {
        assert forall|i: int| 0 <= i < front.len() implies line_is_valid(#[trigger] front[i]) by {
            assert(front[i] == lines[i]);
        }
        assert(line_is_valid(lines[lines.len() - 1]));
    }
    if all_valid(front) && line_is_valid(lines.last()) {
        assert forall|i: int| 0 <= i < lines.len() implies line_is_valid(#[trigger] lines[i]) by {
            if i < front.len() {
                assert(front[i] == lines[i]);
            }
        }
    }
}

/// The line that a fault names, if it names one.
pub open spec fn fault_line(f: Fault) -> Option<int> {
    match f {
        Fault::JsonList { line, error } => Some(line),
        Fault::Regex { line, text } => Some(line),
        Fault::Wildcard { line } => Some(line),
        Fault::WildcardSet => None,
    }
}

/// An empty allow-list refuses every name.
pub proof fn nothing_allowed_without_patterns(p: Patterns, name: Seq<char>)
    requires
        pattern_count(p) == 0,
    ensures
        !allowed(p, name),
{
}

/// A comment changes nothing: what follows a `#` does not count.
pub proof fn comments_are_ignored(line: Seq<char>, comment: Seq<char>)
    requires
        !line.contains('#'),
    ensures
        content_of(line + "#"@ + comment) == content_of(line),
        entry_of(line + "#"@ + comment) == entry_of(line),
{
    reveal_strlit("#");
    let s = line + "#"@ + comment;
    let n = line.len() as int;
    assert(s.skip(n).take(1) =~= "#"@);
    assert forall|j: int| 0 <= j < n implies !begins(#[trigger] s.skip(j), "#"@) by {
        if begins(s.skip(j), "#"@) {
            assert(s.skip(j).take(1)[0] == s[j]);
            assert(s[j] == line[j]);
        }
    }
    position_of_at(s, "#"@, n);
    assert(s.take(n) =~= line);
    position_of_first(line, "#"@);
    match position_of(line, "#"@) {
        Some(i) => {
            assert(line.subrange(i, i + 1)[0] == line[i]);
        },
        None => {},
    }
}

/// A blank line changes nothing.
pub proof fn blank_lines_are_ignored(lines: Seq<Seq<char>>, line: Seq<char>)
    requires
        content_of(line).len() == 0,
    ensures
        parsed_lines(lines.push(line)) == parsed_lines(lines),
{
    assert(lines.push(line).drop_last() == lines);
}

/// A `JsonList` line adds its list and leaves the patterns alone.
pub proof fn json_lists_leave_patterns_alone(lines: Seq<Seq<char>>, line: Seq<char>)
    requires
        entry_of(line) is IpList,
        parsed_lines(lines.push(line)) is Ok,
    ensures
        parsed_lines(lines) is Ok,
        parsed_lines(lines.push(line))->Ok_0.patterns == parsed_lines(lines)->Ok_0.patterns,
        parsed_lines(lines.push(line))->Ok_0.ip_lists == parsed_lines(lines)->Ok_0.ip_lists.push(
            entry_of(line)->IpList_0->Ok_0,
        ),
{
    assert(lines.push(line).drop_last() == lines);
}

/// Every regex comes from a line, and every host name is kept once.
pub proof fn parsed_patterns_are_tidy(lines: Seq<Seq<char>>)
    requires
        parsed_lines(lines) is Ok,
    ensures
        parsed_lines(lines)->Ok_0.patterns.exact.no_duplicates(),
        parsed_lines(lines)->Ok_0.patterns.regexes.len()
            == parsed_lines(lines)->Ok_0.patterns.sources.len(),
        pattern_count(parsed_lines(lines)->Ok_0.patterns) <= lines.len(),
    decreases lines.len(),
{
    if lines.len() > 0 {
        parsed_patterns_are_tidy(lines.drop_last());
        let p = parsed_lines(lines.drop_last())->Ok_0.patterns;
        let q = parsed_lines(lines)->Ok_0.patterns;
        assert(q.exact.no_duplicates()) by {
            match entry_of(lines.last()) {
                Entry::Exact(host) => {
                    if !p.exact.contains(host) {
                        assert forall|i: int, j: int|
                            0 <= i < q.exact.len() && 0 <= j < q.exact.len() && i
                                != j implies q.exact[i] != q.exact[j] by {
                            if i == q.exact.len() - 1 {
                                assert(p.exact[j] == q.exact[j]);
                            } else if j == q.exact.len() - 1 {
                                assert(p.exact[i] == q.exact[i]);
                            }
                        }
                    }
                },
                _ => {},
            }
        }
    }
}

/// Removing dots at the end and lower case do not interfere.
proof fn normalizing_commutes(s: Seq<char>)
    ensures
        stripped_end(lowered(s), '.') == lowered(stripped_end(s, '.')),
        lowered(lowered(s)) == lowered(s),
    decreases s.len(),
{
    assert(lowered(lowered(s)) =~= lowered(s));
    if s.len() > 0 {
        assert(lowered(s).last() == lowered_char(s.last()));
        if s.last() == '.' {
            assert(lowered(s).drop_last() =~= lowered(s.drop_last()));
            normalizing_commutes(s.drop_last());
        }
    }
}

/// Matching does not depend on case: names that differ in the case of ASCII letters alone are
/// allowed alike.
pub proof fn case_does_not_matter(p: Patterns, a: Seq<char>, b: Seq<char>)
    requires
        lowered(a) == lowered(b),
    ensures
        allowed(p, a) == allowed(p, b),
{
    normalizing_commutes(a);
    normalizing_commutes(b);
}

/// A trailing dot does not matter.
pub proof fn trailing_dot_does_not_matter(p: Patterns, name: Seq<char>)
    ensures
        allowed(p, name.push('.')) == allowed(p, name),
{
    assert(name.push('.').drop_last() == name);
}

/// A line that is a host name allows that host, in any case.
pub proof fn exact_line_allows_its_host(text: Seq<char>, i: int, name: Seq<char>)
    requires
        parsed(text) is Ok,
        0 <= i < lines_of(text).len(),
        entry_of(lines_of(text)[i]) is Exact,
        lowered(name) == lowered(content_of(lines_of(text)[i])),
        name.last() != '.',
    ensures
        allowed(parsed(text)->Ok_0.patterns, name),
{
    let n = normalized(name);
    allowed_iff_a_line_allows(text, name);
    assert(stripped_end(name, '.') == name);
    assert(entry_allows(entry_of(lines_of(text)[i]), n));
}

/// The line `.suffix` allows `suffix` and what ends with a dot and `suffix`, and nothing else.
pub proof fn suffix_line_meaning(line: Seq<char>, suffix: Seq<char>)
    requires
        content_of(line) == "."@ + suffix,
    ensures
        forall|n: Seq<char>| #[trigger]
            entry_allows(entry_of(line), n) <==> n == lowered(suffix) || ends(
                n,
                "."@ + lowered(suffix),
            ),
{
    reveal_strlit(".");
    reveal_strlit("JsonList(");
    reveal_strlit("re:");
    reveal_strlit("*.");
    let c = content_of(line);
    let l = lowered(c);
    assert(c[0] == '.');
    assert(l[0] == '.');
    if begins(c, "JsonList("@) {
        assert(c.take(9)[0] == 'J');
    }
    if begins(l, "re:"@) {
        assert(l.take(3)[0] == 'r');
    }
    if begins(l, "*."@) {
        assert(l.take(2)[0] == '*');
    }
    assert(l.take(1) =~= "."@);
    assert(l.skip(1) =~= lowered(suffix));
}

/// The line `.suffix` allows the domain `suffix` and all of its subdomains.
pub proof fn suffix_line_allows_domain_and_subdomains(
    text: Seq<char>,
    i: int,
    suffix: Seq<char>,
    sub: Seq<char>,
)
    requires
        parsed(text) is Ok,
        0 <= i < lines_of(text).len(),
        content_of(lines_of(text)[i]) == "."@ + suffix,
        suffix.len() > 0,
        suffix.last() != '.',
    ensures
        allowed(parsed(text)->Ok_0.patterns, suffix),
        allowed(parsed(text)->Ok_0.patterns, sub + "."@ + suffix),
{
    reveal_strlit(".");
    let line = lines_of(text)[i];
    suffix_line_meaning(line, suffix);
    allowed_iff_a_line_allows(text, suffix);
    assert(stripped_end(suffix, '.') == suffix);
    assert(entry_allows(entry_of(lines_of(text)[i]), normalized(suffix)));
    let name = sub + "."@ + suffix;
    allowed_iff_a_line_allows(text, name);
    assert(stripped_end(name, '.') == name);
    let n = lowered(name);
    assert(n.skip(n.len() - suffix.len() - 1) =~= "."@ + lowered(suffix));
    assert(entry_allows(entry_of(lines_of(text)[i]), normalized(name)));
}

/// The line `*.suffix` is valid; it allows what ends with a dot and `suffix`, and nothing else.
pub proof fn wildcard_line_meaning(line: Seq<char>, suffix: Seq<char>)
    requires
        content_of(line) == "*."@ + suffix,
        suffix.len() > 0,
        forall|k: int| 0 <= k < suffix.len() ==> is_plain(#[trigger] suffix[k]),
    ensures
        entry_is_valid(entry_of(line)),
        forall|n: Seq<char>| #[trigger]
            entry_allows(entry_of(line), n) <==> ends(n, "."@ + lowered(suffix)),
{
    reveal_strlit(".");
    reveal_strlit("JsonList(");
    reveal_strlit("re:");
    reveal_strlit("*.");
    let c = content_of(line);
    let l = lowered(c);
    assert(c[0] == '*');
    if begins(c, "JsonList("@) {
        assert(c.take(9)[0] == 'J');
    }
    if begins(l, "re:"@) {
        assert(l.take(3)[0] == 'r');
    }
    assert(l.take(2) =~= "*."@);
    assert(l =~= "*."@ + lowered(suffix));
    assert forall|k: int| 2 <= k < l.len() implies is_plain(#[trigger] l[k]) by {
        assert(is_plain(suffix[k - 2]));
        assert(l[k] == lowered_char(suffix[k - 2]));
    }
    assert(l.skip(1) =~= "."@ + lowered(suffix));
}

/// The line `*.suffix` allows every subdomain of `suffix`, of however many labels, and does
/// not itself allow `suffix`.
pub proof fn wildcard_line_allows_subdomains(
    text: Seq<char>,
    i: int,
    suffix: Seq<char>,
    sub: Seq<char>,
)
    requires
        parsed(text) is Ok,
        0 <= i < lines_of(text).len(),
        content_of(lines_of(text)[i]) == "*."@ + suffix,
        suffix.len() > 0,
        suffix.last() != '.',
        forall|k: int| 0 <= k < suffix.len() ==> is_plain(#[trigger] suffix[k]),
    ensures
        allowed(parsed(text)->Ok_0.patterns, sub + "."@ + suffix),
        !entry_allows(entry_of(lines_of(text)[i]), normalized(suffix)),
{
    reveal_strlit(".");
    let line = lines_of(text)[i];
    wildcard_line_meaning(line, suffix);
    assert(stripped_end(suffix, '.') == suffix);
    let name = sub + "."@ + suffix;
    allowed_iff_a_line_allows(text, name);
    assert(stripped_end(name, '.') == name);
    let n = lowered(name);
    assert(n.skip(n.len() - suffix.len() - 1) =~= "."@ + lowered(suffix));
    assert(entry_allows(entry_of(lines_of(text)[i]), normalized(name)));
}

/// `host` as a regular expression: its dots are escaped.
pub open spec fn escaped(host: Seq<char>) -> Seq<char>
    decreases host.len(),
{
    if host.len() == 0 {
        Seq::empty()
    } else if host[0] == '.' {
        seq!['\\', '.'] + escaped(host.skip(1))
    } else {
        seq![host[0]] + escaped(host.skip(1))
    }
}

/// `host` is made of lower-case letters, digits, `-`, `_` and dots.
pub open spec fn is_host(host: Seq<char>) -> bool {
    host.len() > 0 && forall|k: int|
        0 <= k < host.len() ==> is_literal(#[trigger] host[k]) || host[k] == '.'
}

/// What escaping spells out, and the characters that it leaves.
#[verifier::spinoff_prover]
proof fn escaping_spells_out(host: Seq<char>)
    requires
        forall|k: int| 0 <= k < host.len() ==> is_literal(#[trigger] host[k]) || host[k] == '.',
    ensures
        spelled(escaped(host)) == Some(host),
        escaped(host).len() >= host.len(),
        host.len() > 0 ==> escaped(host).last() != '\\' && escaped(host).last() != '$',
        forall|k: int|
            0 <= k < escaped(host).len() ==> is_literal(#[trigger] escaped(host)[k])
                || escaped(host)[k] == '.' || escaped(host)[k] == '\\',
    decreases host.len(),
{
    if host.len() > 0 {
        let rest = host.skip(1);
        assert forall|k: int| 0 <= k < rest.len() implies is_literal(#[trigger] rest[k]) || rest[k]
            == '.' by {
            assert(rest[k] == host[k + 1]);
        }
        escaping_spells_out(rest);
        let e = escaped(host);
        assert(is_literal(host[0]) || host[0] == '.');
        if host[0] == '.' {
            assert(e.skip(2) =~= escaped(rest));
        } else {
            assert(e.skip(1) =~= escaped(rest));
        }
        assert(seq![host[0]] + rest =~= host);
        assert forall|k: int| 0 <= k < e.len() implies is_literal(#[trigger] e[k]) || e[k] == '.'
            || e[k] == '\\' by {
            let n = e.len() - escaped(rest).len();
            if k >= n {
                assert(e[k] == escaped(rest)[k - n]);
            }
        }
    }
}

/// A regex is matched against the whole name: the line `re:host`, with the dots of `host`
/// escaped, allows `host` and nothing else, whether or not it is anchored.
#[verifier::spinoff_prover]
pub proof fn regex_line_matches_the_whole_name(line: Seq<char>, host: Seq<char>)
    requires
        is_host(host),
        content_of(line) == "re:"@ + escaped(host) || content_of(line) == "re:^"@ + escaped(host)
            + "$"@,
    ensures
        entry_of(line) is Regex,
        forall|n: Seq<char>| #[trigger] entry_allows(entry_of(line), n) <==> n == host,
{
    reveal_strlit("re:");
    reveal_strlit("re:^");
    reveal_strlit("^");
    reveal_strlit("$");
    reveal_strlit("^(?:");
    reveal_strlit(")$");
    reveal_strlit("JsonList(");
    escaping_spells_out(host);
    let e = escaped(host);
    let c = content_of(line);
    let l = lowered(c);
    assert(is_literal(e[0]) || e[0] == '.' || e[0] == '\\');
    assert(is_literal(e.last()) || e.last() == '.');
    if begins(c, "JsonList("@) {
        assert(c.take(9)[0] == 'J');
    }
    assert(l.take(3) =~= "re:"@);
    let body = c.skip(3);
    if c == "re:"@ + e {
        assert(body =~= e);
        if begins(body, "^"@) {
            assert(body.take(1)[0] == '^');
        }
    } else {
        assert(body =~= "^"@ + e + "$"@);
        assert(body.take(1) =~= "^"@);
        let t = body.skip(1);
        assert(t =~= e + "$"@);
        assert(t.drop_last() =~= e);
        assert(backslashes(e) == 0);
        assert(ends_in_anchor(t));
    }
    assert(!is_space(body[0]));
    assert(!is_space(body.last()));
    assert(trimmed(body) == body);
    assert(unanchored(body) == e);
    let pattern = wrapped(e);
    assert(pattern.take(4) =~= "^(?:"@);
    let rest = pattern.skip(4);
    assert(rest =~= e + ")$"@);
    assert(rest.skip(rest.len() - 2) =~= ")$"@);
    assert(rest.take(rest.len() - 2) =~= e);
    assert(spelled_whole(pattern) == Some(host));
}

/// A regex line whose body closes a group that it has not opened is refused, so that it cannot
/// leave the group between the anchors.
pub proof fn regex_line_cannot_leave_its_anchors(line: Seq<char>)
    requires
        entry_of(line) is Regex,
        groups_are_plain(entry_of(line)->body),
        closes_unopened(entry_of(line)->body, 0),
    ensures
        !entry_is_valid(entry_of(line)),
{
}

/// Only the anchors that the user added are stripped: a dollar that is escaped stays.
pub proof fn escaped_dollar_is_no_anchor(body: Seq<char>)
    requires
        body.len() >= 2,
        trimmed(body) == body,
        body[0] != '^',
        body[body.len() - 1] == '$',
        body[body.len() - 2] == '\\',
        body.len() == 2 || body[body.len() - 3] != '\\',
    ensures
        anchored(body) == wrapped(body),
{
    reveal_strlit("^");
    if begins(body, "^"@) {
        assert(body.take(1)[0] == '^');
    }
    let front = body.drop_last();
    assert(front.last() == '\\');
    assert(backslashes(front.drop_last()) == 0);
    assert(backslashes(front) == 1);
}

/// The case of a regex is kept: the body of a regex line is what stands behind `re:`, as it is
/// written.
pub proof fn regex_keeps_its_case(line: Seq<char>, body: Seq<char>)
    requires
        content_of(line) == "re:"@ + body,
    ensures
        entry_of(line) == (Entry::Regex { body: unanchored(body), source: content_of(line) }),
{
    reveal_strlit("re:");
    reveal_strlit("JsonList(");
    let c = content_of(line);
    if begins(c, "JsonList("@) {
        assert(c.take(9)[0] == 'J');
    }
    assert(lowered(c).take(3) =~= "re:"@);
    assert(c.skip(3) =~= body);
}

} // verus!
