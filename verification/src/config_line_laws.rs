//! What each kind of line adds to a config.

use vstd::prelude::*;

use crate::config::{
    allowed, anchored, backslashes, content_of, ends_in_anchor, entry_of, json_list_of, matched,
    nonblank, normalized, parsed, parsed_lines, unanchored, wrapped, Fault, IpList,
    JsonListError, Parsed, Patterns,
};
use crate::config_laws::{entry_allows, parsed_patterns_are_tidy};
use crate::matcher::{glob_is_valid, glob_matches, globs_build, regex_is_match, regex_is_valid};
use crate::text::{
    begins, cut, ends, is_space, joined, lines_of, lowered, pieces, pieces_of_joined,
    position_of_at, stripped_end, trimmed,
};

verus! {

/// The kinds of lines.
pub enum Kind {
    Blank,
    List,
    Regex,
    Wildcard,
    Suffix,
    Exact,
}

/// The kind of a line, which its prefix tells.
pub open spec fn kind_of(line: Seq<char>) -> Kind {
    let content = content_of(line);
    if content.len() == 0 {
        Kind::Blank
    } else if begins(content, "JsonList("@) {
        Kind::List
    } else if begins(lowered(content), "re:"@) {
        Kind::Regex
    } else if begins(lowered(content), "*."@) {
        Kind::Wildcard
    } else if begins(lowered(content), "."@) {
        Kind::Suffix
    } else {
        Kind::Exact
    }
}

/// One more line adds one pattern or list of its kind behind those before it, and changes nothing
/// else; or it is reported, under its number, as the fault of its kind.
pub proof fn next_line_adds_its_kind(lines: Seq<Seq<char>>, line: Seq<char>, p: Parsed)
    requires
        parsed_lines(lines) == Ok::<Parsed, Fault>(p),
    ensures
        ({
            let r = parsed_lines(lines.push(line));
            let content = content_of(line);
            let lower = lowered(content);
            let number = lines.len() + 1;
            let body = unanchored(content.skip(3));
            match kind_of(line) {
                Kind::Blank => r == Ok::<Parsed, Fault>(p),
                Kind::List => match json_list_of(content) {
                    Ok(list) => r == Ok::<Parsed, Fault>(
                        Parsed { patterns: p.patterns, ip_lists: p.ip_lists.push(list) },
                    ),
                    Err(error) => r == Err::<Parsed, Fault>(
                        Fault::JsonList { line: number as int, error },
                    ),
                },
                Kind::Regex => if regex_is_valid(body) && regex_is_valid(wrapped(body)) {
                    &&& r is Ok
                    &&& r->Ok_0.ip_lists == p.ip_lists
                    &&& r->Ok_0.patterns.exact == p.patterns.exact
                    &&& r->Ok_0.patterns.suffixes == p.patterns.suffixes
                    &&& r->Ok_0.patterns.wildcards == p.patterns.wildcards
                    &&& r->Ok_0.patterns.regexes == p.patterns.regexes.push(wrapped(body))
                    &&& r->Ok_0.patterns.sources == p.patterns.sources.push(content)
                } else {
                    r == Err::<Parsed, Fault>(Fault::Regex { line: number as int, text: content })
                },
                Kind::Wildcard => if glob_is_valid(lower) {
                    &&& r is Ok
                    &&& r->Ok_0.ip_lists == p.ip_lists
                    &&& r->Ok_0.patterns.exact == p.patterns.exact
                    &&& r->Ok_0.patterns.suffixes == p.patterns.suffixes
                    &&& r->Ok_0.patterns.wildcards == p.patterns.wildcards.push(lower)
                    &&& r->Ok_0.patterns.regexes == p.patterns.regexes
                    &&& r->Ok_0.patterns.sources == p.patterns.sources
                } else {
                    r == Err::<Parsed, Fault>(Fault::Wildcard { line: number as int })
                },
                Kind::Suffix => {
                    &&& r is Ok
                    &&& r->Ok_0.ip_lists == p.ip_lists
                    &&& r->Ok_0.patterns.exact == p.patterns.exact
                    &&& r->Ok_0.patterns.suffixes == p.patterns.suffixes.push(lower.skip(1))
                    &&& r->Ok_0.patterns.wildcards == p.patterns.wildcards
                    &&& r->Ok_0.patterns.regexes == p.patterns.regexes
                    &&& r->Ok_0.patterns.sources == p.patterns.sources
                },
                Kind::Exact => {
                    &&& r is Ok
                    &&& r->Ok_0.ip_lists == p.ip_lists
                    &&& p.patterns.exact.contains(lower) ==> r->Ok_0.patterns.exact
                        == p.patterns.exact
                    &&& !p.patterns.exact.contains(lower) ==> r->Ok_0.patterns.exact
                        == p.patterns.exact.push(lower)
                    &&& r->Ok_0.patterns.suffixes == p.patterns.suffixes
                    &&& r->Ok_0.patterns.wildcards == p.patterns.wildcards
                    &&& r->Ok_0.patterns.regexes == p.patterns.regexes
                    &&& r->Ok_0.patterns.sources == p.patterns.sources
                },
            }
        }),
{
    assert(lines.push(line).drop_last() =~= lines);
    assert(lines.push(line).last() == line);
    reveal_strlit(".");
    reveal_strlit("re:");
}

/// An empty file says nothing, and after a fault nothing more is read.
pub proof fn nothing_is_read_after_a_fault(lines: Seq<Seq<char>>, line: Seq<char>)
    ensures
        ({
            let none = parsed_lines(Seq::<Seq<char>>::empty());
            &&& none is Ok
            &&& none->Ok_0.ip_lists.len() == 0
            &&& none->Ok_0.patterns.exact.len() == 0
            &&& none->Ok_0.patterns.suffixes.len() == 0
            &&& none->Ok_0.patterns.wildcards.len() == 0
            &&& none->Ok_0.patterns.regexes.len() == 0
            &&& none->Ok_0.patterns.sources.len() == 0
        }),
        parsed_lines(lines) is Err ==> parsed_lines(lines.push(line)) == parsed_lines(lines),
{
    assert(lines.push(line).drop_last() =~= lines);
}

/// A line without a prefix allows the host that it names, in any case, and nothing else.
pub proof fn exact_line_meaning(line: Seq<char>, n: Seq<char>)
    requires
        kind_of(line) is Exact,
    ensures
        entry_allows(entry_of(line), n) <==> n == lowered(content_of(line)),
{
}

/// How many of the lines are of a kind.
pub open spec fn number_of(lines: Seq<Seq<char>>, kind: Kind) -> nat {
    lines.filter(|line: Seq<char>| kind_of(line) == kind).len()
}

/// Counting one more line.
proof fn number_of_next(lines: Seq<Seq<char>>, kind: Kind)
    requires
        lines.len() > 0,
    ensures
        number_of(lines, kind) == number_of(lines.drop_last(), kind) + (if kind_of(lines.last())
            == kind {
            1nat
        } else {
            0nat
        }),
{
    reveal(Seq::filter);
}

/// There are as many suffixes, wildcards, regexes and lists as lines of those kinds, and the exact
/// hosts are those of the lines of that kind, each once.
pub proof fn patterns_are_counted_by_kind(lines: Seq<Seq<char>>, p: Parsed)
    requires
        parsed_lines(lines) == Ok::<Parsed, Fault>(p),
    ensures
        p.patterns.suffixes.len() == number_of(lines, Kind::Suffix),
        p.patterns.wildcards.len() == number_of(lines, Kind::Wildcard),
        p.patterns.regexes.len() == number_of(lines, Kind::Regex),
        p.patterns.sources.len() == number_of(lines, Kind::Regex),
        p.ip_lists.len() == number_of(lines, Kind::List),
        p.patterns.exact.no_duplicates(),
        forall|h: Seq<char>|
            p.patterns.exact.contains(h) <==> #[trigger] names_host(lines, h),
    decreases lines.len(),
{
    parsed_patterns_are_tidy(lines);
    if lines.len() == 0 {
        reveal(Seq::filter);
        nothing_is_read_after_a_fault(lines, Seq::empty());
        assert(lines =~= Seq::<Seq<char>>::empty());
    } else {
        let front = lines.drop_last();
        let line = lines.last();
        let q = parsed_lines(front)->Ok_0;
        assert(front.push(line) =~= lines);
        patterns_are_counted_by_kind(front, q);
        next_line_adds_its_kind(front, line, q);
        number_of_next(lines, Kind::Suffix);
        number_of_next(lines, Kind::Wildcard);
        number_of_next(lines, Kind::Regex);
        number_of_next(lines, Kind::List);
        assert forall|h: Seq<char>|
            p.patterns.exact.contains(h) <==> #[trigger] names_host(lines, h) by {
            names_host_next(lines, h);
            assert(q.patterns.exact.contains(h) <==> names_host(front, h));
            let lower = lowered(content_of(line));
            let e = q.patterns.exact;
            let f = e.push(lower);
            assert(f.contains(h) <==> e.contains(h) || h == lower) by {
                assert(f[e.len() as int] == lower);
                if e.contains(h) {
                    let i = choose|i: int| 0 <= i < e.len() && e[i] == h;
                    assert(f[i] == h);
                }
            }
        }
    }
}

/// Some of the lines is the host `h` without a prefix.
pub open spec fn names_host(lines: Seq<Seq<char>>, h: Seq<char>) -> bool {
    exists|i: int|
        0 <= i < lines.len() && kind_of(#[trigger] lines[i]) is Exact && lowered(
            content_of(lines[i]),
        ) == h
}

/// Naming a host in one more line.
proof fn names_host_next(lines: Seq<Seq<char>>, h: Seq<char>)
    requires
        lines.len() > 0,
    ensures
        names_host(lines, h) <==> names_host(lines.drop_last(), h) || (kind_of(
            lines.last(),
        ) is Exact && lowered(content_of(lines.last())) == h),
{
    let front = lines.drop_last();
    if names_host(front, h) {
        let i = choose|i: int|
            0 <= i < front.len() && kind_of(#[trigger] front[i]) is Exact && lowered(
                content_of(front[i]),
            ) == h;
        assert(lines[i] == front[i]);
    }
    if names_host(lines, h) {
        let i = choose|i: int|
            0 <= i < lines.len() && kind_of(#[trigger] lines[i]) is Exact && lowered(
                content_of(lines[i]),
            ) == h;
        assert(i < front.len() ==> front[i] == lines[i]);
    }
    assert(lines[lines.len() - 1] == lines.last());
}

/// `key` can stand in a key list: it is not empty, has no white space around it and no comma.
pub open spec fn is_key(key: Seq<char>) -> bool {
    key.len() > 0 && trimmed(key) == key && !key.contains(',')
}

/// The line `JsonList(url, [key, key])` reads as its URL and its keys, in order.
pub proof fn json_list_reads_back(url: Seq<char>, keys: Seq<Seq<char>>)
    requires
        url.len() > 0,
        trimmed(url) == url,
        !url.contains('['),
        keys.len() > 0,
        forall|i: int| 0 <= i < keys.len() ==> is_key(#[trigger] keys[i]),
    ensures
        json_list_of("JsonList("@ + url + ", ["@ + joined(keys, seq![',']) + "])"@) == Ok::<
            IpList,
            JsonListError,
        >(IpList { url, keys }),
{
    reveal_strlit("JsonList(");
    reveal_strlit(", [");
    reveal_strlit("])");
    reveal_strlit(")");
    reveal_strlit("]");
    let list = joined(keys, seq![',']);
    let line = "JsonList("@ + url + ", ["@ + list + "])"@;
    assert(line.take(9) =~= "JsonList("@);
    let tail = line.skip(9);
    assert(tail =~= url + ", ["@ + list + "])"@);
    assert(tail.skip(tail.len() - 1) =~= ")"@);
    let inner = tail.take(tail.len() - 1);
    assert(inner =~= url + ", ["@ + list + "]"@);
    let n = url.len() as int;
    assert(inner.skip(n).take(3) =~= ", ["@);
    assert forall|j: int| 0 <= j < n implies !begins(#[trigger] inner.skip(j), ", ["@) by {
        if begins(inner.skip(j), ", ["@) {
            let w = inner.skip(j).take(3);
            assert(w[0] == ',' && w[1] == ' ' && w[2] == '[');
            assert(inner[j] == ',' && inner[j + 1] == ' ' && inner[j + 2] == '[');
            if j + 2 < n {
                assert(url[j + 2] == '[');
            } else if j + 2 == n {
                assert(inner[n] == ',');
            } else {
                assert(inner[n] == ',');
            }
        }
    }
    position_of_at(inner, ", ["@, n);
    assert(inner.take(n) =~= url);
    let rest = inner.skip(n + 3);
    assert(rest =~= list + "]"@);
    assert(rest.skip(rest.len() - 1) =~= "]"@);
    assert(rest.take(rest.len() - 1) =~= list);
    assert forall|i: int| 0 <= i < keys.len() implies !(#[trigger] keys[i]).contains(',') by {
        assert(is_key(keys[i]));
    }
    pieces_of_joined(keys, ',');
    keys_are_kept(keys);
}

/// Keys that are trimmed and not empty are kept as they are.
proof fn keys_are_kept(keys: Seq<Seq<char>>)
    requires
        forall|i: int| 0 <= i < keys.len() ==> is_key(#[trigger] keys[i]),
    ensures
        nonblank(keys) == keys,
    decreases keys.len(),
{
    if keys.len() > 0 {
        let front = keys.drop_last();
        assert forall|i: int| 0 <= i < front.len() implies is_key(#[trigger] front[i]) by {
            assert(front[i] == keys[i]);
        }
        keys_are_kept(front);
        assert(is_key(keys[keys.len() - 1]));
        assert(front.push(keys.last()) =~= keys);
    }
}

/// Keys after keys are kept in order; white space around a key does not count, and a blank key is
/// left out.
pub proof fn keys_add_up(a: Seq<Seq<char>>, b: Seq<Seq<char>>, key: Seq<char>)
    ensures
        nonblank(a + b) == nonblank(a) + nonblank(b),
        trimmed(key).len() > 0 ==> nonblank(seq![key]) == seq![trimmed(key)],
        trimmed(key).len() == 0 ==> nonblank(seq![key]).len() == 0,
    decreases b.len(),
{
    assert(seq![key].drop_last() =~= Seq::<Seq<char>>::empty());
    assert(seq![key].last() == key);
    reveal_with_fuel(nonblank, 2);
    if b.len() == 0 {
        assert(a + b =~= a);
        assert(nonblank(a) + nonblank(b) =~= nonblank(a));
    } else {
        keys_add_up(a, b.drop_last(), key);
        assert((a + b).drop_last() =~= a + b.drop_last());
        assert((a + b).last() == b.last());
        assert(nonblank(a + b) =~= nonblank(a) + nonblank(b));
    }
}

/// What is wrong with a `JsonList` line is told in this order: its shape, the separator, the
/// closing bracket, the URL, the keys; and a line with none of these faults is taken.
pub proof fn json_list_faults(inner: Seq<char>, line: Seq<char>)
    ensures
        !(begins(line, "JsonList("@) && ends(line.skip(9), ")"@)) ==> json_list_of(line) == Err::<
            IpList,
            JsonListError,
        >(JsonListError::Shape),
        ({
            let r = json_list_of("JsonList("@ + inner + ")"@);
            match cut(inner, ", ["@) {
                None => r == Err::<IpList, JsonListError>(JsonListError::Separator),
                Some((url, rest)) => {
                    &&& !ends(rest, "]"@) ==> r == Err::<IpList, JsonListError>(
                        JsonListError::Unclosed,
                    )
                    &&& ends(rest, "]"@) && trimmed(url).len() == 0 ==> r == Err::<
                        IpList,
                        JsonListError,
                    >(JsonListError::EmptyUrl)
                    &&& ends(rest, "]"@) && trimmed(url).len() > 0 && nonblank(
                        pieces(rest.drop_last(), ','),
                    ).len() == 0 ==> r == Err::<IpList, JsonListError>(JsonListError::EmptyKeys)
                    &&& ends(rest, "]"@) && trimmed(url).len() > 0 && nonblank(
                        pieces(rest.drop_last(), ','),
                    ).len() > 0 ==> r == Ok::<IpList, JsonListError>(
                        IpList {
                            url: trimmed(url),
                            keys: nonblank(pieces(rest.drop_last(), ',')),
                        },
                    )
                },
            }
        }),
{
    reveal_strlit("JsonList(");
    reveal_strlit(")");
    reveal_strlit("]");
    let s = "JsonList("@ + inner + ")"@;
    assert(s.take(9) =~= "JsonList("@);
    let tail = s.skip(9);
    assert(tail =~= inner + ")"@);
    assert(tail.skip(tail.len() - 1) =~= ")"@);
    assert(tail.take(tail.len() - 1) =~= inner);
    if let Some((url, rest)) = cut(inner, ", ["@) {
        if ends(rest, "]"@) {
            assert(rest.take(rest.len() - 1) =~= rest.drop_last());
        }
    }
}

/// A file is taken exactly if its lines are and its wildcards compile together, and it then says
/// what its lines say.
pub proof fn file_says_what_its_lines_say(text: Seq<char>)
    ensures
        parsed(text) is Ok <==> parsed_lines(lines_of(text)) is Ok && globs_build(
            parsed_lines(lines_of(text))->Ok_0.patterns.wildcards,
        ),
        parsed(text) is Ok ==> parsed(text) == parsed_lines(lines_of(text)),
        parsed_lines(lines_of(text)) is Err ==> parsed(text) == parsed_lines(lines_of(text)),
        parsed_lines(lines_of(text)) is Ok && parsed(text) is Err ==> parsed(text) == Err::<
            Parsed,
            Fault,
        >(Fault::WildcardSet),
{
}

/// A regex line allows what the engine matches with its body between anchors, and a wildcard line
/// what the glob matches, both in lower case.
pub proof fn engine_line_meaning(line: Seq<char>, n: Seq<char>)
    ensures
        kind_of(line) is Regex ==> (entry_allows(entry_of(line), n) <==> regex_is_match(
            "^(?:"@ + unanchored(content_of(line).skip(3)) + ")$"@,
            n,
        )),
        kind_of(line) is Wildcard ==> (entry_allows(entry_of(line), n) <==> glob_matches(
            lowered(content_of(line)),
            n,
        )),
        kind_of(line) is Blank || kind_of(line) is List ==> !entry_allows(entry_of(line), n),
{
}

/// How many backslashes stand at the end of a text.
proof fn backslashes_at_the_end(s: Seq<char>, n: nat)
    requires
        s.len() > 0 ==> s.last() != '\\',
    ensures
        backslashes(s + Seq::new(n, |i: int| '\\')) == n,
    decreases n,
{
    let t = s + Seq::new(n, |i: int| '\\');
    if n > 0 {
        backslashes_at_the_end(s, (n - 1) as nat);
        assert(t.drop_last() =~= s + Seq::new((n - 1) as nat, |i: int| '\\'));
        assert(t.last() == '\\');
    } else {
        assert(t =~= s);
    }
}

/// The anchors that a user added are stripped, one at each end, and nothing else is: a dollar
/// behind an odd number of backslashes is no anchor. `n` backslashes end the body.
#[verifier::spinoff_prover]
pub proof fn only_anchors_are_stripped(s: Seq<char>, n: nat)
    requires
        s.len() > 0,
        !is_space(s[0]),
        s[0] != '^',
        s.last() != '\\',
        s.last() != '$',
        !is_space(s.last()),
    ensures
        ({
            let body = s + Seq::new(n, |i: int| '\\');
            &&& unanchored(body) == body
            &&& unanchored("^"@ + body) == body
            &&& n % 2 == 0 ==> unanchored(body + "$"@) == body
            &&& n % 2 == 0 ==> unanchored("^"@ + body + "$"@) == body
            &&& n % 2 == 1 ==> unanchored(body + "$"@) == body + "$"@
            &&& n % 2 == 1 ==> unanchored("^"@ + body + "$"@) == body + "$"@
            &&& anchored(body) == "^(?:"@ + body + ")$"@
        }),
{
    reveal_strlit("^");
    reveal_strlit("$");
    let body = s + Seq::new(n, |i: int| '\\');
    backslashes_at_the_end(s, n);
    assert(body[0] == s[0]);
    assert(n == 0 ==> body.last() == s.last());
    assert(n > 0 ==> body.last() == '\\');
    let dollar = body + "$"@;
    assert(dollar.drop_last() =~= body);
    assert(dollar.last() == '$');
    assert(dollar[0] == s[0]);
    assert(!ends_in_anchor(body));
    assert(ends_in_anchor(dollar) <==> n % 2 == 0);
    caret_is_stripped(body);
    caret_is_stripped(dollar);
    assert(unanchored(body) == body);
    assert("^"@ + body + "$"@ =~= "^"@ + dollar);
    assert(anchored(body) == "^(?:"@ + body + ")$"@);
}

/// A caret in front is stripped, and only it.
proof fn caret_is_stripped(s: Seq<char>)
    requires
        s.len() > 0,
        !is_space(s[0]),
        s[0] != '^',
        !is_space(s.last()),
    ensures
        unanchored(s) == unanchored("^"@ + s),
        trimmed(s) == s,
        unanchored(s) == (if ends_in_anchor(s) {
            s.drop_last()
        } else {
            s
        }),
{
    reveal_strlit("^");
    let t = "^"@ + s;
    assert(t[0] == '^');
    assert(t.last() == s.last());
    assert(trimmed(t) == t);
    assert(t.take(1) =~= "^"@);
    assert(t.skip(1) =~= s);
    if begins(s, "^"@) {
        assert(s.take(1)[0] == '^');
    }
}

/// A name in lower case that does not end in a dot is matched as it is.
pub proof fn plain_names_are_matched_as_they_are(p: Patterns, name: Seq<char>)
    requires
        name.len() > 0 ==> name.last() != '.',
        forall|i: int| 0 <= i < name.len() ==> !('A' <= #[trigger] name[i] <= 'Z'),
    ensures
        normalized(name) == name,
        allowed(p, name) == matched(p, name),
{
    assert(stripped_end(name, '.') == name);
    assert(lowered(name) =~= name);
}

} // verus!
