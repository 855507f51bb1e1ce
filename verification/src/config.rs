//! Allow-list pattern parsing and matching.
//!
//! The pattern file (`allowed-domains.txt`) is line-oriented. Each line's type is
//! determined unambiguously by a prefix:
//!
//! | Syntax                                         | Meaning                                                   |
//! |------------------------------------------------|-----------------------------------------------------------|
//! | `api.anthropic.com`                            | EXACT host (case-insensitive)                             |
//! | `.sentry.io`                                   | SUFFIX: `sentry.io` and any subdomain `*.sentry.io`       |
//! | `*.gallery.vsassets.io`                        | WILDCARD: one or more subdomain labels of the suffix      |
//! | `re:^[a-z0-9-]+\.pkg\.dev$`                    | REGEX matched against the whole lowercased name           |
//! | `JsonList(https://example.com, [key1, key2])`  | Fetch JSON; keys map to top-level `["cidr", ...]` arrays  |
//! | `JsonList(https://example.com, [arr[].field])` | Fetch JSON; keys map to `[{"field": "cidr"}, ...]` arrays |
//!
//! `#` comments and blank lines are ignored.

use vstd::prelude::*;
use vstd::slice::slice_subrange;

use crate::matcher::{
    add_glob, any_glob_matches, builder_patterns, glob_is_valid, glob_matches, globs_build,
    regex_is_match, regex_is_valid, regex_pattern, set_patterns,
};
use crate::text::{
    after_prefix, before_suffix, begins, chars_of, cut, ends, ends_with, lines, lines_of,
    lowered, pieces, push_all, push_str, same, split, split_once, starts_with, string_of,
    strip_prefix, strip_suffix, stripped_end, texts, to_lower, trim, trim_end_char, trimmed,
    views,
};

verus! {

/// Parsed representation of a `JsonList(url, [key1, key2, ...])` line.
pub struct JsonIpListSpec {
    pub url: String,
    pub keys: Vec<String>,
}

/// What is wrong with a `JsonList(...)` line.
#[derive(Clone, Copy, Debug, PartialEq, Eq)]
pub enum JsonListError {
    /// The line is not `JsonList(`, anything and `)`.
    Shape,
    /// No `, [` stands between the URL and the keys.
    Separator,
    /// No `]` closes the key list.
    Unclosed,
    /// The URL is empty.
    EmptyUrl,
    /// The key list is empty.
    EmptyKeys,
}

/// A URL and the keys of its IP ranges.
pub struct IpList {
    pub url: Seq<char>,
    pub keys: Seq<Seq<char>>,
}

impl View for JsonIpListSpec {
    type V = IpList;

    open spec fn view(&self) -> IpList {
        IpList { url: self.url@, keys: texts(self.keys@) }
    }
}

/// The pieces `p` without white space around them, leaving out those that are then empty.
pub open spec fn nonblank(p: Seq<Seq<char>>) -> Seq<Seq<char>>
    decreases p.len(),
{
    if p.len() == 0 {
        Seq::empty()
    } else {
        let front = nonblank(p.drop_last());
        let last = trimmed(p.last());
        if last.len() == 0 {
            front
        } else {
            front.push(last)
        }
    }
}

/// What the line `JsonList(url, [key1, key2, ...])` says.
pub open spec fn json_list_of(line: Seq<char>) -> Result<IpList, JsonListError> {
    match after_prefix(line, "JsonList("@) {
        None => Err(JsonListError::Shape),
        Some(tail) => match before_suffix(tail, ")"@) {
            None => Err(JsonListError::Shape),
            Some(inner) => match cut(inner, ", ["@) {
                None => Err(JsonListError::Separator),
                Some((url, rest)) => match before_suffix(rest, "]"@) {
                    None => Err(JsonListError::Unclosed),
                    Some(keys) => if trimmed(url).len() == 0 {
                        Err(JsonListError::EmptyUrl)
                    } else if nonblank(pieces(keys, ',')).len() == 0 {
                        Err(JsonListError::EmptyKeys)
                    } else {
                        Ok(IpList { url: trimmed(url), keys: nonblank(pieces(keys, ',')) })
                    },
                },
            },
        },
    }
}

/// The result of parsing, by its view.
pub open spec fn json_list_view(r: Result<JsonIpListSpec, JsonListError>) -> Result<
    IpList,
    JsonListError,
> {
    match r {
        Ok(s) => Ok(s@),
        Err(e) => Err(e),
    }
}

/// Parse `JsonList(url, [key1, key2, ...])` into a `JsonIpListSpec`.
pub fn parse_json_list(line: &str) -> (r: Result<JsonIpListSpec, JsonListError>)
    ensures
        json_list_view(r) == json_list_of(line@),
{
    let line: Vec<char> = chars_of(line);
    parse_json_list_chars(line.as_slice())
}

/// Parse `JsonList(url, [key1, key2, ...])`.
fn parse_json_list_chars(line: &[char]) -> (r: Result<JsonIpListSpec, JsonListError>)
    ensures
        json_list_view(r) == json_list_of(line@),
{
    let tail: &[char] = match strip_prefix(line, "JsonList(") {
        Some(t) => t,
        None => {
            return Err(JsonListError::Shape);
        },
    };
    let inner: &[char] = match strip_suffix(tail, ")") {
        Some(t) => t,
        None => {
            return Err(JsonListError::Shape);
        },
    };
    let (url_part, keys_part): (&[char], &[char]) = match split_once(inner, ", [") {
        Some(t) => t,
        None => {
            return Err(JsonListError::Separator);
        },
    };
    let keys_str: &[char] = match strip_suffix(keys_part, "]") {
        Some(t) => t,
        None => {
            return Err(JsonListError::Unclosed);
        },
    };
    let url: &[char] = trim(url_part);
    if url.len() == 0 {
        return Err(JsonListError::EmptyUrl);
    }
    let parts: Vec<&[char]> = split(keys_str, ',');
    let ghost p = pieces(keys_str@, ',');
    let mut keys: Vec<String> = Vec::new();
    let mut i: usize = 0;
    while i < parts.len()
        invariant
            i <= parts@.len(),
            p == views(parts@),
            texts(keys@) == nonblank(p.take(i as int)),
        decreases parts@.len() - i,
    {
        let key: &[char] = trim(parts[i]);
        let ghost before = keys@;
        assert(p.take(i + 1).drop_last() == p.take(i as int));
        if key.len() > 0 {
            keys.push(string_of(key));
            assert(texts(keys@) == texts(before).push(key@));
        }
        i = i + 1;
    }
    assert(p.take(i as int) == p);
    assert(texts(keys@).len() == keys@.len());
    if keys.len() == 0 {
        return Err(JsonListError::EmptyKeys);
    }
    Ok(JsonIpListSpec { url: string_of(url), keys })
}

/// `s` without the prefix `p`, if it has it.
pub open spec fn maybe_after(s: Seq<char>, p: Seq<char>) -> Seq<char> {
    match after_prefix(s, p) {
        Some(t) => t,
        None => s,
    }
}

/// How many backslashes stand at the end of `s`.
pub open spec fn backslashes(s: Seq<char>) -> nat
    decreases s.len(),
{
    if s.len() > 0 && s.last() == '\\' {
        backslashes(s.drop_last()) + 1
    } else {
        0
    }
}

/// `s` ends in the anchor `$`: a dollar that no backslash escapes.
pub open spec fn ends_in_anchor(s: Seq<char>) -> bool {
    s.len() > 0 && s.last() == '$' && backslashes(s.drop_last()) % 2 == 0
}

/// The regex `body` without white space around it and without the anchors at its ends.
pub open spec fn unanchored(body: Seq<char>) -> Seq<char> {
    let t = maybe_after(trimmed(body), "^"@);
    if ends_in_anchor(t) {
        t.drop_last()
    } else {
        t
    }
}

/// The regex `body` between anchors.
pub open spec fn wrapped(body: Seq<char>) -> Seq<char> {
    "^(?:"@ + body + ")$"@
}

/// `body` without the anchors at its ends, between anchors.
pub open spec fn anchored(body: Seq<char>) -> Seq<char> {
    wrapped(unanchored(body))
}

/// Force a user-supplied regex to match the entire name: strip any anchors the user
/// already added, then wrap in `^(?:...)$`.
pub fn anchor_regex(body: &str) -> (r: String)
    ensures
        r@ == anchored(body@),
{
    let body: Vec<char> = chars_of(body);
    wrap_regex(strip_anchors(body.as_slice()))
}

/// Tests whether a regex ends in the anchor `$`.
fn has_end_anchor(s: &[char]) -> (r: bool)
    ensures
        r == ends_in_anchor(s@),
{
    let n: usize = s.len();
    if n == 0 || s[n - 1] != '$' {
        return false;
    }
    let ghost front = s@.drop_last();
    let mut k: usize = n - 1;
    let mut even: bool = true;
    assert(front.take(k as int) == front);
    while k > 0 && s[k - 1] == '\\'
        invariant
            k < s@.len(),
            front == s@.drop_last(),
            even == ((backslashes(front) - backslashes(front.take(k as int))) % 2 == 0),
        decreases k,
    {
        assert(front.take(k as int).drop_last() == front.take(k - 1));
        assert(front.take(k as int).last() == s@[k - 1]);
        k = k - 1;
        even = !even;
    }
    assert(backslashes(front.take(k as int)) == 0);
    even
}

/// Strips the anchors at the ends of a regex.
fn strip_anchors<'a>(body: &'a [char]) -> (r: &'a [char])
    ensures
        r@ == unanchored(body@),
{
    let t: &'a [char] = trim(body);
    let t: &'a [char] = match strip_prefix(t, "^") {
        Some(u) => u,
        None => t,
    };
    if has_end_anchor(t) {
        assert(t@.subrange(0, t@.len() - 1) == t@.drop_last());
        slice_subrange(t, 0, t.len() - 1)
    } else {
        t
    }
}

/// Puts a regex between anchors.
fn wrap_regex(body: &[char]) -> (r: String)
    ensures
        r@ == wrapped(body@),
{
    let mut out: Vec<char> = chars_of("^(?:");
    push_all(&mut out, body);
    push_str(&mut out, ")$");
    string_of(out.as_slice())
}

/// Why a pattern file was not taken.
#[derive(Clone, Debug, PartialEq, Eq)]
pub enum ConfigError {
    /// The `JsonList(...)` on line `line` is invalid.
    JsonList { line: usize, error: JsonListError },
    /// The regex on line `line`, which reads `text`, is invalid.
    Regex { line: usize, text: String },
    /// The wildcard on line `line` is invalid.
    Wildcard { line: usize },
    /// The wildcards do not compile together.
    WildcardSet,
}

/// Why a pattern file was not taken.
pub enum Fault {
    JsonList { line: int, error: JsonListError },
    Regex { line: int, text: Seq<char> },
    Wildcard { line: int },
    WildcardSet,
}

impl View for ConfigError {
    type V = Fault;

    open spec fn view(&self) -> Fault {
        match self {
            ConfigError::JsonList { line, error } => Fault::JsonList {
                line: *line as int,
                error: *error,
            },
            ConfigError::Regex { line, text } => Fault::Regex { line: *line as int, text: text@ },
            ConfigError::Wildcard { line } => Fault::Wildcard { line: *line as int },
            ConfigError::WildcardSet => Fault::WildcardSet,
        }
    }
}

/// Allow-list patterns.
#[verifier::ext_equal]
pub struct Patterns {
    /// Host names, each once.
    pub exact: Seq<Seq<char>>,
    /// Suffixes without the leading dot.
    pub suffixes: Seq<Seq<char>>,
    /// Globs.
    pub wildcards: Seq<Seq<char>>,
    /// Regular expressions, anchored at both ends.
    pub regexes: Seq<Seq<char>>,
    /// The lines that the regular expressions come from.
    pub sources: Seq<Seq<char>>,
}

/// Allow-list patterns and JSON IP lists.
#[verifier::ext_equal]
pub struct Parsed {
    pub patterns: Patterns,
    pub ip_lists: Seq<IpList>,
}

/// What one line of a pattern file says.
pub enum Entry {
    /// Nothing.
    Blank,
    /// A JSON IP list, if it is valid.
    IpList(Result<IpList, JsonListError>),
    /// A regular expression, without anchors, and the line that it comes from.
    Regex { body: Seq<char>, source: Seq<char> },
    /// A glob.
    Wildcard(Seq<char>),
    /// A suffix without its leading dot.
    Suffix(Seq<char>),
    /// A host name.
    Exact(Seq<char>),
}

/// A line without its comment and without white space around it.
pub open spec fn content_of(line: Seq<char>) -> Seq<char> {
    match cut(line, "#"@) {
        Some((before, _)) => trimmed(before),
        None => trimmed(line),
    }
}

/// What the line `line` says.
pub open spec fn entry_of(line: Seq<char>) -> Entry {
    let content = content_of(line);
    let lower = lowered(content);
    if content.len() == 0 {
        Entry::Blank
    } else if begins(content, "JsonList("@) {
        Entry::IpList(json_list_of(content))
    } else if begins(lower, "re:"@) {
        Entry::Regex { body: unanchored(content.skip(3)), source: content }
    } else if begins(lower, "*."@) {
        Entry::Wildcard(lower)
    } else if begins(lower, "."@) {
        Entry::Suffix(after_prefix(lower, "."@)->0)
    } else {
        Entry::Exact(lower)
    }
}

/// `s` and `x`, without a second `x`.
pub open spec fn with(s: Seq<Seq<char>>, x: Seq<char>) -> Seq<Seq<char>> {
    if s.contains(x) {
        s
    } else {
        s.push(x)
    }
}

/// No patterns and no lists.
pub open spec fn nothing() -> Parsed {
    Parsed {
        patterns: Patterns {
            exact: Seq::empty(),
            suffixes: Seq::empty(),
            wildcards: Seq::empty(),
            regexes: Seq::empty(),
            sources: Seq::empty(),
        },
        ip_lists: Seq::empty(),
    }
}

/// `p` after one more line, which is line `number`.
pub open spec fn with_entry(p: Parsed, entry: Entry, number: int) -> Result<Parsed, Fault> {
    match entry {
        Entry::Blank => Ok(p),
        Entry::IpList(Ok(list)) => Ok(Parsed { ip_lists: p.ip_lists.push(list), ..p }),
        Entry::IpList(Err(error)) => Err(Fault::JsonList { line: number, error }),
        Entry::Regex { body, source } => if regex_is_valid(body) && regex_is_valid(
            wrapped(body),
        ) {
            Ok(
                Parsed {
                    patterns: Patterns {
                        regexes: p.patterns.regexes.push(wrapped(body)),
                        sources: p.patterns.sources.push(source),
                        ..p.patterns
                    },
                    ..p
                },
            )
        } else {
            Err(Fault::Regex { line: number, text: source })
        },
        Entry::Wildcard(glob) => if glob_is_valid(glob) {
            Ok(
                Parsed {
                    patterns: Patterns {
                        wildcards: p.patterns.wildcards.push(glob),
                        ..p.patterns
                    },
                    ..p
                },
            )
        } else {
            Err(Fault::Wildcard { line: number })
        },
        Entry::Suffix(suffix) => Ok(
            Parsed {
                patterns: Patterns { suffixes: p.patterns.suffixes.push(suffix), ..p.patterns },
                ..p
            },
        ),
        Entry::Exact(host) => Ok(
            Parsed {
                patterns: Patterns { exact: with(p.patterns.exact, host), ..p.patterns },
                ..p
            },
        ),
    }
}

/// What the lines say, taken in order, up to the first that is invalid.
pub open spec fn parsed_lines(lines: Seq<Seq<char>>) -> Result<Parsed, Fault>
    decreases lines.len(),
{
    if lines.len() == 0 {
        Ok(nothing())
    } else {
        match parsed_lines(lines.drop_last()) {
            Ok(p) => with_entry(p, entry_of(lines.last()), lines.len() as int),
            Err(f) => Err(f),
        }
    }
}

/// What the pattern file `text` says.
pub open spec fn parsed(text: Seq<char>) -> Result<Parsed, Fault> {
    match parsed_lines(lines_of(text)) {
        Ok(p) => if globs_build(p.patterns.wildcards) {
            Ok(p)
        } else {
            Err(Fault::WildcardSet)
        },
        Err(f) => Err(f),
    }
}

/// A DNS name as it is matched: in lower case, without the dots at its end.
pub open spec fn normalized(name: Seq<char>) -> Seq<char> {
    lowered(stripped_end(name, '.'))
}

/// `name` is `suffix` or a subdomain of it.
pub open spec fn under(name: Seq<char>, suffix: Seq<char>) -> bool {
    name == suffix || ends(name, "."@ + suffix)
}

/// Some pattern of `p` matches the normalized name `n`.
pub open spec fn matched(p: Patterns, n: Seq<char>) -> bool {
    ||| p.exact.contains(n)
    ||| exists|i: int| 0 <= i < p.suffixes.len() && under(n, #[trigger] p.suffixes[i])
    ||| exists|i: int| 0 <= i < p.wildcards.len() && glob_matches(#[trigger] p.wildcards[i], n)
    ||| exists|i: int| 0 <= i < p.regexes.len() && regex_is_match(#[trigger] p.regexes[i], n)
}

/// The patterns `p` allow the name `name`.
pub open spec fn allowed(p: Patterns, name: Seq<char>) -> bool {
    matched(p, normalized(name))
}

/// The texts that regexes were compiled from.
pub open spec fn regex_texts(v: Seq<regex::Regex>) -> Seq<Seq<char>> {
    Seq::new(v.len(), |i: int| regex_pattern(v[i]))
}

/// The views of a list of JSON IP lists.
pub open spec fn ip_list_views(v: Seq<JsonIpListSpec>) -> Seq<IpList> {
    Seq::new(v.len(), |i: int| v[i]@)
}

/// A compiled set of allow-list patterns. Matching is `exact -> suffix -> glob -> regex`,
/// cheapest first.
pub struct PatternSet {
    exact: Vec<String>,
    /// Suffix entries stored without the leading dot, e.g. `sentry.io`.
    suffixes: Vec<String>,
    globs: globset::GlobSet,
    regexes: Vec<regex::Regex>,
    /// Human-readable source of each regex, for logging.
    regex_sources: Vec<String>,
}

impl View for PatternSet {
    type V = Patterns;

    closed spec fn view(&self) -> Patterns {
        Patterns {
            exact: texts(self.exact@),
            suffixes: texts(self.suffixes@),
            wildcards: set_patterns(self.globs),
            regexes: regex_texts(self.regexes@),
            sources: texts(self.regex_sources@),
        }
    }
}

/// How many patterns there are.
pub open spec fn pattern_count(p: Patterns) -> nat {
    p.exact.len() + p.suffixes.len() + p.wildcards.len() + p.regexes.len()
}

/// The full parsed config: domain allow-list patterns plus any JSON IP-list specs.
pub struct Config {
    pub patterns: PatternSet,
    pub ip_lists: Vec<JsonIpListSpec>,
}

impl View for Config {
    type V = Parsed;

    open spec fn view(&self) -> Parsed {
        Parsed { patterns: self.patterns@, ip_lists: ip_list_views(self.ip_lists@) }
    }
}

/// The result of parsing, by its view.
pub open spec fn config_view(r: Result<Config, ConfigError>) -> Result<Parsed, Fault> {
    match r {
        Ok(c) => Ok(c@),
        Err(e) => Err(e@),
    }
}

/// The patterns of a result of parsing, by its view.
pub open spec fn patterns_view(r: Result<PatternSet, ConfigError>) -> Result<Patterns, Fault> {
    match r {
        Ok(p) => Ok(p@),
        Err(e) => Err(e@),
    }
}

/// Whether `list` holds `s`.
fn list_holds(list: &Vec<String>, s: &[char]) -> (r: bool)
    ensures
        r == texts(list@).contains(s@),
{
    let mut i: usize = 0;
    while i < list.len()
        invariant
            i <= list@.len(),
            forall|j: int| 0 <= j < i ==> list@[j]@ != s@,
        decreases list@.len() - i,
    {
        let t: Vec<char> = chars_of(list[i].as_str());
        if same(t.as_slice(), s) {
            assert(texts(list@)[i as int] == s@);
            return true;
        }
        i = i + 1;
    }
    false
}

/// A config that is being read.
struct Draft {
    exact: Vec<String>,
    suffixes: Vec<String>,
    builder: globset::GlobSetBuilder,
    regexes: Vec<regex::Regex>,
    regex_sources: Vec<String>,
    ip_lists: Vec<JsonIpListSpec>,
}

impl Draft {
    spec fn parsed(&self) -> Parsed {
        Parsed {
            patterns: Patterns {
                exact: texts(self.exact@),
                suffixes: texts(self.suffixes@),
                wildcards: builder_patterns(self.builder),
                regexes: regex_texts(self.regexes@),
                sources: texts(self.regex_sources@),
            },
            ip_lists: ip_list_views(self.ip_lists@),
        }
    }

    /// Takes in line `number`.
    fn add_line(&mut self, raw: &[char], number: usize) -> (r: Result<(), ConfigError>)
        ensures
            match r {
                Ok(_) => with_entry(old(self).parsed(), entry_of(raw@), number as int) == Ok::<
                    Parsed,
                    Fault,
                >(final(self).parsed()),
                Err(e) => with_entry(old(self).parsed(), entry_of(raw@), number as int) == Err::<
                    Parsed,
                    Fault,
                >(e@),
            },
            r is Ok ==> pattern_count(final(self).parsed().patterns) <= pattern_count(
                old(self).parsed().patterns,
            ) + 1,
    {
        let ghost before = self.parsed();
        let line: &[char] = match split_once(raw, "#") {
            Some((before, _)) => before,
            None => raw,
        };
        let line: &[char] = trim(line);
        if line.len() == 0 {
            return Ok(());
        }
        let marker: Vec<char> = chars_of("JsonList(");
        if starts_with(line, marker.as_slice()) {
            match parse_json_list_chars(line) {
                Ok(list) => {
                    let ghost lists = self.ip_lists@;
                    self.ip_lists.push(list);
                    assert(ip_list_views(self.ip_lists@) == ip_list_views(lists).push(list@));
                    return Ok(());
                },
                Err(error) => {
                    return Err(ConfigError::JsonList { line: number, error });
                },
            }
        }
        let lower: Vec<char> = to_lower(line);
        if let Some(_) = strip_prefix(lower.as_slice(), "re:") {
            proof {
                reveal_strlit("re:");
            }
            // Only names are lowercased: in a regex, `\\D` and `\\d` differ.
            assert(line@.subrange(3, line@.len() as int) == line@.skip(3));
            let body: &[char] = strip_anchors(slice_subrange(line, 3, line.len()));
            // A body that is no regex by itself could close the group around it.
            match regex::Regex::new(string_of(body).as_str()) {
                Ok(_) => {},
                Err(_) => {
                    return Err(ConfigError::Regex { line: number, text: string_of(line) });
                },
            }
            let pattern: String = wrap_regex(body);
            match regex::Regex::new(pattern.as_str()) {
                Ok(re) => {
                    let ghost regexes = self.regexes@;
                    let ghost sources = self.regex_sources@;
                    self.regexes.push(re);
                    self.regex_sources.push(string_of(line));
                    assert(regex_texts(self.regexes@) == regex_texts(regexes).push(pattern@));
                    assert(texts(self.regex_sources@) == texts(sources).push(line@));
                    Ok(())
                },
                Err(_) => Err(ConfigError::Regex { line: number, text: string_of(line) }),
            }
        } else if let Some(_) = strip_prefix(lower.as_slice(), "*.") {
            let pattern: String = string_of(lower.as_slice());
            match globset::Glob::new(pattern.as_str()) {
                Ok(glob) => {
                    add_glob(&mut self.builder, glob);
                    Ok(())
                },
                Err(_) => Err(ConfigError::Wildcard { line: number }),
            }
        } else if let Some(suffix) = strip_prefix(lower.as_slice(), ".") {
            let ghost suffixes = self.suffixes@;
            self.suffixes.push(string_of(suffix));
            assert(texts(self.suffixes@) == texts(suffixes).push(suffix@));
            Ok(())
        } else {
            if !list_holds(&self.exact, lower.as_slice()) {
                let ghost exact = self.exact@;
                self.exact.push(string_of(lower.as_slice()));
                assert(texts(self.exact@) == texts(exact).push(lower@));
            }
            Ok(())
        }
    }
}

impl Config {
    /// Parse config from a string.
    pub fn parse(text: &str) -> (r: Result<Self, ConfigError>)
        ensures
            config_view(r) == parsed(text@),
    {
        let chars: Vec<char> = chars_of(text);
        let rows: Vec<&[char]> = lines(chars.as_slice());
        let ghost all = lines_of(text@);
        let mut draft = Draft {
            exact: Vec::new(),
            suffixes: Vec::new(),
            builder: globset::GlobSetBuilder::new(),
            regexes: Vec::new(),
            regex_sources: Vec::new(),
            ip_lists: Vec::new(),
        };
        assert(draft.parsed() =~~= nothing());
        let mut i: usize = 0;
        while i < rows.len()
            invariant
                i <= rows@.len(),
                all == views(rows@),
                all == lines_of(text@),
                parsed_lines(all.take(i as int)) == Ok::<Parsed, Fault>(draft.parsed()),
                pattern_count(draft.parsed().patterns) <= i,
            decreases rows@.len() - i,
        {
            assert(all.take(i + 1).drop_last() == all.take(i as int));
            assert(all.take(i + 1).last() == rows@[i as int]@);
            match draft.add_line(rows[i], i + 1) {
                Ok(_) => {},
                Err(e) => {
                    proof {
                        failed_lines_stay(all, i + 1);
                    }
                    return Err(e);
                },
            }
            i = i + 1;
        }
        assert(all.take(i as int) == all);
        let globs: globset::GlobSet = match draft.builder.build() {
            Ok(set) => set,
            Err(_) => {
                return Err(ConfigError::WildcardSet);
            },
        };
        Ok(
            Config {
                patterns: PatternSet {
                    exact: draft.exact,
                    suffixes: draft.suffixes,
                    globs,
                    regexes: draft.regexes,
                    regex_sources: draft.regex_sources,
                },
                ip_lists: draft.ip_lists,
            },
        )
    }
}

/// Once a line is invalid, the lines after it change nothing.
proof fn failed_lines_stay(lines: Seq<Seq<char>>, k: int)
    requires
        0 <= k <= lines.len(),
        parsed_lines(lines.take(k)) is Err,
    ensures
        parsed_lines(lines) == parsed_lines(lines.take(k)),
    decreases lines.len(),
{
    if k < lines.len() {
        assert(lines.drop_last().take(k) == lines.take(k));
        failed_lines_stay(lines.drop_last(), k);
    } else {
        assert(lines.take(k) == lines);
    }
}

impl PatternSet {
    /// The number of patterns fits in a machine word.
    #[verifier::type_invariant]
    spec fn countable(&self) -> bool {
        pattern_count(self@) <= usize::MAX
    }

    /// Parse pattern lines from a string (patterns only; ignores `JsonList` entries).
    pub fn parse(text: &str) -> (r: Result<Self, ConfigError>)
        ensures
            patterns_view(r) == (match parsed(text@) {
                Ok(p) => Ok::<Patterns, Fault>(p.patterns),
                Err(f) => Err(f),
            }),
    {
        match Config::parse(text) {
            Ok(c) => Ok(c.patterns),
            Err(e) => Err(e),
        }
    }

    /// Returns true if `name` (a DNS name, with or without a trailing dot) is allowed.
    pub fn is_allowed(&self, name: &str) -> (r: bool)
        ensures
            r == allowed(self@, name@),
    {
        let chars: Vec<char> = chars_of(name);
        let n: Vec<char> = to_lower(trim_end_char(chars.as_slice(), '.'));
        if list_holds(&self.exact, n.as_slice()) {
            return true;
        }
        let mut i: usize = 0;
        while i < self.suffixes.len()
            invariant
                i <= self.suffixes@.len(),
                n@ == normalized(name@),
                forall|j: int| 0 <= j < i ==> !under(n@, texts(self.suffixes@)[j]),
            decreases self.suffixes@.len() - i,
        {
            let suffix: Vec<char> = chars_of(self.suffixes[i].as_str());
            let mut dotted: Vec<char> = chars_of(".");
            push_all(&mut dotted, suffix.as_slice());
            if same(n.as_slice(), suffix.as_slice()) || ends_with(n.as_slice(), dotted.as_slice()) {
                assert(under(n@, self@.suffixes[i as int]));
                return true;
            }
            i = i + 1;
        }
        let lookup: String = string_of(n.as_slice());
        if any_glob_matches(&self.globs, lookup.as_str()) {
            proof {
                let k = choose|k: int|
                    0 <= k < set_patterns(self.globs).len() && glob_matches(
                        #[trigger] set_patterns(self.globs)[k],
                        n@,
                    );
                assert(glob_matches(self@.wildcards[k], n@));
            }
            return true;
        }
        assert forall|k: int| 0 <= k < self@.wildcards.len() implies !glob_matches(
            #[trigger] self@.wildcards[k],
            n@,
        ) by {
            assert(self@.wildcards[k] == set_patterns(self.globs)[k]);
        }
        let mut i: usize = 0;
        while i < self.regexes.len()
            invariant
                i <= self.regexes@.len(),
                lookup@ == n@,
                n@ == normalized(name@),
                forall|j: int|
                    0 <= j < i ==> !regex_is_match(#[trigger] regex_texts(self.regexes@)[j], n@),
            decreases self.regexes@.len() - i,
        {
            if self.regexes[i].is_match(lookup.as_str()) {
                assert(regex_is_match(self@.regexes[i as int], n@));
                return true;
            }
            i = i + 1;
        }
        false
    }

    /// Total number of patterns loaded, for logging.
    pub fn len(&self) -> (r: usize)
        ensures
            r == pattern_count(self@),
    {
        proof {
            use_type_invariant(self);
        }
        self.exact.len() + self.suffixes.len() + self.globs.len() + self.regexes.len()
    }

    /// Whether no pattern is loaded.
    pub fn is_empty(&self) -> (r: bool)
        ensures
            r == (pattern_count(self@) == 0),
    {
        self.len() == 0
    }

    /// Number of exact host names.
    pub fn exact_count(&self) -> (r: usize)
        ensures
            r == self@.exact.len(),
    {
        self.exact.len()
    }

    /// Number of suffixes.
    pub fn suffix_count(&self) -> (r: usize)
        ensures
            r == self@.suffixes.len(),
    {
        self.suffixes.len()
    }

    /// Number of wildcards.
    pub fn wildcard_count(&self) -> (r: usize)
        ensures
            r == self@.wildcards.len(),
    {
        self.globs.len()
    }

    /// Number of regexes.
    pub fn regex_count(&self) -> (r: usize)
        ensures
            r == self@.regexes.len(),
    {
        self.regexes.len()
    }

    /// Regex sources, for debug logging.
    pub fn regex_sources(&self) -> (r: &[String])
        ensures
            texts(r@) == self@.sources,
    {
        self.regex_sources.as_slice()
    }
}

} // verus!
