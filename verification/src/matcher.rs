//! The regex and glob engines that match DNS names.
//!
//! Compiled patterns are opaque values. What stands in here for a compiled pattern is the
//! text that it was compiled from; whether an engine takes a text, and whether the compiled
//! text matches a name, are functions of those texts alone.

use vstd::prelude::*;

use crate::text::{after_prefix, before_suffix, ends};

verus! {

/// A compiled regular expression.
#[verifier::external_type_specification]
#[verifier::external_body]
pub struct ExRegex(regex::Regex);

/// Why a regular expression was not compiled.
#[verifier::external_type_specification]
#[verifier::external_body]
pub struct ExRegexError(regex::Error);

/// A parsed glob.
#[verifier::external_type_specification]
#[verifier::external_body]
pub struct ExGlob(globset::Glob);

/// A set of globs that is being put together.
#[verifier::external_type_specification]
#[verifier::external_body]
pub struct ExGlobSetBuilder(globset::GlobSetBuilder);

/// A compiled set of globs.
#[verifier::external_type_specification]
#[verifier::external_body]
pub struct ExGlobSet(globset::GlobSet);

/// Why a glob, or a set of globs, was not compiled.
#[verifier::external_type_specification]
#[verifier::external_body]
pub struct ExGlobError(globset::Error);

/// The text that `re` was compiled from.
pub uninterp spec fn regex_pattern(re: regex::Regex) -> Seq<char>;

/// `Regex::new` takes the text `pattern`, which does not plainly close what it has not opened.
pub uninterp spec fn special_regex_is_valid(pattern: Seq<char>) -> bool;

/// `Regex::is_match` finds the regular expression `pattern`, which does not spell a text out
/// between anchors, somewhere in `text`.
pub uninterp spec fn special_regex_is_match(pattern: Seq<char>, text: Seq<char>) -> bool;

/// The text that `glob` was parsed from.
pub uninterp spec fn glob_pattern(glob: globset::Glob) -> Seq<char>;

/// The texts of the globs added to `builder`, in order.
pub uninterp spec fn builder_patterns(builder: globset::GlobSetBuilder) -> Seq<Seq<char>>;

/// The texts of the globs in `set`, in the order in which they were added.
pub uninterp spec fn set_patterns(set: globset::GlobSet) -> Seq<Seq<char>>;

/// `Glob::new` takes the text `pattern`, which is not a plain wildcard.
pub uninterp spec fn special_glob_is_valid(pattern: Seq<char>) -> bool;

/// `GlobSetBuilder::build` takes globs of the texts `patterns`, which are not all plain
/// wildcards.
pub uninterp spec fn special_globs_build(patterns: Seq<Seq<char>>) -> bool;

/// `GlobSet::is_match` finds that the glob `pattern`, which is not a plain wildcard, matches
/// all of `text`.
pub uninterp spec fn special_glob_matches(pattern: Seq<char>, text: Seq<char>) -> bool;

/// `s`, behind `depth` open parentheses, closes more parentheses than were opened.
pub open spec fn closes_unopened(s: Seq<char>, depth: nat) -> bool
    decreases s.len(),
{
    if s.len() == 0 {
        false
    } else if s[0] == '(' {
        closes_unopened(s.skip(1), depth + 1)
    } else if s[0] == ')' {
        depth == 0 || closes_unopened(s.skip(1), (depth - 1) as nat)
    } else {
        closes_unopened(s.skip(1), depth)
    }
}

/// `s` holds no escape, no character class and no comment, so that every parenthesis in it is
/// one of a group.
pub open spec fn groups_are_plain(s: Seq<char>) -> bool {
    forall|i: int| 0 <= i < s.len() ==> #[trigger] s[i] != '\\' && s[i] != '[' && s[i] != '#'
}

/// `pattern` is a regular expression. One that closes a group that it has not opened is none.
pub open spec fn regex_is_valid(pattern: Seq<char>) -> bool {
    &&& !(groups_are_plain(pattern) && closes_unopened(pattern, 0))
    &&& special_regex_is_valid(pattern)
}

/// Characters of host names that a regular expression reads as themselves.
pub open spec fn is_literal(c: char) -> bool {
    'a' <= c <= 'z' || '0' <= c <= '9' || c == '-' || c == '_'
}

/// The text that a regular expression spells out, if it is made of literal characters and
/// escaped dots alone.
pub open spec fn spelled(body: Seq<char>) -> Option<Seq<char>>
    decreases body.len(),
{
    if body.len() == 0 {
        Some(Seq::empty())
    } else if is_literal(body[0]) {
        match spelled(body.skip(1)) {
            Some(rest) => Some(seq![body[0]] + rest),
            None => None,
        }
    } else if body.len() >= 2 && body[0] == '\\' && body[1] == '.' {
        match spelled(body.skip(2)) {
            Some(rest) => Some(seq!['.'] + rest),
            None => None,
        }
    } else {
        None
    }
}

/// The text that a regular expression spells out between anchors.
pub open spec fn spelled_whole(pattern: Seq<char>) -> Option<Seq<char>> {
    match after_prefix(pattern, "^(?:"@) {
        Some(rest) => match before_suffix(rest, ")$"@) {
            Some(body) => spelled(body),
            None => None,
        },
        None => None,
    }
}

/// The regular expression `pattern` matches somewhere in `text`. One that spells a text out
/// between anchors matches that text alone.
pub open spec fn regex_is_match(pattern: Seq<char>, text: Seq<char>) -> bool {
    match spelled_whole(pattern) {
        Some(whole) => text == whole,
        None => special_regex_is_match(pattern, text),
    }
}

/// Characters that a glob reads as themselves.
pub open spec fn is_plain(c: char) -> bool {
    c != '?' && c != '*' && c != '[' && c != '{' && c != '}' && c != '\\' && c != '/'
}

/// `pattern` is `*.` and a suffix that is read literally.
pub open spec fn is_plain_wildcard(pattern: Seq<char>) -> bool {
    &&& pattern.len() > 2
    &&& pattern[0] == '*'
    &&& pattern[1] == '.'
    &&& forall|i: int| 2 <= i < pattern.len() ==> is_plain(#[trigger] pattern[i])
}

/// Every one of `patterns` is a plain wildcard.
pub open spec fn all_plain_wildcards(patterns: Seq<Seq<char>>) -> bool {
    forall|i: int| 0 <= i < patterns.len() ==> is_plain_wildcard(#[trigger] patterns[i])
}

/// `pattern` is a glob.
pub open spec fn glob_is_valid(pattern: Seq<char>) -> bool {
    is_plain_wildcard(pattern) || special_glob_is_valid(pattern)
}

/// Globs of the texts `patterns` compile into a set.
pub open spec fn globs_build(patterns: Seq<Seq<char>>) -> bool {
    all_plain_wildcards(patterns) || special_globs_build(patterns)
}

/// The glob `pattern` matches all of `text`. A star matches any characters, and none, so a
/// plain wildcard matches whatever ends with its dot and suffix.
pub open spec fn glob_matches(pattern: Seq<char>, text: Seq<char>) -> bool {
    if is_plain_wildcard(pattern) {
        ends(text, pattern.skip(1))
    } else {
        special_glob_matches(pattern, text)
    }
}

/// `Regex::new` compiles a text, or rejects it; which of the two depends on the text alone. It
/// rejects a text with a `)` that closes no group.
pub assume_specification[ regex::Regex::new ](re: &str) -> (r: Result<regex::Regex, regex::Error>)
    ensures
        r is Ok <==> (!(groups_are_plain(re@) && closes_unopened(re@, 0))
            && special_regex_is_valid(re@)),
        r matches Ok(compiled) ==> regex_pattern(compiled) == re@,
;

/// `Regex::is_match` tells whether the regular expression matches anywhere in the haystack. That
/// depends on the two texts alone. Letters, digits, `-`, `_` and `\.` match themselves, `^`
/// matches at the start of the haystack alone and `$` at its end alone.
pub assume_specification[ regex::Regex::is_match ](re: &regex::Regex, haystack: &str) -> (r: bool)
    ensures
        r == (match spelled_whole(regex_pattern(*re)) {
            Some(whole) => haystack@ == whole,
            None => special_regex_is_match(regex_pattern(*re), haystack@),
        }),
;

/// `Glob::new` parses a text, or rejects it; which of the two depends on the text alone. It
/// never rejects a plain wildcard.
pub assume_specification[ globset::Glob::new ](glob: &str) -> (r: Result<
    globset::Glob,
    globset::Error,
>)
    ensures
        r is Ok <==> (is_plain_wildcard(glob@) || special_glob_is_valid(glob@)),
        r matches Ok(parsed) ==> glob_pattern(parsed) == glob@,
;

/// `GlobSetBuilder::new` starts a set without globs.
pub assume_specification[ globset::GlobSetBuilder::new ]() -> (r: globset::GlobSetBuilder)
    ensures
        builder_patterns(r) == Seq::<Seq<char>>::empty(),
;

/// `GlobSetBuilder::build` compiles the globs added so far, or fails; which of the two
/// depends on their texts alone. It never fails on plain wildcards.
pub assume_specification[ globset::GlobSetBuilder::build ](builder: &globset::GlobSetBuilder) -> (r:
    Result<globset::GlobSet, globset::Error>)
    ensures
        r is Ok <==> (all_plain_wildcards(builder_patterns(*builder)) || special_globs_build(
            builder_patterns(*builder),
        )),
        r matches Ok(set) ==> set_patterns(set) == builder_patterns(*builder),
;

/// `GlobSet::len` is the number of globs in the set.
pub assume_specification[ globset::GlobSet::len ](set: &globset::GlobSet) -> (r: usize)
    ensures
        r == set_patterns(*set).len(),
;

/// `GlobSetBuilder::add` adds one glob after those added before.
#[verifier::external_body]
pub(crate) fn add_glob(builder: &mut globset::GlobSetBuilder, glob: globset::Glob)
    ensures
        builder_patterns(*final(builder)) == builder_patterns(*old(builder)).push(
            glob_pattern(glob),
        ),
{
    builder.add(glob);
}

/// `GlobSet::is_match` tells whether any glob of the set matches all of the text.
#[verifier::external_body]
pub(crate) fn any_glob_matches(set: &globset::GlobSet, text: &str) -> (r: bool)
    ensures
        r == (exists|i: int|
            0 <= i < set_patterns(*set).len() && (if is_plain_wildcard(
                #[trigger] set_patterns(*set)[i],
            ) {
                ends(text@, set_patterns(*set)[i].skip(1))
            } else {
                special_glob_matches(set_patterns(*set)[i], text@)
            })),
{
    set.is_match(text)
}

} // verus!
