//! What holds of every report on a pattern file.

use vstd::prelude::*;
use vstd::utf8::encode_utf8;

use crate::cli::{padded, report_lines, verdict_line, width_of};
use crate::config::{allowed, parsed, parsed_lines, Fault, Parsed};
use crate::config_line_laws::{
    kind_of, names_host, next_line_adds_its_kind, number_of, patterns_are_counted_by_kind, Kind,
};
use crate::text::{decimal, lines_of};

verus! {

/// `n` is how many hosts the lines name without a prefix, each counted once.
pub open spec fn counts_hosts(lines: Seq<Seq<char>>, n: nat) -> bool {
    exists|hosts: Seq<Seq<char>>|
        {
            &&& hosts.len() == n
            &&& #[trigger] hosts.no_duplicates()
            &&& forall|h: Seq<char>| hosts.contains(h) <==> #[trigger] names_host(lines, h)
        }
}

/// The report counts the lines of each kind of the file: under each label stands the number of
/// the lines of that kind, and behind the path their sum. Lists are counted if there are any.
pub proof fn report_counts_the_lines(path: Seq<char>, text: Seq<char>, names: Seq<Seq<char>>)
    requires
        parsed(text) is Ok,
    ensures
        ({
            let lines = lines_of(text);
            let config = parsed(text)->Ok_0;
            let r = report_lines(path, config, names);
            let hosts = config.patterns.exact.len();
            let suffixes = number_of(lines, Kind::Suffix);
            let wildcards = number_of(lines, Kind::Wildcard);
            let regexes = number_of(lines, Kind::Regex);
            let lists = number_of(lines, Kind::List);
            let head = if lists == 0 {
                5nat
            } else {
                6nat
            };
            &&& counts_hosts(lines, hosts)
            &&& r[0] == path + ": "@ + decimal(hosts + suffixes + wildcards + regexes)
                + " pattern(s)"@
            &&& r[1] == "  exact:    "@ + decimal(hosts)
            &&& r[2] == "  suffix:   "@ + decimal(suffixes)
            &&& r[3] == "  wildcard: "@ + decimal(wildcards)
            &&& r[4] == "  regex:    "@ + decimal(regexes)
            &&& lists > 0 ==> r[5] == "  JsonList: "@ + decimal(lists) + " URL(s)"@
            &&& r.len() == head + (if names.len() == 0 {
                0nat
            } else {
                names.len() + 1
            })
        }),
{
    let lines = lines_of(text);
    let config = parsed(text)->Ok_0;
    patterns_are_counted_by_kind(lines, config);
    assert(config.patterns.exact.no_duplicates());
}

/// One more line raises the count of its kind by one, and the counts of the other kinds stay: of
/// two files, of which one has one line more.
pub proof fn one_more_line_raises_its_count(
    path: Seq<char>,
    lines: Seq<Seq<char>>,
    line: Seq<char>,
    names: Seq<Seq<char>>,
    p: Parsed,
    q: Parsed,
)
    requires
        parsed_lines(lines) == Ok::<Parsed, Fault>(p),
        parsed_lines(lines.push(line)) == Ok::<Parsed, Fault>(q),
    ensures
        ({
            let before = report_lines(path, p, names);
            let after = report_lines(path, q, names);
            let exact = p.patterns.exact.len();
            let suffixes = p.patterns.suffixes.len();
            let wildcards = p.patterns.wildcards.len();
            let regexes = p.patterns.regexes.len();
            &&& before[1] == "  exact:    "@ + decimal(exact)
            &&& before[2] == "  suffix:   "@ + decimal(suffixes)
            &&& before[3] == "  wildcard: "@ + decimal(wildcards)
            &&& before[4] == "  regex:    "@ + decimal(regexes)
            &&& match kind_of(line) {
                Kind::Suffix => {
                    &&& after[2] == "  suffix:   "@ + decimal(suffixes + 1)
                    &&& after[1] == before[1] && after[3] == before[3] && after[4] == before[4]
                },
                Kind::Wildcard => {
                    &&& after[3] == "  wildcard: "@ + decimal(wildcards + 1)
                    &&& after[1] == before[1] && after[2] == before[2] && after[4] == before[4]
                },
                Kind::Regex => {
                    &&& after[4] == "  regex:    "@ + decimal(regexes + 1)
                    &&& after[1] == before[1] && after[2] == before[2] && after[3] == before[3]
                },
                Kind::Exact => {
                    &&& after[1] == before[1] || after[1] == "  exact:    "@ + decimal(exact + 1)
                    &&& after[2] == before[2] && after[3] == before[3] && after[4] == before[4]
                },
                Kind::List | Kind::Blank => {
                    &&& after[0] == before[0] && after[1] == before[1]
                    &&& after[2] == before[2] && after[3] == before[3] && after[4] == before[4]
                },
            }
        }),
{
    next_line_adds_its_kind(lines, line, p);
}

/// `width` is the width of the column of names: the bytes of the longest, but at least twenty.
pub open spec fn is_width(names: Seq<Seq<char>>, width: nat) -> bool {
    &&& width >= 20
    &&& forall|j: int|
        0 <= j < names.len() ==> encode_utf8(#[trigger] names[j]).len() <= width
    &&& width == 20 || exists|j: int|
        0 <= j < names.len() && encode_utf8(#[trigger] names[j]).len() == width
}

/// The column of names is as wide as the longest name.
proof fn width_is_that_of_the_longest(names: Seq<Seq<char>>)
    ensures
        is_width(names, width_of(names)),
    decreases names.len(),
{
    if names.len() > 0 {
        let front = names.drop_last();
        let w = width_of(names);
        width_is_that_of_the_longest(front);
        assert forall|j: int| 0 <= j < names.len() implies encode_utf8(
            #[trigger] names[j],
        ).len() <= w by {
            if j < front.len() {
                assert(front[j] == names[j]);
            }
        }
        if w != 20 {
            if w == width_of(front) {
                let j = choose|j: int|
                    0 <= j < front.len() && encode_utf8(#[trigger] front[j]).len() == w;
                assert(names[j] == front[j]);
            } else {
                assert(encode_utf8(names[names.len() - 1]).len() == w);
            }
        }
    }
}

/// The report says of each name, in order, behind an empty line, whether the file allows it: the
/// name, filled with spaces to the width of the column, two spaces and the verdict.
pub proof fn report_says_of_each_name(
    path: Seq<char>,
    config: Parsed,
    names: Seq<Seq<char>>,
    i: int,
)
    requires
        0 <= i < names.len(),
    ensures
        ({
            let r = report_lines(path, config, names);
            let head = if config.ip_lists.len() == 0 {
                5int
            } else {
                6int
            };
            let width = width_of(names);
            let fill = if names[i].len() < width {
                (width - names[i].len()) as nat
            } else {
                0nat
            };
            let spaces = Seq::new(fill, |k: int| ' ');
            &&& is_width(names, width)
            &&& r[head].len() == 0
            &&& allowed(config.patterns, names[i]) ==> r[head + 1 + i] == names[i] + spaces
                + "  ALLOW"@
            &&& !allowed(config.patterns, names[i]) ==> r[head + 1 + i] == names[i] + spaces
                + "  BLOCK"@
        }),
{
    width_is_that_of_the_longest(names);
    reveal_strlit("  ALLOW");
    reveal_strlit("  BLOCK");
    reveal_strlit("ALLOW");
    reveal_strlit("BLOCK");
    reveal_strlit("  ");
    assert("  ALLOW"@ =~= "  "@ + "ALLOW"@);
    assert("  BLOCK"@ =~= "  "@ + "BLOCK"@);
    let width = width_of(names);
    let fill = if names[i].len() < width {
        (width - names[i].len()) as nat
    } else {
        0nat
    };
    let n = names[i] + Seq::new(fill, |k: int| ' ');
    assert(n + "  "@ + "ALLOW"@ =~= n + "  ALLOW"@);
    assert(n + "  "@ + "BLOCK"@ =~= n + "  BLOCK"@);
    let r = report_lines(path, config, names);
    let head = if config.ip_lists.len() == 0 {
        5int
    } else {
        6int
    };
    assert(r[head] == Seq::<char>::empty());
    assert(r[head + 1 + i] == verdict_line(config.patterns, names[i], width));
    assert(padded(names[i], width) =~= n);
}

} // verus!
