//! What the command line computes: the values of `--upstream`, and the report of `check`.

use vstd::prelude::*;
use vstd::utf8::encode_utf8;

use crate::addr::{ip_of, parse_ip, parse_socket_ip, socket_ip_of, IpAddr};
use crate::config::{allowed, pattern_count, Config, Parsed, PatternSet, Patterns};
use crate::text::{
    chars_of, decimal, lined, push_all, push_str, rows, stripped_end, stripped_start, texts,
    to_numeral, trim_end_char, trim_start_char, write_lines,
};

verus! {

/// The address that an `--upstream` value gives: `ip`, `ip:port` or `[v6]:port`.
pub open spec fn upstream_of(value: Seq<char>) -> Option<IpAddr> {
    match socket_ip_of(value) {
        Some(a) => Some(a),
        None => ip_of(stripped_end(stripped_start(value, '['), ']')),
    }
}

/// Reads one `--upstream` value.
fn parse_upstream(value: &str) -> (r: Option<IpAddr>)
    ensures
        r == upstream_of(value@),
{
    let chars: Vec<char> = chars_of(value);
    match parse_socket_ip(chars.as_slice()) {
        Some(a) => Some(a),
        None => parse_ip(trim_end_char(trim_start_char(chars.as_slice(), '['), ']')),
    }
}

/// Parse `--upstream` values (each `ip` or `ip:port`) into IP addresses. An error holds the
/// first value that gives none.
pub fn parse_upstreams(values: &Vec<String>) -> (r: Result<Vec<IpAddr>, String>)
    ensures
        match r {
            Ok(out) => {
                &&& out@.len() == values@.len()
                &&& forall|i: int|
                    0 <= i < out@.len() ==> upstream_of(values@[i]@) == Some(#[trigger] out@[i])
            },
            Err(bad) => exists|k: int|
                {
                    &&& 0 <= k < values@.len()
                    &&& bad@ == (#[trigger] values@[k])@
                    &&& upstream_of(values@[k]@) is None
                    &&& forall|i: int|
                        0 <= i < k ==> upstream_of((#[trigger] values@[i])@) is Some
                },
        },
{
    let mut out: Vec<IpAddr> = Vec::new();
    let mut i: usize = 0;
    while i < values.len()
        invariant
            i <= values@.len(),
            out@.len() == i,
            forall|j: int|
                0 <= j < i ==> upstream_of((#[trigger] values@[j])@) == Some(out@[j]),
        decreases values@.len() - i,
    {
        match parse_upstream(values[i].as_str()) {
            Some(a) => {
                out.push(a);
            },
            None => {
                return Err(values[i].clone());
            },
        }
        i = i + 1;
    }
    assert forall|j: int| 0 <= j < out@.len() implies upstream_of(values@[j]@) == Some(
        #[trigger] out@[j],
    ) by {
        assert(upstream_of(values@[j]@) is Some);
    }
    Ok(out)
}

/// How many bytes the longest of `names` takes, but at least twenty.
pub open spec fn width_of(names: Seq<Seq<char>>) -> nat
    decreases names.len(),
{
    if names.len() == 0 {
        20
    } else {
        let front = width_of(names.drop_last());
        let n = encode_utf8(names.last()).len();
        if n > front {
            n
        } else {
            front
        }
    }
}

/// `s` with spaces up to `width` characters.
pub open spec fn padded(s: Seq<char>, width: nat) -> Seq<char> {
    s + Seq::new((if s.len() < width { width - s.len() } else { 0 }) as nat, |i: int| ' ')
}

/// The line that says whether a name is allowed.
pub open spec fn verdict_line(p: Patterns, name: Seq<char>, width: nat) -> Seq<char> {
    padded(name, width) + "  "@ + (if allowed(p, name) {
        "ALLOW"@
    } else {
        "BLOCK"@
    })
}

/// The lines that say of each name whether it is allowed, after an empty line.
pub open spec fn verdict_lines(p: Patterns, names: Seq<Seq<char>>) -> Seq<Seq<char>> {
    if names.len() == 0 {
        Seq::empty()
    } else {
        seq![Seq::<char>::empty()] + Seq::new(
            names.len(),
            |i: int| verdict_line(p, names[i], width_of(names)),
        )
    }
}

/// The lines of the report on a pattern file.
pub open spec fn report_lines(path: Seq<char>, config: Parsed, names: Seq<Seq<char>>) -> Seq<
    Seq<char>,
> {
    let p = config.patterns;
    seq![
        path + ": "@ + decimal(pattern_count(p)) + " pattern(s)"@,
        "  exact:    "@ + decimal(p.exact.len()),
        "  suffix:   "@ + decimal(p.suffixes.len()),
        "  wildcard: "@ + decimal(p.wildcards.len()),
        "  regex:    "@ + decimal(p.regexes.len()),
    ] + (if config.ip_lists.len() == 0 {
        Seq::empty()
    } else {
        seq!["  JsonList: "@ + decimal(config.ip_lists.len()) + " URL(s)"@]
    }) + verdict_lines(p, names)
}

/// The count of bytes of a text.
fn byte_count(s: &str) -> (n: usize)
    ensures
        n == encode_utf8(s@).len(),
{
    s.as_bytes().len()
}

/// The width of the column of names.
fn name_width(names: &Vec<String>) -> (width: usize)
    ensures
        width == width_of(texts(names@)),
{
    let ghost all = texts(names@);
    let mut width: usize = 20;
    let mut i: usize = 0;
    while i < names.len()
        invariant
            i <= names@.len(),
            all == texts(names@),
            width == width_of(all.take(i as int)),
        decreases names@.len() - i,
    {
        assert(all.take(i + 1).drop_last() == all.take(i as int));
        assert(all.take(i + 1).last() == names@[i as int]@);
        let n: usize = byte_count(names[i].as_str());
        if n > width {
            width = n;
        }
        i = i + 1;
    }
    assert(all.take(i as int) == all);
    width
}

/// Pads a text with spaces.
fn pad(s: &str, width: usize) -> (out: Vec<char>)
    ensures
        out@ == padded(s@, width as nat),
{
    let mut out: Vec<char> = chars_of(s);
    while out.len() < width
        invariant
            s@.len() <= out@.len(),
            out@.len() <= width || out@.len() == s@.len(),
            out@ == s@ + Seq::new((out@.len() - s@.len()) as nat, |i: int| ' '),
        decreases width - out@.len(),
    {
        out.push(' ');
    }
    out
}

/// Appends a line that ends in a number.
fn push_count(lines: &mut Vec<Vec<char>>, label: &str, n: usize)
    ensures
        rows(final(lines)@) == rows(old(lines)@).push(label@ + decimal(n as nat)),
{
    let ghost before = lines@;
    let mut line: Vec<char> = chars_of(label);
    push_all(&mut line, to_numeral(n as u64, 10).as_slice());
    lines.push(line);
    assert(rows(lines@) == rows(before).push(line@));
}

/// Appends the lines that say of each name whether it is allowed.
fn push_verdicts(lines: &mut Vec<Vec<char>>, patterns: &PatternSet, names: &Vec<String>)
    ensures
        rows(final(lines)@) == rows(old(lines)@) + verdict_lines(patterns@, texts(names@)),
{
    if names.len() == 0 {
        return;
    }
    let ghost all = texts(names@);
    let ghost start = rows(lines@);
    let width: usize = name_width(names);
    let ghost verdicts = Seq::new(
        all.len(),
        |i: int| verdict_line(patterns@, all[i], width_of(all)),
    );
    lines.push(Vec::new());
    assert(rows(lines@) =~= start + seq![Seq::<char>::empty()] + verdicts.take(0));
    let mut i: usize = 0;
    while i < names.len()
        invariant
            i <= names@.len(),
            all == texts(names@),
            width == width_of(all),
            verdicts == Seq::new(
                all.len(),
                |i: int| verdict_line(patterns@, all[i], width_of(all)),
            ),
            rows(lines@) == start + seq![Seq::<char>::empty()] + verdicts.take(i as int),
        decreases names@.len() - i,
    {
        let name: &str = names[i].as_str();
        let mut line: Vec<char> = pad(name, width);
        push_str(&mut line, "  ");
        if patterns.is_allowed(name) {
            push_str(&mut line, "ALLOW");
        } else {
            push_str(&mut line, "BLOCK");
        }
        assert(line@ == verdicts[i as int]);
        let ghost before = rows(lines@);
        lines.push(line);
        assert(rows(lines@) =~= before.push(line@));
        assert(verdicts.take(i + 1) =~= verdicts.take(i as int).push(verdicts[i as int]));
        i = i + 1;
    }
    assert(verdicts.take(i as int) == verdicts);
    assert(rows(lines@) =~= start + verdict_lines(patterns@, all));
}

/// Report on a pattern file: how many patterns of each kind it holds, and which of `names` it
/// allows.
pub fn check(path: &str, cfg: &Config, names: &Vec<String>) -> (out: String)
    ensures
        out@ == lined(report_lines(path@, cfg@, texts(names@))),
{
    let p: &PatternSet = &cfg.patterns;
    let mut lines: Vec<Vec<char>> = Vec::new();
    let mut line: Vec<char> = chars_of(path);
    push_str(&mut line, ": ");
    push_all(&mut line, to_numeral(p.len() as u64, 10).as_slice());
    push_str(&mut line, " pattern(s)");
    lines.push(line);
    assert(rows(lines@) =~= seq![line@]);
    push_count(&mut lines, "  exact:    ", p.exact_count());
    push_count(&mut lines, "  suffix:   ", p.suffix_count());
    push_count(&mut lines, "  wildcard: ", p.wildcard_count());
    push_count(&mut lines, "  regex:    ", p.regex_count());
    if cfg.ip_lists.len() > 0 {
        let ghost before = rows(lines@);
        let mut line: Vec<char> = chars_of("  JsonList: ");
        push_all(&mut line, to_numeral(cfg.ip_lists.len() as u64, 10).as_slice());
        push_str(&mut line, " URL(s)");
        lines.push(line);
        assert(rows(lines@) =~= before.push(line@));
    }
    push_verdicts(&mut lines, p, names);
    assert(rows(lines@) =~= report_lines(path@, cfg@, texts(names@)));
    write_lines(&lines)
}

} // verus!
