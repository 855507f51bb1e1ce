//! Firewall bootstrap: the upstream resolvers, the host networks and the nftables ruleset.
//!
//! The daemon binds its listener socket first, then applies the ruleset of [`apply_ruleset`],
//! which installs default-drop egress **and** the DNS-redirect NAT chain in a single atomic
//! transaction — so interception is never enabled before the resolver is listening, and
//! default-drop is never enforced before the allow-set population path (interception) is live.

use vstd::prelude::*;

use crate::addr::{format_ip, ip_of, ip_text, parse_ip, IpAddr, Ipv4Addr, Ipv6Addr};
use crate::meta::{
    lists_valid, merge_ranges, v4_in_lists, v4_of_lists, v6_in_lists, v6_of_lists, IpRanges,
};
use crate::net::{v4_aggregate, v4_covered, v4_disjoint, v6_aggregate, v6_covered, v6_disjoint};
use crate::nft::{ruleset_lines, script_run, Invocation, Nft, Rules, RulesetParams, Run};
use crate::text::{
    after_prefix, chars_of, decimal, lined, lines, lines_of, push_all, push_str, rows,
    same_text, string_of, strip_prefix, texts, to_numeral, trim, trimmed, views, words,
    words_of, write_lines,
};

verus! {

/// Where the running daemon advertises readiness.
pub const READY_PATH: &'static str = "/run/castellan/ready";

/// The resolver configuration that the daemon takes over.
pub const RESOLV_CONF: &'static str = "/etc/resolv.conf";

/// Backup of the original Docker-assigned `/etc/resolv.conf`, written the first time we
/// take it over so subsequent (re)starts can still recover the real upstream resolver(s).
pub const RESOLV_BACKUP: &'static str = "/etc/resolv.conf.castellan";

/// Baked pattern file (copied into the image at build time).
pub const PATTERNS_FALLBACK: &'static str = "/usr/local/share/castellan/allowed-domains.txt";

/// Our own listener, `127.0.0.1`.
pub open spec fn listener() -> IpAddr {
    IpAddr::V4(Ipv4Addr { octets: [127, 0, 0, 1] })
}

/// The address of a `nameserver <ip>` line.
pub open spec fn nameserver_of(line: Seq<char>) -> Option<IpAddr> {
    let w = words_of(line);
    if w.len() >= 2 && w[0] == "nameserver"@ {
        ip_of(w[1])
    } else {
        None
    }
}

/// The real upstream resolvers that `lines` name: all but our own listener.
pub open spec fn upstreams_of(lines: Seq<Seq<char>>) -> Seq<IpAddr>
    decreases lines.len(),
{
    if lines.len() == 0 {
        Seq::empty()
    } else {
        let front = upstreams_of(lines.drop_last());
        match nameserver_of(lines.last()) {
            Some(a) if a != listener() => front.push(a),
            _ => front,
        }
    }
}

/// The real upstream resolvers of a text in resolv.conf format.
pub open spec fn named_upstreams(text: Seq<char>) -> Seq<IpAddr> {
    upstreams_of(lines_of(text))
}

/// Parse the IP out of a `nameserver <ip>` line, ignoring everything else.
fn parse_nameserver(line: &[char]) -> (r: Option<IpAddr>)
    ensures
        r == nameserver_of(line@),
{
    let fields: Vec<&[char]> = words(line);
    assert(views(fields@).len() == fields@.len());
    if fields.len() < 2 {
        return None;
    }
    assert(views(fields@)[0] == fields@[0]@);
    assert(views(fields@)[1] == fields@[1]@);
    if !same_text(fields[0], "nameserver") {
        return None;
    }
    parse_ip(fields[1])
}

/// Tests whether an address is our own listener.
fn is_listener(a: &IpAddr) -> (r: bool)
    ensures
        r == (*a == listener()),
{
    match a {
        IpAddr::V4(a) => {
            let r: bool = a.octets[0] == 127 && a.octets[1] == 0 && a.octets[2] == 0 && a.octets[3]
                == 1;
            proof {
                let own = Ipv4Addr { octets: [127, 0, 0, 1] };
                if r {
                    assert(a.octets =~= own.octets);
                }
            }
            r
        },
        IpAddr::V6(_) => false,
    }
}

/// Parse the real upstream resolver(s) out of resolv.conf-format text: every `nameserver
/// <ip>` line except our own listener (`127.0.0.1`). Loopback resolvers like Docker's
/// embedded `127.0.0.11` are kept — those are legitimate upstreams.
pub fn upstreams_in(text: &str) -> (out: Vec<IpAddr>)
    ensures
        out@ == named_upstreams(text@),
{
    let chars: Vec<char> = chars_of(text);
    let list: Vec<&[char]> = lines(chars.as_slice());
    let ghost all = lines_of(text@);
    let mut out: Vec<IpAddr> = Vec::new();
    let mut i: usize = 0;
    while i < list.len()
        invariant
            i <= list@.len(),
            views(list@) == all,
            out@ == upstreams_of(all.take(i as int)),
        decreases list@.len() - i,
    {
        assert(all.take(i + 1).drop_last() == all.take(i as int));
        assert(all.take(i + 1).last() == list@[i as int]@);
        match parse_nameserver(list[i]) {
            Some(a) => {
                if !is_listener(&a) {
                    out.push(a);
                }
            },
            None => {},
        }
        i = i + 1;
    }
    assert(all.take(i as int) == all);
    out
}

/// The lines of a resolv.conf that names `upstreams`.
pub open spec fn backup_lines(upstreams: Seq<IpAddr>) -> Seq<Seq<char>> {
    Seq::new(upstreams.len(), |i: int| "nameserver "@ + ip_text(upstreams[i]))
}

/// Writes a resolv.conf that names `upstreams`.
fn backup_of(upstreams: &Vec<IpAddr>) -> (out: String)
    ensures
        out@ == lined(backup_lines(upstreams@)),
{
    let mut list: Vec<Vec<char>> = Vec::new();
    let mut i: usize = 0;
    while i < upstreams.len()
        invariant
            i <= upstreams@.len(),
            list@.len() == i,
            forall|j: int| 0 <= j < i ==> (#[trigger] list@[j])@ == backup_lines(upstreams@)[j],
        decreases upstreams@.len() - i,
    {
        let mut line: Vec<char> = chars_of("nameserver ");
        push_all(&mut line, format_ip(&upstreams[i]).as_slice());
        list.push(line);
        i = i + 1;
    }
    assert(rows(list@) == backup_lines(upstreams@));
    write_lines(&list)
}

/// Choose the upstream resolver(s): those that were given win, and without any they have to be
/// looked up, which [`resolve_upstreams`] begins.
pub fn choose_upstreams(given: Vec<IpAddr>) -> (r: Option<Vec<IpAddr>>)
    ensures
        match r {
            Some(upstreams) => upstreams@ == given@ && given@.len() > 0,
            None => given@.len() == 0,
        },
{
    if given.len() > 0 {
        Some(given)
    } else {
        None
    }
}

/// Where the upstream resolvers come from.
#[derive(Debug)]
pub enum UpstreamSource {
    /// The live file names real resolvers: use them, and write `backup` to [`RESOLV_BACKUP`].
    Live { upstreams: Vec<IpAddr>, backup: String },
    /// The live file names none: recover them from [`RESOLV_BACKUP`].
    Backup,
}

/// Resolve the real upstream nameserver(s), from the contents of [`RESOLV_CONF`].
///
/// On a fresh container `/etc/resolv.conf` holds the Docker-assigned resolver(s); we back
/// them up so we can recover them later. On a restart we have already rewritten resolv.conf
/// to point at ourselves (`127.0.0.1`), so the upstream(s) come from the backup instead —
/// reading the live file would make the daemon try to resolve through itself.
pub fn resolve_upstreams(current: &str) -> (r: UpstreamSource)
    ensures
        match r {
            UpstreamSource::Live { upstreams, backup } => {
                &&& upstreams@ == named_upstreams(current@)
                &&& upstreams@.len() > 0
                &&& backup@ == lined(backup_lines(upstreams@))
            },
            UpstreamSource::Backup => named_upstreams(current@).len() == 0,
        },
{
    let upstreams: Vec<IpAddr> = upstreams_in(current);
    if upstreams.len() > 0 {
        let backup: String = backup_of(&upstreams);
        UpstreamSource::Live { upstreams, backup }
    } else {
        UpstreamSource::Backup
    }
}

/// Why no upstream resolver could be recovered.
#[derive(Clone, Copy, Debug, PartialEq, Eq)]
pub enum RecoveryError {
    /// There is no backup: the original resolver is unknown.
    NoBackup,
    /// The backup names no usable upstream resolver.
    EmptyBackup,
}

/// The upstream resolvers that a backup gives.
pub open spec fn recovered(backup: Option<Seq<char>>) -> Result<Seq<IpAddr>, RecoveryError> {
    match backup {
        Some(text) => if named_upstreams(text).len() > 0 {
            Ok(named_upstreams(text))
        } else {
            Err(RecoveryError::EmptyBackup)
        },
        None => Err(RecoveryError::NoBackup),
    }
}

/// Recover the real upstream(s) from the contents of [`RESOLV_BACKUP`].
///
/// The backup is only ever written from real (non-`127.0.0.1`) upstreams, so a missing
/// backup can never be "recovered" into a self-referential one — that case fails loudly.
pub fn recover_upstreams(backup: Option<&str>) -> (r: Result<Vec<IpAddr>, RecoveryError>)
    ensures
        match r {
            Ok(upstreams) => {
                &&& backup is Some
                &&& upstreams@ == named_upstreams(backup->0@)
                &&& upstreams@.len() > 0
            },
            Err(RecoveryError::NoBackup) => backup is None,
            Err(RecoveryError::EmptyBackup) => backup is Some && named_upstreams(backup->0@).len()
                == 0,
        },
        ({
            let given = match backup {
                Some(text) => Some(text@),
                None => None,
            };
            match r {
                Ok(upstreams) => recovered(given) == Ok::<Seq<IpAddr>, RecoveryError>(upstreams@),
                Err(e) => recovered(given) == Err::<Seq<IpAddr>, RecoveryError>(e),
            }
        }),
{
    match backup {
        Some(text) => {
            let upstreams: Vec<IpAddr> = upstreams_in(text);
            if upstreams.len() > 0 {
                Ok(upstreams)
            } else {
                Err(RecoveryError::EmptyBackup)
            }
        },
        None => Err(RecoveryError::NoBackup),
    }
}

/// The contents of a resolv.conf that points at the local resolver.
pub open spec fn repointed() -> Seq<char> {
    "nameserver 127.0.0.1\n"@
}

/// The contents of [`RESOLV_CONF`] that point at the local resolver.
/// The NAT redirect already intercepts all egress :53, so this is belt-and-suspenders for
/// resolver libraries that bypass NAT (e.g. dialing the loopback path directly).
pub fn repoint_resolv_conf() -> (r: &'static str)
    ensures
        r@ == "nameserver 127.0.0.1\n"@,
        r@ == repointed(),
{
    "nameserver 127.0.0.1\n"
}

/// The /24 network of an address.
pub open spec fn network_text(a: Ipv4Addr) -> Seq<char> {
    decimal(a.octets[0] as nat) + "."@ + decimal(a.octets[1] as nat) + "."@ + decimal(
        a.octets[2] as nat,
    ) + ".0/24"@
}

/// The network of the gateway that a line of `ip route` names, if it is a default route over
/// IPv4.
pub open spec fn host_network_of(line: Seq<char>) -> Option<Seq<char>> {
    match gateway_of(line) {
        Some(IpAddr::V4(a)) => Some(network_text(a)),
        _ => None,
    }
}

/// The gateway that a line of `ip route` names, if it is a default route.
pub open spec fn gateway_of(line: Seq<char>) -> Option<IpAddr> {
    match after_prefix(line, "default via "@) {
        Some(rest) => if words_of(rest).len() > 0 {
            ip_of(words_of(rest)[0])
        } else {
            None
        },
        None => None,
    }
}

/// The networks of the default gateways.
pub open spec fn host_networks_of(lines: Seq<Seq<char>>) -> Seq<Seq<char>>
    decreases lines.len(),
{
    if lines.len() == 0 {
        Seq::empty()
    } else {
        let front = host_networks_of(lines.drop_last());
        match host_network_of(lines.last()) {
            Some(net) => front.push(net),
            None => front,
        }
    }
}

/// Reads the gateway of a default route.
fn parse_gateway(line: &[char]) -> (r: Option<IpAddr>)
    ensures
        r == gateway_of(line@),
{
    // e.g. "default via 172.17.0.1 dev eth0"
    match strip_prefix(line, "default via ") {
        Some(rest) => {
            let fields: Vec<&[char]> = words(rest);
            assert(views(fields@).len() == fields@.len());
            if fields.len() > 0 {
                assert(views(fields@)[0] == fields@[0]@);
                parse_ip(fields[0])
            } else {
                None
            }
        },
        None => None,
    }
}

/// Writes the /24 network of an address.
fn format_network(a: &Ipv4Addr) -> (out: String)
    ensures
        out@ == network_text(*a),
{
    let mut out: Vec<char> = to_numeral(a.octets[0] as u64, 10);
    push_str(&mut out, ".");
    push_all(&mut out, to_numeral(a.octets[1] as u64, 10).as_slice());
    push_str(&mut out, ".");
    push_all(&mut out, to_numeral(a.octets[2] as u64, 10).as_slice());
    push_str(&mut out, ".0/24");
    string_of(out.as_slice())
}

/// Detect host networks to allow in the output of `ip route`: the /24 of the default gateway.
pub fn detect_host_networks(routes: &str) -> (out: Vec<String>)
    ensures
        texts(out@) == host_networks_of(lines_of(routes@)),
{
    let chars: Vec<char> = chars_of(routes);
    let list: Vec<&[char]> = lines(chars.as_slice());
    let ghost all = lines_of(routes@);
    let mut out: Vec<String> = Vec::new();
    let mut i: usize = 0;
    while i < list.len()
        invariant
            i <= list@.len(),
            views(list@) == all,
            texts(out@) == host_networks_of(all.take(i as int)),
        decreases list@.len() - i,
    {
        let ghost before = out@;
        assert(all.take(i + 1).drop_last() == all.take(i as int));
        assert(all.take(i + 1).last() == list@[i as int]@);
        match parse_gateway(list[i]) {
            Some(IpAddr::V4(a)) => {
                out.push(format_network(&a));
                assert(texts(out@) == texts(before).push(network_text(a)));
            },
            _ => {},
        }
        i = i + 1;
    }
    assert(all.take(i as int) == all);
    out
}

/// The contents of a sysctl file say that the sysctl is set.
pub open spec fn is_set(val: Seq<char>) -> bool {
    trimmed(val) == "1"@
}

/// Verify the sysctl required for DNAT to loopback is active, from the contents of its file (it
/// is set via --sysctl at container creation; writing to /proc/sys is not possible without
/// SYS_ADMIN).
pub fn route_localnet_is_set(val: &str) -> (r: bool)
    ensures
        r == (trimmed(val@) == "1"@),
        r == is_set(val@),
{
    let chars: Vec<char> = chars_of(val);
    same_text(trim(chars.as_slice()), "1")
}

/// What the ruleset is built from: `routes` is the output of `ip route`, and `lists` holds the
/// fetched seed lists, with `None` for each that could not be had.
pub open spec fn ruleset_inputs(
    upstreams: Seq<IpAddr>,
    routes: Seq<char>,
    lists: Seq<Option<IpRanges>>,
    resolver_port: u16,
) -> Rules {
    Rules {
        upstreams,
        host_networks: host_networks_of(lines_of(routes)),
        static_v4: v4_aggregate(v4_of_lists(lists)),
        static_v6: v6_aggregate(v6_of_lists(lists)),
        resolver_port,
        intercept: true,
    }
}

/// The run `run` seeds the ruleset with ranges that cover exactly the addresses that the lists
/// cover, none of them twice.
pub open spec fn seeds_cover_the_lists(
    inputs: Rules,
    lists: Seq<Option<IpRanges>>,
    run: Run,
) -> bool {
    &&& run.stdin == Some(lined(ruleset_lines(inputs)))
    &&& forall|a: Ipv4Addr| #[trigger] v4_covered(inputs.static_v4, a) == v4_in_lists(lists, a)
    &&& forall|a: Ipv6Addr| #[trigger] v6_covered(inputs.static_v6, a) == v6_in_lists(lists, a)
    &&& v4_disjoint(inputs.static_v4)
    &&& v6_disjoint(inputs.static_v6)
}

/// Build the run that atomically applies the full default-drop + DNS-intercept ruleset.
/// Called once per cold start, after the daemon's listener socket is already bound
/// (so the redirect never points at a dead port) and after the seed lists were fetched, while
/// egress was still open. A list that could not be fetched is left out.
pub fn apply_ruleset(
    nft: &Nft,
    upstreams: Vec<IpAddr>,
    routes: &str,
    lists: &Vec<Option<IpRanges>>,
    resolver_port: u16,
) -> (r: Invocation)
    requires
        lists_valid(lists@),
    ensures
        r@ == script_run(
            nft@,
            lined(ruleset_lines(ruleset_inputs(upstreams@, routes@, lists@, resolver_port))),
        ),
        seeds_cover_the_lists(
            ruleset_inputs(upstreams@, routes@, lists@, resolver_port),
            lists@,
            r@,
        ),
{
    let ranges: IpRanges = merge_ranges(lists);
    let ghost inputs = ruleset_inputs(upstreams@, routes@, lists@, resolver_port);
    let params = RulesetParams {
        upstreams,
        host_networks: detect_host_networks(routes),
        static_v4: ranges.v4,
        static_v6: ranges.v6,
        resolver_port,
        intercept: true,
    };
    assert(params@ =~= inputs);
    nft.apply_ruleset(&params)
}

} // verus!
