//! What every view shows: all that the value holds, each part in its place.

use vstd::prelude::*;

use crate::config::{
    config_view, json_list_view, patterns_view, Config, ConfigError, Fault, JsonIpListSpec,
    PatternSet,
};
use crate::dns::{Action, Deed, Event, Happening};
use crate::meta::{Item, Json, JsonField, JsonItem};
use crate::nft::{Ending, Invocation, RulesetParams, RunOutcome};
use crate::verify::{findings, passes, Check, Finding};

verus! {

/// A parsed file is seen as what it holds, and a refused one as why it was refused, with the line.
pub proof fn parsed_files_are_seen_whole(
    c: Config,
    p: PatternSet,
    e: ConfigError,
    s: JsonIpListSpec,
    i: int,
)
    ensures
        config_view(Ok(c)) is Ok,
        config_view(Ok(c))->Ok_0.patterns == c.patterns@,
        config_view(Ok(c))->Ok_0.ip_lists.len() == c.ip_lists@.len(),
        0 <= i < c.ip_lists@.len() ==> config_view(Ok(c))->Ok_0.ip_lists[i] == c.ip_lists@[i]@,
        patterns_view(Ok(p)) is Ok,
        patterns_view(Ok(p))->Ok_0 == p@,
        config_view(Err(e)) is Err,
        patterns_view(Err(e)) is Err,
        config_view(Err(e))->Err_0 == patterns_view(Err(e))->Err_0,
        e matches ConfigError::JsonList { line, error } ==> config_view(Err(e))->Err_0
            == (Fault::JsonList { line: line as int, error }),
        e matches ConfigError::Regex { line, text } ==> config_view(Err(e))->Err_0
            == (Fault::Regex { line: line as int, text: text@ }),
        e matches ConfigError::Wildcard { line } ==> config_view(Err(e))->Err_0
            == (Fault::Wildcard { line: line as int }),
        e is WildcardSet ==> config_view(Err(e))->Err_0 is WildcardSet,
        json_list_view(Ok(s)) is Ok,
        s@.url == s.url@,
        s@.keys.len() == s.keys@.len(),
        0 <= i < s.keys@.len() ==> s@.keys[i] == s.keys@[i]@,
{
}

/// A JSON document is seen with every field of it and every element of its arrays.
pub proof fn documents_are_seen_whole(
    fields: Vec<(String, JsonField)>,
    items: Vec<JsonItem>,
    texts: Vec<(String, Option<String>)>,
    s: String,
    i: int,
)
    ensures
        Json::Object(fields)@ is Object,
        Json::Object(fields)@->Object_0.len() == fields@.len(),
        0 <= i < fields@.len() ==> Json::Object(fields)@->Object_0[i] == (
            fields@[i].0@,
            fields@[i].1@,
        ),
        Json::Other@ is Other,
        JsonField::Array(items)@ is Array,
        JsonField::Array(items)@->Array_0.len() == items@.len(),
        0 <= i < items@.len() ==> JsonField::Array(items)@->Array_0[i] == items@[i]@,
        JsonField::Other@ is Other,
        JsonItem::Text(s)@ == Item::Text(s@),
        JsonItem::Object(texts)@ is Object,
        JsonItem::Object(texts)@->Object_0.len() == texts@.len(),
        0 <= i < texts@.len() ==> JsonItem::Object(texts)@->Object_0[i].0 == texts@[i].0@,
        0 <= i < texts@.len() ==> (JsonItem::Object(texts)@->Object_0[i].1 is Some
            <==> texts@[i].1 is Some),
        0 <= i < texts@.len() && texts@[i].1 is Some ==> JsonItem::Object(texts)@->Object_0[i].1
            == Some(texts@[i].1->0@),
        JsonItem::Other@ is Other,
{
}

/// What the ruleset is built from, a run and what came of it are seen part by part.
pub proof fn runs_are_seen_whole(p: RulesetParams, r: Invocation, o: RunOutcome, i: int)
    ensures
        p@.upstreams == p.upstreams@,
        p@.host_networks.len() == p.host_networks@.len(),
        0 <= i < p.host_networks@.len() ==> p@.host_networks[i] == p.host_networks@[i]@,
        p@.static_v4 == p.static_v4@,
        p@.static_v6 == p.static_v6@,
        p@.resolver_port == p.resolver_port,
        p@.intercept == p.intercept,
        r@.program == r.program@,
        r@.args.len() == r.args@.len(),
        0 <= i < r.args@.len() ==> r@.args[i] == r.args@[i]@,
        r@.stdin is Some <==> r.stdin is Some,
        r.stdin matches Some(text) ==> r@.stdin == Some(text@),
        o is NotStarted <==> o@ is NotStarted,
        o is NotWritten <==> o@ is NotWritten,
        o is NotWaited <==> o@ is NotWaited,
        o matches RunOutcome::Exited { succeeded, status, stderr } ==> o@ == (Ending::Exited {
            succeeded,
            status: status@,
            stderr: stderr@,
        }),
{
}

/// What happens in an exchange, and what is done about it, are seen as they are.
pub proof fn exchanges_are_seen_whole(e: Event, a: Action)
    ensures
        e is Malformed <==> e@ is Malformed,
        e matches Event::Query { name, query_type } ==> e@ == (Happening::Query {
            name: name@,
            query_type,
        }),
        e is LookupFailed <==> e@ is LookupFailed,
        e matches Event::Resolved(records) ==> e@ == Happening::Resolved(records@),
        e is Injected <==> e@ is Injected,
        e is InjectionFailed <==> e@ is InjectionFailed,
        a matches Action::ReplyError(code) ==> a@ == Deed::ReplyError(code),
        a matches Action::Lookup { name, query_type } ==> a@ == (Deed::Lookup {
            name: name@,
            query_type,
        }),
        a matches Action::Inject(run) ==> a@ == Deed::Inject(run@),
        a is Answer <==> a@ is Answer,
{
}

/// Checks are seen with their hosts, each in its place; the readiness file must be present, a
/// blocked host must not be reached, and an allowed host must.
pub proof fn checks_are_seen_whole(list: Seq<Check>, i: int)
    requires
        0 <= i < list.len(),
    ensures
        findings(list).len() == list.len(),
        findings(list)[i] == list[i]@,
        list[i] matches Check::Ready { present } ==> passes(list[i]@) == present && list[i]@
            == (Finding::Ready { present }),
        list[i] matches Check::Blocked { host, reached } ==> passes(list[i]@) == !reached
            && list[i]@ == (Finding::Blocked { host: host@, reached }),
        list[i] matches Check::Allowed { host, reached } ==> passes(list[i]@) == reached
            && list[i]@ == (Finding::Allowed { host: host@, reached }),
{
}

} // verus!
