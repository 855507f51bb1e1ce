//! IP ranges in JSON documents, which seed the nftables static sets.
//!
//! Generic over any URL + key list, expressed as `JsonList(...)` lines in
//! `allowed-domains.txt`.  Two key forms are supported:
//!
//! | Key form                  | JSON shape                                              |
//! |---------------------------|---------------------------------------------------------|
//! | `web`                     | `json["web"]` is `["cidr", ...]`                        |
//! | `prefixes[].ipv4Prefix`   | `json["prefixes"]` is `[{"ipv4Prefix": "cidr"}, ...]`  |
//!
//! Example endpoints:
//! - GitHub: `api.github.com/meta` — keys `web`, `api`, `git` (simple form)
//! - Google: `gstatic.com/ipranges/goog.json` — keys `prefixes[].ipv4Prefix`, `prefixes[].ipv6Prefix`
//! - AWS: `ip-ranges.amazonaws.com/ip-ranges.json` — keys `prefixes[].ip_prefix`, `ipv6_prefixes[].ipv6_prefix`

use serde_json::Value;
use vstd::prelude::*;

use crate::addr::{Ipv4Addr, Ipv6Addr};
use crate::config::JsonIpListSpec;
use crate::net::{
    aggregate_v4, aggregate_v6, all_v4_valid, all_v6_valid, parse_v4_net, parse_v6_net,
    v4_aggregate, v4_covered, v4_disjoint, v4_net_is_valid, v4_net_of, v6_aggregate, v6_covered,
    v6_disjoint, v6_net_of, Ipv4Net, Ipv6Net,
};
use crate::text::{
    chars_of, cut, find, has_char, opt_text, opt_view, position_of_first, same, split_once,
    string_of, texts,
};

verus! {

/// One element of an array: what a key can select of it.
#[derive(Debug)]
pub enum JsonItem {
    /// A string.
    Text(String),
    /// An object: its fields, with the text of those that are strings.
    Object(Vec<(String, Option<String>)>),
    /// Anything else.
    Other,
}

/// The value of one top-level field.
#[derive(Debug)]
pub enum JsonField {
    /// An array.
    Array(Vec<JsonItem>),
    /// Anything else.
    Other,
}

/// A JSON document, as far as keys look into it.
#[derive(Debug)]
pub enum Json {
    /// An object: its fields.
    Object(Vec<(String, JsonField)>),
    /// Anything else.
    Other,
}

/// One element of an array.
pub enum Item {
    Text(Seq<char>),
    Object(Seq<(Seq<char>, Option<Seq<char>>)>),
    Other,
}

/// The value of one top-level field.
pub enum Field {
    Array(Seq<Item>),
    Other,
}

/// A JSON document.
pub enum Document {
    Object(Seq<(Seq<char>, Field)>),
    Other,
}

impl View for JsonItem {
    type V = Item;

    open spec fn view(&self) -> Item {
        match self {
            JsonItem::Text(s) => Item::Text(s@),
            JsonItem::Object(f) => Item::Object(
                Seq::new(f@.len(), |i: int| (f@[i].0@, opt_text(f@[i].1))),
            ),
            JsonItem::Other => Item::Other,
        }
    }
}

impl View for JsonField {
    type V = Field;

    open spec fn view(&self) -> Field {
        match self {
            JsonField::Array(a) => Field::Array(Seq::new(a@.len(), |i: int| a@[i]@)),
            JsonField::Other => Field::Other,
        }
    }
}

impl View for Json {
    type V = Document;

    open spec fn view(&self) -> Document {
        match self {
            Json::Object(f) => Document::Object(Seq::new(f@.len(), |i: int| (f@[i].0@, f@[i].1@))),
            Json::Other => Document::Other,
        }
    }
}

/// Why a text is not JSON.
#[verifier::external_type_specification]
#[verifier::external_body]
pub struct ExJsonError(serde_json::Error);

/// The document that `serde_json::from_slice` reads from `text`, if it is JSON.
pub uninterp spec fn json_document(text: Seq<u8>) -> Option<Document>;

/// `serde_json::from_slice` reads a JSON value, or rejects the text. The value, and whether
/// there is one, depend on the text alone.
#[verifier::external_body]
fn parse_json(text: &[u8]) -> (r: Result<Json, serde_json::Error>)
    ensures
        match r {
            Ok(json) => json_document(text@) == Some(json@),
            Err(_) => json_document(text@) is None,
        },
{
    let item = |v: Value| match v {
        Value::String(s) => JsonItem::Text(s),
        Value::Object(o) => JsonItem::Object(
            o.into_iter().map(|(k, v)| (k, v.as_str().map(String::from))).collect(),
        ),
        _ => JsonItem::Other,
    };
    let field = |v: Value| match v {
        Value::Array(a) => JsonField::Array(a.into_iter().map(item).collect()),
        _ => JsonField::Other,
    };
    Ok(match serde_json::from_slice(text)? {
        Value::Object(o) => Json::Object(o.into_iter().map(|(k, v)| (k, field(v))).collect()),
        _ => Json::Other,
    })
}

/// Reads a JSON document.
pub fn read_json(text: &[u8]) -> (r: Option<Json>)
    ensures
        match r {
            Some(json) => json_document(text@) == Some(json@),
            None => json_document(text@) is None,
        },
{
    match parse_json(text) {
        Ok(json) => Some(json),
        Err(_) => None,
    }
}

/// The top-level array that a key speaks of: what stands before `[].`, or all of the key.
pub open spec fn array_name(key: Seq<char>) -> Seq<char> {
    match cut(key, "[]."@) {
        Some((array, _)) => array,
        None => key,
    }
}

/// The field that a key selects of each object: what stands after `[].`, if the key has it.
pub open spec fn field_name(key: Seq<char>) -> Option<Seq<char>> {
    match cut(key, "[]."@) {
        Some((_, field)) => Some(field),
        None => None,
    }
}

/// Return the top-level array key for a key spec.
/// `"web"` → `"web"`;  `"prefixes[].ipv4Prefix"` → `"prefixes"`.
pub fn array_key(key: &str) -> (r: &str)
    ensures
        r@ == array_name(key@),
{
    let chars: Vec<char> = chars_of(key);
    let sep: Vec<char> = chars_of("[].");
    proof {
        position_of_first(key@, "[]."@);
    }
    match find(chars.as_slice(), sep.as_slice()) {
        Some(i) => {
            assert(key@.subrange(0, i as int) == key@.take(i as int));
            key.substring_char(0, i)
        },
        None => key,
    }
}

/// The value of the field `name`, if there is one.
pub open spec fn field_value(fields: Seq<(Seq<char>, Field)>, name: Seq<char>) -> Option<Field>
    decreases fields.len(),
{
    if fields.len() == 0 {
        None
    } else if fields[0].0 == name {
        Some(fields[0].1)
    } else {
        field_value(fields.skip(1), name)
    }
}

/// The text of the field `name`, if there is one and it is a string.
pub open spec fn field_text(
    fields: Seq<(Seq<char>, Option<Seq<char>>)>,
    name: Seq<char>,
) -> Option<Seq<char>>
    decreases fields.len(),
{
    if fields.len() == 0 {
        None
    } else if fields[0].0 == name {
        fields[0].1
    } else {
        field_text(fields.skip(1), name)
    }
}

/// The elements of the top-level array `name`, if there is such an array.
pub open spec fn array_items(json: Document, name: Seq<char>) -> Option<Seq<Item>> {
    match json {
        Document::Object(fields) => match field_value(fields, name) {
            Some(Field::Array(items)) => Some(items),
            _ => None,
        },
        Document::Other => None,
    }
}

/// What is selected of one element: the element if it is a string, or its field `field`.
pub open spec fn item_text(item: Item, field: Option<Seq<char>>) -> Option<Seq<char>> {
    match (item, field) {
        (Item::Text(s), None) => Some(s),
        (Item::Object(fields), Some(name)) => field_text(fields, name),
        _ => None,
    }
}

/// What is selected of the elements, in order.
pub open spec fn selected(items: Seq<Item>, field: Option<Seq<char>>) -> Seq<Seq<char>>
    decreases items.len(),
{
    if items.len() == 0 {
        Seq::empty()
    } else {
        let front = selected(items.drop_last(), field);
        match item_text(items.last(), field) {
            Some(s) => front.push(s),
            None => front,
        }
    }
}

/// The CIDR strings that `key` describes within `json`.
pub open spec fn cidrs(json: Document, key: Seq<char>) -> Seq<Seq<char>> {
    match array_items(json, array_name(key)) {
        Some(items) => selected(items, field_name(key)),
        None => Seq::empty(),
    }
}

/// Finds the elements of a top-level array.
fn find_array<'a>(json: &'a Json, name: &[char]) -> (r: Option<&'a Vec<JsonItem>>)
    ensures
        match r {
            Some(items) => array_items(json@, name@) == Some(
                Seq::new(items@.len(), |i: int| items@[i]@),
            ),
            None => array_items(json@, name@) is None,
        },
{
    match json {
        Json::Object(fields) => {
            let ghost all = json@->Object_0;
            let mut i: usize = 0;
            assert(all.skip(0) == all);
            while i < fields.len()
                invariant
                    i <= fields@.len(),
                    json@ == Document::Object(all),
                    all == Seq::new(fields@.len(), |i: int| (fields@[i].0@, fields@[i].1@)),
                    field_value(all, name@) == field_value(all.skip(i as int), name@),
                decreases fields@.len() - i,
            {
                let key: Vec<char> = chars_of(fields[i].0.as_str());
                assert(all.skip(i as int)[0] == (fields@[i as int].0@, fields@[i as int].1@));
                if same(key.as_slice(), name) {
                    return match &fields[i].1 {
                        JsonField::Array(items) => Some(items),
                        JsonField::Other => None,
                    };
                }
                assert(all.skip(i as int).skip(1) == all.skip(i + 1));
                i = i + 1;
            }
            None
        },
        Json::Other => None,
    }
}

/// Finds the text of a field.
fn find_text<'a>(fields: &'a Vec<(String, Option<String>)>, name: &[char]) -> (r: Option<
    &'a String,
>)
    ensures
        ({
            let all = Seq::new(fields@.len(), |i: int| (fields@[i].0@, opt_text(fields@[i].1)));
            match r {
                Some(s) => field_text(all, name@) == Some(s@),
                None => field_text(all, name@) is None,
            }
        }),
{
    let ghost all = Seq::new(fields@.len(), |i: int| (fields@[i].0@, opt_text(fields@[i].1)));
    let mut i: usize = 0;
    assert(all.skip(0) == all);
    while i < fields.len()
        invariant
            i <= fields@.len(),
            all == Seq::new(fields@.len(), |i: int| (fields@[i].0@, opt_text(fields@[i].1))),
            field_text(all, name@) == field_text(all.skip(i as int), name@),
        decreases fields@.len() - i,
    {
        let key: Vec<char> = chars_of(fields[i].0.as_str());
        assert(all.skip(i as int)[0] == (fields@[i as int].0@, opt_text(fields@[i as int].1)));
        if same(key.as_slice(), name) {
            return match &fields[i].1 {
                Some(s) => Some(s),
                None => None,
            };
        }
        assert(all.skip(i as int).skip(1) == all.skip(i + 1));
        i = i + 1;
    }
    None
}

/// List all CIDR strings described by `key` within `json`.
pub fn extract_cidrs(json: &Json, key: &str) -> (out: Vec<String>)
    ensures
        texts(out@) == cidrs(json@, key@),
{
    let key: Vec<char> = chars_of(key);
    let (name, field): (&[char], Option<&[char]>) = match split_once(key.as_slice(), "[].") {
        Some((array, field)) => (array, Some(field)),
        None => (key.as_slice(), None),
    };
    let ghost f = field_name(key@);
    let mut out: Vec<String> = Vec::new();
    let items: &Vec<JsonItem> = match find_array(json, name) {
        Some(items) => items,
        None => {
            assert(texts(out@) == Seq::<Seq<char>>::empty());
            return out;
        },
    };
    let ghost all = Seq::new(items@.len(), |i: int| items@[i]@);
    let mut i: usize = 0;
    while i < items.len()
        invariant
            i <= items@.len(),
            all == Seq::new(items@.len(), |i: int| items@[i]@),
            f == opt_view(field),
            texts(out@) == selected(all.take(i as int), f),
        decreases items@.len() - i,
    {
        let ghost before = out@;
        assert(all.take(i + 1).drop_last() == all.take(i as int));
        assert(all.take(i + 1).last() == items@[i as int]@);
        match (&items[i], field) {
            (JsonItem::Text(s), None) => {
                out.push(s.clone());
                assert(texts(out@) == texts(before).push(s@));
            },
            (JsonItem::Object(fields), Some(name)) => {
                match find_text(fields, name) {
                    Some(s) => {
                        out.push(s.clone());
                        assert(texts(out@) == texts(before).push(s@));
                    },
                    None => {},
                }
            },
            _ => {},
        }
        i = i + 1;
    }
    assert(all.take(i as int) == all);
    out
}

/// The IPv4 ranges among `cidrs`: those without a colon that read as one.
pub open spec fn v4_nets(cidrs: Seq<Seq<char>>) -> Seq<Ipv4Net>
    decreases cidrs.len(),
{
    if cidrs.len() == 0 {
        Seq::empty()
    } else {
        let front = v4_nets(cidrs.drop_last());
        match v4_net_of(cidrs.last()) {
            Some(n) if !cidrs.last().contains(':') => front.push(n),
            _ => front,
        }
    }
}

/// The IPv6 ranges among `cidrs`: those with a colon that read as one.
pub open spec fn v6_nets(cidrs: Seq<Seq<char>>) -> Seq<Ipv6Net>
    decreases cidrs.len(),
{
    if cidrs.len() == 0 {
        Seq::empty()
    } else {
        let front = v6_nets(cidrs.drop_last());
        match v6_net_of(cidrs.last()) {
            Some(n) if cidrs.last().contains(':') => front.push(n),
            _ => front,
        }
    }
}

/// Splits CIDR strings by family, leaving out those that are no ranges.
pub fn parse_cidrs(list: &Vec<String>) -> (r: (Vec<Ipv4Net>, Vec<Ipv6Net>))
    ensures
        r.0@ == v4_nets(texts(list@)),
        r.1@ == v6_nets(texts(list@)),
        all_v4_valid(r.0@),
        all_v6_valid(r.1@),
{
    let ghost all = texts(list@);
    let mut v4: Vec<Ipv4Net> = Vec::new();
    let mut v6: Vec<Ipv6Net> = Vec::new();
    let mut i: usize = 0;
    while i < list.len()
        invariant
            i <= list@.len(),
            all == texts(list@),
            v4@ == v4_nets(all.take(i as int)),
            v6@ == v6_nets(all.take(i as int)),
            all_v4_valid(v4@),
            all_v6_valid(v6@),
        decreases list@.len() - i,
    {
        let cidr: &String = &list[i];
        assert(all.take(i + 1).drop_last() == all.take(i as int));
        assert(all.take(i + 1).last() == cidr@);
        let chars: Vec<char> = chars_of(cidr.as_str());
        if has_char(chars.as_slice(), ':') {
            match parse_v6_net(cidr.as_str()) {
                Some(n) => {
                    v6.push(n);
                },
                None => {},
            }
        } else {
            match parse_v4_net(cidr.as_str()) {
                Some(n) => {
                    proof {
                        v4_net_is_valid(cidr@);
                    }
                    v4.push(n);
                },
                None => {},
            }
        }
        i = i + 1;
    }
    assert(all.take(i as int) == all);
    (v4, v6)
}

/// Aggregated IP ranges from a JSON endpoint, split by address family.
#[derive(Debug)]
pub struct IpRanges {
    pub v4: Vec<Ipv4Net>,
    pub v6: Vec<Ipv6Net>,
}

impl IpRanges {
    /// Every range has a valid prefix.
    pub open spec fn valid(&self) -> bool {
        all_v4_valid(self.v4@) && all_v6_valid(self.v6@)
    }

    /// No address lies in two ranges.
    pub open spec fn disjoint(&self) -> bool {
        v4_disjoint(self.v4@) && v6_disjoint(self.v6@)
    }

    /// The ranges cover exactly the addresses that `cidrs` list.
    pub open spec fn covers(&self, cidrs: Seq<Seq<char>>) -> bool {
        &&& forall|a: Ipv4Addr| #[trigger] v4_covered(self.v4@, a) == v4_listed(cidrs, a)
        &&& forall|a: Ipv6Addr| #[trigger] v6_covered(self.v6@, a) == v6_listed(cidrs, a)
    }
}

/// `cidr` is an IPv4 range that holds `a`.
pub open spec fn v4_lists(cidr: Seq<char>, a: Ipv4Addr) -> bool {
    !cidr.contains(':') && (v4_net_of(cidr) matches Some(n) && n.holds(a))
}

/// `cidr` is an IPv6 range that holds `a`.
pub open spec fn v6_lists(cidr: Seq<char>, a: Ipv6Addr) -> bool {
    cidr.contains(':') && (v6_net_of(cidr) matches Some(n) && n.holds(a))
}

/// One of `cidrs` is an IPv4 range that holds `a`.
pub open spec fn v4_listed(cidrs: Seq<Seq<char>>, a: Ipv4Addr) -> bool {
    exists|j: int| 0 <= j < cidrs.len() && v4_lists(#[trigger] cidrs[j], a)
}

/// One of `cidrs` is an IPv6 range that holds `a`.
pub open spec fn v6_listed(cidrs: Seq<Seq<char>>, a: Ipv6Addr) -> bool {
    exists|j: int| 0 <= j < cidrs.len() && v6_lists(#[trigger] cidrs[j], a)
}

/// Leaving out what is no IPv4 range loses no IPv4 address.
proof fn v4_nets_cover(cidrs: Seq<Seq<char>>, a: Ipv4Addr)
    ensures
        v4_covered(v4_nets(cidrs), a) == v4_listed(cidrs, a),
    decreases cidrs.len(),
{
    if cidrs.len() > 0 {
        let front = cidrs.drop_last();
        let nets = v4_nets(front);
        v4_nets_cover(front, a);
        if v4_listed(front, a) {
            let j = choose|j: int| 0 <= j < front.len() && v4_lists(#[trigger] front[j], a);
            assert(cidrs[j] == front[j]);
        }
        if v4_covered(nets, a) {
            let i = choose|i: int| 0 <= i < nets.len() && (#[trigger] nets[i]).holds(a);
            assert(v4_nets(cidrs)[i] == nets[i]);
        }
        if v4_lists(cidrs.last(), a) {
            assert(v4_nets(cidrs)[nets.len() as int].holds(a));
        }
        if v4_listed(cidrs, a) {
            let j = choose|j: int| 0 <= j < cidrs.len() && v4_lists(#[trigger] cidrs[j], a);
            assert(j < front.len() ==> front[j] == cidrs[j]);
        }
        if v4_covered(v4_nets(cidrs), a) {
            let all = v4_nets(cidrs);
            let i = choose|i: int| 0 <= i < all.len() && (#[trigger] all[i]).holds(a);
            assert(i < nets.len() ==> nets[i] == all[i]);
        }
    }
}

/// Leaving out what is no IPv6 range loses no IPv6 address.
proof fn v6_nets_cover(cidrs: Seq<Seq<char>>, a: Ipv6Addr)
    ensures
        v6_covered(v6_nets(cidrs), a) == v6_listed(cidrs, a),
    decreases cidrs.len(),
{
    if cidrs.len() > 0 {
        let front = cidrs.drop_last();
        let nets = v6_nets(front);
        v6_nets_cover(front, a);
        if v6_listed(front, a) {
            let j = choose|j: int| 0 <= j < front.len() && v6_lists(#[trigger] front[j], a);
            assert(cidrs[j] == front[j]);
        }
        if v6_covered(nets, a) {
            let i = choose|i: int| 0 <= i < nets.len() && (#[trigger] nets[i]).holds(a);
            assert(v6_nets(cidrs)[i] == nets[i]);
        }
        if v6_lists(cidrs.last(), a) {
            assert(v6_nets(cidrs)[nets.len() as int].holds(a));
        }
        if v6_listed(cidrs, a) {
            let j = choose|j: int| 0 <= j < cidrs.len() && v6_lists(#[trigger] cidrs[j], a);
            assert(j < front.len() ==> front[j] == cidrs[j]);
        }
        if v6_covered(v6_nets(cidrs), a) {
            let all = v6_nets(cidrs);
            let i = choose|i: int| 0 <= i < all.len() && (#[trigger] all[i]).holds(a);
            assert(i < nets.len() ==> nets[i] == all[i]);
        }
    }
}

/// Why a JSON endpoint gave no ranges.
#[derive(Clone, Debug, PartialEq, Eq)]
pub enum IpListError {
    /// The response is not JSON.
    InvalidJson,
    /// The response has no top-level array of this name.
    MissingArray(String),
    /// No usable range was found.
    NoRanges,
}

/// Every key of `keys` names a top-level array of `json`.
pub open spec fn arrays_present(json: Document, keys: Seq<Seq<char>>) -> bool {
    forall|i: int|
        0 <= i < keys.len() ==> array_items(json, array_name(#[trigger] keys[i])) is Some
}

/// The CIDR strings that the keys describe, key after key.
pub open spec fn all_cidrs(json: Document, keys: Seq<Seq<char>>) -> Seq<Seq<char>>
    decreases keys.len(),
{
    if keys.len() == 0 {
        Seq::empty()
    } else {
        all_cidrs(json, keys.drop_last()) + cidrs(json, keys.last())
    }
}

/// `r` is what `keys` select of `json`: the merged ranges of all keys; or the error that names
/// the first array that is missing; or the error that there is no range.
pub open spec fn is_selection(
    json: Document,
    keys: Seq<Seq<char>>,
    r: Result<IpRanges, IpListError>,
) -> bool {
    let v4 = v4_nets(all_cidrs(json, keys));
    let v6 = v6_nets(all_cidrs(json, keys));
    match r {
        Ok(ranges) => {
            &&& arrays_present(json, keys)
            &&& v4.len() > 0 || v6.len() > 0
            &&& ranges.v4@ == v4_aggregate(v4)
            &&& ranges.v6@ == v6_aggregate(v6)
        },
        Err(IpListError::MissingArray(name)) => exists|k: int|
            {
                &&& 0 <= k < keys.len()
                &&& name@ == array_name(#[trigger] keys[k])
                &&& array_items(json, name@) is None
                &&& arrays_present(json, keys.take(k))
            },
        Err(IpListError::NoRanges) => arrays_present(json, keys) && v4.len() == 0 && v6.len() == 0,
        Err(IpListError::InvalidJson) => false,
    }
}

/// Extract the ranges that `keys` describe and return them aggregated.
///
/// Returns an error if a required top-level array is absent, or no usable CIDRs are found.
pub fn select_ranges(json: &Json, keys: &Vec<String>) -> (r: Result<IpRanges, IpListError>)
    ensures
        is_selection(json@, texts(keys@), r),
        r matches Ok(ranges) ==> ranges.valid() && ranges.disjoint() && ranges.covers(
            all_cidrs(json@, texts(keys@)),
        ),
{
    let ghost names = texts(keys@);
    let mut i: usize = 0;
    while i < keys.len()
        invariant
            i <= keys@.len(),
            names == texts(keys@),
            forall|j: int|
                0 <= j < i ==> array_items(json@, array_name(#[trigger] names[j])) is Some,
        decreases keys@.len() - i,
    {
        let name: &str = array_key(keys[i].as_str());
        let chars: Vec<char> = chars_of(name);
        match find_array(json, chars.as_slice()) {
            Some(_) => {},
            None => {
                assert forall|j: int| 0 <= j < i implies array_items(
                    json@,
                    array_name(#[trigger] names.take(i as int)[j]),
                ) is Some by {
                    assert(names.take(i as int)[j] == names[j]);
                }
                assert(name@ == array_name(names[i as int]));
                return Err(IpListError::MissingArray(string_of(chars.as_slice())));
            },
        }
        i = i + 1;
    }
    let mut list: Vec<String> = Vec::new();
    let mut i: usize = 0;
    while i < keys.len()
        invariant
            i <= keys@.len(),
            names == texts(keys@),
            texts(list@) == all_cidrs(json@, names.take(i as int)),
        decreases keys@.len() - i,
    {
        let ghost before = list@;
        assert(names.take(i + 1).drop_last() == names.take(i as int));
        let mut more: Vec<String> = extract_cidrs(json, keys[i].as_str());
        let ghost added = more@;
        list.append(&mut more);
        assert(texts(list@) == texts(before) + texts(added));
        i = i + 1;
    }
    assert(names.take(i as int) == names);
    let (v4, v6): (Vec<Ipv4Net>, Vec<Ipv6Net>) = parse_cidrs(&list);
    if v4.len() == 0 && v6.len() == 0 {
        return Err(IpListError::NoRanges);
    }
    proof {
        assert forall|a: Ipv4Addr| v4_covered(v4@, a) == #[trigger] v4_listed(texts(list@), a) by {
            v4_nets_cover(texts(list@), a);
        }
        assert forall|a: Ipv6Addr| v6_covered(v6@, a) == #[trigger] v6_listed(texts(list@), a) by {
            v6_nets_cover(texts(list@), a);
        }
    }
    Ok(IpRanges { v4: aggregate_v4(&v4), v6: aggregate_v6(&v6) })
}

/// Read the response body of `spec.url`, extract CIDRs according to `spec.keys`, and return
/// aggregated ranges.
///
/// Returns an error if the response is not valid JSON, a required top-level array is absent,
/// or no usable CIDRs are found.
pub fn read_ip_list(body: &[u8], spec: &JsonIpListSpec) -> (r: Result<IpRanges, IpListError>)
    ensures
        match json_document(body@) {
            Some(json) => {
                &&& is_selection(json, spec@.keys, r)
                &&& r matches Ok(ranges) ==> ranges.covers(all_cidrs(json, spec@.keys))
            },
            None => r == Err::<IpRanges, IpListError>(IpListError::InvalidJson),
        },
        r matches Ok(ranges) ==> ranges.valid() && ranges.disjoint(),
{
    match read_json(body) {
        Some(json) => select_ranges(&json, &spec.keys),
        None => Err(IpListError::InvalidJson),
    }
}

/// The IPv4 ranges of the lists that could be had, list after list.
pub open spec fn v4_of_lists(lists: Seq<Option<IpRanges>>) -> Seq<Ipv4Net>
    decreases lists.len(),
{
    if lists.len() == 0 {
        Seq::empty()
    } else {
        match lists.last() {
            Some(ranges) => v4_of_lists(lists.drop_last()) + ranges.v4@,
            None => v4_of_lists(lists.drop_last()),
        }
    }
}

/// The IPv6 ranges of the lists that could be had, list after list.
pub open spec fn v6_of_lists(lists: Seq<Option<IpRanges>>) -> Seq<Ipv6Net>
    decreases lists.len(),
{
    if lists.len() == 0 {
        Seq::empty()
    } else {
        match lists.last() {
            Some(ranges) => v6_of_lists(lists.drop_last()) + ranges.v6@,
            None => v6_of_lists(lists.drop_last()),
        }
    }
}

/// One of the lists covers `a`.
pub open spec fn v4_in_lists(lists: Seq<Option<IpRanges>>, a: Ipv4Addr) -> bool {
    exists|i: int|
        0 <= i < lists.len() && #[trigger] lists[i] is Some && v4_covered(lists[i]->0.v4@, a)
}

/// One of the lists covers `a`.
pub open spec fn v6_in_lists(lists: Seq<Option<IpRanges>>, a: Ipv6Addr) -> bool {
    exists|i: int|
        0 <= i < lists.len() && #[trigger] lists[i] is Some && v6_covered(lists[i]->0.v6@, a)
}

/// Two sequences of ranges together cover what either covers.
proof fn v4_sum_covers(x: Seq<Ipv4Net>, y: Seq<Ipv4Net>, a: Ipv4Addr)
    ensures
        v4_covered(x + y, a) == (v4_covered(x, a) || v4_covered(y, a)),
{
    let z = x + y;
    if v4_covered(x, a) {
        let i = choose|i: int| 0 <= i < x.len() && (#[trigger] x[i]).holds(a);
        assert(z[i] == x[i]);
    }
    if v4_covered(y, a) {
        let i = choose|i: int| 0 <= i < y.len() && (#[trigger] y[i]).holds(a);
        assert(z[x.len() + i] == y[i]);
    }
    if v4_covered(z, a) {
        let i = choose|i: int| 0 <= i < z.len() && (#[trigger] z[i]).holds(a);
        assert(if i < x.len() { x[i] == z[i] } else { y[i - x.len()] == z[i] });
    }
}

/// Two sequences of ranges together cover what either covers.
proof fn v6_sum_covers(x: Seq<Ipv6Net>, y: Seq<Ipv6Net>, a: Ipv6Addr)
    ensures
        v6_covered(x + y, a) == (v6_covered(x, a) || v6_covered(y, a)),
{
    let z = x + y;
    if v6_covered(x, a) {
        let i = choose|i: int| 0 <= i < x.len() && (#[trigger] x[i]).holds(a);
        assert(z[i] == x[i]);
    }
    if v6_covered(y, a) {
        let i = choose|i: int| 0 <= i < y.len() && (#[trigger] y[i]).holds(a);
        assert(z[x.len() + i] == y[i]);
    }
    if v6_covered(z, a) {
        let i = choose|i: int| 0 <= i < z.len() && (#[trigger] z[i]).holds(a);
        assert(if i < x.len() { x[i] == z[i] } else { y[i - x.len()] == z[i] });
    }
}

/// Putting the lists one after the other loses no address.
pub proof fn lists_cover(lists: Seq<Option<IpRanges>>, a: Ipv4Addr, b: Ipv6Addr)
    ensures
        v4_covered(v4_of_lists(lists), a) == v4_in_lists(lists, a),
        v6_covered(v6_of_lists(lists), b) == v6_in_lists(lists, b),
    decreases lists.len(),
{
    if lists.len() > 0 {
        let front = lists.drop_last();
        lists_cover(front, a, b);
        if let Some(ranges) = lists.last() {
            v4_sum_covers(v4_of_lists(front), ranges.v4@, a);
            v6_sum_covers(v6_of_lists(front), ranges.v6@, b);
        }
        assert forall|i: int| 0 <= i < front.len() implies front[i] == #[trigger] lists[i] by {}
        if v4_in_lists(front, a) {
            let i = choose|i: int|
                0 <= i < front.len() && #[trigger] front[i] is Some && v4_covered(
                    front[i]->0.v4@,
                    a,
                );
            assert(lists[i] is Some);
        }
        if v6_in_lists(front, b) {
            let i = choose|i: int|
                0 <= i < front.len() && #[trigger] front[i] is Some && v6_covered(
                    front[i]->0.v6@,
                    b,
                );
            assert(lists[i] is Some);
        }
        if v4_in_lists(lists, a) {
            let i = choose|i: int|
                0 <= i < lists.len() && #[trigger] lists[i] is Some && v4_covered(
                    lists[i]->0.v4@,
                    a,
                );
            assert(i < front.len() ==> front[i] is Some);
        }
        if v6_in_lists(lists, b) {
            let i = choose|i: int|
                0 <= i < lists.len() && #[trigger] lists[i] is Some && v6_covered(
                    lists[i]->0.v6@,
                    b,
                );
            assert(i < front.len() ==> front[i] is Some);
        }
        assert(lists[lists.len() - 1] == lists.last());
    }
}

/// Every list that could be had has valid ranges.
pub open spec fn lists_valid(lists: Seq<Option<IpRanges>>) -> bool {
    forall|i: int| 0 <= i < lists.len() ==> (#[trigger] lists[i] matches Some(r) ==> r.valid())
}

/// Merge the lists into the ranges to seed. A list that could not be had is left out.
pub fn merge_ranges(lists: &Vec<Option<IpRanges>>) -> (r: IpRanges)
    requires
        lists_valid(lists@),
    ensures
        r.v4@ == v4_aggregate(v4_of_lists(lists@)),
        r.v6@ == v6_aggregate(v6_of_lists(lists@)),
        r.valid(),
        r.disjoint(),
        forall|a: Ipv4Addr| #[trigger] v4_covered(r.v4@, a) == v4_in_lists(lists@, a),
        forall|a: Ipv6Addr| #[trigger] v6_covered(r.v6@, a) == v6_in_lists(lists@, a),
{
    let mut v4: Vec<Ipv4Net> = Vec::new();
    let mut v6: Vec<Ipv6Net> = Vec::new();
    let mut i: usize = 0;
    while i < lists.len()
        invariant
            i <= lists@.len(),
            lists_valid(lists@),
            v4@ == v4_of_lists(lists@.take(i as int)),
            v6@ == v6_of_lists(lists@.take(i as int)),
            all_v4_valid(v4@),
            all_v6_valid(v6@),
        decreases lists@.len() - i,
    {
        assert(lists@.take(i + 1).drop_last() == lists@.take(i as int));
        assert(lists@.take(i + 1).last() == lists@[i as int]);
        match &lists[i] {
            Some(ranges) => {
                v4.extend_from_slice(ranges.v4.as_slice());
                v6.extend_from_slice(ranges.v6.as_slice());
            },
            None => {},
        }
        i = i + 1;
    }
    assert(lists@.take(i as int) == lists@);
    proof {
        assert forall|a: Ipv4Addr| v4_covered(v4@, a) == #[trigger] v4_in_lists(lists@, a) by {
            lists_cover(lists@, a, arbitrary());
        }
        assert forall|a: Ipv6Addr| v6_covered(v6@, a) == #[trigger] v6_in_lists(lists@, a) by {
            lists_cover(lists@, arbitrary(), a);
        }
    }
    IpRanges { v4: aggregate_v4(&v4), v6: aggregate_v6(&v6) }
}

/// Merging loses no address and adds none: the merged ranges cover exactly the addresses that
/// the CIDR strings of the lists that could be had give.
pub proof fn seeds_are_what_the_lists_name(
    lists: Seq<Option<IpRanges>>,
    cidrs: Seq<Seq<Seq<char>>>,
    merged: IpRanges,
    a: Ipv4Addr,
    b: Ipv6Addr,
)
    requires
        cidrs.len() == lists.len(),
        forall|i: int|
            0 <= i < lists.len() ==> (#[trigger] lists[i] matches Some(r) ==> r.covers(cidrs[i])),
        forall|a: Ipv4Addr| #[trigger] v4_covered(merged.v4@, a) == v4_in_lists(lists, a),
        forall|a: Ipv6Addr| #[trigger] v6_covered(merged.v6@, a) == v6_in_lists(lists, a),
    ensures
        v4_covered(merged.v4@, a) == (exists|i: int|
            0 <= i < lists.len() && #[trigger] lists[i] is Some && v4_listed(cidrs[i], a)),
        v6_covered(merged.v6@, b) == (exists|i: int|
            0 <= i < lists.len() && #[trigger] lists[i] is Some && v6_listed(cidrs[i], b)),
{
}

} // verus!
