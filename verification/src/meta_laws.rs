//! What holds of every seed list.

use vstd::prelude::*;

use crate::addr::{Ipv4Addr, Ipv6Addr};
use crate::meta::{
    all_cidrs, array_items, array_name, arrays_present, cidrs, field_name, field_text,
    field_value, is_selection, item_text, selected, v4_lists, v4_nets, v4_of_lists, v6_lists,
    v6_nets, v6_of_lists, Document, Field, IpListError, IpRanges, Item,
};
use crate::net::{v4_aggregate, v4_net_of, v6_aggregate, v6_net_of, Ipv4Net, Ipv6Net};
use crate::text::{begins, position_of, position_of_at, position_of_first};

verus! {

/// A field is found wherever it stands: its text is that of the first field of its name.
pub proof fn field_text_is_found(
    fields: Seq<(Seq<char>, Option<Seq<char>>)>,
    name: Seq<char>,
    i: int,
)
    requires
        0 <= i < fields.len(),
        fields[i].0 == name,
        forall|j: int| 0 <= j < i ==> (#[trigger] fields[j]).0 != name,
    ensures
        field_text(fields, name) == fields[i].1,
    decreases fields.len(),
{
    if i > 0 {
        assert(fields[0].0 != name);
        let rest = fields.skip(1);
        assert forall|j: int| 0 <= j < i - 1 implies (#[trigger] rest[j]).0 != name by {
            assert(rest[j] == fields[j + 1]);
        }
        field_text_is_found(rest, name, i - 1);
    }
}

/// A field that is not there has no text.
pub proof fn missing_field_has_no_text(
    fields: Seq<(Seq<char>, Option<Seq<char>>)>,
    name: Seq<char>,
)
    requires
        forall|j: int| 0 <= j < fields.len() ==> (#[trigger] fields[j]).0 != name,
    ensures
        field_text(fields, name) is None,
    decreases fields.len(),
{
    if fields.len() > 0 {
        assert(fields[0].0 != name);
        let rest = fields.skip(1);
        assert forall|j: int| 0 <= j < rest.len() implies (#[trigger] rest[j]).0 != name by {
            assert(rest[j] == fields[j + 1]);
        }
        missing_field_has_no_text(rest, name);
    }
}

/// A top-level field is found wherever it stands.
proof fn field_value_is_found(fields: Seq<(Seq<char>, Field)>, name: Seq<char>, i: int)
    requires
        0 <= i < fields.len(),
        fields[i].0 == name,
        forall|j: int| 0 <= j < i ==> (#[trigger] fields[j]).0 != name,
    ensures
        field_value(fields, name) == Some(fields[i].1),
    decreases fields.len(),
{
    if i > 0 {
        assert(fields[0].0 != name);
        let rest = fields.skip(1);
        assert forall|j: int| 0 <= j < i - 1 implies (#[trigger] rest[j]).0 != name by {
            assert(rest[j] == fields[j + 1]);
        }
        field_value_is_found(rest, name, i - 1);
    }
}

/// A top-level field that is not there is not found.
proof fn missing_field_has_no_value(fields: Seq<(Seq<char>, Field)>, name: Seq<char>)
    requires
        forall|j: int| 0 <= j < fields.len() ==> (#[trigger] fields[j]).0 != name,
    ensures
        field_value(fields, name) is None,
    decreases fields.len(),
{
    if fields.len() > 0 {
        assert(fields[0].0 != name);
        let rest = fields.skip(1);
        assert forall|j: int| 0 <= j < rest.len() implies (#[trigger] rest[j]).0 != name by {
            assert(rest[j] == fields[j + 1]);
        }
        missing_field_has_no_value(rest, name);
    }
}

/// A top-level array is found wherever it stands in the document, and only an array is.
pub proof fn array_is_found(fields: Seq<(Seq<char>, Field)>, name: Seq<char>, i: int)
    requires
        0 <= i < fields.len(),
        fields[i].0 == name,
        forall|j: int| 0 <= j < i ==> (#[trigger] fields[j]).0 != name,
    ensures
        array_items(Document::Object(fields), name) == (match fields[i].1 {
            Field::Array(items) => Some(items),
            Field::Other => None,
        }),
{
    field_value_is_found(fields, name, i);
}

/// There is no array where the document has no field of that name, or is no object.
pub proof fn missing_array_is_not_found(fields: Seq<(Seq<char>, Field)>, name: Seq<char>)
    requires
        forall|j: int| 0 <= j < fields.len() ==> (#[trigger] fields[j]).0 != name,
    ensures
        array_items(Document::Object(fields), name) is None,
        array_items(Document::Other, name) is None,
{
    missing_field_has_no_value(fields, name);
}

/// A key without brackets names its array, and selects the strings of it.
pub proof fn simple_key_names_its_array(key: Seq<char>)
    requires
        !key.contains('['),
    ensures
        array_name(key) == key,
        field_name(key) is None,
{
    reveal_strlit("[].");
    position_of_first(key, "[]."@);
    if let Some(i) = position_of(key, "[]."@) {
        assert(key.subrange(i, i + 3)[0] == key[i]);
    }
}

/// The key `array[].field` names its array and the field of the objects in it.
pub proof fn path_key_names_array_and_field(array: Seq<char>, field: Seq<char>)
    requires
        !array.contains('['),
    ensures
        array_name(array + "[]."@ + field) == array,
        field_name(array + "[]."@ + field) == Some(field),
{
    reveal_strlit("[].");
    let key = array + "[]."@ + field;
    let n = array.len() as int;
    assert(key.skip(n).take(3) =~= "[]."@);
    assert forall|j: int| 0 <= j < n implies !begins(#[trigger] key.skip(j), "[]."@) by {
        if begins(key.skip(j), "[]."@) {
            assert(key.skip(j).take(3)[0] == '[');
            assert(array[j] == '[');
        }
    }
    position_of_at(key, "[]."@, n);
    assert(key.take(n) =~= array);
    assert(key.skip(n + 3) =~= field);
}

/// What is selected of elements after elements is what is selected of both, in order.
pub proof fn selections_add_up(a: Seq<Item>, b: Seq<Item>, field: Option<Seq<char>>)
    ensures
        selected(a + b, field) == selected(a, field) + selected(b, field),
    decreases b.len(),
{
    if b.len() == 0 {
        assert(a + b =~= a);
    } else {
        selections_add_up(a, b.drop_last(), field);
        assert((a + b).drop_last() =~= a + b.drop_last());
        assert((a + b).last() == b.last());
        assert(selected(a + b, field) =~= selected(a, field) + selected(b, field));
    }
}

/// What is selected of one element: a string by a key without a field; of an object, the text of
/// its first field of the name that the key gives; of anything else, nothing.
pub proof fn selection_of_one(
    text: Seq<char>,
    fields: Seq<(Seq<char>, Option<Seq<char>>)>,
    name: Seq<char>,
    i: int,
)
    ensures
        selected(seq![Item::Text(text)], None) == seq![text],
        selected(seq![Item::Text(text)], Some(name)) == Seq::<Seq<char>>::empty(),
        selected(seq![Item::Object(fields)], None) == Seq::<Seq<char>>::empty(),
        selected(seq![Item::Other], None) == Seq::<Seq<char>>::empty(),
        selected(seq![Item::Other], Some(name)) == Seq::<Seq<char>>::empty(),
        0 <= i < fields.len() && fields[i].0 == name && (forall|j: int|
            0 <= j < i ==> (#[trigger] fields[j]).0 != name) ==> selected(
            seq![Item::Object(fields)],
            Some(name),
        ) == (match fields[i].1 {
            Some(s) => seq![s],
            None => Seq::<Seq<char>>::empty(),
        }),
        (forall|j: int| 0 <= j < fields.len() ==> (#[trigger] fields[j]).0 != name) ==> selected(
            seq![Item::Object(fields)],
            Some(name),
        ) == Seq::<Seq<char>>::empty(),
{
    one_selected(Item::Text(text), None);
    one_selected(Item::Text(text), Some(name));
    one_selected(Item::Object(fields), None);
    one_selected(Item::Object(fields), Some(name));
    one_selected(Item::Other, None);
    one_selected(Item::Other, Some(name));
    if 0 <= i < fields.len() && fields[i].0 == name && (forall|j: int|
        0 <= j < i ==> (#[trigger] fields[j]).0 != name) {
        field_text_is_found(fields, name, i);
    }
    if forall|j: int| 0 <= j < fields.len() ==> (#[trigger] fields[j]).0 != name {
        missing_field_has_no_text(fields, name);
    }
}

/// What is selected of one element.
proof fn one_selected(item: Item, field: Option<Seq<char>>)
    ensures
        selected(seq![item], field) == (match item_text(item, field) {
            Some(s) => seq![s],
            None => Seq::<Seq<char>>::empty(),
        }),
{
    assert(seq![item].drop_last() =~= Seq::<Item>::empty());
    reveal_with_fuel(selected, 2);
    assert(seq![item].last() == item);
}

/// The CIDR strings of a key are what it selects of the elements of its array; there are none
/// without the array.
pub proof fn cidrs_come_from_the_array(json: Document, key: Seq<char>)
    ensures
        array_items(json, array_name(key)) matches Some(items) ==> cidrs(json, key) == selected(
            items,
            field_name(key),
        ),
        array_items(json, array_name(key)) is None ==> cidrs(json, key).len() == 0,
{
}

/// The string under `field` of an object of `array` is among the CIDR strings of the key
/// `array[].field`.
pub proof fn path_key_selects_the_field(
    top: Seq<(Seq<char>, Field)>,
    array: Seq<char>,
    field: Seq<char>,
    t: int,
    k: int,
    i: int,
)
    requires
        !array.contains('['),
        0 <= t < top.len(),
        top[t].0 == array,
        forall|j: int| 0 <= j < t ==> (#[trigger] top[j]).0 != array,
        top[t].1 matches Field::Array(items) && 0 <= k < items.len() && (
        items[k] matches Item::Object(fields) && 0 <= i < fields.len() && fields[i].0 == field
            && fields[i].1 is Some && (forall|j: int|
            0 <= j < i ==> (#[trigger] fields[j]).0 != field)),
    ensures
        cidrs(Document::Object(top), array + "[]."@ + field).contains(
            top[t].1->Array_0[k]->Object_0[i].1->0,
        ),
{
    let items = top[t].1->Array_0;
    let fields = items[k]->Object_0;
    let s = fields[i].1->0;
    array_is_found(top, array, t);
    path_key_names_array_and_field(array, field);
    field_text_is_found(fields, field, i);
    let a = items.take(k);
    let b = items.skip(k + 1);
    assert(items =~= a + seq![items[k]] + b);
    selections_add_up(a + seq![items[k]], b, Some(field));
    selections_add_up(a, seq![items[k]], Some(field));
    one_selected(items[k], Some(field));
    let n = selected(a, Some(field)).len() as int;
    assert(selected(items, Some(field))[n] == s);
}

/// The CIDR strings of keys after keys are those of both, in order, and those of one key are its
/// own.
pub proof fn keys_add_up(json: Document, a: Seq<Seq<char>>, b: Seq<Seq<char>>, key: Seq<char>)
    ensures
        all_cidrs(json, a + b) == all_cidrs(json, a) + all_cidrs(json, b),
        all_cidrs(json, seq![key]) == cidrs(json, key),
        all_cidrs(json, Seq::empty()) == Seq::<Seq<char>>::empty(),
    decreases b.len(),
{
    assert(seq![key].drop_last() =~= Seq::<Seq<char>>::empty());
    reveal_with_fuel(all_cidrs, 2);
    assert(seq![key].last() == key);
    assert(all_cidrs(json, seq![key]) =~= cidrs(json, key));
    if b.len() == 0 {
        assert(a + b =~= a);
        assert(all_cidrs(json, a) + all_cidrs(json, b) =~= all_cidrs(json, a));
    } else {
        keys_add_up(json, a, b.drop_last(), key);
        assert((a + b).drop_last() =~= a + b.drop_last());
        assert((a + b).last() == b.last());
        assert(all_cidrs(json, a + b) =~= all_cidrs(json, a) + all_cidrs(json, b));
    }
}

/// The ranges of CIDR strings after CIDR strings are those of both, in order; a string with a
/// colon gives the IPv6 range that it writes, one without the IPv4 range, and what writes no
/// range gives none.
pub proof fn ranges_add_up(a: Seq<Seq<char>>, b: Seq<Seq<char>>, cidr: Seq<char>)
    ensures
        v4_nets(a + b) == v4_nets(a) + v4_nets(b),
        v6_nets(a + b) == v6_nets(a) + v6_nets(b),
        v4_nets(seq![cidr]) == (match v4_net_of(cidr) {
            Some(n) if !cidr.contains(':') => seq![n],
            _ => Seq::<Ipv4Net>::empty(),
        }),
        v6_nets(seq![cidr]) == (match v6_net_of(cidr) {
            Some(n) if cidr.contains(':') => seq![n],
            _ => Seq::<Ipv6Net>::empty(),
        }),
    decreases b.len(),
{
    assert(seq![cidr].drop_last() =~= Seq::<Seq<char>>::empty());
    assert(seq![cidr].last() == cidr);
    reveal_with_fuel(v4_nets, 2);
    reveal_with_fuel(v6_nets, 2);
    if b.len() == 0 {
        assert(a + b =~= a);
    } else {
        ranges_add_up(a, b.drop_last(), cidr);
        assert((a + b).drop_last() =~= a + b.drop_last());
        assert((a + b).last() == b.last());
    }
}

/// A range holds an address exactly if its CIDR string is of the family and the range that it
/// writes holds the address.
pub proof fn cidrs_list_by_family(cidr: Seq<char>, a: Ipv4Addr, b: Ipv6Addr)
    ensures
        v4_lists(cidr, a) ==> !cidr.contains(':') && v4_net_of(cidr) is Some,
        v6_lists(cidr, b) ==> cidr.contains(':') && v6_net_of(cidr) is Some,
        !cidr.contains(':') && v4_net_of(cidr) is Some ==> v4_lists(cidr, a) == v4_net_of(
            cidr,
        )->0.holds(a),
        cidr.contains(':') && v6_net_of(cidr) is Some ==> v6_lists(cidr, b) == v6_net_of(
            cidr,
        )->0.holds(b),
{
}

/// Each key has its array in the document.
pub open spec fn keys_have_arrays(json: Document, keys: Seq<Seq<char>>) -> bool {
    forall|k: int|
        0 <= k < keys.len() ==> array_items(json, array_name(#[trigger] keys[k])) is Some
}

/// Ranges are selected exactly if every key has its array and some CIDR string writes a range;
/// otherwise the first missing array is named or, where none is missing, the lack of ranges. A
/// document is never the fault.
pub proof fn selection_succeeds_when_it_can(
    json: Document,
    keys: Seq<Seq<char>>,
    r: Result<IpRanges, IpListError>,
)
    requires
        is_selection(json, keys, r),
    ensures
        r is Ok <==> keys_have_arrays(json, keys) && (v4_nets(all_cidrs(json, keys)).len() > 0
            || v6_nets(all_cidrs(json, keys)).len() > 0),
        r matches Ok(ranges) ==> ranges.v4@ == v4_aggregate(v4_nets(all_cidrs(json, keys))),
        r matches Ok(ranges) ==> ranges.v6@ == v6_aggregate(v6_nets(all_cidrs(json, keys))),
        r matches Err(IpListError::NoRanges) <==> keys_have_arrays(json, keys) && v4_nets(
            all_cidrs(json, keys),
        ).len() == 0 && v6_nets(all_cidrs(json, keys)).len() == 0,
        r matches Err(IpListError::MissingArray(name)) ==> exists|k: int|
            {
                &&& 0 <= k < keys.len()
                &&& name@ == array_name(#[trigger] keys[k])
                &&& array_items(json, array_name(keys[k])) is None
                &&& forall|j: int|
                    0 <= j < k ==> array_items(json, array_name(#[trigger] keys[j])) is Some
            },
        r matches Err(IpListError::MissingArray(_)) <==> !keys_have_arrays(json, keys),
        !(r matches Err(IpListError::InvalidJson)),
{
    if let Err(IpListError::MissingArray(name)) = r {
        let k = choose|k: int|
            {
                &&& 0 <= k < keys.len()
                &&& name@ == array_name(#[trigger] keys[k])
                &&& array_items(json, name@) is None
                &&& arrays_present(json, keys.take(k))
            };
        assert forall|j: int| 0 <= j < k implies array_items(
            json,
            array_name(#[trigger] keys[j]),
        ) is Some by {
            assert(keys.take(k)[j] == keys[j]);
        }
        assert(array_items(json, array_name(keys[k])) is None);
    }
}

/// The ranges of lists after lists are those of both, in order; a list that could not be had
/// gives none.
pub proof fn lists_add_up(
    a: Seq<Option<IpRanges>>,
    b: Seq<Option<IpRanges>>,
    ranges: IpRanges,
)
    ensures
        v4_of_lists(a + b) == v4_of_lists(a) + v4_of_lists(b),
        v6_of_lists(a + b) == v6_of_lists(a) + v6_of_lists(b),
        v4_of_lists(seq![Some(ranges)]) == ranges.v4@,
        v6_of_lists(seq![Some(ranges)]) == ranges.v6@,
        v4_of_lists(seq![None]) == Seq::<Ipv4Net>::empty(),
        v6_of_lists(seq![None]) == Seq::<Ipv6Net>::empty(),
    decreases b.len(),
{
    let one = seq![Some(ranges)];
    let none = seq![None::<IpRanges>];
    assert(one.drop_last() =~= Seq::<Option<IpRanges>>::empty());
    assert(none.drop_last() =~= Seq::<Option<IpRanges>>::empty());
    assert(one.last() == Some(ranges));
    assert(none.last() == None::<IpRanges>);
    reveal_with_fuel(v4_of_lists, 2);
    reveal_with_fuel(v6_of_lists, 2);
    assert(v4_of_lists(one) =~= ranges.v4@);
    assert(v6_of_lists(one) =~= ranges.v6@);
    if b.len() == 0 {
        assert(a + b =~= a);
        assert(v4_of_lists(a) + v4_of_lists(b) =~= v4_of_lists(a));
        assert(v6_of_lists(a) + v6_of_lists(b) =~= v6_of_lists(a));
    } else {
        lists_add_up(a, b.drop_last(), ranges);
        assert((a + b).drop_last() =~= a + b.drop_last());
        assert((a + b).last() == b.last());
        assert(v4_of_lists(a + b) =~= v4_of_lists(a) + v4_of_lists(b));
        assert(v6_of_lists(a + b) =~= v6_of_lists(a) + v6_of_lists(b));
    }
}

} // verus!
