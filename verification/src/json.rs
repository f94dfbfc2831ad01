//! JSON values, read and written through `serde_json`.
//!
//! A `serde_json::Value` stays what it is; `json_model` names what it holds, and
//! the functions here are the only ones that look inside.

use crate::text;
use vstd::prelude::*;

verus! {

#[verifier::external_type_specification]
#[verifier::external_body]
pub struct ExJsonValue(serde_json::Value);

/// What a JSON value holds. Numbers with a fraction or an exponent are told
/// apart by their bit pattern.
pub enum Json {
    Null,
    Bool(bool),
    Unsigned(u64),
    Negative(i64),
    Float(u64),
    Text(Seq<char>),
    List(Seq<Json>),
    Object(Map<Seq<char>, Json>),
}

/// The contents of a `serde_json::Value`.
pub uninterp spec fn json_model(value: serde_json::Value) -> Json;

/// The value that a text denotes: what `serde_json::from_str` makes of it.
pub uninterp spec fn json_parsed(text: Seq<char>) -> Option<Json>;

/// The indented text of a value: what `serde_json::to_string_pretty` makes of it.
pub uninterp spec fn json_pretty(value: Json) -> Seq<char>;

// ---------------------------------------------------------------------------
// Looking inside
// ---------------------------------------------------------------------------

/// A member of an object.
pub open spec fn member(value: Json, key: Seq<char>) -> Option<Json> {
    match value {
        Json::Object(m) => if m.contains_key(key) {
            Some(m[key])
        } else {
            None
        },
        _ => None,
    }
}

/// A member that is a text.
pub open spec fn text_member(value: Json, key: Seq<char>) -> Option<Seq<char>> {
    match member(value, key) {
        Some(Json::Text(t)) => Some(t),
        _ => None,
    }
}

/// A member that is a whole number of 64 bits.
pub open spec fn number_member(value: Json, key: Seq<char>) -> Option<u64> {
    match member(value, key) {
        Some(Json::Unsigned(n)) => Some(n),
        _ => None,
    }
}

/// A member that is a truth value.
pub open spec fn bool_member(value: Json, key: Seq<char>) -> Option<bool> {
    match member(value, key) {
        Some(Json::Bool(b)) => Some(b),
        _ => None,
    }
}

/// A member that is a list.
pub open spec fn list_member(value: Json, key: Seq<char>) -> Option<Seq<Json>> {
    match member(value, key) {
        Some(Json::List(s)) => Some(s),
        _ => None,
    }
}

/// The contents of several values.
pub open spec fn models(values: Seq<serde_json::Value>) -> Seq<Json> {
    values.map_values(|v: serde_json::Value| json_model(v))
}

pub proof fn models_push(values: Seq<serde_json::Value>, value: serde_json::Value)
    ensures
        models(values.push(value)) == models(values).push(json_model(value)),
{
    assert(models(values.push(value)) =~= models(values).push(json_model(value)));
}

/// `Value::get` with a key: the member of that name, none where the value is no
/// object or has no such member.
#[verifier::external_body]
pub(crate) fn get<'a>(value: &'a serde_json::Value, key: &str) -> (r: Option<
    &'a serde_json::Value,
>)
    ensures
        match r {
            Some(v) => member(json_model(*value), key@) == Some(json_model(*v)),
            None => member(json_model(*value), key@) is None,
        },
{
    value.get(key)
}

/// `Value::as_str`: the text where the value is one.
#[verifier::external_body]
pub(crate) fn as_text(value: &serde_json::Value) -> (r: Option<&str>)
    ensures
        match r {
            Some(t) => json_model(*value) == Json::Text(t@),
            None => !(json_model(*value) is Text),
        },
{
    value.as_str()
}

/// `Value::as_u64`: the number where the value is a whole one of 64 bits.
#[verifier::external_body]
pub(crate) fn as_number(value: &serde_json::Value) -> (r: Option<u64>)
    ensures
        match r {
            Some(n) => json_model(*value) == Json::Unsigned(n),
            None => !(json_model(*value) is Unsigned),
        },
{
    value.as_u64()
}

/// `Value::as_bool`: the truth value where the value is one.
#[verifier::external_body]
pub(crate) fn as_bool(value: &serde_json::Value) -> (r: Option<bool>)
    ensures
        match r {
            Some(b) => json_model(*value) == Json::Bool(b),
            None => !(json_model(*value) is Bool),
        },
{
    value.as_bool()
}

/// `Value::as_array`: the items where the value is a list.
#[verifier::external_body]
pub(crate) fn as_list(value: &serde_json::Value) -> (r: Option<&Vec<serde_json::Value>>)
    ensures
        match r {
            Some(items) => json_model(*value) == Json::List(models(items@)),
            None => !(json_model(*value) is List),
        },
{
    value.as_array()
}

/// `Value::as_object`, then `Map::keys`: the names of an object's members, each
/// once, in the order of their text.
#[verifier::external_body]
pub(crate) fn keys(value: &serde_json::Value) -> (r: Option<Vec<String>>)
    ensures
        match r {
            Some(names) => json_model(*value) is Object && text::texts(names@).to_set()
                == json_model(*value)->Object_0.dom() && (forall|i: int, j: int|
                0 <= i < j < names@.len() ==> text::text_less(
                    #[trigger] names@[i]@,
                    #[trigger] names@[j]@,
                )),
            None => !(json_model(*value) is Object),
        },
{
    value.as_object().map(|map| map.keys().cloned().collect())
}

pub(crate) fn get_text<'a>(value: &'a serde_json::Value, key: &str) -> (r: Option<&'a str>)
    ensures
        match r {
            Some(t) => text_member(json_model(*value), key@) == Some(t@),
            None => text_member(json_model(*value), key@) is None,
        },
{
    match get(value, key) {
        Some(v) => as_text(v),
        None => None,
    }
}

pub(crate) fn get_number(value: &serde_json::Value, key: &str) -> (r: Option<u64>)
    ensures
        r == number_member(json_model(*value), key@),
{
    match get(value, key) {
        Some(v) => as_number(v),
        None => None,
    }
}

pub(crate) fn get_bool(value: &serde_json::Value, key: &str) -> (r: Option<bool>)
    ensures
        r == bool_member(json_model(*value), key@),
{
    match get(value, key) {
        Some(v) => as_bool(v),
        None => None,
    }
}

pub(crate) fn get_list<'a>(value: &'a serde_json::Value, key: &str) -> (r: Option<
    &'a Vec<serde_json::Value>,
>)
    ensures
        match r {
            Some(items) => list_member(json_model(*value), key@) == Some(models(items@)),
            None => list_member(json_model(*value), key@) is None,
        },
{
    match get(value, key) {
        Some(v) => as_list(v),
        None => None,
    }
}

// ---------------------------------------------------------------------------
// Building
// ---------------------------------------------------------------------------

/// The members of an object under construction.
pub open spec fn pair_models(pairs: Seq<(String, serde_json::Value)>) -> Seq<(Seq<char>, Json)> {
    pairs.map_values(|p: (String, serde_json::Value)| (p.0@, json_model(p.1)))
}

/// The members by name; of two with one name the later counts.
pub open spec fn object_of(pairs: Seq<(Seq<char>, Json)>) -> Map<Seq<char>, Json>
    decreases pairs.len(),
{
    if pairs.len() == 0 {
        Map::empty()
    } else {
        object_of(pairs.drop_last()).insert(pairs.last().0, pairs.last().1)
    }
}

/// `Value::Null`.
#[verifier::external_body]
pub(crate) fn null() -> (r: serde_json::Value)
    ensures
        json_model(r) == Json::Null,
{
    serde_json::Value::Null
}

/// `Value::from` of a text.
#[verifier::external_body]
pub(crate) fn of_text(t: &str) -> (r: serde_json::Value)
    ensures
        json_model(r) == Json::Text(t@),
{
    serde_json::Value::from(t)
}

/// `Value::from` of a whole number.
#[verifier::external_body]
pub(crate) fn of_number(n: u64) -> (r: serde_json::Value)
    ensures
        json_model(r) == Json::Unsigned(n),
{
    serde_json::Value::from(n)
}

/// `Value::from` of a truth value.
#[verifier::external_body]
pub(crate) fn of_bool(b: bool) -> (r: serde_json::Value)
    ensures
        json_model(r) == Json::Bool(b),
{
    serde_json::Value::from(b)
}

/// `Value::Array` of several values.
#[verifier::external_body]
pub(crate) fn of_list(items: Vec<serde_json::Value>) -> (r: serde_json::Value)
    ensures
        json_model(r) == Json::List(models(items@)),
{
    serde_json::Value::Array(items)
}

/// `Value::Object` of several members, collected into a `Map`.
#[verifier::external_body]
pub(crate) fn of_members(pairs: Vec<(String, serde_json::Value)>) -> (r: serde_json::Value)
    ensures
        json_model(r) == Json::Object(object_of(pair_models(pairs@))),
{
    serde_json::Value::Object(pairs.into_iter().collect())
}

/// `Value::clone`.
#[verifier::external_body]
pub(crate) fn copy(value: &serde_json::Value) -> (r: serde_json::Value)
    ensures
        json_model(r) == json_model(*value),
{
    value.clone()
}

pub(crate) fn put(pairs: &mut Vec<(String, serde_json::Value)>, key: &str, value: serde_json::Value)
    ensures
        pair_models(final(pairs)@) == pair_models(old(pairs)@).push((key@, json_model(value))),
{
    let ghost before = pairs@;
    pairs.push((key.to_owned(), value));
    assert(pair_models(pairs@) =~= pair_models(before).push((key@, json_model(value))));
}

pub(crate) fn no_members() -> (pairs: Vec<(String, serde_json::Value)>)
    ensures
        pair_models(pairs@) == Seq::<(Seq<char>, Json)>::empty(),
{
    let pairs: Vec<(String, serde_json::Value)> = Vec::new();
    assert(pair_models(pairs@) =~= Seq::<(Seq<char>, Json)>::empty());
    pairs
}

/// An optional number: a null where there is none.
pub open spec fn optional_number(n: Option<u64>) -> Json {
    match n {
        Some(v) => Json::Unsigned(v),
        None => Json::Null,
    }
}

/// An optional text: a null where there is none.
pub open spec fn optional_text(t: Option<Seq<char>>) -> Json {
    match t {
        Some(v) => Json::Text(v),
        None => Json::Null,
    }
}

// ---------------------------------------------------------------------------
// Text
// ---------------------------------------------------------------------------

/// The value nests at most `depth` levels and holds no fraction: such a value
/// comes back from its text as it was.
pub open spec fn is_plain(value: Json, depth: nat) -> bool
    decreases depth,
{
    match value {
        Json::Float(_) => false,
        Json::List(items) => depth > 0 && forall|i: int|
            0 <= i < items.len() ==> is_plain(#[trigger] items[i], (depth - 1) as nat),
        Json::Object(m) => depth > 0 && forall|k: Seq<char>|
            m.contains_key(k) ==> is_plain(#[trigger] m[k], (depth - 1) as nat),
        _ => true,
    }
}

/// The members of a plain value are plain.
pub proof fn plain_member(value: Json, key: Seq<char>, depth: nat)
    requires
        is_plain(value, depth),
        member(value, key) is Some,
    ensures
        depth > 0,
        is_plain(member(value, key)->0, (depth - 1) as nat),
{
    match value {
        Json::Object(m) => {
            assert(m.contains_key(key));
            assert(is_plain(m[key], (depth - 1) as nat));
        },
        _ => {},
    }
}

/// A fraction of which the bits of the exponent are neither the greatest, which
/// stand for no number, nor the greatest of a number: one below 2^1023.
pub open spec fn is_moderate(bits: u64) -> bool {
    (bits / 0x10_0000_0000_0000) % 0x800 < 0x7fe
}

/// The value nests at most `depth` levels and its fractions are far enough from
/// the greatest ones to be read again, though with less precision.
pub open spec fn is_readable(value: Json, depth: nat) -> bool
    decreases depth,
{
    match value {
        Json::Float(bits) => is_moderate(bits),
        Json::List(items) => depth > 0 && forall|i: int|
            0 <= i < items.len() ==> is_readable(#[trigger] items[i], (depth - 1) as nat),
        Json::Object(m) => depth > 0 && forall|k: Seq<char>|
            m.contains_key(k) ==> is_readable(#[trigger] m[k], (depth - 1) as nat),
        _ => true,
    }
}

/// The values nest at most `depth` levels and are the same, except that a
/// fraction may stand where there is another fraction.
pub open spec fn same_but_for_fractions(a: Json, b: Json, depth: nat) -> bool
    decreases depth,
{
    match (a, b) {
        (Json::Float(_), Json::Float(_)) => true,
        (Json::List(s), Json::List(t)) => depth > 0 && s.len() == t.len() && forall|i: int|
            0 <= i < s.len() ==> same_but_for_fractions(
                #[trigger] s[i],
                t[i],
                (depth - 1) as nat,
            ),
        (Json::Object(m), Json::Object(n)) => depth > 0 && m.dom() == n.dom() && forall|
            k: Seq<char>,
        |
            m.contains_key(k) ==> same_but_for_fractions(
                #[trigger] m[k],
                n[k],
                (depth - 1) as nat,
            ),
        _ => a == b && !(a is List) && !(a is Object),
    }
}

/// A plain value can be read back.
pub proof fn plain_is_readable(value: Json, depth: nat)
    requires
        is_plain(value, depth),
    ensures
        is_readable(value, depth),
    decreases depth,
{
    match value {
        Json::List(items) => {
            assert forall|i: int| 0 <= i < items.len() implies is_readable(
                #[trigger] items[i],
                (depth - 1) as nat,
            ) by {
                assert(is_plain(items[i], (depth - 1) as nat));
                plain_is_readable(items[i], (depth - 1) as nat);
            }
        },
        Json::Object(m) => {
            assert forall|k: Seq<char>| m.contains_key(k) implies is_readable(
                #[trigger] m[k],
                (depth - 1) as nat,
            ) by {
                assert(is_plain(m[k], (depth - 1) as nat));
                plain_is_readable(m[k], (depth - 1) as nat);
            }
        },
        _ => {},
    }
}

/// The members of a value that can be read back can be, too.
pub proof fn readable_member(value: Json, key: Seq<char>, depth: nat)
    requires
        is_readable(value, depth),
        member(value, key) is Some,
    ensures
        depth > 0,
        is_readable(member(value, key)->0, (depth - 1) as nat),
{
    match value {
        Json::Object(m) => {
            assert(m.contains_key(key));
            assert(is_readable(m[key], (depth - 1) as nat));
        },
        _ => {},
    }
}

/// Where there are no fractions, the same but for fractions is the same.
pub proof fn plain_is_the_same(a: Json, b: Json, depth: nat)
    requires
        is_plain(a, depth),
        same_but_for_fractions(a, b, depth),
    ensures
        a == b,
    decreases depth,
{
    match (a, b) {
        (Json::List(s), Json::List(t)) => {
            assert forall|i: int| 0 <= i < s.len() implies s[i] == t[i] by {
                assert(is_plain(s[i], (depth - 1) as nat));
                assert(same_but_for_fractions(s[i], t[i], (depth - 1) as nat));
                plain_is_the_same(s[i], t[i], (depth - 1) as nat);
            }
            assert(s =~= t);
        },
        (Json::Object(m), Json::Object(n)) => {
            assert forall|k: Seq<char>| m.contains_key(k) implies m[k] == n[k] by {
                assert(is_plain(m[k], (depth - 1) as nat));
                assert(same_but_for_fractions(m[k], n[k], (depth - 1) as nat));
                plain_is_the_same(m[k], n[k], (depth - 1) as nat);
            }
            assert(m =~= n);
        },
        _ => {},
    }
}

/// Of two values that are the same but for fractions, the members are so too:
/// a plain one is the same, and so is one that is a text, a whole number or a
/// truth value.
pub proof fn members_are_the_same(a: Json, b: Json, key: Seq<char>, depth: nat)
    requires
        same_but_for_fractions(a, b, depth),
    ensures
        member(a, key) is Some <==> member(b, key) is Some,
        member(a, key) is Some ==> depth > 0 && same_but_for_fractions(
            member(a, key)->0,
            member(b, key)->0,
            (depth - 1) as nat,
        ),
        member(a, key) is Some && is_plain(member(a, key)->0, (depth - 1) as nat) ==> member(
            b,
            key,
        ) == member(a, key),
        text_member(a, key) == text_member(b, key),
        number_member(a, key) == number_member(b, key),
        bool_member(a, key) == bool_member(b, key),
{
    match (a, b) {
        (Json::Object(m), Json::Object(n)) => {
            assert(m.contains_key(key) <==> m.dom().contains(key));
            assert(n.contains_key(key) <==> n.dom().contains(key));
            if m.contains_key(key) {
                assert(same_but_for_fractions(m[key], n[key], (depth - 1) as nat));
                if is_plain(m[key], (depth - 1) as nat) {
                    plain_is_the_same(m[key], n[key], (depth - 1) as nat);
                }
            }
        },
        _ => {},
    }
}

/// `serde_json::from_str`: a function of the text. Which texts are JSON is left
/// unsaid.
#[verifier::external_body]
pub(crate) fn parse(text: &str) -> (r: Option<serde_json::Value>)
    ensures
        match r {
            Some(v) => json_parsed(text@) == Some(json_model(v)),
            None => json_parsed(text@) is None,
        },
{
    serde_json::from_str(text).ok()
}

/// `serde_json::to_string_pretty`: a function of the value, and one that is
/// there for every value, as the keys of a `Value` are texts and writing to
/// memory does not fail. A value that can be read back is read back from the
/// text as it was, but for its fractions: a finite fraction is written with a
/// point or an exponent, and is read as a fraction again. How near the fraction
/// that is read comes to the one that was written is left unsaid.
#[verifier::external_body]
fn write_pretty(value: &serde_json::Value) -> (r: String)
    ensures
        r@ == json_pretty(json_model(*value)),
        is_readable(json_model(*value), 127) ==> json_parsed(r@) is Some && same_but_for_fractions(
            json_model(*value),
            json_parsed(r@)->0,
            127,
        ),
{
    serde_json::to_string_pretty(value).expect("a value in memory can be written")
}

/// The indented text of a value. A value that can be read back is read back
/// from it as it was, but for its fractions; a plain one, which has none, as it
/// was.
pub(crate) fn pretty(value: &serde_json::Value) -> (r: String)
    ensures
        r@ == json_pretty(json_model(*value)),
        is_readable(json_model(*value), 127) ==> json_parsed(r@) is Some && same_but_for_fractions(
            json_model(*value),
            json_parsed(r@)->0,
            127,
        ),
        is_plain(json_model(*value), 127) ==> json_parsed(r@) == Some(json_model(*value)),
{
    let r = write_pretty(value);
    proof {
        if is_plain(json_model(*value), 127) {
            plain_is_readable(json_model(*value), 127);
            plain_is_the_same(json_model(*value), json_parsed(r@)->0, 127);
        }
    }
    r
}

} // verus!
