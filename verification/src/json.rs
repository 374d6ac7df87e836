//! JSON values as the library reads them.
//!
//! The caller decodes a document (serde) into a [`Json`]; the library then
//! picks out the fields it needs. Numbers keep their decimal text.
use vstd::prelude::*;
use crate::text::{chars_of, is_digit, digit_value, str_eq};

verus! {

/// A JSON value. An object keeps its members in document order; a number
/// keeps its text.
pub enum Json {
    Null,
    Bool(bool),
    Number(String),
    Str(String),
    Array(Vec<Json>),
    Object(Vec<(String, Json)>),
}

/// The member named `key`: the first that has the name.
pub open spec fn member_spec(members: Seq<(String, Json)>, key: Seq<char>) -> Option<Json>
    decreases members.len(),
{
    if members.len() == 0 {
        None
    } else if members[0].0@ == key {
        Some(members[0].1)
    } else {
        member_spec(members.drop_first(), key)
    }
}

/// `j[key]`: the member of an object; `None` for a missing member or a
/// value that is not an object.
pub open spec fn get_spec(j: Json, key: Seq<char>) -> Option<Json> {
    match j {
        Json::Object(ms) => member_spec(ms@, key),
        _ => None,
    }
}

/// `j[key]` when it is a string.
pub open spec fn text_spec(j: Json, key: Seq<char>) -> Option<Seq<char>> {
    match get_spec(j, key) {
        Some(Json::Str(s)) => Some(s@),
        _ => None,
    }
}

pub open spec fn opt_text_view(o: Option<String>) -> Option<Seq<char>> {
    match o {
        Some(s) => Some(s@),
        None => None,
    }
}

/// The value of the run of digits at the start of `s`, continuing from
/// `acc`.
pub open spec fn lead_value(s: Seq<char>, acc: nat) -> nat
    decreases s.len(),
{
    if s.len() > 0 && is_digit(s[0]) {
        lead_value(s.drop_first(), acc * 10 + digit_value(s[0]))
    } else {
        acc
    }
}

/// A JSON number's text taken to a `u32` the way a float-to-integer cast
/// takes its value: truncated toward zero, negative values to 0, values
/// beyond `u32::MAX` to `u32::MAX`. A number in exponent form (written for
/// magnitudes from 1e16 up, or below 1e-5) is `u32::MAX` or, with a negative
/// exponent, 0.
pub open spec fn number_as_u32(t: Seq<char>) -> u32 {
    if t.len() > 0 && t[0] == '-' {
        0
    } else if t.contains('e') || t.contains('E') {
        if t.contains('-') {
            0
        } else {
            u32::MAX
        }
    } else if lead_value(t, 0) > u32::MAX {
        u32::MAX
    } else {
        lead_value(t, 0) as u32
    }
}

/// `j[key]` when it is a number, as [`number_as_u32`] takes it.
pub open spec fn u32_spec(j: Json, key: Seq<char>) -> Option<u32> {
    match get_spec(j, key) {
        Some(Json::Number(t)) => Some(number_as_u32(t@)),
        _ => None,
    }
}

/// `j[key]`.
pub fn get<'a>(j: &'a Json, key: &str) -> (r: Option<&'a Json>)
    ensures
        r matches Some(v) ==> get_spec(*j, key@) == Some(*v),
        r is None ==> get_spec(*j, key@) is None,
{
    match j {
        Json::Object(ms) => {
            let mut i: usize = 0;
            assert(ms@.skip(0) =~= ms@);
            while i < ms.len()
                invariant
                    i <= ms@.len(),
                    get_spec(*j, key@) == member_spec(ms@, key@),
                    member_spec(ms@, key@) == member_spec(ms@.skip(i as int), key@),
                decreases ms@.len() - i,
            {
                assert(ms@.skip(i as int).drop_first() =~= ms@.skip(i + 1));
                assert(ms@.skip(i as int)[0] == ms@[i as int]);
                if str_eq(ms[i].0.as_str(), key) {
                    assert(ms@[i as int].0@ == key@);
                    assert(member_spec(ms@.skip(i as int), key@) == Some(ms@[i as int].1));
                    let v = &ms[i].1;
                    assert(*v == ms@[i as int].1);
                    return Some(v);
                }
                i += 1;
            }
            None
        },
        _ => None,
    }
}

/// `j[key]` when it is a string.
pub fn text_of(j: &Json, key: &str) -> (r: Option<String>)
    ensures
        opt_text_view(r) == text_spec(*j, key@),
{
    match get(j, key) {
        Some(Json::Str(s)) => Some(s.clone()),
        _ => None,
    }
}

/// `j[key]` when it is a number, as [`number_as_u32`] takes it.
pub fn u32_of(j: &Json, key: &str) -> (r: Option<u32>)
    ensures
        r == u32_spec(*j, key@),
{
    match get(j, key) {
        Some(Json::Number(t)) => Some(number_text_as_u32(t.as_str())),
        _ => None,
    }
}

fn has_char(cs: &Vec<char>, c: char) -> (b: bool)
    ensures
        b == cs@.contains(c),
{
    let mut i: usize = 0;
    while i < cs.len()
        invariant
            i <= cs@.len(),
            forall|k: int| 0 <= k < i ==> cs@[k] != c,
        decreases cs@.len() - i,
    {
        if cs[i] == c {
            assert(cs@[i as int] == c);
            return true;
        }
        i += 1;
    }
    false
}

/// A number's text as [`number_as_u32`] takes it.
pub fn number_text_as_u32(t: &str) -> (r: u32)
    ensures
        r == number_as_u32(t@),
{
    let cs = chars_of(t);
    if cs.len() > 0 && cs[0] == '-' {
        return 0;
    }
    if has_char(&cs, 'e') || has_char(&cs, 'E') {
        return if has_char(&cs, '-') {
            0
        } else {
            u32::MAX
        };
    }
    // `acc` is the value so far, held at 2^32 once it passes `u32::MAX`.
    let mut acc: u64 = 0;
    let mut i: usize = 0;
    let ghost mut exact: nat = 0;
    assert(cs@.skip(0) =~= cs@);
    while i < cs.len() && '0' <= cs[i] && cs[i] <= '9'
        invariant
            i <= cs@.len(),
            lead_value(cs@, 0) == lead_value(cs@.skip(i as int), exact),
            exact > u32::MAX ==> acc == 4294967296,
            exact <= u32::MAX ==> acc == exact,
        decreases cs@.len() - i,
    {
        let d = (cs[i] as u32 - '0' as u32) as u64;
        proof {
            assert(cs@.skip(i as int).drop_first() =~= cs@.skip(i + 1));
            assert(cs@.skip(i as int)[0] == cs@[i as int]);
            assert(d == digit_value(cs@[i as int]));
            assert(exact * 10 + d >= exact) by (nonlinear_arith);
            exact = (exact * 10 + d) as nat;
        }
        if acc > 4294967295 {
            acc = 4294967296;
        } else {
            let next = acc * 10 + d;
            acc = if next > 4294967295 {
                4294967296
            } else {
                next
            };
        }
        i += 1;
    }
    proof {
        if i < cs@.len() {
            assert(!is_digit(cs@.skip(i as int)[0]));
        }
    }
    if acc > 4294967295 {
        u32::MAX
    } else {
        acc as u32
    }
}

} // verus!
