//! A JSON value as the tool server reads and writes it. Numbers keep their
//! decimal text, objects their members in order. Lookups take the first
//! member with a key; parsed objects never repeat a key.

use vstd::prelude::*;
use crate::text::{push_signed_decimal, signed_decimal};

verus! {

/// One JSON value.
#[derive(Debug, PartialEq)]
pub enum Json {
    Null,
    Bool(bool),
    /// A number, as its decimal text.
    Number(String),
    Str(String),
    Array(Vec<Json>),
    Object(Vec<(String, Json)>),
}

/// The value of the first member of `entries` named `key`.
pub open spec fn member(entries: Seq<(String, Json)>, key: Seq<char>) -> Option<Json>
    decreases entries.len(),
{
    if entries.len() == 0 {
        None
    } else if entries[0].0@ == key {
        Some(entries[0].1)
    } else {
        member(entries.drop_first(), key)
    }
}

/// The value of member `key` of `v`; `None` unless `v` is an object that
/// has it.
pub open spec fn field(v: Json, key: Seq<char>) -> Option<Json> {
    match v {
        Json::Object(entries) => member(entries@, key),
        _ => None,
    }
}

/// The text of a string value.
pub open spec fn string_of(v: Option<Json>) -> Option<Seq<char>> {
    match v {
        Some(Json::Str(s)) => Some(s@),
        _ => None,
    }
}

/// The value of a boolean.
pub open spec fn bool_of(v: Option<Json>) -> Option<bool> {
    match v {
        Some(Json::Bool(b)) => Some(b),
        _ => None,
    }
}

/// Whether `v` is the empty object `{}`.
pub open spec fn is_empty_object(v: Json) -> bool {
    v matches Json::Object(e) && e@.len() == 0
}

/// Whether `v` is the string `text`.
pub open spec fn is_string(v: Json, text: Seq<char>) -> bool {
    v matches Json::Str(s) && s@ == text
}

/// Whether `v` is the integer `n`, written in decimal.
pub open spec fn is_integer(v: Json, n: int) -> bool {
    v matches Json::Number(s) && s@ == signed_decimal(n)
}

/// Whether member `k` of `entries` is `(key, value)`.
pub open spec fn member_is(entries: Seq<(String, Json)>, k: int, key: Seq<char>, value: Json) -> bool {
    0 <= k < entries.len() && entries[k].0@ == key && entries[k].1 == value
}

/// Whether member `k` of `entries` is named `key` and holds the string `text`.
pub open spec fn member_is_string(
    entries: Seq<(String, Json)>,
    k: int,
    key: Seq<char>,
    text: Seq<char>,
) -> bool {
    0 <= k < entries.len() && entries[k].0@ == key && is_string(entries[k].1, text)
}

impl Json {
    /// A string value.
    pub fn text(s: &str) -> (v: Json)
        ensures
            is_string(v, s@),
    {
        Json::Str(String::from_str(s))
    }

    /// An integer, as its decimal text.
    pub fn integer(n: i64) -> (v: Json)
        ensures
            is_integer(v, n as int),
    {
        let mut s = String::new();
        push_signed_decimal(&mut s, n);
        Json::Number(s)
    }

    /// The empty object `{}`.
    pub fn empty_object() -> (v: Json)
        ensures
            is_empty_object(v),
    {
        Json::Object(Vec::new())
    }

    /// The value of member `key`, if this is an object that has one.
    pub fn get(&self, key: &str) -> (r: Option<&Json>)
        ensures
            match r {
                Some(v) => field(*self, key@) == Some(*v),
                None => field(*self, key@) is None,
            },
    {
        match self {
            Json::Object(entries) => {
                assert(entries@.skip(0) =~= entries@);
                let mut i: usize = 0;
                while i < entries.len()
                    invariant
                        i <= entries@.len(),
                        field(*self, key@) == member(entries@, key@),
                        member(entries@, key@) == member(entries@.skip(i as int), key@),
                    decreases entries@.len() - i,
                {
                    let ghost rest = entries@.skip(i as int);
                    assert(rest[0] == entries@[i as int]);
                    if crate::text::str_eq(entries[i].0.as_str(), key) {
                        assert(member(rest, key@) == Some(rest[0].1));
                        return Some(&entries[i].1);
                    }
                    assert(rest.drop_first() =~= entries@.skip(i + 1));
                    i += 1;
                }
                None
            },
            _ => None,
        }
    }

    /// The text, if this is a string.
    pub fn as_str(&self) -> (r: Option<&str>)
        ensures
            match r {
                Some(s) => string_of(Some(*self)) == Some(s@),
                None => string_of(Some(*self)) is None,
            },
    {
        match self {
            Json::Str(s) => Some(s.as_str()),
            _ => None,
        }
    }

    /// The value, if this is a boolean.
    pub fn as_bool(&self) -> (r: Option<bool>)
        ensures
            r == bool_of(Some(*self)),
    {
        match self {
            Json::Bool(b) => Some(*b),
            _ => None,
        }
    }
}

/// Moves the members named `keys[j]` out of an object's members: slot `j`
/// holds the first member called `keys[j]`, if any.
pub fn take_members(entries: Vec<(String, Json)>, keys: &[&str]) -> (r: Vec<Option<Json>>)
    requires
        forall|a: int, b: int| 0 <= a < b < keys@.len() ==> keys@[a]@ != keys@[b]@,
    ensures
        r@.len() == keys@.len(),
        forall|j: int| 0 <= j < keys@.len() ==> #[trigger] r@[j] == member(entries@, keys@[j]@),
{
    let ghost all = entries@;
    let mut entries = entries;
    let mut slots: Vec<Option<Json>> = Vec::new();
    let mut j: usize = 0;
    while j < keys.len()
        invariant
            j <= keys@.len(),
            slots@.len() == j,
            forall|q: int| 0 <= q < j ==> slots@[q] is None,
        decreases keys@.len() - j,
    {
        slots.push(None);
        j += 1;
    }
    assert(all.subrange(all.len() as int, all.len() as int) =~= Seq::<(String, Json)>::empty());
    while entries.len() > 0
        invariant
            entries@.len() <= all.len(),
            entries@ == all.subrange(0, entries@.len() as int),
            slots@.len() == keys@.len(),
            forall|a: int, b: int| 0 <= a < b < keys@.len() ==> keys@[a]@ != keys@[b]@,
            forall|q: int|
                0 <= q < keys@.len() ==> #[trigger] slots@[q] == member(
                    all.subrange(entries@.len() as int, all.len() as int),
                    keys@[q]@,
                ),
        decreases entries@.len(),
    {
        let k = entries.len() - 1;
        let ghost tail_before = all.subrange(k + 1, all.len() as int);
        let ghost tail_after = all.subrange(k as int, all.len() as int);
        let (name, value) = entries.pop().unwrap();
        assert(tail_after[0] == all[k as int]);
        assert(tail_after.drop_first() =~= tail_before);
        let mut q: usize = 0;
        let mut placed = false;
        while q < keys.len()
            invariant
                q <= keys@.len(),
                slots@.len() == keys@.len(),
                forall|a: int, b: int| 0 <= a < b < keys@.len() ==> keys@[a]@ != keys@[b]@,
                k < all.len(),
                tail_after.len() > 0,
                tail_after[0] == all[k as int],
                tail_after.drop_first() == tail_before,
                name@ == all[k as int].0@,
                !placed ==> value == all[k as int].1,
                placed ==> exists|p: int| 0 <= p < q && keys@[p]@ == name@,
                forall|p: int|
                    0 <= p < q ==> #[trigger] slots@[p] == member(tail_after, keys@[p]@),
                forall|p: int|
                    q <= p < keys@.len() ==> #[trigger] slots@[p] == member(
                        tail_before,
                        keys@[p]@,
                    ),
            ensures
                !placed ==> q == keys@.len(),
            decreases keys@.len() - q,
        {
            if !placed && crate::text::str_eq(name.as_str(), keys[q]) {
                slots.set(q, Some(value));
                placed = true;
                proof {
                    assert(member(tail_after, keys@[q as int]@) == Some(all[k as int].1));
                }
                q += 1;
                break;
            }
            proof {
                assert(member(tail_after, keys@[q as int]@) == member(tail_before, keys@[q as int]@));
            }
            q += 1;
        }
        proof {
            assert forall|p: int| 0 <= p < keys@.len() implies #[trigger] slots@[p] == member(
                tail_after,
                keys@[p]@,
            ) by {
                if p >= q {
                    if placed {
                        let w = choose|w: int| 0 <= w < q && keys@[w]@ == name@;
                        assert(keys@[w]@ != keys@[p]@);
                    } else {
                        assert(keys@[p]@ != name@);
                    }
                    assert(member(tail_after, keys@[p]@) == member(tail_before, keys@[p]@));
                }
            }
        }
    }
    assert(all.subrange(0, all.len() as int) =~= all);
    slots
}

} // verus!
