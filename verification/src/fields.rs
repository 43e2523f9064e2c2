//! Plain members of JSON objects, read with a default.
use vstd::prelude::*;

use crate::json::{Json, JsonView, Members};
use crate::number::{Scalar, ScalarView};
use crate::value::{coerce_bool, coerce_f64, coerce_i64, coerce_u32};

verus! {

/// The text of an optional string.
pub open spec fn opt_text(s: Option<String>) -> Option<Seq<char>> {
    match s {
        Some(t) => Some(t@),
        None => None,
    }
}

/// The value of an option, or a default.
pub open spec fn value_or<T>(v: Option<T>, default: T) -> T {
    match v {
        Some(x) => x,
        None => default,
    }
}

/// The string member `key`.
pub open spec fn text_at(o: Seq<(Seq<char>, JsonView)>, key: Seq<char>) -> Option<Seq<char>> {
    crate::json::text_of(crate::json::member(o, key))
}

/// The member `key` read as a flag.
pub open spec fn flag_at(o: Seq<(Seq<char>, JsonView)>, key: Seq<char>) -> Option<bool> {
    match crate::json::member(o, key) {
        Some(v) => crate::value::as_flag(v),
        None => None,
    }
}

/// The member `key` read as an integer.
pub open spec fn int_at(o: Seq<(Seq<char>, JsonView)>, key: Seq<char>) -> Option<i64> {
    match crate::json::member(o, key) {
        Some(v) => crate::value::as_int(v),
        None => None,
    }
}

/// The member `key` read as an unsigned integer.
pub open spec fn unsigned_at(o: Seq<(Seq<char>, JsonView)>, key: Seq<char>) -> Option<u32> {
    match crate::json::member(o, key) {
        Some(v) => crate::value::as_unsigned(v),
        None => None,
    }
}

/// The member `key` read as a number.
pub open spec fn scalar_at(o: Seq<(Seq<char>, JsonView)>, key: Seq<char>) -> Option<ScalarView> {
    match crate::json::member(o, key) {
        Some(v) => crate::value::as_scalar(v),
        None => None,
    }
}

/// The objects among the elements of an array; none for any other value.
pub open spec fn objects_of(v: Option<JsonView>) -> Seq<Seq<(Seq<char>, JsonView)>> {
    objects_among(crate::json::elements(v))
}

/// The objects among a list of values.
pub open spec fn objects_among(a: Seq<JsonView>) -> Seq<Seq<(Seq<char>, JsonView)>>
    decreases a.len(),
{
    if a.len() == 0 {
        Seq::empty()
    } else {
        match a.last() {
            JsonView::Object(o) => objects_among(a.drop_last()).push(o),
            _ => objects_among(a.drop_last()),
        }
    }
}

/// The strings among the elements of an array; none for any other value.
pub open spec fn texts_of(v: Option<JsonView>) -> Seq<Seq<char>> {
    texts_among(crate::json::elements(v))
}

/// The strings among a list of values.
pub open spec fn texts_among(a: Seq<JsonView>) -> Seq<Seq<char>>
    decreases a.len(),
{
    if a.len() == 0 {
        Seq::empty()
    } else {
        match a.last() {
            JsonView::String(s) => texts_among(a.drop_last()).push(s),
            _ => texts_among(a.drop_last()),
        }
    }
}

/// The integers among the elements of an array; none for any other value.
pub open spec fn ints_of(v: Option<JsonView>) -> Seq<i64> {
    ints_among(crate::json::elements(v))
}

/// The values of a list that read as integers.
pub open spec fn ints_among(a: Seq<JsonView>) -> Seq<i64>
    decreases a.len(),
{
    if a.len() == 0 {
        Seq::empty()
    } else {
        match crate::value::as_int(a.last()) {
            Some(i) => ints_among(a.drop_last()).push(i),
            None => ints_among(a.drop_last()),
        }
    }
}

/// The members that a list of references points at.
pub open spec fn members_of(v: Seq<&Members>) -> Seq<Seq<(Seq<char>, JsonView)>> {
    Seq::new(v.len(), |i: int| v[i]@)
}

/// The string member `key`.
pub fn text_field(obj: &Members, key: &str) -> (r: Option<String>)
    ensures
        opt_text(r) == text_at(obj@, key@),
{
    match obj.get(key) {
        Some(Json::String(s)) => Some(s.clone()),
        _ => None,
    }
}

/// The string member `key`, or a default.
pub fn text_or(obj: &Members, key: &str, default: &str) -> (r: String)
    ensures
        r@ == value_or(text_at(obj@, key@), default@),
{
    match text_field(obj, key) {
        Some(s) => s,
        None => default.to_owned(),
    }
}

/// The member `key` read as a flag.
pub fn flag_field(obj: &Members, key: &str) -> (r: Option<bool>)
    ensures
        r == flag_at(obj@, key@),
{
    match obj.get(key) {
        Some(v) => coerce_bool(v),
        None => None,
    }
}

/// The member `key` read as a flag, or a default.
pub fn flag_or(obj: &Members, key: &str, default: bool) -> (r: bool)
    ensures
        r == value_or(flag_at(obj@, key@), default),
{
    match flag_field(obj, key) {
        Some(b) => b,
        None => default,
    }
}

/// The member `key` read as an integer.
pub fn int_field(obj: &Members, key: &str) -> (r: Option<i64>)
    ensures
        r == int_at(obj@, key@),
{
    match obj.get(key) {
        Some(v) => coerce_i64(v),
        None => None,
    }
}

/// The member `key` read as an integer, or a default.
pub fn int_or(obj: &Members, key: &str, default: i64) -> (r: i64)
    ensures
        r == value_or(int_at(obj@, key@), default),
{
    match int_field(obj, key) {
        Some(i) => i,
        None => default,
    }
}

/// The member `key` read as an unsigned integer, or a default.
pub fn unsigned_or(obj: &Members, key: &str, default: u32) -> (r: u32)
    ensures
        r == value_or(unsigned_at(obj@, key@), default),
{
    match obj.get(key) {
        Some(v) => match coerce_u32(v) {
            Some(u) => u,
            None => default,
        },
        None => default,
    }
}

/// The member `key` read as a number, or a default.
pub fn scalar_or(obj: &Members, key: &str, default: Scalar) -> (r: Scalar)
    ensures
        r@ == value_or(scalar_at(obj@, key@), default@),
{
    match obj.get(key) {
        Some(v) => match coerce_f64(v) {
            Some(n) => n,
            None => default,
        },
        None => default,
    }
}

/// The objects among the elements of an array; none for any other value.
pub fn objects<'a>(value: Option<&'a Json>) -> (out: Vec<&'a Members>)
    ensures
        members_of(out@) == objects_of(crate::json::shown(value)),
{
    let mut out: Vec<&'a Members> = Vec::new();
    assert(members_of(out@) =~= Seq::<Seq<(Seq<char>, JsonView)>>::empty());
    match value {
        Some(Json::Array(a)) => {
            let ghost all = crate::json::views(a@);
            proof {
                crate::json::lemma_array_view(*a);
            }
            let mut i: usize = 0;
            while i < a.len()
                invariant
                    i <= a@.len(),
                    all == crate::json::views(a@),
                    members_of(out@) == objects_among(all.take(i as int)),
                decreases a@.len() - i,
            {
                let ghost was = members_of(out@);
                assert(all.take(i as int + 1).drop_last() == all.take(i as int));
                assert(all.take(i as int + 1).last() == a@[i as int]@);
                match &a[i] {
                    Json::Object(m) => {
                        proof {
                            crate::json::lemma_object_view(*m);
                        }
                        out.push(m);
                        assert(members_of(out@) =~= was.push(m@));
                    },
                    _ => {},
                }
                i = i + 1;
            }
            assert(all.take(all.len() as int) == all);
        },
        _ => {},
    }
    out
}

/// The strings among the elements of an array; none for any other value.
pub fn strings(value: Option<&Json>) -> (out: Vec<String>)
    ensures
        crate::text::texts(out@) == texts_of(crate::json::shown(value)),
{
    let mut out: Vec<String> = Vec::new();
    assert(crate::text::texts(out@) =~= Seq::<Seq<char>>::empty());
    match value {
        Some(Json::Array(a)) => {
            let ghost all = crate::json::views(a@);
            proof {
                crate::json::lemma_array_view(*a);
            }
            let mut i: usize = 0;
            while i < a.len()
                invariant
                    i <= a@.len(),
                    all == crate::json::views(a@),
                    crate::text::texts(out@) == texts_among(all.take(i as int)),
                decreases a@.len() - i,
            {
                let ghost was = crate::text::texts(out@);
                assert(all.take(i as int + 1).drop_last() == all.take(i as int));
                assert(all.take(i as int + 1).last() == a@[i as int]@);
                match &a[i] {
                    Json::String(s) => {
                        out.push(s.clone());
                        assert(crate::text::texts(out@) =~= was.push(s@));
                    },
                    _ => {},
                }
                i = i + 1;
            }
            assert(all.take(all.len() as int) == all);
        },
        _ => {},
    }
    out
}

/// The integers among the elements of an array; none for any other value.
pub fn ints(value: Option<&Json>) -> (out: Vec<i64>)
    ensures
        out@ == ints_of(crate::json::shown(value)),
{
    let mut out: Vec<i64> = Vec::new();
    match value {
        Some(Json::Array(a)) => {
            let ghost all = crate::json::views(a@);
            proof {
                crate::json::lemma_array_view(*a);
            }
            let mut i: usize = 0;
            while i < a.len()
                invariant
                    i <= a@.len(),
                    all == crate::json::views(a@),
                    out@ == ints_among(all.take(i as int)),
                decreases a@.len() - i,
            {
                assert(all.take(i as int + 1).drop_last() == all.take(i as int));
                assert(all.take(i as int + 1).last() == a@[i as int]@);
                match coerce_i64(&a[i]) {
                    Some(n) => {
                        out.push(n);
                    },
                    None => {},
                }
                i = i + 1;
            }
            assert(all.take(all.len() as int) == all);
        },
        _ => {},
    }
    out
}

} // verus!
