//! Model of a decoded JSON value tree, and the trusted boundary around the
//! serde_json decoder.

use vstd::prelude::*;

verus! {

/// A decoded JSON value, as the formatting logic sees it.  Numbers follow the
/// decoder's taxonomy: `UInt` holds any integer representable as `u64`, `Int`
/// any other integer representable as `i64` (such integers are negative), and
/// `Float` the remaining numbers, carried as their decimal rendering.  Object
/// entries keep their decode order.
pub enum Json {
    Null,
    Bool(bool),
    UInt(u64),
    Int(i64),
    Float(Seq<char>),
    Str(Seq<char>),
    Arr(Seq<Json>),
    Obj(Seq<(Seq<char>, Json)>),
}

#[verifier::external_type_specification]
#[verifier::external_body]
pub struct ExValue(serde_json::Value);

/// The tree a `serde_json::Value` holds, one `Json` node per JSON value.
pub uninterp spec fn value_rep(v: serde_json::Value) -> Json;

/// What decoding a text as JSON yields: the decoded tree on success, nothing
/// on a decode error.  The result depends on the text alone.
pub uninterp spec fn json_decoded(s: Seq<char>) -> Option<Json>;

/// The compact JSON rendering of a decoded value: what displaying the value
/// writes.  It depends on the value alone.
pub uninterp spec fn json_text(j: Json) -> Seq<char>;

/// Relies on `serde_json::from_str::<Value>`: decodes the text, or fails;
/// the outcome is a function of the text.
#[verifier::external_body]
pub(crate) fn parse_json(s: &str) -> (r: Option<serde_json::Value>)
    ensures
        match r {
            Some(v) => json_decoded(s@) == Some(value_rep(v)),
            None => json_decoded(s@) is None,
        },
{
    serde_json::from_str(s).ok()
}

/// Relies on `serde_json::Value::as_str`: the borrowed string for a string
/// value, nothing otherwise.
#[verifier::external_body]
pub(crate) fn value_as_str<'a>(v: &'a serde_json::Value) -> (r: Option<&'a str>)
    ensures
        match value_rep(*v) {
            Json::Str(s) => r matches Some(t) && t@ == s,
            _ => r is None,
        },
{
    v.as_str()
}

/// Relies on `serde_json::Value::as_u64`: the value of an integer that fits
/// in `u64`, nothing otherwise.
#[verifier::external_body]
pub(crate) fn value_as_u64(v: &serde_json::Value) -> (r: Option<u64>)
    ensures
        match value_rep(*v) {
            Json::UInt(n) => r == Some(n),
            _ => r is None,
        },
{
    v.as_u64()
}

/// Relies on `serde_json::Value::as_i64`: the value of an integer that fits
/// in `i64` (a non-negative one only when it also fits in `u64`), nothing
/// otherwise.
#[verifier::external_body]
pub(crate) fn value_as_i64(v: &serde_json::Value) -> (r: Option<i64>)
    ensures
        match value_rep(*v) {
            Json::UInt(n) => r == if n <= i64::MAX as u64 {
                Some(n as i64)
            } else {
                None
            },
            Json::Int(n) => r == Some(n),
            _ => r is None,
        },
{
    v.as_i64()
}

/// Relies on `serde_json::Value::as_object` and map iteration: the entries of
/// an object value, cloned pairwise, in stored order (the decoder keeps
/// insertion order), and nothing for any other value.
#[verifier::external_body]
pub(crate) fn value_obj_entries(v: &serde_json::Value) -> (r: Option<
    Vec<(String, serde_json::Value)>,
>)
    ensures
        match value_rep(*v) {
            Json::Obj(es) => r matches Some(ps) && entries_match(ps@, es),
            _ => r is None,
        },
{
    match v.as_object() {
        Some(m) => {
            let mut out: Vec<(String, serde_json::Value)> = Vec::new();
            for (k, x) in m.iter() {
                out.push((k.clone(), x.clone()));
            }
            Some(out)
        },
        None => None,
    }
}

/// Relies on the `Display` impl of `serde_json::Value`: the compact JSON text
/// of the value.
#[verifier::external_body]
pub(crate) fn value_text(v: &serde_json::Value) -> (r: String)
    ensures
        r@ == json_text(value_rep(*v)),
{
    v.to_string()
}

/// Whether the cloned entry pairs carry exactly the modeled object entries,
/// in the same order.
pub open spec fn entries_match(ps: Seq<(String, serde_json::Value)>, es: Seq<(Seq<char>, Json)>) -> bool {
    ps.len() == es.len() && (forall|i: int|
        0 <= i < es.len() ==> ((#[trigger] ps[i]).0@ == es[i].0 && value_rep(ps[i].1) == es[i].1))
}

/// The value under the first entry named `k`, if any.
pub open spec fn obj_lookup(es: Seq<(Seq<char>, Json)>, k: Seq<char>) -> Option<Json>
    decreases es.len(),
{
    if es.len() == 0 {
        None
    } else if es[0].0 == k {
        Some(es[0].1)
    } else {
        obj_lookup(es.drop_first(), k)
    }
}

/// Looks `k` up among the entries, returning the first match, as
/// `obj_lookup` describes on the modeled entries.
pub(crate) fn entries_lookup<'a>(
    es: &'a Vec<(String, serde_json::Value)>,
    k: &str,
    Ghost(rep): Ghost<Seq<(Seq<char>, Json)>>,
) -> (r: Option<&'a serde_json::Value>)
    requires
        entries_match(es@, rep),
    ensures
        match r {
            Some(v) => obj_lookup(rep, k@) == Some(value_rep(*v)),
            None => obj_lookup(rep, k@) is None,
        },
{
    proof {
        assert(rep.skip(0) =~= rep);
    }
    let n = es.len();
    let mut i: usize = 0;
    while i < n
        invariant
            entries_match(es@, rep),
            n == es@.len(),
            0 <= i <= n,
            obj_lookup(rep, k@) == obj_lookup(rep.skip(i as int), k@),
        decreases n - i,
    {
        let pair = &es[i];
        if crate::text::str_eq(pair.0.as_str(), k) {
            proof {
                assert(rep.skip(i as int)[0] == rep[i as int]);
            }
            return Some(&pair.1);
        }
        proof {
            assert(rep.skip(i as int)[0] == rep[i as int]);
            assert(rep.skip(i as int).drop_first() =~= rep.skip(i + 1));
        }
        i += 1;
    }
    proof {
        assert(rep.skip(n as int) =~= Seq::<(Seq<char>, Json)>::empty());
    }
    None
}

} // verus!
