//! Assembling one output line from a decoded log entry: the bracketed
//! header, the primary message, and one fragment per remaining field, with
//! integer values and recognized register dumps rendered in hexadecimal.

use vstd::prelude::*;

use crate::json::{
    entries_lookup, json_decoded, json_text, obj_lookup, parse_json, value_as_i64, value_as_str,
    value_as_u64, value_obj_entries, value_rep, value_text, Json,
};
use crate::num::{hex_seq, u64_to_hex};
use crate::rewrite::{
    exit_info_rewrite, guest_state_rewrite, segment_rewrite, transform_segment_register,
    transform_tdx_exit_info, transform_tdx_guest_state,
};
use crate::text::{
    chars_of, chars_to_string, contains_chars, contains_seq, push_all, push_str_chars, str_eq,
};

verus! {

/// The string payload of a JSON value, empty for any other value.
pub open spec fn str_of(j: Json) -> Seq<char> {
    match j {
        Json::Str(s) => s,
        _ => Seq::empty(),
    }
}

/// The object entries of a JSON value, empty for any other value.
pub open spec fn obj_of(j: Json) -> Seq<(Seq<char>, Json)> {
    match j {
        Json::Obj(es) => es,
        _ => Seq::empty(),
    }
}

/// The generic ` key=value` fragment: an integer renders in `0x`-prefixed
/// hexadecimal (a negative one by the 64-bit two's-complement bit pattern),
/// and any other value by its compact JSON text.
pub open spec fn spec_fragment(key: Seq<char>, j: Json) -> Seq<char> {
    match j {
        Json::UInt(n) => seq![' '] + key + seq!['=', '0', 'x'] + hex_seq(n),
        Json::Int(n) => seq![' '] + key + seq!['=', '0', 'x'] + hex_seq(n as u64),
        _ => seq![' '] + key + seq!['='] + json_text(j),
    }
}

/// The ` key="text"` fragment a rewritten register dump renders as.
pub open spec fn spec_quoted(key: Seq<char>, body: Seq<char>) -> Seq<char> {
    seq![' '] + key + seq!['=', '"'] + body + seq!['"']
}

/// How one field renders: the key `raw_exit` with a string value carrying
/// the exit-info marker goes through the exit-info rewrite, the key `gprs`
/// with a string value carrying the guest-state marker through the
/// guest-state rewrite, any other string value carrying the segment-register
/// marker through the segment rewrite, and everything else through the
/// generic fragment.
pub open spec fn spec_dispatch(key: Seq<char>, j: Json) -> Seq<char> {
    if key == "raw_exit"@ && j is Str {
        if contains_seq(str_of(j), "tdx_tdg_vp_enter_exit_info"@) {
            spec_quoted(key, exit_info_rewrite(str_of(j)))
        } else {
            spec_fragment(key, j)
        }
    } else if key == "gprs"@ && j is Str {
        if contains_seq(str_of(j), "TdxL2EnterGuestState"@) {
            spec_quoted(key, guest_state_rewrite(str_of(j)))
        } else {
            spec_fragment(key, j)
        }
    } else if j is Str && contains_seq(str_of(j), "SegmentRegister"@) {
        spec_quoted(key, segment_rewrite(str_of(j)))
    } else {
        spec_fragment(key, j)
    }
}

/// The concatenated fragments of the entries from position `i` on, skipping
/// every entry keyed `message`.
pub open spec fn spec_rest_from(es: Seq<(Seq<char>, Json)>, i: int) -> Seq<char>
    decreases es.len() - i
    when 0 <= i <= es.len()
{
    if i >= es.len() {
        Seq::empty()
    } else {
        (if es[i].0 == "message"@ {
            Seq::<char>::empty()
        } else {
            spec_dispatch(es[i].0, es[i].1)
        }) + spec_rest_from(es, i + 1)
    }
}

/// The bracketed line header.
pub open spec fn spec_header(ts: Seq<char>, lvl: Seq<char>, tgt: Seq<char>) -> Seq<char> {
    seq!['['] + ts + seq![']', '['] + lvl + seq![']', '['] + tgt + seq![']', ' ']
}

/// The whole line for an entry: the header, then — when `fields` is an
/// object with a string `message` entry — the message followed by the
/// fragments of all other entries in stored order; otherwise the compact
/// JSON text of `fields`.
pub open spec fn spec_entry_line(ts: Seq<char>, lvl: Seq<char>, tgt: Seq<char>, fields: Json) -> Seq<
    char,
> {
    let header = spec_header(ts, lvl, tgt);
    match fields {
        Json::Obj(es) => match obj_lookup(es, "message"@) {
            Some(m) => if m is Str {
                header + str_of(m) + spec_rest_from(es, 0)
            } else {
                header + json_text(fields)
            },
            None => header + json_text(fields),
        },
        _ => header + json_text(fields),
    }
}

/// What processing one raw cell text yields: nothing for an empty cell; the
/// cell text unchanged when it does not decode to a JSON object carrying
/// string `timestamp`, `level` and `target` entries and a `fields` entry;
/// and otherwise the assembled line.
pub open spec fn spec_process(s: Seq<char>) -> Seq<char> {
    if s.len() == 0 {
        Seq::empty()
    } else {
        match json_decoded(s) {
            None => s,
            Some(j) => match j {
                Json::Obj(es) => {
                    match (
                        obj_lookup(es, "timestamp"@),
                        obj_lookup(es, "level"@),
                        obj_lookup(es, "target"@),
                        obj_lookup(es, "fields"@),
                    ) {
                        (Some(ts), Some(lvl), Some(tgt), Some(fields)) => {
                            if ts is Str && lvl is Str && tgt is Str {
                                spec_entry_line(str_of(ts), str_of(lvl), str_of(tgt), fields)
                            } else {
                                s
                            }
                        },
                        _ => s,
                    }
                },
                _ => s,
            },
        }
    }
}

/// A row is suppressed exactly when its cell is empty: processing yields an
/// empty line for the empty cell text and a nonempty line for any other.
pub proof fn lemma_row_suppressed_iff_empty(s: Seq<char>)
    ensures
        (spec_process(s).len() == 0) <==> (s.len() == 0),
{
}

/// A cell whose text does not decode as JSON comes back unchanged.
pub proof fn lemma_fallback_on_malformed(s: Seq<char>)
    requires
        s.len() > 0,
        json_decoded(s) is None,
    ensures
        spec_process(s) == s,
{
}

/// When `fields` is an object without a string `message` entry, the line is
/// the header followed by the compact JSON text of the whole object, with no
/// per-field rewriting.
pub proof fn lemma_default_without_message(ts: Seq<char>, lvl: Seq<char>, tgt: Seq<char>, fields: Json)
    requires
        fields is Obj,
        match obj_lookup(obj_of(fields), "message"@) {
            Some(m) => !(m is Str),
            None => true,
        },
    ensures
        spec_entry_line(ts, lvl, tgt, fields) == spec_header(ts, lvl, tgt) + json_text(fields),
{
}

/// A negative integer field renders as the hexadecimal form of its 64-bit
/// two's-complement bit pattern, the value shifted up by two to the
/// sixty-fourth.
pub proof fn lemma_negative_int_fragment(key: Seq<char>, n: i64)
    requires
        n < 0,
    ensures
        spec_fragment(key, Json::Int(n)) == seq![' '] + key + seq!['=', '0', 'x'] + hex_seq(
            n as u64,
        ),
        n as u64 == n + 0x10000000000000000,
{
    assert(n as u64 == (n as i128 + 0x10000000000000000) as u64) by (bit_vector)
        requires
            n < 0,
    ;
}

fn i64_bits(n: i64) -> (r: u64)
    ensures
        r == n as u64,
{
    #[verifier::truncate] (n as u64)
}

/// Renders the generic ` key=value` fragment, as `spec_fragment` describes:
/// hexadecimal for integers, compact JSON text otherwise.
pub fn format_value_as_hex(key: &str, value: &serde_json::Value) -> (r: String)
    ensures
        r@ == spec_fragment(key@, value_rep(*value)),
{
    let mut out: Vec<char> = Vec::new();
    out.push(' ');
    push_str_chars(&mut out, key);
    out.push('=');
    match value_as_u64(value) {
        Some(n) => {
            out.push('0');
            out.push('x');
            let hex = u64_to_hex(n);
            push_all(&mut out, &hex);
        },
        None => {
            match value_as_i64(value) {
                Some(n) => {
                    out.push('0');
                    out.push('x');
                    let hex = u64_to_hex(i64_bits(n));
                    push_all(&mut out, &hex);
                },
                None => {
                    let txt = value_text(value);
                    push_str_chars(&mut out, txt.as_str());
                },
            }
        },
    }
    proof {
        assert(out@ =~= spec_fragment(key@, value_rep(*value)));
    }
    chars_to_string(&out)
}

fn quoted_fragment(key: &str, body: &str) -> (r: Vec<char>)
    ensures
        r@ == spec_quoted(key@, body@),
{
    let mut out: Vec<char> = Vec::new();
    out.push(' ');
    push_str_chars(&mut out, key);
    out.push('=');
    out.push('"');
    push_str_chars(&mut out, body);
    out.push('"');
    proof {
        assert(out@ =~= spec_quoted(key@, body@));
    }
    out
}

fn dispatch_field(key: &str, value: &serde_json::Value) -> (r: Vec<char>)
    ensures
        r@ == spec_dispatch(key@, value_rep(*value)),
{
    let is_raw_exit = str_eq(key, "raw_exit");
    let is_gprs = str_eq(key, "gprs");
    let sopt = value_as_str(value);
    if is_raw_exit && sopt.is_some() {
        let s = sopt.unwrap();
        let cs = chars_of(s);
        let marker = chars_of("tdx_tdg_vp_enter_exit_info");
        if contains_chars(&cs, &marker) {
            let t = transform_tdx_exit_info(s);
            quoted_fragment(key, t.as_str())
        } else {
            chars_of(format_value_as_hex(key, value).as_str())
        }
    } else if is_gprs && sopt.is_some() {
        let s = sopt.unwrap();
        let cs = chars_of(s);
        let marker = chars_of("TdxL2EnterGuestState");
        if contains_chars(&cs, &marker) {
            let t = transform_tdx_guest_state(s);
            quoted_fragment(key, t.as_str())
        } else {
            chars_of(format_value_as_hex(key, value).as_str())
        }
    } else if sopt.is_some() {
        let s = sopt.unwrap();
        let cs = chars_of(s);
        let marker = chars_of("SegmentRegister");
        if contains_chars(&cs, &marker) {
            let t = transform_segment_register(s);
            quoted_fragment(key, t.as_str())
        } else {
            chars_of(format_value_as_hex(key, value).as_str())
        }
    } else {
        chars_of(format_value_as_hex(key, value).as_str())
    }
}

/// Processes one raw cell text, as `spec_process` describes: an empty cell
/// yields an empty string; text that does not decode to a well-shaped entry
/// comes back unchanged; a well-shaped entry yields its assembled line.
pub fn process_message(message_field: &str) -> (r: String)
    ensures
        r@ == spec_process(message_field@),
{
    if message_field.is_empty() {
        return String::new();
    }
    let json = match parse_json(message_field) {
        Some(v) => v,
        None => {
            return message_field.to_owned();
        },
    };
    let root = match value_obj_entries(&json) {
        Some(es) => es,
        None => {
            return message_field.to_owned();
        },
    };
    let ghost rep = obj_of(value_rep(json));
    let ts = match entries_lookup(&root, "timestamp", Ghost(rep)) {
        Some(v) => match value_as_str(v) {
            Some(s) => s,
            None => {
                return message_field.to_owned();
            },
        },
        None => {
            return message_field.to_owned();
        },
    };
    let lvl = match entries_lookup(&root, "level", Ghost(rep)) {
        Some(v) => match value_as_str(v) {
            Some(s) => s,
            None => {
                return message_field.to_owned();
            },
        },
        None => {
            return message_field.to_owned();
        },
    };
    let tgt = match entries_lookup(&root, "target", Ghost(rep)) {
        Some(v) => match value_as_str(v) {
            Some(s) => s,
            None => {
                return message_field.to_owned();
            },
        },
        None => {
            return message_field.to_owned();
        },
    };
    let fields_v = match entries_lookup(&root, "fields", Ghost(rep)) {
        Some(v) => v,
        None => {
            return message_field.to_owned();
        },
    };

    let mut out: Vec<char> = Vec::new();
    out.push('[');
    push_str_chars(&mut out, ts);
    out.push(']');
    out.push('[');
    push_str_chars(&mut out, lvl);
    out.push(']');
    out.push('[');
    push_str_chars(&mut out, tgt);
    out.push(']');
    out.push(' ');
    proof {
        assert(out@ =~= spec_header(ts@, lvl@, tgt@));
    }

    let fes = match value_obj_entries(fields_v) {
        Some(es) => es,
        None => {
            let txt = value_text(fields_v);
            push_str_chars(&mut out, txt.as_str());
            proof {
                assert(out@ =~= spec_process(message_field@));
            }
            return chars_to_string(&out);
        },
    };
    let ghost frep = obj_of(value_rep(*fields_v));

    let mut msg_opt: Option<&str> = None;
    match entries_lookup(&fes, "message", Ghost(frep)) {
        Some(v) => {
            msg_opt = value_as_str(v);
        },
        None => {},
    }
    let msg = match msg_opt {
        Some(m) => m,
        None => {
            let txt = value_text(fields_v);
            push_str_chars(&mut out, txt.as_str());
            proof {
                assert(out@ =~= spec_process(message_field@));
            }
            return chars_to_string(&out);
        },
    };
    push_str_chars(&mut out, msg);

    let ghost base = out@;
    let n = fes.len();
    let mut i: usize = 0;
    while i < n
        invariant
            n == fes@.len(),
            0 <= i <= n,
            crate::json::entries_match(fes@, frep),
            base + spec_rest_from(frep, 0) == out@ + spec_rest_from(frep, i as int),
        decreases n - i,
    {
        let ghost out0 = out@;
        let pair = &fes[i];
        if !str_eq(pair.0.as_str(), "message") {
            let frag = dispatch_field(pair.0.as_str(), &pair.1);
            push_all(&mut out, &frag);
            proof {
                assert(out@ =~= out0 + spec_dispatch(frep[i as int].0, frep[i as int].1));
                assert(base + spec_rest_from(frep, 0) =~= out@ + spec_rest_from(frep, i + 1));
            }
        } else {
            proof {
                assert(base + spec_rest_from(frep, 0) =~= out@ + spec_rest_from(frep, i + 1));
            }
        }
        i += 1;
    }
    proof {
        assert(out@ =~= base + spec_rest_from(frep, 0));
        assert(out@ =~= spec_process(message_field@));
    }
    chars_to_string(&out)
}

} // verus!
