//! The register-dump rewriters: each scans a text blob for a known
//! `name: decimal` pattern (and, for the guest state, bracketed integer
//! arrays) and rewrites every decimal it finds to `0x`-prefixed hexadecimal,
//! leaving all other text unchanged.

use vstd::prelude::*;

use crate::num::{hex_seq, is_digit, parse_or_zero, parse_u64, parse_u64_spec, u64_to_hex};
use crate::text::{chars_of, chars_to_string, copy_range, push_all, trim_spaces, trim_spaces_exec, word_at};

verus! {

/// Which register-dump dialect a scan rewrites: the exit-info registers, the
/// guest-state scalar fields, or the segment-register fields.
#[derive(Clone, Copy)]
pub enum Dialect {
    ExitInfo,
    GuestFields,
    Segment,
}

/// The field names a dialect recognizes, in the order they are tried.
pub open spec fn dialect_words_spec(d: Dialect) -> Seq<Seq<char>> {
    match d {
        Dialect::ExitInfo => seq!["rax"@, "rcx"@, "rdx"@, "rsi"@, "rdi"@],
        Dialect::GuestFields => seq!["rflags"@, "rip"@, "ssp"@, "rvi"@, "svi"@],
        Dialect::Segment => seq!["base"@, "limit"@, "selector"@, "attributes"@],
    }
}

fn dialect_words(d: Dialect) -> (ws: Vec<Vec<char>>)
    ensures
        ws.deep_view() == dialect_words_spec(d),
{
    let mut ws: Vec<Vec<char>> = Vec::new();
    match d {
        Dialect::ExitInfo => {
            ws.push(chars_of("rax"));
            ws.push(chars_of("rcx"));
            ws.push(chars_of("rdx"));
            ws.push(chars_of("rsi"));
            ws.push(chars_of("rdi"));
        },
        Dialect::GuestFields => {
            ws.push(chars_of("rflags"));
            ws.push(chars_of("rip"));
            ws.push(chars_of("ssp"));
            ws.push(chars_of("rvi"));
            ws.push(chars_of("svi"));
        },
        Dialect::Segment => {
            ws.push(chars_of("base"));
            ws.push(chars_of("limit"));
            ws.push(chars_of("selector"));
            ws.push(chars_of("attributes"));
        },
    }
    proof {
        assert(ws.deep_view() =~~= dialect_words_spec(d));
    }
    ws
}

/// The position right after the run of decimal digits starting at `i`.
pub open spec fn digit_run_end(s: Seq<char>, i: int) -> int
    decreases s.len() - i
    when 0 <= i <= s.len()
{
    if i < s.len() && is_digit(s[i]) {
        digit_run_end(s, i + 1)
    } else {
        i
    }
}

proof fn lemma_digit_run_end(s: Seq<char>, i: int)
    requires
        0 <= i <= s.len(),
    ensures
        i <= digit_run_end(s, i) <= s.len(),
        forall|k: int| i <= k < digit_run_end(s, i) ==> is_digit(#[trigger] s[k]),
        digit_run_end(s, i) < s.len() ==> !is_digit(s[digit_run_end(s, i)]),
        i < s.len() && is_digit(s[i]) ==> digit_run_end(s, i) > i,
    decreases s.len() - i,
{
    if i < s.len() && is_digit(s[i]) {
        lemma_digit_run_end(s, i + 1);
    }
}

fn is_digit_exec(c: char) -> (b: bool)
    ensures
        b == is_digit(c),
{
    let v: u32 = c as u32;
    48 <= v && v <= 57
}

fn digit_run_end_exec(s: &Vec<char>, i: usize) -> (r: usize)
    requires
        i <= s@.len(),
    ensures
        r as int == digit_run_end(s@, i as int),
        i <= r <= s@.len(),
{
    let n = s.len();
    let mut j = i;
    while j < n
        invariant
            n == s@.len(),
            i <= j <= n,
            digit_run_end(s@, i as int) == digit_run_end(s@, j as int),
        decreases n - j,
    {
        if !is_digit_exec(s[j]) {
            return j;
        }
        j += 1;
    }
    j
}

/// The length of the first listed word standing at position `i` of `s`, if
/// any; earlier words take precedence.
pub open spec fn list_match_len(ws: Seq<Seq<char>>, s: Seq<char>, i: int) -> Option<int>
    decreases ws.len(),
{
    if ws.len() == 0 {
        None
    } else if word_at(s, i, ws[0]) {
        Some(ws[0].len() as int)
    } else {
        list_match_len(ws.drop_first(), s, i)
    }
}

proof fn lemma_list_match_bounds(ws: Seq<Seq<char>>, s: Seq<char>, i: int)
    ensures
        list_match_len(ws, s, i) matches Some(l) ==> 0 <= i && 0 <= l && i + l <= s.len(),
    decreases ws.len(),
{
    if ws.len() > 0 && !word_at(s, i, ws[0]) {
        lemma_list_match_bounds(ws.drop_first(), s, i);
    }
}

fn word_at_exec(s: &Vec<char>, i: usize, w: &Vec<char>) -> (r: bool)
    requires
        i <= s@.len(),
    ensures
        r == word_at(s@, i as int, w@),
{
    let n = s.len();
    if n - i < w.len() {
        return false;
    }
    let mut k: usize = 0;
    while k < w.len()
        invariant
            n == s@.len(),
            i + w@.len() <= n,
            0 <= k <= w@.len(),
            forall|j: int| 0 <= j < k ==> s@[i + j] == #[trigger] w@[j],
        decreases w@.len() - k,
    {
        if s[i + k] != w[k] {
            return false;
        }
        k += 1;
    }
    true
}

fn find_word(ws: &Vec<Vec<char>>, s: &Vec<char>, i: usize) -> (r: Option<usize>)
    requires
        i <= s@.len(),
    ensures
        match r {
            Some(l) => list_match_len(ws.deep_view(), s@, i as int) == Some(l as int),
            None => list_match_len(ws.deep_view(), s@, i as int) is None,
        },
{
    proof {
        assert(ws.deep_view().skip(0) =~= ws.deep_view());
    }
    let n = ws.len();
    let mut k: usize = 0;
    while k < n
        invariant
            n == ws@.len(),
            0 <= k <= n,
            i <= s@.len(),
            list_match_len(ws.deep_view(), s@, i as int) == list_match_len(
                ws.deep_view().skip(k as int),
                s@,
                i as int,
            ),
        decreases n - k,
    {
        proof {
            assert(ws.deep_view().skip(k as int)[0] == ws.deep_view()[k as int]);
            assert(ws.deep_view().skip(k as int).drop_first() =~= ws.deep_view().skip(k + 1));
            assert(ws@[k as int].deep_view() =~= ws@[k as int]@);
        }
        if word_at_exec(s, i, &ws[k]) {
            return Some(ws[k].len());
        }
        k += 1;
    }
    proof {
        assert(ws.deep_view().skip(n as int) =~= Seq::<Seq<char>>::empty());
    }
    None
}

/// The length of the register or field name standing at position `i`, if
/// any: one of the dialect's listed names, or, for the exit-info dialect,
/// `r` followed by a maximal nonempty run of digits.
pub open spec fn name_match_len(d: Dialect, s: Seq<char>, i: int) -> Option<int> {
    match list_match_len(dialect_words_spec(d), s, i) {
        Some(l) => Some(l),
        None => {
            if d is ExitInfo && 0 <= i && i + 1 < s.len() && s[i] == 'r' && is_digit(s[i + 1]) {
                Some(digit_run_end(s, i + 1) - i)
            } else {
                None
            }
        },
    }
}

proof fn lemma_name_match_bounds(d: Dialect, s: Seq<char>, i: int)
    ensures
        name_match_len(d, s, i) matches Some(l) ==> 0 <= i && 0 <= l && i + l <= s.len(),
{
    lemma_list_match_bounds(dialect_words_spec(d), s, i);
    if list_match_len(dialect_words_spec(d), s, i) is None && 0 <= i && i + 1 < s.len() {
        lemma_digit_run_end(s, i + 1);
    }
}

fn match_name(d: Dialect, s: &Vec<char>, i: usize, ws: &Vec<Vec<char>>) -> (r: Option<usize>)
    requires
        i <= s@.len(),
        ws.deep_view() == dialect_words_spec(d),
    ensures
        match r {
            Some(l) => name_match_len(d, s@, i as int) == Some(l as int) && i + l <= s@.len(),
            None => name_match_len(d, s@, i as int) is None,
        },
{
    proof {
        lemma_name_match_bounds(d, s@, i as int);
        lemma_list_match_bounds(dialect_words_spec(d), s@, i as int);
    }
    if let Some(l) = find_word(ws, s, i) {
        return Some(l);
    }
    match d {
        Dialect::ExitInfo => {
            if i < s.len() && s.len() - i > 1 && s[i] == 'r' && is_digit_exec(s[i + 1]) {
                proof {
                    lemma_digit_run_end(s@, i + 1);
                }
                let e = digit_run_end_exec(s, i + 1);
                Some(e - i)
            } else {
                None
            }
        },
        _ => None,
    }
}

/// A full `name: decimal` occurrence at position `i`: the positions right
/// after the name, of the first digit, and right after the maximal digit
/// run.
pub open spec fn field_match(d: Dialect, s: Seq<char>, i: int) -> Option<(int, int, int)> {
    match name_match_len(d, s, i) {
        Some(l) => {
            let ne = i + l;
            if ne + 2 < s.len() && s[ne] == ':' && s[ne + 1] == ' ' && is_digit(s[ne + 2]) {
                Some((ne, ne + 2, digit_run_end(s, ne + 2)))
            } else {
                None
            }
        },
        None => None,
    }
}

proof fn lemma_field_match_bounds(d: Dialect, s: Seq<char>, i: int)
    ensures
        field_match(d, s, i) matches Some(m) ==> 0 <= i <= m.0 && m.1 == m.0 + 2 && i < m.2 <= s.len()
            && m.1 <= m.2,
{
    lemma_name_match_bounds(d, s, i);
    match name_match_len(d, s, i) {
        Some(l) => {
            let ne = i + l;
            if ne + 2 < s.len() && s[ne] == ':' && s[ne + 1] == ' ' && is_digit(s[ne + 2]) {
                lemma_digit_run_end(s, ne + 2);
            }
        },
        None => {},
    }
}

fn match_field(d: Dialect, s: &Vec<char>, i: usize, ws: &Vec<Vec<char>>) -> (r: Option<
    (usize, usize, usize),
>)
    requires
        i <= s@.len(),
        ws.deep_view() == dialect_words_spec(d),
    ensures
        match r {
            Some(m) => field_match(d, s@, i as int) == Some(
                (m.0 as int, m.1 as int, m.2 as int),
            ),
            None => field_match(d, s@, i as int) is None,
        },
{
    let n = s.len();
    let lopt = match_name(d, s, i, ws);
    if lopt.is_none() {
        return None;
    }
    let l = lopt.unwrap();
    let ne = i + l;
    if ne < n && n - ne > 2 && s[ne] == ':' && s[ne + 1] == ' ' && is_digit_exec(s[ne + 2]) {
        let de = digit_run_end_exec(s, ne + 2);
        Some((ne, ne + 2, de))
    } else {
        None
    }
}

/// The dialect's `name: decimal` rewrite of the suffix of `s` that starts at
/// position `i`: every occurrence of a recognized name, a colon and a space,
/// and a decimal run is replaced by the same name, colon and space, and the
/// run's value in `0x`-prefixed hexadecimal (an unparsable run counts as
/// zero); everything else is kept.  Matches are found leftmost-first and do
/// not overlap.
pub open spec fn rewrite_from(d: Dialect, s: Seq<char>, i: int) -> Seq<char>
    decreases s.len() - i
    when 0 <= i <= s.len()
    via rewrite_from_decreases
{
    if i >= s.len() {
        Seq::empty()
    } else {
        match field_match(d, s, i) {
            Some(m) => s.subrange(i, m.0) + seq![':', ' ', '0', 'x'] + hex_seq(
                parse_or_zero(s.subrange(m.1, m.2)),
            ) + rewrite_from(d, s, m.2),
            None => seq![s[i]] + rewrite_from(d, s, i + 1),
        }
    }
}

#[via_fn]
proof fn rewrite_from_decreases(d: Dialect, s: Seq<char>, i: int) {
    lemma_field_match_bounds(d, s, i);
}

/// Rewrites `s` as `rewrite_from` describes, over the whole text.
fn rewrite_fields(d: Dialect, s: &Vec<char>) -> (out: Vec<char>)
    ensures
        out@ == rewrite_from(d, s@, 0),
{
    let ws = dialect_words(d);
    let n = s.len();
    let mut out: Vec<char> = Vec::new();
    let mut i: usize = 0;
    while i < n
        invariant
            n == s@.len(),
            0 <= i <= n,
            ws.deep_view() == dialect_words_spec(d),
            rewrite_from(d, s@, 0) == out@ + rewrite_from(d, s@, i as int),
        decreases n - i,
    {
        let ghost out0 = out@;
        match match_field(d, s, i, &ws) {
            Some((ne, ds, de)) => {
                proof {
                    lemma_field_match_bounds(d, s@, i as int);
                }
                let name = copy_range(s, i, ne);
                push_all(&mut out, &name);
                out.push(':');
                out.push(' ');
                out.push('0');
                out.push('x');
                let digits = copy_range(s, ds, de);
                let v = match parse_u64(&digits) {
                    Some(v) => v,
                    None => 0,
                };
                let hex = u64_to_hex(v);
                push_all(&mut out, &hex);
                proof {
                    assert(v == parse_or_zero(s@.subrange(ds as int, de as int)));
                    assert(out@ =~= out0 + (s@.subrange(i as int, ne as int) + seq![
                        ':',
                        ' ',
                        '0',
                        'x',
                    ] + hex_seq(parse_or_zero(s@.subrange(ds as int, de as int)))));
                    assert(rewrite_from(d, s@, 0) =~= out@ + rewrite_from(d, s@, de as int));
                }
                i = de;
            },
            None => {
                out.push(s[i]);
                proof {
                    assert(out@ =~= out0 + seq![s@[i as int]]);
                    assert(rewrite_from(d, s@, 0) =~= out@ + rewrite_from(d, s@, i + 1));
                }
                i += 1;
            },
        }
    }
    proof {
        assert(rewrite_from(d, s@, 0) =~= out@);
    }
    out
}

/// Whether `c` may stand inside a bracketed integer array: a digit, a comma,
/// or a space.
pub open spec fn arr_class(c: char) -> bool {
    is_digit(c) || c == ',' || c == ' '
}

/// The position right after the run of array-class characters starting at
/// `i`.
pub open spec fn arr_run_end(s: Seq<char>, i: int) -> int
    decreases s.len() - i
    when 0 <= i <= s.len()
{
    if i < s.len() && arr_class(s[i]) {
        arr_run_end(s, i + 1)
    } else {
        i
    }
}

proof fn lemma_arr_run_end(s: Seq<char>, i: int)
    requires
        0 <= i <= s.len(),
    ensures
        i <= arr_run_end(s, i) <= s.len(),
    decreases s.len() - i,
{
    if i < s.len() && arr_class(s[i]) {
        lemma_arr_run_end(s, i + 1);
    }
}

fn arr_class_exec(c: char) -> (b: bool)
    ensures
        b == arr_class(c),
{
    let v: u32 = c as u32;
    (48 <= v && v <= 57) || c == ',' || c == ' '
}

fn arr_run_end_exec(s: &Vec<char>, i: usize) -> (r: usize)
    requires
        i <= s@.len(),
    ensures
        r as int == arr_run_end(s@, i as int),
        i <= r <= s@.len(),
{
    let n = s.len();
    let mut j = i;
    while j < n
        invariant
            n == s@.len(),
            i <= j <= n,
            arr_run_end(s@, i as int) == arr_run_end(s@, j as int),
        decreases n - j,
    {
        if !arr_class_exec(s[j]) {
            return j;
        }
        j += 1;
    }
    j
}

/// The position of the first comma at or after `i`, or the length of `s`.
pub open spec fn comma_end(s: Seq<char>, i: int) -> int
    decreases s.len() - i
    when 0 <= i <= s.len()
{
    if i < s.len() && s[i] != ',' {
        comma_end(s, i + 1)
    } else {
        i
    }
}

proof fn lemma_comma_end(s: Seq<char>, i: int)
    requires
        0 <= i <= s.len(),
    ensures
        i <= comma_end(s, i) <= s.len(),
    decreases s.len() - i,
{
    if i < s.len() && s[i] != ',' {
        lemma_comma_end(s, i + 1);
    }
}

fn comma_end_exec(s: &Vec<char>, i: usize) -> (r: usize)
    requires
        i <= s@.len(),
    ensures
        r as int == comma_end(s@, i as int),
        i <= r <= s@.len(),
{
    let n = s.len();
    let mut j = i;
    while j < n
        invariant
            n == s@.len(),
            i <= j <= n,
            comma_end(s@, i as int) == comma_end(s@, j as int),
        decreases n - j,
    {
        if s[j] == ',' {
            return j;
        }
        j += 1;
    }
    j
}

/// How one comma-separated array element is rendered: trimmed of spaces, and
/// replaced by its value in `0x`-prefixed hexadecimal when the trimmed text
/// parses as an unsigned 64-bit integer, kept as the trimmed text otherwise.
pub open spec fn render_piece(p: Seq<char>) -> Seq<char> {
    let t = trim_spaces(p);
    match parse_u64_spec(t) {
        Some(v) => seq!['0', 'x'] + hex_seq(v),
        None => t,
    }
}

/// The rendering of the comma-separated elements of `s` from position `i`
/// on, joined by a comma and a space.
pub open spec fn arr_body_out(s: Seq<char>, i: int) -> Seq<char>
    decreases s.len() - i
    when 0 <= i <= s.len()
    via arr_body_out_decreases
{
    let j = comma_end(s, i);
    if j >= s.len() {
        render_piece(s.subrange(i, s.len() as int))
    } else {
        render_piece(s.subrange(i, j)) + seq![',', ' '] + arr_body_out(s, j + 1)
    }
}

#[via_fn]
proof fn arr_body_out_decreases(s: Seq<char>, i: int) {
    if 0 <= i <= s.len() {
        lemma_comma_end(s, i);
    }
}

fn render_array_body(c: &Vec<char>) -> (out: Vec<char>)
    ensures
        out@ == arr_body_out(c@, 0),
{
    let n = c.len();
    let mut out: Vec<char> = Vec::new();
    let mut i: usize = 0;
    loop
        invariant
            n == c@.len(),
            0 <= i <= n,
            arr_body_out(c@, 0) == out@ + arr_body_out(c@, i as int),
        decreases n - i,
    {
        let ghost out0 = out@;
        let j = comma_end_exec(c, i);
        let piece = copy_range(c, i, j);
        let t = trim_spaces_exec(&piece);
        match parse_u64(&t) {
            Some(v) => {
                out.push('0');
                out.push('x');
                let hex = u64_to_hex(v);
                push_all(&mut out, &hex);
                proof {
                    assert(out@ =~= out0 + render_piece(c@.subrange(i as int, j as int)));
                }
            },
            None => {
                push_all(&mut out, &t);
                proof {
                    assert(out@ =~= out0 + render_piece(c@.subrange(i as int, j as int)));
                }
            },
        }
        if j >= n {
            proof {
                assert(c@.subrange(i as int, j as int) == c@.subrange(i as int, n as int));
                assert(arr_body_out(c@, 0) =~= out@);
            }
            return out;
        }
        let ghost out1 = out@;
        out.push(',');
        out.push(' ');
        proof {
            assert(out@ =~= out1 + seq![',', ' ']);
            assert(arr_body_out(c@, 0) =~= out@ + arr_body_out(c@, j + 1));
        }
        i = j + 1;
    }
}

/// A bracketed integer array standing at position `i`: an opening bracket, a
/// nonempty run of digits, commas and spaces, and a closing bracket.  The
/// result is the position right after the closing bracket.
pub open spec fn arr_match_end(s: Seq<char>, i: int) -> Option<int> {
    if 0 <= i < s.len() && s[i] == '[' {
        let e = arr_run_end(s, i + 1);
        if e > i + 1 && e < s.len() && s[e] == ']' {
            Some(e + 1)
        } else {
            None
        }
    } else {
        None
    }
}

proof fn lemma_arr_match_bounds(s: Seq<char>, i: int)
    requires
        0 <= i <= s.len(),
    ensures
        arr_match_end(s, i) matches Some(e) ==> i + 2 < e <= s.len(),
{
    if i < s.len() {
        lemma_arr_run_end(s, i + 1);
    }
}

/// The array rewrite of the suffix of `s` that starts at position `i`: every
/// bracketed run of digits, commas and spaces is re-rendered element by
/// element as `render_piece` describes; everything else is kept.  Matches
/// are found leftmost-first and do not overlap.
pub open spec fn arr_rewrite_from(s: Seq<char>, i: int) -> Seq<char>
    decreases s.len() - i
    when 0 <= i <= s.len()
    via arr_rewrite_from_decreases
{
    if i >= s.len() {
        Seq::empty()
    } else {
        match arr_match_end(s, i) {
            Some(e) => seq!['['] + arr_body_out(s.subrange(i + 1, e - 1), 0) + seq![']']
                + arr_rewrite_from(s, e),
            None => seq![s[i]] + arr_rewrite_from(s, i + 1),
        }
    }
}

#[via_fn]
proof fn arr_rewrite_from_decreases(s: Seq<char>, i: int) {
    if 0 <= i <= s.len() {
        lemma_arr_match_bounds(s, i);
    }
}

/// Rewrites the bracketed integer arrays of `s`, as `arr_rewrite_from`
/// describes over the whole text.
fn rewrite_arrays(s: &Vec<char>) -> (out: Vec<char>)
    ensures
        out@ == arr_rewrite_from(s@, 0),
{
    let n = s.len();
    let mut out: Vec<char> = Vec::new();
    let mut i: usize = 0;
    while i < n
        invariant
            n == s@.len(),
            0 <= i <= n,
            arr_rewrite_from(s@, 0) == out@ + arr_rewrite_from(s@, i as int),
        decreases n - i,
    {
        let ghost out0 = out@;
        let mut matched: Option<usize> = None;
        if s[i] == '[' {
            let e = arr_run_end_exec(s, i + 1);
            if e > i + 1 && e < n && s[e] == ']' {
                matched = Some(e + 1);
            }
        }
        proof {
            match matched {
                Some(end) => {
                    assert(arr_match_end(s@, i as int) == Some(end as int));
                },
                None => {
                    assert(arr_match_end(s@, i as int) is None);
                },
            }
        }
        match matched {
            Some(end) => {
                let content = copy_range(s, i + 1, end - 1);
                let body = render_array_body(&content);
                out.push('[');
                push_all(&mut out, &body);
                out.push(']');
                proof {
                    assert(out@ =~= out0 + (seq!['['] + arr_body_out(
                        s@.subrange(i + 1, end - 1),
                        0,
                    ) + seq![']']));
                    assert(arr_rewrite_from(s@, 0) =~= out@ + arr_rewrite_from(s@, end as int));
                }
                i = end;
            },
            None => {
                out.push(s[i]);
                proof {
                    assert(out@ =~= out0 + seq![s@[i as int]]);
                    assert(arr_rewrite_from(s@, 0) =~= out@ + arr_rewrite_from(s@, i + 1));
                }
                i += 1;
            },
        }
    }
    proof {
        assert(arr_rewrite_from(s@, 0) =~= out@);
    }
    out
}

/// The exit-info rewrite of a whole text blob.
pub open spec fn exit_info_rewrite(s: Seq<char>) -> Seq<char> {
    rewrite_from(Dialect::ExitInfo, s, 0)
}

/// The guest-state rewrite of a whole text blob: first the bracketed integer
/// arrays, then, over that result, the scalar guest-state fields.
pub open spec fn guest_state_rewrite(s: Seq<char>) -> Seq<char> {
    rewrite_from(Dialect::GuestFields, arr_rewrite_from(s, 0), 0)
}

/// The segment-register rewrite of a whole text blob.
pub open spec fn segment_rewrite(s: Seq<char>) -> Seq<char> {
    rewrite_from(Dialect::Segment, s, 0)
}

/// Rewrites `name: decimal` occurrences for the exit-info registers (`rax`,
/// `rcx`, `rdx`, `rsi`, `rdi`, or `r` followed by digits) to hexadecimal.
pub fn transform_tdx_exit_info(text: &str) -> (r: String)
    ensures
        r@ == exit_info_rewrite(text@),
{
    let cs = chars_of(text);
    let rewritten = rewrite_fields(Dialect::ExitInfo, &cs);
    chars_to_string(&rewritten)
}

/// Rewrites a guest-state blob to hexadecimal: every element of each
/// bracketed integer array (an unparsable element stays as its trimmed
/// text), then the scalar fields `rflags`, `rip`, `ssp`, `rvi` and `svi`.
pub fn transform_tdx_guest_state(text: &str) -> (r: String)
    ensures
        r@ == guest_state_rewrite(text@),
{
    let cs = chars_of(text);
    let pass1 = rewrite_arrays(&cs);
    let pass2 = rewrite_fields(Dialect::GuestFields, &pass1);
    chars_to_string(&pass2)
}

/// Rewrites `name: decimal` occurrences for the segment-register fields
/// (`base`, `limit`, `selector`, `attributes`) to hexadecimal.
pub fn transform_segment_register(text: &str) -> (r: String)
    ensures
        r@ == segment_rewrite(text@),
{
    let cs = chars_of(text);
    let rewritten = rewrite_fields(Dialect::Segment, &cs);
    chars_to_string(&rewritten)
}

} // verus!
