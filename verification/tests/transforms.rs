use loghex::{
    format_value_as_hex, transform_segment_register, transform_tdx_exit_info,
    transform_tdx_guest_state, u64_to_hex,
};

fn hex_string(n: u64) -> String {
    u64_to_hex(n).into_iter().collect()
}

#[test]
fn hex_rendering_matches_known_values() {
    assert_eq!(hex_string(0), "0");
    assert_eq!(hex_string(10), "a");
    assert_eq!(hex_string(255), "ff");
    assert_eq!(hex_string(4096), "1000");
    assert_eq!(hex_string(u64::MAX), "ffffffffffffffff");
}

#[test]
fn exit_info_rewrites_named_registers() {
    assert_eq!(
        transform_tdx_exit_info("tdx_tdg_vp_enter_exit_info rax: 10, rcx: 255, rdx: 0"),
        "tdx_tdg_vp_enter_exit_info rax: 0xa, rcx: 0xff, rdx: 0x0"
    );
    assert_eq!(transform_tdx_exit_info("rsi: 1, rdi: 2"), "rsi: 0x1, rdi: 0x2");
}

#[test]
fn exit_info_rewrites_numbered_registers() {
    assert_eq!(transform_tdx_exit_info("r8: 16, r15: 32"), "r8: 0x10, r15: 0x20");
}

#[test]
fn exit_info_leaves_unknown_registers_alone() {
    assert_eq!(transform_tdx_exit_info("rbx: 10"), "rbx: 10");
    assert_eq!(transform_tdx_exit_info("rax 10"), "rax 10");
    assert_eq!(transform_tdx_exit_info("rax: -5"), "rax: -5");
    assert_eq!(transform_tdx_exit_info("rax:10"), "rax:10");
}

#[test]
fn exit_info_unparsable_decimal_defaults_to_zero() {
    assert_eq!(
        transform_tdx_exit_info("rax: 18446744073709551616"),
        "rax: 0x0"
    );
}

#[test]
fn guest_state_rewrites_arrays_and_scalars() {
    assert_eq!(
        transform_tdx_guest_state("TdxL2EnterGuestState { regs: [1, 2, 255], rip: 16, rflags: 2 }"),
        "TdxL2EnterGuestState { regs: [0x1, 0x2, 0xff], rip: 0x10, rflags: 0x2 }"
    );
}

#[test]
fn guest_state_scalar_fields() {
    assert_eq!(
        transform_tdx_guest_state("ssp: 3, rvi: 4, svi: 5"),
        "ssp: 0x3, rvi: 0x4, svi: 0x5"
    );
}

#[test]
fn guest_state_keeps_unparsable_array_elements() {
    assert_eq!(
        transform_tdx_guest_state("[10, 20, 18446744073709551616]"),
        "[0xa, 0x14, 18446744073709551616]"
    );
}

#[test]
fn guest_state_array_edge_shapes() {
    assert_eq!(transform_tdx_guest_state("[ ]"), "[]");
    assert_eq!(transform_tdx_guest_state("[1,]"), "[0x1, ]");
    assert_eq!(transform_tdx_guest_state("[]"), "[]");
    assert_eq!(transform_tdx_guest_state("[a, 1]"), "[a, 1]");
}

#[test]
fn guest_state_scalar_overflow_defaults_to_zero() {
    assert_eq!(
        transform_tdx_guest_state("rip: 18446744073709551616"),
        "rip: 0x0"
    );
}

#[test]
fn guest_state_keeps_elements_with_inner_spaces() {
    assert_eq!(transform_tdx_guest_state("[1 2, 3]"), "[1 2, 0x3]");
}

#[test]
fn guest_state_rewrites_innermost_brackets() {
    assert_eq!(transform_tdx_guest_state("[[1]]"), "[[0x1]]");
}

#[test]
fn exit_info_leading_zeros_parse_as_decimal() {
    assert_eq!(transform_tdx_exit_info("rax: 007"), "rax: 0x7");
}

#[test]
fn exit_info_matches_leftmost_occurrence() {
    assert_eq!(transform_tdx_exit_info("rrax: 5"), "rrax: 0x5");
    assert_eq!(transform_tdx_exit_info("xrdx: 5x rsi: 6"), "xrdx: 0x5x rsi: 0x6");
}

#[test]
fn segment_register_rewrites_all_fields() {
    assert_eq!(
        transform_segment_register(
            "SegmentRegister { base: 8, limit: 1048575, selector: 16, attributes: 139 }"
        ),
        "SegmentRegister { base: 0x8, limit: 0xfffff, selector: 0x10, attributes: 0x8b }"
    );
}

#[test]
fn segment_register_leaves_other_text_alone() {
    assert_eq!(transform_segment_register("base 8, top: 9"), "base 8, top: 9");
}

fn value_of(text: &str) -> serde_json::Value {
    serde_json::from_str(text).expect("test value must parse")
}

#[test]
fn fragment_unsigned_integer_in_hex() {
    assert_eq!(format_value_as_hex("count", &value_of("255")), " count=0xff");
}

#[test]
fn fragment_negative_integer_in_twos_complement_hex() {
    assert_eq!(format_value_as_hex("n", &value_of("-1")), " n=0xffffffffffffffff");
    assert_eq!(format_value_as_hex("n", &value_of("-2")), " n=0xfffffffffffffffe");
}

#[test]
fn fragment_float_in_default_form() {
    assert_eq!(format_value_as_hex("f", &value_of("1.5")), " f=1.5");
}

#[test]
fn fragment_non_numeric_values_in_default_form() {
    assert_eq!(format_value_as_hex("s", &value_of("\"str\"")), " s=\"str\"");
    assert_eq!(format_value_as_hex("b", &value_of("true")), " b=true");
    assert_eq!(format_value_as_hex("z", &value_of("null")), " z=null");
    assert_eq!(format_value_as_hex("a", &value_of("[1,2]")), " a=[1,2]");
    assert_eq!(format_value_as_hex("o", &value_of("{\"k\":1}")), " o={\"k\":1}");
}
