use loghex::process_message;

#[test]
fn empty_cell_is_suppressed() {
    assert_eq!(process_message(""), "");
}

#[test]
fn malformed_json_comes_back_unchanged() {
    assert_eq!(process_message("not json"), "not json");
    assert_eq!(process_message("{\"truncated\":"), "{\"truncated\":");
}

#[test]
fn missing_required_key_comes_back_unchanged() {
    let raw = "{\"timestamp\":\"T\",\"level\":\"INFO\",\"fields\":{}}";
    assert_eq!(process_message(raw), raw);
}

#[test]
fn mistyped_required_key_comes_back_unchanged() {
    let raw = "{\"timestamp\":7,\"level\":\"INFO\",\"target\":\"mod\",\"fields\":{}}";
    assert_eq!(process_message(raw), raw);
}

#[test]
fn non_object_root_comes_back_unchanged() {
    assert_eq!(process_message("[1,2,3]"), "[1,2,3]");
    assert_eq!(process_message("42"), "42");
}

#[test]
fn message_and_integer_field() {
    let raw = "{\"timestamp\":\"T\",\"level\":\"INFO\",\"target\":\"mod\",\
               \"fields\":{\"message\":\"hi\",\"count\":255}}";
    assert_eq!(process_message(raw), "[T][INFO][mod] hi count=0xff");
}

#[test]
fn key_order_of_entry_is_irrelevant() {
    let raw = "{\"level\":\"INFO\",\"fields\":{\"message\":\"hi\",\"count\":255},\
               \"timestamp\":\"T\",\"target\":\"mod\"}";
    assert_eq!(process_message(raw), "[T][INFO][mod] hi count=0xff");
}

#[test]
fn field_order_is_preserved() {
    let raw = "{\"timestamp\":\"T\",\"level\":\"INFO\",\"target\":\"mod\",\
               \"fields\":{\"message\":\"m\",\"b\":1,\"a\":2}}";
    assert_eq!(process_message(raw), "[T][INFO][mod] m b=0x1 a=0x2");
}

#[test]
fn negative_integer_renders_as_twos_complement() {
    let raw = "{\"timestamp\":\"T\",\"level\":\"INFO\",\"target\":\"mod\",\
               \"fields\":{\"message\":\"hi\",\"delta\":-1}}";
    assert_eq!(process_message(raw), "[T][INFO][mod] hi delta=0xffffffffffffffff");
}

#[test]
fn large_unsigned_integer_renders_in_hex() {
    let raw = "{\"timestamp\":\"T\",\"level\":\"INFO\",\"target\":\"mod\",\
               \"fields\":{\"message\":\"hi\",\"big\":18446744073709551615}}";
    assert_eq!(process_message(raw), "[T][INFO][mod] hi big=0xffffffffffffffff");
}

#[test]
fn non_numeric_fields_render_in_default_form() {
    let raw = "{\"timestamp\":\"T\",\"level\":\"INFO\",\"target\":\"mod\",\
               \"fields\":{\"message\":\"hi\",\"note\":\"plain\",\"flag\":true,\"z\":null,\
               \"a\":[1,2],\"o\":{\"k\":1},\"f\":1.5}}";
    assert_eq!(
        process_message(raw),
        "[T][INFO][mod] hi note=\"plain\" flag=true z=null a=[1,2] o={\"k\":1} f=1.5"
    );
}

#[test]
fn missing_message_yields_default_rendering() {
    let raw = "{\"timestamp\":\"T\",\"level\":\"INFO\",\"target\":\"mod\",\
               \"fields\":{\"count\":255,\"name\":\"n\"}}";
    assert_eq!(process_message(raw), "[T][INFO][mod] {\"count\":255,\"name\":\"n\"}");
}

#[test]
fn mistyped_message_yields_default_rendering() {
    let raw = "{\"timestamp\":\"T\",\"level\":\"INFO\",\"target\":\"mod\",\
               \"fields\":{\"message\":5,\"a\":1}}";
    assert_eq!(process_message(raw), "[T][INFO][mod] {\"message\":5,\"a\":1}");
}

#[test]
fn non_object_fields_yields_default_rendering() {
    let raw = "{\"timestamp\":\"T\",\"level\":\"INFO\",\"target\":\"mod\",\"fields\":5}";
    assert_eq!(process_message(raw), "[T][INFO][mod] 5");
    let raw2 = "{\"timestamp\":\"T\",\"level\":\"INFO\",\"target\":\"mod\",\"fields\":\"plain\"}";
    assert_eq!(process_message(raw2), "[T][INFO][mod] \"plain\"");
}

#[test]
fn raw_exit_field_is_rewritten() {
    let raw = "{\"timestamp\":\"T\",\"level\":\"INFO\",\"target\":\"mod\",\
               \"fields\":{\"message\":\"x\",\"raw_exit\":\
               \"tdx_tdg_vp_enter_exit_info rax: 10, rcx: 255\"}}";
    assert_eq!(
        process_message(raw),
        "[T][INFO][mod] x raw_exit=\"tdx_tdg_vp_enter_exit_info rax: 0xa, rcx: 0xff\""
    );
}

#[test]
fn gprs_field_is_rewritten() {
    let raw = "{\"timestamp\":\"T\",\"level\":\"INFO\",\"target\":\"mod\",\
               \"fields\":{\"message\":\"x\",\"gprs\":\
               \"TdxL2EnterGuestState regs=[10, 20, 30] rip: 16\"}}";
    assert_eq!(
        process_message(raw),
        "[T][INFO][mod] x gprs=\"TdxL2EnterGuestState regs=[0xa, 0x14, 0x1e] rip: 0x10\""
    );
}

#[test]
fn segment_register_marker_is_rewritten_under_any_key() {
    let raw = "{\"timestamp\":\"T\",\"level\":\"INFO\",\"target\":\"mod\",\
               \"fields\":{\"message\":\"x\",\"cs\":\"SegmentRegister base: 8\"}}";
    assert_eq!(process_message(raw), "[T][INFO][mod] x cs=\"SegmentRegister base: 0x8\"");
}

#[test]
fn raw_exit_without_marker_is_not_rewritten() {
    let raw = "{\"timestamp\":\"T\",\"level\":\"INFO\",\"target\":\"mod\",\
               \"fields\":{\"message\":\"x\",\"raw_exit\":\"rax: 10\"}}";
    assert_eq!(process_message(raw), "[T][INFO][mod] x raw_exit=\"rax: 10\"");
}

#[test]
fn raw_exit_with_segment_marker_only_stays_default() {
    let raw = "{\"timestamp\":\"T\",\"level\":\"INFO\",\"target\":\"mod\",\
               \"fields\":{\"message\":\"x\",\"raw_exit\":\"SegmentRegister base: 8\"}}";
    assert_eq!(process_message(raw), "[T][INFO][mod] x raw_exit=\"SegmentRegister base: 8\"");
}

#[test]
fn exit_marker_under_other_key_stays_default() {
    let raw = "{\"timestamp\":\"T\",\"level\":\"INFO\",\"target\":\"mod\",\
               \"fields\":{\"message\":\"x\",\"other\":\"tdx_tdg_vp_enter_exit_info rax: 10\"}}";
    assert_eq!(
        process_message(raw),
        "[T][INFO][mod] x other=\"tdx_tdg_vp_enter_exit_info rax: 10\""
    );
}

#[test]
fn message_text_is_taken_verbatim() {
    let raw = "{\"timestamp\":\"T\",\"level\":\"INFO\",\"target\":\"mod\",\
               \"fields\":{\"message\":\"a\\\"b\"}}";
    assert_eq!(process_message(raw), "[T][INFO][mod] a\"b");
}
