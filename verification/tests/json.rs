use ify_controller::json::uuid_to_string;

#[test]
fn uuid_text_is_hyphenated_lower_case_hex() {
    assert_eq!(uuid_to_string(0x0123456789abcdef0123456789ABCDEF), "01234567-89ab-cdef-0123-456789abcdef");
    assert_eq!(uuid_to_string(0), "00000000-0000-0000-0000-000000000000");
}
