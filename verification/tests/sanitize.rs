use qywx_dumper::util::ReplaceSpecial;

#[test]
fn replaces_every_special_character_with_a_dash() {
    let input = "a?b*c:d\"e<f>g\\h/i|j".to_string();
    assert_eq!(input.replace_special_char(), "a-b-c-d-e-f-g-h-i-j");
}

#[test]
fn strips_control_characters() {
    let input = "a\u{0}b\u{1}c\nd\te\u{1f}f".to_string();
    assert_eq!(input.replace_special_char(), "abcdef");
}

#[test]
fn keeps_ordinary_text_unchanged() {
    let input = "members-7-Sales & Ops.json".to_string();
    assert_eq!(input.replace_special_char(), "members-7-Sales & Ops.json");
}

#[test]
fn keeps_non_ascii_names() {
    let input = "members-3-技术部.json".to_string();
    assert_eq!(input.replace_special_char(), "members-3-技术部.json");
}

#[test]
fn empty_name_stays_empty() {
    assert_eq!("".to_string().replace_special_char(), "");
}

#[test]
fn sanitizes_slash_in_assembled_name() {
    let input = "members-2-R&D/Sec.json".to_string();
    assert_eq!(input.replace_special_char(), "members-2-R&D-Sec.json");
}
