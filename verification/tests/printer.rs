use qywx_dumper::data::{TagMember, TagMembersResp};
use qywx_dumper::json::{json_to_string_pretty, Json};
use qywx_dumper::sink::render_tag_members_resp;
use qywx_dumper::text::{i64_to_string, u32_to_string, u64_to_string};

#[test]
fn prints_scalars() {
    assert_eq!(json_to_string_pretty(&Json::Null), "null");
    assert_eq!(json_to_string_pretty(&Json::Bool(true)), "true");
    assert_eq!(json_to_string_pretty(&Json::Bool(false)), "false");
    assert_eq!(json_to_string_pretty(&Json::UInt(42)), "42");
    assert_eq!(json_to_string_pretty(&Json::Int(-7)), "-7");
    assert_eq!(json_to_string_pretty(&Json::Str("hi".to_string())), "\"hi\"");
}

#[test]
fn prints_empty_containers_bare() {
    assert_eq!(json_to_string_pretty(&Json::Arr(vec![])), "[]");
    assert_eq!(json_to_string_pretty(&Json::Obj(vec![])), "{}");
}

#[test]
fn escapes_quotes_backslashes_and_controls() {
    let s = Json::Str("a\"b\\c\nd".to_string());
    assert_eq!(json_to_string_pretty(&s), "\"a\\\"b\\\\c\\u000ad\"");
}

#[test]
fn pretty_prints_nested_values_with_two_space_indent() {
    let tree = Json::Obj(vec![
        ("a".to_string(), Json::UInt(1)),
        ("b".to_string(), Json::Arr(vec![Json::UInt(1), Json::UInt(2)])),
    ]);
    let expected = "{\n  \"a\": 1,\n  \"b\": [\n    1,\n    2\n  ]\n}";
    assert_eq!(json_to_string_pretty(&tree), expected);
}

#[test]
fn printed_text_is_valid_json_for_a_real_parser() {
    let tree = Json::Obj(vec![
        ("name".to_string(), Json::Str("R&D/Sec\n".to_string())),
        ("id".to_string(), Json::UInt(2)),
        ("parent".to_string(), Json::Null),
        ("flags".to_string(), Json::Arr(vec![Json::Bool(true), Json::Int(-1)])),
    ]);
    let text = json_to_string_pretty(&tree);
    let v: serde_json::Value = serde_json::from_str(&text).unwrap();
    assert_eq!(v["name"], serde_json::Value::String("R&D/Sec\n".to_string()));
    assert_eq!(v["id"], serde_json::Value::from(2u64));
    assert_eq!(v["parent"], serde_json::Value::Null);
    assert_eq!(v["flags"][1], serde_json::Value::from(-1i64));
}

#[test]
fn renders_decimal_numbers_exactly() {
    assert_eq!(u64_to_string(0), "0");
    assert_eq!(u64_to_string(10), "10");
    assert_eq!(u64_to_string(u64::MAX), "18446744073709551615");
    assert_eq!(u32_to_string(4294967295), "4294967295");
    assert_eq!(i64_to_string(0), "0");
    assert_eq!(i64_to_string(-1), "-1");
    assert_eq!(i64_to_string(i64::MIN), "-9223372036854775808");
    assert_eq!(i64_to_string(i64::MAX), "9223372036854775807");
}

#[test]
fn renders_a_tag_members_file_exactly() {
    let resp = TagMembersResp {
        code: Some(0),
        msg: Some("ok".to_string()),
        members: vec![TagMember { id: "u1".to_string(), name: "A".to_string() }],
        department_list: vec![],
        tag_name: "ops".to_string(),
    };
    let expected = "{\n  \"errcode\": 0,\n  \"errmsg\": \"ok\",\n  \"userlist\": [\n    {\n      \"userid\": \"u1\",\n      \"name\": \"A\"\n    }\n  ],\n  \"partylist\": [],\n  \"tagname\": \"ops\"\n}";
    assert_eq!(render_tag_members_resp(&resp), expected);
}
