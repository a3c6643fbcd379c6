use qywx_dumper::codec::{decode_agent_basic, decode_agent_list_resp, decode_department,
    decode_department_member, decode_department_members_resp, decode_department_resp,
    decode_get_token_resp, decode_tag, decode_tag_member, decode_tag_members_resp,
    decode_tags_resp, encode_agent_basic, encode_agent_list_resp, encode_department,
    encode_department_member, encode_department_members_resp, encode_department_resp,
    encode_get_token_resp, encode_tag, encode_tag_member, encode_tag_members_resp,
    encode_tags_resp};
use qywx_dumper::data::{AgentBasic, AgentListResp, Department, DepartmentMember,
    DepartmentMembersResp, DepartmentResp, GetTokenResp, Tag, TagMember, TagMembersResp,
    TagsResp};
use qywx_dumper::codec::{decode_agent_detail, decode_allow_parties, decode_allow_tags,
    decode_allow_userinfos, decode_user, encode_agent_detail, encode_allow_parties,
    encode_allow_tags, encode_allow_userinfos, encode_user};
use qywx_dumper::data::{AgentDetail, AllowParties, AllowTags, AllowUserInfos, User};
use qywx_dumper::json::Json;

fn sample_member() -> DepartmentMember {
    DepartmentMember {
        name: "Alice".to_string(),
        department: vec![1, 2],
        position: "Engineer".to_string(),
        mobile: "123".to_string(),
        gender: "1".to_string(),
        email: "a@example.com".to_string(),
        avatar: "http://avatar".to_string(),
        is_leader: 0,
        status: 1,
        enable: 1,
        hide_mobile: 0,
        english_name: "Alice".to_string(),
        telephone: "".to_string(),
        order: vec![10, 20],
        main_department: Some(1),
        qr_code: "http://qr".to_string(),
        alias: "al".to_string(),
        is_leader_in_dept: vec![0, 0],
        thumb_avatar: "http://thumb".to_string(),
        biz_mail: None,
        user_id: "alice".to_string(),
        extattr: vec![("badge".to_string(), Json::Str("blue".to_string()))],
    }
}

#[test]
fn token_resp_roundtrip_keeps_every_field() {
    let x = GetTokenResp {
        code: Some(0),
        msg: Some("ok".to_string()),
        access_token: Some("tok".to_string()),
        expires_in: Some(7200),
    };
    let y = decode_get_token_resp(&encode_get_token_resp(&x)).unwrap();
    assert_eq!(y, x);
}

#[test]
fn token_resp_roundtrip_keeps_absent_fields_absent() {
    let x = GetTokenResp { code: Some(40001), msg: None, access_token: None, expires_in: None };
    let y = decode_get_token_resp(&encode_get_token_resp(&x)).unwrap();
    assert_eq!(y, x);
}

#[test]
fn tag_roundtrip() {
    let x = Tag { id: 42, name: "ops".to_string() };
    assert_eq!(decode_tag(&encode_tag(&x)).unwrap(), x);
}

#[test]
fn tag_member_roundtrip() {
    let x = TagMember { id: "u7".to_string(), name: "Bob".to_string() };
    assert_eq!(decode_tag_member(&encode_tag_member(&x)).unwrap(), x);
}

#[test]
fn tag_members_resp_roundtrip() {
    let x = TagMembersResp {
        code: Some(0),
        msg: Some("ok".to_string()),
        members: vec![
            TagMember { id: "u1".to_string(), name: "A".to_string() },
            TagMember { id: "u2".to_string(), name: "B".to_string() },
        ],
        department_list: vec![3, 4],
        tag_name: "mytag".to_string(),
    };
    assert_eq!(decode_tag_members_resp(&encode_tag_members_resp(&x)).unwrap(), x);
}

#[test]
fn tags_resp_roundtrip() {
    let x = TagsResp {
        code: Some(0),
        msg: None,
        tags: vec![Tag { id: 1, name: "a".to_string() }, Tag { id: 2, name: "b".to_string() }],
    };
    assert_eq!(decode_tags_resp(&encode_tags_resp(&x)).unwrap(), x);
}

#[test]
fn agent_basic_roundtrip() {
    let x = AgentBasic {
        id: 1000001,
        name: "portal".to_string(),
        square_logo_url: Some("http://sq".to_string()),
        round_logo_url: None,
    };
    assert_eq!(decode_agent_basic(&encode_agent_basic(&x)).unwrap(), x);
}

#[test]
fn agent_list_resp_roundtrip() {
    let x = AgentListResp {
        code: Some(0),
        msg: Some("ok".to_string()),
        agent_list: vec![AgentBasic {
            id: 1,
            name: "app".to_string(),
            square_logo_url: None,
            round_logo_url: None,
        }],
    };
    assert_eq!(decode_agent_list_resp(&encode_agent_list_resp(&x)).unwrap(), x);
}

#[test]
fn department_roundtrip() {
    let x = Department { id: 2, name: "R&D/Sec".to_string(), parent_id: Some(1), order: 100 };
    assert_eq!(decode_department(&encode_department(&x)).unwrap(), x);
}

#[test]
fn department_resp_roundtrip() {
    let x = DepartmentResp {
        code: Some(0),
        msg: None,
        departments: vec![
            Department { id: 1, name: "HR".to_string(), parent_id: None, order: 1 },
            Department { id: 2, name: "Eng".to_string(), parent_id: Some(1), order: 2 },
        ],
    };
    assert_eq!(decode_department_resp(&encode_department_resp(&x)).unwrap(), x);
}

#[test]
fn department_member_roundtrip_keeps_all_profile_fields() {
    let x = sample_member();
    let y = decode_department_member(&encode_department_member(&x)).unwrap();
    assert_eq!(y, x);
}

#[test]
fn department_members_resp_roundtrip() {
    let x = DepartmentMembersResp { code: Some(0), msg: None, members: vec![sample_member()] };
    assert_eq!(decode_department_members_resp(&encode_department_members_resp(&x)).unwrap(), x);
}

#[test]
fn decode_rejects_wrong_shapes() {
    assert!(decode_tag(&Json::Null).is_none());
    assert!(decode_tag(&Json::Str("tag".to_string())).is_none());
    assert!(decode_department(&Json::Arr(vec![])).is_none());
    assert!(decode_get_token_resp(&Json::Obj(vec![])).is_none());
}

#[test]
fn decode_rejects_out_of_range_numbers() {
    let j = Json::Obj(vec![
        ("tagid".to_string(), Json::UInt(u64::MAX)),
        ("tagname".to_string(), Json::Str("big".to_string())),
    ]);
    assert!(decode_tag(&j).is_none());
}

#[test]
fn user_and_allow_lists_roundtrip() {
    let u = User { user_id: "zhang".to_string() };
    assert_eq!(decode_user(&encode_user(&u)).unwrap(), u);
    let ui = AllowUserInfos { user: vec![u] };
    assert_eq!(decode_allow_userinfos(&encode_allow_userinfos(&ui)).unwrap(), ui);
    let p = AllowParties { party_id: vec![1, 2, 3] };
    assert_eq!(decode_allow_parties(&encode_allow_parties(&p)).unwrap(), p);
    let t = AllowTags { tag_id: vec![] };
    assert_eq!(decode_allow_tags(&encode_allow_tags(&t)).unwrap(), t);
}

#[test]
fn agent_detail_roundtrip_keeps_nested_allow_lists() {
    let x = AgentDetail {
        code: Some(0),
        msg: Some("ok".to_string()),
        agent_id: Some(1000002),
        square_logo_url: Some("http://logo".to_string()),
        description: None,
        allow_userinfos: Some(AllowUserInfos {
            user: vec![User { user_id: "zhang".to_string() }],
        }),
        allow_parties: Some(AllowParties { party_id: vec![1] }),
        allow_tags: Some(AllowTags { tag_id: vec![2, 3] }),
        close: Some(0),
        redirect_domain: None,
        report_location_flag: Some(0),
        is_report_enter: Some(1),
        home_url: None,
        publish_status: Some(1),
    };
    assert_eq!(decode_agent_detail(&encode_agent_detail(&x)).unwrap(), x);
}

#[test]
fn agent_detail_roundtrip_with_everything_absent() {
    let x = AgentDetail {
        code: None,
        msg: None,
        agent_id: None,
        square_logo_url: None,
        description: None,
        allow_userinfos: None,
        allow_parties: None,
        allow_tags: None,
        close: None,
        redirect_domain: None,
        report_location_flag: None,
        is_report_enter: None,
        home_url: None,
        publish_status: None,
    };
    assert_eq!(decode_agent_detail(&encode_agent_detail(&x)).unwrap(), x);
}
