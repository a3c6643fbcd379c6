use qywx_dumper::client::FetchError;
use qywx_dumper::data::{Department, DepartmentMember, DepartmentMembersResp, DepartmentResp};
use qywx_dumper::dispatch::{collect_department_outcomes, department_fanout_plan, DeptOutcome};
use qywx_dumper::sink::{department_members_path, render_department_resp};

fn member(user_id: &str) -> DepartmentMember {
    DepartmentMember {
        name: user_id.to_uppercase(),
        department: vec![1],
        position: "".to_string(),
        mobile: "".to_string(),
        gender: "0".to_string(),
        email: "".to_string(),
        avatar: "".to_string(),
        is_leader: 0,
        status: 1,
        enable: 1,
        hide_mobile: 0,
        english_name: "".to_string(),
        telephone: "".to_string(),
        order: vec![],
        main_department: Some(1),
        qr_code: "".to_string(),
        alias: "".to_string(),
        is_leader_in_dept: vec![],
        thumb_avatar: "".to_string(),
        biz_mail: None,
        user_id: user_id.to_string(),
        extattr: vec![],
    }
}

fn members_resp(user_id: &str) -> DepartmentMembersResp {
    DepartmentMembersResp { code: Some(0), msg: None, members: vec![member(user_id)] }
}

#[test]
fn department_job_writes_list_and_two_member_files() {
    let departments = vec![
        Department { id: 1, name: "HR".to_string(), parent_id: None, order: 1 },
        Department { id: 2, name: "R&D/Sec".to_string(), parent_id: None, order: 2 },
    ];
    let resp = DepartmentResp { code: Some(0), msg: None, departments: departments.clone() };

    // The top-level list file holds both departments.
    let list_json = render_department_resp(&resp);
    let v: serde_json::Value = serde_json::from_str(&list_json).unwrap();
    assert_eq!(v["department"].as_array().unwrap().len(), 2);

    // One sub-task per department, in list order.
    let plan = department_fanout_plan(&departments, 200);
    assert_eq!(plan.len(), 2);

    // Each sub-task succeeded with one member: two files, the slash in
    // the second department's name sanitized to a dash.
    let results = vec![Ok(members_resp("alice")), Ok(members_resp("bob"))];
    let outcomes = collect_department_outcomes(&departments, results);
    match &outcomes[0] {
        DeptOutcome::WriteFile(path, payload) => {
            assert_eq!(path, "departments/members-1-HR.json");
            assert_eq!(payload.members.len(), 1);
            assert_eq!(payload.members[0].user_id, "alice");
        },
        other => panic!("expected a file, got {:?}", other),
    }
    match &outcomes[1] {
        DeptOutcome::WriteFile(path, payload) => {
            assert_eq!(path, "departments/members-2-R&D-Sec.json");
            assert_eq!(payload.members.len(), 1);
            assert_eq!(payload.members[0].user_id, "bob");
        },
        other => panic!("expected a file, got {:?}", other),
    }
}

#[test]
fn member_paths_come_from_id_and_sanitized_name() {
    assert_eq!(
        department_members_path(2, &"R&D/Sec".to_string()),
        "departments/members-2-R&D-Sec.json"
    );
    assert_eq!(department_members_path(1, &"HR".to_string()), "departments/members-1-HR.json");
}

#[test]
fn middle_failure_leaves_neighbour_files_intact() {
    let departments = vec![
        Department { id: 1, name: "A".to_string(), parent_id: None, order: 1 },
        Department { id: 2, name: "B".to_string(), parent_id: None, order: 2 },
        Department { id: 3, name: "C".to_string(), parent_id: None, order: 3 },
    ];
    let results = vec![
        Ok(members_resp("u1")),
        Err(FetchError::Transport),
        Ok(members_resp("u3")),
    ];
    let outcomes = collect_department_outcomes(&departments, results);
    assert!(matches!(&outcomes[0], DeptOutcome::WriteFile(p, _) if p == "departments/members-1-A.json"));
    assert_eq!(outcomes[1], DeptOutcome::Skip);
    assert!(matches!(&outcomes[2], DeptOutcome::WriteFile(p, _) if p == "departments/members-3-C.json"));
}
