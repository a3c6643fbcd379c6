use qywx_dumper::client::FetchError;
use qywx_dumper::data::{AgentBasic, Department, DepartmentMembersResp, Tag, TagMember,
    TagMembersResp};
use qywx_dumper::dispatch::{agent_summary, collect_department_outcomes, collect_tag_outcomes,
    department_fanout_plan, department_subtask_outcome, empty_tag_log, tag_fanout_plan,
    tag_subtask_outcome, DeptOutcome, TagOutcome};

fn dept(id: u32, name: &str) -> Department {
    Department { id, name: name.to_string(), parent_id: if id == 1 { None } else { Some(1) }, order: id }
}

fn tag(id: u32, name: &str) -> Tag {
    Tag { id, name: name.to_string() }
}

fn tag_resp(members: Vec<TagMember>, code: Option<i32>) -> TagMembersResp {
    TagMembersResp {
        code,
        msg: None,
        members,
        department_list: vec![],
        tag_name: "t".to_string(),
    }
}

fn dept_members_resp() -> DepartmentMembersResp {
    DepartmentMembersResp { code: Some(0), msg: None, members: vec![] }
}

#[test]
fn fanout_launches_one_subtask_per_department_spaced_by_delay() {
    let departments = vec![dept(1, "HR"), dept(2, "Eng"), dept(3, "Ops")];
    let plan = department_fanout_plan(&departments, 200);
    assert_eq!(plan.len(), 3);
    let offsets: Vec<u64> = plan.iter().map(|t| t.launch_offset).collect();
    assert_eq!(offsets, vec![0, 200, 400]);
    assert!(plan[2].launch_offset - plan[0].launch_offset >= (3 - 1) * 200);
    assert_eq!(plan[1].name, "Eng");
}

#[test]
fn fanout_of_one_item_has_zero_span() {
    let tags = vec![tag(9, "solo")];
    let plan = tag_fanout_plan(&tags, 500);
    assert_eq!(plan.len(), 1);
    assert_eq!(plan[0].launch_offset, 0);
}

#[test]
fn fanout_of_empty_list_is_empty() {
    let plan = department_fanout_plan(&vec![], 200);
    assert!(plan.is_empty());
}

#[test]
fn failed_tag_fetch_is_skipped() {
    let out = tag_subtask_outcome(&tag(5, "five"), Err(FetchError::Transport));
    assert_eq!(out, TagOutcome::Skip);
}

#[test]
fn empty_successful_tag_goes_to_the_log() {
    let out = tag_subtask_outcome(&tag(5, "five"), Ok(tag_resp(vec![], Some(0))));
    match out {
        TagOutcome::LogEmpty(line) => assert_eq!(line, "5 - five\n"),
        other => panic!("expected a log entry, got {:?}", other),
    }
}

#[test]
fn empty_tag_with_error_code_is_still_written() {
    let out = tag_subtask_outcome(&tag(5, "five"), Ok(tag_resp(vec![], Some(40001))));
    match out {
        TagOutcome::WriteFile(path, _) => assert_eq!(path, "tags/members-5-five.json"),
        other => panic!("expected a file, got {:?}", other),
    }
}

#[test]
fn tag_with_members_is_written_and_not_logged() {
    let member = TagMember { id: "u1".to_string(), name: "A".to_string() };
    let out = tag_subtask_outcome(&tag(8, "a/b"), Ok(tag_resp(vec![member], Some(0))));
    match &out {
        TagOutcome::WriteFile(path, resp) => {
            assert_eq!(path, "tags/members-8-a-b.json");
            assert_eq!(resp.members.len(), 1);
        },
        other => panic!("expected a file, got {:?}", other),
    }
    let log = empty_tag_log(&vec![out]);
    assert_eq!(log, "These tags has no member:\n");
}

#[test]
fn one_failure_does_not_reach_its_neighbours() {
    let departments = vec![dept(1, "HR"), dept(2, "Eng"), dept(3, "Ops")];
    let results = vec![
        Ok(dept_members_resp()),
        Err(FetchError::Transport),
        Ok(dept_members_resp()),
    ];
    let outcomes = collect_department_outcomes(&departments, results);
    assert_eq!(outcomes.len(), 3);
    match &outcomes[0] {
        DeptOutcome::WriteFile(path, _) => assert_eq!(path, "departments/members-1-HR.json"),
        other => panic!("expected a file for the first item, got {:?}", other),
    }
    assert_eq!(outcomes[1], DeptOutcome::Skip);
    match &outcomes[2] {
        DeptOutcome::WriteFile(path, _) => assert_eq!(path, "departments/members-3-Ops.json"),
        other => panic!("expected a file for the third item, got {:?}", other),
    }
}

#[test]
fn failed_department_fetch_is_skipped() {
    let out = department_subtask_outcome(&dept(2, "Eng"), Err(FetchError::Decode));
    assert_eq!(out, DeptOutcome::Skip);
}

#[test]
fn empty_tag_log_collects_lines_in_order() {
    let tags = vec![tag(1, "a"), tag(2, "b"), tag(3, "c")];
    let member = TagMember { id: "u".to_string(), name: "n".to_string() };
    let results = vec![
        Ok(tag_resp(vec![], Some(0))),
        Ok(tag_resp(vec![member], Some(0))),
        Ok(tag_resp(vec![], Some(0))),
    ];
    let outcomes = collect_tag_outcomes(&tags, results);
    let log = empty_tag_log(&outcomes);
    assert_eq!(log, "These tags has no member:\n1 - a\n3 - c\n");
}

#[test]
fn agent_summary_joins_with_commas() {
    let agents = vec![
        AgentBasic { id: 1, name: "app1".to_string(), square_logo_url: None, round_logo_url: None },
        AgentBasic { id: 2, name: "app2".to_string(), square_logo_url: None, round_logo_url: None },
    ];
    assert_eq!(agent_summary(&agents), "1 - app1, 2 - app2");
    assert_eq!(agent_summary(&vec![]), "");
}
