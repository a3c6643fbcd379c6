use vstd::prelude::*;

use crate::client::FetchError;
use crate::data::{AgentBasic, Department, DepartmentMembersResp, Tag, TagMembersResp};
use crate::sink::{members_file_name_spec, tag_members_path, department_members_path};
use crate::text::{dec_digits, u32_to_string};

verus! {

/// One fan-out sub-task: which item it fetches and when it is
/// launched, as an offset from the first launch.
#[derive(Debug, Clone, PartialEq)]
pub struct SubTask {
    pub id: u32,
    pub name: String,
    pub launch_offset: u64,
}

/// The fan-out launch schedule for the department job: one sub-task
/// per department, in list order, each launched `delay` after the one
/// before it.
pub fn department_fanout_plan(departments: &Vec<Department>, delay: u64) -> (r: Vec<SubTask>)
    requires
        departments@.len() * delay <= u64::MAX,
    ensures
        r@.len() == departments@.len(),
        forall|k: int|
            0 <= k < r@.len() ==> {
                &&& (#[trigger] r@[k]).id == departments@[k].id
                &&& r@[k].name == departments@[k].name
                &&& r@[k].launch_offset == k * delay
            },
{
    let mut plan: Vec<SubTask> = Vec::new();
    let mut offset: u64 = 0;
    let mut i: usize = 0;
    while i < departments.len()
        invariant
            0 <= i <= departments@.len(),
            departments@.len() * delay <= u64::MAX,
            offset == i * delay,
            plan@.len() == i,
            forall|k: int|
                0 <= k < i ==> {
                    &&& (#[trigger] plan@[k]).id == departments@[k].id
                    &&& plan@[k].name == departments@[k].name
                    &&& plan@[k].launch_offset == k * delay
                },
        decreases departments@.len() - i,
    {
        proof {
            vstd::arithmetic::mul::lemma_mul_inequality(
                i as int + 1,
                departments@.len() as int,
                delay as int,
            );
            assert((i + 1) * delay == i * delay + delay) by (nonlinear_arith);
        }
        let d = &departments[i];
        plan.push(SubTask { id: d.id, name: d.name.clone(), launch_offset: offset });
        offset = offset + delay;
        i = i + 1;
    }
    plan
}

/// The fan-out launch schedule for the tag job, in the same shape.
pub fn tag_fanout_plan(tags: &Vec<Tag>, delay: u64) -> (r: Vec<SubTask>)
    requires
        tags@.len() * delay <= u64::MAX,
    ensures
        r@.len() == tags@.len(),
        forall|k: int|
            0 <= k < r@.len() ==> {
                &&& (#[trigger] r@[k]).id == tags@[k].id
                &&& r@[k].name == tags@[k].name
                &&& r@[k].launch_offset == k * delay
            },
{
    let mut plan: Vec<SubTask> = Vec::new();
    let mut offset: u64 = 0;
    let mut i: usize = 0;
    while i < tags.len()
        invariant
            0 <= i <= tags@.len(),
            tags@.len() * delay <= u64::MAX,
            offset == i * delay,
            plan@.len() == i,
            forall|k: int|
                0 <= k < i ==> {
                    &&& (#[trigger] plan@[k]).id == tags@[k].id
                    &&& plan@[k].name == tags@[k].name
                    &&& plan@[k].launch_offset == k * delay
                },
        decreases tags@.len() - i,
    {
        proof {
            vstd::arithmetic::mul::lemma_mul_inequality(
                i as int + 1,
                tags@.len() as int,
                delay as int,
            );
            assert((i + 1) * delay == i * delay + delay) by (nonlinear_arith);
        }
        let t = &tags[i];
        plan.push(SubTask { id: t.id, name: t.name.clone(), launch_offset: offset });
        offset = offset + delay;
        i = i + 1;
    }
    plan
}

/// A fan-out of N sub-tasks spans at least (N - 1) * delay between the
/// first launch and the last: the offsets are exactly k * delay.
pub proof fn lemma_fanout_spacing(plan: Seq<SubTask>, delay: u64)
    requires
        plan.len() >= 1,
        forall|k: int| 0 <= k < plan.len() ==> (#[trigger] plan[k]).launch_offset == k * delay,
    ensures
        plan[plan.len() - 1].launch_offset - plan[0].launch_offset == (plan.len() - 1) * delay,
{
    assert(plan[0].launch_offset == 0 * delay);
}

/// What one tag sub-task's result becomes: skipped after a failed
/// fetch, a line of the empty-tag log, or a file write.
#[derive(Debug, PartialEq)]
pub enum TagOutcome {
    Skip,
    LogEmpty(String),
    WriteFile(String, TagMembersResp),
}

/// A tag fetch that succeeded with a success status code and no
/// members: it goes to the empty-tag log instead of a file.
pub open spec fn tag_success_empty(resp: TagMembersResp) -> bool {
    resp.members@.len() == 0 && (resp.code matches Some(c) && c == 0)
}

/// The empty-tag log line for one tag: `{id} - {name}` and a newline.
pub open spec fn empty_line_spec(tag: Tag) -> Seq<char> {
    dec_digits(tag.id as nat) + " - "@ + tag.name@ + "\n"@
}

/// The relation between one tag, its fetch result, and the outcome the
/// dispatcher assigns to it. It reads nothing but this one item.
pub open spec fn tag_outcome_matches(
    tag: Tag,
    result: Result<TagMembersResp, FetchError>,
    outcome: TagOutcome,
) -> bool {
    match result {
        Err(_) => outcome == TagOutcome::Skip,
        Ok(resp) => if tag_success_empty(resp) {
            outcome matches TagOutcome::LogEmpty(line) && line@ == empty_line_spec(tag)
        } else {
            outcome matches TagOutcome::WriteFile(path, payload) && path@ == "tags/"@
                + members_file_name_spec(tag.id, tag.name@) && payload == resp
        },
    }
}

/// Decides one tag sub-task: a failed fetch is skipped, a successful
/// empty result is logged, anything else is written to the tag's file.
pub fn tag_subtask_outcome(tag: &Tag, result: Result<TagMembersResp, FetchError>) -> (r:
    TagOutcome)
    ensures
        tag_outcome_matches(*tag, result, r),
{
    match result {
        Err(_) => TagOutcome::Skip,
        Ok(resp) => {
            let code_ok = match resp.code {
                Some(c) => c == 0,
                None => false,
            };
            if resp.members.is_empty() && code_ok {
                let mut line = u32_to_string(tag.id);
                line.append(" - ");
                line.append(tag.name.as_str());
                line.append("\n");
                TagOutcome::LogEmpty(line)
            } else {
                TagOutcome::WriteFile(tag_members_path(tag.id, &tag.name), resp)
            }
        },
    }
}

/// What one department sub-task's result becomes.
#[derive(Debug, PartialEq)]
pub enum DeptOutcome {
    Skip,
    WriteFile(String, DepartmentMembersResp),
}

/// The relation between one department, its fetch result, and the
/// outcome the dispatcher assigns to it.
pub open spec fn dept_outcome_matches(
    department: Department,
    result: Result<DepartmentMembersResp, FetchError>,
    outcome: DeptOutcome,
) -> bool {
    match result {
        Err(_) => outcome == DeptOutcome::Skip,
        Ok(resp) => outcome matches DeptOutcome::WriteFile(path, payload) && path@
            == "departments/"@ + members_file_name_spec(department.id, department.name@)
            && payload == resp,
    }
}

/// Decides one department sub-task: a failed fetch is skipped,
/// anything else is written to the department's file.
pub fn department_subtask_outcome(
    department: &Department,
    result: Result<DepartmentMembersResp, FetchError>,
) -> (r: DeptOutcome)
    ensures
        dept_outcome_matches(*department, result, r),
{
    match result {
        Err(_) => DeptOutcome::Skip,
        Ok(resp) => DeptOutcome::WriteFile(
            department_members_path(department.id, &department.name),
            resp,
        ),
    }
}

/// Decides every tag sub-task of a batch, one outcome per tag, each
/// from that tag's own result alone.
pub fn collect_tag_outcomes(tags: &Vec<Tag>, results: Vec<Result<TagMembersResp, FetchError>>)
    -> (r: Vec<TagOutcome>)
    requires
        results@.len() == tags@.len(),
    ensures
        r@.len() == tags@.len(),
        forall|k: int|
            0 <= k < tags@.len() ==> tag_outcome_matches(tags@[k], results@[k], #[trigger] r@[k]),
{
    let ghost orig = results@;
    let mut rest = results;
    let mut out: Vec<TagOutcome> = Vec::new();
    let mut i: usize = 0;
    while i < tags.len()
        invariant
            0 <= i <= tags@.len(),
            orig.len() == tags@.len(),
            rest@ =~= orig.subrange(i as int, orig.len() as int),
            out@.len() == i,
            forall|k: int|
                0 <= k < i ==> tag_outcome_matches(tags@[k], orig[k], #[trigger] out@[k]),
        decreases tags@.len() - i,
    {
        let item = rest.remove(0);
        proof {
            assert(item == orig[i as int]);
        }
        let o = tag_subtask_outcome(&tags[i], item);
        out.push(o);
        proof {
            assert(rest@ =~= orig.subrange(i + 1, orig.len() as int));
        }
        i = i + 1;
    }
    out
}

/// Decides every department sub-task of a batch.
pub fn collect_department_outcomes(
    departments: &Vec<Department>,
    results: Vec<Result<DepartmentMembersResp, FetchError>>,
) -> (r: Vec<DeptOutcome>)
    requires
        results@.len() == departments@.len(),
    ensures
        r@.len() == departments@.len(),
        forall|k: int|
            0 <= k < departments@.len() ==> dept_outcome_matches(
                departments@[k],
                results@[k],
                #[trigger] r@[k],
            ),
{
    let ghost orig = results@;
    let mut rest = results;
    let mut out: Vec<DeptOutcome> = Vec::new();
    let mut i: usize = 0;
    while i < departments.len()
        invariant
            0 <= i <= departments@.len(),
            orig.len() == departments@.len(),
            rest@ =~= orig.subrange(i as int, orig.len() as int),
            out@.len() == i,
            forall|k: int|
                0 <= k < i ==> dept_outcome_matches(departments@[k], orig[k], #[trigger] out@[k]),
        decreases departments@.len() - i,
    {
        let item = rest.remove(0);
        proof {
            assert(item == orig[i as int]);
        }
        let o = department_subtask_outcome(&departments[i], item);
        out.push(o);
        proof {
            assert(rest@ =~= orig.subrange(i + 1, orig.len() as int));
        }
        i = i + 1;
    }
    out
}

/// A sub-task failure never reaches its siblings: whatever the other
/// results hold, an item whose own fetch succeeded is written to its
/// own file, with its own payload.
pub proof fn lemma_department_failure_isolated(
    departments: Seq<Department>,
    results: Seq<Result<DepartmentMembersResp, FetchError>>,
    outcomes: Seq<DeptOutcome>,
    j: int,
)
    requires
        departments.len() == results.len(),
        departments.len() == outcomes.len(),
        forall|k: int|
            0 <= k < departments.len() ==> dept_outcome_matches(
                departments[k],
                results[k],
                #[trigger] outcomes[k],
            ),
        0 <= j < departments.len(),
        results[j] is Ok,
    ensures
        outcomes[j] matches DeptOutcome::WriteFile(path, payload) && path@ == "departments/"@
            + members_file_name_spec(departments[j].id, departments[j].name@) && payload
            == results[j]->Ok_0,
{
    assert(dept_outcome_matches(departments[j], results[j], outcomes[j]));
}

/// The same isolation for the tag job: a tag whose own fetch succeeded
/// is logged or written from its own result alone.
pub proof fn lemma_tag_failure_isolated(
    tags: Seq<Tag>,
    results: Seq<Result<TagMembersResp, FetchError>>,
    outcomes: Seq<TagOutcome>,
    j: int,
)
    requires
        tags.len() == results.len(),
        tags.len() == outcomes.len(),
        forall|k: int|
            0 <= k < tags.len() ==> tag_outcome_matches(tags[k], results[k], #[trigger] outcomes[k]),
        0 <= j < tags.len(),
        results[j] is Ok,
    ensures
        tag_success_empty(results[j]->Ok_0) ==> (outcomes[j] matches TagOutcome::LogEmpty(line)
            && line@ == empty_line_spec(tags[j])),
        !tag_success_empty(results[j]->Ok_0) ==> (outcomes[j] matches TagOutcome::WriteFile(
            path,
            payload,
        ) && path@ == "tags/"@ + members_file_name_spec(tags[j].id, tags[j].name@) && payload
            == results[j]->Ok_0),
{
    assert(tag_outcome_matches(tags[j], results[j], outcomes[j]));
}

/// The lines of the empty-tag log, in outcome order.
pub open spec fn empty_log_lines(outcomes: Seq<TagOutcome>) -> Seq<char>
    decreases outcomes.len(),
{
    if outcomes.len() == 0 {
        Seq::<char>::empty()
    } else {
        empty_log_lines(outcomes.drop_last()) + (match outcomes.last() {
            TagOutcome::LogEmpty(line) => line@,
            _ => Seq::<char>::empty(),
        })
    }
}

/// The whole empty-tag log: a fixed header, then one line per tag that
/// came back empty with a success status.
pub open spec fn empty_log_spec(outcomes: Seq<TagOutcome>) -> Seq<char> {
    "These tags has no member:\n"@ + empty_log_lines(outcomes)
}

/// A piece of text occurs somewhere inside another.
pub open spec fn text_contains(hay: Seq<char>, needle: Seq<char>) -> bool {
    exists|pos: int|
        0 <= pos && pos + needle.len() <= hay.len() && #[trigger] hay.subrange(
            pos,
            pos + needle.len(),
        ) == needle
}

/// A tag that was sent to the empty-tag log stands in the log's text,
/// and (by its outcome) produced no file.
pub proof fn lemma_empty_log_has_each_line(outcomes: Seq<TagOutcome>, k: int)
    requires
        0 <= k < outcomes.len(),
        outcomes[k] matches TagOutcome::LogEmpty(_),
    ensures
        text_contains(empty_log_spec(outcomes), outcomes[k]->LogEmpty_0@),
    decreases outcomes.len(),
{
    let line = outcomes[k]->LogEmpty_0@;
    let whole = empty_log_spec(outcomes);
    if k == outcomes.len() - 1 {
        let pos = whole.len() - line.len();
        assert(whole.subrange(pos as int, pos + line.len() as int) =~= line);
    } else {
        lemma_empty_log_has_each_line(outcomes.drop_last(), k);
        let prefix = empty_log_spec(outcomes.drop_last());
        let pos = choose|pos: int|
            0 <= pos && pos + line.len() <= prefix.len() && #[trigger] prefix.subrange(
                pos,
                pos + line.len() as int,
            ) == line;
        assert(whole.subrange(pos, pos + line.len() as int) =~= prefix.subrange(
            pos,
            pos + line.len() as int,
        ));
    }
}

/// Renders the empty-tag log from a batch's outcomes.
pub fn empty_tag_log(outcomes: &Vec<TagOutcome>) -> (r: String)
    ensures
        r@ == empty_log_spec(outcomes@),
{
    let mut log = String::from_str("These tags has no member:\n");
    let mut i: usize = 0;
    while i < outcomes.len()
        invariant
            0 <= i <= outcomes@.len(),
            log@ == "These tags has no member:\n"@ + empty_log_lines(
                outcomes@.subrange(0, i as int),
            ),
        decreases outcomes@.len() - i,
    {
        match &outcomes[i] {
            TagOutcome::LogEmpty(line) => {
                log.append(line.as_str());
            },
            _ => {},
        }
        proof {
            let pre = outcomes@.subrange(0, i as int);
            let post = outcomes@.subrange(0, i + 1);
            assert(post.drop_last() =~= pre);
            assert(post.last() == outcomes@[i as int]);
        }
        i = i + 1;
    }
    proof {
        assert(outcomes@.subrange(0, outcomes@.len() as int) =~= outcomes@);
    }
    log
}

/// The summary line of the agent job's report: `{id} - {name}` for
/// each agent, joined by commas.
pub open spec fn agent_summary_spec(agents: Seq<AgentBasic>) -> Seq<char>
    decreases agents.len(),
{
    if agents.len() == 0 {
        Seq::<char>::empty()
    } else if agents.len() == 1 {
        dec_digits(agents[0].id as nat) + " - "@ + agents[0].name@
    } else {
        agent_summary_spec(agents.drop_last()) + ", "@ + dec_digits(agents.last().id as nat)
            + " - "@ + agents.last().name@
    }
}

/// Renders the agent summary line.
pub fn agent_summary(agents: &Vec<AgentBasic>) -> (r: String)
    ensures
        r@ == agent_summary_spec(agents@),
{
    let mut out = String::new();
    let mut i: usize = 0;
    while i < agents.len()
        invariant
            0 <= i <= agents@.len(),
            out@ == agent_summary_spec(agents@.subrange(0, i as int)),
        decreases agents@.len() - i,
    {
        if i > 0 {
            out.append(", ");
        }
        let digits = u32_to_string(agents[i].id);
        out.append(digits.as_str());
        out.append(" - ");
        out.append(agents[i].name.as_str());
        proof {
            let pre = agents@.subrange(0, i as int);
            let post = agents@.subrange(0, i + 1);
            assert(post.drop_last() =~= pre);
            assert(post.last() == agents@[i as int]);
        }
        i = i + 1;
    }
    proof {
        assert(agents@.subrange(0, agents@.len() as int) =~= agents@);
    }
    out
}

} // verus!
