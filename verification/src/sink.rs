use vstd::prelude::*;

use crate::codec::{agent_list_resp_jval, department_members_resp_jval, department_resp_jval,
    encode_agent_list_resp, encode_department_members_resp, encode_department_resp,
    encode_tag_members_resp, encode_tags_resp, tag_members_resp_jval, tags_resp_jval};
use crate::data::{AgentListResp, DepartmentMembersResp, DepartmentResp, TagMembersResp, TagsResp};
use crate::json::{json_to_string_pretty, jval_text};
use crate::text::{dec_digits, u32_to_string};
use crate::util::{sanitize_text, ReplaceSpecial};

verus! {

/// File name for a per-item members dump, before the directory prefix:
/// the whole assembled name is sanitized, so an id or a name cannot
/// smuggle a path separator in.
pub open spec fn members_file_name_spec(id: u32, name: Seq<char>) -> Seq<char> {
    sanitize_text("members-"@ + dec_digits(id as nat) + "-"@ + name + ".json"@)
}

/// Builds `members-{id}-{name}.json` and sanitizes the assembled name.
pub fn members_file_name(id: u32, name: &String) -> (r: String)
    ensures
        r@ == members_file_name_spec(id, name@),
{
    let mut base = String::from_str("members-");
    let digits = u32_to_string(id);
    base.append(digits.as_str());
    base.append("-");
    base.append(name.as_str());
    base.append(".json");
    base.replace_special_char()
}

/// Path of a department's members dump, under the per-job directory.
/// The prefix is added after sanitization; it is the one legal
/// separator in the path.
pub fn department_members_path(id: u32, name: &String) -> (r: String)
    ensures
        r@ == "departments/"@ + members_file_name_spec(id, name@),
{
    let mut p = String::from_str("departments/");
    let file = members_file_name(id, name);
    p.append(file.as_str());
    p
}

/// Path of a tag's members dump, under the per-job directory.
pub fn tag_members_path(id: u32, name: &String) -> (r: String)
    ensures
        r@ == "tags/"@ + members_file_name_spec(id, name@),
{
    let mut p = String::from_str("tags/");
    let file = members_file_name(id, name);
    p.append(file.as_str());
    p
}

/// The bytes of `agents.json`: the agent list, pretty-printed.
pub fn render_agent_list_resp(x: &AgentListResp) -> (r: String)
    ensures
        r@ == jval_text(agent_list_resp_jval(*x), 0),
{
    let tree = encode_agent_list_resp(x);
    json_to_string_pretty(&tree)
}

/// The bytes of `departments.json`: the department list, pretty-printed.
pub fn render_department_resp(x: &DepartmentResp) -> (r: String)
    ensures
        r@ == jval_text(department_resp_jval(*x), 0),
{
    let tree = encode_department_resp(x);
    json_to_string_pretty(&tree)
}

/// The bytes of one department's members file, pretty-printed.
pub fn render_department_members_resp(x: &DepartmentMembersResp) -> (r: String)
    ensures
        r@ == jval_text(department_members_resp_jval(*x), 0),
{
    let tree = encode_department_members_resp(x);
    json_to_string_pretty(&tree)
}

/// The bytes of `tags.json`: the tag list, pretty-printed.
pub fn render_tags_resp(x: &TagsResp) -> (r: String)
    ensures
        r@ == jval_text(tags_resp_jval(*x), 0),
{
    let tree = encode_tags_resp(x);
    json_to_string_pretty(&tree)
}

/// The bytes of one tag's members file, pretty-printed.
pub fn render_tag_members_resp(x: &TagMembersResp) -> (r: String)
    ensures
        r@ == jval_text(tag_members_resp_jval(*x), 0),
{
    let tree = encode_tag_members_resp(x);
    json_to_string_pretty(&tree)
}

} // verus!
