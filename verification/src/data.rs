use vstd::prelude::*;

use crate::json::Json;

verus! {

/// Success test that directory API payloads share: whether the decoded
/// body counts as a success for the caller.
pub trait Success {
    spec fn success_spec(&self) -> bool;

    fn is_success(&self) -> (r: bool)
        ensures
            r == self.success_spec(),
    ;
}

/// Body of the token-issuance endpoint.
#[derive(Debug, Clone, PartialEq)]
pub struct GetTokenResp {
    pub code: Option<i32>,
    pub msg: Option<String>,
    pub access_token: Option<String>,
    pub expires_in: Option<u32>,
}

impl Success for GetTokenResp {
    /// Token issuance succeeded exactly when a token came back.
    open spec fn success_spec(&self) -> bool {
        self.access_token is Some
    }

    fn is_success(&self) -> (r: bool) {
        self.access_token.is_some()
    }
}

/// Body of the agent-list endpoint.
#[derive(Debug, Clone, PartialEq)]
pub struct AgentListResp {
    pub code: Option<i32>,
    pub msg: Option<String>,
    pub agent_list: Vec<AgentBasic>,
}

/// One agent (application) in the top-level list.
#[derive(Debug, Clone, PartialEq)]
pub struct AgentBasic {
    pub id: u32,
    pub name: String,
    pub square_logo_url: Option<String>,
    pub round_logo_url: Option<String>,
}

/// Body of the per-agent detail endpoint.
#[derive(Debug, Clone, PartialEq)]
pub struct AgentDetail {
    pub code: Option<i32>,
    pub msg: Option<String>,
    pub agent_id: Option<u32>,
    pub square_logo_url: Option<String>,
    pub description: Option<String>,
    pub allow_userinfos: Option<AllowUserInfos>,
    pub allow_parties: Option<AllowParties>,
    pub allow_tags: Option<AllowTags>,
    pub close: Option<u32>,
    pub redirect_domain: Option<String>,
    pub report_location_flag: Option<u32>,
    pub is_report_enter: Option<u32>,
    pub home_url: Option<String>,
    pub publish_status: Option<u32>,
}

/// Users allowed to use an agent.
#[derive(Debug, Clone, PartialEq)]
pub struct AllowUserInfos {
    pub user: Vec<User>,
}

/// A user reference inside an agent's allow list.
#[derive(Debug, Clone, PartialEq)]
pub struct User {
    pub user_id: String,
}

/// Departments allowed to use an agent.
#[derive(Debug, Clone, PartialEq)]
pub struct AllowParties {
    pub party_id: Vec<u32>,
}

/// Tags allowed to use an agent.
#[derive(Debug, Clone, PartialEq)]
pub struct AllowTags {
    pub tag_id: Vec<u32>,
}

/// Body of the department-list endpoint.
#[derive(Debug, Clone, PartialEq)]
pub struct DepartmentResp {
    pub code: Option<i32>,
    pub msg: Option<String>,
    pub departments: Vec<Department>,
}

/// One department in the flat department list.
#[derive(Debug, Clone, PartialEq)]
pub struct Department {
    pub id: u32,
    pub name: String,
    pub parent_id: Option<u32>,
    pub order: u32,
}

/// Body of the department-members endpoint.
#[derive(Debug, PartialEq)]
pub struct DepartmentMembersResp {
    pub code: Option<i32>,
    pub msg: Option<String>,
    pub members: Vec<DepartmentMember>,
}

/// One member of a department, with the profile fields the API returns.
/// The free-form extension attributes are held as a JSON object body.
#[derive(Debug, PartialEq)]
pub struct DepartmentMember {
    pub name: String,
    pub department: Vec<u32>,
    pub position: String,
    pub mobile: String,
    pub gender: String,
    pub email: String,
    pub avatar: String,
    pub is_leader: u32,
    pub status: u32,
    pub enable: u32,
    pub hide_mobile: u32,
    pub english_name: String,
    pub telephone: String,
    pub order: Vec<u32>,
    pub main_department: Option<u32>,
    pub qr_code: String,
    pub alias: String,
    pub is_leader_in_dept: Vec<u32>,
    pub thumb_avatar: String,
    pub biz_mail: Option<String>,
    pub user_id: String,
    pub extattr: Vec<(String, Json)>,
}

/// Body of the tag-list endpoint.
#[derive(Debug, Clone, PartialEq)]
pub struct TagsResp {
    pub code: Option<i32>,
    pub msg: Option<String>,
    pub tags: Vec<Tag>,
}

/// One tag in the top-level tag list.
#[derive(Debug, Clone, PartialEq)]
pub struct Tag {
    pub id: u32,
    pub name: String,
}

/// Body of the tag-members endpoint.
#[derive(Debug, Clone, PartialEq)]
pub struct TagMembersResp {
    pub code: Option<i32>,
    pub msg: Option<String>,
    pub members: Vec<TagMember>,
    pub department_list: Vec<u32>,
    pub tag_name: String,
}

/// One member of a tag.
#[derive(Debug, Clone, PartialEq)]
pub struct TagMember {
    pub id: String,
    pub name: String,
}

} // verus!
