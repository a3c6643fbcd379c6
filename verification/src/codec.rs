use vstd::prelude::*;

use crate::data::{AgentBasic, AgentDetail, AgentListResp, AllowParties, AllowTags, AllowUserInfos,
    Department, DepartmentMember, DepartmentMembersResp, DepartmentResp, GetTokenResp, Tag,
    TagMember, TagMembersResp, User};
use crate::json::{jobj_of, json_clone, jval_of, jvals_of, lemma_jobj_congruence,
    lemma_jobj_index, lemma_jobj_len, lemma_jobj_push, lemma_jvals_index, lemma_jvals_len, JVal,
    Json};
use crate::text::str_eq;

verus! {

/// JSON value of an optional string: the string, or null.
pub open spec fn j_opt_str(o: Option<String>) -> JVal {
    match o {
        Option::Some(s) => JVal::Str(s@),
        Option::None => JVal::Null,
    }
}

/// JSON value of an optional unsigned number: the number, or null.
pub open spec fn j_opt_u32(o: Option<u32>) -> JVal {
    match o {
        Option::Some(n) => JVal::UInt(n as u64),
        Option::None => JVal::Null,
    }
}

/// JSON value of an optional signed number: the number, or null.
pub open spec fn j_opt_i32(o: Option<i32>) -> JVal {
    match o {
        Option::Some(n) => JVal::Int(n as i64),
        Option::None => JVal::Null,
    }
}

/// Two optional strings agree in content.
pub open spec fn opt_str_eqv(a: Option<String>, b: Option<String>) -> bool {
    (a is Some <==> b is Some) && (a is Some ==> a->0@ == b->0@)
}

/// Optional strings with the same JSON value agree in content.
pub proof fn lemma_j_opt_str_injective(a: Option<String>, b: Option<String>)
    requires
        j_opt_str(a) == j_opt_str(b),
    ensures
        opt_str_eqv(a, b),
{
}

/// Optional numbers with the same JSON value are equal.
pub proof fn lemma_j_opt_u32_injective(a: Option<u32>, b: Option<u32>)
    requires
        j_opt_u32(a) == j_opt_u32(b),
    ensures
        a == b,
{
}

/// Optional numbers with the same JSON value are equal.
pub proof fn lemma_j_opt_i32_injective(a: Option<i32>, b: Option<i32>)
    requires
        j_opt_i32(a) == j_opt_i32(b),
    ensures
        a == b,
{
}

/// Encodes an optional string.
fn enc_opt_str(o: &Option<String>) -> (r: Json)
    ensures
        jval_of(r) == j_opt_str(*o),
{
    match o {
        Some(s) => Json::Str(s.clone()),
        None => Json::Null,
    }
}

/// Encodes an optional unsigned number.
fn enc_opt_u32(o: &Option<u32>) -> (r: Json)
    ensures
        jval_of(r) == j_opt_u32(*o),
{
    match o {
        Some(n) => Json::UInt(*n as u64),
        None => Json::Null,
    }
}

/// Encodes an optional signed number.
fn enc_opt_i32(o: &Option<i32>) -> (r: Json)
    ensures
        jval_of(r) == j_opt_i32(*o),
{
    match o {
        Some(n) => Json::Int(*n as i64),
        None => Json::Null,
    }
}

/// Appends one keyed value to an object under construction.
fn obj_push(entries: &mut Vec<(String, Json)>, key: &str, value: Json)
    ensures
        jobj_of(final(entries)@) =~= jobj_of(old(entries)@) + seq![(key@, jval_of(value))],
{
    let ghost pre = entries@;
    entries.push((String::from_str(key), value));
    proof {
        let x = entries@.last();
        assert(entries@ =~= pre.push(x));
        lemma_jobj_push(pre, x);
    }
}

/// Decodes an optional string: null or a string body.
fn dec_opt_str(v: &Json) -> (r: Option<Option<String>>)
    ensures
        r matches Some(o) ==> jval_of(*v) == j_opt_str(o),
        jval_of(*v) matches JVal::Str(_) ==> r is Some,
        jval_of(*v) == JVal::Null ==> r is Some,
{
    match v {
        Json::Null => Some(None),
        Json::Str(s) => Some(Some(s.clone())),
        _ => None,
    }
}

/// Decodes an optional unsigned number that must fit in 32 bits.
fn dec_opt_u32(v: &Json) -> (r: Option<Option<u32>>)
    ensures
        r matches Some(o) ==> jval_of(*v) == j_opt_u32(o),
        jval_of(*v) == JVal::Null ==> r is Some,
        (jval_of(*v) matches JVal::UInt(n) && n <= u32::MAX) ==> r is Some,
{
    match v {
        Json::Null => Some(None),
        Json::UInt(n) => if *n <= u32::MAX as u64 {
            Some(Some(*n as u32))
        } else {
            None
        },
        _ => None,
    }
}

/// Decodes an optional signed number that must fit in 32 bits.
fn dec_opt_i32(v: &Json) -> (r: Option<Option<i32>>)
    ensures
        r matches Some(o) ==> jval_of(*v) == j_opt_i32(o),
        jval_of(*v) == JVal::Null ==> r is Some,
        (jval_of(*v) matches JVal::Int(n) && i32::MIN as i64 <= n <= i32::MAX as i64) ==> r
            is Some,
{
    match v {
        Json::Null => Some(None),
        Json::Int(n) => if i32::MIN as i64 <= *n && *n <= i32::MAX as i64 {
            Some(Some(*n as i32))
        } else {
            None
        },
        _ => None,
    }
}

/// Decodes a required string.
fn dec_string(v: &Json) -> (r: Option<String>)
    ensures
        r matches Some(s) ==> jval_of(*v) == JVal::Str(s@),
        jval_of(*v) matches JVal::Str(_) ==> r is Some,
{
    match v {
        Json::Str(s) => Some(s.clone()),
        _ => None,
    }
}

/// Decodes a required unsigned number that must fit in 32 bits.
fn dec_u32(v: &Json) -> (r: Option<u32>)
    ensures
        r matches Some(m) ==> jval_of(*v) == JVal::UInt(m as u64),
        (jval_of(*v) matches JVal::UInt(n) && n <= u32::MAX) ==> r is Some,
{
    match v {
        Json::UInt(n) => if *n <= u32::MAX as u64 {
            Some(*n as u32)
        } else {
            None
        },
        _ => None,
    }
}

/// Values agreeing with a token response body.
pub open spec fn get_token_resp_jval(x: GetTokenResp) -> JVal {
    JVal::Obj(
        seq![
            ("errcode"@, j_opt_i32(x.code)),
            ("errmsg"@, j_opt_str(x.msg)),
            ("access_token"@, j_opt_str(x.access_token)),
            ("expires_in"@, j_opt_u32(x.expires_in)),
        ],
    )
}

/// Two token responses agree in every populated field.
pub open spec fn get_token_resp_eqv(a: GetTokenResp, b: GetTokenResp) -> bool {
    &&& a.code == b.code
    &&& opt_str_eqv(a.msg, b.msg)
    &&& opt_str_eqv(a.access_token, b.access_token)
    &&& a.expires_in == b.expires_in
}

/// Token responses with the same JSON value agree in every field.
pub proof fn lemma_get_token_resp_jval_injective(a: GetTokenResp, b: GetTokenResp)
    requires
        get_token_resp_jval(a) == get_token_resp_jval(b),
    ensures
        get_token_resp_eqv(a, b),
{
    let sa = get_token_resp_jval(a)->Obj_0;
    let sb = get_token_resp_jval(b)->Obj_0;
    assert(sa[0] == sb[0] && sa[1] == sb[1] && sa[2] == sb[2] && sa[3] == sb[3]);
    lemma_j_opt_i32_injective(a.code, b.code);
    lemma_j_opt_str_injective(a.msg, b.msg);
    lemma_j_opt_str_injective(a.access_token, b.access_token);
    lemma_j_opt_u32_injective(a.expires_in, b.expires_in);
}

/// Encodes a token response.
pub fn encode_get_token_resp(x: &GetTokenResp) -> (r: Json)
    ensures
        r@ == get_token_resp_jval(*x),
{
    let mut entries: Vec<(String, Json)> = Vec::new();
    let v0 = enc_opt_i32(&x.code);
    obj_push(&mut entries, "errcode", v0);
    let v1 = enc_opt_str(&x.msg);
    obj_push(&mut entries, "errmsg", v1);
    let v2 = enc_opt_str(&x.access_token);
    obj_push(&mut entries, "access_token", v2);
    let v3 = enc_opt_u32(&x.expires_in);
    obj_push(&mut entries, "expires_in", v3);
    proof {
        assert(jobj_of(entries@) =~= get_token_resp_jval(*x)->Obj_0);
    }
    Json::Obj(entries)
}

/// The shape a token-response value forces on the tree that carries it.
proof fn lemma_get_token_resp_shape(j: Json, x: GetTokenResp)
    requires
        jval_of(j) == get_token_resp_jval(x),
    ensures
        j matches Json::Obj(entries) && {
            &&& entries@.len() == 4
            &&& entries@[0].0@ == "errcode"@ && jval_of(entries@[0].1) == j_opt_i32(x.code)
            &&& entries@[1].0@ == "errmsg"@ && jval_of(entries@[1].1) == j_opt_str(x.msg)
            &&& entries@[2].0@ == "access_token"@ && jval_of(entries@[2].1) == j_opt_str(
                x.access_token,
            )
            &&& entries@[3].0@ == "expires_in"@ && jval_of(entries@[3].1) == j_opt_u32(
                x.expires_in,
            )
        },
{
    match j {
        Json::Obj(entries) => {
            lemma_jobj_len(entries@);
            lemma_jobj_index(entries@, 0);
            lemma_jobj_index(entries@, 1);
            lemma_jobj_index(entries@, 2);
            lemma_jobj_index(entries@, 3);
        },
        _ => {
            assert(false);
        },
    }
}

/// Decodes a token response: succeeds exactly on trees that carry one,
/// and returns the value the tree carries.
pub fn decode_get_token_resp(j: &Json) -> (r: Option<GetTokenResp>)
    ensures
        r matches Some(y) ==> jval_of(*j) == get_token_resp_jval(y),
        forall|x: GetTokenResp| jval_of(*j) == get_token_resp_jval(x) ==> r is Some,
{
    match j {
        Json::Obj(entries) => {
            if entries.len() != 4 {
                proof {
                    assert forall|x: GetTokenResp|
                        jval_of(*j) == get_token_resp_jval(x) implies false by {
                        lemma_get_token_resp_shape(*j, x);
                    }
                }
                return None;
            }
            let keys_ok = str_eq(&entries[0].0, "errcode") && str_eq(&entries[1].0, "errmsg")
                && str_eq(&entries[2].0, "access_token") && str_eq(&entries[3].0, "expires_in");
            if !keys_ok {
                proof {
                    assert forall|x: GetTokenResp|
                        jval_of(*j) == get_token_resp_jval(x) implies false by {
                        lemma_get_token_resp_shape(*j, x);
                    }
                }
                return None;
            }
            let code = dec_opt_i32(&entries[0].1);
            let msg = dec_opt_str(&entries[1].1);
            let access_token = dec_opt_str(&entries[2].1);
            let expires_in = dec_opt_u32(&entries[3].1);
            match (code, msg, access_token, expires_in) {
                (Some(code), Some(msg), Some(access_token), Some(expires_in)) => {
                    let y = GetTokenResp { code, msg, access_token, expires_in };
                    proof {
                        lemma_jobj_len(entries@);
                        lemma_jobj_index(entries@, 0);
                        lemma_jobj_index(entries@, 1);
                        lemma_jobj_index(entries@, 2);
                        lemma_jobj_index(entries@, 3);
                        assert(jobj_of(entries@) =~= get_token_resp_jval(y)->Obj_0);
                    }
                    Some(y)
                },
                _ => {
                    proof {
                        assert forall|x: GetTokenResp|
                            jval_of(*j) == get_token_resp_jval(x) implies false by {
                            lemma_get_token_resp_shape(*j, x);
                        }
                    }
                    None
                },
            }
        },
        _ => {
            proof {
                assert forall|x: GetTokenResp|
                    jval_of(*j) == get_token_resp_jval(x) implies false by {
                    lemma_get_token_resp_shape(*j, x);
                }
            }
            None
        },
    }
}

/// JSON values of a sequence of unsigned numbers.
pub open spec fn u32_seq_jvals(s: Seq<u32>) -> Seq<JVal> {
    s.map_values(|n: u32| JVal::UInt(n as u64))
}

/// JSON value of an array of unsigned numbers.
pub open spec fn j_u32_arr(s: Seq<u32>) -> JVal {
    JVal::Arr(u32_seq_jvals(s))
}

/// Number arrays with the same JSON value are equal.
pub proof fn lemma_j_u32_arr_injective(a: Seq<u32>, b: Seq<u32>)
    requires
        j_u32_arr(a) == j_u32_arr(b),
    ensures
        a == b,
{
    assert(u32_seq_jvals(a).len() == a.len());
    assert(u32_seq_jvals(b).len() == b.len());
    assert forall|k: int| 0 <= k < a.len() implies a[k] == b[k] by {
        assert(u32_seq_jvals(a)[k] == JVal::UInt(a[k] as u64));
        assert(u32_seq_jvals(b)[k] == JVal::UInt(b[k] as u64));
    }
    assert(a =~= b);
}

/// Encodes an array of unsigned numbers.
#[verifier::loop_isolation(false)]
fn enc_u32_arr(v: &Vec<u32>) -> (r: Json)
    ensures
        jval_of(r) == j_u32_arr(v@),
{
    let mut out: Vec<Json> = Vec::new();
    let mut i: usize = 0;
    while i < v.len()
        invariant
            0 <= i <= v@.len(),
            out@.len() == i,
            forall|k: int| 0 <= k < i ==> jval_of(#[trigger] out@[k]) == JVal::UInt(v@[k] as u64),
        decreases v@.len() - i,
    {
        out.push(Json::UInt(v[i] as u64));
        i = i + 1;
    }
    proof {
        lemma_jvals_len(out@);
        assert forall|k: int| 0 <= k < out@.len() implies jvals_of(out@)[k] == u32_seq_jvals(
            v@,
        )[k] by {
            lemma_jvals_index(out@, k);
        }
        assert(jvals_of(out@) =~= u32_seq_jvals(v@));
    }
    Json::Arr(out)
}

/// Decodes an array of unsigned numbers.
#[verifier::loop_isolation(false)]
fn dec_u32_arr(v: &Json) -> (r: Option<Vec<u32>>)
    ensures
        r matches Some(out) ==> jval_of(*v) == j_u32_arr(out@),
        forall|s: Seq<u32>| jval_of(*v) == j_u32_arr(s) ==> r is Some,
{
    match v {
        Json::Arr(items) => {
            let mut out: Vec<u32> = Vec::new();
            let mut i: usize = 0;
            while i < items.len()
                invariant
                    0 <= i <= items@.len(),
                    out@.len() == i,
                    forall|k: int|
                        0 <= k < i ==> jval_of(items@[k]) == JVal::UInt(
                            (#[trigger] out@[k]) as u64,
                        ),
                decreases items@.len() - i,
            {
                match dec_u32(&items[i]) {
                    Some(n) => {
                        out.push(n);
                    },
                    None => {
                        proof {
                            assert forall|s: Seq<u32>|
                                jval_of(*v) == j_u32_arr(s) implies false by {
                                lemma_jvals_len(items@);
                                lemma_jvals_index(items@, i as int);
                                assert(u32_seq_jvals(s).len() == s.len());
                                assert(u32_seq_jvals(s)[i as int] == JVal::UInt(
                                    s[i as int] as u64,
                                ));
                                assert(jval_of(items@[i as int]) == JVal::UInt(
                                    s[i as int] as u64,
                                ));
                            }
                        }
                        return None;
                    },
                }
                i = i + 1;
            }
            proof {
                lemma_jvals_len(items@);
                assert forall|k: int| 0 <= k < items@.len() implies jvals_of(items@)[k]
                    == u32_seq_jvals(out@)[k] by {
                    lemma_jvals_index(items@, k);
                }
                assert(jvals_of(items@) =~= u32_seq_jvals(out@));
            }
            Some(out)
        },
        _ => {
            proof {
                assert forall|s: Seq<u32>| jval_of(*v) == j_u32_arr(s) implies false by {}
            }
            None
        },
    }
}

/// Values agreeing with one tag of the tag list.
pub open spec fn tag_jval(x: Tag) -> JVal {
    JVal::Obj(seq![("tagid"@, JVal::UInt(x.id as u64)), ("tagname"@, JVal::Str(x.name@))])
}

/// Two tags agree in every field.
pub open spec fn tag_eqv(a: Tag, b: Tag) -> bool {
    a.id == b.id && a.name@ == b.name@
}

/// Tags with the same JSON value agree in every field.
pub proof fn lemma_tag_jval_injective(a: Tag, b: Tag)
    requires
        tag_jval(a) == tag_jval(b),
    ensures
        tag_eqv(a, b),
{
    let sa = tag_jval(a)->Obj_0;
    let sb = tag_jval(b)->Obj_0;
    assert(sa[0] == sb[0] && sa[1] == sb[1]);
}

/// Encodes a tag.
pub fn encode_tag(x: &Tag) -> (r: Json)
    ensures
        r@ == tag_jval(*x),
{
    let mut entries: Vec<(String, Json)> = Vec::new();
    obj_push(&mut entries, "tagid", Json::UInt(x.id as u64));
    obj_push(&mut entries, "tagname", Json::Str(x.name.clone()));
    proof {
        assert(jobj_of(entries@) =~= tag_jval(*x)->Obj_0);
    }
    Json::Obj(entries)
}

/// The shape a tag value forces on the tree that carries it.
proof fn lemma_tag_shape(j: Json, x: Tag)
    requires
        jval_of(j) == tag_jval(x),
    ensures
        j matches Json::Obj(entries) && {
            &&& entries@.len() == 2
            &&& entries@[0].0@ == "tagid"@ && jval_of(entries@[0].1) == JVal::UInt(x.id as u64)
            &&& entries@[1].0@ == "tagname"@ && jval_of(entries@[1].1) == JVal::Str(x.name@)
        },
{
    match j {
        Json::Obj(entries) => {
            lemma_jobj_len(entries@);
            lemma_jobj_index(entries@, 0);
            lemma_jobj_index(entries@, 1);
        },
        _ => {
            assert(false);
        },
    }
}

/// Decodes a tag.
pub fn decode_tag(j: &Json) -> (r: Option<Tag>)
    ensures
        r matches Some(y) ==> jval_of(*j) == tag_jval(y),
        forall|x: Tag| jval_of(*j) == tag_jval(x) ==> r is Some,
{
    match j {
        Json::Obj(entries) => {
            if entries.len() != 2 || !str_eq(&entries[0].0, "tagid") || !str_eq(
                &entries[1].0,
                "tagname",
            ) {
                proof {
                    assert forall|x: Tag| jval_of(*j) == tag_jval(x) implies false by {
                        lemma_tag_shape(*j, x);
                    }
                }
                return None;
            }
            let id = dec_u32(&entries[0].1);
            let name = dec_string(&entries[1].1);
            match (id, name) {
                (Some(id), Some(name)) => {
                    let y = Tag { id, name };
                    proof {
                        lemma_jobj_len(entries@);
                        lemma_jobj_index(entries@, 0);
                        lemma_jobj_index(entries@, 1);
                        assert(jobj_of(entries@) =~= tag_jval(y)->Obj_0);
                    }
                    Some(y)
                },
                _ => {
                    proof {
                        assert forall|x: Tag| jval_of(*j) == tag_jval(x) implies false by {
                            lemma_tag_shape(*j, x);
                        }
                    }
                    None
                },
            }
        },
        _ => {
            proof {
                assert forall|x: Tag| jval_of(*j) == tag_jval(x) implies false by {
                    lemma_tag_shape(*j, x);
                }
            }
            None
        },
    }
}

/// The encode-decode round trip of a tag loses nothing.
pub proof fn lemma_tag_roundtrip(x: Tag, r: Option<Tag>)
    requires
        r matches Some(y) ==> tag_jval(x) == tag_jval(y),
        forall|z: Tag| tag_jval(x) == tag_jval(z) ==> r is Some,
    ensures
        r matches Some(y) && tag_eqv(y, x),
{
    assert(tag_jval(x) == tag_jval(x));
    lemma_tag_jval_injective(r->0, x);
}

/// Values agreeing with one member of a tag.
pub open spec fn tag_member_jval(x: TagMember) -> JVal {
    JVal::Obj(seq![("userid"@, JVal::Str(x.id@)), ("name"@, JVal::Str(x.name@))])
}

/// Two tag members agree in every field.
pub open spec fn tag_member_eqv(a: TagMember, b: TagMember) -> bool {
    a.id@ == b.id@ && a.name@ == b.name@
}

/// Tag members with the same JSON value agree in every field.
pub proof fn lemma_tag_member_jval_injective(a: TagMember, b: TagMember)
    requires
        tag_member_jval(a) == tag_member_jval(b),
    ensures
        tag_member_eqv(a, b),
{
    let sa = tag_member_jval(a)->Obj_0;
    let sb = tag_member_jval(b)->Obj_0;
    assert(sa[0] == sb[0] && sa[1] == sb[1]);
}

/// Encodes a tag member.
pub fn encode_tag_member(x: &TagMember) -> (r: Json)
    ensures
        r@ == tag_member_jval(*x),
{
    let mut entries: Vec<(String, Json)> = Vec::new();
    obj_push(&mut entries, "userid", Json::Str(x.id.clone()));
    obj_push(&mut entries, "name", Json::Str(x.name.clone()));
    proof {
        assert(jobj_of(entries@) =~= tag_member_jval(*x)->Obj_0);
    }
    Json::Obj(entries)
}

/// The shape a tag-member value forces on the tree that carries it.
proof fn lemma_tag_member_shape(j: Json, x: TagMember)
    requires
        jval_of(j) == tag_member_jval(x),
    ensures
        j matches Json::Obj(entries) && {
            &&& entries@.len() == 2
            &&& entries@[0].0@ == "userid"@ && jval_of(entries@[0].1) == JVal::Str(x.id@)
            &&& entries@[1].0@ == "name"@ && jval_of(entries@[1].1) == JVal::Str(x.name@)
        },
{
    match j {
        Json::Obj(entries) => {
            lemma_jobj_len(entries@);
            lemma_jobj_index(entries@, 0);
            lemma_jobj_index(entries@, 1);
        },
        _ => {
            assert(false);
        },
    }
}

/// Decodes a tag member.
pub fn decode_tag_member(j: &Json) -> (r: Option<TagMember>)
    ensures
        r matches Some(y) ==> jval_of(*j) == tag_member_jval(y),
        forall|x: TagMember| jval_of(*j) == tag_member_jval(x) ==> r is Some,
{
    match j {
        Json::Obj(entries) => {
            if entries.len() != 2 || !str_eq(&entries[0].0, "userid") || !str_eq(
                &entries[1].0,
                "name",
            ) {
                proof {
                    assert forall|x: TagMember| jval_of(*j) == tag_member_jval(x) implies false by {
                        lemma_tag_member_shape(*j, x);
                    }
                }
                return None;
            }
            let id = dec_string(&entries[0].1);
            let name = dec_string(&entries[1].1);
            match (id, name) {
                (Some(id), Some(name)) => {
                    let y = TagMember { id, name };
                    proof {
                        lemma_jobj_len(entries@);
                        lemma_jobj_index(entries@, 0);
                        lemma_jobj_index(entries@, 1);
                        assert(jobj_of(entries@) =~= tag_member_jval(y)->Obj_0);
                    }
                    Some(y)
                },
                _ => {
                    proof {
                        assert forall|x: TagMember|
                            jval_of(*j) == tag_member_jval(x) implies false by {
                            lemma_tag_member_shape(*j, x);
                        }
                    }
                    None
                },
            }
        },
        _ => {
            proof {
                assert forall|x: TagMember| jval_of(*j) == tag_member_jval(x) implies false by {
                    lemma_tag_member_shape(*j, x);
                }
            }
            None
        },
    }
}

/// The encode-decode round trip of a tag member loses nothing.
pub proof fn lemma_tag_member_roundtrip(x: TagMember, r: Option<TagMember>)
    requires
        r matches Some(y) ==> tag_member_jval(x) == tag_member_jval(y),
        forall|z: TagMember| tag_member_jval(x) == tag_member_jval(z) ==> r is Some,
    ensures
        r matches Some(y) && tag_member_eqv(y, x),
{
    assert(tag_member_jval(x) == tag_member_jval(x));
    lemma_tag_member_jval_injective(r->0, x);
}

/// JSON values of a sequence of tag members.
pub open spec fn tag_member_seq_jvals(s: Seq<TagMember>) -> Seq<JVal> {
    s.map_values(|m: TagMember| tag_member_jval(m))
}

/// Two tag-member sequences agree pointwise.
pub open spec fn tag_member_seq_eqv(a: Seq<TagMember>, b: Seq<TagMember>) -> bool {
    a.len() == b.len() && forall|k: int|
        0 <= k < a.len() ==> tag_member_eqv(#[trigger] a[k], b[k])
}

/// Tag-member sequences with the same JSON values agree pointwise.
pub proof fn lemma_tag_member_seq_jvals_injective(a: Seq<TagMember>, b: Seq<TagMember>)
    requires
        tag_member_seq_jvals(a) == tag_member_seq_jvals(b),
    ensures
        tag_member_seq_eqv(a, b),
{
    assert(tag_member_seq_jvals(a).len() == a.len());
    assert(tag_member_seq_jvals(b).len() == b.len());
    assert forall|k: int| 0 <= k < a.len() implies tag_member_eqv(#[trigger] a[k], b[k]) by {
        assert(tag_member_seq_jvals(a)[k] == tag_member_jval(a[k]));
        assert(tag_member_seq_jvals(b)[k] == tag_member_jval(b[k]));
        lemma_tag_member_jval_injective(a[k], b[k]);
    }
}

/// Encodes an array of tag members.
#[verifier::loop_isolation(false)]
fn enc_tag_member_arr(v: &Vec<TagMember>) -> (r: Json)
    ensures
        jval_of(r) == JVal::Arr(tag_member_seq_jvals(v@)),
{
    let mut out: Vec<Json> = Vec::new();
    let mut i: usize = 0;
    while i < v.len()
        invariant
            0 <= i <= v@.len(),
            out@.len() == i,
            forall|k: int| 0 <= k < i ==> jval_of(#[trigger] out@[k]) == tag_member_jval(v@[k]),
        decreases v@.len() - i,
    {
        let e = encode_tag_member(&v[i]);
        out.push(e);
        i = i + 1;
    }
    proof {
        lemma_jvals_len(out@);
        assert forall|k: int| 0 <= k < out@.len() implies jvals_of(out@)[k]
            == tag_member_seq_jvals(v@)[k] by {
            lemma_jvals_index(out@, k);
        }
        assert(jvals_of(out@) =~= tag_member_seq_jvals(v@));
    }
    Json::Arr(out)
}

/// Decodes an array of tag members.
#[verifier::loop_isolation(false)]
fn dec_tag_member_arr(v: &Json) -> (r: Option<Vec<TagMember>>)
    ensures
        r matches Some(out) ==> jval_of(*v) == JVal::Arr(tag_member_seq_jvals(out@)),
        forall|s: Seq<TagMember>| jval_of(*v) == JVal::Arr(tag_member_seq_jvals(s)) ==> r is Some,
{
    match v {
        Json::Arr(items) => {
            let mut out: Vec<TagMember> = Vec::new();
            let mut i: usize = 0;
            while i < items.len()
                invariant
                    0 <= i <= items@.len(),
                    out@.len() == i,
                    forall|k: int|
                        0 <= k < i ==> jval_of(items@[k]) == tag_member_jval(#[trigger] out@[k]),
                decreases items@.len() - i,
            {
                match decode_tag_member(&items[i]) {
                    Some(m) => {
                        out.push(m);
                    },
                    None => {
                        proof {
                            assert forall|s: Seq<TagMember>|
                                jval_of(*v) == JVal::Arr(tag_member_seq_jvals(s)) implies false by {
                                lemma_jvals_len(items@);
                                lemma_jvals_index(items@, i as int);
                                assert(tag_member_seq_jvals(s).len() == s.len());
                                assert(tag_member_seq_jvals(s)[i as int] == tag_member_jval(
                                    s[i as int],
                                ));
                                assert(jval_of(items@[i as int]) == tag_member_jval(s[i as int]));
                            }
                        }
                        return None;
                    },
                }
                i = i + 1;
            }
            proof {
                lemma_jvals_len(items@);
                assert forall|k: int| 0 <= k < items@.len() implies jvals_of(items@)[k]
                    == tag_member_seq_jvals(out@)[k] by {
                    lemma_jvals_index(items@, k);
                }
                assert(jvals_of(items@) =~= tag_member_seq_jvals(out@));
            }
            Some(out)
        },
        _ => {
            proof {
                assert forall|s: Seq<TagMember>|
                    jval_of(*v) == JVal::Arr(tag_member_seq_jvals(s)) implies false by {}
            }
            None
        },
    }
}

/// Values agreeing with a tag-members response body.
pub open spec fn tag_members_resp_jval(x: TagMembersResp) -> JVal {
    JVal::Obj(
        seq![
            ("errcode"@, j_opt_i32(x.code)),
            ("errmsg"@, j_opt_str(x.msg)),
            ("userlist"@, JVal::Arr(tag_member_seq_jvals(x.members@))),
            ("partylist"@, j_u32_arr(x.department_list@)),
            ("tagname"@, JVal::Str(x.tag_name@)),
        ],
    )
}

/// Two tag-members responses agree in every populated field.
pub open spec fn tag_members_resp_eqv(a: TagMembersResp, b: TagMembersResp) -> bool {
    &&& a.code == b.code
    &&& opt_str_eqv(a.msg, b.msg)
    &&& tag_member_seq_eqv(a.members@, b.members@)
    &&& a.department_list@ == b.department_list@
    &&& a.tag_name@ == b.tag_name@
}

/// Tag-members responses with the same JSON value agree in every
/// populated field.
pub proof fn lemma_tag_members_resp_jval_injective(a: TagMembersResp, b: TagMembersResp)
    requires
        tag_members_resp_jval(a) == tag_members_resp_jval(b),
    ensures
        tag_members_resp_eqv(a, b),
{
    let sa = tag_members_resp_jval(a)->Obj_0;
    let sb = tag_members_resp_jval(b)->Obj_0;
    assert(sa[0] == sb[0] && sa[1] == sb[1] && sa[2] == sb[2] && sa[3] == sb[3] && sa[4] == sb[4]);
    lemma_j_opt_i32_injective(a.code, b.code);
    lemma_j_opt_str_injective(a.msg, b.msg);
    lemma_tag_member_seq_jvals_injective(a.members@, b.members@);
    lemma_j_u32_arr_injective(a.department_list@, b.department_list@);
}

/// Encodes a tag-members response.
pub fn encode_tag_members_resp(x: &TagMembersResp) -> (r: Json)
    ensures
        r@ == tag_members_resp_jval(*x),
{
    let mut entries: Vec<(String, Json)> = Vec::new();
    let v0 = enc_opt_i32(&x.code);
    obj_push(&mut entries, "errcode", v0);
    let v1 = enc_opt_str(&x.msg);
    obj_push(&mut entries, "errmsg", v1);
    let v2 = enc_tag_member_arr(&x.members);
    obj_push(&mut entries, "userlist", v2);
    let v3 = enc_u32_arr(&x.department_list);
    obj_push(&mut entries, "partylist", v3);
    obj_push(&mut entries, "tagname", Json::Str(x.tag_name.clone()));
    proof {
        assert(jobj_of(entries@) =~= tag_members_resp_jval(*x)->Obj_0);
    }
    Json::Obj(entries)
}

/// The shape a tag-members response forces on the tree that carries it.
proof fn lemma_tag_members_resp_shape(j: Json, x: TagMembersResp)
    requires
        jval_of(j) == tag_members_resp_jval(x),
    ensures
        j matches Json::Obj(entries) && {
            &&& entries@.len() == 5
            &&& entries@[0].0@ == "errcode"@ && jval_of(entries@[0].1) == j_opt_i32(x.code)
            &&& entries@[1].0@ == "errmsg"@ && jval_of(entries@[1].1) == j_opt_str(x.msg)
            &&& entries@[2].0@ == "userlist"@ && jval_of(entries@[2].1) == JVal::Arr(
                tag_member_seq_jvals(x.members@),
            )
            &&& entries@[3].0@ == "partylist"@ && jval_of(entries@[3].1) == j_u32_arr(
                x.department_list@,
            )
            &&& entries@[4].0@ == "tagname"@ && jval_of(entries@[4].1) == JVal::Str(x.tag_name@)
        },
{
    match j {
        Json::Obj(entries) => {
            lemma_jobj_len(entries@);
            lemma_jobj_index(entries@, 0);
            lemma_jobj_index(entries@, 1);
            lemma_jobj_index(entries@, 2);
            lemma_jobj_index(entries@, 3);
            lemma_jobj_index(entries@, 4);
        },
        _ => {
            assert(false);
        },
    }
}

/// Decodes a tag-members response.
pub fn decode_tag_members_resp(j: &Json) -> (r: Option<TagMembersResp>)
    ensures
        r matches Some(y) ==> jval_of(*j) == tag_members_resp_jval(y),
        forall|x: TagMembersResp| jval_of(*j) == tag_members_resp_jval(x) ==> r is Some,
{
    match j {
        Json::Obj(entries) => {
            if entries.len() != 5 || !str_eq(&entries[0].0, "errcode") || !str_eq(
                &entries[1].0,
                "errmsg",
            ) || !str_eq(&entries[2].0, "userlist") || !str_eq(&entries[3].0, "partylist")
                || !str_eq(&entries[4].0, "tagname") {
                proof {
                    assert forall|x: TagMembersResp|
                        jval_of(*j) == tag_members_resp_jval(x) implies false by {
                        lemma_tag_members_resp_shape(*j, x);
                    }
                }
                return None;
            }
            let code = dec_opt_i32(&entries[0].1);
            let msg = dec_opt_str(&entries[1].1);
            let members = dec_tag_member_arr(&entries[2].1);
            let department_list = dec_u32_arr(&entries[3].1);
            let tag_name = dec_string(&entries[4].1);
            match (code, msg, members, department_list, tag_name) {
                (Some(code), Some(msg), Some(members), Some(department_list), Some(tag_name)) => {
                    let y = TagMembersResp { code, msg, members, department_list, tag_name };
                    proof {
                        lemma_jobj_len(entries@);
                        lemma_jobj_index(entries@, 0);
                        lemma_jobj_index(entries@, 1);
                        lemma_jobj_index(entries@, 2);
                        lemma_jobj_index(entries@, 3);
                        lemma_jobj_index(entries@, 4);
                        assert(jobj_of(entries@) =~= tag_members_resp_jval(y)->Obj_0);
                    }
                    Some(y)
                },
                _ => {
                    proof {
                        assert forall|x: TagMembersResp|
                            jval_of(*j) == tag_members_resp_jval(x) implies false by {
                            lemma_tag_members_resp_shape(*j, x);
                        }
                    }
                    None
                },
            }
        },
        _ => {
            proof {
                assert forall|x: TagMembersResp|
                    jval_of(*j) == tag_members_resp_jval(x) implies false by {
                    lemma_tag_members_resp_shape(*j, x);
                }
            }
            None
        },
    }
}

/// The encode-decode round trip of a tag-members response loses
/// nothing.
pub proof fn lemma_tag_members_resp_roundtrip(x: TagMembersResp, r: Option<TagMembersResp>)
    requires
        r matches Some(y) ==> tag_members_resp_jval(x) == tag_members_resp_jval(y),
        forall|z: TagMembersResp| tag_members_resp_jval(x) == tag_members_resp_jval(z) ==> r
            is Some,
    ensures
        r matches Some(y) && tag_members_resp_eqv(y, x),
{
    assert(tag_members_resp_jval(x) == tag_members_resp_jval(x));
    lemma_tag_members_resp_jval_injective(r->0, x);
}

/// Any decode that meets the decoder's contract, applied to the
/// encoding of a token response, yields a value equal to the original
/// in every field: the encode-decode round trip loses nothing.
pub proof fn lemma_get_token_resp_roundtrip(x: GetTokenResp, r: Option<GetTokenResp>)
    requires
        r matches Some(y) ==> get_token_resp_jval(x) == get_token_resp_jval(y),
        forall|z: GetTokenResp| get_token_resp_jval(x) == get_token_resp_jval(z) ==> r is Some,
    ensures
        r matches Some(y) && get_token_resp_eqv(y, x),
{
    assert(get_token_resp_jval(x) == get_token_resp_jval(x));
    let y = r->0;
    lemma_get_token_resp_jval_injective(y, x);
}

/// Values agreeing with one agent of the agent list.
pub open spec fn agent_basic_jval(x: AgentBasic) -> JVal {
    JVal::Obj(
        seq![
            ("agentid"@, JVal::UInt(x.id as u64)),
            ("name"@, JVal::Str(x.name@)),
            ("square_logo_url"@, j_opt_str(x.square_logo_url)),
            ("round_logo_url"@, j_opt_str(x.round_logo_url)),
        ],
    )
}

/// Two agents agree in every populated field.
pub open spec fn agent_basic_eqv(a: AgentBasic, b: AgentBasic) -> bool {
    &&& a.id == b.id
    &&& a.name@ == b.name@
    &&& opt_str_eqv(a.square_logo_url, b.square_logo_url)
    &&& opt_str_eqv(a.round_logo_url, b.round_logo_url)
}

/// Agents with the same JSON value agree in every populated field.
pub proof fn lemma_agent_basic_jval_injective(a: AgentBasic, b: AgentBasic)
    requires
        agent_basic_jval(a) == agent_basic_jval(b),
    ensures
        agent_basic_eqv(a, b),
{
    let sa = agent_basic_jval(a)->Obj_0;
    let sb = agent_basic_jval(b)->Obj_0;
    assert(sa[0] == sb[0] && sa[1] == sb[1] && sa[2] == sb[2] && sa[3] == sb[3]);
    lemma_j_opt_str_injective(a.square_logo_url, b.square_logo_url);
    lemma_j_opt_str_injective(a.round_logo_url, b.round_logo_url);
}

/// Encodes an agent.
pub fn encode_agent_basic(x: &AgentBasic) -> (r: Json)
    ensures
        r@ == agent_basic_jval(*x),
{
    let mut entries: Vec<(String, Json)> = Vec::new();
    obj_push(&mut entries, "agentid", Json::UInt(x.id as u64));
    obj_push(&mut entries, "name", Json::Str(x.name.clone()));
    let v2 = enc_opt_str(&x.square_logo_url);
    obj_push(&mut entries, "square_logo_url", v2);
    let v3 = enc_opt_str(&x.round_logo_url);
    obj_push(&mut entries, "round_logo_url", v3);
    proof {
        assert(jobj_of(entries@) =~= agent_basic_jval(*x)->Obj_0);
    }
    Json::Obj(entries)
}

/// The shape an agent value forces on the tree that carries it.
proof fn lemma_agent_basic_shape(j: Json, x: AgentBasic)
    requires
        jval_of(j) == agent_basic_jval(x),
    ensures
        j matches Json::Obj(entries) && {
            &&& entries@.len() == 4
            &&& entries@[0].0@ == "agentid"@ && jval_of(entries@[0].1) == JVal::UInt(x.id as u64)
            &&& entries@[1].0@ == "name"@ && jval_of(entries@[1].1) == JVal::Str(x.name@)
            &&& entries@[2].0@ == "square_logo_url"@ && jval_of(entries@[2].1) == j_opt_str(
                x.square_logo_url,
            )
            &&& entries@[3].0@ == "round_logo_url"@ && jval_of(entries@[3].1) == j_opt_str(
                x.round_logo_url,
            )
        },
{
    match j {
        Json::Obj(entries) => {
            lemma_jobj_len(entries@);
            lemma_jobj_index(entries@, 0);
            lemma_jobj_index(entries@, 1);
            lemma_jobj_index(entries@, 2);
            lemma_jobj_index(entries@, 3);
        },
        _ => {
            assert(false);
        },
    }
}

/// Decodes an agent.
pub fn decode_agent_basic(j: &Json) -> (r: Option<AgentBasic>)
    ensures
        r matches Some(y) ==> jval_of(*j) == agent_basic_jval(y),
        forall|x: AgentBasic| jval_of(*j) == agent_basic_jval(x) ==> r is Some,
{
    match j {
        Json::Obj(entries) => {
            if entries.len() != 4 || !str_eq(&entries[0].0, "agentid") || !str_eq(
                &entries[1].0,
                "name",
            ) || !str_eq(&entries[2].0, "square_logo_url") || !str_eq(
                &entries[3].0,
                "round_logo_url",
            ) {
                proof {
                    assert forall|x: AgentBasic|
                        jval_of(*j) == agent_basic_jval(x) implies false by {
                        lemma_agent_basic_shape(*j, x);
                    }
                }
                return None;
            }
            let id = dec_u32(&entries[0].1);
            let name = dec_string(&entries[1].1);
            let square_logo_url = dec_opt_str(&entries[2].1);
            let round_logo_url = dec_opt_str(&entries[3].1);
            match (id, name, square_logo_url, round_logo_url) {
                (Some(id), Some(name), Some(square_logo_url), Some(round_logo_url)) => {
                    let y = AgentBasic { id, name, square_logo_url, round_logo_url };
                    proof {
                        lemma_jobj_len(entries@);
                        lemma_jobj_index(entries@, 0);
                        lemma_jobj_index(entries@, 1);
                        lemma_jobj_index(entries@, 2);
                        lemma_jobj_index(entries@, 3);
                        assert(jobj_of(entries@) =~= agent_basic_jval(y)->Obj_0);
                    }
                    Some(y)
                },
                _ => {
                    proof {
                        assert forall|x: AgentBasic|
                            jval_of(*j) == agent_basic_jval(x) implies false by {
                            lemma_agent_basic_shape(*j, x);
                        }
                    }
                    None
                },
            }
        },
        _ => {
            proof {
                assert forall|x: AgentBasic| jval_of(*j) == agent_basic_jval(x) implies false by {
                    lemma_agent_basic_shape(*j, x);
                }
            }
            None
        },
    }
}

/// The encode-decode round trip of an agent loses nothing.
pub proof fn lemma_agent_basic_roundtrip(x: AgentBasic, r: Option<AgentBasic>)
    requires
        r matches Some(y) ==> agent_basic_jval(x) == agent_basic_jval(y),
        forall|z: AgentBasic| agent_basic_jval(x) == agent_basic_jval(z) ==> r is Some,
    ensures
        r matches Some(y) && agent_basic_eqv(y, x),
{
    assert(agent_basic_jval(x) == agent_basic_jval(x));
    lemma_agent_basic_jval_injective(r->0, x);
}

/// JSON values of a sequence of agents.
pub open spec fn agent_basic_seq_jvals(s: Seq<AgentBasic>) -> Seq<JVal> {
    s.map_values(|a: AgentBasic| agent_basic_jval(a))
}

/// Two agent sequences agree pointwise.
pub open spec fn agent_basic_seq_eqv(a: Seq<AgentBasic>, b: Seq<AgentBasic>) -> bool {
    a.len() == b.len() && forall|k: int|
        0 <= k < a.len() ==> agent_basic_eqv(#[trigger] a[k], b[k])
}

/// Agent sequences with the same JSON values agree pointwise.
pub proof fn lemma_agent_basic_seq_jvals_injective(a: Seq<AgentBasic>, b: Seq<AgentBasic>)
    requires
        agent_basic_seq_jvals(a) == agent_basic_seq_jvals(b),
    ensures
        agent_basic_seq_eqv(a, b),
{
    assert(agent_basic_seq_jvals(a).len() == a.len());
    assert(agent_basic_seq_jvals(b).len() == b.len());
    assert forall|k: int| 0 <= k < a.len() implies agent_basic_eqv(#[trigger] a[k], b[k]) by {
        assert(agent_basic_seq_jvals(a)[k] == agent_basic_jval(a[k]));
        assert(agent_basic_seq_jvals(b)[k] == agent_basic_jval(b[k]));
        lemma_agent_basic_jval_injective(a[k], b[k]);
    }
}

/// Encodes an array of agents.
#[verifier::loop_isolation(false)]
fn enc_agent_basic_arr(v: &Vec<AgentBasic>) -> (r: Json)
    ensures
        jval_of(r) == JVal::Arr(agent_basic_seq_jvals(v@)),
{
    let mut out: Vec<Json> = Vec::new();
    let mut i: usize = 0;
    while i < v.len()
        invariant
            0 <= i <= v@.len(),
            out@.len() == i,
            forall|k: int| 0 <= k < i ==> jval_of(#[trigger] out@[k]) == agent_basic_jval(v@[k]),
        decreases v@.len() - i,
    {
        let e = encode_agent_basic(&v[i]);
        out.push(e);
        i = i + 1;
    }
    proof {
        lemma_jvals_len(out@);
        assert forall|k: int| 0 <= k < out@.len() implies jvals_of(out@)[k]
            == agent_basic_seq_jvals(v@)[k] by {
            lemma_jvals_index(out@, k);
        }
        assert(jvals_of(out@) =~= agent_basic_seq_jvals(v@));
    }
    Json::Arr(out)
}

/// Decodes an array of agents.
#[verifier::loop_isolation(false)]
fn dec_agent_basic_arr(v: &Json) -> (r: Option<Vec<AgentBasic>>)
    ensures
        r matches Some(out) ==> jval_of(*v) == JVal::Arr(agent_basic_seq_jvals(out@)),
        forall|s: Seq<AgentBasic>| jval_of(*v) == JVal::Arr(agent_basic_seq_jvals(s)) ==> r
            is Some,
{
    match v {
        Json::Arr(items) => {
            let mut out: Vec<AgentBasic> = Vec::new();
            let mut i: usize = 0;
            while i < items.len()
                invariant
                    0 <= i <= items@.len(),
                    out@.len() == i,
                    forall|k: int|
                        0 <= k < i ==> jval_of(items@[k]) == agent_basic_jval(#[trigger] out@[k]),
                decreases items@.len() - i,
            {
                match decode_agent_basic(&items[i]) {
                    Some(m) => {
                        out.push(m);
                    },
                    None => {
                        proof {
                            assert forall|s: Seq<AgentBasic>|
                                jval_of(*v) == JVal::Arr(
                                    agent_basic_seq_jvals(s),
                                ) implies false by {
                                lemma_jvals_len(items@);
                                lemma_jvals_index(items@, i as int);
                                assert(agent_basic_seq_jvals(s).len() == s.len());
                                assert(agent_basic_seq_jvals(s)[i as int] == agent_basic_jval(
                                    s[i as int],
                                ));
                                assert(jval_of(items@[i as int]) == agent_basic_jval(s[i as int]));
                            }
                        }
                        return None;
                    },
                }
                i = i + 1;
            }
            proof {
                lemma_jvals_len(items@);
                assert forall|k: int| 0 <= k < items@.len() implies jvals_of(items@)[k]
                    == agent_basic_seq_jvals(out@)[k] by {
                    lemma_jvals_index(items@, k);
                }
                assert(jvals_of(items@) =~= agent_basic_seq_jvals(out@));
            }
            Some(out)
        },
        _ => {
            proof {
                assert forall|s: Seq<AgentBasic>|
                    jval_of(*v) == JVal::Arr(agent_basic_seq_jvals(s)) implies false by {}
            }
            None
        },
    }
}

/// Values agreeing with an agent-list response body.
pub open spec fn agent_list_resp_jval(x: AgentListResp) -> JVal {
    JVal::Obj(
        seq![
            ("errcode"@, j_opt_i32(x.code)),
            ("errmsg"@, j_opt_str(x.msg)),
            ("agentlist"@, JVal::Arr(agent_basic_seq_jvals(x.agent_list@))),
        ],
    )
}

/// Two agent-list responses agree in every populated field.
pub open spec fn agent_list_resp_eqv(a: AgentListResp, b: AgentListResp) -> bool {
    &&& a.code == b.code
    &&& opt_str_eqv(a.msg, b.msg)
    &&& agent_basic_seq_eqv(a.agent_list@, b.agent_list@)
}

/// Agent-list responses with the same JSON value agree in every
/// populated field.
pub proof fn lemma_agent_list_resp_jval_injective(a: AgentListResp, b: AgentListResp)
    requires
        agent_list_resp_jval(a) == agent_list_resp_jval(b),
    ensures
        agent_list_resp_eqv(a, b),
{
    let sa = agent_list_resp_jval(a)->Obj_0;
    let sb = agent_list_resp_jval(b)->Obj_0;
    assert(sa[0] == sb[0] && sa[1] == sb[1] && sa[2] == sb[2]);
    lemma_j_opt_i32_injective(a.code, b.code);
    lemma_j_opt_str_injective(a.msg, b.msg);
    lemma_agent_basic_seq_jvals_injective(a.agent_list@, b.agent_list@);
}

/// Encodes an agent-list response.
pub fn encode_agent_list_resp(x: &AgentListResp) -> (r: Json)
    ensures
        r@ == agent_list_resp_jval(*x),
{
    let mut entries: Vec<(String, Json)> = Vec::new();
    let v0 = enc_opt_i32(&x.code);
    obj_push(&mut entries, "errcode", v0);
    let v1 = enc_opt_str(&x.msg);
    obj_push(&mut entries, "errmsg", v1);
    let v2 = enc_agent_basic_arr(&x.agent_list);
    obj_push(&mut entries, "agentlist", v2);
    proof {
        assert(jobj_of(entries@) =~= agent_list_resp_jval(*x)->Obj_0);
    }
    Json::Obj(entries)
}

/// The shape an agent-list response forces on the tree that carries it.
proof fn lemma_agent_list_resp_shape(j: Json, x: AgentListResp)
    requires
        jval_of(j) == agent_list_resp_jval(x),
    ensures
        j matches Json::Obj(entries) && {
            &&& entries@.len() == 3
            &&& entries@[0].0@ == "errcode"@ && jval_of(entries@[0].1) == j_opt_i32(x.code)
            &&& entries@[1].0@ == "errmsg"@ && jval_of(entries@[1].1) == j_opt_str(x.msg)
            &&& entries@[2].0@ == "agentlist"@ && jval_of(entries@[2].1) == JVal::Arr(
                agent_basic_seq_jvals(x.agent_list@),
            )
        },
{
    match j {
        Json::Obj(entries) => {
            lemma_jobj_len(entries@);
            lemma_jobj_index(entries@, 0);
            lemma_jobj_index(entries@, 1);
            lemma_jobj_index(entries@, 2);
        },
        _ => {
            assert(false);
        },
    }
}

/// Decodes an agent-list response.
pub fn decode_agent_list_resp(j: &Json) -> (r: Option<AgentListResp>)
    ensures
        r matches Some(y) ==> jval_of(*j) == agent_list_resp_jval(y),
        forall|x: AgentListResp| jval_of(*j) == agent_list_resp_jval(x) ==> r is Some,
{
    match j {
        Json::Obj(entries) => {
            if entries.len() != 3 || !str_eq(&entries[0].0, "errcode") || !str_eq(
                &entries[1].0,
                "errmsg",
            ) || !str_eq(&entries[2].0, "agentlist") {
                proof {
                    assert forall|x: AgentListResp|
                        jval_of(*j) == agent_list_resp_jval(x) implies false by {
                        lemma_agent_list_resp_shape(*j, x);
                    }
                }
                return None;
            }
            let code = dec_opt_i32(&entries[0].1);
            let msg = dec_opt_str(&entries[1].1);
            let agent_list = dec_agent_basic_arr(&entries[2].1);
            match (code, msg, agent_list) {
                (Some(code), Some(msg), Some(agent_list)) => {
                    let y = AgentListResp { code, msg, agent_list };
                    proof {
                        lemma_jobj_len(entries@);
                        lemma_jobj_index(entries@, 0);
                        lemma_jobj_index(entries@, 1);
                        lemma_jobj_index(entries@, 2);
                        assert(jobj_of(entries@) =~= agent_list_resp_jval(y)->Obj_0);
                    }
                    Some(y)
                },
                _ => {
                    proof {
                        assert forall|x: AgentListResp|
                            jval_of(*j) == agent_list_resp_jval(x) implies false by {
                            lemma_agent_list_resp_shape(*j, x);
                        }
                    }
                    None
                },
            }
        },
        _ => {
            proof {
                assert forall|x: AgentListResp|
                    jval_of(*j) == agent_list_resp_jval(x) implies false by {
                    lemma_agent_list_resp_shape(*j, x);
                }
            }
            None
        },
    }
}

/// The encode-decode round trip of an agent-list response loses
/// nothing.
pub proof fn lemma_agent_list_resp_roundtrip(x: AgentListResp, r: Option<AgentListResp>)
    requires
        r matches Some(y) ==> agent_list_resp_jval(x) == agent_list_resp_jval(y),
        forall|z: AgentListResp| agent_list_resp_jval(x) == agent_list_resp_jval(z) ==> r is Some,
    ensures
        r matches Some(y) && agent_list_resp_eqv(y, x),
{
    assert(agent_list_resp_jval(x) == agent_list_resp_jval(x));
    lemma_agent_list_resp_jval_injective(r->0, x);
}

/// Values agreeing with one department of the department list.
pub open spec fn department_jval(x: Department) -> JVal {
    JVal::Obj(
        seq![
            ("id"@, JVal::UInt(x.id as u64)),
            ("name"@, JVal::Str(x.name@)),
            ("parentid"@, j_opt_u32(x.parent_id)),
            ("order"@, JVal::UInt(x.order as u64)),
        ],
    )
}

/// Two departments agree in every populated field.
pub open spec fn department_eqv(a: Department, b: Department) -> bool {
    &&& a.id == b.id
    &&& a.name@ == b.name@
    &&& a.parent_id == b.parent_id
    &&& a.order == b.order
}

/// Departments with the same JSON value agree in every field.
pub proof fn lemma_department_jval_injective(a: Department, b: Department)
    requires
        department_jval(a) == department_jval(b),
    ensures
        department_eqv(a, b),
{
    let sa = department_jval(a)->Obj_0;
    let sb = department_jval(b)->Obj_0;
    assert(sa[0] == sb[0] && sa[1] == sb[1] && sa[2] == sb[2] && sa[3] == sb[3]);
    lemma_j_opt_u32_injective(a.parent_id, b.parent_id);
}

/// Encodes a department.
pub fn encode_department(x: &Department) -> (r: Json)
    ensures
        r@ == department_jval(*x),
{
    let mut entries: Vec<(String, Json)> = Vec::new();
    obj_push(&mut entries, "id", Json::UInt(x.id as u64));
    obj_push(&mut entries, "name", Json::Str(x.name.clone()));
    let v2 = enc_opt_u32(&x.parent_id);
    obj_push(&mut entries, "parentid", v2);
    obj_push(&mut entries, "order", Json::UInt(x.order as u64));
    proof {
        assert(jobj_of(entries@) =~= department_jval(*x)->Obj_0);
    }
    Json::Obj(entries)
}

/// The shape a department value forces on the tree that carries it.
proof fn lemma_department_shape(j: Json, x: Department)
    requires
        jval_of(j) == department_jval(x),
    ensures
        j matches Json::Obj(entries) && {
            &&& entries@.len() == 4
            &&& entries@[0].0@ == "id"@ && jval_of(entries@[0].1) == JVal::UInt(x.id as u64)
            &&& entries@[1].0@ == "name"@ && jval_of(entries@[1].1) == JVal::Str(x.name@)
            &&& entries@[2].0@ == "parentid"@ && jval_of(entries@[2].1) == j_opt_u32(x.parent_id)
            &&& entries@[3].0@ == "order"@ && jval_of(entries@[3].1) == JVal::UInt(x.order as u64)
        },
{
    match j {
        Json::Obj(entries) => {
            lemma_jobj_len(entries@);
            lemma_jobj_index(entries@, 0);
            lemma_jobj_index(entries@, 1);
            lemma_jobj_index(entries@, 2);
            lemma_jobj_index(entries@, 3);
        },
        _ => {
            assert(false);
        },
    }
}

/// Decodes a department.
pub fn decode_department(j: &Json) -> (r: Option<Department>)
    ensures
        r matches Some(y) ==> jval_of(*j) == department_jval(y),
        forall|x: Department| jval_of(*j) == department_jval(x) ==> r is Some,
{
    match j {
        Json::Obj(entries) => {
            if entries.len() != 4 || !str_eq(&entries[0].0, "id") || !str_eq(&entries[1].0, "name")
                || !str_eq(&entries[2].0, "parentid") || !str_eq(&entries[3].0, "order") {
                proof {
                    assert forall|x: Department|
                        jval_of(*j) == department_jval(x) implies false by {
                        lemma_department_shape(*j, x);
                    }
                }
                return None;
            }
            let id = dec_u32(&entries[0].1);
            let name = dec_string(&entries[1].1);
            let parent_id = dec_opt_u32(&entries[2].1);
            let order = dec_u32(&entries[3].1);
            match (id, name, parent_id, order) {
                (Some(id), Some(name), Some(parent_id), Some(order)) => {
                    let y = Department { id, name, parent_id, order };
                    proof {
                        lemma_jobj_len(entries@);
                        lemma_jobj_index(entries@, 0);
                        lemma_jobj_index(entries@, 1);
                        lemma_jobj_index(entries@, 2);
                        lemma_jobj_index(entries@, 3);
                        assert(jobj_of(entries@) =~= department_jval(y)->Obj_0);
                    }
                    Some(y)
                },
                _ => {
                    proof {
                        assert forall|x: Department|
                            jval_of(*j) == department_jval(x) implies false by {
                            lemma_department_shape(*j, x);
                        }
                    }
                    None
                },
            }
        },
        _ => {
            proof {
                assert forall|x: Department| jval_of(*j) == department_jval(x) implies false by {
                    lemma_department_shape(*j, x);
                }
            }
            None
        },
    }
}

/// The encode-decode round trip of a department loses nothing.
pub proof fn lemma_department_roundtrip(x: Department, r: Option<Department>)
    requires
        r matches Some(y) ==> department_jval(x) == department_jval(y),
        forall|z: Department| department_jval(x) == department_jval(z) ==> r is Some,
    ensures
        r matches Some(y) && department_eqv(y, x),
{
    assert(department_jval(x) == department_jval(x));
    lemma_department_jval_injective(r->0, x);
}

/// JSON values of a sequence of departments.
pub open spec fn department_seq_jvals(s: Seq<Department>) -> Seq<JVal> {
    s.map_values(|d: Department| department_jval(d))
}

/// Two department sequences agree pointwise.
pub open spec fn department_seq_eqv(a: Seq<Department>, b: Seq<Department>) -> bool {
    a.len() == b.len() && forall|k: int|
        0 <= k < a.len() ==> department_eqv(#[trigger] a[k], b[k])
}

/// Department sequences with the same JSON values agree pointwise.
pub proof fn lemma_department_seq_jvals_injective(a: Seq<Department>, b: Seq<Department>)
    requires
        department_seq_jvals(a) == department_seq_jvals(b),
    ensures
        department_seq_eqv(a, b),
{
    assert(department_seq_jvals(a).len() == a.len());
    assert(department_seq_jvals(b).len() == b.len());
    assert forall|k: int| 0 <= k < a.len() implies department_eqv(#[trigger] a[k], b[k]) by {
        assert(department_seq_jvals(a)[k] == department_jval(a[k]));
        assert(department_seq_jvals(b)[k] == department_jval(b[k]));
        lemma_department_jval_injective(a[k], b[k]);
    }
}

/// Encodes an array of departments.
#[verifier::loop_isolation(false)]
fn enc_department_arr(v: &Vec<Department>) -> (r: Json)
    ensures
        jval_of(r) == JVal::Arr(department_seq_jvals(v@)),
{
    let mut out: Vec<Json> = Vec::new();
    let mut i: usize = 0;
    while i < v.len()
        invariant
            0 <= i <= v@.len(),
            out@.len() == i,
            forall|k: int| 0 <= k < i ==> jval_of(#[trigger] out@[k]) == department_jval(v@[k]),
        decreases v@.len() - i,
    {
        let e = encode_department(&v[i]);
        out.push(e);
        i = i + 1;
    }
    proof {
        lemma_jvals_len(out@);
        assert forall|k: int| 0 <= k < out@.len() implies jvals_of(out@)[k]
            == department_seq_jvals(v@)[k] by {
            lemma_jvals_index(out@, k);
        }
        assert(jvals_of(out@) =~= department_seq_jvals(v@));
    }
    Json::Arr(out)
}

/// Decodes an array of departments.
#[verifier::loop_isolation(false)]
fn dec_department_arr(v: &Json) -> (r: Option<Vec<Department>>)
    ensures
        r matches Some(out) ==> jval_of(*v) == JVal::Arr(department_seq_jvals(out@)),
        forall|s: Seq<Department>| jval_of(*v) == JVal::Arr(department_seq_jvals(s)) ==> r
            is Some,
{
    match v {
        Json::Arr(items) => {
            let mut out: Vec<Department> = Vec::new();
            let mut i: usize = 0;
            while i < items.len()
                invariant
                    0 <= i <= items@.len(),
                    out@.len() == i,
                    forall|k: int|
                        0 <= k < i ==> jval_of(items@[k]) == department_jval(#[trigger] out@[k]),
                decreases items@.len() - i,
            {
                match decode_department(&items[i]) {
                    Some(m) => {
                        out.push(m);
                    },
                    None => {
                        proof {
                            assert forall|s: Seq<Department>|
                                jval_of(*v) == JVal::Arr(department_seq_jvals(s)) implies false by {
                                lemma_jvals_len(items@);
                                lemma_jvals_index(items@, i as int);
                                assert(department_seq_jvals(s).len() == s.len());
                                assert(department_seq_jvals(s)[i as int] == department_jval(
                                    s[i as int],
                                ));
                                assert(jval_of(items@[i as int]) == department_jval(s[i as int]));
                            }
                        }
                        return None;
                    },
                }
                i = i + 1;
            }
            proof {
                lemma_jvals_len(items@);
                assert forall|k: int| 0 <= k < items@.len() implies jvals_of(items@)[k]
                    == department_seq_jvals(out@)[k] by {
                    lemma_jvals_index(items@, k);
                }
                assert(jvals_of(items@) =~= department_seq_jvals(out@));
            }
            Some(out)
        },
        _ => {
            proof {
                assert forall|s: Seq<Department>|
                    jval_of(*v) == JVal::Arr(department_seq_jvals(s)) implies false by {}
            }
            None
        },
    }
}

/// Values agreeing with a department-list response body.
pub open spec fn department_resp_jval(x: DepartmentResp) -> JVal {
    JVal::Obj(
        seq![
            ("errcode"@, j_opt_i32(x.code)),
            ("errmsg"@, j_opt_str(x.msg)),
            ("department"@, JVal::Arr(department_seq_jvals(x.departments@))),
        ],
    )
}

/// Two department-list responses agree in every populated field.
pub open spec fn department_resp_eqv(a: DepartmentResp, b: DepartmentResp) -> bool {
    &&& a.code == b.code
    &&& opt_str_eqv(a.msg, b.msg)
    &&& department_seq_eqv(a.departments@, b.departments@)
}

/// Department-list responses with the same JSON value agree in every
/// populated field.
pub proof fn lemma_department_resp_jval_injective(a: DepartmentResp, b: DepartmentResp)
    requires
        department_resp_jval(a) == department_resp_jval(b),
    ensures
        department_resp_eqv(a, b),
{
    let sa = department_resp_jval(a)->Obj_0;
    let sb = department_resp_jval(b)->Obj_0;
    assert(sa[0] == sb[0] && sa[1] == sb[1] && sa[2] == sb[2]);
    lemma_j_opt_i32_injective(a.code, b.code);
    lemma_j_opt_str_injective(a.msg, b.msg);
    lemma_department_seq_jvals_injective(a.departments@, b.departments@);
}

/// Encodes a department-list response.
pub fn encode_department_resp(x: &DepartmentResp) -> (r: Json)
    ensures
        r@ == department_resp_jval(*x),
{
    let mut entries: Vec<(String, Json)> = Vec::new();
    let v0 = enc_opt_i32(&x.code);
    obj_push(&mut entries, "errcode", v0);
    let v1 = enc_opt_str(&x.msg);
    obj_push(&mut entries, "errmsg", v1);
    let v2 = enc_department_arr(&x.departments);
    obj_push(&mut entries, "department", v2);
    proof {
        assert(jobj_of(entries@) =~= department_resp_jval(*x)->Obj_0);
    }
    Json::Obj(entries)
}

/// The shape a department-list response forces on the tree that
/// carries it.
proof fn lemma_department_resp_shape(j: Json, x: DepartmentResp)
    requires
        jval_of(j) == department_resp_jval(x),
    ensures
        j matches Json::Obj(entries) && {
            &&& entries@.len() == 3
            &&& entries@[0].0@ == "errcode"@ && jval_of(entries@[0].1) == j_opt_i32(x.code)
            &&& entries@[1].0@ == "errmsg"@ && jval_of(entries@[1].1) == j_opt_str(x.msg)
            &&& entries@[2].0@ == "department"@ && jval_of(entries@[2].1) == JVal::Arr(
                department_seq_jvals(x.departments@),
            )
        },
{
    match j {
        Json::Obj(entries) => {
            lemma_jobj_len(entries@);
            lemma_jobj_index(entries@, 0);
            lemma_jobj_index(entries@, 1);
            lemma_jobj_index(entries@, 2);
        },
        _ => {
            assert(false);
        },
    }
}

/// Decodes a department-list response.
pub fn decode_department_resp(j: &Json) -> (r: Option<DepartmentResp>)
    ensures
        r matches Some(y) ==> jval_of(*j) == department_resp_jval(y),
        forall|x: DepartmentResp| jval_of(*j) == department_resp_jval(x) ==> r is Some,
{
    match j {
        Json::Obj(entries) => {
            if entries.len() != 3 || !str_eq(&entries[0].0, "errcode") || !str_eq(
                &entries[1].0,
                "errmsg",
            ) || !str_eq(&entries[2].0, "department") {
                proof {
                    assert forall|x: DepartmentResp|
                        jval_of(*j) == department_resp_jval(x) implies false by {
                        lemma_department_resp_shape(*j, x);
                    }
                }
                return None;
            }
            let code = dec_opt_i32(&entries[0].1);
            let msg = dec_opt_str(&entries[1].1);
            let departments = dec_department_arr(&entries[2].1);
            match (code, msg, departments) {
                (Some(code), Some(msg), Some(departments)) => {
                    let y = DepartmentResp { code, msg, departments };
                    proof {
                        lemma_jobj_len(entries@);
                        lemma_jobj_index(entries@, 0);
                        lemma_jobj_index(entries@, 1);
                        lemma_jobj_index(entries@, 2);
                        assert(jobj_of(entries@) =~= department_resp_jval(y)->Obj_0);
                    }
                    Some(y)
                },
                _ => {
                    proof {
                        assert forall|x: DepartmentResp|
                            jval_of(*j) == department_resp_jval(x) implies false by {
                            lemma_department_resp_shape(*j, x);
                        }
                    }
                    None
                },
            }
        },
        _ => {
            proof {
                assert forall|x: DepartmentResp|
                    jval_of(*j) == department_resp_jval(x) implies false by {
                    lemma_department_resp_shape(*j, x);
                }
            }
            None
        },
    }
}

/// The encode-decode round trip of a department-list response loses
/// nothing.
pub proof fn lemma_department_resp_roundtrip(x: DepartmentResp, r: Option<DepartmentResp>)
    requires
        r matches Some(y) ==> department_resp_jval(x) == department_resp_jval(y),
        forall|z: DepartmentResp| department_resp_jval(x) == department_resp_jval(z) ==> r
            is Some,
    ensures
        r matches Some(y) && department_resp_eqv(y, x),
{
    assert(department_resp_jval(x) == department_resp_jval(x));
    lemma_department_resp_jval_injective(r->0, x);
}

/// Values agreeing with a tag-list response body.
pub open spec fn tags_resp_jval(x: crate::data::TagsResp) -> JVal {
    JVal::Obj(
        seq![
            ("errcode"@, j_opt_i32(x.code)),
            ("errmsg"@, j_opt_str(x.msg)),
            ("taglist"@, JVal::Arr(tag_seq_jvals(x.tags@))),
        ],
    )
}

/// JSON values of a sequence of tags.
pub open spec fn tag_seq_jvals(s: Seq<Tag>) -> Seq<JVal> {
    s.map_values(|t: Tag| tag_jval(t))
}

/// Two tag sequences agree pointwise.
pub open spec fn tag_seq_eqv(a: Seq<Tag>, b: Seq<Tag>) -> bool {
    a.len() == b.len() && forall|k: int| 0 <= k < a.len() ==> tag_eqv(#[trigger] a[k], b[k])
}

/// Tag sequences with the same JSON values agree pointwise.
pub proof fn lemma_tag_seq_jvals_injective(a: Seq<Tag>, b: Seq<Tag>)
    requires
        tag_seq_jvals(a) == tag_seq_jvals(b),
    ensures
        tag_seq_eqv(a, b),
{
    assert(tag_seq_jvals(a).len() == a.len());
    assert(tag_seq_jvals(b).len() == b.len());
    assert forall|k: int| 0 <= k < a.len() implies tag_eqv(#[trigger] a[k], b[k]) by {
        assert(tag_seq_jvals(a)[k] == tag_jval(a[k]));
        assert(tag_seq_jvals(b)[k] == tag_jval(b[k]));
        lemma_tag_jval_injective(a[k], b[k]);
    }
}

/// Two tag-list responses agree in every populated field.
pub open spec fn tags_resp_eqv(a: crate::data::TagsResp, b: crate::data::TagsResp) -> bool {
    &&& a.code == b.code
    &&& opt_str_eqv(a.msg, b.msg)
    &&& tag_seq_eqv(a.tags@, b.tags@)
}

/// Tag-list responses with the same JSON value agree in every
/// populated field.
pub proof fn lemma_tags_resp_jval_injective(a: crate::data::TagsResp, b: crate::data::TagsResp)
    requires
        tags_resp_jval(a) == tags_resp_jval(b),
    ensures
        tags_resp_eqv(a, b),
{
    let sa = tags_resp_jval(a)->Obj_0;
    let sb = tags_resp_jval(b)->Obj_0;
    assert(sa[0] == sb[0] && sa[1] == sb[1] && sa[2] == sb[2]);
    lemma_j_opt_i32_injective(a.code, b.code);
    lemma_j_opt_str_injective(a.msg, b.msg);
    lemma_tag_seq_jvals_injective(a.tags@, b.tags@);
}

/// Encodes an array of tags.
#[verifier::loop_isolation(false)]
fn enc_tag_arr(v: &Vec<Tag>) -> (r: Json)
    ensures
        jval_of(r) == JVal::Arr(tag_seq_jvals(v@)),
{
    let mut out: Vec<Json> = Vec::new();
    let mut i: usize = 0;
    while i < v.len()
        invariant
            0 <= i <= v@.len(),
            out@.len() == i,
            forall|k: int| 0 <= k < i ==> jval_of(#[trigger] out@[k]) == tag_jval(v@[k]),
        decreases v@.len() - i,
    {
        let e = encode_tag(&v[i]);
        out.push(e);
        i = i + 1;
    }
    proof {
        lemma_jvals_len(out@);
        assert forall|k: int| 0 <= k < out@.len() implies jvals_of(out@)[k] == tag_seq_jvals(
            v@,
        )[k] by {
            lemma_jvals_index(out@, k);
        }
        assert(jvals_of(out@) =~= tag_seq_jvals(v@));
    }
    Json::Arr(out)
}

/// Decodes an array of tags.
#[verifier::loop_isolation(false)]
fn dec_tag_arr(v: &Json) -> (r: Option<Vec<Tag>>)
    ensures
        r matches Some(out) ==> jval_of(*v) == JVal::Arr(tag_seq_jvals(out@)),
        forall|s: Seq<Tag>| jval_of(*v) == JVal::Arr(tag_seq_jvals(s)) ==> r is Some,
{
    match v {
        Json::Arr(items) => {
            let mut out: Vec<Tag> = Vec::new();
            let mut i: usize = 0;
            while i < items.len()
                invariant
                    0 <= i <= items@.len(),
                    out@.len() == i,
                    forall|k: int| 0 <= k < i ==> jval_of(items@[k]) == tag_jval(#[trigger] out@[k]),
                decreases items@.len() - i,
            {
                match decode_tag(&items[i]) {
                    Some(m) => {
                        out.push(m);
                    },
                    None => {
                        proof {
                            assert forall|s: Seq<Tag>|
                                jval_of(*v) == JVal::Arr(tag_seq_jvals(s)) implies false by {
                                lemma_jvals_len(items@);
                                lemma_jvals_index(items@, i as int);
                                assert(tag_seq_jvals(s).len() == s.len());
                                assert(tag_seq_jvals(s)[i as int] == tag_jval(s[i as int]));
                                assert(jval_of(items@[i as int]) == tag_jval(s[i as int]));
                            }
                        }
                        return None;
                    },
                }
                i = i + 1;
            }
            proof {
                lemma_jvals_len(items@);
                assert forall|k: int| 0 <= k < items@.len() implies jvals_of(items@)[k]
                    == tag_seq_jvals(out@)[k] by {
                    lemma_jvals_index(items@, k);
                }
                assert(jvals_of(items@) =~= tag_seq_jvals(out@));
            }
            Some(out)
        },
        _ => {
            proof {
                assert forall|s: Seq<Tag>|
                    jval_of(*v) == JVal::Arr(tag_seq_jvals(s)) implies false by {}
            }
            None
        },
    }
}

/// Encodes a tag-list response.
pub fn encode_tags_resp(x: &crate::data::TagsResp) -> (r: Json)
    ensures
        r@ == tags_resp_jval(*x),
{
    let mut entries: Vec<(String, Json)> = Vec::new();
    let v0 = enc_opt_i32(&x.code);
    obj_push(&mut entries, "errcode", v0);
    let v1 = enc_opt_str(&x.msg);
    obj_push(&mut entries, "errmsg", v1);
    let v2 = enc_tag_arr(&x.tags);
    obj_push(&mut entries, "taglist", v2);
    proof {
        assert(jobj_of(entries@) =~= tags_resp_jval(*x)->Obj_0);
    }
    Json::Obj(entries)
}

/// The shape a tag-list response forces on the tree that carries it.
proof fn lemma_tags_resp_shape(j: Json, x: crate::data::TagsResp)
    requires
        jval_of(j) == tags_resp_jval(x),
    ensures
        j matches Json::Obj(entries) && {
            &&& entries@.len() == 3
            &&& entries@[0].0@ == "errcode"@ && jval_of(entries@[0].1) == j_opt_i32(x.code)
            &&& entries@[1].0@ == "errmsg"@ && jval_of(entries@[1].1) == j_opt_str(x.msg)
            &&& entries@[2].0@ == "taglist"@ && jval_of(entries@[2].1) == JVal::Arr(
                tag_seq_jvals(x.tags@),
            )
        },
{
    match j {
        Json::Obj(entries) => {
            lemma_jobj_len(entries@);
            lemma_jobj_index(entries@, 0);
            lemma_jobj_index(entries@, 1);
            lemma_jobj_index(entries@, 2);
        },
        _ => {
            assert(false);
        },
    }
}

/// Decodes a tag-list response.
pub fn decode_tags_resp(j: &Json) -> (r: Option<crate::data::TagsResp>)
    ensures
        r matches Some(y) ==> jval_of(*j) == tags_resp_jval(y),
        forall|x: crate::data::TagsResp| jval_of(*j) == tags_resp_jval(x) ==> r is Some,
{
    match j {
        Json::Obj(entries) => {
            if entries.len() != 3 || !str_eq(&entries[0].0, "errcode") || !str_eq(
                &entries[1].0,
                "errmsg",
            ) || !str_eq(&entries[2].0, "taglist") {
                proof {
                    assert forall|x: crate::data::TagsResp|
                        jval_of(*j) == tags_resp_jval(x) implies false by {
                        lemma_tags_resp_shape(*j, x);
                    }
                }
                return None;
            }
            let code = dec_opt_i32(&entries[0].1);
            let msg = dec_opt_str(&entries[1].1);
            let tags = dec_tag_arr(&entries[2].1);
            match (code, msg, tags) {
                (Some(code), Some(msg), Some(tags)) => {
                    let y = crate::data::TagsResp { code, msg, tags };
                    proof {
                        lemma_jobj_len(entries@);
                        lemma_jobj_index(entries@, 0);
                        lemma_jobj_index(entries@, 1);
                        lemma_jobj_index(entries@, 2);
                        assert(jobj_of(entries@) =~= tags_resp_jval(y)->Obj_0);
                    }
                    Some(y)
                },
                _ => {
                    proof {
                        assert forall|x: crate::data::TagsResp|
                            jval_of(*j) == tags_resp_jval(x) implies false by {
                            lemma_tags_resp_shape(*j, x);
                        }
                    }
                    None
                },
            }
        },
        _ => {
            proof {
                assert forall|x: crate::data::TagsResp|
                    jval_of(*j) == tags_resp_jval(x) implies false by {
                    lemma_tags_resp_shape(*j, x);
                }
            }
            None
        },
    }
}

/// The encode-decode round trip of a tag-list response loses nothing.
pub proof fn lemma_tags_resp_roundtrip(x: crate::data::TagsResp, r: Option<crate::data::TagsResp>)
    requires
        r matches Some(y) ==> tags_resp_jval(x) == tags_resp_jval(y),
        forall|z: crate::data::TagsResp| tags_resp_jval(x) == tags_resp_jval(z) ==> r is Some,
    ensures
        r matches Some(y) && tags_resp_eqv(y, x),
{
    assert(tags_resp_jval(x) == tags_resp_jval(x));
    lemma_tags_resp_jval_injective(r->0, x);
}

/// Copies extension attributes: free-form keyed JSON values carried
/// through unchanged.
#[verifier::loop_isolation(false)]
fn enc_extattr(v: &Vec<(String, Json)>) -> (r: Json)
    ensures
        jval_of(r) == JVal::Obj(jobj_of(v@)),
{
    let mut out: Vec<(String, Json)> = Vec::new();
    let mut i: usize = 0;
    while i < v.len()
        invariant
            0 <= i <= v@.len(),
            out@.len() == i,
            forall|k: int|
                0 <= k < i ==> (#[trigger] out@[k]).0@ == v@[k].0@ && jval_of(out@[k].1)
                    == jval_of(v@[k].1),
        decreases v@.len() - i,
    {
        let key = v[i].0.clone();
        let val = json_clone(&v[i].1);
        out.push((key, val));
        i = i + 1;
    }
    proof {
        lemma_jobj_congruence(out@, v@);
    }
    Json::Obj(out)
}

/// Reads extension attributes back out of a tree.
#[verifier::loop_isolation(false)]
fn dec_extattr(v: &Json) -> (r: Option<Vec<(String, Json)>>)
    ensures
        r matches Some(out) ==> jval_of(*v) == JVal::Obj(jobj_of(out@)),
        jval_of(*v) matches JVal::Obj(_) ==> r is Some,
{
    match v {
        Json::Obj(entries) => {
            let mut out: Vec<(String, Json)> = Vec::new();
            let mut i: usize = 0;
            while i < entries.len()
                invariant
                    0 <= i <= entries@.len(),
                    out@.len() == i,
                    forall|k: int|
                        0 <= k < i ==> (#[trigger] out@[k]).0@ == entries@[k].0@ && jval_of(
                            out@[k].1,
                        ) == jval_of(entries@[k].1),
                decreases entries@.len() - i,
            {
                let key = entries[i].0.clone();
                let val = json_clone(&entries[i].1);
                out.push((key, val));
                i = i + 1;
            }
            proof {
                lemma_jobj_congruence(out@, entries@);
            }
            Some(out)
        },
        _ => None,
    }
}

/// Values agreeing with one member of a department, with every
/// profile field the API returns.
pub open spec fn department_member_jval(x: DepartmentMember) -> JVal {
    JVal::Obj(
        seq![
            ("name"@, JVal::Str(x.name@)),
            ("department"@, j_u32_arr(x.department@)),
            ("position"@, JVal::Str(x.position@)),
            ("mobile"@, JVal::Str(x.mobile@)),
            ("gender"@, JVal::Str(x.gender@)),
            ("email"@, JVal::Str(x.email@)),
            ("avatar"@, JVal::Str(x.avatar@)),
            ("isleader"@, JVal::UInt(x.is_leader as u64)),
            ("status"@, JVal::UInt(x.status as u64)),
            ("enable"@, JVal::UInt(x.enable as u64)),
            ("hide_mobile"@, JVal::UInt(x.hide_mobile as u64)),
            ("english_name"@, JVal::Str(x.english_name@)),
            ("telephone"@, JVal::Str(x.telephone@)),
            ("order"@, j_u32_arr(x.order@)),
            ("main_department"@, j_opt_u32(x.main_department)),
            ("qr_code"@, JVal::Str(x.qr_code@)),
            ("alias"@, JVal::Str(x.alias@)),
            ("is_leader_in_dept"@, j_u32_arr(x.is_leader_in_dept@)),
            ("thumb_avatar"@, JVal::Str(x.thumb_avatar@)),
            ("biz_mail"@, j_opt_str(x.biz_mail)),
            ("userid"@, JVal::Str(x.user_id@)),
            ("extattr"@, JVal::Obj(jobj_of(x.extattr@))),
        ],
    )
}

/// Two department members agree in every populated field.
pub open spec fn department_member_eqv(a: DepartmentMember, b: DepartmentMember) -> bool {
    &&& a.name@ == b.name@
    &&& a.department@ == b.department@
    &&& a.position@ == b.position@
    &&& a.mobile@ == b.mobile@
    &&& a.gender@ == b.gender@
    &&& a.email@ == b.email@
    &&& a.avatar@ == b.avatar@
    &&& a.is_leader == b.is_leader
    &&& a.status == b.status
    &&& a.enable == b.enable
    &&& a.hide_mobile == b.hide_mobile
    &&& a.english_name@ == b.english_name@
    &&& a.telephone@ == b.telephone@
    &&& a.order@ == b.order@
    &&& a.main_department == b.main_department
    &&& a.qr_code@ == b.qr_code@
    &&& a.alias@ == b.alias@
    &&& a.is_leader_in_dept@ == b.is_leader_in_dept@
    &&& a.thumb_avatar@ == b.thumb_avatar@
    &&& opt_str_eqv(a.biz_mail, b.biz_mail)
    &&& a.user_id@ == b.user_id@
    &&& jobj_of(a.extattr@) == jobj_of(b.extattr@)
}

/// Department members with the same JSON value agree in every field.
#[verifier::rlimit(100)]
pub proof fn lemma_department_member_jval_injective(a: DepartmentMember, b: DepartmentMember)
    requires
        department_member_jval(a) == department_member_jval(b),
    ensures
        department_member_eqv(a, b),
{
    let sa = department_member_jval(a)->Obj_0;
    let sb = department_member_jval(b)->Obj_0;
    assert(sa[0] == sb[0]);
    assert(sa[1] == sb[1]);
    assert(sa[2] == sb[2]);
    assert(sa[3] == sb[3]);
    assert(sa[4] == sb[4]);
    assert(sa[5] == sb[5]);
    assert(sa[6] == sb[6]);
    assert(sa[7] == sb[7]);
    assert(sa[8] == sb[8]);
    assert(sa[9] == sb[9]);
    assert(sa[10] == sb[10]);
    assert(sa[11] == sb[11]);
    assert(sa[12] == sb[12]);
    assert(sa[13] == sb[13]);
    assert(sa[14] == sb[14]);
    assert(sa[15] == sb[15]);
    assert(sa[16] == sb[16]);
    assert(sa[17] == sb[17]);
    assert(sa[18] == sb[18]);
    assert(sa[19] == sb[19]);
    assert(sa[20] == sb[20]);
    assert(sa[21] == sb[21]);
    lemma_j_u32_arr_injective(a.department@, b.department@);
    lemma_j_u32_arr_injective(a.order@, b.order@);
    lemma_j_opt_u32_injective(a.main_department, b.main_department);
    lemma_j_u32_arr_injective(a.is_leader_in_dept@, b.is_leader_in_dept@);
    lemma_j_opt_str_injective(a.biz_mail, b.biz_mail);
}

/// Encodes a department member.
#[verifier::rlimit(100)]
pub fn encode_department_member(x: &DepartmentMember) -> (r: Json)
    ensures
        r@ == department_member_jval(*x),
{
    let mut entries: Vec<(String, Json)> = Vec::new();
    obj_push(&mut entries, "name", Json::Str(x.name.clone()));
    let v1 = enc_u32_arr(&x.department);
    obj_push(&mut entries, "department", v1);
    obj_push(&mut entries, "position", Json::Str(x.position.clone()));
    obj_push(&mut entries, "mobile", Json::Str(x.mobile.clone()));
    obj_push(&mut entries, "gender", Json::Str(x.gender.clone()));
    obj_push(&mut entries, "email", Json::Str(x.email.clone()));
    obj_push(&mut entries, "avatar", Json::Str(x.avatar.clone()));
    obj_push(&mut entries, "isleader", Json::UInt(x.is_leader as u64));
    obj_push(&mut entries, "status", Json::UInt(x.status as u64));
    obj_push(&mut entries, "enable", Json::UInt(x.enable as u64));
    obj_push(&mut entries, "hide_mobile", Json::UInt(x.hide_mobile as u64));
    obj_push(&mut entries, "english_name", Json::Str(x.english_name.clone()));
    obj_push(&mut entries, "telephone", Json::Str(x.telephone.clone()));
    let v13 = enc_u32_arr(&x.order);
    obj_push(&mut entries, "order", v13);
    let v14 = enc_opt_u32(&x.main_department);
    obj_push(&mut entries, "main_department", v14);
    obj_push(&mut entries, "qr_code", Json::Str(x.qr_code.clone()));
    obj_push(&mut entries, "alias", Json::Str(x.alias.clone()));
    let v17 = enc_u32_arr(&x.is_leader_in_dept);
    obj_push(&mut entries, "is_leader_in_dept", v17);
    obj_push(&mut entries, "thumb_avatar", Json::Str(x.thumb_avatar.clone()));
    let v19 = enc_opt_str(&x.biz_mail);
    obj_push(&mut entries, "biz_mail", v19);
    obj_push(&mut entries, "userid", Json::Str(x.user_id.clone()));
    let v21 = enc_extattr(&x.extattr);
    obj_push(&mut entries, "extattr", v21);
    proof {
        assert(jobj_of(entries@) =~= department_member_jval(*x)->Obj_0);
    }
    Json::Obj(entries)
}

/// The shape a department-member value forces on the tree that
/// carries it.
#[verifier::rlimit(100)]
proof fn lemma_department_member_shape(j: Json, x: DepartmentMember)
    requires
        jval_of(j) == department_member_jval(x),
    ensures
        j matches Json::Obj(entries) && {
            &&& entries@.len() == 22
            &&& entries@[0].0@ == "name"@ && jval_of(entries@[0].1) == JVal::Str(x.name@)
            &&& entries@[1].0@ == "department"@ && jval_of(entries@[1].1) == j_u32_arr(x.department@)
            &&& entries@[2].0@ == "position"@ && jval_of(entries@[2].1) == JVal::Str(x.position@)
            &&& entries@[3].0@ == "mobile"@ && jval_of(entries@[3].1) == JVal::Str(x.mobile@)
            &&& entries@[4].0@ == "gender"@ && jval_of(entries@[4].1) == JVal::Str(x.gender@)
            &&& entries@[5].0@ == "email"@ && jval_of(entries@[5].1) == JVal::Str(x.email@)
            &&& entries@[6].0@ == "avatar"@ && jval_of(entries@[6].1) == JVal::Str(x.avatar@)
            &&& entries@[7].0@ == "isleader"@ && jval_of(entries@[7].1) == JVal::UInt(x.is_leader as u64)
            &&& entries@[8].0@ == "status"@ && jval_of(entries@[8].1) == JVal::UInt(x.status as u64)
            &&& entries@[9].0@ == "enable"@ && jval_of(entries@[9].1) == JVal::UInt(x.enable as u64)
            &&& entries@[10].0@ == "hide_mobile"@ && jval_of(entries@[10].1) == JVal::UInt(x.hide_mobile as u64)
            &&& entries@[11].0@ == "english_name"@ && jval_of(entries@[11].1) == JVal::Str(x.english_name@)
            &&& entries@[12].0@ == "telephone"@ && jval_of(entries@[12].1) == JVal::Str(x.telephone@)
            &&& entries@[13].0@ == "order"@ && jval_of(entries@[13].1) == j_u32_arr(x.order@)
            &&& entries@[14].0@ == "main_department"@ && jval_of(entries@[14].1) == j_opt_u32(x.main_department)
            &&& entries@[15].0@ == "qr_code"@ && jval_of(entries@[15].1) == JVal::Str(x.qr_code@)
            &&& entries@[16].0@ == "alias"@ && jval_of(entries@[16].1) == JVal::Str(x.alias@)
            &&& entries@[17].0@ == "is_leader_in_dept"@ && jval_of(entries@[17].1) == j_u32_arr(x.is_leader_in_dept@)
            &&& entries@[18].0@ == "thumb_avatar"@ && jval_of(entries@[18].1) == JVal::Str(x.thumb_avatar@)
            &&& entries@[19].0@ == "biz_mail"@ && jval_of(entries@[19].1) == j_opt_str(x.biz_mail)
            &&& entries@[20].0@ == "userid"@ && jval_of(entries@[20].1) == JVal::Str(x.user_id@)
            &&& entries@[21].0@ == "extattr"@ && jval_of(entries@[21].1) == JVal::Obj(jobj_of(x.extattr@))
        },
{
    match j {
        Json::Obj(entries) => {
            lemma_jobj_len(entries@);
            lemma_jobj_index(entries@, 0);
            lemma_jobj_index(entries@, 1);
            lemma_jobj_index(entries@, 2);
            lemma_jobj_index(entries@, 3);
            lemma_jobj_index(entries@, 4);
            lemma_jobj_index(entries@, 5);
            lemma_jobj_index(entries@, 6);
            lemma_jobj_index(entries@, 7);
            lemma_jobj_index(entries@, 8);
            lemma_jobj_index(entries@, 9);
            lemma_jobj_index(entries@, 10);
            lemma_jobj_index(entries@, 11);
            lemma_jobj_index(entries@, 12);
            lemma_jobj_index(entries@, 13);
            lemma_jobj_index(entries@, 14);
            lemma_jobj_index(entries@, 15);
            lemma_jobj_index(entries@, 16);
            lemma_jobj_index(entries@, 17);
            lemma_jobj_index(entries@, 18);
            lemma_jobj_index(entries@, 19);
            lemma_jobj_index(entries@, 20);
            lemma_jobj_index(entries@, 21);
        },
        _ => {
            assert(false);
        },
    }
}

/// Decodes a department member.
#[verifier::rlimit(100)]
pub fn decode_department_member(j: &Json) -> (r: Option<DepartmentMember>)
    ensures
        r matches Some(y) ==> jval_of(*j) == department_member_jval(y),
        forall|x: DepartmentMember| jval_of(*j) == department_member_jval(x) ==> r is Some,
{
    match j {
        Json::Obj(entries) => {
            if entries.len() != 22
                || !str_eq(&entries[0].0, "name")
                || !str_eq(&entries[1].0, "department")
                || !str_eq(&entries[2].0, "position")
                || !str_eq(&entries[3].0, "mobile")
                || !str_eq(&entries[4].0, "gender")
                || !str_eq(&entries[5].0, "email")
                || !str_eq(&entries[6].0, "avatar")
                || !str_eq(&entries[7].0, "isleader")
                || !str_eq(&entries[8].0, "status")
                || !str_eq(&entries[9].0, "enable")
                || !str_eq(&entries[10].0, "hide_mobile")
                || !str_eq(&entries[11].0, "english_name")
                || !str_eq(&entries[12].0, "telephone")
                || !str_eq(&entries[13].0, "order")
                || !str_eq(&entries[14].0, "main_department")
                || !str_eq(&entries[15].0, "qr_code")
                || !str_eq(&entries[16].0, "alias")
                || !str_eq(&entries[17].0, "is_leader_in_dept")
                || !str_eq(&entries[18].0, "thumb_avatar")
                || !str_eq(&entries[19].0, "biz_mail")
                || !str_eq(&entries[20].0, "userid")
                || !str_eq(&entries[21].0, "extattr") {
                proof {
                    assert forall|x: DepartmentMember|
                        jval_of(*j) == department_member_jval(x) implies false by {
                        lemma_department_member_shape(*j, x);
                    }
                }
                return None;
            }
            let name = dec_string(&entries[0].1);
            let department = dec_u32_arr(&entries[1].1);
            let position = dec_string(&entries[2].1);
            let mobile = dec_string(&entries[3].1);
            let gender = dec_string(&entries[4].1);
            let email = dec_string(&entries[5].1);
            let avatar = dec_string(&entries[6].1);
            let is_leader = dec_u32(&entries[7].1);
            let status = dec_u32(&entries[8].1);
            let enable = dec_u32(&entries[9].1);
            let hide_mobile = dec_u32(&entries[10].1);
            let english_name = dec_string(&entries[11].1);
            let telephone = dec_string(&entries[12].1);
            let order = dec_u32_arr(&entries[13].1);
            let main_department = dec_opt_u32(&entries[14].1);
            let qr_code = dec_string(&entries[15].1);
            let alias = dec_string(&entries[16].1);
            let is_leader_in_dept = dec_u32_arr(&entries[17].1);
            let thumb_avatar = dec_string(&entries[18].1);
            let biz_mail = dec_opt_str(&entries[19].1);
            let user_id = dec_string(&entries[20].1);
            let extattr = dec_extattr(&entries[21].1);
            match (name, department, position, mobile, gender, email, avatar, is_leader, status, enable, hide_mobile, english_name, telephone, order, main_department, qr_code, alias, is_leader_in_dept, thumb_avatar, biz_mail, user_id, extattr) {
                (Some(name), Some(department), Some(position), Some(mobile), Some(gender), Some(email), Some(avatar), Some(is_leader), Some(status), Some(enable), Some(hide_mobile), Some(english_name), Some(telephone), Some(order), Some(main_department), Some(qr_code), Some(alias), Some(is_leader_in_dept), Some(thumb_avatar), Some(biz_mail), Some(user_id), Some(extattr)) => {
                    let y = DepartmentMember { name, department, position, mobile, gender, email, avatar, is_leader, status, enable, hide_mobile, english_name, telephone, order, main_department, qr_code, alias, is_leader_in_dept, thumb_avatar, biz_mail, user_id, extattr };
                    proof {
                        lemma_jobj_len(entries@);
                        lemma_jobj_index(entries@, 0);
                        lemma_jobj_index(entries@, 1);
                        lemma_jobj_index(entries@, 2);
                        lemma_jobj_index(entries@, 3);
                        lemma_jobj_index(entries@, 4);
                        lemma_jobj_index(entries@, 5);
                        lemma_jobj_index(entries@, 6);
                        lemma_jobj_index(entries@, 7);
                        lemma_jobj_index(entries@, 8);
                        lemma_jobj_index(entries@, 9);
                        lemma_jobj_index(entries@, 10);
                        lemma_jobj_index(entries@, 11);
                        lemma_jobj_index(entries@, 12);
                        lemma_jobj_index(entries@, 13);
                        lemma_jobj_index(entries@, 14);
                        lemma_jobj_index(entries@, 15);
                        lemma_jobj_index(entries@, 16);
                        lemma_jobj_index(entries@, 17);
                        lemma_jobj_index(entries@, 18);
                        lemma_jobj_index(entries@, 19);
                        lemma_jobj_index(entries@, 20);
                        lemma_jobj_index(entries@, 21);
                        assert(jobj_of(entries@) =~= department_member_jval(y)->Obj_0);
                    }
                    Some(y)
                },
                _ => {
                    proof {
                        assert forall|x: DepartmentMember|
                            jval_of(*j) == department_member_jval(x) implies false by {
                            lemma_department_member_shape(*j, x);
                        }
                    }
                    None
                },
            }
        },
        _ => {
            proof {
                assert forall|x: DepartmentMember|
                    jval_of(*j) == department_member_jval(x) implies false by {
                    lemma_department_member_shape(*j, x);
                }
            }
            None
        },
    }
}

/// The encode-decode round trip of a department member loses nothing.
pub proof fn lemma_department_member_roundtrip(x: DepartmentMember, r: Option<DepartmentMember>)
    requires
        r matches Some(y) ==> department_member_jval(x) == department_member_jval(y),
        forall|z: DepartmentMember| department_member_jval(x) == department_member_jval(z)
            ==> r is Some,
    ensures
        r matches Some(y) && department_member_eqv(y, x),
{
    assert(department_member_jval(x) == department_member_jval(x));
    lemma_department_member_jval_injective(r->0, x);
}

/// JSON values of a sequence of department members.
pub open spec fn department_member_seq_jvals(s: Seq<DepartmentMember>) -> Seq<JVal> {
    s.map_values(|m: DepartmentMember| department_member_jval(m))
}

/// Two department-member sequences agree pointwise.
pub open spec fn department_member_seq_eqv(a: Seq<DepartmentMember>, b: Seq<DepartmentMember>)
    -> bool {
    a.len() == b.len() && forall|k: int|
        0 <= k < a.len() ==> department_member_eqv(#[trigger] a[k], b[k])
}

/// Department-member sequences with the same JSON values agree
/// pointwise.
pub proof fn lemma_department_member_seq_jvals_injective(
    a: Seq<DepartmentMember>,
    b: Seq<DepartmentMember>,
)
    requires
        department_member_seq_jvals(a) == department_member_seq_jvals(b),
    ensures
        department_member_seq_eqv(a, b),
{
    assert(department_member_seq_jvals(a).len() == a.len());
    assert(department_member_seq_jvals(b).len() == b.len());
    assert forall|k: int| 0 <= k < a.len() implies department_member_eqv(
        #[trigger] a[k],
        b[k],
    ) by {
        assert(department_member_seq_jvals(a)[k] == department_member_jval(a[k]));
        assert(department_member_seq_jvals(b)[k] == department_member_jval(b[k]));
        lemma_department_member_jval_injective(a[k], b[k]);
    }
}

/// Encodes an array of department members.
#[verifier::loop_isolation(false)]
fn enc_department_member_arr(v: &Vec<DepartmentMember>) -> (r: Json)
    ensures
        jval_of(r) == JVal::Arr(department_member_seq_jvals(v@)),
{
    let mut out: Vec<Json> = Vec::new();
    let mut i: usize = 0;
    while i < v.len()
        invariant
            0 <= i <= v@.len(),
            out@.len() == i,
            forall|k: int|
                0 <= k < i ==> jval_of(#[trigger] out@[k]) == department_member_jval(v@[k]),
        decreases v@.len() - i,
    {
        let e = encode_department_member(&v[i]);
        out.push(e);
        i = i + 1;
    }
    proof {
        lemma_jvals_len(out@);
        assert forall|k: int| 0 <= k < out@.len() implies jvals_of(out@)[k]
            == department_member_seq_jvals(v@)[k] by {
            lemma_jvals_index(out@, k);
        }
        assert(jvals_of(out@) =~= department_member_seq_jvals(v@));
    }
    Json::Arr(out)
}

/// Decodes an array of department members.
#[verifier::loop_isolation(false)]
fn dec_department_member_arr(v: &Json) -> (r: Option<Vec<DepartmentMember>>)
    ensures
        r matches Some(out) ==> jval_of(*v) == JVal::Arr(department_member_seq_jvals(out@)),
        forall|s: Seq<DepartmentMember>| jval_of(*v) == JVal::Arr(department_member_seq_jvals(s))
            ==> r is Some,
{
    match v {
        Json::Arr(items) => {
            let mut out: Vec<DepartmentMember> = Vec::new();
            let mut i: usize = 0;
            while i < items.len()
                invariant
                    0 <= i <= items@.len(),
                    out@.len() == i,
                    forall|k: int|
                        0 <= k < i ==> jval_of(items@[k]) == department_member_jval(
                            #[trigger] out@[k],
                        ),
                decreases items@.len() - i,
            {
                match decode_department_member(&items[i]) {
                    Some(m) => {
                        out.push(m);
                    },
                    None => {
                        proof {
                            assert forall|s: Seq<DepartmentMember>|
                                jval_of(*v) == JVal::Arr(
                                    department_member_seq_jvals(s),
                                ) implies false by {
                                lemma_jvals_len(items@);
                                lemma_jvals_index(items@, i as int);
                                assert(department_member_seq_jvals(s).len() == s.len());
                                assert(department_member_seq_jvals(s)[i as int]
                                    == department_member_jval(s[i as int]));
                                assert(jval_of(items@[i as int]) == department_member_jval(
                                    s[i as int],
                                ));
                            }
                        }
                        return None;
                    },
                }
                i = i + 1;
            }
            proof {
                lemma_jvals_len(items@);
                assert forall|k: int| 0 <= k < items@.len() implies jvals_of(items@)[k]
                    == department_member_seq_jvals(out@)[k] by {
                    lemma_jvals_index(items@, k);
                }
                assert(jvals_of(items@) =~= department_member_seq_jvals(out@));
            }
            Some(out)
        },
        _ => {
            proof {
                assert forall|s: Seq<DepartmentMember>|
                    jval_of(*v) == JVal::Arr(department_member_seq_jvals(s)) implies false by {}
            }
            None
        },
    }
}

/// Values agreeing with a department-members response body.
pub open spec fn department_members_resp_jval(x: DepartmentMembersResp) -> JVal {
    JVal::Obj(
        seq![
            ("errcode"@, j_opt_i32(x.code)),
            ("errmsg"@, j_opt_str(x.msg)),
            ("userlist"@, JVal::Arr(department_member_seq_jvals(x.members@))),
        ],
    )
}

/// Two department-members responses agree in every populated field.
pub open spec fn department_members_resp_eqv(
    a: DepartmentMembersResp,
    b: DepartmentMembersResp,
) -> bool {
    &&& a.code == b.code
    &&& opt_str_eqv(a.msg, b.msg)
    &&& department_member_seq_eqv(a.members@, b.members@)
}

/// Department-members responses with the same JSON value agree in
/// every populated field.
pub proof fn lemma_department_members_resp_jval_injective(
    a: DepartmentMembersResp,
    b: DepartmentMembersResp,
)
    requires
        department_members_resp_jval(a) == department_members_resp_jval(b),
    ensures
        department_members_resp_eqv(a, b),
{
    let sa = department_members_resp_jval(a)->Obj_0;
    let sb = department_members_resp_jval(b)->Obj_0;
    assert(sa[0] == sb[0] && sa[1] == sb[1] && sa[2] == sb[2]);
    lemma_j_opt_i32_injective(a.code, b.code);
    lemma_j_opt_str_injective(a.msg, b.msg);
    lemma_department_member_seq_jvals_injective(a.members@, b.members@);
}

/// Encodes a department-members response.
pub fn encode_department_members_resp(x: &DepartmentMembersResp) -> (r: Json)
    ensures
        r@ == department_members_resp_jval(*x),
{
    let mut entries: Vec<(String, Json)> = Vec::new();
    let v0 = enc_opt_i32(&x.code);
    obj_push(&mut entries, "errcode", v0);
    let v1 = enc_opt_str(&x.msg);
    obj_push(&mut entries, "errmsg", v1);
    let v2 = enc_department_member_arr(&x.members);
    obj_push(&mut entries, "userlist", v2);
    proof {
        assert(jobj_of(entries@) =~= department_members_resp_jval(*x)->Obj_0);
    }
    Json::Obj(entries)
}

/// The shape a department-members response forces on the tree that
/// carries it.
proof fn lemma_department_members_resp_shape(j: Json, x: DepartmentMembersResp)
    requires
        jval_of(j) == department_members_resp_jval(x),
    ensures
        j matches Json::Obj(entries) && {
            &&& entries@.len() == 3
            &&& entries@[0].0@ == "errcode"@ && jval_of(entries@[0].1) == j_opt_i32(x.code)
            &&& entries@[1].0@ == "errmsg"@ && jval_of(entries@[1].1) == j_opt_str(x.msg)
            &&& entries@[2].0@ == "userlist"@ && jval_of(entries@[2].1) == JVal::Arr(
                department_member_seq_jvals(x.members@),
            )
        },
{
    match j {
        Json::Obj(entries) => {
            lemma_jobj_len(entries@);
            lemma_jobj_index(entries@, 0);
            lemma_jobj_index(entries@, 1);
            lemma_jobj_index(entries@, 2);
        },
        _ => {
            assert(false);
        },
    }
}

/// Decodes a department-members response.
pub fn decode_department_members_resp(j: &Json) -> (r: Option<DepartmentMembersResp>)
    ensures
        r matches Some(y) ==> jval_of(*j) == department_members_resp_jval(y),
        forall|x: DepartmentMembersResp| jval_of(*j) == department_members_resp_jval(x) ==> r
            is Some,
{
    match j {
        Json::Obj(entries) => {
            if entries.len() != 3 || !str_eq(&entries[0].0, "errcode") || !str_eq(
                &entries[1].0,
                "errmsg",
            ) || !str_eq(&entries[2].0, "userlist") {
                proof {
                    assert forall|x: DepartmentMembersResp|
                        jval_of(*j) == department_members_resp_jval(x) implies false by {
                        lemma_department_members_resp_shape(*j, x);
                    }
                }
                return None;
            }
            let code = dec_opt_i32(&entries[0].1);
            let msg = dec_opt_str(&entries[1].1);
            let members = dec_department_member_arr(&entries[2].1);
            match (code, msg, members) {
                (Some(code), Some(msg), Some(members)) => {
                    let y = DepartmentMembersResp { code, msg, members };
                    proof {
                        lemma_jobj_len(entries@);
                        lemma_jobj_index(entries@, 0);
                        lemma_jobj_index(entries@, 1);
                        lemma_jobj_index(entries@, 2);
                        assert(jobj_of(entries@) =~= department_members_resp_jval(y)->Obj_0);
                    }
                    Some(y)
                },
                _ => {
                    proof {
                        assert forall|x: DepartmentMembersResp|
                            jval_of(*j) == department_members_resp_jval(x) implies false by {
                            lemma_department_members_resp_shape(*j, x);
                        }
                    }
                    None
                },
            }
        },
        _ => {
            proof {
                assert forall|x: DepartmentMembersResp|
                    jval_of(*j) == department_members_resp_jval(x) implies false by {
                    lemma_department_members_resp_shape(*j, x);
                }
            }
            None
        },
    }
}

/// The encode-decode round trip of a department-members response
/// loses nothing.
pub proof fn lemma_department_members_resp_roundtrip(
    x: DepartmentMembersResp,
    r: Option<DepartmentMembersResp>,
)
    requires
        r matches Some(y) ==> department_members_resp_jval(x) == department_members_resp_jval(y),
        forall|z: DepartmentMembersResp| department_members_resp_jval(x)
            == department_members_resp_jval(z) ==> r is Some,
    ensures
        r matches Some(y) && department_members_resp_eqv(y, x),
{
    assert(department_members_resp_jval(x) == department_members_resp_jval(x));
    lemma_department_members_resp_jval_injective(r->0, x);
}


/// Values agreeing with a user reference in an agent's allow list.
pub open spec fn user_jval(x: User) -> JVal {
    JVal::Obj(seq![("userid"@, JVal::Str(x.user_id@))])
}

/// Two user references agree.
pub open spec fn user_eqv(a: User, b: User) -> bool {
    a.user_id@ == b.user_id@
}

/// User references with the same JSON value agree.
pub proof fn lemma_user_jval_injective(a: User, b: User)
    requires
        user_jval(a) == user_jval(b),
    ensures
        user_eqv(a, b),
{
    let sa = user_jval(a)->Obj_0;
    let sb = user_jval(b)->Obj_0;
    assert(sa[0] == sb[0]);
}

/// Encodes a user reference.
pub fn encode_user(x: &User) -> (r: Json)
    ensures
        r@ == user_jval(*x),
{
    let mut entries: Vec<(String, Json)> = Vec::new();
    obj_push(&mut entries, "userid", Json::Str(x.user_id.clone()));
    proof {
        assert(jobj_of(entries@) =~= user_jval(*x)->Obj_0);
    }
    Json::Obj(entries)
}

/// The shape a user reference forces on the tree that carries it.
proof fn lemma_user_shape(j: Json, x: User)
    requires
        jval_of(j) == user_jval(x),
    ensures
        j matches Json::Obj(entries) && {
            &&& entries@.len() == 1
            &&& entries@[0].0@ == "userid"@ && jval_of(entries@[0].1) == JVal::Str(x.user_id@)
        },
{
    match j {
        Json::Obj(entries) => {
            lemma_jobj_len(entries@);
            lemma_jobj_index(entries@, 0);
        },
        _ => {
            assert(false);
        },
    }
}

/// Decodes a user reference.
pub fn decode_user(j: &Json) -> (r: Option<User>)
    ensures
        r matches Some(y) ==> jval_of(*j) == user_jval(y),
        forall|x: User| jval_of(*j) == user_jval(x) ==> r is Some,
{
    match j {
        Json::Obj(entries) => {
            if entries.len() != 1 || !str_eq(&entries[0].0, "userid") {
                proof {
                    assert forall|x: User| jval_of(*j) == user_jval(x) implies false by {
                        lemma_user_shape(*j, x);
                    }
                }
                return None;
            }
            match dec_string(&entries[0].1) {
                Some(user_id) => {
                    let y = User { user_id };
                    proof {
                        lemma_jobj_len(entries@);
                        lemma_jobj_index(entries@, 0);
                        assert(jobj_of(entries@) =~= user_jval(y)->Obj_0);
                    }
                    Some(y)
                },
                None => {
                    proof {
                        assert forall|x: User| jval_of(*j) == user_jval(x) implies false by {
                            lemma_user_shape(*j, x);
                        }
                    }
                    None
                },
            }
        },
        _ => {
            proof {
                assert forall|x: User| jval_of(*j) == user_jval(x) implies false by {
                    lemma_user_shape(*j, x);
                }
            }
            None
        },
    }
}

/// The encode-decode round trip of a user reference loses nothing.
pub proof fn lemma_user_roundtrip(x: User, r: Option<User>)
    requires
        r matches Some(y) ==> user_jval(x) == user_jval(y),
        forall|z: User| user_jval(x) == user_jval(z) ==> r is Some,
    ensures
        r matches Some(y) && user_eqv(y, x),
{
    assert(user_jval(x) == user_jval(x));
    lemma_user_jval_injective(r->0, x);
}

/// JSON values of a sequence of user references.
pub open spec fn user_seq_jvals(s: Seq<User>) -> Seq<JVal> {
    s.map_values(|u: User| user_jval(u))
}

/// Two user sequences agree pointwise.
pub open spec fn user_seq_eqv(a: Seq<User>, b: Seq<User>) -> bool {
    a.len() == b.len() && forall|k: int| 0 <= k < a.len() ==> user_eqv(#[trigger] a[k], b[k])
}

/// User sequences with the same JSON values agree pointwise.
pub proof fn lemma_user_seq_jvals_injective(a: Seq<User>, b: Seq<User>)
    requires
        user_seq_jvals(a) == user_seq_jvals(b),
    ensures
        user_seq_eqv(a, b),
{
    assert(user_seq_jvals(a).len() == a.len());
    assert(user_seq_jvals(b).len() == b.len());
    assert forall|k: int| 0 <= k < a.len() implies user_eqv(#[trigger] a[k], b[k]) by {
        assert(user_seq_jvals(a)[k] == user_jval(a[k]));
        assert(user_seq_jvals(b)[k] == user_jval(b[k]));
        lemma_user_jval_injective(a[k], b[k]);
    }
}

/// Encodes an array of user references.
#[verifier::loop_isolation(false)]
fn enc_user_arr(v: &Vec<User>) -> (r: Json)
    ensures
        jval_of(r) == JVal::Arr(user_seq_jvals(v@)),
{
    let mut out: Vec<Json> = Vec::new();
    let mut i: usize = 0;
    while i < v.len()
        invariant
            0 <= i <= v@.len(),
            out@.len() == i,
            forall|k: int| 0 <= k < i ==> jval_of(#[trigger] out@[k]) == user_jval(v@[k]),
        decreases v@.len() - i,
    {
        let e = encode_user(&v[i]);
        out.push(e);
        i = i + 1;
    }
    proof {
        lemma_jvals_len(out@);
        assert forall|k: int| 0 <= k < out@.len() implies jvals_of(out@)[k] == user_seq_jvals(
            v@,
        )[k] by {
            lemma_jvals_index(out@, k);
        }
        assert(jvals_of(out@) =~= user_seq_jvals(v@));
    }
    Json::Arr(out)
}

/// Decodes an array of user references.
#[verifier::loop_isolation(false)]
fn dec_user_arr(v: &Json) -> (r: Option<Vec<User>>)
    ensures
        r matches Some(out) ==> jval_of(*v) == JVal::Arr(user_seq_jvals(out@)),
        forall|s: Seq<User>| jval_of(*v) == JVal::Arr(user_seq_jvals(s)) ==> r is Some,
{
    match v {
        Json::Arr(items) => {
            let mut out: Vec<User> = Vec::new();
            let mut i: usize = 0;
            while i < items.len()
                invariant
                    0 <= i <= items@.len(),
                    out@.len() == i,
                    forall|k: int|
                        0 <= k < i ==> jval_of(items@[k]) == user_jval(#[trigger] out@[k]),
                decreases items@.len() - i,
            {
                match decode_user(&items[i]) {
                    Some(m) => {
                        out.push(m);
                    },
                    None => {
                        proof {
                            assert forall|s: Seq<User>|
                                jval_of(*v) == JVal::Arr(user_seq_jvals(s)) implies false by {
                                lemma_jvals_len(items@);
                                lemma_jvals_index(items@, i as int);
                                assert(user_seq_jvals(s).len() == s.len());
                                assert(user_seq_jvals(s)[i as int] == user_jval(s[i as int]));
                                assert(jval_of(items@[i as int]) == user_jval(s[i as int]));
                            }
                        }
                        return None;
                    },
                }
                i = i + 1;
            }
            proof {
                lemma_jvals_len(items@);
                assert forall|k: int| 0 <= k < items@.len() implies jvals_of(items@)[k]
                    == user_seq_jvals(out@)[k] by {
                    lemma_jvals_index(items@, k);
                }
                assert(jvals_of(items@) =~= user_seq_jvals(out@));
            }
            Some(out)
        },
        _ => {
            proof {
                assert forall|s: Seq<User>|
                    jval_of(*v) == JVal::Arr(user_seq_jvals(s)) implies false by {}
            }
            None
        },
    }
}

/// Values agreeing with an agent's allow userinfos allow list.
pub open spec fn allow_userinfos_jval(x: AllowUserInfos) -> JVal {
    JVal::Obj(seq![("user"@, JVal::Arr(user_seq_jvals(x.user@)))])
}

/// Two values of this allow list agree.
pub open spec fn allow_userinfos_eqv(a: AllowUserInfos, b: AllowUserInfos) -> bool {
    user_seq_eqv(a.user@, b.user@)
}

/// Allow lists with the same JSON value agree.
pub proof fn lemma_allow_userinfos_jval_injective(a: AllowUserInfos, b: AllowUserInfos)
    requires
        allow_userinfos_jval(a) == allow_userinfos_jval(b),
    ensures
        allow_userinfos_eqv(a, b),
{
    let sa = allow_userinfos_jval(a)->Obj_0;
    let sb = allow_userinfos_jval(b)->Obj_0;
    assert(sa[0] == sb[0]);
    lemma_user_seq_jvals_injective(a.user@, b.user@);
}

/// Encodes this allow list.
pub fn encode_allow_userinfos(x: &AllowUserInfos) -> (r: Json)
    ensures
        r@ == allow_userinfos_jval(*x),
{
    let mut entries: Vec<(String, Json)> = Vec::new();
    let v0 = enc_user_arr(&x.user);
    obj_push(&mut entries, "user", v0);
    proof {
        assert(jobj_of(entries@) =~= allow_userinfos_jval(*x)->Obj_0);
    }
    Json::Obj(entries)
}

/// The shape this allow list forces on the tree that carries it.
proof fn lemma_allow_userinfos_shape(j: Json, x: AllowUserInfos)
    requires
        jval_of(j) == allow_userinfos_jval(x),
    ensures
        j matches Json::Obj(entries) && {
            &&& entries@.len() == 1
            &&& entries@[0].0@ == "user"@ && jval_of(entries@[0].1) == JVal::Arr(user_seq_jvals(x.user@))
        },
{
    match j {
        Json::Obj(entries) => {
            lemma_jobj_len(entries@);
            lemma_jobj_index(entries@, 0);
        },
        _ => {
            assert(false);
        },
    }
}

/// Decodes this allow list.
pub fn decode_allow_userinfos(j: &Json) -> (r: Option<AllowUserInfos>)
    ensures
        r matches Some(y) ==> jval_of(*j) == allow_userinfos_jval(y),
        forall|x: AllowUserInfos| jval_of(*j) == allow_userinfos_jval(x) ==> r is Some,
{
    match j {
        Json::Obj(entries) => {
            if entries.len() != 1 || !str_eq(&entries[0].0, "user") {
                proof {
                    assert forall|x: AllowUserInfos| jval_of(*j) == allow_userinfos_jval(x) implies false by {
                        lemma_allow_userinfos_shape(*j, x);
                    }
                }
                return None;
            }
            match dec_user_arr(&entries[0].1) {
                Some(user) => {
                    let y = AllowUserInfos { user };
                    proof {
                        lemma_jobj_len(entries@);
                        lemma_jobj_index(entries@, 0);
                        assert(jobj_of(entries@) =~= allow_userinfos_jval(y)->Obj_0);
                    }
                    Some(y)
                },
                None => {
                    proof {
                        assert forall|x: AllowUserInfos| jval_of(*j) == allow_userinfos_jval(x) implies false by {
                            lemma_allow_userinfos_shape(*j, x);
                        }
                    }
                    None
                },
            }
        },
        _ => {
            proof {
                assert forall|x: AllowUserInfos| jval_of(*j) == allow_userinfos_jval(x) implies false by {
                    lemma_allow_userinfos_shape(*j, x);
                }
            }
            None
        },
    }
}

/// The encode-decode round trip of this allow list loses nothing.
pub proof fn lemma_allow_userinfos_roundtrip(x: AllowUserInfos, r: Option<AllowUserInfos>)
    requires
        r matches Some(y) ==> allow_userinfos_jval(x) == allow_userinfos_jval(y),
        forall|z: AllowUserInfos| allow_userinfos_jval(x) == allow_userinfos_jval(z) ==> r is Some,
    ensures
        r matches Some(y) && allow_userinfos_eqv(y, x),
{
    assert(allow_userinfos_jval(x) == allow_userinfos_jval(x));
    lemma_allow_userinfos_jval_injective(r->0, x);
}

/// Values agreeing with an agent's allow parties allow list.
pub open spec fn allow_parties_jval(x: AllowParties) -> JVal {
    JVal::Obj(seq![("partyid"@, j_u32_arr(x.party_id@))])
}

/// Two values of this allow list agree.
pub open spec fn allow_parties_eqv(a: AllowParties, b: AllowParties) -> bool {
    a.party_id@ == b.party_id@
}

/// Allow lists with the same JSON value agree.
pub proof fn lemma_allow_parties_jval_injective(a: AllowParties, b: AllowParties)
    requires
        allow_parties_jval(a) == allow_parties_jval(b),
    ensures
        allow_parties_eqv(a, b),
{
    let sa = allow_parties_jval(a)->Obj_0;
    let sb = allow_parties_jval(b)->Obj_0;
    assert(sa[0] == sb[0]);
    lemma_j_u32_arr_injective(a.party_id@, b.party_id@);
}

/// Encodes this allow list.
pub fn encode_allow_parties(x: &AllowParties) -> (r: Json)
    ensures
        r@ == allow_parties_jval(*x),
{
    let mut entries: Vec<(String, Json)> = Vec::new();
    let v0 = enc_u32_arr(&x.party_id);
    obj_push(&mut entries, "partyid", v0);
    proof {
        assert(jobj_of(entries@) =~= allow_parties_jval(*x)->Obj_0);
    }
    Json::Obj(entries)
}

/// The shape this allow list forces on the tree that carries it.
proof fn lemma_allow_parties_shape(j: Json, x: AllowParties)
    requires
        jval_of(j) == allow_parties_jval(x),
    ensures
        j matches Json::Obj(entries) && {
            &&& entries@.len() == 1
            &&& entries@[0].0@ == "partyid"@ && jval_of(entries@[0].1) == j_u32_arr(x.party_id@)
        },
{
    match j {
        Json::Obj(entries) => {
            lemma_jobj_len(entries@);
            lemma_jobj_index(entries@, 0);
        },
        _ => {
            assert(false);
        },
    }
}

/// Decodes this allow list.
pub fn decode_allow_parties(j: &Json) -> (r: Option<AllowParties>)
    ensures
        r matches Some(y) ==> jval_of(*j) == allow_parties_jval(y),
        forall|x: AllowParties| jval_of(*j) == allow_parties_jval(x) ==> r is Some,
{
    match j {
        Json::Obj(entries) => {
            if entries.len() != 1 || !str_eq(&entries[0].0, "partyid") {
                proof {
                    assert forall|x: AllowParties| jval_of(*j) == allow_parties_jval(x) implies false by {
                        lemma_allow_parties_shape(*j, x);
                    }
                }
                return None;
            }
            match dec_u32_arr(&entries[0].1) {
                Some(party_id) => {
                    let y = AllowParties { party_id };
                    proof {
                        lemma_jobj_len(entries@);
                        lemma_jobj_index(entries@, 0);
                        assert(jobj_of(entries@) =~= allow_parties_jval(y)->Obj_0);
                    }
                    Some(y)
                },
                None => {
                    proof {
                        assert forall|x: AllowParties| jval_of(*j) == allow_parties_jval(x) implies false by {
                            lemma_allow_parties_shape(*j, x);
                        }
                    }
                    None
                },
            }
        },
        _ => {
            proof {
                assert forall|x: AllowParties| jval_of(*j) == allow_parties_jval(x) implies false by {
                    lemma_allow_parties_shape(*j, x);
                }
            }
            None
        },
    }
}

/// The encode-decode round trip of this allow list loses nothing.
pub proof fn lemma_allow_parties_roundtrip(x: AllowParties, r: Option<AllowParties>)
    requires
        r matches Some(y) ==> allow_parties_jval(x) == allow_parties_jval(y),
        forall|z: AllowParties| allow_parties_jval(x) == allow_parties_jval(z) ==> r is Some,
    ensures
        r matches Some(y) && allow_parties_eqv(y, x),
{
    assert(allow_parties_jval(x) == allow_parties_jval(x));
    lemma_allow_parties_jval_injective(r->0, x);
}

/// Values agreeing with an agent's allow tags allow list.
pub open spec fn allow_tags_jval(x: AllowTags) -> JVal {
    JVal::Obj(seq![("tagid"@, j_u32_arr(x.tag_id@))])
}

/// Two values of this allow list agree.
pub open spec fn allow_tags_eqv(a: AllowTags, b: AllowTags) -> bool {
    a.tag_id@ == b.tag_id@
}

/// Allow lists with the same JSON value agree.
pub proof fn lemma_allow_tags_jval_injective(a: AllowTags, b: AllowTags)
    requires
        allow_tags_jval(a) == allow_tags_jval(b),
    ensures
        allow_tags_eqv(a, b),
{
    let sa = allow_tags_jval(a)->Obj_0;
    let sb = allow_tags_jval(b)->Obj_0;
    assert(sa[0] == sb[0]);
    lemma_j_u32_arr_injective(a.tag_id@, b.tag_id@);
}

/// Encodes this allow list.
pub fn encode_allow_tags(x: &AllowTags) -> (r: Json)
    ensures
        r@ == allow_tags_jval(*x),
{
    let mut entries: Vec<(String, Json)> = Vec::new();
    let v0 = enc_u32_arr(&x.tag_id);
    obj_push(&mut entries, "tagid", v0);
    proof {
        assert(jobj_of(entries@) =~= allow_tags_jval(*x)->Obj_0);
    }
    Json::Obj(entries)
}

/// The shape this allow list forces on the tree that carries it.
proof fn lemma_allow_tags_shape(j: Json, x: AllowTags)
    requires
        jval_of(j) == allow_tags_jval(x),
    ensures
        j matches Json::Obj(entries) && {
            &&& entries@.len() == 1
            &&& entries@[0].0@ == "tagid"@ && jval_of(entries@[0].1) == j_u32_arr(x.tag_id@)
        },
{
    match j {
        Json::Obj(entries) => {
            lemma_jobj_len(entries@);
            lemma_jobj_index(entries@, 0);
        },
        _ => {
            assert(false);
        },
    }
}

/// Decodes this allow list.
pub fn decode_allow_tags(j: &Json) -> (r: Option<AllowTags>)
    ensures
        r matches Some(y) ==> jval_of(*j) == allow_tags_jval(y),
        forall|x: AllowTags| jval_of(*j) == allow_tags_jval(x) ==> r is Some,
{
    match j {
        Json::Obj(entries) => {
            if entries.len() != 1 || !str_eq(&entries[0].0, "tagid") {
                proof {
                    assert forall|x: AllowTags| jval_of(*j) == allow_tags_jval(x) implies false by {
                        lemma_allow_tags_shape(*j, x);
                    }
                }
                return None;
            }
            match dec_u32_arr(&entries[0].1) {
                Some(tag_id) => {
                    let y = AllowTags { tag_id };
                    proof {
                        lemma_jobj_len(entries@);
                        lemma_jobj_index(entries@, 0);
                        assert(jobj_of(entries@) =~= allow_tags_jval(y)->Obj_0);
                    }
                    Some(y)
                },
                None => {
                    proof {
                        assert forall|x: AllowTags| jval_of(*j) == allow_tags_jval(x) implies false by {
                            lemma_allow_tags_shape(*j, x);
                        }
                    }
                    None
                },
            }
        },
        _ => {
            proof {
                assert forall|x: AllowTags| jval_of(*j) == allow_tags_jval(x) implies false by {
                    lemma_allow_tags_shape(*j, x);
                }
            }
            None
        },
    }
}

/// The encode-decode round trip of this allow list loses nothing.
pub proof fn lemma_allow_tags_roundtrip(x: AllowTags, r: Option<AllowTags>)
    requires
        r matches Some(y) ==> allow_tags_jval(x) == allow_tags_jval(y),
        forall|z: AllowTags| allow_tags_jval(x) == allow_tags_jval(z) ==> r is Some,
    ensures
        r matches Some(y) && allow_tags_eqv(y, x),
{
    assert(allow_tags_jval(x) == allow_tags_jval(x));
    lemma_allow_tags_jval_injective(r->0, x);
}


/// JSON value of an optional allow userinfos allow list.
pub open spec fn j_opt_allow_userinfos(o: Option<AllowUserInfos>) -> JVal {
    match o {
        Option::Some(v) => allow_userinfos_jval(v),
        Option::None => JVal::Null,
    }
}

/// Two optional allow lists agree.
pub open spec fn opt_allow_userinfos_eqv(a: Option<AllowUserInfos>, b: Option<AllowUserInfos>) -> bool {
    (a is Some <==> b is Some) && (a is Some ==> allow_userinfos_eqv(a->0, b->0))
}

/// Optional allow lists with the same JSON value agree.
pub proof fn lemma_j_opt_allow_userinfos_injective(a: Option<AllowUserInfos>, b: Option<AllowUserInfos>)
    requires
        j_opt_allow_userinfos(a) == j_opt_allow_userinfos(b),
    ensures
        opt_allow_userinfos_eqv(a, b),
{
    match (a, b) {
        (Option::Some(av), Option::Some(bv)) => {
            lemma_allow_userinfos_jval_injective(av, bv);
        },
        _ => {},
    }
}

/// Encodes an optional allow list.
fn enc_opt_allow_userinfos(o: &Option<AllowUserInfos>) -> (r: Json)
    ensures
        jval_of(r) == j_opt_allow_userinfos(*o),
{
    match o {
        Some(v) => encode_allow_userinfos(v),
        None => Json::Null,
    }
}

/// Decodes an optional allow list: null or the allow-list object.
fn dec_opt_allow_userinfos(v: &Json) -> (r: Option<Option<AllowUserInfos>>)
    ensures
        r matches Some(o) ==> jval_of(*v) == j_opt_allow_userinfos(o),
        jval_of(*v) == JVal::Null ==> r is Some,
        forall|x: AllowUserInfos| jval_of(*v) == allow_userinfos_jval(x) ==> r is Some,
{
    match v {
        Json::Null => Some(None),
        _ => {
            match decode_allow_userinfos(v) {
                Some(y) => Some(Some(y)),
                None => None,
            }
        },
    }
}

/// JSON value of an optional allow parties allow list.
pub open spec fn j_opt_allow_parties(o: Option<AllowParties>) -> JVal {
    match o {
        Option::Some(v) => allow_parties_jval(v),
        Option::None => JVal::Null,
    }
}

/// Two optional allow lists agree.
pub open spec fn opt_allow_parties_eqv(a: Option<AllowParties>, b: Option<AllowParties>) -> bool {
    (a is Some <==> b is Some) && (a is Some ==> allow_parties_eqv(a->0, b->0))
}

/// Optional allow lists with the same JSON value agree.
pub proof fn lemma_j_opt_allow_parties_injective(a: Option<AllowParties>, b: Option<AllowParties>)
    requires
        j_opt_allow_parties(a) == j_opt_allow_parties(b),
    ensures
        opt_allow_parties_eqv(a, b),
{
    match (a, b) {
        (Option::Some(av), Option::Some(bv)) => {
            lemma_allow_parties_jval_injective(av, bv);
        },
        _ => {},
    }
}

/// Encodes an optional allow list.
fn enc_opt_allow_parties(o: &Option<AllowParties>) -> (r: Json)
    ensures
        jval_of(r) == j_opt_allow_parties(*o),
{
    match o {
        Some(v) => encode_allow_parties(v),
        None => Json::Null,
    }
}

/// Decodes an optional allow list: null or the allow-list object.
fn dec_opt_allow_parties(v: &Json) -> (r: Option<Option<AllowParties>>)
    ensures
        r matches Some(o) ==> jval_of(*v) == j_opt_allow_parties(o),
        jval_of(*v) == JVal::Null ==> r is Some,
        forall|x: AllowParties| jval_of(*v) == allow_parties_jval(x) ==> r is Some,
{
    match v {
        Json::Null => Some(None),
        _ => {
            match decode_allow_parties(v) {
                Some(y) => Some(Some(y)),
                None => None,
            }
        },
    }
}

/// JSON value of an optional allow tags allow list.
pub open spec fn j_opt_allow_tags(o: Option<AllowTags>) -> JVal {
    match o {
        Option::Some(v) => allow_tags_jval(v),
        Option::None => JVal::Null,
    }
}

/// Two optional allow lists agree.
pub open spec fn opt_allow_tags_eqv(a: Option<AllowTags>, b: Option<AllowTags>) -> bool {
    (a is Some <==> b is Some) && (a is Some ==> allow_tags_eqv(a->0, b->0))
}

/// Optional allow lists with the same JSON value agree.
pub proof fn lemma_j_opt_allow_tags_injective(a: Option<AllowTags>, b: Option<AllowTags>)
    requires
        j_opt_allow_tags(a) == j_opt_allow_tags(b),
    ensures
        opt_allow_tags_eqv(a, b),
{
    match (a, b) {
        (Option::Some(av), Option::Some(bv)) => {
            lemma_allow_tags_jval_injective(av, bv);
        },
        _ => {},
    }
}

/// Encodes an optional allow list.
fn enc_opt_allow_tags(o: &Option<AllowTags>) -> (r: Json)
    ensures
        jval_of(r) == j_opt_allow_tags(*o),
{
    match o {
        Some(v) => encode_allow_tags(v),
        None => Json::Null,
    }
}

/// Decodes an optional allow list: null or the allow-list object.
fn dec_opt_allow_tags(v: &Json) -> (r: Option<Option<AllowTags>>)
    ensures
        r matches Some(o) ==> jval_of(*v) == j_opt_allow_tags(o),
        jval_of(*v) == JVal::Null ==> r is Some,
        forall|x: AllowTags| jval_of(*v) == allow_tags_jval(x) ==> r is Some,
{
    match v {
        Json::Null => Some(None),
        _ => {
            match decode_allow_tags(v) {
                Some(y) => Some(Some(y)),
                None => None,
            }
        },
    }
}

/// Values agreeing with a per-agent detail body.
pub open spec fn agent_detail_jval(x: AgentDetail) -> JVal {
    JVal::Obj(
        seq![
            ("errcode"@, j_opt_i32(x.code)),
            ("errmsg"@, j_opt_str(x.msg)),
            ("agentid"@, j_opt_u32(x.agent_id)),
            ("square_logo_url"@, j_opt_str(x.square_logo_url)),
            ("description"@, j_opt_str(x.description)),
            ("allow_userinfos"@, j_opt_allow_userinfos(x.allow_userinfos)),
            ("allow_partys"@, j_opt_allow_parties(x.allow_parties)),
            ("allow_tags"@, j_opt_allow_tags(x.allow_tags)),
            ("close"@, j_opt_u32(x.close)),
            ("redirect_domain"@, j_opt_str(x.redirect_domain)),
            ("report_location_flag"@, j_opt_u32(x.report_location_flag)),
            ("isreportenter"@, j_opt_u32(x.is_report_enter)),
            ("home_url"@, j_opt_str(x.home_url)),
            ("customized_publish_status"@, j_opt_u32(x.publish_status)),
        ],
    )
}

/// Two agent details agree in every populated field.
pub open spec fn agent_detail_eqv(a: AgentDetail, b: AgentDetail) -> bool {
    &&& a.code == b.code
    &&& opt_str_eqv(a.msg, b.msg)
    &&& a.agent_id == b.agent_id
    &&& opt_str_eqv(a.square_logo_url, b.square_logo_url)
    &&& opt_str_eqv(a.description, b.description)
    &&& opt_allow_userinfos_eqv(a.allow_userinfos, b.allow_userinfos)
    &&& opt_allow_parties_eqv(a.allow_parties, b.allow_parties)
    &&& opt_allow_tags_eqv(a.allow_tags, b.allow_tags)
    &&& a.close == b.close
    &&& opt_str_eqv(a.redirect_domain, b.redirect_domain)
    &&& a.report_location_flag == b.report_location_flag
    &&& a.is_report_enter == b.is_report_enter
    &&& opt_str_eqv(a.home_url, b.home_url)
    &&& a.publish_status == b.publish_status
}

/// Agent details with the same JSON value agree in every field.
#[verifier::rlimit(100)]
pub proof fn lemma_agent_detail_jval_injective(a: AgentDetail, b: AgentDetail)
    requires
        agent_detail_jval(a) == agent_detail_jval(b),
    ensures
        agent_detail_eqv(a, b),
{
    let sa = agent_detail_jval(a)->Obj_0;
    let sb = agent_detail_jval(b)->Obj_0;
    assert(sa[0] == sb[0]);
    assert(sa[1] == sb[1]);
    assert(sa[2] == sb[2]);
    assert(sa[3] == sb[3]);
    assert(sa[4] == sb[4]);
    assert(sa[5] == sb[5]);
    assert(sa[6] == sb[6]);
    assert(sa[7] == sb[7]);
    assert(sa[8] == sb[8]);
    assert(sa[9] == sb[9]);
    assert(sa[10] == sb[10]);
    assert(sa[11] == sb[11]);
    assert(sa[12] == sb[12]);
    assert(sa[13] == sb[13]);
    lemma_j_opt_i32_injective(a.code, b.code);
    lemma_j_opt_str_injective(a.msg, b.msg);
    lemma_j_opt_u32_injective(a.agent_id, b.agent_id);
    lemma_j_opt_str_injective(a.square_logo_url, b.square_logo_url);
    lemma_j_opt_str_injective(a.description, b.description);
    lemma_j_opt_allow_userinfos_injective(a.allow_userinfos, b.allow_userinfos);
    lemma_j_opt_allow_parties_injective(a.allow_parties, b.allow_parties);
    lemma_j_opt_allow_tags_injective(a.allow_tags, b.allow_tags);
    lemma_j_opt_u32_injective(a.close, b.close);
    lemma_j_opt_str_injective(a.redirect_domain, b.redirect_domain);
    lemma_j_opt_u32_injective(a.report_location_flag, b.report_location_flag);
    lemma_j_opt_u32_injective(a.is_report_enter, b.is_report_enter);
    lemma_j_opt_str_injective(a.home_url, b.home_url);
    lemma_j_opt_u32_injective(a.publish_status, b.publish_status);
}

/// Encodes a per-agent detail body.
#[verifier::rlimit(100)]
pub fn encode_agent_detail(x: &AgentDetail) -> (r: Json)
    ensures
        r@ == agent_detail_jval(*x),
{
    let mut entries: Vec<(String, Json)> = Vec::new();
    let v0 = enc_opt_i32(&x.code);
    obj_push(&mut entries, "errcode", v0);
    let v1 = enc_opt_str(&x.msg);
    obj_push(&mut entries, "errmsg", v1);
    let v2 = enc_opt_u32(&x.agent_id);
    obj_push(&mut entries, "agentid", v2);
    let v3 = enc_opt_str(&x.square_logo_url);
    obj_push(&mut entries, "square_logo_url", v3);
    let v4 = enc_opt_str(&x.description);
    obj_push(&mut entries, "description", v4);
    let v5 = enc_opt_allow_userinfos(&x.allow_userinfos);
    obj_push(&mut entries, "allow_userinfos", v5);
    let v6 = enc_opt_allow_parties(&x.allow_parties);
    obj_push(&mut entries, "allow_partys", v6);
    let v7 = enc_opt_allow_tags(&x.allow_tags);
    obj_push(&mut entries, "allow_tags", v7);
    let v8 = enc_opt_u32(&x.close);
    obj_push(&mut entries, "close", v8);
    let v9 = enc_opt_str(&x.redirect_domain);
    obj_push(&mut entries, "redirect_domain", v9);
    let v10 = enc_opt_u32(&x.report_location_flag);
    obj_push(&mut entries, "report_location_flag", v10);
    let v11 = enc_opt_u32(&x.is_report_enter);
    obj_push(&mut entries, "isreportenter", v11);
    let v12 = enc_opt_str(&x.home_url);
    obj_push(&mut entries, "home_url", v12);
    let v13 = enc_opt_u32(&x.publish_status);
    obj_push(&mut entries, "customized_publish_status", v13);
    proof {
        assert(jobj_of(entries@) =~= agent_detail_jval(*x)->Obj_0);
    }
    Json::Obj(entries)
}

/// The shape an agent-detail value forces on the tree that carries it.
#[verifier::rlimit(100)]
proof fn lemma_agent_detail_shape(j: Json, x: AgentDetail)
    requires
        jval_of(j) == agent_detail_jval(x),
    ensures
        j matches Json::Obj(entries) && {
            &&& entries@.len() == 14
            &&& entries@[0].0@ == "errcode"@ && jval_of(entries@[0].1) == j_opt_i32(x.code)
            &&& entries@[1].0@ == "errmsg"@ && jval_of(entries@[1].1) == j_opt_str(x.msg)
            &&& entries@[2].0@ == "agentid"@ && jval_of(entries@[2].1) == j_opt_u32(x.agent_id)
            &&& entries@[3].0@ == "square_logo_url"@ && jval_of(entries@[3].1) == j_opt_str(x.square_logo_url)
            &&& entries@[4].0@ == "description"@ && jval_of(entries@[4].1) == j_opt_str(x.description)
            &&& entries@[5].0@ == "allow_userinfos"@ && jval_of(entries@[5].1) == j_opt_allow_userinfos(x.allow_userinfos)
            &&& entries@[6].0@ == "allow_partys"@ && jval_of(entries@[6].1) == j_opt_allow_parties(x.allow_parties)
            &&& entries@[7].0@ == "allow_tags"@ && jval_of(entries@[7].1) == j_opt_allow_tags(x.allow_tags)
            &&& entries@[8].0@ == "close"@ && jval_of(entries@[8].1) == j_opt_u32(x.close)
            &&& entries@[9].0@ == "redirect_domain"@ && jval_of(entries@[9].1) == j_opt_str(x.redirect_domain)
            &&& entries@[10].0@ == "report_location_flag"@ && jval_of(entries@[10].1) == j_opt_u32(x.report_location_flag)
            &&& entries@[11].0@ == "isreportenter"@ && jval_of(entries@[11].1) == j_opt_u32(x.is_report_enter)
            &&& entries@[12].0@ == "home_url"@ && jval_of(entries@[12].1) == j_opt_str(x.home_url)
            &&& entries@[13].0@ == "customized_publish_status"@ && jval_of(entries@[13].1) == j_opt_u32(x.publish_status)
        },
{
    match j {
        Json::Obj(entries) => {
            lemma_jobj_len(entries@);
            lemma_jobj_index(entries@, 0);
            lemma_jobj_index(entries@, 1);
            lemma_jobj_index(entries@, 2);
            lemma_jobj_index(entries@, 3);
            lemma_jobj_index(entries@, 4);
            lemma_jobj_index(entries@, 5);
            lemma_jobj_index(entries@, 6);
            lemma_jobj_index(entries@, 7);
            lemma_jobj_index(entries@, 8);
            lemma_jobj_index(entries@, 9);
            lemma_jobj_index(entries@, 10);
            lemma_jobj_index(entries@, 11);
            lemma_jobj_index(entries@, 12);
            lemma_jobj_index(entries@, 13);
        },
        _ => {
            assert(false);
        },
    }
}

/// Decodes a per-agent detail body.
#[verifier::rlimit(100)]
pub fn decode_agent_detail(j: &Json) -> (r: Option<AgentDetail>)
    ensures
        r matches Some(y) ==> jval_of(*j) == agent_detail_jval(y),
        forall|x: AgentDetail| jval_of(*j) == agent_detail_jval(x) ==> r is Some,
{
    match j {
        Json::Obj(entries) => {
            if entries.len() != 14
                || !str_eq(&entries[0].0, "errcode")
                || !str_eq(&entries[1].0, "errmsg")
                || !str_eq(&entries[2].0, "agentid")
                || !str_eq(&entries[3].0, "square_logo_url")
                || !str_eq(&entries[4].0, "description")
                || !str_eq(&entries[5].0, "allow_userinfos")
                || !str_eq(&entries[6].0, "allow_partys")
                || !str_eq(&entries[7].0, "allow_tags")
                || !str_eq(&entries[8].0, "close")
                || !str_eq(&entries[9].0, "redirect_domain")
                || !str_eq(&entries[10].0, "report_location_flag")
                || !str_eq(&entries[11].0, "isreportenter")
                || !str_eq(&entries[12].0, "home_url")
                || !str_eq(&entries[13].0, "customized_publish_status") {
                proof {
                    assert forall|x: AgentDetail|
                        jval_of(*j) == agent_detail_jval(x) implies false by {
                        lemma_agent_detail_shape(*j, x);
                    }
                }
                return None;
            }
            let code = dec_opt_i32(&entries[0].1);
            let msg = dec_opt_str(&entries[1].1);
            let agent_id = dec_opt_u32(&entries[2].1);
            let square_logo_url = dec_opt_str(&entries[3].1);
            let description = dec_opt_str(&entries[4].1);
            let allow_userinfos = dec_opt_allow_userinfos(&entries[5].1);
            let allow_parties = dec_opt_allow_parties(&entries[6].1);
            let allow_tags = dec_opt_allow_tags(&entries[7].1);
            let close = dec_opt_u32(&entries[8].1);
            let redirect_domain = dec_opt_str(&entries[9].1);
            let report_location_flag = dec_opt_u32(&entries[10].1);
            let is_report_enter = dec_opt_u32(&entries[11].1);
            let home_url = dec_opt_str(&entries[12].1);
            let publish_status = dec_opt_u32(&entries[13].1);
            match (code, msg, agent_id, square_logo_url, description, allow_userinfos, allow_parties, allow_tags, close, redirect_domain, report_location_flag, is_report_enter, home_url, publish_status) {
                (Some(code), Some(msg), Some(agent_id), Some(square_logo_url), Some(description), Some(allow_userinfos), Some(allow_parties), Some(allow_tags), Some(close), Some(redirect_domain), Some(report_location_flag), Some(is_report_enter), Some(home_url), Some(publish_status)) => {
                    let y = AgentDetail { code, msg, agent_id, square_logo_url, description, allow_userinfos, allow_parties, allow_tags, close, redirect_domain, report_location_flag, is_report_enter, home_url, publish_status };
                    proof {
                        lemma_jobj_len(entries@);
                        lemma_jobj_index(entries@, 0);
                        lemma_jobj_index(entries@, 1);
                        lemma_jobj_index(entries@, 2);
                        lemma_jobj_index(entries@, 3);
                        lemma_jobj_index(entries@, 4);
                        lemma_jobj_index(entries@, 5);
                        lemma_jobj_index(entries@, 6);
                        lemma_jobj_index(entries@, 7);
                        lemma_jobj_index(entries@, 8);
                        lemma_jobj_index(entries@, 9);
                        lemma_jobj_index(entries@, 10);
                        lemma_jobj_index(entries@, 11);
                        lemma_jobj_index(entries@, 12);
                        lemma_jobj_index(entries@, 13);
                        assert(jobj_of(entries@) =~= agent_detail_jval(y)->Obj_0);
                    }
                    Some(y)
                },
                _ => {
                    proof {
                        assert forall|x: AgentDetail|
                            jval_of(*j) == agent_detail_jval(x) implies false by {
                            lemma_agent_detail_shape(*j, x);
                        }
                    }
                    None
                },
            }
        },
        _ => {
            proof {
                assert forall|x: AgentDetail|
                    jval_of(*j) == agent_detail_jval(x) implies false by {
                    lemma_agent_detail_shape(*j, x);
                }
            }
            None
        },
    }
}

/// The encode-decode round trip of an agent detail loses nothing.
pub proof fn lemma_agent_detail_roundtrip(x: AgentDetail, r: Option<AgentDetail>)
    requires
        r matches Some(y) ==> agent_detail_jval(x) == agent_detail_jval(y),
        forall|z: AgentDetail| agent_detail_jval(x) == agent_detail_jval(z) ==> r is Some,
    ensures
        r matches Some(y) && agent_detail_eqv(y, x),
{
    assert(agent_detail_jval(x) == agent_detail_jval(x));
    lemma_agent_detail_jval_injective(r->0, x);
}

} // verus!
