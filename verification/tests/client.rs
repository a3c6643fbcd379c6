use qywx_dumper::client::{ApiError, WxClient};
use qywx_dumper::data::{GetTokenResp, Success};

fn token_resp(token: Option<&str>) -> GetTokenResp {
    GetTokenResp {
        code: if token.is_some() { Some(0) } else { Some(40001) },
        msg: Some(if token.is_some() { "ok".to_string() } else { "invalid secret".to_string() }),
        access_token: token.map(|t| t.to_string()),
        expires_in: token.map(|_| 7200),
    }
}

#[test]
fn new_without_proxy_succeeds_with_no_token() {
    let c = WxClient::new(None, None, None, None).unwrap();
    assert!(c.token.is_none());
    assert!(c.user_agent.starts_with("Mozilla/5.0"));
}

#[test]
fn new_keeps_custom_user_agent() {
    let c = WxClient::new(None, None, None, Some("dumper/1.0".to_string())).unwrap();
    assert_eq!(c.user_agent, "dumper/1.0");
}

#[test]
fn proxy_credentials_without_proxy_are_rejected() {
    let r = WxClient::new(None, Some("u".to_string()), Some("p".to_string()), None);
    assert_eq!(r.unwrap_err(), ApiError::Configuration);
}

#[test]
fn proxy_with_partial_credentials_is_rejected() {
    let r = WxClient::new(
        Some("http://proxy:8080".to_string()),
        Some("u".to_string()),
        None,
        None,
    );
    assert_eq!(r.unwrap_err(), ApiError::Configuration);
}

#[test]
fn proxy_with_full_credentials_is_accepted() {
    let c = WxClient::new(
        Some("socks5://proxy:1080".to_string()),
        Some("u".to_string()),
        Some("p".to_string()),
        None,
    )
    .unwrap();
    assert_eq!(c.proxy.as_deref(), Some("socks5://proxy:1080"));
}

#[test]
fn proxy_without_credentials_is_accepted() {
    let c = WxClient::new(Some("http://proxy:8080".to_string()), None, None, None).unwrap();
    assert!(c.proxy_user.is_none());
}

#[test]
fn directory_calls_fail_before_login() {
    let c = WxClient::new(None, None, None, None).unwrap();
    assert_eq!(c.get_agent_list_request().unwrap_err(), ApiError::NotLoggedIn);
    assert_eq!(c.get_all_departments_request().unwrap_err(), ApiError::NotLoggedIn);
    assert_eq!(c.get_department_members_request(1, true).unwrap_err(), ApiError::NotLoggedIn);
    assert_eq!(c.get_tags_request().unwrap_err(), ApiError::NotLoggedIn);
    assert_eq!(c.get_tag_members_request(1).unwrap_err(), ApiError::NotLoggedIn);
    assert_eq!(c.get_agent_detail_request(1).unwrap_err(), ApiError::NotLoggedIn);
}

#[test]
fn login_outcome_installs_token() {
    let mut c = WxClient::new(None, None, None, None).unwrap();
    let resp = token_resp(Some("tok-123"));
    assert!(resp.is_success());
    let out = c.login_outcome(resp).unwrap();
    assert_eq!(out.access_token.as_deref(), Some("tok-123"));
    assert_eq!(c.token.as_deref(), Some("tok-123"));
}

#[test]
fn login_outcome_with_invalid_secret_fails_and_installs_nothing() {
    let mut c = WxClient::new(None, None, None, None).unwrap();
    let resp = token_resp(None);
    assert!(!resp.is_success());
    assert_eq!(c.login_outcome(resp).unwrap_err(), ApiError::AuthFailed);
    assert!(c.token.is_none());
    assert_eq!(c.get_tags_request().unwrap_err(), ApiError::NotLoggedIn);
}

#[test]
fn set_token_overwrites() {
    let mut c = WxClient::new(None, None, None, None).unwrap();
    c.set_token("one".to_string());
    c.set_token("two".to_string());
    assert_eq!(c.token.as_deref(), Some("two"));
}

#[test]
fn token_request_carries_both_credentials() {
    let r = WxClient::token_request(&"corp".to_string(), &"secret".to_string());
    assert_eq!(r.url, "https://qyapi.weixin.qq.com/cgi-bin/gettoken");
    assert_eq!(
        r.query,
        vec![
            ("corpid".to_string(), "corp".to_string()),
            ("corpsecret".to_string(), "secret".to_string()),
        ]
    );
}

#[test]
fn agent_list_request_carries_the_token() {
    let mut c = WxClient::new(None, None, None, None).unwrap();
    c.set_token("T".to_string());
    let r = c.get_agent_list_request().unwrap();
    assert_eq!(r.url, "https://qyapi.weixin.qq.com/cgi-bin/agent/list");
    assert_eq!(r.query, vec![("access_token".to_string(), "T".to_string())]);
}

#[test]
fn department_members_request_renders_id_and_flag() {
    let mut c = WxClient::new(None, None, None, None).unwrap();
    c.set_token("T".to_string());
    let r = c.get_department_members_request(42, true).unwrap();
    assert_eq!(r.url, "https://qyapi.weixin.qq.com/cgi-bin/user/list");
    assert_eq!(
        r.query,
        vec![
            ("access_token".to_string(), "T".to_string()),
            ("department_id".to_string(), "42".to_string()),
            ("fetch_child".to_string(), "1".to_string()),
        ]
    );
    let r2 = c.get_department_members_request(7, false).unwrap();
    assert_eq!(r2.query[2], ("fetch_child".to_string(), "0".to_string()));
}

#[test]
fn tag_members_request_renders_id() {
    let mut c = WxClient::new(None, None, None, None).unwrap();
    c.set_token("T".to_string());
    let r = c.get_tag_members_request(4294967295).unwrap();
    assert_eq!(r.url, "https://qyapi.weixin.qq.com/cgi-bin/tag/get");
    assert_eq!(r.query[1], ("tagid".to_string(), "4294967295".to_string()));
}

#[test]
fn agent_detail_request_renders_id() {
    let mut c = WxClient::new(None, None, None, None).unwrap();
    c.set_token("T".to_string());
    let r = c.get_agent_detail_request(0).unwrap();
    assert_eq!(r.url, "https://qyapi.weixin.qq.com/cgi-bin/agent/get");
    assert_eq!(r.query[1], ("agentid".to_string(), "0".to_string()));
}

#[test]
fn error_messages_name_the_failure() {
    assert_eq!(ApiError::NotLoggedIn.message(), "Token is None, not login");
    assert_eq!(ApiError::AuthFailed.message(), "Failed to get token");
}
