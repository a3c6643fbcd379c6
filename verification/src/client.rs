use vstd::prelude::*;

use crate::data::{GetTokenResp, Success};

verus! {

/// Failures that the client itself decides (before or after the
/// transport runs); transport and decode failures are carried by
/// `FetchError`.
#[derive(Debug, Clone, PartialEq, Eq)]
pub enum ApiError {
    /// Proxy credentials and proxy URL were not co-supplied.
    Configuration,
    /// A directory call was attempted before a token was installed.
    NotLoggedIn,
    /// The token endpoint answered without a token.
    AuthFailed,
}

impl ApiError {
    /// A fixed description of the failure, for log lines.
    pub fn message(&self) -> (r: String)
        ensures
            *self == ApiError::Configuration ==> r@ == "proxy credentials must be co-supplied with a proxy"@,
            *self == ApiError::NotLoggedIn ==> r@ == "Token is None, not login"@,
            *self == ApiError::AuthFailed ==> r@ == "Failed to get token"@,
    {
        match self {
            ApiError::Configuration => String::from_str(
                "proxy credentials must be co-supplied with a proxy",
            ),
            ApiError::NotLoggedIn => String::from_str("Token is None, not login"),
            ApiError::AuthFailed => String::from_str("Failed to get token"),
        }
    }
}

/// A failure of one outbound call, as the transport reports it back to
/// the dispatcher: the network failed, or the body did not decode.
#[derive(Debug, Clone, PartialEq, Eq)]
pub enum FetchError {
    Transport,
    Decode,
}

/// One GET against the directory API, fully determined: the URL and
/// the query parameters in order. The transport issues exactly this.
#[derive(Debug, Clone, PartialEq)]
pub struct ApiRequest {
    pub url: String,
    pub query: Vec<(String, String)>,
}

/// The proxy settings are coherent: credentials only beside a proxy,
/// and never only half of them.
pub open spec fn proxy_config_ok(
    proxy: Option<String>,
    user: Option<String>,
    password: Option<String>,
) -> bool {
    ||| (user is None && password is None)
    ||| (proxy is Some && user is Some && password is Some)
}

/// The directory client's decision state: transport settings resolved
/// at construction, and the token installed by authentication.
#[derive(Debug, Clone, PartialEq)]
pub struct WxClient {
    pub proxy: Option<String>,
    pub proxy_user: Option<String>,
    pub proxy_password: Option<String>,
    pub user_agent: String,
    pub token: Option<String>,
}

/// Browser-like user agent used when the caller supplies none.
pub fn default_user_agent() -> (r: String)
    ensures
        r@ == "Mozilla/5.0 (Macintosh; Intel Mac OS X 12_5) AppleWebKit/605.1.15 (KHTML, like Gecko) Version/15.6 Safari/605.1.15"@,
{
    String::from_str(
        "Mozilla/5.0 (Macintosh; Intel Mac OS X 12_5) AppleWebKit/605.1.15 (KHTML, like Gecko) Version/15.6 Safari/605.1.15",
    )
}

impl WxClient {
    /// Validates the transport settings and builds a client with no
    /// token installed. Fails exactly when proxy credentials are
    /// supplied without a proxy, or a proxy comes with only part of
    /// its credentials.
    pub fn new(
        proxy: Option<String>,
        auth_user: Option<String>,
        auth_pwd: Option<String>,
        user_agent: Option<String>,
    ) -> (r: Result<WxClient, ApiError>)
        ensures
            r is Ok <==> proxy_config_ok(proxy, auth_user, auth_pwd),
            !proxy_config_ok(proxy, auth_user, auth_pwd) ==> r == Err::<WxClient, ApiError>(
                ApiError::Configuration,
            ),
            r matches Ok(c) ==> {
                &&& c.proxy == proxy
                &&& c.proxy_user == auth_user
                &&& c.proxy_password == auth_pwd
                &&& c.token is None
                &&& (user_agent matches Some(ua) ==> c.user_agent == ua)
                &&& (user_agent is None ==> c.user_agent@
                    == "Mozilla/5.0 (Macintosh; Intel Mac OS X 12_5) AppleWebKit/605.1.15 (KHTML, like Gecko) Version/15.6 Safari/605.1.15"@)
            },
    {
        let creds_given = auth_user.is_some() || auth_pwd.is_some();
        let creds_full = proxy.is_some() && auth_user.is_some() && auth_pwd.is_some();
        if creds_given && !creds_full {
            return Err(ApiError::Configuration);
        }
        let ua = match user_agent {
            Some(ua) => ua,
            None => default_user_agent(),
        };
        Ok(WxClient { proxy, proxy_user: auth_user, proxy_password: auth_pwd, user_agent: ua, token: None })
    }

    /// Installs a token for all subsequent calls, overwriting any
    /// existing one.
    pub fn set_token(&mut self, token: String)
        ensures
            *final(self) == (WxClient { token: Some(token), ..*old(self) }),
    {
        self.token = Some(token);
    }

    /// The installed token, or the not-logged-in failure when none is.
    pub fn token(&self) -> (r: Result<String, ApiError>)
        ensures
            self.token matches Some(t) ==> r == Ok::<String, ApiError>(t),
            self.token is None ==> r == Err::<String, ApiError>(ApiError::NotLoggedIn),
    {
        match &self.token {
            Some(t) => Ok(t.clone()),
            None => Err(ApiError::NotLoggedIn),
        }
    }

    /// The token-issuance request: needs no token itself.
    pub fn token_request(corp_id: &String, corp_secret: &String) -> (r: ApiRequest)
        ensures
            r.url@ == "https://qyapi.weixin.qq.com/cgi-bin/gettoken"@,
            r.query@.len() == 2,
            r.query@[0].0@ == "corpid"@ && r.query@[0].1 == *corp_id,
            r.query@[1].0@ == "corpsecret"@ && r.query@[1].1 == *corp_secret,
    {
        let mut query: Vec<(String, String)> = Vec::new();
        query.push((String::from_str("corpid"), corp_id.clone()));
        query.push((String::from_str("corpsecret"), corp_secret.clone()));
        ApiRequest { url: String::from_str("https://qyapi.weixin.qq.com/cgi-bin/gettoken"), query }
    }

    /// Interprets the decoded token-endpoint body: installs the token
    /// it carries, or reports the authentication failure; nothing else
    /// of the client changes.
    pub fn login_outcome(&mut self, resp: GetTokenResp) -> (r: Result<GetTokenResp, ApiError>)
        ensures
            resp.access_token matches Some(t) ==> {
                &&& *final(self) == (WxClient { token: Some(t), ..*old(self) })
                &&& r == Ok::<GetTokenResp, ApiError>(resp)
            },
            resp.access_token is None ==> {
                &&& *final(self) == *old(self)
                &&& r == Err::<GetTokenResp, ApiError>(ApiError::AuthFailed)
            },
    {
        if resp.is_success() {
            let token = match &resp.access_token {
                Some(t) => t.clone(),
                None => String::new(),
            };
            self.token = Some(token);
            Ok(resp)
        } else {
            Err(ApiError::AuthFailed)
        }
    }

    /// The agent-list request, gated on the token.
    pub fn get_agent_list_request(&self) -> (r: Result<ApiRequest, ApiError>)
        ensures
            self.token is None ==> r == Err::<ApiRequest, ApiError>(ApiError::NotLoggedIn),
            self.token matches Some(t) ==> r matches Ok(req) && {
                &&& req.url@ == "https://qyapi.weixin.qq.com/cgi-bin/agent/list"@
                &&& req.query@.len() == 1
                &&& req.query@[0].0@ == "access_token"@ && req.query@[0].1 == t
            },
    {
        let token = self.token()?;
        let mut query: Vec<(String, String)> = Vec::new();
        query.push((String::from_str("access_token"), token));
        Ok(ApiRequest { url: String::from_str("https://qyapi.weixin.qq.com/cgi-bin/agent/list"), query })
    }

    /// The department-list request for the whole tenant.
    pub fn get_all_departments_request(&self) -> (r: Result<ApiRequest, ApiError>)
        ensures
            self.token is None ==> r == Err::<ApiRequest, ApiError>(ApiError::NotLoggedIn),
            self.token matches Some(t) ==> r matches Ok(req) && {
                &&& req.url@ == "https://qyapi.weixin.qq.com/cgi-bin/department/list"@
                &&& req.query@.len() == 1
                &&& req.query@[0].0@ == "access_token"@ && req.query@[0].1 == t
            },
    {
        self.get_departments_request(None)
    }

    /// The department-list request; the endpoint ignores the id and
    /// answers with every department the token can see, so the query
    /// carries the token alone.
    pub fn get_departments_request(&self, _id: Option<u32>) -> (r: Result<ApiRequest, ApiError>)
        ensures
            self.token is None ==> r == Err::<ApiRequest, ApiError>(ApiError::NotLoggedIn),
            self.token matches Some(t) ==> r matches Ok(req) && {
                &&& req.url@ == "https://qyapi.weixin.qq.com/cgi-bin/department/list"@
                &&& req.query@.len() == 1
                &&& req.query@[0].0@ == "access_token"@ && req.query@[0].1 == t
            },
    {
        let token = self.token()?;
        let mut query: Vec<(String, String)> = Vec::new();
        query.push((String::from_str("access_token"), token));
        Ok(ApiRequest {
            url: String::from_str("https://qyapi.weixin.qq.com/cgi-bin/department/list"),
            query,
        })
    }

    /// The department-members request: the department id in decimal,
    /// and whether members of sub-departments are included.
    pub fn get_department_members_request(&self, id: u32, fetch_child: bool) -> (r: Result<
        ApiRequest,
        ApiError,
    >)
        ensures
            self.token is None ==> r == Err::<ApiRequest, ApiError>(ApiError::NotLoggedIn),
            self.token matches Some(t) ==> r matches Ok(req) && {
                &&& req.url@ == "https://qyapi.weixin.qq.com/cgi-bin/user/list"@
                &&& req.query@.len() == 3
                &&& req.query@[0].0@ == "access_token"@ && req.query@[0].1 == t
                &&& req.query@[1].0@ == "department_id"@ && req.query@[1].1@ == crate::text::dec_digits(
                    id as nat,
                )
                &&& req.query@[2].0@ == "fetch_child"@ && req.query@[2].1@ == (if fetch_child {
                    "1"@
                } else {
                    "0"@
                })
            },
    {
        let token = self.token()?;
        let mut query: Vec<(String, String)> = Vec::new();
        query.push((String::from_str("access_token"), token));
        query.push((String::from_str("department_id"), crate::text::u32_to_string(id)));
        let flag = if fetch_child {
            String::from_str("1")
        } else {
            String::from_str("0")
        };
        query.push((String::from_str("fetch_child"), flag));
        Ok(ApiRequest { url: String::from_str("https://qyapi.weixin.qq.com/cgi-bin/user/list"), query })
    }

    /// The tag-list request, gated on the token.
    pub fn get_tags_request(&self) -> (r: Result<ApiRequest, ApiError>)
        ensures
            self.token is None ==> r == Err::<ApiRequest, ApiError>(ApiError::NotLoggedIn),
            self.token matches Some(t) ==> r matches Ok(req) && {
                &&& req.url@ == "https://qyapi.weixin.qq.com/cgi-bin/tag/list"@
                &&& req.query@.len() == 1
                &&& req.query@[0].0@ == "access_token"@ && req.query@[0].1 == t
            },
    {
        let token = self.token()?;
        let mut query: Vec<(String, String)> = Vec::new();
        query.push((String::from_str("access_token"), token));
        Ok(ApiRequest { url: String::from_str("https://qyapi.weixin.qq.com/cgi-bin/tag/list"), query })
    }

    /// The tag-members request: the tag id in decimal.
    pub fn get_tag_members_request(&self, tag_id: u32) -> (r: Result<ApiRequest, ApiError>)
        ensures
            self.token is None ==> r == Err::<ApiRequest, ApiError>(ApiError::NotLoggedIn),
            self.token matches Some(t) ==> r matches Ok(req) && {
                &&& req.url@ == "https://qyapi.weixin.qq.com/cgi-bin/tag/get"@
                &&& req.query@.len() == 2
                &&& req.query@[0].0@ == "access_token"@ && req.query@[0].1 == t
                &&& req.query@[1].0@ == "tagid"@ && req.query@[1].1@ == crate::text::dec_digits(
                    tag_id as nat,
                )
            },
    {
        let token = self.token()?;
        let mut query: Vec<(String, String)> = Vec::new();
        query.push((String::from_str("access_token"), token));
        query.push((String::from_str("tagid"), crate::text::u32_to_string(tag_id)));
        Ok(ApiRequest { url: String::from_str("https://qyapi.weixin.qq.com/cgi-bin/tag/get"), query })
    }

    /// The per-agent detail request: the agent id in decimal.
    pub fn get_agent_detail_request(&self, agent_id: u32) -> (r: Result<ApiRequest, ApiError>)
        ensures
            self.token is None ==> r == Err::<ApiRequest, ApiError>(ApiError::NotLoggedIn),
            self.token matches Some(t) ==> r matches Ok(req) && {
                &&& req.url@ == "https://qyapi.weixin.qq.com/cgi-bin/agent/get"@
                &&& req.query@.len() == 2
                &&& req.query@[0].0@ == "access_token"@ && req.query@[0].1 == t
                &&& req.query@[1].0@ == "agentid"@ && req.query@[1].1@ == crate::text::dec_digits(
                    agent_id as nat,
                )
            },
    {
        let token = self.token()?;
        let mut query: Vec<(String, String)> = Vec::new();
        query.push((String::from_str("access_token"), token));
        query.push((String::from_str("agentid"), crate::text::u32_to_string(agent_id)));
        Ok(ApiRequest { url: String::from_str("https://qyapi.weixin.qq.com/cgi-bin/agent/get"), query })
    }
}

} // verus!
