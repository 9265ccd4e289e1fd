use pugdock::integrations::github::{browser_login_write, device_poll_step, token_or_expired};
use pugdock::integrations::github::{api_error, repo_reply, token_reply};
use pugdock::error::AppError;
use pugdock::integrations::github::{
    api_failure, api_url, authorize_url, browser_token, callback_outcome, callback_page,
    callback_step, check_client_id, configured, create_repo_error, create_repo_path, created_repo,
    device_poll_status, github_auth_mode, github_device_poll, github_repo_exists, query_param,
    redirect_uri, repo_path, request_target, state_text, CallbackStep, RepoReply, TokenReply,
    CALLBACK_HTML, NOT_FOUND_REPLY,
};

fn reply(token: Option<&str>, error: Option<&str>, desc: Option<&str>) -> TokenReply {
    TokenReply {
        access_token: token.map(String::from),
        error: error.map(String::from),
        error_description: desc.map(String::from),
    }
}

#[test]
fn configuration_and_auth_mode() {
    assert_eq!(configured(Some("rt".into()), Some("built")), "rt");
    assert_eq!(configured(Some("".into()), Some("built")), "built");
    assert_eq!(configured(None, None), "");
    assert_eq!(github_auth_mode("", "s"), "unconfigured");
    assert_eq!(github_auth_mode("id", ""), "device");
    assert_eq!(github_auth_mode("id", "s"), "browser");
    assert!(check_client_id("id", true).is_ok());
    assert_eq!(
        check_client_id("", true),
        Err(AppError::Github("No GitHub app configured. Set PUGDOCK_GITHUB_CLIENT_ID (see README).".into()))
    );
    assert!(matches!(check_client_id("", false), Err(AppError::Github(m)) if m.contains("environment variable")));
}

#[test]
fn query_parameters() {
    let t = "/callback?code=abc&state=s1&x";
    assert_eq!(query_param(t, "code").as_deref(), Some("abc"));
    assert_eq!(query_param(t, "state").as_deref(), Some("s1"));
    assert_eq!(query_param(t, "x"), None);
    assert_eq!(query_param("/callback", "code"), None);
    assert_eq!(query_param("/c?a=1=2&a=3", "a").as_deref(), Some("1=2"));
    assert_eq!(query_param("/c?=v", "").as_deref(), Some("v"));
}

#[test]
fn the_loopback_request_is_read() {
    assert_eq!(request_target("GET /callback?code=1 HTTP/1.1\r\nHost: x\r\n\r\n"), "/callback?code=1");
    assert_eq!(request_target(""), "");
    assert_eq!(request_target("GET"), "");
}

#[test]
fn callback_steps_require_the_state() {
    assert!(matches!(callback_step("/favicon.ico", "s"), CallbackStep::NotFound));
    assert!(matches!(callback_step("/callback?code=c&state=forged", "s"), CallbackStep::Ignored));
    assert!(matches!(callback_step("/callback?code=c", "s"), CallbackStep::Ignored));
    match callback_step("/callback?code=c&state=s", "s") {
        CallbackStep::Code(c) => assert_eq!(c, "c"),
        _ => panic!("expected a code"),
    }
    assert!(matches!(callback_step("/callback?error=access_denied&state=s", "s"), CallbackStep::Denied));
    assert!(callback_outcome(CallbackStep::Ignored).is_none());
    assert_eq!(callback_outcome(CallbackStep::Code("c".into())), Some(Ok("c".to_string())));
    assert_eq!(
        callback_outcome(CallbackStep::Denied),
        Some(Err(AppError::Github("GitHub authorization was denied or cancelled.".into())))
    );
}

#[test]
fn browser_flow_texts() {
    assert_eq!(redirect_uri(53124), "http://127.0.0.1:53124/callback");
    assert_eq!(
        authorize_url("cid", "http://127.0.0.1:1/callback", "st"),
        "https://github.com/login/oauth/authorize?client_id=cid&redirect_uri=http://127.0.0.1:1/callback&scope=repo%20read:org&state=st"
    );
    assert_eq!(state_text(0xab, 7), "00000000000000ab00000007");
    assert_eq!(state_text(u64::MAX, u32::MAX), "ffffffffffffffffffffffff");
    let page = callback_page();
    assert_eq!(
        page,
        format!(
            "HTTP/1.1 200 OK\r\ncontent-type: text/html; charset=utf-8\r\ncontent-length: {}\r\n\r\n{}",
            CALLBACK_HTML.len(),
            CALLBACK_HTML
        )
    );
    assert!(NOT_FOUND_REPLY.starts_with("HTTP/1.1 404"));
}

#[test]
fn token_replies() {
    assert_eq!(browser_token(reply(Some("t"), None, None)), Ok("t".to_string()));
    assert_eq!(
        browser_token(reply(None, Some("bad_verification_code"), Some("The code is wrong."))),
        Err(AppError::Github("The code is wrong.".into()))
    );
    assert_eq!(
        browser_token(reply(None, None, None)),
        Err(AppError::Github("GitHub did not return an access token.".into()))
    );
}

#[test]
fn device_poll_statuses() {
    assert_eq!(device_poll_status(Some("authorization_pending".into())), Ok("pending".to_string()));
    assert_eq!(device_poll_status(Some("slow_down".into())), Ok("slow_down".to_string()));
    assert_eq!(device_poll_status(Some("expired_token".into())), Ok("expired".to_string()));
    assert_eq!(device_poll_status(Some("access_denied".into())), Ok("denied".to_string()));
    assert_eq!(device_poll_status(Some("weird".into())), Err(AppError::Github("weird".into())));
    assert_eq!(device_poll_status(None), Err(AppError::Github("unknown".into())));
    assert_eq!(github_device_poll(reply(None, Some("slow_down"), None)), Ok("slow_down".to_string()));
}

#[test]
fn github_api_answers() {
    assert_eq!(api_url("/user"), "https://api.github.com/user");
    assert_eq!(api_failure(200, "200 OK", false, "{}", None), None);
    assert_eq!(api_failure(401, "401 Unauthorized", false, "", None), Some(AppError::GithubAuthExpired));
    assert_eq!(
        api_failure(403, "403 Forbidden", true, "", None),
        Some(AppError::Github("GitHub rate limit reached. Try again in a few minutes.".into()))
    );
    assert_eq!(
        api_failure(403, "403 Forbidden", false, "raw", Some("Must have admin rights".into())),
        Some(AppError::Github("403 Forbidden: Must have admin rights".into()))
    );
    assert_eq!(
        api_failure(500, "500 Internal Server Error", false, "oops", None),
        Some(AppError::Github("500 Internal Server Error: oops".into()))
    );
}

#[test]
fn repositories() {
    assert_eq!(repo_path("me", "notes"), "/repos/me/notes");
    assert_eq!(github_repo_exists(Ok(())), Ok(true));
    assert_eq!(github_repo_exists(Err(AppError::Github("404 Not Found: Not Found".into()))), Ok(false));
    assert_eq!(
        github_repo_exists(Err(AppError::Github("500 x".into()))),
        Err(AppError::Github("500 x".into()))
    );
    assert_eq!(github_repo_exists(Err(AppError::Offline)), Err(AppError::Offline));
    assert_eq!(create_repo_path("acme", true), "/orgs/acme/repos");
    assert_eq!(create_repo_path("me", false), "/user/repos");
    assert_eq!(
        create_repo_error(AppError::Github("422: name already exists on this account".into()), "me", "notes"),
        AppError::Github("A repository named \"notes\" already exists for me.".into())
    );
    assert_eq!(
        create_repo_error(AppError::Github("404 Not Found: x".into()), "acme", "n"),
        AppError::Github(
            "PugDock could not create the private GitHub repo. Check your GitHub permissions and try again.".into()
        )
    );
    assert_eq!(create_repo_error(AppError::Offline, "a", "b"), AppError::Offline);
}

#[test]
fn created_repositories_must_be_private() {
    let public = RepoReply { private: false, full_name: Some("me/n".into()), clone_url: None, html_url: None };
    assert_eq!(
        created_repo(public).err(),
        Some(AppError::Github("GitHub did not create a private repository. Aborting.".into()))
    );
    let ok = RepoReply {
        private: true,
        full_name: Some("me/n".into()),
        clone_url: Some("https://github.com/me/n.git".into()),
        html_url: None,
    };
    let r = created_repo(ok).unwrap();
    assert!(r.private);
    assert_eq!(r.full_name, "me/n");
    assert_eq!(r.clone_url, "https://github.com/me/n.git");
    assert_eq!(r.html_url, "");
}

#[test]
fn api_errors_read_the_message_field() {
    match api_error(404, "404 Not Found", false, r#"{"message":"Not Found"}"#) {
        Some(AppError::Github(m)) => assert_eq!(m, "404 Not Found: Not Found"),
        other => panic!("{:?}", other),
    }
    match api_error(500, "500 Internal Server Error", false, "oops") {
        Some(AppError::Github(m)) => assert_eq!(m, "500 Internal Server Error: oops"),
        other => panic!("{:?}", other),
    }
    assert!(matches!(api_error(401, "401", false, "{}"), Some(AppError::GithubAuthExpired)));
    assert!(api_error(200, "200 OK", false, "{}").is_none());
}

#[test]
fn token_replies_are_read() {
    let r = token_reply(r#"{"access_token":"gho_x","token_type":"bearer"}"#).unwrap();
    assert_eq!(r.access_token.as_deref(), Some("gho_x"));
    assert!(r.error.is_none());
    let r = token_reply(r#"{"error":"authorization_pending","error_description":"wait"}"#).unwrap();
    assert!(r.access_token.is_none());
    assert_eq!(r.error.as_deref(), Some("authorization_pending"));
    assert_eq!(r.error_description.as_deref(), Some("wait"));
    assert_eq!(token_reply("<html>").err(), Some(AppError::Other("error decoding response body".into())));
}

#[test]
fn repo_replies_are_read() {
    let r = repo_reply(r#"{"private":true,"full_name":"o/n","clone_url":"https://github.com/o/n.git","html_url":"https://github.com/o/n"}"#);
    assert!(r.private);
    assert_eq!(r.full_name.as_deref(), Some("o/n"));
    assert_eq!(r.clone_url.as_deref(), Some("https://github.com/o/n.git"));
    assert_eq!(r.html_url.as_deref(), Some("https://github.com/o/n"));
    assert!(!repo_reply(r#"{"private":"true"}"#).private);
    assert!(repo_reply(r#"{"private":false}"#).full_name.is_none());
}

#[test]
fn sign_in_stores_the_token_as_github_token() {
    let w = browser_login_write(reply(Some("gho_1"), None, None)).unwrap();
    assert_eq!(w.name, "github_token");
    assert_eq!(w.value, "gho_1");
    match browser_login_write(reply(None, Some("access_denied"), Some("The user denied"))) {
        Err(AppError::Github(m)) => assert_eq!(m, "The user denied"),
        _ => panic!("expected a GitHub error"),
    }
    let (w, status) = device_poll_step(reply(Some("gho_2"), None, None));
    let w = w.unwrap();
    assert_eq!((w.name.as_str(), w.value.as_str()), ("github_token", "gho_2"));
    assert_eq!(status, Ok("ok".to_string()));
    let (w, status) = device_poll_step(reply(None, Some("authorization_pending"), None));
    assert!(w.is_none());
    assert_eq!(status, Ok("pending".to_string()));
}

#[test]
fn a_missing_token_means_expired_access() {
    assert_eq!(token_or_expired(Some("t".into())), Ok("t".to_string()));
    assert_eq!(token_or_expired(None), Err(AppError::GithubAuthExpired));
}
