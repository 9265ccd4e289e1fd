//! GitHub sign-in (browser and device flows) and the few REST calls the app
//! makes. The network, the loopback listener and the browser are the
//! caller's; this module decides what to send, how to read each answer, and
//! which error the UI sees.

use vstd::prelude::*;

use crate::error::AppError;
use crate::secrets;
use crate::secrets::SecretWrite;
use crate::text::{
    chars_eq, chars_of, concat, contains, copy_range, dec_digits, decimal, find, find_char,
    hex_digits, hex_fixed, push_str, split_chars, split_on, starts_with, str_contains,
    str_starts_with, string_of, views, words, words_chars,
};
use crate::workspace::str_eq;
use crate::json::{json_bool_at, json_pointer_bool, json_pointer_str, json_str_at, opt_view};
use crate::theme::{json_accepts, json_from_str};

verus! {

pub struct DeviceCode {
    pub device_code: String,
    pub user_code: String,
    pub verification_uri: String,
    pub expires_in: u64,
    pub interval: u64,
}

pub struct GithubUser {
    pub login: String,
    pub id: u64,
    pub name: Option<String>,
    pub avatar_url: String,
}

pub struct Org {
    pub login: String,
}

pub struct CreatedRepo {
    pub full_name: String,
    pub clone_url: String,
    pub html_url: String,
    pub private: bool,
}

// ---- Configuration ----

/// A setting read from the environment at run time, falling back to the
/// value built into the binary: the run-time value when set and non-empty,
/// else the built-in one, else empty.
pub open spec fn configured_value(runtime: Option<Seq<char>>, built_in: Option<Seq<char>>) -> Seq<char> {
    if runtime is Some && runtime->0.len() > 0 {
        runtime->0
    } else if built_in is Some {
        built_in->0
    } else {
        seq![]
    }
}

pub fn configured(runtime: Option<String>, built_in: Option<&str>) -> (r: String)
    ensures
        r@ == configured_value(
            opt_view(runtime),
            match built_in {
                Some(b) => Some(b@),
                None => None,
            },
        ),
{
    match runtime {
        Some(v) => {
            if !v.as_str().is_empty() {
                return v;
            }
        },
        None => {},
    }
    match built_in {
        Some(b) => b.to_string(),
        None => String::new(),
    }
}

/// Which login flow a build supports: none without a client id, the device
/// flow without a client secret, else the browser flow.
pub open spec fn auth_mode(client_id: Seq<char>, client_secret: Seq<char>) -> Seq<char> {
    if client_id.len() == 0 {
        "unconfigured"@
    } else if client_secret.len() == 0 {
        "device"@
    } else {
        "browser"@
    }
}

pub fn github_auth_mode(client_id: &str, client_secret: &str) -> (r: String)
    ensures
        r@ == auth_mode(client_id@, client_secret@),
{
    if client_id.is_empty() {
        "unconfigured".to_string()
    } else if client_secret.is_empty() {
        "device".to_string()
    } else {
        "browser".to_string()
    }
}

/// The error when no client id is configured; the browser flow and the
/// device flow word it differently.
pub open spec fn unconfigured_text(browser: bool) -> Seq<char> {
    if browser {
        "No GitHub app configured. Set PUGDOCK_GITHUB_CLIENT_ID (see README)."@
    } else {
        "No GitHub app configured. Set the PUGDOCK_GITHUB_CLIENT_ID environment variable and restart (see README)."@
    }
}

pub fn check_client_id(client_id: &str, browser: bool) -> (r: Result<(), AppError>)
    ensures
        client_id@.len() > 0 ==> r is Ok,
        client_id@.len() == 0 ==> r is Err && r->Err_0 is Github && r->Err_0->Github_0@
            == unconfigured_text(browser),
{
    if !client_id.is_empty() {
        Ok(())
    } else if browser {
        Err(AppError::Github("No GitHub app configured. Set PUGDOCK_GITHUB_CLIENT_ID (see README).".to_string()))
    } else {
        Err(AppError::Github("No GitHub app configured. Set the PUGDOCK_GITHUB_CLIENT_ID environment variable and restart (see README).".to_string()))
    }
}

// ---- Browser (authorization-code) flow ----

/// The page the browser shows once the redirect arrives.
pub const CALLBACK_HTML: &'static str = "<!doctype html><meta charset=utf-8>\
<body style='font-family:system-ui;background:#16181d;color:#d8dce4;display:grid;place-items:center;height:100vh;margin:0'>\
<div style='text-align:center'><div style='font-size:40px'>🐾</div>\
<h2>PugDock is connected</h2><p>You can close this tab and return to the app.</p></div>";

/// The answer to any request on the loopback listener that is not the
/// callback.
pub const NOT_FOUND_REPLY: &'static str = "HTTP/1.1 404 Not Found\r\ncontent-length: 0\r\n\r\n";

/// The full HTTP answer that carries the callback page.
pub open spec fn callback_reply(html: &str) -> Seq<char> {
    "HTTP/1.1 200 OK\r\ncontent-type: text/html; charset=utf-8\r\ncontent-length: "@ + dec_digits(
        html.len() as nat,
    ) + "\r\n\r\n"@ + html@
}

pub fn callback_page() -> (r: String)
    ensures
        r@ == callback_reply(CALLBACK_HTML),
{
    let mut v: Vec<char> = Vec::new();
    push_str(&mut v, "HTTP/1.1 200 OK\r\ncontent-type: text/html; charset=utf-8\r\ncontent-length: ");
    let n = decimal(CALLBACK_HTML.len() as u64);
    crate::text::append(&mut v, n.as_slice());
    push_str(&mut v, "\r\n\r\n");
    push_str(&mut v, CALLBACK_HTML);
    string_of(v.as_slice())
}

/// The redirect target on the loopback listener's port.
pub fn redirect_uri(port: u16) -> (r: String)
    ensures
        r@ == "http://127.0.0.1:"@ + dec_digits(port as nat) + "/callback"@,
{
    let mut v: Vec<char> = Vec::new();
    push_str(&mut v, "http://127.0.0.1:");
    let d = decimal(port as u64);
    crate::text::append(&mut v, d.as_slice());
    push_str(&mut v, "/callback");
    string_of(v.as_slice())
}

/// The GitHub page that asks the user to authorize the app.
pub open spec fn authorize_url_spec(client_id: Seq<char>, redirect: Seq<char>, state: Seq<char>) -> Seq<char> {
    "https://github.com/login/oauth/authorize?client_id="@ + client_id + "&redirect_uri="@ + redirect
        + "&scope=repo%20read:org&state="@ + state
}

pub fn authorize_url(client_id: &str, redirect: &str, state: &str) -> (r: String)
    ensures
        r@ == authorize_url_spec(client_id@, redirect@, state@),
{
    let mut v: Vec<char> = Vec::new();
    push_str(&mut v, "https://github.com/login/oauth/authorize?client_id=");
    push_str(&mut v, client_id);
    push_str(&mut v, "&redirect_uri=");
    push_str(&mut v, redirect);
    push_str(&mut v, "&scope=repo%20read:org&state=");
    push_str(&mut v, state);
    string_of(v.as_slice())
}

/// The `state` parameter: a 64-bit hash in sixteen hexadecimal digits, then
/// the process id in eight.
pub fn state_text(hash: u64, pid: u32) -> (r: String)
    ensures
        r@ == hex_digits(hash as nat, 16) + hex_digits(pid as nat, 8),
{
    let mut v = hex_fixed(hash, 16);
    let w = hex_fixed(pid as u64, 8);
    crate::text::append(&mut v, w.as_slice());
    string_of(v.as_slice())
}

/// The request target of an HTTP request: its second whitespace-separated
/// word, or nothing.
pub open spec fn target_of(req: Seq<char>) -> Seq<char> {
    if words(req).len() > 1 {
        words(req)[1]
    } else {
        seq![]
    }
}

pub fn request_target(req: &str) -> (r: String)
    ensures
        r@ == target_of(req@),
{
    let c = chars_of(req);
    let w = words_chars(c.as_slice());
    if w.len() > 1 {
        string_of(w[1].as_slice())
    } else {
        String::new()
    }
}

/// The value of `kv` when it is the pair `key=value` (split at its first
/// `=`).
pub open spec fn pair_value(kv: Seq<char>, key: Seq<char>) -> Option<Seq<char>> {
    let e = find(kv, '=');
    if e < kv.len() && kv.take(e as int) == key {
        Some(kv.skip(e + 1 as int))
    } else {
        None
    }
}

/// The value of the first pair for `key`.
pub open spec fn first_value(pairs: Seq<Seq<char>>, key: Seq<char>) -> Option<Seq<char>>
    decreases pairs.len(),
{
    if pairs.len() == 0 {
        None
    } else if pair_value(pairs[0], key) is Some {
        pair_value(pairs[0], key)
    } else {
        first_value(pairs.drop_first(), key)
    }
}

/// The value of the query parameter `key` in a request target: the query
/// is what follows the first `?`, its pairs are separated by `&`.
pub open spec fn query_value(target: Seq<char>, key: Seq<char>) -> Option<Seq<char>> {
    let q = find(target, '?');
    if q >= target.len() {
        None
    } else {
        first_value(split_on(target.skip(q + 1 as int), '&'), key)
    }
}

fn pair_value_of(kv: &[char], key: &[char]) -> (r: Option<Vec<char>>)
    ensures
        match r {
            Some(v) => pair_value(kv@, key@) == Some(v@),
            None => pair_value(kv@, key@) is None,
        },
{
    let e = find_char(kv, '=');
    if e < kv.len() {
        let k = copy_range(kv, 0, e);
        assert(k@ =~= kv@.take(e as int));
        if chars_eq(k.as_slice(), key) {
            let v = copy_range(kv, e + 1, kv.len());
            assert(v@ =~= kv@.skip(e + 1));
            return Some(v);
        }
    }
    None
}

pub fn query_param(target: &str, key: &str) -> (r: Option<String>)
    ensures
        opt_view(r) == query_value(target@, key@),
{
    let t = chars_of(target);
    let kc = chars_of(key);
    let q = find_char(t.as_slice(), '?');
    if q >= t.len() {
        return None;
    }
    let rest = copy_range(t.as_slice(), q + 1, t.len());
    assert(rest@ =~= t@.skip(q + 1));
    let pairs = split_chars(rest.as_slice(), '&');
    assert(views(pairs@).skip(0) =~= views(pairs@));
    let mut i: usize = 0;
    while i < pairs.len()
        invariant
            i <= pairs@.len(),
            kc@ == key@,
            first_value(views(pairs@).skip(i as int), kc@) == query_value(target@, key@),
        decreases pairs.len() - i,
    {
        let ghost rem = views(pairs@).skip(i as int);
        assert(rem[0] == pairs@[i as int]@);
        assert(rem.drop_first() =~= views(pairs@).skip(i + 1));
        match pair_value_of(pairs[i].as_slice(), kc.as_slice()) {
            Some(v) => {
                return Some(string_of(v.as_slice()));
            },
            None => {},
        }
        i = i + 1;
    }
    None
}

/// What one request on the loopback listener means.
pub enum CallbackStep {
    /// Not the callback path: answer 404 and keep waiting.
    NotFound,
    /// The callback, but without this login's `state`: a stray or forged
    /// request, ignored.
    Ignored,
    /// The callback with the authorization code.
    Code(String),
    /// The callback without a code: the user declined.
    Denied,
}

pub fn callback_step(target: &str, state: &str) -> (r: CallbackStep)
    ensures
        !starts_with(target@, "/callback"@) ==> r is NotFound,
        starts_with(target@, "/callback"@) && query_value(target@, "state"@) != Some(state@)
            ==> r is Ignored,
        starts_with(target@, "/callback"@) && query_value(target@, "state"@) == Some(state@)
            ==> match query_value(target@, "code"@) {
            Some(c) => r is Code && r->Code_0@ == c,
            None => r is Denied,
        },
{
    if !str_starts_with(target, "/callback") {
        return CallbackStep::NotFound;
    }
    let same = match query_param(target, "state") {
        Some(s) => str_eq(s.as_str(), state),
        None => false,
    };
    if !same {
        return CallbackStep::Ignored;
    }
    match query_param(target, "code") {
        Some(c) => CallbackStep::Code(c),
        None => CallbackStep::Denied,
    }
}

/// What a callback step ends in: nothing yet, the code, or the refusal.
pub fn callback_outcome(step: CallbackStep) -> (r: Option<Result<String, AppError>>)
    ensures
        (step is NotFound || step is Ignored) ==> r is None,
        step is Code ==> r == Some(Ok::<String, AppError>(step->Code_0)),
        step is Denied ==> r is Some && r->0 is Err && r->0->Err_0 is Github && r->0->Err_0->Github_0@
            == "GitHub authorization was denied or cancelled."@,
{
    match step {
        CallbackStep::NotFound | CallbackStep::Ignored => None,
        CallbackStep::Code(c) => Some(Ok(c)),
        CallbackStep::Denied => Some(
            Err(AppError::Github("GitHub authorization was denied or cancelled.".to_string())),
        ),
    }
}

/// The string fields of GitHub's answer to a token request.
pub struct TokenReply {
    pub access_token: Option<String>,
    pub error: Option<String>,
    pub error_description: Option<String>,
}

/// Reads GitHub's answer to a token request: its `access_token`, `error`
/// and `error_description` strings; a body that is not JSON is an
/// undecodable body.
pub fn token_reply(body: &str) -> (r: Result<TokenReply, AppError>)
    ensures
        r is Ok <==> json_accepts(body@),
        r is Err ==> r->Err_0 is Other && r->Err_0->Other_0@ == "error decoding response body"@,
        r is Ok ==> opt_view(r->Ok_0.access_token) == json_str_at(body@, "/access_token"@),
        r is Ok ==> opt_view(r->Ok_0.error) == json_str_at(body@, "/error"@),
        r is Ok ==> opt_view(r->Ok_0.error_description) == json_str_at(body@, "/error_description"@),
{
    match json_from_str(body) {
        Err(_) => Err(AppError::undecodable_body()),
        Ok(_) => Ok(
            TokenReply {
                access_token: json_pointer_str(body, "/access_token"),
                error: json_pointer_str(body, "/error"),
                error_description: json_pointer_str(body, "/error_description"),
            },
        ),
    }
}

/// The token of a browser-flow answer, or the error GitHub described.
pub fn browser_token(reply: TokenReply) -> (r: Result<String, AppError>)
    ensures
        reply.access_token is Some ==> r == Ok::<String, AppError>(reply.access_token->0),
        reply.access_token is None ==> r is Err && r->Err_0 is Github && r->Err_0->Github_0@ == (
        match reply.error_description {
            Some(d) => d@,
            None => "GitHub did not return an access token."@,
        }),
{
    match reply.access_token {
        Some(t) => Ok(t),
        None => match reply.error_description {
            Some(d) => Err(AppError::Github(d)),
            None => Err(AppError::Github("GitHub did not return an access token.".to_string())),
        },
    }
}

/// What a browser sign-in stores: the token GitHub sent, as the secret
/// `github_token`; or why there is none.
pub fn browser_login_write(reply: TokenReply) -> (r: Result<SecretWrite, AppError>)
    ensures
        reply.access_token is Some ==> r is Ok && r->Ok_0.name@ == secrets::GITHUB_TOKEN@
            && r->Ok_0.value == reply.access_token->0,
        reply.access_token is None ==> r is Err && r->Err_0 is Github && r->Err_0->Github_0@ == (
        match reply.error_description {
            Some(d) => d@,
            None => "GitHub did not return an access token."@,
        }),
{
    let token = browser_token(reply)?;
    Ok(SecretWrite { name: secrets::GITHUB_TOKEN.to_string(), value: token })
}

/// Ends the browser flow: stores what `browser_login_write` gives, or
/// reports why there is nothing to store.
pub fn finish_browser_login(reply: TokenReply) -> (r: Result<(), AppError>)
    ensures
        reply.access_token is None ==> r is Err && r->Err_0 is Github && r->Err_0->Github_0@ == (
        match reply.error_description {
            Some(d) => d@,
            None => "GitHub did not return an access token."@,
        }),
        reply.access_token is Some ==> (r is Err ==> r->Err_0 is Other),
{
    let w = browser_login_write(reply)?;
    secrets::set(w.name.as_str(), w.value.as_str())
}

// ---- Device flow ----

/// What one poll of the device flow reports when no token came: the
/// status for the UI, or the unexpected error GitHub named.
pub open spec fn poll_status(error: Option<Seq<char>>) -> Result<Seq<char>, Seq<char>> {
    match error {
        Some(e) => if e == "authorization_pending"@ {
            Ok("pending"@)
        } else if e == "slow_down"@ {
            Ok("slow_down"@)
        } else if e == "expired_token"@ {
            Ok("expired"@)
        } else if e == "access_denied"@ {
            Ok("denied"@)
        } else {
            Err(e)
        },
        None => Err("unknown"@),
    }
}

pub fn device_poll_status(error: Option<String>) -> (r: Result<String, AppError>)
    ensures
        match poll_status(opt_view(error)) {
            Ok(s) => r is Ok && r->Ok_0@ == s,
            Err(m) => r is Err && r->Err_0 is Github && r->Err_0->Github_0@ == m,
        },
{
    match error {
        Some(e) => {
            if str_eq(e.as_str(), "authorization_pending") {
                Ok("pending".to_string())
            } else if str_eq(e.as_str(), "slow_down") {
                Ok("slow_down".to_string())
            } else if str_eq(e.as_str(), "expired_token") {
                Ok("expired".to_string())
            } else if str_eq(e.as_str(), "access_denied") {
                Ok("denied".to_string())
            } else {
                Err(AppError::Github(e))
            }
        },
        None => Err(AppError::Github("unknown".to_string())),
    }
}

/// What one poll of the device flow stores and reports: a token is to be
/// stored as the secret `github_token` and reported as "ok"; otherwise
/// nothing is stored and the status is the one GitHub gave.
pub fn device_poll_step(reply: TokenReply) -> (r: (Option<SecretWrite>, Result<String, AppError>))
    ensures
        reply.access_token is Some ==> r.0 is Some && r.0->0.name@ == secrets::GITHUB_TOKEN@
            && r.0->0.value == reply.access_token->0 && r.1 is Ok && r.1->Ok_0@ == "ok"@,
        reply.access_token is None ==> r.0 is None && match poll_status(opt_view(reply.error)) {
            Ok(s) => r.1 is Ok && r.1->Ok_0@ == s,
            Err(m) => r.1 is Err && r.1->Err_0 is Github && r.1->Err_0->Github_0@ == m,
        },
{
    match reply.access_token {
        Some(t) => (
            Some(SecretWrite { name: secrets::GITHUB_TOKEN.to_string(), value: t }),
            Ok("ok".to_string()),
        ),
        None => (None, device_poll_status(reply.error)),
    }
}

/// One poll step of the device flow: stores what `device_poll_step` asks
/// for, then reports its status.
pub fn github_device_poll(reply: TokenReply) -> (r: Result<String, AppError>)
    ensures
        reply.access_token is Some ==> (r is Ok ==> r->Ok_0@ == "ok"@) && (r is Err ==> r->Err_0 is Other),
        reply.access_token is None ==> match poll_status(opt_view(reply.error)) {
            Ok(s) => r is Ok && r->Ok_0@ == s,
            Err(m) => r is Err && r->Err_0 is Github && r->Err_0->Github_0@ == m,
        },
{
    let (w, status) = device_poll_step(reply);
    match w {
        Some(w) => {
            secrets::set(w.name.as_str(), w.value.as_str())?;
        },
        None => {},
    }
    status
}

// ---- REST API ----

pub const API: &'static str = "https://api.github.com";

pub fn api_url(path: &str) -> (r: String)
    ensures
        r@ == API@ + path@,
{
    concat(API, path)
}

/// The GitHub token read from the store; none stored means the access has
/// expired.
pub fn token_or_expired(stored: Option<String>) -> (r: Result<String, AppError>)
    ensures
        stored is Some ==> r == Ok::<String, AppError>(stored->0),
        stored is None ==> r == Err::<String, AppError>(AppError::GithubAuthExpired),
{
    match stored {
        Some(t) => Ok(t),
        None => Err(AppError::GithubAuthExpired),
    }
}

/// The stored GitHub token (the secret `github_token`), as
/// `token_or_expired` reads it.
pub fn api_token() -> (r: Result<String, AppError>)
    ensures
        r is Err ==> (r->Err_0 is Other || r->Err_0 is GithubAuthExpired),
{
    let stored = secrets::get(secrets::GITHUB_TOKEN)?;
    token_or_expired(stored)
}

pub open spec fn is_success(status: u16) -> bool {
    200 <= status <= 299
}

/// The error an API answer stands for, if any: 401 means the access
/// expired, 403 with no requests left is the rate limit, any other failure
/// reads "<status>: <message>", the message being the body's `message`
/// field when it has one, else the body.
pub fn api_failure(
    status: u16,
    status_text: &str,
    rate_limit_exhausted: bool,
    body: &str,
    message: Option<String>,
) -> (r: Option<AppError>)
    ensures
        status == 401 ==> r == Some(AppError::GithubAuthExpired),
        status != 401 && status == 403 && rate_limit_exhausted ==> r is Some && r->0 is Github
            && r->0->Github_0@ == "GitHub rate limit reached. Try again in a few minutes."@,
        status != 401 && !(status == 403 && rate_limit_exhausted) && !is_success(status) ==> r is Some
            && r->0 is Github && r->0->Github_0@ == status_text@ + ": "@ + (match message {
            Some(m) => m@,
            None => body@,
        }),
        status != 401 && !(status == 403 && rate_limit_exhausted) && is_success(status) ==> r is None,
{
    if status == 401 {
        return Some(AppError::GithubAuthExpired);
    }
    if status == 403 && rate_limit_exhausted {
        return Some(AppError::Github("GitHub rate limit reached. Try again in a few minutes.".to_string()));
    }
    if !(200 <= status && status <= 299) {
        let mut v: Vec<char> = Vec::new();
        push_str(&mut v, status_text);
        push_str(&mut v, ": ");
        match message {
            Some(m) => push_str(&mut v, m.as_str()),
            None => push_str(&mut v, body),
        }
        return Some(AppError::Github(string_of(v.as_slice())));
    }
    None
}

/// The error a failed API answer stands for, reading the `message` field
/// of the body when the body is JSON and holds one.
pub fn api_error(status: u16, status_text: &str, rate_limit_exhausted: bool, body: &str) -> (r: Option<AppError>)
    ensures
        status == 401 ==> r == Some(AppError::GithubAuthExpired),
        status != 401 && status == 403 && rate_limit_exhausted ==> r is Some && r->0 is Github
            && r->0->Github_0@ == "GitHub rate limit reached. Try again in a few minutes."@,
        status != 401 && !(status == 403 && rate_limit_exhausted) && !is_success(status) ==> r is Some
            && r->0 is Github && r->0->Github_0@ == status_text@ + ": "@ + (match json_str_at(body@, "/message"@) {
            Some(m) => m,
            None => body@,
        }),
        status != 401 && !(status == 403 && rate_limit_exhausted) && is_success(status) ==> r is None,
{
    let message = json_pointer_str(body, "/message");
    api_failure(status, status_text, rate_limit_exhausted, body, message)
}

/// The API path of a repository.
pub fn repo_path(owner: &str, name: &str) -> (r: String)
    ensures
        r@ == "/repos/"@ + owner@ + "/"@ + name@,
{
    let mut v: Vec<char> = Vec::new();
    push_str(&mut v, "/repos/");
    push_str(&mut v, owner);
    push_str(&mut v, "/");
    push_str(&mut v, name);
    string_of(v.as_slice())
}

/// Whether a repository exists, from the answer to looking it up: a 404
/// means no, any other error stands.
pub fn github_repo_exists(lookup: Result<(), AppError>) -> (r: Result<bool, AppError>)
    ensures
        lookup is Ok ==> r == Ok::<bool, AppError>(true),
        lookup is Err ==> match lookup->Err_0 {
            AppError::Github(m) => if starts_with(m@, "404"@) {
                r == Ok::<bool, AppError>(false)
            } else {
                r == Err::<bool, AppError>(lookup->Err_0)
            },
            e => r == Err::<bool, AppError>(e),
        },
{
    match lookup {
        Ok(()) => Ok(true),
        Err(AppError::Github(m)) => {
            if str_starts_with(m.as_str(), "404") {
                Ok(false)
            } else {
                Err(AppError::Github(m))
            }
        },
        Err(e) => Err(e),
    }
}

/// Where a new repository is created: under the organization, or under the
/// user.
pub fn create_repo_path(owner: &str, is_org: bool) -> (r: String)
    ensures
        is_org ==> r@ == "/orgs/"@ + owner@ + "/repos"@,
        !is_org ==> r@ == "/user/repos"@,
{
    if is_org {
        let mut v: Vec<char> = Vec::new();
        push_str(&mut v, "/orgs/");
        push_str(&mut v, owner);
        push_str(&mut v, "/repos");
        string_of(v.as_slice())
    } else {
        "/user/repos".to_string()
    }
}

/// The error shown when creating a repository fails: a name clash and a
/// refusal (403 or 404) get their own wording, anything else stands.
pub fn create_repo_error(e: AppError, owner: &str, name: &str) -> (r: AppError)
    ensures
        match e {
            AppError::Github(m) => if contains(m@, "already exists"@) {
                r == AppError::Github(r->Github_0) && r->Github_0@ == "A repository named \""@ + name@
                    + "\" already exists for "@ + owner@ + "."@
            } else if starts_with(m@, "403"@) || starts_with(m@, "404"@) {
                r == AppError::Github(r->Github_0) && r->Github_0@
                    == "PugDock could not create the private GitHub repo. Check your GitHub permissions and try again."@
            } else {
                r == e
            },
            _ => r == e,
        },
{
    match e {
        AppError::Github(m) => {
            if str_contains(m.as_str(), "already exists") {
                let mut v: Vec<char> = Vec::new();
                push_str(&mut v, "A repository named \"");
                push_str(&mut v, name);
                push_str(&mut v, "\" already exists for ");
                push_str(&mut v, owner);
                push_str(&mut v, ".");
                AppError::Github(string_of(v.as_slice()))
            } else if str_starts_with(m.as_str(), "403") || str_starts_with(m.as_str(), "404") {
                AppError::Github(
                    "PugDock could not create the private GitHub repo. Check your GitHub permissions and try again.".to_string(),
                )
            } else {
                AppError::Github(m)
            }
        },
        other => other,
    }
}

/// The fields of GitHub's answer to creating a repository: whether
/// `private` is the JSON value `true`, and the string fields.
pub struct RepoReply {
    pub private: bool,
    pub full_name: Option<String>,
    pub clone_url: Option<String>,
    pub html_url: Option<String>,
}

pub open spec fn or_empty(o: Option<String>) -> Seq<char> {
    match o {
        Some(s) => s@,
        None => seq![],
    }
}

fn take_or_empty(o: Option<String>) -> (r: String)
    ensures
        r@ == or_empty(o),
{
    match o {
        Some(s) => s,
        None => String::new(),
    }
}

/// Reads GitHub's answer to creating a repository: `private` holds when the
/// field is the boolean `true`; the string fields as they are.
pub fn repo_reply(body: &str) -> (r: RepoReply)
    ensures
        r.private == (json_bool_at(body@, "/private"@) == Some(true)),
        opt_view(r.full_name) == json_str_at(body@, "/full_name"@),
        opt_view(r.clone_url) == json_str_at(body@, "/clone_url"@),
        opt_view(r.html_url) == json_str_at(body@, "/html_url"@),
{
    let private = match json_pointer_bool(body, "/private") {
        Some(b) => b,
        None => false,
    };
    RepoReply {
        private,
        full_name: json_pointer_str(body, "/full_name"),
        clone_url: json_pointer_str(body, "/clone_url"),
        html_url: json_pointer_str(body, "/html_url"),
    }
}

/// The created repository, which must be private: a public one is refused.
pub fn created_repo(reply: RepoReply) -> (r: Result<CreatedRepo, AppError>)
    ensures
        !reply.private ==> r is Err && r->Err_0 is Github && r->Err_0->Github_0@
            == "GitHub did not create a private repository. Aborting."@,
        reply.private ==> r is Ok && r->Ok_0.private && r->Ok_0.full_name@ == or_empty(
            reply.full_name,
        ) && r->Ok_0.clone_url@ == or_empty(reply.clone_url) && r->Ok_0.html_url@ == or_empty(
            reply.html_url,
        ),
{
    if !reply.private {
        return Err(AppError::Github("GitHub did not create a private repository. Aborting.".to_string()));
    }
    Ok(
        CreatedRepo {
            full_name: take_or_empty(reply.full_name),
            clone_url: take_or_empty(reply.clone_url),
            html_url: take_or_empty(reply.html_url),
            private: true,
        },
    )
}

} // verus!
