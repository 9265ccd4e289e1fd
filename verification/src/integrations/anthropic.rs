//! The AI provider: the assistant CLI first (it runs under the user's own
//! Anthropic sign-in), else the Anthropic API with a stored key or an OAuth
//! token minted by the `ant` CLI. The assistant CLI is named by the caller:
//! `cli` is its command name (also the word the UI knows it by and the prefix
//! of its model ids), `product` its name in messages, `family` the name of
//! its models. Processes and HTTP are the caller's; this
//! module decides which credentials to use, what to run, and how to read
//! every answer.

use vstd::prelude::*;

use crate::error::AppError;
use crate::secrets;
use crate::secrets::SecretWrite;
use crate::text::{
    chars_of, concat, contains, lines, lines_chars, lowercase, push_str, str_contains, str_trim, string_of,
    to_lowercase, trim,
};
use crate::git_sync::strings;
use crate::json::{
    index_pointer, index_ptr, json_array_len, json_len_at, json_pointer_str, json_str_at, opt_view,
};
use crate::workspace::str_eq;
use crate::theme::{json_accepts, json_from_str};

verus! {

pub const API: &'static str = "https://api.anthropic.com/v1";

pub const VERSION: &'static str = "2023-06-01";

pub struct Model {
    pub id: String,
    pub display_name: String,
}

/// How the user is authenticated with Anthropic.
pub enum Auth {
    /// An API key from the credential store, sent as `x-api-key`.
    Key(String),
    /// A short-lived OAuth token from the `ant` CLI, sent as a bearer token
    /// with the OAuth beta header.
    OAuth(String),
}

pub open spec fn strs(v: Seq<String>) -> Seq<Seq<char>> {
    v.map_values(|s: String| s@)
}

pub open spec fn pairs(v: Seq<(String, String)>) -> Seq<(Seq<char>, Seq<char>)> {
    v.map_values(|p: (String, String)| (p.0@, p.1@))
}

/// The headers that carry the credentials.
pub open spec fn auth_headers_spec(auth: Auth) -> Seq<(Seq<char>, Seq<char>)> {
    match auth {
        Auth::Key(k) => seq![("x-api-key"@, k@)],
        Auth::OAuth(t) => seq![
            ("Authorization"@, "Bearer "@ + t@),
            ("anthropic-beta"@, "oauth-2025-04-20"@),
        ],
    }
}

pub fn auth_headers(auth: &Auth) -> (r: Vec<(String, String)>)
    ensures
        pairs(r@) == auth_headers_spec(*auth),
{
    let mut r: Vec<(String, String)> = Vec::new();
    match auth {
        Auth::Key(k) => {
            r.push(("x-api-key".to_string(), k.clone()));
        },
        Auth::OAuth(t) => {
            r.push(("Authorization".to_string(), concat("Bearer ", t.as_str())));
            r.push(("anthropic-beta".to_string(), "oauth-2025-04-20".to_string()));
        },
    }
    assert(pairs(r@) =~= auth_headers_spec(*auth));
    r
}

// ---- Finding the command-line tools ----

/// The usual install locations of a tool, after any given first: GUI apps
/// get a minimal PATH, so these are tried before it.
pub open spec fn install_dirs(name: Seq<char>, home: Seq<char>) -> Seq<Seq<char>> {
    seq![
        "/opt/homebrew/bin/"@ + name,
        "/usr/local/bin/"@ + name,
        home + "/.local/bin/"@ + name,
        "/home/linuxbrew/.linuxbrew/bin/"@ + name,
        "/usr/bin/"@ + name,
    ]
}

pub fn bin_candidates(name: &str, home: &str, extra: Vec<String>) -> (r: Vec<String>)
    ensures
        strs(r@) == strs(extra@) + install_dirs(name@, home@),
{
    let mut r = extra;
    let ghost first = r@;
    r.push(concat("/opt/homebrew/bin/", name));
    r.push(concat("/usr/local/bin/", name));
    let mut v: Vec<char> = Vec::new();
    push_str(&mut v, home);
    push_str(&mut v, "/.local/bin/");
    push_str(&mut v, name);
    r.push(string_of(v.as_slice()));
    r.push(concat("/home/linuxbrew/.linuxbrew/bin/", name));
    r.push(concat("/usr/bin/", name));
    assert(strs(r@) =~= strs(first) + install_dirs(name@, home@));
    r
}

/// Where the assistant's own installer puts its CLI:
/// `<home>/.<cli>/local/<cli>`.
pub fn cli_local_bin(home: &str, cli: &str) -> (r: String)
    ensures
        r@ == home@ + "/."@ + cli@ + "/local/"@ + cli@,
{
    let mut v: Vec<char> = Vec::new();
    push_str(&mut v, home);
    push_str(&mut v, "/.");
    push_str(&mut v, cli);
    push_str(&mut v, "/local/");
    push_str(&mut v, cli);
    string_of(v.as_slice())
}

// ---- Running the assistant CLI ----

/// The text sent to the assistant CLI on standard input: the instructions in a
/// tagged block, a blank line, then the prompt.
pub open spec fn framed(system: Seq<char>, prompt: Seq<char>) -> Seq<char> {
    "<instructions>\n"@ + system + "\n</instructions>\n\n"@ + prompt
}

pub fn framed_prompt(system: &str, prompt: &str) -> (r: String)
    ensures
        r@ == framed(system@, prompt@),
{
    let mut v: Vec<char> = Vec::new();
    push_str(&mut v, "<instructions>\n");
    push_str(&mut v, system);
    push_str(&mut v, "\n</instructions>\n\n");
    push_str(&mut v, prompt);
    string_of(v.as_slice())
}

/// The arguments for one headless prompt with plain-text output, with the
/// model when one is chosen.
pub open spec fn print_args_spec(model: Option<Seq<char>>) -> Seq<Seq<char>> {
    let base = seq!["-p"@, "--output-format"@, "text"@, "--setting-sources"@, ""@];
    match model {
        Some(m) => base + seq!["--model"@, m],
        None => base,
    }
}

pub fn print_args(model: Option<&str>) -> (r: Vec<String>)
    ensures
        strs(r@) == print_args_spec(
            match model {
                Some(m) => Some(m@),
                None => None,
            },
        ),
{
    let mut r: Vec<String> = Vec::new();
    r.push("-p".to_string());
    r.push("--output-format".to_string());
    r.push("text".to_string());
    r.push("--setting-sources".to_string());
    r.push("".to_string());
    match model {
        Some(m) => {
            r.push("--model".to_string());
            r.push(m.to_string());
        },
        None => {},
    }
    assert(strs(r@) =~= print_args_spec(
        match model {
            Some(m) => Some(m@),
            None => None,
        },
    ));
    r
}

/// The model argument: none for "auto", which lets the CLI choose.
pub fn model_choice(model: &str) -> (r: Option<String>)
    ensures
        model@ == "auto"@ ==> r is None,
        model@ != "auto"@ ==> r is Some && r->0@ == model@,
{
    if str_eq(model, "auto") {
        None
    } else {
        Some(model.to_string())
    }
}

/// The arguments for a streamed agent run inside the workspace, with file
/// tools allowed and edits accepted.
pub open spec fn stream_args_spec(model: Seq<char>) -> Seq<Seq<char>> {
    let base = seq![
        "-p"@,
        "--output-format"@,
        "stream-json"@,
        "--include-partial-messages"@,
        "--verbose"@,
        "--setting-sources"@,
        ""@,
        "--allowedTools"@,
        "Read,Write,Edit,Glob,Grep,LS,Bash(mkdir:*)"@,
        "--permission-mode"@,
        "acceptEdits"@,
    ];
    if model == "auto"@ {
        base
    } else {
        base + seq!["--model"@, model]
    }
}

pub fn stream_args(model: &str) -> (r: Vec<String>)
    ensures
        strs(r@) == stream_args_spec(model@),
{
    let mut r: Vec<String> = Vec::new();
    r.push("-p".to_string());
    r.push("--output-format".to_string());
    r.push("stream-json".to_string());
    r.push("--include-partial-messages".to_string());
    r.push("--verbose".to_string());
    r.push("--setting-sources".to_string());
    r.push("".to_string());
    r.push("--allowedTools".to_string());
    r.push("Read,Write,Edit,Glob,Grep,LS,Bash(mkdir:*)".to_string());
    r.push("--permission-mode".to_string());
    r.push("acceptEdits".to_string());
    if !str_eq(model, "auto") {
        r.push("--model".to_string());
        r.push(model.to_string());
    }
    assert(strs(r@) =~= stream_args_spec(model@));
    r
}

/// The last line of `s`, or `default` when it has none.
pub open spec fn last_line_or(s: Seq<char>, default: Seq<char>) -> Seq<char> {
    if lines(s).len() > 0 {
        lines(s).last()
    } else {
        default
    }
}

pub fn last_line(s: &str, default: &str) -> (r: String)
    ensures
        r@ == last_line_or(s@, default@),
{
    let c = chars_of(s);
    let ls = lines_chars(c.as_slice());
    if ls.len() > 0 {
        string_of(ls[ls.len() - 1].as_slice())
    } else {
        default.to_string()
    }
}

/// Whether the CLI's error output speaks of signing in.
pub open spec fn mentions_sign_in(stderr: Seq<char>) -> bool {
    let l = lowercase(stderr);
    contains(l, "log in"@) || contains(l, "login"@) || contains(l, "auth"@)
}

/// What a failed run of the CLI reports.
pub open spec fn cli_failure_text(product: Seq<char>, stderr: Seq<char>) -> Seq<char> {
    if mentions_sign_in(stderr) {
        product + " is not signed in. Open "@ + product + ", run /login, then try again."@
    } else {
        product + " error: "@ + last_line_or(stderr, "unknown"@)
    }
}

/// The answer of one headless run of the CLI: its trimmed output, or the
/// error its exit status and error output stand for.
pub fn cli_outcome(product: &str, success: bool, stdout: &str, stderr: &str) -> (r: Result<
    String,
    AppError,
>)
    ensures
        success ==> r is Ok && r->Ok_0@ == trim(stdout@),
        !success ==> r is Err && r->Err_0 is Other && r->Err_0->Other_0@ == cli_failure_text(
            product@,
            stderr@,
        ),
{
    if success {
        return Ok(str_trim(stdout));
    }
    let l = to_lowercase(stderr);
    if str_contains(l.as_str(), "log in") || str_contains(l.as_str(), "login") || str_contains(
        l.as_str(),
        "auth",
    ) {
        let mut v: Vec<char> = Vec::new();
        push_str(&mut v, product);
        push_str(&mut v, " is not signed in. Open ");
        push_str(&mut v, product);
        push_str(&mut v, ", run /login, then try again.");
        return Err(AppError::Other(string_of(v.as_slice())));
    }
    let last = last_line(stderr, "unknown");
    let mut v: Vec<char> = Vec::new();
    push_str(&mut v, product);
    push_str(&mut v, " error: ");
    push_str(&mut v, last.as_str());
    Err(AppError::Other(string_of(v.as_slice())))
}

/// The cheap check that a sign-in works: the reply to "Reply with exactly:
/// OK" must contain "OK".
pub fn verify_reply(product: &str, reply: &str) -> (r: Result<(), AppError>)
    ensures
        contains(reply@, "OK"@) ==> r is Ok,
        !contains(reply@, "OK"@) ==> r is Err && r->Err_0 is Other && r->Err_0->Other_0@
            == product@ + " responded unexpectedly. Try again."@,
{
    if str_contains(reply, "OK") {
        Ok(())
    } else {
        Err(AppError::Other(concat(product, " responded unexpectedly. Try again.")))
    }
}

// ---- Credentials ----

/// The OAuth token printed by `ant auth print-credentials`: its trimmed
/// output, when the command succeeded and printed something.
pub fn oauth_token_from(success: bool, stdout: &str) -> (r: Option<String>)
    ensures
        success && trim(stdout@).len() > 0 ==> r is Some && r->0@ == trim(stdout@),
        !(success && trim(stdout@).len() > 0) ==> r is None,
{
    if !success {
        return None;
    }
    let t = str_trim(stdout);
    if t.as_str().is_empty() {
        None
    } else {
        Some(t)
    }
}

/// The stored API key, if any.
pub fn stored_key() -> (r: Result<Option<String>, AppError>)
    ensures
        r is Err ==> r->Err_0 is Other,
{
    secrets::get(secrets::ANTHROPIC_KEY)
}

/// Which credentials to use: the stored key first, then the OAuth token.
pub fn choose_auth(stored: Option<String>, oauth: Option<String>) -> (r: Result<Auth, AppError>)
    ensures
        stored is Some ==> r == Ok::<Auth, AppError>(Auth::Key(stored->0)),
        stored is None && oauth is Some ==> r == Ok::<Auth, AppError>(Auth::OAuth(oauth->0)),
        stored is None && oauth is None ==> r == Err::<Auth, AppError>(AppError::AiNotConnected),
{
    match stored {
        Some(k) => Ok(Auth::Key(k)),
        None => match oauth {
            Some(t) => Ok(Auth::OAuth(t)),
            None => Err(AppError::AiNotConnected),
        },
    }
}

/// The sign-in situation for the UI: the assistant CLI installed is
/// preferred (reported by its command name), then a stored key, then an
/// `ant` profile, then the `ant` CLI alone.
pub open spec fn auth_status_spec(cli: Seq<char>, installed: bool, key: bool, oauth: bool, ant: bool) -> Seq<char> {
    if installed {
        cli
    } else if key {
        "key"@
    } else if oauth {
        "oauth"@
    } else if ant {
        "ant"@
    } else {
        "none"@
    }
}

pub fn anthropic_auth_status(
    cli: &str,
    cli_installed: bool,
    key_stored: bool,
    oauth_available: bool,
    ant_installed: bool,
) -> (r: String)
    ensures
        r@ == auth_status_spec(cli@, cli_installed, key_stored, oauth_available, ant_installed),
{
    if cli_installed {
        cli.to_string()
    } else if key_stored {
        "key".to_string()
    } else if oauth_available {
        "oauth".to_string()
    } else if ant_installed {
        "ant".to_string()
    } else {
        "none".to_string()
    }
}

// ---- The REST API ----

pub fn models_url() -> (r: String)
    ensures
        r@ == API@ + "/models?limit=100"@,
{
    concat(API, "/models?limit=100")
}

pub fn messages_url() -> (r: String)
    ensures
        r@ == API@ + "/messages"@,
{
    concat(API, "/messages")
}

/// The error an answer to listing the models stands for: 401 is a bad key,
/// any other failure reads "Anthropic API error: <status>".
pub fn list_models_failure(status: u16, status_text: &str) -> (r: Option<AppError>)
    ensures
        status == 401 ==> r == Some(AppError::AnthropicKeyInvalid),
        status != 401 && !(200 <= status <= 299) ==> r is Some && r->0 is Other && r->0->Other_0@
            == "Anthropic API error: "@ + status_text@,
        status != 401 && 200 <= status <= 299 ==> r is None,
{
    if status == 401 {
        Some(AppError::AnthropicKeyInvalid)
    } else if !(200 <= status && status <= 299) {
        Some(AppError::Other(concat("Anthropic API error: ", status_text)))
    } else {
        None
    }
}

/// What connecting with an API key stores: once listing the models with it
/// has succeeded, the key as the secret `anthropic_api_key`, beside the
/// models; a failed listing stores nothing and is the answer.
pub fn connect_step(api_key: String, listed: Result<Vec<Model>, AppError>) -> (r: Result<
    (SecretWrite, Vec<Model>),
    AppError,
>)
    ensures
        listed is Err ==> r is Err && r->Err_0 == listed->Err_0,
        listed is Ok ==> r is Ok && ({
            let (w, models) = r->Ok_0;
            &&& w.name@ == secrets::ANTHROPIC_KEY@
            &&& w.value == api_key
            &&& models == listed->Ok_0
        }),
{
    match listed {
        Err(e) => Err(e),
        Ok(models) => Ok((SecretWrite { name: secrets::ANTHROPIC_KEY.to_string(), value: api_key }, models)),
    }
}

/// Connecting with an API key: stores what `connect_step` asks for, and
/// the models are the answer.
pub fn anthropic_connect(api_key: String, listed: Result<Vec<Model>, AppError>) -> (r: Result<
    Vec<Model>,
    AppError,
>)
    ensures
        listed is Err ==> r == listed,
        listed is Ok ==> (r is Ok ==> r == listed) && (r is Err ==> r->Err_0 is Other),
{
    let (w, models) = connect_step(api_key, listed)?;
    secrets::set(w.name.as_str(), w.value.as_str())?;
    Ok(models)
}

/// The models the assistant CLI is known to offer; it has no command that
/// lists them.
pub open spec fn known_models_spec(cli: Seq<char>, family: Seq<char>) -> Seq<(Seq<char>, Seq<char>)> {
    seq![
        (cli + "-opus-4-8"@, family + " Opus 4.8"@),
        (cli + "-sonnet-5"@, family + " Sonnet 5"@),
        (cli + "-sonnet-4-6"@, family + " Sonnet 4.6"@),
        (cli + "-haiku-4-5"@, family + " Haiku 4.5"@),
    ]
}

pub open spec fn model_views(v: Seq<Model>) -> Seq<(Seq<char>, Seq<char>)> {
    v.map_values(|m: Model| (m.id@, m.display_name@))
}

fn model(cli: &str, id: &str, family: &str, name: &str) -> (r: Model)
    ensures
        r.id@ == cli@ + id@,
        r.display_name@ == family@ + name@,
{
    Model { id: concat(cli, id), display_name: concat(family, name) }
}

pub fn known_models(cli: &str, family: &str) -> (r: Vec<Model>)
    ensures
        model_views(r@) == known_models_spec(cli@, family@),
{
    let mut r: Vec<Model> = Vec::new();
    r.push(model(cli, "-opus-4-8", family, " Opus 4.8"));
    r.push(model(cli, "-sonnet-5", family, " Sonnet 5"));
    r.push(model(cli, "-sonnet-4-6", family, " Sonnet 4.6"));
    r.push(model(cli, "-haiku-4-5", family, " Haiku 4.5"));
    assert(model_views(r@) =~= known_models_spec(cli@, family@));
    r
}

/// The model list for the UI: the live list when the API gave one, else the
/// known models when the assistant CLI is installed, else not connected.
pub fn anthropic_models(live: Option<Vec<Model>>, cli_installed: bool, cli: &str, family: &str) -> (r:
    Result<Vec<Model>, AppError>)
    ensures
        live is Some ==> r == Ok::<Vec<Model>, AppError>(live->0),
        live is None && cli_installed ==> r is Ok && model_views(r->Ok_0@) == known_models_spec(
            cli@,
            family@,
        ),
        live is None && !cli_installed ==> r == Err::<Vec<Model>, AppError>(
            AppError::AiNotConnected,
        ),
{
    match live {
        Some(m) => Ok(m),
        None => {
            if cli_installed {
                Ok(known_models(cli, family))
            } else {
                Err(AppError::AiNotConnected)
            }
        },
    }
}

/// The texts of the answer's content blocks, joined.
pub open spec fn joined_texts(blocks: Seq<Option<String>>) -> Seq<char>
    decreases blocks.len(),
{
    if blocks.len() == 0 {
        seq![]
    } else {
        joined_texts(blocks.drop_last()) + match blocks.last() {
            Some(t) => t@,
            None => seq![],
        }
    }
}

/// The answer to one message request: 401 is a bad key, an error object is
/// reported as "Anthropic: <message>", else the text of the content blocks
/// (each block's `text`, when it has one), or nothing when there are no
/// blocks.
pub fn messages_outcome(
    status: u16,
    error_message: Option<String>,
    blocks: Option<Vec<Option<String>>>,
) -> (r: Result<String, AppError>)
    ensures
        status == 401 ==> r == Err::<String, AppError>(AppError::AnthropicKeyInvalid),
        status != 401 && error_message is Some ==> r is Err && r->Err_0 is Other
            && r->Err_0->Other_0@ == "Anthropic: "@ + error_message->0@,
        status != 401 && error_message is None ==> r is Ok && r->Ok_0@ == match blocks {
            Some(b) => joined_texts(b@),
            None => seq![],
        },
{
    if status == 401 {
        return Err(AppError::AnthropicKeyInvalid);
    }
    match error_message {
        Some(m) => {
            return Err(AppError::Other(concat("Anthropic: ", m.as_str())));
        },
        None => {},
    }
    match blocks {
        None => Ok(String::new()),
        Some(b) => {
            let mut v: Vec<char> = Vec::new();
            let mut i: usize = 0;
            while i < b.len()
                invariant
                    i <= b@.len(),
                    v@ == joined_texts(b@.take(i as int)),
                decreases b.len() - i,
            {
                assert(b@.take(i + 1).drop_last() =~= b@.take(i as int));
                match &b[i] {
                    Some(t) => push_str(&mut v, t.as_str()),
                    None => {},
                }
                i = i + 1;
            }
            assert(b@.take(b@.len() as int) =~= b@);
            Ok(string_of(v.as_slice()))
        },
    }
}

/// The `max_tokens` of a message request: 4096 unless given.
pub fn max_tokens_or_default(max_tokens: Option<u32>) -> (r: u32)
    ensures
        r == match max_tokens {
            Some(m) => m,
            None => 4096,
        },
{
    match max_tokens {
        Some(m) => m,
        None => 4096,
    }
}

// ---- Streaming an agent run ----

/// A tool call announced by the CLI: its name and the first of the
/// input's `file_path`, `path`, `pattern` that it has.
pub struct ToolUse {
    pub name: Option<String>,
    pub file_path: Option<String>,
    pub path: Option<String>,
    pub pattern: Option<String>,
}

/// One line of the CLI's stream, as far as the app reads it.
pub enum StreamEvent {
    /// A partial-message event with a text delta.
    Delta(String),
    /// An assistant message; its tool calls, in order.
    Assistant(Vec<ToolUse>),
    /// The final result line, with its `result` text when it has one.
    Finished(Option<String>),
    /// Anything else, including a line that is not JSON.
    Other,
}

/// A string-valued option as a sequence.
pub open spec fn tool_view(t: ToolUse) -> (Option<Seq<char>>, Option<Seq<char>>, Option<Seq<char>>, Option<Seq<char>>) {
    (opt_view(t.name), opt_view(t.file_path), opt_view(t.path), opt_view(t.pattern))
}

pub open spec fn tool_views(v: Seq<ToolUse>) -> Seq<(Option<Seq<char>>, Option<Seq<char>>, Option<Seq<char>>, Option<Seq<char>>)> {
    v.map_values(|t: ToolUse| tool_view(t))
}

/// The pointer to `field` of the `i`-th content item of an assistant
/// message.
pub open spec fn item_ptr(i: nat, field: Seq<char>) -> Seq<char> {
    index_ptr("/message/content/"@, i, field)
}

/// The tool call described by the `i`-th content item of a stream line.
pub open spec fn tool_at(line: Seq<char>, i: nat) -> (Option<Seq<char>>, Option<Seq<char>>, Option<Seq<char>>, Option<Seq<char>>) {
    (
        json_str_at(line, item_ptr(i, "/name"@)),
        json_str_at(line, item_ptr(i, "/input/file_path"@)),
        json_str_at(line, item_ptr(i, "/input/path"@)),
        json_str_at(line, item_ptr(i, "/input/pattern"@)),
    )
}

/// The tool calls among the first `n` content items: those whose `type` is
/// "tool_use", in order.
pub open spec fn tools_spec(line: Seq<char>, n: nat) -> Seq<(Option<Seq<char>>, Option<Seq<char>>, Option<Seq<char>>, Option<Seq<char>>)>
    decreases n,
{
    if n == 0 {
        seq![]
    } else {
        tools_spec(line, (n - 1) as nat) + if json_str_at(line, item_ptr((n - 1) as nat, "/type"@))
            == Some("tool_use"@) {
            seq![tool_at(line, (n - 1) as nat)]
        } else {
            seq![]
        }
    }
}

fn item_pointer(i: usize, field: &str) -> (r: String)
    ensures
        r@ == item_ptr(i as nat, field@),
{
    index_pointer("/message/content/", i, field)
}

/// One line of the CLI's JSON stream read as an event: a `stream_event`
/// with a text delta, an `assistant` message with its tool calls, the
/// `result` line, or anything else (a line that is not JSON included).
pub fn stream_event(line: &str) -> (r: StreamEvent)
    ensures
        json_str_at(line@, "/type"@) == Some("stream_event"@) ==> match json_str_at(
            line@,
            "/event/delta/text"@,
        ) {
            Some(x) => r is Delta && r->Delta_0@ == x,
            None => r is Other,
        },
        json_str_at(line@, "/type"@) == Some("assistant"@) ==> r is Assistant && tool_views(
            r->Assistant_0@,
        ) == tools_spec(
            line@,
            match json_len_at(line@, "/message/content"@) {
                Some(n) => n,
                None => 0,
            },
        ),
        json_str_at(line@, "/type"@) == Some("result"@) ==> r is Finished && opt_view(r->Finished_0)
            == json_str_at(line@, "/result"@),
        json_str_at(line@, "/type"@) != Some("stream_event"@) && json_str_at(line@, "/type"@)
            != Some("assistant"@) && json_str_at(line@, "/type"@) != Some("result"@) ==> r is Other,
{
    proof {
        reveal_strlit("stream_event");
        reveal_strlit("assistant");
        reveal_strlit("result");
        assert("stream_event"@.len() == 12 && "assistant"@.len() == 9 && "result"@.len() == 6);
    }
    let t = match json_pointer_str(line, "/type") {
        Some(t) => t,
        None => {
            return StreamEvent::Other;
        },
    };
    if str_eq(t.as_str(), "stream_event") {
        match json_pointer_str(line, "/event/delta/text") {
            Some(x) => StreamEvent::Delta(x),
            None => StreamEvent::Other,
        }
    } else if str_eq(t.as_str(), "assistant") {
        let n: usize = match json_array_len(line, "/message/content") {
            Some(n) => n,
            None => 0,
        };
        let mut tools: Vec<ToolUse> = Vec::new();
        let mut i: usize = 0;
        while i < n
            invariant
                i <= n,
                n == match json_len_at(line@, "/message/content"@) {
                    Some(k) => k,
                    None => 0,
                },
                tool_views(tools@) == tools_spec(line@, i as nat),
            decreases n - i,
        {
            let ty = json_pointer_str(line, item_pointer(i, "/type").as_str());
            let is_tool = match &ty {
                Some(x) => str_eq(x.as_str(), "tool_use"),
                None => false,
            };
            if is_tool {
                let tool = ToolUse {
                    name: json_pointer_str(line, item_pointer(i, "/name").as_str()),
                    file_path: json_pointer_str(line, item_pointer(i, "/input/file_path").as_str()),
                    path: json_pointer_str(line, item_pointer(i, "/input/path").as_str()),
                    pattern: json_pointer_str(line, item_pointer(i, "/input/pattern").as_str()),
                };
                let ghost before = tools@;
                let ghost tv = tool_view(tool);
                assert(tv == tool_at(line@, i as nat));
                tools.push(tool);
                assert(tool_views(tools@) =~= tool_views(before).push(tv));
            } else {
                assert(tools_spec(line@, (i + 1) as nat) =~= tools_spec(line@, i as nat));
            }
            i = i + 1;
        }
        StreamEvent::Assistant(tools)
    } else if str_eq(t.as_str(), "result") {
        StreamEvent::Finished(json_pointer_str(line, "/result"))
    } else {
        StreamEvent::Other
    }
}

/// What the app shows while the run goes on.
pub enum Emit {
    Delta(String),
    Activity(String),
}

pub struct StreamState {
    pub result: String,
    pub streamed: String,
}

pub open spec fn tool_target_spec(t: ToolUse) -> Seq<char> {
    if t.file_path is Some {
        t.file_path->0@
    } else if t.path is Some {
        t.path->0@
    } else if t.pattern is Some {
        t.pattern->0@
    } else {
        seq![]
    }
}

/// The status line for a tool call, trimmed.
pub open spec fn activity_spec(name: Seq<char>, target: Seq<char>) -> Seq<char> {
    trim(
        if name == "Write"@ {
            "Writing "@ + target
        } else if name == "Edit"@ {
            "Editing "@ + target
        } else if name == "Read"@ {
            "Reading "@ + target
        } else if name == "Glob"@ || name == "Grep"@ || name == "LS"@ {
            "Searching "@ + target
        } else {
            name + " "@ + target
        },
    )
}

pub open spec fn tool_name(t: ToolUse) -> Seq<char> {
    match t.name {
        Some(n) => n@,
        None => "tool"@,
    }
}

pub fn activity_label(name: &str, target: &str) -> (r: String)
    ensures
        r@ == activity_spec(name@, target@),
{
    let mut v: Vec<char> = Vec::new();
    if str_eq(name, "Write") {
        push_str(&mut v, "Writing ");
    } else if str_eq(name, "Edit") {
        push_str(&mut v, "Editing ");
    } else if str_eq(name, "Read") {
        push_str(&mut v, "Reading ");
    } else if str_eq(name, "Glob") || str_eq(name, "Grep") || str_eq(name, "LS") {
        push_str(&mut v, "Searching ");
    } else {
        push_str(&mut v, name);
        push_str(&mut v, " ");
    }
    push_str(&mut v, target);
    let s = string_of(v.as_slice());
    str_trim(s.as_str())
}

fn tool_activity(t: &ToolUse) -> (r: String)
    ensures
        r@ == activity_spec(tool_name(*t), tool_target_spec(*t)),
{
    let name: &str = match &t.name {
        Some(n) => n.as_str(),
        None => "tool",
    };
    let target: &str = match &t.file_path {
        Some(p) => p.as_str(),
        None => match &t.path {
            Some(p) => p.as_str(),
            None => match &t.pattern {
                Some(p) => p.as_str(),
                None => "",
            },
        },
    };
    proof {
        reveal_strlit("");
    }
    activity_label(name, target)
}

pub open spec fn emit_views(v: Seq<Emit>) -> Seq<(bool, Seq<char>)> {
    v.map_values(
        |e: Emit|
            match e {
                Emit::Delta(t) => (true, t@),
                Emit::Activity(t) => (false, t@),
            },
    )
}

/// The status lines of a list of tool calls.
pub open spec fn activities(tools: Seq<ToolUse>) -> Seq<(bool, Seq<char>)> {
    tools.map_values(|t: ToolUse| (false, activity_spec(tool_name(t), tool_target_spec(t))))
}

/// One line of the stream: a delta is added to the streamed text and shown,
/// each tool call of an assistant message is shown as an activity, the
/// result line fixes the result (the streamed text when it carries none),
/// anything else is skipped.
pub fn stream_step(state: &mut StreamState, ev: StreamEvent) -> (r: Vec<Emit>)
    ensures
        match ev {
            StreamEvent::Delta(t) => final(state).streamed@ == old(state).streamed@ + t@
                && final(state).result@ == old(state).result@ && emit_views(r@) == seq![
                (true, t@),
            ],
            StreamEvent::Assistant(tools) => final(state).streamed@ == old(state).streamed@
                && final(state).result@ == old(state).result@ && emit_views(r@) == activities(
                tools@,
            ),
            StreamEvent::Finished(res) => final(state).streamed@ == old(state).streamed@
                && final(state).result@ == (match res {
                Some(x) => x@,
                None => old(state).streamed@,
            }) && r@.len() == 0,
            StreamEvent::Other => final(state).streamed@ == old(state).streamed@
                && final(state).result@ == old(state).result@ && r@.len() == 0,
        },
{
    let mut out: Vec<Emit> = Vec::new();
    match ev {
        StreamEvent::Delta(t) => {
            let mut v = chars_of(state.streamed.as_str());
            push_str(&mut v, t.as_str());
            state.streamed = string_of(v.as_slice());
            out.push(Emit::Delta(t));
            assert(emit_views(out@) =~= seq![(true, out@[0]->Delta_0@)]);
        },
        StreamEvent::Assistant(tools) => {
            let mut i: usize = 0;
            while i < tools.len()
                invariant
                    i <= tools@.len(),
                    emit_views(out@) == activities(tools@.take(i as int)),
                decreases tools.len() - i,
            {
                let label = tool_activity(&tools[i]);
                let ghost before = out@;
                let ghost lv = label@;
                out.push(Emit::Activity(label));
                assert(emit_views(out@) =~= emit_views(before).push((false, lv)));
                assert(activities(tools@.take(i + 1)) =~= activities(tools@.take(i as int)).push(
                    (false, lv),
                ));
                i = i + 1;
            }
            assert(tools@.take(tools@.len() as int) =~= tools@);
        },
        StreamEvent::Finished(res) => {
            match res {
                Some(x) => {
                    state.result = x;
                },
                None => {
                    state.result = state.streamed.clone();
                },
            }
        },
        StreamEvent::Other => {},
    }
    out
}

/// The end of a streamed run: a failed exit is reported, else the result,
/// or the streamed text when the result is empty.
pub fn stream_finish(product: &str, state: StreamState, success: bool) -> (r: Result<String, AppError>)
    ensures
        !success ==> r is Err && r->Err_0 is Other && r->Err_0->Other_0@
            == product@ + " could not complete the request. Check your sign-in and try again."@,
        success && state.result@.len() > 0 ==> r is Ok && r->Ok_0@ == state.result@,
        success && state.result@.len() == 0 ==> r is Ok && r->Ok_0@ == state.streamed@,
{
    if !success {
        return Err(
            AppError::Other(
                concat(product, " could not complete the request. Check your sign-in and try again."),
            ),
        );
    }
    if state.result.as_str().is_empty() {
        Ok(state.streamed)
    } else {
        Ok(state.result)
    }
}

// ---- Setting up the `ant` CLI ----

/// Whether and how to install the `ant` CLI: nothing to do when it is
/// already installed; else Homebrew is required, and is asked to install
/// `anthropics/tap/ant`.
pub fn install_plan(installed: bool, brew: Option<String>) -> (r: Result<Option<(String, Vec<String>)>, AppError>)
    ensures
        installed ==> r == Ok::<Option<(String, Vec<String>)>, AppError>(None),
        !installed && brew is None ==> r is Err && r->Err_0 is Other && r->Err_0->Other_0@
            == "Homebrew is required to set up Anthropic sign-in. Install it from https://brew.sh and try again."@,
        !installed && brew is Some ==> r is Ok && r->Ok_0 is Some && ({
            let (cmd, args) = r->Ok_0->0;
            cmd == brew->0 && strings(args@) == seq!["install"@, "anthropics/tap/ant"@]
        }),
{
    if installed {
        return Ok(None);
    }
    match brew {
        None => Err(brew_required()),
        Some(b) => {
            let mut args: Vec<String> = Vec::new();
            args.push("install".to_string());
            args.push("anthropics/tap/ant".to_string());
            assert(strings(args@) =~= seq!["install"@, "anthropics/tap/ant"@]);
            Ok(Some((b, args)))
        },
    }
}

/// The outcome of installing the `ant` CLI with Homebrew: a failed install
/// reports the last line of its error output; a finished one must have
/// left the CLI where it is looked for.
pub fn install_outcome(brew_success: bool, stderr: &str, found_after: bool) -> (r: Result<(), AppError>)
    ensures
        !brew_success ==> r is Err && r->Err_0 is Other && r->Err_0->Other_0@
            == "Could not install the Anthropic CLI: "@ + last_line_or(stderr@, "unknown error"@),
        brew_success && found_after ==> r is Ok,
        brew_success && !found_after ==> r is Err && r->Err_0 is Other && r->Err_0->Other_0@
            == "Install finished but the Anthropic CLI was not found."@,
{
    if !brew_success {
        let last = last_line(stderr, "unknown error");
        return Err(AppError::Other(concat("Could not install the Anthropic CLI: ", last.as_str())));
    }
    if found_after {
        Ok(())
    } else {
        Err(AppError::Other("Install finished but the Anthropic CLI was not found.".to_string()))
    }
}

/// The error when Homebrew is needed and missing.
pub fn brew_required() -> (r: AppError)
    ensures
        r is Other && r->Other_0@
            == "Homebrew is required to set up Anthropic sign-in. Install it from https://brew.sh and try again."@,
{
    AppError::Other(
        "Homebrew is required to set up Anthropic sign-in. Install it from https://brew.sh and try again.".to_string(),
    )
}

/// The error when the `ant` CLI is needed and missing.
pub fn ant_required() -> (r: AppError)
    ensures
        r is Other && r->Other_0@
            == "The Anthropic CLI is not installed. Install it with: brew install anthropics/tap/ant"@,
{
    AppError::Other(
        "The Anthropic CLI is not installed. Install it with: brew install anthropics/tap/ant".to_string(),
    )
}

/// The token after `ant auth login`: the login must have completed and left
/// credentials behind.
pub fn login_token(login_succeeded: bool, token: Option<String>) -> (r: Result<String, AppError>)
    ensures
        !login_succeeded ==> r is Err && r->Err_0 is Other && r->Err_0->Other_0@
            == "Anthropic login was not completed."@,
        login_succeeded && token is Some ==> r == Ok::<String, AppError>(token->0),
        login_succeeded && token is None ==> r is Err && r->Err_0 is Other && r->Err_0->Other_0@
            == "Login finished but no Anthropic credentials were found."@,
{
    if !login_succeeded {
        return Err(AppError::Other("Anthropic login was not completed.".to_string()));
    }
    match token {
        Some(t) => Ok(t),
        None => Err(AppError::Other("Login finished but no Anthropic credentials were found.".to_string())),
    }
}

/// The joined texts of content blocks given by their views.
pub open spec fn joined_views(blocks: Seq<Option<Seq<char>>>) -> Seq<char>
    decreases blocks.len(),
{
    if blocks.len() == 0 {
        seq![]
    } else {
        joined_views(blocks.drop_last()) + match blocks.last() {
            Some(t) => t,
            None => seq![],
        }
    }
}

/// The `text` of each of the first `n` content blocks of an answer body.
pub open spec fn block_texts(body: Seq<char>, n: nat) -> Seq<Option<Seq<char>>>
    decreases n,
{
    if n == 0 {
        seq![]
    } else {
        block_texts(body, (n - 1) as nat).push(json_str_at(body, index_ptr("/content/"@, (n - 1) as nat, "/text"@)))
    }
}

pub open spec fn text_views(b: Seq<Option<String>>) -> Seq<Option<Seq<char>>> {
    b.map_values(|x: Option<String>| opt_view(x))
}

proof fn lemma_joined_views(b: Seq<Option<String>>)
    ensures
        joined_texts(b) == joined_views(text_views(b)),
    decreases b.len(),
{
    if b.len() > 0 {
        lemma_joined_views(b.drop_last());
        assert(text_views(b.drop_last()) =~= text_views(b).drop_last());
    }
}

/// The answer to one message request read from its status and body: 401 is
/// a bad key; a body that is not JSON is an undecodable body; then as `messages_outcome`, with the body's `error.message` and
/// the `text` of each item of its `content` array.
pub fn messages_reply(status: u16, body: &str) -> (r: Result<String, AppError>)
    ensures
        status == 401 ==> r == Err::<String, AppError>(AppError::AnthropicKeyInvalid),
        status != 401 && !json_accepts(body@) ==> r is Err && r->Err_0 is Other && r->Err_0->Other_0@
            == "error decoding response body"@,
        status != 401 && json_accepts(body@) && json_str_at(body@, "/error/message"@) is Some ==> r is Err
            && r->Err_0 is Other && r->Err_0->Other_0@ == "Anthropic: "@ + json_str_at(
            body@,
            "/error/message"@,
        )->0,
        status != 401 && json_accepts(body@) && json_str_at(body@, "/error/message"@) is None ==> r is Ok
            && r->Ok_0@ == match json_len_at(body@, "/content"@) {
            Some(n) => joined_views(block_texts(body@, n)),
            None => seq![],
        },
{
    if status == 401 {
        return messages_outcome(status, None, None);
    }
    match json_from_str(body) {
        Err(_) => {
            return Err(AppError::undecodable_body());
        },
        Ok(_) => {},
    }
    let error_message = json_pointer_str(body, "/error/message");
    let blocks = match json_array_len(body, "/content") {
        None => None,
        Some(n) => {
            let mut b: Vec<Option<String>> = Vec::new();
            let mut i: usize = 0;
            while i < n
                invariant
                    i <= n,
                    text_views(b@) == block_texts(body@, i as nat),
                decreases n - i,
            {
                let p = index_pointer("/content/", i, "/text");
                let t = json_pointer_str(body, p.as_str());
                let ghost before = b@;
                b.push(t);
                assert(text_views(b@) =~= text_views(before).push(opt_view(t)));
                i = i + 1;
            }
            proof {
                lemma_joined_views(b@);
            }
            Some(b)
        },
    };
    messages_outcome(status, error_message, blocks)
}

} // verus!
