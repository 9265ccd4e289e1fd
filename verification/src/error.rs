//! Every failure that crosses to the UI. `code` lets the UI pick a friendly
//! message; `message` is a safe human-readable fallback.

use vstd::prelude::*;

use crate::text::concat;

verus! {

#[derive(Debug, Clone, PartialEq, Eq)]
pub enum AppError {
    Offline,
    GithubAuthExpired,
    Github(String),
    FolderPermission,
    SyncConflict,
    AnthropicKeyInvalid,
    AiNotConnected,
    NoWorkspace,
    PathOutsideWorkspace,
    GitMissing,
    Other(String),
}

pub type Result<T> = core::result::Result<T, AppError>;

/// The stable machine-readable code of each error.
pub open spec fn code_of(e: AppError) -> Seq<char> {
    match e {
        AppError::Offline => "offline"@,
        AppError::GithubAuthExpired => "github_auth_expired"@,
        AppError::Github(_) => "github"@,
        AppError::FolderPermission => "folder_permission"@,
        AppError::SyncConflict => "sync_conflict"@,
        AppError::AnthropicKeyInvalid => "anthropic_key_invalid"@,
        AppError::AiNotConnected => "ai_not_connected"@,
        AppError::NoWorkspace => "no_workspace"@,
        AppError::PathOutsideWorkspace => "path_outside_workspace"@,
        AppError::GitMissing => "git_missing"@,
        AppError::Other(_) => "other"@,
    }
}

/// The message shown to the user for each error.
pub open spec fn message_of(e: AppError) -> Seq<char> {
    match e {
        AppError::Offline => "You are offline. Your files are saved locally and will sync later."@,
        AppError::GithubAuthExpired => "GitHub access expired. Please reconnect GitHub."@,
        AppError::Github(s) => "GitHub error: "@ + s@,
        AppError::FolderPermission => "PugDock cannot write to this folder. Choose another folder."@,
        AppError::SyncConflict => "This file changed in two places. Choose which version to keep."@,
        AppError::AnthropicKeyInvalid => "Anthropic API key is invalid. Please check the key and try again."@,
        AppError::AiNotConnected => "Connect Anthropic to use AI features."@,
        AppError::NoWorkspace => "No workspace is open."@,
        AppError::PathOutsideWorkspace => "Path is outside the workspace."@,
        AppError::GitMissing => "Git is not installed. PugDock needs Git to sync. Install it from https://git-scm.com and restart."@,
        AppError::Other(s) => s@,
    }
}

/// Which of the eleven kinds of error `e` is, numbered in declaration order.
pub open spec fn kind_of(e: AppError) -> nat {
    match e {
        AppError::Offline => 0,
        AppError::GithubAuthExpired => 1,
        AppError::Github(_) => 2,
        AppError::FolderPermission => 3,
        AppError::SyncConflict => 4,
        AppError::AnthropicKeyInvalid => 5,
        AppError::AiNotConnected => 6,
        AppError::NoWorkspace => 7,
        AppError::PathOutsideWorkspace => 8,
        AppError::GitMissing => 9,
        AppError::Other(_) => 10,
    }
}

impl AppError {
    pub fn code(&self) -> (r: &'static str)
        ensures
            r@ == code_of(*self),
    {
        match self {
            AppError::Offline => "offline",
            AppError::GithubAuthExpired => "github_auth_expired",
            AppError::Github(_) => "github",
            AppError::FolderPermission => "folder_permission",
            AppError::SyncConflict => "sync_conflict",
            AppError::AnthropicKeyInvalid => "anthropic_key_invalid",
            AppError::AiNotConnected => "ai_not_connected",
            AppError::NoWorkspace => "no_workspace",
            AppError::PathOutsideWorkspace => "path_outside_workspace",
            AppError::GitMissing => "git_missing",
            AppError::Other(_) => "other",
        }
    }

    pub fn message(&self) -> (r: String)
        ensures
            r@ == message_of(*self),
    {
        match self {
            AppError::Offline => "You are offline. Your files are saved locally and will sync later.".to_string(),
            AppError::GithubAuthExpired => "GitHub access expired. Please reconnect GitHub.".to_string(),
            AppError::Github(s) => concat("GitHub error: ", s.as_str()),
            AppError::FolderPermission => "PugDock cannot write to this folder. Choose another folder.".to_string(),
            AppError::SyncConflict => "This file changed in two places. Choose which version to keep.".to_string(),
            AppError::AnthropicKeyInvalid => "Anthropic API key is invalid. Please check the key and try again.".to_string(),
            AppError::AiNotConnected => "Connect Anthropic to use AI features.".to_string(),
            AppError::NoWorkspace => "No workspace is open.".to_string(),
            AppError::PathOutsideWorkspace => "Path is outside the workspace.".to_string(),
            AppError::GitMissing => "Git is not installed. PugDock needs Git to sync. Install it from https://git-scm.com and restart.".to_string(),
            AppError::Other(s) => s.clone(),
        }
    }

    /// The error for a failed file-system operation: a refused permission is
    /// the folder-permission error, anything else carries the system's text.
    pub fn from_io(permission_denied: bool, text: String) -> (r: AppError)
        ensures
            permission_denied ==> r == AppError::FolderPermission,
            !permission_denied ==> r == AppError::Other(text),
    {
        if permission_denied {
            AppError::FolderPermission
        } else {
            AppError::Other(text)
        }
    }

    /// The error for an HTTP answer whose body is not the JSON expected, as
    /// the HTTP client words it.
    pub fn undecodable_body() -> (r: AppError)
        ensures
            r is Other && r->Other_0@ == "error decoding response body"@,
    {
        AppError::Other("error decoding response body".to_string())
    }

    /// The error for a failed HTTP request: a connection failure or a timeout
    /// means offline, anything else carries the client's text.
    pub fn from_transport(connect_or_timeout: bool, text: String) -> (r: AppError)
        ensures
            connect_or_timeout ==> r == AppError::Offline,
            !connect_or_timeout ==> r == AppError::Other(text),
    {
        if connect_or_timeout {
            AppError::Offline
        } else {
            AppError::Other(text)
        }
    }
}

/// Two errors of different kinds never share a code, so the code alone tells
/// the UI which kind of error it got.
pub proof fn lemma_codes_distinct(a: AppError, b: AppError)
    requires
        kind_of(a) != kind_of(b),
    ensures
        code_of(a) != code_of(b),
{
    reveal_strlit("offline");
    reveal_strlit("github_auth_expired");
    reveal_strlit("github");
    reveal_strlit("folder_permission");
    reveal_strlit("sync_conflict");
    reveal_strlit("anthropic_key_invalid");
    reveal_strlit("ai_not_connected");
    reveal_strlit("no_workspace");
    reveal_strlit("path_outside_workspace");
    reveal_strlit("git_missing");
    reveal_strlit("other");
    assert(code_of(a).len() != code_of(b).len() || code_of(a)[0] != code_of(b)[0]
        || code_of(a)[1] != code_of(b)[1] || code_of(a)[2] != code_of(b)[2]
        || code_of(a)[6] != code_of(b)[6]);
}

} // verus!
