use pugdock::error::AppError;

fn all() -> Vec<AppError> {
    vec![
        AppError::Offline,
        AppError::GithubAuthExpired,
        AppError::Github("x".into()),
        AppError::FolderPermission,
        AppError::SyncConflict,
        AppError::AnthropicKeyInvalid,
        AppError::AiNotConnected,
        AppError::NoWorkspace,
        AppError::PathOutsideWorkspace,
        AppError::GitMissing,
        AppError::Other("y".into()),
    ]
}

#[test]
fn codes_are_distinct() {
    let codes: Vec<&str> = all().iter().map(|e| e.code()).collect();
    for i in 0..codes.len() {
        for j in 0..i {
            assert_ne!(codes[i], codes[j]);
        }
    }
    assert_eq!(AppError::PathOutsideWorkspace.code(), "path_outside_workspace");
}

#[test]
fn messages() {
    assert_eq!(AppError::Github("boom".into()).message(), "GitHub error: boom");
    assert_eq!(AppError::Other("plain".into()).message(), "plain");
    assert_eq!(AppError::NoWorkspace.message(), "No workspace is open.");
    assert_eq!(
        AppError::Offline.message(),
        "You are offline. Your files are saved locally and will sync later."
    );
}

#[test]
fn io_and_transport_errors() {
    assert_eq!(AppError::from_io(true, "denied".into()), AppError::FolderPermission);
    assert_eq!(AppError::from_io(false, "disk".into()), AppError::Other("disk".into()));
    assert_eq!(AppError::from_transport(true, "t".into()), AppError::Offline);
    assert_eq!(AppError::from_transport(false, "bad".into()), AppError::Other("bad".into()));
}
