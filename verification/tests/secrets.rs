use pugdock::secrets::credential;
use pugdock::error::AppError;
use pugdock::secrets::{
    delete, delete_outcome, delete_secret, get, has_secret, read_outcome, write_outcome,
    StoreFailure, ANTHROPIC_KEY, GITHUB_TOKEN,
};

fn failure(missing: bool, text: &str) -> StoreFailure {
    StoreFailure { missing, text: text.to_string() }
}

#[test]
fn store_answers_are_read() {
    assert_eq!(read_outcome(Ok("tok".into())), Ok(Some("tok".to_string())));
    assert_eq!(read_outcome(Err(failure(true, "No matching entry"))), Ok(None));
    assert_eq!(
        read_outcome(Err(failure(false, "locked"))),
        Err(AppError::Other("locked".into()))
    );
    assert_eq!(delete_outcome(Err(failure(true, "gone"))), Ok(()));
    assert_eq!(delete_outcome(Err(failure(false, "locked"))), Err(AppError::Other("locked".into())));
    assert_eq!(write_outcome(Err(failure(true, "x"))), Err(AppError::Other("x".into())));
    assert_eq!(write_outcome(Ok(())), Ok(()));
}

#[test]
fn secret_names() {
    assert_eq!(GITHUB_TOKEN, "github_token");
    assert_eq!(ANTHROPIC_KEY, "anthropic_api_key");
}

#[test]
fn the_store_is_reachable_and_errors_are_other() {
    // Whatever store this build talks to, every failure is reported as the
    // store's own text.
    for r in [pugdock::secrets::set("pugdock-test", "v"), delete("pugdock-test"), delete_secret("pugdock-test".into())] {
        if let Err(e) = r {
            assert!(matches!(e, AppError::Other(_)));
        }
    }
    match get("pugdock-test") {
        Ok(_) => {}
        Err(e) => assert!(matches!(e, AppError::Other(_))),
    }
    match has_secret("pugdock-test".into()) {
        Ok(_) => {}
        Err(e) => assert!(matches!(e, AppError::Other(_))),
    }
}

#[test]
fn secrets_are_filed_under_the_app_service() {
    let c = credential(GITHUB_TOKEN);
    assert_eq!(c.service, "com.pugdock.app");
    assert_eq!(c.name, "github_token");
    assert_eq!(credential(ANTHROPIC_KEY).name, "anthropic_api_key");
}
