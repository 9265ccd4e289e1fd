//! Secrets (the GitHub token, the Anthropic API key) live in the operating
//! system's credential store, under one service name, keyed by the secret's
//! name. Nothing secret is ever written to the workspace or the config file.

use vstd::prelude::*;

use crate::error::AppError;

verus! {

/// The credential-store service every secret is filed under.
pub const SERVICE: &'static str = "com.pugdock.app";

pub const GITHUB_TOKEN: &'static str = "github_token";

pub const ANTHROPIC_KEY: &'static str = "anthropic_api_key";

#[verifier::external_type_specification]
#[verifier::external_body]
pub struct ExKeyringEntry(keyring::Entry);

#[verifier::external_type_specification]
#[verifier::external_body]
pub struct ExKeyringError(keyring::Error);

/// A refusal of the credential store: whether it said there is no such
/// credential, and its description of the failure.
pub struct StoreFailure {
    pub missing: bool,
    pub text: String,
}

/// A credential of the store: the service it is filed under and the
/// secret's name (the store's "user").
pub struct Credential {
    pub service: String,
    pub name: String,
}

/// The credential that holds this application's secret `name`.
pub fn credential(name: &str) -> (r: Credential)
    ensures
        r.service@ == SERVICE@,
        r.name@ == name@,
{
    Credential { service: SERVICE.to_string(), name: name.to_string() }
}

/// Calls `keyring::Entry::new` with the credential's service and name,
/// which builds a handle on that credential. Whether the platform accepts
/// the names is its own affair, so nothing is stated of the outcome.
#[verifier::external_body]
fn entry_new(c: &Credential) -> (r: core::result::Result<keyring::Entry, keyring::Error>) {
    keyring::Entry::new(&c.service, &c.name)
}

/// Calls `keyring::Entry::set_password`; the store's answer is not stated.
#[verifier::external_body]
fn entry_set_password(e: &keyring::Entry, value: &str) -> (r: core::result::Result<(), keyring::Error>) {
    e.set_password(value)
}

/// Calls `keyring::Entry::get_password`; what the store holds is not stated.
#[verifier::external_body]
fn entry_get_password(e: &keyring::Entry) -> (r: core::result::Result<String, keyring::Error>) {
    e.get_password()
}

/// Calls `keyring::Entry::delete_credential`; the store's answer is not
/// stated.
#[verifier::external_body]
fn entry_delete(e: &keyring::Entry) -> (r: core::result::Result<(), keyring::Error>) {
    e.delete_credential()
}

/// Reads a `keyring::Error`: whether it is the `NoEntry` variant, and its
/// `Display` text. The error is opaque here, so nothing is stated.
#[verifier::external_body]
fn store_failure(e: keyring::Error) -> (r: StoreFailure) {
    match e {
        keyring::Error::NoEntry => StoreFailure { missing: true, text: e.to_string() },
        other => StoreFailure { missing: false, text: other.to_string() },
    }
}

/// What a store refusal becomes for the UI.
pub open spec fn failure_error(f: StoreFailure) -> AppError {
    AppError::Other(f.text)
}

/// What `set` answers for the store's reply to a write: success, or the
/// store's text, whatever the refusal was.
pub open spec fn written(answer: core::result::Result<(), StoreFailure>) -> core::result::Result<(), AppError> {
    match answer {
        Ok(()) => Ok(()),
        Err(f) => Err(failure_error(f)),
    }
}

/// What `get` answers for the store's reply to a read: the secret, no
/// secret when the store has no such credential, else the store's text.
pub open spec fn read_back(answer: core::result::Result<String, StoreFailure>) -> core::result::Result<Option<String>, AppError> {
    match answer {
        Ok(v) => Ok(Some(v)),
        Err(f) => if f.missing {
            Ok(None)
        } else {
            Err(failure_error(f))
        },
    }
}

/// What `delete` answers for the store's reply to a removal: a credential
/// that is already gone counts as removed.
pub open spec fn removed(answer: core::result::Result<(), StoreFailure>) -> core::result::Result<(), AppError> {
    match answer {
        Ok(()) => Ok(()),
        Err(f) => if f.missing {
            Ok(())
        } else {
            Err(failure_error(f))
        },
    }
}

pub fn write_outcome(answer: core::result::Result<(), StoreFailure>) -> (r: core::result::Result<(), AppError>)
    ensures
        r == written(answer),
{
    match answer {
        Ok(()) => Ok(()),
        Err(f) => Err(AppError::Other(f.text)),
    }
}

pub fn read_outcome(answer: core::result::Result<String, StoreFailure>) -> (r: core::result::Result<Option<String>, AppError>)
    ensures
        r == read_back(answer),
{
    match answer {
        Ok(v) => Ok(Some(v)),
        Err(f) => {
            if f.missing {
                Ok(None)
            } else {
                Err(AppError::Other(f.text))
            }
        },
    }
}

pub fn delete_outcome(answer: core::result::Result<(), StoreFailure>) -> (r: core::result::Result<(), AppError>)
    ensures
        r == removed(answer),
{
    match answer {
        Ok(()) => Ok(()),
        Err(f) => {
            if f.missing {
                Ok(())
            } else {
                Err(AppError::Other(f.text))
            }
        },
    }
}

/// The handle on the credential `name` of this application.
fn entry(name: &str) -> (r: core::result::Result<keyring::Entry, AppError>)
    ensures
        r is Err ==> r->Err_0 is Other,
{
    let c = credential(name);
    match entry_new(&c) {
        Ok(e) => Ok(e),
        Err(e) => Err(AppError::Other(store_failure(e).text)),
    }
}

/// Stores `value` as the secret `name`. Every failure is the store's own
/// text.
pub fn set(name: &str, value: &str) -> (r: core::result::Result<(), AppError>)
    ensures
        r is Err ==> r->Err_0 is Other,
{
    let e = entry(name)?;
    match entry_set_password(&e, value) {
        Ok(()) => write_outcome(Ok(())),
        Err(x) => write_outcome(Err(store_failure(x))),
    }
}

/// The secret `name`, or `None` when none is stored.
pub fn get(name: &str) -> (r: core::result::Result<Option<String>, AppError>)
    ensures
        r is Err ==> r->Err_0 is Other,
{
    let e = entry(name)?;
    match entry_get_password(&e) {
        Ok(v) => read_outcome(Ok(v)),
        Err(x) => read_outcome(Err(store_failure(x))),
    }
}

/// A secret to be stored: its name and its value.
pub struct SecretWrite {
    pub name: String,
    pub value: String,
}

/// Removes the secret `name`; removing one that is not there succeeds.
pub fn delete(name: &str) -> (r: core::result::Result<(), AppError>)
    ensures
        r is Err ==> r->Err_0 is Other,
{
    let e = entry(name)?;
    match entry_delete(&e) {
        Ok(()) => delete_outcome(Ok(())),
        Err(x) => delete_outcome(Err(store_failure(x))),
    }
}

/// Whether the secret `name` is stored.
pub fn has_secret(name: String) -> (r: core::result::Result<bool, AppError>)
    ensures
        r is Err ==> r->Err_0 is Other,
{
    let v = get(name.as_str())?;
    Ok(v.is_some())
}

pub fn delete_secret(name: String) -> (r: core::result::Result<(), AppError>)
    ensures
        r is Err ==> r->Err_0 is Other,
{
    delete(name.as_str())
}

} // verus!
