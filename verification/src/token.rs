//! The credential store: a get/set/clear capability over one secret in
//! the OS keyring. Its availability depends on the machine, so nothing is
//! promised of the outcomes; an unavailable secret service is reported
//! distinctly from any other keyring failure, and distinctly from "no
//! credential configured" (`Ok(None)` on lookup).

use vstd::prelude::*;
use vstd::string::StringExecFns;

verus! {

/// Failures of the credential store.
#[derive(Clone, Debug, PartialEq)]
pub enum TokenStoreError {
    /// The OS secret service is unavailable or locked.
    StorageUnavailable(String),
    /// Any other keyring failure.
    Keyring(String),
}

/// Mathematical image of a [`TokenStoreError`].
#[verifier::ext_equal]
pub enum TokenStoreErrorView {
    StorageUnavailable(Seq<char>),
    Keyring(Seq<char>),
}

impl View for TokenStoreError {
    type V = TokenStoreErrorView;

    open spec fn view(&self) -> TokenStoreErrorView {
        match self {
            TokenStoreError::StorageUnavailable(m) => TokenStoreErrorView::StorageUnavailable(
                m@,
            ),
            TokenStoreError::Keyring(m) => TokenStoreErrorView::Keyring(m@),
        }
    }
}

/// The display text of a credential-store failure.
pub open spec fn token_error_text(e: TokenStoreErrorView) -> Seq<char> {
    match e {
        TokenStoreErrorView::StorageUnavailable(m) =>
            "system keyring is unavailable or locked (Secret Service): "@ + m,
        TokenStoreErrorView::Keyring(m) => "failed to access keyring: "@ + m,
    }
}

impl TokenStoreError {
    /// A display text for the failure.
    pub fn describe(&self) -> (r: String)
        ensures
            r@ == token_error_text(self@),
    {
        match self {
            TokenStoreError::StorageUnavailable(m) => {
                let mut text = String::new();
                text.append("system keyring is unavailable or locked (Secret Service): ");
                text.append(m.as_str());
                text
            },
            TokenStoreError::Keyring(m) => {
                let mut text = String::new();
                text.append("failed to access keyring: ");
                text.append(m.as_str());
                text
            },
        }
    }
}

/// Relies on keyring::Entry::new and Entry::set_password: stores the
/// secret under the given service and user in the OS keyring. The outcome
/// depends on the machine; a NoStorageAccess failure is reported as
/// storage-unavailable, any other as a keyring failure.
#[verifier::external_body]
fn keyring_set(service: &str, user: &str, token: &str) -> (r: Result<(), TokenStoreError>) {
    let entry = match keyring::Entry::new(service, user) {
        Ok(e) => e,
        Err(e) => return Err(TokenStoreError::Keyring(e.to_string())),
    };
    match entry.set_password(token) {
        Ok(()) => Ok(()),
        Err(keyring::Error::NoStorageAccess(inner)) => Err(
            TokenStoreError::StorageUnavailable(inner.to_string()),
        ),
        Err(other) => Err(TokenStoreError::Keyring(other.to_string())),
    }
}

/// Relies on keyring::Entry::new and Entry::get_password: reads the
/// secret; a NoEntry failure means no credential is configured and is
/// `Ok(None)`, a NoStorageAccess failure is storage-unavailable.
#[verifier::external_body]
fn keyring_get(service: &str, user: &str) -> (r: Result<Option<String>, TokenStoreError>) {
    let entry = match keyring::Entry::new(service, user) {
        Ok(e) => e,
        Err(e) => return Err(TokenStoreError::Keyring(e.to_string())),
    };
    match entry.get_password() {
        Ok(value) => Ok(Some(value)),
        Err(keyring::Error::NoEntry) => Ok(None),
        Err(keyring::Error::NoStorageAccess(inner)) => Err(
            TokenStoreError::StorageUnavailable(inner.to_string()),
        ),
        Err(other) => Err(TokenStoreError::Keyring(other.to_string())),
    }
}

/// Relies on keyring::Entry::new and Entry::delete_credential: removes
/// the secret; deleting an absent entry succeeds.
#[verifier::external_body]
fn keyring_delete(service: &str, user: &str) -> (r: Result<(), TokenStoreError>) {
    let entry = match keyring::Entry::new(service, user) {
        Ok(e) => e,
        Err(e) => return Err(TokenStoreError::Keyring(e.to_string())),
    };
    match entry.delete_credential() {
        Ok(()) | Err(keyring::Error::NoEntry) => Ok(()),
        Err(keyring::Error::NoStorageAccess(inner)) => Err(
            TokenStoreError::StorageUnavailable(inner.to_string()),
        ),
        Err(other) => Err(TokenStoreError::Keyring(other.to_string())),
    }
}

/// The credential store: one secret under a fixed service and user name.
pub struct TokenStore;

impl TokenStore {
    pub fn new() -> TokenStore {
        TokenStore
    }

    /// Stores the credential. The value is forwarded verbatim; validation
    /// happens before this call.
    pub fn set_token(&self, token: &str) -> Result<(), TokenStoreError> {
        keyring_set("ommapin", "pinboard_auth_token", token)
    }

    /// Reads the credential: `Ok(None)` when none is configured.
    pub fn get_token(&self) -> Result<Option<String>, TokenStoreError> {
        keyring_get("ommapin", "pinboard_auth_token")
    }

    /// Removes the credential; removing an absent one succeeds.
    pub fn clear_token(&self) -> Result<(), TokenStoreError> {
        keyring_delete("ommapin", "pinboard_auth_token")
    }
}

} // verus!
