//! Opt-in portal permission persistence shared by input capture and remote
//! control.
//!
//! Restore tokens are single-use secrets. This module performs no storage;
//! callers must replace or clear their saved token after every start.
use vstd::prelude::*;

use crate::text::{has_char, to_chars, utf8_len};

verus! {

pub const MAX_RESTORE_TOKEN_BYTES: usize = 16384;

/// A portal secret. Its text is reachable only through the two methods that
/// say so in their names.
#[derive(Clone, PartialEq, Eq)]
pub struct RestoreToken {
    value: String,
}

#[derive(Debug, Clone, Copy, PartialEq, Eq, Structural)]
pub enum PersistenceError {
    EmptyToken,
    TokenTooLong(usize),
    EmbeddedNul,
}

/// Why a text cannot be a restore token.
pub open spec fn token_fault(value: Seq<char>) -> Option<PersistenceError> {
    let len = crate::text::utf8(value).len();
    if value.len() == 0 {
        Some(PersistenceError::EmptyToken)
    } else if len > MAX_RESTORE_TOKEN_BYTES {
        Some(PersistenceError::TokenTooLong(len as usize))
    } else if value.contains('\0') {
        Some(PersistenceError::EmbeddedNul)
    } else {
        None
    }
}

impl View for RestoreToken {
    type V = Seq<char>;

    closed spec fn view(&self) -> Seq<char> {
        self.value@
    }
}

impl RestoreToken {
    pub fn new(value: &str) -> (result: Result<RestoreToken, PersistenceError>)
        ensures
            match result {
                Ok(token) => token@ == value@ && token_fault(value@) is None,
                Err(error) => token_fault(value@) == Some(error),
            },
    {
        if value.is_empty() {
            return Err(PersistenceError::EmptyToken);
        }
        let len: usize = utf8_len(value);
        if len > MAX_RESTORE_TOKEN_BYTES {
            return Err(PersistenceError::TokenTooLong(len));
        }
        if has_char(to_chars(value).as_slice(), '\0') {
            return Err(PersistenceError::EmbeddedNul);
        }
        Ok(RestoreToken { value: value.to_owned() })
    }

    /// Borrow the secret for a portal call or secure configuration backend.
    pub fn expose_secret(&self) -> (secret: &str)
        ensures
            secret@ == self@,
    {
        self.value.as_str()
    }

    pub fn into_secret(self) -> (secret: String)
        ensures
            secret@ == self@,
    {
        self.value
    }

    /// Text for logs, the same for every token.
    pub fn redacted(&self) -> (text: String)
        ensures
            text@ == "RestoreToken([REDACTED])"@,
    {
        "RestoreToken([REDACTED])".to_owned()
    }
}

#[derive(Clone, PartialEq, Eq)]
pub struct PortalPersistence {
    enabled: bool,
    restore_token: Option<RestoreToken>,
}

/// Whether grants are kept, and the token of an earlier grant.
pub struct PersistenceView {
    pub enabled: bool,
    pub token: Option<Seq<char>>,
}

impl PersistenceView {
    /// The portal's number for the mode: 2 keeps a grant until it is revoked.
    pub open spec fn mode(self) -> u32 {
        if self.enabled {
            2
        } else {
            0
        }
    }
}

impl View for PortalPersistence {
    type V = PersistenceView;

    closed spec fn view(&self) -> PersistenceView {
        PersistenceView {
            enabled: self.enabled,
            token: match self.restore_token {
                Some(token) => Some(token@),
                None => None,
            },
        }
    }
}

impl Default for PortalPersistence {
    fn default() -> (settings: PortalPersistence)
        ensures
            settings@ == (PersistenceView { enabled: false, token: None }),
    {
        PortalPersistence { enabled: false, restore_token: None }
    }
}

impl PortalPersistence {
    /// No persistence and no restore attempt.
    pub fn disabled() -> (settings: PortalPersistence)
        ensures
            settings@ == (PersistenceView { enabled: false, token: None }),
            settings@.mode() == 0,
    {
        PortalPersistence { enabled: false, restore_token: None }
    }

    /// Persist permission until explicitly revoked, optionally restoring a
    /// previous grant. Invalid/withdrawn tokens are ignored by the portal and
    /// cause the normal consent dialog to be shown.
    pub fn persistent(restore_token: Option<RestoreToken>) -> (settings: PortalPersistence)
        ensures
            settings@.enabled,
            settings@.mode() == 2,
            match restore_token {
                Some(token) => settings@.token == Some(token@),
                None => settings@.token is None,
            },
    {
        PortalPersistence { enabled: true, restore_token }
    }

    pub fn is_enabled(&self) -> (enabled: bool)
        ensures
            enabled == self@.enabled,
    {
        self.enabled
    }

    pub fn restore_token(&self) -> (token: Option<&RestoreToken>)
        ensures
            match token {
                Some(token) => self@.token == Some(token@),
                None => self@.token is None,
            },
    {
        match &self.restore_token {
            Some(token) => Some(token),
            None => None,
        }
    }

    pub fn persist_mode(&self) -> (mode: u32)
        ensures
            mode == self@.mode(),
    {
        if self.enabled {
            2
        } else {
            0
        }
    }

    /// Text for logs: says whether a token is held, never which.
    pub fn redacted(&self) -> (text: String)
        ensures
            text@ == redacted_settings(self@.enabled, self@.token is Some),
    {
        let mut text = String::new();
        text.push_str("PortalPersistence { enabled: ");
        text.push_str(crate::text::bool_str(self.enabled));
        text.push_str(", restore_token: ");
        if self.restore_token.is_some() {
            text.push_str("Some(RestoreToken([REDACTED])) }");
        } else {
            text.push_str("None }");
        }
        assert(text@ =~= redacted_settings(self@.enabled, self@.token is Some));
        text
    }
}

/// The log text of settings, a function of two flags only.
pub open spec fn redacted_settings(enabled: bool, has_token: bool) -> Seq<char> {
    "PortalPersistence { enabled: "@ + crate::text::bool_text(enabled) + ", restore_token: "@ + (
    if has_token {
        "Some(RestoreToken([REDACTED])) }"@
    } else {
        "None }"@
    })
}

/// A text is a restore token exactly if it is not empty, has at most 16384 bytes
/// and holds no NUL; a fault names the first of these that is not so.
pub proof fn law_which_texts_are_tokens(value: Seq<char>)
    ensures
        ({
            let len = crate::text::utf8(value).len();
            &&& token_fault(value) is None <==> value.len() > 0 && len <= 16384 && !value.contains(
                '\0',
            )
            &&& value.len() == 0 ==> token_fault(value) == Some(PersistenceError::EmptyToken)
            &&& value.len() > 0 && len > 16384 ==> token_fault(value) == Some(
                PersistenceError::TokenTooLong(len as usize),
            )
            &&& value.len() > 0 && len <= 16384 && value.contains('\0') ==> token_fault(value)
                == Some(PersistenceError::EmbeddedNul)
        }),
{
}

/// Only permission that is to be kept is asked to be kept, until it is revoked.
/// Logs show whether there is a token, never which.
pub proof fn law_persistence_is_asked_for(token: Option<Seq<char>>, enabled: bool, held: bool)
    ensures
        (PersistenceView { enabled: true, token }).mode() == 2,
        (PersistenceView { enabled: false, token }).mode() == 0,
        redacted_settings(enabled, held) == "PortalPersistence { enabled: "@
            + crate::text::bool_text(enabled) + ", restore_token: "@ + (if held {
            "Some(RestoreToken([REDACTED])) }"@
        } else {
            "None }"@
        }),
{
}

} // verus!
