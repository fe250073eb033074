use cachybridge::portal_persistence::{
    PersistenceError, PortalPersistence, RestoreToken, MAX_RESTORE_TOKEN_BYTES,
};

#[test]
fn persistence_is_safe_off_by_default() {
    let settings = PortalPersistence::default();
    assert!(!settings.is_enabled());
    assert_eq!(settings.persist_mode(), 0);
    assert!(settings.restore_token().is_none());
}

#[test]
fn persistent_mode_holds_a_redacted_single_use_token() {
    let token = match RestoreToken::new("portal-secret") {
        Ok(token) => token,
        Err(error) => panic!("{error:?}"),
    };
    let settings = PortalPersistence::persistent(Some(token));
    assert!(settings.is_enabled());
    assert_eq!(settings.persist_mode(), 2);
    assert_eq!(
        settings.restore_token().unwrap().expose_secret(),
        "portal-secret"
    );
    assert_eq!(
        settings.restore_token().unwrap().redacted(),
        "RestoreToken([REDACTED])"
    );
    assert!(!settings.redacted().contains("portal-secret"));
}

#[test]
fn malformed_tokens_are_rejected_before_dbus() {
    assert!(RestoreToken::new("") == Err(PersistenceError::EmptyToken));
    assert!(RestoreToken::new("bad\0token") == Err(PersistenceError::EmbeddedNul));
    assert!(matches!(
        RestoreToken::new(&"x".repeat(MAX_RESTORE_TOKEN_BYTES + 1)),
        Err(PersistenceError::TokenTooLong(_))
    ));
}

#[test]
fn a_token_of_the_full_length_is_kept() {
    let secret = "x".repeat(MAX_RESTORE_TOKEN_BYTES);
    match RestoreToken::new(&secret) {
        Ok(token) => assert_eq!(token.into_secret(), secret),
        Err(error) => panic!("{error:?}"),
    }
    assert!(
        RestoreToken::new(&"x".repeat(MAX_RESTORE_TOKEN_BYTES + 1))
            == Err(PersistenceError::TokenTooLong(MAX_RESTORE_TOKEN_BYTES + 1))
    );
    assert!(PortalPersistence::disabled() == PortalPersistence::default());
}
