use nostr_sdk::prelude::{Keys, ToBech32};

use ppg::errors::ServiceError;
use ppg::identity::{load_or_create_identity, mint_identity, CredentialRead};

#[test]
fn valid_bech32_credential_derives_matching_public_identifier() {
    let keys = Keys::generate();
    let nsec = keys.secret_key().unwrap().to_bech32().unwrap();
    let expected_npub = keys.public_key().to_bech32().unwrap();

    let identity = load_or_create_identity(CredentialRead::Found(nsec.clone())).unwrap();
    assert_eq!(identity.public_identifier, expected_npub);
    assert_eq!(identity.secret_credential, nsec);
}

#[test]
fn valid_hex_credential_derives_matching_public_identifier() {
    let keys = Keys::generate();
    let hex = keys.secret_key().unwrap().to_secret_hex();
    let expected_npub = keys.public_key().to_bech32().unwrap();

    let identity = load_or_create_identity(CredentialRead::Found(hex)).unwrap();
    assert_eq!(identity.public_identifier, expected_npub);
}

#[test]
fn same_credential_loads_to_same_identity() {
    let keys = Keys::generate();
    let nsec = keys.secret_key().unwrap().to_bech32().unwrap();

    let a = load_or_create_identity(CredentialRead::Found(nsec.clone())).unwrap();
    let b = load_or_create_identity(CredentialRead::Found(nsec)).unwrap();
    assert_eq!(a.public_identifier, b.public_identifier);
    assert_eq!(a.secret_credential, b.secret_credential);
}

#[test]
fn corrupted_credential_is_a_configuration_error() {
    let r = load_or_create_identity(CredentialRead::Found(String::from(
        "this is not a secret key",
    )));
    assert!(matches!(r, Err(ServiceError::Configuration)));
}

#[test]
fn empty_credential_is_a_configuration_error() {
    let r = load_or_create_identity(CredentialRead::Found(String::new()));
    assert!(matches!(r, Err(ServiceError::Configuration)));
}

#[test]
fn unreadable_credential_file_is_a_configuration_error() {
    let r = load_or_create_identity(CredentialRead::Unreadable);
    assert!(matches!(r, Err(ServiceError::Configuration)));
}

#[test]
fn missing_credential_file_falls_back_to_fresh_keys() {
    let identity = load_or_create_identity(CredentialRead::Missing).unwrap();
    assert!(identity.public_identifier.starts_with("npub"));
    assert!(identity.secret_credential.starts_with("nsec"));
}

#[test]
fn mint_identity_twice_yields_distinct_public_identifiers() {
    let a = mint_identity().unwrap();
    let b = mint_identity().unwrap();
    assert_ne!(a.public_identifier, b.public_identifier);
    assert_ne!(a.secret_credential, b.secret_credential);
}

#[test]
fn minted_secret_loads_back_to_the_minted_public_identifier() {
    let minted = mint_identity().unwrap();
    let reloaded =
        load_or_create_identity(CredentialRead::Found(minted.secret_credential)).unwrap();
    assert_eq!(reloaded.public_identifier, minted.public_identifier);
}
