use totpaste::accounts::{
    accounts_map_to_dto, add_account, delete_account, edit_account, get_account_secret,
    import_from_qr_code, Account, SecretKeyStore,
};
use totpaste::crypto::{
    crypto_decrypt_with_key, crypto_encrypt_with_key, decode_app_store_key, make_app_store_key,
    resolve_app_store_key, saved_accounts_payload,
};
use totpaste::errors::{CryptoError, ParseError, StoreError, TotpError};
use totpaste::parsing::{display_name, parsing_qr_string_to_accounts};
use totpaste::totp::{accounts_get_valid_secret, expiry_for, generate_code};

const RFC_SECRET: &[u8] = b"12345678901234567890";
const RFC_SECRET_B32: &str = "GEZDGNBVGY3TQOJQGEZDGNBVGY3TQOJQ";
const MIGRATION_EXAMPLE: &str = "otpauth-migration://offline?data=CjMKCkhlbGxvId6tvu8SGFRlc3QxOnRlc3QxQGV4YW1wbGUxLmNvbRoFVGVzdDEgASgBMAIKMwoKSGVsbG8h3q2%2B8BIYVGVzdDI6dGVzdDJAZXhhbXBsZTIuY29tGgVUZXN0MiABKAEwAgozCgpIZWxsbyHerb7xEhhUZXN0Mzp0ZXN0M0BleGFtcGxlMy5jb20aBVRlc3QzIAEoATACEAEYASAAKI3orYEE";

#[test]
fn normalize_pads_short_secret() {
    let out = accounts_get_valid_secret("AAAA".to_string());
    assert_eq!(out.len(), 26);
    assert_eq!(out, "A".repeat(26));
    let out2 = accounts_get_valid_secret("JBSWY3DPEHPK3PXP".to_string());
    assert_eq!(out2, format!("JBSWY3DPEHPK3PXP{}", "A".repeat(10)));
}

#[test]
fn normalize_identity_on_long_secret() {
    let exactly_26 = "B".repeat(26);
    assert_eq!(accounts_get_valid_secret(exactly_26.clone()), exactly_26);
    assert_eq!(
        accounts_get_valid_secret(RFC_SECRET_B32.to_string()),
        RFC_SECRET_B32
    );
}

#[test]
fn expiry_is_next_boundary() {
    assert_eq!(expiry_for(0), 30);
    assert_eq!(expiry_for(29), 30);
    assert_eq!(expiry_for(30), 60);
    assert_eq!(expiry_for(59), 60);
    assert_eq!(expiry_for(1000), 1020);
    for at in [0u64, 1, 15, 29, 30, 31, 59, 60, 12345, 1111111109] {
        let e = expiry_for(at);
        assert!(e - at >= 1 && e - at <= 30);
        assert_eq!(e % 30, 0);
    }
}

#[test]
fn generate_code_matches_rfc_vectors() {
    let secret: Vec<u8> = RFC_SECRET.to_vec();
    assert_eq!(generate_code(&secret, 59).unwrap(), "287082");
    assert_eq!(generate_code(&secret, 1111111109).unwrap(), "081804");
    assert_eq!(generate_code(&secret, 1111111111).unwrap(), "050471");
}

#[test]
fn generate_code_rejects_short_secret() {
    let secret: Vec<u8> = vec![7u8; 15];
    assert_eq!(generate_code(&secret, 59), Err(TotpError::SecretTooSmall));
}

#[test]
fn encrypt_decrypt_round_trip() {
    let (key, _) = make_app_store_key();
    let blob = crypto_encrypt_with_key("an account list", &key);
    assert_eq!(blob.len(), "an account list".len() + 28);
    let plain = crypto_decrypt_with_key(&blob, &key).unwrap();
    assert_eq!(plain, b"an account list".to_vec());
}

#[test]
fn encrypt_uses_fresh_nonces() {
    let (key, _) = make_app_store_key();
    let blob1 = crypto_encrypt_with_key("same plaintext", &key);
    let blob2 = crypto_encrypt_with_key("same plaintext", &key);
    assert_ne!(blob1[0..12], blob2[0..12]);
    assert_ne!(blob1, blob2);
}

#[test]
fn decrypt_rejects_tampering_and_wrong_key() {
    let (key, _) = make_app_store_key();
    let blob = crypto_encrypt_with_key("secret payload", &key);
    for pos in [0, 5, 11, 12, 20, 27] {
        let mut bad = blob.clone();
        bad[pos] ^= 1;
        assert_eq!(
            crypto_decrypt_with_key(&bad, &key),
            Err(CryptoError::DecryptionFailed)
        );
    }
    let (other_key, _) = make_app_store_key();
    assert_eq!(
        crypto_decrypt_with_key(&blob, &other_key),
        Err(CryptoError::DecryptionFailed)
    );
    let short: Vec<u8> = blob[0..11].to_vec();
    assert_eq!(
        crypto_decrypt_with_key(&short, &key),
        Err(CryptoError::FileTooSmall)
    );
}

#[test]
fn master_key_round_trip() {
    let (key, encoded) = make_app_store_key();
    assert_eq!(key.len(), 32);
    assert_eq!(decode_app_store_key(&encoded).unwrap(), key);
}

#[test]
fn master_key_invalid_inputs() {
    assert_eq!(
        decode_app_store_key("not base64!!!"),
        Err(CryptoError::InvalidKeyLength)
    );
    let thirty_one = base64::Engine::encode(&base64::engine::general_purpose::STANDARD, [9u8; 31]);
    assert_eq!(
        decode_app_store_key(&thirty_one),
        Err(CryptoError::InvalidKeyLength)
    );
}

#[test]
fn resolve_master_key_paths() {
    let (key, new_b64) = resolve_app_store_key(None).unwrap();
    let stored = new_b64.expect("a fresh key must be handed back for storing");
    assert_eq!(decode_app_store_key(&stored).unwrap(), key);

    let (again, none) = resolve_app_store_key(Some(stored)).unwrap();
    assert_eq!(again, key);
    assert!(none.is_none());

    assert_eq!(
        resolve_app_store_key(Some("###".to_string())),
        Err(CryptoError::InvalidKeyLength)
    );
}

#[test]
fn load_tolerates_missing_or_corrupt_file() {
    let (key, _) = make_app_store_key();
    assert!(saved_accounts_payload(None, &key).is_none());
    assert!(saved_accounts_payload(Some(vec![1, 2, 3]), &key).is_none());
    assert!(saved_accounts_payload(Some(vec![0u8; 64]), &key).is_none());
    let blob = crypto_encrypt_with_key("[]", &key);
    assert_eq!(saved_accounts_payload(Some(blob), &key), Some(b"[]".to_vec()));
}

#[test]
fn store_set_get_delete() {
    let mut store = SecretKeyStore::new();
    assert_eq!(store.get("a"), Err(StoreError::NotFound));
    store.set("a", "one");
    store.set("b", "two");
    assert_eq!(store.get("a").unwrap(), "one");
    store.set("a", "replaced");
    assert_eq!(store.get("a").unwrap(), "replaced");
    assert_eq!(store.get("b").unwrap(), "two");
    assert_eq!(store.delete("a"), Ok(()));
    assert_eq!(store.get("a"), Err(StoreError::NotFound));
    assert_eq!(store.delete("a"), Err(StoreError::NotFound));
    assert_eq!(store.get("b").unwrap(), "two");
}

#[test]
fn delete_surfaces_missing_secret() {
    let mut store = SecretKeyStore::new();
    let mut accounts = vec![Account {
        id: "ghost".to_string(),
        name: "left behind".to_string(),
        secret: None,
    }];
    let r = delete_account(&mut accounts, &mut store, "ghost");
    assert_eq!(r, Err(StoreError::NotFound));
    assert_eq!(accounts.len(), 1);
}

#[test]
fn add_then_delete_account() {
    let mut store = SecretKeyStore::new();
    let mut accounts: Vec<Account> = Vec::new();
    add_account(
        &mut accounts,
        &mut store,
        "alice".to_string(),
        "JBSWY3DPEHPK3PXP".to_string(),
    );
    assert_eq!(accounts.len(), 1);
    assert_eq!(accounts[0].name, "alice");
    assert!(accounts[0].secret.is_none());
    let id = accounts[0].id.clone();
    assert_eq!(id.len(), 36);
    assert_eq!(
        get_account_secret(&store, &id).unwrap(),
        format!("JBSWY3DPEHPK3PXP{}", "A".repeat(10))
    );
    assert_eq!(delete_account(&mut accounts, &mut store, &id), Ok(()));
    assert!(accounts.is_empty());
    assert_eq!(get_account_secret(&store, &id), Err(StoreError::NotFound));
}

#[test]
fn edit_renames_and_replaces_secret() {
    let mut store = SecretKeyStore::new();
    let mut accounts: Vec<Account> = Vec::new();
    add_account(
        &mut accounts,
        &mut store,
        "old name".to_string(),
        "AAAA".to_string(),
    );
    let id = accounts[0].id.clone();
    edit_account(
        &mut accounts,
        &mut store,
        &id,
        "new name".to_string(),
        "JBSWY3DPEHPK3PXP".to_string(),
    );
    assert_eq!(accounts.len(), 1);
    assert_eq!(accounts[0].name, "new name");
    assert_eq!(accounts[0].id, id);
    assert_eq!(
        get_account_secret(&store, &id).unwrap(),
        format!("JBSWY3DPEHPK3PXP{}", "A".repeat(10))
    );
    // an unknown id leaves the list alone but still updates the store
    edit_account(
        &mut accounts,
        &mut store,
        "no-such-id",
        "ignored".to_string(),
        "BBBB".to_string(),
    );
    assert_eq!(accounts[0].name, "new name");
    assert_eq!(
        get_account_secret(&store, "no-such-id").unwrap(),
        format!("BBBB{}", "A".repeat(22))
    );
}

#[test]
fn parse_totp_uri() {
    let parsed =
        parsing_qr_string_to_accounts("otpauth://totp/Example:alice?secret=JBSWY3DPEHPK3PXP")
            .unwrap();
    assert_eq!(parsed.len(), 1);
    assert_eq!(parsed[0].id, "");
    assert_eq!(parsed[0].name, "Example:alice");
    assert_eq!(parsed[0].secret.as_deref(), Some("JBSWY3DPEHPK3PXP"));
}

#[test]
fn parse_totp_uri_missing_secret() {
    assert!(matches!(
        parsing_qr_string_to_accounts("otpauth://totp/Example:alice"),
        Err(ParseError::MissingParameter)
    ));
    assert!(matches!(
        parsing_qr_string_to_accounts("otpauth://totp/Example:alice?issuer=Example"),
        Err(ParseError::MissingParameter)
    ));
}

#[test]
fn parse_totp_uri_extra_params() {
    let parsed = parsing_qr_string_to_accounts(
        "otpauth://totp/Label?issuer=Ex&secret=ABCD&algorithm=SHA1&digits=6&period=30",
    )
    .unwrap();
    assert_eq!(parsed[0].name, "Label");
    assert_eq!(parsed[0].secret.as_deref(), Some("ABCD"));
}

#[test]
fn parse_unsupported_format() {
    assert!(matches!(
        parsing_qr_string_to_accounts("hello world"),
        Err(ParseError::UnsupportedFormat)
    ));
    assert!(matches!(
        parsing_qr_string_to_accounts(""),
        Err(ParseError::UnsupportedFormat)
    ));
}

#[test]
fn display_name_rule() {
    assert_eq!(display_name("Example", "alice"), "Example:alice");
    assert_eq!(display_name("", "alice"), "alice");
    assert_eq!(
        display_name("Test1", "Test1:test1@example1.com"),
        "Test1:test1@example1.com"
    );
}

#[test]
fn parse_migration_batch() {
    let parsed = parsing_qr_string_to_accounts(MIGRATION_EXAMPLE).unwrap();
    assert_eq!(parsed.len(), 3);
    assert_eq!(parsed[0].name, "Test1:test1@example1.com");
    assert_eq!(parsed[1].name, "Test2:test2@example2.com");
    assert_eq!(parsed[2].name, "Test3:test3@example3.com");
    assert_eq!(parsed[0].secret.as_deref(), Some("JBSWY3DPEHPK3PXP"));
    assert_eq!(parsed[1].secret.as_deref(), Some("JBSWY3DPEHPK3PXQ"));
    assert_eq!(parsed[2].secret.as_deref(), Some("JBSWY3DPEHPK3PXR"));
}

#[test]
fn parse_migration_malformed() {
    assert!(matches!(
        parsing_qr_string_to_accounts("otpauth-migration://offline?data=%%%"),
        Err(ParseError::MalformedPayload)
    ));
    assert!(matches!(
        parsing_qr_string_to_accounts("otpauth-migration-nonsense"),
        Err(ParseError::MalformedPayload)
    ));
}

#[test]
fn import_adds_parsed_accounts() {
    let mut store = SecretKeyStore::new();
    let mut accounts: Vec<Account> = Vec::new();
    import_from_qr_code(
        &mut accounts,
        &mut store,
        "otpauth://totp/Example:alice?secret=JBSWY3DPEHPK3PXP",
    )
    .unwrap();
    assert_eq!(accounts.len(), 1);
    assert_eq!(accounts[0].name, "Example:alice");
    assert!(accounts[0].secret.is_none());
    assert_eq!(accounts[0].id.len(), 36);
    assert_eq!(
        get_account_secret(&store, &accounts[0].id).unwrap(),
        format!("JBSWY3DPEHPK3PXP{}", "A".repeat(10))
    );

    let r = import_from_qr_code(&mut accounts, &mut store, "garbage");
    assert!(matches!(r, Err(ParseError::UnsupportedFormat)));
    assert_eq!(accounts.len(), 1);
}

#[test]
fn import_migration_batch() {
    let mut store = SecretKeyStore::new();
    let mut accounts: Vec<Account> = Vec::new();
    import_from_qr_code(&mut accounts, &mut store, MIGRATION_EXAMPLE).unwrap();
    assert_eq!(accounts.len(), 3);
    assert_eq!(accounts[0].name, "Test1:test1@example1.com");
    assert_ne!(accounts[0].id, accounts[1].id);
    assert_eq!(
        get_account_secret(&store, &accounts[2].id).unwrap(),
        format!("JBSWY3DPEHPK3PXR{}", "A".repeat(10))
    );
}

#[test]
fn list_codes_shares_expiry() {
    let accounts = vec![
        Account { id: "a".to_string(), name: "first".to_string(), secret: None },
        Account { id: "b".to_string(), name: "second".to_string(), secret: None },
    ];
    let secrets = vec![RFC_SECRET_B32.to_string(), RFC_SECRET_B32.to_string()];
    let dtos = accounts_map_to_dto(&accounts, &secrets, 59).unwrap();
    assert_eq!(dtos.len(), 2);
    assert_eq!(dtos[0].code, "287082");
    assert_eq!(dtos[1].code, "287082");
    assert_eq!(dtos[0].expires_at, 60);
    assert_eq!(dtos[1].expires_at, 60);
    assert_eq!(dtos[0].id, "a");
    assert_eq!(dtos[0].name, "first");
}

#[test]
fn list_codes_rejects_bad_secret() {
    let accounts = vec![Account {
        id: "a".to_string(),
        name: "bad".to_string(),
        secret: None,
    }];
    // '1' is not in the Base32 alphabet, even after padding
    let secrets = vec!["1111".to_string()];
    assert!(matches!(
        accounts_map_to_dto(&accounts, &secrets, 59),
        Err(TotpError::InvalidSecret)
    ));
}

#[test]
fn parse_totp_uri_edge_cases() {
    // a fragment ends the query
    let parsed =
        parsing_qr_string_to_accounts("otpauth://totp/a?secret=X#fragment").unwrap();
    assert_eq!(parsed[0].name, "a");
    assert_eq!(parsed[0].secret.as_deref(), Some("X"));

    // all leading slashes are trimmed off the label
    let parsed = parsing_qr_string_to_accounts("otpauth://totp//alice?secret=S").unwrap();
    assert_eq!(parsed[0].name, "alice");

    // a repeated parameter: the last value wins
    let parsed =
        parsing_qr_string_to_accounts("otpauth://totp/a?secret=first&secret=second").unwrap();
    assert_eq!(parsed[0].secret.as_deref(), Some("second"));

    // no path at all: the label is empty
    let parsed = parsing_qr_string_to_accounts("otpauth://totp?secret=S").unwrap();
    assert_eq!(parsed[0].name, "");
    assert_eq!(parsed[0].secret.as_deref(), Some("S"));
}
