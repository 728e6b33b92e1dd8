use satya_vault::crypto::{encrypt_with_binding, VaultKey};
use satya_vault::error::VaultError;
use satya_vault::parser::parse_upi_url;
use satya_vault::persistence::VaultManager;
use satya_vault::session::{rust_get_identities, verify_envelope, VaultSession, VAULT_SALT};

const CODE: &str = "upi://pay?pa=merchant@bank&pn=Seller&am=100&cu=INR";

/// Unlocks a session over `stored`, carrying out any save, and returns it
/// with the bytes of the vault file afterwards.
fn open(pin: &str, device: &str, stored: &[u8]) -> (VaultSession, Vec<u8>) {
    let manager = VaultManager::new("/data/app");
    let unlocking = VaultSession::begin_unlock(pin, device, manager, stored).expect("unlock");
    let file = match unlocking.save() {
        Some(plan) => plan.bytes.clone(),
        None => stored.to_vec(),
    };
    let mut session = VaultSession::new();
    session.install(unlocking);
    (session, file)
}

#[test]
fn end_to_end_payment_intent() {
    let manager = VaultManager::new("/data/app");
    let unlocking = VaultSession::begin_unlock("123456", "device-A", manager, &[]).expect("unlock");
    let plan = unlocking.save().as_ref().expect("a fresh vault is saved at once");
    assert_eq!(plan.final_path, "/data/app/vault-store/vault.bin");
    assert_eq!(plan.temp_path, "/data/app/vault-store/vault.tmp");
    assert!(plan.bytes.len() > 12 + 16);
    let file = plan.bytes.clone();
    let mut session = VaultSession::new();
    session.install(unlocking);
    assert!(session.unlocked());

    let created = session.create_identity("Alice".to_string()).expect("create");
    let alice = session.commit_identity(created).expect("commit");
    assert_eq!(alice.label, "Alice");
    assert_eq!(alice.did, format!("did:satya:{}", alice.id));
    assert_eq!(alice.id.len(), 64);
    assert!(alice.id.chars().all(|c| c.is_ascii_hexdigit() && !c.is_ascii_uppercase()));

    // The same master seed gives the same DID at index 0.
    let (other, _) = open("123456", "device-A", &file);
    let again = other.create_identity("Alice".to_string()).expect("create again");
    assert_eq!(again.identity().did, alice.did);
    assert_eq!(again.identity().id, alice.id);

    let intent = parse_upi_url(CODE).expect("parse");
    assert_eq!(intent.vpa, "merchant@bank");
    assert_eq!(intent.name, "Seller");
    assert_eq!(intent.amount, "100");
    assert_eq!(intent.currency, "INR");

    let envelope = session.sign_intent(&alice.id, CODE).expect("sign");
    assert_eq!(envelope.payload.upi_data.amount, "100");
    assert_eq!(envelope.payload.upi_data.currency, "INR");
    assert_eq!(envelope.payload.version, "1.0.0");
    assert_eq!(envelope.signer_did, alice.did);
    assert_eq!(envelope.signature_hex.len(), 128);
    assert!(!envelope.is_verified);
    assert_eq!(verify_envelope(&envelope), Ok(true));
}

#[test]
fn reopened_vault_keeps_seed_and_identities() {
    let (mut session, first) = open("2468", "device-A", &[]);
    let created = session.create_identity("Work".to_string()).expect("create");
    let file = created.save().bytes.clone();
    let work = session.commit_identity(created).expect("commit");
    assert_ne!(first, file);

    let manager = VaultManager::new("/data/app");
    let unlocking = VaultSession::begin_unlock("2468", "device-A", manager, &file).expect("reopen");
    assert!(unlocking.save().is_none());
    let mut reopened = VaultSession::new();
    reopened.install(unlocking);
    let listed = rust_get_identities(&reopened).expect("list");
    assert_eq!(listed.len(), 1);
    assert_eq!(listed[0].id, work.id);
    assert_eq!(listed[0].label, "Work");
    assert_eq!(listed[0].did, work.did);

    // The second identity is derived at index 1, so it differs from the first.
    let second = reopened.create_identity("Home".to_string()).expect("create");
    assert_ne!(second.identity().id, work.id);
}

#[test]
fn device_binding_rejects_other_device() {
    let (_, file) = open("123456", "device-A", &[]);
    let manager = VaultManager::new("/data/app");
    let result = VaultSession::begin_unlock("123456", "device-B", manager, &file);
    assert!(matches!(result, Err(VaultError::AuthenticationFailure)));
}

#[test]
fn wrong_pin_is_authentication_failure() {
    let (_, file) = open("123456", "device-A", &[]);
    let manager = VaultManager::new("/data/app");
    let result = VaultSession::begin_unlock("654321", "device-A", manager, &file);
    assert!(matches!(result, Err(VaultError::AuthenticationFailure)));
}

#[test]
fn empty_pin_is_kdf_failure() {
    let manager = VaultManager::new("/data/app");
    let result = VaultSession::begin_unlock("", "device-A", manager, &[]);
    assert!(matches!(result, Err(VaultError::KdfFailure)));
}

#[test]
fn locked_session_refuses_operations() {
    let session = VaultSession::new();
    assert!(!session.unlocked());
    assert!(matches!(session.create_identity("x".to_string()), Err(VaultError::VaultLocked)));
    assert!(matches!(rust_get_identities(&session), Err(VaultError::VaultLocked)));
    assert!(matches!(session.sign_intent("abc", CODE), Err(VaultError::VaultLocked)));
}

#[test]
fn reset_locks_and_is_idempotent() {
    let (mut session, _) = open("1111", "device-A", &[]);
    assert!(session.unlocked());
    session.reset();
    assert!(!session.unlocked());
    session.reset();
    assert!(!session.unlocked());
    assert!(matches!(session.identities(), Err(VaultError::VaultLocked)));
}

#[test]
fn sign_intent_errors() {
    let (mut session, _) = open("1111", "device-A", &[]);
    assert!(matches!(session.sign_intent_at("nobody", CODE, 5), Err(VaultError::IdentityNotFound)));
    let created = session.create_identity("A".to_string()).expect("create");
    let a = session.commit_identity(created).expect("commit");
    assert!(matches!(session.sign_intent_at(&a.id, "http://pay?pa=x", 5), Err(VaultError::InvalidIntent)));
    let envelope = session.sign_intent_at(&a.id, CODE, 1_700_000_000).expect("sign");
    assert_eq!(envelope.payload.timestamp, 1_700_000_000);
    assert_eq!(verify_envelope(&envelope), Ok(true));
}

#[test]
fn tampered_envelope_does_not_verify() {
    let (mut session, _) = open("1111", "device-A", &[]);
    let created = session.create_identity("A".to_string()).expect("create");
    let a = session.commit_identity(created).expect("commit");
    let mut envelope = session.sign_intent_at(&a.id, CODE, 42).expect("sign");
    envelope.payload.upi_data.amount = "1000".to_string();
    assert_eq!(verify_envelope(&envelope), Ok(false));
    envelope.signer_did = "did:other:abcd".to_string();
    assert_eq!(verify_envelope(&envelope), Err(VaultError::InvalidPublicKey));
}

#[test]
fn authentic_but_malformed_vault_is_corruption() {
    let key = VaultKey::from_pin("123456", VAULT_SALT.as_bytes()).expect("key");
    let stored = encrypt_with_binding(&key, b"device-A", &[0u8; 3]).expect("seal");
    let manager = VaultManager::new("/data/app");
    let result = VaultSession::begin_unlock("123456", "device-A", manager, &stored);
    assert!(matches!(result, Err(VaultError::Corruption)));
}

#[test]
fn committing_the_same_identity_twice_is_refused() {
    let (mut session, _) = open("1111", "device-A", &[]);
    let first = session.create_identity("A".to_string()).expect("create");
    let second = session.create_identity("B".to_string()).expect("create");
    assert_eq!(first.identity().id, second.identity().id);
    let a = session.commit_identity(first).expect("commit");
    assert!(matches!(session.commit_identity(second), Err(VaultError::DuplicateIdentity)));
    let listed = session.identities().expect("list");
    assert_eq!(listed.len(), 1);
    assert_eq!(listed[0].id, a.id);
    assert_eq!(listed[0].label, "A");
}

#[test]
fn locked_session_is_refused_before_the_clock() {
    let session = VaultSession::new();
    assert!(matches!(session.sign_intent("x", "not an intent"), Err(VaultError::VaultLocked)));
    let (session, _) = open("1111", "device-A", &[]);
    assert!(matches!(session.sign_intent("x", CODE), Err(VaultError::IdentityNotFound)));
}

#[test]
fn envelope_with_malformed_signature() {
    let (mut session, _) = open("1111", "device-A", &[]);
    let created = session.create_identity("A".to_string()).expect("create");
    let a = session.commit_identity(created).expect("commit");
    let mut envelope = session.sign_intent_at(&a.id, CODE, 1).expect("sign");
    envelope.signature_hex = "xyz".to_string();
    assert_eq!(verify_envelope(&envelope), Err(VaultError::MalformedSignature));
    envelope.signer_did = "did:satya:abcd".to_string();
    assert_eq!(verify_envelope(&envelope), Err(VaultError::InvalidKeyLength));
}
