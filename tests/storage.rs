use std::collections::HashMap;
use satya_vault::codec::{decode_vault_bytes, encode_vault_bytes};
use satya_vault::crypto::{decrypt_with_binding, encrypt_with_binding, VaultKey};
use satya_vault::domain::SatyaIdentity;
use satya_vault::error::VaultError;
use satya_vault::persistence::{KeyEntry, SatyaVault, SavePlan, VaultManager};

fn sample_vault(n: usize) -> SatyaVault {
    let mut vault = SatyaVault::default();
    vault.version = 3;
    vault.master_seed = (0..32u8).collect();
    for i in 0..n {
        let id = format!("id-{}", i);
        vault.identities.push(SatyaIdentity {
            id: id.clone(),
            label: format!("label {} é", i),
            did: format!("did:satya:{}", id),
        });
        vault.private_keys.push(KeyEntry { identity_id: id, secret: vec![i as u8; 32] });
    }
    vault
}

fn same_vault(a: &SatyaVault, b: &SatyaVault) -> bool {
    a.version == b.version
        && a.master_seed == b.master_seed
        && a.identities.len() == b.identities.len()
        && a.identities.iter().zip(b.identities.iter()).all(|(x, y)| x.id == y.id && x.label == y.label && x.did == y.did)
        && a.private_keys.len() == b.private_keys.len()
        && a.private_keys.iter().zip(b.private_keys.iter()).all(|(x, y)| x.identity_id == y.identity_id && x.secret == y.secret)
}

#[test]
fn save_then_load_round_trip() {
    let key = VaultKey::from_pin("123456", b"satya_salt_v1").expect("key");
    let manager = VaultManager::new("/srv/vault");
    for n in [0usize, 1, 5] {
        let vault = sample_vault(n);
        let plan = manager.atomic_save(&key, b"device-A", &vault).expect("save");
        let loaded = manager.load(&key, b"device-A", &plan.bytes).expect("load");
        assert!(same_vault(&vault, &loaded));
    }
}

#[test]
fn empty_file_loads_fresh_vault() {
    let key = VaultKey::from_pin("123456", b"satya_salt_v1").expect("key");
    let manager = VaultManager::new("/srv/vault");
    let loaded = manager.load(&key, b"device-A", &[]).expect("load");
    assert_eq!(loaded.version, 0);
    assert!(loaded.master_seed.is_empty());
    assert!(loaded.identities.is_empty());
    assert!(loaded.private_keys.is_empty());
}

#[test]
fn every_flipped_byte_is_detected() {
    let key = VaultKey::from_pin("123456", b"satya_salt_v1").expect("key");
    let manager = VaultManager::new("/srv/vault");
    let plan = manager.atomic_save(&key, b"device-A", &sample_vault(2)).expect("save");
    for i in 0..plan.bytes.len() {
        let mut bytes = plan.bytes.clone();
        bytes[i] ^= 0x01;
        assert!(matches!(manager.load(&key, b"device-A", &bytes), Err(VaultError::AuthenticationFailure)), "byte {}", i);
    }
    let short = &plan.bytes[..plan.bytes.len() - 1];
    assert!(matches!(manager.load(&key, b"device-A", short), Err(VaultError::AuthenticationFailure)));
    assert!(matches!(manager.load(&key, b"device-A", &plan.bytes[..5]), Err(VaultError::AuthenticationFailure)));
}

#[test]
fn other_device_cannot_load() {
    let key = VaultKey::from_pin("123456", b"satya_salt_v1").expect("key");
    let manager = VaultManager::new("/srv/vault");
    let plan = manager.atomic_save(&key, b"device-A", &sample_vault(1)).expect("save");
    assert!(matches!(manager.load(&key, b"device-B", &plan.bytes), Err(VaultError::AuthenticationFailure)));
}

#[test]
fn authentic_garbage_is_corruption() {
    let key = VaultKey::from_pin("123456", b"satya_salt_v1").expect("key");
    let manager = VaultManager::new("/srv/vault");
    let sealed = encrypt_with_binding(&key, b"device-A", b"not a vault").expect("seal");
    assert!(matches!(manager.load(&key, b"device-A", &sealed), Err(VaultError::Corruption)));
}

#[test]
fn nonces_are_fresh_and_prefixed() {
    let key = VaultKey::from_pin("123456", b"satya_salt_v1").expect("key");
    let a = encrypt_with_binding(&key, b"dev", b"hello").expect("a");
    let b = encrypt_with_binding(&key, b"dev", b"hello").expect("b");
    assert_eq!(a.len(), 12 + 5 + 16);
    assert_ne!(a[..12], b[..12]);
    assert_eq!(decrypt_with_binding(&key, b"dev", &a), Ok(b"hello".to_vec()));
    assert_eq!(decrypt_with_binding(&key, b"dev", &b), Ok(b"hello".to_vec()));
    assert_eq!(decrypt_with_binding(&key, b"other", &a), Err(VaultError::AuthenticationFailure));
}

#[test]
fn different_pin_gives_different_key() {
    let key = VaultKey::from_pin("123456", b"satya_salt_v1").expect("key");
    let other = VaultKey::from_pin("123457", b"satya_salt_v1").expect("key");
    let sealed = encrypt_with_binding(&key, b"dev", b"secret").expect("seal");
    assert_eq!(decrypt_with_binding(&other, b"dev", &sealed), Err(VaultError::AuthenticationFailure));
}

#[test]
fn short_salt_and_empty_pin_are_refused() {
    assert!(matches!(VaultKey::from_pin("", b"satya_salt_v1"), Err(VaultError::KdfFailure)));
    assert!(matches!(VaultKey::from_pin("1234", b"short"), Err(VaultError::KdfFailure)));
}

/// Runs a plan on an in-memory disk, stopping after the write when
/// `crash_before_rename` is set.
fn run(disk: &mut HashMap<String, Vec<u8>>, plan: &SavePlan, crash_before_rename: bool) {
    disk.insert(plan.temp_path.clone(), plan.bytes.clone());
    if crash_before_rename {
        return;
    }
    let bytes = disk.remove(&plan.temp_path).expect("temp file");
    disk.insert(plan.final_path.clone(), bytes);
}

#[test]
fn interrupted_save_keeps_previous_vault() {
    let key = VaultKey::from_pin("123456", b"satya_salt_v1").expect("key");
    let manager = VaultManager::new("/srv/vault");
    let old = sample_vault(1);
    let new = sample_vault(2);
    let mut disk = HashMap::new();
    let first = manager.atomic_save(&key, b"dev", &old).expect("save");
    run(&mut disk, &first, false);
    let before = disk[manager.file()].clone();

    let second = manager.atomic_save(&key, b"dev", &new).expect("save");
    run(&mut disk, &second, true);
    assert_eq!(disk[manager.file()], before);
    let loaded = manager.load(&key, b"dev", &disk[manager.file()]).expect("old loads");
    assert!(same_vault(&loaded, &old));

    let bytes = disk.remove(&second.temp_path).expect("temp file");
    disk.insert(second.final_path.clone(), bytes);
    assert_eq!(disk[manager.file()], second.bytes);
    assert!(!disk.contains_key(&second.temp_path));
    let loaded = manager.load(&key, b"dev", &disk[manager.file()]).expect("new loads");
    assert!(same_vault(&loaded, &new));
}

#[test]
fn manager_paths() {
    let m = VaultManager::new("/srv/vault");
    assert_eq!(m.dir(), "/srv/vault/vault-store");
    assert_eq!(m.file(), "/srv/vault/vault-store/vault.bin");
    let m = VaultManager::new("/srv/vault/");
    assert_eq!(m.file(), "/srv/vault/vault-store/vault.bin");
    let m = VaultManager::new("");
    assert_eq!(m.file(), "vault-store/vault.bin");
}

#[test]
fn codec_exact_bytes() {
    let empty = SatyaVault::default();
    assert_eq!(encode_vault_bytes(&empty), vec![0u8; 4 + 8 + 8 + 8]);
    let mut v = SatyaVault::default();
    v.version = 0x0102_0304;
    v.master_seed = vec![9, 8];
    v.identities.push(SatyaIdentity { id: "a".to_string(), label: "".to_string(), did: "é".to_string() });
    v.private_keys.push(KeyEntry { identity_id: "a".to_string(), secret: vec![7] });
    let expected: Vec<u8> = vec![
        4, 3, 2, 1, // version
        2, 0, 0, 0, 0, 0, 0, 0, 9, 8, // seed
        1, 0, 0, 0, 0, 0, 0, 0, // one identity
        1, 0, 0, 0, 0, 0, 0, 0, b'a',
        0, 0, 0, 0, 0, 0, 0, 0,
        2, 0, 0, 0, 0, 0, 0, 0, 0xc3, 0xa9,
        1, 0, 0, 0, 0, 0, 0, 0, // one key
        1, 0, 0, 0, 0, 0, 0, 0, b'a',
        1, 0, 0, 0, 0, 0, 0, 0, 7,
    ];
    let bytes = encode_vault_bytes(&v);
    assert_eq!(bytes, expected);
    let back = decode_vault_bytes(&bytes).expect("decode");
    assert!(same_vault(&back, &v));
}

#[test]
fn codec_rejects_malformed_bytes() {
    let bytes = encode_vault_bytes(&sample_vault(2));
    let mut longer = bytes.clone();
    longer.push(0);
    assert!(decode_vault_bytes(&longer).is_none());
    assert!(decode_vault_bytes(&bytes[..bytes.len() - 1]).is_none());
    assert!(decode_vault_bytes(&[1, 2, 3]).is_none());
    let mut huge_count = encode_vault_bytes(&SatyaVault::default());
    huge_count[12] = 0xff;
    assert!(decode_vault_bytes(&huge_count).is_none());
    let mut bad_text = encode_vault_bytes(&sample_vault(1));
    // the first byte of the first identity's id
    bad_text[4 + 8 + 32 + 8 + 8] = 0xff;
    assert!(decode_vault_bytes(&bad_text).is_none());
}

#[test]
fn find_key_returns_first_entry_for_id() {
    let mut vault = sample_vault(3);
    vault.private_keys.push(KeyEntry { identity_id: "id-1".to_string(), secret: vec![99; 32] });
    assert_eq!(vault.find_key(&"id-1".to_string()), Some(&vec![1u8; 32]));
    assert_eq!(vault.find_key(&"id-2".to_string()), Some(&vec![2u8; 32]));
    assert_eq!(vault.find_key(&"id-9".to_string()), None);
    assert_eq!(SatyaVault::default().find_key(&"id-0".to_string()), None);
}

#[test]
fn duplicate_copies_everything() {
    let vault = sample_vault(4);
    let copy = vault.duplicate();
    assert!(same_vault(&vault, &copy));
    let entry = vault.private_keys[2].duplicate();
    assert_eq!(entry.identity_id, "id-2");
    assert_eq!(entry.secret, vec![2u8; 32]);
    let list = satya_vault::domain::duplicate_identities(&vault.identities);
    assert_eq!(list.len(), 4);
    assert_eq!(list[3].label, "label 3 é");
}

#[test]
fn vault_with_mismatched_keys_is_corruption() {
    let key = VaultKey::from_pin("123456", b"satya_salt_v1").expect("key");
    let manager = VaultManager::new("/srv/vault");
    let mut vault = sample_vault(2);
    assert!(vault.is_well_formed());
    vault.private_keys[1].identity_id = "id-0".to_string();
    assert!(!vault.is_well_formed());
    let plan = manager.atomic_save(&key, b"dev", &vault).expect("save");
    assert!(matches!(manager.load(&key, b"dev", &plan.bytes), Err(VaultError::Corruption)));

    let mut twins = sample_vault(2);
    twins.identities[1].id = "id-0".to_string();
    twins.private_keys[1].identity_id = "id-0".to_string();
    assert!(!twins.is_well_formed());
    assert!(twins.has_identity(&"id-0".to_string()));
    assert!(!twins.has_identity(&"id-1".to_string()));
    let plan = manager.atomic_save(&key, b"dev", &twins).expect("save");
    assert!(matches!(manager.load(&key, b"dev", &plan.bytes), Err(VaultError::Corruption)));
}
