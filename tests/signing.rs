use hmac::Mac;
use satya_vault::crypto::{sign_with_key, verify_with_key};
use satya_vault::error::VaultError;
use satya_vault::session::derive_identity_key;

/// The ed25519 public key of a 32-byte secret key.
fn public_key_of(secret: &[u8]) -> Vec<u8> {
    let signing = ed25519_dalek::SigningKey::from_bytes(secret.try_into().expect("32 bytes"));
    signing.verifying_key().to_bytes().to_vec()
}

#[test]
fn signature_verifies_and_detects_changes() {
    let seed = [5u8; 32];
    for index in 0..3u64 {
        let secret = derive_identity_key(&seed, index);
        let public = public_key_of(&secret);
        for message in [&b""[..], b"pay 100 INR", &[0u8; 300][..]] {
            let signature = sign_with_key(&secret, message).expect("sign");
            assert_eq!(signature.len(), 128);
            assert_eq!(verify_with_key(&public, message, &signature), Ok(true));
            if !message.is_empty() {
                let mut altered = message.to_vec();
                altered[0] ^= 0x80;
                assert_eq!(verify_with_key(&public, &altered, &signature), Ok(false));
            }
            let mut chars: Vec<char> = signature.chars().collect();
            chars[10] = if chars[10] == '0' { '1' } else { '0' };
            let altered: String = chars.into_iter().collect();
            assert_eq!(verify_with_key(&public, message, &altered), Ok(false));
        }
    }
}

#[test]
fn known_signature_bytes() {
    // RFC 8032, test 1: empty message.
    let secret = hex::decode("9d61b19deffd5a60ba844af492ec2cc44449c5697b326919703bac031cae7f60").unwrap();
    let public = hex::decode("d75a980182b10ab7d54bfed3c964073a0ee172f3daa62325af021a68f707511a").unwrap();
    let signature = sign_with_key(&secret, b"").expect("sign");
    assert_eq!(
        signature,
        "e5564300c360ac729086e2cc806e828a84877f1eb8e5d974d873e065224901555fb8821590a33bacc61e39701cf9b46bd25bf5f0595bbe24655141438e7a100b"
    );
    assert_eq!(verify_with_key(&public, b"", &signature), Ok(true));
    assert_eq!(verify_with_key(&public, b"", &signature.to_uppercase()), Ok(true));
}

#[test]
fn signing_and_verification_errors() {
    assert_eq!(sign_with_key(&[1u8; 31], b"m"), Err(VaultError::InvalidKeyLength));
    let secret = derive_identity_key(&[1u8; 32], 0);
    let public = public_key_of(&secret);
    let signature = sign_with_key(&secret, b"m").expect("sign");
    assert_eq!(verify_with_key(&public[..31], b"m", &signature), Err(VaultError::InvalidKeyLength));
    assert_eq!(verify_with_key(&public, b"m", "zz"), Err(VaultError::MalformedSignature));
    assert_eq!(verify_with_key(&public, b"m", "abc"), Err(VaultError::MalformedSignature));
    assert_eq!(verify_with_key(&public, b"m", &signature[..126]), Err(VaultError::MalformedSignature));
    // Not the encoding of a curve point.
    let mut not_a_point = vec![0u8; 32];
    not_a_point[0] = 2;
    assert_eq!(verify_with_key(&not_a_point, b"m", &signature), Err(VaultError::InvalidPublicKey));
}

#[test]
fn derivation_is_deterministic() {
    let seed = [7u8; 32];
    let a = derive_identity_key(&seed, 0);
    let b = derive_identity_key(&seed, 0);
    assert_eq!(a, b);
    assert_eq!(a.len(), 32);
    assert_ne!(derive_identity_key(&seed, 1), a);
    assert_ne!(derive_identity_key(&[8u8; 32], 0), a);
    assert_ne!(derive_identity_key(&seed, 10), derive_identity_key(&seed, 1));
}

#[test]
fn derivation_matches_hmac_of_label() {
    let seed = [3u8; 32];
    let mut mac = <hmac::SimpleHmac<sha2::Sha512> as Mac>::new_from_slice(&seed).unwrap();
    mac.update(b"satya_identity_12");
    let expected = mac.finalize().into_bytes()[..32].to_vec();
    assert_eq!(derive_identity_key(&seed, 12), expected);
}
