//! The vault session: unlocking, creating and listing identities, signing
//! intents, and resetting. The session decides; the caller performs the file
//! operations it hands back and then commits the outcome.
use vstd::prelude::*;
use vstd::string::{is_ascii, is_ascii_spec_bytes, StrSliceExecFns, StringExecFns};
use vstd::utf8::encode_utf8;
use crate::codec::{decode_vault, encodable, encode_vault};
use crate::crypto::{
    argon2id_of, ed25519_public_key, ed25519_public_of, ed25519_signature_of, hmac_sha512,
    hmac_sha512_of, opens_to, random_bytes, sealable, sealed, ed25519_sign, signature_accepted,
    verification_result, verify_with_key, VaultKey, NONCE_LEN,
};
use crate::domain::{
    duplicate_identities, identities_view, IdentityModel, InteractionType, PayloadModel,
    SatyaIdentity, SignedIntent, UpiIntent, PROTOCOL_VERSION,
};
use crate::error::VaultError;
use crate::parser::{parse_upi, parse_upi_url};
use crate::persistence::{
    empty_vault, has_id, holds_vault, key_of, loads_as, persists, vault_wf, KeyEntry, SatyaVault, SavePlan, VaultManager, VaultModel,
};
use crate::service::{canonical_payload, canonical_payload_bytes, now_secs, payment_payload_at};
use crate::text::{
    decimal, from_hex, hex_decode, hex_encode, is_hex_text, lemma_decimal_injective,
    lemma_hex_round_trip, push_decimal, to_hex,
};

verus! {

/// The salt under which PINs are turned into vault keys.
pub const VAULT_SALT: &'static str = "satya_salt_v1";

/// What every identity's DID begins with.
pub const DID_PREFIX: &'static str = "did:satya:";

/// The text in front of an identity's index in the message its key is
/// derived under.
pub const IDENTITY_LABEL_PREFIX: &'static str = "satya_identity_";

/// Bytes of a master seed.
pub const SEED_LEN: usize = 32;

/// The message under which the key of the identity at `index` is derived.
pub open spec fn identity_label(index: nat) -> Seq<u8> {
    encode_utf8(IDENTITY_LABEL_PREFIX@) + decimal(index)
}

/// The private key of the identity at `index`: the first 32 bytes of the
/// HMAC-SHA-512 of its label under the master seed.
pub open spec fn identity_key(seed: Seq<u8>, index: nat) -> Seq<u8> {
    hmac_sha512_of(seed, identity_label(index)).subrange(0, 32)
}

/// The id of the identity at `index`: its public key in hexadecimal.
pub open spec fn identity_id(seed: Seq<u8>, index: nat) -> Seq<char> {
    hex_encode(ed25519_public_of(identity_key(seed, index)))
}

/// The DID of the identity at `index`.
pub open spec fn identity_did(seed: Seq<u8>, index: nat) -> Seq<char> {
    DID_PREFIX@ + identity_id(seed, index)
}

/// Derives the private key of the identity at `index` from the master seed.
pub fn derive_identity_key(master_seed: &[u8], index: u64) -> (r: Vec<u8>)
    ensures
        r@ == identity_key(master_seed@, index as nat),
        r@.len() == 32,
{
    let mut label: Vec<u8> = Vec::new();
    label.extend_from_slice(IDENTITY_LABEL_PREFIX.as_bytes());
    push_decimal(&mut label, index);
    let mac = hmac_sha512(master_seed, label.as_slice());
    let key = vstd::slice::slice_to_vec(&mac.as_slice()[0..32]);
    assert(label@ =~= identity_label(index as nat));
    key
}

/// Deriving twice at the same index from the same seed gives the same key,
/// and so the same id and DID.
pub proof fn lemma_derivation_deterministic(seed1: Seq<u8>, seed2: Seq<u8>, index1: nat, index2: nat)
    requires
        seed1 == seed2,
        index1 == index2,
    ensures
        identity_key(seed1, index1) == identity_key(seed2, index2),
        identity_id(seed1, index1) == identity_id(seed2, index2),
        identity_did(seed1, index1) == identity_did(seed2, index2),
{
}

/// Keys at different indices are derived from different messages.
pub proof fn lemma_identity_labels_distinct(index1: nat, index2: nat)
    requires
        index1 != index2,
    ensures
        identity_label(index1) != identity_label(index2),
{
    let prefix = encode_utf8(IDENTITY_LABEL_PREFIX@);
    if identity_label(index1) == identity_label(index2) {
        let n = prefix.len() as int;
        assert(identity_label(index1).subrange(n, identity_label(index1).len() as int) =~= decimal(index1));
        assert(identity_label(index2).subrange(n, identity_label(index2).len() as int) =~= decimal(index2));
        lemma_decimal_injective(index1, index2);
    }
}

proof fn lemma_salt_len()
    ensures
        encode_utf8(VAULT_SALT@).len() == 13,
{
    reveal_strlit("satya_salt_v1");
    let s: &str = "satya_salt_v1";
    assert(is_ascii(s));
    is_ascii_spec_bytes(s);
}

/// The vault key that a PIN gives.
pub open spec fn vault_key_of(pin: Seq<char>) -> Seq<u8> {
    argon2id_of(encode_utf8(pin), encode_utf8(VAULT_SALT@))
}

/// Whether a PIN can be turned into a vault key: it is not empty and not
/// longer than the key derivation takes.
pub open spec fn pin_accepted(pin: Seq<char>) -> bool {
    pin.len() > 0 && encode_utf8(pin).len() <= 0xFFFF_FFFF
}

/// `v` with one more identity, and its key stored under the identity's id.
pub open spec fn with_identity(v: VaultModel, x: IdentityModel, secret: Seq<u8>) -> VaultModel {
    VaultModel {
        identities: v.identities.push(x),
        private_keys: v.private_keys.push((x.id, secret)),
        ..v
    }
}

/// Adding an identity never touches the master seed or the version, and
/// keeps every earlier identity and key where it was.
pub proof fn lemma_adding_identity_keeps_seed(v: VaultModel, x: IdentityModel, secret: Seq<u8>)
    ensures
        with_identity(v, x, secret).master_seed == v.master_seed,
        with_identity(v, x, secret).version == v.version,
        with_identity(v, x, secret).identities.subrange(0, v.identities.len() as int) == v.identities,
        with_identity(v, x, secret).private_keys.subrange(0, v.private_keys.len() as int)
            == v.private_keys,
{
    assert(v.identities.push(x).subrange(0, v.identities.len() as int) =~= v.identities);
    assert(v.private_keys.push((x.id, secret)).subrange(0, v.private_keys.len() as int) =~= v.private_keys);
}

/// Adding an identity whose id is new keeps a vault well formed.
pub proof fn lemma_with_identity_wf(v: VaultModel, x: IdentityModel, secret: Seq<u8>)
    requires
        vault_wf(v),
        !has_id(v.identities, x.id),
    ensures
        vault_wf(with_identity(v, x, secret)),
{
    let w = with_identity(v, x, secret);
    let n = v.identities.len() as int;
    assert forall|i: int| 0 <= i < w.identities.len() implies #[trigger] w.private_keys[i].0
        == w.identities[i].id by {
        if i < n {
            assert(w.private_keys[i] == v.private_keys[i]);
            assert(w.identities[i] == v.identities[i]);
        }
    }
    assert forall|i: int, j: int| 0 <= i < j < w.identities.len() implies #[trigger] w.identities[i].id
        != #[trigger] w.identities[j].id by {
        assert(w.identities[i] == v.identities[i]);
        if j < n {
            assert(w.identities[j] == v.identities[j]);
        } else {
            assert(w.identities[j] == x);
            if v.identities[i].id == x.id {
                assert(has_id(v.identities, x.id));
            }
        }
    }
}

/// The identity created at `index` of the vault seeded with `seed`.
pub open spec fn new_identity(seed: Seq<u8>, index: nat, label: Seq<char>) -> IdentityModel {
    IdentityModel { id: identity_id(seed, index), label, did: identity_did(seed, index) }
}

/// Derives the vault key from a PIN and the fixed salt.
fn key_for_pin(pin: &str) -> (r: Result<VaultKey, VaultError>)
    ensures
        r is Ok <==> pin_accepted(pin@),
        r is Ok ==> r->Ok_0@ == vault_key_of(pin@),
        r is Err ==> r == Err::<VaultKey, VaultError>(VaultError::KdfFailure),
{
    proof {
        lemma_salt_len();
    }
    VaultKey::from_pin(pin, VAULT_SALT.as_bytes())
}

/// An unlocked vault: where it is stored, its contents, and the PIN and
/// device it was opened with.
struct OpenVault {
    manager: VaultManager,
    vault: SatyaVault,
    pin: String,
    device_id: String,
}

impl OpenVault {
    #[verifier::type_invariant]
    spec fn inv(self) -> bool {
        pin_accepted(self.pin@) && vault_wf(self.vault@)
    }
}

/// The outcome of a successful unlock, to be installed in a session once
/// its save, if any, has been carried out.
pub struct Unlocking {
    open: OpenVault,
    save: Option<SavePlan>,
}

impl Unlocking {
    pub closed spec fn plan(&self) -> Option<SavePlan> {
        self.save
    }

    /// The save of a freshly seeded vault; `None` when nothing changed.
    pub fn save(&self) -> (r: &Option<SavePlan>)
        ensures
            *r == self.plan(),
    {
        &self.save
    }

    pub closed spec fn vault(&self) -> VaultModel {
        self.open.vault@
    }

    pub closed spec fn manager(&self) -> VaultManager {
        self.open.manager
    }

    pub closed spec fn pin(&self) -> Seq<char> {
        self.open.pin@
    }

    pub closed spec fn device(&self) -> Seq<char> {
        self.open.device_id@
    }
}

/// A new identity, ready to be committed once its save has been carried out.
pub struct NewIdentity {
    identity: SatyaIdentity,
    secret: Vec<u8>,
    save: SavePlan,
}

impl NewIdentity {
    pub closed spec fn created(&self) -> IdentityModel {
        self.identity@
    }

    pub closed spec fn plan(&self) -> SavePlan {
        self.save
    }

    /// The identity that will be added.
    pub fn identity(&self) -> (r: &SatyaIdentity)
        ensures
            r@ == self.created(),
    {
        &self.identity
    }

    /// The save of the vault with the identity added.
    pub fn save(&self) -> (r: &SavePlan)
        ensures
            *r == self.plan(),
    {
        &self.save
    }

    pub closed spec fn secret(&self) -> Seq<u8> {
        self.secret@
    }
}

/// The single entry point to the vault.
pub struct VaultSession {
    open: Option<OpenVault>,
}

impl VaultSession {
    pub closed spec fn is_unlocked(&self) -> bool {
        self.open is Some
    }

    pub closed spec fn vault(&self) -> VaultModel {
        self.open->0.vault@
    }

    pub closed spec fn manager(&self) -> VaultManager {
        self.open->0.manager
    }

    pub closed spec fn pin(&self) -> Seq<char> {
        self.open->0.pin@
    }

    pub closed spec fn device(&self) -> Seq<char> {
        self.open->0.device_id@
    }

    /// A session with no vault unlocked.
    pub fn new() -> (r: VaultSession)
        ensures
            !r.is_unlocked(),
    {
        VaultSession { open: None }
    }

    /// Whether a vault is unlocked.
    pub fn unlocked(&self) -> (r: bool)
        ensures
            r == self.is_unlocked(),
    {
        self.open.is_some()
    }

    /// Opens the vault whose file held `stored` (no bytes when there is no
    /// file). A vault without a master seed gets a fresh one, and then must
    /// be saved before the outcome is installed.
    pub fn begin_unlock(pin: &str, device_id: &str, manager: VaultManager, stored: &[u8]) -> (r: Result<
        Unlocking,
        VaultError,
    >)
        ensures
            !pin_accepted(pin@) ==> r == Err::<Unlocking, VaultError>(VaultError::KdfFailure),
            r is Ok ==> {
                let u = r->Ok_0;
                let key = vault_key_of(pin@);
                let device = encode_utf8(device_id@);
                &&& u.pin() == pin@ && u.device() == device_id@ && u.manager() == manager
                &&& u.vault().master_seed.len() > 0
                &&& vault_wf(u.vault())
                &&& u.plan() is None ==> loads_as(key, device, stored@, u.vault())
                &&& u.plan() is Some ==> {
                    &&& u.vault().master_seed.len() == SEED_LEN
                    &&& loads_as(key, device, stored@, VaultModel { master_seed: Seq::empty(), ..u.vault() })
                    &&& persists(u.plan()->0, key, device, u.vault())
                    &&& u.plan()->0.final_path@ == manager.vault_path()@
                    &&& u.plan()->0.temp_path@ == manager.temp_path()@
                }
            },
            pin_accepted(pin@) && stored@.len() == 0 ==> r is Ok,
            pin_accepted(pin@) ==> forall|nonce: Seq<u8>, v: VaultModel|
                nonce.len() == NONCE_LEN && encodable(v) && vault_wf(v) && sealable(
                    encode_vault(v).len(),
                ) && v.master_seed.len() > 0 && stored@ == #[trigger] sealed(
                    vault_key_of(pin@),
                    encode_utf8(device_id@),
                    nonce,
                    encode_vault(v),
                ) ==> r is Ok && r->Ok_0.vault() == v && r->Ok_0.plan() is None,
            pin_accepted(pin@) ==> (r == Err::<Unlocking, VaultError>(
                VaultError::AuthenticationFailure,
            ) <==> (stored@.len() > 0 && !exists|p: Seq<u8>|
                #[trigger] opens_to(vault_key_of(pin@), encode_utf8(device_id@), stored@, p))),
            pin_accepted(pin@) ==> (r == Err::<Unlocking, VaultError>(VaultError::Corruption) <==> (
            stored@.len() > 0 && exists|p: Seq<u8>|
                #[trigger] opens_to(vault_key_of(pin@), encode_utf8(device_id@), stored@, p)
                    && !holds_vault(p))),
            r is Err ==> r == Err::<Unlocking, VaultError>(VaultError::KdfFailure) || r == Err::<
                Unlocking,
                VaultError,
            >(VaultError::AuthenticationFailure) || r == Err::<Unlocking, VaultError>(
                VaultError::Corruption,
            ) || r == Err::<Unlocking, VaultError>(VaultError::SerializationError),
    {
        let key = match key_for_pin(pin) {
            Ok(key) => key,
            Err(e) => {
                return Err(e);
            },
        };
        let mut vault = match manager.load(&key, device_id.as_bytes(), stored) {
            Ok(vault) => vault,
            Err(e) => {
                return Err(e);
            },
        };
        let ghost loaded = vault@;
        assert(loads_as(key@, encode_utf8(device_id@), stored@, loaded));
        let save = if vault.master_seed.len() == 0 {
            assert(loaded.master_seed =~= Seq::<u8>::empty());
            vault.master_seed = random_bytes(SEED_LEN);
            proof {
                lemma_seeded_vault_sealable(loaded, vault@, stored@);
            }
            match manager.atomic_save(&key, device_id.as_bytes(), &vault) {
                Ok(plan) => Some(plan),
                Err(e) => {
                    return Err(e);
                },
            }
        } else {
            None
        };
        assert(loaded =~= VaultModel { master_seed: loaded.master_seed, ..vault@ });
        let open = OpenVault { manager, vault, pin: String::from_str(pin), device_id: String::from_str(device_id) };
        Ok(Unlocking { open, save })
    }

    /// Installs an unlocked vault, replacing whatever the session held.
    pub fn install(&mut self, unlocking: Unlocking)
        ensures
            final(self).is_unlocked(),
            final(self).vault() == unlocking.vault(),
            final(self).manager() == unlocking.manager(),
            final(self).pin() == unlocking.pin(),
            final(self).device() == unlocking.device(),
    {
        self.open = Some(unlocking.open);
    }

    /// Prepares a new identity labelled `label`: its key is derived from the
    /// master seed at the next index, its id is the key's public key in
    /// hexadecimal, and its DID is that id after the DID prefix. An id that
    /// the vault already holds is refused. Nothing changes until the result
    /// is committed.
    pub fn create_identity(&self, label: String) -> (r: Result<NewIdentity, VaultError>)
        ensures
            !self.is_unlocked() ==> r == Err::<NewIdentity, VaultError>(VaultError::VaultLocked),
            self.is_unlocked() ==> {
                let v = self.vault();
                let n = v.identities.len();
                let x = new_identity(v.master_seed, n, label@);
                let after = with_identity(v, x, identity_key(v.master_seed, n));
                &&& vault_wf(v)
                &&& identity_key(v.master_seed, n).len() == 32
                &&& x.id.len() == 64
                &&& has_id(v.identities, x.id) ==> r == Err::<NewIdentity, VaultError>(
                    VaultError::DuplicateIdentity,
                )
                &&& !has_id(v.identities, x.id) ==> (r is Ok <==> sealable(encode_vault(after).len()))
                &&& r is Ok ==> {
                    &&& !has_id(v.identities, x.id)
                    &&& vault_wf(after)
                    &&& r->Ok_0.created() == x
                    &&& r->Ok_0.secret() == identity_key(v.master_seed, n)
                    &&& persists(
                        r->Ok_0.plan(),
                        vault_key_of(self.pin()),
                        encode_utf8(self.device()),
                        after,
                    )
                    &&& r->Ok_0.plan().final_path@ == self.manager().vault_path()@
                    &&& r->Ok_0.plan().temp_path@ == self.manager().temp_path()@
                }
                &&& r is Err ==> r == Err::<NewIdentity, VaultError>(VaultError::DuplicateIdentity)
                    || r == Err::<NewIdentity, VaultError>(VaultError::SerializationError)
            },
    {
        let open = match &self.open {
            Some(open) => open,
            None => {
                return Err(VaultError::VaultLocked);
            },
        };
        proof {
            use_type_invariant(open);
        }
        let ghost v = open.vault@;
        let index = open.vault.identities.len() as u64;
        let secret = derive_identity_key(open.vault.master_seed.as_slice(), index);
        let public = ed25519_public_key(secret.as_slice());
        let id = to_hex(public.as_slice());
        if open.vault.has_identity(&id) {
            return Err(VaultError::DuplicateIdentity);
        }
        let mut did = String::from_str(DID_PREFIX);
        did.append(id.as_str());
        let identity = SatyaIdentity { id: id.clone(), label, did };
        let mut after = open.vault.duplicate();
        after.identities.push(identity.duplicate());
        after.private_keys.push(KeyEntry { identity_id: id, secret: vstd::slice::slice_to_vec(secret.as_slice()) });
        proof {
            let x = new_identity(v.master_seed, v.identities.len(), identity.label@);
            assert(identity@ == x);
            assert(after@.identities =~= v.identities.push(x));
            assert(after@.private_keys =~= v.private_keys.push((x.id, secret@)));
            assert(after@ == with_identity(v, x, secret@));
            lemma_with_identity_wf(v, x, secret@);
        }
        let key = match key_for_pin(open.pin.as_str()) {
            Ok(key) => key,
            Err(e) => {
                return Err(e);
            },
        };
        let save = match open.manager.atomic_save(&key, open.device_id.as_str().as_bytes(), &after) {
            Ok(plan) => plan,
            Err(e) => {
                return Err(e);
            },
        };
        Ok(NewIdentity { identity, secret, save })
    }

    /// Adds a prepared identity and its key to the unlocked vault, once its
    /// save has been carried out, and returns the identity. An identity whose
    /// id the vault already holds is refused and nothing changes.
    pub fn commit_identity(&mut self, created: NewIdentity) -> (r: Result<SatyaIdentity, VaultError>)
        ensures
            !old(self).is_unlocked() ==> r == Err::<SatyaIdentity, VaultError>(VaultError::VaultLocked)
                && !final(self).is_unlocked(),
            old(self).is_unlocked() && has_id(old(self).vault().identities, created.created().id) ==> {
                &&& r == Err::<SatyaIdentity, VaultError>(VaultError::DuplicateIdentity)
                &&& final(self).is_unlocked()
                &&& final(self).vault() == old(self).vault()
                &&& final(self).manager() == old(self).manager()
                &&& final(self).pin() == old(self).pin()
                &&& final(self).device() == old(self).device()
            },
            old(self).is_unlocked() && !has_id(old(self).vault().identities, created.created().id) ==> {
                &&& r is Ok && r->Ok_0@ == created.created()
                &&& final(self).is_unlocked()
                &&& final(self).vault() == with_identity(
                    old(self).vault(),
                    created.created(),
                    created.secret(),
                )
                &&& vault_wf(final(self).vault())
                &&& final(self).manager() == old(self).manager()
                &&& final(self).pin() == old(self).pin()
                &&& final(self).device() == old(self).device()
            },
    {
        match self.open.take() {
            Some(open) => {
                proof {
                    use_type_invariant(&open);
                }
                if open.vault.has_identity(&created.identity.id) {
                    self.open = Some(open);
                    return Err(VaultError::DuplicateIdentity);
                }
                let OpenVault { manager, mut vault, pin, device_id } = open;
                let NewIdentity { identity, secret, save: _ } = created;
                let ghost v = vault@;
                vault.identities.push(identity.duplicate());
                vault.private_keys.push(KeyEntry { identity_id: identity.id.clone(), secret });
                assert(vault@.identities =~= v.identities.push(identity@));
                assert(vault@.private_keys =~= v.private_keys.push((identity@.id, secret@)));
                proof {
                    lemma_with_identity_wf(v, identity@, secret@);
                }
                self.open = Some(OpenVault { manager, vault, pin, device_id });
                Ok(identity)
            },
            None => Err(VaultError::VaultLocked),
        }
    }

    /// The identities of the unlocked vault, in order of creation.
    pub fn identities(&self) -> (r: Result<Vec<SatyaIdentity>, VaultError>)
        ensures
            self.is_unlocked() ==> r is Ok && identities_view(r->Ok_0@) == self.vault().identities
                && vault_wf(self.vault()),
            !self.is_unlocked() ==> r == Err::<Vec<SatyaIdentity>, VaultError>(VaultError::VaultLocked),
    {
        match &self.open {
            Some(open) => {
                proof {
                    use_type_invariant(open);
                }
                Ok(duplicate_identities(&open.vault.identities))
            },
            None => Err(VaultError::VaultLocked),
        }
    }

    /// Why signing `upi_url` for `identity_id` is refused, whatever the time:
    /// no unlocked vault, no key for the identity, text that is not a payment
    /// intent, or a stored key of the wrong length, in that order.
    pub open spec fn signing_refusal(&self, identity_id: Seq<char>, upi_url: Seq<char>) -> Option<
        VaultError,
    > {
        let secret = key_of(self.vault().private_keys, identity_id);
        if !self.is_unlocked() {
            Some(VaultError::VaultLocked)
        } else if secret is None {
            Some(VaultError::IdentityNotFound)
        } else if parse_upi(upi_url) is None {
            Some(VaultError::InvalidIntent)
        } else if secret->0.len() != 32 {
            Some(VaultError::InvalidKeyLength)
        } else {
            None
        }
    }

    /// Whether `env` is the envelope of `upi_url` signed at `timestamp` with
    /// the key stored for `identity_id`.
    pub open spec fn signed_envelope(
        &self,
        identity_id: Seq<char>,
        upi_url: Seq<char>,
        timestamp: u64,
        env: SignedIntent,
    ) -> bool {
        let secret = key_of(self.vault().private_keys, identity_id)->0;
        let payload = PayloadModel {
            version: PROTOCOL_VERSION@,
            interaction_type: InteractionType::PaymentIntent,
            timestamp,
            upi_data: parse_upi(upi_url)->0,
        };
        let message = canonical_payload(payload);
        &&& env.payload@ == payload
        &&& env.signer_did@ == DID_PREFIX@ + identity_id
        &&& env.signature_hex@ == hex_encode(ed25519_signature_of(secret, message))
        &&& ed25519_signature_of(secret, message).len() == 64
        &&& !env.is_verified
    }

    /// Whether `r` is what signing the intent `upi_url` for `identity_id` at
    /// `timestamp` gives.
    pub open spec fn signs_as(
        &self,
        identity_id: Seq<char>,
        upi_url: Seq<char>,
        timestamp: u64,
        r: Result<SignedIntent, VaultError>,
    ) -> bool {
        match self.signing_refusal(identity_id, upi_url) {
            Some(e) => r == Err::<SignedIntent, VaultError>(e),
            None => r is Ok && self.signed_envelope(identity_id, upi_url, timestamp, r->Ok_0),
        }
    }

    /// The stored key and the parsed intent, unless signing is refused.
    fn signing_inputs(&self, identity_id: &str, upi_url: &str) -> (r: Result<(Vec<u8>, UpiIntent), VaultError>)
        ensures
            match self.signing_refusal(identity_id@, upi_url@) {
                Some(e) => r == Err::<(Vec<u8>, UpiIntent), VaultError>(e),
                None => r is Ok,
            },
            r matches Ok((secret, intent)) ==> secret@ == key_of(self.vault().private_keys, identity_id@)->0
                && secret@.len() == 32 && intent@ == parse_upi(upi_url@)->0,
    {
        let open = match &self.open {
            Some(open) => open,
            None => {
                return Err(VaultError::VaultLocked);
            },
        };
        let id = String::from_str(identity_id);
        let secret = match open.vault.find_key(&id) {
            Some(secret) => secret,
            None => {
                return Err(VaultError::IdentityNotFound);
            },
        };
        let intent = match parse_upi_url(upi_url) {
            Ok(intent) => intent,
            Err(e) => {
                return Err(e);
            },
        };
        if secret.len() != 32 {
            return Err(VaultError::InvalidKeyLength);
        }
        Ok((vstd::slice::slice_to_vec(secret.as_slice()), intent))
    }

    /// Signs the payment intent `upi_url` with the key of `identity_id`, as
    /// of `timestamp`.
    pub fn sign_intent_at(&self, identity_id: &str, upi_url: &str, timestamp: u64) -> (r: Result<
        SignedIntent,
        VaultError,
    >)
        ensures
            self.signs_as(identity_id@, upi_url@, timestamp, r),
    {
        match self.signing_inputs(identity_id, upi_url) {
            Ok((secret, intent)) => Ok(seal_intent(secret.as_slice(), intent, identity_id, timestamp)),
            Err(e) => Err(e),
        }
    }

    /// Signs the payment intent `upi_url` with the key of `identity_id`,
    /// stamped with the current time, which is read only once every other
    /// check has passed.
    pub fn sign_intent(&self, identity_id: &str, upi_url: &str) -> (r: Result<SignedIntent, VaultError>)
        ensures
            self.signing_refusal(identity_id@, upi_url@) matches Some(e) ==> r == Err::<
                SignedIntent,
                VaultError,
            >(e),
            self.signing_refusal(identity_id@, upi_url@) is None ==> r == Err::<SignedIntent, VaultError>(
                VaultError::ClockUnavailable,
            ) || r is Ok,
            r is Ok ==> self.signed_envelope(identity_id@, upi_url@, r->Ok_0.payload.timestamp, r->Ok_0),
    {
        let (secret, intent) = match self.signing_inputs(identity_id, upi_url) {
            Ok(inputs) => inputs,
            Err(e) => {
                return Err(e);
            },
        };
        match now_secs() {
            Ok(now) => Ok(seal_intent(secret.as_slice(), intent, identity_id, now)),
            Err(e) => Err(e),
        }
    }

    /// Forgets the unlocked vault, if any. Calling it again changes nothing.
    pub fn reset(&mut self)
        ensures
            !final(self).is_unlocked(),
    {
        self.open = None;
    }
}

/// The public key that a DID names: the hexadecimal text after the prefix.
pub open spec fn did_public_key(did: Seq<char>) -> Option<Seq<u8>> {
    if did.len() >= DID_PREFIX@.len() && did.subrange(0, DID_PREFIX@.len() as int) == DID_PREFIX@
        && is_hex_text(did.subrange(DID_PREFIX@.len() as int, did.len() as int)) {
        Some(hex_decode(did.subrange(DID_PREFIX@.len() as int, did.len() as int)))
    } else {
        None
    }
}

/// The envelope of a payment intent signed with `secret` at `timestamp`.
fn seal_intent(secret: &[u8], intent: UpiIntent, identity_id: &str, timestamp: u64) -> (r: SignedIntent)
    requires
        secret@.len() == 32,
    ensures
        ({
            let payload = PayloadModel {
                version: PROTOCOL_VERSION@,
                interaction_type: InteractionType::PaymentIntent,
                timestamp,
                upi_data: intent@,
            };
            let message = canonical_payload(payload);
            &&& r.payload@ == payload
            &&& r.signer_did@ == DID_PREFIX@ + identity_id@
            &&& r.signature_hex@ == hex_encode(ed25519_signature_of(secret@, message))
            &&& ed25519_signature_of(secret@, message).len() == 64
            &&& !r.is_verified
        }),
{
    let payload = payment_payload_at(intent, timestamp);
    let message = canonical_payload_bytes(&payload);
    let signature = ed25519_sign(secret, message.as_slice());
    let signature_hex = to_hex(signature.as_slice());
    let mut signer_did = String::from_str(DID_PREFIX);
    signer_did.append(identity_id);
    SignedIntent { payload, signature_hex, signer_did, is_verified: false }
}

/// Checks an envelope's signature against the public key that its signer's
/// DID names, over the canonical bytes of its payload.
pub fn verify_envelope(envelope: &SignedIntent) -> (r: Result<bool, VaultError>)
    ensures
        did_public_key(envelope.signer_did@) is None ==> r == Err::<bool, VaultError>(
            VaultError::InvalidPublicKey,
        ),
        did_public_key(envelope.signer_did@) matches Some(public) ==> r == verification_result(
            public,
            canonical_payload(envelope.payload@),
            envelope.signature_hex@,
        ),
        did_public_key(envelope.signer_did@) is Some && signature_accepted(
            did_public_key(envelope.signer_did@)->0,
            canonical_payload(envelope.payload@),
            envelope.signature_hex@,
        ) ==> r == Ok::<bool, VaultError>(true),
{
    proof {
        reveal_strlit("did:satya:");
    }
    let did = envelope.signer_did.as_str();
    let n = did.unicode_len();
    if n < 10 {
        return Err(VaultError::InvalidPublicKey);
    }
    let prefix = String::from_str(did.substring_char(0, 10));
    if prefix != String::from_str(DID_PREFIX) {
        return Err(VaultError::InvalidPublicKey);
    }
    let public = match from_hex(did.substring_char(10, n)) {
        Some(public) => public,
        None => {
            return Err(VaultError::InvalidPublicKey);
        },
    };
    let message = canonical_payload_bytes(&envelope.payload);
    verify_with_key(public.as_slice(), message.as_slice(), envelope.signature_hex.as_str())
}

/// The identities of the unlocked vault of `session`.
pub fn rust_get_identities(session: &VaultSession) -> (r: Result<Vec<SatyaIdentity>, VaultError>)
    ensures
        session.is_unlocked() ==> r is Ok && identities_view(r->Ok_0@) == session.vault().identities,
        !session.is_unlocked() ==> r == Err::<Vec<SatyaIdentity>, VaultError>(VaultError::VaultLocked),
{
    session.identities()
}

/// An intent signed by an identity verifies against that identity's DID:
/// the DID names the public key of the identity's derived key, and the
/// signature is accepted under it for any message.
pub proof fn lemma_identity_signature_verifies(seed: Seq<u8>, index: nat, message: Seq<u8>)
    requires
        hmac_sha512_of(seed, identity_label(index)).len() == 64,
        ed25519_public_of(identity_key(seed, index)).len() == 32,
        ed25519_signature_of(identity_key(seed, index), message).len() == 64,
    ensures
        did_public_key(identity_did(seed, index)) == Some(ed25519_public_of(identity_key(seed, index))),
        signature_accepted(
            ed25519_public_of(identity_key(seed, index)),
            message,
            hex_encode(ed25519_signature_of(identity_key(seed, index), message)),
        ),
{
    reveal_strlit("did:satya:");
    let public = ed25519_public_of(identity_key(seed, index));
    let did = identity_did(seed, index);
    lemma_hex_round_trip(public);
    assert(did.subrange(0, 10) =~= DID_PREFIX@);
    assert(did.subrange(10, did.len() as int) =~= hex_encode(public));
    crate::crypto::lemma_signature_accepted(identity_key(seed, index), message);
}

/// An envelope that a session signs for an identity it derived at `index`
/// of `seed` is accepted by `verify_envelope`: its DID names the public key
/// of the signing key, and the signature checks under it.
pub proof fn lemma_signed_intent_verifies(
    session: VaultSession,
    upi_url: Seq<char>,
    timestamp: u64,
    envelope: SignedIntent,
    seed: Seq<u8>,
    index: nat,
)
    requires
        key_of(session.vault().private_keys, identity_id(seed, index)) == Some(identity_key(seed, index)),
        session.signed_envelope(identity_id(seed, index), upi_url, timestamp, envelope),
        hmac_sha512_of(seed, identity_label(index)).len() == 64,
        ed25519_public_of(identity_key(seed, index)).len() == 32,
    ensures
        did_public_key(envelope.signer_did@) == Some(ed25519_public_of(identity_key(seed, index))),
        signature_accepted(
            ed25519_public_of(identity_key(seed, index)),
            canonical_payload(envelope.payload@),
            envelope.signature_hex@,
        ),
{
    lemma_identity_signature_verifies(seed, index, canonical_payload(envelope.payload@));
    assert(envelope.signer_did@ == identity_did(seed, index));
}

/// A fresh vault that only got its seed is small enough to encrypt.
proof fn lemma_seeded_vault_sealable(loaded: VaultModel, seeded: VaultModel, stored: Seq<u8>)
    requires
        seeded == (VaultModel { master_seed: seeded.master_seed, ..loaded }),
        seeded.master_seed.len() == SEED_LEN,
        stored.len() == 0 ==> loaded == empty_vault(),
    ensures
        stored.len() == 0 ==> sealable(encode_vault(seeded).len()),
{
    if stored.len() == 0 {
        reveal(encode_vault);
        reveal_with_fuel(crate::codec::encode_identities, 1);
        reveal_with_fuel(crate::codec::encode_keys, 1);
    }
}

} // verus!
