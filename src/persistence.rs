use vstd::prelude::*;
use vstd::string::{StrSliceExecFns, StringExecFns};
use crate::codec::{
    decode_vault, decode_vault_bytes, encodable, encode_vault, encode_vault_bytes, lemma_decode_canonical,
    lemma_vault_round_trip,
};
use crate::crypto::{NONCE_LEN, VaultKey, decrypt_with_binding, encrypt_with_binding, opens_to, sealable, sealed};
use crate::domain::{IdentityModel, SatyaIdentity, identities_view};
use crate::error::VaultError;

verus! {

/// The private key stored for one identity.
pub struct KeyEntry {
    pub identity_id: String,
    pub secret: Vec<u8>,
}

impl View for KeyEntry {
    type V = (Seq<char>, Seq<u8>);

    open spec fn view(&self) -> (Seq<char>, Seq<u8>) {
        (self.identity_id@, self.secret@)
    }
}

/// The abstract values of a list of key entries.
pub open spec fn keys_view(list: Seq<KeyEntry>) -> Seq<(Seq<char>, Seq<u8>)> {
    list.map_values(|e: KeyEntry| e@)
}

/// The key that a list of entries holds for `id`: the first entry for it.
pub open spec fn key_of(keys: Seq<(Seq<char>, Seq<u8>)>, id: Seq<char>) -> Option<Seq<u8>>
    decreases keys.len(),
{
    if keys.len() == 0 {
        None
    } else if keys[0].0 == id {
        Some(keys[0].1)
    } else {
        key_of(keys.drop_first(), id)
    }
}

/// A well-formed vault holds one key entry per identity, at the same
/// position and under that identity's id, and no two identities share an id.
pub open spec fn vault_wf(v: VaultModel) -> bool {
    &&& v.private_keys.len() == v.identities.len()
    &&& forall|i: int| 0 <= i < v.identities.len() ==> #[trigger] v.private_keys[i].0 == v.identities[i].id
    &&& forall|i: int, j: int|
        0 <= i < j < v.identities.len() ==> #[trigger] v.identities[i].id != #[trigger] v.identities[j].id
}

/// Whether some identity of the list has the id `id`.
pub open spec fn has_id(ids: Seq<IdentityModel>, id: Seq<char>) -> bool {
    exists|i: int| 0 <= i < ids.len() && #[trigger] ids[i].id == id
}

/// Whether stored plaintext decodes to a well-formed vault.
pub open spec fn holds_vault(plaintext: Seq<u8>) -> bool {
    decode_vault(plaintext) is Some && vault_wf(decode_vault(plaintext)->0)
}

/// What is persisted: the identities, in order of creation, and the private
/// key of each, under the seed they are derived from.
pub struct SatyaVault {
    pub version: u32,
    /// Empty until the first unlock generates it; never changed afterwards.
    pub master_seed: Vec<u8>,
    pub identities: Vec<SatyaIdentity>,
    pub private_keys: Vec<KeyEntry>,
}

/// The abstract value of a `SatyaVault`.
pub struct VaultModel {
    pub version: u32,
    pub master_seed: Seq<u8>,
    pub identities: Seq<IdentityModel>,
    pub private_keys: Seq<(Seq<char>, Seq<u8>)>,
}

impl View for SatyaVault {
    type V = VaultModel;

    open spec fn view(&self) -> VaultModel {
        VaultModel {
            version: self.version,
            master_seed: self.master_seed@,
            identities: identities_view(self.identities@),
            private_keys: keys_view(self.private_keys@),
        }
    }
}

/// The vault of a first run: no seed, no identities, no keys.
pub open spec fn empty_vault() -> VaultModel {
    VaultModel {
        version: 0,
        master_seed: Seq::empty(),
        identities: Seq::empty(),
        private_keys: Seq::empty(),
    }
}

impl Default for SatyaVault {
    fn default() -> (r: SatyaVault)
        ensures
            r@ == empty_vault(),
    {
        let r = SatyaVault {
            version: 0,
            master_seed: Vec::new(),
            identities: Vec::new(),
            private_keys: Vec::new(),
        };
        assert(r@.identities =~= Seq::<IdentityModel>::empty());
        assert(r@.private_keys =~= Seq::<(Seq<char>, Seq<u8>)>::empty());
        r
    }
}

impl KeyEntry {
    /// A copy with the same id and key bytes.
    pub fn duplicate(&self) -> (r: KeyEntry)
        ensures
            r@ == self@,
    {
        KeyEntry { identity_id: self.identity_id.clone(), secret: vstd::slice::slice_to_vec(self.secret.as_slice()) }
    }
}

impl SatyaVault {
    /// Whether some identity of the vault has the id `id`.
    pub fn has_identity(&self, id: &String) -> (r: bool)
        ensures
            r == has_id(self@.identities, id@),
    {
        let mut i: usize = 0;
        while i < self.identities.len()
            invariant
                i <= self.identities@.len(),
                forall|k: int| 0 <= k < i ==> #[trigger] self@.identities[k].id != id@,
            decreases self.identities@.len() - i,
        {
            if self.identities[i].id == *id {
                assert(self@.identities[i as int].id == id@);
                return true;
            }
            i = i + 1;
        }
        false
    }

    /// Whether the vault is well formed.
    pub fn is_well_formed(&self) -> (r: bool)
        ensures
            r == vault_wf(self@),
    {
        let n = self.identities.len();
        if self.private_keys.len() != n {
            return false;
        }
        let ghost v = self@;
        let mut i: usize = 0;
        while i < n
            invariant
                v == self@,
                n == v.identities.len(),
                v.private_keys.len() == n,
                i <= n,
                forall|k: int| 0 <= k < i ==> #[trigger] v.private_keys[k].0 == v.identities[k].id,
                forall|a: int, b: int| 0 <= a < b < i ==> #[trigger] v.identities[a].id != #[trigger] v.identities[b].id,
            decreases n - i,
        {
            if self.private_keys[i].identity_id != self.identities[i].id {
                assert(v.private_keys[i as int].0 != v.identities[i as int].id);
                return false;
            }
            let mut j: usize = 0;
            while j < i
                invariant
                    v == self@,
                    n == v.identities.len(),
                    i < n,
                    j <= i,
                    forall|a: int| 0 <= a < j ==> #[trigger] v.identities[a].id != v.identities[i as int].id,
                decreases i - j,
            {
                if self.identities[j].id == self.identities[i].id {
                    assert(v.identities[j as int].id == v.identities[i as int].id);
                    return false;
                }
                j = j + 1;
            }
            i = i + 1;
        }
        true
    }

    /// A copy of the vault with the same contents.
    pub fn duplicate(&self) -> (r: SatyaVault)
        ensures
            r@ == self@,
    {
        let mut keys: Vec<KeyEntry> = Vec::new();
        let mut i: usize = 0;
        while i < self.private_keys.len()
            invariant
                i <= self.private_keys@.len(),
                keys@.len() == i,
                keys_view(keys@) =~= keys_view(self.private_keys@.subrange(0, i as int)),
            decreases self.private_keys@.len() - i,
        {
            let ghost before = keys@;
            keys.push(self.private_keys[i].duplicate());
            i = i + 1;
            assert forall|k: int| 0 <= k < i implies #[trigger] keys_view(keys@)[k] == keys_view(
                self.private_keys@.subrange(0, i as int),
            )[k] by {
                if k < i - 1 {
                    assert(keys@[k] == before[k]);
                    assert(keys_view(before)[k] == keys_view(self.private_keys@.subrange(0, i - 1))[k]);
                }
            }
            assert(keys_view(keys@) =~= keys_view(self.private_keys@.subrange(0, i as int)));
        }
        assert(self.private_keys@.subrange(0, i as int) =~= self.private_keys@);
        SatyaVault {
            version: self.version,
            master_seed: vstd::slice::slice_to_vec(self.master_seed.as_slice()),
            identities: crate::domain::duplicate_identities(&self.identities),
            private_keys: keys,
        }
    }

    /// The private key stored for `identity_id`, if any.
    pub fn find_key(&self, identity_id: &String) -> (r: Option<&Vec<u8>>)
        ensures
            r is Some <==> key_of(self@.private_keys, identity_id@) is Some,
            r is Some ==> r->0@ == key_of(self@.private_keys, identity_id@)->0,
    {
        let ghost keys = self@.private_keys;
        let mut i: usize = 0;
        assert(keys.subrange(0, keys.len() as int) =~= keys);
        while i < self.private_keys.len()
            invariant
                i <= keys.len(),
                keys == keys_view(self.private_keys@),
                key_of(keys, identity_id@) == key_of(keys.subrange(i as int, keys.len() as int), identity_id@),
            decreases keys.len() - i,
        {
            let entry = &self.private_keys[i];
            proof {
                let rest = keys.subrange(i as int, keys.len() as int);
                assert(rest[0] == entry@);
                assert(rest.drop_first() =~= keys.subrange(i + 1, keys.len() as int));
            }
            if entry.identity_id == *identity_id {
                return Some(&entry.secret);
            }
            i = i + 1;
        }
        None
    }
}

/// The directory under the storage root that holds the vault.
pub open spec fn vault_dir(root: Seq<char>) -> Seq<char> {
    if root.len() == 0 {
        "vault-store"@
    } else if root.last() == '/' {
        root + "vault-store"@
    } else {
        root + "/vault-store"@
    }
}

/// Where the vault file lives.
pub open spec fn vault_file(root: Seq<char>) -> Seq<char> {
    vault_dir(root) + "/vault.bin"@
}

/// Where a new vault is written before it replaces the old one.
pub open spec fn temp_file(root: Seq<char>) -> Seq<char> {
    vault_dir(root) + "/vault.tmp"@
}

/// Knows where one vault is stored, and turns vaults into stored bytes and
/// back.
pub struct VaultManager {
    dir_path: String,
    storage_path: String,
    temp_path: String,
}

/// The two file operations that replace the stored vault: write `bytes` to
/// `temp_path`, then rename `temp_path` over `final_path`.
pub struct SavePlan {
    pub temp_path: String,
    pub final_path: String,
    pub bytes: Vec<u8>,
}

/// The files under a storage root, by path.
pub type Disk = Map<Seq<char>, Seq<u8>>;

/// The disk after a file is written in full.
pub open spec fn write_file(d: Disk, path: Seq<char>, bytes: Seq<u8>) -> Disk {
    d.insert(path, bytes)
}

/// The disk after a rename, which replaces the target in one step.
pub open spec fn rename_file(d: Disk, from: Seq<char>, to: Seq<char>) -> Disk {
    if d.contains_key(from) {
        d.remove(from).insert(to, d[from])
    } else {
        d
    }
}

impl SavePlan {
    /// The disk once the temporary file is written, before the rename.
    pub open spec fn after_write(&self, d: Disk) -> Disk {
        write_file(d, self.temp_path@, self.bytes@)
    }

    /// The disk once the plan has run to the end.
    pub open spec fn after_rename(&self, d: Disk) -> Disk {
        rename_file(self.after_write(d), self.temp_path@, self.final_path@)
    }
}

/// A save never exposes a half-written vault: until the rename the vault
/// file is exactly what it was (present or absent), and after it the file
/// holds exactly the new bytes and no temporary file is left.
pub proof fn lemma_save_is_atomic(plan: SavePlan, d: Disk)
    requires
        plan.temp_path@ != plan.final_path@,
    ensures
        plan.after_write(d).contains_key(plan.final_path@) == d.contains_key(plan.final_path@),
        plan.after_write(d)[plan.final_path@] == d[plan.final_path@],
        plan.after_rename(d).contains_key(plan.final_path@),
        plan.after_rename(d)[plan.final_path@] == plan.bytes@,
        !plan.after_rename(d).contains_key(plan.temp_path@),
{
}

/// Appends `name` to `root` with one separator between them.
fn join_path(root: &str, name: &str) -> (r: String)
    ensures
        r@ == (if root@.len() == 0 {
            name@
        } else if root@.last() == '/' {
            root@ + name@
        } else {
            root@ + "/"@ + name@
        }),
{
    let n = root.unicode_len();
    let mut r = String::from_str(root);
    if n > 0 && root.get_char(n - 1) != '/' {
        r.append("/");
    }
    r.append(name);
    r
}

/// Whether `plan` stores `v`, encrypted under `key` for `device`, in place of
/// the vault file, through a temporary file of another name.
pub open spec fn persists(plan: SavePlan, key: Seq<u8>, device: Seq<u8>, v: VaultModel) -> bool {
    &&& plan.temp_path@ != plan.final_path@
    &&& opens_to(key, device, plan.bytes@, encode_vault(v))
}

/// Whether `v` is what a load of `stored` gives under `key` for `device`:
/// the empty vault for no bytes, else the vault whose canonical bytes
/// `stored` encrypts.
pub open spec fn loads_as(key: Seq<u8>, device: Seq<u8>, stored: Seq<u8>, v: VaultModel) -> bool {
    if stored.len() == 0 {
        v == empty_vault()
    } else {
        encodable(v) && opens_to(key, device, stored, encode_vault(v))
    }
}

/// What a save writes, a load reads back: the stored bytes of a plan that
/// persists `v` load as exactly `v`, with the same identities in the same
/// order and the same key for each.
pub proof fn lemma_saved_vault_loads(plan: SavePlan, key: Seq<u8>, device: Seq<u8>, v: VaultModel)
    requires
        persists(plan, key, device, v),
        encodable(v),
    ensures
        plan.bytes@.len() > 0,
        loads_as(key, device, plan.bytes@, v),
        plan.bytes@ == sealed(key, device, plan.bytes@.subrange(0, NONCE_LEN as int), encode_vault(v)),
        decode_vault(encode_vault(v)) == Some(v),
{
    lemma_vault_round_trip(v);
    assert(opens_to(key, device, plan.bytes@, encode_vault(v)));
}

impl VaultManager {
    #[verifier::type_invariant]
    spec fn inv(self) -> bool {
        self.temp_path@ != self.storage_path@
    }

    /// The manager of the vault stored under `base_path`.
    pub fn new(base_path: &str) -> (r: VaultManager)
        ensures
            r.dir_path()@ == vault_dir(base_path@),
            r.vault_path()@ == vault_file(base_path@),
            r.temp_path()@ == temp_file(base_path@),
    {
        let dir = join_path(base_path, "vault-store");
        proof {
            reveal_strlit("vault-store");
            reveal_strlit("/vault-store");
            reveal_strlit("/");
            assert("/"@ + "vault-store"@ =~= "/vault-store"@);
        }
        assert(dir@ =~= vault_dir(base_path@));
        let mut storage_path = dir.clone();
        storage_path.append("/vault.bin");
        let mut temp_path = dir.clone();
        temp_path.append("/vault.tmp");
        proof {
            reveal_strlit("/vault.bin");
            reveal_strlit("/vault.tmp");
            let k: int = dir@.len() as int + 9;
            assert(storage_path@[k] == 'n');
            assert(temp_path@[k] == 'p');
        }
        VaultManager { dir_path: dir, storage_path, temp_path }
    }

    pub closed spec fn dir_path(&self) -> String {
        self.dir_path
    }

    pub closed spec fn vault_path(&self) -> String {
        self.storage_path
    }

    pub closed spec fn temp_path(&self) -> String {
        self.temp_path
    }

    /// The directory that holds the vault file.
    pub fn dir(&self) -> (r: &String)
        ensures
            r == self.dir_path(),
    {
        &self.dir_path
    }

    /// The vault file.
    pub fn file(&self) -> (r: &String)
        ensures
            r == self.vault_path(),
    {
        &self.storage_path
    }

    /// Encrypts the vault for this device and plans its replacement of the
    /// stored file: first the temporary file, then one rename.
    pub fn atomic_save(&self, key: &VaultKey, hw_id: &[u8], vault: &SatyaVault) -> (r: Result<SavePlan, VaultError>)
        ensures
            encodable(vault@),
            r is Ok <==> sealable(encode_vault(vault@).len()),
            r is Ok ==> r->Ok_0.final_path@ == self.vault_path()@ && r->Ok_0.temp_path@
                == self.temp_path()@ && persists(r->Ok_0, key@, hw_id@, vault@),
            r is Err ==> r == Err::<SavePlan, VaultError>(VaultError::SerializationError),
    {
        proof {
            use_type_invariant(self);
        }
        let encoded = encode_vault_bytes(vault);
        let bytes = match encrypt_with_binding(key, hw_id, encoded.as_slice()) {
            Ok(bytes) => bytes,
            Err(e) => {
                return Err(e);
            },
        };
        Ok(SavePlan { temp_path: self.temp_path.clone(), final_path: self.storage_path.clone(), bytes })
    }

    /// Reads a vault from the bytes of its file, empty when the file is
    /// absent. Empty bytes give a fresh vault; anything else must decrypt
    /// under this key and device and then decode.
    pub fn load(&self, key: &VaultKey, hw_id: &[u8], stored: &[u8]) -> (r: Result<SatyaVault, VaultError>)
        ensures
            stored@.len() == 0 ==> r is Ok && r->Ok_0@ == empty_vault(),
            r is Ok ==> loads_as(key@, hw_id@, stored@, r->Ok_0@) && vault_wf(r->Ok_0@),
            forall|nonce: Seq<u8>, v: VaultModel|
                nonce.len() == NONCE_LEN && encodable(v) && vault_wf(v) && sealable(encode_vault(v).len()) && stored@
                    == #[trigger] sealed(key@, hw_id@, nonce, encode_vault(v)) ==> r is Ok
                    && r->Ok_0@ == v,
            r == Err::<SatyaVault, VaultError>(VaultError::AuthenticationFailure) <==> (stored@.len()
                > 0 && !exists|p: Seq<u8>| #[trigger] opens_to(key@, hw_id@, stored@, p)),
            r == Err::<SatyaVault, VaultError>(VaultError::Corruption) <==> (stored@.len() > 0
                && exists|p: Seq<u8>| #[trigger] opens_to(key@, hw_id@, stored@, p) && !holds_vault(p)),
            r is Err ==> r == Err::<SatyaVault, VaultError>(VaultError::AuthenticationFailure) || r
                == Err::<SatyaVault, VaultError>(VaultError::Corruption),
    {
        if stored.len() == 0 {
            return Ok(SatyaVault::default());
        }
        let decrypted = decrypt_with_binding(key, hw_id, stored);
        proof {
            lemma_open_outcome(key@, hw_id@, stored@, decrypted);
        }
        match decrypted {
            Ok(plaintext) => {
                let decoded = decode_vault_bytes(plaintext.as_slice());
                proof {
                    assert(opens_to(key@, hw_id@, stored@, plaintext@));
                    if decoded is Some {
                        lemma_decode_canonical(plaintext@);
                    }
                }
                match decoded {
                    Some(vault) => {
                        if vault.is_well_formed() {
                            Ok(vault)
                        } else {
                            Err(VaultError::Corruption)
                        }
                    },
                    None => Err(VaultError::Corruption),
                }
            },
            Err(_) => Err(VaultError::AuthenticationFailure),
        }
    }
}

/// What decrypting stored bytes tells about them: a failure means no
/// plaintext seals to them, and a success is the only plaintext that does.
proof fn lemma_open_outcome(key: Seq<u8>, hw_id: Seq<u8>, stored: Seq<u8>, decrypted: Result<Vec<u8>, VaultError>)
    requires
        stored.len() > 0,
        decrypted is Ok ==> opens_to(key, hw_id, stored, decrypted->Ok_0@),
        forall|nonce: Seq<u8>, p: Seq<u8>|
            nonce.len() == NONCE_LEN && sealable(p.len()) && stored == #[trigger] sealed(
                key,
                hw_id,
                nonce,
                p,
            ) ==> decrypted is Ok && decrypted->Ok_0@ == p,
    ensures
        decrypted is Err <==> !exists|p: Seq<u8>| #[trigger] opens_to(key, hw_id, stored, p),
        decrypted is Ok ==> forall|p: Seq<u8>| #[trigger] opens_to(key, hw_id, stored, p) ==> p == decrypted->Ok_0@,
        forall|nonce: Seq<u8>, v: VaultModel|
            nonce.len() == NONCE_LEN && encodable(v) && sealable(encode_vault(v).len()) && stored
                == #[trigger] sealed(key, hw_id, nonce, encode_vault(v)) ==> decrypted is Ok
                && decrypted->Ok_0@ == encode_vault(v) && decode_vault(decrypted->Ok_0@) == Some(v),
{
    assert forall|p: Seq<u8>| #[trigger] opens_to(key, hw_id, stored, p) implies decrypted is Ok
        && decrypted->Ok_0@ == p by {
        assert(stored.subrange(0, NONCE_LEN as int).len() == NONCE_LEN);
    }
    assert forall|nonce: Seq<u8>, v: VaultModel|
        nonce.len() == NONCE_LEN && encodable(v) && sealable(encode_vault(v).len()) && stored
            == #[trigger] sealed(key, hw_id, nonce, encode_vault(v)) implies decrypted is Ok
            && decrypted->Ok_0@ == encode_vault(v) && decode_vault(decrypted->Ok_0@) == Some(v) by {
        lemma_vault_round_trip(v);
    }
}

} // verus!
