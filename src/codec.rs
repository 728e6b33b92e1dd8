//! The canonical binary form of a vault: little-endian integers, and every
//! byte string or text preceded by its length as eight bytes.
use vstd::prelude::*;
use vstd::utf8::{
    decode_utf8, decode_utf8_encode_utf8, encode_utf8, encode_utf8_decode_utf8, encode_utf8_valid_utf8,
    valid_utf8,
};
use crate::domain::{IdentityModel, SatyaIdentity, identities_view};
use crate::persistence::{KeyEntry, SatyaVault, VaultModel, keys_view};
use crate::text::string_from_utf8;

verus! {

broadcast use {encode_utf8_decode_utf8, encode_utf8_valid_utf8};

/// Eight little-endian bytes of `x`.
pub open spec fn le_u64(x: u64) -> Seq<u8> {
    seq![
        (x & 0xff) as u8,
        ((x >> 8) & 0xff) as u8,
        ((x >> 16) & 0xff) as u8,
        ((x >> 24) & 0xff) as u8,
        ((x >> 32) & 0xff) as u8,
        ((x >> 40) & 0xff) as u8,
        ((x >> 48) & 0xff) as u8,
        ((x >> 56) & 0xff) as u8,
    ]
}

/// Four little-endian bytes of `x`.
pub open spec fn le_u32(x: u32) -> Seq<u8> {
    seq![
        (x & 0xff) as u8,
        ((x >> 8) & 0xff) as u8,
        ((x >> 16) & 0xff) as u8,
        ((x >> 24) & 0xff) as u8,
    ]
}

/// The little-endian integer in the eight bytes at `p`.
pub open spec fn read_u64(b: Seq<u8>, p: int) -> u64 {
    (b[p] as u64) | ((b[p + 1] as u64) << 8u64) | ((b[p + 2] as u64) << 16u64) | ((b[p + 3] as u64)
        << 24u64) | ((b[p + 4] as u64) << 32u64) | ((b[p + 5] as u64) << 40u64) | ((b[p + 6] as u64)
        << 48u64) | ((b[p + 7] as u64) << 56u64)
}

/// The little-endian integer in the four bytes at `p`.
pub open spec fn read_u32(b: Seq<u8>, p: int) -> u32 {
    (b[p] as u32) | ((b[p + 1] as u32) << 8u32) | ((b[p + 2] as u32) << 16u32) | ((b[p + 3] as u32)
        << 24u32)
}

/// A byte string preceded by its length.
pub open spec fn field(s: Seq<u8>) -> Seq<u8> {
    le_u64(s.len() as u64) + s
}

/// Text as a field of its UTF-8 bytes.
pub open spec fn text_field(t: Seq<char>) -> Seq<u8> {
    field(encode_utf8(t))
}

pub open spec fn encode_identity(x: IdentityModel) -> Seq<u8> {
    text_field(x.id) + text_field(x.label) + text_field(x.did)
}

pub open spec fn encode_identities(xs: Seq<IdentityModel>) -> Seq<u8>
    decreases xs.len(),
{
    if xs.len() == 0 {
        Seq::empty()
    } else {
        encode_identities(xs.drop_last()) + encode_identity(xs.last())
    }
}

pub open spec fn encode_key(k: (Seq<char>, Seq<u8>)) -> Seq<u8> {
    text_field(k.0) + field(k.1)
}

pub open spec fn encode_keys(ks: Seq<(Seq<char>, Seq<u8>)>) -> Seq<u8>
    decreases ks.len(),
{
    if ks.len() == 0 {
        Seq::empty()
    } else {
        encode_keys(ks.drop_last()) + encode_key(ks.last())
    }
}

/// The canonical bytes of a vault: version, seed, the identities with their
/// count in front, then the key entries with their count in front.
#[verifier::opaque]
pub open spec fn encode_vault(v: VaultModel) -> Seq<u8> {
    le_u32(v.version) + field(v.master_seed) + le_u64(v.identities.len() as u64) + encode_identities(
        v.identities,
    ) + le_u64(v.private_keys.len() as u64) + encode_keys(v.private_keys)
}

/// Whether every length in the vault fits in the eight bytes that hold it.
pub open spec fn encodable(v: VaultModel) -> bool {
    &&& v.master_seed.len() <= u64::MAX
    &&& v.identities.len() <= u64::MAX
    &&& v.private_keys.len() <= u64::MAX
    &&& forall|i: int|
        0 <= i < v.identities.len() ==> {
            &&& encode_utf8(#[trigger] v.identities[i].id).len() <= u64::MAX
            &&& encode_utf8(v.identities[i].label).len() <= u64::MAX
            &&& encode_utf8(v.identities[i].did).len() <= u64::MAX
        }
    &&& forall|i: int|
        0 <= i < v.private_keys.len() ==> {
            &&& encode_utf8(#[trigger] v.private_keys[i].0).len() <= u64::MAX
            &&& v.private_keys[i].1.len() <= u64::MAX
        }
}

pub open spec fn take_u64(b: Seq<u8>, p: int) -> Option<(u64, int)> {
    if 0 <= p && p + 8 <= b.len() {
        Some((read_u64(b, p), p + 8))
    } else {
        None
    }
}

pub open spec fn take_bytes(b: Seq<u8>, p: int) -> Option<(Seq<u8>, int)> {
    match take_u64(b, p) {
        Some((n, q)) => if q + n <= b.len() {
            Some((b.subrange(q, q + n), q + n))
        } else {
            None
        },
        None => None,
    }
}

pub open spec fn take_text(b: Seq<u8>, p: int) -> Option<(Seq<char>, int)> {
    match take_bytes(b, p) {
        Some((s, q)) => if valid_utf8(s) {
            Some((decode_utf8(s), q))
        } else {
            None
        },
        None => None,
    }
}

pub open spec fn take_identity(b: Seq<u8>, p: int) -> Option<(IdentityModel, int)> {
    match take_text(b, p) {
        Some((id, q1)) => match take_text(b, q1) {
            Some((label, q2)) => match take_text(b, q2) {
                Some((did, q3)) => Some((IdentityModel { id, label, did }, q3)),
                None => None,
            },
            None => None,
        },
        None => None,
    }
}

pub open spec fn take_identities(b: Seq<u8>, p: int, n: nat) -> Option<(Seq<IdentityModel>, int)>
    decreases n,
{
    if n == 0 {
        Some((Seq::empty(), p))
    } else {
        match take_identities(b, p, (n - 1) as nat) {
            Some((xs, q)) => match take_identity(b, q) {
                Some((x, r)) => Some((xs.push(x), r)),
                None => None,
            },
            None => None,
        }
    }
}

pub open spec fn take_key(b: Seq<u8>, p: int) -> Option<((Seq<char>, Seq<u8>), int)> {
    match take_text(b, p) {
        Some((id, q1)) => match take_bytes(b, q1) {
            Some((secret, q2)) => Some(((id, secret), q2)),
            None => None,
        },
        None => None,
    }
}

pub open spec fn take_keys(b: Seq<u8>, p: int, n: nat) -> Option<(Seq<(Seq<char>, Seq<u8>)>, int)>
    decreases n,
{
    if n == 0 {
        Some((Seq::empty(), p))
    } else {
        match take_keys(b, p, (n - 1) as nat) {
            Some((ks, q)) => match take_key(b, q) {
                Some((k, r)) => Some((ks.push(k), r)),
                None => None,
            },
            None => None,
        }
    }
}

/// The vault that canonical bytes stand for; `None` for any other bytes,
/// including canonical bytes followed by anything.
#[verifier::opaque]
pub open spec fn decode_vault(b: Seq<u8>) -> Option<VaultModel> {
    if b.len() < 4 {
        None
    } else {
        match take_bytes(b, 4) {
            Some((seed, q1)) => match take_u64(b, q1) {
                Some((n, q2)) => match take_identities(b, q2, n as nat) {
                    Some((ids, q3)) => match take_u64(b, q3) {
                        Some((m, q4)) => match take_keys(b, q4, m as nat) {
                            Some((keys, q5)) => if q5 == b.len() {
                                Some(
                                    VaultModel {
                                        version: read_u32(b, 0),
                                        master_seed: seed,
                                        identities: ids,
                                        private_keys: keys,
                                    },
                                )
                            } else {
                                None
                            },
                            None => None,
                        },
                        None => None,
                    },
                    None => None,
                },
                None => None,
            },
            None => None,
        }
    }
}

proof fn lemma_bits_u64(x: u64)
    ensures
        x == ((x & 0xff) | (((x >> 8) & 0xff) << 8) | (((x >> 16) & 0xff) << 16) | (((x >> 24) & 0xff)
            << 24) | (((x >> 32) & 0xff) << 32) | (((x >> 40) & 0xff) << 40) | (((x >> 48) & 0xff)
            << 48) | (((x >> 56) & 0xff) << 56)),
        (x & 0xff) < 256,
        ((x >> 8) & 0xff) < 256,
        ((x >> 16) & 0xff) < 256,
        ((x >> 24) & 0xff) < 256,
        ((x >> 32) & 0xff) < 256,
        ((x >> 40) & 0xff) < 256,
        ((x >> 48) & 0xff) < 256,
        ((x >> 56) & 0xff) < 256,
{
    assert(x == ((x & 0xff) | (((x >> 8) & 0xff) << 8) | (((x >> 16) & 0xff) << 16) | (((x >> 24)
        & 0xff) << 24) | (((x >> 32) & 0xff) << 32) | (((x >> 40) & 0xff) << 40) | (((x >> 48)
        & 0xff) << 48) | (((x >> 56) & 0xff) << 56))) by (bit_vector);
    assert((x & 0xff) < 256 && ((x >> 8) & 0xff) < 256 && ((x >> 16) & 0xff) < 256 && ((x >> 24)
        & 0xff) < 256 && ((x >> 32) & 0xff) < 256 && ((x >> 40) & 0xff) < 256 && ((x >> 48) & 0xff)
        < 256 && ((x >> 56) & 0xff) < 256) by (bit_vector);
}

proof fn lemma_bits_u32(x: u32)
    ensures
        x == ((x & 0xff) | (((x >> 8) & 0xff) << 8) | (((x >> 16) & 0xff) << 16) | (((x >> 24) & 0xff)
            << 24)),
        (x & 0xff) < 256,
        ((x >> 8) & 0xff) < 256,
        ((x >> 16) & 0xff) < 256,
        ((x >> 24) & 0xff) < 256,
{
    assert(x == ((x & 0xff) | (((x >> 8) & 0xff) << 8) | (((x >> 16) & 0xff) << 16) | (((x >> 24)
        & 0xff) << 24))) by (bit_vector);
    assert((x & 0xff) < 256 && ((x >> 8) & 0xff) < 256 && ((x >> 16) & 0xff) < 256 && ((x >> 24)
        & 0xff) < 256) by (bit_vector);
}

/// Reading eight bytes back gives the integer they were written from.
pub proof fn lemma_take_u64(b: Seq<u8>, p: int, x: u64)
    requires
        0 <= p,
        p + 8 <= b.len(),
        b.subrange(p, p + 8) == le_u64(x),
    ensures
        take_u64(b, p) == Some((x, p + 8)),
{
    lemma_bits_u64(x);
    let s = le_u64(x);
    assert(b[p] == s[0] && b[p + 1] == s[1] && b[p + 2] == s[2] && b[p + 3] == s[3]);
    assert(b[p + 4] == s[4] && b[p + 5] == s[5] && b[p + 6] == s[6] && b[p + 7] == s[7]);
}

pub proof fn lemma_read_u32(b: Seq<u8>, x: u32)
    requires
        4 <= b.len(),
        b.subrange(0, 4) == le_u32(x),
    ensures
        read_u32(b, 0) == x,
{
    lemma_bits_u32(x);
    let s = le_u32(x);
    assert(b[0] == s[0] && b[1] == s[1] && b[2] == s[2] && b[3] == s[3]);
}

pub proof fn lemma_take_bytes(b: Seq<u8>, p: int, s: Seq<u8>)
    requires
        0 <= p,
        s.len() <= u64::MAX,
        p + 8 + s.len() <= b.len(),
        b.subrange(p, p + 8 + s.len()) == field(s),
    ensures
        take_bytes(b, p) == Some((s, p + 8 + s.len())),
{
    let f = field(s);
    assert(b.subrange(p, p + 8) =~= f.subrange(0, 8));
    assert(f.subrange(0, 8) =~= le_u64(s.len() as u64));
    lemma_take_u64(b, p, s.len() as u64);
    assert(b.subrange(p + 8, p + 8 + s.len()) =~= f.subrange(8, 8 + s.len() as int));
    assert(f.subrange(8, 8 + s.len() as int) =~= s);
}

pub proof fn lemma_take_text(b: Seq<u8>, p: int, t: Seq<char>)
    requires
        0 <= p,
        encode_utf8(t).len() <= u64::MAX,
        p + text_field(t).len() <= b.len(),
        b.subrange(p, p + text_field(t).len()) == text_field(t),
    ensures
        take_text(b, p) == Some((t, p + text_field(t).len())),
{
    lemma_take_bytes(b, p, encode_utf8(t));
}

/// Splits a framed sequence `a + c` found at `p` into its two parts.
proof fn lemma_split(b: Seq<u8>, p: int, a: Seq<u8>, c: Seq<u8>)
    requires
        0 <= p,
        p + a.len() + c.len() <= b.len(),
        b.subrange(p, p + a.len() + c.len()) == a + c,
    ensures
        b.subrange(p, p + a.len()) == a,
        b.subrange(p + a.len(), p + a.len() + c.len()) == c,
{
    assert(b.subrange(p, p + a.len()) =~= (a + c).subrange(0, a.len() as int));
    assert((a + c).subrange(0, a.len() as int) =~= a);
    assert(b.subrange(p + a.len(), p + a.len() + c.len()) =~= (a + c).subrange(
        a.len() as int,
        (a.len() + c.len()) as int,
    ));
    assert((a + c).subrange(a.len() as int, (a.len() + c.len()) as int) =~= c);
}

pub proof fn lemma_take_identity(b: Seq<u8>, p: int, x: IdentityModel)
    requires
        0 <= p,
        encode_utf8(x.id).len() <= u64::MAX,
        encode_utf8(x.label).len() <= u64::MAX,
        encode_utf8(x.did).len() <= u64::MAX,
        p + encode_identity(x).len() <= b.len(),
        b.subrange(p, p + encode_identity(x).len()) == encode_identity(x),
    ensures
        take_identity(b, p) == Some((x, p + encode_identity(x).len())),
{
    let f1 = text_field(x.id);
    let f2 = text_field(x.label);
    let f3 = text_field(x.did);
    lemma_split(b, p, f1 + f2, f3);
    lemma_split(b, p, f1, f2);
    lemma_take_text(b, p, x.id);
    lemma_take_text(b, p + f1.len(), x.label);
    lemma_take_text(b, p + f1.len() + f2.len(), x.did);
}

pub proof fn lemma_take_identities(b: Seq<u8>, p: int, xs: Seq<IdentityModel>)
    requires
        0 <= p,
        forall|i: int|
            0 <= i < xs.len() ==> {
                &&& encode_utf8(#[trigger] xs[i].id).len() <= u64::MAX
                &&& encode_utf8(xs[i].label).len() <= u64::MAX
                &&& encode_utf8(xs[i].did).len() <= u64::MAX
            },
        p + encode_identities(xs).len() <= b.len(),
        b.subrange(p, p + encode_identities(xs).len()) == encode_identities(xs),
    ensures
        take_identities(b, p, xs.len()) == Some((xs, p + encode_identities(xs).len())),
    decreases xs.len(),
{
    if xs.len() > 0 {
        let init = xs.drop_last();
        let a = encode_identities(init);
        let c = encode_identity(xs.last());
        lemma_split(b, p, a, c);
        assert forall|i: int| 0 <= i < init.len() implies {
            &&& encode_utf8(#[trigger] init[i].id).len() <= u64::MAX
            &&& encode_utf8(init[i].label).len() <= u64::MAX
            &&& encode_utf8(init[i].did).len() <= u64::MAX
        } by {
            assert(init[i] == xs[i]);
        }
        lemma_take_identities(b, p, init);
        assert(xs.last() == xs[xs.len() - 1]);
        lemma_take_identity(b, p + a.len(), xs.last());
        assert(init.push(xs.last()) =~= xs);
    }
}

pub proof fn lemma_take_key(b: Seq<u8>, p: int, k: (Seq<char>, Seq<u8>))
    requires
        0 <= p,
        encode_utf8(k.0).len() <= u64::MAX,
        k.1.len() <= u64::MAX,
        p + encode_key(k).len() <= b.len(),
        b.subrange(p, p + encode_key(k).len()) == encode_key(k),
    ensures
        take_key(b, p) == Some((k, p + encode_key(k).len())),
{
    let f1 = text_field(k.0);
    let f2 = field(k.1);
    lemma_split(b, p, f1, f2);
    lemma_take_text(b, p, k.0);
    lemma_take_bytes(b, p + f1.len(), k.1);
}

pub proof fn lemma_take_keys(b: Seq<u8>, p: int, ks: Seq<(Seq<char>, Seq<u8>)>)
    requires
        0 <= p,
        forall|i: int|
            0 <= i < ks.len() ==> {
                &&& encode_utf8(#[trigger] ks[i].0).len() <= u64::MAX
                &&& ks[i].1.len() <= u64::MAX
            },
        p + encode_keys(ks).len() <= b.len(),
        b.subrange(p, p + encode_keys(ks).len()) == encode_keys(ks),
    ensures
        take_keys(b, p, ks.len()) == Some((ks, p + encode_keys(ks).len())),
    decreases ks.len(),
{
    if ks.len() > 0 {
        let init = ks.drop_last();
        let a = encode_keys(init);
        let c = encode_key(ks.last());
        lemma_split(b, p, a, c);
        assert forall|i: int| 0 <= i < init.len() implies {
            &&& encode_utf8(#[trigger] init[i].0).len() <= u64::MAX
            &&& init[i].1.len() <= u64::MAX
        } by {
            assert(init[i] == ks[i]);
        }
        lemma_take_keys(b, p, init);
        assert(ks.last() == ks[ks.len() - 1]);
        lemma_take_key(b, p + a.len(), ks.last());
        assert(init.push(ks.last()) =~= ks);
    }
}

/// The canonical bytes of a vault, cut into their six parts.
proof fn lemma_encoded_parts(v: VaultModel)
    ensures
        ({
            let b = encode_vault(v);
            let h = le_u32(v.version);
            let s = field(v.master_seed);
            let n = le_u64(v.identities.len() as u64);
            let ids = encode_identities(v.identities);
            let m = le_u64(v.private_keys.len() as u64);
            let ks = encode_keys(v.private_keys);
            let q1: int = h.len() as int + s.len() as int;
            let q3: int = q1 + 8 + ids.len();
            &&& b.len() == q3 + 8 + ks.len()
            &&& b.subrange(0, 4) == h
            &&& b.subrange(4, q1) == s
            &&& b.subrange(q1, q1 + 8) == n
            &&& b.subrange(q1 + 8, q3) == ids
            &&& b.subrange(q3, q3 + 8) == m
            &&& b.subrange(q3 + 8, b.len() as int) == ks
        }),
{
    reveal(encode_vault);
    let b = encode_vault(v);
    let h = le_u32(v.version);
    let s = field(v.master_seed);
    let n = le_u64(v.identities.len() as u64);
    let ids = encode_identities(v.identities);
    let m = le_u64(v.private_keys.len() as u64);
    let ks = encode_keys(v.private_keys);
    assert(b.subrange(0, b.len() as int) =~= b);
    lemma_split(b, 0, h + s + n + ids + m, ks);
    lemma_split(b, 0, h + s + n + ids, m);
    lemma_split(b, 0, h + s + n, ids);
    lemma_split(b, 0, h + s, n);
    lemma_split(b, 0, h, s);
}

/// The reads that decoding makes on the canonical bytes of a vault, one by
/// one.
proof fn lemma_encoded_steps(v: VaultModel)
    requires
        encodable(v),
    ensures
        ({
            let b = encode_vault(v);
            let q1: int = 12 + v.master_seed.len() as int;
            let q2: int = q1 + 8;
            let q3: int = q2 + encode_identities(v.identities).len();
            let q4: int = q3 + 8;
            &&& b.len() >= 4
            &&& read_u32(b, 0) == v.version
            &&& take_bytes(b, 4) == Some((v.master_seed, q1))
            &&& take_u64(b, q1) == Some((v.identities.len() as u64, q2))
            &&& take_identities(b, q2, v.identities.len()) == Some((v.identities, q3))
            &&& take_u64(b, q3) == Some((v.private_keys.len() as u64, q4))
            &&& take_keys(b, q4, v.private_keys.len()) == Some((v.private_keys, b.len() as int))
        }),
{
    lemma_encoded_parts(v);
    let b = encode_vault(v);
    let q1: int = 12 + v.master_seed.len() as int;
    let q3: int = q1 + 8 + encode_identities(v.identities).len();
    lemma_read_u32(b, v.version);
    lemma_take_bytes(b, 4, v.master_seed);
    lemma_take_u64(b, q1, v.identities.len() as u64);
    lemma_take_identities(b, q1 + 8, v.identities);
    lemma_take_u64(b, q3, v.private_keys.len() as u64);
    lemma_take_keys(b, q3 + 8, v.private_keys);
}

/// Decoding the canonical bytes of a vault gives back the same vault: the
/// same version and seed, the same identities in the same order, and the
/// same key for every identity.
pub proof fn lemma_vault_round_trip(v: VaultModel)
    requires
        encodable(v),
    ensures
        decode_vault(encode_vault(v)) == Some(v),
{
    lemma_encoded_steps(v);
    reveal(decode_vault);
}

proof fn lemma_u64_bytes(x: u64, c0: u64, c1: u64, c2: u64, c3: u64, c4: u64, c5: u64, c6: u64, c7: u64)
    by (bit_vector)
    requires
        c0 < 256,
        c1 < 256,
        c2 < 256,
        c3 < 256,
        c4 < 256,
        c5 < 256,
        c6 < 256,
        c7 < 256,
        x == c0 | (c1 << 8u64) | (c2 << 16u64) | (c3 << 24u64) | (c4 << 32u64) | (c5 << 40u64) | (c6
            << 48u64) | (c7 << 56u64),
    ensures
        x & 0xff == c0,
        (x >> 8) & 0xff == c1,
        (x >> 16) & 0xff == c2,
        (x >> 24) & 0xff == c3,
        (x >> 32) & 0xff == c4,
        (x >> 40) & 0xff == c5,
        (x >> 48) & 0xff == c6,
        (x >> 56) & 0xff == c7,
{
}

/// The eight bytes that were read are the little-endian form of what they
/// were read as.
proof fn lemma_take_u64_inverse(b: Seq<u8>, p: int)
    requires
        take_u64(b, p) is Some,
    ensures
        ({
            let (x, q) = take_u64(b, p)->0;
            q == p + 8 && b.subrange(p, p + 8) == le_u64(x)
        }),
{
    let x = read_u64(b, p);
    lemma_u64_bytes(
        x,
        b[p] as u64,
        b[p + 1] as u64,
        b[p + 2] as u64,
        b[p + 3] as u64,
        b[p + 4] as u64,
        b[p + 5] as u64,
        b[p + 6] as u64,
        b[p + 7] as u64,
    );
    assert(b.subrange(p, p + 8) =~= le_u64(x));
}

proof fn lemma_take_bytes_inverse(b: Seq<u8>, p: int)
    requires
        take_bytes(b, p) is Some,
    ensures
        ({
            let (s, q) = take_bytes(b, p)->0;
            &&& s.len() <= u64::MAX
            &&& p <= q <= b.len()
            &&& b.subrange(p, q) == field(s)
        }),
{
    lemma_take_u64_inverse(b, p);
    let (s, q) = take_bytes(b, p)->0;
    assert(b.subrange(p, q) =~= b.subrange(p, p + 8) + s);
}

proof fn lemma_take_text_inverse(b: Seq<u8>, p: int)
    requires
        take_text(b, p) is Some,
    ensures
        ({
            let (t, q) = take_text(b, p)->0;
            &&& encode_utf8(t).len() <= u64::MAX
            &&& p <= q <= b.len()
            &&& b.subrange(p, q) == text_field(t)
        }),
{
    lemma_take_bytes_inverse(b, p);
    let (s, q) = take_bytes(b, p)->0;
    decode_utf8_encode_utf8(s);
}

proof fn lemma_join(b: Seq<u8>, p: int, q: int, r: int)
    requires
        0 <= p <= q <= r <= b.len(),
    ensures
        b.subrange(p, r) == b.subrange(p, q) + b.subrange(q, r),
{
    assert(b.subrange(p, r) =~= b.subrange(p, q) + b.subrange(q, r));
}

proof fn lemma_take_identity_inverse(b: Seq<u8>, p: int)
    requires
        take_identity(b, p) is Some,
    ensures
        ({
            let (x, q) = take_identity(b, p)->0;
            &&& encode_utf8(x.id).len() <= u64::MAX
            &&& encode_utf8(x.label).len() <= u64::MAX
            &&& encode_utf8(x.did).len() <= u64::MAX
            &&& p <= q <= b.len()
            &&& b.subrange(p, q) == encode_identity(x)
        }),
{
    lemma_take_text_inverse(b, p);
    let (_, q1) = take_text(b, p)->0;
    lemma_take_text_inverse(b, q1);
    let (_, q2) = take_text(b, q1)->0;
    lemma_take_text_inverse(b, q2);
    let (_, q3) = take_text(b, q2)->0;
    lemma_join(b, p, q1, q2);
    lemma_join(b, p, q2, q3);
}

proof fn lemma_take_identities_inverse(b: Seq<u8>, p: int, n: nat)
    requires
        0 <= p <= b.len(),
        take_identities(b, p, n) is Some,
    ensures
        ({
            let (xs, q) = take_identities(b, p, n)->0;
            &&& xs.len() == n
            &&& p <= q <= b.len()
            &&& b.subrange(p, q) == encode_identities(xs)
            &&& forall|i: int|
                0 <= i < xs.len() ==> {
                    &&& encode_utf8(#[trigger] xs[i].id).len() <= u64::MAX
                    &&& encode_utf8(xs[i].label).len() <= u64::MAX
                    &&& encode_utf8(xs[i].did).len() <= u64::MAX
                }
        }),
    decreases n,
{
    if n == 0 {
        assert(b.subrange(p, p) =~= Seq::<u8>::empty());
    } else {
        lemma_take_identities_inverse(b, p, (n - 1) as nat);
        let (init, q) = take_identities(b, p, (n - 1) as nat)->0;
        lemma_take_identity_inverse(b, q);
        let (x, r) = take_identity(b, q)->0;
        let xs = init.push(x);
        lemma_join(b, p, q, r);
        assert(xs.drop_last() =~= init);
        assert forall|i: int| 0 <= i < xs.len() implies {
            &&& encode_utf8(#[trigger] xs[i].id).len() <= u64::MAX
            &&& encode_utf8(xs[i].label).len() <= u64::MAX
            &&& encode_utf8(xs[i].did).len() <= u64::MAX
        } by {
            if i < init.len() {
                assert(xs[i] == init[i]);
            }
        }
    }
}

proof fn lemma_take_key_inverse(b: Seq<u8>, p: int)
    requires
        take_key(b, p) is Some,
    ensures
        ({
            let (k, q) = take_key(b, p)->0;
            &&& encode_utf8(k.0).len() <= u64::MAX
            &&& k.1.len() <= u64::MAX
            &&& p <= q <= b.len()
            &&& b.subrange(p, q) == encode_key(k)
        }),
{
    lemma_take_text_inverse(b, p);
    let (_, q1) = take_text(b, p)->0;
    lemma_take_bytes_inverse(b, q1);
    let (_, q2) = take_bytes(b, q1)->0;
    lemma_join(b, p, q1, q2);
}

proof fn lemma_take_keys_inverse(b: Seq<u8>, p: int, n: nat)
    requires
        0 <= p <= b.len(),
        take_keys(b, p, n) is Some,
    ensures
        ({
            let (ks, q) = take_keys(b, p, n)->0;
            &&& ks.len() == n
            &&& p <= q <= b.len()
            &&& b.subrange(p, q) == encode_keys(ks)
            &&& forall|i: int|
                0 <= i < ks.len() ==> {
                    &&& encode_utf8(#[trigger] ks[i].0).len() <= u64::MAX
                    &&& ks[i].1.len() <= u64::MAX
                }
        }),
    decreases n,
{
    if n == 0 {
        assert(b.subrange(p, p) =~= Seq::<u8>::empty());
    } else {
        lemma_take_keys_inverse(b, p, (n - 1) as nat);
        let (init, q) = take_keys(b, p, (n - 1) as nat)->0;
        lemma_take_key_inverse(b, q);
        let (k, r) = take_key(b, q)->0;
        let ks = init.push(k);
        lemma_join(b, p, q, r);
        assert(ks.drop_last() =~= init);
        assert forall|i: int| 0 <= i < ks.len() implies {
            &&& encode_utf8(#[trigger] ks[i].0).len() <= u64::MAX
            &&& ks[i].1.len() <= u64::MAX
        } by {
            if i < init.len() {
                assert(ks[i] == init[i]);
            }
        }
    }
}

/// The steps of a successful decode, one by one.
proof fn lemma_decode_steps(b: Seq<u8>)
    requires
        decode_vault(b) is Some,
    ensures
        b.len() >= 4,
        take_bytes(b, 4) is Some,
        ({
            let (seed, q1) = take_bytes(b, 4)->0;
            take_u64(b, q1) is Some
        }),
        ({
            let (seed, q1) = take_bytes(b, 4)->0;
            let (n, q2) = take_u64(b, q1)->0;
            &&& take_identities(b, q2, n as nat) is Some
            &&& ({
                let (ids, q3) = take_identities(b, q2, n as nat)->0;
                &&& take_u64(b, q3) is Some
                &&& ({
                    let (m, q4) = take_u64(b, q3)->0;
                    &&& take_keys(b, q4, m as nat) is Some
                    &&& ({
                        let (keys, q5) = take_keys(b, q4, m as nat)->0;
                        &&& q5 == b.len()
                        &&& decode_vault(b)->0 == VaultModel {
                            version: read_u32(b, 0),
                            master_seed: seed,
                            identities: ids,
                            private_keys: keys,
                        }
                    })
                })
            })
        }),
{
    reveal(decode_vault);
}

/// The canonical form is the only one: bytes that decode to a vault are
/// exactly that vault's encoding.
#[verifier::rlimit(50)]
pub proof fn lemma_decode_canonical(b: Seq<u8>)
    requires
        decode_vault(b) is Some,
    ensures
        encodable(decode_vault(b)->0),
        encode_vault(decode_vault(b)->0) == b,
{
    lemma_decode_steps(b);
    reveal(encode_vault);
    let v = decode_vault(b)->0;
    lemma_take_bytes_inverse(b, 4);
    let (_, q1) = take_bytes(b, 4)->0;
    lemma_take_u64_inverse(b, q1);
    let (n, q2) = take_u64(b, q1)->0;
    lemma_take_identities_inverse(b, q2, n as nat);
    let (_, q3) = take_identities(b, q2, n as nat)->0;
    lemma_take_u64_inverse(b, q3);
    let (m, q4) = take_u64(b, q3)->0;
    lemma_take_keys_inverse(b, q4, m as nat);
    let (_, q5) = take_keys(b, q4, m as nat)->0;
    assert(b.subrange(0, 4) =~= le_u32(v.version)) by {
        lemma_u32_bytes(v.version, b[0] as u32, b[1] as u32, b[2] as u32, b[3] as u32);
    }
    lemma_join(b, 0, 4, q1);
    lemma_join(b, 0, q1, q2);
    lemma_join(b, 0, q2, q3);
    lemma_join(b, 0, q3, q4);
    lemma_join(b, 0, q4, q5);
    assert(b.subrange(0, q5) =~= b);
    assert(v.identities.len() == n);
    assert(v.private_keys.len() == m);
}

proof fn lemma_u32_bytes(x: u32, c0: u32, c1: u32, c2: u32, c3: u32)
    by (bit_vector)
    requires
        c0 < 256,
        c1 < 256,
        c2 < 256,
        c3 < 256,
        x == c0 | (c1 << 8u32) | (c2 << 16u32) | (c3 << 24u32),
    ensures
        x & 0xff == c0,
        (x >> 8) & 0xff == c1,
        (x >> 16) & 0xff == c2,
        (x >> 24) & 0xff == c3,
{
}

/// Once reading `n` items fails, reading more fails too.
proof fn lemma_identities_stop(b: Seq<u8>, p: int, k: nat, n: nat)
    requires
        take_identities(b, p, k) is None,
        k <= n,
    ensures
        take_identities(b, p, n) is None,
    decreases n - k,
{
    if k < n {
        lemma_identities_stop(b, p, k, (n - 1) as nat);
    }
}

proof fn lemma_keys_stop(b: Seq<u8>, p: int, k: nat, n: nat)
    requires
        take_keys(b, p, k) is None,
        k <= n,
    ensures
        take_keys(b, p, n) is None,
    decreases n - k,
{
    if k < n {
        lemma_keys_stop(b, p, k, (n - 1) as nat);
    }
}

fn push_u64(out: &mut Vec<u8>, x: u64)
    ensures
        final(out)@ == old(out)@ + le_u64(x),
{
    out.push((x & 0xff) as u8);
    out.push(((x >> 8) & 0xff) as u8);
    out.push(((x >> 16) & 0xff) as u8);
    out.push(((x >> 24) & 0xff) as u8);
    out.push(((x >> 32) & 0xff) as u8);
    out.push(((x >> 40) & 0xff) as u8);
    out.push(((x >> 48) & 0xff) as u8);
    out.push(((x >> 56) & 0xff) as u8);
    assert(out@ =~= old(out)@ + le_u64(x));
}

fn push_u32(out: &mut Vec<u8>, x: u32)
    ensures
        final(out)@ == old(out)@ + le_u32(x),
{
    out.push((x & 0xff) as u8);
    out.push(((x >> 8) & 0xff) as u8);
    out.push(((x >> 16) & 0xff) as u8);
    out.push(((x >> 24) & 0xff) as u8);
    assert(out@ =~= old(out)@ + le_u32(x));
}

fn push_field(out: &mut Vec<u8>, s: &[u8])
    ensures
        final(out)@ == old(out)@ + field(s@),
        s@.len() <= u64::MAX,
{
    push_u64(out, s.len() as u64);
    out.extend_from_slice(s);
    assert(out@ =~= old(out)@ + field(s@));
}

fn push_text(out: &mut Vec<u8>, t: &str)
    ensures
        final(out)@ == old(out)@ + text_field(t@),
        encode_utf8(t@).len() <= u64::MAX,
{
    push_field(out, t.as_bytes());
}

/// The canonical bytes of a vault.
pub fn encode_vault_bytes(v: &SatyaVault) -> (r: Vec<u8>)
    ensures
        r@ == encode_vault(v@),
        encodable(v@),
{
    let mut out: Vec<u8> = Vec::new();
    push_u32(&mut out, v.version);
    push_field(&mut out, v.master_seed.as_slice());
    push_u64(&mut out, v.identities.len() as u64);
    let ghost start = out@;
    let ghost ids = v@.identities;
    let mut i: usize = 0;
    while i < v.identities.len()
        invariant
            i <= ids.len(),
            ids == identities_view(v.identities@),
            out@ == start + encode_identities(ids.subrange(0, i as int)),
            forall|j: int|
                0 <= j < i ==> {
                    &&& encode_utf8(#[trigger] ids[j].id).len() <= u64::MAX
                    &&& encode_utf8(ids[j].label).len() <= u64::MAX
                    &&& encode_utf8(ids[j].did).len() <= u64::MAX
                },
        decreases ids.len() - i,
    {
        let x = &v.identities[i];
        push_text(&mut out, x.id.as_str());
        push_text(&mut out, x.label.as_str());
        push_text(&mut out, x.did.as_str());
        proof {
            assert(ids[i as int] == x@);
            assert(encode_utf8(ids[i as int].id).len() <= u64::MAX);
            assert(encode_utf8(ids[i as int].label).len() <= u64::MAX);
            assert(encode_utf8(ids[i as int].did).len() <= u64::MAX);
            assert(ids.subrange(0, i + 1).drop_last() =~= ids.subrange(0, i as int));
            assert(ids.subrange(0, i + 1).last() == x@);
        }
        i = i + 1;
        assert(out@ =~= start + encode_identities(ids.subrange(0, i as int)));
        assert forall|j: int| 0 <= j < i implies {
            &&& encode_utf8(#[trigger] ids[j].id).len() <= u64::MAX
            &&& encode_utf8(ids[j].label).len() <= u64::MAX
            &&& encode_utf8(ids[j].did).len() <= u64::MAX
        } by {
            if j < i - 1 {
                assert(encode_utf8(ids[j].id).len() <= u64::MAX);
            }
        }
    }
    assert(ids.subrange(0, i as int) =~= ids);
    push_u64(&mut out, v.private_keys.len() as u64);
    let ghost start2 = out@;
    let ghost ks = v@.private_keys;
    let mut k: usize = 0;
    while k < v.private_keys.len()
        invariant
            k <= ks.len(),
            ks == keys_view(v.private_keys@),
            out@ == start2 + encode_keys(ks.subrange(0, k as int)),
            forall|j: int|
                0 <= j < k ==> {
                    &&& encode_utf8(#[trigger] ks[j].0).len() <= u64::MAX
                    &&& ks[j].1.len() <= u64::MAX
                },
        decreases ks.len() - k,
    {
        let e = &v.private_keys[k];
        push_text(&mut out, e.identity_id.as_str());
        push_field(&mut out, e.secret.as_slice());
        proof {
            assert(ks[k as int] == e@);
            assert(encode_utf8(ks[k as int].0).len() <= u64::MAX);
            assert(ks[k as int].1.len() <= u64::MAX);
            assert(ks.subrange(0, k + 1).drop_last() =~= ks.subrange(0, k as int));
            assert(ks.subrange(0, k + 1).last() == e@);
        }
        k = k + 1;
        assert(out@ =~= start2 + encode_keys(ks.subrange(0, k as int)));
        assert forall|j: int| 0 <= j < k implies {
            &&& encode_utf8(#[trigger] ks[j].0).len() <= u64::MAX
            &&& ks[j].1.len() <= u64::MAX
        } by {
            if j < k - 1 {
                assert(encode_utf8(ks[j].0).len() <= u64::MAX);
            }
        }
    }
    assert(ks.subrange(0, k as int) =~= ks);
    reveal(encode_vault);
    assert(out@ =~= encode_vault(v@));
    out
}

fn read_u64_at(b: &[u8], p: usize) -> (r: Option<(u64, usize)>)
    ensures
        match r {
            Some((x, q)) => take_u64(b@, p as int) == Some((x, q as int)),
            None => take_u64(b@, p as int) is None,
        },
{
    if p > b.len() || b.len() - p < 8 {
        return None;
    }
    let x: u64 = (b[p] as u64) | ((b[p + 1] as u64) << 8u64) | ((b[p + 2] as u64) << 16u64) | ((b[p
        + 3] as u64) << 24u64) | ((b[p + 4] as u64) << 32u64) | ((b[p + 5] as u64) << 40u64) | ((b[p
        + 6] as u64) << 48u64) | ((b[p + 7] as u64) << 56u64);
    Some((x, p + 8))
}

fn read_bytes_at(b: &[u8], p: usize) -> (r: Option<(Vec<u8>, usize)>)
    ensures
        match r {
            Some((x, q)) => take_bytes(b@, p as int) == Some((x@, q as int)),
            None => take_bytes(b@, p as int) is None,
        },
{
    let (n, q) = match read_u64_at(b, p) {
        Some(pair) => pair,
        None => {
            return None;
        },
    };
    if n > (b.len() - q) as u64 {
        return None;
    }
    let end = q + n as usize;
    let bytes = vstd::slice::slice_to_vec(&b[q..end]);
    Some((bytes, end))
}

fn read_text_at(b: &[u8], p: usize) -> (r: Option<(String, usize)>)
    ensures
        match r {
            Some((x, q)) => take_text(b@, p as int) == Some((x@, q as int)),
            None => take_text(b@, p as int) is None,
        },
{
    let (bytes, q) = match read_bytes_at(b, p) {
        Some(pair) => pair,
        None => {
            return None;
        },
    };
    match string_from_utf8(bytes) {
        Some(text) => Some((text, q)),
        None => None,
    }
}

fn read_identity_at(b: &[u8], p: usize) -> (r: Option<(SatyaIdentity, usize)>)
    ensures
        match r {
            Some((x, q)) => take_identity(b@, p as int) == Some((x@, q as int)),
            None => take_identity(b@, p as int) is None,
        },
{
    let (id, q1) = match read_text_at(b, p) {
        Some(pair) => pair,
        None => {
            return None;
        },
    };
    let (label, q2) = match read_text_at(b, q1) {
        Some(pair) => pair,
        None => {
            return None;
        },
    };
    let (did, q3) = match read_text_at(b, q2) {
        Some(pair) => pair,
        None => {
            return None;
        },
    };
    Some((SatyaIdentity { id, label, did }, q3))
}

fn read_key_at(b: &[u8], p: usize) -> (r: Option<(KeyEntry, usize)>)
    ensures
        match r {
            Some((x, q)) => take_key(b@, p as int) == Some((x@, q as int)),
            None => take_key(b@, p as int) is None,
        },
{
    let (identity_id, q1) = match read_text_at(b, p) {
        Some(pair) => pair,
        None => {
            return None;
        },
    };
    let (secret, q2) = match read_bytes_at(b, q1) {
        Some(pair) => pair,
        None => {
            return None;
        },
    };
    Some((KeyEntry { identity_id, secret }, q2))
}

/// Reads a vault from its canonical bytes; `None` for any other bytes.
pub fn decode_vault_bytes(b: &[u8]) -> (r: Option<SatyaVault>)
    ensures
        r is Some <==> decode_vault(b@) is Some,
        r is Some ==> r->0@ == decode_vault(b@)->0,
{
    reveal(decode_vault);
    if b.len() < 4 {
        return None;
    }
    let version: u32 = (b[0] as u32) | ((b[1] as u32) << 8u32) | ((b[2] as u32) << 16u32) | ((
    b[3] as u32) << 24u32);
    let (master_seed, q1) = match read_bytes_at(b, 4) {
        Some(pair) => pair,
        None => {
            return None;
        },
    };
    let (n, q2) = match read_u64_at(b, q1) {
        Some(pair) => pair,
        None => {
            return None;
        },
    };
    let mut identities: Vec<SatyaIdentity> = Vec::new();
    let mut pos = q2;
    let mut i: u64 = 0;
    while i < n
        invariant
            i <= n,
            pos <= b@.len(),
            take_identities(b@, q2 as int, i as nat) == Some((identities_view(identities@), pos as int)),
            b@.len() >= 4,
            take_bytes(b@, 4) == Some((master_seed@, q1 as int)),
            take_u64(b@, q1 as int) == Some((n, q2 as int)),
        decreases n - i,
    {
        match read_identity_at(b, pos) {
            Some((x, q)) => {
                let ghost before = identities@;
                identities.push(x);
                assert(identities_view(identities@) =~= identities_view(before).push(x@));
                pos = q;
            },
            None => {
                proof {
                    assert(take_identities(b@, q2 as int, (i + 1) as nat) is None);
                    lemma_identities_stop(b@, q2 as int, (i + 1) as nat, n as nat);
                    assert(take_bytes(b@, 4) == Some((master_seed@, q1 as int)));
                    assert(take_u64(b@, q1 as int) == Some((n, q2 as int)));
                    reveal(decode_vault);
                    assert(decode_vault(b@) is None);
                }
                return None;
            },
        }
        i = i + 1;
    }
    let q3 = pos;
    let (m, q4) = match read_u64_at(b, q3) {
        Some(pair) => pair,
        None => {
            return None;
        },
    };
    let mut private_keys: Vec<KeyEntry> = Vec::new();
    let mut pos = q4;
    let mut k: u64 = 0;
    while k < m
        invariant
            k <= m,
            pos <= b@.len(),
            take_keys(b@, q4 as int, k as nat) == Some((keys_view(private_keys@), pos as int)),
            b@.len() >= 4,
            take_bytes(b@, 4) == Some((master_seed@, q1 as int)),
            take_u64(b@, q1 as int) == Some((n, q2 as int)),
            take_identities(b@, q2 as int, n as nat) == Some((identities_view(identities@), q3 as int)),
            take_u64(b@, q3 as int) == Some((m, q4 as int)),
        decreases m - k,
    {
        match read_key_at(b, pos) {
            Some((e, q)) => {
                let ghost before = private_keys@;
                private_keys.push(e);
                assert(keys_view(private_keys@) =~= keys_view(before).push(e@));
                pos = q;
            },
            None => {
                proof {
                    assert(take_keys(b@, q4 as int, (k + 1) as nat) is None);
                    lemma_keys_stop(b@, q4 as int, (k + 1) as nat, m as nat);
                    assert(take_bytes(b@, 4) == Some((master_seed@, q1 as int)));
                    assert(take_u64(b@, q1 as int) == Some((n, q2 as int)));
                    assert(take_identities(b@, q2 as int, n as nat) == Some((identities_view(identities@), q3 as int)));
                    assert(take_u64(b@, q3 as int) == Some((m, q4 as int)));
                    reveal(decode_vault);
                    assert(decode_vault(b@) is None);
                }
                return None;
            },
        }
        k = k + 1;
    }
    if pos != b.len() {
        return None;
    }
    Some(SatyaVault { version, master_seed, identities, private_keys })
}

} // verus!
