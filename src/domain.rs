use vstd::prelude::*;

verus! {

/// The version of the payload format that signed intents carry.
pub const PROTOCOL_VERSION: &'static str = "1.0.0";

/// A persona held in the vault.
pub struct SatyaIdentity {
    pub id: String,
    pub label: String,
    pub did: String,
}

/// The abstract value of a `SatyaIdentity`.
pub struct IdentityModel {
    pub id: Seq<char>,
    pub label: Seq<char>,
    pub did: Seq<char>,
}

impl View for SatyaIdentity {
    type V = IdentityModel;

    open spec fn view(&self) -> IdentityModel {
        IdentityModel { id: self.id@, label: self.label@, did: self.did@ }
    }
}

impl SatyaIdentity {
    /// A copy with the same text in every field.
    pub fn duplicate(&self) -> (r: SatyaIdentity)
        ensures
            r@ == self@,
    {
        SatyaIdentity { id: self.id.clone(), label: self.label.clone(), did: self.did.clone() }
    }
}

/// The abstract values of a list of identities.
pub open spec fn identities_view(list: Seq<SatyaIdentity>) -> Seq<IdentityModel> {
    list.map_values(|x: SatyaIdentity| x@)
}

/// Copies a list of identities field by field.
pub fn duplicate_identities(list: &Vec<SatyaIdentity>) -> (r: Vec<SatyaIdentity>)
    ensures
        identities_view(r@) == identities_view(list@),
{
    let mut r: Vec<SatyaIdentity> = Vec::new();
    let mut i: usize = 0;
    while i < list.len()
        invariant
            i <= list@.len(),
            r@.len() == i,
            identities_view(r@) =~= identities_view(list@.subrange(0, i as int)),
        decreases list@.len() - i,
    {
        let ghost before = r@;
        r.push(list[i].duplicate());
        i = i + 1;
        assert forall|k: int| 0 <= k < i implies #[trigger] identities_view(r@)[k]
            == identities_view(list@.subrange(0, i as int))[k] by {
            if k < i - 1 {
                assert(r@[k] == before[k]);
                assert(identities_view(before)[k] == identities_view(list@.subrange(0, i - 1))[k]);
            }
        }
        assert(identities_view(r@) =~= identities_view(list@.subrange(0, i as int)));
    }
    assert(list@.subrange(0, i as int) =~= list@);
    r
}

/// The fields of a UPI payment request.
pub struct UpiIntent {
    pub vpa: String,
    pub name: String,
    pub amount: String,
    pub currency: String,
}

/// The abstract value of a `UpiIntent`.
pub struct UpiModel {
    pub vpa: Seq<char>,
    pub name: Seq<char>,
    pub amount: Seq<char>,
    pub currency: Seq<char>,
}

impl View for UpiIntent {
    type V = UpiModel;

    open spec fn view(&self) -> UpiModel {
        UpiModel { vpa: self.vpa@, name: self.name@, amount: self.amount@, currency: self.currency@ }
    }
}

/// The kinds of interaction a signed payload can describe.
#[derive(Clone, Copy, Debug, PartialEq, Eq, Structural)]
pub enum InteractionType {
    PaymentIntent,
    IdentityVerification,
}

/// The record that gets signed.
pub struct IntentPayload {
    pub version: String,
    pub interaction_type: InteractionType,
    pub timestamp: u64,
    pub upi_data: UpiIntent,
}

/// The abstract value of an `IntentPayload`.
pub struct PayloadModel {
    pub version: Seq<char>,
    pub interaction_type: InteractionType,
    pub timestamp: u64,
    pub upi_data: UpiModel,
}

impl View for IntentPayload {
    type V = PayloadModel;

    open spec fn view(&self) -> PayloadModel {
        PayloadModel {
            version: self.version@,
            interaction_type: self.interaction_type,
            timestamp: self.timestamp,
            upi_data: self.upi_data@,
        }
    }
}

/// A payload with its signature and the signer's identifier.
pub struct SignedIntent {
    pub payload: IntentPayload,
    pub signature_hex: String,
    pub signer_did: String,
    /// Set by a caller that checked the signature against data it fetched.
    pub is_verified: bool,
}

} // verus!
