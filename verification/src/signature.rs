//! Attestation of verified orders: a SHA3-256 digest over a canonical
//! byte serialization of the order, bound to an Ed25519 signing key.
//! Verification recomputes the exact same bytes, so drift in any bound
//! field fails it.

use vstd::prelude::*;
use crate::codec::{
    spec_digits, spec_fixed_bytes, spec_hex_of, spec_i64_bytes, hex_bytes, push_digits,
    push_fixed_bytes, push_i64_digits,
};
use crate::types::{AxiomId, OrderType, Side, VerifiedOrder};
use vstd::utf8::encode_utf8;

verus! {

/// A failure while checking an attestation.
#[derive(Clone, Copy, Debug, PartialEq, Eq, Structural)]
pub enum SignatureError {
    InvalidKey,
    InvalidSignature,
    VerificationFailed,
}

/// SHA3-256 digest of a byte string. The digest is a function of the
/// input alone; its definition lives in the hash implementation.
pub uninterp spec fn sha3_256_of(data: Seq<u8>) -> Seq<u8>;

/// Ed25519 signature of a message under a 32-byte secret key.
pub uninterp spec fn ed25519_signature(key: Seq<u8>, msg: Seq<u8>) -> Seq<u8>;

/// Ed25519 public key derived from a 32-byte secret key.
pub uninterp spec fn ed25519_public_key(key: Seq<u8>) -> Seq<u8>;

/// Whether Ed25519 verification accepts `(public key, message,
/// signature)`, all as raw bytes; malformed inputs are rejected.
pub uninterp spec fn ed25519_accepts(public_key: Seq<u8>, msg: Seq<u8>, sig: Seq<u8>) -> bool;

/// Relies on `sha3::Sha3_256`: a 32-byte digest of the input alone.
#[verifier::external_body]
fn sha3_256(data: &Vec<u8>) -> (r: Vec<u8>)
    ensures
        r@ == sha3_256_of(data@),
        r@.len() == 32,
{
    let mut hasher = <sha3::Sha3_256 as sha3::Digest>::new();
    sha3::Digest::update(&mut hasher, data.as_slice());
    sha3::Digest::finalize(hasher).to_vec()
}

/// Relies on `ed25519_dalek::SigningKey::sign`: a deterministic
/// 64-byte signature of the key and message bytes alone, which the
/// key's own public key verifies.
#[verifier::external_body]
fn ed25519_sign(key_bytes: &Vec<u8>, msg: &Vec<u8>) -> (r: Vec<u8>)
    requires
        key_bytes@.len() == 32,
    ensures
        r@ == ed25519_signature(key_bytes@, msg@),
        r@.len() == 64,
        ed25519_accepts(ed25519_public_key(key_bytes@), msg@, r@),
{
    let mut kb = [0u8; 32];
    kb.copy_from_slice(key_bytes.as_slice());
    let sk = ed25519_dalek::SigningKey::from_bytes(&kb);
    ed25519_dalek::Signer::sign(&sk, msg.as_slice()).to_bytes().to_vec()
}

/// Relies on `ed25519_dalek::SigningKey::verifying_key`: the 32-byte
/// public key of a secret key.
#[verifier::external_body]
fn ed25519_verifying_key(key_bytes: &Vec<u8>) -> (r: Vec<u8>)
    requires
        key_bytes@.len() == 32,
    ensures
        r@ == ed25519_public_key(key_bytes@),
        r@.len() == 32,
{
    let mut kb = [0u8; 32];
    kb.copy_from_slice(key_bytes.as_slice());
    ed25519_dalek::SigningKey::from_bytes(&kb).verifying_key().to_bytes().to_vec()
}

/// Relies on `ed25519_dalek::VerifyingKey::verify` (with
/// `VerifyingKey::from_bytes` and `Signature::from_bytes`): acceptance
/// is a function of the three byte strings alone.
#[verifier::external_body]
fn ed25519_verify(public_bytes: &Vec<u8>, msg: &Vec<u8>, sig: &Vec<u8>) -> (r: bool)
    ensures
        r == ed25519_accepts(public_bytes@, msg@, sig@),
{
    let Ok(kb) = <&[u8; 32]>::try_from(public_bytes.as_slice()) else { return false };
    let Ok(vk) = ed25519_dalek::VerifyingKey::from_bytes(kb) else { return false };
    let Ok(sb) = <&[u8; 64]>::try_from(sig.as_slice()) else { return false };
    let s = ed25519_dalek::Signature::from_bytes(sb);
    ed25519_dalek::Verifier::verify(&vk, msg.as_slice(), &s).is_ok()
}

/// Canonical bytes of a side.
pub open spec fn spec_side_bytes(s: Side) -> Seq<u8> {
    match s {
        Side::Buy => seq![66u8, 85u8, 89u8],
        Side::Sell => seq![83u8, 69u8, 76u8, 76u8],
    }
}

/// Canonical bytes of an order type.
pub open spec fn spec_order_type_bytes(t: OrderType) -> Seq<u8> {
    match t {
        OrderType::Market => seq![77u8, 65u8, 82u8, 75u8, 69u8, 84u8],
        OrderType::Limit => seq![76u8, 73u8, 77u8, 73u8, 84u8],
        OrderType::Stop => seq![83u8, 84u8, 79u8, 80u8],
        OrderType::StopLimit => seq![83u8, 84u8, 79u8, 80u8, 95u8, 76u8, 73u8, 77u8, 73u8, 84u8],
    }
}

/// Canonical bytes of an optional fixed-point value; empty for none.
pub open spec fn spec_opt_fixed_bytes(p: Option<crate::fixed::Fixed>) -> Seq<u8> {
    match p {
        Some(v) => spec_fixed_bytes(v@),
        None => Seq::<u8>::empty(),
    }
}

/// Canonical bytes of one discharged axiom.
pub open spec fn spec_axiom_bytes(a: AxiomId) -> Seq<u8> {
    match a {
        AxiomId::PositionSizeLimit => seq![80u8, 83u8, 76u8],
        AxiomId::LeverageLimit => seq![76u8, 86u8, 76u8],
        AxiomId::RiskBudget => seq![82u8, 83u8, 75u8],
        AxiomId::EnergyConstraint => seq![69u8, 78u8, 71u8],
    }
}

/// Canonical bytes of the discharged-axiom list, comma separated, in
/// the fixed canonical order the verifier emits.
pub open spec fn spec_axioms_bytes(s: Seq<AxiomId>) -> Seq<u8>
    decreases s.len(),
{
    if s.len() == 0 {
        Seq::<u8>::empty()
    } else if s.len() == 1 {
        spec_axiom_bytes(s[0])
    } else {
        spec_axioms_bytes(s.drop_last()) + seq![44u8] + spec_axiom_bytes(s.last())
    }
}

/// The canonical serialization an attestation binds: every signal
/// field in fixed order, then the proof summary (satisfiability and
/// the discharged axioms), separated by `|`.
pub open spec fn spec_canonical_order_bytes(order: VerifiedOrder) -> Seq<u8> {
    encode_utf8(order.signal.symbol@) + seq![124u8] + encode_utf8(order.signal.venue@) + seq![
        124u8,
    ] + spec_side_bytes(order.signal.side) + seq![124u8] + spec_order_type_bytes(
        order.signal.order_type,
    ) + seq![124u8] + spec_fixed_bytes(order.signal.quantity@) + seq![124u8]
        + spec_opt_fixed_bytes(order.signal.limit_price) + seq![124u8] + spec_opt_fixed_bytes(
        order.signal.stop_price,
    ) + seq![124u8] + spec_i64_bytes(order.signal.timestamp as int) + seq![124u8]
        + spec_fixed_bytes(order.signal.contradiction_score@) + seq![124u8] + spec_fixed_bytes(
        order.signal.entropy_count@,
    ) + seq![124u8] + (if order.proof.satisfiable {
        seq![49u8]
    } else {
        seq![48u8]
    }) + seq![124u8] + spec_axioms_bytes(order.proof.axioms_satisfied@)
}

/// Hex digest the attestation stores: SHA3-256 of the canonical bytes.
pub open spec fn spec_order_hash_hex(order: VerifiedOrder) -> Seq<u8> {
    spec_hex_of(sha3_256_of(spec_canonical_order_bytes(order)))
}

/// The exact message that is signed: the hex digest, the proof
/// signature and the verification time in epoch seconds, separated by
/// colons.
pub open spec fn spec_message(order: VerifiedOrder) -> Seq<u8> {
    spec_order_hash_hex(order) + seq![58u8] + order.proof_signature@ + seq![58u8] + spec_digits(
        (order.verified_at / 1000) as nat,
    )
}

/// What it means for an attestation to bind an order: the stored
/// digest is the order's digest, the key and signature are well
/// formed, and Ed25519 accepts the recomputed message.
pub open spec fn spec_attestation_accepted(att: CZeroSignature, order: VerifiedOrder) -> bool {
    &&& att.verifying_key@.len() == 32
    &&& att.signature@.len() == 64
    &&& att.order_hash@ == spec_order_hash_hex(order)
    &&& ed25519_accepts(att.verifying_key@, spec_message(order), att.signature@)
}

/// A signed attestation binding one verified order to a signing key.
#[derive(Clone, Debug)]
pub struct CZeroSignature {
    pub signature: Vec<u8>,
    pub verifying_key: Vec<u8>,
    pub order_hash: Vec<u8>,
    pub timestamp: i64,
}

/// Appends the UTF-8 bytes of a string.
fn push_str_bytes(out: &mut Vec<u8>, s: &String)
    ensures
        final(out)@ == old(out)@ + encode_utf8(s@),
{
    out.extend_from_slice(s.as_str().as_bytes());
    proof {
        assert(final(out)@ =~= old(out)@ + encode_utf8(s@));
    }
}

/// Appends the canonical bytes of a side.
fn push_side_bytes(out: &mut Vec<u8>, s: Side)
    ensures
        final(out)@ == old(out)@ + spec_side_bytes(s),
{
    match s {
        Side::Buy => {
            out.push(66);
            out.push(85);
            out.push(89);
        },
        Side::Sell => {
            out.push(83);
            out.push(69);
            out.push(76);
            out.push(76);
        },
    }
    proof {
        assert(final(out)@ =~= old(out)@ + spec_side_bytes(s));
    }
}

/// Appends the canonical bytes of an order type.
fn push_order_type_bytes(out: &mut Vec<u8>, t: OrderType)
    ensures
        final(out)@ == old(out)@ + spec_order_type_bytes(t),
{
    match t {
        OrderType::Market => {
            out.push(77);
            out.push(65);
            out.push(82);
            out.push(75);
            out.push(69);
            out.push(84);
        },
        OrderType::Limit => {
            out.push(76);
            out.push(73);
            out.push(77);
            out.push(73);
            out.push(84);
        },
        OrderType::Stop => {
            out.push(83);
            out.push(84);
            out.push(79);
            out.push(80);
        },
        OrderType::StopLimit => {
            out.push(83);
            out.push(84);
            out.push(79);
            out.push(80);
            out.push(95);
            out.push(76);
            out.push(73);
            out.push(77);
            out.push(73);
            out.push(84);
        },
    }
    proof {
        assert(final(out)@ =~= old(out)@ + spec_order_type_bytes(t));
    }
}

/// Appends the canonical bytes of an optional value.
fn push_opt_fixed_bytes(out: &mut Vec<u8>, p: Option<crate::fixed::Fixed>)
    ensures
        final(out)@ == old(out)@ + spec_opt_fixed_bytes(p),
{
    match p {
        Some(v) => push_fixed_bytes(out, v),
        None => {
            proof {
                assert(final(out)@ =~= old(out)@ + spec_opt_fixed_bytes(p));
            }
        },
    }
}

/// Appends the canonical bytes of one axiom.
fn push_axiom_bytes(out: &mut Vec<u8>, a: AxiomId)
    ensures
        final(out)@ == old(out)@ + spec_axiom_bytes(a),
{
    match a {
        AxiomId::PositionSizeLimit => {
            out.push(80);
            out.push(83);
            out.push(76);
        },
        AxiomId::LeverageLimit => {
            out.push(76);
            out.push(86);
            out.push(76);
        },
        AxiomId::RiskBudget => {
            out.push(82);
            out.push(83);
            out.push(75);
        },
        AxiomId::EnergyConstraint => {
            out.push(69);
            out.push(78);
            out.push(71);
        },
    }
    proof {
        assert(final(out)@ =~= old(out)@ + spec_axiom_bytes(a));
    }
}

/// Appends the canonical axiom list.
fn push_axioms_bytes(out: &mut Vec<u8>, axioms: &Vec<AxiomId>)
    ensures
        final(out)@ == old(out)@ + spec_axioms_bytes(axioms@),
{
    let n = axioms.len();
    let mut i: usize = 0;
    while i < n
        invariant
            i <= n,
            n == axioms@.len(),
            out@ == old(out)@ + spec_axioms_bytes(axioms@.take(i as int)),
        decreases n - i,
    {
        proof {
            assert(axioms@.take(i as int + 1).drop_last() =~= axioms@.take(i as int));
            assert(axioms@.take(i as int + 1).last() == axioms@[i as int]);
        }
        if i > 0 {
            out.push(44);
        }
        push_axiom_bytes(out, axioms[i]);
        proof {
            if i == 0 {
                assert(out@ =~= old(out)@ + spec_axioms_bytes(axioms@.take(i as int + 1)));
            } else {
                assert(out@ =~= old(out)@ + spec_axioms_bytes(axioms@.take(i as int + 1)));
            }
        }
        i = i + 1;
    }
    proof {
        assert(axioms@.take(n as int) =~= axioms@);
    }
}

/// The canonical serialization of an order, as executable bytes.
pub fn canonical_order_bytes(order: &VerifiedOrder) -> (r: Vec<u8>)
    ensures
        r@ == spec_canonical_order_bytes(*order),
{
    let mut out: Vec<u8> = Vec::new();
    push_str_bytes(&mut out, &order.signal.symbol.0);
    out.push(124);
    push_str_bytes(&mut out, &order.signal.venue.0);
    out.push(124);
    push_side_bytes(&mut out, order.signal.side);
    out.push(124);
    push_order_type_bytes(&mut out, order.signal.order_type);
    out.push(124);
    push_fixed_bytes(&mut out, order.signal.quantity);
    out.push(124);
    push_opt_fixed_bytes(&mut out, order.signal.limit_price);
    out.push(124);
    push_opt_fixed_bytes(&mut out, order.signal.stop_price);
    out.push(124);
    push_i64_digits(&mut out, order.signal.timestamp);
    out.push(124);
    push_fixed_bytes(&mut out, order.signal.contradiction_score);
    out.push(124);
    push_fixed_bytes(&mut out, order.signal.entropy_count);
    out.push(124);
    if order.proof.satisfiable {
        out.push(49);
    } else {
        out.push(48);
    }
    out.push(124);
    push_axioms_bytes(&mut out, &order.proof.axioms_satisfied);
    proof {
        assert(out@ =~= spec_canonical_order_bytes(*order));
    }
    out
}

/// The signed message for an order: stored-digest form.
fn message_bytes(order_hash: &Vec<u8>, order: &VerifiedOrder) -> (r: Vec<u8>)
    requires
        order.verified_at >= 0,
    ensures
        r@ == order_hash@ + seq![58u8] + order.proof_signature@ + seq![58u8] + spec_digits(
            (order.verified_at / 1000) as nat,
        ),
{
    let mut out: Vec<u8> = Vec::new();
    out.extend_from_slice(order_hash.as_slice());
    out.push(58);
    out.extend_from_slice(order.proof_signature.as_slice());
    out.push(58);
    push_digits(&mut out, (order.verified_at as u128) / 1000);
    proof {
        assert(out@ =~= order_hash@ + seq![58u8] + order.proof_signature@ + seq![58u8]
            + spec_digits((order.verified_at / 1000) as nat));
    }
    out
}

impl CZeroSignature {
    /// Signs an order: hashes its canonical bytes, binds the digest,
    /// the proof signature and the verification time into one message,
    /// and signs it with the key. The result verifies against the
    /// order it was made for.
    pub fn sign(order: &VerifiedOrder, signing_key_bytes: &Vec<u8>, now_ms: i64) -> (r:
        CZeroSignature)
        requires
            signing_key_bytes@.len() == 32,
            order.verified_at >= 0,
        ensures
            r.order_hash@ == spec_order_hash_hex(*order),
            r.signature@ == ed25519_signature(signing_key_bytes@, spec_message(*order)),
            r.verifying_key@ == ed25519_public_key(signing_key_bytes@),
            r.timestamp == now_ms,
            spec_attestation_accepted(r, *order),
    {
        let canon = canonical_order_bytes(order);
        let digest = sha3_256(&canon);
        let order_hash = hex_bytes(&digest);
        let message = message_bytes(&order_hash, order);
        let signature = ed25519_sign(signing_key_bytes, &message);
        let verifying_key = ed25519_verifying_key(signing_key_bytes);
        CZeroSignature { signature, verifying_key, order_hash, timestamp: now_ms }
    }

    /// Verifies an attestation against an order by recomputing the
    /// digest and the message from the order itself; any drift in a
    /// bound field fails.
    pub fn verify(&self, order: &VerifiedOrder) -> (r: Result<(), SignatureError>)
        requires
            order.verified_at >= 0,
        ensures
            match r {
                Ok(()) => spec_attestation_accepted(*self, *order),
                Err(SignatureError::InvalidKey) => self.verifying_key@.len() != 32,
                Err(SignatureError::InvalidSignature) => self.verifying_key@.len() == 32
                    && self.signature@.len() != 64,
                Err(SignatureError::VerificationFailed) => self.verifying_key@.len() == 32
                    && self.signature@.len() == 64 && !spec_attestation_accepted(*self, *order),
            },
            r is Ok <==> spec_attestation_accepted(*self, *order),
    {
        if self.verifying_key.len() != 32 {
            return Err(SignatureError::InvalidKey);
        }
        if self.signature.len() != 64 {
            return Err(SignatureError::InvalidSignature);
        }
        let canon = canonical_order_bytes(order);
        let digest = sha3_256(&canon);
        let expected_hash = hex_bytes(&digest);
        if !bytes_equal(&self.order_hash, &expected_hash) {
            return Err(SignatureError::VerificationFailed);
        }
        let message = message_bytes(&self.order_hash, order);
        if ed25519_verify(&self.verifying_key, &message, &self.signature) {
            Ok(())
        } else {
            Err(SignatureError::VerificationFailed)
        }
    }

    /// The same verification, as a plain acceptance test.
    pub fn verify_accepts(&self, order: &VerifiedOrder) -> (r: bool)
        requires
            order.verified_at >= 0,
        ensures
            r == spec_attestation_accepted(*self, *order),
    {
        match self.verify(order) {
            Ok(()) => true,
            Err(_) => false,
        }
    }
}

/// Exact equality of two byte strings.
fn bytes_equal(a: &Vec<u8>, b: &Vec<u8>) -> (r: bool)
    ensures
        r == (a@ == b@),
{
    if a.len() != b.len() {
        proof {
            assert(a@.len() != b@.len());
        }
        return false;
    }
    let n = a.len();
    let mut i: usize = 0;
    while i < n
        invariant
            i <= n,
            n == a@.len(),
            n == b@.len(),
            forall|j: int| 0 <= j < i ==> a@[j] == b@[j],
        decreases n - i,
    {
        if a[i] != b[i] {
            return false;
        }
        i = i + 1;
    }
    proof {
        assert(a@ =~= b@);
    }
    true
}

} // verus!
