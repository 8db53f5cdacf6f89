//! The transaction payload, its signed form, and the checks that come before
//! a signature is verified.
use vstd::prelude::*;
use crate::codec::{
    decimal, joined, lemma_decimal_prefix, lemma_drop_prefix, lemma_joined_prefix, lemma_quoted_prefix,
    push_decimal, push_quoted, push_string_array, quoted, string_array,
};
use crate::digest::{base64_decode, base64_decoded_of, base64_encode, base64_of, content_hash, hash_text};

verus! {

/// A transaction payload as mathematical values.
pub struct TransactionView {
    pub parents: Seq<Seq<char>>,
    pub sender: Seq<char>,
    pub timestamp: u64,
    pub amount: u64,
    pub receiver: Seq<char>,
}

/// A signed transaction as mathematical values.
pub struct SignedView {
    pub transaction: TransactionView,
    pub signature: Seq<char>,
}

/// The bytes `{"parents":`.
pub open spec fn parents_key() -> Seq<u8> {
    seq![0x7bu8, 0x22, 0x70, 0x61, 0x72, 0x65, 0x6e, 0x74, 0x73, 0x22, 0x3a]
}

/// The bytes `,"sender":`.
pub open spec fn sender_key() -> Seq<u8> {
    seq![0x2cu8, 0x22, 0x73, 0x65, 0x6e, 0x64, 0x65, 0x72, 0x22, 0x3a]
}

/// The bytes `,"timestamp":`.
pub open spec fn timestamp_key() -> Seq<u8> {
    seq![0x2cu8, 0x22, 0x74, 0x69, 0x6d, 0x65, 0x73, 0x74, 0x61, 0x6d, 0x70, 0x22, 0x3a]
}

/// The bytes `,"amount":`.
pub open spec fn amount_key() -> Seq<u8> {
    seq![0x2cu8, 0x22, 0x61, 0x6d, 0x6f, 0x75, 0x6e, 0x74, 0x22, 0x3a]
}

/// The bytes `,"receiver":`.
pub open spec fn receiver_key() -> Seq<u8> {
    seq![0x2cu8, 0x22, 0x72, 0x65, 0x63, 0x65, 0x69, 0x76, 0x65, 0x72, 0x22, 0x3a]
}

/// The bytes `{"transaction":`.
pub open spec fn transaction_key() -> Seq<u8> {
    seq![0x7bu8, 0x22, 0x74, 0x72, 0x61, 0x6e, 0x73, 0x61, 0x63, 0x74, 0x69, 0x6f, 0x6e, 0x22, 0x3a]
}

/// The bytes `,"signature":`.
pub open spec fn signature_key() -> Seq<u8> {
    seq![0x2cu8, 0x22, 0x73, 0x69, 0x67, 0x6e, 0x61, 0x74, 0x75, 0x72, 0x65, 0x22, 0x3a]
}

/// The canonical encoding of a payload: the bytes that are signed.
pub open spec fn payload_json(t: TransactionView) -> Seq<u8> {
    parents_key() + string_array(t.parents) + sender_key() + quoted(t.sender) + timestamp_key()
        + decimal(t.timestamp as nat) + amount_key() + decimal(t.amount as nat) + receiver_key()
        + quoted(t.receiver) + seq![0x7du8]
}

/// The canonical encoding of a signed transaction: the bytes that are hashed.
pub open spec fn signed_json(s: SignedView) -> Seq<u8> {
    transaction_key() + payload_json(s.transaction) + signature_key() + quoted(s.signature)
        + seq![0x7du8]
}

/// The content hash of a signed transaction, by which children name it.
pub open spec fn tx_hash(s: SignedView) -> Seq<char> {
    hash_text(signed_json(s))
}

/// Equal records have equal encodings and equal content hashes, so hashing
/// or encoding the same record again gives the same result.
pub proof fn lemma_encoding_deterministic(a: SignedView, b: SignedView)
    requires
        a == b,
    ensures
        payload_json(a.transaction) == payload_json(b.transaction),
        signed_json(a) == signed_json(b),
        tx_hash(a) == tx_hash(b),
{
}

/// What follows the sender's key in a payload's encoding, then `r`.
spec fn after_sender_key(t: TransactionView, r: Seq<u8>) -> Seq<u8> {
    quoted(t.sender) + (timestamp_key() + after_timestamp_key(t, r))
}

spec fn after_timestamp_key(t: TransactionView, r: Seq<u8>) -> Seq<u8> {
    decimal(t.timestamp as nat) + (amount_key() + after_amount_key(t, r))
}

spec fn after_amount_key(t: TransactionView, r: Seq<u8>) -> Seq<u8> {
    decimal(t.amount as nat) + (receiver_key() + (quoted(t.receiver) + (seq![0x7du8] + r)))
}

proof fn lemma_payload_layout(t: TransactionView, r: Seq<u8>)
    ensures
        payload_json(t) + r == (parents_key() + seq![0x5bu8]) + (joined(t.parents) + (seq![0x5du8]
            + (sender_key() + after_sender_key(t, r)))),
{
    assert(payload_json(t) + r =~= (parents_key() + seq![0x5bu8]) + (joined(t.parents) + (seq![
        0x5du8,
    ] + (sender_key() + after_sender_key(t, r)))));
}

/// The canonical encoding of a payload is read back exactly, and so is what
/// follows it.
pub proof fn lemma_payload_prefix(t1: TransactionView, t2: TransactionView, r1: Seq<u8>, r2: Seq<u8>)
    requires
        payload_json(t1) + r1 == payload_json(t2) + r2,
    ensures
        t1 == t2,
        r1 == r2,
{
    lemma_payload_layout(t1, r1);
    lemma_payload_layout(t2, r2);
    let k = parents_key() + seq![0x5bu8];
    lemma_drop_prefix(
        k,
        joined(t1.parents) + (seq![0x5du8] + (sender_key() + after_sender_key(t1, r1))),
        joined(t2.parents) + (seq![0x5du8] + (sender_key() + after_sender_key(t2, r2))),
    );
    lemma_joined_prefix(
        t1.parents,
        t2.parents,
        sender_key() + after_sender_key(t1, r1),
        sender_key() + after_sender_key(t2, r2),
    );
    lemma_drop_prefix(sender_key(), after_sender_key(t1, r1), after_sender_key(t2, r2));
    lemma_quoted_prefix(
        t1.sender,
        t2.sender,
        timestamp_key() + after_timestamp_key(t1, r1),
        timestamp_key() + after_timestamp_key(t2, r2),
    );
    lemma_drop_prefix(timestamp_key(), after_timestamp_key(t1, r1), after_timestamp_key(t2, r2));
    assert((amount_key() + after_amount_key(t1, r1))[0] == 0x2c);
    assert((amount_key() + after_amount_key(t2, r2))[0] == 0x2c);
    lemma_decimal_prefix(
        t1.timestamp as nat,
        t2.timestamp as nat,
        amount_key() + after_amount_key(t1, r1),
        amount_key() + after_amount_key(t2, r2),
    );
    lemma_drop_prefix(amount_key(), after_amount_key(t1, r1), after_amount_key(t2, r2));
    let q1 = quoted(t1.receiver) + (seq![0x7du8] + r1);
    let q2 = quoted(t2.receiver) + (seq![0x7du8] + r2);
    assert((receiver_key() + q1)[0] == 0x2c);
    assert((receiver_key() + q2)[0] == 0x2c);
    lemma_decimal_prefix(t1.amount as nat, t2.amount as nat, receiver_key() + q1, receiver_key() + q2);
    lemma_drop_prefix(receiver_key(), q1, q2);
    lemma_quoted_prefix(t1.receiver, t2.receiver, seq![0x7du8] + r1, seq![0x7du8] + r2);
    lemma_drop_prefix(seq![0x7du8], r1, r2);
}

/// No two distinct payloads have the same canonical encoding: the bytes that
/// are signed determine the payload, so it can be read back from them.
pub proof fn lemma_payload_injective(t1: TransactionView, t2: TransactionView)
    requires
        payload_json(t1) == payload_json(t2),
    ensures
        t1 == t2,
{
    assert(payload_json(t1) + Seq::<u8>::empty() =~= payload_json(t1));
    assert(payload_json(t2) + Seq::<u8>::empty() =~= payload_json(t2));
    lemma_payload_prefix(t1, t2, Seq::empty(), Seq::empty());
}

/// No two distinct signed transactions have the same canonical encoding: the
/// bytes that are hashed determine payload and signature.
pub proof fn lemma_signed_injective(a: SignedView, b: SignedView)
    requires
        signed_json(a) == signed_json(b),
    ensures
        a == b,
{
    let ra = signature_key() + (quoted(a.signature) + seq![0x7du8]);
    let rb = signature_key() + (quoted(b.signature) + seq![0x7du8]);
    assert(signed_json(a) =~= transaction_key() + (payload_json(a.transaction) + ra));
    assert(signed_json(b) =~= transaction_key() + (payload_json(b.transaction) + rb));
    lemma_drop_prefix(transaction_key(), payload_json(a.transaction) + ra, payload_json(b.transaction) + rb);
    lemma_payload_prefix(a.transaction, b.transaction, ra, rb);
    lemma_drop_prefix(signature_key(), quoted(a.signature) + seq![0x7du8], quoted(b.signature) + seq![0x7du8]);
    lemma_quoted_prefix(a.signature, b.signature, seq![0x7du8], seq![0x7du8]);
}

/// Appends a run of bytes.
fn push_bytes(out: &mut Vec<u8>, bytes: &[u8])
    ensures
        final(out)@ == old(out)@ + bytes@,
{
    let ghost start = out@;
    let mut i: usize = 0;
    while i < bytes.len()
        invariant
            i <= bytes@.len(),
            out@ == start + bytes@.take(i as int),
        decreases bytes@.len() - i,
    {
        out.push(bytes[i]);
        i = i + 1;
        assert(out@ =~= start + bytes@.take(i as int));
    }
    assert(bytes@.take(i as int) =~= bytes@);
}

/// A transaction payload. It does not change once built.
#[derive(Clone, Debug)]
pub struct Transaction {
    parents: Vec<String>,
    sender: String,
    timestamp: u64,
    amount: u64,
    receiver: String,
}

impl View for Transaction {
    type V = TransactionView;

    closed spec fn view(&self) -> TransactionView {
        TransactionView {
            parents: self.parents@.map_values(|p: String| p@),
            sender: self.sender@,
            timestamp: self.timestamp,
            amount: self.amount,
            receiver: self.receiver@,
        }
    }
}

/// A payload together with the Base64 text of its signature.
#[derive(Clone, Debug)]
pub struct SignedTransaction {
    transaction: Transaction,
    signature: String,
}

impl View for SignedTransaction {
    type V = SignedView;

    closed spec fn view(&self) -> SignedView {
        SignedView { transaction: self.transaction@, signature: self.signature@ }
    }
}

/// Appends the canonical encoding of a payload.
fn push_payload(out: &mut Vec<u8>, t: &Transaction)
    ensures
        final(out)@ == old(out)@ + payload_json(t@),
{
    let ghost start = out@;
    push_bytes(out, &[0x7b, 0x22, 0x70, 0x61, 0x72, 0x65, 0x6e, 0x74, 0x73, 0x22, 0x3a]);
    push_string_array(out, &t.parents);
    push_bytes(out, &[0x2c, 0x22, 0x73, 0x65, 0x6e, 0x64, 0x65, 0x72, 0x22, 0x3a]);
    push_quoted(out, t.sender.as_str());
    push_bytes(out, &[0x2c, 0x22, 0x74, 0x69, 0x6d, 0x65, 0x73, 0x74, 0x61, 0x6d, 0x70, 0x22, 0x3a]);
    push_decimal(out, t.timestamp);
    push_bytes(out, &[0x2c, 0x22, 0x61, 0x6d, 0x6f, 0x75, 0x6e, 0x74, 0x22, 0x3a]);
    push_decimal(out, t.amount);
    push_bytes(out, &[0x2c, 0x22, 0x72, 0x65, 0x63, 0x65, 0x69, 0x76, 0x65, 0x72, 0x22, 0x3a]);
    push_quoted(out, t.receiver.as_str());
    out.push(0x7d);
    assert(out@ =~= start + payload_json(t@));
}

/// The shape that the signature scheme in use gives to its binary values.
pub struct SchemeShape {
    /// The exact length of a public key.
    pub public_key_len: usize,
    /// The greatest length of a signature.
    pub max_signature_len: usize,
}

/// Which externally supplied value could not be read.
#[derive(PartialEq, Eq, Structural, Clone, Copy, Debug)]
pub enum DecodeError {
    /// The sender is not the Base64 text of a public key of the right length.
    Key,
    /// The signature is not the Base64 text of a signature of a fitting length.
    Signature,
}

/// The outcome of checking a signed transaction.
#[derive(PartialEq, Eq, Structural, Clone, Copy, Debug)]
pub enum Verification {
    /// The signature is the sender's over the payload.
    Valid,
    /// Well-formed, but the signature does not match.
    Invalid,
    /// The key or the signature could not be read.
    Malformed(DecodeError),
}

/// What a signature verifier is handed: the signed bytes, the sender's key
/// and the signature, all in binary form.
pub struct SignedMessage {
    pub message: Vec<u8>,
    pub public_key: Vec<u8>,
    pub signature: Vec<u8>,
}

/// The sender's public key, if its text decodes to a key of the right length.
pub open spec fn key_bytes(s: SignedView, shape: SchemeShape) -> Option<Seq<u8>> {
    match base64_decoded_of(s.transaction.sender) {
        Some(b) => if b.len() == shape.public_key_len {
            Some(b)
        } else {
            None
        },
        None => None,
    }
}

/// The signature, if its text decodes to bytes of a length the scheme allows.
pub open spec fn signature_bytes(s: SignedView, shape: SchemeShape) -> Option<Seq<u8>> {
    match base64_decoded_of(s.signature) {
        Some(b) => if b.len() <= shape.max_signature_len {
            Some(b)
        } else {
            None
        },
        None => None,
    }
}

/// The verifier's input for a signed transaction, or the first value that
/// could not be read: the key before the signature.
pub open spec fn expected_input(s: SignedView, shape: SchemeShape) -> Result<
    (Seq<u8>, Seq<u8>, Seq<u8>),
    DecodeError,
> {
    match key_bytes(s, shape) {
        None => Err(DecodeError::Key),
        Some(k) => match signature_bytes(s, shape) {
            None => Err(DecodeError::Signature),
            Some(g) => Ok((payload_json(s.transaction), k, g)),
        },
    }
}

impl Verification {
    /// Combines the checks made before verification with the verifier's
    /// answer on the message that they produced.
    pub fn decide(input: &Result<SignedMessage, DecodeError>, accepted: bool) -> (r: Verification)
        ensures
            r == match input {
                Err(e) => Verification::Malformed(*e),
                Ok(_) => if accepted {
                    Verification::Valid
                } else {
                    Verification::Invalid
                },
            },
    {
        match input {
            Err(e) => Verification::Malformed(*e),
            Ok(_) => if accepted {
                Verification::Valid
            } else {
                Verification::Invalid
            },
        }
    }
}

impl Transaction {
    /// A payload that spends to `receiver_key`, referring to `parents` by their
    /// content hashes; the keys are stored as Base64 text.
    pub fn new(
        parents: &[SignedTransaction],
        sender_key: &[u8],
        amount: u64,
        receiver_key: &[u8],
        timestamp: u64,
    ) -> (r: Transaction)
        requires
            sender_key@.len() <= usize::MAX / 4,
            receiver_key@.len() <= usize::MAX / 4,
        ensures
            r@ == (TransactionView {
                parents: parents@.map_values(|p: SignedTransaction| tx_hash(p@)),
                sender: base64_of(sender_key@),
                timestamp,
                amount,
                receiver: base64_of(receiver_key@),
            }),
    {
        let mut hashes: Vec<String> = Vec::new();
        let mut i: usize = 0;
        while i < parents.len()
            invariant
                i <= parents@.len(),
                hashes@.len() == i,
                forall|j: int| 0 <= j < i ==> hashes@[j]@ == tx_hash(#[trigger] parents@[j]@),
            decreases parents@.len() - i,
        {
            let h = parents[i].hash();
            hashes.push(h);
            i = i + 1;
        }
        let t = Transaction {
            parents: hashes,
            sender: base64_encode(sender_key),
            timestamp,
            amount,
            receiver: base64_encode(receiver_key),
        };
        assert(t@.parents =~= parents@.map_values(|p: SignedTransaction| tx_hash(p@)));
        t
    }

    /// A payload from its stored fields, as read back from a record.
    pub fn from_parts(
        parents: Vec<String>,
        sender: String,
        timestamp: u64,
        amount: u64,
        receiver: String,
    ) -> (r: Transaction)
        ensures
            r@ == (TransactionView {
                parents: parents@.map_values(|p: String| p@),
                sender: sender@,
                timestamp,
                amount,
                receiver: receiver@,
            }),
    {
        Transaction { parents, sender, timestamp, amount, receiver }
    }

    /// The canonical encoding of the payload alone: the bytes to sign.
    pub fn encode(&self) -> (r: Vec<u8>)
        ensures
            r@ == payload_json(self@),
    {
        let mut out: Vec<u8> = Vec::new();
        push_payload(&mut out, self);
        assert(out@ =~= payload_json(self@));
        out
    }

    /// Attaches a signature that a signer made over `self.encode()`; it is
    /// stored as Base64 text.
    pub fn sign(self, signature: &[u8]) -> (r: SignedTransaction)
        requires
            signature@.len() <= usize::MAX / 4,
        ensures
            r@ == (SignedView { transaction: self@, signature: base64_of(signature@) }),
    {
        let text = base64_encode(signature);
        SignedTransaction { transaction: self, signature: text }
    }

    pub fn parents(&self) -> (r: &Vec<String>)
        ensures
            r@.map_values(|p: String| p@) == self@.parents,
    {
        &self.parents
    }

    pub fn sender(&self) -> (r: &String)
        ensures
            r@ == self@.sender,
    {
        &self.sender
    }

    pub fn timestamp(&self) -> (r: u64)
        ensures
            r == self@.timestamp,
    {
        self.timestamp
    }

    pub fn amount(&self) -> (r: u64)
        ensures
            r == self@.amount,
    {
        self.amount
    }

    pub fn receiver(&self) -> (r: &String)
        ensures
            r@ == self@.receiver,
    {
        &self.receiver
    }
}

impl SignedTransaction {
    /// A signed transaction from a payload and the Base64 text of its signature.
    pub fn from_parts(transaction: Transaction, signature: String) -> (r: SignedTransaction)
        ensures
            r@ == (SignedView { transaction: transaction@, signature: signature@ }),
    {
        SignedTransaction { transaction, signature }
    }

    /// The canonical encoding of payload and signature together.
    pub fn encode(&self) -> (r: Vec<u8>)
        ensures
            r@ == signed_json(self@),
    {
        let ghost v = self@;
        let mut out: Vec<u8> = Vec::new();
        push_bytes(
            &mut out,
            &[0x7b, 0x22, 0x74, 0x72, 0x61, 0x6e, 0x73, 0x61, 0x63, 0x74, 0x69, 0x6f, 0x6e, 0x22, 0x3a],
        );
        push_payload(&mut out, &self.transaction);
        push_bytes(&mut out, &[0x2c, 0x22, 0x73, 0x69, 0x67, 0x6e, 0x61, 0x74, 0x75, 0x72, 0x65, 0x22, 0x3a]);
        push_quoted(&mut out, self.signature.as_str());
        out.push(0x7d);
        assert(out@ =~= signed_json(v));
        out
    }

    /// The content hash: BLAKE3 over the canonical encoding of the whole
    /// signed transaction, as Base64 text.
    pub fn hash(&self) -> (r: String)
        ensures
            r@ == tx_hash(self@),
    {
        let bytes = self.encode();
        content_hash(bytes.as_slice())
    }

    /// Reads the sender's key and the signature from their Base64 text and
    /// checks their lengths against the scheme; on success, hands back what a
    /// verifier needs, with the payload's canonical encoding as the message.
    pub fn verification_input(&self, shape: &SchemeShape) -> (r: Result<SignedMessage, DecodeError>)
        ensures
            match (r, expected_input(self@, *shape)) {
                (Ok(m), Ok((msg, k, g))) => m.message@ == msg && m.public_key@ == k
                    && m.signature@ == g,
                (Err(e), Err(f)) => e == f,
                _ => false,
            },
    {
        let key = match base64_decode(self.transaction.sender.as_str()) {
            Ok(k) => k,
            Err(_) => return Err(DecodeError::Key),
        };
        if key.len() != shape.public_key_len {
            return Err(DecodeError::Key);
        }
        let signature = match base64_decode(self.signature.as_str()) {
            Ok(g) => g,
            Err(_) => return Err(DecodeError::Signature),
        };
        if signature.len() > shape.max_signature_len {
            return Err(DecodeError::Signature);
        }
        Ok(SignedMessage { message: self.transaction.encode(), public_key: key, signature })
    }

    pub fn transaction(&self) -> (r: &Transaction)
        ensures
            r@ == self@.transaction,
    {
        &self.transaction
    }

    pub fn signature(&self) -> (r: &String)
        ensures
            r@ == self@.signature,
    {
        &self.signature
    }
}

} // verus!
