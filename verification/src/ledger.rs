//! The ledger: signed, hash-chained entries, the rules that an entry must
//! meet to follow a chain, and the keypair helpers that sign appends.
use vstd::prelude::*;
use vstd::utf8::encode_utf8;

use crate::crypto::base64_decode;
use crate::crypto::base64_encode;
use crate::crypto::base64_failure_of;
use crate::crypto::ed25519_accepts;
use crate::crypto::ed25519_point_check;
use crate::crypto::ed25519_point_decodes;
use crate::crypto::ed25519_public_key;
use crate::crypto::ed25519_public_key_of;
use crate::crypto::ed25519_sign;
use crate::crypto::ed25519_signature_of;
use crate::crypto::ed25519_verify;
use crate::crypto::hex_encode;
use crate::crypto::random_secret_key;
use crate::crypto::sha256;
use crate::crypto::sha256_digest_of;
use crate::crypto::signing_key_from_bytes;
use crate::crypto::signing_key_secret;
use crate::encoding::base64_text;
use crate::encoding::base64_value;
use crate::encoding::be_bytes;
use crate::encoding::be_word;
use crate::encoding::Base64Failure;
use crate::encoding::hex_text;
use crate::encoding::is_lower_hex;
use crate::encoding::lemma_hex_text_shape;
use crate::encoding::push_be_bytes;
use crate::encoding::push_bytes;
use crate::text::blank;
use crate::text::is_blank;

verus! {

/// A base64-encoded Ed25519 keypair.
#[derive(Debug, Clone, PartialEq, Eq)]
pub struct Keypair {
    pub public_key: String,
    pub secret_key: String,
}

/// A signed request to append a payload to a ledger.
#[derive(Debug, Clone)]
pub struct AppendRequest {
    pub payload: String,
    pub public_key: String,
    pub signature: String,
    pub timestamp: u64,
}

/// One record of the ledger.
#[derive(Debug, Clone)]
pub struct LedgerEntry {
    pub index: u64,
    pub timestamp: u64,
    pub payload: String,
    pub prev_hash: String,
    pub hash: String,
    pub public_key: String,
    pub signature: String,
}

/// The entries of a ledger. Every entry follows the chain before it (its
/// index, previous hash, signature and hash are the ones the chain expects).
#[derive(Debug)]
pub struct Ledger {
    entries: Vec<LedgerEntry>,
}

/// What a client signs to append `payload` at `timestamp`.
#[derive(Debug, Clone)]
pub struct SignableContent {
    pub index: u64,
    pub prev_hash: String,
    pub timestamp: u64,
    pub payload: String,
}

/// Why a ledger operation was refused.
#[derive(Debug)]
#[allow(inconsistent_fields)]
pub enum LedgerError {
    Base64Decode(Base64Failure),
    InvalidPublicKeyLength(usize),
    InvalidSecretKeyLength(usize),
    InvalidSignatureLength(usize),
    InvalidPublicKey,
    SignatureVerificationFailed,
    HashMismatch { expected: String, found: String },
    PrevHashMismatch { expected: String, found: String },
    IndexMismatch { expected: u64, found: u64 },
    TimestampRegression { previous: u64, candidate: u64 },
}

/// The mathematical value of an entry: its numbers and the characters of its
/// strings.
pub struct EntryView {
    pub index: u64,
    pub timestamp: u64,
    pub payload: Seq<char>,
    pub prev_hash: Seq<char>,
    pub hash: Seq<char>,
    pub public_key: Seq<char>,
    pub signature: Seq<char>,
}

/// The mathematical value of an append request.
pub struct RequestView {
    pub payload: Seq<char>,
    pub public_key: Seq<char>,
    pub signature: Seq<char>,
    pub timestamp: u64,
}

/// The value of a `LedgerError`: the same variants, with the characters of
/// its strings.
#[allow(inconsistent_fields)]
pub enum Fault {
    Base64Decode(Base64Failure),
    InvalidPublicKeyLength(usize),
    InvalidSecretKeyLength(usize),
    InvalidSignatureLength(usize),
    InvalidPublicKey,
    SignatureVerificationFailed,
    HashMismatch { expected: Seq<char>, found: Seq<char> },
    PrevHashMismatch { expected: Seq<char>, found: Seq<char> },
    IndexMismatch { expected: u64, found: u64 },
    TimestampRegression { previous: u64, candidate: u64 },
}

impl View for LedgerEntry {
    type V = EntryView;

    open spec fn view(&self) -> EntryView {
        EntryView {
            index: self.index,
            timestamp: self.timestamp,
            payload: self.payload@,
            prev_hash: self.prev_hash@,
            hash: self.hash@,
            public_key: self.public_key@,
            signature: self.signature@,
        }
    }
}

impl View for AppendRequest {
    type V = RequestView;

    open spec fn view(&self) -> RequestView {
        RequestView {
            payload: self.payload@,
            public_key: self.public_key@,
            signature: self.signature@,
            timestamp: self.timestamp,
        }
    }
}

impl View for Ledger {
    type V = Seq<EntryView>;

    closed spec fn view(&self) -> Seq<EntryView> {
        views(self.entries@)
    }
}

impl LedgerError {
    /// The value of this error.
    pub open spec fn fault(&self) -> Fault {
        match self {
            LedgerError::Base64Decode(failure) => Fault::Base64Decode(*failure),
            LedgerError::InvalidPublicKeyLength(n) => Fault::InvalidPublicKeyLength(*n),
            LedgerError::InvalidSecretKeyLength(n) => Fault::InvalidSecretKeyLength(*n),
            LedgerError::InvalidSignatureLength(n) => Fault::InvalidSignatureLength(*n),
            LedgerError::InvalidPublicKey => Fault::InvalidPublicKey,
            LedgerError::SignatureVerificationFailed => Fault::SignatureVerificationFailed,
            LedgerError::HashMismatch { expected, found } => Fault::HashMismatch {
                expected: expected@,
                found: found@,
            },
            LedgerError::PrevHashMismatch { expected, found } => Fault::PrevHashMismatch {
                expected: expected@,
                found: found@,
            },
            LedgerError::IndexMismatch { expected, found } => Fault::IndexMismatch {
                expected: *expected,
                found: *found,
            },
            LedgerError::TimestampRegression { previous, candidate } => Fault::TimestampRegression {
                previous: *previous,
                candidate: *candidate,
            },
        }
    }
}

/// The values of a sequence of entries.
pub open spec fn views(entries: Seq<LedgerEntry>) -> Seq<EntryView> {
    entries.map_values(|e: LedgerEntry| e@)
}

/// The previous hash of the first entry.
pub open spec fn genesis_hash() -> Seq<char> {
    seq!['G', 'E', 'N', 'E', 'S', 'I', 'S']
}

/// The bytes that are signed for an entry: index and timestamp as big-endian
/// words, then the UTF-8 bytes of the previous hash and of the payload.
pub open spec fn message_bytes(
    index: u64,
    timestamp: u64,
    prev_hash: Seq<char>,
    payload: Seq<char>,
) -> Seq<u8> {
    be_bytes(index) + be_bytes(timestamp) + encode_utf8(prev_hash) + encode_utf8(payload)
}

/// The bytes that are hashed for an entry: index and timestamp as big-endian
/// words, then the UTF-8 bytes of the previous hash, payload, public key and
/// signature.
pub open spec fn hash_preimage(
    index: u64,
    timestamp: u64,
    payload: Seq<char>,
    prev_hash: Seq<char>,
    public_key: Seq<char>,
    signature: Seq<char>,
) -> Seq<u8> {
    be_bytes(index) + be_bytes(timestamp) + encode_utf8(prev_hash) + encode_utf8(payload)
        + encode_utf8(public_key) + encode_utf8(signature)
}

/// The hash of an entry: the lower-case hex of the SHA-256 of its preimage.
pub open spec fn entry_hash(
    index: u64,
    timestamp: u64,
    payload: Seq<char>,
    prev_hash: Seq<char>,
    public_key: Seq<char>,
    signature: Seq<char>,
) -> Seq<char> {
    hex_text(sha256_digest_of(hash_preimage(index, timestamp, payload, prev_hash, public_key, signature)))
}

/// The hash that an entry carries must equal its computed hash.
pub open spec fn hash_of(e: EntryView) -> Seq<char> {
    entry_hash(e.index, e.timestamp, e.payload, e.prev_hash, e.public_key, e.signature)
}

/// Why a base64 public key and signature do not verify `message`, checked in
/// this order: the key's base64, its length, its point, the signature's
/// base64, its length, the signature itself.
pub open spec fn signature_fault(
    message: Seq<u8>,
    public_key: Seq<char>,
    signature: Seq<char>,
) -> Option<Fault> {
    match base64_value(public_key) {
        None => Some(Fault::Base64Decode(base64_failure_of(public_key))),
        Some(pk) => if pk.len() != 32 {
            Some(Fault::InvalidPublicKeyLength(pk.len() as usize))
        } else if !ed25519_point_decodes(pk) {
            Some(Fault::InvalidPublicKey)
        } else {
            match base64_value(signature) {
                None => Some(Fault::Base64Decode(base64_failure_of(signature))),
                Some(sig) => if sig.len() != 64 {
                    Some(Fault::InvalidSignatureLength(sig.len() as usize))
                } else if !ed25519_accepts(pk, message, sig) {
                    Some(Fault::SignatureVerificationFailed)
                } else {
                    None
                },
            }
        },
    }
}

/// The index that the next entry of `chain` must carry.
pub open spec fn next_index(chain: Seq<EntryView>) -> int {
    if chain.len() == 0 {
        0
    } else {
        chain.last().index + 1
    }
}

/// The previous hash that the next entry of `chain` must carry.
pub open spec fn next_prev_hash(chain: Seq<EntryView>) -> Seq<char> {
    if chain.len() == 0 {
        genesis_hash()
    } else {
        chain.last().hash
    }
}

/// Why entry `e` cannot follow `chain`, checked in this order: index,
/// previous hash, signature, hash. `None` when it can.
pub open spec fn entry_fault(chain: Seq<EntryView>, e: EntryView) -> Option<Fault> {
    if e.index != next_index(chain) {
        Some(Fault::IndexMismatch { expected: next_index(chain) as u64, found: e.index })
    } else if e.prev_hash != next_prev_hash(chain) {
        Some(Fault::PrevHashMismatch { expected: next_prev_hash(chain), found: e.prev_hash })
    } else {
        match signature_fault(
            message_bytes(e.index, e.timestamp, e.prev_hash, e.payload),
            e.public_key,
            e.signature,
        ) {
            Some(f) => Some(f),
            None => if e.hash != hash_of(e) {
                Some(Fault::HashMismatch { expected: hash_of(e), found: e.hash })
            } else {
                None
            },
        }
    }
}

/// Every entry follows the entries before it.
pub open spec fn chain_valid(chain: Seq<EntryView>) -> bool {
    forall|i: int| 0 <= i < chain.len() ==> #[trigger] entry_fault(chain.take(i), chain[i]) is None
}

/// The first reason, in order, why `chain` is not a valid chain.
pub open spec fn load_fault(chain: Seq<EntryView>) -> Option<Fault>
    decreases chain.len(),
{
    if chain.len() == 0 {
        None
    } else {
        match load_fault(chain.drop_last()) {
            Some(f) => Some(f),
            None => entry_fault(chain.drop_last(), chain.last()),
        }
    }
}

/// What appending `request` to `chain` gives: the new entry, or why it is
/// refused (a timestamp before the last entry's, then the signature checks).
pub open spec fn append_outcome(chain: Seq<EntryView>, request: RequestView) -> Result<EntryView, Fault> {
    let index = next_index(chain) as u64;
    let prev_hash = next_prev_hash(chain);
    if chain.len() > 0 && request.timestamp < chain.last().timestamp {
        Err(Fault::TimestampRegression { previous: chain.last().timestamp, candidate: request.timestamp })
    } else {
        match signature_fault(
            message_bytes(index, request.timestamp, prev_hash, request.payload),
            request.public_key,
            request.signature,
        ) {
            Some(f) => Err(f),
            None => Ok(
                EntryView {
                    index,
                    timestamp: request.timestamp,
                    payload: request.payload,
                    prev_hash,
                    hash: entry_hash(
                        index,
                        request.timestamp,
                        request.payload,
                        prev_hash,
                        request.public_key,
                        request.signature,
                    ),
                    public_key: request.public_key,
                    signature: request.signature,
                },
            ),
        }
    }
}

/// The 32 secret-key bytes that a base64 text holds, or why it holds none.
pub open spec fn secret_key_bytes(text: Seq<char>) -> Result<Seq<u8>, Fault> {
    match base64_value(text) {
        None => Err(Fault::Base64Decode(base64_failure_of(text))),
        Some(bytes) => if bytes.len() != 32 {
            Err(Fault::InvalidSecretKeyLength(bytes.len() as usize))
        } else {
            Ok(bytes)
        },
    }
}

/// The request that signs `payload` at `timestamp` for the next entry of
/// `chain` with the base64 secret key `secret`.
pub open spec fn prepare_outcome(
    chain: Seq<EntryView>,
    payload: Seq<char>,
    secret: Seq<char>,
    timestamp: u64,
) -> Result<RequestView, Fault> {
    match secret_key_bytes(secret) {
        Err(f) => Err(f),
        Ok(key) => Ok(
            RequestView {
                payload,
                public_key: base64_text(ed25519_public_key_of(key)),
                signature: base64_text(
                    ed25519_signature_of(
                        key,
                        message_bytes(next_index(chain) as u64, timestamp, next_prev_hash(chain), payload),
                    ),
                ),
                timestamp,
            },
        ),
    }
}

/// States that `r` is `Ok(())` when `fault` is `None`, and otherwise an error
/// with that value.
pub open spec fn reports(r: Result<(), LedgerError>, fault: Option<Fault>) -> bool {
    match fault {
        None => r is Ok,
        Some(f) => r matches Err(e) && e.fault() == f,
    }
}

/// In a valid chain the entry at position `i` has index `i` and links to the
/// hash of the entry before it (to the genesis marker for the first).
pub proof fn lemma_chain_links(chain: Seq<EntryView>)
    requires
        chain_valid(chain),
    ensures
        forall|i: int| 0 <= i < chain.len() ==> #[trigger] chain[i].index == i,
        chain.len() > 0 ==> chain[0].prev_hash == genesis_hash(),
        forall|i: int| 0 < i < chain.len() ==> #[trigger] chain[i].prev_hash == chain[i - 1].hash,
    decreases chain.len(),
{
    if chain.len() > 0 {
        let prefix = chain.drop_last();
        assert forall|i: int| 0 <= i < prefix.len() implies #[trigger] entry_fault(prefix.take(i), prefix[i]) is None by {
            assert(prefix.take(i) =~= chain.take(i));
            assert(entry_fault(chain.take(i), chain[i]) is None);
        }
        lemma_chain_links(prefix);
        let n = chain.len() - 1;
        assert(entry_fault(chain.take(n), chain[n]) is None);
        assert(chain.take(n) =~= prefix);
        assert forall|i: int| 0 <= i < chain.len() implies #[trigger] chain[i].index == i by {
            if i < n {
                assert(chain[i] == prefix[i]);
            }
        }
        assert forall|i: int| 0 < i < chain.len() implies #[trigger] chain[i].prev_hash == chain[i - 1].hash by {
            if i < n {
                assert(chain[i] == prefix[i]);
                assert(chain[i - 1] == prefix[i - 1]);
            }
        }
        if n > 0 {
            assert(chain[0] == prefix[0]);
        }
    }
}

/// The chain with one more entry that follows it is still valid.
pub proof fn lemma_chain_push(chain: Seq<EntryView>, e: EntryView)
    requires
        chain_valid(chain),
        entry_fault(chain, e) is None,
    ensures
        chain_valid(chain.push(e)),
{
    let c = chain.push(e);
    assert forall|i: int| 0 <= i < c.len() implies #[trigger] entry_fault(c.take(i), c[i]) is None by {
        if i < chain.len() {
            assert(c.take(i) =~= chain.take(i));
            assert(entry_fault(chain.take(i), chain[i]) is None);
        } else {
            assert(c.take(i) =~= chain);
        }
    }
}

/// A chain has no load fault exactly when it is valid.
pub proof fn lemma_load_fault_valid(chain: Seq<EntryView>)
    ensures
        load_fault(chain) is None <==> chain_valid(chain),
    decreases chain.len(),
{
    if chain.len() > 0 {
        let prefix = chain.drop_last();
        let n = chain.len() - 1;
        lemma_load_fault_valid(prefix);
        assert(chain.take(n) =~= prefix);
        if chain_valid(chain) {
            assert forall|i: int| 0 <= i < prefix.len() implies #[trigger] entry_fault(prefix.take(i), prefix[i]) is None by {
                assert(prefix.take(i) =~= chain.take(i));
                assert(entry_fault(chain.take(i), chain[i]) is None);
            }
            assert(entry_fault(chain.take(n), chain[n]) is None);
        }
        if load_fault(chain) is None {
            lemma_chain_push(prefix, chain.last());
            assert(prefix.push(chain.last()) =~= chain);
        }
    }
}


/// When a prefix of a chain has a load fault, the whole chain has the same one.
pub proof fn lemma_load_fault_prefix(chain: Seq<EntryView>, k: int)
    requires
        0 <= k <= chain.len(),
        load_fault(chain.take(k)) is Some,
    ensures
        load_fault(chain) == load_fault(chain.take(k)),
    decreases chain.len(),
{
    if k == chain.len() {
        assert(chain.take(k) =~= chain);
    } else {
        let prefix = chain.drop_last();
        assert(prefix.take(k) =~= chain.take(k));
        lemma_load_fault_prefix(prefix, k);
    }
}

/// The previous hash of the first entry, as a string.
fn genesis() -> (s: String)
    ensures
        s@ == genesis_hash(),
{
    let s = "GENESIS".to_owned();
    proof {
        reveal_strlit("GENESIS");
    }
    assert(s@ =~= genesis_hash());
    s
}

/// The bytes that are signed for an entry: `index` and `timestamp` as
/// big-endian words, then the bytes of `prev_hash` and `payload`.
pub fn signing_bytes(index: u64, timestamp: u64, prev_hash: &str, payload: &[u8]) -> (bytes: Vec<u8>)
    ensures
        bytes@ == be_bytes(index) + be_bytes(timestamp) + encode_utf8(prev_hash@) + payload@,
{
    let mut bytes: Vec<u8> = Vec::new();
    push_be_bytes(&mut bytes, index);
    push_be_bytes(&mut bytes, timestamp);
    push_bytes(&mut bytes, prev_hash.as_bytes());
    push_bytes(&mut bytes, payload);
    bytes
}

/// The hash of an entry with these fields: the lower-case hex of the SHA-256
/// of index, timestamp, previous hash, payload, public key and signature.
pub fn compute_hash(
    index: u64,
    timestamp: u64,
    payload: &str,
    prev_hash: &str,
    public_key: &str,
    signature: &str,
) -> (hash: String)
    ensures
        hash@ == entry_hash(index, timestamp, payload@, prev_hash@, public_key@, signature@),
        hash@.len() == 64,
        forall|i: int| 0 <= i < hash@.len() ==> is_lower_hex(#[trigger] hash@[i]),
{
    let mut bytes: Vec<u8> = Vec::new();
    push_be_bytes(&mut bytes, index);
    push_be_bytes(&mut bytes, timestamp);
    push_bytes(&mut bytes, prev_hash.as_bytes());
    push_bytes(&mut bytes, payload.as_bytes());
    push_bytes(&mut bytes, public_key.as_bytes());
    push_bytes(&mut bytes, signature.as_bytes());
    let digest = sha256(bytes.as_slice());
    proof {
        lemma_hex_text_shape(digest@);
    }
    hex_encode(digest.as_slice())
}

/// Checks a base64 public key and signature against `message`.
pub fn verify_signature(message: &[u8], public_key_b64: &str, signature_b64: &str) -> (r: Result<
    (),
    LedgerError,
>)
    ensures
        reports(r, signature_fault(message@, public_key_b64@, signature_b64@)),
{
    let public_bytes = match base64_decode(public_key_b64) {
        Ok(bytes) => bytes,
        Err(err) => {
            return Err(LedgerError::Base64Decode(err));
        },
    };
    proof {
        lemma_base64_injective_value(public_bytes@, public_key_b64@);
    }
    if public_bytes.len() != 32 {
        return Err(LedgerError::InvalidPublicKeyLength(public_bytes.len()));
    }
    if !ed25519_point_check(public_bytes.as_slice()) {
        return Err(LedgerError::InvalidPublicKey);
    }
    let signature_bytes = match base64_decode(signature_b64) {
        Ok(bytes) => bytes,
        Err(err) => {
            return Err(LedgerError::Base64Decode(err));
        },
    };
    proof {
        lemma_base64_injective_value(signature_bytes@, signature_b64@);
    }
    if signature_bytes.len() != 64 {
        return Err(LedgerError::InvalidSignatureLength(signature_bytes.len()));
    }
    if !ed25519_verify(public_bytes.as_slice(), message, signature_bytes.as_slice()) {
        return Err(LedgerError::SignatureVerificationFailed);
    }
    Ok(())
}

proof fn lemma_base64_injective_value(bytes: Seq<u8>, text: Seq<char>)
    requires
        base64_text(bytes) == text,
    ensures
        base64_value(text) == Some(bytes),
{
    crate::encoding::lemma_base64_roundtrip(bytes);
}

/// The secret-key bytes that a base64 text holds.
pub fn decode_secret_key(secret_key_b64: &str) -> (r: Result<Vec<u8>, LedgerError>)
    ensures
        match secret_key_bytes(secret_key_b64@) {
            Ok(key) => r matches Ok(bytes) && bytes@ == key,
            Err(f) => r matches Err(e) && e.fault() == f,
        },
{
    let secret_bytes = match base64_decode(secret_key_b64) {
        Ok(bytes) => bytes,
        Err(err) => {
            return Err(LedgerError::Base64Decode(err));
        },
    };
    proof {
        lemma_base64_injective_value(secret_bytes@, secret_key_b64@);
    }
    if secret_bytes.len() != 32 {
        return Err(LedgerError::InvalidSecretKeyLength(secret_bytes.len()));
    }
    Ok(secret_bytes)
}

/// The Ed25519 signing key that a base64 text holds.
pub fn decode_signing_key(secret_key_b64: &str) -> (r: Result<ed25519_dalek::SigningKey, LedgerError>)
    ensures
        r is Ok <==> secret_key_bytes(secret_key_b64@) is Ok,
        r matches Err(e) ==> secret_key_bytes(secret_key_b64@) == Err::<Seq<u8>, Fault>(e.fault()),
        r matches Ok(key) ==> secret_key_bytes(secret_key_b64@) == Ok::<Seq<u8>, Fault>(
            signing_key_secret(key),
        ),
{
    match decode_secret_key(secret_key_b64) {
        Ok(bytes) => Ok(signing_key_from_bytes(bytes.as_slice())),
        Err(e) => Err(e),
    }
}

impl Keypair {
    /// A fresh random keypair: the base64 of a random secret key and of its
    /// public key.
    pub fn generate() -> (keypair: Keypair)
        ensures
            exists|secret: Seq<u8>|
                {
                    &&& secret.len() == 32
                    &&& #[trigger] base64_text(secret) == keypair.secret_key@
                    &&& keypair.public_key@ == base64_text(ed25519_public_key_of(secret))
                },
    {
        let secret = random_secret_key();
        let public = ed25519_public_key(secret.as_slice());
        let public_key = base64_encode(public.as_slice());
        let secret_key = base64_encode(secret.as_slice());
        Keypair { public_key, secret_key }
    }

    /// The signing key that this keypair's secret holds: it holds the decoded
    /// secret bytes, so its public key is `ed25519_public_key_of` of them.
    pub fn signing_key(&self) -> (r: Result<ed25519_dalek::SigningKey, LedgerError>)
        ensures
            r is Ok <==> secret_key_bytes(self.secret_key@) is Ok,
            r matches Err(e) ==> secret_key_bytes(self.secret_key@) == Err::<Seq<u8>, Fault>(e.fault()),
            r matches Ok(key) ==> secret_key_bytes(self.secret_key@) == Ok::<Seq<u8>, Fault>(
                signing_key_secret(key),
            ),
    {
        decode_signing_key(self.secret_key.as_str())
    }

    /// The keypair of a base64 secret key: the secret as given, and the base64
    /// of its public key.
    pub fn from_secret(secret_key_b64: &str) -> (r: Result<Keypair, LedgerError>)
        ensures
            match secret_key_bytes(secret_key_b64@) {
                Ok(key) => r matches Ok(keypair) && keypair.secret_key@ == secret_key_b64@
                    && keypair.public_key@ == base64_text(ed25519_public_key_of(key)),
                Err(f) => r matches Err(e) && e.fault() == f,
            },
    {
        let secret = match decode_secret_key(secret_key_b64) {
            Ok(bytes) => bytes,
            Err(e) => {
                return Err(e);
            },
        };
        let public = ed25519_public_key(secret.as_slice());
        Ok(Keypair { public_key: base64_encode(public.as_slice()), secret_key: secret_key_b64.to_owned() })
    }
}

impl SignableContent {
    /// The bytes to sign: index and timestamp as big-endian words, then the
    /// bytes of the previous hash and of the payload.
    pub fn message(&self) -> (bytes: Vec<u8>)
        ensures
            bytes@ == message_bytes(self.index, self.timestamp, self.prev_hash@, self.payload@),
            be_word(bytes@.take(8)) == self.index,
            be_word(bytes@.subrange(8, 16)) == self.timestamp,
    {
        proof {
            crate::laws::law_message_layout(self.index, self.timestamp, self.prev_hash@, self.payload@);
        }
        signing_bytes(self.index, self.timestamp, self.prev_hash.as_str(), self.payload.as_str().as_bytes())
    }
}


/// Why a line of a ledger file was not loaded: its text did not parse, or
/// the entry it holds does not follow the chain.
#[derive(Debug)]
pub enum LineError<E> {
    Parse(E),
    Ledger(LedgerError),
}

/// One loaded line: what the ledger and the result become for the outcome
/// `parsed` of parsing a line that is not blank.
pub open spec fn line_step<E>(
    before: Seq<EntryView>,
    parsed: Result<LedgerEntry, E>,
    r: Result<(), LineError<E>>,
    after: Seq<EntryView>,
) -> bool {
    match parsed {
        Err(e) => r == Err::<(), LineError<E>>(LineError::Parse(e)) && after == before,
        Ok(entry) => match entry_fault(before, entry@) {
            None => r is Ok && after == before.push(entry@),
            Some(f) => r matches Err(LineError::Ledger(err)) && err.fault() == f && after == before,
        },
    }
}

/// Why loading the lines of a ledger file stops.
pub enum LoadStop {
    Unparsable(Seq<char>),
    Rejected(Fault),
}

/// Loading the lines of a ledger file after `chain`, where `parse` gives the
/// entry that a line holds: blank lines are skipped, and loading stops at the
/// first line that does not parse or whose entry does not follow the chain.
pub open spec fn load_lines(
    chain: Seq<EntryView>,
    lines: Seq<Seq<char>>,
    parse: spec_fn(Seq<char>) -> Option<EntryView>,
) -> Result<Seq<EntryView>, LoadStop>
    decreases lines.len(),
{
    if lines.len() == 0 {
        Ok(chain)
    } else if blank(lines[0]) {
        load_lines(chain, lines.drop_first(), parse)
    } else {
        match parse(lines[0]) {
            None => Err(LoadStop::Unparsable(lines[0])),
            Some(e) => match entry_fault(chain, e) {
                Some(f) => Err(LoadStop::Rejected(f)),
                None => load_lines(chain.push(e), lines.drop_first(), parse),
            },
        }
    }
}

/// The lines of a file that are not blank, in order.
pub open spec fn non_blank_lines(lines: Seq<Seq<char>>) -> Seq<Seq<char>>
    decreases lines.len(),
{
    if lines.len() == 0 {
        seq![]
    } else if blank(lines[0]) {
        non_blank_lines(lines.drop_first())
    } else {
        seq![lines[0]] + non_blank_lines(lines.drop_first())
    }
}

/// A series of `append` calls on `chain`: the chain after them, and the
/// entries that the accepted calls gave back, in call order.
pub open spec fn run_appends(chain: Seq<EntryView>, requests: Seq<RequestView>) -> (Seq<EntryView>, Seq<EntryView>)
    decreases requests.len(),
{
    if requests.len() == 0 {
        (chain, seq![])
    } else {
        match append_outcome(chain, requests[0]) {
            Ok(e) => {
                let rest = run_appends(chain.push(e), requests.drop_first());
                (rest.0, seq![e] + rest.1)
            },
            Err(_) => run_appends(chain, requests.drop_first()),
        }
    }
}

impl Ledger {
    #[verifier::type_invariant]
    spec fn chain_holds(self) -> bool {
        chain_valid(views(self.entries@))
    }

    /// An empty ledger.
    pub fn new() -> (ledger: Ledger)
        ensures
            ledger@ == Seq::<EntryView>::empty(),
    {
        let ledger = Ledger { entries: Vec::new() };
        assert(ledger@ =~= Seq::<EntryView>::empty());
        ledger
    }

    /// The entries, oldest first. They form a valid chain.
    pub fn entries(&self) -> (entries: &[LedgerEntry])
        ensures
            views(entries@) == self@,
            chain_valid(self@),
    {
        proof {
            use_type_invariant(self);
        }
        self.entries.as_slice()
    }

    /// The index and previous hash that the next entry must carry.
    fn next_link(&self) -> (link: (u64, String))
        ensures
            link.0 == next_index(self@),
            link.1@ == next_prev_hash(self@),
    {
        proof {
            use_type_invariant(self);
            lemma_chain_links(self@);
        }
        let n = self.entries.len();
        if n == 0 {
            (0, genesis())
        } else {
            let last = &self.entries[n - 1];
            assert(self@[n - 1] == last@);
            assert(self@[n - 1].index == n - 1);
            (last.index + 1, last.hash.clone())
        }
    }

    /// What a client signs to append `payload` at `timestamp` as the next
    /// entry.
    pub fn signable_content(&self, payload: String, timestamp: u64) -> (content: SignableContent)
        ensures
            content.index == next_index(self@),
            content.prev_hash@ == next_prev_hash(self@),
            content.timestamp == timestamp,
            content.payload@ == payload@,
    {
        let (index, prev_hash) = self.next_link();
        SignableContent { index, prev_hash, timestamp, payload }
    }

    /// Signs `payload` at `timestamp` for the next entry with a base64 secret
    /// key. A request made this way is accepted by `append` on the same
    /// ledger unless its timestamp is before the last entry's.
    pub fn prepare_append(&self, payload: String, secret_key_b64: &str, timestamp: u64) -> (r: Result<
        AppendRequest,
        LedgerError,
    >)
        ensures
            match prepare_outcome(self@, payload@, secret_key_b64@, timestamp) {
                Ok(request) => r matches Ok(req) && req@ == request,
                Err(f) => r matches Err(e) && e.fault() == f,
            },
            r matches Ok(req) ==> (self@.len() == 0 || self@.last().timestamp <= timestamp)
                ==> append_outcome(self@, req@) is Ok,
            r matches Ok(req) ==> req.payload@ == payload@ && req.timestamp == timestamp,
            secret_key_bytes(secret_key_b64@) is Ok ==> r is Ok,
    {
        let signable = self.signable_content(payload.clone(), timestamp);
        let secret = match decode_secret_key(secret_key_b64) {
            Ok(bytes) => bytes,
            Err(e) => {
                return Err(e);
            },
        };
        let message = signable.message();
        let public = ed25519_public_key(secret.as_slice());
        let signature = ed25519_sign(secret.as_slice(), message.as_slice());
        let request = AppendRequest {
            payload,
            public_key: base64_encode(public.as_slice()),
            signature: base64_encode(signature.as_slice()),
            timestamp,
        };
        proof {
            lemma_base64_injective_value(public@, request.public_key@);
            lemma_base64_injective_value(signature@, request.signature@);
        }
        Ok(request)
    }

    /// Checks that `entry` can follow `prev_entries`: its index, previous
    /// hash, signature and hash, in this order.
    pub fn validate_entry(prev_entries: &[LedgerEntry], entry: &LedgerEntry) -> (r: Result<(), LedgerError>)
        requires
            prev_entries@.len() > 0 ==> prev_entries@.last().index < u64::MAX,
        ensures
            reports(r, entry_fault(views(prev_entries@), entry@)),
    {
        let ghost chain = views(prev_entries@);
        let (expected_index, expected_prev_hash) = match prev_entries.last() {
            Some(prev) => {
                assert(chain.last() == prev@);
                (prev.index + 1, prev.hash.clone())
            },
            None => (0, genesis()),
        };
        if entry.index != expected_index {
            return Err(LedgerError::IndexMismatch { expected: expected_index, found: entry.index });
        }
        if !(entry.prev_hash == expected_prev_hash) {
            return Err(
                LedgerError::PrevHashMismatch { expected: expected_prev_hash, found: entry.prev_hash.clone() },
            );
        }
        let message = signing_bytes(
            entry.index,
            entry.timestamp,
            entry.prev_hash.as_str(),
            entry.payload.as_str().as_bytes(),
        );
        match verify_signature(message.as_slice(), entry.public_key.as_str(), entry.signature.as_str()) {
            Ok(()) => {},
            Err(e) => {
                return Err(e);
            },
        }
        let expected_hash = compute_hash(
            entry.index,
            entry.timestamp,
            entry.payload.as_str(),
            entry.prev_hash.as_str(),
            entry.public_key.as_str(),
            entry.signature.as_str(),
        );
        if !(entry.hash == expected_hash) {
            return Err(LedgerError::HashMismatch { expected: expected_hash, found: entry.hash.clone() });
        }
        Ok(())
    }

    /// Puts an entry that follows the chain at its end.
    fn push_entry(&mut self, entry: LedgerEntry)
        requires
            entry_fault(old(self)@, entry@) is None,
        ensures
            final(self)@ == old(self)@.push(entry@),
            final(self).entries@.len() == old(self).entries@.len() + 1,
    {
        proof {
            use_type_invariant(&*self);
            lemma_chain_push(self@, entry@);
            assert(views(self.entries@.push(entry)) =~= self@.push(entry@));
        }
        let mut entries: Vec<LedgerEntry> = Vec::new();
        std::mem::swap(&mut entries, &mut self.entries);
        entries.push(entry);
        self.entries = entries;
    }

    /// Appends `entry` where it can follow the ledger's chain; otherwise the
    /// ledger is unchanged.
    pub fn load_entry(&mut self, entry: LedgerEntry) -> (r: Result<(), LedgerError>)
        ensures
            reports(r, entry_fault(old(self)@, entry@)),
            r is Ok ==> final(self)@ == old(self)@.push(entry@),
            r is Err ==> final(self)@ == old(self)@,
    {
        let n = self.entries.len();
        proof {
            use_type_invariant(&*self);
            lemma_chain_links(self@);
            if n > 0 {
                assert(self@[self@.len() - 1].index == self@.len() - 1);
                assert(self.entries@.last()@ == self@[self@.len() - 1]);
            }
        }
        match Self::validate_entry(self.entries.as_slice(), &entry) {
            Ok(()) => {},
            Err(e) => {
                return Err(e);
            },
        }
        self.push_entry(entry);
        Ok(())
    }

    /// Loads one line of a ledger file: a blank line is skipped; otherwise
    /// `parse` reads the entry that the line holds, and the entry is appended
    /// where it follows the chain.
    pub fn load_line<E, F: FnOnce(&str) -> Result<LedgerEntry, E>>(&mut self, line: &str, parse: F) -> (r:
        Result<(), LineError<E>>)
        requires
            call_requires(parse, (line,)),
        ensures
            blank(line@) ==> r is Ok && final(self)@ == old(self)@,
            !blank(line@) ==> exists|parsed: Result<LedgerEntry, E>|
                call_ensures(parse, (line,), parsed) && #[trigger] line_step(
                    old(self)@,
                    parsed,
                    r,
                    final(self)@,
                ),
    {
        if is_blank(line) {
            return Ok(());
        }
        let parsed = parse(line);
        let ghost before = self@;
        let ghost outcome = parsed;
        match parsed {
            Err(e) => {
                assert(line_step::<E>(before, outcome, Err(LineError::Parse(e)), self@));
                Err(LineError::Parse(e))
            },
            Ok(entry) => {
                match self.load_entry(entry) {
                    Ok(()) => {
                        assert(line_step::<E>(before, outcome, Ok(()), self@));
                        Ok(())
                    },
                    Err(err) => {
                        assert(line_step::<E>(before, outcome, Err(LineError::Ledger(err)), self@));
                        Err(LineError::Ledger(err))
                    },
                }
            },
        }
    }

    /// A ledger of `entries`, where each entry follows the ones before it;
    /// otherwise the first reason why one does not.
    pub fn from_entries(entries: Vec<LedgerEntry>) -> (r: Result<Ledger, LedgerError>)
        ensures
            match load_fault(views(entries@)) {
                None => r matches Ok(ledger) && ledger@ == views(entries@),
                Some(f) => r matches Err(e) && e.fault() == f,
            },
    {
        let ghost all = views(entries@);
        let n = entries.len();
        let mut i: usize = 0;
        while i < n
            invariant
                i <= n,
                n == entries@.len(),
                all == views(entries@),
                load_fault(all.take(i as int)) is None,
            decreases n - i,
        {
            proof {
                lemma_load_fault_valid(all.take(i as int));
                lemma_chain_links(all.take(i as int));
                assert(views(entries@.take(i as int)) =~= all.take(i as int));
                if i > 0 {
                    assert(all.take(i as int)[i - 1] == entries@[i - 1]@);
                }
            }
            let (prefix, _) = entries.as_slice().split_at(i);
            assert(prefix@ =~= entries@.take(i as int));
            let checked = Self::validate_entry(prefix, &entries[i]);
            assert(all.take(i + 1).drop_last() =~= all.take(i as int));
            match checked {
                Ok(()) => {},
                Err(e) => {
                    proof {
                        lemma_load_fault_prefix(all, i + 1);
                    }
                    return Err(e);
                },
            }
            i = i + 1;
        }
        assert(all.take(n as int) =~= all);
        proof {
            lemma_load_fault_valid(all);
        }
        Ok(Ledger { entries })
    }

    /// The entry that a signed request would append, or why it is refused:
    /// a timestamp before the last entry's, or a signature that does not
    /// verify. The ledger is not changed.
    pub fn next_entry(&self, request: AppendRequest) -> (r: Result<LedgerEntry, LedgerError>)
        ensures
            match append_outcome(self@, request@) {
                Ok(e) => r matches Ok(entry) && entry@ == e,
                Err(f) => r matches Err(err) && err.fault() == f,
            },
            r matches Ok(entry) ==> entry.hash@.len() == 64 && forall|i: int|
                0 <= i < entry.hash@.len() ==> is_lower_hex(#[trigger] entry.hash@[i]),
    {
        proof {
            use_type_invariant(self);
        }
        let (index, prev_hash) = self.next_link();
        let n = self.entries.len();
        if n > 0 {
            let previous = self.entries[n - 1].timestamp;
            assert(self@.last() == self.entries@[n - 1]@);
            if request.timestamp < previous {
                return Err(LedgerError::TimestampRegression { previous, candidate: request.timestamp });
            }
        }
        let message = signing_bytes(
            index,
            request.timestamp,
            prev_hash.as_str(),
            request.payload.as_str().as_bytes(),
        );
        match verify_signature(message.as_slice(), request.public_key.as_str(), request.signature.as_str()) {
            Ok(()) => {},
            Err(e) => {
                return Err(e);
            },
        }
        let hash = compute_hash(
            index,
            request.timestamp,
            request.payload.as_str(),
            prev_hash.as_str(),
            request.public_key.as_str(),
            request.signature.as_str(),
        );
        Ok(
            LedgerEntry {
                index,
                timestamp: request.timestamp,
                payload: request.payload,
                prev_hash,
                hash,
                public_key: request.public_key,
                signature: request.signature,
            },
        )
    }

    /// Appends a signed request as the next entry and gives it back. Refused,
    /// with the ledger unchanged, when the timestamp is before the last
    /// entry's or the signature does not verify.
    pub fn append(&mut self, request: AppendRequest) -> (r: Result<&LedgerEntry, LedgerError>)
        ensures
            match append_outcome(old(self)@, request@) {
                Ok(e) => r matches Ok(entry) && entry@ == e && final(self)@ == old(self)@.push(e),
                Err(f) => r matches Err(err) && err.fault() == f && final(self)@ == old(self)@,
            },
            r matches Ok(entry) ==> entry.hash@.len() == 64 && forall|i: int|
                0 <= i < entry.hash@.len() ==> is_lower_hex(#[trigger] entry.hash@[i]),
    {
        let n = self.entries.len();
        proof {
            use_type_invariant(&*self);
            assert(self@.len() == n);
        }
        let ghost request_view = request@;
        let entry = match self.next_entry(request) {
            Ok(entry) => entry,
            Err(e) => {
                return Err(e);
            },
        };
        proof {
            crate::laws::law_append_extends_chain(self@, request_view);
            assert(entry_fault(self@, entry@) is None);
        }
        self.push_entry(entry);
        assert(self.entries@[n as int]@ == self@[n as int]);
        Ok(&self.entries[n])
    }
}

} // verus!
