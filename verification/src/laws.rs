//! Properties that hold across the ledger's operations.
use vstd::prelude::*;

use crate::crypto::ed25519_public_key_of;
use crate::encoding::base64_text;
use crate::encoding::lemma_base64_roundtrip;
use crate::ledger::append_outcome;
use crate::ledger::chain_valid;
use crate::ledger::entry_fault;
use crate::ledger::genesis_hash;
use crate::ledger::lemma_chain_links;
use crate::ledger::lemma_chain_push;
use crate::ledger::lemma_load_fault_valid;
use crate::ledger::load_fault;
use crate::ledger::next_index;
use crate::ledger::next_prev_hash;
use crate::ledger::secret_key_bytes;
use crate::ledger::EntryView;
use crate::ledger::Fault;
use crate::ledger::RequestView;
use crate::ledger::load_lines;
use crate::ledger::non_blank_lines;
use crate::ledger::run_appends;
use crate::ledger::hash_preimage;
use crate::ledger::message_bytes;
use crate::ledger::prepare_outcome;
use crate::ledger::signature_fault;
use crate::crypto::ed25519_accepts;
use crate::crypto::ed25519_point_decodes;
use crate::encoding::be_word;
use crate::encoding::be_bytes;
use crate::encoding::lemma_be_bytes_spell;
use crate::encoding::lemma_be_bytes_injective;
use vstd::utf8::encode_utf8;
use crate::ledger::line_step;
use crate::ledger::LineError;
use crate::ledger::LedgerEntry;
use crate::ledger::LoadStop;
use crate::crypto::signing_key_secret;
use crate::text::blank;

verus! {

/// An accepted append extends a valid chain to a valid chain, with the next
/// index, a link to the previous entry's hash, and a timestamp no earlier
/// than the previous entry's.
pub proof fn law_append_extends_chain(chain: Seq<EntryView>, request: RequestView)
    requires
        chain_valid(chain),
        chain.len() <= usize::MAX,
        append_outcome(chain, request) is Ok,
    ensures
        ({
            let e = append_outcome(chain, request)->Ok_0;
            &&& entry_fault(chain, e) is None
            &&& chain_valid(chain.push(e))
            &&& e.index == chain.len()
            &&& e.prev_hash == next_prev_hash(chain)
            &&& chain.len() > 0 ==> chain.last().timestamp <= e.timestamp
            &&& e.payload == request.payload
            &&& e.public_key == request.public_key
            &&& e.signature == request.signature
        }),
{
    let e = append_outcome(chain, request)->Ok_0;
    law_next_index_is_length(chain);
    assert(entry_fault(chain, e) is None);
    lemma_chain_push(chain, e);
}

/// What was appended reloads: every valid chain is accepted entry by entry,
/// with no fault.
pub proof fn law_valid_chain_reloads(chain: Seq<EntryView>)
    requires
        chain_valid(chain),
    ensures
        load_fault(chain) is None,
{
    lemma_load_fault_valid(chain);
}

/// A chain that reloads without fault is valid.
pub proof fn law_reloaded_chain_is_valid(chain: Seq<EntryView>)
    requires
        load_fault(chain) is None,
    ensures
        chain_valid(chain),
{
    lemma_load_fault_valid(chain);
}

/// In a valid chain, entry `i` has index `i`, the first entry links to the
/// genesis marker and every later entry to the hash of the one before it.
pub proof fn law_chain_links(chain: Seq<EntryView>)
    requires
        chain_valid(chain),
    ensures
        forall|i: int| 0 <= i < chain.len() ==> #[trigger] chain[i].index == i,
        chain.len() > 0 ==> chain[0].prev_hash == genesis_hash(),
        forall|i: int| 0 < i < chain.len() ==> #[trigger] chain[i].prev_hash == chain[i - 1].hash,
{
    lemma_chain_links(chain);
}

/// Tampering with the stored hash of an entry of a valid chain is detected:
/// the chain is no longer valid.
pub proof fn law_tampered_hash_detected(chain: Seq<EntryView>, i: int, hash: Seq<char>)
    requires
        chain_valid(chain),
        0 <= i < chain.len(),
        hash != chain[i].hash,
    ensures
        !chain_valid(chain.update(i, EntryView { hash, ..chain[i] })),
{
    let t = chain.update(i, EntryView { hash, ..chain[i] });
    assert(t.take(i) =~= chain.take(i));
    assert(entry_fault(chain.take(i), chain[i]) is None);
    assert(entry_fault(t.take(i), t[i]) is Some);
}

/// Tampering with the stored index or previous hash of an entry of a valid
/// chain is detected: the chain is no longer valid.
pub proof fn law_tampered_link_detected(chain: Seq<EntryView>, i: int, index: u64, prev_hash: Seq<char>)
    requires
        chain_valid(chain),
        0 <= i < chain.len(),
        index != chain[i].index || prev_hash != chain[i].prev_hash,
    ensures
        !chain_valid(chain.update(i, EntryView { index, prev_hash, ..chain[i] })),
{
    let t = chain.update(i, EntryView { index, prev_hash, ..chain[i] });
    assert(t.take(i) =~= chain.take(i));
    assert(entry_fault(chain.take(i), chain[i]) is None);
    assert(entry_fault(t.take(i), t[i]) is Some);
}

/// Removing an entry other than the last from a valid chain is detected.
pub proof fn law_removed_entry_detected(chain: Seq<EntryView>, i: int)
    requires
        chain_valid(chain),
        0 <= i < chain.len() - 1,
    ensures
        !chain_valid(chain.remove(i)),
{
    lemma_chain_links(chain);
    let t = chain.remove(i);
    if chain_valid(t) {
        lemma_chain_links(t);
        assert(t[i] == chain[i + 1]);
        assert(t[i].index == i);
        assert(chain[i + 1].index == i + 1);
    }
}

/// The secret key of a keypair decodes back to the 32 bytes it was encoded
/// from, so the keypair rebuilt from it has the same public key.
pub proof fn law_secret_key_roundtrip(secret: Seq<u8>)
    requires
        secret.len() == 32,
    ensures
        secret_key_bytes(base64_text(secret)) == Ok::<Seq<u8>, Fault>(secret),
        base64_text(ed25519_public_key_of(secret)) == base64_text(
            ed25519_public_key_of(secret_key_bytes(base64_text(secret))->Ok_0),
        ),
{
    lemma_base64_roundtrip(secret);
}

/// The index of the next entry is the length of a valid chain.
pub proof fn law_next_index_is_length(chain: Seq<EntryView>)
    requires
        chain_valid(chain),
    ensures
        next_index(chain) == chain.len(),
{
    lemma_chain_links(chain);
    if chain.len() > 0 {
        assert(chain[chain.len() - 1].index == chain.len() - 1);
    }
}

/// A blank line inserted anywhere in a ledger file does not change what
/// loads: the same entries, or the same reason to stop.
pub proof fn law_blank_line_inserted(
    chain: Seq<EntryView>,
    lines: Seq<Seq<char>>,
    k: int,
    line: Seq<char>,
    parse: spec_fn(Seq<char>) -> Option<EntryView>,
)
    requires
        blank(line),
        0 <= k <= lines.len(),
    ensures
        load_lines(chain, lines.insert(k, line), parse) == load_lines(chain, lines, parse),
    decreases k,
{
    let longer = lines.insert(k, line);
    if k == 0 {
        assert(longer.drop_first() =~= lines);
    } else {
        assert(longer[0] == lines[0]);
        assert(longer.drop_first() =~= lines.drop_first().insert(k - 1, line));
        if !blank(lines[0]) {
            match parse(lines[0]) {
                Some(e) => {
                    if entry_fault(chain, e) is None {
                        law_blank_line_inserted(chain.push(e), lines.drop_first(), k - 1, line, parse);
                    }
                },
                None => {},
            }
        } else {
            law_blank_line_inserted(chain, lines.drop_first(), k - 1, line, parse);
        }
    }
}

/// Removing a blank line from a ledger file does not change what loads.
pub proof fn law_blank_line_removed(
    chain: Seq<EntryView>,
    lines: Seq<Seq<char>>,
    k: int,
    parse: spec_fn(Seq<char>) -> Option<EntryView>,
)
    requires
        0 <= k < lines.len(),
        blank(lines[k]),
    ensures
        load_lines(chain, lines.remove(k), parse) == load_lines(chain, lines, parse),
{
    assert(lines.remove(k).insert(k, lines[k]) =~= lines);
    law_blank_line_inserted(chain, lines.remove(k), k, lines[k], parse);
}

/// A file of blank lines loads as nothing more than the chain it starts from.
pub proof fn law_blank_file_loads_nothing(
    chain: Seq<EntryView>,
    lines: Seq<Seq<char>>,
    parse: spec_fn(Seq<char>) -> Option<EntryView>,
)
    requires
        forall|i: int| 0 <= i < lines.len() ==> blank(#[trigger] lines[i]),
    ensures
        load_lines(chain, lines, parse) == Ok::<Seq<EntryView>, LoadStop>(chain),
    decreases lines.len(),
{
    if lines.len() > 0 {
        assert forall|i: int| 0 <= i < lines.drop_first().len() implies blank(#[trigger] lines.drop_first()[i]) by {
            assert(lines.drop_first()[i] == lines[i + 1]);
        }
        law_blank_file_loads_nothing(chain, lines.drop_first(), parse);
    }
}

/// The signing key of a keypair built from a 32-byte secret holds that
/// secret, so its public key is the keypair's public key.
pub proof fn law_signing_key_matches_keypair(secret: Seq<u8>, key: ed25519_dalek::SigningKey)
    requires
        secret.len() == 32,
        secret_key_bytes(base64_text(secret)) == Ok::<Seq<u8>, Fault>(signing_key_secret(key)),
    ensures
        signing_key_secret(key) == secret,
        base64_text(ed25519_public_key_of(signing_key_secret(key))) == base64_text(
            ed25519_public_key_of(secret),
        ),
{
    lemma_base64_roundtrip(secret);
}

/// `Ledger::load_line` takes one step of `load_lines`: where the parser
/// agrees with `parse` on a line that is not blank, a loaded line leaves the
/// rest of the file to load after the new chain, and a refused line stops the
/// loading.
pub proof fn law_load_line_follows_model<E>(
    before: Seq<EntryView>,
    line: Seq<char>,
    rest: Seq<Seq<char>>,
    parse: spec_fn(Seq<char>) -> Option<EntryView>,
    parsed: Result<LedgerEntry, E>,
    r: Result<(), LineError<E>>,
    after: Seq<EntryView>,
)
    requires
        !blank(line),
        line_step(before, parsed, r, after),
        parsed matches Ok(entry) ==> parse(line) == Some(entry@),
        parsed is Err ==> parse(line) is None,
    ensures
        r is Ok ==> load_lines(before, seq![line] + rest, parse) == load_lines(after, rest, parse),
        r is Err ==> load_lines(before, seq![line] + rest, parse) is Err,
{
    let lines = seq![line] + rest;
    assert(lines[0] == line);
    assert(lines.drop_first() =~= rest);
}

/// What a ledger file loads depends on its non-blank lines alone.
pub proof fn law_blank_lines_ignored(
    chain: Seq<EntryView>,
    lines: Seq<Seq<char>>,
    parse: spec_fn(Seq<char>) -> Option<EntryView>,
)
    ensures
        load_lines(chain, lines, parse) == load_lines(chain, non_blank_lines(lines), parse),
    decreases lines.len(),
{
    if lines.len() > 0 {
        let rest = lines.drop_first();
        if blank(lines[0]) {
            law_blank_lines_ignored(chain, rest, parse);
        } else {
            let kept = seq![lines[0]] + non_blank_lines(rest);
            assert(kept[0] == lines[0]);
            assert(kept.drop_first() =~= non_blank_lines(rest));
            match parse(lines[0]) {
                Some(e) => {
                    if entry_fault(chain, e) is None {
                        law_blank_lines_ignored(chain.push(e), rest, parse);
                    }
                },
                None => {},
            }
        }
    }
}

/// Two ledger files that differ only in blank lines, inserted or removed
/// anywhere and in any number, load the same entries or stop for the same
/// reason.
pub proof fn law_files_alike_but_blank_lines_load_alike(
    chain: Seq<EntryView>,
    first: Seq<Seq<char>>,
    second: Seq<Seq<char>>,
    parse: spec_fn(Seq<char>) -> Option<EntryView>,
)
    requires
        non_blank_lines(first) == non_blank_lines(second),
    ensures
        load_lines(chain, first, parse) == load_lines(chain, second, parse),
{
    law_blank_lines_ignored(chain, first, parse);
    law_blank_lines_ignored(chain, second, parse);
}

/// After a series of appends the ledger holds the entries it held, then
/// exactly the entries of the accepted calls, in call order; refused calls
/// add nothing.
pub proof fn law_appends_keep_accepted_entries_in_order(chain: Seq<EntryView>, requests: Seq<RequestView>)
    ensures
        run_appends(chain, requests).0 == chain + run_appends(chain, requests).1,
        run_appends(chain, requests).1.len() <= requests.len(),
    decreases requests.len(),
{
    if requests.len() > 0 {
        match append_outcome(chain, requests[0]) {
            Ok(e) => {
                law_appends_keep_accepted_entries_in_order(chain.push(e), requests.drop_first());
                let rest = run_appends(chain.push(e), requests.drop_first());
                assert(chain.push(e) + rest.1 =~= chain + (seq![e] + rest.1));
            },
            Err(_) => {
                law_appends_keep_accepted_entries_in_order(chain, requests.drop_first());
            },
        }
    } else {
        assert(chain + seq![] =~= chain);
    }
}

/// A series of appends keeps a valid chain valid.
pub proof fn law_appends_keep_chain_valid(chain: Seq<EntryView>, requests: Seq<RequestView>)
    requires
        chain_valid(chain),
        chain.len() + requests.len() <= usize::MAX,
    ensures
        chain_valid(run_appends(chain, requests).0),
    decreases requests.len(),
{
    if requests.len() > 0 {
        match append_outcome(chain, requests[0]) {
            Ok(e) => {
                law_append_extends_chain(chain, requests[0]);
                law_appends_keep_chain_valid(chain.push(e), requests.drop_first());
            },
            Err(_) => {
                law_appends_keep_chain_valid(chain, requests.drop_first());
            },
        }
    }
}

/// The bytes signed for an entry start with its index and then its timestamp,
/// each as eight big-endian bytes, followed by the UTF-8 bytes of the
/// previous hash and then of the payload.
pub proof fn law_message_layout(index: u64, timestamp: u64, prev_hash: Seq<char>, payload: Seq<char>)
    ensures
        ({
            let m = message_bytes(index, timestamp, prev_hash, payload);
            &&& m.len() == 16 + encode_utf8(prev_hash).len() + encode_utf8(payload).len()
            &&& be_word(m.take(8)) == index
            &&& be_word(m.subrange(8, 16)) == timestamp
            &&& m.skip(16) == encode_utf8(prev_hash) + encode_utf8(payload)
        }),
{
    let m = message_bytes(index, timestamp, prev_hash, payload);
    lemma_be_bytes_spell(index);
    lemma_be_bytes_spell(timestamp);
    assert(m.take(8) =~= be_bytes(index));
    assert(m.subrange(8, 16) =~= be_bytes(timestamp));
    assert(m.skip(16) =~= encode_utf8(prev_hash) + encode_utf8(payload));
}

/// The bytes hashed for an entry are the bytes signed for it followed by the
/// UTF-8 bytes of its public key and of its signature; so they too start with
/// the index and the timestamp.
pub proof fn law_hash_preimage_layout(
    index: u64,
    timestamp: u64,
    payload: Seq<char>,
    prev_hash: Seq<char>,
    public_key: Seq<char>,
    signature: Seq<char>,
)
    ensures
        hash_preimage(index, timestamp, payload, prev_hash, public_key, signature)
            == message_bytes(index, timestamp, prev_hash, payload) + encode_utf8(public_key)
            + encode_utf8(signature),
        be_word(hash_preimage(index, timestamp, payload, prev_hash, public_key, signature).take(8))
            == index,
        be_word(
            hash_preimage(index, timestamp, payload, prev_hash, public_key, signature).subrange(8, 16),
        ) == timestamp,
{
    let h = hash_preimage(index, timestamp, payload, prev_hash, public_key, signature);
    let m = message_bytes(index, timestamp, prev_hash, payload);
    assert(h =~= m + encode_utf8(public_key) + encode_utf8(signature));
    law_message_layout(index, timestamp, prev_hash, payload);
    assert(h.take(8) =~= m.take(8));
    assert(h.subrange(8, 16) =~= m.subrange(8, 16));
}

/// Entries that differ in index or in timestamp are hashed over different
/// bytes, and are signed over different bytes.
pub proof fn law_index_and_timestamp_tell_apart(
    index: u64,
    other_index: u64,
    timestamp: u64,
    other_timestamp: u64,
    payload: Seq<char>,
    prev_hash: Seq<char>,
    public_key: Seq<char>,
    signature: Seq<char>,
)
    requires
        index != other_index || timestamp != other_timestamp,
    ensures
        message_bytes(index, timestamp, prev_hash, payload) != message_bytes(
            other_index,
            other_timestamp,
            prev_hash,
            payload,
        ),
        hash_preimage(index, timestamp, payload, prev_hash, public_key, signature) != hash_preimage(
            other_index,
            other_timestamp,
            payload,
            prev_hash,
            public_key,
            signature,
        ),
{
    law_hash_preimage_layout(index, timestamp, payload, prev_hash, public_key, signature);
    law_hash_preimage_layout(other_index, other_timestamp, payload, prev_hash, public_key, signature);
    law_message_layout(index, timestamp, prev_hash, payload);
    law_message_layout(other_index, other_timestamp, prev_hash, payload);
}

/// A signature that Ed25519 accepts passes the signature check, whatever the
/// message and its length: the base64 texts of a 32-byte public key that
/// decompresses and of a 64-byte signature raise no fault.
pub proof fn law_accepted_signature_passes(public: Seq<u8>, message: Seq<u8>, signature: Seq<u8>)
    requires
        public.len() == 32,
        ed25519_point_decodes(public),
        signature.len() == 64,
        ed25519_accepts(public, message, signature),
    ensures
        signature_fault(message, base64_text(public), base64_text(signature)) is None,
{
    lemma_base64_roundtrip(public);
    lemma_base64_roundtrip(signature);
}

/// A secret key text that holds 32 bytes always gives a request, for any
/// chain, payload and timestamp; the request carries the payload and the
/// timestamp that were asked for, and the base64 public key of that secret.
pub proof fn law_prepare_keeps_payload_and_timestamp(
    chain: Seq<EntryView>,
    payload: Seq<char>,
    secret: Seq<char>,
    timestamp: u64,
)
    requires
        secret_key_bytes(secret) is Ok,
    ensures
        prepare_outcome(chain, payload, secret, timestamp) is Ok,
        prepare_outcome(chain, payload, secret, timestamp)->Ok_0.payload == payload,
        prepare_outcome(chain, payload, secret, timestamp)->Ok_0.timestamp == timestamp,
        prepare_outcome(chain, payload, secret, timestamp)->Ok_0.public_key == base64_text(
            ed25519_public_key_of(secret_key_bytes(secret)->Ok_0),
        ),
{
}

} // verus!
