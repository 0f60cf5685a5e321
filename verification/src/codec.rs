//! The wire format.
//!
//! An envelope is written as its variant tag, a 32-bit integer, followed by
//! its fields in order. Integers are little-endian. A string or a byte vector
//! is its length in bytes as a 64-bit integer, then the bytes; a string's
//! bytes are its UTF-8 encoding. A key is its 32 bytes and nothing else. A
//! list is its number of entries as a 64-bit integer, then the entries.
//!
//! Decoding reads one envelope from the front of a buffer and does not look
//! at what follows it.

use crate::protocol::{
    entries_view, EncryptedMessage, Envelope, MessageView, Protocol, MESSAGE_PACKET_SIZE,
};
use crate::text::text_from_utf8;
use vstd::bytes::{
    lemma_auto_spec_u32_to_from_le_bytes, lemma_auto_spec_u64_to_from_le_bytes,
    spec_u32_from_le_bytes, spec_u32_to_le_bytes, spec_u64_from_le_bytes, spec_u64_to_le_bytes,
    u32_from_le_bytes, u32_to_le_bytes, u64_from_le_bytes, u64_to_le_bytes,
};
use vstd::prelude::*;
use vstd::slice::{slice_subrange, slice_to_vec};
use vstd::utf8::{decode_utf8, encode_utf8, valid_utf8};

verus! {

/// Why a buffer does not hold an envelope.
#[derive(Debug, Clone, Copy, PartialEq, Eq, Structural)]
pub enum DecodeError {
    /// The buffer ends before the envelope does.
    UnexpectedEnd,
    /// The tag names no variant.
    UnknownVariant(u32),
    /// A string's bytes are not UTF-8.
    InvalidUtf8,
}

/// Tag of `Message`.
pub const TAG_MESSAGE: u32 = 0;

/// Tag of `NewConnection`.
pub const TAG_NEW_CONNECTION: u32 = 1;

/// Tag of `Disconnect`.
pub const TAG_DISCONNECT: u32 = 2;

/// Tag of `PeerList`.
pub const TAG_PEER_LIST: u32 = 3;

/// Tag of `InternalRemoveConnection`.
pub const TAG_INTERNAL_REMOVE_CONNECTION: u32 = 4;

// ---------------------------------------------------------------------------
// What is written
// ---------------------------------------------------------------------------

/// A length or a count on the wire.
pub open spec fn encode_len(n: nat) -> Seq<u8> {
    spec_u64_to_le_bytes(n as u64)
}

/// A byte vector on the wire.
pub open spec fn encode_bytes(bytes: Seq<u8>) -> Seq<u8> {
    encode_len(bytes.len()) + bytes
}

/// A string on the wire.
pub open spec fn encode_text(text: Seq<char>) -> Seq<u8> {
    encode_bytes(encode_utf8(text))
}

/// One entry of a peer list on the wire.
pub open spec fn encode_entry(entry: (Seq<char>, Seq<u8>)) -> Seq<u8> {
    encode_text(entry.0) + entry.1
}

/// The entries of a peer list on the wire, one after the other.
pub open spec fn encode_entries(entries: Seq<(Seq<char>, Seq<u8>)>) -> Seq<u8>
    decreases entries.len(),
{
    if entries.len() == 0 {
        Seq::empty()
    } else {
        encode_entries(entries.drop_last()) + encode_entry(entries.last())
    }
}

/// An envelope on the wire.
pub open spec fn encode_envelope(envelope: Envelope) -> Seq<u8> {
    match envelope {
        Envelope::Message(m) => spec_u32_to_le_bytes(TAG_MESSAGE) + encode_text(m.from)
            + encode_text(m.to) + encode_bytes(m.content),
        Envelope::NewConnection(id, key) => spec_u32_to_le_bytes(TAG_NEW_CONNECTION)
            + encode_text(id) + key,
        Envelope::Disconnect(id) => spec_u32_to_le_bytes(TAG_DISCONNECT) + encode_text(id),
        Envelope::PeerList(entries) => spec_u32_to_le_bytes(TAG_PEER_LIST) + encode_len(
            entries.len(),
        ) + encode_entries(entries),
        Envelope::InternalRemoveConnection => spec_u32_to_le_bytes(
            TAG_INTERNAL_REMOVE_CONNECTION,
        ),
    }
}

/// A string whose length in bytes can be written.
pub open spec fn valid_text(text: Seq<char>) -> bool {
    encode_utf8(text).len() <= u64::MAX
}

/// An entry with a key of 32 bytes and an identity that can be written.
pub open spec fn valid_entry(entry: (Seq<char>, Seq<u8>)) -> bool {
    valid_text(entry.0) && entry.1.len() == 32
}

/// An envelope that can be written: every key has 32 bytes, and every length
/// fits the 64 bits it is written in.
pub open spec fn valid_envelope(envelope: Envelope) -> bool {
    match envelope {
        Envelope::Message(m) => valid_text(m.from) && valid_text(m.to) && m.content.len()
            <= u64::MAX,
        Envelope::NewConnection(id, key) => valid_text(id) && key.len() == 32,
        Envelope::Disconnect(id) => valid_text(id),
        Envelope::PeerList(entries) => entries.len() <= u64::MAX && forall|i: int|
            0 <= i < entries.len() ==> valid_entry(#[trigger] entries[i]),
        Envelope::InternalRemoveConnection => true,
    }
}

// ---------------------------------------------------------------------------
// What is read
// ---------------------------------------------------------------------------

/// The 32-bit integer at `at`, and where the next field starts.
pub open spec fn read_u32(b: Seq<u8>, at: int) -> Result<(u32, int), DecodeError> {
    if 0 <= at && at + 4 <= b.len() {
        Ok((spec_u32_from_le_bytes(b.subrange(at, at + 4)), at + 4))
    } else {
        Err(DecodeError::UnexpectedEnd)
    }
}

/// The 64-bit integer at `at`, and where the next field starts.
pub open spec fn read_u64(b: Seq<u8>, at: int) -> Result<(u64, int), DecodeError> {
    if 0 <= at && at + 8 <= b.len() {
        Ok((spec_u64_from_le_bytes(b.subrange(at, at + 8)), at + 8))
    } else {
        Err(DecodeError::UnexpectedEnd)
    }
}

/// The byte vector at `at`, and where the next field starts.
pub open spec fn read_bytes(b: Seq<u8>, at: int) -> Result<(Seq<u8>, int), DecodeError> {
    match read_u64(b, at) {
        Err(e) => Err(e),
        Ok((n, start)) => if start + n <= b.len() {
            Ok((b.subrange(start, start + n), start + n))
        } else {
            Err(DecodeError::UnexpectedEnd)
        },
    }
}

/// The string at `at`, and where the next field starts.
pub open spec fn read_text(b: Seq<u8>, at: int) -> Result<(Seq<char>, int), DecodeError> {
    match read_bytes(b, at) {
        Err(e) => Err(e),
        Ok((raw, next)) => if valid_utf8(raw) {
            Ok((decode_utf8(raw), next))
        } else {
            Err(DecodeError::InvalidUtf8)
        },
    }
}

/// The key at `at`, and where the next field starts.
pub open spec fn read_key(b: Seq<u8>, at: int) -> Result<(Seq<u8>, int), DecodeError> {
    if 0 <= at && at + 32 <= b.len() {
        Ok((b.subrange(at, at + 32), at + 32))
    } else {
        Err(DecodeError::UnexpectedEnd)
    }
}

/// The peer list entry at `at`, and where the next one starts.
pub open spec fn read_entry(b: Seq<u8>, at: int) -> Result<
    ((Seq<char>, Seq<u8>), int),
    DecodeError,
> {
    match read_text(b, at) {
        Err(e) => Err(e),
        Ok((id, next)) => match read_key(b, next) {
            Err(e) => Err(e),
            Ok((key, end)) => Ok(((id, key), end)),
        },
    }
}

/// The `count` peer list entries from `at` on, and where they end. The first
/// entry that cannot be read decides the error.
pub open spec fn read_entries(b: Seq<u8>, at: int, count: nat) -> Result<
    (Seq<(Seq<char>, Seq<u8>)>, int),
    DecodeError,
>
    decreases count,
{
    if count == 0 {
        Ok((Seq::empty(), at))
    } else {
        match read_entries(b, at, (count - 1) as nat) {
            Err(e) => Err(e),
            Ok((entries, next)) => match read_entry(b, next) {
                Err(e) => Err(e),
                Ok((entry, end)) => Ok((entries.push(entry), end)),
            },
        }
    }
}

/// The fields of a `Message` from `at` on.
pub open spec fn read_message(b: Seq<u8>, at: int) -> Result<Envelope, DecodeError> {
    match read_text(b, at) {
        Err(e) => Err(e),
        Ok((from, at_to)) => match read_text(b, at_to) {
            Err(e) => Err(e),
            Ok((to, at_content)) => match read_bytes(b, at_content) {
                Err(e) => Err(e),
                Ok((content, _)) => Ok(Envelope::Message(MessageView { from, to, content })),
            },
        },
    }
}

/// The fields of a `NewConnection` from `at` on.
pub open spec fn read_new_connection(b: Seq<u8>, at: int) -> Result<Envelope, DecodeError> {
    match read_entry(b, at) {
        Err(e) => Err(e),
        Ok((entry, _)) => Ok(Envelope::NewConnection(entry.0, entry.1)),
    }
}

/// The field of a `Disconnect` from `at` on.
pub open spec fn read_disconnect(b: Seq<u8>, at: int) -> Result<Envelope, DecodeError> {
    match read_text(b, at) {
        Err(e) => Err(e),
        Ok((id, _)) => Ok(Envelope::Disconnect(id)),
    }
}

/// The field of a `PeerList` from `at` on.
pub open spec fn read_peer_list(b: Seq<u8>, at: int) -> Result<Envelope, DecodeError> {
    match read_u64(b, at) {
        Err(e) => Err(e),
        Ok((count, start)) => match read_entries(b, start, count as nat) {
            Err(e) => Err(e),
            Ok((entries, _)) => Ok(Envelope::PeerList(entries)),
        },
    }
}

/// The envelope at the front of `b`, or why there is none.
pub open spec fn decode_envelope(b: Seq<u8>) -> Result<Envelope, DecodeError> {
    match read_u32(b, 0) {
        Err(e) => Err(e),
        Ok((tag, at)) => if tag == TAG_MESSAGE {
            read_message(b, at)
        } else if tag == TAG_NEW_CONNECTION {
            read_new_connection(b, at)
        } else if tag == TAG_DISCONNECT {
            read_disconnect(b, at)
        } else if tag == TAG_PEER_LIST {
            read_peer_list(b, at)
        } else if tag == TAG_INTERNAL_REMOVE_CONNECTION {
            Ok(Envelope::InternalRemoveConnection)
        } else {
            Err(DecodeError::UnknownVariant(tag))
        },
    }
}

// ---------------------------------------------------------------------------
// Reading back what was written
// ---------------------------------------------------------------------------

/// `b` holds `piece` from `at` on.
spec fn holds_at(b: Seq<u8>, at: int, piece: Seq<u8>) -> bool {
    0 <= at && at + piece.len() <= b.len() && b.subrange(at, at + piece.len()) == piece
}

/// A buffer that holds two pieces in a row holds each of them.
proof fn lemma_holds_at_split(b: Seq<u8>, at: int, first: Seq<u8>, second: Seq<u8>)
    requires
        holds_at(b, at, first + second),
    ensures
        holds_at(b, at, first),
        holds_at(b, at + first.len(), second),
{
    let whole = b.subrange(at, at + (first + second).len());
    assert(b.subrange(at, at + first.len()) =~= whole.subrange(0, first.len() as int));
    assert(whole.subrange(0, first.len() as int) =~= first);
    assert(b.subrange(at + first.len(), at + first.len() + second.len()) =~= whole.subrange(
        first.len() as int,
        whole.len() as int,
    ));
    assert(whole.subrange(first.len() as int, whole.len() as int) =~= second);
}

proof fn lemma_read_u32_back(b: Seq<u8>, at: int, x: u32)
    requires
        holds_at(b, at, spec_u32_to_le_bytes(x)),
    ensures
        spec_u32_to_le_bytes(x).len() == 4,
        read_u32(b, at) == Ok::<(u32, int), DecodeError>((x, at + 4)),
{
    lemma_auto_spec_u32_to_from_le_bytes();
}

proof fn lemma_read_len_back(b: Seq<u8>, at: int, n: nat)
    requires
        n <= u64::MAX,
        holds_at(b, at, encode_len(n)),
    ensures
        encode_len(n).len() == 8,
        read_u64(b, at) == Ok::<(u64, int), DecodeError>((n as u64, at + 8)),
{
    lemma_auto_spec_u64_to_from_le_bytes();
}

proof fn lemma_read_bytes_back(b: Seq<u8>, at: int, bytes: Seq<u8>)
    requires
        bytes.len() <= u64::MAX,
        holds_at(b, at, encode_bytes(bytes)),
    ensures
        encode_bytes(bytes).len() == 8 + bytes.len(),
        read_bytes(b, at) == Ok::<(Seq<u8>, int), DecodeError>((bytes, at + 8 + bytes.len())),
{
    lemma_auto_spec_u64_to_from_le_bytes();
    lemma_holds_at_split(b, at, encode_len(bytes.len()), bytes);
    lemma_read_len_back(b, at, bytes.len());
}

proof fn lemma_read_text_back(b: Seq<u8>, at: int, text: Seq<char>)
    requires
        valid_text(text),
        holds_at(b, at, encode_text(text)),
    ensures
        read_text(b, at) == Ok::<(Seq<char>, int), DecodeError>(
            (text, at + encode_text(text).len()),
        ),
{
    lemma_read_bytes_back(b, at, encode_utf8(text));
    vstd::utf8::encode_utf8_valid_utf8(text);
    vstd::utf8::encode_utf8_decode_utf8(text);
}

proof fn lemma_read_entry_back(b: Seq<u8>, at: int, entry: (Seq<char>, Seq<u8>))
    requires
        valid_entry(entry),
        holds_at(b, at, encode_entry(entry)),
    ensures
        read_entry(b, at) == Ok::<((Seq<char>, Seq<u8>), int), DecodeError>(
            (entry, at + encode_entry(entry).len()),
        ),
{
    lemma_holds_at_split(b, at, encode_text(entry.0), entry.1);
    lemma_read_text_back(b, at, entry.0);
}

proof fn lemma_read_entries_back(b: Seq<u8>, at: int, entries: Seq<(Seq<char>, Seq<u8>)>)
    requires
        forall|i: int| 0 <= i < entries.len() ==> valid_entry(#[trigger] entries[i]),
        holds_at(b, at, encode_entries(entries)),
    ensures
        read_entries(b, at, entries.len()) == Ok::<(Seq<(Seq<char>, Seq<u8>)>, int), DecodeError>(
            (entries, at + encode_entries(entries).len()),
        ),
    decreases entries.len(),
{
    if entries.len() == 0 {
        assert(entries =~= Seq::empty());
    } else {
        let front = entries.drop_last();
        lemma_holds_at_split(b, at, encode_entries(front), encode_entry(entries.last()));
        lemma_read_entries_back(b, at, front);
        lemma_read_entry_back(b, at + encode_entries(front).len(), entries.last());
        assert(front.push(entries.last()) =~= entries);
    }
}

/// Decoding gives back what was encoded, whatever follows it in the
/// buffer: for every envelope `e` that can be written and all bytes `rest`,
/// `decode_envelope(encode_envelope(e) + rest)` is `e`.
pub proof fn lemma_decode_encode(envelope: Envelope, rest: Seq<u8>)
    requires
        valid_envelope(envelope),
    ensures
        decode_envelope(encode_envelope(envelope) + rest) == Ok::<Envelope, DecodeError>(envelope),
{
    let b = encode_envelope(envelope) + rest;
    assert(b.subrange(0, encode_envelope(envelope).len() as int) =~= encode_envelope(envelope));
    assert(holds_at(b, 0, encode_envelope(envelope)));
    lemma_auto_spec_u32_to_from_le_bytes();
    match envelope {
        Envelope::Message(m) => {
            let tag = spec_u32_to_le_bytes(TAG_MESSAGE);
            let from = encode_text(m.from);
            let to = encode_text(m.to);
            let content = encode_bytes(m.content);
            lemma_holds_at_split(b, 0, tag + from + to, content);
            lemma_holds_at_split(b, 0, tag + from, to);
            lemma_holds_at_split(b, 0, tag, from);
            lemma_read_u32_back(b, 0, TAG_MESSAGE);
            lemma_read_text_back(b, 4, m.from);
            lemma_read_text_back(b, 4 + from.len() as int, m.to);
            lemma_read_bytes_back(b, 4 + from.len() as int + to.len() as int, m.content);
        },
        Envelope::NewConnection(id, key) => {
            let tag = spec_u32_to_le_bytes(TAG_NEW_CONNECTION);
            assert(tag + encode_text(id) + key =~= tag + encode_entry((id, key)));
            lemma_holds_at_split(b, 0, tag, encode_entry((id, key)));
            lemma_read_u32_back(b, 0, TAG_NEW_CONNECTION);
            lemma_read_entry_back(b, 4, (id, key));
        },
        Envelope::Disconnect(id) => {
            let tag = spec_u32_to_le_bytes(TAG_DISCONNECT);
            lemma_holds_at_split(b, 0, tag, encode_text(id));
            lemma_read_u32_back(b, 0, TAG_DISCONNECT);
            lemma_read_text_back(b, 4, id);
        },
        Envelope::PeerList(entries) => {
            let tag = spec_u32_to_le_bytes(TAG_PEER_LIST);
            let count = encode_len(entries.len());
            lemma_holds_at_split(b, 0, tag + count, encode_entries(entries));
            lemma_holds_at_split(b, 0, tag, count);
            lemma_read_u32_back(b, 0, TAG_PEER_LIST);
            lemma_read_len_back(b, 4, entries.len());
            lemma_read_entries_back(b, 12, entries);
        },
        Envelope::InternalRemoveConnection => {
            lemma_read_u32_back(b, 0, TAG_INTERNAL_REMOVE_CONNECTION);
        },
    }
}

// ---------------------------------------------------------------------------
// Writing
// ---------------------------------------------------------------------------

fn put_slice(out: &mut Vec<u8>, src: &[u8])
    ensures
        final(out)@ == old(out)@ + src@,
{
    out.extend_from_slice(src);
    assert(out@ =~= old(out)@ + src@);
}

fn put_u32(out: &mut Vec<u8>, x: u32)
    ensures
        final(out)@ == old(out)@ + spec_u32_to_le_bytes(x),
{
    let mut word = u32_to_le_bytes(x);
    out.append(&mut word);
}

fn put_len(out: &mut Vec<u8>, n: usize)
    ensures
        final(out)@ == old(out)@ + encode_len(n as nat),
{
    let mut word = u64_to_le_bytes(n as u64);
    out.append(&mut word);
}

fn put_bytes(out: &mut Vec<u8>, bytes: &[u8])
    ensures
        final(out)@ == old(out)@ + encode_bytes(bytes@),
        bytes@.len() <= u64::MAX,
{
    put_len(out, bytes.len());
    put_slice(out, bytes);
    assert(out@ =~= old(out)@ + encode_bytes(bytes@));
}

fn put_text(out: &mut Vec<u8>, text: &String)
    ensures
        final(out)@ == old(out)@ + encode_text(text@),
        valid_text(text@),
{
    put_bytes(out, text.as_str().as_bytes());
}

fn put_entries(out: &mut Vec<u8>, entries: &Vec<(String, [u8; 32])>)
    ensures
        final(out)@ == old(out)@ + encode_entries(entries_view(entries@)),
        forall|i: int|
            0 <= i < entries.len() ==> valid_entry(#[trigger] entries_view(entries@)[i]),
{
    let ghost all = entries_view(entries@);
    let mut i: usize = 0;
    assert(all.subrange(0, 0) =~= Seq::empty());
    assert(out@ =~= old(out)@ + encode_entries(all.subrange(0, 0)));
    while i < entries.len()
        invariant
            i <= entries.len(),
            all == entries_view(entries@),
            out@ == old(out)@ + encode_entries(all.subrange(0, i as int)),
            forall|j: int| 0 <= j < i ==> valid_entry(#[trigger] all[j]),
        decreases entries.len() - i,
    {
        let ghost before = out@;
        put_text(out, &entries[i].0);
        put_slice(out, entries[i].1.as_slice());
        proof {
            let done = all.subrange(0, i as int + 1);
            assert(done.drop_last() =~= all.subrange(0, i as int));
            assert(done.last() == all[i as int]);
            assert(out@ =~= old(out)@ + encode_entries(done));
        }
        i += 1;
    }
    assert(all.subrange(0, i as int) =~= all);
}

/// Writes an envelope. Reading the result back gives the envelope again.
pub fn encode(message: &Protocol) -> (bytes: Vec<u8>)
    ensures
        bytes@ == encode_envelope(message@),
        valid_envelope(message@),
        decode_envelope(bytes@) == Ok::<Envelope, DecodeError>(message@),
{
    let mut out: Vec<u8> = Vec::new();
    match message {
        Protocol::Message(m) => {
            let (from, to) = m.get_info();
            put_u32(&mut out, TAG_MESSAGE);
            put_text(&mut out, from);
            put_text(&mut out, to);
            put_bytes(&mut out, m.ciphertext().as_slice());
        },
        Protocol::NewConnection(id, key) => {
            put_u32(&mut out, TAG_NEW_CONNECTION);
            put_text(&mut out, id);
            put_slice(&mut out, key.as_slice());
        },
        Protocol::Disconnect(id) => {
            put_u32(&mut out, TAG_DISCONNECT);
            put_text(&mut out, id);
        },
        Protocol::PeerList(entries) => {
            put_u32(&mut out, TAG_PEER_LIST);
            put_len(&mut out, entries.len());
            put_entries(&mut out, entries);
        },
        Protocol::InternalRemoveConnection => {
            put_u32(&mut out, TAG_INTERNAL_REMOVE_CONNECTION);
        },
    }
    proof {
        assert(out@ =~= encode_envelope(message@));
        lemma_decode_encode(message@, Seq::empty());
        assert(out@ + Seq::<u8>::empty() =~= out@);
    }
    out
}

// ---------------------------------------------------------------------------
// Reading
// ---------------------------------------------------------------------------

fn take_u32(bytes: &[u8], at: usize) -> (res: Result<(u32, usize), DecodeError>)
    requires
        at <= bytes.len(),
    ensures
        res matches Ok((x, next)) ==> next <= bytes.len() && read_u32(bytes@, at as int) == Ok::<
            (u32, int),
            DecodeError,
        >((x, next as int)),
        res matches Err(e) ==> read_u32(bytes@, at as int) == Err::<(u32, int), DecodeError>(e),
{
    if bytes.len() - at < 4 {
        Err(DecodeError::UnexpectedEnd)
    } else {
        Ok((u32_from_le_bytes(slice_subrange(bytes, at, at + 4)), at + 4))
    }
}

fn take_u64(bytes: &[u8], at: usize) -> (res: Result<(u64, usize), DecodeError>)
    requires
        at <= bytes.len(),
    ensures
        res matches Ok((x, next)) ==> next <= bytes.len() && read_u64(bytes@, at as int) == Ok::<
            (u64, int),
            DecodeError,
        >((x, next as int)),
        res matches Err(e) ==> read_u64(bytes@, at as int) == Err::<(u64, int), DecodeError>(e),
{
    if bytes.len() - at < 8 {
        Err(DecodeError::UnexpectedEnd)
    } else {
        Ok((u64_from_le_bytes(slice_subrange(bytes, at, at + 8)), at + 8))
    }
}

/// The byte vector at `at`, as the part of `bytes` that holds it.
fn take_bytes<'a>(bytes: &'a [u8], at: usize) -> (res: Result<(&'a [u8], usize), DecodeError>)
    requires
        at <= bytes.len(),
    ensures
        res matches Ok((found, next)) ==> next <= bytes.len() && read_bytes(bytes@, at as int)
            == Ok::<(Seq<u8>, int), DecodeError>((found@, next as int)),
        res matches Err(e) ==> read_bytes(bytes@, at as int) == Err::<(Seq<u8>, int), DecodeError>(
            e,
        ),
{
    match take_u64(bytes, at) {
        Err(e) => Err(e),
        Ok((n, start)) => {
            if n > (bytes.len() - start) as u64 {
                Err(DecodeError::UnexpectedEnd)
            } else {
                let end: usize = start + n as usize;
                Ok((slice_subrange(bytes, start, end), end))
            }
        },
    }
}

fn take_text(bytes: &[u8], at: usize) -> (res: Result<(String, usize), DecodeError>)
    requires
        at <= bytes.len(),
    ensures
        res matches Ok((text, next)) ==> next <= bytes.len() && read_text(bytes@, at as int)
            == Ok::<(Seq<char>, int), DecodeError>((text@, next as int)),
        res matches Err(e) ==> read_text(bytes@, at as int) == Err::<(Seq<char>, int), DecodeError>(
            e,
        ),
{
    match take_bytes(bytes, at) {
        Err(e) => Err(e),
        Ok((raw, next)) => match text_from_utf8(raw) {
            Some(text) => Ok((text, next)),
            None => Err(DecodeError::InvalidUtf8),
        },
    }
}

fn take_key(bytes: &[u8], at: usize) -> (res: Result<([u8; 32], usize), DecodeError>)
    requires
        at <= bytes.len(),
    ensures
        res matches Ok((key, next)) ==> next <= bytes.len() && read_key(bytes@, at as int) == Ok::<
            (Seq<u8>, int),
            DecodeError,
        >((key@, next as int)),
        res matches Err(e) ==> read_key(bytes@, at as int) == Err::<(Seq<u8>, int), DecodeError>(e),
{
    if bytes.len() - at < 32 {
        Err(DecodeError::UnexpectedEnd)
    } else {
        let mut key: [u8; 32] = [0u8; 32];
        let mut i: usize = 0;
        while i < 32
            invariant
                i <= 32,
                at + 32 <= bytes.len(),
                forall|j: int| 0 <= j < i ==> key@[j] == bytes@[at + j],
            decreases 32 - i,
        {
            key[i] = bytes[at + i];
            i += 1;
        }
        assert(key@ =~= bytes@.subrange(at as int, at + 32));
        Ok((key, at + 32))
    }
}

fn take_entry(bytes: &[u8], at: usize) -> (res: Result<((String, [u8; 32]), usize), DecodeError>)
    requires
        at <= bytes.len(),
    ensures
        res matches Ok((entry, next)) ==> next <= bytes.len() && read_entry(bytes@, at as int)
            == Ok::<((Seq<char>, Seq<u8>), int), DecodeError>(
            ((entry.0@, entry.1@), next as int),
        ),
        res matches Err(e) ==> read_entry(bytes@, at as int) == Err::<
            ((Seq<char>, Seq<u8>), int),
            DecodeError,
        >(e),
{
    match take_text(bytes, at) {
        Err(e) => Err(e),
        Ok((id, next)) => match take_key(bytes, next) {
            Err(e) => Err(e),
            Ok((key, end)) => Ok(((id, key), end)),
        },
    }
}

/// Once an entry cannot be read, asking for more entries gives the same error.
proof fn lemma_read_entries_fails_on(b: Seq<u8>, at: int, failed: nat, count: nat)
    requires
        read_entries(b, at, failed) is Err,
        failed <= count,
    ensures
        read_entries(b, at, count) == read_entries(b, at, failed),
    decreases count,
{
    if failed < count {
        lemma_read_entries_fails_on(b, at, failed, (count - 1) as nat);
    }
}

fn take_entries(bytes: &[u8], at: usize, count: u64) -> (res: Result<
    Vec<(String, [u8; 32])>,
    DecodeError,
>)
    requires
        at <= bytes.len(),
    ensures
        res matches Ok(entries) ==> read_entries(bytes@, at as int, count as nat) matches Ok(found)
            && found.0 == entries_view(entries@),
        res matches Err(e) ==> read_entries(bytes@, at as int, count as nat) == Err::<
            (Seq<(Seq<char>, Seq<u8>)>, int),
            DecodeError,
        >(e),
{
    let mut entries: Vec<(String, [u8; 32])> = Vec::new();
    let mut next: usize = at;
    let mut i: u64 = 0;
    assert(entries_view(entries@) =~= Seq::empty());
    while i < count
        invariant
            i <= count,
            next <= bytes.len(),
            read_entries(bytes@, at as int, i as nat) == Ok::<
                (Seq<(Seq<char>, Seq<u8>)>, int),
                DecodeError,
            >((entries_view(entries@), next as int)),
        decreases count - i,
    {
        match take_entry(bytes, next) {
            Err(e) => {
                proof {
                    lemma_read_entries_fails_on(bytes@, at as int, (i + 1) as nat, count as nat);
                }
                return Err(e);
            },
            Ok((entry, end)) => {
                let ghost before = entries_view(entries@);
                entries.push(entry);
                assert(entries_view(entries@) =~= before.push((entry.0@, entry.1@)));
                next = end;
            },
        }
        i += 1;
    }
    Ok(entries)
}

/// Reads the envelope at the front of `bytes`. What follows it is not
/// looked at. Fails when the buffer ends too early, when the tag names no
/// variant, or when a string is not UTF-8.
pub fn decode(bytes: &[u8]) -> (res: Result<Protocol, DecodeError>)
    ensures
        res matches Ok(message) ==> decode_envelope(bytes@) == Ok::<Envelope, DecodeError>(
            message@,
        ),
        res matches Err(e) ==> decode_envelope(bytes@) == Err::<Envelope, DecodeError>(e),
{
    let (tag, at) = match take_u32(bytes, 0) {
        Err(e) => { return Err(e); },
        Ok(found) => found,
    };
    if tag == TAG_MESSAGE {
        let (from, at_to) = match take_text(bytes, at) {
            Err(e) => { return Err(e); },
            Ok(found) => found,
        };
        let (to, at_content) = match take_text(bytes, at_to) {
            Err(e) => { return Err(e); },
            Ok(found) => found,
        };
        let (content, _) = match take_bytes(bytes, at_content) {
            Err(e) => { return Err(e); },
            Ok(found) => found,
        };
        Ok(Protocol::Message(EncryptedMessage::from_ciphertext(from, to, slice_to_vec(content))))
    } else if tag == TAG_NEW_CONNECTION {
        match take_entry(bytes, at) {
            Err(e) => Err(e),
            Ok((entry, _)) => Ok(Protocol::NewConnection(entry.0, entry.1)),
        }
    } else if tag == TAG_DISCONNECT {
        match take_text(bytes, at) {
            Err(e) => Err(e),
            Ok((id, _)) => Ok(Protocol::Disconnect(id)),
        }
    } else if tag == TAG_PEER_LIST {
        let (count, start) = match take_u64(bytes, at) {
            Err(e) => { return Err(e); },
            Ok(found) => found,
        };
        match take_entries(bytes, start, count) {
            Err(e) => Err(e),
            Ok(entries) => Ok(Protocol::PeerList(entries)),
        }
    } else if tag == TAG_INTERNAL_REMOVE_CONNECTION {
        Ok(Protocol::InternalRemoveConnection)
    } else {
        Err(DecodeError::UnknownVariant(tag))
    }
}

// ---------------------------------------------------------------------------
// Frames
// ---------------------------------------------------------------------------

/// The envelope fits the framing buffer.
pub open spec fn fits_frame(envelope: Envelope) -> bool {
    encode_envelope(envelope).len() <= MESSAGE_PACKET_SIZE
}

/// Whether `message` fits the framing buffer.
pub fn fits(message: &Protocol) -> (ok: bool)
    ensures
        ok == fits_frame(message@),
{
    encode(message).len() <= MESSAGE_PACKET_SIZE
}

/// Writes an envelope that fits the framing buffer, as one frame.
pub fn encode_frame(message: &Protocol) -> (bytes: Vec<u8>)
    requires
        fits_frame(message@),
    ensures
        bytes@ == encode_envelope(message@),
        bytes.len() <= MESSAGE_PACKET_SIZE,
        decode_envelope(bytes@) == Ok::<Envelope, DecodeError>(message@),
{
    encode(message)
}

/// What one read from a connection gave.
#[derive(Debug, PartialEq, Eq)]
pub enum Frame {
    /// An envelope.
    Envelope(Protocol),
    /// Bytes that are no envelope.
    Malformed(DecodeError),
    /// Nothing: the read failed or the connection is at its end.
    Closed,
}

/// Takes what one read gave for one envelope. `received` is nothing where
/// the read failed; no bytes mean that the connection is at its end.
pub fn read_frame(received: Option<&[u8]>) -> (frame: Frame)
    ensures
        match received {
            Some(bytes) if bytes@.len() > 0 => match decode_envelope(bytes@) {
                Ok(envelope) => frame matches Frame::Envelope(message) && message@ == envelope,
                Err(e) => frame matches Frame::Malformed(found) && found == e,
            },
            _ => frame is Closed,
        },
{
    match received {
        Some(bytes) => {
            if bytes.len() == 0 {
                Frame::Closed
            } else {
                match decode(bytes) {
                    Ok(message) => Frame::Envelope(message),
                    Err(e) => Frame::Malformed(e),
                }
            }
        },
        None => Frame::Closed,
    }
}

} // verus!
