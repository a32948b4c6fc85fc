//! The framed wire protocol: the frame type, its canonical binary
//! encoding, and the self-synchronizing codec that turns a raw byte
//! stream back into frames.
//!
//! The encoding writes the variant tag as a 32-bit little-endian
//! discriminant, length-prefixes variable-length byte fields with a 64-bit
//! little-endian length, and lays fixed-size integers down little-endian.
//! 128-bit identifiers travel as a length prefix of 16 followed by the 16
//! little-endian bytes of the value.

use vstd::prelude::*;
use crate::wire::{le_bytes, le_val, pow256, push_le, read_le, lemma_le_bytes_len,
    lemma_le_round_trip, lemma_le_val_bound, lemma_pow256_values};

verus! {

/// A 128-bit universally-unique identifier, carried as its integer value.
pub type Uid = u128;

/// One logical protocol unit: the atomic serialization boundary.
#[derive(Debug, Clone, PartialEq, Eq)]
pub enum PupaFrame {
    /// A peer's self-asserted identity, sent first on the game port.
    Authorize { signature: Uid },
    /// Reserved; unused on the wire in the current design.
    NonAuthorized,
    /// A message emitted by a peer and fanned out to the other peers.
    Content { msg_id: Uid, body: Vec<u8> },
    /// A bid to win the message with the given id.
    Flash { msg_id: Uid },
    /// Notification to a message's sender that it was first-flashed.
    Win { msg_id: Uid, body: Vec<u8> },
    /// Admin query: the sorted leaderboard.
    ShowWinners,
    /// One leaderboard row.
    WinnerRecord { signature: Uid, online: bool, wins: u32, messages_received: u32, messages_sent: u32 },
    /// Admin query: the historical log of wins.
    ShowWinnersLog,
    /// One win-log row.
    WinLogRecord { signature: Uid, timestamp: u128, msg_id: Uid },
}

/// The mathematical value of a frame: bodies as byte sequences.
pub enum FrameModel {
    Authorize { signature: Uid },
    NonAuthorized,
    Content { msg_id: Uid, body: Seq<u8> },
    Flash { msg_id: Uid },
    Win { msg_id: Uid, body: Seq<u8> },
    ShowWinners,
    WinnerRecord { signature: Uid, online: bool, wins: u32, messages_received: u32, messages_sent: u32 },
    ShowWinnersLog,
    WinLogRecord { signature: Uid, timestamp: u128, msg_id: Uid },
}

impl View for PupaFrame {
    type V = FrameModel;

    open spec fn view(&self) -> FrameModel {
        match self {
            PupaFrame::Authorize { signature } => FrameModel::Authorize { signature: *signature },
            PupaFrame::NonAuthorized => FrameModel::NonAuthorized,
            PupaFrame::Content { msg_id, body } => FrameModel::Content { msg_id: *msg_id, body: body@ },
            PupaFrame::Flash { msg_id } => FrameModel::Flash { msg_id: *msg_id },
            PupaFrame::Win { msg_id, body } => FrameModel::Win { msg_id: *msg_id, body: body@ },
            PupaFrame::ShowWinners => FrameModel::ShowWinners,
            PupaFrame::WinnerRecord { signature, online, wins, messages_received, messages_sent } =>
                FrameModel::WinnerRecord {
                    signature: *signature,
                    online: *online,
                    wins: *wins,
                    messages_received: *messages_received,
                    messages_sent: *messages_sent,
                },
            PupaFrame::ShowWinnersLog => FrameModel::ShowWinnersLog,
            PupaFrame::WinLogRecord { signature, timestamp, msg_id } =>
                FrameModel::WinLogRecord { signature: *signature, timestamp: *timestamp, msg_id: *msg_id },
        }
    }
}

/// The error the decoder surfaces when the stream cannot be resynchronized.
#[derive(Debug, Clone, Copy, PartialEq, Eq, Structural)]
pub enum DecodeError {
    /// A second consecutive decode failure: the buffer was discarded.
    Corrupt,
}

// ---------------------------------------------------------------------------
// The encoding, as a mathematical function.
// ---------------------------------------------------------------------------

/// The wire tag of each variant.
pub open spec fn tag_of(f: FrameModel) -> nat {
    match f {
        FrameModel::Authorize { .. } => 0,
        FrameModel::NonAuthorized => 1,
        FrameModel::Content { .. } => 2,
        FrameModel::Flash { .. } => 3,
        FrameModel::Win { .. } => 4,
        FrameModel::ShowWinners => 5,
        FrameModel::WinnerRecord { .. } => 6,
        FrameModel::ShowWinnersLog => 7,
        FrameModel::WinLogRecord { .. } => 8,
    }
}

/// An identifier on the wire: a length prefix of 16, then 16 bytes.
pub open spec fn uid_bytes(u: Uid) -> Seq<u8> {
    le_bytes(16, 8) + le_bytes(u as nat, 16)
}

/// A variable-length byte field on the wire: a 64-bit length, then the bytes.
pub open spec fn len_prefixed(b: Seq<u8>) -> Seq<u8> {
    le_bytes(b.len(), 8) + b
}

/// A boolean on the wire: one byte, 0 or 1.
pub open spec fn bool_byte(b: bool) -> u8 {
    if b { 1 } else { 0 }
}

/// The canonical byte encoding of a frame.
pub open spec fn encode_spec(f: FrameModel) -> Seq<u8> {
    le_bytes(tag_of(f), 4) + match f {
        FrameModel::Authorize { signature } => uid_bytes(signature),
        FrameModel::NonAuthorized => Seq::empty(),
        FrameModel::Content { msg_id, body } => uid_bytes(msg_id) + len_prefixed(body),
        FrameModel::Flash { msg_id } => uid_bytes(msg_id),
        FrameModel::Win { msg_id, body } => uid_bytes(msg_id) + len_prefixed(body),
        FrameModel::ShowWinners => Seq::empty(),
        FrameModel::WinnerRecord { signature, online, wins, messages_received, messages_sent } =>
            uid_bytes(signature) + seq![bool_byte(online)] + le_bytes(wins as nat, 4)
                + le_bytes(messages_received as nat, 4) + le_bytes(messages_sent as nat, 4),
        FrameModel::ShowWinnersLog => Seq::empty(),
        FrameModel::WinLogRecord { signature, timestamp, msg_id } =>
            uid_bytes(signature) + le_bytes(timestamp as nat, 16) + uid_bytes(msg_id),
    }
}

// ---------------------------------------------------------------------------
// The decoding, as a mathematical function. Each helper yields the parsed
// value and the position just past it, or nothing when the bytes at hand do
// not hold a complete, well-formed field.
// ---------------------------------------------------------------------------

/// Parse an identifier at position `i`: the length prefix must be 16.
pub open spec fn parse_uid(s: Seq<u8>, i: int) -> Option<(Uid, int)> {
    if i + 24 <= s.len() && le_val(s.subrange(i, i + 8)) == 16 {
        Some((le_val(s.subrange(i + 8, i + 24)) as Uid, i + 24))
    } else {
        None
    }
}

/// Parse a length-prefixed byte field at position `i`.
pub open spec fn parse_bytes(s: Seq<u8>, i: int) -> Option<(Seq<u8>, int)> {
    if i + 8 <= s.len() {
        let n = le_val(s.subrange(i, i + 8)) as int;
        if i + 8 + n <= s.len() {
            Some((s.subrange(i + 8, i + 8 + n), i + 8 + n))
        } else {
            None
        }
    } else {
        None
    }
}

/// Parse a 32-bit little-endian integer at position `i`.
pub open spec fn parse_u32(s: Seq<u8>, i: int) -> Option<(u32, int)> {
    if i + 4 <= s.len() {
        Some((le_val(s.subrange(i, i + 4)) as u32, i + 4))
    } else {
        None
    }
}

/// Parse a 128-bit little-endian integer at position `i`.
pub open spec fn parse_u128(s: Seq<u8>, i: int) -> Option<(u128, int)> {
    if i + 16 <= s.len() {
        Some((le_val(s.subrange(i, i + 16)) as u128, i + 16))
    } else {
        None
    }
}

/// Parse a boolean byte at position `i`: only 0 and 1 are well-formed.
pub open spec fn parse_bool(s: Seq<u8>, i: int) -> Option<(bool, int)> {
    if i + 1 <= s.len() {
        if s[i] == 0 {
            Some((false, i + 1))
        } else if s[i] == 1 {
            Some((true, i + 1))
        } else {
            None
        }
    } else {
        None
    }
}

/// Attempt to parse one frame from the head of `s`: the frame and the
/// number of bytes it occupies, or nothing when no complete well-formed
/// frame starts there.
pub open spec fn parse_spec(s: Seq<u8>) -> Option<(FrameModel, int)> {
    if s.len() < 4 {
        None
    } else {
        let tag = le_val(s.subrange(0, 4));
        if tag == 0 {
            match parse_uid(s, 4) {
                Some((u, i)) => Some((FrameModel::Authorize { signature: u }, i)),
                None => None,
            }
        } else if tag == 1 {
            Some((FrameModel::NonAuthorized, 4))
        } else if tag == 2 {
            match parse_uid(s, 4) {
                Some((u, i)) => match parse_bytes(s, i) {
                    Some((b, j)) => Some((FrameModel::Content { msg_id: u, body: b }, j)),
                    None => None,
                },
                None => None,
            }
        } else if tag == 3 {
            match parse_uid(s, 4) {
                Some((u, i)) => Some((FrameModel::Flash { msg_id: u }, i)),
                None => None,
            }
        } else if tag == 4 {
            match parse_uid(s, 4) {
                Some((u, i)) => match parse_bytes(s, i) {
                    Some((b, j)) => Some((FrameModel::Win { msg_id: u, body: b }, j)),
                    None => None,
                },
                None => None,
            }
        } else if tag == 5 {
            Some((FrameModel::ShowWinners, 4))
        } else if tag == 6 {
            match parse_uid(s, 4) {
                Some((u, i)) => match parse_bool(s, i) {
                    Some((onl, j)) => match parse_u32(s, j) {
                        Some((w, k)) => match parse_u32(s, k) {
                            Some((mr, l)) => match parse_u32(s, l) {
                                Some((ms, m)) => Some((FrameModel::WinnerRecord {
                                    signature: u,
                                    online: onl,
                                    wins: w,
                                    messages_received: mr,
                                    messages_sent: ms,
                                }, m)),
                                None => None,
                            },
                            None => None,
                        },
                        None => None,
                    },
                    None => None,
                },
                None => None,
            }
        } else if tag == 7 {
            Some((FrameModel::ShowWinnersLog, 4))
        } else if tag == 8 {
            match parse_uid(s, 4) {
                Some((u, i)) => match parse_u128(s, i) {
                    Some((ts, j)) => match parse_uid(s, j) {
                        Some((m, k)) => Some((FrameModel::WinLogRecord {
                            signature: u,
                            timestamp: ts,
                            msg_id: m,
                        }, k)),
                        None => None,
                    },
                    None => None,
                },
                None => None,
            }
        } else {
            None
        }
    }
}

// ---------------------------------------------------------------------------
// The executable encoder.
// ---------------------------------------------------------------------------

/// Append the wire form of an identifier to `out`.
fn push_uid(out: &mut Vec<u8>, u: Uid)
    ensures
        final(out)@ == old(out)@ + uid_bytes(u),
{
    push_le(out, 16, 8);
    push_le(out, u, 16);
    assert(final(out)@ =~= old(out)@ + uid_bytes(u));
}

/// Append the bytes of `b` to `out`.
fn push_vec(out: &mut Vec<u8>, b: &Vec<u8>)
    ensures
        final(out)@ == old(out)@ + b@,
{
    let mut i: usize = 0;
    while i < b.len()
        invariant
            i <= b@.len(),
            out@ == old(out)@ + b@.take(i as int),
        decreases b@.len() - i,
    {
        out.push(b[i]);
        i = i + 1;
        assert(out@ =~= old(out)@ + b@.take(i as int));
    }
    assert(final(out)@ =~= old(out)@ + b@);
}

/// Append a length-prefixed byte field to `out`.
fn push_len_prefixed(out: &mut Vec<u8>, b: &Vec<u8>)
    ensures
        final(out)@ == old(out)@ + len_prefixed(b@),
{
    push_le(out, b.len() as u128, 8);
    push_vec(out, b);
    assert(final(out)@ =~= old(out)@ + len_prefixed(b@));
}

/// Append the canonical encoding of `item` to `out`.
fn encode_frame(item: &PupaFrame, out: &mut Vec<u8>)
    ensures
        final(out)@ == old(out)@ + encode_spec(item@),
{
    match item {
        PupaFrame::Authorize { signature } => {
            push_le(out, 0, 4);
            push_uid(out, *signature);
        }
        PupaFrame::NonAuthorized => {
            push_le(out, 1, 4);
        }
        PupaFrame::Content { msg_id, body } => {
            push_le(out, 2, 4);
            push_uid(out, *msg_id);
            push_len_prefixed(out, body);
        }
        PupaFrame::Flash { msg_id } => {
            push_le(out, 3, 4);
            push_uid(out, *msg_id);
        }
        PupaFrame::Win { msg_id, body } => {
            push_le(out, 4, 4);
            push_uid(out, *msg_id);
            push_len_prefixed(out, body);
        }
        PupaFrame::ShowWinners => {
            push_le(out, 5, 4);
        }
        PupaFrame::WinnerRecord { signature, online, wins, messages_received, messages_sent } => {
            push_le(out, 6, 4);
            push_uid(out, *signature);
            if *online {
                out.push(1);
            } else {
                out.push(0);
            }
            push_le(out, *wins as u128, 4);
            push_le(out, *messages_received as u128, 4);
            push_le(out, *messages_sent as u128, 4);
        }
        PupaFrame::ShowWinnersLog => {
            push_le(out, 7, 4);
        }
        PupaFrame::WinLogRecord { signature, timestamp, msg_id } => {
            push_le(out, 8, 4);
            push_uid(out, *signature);
            push_le(out, *timestamp, 16);
            push_uid(out, *msg_id);
        }
    }
    assert(final(out)@ =~= old(out)@ + encode_spec(item@));
}

// ---------------------------------------------------------------------------
// Laws of the codec.
// ---------------------------------------------------------------------------

/// A frame a machine can hold: variable-length bodies fit their 64-bit
/// length prefix. Every frame built from a `Vec` satisfies this.
pub open spec fn frame_wf(f: FrameModel) -> bool {
    match f {
        FrameModel::Content { body, .. } => body.len() < pow256(8),
        FrameModel::Win { body, .. } => body.len() < pow256(8),
        _ => true,
    }
}

/// An identifier occupies 24 bytes on the wire.
proof fn lemma_uid_bytes_len(u: Uid)
    ensures
        uid_bytes(u).len() == 24,
{
    lemma_le_bytes_len(16, 8);
    lemma_le_bytes_len(u as nat, 16);
}

/// A subrange of a take is a subrange of the underlying sequence.
proof fn lemma_take_subrange(s: Seq<u8>, k: int, a: int, b: int)
    requires
        0 <= a <= b <= k <= s.len(),
    ensures
        s.take(k).subrange(a, b) == s.subrange(a, b),
{
    assert(s.take(k).subrange(a, b) =~= s.subrange(a, b));
}

/// An identifier laid down at position `i` parses back.
proof fn lemma_parse_uid_at(s: Seq<u8>, i: int, u: Uid, post: Seq<u8>)
    requires
        0 <= i <= s.len(),
        s.subrange(i, s.len() as int) == uid_bytes(u) + post,
    ensures
        parse_uid(s, i) == Some((u, i + 24)),
{
    lemma_uid_bytes_len(u);
    lemma_le_bytes_len(16, 8);
    lemma_le_bytes_len(u as nat, 16);
    lemma_pow256_values();
    let t = s.subrange(i, s.len() as int);
    assert(t.len() == 24 + post.len());
    assert(s.subrange(i, i + 8) =~= le_bytes(16, 8));
    lemma_le_round_trip(16, 8);
    assert forall|j: int| 0 <= j < 16 implies s.subrange(i + 8, i + 24)[j] == le_bytes(u as nat, 16)[j] by {
        assert(s.subrange(i + 8, i + 24)[j] == s[i + 8 + j]);
        assert(t[8 + j] == s[i + 8 + j]);
        assert(t[8 + j] == (uid_bytes(u) + post)[8 + j]);
        assert(uid_bytes(u)[8 + j] == le_bytes(u as nat, 16)[j]);
    }
    assert(s.subrange(i + 8, i + 24) =~= le_bytes(u as nat, 16));
    lemma_le_round_trip(u as nat, 16);
}

/// A length-prefixed byte field laid down at position `i` parses back.
proof fn lemma_parse_bytes_at(s: Seq<u8>, i: int, b: Seq<u8>, post: Seq<u8>)
    requires
        0 <= i <= s.len(),
        b.len() < pow256(8),
        s.subrange(i, s.len() as int) == len_prefixed(b) + post,
    ensures
        parse_bytes(s, i) == Some((b, i + 8 + b.len())),
{
    lemma_le_bytes_len(b.len(), 8);
    let t = s.subrange(i, s.len() as int);
    assert(t.len() == 8 + b.len() + post.len());
    assert(s.subrange(i, i + 8) =~= le_bytes(b.len(), 8));
    lemma_le_round_trip(b.len(), 8);
    assert forall|j: int| 0 <= j < b.len() implies s.subrange(i + 8, i + 8 + b.len())[j] == b[j] by {
        assert(s.subrange(i + 8, i + 8 + b.len())[j] == s[i + 8 + j]);
        assert(t[8 + j] == s[i + 8 + j]);
        assert(t[8 + j] == (len_prefixed(b) + post)[8 + j]);
        assert(len_prefixed(b)[8 + j] == b[j]);
    }
    assert(s.subrange(i + 8, i + 8 + b.len()) =~= b);
}

/// A 32-bit field laid down at position `i` parses back.
proof fn lemma_parse_u32_at(s: Seq<u8>, i: int, v: u32, post: Seq<u8>)
    requires
        0 <= i <= s.len(),
        s.subrange(i, s.len() as int) == le_bytes(v as nat, 4) + post,
    ensures
        parse_u32(s, i) == Some((v, i + 4)),
{
    lemma_le_bytes_len(v as nat, 4);
    lemma_pow256_values();
    let t = s.subrange(i, s.len() as int);
    assert(t.len() == 4 + post.len());
    assert(s.subrange(i, i + 4) =~= le_bytes(v as nat, 4));
    lemma_le_round_trip(v as nat, 4);
}

/// A 128-bit field laid down at position `i` parses back.
proof fn lemma_parse_u128_at(s: Seq<u8>, i: int, v: u128, post: Seq<u8>)
    requires
        0 <= i <= s.len(),
        s.subrange(i, s.len() as int) == le_bytes(v as nat, 16) + post,
    ensures
        parse_u128(s, i) == Some((v, i + 16)),
{
    lemma_le_bytes_len(v as nat, 16);
    lemma_pow256_values();
    let t = s.subrange(i, s.len() as int);
    assert(t.len() == 16 + post.len());
    assert(s.subrange(i, i + 16) =~= le_bytes(v as nat, 16));
    lemma_le_round_trip(v as nat, 16);
}

/// A boolean byte laid down at position `i` parses back.
proof fn lemma_parse_bool_at(s: Seq<u8>, i: int, v: bool, post: Seq<u8>)
    requires
        0 <= i <= s.len(),
        s.subrange(i, s.len() as int) == seq![bool_byte(v)] + post,
    ensures
        parse_bool(s, i) == Some((v, i + 1)),
{
    let t = s.subrange(i, s.len() as int);
    assert(t.len() == 1 + post.len());
    assert(s[i] == t[0]);
    assert(t[0] == bool_byte(v));
}

/// Parsing a well-formed frame's encoding, with any trailing bytes behind
/// it, yields exactly that frame and consumes exactly its encoding.
#[verifier::rlimit(100)]
#[verifier::spinoff_prover]
pub proof fn lemma_parse_encode(f: FrameModel, rest: Seq<u8>)
    requires
        frame_wf(f),
    ensures
        parse_spec(encode_spec(f) + rest) == Some((f, encode_spec(f).len() as int)),
{
    let e = encode_spec(f);
    let s = e + rest;
    let tag = tag_of(f);
    lemma_le_bytes_len(tag, 4);
    lemma_pow256_values();
    lemma_le_round_trip(tag, 4);
    assert(s.subrange(0, 4) =~= le_bytes(tag, 4));
    match f {
        FrameModel::Authorize { signature } => {
            lemma_uid_bytes_len(signature);
            assert(s.subrange(4, s.len() as int) =~= uid_bytes(signature) + rest);
            lemma_parse_uid_at(s, 4, signature, rest);
            assert(e.len() == 28);
        }
        FrameModel::NonAuthorized => {
            assert(e.len() == 4);
        }
        FrameModel::Content { msg_id, body } => {
            lemma_uid_bytes_len(msg_id);
            lemma_le_bytes_len(body.len(), 8);
            assert(s.subrange(4, s.len() as int) =~= uid_bytes(msg_id) + (len_prefixed(body) + rest));
            lemma_parse_uid_at(s, 4, msg_id, len_prefixed(body) + rest);
            assert(s.subrange(28, s.len() as int) =~= len_prefixed(body) + rest);
            lemma_parse_bytes_at(s, 28, body, rest);
            assert(e.len() == 36 + body.len());
        }
        FrameModel::Flash { msg_id } => {
            lemma_uid_bytes_len(msg_id);
            assert(s.subrange(4, s.len() as int) =~= uid_bytes(msg_id) + rest);
            lemma_parse_uid_at(s, 4, msg_id, rest);
            assert(e.len() == 28);
        }
        FrameModel::Win { msg_id, body } => {
            lemma_uid_bytes_len(msg_id);
            lemma_le_bytes_len(body.len(), 8);
            assert(s.subrange(4, s.len() as int) =~= uid_bytes(msg_id) + (len_prefixed(body) + rest));
            lemma_parse_uid_at(s, 4, msg_id, len_prefixed(body) + rest);
            assert(s.subrange(28, s.len() as int) =~= len_prefixed(body) + rest);
            lemma_parse_bytes_at(s, 28, body, rest);
            assert(e.len() == 36 + body.len());
        }
        FrameModel::ShowWinners => {
            assert(e.len() == 4);
        }
        FrameModel::WinnerRecord { signature, online, wins, messages_received, messages_sent } => {
            lemma_uid_bytes_len(signature);
            lemma_le_bytes_len(wins as nat, 4);
            lemma_le_bytes_len(messages_received as nat, 4);
            lemma_le_bytes_len(messages_sent as nat, 4);
            let after_uid = seq![bool_byte(online)] + le_bytes(wins as nat, 4)
                + le_bytes(messages_received as nat, 4) + le_bytes(messages_sent as nat, 4) + rest;
            assert(s.subrange(4, s.len() as int) =~= uid_bytes(signature) + after_uid);
            lemma_parse_uid_at(s, 4, signature, after_uid);
            let after_bool = le_bytes(wins as nat, 4) + le_bytes(messages_received as nat, 4)
                + le_bytes(messages_sent as nat, 4) + rest;
            assert(s.subrange(28, s.len() as int) =~= seq![bool_byte(online)] + after_bool);
            lemma_parse_bool_at(s, 28, online, after_bool);
            let after_wins = le_bytes(messages_received as nat, 4) + le_bytes(messages_sent as nat, 4) + rest;
            assert(s.subrange(29, s.len() as int) =~= le_bytes(wins as nat, 4) + after_wins);
            lemma_parse_u32_at(s, 29, wins, after_wins);
            let after_mr = le_bytes(messages_sent as nat, 4) + rest;
            assert(s.subrange(33, s.len() as int) =~= le_bytes(messages_received as nat, 4) + after_mr);
            lemma_parse_u32_at(s, 33, messages_received, after_mr);
            assert(s.subrange(37, s.len() as int) =~= le_bytes(messages_sent as nat, 4) + rest);
            lemma_parse_u32_at(s, 37, messages_sent, rest);
            assert(e.len() == 41);
        }
        FrameModel::ShowWinnersLog => {
            assert(e.len() == 4);
        }
        FrameModel::WinLogRecord { signature, timestamp, msg_id } => {
            lemma_uid_bytes_len(signature);
            lemma_uid_bytes_len(msg_id);
            lemma_le_bytes_len(timestamp as nat, 16);
            let after_sig = le_bytes(timestamp as nat, 16) + uid_bytes(msg_id) + rest;
            assert(s.subrange(4, s.len() as int) =~= uid_bytes(signature) + after_sig);
            lemma_parse_uid_at(s, 4, signature, after_sig);
            let after_ts = uid_bytes(msg_id) + rest;
            assert(s.subrange(28, s.len() as int) =~= le_bytes(timestamp as nat, 16) + after_ts);
            lemma_parse_u128_at(s, 28, timestamp, after_ts);
            assert(s.subrange(44, s.len() as int) =~= uid_bytes(msg_id) + rest);
            lemma_parse_uid_at(s, 44, msg_id, rest);
            assert(e.len() == 68);
        }
    }
}

/// A parse that succeeds on a prefix of a stream succeeds identically on
/// the whole stream: extra trailing bytes change nothing.
proof fn lemma_parse_uid_stable(s: Seq<u8>, k: int, i: int)
    requires
        0 <= k <= s.len(),
        0 <= i,
        parse_uid(s.take(k), i) is Some,
    ensures
        parse_uid(s, i) == parse_uid(s.take(k), i),
{
    lemma_take_subrange(s, k, i, i + 8);
    lemma_take_subrange(s, k, i + 8, i + 24);
}

proof fn lemma_parse_bytes_stable(s: Seq<u8>, k: int, i: int)
    requires
        0 <= k <= s.len(),
        0 <= i,
        parse_bytes(s.take(k), i) is Some,
    ensures
        parse_bytes(s, i) == parse_bytes(s.take(k), i),
{
    lemma_take_subrange(s, k, i, i + 8);
    let n = le_val(s.subrange(i, i + 8)) as int;
    lemma_take_subrange(s, k, i + 8, i + 8 + n);
}

proof fn lemma_parse_u32_stable(s: Seq<u8>, k: int, i: int)
    requires
        0 <= k <= s.len(),
        0 <= i,
        parse_u32(s.take(k), i) is Some,
    ensures
        parse_u32(s, i) == parse_u32(s.take(k), i),
{
    lemma_take_subrange(s, k, i, i + 4);
}

proof fn lemma_parse_u128_stable(s: Seq<u8>, k: int, i: int)
    requires
        0 <= k <= s.len(),
        0 <= i,
        parse_u128(s.take(k), i) is Some,
    ensures
        parse_u128(s, i) == parse_u128(s.take(k), i),
{
    lemma_take_subrange(s, k, i, i + 16);
}

proof fn lemma_parse_bool_stable(s: Seq<u8>, k: int, i: int)
    requires
        0 <= k <= s.len(),
        0 <= i,
        parse_bool(s.take(k), i) is Some,
    ensures
        parse_bool(s, i) == parse_bool(s.take(k), i),
{
}

/// Whatever parses from a prefix of a stream parses identically from the
/// whole stream.
proof fn lemma_parse_stable(s: Seq<u8>, k: int)
    requires
        0 <= k <= s.len(),
        parse_spec(s.take(k)) is Some,
    ensures
        parse_spec(s) == parse_spec(s.take(k)),
{
    let t = s.take(k);
    lemma_take_subrange(s, k, 0, 4);
    let tag = le_val(t.subrange(0, 4));
    if tag == 0 || tag == 3 {
        lemma_parse_uid_stable(s, k, 4);
    } else if tag == 2 || tag == 4 {
        lemma_parse_uid_stable(s, k, 4);
        if let Some((u, i)) = parse_uid(t, 4) {
            lemma_parse_bytes_stable(s, k, i);
        }
    } else if tag == 6 {
        lemma_parse_uid_stable(s, k, 4);
        if let Some((u, i)) = parse_uid(t, 4) {
            lemma_parse_bool_stable(s, k, i);
            if let Some((onl, j)) = parse_bool(t, i) {
                lemma_parse_u32_stable(s, k, j);
                if let Some((w, l)) = parse_u32(t, j) {
                    lemma_parse_u32_stable(s, k, l);
                    if let Some((mr, m)) = parse_u32(t, l) {
                        lemma_parse_u32_stable(s, k, m);
                    }
                }
            }
        }
    } else if tag == 8 {
        lemma_parse_uid_stable(s, k, 4);
        if let Some((u, i)) = parse_uid(t, 4) {
            lemma_parse_u128_stable(s, k, i);
            if let Some((ts, j)) = parse_u128(t, i) {
                lemma_parse_uid_stable(s, k, j);
            }
        }
    }
}

/// A successful parse consumes at least the tag and at most the buffer.
proof fn lemma_parse_pos(s: Seq<u8>)
    ensures
        match parse_spec(s) {
            Some((f, n)) => 4 <= n <= s.len(),
            None => true,
        },
{
}

/// Codec round trip: the encoding of a well-formed frame decodes to
/// exactly that frame, consuming the whole buffer.
pub proof fn lemma_codec_round_trip(f: FrameModel)
    requires
        frame_wf(f),
    ensures
        parse_spec(encode_spec(f)) == Some((f, encode_spec(f).len() as int)),
{
    lemma_parse_encode(f, Seq::empty());
    assert(encode_spec(f) + Seq::empty() =~= encode_spec(f));
}

/// Codec pipelining: two encodings laid back to back decode to the first
/// frame and then the second, with nothing left over.
pub proof fn lemma_codec_pipelining(f1: FrameModel, f2: FrameModel)
    requires
        frame_wf(f1),
        frame_wf(f2),
    ensures
        parse_spec(encode_spec(f1) + encode_spec(f2))
            == Some((f1, encode_spec(f1).len() as int)),
        (encode_spec(f1) + encode_spec(f2))
            .subrange(encode_spec(f1).len() as int, (encode_spec(f1) + encode_spec(f2)).len() as int)
            == encode_spec(f2),
        parse_spec(encode_spec(f2)) == Some((f2, encode_spec(f2).len() as int)),
{
    lemma_parse_encode(f1, encode_spec(f2));
    let s = encode_spec(f1) + encode_spec(f2);
    assert(s.subrange(encode_spec(f1).len() as int, s.len() as int) =~= encode_spec(f2));
    lemma_codec_round_trip(f2);
}

/// Codec fragmentation tolerance: no strict prefix of an encoding parses
/// as a frame, so the decoder asks for more bytes until the rest arrives.
pub proof fn lemma_codec_fragmentation(f: FrameModel, k: int)
    requires
        frame_wf(f),
        0 <= k < encode_spec(f).len(),
    ensures
        parse_spec(encode_spec(f).take(k)) is None,
{
    let e = encode_spec(f);
    if parse_spec(e.take(k)) is Some {
        lemma_parse_stable(e, k);
        lemma_codec_round_trip(f);
        lemma_parse_pos(e.take(k));
        assert(false);
    }
}

// ---------------------------------------------------------------------------
// The executable parser.
// ---------------------------------------------------------------------------

/// Read an identifier field at offset `i`, as `parse_uid` describes.
fn read_uid(buf: &Vec<u8>, i: usize) -> (r: Option<(Uid, usize)>)
    ensures
        match r {
            Some((u, j)) => parse_uid(buf@, i as int) == Some((u, j as int)) && j <= buf@.len(),
            None => parse_uid(buf@, i as int) is None,
        },
{
    let blen = buf.len();
    if blen >= 24 && i <= blen - 24 {
        let pfx = read_le(buf, i, 8);
        if pfx == 16 {
            let v = read_le(buf, i + 8, 16);
            proof {
                lemma_le_val_bound(buf@.subrange(i + 8, i + 24));
                lemma_pow256_values();
            }
            Some((v, i + 24))
        } else {
            None
        }
    } else {
        None
    }
}

/// Read a length-prefixed byte field at offset `i`, as `parse_bytes`
/// describes.
fn read_bytes(buf: &Vec<u8>, i: usize) -> (r: Option<(Vec<u8>, usize)>)
    ensures
        match r {
            Some((b, j)) => parse_bytes(buf@, i as int) == Some((b@, j as int)) && j <= buf@.len(),
            None => parse_bytes(buf@, i as int) is None,
        },
{
    let blen = buf.len();
    if blen >= 8 && i <= blen - 8 {
        let n128 = read_le(buf, i, 8);
        let start = i + 8;
        let rem = blen - start;
        if n128 <= rem as u128 {
            let n = n128 as usize;
            let mut out: Vec<u8> = Vec::new();
            let mut j: usize = 0;
            while j < n
                invariant
                    j <= n,
                    start + n <= blen,
                    blen == buf@.len(),
                    out@ == buf@.subrange(start as int, start + j),
                decreases n - j,
            {
                out.push(buf[start + j]);
                j = j + 1;
                assert(out@ =~= buf@.subrange(start as int, start + j));
            }
            Some((out, start + n))
        } else {
            None
        }
    } else {
        None
    }
}

/// Read a 32-bit little-endian field at offset `i`, as `parse_u32`
/// describes.
fn read_u32(buf: &Vec<u8>, i: usize) -> (r: Option<(u32, usize)>)
    ensures
        match r {
            Some((v, j)) => parse_u32(buf@, i as int) == Some((v, j as int)) && j <= buf@.len(),
            None => parse_u32(buf@, i as int) is None,
        },
{
    let blen = buf.len();
    if blen >= 4 && i <= blen - 4 {
        let v = read_le(buf, i, 4);
        proof {
            lemma_le_val_bound(buf@.subrange(i as int, i + 4));
            lemma_pow256_values();
        }
        Some((v as u32, i + 4))
    } else {
        None
    }
}

/// Read a 128-bit little-endian field at offset `i`, as `parse_u128`
/// describes.
fn read_u128(buf: &Vec<u8>, i: usize) -> (r: Option<(u128, usize)>)
    ensures
        match r {
            Some((v, j)) => parse_u128(buf@, i as int) == Some((v, j as int)) && j <= buf@.len(),
            None => parse_u128(buf@, i as int) is None,
        },
{
    let blen = buf.len();
    if blen >= 16 && i <= blen - 16 {
        let v = read_le(buf, i, 16);
        proof {
            lemma_le_val_bound(buf@.subrange(i as int, i + 16));
            lemma_pow256_values();
        }
        Some((v, i + 16))
    } else {
        None
    }
}

/// Read a boolean byte at offset `i`, as `parse_bool` describes.
fn read_bool(buf: &Vec<u8>, i: usize) -> (r: Option<(bool, usize)>)
    ensures
        match r {
            Some((v, j)) => parse_bool(buf@, i as int) == Some((v, j as int)) && j <= buf@.len(),
            None => parse_bool(buf@, i as int) is None,
        },
{
    let blen = buf.len();
    if i < blen {
        let b = buf[i];
        if b == 0 {
            Some((false, i + 1))
        } else if b == 1 {
            Some((true, i + 1))
        } else {
            None
        }
    } else {
        None
    }
}

/// Attempt to parse one complete frame from the head of `buf`, as
/// `parse_spec` describes.
fn try_parse(buf: &Vec<u8>) -> (r: Option<(PupaFrame, usize)>)
    ensures
        match r {
            Some((f, n)) => parse_spec(buf@) == Some((f@, n as int)) && n <= buf@.len(),
            None => parse_spec(buf@) is None,
        },
{
    let blen = buf.len();
    if blen < 4 {
        return None;
    }
    let tag = read_le(buf, 0, 4);
    if tag == 0 {
        match read_uid(buf, 4) {
            Some((u, i)) => Some((PupaFrame::Authorize { signature: u }, i)),
            None => None,
        }
    } else if tag == 1 {
        Some((PupaFrame::NonAuthorized, 4))
    } else if tag == 2 {
        match read_uid(buf, 4) {
            Some((u, i)) => match read_bytes(buf, i) {
                Some((b, j)) => Some((PupaFrame::Content { msg_id: u, body: b }, j)),
                None => None,
            },
            None => None,
        }
    } else if tag == 3 {
        match read_uid(buf, 4) {
            Some((u, i)) => Some((PupaFrame::Flash { msg_id: u }, i)),
            None => None,
        }
    } else if tag == 4 {
        match read_uid(buf, 4) {
            Some((u, i)) => match read_bytes(buf, i) {
                Some((b, j)) => Some((PupaFrame::Win { msg_id: u, body: b }, j)),
                None => None,
            },
            None => None,
        }
    } else if tag == 5 {
        Some((PupaFrame::ShowWinners, 4))
    } else if tag == 6 {
        match read_uid(buf, 4) {
            Some((u, i)) => match read_bool(buf, i) {
                Some((onl, j)) => match read_u32(buf, j) {
                    Some((w, k)) => match read_u32(buf, k) {
                        Some((mr, l)) => match read_u32(buf, l) {
                            Some((ms, m)) => Some((PupaFrame::WinnerRecord {
                                signature: u,
                                online: onl,
                                wins: w,
                                messages_received: mr,
                                messages_sent: ms,
                            }, m)),
                            None => None,
                        },
                        None => None,
                    },
                    None => None,
                },
                None => None,
            },
            None => None,
        }
    } else if tag == 7 {
        Some((PupaFrame::ShowWinnersLog, 4))
    } else if tag == 8 {
        match read_uid(buf, 4) {
            Some((u, i)) => match read_u128(buf, i) {
                Some((ts, j)) => match read_uid(buf, j) {
                    Some((m, k)) => Some((PupaFrame::WinLogRecord {
                        signature: u,
                        timestamp: ts,
                        msg_id: m,
                    }, k)),
                    None => None,
                },
                None => None,
            },
            None => None,
        }
    } else {
        None
    }
}

/// Drop the first `n` bytes of `buf`, keeping the rest in order.
fn advance(buf: &mut Vec<u8>, n: usize)
    requires
        n <= old(buf)@.len(),
    ensures
        final(buf)@ == old(buf)@.subrange(n as int, old(buf)@.len() as int),
{
    let blen = buf.len();
    let mut rest: Vec<u8> = Vec::new();
    let mut i: usize = n;
    while i < blen
        invariant
            n <= i <= blen,
            blen == buf@.len(),
            buf@ == old(buf)@,
            rest@ == buf@.subrange(n as int, i as int),
        decreases blen - i,
    {
        rest.push(buf[i]);
        i = i + 1;
        assert(rest@ =~= buf@.subrange(n as int, i as int));
    }
    *buf = rest;
}

// ---------------------------------------------------------------------------
// The codec.
// ---------------------------------------------------------------------------

/// The framed codec over an append-only byte buffer. It keeps one bit of
/// resynchronization state per stream direction: whether the last attempt
/// already waited for more bytes.
#[derive(Clone)]
pub struct PupaCodec {
    already_waited: bool,
}

impl PupaCodec {
    /// Whether the codec has already waited once since the last success.
    pub closed spec fn waited(&self) -> bool {
        self.already_waited
    }

    pub fn new() -> (c: PupaCodec)
        ensures
            !c.waited(),
    {
        PupaCodec { already_waited: false }
    }

    /// Append the canonical encoding of `item` to `buffer`. Every frame a
    /// machine can build is well formed, so the encoding is guaranteed to
    /// parse back (see `lemma_codec_round_trip`).
    pub fn encode(&mut self, item: PupaFrame, buffer: &mut Vec<u8>)
        ensures
            final(buffer)@ == old(buffer)@ + encode_spec(item@),
            frame_wf(item@),
            final(self).waited() == old(self).waited(),
    {
        proof {
            lemma_pow256_values();
        }
        match &item {
            PupaFrame::Content { body, .. } => {
                let _n = body.len();
            }
            PupaFrame::Win { body, .. } => {
                let _n = body.len();
            }
            _ => {}
        }
        encode_frame(&item, buffer);
    }

    /// Attempt to decode one frame from the head of `buf`.
    ///
    /// An empty buffer asks for more bytes. When a complete frame starts
    /// the buffer, it is returned and exactly its bytes are consumed,
    /// leaving any pipelined trailing bytes in place. When no complete
    /// frame can be read, the first failure since the last success asks
    /// for more bytes and sets the one-shot waited flag; a second
    /// consecutive failure clears the flag, discards the buffer, and
    /// surfaces a decode error.
    pub fn decode(&mut self, buf: &mut Vec<u8>) -> (r: Result<Option<PupaFrame>, DecodeError>)
        ensures
            old(buf)@.len() == 0 ==> r == Ok::<Option<PupaFrame>, DecodeError>(None)
                && final(buf)@ == old(buf)@
                && final(self).waited() == old(self).waited(),
            old(buf)@.len() > 0 && parse_spec(old(buf)@) is Some ==> ({
                &&& match (r, parse_spec(old(buf)@)) {
                    (Ok(Some(f)), Some((fm, n))) => f@ == fm
                        && final(buf)@ == old(buf)@.subrange(n, old(buf)@.len() as int),
                    _ => false,
                }
                &&& !final(self).waited()
            }),
            old(buf)@.len() > 0 && parse_spec(old(buf)@) is None && !old(self).waited() ==>
                r == Ok::<Option<PupaFrame>, DecodeError>(None)
                && final(buf)@ == old(buf)@
                && final(self).waited(),
            old(buf)@.len() > 0 && parse_spec(old(buf)@) is None && old(self).waited() ==>
                r == Err::<Option<PupaFrame>, DecodeError>(DecodeError::Corrupt)
                && final(buf)@.len() == 0
                && !final(self).waited(),
    {
        if buf.len() == 0 {
            return Ok(None);
        }
        match try_parse(buf) {
            Some((f, n)) => {
                advance(buf, n);
                self.already_waited = false;
                Ok(Some(f))
            }
            None => {
                if self.already_waited {
                    self.already_waited = false;
                    buf.clear();
                    Err(DecodeError::Corrupt)
                } else {
                    self.already_waited = true;
                    Ok(None)
                }
            }
        }
    }
}

} // verus!
