//! Canonical binary codecs for the persisted artifacts: transactions,
//! blocks, states, round states and finality certificates.
//!
//! Every decoder carries the round trip in its contract: decoding any byte
//! string that begins with the encoding of a value yields exactly that
//! value and consumes exactly its encoding; and whatever a decoder accepts
//! re-encodes to the bytes it consumed.

use vstd::prelude::*;
use vstd::bytes::{spec_u64_from_le_bytes, spec_u64_to_le_bytes, u64_from_le_bytes};
use crate::bytes::{push_slice, push_u64_le, read_bytes32, read_bytes64, read_vec};
use crate::tx::{Transaction, TransactionView};
use crate::messages::{Commit, FinalityCertificate, FinalityCertificateView, Phase, Prevote, Proposal, ProposalView, RoundState, RoundStateView, PrevoteSet, CommitSet, opt_proposal_view};
use crate::state::{AccountEntry, State};
use crate::block::{txs_view, Block, BlockView};
use crate::validators::{Signature64, ValidatorId};

verus! {

/// Bytes prefixed by their length as a little-endian u64.
pub open spec fn spec_encode_bytes(b: Seq<u8>) -> Seq<u8> {
    spec_u64_to_le_bytes(b.len() as u64) + b
}

/// The canonical encoding of a transaction.
pub open spec fn spec_encode_tx(t: TransactionView) -> Seq<u8> {
    t.from@ + t.to@ + spec_u64_to_le_bytes(t.amount) + spec_u64_to_le_bytes(t.nonce)
        + spec_encode_bytes(t.payload) + spec_encode_bytes(t.signature)
}

/// Append the length-prefixed encoding of `b` to `out`.
fn push_encoded_bytes(out: &mut Vec<u8>, b: &Vec<u8>)
    ensures
        final(out)@ == old(out)@ + spec_encode_bytes(b@),
{
    let len = b.len();
    push_u64_le(out, len as u64);
    push_slice(out, b.as_slice());
}

/// Encode a transaction.
pub fn encode_transaction(t: &Transaction) -> (r: Vec<u8>)
    ensures
        r@ == spec_encode_tx(t@),
{
    let mut out: Vec<u8> = Vec::new();
    crate::bytes::push_bytes32(&mut out, &t.from);
    crate::bytes::push_bytes32(&mut out, &t.to);
    push_u64_le(&mut out, t.amount);
    push_u64_le(&mut out, t.nonce);
    push_encoded_bytes(&mut out, &t.payload);
    push_encoded_bytes(&mut out, &t.signature);
    out
}

/// Read a little-endian u64 at `pos`; fails only when fewer than 8 bytes
/// remain.
fn read_u64(src: &[u8], pos: usize) -> (r: Option<(u64, usize)>)
    requires
        pos <= src@.len(),
    ensures
        r is Some <==> pos + 8 <= src@.len(),
        r matches Some((v, end)) ==> end == pos + 8 && spec_u64_to_le_bytes(v) == src@.subrange(
            pos as int,
            pos + 8,
        ),
{
    let n = src.len();
    if n - pos < 8 {
        return None;
    }
    let slice = crate::bytes::read_vec(src, pos, pos + 8);
    let v = u64_from_le_bytes(slice.as_slice());
    proof {
        vstd::bytes::lemma_auto_spec_u64_to_from_le_bytes();
    }
    Some((v, pos + 8))
}

/// Read length-prefixed bytes at `pos`.
fn read_len_bytes(src: &[u8], pos: usize) -> (r: Option<(Vec<u8>, usize)>)
    requires
        pos <= src@.len(),
    ensures
        r matches Some((v, end)) ==> pos <= end <= src@.len() && src@.subrange(pos as int, end as int)
            == spec_encode_bytes(v@),
        forall|b: Seq<u8>, rest: Seq<u8>|
            src@.skip(pos as int) == spec_encode_bytes(b) + rest && b.len() <= u64::MAX ==> (
            r matches Some((v, end)) && v@ == b && end == pos + spec_encode_bytes(b).len()),
{
    let n = src.len();
    let (len, p1) = match read_u64(src, pos) {
        Some(x) => x,
        None => {
            proof {
                lemma_no_room_for_bytes(src@, pos as int);
            }
            return None;
        },
    };
    if len > (n - p1) as u64 {
        proof {
            assert forall|b: Seq<u8>, rest: Seq<u8>|
                src@.skip(pos as int) == spec_encode_bytes(b) + rest && b.len()
                    <= u64::MAX implies false by {
                vstd::bytes::lemma_auto_spec_u64_to_from_le_bytes();
                lemma_prefix_subrange(spec_encode_bytes(b), rest, src@, pos as int, 0, 8);
                assert(spec_encode_bytes(b).subrange(0, 8) =~= spec_u64_to_le_bytes(
                    b.len() as u64,
                ));
                assert(spec_u64_from_le_bytes(spec_u64_to_le_bytes(len)) == spec_u64_from_le_bytes(
                    spec_u64_to_le_bytes(b.len() as u64),
                ));
                assert(len == b.len());
                assert(src@.skip(pos as int).len() == src@.len() - pos);
                assert(spec_encode_bytes(b).len() == 8 + b.len());
            }
        }
        return None;
    }
    let end = p1 + (len as usize);
    let v = read_vec(src, p1, end);
    proof {
        assert(src@.subrange(pos as int, end as int) =~= spec_encode_bytes(v@));
        assert forall|b: Seq<u8>, rest: Seq<u8>|
            src@.skip(pos as int) == spec_encode_bytes(b) + rest && b.len()
                <= u64::MAX implies v@ == b && end == pos + spec_encode_bytes(b).len() by {
            vstd::bytes::lemma_auto_spec_u64_to_from_le_bytes();
            lemma_prefix_subrange(spec_encode_bytes(b), rest, src@, pos as int, 0, 8);
            assert(spec_encode_bytes(b).subrange(0, 8) =~= spec_u64_to_le_bytes(b.len() as u64));
            assert(spec_u64_from_le_bytes(spec_u64_to_le_bytes(len)) == spec_u64_from_le_bytes(
                spec_u64_to_le_bytes(b.len() as u64),
            ));
            assert(len == b.len());
            lemma_prefix_subrange(
                spec_encode_bytes(b),
                rest,
                src@,
                pos as int,
                8,
                8 + b.len() as int,
            );
            assert(spec_encode_bytes(b).subrange(8, 8 + b.len() as int) =~= b);
            assert(v@ =~= b);
        }
    }
    Some((v, end))
}

/// Read 32 raw bytes at `pos`.
fn read_b32(src: &[u8], pos: usize) -> (r: Option<([u8; 32], usize)>)
    requires
        pos <= src@.len(),
    ensures
        r is Some <==> pos + 32 <= src@.len(),
        r matches Some((v, end)) ==> end == pos + 32 && v@ == src@.subrange(pos as int, pos + 32),
{
    let n = src.len();
    if n - pos < 32 {
        return None;
    }
    Some((read_bytes32(src, pos), pos + 32))
}

/// In `whole` whose tail at `pos` is `a + b`, the slice between `i` and
/// `j` within `a` equals the matching slice of `whole`.
proof fn lemma_prefix_subrange(a: Seq<u8>, b: Seq<u8>, whole: Seq<u8>, pos: int, i: int, j: int)
    requires
        0 <= pos <= whole.len(),
        whole.skip(pos) == a + b,
        0 <= i <= j <= a.len(),
    ensures
        whole.subrange(pos + i, pos + j) == a.subrange(i, j),
{
    assert(whole.skip(pos).len() == whole.len() - pos);
    assert(whole.subrange(pos + i, pos + j) =~= a.subrange(i, j)) by {
        assert forall|k: int| 0 <= k < j - i implies whole.subrange(pos + i, pos + j)[k]
            == a.subrange(i, j)[k] by {
            assert(whole.skip(pos)[i + k] == whole[pos + (i + k)]);
            assert((a + b)[i + k] == a[i + k]);
        }
    }
}

/// In `whole` whose tail at `pos` is `a + b`, the tail at `pos + |a|` is
/// `b`.
proof fn lemma_skip_concat(whole: Seq<u8>, pos: int, a: Seq<u8>, b: Seq<u8>)
    requires
        0 <= pos <= whole.len(),
        whole.skip(pos) == a + b,
    ensures
        whole.skip(pos + a.len()) == b,
        pos + a.len() + b.len() == whole.len(),
{
    assert(whole.skip(pos).len() == whole.len() - pos);
    assert(whole.skip(pos + a.len()) =~= b) by {
        assert forall|k: int| 0 <= k < b.len() implies whole.skip(pos + a.len())[k] == b[k] by {
            assert(whole.skip(pos + a.len())[k] == whole[pos + a.len() + k]);
            assert(whole.skip(pos)[a.len() + k] == whole[pos + (a.len() + k)]);
            assert((a + b)[a.len() + k] == b[k]);
        }
    }
}

proof fn lemma_no_room_for_bytes(src: Seq<u8>, pos: int)
    requires
        0 <= pos <= src.len(),
        src.len() < pos + 8,
    ensures
        forall|b: Seq<u8>, rest: Seq<u8>| src.skip(pos) != spec_encode_bytes(b) + rest,
{
    assert forall|b: Seq<u8>, rest: Seq<u8>| src.skip(pos) != spec_encode_bytes(b) + rest by {
        assert(spec_u64_to_le_bytes(b.len() as u64).len() == 8) by {
            vstd::bytes::lemma_auto_spec_u64_to_from_le_bytes();
        }
        assert((spec_encode_bytes(b) + rest).len() >= 8);
        assert(src.skip(pos).len() < 8);
    }
}

/// Decode a transaction at `pos`. Succeeds on exactly the byte strings
/// that begin with a transaction encoding, returning that transaction and
/// consuming exactly its encoding.
pub fn decode_transaction(src: &[u8], pos: usize) -> (r: Option<(Transaction, usize)>)
    requires
        pos <= src@.len(),
    ensures
        r matches Some((v, end)) ==> pos <= end <= src@.len() && src@.subrange(
            pos as int,
            end as int,
        ) == spec_encode_tx(v@),
        forall|t: TransactionView, rest: Seq<u8>|
            src@.skip(pos as int) == spec_encode_tx(t) + rest && t.payload.len() <= u64::MAX
                && t.signature.len() <= u64::MAX ==> (r matches Some((v, end)) && v@ == t && end
                == pos + spec_encode_tx(t).len()),
{
    let ghost whole = src@;
    let (from, p1) = match read_b32(src, pos) {
        Some(x) => x,
        None => {
            proof {
                lemma_tx_needs_room(src@, pos as int);
            }
            return None;
        },
    };
    let (to, p2) = match read_b32(src, p1) {
        Some(x) => x,
        None => {
            proof {
                lemma_tx_needs_room(src@, pos as int);
            }
            return None;
        },
    };
    let (amount, p3) = match read_u64(src, p2) {
        Some(x) => x,
        None => {
            proof {
                lemma_tx_needs_room(src@, pos as int);
            }
            return None;
        },
    };
    let (nonce, p4) = match read_u64(src, p3) {
        Some(x) => x,
        None => {
            proof {
                lemma_tx_needs_room(src@, pos as int);
            }
            return None;
        },
    };
    let (payload, p5) = match read_len_bytes(src, p4) {
        Some(x) => x,
        None => {
            proof {
                assert forall|t: TransactionView, rest: Seq<u8>|
                    src@.skip(pos as int) == spec_encode_tx(t) + rest && t.payload.len()
                        <= u64::MAX && t.signature.len() <= u64::MAX implies false by {
                    lemma_tx_layout(src@, pos as int, t, rest);
                }
            }
            return None;
        },
    };
    let (signature, p6) = match read_len_bytes(src, p5) {
        Some(x) => x,
        None => {
            proof {
                assert forall|t: TransactionView, rest: Seq<u8>|
                    src@.skip(pos as int) == spec_encode_tx(t) + rest && t.payload.len()
                        <= u64::MAX && t.signature.len() <= u64::MAX implies false by {
                    lemma_tx_layout(src@, pos as int, t, rest);
                }
            }
            return None;
        },
    };
    let tx = Transaction { from, to, amount, nonce, payload, signature };
    proof {
        assert(src@.subrange(pos as int, p6 as int) =~= spec_encode_tx(tx@));
        assert forall|t: TransactionView, rest: Seq<u8>|
            src@.skip(pos as int) == spec_encode_tx(t) + rest && t.payload.len() <= u64::MAX
                && t.signature.len() <= u64::MAX implies tx@ == t && p6 == pos + spec_encode_tx(
            t,
        ).len() by {
            lemma_tx_layout(src@, pos as int, t, rest);
            vstd::bytes::lemma_auto_spec_u64_to_from_le_bytes();
            crate::bytes::lemma_bytes32_ext(tx.from, t.from);
            crate::bytes::lemma_bytes32_ext(tx.to, t.to);
            assert(spec_u64_from_le_bytes(spec_u64_to_le_bytes(amount)) == spec_u64_from_le_bytes(
                spec_u64_to_le_bytes(t.amount),
            ));
            assert(spec_u64_from_le_bytes(spec_u64_to_le_bytes(nonce)) == spec_u64_from_le_bytes(
                spec_u64_to_le_bytes(t.nonce),
            ));
            assert(src@.skip(p4 as int) == spec_encode_bytes(t.payload) + (spec_encode_bytes(
                t.signature,
            ) + rest));
            assert(payload@ == t.payload && p5 == p4 + spec_encode_bytes(t.payload).len());
            assert(src@.skip(p5 as int) == spec_encode_bytes(t.signature) + rest);
            assert(signature@ == t.signature && p6 == p5 + spec_encode_bytes(t.signature).len());
            assert(spec_encode_tx(t).len() == 80 + spec_encode_bytes(t.payload).len()
                + spec_encode_bytes(t.signature).len());
        }
    }
    Some((tx, p6))
}

/// The fixed header of a transaction encoding is 80 bytes; if fewer
/// remain, no transaction encoding fits.
proof fn lemma_tx_needs_room(src: Seq<u8>, pos: int)
    requires
        0 <= pos <= src.len(),
        src.len() < pos + 80,
    ensures
        forall|t: TransactionView, rest: Seq<u8>| src.skip(pos) != spec_encode_tx(t) + rest,
{
    assert forall|t: TransactionView, rest: Seq<u8>| src.skip(pos) != spec_encode_tx(t) + rest by {
        vstd::bytes::lemma_auto_spec_u64_to_from_le_bytes();
        assert(spec_encode_tx(t).len() >= 80);
        assert(src.skip(pos).len() < 80);
    }
}

/// Under the hypothesis that the bytes at `pos` are a transaction encoding
/// followed by anything, the four header fields and the two length-prefixed
/// fields are laid out as the encoding says.
proof fn lemma_tx_layout(src: Seq<u8>, pos: int, t: TransactionView, rest: Seq<u8>)
    requires
        0 <= pos <= src.len(),
        src.skip(pos) == spec_encode_tx(t) + rest,
    ensures
        src.subrange(pos, pos + 32) == t.from@,
        src.subrange(pos + 32, pos + 64) == t.to@,
        src.subrange(pos + 64, pos + 72) == spec_u64_to_le_bytes(t.amount),
        src.subrange(pos + 72, pos + 80) == spec_u64_to_le_bytes(t.nonce),
        src.skip(pos + 80) == spec_encode_bytes(t.payload) + (spec_encode_bytes(t.signature)
            + rest),
        src.skip(pos + 80 + spec_encode_bytes(t.payload).len()) == spec_encode_bytes(t.signature)
            + rest,
        pos + spec_encode_tx(t).len() <= src.len(),
{
    let e = spec_encode_tx(t);
    vstd::bytes::lemma_auto_spec_u64_to_from_le_bytes();
    let ea = spec_u64_to_le_bytes(t.amount);
    let en = spec_u64_to_le_bytes(t.nonce);
    let ep = spec_encode_bytes(t.payload);
    let es = spec_encode_bytes(t.signature);
    assert(src.skip(pos) =~= t.from@ + (t.to@ + (ea + (en + (ep + (es + rest))))));
    lemma_prefix_subrange(t.from@, t.to@ + (ea + (en + (ep + (es + rest)))), src, pos, 0, 32);
    assert(t.from@.subrange(0, 32) =~= t.from@);
    lemma_skip_concat(src, pos, t.from@, t.to@ + (ea + (en + (ep + (es + rest)))));
    lemma_prefix_subrange(t.to@, ea + (en + (ep + (es + rest))), src, pos + 32, 0, 32);
    assert(t.to@.subrange(0, 32) =~= t.to@);
    lemma_skip_concat(src, pos + 32, t.to@, ea + (en + (ep + (es + rest))));
    lemma_prefix_subrange(ea, en + (ep + (es + rest)), src, pos + 64, 0, 8);
    assert(ea.subrange(0, 8) =~= ea);
    lemma_skip_concat(src, pos + 64, ea, en + (ep + (es + rest)));
    lemma_prefix_subrange(en, ep + (es + rest), src, pos + 72, 0, 8);
    assert(en.subrange(0, 8) =~= en);
    lemma_skip_concat(src, pos + 72, en, ep + (es + rest));
    lemma_skip_concat(src, pos + 80, ep, es + rest);
    lemma_skip_concat(src, pos + 80 + ep.len(), es, rest);
}


/// Read one byte at `pos`.
fn read_u8(src: &[u8], pos: usize) -> (r: Option<(u8, usize)>)
    requires
        pos <= src@.len(),
    ensures
        r is Some <==> pos + 1 <= src@.len(),
        r matches Some((v, end)) ==> end == pos + 1 && v == src@[pos as int],
{
    if src.len() - pos < 1 {
        return None;
    }
    Some((src[pos], pos + 1))
}

/// Read 64 raw bytes at `pos`.
fn read_b64(src: &[u8], pos: usize) -> (r: Option<([u8; 64], usize)>)
    requires
        pos <= src@.len(),
    ensures
        r is Some <==> pos + 64 <= src@.len(),
        r matches Some((v, end)) ==> end == pos + 64 && v@ == src@.subrange(pos as int, pos + 64),
{
    let n = src.len();
    if n - pos < 64 {
        return None;
    }
    Some((read_bytes64(src, pos), pos + 64))
}

/// The encoding of a boolean: one byte, 0 or 1.
pub open spec fn spec_encode_bool(b: bool) -> Seq<u8> {
    if b {
        seq![1u8]
    } else {
        seq![0u8]
    }
}

fn push_bool(out: &mut Vec<u8>, b: bool)
    ensures
        final(out)@ == old(out)@ + spec_encode_bool(b),
{
    if b {
        out.push(1u8);
    } else {
        out.push(0u8);
    }
    proof {
        assert(out@ =~= old(out)@ + spec_encode_bool(b));
    }
}

fn read_bool(src: &[u8], pos: usize) -> (r: Option<(bool, usize)>)
    requires
        pos <= src@.len(),
    ensures
        r matches Some((v, end)) ==> pos <= end <= src@.len() && src@.subrange(pos as int, end as int)
            == spec_encode_bool(v),
        forall|b: bool, rest: Seq<u8>|
            src@.skip(pos as int) == spec_encode_bool(b) + rest ==> (r matches Some((v, end)) && v
                == b && end == pos + spec_encode_bool(b).len()),
{
    let (tag, p1) = match read_u8(src, pos) {
        Some(x) => x,
        None => {
            proof {
                assert forall|b: bool, rest: Seq<u8>|
                    src@.skip(pos as int) != spec_encode_bool(b) + rest by {
                    assert((spec_encode_bool(b) + rest).len() >= 1);
                    assert(src@.skip(pos as int).len() == src@.len() - pos);
                }
            }
            return None;
        },
    };
    proof {
        assert forall|b: bool, rest: Seq<u8>|
            src@.skip(pos as int) == spec_encode_bool(b) + rest implies src@[pos as int] == (
        if b {
            1u8
        } else {
            0u8
        }) by {
            assert(src@.skip(pos as int)[0] == src@[pos as int]);
            assert((spec_encode_bool(b) + rest)[0] == spec_encode_bool(b)[0]);
        }
    }
    if tag == 1 {
        proof {
            assert(src@.subrange(pos as int, p1 as int) =~= spec_encode_bool(true));
        }
        Some((true, p1))
    } else if tag == 0 {
        proof {
            assert(src@.subrange(pos as int, p1 as int) =~= spec_encode_bool(false));
        }
        Some((false, p1))
    } else {
        None
    }
}

/// The encoding of an optional 32-byte hash: a tag byte, then the hash
/// when present.
pub open spec fn spec_encode_opt_hash(o: Option<[u8; 32]>) -> Seq<u8> {
    match o {
        Some(h) => seq![1u8] + h@,
        None => seq![0u8],
    }
}

fn push_opt_hash(out: &mut Vec<u8>, o: &Option<[u8; 32]>)
    ensures
        final(out)@ == old(out)@ + spec_encode_opt_hash(*o),
{
    match o {
        Some(h) => {
            out.push(1u8);
            crate::bytes::push_bytes32(out, h);
            proof {
                assert(out@ =~= old(out)@ + spec_encode_opt_hash(*o));
            }
        },
        None => {
            out.push(0u8);
            proof {
                assert(out@ =~= old(out)@ + spec_encode_opt_hash(*o));
            }
        },
    }
}

fn read_opt_hash(src: &[u8], pos: usize) -> (r: Option<(Option<[u8; 32]>, usize)>)
    requires
        pos <= src@.len(),
    ensures
        r matches Some((v, end)) ==> pos <= end <= src@.len() && src@.subrange(pos as int, end as int)
            == spec_encode_opt_hash(v),
        forall|o: Option<[u8; 32]>, rest: Seq<u8>|
            src@.skip(pos as int) == spec_encode_opt_hash(o) + rest ==> (r matches Some((v, end))
                && v == o && end == pos + spec_encode_opt_hash(o).len()),
{
    let (tag, p1) = match read_u8(src, pos) {
        Some(x) => x,
        None => {
            proof {
                assert forall|o: Option<[u8; 32]>, rest: Seq<u8>|
                    src@.skip(pos as int) != spec_encode_opt_hash(o) + rest by {
                    assert((spec_encode_opt_hash(o) + rest).len() >= 1);
                    assert(src@.skip(pos as int).len() == src@.len() - pos);
                }
            }
            return None;
        },
    };
    proof {
        assert forall|o: Option<[u8; 32]>, rest: Seq<u8>|
            src@.skip(pos as int) == spec_encode_opt_hash(o) + rest implies src@[pos as int] == (
        match o {
            Some(_) => 1u8,
            None => 0u8,
        }) by {
            assert(src@.skip(pos as int)[0] == src@[pos as int]);
            assert((spec_encode_opt_hash(o) + rest)[0] == spec_encode_opt_hash(o)[0]);
        }
    }
    if tag == 0 {
        proof {
            assert(src@.subrange(pos as int, p1 as int) =~= spec_encode_opt_hash(
                None::<[u8; 32]>,
            ));
        }
        return Some((None, p1));
    }
    if tag != 1 {
        return None;
    }
    let (h, p2) = match read_b32(src, p1) {
        Some(x) => x,
        None => {
            proof {
                assert forall|o: Option<[u8; 32]>, rest: Seq<u8>|
                    src@.skip(pos as int) != spec_encode_opt_hash(o) + rest by {
                    if src@.skip(pos as int) == spec_encode_opt_hash(o) + rest {
                        assert(o is Some);
                        assert((spec_encode_opt_hash(o) + rest).len() >= 33);
                        assert(src@.skip(pos as int).len() == src@.len() - pos);
                    }
                }
            }
            return None;
        },
    };
    proof {
        assert(src@.subrange(pos as int, p2 as int) =~= spec_encode_opt_hash(Some(h)));
        assert forall|o: Option<[u8; 32]>, rest: Seq<u8>|
            src@.skip(pos as int) == spec_encode_opt_hash(o) + rest implies Some(h) == o && p2
            == pos + spec_encode_opt_hash(o).len() by {
            let oh = o->Some_0;
            lemma_prefix_subrange(spec_encode_opt_hash(o), rest, src@, pos as int, 1, 33);
            assert(spec_encode_opt_hash(o).subrange(1, 33) =~= oh@);
            assert(h@ == oh@);
            crate::bytes::lemma_bytes32_ext(h, oh);
        }
    }
    Some((Some(h), p2))
}

/// The encoding of an optional u64: a tag byte, then the value when
/// present.
pub open spec fn spec_encode_opt_u64(o: Option<u64>) -> Seq<u8> {
    match o {
        Some(x) => seq![1u8] + spec_u64_to_le_bytes(x),
        None => seq![0u8],
    }
}

fn push_opt_u64(out: &mut Vec<u8>, o: &Option<u64>)
    ensures
        final(out)@ == old(out)@ + spec_encode_opt_u64(*o),
{
    match o {
        Some(x) => {
            out.push(1u8);
            push_u64_le(out, *x);
            proof {
                assert(out@ =~= old(out)@ + spec_encode_opt_u64(*o));
            }
        },
        None => {
            out.push(0u8);
            proof {
                assert(out@ =~= old(out)@ + spec_encode_opt_u64(*o));
            }
        },
    }
}

fn read_opt_u64(src: &[u8], pos: usize) -> (r: Option<(Option<u64>, usize)>)
    requires
        pos <= src@.len(),
    ensures
        r matches Some((v, end)) ==> pos <= end <= src@.len() && src@.subrange(pos as int, end as int)
            == spec_encode_opt_u64(v),
        forall|o: Option<u64>, rest: Seq<u8>|
            src@.skip(pos as int) == spec_encode_opt_u64(o) + rest ==> (r matches Some((v, end))
                && v == o && end == pos + spec_encode_opt_u64(o).len()),
{
    let (tag, p1) = match read_u8(src, pos) {
        Some(x) => x,
        None => {
            proof {
                assert forall|o: Option<u64>, rest: Seq<u8>|
                    src@.skip(pos as int) != spec_encode_opt_u64(o) + rest by {
                    vstd::bytes::lemma_auto_spec_u64_to_from_le_bytes();
                    assert((spec_encode_opt_u64(o) + rest).len() >= 1);
                    assert(src@.skip(pos as int).len() == src@.len() - pos);
                }
            }
            return None;
        },
    };
    proof {
        assert forall|o: Option<u64>, rest: Seq<u8>|
            src@.skip(pos as int) == spec_encode_opt_u64(o) + rest implies src@[pos as int] == (
        match o {
            Some(_) => 1u8,
            None => 0u8,
        }) by {
            assert(src@.skip(pos as int)[0] == src@[pos as int]);
            assert((spec_encode_opt_u64(o) + rest)[0] == spec_encode_opt_u64(o)[0]);
        }
    }
    if tag == 0 {
        proof {
            assert(src@.subrange(pos as int, p1 as int) =~= spec_encode_opt_u64(None::<u64>));
        }
        return Some((None, p1));
    }
    if tag != 1 {
        return None;
    }
    let (x, p2) = match read_u64(src, p1) {
        Some(y) => y,
        None => {
            proof {
                assert forall|o: Option<u64>, rest: Seq<u8>|
                    src@.skip(pos as int) != spec_encode_opt_u64(o) + rest by {
                    if src@.skip(pos as int) == spec_encode_opt_u64(o) + rest {
                        vstd::bytes::lemma_auto_spec_u64_to_from_le_bytes();
                        assert(o is Some);
                        assert((spec_encode_opt_u64(o) + rest).len() >= 9);
                        assert(src@.skip(pos as int).len() == src@.len() - pos);
                    }
                }
            }
            return None;
        },
    };
    proof {
        assert(src@.subrange(pos as int, p2 as int) =~= spec_encode_opt_u64(Some(x)));
        assert forall|o: Option<u64>, rest: Seq<u8>|
            src@.skip(pos as int) == spec_encode_opt_u64(o) + rest implies Some(x) == o && p2
            == pos + spec_encode_opt_u64(o).len() by {
            vstd::bytes::lemma_auto_spec_u64_to_from_le_bytes();
            let ox = o->Some_0;
            lemma_prefix_subrange(spec_encode_opt_u64(o), rest, src@, pos as int, 1, 9);
            assert(spec_encode_opt_u64(o).subrange(1, 9) =~= spec_u64_to_le_bytes(ox));
            assert(spec_u64_from_le_bytes(spec_u64_to_le_bytes(x)) == spec_u64_from_le_bytes(
                spec_u64_to_le_bytes(ox),
            ));
        }
    }
    Some((Some(x), p2))
}


/// Two adjacent subranges of a sequence join.
proof fn lemma_subrange_join(s: Seq<u8>, a: int, b: int, c: int)
    requires
        0 <= a <= b <= c <= s.len(),
    ensures
        s.subrange(a, b) + s.subrange(b, c) == s.subrange(a, c),
{
    assert(s.subrange(a, b) + s.subrange(b, c) =~= s.subrange(a, c));
}

/// The canonical encoding of a prevote.
pub open spec fn spec_encode_prevote(v: Prevote) -> Seq<u8> {
    spec_u64_to_le_bytes(v.height) + spec_u64_to_le_bytes(v.round) + spec_encode_opt_hash(
        v.block_hash,
    ) + v.validator.0@ + v.signature.0@
}

/// Encode a prevote.
pub fn encode_prevote(v: &Prevote) -> (r: Vec<u8>)
    ensures
        r@ == spec_encode_prevote(*v),
{
    let mut out: Vec<u8> = Vec::new();
    push_u64_le(&mut out, v.height);
    push_u64_le(&mut out, v.round);
    push_opt_hash(&mut out, &v.block_hash);
    crate::bytes::push_bytes32(&mut out, &v.validator.0);
    crate::bytes::push_bytes64(&mut out, &v.signature.0);
    out
}

proof fn lemma_prevote_layout(src: Seq<u8>, pos: int, t: Prevote, rest: Seq<u8>)
    requires
        0 <= pos <= src.len(),
        src.skip(pos) == spec_encode_prevote(t) + rest,
    ensures
        src.subrange(pos, pos + 8) == spec_u64_to_le_bytes(t.height),
        src.subrange(pos + 8, pos + 16) == spec_u64_to_le_bytes(t.round),
        src.skip(pos + 16) == spec_encode_opt_hash(t.block_hash) + (t.validator.0@ + (
        t.signature.0@ + rest)),
        src.skip(pos + 16 + spec_encode_opt_hash(t.block_hash).len()) == t.validator.0@ + (
        t.signature.0@ + rest),
        src.skip(pos + 48 + spec_encode_opt_hash(t.block_hash).len()) == t.signature.0@ + rest,
        pos + spec_encode_prevote(t).len() <= src.len(),
{
    vstd::bytes::lemma_auto_spec_u64_to_from_le_bytes();
    let eh = spec_u64_to_le_bytes(t.height);
    let er = spec_u64_to_le_bytes(t.round);
    let eo = spec_encode_opt_hash(t.block_hash);
    assert(src.skip(pos) =~= eh + (er + (eo + (t.validator.0@ + (t.signature.0@ + rest)))));
    lemma_prefix_subrange(eh, er + (eo + (t.validator.0@ + (t.signature.0@ + rest))), src, pos, 0, 8);
    assert(eh.subrange(0, 8) =~= eh);
    lemma_skip_concat(src, pos, eh, er + (eo + (t.validator.0@ + (t.signature.0@ + rest))));
    lemma_prefix_subrange(er, eo + (t.validator.0@ + (t.signature.0@ + rest)), src, pos + 8, 0, 8);
    assert(er.subrange(0, 8) =~= er);
    lemma_skip_concat(src, pos + 8, er, eo + (t.validator.0@ + (t.signature.0@ + rest)));
    lemma_skip_concat(src, pos + 16, eo, t.validator.0@ + (t.signature.0@ + rest));
    lemma_skip_concat(src, pos + 16 + eo.len(), t.validator.0@, t.signature.0@ + rest);
    lemma_skip_concat(src, pos + 48 + eo.len(), t.signature.0@, rest);
}

/// Decode a prevote at `pos`. Succeeds on exactly the byte strings that
/// begin with a prevote encoding, returning that prevote and consuming
/// exactly its encoding.
pub fn decode_prevote(src: &[u8], pos: usize) -> (r: Option<(Prevote, usize)>)
    requires
        pos <= src@.len(),
    ensures
        r matches Some((v, end)) ==> pos <= end <= src@.len() && src@.subrange(
            pos as int,
            end as int,
        ) == spec_encode_prevote(v),
        forall|t: Prevote, rest: Seq<u8>|
            src@.skip(pos as int) == spec_encode_prevote(t) + rest ==> (r matches Some((v, end))
                && v == t && end == pos + spec_encode_prevote(t).len()),
{
    let (height, p1) = match read_u64(src, pos) {
        Some(x) => x,
        None => {
            proof {
                lemma_prevote_needs_room(src@, pos as int);
            }
            return None;
        },
    };
    let (round, p2) = match read_u64(src, p1) {
        Some(x) => x,
        None => {
            proof {
                lemma_prevote_needs_room(src@, pos as int);
            }
            return None;
        },
    };
    let (block_hash, p3) = match read_opt_hash(src, p2) {
        Some(x) => x,
        None => {
            proof {
                assert forall|t: Prevote, rest: Seq<u8>|
                    src@.skip(pos as int) != spec_encode_prevote(t) + rest by {
                    if src@.skip(pos as int) == spec_encode_prevote(t) + rest {
                        lemma_prevote_layout(src@, pos as int, t, rest);
                    }
                }
            }
            return None;
        },
    };
    let (validator, p4) = match read_b32(src, p3) {
        Some(x) => x,
        None => {
            proof {
                assert forall|t: Prevote, rest: Seq<u8>|
                    src@.skip(pos as int) != spec_encode_prevote(t) + rest by {
                    if src@.skip(pos as int) == spec_encode_prevote(t) + rest {
                        lemma_prevote_layout(src@, pos as int, t, rest);
                        assert(block_hash == t.block_hash && p3 == pos + 16 + spec_encode_opt_hash(
                            t.block_hash,
                        ).len());
                        assert(src@.skip(p3 as int).len() == src@.len() - p3);
                    }
                }
            }
            return None;
        },
    };
    let (signature, p5) = match read_b64(src, p4) {
        Some(x) => x,
        None => {
            proof {
                assert forall|t: Prevote, rest: Seq<u8>|
                    src@.skip(pos as int) != spec_encode_prevote(t) + rest by {
                    if src@.skip(pos as int) == spec_encode_prevote(t) + rest {
                        lemma_prevote_layout(src@, pos as int, t, rest);
                        assert(block_hash == t.block_hash && p3 == pos + 16 + spec_encode_opt_hash(
                            t.block_hash,
                        ).len());
                        assert(src@.skip(p4 as int).len() == src@.len() - p4);
                    }
                }
            }
            return None;
        },
    };
    let v = Prevote {
        height,
        round,
        block_hash,
        validator: ValidatorId(validator),
        signature: Signature64(signature),
    };
    proof {
        assert(src@.subrange(pos as int, p5 as int) =~= spec_encode_prevote(v));
        assert forall|t: Prevote, rest: Seq<u8>|
            src@.skip(pos as int) == spec_encode_prevote(t) + rest implies v == t && p5 == pos
            + spec_encode_prevote(t).len() by {
            lemma_prevote_layout(src@, pos as int, t, rest);
            vstd::bytes::lemma_auto_spec_u64_to_from_le_bytes();
            assert(spec_u64_from_le_bytes(spec_u64_to_le_bytes(height)) == spec_u64_from_le_bytes(
                spec_u64_to_le_bytes(t.height),
            ));
            assert(spec_u64_from_le_bytes(spec_u64_to_le_bytes(round)) == spec_u64_from_le_bytes(
                spec_u64_to_le_bytes(t.round),
            ));
            assert(block_hash == t.block_hash && p3 == pos + 16 + spec_encode_opt_hash(
                t.block_hash,
            ).len());
            lemma_prefix_subrange(
                t.validator.0@,
                t.signature.0@ + rest,
                src@,
                p3 as int,
                0,
                32,
            );
            assert(t.validator.0@.subrange(0, 32) =~= t.validator.0@);
            crate::bytes::lemma_bytes32_ext(validator, t.validator.0);
            lemma_prefix_subrange(t.signature.0@, rest, src@, p4 as int, 0, 64);
            assert(t.signature.0@.subrange(0, 64) =~= t.signature.0@);
            assert(signature@ == t.signature.0@);
            lemma_bytes64_ext(signature, t.signature.0);
        }
    }
    Some((v, p5))
}

/// Two 64-byte arrays with equal views are equal.
proof fn lemma_bytes64_ext(a: [u8; 64], b: [u8; 64])
    requires
        a@ == b@,
    ensures
        a == b,
{
}

proof fn lemma_prevote_needs_room(src: Seq<u8>, pos: int)
    requires
        0 <= pos <= src.len(),
        src.len() < pos + 16,
    ensures
        forall|t: Prevote, rest: Seq<u8>| src.skip(pos) != spec_encode_prevote(t) + rest,
{
    assert forall|t: Prevote, rest: Seq<u8>| src.skip(pos) != spec_encode_prevote(t) + rest by {
        vstd::bytes::lemma_auto_spec_u64_to_from_le_bytes();
        assert(spec_encode_prevote(t).len() >= 16);
        assert(src.skip(pos).len() < 16);
    }
}


/// The canonical encoding of a commit.
pub open spec fn spec_encode_commit(c: Commit) -> Seq<u8> {
    spec_u64_to_le_bytes(c.height) + spec_u64_to_le_bytes(c.round) + c.block_hash@
        + c.validator.0@ + c.signature.0@
}

/// Encode a commit.
pub fn encode_commit(c: &Commit) -> (r: Vec<u8>)
    ensures
        r@ == spec_encode_commit(*c),
{
    let mut out: Vec<u8> = Vec::new();
    push_u64_le(&mut out, c.height);
    push_u64_le(&mut out, c.round);
    crate::bytes::push_bytes32(&mut out, &c.block_hash);
    crate::bytes::push_bytes32(&mut out, &c.validator.0);
    crate::bytes::push_bytes64(&mut out, &c.signature.0);
    out
}

proof fn lemma_commit_layout(src: Seq<u8>, pos: int, t: Commit, rest: Seq<u8>)
    requires
        0 <= pos <= src.len(),
        src.skip(pos) == spec_encode_commit(t) + rest,
    ensures
        src.subrange(pos, pos + 8) == spec_u64_to_le_bytes(t.height),
        src.subrange(pos + 8, pos + 16) == spec_u64_to_le_bytes(t.round),
        src.subrange(pos + 16, pos + 48) == t.block_hash@,
        src.subrange(pos + 48, pos + 80) == t.validator.0@,
        src.subrange(pos + 80, pos + 144) == t.signature.0@,
        pos + 144 <= src.len(),
{
    vstd::bytes::lemma_auto_spec_u64_to_from_le_bytes();
    let eh = spec_u64_to_le_bytes(t.height);
    let er = spec_u64_to_le_bytes(t.round);
    let r1 = er + (t.block_hash@ + (t.validator.0@ + (t.signature.0@ + rest)));
    let r2 = t.block_hash@ + (t.validator.0@ + (t.signature.0@ + rest));
    let r3 = t.validator.0@ + (t.signature.0@ + rest);
    let r4 = t.signature.0@ + rest;
    assert(src.skip(pos) =~= eh + r1);
    lemma_prefix_subrange(eh, r1, src, pos, 0, 8);
    assert(eh.subrange(0, 8) =~= eh);
    lemma_skip_concat(src, pos, eh, r1);
    lemma_prefix_subrange(er, r2, src, pos + 8, 0, 8);
    assert(er.subrange(0, 8) =~= er);
    lemma_skip_concat(src, pos + 8, er, r2);
    lemma_prefix_subrange(t.block_hash@, r3, src, pos + 16, 0, 32);
    assert(t.block_hash@.subrange(0, 32) =~= t.block_hash@);
    lemma_skip_concat(src, pos + 16, t.block_hash@, r3);
    lemma_prefix_subrange(t.validator.0@, r4, src, pos + 48, 0, 32);
    assert(t.validator.0@.subrange(0, 32) =~= t.validator.0@);
    lemma_skip_concat(src, pos + 48, t.validator.0@, r4);
    lemma_prefix_subrange(t.signature.0@, rest, src, pos + 80, 0, 64);
    assert(t.signature.0@.subrange(0, 64) =~= t.signature.0@);
    lemma_skip_concat(src, pos + 80, t.signature.0@, rest);
}

/// Decode a commit at `pos`. Succeeds on exactly the byte strings that
/// begin with a commit encoding.
pub fn decode_commit(src: &[u8], pos: usize) -> (r: Option<(Commit, usize)>)
    requires
        pos <= src@.len(),
    ensures
        r matches Some((v, end)) ==> pos <= end <= src@.len() && src@.subrange(
            pos as int,
            end as int,
        ) == spec_encode_commit(v),
        forall|t: Commit, rest: Seq<u8>|
            src@.skip(pos as int) == spec_encode_commit(t) + rest ==> (r matches Some((v, end))
                && v == t && end == pos + spec_encode_commit(t).len()),
{
    let n = src.len();
    if n - pos < 144 {
        proof {
            assert forall|t: Commit, rest: Seq<u8>|
                src@.skip(pos as int) != spec_encode_commit(t) + rest by {
                vstd::bytes::lemma_auto_spec_u64_to_from_le_bytes();
                assert(spec_encode_commit(t).len() == 144);
                assert(src@.skip(pos as int).len() == src@.len() - pos);
            }
        }
        return None;
    }
    let (height, p1) = match read_u64(src, pos) {
        Some(x) => x,
        None => {
            return None;
        },
    };
    let (round, p2) = match read_u64(src, p1) {
        Some(x) => x,
        None => {
            return None;
        },
    };
    let block_hash = read_bytes32(src, p2);
    let validator = read_bytes32(src, p2 + 32);
    let signature = read_bytes64(src, p2 + 64);
    let end = p2 + 128;
    let v = Commit {
        height,
        round,
        block_hash,
        validator: ValidatorId(validator),
        signature: Signature64(signature),
    };
    proof {
        assert(src@.subrange(pos as int, end as int) =~= spec_encode_commit(v));
        assert forall|t: Commit, rest: Seq<u8>|
            src@.skip(pos as int) == spec_encode_commit(t) + rest implies v == t && end == pos
            + spec_encode_commit(t).len() by {
            lemma_commit_layout(src@, pos as int, t, rest);
            vstd::bytes::lemma_auto_spec_u64_to_from_le_bytes();
            assert(spec_u64_from_le_bytes(spec_u64_to_le_bytes(height)) == spec_u64_from_le_bytes(
                spec_u64_to_le_bytes(t.height),
            ));
            assert(spec_u64_from_le_bytes(spec_u64_to_le_bytes(round)) == spec_u64_from_le_bytes(
                spec_u64_to_le_bytes(t.round),
            ));
            crate::bytes::lemma_bytes32_ext(block_hash, t.block_hash);
            crate::bytes::lemma_bytes32_ext(validator, t.validator.0);
            lemma_bytes64_ext(signature, t.signature.0);
        }
    }
    Some((v, end))
}

/// The canonical encoding of an account entry.
pub open spec fn spec_encode_entry(e: AccountEntry) -> Seq<u8> {
    e.addr@ + spec_u64_to_le_bytes(e.value)
}

/// Encode an account entry.
pub fn encode_entry(e: &AccountEntry) -> (r: Vec<u8>)
    ensures
        r@ == spec_encode_entry(*e),
{
    let mut out: Vec<u8> = Vec::new();
    crate::bytes::push_bytes32(&mut out, &e.addr);
    push_u64_le(&mut out, e.value);
    out
}

/// Decode an account entry at `pos`.
pub fn decode_entry(src: &[u8], pos: usize) -> (r: Option<(AccountEntry, usize)>)
    requires
        pos <= src@.len(),
    ensures
        r matches Some((v, end)) ==> pos <= end <= src@.len() && src@.subrange(
            pos as int,
            end as int,
        ) == spec_encode_entry(v),
        forall|t: AccountEntry, rest: Seq<u8>|
            src@.skip(pos as int) == spec_encode_entry(t) + rest ==> (r matches Some((v, end)) && v
                == t && end == pos + spec_encode_entry(t).len()),
{
    let n = src.len();
    if n - pos < 40 {
        proof {
            assert forall|t: AccountEntry, rest: Seq<u8>|
                src@.skip(pos as int) != spec_encode_entry(t) + rest by {
                vstd::bytes::lemma_auto_spec_u64_to_from_le_bytes();
                assert(spec_encode_entry(t).len() == 40);
                assert(src@.skip(pos as int).len() == src@.len() - pos);
            }
        }
        return None;
    }
    let addr = read_bytes32(src, pos);
    let (value, end) = match read_u64(src, pos + 32) {
        Some(x) => x,
        None => {
            return None;
        },
    };
    let v = AccountEntry { addr, value };
    proof {
        assert(src@.subrange(pos as int, end as int) =~= spec_encode_entry(v));
        assert forall|t: AccountEntry, rest: Seq<u8>|
            src@.skip(pos as int) == spec_encode_entry(t) + rest implies v == t && end == pos
            + spec_encode_entry(t).len() by {
            vstd::bytes::lemma_auto_spec_u64_to_from_le_bytes();
            let r1 = spec_u64_to_le_bytes(t.value) + rest;
            assert(src@.skip(pos as int) =~= t.addr@ + r1);
            lemma_prefix_subrange(t.addr@, r1, src@, pos as int, 0, 32);
            assert(t.addr@.subrange(0, 32) =~= t.addr@);
            crate::bytes::lemma_bytes32_ext(addr, t.addr);
            lemma_skip_concat(src@, pos as int, t.addr@, r1);
            lemma_prefix_subrange(spec_u64_to_le_bytes(t.value), rest, src@, pos + 32, 0, 8);
            assert(spec_u64_to_le_bytes(t.value).subrange(0, 8) =~= spec_u64_to_le_bytes(t.value));
            assert(spec_u64_from_le_bytes(spec_u64_to_le_bytes(value)) == spec_u64_from_le_bytes(
                spec_u64_to_le_bytes(t.value),
            ));
        }
    }
    Some((v, end))
}

/// The concatenated encodings of a sequence.
pub open spec fn concat_prevotes(s: Seq<Prevote>) -> Seq<u8>
    decreases s.len(),
{
    if s.len() == 0 {
        Seq::empty()
    } else {
        concat_prevotes(s.drop_last()) + spec_encode_prevote(s.last())
    }
}

/// A count-prefixed sequence encoding.
pub open spec fn spec_encode_prevotes(s: Seq<Prevote>) -> Seq<u8> {
    spec_u64_to_le_bytes(s.len() as u64) + concat_prevotes(s)
}

proof fn lemma_concat_prevotes_distributes(a: Seq<Prevote>, b: Seq<Prevote>)
    ensures
        concat_prevotes(a + b) == concat_prevotes(a) + concat_prevotes(b),
    decreases b.len(),
{
    if b.len() == 0 {
        assert(a + b =~= a);
        assert(concat_prevotes(a) + concat_prevotes(b) =~= concat_prevotes(a));
    } else {
        assert((a + b).drop_last() =~= a + b.drop_last());
        lemma_concat_prevotes_distributes(a, b.drop_last());
        assert((a + b).last() == b.last());
        assert(concat_prevotes(a) + concat_prevotes(b.drop_last()) + spec_encode_prevote(b.last())
            =~= concat_prevotes(a) + concat_prevotes(b));
    }
}

proof fn lemma_concat_prevotes_skip(s: Seq<Prevote>, i: int)
    requires
        0 <= i < s.len(),
    ensures
        concat_prevotes(s.skip(i)) == spec_encode_prevote(s[i]) + concat_prevotes(s.skip(i + 1)),
{
    assert(s.skip(i) =~= seq![s[i]] + s.skip(i + 1));
    lemma_concat_prevotes_distributes(seq![s[i]], s.skip(i + 1));
    assert(seq![s[i]].drop_last() =~= Seq::<Prevote>::empty());
    assert(seq![s[i]].last() == s[i]);
    assert(concat_prevotes(Seq::empty()) + spec_encode_prevote(s[i]) =~= spec_encode_prevote(s[i]));
    assert(concat_prevotes(seq![s[i]]) =~= spec_encode_prevote(s[i]));
}

/// The concatenated encodings of a sequence.
pub open spec fn concat_commits_list(s: Seq<Commit>) -> Seq<u8>
    decreases s.len(),
{
    if s.len() == 0 {
        Seq::empty()
    } else {
        concat_commits_list(s.drop_last()) + spec_encode_commit(s.last())
    }
}

/// A count-prefixed sequence encoding.
pub open spec fn spec_encode_commits_list(s: Seq<Commit>) -> Seq<u8> {
    spec_u64_to_le_bytes(s.len() as u64) + concat_commits_list(s)
}

proof fn lemma_concat_commits_list_distributes(a: Seq<Commit>, b: Seq<Commit>)
    ensures
        concat_commits_list(a + b) == concat_commits_list(a) + concat_commits_list(b),
    decreases b.len(),
{
    if b.len() == 0 {
        assert(a + b =~= a);
        assert(concat_commits_list(a) + concat_commits_list(b) =~= concat_commits_list(a));
    } else {
        assert((a + b).drop_last() =~= a + b.drop_last());
        lemma_concat_commits_list_distributes(a, b.drop_last());
        assert((a + b).last() == b.last());
        assert(concat_commits_list(a) + concat_commits_list(b.drop_last()) + spec_encode_commit(b.last())
            =~= concat_commits_list(a) + concat_commits_list(b));
    }
}

proof fn lemma_concat_commits_list_skip(s: Seq<Commit>, i: int)
    requires
        0 <= i < s.len(),
    ensures
        concat_commits_list(s.skip(i)) == spec_encode_commit(s[i]) + concat_commits_list(s.skip(i + 1)),
{
    assert(s.skip(i) =~= seq![s[i]] + s.skip(i + 1));
    lemma_concat_commits_list_distributes(seq![s[i]], s.skip(i + 1));
    assert(seq![s[i]].drop_last() =~= Seq::<Commit>::empty());
    assert(seq![s[i]].last() == s[i]);
    assert(concat_commits_list(Seq::empty()) + spec_encode_commit(s[i]) =~= spec_encode_commit(s[i]));
    assert(concat_commits_list(seq![s[i]]) =~= spec_encode_commit(s[i]));
}

/// The concatenated encodings of a sequence.
pub open spec fn concat_entries(s: Seq<AccountEntry>) -> Seq<u8>
    decreases s.len(),
{
    if s.len() == 0 {
        Seq::empty()
    } else {
        concat_entries(s.drop_last()) + spec_encode_entry(s.last())
    }
}

/// A count-prefixed sequence encoding.
pub open spec fn spec_encode_entries(s: Seq<AccountEntry>) -> Seq<u8> {
    spec_u64_to_le_bytes(s.len() as u64) + concat_entries(s)
}

proof fn lemma_concat_entries_distributes(a: Seq<AccountEntry>, b: Seq<AccountEntry>)
    ensures
        concat_entries(a + b) == concat_entries(a) + concat_entries(b),
    decreases b.len(),
{
    if b.len() == 0 {
        assert(a + b =~= a);
        assert(concat_entries(a) + concat_entries(b) =~= concat_entries(a));
    } else {
        assert((a + b).drop_last() =~= a + b.drop_last());
        lemma_concat_entries_distributes(a, b.drop_last());
        assert((a + b).last() == b.last());
        assert(concat_entries(a) + concat_entries(b.drop_last()) + spec_encode_entry(b.last())
            =~= concat_entries(a) + concat_entries(b));
    }
}

proof fn lemma_concat_entries_skip(s: Seq<AccountEntry>, i: int)
    requires
        0 <= i < s.len(),
    ensures
        concat_entries(s.skip(i)) == spec_encode_entry(s[i]) + concat_entries(s.skip(i + 1)),
{
    assert(s.skip(i) =~= seq![s[i]] + s.skip(i + 1));
    lemma_concat_entries_distributes(seq![s[i]], s.skip(i + 1));
    assert(seq![s[i]].drop_last() =~= Seq::<AccountEntry>::empty());
    assert(seq![s[i]].last() == s[i]);
    assert(concat_entries(Seq::empty()) + spec_encode_entry(s[i]) =~= spec_encode_entry(s[i]));
    assert(concat_entries(seq![s[i]]) =~= spec_encode_entry(s[i]));
}


/// Encode a count-prefixed sequence.
pub fn encode_prevotes(v: &Vec<Prevote>) -> (r: Vec<u8>)
    ensures
        r@ == spec_encode_prevotes(v@),
{
    let mut out: Vec<u8> = Vec::new();
    let count = v.len();
    push_u64_le(&mut out, count as u64);
    let mut i: usize = 0;
    proof {
        assert(v@.take(0) =~= Seq::<Prevote>::empty());
        assert(out@ =~= spec_u64_to_le_bytes(count as u64) + concat_prevotes(v@.take(0)));
    }
    while i < count
        invariant
            0 <= i <= count,
            count == v@.len(),
            out@ == spec_u64_to_le_bytes(count as u64) + concat_prevotes(v@.take(i as int)),
        decreases count - i,
    {
        let mut e = encode_prevote(&v[i]);
        out.append(&mut e);
        proof {
            assert(v@.take(i + 1).drop_last() =~= v@.take(i as int));
            assert(v@.take(i + 1).last() == v@[i as int]);
            assert(out@ =~= spec_u64_to_le_bytes(count as u64) + concat_prevotes(v@.take(i + 1)));
        }
        i += 1;
    }
    proof {
        assert(v@.take(count as int) =~= v@);
    }
    out
}

/// Decode a count-prefixed sequence at `pos`. Succeeds on exactly the byte
/// strings that begin with such an encoding.
pub fn decode_prevotes(src: &[u8], pos: usize) -> (r: Option<(Vec<Prevote>, usize)>)
    requires
        pos <= src@.len(),
    ensures
        r matches Some((v, end)) ==> pos <= end <= src@.len() && src@.subrange(
            pos as int,
            end as int,
        ) == spec_encode_prevotes(v@),
        forall|s: Seq<Prevote>, rest: Seq<u8>|
            src@.skip(pos as int) == spec_encode_prevotes(s) + rest && s.len() <= u64::MAX ==> (
            r matches Some((v, end)) && v@ == s && end == pos + spec_encode_prevotes(s).len()),
{
    let (count, p0) = match read_u64(src, pos) {
        Some(x) => x,
        None => {
            proof {
                assert forall|s: Seq<Prevote>, rest: Seq<u8>|
                    src@.skip(pos as int) != spec_encode_prevotes(s) + rest by {
                    vstd::bytes::lemma_auto_spec_u64_to_from_le_bytes();
                    assert((spec_encode_prevotes(s) + rest).len() >= 8);
                    assert(src@.skip(pos as int).len() == src@.len() - pos);
                }
            }
            return None;
        },
    };
    proof {
        assert forall|s: Seq<Prevote>, rest: Seq<u8>|
            src@.skip(pos as int) == spec_encode_prevotes(s) + rest && s.len()
                <= u64::MAX implies s.len() == count && src@.skip(p0 as int) == concat_prevotes(s)
            + rest && src@.subrange(pos as int, p0 as int) == spec_u64_to_le_bytes(count) by {
            vstd::bytes::lemma_auto_spec_u64_to_from_le_bytes();
            assert(src@.skip(pos as int) =~= spec_u64_to_le_bytes(s.len() as u64) + (concat_prevotes(
                s,
            ) + rest));
            lemma_prefix_subrange(
                spec_u64_to_le_bytes(s.len() as u64),
                concat_prevotes(s) + rest,
                src@,
                pos as int,
                0,
                8,
            );
            assert(spec_u64_to_le_bytes(s.len() as u64).subrange(0, 8) =~= spec_u64_to_le_bytes(
                s.len() as u64,
            ));
            assert(spec_u64_from_le_bytes(spec_u64_to_le_bytes(count)) == spec_u64_from_le_bytes(
                spec_u64_to_le_bytes(s.len() as u64),
            ));
            lemma_skip_concat(
                src@,
                pos as int,
                spec_u64_to_le_bytes(s.len() as u64),
                concat_prevotes(s) + rest,
            );
        }
    }
    let mut items: Vec<Prevote> = Vec::new();
    let mut p = p0;
    let mut i: u64 = 0;
    proof {
        assert(items@ =~= Seq::<Prevote>::empty());
        assert forall|s: Seq<Prevote>, rest: Seq<u8>|
            src@.skip(pos as int) == spec_encode_prevotes(s) + rest && s.len()
                <= u64::MAX implies s.skip(0) == s && s.take(0) == items@ by {
            assert(s.skip(0) =~= s);
            assert(s.take(0) =~= items@);
        }
    }
    while i < count
        invariant
            pos <= p0 <= p <= src@.len(),
            0 <= i <= count,
            items@.len() == i,
            src@.subrange(pos as int, p0 as int) == spec_u64_to_le_bytes(count),
            src@.subrange(p0 as int, p as int) == concat_prevotes(items@),
            forall|s: Seq<Prevote>, rest: Seq<u8>|
                src@.skip(pos as int) == spec_encode_prevotes(s) + rest && s.len() <= u64::MAX ==> (
                s.len() == count && items@ == s.take(i as int) && src@.skip(p as int)
                    == concat_prevotes(s.skip(i as int)) + rest),
        decreases count - i,
    {
        match decode_prevote(src, p) {
            Some((item, np)) => {
                proof {
                    assert forall|s: Seq<Prevote>, rest: Seq<u8>|
                        src@.skip(pos as int) == spec_encode_prevotes(s) + rest && s.len()
                            <= u64::MAX implies items@.push(item) == s.take(i + 1) && src@.skip(
                        np as int,
                    ) == concat_prevotes(s.skip(i + 1)) + rest by {
                        lemma_concat_prevotes_skip(s, i as int);
                        assert(src@.skip(p as int) =~= spec_encode_prevote(s[i as int]) + (concat_prevotes(
                            s.skip(i + 1),
                        ) + rest));
                        assert(item == s[i as int] && np == p + spec_encode_prevote(s[i as int]).len());
                        lemma_skip_concat(
                            src@,
                            p as int,
                            spec_encode_prevote(s[i as int]),
                            concat_prevotes(s.skip(i + 1)) + rest,
                        );
                        assert(items@.push(item) =~= s.take(i + 1));
                    }
                    assert(concat_prevotes(items@.push(item)) == concat_prevotes(items@) + spec_encode_prevote(
                        item,
                    )) by {
                        assert(items@.push(item).drop_last() =~= items@);
                        assert(items@.push(item).last() == item);
                    }
                    lemma_subrange_join(src@, p0 as int, p as int, np as int);
                }
                items.push(item);
                p = np;
                i = i + 1;
            },
            None => {
                proof {
                    assert forall|s: Seq<Prevote>, rest: Seq<u8>|
                        src@.skip(pos as int) != spec_encode_prevotes(s) + rest || s.len()
                            > u64::MAX by {
                        if src@.skip(pos as int) == spec_encode_prevotes(s) + rest && s.len()
                            <= u64::MAX {
                            lemma_concat_prevotes_skip(s, i as int);
                            assert(src@.skip(p as int) =~= spec_encode_prevote(s[i as int]) + (
                            concat_prevotes(s.skip(i + 1)) + rest));
                        }
                    }
                }
                return None;
            },
        }
    }
    proof {
        lemma_subrange_join(src@, pos as int, p0 as int, p as int);
        assert(src@.subrange(pos as int, p as int) =~= spec_encode_prevotes(items@));
        assert forall|s: Seq<Prevote>, rest: Seq<u8>|
            src@.skip(pos as int) == spec_encode_prevotes(s) + rest && s.len()
                <= u64::MAX implies items@ == s && p == pos + spec_encode_prevotes(s).len() by {
            assert(s.take(count as int) =~= s);
            assert(s.skip(count as int) =~= Seq::<Prevote>::empty());
            assert(src@.skip(p as int) == rest) by {
                assert(concat_prevotes(s.skip(count as int)) + rest =~= rest);
            }
            assert(src@.skip(p as int).len() == src@.len() - p);
            assert(src@.skip(pos as int).len() == src@.len() - pos);
            vstd::bytes::lemma_auto_spec_u64_to_from_le_bytes();
        }
    }
    Some((items, p))
}

/// Encode a count-prefixed sequence.
pub fn encode_commits_list(v: &Vec<Commit>) -> (r: Vec<u8>)
    ensures
        r@ == spec_encode_commits_list(v@),
{
    let mut out: Vec<u8> = Vec::new();
    let count = v.len();
    push_u64_le(&mut out, count as u64);
    let mut i: usize = 0;
    proof {
        assert(v@.take(0) =~= Seq::<Commit>::empty());
        assert(out@ =~= spec_u64_to_le_bytes(count as u64) + concat_commits_list(v@.take(0)));
    }
    while i < count
        invariant
            0 <= i <= count,
            count == v@.len(),
            out@ == spec_u64_to_le_bytes(count as u64) + concat_commits_list(v@.take(i as int)),
        decreases count - i,
    {
        let mut e = encode_commit(&v[i]);
        out.append(&mut e);
        proof {
            assert(v@.take(i + 1).drop_last() =~= v@.take(i as int));
            assert(v@.take(i + 1).last() == v@[i as int]);
            assert(out@ =~= spec_u64_to_le_bytes(count as u64) + concat_commits_list(v@.take(i + 1)));
        }
        i += 1;
    }
    proof {
        assert(v@.take(count as int) =~= v@);
    }
    out
}

/// Decode a count-prefixed sequence at `pos`. Succeeds on exactly the byte
/// strings that begin with such an encoding.
pub fn decode_commits_list(src: &[u8], pos: usize) -> (r: Option<(Vec<Commit>, usize)>)
    requires
        pos <= src@.len(),
    ensures
        r matches Some((v, end)) ==> pos <= end <= src@.len() && src@.subrange(
            pos as int,
            end as int,
        ) == spec_encode_commits_list(v@),
        forall|s: Seq<Commit>, rest: Seq<u8>|
            src@.skip(pos as int) == spec_encode_commits_list(s) + rest && s.len() <= u64::MAX ==> (
            r matches Some((v, end)) && v@ == s && end == pos + spec_encode_commits_list(s).len()),
{
    let (count, p0) = match read_u64(src, pos) {
        Some(x) => x,
        None => {
            proof {
                assert forall|s: Seq<Commit>, rest: Seq<u8>|
                    src@.skip(pos as int) != spec_encode_commits_list(s) + rest by {
                    vstd::bytes::lemma_auto_spec_u64_to_from_le_bytes();
                    assert((spec_encode_commits_list(s) + rest).len() >= 8);
                    assert(src@.skip(pos as int).len() == src@.len() - pos);
                }
            }
            return None;
        },
    };
    proof {
        assert forall|s: Seq<Commit>, rest: Seq<u8>|
            src@.skip(pos as int) == spec_encode_commits_list(s) + rest && s.len()
                <= u64::MAX implies s.len() == count && src@.skip(p0 as int) == concat_commits_list(s)
            + rest && src@.subrange(pos as int, p0 as int) == spec_u64_to_le_bytes(count) by {
            vstd::bytes::lemma_auto_spec_u64_to_from_le_bytes();
            assert(src@.skip(pos as int) =~= spec_u64_to_le_bytes(s.len() as u64) + (concat_commits_list(
                s,
            ) + rest));
            lemma_prefix_subrange(
                spec_u64_to_le_bytes(s.len() as u64),
                concat_commits_list(s) + rest,
                src@,
                pos as int,
                0,
                8,
            );
            assert(spec_u64_to_le_bytes(s.len() as u64).subrange(0, 8) =~= spec_u64_to_le_bytes(
                s.len() as u64,
            ));
            assert(spec_u64_from_le_bytes(spec_u64_to_le_bytes(count)) == spec_u64_from_le_bytes(
                spec_u64_to_le_bytes(s.len() as u64),
            ));
            lemma_skip_concat(
                src@,
                pos as int,
                spec_u64_to_le_bytes(s.len() as u64),
                concat_commits_list(s) + rest,
            );
        }
    }
    let mut items: Vec<Commit> = Vec::new();
    let mut p = p0;
    let mut i: u64 = 0;
    proof {
        assert(items@ =~= Seq::<Commit>::empty());
        assert forall|s: Seq<Commit>, rest: Seq<u8>|
            src@.skip(pos as int) == spec_encode_commits_list(s) + rest && s.len()
                <= u64::MAX implies s.skip(0) == s && s.take(0) == items@ by {
            assert(s.skip(0) =~= s);
            assert(s.take(0) =~= items@);
        }
    }
    while i < count
        invariant
            pos <= p0 <= p <= src@.len(),
            0 <= i <= count,
            items@.len() == i,
            src@.subrange(pos as int, p0 as int) == spec_u64_to_le_bytes(count),
            src@.subrange(p0 as int, p as int) == concat_commits_list(items@),
            forall|s: Seq<Commit>, rest: Seq<u8>|
                src@.skip(pos as int) == spec_encode_commits_list(s) + rest && s.len() <= u64::MAX ==> (
                s.len() == count && items@ == s.take(i as int) && src@.skip(p as int)
                    == concat_commits_list(s.skip(i as int)) + rest),
        decreases count - i,
    {
        match decode_commit(src, p) {
            Some((item, np)) => {
                proof {
                    assert forall|s: Seq<Commit>, rest: Seq<u8>|
                        src@.skip(pos as int) == spec_encode_commits_list(s) + rest && s.len()
                            <= u64::MAX implies items@.push(item) == s.take(i + 1) && src@.skip(
                        np as int,
                    ) == concat_commits_list(s.skip(i + 1)) + rest by {
                        lemma_concat_commits_list_skip(s, i as int);
                        assert(src@.skip(p as int) =~= spec_encode_commit(s[i as int]) + (concat_commits_list(
                            s.skip(i + 1),
                        ) + rest));
                        assert(item == s[i as int] && np == p + spec_encode_commit(s[i as int]).len());
                        lemma_skip_concat(
                            src@,
                            p as int,
                            spec_encode_commit(s[i as int]),
                            concat_commits_list(s.skip(i + 1)) + rest,
                        );
                        assert(items@.push(item) =~= s.take(i + 1));
                    }
                    assert(concat_commits_list(items@.push(item)) == concat_commits_list(items@) + spec_encode_commit(
                        item,
                    )) by {
                        assert(items@.push(item).drop_last() =~= items@);
                        assert(items@.push(item).last() == item);
                    }
                    lemma_subrange_join(src@, p0 as int, p as int, np as int);
                }
                items.push(item);
                p = np;
                i = i + 1;
            },
            None => {
                proof {
                    assert forall|s: Seq<Commit>, rest: Seq<u8>|
                        src@.skip(pos as int) != spec_encode_commits_list(s) + rest || s.len()
                            > u64::MAX by {
                        if src@.skip(pos as int) == spec_encode_commits_list(s) + rest && s.len()
                            <= u64::MAX {
                            lemma_concat_commits_list_skip(s, i as int);
                            assert(src@.skip(p as int) =~= spec_encode_commit(s[i as int]) + (
                            concat_commits_list(s.skip(i + 1)) + rest));
                        }
                    }
                }
                return None;
            },
        }
    }
    proof {
        lemma_subrange_join(src@, pos as int, p0 as int, p as int);
        assert(src@.subrange(pos as int, p as int) =~= spec_encode_commits_list(items@));
        assert forall|s: Seq<Commit>, rest: Seq<u8>|
            src@.skip(pos as int) == spec_encode_commits_list(s) + rest && s.len()
                <= u64::MAX implies items@ == s && p == pos + spec_encode_commits_list(s).len() by {
            assert(s.take(count as int) =~= s);
            assert(s.skip(count as int) =~= Seq::<Commit>::empty());
            assert(src@.skip(p as int) == rest) by {
                assert(concat_commits_list(s.skip(count as int)) + rest =~= rest);
            }
            assert(src@.skip(p as int).len() == src@.len() - p);
            assert(src@.skip(pos as int).len() == src@.len() - pos);
            vstd::bytes::lemma_auto_spec_u64_to_from_le_bytes();
        }
    }
    Some((items, p))
}

/// Encode a count-prefixed sequence.
pub fn encode_entries(v: &Vec<AccountEntry>) -> (r: Vec<u8>)
    ensures
        r@ == spec_encode_entries(v@),
{
    let mut out: Vec<u8> = Vec::new();
    let count = v.len();
    push_u64_le(&mut out, count as u64);
    let mut i: usize = 0;
    proof {
        assert(v@.take(0) =~= Seq::<AccountEntry>::empty());
        assert(out@ =~= spec_u64_to_le_bytes(count as u64) + concat_entries(v@.take(0)));
    }
    while i < count
        invariant
            0 <= i <= count,
            count == v@.len(),
            out@ == spec_u64_to_le_bytes(count as u64) + concat_entries(v@.take(i as int)),
        decreases count - i,
    {
        let mut e = encode_entry(&v[i]);
        out.append(&mut e);
        proof {
            assert(v@.take(i + 1).drop_last() =~= v@.take(i as int));
            assert(v@.take(i + 1).last() == v@[i as int]);
            assert(out@ =~= spec_u64_to_le_bytes(count as u64) + concat_entries(v@.take(i + 1)));
        }
        i += 1;
    }
    proof {
        assert(v@.take(count as int) =~= v@);
    }
    out
}

/// Decode a count-prefixed sequence at `pos`. Succeeds on exactly the byte
/// strings that begin with such an encoding.
pub fn decode_entries(src: &[u8], pos: usize) -> (r: Option<(Vec<AccountEntry>, usize)>)
    requires
        pos <= src@.len(),
    ensures
        r matches Some((v, end)) ==> pos <= end <= src@.len() && src@.subrange(
            pos as int,
            end as int,
        ) == spec_encode_entries(v@),
        forall|s: Seq<AccountEntry>, rest: Seq<u8>|
            src@.skip(pos as int) == spec_encode_entries(s) + rest && s.len() <= u64::MAX ==> (
            r matches Some((v, end)) && v@ == s && end == pos + spec_encode_entries(s).len()),
{
    let (count, p0) = match read_u64(src, pos) {
        Some(x) => x,
        None => {
            proof {
                assert forall|s: Seq<AccountEntry>, rest: Seq<u8>|
                    src@.skip(pos as int) != spec_encode_entries(s) + rest by {
                    vstd::bytes::lemma_auto_spec_u64_to_from_le_bytes();
                    assert((spec_encode_entries(s) + rest).len() >= 8);
                    assert(src@.skip(pos as int).len() == src@.len() - pos);
                }
            }
            return None;
        },
    };
    proof {
        assert forall|s: Seq<AccountEntry>, rest: Seq<u8>|
            src@.skip(pos as int) == spec_encode_entries(s) + rest && s.len()
                <= u64::MAX implies s.len() == count && src@.skip(p0 as int) == concat_entries(s)
            + rest && src@.subrange(pos as int, p0 as int) == spec_u64_to_le_bytes(count) by {
            vstd::bytes::lemma_auto_spec_u64_to_from_le_bytes();
            assert(src@.skip(pos as int) =~= spec_u64_to_le_bytes(s.len() as u64) + (concat_entries(
                s,
            ) + rest));
            lemma_prefix_subrange(
                spec_u64_to_le_bytes(s.len() as u64),
                concat_entries(s) + rest,
                src@,
                pos as int,
                0,
                8,
            );
            assert(spec_u64_to_le_bytes(s.len() as u64).subrange(0, 8) =~= spec_u64_to_le_bytes(
                s.len() as u64,
            ));
            assert(spec_u64_from_le_bytes(spec_u64_to_le_bytes(count)) == spec_u64_from_le_bytes(
                spec_u64_to_le_bytes(s.len() as u64),
            ));
            lemma_skip_concat(
                src@,
                pos as int,
                spec_u64_to_le_bytes(s.len() as u64),
                concat_entries(s) + rest,
            );
        }
    }
    let mut items: Vec<AccountEntry> = Vec::new();
    let mut p = p0;
    let mut i: u64 = 0;
    proof {
        assert(items@ =~= Seq::<AccountEntry>::empty());
        assert forall|s: Seq<AccountEntry>, rest: Seq<u8>|
            src@.skip(pos as int) == spec_encode_entries(s) + rest && s.len()
                <= u64::MAX implies s.skip(0) == s && s.take(0) == items@ by {
            assert(s.skip(0) =~= s);
            assert(s.take(0) =~= items@);
        }
    }
    while i < count
        invariant
            pos <= p0 <= p <= src@.len(),
            0 <= i <= count,
            items@.len() == i,
            src@.subrange(pos as int, p0 as int) == spec_u64_to_le_bytes(count),
            src@.subrange(p0 as int, p as int) == concat_entries(items@),
            forall|s: Seq<AccountEntry>, rest: Seq<u8>|
                src@.skip(pos as int) == spec_encode_entries(s) + rest && s.len() <= u64::MAX ==> (
                s.len() == count && items@ == s.take(i as int) && src@.skip(p as int)
                    == concat_entries(s.skip(i as int)) + rest),
        decreases count - i,
    {
        match decode_entry(src, p) {
            Some((item, np)) => {
                proof {
                    assert forall|s: Seq<AccountEntry>, rest: Seq<u8>|
                        src@.skip(pos as int) == spec_encode_entries(s) + rest && s.len()
                            <= u64::MAX implies items@.push(item) == s.take(i + 1) && src@.skip(
                        np as int,
                    ) == concat_entries(s.skip(i + 1)) + rest by {
                        lemma_concat_entries_skip(s, i as int);
                        assert(src@.skip(p as int) =~= spec_encode_entry(s[i as int]) + (concat_entries(
                            s.skip(i + 1),
                        ) + rest));
                        assert(item == s[i as int] && np == p + spec_encode_entry(s[i as int]).len());
                        lemma_skip_concat(
                            src@,
                            p as int,
                            spec_encode_entry(s[i as int]),
                            concat_entries(s.skip(i + 1)) + rest,
                        );
                        assert(items@.push(item) =~= s.take(i + 1));
                    }
                    assert(concat_entries(items@.push(item)) == concat_entries(items@) + spec_encode_entry(
                        item,
                    )) by {
                        assert(items@.push(item).drop_last() =~= items@);
                        assert(items@.push(item).last() == item);
                    }
                    lemma_subrange_join(src@, p0 as int, p as int, np as int);
                }
                items.push(item);
                p = np;
                i = i + 1;
            },
            None => {
                proof {
                    assert forall|s: Seq<AccountEntry>, rest: Seq<u8>|
                        src@.skip(pos as int) != spec_encode_entries(s) + rest || s.len()
                            > u64::MAX by {
                        if src@.skip(pos as int) == spec_encode_entries(s) + rest && s.len()
                            <= u64::MAX {
                            lemma_concat_entries_skip(s, i as int);
                            assert(src@.skip(p as int) =~= spec_encode_entry(s[i as int]) + (
                            concat_entries(s.skip(i + 1)) + rest));
                        }
                    }
                }
                return None;
            },
        }
    }
    proof {
        lemma_subrange_join(src@, pos as int, p0 as int, p as int);
        assert(src@.subrange(pos as int, p as int) =~= spec_encode_entries(items@));
        assert forall|s: Seq<AccountEntry>, rest: Seq<u8>|
            src@.skip(pos as int) == spec_encode_entries(s) + rest && s.len()
                <= u64::MAX implies items@ == s && p == pos + spec_encode_entries(s).len() by {
            assert(s.take(count as int) =~= s);
            assert(s.skip(count as int) =~= Seq::<AccountEntry>::empty());
            assert(src@.skip(p as int) == rest) by {
                assert(concat_entries(s.skip(count as int)) + rest =~= rest);
            }
            assert(src@.skip(p as int).len() == src@.len() - p);
            assert(src@.skip(pos as int).len() == src@.len() - pos);
            vstd::bytes::lemma_auto_spec_u64_to_from_le_bytes();
        }
    }
    Some((items, p))
}


/// The canonical encoding of a state: height, root, balances, nonces.
pub open spec fn spec_encode_state(
    height: u64,
    root: [u8; 32],
    balances: Seq<AccountEntry>,
    nonces: Seq<AccountEntry>,
) -> Seq<u8> {
    spec_u64_to_le_bytes(height) + root@ + spec_encode_entries(balances) + spec_encode_entries(
        nonces,
    )
}

/// Encode a state.
pub fn encode_state(s: &State) -> (r: Vec<u8>)
    ensures
        r@ == spec_encode_state(s.height, s.state_root, s.balances@, s.nonces@),
{
    let mut out: Vec<u8> = Vec::new();
    push_u64_le(&mut out, s.height);
    crate::bytes::push_bytes32(&mut out, &s.state_root);
    let mut b = encode_entries(&s.balances);
    out.append(&mut b);
    let mut n = encode_entries(&s.nonces);
    out.append(&mut n);
    out
}

proof fn lemma_state_layout(
    src: Seq<u8>,
    pos: int,
    height: u64,
    root: [u8; 32],
    balances: Seq<AccountEntry>,
    nonces: Seq<AccountEntry>,
    rest: Seq<u8>,
)
    requires
        0 <= pos <= src.len(),
        src.skip(pos) == spec_encode_state(height, root, balances, nonces) + rest,
    ensures
        src.subrange(pos, pos + 8) == spec_u64_to_le_bytes(height),
        src.subrange(pos + 8, pos + 40) == root@,
        src.skip(pos + 40) == spec_encode_entries(balances) + (spec_encode_entries(nonces) + rest),
        src.skip(pos + 40 + spec_encode_entries(balances).len()) == spec_encode_entries(nonces)
            + rest,
        pos + 40 <= src.len(),
{
    vstd::bytes::lemma_auto_spec_u64_to_from_le_bytes();
    let eh = spec_u64_to_le_bytes(height);
    let eb = spec_encode_entries(balances);
    let en = spec_encode_entries(nonces);
    assert(src.skip(pos) =~= eh + (root@ + (eb + (en + rest))));
    lemma_prefix_subrange(eh, root@ + (eb + (en + rest)), src, pos, 0, 8);
    assert(eh.subrange(0, 8) =~= eh);
    lemma_skip_concat(src, pos, eh, root@ + (eb + (en + rest)));
    lemma_prefix_subrange(root@, eb + (en + rest), src, pos + 8, 0, 32);
    assert(root@.subrange(0, 32) =~= root@);
    lemma_skip_concat(src, pos + 8, root@, eb + (en + rest));
    lemma_skip_concat(src, pos + 40, eb, en + rest);
}

/// Decode a state at `pos`. Succeeds on exactly the byte strings that
/// begin with a state encoding, returning that state and consuming exactly
/// its encoding.
pub fn decode_state(src: &[u8], pos: usize) -> (r: Option<(State, usize)>)
    requires
        pos <= src@.len(),
    ensures
        r matches Some((v, end)) ==> pos <= end <= src@.len() && src@.subrange(
            pos as int,
            end as int,
        ) == spec_encode_state(v.height, v.state_root, v.balances@, v.nonces@),
        forall|h: u64, root: [u8; 32], bal: Seq<AccountEntry>, non: Seq<AccountEntry>, rest: Seq<
            u8,
        >|
            src@.skip(pos as int) == spec_encode_state(h, root, bal, non) + rest && bal.len()
                <= u64::MAX && non.len() <= u64::MAX ==> (r matches Some((v, end)) && v.height == h
                && v.state_root == root && v.balances@ == bal && v.nonces@ == non && end == pos
                + spec_encode_state(h, root, bal, non).len()),
{
    let (height, p1) = match read_u64(src, pos) {
        Some(x) => x,
        None => {
            proof {
                lemma_state_needs_room(src@, pos as int);
            }
            return None;
        },
    };
    let (root, p2) = match read_b32(src, p1) {
        Some(x) => x,
        None => {
            proof {
                lemma_state_needs_room(src@, pos as int);
            }
            return None;
        },
    };
    let (balances, p3) = match decode_entries(src, p2) {
        Some(x) => x,
        None => {
            proof {
                assert forall|h: u64, root2: [u8; 32], bal: Seq<AccountEntry>, non: Seq<
                    AccountEntry,
                >, rest: Seq<u8>|
                    !(src@.skip(pos as int) == spec_encode_state(h, root2, bal, non) + rest
                        && bal.len() <= u64::MAX && non.len() <= u64::MAX) by {
                    if src@.skip(pos as int) == spec_encode_state(h, root2, bal, non) + rest
                        && bal.len() <= u64::MAX && non.len() <= u64::MAX {
                        lemma_state_layout(src@, pos as int, h, root2, bal, non, rest);
                    }
                }
            }
            return None;
        },
    };
    let (nonces, p4) = match decode_entries(src, p3) {
        Some(x) => x,
        None => {
            proof {
                assert forall|h: u64, root2: [u8; 32], bal: Seq<AccountEntry>, non: Seq<
                    AccountEntry,
                >, rest: Seq<u8>|
                    !(src@.skip(pos as int) == spec_encode_state(h, root2, bal, non) + rest
                        && bal.len() <= u64::MAX && non.len() <= u64::MAX) by {
                    if src@.skip(pos as int) == spec_encode_state(h, root2, bal, non) + rest
                        && bal.len() <= u64::MAX && non.len() <= u64::MAX {
                        lemma_state_layout(src@, pos as int, h, root2, bal, non, rest);
                        assert(balances@ == bal && p3 == p2 + spec_encode_entries(bal).len());
                    }
                }
            }
            return None;
        },
    };
    let st = State { height, state_root: root, balances, nonces };
    proof {
        assert(src@.subrange(pos as int, p4 as int) =~= spec_encode_state(
            st.height,
            st.state_root,
            st.balances@,
            st.nonces@,
        ));
        assert forall|h: u64, root2: [u8; 32], bal: Seq<AccountEntry>, non: Seq<AccountEntry>, rest: Seq<u8>|
            src@.skip(pos as int) == spec_encode_state(h, root2, bal, non) + rest && bal.len()
                <= u64::MAX && non.len() <= u64::MAX implies st.height == h && st.state_root
            == root2 && st.balances@ == bal && st.nonces@ == non && p4 == pos + spec_encode_state(
            h,
            root2,
            bal,
            non,
        ).len() by {
            lemma_state_layout(src@, pos as int, h, root2, bal, non, rest);
            vstd::bytes::lemma_auto_spec_u64_to_from_le_bytes();
            assert(spec_u64_from_le_bytes(spec_u64_to_le_bytes(height)) == spec_u64_from_le_bytes(
                spec_u64_to_le_bytes(h),
            ));
            crate::bytes::lemma_bytes32_ext(root, root2);
            assert(balances@ == bal && p3 == p2 + spec_encode_entries(bal).len());
            assert(nonces@ == non && p4 == p3 + spec_encode_entries(non).len());
        }
    }
    Some((st, p4))
}

proof fn lemma_state_needs_room(src: Seq<u8>, pos: int)
    requires
        0 <= pos <= src.len(),
        src.len() < pos + 40,
    ensures
        forall|h: u64, root: [u8; 32], bal: Seq<AccountEntry>, non: Seq<AccountEntry>, rest: Seq<
            u8,
        >| src.skip(pos) != spec_encode_state(h, root, bal, non) + rest,
{
    assert forall|h: u64, root: [u8; 32], bal: Seq<AccountEntry>, non: Seq<AccountEntry>, rest: Seq<
        u8,
    >| src.skip(pos) != spec_encode_state(h, root, bal, non) + rest by {
        vstd::bytes::lemma_auto_spec_u64_to_from_le_bytes();
        assert(spec_encode_state(h, root, bal, non).len() >= 40);
        assert(src.skip(pos).len() == src.len() - pos);
    }
}

/// The concatenated encodings of a sequence of transactions.
pub open spec fn concat_txs(s: Seq<TransactionView>) -> Seq<u8>
    decreases s.len(),
{
    if s.len() == 0 {
        Seq::empty()
    } else {
        concat_txs(s.drop_last()) + spec_encode_tx(s.last())
    }
}

/// A count-prefixed transaction sequence encoding.
pub open spec fn spec_encode_txs(s: Seq<TransactionView>) -> Seq<u8> {
    spec_u64_to_le_bytes(s.len() as u64) + concat_txs(s)
}

/// Whether every transaction's variable fields fit a u64 length.
pub open spec fn txs_len_ok(s: Seq<TransactionView>) -> bool {
    forall|j: int|
        0 <= j < s.len() ==> (#[trigger] s[j]).payload.len() <= u64::MAX && s[j].signature.len()
            <= u64::MAX
}

proof fn lemma_concat_txs_distributes(a: Seq<TransactionView>, b: Seq<TransactionView>)
    ensures
        concat_txs(a + b) == concat_txs(a) + concat_txs(b),
    decreases b.len(),
{
    if b.len() == 0 {
        assert(a + b =~= a);
        assert(concat_txs(a) + concat_txs(b) =~= concat_txs(a));
    } else {
        assert((a + b).drop_last() =~= a + b.drop_last());
        lemma_concat_txs_distributes(a, b.drop_last());
        assert((a + b).last() == b.last());
        assert(concat_txs(a) + concat_txs(b.drop_last()) + spec_encode_tx(b.last()) =~= concat_txs(
            a,
        ) + concat_txs(b));
    }
}

proof fn lemma_concat_txs_skip(s: Seq<TransactionView>, i: int)
    requires
        0 <= i < s.len(),
    ensures
        concat_txs(s.skip(i)) == spec_encode_tx(s[i]) + concat_txs(s.skip(i + 1)),
{
    assert(s.skip(i) =~= seq![s[i]] + s.skip(i + 1));
    lemma_concat_txs_distributes(seq![s[i]], s.skip(i + 1));
    assert(seq![s[i]].last() == s[i]);
    assert(seq![s[i]].drop_last() =~= Seq::<TransactionView>::empty());
    assert(concat_txs(seq![s[i]].drop_last()) + spec_encode_tx(s[i]) =~= spec_encode_tx(s[i]));
    assert(concat_txs(seq![s[i]]) =~= spec_encode_tx(s[i]));
}

/// Encode a count-prefixed transaction sequence.
pub fn encode_txs(v: &Vec<Transaction>) -> (r: Vec<u8>)
    ensures
        r@ == spec_encode_txs(txs_view(v@)),
{
    let mut out: Vec<u8> = Vec::new();
    let count = v.len();
    push_u64_le(&mut out, count as u64);
    let mut i: usize = 0;
    proof {
        assert(txs_view(v@).take(0) =~= Seq::<TransactionView>::empty());
        assert(out@ =~= spec_u64_to_le_bytes(count as u64) + concat_txs(txs_view(v@).take(0)));
    }
    while i < count
        invariant
            0 <= i <= count,
            count == v@.len(),
            out@ == spec_u64_to_le_bytes(count as u64) + concat_txs(txs_view(v@).take(i as int)),
        decreases count - i,
    {
        let mut e = encode_transaction(&v[i]);
        out.append(&mut e);
        proof {
            let tv = txs_view(v@);
            assert(tv.take(i + 1).drop_last() =~= tv.take(i as int));
            assert(tv.take(i + 1).last() == tv[i as int]);
            assert(tv[i as int] == v@[i as int]@);
            assert(out@ =~= spec_u64_to_le_bytes(count as u64) + concat_txs(tv.take(i + 1)));
        }
        i += 1;
    }
    proof {
        assert(txs_view(v@).take(count as int) =~= txs_view(v@));
        assert(txs_view(v@).len() == count);
    }
    out
}

/// Decode a count-prefixed transaction sequence at `pos`.
pub fn decode_txs(src: &[u8], pos: usize) -> (r: Option<(Vec<Transaction>, usize)>)
    requires
        pos <= src@.len(),
    ensures
        r matches Some((v, end)) ==> pos <= end <= src@.len() && src@.subrange(
            pos as int,
            end as int,
        ) == spec_encode_txs(txs_view(v@)),
        forall|s: Seq<TransactionView>, rest: Seq<u8>|
            src@.skip(pos as int) == spec_encode_txs(s) + rest && s.len() <= u64::MAX && txs_len_ok(
                s,
            ) ==> (r matches Some((v, end)) && txs_view(v@) == s && end == pos + spec_encode_txs(
                s,
            ).len()),
{
    let (count, p0) = match read_u64(src, pos) {
        Some(x) => x,
        None => {
            proof {
                assert forall|s: Seq<TransactionView>, rest: Seq<u8>|
                    src@.skip(pos as int) != spec_encode_txs(s) + rest by {
                    vstd::bytes::lemma_auto_spec_u64_to_from_le_bytes();
                    assert((spec_encode_txs(s) + rest).len() >= 8);
                    assert(src@.skip(pos as int).len() == src@.len() - pos);
                }
            }
            return None;
        },
    };
    proof {
        assert forall|s: Seq<TransactionView>, rest: Seq<u8>|
            src@.skip(pos as int) == spec_encode_txs(s) + rest && s.len()
                <= u64::MAX implies s.len() == count && src@.skip(p0 as int) == concat_txs(s) + rest
            && src@.subrange(pos as int, p0 as int) == spec_u64_to_le_bytes(count) by {
            vstd::bytes::lemma_auto_spec_u64_to_from_le_bytes();
            assert(src@.skip(pos as int) =~= spec_u64_to_le_bytes(s.len() as u64) + (concat_txs(s)
                + rest));
            lemma_prefix_subrange(
                spec_u64_to_le_bytes(s.len() as u64),
                concat_txs(s) + rest,
                src@,
                pos as int,
                0,
                8,
            );
            assert(spec_u64_to_le_bytes(s.len() as u64).subrange(0, 8) =~= spec_u64_to_le_bytes(
                s.len() as u64,
            ));
            assert(spec_u64_from_le_bytes(spec_u64_to_le_bytes(count)) == spec_u64_from_le_bytes(
                spec_u64_to_le_bytes(s.len() as u64),
            ));
            lemma_skip_concat(
                src@,
                pos as int,
                spec_u64_to_le_bytes(s.len() as u64),
                concat_txs(s) + rest,
            );
        }
    }
    let mut items: Vec<Transaction> = Vec::new();
    let mut p = p0;
    let mut i: u64 = 0;
    proof {
        assert(txs_view(items@) =~= Seq::<TransactionView>::empty());
        assert forall|s: Seq<TransactionView>, rest: Seq<u8>|
            src@.skip(pos as int) == spec_encode_txs(s) + rest && s.len()
                <= u64::MAX implies s.skip(0) == s && s.take(0) == txs_view(items@) by {
            assert(s.skip(0) =~= s);
            assert(s.take(0) =~= txs_view(items@));
        }
    }
    while i < count
        invariant
            pos <= p0 <= p <= src@.len(),
            0 <= i <= count,
            items@.len() == i,
            src@.subrange(pos as int, p0 as int) == spec_u64_to_le_bytes(count),
            src@.subrange(p0 as int, p as int) == concat_txs(txs_view(items@)),
            forall|s: Seq<TransactionView>, rest: Seq<u8>|
                src@.skip(pos as int) == spec_encode_txs(s) + rest && s.len() <= u64::MAX
                    && txs_len_ok(s) ==> (s.len() == count && txs_view(items@) == s.take(i as int)
                    && src@.skip(p as int) == concat_txs(s.skip(i as int)) + rest),
        decreases count - i,
    {
        match decode_transaction(src, p) {
            Some((item, np)) => {
                proof {
                    assert forall|s: Seq<TransactionView>, rest: Seq<u8>|
                        src@.skip(pos as int) == spec_encode_txs(s) + rest && s.len() <= u64::MAX
                            && txs_len_ok(s) implies txs_view(items@.push(item)) == s.take(i + 1)
                        && src@.skip(np as int) == concat_txs(s.skip(i + 1)) + rest by {
                        lemma_concat_txs_skip(s, i as int);
                        assert(src@.skip(p as int) =~= spec_encode_tx(s[i as int]) + (concat_txs(
                            s.skip(i + 1),
                        ) + rest));
                        assert(s[i as int].payload.len() <= u64::MAX && s[i as int].signature.len()
                            <= u64::MAX);
                        assert(item@ == s[i as int] && np == p + spec_encode_tx(s[i as int]).len());
                        lemma_skip_concat(
                            src@,
                            p as int,
                            spec_encode_tx(s[i as int]),
                            concat_txs(s.skip(i + 1)) + rest,
                        );
                        assert(txs_view(items@.push(item)) =~= s.take(i + 1));
                    }
                    assert(concat_txs(txs_view(items@.push(item))) == concat_txs(txs_view(items@))
                        + spec_encode_tx(item@)) by {
                        assert(txs_view(items@.push(item)).drop_last() =~= txs_view(items@));
                        assert(txs_view(items@.push(item)).last() == item@);
                    }
                    lemma_subrange_join(src@, p0 as int, p as int, np as int);
                }
                items.push(item);
                p = np;
                i = i + 1;
            },
            None => {
                proof {
                    assert forall|s: Seq<TransactionView>, rest: Seq<u8>|
                        !(src@.skip(pos as int) == spec_encode_txs(s) + rest && s.len() <= u64::MAX
                            && txs_len_ok(s)) by {
                        if src@.skip(pos as int) == spec_encode_txs(s) + rest && s.len()
                            <= u64::MAX && txs_len_ok(s) {
                            lemma_concat_txs_skip(s, i as int);
                            assert(src@.skip(p as int) =~= spec_encode_tx(s[i as int]) + (
                            concat_txs(s.skip(i + 1)) + rest));
                            assert(s[i as int].payload.len() <= u64::MAX && s[i as int].signature.len()
                                <= u64::MAX);
                        }
                    }
                }
                return None;
            },
        }
    }
    proof {
        lemma_subrange_join(src@, pos as int, p0 as int, p as int);
        assert(txs_view(items@).len() == items@.len());
        assert(src@.subrange(pos as int, p as int) =~= spec_encode_txs(txs_view(items@)));
        assert forall|s: Seq<TransactionView>, rest: Seq<u8>|
            src@.skip(pos as int) == spec_encode_txs(s) + rest && s.len() <= u64::MAX && txs_len_ok(
                s,
            ) implies txs_view(items@) == s && p == pos + spec_encode_txs(s).len() by {
            assert(s.take(count as int) =~= s);
            assert(s.skip(count as int) =~= Seq::<TransactionView>::empty());
            assert(src@.skip(p as int) == rest) by {
                assert(concat_txs(s.skip(count as int)) + rest =~= rest);
            }
            assert(src@.skip(p as int).len() == src@.len() - p);
            assert(src@.skip(pos as int).len() == src@.len() - pos);
            vstd::bytes::lemma_auto_spec_u64_to_from_le_bytes();
        }
    }
    Some((items, p))
}

/// The canonical encoding of a block.
pub open spec fn spec_encode_block(b: BlockView) -> Seq<u8> {
    spec_u64_to_le_bytes(b.height) + b.parent_hash@ + b.state_root@ + spec_u64_to_le_bytes(
        b.timestamp,
    ) + spec_encode_txs(b.txs) + b.producer@ + spec_encode_bytes(b.signature)
}

/// Encode a block.
pub fn encode_block(b: &Block) -> (r: Vec<u8>)
    ensures
        r@ == spec_encode_block(b@),
{
    let mut out: Vec<u8> = Vec::new();
    push_u64_le(&mut out, b.height);
    crate::bytes::push_bytes32(&mut out, &b.parent_hash);
    crate::bytes::push_bytes32(&mut out, &b.state_root);
    push_u64_le(&mut out, b.timestamp);
    let mut txs = encode_txs(&b.txs);
    out.append(&mut txs);
    crate::bytes::push_bytes32(&mut out, &b.producer);
    push_encoded_bytes(&mut out, &b.signature);
    out
}

proof fn lemma_block_layout(src: Seq<u8>, pos: int, b: BlockView, rest: Seq<u8>)
    requires
        0 <= pos <= src.len(),
        src.skip(pos) == spec_encode_block(b) + rest,
    ensures
        src.subrange(pos, pos + 8) == spec_u64_to_le_bytes(b.height),
        src.subrange(pos + 8, pos + 40) == b.parent_hash@,
        src.subrange(pos + 40, pos + 72) == b.state_root@,
        src.subrange(pos + 72, pos + 80) == spec_u64_to_le_bytes(b.timestamp),
        src.skip(pos + 80) == spec_encode_txs(b.txs) + (b.producer@ + (spec_encode_bytes(
            b.signature,
        ) + rest)),
        src.skip(pos + 80 + spec_encode_txs(b.txs).len()) == b.producer@ + (spec_encode_bytes(
            b.signature,
        ) + rest),
        src.skip(pos + 112 + spec_encode_txs(b.txs).len()) == spec_encode_bytes(b.signature)
            + rest,
        pos + 80 <= src.len(),
{
    vstd::bytes::lemma_auto_spec_u64_to_from_le_bytes();
    let eh = spec_u64_to_le_bytes(b.height);
    let et = spec_u64_to_le_bytes(b.timestamp);
    let ex = spec_encode_txs(b.txs);
    let es = spec_encode_bytes(b.signature);
    let r1 = b.parent_hash@ + (b.state_root@ + (et + (ex + (b.producer@ + (es + rest)))));
    let r2 = b.state_root@ + (et + (ex + (b.producer@ + (es + rest))));
    let r3 = et + (ex + (b.producer@ + (es + rest)));
    let r4 = ex + (b.producer@ + (es + rest));
    let r5 = b.producer@ + (es + rest);
    let r6 = es + rest;
    assert(src.skip(pos) =~= eh + r1);
    lemma_prefix_subrange(eh, r1, src, pos, 0, 8);
    assert(eh.subrange(0, 8) =~= eh);
    lemma_skip_concat(src, pos, eh, r1);
    lemma_prefix_subrange(b.parent_hash@, r2, src, pos + 8, 0, 32);
    assert(b.parent_hash@.subrange(0, 32) =~= b.parent_hash@);
    lemma_skip_concat(src, pos + 8, b.parent_hash@, r2);
    lemma_prefix_subrange(b.state_root@, r3, src, pos + 40, 0, 32);
    assert(b.state_root@.subrange(0, 32) =~= b.state_root@);
    lemma_skip_concat(src, pos + 40, b.state_root@, r3);
    lemma_prefix_subrange(et, r4, src, pos + 72, 0, 8);
    assert(et.subrange(0, 8) =~= et);
    lemma_skip_concat(src, pos + 72, et, r4);
    lemma_skip_concat(src, pos + 80, ex, r5);
    lemma_skip_concat(src, pos + 80 + ex.len(), b.producer@, r6);
}

/// Decode a block at `pos`. Succeeds on exactly the byte strings that
/// begin with a block encoding, returning that block and consuming exactly
/// its encoding.
pub fn decode_block(src: &[u8], pos: usize) -> (r: Option<(Block, usize)>)
    requires
        pos <= src@.len(),
    ensures
        r matches Some((v, end)) ==> pos <= end <= src@.len() && src@.subrange(
            pos as int,
            end as int,
        ) == spec_encode_block(v@),
        forall|b: BlockView, rest: Seq<u8>|
            src@.skip(pos as int) == spec_encode_block(b) + rest && b.txs.len() <= u64::MAX
                && txs_len_ok(b.txs) && b.signature.len() <= u64::MAX ==> (r matches Some((v, end))
                && v@ == b && end == pos + spec_encode_block(b).len()),
{
    let (height, p1) = match read_u64(src, pos) {
        Some(x) => x,
        None => {
            proof {
                lemma_block_needs_room(src@, pos as int);
            }
            return None;
        },
    };
    let (parent_hash, p2) = match read_b32(src, p1) {
        Some(x) => x,
        None => {
            proof {
                lemma_block_needs_room(src@, pos as int);
            }
            return None;
        },
    };
    let (state_root, p3) = match read_b32(src, p2) {
        Some(x) => x,
        None => {
            proof {
                lemma_block_needs_room(src@, pos as int);
            }
            return None;
        },
    };
    let (timestamp, p4) = match read_u64(src, p3) {
        Some(x) => x,
        None => {
            proof {
                lemma_block_needs_room(src@, pos as int);
            }
            return None;
        },
    };
    let (txs, p5) = match decode_txs(src, p4) {
        Some(x) => x,
        None => {
            proof {
                assert forall|b: BlockView, rest: Seq<u8>|
                    !(src@.skip(pos as int) == spec_encode_block(b) + rest && b.txs.len()
                        <= u64::MAX && txs_len_ok(b.txs) && b.signature.len() <= u64::MAX) by {
                    if src@.skip(pos as int) == spec_encode_block(b) + rest && b.txs.len()
                        <= u64::MAX && txs_len_ok(b.txs) && b.signature.len() <= u64::MAX {
                        lemma_block_layout(src@, pos as int, b, rest);
                    }
                }
            }
            return None;
        },
    };
    let (producer, p6) = match read_b32(src, p5) {
        Some(x) => x,
        None => {
            proof {
                assert forall|b: BlockView, rest: Seq<u8>|
                    !(src@.skip(pos as int) == spec_encode_block(b) + rest && b.txs.len()
                        <= u64::MAX && txs_len_ok(b.txs) && b.signature.len() <= u64::MAX) by {
                    if src@.skip(pos as int) == spec_encode_block(b) + rest && b.txs.len()
                        <= u64::MAX && txs_len_ok(b.txs) && b.signature.len() <= u64::MAX {
                        lemma_block_layout(src@, pos as int, b, rest);
                        assert(txs_view(txs@) == b.txs && p5 == p4 + spec_encode_txs(b.txs).len());
                        assert(src@.skip(p5 as int).len() == src@.len() - p5);
                    }
                }
            }
            return None;
        },
    };
    let (signature, p7) = match read_len_bytes(src, p6) {
        Some(x) => x,
        None => {
            proof {
                assert forall|b: BlockView, rest: Seq<u8>|
                    !(src@.skip(pos as int) == spec_encode_block(b) + rest && b.txs.len()
                        <= u64::MAX && txs_len_ok(b.txs) && b.signature.len() <= u64::MAX) by {
                    if src@.skip(pos as int) == spec_encode_block(b) + rest && b.txs.len()
                        <= u64::MAX && txs_len_ok(b.txs) && b.signature.len() <= u64::MAX {
                        lemma_block_layout(src@, pos as int, b, rest);
                        assert(txs_view(txs@) == b.txs && p5 == p4 + spec_encode_txs(b.txs).len());
                    }
                }
            }
            return None;
        },
    };
    let blk = Block { height, parent_hash, state_root, timestamp, txs, producer, signature };
    proof {
        assert(src@.subrange(pos as int, p7 as int) =~= spec_encode_block(blk@));
        assert forall|b: BlockView, rest: Seq<u8>|
            src@.skip(pos as int) == spec_encode_block(b) + rest && b.txs.len() <= u64::MAX
                && txs_len_ok(b.txs) && b.signature.len() <= u64::MAX implies blk@ == b && p7 == pos
            + spec_encode_block(b).len() by {
            lemma_block_layout(src@, pos as int, b, rest);
            vstd::bytes::lemma_auto_spec_u64_to_from_le_bytes();
            assert(spec_u64_from_le_bytes(spec_u64_to_le_bytes(height)) == spec_u64_from_le_bytes(
                spec_u64_to_le_bytes(b.height),
            ));
            assert(spec_u64_from_le_bytes(spec_u64_to_le_bytes(timestamp))
                == spec_u64_from_le_bytes(spec_u64_to_le_bytes(b.timestamp)));
            crate::bytes::lemma_bytes32_ext(parent_hash, b.parent_hash);
            crate::bytes::lemma_bytes32_ext(state_root, b.state_root);
            assert(txs_view(txs@) == b.txs && p5 == p4 + spec_encode_txs(b.txs).len());
            lemma_prefix_subrange(
                b.producer@,
                spec_encode_bytes(b.signature) + rest,
                src@,
                p5 as int,
                0,
                32,
            );
            assert(b.producer@.subrange(0, 32) =~= b.producer@);
            crate::bytes::lemma_bytes32_ext(producer, b.producer);
            assert(src@.skip(p6 as int) == spec_encode_bytes(b.signature) + rest);
            assert(signature@ == b.signature && p7 == p6 + spec_encode_bytes(b.signature).len());
        }
    }
    Some((blk, p7))
}

proof fn lemma_block_needs_room(src: Seq<u8>, pos: int)
    requires
        0 <= pos <= src.len(),
        src.len() < pos + 80,
    ensures
        forall|b: BlockView, rest: Seq<u8>| src.skip(pos) != spec_encode_block(b) + rest,
{
    assert forall|b: BlockView, rest: Seq<u8>| src.skip(pos) != spec_encode_block(b) + rest by {
        vstd::bytes::lemma_auto_spec_u64_to_from_le_bytes();
        assert(spec_encode_block(b).len() >= 80);
        assert(src.skip(pos).len() == src.len() - pos);
    }
}


/// The canonical encoding of a proposal.
pub open spec fn spec_encode_proposal(p: ProposalView) -> Seq<u8> {
    spec_u64_to_le_bytes(p.height) + spec_u64_to_le_bytes(p.round) + p.prev_hash@ + p.block_hash@
        + p.state_root@ + spec_encode_bytes(p.transactions) + p.proposer.0@ + p.signature.0@
}

/// Encode a proposal.
pub fn encode_proposal(p: &Proposal) -> (r: Vec<u8>)
    ensures
        r@ == spec_encode_proposal(p@),
{
    let mut out: Vec<u8> = Vec::new();
    push_u64_le(&mut out, p.height);
    push_u64_le(&mut out, p.round);
    crate::bytes::push_bytes32(&mut out, &p.prev_hash);
    crate::bytes::push_bytes32(&mut out, &p.block_hash);
    crate::bytes::push_bytes32(&mut out, &p.state_root);
    push_encoded_bytes(&mut out, &p.transactions);
    crate::bytes::push_bytes32(&mut out, &p.proposer.0);
    crate::bytes::push_bytes64(&mut out, &p.signature.0);
    out
}

proof fn lemma_proposal_layout(src: Seq<u8>, pos: int, t: ProposalView, rest: Seq<u8>)
    requires
        0 <= pos <= src.len(),
        src.skip(pos) == spec_encode_proposal(t) + rest,
    ensures
        src.subrange(pos, pos + 8) == spec_u64_to_le_bytes(t.height),
        src.subrange(pos + 8, pos + 16) == spec_u64_to_le_bytes(t.round),
        src.subrange(pos + 16, pos + 48) == t.prev_hash@,
        src.subrange(pos + 48, pos + 80) == t.block_hash@,
        src.subrange(pos + 80, pos + 112) == t.state_root@,
        src.skip(pos + 112) == spec_encode_bytes(t.transactions) + (t.proposer.0@ + (
        t.signature.0@ + rest)),
        src.skip(pos + 112 + spec_encode_bytes(t.transactions).len()) == t.proposer.0@ + (
        t.signature.0@ + rest),
        src.skip(pos + 144 + spec_encode_bytes(t.transactions).len()) == t.signature.0@ + rest,
        pos + 112 <= src.len(),
{
    vstd::bytes::lemma_auto_spec_u64_to_from_le_bytes();
    let eh = spec_u64_to_le_bytes(t.height);
    let er = spec_u64_to_le_bytes(t.round);
    let ex = spec_encode_bytes(t.transactions);
    let r1 = er + (t.prev_hash@ + (t.block_hash@ + (t.state_root@ + (ex + (t.proposer.0@ + (
    t.signature.0@ + rest))))));
    let r2 = t.prev_hash@ + (t.block_hash@ + (t.state_root@ + (ex + (t.proposer.0@ + (
    t.signature.0@ + rest)))));
    let r3 = t.block_hash@ + (t.state_root@ + (ex + (t.proposer.0@ + (t.signature.0@ + rest))));
    let r4 = t.state_root@ + (ex + (t.proposer.0@ + (t.signature.0@ + rest)));
    let r5 = ex + (t.proposer.0@ + (t.signature.0@ + rest));
    let r6 = t.proposer.0@ + (t.signature.0@ + rest);
    let r7 = t.signature.0@ + rest;
    assert(src.skip(pos) =~= eh + r1);
    lemma_prefix_subrange(eh, r1, src, pos, 0, 8);
    assert(eh.subrange(0, 8) =~= eh);
    lemma_skip_concat(src, pos, eh, r1);
    lemma_prefix_subrange(er, r2, src, pos + 8, 0, 8);
    assert(er.subrange(0, 8) =~= er);
    lemma_skip_concat(src, pos + 8, er, r2);
    lemma_prefix_subrange(t.prev_hash@, r3, src, pos + 16, 0, 32);
    assert(t.prev_hash@.subrange(0, 32) =~= t.prev_hash@);
    lemma_skip_concat(src, pos + 16, t.prev_hash@, r3);
    lemma_prefix_subrange(t.block_hash@, r4, src, pos + 48, 0, 32);
    assert(t.block_hash@.subrange(0, 32) =~= t.block_hash@);
    lemma_skip_concat(src, pos + 48, t.block_hash@, r4);
    lemma_prefix_subrange(t.state_root@, r5, src, pos + 80, 0, 32);
    assert(t.state_root@.subrange(0, 32) =~= t.state_root@);
    lemma_skip_concat(src, pos + 80, t.state_root@, r5);
    lemma_skip_concat(src, pos + 112, ex, r6);
    lemma_skip_concat(src, pos + 112 + ex.len(), t.proposer.0@, r7);
    lemma_skip_concat(src, pos + 144 + ex.len(), t.signature.0@, rest);
}

/// Decode a proposal at `pos`.
pub fn decode_proposal(src: &[u8], pos: usize) -> (r: Option<(Proposal, usize)>)
    requires
        pos <= src@.len(),
    ensures
        r matches Some((v, end)) ==> pos <= end <= src@.len() && src@.subrange(
            pos as int,
            end as int,
        ) == spec_encode_proposal(v@),
        forall|t: ProposalView, rest: Seq<u8>|
            src@.skip(pos as int) == spec_encode_proposal(t) + rest && t.transactions.len()
                <= u64::MAX ==> (r matches Some((v, end)) && v@ == t && end == pos
                + spec_encode_proposal(t).len()),
{
    let (height, p1) = match read_u64(src, pos) {
        Some(x) => x,
        None => {
            proof {
                lemma_proposal_needs_room(src@, pos as int);
            }
            return None;
        },
    };
    let (round, p2) = match read_u64(src, p1) {
        Some(x) => x,
        None => {
            proof {
                lemma_proposal_needs_room(src@, pos as int);
            }
            return None;
        },
    };
    let (prev_hash, p3) = match read_b32(src, p2) {
        Some(x) => x,
        None => {
            proof {
                lemma_proposal_needs_room(src@, pos as int);
            }
            return None;
        },
    };
    let (block_hash, p4) = match read_b32(src, p3) {
        Some(x) => x,
        None => {
            proof {
                lemma_proposal_needs_room(src@, pos as int);
            }
            return None;
        },
    };
    let (state_root, p5) = match read_b32(src, p4) {
        Some(x) => x,
        None => {
            proof {
                lemma_proposal_needs_room(src@, pos as int);
            }
            return None;
        },
    };
    let (transactions, p6) = match read_len_bytes(src, p5) {
        Some(x) => x,
        None => {
            proof {
                assert forall|t: ProposalView, rest: Seq<u8>|
                    !(src@.skip(pos as int) == spec_encode_proposal(t) + rest && t.transactions.len()
                        <= u64::MAX) by {
                    if src@.skip(pos as int) == spec_encode_proposal(t) + rest
                        && t.transactions.len() <= u64::MAX {
                        lemma_proposal_layout(src@, pos as int, t, rest);
                    }
                }
            }
            return None;
        },
    };
    let (proposer, p7) = match read_b32(src, p6) {
        Some(x) => x,
        None => {
            proof {
                assert forall|t: ProposalView, rest: Seq<u8>|
                    !(src@.skip(pos as int) == spec_encode_proposal(t) + rest && t.transactions.len()
                        <= u64::MAX) by {
                    if src@.skip(pos as int) == spec_encode_proposal(t) + rest
                        && t.transactions.len() <= u64::MAX {
                        lemma_proposal_layout(src@, pos as int, t, rest);
                        assert(transactions@ == t.transactions && p6 == p5 + spec_encode_bytes(
                            t.transactions,
                        ).len());
                        assert(src@.skip(p6 as int).len() == src@.len() - p6);
                    }
                }
            }
            return None;
        },
    };
    let (signature, p8) = match read_b64(src, p7) {
        Some(x) => x,
        None => {
            proof {
                assert forall|t: ProposalView, rest: Seq<u8>|
                    !(src@.skip(pos as int) == spec_encode_proposal(t) + rest && t.transactions.len()
                        <= u64::MAX) by {
                    if src@.skip(pos as int) == spec_encode_proposal(t) + rest
                        && t.transactions.len() <= u64::MAX {
                        lemma_proposal_layout(src@, pos as int, t, rest);
                        assert(transactions@ == t.transactions && p6 == p5 + spec_encode_bytes(
                            t.transactions,
                        ).len());
                        assert(src@.skip(p7 as int).len() == src@.len() - p7);
                    }
                }
            }
            return None;
        },
    };
    let v = Proposal {
        height,
        round,
        prev_hash,
        block_hash,
        state_root,
        transactions,
        proposer: ValidatorId(proposer),
        signature: Signature64(signature),
    };
    proof {
        assert(src@.subrange(pos as int, p8 as int) =~= spec_encode_proposal(v@));
        assert forall|t: ProposalView, rest: Seq<u8>|
            src@.skip(pos as int) == spec_encode_proposal(t) + rest && t.transactions.len()
                <= u64::MAX implies v@ == t && p8 == pos + spec_encode_proposal(t).len() by {
            lemma_proposal_layout(src@, pos as int, t, rest);
            vstd::bytes::lemma_auto_spec_u64_to_from_le_bytes();
            assert(spec_u64_from_le_bytes(spec_u64_to_le_bytes(height)) == spec_u64_from_le_bytes(
                spec_u64_to_le_bytes(t.height),
            ));
            assert(spec_u64_from_le_bytes(spec_u64_to_le_bytes(round)) == spec_u64_from_le_bytes(
                spec_u64_to_le_bytes(t.round),
            ));
            crate::bytes::lemma_bytes32_ext(prev_hash, t.prev_hash);
            crate::bytes::lemma_bytes32_ext(block_hash, t.block_hash);
            crate::bytes::lemma_bytes32_ext(state_root, t.state_root);
            assert(transactions@ == t.transactions && p6 == p5 + spec_encode_bytes(
                t.transactions,
            ).len());
            lemma_prefix_subrange(t.proposer.0@, t.signature.0@ + rest, src@, p6 as int, 0, 32);
            assert(t.proposer.0@.subrange(0, 32) =~= t.proposer.0@);
            crate::bytes::lemma_bytes32_ext(proposer, t.proposer.0);
            lemma_prefix_subrange(t.signature.0@, rest, src@, p7 as int, 0, 64);
            assert(t.signature.0@.subrange(0, 64) =~= t.signature.0@);
            lemma_bytes64_ext(signature, t.signature.0);
        }
    }
    Some((v, p8))
}

proof fn lemma_proposal_needs_room(src: Seq<u8>, pos: int)
    requires
        0 <= pos <= src.len(),
        src.len() < pos + 112,
    ensures
        forall|t: ProposalView, rest: Seq<u8>| src.skip(pos) != spec_encode_proposal(t) + rest,
{
    assert forall|t: ProposalView, rest: Seq<u8>|
        src.skip(pos) != spec_encode_proposal(t) + rest by {
        vstd::bytes::lemma_auto_spec_u64_to_from_le_bytes();
        assert(spec_encode_proposal(t).len() >= 112);
        assert(src.skip(pos).len() == src.len() - pos);
    }
}

/// The one-byte encoding of a phase.
pub open spec fn spec_encode_phase(p: Phase) -> Seq<u8> {
    match p {
        Phase::Propose => seq![0u8],
        Phase::Prevote => seq![1u8],
        Phase::Commit => seq![2u8],
        Phase::Completed => seq![3u8],
    }
}

fn push_phase(out: &mut Vec<u8>, p: Phase)
    ensures
        final(out)@ == old(out)@ + spec_encode_phase(p),
{
    let tag: u8 = match p {
        Phase::Propose => 0,
        Phase::Prevote => 1,
        Phase::Commit => 2,
        Phase::Completed => 3,
    };
    out.push(tag);
    proof {
        assert(out@ =~= old(out)@ + spec_encode_phase(p));
    }
}

fn read_phase(src: &[u8], pos: usize) -> (r: Option<(Phase, usize)>)
    requires
        pos <= src@.len(),
    ensures
        r matches Some((v, end)) ==> pos <= end <= src@.len() && src@.subrange(pos as int, end as int)
            == spec_encode_phase(v),
        forall|t: Phase, rest: Seq<u8>|
            src@.skip(pos as int) == spec_encode_phase(t) + rest ==> (r matches Some((v, end)) && v
                == t && end == pos + 1),
{
    let (tag, p1) = match read_u8(src, pos) {
        Some(x) => x,
        None => {
            proof {
                assert forall|t: Phase, rest: Seq<u8>|
                    src@.skip(pos as int) != spec_encode_phase(t) + rest by {
                    assert((spec_encode_phase(t) + rest).len() >= 1);
                    assert(src@.skip(pos as int).len() == src@.len() - pos);
                }
            }
            return None;
        },
    };
    proof {
        assert forall|t: Phase, rest: Seq<u8>|
            src@.skip(pos as int) == spec_encode_phase(t) + rest implies src@[pos as int] == (
        match t {
            Phase::Propose => 0u8,
            Phase::Prevote => 1u8,
            Phase::Commit => 2u8,
            Phase::Completed => 3u8,
        }) by {
            assert(src@.skip(pos as int)[0] == src@[pos as int]);
            assert((spec_encode_phase(t) + rest)[0] == spec_encode_phase(t)[0]);
        }
    }
    let phase = if tag == 0 {
        Phase::Propose
    } else if tag == 1 {
        Phase::Prevote
    } else if tag == 2 {
        Phase::Commit
    } else if tag == 3 {
        Phase::Completed
    } else {
        return None;
    };
    proof {
        assert(src@.subrange(pos as int, p1 as int) =~= spec_encode_phase(phase));
    }
    Some((phase, p1))
}

/// The encoding of an optional proposal: a tag byte, then the proposal
/// when present.
pub open spec fn spec_encode_opt_proposal(o: Option<ProposalView>) -> Seq<u8> {
    match o {
        Some(p) => seq![1u8] + spec_encode_proposal(p),
        None => seq![0u8],
    }
}

fn push_opt_proposal(out: &mut Vec<u8>, o: &Option<Proposal>)
    ensures
        final(out)@ == old(out)@ + spec_encode_opt_proposal(opt_proposal_view(*o)),
{
    match o {
        Some(p) => {
            out.push(1u8);
            let mut e = encode_proposal(p);
            out.append(&mut e);
            proof {
                assert(out@ =~= old(out)@ + spec_encode_opt_proposal(opt_proposal_view(*o)));
            }
        },
        None => {
            out.push(0u8);
            proof {
                assert(out@ =~= old(out)@ + spec_encode_opt_proposal(opt_proposal_view(*o)));
            }
        },
    }
}

fn read_opt_proposal(src: &[u8], pos: usize) -> (r: Option<(Option<Proposal>, usize)>)
    requires
        pos <= src@.len(),
    ensures
        r matches Some((v, end)) ==> pos <= end <= src@.len() && src@.subrange(pos as int, end as int)
            == spec_encode_opt_proposal(opt_proposal_view(v)),
        forall|o: Option<ProposalView>, rest: Seq<u8>|
            src@.skip(pos as int) == spec_encode_opt_proposal(o) + rest && (o matches Some(p) ==> p.transactions.len()
                <= u64::MAX) ==> (r matches Some((v, end)) && opt_proposal_view(v) == o && end
                == pos + spec_encode_opt_proposal(o).len()),
{
    let (tag, p1) = match read_u8(src, pos) {
        Some(x) => x,
        None => {
            proof {
                assert forall|o: Option<ProposalView>, rest: Seq<u8>|
                    src@.skip(pos as int) != spec_encode_opt_proposal(o) + rest by {
                    vstd::bytes::lemma_auto_spec_u64_to_from_le_bytes();
                    assert((spec_encode_opt_proposal(o) + rest).len() >= 1);
                    assert(src@.skip(pos as int).len() == src@.len() - pos);
                }
            }
            return None;
        },
    };
    proof {
        assert forall|o: Option<ProposalView>, rest: Seq<u8>|
            src@.skip(pos as int) == spec_encode_opt_proposal(o) + rest implies src@[pos as int]
            == (match o {
            Some(_) => 1u8,
            None => 0u8,
        }) by {
            assert(src@.skip(pos as int)[0] == src@[pos as int]);
            assert((spec_encode_opt_proposal(o) + rest)[0] == spec_encode_opt_proposal(o)[0]);
        }
    }
    if tag == 0 {
        proof {
            assert(src@.subrange(pos as int, p1 as int) =~= spec_encode_opt_proposal(
                opt_proposal_view(None::<Proposal>),
            ));
        }
        return Some((None, p1));
    }
    if tag != 1 {
        return None;
    }
    let (p, p2) = match decode_proposal(src, p1) {
        Some(x) => x,
        None => {
            proof {
                assert forall|o: Option<ProposalView>, rest: Seq<u8>|
                    !(src@.skip(pos as int) == spec_encode_opt_proposal(o) + rest && (
                    o matches Some(pv) ==> pv.transactions.len() <= u64::MAX)) by {
                    if src@.skip(pos as int) == spec_encode_opt_proposal(o) + rest && (
                    o matches Some(pv) ==> pv.transactions.len() <= u64::MAX) {
                        let pv = o->Some_0;
                        assert(src@.skip(pos as int) =~= seq![1u8] + (spec_encode_proposal(pv)
                            + rest));
                        lemma_skip_concat(src@, pos as int, seq![1u8], spec_encode_proposal(pv)
                            + rest);
                    }
                }
            }
            return None;
        },
    };
    proof {
        assert(src@.subrange(pos as int, p2 as int) =~= spec_encode_opt_proposal(
            opt_proposal_view(Some(p)),
        ));
        assert forall|o: Option<ProposalView>, rest: Seq<u8>|
            src@.skip(pos as int) == spec_encode_opt_proposal(o) + rest && (o matches Some(pv)
                ==> pv.transactions.len() <= u64::MAX) implies opt_proposal_view(Some(p)) == o && p2
            == pos + spec_encode_opt_proposal(o).len() by {
            let pv = o->Some_0;
            assert(src@.skip(pos as int) =~= seq![1u8] + (spec_encode_proposal(pv) + rest));
            lemma_skip_concat(src@, pos as int, seq![1u8], spec_encode_proposal(pv) + rest);
            assert(p@ == pv && p2 == p1 + spec_encode_proposal(pv).len());
        }
    }
    Some((Some(p), p2))
}

/// The canonical encoding of a round state.
pub open spec fn spec_encode_round_state(rs: RoundStateView) -> Seq<u8> {
    spec_u64_to_le_bytes(rs.height) + spec_u64_to_le_bytes(rs.round) + spec_encode_phase(rs.phase)
        + spec_encode_opt_proposal(rs.proposal) + spec_encode_prevotes(rs.prevotes)
        + spec_encode_commits_list(rs.commits) + spec_encode_bool(rs.prevoted) + spec_encode_bool(
        rs.committed,
    ) + spec_encode_opt_hash(rs.locked_block) + spec_encode_opt_u64(rs.locked_round)
}

/// Whether a round state view is within the codec's length bounds.
pub open spec fn round_state_len_ok(rs: RoundStateView) -> bool {
    &&& rs.prevotes.len() <= u64::MAX
    &&& rs.commits.len() <= u64::MAX
    &&& (rs.proposal matches Some(p) ==> p.transactions.len() <= u64::MAX)
}

/// Encode a round state.
pub fn encode_round_state(rs: &RoundState) -> (r: Vec<u8>)
    ensures
        r@ == spec_encode_round_state(rs@),
{
    let mut out: Vec<u8> = Vec::new();
    push_u64_le(&mut out, rs.height);
    push_u64_le(&mut out, rs.round);
    push_phase(&mut out, rs.phase);
    push_opt_proposal(&mut out, &rs.proposal);
    let mut pv = encode_prevotes(&rs.prevotes.votes);
    out.append(&mut pv);
    let mut cm = encode_commits_list(&rs.commits.commits);
    out.append(&mut cm);
    push_bool(&mut out, rs.prevoted);
    push_bool(&mut out, rs.committed);
    push_opt_hash(&mut out, &rs.locked_block);
    push_opt_u64(&mut out, &rs.locked_round);
    out
}

/// Decode a round state at `pos`.
#[verifier::rlimit(80)]
#[verifier::spinoff_prover]
pub fn decode_round_state(src: &[u8], pos: usize) -> (r: Option<(RoundState, usize)>)
    requires
        pos <= src@.len(),
    ensures
        r matches Some((v, end)) ==> pos <= end <= src@.len() && src@.subrange(
            pos as int,
            end as int,
        ) == spec_encode_round_state(v@),
        forall|t: RoundStateView, rest: Seq<u8>|
            src@.skip(pos as int) == spec_encode_round_state(t) + rest && round_state_len_ok(t)
                ==> (r matches Some((v, end)) && v@ == t && end == pos + spec_encode_round_state(
                t,
            ).len()),
{
    let (height, p1) = match read_u64(src, pos) {
        Some(x) => x,
        None => {
            proof {
                lemma_round_state_needs_room(src@, pos as int);
            }
            return None;
        },
    };
    let (round, p2) = match read_u64(src, p1) {
        Some(x) => x,
        None => {
            proof {
                lemma_round_state_needs_room(src@, pos as int);
            }
            return None;
        },
    };
    let (phase, p3) = match read_phase(src, p2) {
        Some(x) => x,
        None => {
            proof {
                assert forall|t: RoundStateView, rest: Seq<u8>|
                    !(src@.skip(pos as int) == spec_encode_round_state(t) + rest
                        && round_state_len_ok(t)) by {
                    if src@.skip(pos as int) == spec_encode_round_state(t) + rest
                        && round_state_len_ok(t) {
                        lemma_round_state_layout(src@, pos as int, t, rest);
                    }
                }
            }
            return None;
        },
    };
    let (proposal, p4) = match read_opt_proposal(src, p3) {
        Some(x) => x,
        None => {
            proof {
                assert forall|t: RoundStateView, rest: Seq<u8>|
                    !(src@.skip(pos as int) == spec_encode_round_state(t) + rest
                        && round_state_len_ok(t)) by {
                    if src@.skip(pos as int) == spec_encode_round_state(t) + rest
                        && round_state_len_ok(t) {
                        lemma_round_state_layout(src@, pos as int, t, rest);
                    }
                }
            }
            return None;
        },
    };
    let (prevotes, p5) = match decode_prevotes(src, p4) {
        Some(x) => x,
        None => {
            proof {
                assert forall|t: RoundStateView, rest: Seq<u8>|
                    !(src@.skip(pos as int) == spec_encode_round_state(t) + rest
                        && round_state_len_ok(t)) by {
                    if src@.skip(pos as int) == spec_encode_round_state(t) + rest
                        && round_state_len_ok(t) {
                        lemma_round_state_layout(src@, pos as int, t, rest);
                        assert(opt_proposal_view(proposal) == t.proposal && p4 == p3
                            + spec_encode_opt_proposal(t.proposal).len());
                    }
                }
            }
            return None;
        },
    };
    let (commits, p6) = match decode_commits_list(src, p5) {
        Some(x) => x,
        None => {
            proof {
                assert forall|t: RoundStateView, rest: Seq<u8>|
                    !(src@.skip(pos as int) == spec_encode_round_state(t) + rest
                        && round_state_len_ok(t)) by {
                    if src@.skip(pos as int) == spec_encode_round_state(t) + rest
                        && round_state_len_ok(t) {
                        lemma_round_state_layout(src@, pos as int, t, rest);
                        assert(opt_proposal_view(proposal) == t.proposal && p4 == p3
                            + spec_encode_opt_proposal(t.proposal).len());
                        assert(prevotes@ == t.prevotes && p5 == p4 + spec_encode_prevotes(
                            t.prevotes,
                        ).len());
                    }
                }
            }
            return None;
        },
    };
    let (prevoted, p7) = match read_bool(src, p6) {
        Some(x) => x,
        None => {
            proof {
                assert forall|t: RoundStateView, rest: Seq<u8>|
                    !(src@.skip(pos as int) == spec_encode_round_state(t) + rest
                        && round_state_len_ok(t)) by {
                    if src@.skip(pos as int) == spec_encode_round_state(t) + rest
                        && round_state_len_ok(t) {
                        lemma_round_state_layout(src@, pos as int, t, rest);
                        assert(opt_proposal_view(proposal) == t.proposal && p4 == p3
                            + spec_encode_opt_proposal(t.proposal).len());
                        assert(prevotes@ == t.prevotes && p5 == p4 + spec_encode_prevotes(
                            t.prevotes,
                        ).len());
                        assert(commits@ == t.commits && p6 == p5 + spec_encode_commits_list(
                            t.commits,
                        ).len());
                    }
                }
            }
            return None;
        },
    };
    let (committed, p8) = match read_bool(src, p7) {
        Some(x) => x,
        None => {
            proof {
                assert forall|t: RoundStateView, rest: Seq<u8>|
                    !(src@.skip(pos as int) == spec_encode_round_state(t) + rest
                        && round_state_len_ok(t)) by {
                    if src@.skip(pos as int) == spec_encode_round_state(t) + rest
                        && round_state_len_ok(t) {
                        lemma_round_state_layout(src@, pos as int, t, rest);
                        assert(opt_proposal_view(proposal) == t.proposal && p4 == p3
                            + spec_encode_opt_proposal(t.proposal).len());
                        assert(prevotes@ == t.prevotes && p5 == p4 + spec_encode_prevotes(
                            t.prevotes,
                        ).len());
                        assert(commits@ == t.commits && p6 == p5 + spec_encode_commits_list(
                            t.commits,
                        ).len());
                        assert(prevoted == t.prevoted && p7 == p6 + 1);
                    }
                }
            }
            return None;
        },
    };
    let (locked_block, p9) = match read_opt_hash(src, p8) {
        Some(x) => x,
        None => {
            proof {
                assert forall|t: RoundStateView, rest: Seq<u8>|
                    !(src@.skip(pos as int) == spec_encode_round_state(t) + rest
                        && round_state_len_ok(t)) by {
                    if src@.skip(pos as int) == spec_encode_round_state(t) + rest
                        && round_state_len_ok(t) {
                        lemma_round_state_layout(src@, pos as int, t, rest);
                        assert(opt_proposal_view(proposal) == t.proposal && p4 == p3
                            + spec_encode_opt_proposal(t.proposal).len());
                        assert(prevotes@ == t.prevotes && p5 == p4 + spec_encode_prevotes(
                            t.prevotes,
                        ).len());
                        assert(commits@ == t.commits && p6 == p5 + spec_encode_commits_list(
                            t.commits,
                        ).len());
                        assert(prevoted == t.prevoted && p7 == p6 + 1);
                        assert(committed == t.committed && p8 == p7 + 1);
                    }
                }
            }
            return None;
        },
    };
    let (locked_round, p10) = match read_opt_u64(src, p9) {
        Some(x) => x,
        None => {
            proof {
                assert forall|t: RoundStateView, rest: Seq<u8>|
                    !(src@.skip(pos as int) == spec_encode_round_state(t) + rest
                        && round_state_len_ok(t)) by {
                    if src@.skip(pos as int) == spec_encode_round_state(t) + rest
                        && round_state_len_ok(t) {
                        lemma_round_state_layout(src@, pos as int, t, rest);
                        assert(opt_proposal_view(proposal) == t.proposal && p4 == p3
                            + spec_encode_opt_proposal(t.proposal).len());
                        assert(prevotes@ == t.prevotes && p5 == p4 + spec_encode_prevotes(
                            t.prevotes,
                        ).len());
                        assert(commits@ == t.commits && p6 == p5 + spec_encode_commits_list(
                            t.commits,
                        ).len());
                        assert(prevoted == t.prevoted && p7 == p6 + 1);
                        assert(committed == t.committed && p8 == p7 + 1);
                        assert(locked_block == t.locked_block && p9 == p8 + spec_encode_opt_hash(
                            t.locked_block,
                        ).len());
                    }
                }
            }
            return None;
        },
    };
    let rs = RoundState {
        height,
        round,
        phase,
        proposal,
        prevotes: PrevoteSet { votes: prevotes },
        commits: CommitSet { commits },
        prevoted,
        committed,
        locked_block,
        locked_round,
    };
    proof {
        lemma_subrange_join(src@, pos as int, p1 as int, p2 as int);
        lemma_subrange_join(src@, pos as int, p2 as int, p3 as int);
        lemma_subrange_join(src@, pos as int, p3 as int, p4 as int);
        lemma_subrange_join(src@, pos as int, p4 as int, p5 as int);
        lemma_subrange_join(src@, pos as int, p5 as int, p6 as int);
        lemma_subrange_join(src@, pos as int, p6 as int, p7 as int);
        lemma_subrange_join(src@, pos as int, p7 as int, p8 as int);
        lemma_subrange_join(src@, pos as int, p8 as int, p9 as int);
        lemma_subrange_join(src@, pos as int, p9 as int, p10 as int);
        assert(src@.subrange(pos as int, p10 as int) == spec_encode_round_state(rs@));
        assert forall|t: RoundStateView, rest: Seq<u8>|
            src@.skip(pos as int) == spec_encode_round_state(t) + rest && round_state_len_ok(
                t,
            ) implies rs@ == t && p10 == pos + spec_encode_round_state(t).len() by {
            lemma_round_state_layout(src@, pos as int, t, rest);
            vstd::bytes::lemma_auto_spec_u64_to_from_le_bytes();
            assert(spec_u64_from_le_bytes(spec_u64_to_le_bytes(height)) == spec_u64_from_le_bytes(
                spec_u64_to_le_bytes(t.height),
            ));
            assert(spec_u64_from_le_bytes(spec_u64_to_le_bytes(round)) == spec_u64_from_le_bytes(
                spec_u64_to_le_bytes(t.round),
            ));
            assert(phase == t.phase && p3 == p2 + 1);
            assert(opt_proposal_view(proposal) == t.proposal && p4 == p3 + spec_encode_opt_proposal(
                t.proposal,
            ).len());
            assert(prevotes@ == t.prevotes && p5 == p4 + spec_encode_prevotes(t.prevotes).len());
            assert(commits@ == t.commits && p6 == p5 + spec_encode_commits_list(t.commits).len());
            assert(prevoted == t.prevoted && p7 == p6 + 1);
            assert(committed == t.committed && p8 == p7 + 1);
            assert(locked_block == t.locked_block && p9 == p8 + spec_encode_opt_hash(
                t.locked_block,
            ).len());
            assert(locked_round == t.locked_round && p10 == p9 + spec_encode_opt_u64(
                t.locked_round,
            ).len());
        }
    }
    Some((rs, p10))
}

/// Rotate one concatenation: a tail `(a + b) + c` is also `a + (b + c)`.
proof fn lemma_assoc_skip(whole: Seq<u8>, pos: int, a: Seq<u8>, b: Seq<u8>, c: Seq<u8>)
    requires
        0 <= pos <= whole.len(),
        whole.skip(pos) == (a + b) + c,
    ensures
        whole.skip(pos) == a + (b + c),
{
    assert((a + b) + c =~= a + (b + c));
}

proof fn lemma_round_state_needs_room(src: Seq<u8>, pos: int)
    requires
        0 <= pos <= src.len(),
        src.len() < pos + 16,
    ensures
        forall|t: RoundStateView, rest: Seq<u8>| src.skip(pos) != spec_encode_round_state(t) + rest,
{
    assert forall|t: RoundStateView, rest: Seq<u8>|
        src.skip(pos) != spec_encode_round_state(t) + rest by {
        vstd::bytes::lemma_auto_spec_u64_to_from_le_bytes();
        assert(spec_encode_round_state(t).len() >= 16);
        assert(src.skip(pos).len() == src.len() - pos);
    }
}

#[verifier::rlimit(60)]
#[verifier::spinoff_prover]
proof fn lemma_round_state_layout(src: Seq<u8>, pos: int, t: RoundStateView, rest: Seq<u8>)
    requires
        0 <= pos <= src.len(),
        src.skip(pos) == spec_encode_round_state(t) + rest,
    ensures
        src.subrange(pos, pos + 8) == spec_u64_to_le_bytes(t.height),
        src.subrange(pos + 8, pos + 16) == spec_u64_to_le_bytes(t.round),
        src.skip(pos + 16) == spec_encode_phase(t.phase) + (spec_encode_opt_proposal(t.proposal) + (
        spec_encode_prevotes(t.prevotes) + (spec_encode_commits_list(t.commits) + (
        spec_encode_bool(t.prevoted) + (spec_encode_bool(t.committed) + (spec_encode_opt_hash(
            t.locked_block,
        ) + (spec_encode_opt_u64(t.locked_round) + rest))))))),
        src.skip(pos + 17) == spec_encode_opt_proposal(t.proposal) + (spec_encode_prevotes(
            t.prevotes,
        ) + (spec_encode_commits_list(t.commits) + (spec_encode_bool(t.prevoted) + (
        spec_encode_bool(t.committed) + (spec_encode_opt_hash(t.locked_block) + (
        spec_encode_opt_u64(t.locked_round) + rest)))))),
        src.skip(pos + 17 + spec_encode_opt_proposal(t.proposal).len()) == spec_encode_prevotes(
            t.prevotes,
        ) + (spec_encode_commits_list(t.commits) + (spec_encode_bool(t.prevoted) + (
        spec_encode_bool(t.committed) + (spec_encode_opt_hash(t.locked_block) + (
        spec_encode_opt_u64(t.locked_round) + rest))))),
        src.skip(
            pos + 17 + spec_encode_opt_proposal(t.proposal).len() + spec_encode_prevotes(
                t.prevotes,
            ).len(),
        ) == spec_encode_commits_list(t.commits) + (spec_encode_bool(t.prevoted) + (
        spec_encode_bool(t.committed) + (spec_encode_opt_hash(t.locked_block) + (
        spec_encode_opt_u64(t.locked_round) + rest)))),
        src.skip(
            pos + 17 + spec_encode_opt_proposal(t.proposal).len() + spec_encode_prevotes(
                t.prevotes,
            ).len() + spec_encode_commits_list(t.commits).len(),
        ) == spec_encode_bool(t.prevoted) + (spec_encode_bool(t.committed) + (
        spec_encode_opt_hash(t.locked_block) + (spec_encode_opt_u64(t.locked_round) + rest))),
        src.skip(
            pos + 18 + spec_encode_opt_proposal(t.proposal).len() + spec_encode_prevotes(
                t.prevotes,
            ).len() + spec_encode_commits_list(t.commits).len(),
        ) == spec_encode_bool(t.committed) + (spec_encode_opt_hash(t.locked_block) + (
        spec_encode_opt_u64(t.locked_round) + rest)),
        src.skip(
            pos + 19 + spec_encode_opt_proposal(t.proposal).len() + spec_encode_prevotes(
                t.prevotes,
            ).len() + spec_encode_commits_list(t.commits).len(),
        ) == spec_encode_opt_hash(t.locked_block) + (spec_encode_opt_u64(t.locked_round) + rest),
        src.skip(
            pos + 19 + spec_encode_opt_proposal(t.proposal).len() + spec_encode_prevotes(
                t.prevotes,
            ).len() + spec_encode_commits_list(t.commits).len() + spec_encode_opt_hash(
                t.locked_block,
            ).len(),
        ) == spec_encode_opt_u64(t.locked_round) + rest,
        pos + 16 <= src.len(),
{
    vstd::bytes::lemma_auto_spec_u64_to_from_le_bytes();
    let eh = spec_u64_to_le_bytes(t.height);
    let er = spec_u64_to_le_bytes(t.round);
    let eph = spec_encode_phase(t.phase);
    let epr = spec_encode_opt_proposal(t.proposal);
    let evs = spec_encode_prevotes(t.prevotes);
    let ecs = spec_encode_commits_list(t.commits);
    let eb1 = spec_encode_bool(t.prevoted);
    let eb2 = spec_encode_bool(t.committed);
    let elb = spec_encode_opt_hash(t.locked_block);
    let elr = spec_encode_opt_u64(t.locked_round);
    assert(spec_encode_round_state(t) == eh + er + eph + epr + evs + ecs + eb1 + eb2 + elb + elr);
    lemma_assoc_skip(src, pos, eh + er + eph + epr + evs + ecs + eb1 + eb2 + elb, elr, rest);
    lemma_assoc_skip(src, pos, eh + er + eph + epr + evs + ecs + eb1 + eb2, elb, elr + rest);
    lemma_assoc_skip(src, pos, eh + er + eph + epr + evs + ecs + eb1, eb2, elb + (elr + rest));
    lemma_assoc_skip(src, pos, eh + er + eph + epr + evs + ecs, eb1, eb2 + (elb + (elr + rest)));
    lemma_assoc_skip(src, pos, eh + er + eph + epr + evs, ecs, eb1 + (eb2 + (elb + (elr + rest))));
    lemma_assoc_skip(
        src,
        pos,
        eh + er + eph + epr,
        evs,
        ecs + (eb1 + (eb2 + (elb + (elr + rest)))),
    );
    lemma_assoc_skip(
        src,
        pos,
        eh + er + eph,
        epr,
        evs + (ecs + (eb1 + (eb2 + (elb + (elr + rest))))),
    );
    lemma_assoc_skip(
        src,
        pos,
        eh + er,
        eph,
        epr + (evs + (ecs + (eb1 + (eb2 + (elb + (elr + rest)))))),
    );
    lemma_assoc_skip(
        src,
        pos,
        eh,
        er,
        eph + (epr + (evs + (ecs + (eb1 + (eb2 + (elb + (elr + rest))))))),
    );
    let r2 = eph + (epr + (evs + (ecs + (eb1 + (eb2 + (elb + (elr + rest)))))));
    lemma_prefix_subrange(eh, er + r2, src, pos, 0, 8);
    assert(eh.subrange(0, 8) =~= eh);
    lemma_skip_concat(src, pos, eh, er + r2);
    lemma_prefix_subrange(er, r2, src, pos + 8, 0, 8);
    assert(er.subrange(0, 8) =~= er);
    lemma_skip_concat(src, pos + 8, er, r2);
    assert(eph.len() == 1);
    lemma_skip_concat(src, pos + 16, eph, epr + (evs + (ecs + (eb1 + (eb2 + (elb + (elr
        + rest)))))));
    lemma_skip_concat(src, pos + 17, epr, evs + (ecs + (eb1 + (eb2 + (elb + (elr + rest))))));
    lemma_skip_concat(src, pos + 17 + epr.len(), evs, ecs + (eb1 + (eb2 + (elb + (elr + rest)))));
    lemma_skip_concat(src, pos + 17 + epr.len() + evs.len(), ecs, eb1 + (eb2 + (elb + (elr
        + rest))));
    assert(eb1.len() == 1);
    lemma_skip_concat(src, pos + 17 + epr.len() + evs.len() + ecs.len(), eb1, eb2 + (elb + (elr
        + rest)));
    assert(eb2.len() == 1);
    lemma_skip_concat(src, pos + 18 + epr.len() + evs.len() + ecs.len(), eb2, elb + (elr + rest));
    lemma_skip_concat(src, pos + 19 + epr.len() + evs.len() + ecs.len(), elb, elr + rest);
}

/// The canonical encoding of a finality certificate.
pub open spec fn spec_encode_certificate(c: FinalityCertificateView) -> Seq<u8> {
    spec_u64_to_le_bytes(c.height) + c.block_hash@ + spec_encode_commits_list(c.commits)
        + spec_u64_to_le_bytes(c.total_weight)
}

/// Encode a finality certificate.
pub fn encode_certificate(c: &FinalityCertificate) -> (r: Vec<u8>)
    ensures
        r@ == spec_encode_certificate(c@),
{
    let mut out: Vec<u8> = Vec::new();
    push_u64_le(&mut out, c.height);
    crate::bytes::push_bytes32(&mut out, &c.block_hash);
    let mut cm = encode_commits_list(&c.commits);
    out.append(&mut cm);
    push_u64_le(&mut out, c.total_weight);
    out
}

proof fn lemma_certificate_layout(src: Seq<u8>, pos: int, t: FinalityCertificateView, rest: Seq<u8>)
    requires
        0 <= pos <= src.len(),
        src.skip(pos) == spec_encode_certificate(t) + rest,
    ensures
        src.subrange(pos, pos + 8) == spec_u64_to_le_bytes(t.height),
        src.subrange(pos + 8, pos + 40) == t.block_hash@,
        src.skip(pos + 40) == spec_encode_commits_list(t.commits) + (spec_u64_to_le_bytes(
            t.total_weight,
        ) + rest),
        src.skip(pos + 40 + spec_encode_commits_list(t.commits).len()) == spec_u64_to_le_bytes(
            t.total_weight,
        ) + rest,
        pos + 40 <= src.len(),
{
    vstd::bytes::lemma_auto_spec_u64_to_from_le_bytes();
    let eh = spec_u64_to_le_bytes(t.height);
    let ec = spec_encode_commits_list(t.commits);
    let ew = spec_u64_to_le_bytes(t.total_weight);
    let r1 = t.block_hash@ + (ec + (ew + rest));
    let r2 = ec + (ew + rest);
    let r3 = ew + rest;
    assert(src.skip(pos) =~= eh + r1);
    lemma_prefix_subrange(eh, r1, src, pos, 0, 8);
    assert(eh.subrange(0, 8) =~= eh);
    lemma_skip_concat(src, pos, eh, r1);
    lemma_prefix_subrange(t.block_hash@, r2, src, pos + 8, 0, 32);
    assert(t.block_hash@.subrange(0, 32) =~= t.block_hash@);
    lemma_skip_concat(src, pos + 8, t.block_hash@, r2);
    lemma_skip_concat(src, pos + 40, ec, r3);
}

/// Decode a finality certificate at `pos`.
pub fn decode_certificate(src: &[u8], pos: usize) -> (r: Option<(FinalityCertificate, usize)>)
    requires
        pos <= src@.len(),
    ensures
        r matches Some((v, end)) ==> pos <= end <= src@.len() && src@.subrange(
            pos as int,
            end as int,
        ) == spec_encode_certificate(v@),
        forall|t: FinalityCertificateView, rest: Seq<u8>|
            src@.skip(pos as int) == spec_encode_certificate(t) + rest && t.commits.len()
                <= u64::MAX ==> (r matches Some((v, end)) && v@ == t && end == pos
                + spec_encode_certificate(t).len()),
{
    let (height, p1) = match read_u64(src, pos) {
        Some(x) => x,
        None => {
            proof {
                lemma_certificate_needs_room(src@, pos as int);
            }
            return None;
        },
    };
    let (block_hash, p2) = match read_b32(src, p1) {
        Some(x) => x,
        None => {
            proof {
                lemma_certificate_needs_room(src@, pos as int);
            }
            return None;
        },
    };
    let (commits, p3) = match decode_commits_list(src, p2) {
        Some(x) => x,
        None => {
            proof {
                assert forall|t: FinalityCertificateView, rest: Seq<u8>|
                    !(src@.skip(pos as int) == spec_encode_certificate(t) + rest && t.commits.len()
                        <= u64::MAX) by {
                    if src@.skip(pos as int) == spec_encode_certificate(t) + rest && t.commits.len()
                        <= u64::MAX {
                        lemma_certificate_layout(src@, pos as int, t, rest);
                    }
                }
            }
            return None;
        },
    };
    let (total_weight, p4) = match read_u64(src, p3) {
        Some(x) => x,
        None => {
            proof {
                assert forall|t: FinalityCertificateView, rest: Seq<u8>|
                    !(src@.skip(pos as int) == spec_encode_certificate(t) + rest && t.commits.len()
                        <= u64::MAX) by {
                    if src@.skip(pos as int) == spec_encode_certificate(t) + rest && t.commits.len()
                        <= u64::MAX {
                        lemma_certificate_layout(src@, pos as int, t, rest);
                        assert(commits@ == t.commits && p3 == p2 + spec_encode_commits_list(
                            t.commits,
                        ).len());
                        assert(src@.skip(p3 as int).len() == src@.len() - p3);
                        vstd::bytes::lemma_auto_spec_u64_to_from_le_bytes();
                    }
                }
            }
            return None;
        },
    };
    let c = FinalityCertificate { height, block_hash, commits, total_weight };
    proof {
        assert(src@.subrange(pos as int, p4 as int) =~= spec_encode_certificate(c@));
        assert forall|t: FinalityCertificateView, rest: Seq<u8>|
            src@.skip(pos as int) == spec_encode_certificate(t) + rest && t.commits.len()
                <= u64::MAX implies c@ == t && p4 == pos + spec_encode_certificate(t).len() by {
            lemma_certificate_layout(src@, pos as int, t, rest);
            vstd::bytes::lemma_auto_spec_u64_to_from_le_bytes();
            assert(spec_u64_from_le_bytes(spec_u64_to_le_bytes(height)) == spec_u64_from_le_bytes(
                spec_u64_to_le_bytes(t.height),
            ));
            crate::bytes::lemma_bytes32_ext(block_hash, t.block_hash);
            assert(commits@ == t.commits && p3 == p2 + spec_encode_commits_list(t.commits).len());
            lemma_prefix_subrange(
                spec_u64_to_le_bytes(t.total_weight),
                rest,
                src@,
                p3 as int,
                0,
                8,
            );
            assert(spec_u64_to_le_bytes(t.total_weight).subrange(0, 8) =~= spec_u64_to_le_bytes(
                t.total_weight,
            ));
            assert(spec_u64_from_le_bytes(spec_u64_to_le_bytes(total_weight))
                == spec_u64_from_le_bytes(spec_u64_to_le_bytes(t.total_weight)));
        }
    }
    Some((c, p4))
}

proof fn lemma_certificate_needs_room(src: Seq<u8>, pos: int)
    requires
        0 <= pos <= src.len(),
        src.len() < pos + 40,
    ensures
        forall|t: FinalityCertificateView, rest: Seq<u8>|
            src.skip(pos) != spec_encode_certificate(t) + rest,
{
    assert forall|t: FinalityCertificateView, rest: Seq<u8>|
        src.skip(pos) != spec_encode_certificate(t) + rest by {
        vstd::bytes::lemma_auto_spec_u64_to_from_le_bytes();
        assert(spec_encode_certificate(t).len() >= 40);
        assert(src.skip(pos).len() == src.len() - pos);
    }
}

} // verus!
