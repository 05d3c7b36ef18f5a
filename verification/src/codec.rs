//! Serialization of posts and vote ledgers to bounded byte records.
//!
//! Every stored record is at most [`MAX_VALUE_SIZE`] bytes; an oversized
//! record is a reported encoding failure, never a silent truncation.

use vstd::prelude::*;
use vstd::utf8::{decode_utf8, encode_utf8, valid_utf8};

use crate::types::{Post, PostModel, Vote, MAX_VOTER_ID_LEN};

verus! {

broadcast use vstd::utf8::group_utf8_lib;

/// Hard upper bound on the serialized size of one stored record, in bytes.
pub const MAX_VALUE_SIZE: usize = 100;

/// The four little-endian bytes of a 32-bit word.
pub open spec fn le4(x: u32) -> Seq<u8> {
    seq![
        (x & 0xff) as u8,
        ((x >> 8) & 0xff) as u8,
        ((x >> 16) & 0xff) as u8,
        ((x >> 24) & 0xff) as u8,
    ]
}

/// The 32-bit word read from four little-endian bytes.
pub open spec fn from_le4(b: Seq<u8>) -> u32
    recommends
        b.len() == 4,
{
    (b[0] as u32) | ((b[1] as u32) << 8) | ((b[2] as u32) << 16) | ((b[3] as u32) << 24)
}

pub proof fn lemma_le4_roundtrip(x: u32)
    ensures
        le4(x).len() == 4,
        from_le4(le4(x)) == x,
{
    let b0 = (x & 0xff) as u8;
    let b1 = ((x >> 8) & 0xff) as u8;
    let b2 = ((x >> 16) & 0xff) as u8;
    let b3 = ((x >> 24) & 0xff) as u8;
    assert(((b0 as u32) | ((b1 as u32) << 8) | ((b2 as u32) << 16) | ((b3 as u32) << 24)) == x)
        by (bit_vector)
        requires
            b0 == (x & 0xff) as u8,
            b1 == ((x >> 8) & 0xff) as u8,
            b2 == ((x >> 16) & 0xff) as u8,
            b3 == ((x >> 24) & 0xff) as u8,
    ;
}

/// A score, shifted into an unsigned 32-bit word for storage.
pub open spec fn votes_word(v: i32) -> u32 {
    (v + 0x8000_0000) as u32
}

/// The score read back from its stored word.
pub open spec fn word_votes(w: u32) -> i32 {
    (w - 0x8000_0000) as i32
}

pub proof fn lemma_votes_word_roundtrip(v: i32)
    ensures
        word_votes(votes_word(v)) == v,
{
}

// ---------------------------------------------------------------------------
// Post records: id word, score word, then the content as UTF-8.
// ---------------------------------------------------------------------------

/// The serialized form of a post.
pub open spec fn post_bytes(p: PostModel) -> Seq<u8> {
    le4(p.id) + le4(votes_word(p.votes)) + encode_utf8(p.content)
}

/// True when a post's record fits within the per-record size bound.
pub open spec fn post_encodable(p: PostModel) -> bool {
    post_bytes(p).len() <= MAX_VALUE_SIZE
}

/// The post a record deserializes to, if it is well formed.
pub open spec fn parse_post(b: Seq<u8>) -> Option<PostModel> {
    if b.len() < 8 {
        None
    } else {
        let tail = b.subrange(8, b.len() as int);
        if valid_utf8(tail) {
            Some(
                PostModel {
                    id: from_le4(b.subrange(0, 4)),
                    votes: word_votes(from_le4(b.subrange(4, 8))),
                    content: decode_utf8(tail),
                },
            )
        } else {
            None
        }
    }
}

/// Deserializing a serialized post gives the post back, whatever its size.
pub proof fn lemma_post_roundtrip(p: PostModel)
    ensures
        parse_post(post_bytes(p)) == Some(p),
{
    let b = post_bytes(p);
    lemma_le4_roundtrip(p.id);
    lemma_le4_roundtrip(votes_word(p.votes));
    assert(b.subrange(0, 4) =~= le4(p.id));
    assert(b.subrange(4, 8) =~= le4(votes_word(p.votes)));
    assert(b.subrange(8, b.len() as int) =~= encode_utf8(p.content));
    lemma_votes_word_roundtrip(p.votes);
}

/// A record that deserializes at all is exactly the serialization of its post.
pub proof fn lemma_parse_post_canonical(b: Seq<u8>, p: PostModel)
    requires
        parse_post(b) == Some(p),
    ensures
        post_bytes(p) == b,
{
    let tail = b.subrange(8, b.len() as int);
    lemma_le4_roundtrip(p.id);
    lemma_le4_roundtrip(votes_word(p.votes));
    assert(encode_utf8(p.content) == tail);
    assert(le4(from_le4(b.subrange(0, 4))) =~= b.subrange(0, 4)) by {
        lemma_from_le4_canonical(b.subrange(0, 4));
    }
    assert(le4(votes_word(p.votes)) =~= b.subrange(4, 8)) by {
        assert(votes_word(word_votes(from_le4(b.subrange(4, 8)))) == from_le4(
            b.subrange(4, 8),
        ));
        lemma_from_le4_canonical(b.subrange(4, 8));
    }
    assert(post_bytes(p) =~= b);
}

proof fn lemma_from_le4_canonical(b: Seq<u8>)
    requires
        b.len() == 4,
    ensures
        le4(from_le4(b)) == b,
{
    let x = from_le4(b);
    let b0 = b[0];
    let b1 = b[1];
    let b2 = b[2];
    let b3 = b[3];
    assert((x & 0xff) as u8 == b0 && ((x >> 8) & 0xff) as u8 == b1 && ((x >> 16) & 0xff) as u8
        == b2 && ((x >> 24) & 0xff) as u8 == b3)
        by (bit_vector)
        requires
            x == ((b0 as u32) | ((b1 as u32) << 8) | ((b2 as u32) << 16) | ((b3 as u32) << 24)),
    ;
    assert(le4(x) =~= b);
}

// ---------------------------------------------------------------------------
// Ledger records: a sequence of (length, voter bytes, direction) frames.
// ---------------------------------------------------------------------------

/// The storage byte for a vote direction.
pub open spec fn dir_byte(v: Vote) -> u8 {
    match v {
        Vote::Up => 1,
        Vote::Down => 2,
    }
}

/// The serialized frame of one (voter, direction) pair.
pub open spec fn pair_bytes(voter: Seq<u8>, v: Vote) -> Seq<u8> {
    seq![voter.len() as u8] + voter + seq![dir_byte(v)]
}

/// The serialized form of a whole ledger entry.
pub open spec fn ledger_bytes(l: Seq<(Seq<u8>, Vote)>) -> Seq<u8>
    decreases l.len(),
{
    if l.len() == 0 {
        Seq::empty()
    } else {
        pair_bytes(l[0].0, l[0].1) + ledger_bytes(l.drop_first())
    }
}

/// True when every recorded identity is within the representable length.
pub open spec fn ledger_pairs_wf(l: Seq<(Seq<u8>, Vote)>) -> bool {
    forall|i: int| 0 <= i < l.len() ==> (#[trigger] l[i].0).len() <= MAX_VOTER_ID_LEN
}

/// The pair sequence a ledger record deserializes to, if it is well formed.
pub open spec fn parse_ledger(b: Seq<u8>) -> Option<Seq<(Seq<u8>, Vote)>>
    decreases b.len(),
{
    if b.len() == 0 {
        Some(Seq::empty())
    } else {
        let n = b[0] as int;
        if b.len() < 2 + n || n > MAX_VOTER_ID_LEN {
            None
        } else if b[1 + n] != 1 && b[1 + n] != 2 {
            None
        } else {
            let voter = b.subrange(1, 1 + n);
            let v = if b[1 + n] == 1 {
                Vote::Up
            } else {
                Vote::Down
            };
            match parse_ledger(b.subrange(2 + n, b.len() as int)) {
                Some(rest) => Some(seq![(voter, v)] + rest),
                None => None,
            }
        }
    }
}

/// Serializing one more pair appends its frame.
pub proof fn lemma_ledger_bytes_push(l: Seq<(Seq<u8>, Vote)>, voter: Seq<u8>, v: Vote)
    ensures
        ledger_bytes(l.push((voter, v))) == ledger_bytes(l) + pair_bytes(voter, v),
    decreases l.len(),
{
    if l.len() == 0 {
        let lp = l.push((voter, v));
        assert(lp[0] == (voter, v));
        assert(lp.drop_first() =~= Seq::<(Seq<u8>, Vote)>::empty());
        assert(ledger_bytes(lp.drop_first()) == Seq::<u8>::empty());
        assert(ledger_bytes(lp) == pair_bytes(voter, v) + ledger_bytes(lp.drop_first()));
        assert(ledger_bytes(lp) =~= ledger_bytes(l) + pair_bytes(voter, v));
    } else {
        assert(l.push((voter, v)).drop_first() =~= l.drop_first().push((voter, v)));
        assert(l.push((voter, v))[0] == l[0]);
        lemma_ledger_bytes_push(l.drop_first(), voter, v);
        assert(pair_bytes(l[0].0, l[0].1) + (ledger_bytes(l.drop_first()) + pair_bytes(voter, v))
            =~= (pair_bytes(l[0].0, l[0].1) + ledger_bytes(l.drop_first())) + pair_bytes(
            voter,
            v,
        ));
        assert(ledger_bytes(l.push((voter, v))) =~= ledger_bytes(l) + pair_bytes(voter, v));
    }
}

/// Deserializing a serialized ledger entry gives the entry back.
pub proof fn lemma_ledger_roundtrip(l: Seq<(Seq<u8>, Vote)>)
    requires
        ledger_pairs_wf(l),
    ensures
        parse_ledger(ledger_bytes(l)) == Some(l),
    decreases l.len(),
{
    if l.len() == 0 {
        assert(ledger_bytes(l) =~= Seq::<u8>::empty());
    } else {
        let voter = l[0].0;
        let v = l[0].1;
        let b = ledger_bytes(l);
        let n = voter.len() as int;
        assert(l[0].0.len() <= MAX_VOTER_ID_LEN);
        assert(b[0] == n as u8);
        assert(b.len() >= 2 + n);
        assert(b[1 + n] == dir_byte(v));
        assert(b.subrange(1, 1 + n) =~= voter);
        assert(b.subrange(2 + n, b.len() as int) =~= ledger_bytes(l.drop_first()));
        lemma_ledger_roundtrip(l.drop_first());
        assert(seq![(voter, v)] + l.drop_first() =~= l);
    }
}

/// Every pair of a record that deserializes is within the length bound.
pub proof fn lemma_parse_ledger_wf(b: Seq<u8>, l: Seq<(Seq<u8>, Vote)>)
    requires
        parse_ledger(b) == Some(l),
    ensures
        ledger_pairs_wf(l),
    decreases b.len(),
{
    if b.len() == 0 {
    } else {
        let n = b[0] as int;
        let rest = parse_ledger(b.subrange(2 + n, b.len() as int))->Some_0;
        lemma_parse_ledger_wf(b.subrange(2 + n, b.len() as int), rest);
        assert forall|i: int| 0 <= i < l.len() implies (#[trigger] l[i].0).len()
            <= MAX_VOTER_ID_LEN by {
            if i > 0 {
                assert(l[i].0 == rest[i - 1].0);
            }
        }
    }
}

// ---------------------------------------------------------------------------
// Executable encoders and decoders, verified against the forms above.
// ---------------------------------------------------------------------------

/// Appends the four little-endian bytes of a word.
fn push_le4(out: &mut Vec<u8>, x: u32)
    ensures
        final(out)@ == old(out)@ + le4(x),
{
    out.push((x & 0xff) as u8);
    out.push(((x >> 8) & 0xff) as u8);
    out.push(((x >> 16) & 0xff) as u8);
    out.push(((x >> 24) & 0xff) as u8);
    proof {
        assert(out@ =~= old(out)@ + le4(x));
    }
}

/// Reads the word stored at `off` in little-endian order.
fn read_le4(b: &Vec<u8>, off: usize) -> (r: u32)
    requires
        off + 4 <= b@.len(),
    ensures
        r == from_le4(b@.subrange(off as int, off as int + 4)),
{
    let ghost s = b@.subrange(off as int, off as int + 4);
    let blen = b.len();
    let r = (b[off] as u32) | ((b[off + 1] as u32) << 8) | ((b[off + 2] as u32) << 16) | ((b[off
        + 3] as u32) << 24);
    proof {
        assert(s[0] == b@[off as int] && s[1] == b@[off as int + 1] && s[2] == b@[off as int + 2]
            && s[3] == b@[off as int + 3]);
    }
    r
}

/// Serializes a post. The result is within the size bound exactly when the
/// post is encodable.
pub fn encode_post(p: &Post) -> (r: Vec<u8>)
    ensures
        r@ == post_bytes(p@),
{
    let mut out: Vec<u8> = Vec::new();
    push_le4(&mut out, p.id);
    let shifted: i64 = (p.votes as i64) + 0x8000_0000i64;
    push_le4(&mut out, shifted as u32);
    out.extend_from_slice(p.content.as_str().as_bytes());
    proof {
        assert(shifted as u32 == votes_word(p.votes));
        assert(out@ =~= post_bytes(p@));
    }
    out
}

/// Trusted bridge to `String::from_utf8`: succeeds exactly on valid UTF-8,
/// returning the string those bytes spell.
#[verifier::external_body]
fn utf8_to_string(b: Vec<u8>) -> (r: Option<String>)
    ensures
        match r {
            Some(s) => valid_utf8(b@) && s@ == decode_utf8(b@) && encode_utf8(s@) == b@,
            None => !valid_utf8(b@),
        },
{
    String::from_utf8(b).ok()
}

/// Deserializes a post record; rejects malformed records.
pub fn decode_post(b: &Vec<u8>) -> (r: Option<Post>)
    ensures
        match r {
            Some(p) => parse_post(b@) == Some(p@),
            None => parse_post(b@) is None,
        },
{
    if b.len() < 8 {
        return None;
    }
    let id = read_le4(b, 0);
    let w = read_le4(b, 4);
    let votes: i32 = ((w as i64) - 0x8000_0000i64) as i32;
    let tail = vstd::slice::slice_subrange(b.as_slice(), 8, b.len());
    let tail_vec = vstd::slice::slice_to_vec(tail);
    proof {
        assert(tail_vec@ =~= b@.subrange(8, b@.len() as int));
        assert(votes == word_votes(from_le4(b@.subrange(4, 8))));
    }
    match utf8_to_string(tail_vec) {
        Some(content) => Some(Post { id, content, votes }),
        None => None,
    }
}

/// Serializes a ledger entry. The result is within the size bound exactly
/// when the entry still fits a record.
pub fn encode_ledger(pairs: &Vec<(crate::types::VoterId, Vote)>) -> (r: Vec<u8>)
    requires
        ledger_pairs_wf(view_pairs(pairs@)),
    ensures
        r@ == ledger_bytes(view_pairs(pairs@)),
{
    let mut out: Vec<u8> = Vec::new();
    let ghost all = view_pairs(pairs@);
    let mut i: usize = 0;
    proof {
        assert(out@ =~= ledger_bytes(all.take(0)));
    }
    while i < pairs.len()
        invariant
            i <= pairs@.len(),
            all == view_pairs(pairs@),
            all.len() == pairs@.len(),
            ledger_pairs_wf(all),
            out@ == ledger_bytes(all.take(i as int)),
        decreases pairs@.len() - i,
    {
        proof {
            assert(all[i as int] == (pairs@[i as int].0@, pairs@[i as int].1));
            assert(all[i as int].0.len() <= MAX_VOTER_ID_LEN);
        }
        let voter_bytes = pairs[i].0.to_bytes();
        let d: u8 = match pairs[i].1 {
            Vote::Up => 1,
            Vote::Down => 2,
        };
        out.push(voter_bytes.len() as u8);
        out.extend_from_slice(voter_bytes.as_slice());
        out.push(d);
        proof {
            lemma_ledger_bytes_push(all.take(i as int), all[i as int].0, all[i as int].1);
            assert(all.take(i as int).push(all[i as int]) =~= all.take(i as int + 1));
            assert(out@ =~= ledger_bytes(all.take(i as int)) + pair_bytes(
                all[i as int].0,
                all[i as int].1,
            ));
        }
        i = i + 1;
    }
    proof {
        assert(all.take(all.len() as int) =~= all);
    }
    out
}

/// The pair sequence a ledger value stands for.
pub open spec fn view_pairs(pairs: Seq<(crate::types::VoterId, Vote)>) -> Seq<(Seq<u8>, Vote)> {
    Seq::new(pairs.len(), |i: int| (pairs[i].0@, pairs[i].1))
}

/// Deserializes a ledger record; rejects malformed records.
pub fn decode_ledger(b: &[u8]) -> (r: Option<Vec<(crate::types::VoterId, Vote)>>)
    ensures
        match r {
            Some(pairs) => parse_ledger(b@) == Some(view_pairs(pairs@)),
            None => parse_ledger(b@) is None,
        },
    decreases b@.len(),
{
    if b.len() == 0 {
        let pairs: Vec<(crate::types::VoterId, Vote)> = Vec::new();
        proof {
            assert(view_pairs(pairs@) =~= Seq::<(Seq<u8>, Vote)>::empty());
        }
        return Some(pairs);
    }
    let n = b[0] as usize;
    if b.len() < 2 + n || n > MAX_VOTER_ID_LEN {
        return None;
    }
    let d = b[1 + n];
    if d != 1 && d != 2 {
        return None;
    }
    let voter_bytes = vstd::slice::slice_to_vec(vstd::slice::slice_subrange(b, 1, 1 + n));
    let voter = match crate::types::VoterId::from_bytes(voter_bytes) {
        Some(voter) => voter,
        None => {
            proof {
                assert(false);
            }
            return None;
        },
    };
    let v = if d == 1 {
        Vote::Up
    } else {
        Vote::Down
    };
    let rest_slice = vstd::slice::slice_subrange(b, 2 + n, b.len());
    match decode_ledger(rest_slice) {
        Some(mut rest) => {
            let ghost rest_view = view_pairs(rest@);
            rest.insert(0, (voter, v));
            proof {
                assert(view_pairs(rest@) =~= seq![(voter@, v)] + rest_view);
                assert(voter@ =~= b@.subrange(1, 1 + n as int));
            }
            Some(rest)
        },
        None => None,
    }
}

} // verus!
