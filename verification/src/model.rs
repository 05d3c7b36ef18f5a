//! Mathematical model of the store and its voting engine.
//!
//! Every public operation of [`crate::service::Service`] is specified as a
//! pure transition over a [`State`]; the laws at the end of this module are
//! proved of those transitions.

use vstd::prelude::*;

use crate::codec::{ledger_bytes, post_encodable, MAX_VALUE_SIZE};
use crate::types::{anonymous_bytes, dir_value, PostModel, Vote, VoteError};

verus! {

/// The whole observable state: the stored posts, the vote ledgers, and the
/// authorization policy chosen at start.
pub struct State {
    pub posts: Map<u32, PostModel>,
    pub ledgers: Map<u32, Seq<(Seq<u8>, Vote)>>,
    pub allow_anonymous: bool,
}

/// The state a freshly constructed store is in.
pub open spec fn initial_state(allow_anonymous: bool) -> State {
    State { posts: Map::empty(), ledgers: Map::empty(), allow_anonymous }
}

/// A caller may mutate unless anonymous callers are disallowed and the
/// caller is the anonymous identity.
pub open spec fn authorized(s: State, voter: Seq<u8>) -> bool {
    s.allow_anonymous || voter != anonymous_bytes()
}

/// The ledger entry recorded for a post; empty when none was created yet.
pub open spec fn ledger_of(s: State, id: u32) -> Seq<(Seq<u8>, Vote)> {
    if s.ledgers.contains_key(id) {
        s.ledgers[id]
    } else {
        Seq::empty()
    }
}

/// The direction the voter holds in the entry, scanning in insertion order.
pub open spec fn find_vote(l: Seq<(Seq<u8>, Vote)>, voter: Seq<u8>) -> Option<Vote>
    decreases l.len(),
{
    if l.len() == 0 {
        None
    } else if l[0].0 == voter {
        Some(l[0].1)
    } else {
        find_vote(l.drop_first(), voter)
    }
}

/// The entry with the voter's first recorded pair taken out.
pub open spec fn remove_voter(l: Seq<(Seq<u8>, Vote)>, voter: Seq<u8>) -> Seq<(Seq<u8>, Vote)>
    decreases l.len(),
{
    if l.len() == 0 {
        l
    } else if l[0].0 == voter {
        l.drop_first()
    } else {
        seq![l[0]] + remove_voter(l.drop_first(), voter)
    }
}

/// The signed sum of the directions recorded in an entry.
pub open spec fn ledger_sum(l: Seq<(Seq<u8>, Vote)>) -> int
    decreases l.len(),
{
    if l.len() == 0 {
        0
    } else {
        dir_value(l[0].1) + ledger_sum(l.drop_first())
    }
}

/// No two pairs of the entry name the same voter identity.
pub open spec fn no_duplicate_voters(l: Seq<(Seq<u8>, Vote)>) -> bool {
    forall|i: int, j: int| 0 <= i < j < l.len() ==> l[i].0 != l[j].0
}

/// Every ledger entry of the state is free of duplicate voters.
pub open spec fn ledgers_wf(s: State) -> bool {
    forall|id: u32|
        s.ledgers.contains_key(id) ==> no_duplicate_voters(#[trigger] s.ledgers[id])
}

/// Every stored post's score is the signed sum of its ledger entry.
pub open spec fn consistent(s: State) -> bool {
    forall|id: u32|
        s.posts.contains_key(id) ==> (#[trigger] s.posts[id]).votes == ledger_sum(
            ledger_of(s, id),
        )
}

// ---------------------------------------------------------------------------
// Transitions
// ---------------------------------------------------------------------------

/// Upserting a post: rejected for unauthorized callers and for records over
/// the size bound; otherwise stores the post under its id and hands back the
/// previous record.
pub open spec fn insert_step(s: State, voter: Seq<u8>, p: PostModel) -> (
    State,
    Result<Option<PostModel>, VoteError>,
) {
    if !authorized(s, voter) {
        (s, Err(VoteError::Unauthorized))
    } else if !post_encodable(p) {
        (s, Err(VoteError::EncodingError))
    } else {
        let prev = if s.posts.contains_key(p.id) {
            Some(s.posts[p.id])
        } else {
            None
        };
        (State { posts: s.posts.insert(p.id, p), ..s }, Ok(prev))
    }
}

/// The toggle state machine of one `castVote` request.
///
/// A first vote records the pair and moves the score by the direction's
/// value; repeating the held direction is rejected; casting the opposite
/// direction retracts the pair, moving the score the same way. The ledger
/// and score mutations are a single atomic step: an error leaves the state
/// untouched.
pub open spec fn vote_step(s: State, voter: Seq<u8>, id: u32, v: Vote) -> (
    State,
    Result<PostModel, VoteError>,
) {
    if !authorized(s, voter) {
        (s, Err(VoteError::Unauthorized))
    } else if !s.posts.contains_key(id) {
        (s, Err(VoteError::NotFound))
    } else {
        let l = ledger_of(s, id);
        let prior = find_vote(l, voter);
        if prior == Some(v) {
            (s, Err(VoteError::DuplicateVote))
        } else {
            let new_l = match prior {
                Some(_) => remove_voter(l, voter),
                None => l.push((voter, v)),
            };
            let p = s.posts[id];
            let new_votes = p.votes + dir_value(v);
            if new_votes < i32::MIN || new_votes > i32::MAX || ledger_bytes(new_l).len()
                > MAX_VALUE_SIZE {
                (s, Err(VoteError::EncodingError))
            } else {
                let np = PostModel { votes: new_votes as i32, ..p };
                (
                    State {
                        posts: s.posts.insert(id, np),
                        ledgers: s.ledgers.insert(id, new_l),
                        ..s
                    },
                    Ok(np),
                )
            }
        }
    }
}

/// Removing a post clears its ledger entry and the post itself, in one
/// step, and hands back the previous record; clearing is defensive, so a
/// missing post still clears any lingering entry.
pub open spec fn remove_step(s: State, voter: Seq<u8>, id: u32) -> (
    State,
    Result<Option<PostModel>, VoteError>,
) {
    if !authorized(s, voter) {
        (s, Err(VoteError::Unauthorized))
    } else {
        let prev = if s.posts.contains_key(id) {
            Some(s.posts[id])
        } else {
            None
        };
        (State { posts: s.posts.remove(id), ledgers: s.ledgers.remove(id), ..s }, Ok(prev))
    }
}

// ---------------------------------------------------------------------------
// Helper lemmas about ledger entries
// ---------------------------------------------------------------------------

/// A voter absent from every pair is not found.
pub proof fn lemma_find_vote_none(l: Seq<(Seq<u8>, Vote)>, voter: Seq<u8>)
    requires
        forall|i: int| 0 <= i < l.len() ==> (#[trigger] l[i]).0 != voter,
    ensures
        find_vote(l, voter) is None,
    decreases l.len(),
{
    if l.len() > 0 {
        lemma_find_vote_none(l.drop_first(), voter);
    }
}

/// A found voter occupies some pair.
pub proof fn lemma_find_vote_some(l: Seq<(Seq<u8>, Vote)>, voter: Seq<u8>)
    requires
        find_vote(l, voter) is Some,
    ensures
        exists|i: int|
            0 <= i < l.len() && (#[trigger] l[i]).0 == voter && l[i].1 == find_vote(
                l,
                voter,
            )->Some_0,
    decreases l.len(),
{
    if l.len() > 0 && l[0].0 != voter {
        lemma_find_vote_some(l.drop_first(), voter);
        let i = choose|i: int|
            0 <= i < l.drop_first().len() && (#[trigger] l.drop_first()[i]).0 == voter
                && l.drop_first()[i].1 == find_vote(l.drop_first(), voter)->Some_0;
        assert(l[i + 1] == l.drop_first()[i]);
    }
}

/// A voter the scan does not find occupies no pair at all.
pub proof fn lemma_find_vote_none_no_occurrence(l: Seq<(Seq<u8>, Vote)>, voter: Seq<u8>)
    requires
        find_vote(l, voter) is None,
    ensures
        forall|i: int| 0 <= i < l.len() ==> (#[trigger] l[i]).0 != voter,
{
    assert forall|i: int| 0 <= i < l.len() implies (#[trigger] l[i]).0 != voter by {
        if l[i].0 == voter {
            lemma_first_occurrence(l, voter, i);
            let f = choose|j: int|
                0 <= j <= i && (#[trigger] l[j]).0 == voter && (forall|k: int|
                    0 <= k < j ==> (#[trigger] l[k]).0 != voter);
            lemma_find_vote_at(l, voter, f);
        }
    }
}

/// The first matching pair determines what the scan finds.
pub proof fn lemma_find_vote_at(l: Seq<(Seq<u8>, Vote)>, voter: Seq<u8>, i: int)
    requires
        0 <= i < l.len(),
        l[i].0 == voter,
        forall|j: int| 0 <= j < i ==> (#[trigger] l[j]).0 != voter,
    ensures
        find_vote(l, voter) == Some(l[i].1),
    decreases i,
{
    if i > 0 {
        assert(l[0].0 != voter);
        lemma_find_vote_at(l.drop_first(), voter, i - 1);
        assert(l.drop_first()[i - 1] == l[i]);
    }
}

/// Removing the first matching pair is removal at its index.
pub proof fn lemma_remove_voter_at(l: Seq<(Seq<u8>, Vote)>, voter: Seq<u8>, i: int)
    requires
        0 <= i < l.len(),
        l[i].0 == voter,
        forall|j: int| 0 <= j < i ==> (#[trigger] l[j]).0 != voter,
    ensures
        remove_voter(l, voter) == l.remove(i),
    decreases i,
{
    if i == 0 {
        assert(l.drop_first() =~= l.remove(0));
    } else {
        assert(l[0].0 != voter);
        lemma_remove_voter_at(l.drop_first(), voter, i - 1);
        assert(l.drop_first()[i - 1] == l[i]);
        assert(seq![l[0]] + l.drop_first().remove(i - 1) =~= l.remove(i));
    }
}

/// Appending a pair adds its direction to the sum.
pub proof fn lemma_ledger_sum_push(l: Seq<(Seq<u8>, Vote)>, voter: Seq<u8>, v: Vote)
    ensures
        ledger_sum(l.push((voter, v))) == ledger_sum(l) + dir_value(v),
    decreases l.len(),
{
    let lp = l.push((voter, v));
    if l.len() == 0 {
        assert(lp[0] == (voter, v));
        assert(lp.drop_first() =~= Seq::<(Seq<u8>, Vote)>::empty());
        assert(ledger_sum(lp.drop_first()) == 0);
    } else {
        assert(lp[0] == l[0]);
        assert(lp.drop_first() =~= l.drop_first().push((voter, v)));
        lemma_ledger_sum_push(l.drop_first(), voter, v);
    }
}

/// Removing a pair at an index takes its direction out of the sum.
pub proof fn lemma_ledger_sum_remove(l: Seq<(Seq<u8>, Vote)>, i: int)
    requires
        0 <= i < l.len(),
    ensures
        ledger_sum(l.remove(i)) == ledger_sum(l) - dir_value(l[i].1),
    decreases l.len(),
{
    if i == 0 {
        assert(l.remove(0) =~= l.drop_first());
    } else {
        assert(l.remove(i)[0] == l[0]);
        assert(l.remove(i).drop_first() =~= l.drop_first().remove(i - 1));
        lemma_ledger_sum_remove(l.drop_first(), i - 1);
        assert(l.drop_first()[i - 1] == l[i]);
    }
}

// ---------------------------------------------------------------------------
// Laws of the voting engine
// ---------------------------------------------------------------------------

/// In a duplicate-free entry a voter holding no pair stays absent after a
/// scan, and removal keeps the entry duplicate-free.
pub proof fn lemma_remove_keeps_no_duplicates(l: Seq<(Seq<u8>, Vote)>, i: int)
    requires
        no_duplicate_voters(l),
        0 <= i < l.len(),
    ensures
        no_duplicate_voters(l.remove(i)),
{
    let r = l.remove(i);
    assert forall|a: int, b: int| 0 <= a < b < r.len() implies r[a].0 != r[b].0 by {
        let oa = if a < i {
            a
        } else {
            a + 1
        };
        let ob = if b < i {
            b
        } else {
            b + 1
        };
        assert(r[a] == l[oa] && r[b] == l[ob]);
    }
}

/// Scoring stays consistent with the ledgers across a vote: for every
/// stored post, the score equals the signed sum of its entry, before and
/// after, whatever the request's outcome.
pub proof fn lemma_vote_preserves_consistency(s: State, voter: Seq<u8>, id: u32, v: Vote)
    requires
        consistent(s),
    ensures
        consistent(vote_step(s, voter, id, v).0),
{
    let (s2, r) = vote_step(s, voter, id, v);
    if r is Ok {
        let l = ledger_of(s, id);
        let prior = find_vote(l, voter);
        let new_l = match prior {
            Some(_) => remove_voter(l, voter),
            None => l.push((voter, v)),
        };
        match prior {
            Some(d) => {
                lemma_find_vote_some(l, voter);
                let i = choose|i: int|
                    0 <= i < l.len() && (#[trigger] l[i]).0 == voter && l[i].1 == d;
                lemma_first_occurrence(l, voter, i);
                let first = choose|j: int|
                    0 <= j <= i && (#[trigger] l[j]).0 == voter && (forall|k: int|
                        0 <= k < j ==> (#[trigger] l[k]).0 != voter);
                lemma_find_vote_at(l, voter, first);
                lemma_remove_voter_at(l, voter, first);
                lemma_ledger_sum_remove(l, first);
                assert(dir_value(v) == -dir_value(d));
            },
            None => {
                lemma_ledger_sum_push(l, voter, v);
            },
        }
        assert forall|k: u32| s2.posts.contains_key(k) implies (#[trigger] s2.posts[k]).votes
            == ledger_sum(ledger_of(s2, k)) by {
            if k != id {
                assert(s2.posts[k] == s.posts[k]);
                assert(ledger_of(s2, k) == ledger_of(s, k));
            }
        }
    }
}

/// There is a first pair of the voter before or at any pair of the voter.
proof fn lemma_first_occurrence(l: Seq<(Seq<u8>, Vote)>, voter: Seq<u8>, i: int)
    requires
        0 <= i < l.len(),
        l[i].0 == voter,
    ensures
        exists|j: int|
            0 <= j <= i && (#[trigger] l[j]).0 == voter && (forall|k: int|
                0 <= k < j ==> (#[trigger] l[k]).0 != voter),
    decreases i,
{
    if exists|k: int| 0 <= k < i && (#[trigger] l[k]).0 == voter {
        let k = choose|k: int| 0 <= k < i && (#[trigger] l[k]).0 == voter;
        lemma_first_occurrence(l, voter, k);
    } else {
        assert(0 <= i <= i && l[i].0 == voter && (forall|k: int|
            0 <= k < i ==> (#[trigger] l[k]).0 != voter));
    }
}

/// Upserting a post whose score already matches its entry keeps the store
/// consistent; every other field of the store is untouched.
pub proof fn lemma_insert_preserves_consistency(s: State, voter: Seq<u8>, p: PostModel)
    requires
        consistent(s),
        p.votes == ledger_sum(ledger_of(s, p.id)),
    ensures
        consistent(insert_step(s, voter, p).0),
{
    let s2 = insert_step(s, voter, p).0;
    assert forall|k: u32| s2.posts.contains_key(k) implies (#[trigger] s2.posts[k]).votes
        == ledger_sum(ledger_of(s2, k)) by {
        if k != p.id {
            assert(s2.posts[k] == s.posts[k]);
        }
        assert(ledger_of(s2, k) == ledger_of(s, k));
    }
}

/// Removing a post keeps the store consistent.
pub proof fn lemma_remove_preserves_consistency(s: State, voter: Seq<u8>, id: u32)
    requires
        consistent(s),
    ensures
        consistent(remove_step(s, voter, id).0),
{
    let s2 = remove_step(s, voter, id).0;
    if authorized(s, voter) {
        assert forall|k: u32| s2.posts.contains_key(k) implies (#[trigger] s2.posts[k]).votes
            == ledger_sum(ledger_of(s2, k)) by {
            assert(k != id);
            assert(s2.posts[k] == s.posts[k]);
            assert(ledger_of(s2, k) == ledger_of(s, k));
        }
    }
}

/// No operation ever records two pairs for one voter in one entry.
pub proof fn lemma_vote_preserves_no_duplicates(s: State, voter: Seq<u8>, id: u32, v: Vote)
    requires
        ledgers_wf(s),
    ensures
        ledgers_wf(vote_step(s, voter, id, v).0),
{
    let (s2, r) = vote_step(s, voter, id, v);
    if r is Ok {
        let l = ledger_of(s, id);
        let prior = find_vote(l, voter);
        let new_l = match prior {
            Some(_) => remove_voter(l, voter),
            None => l.push((voter, v)),
        };
        assert(no_duplicate_voters(l));
        match prior {
            Some(d) => {
                lemma_find_vote_some(l, voter);
                let i = choose|i: int|
                    0 <= i < l.len() && (#[trigger] l[i]).0 == voter && l[i].1 == d;
                lemma_first_occurrence(l, voter, i);
                let first = choose|j: int|
                    0 <= j <= i && (#[trigger] l[j]).0 == voter && (forall|k: int|
                        0 <= k < j ==> (#[trigger] l[k]).0 != voter);
                lemma_remove_voter_at(l, voter, first);
                lemma_remove_keeps_no_duplicates(l, first);
            },
            None => {
                lemma_find_vote_none_no_occurrence(l, voter);
                assert forall|a: int, b: int| 0 <= a < b < new_l.len() implies new_l[a].0
                    != new_l[b].0 by {
                    if b < l.len() {
                        assert(new_l[a] == l[a] && new_l[b] == l[b]);
                    } else {
                        assert(new_l[a] == l[a] && new_l[b].0 == voter);
                    }
                }
            },
        }
        assert forall|k: u32| s2.ledgers.contains_key(k) implies no_duplicate_voters(
            #[trigger] s2.ledgers[k],
        ) by {
            if k != id {
                assert(s2.ledgers[k] == s.ledgers[k]);
            }
        }
    }
}

/// A fresh store is consistent and free of duplicate voters, so the
/// preservation results above carry both invariants through every run.
pub proof fn lemma_initial_state_invariants(allow_anonymous: bool)
    ensures
        consistent(initial_state(allow_anonymous)),
        ledgers_wf(initial_state(allow_anonymous)),
{
}

/// A voter who held no vote and cast one is rejected with a duplicate-vote
/// failure on repeating the same direction, and the repeat changes nothing.
///
/// When the first cast was instead a retraction (the voter held the
/// opposite direction), the repeat records a fresh vote and succeeds, so
/// that case is excluded here.
pub proof fn lemma_second_same_cast_rejected(s: State, voter: Seq<u8>, id: u32, v: Vote)
    requires
        find_vote(ledger_of(s, id), voter) is None,
        vote_step(s, voter, id, v).1 is Ok,
    ensures
        vote_step(vote_step(s, voter, id, v).0, voter, id, v) == (
            vote_step(s, voter, id, v).0,
            Err::<PostModel, VoteError>(VoteError::DuplicateVote),
        ),
{
    let s2 = vote_step(s, voter, id, v).0;
    let l = ledger_of(s, id);
    let new_l = l.push((voter, v));
    assert(ledger_of(s2, id) == new_l);
    lemma_find_vote_none_no_occurrence(l, voter);
    assert forall|j: int| 0 <= j < l.len() implies (#[trigger] new_l[j]).0 != voter by {
        assert(new_l[j] == l[j]);
    }
    assert(new_l[l.len() as int].0 == voter);
    lemma_find_vote_at(new_l, voter, l.len() as int);
    assert(find_vote(new_l, voter) == Some(v));
}

/// An upsert that succeeds stores exactly the given post under its id.
pub proof fn lemma_insert_then_get(s: State, voter: Seq<u8>, p: PostModel)
    requires
        insert_step(s, voter, p).1 is Ok,
    ensures
        insert_step(s, voter, p).0.posts.contains_key(p.id),
        insert_step(s, voter, p).0.posts[p.id] == p,
{
}

/// After a removal that was let through, neither the post nor its ledger
/// entry remains.
pub proof fn lemma_remove_cascades(s: State, voter: Seq<u8>, id: u32)
    requires
        remove_step(s, voter, id).1 is Ok,
    ensures
        !remove_step(s, voter, id).0.posts.contains_key(id),
        !remove_step(s, voter, id).0.ledgers.contains_key(id),
{
}

} // verus!
