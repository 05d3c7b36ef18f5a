//! The service: post store, vote ledger, voting engine and authorization
//! guard, owned by a single instance constructed once at startup.
//!
//! Every mutating operation is proved to perform exactly the transition
//! that [`crate::model`] specifies, and to keep the stored records well
//! formed.

use vstd::prelude::*;

use crate::codec::{
    decode_ledger, decode_post, encode_ledger, encode_post, ledger_bytes, lemma_ledger_roundtrip,
    lemma_parse_ledger_wf, lemma_parse_post_canonical, lemma_post_roundtrip, parse_ledger,
    ledger_pairs_wf, parse_post, post_bytes, view_pairs, MAX_VALUE_SIZE,
};
use crate::model::{
    authorized, find_vote, initial_state, insert_step, ledger_of, lemma_find_vote_at,
    lemma_find_vote_none_no_occurrence, lemma_remove_keeps_no_duplicates, lemma_remove_voter_at,
    no_duplicate_voters, remove_step, remove_voter, vote_step, State,
};
use crate::storage::{store_posts, store_votes, Store};
use crate::types::{Ledger, Post, PostModel, Vote, VoteError, VoterId};

verus! {

/// The model a `Result` of an upsert or removal stands for.
pub open spec fn res_opt_model(r: Result<Option<Post>, VoteError>) -> Result<
    Option<PostModel>,
    VoteError,
> {
    match r {
        Ok(Some(p)) => Ok(Some(p@)),
        Ok(None) => Ok(None),
        Err(e) => Err(e),
    }
}

/// The model a `Result` of a vote stands for.
pub open spec fn res_post_model(r: Result<Post, VoteError>) -> Result<PostModel, VoteError> {
    match r {
        Ok(p) => Ok(p@),
        Err(e) => Err(e),
    }
}

/// The store behind the whole operation surface.
pub struct Service {
    store: Store,
    allow_anonymous: bool,
}

impl Service {
    /// The raw post records, by post id.
    pub closed spec fn posts_raw(&self) -> Map<u32, Seq<u8>> {
        store_posts(self.store)
    }

    /// The raw ledger records, by post id.
    pub closed spec fn votes_raw(&self) -> Map<u32, Seq<u8>> {
        store_votes(self.store)
    }

    /// A stored post record deserializes, names its key, and fits the bound.
    pub open spec fn post_record_ok(key: u32, b: Seq<u8>) -> bool {
        &&& parse_post(b) is Some
        &&& parse_post(b)->Some_0.id == key
        &&& b.len() <= MAX_VALUE_SIZE
    }

    /// A stored ledger record deserializes to a duplicate-free entry and
    /// fits the bound.
    pub open spec fn ledger_record_ok(b: Seq<u8>) -> bool {
        &&& parse_ledger(b) is Some
        &&& no_duplicate_voters(parse_ledger(b)->Some_0)
        &&& b.len() <= MAX_VALUE_SIZE
    }

    /// Well-formedness: every stored record is intact. Constructors
    /// establish it and every operation preserves it.
    pub open spec fn wf(&self) -> bool {
        &&& forall|k: u32|
            self.posts_raw().contains_key(k) ==> Self::post_record_ok(
                k,
                #[trigger] self.posts_raw()[k],
            )
        &&& forall|k: u32|
            self.votes_raw().contains_key(k) ==> Self::ledger_record_ok(
                #[trigger] self.votes_raw()[k],
            )
    }

    /// The observable state the stored records stand for.
    pub closed spec fn model(&self) -> State {
        State {
            posts: Map::new(
                |k: u32| self.posts_raw().contains_key(k),
                |k: u32| parse_post(self.posts_raw()[k])->Some_0,
            ),
            ledgers: Map::new(
                |k: u32| self.votes_raw().contains_key(k),
                |k: u32| parse_ledger(self.votes_raw()[k])->Some_0,
            ),
            allow_anonymous: self.allow_anonymous,
        }
    }

    /// Constructs the service over fresh tables.
    pub fn new(allow_anonymous: bool) -> (s: Service)
        ensures
            s.wf(),
            s.model() == initial_state(allow_anonymous),
    {
        let s = Service { store: Store::new(), allow_anonymous };
        proof {
            assert(s.model().posts =~= initial_state(allow_anonymous).posts);
            assert(s.model().ledgers =~= initial_state(allow_anonymous).ledgers);
        }
        s
    }

    /// The authorization guard: rejects a mutating call from the anonymous
    /// identity when anonymous use is disallowed, before any store is
    /// touched.
    pub fn is_authorized(&self, caller: &VoterId) -> (r: Result<(), VoteError>)
        ensures
            r is Ok <==> authorized(self.model(), caller@),
            r is Err ==> r->Err_0 == VoteError::Unauthorized,
    {
        if !self.allow_anonymous && caller.is_anonymous() {
            Err(VoteError::Unauthorized)
        } else {
            Ok(())
        }
    }

    /// Whether anonymous callers may mutate; read-only policy query.
    pub fn is_anonymous_allowed(&self) -> (r: bool)
        ensures
            r == self.model().allow_anonymous,
    {
        self.allow_anonymous
    }

    /// Pure lookup of a single post.
    pub fn get(&self, key: u32) -> (r: Option<Post>)
        requires
            self.wf(),
        ensures
            match r {
                Some(p) => self.model().posts.contains_key(key) && p@ == self.model().posts[key],
                None => !self.model().posts.contains_key(key),
            },
    {
        match self.store.posts_get(key) {
            Some(b) => match decode_post(&b) {
                Some(p) => Some(p),
                None => {
                    proof {
                        assert(Self::post_record_ok(key, self.posts_raw()[key]));
                        assert(false);
                    }
                    None
                },
            },
            None => None,
        }
    }

    /// The ledger entry recorded for a post; empty when none exists.
    pub fn get_entry(&self, key: u32) -> (r: Ledger)
        requires
            self.wf(),
        ensures
            r@ == ledger_of(self.model(), key),
    {
        match self.store.votes_get(key) {
            Some(b) => match decode_ledger(b.as_slice()) {
                Some(pairs) => {
                    let r = Ledger { pairs };
                    proof {
                        assert(r@ =~= ledger_of(self.model(), key));
                    }
                    r
                },
                None => {
                    proof {
                        assert(Self::ledger_record_ok(self.votes_raw()[key]));
                        assert(false);
                    }
                    Ledger::empty()
                },
            },
            None => Ledger::empty(),
        }
    }

    /// Snapshot of all posts, in ascending key order. Unbounded and
    /// non-paginated.
    pub fn get_posts(&self) -> (r: Vec<Post>)
        requires
            self.wf(),
        ensures
            forall|i: int, j: int| 0 <= i < j < r@.len() ==> r@[i].id < r@[j].id,
            forall|i: int|
                0 <= i < r@.len() ==> self.model().posts.contains_key((#[trigger] r@[i]).id)
                    && r@[i]@ == self.model().posts[r@[i].id],
            forall|k: u32|
                self.model().posts.contains_key(k) ==> exists|i: int|
                    0 <= i < r@.len() && (#[trigger] r@[i]).id == k,
    {
        let entries = self.store.posts_entries();
        let mut out: Vec<Post> = Vec::new();
        let mut i: usize = 0;
        while i < entries.len()
            invariant
                self.wf(),
                i <= entries@.len(),
                out@.len() == i,
                forall|a: int, b: int|
                    0 <= a < b < entries@.len() ==> entries@[a].0 < entries@[b].0,
                forall|a: int|
                    0 <= a < entries@.len() ==> self.posts_raw().contains_key(
                        (#[trigger] entries@[a]).0,
                    ) && entries@[a].1@ == self.posts_raw()[entries@[a].0],
                forall|j: int|
                    0 <= j < i ==> (#[trigger] out@[j]).id == entries@[j].0 && out@[j]@
                        == parse_post(self.posts_raw()[entries@[j].0])->Some_0,
            decreases entries@.len() - i,
        {
            match decode_post(&entries[i].1) {
                Some(p) => {
                    proof {
                        assert(p@.id == entries@[i as int].0);
                    }
                    out.push(p);
                },
                None => {
                    proof {
                        assert(false);
                    }
                },
            }
            i = i + 1;
        }
        proof {
            assert forall|k: u32| self.model().posts.contains_key(k) implies exists|a: int|
                0 <= a < out@.len() && (#[trigger] out@[a]).id == k by {
                assert(self.posts_raw().contains_key(k));
                let a = choose|a: int|
                    0 <= a < entries@.len() && (#[trigger] entries@[a]).0 == k;
                assert(out@[a].id == k);
            }
        }
        out
    }

    /// Upserts a post under its id, returning the previous record if one
    /// existed. Rejected for disallowed anonymous callers and for records
    /// over the size bound; a rejected call mutates nothing.
    pub fn insert(&mut self, caller: &VoterId, value: Post) -> (r: Result<
        Option<Post>,
        VoteError,
    >)
        requires
            old(self).wf(),
        ensures
            final(self).wf(),
            final(self).model() == insert_step(old(self).model(), caller@, value@).0,
            res_opt_model(r) == insert_step(old(self).model(), caller@, value@).1,
    {
        let ghost pre = old(self).model();
        if !self.allow_anonymous && caller.is_anonymous() {
            return Err(VoteError::Unauthorized);
        }
        let key = value.id;
        let bytes = encode_post(&value);
        if bytes.len() > MAX_VALUE_SIZE {
            return Err(VoteError::EncodingError);
        }
        proof {
            lemma_post_roundtrip(value@);
        }
        let prev_bytes = self.store.posts_insert(key, bytes);
        let r = match prev_bytes {
            Some(b) => match decode_post(&b) {
                Some(p) => Some(p),
                None => {
                    proof {
                        assert(false);
                    }
                    None
                },
            },
            None => None,
        };
        proof {
            let stepped = insert_step(pre, caller@, value@);
            assert(self.model().posts =~= stepped.0.posts);
            assert(self.model().ledgers =~= stepped.0.ledgers);
        }
        Ok(r)
    }

    /// One `castVote` request: applies the toggle state machine to the
    /// (post, caller) pair, keeping ledger and score mutations one atomic
    /// unit; a failed request mutates nothing.
    pub fn vote(&mut self, caller: &VoterId, key: u32, v: Vote) -> (r: Result<Post, VoteError>)
        requires
            old(self).wf(),
            caller.wf(),
        ensures
            final(self).wf(),
            final(self).model() == vote_step(old(self).model(), caller@, key, v).0,
            res_post_model(r) == vote_step(old(self).model(), caller@, key, v).1,
    {
        let ghost pre = old(self).model();
        if !self.allow_anonymous && caller.is_anonymous() {
            return Err(VoteError::Unauthorized);
        }
        let post = match self.store.posts_get(key) {
            None => {
                return Err(VoteError::NotFound);
            },
            Some(b) => match decode_post(&b) {
                Some(p) => p,
                None => {
                    proof {
                        assert(false);
                    }
                    return Err(VoteError::NotFound);
                },
            },
        };
        proof {
            assert(pre.posts.contains_key(key) && pre.posts[key] == post@);
            assert(post@.id == key);
        }
        let mut ledger: Vec<(VoterId, Vote)> = match self.store.votes_get(key) {
            Some(b) => match decode_ledger(b.as_slice()) {
                Some(pairs) => {
                    proof {
                        assert(Self::ledger_record_ok(self.votes_raw()[key]));
                        lemma_parse_ledger_wf(b@, view_pairs(pairs@));
                    }
                    pairs
                },
                None => {
                    proof {
                        assert(Self::ledger_record_ok(self.votes_raw()[key]));
                        assert(false);
                    }
                    Vec::new()
                },
            },
            None => Vec::new(),
        };
        let ghost l = view_pairs(ledger@);
        proof {
            assert(l =~= ledger_of(pre, key));
            assert(no_duplicate_voters(l));
            assert(ledger_pairs_wf(l));
        }
        let found = find_pair(&ledger, caller);
        match found {
            Some(i) => {
                if ledger[i].1 == v {
                    return Err(VoteError::DuplicateVote);
                }
                proof {
                    lemma_remove_voter_at(l, caller@, i as int);
                }
                ledger.remove(i);
                proof {
                    assert(view_pairs(ledger@) =~= remove_voter(l, caller@));
                    lemma_remove_keeps_no_duplicates(l, i as int);
                    let nl = view_pairs(ledger@);
                    assert forall|j: int|
                        0 <= j < nl.len() implies (#[trigger] nl[j].0).len()
                        <= crate::types::MAX_VOTER_ID_LEN by {
                        if j < i as int {
                            assert(nl[j] == l[j]);
                        } else {
                            assert(nl[j] == l[j + 1]);
                        }
                    }
                    assert(ledger_pairs_wf(nl));
                }
            },
            None => {
                ledger.push((caller.clone(), v));
                proof {
                    assert(view_pairs(ledger@) =~= l.push((caller@, v)));
                    let nl = view_pairs(ledger@);
                    assert forall|j: int|
                        0 <= j < nl.len() implies (#[trigger] nl[j].0).len()
                        <= crate::types::MAX_VOTER_ID_LEN by {
                        if j < l.len() {
                            assert(nl[j] == l[j]);
                        } else {
                            assert(nl[j].0 == caller@);
                        }
                    }
                    assert(ledger_pairs_wf(nl));
                    lemma_find_vote_none_no_occurrence(l, caller@);
                    assert forall|a: int, b: int|
                        0 <= a < b < view_pairs(ledger@).len() implies view_pairs(ledger@)[a].0
                        != view_pairs(ledger@)[b].0 by {
                        if b < l.len() {
                            assert(view_pairs(ledger@)[a] == l[a] && view_pairs(ledger@)[b]
                                == l[b]);
                        } else {
                            assert(view_pairs(ledger@)[a] == l[a]);
                            assert(view_pairs(ledger@)[b].0 == caller@);
                        }
                    }
                }
            },
        }
        let ghost new_l = view_pairs(ledger@);
        let inc: i64 = match v {
            Vote::Up => 1,
            Vote::Down => -1,
        };
        let new_votes_i64: i64 = post.votes as i64 + inc;
        let encoded_ledger = encode_ledger(&ledger);
        if new_votes_i64 > i32::MAX as i64 || new_votes_i64 < i32::MIN as i64
            || encoded_ledger.len() > MAX_VALUE_SIZE {
            return Err(VoteError::EncodingError);
        }
        let new_votes: i32 = new_votes_i64 as i32;
        let new_post = Post { id: post.id, content: post.content, votes: new_votes };
        let new_post_bytes = encode_post(&new_post);
        proof {
            lemma_parse_post_canonical(self.posts_raw()[key], post@);
            assert(post_bytes(new_post@).len() == post_bytes(post@).len());
            assert(new_post_bytes@.len() <= MAX_VALUE_SIZE);
            lemma_post_roundtrip(new_post@);
            lemma_ledger_roundtrip(new_l);
        }
        self.store.votes_insert(key, encoded_ledger);
        self.store.posts_insert(key, new_post_bytes);
        proof {
            let stepped = vote_step(pre, caller@, key, v);
            assert(self.model().posts =~= stepped.0.posts);
            assert(self.model().ledgers =~= stepped.0.ledgers);
        }
        Ok(new_post)
    }

    /// Removes a post: clears its ledger entry, then the post itself, and
    /// returns the previous record. A missing post still clears any
    /// lingering ledger entry defensively.
    pub fn remove(&mut self, caller: &VoterId, key: u32) -> (r: Result<Option<Post>, VoteError>)
        requires
            old(self).wf(),
        ensures
            final(self).wf(),
            final(self).model() == remove_step(old(self).model(), caller@, key).0,
            res_opt_model(r) == remove_step(old(self).model(), caller@, key).1,
    {
        let ghost pre = old(self).model();
        if !self.allow_anonymous && caller.is_anonymous() {
            return Err(VoteError::Unauthorized);
        }
        self.store.votes_remove(key);
        let prev_bytes = self.store.posts_remove(key);
        let r = match prev_bytes {
            Some(b) => match decode_post(&b) {
                Some(p) => Some(p),
                None => {
                    proof {
                        assert(false);
                    }
                    None
                },
            },
            None => None,
        };
        proof {
            let stepped = remove_step(pre, caller@, key);
            assert(self.model().posts =~= stepped.0.posts);
            assert(self.model().ledgers =~= stepped.0.ledgers);
        }
        Ok(r)
    }
}

/// Finds the first pair of the caller in the entry, as the scan of
/// [`find_vote`] does.
fn find_pair(ledger: &Vec<(VoterId, Vote)>, caller: &VoterId) -> (r: Option<usize>)
    ensures
        match r {
            Some(i) => {
                &&& (i as int) < view_pairs(ledger@).len()
                &&& view_pairs(ledger@)[i as int].0 == caller@
                &&& find_vote(view_pairs(ledger@), caller@) == Some(
                    view_pairs(ledger@)[i as int].1,
                )
            },
            None => find_vote(view_pairs(ledger@), caller@) is None,
        },
{
    let ghost l = view_pairs(ledger@);
    let mut i: usize = 0;
    while i < ledger.len()
        invariant
            i <= l.len(),
            l == view_pairs(ledger@),
            l.len() == ledger@.len(),
            forall|j: int| 0 <= j < i ==> (#[trigger] l[j]).0 != caller@,
        decreases l.len() - i,
    {
        if ledger[i].0.same(caller) {
            proof {
                lemma_find_vote_at(l, caller@, i as int);
            }
            return Some(i);
        }
        i = i + 1;
    }
    proof {
        crate::model::lemma_find_vote_none(l, caller@);
    }
    None
}

/// Every well-formed store keeps each ledger entry free of duplicate
/// voters: the stored-record invariant, read at the model level.
pub proof fn lemma_wf_ledgers_no_duplicates(s: &Service)
    requires
        s.wf(),
    ensures
        forall|id: u32|
            s.model().ledgers.contains_key(id) ==> no_duplicate_voters(
                #[trigger] s.model().ledgers[id],
            ),
{
}

} // verus!
