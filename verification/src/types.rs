//! Core data types: posts, vote directions, voter identities, ledgers, errors.

use vstd::prelude::*;

verus! {

/// Direction of a vote on a post.
#[derive(Clone, Copy, PartialEq, Eq, Structural, Debug)]
pub enum Vote {
    Up,
    Down,
}

/// Signed contribution of one vote direction to a post's score.
pub open spec fn dir_value(v: Vote) -> int {
    match v {
        Vote::Up => 1,
        Vote::Down => -1,
    }
}

/// Failures reported to callers. None of these crashes the process.
#[derive(Clone, Copy, PartialEq, Eq, Structural, Debug)]
pub enum VoteError {
    /// A mutating call from a disallowed anonymous caller.
    Unauthorized,
    /// An operation referenced a post id that does not exist.
    NotFound,
    /// The voter repeated the direction they already hold on the post.
    DuplicateVote,
    /// A record would exceed the maximum serialized size, or a score
    /// would leave the representable range.
    EncodingError,
}

/// A content record with an aggregate vote score.
#[derive(Debug)]
pub struct Post {
    pub id: u32,
    pub content: String,
    pub votes: i32,
}

/// Mathematical model of a [`Post`].
pub struct PostModel {
    pub id: u32,
    pub content: Seq<char>,
    pub votes: i32,
}

impl View for Post {
    type V = PostModel;

    open spec fn view(&self) -> PostModel {
        PostModel { id: self.id, content: self.content@, votes: self.votes }
    }
}

impl Clone for Post {
    fn clone(&self) -> (r: Self)
        ensures
            r@ == self@,
    {
        Post { id: self.id, content: self.content.clone(), votes: self.votes }
    }
}

/// The longest byte representation of a voter identity the store accepts.
pub const MAX_VOTER_ID_LEN: usize = 29;

/// Byte representation of the well-known anonymous caller.
pub open spec fn anonymous_bytes() -> Seq<u8> {
    seq![4u8]
}

/// An opaque, comparable voter identity, supplied by the execution
/// environment per request. Modeled as its byte representation.
pub struct VoterId {
    bytes: Vec<u8>,
}

impl View for VoterId {
    type V = Seq<u8>;

    closed spec fn view(&self) -> Seq<u8> {
        self.bytes@
    }
}

impl VoterId {
    /// Every identity the constructors hand out satisfies this bound.
    pub open spec fn wf(&self) -> bool {
        self@.len() <= MAX_VOTER_ID_LEN
    }

    /// Wraps a byte representation; rejects one longer than an identity can be.
    pub fn from_bytes(bytes: Vec<u8>) -> (r: Option<VoterId>)
        ensures
            match r {
                Some(v) => v.wf() && v@ == bytes@,
                None => bytes@.len() > MAX_VOTER_ID_LEN,
            },
    {
        if bytes.len() <= MAX_VOTER_ID_LEN {
            Some(VoterId { bytes })
        } else {
            None
        }
    }

    /// The well-known anonymous caller identity.
    pub fn anonymous() -> (r: VoterId)
        ensures
            r@ == anonymous_bytes(),
            r.wf(),
    {
        let mut bytes: Vec<u8> = Vec::new();
        bytes.push(4u8);
        proof {
            assert(bytes@ =~= anonymous_bytes());
        }
        VoterId { bytes }
    }

    /// The byte representation, for callers that need to persist it.
    pub fn to_bytes(&self) -> (r: Vec<u8>)
        ensures
            r@ == self@,
    {
        self.bytes.clone()
    }

    /// True exactly when the two identities have the same representation.
    pub fn same(&self, other: &VoterId) -> (r: bool)
        ensures
            r == (self@ == other@),
    {
        let r = self.bytes == other.bytes;
        proof {
            if self.bytes@ =~= other.bytes@ {
                assert(self.bytes@ == other.bytes@);
            }
        }
        r
    }

    /// True exactly when this is the anonymous identity.
    pub fn is_anonymous(&self) -> (r: bool)
        ensures
            r == (self@ == anonymous_bytes()),
    {
        let r = self.bytes.len() == 1 && self.bytes[0] == 4u8;
        proof {
            if self.bytes@.len() == 1 && self.bytes@[0] == 4u8 {
                assert(self.bytes@ =~= anonymous_bytes());
            }
            if self.bytes@ == anonymous_bytes() {
                assert(self.bytes@.len() == 1 && self.bytes@[0] == 4u8);
            }
        }
        r
    }
}

impl Clone for VoterId {
    fn clone(&self) -> (r: Self)
        ensures
            r@ == self@,
    {
        VoterId { bytes: self.bytes.clone() }
    }
}

/// The set of (voter identity, direction) pairs recorded for one post,
/// in insertion order.
pub struct Ledger {
    pub pairs: Vec<(VoterId, Vote)>,
}

impl View for Ledger {
    type V = Seq<(Seq<u8>, Vote)>;

    open spec fn view(&self) -> Seq<(Seq<u8>, Vote)> {
        Seq::new(self.pairs@.len(), |i: int| (self.pairs@[i].0@, self.pairs@[i].1))
    }
}

impl Ledger {
    /// A ledger with no recorded votes.
    pub fn empty() -> (r: Ledger)
        ensures
            r@ == Seq::<(Seq<u8>, Vote)>::empty(),
    {
        let r = Ledger { pairs: Vec::new() };
        proof {
            assert(r@ =~= Seq::<(Seq<u8>, Vote)>::empty());
        }
        r
    }
}

} // verus!
