use post_votes::service::Service;
use post_votes::types::{Post, Vote, VoteError, VoterId};

fn voter(tag: u8) -> VoterId {
    VoterId::from_bytes(vec![tag, 7, 7]).expect("short identity")
}

#[test]
fn scenario_upvote_duplicate_then_retract() {
    let mut s = Service::new(true);
    let v1 = voter(1);
    let prev = s
        .insert(&v1, Post { id: 1, content: String::from("hello"), votes: 0 })
        .expect("authorized insert");
    assert!(prev.is_none());

    let p = s.vote(&v1, 1, Vote::Up).expect("first up-vote");
    assert_eq!(p.votes, 1);

    let again = s.vote(&v1, 1, Vote::Up);
    assert_eq!(again.unwrap_err(), VoteError::DuplicateVote);
    assert_eq!(s.get(1).expect("post still there").votes, 1);

    let p = s.vote(&v1, 1, Vote::Down).expect("retraction");
    assert_eq!(p.votes, 0);
    let entry = s.get_entry(1);
    assert!(entry.pairs.iter().all(|(id, _)| !id.same(&v1)));
    assert_eq!(entry.pairs.len(), 0);
}

#[test]
fn scenario_two_independent_voters() {
    let mut s = Service::new(true);
    let v1 = voter(1);
    let v2 = voter(2);
    s.insert(&v1, Post { id: 7, content: String::from("post"), votes: 0 })
        .expect("authorized insert");

    let p = s.vote(&v1, 7, Vote::Up).expect("v1 up");
    assert_eq!(p.votes, 1);
    let p = s.vote(&v2, 7, Vote::Down).expect("v2 down");
    assert_eq!(p.votes, 0);

    assert_eq!(s.get(7).unwrap().votes, 0);
    assert_eq!(s.get_entry(7).pairs.len(), 2);
}

#[test]
fn scenario_vote_on_missing_post() {
    let mut s = Service::new(true);
    let v1 = voter(1);
    let r = s.vote(&v1, 999, Vote::Up);
    assert_eq!(r.unwrap_err(), VoteError::NotFound);
}

#[test]
fn scenario_anonymous_rejected() {
    let mut s = Service::new(false);
    let anon = VoterId::anonymous();
    let r = s.insert(&anon, Post { id: 1, content: String::from("x"), votes: 0 });
    assert_eq!(r.unwrap_err(), VoteError::Unauthorized);
    assert!(s.get(1).is_none());

    let named = voter(9);
    assert!(s.insert(&named, Post { id: 1, content: String::from("x"), votes: 0 }).is_ok());
    assert!(s.get(1).is_some());
}

#[test]
fn insert_then_get_round_trip() {
    let mut s = Service::new(true);
    let v1 = voter(1);
    let content = String::from("h\u{e9}llo \u{2603}");
    s.insert(&v1, Post { id: 42, content: content.clone(), votes: -3 })
        .expect("authorized insert");
    let got = s.get(42).expect("stored post");
    assert_eq!(got.id, 42);
    assert_eq!(got.content, content);
    assert_eq!(got.votes, -3);
}

#[test]
fn insert_returns_previous_record() {
    let mut s = Service::new(true);
    let v1 = voter(1);
    s.insert(&v1, Post { id: 3, content: String::from("old"), votes: 1 }).unwrap();
    let prev = s
        .insert(&v1, Post { id: 3, content: String::from("new"), votes: 2 })
        .unwrap()
        .expect("previous record");
    assert_eq!(prev.content, "old");
    assert_eq!(prev.votes, 1);
    assert_eq!(s.get(3).unwrap().content, "new");
}

#[test]
fn remove_cascades_to_ledger() {
    let mut s = Service::new(true);
    let v1 = voter(1);
    s.insert(&v1, Post { id: 5, content: String::from("bye"), votes: 0 }).unwrap();
    s.vote(&v1, 5, Vote::Up).unwrap();
    assert_eq!(s.get_entry(5).pairs.len(), 1);

    let removed = s.remove(&v1, 5).expect("authorized remove").expect("prior post");
    assert_eq!(removed.content, "bye");
    assert!(s.get(5).is_none());
    assert_eq!(s.get_entry(5).pairs.len(), 0);

    let missing = s.remove(&v1, 5).expect("authorized remove");
    assert!(missing.is_none());
}

#[test]
fn oversized_content_is_encoding_error() {
    let mut s = Service::new(true);
    let v1 = voter(1);
    // A record is 8 bytes of header plus the content bytes; 93 bytes of
    // content exceed the 100-byte record bound, 92 still fit.
    let too_long = "a".repeat(93);
    let r = s.insert(&v1, Post { id: 1, content: too_long, votes: 0 });
    assert_eq!(r.unwrap_err(), VoteError::EncodingError);
    assert!(s.get(1).is_none());

    let just_fits = "a".repeat(92);
    assert!(s.insert(&v1, Post { id: 1, content: just_fits, votes: 0 }).is_ok());
    assert_eq!(s.get(1).unwrap().content.len(), 92);
}

#[test]
fn score_overflow_is_encoding_error_and_atomic() {
    let mut s = Service::new(true);
    let v1 = voter(1);
    s.insert(&v1, Post { id: 1, content: String::new(), votes: i32::MAX }).unwrap();
    let r = s.vote(&v1, 1, Vote::Up);
    assert_eq!(r.unwrap_err(), VoteError::EncodingError);
    // The failed request mutated neither the score nor the ledger.
    assert_eq!(s.get(1).unwrap().votes, i32::MAX);
    assert_eq!(s.get_entry(1).pairs.len(), 0);

    s.insert(&v1, Post { id: 2, content: String::new(), votes: i32::MIN }).unwrap();
    let r = s.vote(&v1, 2, Vote::Down);
    assert_eq!(r.unwrap_err(), VoteError::EncodingError);
    assert_eq!(s.get(2).unwrap().votes, i32::MIN);
}

#[test]
fn full_ledger_is_encoding_error_and_atomic() {
    let mut s = Service::new(true);
    let admin = voter(1);
    s.insert(&admin, Post { id: 1, content: String::new(), votes: 0 }).unwrap();
    // Identities of 29 bytes give 31-byte ledger frames: three fit in the
    // 100-byte record, a fourth would not.
    for tag in 0..3u8 {
        let big = VoterId::from_bytes(vec![tag; 29]).unwrap();
        s.vote(&big, 1, Vote::Up).expect("ledger still fits");
    }
    let fourth = VoterId::from_bytes(vec![9; 29]).unwrap();
    let r = s.vote(&fourth, 1, Vote::Up);
    assert_eq!(r.unwrap_err(), VoteError::EncodingError);
    assert_eq!(s.get_entry(1).pairs.len(), 3);
    assert_eq!(s.get(1).unwrap().votes, 3);
}

#[test]
fn opposite_vote_retracts_instead_of_flipping() {
    let mut s = Service::new(true);
    let v1 = voter(1);
    s.insert(&v1, Post { id: 1, content: String::from("t"), votes: 0 }).unwrap();
    s.vote(&v1, 1, Vote::Up).unwrap();
    let p = s.vote(&v1, 1, Vote::Down).unwrap();
    // Toggle semantics: the opposite direction retracts, it does not flip.
    assert_eq!(p.votes, 0);
    assert_eq!(s.get_entry(1).pairs.len(), 0);
}

#[test]
fn same_direction_after_retraction_succeeds() {
    let mut s = Service::new(true);
    let v1 = voter(1);
    s.insert(&v1, Post { id: 1, content: String::from("t"), votes: 0 }).unwrap();
    s.vote(&v1, 1, Vote::Down).unwrap();
    // This Up retracts the Down; it is not a duplicate of anything.
    let p = s.vote(&v1, 1, Vote::Up).unwrap();
    assert_eq!(p.votes, 0);
    // Holding no vote any more, the same direction is a fresh vote.
    let p = s.vote(&v1, 1, Vote::Up).unwrap();
    assert_eq!(p.votes, 1);
}

#[test]
fn get_posts_lists_all_in_key_order() {
    let mut s = Service::new(true);
    let v1 = voter(1);
    for (id, content) in [(5u32, "five"), (1, "one"), (3, "three")] {
        s.insert(&v1, Post { id, content: String::from(content), votes: 0 }).unwrap();
    }
    let all = s.get_posts();
    let ids: Vec<u32> = all.iter().map(|p| p.id).collect();
    assert_eq!(ids, vec![1, 3, 5]);
    assert_eq!(all[0].content, "one");
    assert_eq!(all[2].content, "five");
    assert!(Service::new(true).get_posts().is_empty());
}

#[test]
fn policy_query_and_guard() {
    let open_service = Service::new(true);
    assert!(open_service.is_anonymous_allowed());
    assert!(open_service.is_authorized(&VoterId::anonymous()).is_ok());

    let closed_service = Service::new(false);
    assert!(!closed_service.is_anonymous_allowed());
    assert_eq!(
        closed_service.is_authorized(&VoterId::anonymous()).unwrap_err(),
        VoteError::Unauthorized
    );
    assert!(closed_service.is_authorized(&voter(4)).is_ok());
}

#[test]
fn voter_identity_bounds_and_comparison() {
    assert!(VoterId::from_bytes(vec![0; 29]).is_some());
    assert!(VoterId::from_bytes(vec![0; 30]).is_none());
    assert!(VoterId::from_bytes(Vec::new()).is_some());

    let anon = VoterId::anonymous();
    assert!(anon.is_anonymous());
    assert_eq!(anon.to_bytes(), vec![4u8]);
    assert!(!voter(4).is_anonymous());
    assert!(anon.same(&VoterId::anonymous()));
    assert!(!anon.same(&voter(4)));
}
