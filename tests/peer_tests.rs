use campus_store::error::StoreError;
use campus_store::groups::{CreateStudyGroupPayload, GroupStore};
use campus_store::identity::Identity;
use campus_store::peer::{CreateAnswerPayload, CreateQuestionPayload, PeerStore};

fn who(b: u8) -> Identity {
    Identity::from_bytes(&[b, 7])
}

fn question(title: &str, tags: &[&str]) -> CreateQuestionPayload {
    CreateQuestionPayload {
        title: title.to_string(),
        content: "body".to_string(),
        tags: tags.iter().map(|t| t.to_string()).collect(),
    }
}

fn group(max_members: u32, is_public: bool) -> CreateStudyGroupPayload {
    CreateStudyGroupPayload {
        name: "algebra".to_string(),
        description: "weekly".to_string(),
        tags: vec!["math".to_string()],
        max_members,
        is_public,
    }
}

#[test]
fn created_question_reads_back() {
    let mut s = PeerStore::new();
    let q = s.create_question(&who(1), 10, question("why", &["rust", "verus"])).unwrap();
    assert_eq!(q.id, 1);
    assert_eq!(q.votes, 0);
    assert_eq!(q.answer_count, 0);
    let got = s.get_question(q.id).unwrap();
    assert_eq!(got.title, q.title);
    assert_eq!(got.tags, q.tags);
    assert_eq!(got.author, who(1));
    assert_eq!(got.created_at, 10);
    assert!(s.get_question(99).is_none());
}

#[test]
fn anonymous_cannot_ask() {
    let mut s = PeerStore::new();
    let r = s.create_question(&Identity::anonymous(), 1, question("x", &[]));
    assert_eq!(r.unwrap_err(), StoreError::Unauthorized);
    assert!(s.get_question(1).is_none());
}

#[test]
fn repeated_upvote_conflicts() {
    let mut s = PeerStore::new();
    let q = s.create_question(&who(1), 1, question("q", &[])).unwrap();
    let after = s.vote_question(&who(2), 2, q.id, true).unwrap();
    assert_eq!(after.votes, 1);
    let r = s.vote_question(&who(2), 3, q.id, true);
    assert_eq!(r.unwrap_err(), StoreError::Conflict);
    assert_eq!(s.get_question(q.id).unwrap().votes, 1);
}

#[test]
fn up_then_down_moves_tally_to_minus_one() {
    let mut s = PeerStore::new();
    let q = s.create_question(&who(1), 1, question("q", &[])).unwrap();
    assert_eq!(s.vote_question(&who(2), 2, q.id, true).unwrap().votes, 1);
    let down = s.vote_question(&who(2), 3, q.id, false).unwrap();
    assert_eq!(down.votes, -1);
    assert_eq!(down.updated_at, 3);
    assert_eq!(s.vote_question(&who(3), 4, q.id, false).unwrap().votes, -2);
}

#[test]
fn vote_on_missing_target_is_not_found() {
    let mut s = PeerStore::new();
    assert_eq!(s.vote_question(&who(2), 1, 5, true).unwrap_err(), StoreError::NotFound);
    assert_eq!(s.vote_answer(&who(2), 1, 5, true).unwrap_err(), StoreError::NotFound);
    assert_eq!(
        s.vote_answer(&Identity::anonymous(), 1, 5, true).unwrap_err(),
        StoreError::Unauthorized
    );
}

#[test]
fn answer_votes_reconcile() {
    let mut s = PeerStore::new();
    let q = s.create_question(&who(1), 1, question("q", &[])).unwrap();
    let a = s
        .create_answer(&who(2), 2, CreateAnswerPayload { question_id: q.id, content: "a".to_string() })
        .unwrap();
    assert_eq!(s.vote_answer(&who(3), 3, a.id, false).unwrap().votes, -1);
    assert_eq!(s.vote_answer(&who(3), 4, a.id, true).unwrap().votes, 1);
    assert_eq!(s.vote_answer(&who(3), 5, a.id, true).unwrap_err(), StoreError::Conflict);
}

#[test]
fn answer_counts_on_its_question_only() {
    let mut s = PeerStore::new();
    let q1 = s.create_question(&who(1), 1, question("one", &[])).unwrap();
    let q2 = s.create_question(&who(1), 2, question("two", &[])).unwrap();
    let a = s
        .create_answer(&who(2), 5, CreateAnswerPayload { question_id: q1.id, content: "yes".to_string() })
        .unwrap();
    assert_eq!(a.id, 1);
    assert_eq!(a.question_id, q1.id);
    let g1 = s.get_question(q1.id).unwrap();
    assert_eq!(g1.answer_count, 1);
    assert_eq!(g1.updated_at, 5);
    assert_eq!(s.get_question(q2.id).unwrap().answer_count, 0);
    let r = s.create_answer(&who(2), 6, CreateAnswerPayload { question_id: 77, content: "no".to_string() });
    assert_eq!(r.unwrap_err(), StoreError::NotFound);
    assert_eq!(s.get_answers_for_question(q1.id).len(), 1);
    assert_eq!(s.get_answers_for_question(q2.id).len(), 0);
}

#[test]
fn questions_by_tag_and_newest_first() {
    let mut s = PeerStore::new();
    s.create_question(&who(1), 5, question("a", &["rust"])).unwrap();
    s.create_question(&who(1), 9, question("b", &["go"])).unwrap();
    s.create_question(&who(1), 7, question("c", &["rust", "go"])).unwrap();
    let rust = s.get_questions_by_tag(&"rust".to_string());
    assert_eq!(rust.len(), 2);
    assert_eq!(rust[0].title, "a");
    assert_eq!(rust[1].title, "c");
    let all = s.get_all_questions();
    let titles: Vec<&str> = all.iter().map(|q| q.title.as_str()).collect();
    assert_eq!(titles, vec!["b", "c", "a"]);
}

#[test]
fn full_group_refuses_and_member_twice_conflicts() {
    let mut g = GroupStore::new();
    let sg = g.create_study_group(&who(1), 1, group(2, true)).unwrap();
    assert_eq!(sg.member_count, 1);
    assert_eq!(g.join_study_group(&who(1), 2, sg.id).unwrap_err(), StoreError::Conflict);
    let m = g.join_study_group(&who(2), 3, sg.id).unwrap();
    assert!(!m.is_moderator);
    assert_eq!(g.get_study_group(sg.id).unwrap().member_count, 2);
    assert_eq!(g.join_study_group(&who(3), 4, sg.id).unwrap_err(), StoreError::CapacityExceeded);
    assert_eq!(g.join_study_group(&who(2), 4, sg.id).unwrap_err(), StoreError::CapacityExceeded);
    assert_eq!(g.get_study_group(sg.id).unwrap().member_count, 2);
    assert_eq!(g.join_study_group(&who(2), 5, 99).unwrap_err(), StoreError::NotFound);
}

#[test]
fn joining_twice_conflicts() {
    let mut g = GroupStore::new();
    let sg = g.create_study_group(&who(1), 1, group(10, true)).unwrap();
    g.join_study_group(&who(2), 2, sg.id).unwrap();
    assert_eq!(g.join_study_group(&who(2), 3, sg.id).unwrap_err(), StoreError::Conflict);
    assert_eq!(g.get_study_group(sg.id).unwrap().member_count, 2);
}

#[test]
fn group_listings() {
    let mut g = GroupStore::new();
    let open = g.create_study_group(&who(1), 1, group(5, true)).unwrap();
    let closed = g.create_study_group(&who(2), 2, group(5, false)).unwrap();
    g.join_study_group(&who(3), 3, closed.id).unwrap();
    g.join_study_group(&who(3), 4, open.id).unwrap();
    let public: Vec<u64> = g.get_all_study_groups().iter().map(|x| x.id).collect();
    assert_eq!(public, vec![open.id]);
    let mine: Vec<u64> = g.get_user_study_groups(&who(3)).iter().map(|x| x.id).collect();
    assert_eq!(mine, vec![closed.id, open.id]);
    assert_eq!(
        g.create_study_group(&Identity::anonymous(), 5, group(5, true)).unwrap_err(),
        StoreError::Unauthorized
    );
}

#[test]
fn equal_creation_times_keep_posting_order() {
    let mut s = PeerStore::new();
    s.create_question(&who(1), 4, question("first", &[])).unwrap();
    s.create_question(&who(1), 4, question("second", &[])).unwrap();
    s.create_question(&who(1), 6, question("third", &[])).unwrap();
    let titles: Vec<String> = s.get_all_questions().into_iter().map(|q| q.title).collect();
    assert_eq!(titles, vec!["third".to_string(), "first".to_string(), "second".to_string()]);
}
