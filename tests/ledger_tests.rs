use campus_store::counters::{load_counter, open_counters, restart_counters, save_counter};
use campus_store::error::StoreError;
use campus_store::identity::Identity;
use campus_store::ids::IdAllocator;
use campus_store::ledger::{Ledger, RewardPayload, TransactionType};

fn who(b: u8) -> Identity {
    Identity::from_bytes(&[b, 1, 2])
}

fn payload(user: Identity, amount: u64) -> RewardPayload {
    RewardPayload {
        user,
        transaction_type: TransactionType::Bonus,
        amount,
        description: "bonus".to_string(),
        related_id: None,
    }
}

#[test]
fn ids_strictly_increase_across_restart() {
    let mut ids = IdAllocator::new();
    let mut last = 0u64;
    for _ in 0..5000 {
        let id = ids.allocate();
        assert!(id > last);
        last = id;
    }
    let mut resumed = IdAllocator::restore(ids.saved());
    for _ in 0..5000 {
        let id = resumed.allocate();
        assert!(id > last);
        last = id;
    }
    assert_eq!(last, 10_000);
}

#[test]
fn reward_credits_balance_and_history() {
    let admin = who(9);
    let a = who(1);
    let b = who(2);
    let mut l = Ledger::new();
    let t1 = l.reward_user(&admin, 100, payload(a, 10)).unwrap();
    assert_eq!(t1.id, 1);
    assert_eq!(t1.timestamp, 100);
    l.reward_user(&admin, 101, payload(b, 7)).unwrap();
    l.reward_user(&admin, 102, payload(a, 5)).unwrap();
    assert_eq!(l.get_balance(&a), 15);
    assert_eq!(l.get_balance(&b), 7);
    assert_eq!(l.get_balance(&who(3)), 0);
    let h = l.get_user_transactions(&a);
    assert_eq!(h.len(), 2);
    let sum: u64 = h.iter().map(|t| t.amount).sum();
    assert_eq!(sum, l.get_balance(&a));
    assert_eq!(l.get_total_tokens_distributed(), 22);
}

#[test]
fn anonymous_cannot_reward() {
    let mut l = Ledger::new();
    let r = l.reward_user(&Identity::anonymous(), 1, payload(who(1), 5));
    assert_eq!(r.unwrap_err(), StoreError::Unauthorized);
    assert_eq!(l.get_balance(&who(1)), 0);
}

#[test]
fn reward_overflow_is_refused() {
    let admin = who(9);
    let mut l = Ledger::new();
    l.reward_user(&admin, 1, payload(who(1), u64::MAX)).unwrap();
    let r = l.reward_user(&admin, 2, payload(who(2), 1));
    assert_eq!(r.unwrap_err(), StoreError::Overflow);
    assert_eq!(l.get_balance(&who(2)), 0);
}

#[test]
fn leaderboard_top_three_with_tie() {
    let admin = who(9);
    let mut l = Ledger::new();
    l.reward_user(&admin, 1, payload(who(1), 10)).unwrap();
    l.reward_user(&admin, 2, payload(who(2), 30)).unwrap();
    l.reward_user(&admin, 3, payload(who(3), 30)).unwrap();
    l.reward_user(&admin, 4, payload(who(4), 5)).unwrap();
    let board = l.get_leaderboard(3);
    assert_eq!(board.len(), 3);
    assert_eq!(board[0].user, who(2));
    assert_eq!(board[0].balance, 30);
    assert_eq!(board[0].rank, 1);
    assert_eq!(board[1].user, who(3));
    assert_eq!(board[1].balance, 30);
    assert_eq!(board[1].rank, 2);
    assert_eq!(board[2].user, who(1));
    assert_eq!(board[2].balance, 10);
    assert_eq!(board[2].rank, 3);
    assert_eq!(l.get_leaderboard(3), board);
    assert_eq!(l.get_leaderboard(10).len(), 4);
    assert_eq!(l.get_leaderboard(0).len(), 0);
}

#[test]
fn transaction_history_latest_first() {
    let admin = who(9);
    let mut l = Ledger::new();
    l.reward_user(&admin, 5, payload(who(1), 1)).unwrap();
    l.reward_user(&admin, 9, payload(who(1), 2)).unwrap();
    l.reward_user(&admin, 7, payload(who(1), 3)).unwrap();
    let h = l.get_transaction_history(2);
    assert_eq!(h.len(), 2);
    assert_eq!(h[0].timestamp, 9);
    assert_eq!(h[1].timestamp, 7);
}

#[test]
fn fixed_rewards_use_their_amounts() {
    let admin = who(9);
    let u = who(1);
    let mut l = Ledger::new();
    let t = l.reward_course_completion(&admin, 1, u, 42).unwrap();
    assert_eq!(t.amount, 50);
    assert_eq!(t.related_id, Some(42));
    assert_eq!(t.description, "Course completion reward");
    assert_eq!(t.transaction_type, TransactionType::CourseCompletion);
    let t = l.reward_lesson_completion(&admin, 2, u, 42, 7).unwrap();
    assert_eq!(t.amount, 5);
    assert_eq!(t.related_id, Some(7));
    assert_eq!(t.description, "Lesson completion reward");
    let t = l.reward_community_help(&admin, 3, u, 11).unwrap();
    assert_eq!(t.amount, 10);
    assert_eq!(t.related_id, Some(11));
    assert_eq!(t.description, "Community help reward");
    assert_eq!(l.get_balance(&u), 65);
}

#[test]
fn counters_survive_a_restart() {
    let mut cells = open_counters();
    let mut ids = load_counter(&cells, 3);
    assert_eq!(ids.last, 0);
    let mut last = 0u64;
    for _ in 0..5000 {
        let id = ids.allocate();
        assert!(id > last);
        last = id;
        save_counter(&mut cells, 3, &ids);
    }
    let other = load_counter(&cells, 4);
    assert_eq!(other.last, 0);
    let cells = restart_counters(cells);
    let mut resumed = load_counter(&cells, 3);
    assert_eq!(resumed.last, 5000);
    for _ in 0..5000 {
        let id = resumed.allocate();
        assert!(id > last);
        last = id;
    }
    assert_eq!(last, 10_000);
}

#[test]
fn equal_timestamps_keep_ledger_order() {
    let admin = who(9);
    let mut l = Ledger::new();
    l.reward_user(&admin, 3, payload(who(1), 1)).unwrap();
    l.reward_user(&admin, 3, payload(who(2), 2)).unwrap();
    let h = l.get_transaction_history(5);
    let ids: Vec<u64> = h.iter().map(|t| t.id).collect();
    assert_eq!(ids, vec![1, 2]);
}
