use vstd::prelude::*;
use crate::error::StoreError;
use crate::identity::{anonymous_identity, Identity};
use crate::ids::IdAllocator;
use crate::ranking::{is_rank_prefix, min_nat, rank_order};
use crate::index::OwnerIndex;
use crate::table::{
    lemma_filter_member, lemma_filter_push, lemma_lookup_at, lemma_lookup_push, lemma_lookup_update,
    Record, Table,
};

verus! {

/// Reward amount for finishing a course.
pub const COURSE_COMPLETION_REWARD: u64 = 50;

/// Reward amount for finishing a lesson.
pub const LESSON_COMPLETION_REWARD: u64 = 5;

/// Reward amount for helping another learner.
pub const COMMUNITY_HELP_REWARD: u64 = 10;

/// Why tokens were granted.
#[derive(Clone, Copy, Debug, PartialEq, Eq, Structural)]
pub enum TransactionType {
    CourseCompletion,
    LessonCompletion,
    CommunityHelp,
    QuestionAnswer,
    StudyGroupParticipation,
    Bonus,
}

/// One entry of the append-only ledger: a credit of `amount` tokens to `user`.
#[derive(Clone, Debug)]
pub struct Transaction {
    pub id: u64,
    pub user: Identity,
    pub transaction_type: TransactionType,
    pub amount: u64,
    pub description: String,
    pub timestamp: u64,
    /// The course, lesson or question the reward is for.
    pub related_id: Option<u64>,
}

#[derive(Clone, Debug)]
pub struct RewardPayload {
    pub user: Identity,
    pub transaction_type: TransactionType,
    pub amount: u64,
    pub description: String,
    pub related_id: Option<u64>,
}

#[derive(Clone, Copy, Debug, PartialEq, Eq, Structural)]
pub struct LeaderboardEntry {
    pub user: Identity,
    pub balance: u64,
    pub rank: u32,
}

/// The materialized balance of one account.
#[derive(Clone, Copy, Debug, PartialEq, Eq, Structural)]
pub struct Account {
    pub user: Identity,
    pub balance: u64,
}

impl Record for Transaction {
    type Key = u64;

    open spec fn key(&self) -> u64 {
        self.id
    }

    fn has_key(&self, k: &u64) -> (r: bool) {
        self.id == *k
    }

    open spec fn same(&self, other: &Self) -> bool {
        *self == *other
    }

    fn duplicate(&self) -> (r: Self) {
        Transaction {
            id: self.id,
            user: self.user,
            transaction_type: self.transaction_type,
            amount: self.amount,
            description: self.description.clone(),
            timestamp: self.timestamp,
            related_id: self.related_id,
        }
    }
}

impl Record for Account {
    type Key = Identity;

    open spec fn key(&self) -> Identity {
        self.user
    }

    fn has_key(&self, k: &Identity) -> (r: bool) {
        self.user == *k
    }

    open spec fn same(&self, other: &Self) -> bool {
        *self == *other
    }

    fn duplicate(&self) -> (r: Self) {
        *self
    }
}

/// Sum of the amounts credited to `a` in `txs`.
pub open spec fn sum_for(txs: Seq<Transaction>, a: Identity) -> nat
    decreases txs.len(),
{
    if txs.len() == 0 {
        0
    } else {
        sum_for(txs.drop_last(), a) + if txs.last().user == a {
            txs.last().amount as nat
        } else {
            0
        }
    }
}

/// Sum of all amounts in `txs`.
pub open spec fn sum_all(txs: Seq<Transaction>) -> nat
    decreases txs.len(),
{
    if txs.len() == 0 {
        0
    } else {
        sum_all(txs.drop_last()) + txs.last().amount as nat
    }
}

/// Sum of the amounts of `txs`, whoever they credit.
pub open spec fn sum_amounts(txs: Seq<Transaction>) -> nat
    decreases txs.len(),
{
    if txs.len() == 0 {
        0
    } else {
        sum_amounts(txs.drop_last()) + txs.last().amount as nat
    }
}

/// The entries of `txs` that credit `a`, in ledger order.
pub open spec fn history_in(txs: Seq<Transaction>, a: Identity) -> Seq<Transaction> {
    txs.filter(credits(a))
}

/// The identifiers of the transactions that credit `a`, in ledger order.
pub open spec fn history_ids(txs: Seq<Transaction>, a: Identity) -> Seq<u64> {
    history_in(txs, a).map_values(|t: Transaction| t.id)
}

/// The transaction credits `a`.
pub open spec fn credits(a: Identity) -> spec_fn(Transaction) -> bool {
    |t: Transaction| t.user == a
}

/// The transaction that `reward_user` appends.
pub open spec fn reward_entry(id: u64, now: u64, p: RewardPayload) -> Transaction {
    Transaction {
        id,
        user: p.user,
        transaction_type: p.transaction_type,
        amount: p.amount,
        description: p.description,
        timestamp: now,
        related_id: p.related_id,
    }
}

proof fn lemma_sum_push(txs: Seq<Transaction>, t: Transaction)
    ensures
        forall|a: Identity|
            #[trigger] sum_for(txs.push(t), a) == sum_for(txs, a) + if t.user == a {
                t.amount as nat
            } else {
                0
            },
        sum_all(txs.push(t)) == sum_all(txs) + t.amount as nat,
{
    assert(txs.push(t).drop_last() =~= txs);
}

proof fn lemma_sum_for_le_all(txs: Seq<Transaction>, a: Identity)
    ensures
        sum_for(txs, a) <= sum_all(txs),
    decreases txs.len(),
{
    if txs.len() > 0 {
        lemma_sum_for_le_all(txs.drop_last(), a);
    }
}

/// The ledger: transactions in the order they were made, and each account's
/// balance kept as their running sum.
pub struct Ledger {
    pub ids: IdAllocator,
    pub transactions: Table<Transaction>,
    pub accounts: Table<Account>,
    /// For each account, the identifiers of the transactions that credit it.
    pub by_user: OwnerIndex,
    /// Sum of all balances.
    pub total: u64,
}

impl Ledger {
    /// The balance stored for `a`.
    pub open spec fn stored_balance(&self, a: Identity) -> nat {
        match self.accounts.lookup(a) {
            Some(acc) => acc.balance as nat,
            None => 0,
        }
    }

    /// What `a` has been credited, by the log.
    pub open spec fn balance_of(&self, a: Identity) -> nat {
        sum_for(self.transactions@, a)
    }

    pub open spec fn history(&self, a: Identity) -> Seq<Transaction> {
        history_in(self.transactions@, a)
    }

    pub open spec fn wf(&self) -> bool {
        &&& self.transactions.wf()
        &&& self.accounts.wf()
        &&& forall|i: int|
            0 <= i < self.transactions@.len() ==> (#[trigger] self.transactions@[i]).id
                <= self.ids.last
        &&& forall|i: int, j: int|
            0 <= i < j < self.transactions@.len() ==> self.transactions@[i].id
                < self.transactions@[j].id
        &&& forall|a: Identity| #[trigger] self.stored_balance(a) == self.balance_of(a)
        &&& self.total == sum_all(self.transactions@)
        &&& self.by_user.wf()
        &&& forall|a: Identity| #[trigger] self.by_user.ids_of(a) == history_ids(self.transactions@, a)
    }

    /// An empty ledger.
    pub fn new() -> (r: Ledger)
        ensures
            r.wf(),
            r.transactions@ == Seq::<Transaction>::empty(),
            r.ids.last == 0,
    {
        let l = Ledger {
            ids: IdAllocator::new(),
            transactions: Table::new(),
            accounts: Table::new(),
            by_user: OwnerIndex::new(),
            total: 0,
        };
        proof {
            reveal(Seq::filter);
            assert forall|a: Identity| #[trigger] l.by_user.ids_of(a) == history_ids(l.transactions@, a) by {
                assert(history_ids(l.transactions@, a) =~= Seq::<u64>::empty());
            }
        }
        l
    }

    /// Adds `amount` to the stored balance of `user`.
    fn credit(&mut self, user: &Identity, amount: u64)
        requires
            old(self).accounts.wf(),
            old(self).stored_balance(*user) + amount <= u64::MAX,
        ensures
            final(self).accounts.wf(),
            final(self).transactions == old(self).transactions,
            final(self).by_user == old(self).by_user,
            final(self).ids == old(self).ids,
            final(self).total == old(self).total,
            forall|a: Identity| #[trigger]
                final(self).stored_balance(a) == old(self).stored_balance(a) + if a == *user {
                    amount as nat
                } else {
                    0
                },
    {
        let ghost s = self.accounts@;
        match self.accounts.find(user) {
            Some(i) => {
                let cur = self.accounts.row(i).balance;
                let acc = Account { user: *user, balance: cur + amount };
                self.accounts.replace(i, acc);
                proof {
                    assert forall|a: Identity| #[trigger]
                        crate::table::lookup_in(self.accounts@, a) == if a == *user {
                            Some(acc)
                        } else {
                            crate::table::lookup_in(s, a)
                        } by {
                        lemma_lookup_update(s, i as int, acc, a);
                    }
                }
            },
            None => {
                let acc = Account { user: *user, balance: amount };
                self.accounts.insert(acc);
                proof {
                    assert forall|a: Identity| #[trigger]
                        crate::table::lookup_in(self.accounts@, a) == if a == *user {
                            Some(acc)
                        } else {
                            crate::table::lookup_in(s, a)
                        } by {
                        lemma_lookup_push(s, acc, a);
                    }
                }
            },
        }
    }

    /// Credits `payload.amount` tokens to `payload.user` and records the
    /// transaction. Refused for the anonymous caller, and where the tokens in
    /// circulation would pass the 64-bit bound.
    pub fn reward_user(&mut self, caller: &Identity, now: u64, payload: RewardPayload) -> (r: Result<
        Transaction,
        StoreError,
    >)
        requires
            old(self).wf(),
            old(self).ids.last < u64::MAX,
        ensures
            final(self).wf(),
            *caller == anonymous_identity() ==> r == Err::<Transaction, StoreError>(
                StoreError::Unauthorized,
            ) && *final(self) == *old(self),
            *caller != anonymous_identity() && old(self).total + payload.amount > u64::MAX ==> r
                == Err::<Transaction, StoreError>(StoreError::Overflow) && *final(self) == *old(self),
            *caller != anonymous_identity() && old(self).total + payload.amount <= u64::MAX ==> {
                let t = reward_entry((old(self).ids.last + 1) as u64, now, payload);
                &&& r == Ok::<Transaction, StoreError>(t)
                &&& final(self).transactions@ == old(self).transactions@.push(t)
                &&& final(self).ids.last == old(self).ids.last + 1
                &&& final(self).total == old(self).total + payload.amount
            },
    {
        if caller.is_anonymous() {
            return Err(StoreError::Unauthorized);
        }
        if payload.amount > u64::MAX - self.total {
            return Err(StoreError::Overflow);
        }
        let ghost old_txs = self.transactions@;
        proof {
            lemma_sum_for_le_all(old_txs, payload.user);
            assert(self.stored_balance(payload.user) == self.balance_of(payload.user));
        }
        let id = self.ids.allocate();
        let tx = Transaction {
            id,
            user: payload.user,
            transaction_type: payload.transaction_type,
            amount: payload.amount,
            description: payload.description,
            timestamp: now,
            related_id: payload.related_id,
        };
        let ghost before = *self;
        self.credit(&payload.user, payload.amount);
        let ghost credited = *self;
        self.total = self.total + payload.amount;
        self.transactions.insert(tx.duplicate());
        let ghost filed = self.by_user;
        self.by_user.append(&payload.user, id);
        proof {
            assert forall|a: Identity| #[trigger] self.by_user.ids_of(a) == history_ids(self.transactions@, a) by {
                lemma_filter_push(old_txs, tx, credits(a));
                assert(filed.ids_of(a) == history_ids(old_txs, a));
                if a == payload.user {
                    assert(history_in(self.transactions@, a) == history_in(old_txs, a).push(tx));
                    assert(history_ids(self.transactions@, a) =~= history_ids(old_txs, a).push(id));
                }
            }
            lemma_sum_push(old_txs, tx);
            assert(self.transactions@ == old_txs.push(tx));
            assert forall|a: Identity| #[trigger] self.stored_balance(a) == self.balance_of(a) by {
                assert(old(self).stored_balance(a) == old(self).balance_of(a));
                assert(before.stored_balance(a) == old(self).stored_balance(a));
                assert(self.accounts == credited.accounts);
                assert(self.stored_balance(a) == credited.stored_balance(a));
                assert(sum_for(old_txs.push(tx), a) == sum_for(old_txs, a) + if tx.user == a {
                    tx.amount as nat
                } else {
                    0
                });
            }
            assert forall|i: int| 0 <= i < self.transactions@.len() implies (
            #[trigger] self.transactions@[i]).id <= self.ids.last by {
                if i < old_txs.len() {
                    assert(self.transactions@[i] == old_txs[i]);
                }
            }
        }
        Ok(tx)
    }

    /// The balance of `user`: the sum of what its transactions credited.
    pub fn get_balance(&self, user: &Identity) -> (r: u64)
        requires
            self.wf(),
        ensures
            r == self.balance_of(*user),
    {
        proof {
            assert(self.stored_balance(*user) == self.balance_of(*user));
        }
        match self.accounts.find(user) {
            Some(i) => self.accounts.row(i).balance,
            None => 0,
        }
    }

    /// The transactions that credited `user`, oldest first, found through
    /// the account index.
    pub fn get_user_transactions(&self, user: &Identity) -> (r: Vec<Transaction>)
        requires
            self.wf(),
        ensures
            r@ == self.history(*user),
    {
        let ids = self.by_user.lookup(user);
        let ghost h = self.history(*user);
        let mut out: Vec<Transaction> = Vec::new();
        let mut k: usize = 0;
        while k < ids.len()
            invariant
                self.wf(),
                h == self.history(*user),
                ids@ == h.map_values(|t: Transaction| t.id),
                k <= ids@.len(),
                out@ == h.subrange(0, k as int),
            decreases ids@.len() - k,
        {
            proof {
                lemma_filter_member(self.transactions@, credits(*user), k as int);
                let j = choose|j: int|
                    0 <= j < self.transactions@.len() && self.transactions@[j] == h[k as int];
                lemma_lookup_at(self.transactions@, j);
            }
            match self.transactions.get(&ids[k]) {
                Some(t) => {
                    out.push(t);
                },
                None => {},
            }
            proof {
                assert(out@ =~= h.subrange(0, k + 1));
            }
            k = k + 1;
        }
        proof {
            assert(h.subrange(0, k as int) =~= h);
        }
        out
    }

    /// Tokens handed out so far, over all accounts.
    pub fn get_total_tokens_distributed(&self) -> (r: u64)
        requires
            self.wf(),
        ensures
            r == sum_all(self.transactions@),
    {
        self.total
    }

    /// The `limit` richest accounts, richest first, ranked from 1. Equal
    /// balances keep the order in which the accounts were first credited.
    pub fn get_leaderboard(&self, limit: u32) -> (r: Vec<LeaderboardEntry>)
        requires
            self.wf(),
        ensures
            exists|idx: Seq<usize>|
                is_rank_prefix(
                    balances_in(self.accounts@),
                    idx,
                    min_nat(limit as nat, self.accounts@.len()),
                ) && r@ == ranked_entries(self.accounts@, idx),
    {
        let mut scores: Vec<u64> = Vec::new();
        let mut i: usize = 0;
        while i < self.accounts.len()
            invariant
                i <= self.accounts@.len(),
                scores@ == balances_in(self.accounts@).subrange(0, i as int),
            decreases self.accounts@.len() - i,
        {
            scores.push(self.accounts.row(i).balance);
            i = i + 1;
        }
        proof {
            assert(scores@ =~= balances_in(self.accounts@));
        }
        let order = rank_order(&scores, limit as usize);
        let mut out: Vec<LeaderboardEntry> = Vec::new();
        let mut r: usize = 0;
        while r < order.len()
            invariant
                r <= order@.len(),
                order@.len() <= limit,
                scores@ == balances_in(self.accounts@),
                forall|q: int| 0 <= q < order@.len() ==> order@[q] < scores@.len(),
                out@ == ranked_entries(self.accounts@, order@).subrange(0, r as int),
            decreases order@.len() - r,
        {
            let acc = self.accounts.row(order[r]);
            out.push(LeaderboardEntry { user: acc.user, balance: acc.balance, rank: (r + 1) as u32 });
            r = r + 1;
        }
        proof {
            assert(out@ =~= ranked_entries(self.accounts@, order@));
        }
        out
    }

    /// The `limit` latest transactions by timestamp, latest first; equal
    /// timestamps keep ledger order.
    pub fn get_transaction_history(&self, limit: u32) -> (r: Vec<Transaction>)
        requires
            self.wf(),
        ensures
            exists|idx: Seq<usize>|
                is_rank_prefix(
                    timestamps_in(self.transactions@),
                    idx,
                    min_nat(limit as nat, self.transactions@.len()),
                ) && r@ == Seq::new(idx.len(), |q: int| self.transactions@[idx[q] as int]),
    {
        let mut stamps: Vec<u64> = Vec::new();
        let mut i: usize = 0;
        while i < self.transactions.len()
            invariant
                i <= self.transactions@.len(),
                stamps@ == timestamps_in(self.transactions@).subrange(0, i as int),
            decreases self.transactions@.len() - i,
        {
            stamps.push(self.transactions.row(i).timestamp);
            i = i + 1;
        }
        proof {
            assert(stamps@ =~= timestamps_in(self.transactions@));
        }
        let order = rank_order(&stamps, limit as usize);
        let mut out: Vec<Transaction> = Vec::new();
        let mut r: usize = 0;
        while r < order.len()
            invariant
                r <= order@.len(),
                stamps@ == timestamps_in(self.transactions@),
                forall|q: int| 0 <= q < order@.len() ==> order@[q] < stamps@.len(),
                out@ == Seq::new(order@.len(), |q: int| self.transactions@[order@[q] as int]).subrange(
                    0,
                    r as int,
                ),
            decreases order@.len() - r,
        {
            let t = self.transactions.row(order[r]).duplicate();
            out.push(t);
            r = r + 1;
        }
        proof {
            assert(out@ =~= Seq::new(order@.len(), |q: int| self.transactions@[order@[q] as int]));
        }
        out
    }

    /// Grants the course-completion reward to `user`.
    pub fn reward_course_completion(&mut self, caller: &Identity, now: u64, user: Identity, course_id: u64) -> (r: Result<
        Transaction,
        StoreError,
    >)
        requires
            old(self).wf(),
            old(self).ids.last < u64::MAX,
        ensures
            fixed_reward(*old(self), *final(self), *caller, now, user, TransactionType::CourseCompletion,
                COURSE_COMPLETION_REWARD, "Course completion reward"@, Some(course_id), r),
    {
        let payload = RewardPayload {
            user,
            transaction_type: TransactionType::CourseCompletion,
            amount: COURSE_COMPLETION_REWARD,
            description: "Course completion reward".to_owned(),
            related_id: Some(course_id),
        };
        self.reward_user(caller, now, payload)
    }

    /// Grants the lesson-completion reward to `user`; the transaction refers
    /// to the lesson.
    pub fn reward_lesson_completion(&mut self, caller: &Identity, now: u64, user: Identity, course_id: u64, lesson_id: u64) -> (r: Result<
        Transaction,
        StoreError,
    >)
        requires
            old(self).wf(),
            old(self).ids.last < u64::MAX,
        ensures
            fixed_reward(*old(self), *final(self), *caller, now, user, TransactionType::LessonCompletion,
                LESSON_COMPLETION_REWARD, "Lesson completion reward"@, Some(lesson_id), r),
    {
        let payload = RewardPayload {
            user,
            transaction_type: TransactionType::LessonCompletion,
            amount: LESSON_COMPLETION_REWARD,
            description: "Lesson completion reward".to_owned(),
            related_id: Some(lesson_id),
        };
        self.reward_user(caller, now, payload)
    }

    /// Grants the community-help reward to `user` for a question.
    pub fn reward_community_help(&mut self, caller: &Identity, now: u64, user: Identity, question_id: u64) -> (r: Result<
        Transaction,
        StoreError,
    >)
        requires
            old(self).wf(),
            old(self).ids.last < u64::MAX,
        ensures
            fixed_reward(*old(self), *final(self), *caller, now, user, TransactionType::CommunityHelp,
                COMMUNITY_HELP_REWARD, "Community help reward"@, Some(question_id), r),
    {
        let payload = RewardPayload {
            user,
            transaction_type: TransactionType::CommunityHelp,
            amount: COMMUNITY_HELP_REWARD,
            description: "Community help reward".to_owned(),
            related_id: Some(question_id),
        };
        self.reward_user(caller, now, payload)
    }
}

/// The balances of `accts`, in order.
pub open spec fn balances_in(accts: Seq<Account>) -> Seq<u64> {
    Seq::new(accts.len(), |i: int| accts[i].balance)
}

/// The timestamps of `txs`, in order.
pub open spec fn timestamps_in(txs: Seq<Transaction>) -> Seq<u64> {
    Seq::new(txs.len(), |i: int| txs[i].timestamp)
}

/// The leaderboard rows for the accounts at positions `idx`, ranked from 1.
pub open spec fn ranked_entries(accts: Seq<Account>, idx: Seq<usize>) -> Seq<LeaderboardEntry> {
    Seq::new(
        idx.len(),
        |q: int|
            LeaderboardEntry {
                user: accts[idx[q] as int].user,
                balance: accts[idx[q] as int].balance,
                rank: (q + 1) as u32,
            },
    )
}

/// Outcome of granting a fixed reward: refused for the anonymous caller or
/// on overflow, leaving the ledger as it was; else one transaction appended.
pub open spec fn fixed_reward(
    pre: Ledger,
    post: Ledger,
    caller: Identity,
    now: u64,
    user: Identity,
    kind: TransactionType,
    amount: u64,
    description: Seq<char>,
    related_id: Option<u64>,
    r: Result<Transaction, StoreError>,
) -> bool {
    &&& post.wf()
    &&& caller == anonymous_identity() ==> r == Err::<Transaction, StoreError>(
        StoreError::Unauthorized,
    ) && post == pre
    &&& caller != anonymous_identity() && pre.total + amount > u64::MAX ==> r == Err::<
        Transaction,
        StoreError,
    >(StoreError::Overflow) && post == pre
    &&& caller != anonymous_identity() && pre.total + amount <= u64::MAX ==> match r {
        Ok(t) => {
            &&& t.id == pre.ids.last + 1
            &&& t.user == user
            &&& t.transaction_type == kind
            &&& t.amount == amount
            &&& t.description@ == description
            &&& t.timestamp == now
            &&& t.related_id == related_id
            &&& post.transactions@ == pre.transactions@.push(t)
            &&& post.total == pre.total + amount
        },
        Err(_) => false,
    }
}

/// The sum credited to an account by the log is the sum of the amounts of
/// its history.
pub proof fn lemma_sum_is_history_sum(txs: Seq<Transaction>, a: Identity)
    ensures
        sum_for(txs, a) == sum_amounts(history_in(txs, a)),
    decreases txs.len(),
{
    reveal(Seq::filter);
    if txs.len() > 0 {
        lemma_sum_is_history_sum(txs.drop_last(), a);
        let sub = txs.drop_last().filter(credits(a));
        assert(sub.push(txs.last()).drop_last() =~= sub);
    }
}

/// In a well-formed ledger, every account's stored balance is the sum of the
/// amounts over its transaction history.
pub proof fn lemma_balance_is_history_sum(l: Ledger, a: Identity)
    requires
        l.wf(),
    ensures
        l.stored_balance(a) == sum_amounts(l.history(a)),
{
    lemma_sum_is_history_sum(l.transactions@, a);
}

} // verus!