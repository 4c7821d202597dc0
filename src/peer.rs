use vstd::prelude::*;
use crate::error::StoreError;
use crate::identity::{anonymous_identity, Identity};
use crate::ids::IdAllocator;
use crate::ranking::{is_rank_prefix, rank_order};
use crate::table::{
    contains_text, copies, copy_strings, has_key_in, has_text, lemma_filter_len_update,
    lemma_filter_none, lemma_filter_push, lemma_filter_step, lemma_lookup_update, lookup_in,
    Record, Table,
};
use crate::votes::{vote_delta, vote_delta_spec};

verus! {

/// What a vote is cast on.
#[derive(Clone, Copy, Debug, PartialEq, Eq, Structural)]
pub enum VoteType {
    Question,
    Answer,
}

#[derive(Clone, Debug)]
pub struct Question {
    pub id: u64,
    pub title: String,
    pub content: String,
    pub author: Identity,
    pub tags: Vec<String>,
    /// Upvotes minus downvotes.
    pub votes: i32,
    pub answer_count: u32,
    pub created_at: u64,
    pub updated_at: u64,
}

#[derive(Clone, Debug)]
pub struct Answer {
    pub id: u64,
    pub question_id: u64,
    pub content: String,
    pub author: Identity,
    /// Upvotes minus downvotes.
    pub votes: i32,
    pub created_at: u64,
    pub updated_at: u64,
}

/// The vote that `voter` holds on one question or answer.
#[derive(Clone, Copy, Debug, PartialEq, Eq, Structural)]
pub struct Vote {
    pub voter: Identity,
    pub target_id: u64,
    pub vote_type: VoteType,
    pub is_upvote: bool,
    pub created_at: u64,
}

#[derive(Clone, Debug)]
pub struct CreateQuestionPayload {
    pub title: String,
    pub content: String,
    pub tags: Vec<String>,
}

#[derive(Clone, Debug)]
pub struct CreateAnswerPayload {
    pub question_id: u64,
    pub content: String,
}

impl Record for Question {
    type Key = u64;

    open spec fn key(&self) -> u64 {
        self.id
    }

    fn has_key(&self, k: &u64) -> (r: bool) {
        self.id == *k
    }

    open spec fn same(&self, o: &Self) -> bool {
        &&& self.id == o.id
        &&& self.title == o.title
        &&& self.content == o.content
        &&& self.author == o.author
        &&& self.tags@ == o.tags@
        &&& self.votes == o.votes
        &&& self.answer_count == o.answer_count
        &&& self.created_at == o.created_at
        &&& self.updated_at == o.updated_at
    }

    fn duplicate(&self) -> (r: Self) {
        Question {
            id: self.id,
            title: self.title.clone(),
            content: self.content.clone(),
            author: self.author,
            tags: copy_strings(&self.tags),
            votes: self.votes,
            answer_count: self.answer_count,
            created_at: self.created_at,
            updated_at: self.updated_at,
        }
    }
}

impl Record for Answer {
    type Key = u64;

    open spec fn key(&self) -> u64 {
        self.id
    }

    fn has_key(&self, k: &u64) -> (r: bool) {
        self.id == *k
    }

    open spec fn same(&self, o: &Self) -> bool {
        *self == *o
    }

    fn duplicate(&self) -> (r: Self) {
        Answer {
            id: self.id,
            question_id: self.question_id,
            content: self.content.clone(),
            author: self.author,
            votes: self.votes,
            created_at: self.created_at,
            updated_at: self.updated_at,
        }
    }
}

impl Record for Vote {
    type Key = (Identity, u64, VoteType);

    open spec fn key(&self) -> (Identity, u64, VoteType) {
        (self.voter, self.target_id, self.vote_type)
    }

    fn has_key(&self, k: &(Identity, u64, VoteType)) -> (r: bool) {
        self.voter == k.0 && self.target_id == k.1 && self.vote_type == k.2
    }

    open spec fn same(&self, o: &Self) -> bool {
        *self == *o
    }

    fn duplicate(&self) -> (r: Self) {
        *self
    }
}

/// `q` after one more answer at time `now`.
pub open spec fn with_answer(q: Question, now: u64) -> Question {
    Question { answer_count: (q.answer_count + 1) as u32, updated_at: now, ..q }
}

/// `q` with its tally moved by `d` at time `now`.
pub open spec fn question_with_votes(q: Question, d: i32, now: u64) -> Question {
    Question { votes: (q.votes + d) as i32, updated_at: now, ..q }
}

/// `a` with its tally moved by `d` at time `now`.
pub open spec fn answer_with_votes(a: Answer, d: i32, now: u64) -> Answer {
    Answer { votes: (a.votes + d) as i32, updated_at: now, ..a }
}

/// The direction of the vote stored under `key`, if any.
pub open spec fn stored_direction(votes: Seq<Vote>, key: (Identity, u64, VoteType)) -> Option<bool> {
    match lookup_in(votes, key) {
        Some(v) => Some(v.is_upvote),
        None => None,
    }
}

pub open spec fn fits_i32(x: int) -> bool {
    i32::MIN <= x <= i32::MAX
}

/// The answers of `answers` to question `qid`.
pub open spec fn answers_to(qid: u64) -> spec_fn(Answer) -> bool {
    |a: Answer| a.question_id == qid
}

/// The questions carrying tag `t`.
pub open spec fn tagged(t: Seq<char>) -> spec_fn(Question) -> bool {
    |q: Question| has_text(q.tags@, t)
}

/// Questions and answers, the votes on them, and study groups with their
/// members.
pub struct PeerStore {
    pub question_ids: IdAllocator,
    pub answer_ids: IdAllocator,
    pub questions: Table<Question>,
    pub answers: Table<Answer>,
    pub votes: Table<Vote>,
}

impl PeerStore {
    pub open spec fn wf(&self) -> bool {
        &&& self.questions.wf()
        &&& self.answers.wf()
        &&& self.votes.wf()
        &&& forall|i: int|
            0 <= i < self.questions@.len() ==> (#[trigger] self.questions@[i]).id
                <= self.question_ids.last
        &&& forall|i: int|
            0 <= i < self.answers@.len() ==> (#[trigger] self.answers@[i]).id <= self.answer_ids.last
        &&& forall|i: int|
            0 <= i < self.answers@.len() ==> self.questions.has(
                (#[trigger] self.answers@[i]).question_id,
            )
        &&& forall|i: int|
            0 <= i < self.questions@.len() ==> (#[trigger] self.questions@[i]).answer_count
                == self.answers@.filter(answers_to(self.questions@[i].id)).len()
    }

    pub fn new() -> (r: PeerStore)
        ensures
            r.wf(),
            r.questions@.len() == 0,
            r.answers@.len() == 0,
            r.votes@.len() == 0,
            r.question_ids.last == 0,
            r.answer_ids.last == 0,
    {
        PeerStore {
            question_ids: IdAllocator::new(),
            answer_ids: IdAllocator::new(),
            questions: Table::new(),
            answers: Table::new(),
            votes: Table::new(),
        }
    }

    /// Posts a question by `caller`, with no votes and no answers yet.
    pub fn create_question(&mut self, caller: &Identity, now: u64, payload: CreateQuestionPayload) -> (r:
        Result<Question, StoreError>)
        requires
            old(self).wf(),
            old(self).question_ids.last < u64::MAX,
        ensures
            final(self).wf(),
            *caller == anonymous_identity() ==> r == Err::<Question, StoreError>(
                StoreError::Unauthorized,
            ) && *final(self) == *old(self),
            *caller != anonymous_identity() ==> match r {
                Ok(q) => {
                    &&& q.id == old(self).question_ids.last + 1
                    &&& q.title == payload.title
                    &&& q.content == payload.content
                    &&& q.author == *caller
                    &&& q.tags@ == payload.tags@
                    &&& q.votes == 0
                    &&& q.answer_count == 0
                    &&& q.created_at == now
                    &&& q.updated_at == now
                    &&& final(self).questions@ == old(self).questions@.push(
                        final(self).questions@.last(),
                    )
                    &&& final(self).questions@.last().same(&q)
                    &&& final(self).question_ids.last == q.id
                    &&& final(self).answers == old(self).answers
                    &&& final(self).votes == old(self).votes
                    &&& final(self).answer_ids == old(self).answer_ids
                },
                Err(_) => false,
            },
    {
        if caller.is_anonymous() {
            return Err(StoreError::Unauthorized);
        }
        let id = self.question_ids.allocate();
        let q = Question {
            id,
            title: payload.title,
            content: payload.content,
            author: *caller,
            tags: payload.tags,
            votes: 0,
            answer_count: 0,
            created_at: now,
            updated_at: now,
        };
        let ghost before = self.questions@;
        self.questions.insert(q.duplicate());
        proof {
            assert forall|i: int| 0 <= i < self.answers@.len() implies self.questions.has(
                (#[trigger] self.answers@[i]).question_id,
            ) by {
                let j = choose|j: int|
                    0 <= j < before.len() && before[j].key() == self.answers@[i].question_id;
                assert(self.questions@[j] == before[j]);
            }
            assert forall|i: int| 0 <= i < self.questions@.len() implies (
            #[trigger] self.questions@[i]).id <= self.question_ids.last by {
                if i < before.len() {
                    assert(self.questions@[i] == before[i]);
                }
            }
            assert forall|i: int| 0 <= i < self.questions@.len() implies (
            #[trigger] self.questions@[i]).answer_count == self.answers@.filter(
                answers_to(self.questions@[i].id),
            ).len() by {
                if i < before.len() {
                    assert(self.questions@[i] == before[i]);
                } else {
                    // no answer refers to the new identifier yet
                    assert forall|k: int| 0 <= k < self.answers@.len() implies !answers_to(id)(
                        #[trigger] self.answers@[k],
                    ) by {
                        let j = choose|j: int|
                            0 <= j < before.len() && before[j].key() == self.answers@[k].question_id;
                        assert(before[j].id <= old(self).question_ids.last);
                    }
                    lemma_filter_none(self.answers@, answers_to(id));
                }
            }
        }
        Ok(q)
    }

    /// A copy of question `question_id`.
    pub fn get_question(&self, question_id: u64) -> (r: Option<Question>)
        requires
            self.wf(),
        ensures
            r is Some <==> self.questions.has(question_id),
            r matches Some(q) ==> q.same(&self.questions.lookup(question_id).unwrap()),
    {
        self.questions.get(&question_id)
    }

    /// All questions, newest first; equal creation times keep posting order.
    pub fn get_all_questions(&self) -> (r: Vec<Question>)
        requires
            self.wf(),
        ensures
            exists|idx: Seq<usize>|
                is_rank_prefix(creation_times(self.questions@), idx, self.questions@.len()) && copies(
                    r@,
                    Seq::new(idx.len(), |q: int| self.questions@[idx[q] as int]),
                ),
    {
        let mut stamps: Vec<u64> = Vec::new();
        let mut i: usize = 0;
        while i < self.questions.len()
            invariant
                i <= self.questions@.len(),
                stamps@ == creation_times(self.questions@).subrange(0, i as int),
            decreases self.questions@.len() - i,
        {
            stamps.push(self.questions.row(i).created_at);
            i = i + 1;
        }
        proof {
            assert(stamps@ =~= creation_times(self.questions@));
        }
        let order = rank_order(&stamps, self.questions.len());
        let mut out: Vec<Question> = Vec::new();
        let mut r: usize = 0;
        while r < order.len()
            invariant
                r <= order@.len(),
                stamps@ == creation_times(self.questions@),
                forall|q: int| 0 <= q < order@.len() ==> order@[q] < stamps@.len(),
                copies(
                    out@,
                    Seq::new(order@.len(), |q: int| self.questions@[order@[q] as int]).subrange(
                        0,
                        r as int,
                    ),
                ),
            decreases order@.len() - r,
        {
            out.push(self.questions.row(order[r]).duplicate());
            r = r + 1;
        }
        proof {
            assert(Seq::new(order@.len(), |q: int| self.questions@[order@[q] as int]).subrange(
                0,
                r as int,
            ) =~= Seq::new(order@.len(), |q: int| self.questions@[order@[q] as int]));
        }
        out
    }

    /// The questions that carry `tag`, in posting order.
    pub fn get_questions_by_tag(&self, tag: &String) -> (r: Vec<Question>)
        requires
            self.wf(),
        ensures
            copies(r@, self.questions@.filter(tagged(tag@))),
    {
        let ghost p = tagged(tag@);
        let mut out: Vec<Question> = Vec::new();
        let mut i: usize = 0;
        while i < self.questions.len()
            invariant
                i <= self.questions@.len(),
                p == tagged(tag@),
                copies(out@, self.questions@.subrange(0, i as int).filter(p)),
            decreases self.questions@.len() - i,
        {
            let q = self.questions.row(i);
            proof {
                lemma_filter_step(self.questions@, i as int, p);
            }
            if contains_text(&q.tags, tag) {
                out.push(q.duplicate());
            }
            i = i + 1;
        }
        proof {
            assert(self.questions@.subrange(0, i as int) =~= self.questions@);
        }
        out
    }

    /// Posts an answer by `caller` to an existing question, and counts it on
    /// that question.
    pub fn create_answer(&mut self, caller: &Identity, now: u64, payload: CreateAnswerPayload) -> (r:
        Result<Answer, StoreError>)
        requires
            old(self).wf(),
            old(self).answer_ids.last < u64::MAX,
        ensures
            final(self).wf(),
            *caller == anonymous_identity() ==> r == Err::<Answer, StoreError>(
                StoreError::Unauthorized,
            ) && *final(self) == *old(self),
            *caller != anonymous_identity() && !old(self).questions.has(payload.question_id) ==> r
                == Err::<Answer, StoreError>(StoreError::NotFound) && *final(self) == *old(self),
            *caller != anonymous_identity() && old(self).questions.has(payload.question_id)
                && old(self).questions.lookup(payload.question_id).unwrap().answer_count == u32::MAX
                ==> r == Err::<Answer, StoreError>(StoreError::Overflow) && *final(self) == *old(
                self,
            ),
            *caller != anonymous_identity() && old(self).questions.has(payload.question_id)
                && old(self).questions.lookup(payload.question_id).unwrap().answer_count < u32::MAX
                ==> {
                let a = Answer {
                    id: (old(self).answer_ids.last + 1) as u64,
                    question_id: payload.question_id,
                    content: payload.content,
                    author: *caller,
                    votes: 0,
                    created_at: now,
                    updated_at: now,
                };
                &&& r == Ok::<Answer, StoreError>(a)
                &&& final(self).answers@ == old(self).answers@.push(a)
                &&& final(self).answer_ids.last == a.id
                &&& final(self).questions.lookup(payload.question_id) matches Some(q) && q.same(
                    &with_answer(old(self).questions.lookup(payload.question_id).unwrap(), now),
                )
                &&& forall|k: u64|
                    k != payload.question_id ==> final(self).questions.lookup(k) == old(
                        self,
                    ).questions.lookup(k)
                &&& final(self).question_ids == old(self).question_ids
                &&& final(self).votes == old(self).votes
            },
    {
        if caller.is_anonymous() {
            return Err(StoreError::Unauthorized);
        }
        let qid = payload.question_id;
        let i = match self.questions.find(&qid) {
            Some(i) => i,
            None => return Err(StoreError::NotFound),
        };
        if self.questions.row(i).answer_count == u32::MAX {
            return Err(StoreError::Overflow);
        }
        let id = self.answer_ids.allocate();
        let a = Answer {
            id,
            question_id: qid,
            content: payload.content,
            author: *caller,
            votes: 0,
            created_at: now,
            updated_at: now,
        };
        let ghost answers_before = self.answers@;
        self.answers.insert(a.duplicate());
        let ghost qs = self.questions@;
        let mut q = self.questions.row(i).duplicate();
        q.answer_count = q.answer_count + 1;
        q.updated_at = now;
        let ghost stored = q;
        self.questions.replace(i, q);
        proof {
            lemma_lookup_update(qs, i as int, stored, qid);
            assert forall|k: u64| k != qid implies lookup_in(self.questions@, k) == lookup_in(
                qs,
                k,
            ) by {
                lemma_lookup_update(qs, i as int, stored, k);
            }
            assert forall|j: int| 0 <= j < self.answers@.len() implies self.questions.has(
                (#[trigger] self.answers@[j]).question_id,
            ) by {
                let k = self.answers@[j].question_id;
                if j < answers_before.len() {
                    assert(self.answers@[j] == answers_before[j]);
                }
                if k != qid {
                    assert(lookup_in(self.questions@, k) == lookup_in(qs, k));
                    assert(has_key_in(qs, k));
                } else {
                    assert(lookup_in(self.questions@, k) is Some);
                }
            }
            assert forall|j: int| 0 <= j < self.questions@.len() implies (
            #[trigger] self.questions@[j]).id <= self.question_ids.last by {
                assert(self.questions@[j].id == qs[j].id);
            }
            assert forall|j: int| 0 <= j < self.answers@.len() implies (
            #[trigger] self.answers@[j]).id <= self.answer_ids.last by {
                if j < answers_before.len() {
                    assert(self.answers@[j] == answers_before[j]);
                }
            }
            assert forall|j: int| 0 <= j < self.questions@.len() implies (
            #[trigger] self.questions@[j]).answer_count == self.answers@.filter(
                answers_to(self.questions@[j].id),
            ).len() by {
                let qj = self.questions@[j].id;
                lemma_filter_push(answers_before, a, answers_to(qj));
                if j != i {
                    assert(qs[j].id != qs[i as int].id);
                    assert(self.questions@[j] == qs[j]);
                }
            }
        }
        Ok(a)
    }

    /// The answers to question `question_id`, in posting order.
    pub fn get_answers_for_question(&self, question_id: u64) -> (r: Vec<Answer>)
        requires
            self.wf(),
        ensures
            r@ == self.answers@.filter(answers_to(question_id)),
    {
        let ghost p = answers_to(question_id);
        let mut out: Vec<Answer> = Vec::new();
        let mut i: usize = 0;
        while i < self.answers.len()
            invariant
                i <= self.answers@.len(),
                p == answers_to(question_id),
                out@ == self.answers@.subrange(0, i as int).filter(p),
            decreases self.answers@.len() - i,
        {
            let a = self.answers.row(i);
            proof {
                lemma_filter_step(self.answers@, i as int, p);
            }
            if a.question_id == question_id {
                out.push(a.duplicate());
            }
            i = i + 1;
        }
        proof {
            assert(self.answers@.subrange(0, i as int) =~= self.answers@);
        }
        out
    }

    /// Casts `caller`'s vote on a question and moves its tally by the
    /// reconciled delta.
    pub fn vote_question(&mut self, caller: &Identity, now: u64, question_id: u64, is_upvote: bool) -> (r:
        Result<Question, StoreError>)
        requires
            old(self).wf(),
        ensures
            final(self).wf(),
            ({
                let key = (*caller, question_id, VoteType::Question);
                let existing = stored_direction(old(self).votes@, key);
                let q = old(self).questions.lookup(question_id).unwrap();
                if *caller == anonymous_identity() {
                    r == Err::<Question, StoreError>(StoreError::Unauthorized) && *final(self) == *old(self)
                } else if !old(self).questions.has(question_id) {
                    r == Err::<Question, StoreError>(StoreError::NotFound) && *final(self) == *old(self)
                } else if vote_delta_spec(existing, is_upvote) is Err {
                    r == Err::<Question, StoreError>(StoreError::Conflict) && *final(self) == *old(self)
                } else if !fits_i32(q.votes + vote_delta_spec(existing, is_upvote).unwrap()) {
                    r == Err::<Question, StoreError>(StoreError::Overflow) && *final(self) == *old(self)
                } else {
                    let d = vote_delta_spec(existing, is_upvote).unwrap();
                    let nq = question_with_votes(q, d, now);
                    &&& r matches Ok(res) && res.same(&nq)
                    &&& final(self).questions.lookup(question_id) matches Some(x) && x.same(&nq)
                    &&& forall|k: u64|
                        k != question_id ==> final(self).questions.lookup(k) == old(
                            self,
                        ).questions.lookup(k)
                    &&& final(self).votes.lookup(key) == Some(
                        Vote {
                            voter: *caller,
                            target_id: question_id,
                            vote_type: VoteType::Question,
                            is_upvote,
                            created_at: now,
                        },
                    )
                    &&& forall|k: (Identity, u64, VoteType)|
                        k != key ==> final(self).votes.lookup(k) == old(self).votes.lookup(k)
                    &&& final(self).answers == old(self).answers
                    &&& final(self).question_ids == old(self).question_ids
                    &&& final(self).answer_ids == old(self).answer_ids
                }
            }),
    {
        if caller.is_anonymous() {
            return Err(StoreError::Unauthorized);
        }
        let i = match self.questions.find(&question_id) {
            Some(i) => i,
            None => return Err(StoreError::NotFound),
        };
        let key = (*caller, question_id, VoteType::Question);
        let existing = match self.votes.find(&key) {
            Some(j) => Some(self.votes.row(j).is_upvote),
            None => None,
        };
        let d = match vote_delta(existing, is_upvote) {
            Ok(d) => d,
            Err(e) => return Err(e),
        };
        let tally = self.questions.row(i).votes as i64 + d as i64;
        if tally < i32::MIN as i64 || tally > i32::MAX as i64 {
            return Err(StoreError::Overflow);
        }
        let vote = Vote { voter: *caller, target_id: question_id, vote_type: VoteType::Question, is_upvote, created_at: now };
        self.votes.put(&key, vote);
        let ghost qs = self.questions@;
        let mut q = self.questions.row(i).duplicate();
        q.votes = tally as i32;
        q.updated_at = now;
        let ghost stored = q;
        let res = q.duplicate();
        self.questions.replace(i, q);
        proof {
            lemma_lookup_update(qs, i as int, stored, question_id);
            assert forall|k: u64| k != question_id implies lookup_in(self.questions@, k) == lookup_in(
                qs,
                k,
            ) by {
                lemma_lookup_update(qs, i as int, stored, k);
            }
            assert forall|j: int| 0 <= j < self.answers@.len() implies self.questions.has(
                (#[trigger] self.answers@[j]).question_id,
            ) by {
                let k = self.answers@[j].question_id;
                if k != question_id {
                    assert(lookup_in(self.questions@, k) == lookup_in(qs, k));
                    assert(has_key_in(qs, k));
                } else {
                    assert(lookup_in(self.questions@, k) is Some);
                }
            }
            assert forall|j: int| 0 <= j < self.questions@.len() implies (
            #[trigger] self.questions@[j]).id <= self.question_ids.last by {
                assert(self.questions@[j].id == qs[j].id);
            }
            assert forall|j: int| 0 <= j < self.questions@.len() implies (
            #[trigger] self.questions@[j]).answer_count == self.answers@.filter(
                answers_to(self.questions@[j].id),
            ).len() by {
                assert(self.questions@[j].id == qs[j].id);
                assert(self.questions@[j].answer_count == qs[j].answer_count);
            }
        }
        Ok(res)
    }

    /// Casts `caller`'s vote on an answer and moves its tally by the
    /// reconciled delta.
    pub fn vote_answer(&mut self, caller: &Identity, now: u64, answer_id: u64, is_upvote: bool) -> (r:
        Result<Answer, StoreError>)
        requires
            old(self).wf(),
        ensures
            final(self).wf(),
            ({
                let key = (*caller, answer_id, VoteType::Answer);
                let existing = stored_direction(old(self).votes@, key);
                let a = old(self).answers.lookup(answer_id).unwrap();
                if *caller == anonymous_identity() {
                    r == Err::<Answer, StoreError>(StoreError::Unauthorized) && *final(self) == *old(self)
                } else if !old(self).answers.has(answer_id) {
                    r == Err::<Answer, StoreError>(StoreError::NotFound) && *final(self) == *old(self)
                } else if vote_delta_spec(existing, is_upvote) is Err {
                    r == Err::<Answer, StoreError>(StoreError::Conflict) && *final(self) == *old(self)
                } else if !fits_i32(a.votes + vote_delta_spec(existing, is_upvote).unwrap()) {
                    r == Err::<Answer, StoreError>(StoreError::Overflow) && *final(self) == *old(self)
                } else {
                    let d = vote_delta_spec(existing, is_upvote).unwrap();
                    let na = answer_with_votes(a, d, now);
                    &&& r == Ok::<Answer, StoreError>(na)
                    &&& final(self).answers.lookup(answer_id) == Some(na)
                    &&& forall|k: u64|
                        k != answer_id ==> final(self).answers.lookup(k) == old(self).answers.lookup(k)
                    &&& final(self).votes.lookup(key) == Some(
                        Vote {
                            voter: *caller,
                            target_id: answer_id,
                            vote_type: VoteType::Answer,
                            is_upvote,
                            created_at: now,
                        },
                    )
                    &&& forall|k: (Identity, u64, VoteType)|
                        k != key ==> final(self).votes.lookup(k) == old(self).votes.lookup(k)
                    &&& final(self).questions == old(self).questions
                    &&& final(self).question_ids == old(self).question_ids
                    &&& final(self).answer_ids == old(self).answer_ids
                }
            }),
    {
        if caller.is_anonymous() {
            return Err(StoreError::Unauthorized);
        }
        let i = match self.answers.find(&answer_id) {
            Some(i) => i,
            None => return Err(StoreError::NotFound),
        };
        let key = (*caller, answer_id, VoteType::Answer);
        let existing = match self.votes.find(&key) {
            Some(j) => Some(self.votes.row(j).is_upvote),
            None => None,
        };
        let d = match vote_delta(existing, is_upvote) {
            Ok(d) => d,
            Err(e) => return Err(e),
        };
        let tally = self.answers.row(i).votes as i64 + d as i64;
        if tally < i32::MIN as i64 || tally > i32::MAX as i64 {
            return Err(StoreError::Overflow);
        }
        let vote = Vote { voter: *caller, target_id: answer_id, vote_type: VoteType::Answer, is_upvote, created_at: now };
        self.votes.put(&key, vote);
        let ghost ans = self.answers@;
        let mut a = self.answers.row(i).duplicate();
        a.votes = tally as i32;
        a.updated_at = now;
        let res = a.duplicate();
        let ghost stored = a;
        self.answers.replace(i, a);
        proof {
            lemma_lookup_update(ans, i as int, stored, answer_id);
            assert forall|k: u64| k != answer_id implies lookup_in(self.answers@, k) == lookup_in(
                ans,
                k,
            ) by {
                lemma_lookup_update(ans, i as int, stored, k);
            }
            assert forall|j: int| 0 <= j < self.answers@.len() implies self.questions.has(
                (#[trigger] self.answers@[j]).question_id,
            ) by {
                assert(self.answers@[j].question_id == ans[j].question_id);
            }
            assert forall|j: int| 0 <= j < self.answers@.len() implies (
            #[trigger] self.answers@[j]).id <= self.answer_ids.last by {
                assert(self.answers@[j].id == ans[j].id);
            }
            assert forall|j: int| 0 <= j < self.questions@.len() implies (
            #[trigger] self.questions@[j]).answer_count == self.answers@.filter(
                answers_to(self.questions@[j].id),
            ).len() by {
                lemma_filter_len_update(ans, i as int, stored, answers_to(self.questions@[j].id));
                assert(self.answers@ == ans.update(i as int, stored));
            }
        }
        Ok(res)
    }
}

/// The creation times of `qs`, in order.
pub open spec fn creation_times(qs: Seq<Question>) -> Seq<u64> {
    Seq::new(qs.len(), |i: int| qs[i].created_at)
}

} // verus!
