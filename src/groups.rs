use vstd::prelude::*;
use crate::error::StoreError;
use crate::identity::{anonymous_identity, Identity};
use crate::ids::IdAllocator;
use crate::table::{
    copies, copy_strings, has_key_in, lemma_filter_none, lemma_filter_push, lemma_filter_step,
    lemma_lookup_update, lookup_in, Record, Table,
};

verus! {

#[derive(Clone, Debug)]
pub struct StudyGroup {
    pub id: u64,
    pub name: String,
    pub description: String,
    pub creator: Identity,
    pub tags: Vec<String>,
    pub member_count: u32,
    pub max_members: u32,
    pub is_public: bool,
    pub created_at: u64,
    pub updated_at: u64,
}

/// `member` belongs to group `group_id`.
#[derive(Clone, Copy, Debug, PartialEq, Eq, Structural)]
pub struct GroupMembership {
    pub group_id: u64,
    pub member: Identity,
    pub joined_at: u64,
    pub is_moderator: bool,
}

#[derive(Clone, Debug)]
pub struct CreateStudyGroupPayload {
    pub name: String,
    pub description: String,
    pub tags: Vec<String>,
    pub max_members: u32,
    pub is_public: bool,
}

impl Record for StudyGroup {
    type Key = u64;

    open spec fn key(&self) -> u64 {
        self.id
    }

    fn has_key(&self, k: &u64) -> (r: bool) {
        self.id == *k
    }

    open spec fn same(&self, o: &Self) -> bool {
        &&& self.id == o.id
        &&& self.name == o.name
        &&& self.description == o.description
        &&& self.creator == o.creator
        &&& self.tags@ == o.tags@
        &&& self.member_count == o.member_count
        &&& self.max_members == o.max_members
        &&& self.is_public == o.is_public
        &&& self.created_at == o.created_at
        &&& self.updated_at == o.updated_at
    }

    fn duplicate(&self) -> (r: Self) {
        StudyGroup {
            id: self.id,
            name: self.name.clone(),
            description: self.description.clone(),
            creator: self.creator,
            tags: copy_strings(&self.tags),
            member_count: self.member_count,
            max_members: self.max_members,
            is_public: self.is_public,
            created_at: self.created_at,
            updated_at: self.updated_at,
        }
    }
}

impl Record for GroupMembership {
    type Key = (u64, Identity);

    open spec fn key(&self) -> (u64, Identity) {
        (self.group_id, self.member)
    }

    fn has_key(&self, k: &(u64, Identity)) -> (r: bool) {
        self.group_id == k.0 && self.member == k.1
    }

    open spec fn same(&self, o: &Self) -> bool {
        *self == *o
    }

    fn duplicate(&self) -> (r: Self) {
        *self
    }
}

/// `g` after one more member joined at time `now`.
pub open spec fn with_member(g: StudyGroup, now: u64) -> StudyGroup {
    StudyGroup { member_count: (g.member_count + 1) as u32, updated_at: now, ..g }
}

pub open spec fn is_public_group() -> spec_fn(StudyGroup) -> bool {
    |g: StudyGroup| g.is_public
}

/// The memberships of group `group_id`.
pub open spec fn member_in(group_id: u64) -> spec_fn(GroupMembership) -> bool {
    |m: GroupMembership| m.group_id == group_id
}

pub open spec fn membership_of(user: Identity) -> spec_fn(GroupMembership) -> bool {
    |m: GroupMembership| m.member == user
}

/// Study groups and who belongs to them.
pub struct GroupStore {
    pub group_ids: IdAllocator,
    pub groups: Table<StudyGroup>,
    pub memberships: Table<GroupMembership>,
}

impl GroupStore {
    pub open spec fn wf(&self) -> bool {
        &&& self.groups.wf()
        &&& self.memberships.wf()
        &&& forall|i: int|
            0 <= i < self.groups@.len() ==> (#[trigger] self.groups@[i]).id <= self.group_ids.last
        &&& forall|i: int|
            0 <= i < self.memberships@.len() ==> self.groups.has(
                (#[trigger] self.memberships@[i]).group_id,
            )
        &&& forall|i: int|
            0 <= i < self.groups@.len() ==> (#[trigger] self.groups@[i]).member_count
                == self.memberships@.filter(member_in(self.groups@[i].id)).len()
    }

    /// The groups of the memberships in `ms`, in the same order.
    pub open spec fn groups_of(&self, ms: Seq<GroupMembership>) -> Seq<StudyGroup> {
        ms.map_values(|m: GroupMembership| self.groups.lookup(m.group_id).unwrap())
    }

    pub fn new() -> (r: GroupStore)
        ensures
            r.wf(),
            r.groups@.len() == 0,
            r.memberships@.len() == 0,
            r.group_ids.last == 0,
    {
        GroupStore { group_ids: IdAllocator::new(), groups: Table::new(), memberships: Table::new() }
    }

    /// Opens a study group with `caller` as its first member and moderator.
    pub fn create_study_group(&mut self, caller: &Identity, now: u64, payload: CreateStudyGroupPayload) -> (r:
        Result<StudyGroup, StoreError>)
        requires
            old(self).wf(),
            old(self).group_ids.last < u64::MAX,
        ensures
            final(self).wf(),
            *caller == anonymous_identity() ==> r == Err::<StudyGroup, StoreError>(
                StoreError::Unauthorized,
            ) && *final(self) == *old(self),
            *caller != anonymous_identity() ==> match r {
                Ok(g) => {
                    &&& g.id == old(self).group_ids.last + 1
                    &&& g.name == payload.name
                    &&& g.description == payload.description
                    &&& g.creator == *caller
                    &&& g.tags@ == payload.tags@
                    &&& g.member_count == 1
                    &&& g.max_members == payload.max_members
                    &&& g.is_public == payload.is_public
                    &&& g.created_at == now
                    &&& g.updated_at == now
                    &&& final(self).group_ids.last == g.id
                    &&& final(self).groups@ == old(self).groups@.push(final(self).groups@.last())
                    &&& final(self).groups@.last().same(&g)
                    &&& final(self).memberships@ == old(self).memberships@.push(
                        GroupMembership { group_id: g.id, member: *caller, joined_at: now, is_moderator: true },
                    )
                },
                Err(_) => false,
            },
    {
        if caller.is_anonymous() {
            return Err(StoreError::Unauthorized);
        }
        let id = self.group_ids.allocate();
        let g = StudyGroup {
            id,
            name: payload.name,
            description: payload.description,
            creator: *caller,
            tags: payload.tags,
            member_count: 1,
            max_members: payload.max_members,
            is_public: payload.is_public,
            created_at: now,
            updated_at: now,
        };
        let ghost gs = self.groups@;
        let ghost ms = self.memberships@;
        self.groups.insert(g.duplicate());
        let m = GroupMembership { group_id: id, member: *caller, joined_at: now, is_moderator: true };
        proof {
            // the group is new, so nobody belongs to it yet
            if has_key_in(ms, m.key()) {
                let j = choose|j: int| 0 <= j < ms.len() && ms[j].key() == m.key();
                let w = choose|w: int| 0 <= w < gs.len() && gs[w].key() == ms[j].group_id;
                assert(gs[w].id <= old(self).group_ids.last);
            }
        }
        self.memberships.insert(m);
        proof {
            assert forall|i: int| 0 <= i < self.memberships@.len() implies self.groups.has(
                (#[trigger] self.memberships@[i]).group_id,
            ) by {
                if i < ms.len() {
                    assert(self.memberships@[i] == ms[i]);
                    let w = choose|w: int| 0 <= w < gs.len() && gs[w].key() == ms[i].group_id;
                    assert(self.groups@[w] == gs[w]);
                } else {
                    assert(self.groups@[gs.len() as int].id == id);
                }
            }
            assert forall|i: int| 0 <= i < self.groups@.len() implies (
            #[trigger] self.groups@[i]).id <= self.group_ids.last by {
                if i < gs.len() {
                    assert(self.groups@[i] == gs[i]);
                }
            }
            assert forall|i: int| 0 <= i < self.groups@.len() implies (
            #[trigger] self.groups@[i]).member_count == self.memberships@.filter(
                member_in(self.groups@[i].id),
            ).len() by {
                let gi = self.groups@[i].id;
                lemma_filter_push(ms, m, member_in(gi));
                if i < gs.len() {
                    assert(self.groups@[i] == gs[i]);
                    assert(gs[i].id <= old(self).group_ids.last);
                } else {
                    // nobody belonged to the new group before its creator
                    assert forall|k: int| 0 <= k < ms.len() implies !member_in(id)(#[trigger] ms[k]) by {
                        let w = choose|w: int| 0 <= w < gs.len() && gs[w].key() == ms[k].group_id;
                        assert(gs[w].id <= old(self).group_ids.last);
                    }
                    lemma_filter_none(ms, member_in(id));
                }
            }
        }
        Ok(g)
    }

    /// Adds `caller` to group `group_id` and counts the new member on it.
    pub fn join_study_group(&mut self, caller: &Identity, now: u64, group_id: u64) -> (r: Result<
        GroupMembership,
        StoreError,
    >)
        requires
            old(self).wf(),
        ensures
            final(self).wf(),
            ({
                let g = old(self).groups.lookup(group_id).unwrap();
                let m = GroupMembership { group_id, member: *caller, joined_at: now, is_moderator: false };
                if *caller == anonymous_identity() {
                    r == Err::<GroupMembership, StoreError>(StoreError::Unauthorized) && *final(self)
                        == *old(self)
                } else if !old(self).groups.has(group_id) {
                    r == Err::<GroupMembership, StoreError>(StoreError::NotFound) && *final(self)
                        == *old(self)
                } else if g.member_count >= g.max_members {
                    r == Err::<GroupMembership, StoreError>(StoreError::CapacityExceeded)
                        && *final(self) == *old(self)
                } else if old(self).memberships.has((group_id, *caller)) {
                    r == Err::<GroupMembership, StoreError>(StoreError::Conflict) && *final(self)
                        == *old(self)
                } else {
                    &&& r == Ok::<GroupMembership, StoreError>(m)
                    &&& final(self).memberships@ == old(self).memberships@.push(m)
                    &&& final(self).groups.lookup(group_id) matches Some(x) && x.same(
                        &with_member(g, now),
                    )
                    &&& forall|k: u64|
                        k != group_id ==> final(self).groups.lookup(k) == old(self).groups.lookup(k)
                    &&& final(self).group_ids == old(self).group_ids
                }
            }),
    {
        if caller.is_anonymous() {
            return Err(StoreError::Unauthorized);
        }
        let i = match self.groups.find(&group_id) {
            Some(i) => i,
            None => return Err(StoreError::NotFound),
        };
        if self.groups.row(i).member_count >= self.groups.row(i).max_members {
            return Err(StoreError::CapacityExceeded);
        }
        let key = (group_id, *caller);
        if self.memberships.contains(&key) {
            return Err(StoreError::Conflict);
        }
        let m = GroupMembership { group_id, member: *caller, joined_at: now, is_moderator: false };
        let ghost ms = self.memberships@;
        self.memberships.insert(m);
        let ghost gs = self.groups@;
        let mut g = self.groups.row(i).duplicate();
        g.member_count = g.member_count + 1;
        g.updated_at = now;
        let ghost stored = g;
        self.groups.replace(i, g);
        proof {
            lemma_lookup_update(gs, i as int, stored, group_id);
            assert forall|k: u64| k != group_id implies lookup_in(self.groups@, k) == lookup_in(
                gs,
                k,
            ) by {
                lemma_lookup_update(gs, i as int, stored, k);
            }
            assert forall|j: int| 0 <= j < self.memberships@.len() implies self.groups.has(
                (#[trigger] self.memberships@[j]).group_id,
            ) by {
                let k = self.memberships@[j].group_id;
                if j < ms.len() {
                    assert(self.memberships@[j] == ms[j]);
                }
                if k != group_id {
                    assert(lookup_in(self.groups@, k) == lookup_in(gs, k));
                    assert(has_key_in(gs, k));
                } else {
                    assert(lookup_in(self.groups@, k) is Some);
                }
            }
            assert forall|j: int| 0 <= j < self.groups@.len() implies (
            #[trigger] self.groups@[j]).id <= self.group_ids.last by {
                assert(self.groups@[j].id == gs[j].id);
            }
            assert forall|j: int| 0 <= j < self.groups@.len() implies (
            #[trigger] self.groups@[j]).member_count == self.memberships@.filter(
                member_in(self.groups@[j].id),
            ).len() by {
                lemma_filter_push(ms, m, member_in(self.groups@[j].id));
                if j != i {
                    assert(gs[j].id != gs[i as int].id);
                    assert(self.groups@[j] == gs[j]);
                }
            }
        }
        Ok(m)
    }

    /// A copy of group `group_id`.
    pub fn get_study_group(&self, group_id: u64) -> (r: Option<StudyGroup>)
        requires
            self.wf(),
        ensures
            r is Some <==> self.groups.has(group_id),
            r matches Some(g) ==> g.same(&self.groups.lookup(group_id).unwrap()),
    {
        self.groups.get(&group_id)
    }

    /// The public groups, in creation order.
    pub fn get_all_study_groups(&self) -> (r: Vec<StudyGroup>)
        requires
            self.wf(),
        ensures
            copies(r@, self.groups@.filter(is_public_group())),
    {
        let ghost p = is_public_group();
        let mut out: Vec<StudyGroup> = Vec::new();
        let mut i: usize = 0;
        while i < self.groups.len()
            invariant
                i <= self.groups@.len(),
                p == is_public_group(),
                copies(out@, self.groups@.subrange(0, i as int).filter(p)),
            decreases self.groups@.len() - i,
        {
            let g = self.groups.row(i);
            proof {
                lemma_filter_step(self.groups@, i as int, p);
            }
            if g.is_public {
                out.push(g.duplicate());
            }
            i = i + 1;
        }
        proof {
            assert(self.groups@.subrange(0, i as int) =~= self.groups@);
        }
        out
    }

    /// The groups that `user` belongs to, in the order they joined.
    pub fn get_user_study_groups(&self, user: &Identity) -> (r: Vec<StudyGroup>)
        requires
            self.wf(),
        ensures
            copies(r@, self.groups_of(self.memberships@.filter(membership_of(*user)))),
    {
        let ghost p = membership_of(*user);
        let mut out: Vec<StudyGroup> = Vec::new();
        let mut i: usize = 0;
        while i < self.memberships.len()
            invariant
                self.wf(),
                i <= self.memberships@.len(),
                p == membership_of(*user),
                copies(out@, self.groups_of(self.memberships@.subrange(0, i as int).filter(p))),
            decreases self.memberships@.len() - i,
        {
            let m = self.memberships.row(i);
            let ghost pre = self.memberships@.subrange(0, i as int).filter(p);
            proof {
                lemma_filter_step(self.memberships@, i as int, p);
            }
            if m.member == *user {
                proof {
                    assert(self.groups.has(self.memberships@[i as int].group_id));
                }
                match self.groups.get(&m.group_id) {
                    Some(g) => {
                        out.push(g);
                    },
                    None => {},
                }
                proof {
                    assert(self.groups_of(pre.push(*m)) =~= self.groups_of(pre).push(
                        self.groups.lookup(m.group_id).unwrap(),
                    ));
                }
            }
            i = i + 1;
        }
        proof {
            assert(self.memberships@.subrange(0, i as int) =~= self.memberships@);
        }
        out
    }
}

} // verus!
