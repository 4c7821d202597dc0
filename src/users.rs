use vstd::prelude::*;
use crate::error::StoreError;
use crate::identity::{anonymous_identity, Identity};
use crate::ids::IdAllocator;
use crate::table::{lemma_filter_step, Record, Table};

verus! {

#[derive(Clone, Copy, Debug, PartialEq, Eq, Structural)]
pub enum UserRole {
    Educator,
    Learner,
}

/// A registered user, stored under its principal.
#[derive(Clone, Debug)]
pub struct User {
    pub id: u64,
    pub principal: Identity,
    pub role: UserRole,
    pub name: String,
    pub email: String,
    pub avatar: Option<String>,
    pub created_at: u64,
    pub updated_at: u64,
}

#[derive(Clone, Debug)]
pub struct CreateUserPayload {
    pub role: UserRole,
    pub name: String,
    pub email: String,
    pub avatar: Option<String>,
}

/// The fields to change; `None` leaves a field as it is.
#[derive(Clone, Debug)]
pub struct UpdateUserPayload {
    pub name: Option<String>,
    pub email: Option<String>,
    pub avatar: Option<String>,
}

fn copy_text_option(o: &Option<String>) -> (r: Option<String>)
    ensures
        r == *o,
{
    match o {
        Some(s) => Some(s.clone()),
        None => None,
    }
}

impl Record for User {
    type Key = Identity;

    open spec fn key(&self) -> Identity {
        self.principal
    }

    fn has_key(&self, k: &Identity) -> (r: bool) {
        self.principal == *k
    }

    open spec fn same(&self, o: &Self) -> bool {
        *self == *o
    }

    fn duplicate(&self) -> (r: Self) {
        User {
            id: self.id,
            principal: self.principal,
            role: self.role,
            name: self.name.clone(),
            email: self.email.clone(),
            avatar: copy_text_option(&self.avatar),
            created_at: self.created_at,
            updated_at: self.updated_at,
        }
    }
}

/// `u` with the fields of `p` that are present, updated at `now`.
pub open spec fn patched_user(u: User, p: UpdateUserPayload, now: u64) -> User {
    User {
        name: match p.name {
            Some(n) => n,
            None => u.name,
        },
        email: match p.email {
            Some(e) => e,
            None => u.email,
        },
        avatar: match p.avatar {
            Some(a) => Some(a),
            None => u.avatar,
        },
        updated_at: now,
        ..u
    }
}

/// The users with role `role`.
pub open spec fn has_role(role: UserRole) -> spec_fn(User) -> bool {
    |u: User| u.role == role
}

/// Registered users, one per principal.
pub struct UserDirectory {
    pub user_ids: IdAllocator,
    pub users: Table<User>,
}

impl UserDirectory {
    pub open spec fn wf(&self) -> bool {
        &&& self.users.wf()
        &&& forall|i: int| 0 <= i < self.users@.len() ==> (#[trigger] self.users@[i]).id <= self.user_ids.last
    }

    pub fn new() -> (r: UserDirectory)
        ensures
            r.wf(),
            r.users@.len() == 0,
            r.user_ids.last == 0,
    {
        UserDirectory { user_ids: IdAllocator::new(), users: Table::new() }
    }

    /// The user registered under `principal`.
    pub fn get_user(&self, principal: &Identity) -> (r: Option<User>)
        requires
            self.wf(),
        ensures
            r == self.users.lookup(*principal),
    {
        self.users.get(principal)
    }

    /// The caller's own record.
    pub fn get_current_user(&self, caller: &Identity) -> (r: Option<User>)
        requires
            self.wf(),
        ensures
            r == self.users.lookup(*caller),
    {
        self.get_user(caller)
    }

    /// Registers `caller`. Refused for the anonymous caller and for a
    /// principal already registered.
    pub fn create_user(&mut self, caller: &Identity, now: u64, payload: CreateUserPayload) -> (r: Result<
        User,
        StoreError,
    >)
        requires
            old(self).wf(),
            old(self).user_ids.last < u64::MAX,
        ensures
            final(self).wf(),
            ({
                let u = User {
                    id: (old(self).user_ids.last + 1) as u64,
                    principal: *caller,
                    role: payload.role,
                    name: payload.name,
                    email: payload.email,
                    avatar: payload.avatar,
                    created_at: now,
                    updated_at: now,
                };
                if *caller == anonymous_identity() {
                    r == Err::<User, StoreError>(StoreError::Unauthorized) && *final(self) == *old(self)
                } else if old(self).users.has(*caller) {
                    r == Err::<User, StoreError>(StoreError::Conflict) && *final(self) == *old(self)
                } else {
                    &&& r == Ok::<User, StoreError>(u)
                    &&& final(self).users@ == old(self).users@.push(u)
                    &&& final(self).user_ids.last == u.id
                }
            }),
    {
        if caller.is_anonymous() {
            return Err(StoreError::Unauthorized);
        }
        if self.users.contains(caller) {
            return Err(StoreError::Conflict);
        }
        let id = self.user_ids.allocate();
        let u = User {
            id,
            principal: *caller,
            role: payload.role,
            name: payload.name,
            email: payload.email,
            avatar: payload.avatar,
            created_at: now,
            updated_at: now,
        };
        let ghost us = self.users@;
        self.users.insert(u.duplicate());
        proof {
            assert forall|i: int| 0 <= i < self.users@.len() implies (#[trigger] self.users@[i]).id
                <= self.user_ids.last by {
                if i < us.len() {
                    assert(self.users@[i] == us[i]);
                }
            }
        }
        Ok(u)
    }

    /// Changes the fields present in `payload` on the caller's own record.
    pub fn update_user(&mut self, caller: &Identity, now: u64, payload: UpdateUserPayload) -> (r: Result<
        User,
        StoreError,
    >)
        requires
            old(self).wf(),
        ensures
            final(self).wf(),
            !old(self).users.has(*caller) ==> r == Err::<User, StoreError>(StoreError::NotFound)
                && *final(self) == *old(self),
            old(self).users.has(*caller) ==> {
                let nu = patched_user(old(self).users.lookup(*caller).unwrap(), payload, now);
                &&& r == Ok::<User, StoreError>(nu)
                &&& final(self).users.lookup(*caller) == Some(nu)
                &&& forall|k: Identity|
                    k != *caller ==> final(self).users.lookup(k) == old(self).users.lookup(k)
                &&& final(self).user_ids == old(self).user_ids
            },
    {
        let i = match self.users.find(caller) {
            Some(i) => i,
            None => return Err(StoreError::NotFound),
        };
        let ghost us = self.users@;
        let mut u = self.users.row(i).duplicate();
        if let Some(n) = payload.name {
            u.name = n;
        }
        if let Some(e) = payload.email {
            u.email = e;
        }
        if let Some(a) = payload.avatar {
            u.avatar = Some(a);
        }
        u.updated_at = now;
        let res = u.duplicate();
        let ghost stored = u;
        self.users.replace(i, u);
        proof {
            crate::table::lemma_lookup_update(us, i as int, stored, *caller);
            assert forall|k: Identity| k != *caller implies crate::table::lookup_in(self.users@, k)
                == crate::table::lookup_in(us, k) by {
                crate::table::lemma_lookup_update(us, i as int, stored, k);
            }
            assert forall|j: int| 0 <= j < self.users@.len() implies (#[trigger] self.users@[j]).id
                <= self.user_ids.last by {
                assert(self.users@[j].id == us[j].id);
            }
        }
        Ok(res)
    }

    /// All users, in registration order.
    pub fn get_all_users(&self) -> (r: Vec<User>)
        requires
            self.wf(),
        ensures
            r@ == self.users@,
    {
        let v = self.users.scan();
        proof {
            assert(v@ =~= self.users@);
        }
        v
    }

    /// The users with role `role`, in registration order.
    pub fn get_users_by_role(&self, role: UserRole) -> (r: Vec<User>)
        requires
            self.wf(),
        ensures
            r@ == self.users@.filter(has_role(role)),
    {
        let ghost p = has_role(role);
        let mut out: Vec<User> = Vec::new();
        let mut i: usize = 0;
        while i < self.users.len()
            invariant
                i <= self.users@.len(),
                p == has_role(role),
                out@ == self.users@.subrange(0, i as int).filter(p),
            decreases self.users@.len() - i,
        {
            let u = self.users.row(i);
            proof {
                lemma_filter_step(self.users@, i as int, p);
            }
            if u.role == role {
                out.push(u.duplicate());
            }
            i = i + 1;
        }
        proof {
            assert(self.users@.subrange(0, i as int) =~= self.users@);
        }
        out
    }

    /// Removes the caller's record. Its identifier is not issued again.
    pub fn delete_user(&mut self, caller: &Identity) -> (r: Result<(), StoreError>)
        requires
            old(self).wf(),
        ensures
            final(self).wf(),
            r is Ok <==> old(self).users.has(*caller),
            r is Err ==> r == Err::<(), StoreError>(StoreError::NotFound) && *final(self) == *old(self),
            !final(self).users.has(*caller),
            forall|k: Identity| k != *caller ==> final(self).users.lookup(k) == old(self).users.lookup(k),
            final(self).user_ids == old(self).user_ids,
    {
        let ghost us = self.users@;
        match self.users.remove(caller) {
            Some(_) => {
                proof {
                    assert forall|j: int| 0 <= j < self.users@.len() implies (
                    #[trigger] self.users@[j]).id <= self.user_ids.last by {
                        assert(us.contains(self.users@[j]));
                        let w = choose|w: int| 0 <= w < us.len() && us[w] == self.users@[j];
                    }
                }
                Ok(())
            },
            None => Err(StoreError::NotFound),
        }
    }
}

} // verus!
