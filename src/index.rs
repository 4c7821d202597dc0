use vstd::prelude::*;
use crate::identity::Identity;
use crate::table::{lemma_lookup_push, lemma_lookup_update, lookup_in, Record, Table};

verus! {

/// The identifiers filed under one owner, in the order they were filed.
#[derive(Clone, Debug)]
pub struct IndexEntry {
    pub owner: Identity,
    pub ids: Vec<u64>,
}

/// A copy of a list of identifiers.
pub fn copy_ids(v: &Vec<u64>) -> (r: Vec<u64>)
    ensures
        r@ == v@,
{
    let mut out: Vec<u64> = Vec::new();
    let mut i: usize = 0;
    while i < v.len()
        invariant
            i <= v@.len(),
            out@ == v@.subrange(0, i as int),
        decreases v@.len() - i,
    {
        out.push(v[i]);
        i = i + 1;
    }
    proof {
        assert(v@.subrange(0, i as int) =~= v@);
    }
    out
}

impl Record for IndexEntry {
    type Key = Identity;

    open spec fn key(&self) -> Identity {
        self.owner
    }

    fn has_key(&self, k: &Identity) -> (r: bool) {
        self.owner == *k
    }

    open spec fn same(&self, o: &Self) -> bool {
        self.owner == o.owner && self.ids@ == o.ids@
    }

    fn duplicate(&self) -> (r: Self) {
        IndexEntry { owner: self.owner, ids: copy_ids(&self.ids) }
    }
}

/// A secondary index from an owner to the identifiers of its records.
pub struct OwnerIndex {
    pub entries: Table<IndexEntry>,
}

impl OwnerIndex {
    pub open spec fn wf(&self) -> bool {
        self.entries.wf()
    }

    /// The identifiers filed under `a`.
    pub open spec fn ids_of(&self, a: Identity) -> Seq<u64> {
        match self.entries.lookup(a) {
            Some(e) => e.ids@,
            None => Seq::empty(),
        }
    }

    pub fn new() -> (r: OwnerIndex)
        ensures
            r.wf(),
            forall|a: Identity| #[trigger] r.ids_of(a) == Seq::<u64>::empty(),
    {
        OwnerIndex { entries: Table::new() }
    }

    /// Files `id` under `owner`, after the identifiers already there.
    pub fn append(&mut self, owner: &Identity, id: u64)
        requires
            old(self).wf(),
        ensures
            final(self).wf(),
            forall|a: Identity| #[trigger]
                final(self).ids_of(a) == if a == *owner {
                    old(self).ids_of(a).push(id)
                } else {
                    old(self).ids_of(a)
                },
    {
        let ghost s = self.entries@;
        match self.entries.find(owner) {
            Some(i) => {
                let mut ids = copy_ids(&self.entries.row(i).ids);
                ids.push(id);
                let e = IndexEntry { owner: *owner, ids };
                let ghost stored = e;
                self.entries.replace(i, e);
                proof {
                    assert forall|a: Identity| #[trigger]
                        lookup_in(self.entries@, a) == if a == *owner {
                            Some(stored)
                        } else {
                            lookup_in(s, a)
                        } by {
                        lemma_lookup_update(s, i as int, stored, a);
                    }
                }
            },
            None => {
                let mut ids: Vec<u64> = Vec::new();
                ids.push(id);
                let e = IndexEntry { owner: *owner, ids };
                let ghost stored = e;
                self.entries.insert(e);
                proof {
                    assert forall|a: Identity| #[trigger]
                        lookup_in(self.entries@, a) == if a == *owner {
                            Some(stored)
                        } else {
                            lookup_in(s, a)
                        } by {
                        lemma_lookup_push(s, stored, a);
                    }
                    assert(stored.ids@ =~= Seq::<u64>::empty().push(id));
                }
            },
        }
    }

    /// The identifiers filed under `owner`.
    pub fn lookup(&self, owner: &Identity) -> (r: Vec<u64>)
        requires
            self.wf(),
        ensures
            r@ == self.ids_of(*owner),
    {
        match self.entries.find(owner) {
            Some(i) => copy_ids(&self.entries.row(i).ids),
            None => Vec::new(),
        }
    }
}

} // verus!
