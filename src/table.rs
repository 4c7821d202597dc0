use vstd::prelude::*;

verus! {

/// A value stored in a `Table`, found there by its key.
pub trait Record: Sized {
    type Key;

    spec fn key(&self) -> Self::Key;

    /// Whether the record is stored under `k`.
    fn has_key(&self, k: &Self::Key) -> (r: bool)
        ensures
            r == (self.key() == *k);

    /// `self` and `other` hold the same values.
    spec fn same(&self, other: &Self) -> bool;

    /// A copy of the record.
    fn duplicate(&self) -> (r: Self)
        ensures
            r.same(self),
            r.key() == self.key();
}

/// Every key occurs at most once.
pub open spec fn unique_keys<R: Record>(s: Seq<R>) -> bool {
    forall|i: int, j: int| 0 <= i < j < s.len() ==> s[i].key() != s[j].key()
}

/// Some record of `s` is stored under `k`.
pub open spec fn has_key_in<R: Record>(s: Seq<R>, k: R::Key) -> bool {
    exists|i: int| 0 <= i < s.len() && s[i].key() == k
}

/// The record of `s` stored under `k`, if any.
pub open spec fn lookup_in<R: Record>(s: Seq<R>, k: R::Key) -> Option<R> {
    if has_key_in(s, k) {
        Some(s[choose|i: int| 0 <= i < s.len() && s[i].key() == k])
    } else {
        None
    }
}

/// `a` holds a copy of each record of `b`, in the same order.
pub open spec fn copies<R: Record>(a: Seq<R>, b: Seq<R>) -> bool {
    &&& a.len() == b.len()
    &&& forall|i: int| 0 <= i < a.len() ==> (#[trigger] a[i]).same(&b[i])
}

/// With unique keys, the record at position `i` is the one found under its key.
pub proof fn lemma_lookup_at<R: Record>(s: Seq<R>, i: int)
    requires
        unique_keys(s),
        0 <= i < s.len(),
    ensures
        lookup_in(s, s[i].key()) == Some(s[i]),
{
    let k = s[i].key();
    assert(has_key_in(s, k));
    let j = choose|j: int| 0 <= j < s.len() && s[j].key() == k;
    assert(i == j);
}

/// Replacing a record by one with the same key changes only the lookup of that key.
pub proof fn lemma_lookup_update<R: Record>(s: Seq<R>, i: int, r: R, k: R::Key)
    requires
        unique_keys(s),
        0 <= i < s.len(),
        r.key() == s[i].key(),
    ensures
        unique_keys(s.update(i, r)),
        lookup_in(s.update(i, r), k) == if k == r.key() {
            Some(r)
        } else {
            lookup_in(s, k)
        },
{
    let t = s.update(i, r);
    assert(unique_keys(t)) by {
        assert forall|a: int, b: int| 0 <= a < b < t.len() implies t[a].key() != t[b].key() by {
            assert(s[a].key() == t[a].key() && s[b].key() == t[b].key());
        }
    }
    if k == r.key() {
        lemma_lookup_at(t, i);
    } else if has_key_in(s, k) {
        let j = choose|j: int| 0 <= j < s.len() && s[j].key() == k;
        lemma_lookup_at(s, j);
        lemma_lookup_at(t, j);
    } else {
        assert(!has_key_in(t, k)) by {
            if has_key_in(t, k) {
                let j = choose|j: int| 0 <= j < t.len() && t[j].key() == k;
                assert(s[j].key() == k);
            }
        }
    }
}

/// Appending a record under a new key adds only the lookup of that key.
pub proof fn lemma_lookup_push<R: Record>(s: Seq<R>, r: R, k: R::Key)
    requires
        unique_keys(s),
        !has_key_in(s, r.key()),
    ensures
        unique_keys(s.push(r)),
        lookup_in(s.push(r), k) == if k == r.key() {
            Some(r)
        } else {
            lookup_in(s, k)
        },
{
    let t = s.push(r);
    assert(unique_keys(t)) by {
        assert forall|a: int, b: int| 0 <= a < b < t.len() implies t[a].key() != t[b].key() by {
            if b == s.len() {
                assert(t[a] == s[a]);
            } else {
                assert(t[a] == s[a] && t[b] == s[b]);
            }
        }
    }
    if k == r.key() {
        lemma_lookup_at(t, s.len() as int);
    } else if has_key_in(s, k) {
        let j = choose|j: int| 0 <= j < s.len() && s[j].key() == k;
        lemma_lookup_at(s, j);
        assert(t[j] == s[j]);
        lemma_lookup_at(t, j);
    } else {
        assert(!has_key_in(t, k)) by {
            if has_key_in(t, k) {
                let j = choose|j: int| 0 <= j < t.len() && t[j].key() == k;
                assert(j < s.len());
                assert(t[j] == s[j]);
            }
        }
    }
}

/// Filtering a prefix one element longer adds that element if it passes.
pub proof fn lemma_filter_step<A>(s: Seq<A>, i: int, p: spec_fn(A) -> bool)
    requires
        0 <= i < s.len(),
    ensures
        s.subrange(0, i + 1).filter(p) == if p(s[i]) {
            s.subrange(0, i).filter(p).push(s[i])
        } else {
            s.subrange(0, i).filter(p)
        },
{
    reveal(Seq::filter);
    assert(s.subrange(0, i + 1).drop_last() =~= s.subrange(0, i));
}

/// Filtering after appending `x` adds `x` if it passes.
pub proof fn lemma_filter_push<A>(s: Seq<A>, x: A, p: spec_fn(A) -> bool)
    ensures
        s.push(x).filter(p) == if p(x) {
            s.filter(p).push(x)
        } else {
            s.filter(p)
        },
{
    reveal(Seq::filter);
    assert(s.push(x).drop_last() =~= s);
}

/// Every element that passes the filter comes from the sequence.
pub proof fn lemma_filter_member<A>(s: Seq<A>, p: spec_fn(A) -> bool, k: int)
    requires
        0 <= k < s.filter(p).len(),
    ensures
        s.contains(s.filter(p)[k]),
    decreases s.len(),
{
    reveal(Seq::filter);
    let sub = s.drop_last().filter(p);
    if k < sub.len() {
        lemma_filter_member(s.drop_last(), p, k);
        let j = choose|j: int| 0 <= j < s.drop_last().len() && s.drop_last()[j] == sub[k];
        assert(s[j] == s.filter(p)[k]);
    } else {
        assert(s[s.len() - 1] == s.filter(p)[k]);
    }
}

/// Nothing passes the filter when no element does.
pub proof fn lemma_filter_none<A>(s: Seq<A>, p: spec_fn(A) -> bool)
    requires
        forall|i: int| 0 <= i < s.len() ==> !p(#[trigger] s[i]),
    ensures
        s.filter(p).len() == 0,
    decreases s.len(),
{
    reveal(Seq::filter);
    if s.len() > 0 {
        assert forall|i: int| 0 <= i < s.drop_last().len() implies !p(#[trigger] s.drop_last()[i]) by {
            assert(s.drop_last()[i] == s[i]);
        }
        lemma_filter_none(s.drop_last(), p);
        assert(!p(s[s.len() - 1]));
    }
}

/// Replacing an element by one that passes the filter exactly when it did
/// keeps the number that pass.
pub proof fn lemma_filter_len_update<A>(s: Seq<A>, i: int, x: A, p: spec_fn(A) -> bool)
    requires
        0 <= i < s.len(),
        p(s[i]) == p(x),
    ensures
        s.update(i, x).filter(p).len() == s.filter(p).len(),
    decreases s.len(),
{
    reveal(Seq::filter);
    let t = s.update(i, x);
    if i == s.len() - 1 {
        assert(t.drop_last() =~= s.drop_last());
    } else {
        assert(t.drop_last() =~= s.drop_last().update(i, x));
        lemma_filter_len_update(s.drop_last(), i, x, p);
    }
}

/// A copy of a list of strings.
pub fn copy_strings(v: &Vec<String>) -> (r: Vec<String>)
    ensures
        r@ == v@,
{
    let mut out: Vec<String> = Vec::new();
    let mut i: usize = 0;
    while i < v.len()
        invariant
            i <= v@.len(),
            out@ == v@.subrange(0, i as int),
        decreases v@.len() - i,
    {
        out.push(v[i].clone());
        i = i + 1;
    }
    proof {
        assert(v@.subrange(0, i as int) =~= v@);
    }
    out
}

/// Whether `tags` holds a string equal to `t`.
pub open spec fn has_text(tags: Seq<String>, t: Seq<char>) -> bool {
    exists|i: int| 0 <= i < tags.len() && tags[i]@ == t
}

/// Whether `tags` holds a string equal to `t`.
pub fn contains_text(tags: &Vec<String>, t: &String) -> (r: bool)
    ensures
        r == has_text(tags@, t@),
{
    let mut i: usize = 0;
    while i < tags.len()
        invariant
            i <= tags@.len(),
            forall|j: int| 0 <= j < i ==> tags@[j]@ != t@,
        decreases tags@.len() - i,
    {
        if tags[i] == *t {
            return true;
        }
        i = i + 1;
    }
    false
}

/// A primary store: records kept in insertion order, at most one per key.
pub struct Table<R> {
    rows: Vec<R>,
}

impl<R: Record> View for Table<R> {
    type V = Seq<R>;

    closed spec fn view(&self) -> Seq<R> {
        self.rows@
    }
}

impl<R: Record> Table<R> {
    pub open spec fn wf(&self) -> bool {
        unique_keys(self@)
    }

    pub open spec fn has(&self, k: R::Key) -> bool {
        has_key_in(self@, k)
    }

    pub open spec fn lookup(&self, k: R::Key) -> Option<R> {
        lookup_in(self@, k)
    }

    /// An empty store.
    pub fn new() -> (r: Table<R>)
        ensures
            r@ == Seq::<R>::empty(),
            r.wf(),
    {
        Table { rows: Vec::new() }
    }

    /// Number of records.
    pub fn len(&self) -> (r: usize)
        ensures
            r == self@.len(),
    {
        self.rows.len()
    }

    /// The record at position `i`, in insertion order.
    pub fn row(&self, i: usize) -> (r: &R)
        requires
            i < self@.len(),
        ensures
            *r == self@[i as int],
    {
        &self.rows[i]
    }

    /// Position of the record stored under `k`.
    pub fn find(&self, k: &R::Key) -> (r: Option<usize>)
        requires
            self.wf(),
        ensures
            r is None <==> !self.has(*k),
            r matches Some(i) ==> i < self@.len() && self@[i as int].key() == *k && self.lookup(*k)
                == Some(self@[i as int]),
    {
        let mut i: usize = 0;
        while i < self.rows.len()
            invariant
                i <= self.rows@.len(),
                self.rows@ == self@,
                self.wf(),
                forall|j: int| 0 <= j < i ==> self@[j].key() != *k,
            decreases self.rows@.len() - i,
        {
            if self.rows[i].has_key(k) {
                proof {
                    lemma_lookup_at(self@, i as int);
                }
                return Some(i);
            }
            i = i + 1;
        }
        None
    }

    /// Whether a record is stored under `k`.
    pub fn contains(&self, k: &R::Key) -> (r: bool)
        requires
            self.wf(),
        ensures
            r == self.has(*k),
    {
        self.find(k).is_some()
    }

    /// A copy of the record stored under `k`.
    pub fn get(&self, k: &R::Key) -> (r: Option<R>)
        requires
            self.wf(),
        ensures
            r is Some <==> self.has(*k),
            r matches Some(x) ==> x.same(&self.lookup(*k).unwrap()) && x.key() == *k,
    {
        match self.find(k) {
            Some(i) => Some(self.rows[i].duplicate()),
            None => None,
        }
    }

    /// Stores a record under a key that is not yet in use.
    pub fn insert(&mut self, r: R)
        requires
            old(self).wf(),
            !old(self).has(r.key()),
        ensures
            final(self).wf(),
            final(self)@ == old(self)@.push(r),
    {
        proof {
            lemma_lookup_push(self@, r, r.key());
        }
        self.rows.push(r);
    }

    /// Replaces the record at position `i` by one under the same key.
    pub fn replace(&mut self, i: usize, r: R)
        requires
            old(self).wf(),
            i < old(self)@.len(),
            r.key() == old(self)@[i as int].key(),
        ensures
            final(self).wf(),
            final(self)@ == old(self)@.update(i as int, r),
    {
        proof {
            lemma_lookup_update(self@, i as int, r, r.key());
        }
        self.rows.set(i, r);
    }

    /// Removes the record stored under `k`, and hands it back.
    pub fn remove(&mut self, k: &R::Key) -> (r: Option<R>)
        requires
            old(self).wf(),
        ensures
            final(self).wf(),
            r is Some <==> old(self).has(*k),
            r matches Some(x) ==> Some(x) == old(self).lookup(*k),
            !final(self).has(*k),
            forall|j: R::Key| j != *k ==> final(self).lookup(j) == old(self).lookup(j),
            r is None ==> *final(self) == *old(self),
            forall|a: int| 0 <= a < final(self)@.len() ==> old(self)@.contains(#[trigger] final(self)@[a]),
    {
        match self.find(k) {
            Some(i) => {
                let ghost s = self@;
                let x = self.rows.remove(i);
                proof {
                    let t = self@;
                    assert(t =~= s.remove(i as int));
                    assert forall|a: int| 0 <= a < t.len() implies s.contains(#[trigger] t[a]) by {
                        let a1 = if a < i { a } else { a + 1 };
                        assert(t[a] == s[a1]);
                    }
                    assert(unique_keys(t)) by {
                        assert forall|a: int, b: int| 0 <= a < b < t.len() implies t[a].key()
                            != t[b].key() by {
                            let a1 = if a < i { a } else { a + 1 };
                            let b1 = if b < i { b } else { b + 1 };
                            assert(t[a] == s[a1] && t[b] == s[b1]);
                        }
                    }
                    assert(!has_key_in(t, *k)) by {
                        if has_key_in(t, *k) {
                            let j = choose|j: int| 0 <= j < t.len() && t[j].key() == *k;
                            let j1 = if j < i { j } else { j + 1 };
                            assert(t[j] == s[j1]);
                        }
                    }
                    assert forall|kk: R::Key| kk != *k implies lookup_in(t, kk) == lookup_in(s, kk) by {
                        if has_key_in(s, kk) {
                            let j = choose|j: int| 0 <= j < s.len() && s[j].key() == kk;
                            lemma_lookup_at(s, j);
                            assert(j != i);
                            let j1 = if j < i { j } else { j - 1 };
                            assert(t[j1] == s[j]);
                            lemma_lookup_at(t, j1);
                        } else {
                            assert(!has_key_in(t, kk)) by {
                                if has_key_in(t, kk) {
                                    let j = choose|j: int| 0 <= j < t.len() && t[j].key() == kk;
                                    let j1 = if j < i { j } else { j + 1 };
                                    assert(t[j] == s[j1]);
                                }
                            }
                        }
                    }
                }
                Some(x)
            },
            None => {
                assert forall|a: int| 0 <= a < self@.len() implies self@.contains(#[trigger] self@[a]) by {
                    assert(self@[a] == self@[a]);
                }
                None
            },
        }
    }

    /// Copies of all records, in insertion order.
    pub fn scan(&self) -> (r: Vec<R>)
        ensures
            copies(r@, self@),
    {
        let mut out: Vec<R> = Vec::new();
        let mut i: usize = 0;
        while i < self.rows.len()
            invariant
                i <= self.rows@.len(),
                self.rows@ == self@,
                copies(out@, self@.subrange(0, i as int)),
            decreases self.rows@.len() - i,
        {
            out.push(self.rows[i].duplicate());
            i = i + 1;
        }
        proof {
            assert(self@.subrange(0, self@.len() as int) =~= self@);
        }
        out
    }

    /// Stores `r` under its key `k`, over any record already there.
    pub fn put(&mut self, k: &R::Key, r: R)
        requires
            old(self).wf(),
            r.key() == *k,
        ensures
            final(self).wf(),
            final(self).lookup(*k) == Some(r),
            forall|j: R::Key| j != *k ==> final(self).lookup(j) == old(self).lookup(j),
    {
        let ghost s = self@;
        match self.find(k) {
            Some(i) => {
                self.replace(i, r);
                proof {
                    assert forall|j: R::Key| j != *k implies lookup_in(self@, j) == lookup_in(s, j) by {
                        lemma_lookup_update(s, i as int, r, j);
                    }
                    lemma_lookup_update(s, i as int, r, *k);
                }
            },
            None => {
                self.insert(r);
                proof {
                    assert forall|j: R::Key| j != *k implies lookup_in(self@, j) == lookup_in(s, j) by {
                        lemma_lookup_push(s, r, j);
                    }
                    lemma_lookup_push(s, r, *k);
                }
            },
        }
    }
}

/// A record just appended to a store is what the store finds under its key:
/// reading back a created record gives that record.
pub proof fn lemma_created_is_found<R: Record>(t: Table<R>)
    requires
        t.wf(),
        t@.len() > 0,
    ensures
        t.lookup(t@.last().key()) == Some(t@.last()),
{
    lemma_lookup_at(t@, t@.len() - 1);
}

} // verus!