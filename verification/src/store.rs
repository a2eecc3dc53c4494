//! The in-memory record store, and its thread-safe shared handle.

use std::sync::Arc;

use vstd::prelude::*;
use vstd::rwlock::{RwLock, RwLockPredicate};

use crate::models::{canonical_name, normalize_name, CreateRecord, Record, RecordType, RecordView};

verus! {

broadcast use vstd::string::group_string_axioms;

/// A text in the shape of a random (version 4) UUID in hyphenated lowercase form.
pub open spec fn uuid_text(s: Seq<char>) -> bool {
    &&& s.len() == 36
    &&& forall|i: int|
        0 <= i < 36 ==> if i == 8 || i == 13 || i == 18 || i == 23 {
            #[trigger] s[i] == '-'
        } else {
            ('0' <= s[i] && s[i] <= '9') || ('a' <= s[i] && s[i] <= 'f')
        }
    &&& s[14] == '4'
    &&& (s[19] == '8' || s[19] == '9' || s[19] == 'a' || s[19] == 'b')
}

/// A fresh record id: a random version-4 UUID (`uuid::Uuid::new_v4`) in its
/// hyphenated lowercase text form.
#[verifier::external_body]
fn new_record_id() -> (id: String)
    ensures
        uuid_text(id@),
{
    uuid::Uuid::new_v4().to_string()
}

/// The record that a creation request becomes under the given id.
pub open spec fn created_record(id: Seq<char>, name: Seq<char>, rtype: RecordType, ttl: u32, data: Seq<char>) -> RecordView {
    RecordView { id, name: canonical_name(name), record_type: rtype, ttl, data }
}

/// The elements of `s` that satisfy `p`, in their order in `s`.
pub open spec fn select(s: Seq<RecordView>, p: spec_fn(RecordView) -> bool) -> Seq<RecordView>
    decreases s.len(),
{
    if s.len() == 0 {
        Seq::empty()
    } else {
        let rest = select(s.drop_last(), p);
        if p(s.last()) {
            rest.push(s.last())
        } else {
            rest
        }
    }
}

/// The optional name filter as a character sequence.
pub open spec fn name_filter(name: Option<&str>) -> Option<Seq<char>> {
    match name {
        Some(n) => Some(n@),
        None => None,
    }
}

/// Whether a record passes a filter: its name is the canonical form of the
/// filter's name, and its type is the filter's type, where each is given.
pub open spec fn passes(r: RecordView, name: Option<Seq<char>>, rtype: Option<RecordType>) -> bool {
    &&& (match name {
        Some(n) => r.name == canonical_name(n),
        None => true,
    })
    &&& (match rtype {
        Some(t) => r.record_type == t,
        None => true,
    })
}

/// The records that pass a filter, in store order.
pub open spec fn filtered(s: Seq<RecordView>, name: Option<Seq<char>>, rtype: Option<RecordType>) -> Seq<RecordView> {
    select(s, |r: RecordView| passes(r, name, rtype))
}

/// The records that do not pass a filter, in store order.
pub open spec fn filtered_out(s: Seq<RecordView>, name: Option<Seq<char>>, rtype: Option<RecordType>) -> Seq<RecordView> {
    select(s, |r: RecordView| !passes(r, name, rtype))
}

/// The records whose id is not `id`.
pub open spec fn without_id(s: Seq<RecordView>, id: Seq<char>) -> Seq<RecordView> {
    select(s, |r: RecordView| r.id != id)
}

/// Whether some record has id `id`.
pub open spec fn has_id(s: Seq<RecordView>, id: Seq<char>) -> bool {
    exists|i: int| 0 <= i < s.len() && #[trigger] s[i].id == id
}

/// The record with id `id`, if there is one.
pub open spec fn record_with_id(s: Seq<RecordView>, id: Seq<char>) -> Option<RecordView> {
    if has_id(s, id) {
        Some(s[choose|i: int| 0 <= i < s.len() && #[trigger] s[i].id == id])
    } else {
        None
    }
}

/// `s` with `r` stored under its id: it replaces the record with that id
/// where there is one, and is appended otherwise.
pub open spec fn upsert(s: Seq<RecordView>, r: RecordView) -> Seq<RecordView> {
    if has_id(s, r.id) {
        s.update(choose|i: int| 0 <= i < s.len() && #[trigger] s[i].id == r.id, r)
    } else {
        s.push(r)
    }
}

/// No two records share an id.
pub open spec fn distinct_ids(s: Seq<RecordView>) -> bool {
    forall|i: int, j: int| 0 <= i < s.len() && 0 <= j < s.len() && i != j ==> #[trigger] s[i].id != #[trigger] s[j].id
}

/// Every record's name is in canonical form.
pub open spec fn canonical_names(s: Seq<RecordView>) -> bool {
    forall|i: int| 0 <= i < s.len() ==> #[trigger] canonical_name(s[i].name) == s[i].name
}

/// A selected record was held and passes the predicate.
pub proof fn lemma_select_contains(s: Seq<RecordView>, p: spec_fn(RecordView) -> bool, x: RecordView)
    requires
        select(s, p).contains(x),
    ensures
        s.contains(x),
        p(x),
    decreases s.len(),
{
    if s.len() > 0 {
        let rest = select(s.drop_last(), p);
        if p(s.last()) && x == s.last() {
            assert(s[s.len() - 1] == x);
        } else {
            if p(s.last()) {
                let k = choose|k: int| 0 <= k < select(s, p).len() && select(s, p)[k] == x;
                assert(rest.push(s.last())[k] == x);
                assert(k < rest.len());
                assert(rest[k] == x);
            }
            assert(rest.contains(x));
            lemma_select_contains(s.drop_last(), p, x);
            let j = choose|j: int| 0 <= j < s.drop_last().len() && s.drop_last()[j] == x;
            assert(s[j] == x);
        }
    }
}

/// A held record that passes the predicate is selected.
pub proof fn lemma_select_keeps(s: Seq<RecordView>, p: spec_fn(RecordView) -> bool, x: RecordView)
    requires
        s.contains(x),
        p(x),
    ensures
        select(s, p).contains(x),
    decreases s.len(),
{
    if s.last() == x {
        assert(select(s, p)[select(s, p).len() - 1] == x);
    } else {
        let j = choose|j: int| 0 <= j < s.len() && s[j] == x;
        assert(j < s.len() - 1);
        assert(s.drop_last()[j] == x);
        lemma_select_keeps(s.drop_last(), p, x);
        let k = choose|k: int| 0 <= k < select(s.drop_last(), p).len() && select(s.drop_last(), p)[k] == x;
        if p(s.last()) {
            assert(select(s, p)[k] == x);
        }
    }
}

/// Selection keeps ids distinct.
pub proof fn lemma_select_distinct(s: Seq<RecordView>, p: spec_fn(RecordView) -> bool)
    requires
        distinct_ids(s),
    ensures
        distinct_ids(select(s, p)),
    decreases s.len(),
{
    if s.len() > 0 {
        let init = s.drop_last();
        assert(distinct_ids(init)) by {
            assert forall|i: int, j: int| 0 <= i < init.len() && 0 <= j < init.len() && i != j implies #[trigger] init[i].id != #[trigger] init[j].id by {
                assert(init[i] == s[i] && init[j] == s[j]);
            }
        }
        lemma_select_distinct(init, p);
        let rest = select(init, p);
        if p(s.last()) {
            let res = rest.push(s.last());
            assert forall|i: int, j: int| 0 <= i < res.len() && 0 <= j < res.len() && i != j implies #[trigger] res[i].id != #[trigger] res[j].id by {
                if i == res.len() - 1 || j == res.len() - 1 {
                    let k = if i == res.len() - 1 { j } else { i };
                    assert(rest.contains(res[k]));
                    lemma_select_contains(init, p, res[k]);
                    let m = choose|m: int| 0 <= m < init.len() && init[m] == res[k];
                    assert(s[m] == res[k]);
                    assert(s[s.len() - 1].id != s[m].id);
                } else {
                    assert(res[i] == rest[i] && res[j] == rest[j]);
                }
            }
        }
    }
}

/// Selection keeps names canonical.
pub proof fn lemma_select_canonical(s: Seq<RecordView>, p: spec_fn(RecordView) -> bool)
    requires
        canonical_names(s),
    ensures
        canonical_names(select(s, p)),
{
    let res = select(s, p);
    assert forall|i: int| 0 <= i < res.len() implies #[trigger] canonical_name(res[i].name) == res[i].name by {
        assert(res.contains(res[i]));
        lemma_select_contains(s, p, res[i]);
    }
}

/// The in-memory record store.
pub struct RecordStore {
    records: Vec<Record>,
    /// A ghost mark that the store keeps through all its operations. A new
    /// store's mark is not revealed, so no other store can be shown to
    /// bear the mark of the store that a `SharedStore` guards.
    mark: Ghost<int>,
}

impl View for RecordStore {
    type V = Seq<RecordView>;

    closed spec fn view(&self) -> Seq<RecordView> {
        self.records@.map_values(|r: Record| r@)
    }
}

impl RecordStore {
    /// The store's ghost mark.
    pub closed spec fn mark(&self) -> int {
        self.mark@
    }

    /// Ids are distinct and names canonical.
    pub open spec fn wf(&self) -> bool {
        &&& distinct_ids(self@)
        &&& canonical_names(self@)
    }

    /// An empty store.
    pub fn new() -> (s: Self)
        ensures
            s.wf(),
            s@ == Seq::<RecordView>::empty(),
    {
        let s = RecordStore { records: Vec::new(), mark: Ghost(0) };
        assert(s@ =~= Seq::<RecordView>::empty());
        s
    }

    /// Adds a record made from `req` under a fresh random id, and returns it.
    pub fn add(&mut self, req: CreateRecord) -> (res: Record)
        requires
            old(self).wf(),
        ensures
            final(self).mark() == old(self).mark(),
            final(self).wf(),
            uuid_text(res.id@),
            res@ == created_record(res.id@, req.name@, req.record_type, req.ttl, req.data@),
            final(self)@ == upsert(old(self)@, res@),
    {
        let id = new_record_id();
        self.insert_with_id(id, req)
    }

    /// Stores the record made from `req` under `id` (replacing a record
    /// with that id, if any), and returns it.
    pub fn insert_with_id(&mut self, id: String, req: CreateRecord) -> (res: Record)
        requires
            old(self).wf(),
        ensures
            final(self).mark() == old(self).mark(),
            final(self).wf(),
            res@ == created_record(id@, req.name@, req.record_type, req.ttl, req.data@),
            final(self)@ == upsert(old(self)@, res@),
    {
        let ghost want = created_record(id@, req.name@, req.record_type, req.ttl, req.data@);
        let name = normalize_name(req.name.as_str());
        let record = Record { id, name, record_type: req.record_type, ttl: req.ttl, data: req.data };
        proof {
            crate::laws::lemma_canonical_idempotent(req.name@);
        }
        let ghost s = self@;
        let mut i: usize = 0;
        while i < self.records.len()
            invariant
                i <= self.records.len(),
                self@ == s,
                s.len() == self.records.len(),
                distinct_ids(s),
                canonical_names(s),
                canonical_name(record.name@) == record.name@,
                record@ == want,
                want == created_record(id@, req.name@, req.record_type, req.ttl, req.data@),
                s == old(self)@,
                self.mark() == old(self).mark(),
                forall|j: int| 0 <= j < i ==> #[trigger] s[j].id != record.id@,
            decreases self.records.len() - i,
        {
            assert(s[i as int] == self.records@[i as int]@);
            if self.records[i].id == record.id {
                let out = record.clone();
                self.records.set(i, record);
                proof {
                    assert(s[i as int].id == out.id@);
                    assert(has_id(s, out.id@));
                    let c = choose|k: int| 0 <= k < s.len() && #[trigger] s[k].id == out.id@;
                    assert(c == i);
                    assert(self@ =~= s.update(i as int, out@));
                    assert forall|a: int, b: int| 0 <= a < self@.len() && 0 <= b < self@.len() && a != b implies #[trigger] self@[a].id != #[trigger] self@[b].id by {
                        assert(s[a].id == self@[a].id && s[b].id == self@[b].id);
                    }
                }
                return out;
            }
            i = i + 1;
        }
        let out = record.clone();
        self.records.push(record);
        proof {
            assert(!has_id(s, out.id@));
            assert(self@ =~= s.push(out@));
        }
        out
    }

    /// The record with id `id`, if any.
    pub fn get(&self, id: &str) -> (res: Option<Record>)
        requires
            self.wf(),
        ensures
            match (res, record_with_id(self@, id@)) {
                (Some(r), Some(v)) => r@ == v,
                (None, None) => true,
                _ => false,
            },
    {
        let key = String::from_str(id);
        let mut i: usize = 0;
        while i < self.records.len()
            invariant
                i <= self.records.len(),
                key@ == id@,
                self@.len() == self.records.len(),
                distinct_ids(self@),
                forall|j: int| 0 <= j < i ==> #[trigger] self@[j].id != id@,
            decreases self.records.len() - i,
        {
            assert(self@[i as int] == self.records@[i as int]@);
            if self.records[i].id == key {
                proof {
                    assert(self@[i as int].id == id@);
                    let c = choose|k: int| 0 <= k < self@.len() && #[trigger] self@[k].id == id@;
                    assert(c == i);
                }
                return Some(self.records[i].clone());
            }
            i = i + 1;
        }
        None
    }

    /// The records that pass the filter, in store order.
    pub fn list_filtered(&self, name: Option<&str>, rtype: Option<RecordType>) -> (res: Vec<Record>)
        requires
            self.wf(),
        ensures
            res@.map_values(|r: Record| r@) == filtered(self@, name_filter(name), rtype),
    {
        let canonical: Option<String> = match name {
            Some(n) => Some(normalize_name(n)),
            None => None,
        };
        let ghost p = |r: RecordView| passes(r, name_filter(name), rtype);
        let mut res: Vec<Record> = Vec::new();
        let mut i: usize = 0;
        while i < self.records.len()
            invariant
                i <= self.records.len(),
                self@.len() == self.records.len(),
                p == (|r: RecordView| passes(r, name_filter(name), rtype)),
                match (canonical, name) {
                    (Some(c), Some(n)) => c@ == canonical_name(n@),
                    (None, None) => true,
                    _ => false,
                },
                res@.map_values(|r: Record| r@) == select(self@.take(i as int), p),
            decreases self.records.len() - i,
        {
            let r = &self.records[i];
            assert(self@[i as int] == r@);
            let name_ok = match &canonical {
                Some(c) => r.name == *c,
                None => true,
            };
            let type_ok = match rtype {
                Some(t) => r.record_type == t,
                None => true,
            };
            assert(self@.take(i + 1).drop_last() == self@.take(i as int));
            if name_ok && type_ok {
                res.push(r.clone());
                assert(res@.map_values(|r: Record| r@) == select(self@.take(i as int), p).push(r@));
            }
            i = i + 1;
        }
        assert(self@.take(self.records.len() as int) == self@);
        res
    }

    /// Look up DNS records matching a canonical name + type.
    pub fn lookup(&self, name: &str, rtype: RecordType) -> (res: Vec<Record>)
        requires
            self.wf(),
        ensures
            res@.map_values(|r: Record| r@) == filtered(self@, Some(name@), Some(rtype)),
    {
        self.list_filtered(Some(name), Some(rtype))
    }

    /// Deletes the record with id `id`; tells whether there was one.
    pub fn delete(&mut self, id: &str) -> (found: bool)
        requires
            old(self).wf(),
        ensures
            final(self).mark() == old(self).mark(),
            final(self).wf(),
            found == has_id(old(self)@, id@),
            final(self)@ == without_id(old(self)@, id@),
    {
        let key = String::from_str(id);
        let ghost s = self@;
        let ghost p = |r: RecordView| r.id != id@;
        let mut kept: Vec<Record> = Vec::new();
        let mut found = false;
        let mut i: usize = 0;
        while i < self.records.len()
            invariant
                i <= self.records.len(),
                self@ == s,
                s.len() == self.records.len(),
                key@ == id@,
                p == (|r: RecordView| r.id != id@),
                kept@.map_values(|r: Record| r@) == select(s.take(i as int), p),
                found == exists|j: int| 0 <= j < i && #[trigger] s[j].id == id@,
            decreases self.records.len() - i,
        {
            let r = &self.records[i];
            assert(s[i as int] == r@);
            assert(s.take(i + 1).drop_last() == s.take(i as int));
            if r.id == key {
                found = true;
                assert(s[i as int].id == id@);
            } else {
                kept.push(r.clone());
                assert(kept@.map_values(|r: Record| r@) == select(s.take(i as int), p).push(r@));
            }
            i = i + 1;
        }
        assert(s.take(s.len() as int) == s);
        self.records = kept;
        proof {
            lemma_select_distinct(s, p);
            lemma_select_canonical(s, p);
            if has_id(s, id@) {
                let j = choose|j: int| 0 <= j < s.len() && #[trigger] s[j].id == id@;
                assert(s[j].id == id@);
            }
        }
        found
    }

    /// Deletes every record.
    pub fn delete_all(&mut self)
        ensures
            final(self).mark() == old(self).mark(),
            final(self).wf(),
            final(self)@ == Seq::<RecordView>::empty(),
    {
        self.records.clear();
        assert(self@ =~= Seq::<RecordView>::empty());
    }

    /// Deletes the records that pass the filter, keeping the others in order.
    pub fn delete_filtered(&mut self, name: Option<&str>, rtype: Option<RecordType>)
        requires
            old(self).wf(),
        ensures
            final(self).mark() == old(self).mark(),
            final(self).wf(),
            final(self)@ == filtered_out(old(self)@, name_filter(name), rtype),
    {
        let canonical: Option<String> = match name {
            Some(n) => Some(normalize_name(n)),
            None => None,
        };
        let ghost s = self@;
        let ghost p = |r: RecordView| !passes(r, name_filter(name), rtype);
        let mut kept: Vec<Record> = Vec::new();
        let mut i: usize = 0;
        while i < self.records.len()
            invariant
                i <= self.records.len(),
                self@ == s,
                s.len() == self.records.len(),
                p == (|r: RecordView| !passes(r, name_filter(name), rtype)),
                match (canonical, name) {
                    (Some(c), Some(n)) => c@ == canonical_name(n@),
                    (None, None) => true,
                    _ => false,
                },
                kept@.map_values(|r: Record| r@) == select(s.take(i as int), p),
            decreases self.records.len() - i,
        {
            let r = &self.records[i];
            assert(s[i as int] == r@);
            let name_ok = match &canonical {
                Some(c) => r.name == *c,
                None => true,
            };
            let type_ok = match rtype {
                Some(t) => r.record_type == t,
                None => true,
            };
            assert(s.take(i + 1).drop_last() == s.take(i as int));
            if !(name_ok && type_ok) {
                kept.push(r.clone());
                assert(kept@.map_values(|r: Record| r@) == select(s.take(i as int), p).push(r@));
            }
            i = i + 1;
        }
        assert(s.take(s.len() as int) == s);
        self.records = kept;
        proof {
            lemma_select_distinct(s, p);
            lemma_select_canonical(s, p);
        }
    }
}

/// The lock's invariant: the guarded store is well formed and bears the
/// mark of the store that the lock was made with.
pub struct WellFormedStore {
    pub mark: Ghost<int>,
}

impl RwLockPredicate<RecordStore> for WellFormedStore {
    open spec fn inv(self, v: RecordStore) -> bool {
        v.wf() && v.mark() == self.mark@
    }
}

/// Shared, thread-safe handle on a `RecordStore`. Other handles may change
/// the store between two calls, so each result is stated for some
/// well-formed state of the store at the time of the call.
pub struct SharedStore {
    pub(crate) inner: Arc<RwLock<RecordStore, WellFormedStore>>,
}

impl Clone for SharedStore {
    /// Another handle on the same store.
    fn clone(&self) -> (res: Self)
        ensures
            res.mark() == self.mark(),
    {
        SharedStore { inner: Arc::clone(&self.inner) }
    }
}

impl SharedStore {
    /// The mark of the store that this handle guards: every state that the
    /// handle's operations read or leave bears it.
    pub closed spec fn mark(&self) -> int {
        self.inner.pred().mark@
    }

    /// The mark is that of the lock's invariant.
    pub(crate) proof fn lemma_lock_mark(&self)
        ensures
            self.mark() == self.inner.pred().mark@,
    {
    }

    /// A handle on a new, empty store.
    pub fn new() -> (s: Self) {
        let store = RecordStore::new();
        let ghost m = store.mark();
        SharedStore { inner: Arc::new(RwLock::new(store, Ghost(WellFormedStore { mark: Ghost(m) }))) }
    }

    /// Adds a record made from `req` under a fresh random id, and returns it.
    pub fn add(&self, req: CreateRecord) -> (res: Record)
        ensures
            uuid_text(res.id@),
            res@ == created_record(res.id@, req.name@, req.record_type, req.ttl, req.data@),
            exists|before: RecordStore, after: RecordStore| #![trigger before.wf(), after.wf()]
                before.wf() && after.wf() && before.mark() == self.mark() && after.mark() == self.mark() && after@ == upsert(before@, res@),
    {
        let (mut store, handle) = self.inner.acquire_write();
        let ghost before = store;
        let res = store.add(req);
        let ghost after = store;
        handle.release_write(store);
        proof {
            assert(before.wf() && after.wf());
        }
        res
    }

    /// The record with id `id` in the store at the time of the call, if any.
    pub fn get(&self, id: &str) -> (res: Option<Record>)
        ensures
            exists|s: RecordStore| #![trigger s.wf()] s.wf() && s.mark() == self.mark() && match (res, record_with_id(s@, id@)) {
                (Some(r), Some(v)) => r@ == v,
                (None, None) => true,
                _ => false,
            },
    {
        let handle = self.inner.acquire_read();
        let store = handle.borrow();
        let res = store.get(id);
        proof {
            assert(store.wf());
        }
        handle.release_read();
        res
    }

    /// The records that pass the filter, in the store at the time of the call.
    pub fn list_filtered(&self, name: Option<&str>, rtype: Option<RecordType>) -> (res: Vec<Record>)
        ensures
            exists|s: RecordStore| #![trigger s.wf()] s.wf() && s.mark() == self.mark() && res@.map_values(|r: Record| r@)
                == filtered(s@, name_filter(name), rtype),
    {
        let handle = self.inner.acquire_read();
        let store = handle.borrow();
        let res = store.list_filtered(name, rtype);
        proof {
            assert(store.wf());
        }
        handle.release_read();
        res
    }

    /// The records of name `name` (in canonical form) and type `rtype`, in
    /// the store at the time of the call.
    pub fn lookup(&self, name: &str, rtype: RecordType) -> (res: Vec<Record>)
        ensures
            exists|s: RecordStore| #![trigger s.wf()] s.wf() && s.mark() == self.mark() && res@.map_values(|r: Record| r@)
                == filtered(s@, Some(name@), Some(rtype)),
    {
        let handle = self.inner.acquire_read();
        let store = handle.borrow();
        let res = store.lookup(name, rtype);
        proof {
            assert(store.wf());
        }
        handle.release_read();
        res
    }

    /// Deletes the record with id `id`; tells whether the store held one.
    /// The store left behind has no record of that id.
    pub fn delete(&self, id: &str) -> (found: bool)
        ensures
            exists|before: RecordStore, after: RecordStore| #![trigger before.wf(), after.wf()]
                before.wf() && after.wf() && before.mark() == self.mark() && after.mark() == self.mark() && found == has_id(before@, id@) && after@ == without_id(before@, id@),
    {
        let (mut store, handle) = self.inner.acquire_write();
        let ghost before = store;
        let found = store.delete(id);
        let ghost after = store;
        handle.release_write(store);
        proof {
            assert(before.wf() && after.wf());
        }
        found
    }

    /// Deletes every record: the store left behind is empty.
    pub fn delete_all(&self)
        ensures
            exists|after: RecordStore| #![trigger after.wf()] after.wf() && after.mark() == self.mark() && after@ == Seq::<RecordView>::empty(),
    {
        let (mut store, handle) = self.inner.acquire_write();
        store.delete_all();
        let ghost after = store;
        handle.release_write(store);
        proof {
            assert(after.wf());
        }
    }

    /// Deletes the records that pass the filter: the store left behind
    /// holds the others.
    pub fn delete_filtered(&self, name: Option<&str>, rtype: Option<RecordType>)
        ensures
            exists|before: RecordStore, after: RecordStore| #![trigger before.wf(), after.wf()]
                before.wf() && after.wf() && before.mark() == self.mark() && after.mark() == self.mark() && after@ == filtered_out(before@, name_filter(name), rtype),
    {
        let (mut store, handle) = self.inner.acquire_write();
        let ghost before = store;
        store.delete_filtered(name, rtype);
        let ghost after = store;
        handle.release_write(store);
        proof {
            assert(before.wf() && after.wf());
        }
    }
}

} // verus!
