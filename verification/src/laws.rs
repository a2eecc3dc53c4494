//! Properties of the library that span several operations.

use vstd::prelude::*;

use crate::cache::{
    cache_ttl, decoded_answer_ttls, distinct_keys, entries_not_named, has_key, is_fresh, key_index,
    lookup_at, min_of, stored_at, EntryView, NEGATIVE_CACHE_TTL_SECS,
};
use crate::dns::{answers_of, encodable, encodable_answers, first_step, patched, tcp_framed, udp_payload, StepView, ReplyView, ResponseCode, decoded_request};
use crate::models::{canonical_name, parse_type_spec, presentation_name, type_code, type_of_code, RecordType};
use crate::store::{
    distinct_ids, filtered, filtered_out, has_id, passes, record_with_id, select, upsert, without_id,
    lemma_select_contains, lemma_select_keeps,
};
use crate::models::RecordView;
use crate::rdata::{answer_of, AnswerView};
use crate::svcb::{has_key as has_param_key, params_text, svcb_text};
use crate::http::decimal_text;
use crate::parse::{all_digits, decimal_value, digit_value, ipv4_text, is_digit, octet_text, split_on};
use crate::text::{lower_char, lower_text, upper_text};

verus! {

/// Canonicalizing a name twice gives the same as canonicalizing it once.
pub proof fn lemma_canonical_idempotent(name: Seq<char>)
    ensures
        canonical_name(canonical_name(name)) == canonical_name(name),
{
    let c = canonical_name(name);
    assert forall|i: int| 0 <= i < c.len() implies #[trigger] lower_char(c[i]) == c[i] by {}
    assert(lower_text(c) =~= c);
}

/// A canonical name ends with a dot.
pub proof fn law_canonical_name_ends_with_dot(name: Seq<char>)
    ensures
        canonical_name(name).len() > 0,
        canonical_name(name).last() == '.',
{
}

// ---------------------------------------------------------------- record types

/// Parsing the name of a record type gives that type back.
pub proof fn law_type_name_round_trip(t: RecordType)
    ensures
        parse_type_spec(presentation_name(t)) == Ok::<RecordType, Seq<char>>(t),
{
    let n = presentation_name(t);
    assert(upper_text(n) =~= n);
}

/// Parsing a record type name ignores ASCII case.
pub proof fn law_type_parse_ignores_case(s: Seq<char>)
    ensures
        parse_type_spec(lower_text(s)) == parse_type_spec(s),
        parse_type_spec(upper_text(s)) == parse_type_spec(s),
{
    assert(upper_text(lower_text(s)) =~= upper_text(s));
    assert(upper_text(upper_text(s)) =~= upper_text(s));
}

/// The wire TYPE value of a record type maps back to it, and only it.
pub proof fn law_type_code_round_trip(t: RecordType, code: u16)
    ensures
        type_of_code(type_code(t)) == Some(t),
        type_of_code(code) == Some(t) ==> type_code(t) == code,
{
}

// ---------------------------------------------------------------- store

/// Storing a record keeps ids distinct, and the record is then held.
pub proof fn lemma_upsert_distinct(s: Seq<RecordView>, r: RecordView)
    requires
        distinct_ids(s),
    ensures
        distinct_ids(upsert(s, r)),
        upsert(s, r).contains(r),
{
    let u = upsert(s, r);
    if has_id(s, r.id) {
        let i = choose|i: int| 0 <= i < s.len() && #[trigger] s[i].id == r.id;
        assert forall|a: int, b: int| 0 <= a < u.len() && 0 <= b < u.len() && a != b implies #[trigger] u[a].id != #[trigger] u[b].id by {
            assert(u[a].id == s[a].id && u[b].id == s[b].id);
        }
        assert(u[i] == r);
    } else {
        assert(u[u.len() - 1] == r);
    }
}

/// With distinct ids, looking up a held record's id finds that record.
pub proof fn lemma_id_unique(s: Seq<RecordView>, i: int)
    requires
        distinct_ids(s),
        0 <= i < s.len(),
    ensures
        record_with_id(s, s[i].id) == Some(s[i]),
{
    assert(has_id(s, s[i].id));
}

/// Read after write: after a record is stored, the store gives it back by its id.
pub proof fn law_get_after_add(s: Seq<RecordView>, r: RecordView)
    requires
        distinct_ids(s),
    ensures
        record_with_id(upsert(s, r), r.id) == Some(r),
{
    lemma_upsert_distinct(s, r);
    let u = upsert(s, r);
    let i = choose|i: int| 0 <= i < u.len() && u[i] == r;
    lemma_id_unique(u, i);
}

/// Storing a record leaves every record of another id as it was.
pub proof fn law_add_keeps_other_ids(s: Seq<RecordView>, r: RecordView, other: Seq<char>)
    requires
        distinct_ids(s),
        other != r.id,
    ensures
        record_with_id(upsert(s, r), other) == record_with_id(s, other),
{
    lemma_upsert_distinct(s, r);
    let u = upsert(s, r);
    if has_id(s, other) {
        let j = choose|j: int| 0 <= j < s.len() && #[trigger] s[j].id == other;
        lemma_id_unique(s, j);
        if has_id(s, r.id) {
            let i = choose|i: int| 0 <= i < s.len() && #[trigger] s[i].id == r.id;
            assert(j != i);
            assert(u[j] == s[j]);
        } else {
            assert(u[j] == s[j]);
        }
        lemma_id_unique(u, j);
    } else {
        if has_id(u, other) {
            let k = choose|k: int| 0 <= k < u.len() && #[trigger] u[k].id == other;
            if has_id(s, r.id) {
                let i = choose|i: int| 0 <= i < s.len() && #[trigger] s[i].id == r.id;
                if k != i {
                    assert(s[k].id == other);
                }
            } else {
                if k < s.len() {
                    assert(s[k] == u[k]);
                }
            }
        }
    }
}

/// After a delete, the store has no record of that id.
pub proof fn law_get_after_delete(s: Seq<RecordView>, id: Seq<char>)
    ensures
        record_with_id(without_id(s, id), id) is None,
{
    let w = without_id(s, id);
    if has_id(w, id) {
        let k = choose|k: int| 0 <= k < w.len() && #[trigger] w[k].id == id;
        assert(w.contains(w[k]));
        lemma_select_contains(s, |r: RecordView| r.id != id, w[k]);
    }
}

/// A delete leaves every record of another id as it was.
pub proof fn law_delete_keeps_other_ids(s: Seq<RecordView>, id: Seq<char>, other: Seq<char>)
    requires
        distinct_ids(s),
        other != id,
    ensures
        record_with_id(without_id(s, id), other) == record_with_id(s, other),
{
    let p = |r: RecordView| r.id != id;
    let w = without_id(s, id);
    crate::store::lemma_select_distinct(s, p);
    if has_id(s, other) {
        let j = choose|j: int| 0 <= j < s.len() && #[trigger] s[j].id == other;
        lemma_id_unique(s, j);
        assert(s.contains(s[j]));
        lemma_select_keeps(s, p, s[j]);
        let k = choose|k: int| 0 <= k < w.len() && w[k] == s[j];
        lemma_id_unique(w, k);
    } else {
        if has_id(w, other) {
            let k = choose|k: int| 0 <= k < w.len() && #[trigger] w[k].id == other;
            assert(w.contains(w[k]));
            lemma_select_contains(s, p, w[k]);
            let j = choose|j: int| 0 <= j < s.len() && s[j] == w[k];
            assert(s[j].id == other);
        }
    }
}

/// Selecting by a predicate that every record passes keeps everything.
pub proof fn lemma_select_all(s: Seq<RecordView>, p: spec_fn(RecordView) -> bool)
    requires
        forall|r: RecordView| #[trigger] p(r),
    ensures
        select(s, p) == s,
    decreases s.len(),
{
    if s.len() > 0 {
        lemma_select_all(s.drop_last(), p);
        assert(s.drop_last().push(s.last()) =~= s);
    }
}

/// Nothing selected by `q` passes a predicate `p` that excludes it.
pub proof fn lemma_select_none(s: Seq<RecordView>, p: spec_fn(RecordView) -> bool, q: spec_fn(RecordView) -> bool)
    requires
        forall|r: RecordView| #[trigger] q(r) ==> !p(r),
    ensures
        select(select(s, q), p) =~= Seq::<RecordView>::empty(),
    decreases s.len(),
{
    if s.len() > 0 {
        lemma_select_none(s.drop_last(), p, q);
        let x = select(s.drop_last(), q);
        if q(s.last()) {
            assert(x.push(s.last()).drop_last() =~= x);
            assert(select(x.push(s.last()), p) == select(x, p));
        }
    }
}

/// Listing without a filter gives every record.
pub proof fn law_unfiltered_list_is_everything(s: Seq<RecordView>)
    ensures
        filtered(s, None, None) == s,
{
    lemma_select_all(s, |r: RecordView| passes(r, None, None));
}

/// Every listed record passes the filter, and every record that passes it is listed.
pub proof fn law_list_is_exactly_the_matches(s: Seq<RecordView>, name: Option<Seq<char>>, rtype: Option<RecordType>, r: RecordView)
    ensures
        filtered(s, name, rtype).contains(r) <==> (s.contains(r) && passes(r, name, rtype)),
{
    let p = |x: RecordView| passes(x, name, rtype);
    if filtered(s, name, rtype).contains(r) {
        lemma_select_contains(s, p, r);
    }
    if s.contains(r) && passes(r, name, rtype) {
        lemma_select_keeps(s, p, r);
    }
}

/// Lookup ignores ASCII case and a trailing dot: names with the same
/// canonical form find the same records.
pub proof fn law_lookup_by_canonical_name(s: Seq<RecordView>, n1: Seq<char>, n2: Seq<char>, t: Option<RecordType>)
    requires
        canonical_name(n1) == canonical_name(n2),
    ensures
        filtered(s, Some(n1), t) == filtered(s, Some(n2), t),
{
    assert((|r: RecordView| passes(r, Some(n1), t)) =~= (|r: RecordView| passes(r, Some(n2), t)));
}

/// After deleting by a filter, nothing passes that filter, and the other
/// records stay.
pub proof fn law_delete_filtered_removes_matches(s: Seq<RecordView>, name: Option<Seq<char>>, rtype: Option<RecordType>, r: RecordView)
    ensures
        filtered(filtered_out(s, name, rtype), name, rtype) == Seq::<RecordView>::empty(),
        (s.contains(r) && !passes(r, name, rtype)) ==> filtered_out(s, name, rtype).contains(r),
{
    lemma_select_none(s, |x: RecordView| passes(x, name, rtype), |x: RecordView| !passes(x, name, rtype));
    if s.contains(r) && !passes(r, name, rtype) {
        lemma_select_keeps(s, |x: RecordView| !passes(x, name, rtype), r);
    }
}

// ---------------------------------------------------------------- cache

/// Storing an entry keeps keys distinct, and its key then finds it.
pub proof fn lemma_store_entry_finds(s: Seq<EntryView>, e: EntryView)
    requires
        distinct_keys(s),
    ensures
        distinct_keys(crate::cache::store_entry(s, e)),
        has_key(crate::cache::store_entry(s, e), e.name, e.query_type),
        crate::cache::store_entry(s, e)[key_index(crate::cache::store_entry(s, e), e.name, e.query_type)] == e,
{
    let u = crate::cache::store_entry(s, e);
    let i = if has_key(s, e.name, e.query_type) {
        key_index(s, e.name, e.query_type)
    } else {
        s.len() as int
    };
    assert forall|a: int, b: int| 0 <= a < u.len() && 0 <= b < u.len() && a != b implies (#[trigger] u[a]).name != (#[trigger] u[b]).name || u[a].query_type != u[b].query_type by {
        if a != i && b != i {
            assert(u[a] == s[a] && u[b] == s[b]);
        } else if a == i {
            assert(u[b] == s[b]);
        } else {
            assert(u[a] == s[a]);
        }
    }
    assert(u[i] == e);
    assert(has_key(u, e.name, e.query_type));
    let k = key_index(u, e.name, e.query_type);
    assert(k == i);
}

/// A stored response is served until its cache TTL has passed (a reading
/// before the store counts as no time passed).
pub proof fn law_cache_serves_fresh_response(s: Seq<EntryView>, name: Seq<char>, qtype: u16, response: Seq<u8>, stored: u128, now: u128, max_ttl: u64)
    requires
        distinct_keys(s),
        (if now >= stored { now - stored } else { 0 }) < cache_ttl(decoded_answer_ttls(response), max_ttl) as int * 1_000_000_000,
    ensures
        lookup_at(stored_at(s, name, qtype, response, stored, max_ttl), name, qtype, now).0 == Some(response),
{
    let e = EntryView { name, query_type: qtype, response, created_at: stored, ttl: cache_ttl(decoded_answer_ttls(response), max_ttl) };
    lemma_store_entry_finds(s, e);
}

/// Once its cache TTL has passed, a stored response is no longer served,
/// and its entry is dropped.
pub proof fn law_cache_expires(s: Seq<EntryView>, name: Seq<char>, qtype: u16, response: Seq<u8>, stored: u128, now: u128, max_ttl: u64)
    requires
        distinct_keys(s),
        stored <= now,
        now - stored >= cache_ttl(decoded_answer_ttls(response), max_ttl) as int * 1_000_000_000,
    ensures
        lookup_at(stored_at(s, name, qtype, response, stored, max_ttl), name, qtype, now).0 is None,
        !has_key(lookup_at(stored_at(s, name, qtype, response, stored, max_ttl), name, qtype, now).1, name, qtype),
{
    let e = EntryView { name, query_type: qtype, response, created_at: stored, ttl: cache_ttl(decoded_answer_ttls(response), max_ttl) };
    lemma_store_entry_finds(s, e);
    let u = stored_at(s, name, qtype, response, stored, max_ttl);
    let i = key_index(u, name, qtype);
    let r = u.remove(i);
    if has_key(r, name, qtype) {
        let k = choose|k: int| 0 <= k < r.len() && (#[trigger] r[k]).name == name && r[k].query_type == qtype;
        let k2 = if k < i { k } else { k + 1 };
        assert(r[k] == u[k2]);
    }
}

/// An operation on the cache's entries: a read of a key at a clock
/// reading, a store of a response under a key at a clock reading, or a
/// flush of the entries of a (canonical) name.
pub ghost enum CacheOp {
    Get(Seq<char>, u16, u128),
    Put(Seq<char>, u16, Seq<u8>, u128),
    FlushDomain(Seq<char>),
}

/// The entries after a sequence of operations, in a cache whose TTL cap is
/// `max_ttl` (see `DnsCache::get_at`, `put_at` and `flush_domain`).
pub open spec fn after_ops(s: Seq<EntryView>, ops: Seq<CacheOp>, max_ttl: u64) -> Seq<EntryView>
    decreases ops.len(),
{
    if ops.len() == 0 {
        s
    } else {
        let s1 = after_ops(s, ops.drop_last(), max_ttl);
        match ops.last() {
            CacheOp::Get(n, q, t) => lookup_at(s1, n, q, t).1,
            CacheOp::Put(n, q, r, t) => stored_at(s1, n, q, r, t, max_ttl),
            CacheOp::FlushDomain(n) => entries_not_named(s1, n),
        }
    }
}

/// Whether an operation leaves the entry `e` alone: it stores under another
/// key, flushes another name, or reads another key or `e`'s key while `e`
/// is fresh.
pub open spec fn spares(op: CacheOp, e: EntryView) -> bool {
    match op {
        CacheOp::Get(n, q, t) => n != e.name || q != e.query_type || is_fresh(e, t),
        CacheOp::Put(n, q, _, _) => n != e.name || q != e.query_type,
        CacheOp::FlushDomain(n) => n != e.name,
    }
}

/// With distinct keys, a held entry is what its key finds.
pub proof fn lemma_held_entry_found(s: Seq<EntryView>, e: EntryView)
    requires
        distinct_keys(s),
        s.contains(e),
    ensures
        has_key(s, e.name, e.query_type),
        s[key_index(s, e.name, e.query_type)] == e,
{
    let i = choose|i: int| 0 <= i < s.len() && s[i] == e;
    assert(s[i].name == e.name && s[i].query_type == e.query_type);
    assert(has_key(s, e.name, e.query_type));
    let k = key_index(s, e.name, e.query_type);
    assert(k == i);
}

/// A flush of another name keeps an entry.
pub proof fn lemma_not_named_keeps(s: Seq<EntryView>, name: Seq<char>, e: EntryView)
    requires
        s.contains(e),
        e.name != name,
    ensures
        entries_not_named(s, name).contains(e),
    decreases s.len(),
{
    let rest = entries_not_named(s.drop_last(), name);
    if s.last() == e {
        assert(entries_not_named(s, name) == rest.push(e));
        assert(rest.push(e)[rest.len() as int] == e);
    } else {
        let i = choose|i: int| 0 <= i < s.len() && s[i] == e;
        assert(i < s.len() - 1);
        assert(s.drop_last()[i] == e);
        lemma_not_named_keeps(s.drop_last(), name, e);
        let k = choose|k: int| 0 <= k < rest.len() && rest[k] == e;
        if s.last().name != name {
            assert(rest.push(s.last())[k] == e);
        }
    }
}

/// One operation that spares `e` keeps it, and keeps keys distinct.
pub proof fn lemma_op_keeps_entry(s: Seq<EntryView>, op: CacheOp, e: EntryView, max_ttl: u64)
    requires
        distinct_keys(s),
        s.contains(e),
        spares(op, e),
    ensures
        distinct_keys(after_ops(s, seq![op], max_ttl)),
        after_ops(s, seq![op], max_ttl).contains(e),
{
    assert(seq![op].drop_last() =~= Seq::<CacheOp>::empty());
    assert(after_ops(s, Seq::<CacheOp>::empty(), max_ttl) == s);
    let i = choose|i: int| 0 <= i < s.len() && s[i] == e;
    lemma_held_entry_found(s, e);
    match op {
        CacheOp::Get(n, q, t) => {
            if has_key(s, n, q) && !is_fresh(s[key_index(s, n, q)], t) {
                let j = key_index(s, n, q);
                assert(j != i);
                let r = s.remove(j);
                let k = if i < j { i } else { i - 1 };
                assert(r[k] == e);
                assert forall|a: int, b: int| 0 <= a < r.len() && 0 <= b < r.len() && a != b implies (#[trigger] r[a]).name != (#[trigger] r[b]).name || r[a].query_type != r[b].query_type by {
                    let a2 = if a < j { a } else { a + 1 };
                    let b2 = if b < j { b } else { b + 1 };
                    assert(r[a] == s[a2] && r[b] == s[b2]);
                }
            }
        },
        CacheOp::Put(n, q, resp, t) => {
            let e2 = EntryView { name: n, query_type: q, response: resp, created_at: t, ttl: cache_ttl(decoded_answer_ttls(resp), max_ttl) };
            lemma_store_entry_finds(s, e2);
            let u = crate::cache::store_entry(s, e2);
            if has_key(s, n, q) {
                let j = key_index(s, n, q);
                assert(j != i);
                assert(u[i] == e);
            } else {
                assert(u[i] == e);
            }
        },
        CacheOp::FlushDomain(n) => {
            crate::cache::lemma_not_named_distinct(s, n);
            lemma_not_named_keeps(s, n, e);
        },
    }
}

/// Operations that all spare `e` keep it, and keep keys distinct.
pub proof fn lemma_ops_keep_entry(s: Seq<EntryView>, ops: Seq<CacheOp>, e: EntryView, max_ttl: u64)
    requires
        distinct_keys(s),
        s.contains(e),
        forall|k: int| 0 <= k < ops.len() ==> spares(#[trigger] ops[k], e),
    ensures
        distinct_keys(after_ops(s, ops, max_ttl)),
        after_ops(s, ops, max_ttl).contains(e),
    decreases ops.len(),
{
    if ops.len() > 0 {
        let init = ops.drop_last();
        assert forall|k: int| 0 <= k < init.len() implies spares(#[trigger] init[k], e) by {
            assert(init[k] == ops[k]);
        }
        lemma_ops_keep_entry(s, init, e, max_ttl);
        let s1 = after_ops(s, init, max_ttl);
        assert(spares(ops[ops.len() - 1], e));
        lemma_op_keeps_entry(s1, ops.last(), e, max_ttl);
        let one = seq![ops.last()];
        assert(one.drop_last() =~= Seq::<CacheOp>::empty());
        assert(one.last() == ops.last());
        assert(after_ops(s1, Seq::<CacheOp>::empty(), max_ttl) == s1);
        assert(after_ops(s1, one.drop_last(), max_ttl) == s1);
        assert(after_ops(s1, one, max_ttl) == after_ops(s, ops, max_ttl));
    }
}

/// Read after write, across other operations: a stored response is served
/// at any clock reading while it is fresh, whatever reads, stores and
/// flushes of other keys (and fresh reads of its own key) came between.
pub proof fn law_cache_serves_stored_response_until_ttl(
    s: Seq<EntryView>,
    name: Seq<char>,
    qtype: u16,
    response: Seq<u8>,
    stored: u128,
    ops: Seq<CacheOp>,
    now: u128,
    max_ttl: u64,
)
    requires
        distinct_keys(s),
        forall|k: int| 0 <= k < ops.len() ==> spares(
            #[trigger] ops[k],
            EntryView { name, query_type: qtype, response, created_at: stored, ttl: cache_ttl(decoded_answer_ttls(response), max_ttl) },
        ),
        (if now >= stored { now - stored } else { 0 }) < cache_ttl(decoded_answer_ttls(response), max_ttl) as int * 1_000_000_000,
    ensures
        lookup_at(after_ops(stored_at(s, name, qtype, response, stored, max_ttl), ops, max_ttl), name, qtype, now).0 == Some(response),
{
    let e = EntryView { name, query_type: qtype, response, created_at: stored, ttl: cache_ttl(decoded_answer_ttls(response), max_ttl) };
    let s0 = stored_at(s, name, qtype, response, stored, max_ttl);
    lemma_store_entry_finds(s, e);
    assert(s0.contains(e)) by {
        assert(s0[key_index(s0, name, qtype)] == e);
    }
    lemma_ops_keep_entry(s0, ops, e, max_ttl);
    lemma_held_entry_found(after_ops(s0, ops, max_ttl), e);
}

/// The least of a list of TTLs is not negative.
pub proof fn lemma_least_nonneg(ts: Seq<u32>)
    ensures
        crate::cache::least(ts) >= 0,
    decreases ts.len(),
{
    if ts.len() > 1 {
        lemma_least_nonneg(ts.drop_last());
    }
}

/// The cache TTL is at most the cap; a response that cannot be decoded
/// gets the negative-cache TTL, capped.
pub proof fn law_cache_ttl_capped(answers: Option<Seq<u32>>, max_ttl: u64)
    ensures
        cache_ttl(answers, max_ttl) <= max_ttl,
        answers is None ==> cache_ttl(answers, max_ttl) == min_of(NEGATIVE_CACHE_TTL_SECS as int, max_ttl as int),
{
    if let Some(ts) = answers {
        lemma_least_nonneg(ts);
    }
}

/// Flushing a domain leaves no entry of that name and keeps every other entry.
pub proof fn law_flush_domain(s: Seq<EntryView>, name: Seq<char>, e: EntryView)
    ensures
        forall|i: int| 0 <= i < entries_not_named(s, name).len() ==> (#[trigger] entries_not_named(s, name)[i]).name != name,
        (s.contains(e) && e.name != name) ==> entries_not_named(s, name).contains(e),
    decreases s.len(),
{
    if s.len() > 0 {
        law_flush_domain(s.drop_last(), name, e);
        let rest = entries_not_named(s.drop_last(), name);
        assert forall|i: int| 0 <= i < entries_not_named(s, name).len() implies (#[trigger] entries_not_named(s, name)[i]).name != name by {
            if i < rest.len() {
                assert(entries_not_named(s, name)[i] == rest[i]);
            }
        }
        if s.contains(e) && e.name != name {
            if s.last() == e {
                assert(entries_not_named(s, name)[rest.len() as int] == e);
            } else {
                let j = choose|j: int| 0 <= j < s.len() && s[j] == e;
                assert(s.drop_last()[j] == e);
                let k = choose|k: int| 0 <= k < rest.len() && rest[k] == e;
                assert(entries_not_named(s, name)[k] == e);
            }
        }
    }
}

// ---------------------------------------------------------------- resolution

/// Local records come first: where the store holds records of the query's
/// name and (supported) type, they answer it, whatever the fallback
/// setting and the cache hold.
pub proof fn law_local_records_answer_first(raw: Seq<u8>, records: Seq<RecordView>, f1: bool, f2: bool, e1: Seq<EntryView>, e2: Seq<EntryView>, n1: u128, n2: u128)
    requires
        decoded_request(raw) matches Some(req) && req.query matches Some(q) && type_of_code(q.1) matches Some(t)
            && filtered(records, Some(q.0), Some(t)).len() > 0,
    ensures
        first_step(raw, records, f1, e1, n1) == first_step(raw, records, f2, e2, n2),
        first_step(raw, records, f1, e1, n1) matches StepView::Done(Some(ReplyView::Message { code, .. })) && code == ResponseCode::NoError,
{
}

/// Without fallback, no request is relayed upstream, and the cache is not read.
pub proof fn law_no_fallback_no_forward(raw: Seq<u8>, records: Seq<RecordView>, e1: Seq<EntryView>, e2: Seq<EntryView>, n1: u128, n2: u128)
    ensures
        !(first_step(raw, records, false, e1, n1) is Forward),
        first_step(raw, records, false, e1, n1) == first_step(raw, records, false, e2, n2),
{
}

/// A relayed request's upstream response, once stored, answers the same
/// request from the cache while it is fresh (id patched), without a relay.
pub proof fn law_relayed_response_served_from_cache(
    raw: Seq<u8>,
    records: Seq<RecordView>,
    entries: Seq<EntryView>,
    before: u128,
    upstream: Seq<u8>,
    stored: u128,
    now: u128,
    max_ttl: u64,
)
    requires
        first_step(raw, records, true, entries, before) is Forward,
        distinct_keys(entries),
        (if now >= stored { now - stored } else { 0 }) < cache_ttl(decoded_answer_ttls(upstream), max_ttl) as int * 1_000_000_000,
    ensures
        ({
            let req = decoded_request(raw)->0;
            let (name, qtype) = req.query->0;
            first_step(raw, records, true, stored_at(entries, name, qtype, upstream, stored, max_ttl), now)
                == StepView::Done(crate::dns::raw_reply(patched(upstream, req.id)))
        }),
{
    let req = decoded_request(raw)->0;
    let (name, qtype) = req.query->0;
    law_cache_serves_fresh_response(entries, name, qtype, upstream, stored, now, max_ttl);
}

/// With every answer encodable, none is left out.
pub proof fn lemma_all_encodable(s: Seq<AnswerView>)
    requires
        forall|i: int| 0 <= i < s.len() ==> encodable(#[trigger] s[i]),
    ensures
        encodable_answers(s) == s,
    decreases s.len(),
{
    if s.len() > 0 {
        let rest = s.drop_first();
        assert forall|i: int| 0 <= i < rest.len() implies encodable(#[trigger] rest[i]) by {
            assert(rest[i] == s[i + 1]);
        }
        lemma_all_encodable(rest);
        assert(encodable(s[0]));
        assert(seq![s[0]] + rest =~= s);
    }
}

/// Each answer that a stored record gives can be encoded.
pub proof fn lemma_answers_encodable(rs: Seq<RecordView>)
    ensures
        forall|i: int| 0 <= i < answers_of(rs).len() ==> encodable(#[trigger] answers_of(rs)[i]),
    decreases rs.len(),
{
    if rs.len() > 0 {
        lemma_answers_encodable(rs.drop_last());
        let rest = answers_of(rs.drop_last());
        match answer_of(rs.last()) {
            Ok(a) => {
                assert(encodable(a));
                assert forall|i: int| 0 <= i < rest.push(a).len() implies encodable(#[trigger] rest.push(a)[i]) by {
                    if i < rest.len() {
                        assert(rest.push(a)[i] == rest[i]);
                    }
                }
            },
            Err(_) => {},
        }
    }
}

/// Local answers are never left out of the encoded response: every answer
/// that stored records give can be encoded.
pub proof fn law_local_answers_all_encoded(rs: Seq<RecordView>)
    ensures
        encodable_answers(answers_of(rs)) == answers_of(rs),
{
    lemma_answers_encodable(rs);
    lemma_all_encodable(answers_of(rs));
}

/// A reply that does not echo the request's queries answers a request
/// that has none.
pub proof fn law_no_echo_only_without_queries(raw: Seq<u8>, records: Seq<RecordView>, fallback: bool, entries: Seq<EntryView>, now: u128)
    ensures
        (first_step(raw, records, fallback, entries, now) matches StepView::Done(Some(ReplyView::Message { echo_queries, .. })) && !echo_queries)
            ==> (decoded_request(raw) matches Some(req) && req.query is None),
{
}

/// A patched response keeps its length and its bytes after the id, and
/// its id is the request's.
pub proof fn law_patched_response(raw: Seq<u8>, id: u16)
    ensures
        patched(raw, id) matches Some(p) ==> p.len() == raw.len() && p[0] as int * 256 + p[1] as int == id as int
            && p.skip(2) == raw.skip(2),
        patched(raw, id) is None <==> raw.len() < 2,
{
    if raw.len() >= 2 {
        let p = patched(raw, id)->0;
        assert(p.skip(2) =~= raw.skip(2));
    }
}

/// A UDP datagram is never longer than 512 bytes.
pub proof fn law_udp_payload_fits(resp: Seq<u8>)
    ensures
        udp_payload(resp) matches Some(p) ==> p.len() <= 512,
{
}

/// A TCP frame is the response after its two-byte length.
pub proof fn law_tcp_frame(resp: Seq<u8>)
    ensures
        tcp_framed(resp).skip(2) == resp,
        tcp_framed(resp)[0] as int * 256 + tcp_framed(resp)[1] as int == resp.len() % 65536,
{
    assert(tcp_framed(resp).skip(2) =~= resp);
}

// ---------------------------------------------------------------- SVCB

/// Parameters read from text have pairwise distinct keys.
pub proof fn lemma_params_distinct(ts: Seq<Seq<char>>)
    ensures
        params_text(ts) matches Ok(ps) ==> forall|i: int, j: int| 0 <= i < j < ps.len() ==> (#[trigger] ps[i]).0 != (#[trigger] ps[j]).0,
    decreases ts.len(),
{
    if ts.len() > 0 {
        lemma_params_distinct(ts.drop_last());
        match params_text(ts) {
            Ok(ps) => {
                let prev = params_text(ts.drop_last())->Ok_0;
                assert(ps == prev.push(ps.last()));
                assert forall|i: int, j: int| 0 <= i < j < ps.len() implies (#[trigger] ps[i]).0 != (#[trigger] ps[j]).0 by {
                    if j == ps.len() - 1 {
                        assert(ps[i] == prev[i]);
                        assert(!has_param_key(prev, ps[j].0));
                    } else {
                        assert(ps[i] == prev[i] && ps[j] == prev[j]);
                    }
                }
            },
            Err(_) => {},
        }
    }
}

/// SVCB data read from text never repeats a key, and in alias mode
/// (priority 0) has no parameters (RFC 9460).
pub proof fn law_svcb_keys_unique_and_alias_bare(data: Seq<char>)
    ensures
        svcb_text(data) matches Ok(v) ==> (forall|i: int, j: int| 0 <= i < j < v.params.len() ==> (#[trigger] v.params[i]).0 != (#[trigger] v.params[j]).0)
            && (v.priority == 0 ==> v.params.len() == 0),
{
    lemma_params_distinct(crate::parse::words(data).skip(2));
}

// ---------------------------------------------------------------- addresses

/// The decimal text of a number is digits without a leading zero (unless
/// it is `0`), of the number's value, and has no dot.
pub proof fn lemma_decimal_text(n: nat)
    ensures
        all_digits(decimal_text(n)),
        decimal_value(decimal_text(n)) == n,
        1 <= decimal_text(n).len(),
        n < 10 ==> decimal_text(n).len() == 1,
        n < 100 ==> decimal_text(n).len() <= 2,
        n < 1000 ==> decimal_text(n).len() <= 3,
        n > 0 ==> decimal_text(n)[0] != '0',
        !decimal_text(n).contains('.'),
    decreases n,
{
    let t = decimal_text(n);
    if n < 10 {
        let c = (n + 48) as char;
        assert(t == seq![c]);
        assert(c as int == n + 48);
        assert(t.drop_last() =~= Seq::<char>::empty());
        assert(decimal_value(t) == decimal_value(Seq::<char>::empty()) * 10 + digit_value(c));
    } else {
        lemma_decimal_text(n / 10);
        let u = decimal_text(n / 10);
        let c = ((n % 10) + 48) as char;
        assert(t == u.push(c));
        assert(c as int == n % 10 + 48);
        assert(t.drop_last() == u);
        assert(t.last() == c);
        assert(decimal_value(t) == decimal_value(u) * 10 + digit_value(c));
        assert(n == (n / 10) * 10 + n % 10);
        assert(t[0] == u[0]);
        assert forall|i: int| 0 <= i < t.len() implies is_digit(#[trigger] t[i]) by {
            if i < u.len() {
                assert(t[i] == u[i]);
            }
        }
        assert(!t.contains('.')) by {
            if t.contains('.') {
                let i = choose|i: int| 0 <= i < t.len() && t[i] == '.';
                if i < u.len() {
                    assert(u[i] == '.');
                }
            }
        }
    }
}

/// The decimal text of a number up to 255 reads as that octet.
pub proof fn lemma_octet_of_decimal(n: u8)
    ensures
        octet_text(decimal_text(n as nat)) == Some(n),
{
    lemma_decimal_text(n as nat);
}

/// Splitting at a separator that the first piece does not hold gives that
/// piece, then the splitting of the rest.
pub proof fn lemma_split_first(x: Seq<char>, rest: Seq<char>, sep: char)
    requires
        !x.contains(sep),
    ensures
        split_on(x + seq![sep] + rest, sep) == seq![x] + split_on(rest, sep),
{
    let s = x + seq![sep] + rest;
    assert forall|j: int| 0 <= j < x.len() implies s[j] != sep by {
        assert(s[j] == x[j]);
        if x[j] == sep {
            assert(x.contains(sep));
        }
    }
    assert(s[x.len() as int] == sep);
    crate::parse::lemma_first_index(s, sep, x.len() as int);
    assert(s.take(x.len() as int) =~= x);
    assert(s.skip(x.len() as int + 1) =~= rest);
}

/// A text without the separator is one piece.
pub proof fn lemma_split_none(x: Seq<char>, sep: char)
    requires
        !x.contains(sep),
    ensures
        split_on(x, sep) == seq![x],
{
    assert forall|j: int| 0 <= j < x.len() implies x[j] != sep by {
        if x[j] == sep {
            assert(x.contains(sep));
        }
    }
    crate::parse::lemma_first_index(x, sep, x.len() as int);
}

/// Four dot-free pieces joined by dots split back into those pieces.
pub proof fn lemma_split_four(ta: Seq<char>, tb: Seq<char>, tc: Seq<char>, td: Seq<char>)
    requires
        !ta.contains('.'),
        !tb.contains('.'),
        !tc.contains('.'),
        !td.contains('.'),
    ensures
        split_on(ta + seq!['.'] + tb + seq!['.'] + tc + seq!['.'] + td, '.') == seq![ta, tb, tc, td],
{
    let r2 = tc + seq!['.'] + td;
    let r1 = tb + seq!['.'] + r2;
    let whole = ta + seq!['.'] + r1;
    lemma_split_none(td, '.');
    lemma_split_first(tc, td, '.');
    lemma_split_first(tb, r2, '.');
    lemma_split_first(ta, r1, '.');
    assert(ta + seq!['.'] + tb + seq!['.'] + tc + seq!['.'] + td =~= whole);
    assert(split_on(whole, '.') =~= seq![ta, tb, tc, td]);
}

/// Every dotted-decimal IPv4 address reads as its four octets: for all
/// octets `a`, `b`, `c`, `d`, the text `a.b.c.d` (each in decimal) is the
/// address `[a, b, c, d]`.
#[verifier::rlimit(30)]
pub proof fn law_ipv4_text_complete(a: u8, b: u8, c: u8, d: u8)
    ensures
        ipv4_text(
            decimal_text(a as nat) + seq!['.'] + decimal_text(b as nat) + seq!['.'] + decimal_text(c as nat) + seq!['.']
                + decimal_text(d as nat),
        ) == Some(seq![a, b, c, d]),
{
    let ta = decimal_text(a as nat);
    let tb = decimal_text(b as nat);
    let tc = decimal_text(c as nat);
    let td = decimal_text(d as nat);
    assert(!ta.contains('.') && !tb.contains('.') && !tc.contains('.') && !td.contains('.')) by {
        lemma_decimal_text(a as nat);
        lemma_decimal_text(b as nat);
        lemma_decimal_text(c as nat);
        lemma_decimal_text(d as nat);
    }
    lemma_split_four(ta, tb, tc, td);
    lemma_octet_of_decimal(a);
    lemma_octet_of_decimal(b);
    lemma_octet_of_decimal(c);
    lemma_octet_of_decimal(d);
    let parts = seq![ta, tb, tc, td];
    assert(forall|i: int| 0 <= i < 4 ==> (#[trigger] octet_text(parts[i])) is Some) by {
        assert(parts[0] == ta && parts[1] == tb && parts[2] == tc && parts[3] == td);
    }
    assert(parts.map_values(|p: Seq<char>| octet_text(p)->0) =~= seq![a, b, c, d]);
}

/// Every dotted-decimal IPv4 address is accepted as A record data, as
/// those four octets.
pub proof fn law_a_record_data_complete(a: u8, b: u8, c: u8, d: u8)
    ensures
        crate::rdata::rdata_text(
            RecordType::A,
            decimal_text(a as nat) + seq!['.'] + decimal_text(b as nat) + seq!['.'] + decimal_text(c as nat) + seq!['.']
                + decimal_text(d as nat),
        ) == Ok::<crate::rdata::RDataView, crate::svcb::RDataError>(crate::rdata::RDataView::A(seq![a, b, c, d])),
{
    law_ipv4_text_complete(a, b, c, d);
}

} // verus!
