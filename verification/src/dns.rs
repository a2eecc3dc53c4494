//! Resolution of DNS queries: which answer a query gets, from the local
//! store, the fallback cache or an upstream server; and the framing of
//! responses for UDP and TCP.

use vstd::prelude::*;

use crate::cache::{lookup_at, stored_at, DnsCache, EntryView, SharedCache};
use crate::models::{type_of_code, Record, RecordType, RecordView};
use crate::rdata::{answer_of, build_record, Answer, AnswerView, RData, RDataView};
use crate::store::{filtered, RecordStore, SharedStore};
use crate::names::{check_name, parsed_name_root};
use crate::wire::{decode_message, decoded_message, encode_message, encoded_message, reencode_with_tc, reencoded};

verus! {

broadcast use vstd::string::group_string_axioms;

/// The parts of a decoded request that resolution reads.
pub struct RequestInfo {
    pub id: u16,
    pub op_code: u8,
    pub recursion_desired: bool,
    /// The first query: its name in text form, and its TYPE value.
    pub query: Option<(String, u16)>,
}

/// A decoded request as a mathematical value.
pub ghost struct RequestView {
    pub id: u16,
    pub op_code: u8,
    pub recursion_desired: bool,
    pub query: Option<(Seq<char>, u16)>,
}

impl View for RequestInfo {
    type V = RequestView;

    open spec fn view(&self) -> RequestView {
        RequestView {
            id: self.id,
            op_code: self.op_code,
            recursion_desired: self.recursion_desired,
            query: match &self.query {
                Some(q) => Some((q.0@, q.1)),
                None => None,
            },
        }
    }
}

/// The request parts of a decoded message.
pub open spec fn decoded_request(raw: Seq<u8>) -> Option<RequestView> {
    match decoded_message(raw) {
        Some(m) => Some(RequestView { id: m.id, op_code: m.op_code, recursion_desired: m.recursion_desired, query: m.query }),
        None => None,
    }
}

fn decode_request(raw: &[u8]) -> (r: Option<RequestInfo>)
    ensures
        match r {
            Some(i) => decoded_request(raw@) == Some(i@),
            None => decoded_request(raw@) is None,
        },
{
    match decode_message(raw) {
        Some(m) => Some(RequestInfo { id: m.id, op_code: m.op_code, recursion_desired: m.recursion_desired, query: m.query }),
        None => None,
    }
}

/// The response codes that resolution gives.
#[derive(Clone, Copy, Debug, PartialEq, Eq, Structural)]
pub enum ResponseCode {
    NoError,
    FormErr,
    NXDomain,
    NotImp,
}

impl ResponseCode {
    /// The RCODE value (RFC 1035 section 4.1.1).
    pub fn code(&self) -> (c: u16)
        ensures
            c == match *self {
                ResponseCode::NoError => 0u16,
                ResponseCode::FormErr => 1u16,
                ResponseCode::NXDomain => 3u16,
                ResponseCode::NotImp => 4u16,
            },
    {
        match self {
            ResponseCode::NoError => 0,
            ResponseCode::FormErr => 1,
            ResponseCode::NXDomain => 3,
            ResponseCode::NotImp => 4,
        }
    }
}

/// A response to send.
pub enum Reply {
    /// A response message with the request's id and opcode, the given RD
    /// flag, response code and answers, and, where `echo_queries` holds,
    /// the request's queries. (`echo_queries` is false only for the FormErr
    /// reply to a request without queries, so the encoding of `reply_bytes`
    /// always echoes the request's queries.)
    Message {
        id: u16,
        op_code: u8,
        recursion_desired: bool,
        echo_queries: bool,
        code: ResponseCode,
        answers: Vec<Answer>,
    },
    /// An encoded response, sent as it is.
    Raw(Vec<u8>),
}

/// A reply as a mathematical value.
pub ghost enum ReplyView {
    Message {
        id: u16,
        op_code: u8,
        recursion_desired: bool,
        echo_queries: bool,
        code: ResponseCode,
        answers: Seq<AnswerView>,
    },
    Raw(Seq<u8>),
}

impl View for Reply {
    type V = ReplyView;

    open spec fn view(&self) -> ReplyView {
        match self {
            Reply::Message { id, op_code, recursion_desired, echo_queries, code, answers } => ReplyView::Message {
                id: *id,
                op_code: *op_code,
                recursion_desired: *recursion_desired,
                echo_queries: *echo_queries,
                code: *code,
                answers: answers@.map_values(|a: Answer| a@),
            },
            Reply::Raw(b) => ReplyView::Raw(b@),
        }
    }
}

/// The view of an optional reply.
pub open spec fn opt_reply_view(r: Option<Reply>) -> Option<ReplyView> {
    match r {
        Some(x) => Some(x@),
        None => None,
    }
}

/// The first step of resolving a request.
pub enum QueryStep {
    /// Send this response, or nothing.
    Done(Option<Reply>),
    /// Relay the raw request to the upstream servers, then call `finish_query`.
    Forward(RequestInfo),
}

/// A resolution step as a mathematical value.
pub ghost enum StepView {
    Done(Option<ReplyView>),
    Forward(RequestView),
}

impl View for QueryStep {
    type V = StepView;

    open spec fn view(&self) -> StepView {
        match self {
            QueryStep::Done(r) => StepView::Done(opt_reply_view(*r)),
            QueryStep::Forward(i) => StepView::Forward(i@),
        }
    }
}

/// The answers that stored records give, in order; a record whose name or
/// data does not read is left out.
pub open spec fn answers_of(rs: Seq<RecordView>) -> Seq<AnswerView>
    decreases rs.len(),
{
    if rs.len() == 0 {
        Seq::empty()
    } else {
        let rest = answers_of(rs.drop_last());
        match answer_of(rs.last()) {
            Ok(a) => rest.push(a),
            Err(_) => rest,
        }
    }
}

/// The answer-building of local records.
pub fn local_answers(records: &Vec<Record>) -> (r: Vec<Answer>)
    ensures
        r@.map_values(|a: Answer| a@) == answers_of(records@.map_values(|x: Record| x@)),
{
    let ghost rs = records@.map_values(|x: Record| x@);
    let mut out: Vec<Answer> = Vec::new();
    let mut i: usize = 0;
    while i < records.len()
        invariant
            i <= records.len(),
            rs == records@.map_values(|x: Record| x@),
            out@.map_values(|a: Answer| a@) == answers_of(rs.take(i as int)),
        decreases records.len() - i,
    {
        assert(rs.take(i + 1).drop_last() =~= rs.take(i as int));
        assert(rs.take(i + 1).last() == records@[i as int]@);
        match build_record(&records[i]) {
            Ok(a) => {
                let ghost before = out@.map_values(|a: Answer| a@);
                let ghost av = a@;
                out.push(a);
                assert(out@.map_values(|a: Answer| a@) =~= before.push(av));
            },
            Err(_) => {},
        }
        i = i + 1;
    }
    assert(rs.take(records.len() as int) =~= rs);
    out
}

/// The response when nothing answers a query: NXDOMAIN for a supported
/// type, NotImp for another.
pub open spec fn negative_reply(req: RequestView, qtype: u16) -> ReplyView {
    ReplyView::Message {
        id: req.id,
        op_code: req.op_code,
        recursion_desired: req.recursion_desired,
        echo_queries: true,
        code: if type_of_code(qtype) is Some {
            ResponseCode::NXDomain
        } else {
            ResponseCode::NotImp
        },
        answers: Seq::empty(),
    }
}

/// A response bytes' first two bytes (the transaction id) set to `id`
/// (big-endian); nothing where there are fewer than two bytes.
pub open spec fn patched(raw: Seq<u8>, id: u16) -> Option<Seq<u8>> {
    if raw.len() < 2 {
        None
    } else {
        Some(raw.update(0, (id / 256) as u8).update(1, (id % 256) as u8))
    }
}

/// Raw response bytes as a reply, where there are any.
pub open spec fn raw_reply(b: Option<Seq<u8>>) -> Option<ReplyView> {
    match b {
        Some(b) => Some(ReplyView::Raw(b)),
        None => None,
    }
}

/// The first step of resolving the request `raw`, where `records` is what
/// the store holds, `entries` what the cache holds and `now` the clock:
///  1. an undecodable request gets no response; one without queries FormErr;
///  2. records of the query's name and (supported) type answer it;
///  3. else, with fallback enabled, a fresh cached response answers it
///     (its id patched), or the request is relayed upstream;
///  4. else NXDOMAIN or NotImp.
pub open spec fn first_step(raw: Seq<u8>, records: Seq<RecordView>, fallback: bool, entries: Seq<EntryView>, now: u128) -> StepView {
    match decoded_request(raw) {
        None => StepView::Done(None),
        Some(req) => match req.query {
            None => StepView::Done(
                Some(
                    ReplyView::Message {
                        id: req.id,
                        op_code: req.op_code,
                        recursion_desired: false,
                        echo_queries: false,
                        code: ResponseCode::FormErr,
                        answers: Seq::empty(),
                    },
                ),
            ),
            Some((name, qtype)) => {
                let local = match type_of_code(qtype) {
                    Some(t) => filtered(records, Some(name), Some(t)),
                    None => Seq::empty(),
                };
                if local.len() > 0 {
                    StepView::Done(
                        Some(
                            ReplyView::Message {
                                id: req.id,
                                op_code: req.op_code,
                                recursion_desired: req.recursion_desired,
                                echo_queries: true,
                                code: ResponseCode::NoError,
                                answers: answers_of(local),
                            },
                        ),
                    )
                } else if fallback {
                    match lookup_at(entries, name, qtype, now).0 {
                        Some(b) => StepView::Done(raw_reply(patched(b, req.id))),
                        None => StepView::Forward(req),
                    }
                } else {
                    StepView::Done(Some(negative_reply(req, qtype)))
                }
            },
        },
    }
}

/// Rewrite the transaction ID (first 2 bytes) of a raw DNS response
/// to match the request it answers.
pub fn patch_response_id(raw: &[u8], request_id: u16) -> (r: Option<Vec<u8>>)
    ensures
        match r {
            Some(b) => patched(raw@, request_id) == Some(b@),
            None => patched(raw@, request_id) is None,
        },
{
    if raw.len() < 2 {
        return None;
    }
    let mut out = vstd::slice::slice_to_vec(raw);
    out.set(0, (request_id / 256) as u8);
    out.set(1, (request_id % 256) as u8);
    Some(out)
}

fn no_answers() -> (r: Vec<Answer>)
    ensures
        r@.map_values(|a: Answer| a@) == Seq::<AnswerView>::empty(),
{
    let r: Vec<Answer> = Vec::new();
    assert(r@.map_values(|a: Answer| a@) =~= Seq::<AnswerView>::empty());
    r
}

/// A store content that the store's invariant allows.
pub open spec fn store_content(records: Seq<RecordView>) -> bool {
    crate::store::distinct_ids(records) && crate::store::canonical_names(records)
}

/// Whether resolving `raw` reads the cache: the request has a query, the
/// store holds no record that answers it, and fallback is enabled.
pub open spec fn reads_cache(raw: Seq<u8>, records: Seq<RecordView>, fallback: bool) -> bool {
    match decoded_request(raw) {
        Some(req) => match req.query {
            Some((name, qtype)) => fallback && match type_of_code(qtype) {
                Some(t) => filtered(records, Some(name), Some(t)).len() == 0,
                None => true,
            },
            None => false,
        },
        None => false,
    }
}

/// The cache entries after the first step of resolving `raw`: a read drops
/// an expired entry of the query's key; otherwise the cache is untouched.
pub open spec fn entries_after_step(raw: Seq<u8>, records: Seq<RecordView>, fallback: bool, entries: Seq<EntryView>, now: u128) -> Seq<EntryView> {
    if reads_cache(raw, records, fallback) {
        match decoded_request(raw) {
            Some(req) => match req.query {
                Some((name, qtype)) => lookup_at(entries, name, qtype, now).1,
                None => entries,
            },
            None => entries,
        }
    } else {
        entries
    }
}

/// Resolves a raw request as far as the store and the cache can, at clock
/// reading `now`; see `first_step`. The cache is read only where
/// `reads_cache` says so.
pub fn begin_query_at(raw: &[u8], store: &RecordStore, fallback: bool, cache: &mut DnsCache, now: u128) -> (step: QueryStep)
    requires
        store.wf(),
        old(cache).wf(),
    ensures
        final(cache).wf(),
        final(cache).max_ttl_secs() == old(cache).max_ttl_secs(),
        final(cache).mark() == old(cache).mark(),
        step@ == first_step(raw@, store@, fallback, old(cache)@, now),
        final(cache)@ == entries_after_step(raw@, store@, fallback, old(cache)@, now),
{
    let ghost records = store@;
    let ghost entries = cache@;
    let req = match decode_request(raw) {
        None => {
            return QueryStep::Done(None);
        },
        Some(r) => r,
    };
    let (name, qtype) = match &req.query {
        None => {
            let reply = Reply::Message {
                id: req.id,
                op_code: req.op_code,
                recursion_desired: false,
                echo_queries: false,
                code: ResponseCode::FormErr,
                answers: no_answers(),
            };
            return QueryStep::Done(Some(reply));
        },
        Some((n, t)) => (n.clone(), *t),
    };
    let local: Vec<Record> = match RecordType::from_code(qtype) {
        Some(t) => store.lookup(name.as_str(), t),
        None => Vec::new(),
    };
    assert(local@.map_values(|r: Record| r@) == match type_of_code(qtype) {
        Some(t) => filtered(records, Some(name@), Some(t)),
        None => Seq::<RecordView>::empty(),
    });
    if local.len() > 0 {
        let reply = Reply::Message {
            id: req.id,
            op_code: req.op_code,
            recursion_desired: req.recursion_desired,
            echo_queries: true,
            code: ResponseCode::NoError,
            answers: local_answers(&local),
        };
        let step = QueryStep::Done(Some(reply));
        assert(step@ == first_step(raw@, records, fallback, entries, now));
        return step;
    }
    if fallback {
        let cached = cache.get_at(name.as_str(), qtype, now);
        match cached {
            Some(bytes) => {
                let patched_bytes = patch_response_id(bytes.as_slice(), req.id);
                let step = match patched_bytes {
                    Some(b) => QueryStep::Done(Some(Reply::Raw(b))),
                    None => QueryStep::Done(None),
                };
                assert(step@ == first_step(raw@, records, fallback, entries, now));
                step
            },
            None => {
                let step = QueryStep::Forward(req);
                assert(step@ == first_step(raw@, records, fallback, entries, now));
                step
            },
        }
    } else {
        let code = if RecordType::from_code(qtype).is_some() {
            ResponseCode::NXDomain
        } else {
            ResponseCode::NotImp
        };
        let reply = Reply::Message {
            id: req.id,
            op_code: req.op_code,
            recursion_desired: req.recursion_desired,
            echo_queries: true,
            code,
            answers: no_answers(),
        };
        let step = QueryStep::Done(Some(reply));
        assert(step@ == first_step(raw@, records, fallback, entries, now));
        step
    }
}

/// Resolves a raw request as far as the shared store and cache can; see
/// `begin_query_at`. Both are held locked for the step, which is taken at
/// the cache's clock; other handles may change them before and after.
pub fn begin_query(raw: &[u8], store: &SharedStore, fallback: bool, cache: &SharedCache) -> (step: QueryStep)
    ensures
        exists|s: RecordStore, c: DnsCache, now: u128|
            #![trigger first_step(raw@, s@, fallback, c@, now)]
            s.wf() && s.mark() == store.mark() && c.wf() && c.mark() == cache.mark()
                && step@ == first_step(raw@, s@, fallback, c@, now),
{
    let read = store.inner.acquire_read();
    let s = read.borrow();
    let (mut c, write) = cache.inner.acquire_write();
    let now = c.clock();
    let ghost held = *s;
    let ghost before = c;
    proof {
        store.lemma_lock_mark();
        cache.lemma_lock_facts();
    }
    let step = begin_query_at(raw, s, fallback, &mut c, now);
    write.release_write(c);
    read.release_read();
    assert(held.wf() && held.mark() == store.mark() && before.wf() && before.mark() == cache.mark());
    assert(step@ == first_step(raw@, held@, fallback, before@, now));
    step
}

/// What a relayed request gets once the upstream servers have been tried:
/// the upstream response with its id patched, or, where none answered,
/// NXDOMAIN or NotImp.
pub open spec fn upstream_reply(req: RequestView, qtype: u16, upstream: Option<Seq<u8>>) -> Option<ReplyView> {
    match upstream {
        Some(b) => raw_reply(patched(b, req.id)),
        None => Some(negative_reply(req, qtype)),
    }
}

/// The TYPE value of a request's first query.
pub open spec fn query_type_of(req: RequestView) -> u16 {
    match req.query {
        Some(q) => q.1,
        None => 0,
    }
}

/// Completes a relayed request with the upstream response (if any server
/// answered), which is first stored in the cache under the query's name
/// and type at clock reading `now`.
pub fn finish_query_at(req: &RequestInfo, upstream: Option<Vec<u8>>, cache: &mut DnsCache, now: u128) -> (r: Option<Reply>)
    requires
        req.query is Some,
        old(cache).wf(),
    ensures
        opt_reply_view(r) == upstream_reply(
            req@,
            query_type_of(req@),
            match upstream {
                Some(b) => Some(b@),
                None => None,
            },
        ),
        final(cache).wf(),
        final(cache).max_ttl_secs() == old(cache).max_ttl_secs(),
        final(cache).mark() == old(cache).mark(),
        final(cache)@ == match (upstream, req@.query) {
            (Some(b), Some((name, qtype))) => stored_at(old(cache)@, name, qtype, b@, now, old(cache).max_ttl_secs()),
            _ => old(cache)@,
        },
{
    let qtype = match &req.query {
        Some((_, t)) => *t,
        None => 0,
    };
    match upstream {
        Some(resp) => {
            match &req.query {
                Some((name, t)) => {
                    let copy = resp.clone();
                    assert(copy@ =~= resp@);
                    cache.put_at(name.as_str(), *t, copy, now);
                },
                None => {},
            }
            match patch_response_id(resp.as_slice(), req.id) {
                Some(b) => Some(Reply::Raw(b)),
                None => None,
            }
        },
        None => {
            let code = if RecordType::from_code(qtype).is_some() {
                ResponseCode::NXDomain
            } else {
                ResponseCode::NotImp
            };
            let reply = Reply::Message {
                id: req.id,
                op_code: req.op_code,
                recursion_desired: req.recursion_desired,
                echo_queries: true,
                code,
                answers: no_answers(),
            };
            let r = Some(reply);
            assert(opt_reply_view(r) == Some(negative_reply(req@, qtype)));
            r
        },
    }
}

/// Completes a relayed request against the shared cache; see
/// `finish_query_at`, taken with the cache locked, at the cache's clock.
/// Other handles may change the cache before and after.
pub fn finish_query(req: &RequestInfo, upstream: Option<Vec<u8>>, cache: &SharedCache) -> (r: Option<Reply>)
    requires
        req.query is Some,
    ensures
        opt_reply_view(r) == upstream_reply(
            req@,
            query_type_of(req@),
            match upstream {
                Some(b) => Some(b@),
                None => None,
            },
        ),
        match (upstream, req@.query) {
            (Some(b), Some((name, qtype))) => exists|before: DnsCache, after: DnsCache, now: u128|
                #![trigger before.wf(), after.wf(), stored_at(before@, name, qtype, b@, now, cache.max_ttl())]
                before.wf() && after.wf() && before.mark() == cache.mark() && after.mark() == cache.mark()
                    && after@ == stored_at(before@, name, qtype, b@, now, cache.max_ttl()),
            _ => true,
        },
{
    let ghost up = match &upstream {
        Some(b) => Some(b@),
        None => None::<Seq<u8>>,
    };
    let (mut c, write) = cache.inner.acquire_write();
    let now = c.clock();
    let ghost before = c;
    proof {
        cache.lemma_lock_facts();
    }
    let r = finish_query_at(req, upstream, &mut c, now);
    let ghost after = c;
    write.release_write(c);
    proof {
        assert(before.wf() && after.wf() && before.mark() == cache.mark() && after.mark() == cache.mark());
        assert(before.max_ttl_secs() == cache.max_ttl());
        match (up, req@.query) {
            (Some(b), Some((name, qtype))) => {
                assert(after@ == stored_at(before@, name, qtype, b, now, cache.max_ttl()));
            },
            _ => {},
        }
    }
    r
}

/// The RCODE value of a response code.
pub open spec fn rcode_value(c: ResponseCode) -> u16 {
    match c {
        ResponseCode::NoError => 0,
        ResponseCode::FormErr => 1,
        ResponseCode::NXDomain => 3,
        ResponseCode::NotImp => 4,
    }
}

/// Whether the names in record data read as domain names.
pub open spec fn rdata_names_read(d: RDataView) -> bool {
    match d {
        RDataView::CNAME(n) => parsed_name_root(n) is Some,
        RDataView::NS(n) => parsed_name_root(n) is Some,
        RDataView::MX(_, n) => parsed_name_root(n) is Some,
        RDataView::SRV(_, _, _, n) => parsed_name_root(n) is Some,
        RDataView::HTTPS(s) => parsed_name_root(s.target) is Some,
        RDataView::SVCB(s) => parsed_name_root(s.target) is Some,
        _ => true,
    }
}

/// Whether an answer can be encoded: its owner name and the names in its
/// data read as domain names.
pub open spec fn encodable(a: AnswerView) -> bool {
    parsed_name_root(a.name) is Some && rdata_names_read(a.rdata)
}

/// The answers that can be encoded, in order; the others are left out.
pub open spec fn encodable_answers(s: Seq<AnswerView>) -> Seq<AnswerView>
    decreases s.len(),
{
    if s.len() == 0 {
        Seq::empty()
    } else {
        let rest = encodable_answers(s.drop_first());
        if encodable(s[0]) {
            seq![s[0]] + rest
        } else {
            rest
        }
    }
}

/// The bytes sent for a reply to the request `raw`: encoded bytes as they
/// are; a message encoded with the request's queries and the answers that
/// can be encoded (a message without queries is answered only where the
/// request has none).
pub open spec fn reply_bytes(raw: Seq<u8>, reply: ReplyView) -> Option<Seq<u8>> {
    match reply {
        ReplyView::Raw(b) => Some(b),
        ReplyView::Message { id, op_code, recursion_desired, code, answers, .. } => encoded_message(
            raw,
            id,
            op_code,
            recursion_desired,
            rcode_value(code),
            encodable_answers(answers),
        ),
    }
}

/// Whether an answer can be encoded; see `encodable`.
fn answer_encodable(a: &Answer) -> (r: bool)
    ensures
        r == encodable(a@),
{
    if check_name(a.name.as_str()).is_none() {
        return false;
    }
    match &a.rdata {
        RData::CNAME(n) => check_name(n.as_str()).is_some(),
        RData::NS(n) => check_name(n.as_str()).is_some(),
        RData::MX { exchange, .. } => check_name(exchange.as_str()).is_some(),
        RData::SRV { target, .. } => check_name(target.as_str()).is_some(),
        RData::HTTPS(s) => check_name(s.target.as_str()).is_some(),
        RData::SVCB(s) => check_name(s.target.as_str()).is_some(),
        _ => true,
    }
}

/// The answers that can be encoded, in order; see `encodable_answers`.
fn encodable_only(answers: Vec<Answer>) -> (r: Vec<Answer>)
    ensures
        r@.map_values(|a: Answer| a@) == encodable_answers(answers@.map_values(|a: Answer| a@)),
{
    let ghost all = answers@.map_values(|a: Answer| a@);
    let mut src = answers;
    let mut out: Vec<Answer> = Vec::new();
    while src.len() > 0
        invariant
            out@.map_values(|a: Answer| a@) + encodable_answers(src@.map_values(|a: Answer| a@)) == encodable_answers(all),
        decreases src.len(),
    {
        let ghost sv = src@.map_values(|a: Answer| a@);
        let a = src.remove(0);
        assert(src@.map_values(|a: Answer| a@) =~= sv.drop_first());
        assert(a@ == sv[0]);
        let ghost before = out@.map_values(|a: Answer| a@);
        if answer_encodable(&a) {
            out.push(a);
            assert(out@.map_values(|a: Answer| a@) =~= before.push(sv[0]));
            assert(before.push(sv[0]) + encodable_answers(sv.drop_first()) =~= before + (seq![sv[0]] + encodable_answers(sv.drop_first())));
        }
    }
    assert(src@.map_values(|a: Answer| a@) =~= Seq::<AnswerView>::empty());
    assert(out@.map_values(|a: Answer| a@) + Seq::<AnswerView>::empty() =~= out@.map_values(|a: Answer| a@));
    out
}

/// The bytes sent for a reply to the request `raw`; see `reply_bytes`.
pub fn response_bytes(raw: &[u8], reply: Reply) -> (r: Option<Vec<u8>>)
    ensures
        match r {
            Some(b) => reply_bytes(raw@, reply@) == Some(b@),
            None => reply_bytes(raw@, reply@) is None,
        },
{
    match reply {
        Reply::Raw(b) => Some(b),
        Reply::Message { id, op_code, recursion_desired, echo_queries: _, code, answers } => {
            let kept = encodable_only(answers);
            encode_message(raw, id, op_code, recursion_desired, code.code(), &kept)
        },
    }
}

/// What the upstream relay does next: send the request to the server of
/// this index, or stop with the response that came back (if any).
pub enum RelayStep {
    Send(usize),
    Done(Option<Vec<u8>>),
}

/// The first step of relaying to `n` servers, tried in order: the first
/// server, or nothing when there is none.
pub fn relay_start(n: usize) -> (s: RelayStep)
    ensures
        n > 0 ==> s == RelayStep::Send(0),
        n == 0 ==> s matches RelayStep::Done(None),
{
    if n > 0 {
        RelayStep::Send(0)
    } else {
        RelayStep::Done(None)
    }
}

/// The step after server `i` of `n` gave `reply`: the first response ends
/// the relay; after a timeout the next server is tried, and after the last
/// one the relay ends with nothing.
pub fn relay_next(n: usize, i: usize, reply: Option<Vec<u8>>) -> (s: RelayStep)
    requires
        i < n,
    ensures
        match reply {
            Some(b) => s matches RelayStep::Done(Some(r)) && r@ == b@,
            None => if i + 1 < n {
                s == RelayStep::Send((i + 1) as usize)
            } else {
                s matches RelayStep::Done(None)
            },
        },
{
    match reply {
        Some(b) => RelayStep::Done(Some(b)),
        None => if i + 1 < n {
            RelayStep::Send(i + 1)
        } else {
            RelayStep::Done(None)
        },
    }
}

/// The largest UDP response (RFC 1035 section 4.2.1).
pub const MAX_UDP_RESPONSE: usize = 512;

/// What is sent over UDP for a response: the response itself if it fits in
/// 512 bytes; else the response re-encoded with the TC flag set, if that
/// fits; else the response's first 512 bytes; nothing if the re-encoding fails.
pub open spec fn udp_payload(resp: Seq<u8>) -> Option<Seq<u8>> {
    if resp.len() <= 512 {
        Some(resp)
    } else {
        match reencoded(resp, true) {
            None => None,
            Some(t) => if t.len() <= 512 {
                Some(t)
            } else {
                Some(resp.take(512))
            },
        }
    }
}

/// The datagram to send for a response; see `udp_payload`.
pub fn udp_response(resp: Vec<u8>) -> (r: Option<Vec<u8>>)
    ensures
        match r {
            Some(b) => udp_payload(resp@) == Some(b@),
            None => udp_payload(resp@) is None,
        },
{
    if resp.len() <= MAX_UDP_RESPONSE {
        return Some(resp);
    }
    match reencode_with_tc(resp.as_slice(), true) {
        None => None,
        Some(t) => {
            if t.len() <= MAX_UDP_RESPONSE {
                Some(t)
            } else {
                let mut v = resp;
                v.truncate(MAX_UDP_RESPONSE);
                Some(v)
            }
        },
    }
}

/// A DNS-over-TCP message: a two-byte big-endian length (the response's
/// length modulo 65536), then the response.
pub open spec fn tcp_framed(resp: Seq<u8>) -> Seq<u8> {
    seq![((resp.len() % 65536) / 256) as u8, (resp.len() % 256) as u8] + resp
}

/// Frames a response for DNS over TCP; see `tcp_framed`.
pub fn tcp_frame(resp: &[u8]) -> (r: Vec<u8>)
    ensures
        r@ == tcp_framed(resp@),
{
    let n: usize = resp.len() % 65536;
    let mut out: Vec<u8> = Vec::new();
    out.push((n / 256) as u8);
    out.push((n % 256) as u8);
    let mut i: usize = 0;
    while i < resp.len()
        invariant
            i <= resp.len(),
            out@ == seq![((resp@.len() % 65536) / 256) as u8, (resp@.len() % 256) as u8] + resp@.take(i as int),
        decreases resp.len() - i,
    {
        out.push(resp[i]);
        assert(resp@.take(i + 1) == resp@.take(i as int).push(resp@[i as int]));
        i = i + 1;
    }
    assert(resp@.take(resp.len() as int) == resp@);
    out
}

} // verus!
