//! The caching resolver's per-request logic, as pure decisions over decoded
//! messages.
//!
//! One request cycle: decode the inbound datagram, look its first
//! question's name up in the cache, and either build the answer from the
//! cache or hand the original bytes on to the fixed upstream resolver.  When the
//! upstream reply arrives, its (question, answer) pairs are learned into
//! the cache and the reply is re-encoded for the client.  All socket work
//! stays outside the crate: the functions here map plain values to plain
//! values, and a failure on one datagram yields an action for that datagram
//! alone.

use vstd::prelude::*;

use crate::DnsError;
use crate::buffer::BUF_SIZE;
use crate::buffer::DnsBuffer;
use crate::header::DnsHeader;
use crate::header::ResultCode;
use crate::packet::DnsPacket;
use crate::packet::DnsPacketView;
use crate::record::Domain;
use crate::record::DnsRecord;
use crate::record::DnsRecordView;
use crate::record::EncState;
use crate::record::RClass;
use crate::record::RDataType;
use crate::record::RDataView;
use crate::packet::spec_write_packet;

verus! {

/// The fixed TTL written on answers served from the cache.
pub const CACHE_TTL: u32 = 1000;

/// The in-memory cache: domain name (lowercased dotted bytes) to the most
/// recently learned rdata for it.  Entries are never expired or evicted; an
/// entry lives for the resolver's lifetime once inserted.
pub struct Cache {
    pub entries: Vec<(Vec<u8>, RDataType)>,
}

impl View for Cache {
    type V = Seq<(Seq<u8>, RDataView)>;

    open spec fn view(&self) -> Seq<(Seq<u8>, RDataView)> {
        self.entries@.map_values(|e: (Vec<u8>, RDataType)| (e.0@, e.1@))
    }
}

/// The rdata recorded for `name`: the first entry that carries it.
pub open spec fn spec_cache_lookup(entries: Seq<(Seq<u8>, RDataView)>, name: Seq<u8>) -> Option<
    RDataView,
>
    decreases entries.len(),
{
    if entries.len() == 0 {
        None::<RDataView>
    } else if entries[0].0 == name {
        Some(entries[0].1)
    } else {
        spec_cache_lookup(entries.skip(1), name)
    }
}

/// The cache after recording `data` for `name`: the first entry for `name`
/// overwritten, or a new entry appended.
pub open spec fn spec_cache_insert(
    entries: Seq<(Seq<u8>, RDataView)>,
    name: Seq<u8>,
    data: RDataView,
) -> Seq<(Seq<u8>, RDataView)>
    decreases entries.len(),
{
    if entries.len() == 0 {
        seq![(name, data)]
    } else if entries[0].0 == name {
        seq![(name, data)] + entries.skip(1)
    } else {
        seq![entries[0]] + spec_cache_insert(entries.skip(1), name, data)
    }
}

/// What a lookup finds after an insert: the inserted rdata under the
/// inserted name, and under every other name whatever was there before.
pub proof fn lemma_cache_insert_lookup(
    entries: Seq<(Seq<u8>, RDataView)>,
    name: Seq<u8>,
    data: RDataView,
    other: Seq<u8>,
)
    ensures
        spec_cache_lookup(spec_cache_insert(entries, name, data), name) == Some(data),
        other != name ==> spec_cache_lookup(spec_cache_insert(entries, name, data), other)
            == spec_cache_lookup(entries, other),
    decreases entries.len(),
{
    let post = spec_cache_insert(entries, name, data);
    if entries.len() == 0 {
        assert(post[0] == (name, data));
        assert(post.skip(1) =~= Seq::<(Seq<u8>, RDataView)>::empty());
        if other != name {
            assert(spec_cache_lookup(post, other) == spec_cache_lookup(post.skip(1), other));
        }
    } else if entries[0].0 == name {
        assert(post[0] == (name, data));
        assert(post.skip(1) =~= entries.skip(1));
        if other != name {
            assert(spec_cache_lookup(post, other) == spec_cache_lookup(post.skip(1), other));
            assert(spec_cache_lookup(entries, other) == spec_cache_lookup(
                entries.skip(1),
                other,
            ));
        }
    } else {
        lemma_cache_insert_lookup(entries.skip(1), name, data, other);
        assert(post[0] == entries[0]);
        assert(post.skip(1) =~= spec_cache_insert(entries.skip(1), name, data));
        if other != name {
            if entries[0].0 == other {
                assert(spec_cache_lookup(post, other) == Some(post[0].1));
                assert(spec_cache_lookup(entries, other) == Some(entries[0].1));
            } else {
                assert(spec_cache_lookup(post, other) == spec_cache_lookup(post.skip(1), other));
                assert(spec_cache_lookup(entries, other) == spec_cache_lookup(
                    entries.skip(1),
                    other,
                ));
            }
        }
    }
}

impl Cache {
    /// An empty cache.
    pub fn new() -> (c: Cache)
        ensures
            c@ =~= Seq::<(Seq<u8>, RDataView)>::empty(),
    {
        Cache { entries: Vec::new() }
    }

    /// The rdata recorded for `name`, if any, as [`spec_cache_lookup`]
    /// states.
    pub fn lookup(&self, name: &Vec<u8>) -> (r: Option<RDataType>)
        ensures
            spec_cache_lookup(self@, name@) matches Some(d) ==> r matches Some(out) && out@ == d,
            spec_cache_lookup(self@, name@) is None ==> r is None,
    {
        let mut j: usize = 0;
        proof {
            assert(self@.skip(0) =~= self@);
        }
        while j < self.entries.len()
            invariant
                j <= self@.len(),
                spec_cache_lookup(self@, name@) == spec_cache_lookup(self@.skip(j as int), name@),
            decreases self@.len() - j,
        {
            proof {
                assert(self@.skip(j as int)[0] == self@[j as int]);
                assert(self@.skip(j as int).skip(1) =~= self@.skip(j as int + 1));
            }
            if crate::name::vec_bytes_eq(&self.entries[j].0, name) {
                return Some(self.entries[j].1.clone());
            }
            j += 1;
        }
        proof {
            assert(self@.skip(j as int) =~= Seq::<(Seq<u8>, RDataView)>::empty());
        }
        None
    }

    /// Records `data` for `name`, as [`spec_cache_insert`] states.
    pub fn insert(&mut self, name: Vec<u8>, data: RDataType)
        ensures
            final(self)@ == spec_cache_insert(old(self)@, name@, data@),
    {
        let ghost target = spec_cache_insert(self@, name@, data@);
        let mut j: usize = 0;
        proof {
            assert(self@.skip(0) =~= self@);
        }
        while j < self.entries.len()
            invariant
                j <= self@.len(),
                self@ == old(self)@,
                forall|k: int| 0 <= k < j ==> (#[trigger] self@[k]).0 != name@,
                target == spec_cache_insert(old(self)@, name@, data@),
            decreases self@.len() - j,
        {
            if crate::name::vec_bytes_eq(&self.entries[j].0, &name) {
                let ghost before = self@;
                self.entries.set(j, (name, data));
                proof {
                    lemma_insert_found(before, name@, data@, j as int);
                    assert(self@ =~= before.update(j as int, (name@, data@)));
                }
                return ;
            }
            j += 1;
        }
        let ghost before = self@;
        self.entries.push((name, data));
        proof {
            lemma_insert_append(before, name@, data@);
            assert(self@ =~= before.push((name@, data@)));
        }
    }
}

/// Inserting a name whose first occurrence is at `j` overwrites that entry
/// in place.
proof fn lemma_insert_found(entries: Seq<(Seq<u8>, RDataView)>, name: Seq<u8>, data: RDataView, j: int)
    requires
        0 <= j < entries.len(),
        entries[j].0 == name,
        forall|k: int| 0 <= k < j ==> (#[trigger] entries[k]).0 != name,
    ensures
        spec_cache_insert(entries, name, data) == entries.update(j, (name, data)),
    decreases j,
{
    if j == 0 {
        assert(spec_cache_insert(entries, name, data) == seq![(name, data)] + entries.skip(1));
        assert(seq![(name, data)] + entries.skip(1) =~= entries.update(0, (name, data)));
    } else {
        assert(entries[0].0 != name);
        assert(entries.skip(1)[j - 1].0 == name);
        assert forall|k: int| 0 <= k < j - 1 implies (#[trigger] entries.skip(1)[k]).0 != name by {
            assert(entries[k + 1].0 != name);
        }
        lemma_insert_found(entries.skip(1), name, data, j - 1);
        assert(seq![entries[0]] + entries.skip(1).update(j - 1, (name, data)) =~= entries.update(
            j,
            (name, data),
        ));
    }
}

/// Inserting a name the cache does not hold appends a new entry.
proof fn lemma_insert_append(entries: Seq<(Seq<u8>, RDataView)>, name: Seq<u8>, data: RDataView)
    requires
        forall|k: int| 0 <= k < entries.len() ==> (#[trigger] entries[k]).0 != name,
    ensures
        spec_cache_insert(entries, name, data) == entries.push((name, data)),
    decreases entries.len(),
{
    if entries.len() == 0 {
        assert(spec_cache_insert(entries, name, data) =~= entries.push((name, data)));
    } else {
        assert(entries[0].0 != name);
        assert forall|k: int| 0 <= k < entries.skip(1).len() implies (#[trigger] entries.skip(1)[
        k]).0 != name by {
            assert(entries[k + 1].0 != name);
        }
        lemma_insert_append(entries.skip(1), name, data);
        assert(seq![entries[0]] + entries.skip(1).push((name, data)) =~= entries.push(
            (name, data),
        ));
    }
}

/// The declared rdata length written for a cached payload: four bytes for
/// an IPv4 address, sixteen for IPv6, the uncompressed label-sequence
/// length for a name, the raw length for opaque bytes.
pub open spec fn spec_rdata_decl_len(d: RDataView) -> u16 {
    match d {
        RDataView::A(_) => 4,
        RDataView::AAAA(_) => 16,
        RDataView::NS(n) => spec_name_decl_len(n),
        RDataView::TXT(n) => spec_name_decl_len(n),
        RDataView::UNKNOWN(_, b) => match b {
            Some(v) => if v.len() > 0xFFFF {
                0xFFFF
            } else {
                v.len() as u16
            },
            None => 0,
        },
    }
}

/// The uncompressed wire length of an optional name payload.
pub open spec fn spec_name_decl_len(n: Option<Seq<u8>>) -> u16 {
    match n {
        Some(v) => if v.len() > 0xFFFD {
            0xFFFF
        } else if v.len() == 0 {
            1
        } else {
            (v.len() + 2) as u16
        },
        None => 0,
    }
}

/// The declared rdata length, as [`spec_rdata_decl_len`] states.
fn rdata_decl_len(d: &RDataType) -> (l: u16)
    ensures
        l == spec_rdata_decl_len(d@),
{
    match d {
        RDataType::A(_) => 4,
        RDataType::AAAA(_) => 16,
        RDataType::NS(n) => opt_name_decl_len(n),
        RDataType::TXT(n) => opt_name_decl_len(n),
        RDataType::UNKNOWN(_, b) => match b {
            Some(v) => if v.len() > 0xFFFF {
                0xFFFF
            } else {
                v.len() as u16
            },
            None => 0,
        },
    }
}

/// The uncompressed wire length, as [`spec_name_decl_len`] states.
fn opt_name_decl_len(n: &Option<Vec<u8>>) -> (l: u16)
    ensures
        l == spec_name_decl_len(match n {
            Some(v) => Some(v@),
            None => None::<Seq<u8>>,
        }),
{
    match n {
        Some(v) => {
            if v.len() > 0xFFFD {
                0xFFFF
            } else if v.len() == 0 {
                1
            } else {
                (v.len() + 2) as u16
            }
        },
        None => 0,
    }
}

/// Copies a section of records.
fn clone_records(records: &Vec<DnsRecord>) -> (r: Vec<DnsRecord>)
    ensures
        r@.map_values(|rec: DnsRecord| rec@) == records@.map_values(|rec: DnsRecord| rec@),
{
    let mut out: Vec<DnsRecord> = Vec::new();
    let mut i: usize = 0;
    while i < records.len()
        invariant
            i <= records@.len(),
            out@.len() == i,
            forall|k: int| 0 <= k < i ==> (#[trigger] out@[k])@ == records@[k]@,
        decreases records@.len() - i,
    {
        out.push(records[i].clone());
        i += 1;
    }
    proof {
        let rv = |rec: DnsRecord| rec@;
        assert(out@.map_values(rv) =~= records@.map_values(rv));
    }
    out
}

/// A fresh zeroed outbound buffer, as [`DnsBuffer::new`] builds it.
pub open spec fn spec_fresh_state() -> EncState {
    EncState { data: Seq::new(BUF_SIZE as nat, |i: int| 0u8), pos: 0, table: Seq::empty() }
}

/// The response served from the cache: the query's header marked as a
/// recursion-available `NOERROR` response with one answer, the original
/// question section, and a single answer record carrying the cached rdata
/// under the fixed TTL.
pub open spec fn spec_cached_response(q: DnsPacketView, d: RDataView) -> DnsPacketView {
    DnsPacketView {
        header: DnsHeader {
            response: true,
            answers: 1,
            authoritative_entries: 0,
            resource_entries: 0,
            rescode: ResultCode::NOERROR,
            recursion_available: true,
            ..q.header
        },
        questions: q.questions,
        answers: seq![
            DnsRecordView {
                domain: q.questions[0].domain,
                rtype: d,
                rclass: RClass::IN,
                ttl: Some(CACHE_TTL),
                data_len: Some(spec_rdata_decl_len(d)),
            },
        ],
        authorities: Seq::empty(),
        resources: Seq::empty(),
    }
}

/// The reply sent when the upstream exchange or the response encode fails:
/// the query marked as a `SERVFAIL` response with no answers.
pub open spec fn spec_servfail_response(q: DnsPacketView) -> DnsPacketView {
    DnsPacketView {
        header: DnsHeader {
            response: true,
            answers: 0,
            authoritative_entries: 0,
            resource_entries: 0,
            rescode: ResultCode::SERVFAIL,
            recursion_available: true,
            ..q.header
        },
        questions: q.questions,
        answers: Seq::empty(),
        authorities: Seq::empty(),
        resources: Seq::empty(),
    }
}

/// Builds the cache-hit response and encodes it into a fresh buffer.
pub fn build_cached_response(query: &DnsPacket, data: &RDataType) -> (r: Result<
    DnsBuffer,
    DnsError,
>)
    requires
        query@.questions.len() > 0,
    ensures
        ({
            let enc = spec_write_packet(spec_cached_response(query@, data@), spec_fresh_state());
            &&& enc matches Ok(st) ==> r matches Ok(b) && b.wf() && b.buf@ == st.data && b.pos
                == st.pos
            &&& enc matches Err(e) ==> r is Err && r->Err_0 == e
        }),
{
    let mut header = query.header;
    header.response = true;
    header.answers = 1;
    header.authoritative_entries = 0;
    header.resource_entries = 0;
    header.rescode = ResultCode::NOERROR;
    header.recursion_available = true;
    let answer = DnsRecord {
        domain: query.questions[0].domain.clone(),
        rtype: data.clone(),
        rclass: RClass::IN,
        ttl: Some(CACHE_TTL),
        data_len: Some(rdata_decl_len(data)),
    };
    let mut answers: Vec<DnsRecord> = Vec::new();
    answers.push(answer);
    let response = DnsPacket {
        header,
        questions: clone_records(&query.questions),
        answers,
        authorities: Vec::new(),
        resources: Vec::new(),
    };
    proof {
        assert(response@.answers =~= spec_cached_response(query@, data@).answers);
        assert(response@.authorities =~= Seq::<DnsRecordView>::empty());
        assert(response@.resources =~= Seq::<DnsRecordView>::empty());
        assert(query@.questions[0].domain == query.questions@[0]@.domain);
    }
    let mut buf = DnsBuffer::new();
    response.write(&mut buf)?;
    Ok(buf)
}

/// Builds the `SERVFAIL` response for a query and encodes it into a fresh
/// buffer.
pub fn build_servfail(query: &DnsPacket) -> (r: Result<DnsBuffer, DnsError>)
    ensures
        ({
            let enc = spec_write_packet(spec_servfail_response(query@), spec_fresh_state());
            &&& enc matches Ok(st) ==> r matches Ok(b) && b.wf() && b.buf@ == st.data && b.pos
                == st.pos
            &&& enc matches Err(e) ==> r is Err && r->Err_0 == e
        }),
{
    let mut header = query.header;
    header.response = true;
    header.answers = 0;
    header.authoritative_entries = 0;
    header.resource_entries = 0;
    header.rescode = ResultCode::SERVFAIL;
    header.recursion_available = true;
    let response = DnsPacket {
        header,
        questions: clone_records(&query.questions),
        answers: Vec::new(),
        authorities: Vec::new(),
        resources: Vec::new(),
    };
    proof {
        assert(response@.answers =~= Seq::<DnsRecordView>::empty());
        assert(response@.authorities =~= Seq::<DnsRecordView>::empty());
        assert(response@.resources =~= Seq::<DnsRecordView>::empty());
    }
    let mut buf = DnsBuffer::new();
    response.write(&mut buf)?;
    Ok(buf)
}

/// What the resolver does with one datagram: answer the client, forward to
/// the upstream resolver, or drop it.
pub enum ServerAction {
    Respond(DnsBuffer),
    Forward(DnsBuffer),
    Drop,
}

/// Decides one inbound query: a query without a question is dropped; a
/// cache hit is answered directly; on a miss the original, unmodified
/// query bytes are handed back to be forwarded upstream.  An encode
/// failure drops the datagram.
pub fn handle_query(cache: &Cache, query: &DnsPacket, raw: &DnsBuffer) -> (r: ServerAction)
    ensures
        query@.questions.len() == 0 ==> r is Drop,
        query@.questions.len() > 0 ==> ({
            let looked = spec_cache_lookup(cache@, query@.questions[0].domain);
            &&& looked matches Some(d) ==> ({
                let enc = spec_write_packet(spec_cached_response(query@, d), spec_fresh_state());
                &&& enc matches Ok(st) ==> r matches ServerAction::Respond(b) && b.buf@ == st.data
                    && b.pos == st.pos
                &&& enc is Err ==> r is Drop
            })
            &&& looked is None ==> (r matches ServerAction::Forward(b) && b.buf@ == raw.buf@
                && b.pos == raw.pos)
        }),
{
    if query.questions.len() == 0 {
        return ServerAction::Drop;
    }
    let name = match &query.questions[0].domain {
        Domain::Domain(v) => v,
    };
    proof {
        assert(name@ == query@.questions[0].domain);
    }
    match cache.lookup(name) {
        Some(data) => match build_cached_response(query, &data) {
            Ok(buf) => ServerAction::Respond(buf),
            Err(_) => ServerAction::Drop,
        },
        None => {
            let copy = raw.buf.clone();
            proof {
                assert(copy@ =~= raw.buf@);
            }
            ServerAction::Forward(DnsBuffer { buf: copy, pos: raw.pos })
        },
    }
}

/// The cache after learning every (question, answer) pair of a reply, by
/// position.
pub open spec fn spec_learned(
    entries: Seq<(Seq<u8>, RDataView)>,
    qs: Seq<DnsRecordView>,
    ans: Seq<DnsRecordView>,
) -> Seq<(Seq<u8>, RDataView)>
    decreases qs.len(),
{
    if qs.len() == 0 || ans.len() == 0 {
        entries
    } else {
        spec_learned(
            spec_cache_insert(entries, qs[0].domain, ans[0].rtype),
            qs.skip(1),
            ans.skip(1),
        )
    }
}

/// Learns every (question, answer) pair of a decoded upstream reply into
/// the cache, by position.
pub fn learn_pairs(cache: &mut Cache, reply: &DnsPacket)
    ensures
        final(cache)@ == spec_learned(old(cache)@, reply@.questions, reply@.answers),
{
    let mut i: usize = 0;
    let n = if reply.questions.len() < reply.answers.len() {
        reply.questions.len()
    } else {
        reply.answers.len()
    };
    proof {
        assert(reply@.questions.skip(0) =~= reply@.questions);
        assert(reply@.answers.skip(0) =~= reply@.answers);
    }
    while i < n
        invariant
            i <= n,
            n == if reply@.questions.len() < reply@.answers.len() {
                reply@.questions.len() as int
            } else {
                reply@.answers.len() as int
            },
            n <= reply@.questions.len() && n <= reply@.answers.len(),
            spec_learned(old(cache)@, reply@.questions, reply@.answers) == spec_learned(
                cache@,
                reply@.questions.skip(i as int),
                reply@.answers.skip(i as int),
            ),
        decreases n - i,
    {
        let name = match &reply.questions[i].domain {
            Domain::Domain(v) => v.clone(),
        };
        let data = reply.answers[i].rtype.clone();
        proof {
            assert(name@ =~= reply@.questions.skip(i as int)[0].domain);
            assert(data@ == reply@.answers.skip(i as int)[0].rtype);
            assert(reply@.questions.skip(i as int).skip(1) =~= reply@.questions.skip(i as int + 1));
            assert(reply@.answers.skip(i as int).skip(1) =~= reply@.answers.skip(i as int + 1));
        }
        cache.insert(name, data);
        i += 1;
    }
    proof {
        if reply@.questions.len() < reply@.answers.len() {
            assert(reply@.questions.skip(n as int).len() == 0);
        } else {
            assert(reply@.answers.skip(n as int).len() == 0);
        }
    }
}

/// Handles a decoded upstream reply on a cache miss: its (question, answer)
/// pairs are learned into the cache, and the reply is re-encoded for the
/// client.  When the re-encode fails, a `SERVFAIL` for the original query
/// is sent instead; if even that cannot be encoded, the datagram is
/// dropped.
#[verifier::rlimit(60)]
pub fn handle_reply(cache: &mut Cache, query: &DnsPacket, reply: &DnsPacket) -> (r: ServerAction)
    ensures
        final(cache)@ == spec_learned(old(cache)@, reply@.questions, reply@.answers),
        ({
            let enc = spec_write_packet(reply@, spec_fresh_state());
            &&& enc matches Ok(st) ==> r matches ServerAction::Respond(b) && b.buf@ == st.data
                && b.pos == st.pos
            &&& enc is Err ==> ({
                let fallback = spec_write_packet(spec_servfail_response(query@), spec_fresh_state());
                &&& fallback matches Ok(st) ==> r matches ServerAction::Respond(b) && b.buf@
                    == st.data && b.pos == st.pos
                &&& fallback is Err ==> r is Drop
            })
        }),
{
    learn_pairs(cache, reply);
    let mut buf = DnsBuffer::new();
    match reply.write(&mut buf) {
        Ok(_) => ServerAction::Respond(buf),
        Err(_) => match build_servfail(query) {
            Ok(b) => ServerAction::Respond(b),
            Err(_) => ServerAction::Drop,
        },
    }
}

} // verus!
