//! A whole DNS message: the header and its four record sections.
//!
//! Decode reads exactly the number of records each header count announces,
//! in the order questions, answers, authorities, additional records.
//! Encode mirrors that order and threads one compression offset table
//! through the entire pass, so a record in any section may point back into
//! a name written in an earlier one.

use vstd::prelude::*;

use crate::DnsError;
use crate::buffer::BUF_SIZE;
use crate::buffer::DnsBuffer;
use crate::header::DnsHeader;
use crate::header::spec_parse_header;
use crate::record::DnsRecord;
use crate::record::DnsRecordView;
use crate::record::EncState;
use crate::record::RecordRead;
use crate::record::RecordType;
use crate::record::spec_enc_bytes;
use crate::record::spec_parse_record;
use crate::record::spec_write_record;
use crate::name::NameTable;

verus! {

/// A decoded or assembled message.
#[derive(Debug)]
pub struct DnsPacket {
    pub header: DnsHeader,
    pub questions: Vec<DnsRecord>,
    pub answers: Vec<DnsRecord>,
    pub authorities: Vec<DnsRecord>,
    pub resources: Vec<DnsRecord>,
}

/// The ghost shape of a message.
pub struct DnsPacketView {
    pub header: DnsHeader,
    pub questions: Seq<DnsRecordView>,
    pub answers: Seq<DnsRecordView>,
    pub authorities: Seq<DnsRecordView>,
    pub resources: Seq<DnsRecordView>,
}

impl View for DnsPacket {
    type V = DnsPacketView;

    open spec fn view(&self) -> DnsPacketView {
        DnsPacketView {
            header: self.header,
            questions: self.questions@.map_values(|r: DnsRecord| r@),
            answers: self.answers@.map_values(|r: DnsRecord| r@),
            authorities: self.authorities@.map_values(|r: DnsRecord| r@),
            resources: self.resources@.map_values(|r: DnsRecord| r@),
        }
    }
}

/// What decoding a run of records yields: their shapes and the cursor after
/// them, or the failure mode.
pub enum RecordsRead {
    Records(Seq<DnsRecordView>, int),
    OutOfBounds,
    TooManyJumps,
}

/// `count` records decoded one after another from `pos`.
pub open spec fn spec_parse_records(data: Seq<u8>, pos: int, count: int, kind: RecordType) -> RecordsRead
    decreases count,
{
    if count <= 0 {
        RecordsRead::Records(Seq::empty(), pos)
    } else {
        match spec_parse_record(data, pos, kind) {
            RecordRead::Record(rec, p2) => match spec_parse_records(data, p2, count - 1, kind) {
                RecordsRead::Records(rest, end) => RecordsRead::Records(seq![rec] + rest, end),
                e => e,
            },
            RecordRead::OutOfBounds => RecordsRead::OutOfBounds,
            RecordRead::TooManyJumps => RecordsRead::TooManyJumps,
        }
    }
}

/// Records already decoded, prepended to the outcome of the rest of the
/// run.
pub open spec fn spec_compose_records(acc: Seq<DnsRecordView>, r: RecordsRead) -> RecordsRead {
    match r {
        RecordsRead::Records(rest, end) => RecordsRead::Records(acc + rest, end),
        _ => r,
    }
}

/// What decoding a whole message yields.
pub enum PacketRead {
    Packet(DnsPacketView, int),
    OutOfBounds,
    TooManyJumps,
}

/// The message decoded from `data` at `pos`: the header, then each section
/// with exactly its announced count of records.
pub open spec fn spec_parse_packet(data: Seq<u8>, pos: int) -> PacketRead {
    if pos < 0 || pos + 12 > BUF_SIZE {
        PacketRead::OutOfBounds
    } else {
        let h = spec_parse_header(data, pos);
        match spec_parse_records(data, pos + 12, h.questions as int, RecordType::QUESTION) {
            RecordsRead::OutOfBounds => PacketRead::OutOfBounds,
            RecordsRead::TooManyJumps => PacketRead::TooManyJumps,
            RecordsRead::Records(qs, p1) => match spec_parse_records(
                data,
                p1,
                h.answers as int,
                RecordType::OTHER,
            ) {
                RecordsRead::OutOfBounds => PacketRead::OutOfBounds,
                RecordsRead::TooManyJumps => PacketRead::TooManyJumps,
                RecordsRead::Records(ans, p2) => match spec_parse_records(
                    data,
                    p2,
                    h.authoritative_entries as int,
                    RecordType::OTHER,
                ) {
                    RecordsRead::OutOfBounds => PacketRead::OutOfBounds,
                    RecordsRead::TooManyJumps => PacketRead::TooManyJumps,
                    RecordsRead::Records(auth, p3) => match spec_parse_records(
                        data,
                        p3,
                        h.resource_entries as int,
                        RecordType::OTHER,
                    ) {
                        RecordsRead::OutOfBounds => PacketRead::OutOfBounds,
                        RecordsRead::TooManyJumps => PacketRead::TooManyJumps,
                        RecordsRead::Records(res, p4) => PacketRead::Packet(
                            DnsPacketView {
                                header: h,
                                questions: qs,
                                answers: ans,
                                authorities: auth,
                                resources: res,
                            },
                            p4,
                        ),
                    },
                },
            },
        }
    }
}

/// Decodes `count` records one after another at the buffer's cursor.
#[verifier::loop_isolation(false)]
fn read_records(buf: &mut DnsBuffer, count: u16, kind: RecordType) -> (r: Result<
    Vec<DnsRecord>,
    DnsError,
>)
    requires
        old(buf).wf(),
    ensures
        final(buf).wf(),
        final(buf).buf@ == old(buf).buf@,
        ({
            let parse = spec_parse_records(old(buf).buf@, old(buf).pos as int, count as int, kind);
            &&& parse matches RecordsRead::Records(rs, end) ==> r matches Ok(v) && v@.map_values(
                |rec: DnsRecord| rec@,
            ) == rs && v@.len() == count && final(buf).pos == end
            &&& parse is OutOfBounds ==> r is Err && r->Err_0 == DnsError::BufferBounds
            &&& parse is TooManyJumps ==> r is Err && r->Err_0 == DnsError::CompressionLoopExceeded
        }),
{
    let ghost data = buf.buf@;
    let ghost full = spec_parse_records(buf.buf@, buf.pos as int, count as int, kind);
    let mut out: Vec<DnsRecord> = Vec::new();
    let mut i: usize = 0;
    proof {
        let rv = |rec: DnsRecord| rec@;
        assert(out@.map_values(rv) =~= Seq::<DnsRecordView>::empty());
        match spec_parse_records(data, buf.pos as int, count as int, kind) {
            RecordsRead::Records(rest, end) => {
                assert(Seq::<DnsRecordView>::empty() + rest =~= rest);
            },
            _ => {},
        }
    }
    while i < count as usize
        invariant
            i <= count,
            buf.wf(),
            buf.buf@ == data,
            out@.len() == i,
            full == spec_compose_records(
                out@.map_values(|rec: DnsRecord| rec@),
                spec_parse_records(data, buf.pos as int, count - i, kind),
            ),
        decreases count - i,
    {
        let ghost p = buf.pos as int;
        let ghost acc = out@.map_values(|rec: DnsRecord| rec@);
        let rec = DnsRecord::from_buf(buf, kind)?;
        proof {
            let rv = |rec: DnsRecord| rec@;
            assert(out@.push(rec).map_values(rv) =~= acc.push(rec@));
            match spec_parse_record(data, p, kind) {
                RecordRead::Record(rvw, p2) => {
                    match spec_parse_records(data, p2, count - i - 1, kind) {
                        RecordsRead::Records(rest, end) => {
                            assert(acc + (seq![rvw] + rest) =~= acc.push(rvw) + rest);
                        },
                        _ => {},
                    }
                },
                _ => {},
            }
        }
        out.push(rec);
        i += 1;
    }
    proof {
        match spec_parse_records(data, buf.pos as int, 0, kind) {
            RecordsRead::Records(rest, end) => {
                let rv = |rec: DnsRecord| rec@;
                assert(out@.map_values(rv) + rest =~= out@.map_values(rv));
            },
            _ => {},
        }
    }
    Ok(out)
}

/// A run of records encoded one after another.
pub open spec fn spec_write_records(rs: Seq<DnsRecordView>, st: EncState) -> Result<
    EncState,
    DnsError,
>
    decreases rs.len(),
{
    if rs.len() == 0 {
        Ok(st)
    } else {
        match spec_write_record(rs[0], st) {
            Err(e) => Err(e),
            Ok(s) => spec_write_records(rs.skip(1), s),
        }
    }
}

/// A whole message encoded at the cursor: the header's twelve bytes, then
/// every section's records in order, one offset table threaded through the
/// entire pass.
pub open spec fn spec_write_packet(p: DnsPacketView, st: EncState) -> Result<EncState, DnsError> {
    match spec_enc_bytes(st, p.header.spec_bytes()) {
        Err(e) => Err(e),
        Ok(s1) => match spec_write_records(p.questions, s1) {
            Err(e) => Err(e),
            Ok(s2) => match spec_write_records(p.answers, s2) {
                Err(e) => Err(e),
                Ok(s3) => match spec_write_records(p.authorities, s3) {
                    Err(e) => Err(e),
                    Ok(s4) => spec_write_records(p.resources, s4),
                },
            },
        },
    }
}

impl DnsPacket {
    /// An empty message: a zeroed header and no records.
    pub fn new() -> (p: DnsPacket)
        ensures
            p.header == crate::header::spec_default_header(),
            p@.questions.len() == 0,
            p@.answers.len() == 0,
            p@.authorities.len() == 0,
            p@.resources.len() == 0,
    {
        let p = DnsPacket {
            header: DnsHeader::new(),
            questions: Vec::new(),
            answers: Vec::new(),
            authorities: Vec::new(),
            resources: Vec::new(),
        };
        proof {
            assert(p@.questions =~= Seq::<DnsRecordView>::empty());
            assert(p@.answers =~= Seq::<DnsRecordView>::empty());
            assert(p@.authorities =~= Seq::<DnsRecordView>::empty());
            assert(p@.resources =~= Seq::<DnsRecordView>::empty());
        }
        p
    }

    /// Decodes a whole message at the buffer's cursor.
    pub fn from_buf(buf: &mut DnsBuffer) -> (r: Result<DnsPacket, DnsError>)
        requires
            old(buf).wf(),
        ensures
            final(buf).wf(),
            final(buf).buf@ == old(buf).buf@,
            ({
                let parse = spec_parse_packet(old(buf).buf@, old(buf).pos as int);
                &&& parse matches PacketRead::Packet(pv, end) ==> r matches Ok(p) && p@ == pv
                    && final(buf).pos == end
                &&& parse is OutOfBounds ==> r is Err && r->Err_0 == DnsError::BufferBounds
                &&& parse is TooManyJumps ==> r is Err && r->Err_0
                    == DnsError::CompressionLoopExceeded
            }),
    {
        let mut header = DnsHeader::new();
        header.read(buf)?;
        let questions = read_records(buf, header.questions, RecordType::QUESTION)?;
        let answers = read_records(buf, header.answers, RecordType::OTHER)?;
        let authorities = read_records(buf, header.authoritative_entries, RecordType::OTHER)?;
        let resources = read_records(buf, header.resource_entries, RecordType::OTHER)?;
        Ok(DnsPacket { header, questions, answers, authorities, resources })
    }

    /// Encodes this message at the buffer's cursor, starting a fresh offset
    /// table for the pass.  When encoding fails, part of the message may
    /// stand in the buffer; the caller discards such a buffer.
    pub fn write(&self, buf: &mut DnsBuffer) -> (r: Result<(), DnsError>)
        requires
            old(buf).wf(),
        ensures
            final(buf).wf(),
            ({
                let enc = spec_write_packet(
                    self@,
                    EncState {
                        data: old(buf).buf@,
                        pos: old(buf).pos as int,
                        table: Seq::empty(),
                    },
                );
                &&& enc matches Ok(st) ==> r is Ok && final(buf).buf@ == st.data && final(buf).pos
                    == st.pos
                &&& enc matches Err(e) ==> r is Err && r->Err_0 == e
            }),
    {
        let ghost st0 = EncState { data: buf.buf@, pos: buf.pos as int, table: Seq::empty() };
        let mut table = NameTable::new();
        self.header.write(buf)?;
        let ghost s1 = spec_enc_bytes(st0, self.header.spec_bytes())->Ok_0;
        proof {
            assert(buf.buf@ == s1.data && buf.pos == s1.pos && table@ == s1.table);
        }
        write_records(&self.questions, buf, &mut table)?;
        write_records(&self.answers, buf, &mut table)?;
        write_records(&self.authorities, buf, &mut table)?;
        write_records(&self.resources, buf, &mut table)?;
        Ok(())
    }
}

/// Encodes a run of records at the buffer's cursor.
#[verifier::loop_isolation(false)]
pub fn write_records(records: &Vec<DnsRecord>, buf: &mut DnsBuffer, table: &mut NameTable) -> (r:
    Result<(), DnsError>)
    requires
        old(buf).wf(),
        old(table).wf(),
    ensures
        final(buf).wf(),
        final(table).wf(),
        ({
            let enc = spec_write_records(
                records@.map_values(|rec: DnsRecord| rec@),
                EncState { data: old(buf).buf@, pos: old(buf).pos as int, table: old(table)@ },
            );
            &&& enc matches Ok(st) ==> r is Ok && final(buf).buf@ == st.data && final(buf).pos
                == st.pos && final(table)@ == st.table
            &&& enc matches Err(e) ==> r is Err && r->Err_0 == e
        }),
{
    let ghost rs = records@.map_values(|rec: DnsRecord| rec@);
    let ghost st0 = EncState { data: buf.buf@, pos: buf.pos as int, table: table@ };
    let mut i: usize = 0;
    proof {
        assert(rs.skip(0) =~= rs);
    }
    while i < records.len()
        invariant
            i <= records@.len(),
            buf.wf(),
            table.wf(),
            spec_write_records(rs, st0) == spec_write_records(
                rs.skip(i as int),
                EncState { data: buf.buf@, pos: buf.pos as int, table: table@ },
            ),
        decreases records@.len() - i,
    {
        let ghost before = EncState { data: buf.buf@, pos: buf.pos as int, table: table@ };
        records[i].write(buf, table)?;
        proof {
            assert(rs.skip(i as int)[0] == rs[i as int]);
            assert(rs.skip(i as int).skip(1) =~= rs.skip(i as int + 1));
            assert(rs[i as int] == records@[i as int]@);
        }
        i += 1;
    }
    proof {
        assert(rs.skip(records@.len() as int) =~= Seq::<DnsRecordView>::empty());
    }
    Ok(())
}

} // verus!
