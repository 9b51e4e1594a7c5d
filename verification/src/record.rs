//! Resource records: an owner name, a type-tagged rdata payload, a class,
//! and — outside the question section — a TTL and a declared data length.
//!
//! Decoding dispatches on the 16-bit type code and reads the payload the
//! type calls for; unknown types carry their raw bytes through.  Encoding
//! mirrors the decode order; owner names and name-valued payloads are
//! compression-eligible against the message's shared offset table.

use vstd::prelude::*;

use crate::DnsError;
use crate::buffer::BUF_SIZE;
use crate::buffer::DnsBuffer;
use crate::buffer::spec_splice;
use crate::buffer::spec_u16_hi;
use crate::buffer::spec_u16_lo;
use crate::buffer::spec_u16_of;
use crate::buffer::spec_u32_byte;
use crate::buffer::spec_u32_of;
use crate::name::MAX_JUMPS;
use crate::name::NameRead;
use crate::name::NameTable;
use crate::name::spec_add_entries;
use crate::name::spec_has_long_label;
use crate::name::spec_literal_limit;
use crate::name::spec_name_end;
use crate::name::spec_name_of;
use crate::name::spec_name_wire;
use crate::name::spec_read_name;
use crate::name::write_name;

verus! {

/// A decoded domain name, fully resolved to its dotted text at parse time:
/// no reference back into the receive buffer survives past the decode.
#[derive(Debug)]
pub enum Domain {
    Domain(Vec<u8>),
}

impl View for Domain {
    type V = Seq<u8>;

    open spec fn view(&self) -> Seq<u8> {
        match self {
            Domain::Domain(v) => v@,
        }
    }
}

impl Clone for Domain {
    fn clone(&self) -> (r: Self)
        ensures
            r@ == self@,
    {
        match self {
            Domain::Domain(v) => {
                let c = v.clone();
                proof {
                    assert(c@ =~= v@);
                }
                Domain::Domain(c)
            },
        }
    }
}

impl Domain {
    /// The name's text, one character per stored byte.
    pub fn get_string(&self) -> (s: String)
        ensures
            s@.len() == self@.len(),
            forall|i: int| 0 <= i < self@.len() ==> s@[i] == #[trigger] self@[i] as char,
    {
        match self {
            Domain::Domain(v) => {
                let mut s = String::new();
                let mut i: usize = 0;
                while i < v.len()
                    invariant
                        i <= v@.len(),
                        s@.len() == i,
                        forall|k: int| 0 <= k < i ==> s@[k] == #[trigger] v@[k] as char,
                    decreases v@.len() - i,
                {
                    push_char(&mut s, v[i] as char);
                    i += 1;
                }
                s
            },
        }
    }
}

/// Relies on `String::push`: appends the given character to the end of the
/// string.
#[verifier::external_body]
fn push_char(s: &mut String, c: char)
    ensures
        final(s)@ == old(s)@.push(c),
{
    s.push(c);
}

/// The ghost shape of an rdata payload: the type tag with the plain values
/// it carries.
pub enum RDataView {
    UNKNOWN(u16, Option<Seq<u8>>),
    A(Option<u32>),
    NS(Option<Seq<u8>>),
    TXT(Option<Seq<u8>>),
    AAAA(Option<(u32, u32, u32, u32)>),
}

/// The type-tagged rdata of a record.  Each payload is `None` for a record
/// that only names its type (a question) and `Some` once decoded: `A` holds
/// the IPv4 address as its big-endian 32-bit value, `AAAA` the IPv6 address
/// as four big-endian 32-bit groups, `NS` a domain name, `TXT` raw text
/// bytes, and `UNKNOWN` its wire type code with the raw rdata bytes carried
/// through opaquely.
#[derive(Debug)]
pub enum RDataType {
    UNKNOWN(u16, Option<Vec<u8>>),
    A(Option<u32>),
    NS(Option<Vec<u8>>),
    TXT(Option<Vec<u8>>),
    AAAA(Option<(u32, u32, u32, u32)>),
}

impl View for RDataType {
    type V = RDataView;

    open spec fn view(&self) -> RDataView {
        match self {
            RDataType::UNKNOWN(x, d) => RDataView::UNKNOWN(
                *x,
                match d {
                    Some(v) => Some(v@),
                    None => None,
                },
            ),
            RDataType::A(a) => RDataView::A(*a),
            RDataType::NS(d) => RDataView::NS(
                match d {
                    Some(v) => Some(v@),
                    None => None,
                },
            ),
            RDataType::TXT(d) => RDataView::TXT(
                match d {
                    Some(v) => Some(v@),
                    None => None,
                },
            ),
            RDataType::AAAA(a) => RDataView::AAAA(*a),
        }
    }
}

impl Clone for RDataType {
    fn clone(&self) -> (r: Self)
        ensures
            r@ == self@,
    {
        match self {
            RDataType::UNKNOWN(x, d) => RDataType::UNKNOWN(*x, clone_opt_bytes(d)),
            RDataType::A(a) => RDataType::A(*a),
            RDataType::NS(d) => RDataType::NS(clone_opt_bytes(d)),
            RDataType::TXT(d) => RDataType::TXT(clone_opt_bytes(d)),
            RDataType::AAAA(a) => RDataType::AAAA(*a),
        }
    }
}

/// Copies an optional byte vector.
fn clone_opt_bytes(d: &Option<Vec<u8>>) -> (r: Option<Vec<u8>>)
    ensures
        d is None ==> r is None,
        d matches Some(v) ==> r matches Some(w) && w@ == v@,
{
    match d {
        Some(v) => {
            let c = v.clone();
            proof {
                assert(c@ =~= v@);
            }
            Some(c)
        },
        None => None,
    }
}

/// The rdata tag denoted by a 16-bit wire type code, payload not yet read.
pub open spec fn spec_rdata_tag(num: u16) -> RDataView {
    if num == 1 {
        RDataView::A(None)
    } else if num == 2 {
        RDataView::NS(None)
    } else if num == 16 {
        RDataView::TXT(None)
    } else if num == 28 {
        RDataView::AAAA(None)
    } else {
        RDataView::UNKNOWN(num, None)
    }
}

/// The wire type code of an rdata payload.
pub open spec fn spec_rdata_num(rt: RDataView) -> u16 {
    match rt {
        RDataView::UNKNOWN(x, _) => x,
        RDataView::NS(_) => 2,
        RDataView::A(_) => 1,
        RDataView::AAAA(_) => 28,
        RDataView::TXT(_) => 16,
    }
}

/// Whether the payload carries a value to write after the ttl and length
/// fields.
pub open spec fn spec_has_data(rt: RDataView) -> bool {
    match rt {
        RDataView::UNKNOWN(_, d) => d is Some,
        RDataView::NS(d) => d is Some,
        RDataView::A(d) => d is Some,
        RDataView::AAAA(d) => d is Some,
        RDataView::TXT(d) => d is Some,
    }
}

impl RDataType {
    /// The rdata tag for a wire type code, as [`spec_rdata_tag`] states.
    pub fn from_num(num: u16) -> (r: RDataType)
        ensures
            r@ == spec_rdata_tag(num),
    {
        match num {
            1 => RDataType::A(None),
            2 => RDataType::NS(None),
            16 => RDataType::TXT(None),
            28 => RDataType::AAAA(None),
            _ => RDataType::UNKNOWN(num, None),
        }
    }

    /// The wire type code, as [`spec_rdata_num`] states.
    pub fn to_num(&self) -> (r: u16)
        ensures
            r == spec_rdata_num(self@),
    {
        match self {
            RDataType::UNKNOWN(x, _) => *x,
            RDataType::NS(_) => 2,
            RDataType::A(_) => 1,
            RDataType::AAAA(_) => 28,
            RDataType::TXT(_) => 16,
        }
    }

    /// Whether a value is present, as [`spec_has_data`] states.
    pub fn has_data(&self) -> (r: bool)
        ensures
            r == spec_has_data(self@),
    {
        match self {
            RDataType::UNKNOWN(_, d) => d.is_some(),
            RDataType::NS(d) => d.is_some(),
            RDataType::A(d) => d.is_some(),
            RDataType::AAAA(d) => d.is_some(),
            RDataType::TXT(d) => d.is_some(),
        }
    }
}

/// The class of a record: internet, or an opaque numeric passthrough.
#[derive(Clone, Copy, Debug, PartialEq, Eq, Structural)]
pub enum RClass {
    IN,
    SOMETHING(u16),
}

impl RClass {
    /// The class denoted by a 16-bit wire value.
    pub open spec fn spec_from_num(num: u16) -> RClass {
        if num == 1 {
            RClass::IN
        } else {
            RClass::SOMETHING(num)
        }
    }

    /// The wire value of a class.
    pub open spec fn spec_to_num(self) -> u16 {
        match self {
            RClass::IN => 1,
            RClass::SOMETHING(x) => x,
        }
    }

    pub fn from_num(num: u16) -> (r: RClass)
        ensures
            r == RClass::spec_from_num(num),
    {
        match num {
            1 => RClass::IN,
            _ => RClass::SOMETHING(num),
        }
    }

    pub fn to_num(&self) -> (r: u16)
        ensures
            r == self.spec_to_num(),
    {
        match *self {
            RClass::IN => 1,
            RClass::SOMETHING(x) => x,
        }
    }
}

/// Which wire shape a record has: a question stops after the class; any
/// other section's record carries ttl, length and rdata.
#[derive(Clone, Copy, Debug, PartialEq, Eq, Structural)]
pub enum RecordType {
    QUESTION,
    OTHER,
}

/// One resource record.  The ttl and declared data length are both absent
/// exactly on questions.
#[derive(Debug)]
pub struct DnsRecord {
    pub domain: Domain,
    pub rtype: RDataType,
    pub rclass: RClass,
    pub ttl: Option<u32>,
    pub data_len: Option<u16>,
}

/// The ghost shape of a record.
pub struct DnsRecordView {
    pub domain: Seq<u8>,
    pub rtype: RDataView,
    pub rclass: RClass,
    pub ttl: Option<u32>,
    pub data_len: Option<u16>,
}

impl View for DnsRecord {
    type V = DnsRecordView;

    open spec fn view(&self) -> DnsRecordView {
        DnsRecordView {
            domain: self.domain@,
            rtype: self.rtype@,
            rclass: self.rclass,
            ttl: self.ttl,
            data_len: self.data_len,
        }
    }
}

impl Clone for DnsRecord {
    fn clone(&self) -> (r: Self)
        ensures
            r@ == self@,
    {
        DnsRecord {
            domain: self.domain.clone(),
            rtype: self.rtype.clone(),
            rclass: self.rclass,
            ttl: self.ttl,
            data_len: self.data_len,
        }
    }
}

/// What decoding a record from a message yields: the record's shape and the
/// cursor position after it, or the failure mode.
pub enum RecordRead {
    Record(DnsRecordView, int),
    OutOfBounds,
    TooManyJumps,
}

/// The record decoded from `data` at `pos`, dispatched on `kind` and then on
/// the type code, as the exec decoder reads it.
pub open spec fn spec_parse_record(data: Seq<u8>, pos: int, kind: RecordType) -> RecordRead {
    match spec_read_name(data, pos, MAX_JUMPS as int) {
        NameRead::OutOfBounds => RecordRead::OutOfBounds,
        NameRead::TooManyJumps => RecordRead::TooManyJumps,
        NameRead::Name(labels) => {
            let name = spec_name_of(labels);
            let p1 = spec_name_end(data, pos);
            if p1 + 4 > BUF_SIZE {
                RecordRead::OutOfBounds
            } else {
                let tnum = spec_u16_of(data[p1], data[p1 + 1]);
                let cnum = spec_u16_of(data[p1 + 2], data[p1 + 3]);
                let rclass = RClass::spec_from_num(cnum);
                if kind == RecordType::QUESTION {
                    RecordRead::Record(
                        DnsRecordView {
                            domain: name,
                            rtype: spec_rdata_tag(tnum),
                            rclass,
                            ttl: None,
                            data_len: None,
                        },
                        p1 + 4,
                    )
                } else if p1 + 10 > BUF_SIZE {
                    RecordRead::OutOfBounds
                } else {
                    let ttl = spec_u32_of(data[p1 + 4], data[p1 + 5], data[p1 + 6], data[p1 + 7]);
                    let dlen = spec_u16_of(data[p1 + 8], data[p1 + 9]);
                    let p2 = p1 + 10;
                    match spec_parse_rdata(data, p2, tnum, dlen) {
                        RDataRead::Data(rt, end) => RecordRead::Record(
                            DnsRecordView {
                                domain: name,
                                rtype: rt,
                                rclass,
                                ttl: Some(ttl),
                                data_len: Some(dlen),
                            },
                            end,
                        ),
                        RDataRead::OutOfBounds => RecordRead::OutOfBounds,
                        RDataRead::TooManyJumps => RecordRead::TooManyJumps,
                    }
                }
            }
        },
    }
}

/// What decoding an rdata payload yields.
pub enum RDataRead {
    Data(RDataView, int),
    OutOfBounds,
    TooManyJumps,
}

/// The rdata payload decoded at `pos` for type code `tnum` with declared
/// length `dlen`: an `A` address as four bytes, an `AAAA` address as
/// sixteen, an `NS` target as a compression-eligible name, and `TXT` or an
/// unknown type as `dlen` raw bytes.
pub open spec fn spec_parse_rdata(data: Seq<u8>, pos: int, tnum: u16, dlen: u16) -> RDataRead {
    if tnum == 1 {
        if pos + 4 > BUF_SIZE {
            RDataRead::OutOfBounds
        } else {
            RDataRead::Data(
                RDataView::A(
                    Some(spec_u32_of(data[pos], data[pos + 1], data[pos + 2], data[pos + 3])),
                ),
                pos + 4,
            )
        }
    } else if tnum == 28 {
        if pos + 16 > BUF_SIZE {
            RDataRead::OutOfBounds
        } else {
            RDataRead::Data(
                RDataView::AAAA(
                    Some(
                        (
                            spec_u32_of(data[pos], data[pos + 1], data[pos + 2], data[pos + 3]),
                            spec_u32_of(
                                data[pos + 4],
                                data[pos + 5],
                                data[pos + 6],
                                data[pos + 7],
                            ),
                            spec_u32_of(
                                data[pos + 8],
                                data[pos + 9],
                                data[pos + 10],
                                data[pos + 11],
                            ),
                            spec_u32_of(
                                data[pos + 12],
                                data[pos + 13],
                                data[pos + 14],
                                data[pos + 15],
                            ),
                        ),
                    ),
                ),
                pos + 16,
            )
        }
    } else if tnum == 2 {
        match spec_read_name(data, pos, MAX_JUMPS as int) {
            NameRead::Name(labels) => RDataRead::Data(
                RDataView::NS(Some(spec_name_of(labels))),
                spec_name_end(data, pos),
            ),
            NameRead::OutOfBounds => RDataRead::OutOfBounds,
            NameRead::TooManyJumps => RDataRead::TooManyJumps,
        }
    } else if tnum == 16 {
        if pos + dlen >= BUF_SIZE {
            RDataRead::OutOfBounds
        } else {
            RDataRead::Data(
                RDataView::TXT(Some(data.subrange(pos, pos + dlen))),
                pos + dlen,
            )
        }
    } else {
        if pos + dlen >= BUF_SIZE {
            RDataRead::OutOfBounds
        } else {
            RDataRead::Data(
                RDataView::UNKNOWN(tnum, Some(data.subrange(pos, pos + dlen))),
                pos + dlen,
            )
        }
    }
}

/// The evolving state of one encode pass: the message bytes, the cursor,
/// and the shared offset table.
pub struct EncState {
    pub data: Seq<u8>,
    pub pos: int,
    pub table: Seq<(Seq<u8>, u16)>,
}

/// The two big-endian bytes of a 16-bit value.
pub open spec fn spec_u16_bytes(v: u16) -> Seq<u8> {
    seq![spec_u16_hi(v), spec_u16_lo(v)]
}

/// The four big-endian bytes of a 32-bit value.
pub open spec fn spec_u32_bytes(v: u32) -> Seq<u8> {
    seq![spec_u32_byte(v, 0), spec_u32_byte(v, 1), spec_u32_byte(v, 2), spec_u32_byte(v, 3)]
}

/// `bytes` written at the cursor, when they fit inside the message.
pub open spec fn spec_enc_bytes(st: EncState, bytes: Seq<u8>) -> Result<EncState, DnsError> {
    if st.pos + bytes.len() <= BUF_SIZE {
        Ok(
            EncState {
                data: spec_splice(st.data, st.pos, bytes),
                pos: st.pos + bytes.len(),
                table: st.table,
            },
        )
    } else {
        Err(DnsError::BufferBounds)
    }
}

/// A 32-bit value written big-endian at the cursor.
pub open spec fn spec_enc_u32(st: EncState, v: u32) -> Result<EncState, DnsError> {
    spec_enc_bytes(st, spec_u32_bytes(v))
}

/// A name encoded at the cursor against the pass's offset table, as
/// [`spec_name_wire`] and [`spec_add_entries`] state.
pub open spec fn spec_enc_name(st: EncState, name: Seq<u8>) -> Result<EncState, DnsError> {
    if spec_has_long_label(name) {
        Err(DnsError::LabelTooLong)
    } else if st.pos + spec_name_wire(name, st.table).len() > BUF_SIZE {
        Err(DnsError::BufferBounds)
    } else {
        Ok(
            EncState {
                data: spec_splice(st.data, st.pos, spec_name_wire(name, st.table)),
                pos: st.pos + spec_name_wire(name, st.table).len(),
                table: spec_add_entries(
                    st.table,
                    name,
                    st.pos,
                    0,
                    spec_literal_limit(name, st.table),
                ),
            },
        )
    }
}

/// The rdata bytes written for a populated payload; nothing for an empty
/// one.  Name-valued payloads are compression-eligible against the same
/// table as the owner names.
pub open spec fn spec_enc_rdata(st: EncState, rt: RDataView) -> Result<EncState, DnsError> {
    match rt {
        RDataView::A(Some(v)) => spec_enc_u32(st, v),
        RDataView::AAAA(Some(w)) => match spec_enc_u32(st, w.0) {
            Err(e) => Err(e),
            Ok(s1) => match spec_enc_u32(s1, w.1) {
                Err(e) => Err(e),
                Ok(s2) => match spec_enc_u32(s2, w.2) {
                    Err(e) => Err(e),
                    Ok(s3) => spec_enc_u32(s3, w.3),
                },
            },
        },
        RDataView::NS(Some(n)) => spec_enc_name(st, n),
        RDataView::TXT(Some(n)) => spec_enc_name(st, n),
        RDataView::UNKNOWN(_, Some(b)) => spec_enc_bytes(st, b),
        _ => Ok(st),
    }
}

/// A whole record encoded at the cursor: the owner name, type and class
/// codes, then — only when present — the ttl, the declared data length, and
/// the payload.
pub open spec fn spec_write_record(rec: DnsRecordView, st: EncState) -> Result<
    EncState,
    DnsError,
> {
    match spec_enc_name(st, rec.domain) {
        Err(e) => Err(e),
        Ok(s1) => match spec_enc_bytes(
            s1,
            spec_u16_bytes(spec_rdata_num(rec.rtype)) + spec_u16_bytes(rec.rclass.spec_to_num()),
        ) {
            Err(e) => Err(e),
            Ok(s2) => {
                let after_ttl = match rec.ttl {
                    Some(t) => spec_enc_u32(s2, t),
                    None => Ok(s2),
                };
                match after_ttl {
                    Err(e) => Err(e),
                    Ok(s3) => {
                        let after_len = match rec.data_len {
                            Some(d) => spec_enc_bytes(s3, spec_u16_bytes(d)),
                            None => Ok(s3),
                        };
                        match after_len {
                            Err(e) => Err(e),
                            Ok(s4) => spec_enc_rdata(s4, rec.rtype),
                        }
                    },
                }
            },
        },
    }
}

/// The two big-endian bytes of `v`, as a vector.
fn u16_vec(v: u16) -> (b: Vec<u8>)
    ensures
        b@ == spec_u16_bytes(v),
{
    let mut b: Vec<u8> = Vec::new();
    b.push((v >> 8) as u8);
    b.push((v & 0xFF) as u8);
    proof {
        assert(b@ =~= spec_u16_bytes(v));
    }
    b
}

/// The four big-endian bytes of `v`, as a vector.
fn u32_vec(v: u32) -> (b: Vec<u8>)
    ensures
        b@ == spec_u32_bytes(v),
{
    let mut b: Vec<u8> = Vec::new();
    b.push(((v >> 24) & 0xFF) as u8);
    b.push(((v >> 16) & 0xFF) as u8);
    b.push(((v >> 8) & 0xFF) as u8);
    b.push((v & 0xFF) as u8);
    proof {
        assert(b@ =~= spec_u32_bytes(v));
    }
    b
}

impl DnsRecord {
    /// Encodes this record at the buffer's cursor against the encode pass's
    /// offset table.  When encoding fails, part of the record may stand in
    /// the buffer; the caller discards such a buffer.
    #[verifier::rlimit(60)]
    pub fn write(&self, buf: &mut DnsBuffer, table: &mut NameTable) -> (r: Result<(), DnsError>)
        requires
            old(buf).wf(),
            old(table).wf(),
        ensures
            final(buf).wf(),
            final(table).wf(),
            ({
                let enc = spec_write_record(
                    self@,
                    EncState {
                        data: old(buf).buf@,
                        pos: old(buf).pos as int,
                        table: old(table)@,
                    },
                );
                &&& enc matches Ok(st) ==> r is Ok && final(buf).buf@ == st.data && final(buf).pos
                    == st.pos && final(table)@ == st.table
                &&& enc matches Err(e) ==> r is Err && r->Err_0 == e
            }),
    {
        let ghost st0 = EncState { data: buf.buf@, pos: buf.pos as int, table: table@ };
        match &self.domain {
            Domain::Domain(d) => {
                write_name(buf, d, table)?;
            },
        }
        let ghost s1 = spec_enc_name(st0, self@.domain)->Ok_0;
        proof {
            assert(buf.buf@ == s1.data && buf.pos == s1.pos && table@ == s1.table);
        }

        let mut head = u16_vec(self.rtype.to_num());
        let mut class_bytes = u16_vec(self.rclass.to_num());
        head.append(&mut class_bytes);
        proof {
            assert(head@ =~= spec_u16_bytes(spec_rdata_num(self@.rtype)) + spec_u16_bytes(
                self@.rclass.spec_to_num(),
            ));
        }
        buf.write_bytes(&head)?;
        let ghost s2 = spec_enc_bytes(
            s1,
            spec_u16_bytes(spec_rdata_num(self@.rtype)) + spec_u16_bytes(
                self@.rclass.spec_to_num(),
            ),
        )->Ok_0;

        if let Some(t) = self.ttl {
            let tb = u32_vec(t);
            buf.write_bytes(&tb)?;
        }
        let ghost s3 = (match self@.ttl {
            Some(t) => spec_enc_u32(s2, t),
            None => Ok::<EncState, DnsError>(s2),
        })->Ok_0;

        if let Some(dl) = self.data_len {
            let db = u16_vec(dl);
            buf.write_bytes(&db)?;
        }
        let ghost s4 = (match self@.data_len {
            Some(d) => spec_enc_bytes(s3, spec_u16_bytes(d)),
            None => Ok::<EncState, DnsError>(s3),
        })->Ok_0;

        match &self.rtype {
            RDataType::A(Some(raw)) => {
                let b = u32_vec(*raw);
                buf.write_bytes(&b)?;
            },
            RDataType::AAAA(Some(w)) => {
                let b0 = u32_vec(w.0);
                buf.write_bytes(&b0)?;
                let b1 = u32_vec(w.1);
                buf.write_bytes(&b1)?;
                let b2 = u32_vec(w.2);
                buf.write_bytes(&b2)?;
                let b3 = u32_vec(w.3);
                buf.write_bytes(&b3)?;
            },
            RDataType::NS(Some(n)) => {
                write_name(buf, n, table)?;
            },
            RDataType::TXT(Some(n)) => {
                write_name(buf, n, table)?;
            },
            RDataType::UNKNOWN(_, Some(raw)) => {
                buf.write_bytes(raw)?;
            },
            _ => {},
        }
        Ok(())
    }
}

impl DnsRecord {
    /// Decodes one record at the buffer's cursor, of the given wire shape.
    pub fn from_buf(buf: &mut DnsBuffer, record_type: RecordType) -> (r: Result<
        DnsRecord,
        DnsError,
    >)
        requires
            old(buf).wf(),
        ensures
            final(buf).wf(),
            final(buf).buf@ == old(buf).buf@,
            ({
                let parse = spec_parse_record(old(buf).buf@, old(buf).pos as int, record_type);
                &&& parse matches RecordRead::Record(rec, end) ==> r matches Ok(out) && out@ == rec
                    && final(buf).pos == end
                &&& parse is OutOfBounds ==> r is Err && r->Err_0 == DnsError::BufferBounds
                &&& parse is TooManyJumps ==> r is Err && r->Err_0
                    == DnsError::CompressionLoopExceeded
            }),
    {
        let domain_text = buf.get_domain()?;
        let tnum = buf.read_u16()?;
        let cnum = buf.read_u16()?;
        let rclass = RClass::from_num(cnum);
        match record_type {
            RecordType::QUESTION => Ok(
                DnsRecord {
                    domain: Domain::Domain(domain_text),
                    rtype: RDataType::from_num(tnum),
                    rclass,
                    ttl: None,
                    data_len: None,
                },
            ),
            RecordType::OTHER => {
                let ttl = buf.read_u32()?;
                let data_len = buf.read_u16()?;
                let rtype = Self::read_rdata(buf, tnum, data_len)?;
                Ok(
                    DnsRecord {
                        domain: Domain::Domain(domain_text),
                        rtype,
                        rclass,
                        ttl: Some(ttl),
                        data_len: Some(data_len),
                    },
                )
            },
        }
    }

    /// Decodes the rdata payload for type code `tnum` at the cursor.
    fn read_rdata(buf: &mut DnsBuffer, tnum: u16, dlen: u16) -> (r: Result<RDataType, DnsError>)
        requires
            old(buf).wf(),
        ensures
            final(buf).wf(),
            final(buf).buf@ == old(buf).buf@,
            ({
                let parse = spec_parse_rdata(old(buf).buf@, old(buf).pos as int, tnum, dlen);
                &&& parse matches RDataRead::Data(rt, end) ==> r matches Ok(out) && out@ == rt
                    && final(buf).pos == end
                &&& parse is OutOfBounds ==> r is Err && r->Err_0 == DnsError::BufferBounds
                &&& parse is TooManyJumps ==> r is Err && r->Err_0
                    == DnsError::CompressionLoopExceeded
            }),
    {
        match RDataType::from_num(tnum) {
            RDataType::A(_) => {
                let raw = buf.read_u32()?;
                Ok(RDataType::A(Some(raw)))
            },
            RDataType::AAAA(_) => {
                let w0 = buf.read_u32()?;
                let w1 = buf.read_u32()?;
                let w2 = buf.read_u32()?;
                let w3 = buf.read_u32()?;
                Ok(RDataType::AAAA(Some((w0, w1, w2, w3))))
            },
            RDataType::NS(_) => {
                let target = buf.get_domain()?;
                Ok(RDataType::NS(Some(target)))
            },
            RDataType::TXT(_) => {
                let text = buf.get_range(buf.pos, dlen as usize)?;
                let _ = buf.step(dlen as usize);
                Ok(RDataType::TXT(Some(text)))
            },
            RDataType::UNKNOWN(x, _) => {
                let raw = buf.get_range(buf.pos, dlen as usize)?;
                let _ = buf.step(dlen as usize);
                Ok(RDataType::UNKNOWN(x, Some(raw)))
            },
        }
    }
}

} // verus!
