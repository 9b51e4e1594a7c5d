//! The 12-byte DNS message header: bit-field codec and response codes.
//!
//! The header carries a 16-bit id, two flag bytes, and the four section
//! counts.  Encode and decode are exact mirrors over twelve fixed bytes; the
//! round trip is proved in [`lemma_header_round_trip`].

use vstd::prelude::*;

use crate::DnsError;
use crate::buffer::BUF_SIZE;
use crate::buffer::DnsBuffer;
use crate::buffer::spec_splice;
use crate::buffer::spec_u16_hi;
use crate::buffer::spec_u16_lo;
use crate::buffer::spec_u16_of;
use crate::buffer::lemma_u16_bytes_round_trip;

verus! {

/// The 4-bit response code of a reply.  Values outside the known set decode
/// permissively to `NOERROR`.
#[derive(Clone, Copy, Debug, PartialEq, Eq, Structural)]
pub enum ResultCode {
    NOERROR,
    FORMERR,
    SERVFAIL,
    NXDOMAIN,
    NOTIMP,
    REFUSED,
}

impl ResultCode {
    /// The response code denoted by a 4-bit wire value.
    pub open spec fn spec_from_num(num: u8) -> ResultCode {
        if num == 1 {
            ResultCode::FORMERR
        } else if num == 2 {
            ResultCode::SERVFAIL
        } else if num == 3 {
            ResultCode::NXDOMAIN
        } else if num == 4 {
            ResultCode::NOTIMP
        } else if num == 5 {
            ResultCode::REFUSED
        } else {
            ResultCode::NOERROR
        }
    }

    /// The wire value of a response code.
    pub open spec fn spec_to_num(self) -> u8 {
        match self {
            ResultCode::NOERROR => 0,
            ResultCode::FORMERR => 1,
            ResultCode::SERVFAIL => 2,
            ResultCode::NXDOMAIN => 3,
            ResultCode::NOTIMP => 4,
            ResultCode::REFUSED => 5,
        }
    }

    pub fn from_num(num: u8) -> (r: ResultCode)
        ensures
            r == ResultCode::spec_from_num(num),
    {
        match num {
            1 => ResultCode::FORMERR,
            2 => ResultCode::SERVFAIL,
            3 => ResultCode::NXDOMAIN,
            4 => ResultCode::NOTIMP,
            5 => ResultCode::REFUSED,
            _ => ResultCode::NOERROR,
        }
    }

    pub fn to_num(self) -> (r: u8)
        ensures
            r == self.spec_to_num(),
    {
        match self {
            ResultCode::NOERROR => 0,
            ResultCode::FORMERR => 1,
            ResultCode::SERVFAIL => 2,
            ResultCode::NXDOMAIN => 3,
            ResultCode::NOTIMP => 4,
            ResultCode::REFUSED => 5,
        }
    }
}

/// The decoded DNS message header.
#[derive(Clone, Copy, Debug, PartialEq, Eq, Structural)]
pub struct DnsHeader {
    /// Opaque 16-bit correlation token chosen by the requester.
    pub id: u16,
    /// The requester asks the server to recurse.
    pub recursion_desired: bool,
    /// The message was cut off at the 512-byte UDP limit.
    pub truncated_message: bool,
    /// The responder is authoritative for the requested domain.
    pub authoritative_answer: bool,
    /// 4-bit operation code; 0 for ordinary queries.
    pub opcode: u8,
    /// `false` for queries, `true` for responses.
    pub response: bool,
    /// Status of the query, set by the server.
    pub rescode: ResultCode,
    pub checking_disabled: bool,
    pub authed_data: bool,
    /// Reserved bit, now used by DNSSEC queries.
    pub z: bool,
    /// The server offers recursion.
    pub recursion_available: bool,
    /// Number of records in the question section.
    pub questions: u16,
    /// Number of records in the answer section.
    pub answers: u16,
    /// Number of records in the authority section.
    pub authoritative_entries: u16,
    /// Number of records in the additional section.
    pub resource_entries: u16,
}

/// The byte for `true` is 1, for `false` 0.
pub open spec fn spec_bool_byte(b: bool) -> u8 {
    if b {
        1
    } else {
        0
    }
}

impl DnsHeader {
    /// The opcode fits its 4-bit wire field.
    pub open spec fn wf(&self) -> bool {
        self.opcode <= 0x0F
    }

    /// The first flag byte: RD, TC, AA in the low bits, the opcode masked to
    /// its four bits, QR in the top bit.
    pub open spec fn spec_flags1(&self) -> u8 {
        (spec_bool_byte(self.recursion_desired) | (spec_bool_byte(self.truncated_message) << 1)
            | (spec_bool_byte(self.authoritative_answer) << 2) | ((self.opcode & 0x0F) << 3)
            | (spec_bool_byte(self.response) << 7)) as u8
    }

    /// The second flag byte: the response code in the low bits, then CD, AD,
    /// Z, RA.
    pub open spec fn spec_flags2(&self) -> u8 {
        (self.rescode.spec_to_num() | (spec_bool_byte(self.checking_disabled) << 4)
            | (spec_bool_byte(self.authed_data) << 5) | (spec_bool_byte(self.z) << 6)
            | (spec_bool_byte(self.recursion_available) << 7)) as u8
    }

    /// The twelve bytes this header encodes to.
    pub open spec fn spec_bytes(&self) -> Seq<u8> {
        seq![
            spec_u16_hi(self.id),
            spec_u16_lo(self.id),
            self.spec_flags1(),
            self.spec_flags2(),
            spec_u16_hi(self.questions),
            spec_u16_lo(self.questions),
            spec_u16_hi(self.answers),
            spec_u16_lo(self.answers),
            spec_u16_hi(self.authoritative_entries),
            spec_u16_lo(self.authoritative_entries),
            spec_u16_hi(self.resource_entries),
            spec_u16_lo(self.resource_entries),
        ]
    }

    /// A header with every field zero, false or `NOERROR`.
    pub fn new() -> (h: DnsHeader)
        ensures
            h == spec_default_header(),
    {
        DnsHeader {
            id: 0,
            recursion_desired: false,
            truncated_message: false,
            authoritative_answer: false,
            opcode: 0,
            response: false,
            rescode: ResultCode::NOERROR,
            checking_disabled: false,
            authed_data: false,
            z: false,
            recursion_available: false,
            questions: 0,
            answers: 0,
            authoritative_entries: 0,
            resource_entries: 0,
        }
    }

    /// Decodes twelve bytes at the cursor into this header.
    pub fn read(&mut self, buf: &mut DnsBuffer) -> (r: Result<(), DnsError>)
        requires
            old(buf).wf(),
        ensures
            final(buf).buf@ == old(buf).buf@,
            old(buf).pos + 12 <= BUF_SIZE ==> r is Ok
                && *final(self) == spec_parse_header(old(buf).buf@, old(buf).pos as int)
                && final(buf).pos == old(buf).pos + 12,
            old(buf).pos + 12 > BUF_SIZE ==> r == Err::<(), DnsError>(DnsError::BufferBounds)
                && *final(self) == *old(self)
                && final(buf).pos == old(buf).pos,
    {
        if buf.pos > BUF_SIZE - 12 {
            return Err(DnsError::BufferBounds);
        }
        self.id = buf.read_u16().unwrap();
        let flags_1 = match buf.read() {
            Ok(b) => b,
            Err(e) => {
                return Err(e);
            },
        };
        let flags_2 = match buf.read() {
            Ok(b) => b,
            Err(e) => {
                return Err(e);
            },
        };
        self.recursion_desired = (flags_1 & 1) > 0;
        self.truncated_message = (flags_1 & 2) > 0;
        self.authoritative_answer = (flags_1 & 4) > 0;
        self.opcode = (flags_1 >> 3) & 0x0F;
        self.response = (flags_1 & 0x80) > 0;
        self.rescode = ResultCode::from_num(flags_2 & 0x0F);
        self.checking_disabled = (flags_2 & 0x10) > 0;
        self.authed_data = (flags_2 & 0x20) > 0;
        self.z = (flags_2 & 0x40) > 0;
        self.recursion_available = (flags_2 & 0x80) > 0;
        self.questions = buf.read_u16().unwrap();
        self.answers = buf.read_u16().unwrap();
        self.authoritative_entries = buf.read_u16().unwrap();
        self.resource_entries = buf.read_u16().unwrap();
        Ok(())
    }

    /// Encodes this header as twelve bytes at the cursor.
    pub fn write(&self, buf: &mut DnsBuffer) -> (r: Result<(), DnsError>)
        requires
            old(buf).wf(),
        ensures
            final(buf).wf(),
            old(buf).pos + 12 <= BUF_SIZE ==> r is Ok
                && final(buf).buf@ =~= spec_splice(
                old(buf).buf@,
                old(buf).pos as int,
                self.spec_bytes(),
            ) && final(buf).pos == old(buf).pos + 12,
            old(buf).pos + 12 > BUF_SIZE ==> r == Err::<(), DnsError>(DnsError::BufferBounds)
                && final(buf).buf@ == old(buf).buf@
                && final(buf).pos == old(buf).pos,
    {
        if buf.pos > BUF_SIZE - 12 {
            return Err(DnsError::BufferBounds);
        }
        let flags_1 = self.exec_flags1();
        let flags_2 = self.exec_flags2();
        let _ = buf.write_u16(self.id);
        let _ = buf.write(flags_1);
        let _ = buf.write(flags_2);
        let _ = buf.write_u16(self.questions);
        let _ = buf.write_u16(self.answers);
        let _ = buf.write_u16(self.authoritative_entries);
        let _ = buf.write_u16(self.resource_entries);
        Ok(())
    }

    /// The first flag byte, computed as [`Self::spec_flags1`] states.
    fn exec_flags1(&self) -> (b: u8)
        ensures
            b == self.spec_flags1(),
    {
        (if self.recursion_desired {
            1u8
        } else {
            0u8
        }) | ((if self.truncated_message {
            1u8
        } else {
            0u8
        }) << 1) | ((if self.authoritative_answer {
            1u8
        } else {
            0u8
        }) << 2) | ((self.opcode & 0x0F) << 3) | ((if self.response {
            1u8
        } else {
            0u8
        }) << 7)
    }

    /// The second flag byte, computed as [`Self::spec_flags2`] states.
    fn exec_flags2(&self) -> (b: u8)
        ensures
            b == self.spec_flags2(),
    {
        self.rescode.to_num() | ((if self.checking_disabled {
            1u8
        } else {
            0u8
        }) << 4) | ((if self.authed_data {
            1u8
        } else {
            0u8
        }) << 5) | ((if self.z {
            1u8
        } else {
            0u8
        }) << 6) | ((if self.recursion_available {
            1u8
        } else {
            0u8
        }) << 7)
    }
}

/// The header whose fields are all zero, false or `NOERROR`.
pub open spec fn spec_default_header() -> DnsHeader {
    DnsHeader {
        id: 0,
        recursion_desired: false,
        truncated_message: false,
        authoritative_answer: false,
        opcode: 0,
        response: false,
        rescode: ResultCode::NOERROR,
        checking_disabled: false,
        authed_data: false,
        z: false,
        recursion_available: false,
        questions: 0,
        answers: 0,
        authoritative_entries: 0,
        resource_entries: 0,
    }
}

/// The header decoded from the twelve bytes of `data` starting at `at`.
pub open spec fn spec_parse_header(data: Seq<u8>, at: int) -> DnsHeader {
    let f1 = data[at + 2];
    let f2 = data[at + 3];
    DnsHeader {
        id: spec_u16_of(data[at], data[at + 1]),
        recursion_desired: (f1 & 1) > 0,
        truncated_message: (f1 & 2) > 0,
        authoritative_answer: (f1 & 4) > 0,
        opcode: (f1 >> 3) & 0x0F,
        response: (f1 & 0x80) > 0,
        rescode: ResultCode::spec_from_num(f2 & 0x0F),
        checking_disabled: (f2 & 0x10) > 0,
        authed_data: (f2 & 0x20) > 0,
        z: (f2 & 0x40) > 0,
        recursion_available: (f2 & 0x80) > 0,
        questions: spec_u16_of(data[at + 4], data[at + 5]),
        answers: spec_u16_of(data[at + 6], data[at + 7]),
        authoritative_entries: spec_u16_of(data[at + 8], data[at + 9]),
        resource_entries: spec_u16_of(data[at + 10], data[at + 11]),
    }
}

/// Decoding the first flag byte of an encoded header recovers its fields.
proof fn lemma_flags1_round_trip(h: DnsHeader)
    requires
        h.wf(),
    ensures
        (h.spec_flags1() & 1 > 0) == h.recursion_desired,
        (h.spec_flags1() & 2 > 0) == h.truncated_message,
        (h.spec_flags1() & 4 > 0) == h.authoritative_answer,
        ((h.spec_flags1() >> 3) & 0x0F) == h.opcode,
        (h.spec_flags1() & 0x80 > 0) == h.response,
{
    let rd = spec_bool_byte(h.recursion_desired);
    let tc = spec_bool_byte(h.truncated_message);
    let aa = spec_bool_byte(h.authoritative_answer);
    let op = h.opcode;
    let qr = spec_bool_byte(h.response);
    let f1 = h.spec_flags1();
    assert(rd <= 1 && tc <= 1 && aa <= 1 && qr <= 1);
    assert((f1 & 1 == rd) && (f1 & 2 == tc * 2) && (f1 & 4 == aa * 4) && ((f1 >> 3) & 0x0F == op)
        && (f1 & 0x80 == qr * 0x80)) by (bit_vector)
        requires
            rd <= 1 && tc <= 1 && aa <= 1 && qr <= 1 && op <= 0x0F,
            f1 == (rd | (tc << 1) | (aa << 2) | ((op & 0x0F) << 3) | (qr << 7)) as u8,
    ;
}

/// Decoding the second flag byte of an encoded header recovers its fields.
proof fn lemma_flags2_round_trip(h: DnsHeader)
    ensures
        ResultCode::spec_from_num(h.spec_flags2() & 0x0F) == h.rescode,
        (h.spec_flags2() & 0x10 > 0) == h.checking_disabled,
        (h.spec_flags2() & 0x20 > 0) == h.authed_data,
        (h.spec_flags2() & 0x40 > 0) == h.z,
        (h.spec_flags2() & 0x80 > 0) == h.recursion_available,
{
    let rc = h.rescode.spec_to_num();
    let cd = spec_bool_byte(h.checking_disabled);
    let ad = spec_bool_byte(h.authed_data);
    let z = spec_bool_byte(h.z);
    let ra = spec_bool_byte(h.recursion_available);
    let f2 = h.spec_flags2();
    assert(rc <= 5 && cd <= 1 && ad <= 1 && z <= 1 && ra <= 1);
    assert((f2 & 0x0F == rc) && (f2 & 0x10 == cd * 0x10) && (f2 & 0x20 == ad * 0x20) && (f2 & 0x40
        == z * 0x40) && (f2 & 0x80 == ra * 0x80)) by (bit_vector)
        requires
            rc <= 5 && cd <= 1 && ad <= 1 && z <= 1 && ra <= 1,
            f2 == (rc | (cd << 4) | (ad << 5) | (z << 6) | (ra << 7)) as u8,
    ;
}

/// Header round trip: decoding the twelve bytes a header encodes to yields
/// that header again, for every field combination whose opcode fits its
/// 4-bit wire field.
pub proof fn lemma_header_round_trip(h: DnsHeader)
    requires
        h.wf(),
    ensures
        spec_parse_header(h.spec_bytes(), 0) == h,
{
    lemma_u16_bytes_round_trip(h.id);
    lemma_u16_bytes_round_trip(h.questions);
    lemma_u16_bytes_round_trip(h.answers);
    lemma_u16_bytes_round_trip(h.authoritative_entries);
    lemma_u16_bytes_round_trip(h.resource_entries);
    lemma_flags1_round_trip(h);
    lemma_flags2_round_trip(h);
}

} // verus!
