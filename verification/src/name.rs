//! Domain-name codec: length-prefixed labels with compression pointers.
//!
//! On the wire a name is a run of labels, each a length byte (1 to 63)
//! followed by that many bytes, ended by a zero length byte or by a 2-byte
//! compression pointer whose top two bits are `11` and whose low 14 bits give
//! the offset of an earlier name in the same message.  Decoding follows at
//! most five pointers and lowercases every label byte; encoding consults a
//! per-message offset table and emits a backreference for the first
//! already-written name, in insertion order, that is a label-boundary
//! suffix of the name at hand.

use vstd::prelude::*;

use crate::DnsError;
use crate::buffer::BUF_SIZE;
use crate::buffer::DnsBuffer;
use crate::buffer::spec_splice;

verus! {

/// The most compression pointers one name may follow while decoding.
pub const MAX_JUMPS: usize = 5;

/// The longest label the encoder accepts.
pub const MAX_LABEL: usize = 63;

/// The byte separating labels in a name's text form.
pub const DOT: u8 = 46;

/// What reading a name from a 512-byte message yields: its raw labels, or
/// the failure mode.
pub enum NameRead {
    /// The labels, in order, as they stand on the wire (not yet lowercased).
    Name(Seq<Seq<u8>>),
    /// A length byte, pointer byte or label ran past the buffer bound.
    OutOfBounds,
    /// A sixth compression pointer was about to be followed.
    TooManyJumps,
}

/// ASCII uppercase folded to lowercase; every other byte unchanged.
pub open spec fn spec_lower_byte(b: u8) -> u8 {
    if 65 <= b && b <= 90 {
        (b + 32) as u8
    } else {
        b
    }
}

/// A byte string folded to lowercase.
pub open spec fn spec_lower(s: Seq<u8>) -> Seq<u8> {
    s.map_values(|b: u8| spec_lower_byte(b))
}

/// The labels joined with dots, each folded to lowercase: the text form of a
/// decoded name.
pub open spec fn spec_name_of(labels: Seq<Seq<u8>>) -> Seq<u8>
    decreases labels.len(),
{
    if labels.len() == 0 {
        Seq::empty()
    } else if labels.len() == 1 {
        spec_lower(labels[0])
    } else {
        spec_lower(labels[0]) + seq![DOT] + spec_name_of(labels.skip(1))
    }
}

/// The 14-bit offset carried by a compression pointer with first byte `len`
/// and second byte `b2`.
pub open spec fn spec_pointer_target(len: u8, b2: u8) -> int {
    (len & 0x3F) * 256 + b2
}

/// The labels read from `data` starting at `pos`, following at most
/// `jumps_left` compression pointers.
pub open spec fn spec_read_name(data: Seq<u8>, pos: int, jumps_left: int) -> NameRead
    decreases jumps_left, 0x4000 - pos,
{
    if pos < 0 || pos >= BUF_SIZE || jumps_left < 0 {
        NameRead::OutOfBounds
    } else {
        let len = data[pos];
        if len & 0xC0 == 0xC0 {
            if pos + 1 >= BUF_SIZE {
                NameRead::OutOfBounds
            } else if jumps_left <= 0 {
                NameRead::TooManyJumps
            } else {
                spec_read_name(data, spec_pointer_target(len, data[pos + 1]), jumps_left - 1)
            }
        } else if len == 0 {
            NameRead::Name(Seq::empty())
        } else if pos + 1 + len >= BUF_SIZE {
            NameRead::OutOfBounds
        } else {
            match spec_read_name(data, pos + 1 + len, jumps_left) {
                NameRead::Name(rest) => NameRead::Name(
                    seq![data.subrange(pos + 1, pos + 1 + len)] + rest,
                ),
                e => e,
            }
        }
    }
}

/// Where the cursor stands after a name that starts at `pos`: just past the
/// terminating zero byte, or just past the first compression pointer.
pub open spec fn spec_name_end(data: Seq<u8>, pos: int) -> int
    decreases BUF_SIZE - pos,
{
    if pos < 0 || pos >= BUF_SIZE {
        pos
    } else {
        let len = data[pos];
        if len & 0xC0 == 0xC0 {
            pos + 2
        } else if len == 0 {
            pos + 1
        } else if pos + 1 + len >= BUF_SIZE {
            pos + 1 + len
        } else {
            spec_name_end(data, pos + 1 + len)
        }
    }
}

/// Jump bound, failing side: wherever six compression pointers stand in a
/// message, each pointing at the next, a read that starts at the first of
/// them runs out of its five jumps and fails.
pub proof fn lemma_jump_bound_fails(data: Seq<u8>, ps: Seq<int>)
    requires
        ps.len() == MAX_JUMPS + 1,
        forall|i: int| 0 <= i < ps.len() ==> 0 <= #[trigger] ps[i] && ps[i] + 1 < BUF_SIZE,
        forall|i: int| 0 <= i < ps.len() ==> (data[#[trigger] ps[i]] & 0xC0) == 0xC0,
        forall|i: int|
            0 <= i < ps.len() - 1 ==> spec_pointer_target(data[#[trigger] ps[i]], data[ps[i] + 1])
                == ps[i + 1],
    ensures
        spec_read_name(data, ps[0], MAX_JUMPS as int) == NameRead::TooManyJumps,
{
    lemma_jump_chain_fails(data, ps, 0);
}

/// From the `i`th pointer of a full chain on, the remaining jump budget
/// `MAX_JUMPS - i` is too small.
proof fn lemma_jump_chain_fails(data: Seq<u8>, ps: Seq<int>, i: int)
    requires
        0 <= i < ps.len(),
        ps.len() == MAX_JUMPS + 1,
        forall|k: int| 0 <= k < ps.len() ==> 0 <= #[trigger] ps[k] && ps[k] + 1 < BUF_SIZE,
        forall|k: int| 0 <= k < ps.len() ==> (data[#[trigger] ps[k]] & 0xC0) == 0xC0,
        forall|k: int|
            0 <= k < ps.len() - 1 ==> spec_pointer_target(data[#[trigger] ps[k]], data[ps[k] + 1])
                == ps[k + 1],
    ensures
        spec_read_name(data, ps[i], MAX_JUMPS - i) == NameRead::TooManyJumps,
    decreases ps.len() - i,
{
    if i < MAX_JUMPS {
        lemma_jump_chain_fails(data, ps, i + 1);
    }
}

/// Jump bound, succeeding side: five chained compression pointers whose
/// last target reads as a plain name (one needing no further jumps) yield
/// exactly that name.
pub proof fn lemma_jump_bound_succeeds(data: Seq<u8>, ps: Seq<int>, labels: Seq<Seq<u8>>)
    requires
        ps.len() == MAX_JUMPS,
        forall|i: int| 0 <= i < ps.len() ==> 0 <= #[trigger] ps[i] && ps[i] + 1 < BUF_SIZE,
        forall|i: int| 0 <= i < ps.len() ==> (data[#[trigger] ps[i]] & 0xC0) == 0xC0,
        forall|i: int|
            0 <= i < ps.len() - 1 ==> spec_pointer_target(data[#[trigger] ps[i]], data[ps[i] + 1])
                == ps[i + 1],
        spec_read_name(
            data,
            spec_pointer_target(data[ps[ps.len() - 1]], data[ps[ps.len() - 1] + 1]),
            0,
        ) == NameRead::Name(labels),
    ensures
        spec_read_name(data, ps[0], MAX_JUMPS as int) == NameRead::Name(labels),
{
    lemma_jump_chain_succeeds(data, ps, labels, 0);
}

/// From the `i`th pointer of a five-pointer chain on, the remaining budget
/// `MAX_JUMPS - i` just suffices.
proof fn lemma_jump_chain_succeeds(data: Seq<u8>, ps: Seq<int>, labels: Seq<Seq<u8>>, i: int)
    requires
        0 <= i < ps.len(),
        ps.len() == MAX_JUMPS,
        forall|k: int| 0 <= k < ps.len() ==> 0 <= #[trigger] ps[k] && ps[k] + 1 < BUF_SIZE,
        forall|k: int| 0 <= k < ps.len() ==> (data[#[trigger] ps[k]] & 0xC0) == 0xC0,
        forall|k: int|
            0 <= k < ps.len() - 1 ==> spec_pointer_target(data[#[trigger] ps[k]], data[ps[k] + 1])
                == ps[k + 1],
        spec_read_name(
            data,
            spec_pointer_target(data[ps[ps.len() - 1]], data[ps[ps.len() - 1] + 1]),
            0,
        ) == NameRead::Name(labels),
    ensures
        spec_read_name(data, ps[i], MAX_JUMPS - i) == NameRead::Name(labels),
    decreases ps.len() - i,
{
    if i + 1 < ps.len() {
        lemma_jump_chain_succeeds(data, ps, labels, i + 1);
    }
}

/// Labels already consumed, prepended to the outcome of the rest of the read.
pub open spec fn spec_compose(acc: Seq<Seq<u8>>, r: NameRead) -> NameRead {
    match r {
        NameRead::Name(rest) => NameRead::Name(acc + rest),
        _ => r,
    }
}

/// Appending one label to a joined name appends a dot (when the name was not
/// empty) and the lowercased label.
proof fn lemma_name_of_push(labels: Seq<Seq<u8>>, l: Seq<u8>)
    ensures
        labels.len() == 0 ==> spec_name_of(labels.push(l)) == spec_lower(l),
        labels.len() > 0 ==> spec_name_of(labels.push(l)) == spec_name_of(labels) + seq![DOT]
            + spec_lower(l),
    decreases labels.len(),
{
    if labels.len() == 0 {
        assert(labels.push(l) =~= seq![l]);
    } else if labels.len() == 1 {
        assert(labels.push(l).skip(1) =~= seq![l]);
        assert(spec_name_of(labels.push(l)) == spec_lower(labels[0]) + seq![DOT] + spec_name_of(
            seq![l],
        ));
    } else {
        lemma_name_of_push(labels.skip(1), l);
        assert(labels.push(l).skip(1) =~= labels.skip(1).push(l));
        assert(spec_name_of(labels) + seq![DOT] + spec_lower(l) =~= spec_lower(labels[0])
            + seq![DOT] + (spec_name_of(labels.skip(1)) + seq![DOT] + spec_lower(l)));
    }
}

/// A joined name is empty exactly when there are no labels, as long as no
/// label is empty.
proof fn lemma_name_of_empty(labels: Seq<Seq<u8>>)
    requires
        forall|i: int| 0 <= i < labels.len() ==> #[trigger] labels[i].len() > 0,
    ensures
        (spec_name_of(labels).len() == 0) == (labels.len() == 0),
{
    if labels.len() > 0 {
        assert(labels[0].len() > 0);
    }
}

/// The length of the first label of a dotted name: the index of the first
/// dot, or the whole length when there is none.
pub open spec fn spec_first_dot(name: Seq<u8>) -> int
    decreases name.len(),
{
    if name.len() == 0 {
        0
    } else if name[0] == DOT {
        0
    } else {
        1 + spec_first_dot(name.skip(1))
    }
}

/// The labels of a dotted name.  An empty name has no labels; a dot at the
/// very end closes the last label without opening an empty one.
pub open spec fn spec_split_labels(name: Seq<u8>) -> Seq<Seq<u8>>
    decreases name.len(),
{
    if name.len() == 0 {
        Seq::empty()
    } else {
        let i = spec_first_dot(name);
        if 0 <= i < name.len() {
            seq![name.take(i)] + spec_split_labels(name.skip(i + 1))
        } else {
            seq![name]
        }
    }
}

/// The first dot stands between 0 and the name's length, there is no dot
/// before it, and it is a dot when it is not the length.
proof fn lemma_first_dot_props(name: Seq<u8>)
    ensures
        0 <= spec_first_dot(name) <= name.len(),
        spec_first_dot(name) < name.len() ==> name[spec_first_dot(name)] == DOT,
        forall|k: int| 0 <= k < spec_first_dot(name) ==> name[k] != DOT,
    decreases name.len(),
{
    if name.len() > 0 && name[0] != DOT {
        lemma_first_dot_props(name.skip(1));
        assert forall|k: int| 0 <= k < spec_first_dot(name) implies name[k] != DOT by {
            if k > 0 {
                assert(name.skip(1)[k - 1] != DOT);
            }
        }
    }
}

/// The index of the first dot is determined by where the dots stand.
proof fn lemma_first_dot_at(name: Seq<u8>, j: int)
    requires
        0 <= j <= name.len(),
        forall|k: int| 0 <= k < j ==> name[k] != DOT,
        j < name.len() ==> name[j] == DOT,
    ensures
        j < name.len() ==> spec_first_dot(name) == j,
        j == name.len() ==> spec_first_dot(name) == name.len(),
    decreases j,
{
    if j > 0 {
        assert(name[0] != DOT);
        lemma_first_dot_at(name.skip(1), j - 1);
    }
}

/// Splits a dotted name into its labels, as [`spec_split_labels`] states.
pub fn split_labels(name: &Vec<u8>) -> (ls: Vec<Vec<u8>>)
    ensures
        ls@.map_values(|l: Vec<u8>| l@) == spec_split_labels(name@),
{
    let mut ls: Vec<Vec<u8>> = Vec::new();
    let mut start: usize = 0;
    let mut i: usize = 0;
    let n = name.len();
    proof {
        let lv = |l: Vec<u8>| l@;
        assert(name@.skip(0) =~= name@);
        assert(ls@.map_values(lv) + spec_split_labels(name@) =~= spec_split_labels(name@));
    }
    while i < n
        invariant
            n == name@.len(),
            start <= i <= n,
            forall|k: int| start <= k < i ==> name@[k] != DOT,
            spec_split_labels(name@) == ls@.map_values(|l: Vec<u8>| l@) + spec_split_labels(
                name@.skip(start as int),
            ),
        decreases n - i,
    {
        if name[i] == DOT {
            let mut label: Vec<u8> = Vec::new();
            let mut k: usize = start;
            while k < i
                invariant
                    start <= k <= i <= n,
                    n == name@.len(),
                    label@ =~= name@.subrange(start as int, k as int),
                decreases i - k,
            {
                label.push(name[k]);
                k += 1;
            }
            proof {
                let rest = name@.skip(start as int);
                lemma_first_dot_at(rest, i - start);
                assert(rest.take(i - start) =~= name@.subrange(start as int, i as int));
                assert(rest.skip(i - start + 1) =~= name@.skip(i + 1));
                let lv = |l: Vec<u8>| l@;
                assert(ls@.push(label).map_values(lv) =~= ls@.map_values(lv).push(label@));
                assert(ls@.map_values(lv) + (seq![label@] + spec_split_labels(name@.skip(i + 1)))
                    =~= ls@.map_values(lv).push(label@) + spec_split_labels(name@.skip(i + 1)));
            }
            ls.push(label);
            start = i + 1;
        }
        i += 1;
    }
    if start < n {
        let mut label: Vec<u8> = Vec::new();
        let mut k: usize = start;
        while k < n
            invariant
                start <= k <= n,
                n == name@.len(),
                label@ =~= name@.subrange(start as int, k as int),
            decreases n - k,
        {
            label.push(name[k]);
            k += 1;
        }
        proof {
            let rest = name@.skip(start as int);
            lemma_first_dot_at(rest, n - start);
            assert(rest =~= name@.subrange(start as int, n as int));
            let lv = |l: Vec<u8>| l@;
            assert(ls@.push(label).map_values(lv) =~= ls@.map_values(lv).push(label@));
            assert(ls@.map_values(lv) + seq![label@] =~= ls@.map_values(lv).push(label@));
        }
        ls.push(label);
    } else {
        proof {
            let lv = |l: Vec<u8>| l@;
            assert(ls@.map_values(lv) + spec_split_labels(name@.skip(start as int)) =~= ls@
                .map_values(lv));
        }
    }
    ls
}

/// The wire bytes of labels written literally: each label after its length
/// byte, with no terminator.
pub open spec fn spec_wire_labels(labels: Seq<Seq<u8>>) -> Seq<u8>
    decreases labels.len(),
{
    if labels.len() == 0 {
        Seq::empty()
    } else {
        seq![labels[0].len() as u8] + labels[0] + spec_wire_labels(labels.skip(1))
    }
}

/// Some label of the dotted name is longer than the encoder accepts.
pub open spec fn spec_has_long_label(name: Seq<u8>) -> bool {
    exists|i: int|
        0 <= i < spec_split_labels(name).len() && (#[trigger] spec_split_labels(name)[i]).len()
            > MAX_LABEL
}

/// `d` is the whole of `n`, or a suffix of it beginning right after a dot.
pub open spec fn spec_is_label_suffix(d: Seq<u8>, n: Seq<u8>) -> bool {
    d == n || (d.len() < n.len() && n.skip(n.len() - d.len()) == d && n[n.len() - d.len() - 1]
        == DOT)
}

/// The per-message compression offset table: the names already written in
/// this encode pass, in insertion order, each with the buffer offset where
/// its labels begin.
pub struct NameTable {
    pub entries: Vec<(Vec<u8>, u16)>,
}

impl View for NameTable {
    type V = Seq<(Seq<u8>, u16)>;

    open spec fn view(&self) -> Seq<(Seq<u8>, u16)> {
        self.entries@.map_values(|e: (Vec<u8>, u16)| (e.0@, e.1))
    }
}

/// Some entry of the table carries exactly this name.
pub open spec fn spec_table_contains(table: Seq<(Seq<u8>, u16)>, n: Seq<u8>) -> bool {
    exists|i: int| 0 <= i < table.len() && (#[trigger] table[i]).0 == n
}

/// The first entry, in insertion order, that is a label-boundary suffix of
/// `name`.
pub open spec fn spec_find_suffix(table: Seq<(Seq<u8>, u16)>, name: Seq<u8>) -> Option<
    (Seq<u8>, u16),
>
    decreases table.len(),
{
    if table.len() == 0 {
        None::<(Seq<u8>, u16)>
    } else if spec_is_label_suffix(table[0].0, name) {
        Some(table[0])
    } else {
        spec_find_suffix(table.skip(1), name)
    }
}

/// What a successful suffix lookup returns: one of the table's entries, and
/// a label-boundary suffix of the name.
pub proof fn lemma_find_suffix_props(table: Seq<(Seq<u8>, u16)>, name: Seq<u8>)
    ensures
        spec_find_suffix(table, name) matches Some(e) ==> spec_is_label_suffix(e.0, name) && exists|
            i: int,
        | 0 <= i < table.len() && table[i] == e,
    decreases table.len(),
{
    if table.len() > 0 && !spec_is_label_suffix(table[0].0, name) {
        lemma_find_suffix_props(table.skip(1), name);
        match spec_find_suffix(table.skip(1), name) {
            Some(e) => {
                let i = choose|i: int| 0 <= i < table.skip(1).len() && table.skip(1)[i] == e;
                assert(table[i + 1] == e);
            },
            None => {},
        }
    }
}

/// The part of `name` written literally when the suffix `d` is matched: the
/// bytes before the dot that precedes `d`, or nothing on an exact match.
pub open spec fn spec_match_prefix(name: Seq<u8>, d: Seq<u8>) -> Seq<u8> {
    if d.len() == name.len() {
        Seq::empty()
    } else {
        name.take(name.len() - d.len() - 1)
    }
}

/// The bytes the encoder emits for `name` against `table`: either every
/// label and a terminating zero, or the labels of the unmatched prefix and a
/// 2-byte pointer to the matched suffix.
pub open spec fn spec_name_wire(name: Seq<u8>, table: Seq<(Seq<u8>, u16)>) -> Seq<u8> {
    match spec_find_suffix(table, name) {
        Some(e) => spec_wire_labels(spec_split_labels(spec_match_prefix(name, e.0))) + seq![
            ((e.1 >> 8) | 0xC0) as u8,
            (e.1 & 0xFF) as u8,
        ],
        None => spec_wire_labels(spec_split_labels(name)) + seq![0u8],
    }
}

/// How many leading bytes of `name` are written literally (its labels get
/// table entries); the matched suffix, if any, is not.
pub open spec fn spec_literal_limit(name: Seq<u8>, table: Seq<(Seq<u8>, u16)>) -> int {
    match spec_find_suffix(table, name) {
        Some(e) => name.len() - e.0.len(),
        None => name.len() as int,
    }
}

/// `s` is where a label of `name` begins.
pub open spec fn spec_is_label_start(name: Seq<u8>, s: int) -> bool {
    0 <= s < name.len() && (s == 0 || name[s - 1] == DOT)
}

/// The table after recording the literally written suffix starts of `name`:
/// for every label start before `limit`, the suffix of `name` from there,
/// at its buffer offset, unless the table already holds that name.
pub open spec fn spec_add_entries(
    table: Seq<(Seq<u8>, u16)>,
    name: Seq<u8>,
    pos: int,
    s: int,
    limit: int,
) -> Seq<(Seq<u8>, u16)>
    decreases limit - s,
{
    if s >= limit {
        table
    } else {
        let t2 = if spec_is_label_start(name, s) && pos + s < BUF_SIZE && !spec_table_contains(
            table,
            name.skip(s),
        ) {
            table.push((name.skip(s), (pos + s) as u16))
        } else {
            table
        };
        spec_add_entries(t2, name, pos, s + 1, limit)
    }
}

impl NameTable {
    /// Every entry's offset lies inside the buffer and its name is not
    /// empty.
    pub open spec fn wf(&self) -> bool {
        forall|i: int|
            0 <= i < self@.len() ==> (#[trigger] self@[i]).1 < BUF_SIZE && self@[i].0.len() > 0
    }

    /// An empty table, for the start of an encode pass.
    pub fn new() -> (t: NameTable)
        ensures
            t@ =~= Seq::<(Seq<u8>, u16)>::empty(),
            t.wf(),
    {
        NameTable { entries: Vec::new() }
    }
}

/// Whether `a` and `b` hold the same bytes.
pub fn vec_bytes_eq(a: &Vec<u8>, b: &Vec<u8>) -> (r: bool)
    ensures
        r == (a@ == b@),
{
    if a.len() != b.len() {
        proof {
            assert(a@ != b@);
        }
        return false;
    }
    let mut i: usize = 0;
    while i < a.len()
        invariant
            i <= a@.len(),
            a@.len() == b@.len(),
            forall|k: int| 0 <= k < i ==> a@[k] == b@[k],
        decreases a@.len() - i,
    {
        if a[i] != b[i] {
            return false;
        }
        i += 1;
    }
    proof {
        assert(a@ =~= b@);
    }
    true
}

/// Whether `d` is a label-boundary suffix of `n`, as
/// [`spec_is_label_suffix`] states.
fn is_label_suffix(d: &Vec<u8>, n: &Vec<u8>) -> (r: bool)
    ensures
        r == spec_is_label_suffix(d@, n@),
{
    let dlen = d.len();
    let nlen = n.len();
    if dlen == nlen {
        return vec_bytes_eq(d, n);
    }
    if dlen > nlen {
        return false;
    }
    let cut = nlen - dlen;
    if n[cut - 1] != DOT {
        return false;
    }
    let mut k: usize = 0;
    while k < dlen
        invariant
            k <= dlen,
            dlen == d@.len(),
            nlen == n@.len(),
            cut + dlen == nlen,
            dlen < nlen,
            forall|j: int| 0 <= j < k ==> d@[j] == n@[cut + j],
        decreases dlen - k,
    {
        if d[k] != n[cut + k] {
            proof {
                assert(n@.skip(cut as int)[k as int] == n@[cut + k]);
            }
            return false;
        }
        k += 1;
    }
    proof {
        assert(n@.skip(cut as int) =~= d@);
    }
    true
}

/// Looks `name` up in the table, returning the matched suffix's offset and
/// its start index within `name`, per [`spec_find_suffix`].
fn find_suffix(table: &NameTable, name: &Vec<u8>) -> (r: Option<(u16, usize)>)
    ensures
        ({
            let found = spec_find_suffix(table@, name@);
            &&& found matches Some(e) ==> r == Some::<(u16, usize)>(
                (e.1, (name@.len() - e.0.len()) as usize),
            )
            &&& found is None ==> r is None
        }),
{
    let mut j: usize = 0;
    proof {
        assert(table@.skip(0) =~= table@);
    }
    while j < table.entries.len()
        invariant
            j <= table@.len(),
            spec_find_suffix(table@, name@) == spec_find_suffix(table@.skip(j as int), name@),
        decreases table@.len() - j,
    {
        let d_len = table.entries[j].0.len();
        if is_label_suffix(&table.entries[j].0, name) {
            proof {
                assert(table@.skip(j as int)[0] == table@[j as int]);
            }
            return Some((table.entries[j].1, name.len() - d_len));
        }
        proof {
            assert(table@.skip(j as int)[0] == table@[j as int]);
            assert(table@.skip(j as int).skip(1) =~= table@.skip(j as int + 1));
        }
        j += 1;
    }
    proof {
        assert(table@.skip(j as int) =~= Seq::<(Seq<u8>, u16)>::empty());
    }
    None
}

/// Builds the literal wire form of `labels`, per [`spec_wire_labels`].
fn wire_of_labels(labels: &Vec<Vec<u8>>) -> (w: Vec<u8>)
    ensures
        w@ == spec_wire_labels(labels@.map_values(|l: Vec<u8>| l@)),
{
    let ghost lv = labels@.map_values(|l: Vec<u8>| l@);
    let mut w: Vec<u8> = Vec::new();
    let mut i: usize = 0;
    proof {
        assert(lv.skip(0) =~= lv);
    }
    while i < labels.len()
        invariant
            i <= labels@.len(),
            lv == labels@.map_values(|l: Vec<u8>| l@),
            spec_wire_labels(lv) == w@ + spec_wire_labels(lv.skip(i as int)),
        decreases labels@.len() - i,
    {
        let ghost w0 = w@;
        w.push(labels[i].len() as u8);
        let label = &labels[i];
        let mut k: usize = 0;
        while k < label.len()
            invariant
                k <= label@.len(),
                w@ =~= w0 + seq![label@.len() as u8] + label@.take(k as int),
            decreases label@.len() - k,
        {
            w.push(label[k]);
            k += 1;
        }
        proof {
            assert(label@.take(label@.len() as int) =~= label@);
            assert(lv[i as int] == label@);
            assert(spec_wire_labels(lv.skip(i as int)) == seq![lv[i as int].len() as u8]
                + lv[i as int] + spec_wire_labels(lv.skip(i as int).skip(1)));
            assert(lv.skip(i as int).skip(1) =~= lv.skip(i as int + 1));
            assert(w0 + (seq![label@.len() as u8] + label@ + spec_wire_labels(
                lv.skip(i as int + 1),
            )) =~= (w0 + seq![label@.len() as u8] + label@) + spec_wire_labels(
                lv.skip(i as int + 1),
            ));
        }
        i += 1;
    }
    proof {
        assert(spec_wire_labels(lv.skip(labels@.len() as int)) =~= Seq::<u8>::empty());
        assert(w@ + Seq::<u8>::empty() =~= w@);
    }
    w
}

/// Copies `name[from..]` into a fresh vector.
fn tail_of(name: &Vec<u8>, from: usize) -> (t: Vec<u8>)
    requires
        from <= name@.len(),
    ensures
        t@ == name@.skip(from as int),
{
    let mut t: Vec<u8> = Vec::new();
    let mut k: usize = from;
    while k < name.len()
        invariant
            from <= k <= name@.len(),
            t@ =~= name@.subrange(from as int, k as int),
        decreases name@.len() - k,
    {
        t.push(name[k]);
        k += 1;
    }
    proof {
        assert(name@.subrange(from as int, name@.len() as int) =~= name@.skip(from as int));
    }
    t
}

/// Encodes `name` at the buffer's cursor against the encode pass's offset
/// table: the first already-written label-boundary suffix becomes a 2-byte
/// backreference, the rest is written literally, and the literally written
/// suffix starts are recorded in the table.
#[verifier::loop_isolation(false)]
pub fn write_name(buf: &mut DnsBuffer, name: &Vec<u8>, table: &mut NameTable) -> (r: Result<
    (),
    DnsError,
>)
    requires
        old(buf).wf(),
        old(table).wf(),
    ensures
        final(buf).wf(),
        final(table).wf(),
        spec_has_long_label(name@) ==> r == Err::<(), DnsError>(DnsError::LabelTooLong)
            && final(buf).buf@ == old(buf).buf@ && final(buf).pos == old(buf).pos
            && final(table)@ == old(table)@,
        !spec_has_long_label(name@) && old(buf).pos + spec_name_wire(name@, old(table)@).len()
            > BUF_SIZE ==> r == Err::<(), DnsError>(DnsError::BufferBounds)
            && final(buf).buf@ == old(buf).buf@ && final(buf).pos == old(buf).pos
            && final(table)@ == old(table)@,
        !spec_has_long_label(name@) && old(buf).pos + spec_name_wire(name@, old(table)@).len()
            <= BUF_SIZE ==> r is Ok
            && final(buf).buf@ =~= spec_splice(
            old(buf).buf@,
            old(buf).pos as int,
            spec_name_wire(name@, old(table)@),
        ) && final(buf).pos == old(buf).pos + spec_name_wire(name@, old(table)@).len()
            && final(table)@ == spec_add_entries(
            old(table)@,
            name@,
            old(buf).pos as int,
            0,
            spec_literal_limit(name@, old(table)@),
        ),
{
    let labels = split_labels(name);
    let ghost lv = labels@.map_values(|l: Vec<u8>| l@);
    let mut i: usize = 0;
    while i < labels.len()
        invariant
            i <= labels@.len(),
            forall|j: int| 0 <= j < i ==> (#[trigger] lv[j]).len() <= MAX_LABEL,
        decreases labels@.len() - i,
    {
        if labels[i].len() > MAX_LABEL {
            proof {
                assert(spec_split_labels(name@)[i as int].len() > MAX_LABEL);
            }
            return Err(DnsError::LabelTooLong);
        }
        i += 1;
    }
    assert(!spec_has_long_label(name@));

    let m = find_suffix(table, name);
    let ghost found = spec_find_suffix(table@, name@);
    proof {
        lemma_find_suffix_props(table@, name@);
    }
    let wire: Vec<u8>;
    let limit: usize;
    match m {
        Some((off, cut)) => {
            limit = cut;
            let nlen = name.len();
            proof {
                let e = found->Some_0;
                let i = choose|i: int| 0 <= i < table@.len() && table@[i] == e;
                assert(table@[i].1 < BUF_SIZE && table@[i].0.len() > 0);
                assert(off < BUF_SIZE);
                assert(e.0.len() <= name@.len());
                assert(name@.len() == nlen);
                assert(cut == name@.len() - e.0.len());
            }
            let mut prefix: Vec<u8> = Vec::new();
            if cut > 0 {
                let mut k: usize = 0;
                while k < cut - 1
                    invariant
                        cut >= 1,
                        cut <= name@.len(),
                        k <= cut - 1,
                        prefix@ =~= name@.take(k as int),
                    decreases cut - 1 - k,
                {
                    prefix.push(name[k]);
                    k += 1;
                }
            }
            proof {
                assert(prefix@ == spec_match_prefix(name@, found->Some_0.0));
            }
            let plabels = split_labels(&prefix);
            let mut w = wire_of_labels(&plabels);
            w.push(((off >> 8) | 0xC0) as u8);
            w.push((off & 0xFF) as u8);
            proof {
                assert(w@ =~= spec_name_wire(name@, table@));
            }
            wire = w;
        },
        None => {
            limit = name.len();
            let mut w = wire_of_labels(&labels);
            w.push(0u8);
            proof {
                assert(w@ =~= spec_name_wire(name@, table@));
            }
            wire = w;
        },
    }

    if buf.pos > BUF_SIZE || wire.len() > BUF_SIZE || buf.pos + wire.len() > BUF_SIZE {
        return Err(DnsError::BufferBounds);
    }
    let start_pos = buf.pos;
    let _ = buf.write_bytes(&wire);

    let ghost t0 = table@;
    let mut s: usize = 0;
    while s < limit
        invariant
            s <= limit,
            limit <= name@.len(),
            table.wf(),
            spec_add_entries(t0, name@, start_pos as int, 0, limit as int) == spec_add_entries(
                table@,
                name@,
                start_pos as int,
                s as int,
                limit as int,
            ),
        decreases limit - s,
    {
        let is_start = s == 0 || name[s - 1] == DOT;
        if is_start && s < BUF_SIZE && start_pos + s < BUF_SIZE {
            let suffix = tail_of(name, s);
            let already = table_contains(table, &suffix);
            if !already {
                let ghost tb = table@;
                table.entries.push((suffix, (start_pos + s) as u16));
                proof {
                    assert(table@ =~= tb.push((name@.skip(s as int), (start_pos + s) as u16)));
                }
            }
        }
        s += 1;
    }
    Ok(())
}

/// Whether the table already holds an entry for exactly this name.
fn table_contains(table: &NameTable, n: &Vec<u8>) -> (r: bool)
    ensures
        r == spec_table_contains(table@, n@),
{
    let mut j: usize = 0;
    while j < table.entries.len()
        invariant
            j <= table@.len(),
            forall|k: int| 0 <= k < j ==> (#[trigger] table@[k]).0 != n@,
        decreases table@.len() - j,
    {
        if vec_bytes_eq(&table.entries[j].0, n) {
            proof {
                assert(table@[j as int].0 == n@);
            }
            return true;
        }
        j += 1;
    }
    false
}

/// A name the encoder can always write literally: every label between one
/// and 63 bytes, and no dot at the very end.
pub open spec fn spec_valid_name(name: Seq<u8>) -> bool {
    &&& forall|i: int|
        0 <= i < spec_split_labels(name).len() ==> 1 <= (#[trigger] spec_split_labels(
            name,
        )[i]).len() <= MAX_LABEL
    &&& name.len() > 0 ==> name[name.len() - 1] != DOT
}

/// Joining the labels of a valid dotted name gives the name back, folded to
/// lowercase.
proof fn lemma_name_of_split(name: Seq<u8>)
    requires
        spec_valid_name(name),
    ensures
        spec_name_of(spec_split_labels(name)) == spec_lower(name),
    decreases name.len(),
{
    if name.len() == 0 {
        assert(spec_lower(name) =~= Seq::<u8>::empty());
    } else {
        lemma_first_dot_props(name);
        let fd = spec_first_dot(name);
        if fd == name.len() {
            assert(spec_split_labels(name) == seq![name]);
        } else {
            // The first label is not empty, else validity would fail on it.
            assert(spec_split_labels(name)[0] == name.take(fd));
            assert(fd >= 1);
            // A dot cannot close the name, so something follows this one.
            assert(fd + 1 < name.len());
            let rest = name.skip(fd + 1);
            assert(spec_split_labels(name) == seq![name.take(fd)] + spec_split_labels(rest));
            assert(spec_split_labels(name).skip(1) =~= spec_split_labels(rest));
            assert forall|i: int| 0 <= i < spec_split_labels(rest).len() implies 1 <= (
            #[trigger] spec_split_labels(rest)[i]).len() <= MAX_LABEL by {
                assert(spec_split_labels(name)[i + 1] == spec_split_labels(rest)[i]);
            }
            assert(rest[rest.len() - 1] == name[name.len() - 1]);
            lemma_name_of_split(rest);
            assert(spec_split_labels(rest).len() >= 1);
            assert(spec_name_of(spec_split_labels(name)) == spec_lower(name.take(fd)) + seq![DOT]
                + spec_name_of(spec_split_labels(rest)));
            assert(name =~= name.take(fd) + seq![DOT] + rest);
            assert(spec_lower(name) =~= spec_lower(name.take(fd)) + seq![DOT] + spec_lower(rest));
        }
    }
}

/// Reading labels written literally, at any jump budget, yields exactly
/// those labels and leaves the cursor past the terminator.
proof fn lemma_wire_parse(data: Seq<u8>, pos: int, ls: Seq<Seq<u8>>, jl: int)
    requires
        forall|i: int| 0 <= i < ls.len() ==> 1 <= (#[trigger] ls[i]).len() <= MAX_LABEL,
        0 <= pos,
        0 <= jl,
        data.len() == BUF_SIZE,
        pos + spec_wire_labels(ls).len() + 1 <= BUF_SIZE,
        data.subrange(pos, pos + spec_wire_labels(ls).len() + 1) == spec_wire_labels(ls) + seq![
            0u8,
        ],
    ensures
        spec_read_name(data, pos, jl) == NameRead::Name(ls),
        spec_name_end(data, pos) == pos + spec_wire_labels(ls).len() + 1,
    decreases ls.len(),
{
    let wl = spec_wire_labels(ls);
    let w = wl + seq![0u8];
    assert forall|j: int| 0 <= j < w.len() implies data[pos + j] == w[j] by {
        assert(data.subrange(pos, pos + w.len())[j] == data[pos + j]);
    }
    if ls.len() == 0 {
        assert(w =~= seq![0u8]);
        assert(data[pos] == w[0]) by {
            assert(data[pos + 0] == w[0]);
        }
        assert(data[pos] == 0u8);
        assert(0u8 & 0xC0 != 0xC0) by (bit_vector);
        assert(spec_read_name(data, pos, jl) == NameRead::Name(Seq::<Seq<u8>>::empty()));
        assert(NameRead::Name(Seq::<Seq<u8>>::empty()) == NameRead::Name(ls)) by {
            assert(ls =~= Seq::<Seq<u8>>::empty());
        }
    } else {
        let l = ls[0];
        let llen = l.len() as int;
        let rest_w = spec_wire_labels(ls.skip(1));
        assert(wl == seq![l.len() as u8] + l + rest_w);
        assert(1 <= l.len() <= MAX_LABEL);
        assert(w[0] == l.len() as u8) by {
            assert(wl[0] == (seq![l.len() as u8] + l + rest_w)[0]);
            assert((seq![l.len() as u8] + l + rest_w)[0] == (seq![l.len() as u8] + l)[0]);
            assert((seq![l.len() as u8] + l)[0] == seq![l.len() as u8][0]);
        }
        assert(data[pos] == w[0]) by {
            assert(data[pos + 0] == w[0]);
        }
        let len_byte = data[pos];
        assert(len_byte == llen);
        assert(len_byte & 0xC0 != 0xC0 && len_byte != 0) by (bit_vector)
            requires
                1 <= len_byte <= 63,
        ;
        assert(pos + 1 + llen < BUF_SIZE);
        assert(data.subrange(pos + 1, pos + 1 + llen) =~= l) by {
            assert forall|j: int| 0 <= j < llen implies data[pos + 1 + j] == l[j] by {
                assert(data[pos + (1 + j)] == w[1 + j]);
                assert(w[1 + j] == wl[1 + j]);
                assert(wl[1 + j] == (seq![l.len() as u8] + l)[1 + j]);
                assert((seq![l.len() as u8] + l)[1 + j] == l[j]);
            }
        }
        let pos2 = pos + 1 + llen;
        assert forall|i: int| 0 <= i < ls.skip(1).len() implies 1 <= (#[trigger] ls.skip(1)[
        i]).len() <= MAX_LABEL by {
            assert(ls.skip(1)[i] == ls[i + 1]);
        }
        assert(data.subrange(pos2, pos2 + rest_w.len() + 1) =~= rest_w + seq![0u8]) by {
            assert forall|j: int| 0 <= j < rest_w.len() + 1 implies data[pos2 + j] == (rest_w
                + seq![0u8])[j] by {
                assert(data[pos + (1 + llen + j)] == w[1 + llen + j]);
                if j < rest_w.len() {
                    assert(w[1 + llen + j] == wl[1 + llen + j]);
                    assert(wl[1 + llen + j] == rest_w[j]);
                    assert((rest_w + seq![0u8])[j] == rest_w[j]);
                } else {
                    assert(w[1 + llen + j] == seq![0u8][0]);
                    assert((rest_w + seq![0u8])[j] == seq![0u8][0]);
                }
            }
        }
        lemma_wire_parse(data, pos2, ls.skip(1), jl);
        assert(seq![data.subrange(pos + 1, pos + 1 + llen)] + ls.skip(1) =~= ls);
        assert(spec_name_end(data, pos) == spec_name_end(data, pos2));
    }
}

/// Domain codec round trip: a valid dotted name, written with no previously
/// recorded names (so uncompressed, as [`spec_name_wire`] with an empty
/// table states) and read back from the message, yields exactly the name's
/// labels, whose joined text is the lowercased name, and leaves the cursor
/// just past the terminating zero byte.
pub proof fn lemma_name_round_trip(data: Seq<u8>, pos: int, name: Seq<u8>)
    requires
        spec_valid_name(name),
        0 <= pos,
        data.len() == BUF_SIZE,
        pos + spec_name_wire(name, Seq::empty()).len() <= BUF_SIZE,
        data.subrange(pos, pos + spec_name_wire(name, Seq::empty()).len()) == spec_name_wire(
            name,
            Seq::empty(),
        ),
    ensures
        spec_read_name(data, pos, MAX_JUMPS as int) == NameRead::Name(spec_split_labels(name)),
        spec_name_of(spec_split_labels(name)) == spec_lower(name),
        spec_name_end(data, pos) == pos + spec_name_wire(name, Seq::empty()).len(),
{
    assert(spec_find_suffix(Seq::empty(), name) is None);
    assert(spec_name_wire(name, Seq::empty()) == spec_wire_labels(spec_split_labels(name)) + seq![
        0u8,
    ]);
    lemma_wire_parse(data, pos, spec_split_labels(name), MAX_JUMPS as int);
    lemma_name_of_split(name);
}

impl DnsBuffer {
    /// Reads a domain name at the cursor: labels joined with dots, folded to
    /// lowercase, with compression pointers followed.  After a plain name the
    /// cursor rests just past the terminating zero byte; once a pointer has
    /// been followed it rests just past that first pointer.
    #[verifier::loop_isolation(false)]
    pub fn get_domain(&mut self) -> (r: Result<Vec<u8>, DnsError>)
        requires
            old(self).wf(),
        ensures
            final(self).wf(),
            final(self).buf@ == old(self).buf@,
            ({
                let parse = spec_read_name(old(self).buf@, old(self).pos as int, MAX_JUMPS as int);
                &&& parse matches NameRead::Name(labels) ==> r is Ok && r->Ok_0@ == spec_name_of(
                    labels,
                ) && final(self).pos == spec_name_end(old(self).buf@, old(self).pos as int)
                &&& parse is OutOfBounds ==> r is Err && r->Err_0 == DnsError::BufferBounds
                &&& parse is TooManyJumps ==> r is Err && r->Err_0
                    == DnsError::CompressionLoopExceeded
            }),
    {
        let ghost data = self.buf@;
        let ghost pos0 = self.pos as int;
        let ghost full = spec_read_name(data, pos0, MAX_JUMPS as int);
        let mut local_pos: usize = self.pos;
        let mut jump_counter: usize = 0;
        let mut jumped: bool = false;
        let mut domain: Vec<u8> = Vec::new();
        let ghost mut acc: Seq<Seq<u8>> = Seq::empty();

        proof {
            assert(spec_compose(acc, spec_read_name(data, local_pos as int, MAX_JUMPS as int))
                == full) by {
                match spec_read_name(data, pos0, MAX_JUMPS as int) {
                    NameRead::Name(ls) => {
                        assert(acc + ls =~= ls);
                    },
                    _ => {},
                }
            }
        }

        loop
            invariant
                self.wf(),
                self.buf@ == data,
                jump_counter <= MAX_JUMPS,
                jumped <==> jump_counter > 0,
                full == spec_compose(
                    acc,
                    spec_read_name(data, local_pos as int, MAX_JUMPS - jump_counter),
                ),
                domain@ == spec_name_of(acc),
                forall|i: int| 0 <= i < acc.len() ==> #[trigger] acc[i].len() > 0,
                !jumped ==> self.pos == pos0 && spec_name_end(data, pos0) == spec_name_end(
                    data,
                    local_pos as int,
                ),
                jumped ==> self.pos == spec_name_end(data, pos0),
                full == spec_read_name(data, pos0, MAX_JUMPS as int),
            decreases MAX_JUMPS - jump_counter, 0x4000 - local_pos,
        {
            let len = match self.get(local_pos) {
                Ok(b) => b,
                Err(e) => {
                    return Err(e);
                },
            };
            if (len & 0xC0) == 0xC0 {
                // A compression pointer: move the local cursor to its target.
                let b2 = match self.get(local_pos + 1) {
                    Ok(b) => b,
                    Err(e) => {
                        return Err(e);
                    },
                };
                if jump_counter >= MAX_JUMPS {
                    return Err(DnsError::CompressionLoopExceeded);
                }
                if !jumped {
                    let _ = self.seek(local_pos + 2);
                }
                jumped = true;
                jump_counter += 1;
                local_pos = ((len & 0x3F) as usize) * 256 + (b2 as usize);
            } else if len == 0 {
                // Terminator: the name is complete.
                if !jumped {
                    let _ = self.seek(local_pos + 1);
                }
                return Ok(domain);
            } else {
                // A literal label: append it, lowercased, after a dot.
                let label = match self.get_range(local_pos + 1, len as usize) {
                    Ok(l) => l,
                    Err(e) => {
                        return Err(e);
                    },
                };
                proof {
                    lemma_name_of_empty(acc);
                }
                if !domain.is_empty() {
                    domain.push(DOT);
                }
                let ghost base = domain@;
                let mut k: usize = 0;
                while k < label.len()
                    invariant
                        k <= label@.len(),
                        domain@ =~= base + spec_lower(label@).take(k as int),
                    decreases label@.len() - k,
                {
                    let b = label[k];
                    let low = if b >= 65 && b <= 90 {
                        b + 32
                    } else {
                        b
                    };
                    proof {
                        assert(spec_lower(label@)[k as int] == spec_lower_byte(label@[k as int]));
                        assert(base + spec_lower(label@).take(k as int + 1) =~= (base + spec_lower(
                            label@,
                        ).take(k as int)).push(spec_lower_byte(label@[k as int])));
                    }
                    domain.push(low);
                    k += 1;
                }
                proof {
                    assert(spec_lower(label@).take(label@.len() as int) =~= spec_lower(label@));
                    lemma_name_of_push(acc, label@);
                    if acc.len() > 0 {
                        assert(spec_name_of(acc) + seq![DOT] + spec_lower(label@) =~= base
                            + spec_lower(label@));
                    }
                    let jl = MAX_JUMPS - jump_counter;
                    let next = local_pos + 1 + len;
                    assert(spec_read_name(data, local_pos as int, jl) == (match spec_read_name(
                        data,
                        next as int,
                        jl,
                    ) {
                        NameRead::Name(rest) => NameRead::Name(
                            seq![data.subrange(
                                local_pos + 1,
                                local_pos + 1 + len,
                            )] + rest,
                        ),
                        e => e,
                    }));
                    match spec_read_name(data, next as int, jl) {
                        NameRead::Name(rest) => {
                            assert(acc + (seq![label@] + rest) =~= acc.push(label@) + rest);
                        },
                        _ => {},
                    }
                    acc = acc.push(label@);
                }
                local_pos = local_pos + 1 + (len as usize);
            }
        }
    }
}

} // verus!
