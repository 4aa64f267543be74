//! The fixed header that opens every record of the event stream.
//!
//! A record starts with 24 bytes, least significant byte first within each
//! field:
//!
//! | bytes  | field           | type |
//! |--------|-----------------|------|
//! | 0..4   | `total_length`  | u32  |
//! | 4      | `version`       | u8   |
//! | 5      | `reserved`      | u8   |
//! | 6..8   | `header_length` | u16  |
//! | 8..16  | `mask`          | u64  |
//! | 16..20 | `subject_fd`    | i32  |
//! | 20..24 | `pid`           | i32  |

use vstd::prelude::*;

verus! {

/// Size in bytes of the fixed header.
pub const HEADER_LEN: usize = 24;

/// The protocol version that this decoder understands.
pub const METADATA_VERSION: u8 = 3;

/// The header of one record, as it stands on the wire.
#[derive(Clone, Copy, Debug, PartialEq, Eq, Structural)]
pub struct RawEventRecord {
    /// Length of the whole record, header included; the next record starts that
    /// many bytes after this one.
    pub total_length: u32,
    /// Protocol version of the record.
    pub version: u8,
    /// Unused.
    pub reserved: u8,
    /// Length of the header alone.
    pub header_length: u16,
    /// The kinds of activity that the record reports, as mask bits.
    pub mask: u64,
    /// Descriptor of the object the record is about; negative when there is none.
    pub subject_fd: i32,
    /// Identifier of the process that caused the activity.
    pub pid: i32,
}

/// The unsigned 16-bit value whose two bytes start at `at`.
pub open spec fn le_u16(bytes: Seq<u8>, at: int) -> int {
    bytes[at] + 0x100 * bytes[at + 1]
}

/// The unsigned 32-bit value whose four bytes start at `at`.
pub open spec fn le_u32(bytes: Seq<u8>, at: int) -> int {
    bytes[at] + 0x100 * bytes[at + 1] + 0x1_0000 * bytes[at + 2] + 0x100_0000 * bytes[at + 3]
}

/// The unsigned 64-bit value whose eight bytes start at `at`.
pub open spec fn le_u64(bytes: Seq<u8>, at: int) -> int {
    le_u32(bytes, at) + 0x1_0000_0000 * le_u32(bytes, at + 4)
}

/// The value in two's complement of the 32 bits that `u` holds.
pub open spec fn as_signed32(u: int) -> int {
    if u < 0x8000_0000 {
        u
    } else {
        u - 0x1_0000_0000
    }
}

/// The signed 32-bit value whose four bytes start at `at`.
pub open spec fn le_i32(bytes: Seq<u8>, at: int) -> int {
    as_signed32(le_u32(bytes, at))
}

/// The header whose 24 bytes start at `at`.
pub open spec fn header_at(bytes: Seq<u8>, at: int) -> RawEventRecord
    recommends
        0 <= at,
        at + HEADER_LEN <= bytes.len(),
{
    RawEventRecord {
        total_length: le_u32(bytes, at) as u32,
        version: bytes[at + 4],
        reserved: bytes[at + 5],
        header_length: le_u16(bytes, at + 6) as u16,
        mask: le_u64(bytes, at + 8) as u64,
        subject_fd: le_i32(bytes, at + 16) as i32,
        pid: le_i32(bytes, at + 20) as i32,
    }
}

/// Byte `index` of `value`, counted from the least significant.
pub open spec fn byte_of(value: int, index: nat) -> u8
    decreases index,
{
    if index == 0 {
        (value % 0x100) as u8
    } else {
        byte_of(value / 0x100, (index - 1) as nat)
    }
}

/// The 32 bits of a signed value, read as unsigned.
pub open spec fn as_unsigned32(i: int) -> int {
    if i < 0 {
        i + 0x1_0000_0000
    } else {
        i
    }
}

/// The 24 bytes that stand for `record` on the wire.
pub open spec fn encoded(record: RawEventRecord) -> Seq<u8> {
    let len = record.total_length as int;
    let hl = record.header_length as int;
    let mask = record.mask as int;
    let fd = as_unsigned32(record.subject_fd as int);
    let pid = as_unsigned32(record.pid as int);
    seq![
        byte_of(len, 0),
        byte_of(len, 1),
        byte_of(len, 2),
        byte_of(len, 3),
        record.version,
        record.reserved,
        byte_of(hl, 0),
        byte_of(hl, 1),
        byte_of(mask, 0),
        byte_of(mask, 1),
        byte_of(mask, 2),
        byte_of(mask, 3),
        byte_of(mask, 4),
        byte_of(mask, 5),
        byte_of(mask, 6),
        byte_of(mask, 7),
        byte_of(fd, 0),
        byte_of(fd, 1),
        byte_of(fd, 2),
        byte_of(fd, 3),
        byte_of(pid, 0),
        byte_of(pid, 1),
        byte_of(pid, 2),
        byte_of(pid, 3),
    ]
}

fn read_u16(bytes: &[u8], at: usize) -> (v: u16)
    requires
        at + 2 <= bytes.len(),
    ensures
        v == le_u16(bytes@, at as int),
{
    let b0: u16 = bytes[at] as u16;
    let b1: u16 = bytes[at + 1] as u16;
    b0 + 0x100 * b1
}

fn read_u32(bytes: &[u8], at: usize) -> (v: u32)
    requires
        at + 4 <= bytes.len(),
    ensures
        v == le_u32(bytes@, at as int),
{
    let b0: u32 = bytes[at] as u32;
    let b1: u32 = bytes[at + 1] as u32;
    let b2: u32 = bytes[at + 2] as u32;
    let b3: u32 = bytes[at + 3] as u32;
    b0 + 0x100 * b1 + 0x1_0000 * b2 + 0x100_0000 * b3
}

fn read_u64(bytes: &[u8], at: usize) -> (v: u64)
    requires
        at + 8 <= bytes.len(),
    ensures
        v == le_u64(bytes@, at as int),
{
    let low: u64 = read_u32(bytes, at) as u64;
    let high: u64 = read_u32(bytes, at + 4) as u64;
    low + 0x1_0000_0000 * high
}

fn read_i32(bytes: &[u8], at: usize) -> (v: i32)
    requires
        at + 4 <= bytes.len(),
    ensures
        v == le_i32(bytes@, at as int),
{
    let u: u32 = read_u32(bytes, at);
    if u < 0x8000_0000 {
        u as i32
    } else {
        (u as i64 - 0x1_0000_0000) as i32
    }
}

/// Reads the header that starts at `at`, if all of its bytes are there.
pub fn read_header(bytes: &[u8], at: usize) -> (r: Option<RawEventRecord>)
    ensures
        r == if at + HEADER_LEN <= bytes.len() {
            Some(header_at(bytes@, at as int))
        } else {
            None
        },
{
    if at > bytes.len() || bytes.len() - at < HEADER_LEN {
        return None;
    }
    Some(
        RawEventRecord {
            total_length: read_u32(bytes, at),
            version: bytes[at + 4],
            reserved: bytes[at + 5],
            header_length: read_u16(bytes, at + 6),
            mask: read_u64(bytes, at + 8),
            subject_fd: read_i32(bytes, at + 16),
            pid: read_i32(bytes, at + 20),
        },
    )
}

fn push_u16(out: &mut Vec<u8>, value: u16)
    ensures
        final(out)@ == old(out)@ + seq![byte_of(value as int, 0), byte_of(value as int, 1)],
{
    out.push((value % 0x100) as u8);
    out.push((value / 0x100) as u8);
    proof {
        reveal_with_fuel(byte_of, 2);
        assert(out@ =~= old(out)@ + seq![byte_of(value as int, 0), byte_of(value as int, 1)]);
    }
}

fn push_u32(out: &mut Vec<u8>, value: u32)
    ensures
        final(out)@ == old(out)@ + seq![
            byte_of(value as int, 0),
            byte_of(value as int, 1),
            byte_of(value as int, 2),
            byte_of(value as int, 3),
        ],
{
    out.push((value % 0x100) as u8);
    out.push((value / 0x100 % 0x100) as u8);
    out.push((value / 0x1_0000 % 0x100) as u8);
    out.push((value / 0x100_0000) as u8);
    proof {
        reveal_with_fuel(byte_of, 4);
        let v = value as int;
        assert(v / 0x100 / 0x100 == v / 0x1_0000);
        assert(v / 0x100 / 0x100 / 0x100 == v / 0x100_0000);
        assert(out@ =~= old(out)@ + seq![
            byte_of(v, 0),
            byte_of(v, 1),
            byte_of(v, 2),
            byte_of(v, 3),
        ]);
    }
}

fn unsigned32(value: i32) -> (u: u32)
    ensures
        u == as_unsigned32(value as int),
{
    if value < 0 {
        (value as i64 + 0x1_0000_0000) as u32
    } else {
        value as u32
    }
}

impl RawEventRecord {
    /// The 24 bytes that stand for this header on the wire.
    pub fn to_bytes(&self) -> (out: Vec<u8>)
        ensures
            out@ == encoded(*self),
            out@.len() == HEADER_LEN,
            header_at(out@, 0) == *self,
    {
        let mut out: Vec<u8> = Vec::new();
        push_u32(&mut out, self.total_length);
        out.push(self.version);
        out.push(self.reserved);
        push_u16(&mut out, self.header_length);
        let low: u32 = (self.mask % 0x1_0000_0000) as u32;
        let high: u32 = (self.mask / 0x1_0000_0000) as u32;
        push_u32(&mut out, low);
        push_u32(&mut out, high);
        push_u32(&mut out, unsigned32(self.subject_fd));
        push_u32(&mut out, unsigned32(self.pid));
        proof {
            lemma_high_bytes(self.mask as int);
            assert(out@ =~= encoded(*self));
            lemma_round_trip(*self);
        }
        out
    }
}

/// Bytes 4 to 7 of a value are bytes 0 to 3 of its upper half, and bytes 0 to 3
/// are those of its lower half.
proof fn lemma_high_bytes(v: int)
    requires
        0 <= v,
    ensures
        byte_of(v, 0) == byte_of(v % 0x1_0000_0000, 0),
        byte_of(v, 1) == byte_of(v % 0x1_0000_0000, 1),
        byte_of(v, 2) == byte_of(v % 0x1_0000_0000, 2),
        byte_of(v, 3) == byte_of(v % 0x1_0000_0000, 3),
        byte_of(v, 4) == byte_of(v / 0x1_0000_0000, 0),
        byte_of(v, 5) == byte_of(v / 0x1_0000_0000, 1),
        byte_of(v, 6) == byte_of(v / 0x1_0000_0000, 2),
        byte_of(v, 7) == byte_of(v / 0x1_0000_0000, 3),
{
    reveal_with_fuel(byte_of, 8);
    let low = v % 0x1_0000_0000;
    let high = v / 0x1_0000_0000;
    assert(v / 0x100 / 0x100 / 0x100 / 0x100 == high);
    assert((v / 0x100) % 0x100 == (low / 0x100) % 0x100);
    assert((v / 0x100 / 0x100) % 0x100 == (low / 0x100 / 0x100) % 0x100);
    assert((v / 0x100 / 0x100 / 0x100) % 0x100 == (low / 0x100 / 0x100 / 0x100) % 0x100);
}

/// The four low bytes of a value below 2^32 put it together again.
proof fn lemma_bytes_compose32(v: int)
    requires
        0 <= v < 0x1_0000_0000,
    ensures
        byte_of(v, 0) + 0x100 * byte_of(v, 1) + 0x1_0000 * byte_of(v, 2) + 0x100_0000 * byte_of(
            v,
            3,
        ) == v,
{
    reveal_with_fuel(byte_of, 4);
}

/// Reading back the bytes written for a header gives that header: the two
/// directions of the wire format agree on every field.
pub proof fn lemma_round_trip(record: RawEventRecord)
    ensures
        encoded(record).len() == HEADER_LEN,
        header_at(encoded(record), 0) == record,
{
    let bytes = encoded(record);
    let mask = record.mask as int;
    lemma_bytes_compose32(record.total_length as int);
    lemma_bytes_compose32(as_unsigned32(record.subject_fd as int));
    lemma_bytes_compose32(as_unsigned32(record.pid as int));
    lemma_high_bytes(mask);
    lemma_bytes_compose32(mask % 0x1_0000_0000);
    lemma_bytes_compose32(mask / 0x1_0000_0000);
    reveal_with_fuel(byte_of, 2);
    assert(le_u32(bytes, 0) == record.total_length);
    assert(le_u16(bytes, 6) == record.header_length);
    assert(le_u64(bytes, 8) == record.mask);
    assert(le_i32(bytes, 16) == record.subject_fd);
    assert(le_i32(bytes, 20) == record.pid);
}

/// A header is read from its own 24 bytes alone: where two buffers hold the
/// same bytes at two places, the same header is read at both.
pub proof fn lemma_header_depends_on_its_bytes(a: Seq<u8>, i: int, b: Seq<u8>, j: int)
    requires
        0 <= i,
        i + HEADER_LEN <= a.len(),
        0 <= j,
        j + HEADER_LEN <= b.len(),
        a.subrange(i, i + HEADER_LEN) == b.subrange(j, j + HEADER_LEN),
    ensures
        header_at(a, i) == header_at(b, j),
{
    let x = a.subrange(i, i + HEADER_LEN);
    let y = b.subrange(j, j + HEADER_LEN);
    assert forall|k: int| 0 <= k < HEADER_LEN implies #[trigger] x[k] == a[i + k] && y[k] == b[j
        + k] by {}
    assert(x[0] == y[0] && x[1] == y[1] && x[2] == y[2] && x[3] == y[3]);
    assert(x[4] == y[4] && x[5] == y[5] && x[6] == y[6] && x[7] == y[7]);
    assert(x[8] == y[8] && x[9] == y[9] && x[10] == y[10] && x[11] == y[11]);
    assert(x[12] == y[12] && x[13] == y[13] && x[14] == y[14] && x[15] == y[15]);
    assert(x[16] == y[16] && x[17] == y[17] && x[18] == y[18] && x[19] == y[19]);
    assert(x[20] == y[20] && x[21] == y[21] && x[22] == y[22] && x[23] == y[23]);
}

} // verus!
