//! Framing: from the bytes of one read to the records and faults they hold.
//!
//! Records follow one another without gaps; each says in its header how long it
//! is. The scan walks the buffer with a running offset and never looks past the
//! bytes it was given. What it cannot accept as a record it reports as a fault,
//! and it goes on behind the fault wherever the record's length can be trusted.

use vstd::prelude::*;
use crate::wire::{header_at, read_header, RawEventRecord, HEADER_LEN, METADATA_VERSION};

verus! {

/// What is wrong with a record.
#[derive(Clone, Copy, Debug, PartialEq, Eq, Structural, Hash)]
pub enum FaultKind {
    /// Fewer bytes are left than a header takes.
    TruncatedHeader,
    /// The record claims to be shorter than its own header.
    LengthTooSmall,
    /// The record claims to reach past the bytes that were read. A read hands
    /// over whole records only, so this tells of a buffer too small for the
    /// record; no part of the record is kept for a later read.
    Overrun,
    /// The record's protocol version is not the one this decoder understands.
    UnknownVersion,
    /// The header length lies outside the record.
    BadHeaderLength,
    /// The record reports none of the kinds that were asked for.
    NoMatchingKind,
}

impl FaultKind {
    /// Whether nothing behind the faulty record can be framed: its length is
    /// missing or cannot be believed, so the rest of the buffer is given up.
    pub open spec fn spec_ends_scan(self) -> bool {
        self == FaultKind::TruncatedHeader || self == FaultKind::LengthTooSmall || self
            == FaultKind::Overrun
    }

    /// Whether the scan of the buffer stops at a fault of this kind.
    pub fn ends_scan(self) -> (b: bool)
        ensures
            b == self.spec_ends_scan(),
    {
        match self {
            FaultKind::TruncatedHeader | FaultKind::LengthTooSmall | FaultKind::Overrun => true,
            FaultKind::UnknownVersion
            | FaultKind::BadHeaderLength
            | FaultKind::NoMatchingKind => false,
        }
    }

    /// Whether all the bytes of a header stand at the fault, so that the
    /// descriptor field in them names a descriptor that was handed over. That is
    /// so for every fault but a truncated header.
    pub open spec fn spec_header_readable(self) -> bool {
        self != FaultKind::TruncatedHeader
    }

    /// Whether a fault of this kind may name a descriptor to release.
    pub fn header_readable(self) -> (b: bool)
        ensures
            b == self.spec_header_readable(),
    {
        match self {
            FaultKind::TruncatedHeader => false,
            FaultKind::LengthTooSmall
            | FaultKind::Overrun
            | FaultKind::UnknownVersion
            | FaultKind::BadHeaderLength
            | FaultKind::NoMatchingKind => true,
        }
    }
}

/// A record that could not be decoded.
#[derive(Clone, Copy, Debug, PartialEq, Eq)]
pub struct DecodeFault {
    /// What is wrong.
    pub kind: FaultKind,
    /// Where in the buffer the faulty record starts.
    pub offset: usize,
    /// The descriptor that came with the record and has to be released, if any.
    pub subject_fd: Option<i32>,
}

/// A record whose header passed every check.
#[derive(Clone, Copy, Debug, PartialEq, Eq)]
pub struct FramedRecord {
    /// Where in the buffer the record starts.
    pub offset: usize,
    /// Its header.
    pub header: RawEventRecord,
}

/// What stands at one place of the buffer.
#[derive(Clone, Copy, Debug, PartialEq, Eq)]
pub enum Decoded {
    /// A well-formed record.
    Record(FramedRecord),
    /// Bytes that are no well-formed record.
    Fault(DecodeFault),
}

/// The descriptor that a header hands over: its descriptor field, unless that
/// is negative, which stands for none.
pub open spec fn descriptor_of(header: RawEventRecord) -> Option<i32> {
    if header.subject_fd >= 0 {
        Some(header.subject_fd)
    } else {
        None
    }
}

/// The fault of the record that starts at `at`, or `None` if it is well formed.
/// The checks are made in this order, and the first that fails names the fault.
pub open spec fn fault_at(bytes: Seq<u8>, at: int) -> Option<FaultKind> {
    let left = bytes.len() - at;
    let header = header_at(bytes, at);
    if left < HEADER_LEN {
        Some(FaultKind::TruncatedHeader)
    } else if header.total_length < HEADER_LEN {
        Some(FaultKind::LengthTooSmall)
    } else if header.total_length > left {
        Some(FaultKind::Overrun)
    } else if header.version != METADATA_VERSION {
        Some(FaultKind::UnknownVersion)
    } else if header.header_length < HEADER_LEN || header.header_length > header.total_length {
        Some(FaultKind::BadHeaderLength)
    } else {
        None
    }
}

/// What the scan reports for the place `at`.
pub open spec fn decoded_at(bytes: Seq<u8>, at: int) -> Decoded {
    let header = header_at(bytes, at);
    match fault_at(bytes, at) {
        None => Decoded::Record(FramedRecord { offset: at as usize, header }),
        Some(kind) => Decoded::Fault(
            DecodeFault {
                kind,
                offset: at as usize,
                subject_fd: if kind.spec_header_readable() {
                    descriptor_of(header)
                } else {
                    None
                },
            },
        ),
    }
}

/// Whether the scan goes on behind the place `at`.
pub open spec fn scan_continues(bytes: Seq<u8>, at: int) -> bool {
    match fault_at(bytes, at) {
        None => true,
        Some(kind) => !kind.spec_ends_scan(),
    }
}

/// Everything the scan reports from the place `at` to the end of the buffer.
pub open spec fn frames_from(bytes: Seq<u8>, at: int) -> Seq<Decoded>
    decreases bytes.len() - at,
{
    if at < 0 || at >= bytes.len() {
        Seq::empty()
    } else if scan_continues(bytes, at) {
        seq![decoded_at(bytes, at)] + frames_from(
            bytes,
            at + header_at(bytes, at).total_length,
        )
    } else {
        seq![decoded_at(bytes, at)]
    }
}

/// Everything the scan reports for a buffer.
pub open spec fn frames(bytes: Seq<u8>) -> Seq<Decoded> {
    frames_from(bytes, 0)
}

impl RawEventRecord {
    /// The descriptor that came with this record and has to be released once the
    /// record has been dealt with, if there is one.
    pub fn descriptor(&self) -> (fd: Option<i32>)
        ensures
            fd == descriptor_of(*self),
    {
        if self.subject_fd >= 0 {
            Some(self.subject_fd)
        } else {
            None
        }
    }
}

impl Decoded {
    /// The descriptor that came with this record, well formed or not. Whoever
    /// receives the value owes that descriptor exactly one release.
    pub open spec fn spec_descriptor(self) -> Option<i32> {
        match self {
            Decoded::Record(record) => descriptor_of(record.header),
            Decoded::Fault(fault) => fault.subject_fd,
        }
    }

    /// The descriptor to release for this record, if it came with one.
    pub fn descriptor(&self) -> (fd: Option<i32>)
        ensures
            fd == self.spec_descriptor(),
    {
        match self {
            Decoded::Record(record) => record.header.descriptor(),
            Decoded::Fault(fault) => fault.subject_fd,
        }
    }

    /// Where in the buffer the record starts.
    pub open spec fn spec_offset(self) -> usize {
        match self {
            Decoded::Record(record) => record.offset,
            Decoded::Fault(fault) => fault.offset,
        }
    }

    /// Where in the buffer the record starts.
    pub fn offset(&self) -> (at: usize)
        ensures
            at == self.spec_offset(),
    {
        match self {
            Decoded::Record(record) => record.offset,
            Decoded::Fault(fault) => fault.offset,
        }
    }
}

/// The descriptors that came with the things framed, in their order: each
/// thing gives its descriptor once, or none if it came without.
pub open spec fn descriptors_of(items: Seq<Decoded>) -> Seq<i32>
    decreases items.len(),
{
    if items.len() == 0 {
        Seq::empty()
    } else {
        let before = descriptors_of(items.drop_last());
        match items.last().spec_descriptor() {
            Some(fd) => before.push(fd),
            None => before,
        }
    }
}

/// The descriptors to release for what one read held. Each is owed exactly
/// one release, whatever became of its record.
pub fn descriptors(items: &Vec<Decoded>) -> (out: Vec<i32>)
    ensures
        out@ == descriptors_of(items@),
{
    let mut out: Vec<i32> = Vec::new();
    let mut k: usize = 0;
    while k < items.len()
        invariant
            k <= items@.len(),
            out@ == descriptors_of(items@.take(k as int)),
        decreases items@.len() - k,
    {
        proof {
            assert(items@.take(k + 1).drop_last() =~= items@.take(k as int));
        }
        if let Some(fd) = items[k].descriptor() {
            out.push(fd);
        }
        k = k + 1;
    }
    proof {
        assert(items@.take(k as int) =~= items@);
    }
    out
}

/// Decodes what stands at `at` and says where the next record starts, or `None`
/// where the scan has to stop.
fn decode_at(bytes: &[u8], at: usize) -> (r: (Decoded, Option<usize>))
    requires
        at < bytes.len(),
    ensures
        r.0 == decoded_at(bytes@, at as int),
        r.1.is_some() == scan_continues(bytes@, at as int),
        r.1.is_some() ==> r.1.unwrap() == at + header_at(bytes@, at as int).total_length,
        r.1.is_some() ==> at < r.1.unwrap() <= bytes.len(),
{
    let header = match read_header(bytes, at) {
        Some(header) => header,
        None => {
            let fault = DecodeFault { kind: FaultKind::TruncatedHeader, offset: at, subject_fd: None };
            return (Decoded::Fault(fault), None);
        },
    };
    let left: usize = bytes.len() - at;
    if header.total_length < HEADER_LEN as u32 {
        let fault = DecodeFault {
            kind: FaultKind::LengthTooSmall,
            offset: at,
            subject_fd: header.descriptor(),
        };
        return (Decoded::Fault(fault), None);
    }
    if header.total_length as u64 > left as u64 {
        let fault = DecodeFault {
            kind: FaultKind::Overrun,
            offset: at,
            subject_fd: header.descriptor(),
        };
        return (Decoded::Fault(fault), None);
    }
    let next: usize = at + header.total_length as usize;
    if header.version != METADATA_VERSION {
        let fault = DecodeFault {
            kind: FaultKind::UnknownVersion,
            offset: at,
            subject_fd: header.descriptor(),
        };
        return (Decoded::Fault(fault), Some(next));
    }
    if header.header_length < HEADER_LEN as u16 || header.header_length as u32
        > header.total_length {
        let fault = DecodeFault {
            kind: FaultKind::BadHeaderLength,
            offset: at,
            subject_fd: header.descriptor(),
        };
        return (Decoded::Fault(fault), Some(next));
    }
    (Decoded::Record(FramedRecord { offset: at, header }), Some(next))
}

/// Frames the bytes of one read. Every record that stands whole in `bytes`
/// comes out, in the order in which it stands there, and every fault with it;
/// no byte outside `bytes` is looked at.
pub fn frame_records(bytes: &[u8]) -> (out: Vec<Decoded>)
    ensures
        out@ == frames(bytes@),
{
    let mut out: Vec<Decoded> = Vec::new();
    let mut at: usize = 0;
    while at < bytes.len()
        invariant
            at <= bytes.len(),
            out@ + frames_from(bytes@, at as int) == frames(bytes@),
        decreases bytes.len() - at,
    {
        let ghost before = out@;
        let (item, next) = decode_at(bytes, at);
        out.push(item);
        proof {
            assert(out@ =~= before + seq![item]);
        }
        match next {
            Some(next) => {
                proof {
                    assert(out@ + frames_from(bytes@, next as int) =~= before + frames_from(
                        bytes@,
                        at as int,
                    ));
                }
                at = next;
            },
            None => {
                proof {
                    assert(out@ + frames_from(bytes@, bytes@.len() as int) =~= before
                        + frames_from(bytes@, at as int));
                }
                at = bytes.len();
            },
        }
    }
    proof {
        assert(out@ + frames_from(bytes@, at as int) =~= out@);
    }
    out
}

/// What holds of the `k`-th thing that a scan from `at` reports: it is what
/// stands at its own offset, and the next one follows it without a gap.
proof fn lemma_frames_from(bytes: Seq<u8>, at: int, k: int)
    requires
        0 <= at,
        bytes.len() <= usize::MAX,
        0 <= k < frames_from(bytes, at).len(),
    ensures
        at <= frames_from(bytes, at)[k].spec_offset() < bytes.len(),
        k == 0 ==> frames_from(bytes, at)[k].spec_offset() == at,
        frames_from(bytes, at)[k] == decoded_at(
            bytes,
            frames_from(bytes, at)[k].spec_offset() as int,
        ),
        k + 1 < frames_from(bytes, at).len() ==> {
            let here = frames_from(bytes, at)[k].spec_offset() as int;
            &&& scan_continues(bytes, here)
            &&& frames_from(bytes, at)[k + 1].spec_offset() == here + header_at(
                bytes,
                here,
            ).total_length
        },
        k + 1 == frames_from(bytes, at).len() ==> {
            let here = frames_from(bytes, at)[k].spec_offset() as int;
            scan_continues(bytes, here) ==> here + header_at(bytes, here).total_length
                == bytes.len()
        },
    decreases bytes.len() - at,
{
    let all = frames_from(bytes, at);
    let next = at + header_at(bytes, at).total_length;
    if scan_continues(bytes, at) {
        let rest = frames_from(bytes, next);
        assert(all =~= seq![decoded_at(bytes, at)] + rest);
        if k > 0 {
            lemma_frames_from(bytes, next, k - 1);
            assert(all[k] == rest[k - 1]);
            if k + 1 < all.len() {
                assert(all[k + 1] == rest[k]);
            }
        } else if all.len() > 1 {
            lemma_frames_from(bytes, next, 0);
            assert(all[1] == rest[0]);
        }
    }
}

/// Every record that the scan reports lies whole inside the buffer and passed
/// every check of its header; every fault lies inside the buffer too.
pub proof fn lemma_frames_in_bounds(bytes: Seq<u8>, k: int)
    requires
        bytes.len() <= usize::MAX,
        0 <= k < frames(bytes).len(),
    ensures
        frames(bytes)[k].spec_offset() < bytes.len(),
        frames(bytes)[k] == decoded_at(bytes, frames(bytes)[k].spec_offset() as int),
        match frames(bytes)[k] {
            Decoded::Record(record) => {
                &&& record.header == header_at(bytes, record.offset as int)
                &&& record.offset + record.header.total_length <= bytes.len()
                &&& HEADER_LEN <= record.header.header_length <= record.header.total_length
                &&& record.header.version == METADATA_VERSION
            },
            Decoded::Fault(fault) => fault.kind != FaultKind::NoMatchingKind,
        },
{
    lemma_frames_from(bytes, 0, k);
}

/// The scan reports the buffer front to back without gap or overlap: the first
/// record starts at the first byte, each further one starts where the one before
/// it ends, and only the last thing reported can be a fault that ends the scan.
pub proof fn lemma_frames_are_consecutive(bytes: Seq<u8>, k: int)
    requires
        bytes.len() <= usize::MAX,
        0 <= k < frames(bytes).len(),
    ensures
        k == 0 ==> frames(bytes)[k].spec_offset() == 0,
        k + 1 < frames(bytes).len() ==> {
            let here = frames(bytes)[k].spec_offset() as int;
            &&& frames(bytes)[k + 1].spec_offset() == here + header_at(bytes, here).total_length
            &&& match frames(bytes)[k] {
                Decoded::Record(_) => true,
                Decoded::Fault(fault) => !fault.kind.spec_ends_scan(),
            }
        },
        k + 1 == frames(bytes).len() ==> match frames(bytes)[k] {
            Decoded::Record(record) => record.offset + record.header.total_length
                == bytes.len(),
            Decoded::Fault(fault) => fault.kind.spec_ends_scan() || fault.offset + header_at(
                bytes,
                fault.offset as int,
            ).total_length == bytes.len(),
        },
{
    lemma_frames_from(bytes, 0, k);
}

/// A descriptor that the scan names for release is the one that stands in the
/// header at that place, and is not negative: nothing is released that the
/// buffer did not hand over.
pub proof fn lemma_descriptors_come_from_headers(bytes: Seq<u8>, k: int)
    requires
        bytes.len() <= usize::MAX,
        0 <= k < frames(bytes).len(),
        frames(bytes)[k].spec_descriptor().is_some(),
    ensures
        frames(bytes)[k].spec_descriptor().unwrap() >= 0,
        frames(bytes)[k].spec_offset() + HEADER_LEN <= bytes.len(),
        frames(bytes)[k].spec_descriptor().unwrap() == header_at(
            bytes,
            frames(bytes)[k].spec_offset() as int,
        ).subject_fd,
{
    lemma_frames_from(bytes, 0, k);
}

/// As many descriptors are named for release as there are things framed that
/// came with one: none is named twice and none is left out.
pub proof fn lemma_descriptors_count(items: Seq<Decoded>)
    ensures
        descriptors_of(items).len() == items.filter(
            |item: Decoded| item.spec_descriptor().is_some(),
        ).len(),
        descriptors_of(items).len() <= items.len(),
    decreases items.len(),
{
    let with = |item: Decoded| item.spec_descriptor().is_some();
    reveal(Seq::filter);
    if items.len() > 0 {
        lemma_descriptors_count(items.drop_last());
        items.drop_last().lemma_filter_len(with);
    }
}

/// A buffer that holds nothing yields nothing.
pub proof fn lemma_empty_buffer()
    ensures
        frames(Seq::<u8>::empty()) == Seq::<Decoded>::empty(),
{
}

/// A record is decoded from its own header bytes and from how many bytes
/// follow its start, and from nothing else: two buffers that agree on the 24
/// bytes at two places, and leave equally many bytes behind them, decode to the
/// same thing there, but for the offset that the result names.
pub proof fn lemma_decoding_is_repeatable(a: Seq<u8>, i: int, b: Seq<u8>, j: int)
    requires
        0 <= i,
        i + HEADER_LEN <= a.len(),
        0 <= j,
        j + HEADER_LEN <= b.len(),
        a.subrange(i, i + HEADER_LEN) == b.subrange(j, j + HEADER_LEN),
        a.len() - i == b.len() - j,
    ensures
        fault_at(a, i) == fault_at(b, j),
        scan_continues(a, i) == scan_continues(b, j),
        decoded_at(a, i).spec_descriptor() == decoded_at(b, j).spec_descriptor(),
        match (decoded_at(a, i), decoded_at(b, j)) {
            (Decoded::Record(x), Decoded::Record(y)) => x.header == y.header,
            (Decoded::Fault(x), Decoded::Fault(y)) => x.kind == y.kind && x.subject_fd
                == y.subject_fd,
            _ => false,
        },
{
    crate::wire::lemma_header_depends_on_its_bytes(a, i, b, j);
}

} // verus!
