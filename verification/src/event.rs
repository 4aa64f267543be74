//! From a framed record to the event that a caller receives.

use vstd::prelude::*;
use vstd::string::StringExecFns;
use crate::decode::{descriptor_of, DecodeFault, FaultKind, FramedRecord};
use crate::mask::{has_kind, kinds_of, lemma_kinds_complete, lemma_kinds_ranked, EventKind, EventMask};
use crate::wire::RawEventRecord;

verus! {

/// What an event is about.
#[derive(Clone, Debug, PartialEq, Eq)]
pub enum Subject {
    /// The path that the record's descriptor was resolved to.
    Path(String),
    /// The value of the record's descriptor field, where there is no path:
    /// the descriptor could not be resolved, or the value is negative and names
    /// no descriptor at all.
    Descriptor(i32),
}

/// The mathematical value of a [`Subject`].
pub enum SubjectView {
    Path(Seq<char>),
    Descriptor(i32),
}

impl View for Subject {
    type V = SubjectView;

    open spec fn view(&self) -> SubjectView {
        match self {
            Subject::Path(path) => SubjectView::Path(path@),
            Subject::Descriptor(fd) => SubjectView::Descriptor(*fd),
        }
    }
}

/// One notification, decoded.
#[derive(Clone, Debug, PartialEq, Eq)]
pub struct Event {
    /// Identifier of the process that caused the activity.
    pub pid: i32,
    /// The kinds of activity reported, in reporting order, each once.
    pub kinds: Vec<EventKind>,
    /// What the activity was about.
    pub subject: Subject,
    /// Protocol version of the record.
    pub version: u8,
}

/// The mathematical value of an [`Event`].
pub struct EventView {
    pub pid: i32,
    pub kinds: Seq<EventKind>,
    pub subject: SubjectView,
    pub version: u8,
}

impl View for Event {
    type V = EventView;

    open spec fn view(&self) -> EventView {
        EventView {
            pid: self.pid,
            kinds: self.kinds@,
            subject: self.subject@,
            version: self.version,
        }
    }
}

/// The subject of a record with descriptor field `fd`, given what resolving
/// that descriptor to a path came to: the path, where the field names a
/// descriptor and resolving it gave one; in every other case the value of the
/// field itself, which stands in for the path.
pub open spec fn subject_of(fd: i32, resolved: Option<Seq<char>>) -> SubjectView {
    match resolved {
        Some(path) if fd >= 0 => SubjectView::Path(path),
        _ => SubjectView::Descriptor(fd),
    }
}

/// The kinds that a record with mask `mask` reports to a caller who asked for
/// `interest`: those of the record's bits that were asked for.
pub open spec fn matched_kinds(mask: u64, interest: u64) -> Seq<EventKind> {
    kinds_of(mask & interest)
}

/// The event that a record gives, or the fault if it reports nothing that was
/// asked for.
pub open spec fn event_of(record: FramedRecord, interest: u64, resolved: Option<Seq<char>>) -> Result<
    EventView,
    DecodeFault,
> {
    let header = record.header;
    if matched_kinds(header.mask, interest).len() == 0 {
        Err(
            DecodeFault {
                kind: FaultKind::NoMatchingKind,
                offset: record.offset,
                subject_fd: descriptor_of(header),
            },
        )
    } else {
        Ok(
            EventView {
                pid: header.pid,
                kinds: matched_kinds(header.mask, interest),
                subject: subject_of(header.subject_fd, resolved),
                version: header.version,
            },
        )
    }
}

/// The view of an optional string.
pub open spec fn path_view(path: Option<String>) -> Option<Seq<char>> {
    match path {
        Some(path) => Some(path@),
        None => None,
    }
}

/// The view of the outcome of building an event.
pub open spec fn outcome_view(outcome: Result<Event, DecodeFault>) -> Result<EventView, DecodeFault> {
    match outcome {
        Ok(event) => Ok(event@),
        Err(fault) => Err(fault),
    }
}

impl RawEventRecord {
    /// The subject of this record, given the path that its descriptor was
    /// resolved to, or `None` where resolving failed or was not tried.
    pub fn subject(&self, resolved: Option<String>) -> (subject: Subject)
        ensures
            subject@ == subject_of(self.subject_fd, path_view(resolved)),
    {
        match resolved {
            Some(path) if self.subject_fd >= 0 => Subject::Path(path),
            _ => Subject::Descriptor(self.subject_fd),
        }
    }
}

impl FramedRecord {
    /// Builds the event for this record. `interest` is what the caller asked
    /// for; `resolved` is the path that the record's descriptor was resolved to,
    /// or `None` where that failed. A failed resolution never fails the event.
    pub fn into_event(self, interest: EventMask, resolved: Option<String>) -> (outcome: Result<
        Event,
        DecodeFault,
    >)
        ensures
            outcome_view(outcome) == event_of(self, interest.bits, path_view(resolved)),
    {
        let matched = EventMask::from_bits(self.header.mask & interest.bits());
        let kinds = matched.kinds();
        if kinds.len() == 0 {
            Err(
                DecodeFault {
                    kind: FaultKind::NoMatchingKind,
                    offset: self.offset,
                    subject_fd: self.header.descriptor(),
                },
            )
        } else {
            Ok(
                Event {
                    pid: self.header.pid,
                    kinds,
                    subject: self.header.subject(resolved),
                    version: self.header.version,
                },
            )
        }
    }
}

/// The character of one decimal digit.
pub open spec fn digit_char(digit: int) -> char {
    if digit == 0 {
        '0'
    } else if digit == 1 {
        '1'
    } else if digit == 2 {
        '2'
    } else if digit == 3 {
        '3'
    } else if digit == 4 {
        '4'
    } else if digit == 5 {
        '5'
    } else if digit == 6 {
        '6'
    } else if digit == 7 {
        '7'
    } else if digit == 8 {
        '8'
    } else {
        '9'
    }
}

/// A number written in decimal, without leading zeros.
pub open spec fn decimal(n: nat) -> Seq<char>
    decreases n,
{
    if n < 10 {
        seq![digit_char(n as int)]
    } else {
        decimal(n / 10).push(digit_char((n % 10) as int))
    }
}

/// The directory in which the process finds its own descriptors as links.
pub open spec fn link_prefix() -> Seq<char> {
    "/proc/self/fd/"@
}

fn digit_str(digit: u32) -> (s: &'static str)
    requires
        digit < 10,
    ensures
        s@ == seq![digit_char(digit as int)],
{
    proof {
        reveal_strlit("0");
        reveal_strlit("1");
        reveal_strlit("2");
        reveal_strlit("3");
        reveal_strlit("4");
        reveal_strlit("5");
        reveal_strlit("6");
        reveal_strlit("7");
        reveal_strlit("8");
        reveal_strlit("9");
    }
    let s = if digit == 0 {
        "0"
    } else if digit == 1 {
        "1"
    } else if digit == 2 {
        "2"
    } else if digit == 3 {
        "3"
    } else if digit == 4 {
        "4"
    } else if digit == 5 {
        "5"
    } else if digit == 6 {
        "6"
    } else if digit == 7 {
        "7"
    } else if digit == 8 {
        "8"
    } else {
        "9"
    };
    assert(s@ =~= seq![digit_char(digit as int)]);
    s
}

fn push_decimal(out: &mut String, n: u32)
    ensures
        final(out)@ == old(out)@ + decimal(n as nat),
    decreases n,
{
    if n >= 10 {
        push_decimal(out, n / 10);
    }
    out.append(digit_str(n % 10));
    proof {
        if n >= 10 {
            assert(out@ =~= old(out)@ + decimal(n as nat));
        }
    }
}

/// The link under which the process finds the descriptor `fd`; reading that
/// link gives the path of the object that the descriptor is open on. There is
/// none for a negative number, which names no descriptor.
pub fn descriptor_link(fd: i32) -> (link: Option<String>)
    ensures
        fd < 0 <==> link.is_none(),
        fd >= 0 ==> link.unwrap()@ == link_prefix() + decimal(fd as nat),
{
    if fd < 0 {
        return None;
    }
    let mut link = String::from_str("/proc/self/fd/");
    push_decimal(&mut link, fd as u32);
    Some(link)
}

/// An event reports a kind exactly when the record has its bit and the caller
/// asked for it. So every kind that a record carries and that was asked for is
/// reported in the one event of that record, however many there are, and nothing
/// is reported that was not asked for.
pub proof fn lemma_event_kinds(
    record: FramedRecord,
    interest: u64,
    resolved: Option<Seq<char>>,
    kind: EventKind,
)
    requires
        event_of(record, interest, resolved).is_ok(),
    ensures
        event_of(record, interest, resolved).unwrap().kinds.contains(kind) <==> has_kind(
            record.header.mask,
            kind,
        ) && has_kind(interest, kind),
        event_of(record, interest, resolved).unwrap().kinds.len() > 0,
        event_of(record, interest, resolved).unwrap().kinds.no_duplicates(),
{
    let both = record.header.mask & interest;
    lemma_kinds_complete(both, kind);
    lemma_kinds_ranked(both);
    let bit = kind.spec_bit();
    let mask = record.header.mask;
    assert((mask & interest) & bit != 0 <==> (mask & bit != 0 && interest & bit != 0))
        by (bit_vector)
        requires
            bit == 0x1 || bit == 0x2 || bit == 0x4 || bit == 0x8 || bit == 0x100 || bit == 0x200,
    ;
}

/// A kind that was asked for and that a record carries is reported: the record
/// gives an event, and the event names the kind.
pub proof fn lemma_asked_kind_is_reported(
    record: FramedRecord,
    interest: u64,
    resolved: Option<Seq<char>>,
    kind: EventKind,
)
    requires
        has_kind(record.header.mask, kind),
        has_kind(interest, kind),
    ensures
        event_of(record, interest, resolved).is_ok(),
        event_of(record, interest, resolved).unwrap().kinds.contains(kind),
{
    lemma_event_or_fault(record, interest, resolved);
    lemma_event_kinds(record, interest, resolved, kind);
}

/// A record gives an event exactly when it carries a kind that was asked for.
pub proof fn lemma_event_or_fault(record: FramedRecord, interest: u64, resolved: Option<Seq<char>>)
    ensures
        event_of(record, interest, resolved).is_ok() <==> exists|kind: EventKind|
            has_kind(record.header.mask, kind) && has_kind(interest, kind),
{
    let both = record.header.mask & interest;
    let mask = record.header.mask;
    let kinds = kinds_of(both);
    assert forall|kind: EventKind| has_kind(both, kind) <==> has_kind(mask, kind) && has_kind(
        interest,
        kind,
    ) by {
        let bit = kind.spec_bit();
        assert((mask & interest) & bit != 0 <==> (mask & bit != 0 && interest & bit != 0))
            by (bit_vector)
            requires
                bit == 0x1 || bit == 0x2 || bit == 0x4 || bit == 0x8 || bit == 0x100 || bit
                    == 0x200,
        ;
    }
    if kinds.len() > 0 {
        let kind = kinds[0];
        assert(kinds.contains(kind));
        lemma_kinds_complete(both, kind);
        assert(has_kind(mask, kind) && has_kind(interest, kind));
    }
    if exists|kind: EventKind| has_kind(mask, kind) && has_kind(interest, kind) {
        let kind = choose|kind: EventKind| has_kind(mask, kind) && has_kind(interest, kind);
        lemma_kinds_complete(both, kind);
        assert(kinds.contains(kind));
    }
}

/// Whether resolving the descriptor succeeds changes the subject of the event
/// and nothing else: not whether there is an event, not its kinds, its process
/// or its version. Where resolving failed, the subject is the descriptor itself.
pub proof fn lemma_resolution_touches_subject_only(
    record: FramedRecord,
    interest: u64,
    path: Seq<char>,
)
    ensures
        event_of(record, interest, Some(path)).is_ok() == event_of(record, interest, None).is_ok(),
        event_of(record, interest, None).is_ok() ==> {
            let failed = event_of(record, interest, None).unwrap();
            let resolved = event_of(record, interest, Some(path)).unwrap();
            &&& failed.kinds == resolved.kinds
            &&& failed.pid == resolved.pid
            &&& failed.version == resolved.version
            &&& failed.subject == SubjectView::Descriptor(record.header.subject_fd)
            &&& resolved.subject == if record.header.subject_fd >= 0 {
                SubjectView::Path(path)
            } else {
                SubjectView::Descriptor(record.header.subject_fd)
            }
        },
        event_of(record, interest, None).is_err() ==> event_of(record, interest, None)
            == event_of(record, interest, Some(path)),
{
}

} // verus!
