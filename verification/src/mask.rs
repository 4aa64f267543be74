//! Event kinds and the bit masks that carry them.

use vstd::prelude::*;

verus! {

/// One category of filesystem activity.
#[derive(Clone, Copy, Debug, PartialEq, Eq, Structural, Hash)]
pub enum EventKind {
    /// Metadata of the object changed (mode, owner, timestamps, size, extended attributes).
    AttributeChange,
    /// The object was opened.
    Open,
    /// The content of the object was modified.
    Modify,
    /// A handle that was open for writing was closed.
    CloseAfterWrite,
    /// An entry was created in a watched directory.
    Create,
    /// An entry was deleted from a watched directory.
    Delete,
}

/// Mask bit of [`EventKind::Open`].
pub const OPEN_BIT: u64 = 0x0000_0001;

/// Mask bit of [`EventKind::Modify`].
pub const MODIFY_BIT: u64 = 0x0000_0002;

/// Mask bit of [`EventKind::AttributeChange`].
pub const ATTRIBUTE_CHANGE_BIT: u64 = 0x0000_0004;

/// Mask bit of [`EventKind::CloseAfterWrite`].
pub const CLOSE_AFTER_WRITE_BIT: u64 = 0x0000_0008;

/// Mask bit of [`EventKind::Create`].
pub const CREATE_BIT: u64 = 0x0000_0100;

/// Mask bit of [`EventKind::Delete`].
pub const DELETE_BIT: u64 = 0x0000_0200;

/// The bits of all six kinds together.
pub const KNOWN_BITS: u64 = 0x0000_030f;

/// The bits of the kinds that an older kernel may reject.
pub const EXTENDED_BITS: u64 = 0x0000_0304;

impl EventKind {
    /// The mask bit that stands for this kind.
    pub open spec fn spec_bit(self) -> u64 {
        match self {
            EventKind::AttributeChange => ATTRIBUTE_CHANGE_BIT,
            EventKind::Open => OPEN_BIT,
            EventKind::Modify => MODIFY_BIT,
            EventKind::CloseAfterWrite => CLOSE_AFTER_WRITE_BIT,
            EventKind::Create => CREATE_BIT,
            EventKind::Delete => DELETE_BIT,
        }
    }

    /// The mask bit that stands for this kind.
    pub fn bit(self) -> (b: u64)
        ensures
            b == self.spec_bit(),
    {
        match self {
            EventKind::AttributeChange => ATTRIBUTE_CHANGE_BIT,
            EventKind::Open => OPEN_BIT,
            EventKind::Modify => MODIFY_BIT,
            EventKind::CloseAfterWrite => CLOSE_AFTER_WRITE_BIT,
            EventKind::Create => CREATE_BIT,
            EventKind::Delete => DELETE_BIT,
        }
    }

    /// Whether the kind needs more than the basic notification facility. Metadata
    /// and directory-entry kinds arrived in later kernels than the content kinds,
    /// so a kernel may reject a mark that asks for one of them.
    pub open spec fn spec_is_extended(self) -> bool {
        self == EventKind::AttributeChange || self == EventKind::Create || self
            == EventKind::Delete
    }

    /// Whether this kind is one that an older kernel may reject.
    pub fn is_extended(self) -> (b: bool)
        ensures
            b == self.spec_is_extended(),
    {
        match self {
            EventKind::AttributeChange | EventKind::Create | EventKind::Delete => true,
            EventKind::Open | EventKind::Modify | EventKind::CloseAfterWrite => false,
        }
    }
}

/// Whether `bits` carries the bit of `kind`.
pub open spec fn has_kind(bits: u64, kind: EventKind) -> bool {
    bits & kind.spec_bit() != 0
}

/// Whether `bits` carries a kind that an older kernel may reject.
pub open spec fn has_extended(bits: u64) -> bool {
    has_kind(bits, EventKind::AttributeChange) || has_kind(bits, EventKind::Create) || has_kind(
        bits,
        EventKind::Delete,
    )
}

/// `kind` alone if `bits` carries it, nothing otherwise.
pub open spec fn pick(bits: u64, kind: EventKind) -> Seq<EventKind> {
    if has_kind(bits, kind) {
        seq![kind]
    } else {
        Seq::empty()
    }
}

/// The kinds that `bits` carries, each once, in reporting order: attribute
/// change first, then open, modify, close-after-write, create, delete. Bits of no
/// kind are passed over.
pub open spec fn kinds_of(bits: u64) -> Seq<EventKind> {
    pick(bits, EventKind::AttributeChange) + pick(bits, EventKind::Open) + pick(
        bits,
        EventKind::Modify,
    ) + pick(bits, EventKind::CloseAfterWrite) + pick(bits, EventKind::Create) + pick(
        bits,
        EventKind::Delete,
    )
}

/// The place of a kind in the reporting order.
pub open spec fn rank(kind: EventKind) -> int {
    match kind {
        EventKind::AttributeChange => 0,
        EventKind::Open => 1,
        EventKind::Modify => 2,
        EventKind::CloseAfterWrite => 3,
        EventKind::Create => 4,
        EventKind::Delete => 5,
    }
}

/// A set of event kinds, held as the bits of a mark mask.
#[derive(Clone, Copy, Debug, PartialEq, Eq, Structural, Hash)]
pub struct EventMask {
    /// The raw mask. Bits outside [`KNOWN_BITS`] stand for no kind.
    pub bits: u64,
}

impl View for EventMask {
    type V = Set<EventKind>;

    /// The kinds whose bit is set.
    open spec fn view(&self) -> Set<EventKind> {
        Set::new(|kind: EventKind| has_kind(self.bits, kind))
    }
}

impl EventMask {
    /// The mask of no kind.
    pub fn empty() -> (m: EventMask)
        ensures
            m.bits == 0,
            m@ == Set::<EventKind>::empty(),
    {
        let m = EventMask { bits: 0 };
        proof {
            lemma_zero_has_nothing();
            assert(m@ =~= Set::<EventKind>::empty());
        }
        m
    }

    /// The mask with exactly the given raw bits.
    pub fn from_bits(bits: u64) -> (m: EventMask)
        ensures
            m.bits == bits,
    {
        EventMask { bits }
    }

    /// The mask of one kind.
    pub fn of(kind: EventKind) -> (m: EventMask)
        ensures
            m.bits == kind.spec_bit(),
            m@ == Set::<EventKind>::empty().insert(kind),
    {
        let m = EventMask { bits: kind.bit() };
        proof {
            lemma_single_bit(kind);
            assert(m@ =~= Set::<EventKind>::empty().insert(kind));
        }
        m
    }

    /// The mask of the kinds listed, in any order and with repeats allowed.
    pub fn from_kinds(kinds: &[EventKind]) -> (m: EventMask)
        ensures
            m@ == kinds@.to_set(),
            m.bits & !KNOWN_BITS == 0,
    {
        let mut m = EventMask { bits: 0 };
        let mut i: usize = 0;
        proof {
            lemma_zero_has_nothing();
            assert(0u64 & !KNOWN_BITS == 0) by (bit_vector);
            assert(m@ =~= kinds@.take(0).to_set());
        }
        while i < kinds.len()
            invariant
                i <= kinds.len(),
                m@ == kinds@.take(i as int).to_set(),
                m.bits & !KNOWN_BITS == 0,
            decreases kinds.len() - i,
        {
            let kind = kinds[i];
            let ghost before = m;
            m = m.with(kind);
            proof {
                let prefix = kinds@.take(i as int);
                let longer = kinds@.take(i + 1);
                assert(longer =~= prefix.push(kind));
                assert forall|k: EventKind| longer.to_set().contains(k) <==> before@.insert(
                    kind,
                ).contains(k) by {
                    if longer.contains(k) {
                        let j = choose|j: int| 0 <= j < longer.len() && longer[j] == k;
                        if j < i {
                            assert(prefix[j] == k);
                            assert(prefix.contains(k));
                        }
                    }
                    if prefix.contains(k) {
                        let j = choose|j: int| 0 <= j < prefix.len() && prefix[j] == k;
                        assert(longer[j] == k);
                    }
                    assert(longer[i as int] == kind);
                }
                assert(m@ =~= longer.to_set());
                lemma_known_closed_under_insert(before.bits, kind);
            }
            i = i + 1;
        }
        proof {
            assert(kinds@.take(i as int) =~= kinds@);
        }
        m
    }

    /// The raw bits.
    pub fn bits(&self) -> (b: u64)
        ensures
            b == self.bits,
    {
        self.bits
    }

    /// Whether the mask holds `kind`.
    pub fn contains(&self, kind: EventKind) -> (b: bool)
        ensures
            b == self@.contains(kind),
            b == has_kind(self.bits, kind),
    {
        self.bits & kind.bit() != 0
    }

    /// Whether the mask holds no kind at all. Bits of no kind do not count.
    pub fn is_empty(&self) -> (b: bool)
        ensures
            b == (self@ == Set::<EventKind>::empty()),
            b == (self.bits & KNOWN_BITS == 0),
    {
        proof {
            lemma_known_bits_cover(self.bits);
            if self.bits & KNOWN_BITS == 0 {
                assert(self@ =~= Set::<EventKind>::empty());
            } else {
                let kind = choose|kind: EventKind| has_kind(self.bits, kind);
                assert(self@.contains(kind));
            }
        }
        self.bits & KNOWN_BITS == 0
    }

    /// This mask with `kind` added.
    pub fn with(self, kind: EventKind) -> (m: EventMask)
        ensures
            m.bits == self.bits | kind.spec_bit(),
            m@ == self@.insert(kind),
    {
        let m = EventMask { bits: self.bits | kind.bit() };
        proof {
            assert forall|k: EventKind| m@.contains(k) <==> self@.insert(kind).contains(k) by {
                lemma_single_bit(kind);
                assert(has_kind(kind.spec_bit(), k) <==> k == kind);
                lemma_or_has(self.bits, kind.spec_bit(), k.spec_bit());
            }
            assert(m@ =~= self@.insert(kind));
        }
        m
    }

    /// This mask with `kind` taken out.
    pub fn without(self, kind: EventKind) -> (m: EventMask)
        ensures
            m.bits == self.bits & !kind.spec_bit(),
            m@ == self@.remove(kind),
    {
        let m = EventMask { bits: self.bits & !kind.bit() };
        proof {
            assert forall|k: EventKind| m@.contains(k) <==> self@.remove(kind).contains(k) by {
                lemma_single_bit(kind);
                assert(has_kind(kind.spec_bit(), k) <==> k == kind);
                lemma_and_not_has(self.bits, kind.spec_bit(), k.spec_bit());
            }
            assert(m@ =~= self@.remove(kind));
        }
        m
    }

    /// The kinds of either mask.
    pub fn union(self, other: EventMask) -> (m: EventMask)
        ensures
            m.bits == self.bits | other.bits,
            m@ == self@.union(other@),
    {
        let m = EventMask { bits: self.bits | other.bits };
        proof {
            assert forall|k: EventKind| m@.contains(k) <==> self@.union(other@).contains(k) by {
                lemma_or_has(self.bits, other.bits, k.spec_bit());
            }
            assert(m@ =~= self@.union(other@));
        }
        m
    }

    /// The kinds that both masks hold.
    pub fn intersect(self, other: EventMask) -> (m: EventMask)
        ensures
            m.bits == self.bits & other.bits,
            m@ == self@.intersect(other@),
    {
        let m = EventMask { bits: self.bits & other.bits };
        proof {
            assert forall|k: EventKind| m@.contains(k) <==> self@.intersect(other@).contains(
                k,
            ) by {
                lemma_and_has(self.bits, other.bits, k);
            }
            assert(m@ =~= self@.intersect(other@));
        }
        m
    }

    /// The kinds of this mask that `other` does not hold.
    pub fn difference(self, other: EventMask) -> (m: EventMask)
        ensures
            m.bits == self.bits & !other.bits,
            m@ == self@.difference(other@),
    {
        let m = EventMask { bits: self.bits & !other.bits };
        proof {
            assert forall|k: EventKind| m@.contains(k) <==> self@.difference(other@).contains(
                k,
            ) by {
                lemma_and_not_has(self.bits, other.bits, k.spec_bit());
                lemma_single_bit(k);
            }
            assert(m@ =~= self@.difference(other@));
        }
        m
    }

    /// This mask without the bits that stand for no kind.
    pub fn known(self) -> (m: EventMask)
        ensures
            m.bits == self.bits & KNOWN_BITS,
            m@ == self@,
    {
        let m = EventMask { bits: self.bits & KNOWN_BITS };
        proof {
            assert forall|k: EventKind| m@.contains(k) <==> self@.contains(k) by {
                lemma_known_keeps(self.bits, k);
            }
            assert(m@ =~= self@);
        }
        m
    }

    /// Whether the mask holds a kind that an older kernel may reject.
    pub fn has_extended(&self) -> (b: bool)
        ensures
            b == has_extended(self.bits),
    {
        self.contains(EventKind::AttributeChange) || self.contains(EventKind::Create)
            || self.contains(EventKind::Delete)
    }

    /// This mask without the kinds that an older kernel may reject.
    pub fn without_extended(self) -> (m: EventMask)
        ensures
            m.bits == self.bits & !EXTENDED_BITS,
            !has_extended(m.bits),
            m@ == self@.filter(|kind: EventKind| !kind.spec_is_extended()),
    {
        let m = EventMask { bits: self.bits & !EXTENDED_BITS };
        proof {
            lemma_without_extended(self.bits, EventKind::Open);
            assert forall|kind: EventKind|
                m@.contains(kind) <==> self@.filter(
                    |kind: EventKind| !kind.spec_is_extended(),
                ).contains(kind) by {
                lemma_without_extended(self.bits, kind);
            }
            assert(m@ =~= self@.filter(|kind: EventKind| !kind.spec_is_extended()));
        }
        m
    }

    /// The kinds of the mask in reporting order, each once.
    pub fn kinds(&self) -> (out: Vec<EventKind>)
        ensures
            out@ == kinds_of(self.bits),
    {
        let mut out: Vec<EventKind> = Vec::new();
        if self.contains(EventKind::AttributeChange) {
            out.push(EventKind::AttributeChange);
        }
        if self.contains(EventKind::Open) {
            out.push(EventKind::Open);
        }
        if self.contains(EventKind::Modify) {
            out.push(EventKind::Modify);
        }
        if self.contains(EventKind::CloseAfterWrite) {
            out.push(EventKind::CloseAfterWrite);
        }
        if self.contains(EventKind::Create) {
            out.push(EventKind::Create);
        }
        if self.contains(EventKind::Delete) {
            out.push(EventKind::Delete);
        }
        assert(out@ =~= kinds_of(self.bits));
        out
    }
}

/// The mask without bits holds no kind.
pub proof fn lemma_zero_has_nothing()
    ensures
        forall|kind: EventKind| !has_kind(0, kind),
{
    assert forall|kind: EventKind| !has_kind(0, kind) by {
        let b = kind.spec_bit();
        assert(0u64 & b == 0) by (bit_vector);
    }
}

/// The bit of a kind is set in itself and in the bit of no other kind.
proof fn lemma_single_bit(kind: EventKind)
    ensures
        forall|k: EventKind| has_kind(kind.spec_bit(), k) <==> k == kind,
{
    assert(0x1u64 & 0x1 != 0 && 0x1u64 & 0x2 == 0 && 0x1u64 & 0x4 == 0 && 0x1u64 & 0x8 == 0
        && 0x1u64 & 0x100 == 0 && 0x1u64 & 0x200 == 0) by (bit_vector);
    assert(0x2u64 & 0x1 == 0 && 0x2u64 & 0x2 != 0 && 0x2u64 & 0x4 == 0 && 0x2u64 & 0x8 == 0
        && 0x2u64 & 0x100 == 0 && 0x2u64 & 0x200 == 0) by (bit_vector);
    assert(0x4u64 & 0x1 == 0 && 0x4u64 & 0x2 == 0 && 0x4u64 & 0x4 != 0 && 0x4u64 & 0x8 == 0
        && 0x4u64 & 0x100 == 0 && 0x4u64 & 0x200 == 0) by (bit_vector);
    assert(0x8u64 & 0x1 == 0 && 0x8u64 & 0x2 == 0 && 0x8u64 & 0x4 == 0 && 0x8u64 & 0x8 != 0
        && 0x8u64 & 0x100 == 0 && 0x8u64 & 0x200 == 0) by (bit_vector);
    assert(0x100u64 & 0x1 == 0 && 0x100u64 & 0x2 == 0 && 0x100u64 & 0x4 == 0 && 0x100u64 & 0x8
        == 0 && 0x100u64 & 0x100 != 0 && 0x100u64 & 0x200 == 0) by (bit_vector);
    assert(0x200u64 & 0x1 == 0 && 0x200u64 & 0x2 == 0 && 0x200u64 & 0x4 == 0 && 0x200u64 & 0x8
        == 0 && 0x200u64 & 0x100 == 0 && 0x200u64 & 0x200 != 0) by (bit_vector);
}

proof fn lemma_or_has(a: u64, b: u64, m: u64)
    by (bit_vector)
    ensures
        (a | b) & m != 0 <==> (a & m != 0 || b & m != 0),
{
}

/// Clearing the bits of `b` keeps a one-bit test `m` exactly where `b` lacks it.
proof fn lemma_and_not_has(a: u64, b: u64, m: u64)
    by (bit_vector)
    requires
        m == 0x1 || m == 0x2 || m == 0x4 || m == 0x8 || m == 0x100 || m == 0x200,
    ensures
        (a & !b) & m != 0 <==> (a & m != 0 && b & m == 0),
{
}

proof fn lemma_and_bits(a: u64, b: u64, m: u64)
    by (bit_vector)
    requires
        m == 0x1 || m == 0x2 || m == 0x4 || m == 0x8 || m == 0x100 || m == 0x200,
    ensures
        (a & b) & m != 0 <==> (a & m != 0 && b & m != 0),
{
}

proof fn lemma_and_has(a: u64, b: u64, kind: EventKind)
    ensures
        has_kind(a & b, kind) <==> has_kind(a, kind) && has_kind(b, kind),
{
    lemma_and_bits(a, b, kind.spec_bit());
}

proof fn lemma_known_keeps(bits: u64, kind: EventKind)
    ensures
        has_kind(bits & KNOWN_BITS, kind) <==> has_kind(bits, kind),
{
    let m = kind.spec_bit();
    assert((bits & 0x30f) & m != 0 <==> bits & m != 0) by (bit_vector)
        requires
            m == 0x1 || m == 0x2 || m == 0x4 || m == 0x8 || m == 0x100 || m == 0x200,
    ;
}

/// Some bit of [`KNOWN_BITS`] is set exactly when the bit of some kind is.
proof fn lemma_known_bits_cover(bits: u64)
    ensures
        bits & KNOWN_BITS != 0 <==> exists|kind: EventKind| has_kind(bits, kind),
{
    assert(bits & 0x30f != 0 <==> (bits & 0x1 != 0 || bits & 0x2 != 0 || bits & 0x4 != 0 || bits
        & 0x8 != 0 || bits & 0x100 != 0 || bits & 0x200 != 0)) by (bit_vector);
    if bits & KNOWN_BITS != 0 {
        let kind = if bits & 0x1 != 0 {
            EventKind::Open
        } else if bits & 0x2 != 0 {
            EventKind::Modify
        } else if bits & 0x4 != 0 {
            EventKind::AttributeChange
        } else if bits & 0x8 != 0 {
            EventKind::CloseAfterWrite
        } else if bits & 0x100 != 0 {
            EventKind::Create
        } else {
            EventKind::Delete
        };
        assert(has_kind(bits, kind));
    }
}

proof fn lemma_known_closed_under_insert(bits: u64, kind: EventKind)
    requires
        bits & !KNOWN_BITS == 0,
    ensures
        (bits | kind.spec_bit()) & !KNOWN_BITS == 0,
{
    let m = kind.spec_bit();
    assert((bits | m) & !0x30fu64 == 0) by (bit_vector)
        requires
            bits & !0x30fu64 == 0,
            m == 0x1 || m == 0x2 || m == 0x4 || m == 0x8 || m == 0x100 || m == 0x200,
    ;
}

/// Clearing the extended bits takes the extended kinds out and leaves the others.
pub proof fn lemma_without_extended(bits: u64, kind: EventKind)
    ensures
        !has_extended(bits & !EXTENDED_BITS),
        has_kind(bits & !EXTENDED_BITS, kind) <==> has_kind(bits, kind)
            && !kind.spec_is_extended(),
{
    let r = bits & !EXTENDED_BITS;
    assert(r & 0x4 == 0 && r & 0x100 == 0 && r & 0x200 == 0 && (r & 0x1 != 0 <==> bits & 0x1 != 0)
        && (r & 0x2 != 0 <==> bits & 0x2 != 0) && (r & 0x8 != 0 <==> bits & 0x8 != 0))
        by (bit_vector)
        requires
            r == bits & !0x304u64,
    ;
}

/// A mask holds an extended kind exactly when it holds a kind that is extended.
pub proof fn lemma_has_extended(bits: u64)
    ensures
        has_extended(bits) <==> exists|kind: EventKind|
            has_kind(bits, kind) && kind.spec_is_extended(),
{
    if has_extended(bits) {
        let kind = if has_kind(bits, EventKind::AttributeChange) {
            EventKind::AttributeChange
        } else if has_kind(bits, EventKind::Create) {
            EventKind::Create
        } else {
            EventKind::Delete
        };
        assert(has_kind(bits, kind) && kind.spec_is_extended());
    }
}

/// Two masks without bits of no kind that hold the same kinds are one mask.
pub proof fn lemma_kinds_determine_mask(a: u64, b: u64)
    requires
        a & !KNOWN_BITS == 0,
        b & !KNOWN_BITS == 0,
        forall|kind: EventKind| has_kind(a, kind) == has_kind(b, kind),
    ensures
        a == b,
{
    assert(has_kind(a, EventKind::Open) == has_kind(b, EventKind::Open));
    assert(has_kind(a, EventKind::Modify) == has_kind(b, EventKind::Modify));
    assert(has_kind(a, EventKind::AttributeChange) == has_kind(b, EventKind::AttributeChange));
    assert(has_kind(a, EventKind::CloseAfterWrite) == has_kind(b, EventKind::CloseAfterWrite));
    assert(has_kind(a, EventKind::Create) == has_kind(b, EventKind::Create));
    assert(has_kind(a, EventKind::Delete) == has_kind(b, EventKind::Delete));
    assert(a == b) by (bit_vector)
        requires
            a & !0x30fu64 == 0,
            b & !0x30fu64 == 0,
            (a & 0x1 != 0) == (b & 0x1 != 0),
            (a & 0x2 != 0) == (b & 0x2 != 0),
            (a & 0x4 != 0) == (b & 0x4 != 0),
            (a & 0x8 != 0) == (b & 0x8 != 0),
            (a & 0x100 != 0) == (b & 0x100 != 0),
            (a & 0x200 != 0) == (b & 0x200 != 0),
    ;
}

/// A kind is among the kinds decoded from `bits` exactly when its bit is set:
/// every bit that is set is reported, whatever other bits accompany it, and no
/// kind is reported whose bit is clear.
pub proof fn lemma_kinds_complete(bits: u64, kind: EventKind)
    ensures
        kinds_of(bits).contains(kind) <==> has_kind(bits, kind),
{
    let p0 = pick(bits, EventKind::AttributeChange);
    let p1 = pick(bits, EventKind::Open);
    let p2 = pick(bits, EventKind::Modify);
    let p3 = pick(bits, EventKind::CloseAfterWrite);
    let p4 = pick(bits, EventKind::Create);
    let p5 = pick(bits, EventKind::Delete);
    lemma_pick_contains(bits, EventKind::AttributeChange, kind);
    lemma_pick_contains(bits, EventKind::Open, kind);
    lemma_pick_contains(bits, EventKind::Modify, kind);
    lemma_pick_contains(bits, EventKind::CloseAfterWrite, kind);
    lemma_pick_contains(bits, EventKind::Create, kind);
    lemma_pick_contains(bits, EventKind::Delete, kind);
    lemma_concat_contains(p0, p1, kind);
    lemma_concat_contains(p0 + p1, p2, kind);
    lemma_concat_contains(p0 + p1 + p2, p3, kind);
    lemma_concat_contains(p0 + p1 + p2 + p3, p4, kind);
    lemma_concat_contains(p0 + p1 + p2 + p3 + p4, p5, kind);
}

proof fn lemma_pick_contains(bits: u64, kind: EventKind, x: EventKind)
    ensures
        pick(bits, kind).contains(x) <==> has_kind(bits, kind) && x == kind,
{
    if has_kind(bits, kind) {
        assert(pick(bits, kind)[0] == kind);
    }
}

proof fn lemma_concat_contains(a: Seq<EventKind>, b: Seq<EventKind>, x: EventKind)
    ensures
        (a + b).contains(x) <==> a.contains(x) || b.contains(x),
{
    if a.contains(x) {
        let i = choose|i: int| 0 <= i < a.len() && a[i] == x;
        assert((a + b)[i] == x);
    }
    if b.contains(x) {
        let i = choose|i: int| 0 <= i < b.len() && b[i] == x;
        assert((a + b)[a.len() + i] == x);
    }
    if (a + b).contains(x) {
        let i = choose|i: int| 0 <= i < (a + b).len() && (a + b)[i] == x;
        if i < a.len() {
            assert(a[i] == x);
        } else {
            assert(b[i - a.len()] == x);
        }
    }
}

/// The kinds decoded from `bits` come in strictly rising reporting order, so
/// none comes twice; and each of them has its bit set.
pub proof fn lemma_kinds_ranked(bits: u64)
    ensures
        forall|i: int, j: int|
            0 <= i < j < kinds_of(bits).len() ==> rank(#[trigger] kinds_of(bits)[i]) < rank(
                #[trigger] kinds_of(bits)[j],
            ),
        forall|i: int| 0 <= i < kinds_of(bits).len() ==> has_kind(bits, #[trigger] kinds_of(bits)[i]),
        kinds_of(bits).no_duplicates(),
        kinds_of(bits).len() <= 6,
{
    let all = kinds_of(bits);
    assert forall|i: int, j: int| 0 <= i < j < all.len() implies rank(#[trigger] all[i]) < rank(
        #[trigger] all[j],
    ) by {}
    assert forall|i: int| 0 <= i < all.len() implies has_kind(bits, #[trigger] all[i]) by {}
}

} // verus!
