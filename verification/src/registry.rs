//! The watch registry: which marks the session carries, how a mark is asked
//! for, and what a failure to set one means.

use vstd::prelude::*;
use vstd::utf8::encode_utf8;
use crate::errno::ErrnoCodes;
use crate::mask::{
    has_extended, has_kind, lemma_without_extended, lemma_zero_has_nothing, EventKind, EventMask,
    EXTENDED_BITS, KNOWN_BITS,
};
use crate::session::Session;

verus! {

/// Mark flag: add the kinds of the mask to the mark.
pub const FAN_MARK_ADD: u32 = 0x0000_0001;

/// Mark flag: take the kinds of the mask out of the mark.
pub const FAN_MARK_REMOVE: u32 = 0x0000_0002;

/// Mark flag: fail unless the target is a directory.
pub const FAN_MARK_ONLYDIR: u32 = 0x0000_0008;

/// In place of a directory descriptor: paths are relative to the working directory.
pub const AT_FDCWD: i32 = -100;

/// What is watched.
#[derive(Clone, Debug, PartialEq, Eq)]
pub enum WatchTarget {
    /// The directory at this path. Setting the mark fails if it is no directory.
    Directory(String),
    /// The object at this path.
    File(String),
    /// The object that this descriptor is open on.
    Descriptor(i32),
}

/// The mathematical value of a [`WatchTarget`].
pub enum TargetId {
    Directory(Seq<char>),
    File(Seq<char>),
    Descriptor(i32),
}

impl View for WatchTarget {
    type V = TargetId;

    open spec fn view(&self) -> TargetId {
        match self {
            WatchTarget::Directory(path) => TargetId::Directory(path@),
            WatchTarget::File(path) => TargetId::File(path@),
            WatchTarget::Descriptor(fd) => TargetId::Descriptor(*fd),
        }
    }
}

/// Whether a mark call adds kinds or takes them out.
#[derive(Clone, Copy, Debug, PartialEq, Eq, Structural, Hash)]
pub enum MarkAction {
    Add,
    Remove,
}

/// The arguments of one mark call.
#[derive(Clone, Debug, PartialEq, Eq)]
pub struct MarkCall {
    /// The descriptor of the session.
    pub session_fd: i32,
    /// The action and its modifiers.
    pub flags: u32,
    /// The kinds, as mask bits.
    pub mask: u64,
    /// The descriptor of the target, or [`AT_FDCWD`] where a path names it.
    pub dirfd: i32,
    /// The path of the target, or `None` where the descriptor alone names it.
    pub path: Option<String>,
}

/// The mathematical value of a [`MarkCall`].
pub struct MarkCallView {
    pub session_fd: i32,
    pub flags: u32,
    pub mask: u64,
    pub dirfd: i32,
    pub path: Option<Seq<char>>,
}

impl View for MarkCall {
    type V = MarkCallView;

    open spec fn view(&self) -> MarkCallView {
        MarkCallView {
            session_fd: self.session_fd,
            flags: self.flags,
            mask: self.mask,
            dirfd: self.dirfd,
            path: match self.path {
                Some(path) => Some(path@),
                None => None,
            },
        }
    }
}

/// Why a mark could not be set or changed.
#[derive(Clone, Copy, Debug, PartialEq, Eq, Structural, Hash)]
pub enum WatchErrorKind {
    /// The caller lacks the privilege or capability that the mark takes.
    PermissionDenied,
    /// The kernel has no such notification facility.
    Unsupported,
    /// The request makes no sense: no usable session, no kind in the mask, or
    /// arguments that the kernel rejected.
    InvalidConfiguration,
    /// A limit on marks or memory was reached.
    ResourceExhausted,
    /// The target does not name an object that can be watched.
    TargetNotFound,
    /// The kernel rejected a mask that asks for a kind it may not know. A mask
    /// without such kinds may succeed.
    UnsupportedEventKind,
    /// Any other failure.
    Other,
}

/// A failure to set or change a mark.
#[derive(Clone, Copy, Debug, PartialEq, Eq, Structural, Hash)]
pub struct WatchError {
    /// What kind of failure it was.
    pub kind: WatchErrorKind,
    /// The error number that the system gave; 0 where the request was refused
    /// before any call was made.
    pub errno: i32,
}

/// Two masks that carry a mark from one set of kinds to another.
#[derive(Clone, Copy, Debug, PartialEq, Eq, Structural, Hash)]
pub struct ModifyPlan {
    /// The kinds to add to the mark. Where empty, no call is needed.
    pub add: EventMask,
    /// The kinds to take out of the mark after that. Where empty, no call is needed.
    pub remove: EventMask,
}

/// One mark of the registry.
#[derive(Clone, Debug, PartialEq, Eq)]
pub struct Watch {
    /// What is watched.
    pub target: WatchTarget,
    /// The kinds that are watched on it.
    pub mask: EventMask,
}

/// The session and the marks that were set on it.
#[derive(Debug)]
pub struct WatchRegistry {
    session: Session,
    watches: Vec<Watch>,
}

/// Whether a path can name a target: it is not empty and holds no zero byte.
pub open spec fn valid_path(path: Seq<char>) -> bool {
    let bytes = encode_utf8(path);
    bytes.len() > 0 && forall|i: int| 0 <= i < bytes.len() ==> bytes[i] != 0
}

/// Whether a target can be handed to a mark call at all.
pub open spec fn valid_target(target: TargetId) -> bool {
    match target {
        TargetId::Directory(path) => valid_path(path),
        TargetId::File(path) => valid_path(path),
        TargetId::Descriptor(fd) => fd >= 0,
    }
}

/// What the error number of a failed mark call means. An invalid-argument
/// failure is laid to the mask where the mask holds a kind that the kernel may
/// not know, and to the request as a whole otherwise.
pub open spec fn watch_error_kind(errno: i32, mask: u64, codes: ErrnoCodes) -> WatchErrorKind {
    if errno == codes.eperm {
        WatchErrorKind::PermissionDenied
    } else if errno == codes.enosys {
        WatchErrorKind::Unsupported
    } else if errno == codes.einval {
        if has_extended(mask) {
            WatchErrorKind::UnsupportedEventKind
        } else {
            WatchErrorKind::InvalidConfiguration
        }
    } else if errno == codes.enomem || errno == codes.enospc {
        WatchErrorKind::ResourceExhausted
    } else if errno == codes.enoent || errno == codes.ebadf || errno == codes.enotdir {
        WatchErrorKind::TargetNotFound
    } else {
        WatchErrorKind::Other
    }
}

/// The reason for which a request is refused before any call is made, if there
/// is one: a session that is not usable, a mask without any kind, or a target
/// that cannot be named to the kernel, looked for in this order.
pub open spec fn refusal(session: Session, target: TargetId, mask: u64) -> Option<WatchError> {
    if !session.spec_is_usable() {
        Some(WatchError { kind: WatchErrorKind::InvalidConfiguration, errno: 0 })
    } else if mask & KNOWN_BITS == 0 {
        Some(WatchError { kind: WatchErrorKind::InvalidConfiguration, errno: 0 })
    } else if !valid_target(target) {
        Some(WatchError { kind: WatchErrorKind::TargetNotFound, errno: 0 })
    } else {
        None
    }
}

/// The flag of an action.
pub open spec fn action_flag(action: MarkAction) -> u32 {
    match action {
        MarkAction::Add => FAN_MARK_ADD,
        MarkAction::Remove => FAN_MARK_REMOVE,
    }
}

/// The arguments of the mark call for a request that is not refused.
pub open spec fn mark_call_of(session: Session, action: MarkAction, target: TargetId, mask: u64) -> MarkCallView {
    match target {
        TargetId::Directory(path) => MarkCallView {
            session_fd: session.fd,
            flags: (action_flag(action) + FAN_MARK_ONLYDIR) as u32,
            mask: mask & KNOWN_BITS,
            dirfd: AT_FDCWD,
            path: Some(path),
        },
        TargetId::File(path) => MarkCallView {
            session_fd: session.fd,
            flags: action_flag(action),
            mask: mask & KNOWN_BITS,
            dirfd: AT_FDCWD,
            path: Some(path),
        },
        TargetId::Descriptor(fd) => MarkCallView {
            session_fd: session.fd,
            flags: action_flag(action),
            mask: mask & KNOWN_BITS,
            dirfd: fd,
            path: None,
        },
    }
}

/// The kinds of a mark after the kinds of `mask` were added to it.
pub open spec fn after_add(bits: u64, mask: u64) -> u64 {
    bits | (mask & KNOWN_BITS)
}

/// The kinds of a mark after the kinds of `mask` were taken out of it.
pub open spec fn after_remove(bits: u64, mask: u64) -> u64 {
    bits & !mask
}

/// The plan that carries a mark from the kinds `current` to the kinds of `wanted`.
pub open spec fn plan_of(current: u64, wanted: u64) -> ModifyPlan {
    ModifyPlan {
        add: EventMask { bits: (wanted & KNOWN_BITS) & !current },
        remove: EventMask { bits: current & !wanted },
    }
}

/// The view of the outcome of asking for a mark call.
pub open spec fn call_view(outcome: Result<MarkCall, WatchError>) -> Result<MarkCallView, WatchError> {
    match outcome {
        Ok(call) => Ok(call@),
        Err(error) => Err(error),
    }
}

spec fn holds(watches: Seq<Watch>, id: TargetId) -> bool {
    exists|i: int| 0 <= i < watches.len() && (#[trigger] watches[i]).target@ == id
}

spec fn bits_in(watches: Seq<Watch>, id: TargetId) -> u64 {
    if holds(watches, id) {
        let i = choose|i: int| 0 <= i < watches.len() && (#[trigger] watches[i]).target@ == id;
        watches[i].mask.bits
    } else {
        0
    }
}

spec fn distinct(watches: Seq<Watch>) -> bool {
    forall|i: int, j: int|
        0 <= i < j < watches.len() ==> (#[trigger] watches[i]).target@ != (
        #[trigger] watches[j]).target@
}

spec fn clean(watches: Seq<Watch>) -> bool {
    forall|i: int|
        0 <= i < watches.len() ==> (#[trigger] watches[i]).mask.bits != 0 && watches[i].mask.bits
            & !KNOWN_BITS == 0
}

proof fn lemma_bits_at(watches: Seq<Watch>, i: int)
    requires
        distinct(watches),
        0 <= i < watches.len(),
    ensures
        holds(watches, watches[i].target@),
        bits_in(watches, watches[i].target@) == watches[i].mask.bits,
{
    let id = watches[i].target@;
    assert(holds(watches, id));
    let j = choose|j: int| 0 <= j < watches.len() && (#[trigger] watches[j]).target@ == id;
    if j < i {
        assert(watches[j].target@ != watches[i].target@);
    }
    if i < j {
        assert(watches[i].target@ != watches[j].target@);
    }
}

proof fn lemma_update(watches: Seq<Watch>, i: int, watch: Watch)
    requires
        distinct(watches),
        0 <= i < watches.len(),
        watch.target@ == watches[i].target@,
    ensures
        distinct(watches.update(i, watch)),
        forall|id: TargetId| #[trigger]
            bits_in(watches.update(i, watch), id) == if id == watch.target@ {
                watch.mask.bits
            } else {
                bits_in(watches, id)
            },
{
    let after = watches.update(i, watch);
    assert forall|a: int, b: int| 0 <= a < b < after.len() implies (#[trigger] after[a]).target@
        != (#[trigger] after[b]).target@ by {
        assert(after[a].target@ == watches[a].target@);
        assert(after[b].target@ == watches[b].target@);
    }
    assert forall|id: TargetId| #[trigger]
        bits_in(after, id) == if id == watch.target@ {
            watch.mask.bits
        } else {
            bits_in(watches, id)
        } by {
        if id == watch.target@ {
            lemma_bits_at(after, i);
        } else if holds(watches, id) {
            let j = choose|j: int| 0 <= j < watches.len() && (#[trigger] watches[j]).target@ == id;
            lemma_bits_at(watches, j);
            assert(after[j] == watches[j]);
            lemma_bits_at(after, j);
        } else if holds(after, id) {
            let j = choose|j: int| 0 <= j < after.len() && (#[trigger] after[j]).target@ == id;
            assert(watches[j].target@ == id);
        }
    }
}

proof fn lemma_push(watches: Seq<Watch>, watch: Watch)
    requires
        distinct(watches),
        !holds(watches, watch.target@),
    ensures
        distinct(watches.push(watch)),
        forall|id: TargetId| #[trigger]
            bits_in(watches.push(watch), id) == if id == watch.target@ {
                watch.mask.bits
            } else {
                bits_in(watches, id)
            },
{
    let after = watches.push(watch);
    let last = watches.len() as int;
    assert forall|a: int, b: int| 0 <= a < b < after.len() implies (#[trigger] after[a]).target@
        != (#[trigger] after[b]).target@ by {
        assert(after[a] == watches[a]);
        if b < last {
            assert(after[b] == watches[b]);
        }
    }
    assert forall|id: TargetId| #[trigger]
        bits_in(after, id) == if id == watch.target@ {
            watch.mask.bits
        } else {
            bits_in(watches, id)
        } by {
        if id == watch.target@ {
            assert(after[last] == watch);
            lemma_bits_at(after, last);
        } else if holds(watches, id) {
            let j = choose|j: int| 0 <= j < watches.len() && (#[trigger] watches[j]).target@ == id;
            lemma_bits_at(watches, j);
            assert(after[j] == watches[j]);
            lemma_bits_at(after, j);
        } else if holds(after, id) {
            let j = choose|j: int| 0 <= j < after.len() && (#[trigger] after[j]).target@ == id;
            assert(after[j] == watches[j]);
        }
    }
}

proof fn lemma_remove(watches: Seq<Watch>, i: int)
    requires
        distinct(watches),
        0 <= i < watches.len(),
    ensures
        distinct(watches.remove(i)),
        forall|id: TargetId| #[trigger]
            bits_in(watches.remove(i), id) == if id == watches[i].target@ {
                0
            } else {
                bits_in(watches, id)
            },
{
    let after = watches.remove(i);
    assert forall|a: int| 0 <= a < after.len() implies #[trigger] after[a] == watches[if a < i {
        a
    } else {
        a + 1
    }] by {}
    assert forall|a: int, b: int| 0 <= a < b < after.len() implies (#[trigger] after[a]).target@
        != (#[trigger] after[b]).target@ by {
        let a0 = if a < i {
            a
        } else {
            a + 1
        };
        let b0 = if b < i {
            b
        } else {
            b + 1
        };
        assert(after[a] == watches[a0]);
        assert(after[b] == watches[b0]);
        assert(watches[a0].target@ != watches[b0].target@);
    }
    assert forall|id: TargetId| #[trigger]
        bits_in(after, id) == if id == watches[i].target@ {
            0
        } else {
            bits_in(watches, id)
        } by {
        if holds(after, id) {
            let j = choose|j: int| 0 <= j < after.len() && (#[trigger] after[j]).target@ == id;
            let j0 = if j < i {
                j
            } else {
                j + 1
            };
            assert(after[j] == watches[j0]);
            if j0 < i {
                assert(watches[j0].target@ != watches[i].target@);
            } else {
                assert(watches[i].target@ != watches[j0].target@);
            }
            lemma_bits_at(after, j);
            lemma_bits_at(watches, j0);
        } else if id != watches[i].target@ && holds(watches, id) {
            let j0 = choose|j: int| 0 <= j < watches.len() && (#[trigger] watches[j]).target@ == id;
            let j = if j0 < i {
                j0
            } else {
                j0 - 1
            };
            assert(after[j] == watches[j0]);
            assert(holds(after, id));
        }
    }
}

fn path_is_valid(path: &String) -> (b: bool)
    ensures
        b == valid_path(path@),
{
    let bytes = path.as_str().as_bytes();
    if bytes.len() == 0 {
        return false;
    }
    let mut i: usize = 0;
    while i < bytes.len()
        invariant
            i <= bytes@.len(),
            bytes@ == encode_utf8(path@),
            forall|j: int| 0 <= j < i ==> bytes@[j] != 0,
        decreases bytes@.len() - i,
    {
        if bytes[i] == 0 {
            return false;
        }
        i = i + 1;
    }
    true
}

impl WatchTarget {
    /// Whether this target can be handed to a mark call at all.
    pub fn is_valid(&self) -> (b: bool)
        ensures
            b == valid_target(self@),
    {
        match self {
            WatchTarget::Directory(path) => path_is_valid(path),
            WatchTarget::File(path) => path_is_valid(path),
            WatchTarget::Descriptor(fd) => *fd >= 0,
        }
    }

    /// Whether two targets name the same thing in the same way.
    pub fn same_as(&self, other: &WatchTarget) -> (b: bool)
        ensures
            b == (self@ == other@),
    {
        match (self, other) {
            (WatchTarget::Directory(a), WatchTarget::Directory(b)) => *a == *b,
            (WatchTarget::File(a), WatchTarget::File(b)) => *a == *b,
            (WatchTarget::Descriptor(a), WatchTarget::Descriptor(b)) => *a == *b,
            _ => false,
        }
    }

    /// A copy of this target.
    pub fn duplicate(&self) -> (copy: WatchTarget)
        ensures
            copy@ == self@,
    {
        match self {
            WatchTarget::Directory(path) => WatchTarget::Directory(path.clone()),
            WatchTarget::File(path) => WatchTarget::File(path.clone()),
            WatchTarget::Descriptor(fd) => WatchTarget::Descriptor(*fd),
        }
    }
}

impl WatchError {
    /// Classifies the error number of a failed mark call that was made with `mask`.
    pub fn from_errno(errno: i32, mask: EventMask, codes: &ErrnoCodes) -> (error: WatchError)
        ensures
            error == (WatchError { kind: watch_error_kind(errno, mask.bits, *codes), errno }),
    {
        let kind = if errno == codes.eperm {
            WatchErrorKind::PermissionDenied
        } else if errno == codes.enosys {
            WatchErrorKind::Unsupported
        } else if errno == codes.einval {
            if mask.has_extended() {
                WatchErrorKind::UnsupportedEventKind
            } else {
                WatchErrorKind::InvalidConfiguration
            }
        } else if errno == codes.enomem || errno == codes.enospc {
            WatchErrorKind::ResourceExhausted
        } else if errno == codes.enoent || errno == codes.ebadf || errno == codes.enotdir {
            WatchErrorKind::TargetNotFound
        } else {
            WatchErrorKind::Other
        };
        WatchError { kind, errno }
    }

    /// Whether the same request may succeed with fewer kinds or less privilege:
    /// the kernel rejected a kind of the mask, or the caller may not ask for it.
    pub open spec fn spec_suggests_reduced_mask(self) -> bool {
        self.kind == WatchErrorKind::UnsupportedEventKind || self.kind
            == WatchErrorKind::PermissionDenied
    }

    /// Whether the same request may succeed with fewer kinds.
    pub fn suggests_reduced_mask(&self) -> (b: bool)
        ensures
            b == self.spec_suggests_reduced_mask(),
    {
        match self.kind {
            WatchErrorKind::UnsupportedEventKind | WatchErrorKind::PermissionDenied => true,
            _ => false,
        }
    }
}

fn check_request(session: &Session, target: &WatchTarget, mask: EventMask) -> (r: Option<WatchError>)
    ensures
        r == refusal(*session, target@, mask.bits),
{
    if !session.is_usable() {
        return Some(WatchError { kind: WatchErrorKind::InvalidConfiguration, errno: 0 });
    }
    if mask.is_empty() {
        return Some(WatchError { kind: WatchErrorKind::InvalidConfiguration, errno: 0 });
    }
    if !target.is_valid() {
        return Some(WatchError { kind: WatchErrorKind::TargetNotFound, errno: 0 });
    }
    None
}

/// The arguments of the call that carries out `action` on the mark of `target`
/// with the kinds of `mask`, or the reason for which no call is to be made.
pub fn mark_call(session: &Session, action: MarkAction, target: &WatchTarget, mask: EventMask) -> (outcome:
    Result<MarkCall, WatchError>)
    ensures
        call_view(outcome) == match refusal(*session, target@, mask.bits) {
            Some(error) => Err(error),
            None => Ok(mark_call_of(*session, action, target@, mask.bits)),
        },
{
    if let Some(error) = check_request(session, target, mask) {
        return Err(error);
    }
    let flag: u32 = match action {
        MarkAction::Add => FAN_MARK_ADD,
        MarkAction::Remove => FAN_MARK_REMOVE,
    };
    let bits = mask.known().bits();
    let call = match target {
        WatchTarget::Directory(path) => MarkCall {
            session_fd: session.fd,
            flags: flag + FAN_MARK_ONLYDIR,
            mask: bits,
            dirfd: AT_FDCWD,
            path: Some(path.clone()),
        },
        WatchTarget::File(path) => MarkCall {
            session_fd: session.fd,
            flags: flag,
            mask: bits,
            dirfd: AT_FDCWD,
            path: Some(path.clone()),
        },
        WatchTarget::Descriptor(fd) => MarkCall {
            session_fd: session.fd,
            flags: flag,
            mask: bits,
            dirfd: *fd,
            path: None,
        },
    };
    Ok(call)
}

impl WatchRegistry {
    /// The invariant of the registry: no target has two marks, and every mark
    /// holds at least one kind and no bit that stands for none.
    pub closed spec fn wf(&self) -> bool {
        distinct(self.watches@) && clean(self.watches@)
    }

    /// The session of the registry.
    pub closed spec fn spec_session(&self) -> Session {
        self.session
    }

    /// The kinds that are watched on a target, as mask bits; 0 where the target
    /// has no mark.
    pub closed spec fn mask_of(&self, id: TargetId) -> u64 {
        bits_in(self.watches@, id)
    }

    /// How many targets have a mark.
    pub closed spec fn spec_len(&self) -> nat {
        self.watches@.len()
    }

    /// A registry without marks on `session`.
    pub fn new(session: Session) -> (registry: WatchRegistry)
        ensures
            registry.wf(),
            registry@ == (RegistryView { session, marks: Map::empty() }),
            registry.spec_session() == session,
            registry.spec_len() == 0,
            forall|id: TargetId| #[trigger] registry.mask_of(id) == 0,
    {
        let registry = WatchRegistry { session, watches: Vec::new() };
        proof {
            assert(registry@.marks =~= Map::<TargetId, EventMask>::empty());
        }
        registry
    }

    /// The session of the registry.
    pub fn session(&self) -> (session: &Session)
        ensures
            *session == self.spec_session(),
    {
        &self.session
    }

    /// Ends the session, and with it every mark that was set on it. Gives the
    /// descriptor to close the first time, and nothing after that. Where the
    /// descriptor is known to be closed already, [`WatchRegistry::abandon`] ends
    /// the session instead.
    pub fn close(&mut self) -> (fd: Option<i32>)
        ensures
            final(self).wf(),
            final(self)@ == (RegistryView {
                session: old(self).spec_session().closed(),
                marks: Map::empty(),
            }),
            final(self).spec_session() == old(self).spec_session().closed(),
            fd == if old(self).spec_session().spec_is_usable() {
                Some(old(self).spec_session().fd)
            } else {
                None
            },
            final(self).spec_len() == 0,
            forall|id: TargetId| #[trigger] final(self).mask_of(id) == 0,
    {
        self.watches.clear();
        let fd = self.session.close();
        proof {
            assert(self@.marks =~= Map::<TargetId, EventMask>::empty());
        }
        fd
    }

    /// Ends a session whose descriptor is closed already, and with it every
    /// mark that was set on it. This is the step to take after a read that
    /// stopped on a closed descriptor: no descriptor is handed out, so that none
    /// is closed a second time.
    pub fn abandon(&mut self)
        ensures
            final(self).wf(),
            final(self)@ == (RegistryView {
                session: old(self).spec_session().closed(),
                marks: Map::empty(),
            }),
            final(self).spec_session() == old(self).spec_session().closed(),
            final(self).spec_len() == 0,
            forall|id: TargetId| #[trigger] final(self).mask_of(id) == 0,
    {
        self.watches.clear();
        self.session.abandon();
        proof {
            assert(self@.marks =~= Map::<TargetId, EventMask>::empty());
        }
    }

    /// The marks of the registry, each target once.
    pub fn watches(&self) -> (out: Vec<Watch>)
        requires
            self.wf(),
        ensures
            out@.len() == self.spec_len(),
            forall|i: int|
                0 <= i < out@.len() ==> (#[trigger] out@[i]).mask.bits != 0 && self.mask_of(
                    out@[i].target@,
                ) == out@[i].mask.bits,
            forall|i: int, j: int|
                0 <= i < j < out@.len() ==> (#[trigger] out@[i]).target@ != (
                #[trigger] out@[j]).target@,
            forall|id: TargetId|
                self.mask_of(id) != 0 ==> exists|i: int|
                    0 <= i < out@.len() && (#[trigger] out@[i]).target@ == id,
    {
        let mut out: Vec<Watch> = Vec::new();
        let mut k: usize = 0;
        while k < self.watches.len()
            invariant
                k <= self.watches@.len(),
                out@.len() == k,
                forall|i: int|
                    0 <= i < k ==> (#[trigger] out@[i]).target@ == self.watches@[i].target@
                        && out@[i].mask == self.watches@[i].mask,
            decreases self.watches@.len() - k,
        {
            let watch = Watch {
                target: self.watches[k].target.duplicate(),
                mask: self.watches[k].mask,
            };
            out.push(watch);
            k = k + 1;
        }
        proof {
            let watches = self.watches@;
            assert forall|i: int| 0 <= i < out@.len() implies (#[trigger] out@[i]).mask.bits != 0
                && self.mask_of(out@[i].target@) == out@[i].mask.bits by {
                lemma_bits_at(watches, i);
                assert(watches[i].mask.bits != 0);
            }
            assert forall|i: int, j: int| 0 <= i < j < out@.len() implies (#[trigger] out@[i]).target@
                != (#[trigger] out@[j]).target@ by {
                assert(watches[i].target@ != watches[j].target@);
            }
            assert forall|id: TargetId| self.mask_of(id) != 0 implies exists|i: int|
                0 <= i < out@.len() && (#[trigger] out@[i]).target@ == id by {
                assert(holds(watches, id));
                let i = choose|i: int| 0 <= i < watches.len() && (#[trigger] watches[i]).target@ == id;
                assert(out@[i].target@ == id);
            }
        }
        out
    }

    /// How many targets have a mark.
    pub fn len(&self) -> (n: usize)
        ensures
            n == self.spec_len(),
    {
        self.watches.len()
    }

    fn find(&self, target: &WatchTarget) -> (found: Option<usize>)
        ensures
            match found {
                Some(i) => i < self.watches@.len() && self.watches@[i as int].target@ == target@,
                None => !holds(self.watches@, target@),
            },
    {
        let mut i: usize = 0;
        while i < self.watches.len()
            invariant
                i <= self.watches@.len(),
                forall|j: int| 0 <= j < i ==> (#[trigger] self.watches@[j]).target@ != target@,
            decreases self.watches@.len() - i,
        {
            if self.watches[i].target.same_as(target) {
                return Some(i);
            }
            i = i + 1;
        }
        None
    }

    /// The kinds that are watched on `target`; none where it has no mark.
    pub fn mask_for(&self, target: &WatchTarget) -> (mask: EventMask)
        requires
            self.wf(),
        ensures
            mask.bits == self.mask_of(target@),
    {
        match self.find(target) {
            Some(i) => {
                proof {
                    lemma_bits_at(self.watches@, i as int);
                }
                self.watches[i].mask
            },
            None => EventMask::empty(),
        }
    }

    /// All the kinds that are watched on any target: what events can report.
    pub fn interest(&self) -> (mask: EventMask)
        requires
            self.wf(),
        ensures
            forall|kind: EventKind|
                has_kind(mask.bits, kind) <==> exists|id: TargetId| #[trigger]
                    has_kind(self.mask_of(id), kind),
            mask.bits & !KNOWN_BITS == 0,
    {
        let mut mask = EventMask::empty();
        let mut i: usize = 0;
        proof {
            lemma_zero_has_nothing();
            assert(0u64 & !KNOWN_BITS == 0) by (bit_vector);
        }
        while i < self.watches.len()
            invariant
                i <= self.watches@.len(),
                mask.bits & !KNOWN_BITS == 0,
                clean(self.watches@),
                forall|kind: EventKind|
                    has_kind(mask.bits, kind) <==> exists|j: int|
                        0 <= j < i && has_kind((#[trigger] self.watches@[j]).mask.bits, kind),
            decreases self.watches@.len() - i,
        {
            let ghost before = mask;
            mask = mask.union(self.watches[i].mask);
            proof {
                let added = self.watches@[i as int].mask.bits;
                let had = before.bits;
                assert((had | added) & !KNOWN_BITS == 0) by (bit_vector)
                    requires
                        had & !KNOWN_BITS == 0,
                        added & !KNOWN_BITS == 0,
                ;
                assert forall|kind: EventKind|
                    has_kind(mask.bits, kind) <==> exists|j: int|
                        0 <= j < i + 1 && has_kind((#[trigger] self.watches@[j]).mask.bits, kind) by {
                    assert(mask@.contains(kind) <==> before@.contains(kind)
                        || self.watches@[i as int].mask@.contains(kind));
                    if has_kind(before.bits, kind) {
                        let j = choose|j: int|
                            0 <= j < i && has_kind((#[trigger] self.watches@[j]).mask.bits, kind);
                        assert(0 <= j < i + 1 && has_kind(self.watches@[j].mask.bits, kind));
                    }
                    if has_kind(added, kind) {
                        assert(0 <= i < i + 1 && has_kind(self.watches@[i as int].mask.bits, kind));
                    }
                }
            }
            i = i + 1;
        }
        proof {
            assert forall|kind: EventKind|
                has_kind(mask.bits, kind) <==> exists|id: TargetId| #[trigger]
                    has_kind(self.mask_of(id), kind) by {
                if has_kind(mask.bits, kind) {
                    let j = choose|j: int|
                        0 <= j < i && has_kind((#[trigger] self.watches@[j]).mask.bits, kind);
                    lemma_bits_at(self.watches@, j);
                    assert(has_kind(self.mask_of(self.watches@[j].target@), kind));
                }
                if exists|id: TargetId| #[trigger] has_kind(self.mask_of(id), kind) {
                    let id = choose|id: TargetId| #[trigger] has_kind(self.mask_of(id), kind);
                    assert(holds(self.watches@, id));
                    let j = choose|j: int|
                        0 <= j < self.watches@.len() && (#[trigger] self.watches@[j]).target@ == id;
                    lemma_bits_at(self.watches@, j);
                    assert(has_kind(self.watches@[j].mask.bits, kind));
                }
            }
        }
        mask
    }

    /// Takes in the outcome of the call that adds the kinds of `mask` to the mark
    /// of `target`: `result` is what the call returned and `errno` the error
    /// number that stood after it. Where the request is one that [`mark_call`]
    /// refuses, that refusal is returned, whatever the outcome says.
    pub fn add_watch(
        &mut self,
        target: &WatchTarget,
        mask: EventMask,
        result: i32,
        errno: i32,
        codes: &ErrnoCodes,
    ) -> (outcome: Result<(), WatchError>)
        requires
            old(self).wf(),
        ensures
            final(self).wf(),
            final(self).spec_session() == old(self).spec_session(),
            outcome == match refusal(old(self).spec_session(), target@, mask.bits) {
                Some(error) => Err(error),
                None => if result >= 0 {
                    Ok(())
                } else {
                    Err(WatchError { kind: watch_error_kind(errno, mask.bits, *codes), errno })
                },
            },
            forall|id: TargetId| #[trigger]
                final(self).mask_of(id) == if outcome.is_ok() && id == target@ {
                    after_add(old(self).mask_of(id), mask.bits)
                } else {
                    old(self).mask_of(id)
                },
    {
        if let Some(error) = check_request(&self.session, target, mask) {
            return Err(error);
        }
        if result < 0 {
            return Err(WatchError::from_errno(errno, mask, codes));
        }
        let added = mask.known();
        let ghost before = self.watches@;
        match self.find(target) {
            Some(i) => {
                let merged = self.watches[i].mask.union(added);
                proof {
                    lemma_bits_at(before, i as int);
                    let old_bits = before[i as int].mask.bits;
                    let add_bits = added.bits;
                    let asked = mask.bits;
                    assert((old_bits | add_bits) != 0 && (old_bits | add_bits) & !KNOWN_BITS == 0)
                        by (bit_vector)
                        requires
                            old_bits != 0,
                            old_bits & !KNOWN_BITS == 0,
                            add_bits == asked & KNOWN_BITS,
                    ;
                }
                self.watches[i].mask = merged;
                proof {
                    lemma_update(before, i as int, self.watches@[i as int]);
                    assert(self.watches@ =~= before.update(i as int, self.watches@[i as int]));
                }
            },
            None => {
                let watch = Watch { target: target.duplicate(), mask: added };
                self.watches.push(watch);
                proof {
                    let add_bits = added.bits;
                    let asked = mask.bits;
                    assert(add_bits & !KNOWN_BITS == 0 && 0u64 | add_bits == add_bits)
                        by (bit_vector)
                        requires
                            add_bits == asked & KNOWN_BITS,
                    ;
                    lemma_push(before, watch);
                }
            },
        }
        Ok(())
    }

    /// Takes in the outcome of the call that takes the kinds of `mask` out of
    /// the mark of `target`. A mark that is left without kinds leaves the
    /// registry. Where the request is one that [`mark_call`] refuses, that refusal
    /// is returned, whatever the outcome says.
    pub fn remove_watch(
        &mut self,
        target: &WatchTarget,
        mask: EventMask,
        result: i32,
        errno: i32,
        codes: &ErrnoCodes,
    ) -> (outcome: Result<(), WatchError>)
        requires
            old(self).wf(),
        ensures
            final(self).wf(),
            final(self).spec_session() == old(self).spec_session(),
            outcome == match refusal(old(self).spec_session(), target@, mask.bits) {
                Some(error) => Err(error),
                None => if result >= 0 {
                    Ok(())
                } else {
                    Err(WatchError { kind: watch_error_kind(errno, mask.bits, *codes), errno })
                },
            },
            forall|id: TargetId| #[trigger]
                final(self).mask_of(id) == if outcome.is_ok() && id == target@ {
                    after_remove(old(self).mask_of(id), mask.bits)
                } else {
                    old(self).mask_of(id)
                },
    {
        if let Some(error) = check_request(&self.session, target, mask) {
            return Err(error);
        }
        if result < 0 {
            return Err(WatchError::from_errno(errno, mask, codes));
        }
        let ghost before = self.watches@;
        match self.find(target) {
            Some(i) => {
                let left = self.watches[i].mask.difference(mask);
                proof {
                    lemma_bits_at(before, i as int);
                    let old_bits = before[i as int].mask.bits;
                    let gone = mask.bits;
                    assert((old_bits & !gone) & !KNOWN_BITS == 0) by (bit_vector)
                        requires
                            old_bits & !KNOWN_BITS == 0,
                    ;
                }
                if left.bits() == 0 {
                    self.watches.remove(i);
                    proof {
                        lemma_remove(before, i as int);
                        assert forall|a: int| 0 <= a < self.watches@.len() implies #[trigger]
                            self.watches@[a] == before[if a < i {
                                a
                            } else {
                                a + 1
                            }] by {}
                    }
                } else {
                    self.watches[i].mask = left;
                    proof {
                        lemma_update(before, i as int, self.watches@[i as int]);
                        assert(self.watches@ =~= before.update(i as int, self.watches@[i as int]));
                    }
                }
            },
            None => {
                proof {
                    let gone = mask.bits;
                    assert(0u64 & !gone == 0) by (bit_vector);
                }
            },
        }
        Ok(())
    }

    /// Plans how to bring the mark of `target` to exactly the kinds of `mask`:
    /// which kinds to add with one call and which to take out with another.
    /// Fails where [`mark_call`] refuses the request, and with
    /// [`WatchErrorKind::TargetNotFound`] where `target` has no mark to modify.
    pub fn modify_watch(&self, target: &WatchTarget, mask: EventMask) -> (outcome: Result<
        ModifyPlan,
        WatchError,
    >)
        requires
            self.wf(),
        ensures
            outcome == match refusal(self.spec_session(), target@, mask.bits) {
                Some(error) => Err(error),
                None => if self.mask_of(target@) == 0 {
                    Err(WatchError { kind: WatchErrorKind::TargetNotFound, errno: 0 })
                } else {
                    Ok(plan_of(self.mask_of(target@), mask.bits))
                },
            },
    {
        if let Some(error) = check_request(&self.session, target, mask) {
            return Err(error);
        }
        match self.find(target) {
            Some(i) => {
                proof {
                    lemma_bits_at(self.watches@, i as int);
                }
                let current = self.watches[i].mask;
                Ok(
                    ModifyPlan {
                        add: mask.known().difference(current),
                        remove: current.difference(mask),
                    },
                )
            },
            None => Err(WatchError { kind: WatchErrorKind::TargetNotFound, errno: 0 }),
        }
    }
}

/// The mathematical value of a [`WatchRegistry`].
pub struct RegistryView {
    /// The session.
    pub session: Session,
    /// Each target that has a mark, with its kinds.
    pub marks: Map<TargetId, EventMask>,
}

impl View for WatchRegistry {
    type V = RegistryView;

    /// The session of the registry and its marks.
    open spec fn view(&self) -> RegistryView {
        RegistryView {
            session: self.spec_session(),
            marks: Map::new(
                |id: TargetId| self.mask_of(id) != 0,
                |id: TargetId| EventMask { bits: self.mask_of(id) },
            ),
        }
    }
}

/// Every mark of a registry holds kinds only: no bit that stands for none.
pub proof fn lemma_marks_hold_kinds_only(registry: WatchRegistry, id: TargetId)
    requires
        registry.wf(),
    ensures
        registry.mask_of(id) & !KNOWN_BITS == 0,
{
    let watches = registry.watches@;
    if holds(watches, id) {
        let i = choose|i: int| 0 <= i < watches.len() && (#[trigger] watches[i]).target@ == id;
        lemma_bits_at(watches, i);
    } else {
        assert(0u64 & !KNOWN_BITS == 0) by (bit_vector);
    }
}

/// Carrying out a plan brings the mark to exactly the kinds that were wanted:
/// first the call that adds, then the call that removes. The plan adds nothing
/// that the mark holds already, removes nothing that it lacks, and never adds
/// and removes the same kind.
pub proof fn lemma_plan_reaches_wanted(current: u64, wanted: u64)
    requires
        current & !KNOWN_BITS == 0,
    ensures
        after_remove(
            after_add(current, plan_of(current, wanted).add.bits),
            plan_of(current, wanted).remove.bits,
        ) == wanted & KNOWN_BITS,
        plan_of(current, wanted).add.bits & current == 0,
        plan_of(current, wanted).remove.bits & !current == 0,
        plan_of(current, wanted).add.bits & plan_of(current, wanted).remove.bits == 0,
{
    let add = (wanted & KNOWN_BITS) & !current;
    let remove = current & !wanted;
    assert(((current | (add & 0x30f)) & !remove) == wanted & 0x30f && add & current == 0 && remove
        & !current == 0 && add & remove == 0) by (bit_vector)
        requires
            current & !0x30fu64 == 0,
            add == (wanted & 0x30f) & !current,
            remove == current & !wanted,
    ;
}

/// A mark holds every kind that was added to it, and keeps what it held.
pub proof fn lemma_added_kinds_are_held(bits: u64, mask: u64, kind: EventKind)
    ensures
        has_kind(after_add(bits, mask), kind) <==> has_kind(bits, kind) || has_kind(mask, kind),
{
    let bit = kind.spec_bit();
    assert((bits | (mask & 0x30f)) & bit != 0 <==> (bits & bit != 0 || mask & bit != 0))
        by (bit_vector)
        requires
            bit == 0x1 || bit == 0x2 || bit == 0x4 || bit == 0x8 || bit == 0x100 || bit == 0x200,
    ;
}

/// A mark holds a kind after a removal exactly when it held the kind before
/// and the kind was not among those taken out.
pub proof fn lemma_removed_kinds_are_gone(bits: u64, mask: u64, kind: EventKind)
    ensures
        has_kind(after_remove(bits, mask), kind) <==> has_kind(bits, kind) && !has_kind(
            mask,
            kind,
        ),
{
    let bit = kind.spec_bit();
    assert((bits & !mask) & bit != 0 <==> (bits & bit != 0 && mask & bit == 0)) by (bit_vector)
        requires
            bit == 0x1 || bit == 0x2 || bit == 0x4 || bit == 0x8 || bit == 0x100 || bit == 0x200,
    ;
}

/// Adding the same kinds twice is the same as adding them once, and taking
/// out what was just added leaves what was there before without those kinds.
pub proof fn lemma_add_and_remove(bits: u64, mask: u64)
    ensures
        after_add(after_add(bits, mask), mask) == after_add(bits, mask),
        after_remove(after_add(bits, mask), mask) == after_remove(bits, mask),
        after_remove(after_remove(bits, mask), mask) == after_remove(bits, mask),
{
    assert(((bits | (mask & 0x30f)) | (mask & 0x30f)) == (bits | (mask & 0x30f)) && ((bits | (mask
        & 0x30f)) & !mask) == (bits & !mask) && ((bits & !mask) & !mask) == (bits & !mask))
        by (bit_vector);
}

/// A mask without extended kinds is never refused as holding an unsupported
/// kind: after a retry with the reduced mask, that failure cannot come again.
pub proof fn lemma_reduced_mask_is_supported(errno: i32, mask: u64, codes: ErrnoCodes)
    ensures
        watch_error_kind(errno, mask & !EXTENDED_BITS, codes)
            != WatchErrorKind::UnsupportedEventKind,
{
    lemma_without_extended(mask, EventKind::Open);
}

} // verus!
