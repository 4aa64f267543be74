//! The notification session: how it is asked for and what a failure to get it means.

use vstd::prelude::*;
use crate::errno::ErrnoCodes;

verus! {

/// Session flag: plain notification, without permission decisions.
pub const FAN_CLASS_NOTIF: u32 = 0x0000_0000;

/// Session flag: close the session descriptor when the process executes another program.
pub const FAN_CLOEXEC: u32 = 0x0000_0001;

/// Session flag: reads from the session do not block.
pub const FAN_NONBLOCK: u32 = 0x0000_0002;

/// How the descriptors that come with events are opened.
#[derive(Clone, Copy, Debug, PartialEq, Eq, Structural, Hash)]
pub enum OpenMode {
    ReadOnly,
    WriteOnly,
    ReadWrite,
}

/// The options of a session.
#[derive(Clone, Copy, Debug, PartialEq, Eq, Structural, Hash)]
pub struct SessionConfig {
    /// Close the session descriptor on exec.
    pub close_on_exec: bool,
    /// Reads return at once when no event is waiting.
    pub non_blocking: bool,
    /// Open mode of the descriptors that come with events.
    pub event_open_mode: OpenMode,
}

/// The two arguments of the call that creates a session.
#[derive(Clone, Copy, Debug, PartialEq, Eq, Structural, Hash)]
pub struct InitCall {
    /// Notification class and session flags.
    pub flags: u32,
    /// Open flags of the descriptors that come with events.
    pub event_flags: u32,
}

/// Why a session could not be created.
#[derive(Clone, Copy, Debug, PartialEq, Eq, Structural, Hash)]
pub enum InitErrorKind {
    /// The caller lacks the privilege or capability that a session takes.
    PermissionDenied,
    /// The kernel has no such notification facility.
    Unsupported,
    /// The kernel rejected the combination of flags.
    InvalidConfiguration,
    /// A limit on descriptors, sessions or memory was reached.
    ResourceExhausted,
    /// Any other failure.
    Other,
}

/// A failure to create a session.
#[derive(Clone, Copy, Debug, PartialEq, Eq, Structural, Hash)]
pub struct InitError {
    /// What kind of failure it was.
    pub kind: InitErrorKind,
    /// The error number that the system gave.
    pub errno: i32,
}

/// A notification session. The value stands for the descriptor that the kernel
/// handed out: it is not copied, and [`Session::close`] gives the descriptor up
/// once.
#[derive(Debug, PartialEq, Eq)]
pub struct Session {
    /// The descriptor of the session.
    pub fd: i32,
    /// The options it was created with.
    pub config: SessionConfig,
    /// Whether the descriptor is still to be closed.
    pub open: bool,
}

/// `libc::O_RDONLY`, which `libc` defines as 0 for every Linux target.
#[verifier::external_body]
fn libc_o_rdonly() -> (flag: i32)
    ensures
        flag == 0,
{
    libc::O_RDONLY
}

/// `libc::O_WRONLY`, which `libc` defines as 1 for every Linux target.
#[verifier::external_body]
fn libc_o_wronly() -> (flag: i32)
    ensures
        flag == 1,
{
    libc::O_WRONLY
}

/// `libc::O_RDWR`, which `libc` defines as 2 for every Linux target.
#[verifier::external_body]
fn libc_o_rdwr() -> (flag: i32)
    ensures
        flag == 2,
{
    libc::O_RDWR
}

impl OpenMode {
    /// The open flags that stand for this mode.
    pub open spec fn spec_flags(self) -> u32 {
        match self {
            OpenMode::ReadOnly => 0,
            OpenMode::WriteOnly => 1,
            OpenMode::ReadWrite => 2,
        }
    }

    /// The open flags that stand for this mode.
    pub fn flags(self) -> (flags: u32)
        ensures
            flags == self.spec_flags(),
    {
        let flag: i32 = match self {
            OpenMode::ReadOnly => libc_o_rdonly(),
            OpenMode::WriteOnly => libc_o_wronly(),
            OpenMode::ReadWrite => libc_o_rdwr(),
        };
        flag as u32
    }
}

impl SessionConfig {
    /// The session flags that stand for these options.
    pub open spec fn spec_flags(self) -> u32 {
        (FAN_CLASS_NOTIF + if self.close_on_exec {
            FAN_CLOEXEC
        } else {
            0u32
        } + if self.non_blocking {
            FAN_NONBLOCK
        } else {
            0u32
        }) as u32
    }

    /// The arguments of the call that creates a session with these options.
    pub open spec fn spec_init_call(self) -> InitCall {
        InitCall { flags: self.spec_flags(), event_flags: self.event_open_mode.spec_flags() }
    }

    /// The options that suffice to watch: notification only, descriptor closed
    /// on exec, blocking reads, events opened for reading.
    pub fn standard() -> (config: SessionConfig)
        ensures
            config == (SessionConfig {
                close_on_exec: true,
                non_blocking: false,
                event_open_mode: OpenMode::ReadOnly,
            }),
    {
        SessionConfig { close_on_exec: true, non_blocking: false, event_open_mode: OpenMode::ReadOnly }
    }

    /// The arguments of the call that creates a session with these options.
    pub fn init_call(&self) -> (call: InitCall)
        ensures
            call == self.spec_init_call(),
    {
        let mut flags: u32 = FAN_CLASS_NOTIF;
        if self.close_on_exec {
            flags = flags + FAN_CLOEXEC;
        }
        if self.non_blocking {
            flags = flags + FAN_NONBLOCK;
        }
        InitCall { flags, event_flags: self.event_open_mode.flags() }
    }
}

/// What the error number of a failed session creation means.
pub open spec fn init_error_kind(errno: i32, codes: ErrnoCodes) -> InitErrorKind {
    if errno == codes.eperm {
        InitErrorKind::PermissionDenied
    } else if errno == codes.enosys {
        InitErrorKind::Unsupported
    } else if errno == codes.einval {
        InitErrorKind::InvalidConfiguration
    } else if errno == codes.emfile || errno == codes.enfile || errno == codes.enomem {
        InitErrorKind::ResourceExhausted
    } else {
        InitErrorKind::Other
    }
}

/// What the call that creates a session came to: a session on the descriptor
/// that the call returned, or, where it returned a negative number, the failure
/// that the error number stands for.
pub open spec fn session_of(config: SessionConfig, result: i32, errno: i32, codes: ErrnoCodes) -> Result<
    Session,
    InitError,
> {
    if result >= 0 {
        Ok(Session { fd: result, config, open: true })
    } else {
        Err(InitError { kind: init_error_kind(errno, codes), errno })
    }
}

impl InitError {
    /// Classifies the error number of a failed session creation.
    pub fn from_errno(errno: i32, codes: &ErrnoCodes) -> (error: InitError)
        ensures
            error == (InitError { kind: init_error_kind(errno, *codes), errno }),
    {
        let kind = if errno == codes.eperm {
            InitErrorKind::PermissionDenied
        } else if errno == codes.enosys {
            InitErrorKind::Unsupported
        } else if errno == codes.einval {
            InitErrorKind::InvalidConfiguration
        } else if errno == codes.emfile || errno == codes.enfile || errno == codes.enomem {
            InitErrorKind::ResourceExhausted
        } else {
            InitErrorKind::Other
        };
        InitError { kind, errno }
    }
}

/// Takes in the outcome of the call that creates a session: `result` is what
/// the call returned and `errno` the error number that stood after it.
pub fn open_session(config: SessionConfig, result: i32, errno: i32, codes: &ErrnoCodes) -> (outcome:
    Result<Session, InitError>)
    ensures
        outcome == session_of(config, result, errno, *codes),
{
    if result >= 0 {
        Ok(Session { fd: result, config, open: true })
    } else {
        Err(InitError::from_errno(errno, codes))
    }
}

impl Session {
    /// Whether marks can be set and events read on this session.
    pub open spec fn spec_is_usable(self) -> bool {
        self.open && self.fd >= 0
    }

    /// Whether marks can be set and events read on this session.
    pub fn is_usable(&self) -> (b: bool)
        ensures
            b == self.spec_is_usable(),
    {
        self.open && self.fd >= 0
    }

    /// The session after it was ended.
    pub open spec fn closed(self) -> Session {
        Session { fd: self.fd, config: self.config, open: false }
    }

    /// Ends a session whose descriptor is closed already, as a read that stops
    /// on a closed descriptor shows. No descriptor is handed out, so that none
    /// is closed a second time.
    pub fn abandon(&mut self)
        ensures
            *final(self) == old(self).closed(),
    {
        self.open = false;
    }

    /// Ends the session. Gives the descriptor to close the first time, and
    /// nothing after that, so that it is closed once and never twice. Where the
    /// descriptor is known to be closed already, [`Session::abandon`] ends the
    /// session instead.
    pub fn close(&mut self) -> (fd: Option<i32>)
        ensures
            fd == if old(self).spec_is_usable() {
                Some(old(self).fd)
            } else {
                None
            },
            *final(self) == old(self).closed(),
    {
        let fd = if self.open && self.fd >= 0 {
            Some(self.fd)
        } else {
            None
        };
        self.open = false;
        fd
    }
}

} // verus!
