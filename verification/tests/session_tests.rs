use fanwatch::errno::ErrnoCodes;
use fanwatch::session::{
    open_session, InitCall, InitError, InitErrorKind, OpenMode, Session, SessionConfig,
    FAN_CLASS_NOTIF, FAN_CLOEXEC, FAN_NONBLOCK,
};

#[test]
fn platform_codes_are_those_of_libc() {
    let codes = ErrnoCodes::platform();
    assert_eq!(codes.eperm, libc::EPERM);
    assert_eq!(codes.enosys, libc::ENOSYS);
    assert_eq!(codes.einval, libc::EINVAL);
    assert_eq!(codes.enomem, libc::ENOMEM);
    assert_eq!(codes.enospc, libc::ENOSPC);
    assert_eq!(codes.emfile, libc::EMFILE);
    assert_eq!(codes.enfile, libc::ENFILE);
    assert_eq!(codes.enoent, libc::ENOENT);
    assert_eq!(codes.ebadf, libc::EBADF);
    assert_eq!(codes.enotdir, libc::ENOTDIR);
    assert_eq!(codes.eintr, libc::EINTR);
    assert_eq!(codes.eagain, libc::EAGAIN);
}

#[test]
fn platform_codes_are_the_numbers_of_linux() {
    let codes = ErrnoCodes::platform();
    assert!(codes.enosys == 38 || codes.enosys == 89 || codes.enosys == 90);
    assert_eq!(
        codes,
        ErrnoCodes {
            eperm: 1,
            enosys: codes.enosys,
            einval: 22,
            enomem: 12,
            enospc: 28,
            emfile: 24,
            enfile: 23,
            enoent: 2,
            ebadf: 9,
            enotdir: 20,
            eintr: 4,
            eagain: 11,
        }
    );
}

#[test]
fn platform_codes_are_told_apart() {
    let codes = ErrnoCodes::platform();
    let all = [
        codes.eperm,
        codes.enosys,
        codes.einval,
        codes.enomem,
        codes.enospc,
        codes.emfile,
        codes.enfile,
        codes.enoent,
        codes.ebadf,
        codes.enotdir,
        codes.eintr,
        codes.eagain,
    ];
    for (i, a) in all.iter().enumerate() {
        assert!(*a > 0);
        for b in &all[i + 1..] {
            assert_ne!(a, b);
        }
    }
}

#[test]
fn session_flags_have_their_values() {
    assert_eq!(FAN_CLASS_NOTIF, 0);
    assert_eq!(FAN_CLOEXEC, 1);
    assert_eq!(FAN_NONBLOCK, 2);
}

#[test]
fn standard_options_ask_for_notification_with_close_on_exec() {
    let config = SessionConfig::standard();
    assert_eq!(
        config,
        SessionConfig { close_on_exec: true, non_blocking: false, event_open_mode: OpenMode::ReadOnly }
    );
    assert_eq!(config.init_call(), InitCall { flags: 0x1, event_flags: 0 });
    assert_eq!(config.init_call().event_flags, libc::O_RDONLY as u32);
}

#[test]
fn init_flags_for_every_combination() {
    let flags = |close_on_exec: bool, non_blocking: bool| {
        SessionConfig { close_on_exec, non_blocking, event_open_mode: OpenMode::ReadOnly }
            .init_call()
            .flags
    };
    assert_eq!(flags(false, false), 0);
    assert_eq!(flags(true, false), 1);
    assert_eq!(flags(false, true), 2);
    assert_eq!(flags(true, true), 3);
}

#[test]
fn open_modes_are_the_open_flags_of_libc() {
    assert_eq!(OpenMode::ReadOnly.flags(), libc::O_RDONLY as u32);
    assert_eq!(OpenMode::WriteOnly.flags(), libc::O_WRONLY as u32);
    assert_eq!(OpenMode::ReadWrite.flags(), libc::O_RDWR as u32);
    assert_eq!(OpenMode::ReadOnly.flags(), 0);
    assert_eq!(OpenMode::WriteOnly.flags(), 1);
    assert_eq!(OpenMode::ReadWrite.flags(), 2);
    let config =
        SessionConfig { close_on_exec: false, non_blocking: false, event_open_mode: OpenMode::ReadWrite };
    assert_eq!(config.init_call().event_flags, 2);
}

#[test]
fn successful_call_gives_a_session() {
    let codes = ErrnoCodes::platform();
    let config = SessionConfig::standard();
    assert_eq!(open_session(config, 3, 0, &codes), Ok(Session { fd: 3, config, open: true }));
    assert_eq!(
        open_session(config, 0, libc::EPERM, &codes),
        Ok(Session { fd: 0, config, open: true })
    );
}

#[test]
fn failed_call_is_classified_by_its_error_number() {
    let codes = ErrnoCodes::platform();
    let config = SessionConfig::standard();
    let kind = |errno: i32| open_session(config, -1, errno, &codes).unwrap_err().kind;
    assert_eq!(kind(libc::EPERM), InitErrorKind::PermissionDenied);
    assert_eq!(kind(libc::ENOSYS), InitErrorKind::Unsupported);
    assert_eq!(kind(libc::EINVAL), InitErrorKind::InvalidConfiguration);
    assert_eq!(kind(libc::EMFILE), InitErrorKind::ResourceExhausted);
    assert_eq!(kind(libc::ENFILE), InitErrorKind::ResourceExhausted);
    assert_eq!(kind(libc::ENOMEM), InitErrorKind::ResourceExhausted);
    assert_eq!(kind(libc::EIO), InitErrorKind::Other);
    assert_eq!(kind(0), InitErrorKind::Other);
}

#[test]
fn init_error_keeps_the_error_number() {
    let codes = ErrnoCodes::platform();
    assert_eq!(
        open_session(SessionConfig::standard(), -1, libc::EPERM, &codes),
        Err(InitError { kind: InitErrorKind::PermissionDenied, errno: libc::EPERM })
    );
    assert_eq!(
        InitError::from_errno(libc::EIO, &codes),
        InitError { kind: InitErrorKind::Other, errno: libc::EIO }
    );
}

#[test]
fn classification_follows_the_table_it_is_given() {
    let codes = ErrnoCodes {
        eperm: 101,
        enosys: 102,
        einval: 103,
        enomem: 104,
        enospc: 105,
        emfile: 106,
        enfile: 107,
        enoent: 108,
        ebadf: 109,
        enotdir: 110,
        eintr: 111,
        eagain: 112,
    };
    assert_eq!(InitError::from_errno(101, &codes).kind, InitErrorKind::PermissionDenied);
    assert_eq!(InitError::from_errno(102, &codes).kind, InitErrorKind::Unsupported);
    assert_eq!(InitError::from_errno(103, &codes).kind, InitErrorKind::InvalidConfiguration);
    assert_eq!(InitError::from_errno(104, &codes).kind, InitErrorKind::ResourceExhausted);
    assert_eq!(InitError::from_errno(105, &codes).kind, InitErrorKind::Other);
    assert_eq!(InitError::from_errno(1, &codes).kind, InitErrorKind::Other);
}

#[test]
fn any_negative_result_is_a_failure() {
    let codes = ErrnoCodes::platform();
    let outcome = open_session(SessionConfig::standard(), i32::MIN, libc::EINVAL, &codes);
    assert_eq!(outcome.unwrap_err().kind, InitErrorKind::InvalidConfiguration);
}

#[test]
fn session_is_closed_once() {
    let codes = ErrnoCodes::platform();
    let mut session = open_session(SessionConfig::standard(), 3, 0, &codes).unwrap();
    assert!(session.is_usable());
    assert_eq!(session.close(), Some(3));
    assert!(!session.is_usable());
    assert_eq!(session.close(), None);
    assert_eq!(session.fd, 3);
    assert!(!session.open);
}

#[test]
fn session_without_descriptor_is_not_usable() {
    let mut session = Session { fd: -1, config: SessionConfig::standard(), open: true };
    assert!(!session.is_usable());
    assert_eq!(session.close(), None);
    assert!(!session.open);
}

#[test]
fn abandoned_session_hands_out_no_descriptor() {
    let mut session = Session { fd: 3, config: SessionConfig::standard(), open: true };
    session.abandon();
    assert_eq!(session, Session { fd: 3, config: SessionConfig::standard(), open: false });
    assert!(!session.is_usable());
    assert_eq!(session.close(), None);
    session.abandon();
    assert_eq!(session, Session { fd: 3, config: SessionConfig::standard(), open: false });
}
