use fanwatch::decode::{DecodeFault, Decoded, FaultKind, FramedRecord};
use fanwatch::errno::ErrnoCodes;
use fanwatch::event::{Event, Subject};
use fanwatch::mask::{EventKind, EventMask};
use fanwatch::read::{dispatch, read_events, ReadError, ReadStep, READ_BUFFER_LEN};
use fanwatch::session::{Session, SessionConfig};
use fanwatch::wire::RawEventRecord;

fn session() -> Session {
    Session { fd: 3, config: SessionConfig::standard(), open: true }
}

fn header(mask: u64, subject_fd: i32, pid: i32) -> RawEventRecord {
    RawEventRecord {
        total_length: 24,
        version: 3,
        reserved: 0,
        header_length: 24,
        mask,
        subject_fd,
        pid,
    }
}

fn basic() -> EventMask {
    EventMask::from_kinds(&[EventKind::Open, EventKind::Modify, EventKind::CloseAfterWrite])
}

#[test]
fn read_buffer_holds_four_kilobytes() {
    assert_eq!(READ_BUFFER_LEN, 4096);
}

#[test]
fn interrupted_read_is_made_again() {
    let codes = ErrnoCodes::platform();
    let buffer = [0u8; 64];
    assert_eq!(
        read_events(&session(), -1, libc::EINTR, &buffer, &codes),
        ReadStep::Again(ReadError::Interrupted)
    );
}

#[test]
fn read_that_would_block_is_made_again() {
    let codes = ErrnoCodes::platform();
    let buffer = [0u8; 64];
    assert_eq!(
        read_events(&session(), -1, libc::EAGAIN, &buffer, &codes),
        ReadStep::Again(ReadError::WouldBlock)
    );
    assert_eq!(
        read_events(&session(), -1, libc::EWOULDBLOCK, &buffer, &codes),
        ReadStep::Again(ReadError::WouldBlock)
    );
}

#[test]
fn other_failures_end_the_loop() {
    let codes = ErrnoCodes::platform();
    let buffer = [0u8; 64];
    assert_eq!(
        read_events(&session(), -1, libc::EIO, &buffer, &codes),
        ReadStep::Stop(ReadError::Fatal(libc::EIO))
    );
    assert_eq!(
        read_events(&session(), -1, libc::EINVAL, &buffer, &codes),
        ReadStep::Stop(ReadError::Fatal(libc::EINVAL))
    );
}

#[test]
fn read_on_a_closed_descriptor_is_a_shutdown() {
    let codes = ErrnoCodes::platform();
    let buffer = [0u8; 64];
    let step = read_events(&session(), -1, libc::EBADF, &buffer, &codes);
    assert_eq!(step, ReadStep::Stop(ReadError::SessionClosed));
    assert!(!matches!(step, ReadStep::Stop(ReadError::Fatal(_))));
}

#[test]
fn closed_session_ends_the_loop_whatever_was_read() {
    let codes = ErrnoCodes::platform();
    let mut closed = session();
    assert_eq!(closed.close(), Some(3));
    let buffer = header(0x1, 5, 9).to_bytes();
    assert_eq!(
        read_events(&closed, 24, 0, &buffer, &codes),
        ReadStep::Stop(ReadError::SessionClosed)
    );
    assert_eq!(
        read_events(&closed, -1, libc::EINTR, &buffer, &codes),
        ReadStep::Stop(ReadError::SessionClosed)
    );
    assert_eq!(closed.close(), None);
}

#[test]
fn transient_errors_are_the_two_that_pass() {
    assert!(ReadError::Interrupted.is_transient());
    assert!(ReadError::WouldBlock.is_transient());
    assert!(!ReadError::SessionClosed.is_transient());
    assert!(!ReadError::Fatal(5).is_transient());
}

#[test]
fn read_errors_by_error_number() {
    let codes = ErrnoCodes::platform();
    assert_eq!(ReadError::from_errno(libc::EINTR, &codes), ReadError::Interrupted);
    assert_eq!(ReadError::from_errno(libc::EAGAIN, &codes), ReadError::WouldBlock);
    assert_eq!(ReadError::from_errno(libc::EBADF, &codes), ReadError::SessionClosed);
    assert_eq!(ReadError::from_errno(libc::ENOMEM, &codes), ReadError::Fatal(libc::ENOMEM));
    assert_eq!(ReadError::from_errno(0, &codes), ReadError::Fatal(0));
}

#[test]
fn read_of_nothing_gives_no_frames() {
    let codes = ErrnoCodes::platform();
    let buffer = header(0x1, 5, 9).to_bytes();
    assert_eq!(read_events(&session(), 0, 0, &buffer, &codes), ReadStep::Frames(vec![]));
    assert_eq!(read_events(&session(), 0, libc::EINTR, &[], &codes), ReadStep::Frames(vec![]));
}

#[test]
fn only_the_bytes_that_were_read_are_framed() {
    let codes = ErrnoCodes::platform();
    let first = header(0x1, 5, 9);
    let stale = header(0x2, 6, 9);
    let mut buffer = first.to_bytes();
    buffer.extend(stale.to_bytes());
    assert_eq!(
        read_events(&session(), 24, 0, &buffer, &codes),
        ReadStep::Frames(vec![Decoded::Record(FramedRecord { offset: 0, header: first })])
    );
    assert_eq!(
        read_events(&session(), 48, 0, &buffer, &codes),
        ReadStep::Frames(vec![
            Decoded::Record(FramedRecord { offset: 0, header: first }),
            Decoded::Record(FramedRecord { offset: 24, header: stale }),
        ])
    );
    assert_eq!(
        read_events(&session(), 30, 0, &buffer, &codes),
        ReadStep::Frames(vec![
            Decoded::Record(FramedRecord { offset: 0, header: first }),
            Decoded::Fault(DecodeFault {
                kind: FaultKind::TruncatedHeader,
                offset: 24,
                subject_fd: None
            }),
        ])
    );
}

#[test]
fn count_beyond_the_buffer_reads_the_buffer_only() {
    let codes = ErrnoCodes::platform();
    let first = header(0x1, 5, 9);
    let buffer = first.to_bytes();
    assert_eq!(
        read_events(&session(), isize::MAX, 0, &buffer, &codes),
        ReadStep::Frames(vec![Decoded::Record(FramedRecord { offset: 0, header: first })])
    );
}

#[test]
fn malformed_record_is_a_fault_and_the_loop_goes_on() {
    let codes = ErrnoCodes::platform();
    let mut bad = header(0x1, 5, 9);
    bad.total_length = 8;
    let buffer = bad.to_bytes();
    let step = read_events(&session(), 24, 0, &buffer, &codes);
    assert_eq!(
        step,
        ReadStep::Frames(vec![Decoded::Fault(DecodeFault {
            kind: FaultKind::LengthTooSmall,
            offset: 0,
            subject_fd: Some(5)
        })])
    );
    let next = header(0x2, 6, 9).to_bytes();
    assert_eq!(
        read_events(&session(), 24, 0, &next, &codes),
        ReadStep::Frames(vec![Decoded::Record(FramedRecord { offset: 0, header: header(0x2, 6, 9) })])
    );
}

#[test]
fn write_and_close_are_reported_with_path_and_process() {
    let codes = ErrnoCodes::platform();
    let mut buffer = header(0x1, 5, 777).to_bytes();
    buffer.extend(header(0x2, 6, 777).to_bytes());
    buffer.extend(header(0x8, 7, 777).to_bytes());
    let items = match read_events(&session(), 72, 0, &buffer, &codes) {
        ReadStep::Frames(items) => items,
        other => panic!("no frames: {:?}", other),
    };
    let resolved = vec![Some(String::from("/tmp/f")); 3];
    let events = dispatch(&items, basic(), &resolved);
    let path = Subject::Path(String::from("/tmp/f"));
    assert_eq!(
        events,
        vec![
            Ok(Event { pid: 777, kinds: vec![EventKind::Open], subject: path.clone(), version: 3 }),
            Ok(Event { pid: 777, kinds: vec![EventKind::Modify], subject: path.clone(), version: 3 }),
            Ok(Event {
                pid: 777,
                kinds: vec![EventKind::CloseAfterWrite],
                subject: path.clone(),
                version: 3
            }),
        ]
    );
    let released: Vec<Option<i32>> = items.iter().map(|item| item.descriptor()).collect();
    assert_eq!(released, vec![Some(5), Some(6), Some(7)]);
}

#[test]
fn one_record_with_two_kinds_is_one_event() {
    let items = vec![Decoded::Record(FramedRecord { offset: 0, header: header(0xa, 5, 9) })];
    let events = dispatch(&items, basic(), &vec![Some(String::from("/tmp/f"))]);
    assert_eq!(events.len(), 1);
    assert_eq!(
        events[0].as_ref().unwrap().kinds,
        vec![EventKind::Modify, EventKind::CloseAfterWrite]
    );
}

#[test]
fn dispatch_keeps_faults_and_order() {
    let fault = DecodeFault { kind: FaultKind::UnknownVersion, offset: 24, subject_fd: Some(8) };
    let items = vec![
        Decoded::Record(FramedRecord { offset: 0, header: header(0x1, 5, 9) }),
        Decoded::Fault(fault),
        Decoded::Record(FramedRecord { offset: 48, header: header(0x4, 6, 9) }),
        Decoded::Record(FramedRecord { offset: 72, header: header(0x8, -1, 9) }),
    ];
    let resolved = vec![None, None, Some(String::from("/tmp/g")), Some(String::from("/tmp/h"))];
    let events = dispatch(&items, basic(), &resolved);
    assert_eq!(
        events,
        vec![
            Ok(Event {
                pid: 9,
                kinds: vec![EventKind::Open],
                subject: Subject::Descriptor(5),
                version: 3
            }),
            Err(fault),
            Err(DecodeFault { kind: FaultKind::NoMatchingKind, offset: 48, subject_fd: Some(6) }),
            Ok(Event {
                pid: 9,
                kinds: vec![EventKind::CloseAfterWrite],
                subject: Subject::Descriptor(-1),
                version: 3
            }),
        ]
    );
}

#[test]
fn missing_resolutions_count_as_failed() {
    let items = vec![
        Decoded::Record(FramedRecord { offset: 0, header: header(0x1, 5, 9) }),
        Decoded::Record(FramedRecord { offset: 24, header: header(0x1, 6, 9) }),
    ];
    let events = dispatch(&items, basic(), &vec![Some(String::from("/a"))]);
    assert_eq!(events[0].as_ref().unwrap().subject, Subject::Path(String::from("/a")));
    assert_eq!(events[1].as_ref().unwrap().subject, Subject::Descriptor(6));
    assert_eq!(dispatch(&vec![], basic(), &vec![Some(String::from("/a"))]), vec![]);
}

#[test]
fn record_with_invalid_descriptor_gives_the_fallback_and_releases_nothing() {
    let codes = ErrnoCodes::platform();
    let buffer: Vec<u8> = vec![
        0x18, 0, 0, 0, 3, 0, 0x18, 0, 1, 0, 0, 0, 0, 0, 0, 0, 0xff, 0xff, 0xff, 0xff, 7, 0, 0, 0,
    ];
    let items = match read_events(&session(), 24, 0, &buffer, &codes) {
        ReadStep::Frames(items) => items,
        other => panic!("no frames: {:?}", other),
    };
    assert_eq!(items.len(), 1);
    assert_eq!(items[0].descriptor(), None);
    assert_eq!(fanwatch::decode::descriptors(&items), Vec::<i32>::new());
    let events = dispatch(&items, basic(), &vec![None]);
    assert_eq!(
        events,
        vec![Ok(Event {
            pid: 7,
            kinds: vec![EventKind::Open],
            subject: Subject::Descriptor(-1),
            version: 3
        })]
    );
}

#[test]
fn session_that_stopped_on_a_closed_descriptor_is_not_closed_again() {
    let codes = ErrnoCodes::platform();
    let mut stopped = session();
    let buffer = [0u8; 64];
    assert_eq!(
        read_events(&stopped, -1, libc::EBADF, &buffer, &codes),
        ReadStep::Stop(ReadError::SessionClosed)
    );
    stopped.abandon();
    assert!(!stopped.is_usable());
    assert_eq!(stopped.fd, 3);
    assert_eq!(stopped.close(), None);
    assert_eq!(
        read_events(&stopped, 0, 0, &buffer, &codes),
        ReadStep::Stop(ReadError::SessionClosed)
    );
}
