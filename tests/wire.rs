use jb::error::UserError;
use jb::format::{decimal, relative_time, truncate};
use jb::frame::{decode_header, encode_frame, FrameError, MAX_MESSAGE_LEN};
use jb::paths::{join_path, Paths};
use jb::supervisor::{
    final_update, group_target, kill_process_group, pick_event, step, timer_secs, Event, ExitInfo,
    GroupSignal, Outcome, Phase, Step, GRACEFUL_SHUTDOWN_SECS,
};
use jb::job::Status;
use jb::tail::tail_offset;

#[test]
fn frame_of_exactly_ten_mib_is_accepted() {
    let n = 10 * 1024 * 1024;
    let h = (n as u32).to_be_bytes();
    assert_eq!(decode_header(&h), Ok(n));
    let h1 = ((n + 1) as u32).to_be_bytes();
    assert_eq!(decode_header(&h1), Err(FrameError::TooLarge));
    assert_eq!(decode_header(&[0xff, 0xff, 0xff, 0xff]), Err(FrameError::TooLarge));
    assert_eq!(decode_header(&[0, 0, 0, 0]), Ok(0));
}

#[test]
fn encode_frame_prefixes_big_endian_length() {
    let f = encode_frame(&b"{\"Ping\":null}".to_vec()).unwrap();
    assert_eq!(&f[..4], &[0, 0, 0, 13]);
    assert_eq!(&f[4..], b"{\"Ping\":null}");
    let big = vec![7u8; 300];
    let f = encode_frame(&big).unwrap();
    assert_eq!(&f[..4], &[0, 0, 1, 44]);
    assert_eq!(f.len(), 304);
    let limit = vec![0u8; MAX_MESSAGE_LEN];
    assert_eq!(encode_frame(&limit).unwrap().len(), MAX_MESSAGE_LEN + 4);
    let over = vec![0u8; MAX_MESSAGE_LEN + 1];
    assert_eq!(encode_frame(&over), Err(FrameError::TooLarge));
}

#[test]
fn tail_returns_last_lines_or_all() {
    let c = b"a\nb\nc\n".to_vec();
    assert_eq!(&c[tail_offset(&c, 1)..], b"c\n");
    assert_eq!(&c[tail_offset(&c, 2)..], b"b\nc\n");
    assert_eq!(&c[tail_offset(&c, 3)..], b"a\nb\nc\n");
    assert_eq!(&c[tail_offset(&c, 10)..], b"a\nb\nc\n");
    assert_eq!(tail_offset(&c, 0), c.len());
    let d = b"a\nb".to_vec();
    assert_eq!(&d[tail_offset(&d, 1)..], b"b");
    let e: Vec<u8> = Vec::new();
    assert_eq!(tail_offset(&e, 3), 0);
    let blank = b"\n\n".to_vec();
    assert_eq!(&blank[tail_offset(&blank, 1)..], b"\n");
}

#[test]
fn supervisor_priorities_and_escalation() {
    let exit = Some(Some(ExitInfo { success: true, code: Some(0) }));
    assert_eq!(pick_event(true, true, exit), Some(Event::Stop));
    assert_eq!(pick_event(false, true, exit), Some(Event::Timer));
    assert_eq!(pick_event(false, false, exit), Some(Event::Exit(Some(ExitInfo { success: true, code: Some(0) }))));
    assert_eq!(pick_event(false, false, None), None);

    assert_eq!(step(Phase::Watching, Event::Timer), Step::Escalate(GroupSignal::Terminate, Phase::Grace));
    assert_eq!(step(Phase::Grace, Event::Timer), Step::Finish(Some(GroupSignal::Kill), Outcome::Timeout));
    assert_eq!(step(Phase::Grace, Event::Stop), Step::Finish(None, Outcome::Stopped));
    assert_eq!(step(Phase::Grace, Event::Exit(None)), Step::Finish(None, Outcome::Completed(None)));
    assert_eq!(timer_secs(Phase::Watching, Some(1)), Some(1));
    assert_eq!(timer_secs(Phase::Watching, None), None);
    assert_eq!(timer_secs(Phase::Grace, Some(60)), Some(GRACEFUL_SHUTDOWN_SECS));

    assert_eq!(final_update(Outcome::Stopped), None);
    assert_eq!(final_update(Outcome::Timeout), Some((Status::Stopped, None)));
    assert_eq!(
        final_update(Outcome::Completed(Some(ExitInfo { success: false, code: Some(2) }))),
        Some((Status::Failed, Some(2)))
    );
}

#[test]
fn group_signal_targets() {
    assert_eq!(group_target(0, true), None);
    assert_eq!(group_target(u32::MAX, false), None);
    assert_eq!(group_target(1234, true), Some((1234, GroupSignal::Kill)));
    assert_eq!(group_target(1234, false), Some((1234, GroupSignal::Terminate)));
    kill_process_group(0, true);
}

#[test]
fn paths_under_root() {
    let p = Paths::with_root("/home/u/.jb".to_string());
    assert_eq!(p.root(), "/home/u/.jb");
    assert_eq!(p.database(), "/home/u/.jb/job.db");
    assert_eq!(p.logs_dir(), "/home/u/.jb/logs");
    assert_eq!(p.log_file("ab12"), "/home/u/.jb/logs/ab12.log");
    assert_eq!(p.socket(), "/home/u/.jb/daemon.sock");
    assert_eq!(p.pid_file(), "/home/u/.jb/daemon.pid");
    assert_eq!(join_path("/a/", "b"), "/a/b");
    assert_eq!(join_path("", "b"), "b");
    assert_eq!(join_path("/a", "/b"), "/b");
    if let Some(home) = Paths::new() {
        assert!(home.root().ends_with("/.jb"));
    }
}

#[test]
fn formatting_helpers() {
    assert_eq!(decimal(0), "0");
    assert_eq!(decimal(1234567), "1234567");
    assert_eq!(truncate("hello", 10), "hello");
    assert_eq!(truncate("hello world, long command", 8), "hello...");
    assert_eq!(truncate("héllo wörld", 5), "hé...");
    assert_eq!(truncate("abcdef", 2), "...");
    assert_eq!(relative_time(30), "just now");
    assert_eq!(relative_time(-5), "just now");
    assert_eq!(relative_time(120), "2m ago");
    assert_eq!(relative_time(7200), "2h ago");
    assert_eq!(relative_time(3 * 86400 + 5), "3d ago");
}

#[test]
fn user_error_rendering() {
    let e = UserError::new("No job found".to_string());
    assert_eq!(e.render(), "No job found");
    let e = e.with_hint("run `jb list`".to_string());
    assert_eq!(e.render(), "No job found\n\nTip: run `jb list`");
}
