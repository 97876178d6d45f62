use snr9816::command::{Command, NotifyKind, Param};
use snr9816::driver::{
    Action, Event, Phase, PollPolicy, Reply, DEFAULT_BACKOFF_MS, DEFAULT_STATUS_TIMEOUT_MS, SNR9816,
};
use snr9816::error::DriverError;
use snr9816::status::DeviceStatus;
use snr9816::tag::NotifyTag;

const QUERY: [u8; 4] = [0xFD, 0x00, 0x01, 0x21];

/// A stand-in for the serial line and the module behind it.
struct Line {
    wire: Vec<u8>,
    writes: Vec<Vec<u8>>,
    answers: Vec<Option<u8>>,
    cleared: usize,
    reads: usize,
    slept_ms: u64,
    fail_write: Option<usize>,
    steps: Vec<&'static str>,
}

fn line(answers: &[Option<u8>]) -> Line {
    Line {
        wire: Vec::new(),
        writes: Vec::new(),
        answers: answers.to_vec(),
        cleared: 0,
        reads: 0,
        slept_ms: 0,
        fail_write: None,
        steps: Vec::new(),
    }
}

fn carry_out(driver: &mut SNR9816, first: Action, line: &mut Line) -> Result<Reply, DriverError> {
    let mut action = first;
    loop {
        let event = match action {
            Action::ClearLine => {
                line.cleared += 1;
                line.steps.push("clear");
                Event::LineCleared
            }
            Action::Write(bytes) => {
                line.steps.push("write");
                if line.fail_write == Some(line.writes.len()) {
                    line.wire.extend_from_slice(&bytes[..bytes.len() / 2]);
                    Event::WriteFailed
                } else {
                    line.wire.extend_from_slice(&bytes);
                    line.writes.push(bytes);
                    Event::Written
                }
            }
            Action::ReadStatus { timeout_ms } => {
                assert_eq!(timeout_ms, driver.policy().status_timeout_ms);
                line.reads += 1;
                line.steps.push("read");
                let answer = if line.answers.is_empty() { None } else { line.answers.remove(0) };
                Event::Status(answer)
            }
            Action::Backoff { millis } => {
                assert_eq!(millis, driver.policy().backoff_ms);
                line.slept_ms += millis;
                line.steps.push("backoff");
                Event::BackoffElapsed
            }
            Action::Done(outcome) => return outcome,
        };
        action = driver.step(event);
    }
}

fn fresh() -> SNR9816 {
    SNR9816::new("/dev/ttyUSB0".to_string(), 115200)
}

fn speech_frame(text: &str) -> Vec<u8> {
    Command::Speak(text.to_string()).frame().unwrap()
}

#[test]
fn new_driver_is_free_with_standard_policy() {
    let driver = fresh();
    assert_eq!(driver.port(), "/dev/ttyUSB0");
    assert_eq!(driver.baud_rate(), 115200);
    assert_eq!(driver.phase(), Phase::Free);
    assert_eq!(driver.policy(), PollPolicy::standard());
    assert_eq!(DEFAULT_STATUS_TIMEOUT_MS, 10);
    assert_eq!(DEFAULT_BACKOFF_MS, 100);
    assert_eq!(
        PollPolicy::standard(),
        PollPolicy { status_timeout_ms: 10, backoff_ms: 100, max_polls: None }
    );
}

#[test]
fn hello_on_idle_device_is_written_after_one_query() {
    let mut driver = fresh();
    let mut line = line(&[Some(0x4F)]);
    let first = driver.tts("hello".to_string());
    assert_eq!(first, Action::ClearLine);
    let outcome = carry_out(&mut driver, first, &mut line);
    assert_eq!(outcome, Ok(Reply::Sent));
    assert_eq!(line.writes.len(), 2);
    assert_eq!(line.writes[0], QUERY);
    assert_eq!(line.writes[1], vec![0xFD, 0x00, 0x07, 0x01, 0x01, b'h', b'e', b'l', b'l', b'o']);
    assert_eq!(line.steps, vec!["clear", "write", "read", "write"]);
    assert_eq!(line.slept_ms, 0);
    assert_eq!(driver.phase(), Phase::Free);
}

#[test]
fn hello_step_by_step() {
    let mut driver = fresh();
    assert_eq!(driver.tts("hello".to_string()), Action::ClearLine);
    assert_eq!(driver.phase(), Phase::Clearing);
    assert_eq!(driver.step(Event::LineCleared), Action::Write(QUERY.to_vec()));
    assert_eq!(driver.phase(), Phase::Querying);
    assert_eq!(driver.step(Event::Written), Action::ReadStatus { timeout_ms: 10 });
    assert_eq!(driver.phase(), Phase::Reading);
    assert_eq!(
        driver.step(Event::Status(Some(0x4F))),
        Action::Write(vec![0xFD, 0x00, 0x07, 0x01, 0x01, b'h', b'e', b'l', b'l', b'o'])
    );
    assert_eq!(driver.phase(), Phase::Sending);
    assert_eq!(driver.step(Event::Written), Action::Done(Ok(Reply::Sent)));
    assert_eq!(driver.phase(), Phase::Free);
}

#[test]
fn notify_tag_ring_2_is_written_without_a_status_query() {
    let mut driver = fresh();
    let mut line = line(&[]);
    let tag = NotifyTag::parse("ring_2").unwrap();
    let first = driver.submit(&tag.command());
    assert_eq!(
        first,
        Action::Write(vec![
            0xFD, 0x00, 0x0A, 0x01, 0x01, b'[', b'r', b'i', b'n', b'g', b'_', b'2', b']'
        ])
    );
    let outcome = carry_out(&mut driver, first, &mut line);
    assert_eq!(outcome, Ok(Reply::Sent));
    assert_eq!(line.steps, vec!["write"]);
    assert_eq!(line.reads, 0);
    assert_eq!(line.cleared, 0);
    assert_eq!(&line.wire[5..], b"[ring_2]");
    assert_eq!(driver.phase(), Phase::Free);
}

#[test]
fn named_commands_write_their_config_at_once() {
    let mut driver = fresh();
    assert_eq!(driver.volume(7), Action::Write(Command::SetParam(Param::Volume, 7).frame().unwrap()));
    assert_eq!(driver.step(Event::Written), Action::Done(Ok(Reply::Sent)));
    assert_eq!(driver.speed(3), Action::Write(b"\xFD\x00\x06\x01\x01[s3]".to_vec()));
    assert_eq!(driver.step(Event::Written), Action::Done(Ok(Reply::Sent)));
    assert_eq!(driver.tone(9), Action::Write(b"\xFD\x00\x06\x01\x01[t9]".to_vec()));
    assert_eq!(driver.step(Event::Written), Action::Done(Ok(Reply::Sent)));
    assert_eq!(driver.ring(1), Action::Write(b"\xFD\x00\x0A\x01\x01[ring_1]".to_vec()));
    assert_eq!(driver.step(Event::Written), Action::Done(Ok(Reply::Sent)));
    assert_eq!(driver.message(5), Action::Write(b"\xFD\x00\x0D\x01\x01[message_5]".to_vec()));
    assert_eq!(driver.step(Event::Written), Action::Done(Ok(Reply::Sent)));
    assert_eq!(driver.alert(12), Action::Write(b"\xFD\x00\x0C\x01\x01[alert_12]".to_vec()));
    assert_eq!(driver.step(Event::Written), Action::Done(Ok(Reply::Sent)));
    assert_eq!(driver.phase(), Phase::Free);
}

#[test]
fn pause_and_stop_are_written_at_once() {
    let mut driver = fresh();
    assert_eq!(driver.submit(&Command::Pause), Action::Write(vec![0xFD, 0x00, 0x01, 0x03]));
    assert_eq!(driver.phase(), Phase::Sending);
    assert_eq!(driver.step(Event::Written), Action::Done(Ok(Reply::Sent)));
    assert_eq!(driver.submit(&Command::Stop), Action::Write(vec![0xFD, 0x00, 0x01, 0x02]));
    assert_eq!(driver.step(Event::Written), Action::Done(Ok(Reply::Sent)));
    assert_eq!(driver.phase(), Phase::Free);
}

#[test]
fn status_query_reports_what_the_byte_stands_for() {
    let mut driver = fresh();
    let mut idle = line(&[Some(0x4F)]);
    let first = driver.submit(&Command::QueryStatus);
    assert_eq!(carry_out(&mut driver, first, &mut idle), Ok(Reply::Status(DeviceStatus::Idle)));
    assert_eq!(idle.steps, vec!["clear", "write", "read"]);
    assert_eq!(idle.wire, QUERY);

    let mut busy = line(&[Some(0x4E)]);
    let first = driver.submit(&Command::QueryStatus);
    assert_eq!(carry_out(&mut driver, first, &mut busy), Ok(Reply::Status(DeviceStatus::Busy)));

    let mut silent = line(&[None]);
    let first = driver.submit(&Command::QueryStatus);
    assert_eq!(carry_out(&mut driver, first, &mut silent), Ok(Reply::Status(DeviceStatus::Busy)));
    assert_eq!(driver.phase(), Phase::Free);
}

#[test]
fn speech_waits_until_the_device_is_idle() {
    let mut driver = fresh();
    let mut line = line(&[Some(0x4E), None, Some(0x00), Some(0x4F)]);
    let first = driver.tts("你好".to_string());
    assert_eq!(carry_out(&mut driver, first, &mut line), Ok(Reply::Sent));
    assert_eq!(
        line.steps,
        vec![
            "clear", "write", "read", "backoff", "clear", "write", "read", "backoff", "clear",
            "write", "read", "backoff", "clear", "write", "read", "write",
        ]
    );
    assert_eq!(line.slept_ms, 300);
    assert_eq!(line.writes.len(), 5);
    for query in &line.writes[..4] {
        assert_eq!(query[..], QUERY);
    }
    assert_eq!(line.writes[4], vec![0xFD, 0x00, 0x06, 0x01, 0x01, 0xC4, 0xE3, 0xBA, 0xC3]);
}

#[test]
fn busy_answer_never_lets_speech_out() {
    for byte in 0..=255u8 {
        let mut driver = fresh();
        driver.tts("x".to_string());
        driver.step(Event::LineCleared);
        driver.step(Event::Written);
        let action = driver.step(Event::Status(Some(byte)));
        if byte == 0x4F {
            assert_eq!(action, Action::Write(speech_frame("x")));
        } else {
            assert_eq!(action, Action::Backoff { millis: 100 });
            assert_eq!(driver.phase(), Phase::BackingOff);
        }
    }
}

#[test]
fn poll_limit_gives_up_as_unresponsive() {
    let policy = PollPolicy { status_timeout_ms: 20, backoff_ms: 50, max_polls: Some(3) };
    let mut driver = fresh().with_policy(policy);
    assert_eq!(driver.policy(), policy);
    let mut line = line(&[Some(0x4E), Some(0x4E), Some(0x4E), Some(0x4F)]);
    let first = driver.tts("hello".to_string());
    assert_eq!(carry_out(&mut driver, first, &mut line), Err(DriverError::DeviceUnresponsive));
    assert_eq!(line.reads, 3);
    assert_eq!(line.slept_ms, 100);
    assert_eq!(line.writes.len(), 3);
    assert_eq!(driver.phase(), Phase::Free);

    let mut line = line_with_idle_at(2);
    let first = driver.tts("hello".to_string());
    assert_eq!(carry_out(&mut driver, first, &mut line), Ok(Reply::Sent));
    assert_eq!(line.reads, 3);
}

fn line_with_idle_at(busy_first: usize) -> Line {
    let mut answers = vec![Some(0x4E); busy_first];
    answers.push(Some(0x4F));
    line(&answers)
}

#[test]
fn poll_limit_of_zero_never_touches_the_line() {
    let policy = PollPolicy { status_timeout_ms: 10, backoff_ms: 100, max_polls: Some(0) };
    let mut driver = fresh().with_policy(policy);
    assert_eq!(driver.tts("hello".to_string()), Action::Done(Err(DriverError::DeviceUnresponsive)));
    assert_eq!(driver.phase(), Phase::Free);
    assert_eq!(driver.volume(1), Action::Write(b"\xFD\x00\x06\x01\x01[v1]".to_vec()));
}

#[test]
fn poll_limit_of_one_asks_once() {
    let policy = PollPolicy { status_timeout_ms: 10, backoff_ms: 100, max_polls: Some(1) };
    let mut driver = fresh().with_policy(policy);
    let mut line = line(&[None]);
    let first = driver.tts("hello".to_string());
    assert_eq!(carry_out(&mut driver, first, &mut line), Err(DriverError::DeviceUnresponsive));
    assert_eq!(line.steps, vec!["clear", "write", "read"]);
}

#[test]
fn oversized_speech_is_refused_and_nothing_is_written() {
    let mut driver = fresh();
    let mut line = line(&[Some(0x4F)]);
    let first = driver.tts("a".repeat(65534));
    assert_eq!(first, Action::Done(Err(DriverError::EncodingTooLarge)));
    assert_eq!(carry_out(&mut driver, first, &mut line), Err(DriverError::EncodingTooLarge));
    assert!(line.wire.is_empty());
    assert!(line.steps.is_empty());
    assert_eq!(driver.phase(), Phase::Free);
    let first = driver.tts("a".repeat(65533));
    assert_eq!(carry_out(&mut driver, first, &mut line), Ok(Reply::Sent));
    assert_eq!(line.wire.len(), 4 + 65538);
}

#[test]
fn held_line_takes_no_second_command() {
    let mut driver = fresh();
    assert_eq!(driver.tts("first".to_string()), Action::ClearLine);
    assert_eq!(driver.volume(3), Action::Done(Err(DriverError::ChannelUnavailable)));
    assert_eq!(driver.tts("second".to_string()), Action::Done(Err(DriverError::ChannelUnavailable)));
    assert_eq!(driver.phase(), Phase::Clearing);
    assert_eq!(driver.step(Event::LineCleared), Action::Write(QUERY.to_vec()));
    assert_eq!(driver.submit(&Command::Stop), Action::Done(Err(DriverError::ChannelUnavailable)));
    assert_eq!(driver.step(Event::Written), Action::ReadStatus { timeout_ms: 10 });
    assert_eq!(driver.submit(&Command::QueryStatus), Action::Done(Err(DriverError::ChannelUnavailable)));
    assert_eq!(driver.step(Event::Status(Some(0x4F))), Action::Write(speech_frame("first")));
    assert_eq!(driver.submit(&Command::Pause), Action::Done(Err(DriverError::ChannelUnavailable)));
    assert_eq!(driver.step(Event::Written), Action::Done(Ok(Reply::Sent)));
    assert_eq!(driver.tts("second".to_string()), Action::ClearLine);
}

#[test]
fn speeches_reach_the_wire_whole_and_in_order() {
    let texts = ["one", "二", "three", "四五六", "seven"];
    let mut driver = fresh();
    let mut line = line(&[
        Some(0x4F), Some(0x4E), Some(0x4F), None, None, Some(0x4F), Some(0x4F), Some(0x41),
        Some(0x4F),
    ]);
    let mut expected: Vec<u8> = Vec::new();
    let queries = [1usize, 2, 3, 1, 2];
    for (text, count) in texts.iter().zip(queries) {
        let first = driver.tts(text.to_string());
        assert_eq!(carry_out(&mut driver, first, &mut line), Ok(Reply::Sent));
        for _ in 0..count {
            expected.extend_from_slice(&QUERY);
        }
        expected.extend_from_slice(&speech_frame(text));
    }
    assert_eq!(line.wire, expected);
    let spoken: Vec<&Vec<u8>> = line.writes.iter().filter(|frame| frame[3] == 0x01).collect();
    assert_eq!(spoken.len(), texts.len());
    for (frame, text) in spoken.iter().zip(texts) {
        assert_eq!(**frame, speech_frame(text));
    }
    for frame in &line.writes {
        assert_eq!(frame[0], 0xFD);
        assert_eq!((frame[1] as usize) * 256 + frame[2] as usize, frame.len() - 3);
    }
}

#[test]
fn failed_write_breaks_the_line_for_good() {
    let mut driver = fresh();
    let mut line = line(&[Some(0x4F)]);
    line.fail_write = Some(1);
    let first = driver.tts("hello".to_string());
    assert_eq!(carry_out(&mut driver, first, &mut line), Err(DriverError::ChannelUnavailable));
    assert_eq!(driver.phase(), Phase::Broken);
    let torn = line.wire.clone();
    assert_eq!(driver.tts("again".to_string()), Action::Done(Err(DriverError::ChannelUnavailable)));
    assert_eq!(driver.volume(2), Action::Done(Err(DriverError::ChannelUnavailable)));
    assert_eq!(driver.submit(&Command::Stop), Action::Done(Err(DriverError::ChannelUnavailable)));
    for event in [
        Event::LineCleared,
        Event::Written,
        Event::WriteFailed,
        Event::Status(Some(0x4F)),
        Event::BackoffElapsed,
        Event::DeadlineExpired,
    ] {
        assert_eq!(driver.step(event), Action::Done(Err(DriverError::ChannelUnavailable)));
        assert_eq!(driver.phase(), Phase::Broken);
    }
    assert_eq!(line.wire, torn);
}

#[test]
fn failed_query_write_breaks_the_line() {
    let mut driver = fresh();
    driver.tts("hello".to_string());
    driver.step(Event::LineCleared);
    assert_eq!(driver.step(Event::WriteFailed), Action::Done(Err(DriverError::ChannelUnavailable)));
    assert_eq!(driver.phase(), Phase::Broken);
}

#[test]
fn report_that_answers_nothing_breaks_a_held_line() {
    let cases: [(usize, Event); 8] = [
        (0, Event::Written),
        (0, Event::Status(Some(0x4F))),
        (0, Event::DeadlineExpired),
        (1, Event::LineCleared),
        (1, Event::DeadlineExpired),
        (2, Event::Written),
        (2, Event::BackoffElapsed),
        (3, Event::LineCleared),
    ];
    for (progress, stray) in cases {
        let mut driver = fresh();
        driver.tts("hello".to_string());
        let script = [Event::LineCleared, Event::Written, Event::Status(Some(0x4E))];
        for event in &script[..progress] {
            driver.step(*event);
        }
        assert_eq!(driver.step(stray), Action::Done(Err(DriverError::ChannelUnavailable)));
        assert_eq!(driver.phase(), Phase::Broken);
    }
}

#[test]
fn report_without_a_command_changes_nothing() {
    let mut driver = fresh();
    for event in [Event::Written, Event::LineCleared, Event::Status(None), Event::DeadlineExpired] {
        assert_eq!(driver.step(event), Action::Done(Err(DriverError::ChannelUnavailable)));
        assert_eq!(driver.phase(), Phase::Free);
    }
    assert_eq!(driver.volume(2), Action::Write(b"\xFD\x00\x06\x01\x01[v2]".to_vec()));
}

#[test]
fn deadline_ends_the_wait_and_frees_the_line() {
    let mut driver = fresh();
    driver.tts("hello".to_string());
    driver.step(Event::LineCleared);
    driver.step(Event::Written);
    assert_eq!(driver.step(Event::DeadlineExpired), Action::Done(Err(DriverError::DeviceUnresponsive)));
    assert_eq!(driver.phase(), Phase::Free);

    driver.tts("hello".to_string());
    driver.step(Event::LineCleared);
    driver.step(Event::Written);
    assert_eq!(driver.step(Event::Status(None)), Action::Backoff { millis: 100 });
    assert_eq!(driver.step(Event::DeadlineExpired), Action::Done(Err(DriverError::DeviceUnresponsive)));
    assert_eq!(driver.phase(), Phase::Free);

    let mut line = line(&[Some(0x4F)]);
    let first = driver.tts("after".to_string());
    assert_eq!(carry_out(&mut driver, first, &mut line), Ok(Reply::Sent));
    assert_eq!(line.writes[1], speech_frame("after"));
}

#[test]
fn deadline_during_a_write_breaks_the_line() {
    let mut driver = fresh();
    driver.volume(5);
    assert_eq!(driver.step(Event::DeadlineExpired), Action::Done(Err(DriverError::ChannelUnavailable)));
    assert_eq!(driver.phase(), Phase::Broken);
}

#[test]
fn policy_sets_timeout_and_backoff() {
    let policy = PollPolicy { status_timeout_ms: 35, backoff_ms: 250, max_polls: None };
    let mut driver = fresh().with_policy(policy);
    driver.tts("hello".to_string());
    driver.step(Event::LineCleared);
    assert_eq!(driver.step(Event::Written), Action::ReadStatus { timeout_ms: 35 });
    assert_eq!(driver.step(Event::Status(Some(0x4E))), Action::Backoff { millis: 250 });
    assert_eq!(driver.step(Event::BackoffElapsed), Action::ClearLine);
    assert_eq!(driver.port(), "/dev/ttyUSB0");
    assert_eq!(driver.baud_rate(), 115200);
}

#[test]
fn notify_kind_in_command_matches_method() {
    let mut left = fresh();
    let mut right = fresh();
    assert_eq!(left.ring(7), right.submit(&Command::Notify(NotifyKind::Ring, 7)));
    assert_eq!(left.step(Event::Written), right.step(Event::Written));
}

#[test]
fn control_methods_match_their_commands() {
    let mut driver = fresh();
    assert_eq!(driver.pause(), Action::Write(vec![0xFD, 0x00, 0x01, 0x03]));
    assert_eq!(driver.step(Event::Written), Action::Done(Ok(Reply::Sent)));
    assert_eq!(driver.stop(), Action::Write(vec![0xFD, 0x00, 0x01, 0x02]));
    assert_eq!(driver.step(Event::Written), Action::Done(Ok(Reply::Sent)));
    assert_eq!(driver.check_status(), Action::ClearLine);
    assert_eq!(driver.step(Event::LineCleared), Action::Write(QUERY.to_vec()));
    assert_eq!(driver.step(Event::Written), Action::ReadStatus { timeout_ms: 10 });
    assert_eq!(
        driver.step(Event::Status(Some(0x4F))),
        Action::Done(Ok(Reply::Status(DeviceStatus::Idle)))
    );
    assert_eq!(driver.phase(), Phase::Free);
}

#[test]
fn status_query_ignores_the_poll_limit() {
    let policy = PollPolicy { status_timeout_ms: 10, backoff_ms: 100, max_polls: Some(0) };
    let mut driver = fresh().with_policy(policy);
    let mut line = line(&[Some(0x4E)]);
    let first = driver.check_status();
    assert_eq!(carry_out(&mut driver, first, &mut line), Ok(Reply::Status(DeviceStatus::Busy)));
    assert_eq!(line.steps, vec!["clear", "write", "read"]);
}

#[test]
fn unlimited_polling_waits_as_long_as_it_takes() {
    let mut driver = fresh();
    let mut line = line(&vec![Some(0x4E); 2000]);
    line.answers.push(Some(0x4F));
    let first = driver.tts("hello".to_string());
    assert_eq!(carry_out(&mut driver, first, &mut line), Ok(Reply::Sent));
    assert_eq!(line.reads, 2001);
    assert_eq!(line.slept_ms, 200_000);
    assert_eq!(line.writes.len(), 2002);
}
