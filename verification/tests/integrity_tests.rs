use irc_log_manager::channel::{ChannelDescriptor, ChannelLog};
use irc_log_manager::error::{ScanError, SetupError};
use irc_log_manager::integrity::{judge_window, IntegrityChecker, INTEGRITY_PATTERN, WINDOW};

fn channel(server: &str, name: &str, index: u32) -> ChannelDescriptor {
    ChannelDescriptor {
        server_id: server.to_string(),
        channel_id: name.to_string(),
        display_index: index,
    }
}

fn checker() -> IntegrityChecker {
    match IntegrityChecker::new() {
        Ok(c) => c,
        Err(e) => panic!("the integrity pattern was refused: {:?}", e),
    }
}

#[test]
fn window_is_twenty_one_bytes() {
    assert_eq!(WINDOW, 21);
    assert_eq!("\n2020-01-01 00:00:01\t".len(), WINDOW);
    assert!(INTEGRITY_PATTERN.starts_with('^'));
}

#[test]
fn clean_transcript_passes() {
    let region = b"2020-01-01 00:00:00\tAlice\thello\n2020-01-01 00:00:01\tBob\thi\n";
    assert_eq!(checker().check_region(&channel("Freenode", "Rust", 1), region), Ok(()));
}

#[test]
fn empty_transcript_passes() {
    assert_eq!(checker().check_region(&channel("a", "b", 1), b""), Ok(()));
    assert_eq!(checker().check_region(&channel("a", "b", 1), b"\n\n\n"), Ok(()));
    assert_eq!(checker().check_region(&channel("a", "b", 1), b"no newline at all"), Ok(()));
}

#[test]
fn unfinished_record_is_reported_at_its_newline() {
    let region = b"2020-01-01 00:00:00\tAlice\thello\n2020-01-01 00:00:01\t\n";
    assert_eq!(region[52], b'\n');
    assert_eq!(
        checker().check_region(&channel("Freenode", "Rust", 1), region),
        Err(ScanError::UnexpectedFormat {
            file_name: "irc.freenode.#rust.weechatlog".to_string(),
            position: 52,
            line: "\n2020-01-01 00:00:01\t".to_string(),
        })
    );
}

#[test]
fn unfinished_record_in_the_middle_is_reported() {
    let region =
        b"2020-01-01 00:00:00\tAlice\thello\n2020-01-01 00:00:01\t\n2020-01-01 00:00:02\tBob\thi\n";
    let found = checker().check_region(&channel("s", "c", 1), region);
    match found {
        Err(e) => assert_eq!(e.position(), 52),
        Ok(()) => panic!("the unfinished record was not found"),
    }
}

#[test]
fn first_of_two_unfinished_records_is_reported() {
    let region = b"x\n2020-01-01 00:00:01\t\n2020-01-01 00:00:02\t\n";
    let found = checker().check_region(&channel("s", "c", 1), region);
    assert_eq!(
        found,
        Err(ScanError::UnexpectedFormat {
            file_name: "irc.s.#c.weechatlog".to_string(),
            position: 22,
            line: "\n2020-01-01 00:00:01\t".to_string(),
        })
    );
}

#[test]
fn unfinished_first_record_has_no_window() {
    let region = b"2020-01-01 00:00:01\t\n";
    assert_eq!(region.len(), 21);
    assert_eq!(checker().check_region(&channel("s", "c", 1), region), Ok(()));
}

#[test]
fn record_that_only_ends_like_an_unfinished_one_passes() {
    let region = b"2020-01-01 00:00:00\tAlice\t2020-01-01 00:00:01\t\n";
    assert_eq!(checker().check_region(&channel("s", "c", 1), region), Ok(()));
}

#[test]
fn timestamp_with_content_passes() {
    let region = b"x\n2020-01-01 00:00:01\tA\n";
    assert_eq!(checker().check_region(&channel("s", "c", 1), region), Ok(()));
}

#[test]
fn undecodable_window_is_a_decode_failure() {
    let mut region: Vec<u8> = vec![b'a'; 20];
    region.push(0xff);
    region.push(b'\n');
    assert_eq!(
        checker().check_region(&channel("S", "C", 1), &region),
        Err(ScanError::DecodeFailure {
            file_name: "irc.s.#c.weechatlog".to_string(),
            position: 21,
        })
    );
}

#[test]
fn window_that_splits_a_character_is_a_decode_failure() {
    let mut region: Vec<u8> = "김".as_bytes().to_vec();
    region.extend_from_slice(&[b'a'; 19]);
    region.push(b'\n');
    assert_eq!(
        checker().check_region(&channel("s", "c", 1), &region),
        Err(ScanError::DecodeFailure {
            file_name: "irc.s.#c.weechatlog".to_string(),
            position: 22,
        })
    );
}

#[test]
fn undecodable_bytes_outside_every_window_are_tolerated() {
    let mut region: Vec<u8> = vec![0xff, 0xfe];
    region.extend_from_slice(&[b'a'; 25]);
    region.push(b'\n');
    assert_eq!(checker().check_region(&channel("s", "c", 1), &region), Ok(()));
}

#[test]
fn undecodable_bytes_in_a_short_first_record_are_tolerated() {
    let region: Vec<u8> = vec![0xff, 0xfe, b'\n'];
    assert_eq!(checker().check_region(&channel("s", "c", 1), &region), Ok(()));
}

#[test]
fn check_counts_the_clean_channels() {
    let a = b"2020-01-01 00:00:00\tAlice\thello\n";
    let b = b"2020-01-01 00:00:00\tBob\thi\n2020-01-01 00:00:05\tBob\tagain\n";
    let c = b"";
    let logs = vec![
        ChannelLog { channel: channel("s", "a", 1), region: a },
        ChannelLog { channel: channel("s", "b", 2), region: b },
        ChannelLog { channel: channel("s", "c", 3), region: c },
    ];
    assert_eq!(checker().check(&logs), Ok(3));
}

#[test]
fn check_of_no_channels_is_zero() {
    let logs: Vec<ChannelLog> = vec![];
    assert_eq!(checker().check(&logs), Ok(0));
}

#[test]
fn check_reports_the_first_faulty_channel_only() {
    let clean = b"2020-01-01 00:00:00\tAlice\thello\n";
    let bad_one = b"x\n2020-01-01 00:00:01\t\n";
    let bad_two = b"xy\n2020-01-01 00:00:02\t\n";
    let logs = vec![
        ChannelLog { channel: channel("s", "clean", 1), region: clean },
        ChannelLog { channel: channel("s", "One", 2), region: bad_one },
        ChannelLog { channel: channel("s", "Two", 3), region: bad_two },
    ];
    assert_eq!(
        checker().check(&logs),
        Err(ScanError::UnexpectedFormat {
            file_name: "irc.s.#one.weechatlog".to_string(),
            position: 22,
            line: "\n2020-01-01 00:00:01\t".to_string(),
        })
    );
}

#[test]
fn message_of_an_unexpected_format() {
    let e = ScanError::UnexpectedFormat {
        file_name: "irc.s.#c.weechatlog".to_string(),
        position: 52,
        line: "2020-01-01 00:00:01\t".to_string(),
    };
    assert_eq!(
        e.message(),
        "File \"irc.s.#c.weechatlog\" has an unexpected format in 52th byte. (\"2020-01-01 00:00:01\t\")"
    );
    assert_eq!(e.position(), 52);
}

#[test]
fn message_of_a_decode_failure() {
    let e = ScanError::DecodeFailure { file_name: "irc.s.#c.weechatlog".to_string(), position: 0 };
    assert_eq!(e.message(), "File \"irc.s.#c.weechatlog\" is not valid text in 0th byte.");
    assert_eq!(e.position(), 0);
}

#[test]
fn checker_is_made_of_the_integrity_pattern_only() {
    assert!(matches!(
        IntegrityChecker::from_compiled(regex::Regex::new(INTEGRITY_PATTERN)),
        Ok(_)
    ));
    assert_eq!(
        IntegrityChecker::from_compiled(regex::Regex::new("(")).err(),
        Some(SetupError::InvalidPattern)
    );
}

#[test]
fn window_verdicts() {
    let c = channel("S", "C", 1);
    assert_eq!(judge_window(&c, 30, Some("text"), false), Ok(()));
    assert_eq!(
        judge_window(&c, 30, Some("text"), true),
        Err(ScanError::UnexpectedFormat {
            file_name: "irc.s.#c.weechatlog".to_string(),
            position: 30,
            line: "text".to_string(),
        })
    );
    assert_eq!(
        judge_window(&c, 30, None, false),
        Err(ScanError::DecodeFailure { file_name: "irc.s.#c.weechatlog".to_string(), position: 30 })
    );
    assert_eq!(
        judge_window(&c, 31, None, true),
        Err(ScanError::DecodeFailure { file_name: "irc.s.#c.weechatlog".to_string(), position: 31 })
    );
}

#[test]
fn report_names_its_file() {
    let e = ScanError::DecodeFailure { file_name: "irc.s.#c.weechatlog".to_string(), position: 9 };
    assert_eq!(e.file_name(), "irc.s.#c.weechatlog");
    let e = ScanError::UnexpectedFormat {
        file_name: "irc.a.#b.weechatlog".to_string(),
        position: 9,
        line: "x".to_string(),
    };
    assert_eq!(e.file_name(), "irc.a.#b.weechatlog");
}

#[test]
fn well_shaped_record_with_a_window_that_splits_a_character() {
    let region = "header\n2019-02-19 09:00:00\tkim\t김김김김김김김a\n".as_bytes();
    let newline = region.len() - 1;
    assert_eq!(
        checker().check_region(&channel("s", "c", 1), region),
        Err(ScanError::DecodeFailure {
            file_name: "irc.s.#c.weechatlog".to_string(),
            position: newline,
        })
    );
}
