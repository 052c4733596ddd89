use irc_log_manager::channel::ChannelDescriptor;
use irc_log_manager::error::SetupError;
use irc_log_manager::locator::{
    descriptor_from_groups, parse_index, ChannelLocator, BUFFER_PATTERN,
};

fn locator() -> ChannelLocator {
    match ChannelLocator::new() {
        Ok(l) => l,
        Err(e) => panic!("the buffer pattern was refused: {:?}", e),
    }
}

fn channel(server: &str, name: &str, index: u32) -> ChannelDescriptor {
    ChannelDescriptor {
        server_id: server.to_string(),
        channel_id: name.to_string(),
        display_index: index,
    }
}

#[test]
fn parse_index_reads_decimal_digits() {
    assert_eq!(parse_index(b"0"), Some(0));
    assert_eq!(parse_index(b"7"), Some(7));
    assert_eq!(parse_index(b"42"), Some(42));
    assert_eq!(parse_index(b"007"), Some(7));
    assert_eq!(parse_index(b"4294967295"), Some(4294967295));
    assert_eq!(parse_index(b"00000000004294967295"), Some(4294967295));
}

#[test]
fn parse_index_refuses_what_is_no_index() {
    assert_eq!(parse_index(b""), None);
    assert_eq!(parse_index(b"4294967296"), None);
    assert_eq!(parse_index(b"99999999999999999999999999"), None);
    assert_eq!(parse_index(b"-1"), None);
    assert_eq!(parse_index(b"+1"), None);
    assert_eq!(parse_index(b"1a"), None);
    assert_eq!(parse_index(b" 1"), None);
    assert_eq!(parse_index(b"99999999999x"), None);
    assert_eq!(parse_index("٣".as_bytes()), None);
}

#[test]
fn descriptor_is_made_of_three_groups() {
    let groups = Some(vec![
        Some("whole".to_string()),
        Some("freenode".to_string()),
        Some("rust".to_string()),
        Some("12".to_string()),
    ]);
    assert_eq!(descriptor_from_groups(&groups), Some(channel("freenode", "rust", 12)));
    assert_eq!(descriptor_from_groups(&None), None);
    let short = Some(vec![Some("whole".to_string()), Some("freenode".to_string())]);
    assert_eq!(descriptor_from_groups(&short), None);
    let missing = Some(vec![
        Some("whole".to_string()),
        None,
        Some("rust".to_string()),
        Some("12".to_string()),
    ]);
    assert_eq!(descriptor_from_groups(&missing), None);
    let unreadable = Some(vec![
        Some("whole".to_string()),
        Some("freenode".to_string()),
        Some("rust".to_string()),
        Some("4294967296".to_string()),
    ]);
    assert_eq!(descriptor_from_groups(&unreadable), None);
}

#[test]
fn line_that_names_a_channel_is_read() {
    let l = locator();
    assert_eq!(
        l.parse_line("default.buffer = \"irc;freenode.#rust;3\""),
        Some(channel("freenode", "rust", 3))
    );
    assert_eq!(
        l.parse_line("default.buffer = \"irc;OFTC.#Rust-Lang_2;17\""),
        Some(channel("OFTC", "Rust-Lang_2", 17))
    );
}

#[test]
fn other_lines_are_passed_over() {
    let l = locator();
    assert_eq!(l.parse_line(""), None);
    assert_eq!(l.parse_line("[layout]"), None);
    assert_eq!(l.parse_line("default.buffer = \"core;weechat;1\""), None);
    assert_eq!(l.parse_line("default.buffer = \"irc;server.freenode;2\""), None);
    assert_eq!(l.parse_line(" default.buffer = \"irc;freenode.#rust;3\""), None);
    assert_eq!(l.parse_line("default.buffer = \"irc;freenode.#rust;3\" "), None);
    assert_eq!(l.parse_line("default.buffer = \"irc;freenode.#rust;\""), None);
    assert_eq!(l.parse_line("default.buffer = \"irc;freenode.#rust;x\""), None);
}

#[test]
fn line_with_an_index_that_does_not_fit_is_passed_over() {
    let l = locator();
    assert_eq!(l.parse_line("default.buffer = \"irc;freenode.#rust;4294967296\""), None);
    assert_eq!(l.parse_line("default.buffer = \"irc;freenode.#rust;٣\""), None);
}

#[test]
fn locate_keeps_the_order_of_the_lines() {
    let lines: Vec<String> = vec![
        "[layout]".to_string(),
        "default.buffer = \"core;weechat;1\"".to_string(),
        "default.buffer = \"irc;freenode.#rust;3\"".to_string(),
        "default.buffer = \"irc;freenode.#verus;99999999999\"".to_string(),
        "default.buffer = \"irc;oftc.#debian;2\"".to_string(),
        "".to_string(),
    ];
    assert_eq!(
        locator().locate(&lines),
        vec![channel("freenode", "rust", 3), channel("oftc", "debian", 2)]
    );
    assert_eq!(locator().locate(&vec![]), vec![]);
}

#[test]
fn file_name_is_in_lower_case() {
    let c = channel("FreeNode", "Rust-Lang", 3);
    assert_eq!(c.file_name(), "irc.freenode.#rust-lang.weechatlog");
    assert_eq!(
        c.log_path("/home/me/.weechat/logs"),
        "/home/me/.weechat/logs/irc.freenode.#rust-lang.weechatlog"
    );
    assert_eq!(c.duplicate(), c);
}

#[test]
fn locator_is_made_of_the_buffer_pattern_only() {
    assert!(matches!(ChannelLocator::from_compiled(regex::Regex::new(BUFFER_PATTERN)), Ok(_)));
    assert_eq!(
        ChannelLocator::from_compiled(regex::Regex::new("(")).err(),
        Some(SetupError::InvalidPattern)
    );
}
