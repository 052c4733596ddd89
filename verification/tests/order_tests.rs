use irc_log_manager::channel::ChannelDescriptor;
use irc_log_manager::order::{
    directives, outranks_exec, rank_order, Directive, RankedChannel, FIRST_POSITION,
};

fn entry(name: &str, count: usize, index: u32) -> RankedChannel {
    RankedChannel {
        channel: ChannelDescriptor {
            server_id: "srv".to_string(),
            channel_id: name.to_string(),
            display_index: index,
        },
        count,
    }
}

fn names(ranked: &Vec<RankedChannel>) -> Vec<String> {
    ranked.iter().map(|r| r.channel.channel_id.clone()).collect()
}

#[test]
fn greater_count_outranks() {
    assert!(outranks_exec(&entry("a", 5, 9), &entry("b", 3, 1)));
    assert!(!outranks_exec(&entry("b", 3, 1), &entry("a", 5, 9)));
}

#[test]
fn smaller_index_outranks_among_equal_counts() {
    assert!(outranks_exec(&entry("c", 3, 2), &entry("a", 3, 5)));
    assert!(!outranks_exec(&entry("a", 3, 5), &entry("c", 3, 2)));
    assert!(!outranks_exec(&entry("a", 3, 5), &entry("b", 3, 5)));
}

#[test]
fn three_channels_are_ranked_and_moved() {
    let input = vec![entry("A", 3, 5), entry("B", 5, 1), entry("C", 3, 2)];
    let ranked = rank_order(&input);
    assert_eq!(names(&ranked), vec!["B", "C", "A"]);
    assert_eq!(
        directives(&ranked),
        vec![
            Directive::Select { server_id: "srv".to_string(), channel_id: "B".to_string() },
            Directive::Move { position: 2 },
            Directive::Select { server_id: "srv".to_string(), channel_id: "C".to_string() },
            Directive::Move { position: 3 },
            Directive::Select { server_id: "srv".to_string(), channel_id: "A".to_string() },
            Directive::Move { position: 4 },
        ]
    );
}

#[test]
fn equal_counts_are_ordered_by_display_index() {
    let input = vec![
        entry("e", 0, 50),
        entry("d", 0, 40),
        entry("c", 0, 30),
        entry("b", 0, 20),
        entry("a", 0, 10),
    ];
    assert_eq!(names(&rank_order(&input)), vec!["a", "b", "c", "d", "e"]);
}

#[test]
fn entries_that_agree_in_both_keep_their_order() {
    let input = vec![
        entry("first", 1, 7),
        entry("top", 9, 7),
        entry("second", 1, 7),
        entry("third", 1, 7),
    ];
    assert_eq!(names(&rank_order(&input)), vec!["top", "first", "second", "third"]);
}

#[test]
fn ranking_keeps_every_entry() {
    let input = vec![
        entry("a", 2, 3),
        entry("b", 7, 1),
        entry("c", 2, 1),
        entry("d", 0, 2),
        entry("e", 7, 0),
        entry("a", 2, 3),
    ];
    let ranked = rank_order(&input);
    assert_eq!(names(&ranked), vec!["e", "b", "c", "a", "a", "d"]);
    assert_eq!(ranked.len(), input.len());
    for x in &input {
        let before = input.iter().filter(|y| *y == x).count();
        let after = ranked.iter().filter(|y| *y == x).count();
        assert_eq!(before, after);
    }
    for i in 1..ranked.len() {
        assert!(!outranks_exec(&ranked[i], &ranked[i - 1]));
    }
}

#[test]
fn ranking_a_ranking_changes_nothing() {
    let input = vec![entry("a", 2, 3), entry("b", 7, 1), entry("c", 2, 1)];
    let once = rank_order(&input);
    assert_eq!(rank_order(&once), once);
}

#[test]
fn ranking_of_nothing_is_nothing() {
    assert_eq!(rank_order(&vec![]), vec![]);
    assert_eq!(directives(&vec![]), vec![]);
}

#[test]
fn positions_start_behind_the_reserved_ones() {
    assert_eq!(FIRST_POSITION, 2);
    let ranked = vec![entry("only", 0, 0)];
    assert_eq!(
        directives(&ranked),
        vec![
            Directive::Select { server_id: "srv".to_string(), channel_id: "only".to_string() },
            Directive::Move { position: 2 },
        ]
    );
}

#[test]
fn directives_are_written_as_client_commands() {
    let select =
        Directive::Select { server_id: "Freenode".to_string(), channel_id: "Rust".to_string() };
    assert_eq!(select.text(), "/buffer Freenode.#Rust");
    assert_eq!(Directive::Move { position: 2 }.text(), "/buffer move 2");
    assert_eq!(Directive::Move { position: 13 }.text(), "/buffer move 13");
}
