//! Command and query language behaviour on the blackboard.
use sqore::blackboard::{Blackboard, EventKind};
use sqore::value::Entry;

#[test]
fn set_then_add_numbers() {
    let mut bb = Blackboard::new();
    bb.parse_action(b"set hp 10; add hp 5");
    assert_eq!(bb.get(b"hp"), Some(Entry::Number(15_000)));
}

#[test]
fn add_string_suffix() {
    let mut bb = Blackboard::new();
    bb.parse_action(b"set name hero");
    bb.parse_action(b"add name _2");
    assert_eq!(bb.get(b"name"), Some(Entry::Str(b"hero_2".to_vec())));
}

#[test]
fn query_range_and() {
    let mut bb = Blackboard::new();
    bb.parse_action(b"set hp 15");
    assert!(bb.parse_query(b"hp >= 10 and hp < 20"));
    bb.parse_action(b"set hp 25");
    assert!(!bb.parse_query(b"hp >= 10 and hp < 20"));
}

#[test]
fn empty_query_is_malformed() {
    let mut bb = Blackboard::new();
    assert!(!bb.parse_query(b""));
    assert!(bb.diagnostics().len() > 0);
}

#[test]
fn query_or_clauses() {
    let mut bb = Blackboard::new();
    bb.parse_action(b"set hp 2");
    assert!(bb.parse_query(b"hp == 1 or hp == 2"));
    assert!(!bb.parse_query(b"hp == 1 or hp == 3"));
}

#[test]
fn query_string_equality() {
    let mut bb = Blackboard::new();
    bb.parse_action(b"set a hero; set b hero");
    assert!(bb.parse_query(b"a == b"));
    assert!(bb.parse_query(b"a == hero"));
    assert!(!bb.parse_query(b"a != hero"));
}

#[test]
fn query_bool_and_unset() {
    let mut bb = Blackboard::new();
    bb.parse_action(b"set flag true");
    assert!(bb.parse_query(b"flag == 1"));
    bb.unset(b"flag");
    assert!(!bb.parse_query(b"flag == 1"));
    assert_eq!(bb.get(b"flag"), None);
}

#[test]
fn sub_numbers_and_bool() {
    let mut bb = Blackboard::new();
    bb.parse_action(b"set hp 10; sub hp 4");
    assert_eq!(bb.get(b"hp"), Some(Entry::Number(6_000)));
    bb.parse_action(b"sub hp true");
    assert_eq!(bb.get(b"hp"), Some(Entry::Number(5_000)));
}

#[test]
fn add_bool_counts_as_one() {
    let mut bb = Blackboard::new();
    bb.parse_action(b"set n 1; add n true");
    assert_eq!(bb.get(b"n"), Some(Entry::Number(2_000)));
}

#[test]
fn incompatible_arithmetic_warns_and_stores_empty() {
    let mut bb = Blackboard::new();
    bb.parse_action(b"set hp 10");
    let before = bb.diagnostics().len();
    bb.parse_action(b"add hp \"word\"");
    assert_eq!(bb.get(b"hp"), Some(Entry::Empty));
    assert!(bb.diagnostics().len() > before);
}

#[test]
fn add_missing_key_is_a_noop() {
    let mut bb = Blackboard::new();
    let before = bb.diagnostics().len();
    bb.parse_action(b"add ghost 1");
    assert_eq!(bb.get(b"ghost"), None);
    assert!(bb.diagnostics().len() > before);
}

#[test]
fn unknown_command_and_arity_are_skipped() {
    let mut bb = Blackboard::new();
    let before = bb.diagnostics().len();
    bb.parse_action(b"frobnicate hp 1");
    assert!(bb.diagnostics().len() > before);
    let before = bb.diagnostics().len();
    bb.parse_action(b"set hp");
    assert_eq!(bb.get(b"hp"), None);
    assert!(bb.diagnostics().len() > before);
    // the rest of a script still runs after a bad segment
    bb.parse_action(b"bogus; set hp 3");
    assert_eq!(bb.get(b"hp"), Some(Entry::Number(3_000)));
}

#[test]
fn undecodable_literal_writes_nothing() {
    let mut bb = Blackboard::new();
    bb.parse_action(b"set k \"oops");
    assert_eq!(bb.get(b"k"), None);
}

#[test]
fn jump_and_end_events() {
    let mut bb = Blackboard::new();
    bb.parse_action(b"jump 2");
    match bb.get_event() {
        Some((EventKind::Jump, arg)) => assert_eq!(arg, Entry::Number(2_000)),
        other => panic!("unexpected event {:?}", other),
    }
    bb.mark_event_handled();
    assert!(bb.get_event().is_none());
    bb.parse_action(b"end");
    match bb.get_event() {
        Some((EventKind::End, arg)) => assert_eq!(arg, Entry::Empty),
        other => panic!("unexpected event {:?}", other),
    }
}

#[test]
fn newer_event_replaces_older() {
    let mut bb = Blackboard::new();
    bb.parse_action(b"jump 1; end");
    match bb.get_event() {
        Some((EventKind::End, _)) => {}
        other => panic!("unexpected event {:?}", other),
    }
}

#[test]
fn unknown_operator_is_false() {
    let mut bb = Blackboard::new();
    bb.parse_action(b"set hp 1");
    let before = bb.diagnostics().len();
    assert!(!bb.parse_query(b"hp ~= 1"));
    assert!(bb.diagnostics().len() > before);
}

#[test]
fn format_text_interpolates() {
    let mut bb = Blackboard::new();
    bb.parse_action(b"set name hero; set hp 15");
    assert_eq!(
        bb.format_text(b"hi {{ name }}, hp {{hp}}!"),
        b"hi hero, hp 15!".to_vec()
    );
}

#[test]
fn format_text_unknown_key_is_empty() {
    let mut bb = Blackboard::new();
    let before = bb.diagnostics().len();
    assert_eq!(bb.format_text(b"<{{ missing }}>"), b"<>".to_vec());
    assert!(bb.diagnostics().len() > before);
}

#[test]
fn format_text_unclosed_brace() {
    let mut bb = Blackboard::new();
    assert_eq!(bb.format_text(b"a{{b"), b"ab".to_vec());
    assert_eq!(bb.format_text(b"plain"), b"plain".to_vec());
}

#[test]
fn empty_never_wins_a_comparison() {
    let mut bb = Blackboard::new();
    // an undecodable operand reduces to the least integer
    assert!(!bb.parse_query(b"\"x > 0"));
    bb.parse_action(b"set hp 0");
    assert!(bb.parse_query(b"hp > \"x"));
}

#[test]
fn arithmetic_saturates_at_the_bounds() {
    let mut bb = Blackboard::new();
    bb.parse_action(b"set big 9223372036854775.807; add big 1");
    assert_eq!(bb.get(b"big"), Some(Entry::Number(i64::MAX)));
    bb.parse_action(b"set low -9223372036854775.808; sub low 1");
    assert_eq!(bb.get(b"low"), Some(Entry::Number(i64::MIN)));
}

#[test]
fn fractional_arithmetic() {
    let mut bb = Blackboard::new();
    bb.parse_action(b"set hp 1.5; add hp 2.25");
    assert_eq!(bb.get(b"hp"), Some(Entry::Number(3_750)));
    assert_eq!(bb.format_text(b"{{hp}}"), b"3.75".to_vec());
    // comparisons floor the value
    assert!(bb.parse_query(b"hp == 3"));
}

#[test]
fn string_plus_number_concatenates_display_form() {
    let mut bb = Blackboard::new();
    bb.parse_action(b"set tag v; add tag 1.5; add tag true");
    assert_eq!(bb.get(b"tag"), Some(Entry::Str(b"v1.5true".to_vec())));
}
