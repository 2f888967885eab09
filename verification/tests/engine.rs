//! Playback state machine behaviour: loading, advancing, pending
//! actions, jumps, choices and lifecycle events.
use sqore::engine::{CoreDialog, DialogState, Output};
use sqore::value::Entry;
use sqore::{register_singletons, unregister_singletons};

fn outputs(core: &mut CoreDialog) -> Vec<Output> {
    core.take_outputs()
}

#[test]
fn end_to_end_single_text() {
    let mut core = CoreDialog::new();
    core.load_track_text(b"{\"nodes\":[{\"type\":\"text\",\"content\":\"Hi\"}]}")
        .unwrap();
    let out = outputs(&mut core);
    assert_eq!(out.len(), 2);
    assert!(matches!(out[0], Output::TrackStarted));
    match &out[1] {
        Output::DisplayText { text, character } => {
            assert_eq!(text, &b"Hi".to_vec());
            assert_eq!(character, &b"".to_vec());
        }
        other => panic!("unexpected output {:?}", other),
    }
    assert!(core.has_session());
    core.advance();
    let out = outputs(&mut core);
    assert_eq!(out.len(), 1);
    assert!(matches!(out[0], Output::TrackEnded));
    assert!(!core.has_session());
}

#[test]
fn action_jump_skips_lines() {
    let mut core = CoreDialog::new();
    core.load_track_text(
        b"{\"nodes\":[{\"type\":\"action\",\"code\":\"jump 2\"},\
          {\"type\":\"text\",\"content\":\"A\"},\
          {\"type\":\"text\",\"content\":\"B\"},\
          {\"type\":\"text\",\"content\":\"C\"}]}",
    )
    .unwrap();
    // the action suspends playback before anything renders
    assert_eq!(core.current_state(), DialogState::Pending);
    let out = outputs(&mut core);
    assert_eq!(out.len(), 1);
    assert!(matches!(out[0], Output::TrackStarted));
    // one host tick runs the deferred script and resumes
    core.tick();
    assert_eq!(core.current_state(), DialogState::Active);
    let out = outputs(&mut core);
    assert_eq!(out.len(), 1);
    match &out[0] {
        Output::DisplayText { text, .. } => assert_eq!(text, &b"C".to_vec()),
        other => panic!("unexpected output {:?}", other),
    }
    assert_eq!(core.remaining().len(), 0);
    core.advance();
    let out = outputs(&mut core);
    assert!(matches!(out[0], Output::TrackEnded));
}

#[test]
fn gated_text_is_skipped() {
    let mut core = CoreDialog::new();
    core.load_track_text(
        b"{\"nodes\":[{\"type\":\"text\",\"content\":\"A\",\"requires\":\"flag == 1\"},\
          {\"type\":\"text\",\"content\":\"B\"}]}",
    )
    .unwrap();
    let out = outputs(&mut core);
    assert_eq!(out.len(), 2);
    match &out[1] {
        Output::DisplayText { text, .. } => assert_eq!(text, &b"B".to_vec()),
        other => panic!("unexpected output {:?}", other),
    }
}

#[test]
fn disabled_choice_option_is_not_selectable() {
    let mut core = CoreDialog::new();
    core.load_track_text(
        b"{\"nodes\":[{\"type\":\"choice\",\"prompt\":\"Pick\",\"options\":[\
           {\"text\":\"locked\",\"action\":\"set x 1\",\"requires\":\"flag == 1\"},\
           {\"text\":\"open\",\"action\":\"set x 2\"}]},\
          {\"type\":\"text\",\"content\":\"done\"}]}",
    )
    .unwrap();
    let out = outputs(&mut core);
    match &out[1] {
        Output::DisplayChoice { options, .. } => {
            assert_eq!(options.len(), 1);
            assert_eq!(options[0].text, b"open".to_vec());
        }
        other => panic!("unexpected output {:?}", other),
    }
    // the disabled option's index is simply out of range: not honored
    assert!(!core.make_choice_selection(1));
    assert!(!core.make_choice_selection(-1));
    // selecting the enabled option runs its action and moves on
    assert!(core.make_choice_selection(0));
    assert_eq!(core.get(b"x"), Some(Entry::Number(2_000)));
    let out = outputs(&mut core);
    assert!(matches!(&out[0], Output::DisplayText { text, .. } if text == &b"done".to_vec()));
}

#[test]
fn end_command_finishes_the_track() {
    let mut core = CoreDialog::new();
    core.load_track_text(
        b"{\"nodes\":[{\"type\":\"action\",\"code\":\"end\"},\
          {\"type\":\"text\",\"content\":\"never\"}]}",
    )
    .unwrap();
    core.tick();
    let out = outputs(&mut core);
    assert_eq!(out.len(), 2);
    assert!(matches!(out[0], Output::TrackStarted));
    assert!(matches!(out[1], Output::TrackEnded));
    assert!(!core.has_session());
}

#[test]
fn signal_lines_publish_and_never_pause() {
    let mut core = CoreDialog::new();
    core.load_track_text(
        b"{\"nodes\":[{\"type\":\"signal\",\"name\":\"boom\",\"args\":[7]},\
          {\"type\":\"text\",\"content\":\"after\"}]}",
    )
    .unwrap();
    let out = outputs(&mut core);
    assert_eq!(out.len(), 3);
    match &out[1] {
        Output::Signal { name, args } => {
            assert_eq!(name, &b"boom".to_vec());
            assert_eq!(args, &vec![b"7".to_vec()]);
        }
        other => panic!("unexpected output {:?}", other),
    }
    assert!(matches!(&out[2], Output::DisplayText { text, .. } if text == &b"after".to_vec()));
}

#[test]
fn action_mutates_blackboard_and_text_interpolates() {
    let mut core = CoreDialog::new();
    core.load_track_text(
        b"{\"nodes\":[{\"type\":\"action\",\"code\":\"set name hero\"},\
          {\"type\":\"text\",\"content\":\"hi {{ name }}\"}]}",
    )
    .unwrap();
    core.tick();
    let out = outputs(&mut core);
    let last = out.last().unwrap();
    assert!(matches!(last, Output::DisplayText { text, .. } if text == &b"hi hero".to_vec()));
    assert!(core.blackboard_query(b"name == hero"));
    assert_eq!(core.blackboard_parse(b"<{{name}}>"), b"<hero>".to_vec());
    assert!(core.handle_line_query(b"name == hero"));
}

#[test]
fn failed_load_leaves_the_session_untouched() {
    let mut core = CoreDialog::new();
    core.load_track_text(b"{\"nodes\":[{\"type\":\"text\",\"content\":\"Hi\"}]}")
        .unwrap();
    let _ = outputs(&mut core);
    assert!(core.load_track_text(b"{\"nodes\":[{\"content\":\"x\"}]}").is_err());
    assert!(core.load_track_text(b"not json").is_err());
    assert!(core.has_session());
    assert_eq!(outputs(&mut core).len(), 0);
}

#[test]
fn loading_over_a_live_session_tears_it_down() {
    let mut core = CoreDialog::new();
    core.load_track_text(b"{\"nodes\":[{\"type\":\"text\",\"content\":\"one\"}]}")
        .unwrap();
    let _ = outputs(&mut core);
    core.load_track_text(b"{\"nodes\":[{\"type\":\"text\",\"content\":\"two\"}]}")
        .unwrap();
    let out = outputs(&mut core);
    assert_eq!(out.len(), 3);
    assert!(matches!(out[0], Output::TrackEnded));
    assert!(matches!(out[1], Output::TrackStarted));
    assert!(matches!(&out[2], Output::DisplayText { text, .. } if text == &b"two".to_vec()));
}

#[test]
fn advance_is_a_noop_while_pending() {
    let mut core = CoreDialog::new();
    core.load_track_text(
        b"{\"nodes\":[{\"type\":\"action\",\"code\":\"set x 1\"},\
          {\"type\":\"text\",\"content\":\"after\"}]}",
    )
    .unwrap();
    assert_eq!(core.current_state(), DialogState::Pending);
    core.advance();
    assert_eq!(core.current_state(), DialogState::Pending);
    assert_eq!(outputs(&mut core).len(), 1); // just the start event
    core.tick();
    let out = outputs(&mut core);
    assert!(matches!(&out[0], Output::DisplayText { text, .. } if text == &b"after".to_vec()));
}

#[test]
fn singleton_lifecycle() {
    let mut core = register_singletons();
    assert!(!core.has_session());
    core.load_track_text(b"{\"nodes\":[{\"type\":\"text\",\"content\":\"Hi\"}]}")
        .unwrap();
    unregister_singletons(&mut core);
    assert!(!core.has_session());
    assert_eq!(core.remaining().len(), 0);
    let out = core.take_outputs();
    assert!(matches!(out.last().unwrap(), Output::TrackEnded));
}

#[test]
fn empty_track_starts_and_ends_at_once() {
    let mut core = CoreDialog::new();
    core.load_track_text(b"{\"nodes\":[]}").unwrap();
    let out = outputs(&mut core);
    assert_eq!(out.len(), 2);
    assert!(matches!(out[0], Output::TrackStarted));
    assert!(matches!(out[1], Output::TrackEnded));
    assert!(!core.has_session());
}
