//! Document validation: the track parser over JSON text and trees.
use sqore::doc::DocValue;
use sqore::track::{DialogError, DialogTrack, Line, StructureReason};

#[test]
fn parse_simple_text_track() {
    let t = DialogTrack::load_from_text(b"{\"nodes\":[{\"type\":\"text\",\"content\":\"Hi\"}]}")
        .unwrap();
    assert_eq!(t.lines.len(), 1);
    match &t.lines[0] {
        Line::Text { text, character, gate } => {
            assert_eq!(text, &b"Hi".to_vec());
            assert_eq!(character, &b"".to_vec());
            assert_eq!(gate, &b"".to_vec());
        }
        other => panic!("unexpected line {:?}", other),
    }
}

#[test]
fn missing_type_names_the_node_index() {
    let r = DialogTrack::load_from_text(
        b"{\"nodes\":[{\"type\":\"text\",\"content\":\"Hi\"},{\"content\":\"x\"}]}",
    );
    match r {
        Err(DialogError::InternalJsonParseError { node_index, reason, .. }) => {
            assert_eq!(node_index, Some(1));
            assert_eq!(reason, StructureReason::MissingType);
        }
        other => panic!("unexpected result {:?}", other),
    }
}

#[test]
fn type_is_case_insensitive() {
    let t = DialogTrack::load_from_text(b"{\"nodes\":[{\"type\":\"TEXT\",\"content\":\"Hi\"}]}")
        .unwrap();
    assert!(matches!(t.lines[0], Line::Text { .. }));
}

#[test]
fn unknown_type_fails() {
    let r = DialogTrack::load_from_text(b"{\"nodes\":[{\"type\":\"dance\"}]}");
    match r {
        Err(DialogError::InternalJsonParseError { node_index, reason, .. }) => {
            assert_eq!(node_index, Some(0));
            assert_eq!(reason, StructureReason::UnknownType);
        }
        other => panic!("unexpected result {:?}", other),
    }
}

#[test]
fn bad_json_is_an_external_error() {
    let r = DialogTrack::load_from_text(b"{\"nodes\": [");
    assert!(matches!(r, Err(DialogError::ExternalJsonParseError { .. })));
}

#[test]
fn missing_nodes_key_fails() {
    let r = DialogTrack::load_from_text(b"{\"lines\":[]}");
    match r {
        Err(DialogError::InternalJsonParseError { node_index, reason, .. }) => {
            assert_eq!(node_index, None);
            assert_eq!(reason, StructureReason::MissingNodes);
        }
        other => panic!("unexpected result {:?}", other),
    }
}

#[test]
fn choice_with_options() {
    let t = DialogTrack::load_from_text(
        b"{\"nodes\":[{\"type\":\"choice\",\"prompt\":\"Pick\",\"options\":[\
           {\"text\":\"a\",\"action\":\"set x 1\"},\
           {\"text\":\"b\",\"action\":\"set x 2\",\"requires\":\"x == 1\"}]}]}",
    )
    .unwrap();
    match &t.lines[0] {
        Line::Choice { prompt, options, .. } => {
            assert_eq!(prompt, &b"Pick".to_vec());
            assert_eq!(options.len(), 2);
            assert_eq!(options[0].text, b"a".to_vec());
            assert_eq!(options[0].action, b"set x 1".to_vec());
            assert_eq!(options[0].gate, b"".to_vec());
            assert_eq!(options[1].gate, b"x == 1".to_vec());
        }
        other => panic!("unexpected line {:?}", other),
    }
}

#[test]
fn malformed_option_aborts_the_parse() {
    let r = DialogTrack::load_from_text(
        b"{\"nodes\":[{\"type\":\"choice\",\"options\":[{\"text\":\"a\"}]}]}",
    );
    match r {
        Err(DialogError::InternalJsonParseError { node_index, reason, .. }) => {
            assert_eq!(node_index, Some(0));
            assert_eq!(reason, StructureReason::BadOption { option_index: 0 });
        }
        other => panic!("unexpected result {:?}", other),
    }
}

#[test]
fn signal_args_reserialize_to_literals() {
    let t = DialogTrack::load_from_text(
        b"{\"nodes\":[{\"type\":\"signal\",\"name\":\"boom\",\"args\":[1,\"x\",true]}]}",
    )
    .unwrap();
    match &t.lines[0] {
        Line::Signal { name, args } => {
            assert_eq!(name, &b"boom".to_vec());
            assert_eq!(args, &vec![b"1".to_vec(), b"\"x\"".to_vec(), b"true".to_vec()]);
        }
        other => panic!("unexpected line {:?}", other),
    }
}

#[test]
fn signal_without_fields_fails() {
    let r = DialogTrack::load_from_text(b"{\"nodes\":[{\"type\":\"signal\",\"name\":\"s\"}]}");
    match r {
        Err(DialogError::InternalJsonParseError { reason, .. }) => {
            assert_eq!(reason, StructureReason::MissingSignalFields);
        }
        other => panic!("unexpected result {:?}", other),
    }
}

#[test]
fn action_node_carries_its_code() {
    let t = DialogTrack::load_from_text(
        b"{\"nodes\":[{\"type\":\"action\",\"code\":\"set hp 1\"}]}",
    )
    .unwrap();
    match &t.lines[0] {
        Line::Action { action } => assert_eq!(action, &b"set hp 1".to_vec()),
        other => panic!("unexpected line {:?}", other),
    }
}

#[test]
fn load_from_dict_accepts_a_tree() {
    let node = DocValue::Obj(vec![
        (b"type".to_vec(), DocValue::Text(b"text".to_vec())),
        (b"content".to_vec(), DocValue::Text(b"Yo".to_vec())),
    ]);
    let doc = DocValue::Obj(vec![(b"nodes".to_vec(), DocValue::Arr(vec![node]))]);
    let t = DialogTrack::load_from_dict(&doc).unwrap();
    assert!(matches!(&t.lines[0], Line::Text { text, .. } if text == &b"Yo".to_vec()));
}

#[test]
fn numeric_content_is_stringified() {
    let t = DialogTrack::load_from_text(b"{\"nodes\":[{\"type\":\"text\",\"content\":3.5}]}")
        .unwrap();
    match &t.lines[0] {
        Line::Text { text, .. } => assert_eq!(text, &b"3.5".to_vec()),
        other => panic!("unexpected line {:?}", other),
    }
}

#[test]
fn root_must_be_an_object() {
    let r = DialogTrack::load_from_text(b"[1,2]");
    match r {
        Err(DialogError::InternalJsonParseError { node_index, reason, .. }) => {
            assert_eq!(node_index, None);
            assert_eq!(reason, StructureReason::RootNotObject);
        }
        other => panic!("unexpected result {:?}", other),
    }
}

#[test]
fn nodes_must_be_an_array() {
    let r = DialogTrack::load_from_text(b"{\"nodes\": 5}");
    match r {
        Err(DialogError::InternalJsonParseError { reason, .. }) => {
            assert_eq!(reason, StructureReason::NodesNotArray);
        }
        other => panic!("unexpected result {:?}", other),
    }
}

#[test]
fn a_node_must_be_an_object() {
    let r = DialogTrack::load_from_text(b"{\"nodes\":[5]}");
    match r {
        Err(DialogError::InternalJsonParseError { node_index, reason, .. }) => {
            assert_eq!(node_index, Some(0));
            assert_eq!(reason, StructureReason::NodeNotObject);
        }
        other => panic!("unexpected result {:?}", other),
    }
}

#[test]
fn text_requires_content() {
    let r = DialogTrack::load_from_text(b"{\"nodes\":[{\"type\":\"text\"}]}");
    match r {
        Err(DialogError::InternalJsonParseError { reason, .. }) => {
            assert_eq!(reason, StructureReason::MissingContent);
        }
        other => panic!("unexpected result {:?}", other),
    }
}

#[test]
fn choice_requires_options() {
    let r = DialogTrack::load_from_text(b"{\"nodes\":[{\"type\":\"choice\"}]}");
    match r {
        Err(DialogError::InternalJsonParseError { reason, .. }) => {
            assert_eq!(reason, StructureReason::MissingOptions);
        }
        other => panic!("unexpected result {:?}", other),
    }
}

#[test]
fn action_requires_code() {
    let r = DialogTrack::load_from_text(b"{\"nodes\":[{\"type\":\"action\"}]}");
    match r {
        Err(DialogError::InternalJsonParseError { reason, .. }) => {
            assert_eq!(reason, StructureReason::MissingCode);
        }
        other => panic!("unexpected result {:?}", other),
    }
}
