use reticulum_node::chat::format_hash_short;
use reticulum_node::chat::format_incoming_message;
use reticulum_node::chat::ChatCommand;
use reticulum_node::chat::ChatState;
use reticulum_node::chat::KnownDestination;
use reticulum_node::chat::HELP_TEXT;
use reticulum_node::chat::MAX_KNOWN_DESTINATIONS;
use reticulum_node::hash::AddressHash;

fn test_hash(index: u8) -> AddressHash {
    let mut bytes = [0u8; 16];
    bytes[0] = index;
    bytes[15] = index;
    bytes
}

fn test_descriptor(index: u8) -> u32 {
    1000 + index as u32
}

#[test]
fn test_parse_msg_command() {
    match ChatCommand::parse("msg 0 Hello world") {
        ChatCommand::Message { dest_id, text } => {
            assert_eq!(dest_id, "0");
            assert_eq!(text, "Hello world");
        }
        _ => panic!("Expected Message command"),
    }
}

#[test]
fn test_parse_msg_shortcut() {
    match ChatCommand::parse("m a1b2 Test") {
        ChatCommand::Message { dest_id, text } => {
            assert_eq!(dest_id, "a1b2");
            assert_eq!(text, "Test");
        }
        _ => panic!("Expected Message command"),
    }
}

#[test]
fn test_parse_msg_keeps_inner_blanks() {
    match ChatCommand::parse("  SEND   x1   two  words  ") {
        ChatCommand::Message { dest_id, text } => {
            assert_eq!(dest_id, "x1");
            assert_eq!(text, "  two  words");
        }
        _ => panic!("Expected Message command"),
    }
}

#[test]
fn test_parse_broadcast() {
    match ChatCommand::parse("broadcast Hello everyone") {
        ChatCommand::Broadcast { text } => {
            assert_eq!(text, "Hello everyone");
        }
        _ => panic!("Expected Broadcast command"),
    }
    match ChatCommand::parse("BC \t hi there \n") {
        ChatCommand::Broadcast { text } => assert_eq!(text, "hi there"),
        _ => panic!("Expected Broadcast command"),
    }
    assert!(matches!(ChatCommand::parse("b x"), ChatCommand::Broadcast { .. }));
}

#[test]
fn test_parse_list() {
    assert!(matches!(ChatCommand::parse("list"), ChatCommand::List));
    assert!(matches!(ChatCommand::parse("ls"), ChatCommand::List));
    assert!(matches!(ChatCommand::parse("l"), ChatCommand::List));
    assert!(matches!(ChatCommand::parse("LiSt  ignored"), ChatCommand::List));
}

#[test]
fn test_parse_status() {
    assert!(matches!(ChatCommand::parse("status"), ChatCommand::Status));
    assert!(matches!(ChatCommand::parse("stat"), ChatCommand::Status));
    assert!(matches!(ChatCommand::parse("s"), ChatCommand::Status));
}

#[test]
fn test_parse_help() {
    assert!(matches!(ChatCommand::parse("help"), ChatCommand::Help));
    assert!(matches!(ChatCommand::parse("h"), ChatCommand::Help));
    assert!(matches!(ChatCommand::parse("?"), ChatCommand::Help));
}

#[test]
fn test_parse_unknown() {
    assert!(matches!(ChatCommand::parse("foo"), ChatCommand::Unknown(_)));
    match ChatCommand::parse(" Foo bar") {
        ChatCommand::Unknown(why) => assert_eq!(why, "Unknown command: Foo. Type 'help' for commands."),
        _ => panic!("Expected Unknown"),
    }
    // a tab does not end the command word
    match ChatCommand::parse("list\tx") {
        ChatCommand::Unknown(why) => assert_eq!(why, "Unknown command: list\tx. Type 'help' for commands."),
        _ => panic!("Expected Unknown"),
    }
}

#[test]
fn test_parse_empty() {
    assert!(matches!(ChatCommand::parse(""), ChatCommand::Unknown(_)));
    assert!(matches!(ChatCommand::parse("   "), ChatCommand::Unknown(_)));
    match ChatCommand::parse(" \u{3000}\t") {
        ChatCommand::Unknown(why) => assert_eq!(why, ""),
        _ => panic!("Expected Unknown"),
    }
}

#[test]
fn test_msg_missing_args() {
    assert!(matches!(ChatCommand::parse("msg"), ChatCommand::Unknown(_)));
    assert!(matches!(ChatCommand::parse("msg 0"), ChatCommand::Unknown(_)));
    match ChatCommand::parse("msg 0 ") {
        ChatCommand::Unknown(why) => assert_eq!(why, "Usage: msg <dest_id> <message>"),
        _ => panic!("Expected Unknown"),
    }
    match ChatCommand::parse("broadcast   ") {
        ChatCommand::Unknown(why) => assert_eq!(why, "Usage: broadcast <message>"),
        _ => panic!("Expected Unknown"),
    }
}

#[test]
fn test_chat_state_empty() {
    let state: ChatState<u32> = ChatState::new("test_identity".to_string());
    assert_eq!(state.all_destinations().len(), 0);
    assert!(state.format_list().contains("No known destinations"));
    assert!(state.format_status().contains("test_identity"));
    assert_eq!(state.identity_hash(), "test_identity");
}

#[test]
fn test_chat_state_add_destination() {
    let mut state = ChatState::new("test".to_string());
    let hash = test_hash(1);
    let desc = test_descriptor(1);
    assert!(state.add_destination(hash, desc));
    assert_eq!(state.all_destinations().len(), 1);
    let list = state.format_list();
    assert!(list.contains("[0]"));
    assert!(list.contains("01"));
}

#[test]
fn test_chat_state_get_destination_by_index() {
    let mut state = ChatState::new("test".to_string());
    let hash = test_hash(42);
    let desc = test_descriptor(42);
    state.add_destination(hash, desc);
    let found = state.get_destination("0");
    assert!(found.is_some());
    assert_eq!(found.unwrap().hash, hash);
    assert_eq!(found.unwrap().descriptor, 1042);
    assert!(state.get_destination("1").is_none());
    assert!(state.get_destination("999").is_none());
    assert!(state.get_destination("+0").is_some());
    // too large for an index: taken as a prefix, which matches nothing
    assert!(state.get_destination("99999999999999999999999999").is_none());
}

#[test]
fn test_chat_state_get_destination_by_hash_prefix() {
    let mut state = ChatState::new("test".to_string());
    let hash = test_hash(0xAB);
    let desc = test_descriptor(0xAB);
    state.add_destination(test_hash(0xCD), test_descriptor(0xCD));
    state.add_destination(hash, desc);
    let found = state.get_destination("ab");
    assert!(found.is_some());
    assert_eq!(found.unwrap().hash, hash);
    assert_eq!(state.get_destination("AB00").unwrap().hash, hash);
    assert_eq!(state.get_destination("ab000000").unwrap().display_name, "ab000000");
    assert!(state.get_destination("ab0000000").is_none());
    assert!(state.get_destination("ff").is_none());
}

#[test]
fn test_chat_state_lru_eviction() {
    let mut state = ChatState::new("test".to_string());
    for i in 0..MAX_KNOWN_DESTINATIONS {
        state.add_destination_at(test_hash(i as u8), test_descriptor(i as u8), 1_000 + i as u64);
    }
    assert_eq!(state.all_destinations().len(), MAX_KNOWN_DESTINATIONS);
    let new_hash = test_hash(255);
    assert!(state.add_destination_at(new_hash, test_descriptor(255), 5_000));
    assert_eq!(state.all_destinations().len(), MAX_KNOWN_DESTINATIONS);
    assert!(state.all_destinations().iter().any(|d| d.hash == new_hash));
    let first_hash = test_hash(0);
    assert!(!state.all_destinations().iter().any(|d| d.hash == first_hash));
    // the last destination took the place of the evicted one
    assert_eq!(state.all_destinations()[0].hash, test_hash(99));
    assert_eq!(state.all_destinations()[99].hash, new_hash);
    assert_eq!(state.get_destination("0").unwrap().hash, test_hash(99));
}

#[test]
fn test_chat_state_eviction_spares_what_was_seen_again() {
    let mut state = ChatState::new("test".to_string());
    for i in 0..MAX_KNOWN_DESTINATIONS {
        state.add_destination_at(test_hash(i as u8), test_descriptor(i as u8), 1_000 + i as u64);
    }
    assert!(!state.add_destination_at(test_hash(0), test_descriptor(0), 3_000));
    assert!(state.add_destination_at(test_hash(200), test_descriptor(200), 4_000));
    assert!(state.all_destinations().iter().any(|d| d.hash == test_hash(0)));
    assert!(!state.all_destinations().iter().any(|d| d.hash == test_hash(1)));
}

#[test]
fn test_chat_state_update_existing() {
    let mut state = ChatState::new("test".to_string());
    let hash = test_hash(1);
    assert!(state.add_destination_at(hash, test_descriptor(1), 10));
    assert!(!state.add_destination_at(hash, test_descriptor(2), 20));
    assert_eq!(state.all_destinations().len(), 1);
    assert_eq!(state.all_destinations()[0].last_seen, 20);
    assert_eq!(state.all_destinations()[0].descriptor, 1001);
}

#[test]
fn test_format_list_and_status_exact() {
    let mut state = ChatState::new("abcd".to_string());
    state.add_destination_at(test_hash(0x1f), 0u8, 1_000_000);
    state.add_destination_at(test_hash(0xa0), 0u8, 29_500_000);
    assert_eq!(
        state.format_list_at(31_000_000),
        "Known destinations:\n  [0] 1f000000 (seen 30s ago)\n  [1] a0000000 (seen 1s ago)\n"
    );
    assert_eq!(state.format_status_at(75), "Node Status:\n  Identity: abcd\n  Uptime: 75s\n  Known destinations: 2\n");
    assert!(state.uptime_secs() < 10);
}

#[test]
fn test_known_destination() {
    let d = KnownDestination::new(test_hash(0xfe), "desc", 2_000_000);
    assert_eq!(d.display_name, "fe000000");
    assert_eq!(d.seconds_ago(5_999_999), 3);
    assert_eq!(d.seconds_ago(1_000_000), 0);
}

#[test]
fn test_format_hash_short() {
    let hash: AddressHash = [0x01, 0x23, 0xab, 0xff, 0x77, 0, 0, 0, 0, 0, 0, 0, 0, 0, 0, 0];
    assert_eq!(format_hash_short(&hash), "0123abff");
}

#[test]
fn test_format_incoming_message() {
    let hash = test_hash(0xe5);
    assert_eq!(format_incoming_message(&hash, b"Hello from node B!"), "[e5000000]: Hello from node B!");
    assert_eq!(format_incoming_message(&hash, "gr\u{fc}\u{df}e".as_bytes()), "[e5000000]: gr\u{fc}\u{df}e");
    assert_eq!(format_incoming_message(&hash, &[0xff, 0xfe, 0x00]), "[e5000000]: <binary 3 bytes>");
    assert_eq!(format_incoming_message(&hash, &[]), "[e5000000]: ");
}

#[test]
fn test_help_text_names_the_commands() {
    for word in ["msg", "broadcast", "list", "status", "help"] {
        assert!(HELP_TEXT.contains(word));
    }
}
