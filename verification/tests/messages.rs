use coordinator::framing::{length_prefix, message_length, receive, Received, Source, MAX_MESSAGE_LEN};
use coordinator::inbound::{
    handle_bot_source, handle_user_source, BotMessage, BotSourceEvent, ConnectHandshake, GameAborted,
    GameEnded, InGameEvent, InGameParameters, LobbyFound, ReconnectHandshake, UserCommand, UserMessage,
    UserSourceEvent,
};
use coordinator::outbound::{
    name_win_team, pass_on_event, GAME_ABORTED, GAME_ENDED, HEALTH_CHECK, LOBBY_FULL, LOBBY_NOT_FULL,
    PRE_IN_GAME_DISCONNECT, TERMINATE,
};

#[test]
fn lengths_are_written_highest_byte_first() {
    assert_eq!(length_prefix(b""), [0, 0, 0, 0]);
    assert_eq!(length_prefix(b"11"), [0, 0, 0, 2]);
    assert_eq!(length_prefix(&vec![0u8; 0x1234]), [0, 0, 0x12, 0x34]);
    assert_eq!(length_prefix(&vec![0u8; 0x2_0001]), 0x2_0001u32.to_be_bytes());
}

#[test]
fn lengths_are_read_within_limits() {
    assert_eq!(message_length(&[0, 0, 0, 0]), None);
    assert_eq!(message_length(&[0, 0, 0, 1]), Some(1));
    assert_eq!(message_length(&[0, 0, 0x20, 0]), Some(MAX_MESSAGE_LEN));
    assert_eq!(message_length(&[0, 0, 0x20, 1]), None);
    assert_eq!(message_length(&[1, 0, 0, 0]), None);
    assert_eq!(message_length(&[255, 255, 255, 255]), None);
}

#[test]
fn a_prefix_announces_its_payload() {
    for size in [1usize, 2, 255, 256, 8191, 8192] {
        assert_eq!(message_length(&length_prefix(&vec![7u8; size])), Some(size));
    }
    assert_eq!(message_length(&length_prefix(&vec![7u8; 8193])), None);
}

#[test]
fn bodies_are_read_as_far_as_their_sender() {
    assert_eq!(receive(b"01a:b"), Received::Bot("01a:b"));
    assert_eq!(receive(b"10:7"), Received::User("10:7"));
    assert_eq!(receive(b"20"), Received::UnknownSource("20"));
    assert_eq!(receive(b"0"), Received::Ignored);
    assert_eq!(receive(b""), Received::Ignored);
    assert_eq!(receive("é0".as_bytes()), Received::Malformed);
    assert_eq!(receive("é".as_bytes()), Received::Malformed);
    assert_eq!(receive(&[0x30, 0xff]), Received::NotText);
    assert_eq!(receive(&[0xc3]), Received::NotText);
}

#[test]
fn a_sent_message_arrives() {
    let message = "01бот:лобби";
    assert_eq!(message_length(&length_prefix(message.as_bytes())), Some(message.len()));
    assert_eq!(receive(message.as_bytes()), Received::Bot(message));
}

#[test]
fn codes_stand_for_senders_and_events() {
    assert_eq!(Source::from_str("0"), Source::Bot);
    assert_eq!(Source::from_str("1"), Source::User);
    assert_eq!(Source::from_str("2"), Source::Unknown);
    assert_eq!(Source::from_str(""), Source::Unknown);
    let events = [
        ("0", BotSourceEvent::ReconnectHandshake),
        ("1", BotSourceEvent::LobbyFound),
        ("2", BotSourceEvent::InGameParameters),
        ("3", BotSourceEvent::GameEnded),
        ("4", BotSourceEvent::GameAborted),
        ("5", BotSourceEvent::InGameEvent),
        ("6", BotSourceEvent::ConnectHandshake),
        ("7", BotSourceEvent::Unknown),
        ("00", BotSourceEvent::Unknown),
    ];
    for (code, event) in events {
        assert_eq!(BotSourceEvent::from_str(code), event);
    }
    assert_eq!(UserSourceEvent::from_str("0"), UserSourceEvent::UserCommand);
    assert_eq!(UserSourceEvent::from_str("1"), UserSourceEvent::Unknown);
}

#[test]
fn reports_are_read_from_their_fields() {
    assert_eq!(ConnectHandshake::new("0617:x").bot_number, "17:x");
    let report = ReconnectHandshake::new("0017:lobby:1:more", "wire");
    assert_eq!(report.bot_number, "17");
    assert_eq!(report.lobby_id, "lobby");
    assert_eq!(report.side, "1");
    assert_eq!(report.tcp_writer, "wire");
    let report = LobbyFound::new("0117:a:b", "wire");
    assert_eq!(report.bot_number, "17");
    assert_eq!(report.lobby_id, "a:b");
    assert_eq!(report.tcp_writer, "wire");
    let report = InGameParameters::new("02b:l:0", "wire");
    assert_eq!((report.bot_number.as_str(), report.lobby_id.as_str()), ("b", "l"));
    assert_eq!((report.side.as_str(), report.tcp_writer), ("0", "wire"));
    let report = GameEnded::new("03b:l:76:3605");
    assert_eq!((report.bot_number.as_str(), report.lobby_id.as_str()), ("b", "l"));
    assert_eq!((report.dota_id.as_str(), report.match_duration_secs), ("76", 3605));
    let report = GameAborted::new("04b:l:rest");
    assert_eq!((report.bot_number.as_str(), report.lobby_id.as_str()), ("b", "l"));
    let report = InGameEvent::new("05b:l:0");
    assert_eq!((report.bot_number.as_str(), report.lobby_id.as_str()), ("b", "l"));
    assert_eq!(report.event, "0");
    let command = UserCommand::new("10:7,8,", "list");
    assert_eq!(command.command, "0");
    assert_eq!(command.affected_bots, vec!["7".to_string(), "8".to_string(), "".to_string()]);
    assert_eq!(command.bot_clients, "list");
}

#[test]
fn bots_messages_are_told_apart() {
    assert!(matches!(handle_bot_source("00b:l:1", 5), BotMessage::ReconnectHandshake(report)
        if report.side == "1" && report.tcp_writer == 5));
    assert!(matches!(handle_bot_source("01b:l", 5), BotMessage::LobbyFound(report)
        if report.lobby_id == "l" && report.tcp_writer == 5));
    assert!(matches!(handle_bot_source("02b:l:1", 5), BotMessage::InGameParameters(_)));
    assert!(matches!(handle_bot_source("03b:l:76:60", 5), BotMessage::GameEnded(report)
        if report.match_duration_secs == 60));
    assert!(matches!(handle_bot_source("04b:l", 5), BotMessage::GameAborted(_)));
    assert!(matches!(handle_bot_source("05b:l:9", 5), BotMessage::InGameEvent(report)
        if report.event == "9"));
    assert!(matches!(handle_bot_source("06", 5), BotMessage::ConnectHandshake(report, 5)
        if report.bot_number.is_empty()));
    assert_eq!(handle_bot_source("07b", 5), BotMessage::Unknown);
}

#[test]
fn messages_without_their_fields_are_refused() {
    assert_eq!(handle_bot_source("0", 5), BotMessage::Malformed);
    assert_eq!(handle_bot_source("0é", 5), BotMessage::Malformed);
    assert_eq!(handle_bot_source("00b:l", 5), BotMessage::Malformed);
    assert_eq!(handle_bot_source("01b", 5), BotMessage::Malformed);
    assert_eq!(handle_bot_source("02b:l", 5), BotMessage::Malformed);
    assert_eq!(handle_bot_source("03b:l:76", 5), BotMessage::Malformed);
    assert_eq!(handle_bot_source("03b:l:76:-1", 5), BotMessage::Malformed);
    assert_eq!(handle_bot_source("04b", 5), BotMessage::Malformed);
    assert_eq!(handle_bot_source("05b:l", 5), BotMessage::Malformed);
    assert_eq!(handle_bot_source("0:", 5), BotMessage::Unknown);
}

#[test]
fn users_messages_are_told_apart() {
    assert!(matches!(handle_user_source("10:7,8", 5), UserMessage::UserCommand(command)
        if command.affected_bots.len() == 2 && command.bot_clients == 5));
    assert_eq!(handle_user_source("11:7", 5), UserMessage::Unknown);
    assert_eq!(handle_user_source("10", 5), UserMessage::Malformed);
    assert_eq!(handle_user_source("1é:7", 5), UserMessage::Malformed);
}

#[test]
fn outgoing_messages_have_their_codes() {
    assert_eq!(HEALTH_CHECK, "0");
    assert_eq!(TERMINATE, "00");
    assert_eq!(LOBBY_NOT_FULL, "10");
    assert_eq!(LOBBY_FULL, "11");
    assert_eq!(name_win_team("1"), "41");
    assert_eq!(PRE_IN_GAME_DISCONNECT, "50");
    assert_eq!(pass_on_event("0"), "60");
    assert_eq!(GAME_ABORTED, "70");
    assert_eq!(GAME_ENDED, "60");
    assert_eq!(GAME_ENDED, pass_on_event("0"));
    assert!(receive(HEALTH_CHECK.as_bytes()) == Received::Ignored);
    assert!(receive(TERMINATE.as_bytes()) != Received::Ignored);
}

#[test]
fn different_lengths_have_different_prefixes() {
    let sizes = [0usize, 1, 255, 256, 257, 65_535, 65_536];
    for left in sizes {
        for right in sizes {
            let same = length_prefix(&vec![0u8; left]) == length_prefix(&vec![0u8; right]);
            assert_eq!(same, left == right);
        }
    }
}
