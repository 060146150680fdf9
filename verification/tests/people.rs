use coordinator::clients::{
    connections_to_check, dead_connections_sanitizer, handle_connect_handshake,
    send_user_termination_command_to_bots,
};
use coordinator::config::Config;
use coordinator::inbound::ConnectHandshake;
use coordinator::notify::{
    read_vk_reply, send_telegram_message, send_vk_message, vk_request, vk_verdict, RequestError,
    VkReply, REQUEST_TEXT_LIMIT,
};
use coordinator::string_map::StringMap;

fn config() -> Config {
    Config {
        debug: false,
        app_name: String::new(),
        app_version: String::new(),
        deployment_env: String::new(),
        coordinator_server_ip: String::new(),
        coordinator_server_port: 0,
        otel_endpoint: String::new(),
        otel_traces_enabled: false,
        otel_metrics_enabled: false,
        otel_logs_enabled: false,
        log_dir: String::new(),
        telegram_bot_token: "12:ab".to_string(),
        telegram_chat_id: "-100".to_string(),
        vk_token: "t&k".to_string(),
        vk_peer_id: -5,
    }
}

fn connected(numbers: &[(&str, u32)]) -> StringMap<u32> {
    let mut clients = StringMap::new();
    for (number, writer) in numbers {
        let handshake = ConnectHandshake { bot_number: number.to_string() };
        handle_connect_handshake(&mut clients, handshake, *writer);
    }
    clients
}

#[test]
fn the_latest_connection_of_a_bot_counts() {
    let clients = connected(&[("a", 1), ("b", 2), ("a", 3)]);
    assert_eq!(clients.len(), 2);
    assert_eq!(clients.get("a"), Some(&3));
}

#[test]
fn bots_that_are_to_end_are_told_once() {
    let mut clients = connected(&[("a", 1), ("b", 2), ("c", 3)]);
    let affected = vec!["b".to_string(), "x".to_string(), "b".to_string(), "a".to_string()];
    let writers = send_user_termination_command_to_bots(&mut clients, &affected);
    assert_eq!(writers, vec![Some(2), None, None, Some(1)]);
    assert_eq!(clients.len(), 1);
    assert_eq!(clients.get("c"), Some(&3));
}

#[test]
fn dead_connections_are_dropped() {
    let mut clients = connected(&[("a", 1), ("b", 2), ("c", 3)]);
    let mut dead = Vec::new();
    for (number, writer) in connections_to_check(&clients) {
        if *writer != 2 {
            dead.push(number.clone());
        }
    }
    assert_eq!(dead, vec!["a".to_string(), "c".to_string()]);
    dead_connections_sanitizer(&mut clients, &dead);
    assert_eq!(clients.len(), 1);
    assert!(clients.contains_key("b"));
    dead_connections_sanitizer(&mut clients, &vec![]);
    assert_eq!(clients.len(), 1);
}

#[test]
fn vk_is_asked_with_encoded_values() {
    assert_eq!(
        vk_request(&config(), "a b", 7).as_deref(),
        Ok(
            "https://api.vk.com/method/messages.send\
             ?peer_id=-5&message=a+b&random_id=7&access_token=t%26k&v=5.131"
        )
    );
}

#[test]
fn vk_messages_have_numbers_by_chance() {
    let front = "https://api.vk.com/method/messages.send?peer_id=-5&message=x&random_id=";
    let url = send_vk_message(&config(), "x").unwrap();
    let rest = url.strip_prefix(front).unwrap();
    let number: i64 = rest.strip_suffix("&access_token=t%26k&v=5.131").unwrap().parse().unwrap();
    assert!(1 <= number && number < 999_999_999);
}

#[test]
fn telegram_is_asked_with_encoded_values() {
    assert_eq!(
        send_telegram_message(&config(), "✅ 100%").as_deref(),
        Ok(
            "https://api.telegram.org/bot12:ab/sendMessage?chat_id=-100&text=%E2%9C%85+100%25"
        )
    );
}

#[test]
fn replies_of_vk_are_read() {
    assert!(matches!(read_vk_reply("{\"response\":1}"), VkReply::Sent));
    assert!(matches!(read_vk_reply("[1,2]"), VkReply::Sent));
    assert!(matches!(read_vk_reply("{\"error\":{\"error_code\":5}}"), VkReply::Failed(text)
        if text == "{\"error_code\":5}"));
    assert!(matches!(read_vk_reply("{\"error\":null}"), VkReply::Failed(text) if text == "null"));
    assert!(matches!(read_vk_reply("<html>"), VkReply::NotJson(_)));
    assert!(matches!(read_vk_reply(""), VkReply::NotJson(_)));
}

#[test]
fn a_complaint_decides_on_a_reply() {
    assert!(matches!(vk_verdict(Ok(None)), VkReply::Sent));
    assert!(matches!(vk_verdict(Ok(Some("x".to_string()))), VkReply::Failed(text) if text == "x"));
    let error = serde_json::from_str::<u8>("x").unwrap_err();
    assert!(matches!(vk_verdict(Err(error)), VkReply::NotJson(_)));
}

#[test]
fn requests_that_are_too_long_are_refused() {
    let longest = "x".repeat(REQUEST_TEXT_LIMIT);
    let too_long = "x".repeat(REQUEST_TEXT_LIMIT + 1);
    assert!(vk_request(&config(), &longest, 7).is_ok());
    assert_eq!(vk_request(&config(), &too_long, 7), Err(RequestError::TooLong));
    assert_eq!(send_vk_message(&config(), &too_long), Err(RequestError::TooLong));
    assert!(send_telegram_message(&config(), &longest).is_ok());
    assert_eq!(send_telegram_message(&config(), &too_long), Err(RequestError::TooLong));
    let mut long_token = config();
    long_token.vk_token = too_long.clone();
    long_token.telegram_bot_token = too_long.clone();
    assert_eq!(vk_request(&long_token, "x", 7), Err(RequestError::TooLong));
    assert_eq!(send_telegram_message(&long_token, "x"), Err(RequestError::TooLong));
    let mut long_chat = config();
    long_chat.telegram_chat_id = too_long;
    assert_eq!(send_telegram_message(&long_chat, "x"), Err(RequestError::TooLong));
}
