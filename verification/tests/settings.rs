use coordinator::config::{debug_asked, env_bool, listen_address, Config, ConfigError, Environment};
use coordinator::telemetry::{filter_directives, OpTimer};

fn minimal() -> Environment {
    Environment {
        otel_service_name: None,
        app_version: None,
        deployment_env: None,
        coordinator_server_ip: Some("0.0.0.0".to_string()),
        coordinator_server_port: Some("8080".to_string()),
        otel_exporter_otlp_endpoint: None,
        otel_traces_enabled: None,
        otel_metrics_enabled: None,
        otel_logs_enabled: None,
        log_dir: None,
        telegram_bot_token: Some("tg".to_string()),
        telegram_chat_id: Some("chat".to_string()),
        vk_token: Some("vk".to_string()),
        vk_peer_id: Some("-17".to_string()),
    }
}

fn refused(environment: Environment) -> ConfigError {
    match Config::build(&vec![], environment) {
        Ok(_) => panic!("a configuration was built"),
        Err(error) => error,
    }
}

#[test]
fn settings_left_out_have_defaults() {
    let config = match Config::build(&vec!["coordinator".to_string()], minimal()) {
        Ok(config) => config,
        Err(error) => panic!("{}", error.message()),
    };
    assert!(!config.debug);
    assert_eq!(config.app_name, "skiesdota-coordinator");
    assert_eq!(config.app_version, "0.1.0");
    assert_eq!(config.deployment_env, "dev");
    assert_eq!(config.coordinator_server_ip, "0.0.0.0");
    assert_eq!(config.coordinator_server_port, 8080);
    assert_eq!(
        config.otel_endpoint,
        "http://gateway-opentelemetry-collector.otel-collector.svc.cluster.local:4317"
    );
    assert!(config.otel_traces_enabled && config.otel_metrics_enabled && config.otel_logs_enabled);
    assert_eq!(config.log_dir, "logs");
    assert_eq!(config.telegram_bot_token, "tg");
    assert_eq!(config.telegram_chat_id, "chat");
    assert_eq!(config.vk_token, "vk");
    assert_eq!(config.vk_peer_id, -17);
    assert_eq!(listen_address(&config), "0.0.0.0:8080");
}

#[test]
fn settings_given_are_taken() {
    let mut environment = minimal();
    environment.otel_service_name = Some("name".to_string());
    environment.app_version = Some("9".to_string());
    environment.deployment_env = Some("prod".to_string());
    environment.otel_exporter_otlp_endpoint = Some("http://localhost:1".to_string());
    environment.otel_traces_enabled = Some("false".to_string());
    environment.otel_metrics_enabled = Some("1".to_string());
    environment.otel_logs_enabled = Some("yes".to_string());
    environment.log_dir = Some("/var/log".to_string());
    environment.coordinator_server_port = Some("1".to_string());
    let arguments = vec!["coordinator".to_string(), "--debug".to_string()];
    let config = match Config::build(&arguments, environment) {
        Ok(config) => config,
        Err(error) => panic!("{}", error.message()),
    };
    assert!(config.debug);
    assert_eq!(config.app_name, "name");
    assert_eq!(config.app_version, "9");
    assert_eq!(config.deployment_env, "prod");
    assert_eq!(config.otel_endpoint, "http://localhost:1");
    assert!(!config.otel_traces_enabled);
    assert!(config.otel_metrics_enabled);
    assert!(!config.otel_logs_enabled);
    assert_eq!(config.log_dir, "/var/log");
    assert_eq!(config.coordinator_server_port, 1);
    assert_eq!(listen_address(&config), "0.0.0.0:1");
}

#[test]
fn each_missing_setting_is_named() {
    let mut environment = minimal();
    environment.coordinator_server_ip = None;
    assert_eq!(refused(environment), ConfigError::ServerIpNotSet);
    let mut environment = minimal();
    environment.coordinator_server_port = None;
    assert_eq!(refused(environment), ConfigError::ServerPortNotSet);
    let mut environment = minimal();
    environment.coordinator_server_port = Some("65536".to_string());
    assert_eq!(refused(environment), ConfigError::ServerPortNotValid);
    let mut environment = minimal();
    environment.telegram_bot_token = None;
    assert_eq!(refused(environment), ConfigError::TelegramBotTokenNotSet);
    let mut environment = minimal();
    environment.telegram_chat_id = None;
    assert_eq!(refused(environment), ConfigError::TelegramChatIdNotSet);
    let mut environment = minimal();
    environment.vk_token = None;
    assert_eq!(refused(environment), ConfigError::VkTokenNotSet);
    let mut environment = minimal();
    environment.vk_peer_id = None;
    assert_eq!(refused(environment), ConfigError::VkPeerIdNotSet);
    let mut environment = minimal();
    environment.vk_peer_id = Some("many".to_string());
    assert_eq!(refused(environment), ConfigError::VkPeerIdNotValid);
}

#[test]
fn the_first_of_several_missing_settings_is_named() {
    let mut environment = minimal();
    environment.coordinator_server_port = Some("x".to_string());
    environment.vk_token = None;
    let error = refused(environment);
    assert_eq!(error, ConfigError::ServerPortNotValid);
    assert_eq!(error.message(), "COORDINATOR_SERVER_PORT is not a valid port");
}

#[test]
fn missing_settings_are_told_in_words() {
    assert_eq!(ConfigError::ServerIpNotSet.message(), "COORDINATOR_SERVER_IP is not set");
    assert_eq!(ConfigError::ServerPortNotSet.message(), "COORDINATOR_SERVER_PORT is not set");
    assert_eq!(ConfigError::TelegramBotTokenNotSet.message(), "TELEGRAM_BOT_TOKEN is not set");
    assert_eq!(ConfigError::TelegramChatIdNotSet.message(), "TELEGRAM_CHAT_ID is not set");
    assert_eq!(ConfigError::VkTokenNotSet.message(), "VK_TOKEN is not set");
    assert_eq!(ConfigError::VkPeerIdNotSet.message(), "VK_PEER_ID is not set");
    assert_eq!(ConfigError::VkPeerIdNotValid.message(), "VK_PEER_ID is not a valid integer");
}

#[test]
fn switches_are_read() {
    assert!(env_bool(&Some("true".to_string()), false));
    assert!(env_bool(&Some("1".to_string()), false));
    assert!(!env_bool(&Some("TRUE".to_string()), true));
    assert!(!env_bool(&Some("".to_string()), true));
    assert!(env_bool(&None, true));
    assert!(!env_bool(&None, false));
}

#[test]
fn debugging_is_asked_for_by_argument() {
    assert!(debug_asked(&vec!["a".to_string(), "-d".to_string()]));
    assert!(debug_asked(&vec!["--debug".to_string()]));
    assert!(!debug_asked(&vec!["-debug".to_string(), "d".to_string()]));
    assert!(!debug_asked(&vec![]));
    assert_eq!(filter_directives(true), "warn,coordinator=debug");
    assert_eq!(filter_directives(false), "warn,coordinator=info");
}

#[test]
fn a_timer_notes_an_error() {
    let before = std::time::Instant::now();
    let mut timer = OpTimer::start("handle_lobby_found");
    assert!(timer.start >= before);
    assert_eq!(timer.operation, "handle_lobby_found");
    assert_eq!(timer.status, "success");
    let start = timer.start;
    timer.error();
    assert_eq!(timer.status, "error");
    assert_eq!(timer.operation, "handle_lobby_found");
    assert_eq!(timer.start, start);
}
