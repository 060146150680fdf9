//! The configuration, read from the program's arguments and its environment.
use crate::decimal::{
    decimal, decimal_text, parse_i64, parse_u16, signed_value, unsigned_value,
};
use crate::text::same_text;
use vstd::prelude::*;

verus! {

/// The settings that the program runs with.
pub struct Config {
    pub debug: bool,
    pub app_name: String,
    pub app_version: String,
    pub deployment_env: String,
    pub coordinator_server_ip: String,
    pub coordinator_server_port: u16,
    pub otel_endpoint: String,
    pub otel_traces_enabled: bool,
    pub otel_metrics_enabled: bool,
    pub otel_logs_enabled: bool,
    pub log_dir: String,
    pub telegram_bot_token: String,
    pub telegram_chat_id: String,
    pub vk_token: String,
    pub vk_peer_id: i64,
}

/// The environment variables that settings are read from, each absent where it is not set.
pub struct Environment {
    pub otel_service_name: Option<String>,
    pub app_version: Option<String>,
    pub deployment_env: Option<String>,
    pub coordinator_server_ip: Option<String>,
    pub coordinator_server_port: Option<String>,
    pub otel_exporter_otlp_endpoint: Option<String>,
    pub otel_traces_enabled: Option<String>,
    pub otel_metrics_enabled: Option<String>,
    pub otel_logs_enabled: Option<String>,
    pub log_dir: Option<String>,
    pub telegram_bot_token: Option<String>,
    pub telegram_chat_id: Option<String>,
    pub vk_token: Option<String>,
    pub vk_peer_id: Option<String>,
}

/// Why there is no configuration.
#[derive(Debug, Clone, Copy, PartialEq, Eq, Structural)]
pub enum ConfigError {
    ServerIpNotSet,
    ServerPortNotSet,
    ServerPortNotValid,
    TelegramBotTokenNotSet,
    TelegramChatIdNotSet,
    VkTokenNotSet,
    VkPeerIdNotSet,
    VkPeerIdNotValid,
}

impl ConfigError {
    /// What is said of the error.
    pub open spec fn text(self) -> Seq<char> {
        match self {
            ConfigError::ServerIpNotSet => "COORDINATOR_SERVER_IP is not set"@,
            ConfigError::ServerPortNotSet => "COORDINATOR_SERVER_PORT is not set"@,
            ConfigError::ServerPortNotValid => "COORDINATOR_SERVER_PORT is not a valid port"@,
            ConfigError::TelegramBotTokenNotSet => "TELEGRAM_BOT_TOKEN is not set"@,
            ConfigError::TelegramChatIdNotSet => "TELEGRAM_CHAT_ID is not set"@,
            ConfigError::VkTokenNotSet => "VK_TOKEN is not set"@,
            ConfigError::VkPeerIdNotSet => "VK_PEER_ID is not set"@,
            ConfigError::VkPeerIdNotValid => "VK_PEER_ID is not a valid integer"@,
        }
    }

    /// Says what is wrong.
    pub fn message(&self) -> (message: &'static str)
        ensures
            message@ == self.text(),
    {
        match self {
            ConfigError::ServerIpNotSet => "COORDINATOR_SERVER_IP is not set",
            ConfigError::ServerPortNotSet => "COORDINATOR_SERVER_PORT is not set",
            ConfigError::ServerPortNotValid => "COORDINATOR_SERVER_PORT is not a valid port",
            ConfigError::TelegramBotTokenNotSet => "TELEGRAM_BOT_TOKEN is not set",
            ConfigError::TelegramChatIdNotSet => "TELEGRAM_CHAT_ID is not set",
            ConfigError::VkTokenNotSet => "VK_TOKEN is not set",
            ConfigError::VkPeerIdNotSet => "VK_PEER_ID is not set",
            ConfigError::VkPeerIdNotValid => "VK_PEER_ID is not a valid integer",
        }
    }
}

/// The text of a variable, or the text that stands in for it where it is not set.
pub open spec fn text_or(value: Option<String>, default: Seq<char>) -> Seq<char> {
    match value {
        Some(text) => text@,
        None => default,
    }
}

/// A switch is on where its variable says `true` or `1`, off where it says anything else, and
/// stands at its default where it is not set.
pub open spec fn switch_is_on(value: Option<String>, default: bool) -> bool {
    match value {
        Some(text) => text@ == "true"@ || text@ == "1"@,
        None => default,
    }
}

/// Whether an argument asks for debugging.
pub open spec fn asks_for_debug(argument: Seq<char>) -> bool {
    argument == "-d"@ || argument == "--debug"@
}

/// What is wrong with an environment: the first missing or unreadable variable.
pub open spec fn first_error(environment: Environment) -> Option<ConfigError> {
    if environment.coordinator_server_ip is None {
        Some(ConfigError::ServerIpNotSet)
    } else if environment.coordinator_server_port is None {
        Some(ConfigError::ServerPortNotSet)
    } else if unsigned_value(
        environment.coordinator_server_port->0@,
        u16::MAX as int,
    ) is None {
        Some(ConfigError::ServerPortNotValid)
    } else if environment.telegram_bot_token is None {
        Some(ConfigError::TelegramBotTokenNotSet)
    } else if environment.telegram_chat_id is None {
        Some(ConfigError::TelegramChatIdNotSet)
    } else if environment.vk_token is None {
        Some(ConfigError::VkTokenNotSet)
    } else if environment.vk_peer_id is None {
        Some(ConfigError::VkPeerIdNotSet)
    } else if signed_value(environment.vk_peer_id->0@) is None {
        Some(ConfigError::VkPeerIdNotValid)
    } else {
        None
    }
}

/// Reads a switch.
pub fn env_bool(value: &Option<String>, default: bool) -> (on: bool)
    ensures
        on == switch_is_on(*value, default),
{
    match value {
        Some(text) => same_text(text.as_str(), "true") || same_text(text.as_str(), "1"),
        None => default,
    }
}

/// Reads a text that may be left out.
fn env_text(value: Option<String>, default: &'static str) -> (text: String)
    ensures
        text@ == text_or(value, default@),
{
    match value {
        Some(text) => text,
        None => default.to_owned(),
    }
}

/// Whether any argument asks for debugging.
pub fn debug_asked(arguments: &Vec<String>) -> (asked: bool)
    ensures
        asked == exists|i: int|
            0 <= i < arguments@.len() && asks_for_debug(#[trigger] arguments@[i]@),
{
    let mut i: usize = 0;
    while i < arguments.len()
        invariant
            i <= arguments@.len(),
            forall|j: int| 0 <= j < i ==> !asks_for_debug(#[trigger] arguments@[j]@),
        decreases arguments@.len() - i,
    {
        if same_text(arguments[i].as_str(), "-d") || same_text(arguments[i].as_str(), "--debug") {
            assert(asks_for_debug(arguments@[i as int]@));
            return true;
        }
        i += 1;
    }
    false
}

impl Config {
    /// Each setting holds what the arguments and the environment say.
    pub open spec fn reads(self, arguments: Seq<String>, environment: Environment) -> bool {
        &&& self.debug == exists|i: int|
            0 <= i < arguments.len() && asks_for_debug(#[trigger] arguments[i]@)
        &&& self.app_name@ == text_or(environment.otel_service_name, "skiesdota-coordinator"@)
        &&& self.app_version@ == text_or(environment.app_version, "0.1.0"@)
        &&& self.deployment_env@ == text_or(environment.deployment_env, "dev"@)
        &&& environment.coordinator_server_ip matches Some(ip) && self.coordinator_server_ip@ == ip@
        &&& environment.coordinator_server_port matches Some(port) && unsigned_value(
            port@,
            u16::MAX as int,
        ) == Some(self.coordinator_server_port as int)
        &&& self.otel_endpoint@ == text_or(
            environment.otel_exporter_otlp_endpoint,
            "http://gateway-opentelemetry-collector.otel-collector.svc.cluster.local:4317"@,
        )
        &&& self.otel_traces_enabled == switch_is_on(environment.otel_traces_enabled, true)
        &&& self.otel_metrics_enabled == switch_is_on(environment.otel_metrics_enabled, true)
        &&& self.otel_logs_enabled == switch_is_on(environment.otel_logs_enabled, true)
        &&& self.log_dir@ == text_or(environment.log_dir, "logs"@)
        &&& environment.telegram_bot_token matches Some(token) && self.telegram_bot_token@ == token@
        &&& environment.telegram_chat_id matches Some(chat) && self.telegram_chat_id@ == chat@
        &&& environment.vk_token matches Some(token) && self.vk_token@ == token@
        &&& environment.vk_peer_id matches Some(peer) && signed_value(peer@) == Some(
            self.vk_peer_id as int,
        )
    }

    /// Reads the configuration. It is refused where, and only where, a variable that must be set
    /// is not, or does not hold a number that it must hold; of several such variables the first
    /// is named.
    pub fn build(arguments: &Vec<String>, environment: Environment) -> (config: Result<
        Config,
        ConfigError,
    >)
        ensures
            match config {
                Ok(config) => first_error(environment) is None && config.reads(
                    arguments@,
                    environment,
                ),
                Err(error) => first_error(environment) == Some(error),
            },
    {
        let debug = debug_asked(arguments);
        let coordinator_server_ip = match environment.coordinator_server_ip {
            Some(ip) => ip,
            None => return Err(ConfigError::ServerIpNotSet),
        };
        let coordinator_server_port: u16 = match environment.coordinator_server_port {
            Some(port) => match parse_u16(port.as_str()) {
                Some(number) => number,
                None => return Err(ConfigError::ServerPortNotValid),
            },
            None => return Err(ConfigError::ServerPortNotSet),
        };
        let telegram_bot_token = match environment.telegram_bot_token {
            Some(token) => token,
            None => return Err(ConfigError::TelegramBotTokenNotSet),
        };
        let telegram_chat_id = match environment.telegram_chat_id {
            Some(chat) => chat,
            None => return Err(ConfigError::TelegramChatIdNotSet),
        };
        let vk_token = match environment.vk_token {
            Some(token) => token,
            None => return Err(ConfigError::VkTokenNotSet),
        };
        let vk_peer_id: i64 = match environment.vk_peer_id {
            Some(peer) => match parse_i64(peer.as_str()) {
                Some(number) => number,
                None => return Err(ConfigError::VkPeerIdNotValid),
            },
            None => return Err(ConfigError::VkPeerIdNotSet),
        };
        Ok(
            Config {
                debug,
                app_name: env_text(environment.otel_service_name, "skiesdota-coordinator"),
                app_version: env_text(environment.app_version, "0.1.0"),
                deployment_env: env_text(environment.deployment_env, "dev"),
                coordinator_server_ip,
                coordinator_server_port,
                otel_endpoint: env_text(
                    environment.otel_exporter_otlp_endpoint,
                    "http://gateway-opentelemetry-collector.otel-collector.svc.cluster.local:4317",
                ),
                otel_traces_enabled: env_bool(&environment.otel_traces_enabled, true),
                otel_metrics_enabled: env_bool(&environment.otel_metrics_enabled, true),
                otel_logs_enabled: env_bool(&environment.otel_logs_enabled, true),
                log_dir: env_text(environment.log_dir, "logs"),
                telegram_bot_token,
                telegram_chat_id,
                vk_token,
                vk_peer_id,
            },
        )
    }
}

/// The address that the server listens on: its IP and its port.
pub fn listen_address(config: &Config) -> (address: String)
    ensures
        address@ == config.coordinator_server_ip@ + ":"@ + decimal(
            config.coordinator_server_port as int,
        ),
{
    let mut address: String = config.coordinator_server_ip.clone();
    address.append(":");
    address.append(decimal_text(config.coordinator_server_port as u64).as_str());
    address
}

/// A configuration that was read holds each variable that is set as it is set, and the default of each
/// other; its switches are on unless they are set to something other than `true` or `1`; and debugging
/// is on exactly where `-d` or `--debug` is among the arguments.
pub proof fn law_configuration_holds_what_is_set(
    config: Config,
    arguments: Seq<String>,
    environment: Environment,
)
    requires
        config.reads(arguments, environment),
    ensures
        config.debug <==> exists|i: int|
            0 <= i < arguments.len() && ((#[trigger] arguments[i])@ == seq!['-', 'd']
                || arguments[i]@ == seq!['-', '-', 'd', 'e', 'b', 'u', 'g']),
        environment.otel_service_name is Some ==> config.app_name@ == environment.otel_service_name->0@,
        environment.otel_service_name is None ==> config.app_name@ == "skiesdota-coordinator"@,
        environment.app_version is Some ==> config.app_version@ == environment.app_version->0@,
        environment.app_version is None ==> config.app_version@ == "0.1.0"@,
        environment.deployment_env is Some ==> config.deployment_env@ == environment.deployment_env->0@,
        environment.deployment_env is None ==> config.deployment_env@ == "dev"@,
        environment.coordinator_server_ip is Some && config.coordinator_server_ip@
            == environment.coordinator_server_ip->0@,
        environment.coordinator_server_port is Some && unsigned_value(
            environment.coordinator_server_port->0@,
            65535,
        ) == Some(config.coordinator_server_port as int),
        environment.otel_exporter_otlp_endpoint is Some ==> config.otel_endpoint@
            == environment.otel_exporter_otlp_endpoint->0@,
        environment.otel_exporter_otlp_endpoint is None ==> config.otel_endpoint@
            == "http://gateway-opentelemetry-collector.otel-collector.svc.cluster.local:4317"@,
        environment.otel_traces_enabled is Some ==> config.otel_traces_enabled == (
            environment.otel_traces_enabled->0@ == seq!['t', 'r', 'u', 'e']
                || environment.otel_traces_enabled->0@ == seq!['1']),
        environment.otel_traces_enabled is None ==> config.otel_traces_enabled,
        environment.otel_metrics_enabled is Some ==> config.otel_metrics_enabled == (
            environment.otel_metrics_enabled->0@ == seq!['t', 'r', 'u', 'e']
                || environment.otel_metrics_enabled->0@ == seq!['1']),
        environment.otel_metrics_enabled is None ==> config.otel_metrics_enabled,
        environment.otel_logs_enabled is Some ==> config.otel_logs_enabled == (
            environment.otel_logs_enabled->0@ == seq!['t', 'r', 'u', 'e']
                || environment.otel_logs_enabled->0@ == seq!['1']),
        environment.otel_logs_enabled is None ==> config.otel_logs_enabled,
        environment.log_dir is Some ==> config.log_dir@ == environment.log_dir->0@,
        environment.log_dir is None ==> config.log_dir@ == "logs"@,
        environment.telegram_bot_token is Some && config.telegram_bot_token@
            == environment.telegram_bot_token->0@,
        environment.telegram_chat_id is Some && config.telegram_chat_id@
            == environment.telegram_chat_id->0@,
        environment.vk_token is Some && config.vk_token@
            == environment.vk_token->0@,
        environment.vk_peer_id is Some && signed_value(environment.vk_peer_id->0@) == Some(
            config.vk_peer_id as int,
        ),
{
    lemma_option_texts();
    if config.debug {
        let i = choose|i: int|
            0 <= i < arguments.len() && asks_for_debug(#[trigger] arguments[i]@);
        assert(arguments[i]@ == seq!['-', 'd'] || arguments[i]@ == seq![
            '-',
            '-',
            'd',
            'e',
            'b',
            'u',
            'g',
        ]);
    }
    if exists|i: int|
        0 <= i < arguments.len() && ((#[trigger] arguments[i])@ == seq!['-', 'd']
            || arguments[i]@ == seq!['-', '-', 'd', 'e', 'b', 'u', 'g']) {
        let i = choose|i: int|
            0 <= i < arguments.len() && ((#[trigger] arguments[i])@ == seq!['-', 'd']
                || arguments[i]@ == seq!['-', '-', 'd', 'e', 'b', 'u', 'g']);
        assert(asks_for_debug(arguments[i]@));
    }
}

/// The options and the words that turn a switch on, character by character.
proof fn lemma_option_texts()
    ensures
        "-d"@ == seq!['-', 'd'],
        "--debug"@ == seq!['-', '-', 'd', 'e', 'b', 'u', 'g'],
        "true"@ == seq!['t', 'r', 'u', 'e'],
        "1"@ == seq!['1'],
{
    reveal_strlit("-d");
    reveal_strlit("--debug");
    reveal_strlit("true");
    reveal_strlit("1");
    assert("-d"@ =~= seq!['-', 'd']);
    assert("--debug"@ =~= seq!['-', '-', 'd', 'e', 'b', 'u', 'g']);
    assert("true"@ =~= seq!['t', 'r', 'u', 'e']);
    assert("1"@ =~= seq!['1']);
}

/// A switch and an argument are read as they stand, upper case and blanks included.
pub proof fn law_switches_and_arguments(value: Option<String>, default: bool, argument: Seq<char>)
    ensures
        value is Some ==> switch_is_on(value, default) == (value->0@ == seq!['t', 'r', 'u', 'e']
            || value->0@ == seq!['1']),
        value is None ==> switch_is_on(value, default) == default,
        asks_for_debug(argument) == (argument == seq!['-', 'd'] || argument == seq![
            '-',
            '-',
            'd',
            'e',
            'b',
            'u',
            'g',
        ]),
{
    lemma_option_texts();
}

/// There is no configuration exactly where one of the six variables that must be set is not, or one of
/// the two numbers among them is none in its range. The first of them that is at fault, in the order
/// of server, Telegram and VK, is named.
pub proof fn law_what_is_missing_is_named(environment: Environment)
    ensures
        ({
            let error = first_error(environment);
            let ip = environment.coordinator_server_ip is Some;
            let port = environment.coordinator_server_port is Some;
            let port_read = port && unsigned_value(
                environment.coordinator_server_port->0@,
                65535,
            ) is Some;
            let token = environment.telegram_bot_token is Some;
            let chat = environment.telegram_chat_id is Some;
            let vk = environment.vk_token is Some;
            let peer = environment.vk_peer_id is Some;
            let peer_read = peer && signed_value(environment.vk_peer_id->0@) is Some;
            &&& error is None <==> ip && port_read && token && chat && vk && peer_read
            &&& error == Some(ConfigError::ServerIpNotSet) <==> !ip
            &&& error == Some(ConfigError::ServerPortNotSet) <==> ip && !port
            &&& error == Some(ConfigError::ServerPortNotValid) <==> ip && port && !port_read
            &&& error == Some(ConfigError::TelegramBotTokenNotSet) <==> ip && port_read && !token
            &&& error == Some(ConfigError::TelegramChatIdNotSet) <==> ip && port_read && token
                && !chat
            &&& error == Some(ConfigError::VkTokenNotSet) <==> ip && port_read && token && chat
                && !vk
            &&& error == Some(ConfigError::VkPeerIdNotSet) <==> ip && port_read && token && chat
                && vk && !peer
            &&& error == Some(ConfigError::VkPeerIdNotValid) <==> ip && port_read && token && chat
                && vk && peer && !peer_read
        }),
{
}

/// What is said of an error names its variable and what is wrong with it.
pub proof fn law_errors_in_words()
    ensures
        ConfigError::ServerIpNotSet.text() == "COORDINATOR_SERVER_IP is not set"@,
        ConfigError::ServerPortNotSet.text() == "COORDINATOR_SERVER_PORT is not set"@,
        ConfigError::ServerPortNotValid.text() == "COORDINATOR_SERVER_PORT is not a valid port"@,
        ConfigError::TelegramBotTokenNotSet.text() == "TELEGRAM_BOT_TOKEN is not set"@,
        ConfigError::TelegramChatIdNotSet.text() == "TELEGRAM_CHAT_ID is not set"@,
        ConfigError::VkTokenNotSet.text() == "VK_TOKEN is not set"@,
        ConfigError::VkPeerIdNotSet.text() == "VK_PEER_ID is not set"@,
        ConfigError::VkPeerIdNotValid.text() == "VK_PEER_ID is not a valid integer"@,
{
}

} // verus!
