//! Telling the people in charge: the requests that two messengers are sent, and what one of them
//! answers.
use crate::config::Config;
use crate::decimal::{decimal, signed_decimal, signed_decimal_text};
use crate::draw::message_number;
use crate::lobby::optional_text;
use vstd::arithmetic::power::pow;
use vstd::prelude::*;

verus! {

/// The longest text, in characters, that a part of a request is made of.
pub const REQUEST_TEXT_LIMIT: usize = 0x80_0000;

/// A text is no longer than a part of a request may be.
pub open spec fn fits_request(text: Seq<char>) -> bool {
    text.len() <= REQUEST_TEXT_LIMIT
}

/// The address that `Url::parse_with_params` makes of a text and named values, where it makes one.
pub uninterp spec fn url_with_params(
    input: Seq<char>,
    params: Seq<(Seq<char>, Seq<char>)>,
) -> Option<Seq<char>>;

/// `reqwest::Url::parse_with_params` (of the `url` crate): reads the text as an absolute address and
/// adds the named values to its query, encoded as a form; refuses a text that is no absolute
/// address. The address is given as text. It is claimed that the outcome goes by the text and the
/// values alone; how an address is read and written is not stated. With at most eight pairs, and
/// texts within the limit, the address stays below the 4 GiB beyond which the crate panics.
#[verifier::external_body]
fn parse_with_params(input: &str, params: &Vec<(String, String)>) -> (url: Option<String>)
    requires
        input@.len() <= REQUEST_TEXT_LIMIT + 100,
        params@.len() <= 8,
        forall|i: int|
            0 <= i < params@.len() ==> fits_request((#[trigger] params@[i]).0@) && fits_request(
                params@[i].1@,
            ),
    ensures
        optional_text(url) == url_with_params(input@, params.deep_view()),
{
    reqwest::Url::parse_with_params(input, params).ok().map(|url| url.to_string())
}

/// Why there is no request.
#[derive(Debug, Clone, Copy, PartialEq, Eq, Structural)]
pub enum RequestError {
    /// A part of it is longer than it may be.
    TooLong,
    /// Its address is none.
    NotAnAddress,
}

/// The outcome of composing a request: the address, where the parts fit and there is one.
pub open spec fn composes(
    url: Result<String, RequestError>,
    parts_fit: bool,
    address: Option<Seq<char>>,
) -> bool {
    match url {
        Ok(url) => parts_fit && address == Some(url@),
        Err(RequestError::TooLong) => !parts_fit,
        Err(RequestError::NotAnAddress) => parts_fit && address is None,
    }
}

/// Whether a text is no longer than a part of a request may be.
fn check_fits(text: &str) -> (fits: bool)
    ensures
        fits == fits_request(text@),
{
    text.unicode_len() <= REQUEST_TEXT_LIMIT
}

/// Composes a request whose parts fit.
fn compose(input: &str, params: &Vec<(String, String)>) -> (url: Result<String, RequestError>)
    requires
        input@.len() <= REQUEST_TEXT_LIMIT + 100,
        params@.len() <= 8,
        forall|i: int|
            0 <= i < params@.len() ==> fits_request((#[trigger] params@[i]).0@) && fits_request(
                params@[i].1@,
            ),
    ensures
        composes(url, true, url_with_params(input@, params.deep_view())),
{
    match parse_with_params(input, params) {
        Some(url) => Ok(url),
        None => Err(RequestError::NotAnAddress),
    }
}

/// The address at which VK takes messages.
pub open spec fn vk_address() -> Seq<char> {
    "https://api.vk.com/method/messages.send"@
}

/// The values that VK is sent with a message.
pub open spec fn vk_params(config: Config, text: Seq<char>, random_id: int) -> Seq<
    (Seq<char>, Seq<char>),
> {
    seq![
        ("peer_id"@, signed_decimal(config.vk_peer_id as int)),
        ("message"@, text),
        ("random_id"@, signed_decimal(random_id)),
        ("access_token"@, config.vk_token@),
        ("v"@, "5.131"@),
    ]
}

/// The address at which Telegram takes messages of a bot.
pub open spec fn telegram_address(token: Seq<char>) -> Seq<char> {
    "https://api.telegram.org/bot"@ + token + "/sendMessage"@
}

/// The values that Telegram is sent with a message.
pub open spec fn telegram_params(config: Config, text: Seq<char>) -> Seq<(Seq<char>, Seq<char>)> {
    seq![("chat_id"@, config.telegram_chat_id@), ("text"@, text)]
}

/// A number below a power of ten has no more digits than that power has zeros.
proof fn lemma_decimal_length(n: int, zeros: nat)
    requires
        0 <= n < pow(10, zeros),
        zeros > 0,
    ensures
        decimal(n).len() <= zeros,
    decreases zeros,
{
    reveal(pow);
    if n >= 10 {
        assert(zeros > 1) by {
            if zeros == 1 {
                assert(pow(10, 0) == 1);
            }
        }
        lemma_decimal_length(n / 10, (zeros - 1) as nat);
    }
}

/// A number of 64 bits is written with at most twenty digits and a sign.
proof fn lemma_number_is_short(n: i64)
    ensures
        signed_decimal(n as int).len() <= 21,
{
    assert(pow(10, 20) == 100_000_000_000_000_000_000) by {
        reveal_with_fuel(pow, 21);
    }
    if n < 0 {
        lemma_decimal_length(-(n as int), 20);
    } else {
        lemma_decimal_length(n as int, 20);
    }
}

/// The request that sends a message by VK, under a given number.
pub fn vk_request(config: &Config, text: &str, random_id: i32) -> (url: Result<
    String,
    RequestError,
>)
    ensures
        composes(
            url,
            fits_request(text@) && fits_request(config.vk_token@),
            url_with_params(vk_address(), vk_params(*config, text@, random_id as int)),
        ),
{
    if !check_fits(text) || !check_fits(config.vk_token.as_str()) {
        return Err(RequestError::TooLong);
    }
    let mut params: Vec<(String, String)> = Vec::new();
    params.push(("peer_id".to_owned(), signed_decimal_text(config.vk_peer_id)));
    params.push(("message".to_owned(), text.to_owned()));
    params.push(("random_id".to_owned(), signed_decimal_text(random_id as i64)));
    params.push(("access_token".to_owned(), config.vk_token.clone()));
    params.push(("v".to_owned(), "5.131".to_owned()));
    proof {
        lemma_number_is_short(config.vk_peer_id);
        lemma_number_is_short(random_id as i64);
        reveal_strlit("https://api.vk.com/method/messages.send");
        reveal_strlit("peer_id");
        reveal_strlit("message");
        reveal_strlit("random_id");
        reveal_strlit("access_token");
        reveal_strlit("v");
        reveal_strlit("5.131");
        assert(params.deep_view() =~= vk_params(*config, text@, random_id as int));
    }
    compose("https://api.vk.com/method/messages.send", &params)
}

/// The request that sends a message by VK. The number that tells it from other messages is drawn by
/// chance.
pub fn send_vk_message(config: &Config, text: &str) -> (url: Result<String, RequestError>)
    ensures
        exists|random_id: int|
            1 <= random_id < 999_999_999 && composes(
                url,
                fits_request(text@) && fits_request(config.vk_token@),
                url_with_params(vk_address(), #[trigger] vk_params(*config, text@, random_id)),
            ),
{
    let random_id: i32 = message_number();
    let url = vk_request(config, text, random_id);
    proof {
        let params = vk_params(*config, text@, random_id as int);
        assert(composes(
            url,
            fits_request(text@) && fits_request(config.vk_token@),
            url_with_params(vk_address(), params),
        ));
    }
    url
}

/// The request that sends a message by Telegram.
pub fn send_telegram_message(config: &Config, text: &str) -> (url: Result<String, RequestError>)
    ensures
        composes(
            url,
            fits_request(text@) && fits_request(config.telegram_bot_token@) && fits_request(
                config.telegram_chat_id@,
            ),
            url_with_params(
                telegram_address(config.telegram_bot_token@),
                telegram_params(*config, text@),
            ),
        ),
{
    if !check_fits(text) || !check_fits(config.telegram_bot_token.as_str()) || !check_fits(
        config.telegram_chat_id.as_str(),
    ) {
        return Err(RequestError::TooLong);
    }
    let mut base_url: String = "https://api.telegram.org/bot".to_owned();
    base_url.append(config.telegram_bot_token.as_str());
    base_url.append("/sendMessage");
    let mut params: Vec<(String, String)> = Vec::new();
    params.push(("chat_id".to_owned(), config.telegram_chat_id.clone()));
    params.push(("text".to_owned(), text.to_owned()));
    proof {
        reveal_strlit("https://api.telegram.org/bot");
        reveal_strlit("/sendMessage");
        reveal_strlit("chat_id");
        reveal_strlit("text");
        assert(params.deep_view() =~= telegram_params(*config, text@));
    }
    compose(base_url.as_str(), &params)
}

/// What `serde_json` refuses a text with, carried without being looked into.
#[verifier::external_type_specification]
#[verifier::external_body]
pub struct ExJsonError(serde_json::Error);

/// The member under a key of the JSON value that a text writes, as text: nothing where the text
/// writes no JSON value, and no member where the value is no object or does not have the key.
pub uninterp spec fn json_member(text: Seq<char>, key: Seq<char>) -> Option<Option<Seq<char>>>;

/// `serde_json::from_str` into a `serde_json::Value`, of which `Value::get` takes the member under a
/// key; the member is given as text. It is claimed that the outcome goes by the text and the key
/// alone; the grammar of JSON is not stated.
#[verifier::external_body]
fn member_text(text: &str, key: &str) -> (member: Result<Option<String>, serde_json::Error>)
    ensures
        match member {
            Ok(member) => json_member(text@, key@) == Some(optional_text(member)),
            Err(_) => json_member(text@, key@) is None,
        },
{
    let json: serde_json::Value = serde_json::from_str(text)?;
    Ok(json.get(key).map(|member| member.to_string()))
}

/// How VK answers a request to send a message.
#[derive(Debug)]
pub enum VkReply {
    /// Without a complaint.
    Sent,
    /// With a complaint, as text.
    Failed(String),
    /// With something that cannot be read.
    NotJson(serde_json::Error),
}

/// The answer that the `error` member of a reply amounts to.
pub fn vk_verdict(error: Result<Option<String>, serde_json::Error>) -> (reply: VkReply)
    ensures
        reply == match error {
            Ok(None) => VkReply::Sent,
            Ok(Some(text)) => VkReply::Failed(text),
            Err(problem) => VkReply::NotJson(problem),
        },
{
    match error {
        Ok(None) => VkReply::Sent,
        Ok(Some(text)) => VkReply::Failed(text),
        Err(problem) => VkReply::NotJson(problem),
    }
}

/// Reads VK's answer: a complaint stands under `error`.
pub fn read_vk_reply(body: &str) -> (reply: VkReply)
    ensures
        match reply {
            VkReply::Sent => json_member(body@, "error"@) == Some(None::<Seq<char>>),
            VkReply::Failed(text) => json_member(body@, "error"@) == Some(Some(text@)),
            VkReply::NotJson(_) => json_member(body@, "error"@) is None,
        },
{
    vk_verdict(member_text(body, "error"))
}

/// VK is sent the peer, the message as it stands, the number that tells the message from others, the
/// access token and the version, under these names and in this order.
pub proof fn law_values_sent_to_vk(config: Config, text: Seq<char>, random_id: int)
    ensures
        vk_address() == "https://api.vk.com/method/messages.send"@,
        vk_params(config, text, random_id).len() == 5,
        vk_params(config, text, random_id)[0] == ("peer_id"@, signed_decimal(config.vk_peer_id as int)),
        vk_params(config, text, random_id)[1] == ("message"@, text),
        vk_params(config, text, random_id)[2] == ("random_id"@, signed_decimal(random_id)),
        vk_params(config, text, random_id)[3] == ("access_token"@, config.vk_token@),
        vk_params(config, text, random_id)[4] == ("v"@, "5.131"@),
{
}

/// Telegram is sent the chat and the text as it stands, at the address of the bot whose token is set.
pub proof fn law_values_sent_to_telegram(config: Config, text: Seq<char>)
    ensures
        telegram_address(config.telegram_bot_token@) == "https://api.telegram.org/bot"@
            + config.telegram_bot_token@ + "/sendMessage"@,
        telegram_params(config, text).len() == 2,
        telegram_params(config, text)[0] == ("chat_id"@, config.telegram_chat_id@),
        telegram_params(config, text)[1] == ("text"@, text),
{
}

/// A request is refused as too long exactly where a part of it does not fit, which is where it is
/// longer than 8388608 characters; where all fit, it is the address that comes of its parts, or none.
pub proof fn law_outcome_of_a_request(
    url: Result<String, RequestError>,
    parts_fit: bool,
    address: Option<Seq<char>>,
    text: Seq<char>,
)
    requires
        composes(url, parts_fit, address),
    ensures
        url == Err::<String, RequestError>(RequestError::TooLong) <==> !parts_fit,
        parts_fit && address is Some ==> (url matches Ok(text) && text@ == address->0),
        parts_fit && address is None ==> url == Err::<String, RequestError>(
            RequestError::NotAnAddress,
        ),
        fits_request(text) <==> text.len() <= 8_388_608,
{
}

} // verus!
