//! The messages that bots and users send: two code characters, then fields between colons.
use crate::decimal::{decimal, parse_u64, unsigned_value};
use crate::text::{
    before_byte, boundary, from_byte, join, same_text, split, split_text, text_before, text_from,
};
use vstd::prelude::*;

verus! {

/// What a bot reports.
#[derive(Debug, Clone, Copy, PartialEq, Eq, Structural)]
pub enum BotSourceEvent {
    ReconnectHandshake,
    LobbyFound,
    InGameParameters,
    GameEnded,
    GameAborted,
    InGameEvent,
    ConnectHandshake,
    Unknown,
}

impl BotSourceEvent {
    /// The report that a code stands for.
    pub open spec fn of(code: Seq<char>) -> BotSourceEvent {
        if code == "0"@ {
            BotSourceEvent::ReconnectHandshake
        } else if code == "1"@ {
            BotSourceEvent::LobbyFound
        } else if code == "2"@ {
            BotSourceEvent::InGameParameters
        } else if code == "3"@ {
            BotSourceEvent::GameEnded
        } else if code == "4"@ {
            BotSourceEvent::GameAborted
        } else if code == "5"@ {
            BotSourceEvent::InGameEvent
        } else if code == "6"@ {
            BotSourceEvent::ConnectHandshake
        } else {
            BotSourceEvent::Unknown
        }
    }

    /// Reads a report's code.
    pub fn from_str(s: &str) -> (event: Self)
        ensures
            event == BotSourceEvent::of(s@),
    {
        if same_text(s, "0") {
            BotSourceEvent::ReconnectHandshake
        } else if same_text(s, "1") {
            BotSourceEvent::LobbyFound
        } else if same_text(s, "2") {
            BotSourceEvent::InGameParameters
        } else if same_text(s, "3") {
            BotSourceEvent::GameEnded
        } else if same_text(s, "4") {
            BotSourceEvent::GameAborted
        } else if same_text(s, "5") {
            BotSourceEvent::InGameEvent
        } else if same_text(s, "6") {
            BotSourceEvent::ConnectHandshake
        } else {
            BotSourceEvent::Unknown
        }
    }
}

/// What a user asks for.
#[derive(Debug, Clone, Copy, PartialEq, Eq, Structural)]
pub enum UserSourceEvent {
    UserCommand,
    Unknown,
}

impl UserSourceEvent {
    /// The request that a code stands for.
    pub open spec fn of(code: Seq<char>) -> UserSourceEvent {
        if code == "0"@ {
            UserSourceEvent::UserCommand
        } else {
            UserSourceEvent::Unknown
        }
    }

    /// Reads a request's code.
    pub fn from_str(s: &str) -> (event: Self)
        ensures
            event == UserSourceEvent::of(s@),
    {
        if same_text(s, "0") {
            UserSourceEvent::UserCommand
        } else {
            UserSourceEvent::Unknown
        }
    }
}

/// The second byte of a message is a whole character.
pub open spec fn has_event_code(message: Seq<char>) -> bool {
    boundary(message, 1) && boundary(message, 2)
}

/// The second byte of a message, as a text.
pub open spec fn event_code(message: Seq<char>) -> Seq<char> {
    before_byte(from_byte(message, 1), 1)
}

/// Where a text can be cut after its first byte and after its second, what follows the first can
/// be cut after its first.
proof fn lemma_second_cut(text: Seq<char>)
    requires
        boundary(text, 1),
        boundary(text, 2),
    ensures
        boundary(from_byte(text, 1), 1),
{
    broadcast use vstd::utf8::encode_utf8_valid_utf8;

    let bytes = vstd::utf8::encode_utf8(text);
    let rest = vstd::utf8::pop_first_scalar(bytes);
    let size = vstd::utf8::length_of_first_scalar(bytes);
    assert(vstd::utf8::is_char_boundary(rest, 1 - size));
    assert(size == 1);
    assert(vstd::utf8::is_char_boundary(rest, 1));
    assert(rest == bytes.subrange(1, bytes.len() as int));
    vstd::utf8::valid_utf8_split(bytes, 1);
    vstd::utf8::decode_utf8_encode_utf8(rest);
}

/// The second byte of a message, as a text.
fn code_after_source(message: &str) -> (code: &str)
    requires
        has_event_code(message@),
    ensures
        code@ == event_code(message@),
{
    proof {
        lemma_second_cut(message@);
    }
    text_before(text_from(message, 1), 1)
}

/// The fields of a message.
pub open spec fn fields(message: Seq<char>) -> Seq<Seq<char>> {
    split(message, ':')
}

/// The first field is two bytes and a bot's number, and at least `count` fields are there.
pub open spec fn has_fields(message: Seq<char>, count: int) -> bool {
    fields(message).len() >= count && boundary(fields(message)[0], 2)
}

/// The bot's number in the first field.
pub open spec fn bot_in(message: Seq<char>) -> Seq<char> {
    from_byte(fields(message)[0], 2)
}

/// Whether a message has its bot number and at least so many fields.
fn check_fields(message: &str, count: usize) -> (ok: bool)
    requires
        count > 0,
    ensures
        ok == has_fields(message@, count as int),
{
    let parts = split_text(message, ':');
    assert(parts.deep_view().len() == parts@.len());
    if parts.len() < count {
        false
    } else {
        assert(parts.deep_view()[0] == parts@[0]@);
        parts[0].as_str().is_char_boundary(2)
    }
}

/// A bot tells its number on a new connection.
#[derive(Debug, PartialEq, Eq)]
pub struct ConnectHandshake {
    pub bot_number: String,
}

impl ConnectHandshake {
    /// Two bytes precede the number.
    pub open spec fn accepts(message: Seq<char>) -> bool {
        boundary(message, 2)
    }

    /// Holds what the message says.
    pub open spec fn says(self, message: Seq<char>) -> bool {
        self.bot_number@ == from_byte(message, 2)
    }

    pub fn new(message: &str) -> (report: Self)
        requires
            Self::accepts(message@),
        ensures
            report.says(message@),
    {
        ConnectHandshake { bot_number: text_from(message, 2).to_owned() }
    }
}

/// A bot comes back to a lobby that it plays in, on a side.
#[derive(Debug, PartialEq, Eq)]
pub struct ReconnectHandshake<W> {
    pub lobby_id: String,
    pub bot_number: String,
    pub side: String,
    pub tcp_writer: W,
}

impl<W> ReconnectHandshake<W> {
    /// Bot number, lobby and side are there.
    pub open spec fn accepts(message: Seq<char>) -> bool {
        has_fields(message, 3)
    }

    /// Holds what the message says, and the connection that it came on.
    pub open spec fn says(self, message: Seq<char>, tcp_writer: W) -> bool {
        &&& self.bot_number@ == bot_in(message)
        &&& self.lobby_id@ == fields(message)[1]
        &&& self.side@ == fields(message)[2]
        &&& self.tcp_writer == tcp_writer
    }

    pub fn new(message: &str, tcp_writer: W) -> (report: Self)
        requires
            Self::accepts(message@),
        ensures
            report.says(message@, tcp_writer),
    {
        let parts = split_text(message, ':');
        assert(parts.deep_view().len() == parts@.len());
        assert(parts.deep_view()[0] == parts@[0]@);
        assert(parts.deep_view()[1] == parts@[1]@);
        assert(parts.deep_view()[2] == parts@[2]@);
        ReconnectHandshake {
            lobby_id: parts[1].clone(),
            bot_number: text_from(parts[0].as_str(), 2).to_owned(),
            side: parts[2].clone(),
            tcp_writer,
        }
    }
}

/// A bot has found a lobby.
#[derive(Debug, PartialEq, Eq)]
pub struct LobbyFound<W> {
    pub lobby_id: String,
    pub bot_number: String,
    pub tcp_writer: W,
}

impl<W> LobbyFound<W> {
    /// Bot number and lobby are there.
    pub open spec fn accepts(message: Seq<char>) -> bool {
        has_fields(message, 2)
    }

    /// Holds what the message says, and the connection that it came on. The lobby is all that
    /// follows the first colon.
    pub open spec fn says(self, message: Seq<char>, tcp_writer: W) -> bool {
        &&& self.bot_number@ == bot_in(message)
        &&& self.lobby_id@ == message.skip(fields(message)[0].len() as int + 1)
        &&& self.tcp_writer == tcp_writer
    }

    pub fn new(message: &str, tcp_writer: W) -> (report: Self)
        requires
            Self::accepts(message@),
        ensures
            report.says(message@, tcp_writer),
    {
        let parts = split_text(message, ':');
        assert(parts.deep_view().len() == parts@.len());
        assert(parts.deep_view()[0] == parts@[0]@);
        proof {
            lemma_first_field(message@);
        }
        let total: usize = message.unicode_len();
        let first: usize = parts[0].as_str().unicode_len();
        let lobby_id = message.substring_char(first + 1, total);
        proof {
            assert(lobby_id@ =~= message@.skip(first + 1));
        }
        LobbyFound {
            lobby_id: lobby_id.to_owned(),
            bot_number: text_from(parts[0].as_str(), 2).to_owned(),
            tcp_writer,
        }
    }
}

/// Where there is a second field, the message is the first field, a colon, and the rest; the
/// first field holds no colon.
pub proof fn lemma_first_field(message: Seq<char>)
    ensures
        fields(message).len() >= 1,
        !fields(message)[0].contains(':'),
        fields(message).len() == 1 ==> fields(message)[0] == message,
        fields(message).len() >= 2 ==> fields(message)[0].len() + 1 <= message.len(),
        fields(message).len() >= 2 ==> message == fields(message)[0].push(':') + message.skip(
            fields(message)[0].len() as int + 1,
        ),
    decreases message.len(),
{
    if message.len() > 0 {
        let init = message.drop_last();
        lemma_first_field(init);
        let first = fields(init)[0];
        let last = message.last();
        if fields(init).len() == 1 {
            if last == ':' {
                assert(fields(message)[0] == init);
                assert(message =~= init.push(':') + message.skip(init.len() as int + 1));
            } else {
                assert(fields(message) =~= seq![init.push(last)]);
                assert(init.push(last) =~= message);
                assert forall|i: int| 0 <= i < message.len() implies message[i] != ':' by {
                    if i < init.len() {
                        assert(init[i] == message[i]);
                        assert(!init.contains(':'));
                    }
                }
            }
        } else {
            assert(fields(message)[0] == first);
            assert(message =~= first.push(':') + message.skip(first.len() as int + 1)) by {
                assert(message =~= init.push(last));
                assert(init =~= first.push(':') + init.skip(first.len() as int + 1));
            }
        }
    } else {
        assert(fields(message)[0] =~= message);
    }
}

/// A bot asks for what it needs in the game, on a side.
#[derive(Debug, PartialEq, Eq)]
pub struct InGameParameters<W> {
    pub lobby_id: String,
    pub bot_number: String,
    pub side: String,
    pub tcp_writer: W,
}

impl<W> InGameParameters<W> {
    /// Bot number, lobby and side are there.
    pub open spec fn accepts(message: Seq<char>) -> bool {
        has_fields(message, 3)
    }

    /// Holds what the message says, and the connection that it came on.
    pub open spec fn says(self, message: Seq<char>, tcp_writer: W) -> bool {
        &&& self.bot_number@ == bot_in(message)
        &&& self.lobby_id@ == fields(message)[1]
        &&& self.side@ == fields(message)[2]
        &&& self.tcp_writer == tcp_writer
    }

    pub fn new(message: &str, tcp_writer: W) -> (report: Self)
        requires
            Self::accepts(message@),
        ensures
            report.says(message@, tcp_writer),
    {
        let parts = split_text(message, ':');
        assert(parts.deep_view().len() == parts@.len());
        assert(parts.deep_view()[0] == parts@[0]@);
        assert(parts.deep_view()[1] == parts@[1]@);
        assert(parts.deep_view()[2] == parts@[2]@);
        InGameParameters {
            lobby_id: parts[1].clone(),
            bot_number: text_from(parts[0].as_str(), 2).to_owned(),
            side: parts[2].clone(),
            tcp_writer,
        }
    }
}

/// A bot's game is over: the account that it played with, and how long the match took.
#[derive(Debug, PartialEq, Eq)]
pub struct GameEnded {
    pub lobby_id: String,
    pub bot_number: String,
    pub dota_id: String,
    pub match_duration_secs: u64,
}

impl GameEnded {
    /// Bot number, lobby, account and a whole number of seconds are there.
    pub open spec fn accepts(message: Seq<char>) -> bool {
        &&& has_fields(message, 4)
        &&& unsigned_value(fields(message)[3], u64::MAX as int) is Some
    }

    /// Holds what the message says.
    pub open spec fn says(self, message: Seq<char>) -> bool {
        &&& self.bot_number@ == bot_in(message)
        &&& self.lobby_id@ == fields(message)[1]
        &&& self.dota_id@ == fields(message)[2]
        &&& unsigned_value(fields(message)[3], u64::MAX as int) == Some(
            self.match_duration_secs as int,
        )
    }

    pub fn new(message: &str) -> (report: Self)
        requires
            Self::accepts(message@),
        ensures
            report.says(message@),
    {
        let parts = split_text(message, ':');
        assert(parts.deep_view().len() == parts@.len());
        assert(parts.deep_view()[0] == parts@[0]@);
        assert(parts.deep_view()[1] == parts@[1]@);
        assert(parts.deep_view()[2] == parts@[2]@);
        assert(parts.deep_view()[3] == parts@[3]@);
        let match_duration_secs: u64 = parse_u64(parts[3].as_str()).unwrap();
        GameEnded {
            lobby_id: parts[1].clone(),
            bot_number: text_from(parts[0].as_str(), 2).to_owned(),
            dota_id: parts[2].clone(),
            match_duration_secs,
        }
    }

    /// Whether a message can be read as such a report.
    fn check(message: &str) -> (ok: bool)
        ensures
            ok == Self::accepts(message@),
    {
        if !check_fields(message, 4) {
            return false;
        }
        let parts = split_text(message, ':');
        assert(parts.deep_view().len() == parts@.len());
        assert(parts.deep_view()[3] == parts@[3]@);
        parse_u64(parts[3].as_str()).is_some()
    }
}

/// A bot's game was broken off.
#[derive(Debug, PartialEq, Eq)]
pub struct GameAborted {
    pub lobby_id: String,
    pub bot_number: String,
}

impl GameAborted {
    /// Bot number and lobby are there.
    pub open spec fn accepts(message: Seq<char>) -> bool {
        has_fields(message, 2)
    }

    /// Holds what the message says.
    pub open spec fn says(self, message: Seq<char>) -> bool {
        &&& self.bot_number@ == bot_in(message)
        &&& self.lobby_id@ == fields(message)[1]
    }

    pub fn new(message: &str) -> (report: Self)
        requires
            Self::accepts(message@),
        ensures
            report.says(message@),
    {
        let parts = split_text(message, ':');
        assert(parts.deep_view().len() == parts@.len());
        assert(parts.deep_view()[0] == parts@[0]@);
        assert(parts.deep_view()[1] == parts@[1]@);
        GameAborted {
            lobby_id: parts[1].clone(),
            bot_number: text_from(parts[0].as_str(), 2).to_owned(),
        }
    }
}

/// Something happened in a bot's game that the other bots are to hear of.
#[derive(Debug, PartialEq, Eq)]
pub struct InGameEvent {
    pub lobby_id: String,
    pub bot_number: String,
    pub event: String,
}

impl InGameEvent {
    /// Bot number, lobby and event are there.
    pub open spec fn accepts(message: Seq<char>) -> bool {
        has_fields(message, 3)
    }

    /// Holds what the message says.
    pub open spec fn says(self, message: Seq<char>) -> bool {
        &&& self.bot_number@ == bot_in(message)
        &&& self.lobby_id@ == fields(message)[1]
        &&& self.event@ == fields(message)[2]
    }

    pub fn new(message: &str) -> (report: Self)
        requires
            Self::accepts(message@),
        ensures
            report.says(message@),
    {
        let parts = split_text(message, ':');
        assert(parts.deep_view().len() == parts@.len());
        assert(parts.deep_view()[0] == parts@[0]@);
        assert(parts.deep_view()[1] == parts@[1]@);
        assert(parts.deep_view()[2] == parts@[2]@);
        InGameEvent {
            lobby_id: parts[1].clone(),
            bot_number: text_from(parts[0].as_str(), 2).to_owned(),
            event: parts[2].clone(),
        }
    }
}

/// A user's command for some bots, with the list of connected bots that it is to be carried out on.
#[derive(Debug, PartialEq, Eq)]
pub struct UserCommand<C> {
    pub command: String,
    pub affected_bots: Vec<String>,
    pub bot_clients: C,
}

impl<C> UserCommand<C> {
    /// A command code and a list of bots are there.
    pub open spec fn accepts(message: Seq<char>) -> bool {
        &&& fields(message).len() >= 2
        &&& has_event_code(fields(message)[0])
    }

    /// Holds what the message says, and the list of connected bots.
    pub open spec fn says(self, message: Seq<char>, bot_clients: C) -> bool {
        &&& self.command@ == event_code(fields(message)[0])
        &&& self.affected_bots.deep_view() == split(fields(message)[1], ',')
        &&& self.bot_clients == bot_clients
    }

    pub fn new(message: &str, bot_clients: C) -> (command: Self)
        requires
            Self::accepts(message@),
        ensures
            command.says(message@, bot_clients),
    {
        let parts = split_text(message, ':');
        assert(parts.deep_view().len() == parts@.len());
        assert(parts.deep_view()[0] == parts@[0]@);
        assert(parts.deep_view()[1] == parts@[1]@);
        UserCommand {
            command: code_after_source(parts[0].as_str()).to_owned(),
            affected_bots: split_text(parts[1].as_str(), ','),
            bot_clients,
        }
    }

    /// Whether a message can be read as such a command.
    fn check(message: &str) -> (ok: bool)
        ensures
            ok == Self::accepts(message@),
    {
        let parts = split_text(message, ':');
        assert(parts.deep_view().len() == parts@.len());
        if parts.len() < 2 {
            false
        } else {
            assert(parts.deep_view()[0] == parts@[0]@);
            parts[0].as_str().is_char_boundary(1) && parts[0].as_str().is_char_boundary(2)
        }
    }
}

/// A bot's message, read.
#[derive(Debug, PartialEq, Eq)]
pub enum BotMessage<W> {
    ReconnectHandshake(ReconnectHandshake<W>),
    LobbyFound(LobbyFound<W>),
    InGameParameters(InGameParameters<W>),
    GameEnded(GameEnded),
    GameAborted(GameAborted),
    InGameEvent(InGameEvent),
    ConnectHandshake(ConnectHandshake, W),
    /// The event code stands for nothing.
    Unknown,
    /// There is no event code, or the fields of its event are not there.
    Malformed,
}

/// The fields of an event are there.
pub open spec fn event_fields_there<W>(event: BotSourceEvent, message: Seq<char>) -> bool {
    match event {
        BotSourceEvent::ReconnectHandshake => ReconnectHandshake::<W>::accepts(message),
        BotSourceEvent::LobbyFound => LobbyFound::<W>::accepts(message),
        BotSourceEvent::InGameParameters => InGameParameters::<W>::accepts(message),
        BotSourceEvent::GameEnded => GameEnded::accepts(message),
        BotSourceEvent::GameAborted => GameAborted::accepts(message),
        BotSourceEvent::InGameEvent => InGameEvent::accepts(message),
        BotSourceEvent::ConnectHandshake => ConnectHandshake::accepts(message),
        BotSourceEvent::Unknown => true,
    }
}

impl<W> BotMessage<W> {
    /// What the message says: the report that its event code stands for, with its fields.
    pub open spec fn says(self, message: Seq<char>, tcp_writer: W) -> bool {
        let event = BotSourceEvent::of(event_code(message));
        let there = has_event_code(message) && event_fields_there::<W>(event, message);
        match self {
            BotMessage::ReconnectHandshake(report) => there
                && event is ReconnectHandshake && report.says(message, tcp_writer),
            BotMessage::LobbyFound(report) => there && event is LobbyFound && report.says(
                message,
                tcp_writer,
            ),
            BotMessage::InGameParameters(report) => there && event is InGameParameters
                && report.says(message, tcp_writer),
            BotMessage::GameEnded(report) => there && event is GameEnded && report.says(message),
            BotMessage::GameAborted(report) => there && event is GameAborted && report.says(
                message,
            ),
            BotMessage::InGameEvent(report) => there && event is InGameEvent && report.says(
                message,
            ),
            BotMessage::ConnectHandshake(report, writer) => there && event is ConnectHandshake
                && report.says(message) && writer == tcp_writer,
            BotMessage::Unknown => there && event is Unknown,
            BotMessage::Malformed => !there,
        }
    }
}

/// Reads a bot's message.
pub fn handle_bot_source<W>(message: &str, tcp_writer: W) -> (read: BotMessage<W>)
    ensures
        read.says(message@, tcp_writer),
{
    if !message.is_char_boundary(1) || !message.is_char_boundary(2) {
        return BotMessage::Malformed;
    }
    match BotSourceEvent::from_str(code_after_source(message)) {
        BotSourceEvent::ReconnectHandshake => if check_fields(message, 3) {
            BotMessage::ReconnectHandshake(ReconnectHandshake::new(message, tcp_writer))
        } else {
            BotMessage::Malformed
        },
        BotSourceEvent::LobbyFound => if check_fields(message, 2) {
            BotMessage::LobbyFound(LobbyFound::new(message, tcp_writer))
        } else {
            BotMessage::Malformed
        },
        BotSourceEvent::InGameParameters => if check_fields(message, 3) {
            BotMessage::InGameParameters(InGameParameters::new(message, tcp_writer))
        } else {
            BotMessage::Malformed
        },
        BotSourceEvent::GameEnded => if GameEnded::check(message) {
            BotMessage::GameEnded(GameEnded::new(message))
        } else {
            BotMessage::Malformed
        },
        BotSourceEvent::GameAborted => if check_fields(message, 2) {
            BotMessage::GameAborted(GameAborted::new(message))
        } else {
            BotMessage::Malformed
        },
        BotSourceEvent::InGameEvent => if check_fields(message, 3) {
            BotMessage::InGameEvent(InGameEvent::new(message))
        } else {
            BotMessage::Malformed
        },
        BotSourceEvent::ConnectHandshake => BotMessage::ConnectHandshake(
            ConnectHandshake::new(message),
            tcp_writer,
        ),
        BotSourceEvent::Unknown => BotMessage::Unknown,
    }
}

/// A user's message, read.
#[derive(Debug, PartialEq, Eq)]
pub enum UserMessage<C> {
    UserCommand(UserCommand<C>),
    /// The event code stands for nothing.
    Unknown,
    /// There is no event code, or the fields of its event are not there.
    Malformed,
}

impl<C> UserMessage<C> {
    /// What the message says.
    pub open spec fn says(self, message: Seq<char>, bot_clients: C) -> bool {
        let event = UserSourceEvent::of(event_code(message));
        let there = has_event_code(message) && (event is UserCommand
            ==> UserCommand::<C>::accepts(message));
        match self {
            UserMessage::UserCommand(command) => there && event is UserCommand && command.says(
                message,
                bot_clients,
            ),
            UserMessage::Unknown => there && event is Unknown,
            UserMessage::Malformed => !there,
        }
    }
}

/// Reads a user's message.
pub fn handle_user_source<C>(message: &str, bot_clients: C) -> (read: UserMessage<C>)
    ensures
        read.says(message@, bot_clients),
{
    if !message.is_char_boundary(1) || !message.is_char_boundary(2) {
        return UserMessage::Malformed;
    }
    match UserSourceEvent::from_str(code_after_source(message)) {
        UserSourceEvent::UserCommand => if UserCommand::<C>::check(message) {
            UserMessage::UserCommand(UserCommand::new(message, bot_clients))
        } else {
            UserMessage::Malformed
        },
        UserSourceEvent::Unknown => UserMessage::Unknown,
    }
}

/// The message that a sender composes: its code, the event's code, and the parts between colons.
pub open spec fn composed(source: char, event: char, parts: Seq<Seq<char>>) -> Seq<char> {
    seq![source, event] + join(parts, seq![':'])
}

/// A text that holds no colon.
pub open spec fn colon_free(text: Seq<char>) -> bool {
    !text.contains(':')
}

/// Joining is not disturbed by what stands before the first part.
proof fn lemma_join_front(front: Seq<char>, parts: Seq<Seq<char>>, separator: Seq<char>)
    requires
        parts.len() > 0,
    ensures
        join(parts.update(0, front + parts[0]), separator) == front + join(parts, separator),
    decreases parts.len(),
{
    let changed = parts.update(0, front + parts[0]);
    if parts.len() > 1 {
        let init = parts.drop_last();
        lemma_join_front(front, init, separator);
        assert(changed.drop_last() =~= init.update(0, front + init[0]));
        assert(join(changed, separator) =~= front + join(parts, separator));
    }
}

/// A composed message is read back: its codes, and its parts one by one.
pub proof fn law_composed_message_is_read(source: char, event: char, parts: Seq<Seq<char>>)
    requires
        '\0' <= source <= '\u{7f}',
        '\0' <= event <= '\u{7f}',
        source != ':',
        event != ':',
        parts.len() > 0,
        forall|i: int| 0 <= i < parts.len() ==> colon_free(#[trigger] parts[i]),
    ensures
        boundary(composed(source, event, parts), 1),
        before_byte(composed(source, event, parts), 1) == seq![source],
        has_event_code(composed(source, event, parts)),
        event_code(composed(source, event, parts)) == seq![event],
        has_fields(composed(source, event, parts), parts.len() as int),
        bot_in(composed(source, event, parts)) == parts[0],
        fields(composed(source, event, parts)) == parts.update(
            0,
            seq![source, event] + parts[0],
        ),
{
    let message = composed(source, event, parts);
    let codes = seq![source, event];
    let changed = parts.update(0, codes + parts[0]);
    assert(message[0] == source && message[1] == event);
    lemma_join_front(codes, parts, seq![':']);
    assert forall|i: int| 0 <= i < changed.len() implies !(#[trigger] changed[i]).contains(
        ':',
    ) by {
        assert(colon_free(parts[i]));
        if i == 0 {
            assert forall|j: int| 0 <= j < changed[0].len() implies changed[0][j] != ':' by {
                if j >= 2 {
                    assert(changed[0][j] == parts[0][j - 2]);
                }
            }
        }
    }
    crate::text::law_split_undoes_join(changed, ':');
    crate::text::lemma_cut_after_ascii(message, 1);
    crate::text::lemma_cut_after_ascii(message, 2);
    assert(message.take(1) =~= seq![source]);
    let rest = message.skip(1);
    assert(rest[0] == event);
    crate::text::lemma_cut_after_ascii(rest, 1);
    assert(rest.take(1) =~= seq![event]);
    let first = changed[0];
    assert(first[0] == source && first[1] == event);
    crate::text::lemma_cut_after_ascii(first, 2);
    assert(first.skip(2) =~= parts[0]);
}

/// Each report has a code of one character.
pub proof fn law_bot_event_codes(code: char)
    ensures
        BotSourceEvent::of(seq![code]) == if code == '0' {
            BotSourceEvent::ReconnectHandshake
        } else if code == '1' {
            BotSourceEvent::LobbyFound
        } else if code == '2' {
            BotSourceEvent::InGameParameters
        } else if code == '3' {
            BotSourceEvent::GameEnded
        } else if code == '4' {
            BotSourceEvent::GameAborted
        } else if code == '5' {
            BotSourceEvent::InGameEvent
        } else if code == '6' {
            BotSourceEvent::ConnectHandshake
        } else {
            BotSourceEvent::Unknown
        },
{
    reveal_strlit("0");
    reveal_strlit("1");
    reveal_strlit("2");
    reveal_strlit("3");
    reveal_strlit("4");
    reveal_strlit("5");
    reveal_strlit("6");
    assert(seq![code][0] == code);
    assert(code == '0' ==> seq![code] =~= "0"@);
    assert(code == '1' ==> seq![code] =~= "1"@);
    assert(code == '2' ==> seq![code] =~= "2"@);
    assert(code == '3' ==> seq![code] =~= "3"@);
    assert(code == '4' ==> seq![code] =~= "4"@);
    assert(code == '5' ==> seq![code] =~= "5"@);
    assert(code == '6' ==> seq![code] =~= "6"@);
}

/// The one request has a code of one character.
pub proof fn law_user_event_codes(code: char)
    ensures
        UserSourceEvent::of(seq![code]) == if code == '0' {
            UserSourceEvent::UserCommand
        } else {
            UserSourceEvent::Unknown
        },
{
    reveal_strlit("0");
    assert(seq![code][0] == code);
    assert(code == '0' ==> seq![code] =~= "0"@);
}

/// A report of an ended game, composed of colon-free fields, is read as exactly those fields.
pub proof fn law_game_ended_is_read<W>(
    bot_number: Seq<char>,
    lobby_id: Seq<char>,
    dota_id: Seq<char>,
    match_duration_secs: u64,
    read: BotMessage<W>,
    tcp_writer: W,
)
    requires
        colon_free(bot_number),
        colon_free(lobby_id),
        colon_free(dota_id),
        read.says(
            composed(
                '0',
                '3',
                seq![bot_number, lobby_id, dota_id, decimal(match_duration_secs as int)],
            ),
            tcp_writer,
        ),
    ensures
        read matches BotMessage::GameEnded(report) && report.bot_number@ == bot_number
            && report.lobby_id@ == lobby_id && report.dota_id@ == dota_id
            && report.match_duration_secs == match_duration_secs,
{
    let secs = decimal(match_duration_secs as int);
    crate::decimal::law_reading_undoes_writing(match_duration_secs as int);
    crate::decimal::law_unsigned_reading_undoes_writing(
        match_duration_secs as int,
        u64::MAX as int,
    );
    assert(colon_free(secs)) by {
        assert forall|i: int| 0 <= i < secs.len() implies secs[i] != ':' by {
            assert(crate::decimal::is_digit(secs[i]));
        }
    }
    law_composed_message_is_read('0', '3', seq![bot_number, lobby_id, dota_id, secs]);
    law_bot_event_codes('3');
}

/// A reconnect handshake, composed of colon-free fields, is read as exactly those fields.
pub proof fn law_reconnect_handshake_is_read<W>(
    bot_number: Seq<char>,
    lobby_id: Seq<char>,
    side: Seq<char>,
    read: BotMessage<W>,
    tcp_writer: W,
)
    requires
        colon_free(bot_number),
        colon_free(lobby_id),
        colon_free(side),
        read.says(composed('0', '0', seq![bot_number, lobby_id, side]), tcp_writer),
    ensures
        read matches BotMessage::ReconnectHandshake(report) && report.bot_number@ == bot_number
            && report.lobby_id@ == lobby_id && report.side@ == side && report.tcp_writer
            == tcp_writer,
{
    law_composed_message_is_read('0', '0', seq![bot_number, lobby_id, side]);
    law_bot_event_codes('0');
}

/// A found lobby, composed of a colon-free bot number and any lobby, is read as exactly these.
pub proof fn law_lobby_found_is_read<W>(
    bot_number: Seq<char>,
    lobby_id: Seq<char>,
    read: BotMessage<W>,
    tcp_writer: W,
)
    requires
        colon_free(bot_number),
        read.says(composed('0', '1', seq![bot_number, lobby_id]), tcp_writer),
    ensures
        read matches BotMessage::LobbyFound(report) && report.bot_number@ == bot_number
            && report.lobby_id@ == lobby_id && report.tcp_writer == tcp_writer,
{
    let parts = seq![bot_number, lobby_id];
    let message = composed('0', '1', parts);
    let first = seq!['0', '1'] + bot_number;
    assert(parts.drop_last() =~= seq![bot_number]);
    assert(join(parts.drop_last(), seq![':']) == bot_number);
    assert(join(parts, seq![':']) =~= bot_number + seq![':'] + lobby_id);
    assert(message =~= first.push(':') + lobby_id);
    crate::text::lemma_split_between(first, ':', lobby_id);
    crate::text::lemma_split_not_empty(lobby_id, ':');
    assert forall|i: int| 0 <= i < first.len() implies first[i] != ':' by {
        if i >= 2 {
            assert(first[i] == bot_number[i - 2]);
        }
    }
    crate::text::lemma_split_whole(first, ':');
    assert(fields(message)[0] == first);
    assert(first[0] == '0' && first[1] == '1');
    crate::text::lemma_cut_after_ascii(first, 2);
    assert(first.skip(2) =~= bot_number);
    assert(message.skip(first.len() as int + 1) =~= lobby_id);
    assert(message[0] == '0' && message[1] == '1');
    crate::text::lemma_cut_after_ascii(message, 1);
    crate::text::lemma_cut_after_ascii(message, 2);
    let rest = message.skip(1);
    assert(rest[0] == '1');
    crate::text::lemma_cut_after_ascii(rest, 1);
    assert(rest.take(1) =~= seq!['1']);
    law_bot_event_codes('1');
}

/// A request for in-game parameters, composed of colon-free fields, is read as exactly those
/// fields.
pub proof fn law_in_game_parameters_is_read<W>(
    bot_number: Seq<char>,
    lobby_id: Seq<char>,
    side: Seq<char>,
    read: BotMessage<W>,
    tcp_writer: W,
)
    requires
        colon_free(bot_number),
        colon_free(lobby_id),
        colon_free(side),
        read.says(composed('0', '2', seq![bot_number, lobby_id, side]), tcp_writer),
    ensures
        read matches BotMessage::InGameParameters(report) && report.bot_number@ == bot_number
            && report.lobby_id@ == lobby_id && report.side@ == side && report.tcp_writer
            == tcp_writer,
{
    law_composed_message_is_read('0', '2', seq![bot_number, lobby_id, side]);
    law_bot_event_codes('2');
}

/// A report of an aborted game, composed of colon-free fields, is read as exactly those fields.
pub proof fn law_game_aborted_is_read<W>(
    bot_number: Seq<char>,
    lobby_id: Seq<char>,
    read: BotMessage<W>,
    tcp_writer: W,
)
    requires
        colon_free(bot_number),
        colon_free(lobby_id),
        read.says(composed('0', '4', seq![bot_number, lobby_id]), tcp_writer),
    ensures
        read matches BotMessage::GameAborted(report) && report.bot_number@ == bot_number
            && report.lobby_id@ == lobby_id,
{
    law_composed_message_is_read('0', '4', seq![bot_number, lobby_id]);
    law_bot_event_codes('4');
}

/// An in-game event, composed of colon-free fields, is read as exactly those fields.
pub proof fn law_in_game_event_is_read<W>(
    bot_number: Seq<char>,
    lobby_id: Seq<char>,
    event: Seq<char>,
    read: BotMessage<W>,
    tcp_writer: W,
)
    requires
        colon_free(bot_number),
        colon_free(lobby_id),
        colon_free(event),
        read.says(composed('0', '5', seq![bot_number, lobby_id, event]), tcp_writer),
    ensures
        read matches BotMessage::InGameEvent(report) && report.bot_number@ == bot_number
            && report.lobby_id@ == lobby_id && report.event@ == event,
{
    law_composed_message_is_read('0', '5', seq![bot_number, lobby_id, event]);
    law_bot_event_codes('5');
}

/// A connect handshake is read as the number of the bot, whatever characters it holds.
pub proof fn law_connect_handshake_is_read<W>(
    bot_number: Seq<char>,
    read: BotMessage<W>,
    tcp_writer: W,
)
    requires
        read.says(composed('0', '6', seq![bot_number]), tcp_writer),
    ensures
        read matches BotMessage::ConnectHandshake(report, writer) && report.bot_number@
            == bot_number && writer == tcp_writer,
{
    let message = composed('0', '6', seq![bot_number]);
    assert(message[0] == '0' && message[1] == '6');
    crate::text::lemma_cut_after_ascii(message, 1);
    crate::text::lemma_cut_after_ascii(message, 2);
    assert(message.skip(2) =~= bot_number);
    let rest = message.skip(1);
    assert(rest[0] == '6');
    crate::text::lemma_cut_after_ascii(rest, 1);
    assert(rest.take(1) =~= seq!['6']);
    law_bot_event_codes('6');
}

/// A user's command for bots whose numbers hold no colon and no comma is read as the command code
/// and exactly those bots.
pub proof fn law_user_command_is_read<C>(
    affected_bots: Seq<Seq<char>>,
    read: UserMessage<C>,
    bot_clients: C,
)
    requires
        affected_bots.len() > 0,
        forall|i: int|
            0 <= i < affected_bots.len() ==> colon_free(#[trigger] affected_bots[i])
                && !affected_bots[i].contains(','),
        read.says(
            composed('1', '0', seq![Seq::empty(), join(affected_bots, seq![','])]),
            bot_clients,
        ),
    ensures
        read matches UserMessage::UserCommand(command) && command.command@ == seq!['0']
            && command.affected_bots.deep_view() == affected_bots && command.bot_clients
            == bot_clients,
{
    let list = join(affected_bots, seq![',']);
    lemma_join_colon_free(affected_bots, ',');
    crate::text::law_split_undoes_join(affected_bots, ',');
    let parts = seq![Seq::<char>::empty(), list];
    law_composed_message_is_read('1', '0', parts);
    law_user_event_codes('0');
    let first = seq!['1', '0'] + parts[0];
    assert(first[0] == '1' && first[1] == '0');
    crate::text::lemma_cut_after_ascii(first, 1);
    crate::text::lemma_cut_after_ascii(first, 2);
    let rest = first.skip(1);
    assert(rest[0] == '0');
    crate::text::lemma_cut_after_ascii(rest, 1);
    assert(rest.take(1) =~= seq!['0']);
}

/// Texts without colons, joined by something other than a colon, hold none together.
proof fn lemma_join_colon_free(parts: Seq<Seq<char>>, separator: char)
    requires
        separator != ':',
        forall|i: int| 0 <= i < parts.len() ==> colon_free(#[trigger] parts[i]),
    ensures
        colon_free(join(parts, seq![separator])),
    decreases parts.len(),
{
    let whole = join(parts, seq![separator]);
    if parts.len() > 1 {
        let init = parts.drop_last();
        assert forall|i: int| 0 <= i < init.len() implies colon_free(#[trigger] init[i]) by {
            assert(init[i] == parts[i]);
        }
        lemma_join_colon_free(init, separator);
        let front = join(init, seq![separator]);
        assert(colon_free(parts[parts.len() - 1]));
        assert forall|i: int| 0 <= i < whole.len() implies whole[i] != ':' by {
            if i < front.len() {
                assert(whole[i] == front[i]);
            } else if i > front.len() {
                assert(whole[i] == parts.last()[i - front.len() - 1]);
            }
        }
    } else if parts.len() == 1 {
        assert(colon_free(parts[0]));
    }
}

/// A bot's message goes by its second byte alone: each of the seven codes is read as its report, with
/// the fields between the colons in their places, wherever so many fields are there and the first is
/// at least two bytes; fields beyond those are passed over. Any other code is unknown, and a message
/// without a code, or without its fields, is malformed.
pub proof fn law_bot_message_by_its_code<W>(
    message: Seq<char>,
    read: BotMessage<W>,
    tcp_writer: W,
)
    requires
        read.says(message, tcp_writer),
    ensures
        ({
            let parts = split(message, ':');
            let coded = boundary(message, 1) && boundary(message, 2);
            let code = before_byte(from_byte(message, 1), 1);
            let numbered = boundary(parts[0], 2);
            let bot = from_byte(parts[0], 2);
            &&& !coded ==> read is Malformed
            &&& coded && code == seq!['0'] ==> if parts.len() >= 3 && numbered {
                read matches BotMessage::ReconnectHandshake(report) && report.bot_number@ == bot
                    && report.lobby_id@ == parts[1] && report.side@ == parts[2] && report.tcp_writer
                    == tcp_writer
            } else {
                read is Malformed
            }
            &&& coded && code == seq!['1'] ==> if parts.len() >= 2 && numbered {
                read matches BotMessage::LobbyFound(report) && report.bot_number@ == bot
                    && parts[0] + seq![
                    ':',
                ] + report.lobby_id@ == message && report.tcp_writer == tcp_writer
            } else {
                read is Malformed
            }
            &&& coded && code == seq!['2'] ==> if parts.len() >= 3 && numbered {
                read matches BotMessage::InGameParameters(report) && report.bot_number@ == bot
                    && report.lobby_id@ == parts[1] && report.side@ == parts[2] && report.tcp_writer
                    == tcp_writer
            } else {
                read is Malformed
            }
            &&& coded && code == seq!['3'] ==> if parts.len() >= 4 && numbered && unsigned_value(
                parts[3],
                0xffff_ffff_ffff_ffff,
            ) is Some {
                read matches BotMessage::GameEnded(report) && report.bot_number@ == bot
                    && report.lobby_id@
                    == parts[1] && report.dota_id@ == parts[2] && unsigned_value(
                    parts[3],
                    0xffff_ffff_ffff_ffff,
                ) == Some(report.match_duration_secs as int)
            } else {
                read is Malformed
            }
            &&& coded && code == seq!['4'] ==> if parts.len() >= 2 && numbered {
                read matches BotMessage::GameAborted(report) && report.bot_number@ == bot
                    && report.lobby_id@
                    == parts[1]
            } else {
                read is Malformed
            }
            &&& coded && code == seq!['5'] ==> if parts.len() >= 3 && numbered {
                read matches BotMessage::InGameEvent(report) && report.bot_number@ == bot
                    && report.lobby_id@
                    == parts[1] && report.event@ == parts[2]
            } else {
                read is Malformed
            }
            &&& coded && code == seq!['6'] ==> (read matches BotMessage::ConnectHandshake(
                report,
                writer,
            ) && report.bot_number@ == from_byte(message, 2) && writer == tcp_writer)
            &&& coded && !(code.len() == 1 && '0' <= code[0] <= '6') ==> read is Unknown
        }),
{
    let parts = split(message, ':');
    let code = before_byte(from_byte(message, 1), 1);
    law_bot_event_codes('0');
    law_bot_event_codes('1');
    law_bot_event_codes('2');
    law_bot_event_codes('3');
    law_bot_event_codes('4');
    law_bot_event_codes('5');
    law_bot_event_codes('6');
    lemma_first_field(message);
    assert(parts.len() >= 2 ==> parts[0].push(':') =~= parts[0] + seq![':']);
    assert('0' != '1' && '1' != '2' && '2' != '3' && '3' != '4' && '4' != '5' && '5' != '6');
    if !(code.len() == 1 && '0' <= code[0] <= '6') {
        law_other_event_codes(code);
        if code.len() == 1 {
            assert(code =~= seq![code[0]]);
            law_bot_event_codes(code[0]);
        }
    }
}

/// A user's message with the code `0` is read as a command with all bots between the commas of its
/// second field, wherever that field is there and the first is at least two bytes; fields beyond that
/// are passed over. Any other code is unknown, and a message without a code, or without its fields, is
/// malformed.
pub proof fn law_user_message_by_its_code<C>(
    message: Seq<char>,
    read: UserMessage<C>,
    bot_clients: C,
)
    requires
        read.says(message, bot_clients),
    ensures
        ({
            let parts = split(message, ':');
            let coded = boundary(message, 1) && boundary(message, 2);
            let code = before_byte(from_byte(message, 1), 1);
            &&& !coded ==> read is Malformed
            &&& coded && code == seq!['0'] ==> if parts.len() >= 2 && boundary(parts[0], 1)
                && boundary(parts[0], 2) {
                read matches UserMessage::UserCommand(command) && command.command@ == before_byte(
                    from_byte(parts[0], 1),
                    1,
                ) && command.affected_bots.deep_view() == split(parts[1], ',')
                    && command.bot_clients == bot_clients
            } else {
                read is Malformed
            }
            &&& coded && code != seq!['0'] ==> read is Unknown
        }),
{
    let code = before_byte(from_byte(message, 1), 1);
    reveal_strlit("0");
    assert("0"@ =~= seq!['0']);
}

/// Only a code of one character stands for a report or a request.
pub proof fn law_other_event_codes(code: Seq<char>)
    ensures
        code.len() != 1 ==> BotSourceEvent::of(code) == BotSourceEvent::Unknown,
        code.len() != 1 ==> UserSourceEvent::of(code) == UserSourceEvent::Unknown,
{
    reveal_strlit("0");
    reveal_strlit("1");
    reveal_strlit("2");
    reveal_strlit("3");
    reveal_strlit("4");
    reveal_strlit("5");
    reveal_strlit("6");
}

} // verus!
