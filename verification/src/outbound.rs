//! The messages that bots are sent. Those without content of their own end in a zero that makes
//! them longer than a sign of life.
use crate::framing::lemma_longer_than_characters;
use crate::roles::{roles_message, starter_replay_message};
use crate::text::join;
use vstd::prelude::*;
use vstd::utf8::{encode_scalar, encode_utf8};

verus! {

/// Asks whether a connection still stands.
pub const HEALTH_CHECK: &'static str = "0";

/// Tells a bot to end.
pub const TERMINATE: &'static str = "00";

/// The lobby did not fill up.
pub const LOBBY_NOT_FULL: &'static str = "10";

/// The lobby is full.
pub const LOBBY_FULL: &'static str = "11";

/// Not all bots have asked for their in-game parameters: leave before the game.
pub const PRE_IN_GAME_DISCONNECT: &'static str = "50";

/// The game was broken off.
pub const GAME_ABORTED: &'static str = "70";

/// The game is over: what happened in the game is the event `0`.
pub const GAME_ENDED: &'static str = "60";

/// The message that names the team that is to win.
pub open spec fn win_team_message(team: Seq<char>) -> Seq<char> {
    "4"@ + team
}

/// The message that passes on what happened in a game.
pub open spec fn in_game_event_message(event: Seq<char>) -> Seq<char> {
    "6"@ + event
}

/// Names the team that is to win.
pub fn name_win_team(team: &str) -> (message: String)
    ensures
        message@ == win_team_message(team@),
{
    let mut message: String = "4".to_owned();
    message.append(team);
    message
}

/// Passes on what happened in a game.
pub fn pass_on_event(event: &str) -> (message: String)
    ensures
        message@ == in_game_event_message(event@),
{
    let mut message: String = "6".to_owned();
    message.append(event);
    message
}

/// A message is longer than a sign of life, and is therefore not passed over where it arrives.
pub open spec fn is_noticed(message: Seq<char>) -> bool {
    encode_utf8(message).len() > 1
}

/// All messages to bots are noticed but for the question whether a connection still stands, which is
/// meant to be passed over: those without content by the zero at their end, those with content where
/// there is any.
pub proof fn law_commands_are_noticed(
    roles: Seq<Seq<char>>,
    number: Seq<char>,
    team: Seq<char>,
    event: Seq<char>,
)
    requires
        roles.len() > 0,
        forall|i: int| 0 <= i < roles.len() ==> (#[trigger] roles[i]).len() > 0,
        number.len() > 0,
        team.len() > 0,
        event.len() > 0,
    ensures
        !is_noticed(HEALTH_CHECK@),
        is_noticed(TERMINATE@),
        is_noticed(LOBBY_NOT_FULL@),
        is_noticed(LOBBY_FULL@),
        is_noticed(roles_message(roles)),
        is_noticed(starter_replay_message(number)),
        is_noticed(win_team_message(team)),
        is_noticed(PRE_IN_GAME_DISCONNECT@),
        is_noticed(in_game_event_message(event)),
        is_noticed(GAME_ABORTED@),
        is_noticed(GAME_ENDED@),
{
    reveal_strlit("0");
    reveal_strlit("00");
    reveal_strlit("10");
    reveal_strlit("11");
    reveal_strlit("2");
    reveal_strlit("3");
    reveal_strlit("4");
    reveal_strlit("50");
    reveal_strlit("6");
    reveal_strlit("70");
    reveal_strlit("60");
    let health = HEALTH_CHECK@;
    assert(encode_utf8(health) == encode_scalar(health[0] as u32) + encode_utf8(
        health.drop_first(),
    ));
    assert(health.drop_first() =~= Seq::<char>::empty());
    lemma_longer_than_characters(TERMINATE@);
    lemma_longer_than_characters(LOBBY_NOT_FULL@);
    lemma_longer_than_characters(LOBBY_FULL@);
    lemma_join_holds_last(roles, ","@);
    lemma_longer_than_characters(roles_message(roles));
    lemma_longer_than_characters(starter_replay_message(number));
    lemma_longer_than_characters(win_team_message(team));
    lemma_longer_than_characters(PRE_IN_GAME_DISCONNECT@);
    lemma_longer_than_characters(in_game_event_message(event));
    lemma_longer_than_characters(GAME_ABORTED@);
    lemma_longer_than_characters(GAME_ENDED@);
}

/// A row of texts is at least as long as its last.
proof fn lemma_join_holds_last(parts: Seq<Seq<char>>, separator: Seq<char>)
    requires
        parts.len() > 0,
    ensures
        join(parts, separator).len() >= parts.last().len(),
{
}

/// The first character of each message says what it is about.
pub proof fn law_first_character_tells_the_command(
    roles: Seq<Seq<char>>,
    number: Seq<char>,
    team: Seq<char>,
    event: Seq<char>,
)
    ensures
        TERMINATE@[0] == '0',
        LOBBY_NOT_FULL@[0] == '1',
        LOBBY_FULL@[0] == '1',
        roles_message(roles)[0] == '2',
        starter_replay_message(number)[0] == '3',
        win_team_message(team)[0] == '4',
        PRE_IN_GAME_DISCONNECT@[0] == '5',
        in_game_event_message(event)[0] == '6',
        GAME_ABORTED@[0] == '7',
        GAME_ENDED@[0] == '6',
{
    reveal_strlit("00");
    reveal_strlit("10");
    reveal_strlit("11");
    reveal_strlit("2");
    reveal_strlit("3");
    reveal_strlit("4");
    reveal_strlit("50");
    reveal_strlit("6");
    reveal_strlit("70");
    reveal_strlit("60");
}

/// That a game is over is told like anything else that happens in a game, as the event `0`.
pub proof fn law_game_ended_is_an_in_game_event()
    ensures
        GAME_ENDED@ == in_game_event_message("0"@),
{
    reveal_strlit("60");
    reveal_strlit("6");
    reveal_strlit("0");
    assert(GAME_ENDED@ =~= in_game_event_message("0"@));
}

/// The messages with content are a code and the content: a `4` and the team, a `6` and the event.
pub proof fn law_messages_with_content(content: Seq<char>)
    ensures
        win_team_message(content) == seq!['4'] + content,
        in_game_event_message(content) == seq!['6'] + content,
{
    reveal_strlit("4");
    reveal_strlit("6");
    assert("4"@ =~= seq!['4']);
    assert("6"@ =~= seq!['6']);
}

/// The messages without content, character by character.
pub proof fn law_messages_without_content()
    ensures
        HEALTH_CHECK@ == seq!['0'],
        TERMINATE@ == seq!['0', '0'],
        LOBBY_NOT_FULL@ == seq!['1', '0'],
        LOBBY_FULL@ == seq!['1', '1'],
        PRE_IN_GAME_DISCONNECT@ == seq!['5', '0'],
        GAME_ABORTED@ == seq!['7', '0'],
        GAME_ENDED@ == seq!['6', '0'],
{
    reveal_strlit("0");
    reveal_strlit("00");
    reveal_strlit("10");
    reveal_strlit("11");
    reveal_strlit("50");
    reveal_strlit("60");
    reveal_strlit("70");
    assert(HEALTH_CHECK@ =~= seq!['0']);
    assert(TERMINATE@ =~= seq!['0', '0']);
    assert(LOBBY_NOT_FULL@ =~= seq!['1', '0']);
    assert(LOBBY_FULL@ =~= seq!['1', '1']);
    assert(PRE_IN_GAME_DISCONNECT@ =~= seq!['5', '0']);
    assert(GAME_ABORTED@ =~= seq!['7', '0']);
    assert(GAME_ENDED@ =~= seq!['6', '0']);
}

} // verus!
