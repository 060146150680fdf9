//! How long each bot has played on its account.
use crate::decimal::{decimal, decimal_text};
use crate::inbound::GameEnded;
use crate::string_map::StringMap;
use vstd::prelude::*;

verus! {

/// After each so many minutes on one account, the people in charge are told.
pub const PLAY_TIME_MILESTONE_MINUTES: u64 = 6000;

/// The minutes played, under the bots' numbers and their accounts.
#[derive(Debug)]
pub struct BotsPlayTime {
    pub bots: StringMap<StringMap<u64>>,
}

impl View for BotsPlayTime {
    type V = Map<Seq<char>, Map<Seq<char>, u64>>;

    open spec fn view(&self) -> Map<Seq<char>, Map<Seq<char>, u64>> {
        self.bots@.map_values(|accounts: StringMap<u64>| accounts@)
    }
}

impl Default for BotsPlayTime {
    /// No bot has played.
    fn default() -> (play_time: Self)
        ensures
            play_time@ == Map::<Seq<char>, Map<Seq<char>, u64>>::empty(),
    {
        let play_time = BotsPlayTime { bots: StringMap::new() };
        proof {
            assert(play_time@ =~= Map::<Seq<char>, Map<Seq<char>, u64>>::empty());
        }
        play_time
    }
}

/// The minutes that a bot has played on an account.
pub open spec fn minutes_on(
    play_time: Map<Seq<char>, Map<Seq<char>, u64>>,
    bot: Seq<char>,
    account: Seq<char>,
) -> u64 {
    if play_time.contains_key(bot) && play_time[bot].contains_key(account) {
        play_time[bot][account]
    } else {
        0
    }
}

/// The minutes after a match: its whole minutes come on top, and the count begins again at zero
/// beyond what 64 bits hold.
pub open spec fn minutes_after(minutes: u64, match_secs: u64) -> u64 {
    ((minutes + match_secs / 60) % 0x1_0000_0000_0000_0000) as u64
}

/// The minutes after a match that a bot played on an account: of that bot only the account of this
/// match is kept.
pub open spec fn play_time_after(
    play_time: Map<Seq<char>, Map<Seq<char>, u64>>,
    bot: Seq<char>,
    account: Seq<char>,
    match_secs: u64,
) -> Map<Seq<char>, Map<Seq<char>, u64>> {
    play_time.insert(
        bot,
        Map::empty().insert(account, minutes_after(minutes_on(play_time, bot, account), match_secs)),
    )
}

/// A number of minutes that the people in charge are told of.
pub open spec fn is_milestone(minutes: u64) -> bool {
    minutes > 0 && minutes % PLAY_TIME_MILESTONE_MINUTES == 0
}

/// What they are told.
pub open spec fn milestone_text(bot: Seq<char>, account: Seq<char>, minutes: u64) -> Seq<char> {
    "\u{2705} \u{1F973} Bot "@ + bot + " (ID: "@ + account
        + ") reached the play time milestone: "@ + decimal(minutes as int / 60) + "h"@ + decimal(
        minutes as int % 60,
    ) + "m \u{1F973} \u{2705}"@
}

/// Writes what they are told.
fn write_milestone(bot: &str, account: &str, minutes: u64) -> (text: String)
    ensures
        text@ == milestone_text(bot@, account@, minutes),
{
    let mut text: String = "\u{2705} \u{1F973} Bot ".to_owned();
    text.append(bot);
    text.append(" (ID: ");
    text.append(account);
    text.append(") reached the play time milestone: ");
    text.append(decimal_text(minutes / 60).as_str());
    text.append("h");
    text.append(decimal_text(minutes % 60).as_str());
    text.append("m \u{1F973} \u{2705}");
    text
}

/// Adds a match that is over to the minutes of the bot that reports it. Where the bot has changed
/// its account, the minutes on others are forgotten. Gives back what the people in charge are to be
/// told, where they are to be told anything.
pub fn update_bots_play_time_after_game(
    play_time: &mut BotsPlayTime,
    game_ended: &GameEnded,
) -> (news: Option<String>)
    ensures
        final(play_time)@ == play_time_after(
            old(play_time)@,
            game_ended.bot_number@,
            game_ended.dota_id@,
            game_ended.match_duration_secs,
        ),
        match news {
            Some(text) => is_milestone(
                minutes_on(final(play_time)@, game_ended.bot_number@, game_ended.dota_id@),
            ) && text@ == milestone_text(
                game_ended.bot_number@,
                game_ended.dota_id@,
                minutes_on(final(play_time)@, game_ended.bot_number@, game_ended.dota_id@),
            ),
            None => !is_milestone(
                minutes_on(final(play_time)@, game_ended.bot_number@, game_ended.dota_id@),
            ),
        },
{
    let ghost before = play_time@;
    let match_minutes: u64 = game_ended.match_duration_secs / 60;
    let minutes: u64 = match play_time.bots.get(game_ended.bot_number.as_str()) {
        Some(accounts) => match accounts.get(game_ended.dota_id.as_str()) {
            Some(minutes) => *minutes,
            None => 0,
        },
        None => 0,
    };
    assert(minutes == minutes_on(before, game_ended.bot_number@, game_ended.dota_id@));
    let total_minutes: u64 = minutes.wrapping_add(match_minutes);
    assert(total_minutes == minutes_after(minutes, game_ended.match_duration_secs));
    let mut accounts: StringMap<u64> = StringMap::new();
    accounts.insert(game_ended.dota_id.clone(), total_minutes);
    play_time.bots.insert(game_ended.bot_number.clone(), accounts);
    proof {
        assert(play_time@ =~= play_time_after(
            before,
            game_ended.bot_number@,
            game_ended.dota_id@,
            game_ended.match_duration_secs,
        ));
    }
    if total_minutes > 0 && total_minutes % PLAY_TIME_MILESTONE_MINUTES == 0 {
        Some(
            write_milestone(
                game_ended.bot_number.as_str(),
                game_ended.dota_id.as_str(),
                total_minutes,
            ),
        )
    } else {
        None
    }
}

/// After a match the bot that reports it has minutes on the account of that match and on no other;
/// nothing changes for other bots.
pub proof fn law_one_account_per_bot(
    play_time: Map<Seq<char>, Map<Seq<char>, u64>>,
    bot: Seq<char>,
    account: Seq<char>,
    match_secs: u64,
    other: Seq<char>,
)
    ensures
        play_time_after(play_time, bot, account, match_secs)[bot].dom() == set![account],
        other != bot ==> play_time_after(play_time, bot, account, match_secs).contains_key(other)
            == play_time.contains_key(other),
        other != bot && play_time.contains_key(other) ==> play_time_after(
            play_time,
            bot,
            account,
            match_secs,
        )[other] == play_time[other],
{
    assert(play_time_after(play_time, bot, account, match_secs)[bot].dom() =~= set![account]);
}

/// A bot that changes its account begins again at the minutes of that match.
pub proof fn law_new_account_begins_again(
    play_time: Map<Seq<char>, Map<Seq<char>, u64>>,
    bot: Seq<char>,
    first: Seq<char>,
    first_secs: u64,
    second: Seq<char>,
    second_secs: u64,
)
    requires
        first != second,
    ensures
        ({
            let once = play_time_after(play_time, bot, first, first_secs);
            let twice = play_time_after(once, bot, second, second_secs);
            let back = play_time_after(twice, bot, first, first_secs);
            &&& minutes_on(twice, bot, second) == second_secs / 60
            &&& minutes_on(twice, bot, first) == 0
            &&& minutes_on(back, bot, first) == first_secs / 60
        }),
{
}

/// On one account the whole minutes of one match after another add up, as long as 64 bits hold
/// their sum.
pub proof fn law_minutes_add_up(
    play_time: Map<Seq<char>, Map<Seq<char>, u64>>,
    bot: Seq<char>,
    account: Seq<char>,
    first_secs: u64,
    second_secs: u64,
)
    requires
        minutes_on(play_time, bot, account) + first_secs / 60 + second_secs / 60 <= u64::MAX,
    ensures
        minutes_on(
            play_time_after(
                play_time_after(play_time, bot, account, first_secs),
                bot,
                account,
                second_secs,
            ),
            bot,
            account,
        ) == minutes_on(play_time, bot, account) + first_secs / 60 + second_secs / 60,
{
}

/// A milestone is a whole number of hundreds of hours, and is told as such.
pub proof fn law_milestones_are_whole_hours(bot: Seq<char>, account: Seq<char>, minutes: u64)
    requires
        is_milestone(minutes),
    ensures
        (minutes as int / 60) % 100 == 0,
        minutes as int % 60 == 0,
        milestone_text(bot, account, minutes) == "\u{2705} \u{1F973} Bot "@ + bot + " (ID: "@
            + account + ") reached the play time milestone: "@ + decimal(minutes as int / 60) + "h"@
            + "0"@ + "m \u{1F973} \u{2705}"@,
{
    reveal_strlit("0");
    assert(decimal(0) =~= "0"@);
}

/// A number of minutes is a milestone exactly where it is a positive multiple of 6000: the first
/// such multiple, and each one after it.
pub proof fn law_every_hundred_hours_is_a_milestone(minutes: u64, times: int)
    ensures
        times >= 1 && minutes == 6000 * times ==> is_milestone(minutes),
        is_milestone(minutes) ==> minutes > 0 && minutes == 6000 * (minutes as int / 6000),
        is_milestone(minutes) && minutes <= u64::MAX - 6000 ==> is_milestone(
            (minutes + 6000) as u64,
        ),
{
}

/// After a match, the account that the bot reports holds what it held before, nothing where the bot
/// had no minutes on it, and the whole minutes of the match on top, as 64 bits hold the sum. It is the
/// bot's only account, and no other bot is touched.
pub proof fn law_match_minutes_come_on_top(
    play_time: Map<Seq<char>, Map<Seq<char>, u64>>,
    bot: Seq<char>,
    account: Seq<char>,
    match_secs: u64,
)
    ensures
        ({
            let after = play_time_after(play_time, bot, account, match_secs);
            let had: int = if play_time.contains_key(bot) && play_time[bot].contains_key(account) {
                play_time[bot][account] as int
            } else {
                0
            };
            let sum = had + match_secs as int / 60;
            &&& after.contains_key(bot)
            &&& after[bot].dom() == Set::empty().insert(account)
            &&& after[bot][account] == if sum <= u64::MAX {
                sum
            } else {
                sum - 0x1_0000_0000_0000_0000
            }
            &&& minutes_on(after, bot, account) == after[bot][account]
            &&& minutes_on(play_time, bot, account) == had
            &&& after.remove(bot) == play_time.remove(bot)
        }),
{
    let after = play_time_after(play_time, bot, account, match_secs);
    assert(after[bot].dom() =~= Set::empty().insert(account));
    assert(after.remove(bot) =~= play_time.remove(bot));
}

/// A milestone is told with the bot, its account, and the hours and minutes that its minutes make.
pub proof fn law_milestone_text(
    bot: Seq<char>,
    account: Seq<char>,
    hours: int,
    minutes: int,
    total: u64,
)
    requires
        0 <= hours,
        0 <= minutes < 60,
        total == 60 * hours + minutes,
    ensures
        milestone_text(bot, account, total) == "\u{2705} \u{1F973} Bot "@ + bot + " (ID: "@ + account
            + ") reached the play time milestone: "@ + decimal(hours) + "h"@ + decimal(minutes)
            + "m \u{1F973} \u{2705}"@,
{
}

/// The minutes under a bot's number and an account are the ones that the maps hold there.
pub proof fn law_play_time_view(play_time: BotsPlayTime, bot: Seq<char>)
    ensures
        play_time@.contains_key(bot) == play_time.bots@.contains_key(bot),
        play_time.bots@.contains_key(bot) ==> play_time@[bot] == play_time.bots@[bot]@,
{
}

} // verus!
