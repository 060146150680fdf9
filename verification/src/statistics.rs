//! The latest match results of each bot, and the team that is to win next.
use crate::lobby::{bots_of, Bot, BotView, Lobby, LobbyView};
use crate::string_map::{
    distinct_keys, key_stands_at, lemma_map_of_entry, lemma_map_of_len, lemma_map_of_position,
    lemma_map_of_push, map_of, StringMap,
};
use crate::text::same_text;
use vstd::prelude::*;

verus! {

/// How many of a bot's latest results are kept.
pub const KEPT_RESULTS: usize = 4;

/// How a match went for a bot.
#[derive(Debug, Clone, Copy, PartialEq, Eq, Structural)]
pub enum MatchResult {
    Win,
    Lose,
}

/// The latest results of each bot, oldest first, under the bots' numbers.
#[derive(Debug)]
pub struct BotsStatistics {
    pub bots: StringMap<Vec<MatchResult>>,
}

impl View for BotsStatistics {
    type V = Map<Seq<char>, Seq<MatchResult>>;

    open spec fn view(&self) -> Map<Seq<char>, Seq<MatchResult>> {
        self.bots@.map_values(|results: Vec<MatchResult>| results@)
    }
}

impl Default for BotsStatistics {
    /// No results of any bot.
    fn default() -> (stats: Self)
        ensures
            stats@ == Map::<Seq<char>, Seq<MatchResult>>::empty(),
    {
        let stats = BotsStatistics { bots: StringMap::new() };
        proof {
            assert(stats@ =~= Map::<Seq<char>, Seq<MatchResult>>::empty());
        }
        stats
    }
}

/// What a result counts.
pub open spec fn worth(result: MatchResult) -> int {
    match result {
        MatchResult::Win => 1,
        MatchResult::Lose => -1,
    }
}

/// Wins less losses.
pub open spec fn streak(results: Seq<MatchResult>) -> int
    decreases results.len(),
{
    if results.len() == 0 {
        0
    } else {
        streak(results.drop_last()) + worth(results.last())
    }
}

/// A number as eight bits hold it, from -128 up to 127.
pub open spec fn wrapped(n: int) -> int {
    (n + 128) % 256 - 128
}

/// Wins less losses, as eight bits hold it.
pub fn bot_streak_score(results: &[MatchResult]) -> (score: i8)
    ensures
        score == wrapped(streak(results@)),
{
    let mut score: i8 = 0;
    let mut i: usize = 0;
    proof {
        assert(results@.take(0) =~= Seq::<MatchResult>::empty());
    }
    while i < results.len()
        invariant
            i <= results@.len(),
            score == wrapped(streak(results@.take(i as int))),
        decreases results@.len() - i,
    {
        proof {
            let grown = results@.take(i + 1);
            assert(grown.drop_last() =~= results@.take(i as int));
            assert(grown.last() == results@[i as int]);
        }
        let counted: i8 = match results[i] {
            MatchResult::Win => 1,
            MatchResult::Lose => -1,
        };
        score = score.wrapping_add(counted);
        i += 1;
    }
    proof {
        assert(results@.take(i as int) =~= results@);
    }
    score
}

/// The results once one more is known: where four are kept already, the oldest goes.
pub open spec fn pushed(results: Seq<MatchResult>, result: MatchResult) -> Seq<MatchResult> {
    if results.len() == KEPT_RESULTS {
        results.skip(1).push(result)
    } else {
        results.push(result)
    }
}

/// Adds a result.
pub fn push_match_result(results: &mut Vec<MatchResult>, result: MatchResult)
    ensures
        final(results)@ == pushed(old(results)@, result),
{
    if results.len() == KEPT_RESULTS {
        let ghost before = results@;
        let _ = results.remove(0);
        proof {
            assert(results@ =~= before.skip(1));
        }
    }
    results.push(result);
}

/// The results kept of a bot; none where nothing is known of it.
pub open spec fn results_of(stats: Map<Seq<char>, Seq<MatchResult>>, bot: Seq<char>) -> Seq<
    MatchResult,
> {
    if stats.contains_key(bot) {
        stats[bot]
    } else {
        Seq::empty()
    }
}

/// The sum of the numbers in a map.
pub open spec fn total(scores: Map<Seq<char>, int>) -> int
    decreases scores.dom().len(),
    when scores.dom().finite()
{
    if scores.dom().len() == 0 {
        0
    } else {
        let key = scores.dom().choose();
        total(scores.remove(key)) + scores[key]
    }
}

/// What each bot of a lobby brings to the score of one of the two teams: its streak where it plays
/// there, else nothing. The first team is that of the side `0`, the second that of all others.
pub open spec fn contributions<W>(
    bots: Map<Seq<char>, BotView<W>>,
    stats: Map<Seq<char>, Seq<MatchResult>>,
    radiant: bool,
) -> Map<Seq<char>, int> {
    bots.map_entries(
        |number: Seq<char>, bot: BotView<W>|
            if (bot.side == Some("0"@)) == radiant {
                streak(results_of(stats, number))
            } else {
                0
            },
    )
}

/// The side of each bot is known.
pub open spec fn sides_known<W>(bots: Map<Seq<char>, BotView<W>>) -> bool {
    forall|number: Seq<char>| #[trigger]
        bots.contains_key(number) ==> bots[number].side is Some
}

/// Whether the side of each bot in a lobby is known.
pub fn has_known_sides<W, S>(lobby: &Lobby<W, S>) -> (known: bool)
    ensures
        known == sides_known(lobby@.bots),
{
    let count: usize = lobby.bots.len();
    let ghost walk = lobby.bots.walk();
    let mut i: usize = 0;
    while i < count
        invariant
            i <= count,
            count == walk.len(),
            walk == lobby.bots.walk(),
            distinct_keys(walk),
            forall|j: int| 0 <= j < i ==> (#[trigger] walk[j]).1.side is Some,
        decreases count - i,
    {
        let bot = lobby.bots.value_at(i);
        proof {
            lemma_map_of_entry(walk, i as int);
            assert(lobby@.bots.contains_key(walk[i as int].0));
            assert(lobby@.bots[walk[i as int].0] == bot@);
        }
        if bot.side.is_none() {
            return false;
        }
        i += 1;
    }
    proof {
        assert forall|number: Seq<char>| #[trigger]
            lobby@.bots.contains_key(number) implies lobby@.bots[number].side is Some by {
            let at = lemma_map_of_position(walk, number);
            assert(walk[at].1.side is Some);
        }
    }
    true
}

/// The team that is to win: that of the side `0` unless its bots' streaks together, as eight bits
/// hold them, are above those of the other bots.
pub open spec fn winning_team<W>(
    bots: Map<Seq<char>, BotView<W>>,
    stats: Map<Seq<char>, Seq<MatchResult>>,
) -> Seq<char> {
    if wrapped(total(contributions(bots, stats, true))) <= wrapped(
        total(contributions(bots, stats, false)),
    ) {
        "0"@
    } else {
        "1"@
    }
}

/// A sum can be taken apart at any key.
proof fn lemma_total_remove(scores: Map<Seq<char>, int>, key: Seq<char>)
    requires
        scores.dom().finite(),
        scores.contains_key(key),
    ensures
        total(scores) == total(scores.remove(key)) + scores[key],
    decreases scores.dom().len(),
{
    let chosen = scores.dom().choose();
    assert(scores.dom().contains(key));
    assert(scores.dom().len() > 0);
    if chosen != key {
        let rest = scores.remove(chosen);
        lemma_total_remove(rest, key);
        lemma_total_remove(scores.remove(key), chosen);
        assert(rest.remove(key) =~= scores.remove(key).remove(chosen));
    }
}

/// A sum grows by what comes in under a new key.
proof fn lemma_total_insert(scores: Map<Seq<char>, int>, key: Seq<char>, value: int)
    requires
        scores.dom().finite(),
        !scores.contains_key(key),
    ensures
        total(scores.insert(key, value)) == total(scores) + value,
{
    let grown = scores.insert(key, value);
    lemma_total_remove(grown, key);
    assert(grown.remove(key) =~= scores);
}

/// The first entries of a walk over a lobby's bots, as a map.
spec fn seen<W>(walk: Seq<(Seq<char>, Bot<W>)>, count: int) -> Map<Seq<char>, BotView<W>> {
    bots_of(map_of(walk.take(count)))
}

/// One entry more.
proof fn lemma_seen_step<W>(walk: Seq<(Seq<char>, Bot<W>)>, count: int)
    requires
        distinct_keys(walk),
        0 <= count < walk.len(),
    ensures
        distinct_keys(walk.take(count)),
        seen(walk, count).dom().finite(),
        !seen(walk, count).contains_key(walk[count].0),
        seen(walk, count + 1) == seen(walk, count).insert(walk[count].0, walk[count].1@),
{
    let before = walk.take(count);
    assert forall|i: int, j: int|
        0 <= i < before.len() && 0 <= j < before.len() && i != j implies (#[trigger] before[i]).0
        != (#[trigger] before[j]).0 by {
        assert(before[i] == walk[i] && before[j] == walk[j]);
    }
    let key = walk[count].0;
    if map_of(before).contains_key(key) {
        let i = lemma_map_of_position(before, key);
        assert(before[i] == walk[i]);
    }
    lemma_map_of_len(before);
    lemma_map_of_push(before, key, walk[count].1);
    assert(walk.take(count + 1) =~= before.push((key, walk[count].1)));
    assert(seen(walk, count).dom() =~= map_of(before).dom());
    assert(seen(walk, count + 1) =~= seen(walk, count).insert(key, walk[count].1@));
}

/// Before the first entry there is none.
proof fn lemma_seen_start<W>(walk: Seq<(Seq<char>, Bot<W>)>)
    ensures
        seen(walk, 0) == Map::<Seq<char>, BotView<W>>::empty(),
{
    assert forall|key: Seq<char>| !map_of(walk.take(0)).contains_key(key) by {
        if map_of(walk.take(0)).contains_key(key) {
            let i = choose|i: int| key_stands_at(walk.take(0), key, i);
            assert(key_stands_at(walk.take(0), key, i));
        }
    }
    assert(seen(walk, 0) =~= Map::<Seq<char>, BotView<W>>::empty());
}

/// One bot more brings its streak to the score of its own team, and nothing to the other.
proof fn lemma_contribution_of_one<W>(
    bots: Map<Seq<char>, BotView<W>>,
    stats: Map<Seq<char>, Seq<MatchResult>>,
    radiant: bool,
    number: Seq<char>,
    bot: BotView<W>,
)
    requires
        bots.dom().finite(),
        !bots.contains_key(number),
    ensures
        total(contributions(bots.insert(number, bot), stats, radiant)) == total(
            contributions(bots, stats, radiant),
        ) + if (bot.side == Some("0"@)) == radiant {
            streak(results_of(stats, number))
        } else {
            0
        },
{
    let before = contributions(bots, stats, radiant);
    let own: int = if (bot.side == Some("0"@)) == radiant {
        streak(results_of(stats, number))
    } else {
        0
    };
    assert(before.dom() =~= bots.dom());
    lemma_total_insert(before, number, own);
    assert(contributions(bots.insert(number, bot), stats, radiant) =~= before.insert(number, own));
}

/// Works out which team is to win.
pub fn compute_ongoing_win_team<W, S>(lobby: &Lobby<W, S>, stats: &BotsStatistics) -> (team: String)
    requires
        sides_known(lobby@.bots),
    ensures
        team@ == winning_team(lobby@.bots, stats@),
{
    let mut radiant_score: i8 = 0;
    let mut dire_score: i8 = 0;
    let count: usize = lobby.bots.len();
    let ghost walk = lobby.bots.walk();
    let mut i: usize = 0;
    proof {
        lemma_seen_start(walk);
        assert(contributions(seen(walk, 0), stats@, true).dom() =~= Set::<Seq<char>>::empty());
        assert(contributions(seen(walk, 0), stats@, false).dom() =~= Set::<Seq<char>>::empty());
    }
    while i < count
        invariant
            i <= count,
            count == walk.len(),
            walk == lobby.bots.walk(),
            distinct_keys(walk),
            sides_known(lobby@.bots),
            radiant_score == wrapped(total(contributions(seen(walk, i as int), stats@, true))),
            dire_score == wrapped(total(contributions(seen(walk, i as int), stats@, false))),
        decreases count - i,
    {
        let bot_number = lobby.bots.key_at(i);
        let bot = lobby.bots.value_at(i);
        let ghost before = seen(walk, i as int);
        proof {
            lemma_seen_step(walk, i as int);
            lemma_map_of_entry(walk, i as int);
            assert(lobby@.bots.contains_key(bot_number@));
            assert(lobby@.bots[bot_number@] == bot@);
        }
        let score: i8 = match stats.bots.get(bot_number.as_str()) {
            Some(results) => bot_streak_score(results.as_slice()),
            None => 0,
        };
        proof {
            assert(stats@.contains_key(bot_number@) == stats.bots@.contains_key(bot_number@));
            assert(score == wrapped(streak(results_of(stats@, bot_number@))));
            lemma_contribution_of_one(before, stats@, true, bot_number@, bot@);
            lemma_contribution_of_one(before, stats@, false, bot_number@, bot@);
        }
        let side = bot.side.as_ref().unwrap();
        if same_text(side.as_str(), "0") {
            radiant_score = radiant_score.wrapping_add(score);
        } else {
            dire_score = dire_score.wrapping_add(score);
        }
        i += 1;
    }
    proof {
        assert(walk.take(i as int) =~= walk);
        assert(seen(walk, i as int) == lobby@.bots);
    }
    if radiant_score <= dire_score {
        "0".to_owned()
    } else {
        "1".to_owned()
    }
}

/// The team that is taken to have won: the one that was to win, or, where none was named, the one
/// that the results so far name.
pub open spec fn team_of<W, S>(
    lobby: LobbyView<W, S>,
    stats: Map<Seq<char>, Seq<MatchResult>>,
) -> Seq<char> {
    match lobby.win_team {
        Some(team) => team,
        None => winning_team(lobby.bots, stats),
    }
}

/// A bot is in a lobby, on a side.
pub open spec fn plays<W>(bots: Map<Seq<char>, BotView<W>>, number: Seq<char>) -> bool {
    bots.contains_key(number) && bots[number].side is Some
}

/// How a match that a team won went for a bot on a side.
pub open spec fn outcome(side: Seq<char>, team: Seq<char>) -> MatchResult {
    if side == team {
        MatchResult::Win
    } else {
        MatchResult::Lose
    }
}

/// The results after a match that a team won: each bot on a side has one result more, and those of
/// all others stay as they are.
pub open spec fn results_after<W>(
    bots: Map<Seq<char>, BotView<W>>,
    stats: Map<Seq<char>, Seq<MatchResult>>,
    team: Seq<char>,
) -> Map<Seq<char>, Seq<MatchResult>> {
    Map::new(
        |number: Seq<char>| stats.contains_key(number) || plays(bots, number),
        |number: Seq<char>|
            if plays(bots, number) {
                pushed(results_of(stats, number), outcome(bots[number].side->0, team))
            } else {
                stats[number]
            },
    )
}

/// Adds the result of a match that is over to those of each bot in its lobby; a bot whose side is
/// not known is passed over.
pub fn update_bots_statistics_after_game<W, S>(lobby: &Lobby<W, S>, stats: &mut BotsStatistics)
    requires
        lobby@.win_team is None ==> sides_known(lobby@.bots),
    ensures
        final(stats)@ == results_after(lobby@.bots, old(stats)@, team_of(lobby@, old(stats)@)),
{
    let win_team: String = match &lobby.ongoing_win_team {
        Some(team) => team.clone(),
        None => compute_ongoing_win_team(lobby, stats),
    };
    let count: usize = lobby.bots.len();
    let ghost walk = lobby.bots.walk();
    let ghost start = stats@;
    let mut i: usize = 0;
    proof {
        lemma_seen_start(walk);
        assert(stats@ =~= results_after(seen(walk, 0), start, win_team@));
    }
    while i < count
        invariant
            i <= count,
            count == walk.len(),
            walk == lobby.bots.walk(),
            distinct_keys(walk),
            stats@ == results_after(seen(walk, i as int), start, win_team@),
        decreases count - i,
    {
        let bot_number = lobby.bots.key_at(i);
        let bot = lobby.bots.value_at(i);
        let ghost bots_before = seen(walk, i as int);
        let ghost bots_after = seen(walk, i + 1);
        let ghost before = stats@;
        proof {
            lemma_seen_step(walk, i as int);
            assert(!plays(bots_before, bot_number@));
        }
        match &bot.side {
            Some(side) => {
                let result = if same_text(side.as_str(), win_team.as_str()) {
                    MatchResult::Win
                } else {
                    MatchResult::Lose
                };
                match stats.bots.get_mut(bot_number.as_str()) {
                    Some(results) => push_match_result(results, result),
                    None => {
                        let mut results: Vec<MatchResult> = Vec::new();
                        push_match_result(&mut results, result);
                        stats.bots.insert(bot_number.clone(), results);
                    },
                }
                proof {
                    assert(results_of(before, bot_number@) == results_of(start, bot_number@));
                    assert(stats@ =~= before.insert(
                        bot_number@,
                        pushed(results_of(start, bot_number@), result),
                    ));
                    assert(result == outcome(side@, win_team@));
                }
            },
            None => {},
        }
        proof {
            assert(stats@ =~= results_after(bots_after, start, win_team@));
        }
        i += 1;
    }
    proof {
        assert(walk.take(i as int) =~= walk);
        assert(seen(walk, i as int) == lobby@.bots);
    }
}

/// Of no bot more results are kept than there is room for.
pub open spec fn short_memory(stats: Map<Seq<char>, Seq<MatchResult>>) -> bool {
    forall|number: Seq<char>| #[trigger]
        stats.contains_key(number) ==> stats[number].len() <= KEPT_RESULTS
}

/// Of each bot at most four results are kept, whatever matches are added.
pub proof fn law_memory_stays_short<W>(
    bots: Map<Seq<char>, BotView<W>>,
    stats: Map<Seq<char>, Seq<MatchResult>>,
    team: Seq<char>,
)
    requires
        short_memory(stats),
    ensures
        short_memory(Map::<Seq<char>, Seq<MatchResult>>::empty()),
        short_memory(results_after(bots, stats, team)),
{
}

/// The results kept are the latest: adding one to at most four gives the last four of them all.
pub proof fn law_latest_results_are_kept(results: Seq<MatchResult>, result: MatchResult)
    requires
        results.len() <= KEPT_RESULTS,
    ensures
        pushed(results, result) == results.push(result).skip(
            if results.len() < KEPT_RESULTS {
                0
            } else {
                1
            },
        ),
        pushed(results, result).len() <= KEPT_RESULTS,
        pushed(results, result).last() == result,
{
    assert(pushed(results, result) =~= results.push(result).skip(
        if results.len() < KEPT_RESULTS {
            0
        } else {
            1
        },
    ));
}

/// A streak is no further from zero than there are results, so eight bits hold that of up to 127.
pub proof fn law_streak_within_length(results: Seq<MatchResult>)
    ensures
        -results.len() <= streak(results) <= results.len(),
        results.len() <= 127 ==> wrapped(streak(results)) == streak(results),
    decreases results.len(),
{
    if results.len() > 0 {
        law_streak_within_length(results.drop_last());
    }
}

/// A sum of numbers, each within a bound, is within the bound as often as there are numbers.
proof fn lemma_total_within(scores: Map<Seq<char>, int>, bound: int)
    requires
        scores.dom().finite(),
        bound >= 0,
        forall|key: Seq<char>| #[trigger] scores.contains_key(key) ==> -bound <= scores[key] <= bound,
    ensures
        -(bound * scores.dom().len()) <= total(scores) <= bound * scores.dom().len(),
    decreases scores.dom().len(),
{
    if scores.dom().len() > 0 {
        let key = scores.dom().choose();
        assert(scores.contains_key(key));
        let rest = scores.remove(key);
        assert forall|k: Seq<char>| #[trigger] rest.contains_key(k) implies -bound <= rest[k] <= bound by {
            assert(scores.contains_key(k));
        }
        lemma_total_within(rest, bound);
        let n = scores.dom().len() as int;
        assert(bound * n == bound * (n - 1) + bound) by (nonlinear_arith);
    }
}

/// In a lobby of at most ten bots, of each of which at most four results are kept, no score leaves
/// the range of eight bits: the side `0` is to win exactly where its bots' wins less losses come to
/// no more than those of the other bots.
pub proof fn law_win_team_goes_by_true_scores<W>(
    bots: Map<Seq<char>, BotView<W>>,
    stats: Map<Seq<char>, Seq<MatchResult>>,
)
    requires
        bots.dom().finite(),
        bots.dom().len() <= 10,
        short_memory(stats),
    ensures
        (winning_team(bots, stats) == "0"@) == (total(contributions(bots, stats, true)) <= total(
            contributions(bots, stats, false),
        )),
{
    reveal_strlit("0");
    reveal_strlit("1");
    assert("0"@[0] != "1"@[0]);
    let radiant = contributions(bots, stats, true);
    let dire = contributions(bots, stats, false);
    assert(radiant.dom() =~= bots.dom());
    assert(dire.dom() =~= bots.dom());
    assert forall|key: Seq<char>| #[trigger] radiant.contains_key(key) implies -4 <= radiant[key]
        <= 4 by {
        law_streak_within_length(results_of(stats, key));
    }
    assert forall|key: Seq<char>| #[trigger] dire.contains_key(key) implies -4 <= dire[key] <= 4 by {
        law_streak_within_length(results_of(stats, key));
    }
    lemma_total_within(radiant, 4);
    lemma_total_within(dire, 4);
}

/// The team that is to win is always one of the two.
pub proof fn law_win_team_is_a_side<W>(
    bots: Map<Seq<char>, BotView<W>>,
    stats: Map<Seq<char>, Seq<MatchResult>>,
)
    ensures
        winning_team(bots, stats) == "0"@ || winning_team(bots, stats) == "1"@,
{
}

/// A match adds exactly one result to each bot on a side: a win to those on the team that won, a
/// loss to all others; and it changes nothing of any other bot.
pub proof fn law_each_player_gets_one_result<W>(
    bots: Map<Seq<char>, BotView<W>>,
    stats: Map<Seq<char>, Seq<MatchResult>>,
    team: Seq<char>,
    number: Seq<char>,
)
    ensures
        plays(bots, number) ==> results_after(bots, stats, team).contains_key(number)
            && results_after(bots, stats, team)[number].last() == outcome(
            bots[number].side->0,
            team,
        ),
        !plays(bots, number) ==> results_of(results_after(bots, stats, team), number) == results_of(
            stats,
            number,
        ) && results_after(bots, stats, team).contains_key(number) == stats.contains_key(number),
{
}

/// A streak is the number of wins less the number of losses, wherever among the results they stand.
pub proof fn law_streak_is_wins_less_losses(results: Seq<MatchResult>)
    ensures
        streak(results) == results.to_multiset().count(MatchResult::Win)
            - results.to_multiset().count(MatchResult::Lose),
    decreases results.len(),
{
    broadcast use vstd::seq_lib::group_to_multiset_ensures;
    broadcast use vstd::multiset::group_multiset_axioms;

    if results.len() > 0 {
        let init = results.drop_last();
        law_streak_is_wins_less_losses(init);
        assert(results =~= init.push(results.last()));
        assert(results.to_multiset() == init.to_multiset().insert(results.last()));
        assert(results.last() == MatchResult::Win || results.last() == MatchResult::Lose);
    }
}

/// The streak of results in a row is the sum of the streaks of their parts: a win counts one and a
/// loss takes one away, whatever came before.
pub proof fn law_streaks_add_up(earlier: Seq<MatchResult>, later: Seq<MatchResult>)
    ensures
        streak(earlier + later) == streak(earlier) + streak(later),
        streak(earlier.push(MatchResult::Win)) == streak(earlier) + 1,
        streak(earlier.push(MatchResult::Lose)) == streak(earlier) - 1,
        streak(Seq::empty()) == 0,
    decreases later.len(),
{
    if later.len() == 0 {
        assert(earlier + later =~= earlier);
    } else {
        law_streaks_add_up(earlier, later.drop_last());
        assert((earlier + later).drop_last() =~= earlier + later.drop_last());
    }
    assert(earlier.push(MatchResult::Win).drop_last() =~= earlier);
    assert(earlier.push(MatchResult::Lose).drop_last() =~= earlier);
}

/// What eight bits hold of a number lies from -128 up to 127, differs from the number by a multiple
/// of 256, and is the number itself where that lies in the range.
pub proof fn law_eight_bits(n: int)
    ensures
        -128 <= wrapped(n) <= 127,
        (n - wrapped(n)) % 256 == 0,
        -128 <= n <= 127 ==> wrapped(n) == n,
{
}

/// A sum over a map is zero where the map is empty, and grows by each number that comes in under a
/// new key.
pub proof fn law_sum_over_a_map(scores: Map<Seq<char>, int>, key: Seq<char>, value: int)
    requires
        scores.dom().finite(),
        !scores.contains_key(key),
    ensures
        total(Map::empty()) == 0,
        total(scores.insert(key, value)) == total(scores) + value,
{
    assert(Map::<Seq<char>, int>::empty().dom() =~= Set::empty());
    lemma_total_insert(scores, key, value);
}

/// The wins less the losses that are kept of a bot.
proof fn lemma_own_score(stats: Map<Seq<char>, Seq<MatchResult>>, number: Seq<char>)
    ensures
        streak(results_of(stats, number)) == if stats.contains_key(number) {
            stats[number].to_multiset().count(MatchResult::Win)
                - stats[number].to_multiset().count(MatchResult::Lose)
        } else {
            0
        },
{
    if stats.contains_key(number) {
        law_streak_is_wins_less_losses(stats[number]);
    }
}

/// The side `0` is to win unless the wins less losses of its own bots, summed up, come to more than
/// those of all other bots, both sums as eight bits hold them. Each bot counts for its own side
/// alone, and with all results that are kept of it.
pub proof fn law_win_team_weighs_wins_and_losses<W>(
    bots: Map<Seq<char>, BotView<W>>,
    stats: Map<Seq<char>, Seq<MatchResult>>,
    radiant: Map<Seq<char>, int>,
    dire: Map<Seq<char>, int>,
)
    requires
        radiant.dom() == bots.dom(),
        dire.dom() == bots.dom(),
        forall|number: Seq<char>| #[trigger]
            bots.contains_key(number) ==> radiant[number] + dire[number] == if stats.contains_key(
                number,
            ) {
                stats[number].to_multiset().count(MatchResult::Win)
                    - stats[number].to_multiset().count(MatchResult::Lose)
            } else {
                0
            },
        forall|number: Seq<char>| #[trigger]
            bots.contains_key(number) && bots[number].side == Some("0"@) ==> dire[number] == 0,
        forall|number: Seq<char>| #[trigger]
            bots.contains_key(number) && bots[number].side != Some("0"@) ==> radiant[number] == 0,
    ensures
        wrapped(total(radiant)) <= wrapped(total(dire)) ==> winning_team(bots, stats) == "0"@,
        wrapped(total(radiant)) > wrapped(total(dire)) ==> winning_team(bots, stats) == "1"@,
{
    assert forall|number: Seq<char>| #[trigger] bots.contains_key(number) implies contributions(
        bots,
        stats,
        true,
    )[number] == radiant[number] && contributions(bots, stats, false)[number] == dire[number] by {
        lemma_own_score(stats, number);
    }
    assert forall|number: Seq<char>| #[trigger] radiant.dom().contains(number) implies contributions(
        bots,
        stats,
        true,
    )[number] == radiant[number] by {
        assert(bots.contains_key(number));
    }
    assert forall|number: Seq<char>| #[trigger] dire.dom().contains(number) implies contributions(
        bots,
        stats,
        false,
    )[number] == dire[number] by {
        assert(bots.contains_key(number));
    }
    assert(contributions(bots, stats, true) =~= radiant);
    assert(contributions(bots, stats, false) =~= dire);
}

/// The sides are known exactly where no bot lacks one.
pub proof fn law_sides_known_of_each<W>(bots: Map<Seq<char>, BotView<W>>, number: Seq<char>)
    ensures
        sides_known(bots) && bots.contains_key(number) ==> bots[number].side is Some,
        sides_known(bots.remove(number)) && (bots.contains_key(number)
            ==> bots[number].side is Some) ==> sides_known(bots),
        sides_known(Map::<Seq<char>, BotView<W>>::empty()),
{
    if sides_known(bots.remove(number)) && (bots.contains_key(number)
        ==> bots[number].side is Some) {
        assert forall|other: Seq<char>| #[trigger]
            bots.contains_key(other) implies bots[other].side is Some by {
            if other != number {
                assert(bots.remove(number).contains_key(other));
            }
        }
    }
}

/// The team that is taken to have won is the one that was to win, where one was named.
pub proof fn law_named_team_wins<W, S>(
    lobby: LobbyView<W, S>,
    stats: Map<Seq<char>, Seq<MatchResult>>,
)
    ensures
        lobby.win_team is Some ==> team_of(lobby, stats) == lobby.win_team->0,
        lobby.win_team is None ==> team_of(lobby, stats) == winning_team(lobby.bots, stats),
{
}

/// After a match, each bot on a side has the results that it had, but for the oldest where it had
/// four, and then exactly one more: a win where its side is the team that won, else a loss. It makes
/// no difference what its results were, or those of others. All other bots have what they had.
pub proof fn law_a_match_adds_its_result<W>(
    bots: Map<Seq<char>, BotView<W>>,
    stats: Map<Seq<char>, Seq<MatchResult>>,
    team: Seq<char>,
    number: Seq<char>,
)
    ensures
        ({
            let after = results_after(bots, stats, team);
            let had = if stats.contains_key(number) {
                stats[number]
            } else {
                Seq::<MatchResult>::empty()
            };
            if bots.contains_key(number) && bots[number].side is Some {
                let kept = if had.len() == 4 {
                    had.subrange(1, 4)
                } else {
                    had
                };
                &&& after.contains_key(number)
                &&& after[number].len() == kept.len() + 1
                &&& after[number].drop_last() == kept
                &&& after[number].last() == if bots[number].side == Some(team) {
                    MatchResult::Win
                } else {
                    MatchResult::Lose
                }
            } else {
                &&& after.contains_key(number) == stats.contains_key(number)
                &&& stats.contains_key(number) ==> after[number] == stats[number]
            }
        }),
{
    let after = results_after(bots, stats, team);
    if bots.contains_key(number) && bots[number].side is Some {
        let had = results_of(stats, number);
        if had.len() == 4 {
            assert(after[number].drop_last() =~= had.subrange(1, 4));
        } else {
            assert(after[number].drop_last() =~= had);
        }
    }
}

/// Adding a result lengthens a list of fewer than four by one, keeps the length of a list of four,
/// and always leaves the added result last, after the results that stay in their order.
pub proof fn law_added_result_stands_last(results: Seq<MatchResult>, result: MatchResult)
    ensures
        results.len() != 4 ==> pushed(results, result) == results + seq![result],
        results.len() == 4 ==> pushed(results, result) == seq![
            results[1],
            results[2],
            results[3],
            result,
        ],
{
    if results.len() == 4 {
        assert(pushed(results, result) =~= seq![results[1], results[2], results[3], result]);
    } else {
        assert(pushed(results, result) =~= results + seq![result]);
    }
}

/// The results under a bot's number are the ones that the map holds there.
pub proof fn law_statistics_view(stats: BotsStatistics, number: Seq<char>)
    ensures
        stats@.contains_key(number) == stats.bots@.contains_key(number),
        stats.bots@.contains_key(number) ==> stats@[number] == stats.bots@[number]@,
{
}

} // verus!
