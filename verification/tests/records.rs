use coordinator::inbound::GameEnded;
use coordinator::lobby::{Bot, Lobby};
use coordinator::play_time::{
    update_bots_play_time_after_game, BotsPlayTime, PLAY_TIME_MILESTONE_MINUTES,
};
use coordinator::statistics::{
    bot_streak_score, compute_ongoing_win_team, has_known_sides, push_match_result,
    update_bots_statistics_after_game, BotsStatistics, MatchResult,
};

fn lobby_of(bots: &[(&str, Option<&str>)]) -> Lobby<u32, u32> {
    let mut lobby = Lobby::new(None);
    for (number, side) in bots {
        lobby.bots.insert(number.to_string(), Bot::new(0, side.map(|side| side.to_string())));
    }
    lobby
}

fn won(count: usize) -> Vec<MatchResult> {
    vec![MatchResult::Win; count]
}

fn lost(count: usize) -> Vec<MatchResult> {
    vec![MatchResult::Lose; count]
}

fn ended(bot: &str, account: &str, secs: u64) -> GameEnded {
    GameEnded {
        lobby_id: "l".to_string(),
        bot_number: bot.to_string(),
        dota_id: account.to_string(),
        match_duration_secs: secs,
    }
}

fn minutes(play_time: &BotsPlayTime, bot: &str, account: &str) -> Option<u64> {
    play_time.bots.get(bot).and_then(|accounts| accounts.get(account)).copied()
}

#[test]
fn a_streak_is_wins_less_losses() {
    assert_eq!(bot_streak_score(&[]), 0);
    assert_eq!(bot_streak_score(&won(4)), 4);
    assert_eq!(bot_streak_score(&lost(4)), -4);
    assert_eq!(bot_streak_score(&[MatchResult::Win, MatchResult::Lose, MatchResult::Win]), 1);
    assert_eq!(bot_streak_score(&won(127)), 127);
    assert_eq!(bot_streak_score(&won(128)), -128);
    assert_eq!(bot_streak_score(&lost(129)), 127);
}

#[test]
fn the_latest_four_results_are_kept() {
    let mut results = Vec::new();
    push_match_result(&mut results, MatchResult::Lose);
    push_match_result(&mut results, MatchResult::Win);
    push_match_result(&mut results, MatchResult::Win);
    push_match_result(&mut results, MatchResult::Win);
    assert_eq!(results.len(), 4);
    push_match_result(&mut results, MatchResult::Lose);
    assert_eq!(
        results,
        vec![MatchResult::Win, MatchResult::Win, MatchResult::Win, MatchResult::Lose]
    );
}

#[test]
fn the_team_that_is_behind_is_to_win() {
    let lobby = lobby_of(&[("a", Some("0")), ("b", Some("1"))]);
    let mut stats = BotsStatistics::default();
    assert_eq!(compute_ongoing_win_team(&lobby, &stats), "0");
    stats.bots.insert("a".to_string(), won(1));
    assert_eq!(compute_ongoing_win_team(&lobby, &stats), "1");
    stats.bots.insert("b".to_string(), won(1));
    assert_eq!(compute_ongoing_win_team(&lobby, &stats), "0");
    stats.bots.insert("a".to_string(), lost(3));
    assert_eq!(compute_ongoing_win_team(&lobby, &stats), "0");
    stats.bots.insert("b".to_string(), lost(4));
    assert_eq!(compute_ongoing_win_team(&lobby, &stats), "1");
}

#[test]
fn the_order_of_the_bots_does_not_matter() {
    let mut stats = BotsStatistics::default();
    stats.bots.insert("a".to_string(), won(3));
    stats.bots.insert("b".to_string(), lost(2));
    stats.bots.insert("c".to_string(), won(2));
    let sides = [("a", Some("0")), ("b", Some("0")), ("c", Some("1"))];
    let forth = lobby_of(&sides);
    let back = lobby_of(&[sides[2], sides[1], sides[0]]);
    assert_eq!(compute_ongoing_win_team(&forth, &stats), "0");
    assert_eq!(compute_ongoing_win_team(&back, &stats), "0");
}

#[test]
fn sides_are_looked_for() {
    assert!(has_known_sides(&lobby_of(&[])));
    assert!(has_known_sides(&lobby_of(&[("a", Some("0")), ("b", Some(""))])));
    assert!(!has_known_sides(&lobby_of(&[("a", Some("0")), ("b", None)])));
}

#[test]
fn results_go_by_the_team_that_was_to_win() {
    let mut lobby = lobby_of(&[("a", Some("0")), ("b", Some("1")), ("c", None)]);
    lobby.ongoing_win_team = Some("1".to_string());
    let mut stats = BotsStatistics::default();
    stats.bots.insert("b".to_string(), lost(4));
    stats.bots.insert("d".to_string(), won(2));
    update_bots_statistics_after_game(&lobby, &mut stats);
    assert_eq!(stats.bots.get("a"), Some(&lost(1)));
    assert_eq!(
        stats.bots.get("b"),
        Some(&vec![MatchResult::Lose, MatchResult::Lose, MatchResult::Lose, MatchResult::Win])
    );
    assert_eq!(stats.bots.get("c"), None);
    assert_eq!(stats.bots.get("d"), Some(&won(2)));
}

#[test]
fn a_missing_win_team_is_worked_out_again() {
    let lobby = lobby_of(&[("a", Some("0")), ("b", Some("1"))]);
    let mut stats = BotsStatistics::default();
    stats.bots.insert("a".to_string(), won(1));
    update_bots_statistics_after_game(&lobby, &mut stats);
    assert_eq!(stats.bots.get("a"), Some(&vec![MatchResult::Win, MatchResult::Lose]));
    assert_eq!(stats.bots.get("b"), Some(&won(1)));
}

#[test]
fn whole_minutes_add_up() {
    let mut play_time = BotsPlayTime::default();
    assert_eq!(update_bots_play_time_after_game(&mut play_time, &ended("b", "76", 119)), None);
    assert_eq!(minutes(&play_time, "b", "76"), Some(1));
    assert_eq!(update_bots_play_time_after_game(&mut play_time, &ended("b", "76", 3600)), None);
    assert_eq!(minutes(&play_time, "b", "76"), Some(61));
    assert_eq!(update_bots_play_time_after_game(&mut play_time, &ended("c", "9", 59)), None);
    assert_eq!(minutes(&play_time, "c", "9"), Some(0));
    assert_eq!(minutes(&play_time, "b", "76"), Some(61));
}

#[test]
fn a_new_account_begins_again() {
    let mut play_time = BotsPlayTime::default();
    update_bots_play_time_after_game(&mut play_time, &ended("b", "76", 6000));
    update_bots_play_time_after_game(&mut play_time, &ended("b", "77", 120));
    assert_eq!(minutes(&play_time, "b", "76"), None);
    assert_eq!(minutes(&play_time, "b", "77"), Some(2));
    update_bots_play_time_after_game(&mut play_time, &ended("b", "76", 60));
    assert_eq!(minutes(&play_time, "b", "76"), Some(1));
    assert_eq!(minutes(&play_time, "b", "77"), None);
}

#[test]
fn milestones_are_told() {
    let mut play_time = BotsPlayTime::default();
    let almost = (PLAY_TIME_MILESTONE_MINUTES - 1) * 60;
    assert_eq!(update_bots_play_time_after_game(&mut play_time, &ended("b", "76", almost)), None);
    assert_eq!(
        update_bots_play_time_after_game(&mut play_time, &ended("b", "76", 60)).as_deref(),
        Some("✅ 🥳 Bot b (ID: 76) reached the play time milestone: 100h0m 🥳 ✅")
    );
    assert_eq!(
        update_bots_play_time_after_game(&mut play_time, &ended("b", "76", 30)).as_deref(),
        Some("✅ 🥳 Bot b (ID: 76) reached the play time milestone: 100h0m 🥳 ✅")
    );
    assert_eq!(update_bots_play_time_after_game(&mut play_time, &ended("b", "76", 60)), None);
}

#[test]
fn minutes_begin_again_beyond_their_range() {
    let mut play_time = BotsPlayTime::default();
    update_bots_play_time_after_game(&mut play_time, &ended("b", "76", 60));
    if let Some(accounts) = play_time.bots.get_mut("b") {
        accounts.insert("76".to_string(), u64::MAX);
    }
    assert_eq!(update_bots_play_time_after_game(&mut play_time, &ended("b", "76", 120)), None);
    assert_eq!(minutes(&play_time, "b", "76"), Some(1));
}
