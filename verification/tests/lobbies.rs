use coordinator::draw::{message_number, pick_index};
use coordinator::inbound::{
    GameAborted, GameEnded, InGameEvent, InGameParameters, LobbyFound, ReconnectHandshake,
};
use coordinator::lobby::{
    fully_init_lobby, lobby_bots_except, lobby_writers, roles_pool_for_stage, roles_remaining_for_side,
    starter_replay_pool_for_side, Bot, Lobby,
};
use coordinator::play_time::BotsPlayTime;
use coordinator::roles::{
    give_roles_to_bot, grant_parameters, hand_out_roles, hand_out_starter_replay, has_roles_left,
    note_request, roles_at, roles_distributor, starter_replays_numbers_distributor,
};
use coordinator::service::{
    can_serve_in_game_parameters, distribute_ongoing_win_team, in_game_parameters_fullness_controller,
    lobby_fullness_controller, send_in_game_parameters_timeout_verdict, send_lobby_timeout_verdict,
    serve_for_game_aborted, serve_for_game_ended, serve_for_in_game_event,
    serve_for_in_game_parameters, serve_for_lobby_found, serve_for_reconnect_handshake,
    serve_for_user_termination_command, tell_of_game_aborted, tell_of_game_ended, ActiveLobbies,
    LobbyFoundStep, LobbyStep, RequestsStep, Wake,
};
use coordinator::statistics::{BotsStatistics, MatchResult};

type Lobbies = ActiveLobbies<u32, u32>;

fn found(lobby_id: &str, bot_number: &str, tcp_writer: u32) -> LobbyFound<u32> {
    LobbyFound { lobby_id: lobby_id.to_string(), bot_number: bot_number.to_string(), tcp_writer }
}

fn asks(lobby_id: &str, bot_number: &str, side: &str) -> InGameParameters<u32> {
    InGameParameters {
        lobby_id: lobby_id.to_string(),
        bot_number: bot_number.to_string(),
        side: side.to_string(),
        tcp_writer: 0,
    }
}

fn back(lobby_id: &str, bot_number: &str, side: &str, tcp_writer: u32) -> ReconnectHandshake<u32> {
    ReconnectHandshake {
        lobby_id: lobby_id.to_string(),
        bot_number: bot_number.to_string(),
        side: side.to_string(),
        tcp_writer,
    }
}

fn filled_lobbies(count: u32) -> Lobbies {
    let mut lobbies: Lobbies = ActiveLobbies::new();
    for n in 0..count {
        serve_for_lobby_found(&mut lobbies, found("l", &n.to_string(), n), 900);
    }
    lobbies
}

fn stocked_lobby() -> Lobby<u32, u32> {
    let mut lobby = Lobby::new(None);
    fully_init_lobby(&mut lobby);
    lobby.bots.insert("a".to_string(), Bot::new(1, None));
    lobby.bots.insert("b".to_string(), Bot::new(2, None));
    lobby
}

#[test]
fn pools_begin_with_their_stock() {
    assert_eq!(roles_pool_for_stage(), vec!["0", "1", "2", "1", "2"]);
    assert_eq!(roles_remaining_for_side(), vec![roles_pool_for_stage(), roles_pool_for_stage()]);
    let replays = starter_replay_pool_for_side();
    assert_eq!(replays.len(), 3);
    assert_eq!(replays.get("0"), Some(&vec!["1"]));
    assert_eq!(replays.get("1"), Some(&vec!["1", "2"]));
    assert_eq!(replays.get("2"), Some(&vec!["1", "2"]));
    let lobby = stocked_lobby();
    assert_eq!(lobby.roles_remaining.len(), 2);
    assert_eq!(lobby.roles_remaining.get("0"), Some(&roles_remaining_for_side()));
    assert_eq!(lobby.roles_remaining.get("1"), Some(&roles_remaining_for_side()));
    assert_eq!(lobby.starter_replays_numbers_remaining.len(), 2);
    assert_eq!(lobby.bots.len(), 2);
    assert_eq!(lobby.in_game_parameters_requesting_fullness, 0);
}

#[test]
fn all_bots_of_a_lobby_or_all_but_one_are_reached() {
    let lobby = stocked_lobby();
    assert_eq!(lobby_writers(&lobby), vec![&1, &2]);
    assert_eq!(lobby_bots_except(&lobby, "a"), vec![(&"b".to_string(), &2)]);
    assert_eq!(lobby_bots_except(&lobby, "x").len(), 2);
}

#[test]
fn roles_at_given_places_are_given() {
    let pools = vec![vec!["0", "1", "2"], vec!["2", "1"]];
    let grant = roles_at(&pools, &vec![2, 0]);
    assert_eq!(grant.picked, vec![(0, 2), (1, 0)]);
    assert_eq!(grant.primary_role, "2");
    assert_eq!(grant.message, "22,2");
    let drawn = give_roles_to_bot(&pools);
    let picks: Vec<usize> = drawn.picked.iter().map(|(_, place)| *place).collect();
    assert_eq!(roles_at(&pools, &picks), drawn);
}

#[test]
fn roles_given_are_gone_from_their_side() {
    let mut lobby = stocked_lobby();
    let grant = hand_out_roles(&mut lobby, "1", &vec![0, 4]);
    assert_eq!(grant.primary_role, "0");
    assert_eq!(grant.message, "20,2");
    assert_eq!(
        lobby.roles_remaining.get("1"),
        Some(&vec![vec!["1", "2", "1", "2"], vec!["0", "1", "2", "1"]])
    );
    assert_eq!(lobby.roles_remaining.get("0"), Some(&roles_remaining_for_side()));
    let replay = hand_out_starter_replay(&mut lobby, "1", "1", 1);
    assert_eq!(replay.message, "32");
    let left = lobby.starter_replays_numbers_remaining.get("1").unwrap();
    assert_eq!(left.get("1"), Some(&vec!["1"]));
    assert_eq!(left.get("2"), Some(&vec!["1", "2"]));
}

#[test]
fn drawn_roles_use_up_a_side() {
    let mut lobby = stocked_lobby();
    let mut given: Vec<String> = Vec::new();
    let mut replays: Vec<String> = Vec::new();
    for _ in 0..5 {
        assert!(has_roles_left(&lobby, "0"));
        let grant = roles_distributor(&mut lobby, "0");
        let replay = starter_replays_numbers_distributor(&mut lobby, "0", &grant.primary_role);
        replays.push(format!("{}/{}", grant.primary_role, replay.message));
        given.push(grant.primary_role);
    }
    given.sort();
    replays.sort();
    assert_eq!(given, vec!["0", "1", "1", "2", "2"]);
    assert_eq!(replays, vec!["0/31", "1/31", "1/32", "2/31", "2/32"]);
    assert!(!has_roles_left(&lobby, "0"));
    assert!(has_roles_left(&lobby, "1"));
    assert!(!has_roles_left(&lobby, "2"));
}

#[test]
fn requests_are_counted() {
    let mut lobby = stocked_lobby();
    assert!(note_request(&mut lobby, "a", "0", 70));
    assert_eq!(lobby.in_game_parameters_requesting_fullness, 1);
    assert_eq!(lobby.in_game_parameters_fullness_controller_sender, Some(70));
    assert!(!note_request(&mut lobby, "b", "1", 71));
    assert_eq!(lobby.in_game_parameters_requesting_fullness, 2);
    assert_eq!(lobby.in_game_parameters_fullness_controller_sender, Some(70));
    assert_eq!(lobby.bots.get("a").unwrap().side.as_deref(), Some("0"));
    assert_eq!(lobby.bots.get("b").unwrap().side.as_deref(), Some("1"));
    lobby.in_game_parameters_requesting_fullness = 255;
    assert!(!note_request(&mut lobby, "b", "0", 72));
    assert_eq!(lobby.in_game_parameters_requesting_fullness, 0);
    assert_eq!(lobby.bots.get("b").unwrap().side.as_deref(), Some("0"));
}

#[test]
fn a_grant_holds_roles_and_a_replay() {
    let mut lobby = stocked_lobby();
    let grant = grant_parameters(&mut lobby, "a", "1", 70);
    assert!(grant.first);
    assert!(grant.roles.message.starts_with('2'));
    assert_eq!(grant.roles.message.len(), 4);
    assert!(grant.starter_replay.message == "31" || grant.starter_replay.message == "32");
    assert_eq!(lobby.roles_remaining.get("1").unwrap()[0].len(), 4);
    assert_eq!(lobby.roles_remaining.get("1").unwrap()[1].len(), 4);
    assert!(!grant_parameters(&mut lobby, "b", "1", 71).first);
}

#[test]
fn draws_stay_in_range_and_vary() {
    let mut seen = [false; 5];
    for _ in 0..400 {
        seen[pick_index(5)] = true;
        let number = message_number();
        assert!(1 <= number && number < 999_999_999);
    }
    assert_eq!(seen, [true; 5]);
    assert_eq!(pick_index(1), 0);
    assert!(message_number() != message_number() || message_number() != message_number());
}

#[test]
fn the_first_bot_sets_a_lobby_up() {
    let mut lobbies: Lobbies = ActiveLobbies::new();
    assert!(matches!(
        serve_for_lobby_found(&mut lobbies, found("l", "a", 1), 900),
        LobbyFoundStep::Registered
    ));
    assert!(matches!(
        serve_for_lobby_found(&mut lobbies, found("l", "b", 2), 901),
        LobbyFoundStep::Notify(900)
    ));
    assert!(matches!(
        serve_for_lobby_found(&mut lobbies, found("l", "b", 3), 902),
        LobbyFoundStep::Notify(900)
    ));
    assert!(matches!(
        serve_for_lobby_found(&mut lobbies, found("m", "a", 4), 903),
        LobbyFoundStep::Registered
    ));
    assert_eq!(lobbies.lobbies.len(), 2);
    let lobby = lobbies.lobbies.get("l").unwrap();
    assert_eq!(lobby.bots.len(), 2);
    assert_eq!(lobby.bots.get("b").unwrap().tcp_writer, 3);
    assert_eq!(lobby.bots.get("b").unwrap().side, None);
    assert_eq!(lobby.roles_remaining.len(), 0);
}

#[test]
fn a_full_lobby_is_told_at_once() {
    let mut lobbies = filled_lobbies(10);
    match lobby_fullness_controller(&mut lobbies, "l", Wake::Signalled) {
        LobbyStep::Full { message, writers } => {
            assert_eq!(message, "11");
            assert_eq!(writers.len(), 10);
        },
        _ => panic!("not full"),
    }
    assert!(has_roles_left(lobbies.lobbies.get("l").unwrap(), "0"));
    assert!(has_roles_left(lobbies.lobbies.get("l").unwrap(), "1"));
}

#[test]
fn a_lobby_that_is_not_full_is_waited_for() {
    let mut lobbies = filled_lobbies(9);
    assert!(matches!(
        lobby_fullness_controller(&mut lobbies, "l", Wake::Signalled),
        LobbyStep::KeepWaiting
    ));
    assert!(matches!(
        lobby_fullness_controller(&mut lobbies, "none", Wake::Signalled),
        LobbyStep::KeepWaiting
    ));
    assert!(matches!(
        lobby_fullness_controller(&mut lobbies, "l", Wake::Closed),
        LobbyStep::Stop
    ));
    assert_eq!(lobbies.lobbies.get("l").unwrap().bots.len(), 9);
    match lobby_fullness_controller(&mut lobbies, "l", Wake::TimedOut) {
        LobbyStep::NotFull { message, lobby } => {
            assert_eq!(message, "10");
            assert_eq!(lobby_writers(&lobby).len(), 9);
        },
        _ => panic!("full"),
    }
    assert!(!lobbies.lobbies.contains_key("l"));
}

#[test]
fn only_ten_bots_fill_a_lobby_in_time() {
    let mut lobbies = filled_lobbies(10);
    assert!(matches!(send_lobby_timeout_verdict(&mut lobbies, "l"), LobbyStep::Full { .. }));
    assert!(lobbies.lobbies.contains_key("l"));
    let mut lobbies = filled_lobbies(11);
    assert!(matches!(send_lobby_timeout_verdict(&mut lobbies, "l"), LobbyStep::NotFull { .. }));
    assert!(!lobbies.lobbies.contains_key("l"));
}

#[test]
fn ten_requests_name_the_team_that_is_to_win() {
    let mut lobbies = filled_lobbies(10);
    lobby_fullness_controller(&mut lobbies, "l", Wake::Signalled);
    let mut stats = BotsStatistics::default();
    stats.bots.insert("0".to_string(), vec![MatchResult::Win]);
    for n in 0..10u32 {
        let request = asks("l", &n.to_string(), if n < 5 { "0" } else { "1" });
        assert!(can_serve_in_game_parameters(&lobbies, &request));
        let step = serve_for_in_game_parameters(&mut lobbies, &request, 700 + n);
        assert_eq!(step.grant.first, n == 0);
        assert_eq!(step.notify, if n == 0 { None } else { Some(&700) });
        if n < 9 {
            assert!(matches!(
                in_game_parameters_fullness_controller(&mut lobbies, "l", &stats, Wake::Signalled),
                RequestsStep::WaitAnew { secs: 55 }
            ));
        }
    }
    match in_game_parameters_fullness_controller(&mut lobbies, "l", &stats, Wake::Signalled) {
        RequestsStep::WinTeam { message, writers } => {
            assert_eq!(message, "41");
            assert_eq!(writers.len(), 10);
        },
        _ => panic!("no team"),
    }
    assert_eq!(lobbies.lobbies.get("l").unwrap().ongoing_win_team.as_deref(), Some("1"));
    assert!(!can_serve_in_game_parameters(&lobbies, &asks("l", "0", "0")));
    match distribute_ongoing_win_team(&mut lobbies, "l", &BotsStatistics::default()) {
        RequestsStep::WinTeam { message, .. } => assert_eq!(message, "40"),
        _ => panic!("no team"),
    }
}

#[test]
fn too_few_requests_break_the_lobby_up() {
    let mut lobbies = filled_lobbies(10);
    lobby_fullness_controller(&mut lobbies, "l", Wake::TimedOut);
    serve_for_in_game_parameters(&mut lobbies, &asks("l", "3", "0"), 700);
    let stats = BotsStatistics::default();
    match in_game_parameters_fullness_controller(&mut lobbies, "l", &stats, Wake::TimedOut) {
        RequestsStep::Disconnect { message, writers } => {
            assert_eq!(message, "50");
            assert_eq!(writers.len(), 10);
        },
        _ => panic!("not told to leave"),
    }
    assert!(matches!(
        in_game_parameters_fullness_controller(&mut lobbies, "l", &stats, Wake::Closed),
        RequestsStep::Stop
    ));
    assert!(lobbies.lobbies.contains_key("l"));
    assert!(matches!(
        send_in_game_parameters_timeout_verdict(&mut lobbies, "l", &stats),
        RequestsStep::Disconnect { .. }
    ));
}

#[test]
fn requests_that_cannot_be_met_are_seen() {
    let mut lobbies = filled_lobbies(10);
    assert!(!can_serve_in_game_parameters(&lobbies, &asks("l", "1", "0")));
    lobby_fullness_controller(&mut lobbies, "l", Wake::Signalled);
    assert!(can_serve_in_game_parameters(&lobbies, &asks("l", "1", "0")));
    assert!(!can_serve_in_game_parameters(&lobbies, &asks("l", "1", "2")));
    assert!(!can_serve_in_game_parameters(&lobbies, &asks("l", "x", "0")));
    assert!(!can_serve_in_game_parameters(&lobbies, &asks("m", "1", "0")));
}

#[test]
fn events_go_to_all_other_bots() {
    let lobbies = filled_lobbies(3);
    let event = InGameEvent {
        lobby_id: "l".to_string(),
        bot_number: "1".to_string(),
        event: "0".to_string(),
    };
    let broadcast = serve_for_in_game_event(&lobbies, &event).unwrap();
    assert_eq!(broadcast.message, "60");
    assert_eq!(broadcast.bots, vec![(&"0".to_string(), &0), (&"2".to_string(), &2)]);
    let event = InGameEvent { lobby_id: "m".to_string(), ..event };
    assert!(serve_for_in_game_event(&lobbies, &event).is_none());
}

#[test]
fn bots_that_come_back_put_their_lobby_together() {
    let mut lobbies: Lobbies = ActiveLobbies::new();
    serve_for_reconnect_handshake(&mut lobbies, back("l", "a", "0", 1));
    serve_for_reconnect_handshake(&mut lobbies, back("l", "b", "1", 2));
    serve_for_reconnect_handshake(&mut lobbies, back("l", "a", "0", 3));
    let lobby = lobbies.lobbies.get("l").unwrap();
    assert_eq!(lobby.bots.len(), 2);
    assert_eq!(lobby.bots.get("a").unwrap().tcp_writer, 3);
    assert_eq!(lobby.bots.get("b").unwrap().side.as_deref(), Some("1"));
    assert_eq!(lobby.lobby_fullness_controller_sender, None);
    assert!(has_roles_left(lobby, "0"));
    let mut lobbies = filled_lobbies(2);
    serve_for_reconnect_handshake(&mut lobbies, back("l", "1", "1", 9));
    let lobby = lobbies.lobbies.get("l").unwrap();
    assert_eq!(lobby.lobby_fullness_controller_sender, Some(900));
    assert_eq!(lobby.bots.get("1").unwrap().tcp_writer, 9);
    assert!(!has_roles_left(lobby, "0"));
}

#[test]
fn a_broken_off_game_is_told_once() {
    let mut lobbies = filled_lobbies(3);
    let report = GameAborted { lobby_id: "l".to_string(), bot_number: "2".to_string() };
    let aborted = serve_for_game_aborted(&mut lobbies, &report).unwrap();
    assert_eq!(aborted.message, "70");
    assert_eq!(aborted.text, "Lobby l was aborted, included bots: [0,1,2]");
    let told = tell_of_game_aborted(&aborted, &report);
    assert_eq!(told.message, "70");
    assert_eq!(told.bots, vec![(&"0".to_string(), &0), (&"1".to_string(), &1)]);
    assert!(serve_for_game_aborted(&mut lobbies, &report).is_none());
    assert_eq!(lobbies.lobbies.len(), 0);
}

#[test]
fn a_game_that_is_over_counts_once() {
    let mut lobbies: Lobbies = ActiveLobbies::new();
    serve_for_reconnect_handshake(&mut lobbies, back("l", "a", "0", 1));
    serve_for_reconnect_handshake(&mut lobbies, back("l", "b", "1", 2));
    let mut stats = BotsStatistics::default();
    let mut play_time = BotsPlayTime::default();
    let report = GameEnded {
        lobby_id: "l".to_string(),
        bot_number: "a".to_string(),
        dota_id: "76".to_string(),
        match_duration_secs: 360_000,
    };
    let ended = serve_for_game_ended(&mut lobbies, &mut stats, &mut play_time, &report).unwrap();
    assert_eq!(ended.message, "60");
    let told = tell_of_game_ended(&ended, &report);
    assert_eq!(told.message, "60");
    assert_eq!(told.bots, vec![(&"b".to_string(), &2)]);
    assert_eq!(ended.lobby.bots.len(), 2);
    assert_eq!(
        ended.news.as_deref(),
        Some("✅ 🥳 Bot a (ID: 76) reached the play time milestone: 100h0m 🥳 ✅")
    );
    assert!(serve_for_game_ended(&mut lobbies, &mut stats, &mut play_time, &report).is_none());
    assert_eq!(stats.bots.get("a"), Some(&vec![MatchResult::Win]));
    assert_eq!(stats.bots.get("b"), Some(&vec![MatchResult::Lose]));
    assert_eq!(play_time.bots.get("a").unwrap().get("76"), Some(&6000));
    assert!(!play_time.bots.contains_key("b"));
}

#[test]
fn bots_that_are_to_end_take_their_lobbies_with_them() {
    let mut lobbies: Lobbies = ActiveLobbies::new();
    for (lobby_id, bot) in [("l", "a"), ("l", "b"), ("m", "c"), ("n", "b"), ("o", "d")] {
        serve_for_lobby_found(&mut lobbies, found(lobby_id, bot, 1), 900);
    }
    let affected = vec!["b".to_string(), "x".to_string()];
    serve_for_user_termination_command(&mut lobbies, &affected);
    assert!(!lobbies.lobbies.contains_key("l"));
    assert!(lobbies.lobbies.contains_key("m"));
    assert!(!lobbies.lobbies.contains_key("n"));
    assert!(lobbies.lobbies.contains_key("o"));
    serve_for_user_termination_command(&mut lobbies, &affected);
    assert_eq!(lobbies.lobbies.len(), 2);
    serve_for_user_termination_command(&mut lobbies, &vec![]);
    assert_eq!(lobbies.lobbies.len(), 2);
}

#[test]
fn a_verdict_leaves_other_lobbies_alone() {
    let mut lobbies = filled_lobbies(10);
    serve_for_lobby_found(&mut lobbies, found("m", "x", 50), 901);
    assert!(matches!(send_lobby_timeout_verdict(&mut lobbies, "l"), LobbyStep::Full { .. }));
    let other = lobbies.lobbies.get("m").unwrap();
    assert_eq!(other.bots.len(), 1);
    assert!(!has_roles_left(other, "0"));
    assert!(matches!(send_lobby_timeout_verdict(&mut lobbies, "m"), LobbyStep::NotFull { .. }));
    assert!(has_roles_left(lobbies.lobbies.get("l").unwrap(), "0"));
    assert_eq!(lobbies.lobbies.len(), 1);
}

#[test]
fn lobbies_have_bots_as_long_as_they_stand() {
    let mut lobbies = filled_lobbies(10);
    serve_for_reconnect_handshake(&mut lobbies, back("m", "x", "1", 50));
    lobby_fullness_controller(&mut lobbies, "l", Wake::Signalled);
    serve_for_in_game_parameters(&mut lobbies, &asks("l", "4", "1"), 700);
    serve_for_user_termination_command(&mut lobbies, &vec!["nobody".to_string()]);
    for place in 0..lobbies.lobbies.len() {
        assert!(lobbies.lobbies.value_at(place).bots.len() > 0);
    }
    serve_for_user_termination_command(&mut lobbies, &vec!["9".to_string(), "x".to_string()]);
    assert_eq!(lobbies.lobbies.len(), 0);
}

#[test]
fn ten_requests_share_all_roles_and_replays() {
    let mut lobbies = filled_lobbies(10);
    lobby_fullness_controller(&mut lobbies, "l", Wake::Signalled);
    let mut first_stage: Vec<(String, String)> = Vec::new();
    let mut second_stage: Vec<(String, String)> = Vec::new();
    let mut pairs: Vec<(String, String, String)> = Vec::new();
    for n in 0..10u32 {
        let side = if n % 2 == 0 { "0" } else { "1" };
        let request = asks("l", &n.to_string(), side);
        assert!(can_serve_in_game_parameters(&lobbies, &request));
        let grant = serve_for_in_game_parameters(&mut lobbies, &request, 700).grant;
        let roles: Vec<&str> = grant.roles.message[1..].split(',').collect();
        assert_eq!(roles.len(), 2);
        assert_eq!(roles[0], grant.roles.primary_role);
        first_stage.push((side.to_string(), roles[0].to_string()));
        second_stage.push((side.to_string(), roles[1].to_string()));
        let replay = grant.starter_replay.message[1..].to_string();
        pairs.push((side.to_string(), roles[0].to_string(), replay));
    }
    first_stage.sort();
    second_stage.sort();
    pairs.sort();
    let mut all_roles = Vec::new();
    let mut all_pairs = Vec::new();
    for side in ["0", "1"] {
        for role in ["0", "1", "1", "2", "2"] {
            all_roles.push((side.to_string(), role.to_string()));
        }
        for (role, replay) in [("0", "1"), ("1", "1"), ("1", "2"), ("2", "1"), ("2", "2")] {
            all_pairs.push((side.to_string(), role.to_string(), replay.to_string()));
        }
    }
    assert_eq!(first_stage, all_roles);
    assert_eq!(second_stage, all_roles);
    assert_eq!(pairs, all_pairs);
    let lobby = lobbies.lobbies.get("l").unwrap();
    assert_eq!(lobby.in_game_parameters_requesting_fullness, 10);
    for side in ["0", "1"] {
        assert!(lobby.roles_remaining.get(side).unwrap().iter().all(|pool| pool.is_empty()));
        let replays = lobby.starter_replays_numbers_remaining.get(side).unwrap();
        for place in 0..replays.len() {
            assert!(replays.value_at(place).is_empty());
        }
    }
}
