//! What becomes of the lobbies on each report, command and passing of time.
use crate::inbound::{
    GameAborted, GameEnded, InGameEvent, InGameParameters, LobbyFound, ReconnectHandshake,
};
use crate::lobby::{
    contacts_in, contacts_of, empty_lobby, fully_init_lobby, lobby_bots_except, lobby_writers,
    side_roles, stocked, walk_except, writers_in, Bot, BotView, Lobby, LobbyView, LOBBY_SIZE,
};
use crate::outbound::{
    in_game_event_message, law_game_ended_is_an_in_game_event, name_win_team, pass_on_event,
    win_team_message, GAME_ABORTED, GAME_ENDED, LOBBY_FULL, LOBBY_NOT_FULL, PRE_IN_GAME_DISCONNECT,
};
use crate::play_time::{
    is_milestone, milestone_text, minutes_on, play_time_after, update_bots_play_time_after_game,
    BotsPlayTime,
};
use crate::roles::{
    after_requests, aligned, grant_parameters, has_roles_left, law_all_who_ask_have_sides,
    law_fresh_pools_go_together, law_requests_are_counted, roles_left, ParametersGrant,
};
use crate::served::{
    after_served, asked_on, law_next_of_five_can_be_served, served_in_turn, untouched_stock,
    ServedRequest,
};
use crate::statistics::{
    compute_ongoing_win_team, results_after, sides_known, team_of, update_bots_statistics_after_game,
    winning_team, BotsStatistics, MatchResult,
};
use crate::string_map::{
    distinct_keys, lemma_map_of_entry, lemma_map_of_position, lemma_map_of_remove, StringMap,
};
use crate::text::{join, join_texts};
use vstd::prelude::*;

verus! {

/// How many seconds a lobby has to fill up.
pub const LOBBY_FULL_WAIT_SECS: u64 = 15;

/// How many seconds pass without a request before the task that waits for the requests of a lobby's
/// bots gives up.
pub const IN_GAME_PARAMETERS_FULL_WAIT_SECS: u64 = 55;

/// The lobbies under their ids.
#[derive(Debug)]
pub struct ActiveLobbies<W, S> {
    pub lobbies: StringMap<Lobby<W, S>>,
}

impl<W, S> View for ActiveLobbies<W, S> {
    type V = Map<Seq<char>, LobbyView<W, S>>;

    open spec fn view(&self) -> Map<Seq<char>, LobbyView<W, S>> {
        self.lobbies@.map_values(|lobby: Lobby<W, S>| lobby@)
    }
}

impl<W, S> ActiveLobbies<W, S> {
    /// No lobby.
    pub fn new() -> (lobbies: Self)
        ensures
            lobbies@ == Map::<Seq<char>, LobbyView<W, S>>::empty(),
    {
        let lobbies = ActiveLobbies { lobbies: StringMap::new() };
        proof {
            assert(lobbies@ =~= Map::<Seq<char>, LobbyView<W, S>>::empty());
        }
        lobbies
    }
}

/// A lobby with a bot in it, in place of the one that had its number.
pub open spec fn with_bot<W, S>(
    lobby: LobbyView<W, S>,
    bot_number: Seq<char>,
    bot: BotView<W>,
) -> LobbyView<W, S> {
    LobbyView { bots: lobby.bots.insert(bot_number, bot), ..lobby }
}

/// The lobbies once a bot has found one: it is in that lobby, on no side yet. A lobby that is not
/// there is set up first, and woken by `signal` from then on.
pub open spec fn joined<W, S>(
    lobbies: Map<Seq<char>, LobbyView<W, S>>,
    lobby_id: Seq<char>,
    bot_number: Seq<char>,
    tcp_writer: W,
    signal: S,
) -> Map<Seq<char>, LobbyView<W, S>> {
    let lobby = if lobbies.contains_key(lobby_id) {
        lobbies[lobby_id]
    } else {
        empty_lobby(Some(signal))
    };
    lobbies.insert(lobby_id, with_bot(lobby, bot_number, BotView { tcp_writer, side: None }))
}

/// What is to be done once a bot has found a lobby.
#[derive(Debug)]
pub enum LobbyFoundStep<'a, S> {
    /// Wake the task that waits for the lobby to fill up.
    Notify(&'a S),
    /// The lobby is new: begin to wait for it to fill up.
    Registered,
}

/// Takes a bot into a lobby that it has found.
pub fn serve_for_lobby_found<'a, W, S>(
    active_lobbies: &'a mut ActiveLobbies<W, S>,
    lobby_found: LobbyFound<W>,
    signal: S,
) -> (step: LobbyFoundStep<'a, S>)
    requires
        old(active_lobbies)@.contains_key(lobby_found.lobby_id@) ==> old(
            active_lobbies,
        )@[lobby_found.lobby_id@].lobby_signal is Some,
    ensures
        final(active_lobbies)@ == joined(
            old(active_lobbies)@,
            lobby_found.lobby_id@,
            lobby_found.bot_number@,
            lobby_found.tcp_writer,
            signal,
        ),
        match step {
            LobbyFoundStep::Notify(handle) => old(active_lobbies)@.contains_key(
                lobby_found.lobby_id@,
            ) && Some(*handle) == old(active_lobbies)@[lobby_found.lobby_id@].lobby_signal,
            LobbyFoundStep::Registered => !old(active_lobbies)@.contains_key(lobby_found.lobby_id@),
        },
{
    let ghost before = active_lobbies@;
    let ghost goal = joined(
        before,
        lobby_found.lobby_id@,
        lobby_found.bot_number@,
        lobby_found.tcp_writer,
        signal,
    );
    let LobbyFound { lobby_id, bot_number, tcp_writer } = lobby_found;
    if active_lobbies.lobbies.contains_key(lobby_id.as_str()) {
        let lobby = active_lobbies.lobbies.get_mut(lobby_id.as_str()).unwrap();
        lobby.bots.insert(bot_number, Bot::new(tcp_writer, None));
        proof {
            assert(active_lobbies@[lobby_id@].bots =~= goal[lobby_id@].bots);
            assert(active_lobbies@ =~= goal);
        }
        let lobby = active_lobbies.lobbies.get(lobby_id.as_str()).unwrap();
        LobbyFoundStep::Notify(lobby.lobby_fullness_controller_sender.as_ref().unwrap())
    } else {
        let mut lobby: Lobby<W, S> = Lobby::new(Some(signal));
        lobby.bots.insert(bot_number, Bot::new(tcp_writer, None));
        proof {
            assert(lobby@.bots =~= goal[lobby_id@].bots);
        }
        active_lobbies.lobbies.insert(lobby_id, lobby);
        proof {
            assert(active_lobbies@ =~= goal);
        }
        LobbyFoundStep::Registered
    }
}

/// What a waiting task hears.
#[derive(Debug, Clone, Copy, PartialEq, Eq, Structural)]
pub enum Wake {
    /// The time is up.
    TimedOut,
    /// It was woken.
    Signalled,
    /// Nobody can wake it any more.
    Closed,
}

/// What the task that waits for a lobby to fill up is to do. It waits on only where this says so.
#[derive(Debug)]
pub enum LobbyStep<'a, W, S> {
    /// For what is left of the time that the lobby has had from its beginning.
    KeepWaiting,
    Stop,
    /// The lobby is full: these are to be sent this message.
    Full { message: &'static str, writers: Vec<&'a W> },
    /// The lobby did not fill up and is gone: its bots are to be sent this message.
    NotFull { message: &'static str, lobby: Lobby<W, S> },
}

/// A lobby is there, with exactly as many bots as fill it.
pub open spec fn full<W, S>(lobbies: Map<Seq<char>, LobbyView<W, S>>, lobby_id: Seq<char>) -> bool {
    lobbies.contains_key(lobby_id) && lobbies[lobby_id].bots.len() == LOBBY_SIZE
}

/// The lobbies once one is found to be full: it has everything to hand out.
pub open spec fn filled<W, S>(lobbies: Map<Seq<char>, LobbyView<W, S>>, lobby_id: Seq<char>) -> Map<
    Seq<char>,
    LobbyView<W, S>,
> {
    lobbies.insert(lobby_id, stocked(lobbies[lobby_id]))
}

impl<'a, W, S> LobbyStep<'a, W, S> {
    /// The lobby is full, and all its bots are told.
    pub open spec fn tells_full(self, lobby: Lobby<W, S>) -> bool {
        match self {
            LobbyStep::Full { message, writers } => message@ == "11"@ && writers@.unref()
                == writers_in(lobby.bots.walk()) && distinct_keys(lobby.bots.walk()),
            _ => false,
        }
    }

    /// The lobby did not fill up, and its bots are told.
    pub open spec fn tells_not_full(self, left: LobbyView<W, S>) -> bool {
        match self {
            LobbyStep::NotFull { message, lobby } => message@ == "10"@ && lobby@ == left,
            _ => false,
        }
    }
}

/// Gives a lobby that is full everything to hand out, and says who is to be told.
fn announce_full<'a, W, S>(active_lobbies: &'a mut ActiveLobbies<W, S>, lobby_id: &str) -> (step:
    LobbyStep<'a, W, S>)
    requires
        old(active_lobbies)@.contains_key(lobby_id@),
    ensures
        final(active_lobbies)@ == filled(old(active_lobbies)@, lobby_id@),
        step.tells_full(final(active_lobbies).lobbies@[lobby_id@]),
{
    let ghost before = active_lobbies@;
    let lobby = active_lobbies.lobbies.get_mut(lobby_id).unwrap();
    fully_init_lobby(lobby);
    proof {
        assert(active_lobbies@ =~= filled(before, lobby_id@));
    }
    let lobby = active_lobbies.lobbies.get(lobby_id).unwrap();
    LobbyStep::Full { message: LOBBY_FULL, writers: lobby_writers(lobby) }
}

/// Whether a lobby is there and full.
fn is_full<W, S>(active_lobbies: &ActiveLobbies<W, S>, lobby_id: &str) -> (yes: bool)
    ensures
        yes == full(active_lobbies@, lobby_id@),
{
    match active_lobbies.lobbies.get(lobby_id) {
        Some(lobby) => {
            let count: usize = lobby.bots.len();
            proof {
                assert(lobby@.bots.dom() =~= lobby.bots@.dom());
            }
            count == LOBBY_SIZE
        },
        None => false,
    }
}

/// Decides on a lobby whose time to fill up is over: a full one gets everything to hand out, any
/// other is removed. Its bots are told either way.
pub fn send_lobby_timeout_verdict<'a, W, S>(
    active_lobbies: &'a mut ActiveLobbies<W, S>,
    lobby_id: &str,
) -> (step: LobbyStep<'a, W, S>)
    requires
        old(active_lobbies)@.contains_key(lobby_id@),
    ensures
        if full(old(active_lobbies)@, lobby_id@) {
            final(active_lobbies)@ == filled(old(active_lobbies)@, lobby_id@) && step.tells_full(
                final(active_lobbies).lobbies@[lobby_id@],
            )
        } else {
            final(active_lobbies)@ == old(active_lobbies)@.remove(lobby_id@) && step.tells_not_full(
                old(active_lobbies)@[lobby_id@],
            )
        },
{
    if is_full(active_lobbies, lobby_id) {
        return announce_full(active_lobbies, lobby_id);
    }
    let ghost before = active_lobbies@;
    let lobby = active_lobbies.lobbies.remove(lobby_id).unwrap();
    proof {
        assert(active_lobbies@ =~= before.remove(lobby_id@));
    }
    LobbyStep::NotFull { message: LOBBY_NOT_FULL, lobby }
}

/// One step of the task that waits for a lobby to fill up. Where its time is up, the verdict is
/// given. Where it is woken, it looks whether the lobby is full by now, and else waits on.
pub fn lobby_fullness_controller<'a, W, S>(
    active_lobbies: &'a mut ActiveLobbies<W, S>,
    lobby_id: &str,
    wake: Wake,
) -> (step: LobbyStep<'a, W, S>)
    requires
        wake is TimedOut ==> old(active_lobbies)@.contains_key(lobby_id@),
    ensures
        match wake {
            Wake::TimedOut => if full(old(active_lobbies)@, lobby_id@) {
                final(active_lobbies)@ == filled(old(active_lobbies)@, lobby_id@)
                    && step.tells_full(final(active_lobbies).lobbies@[lobby_id@])
            } else {
                final(active_lobbies)@ == old(active_lobbies)@.remove(lobby_id@)
                    && step.tells_not_full(old(active_lobbies)@[lobby_id@])
            },
            Wake::Signalled => if full(old(active_lobbies)@, lobby_id@) {
                final(active_lobbies)@ == filled(old(active_lobbies)@, lobby_id@)
                    && step.tells_full(final(active_lobbies).lobbies@[lobby_id@])
            } else {
                *final(active_lobbies) == *old(active_lobbies) && step is KeepWaiting
            },
            Wake::Closed => *final(active_lobbies) == *old(active_lobbies) && step is Stop,
        },
{
    match wake {
        Wake::TimedOut => send_lobby_timeout_verdict(active_lobbies, lobby_id),
        Wake::Signalled => if is_full(active_lobbies, lobby_id) {
            announce_full(active_lobbies, lobby_id)
        } else {
            LobbyStep::KeepWaiting
        },
        Wake::Closed => LobbyStep::Stop,
    }
}

/// In each lobby, the pools of each side go together.
pub open spec fn all_aligned<W, S>(lobbies: Map<Seq<char>, LobbyView<W, S>>) -> bool {
    forall|lobby_id: Seq<char>| #[trigger]
        lobbies.contains_key(lobby_id) ==> aligned(lobbies[lobby_id])
}

/// A bot's request for its in-game parameters can be met: the bot is in the lobby, and its side has
/// roles left.
pub open spec fn can_grant<W, S>(
    lobbies: Map<Seq<char>, LobbyView<W, S>>,
    lobby_id: Seq<char>,
    bot_number: Seq<char>,
    side: Seq<char>,
) -> bool {
    &&& lobbies.contains_key(lobby_id)
    &&& lobbies[lobby_id].bots.contains_key(bot_number)
    &&& lobbies[lobby_id].roles.contains_key(side)
    &&& roles_left(lobbies[lobby_id].roles[side])
}

/// Whether a bot's request for its in-game parameters can be met.
pub fn can_serve_in_game_parameters<W, S>(
    active_lobbies: &ActiveLobbies<W, S>,
    in_game_parameters: &InGameParameters<W>,
) -> (ready: bool)
    ensures
        ready == can_grant(
            active_lobbies@,
            in_game_parameters.lobby_id@,
            in_game_parameters.bot_number@,
            in_game_parameters.side@,
        ),
{
    match active_lobbies.lobbies.get(in_game_parameters.lobby_id.as_str()) {
        Some(lobby) => {
            proof {
                assert(active_lobbies@[in_game_parameters.lobby_id@] == lobby@);
            }
            lobby.bots.contains_key(in_game_parameters.bot_number.as_str()) && has_roles_left(
                lobby,
                in_game_parameters.side.as_str(),
            )
        },
        None => false,
    }
}

/// What is to be done once a bot has asked for its in-game parameters: send it what it is given, and
/// wake the task that waits for the others, or, where this bot is the first, begin to wait.
#[derive(Debug)]
pub struct ParametersStep<'a, S> {
    pub grant: ParametersGrant,
    pub notify: Option<&'a S>,
}

/// Gives a bot its in-game parameters.
pub fn serve_for_in_game_parameters<'a, W, S>(
    active_lobbies: &'a mut ActiveLobbies<W, S>,
    in_game_parameters: &InGameParameters<W>,
    signal: S,
) -> (step: ParametersStep<'a, S>)
    requires
        all_aligned(old(active_lobbies)@),
        can_grant(
            old(active_lobbies)@,
            in_game_parameters.lobby_id@,
            in_game_parameters.bot_number@,
            in_game_parameters.side@,
        ),
    ensures
        step.grant.fits(
            old(active_lobbies)@[in_game_parameters.lobby_id@],
            in_game_parameters.side@,
        ),
        match step.notify {
            Some(handle) => !step.grant.first && Some(*handle) == old(
                active_lobbies,
            )@[in_game_parameters.lobby_id@].parameters_signal,
            None => step.grant.first,
        },
        final(active_lobbies)@ == old(active_lobbies)@.insert(
            in_game_parameters.lobby_id@,
            step.grant.leaves(
                old(active_lobbies)@[in_game_parameters.lobby_id@],
                in_game_parameters.bot_number@,
                in_game_parameters.side@,
                signal,
            ),
        ),
        all_aligned(final(active_lobbies)@),
{
    let ghost before = active_lobbies@;
    let lobby_id = in_game_parameters.lobby_id.as_str();
    let lobby = active_lobbies.lobbies.get_mut(lobby_id).unwrap();
    let grant = grant_parameters(
        lobby,
        in_game_parameters.bot_number.as_str(),
        in_game_parameters.side.as_str(),
        signal,
    );
    proof {
        assert(active_lobbies@ =~= before.insert(
            lobby_id@,
            grant.leaves(
                before[lobby_id@],
                in_game_parameters.bot_number@,
                in_game_parameters.side@,
                signal,
            ),
        ));
    }
    if grant.first {
        ParametersStep { grant, notify: None }
    } else {
        let lobby = active_lobbies.lobbies.get(lobby_id).unwrap();
        ParametersStep {
            grant,
            notify: Some(lobby.in_game_parameters_fullness_controller_sender.as_ref().unwrap()),
        }
    }
}

/// What the task that waits for the requests of a lobby's bots is to do. It waits on only where this
/// says so.
#[derive(Debug)]
pub enum RequestsStep<'a, W> {
    /// For so many seconds from now on, however long it has waited.
    WaitAnew { secs: u64 },
    Stop,
    /// All have asked: these are to be sent this message, which names the team that is to win.
    WinTeam { message: String, writers: Vec<&'a W> },
    /// Not all have asked: these are to be sent this message.
    Disconnect { message: String, writers: Vec<&'a W> },
}

/// As many requests were counted as there are bots in a full lobby.
pub open spec fn all_asked<W, S>(lobby: LobbyView<W, S>) -> bool {
    lobby.requests == LOBBY_SIZE
}

/// A lobby once the team that is to win is named.
pub open spec fn decided<W, S>(
    lobby: LobbyView<W, S>,
    stats: Map<Seq<char>, Seq<MatchResult>>,
) -> LobbyView<W, S> {
    LobbyView { win_team: Some(winning_team(lobby.bots, stats)), ..lobby }
}

impl<'a, W> RequestsStep<'a, W> {
    /// All bots of the lobby are told which team is to win.
    pub open spec fn tells_win_team<S>(self, lobby: Lobby<W, S>) -> bool {
        match self {
            RequestsStep::WinTeam { message, writers } => lobby@.win_team is Some && message@
                == win_team_message(lobby@.win_team->0) && writers@.unref() == writers_in(
                lobby.bots.walk(),
            ) && distinct_keys(lobby.bots.walk()),
            _ => false,
        }
    }

    /// All bots of the lobby are told to leave.
    pub open spec fn tells_disconnect<S>(self, lobby: Lobby<W, S>) -> bool {
        match self {
            RequestsStep::Disconnect { message, writers } => message@ == "50"@ && writers@.unref()
                == writers_in(lobby.bots.walk()) && distinct_keys(lobby.bots.walk()),
            _ => false,
        }
    }
}

/// Names the team of a lobby that is to win, and says who is to be told.
pub fn distribute_ongoing_win_team<'a, W, S>(
    active_lobbies: &'a mut ActiveLobbies<W, S>,
    lobby_id: &str,
    bots_statistics: &BotsStatistics,
) -> (step: RequestsStep<'a, W>)
    requires
        old(active_lobbies)@.contains_key(lobby_id@),
        sides_known(old(active_lobbies)@[lobby_id@].bots),
    ensures
        final(active_lobbies)@ == old(active_lobbies)@.insert(
            lobby_id@,
            decided(old(active_lobbies)@[lobby_id@], bots_statistics@),
        ),
        step.tells_win_team(final(active_lobbies).lobbies@[lobby_id@]),
{
    let ghost before = active_lobbies@;
    let lobby = active_lobbies.lobbies.get_mut(lobby_id).unwrap();
    let win_team = compute_ongoing_win_team(lobby, bots_statistics);
    let message = name_win_team(win_team.as_str());
    lobby.ongoing_win_team = Some(win_team);
    proof {
        assert(active_lobbies@ =~= before.insert(
            lobby_id@,
            decided(before[lobby_id@], bots_statistics@),
        ));
    }
    let lobby = active_lobbies.lobbies.get(lobby_id).unwrap();
    RequestsStep::WinTeam { message, writers: lobby_writers(lobby) }
}

/// Decides on a lobby whose time for requests is over: where all have asked, the team that is to win
/// is named, else the bots are told to leave. The lobby stays.
pub fn send_in_game_parameters_timeout_verdict<'a, W, S>(
    active_lobbies: &'a mut ActiveLobbies<W, S>,
    lobby_id: &str,
    bots_statistics: &BotsStatistics,
) -> (step: RequestsStep<'a, W>)
    requires
        old(active_lobbies)@.contains_key(lobby_id@),
        all_asked(old(active_lobbies)@[lobby_id@]) ==> sides_known(
            old(active_lobbies)@[lobby_id@].bots,
        ),
    ensures
        if all_asked(old(active_lobbies)@[lobby_id@]) {
            final(active_lobbies)@ == old(active_lobbies)@.insert(
                lobby_id@,
                decided(old(active_lobbies)@[lobby_id@], bots_statistics@),
            ) && step.tells_win_team(final(active_lobbies).lobbies@[lobby_id@])
        } else {
            *final(active_lobbies) == *old(active_lobbies) && step.tells_disconnect(
                final(active_lobbies).lobbies@[lobby_id@],
            )
        },
{
    let lobby = active_lobbies.lobbies.get(lobby_id).unwrap();
    if lobby.in_game_parameters_requesting_fullness == 10 {
        distribute_ongoing_win_team(active_lobbies, lobby_id, bots_statistics)
    } else {
        let lobby = active_lobbies.lobbies.get(lobby_id).unwrap();
        RequestsStep::Disconnect {
            message: PRE_IN_GAME_DISCONNECT.to_owned(),
            writers: lobby_writers(lobby),
        }
    }
}

/// One step of the task that waits for the requests of a lobby's bots. Where its time is up, the
/// verdict is given. Where it is woken, it looks whether all have asked by now, and else waits on.
pub fn in_game_parameters_fullness_controller<'a, W, S>(
    active_lobbies: &'a mut ActiveLobbies<W, S>,
    lobby_id: &str,
    bots_statistics: &BotsStatistics,
    wake: Wake,
) -> (step: RequestsStep<'a, W>)
    requires
        wake !is Closed ==> old(active_lobbies)@.contains_key(lobby_id@),
        wake !is Closed && all_asked(old(active_lobbies)@[lobby_id@]) ==> sides_known(
            old(active_lobbies)@[lobby_id@].bots,
        ),
    ensures
        if wake is Closed {
            *final(active_lobbies) == *old(active_lobbies) && step is Stop
        } else if all_asked(old(active_lobbies)@[lobby_id@]) {
            final(active_lobbies)@ == old(active_lobbies)@.insert(
                lobby_id@,
                decided(old(active_lobbies)@[lobby_id@], bots_statistics@),
            ) && step.tells_win_team(final(active_lobbies).lobbies@[lobby_id@])
        } else {
            *final(active_lobbies) == *old(active_lobbies) && if wake is TimedOut {
                step.tells_disconnect(final(active_lobbies).lobbies@[lobby_id@])
            } else {
                step matches RequestsStep::WaitAnew { secs } && secs
                    == IN_GAME_PARAMETERS_FULL_WAIT_SECS
            }
        },
{
    match wake {
        Wake::TimedOut => send_in_game_parameters_timeout_verdict(
            active_lobbies,
            lobby_id,
            bots_statistics,
        ),
        Wake::Signalled => {
            let lobby = active_lobbies.lobbies.get(lobby_id).unwrap();
            if lobby.in_game_parameters_requesting_fullness == 10 {
                distribute_ongoing_win_team(active_lobbies, lobby_id, bots_statistics)
            } else {
                RequestsStep::WaitAnew { secs: IN_GAME_PARAMETERS_FULL_WAIT_SECS }
            }
        },
        Wake::Closed => RequestsStep::Stop,
    }
}

/// A message, and the bots that it is to be sent to.
#[derive(Debug)]
pub struct Broadcast<'a, W> {
    pub message: String,
    pub bots: Vec<(&'a String, &'a W)>,
}

/// Passes on what happened in a bot's game to all other bots of its lobby; there is nothing to pass
/// on where the lobby is not there.
pub fn serve_for_in_game_event<'a, W, S>(
    active_lobbies: &'a ActiveLobbies<W, S>,
    in_game_event: &InGameEvent,
) -> (broadcast: Option<Broadcast<'a, W>>)
    ensures
        match broadcast {
            Some(broadcast) => active_lobbies@.contains_key(in_game_event.lobby_id@)
                && broadcast.message@ == in_game_event_message(in_game_event.event@) && contacts_of(
                broadcast.bots@,
            ) == contacts_in(
                walk_except(
                    active_lobbies.lobbies@[in_game_event.lobby_id@].bots.walk(),
                    in_game_event.bot_number@,
                ),
            ) && distinct_keys(active_lobbies.lobbies@[in_game_event.lobby_id@].bots.walk()),
            None => !active_lobbies@.contains_key(in_game_event.lobby_id@),
        },
{
    match active_lobbies.lobbies.get(in_game_event.lobby_id.as_str()) {
        Some(lobby) => Some(
            Broadcast {
                message: pass_on_event(in_game_event.event.as_str()),
                bots: lobby_bots_except(lobby, in_game_event.bot_number.as_str()),
            },
        ),
        None => None,
    }
}

/// The lobbies once a bot has come back to one, on a side. A lobby that is not there is set up
/// first, with everything to hand out, and no task waits for it to fill up.
pub open spec fn rejoined<W, S>(
    lobbies: Map<Seq<char>, LobbyView<W, S>>,
    lobby_id: Seq<char>,
    bot_number: Seq<char>,
    side: Seq<char>,
    tcp_writer: W,
) -> Map<Seq<char>, LobbyView<W, S>> {
    let lobby = if lobbies.contains_key(lobby_id) {
        lobbies[lobby_id]
    } else {
        stocked(empty_lobby(None))
    };
    lobbies.insert(lobby_id, with_bot(lobby, bot_number, BotView { tcp_writer, side: Some(side) }))
}

/// Takes a bot back into a lobby.
pub fn serve_for_reconnect_handshake<W, S>(
    active_lobbies: &mut ActiveLobbies<W, S>,
    reconnect_handshake: ReconnectHandshake<W>,
)
    ensures
        final(active_lobbies)@ == rejoined(
            old(active_lobbies)@,
            reconnect_handshake.lobby_id@,
            reconnect_handshake.bot_number@,
            reconnect_handshake.side@,
            reconnect_handshake.tcp_writer,
        ),
{
    let ghost goal = rejoined(
        active_lobbies@,
        reconnect_handshake.lobby_id@,
        reconnect_handshake.bot_number@,
        reconnect_handshake.side@,
        reconnect_handshake.tcp_writer,
    );
    let ReconnectHandshake { lobby_id, bot_number, side, tcp_writer } = reconnect_handshake;
    if !active_lobbies.lobbies.contains_key(lobby_id.as_str()) {
        let mut lobby: Lobby<W, S> = Lobby::new(None);
        fully_init_lobby(&mut lobby);
        active_lobbies.lobbies.insert(lobby_id.clone(), lobby);
    }
    let lobby = active_lobbies.lobbies.get_mut(lobby_id.as_str()).unwrap();
    lobby.bots.insert(bot_number, Bot::new(tcp_writer, Some(side)));
    proof {
        assert(active_lobbies@[lobby_id@].bots =~= goal[lobby_id@].bots);
        assert(active_lobbies@ =~= goal);
    }
}

/// The numbers of the bots that a walk visits.
pub open spec fn numbers_in<W>(walk: Seq<(Seq<char>, Bot<W>)>) -> Seq<Seq<char>> {
    walk.map_values(|entry: (Seq<char>, Bot<W>)| entry.0)
}

/// What the people in charge are told of a game that was broken off.
pub open spec fn aborted_text(lobby_id: Seq<char>, numbers: Seq<Seq<char>>) -> Seq<char> {
    "Lobby "@ + lobby_id + " was aborted, included bots: ["@ + join(numbers, ","@) + "]"@
}

/// The numbers of all bots in a lobby.
fn lobby_numbers<W, S>(lobby: &Lobby<W, S>) -> (numbers: Vec<String>)
    ensures
        numbers.deep_view() == numbers_in(lobby.bots.walk()),
        distinct_keys(lobby.bots.walk()),
{
    let mut numbers: Vec<String> = Vec::new();
    let count: usize = lobby.bots.len();
    let mut i: usize = 0;
    while i < count
        invariant
            i <= count,
            count == lobby.bots.walk().len(),
            numbers@.len() == i,
            forall|j: int| 0 <= j < i ==> (#[trigger] numbers@[j])@ == lobby.bots.walk()[j].0,
        decreases count - i,
    {
        numbers.push(lobby.bots.key_at(i).clone());
        i += 1;
    }
    proof {
        assert(numbers.deep_view() =~= numbers_in(lobby.bots.walk()));
    }
    numbers
}

/// A lobby that is gone because its game was broken off: the message that its other bots are to be
/// sent, and what the people in charge are to be told.
#[derive(Debug)]
pub struct AbortedLobby<W, S> {
    pub lobby: Lobby<W, S>,
    pub message: &'static str,
    pub text: String,
}

/// Removes a lobby whose game was broken off. Where it is gone already, nothing is to be done.
pub fn serve_for_game_aborted<W, S>(
    active_lobbies: &mut ActiveLobbies<W, S>,
    game_aborted: &GameAborted,
) -> (aborted: Option<AbortedLobby<W, S>>)
    ensures
        final(active_lobbies)@ == old(active_lobbies)@.remove(game_aborted.lobby_id@),
        match aborted {
            Some(aborted) => old(active_lobbies)@.contains_key(game_aborted.lobby_id@)
                && aborted.lobby@ == old(active_lobbies)@[game_aborted.lobby_id@]
                && aborted.message@ == "70"@ && aborted.text@ == aborted_text(
                game_aborted.lobby_id@,
                numbers_in(aborted.lobby.bots.walk()),
            ) && distinct_keys(aborted.lobby.bots.walk()),
            None => !old(active_lobbies)@.contains_key(game_aborted.lobby_id@),
        },
{
    let ghost before = active_lobbies@;
    let removed = active_lobbies.lobbies.remove(game_aborted.lobby_id.as_str());
    proof {
        assert(active_lobbies@ =~= before.remove(game_aborted.lobby_id@));
    }
    match removed {
        Some(lobby) => {
            let mut text: String = "Lobby ".to_owned();
            text.append(game_aborted.lobby_id.as_str());
            text.append(" was aborted, included bots: [");
            let numbers = lobby_numbers(&lobby);
            text.append(join_texts(&numbers, ",").as_str());
            text.append("]");
            Some(AbortedLobby { lobby, message: GAME_ABORTED, text })
        },
        None => None,
    }
}

/// Says who is to be told that a game was broken off: all bots of the lobby but the one that reports
/// it.
pub fn tell_of_game_aborted<'a, W, S>(
    aborted: &'a AbortedLobby<W, S>,
    game_aborted: &GameAborted,
) -> (broadcast: Broadcast<'a, W>)
    ensures
        broadcast.message@ == aborted.message@,
        contacts_of(broadcast.bots@) == contacts_in(
            walk_except(aborted.lobby.bots.walk(), game_aborted.bot_number@),
        ),
        distinct_keys(aborted.lobby.bots.walk()),
{
    Broadcast {
        message: aborted.message.to_owned(),
        bots: lobby_bots_except(&aborted.lobby, game_aborted.bot_number.as_str()),
    }
}

/// A lobby that is gone because its game is over: the message that its other bots are to be sent,
/// and what the people in charge are to be told, if anything.
#[derive(Debug)]
pub struct EndedLobby<W, S> {
    pub lobby: Lobby<W, S>,
    pub message: &'static str,
    pub news: Option<String>,
}

/// It can be told who won a lobby's game.
pub open spec fn winner_known<W, S>(lobby: LobbyView<W, S>) -> bool {
    lobby.win_team is Some || sides_known(lobby.bots)
}

/// Removes a lobby whose game is over, and adds the match to the results of its bots and to the
/// minutes of the bot that reports it. Where the lobby is gone already, nothing changes.
pub fn serve_for_game_ended<W, S>(
    active_lobbies: &mut ActiveLobbies<W, S>,
    bots_statistics: &mut BotsStatistics,
    bots_play_time: &mut BotsPlayTime,
    game_ended: &GameEnded,
) -> (ended: Option<EndedLobby<W, S>>)
    requires
        old(active_lobbies)@.contains_key(game_ended.lobby_id@) ==> winner_known(
            old(active_lobbies)@[game_ended.lobby_id@],
        ),
    ensures
        final(active_lobbies)@ == old(active_lobbies)@.remove(game_ended.lobby_id@),
        match ended {
            Some(ended) => {
                let left = old(active_lobbies)@[game_ended.lobby_id@];
                let minutes = minutes_on(
                    final(bots_play_time)@,
                    game_ended.bot_number@,
                    game_ended.dota_id@,
                );
                &&& old(active_lobbies)@.contains_key(game_ended.lobby_id@)
                &&& ended.lobby@ == left
                &&& ended.message@ == in_game_event_message("0"@)
                &&& final(bots_statistics)@ == results_after(
                    left.bots,
                    old(bots_statistics)@,
                    team_of(left, old(bots_statistics)@),
                )
                &&& final(bots_play_time)@ == play_time_after(
                    old(bots_play_time)@,
                    game_ended.bot_number@,
                    game_ended.dota_id@,
                    game_ended.match_duration_secs,
                )
                &&& match ended.news {
                    Some(text) => is_milestone(minutes) && text@ == milestone_text(
                        game_ended.bot_number@,
                        game_ended.dota_id@,
                        minutes,
                    ),
                    None => !is_milestone(minutes),
                }
            },
            None => {
                &&& !old(active_lobbies)@.contains_key(game_ended.lobby_id@)
                &&& *final(bots_statistics) == *old(bots_statistics)
                &&& *final(bots_play_time) == *old(bots_play_time)
            },
        },
{
    let ghost before = active_lobbies@;
    let removed = active_lobbies.lobbies.remove(game_ended.lobby_id.as_str());
    proof {
        assert(active_lobbies@ =~= before.remove(game_ended.lobby_id@));
    }
    match removed {
        Some(lobby) => {
            update_bots_statistics_after_game(&lobby, bots_statistics);
            let news = update_bots_play_time_after_game(bots_play_time, game_ended);
            proof {
                law_game_ended_is_an_in_game_event();
            }
            Some(EndedLobby { lobby, message: GAME_ENDED, news })
        },
        None => None,
    }
}

/// Says who is to be told that a game is over: all bots of the lobby but the one that reports it.
pub fn tell_of_game_ended<'a, W, S>(
    ended: &'a EndedLobby<W, S>,
    game_ended: &GameEnded,
) -> (broadcast: Broadcast<'a, W>)
    ensures
        broadcast.message@ == ended.message@,
        contacts_of(broadcast.bots@) == contacts_in(
            walk_except(ended.lobby.bots.walk(), game_ended.bot_number@),
        ),
        distinct_keys(ended.lobby.bots.walk()),
{
    Broadcast {
        message: ended.message.to_owned(),
        bots: lobby_bots_except(&ended.lobby, game_ended.bot_number.as_str()),
    }
}

/// One of some bots is in a lobby.
pub open spec fn touched<W, S>(lobby: LobbyView<W, S>, affected: Seq<Seq<char>>) -> bool {
    exists|i: int| 0 <= i < affected.len() && lobby.bots.contains_key(#[trigger] affected[i])
}

/// The lobbies that none of some bots is in.
pub open spec fn untouched<W, S>(
    lobbies: Map<Seq<char>, LobbyView<W, S>>,
    affected: Seq<Seq<char>>,
) -> Map<Seq<char>, LobbyView<W, S>> {
    lobbies.remove_keys(
        lobbies.dom().filter(|lobby_id: Seq<char>| touched(lobbies[lobby_id], affected)),
    )
}

/// Whether one of some bots is in a lobby.
fn is_touched<W, S>(lobby: &Lobby<W, S>, affected_bots: &Vec<String>) -> (yes: bool)
    ensures
        yes == touched(lobby@, affected_bots.deep_view()),
{
    let ghost affected = affected_bots.deep_view();
    let mut i: usize = 0;
    while i < affected_bots.len()
        invariant
            i <= affected_bots@.len(),
            affected == affected_bots.deep_view(),
            forall|j: int| 0 <= j < i ==> !lobby@.bots.contains_key(#[trigger] affected[j]),
        decreases affected_bots@.len() - i,
    {
        assert(affected[i as int] == affected_bots@[i as int]@);
        if lobby.bots.contains_key(affected_bots[i].as_str()) {
            assert(lobby@.bots.contains_key(affected[i as int]));
            return true;
        }
        assert(!lobby@.bots.contains_key(affected[i as int]));
        i += 1;
    }
    false
}

/// Removes each lobby that one of the bots that are to end is in.
pub fn serve_for_user_termination_command<W, S>(
    active_lobbies: &mut ActiveLobbies<W, S>,
    affected_bots: &Vec<String>,
)
    ensures
        final(active_lobbies)@ == untouched(old(active_lobbies)@, affected_bots.deep_view()),
{
    let ghost start = active_lobbies.lobbies@;
    let ghost affected = affected_bots.deep_view();
    let mut i: usize = 0;
    let mut count: usize = active_lobbies.lobbies.len();
    while i < count
        invariant
            i <= count,
            count == active_lobbies.lobbies.walk().len(),
            distinct_keys(active_lobbies.lobbies.walk()),
            affected == affected_bots.deep_view(),
            forall|j: int|
                0 <= j < i ==> !touched(
                    (#[trigger] active_lobbies.lobbies.walk()[j]).1@,
                    affected,
                ),
            forall|key: Seq<char>| #[trigger]
                active_lobbies.lobbies@.contains_key(key) ==> start.contains_key(key)
                    && active_lobbies.lobbies@[key] == start[key],
            forall|key: Seq<char>| #[trigger]
                start.contains_key(key) && !active_lobbies.lobbies@.contains_key(key) ==> touched(
                    start[key]@,
                    affected,
                ),
        decreases count - i,
    {
        let ghost walk = active_lobbies.lobbies.walk();
        let ghost before = active_lobbies.lobbies@;
        proof {
            lemma_map_of_entry(walk, i as int);
        }
        if is_touched(active_lobbies.lobbies.value_at(i), affected_bots) {
            let _entry = active_lobbies.lobbies.remove_at(i);
            proof {
                lemma_map_of_remove(walk, i as int);
                assert(before.contains_key(walk[i as int].0));
            }
            count = active_lobbies.lobbies.len();
        } else {
            i += 1;
        }
    }
    proof {
        let walk = active_lobbies.lobbies.walk();
        let goal = untouched(old(active_lobbies)@, affected);
        assert forall|key: Seq<char>| active_lobbies@.contains_key(key) == goal.contains_key(
            key,
        ) by {
            if active_lobbies@.contains_key(key) {
                let at = lemma_map_of_position(walk, key);
                assert(!touched(walk[at].1@, affected));
            }
            if start.contains_key(key) && !active_lobbies.lobbies@.contains_key(key) {
                assert(touched(start[key]@, affected));
            }
        }
        assert(active_lobbies@ =~= goal);
    }
}

/// No step takes the pools of any lobby apart: lobbies that are set up, joined, filled, decided or
/// come back to, and those that stay when others go, have pools that go together.
pub proof fn law_steps_keep_pools_together<W, S>(
    lobbies: Map<Seq<char>, LobbyView<W, S>>,
    lobby_id: Seq<char>,
    bot_number: Seq<char>,
    side: Seq<char>,
    tcp_writer: W,
    signal: S,
    stats: Map<Seq<char>, Seq<MatchResult>>,
    affected: Seq<Seq<char>>,
)
    requires
        all_aligned(lobbies),
    ensures
        all_aligned(Map::<Seq<char>, LobbyView<W, S>>::empty()),
        all_aligned(joined(lobbies, lobby_id, bot_number, tcp_writer, signal)),
        all_aligned(rejoined(lobbies, lobby_id, bot_number, side, tcp_writer)),
        all_aligned(filled(lobbies, lobby_id)),
        lobbies.contains_key(lobby_id) ==> all_aligned(
            lobbies.insert(lobby_id, decided(lobbies[lobby_id], stats)),
        ),
        all_aligned(lobbies.remove(lobby_id)),
        all_aligned(untouched(lobbies, affected)),
{
    law_fresh_pools_go_together(lobbies[lobby_id], Some(signal));
    law_fresh_pools_go_together(empty_lobby::<W, S>(None), None::<S>);
    let decision = lobbies.insert(lobby_id, decided(lobbies[lobby_id], stats));
    if lobbies.contains_key(lobby_id) {
        assert(aligned(lobbies[lobby_id]));
        assert(aligned(decided(lobbies[lobby_id], stats)));
    }
    let after_join = joined(lobbies, lobby_id, bot_number, tcp_writer, signal);
    assert(aligned(after_join[lobby_id]));
    let after_rejoin = rejoined(lobbies, lobby_id, bot_number, side, tcp_writer);
    assert(aligned(after_rejoin[lobby_id]));
    let rest = untouched(lobbies, affected);
    assert forall|id: Seq<char>| #[trigger] rest.contains_key(id) implies aligned(rest[id]) by {
        assert(lobbies.contains_key(id));
    }
}

/// Each lobby has a bot in it.
pub open spec fn all_inhabited<W, S>(lobbies: Map<Seq<char>, LobbyView<W, S>>) -> bool {
    forall|lobby_id: Seq<char>| #[trigger]
        lobbies.contains_key(lobby_id) ==> exists|number: Seq<char>|
            lobbies[lobby_id].bots.contains_key(number)
}

/// No step leaves a lobby without a bot: a lobby begins with one, and bots leave it only together
/// with it.
pub proof fn law_steps_keep_lobbies_inhabited<W, S>(
    lobbies: Map<Seq<char>, LobbyView<W, S>>,
    lobby_id: Seq<char>,
    bot_number: Seq<char>,
    side: Seq<char>,
    tcp_writer: W,
    signal: S,
    grant: ParametersGrant,
    stats: Map<Seq<char>, Seq<MatchResult>>,
    affected: Seq<Seq<char>>,
)
    requires
        all_inhabited(lobbies),
    ensures
        all_inhabited(Map::<Seq<char>, LobbyView<W, S>>::empty()),
        all_inhabited(joined(lobbies, lobby_id, bot_number, tcp_writer, signal)),
        all_inhabited(rejoined(lobbies, lobby_id, bot_number, side, tcp_writer)),
        lobbies.contains_key(lobby_id) ==> all_inhabited(filled(lobbies, lobby_id)),
        lobbies.contains_key(lobby_id) ==> all_inhabited(
            lobbies.insert(
                lobby_id,
                grant.leaves(lobbies[lobby_id], bot_number, side, signal),
            ),
        ),
        lobbies.contains_key(lobby_id) ==> all_inhabited(
            lobbies.insert(lobby_id, decided(lobbies[lobby_id], stats)),
        ),
        all_inhabited(lobbies.remove(lobby_id)),
        all_inhabited(untouched(lobbies, affected)),
{
    let after_join = joined(lobbies, lobby_id, bot_number, tcp_writer, signal);
    assert(after_join[lobby_id].bots.contains_key(bot_number));
    let after_rejoin = rejoined(lobbies, lobby_id, bot_number, side, tcp_writer);
    assert(after_rejoin[lobby_id].bots.contains_key(bot_number));
    let left = grant.leaves(lobbies[lobby_id], bot_number, side, signal);
    assert(left.bots.contains_key(bot_number));
    if lobbies.contains_key(lobby_id) {
        let someone = choose|number: Seq<char>| lobbies[lobby_id].bots.contains_key(number);
        assert(filled(lobbies, lobby_id)[lobby_id].bots.contains_key(someone));
        assert(decided(lobbies[lobby_id], stats).bots.contains_key(someone));
    }
    let rest = untouched(lobbies, affected);
    assert forall|id: Seq<char>| #[trigger] rest.contains_key(id) implies exists|number: Seq<char>|
        rest[id].bots.contains_key(number) by {
        assert(lobbies.contains_key(id));
        let someone = choose|number: Seq<char>| lobbies[id].bots.contains_key(number);
        assert(rest[id].bots.contains_key(someone));
    }
}

/// A bot that reports a lobby again takes no second place in it.
pub proof fn law_bot_counts_once<W, S>(
    lobbies: Map<Seq<char>, LobbyView<W, S>>,
    lobby_id: Seq<char>,
    bot_number: Seq<char>,
    first_writer: W,
    first_signal: S,
    second_writer: W,
    second_signal: S,
)
    ensures
        ({
            let once = joined(lobbies, lobby_id, bot_number, first_writer, first_signal);
            let twice = joined(once, lobby_id, bot_number, second_writer, second_signal);
            &&& twice[lobby_id].bots.dom() == once[lobby_id].bots.dom()
            &&& twice[lobby_id].bots[bot_number].tcp_writer == second_writer
            &&& twice[lobby_id].lobby_signal == once[lobby_id].lobby_signal
        }),
{
    let once = joined(lobbies, lobby_id, bot_number, first_writer, first_signal);
    let twice = joined(once, lobby_id, bot_number, second_writer, second_signal);
    assert(twice[lobby_id].bots.dom() =~= once[lobby_id].bots.dom());
}

/// Of several reports that a lobby's game is over, or was broken off, the first is the one that
/// counts: after it the lobby is gone, and one more removal changes nothing.
pub proof fn law_first_report_counts<W, S>(
    lobbies: Map<Seq<char>, LobbyView<W, S>>,
    lobby_id: Seq<char>,
)
    ensures
        !lobbies.remove(lobby_id).contains_key(lobby_id),
        lobbies.remove(lobby_id).remove(lobby_id) == lobbies.remove(lobby_id),
{
    assert(lobbies.remove(lobby_id).remove(lobby_id) =~= lobbies.remove(lobby_id));
}

/// After a command to end some bots, no lobby has one of them; each lobby that had none of them
/// stays as it was, and the same command once more changes nothing.
pub proof fn law_terminated_bots_are_in_no_lobby<W, S>(
    lobbies: Map<Seq<char>, LobbyView<W, S>>,
    affected: Seq<Seq<char>>,
)
    ensures
        forall|lobby_id: Seq<char>, i: int|
            #![trigger untouched(lobbies, affected)[lobby_id], affected[i]]
            untouched(lobbies, affected).contains_key(lobby_id) && 0 <= i < affected.len()
                ==> !untouched(lobbies, affected)[lobby_id].bots.contains_key(affected[i]),
        forall|lobby_id: Seq<char>|
            #![trigger lobbies[lobby_id]]
            lobbies.contains_key(lobby_id) && !touched(lobbies[lobby_id], affected) ==> untouched(
                lobbies,
                affected,
            ).contains_key(lobby_id) && untouched(lobbies, affected)[lobby_id]
                == lobbies[lobby_id],
        untouched(untouched(lobbies, affected), affected) == untouched(lobbies, affected),
{
    let rest = untouched(lobbies, affected);
    assert forall|lobby_id: Seq<char>, i: int|
        #![trigger rest[lobby_id], affected[i]]
        rest.contains_key(lobby_id) && 0 <= i < affected.len() implies !rest[lobby_id].bots.contains_key(
        affected[i],
    ) by {
        assert(!touched(lobbies[lobby_id], affected));
    }
    assert(untouched(rest, affected) =~= rest);
}

/// A lobby that is put together again by bots that come back can tell who won: each of them brings
/// its side.
pub proof fn law_sides_come_back<W, S>(
    lobbies: Map<Seq<char>, LobbyView<W, S>>,
    lobby_id: Seq<char>,
    bot_number: Seq<char>,
    side: Seq<char>,
    tcp_writer: W,
)
    requires
        lobbies.contains_key(lobby_id) ==> sides_known(lobbies[lobby_id].bots),
    ensures
        ({
            let after = rejoined(lobbies, lobby_id, bot_number, side, tcp_writer);
            &&& sides_known(after[lobby_id].bots)
            &&& winner_known(after[lobby_id])
            &&& after[lobby_id].bots[bot_number].side == Some(side)
        }),
{
    let after = rejoined(lobbies, lobby_id, bot_number, side, tcp_writer);
    assert forall|number: Seq<char>| #[trigger]
        after[lobby_id].bots.contains_key(
        number,
    ) implies after[lobby_id].bots[number].side is Some by {
        if number != bot_number {
            assert(lobbies[lobby_id].bots.contains_key(number));
        }
    }
}

/// In a lobby that was found full, each bot can be given its in-game parameters on either side.
pub proof fn law_full_lobby_can_be_served<W, S>(
    lobbies: Map<Seq<char>, LobbyView<W, S>>,
    lobby_id: Seq<char>,
    bot_number: Seq<char>,
)
    requires
        full(lobbies, lobby_id),
        lobbies[lobby_id].bots.contains_key(bot_number),
    ensures
        can_grant(filled(lobbies, lobby_id), lobby_id, bot_number, "0"@),
        can_grant(filled(lobbies, lobby_id), lobby_id, bot_number, "1"@),
{
    reveal_strlit("0");
    reveal_strlit("1");
    assert("0"@[0] != "1"@[0]);
    assert(roles_left(side_roles()));
}

/// Either verdict on a lobby leaves all other lobbies as they are.
pub proof fn law_verdict_leaves_other_lobbies<W, S>(
    lobbies: Map<Seq<char>, LobbyView<W, S>>,
    lobby_id: Seq<char>,
    other: Seq<char>,
)
    requires
        other != lobby_id,
    ensures
        filled(lobbies, lobby_id).contains_key(other) == lobbies.contains_key(other),
        lobbies.contains_key(other) ==> filled(lobbies, lobby_id)[other] == lobbies[other],
        lobbies.remove(lobby_id).contains_key(other) == lobbies.contains_key(other),
        lobbies.contains_key(other) ==> lobbies.remove(lobby_id)[other] == lobbies[other],
{
}

/// Once each of the ten bots of a lobby has asked for its in-game parameters, all have asked, and the
/// team that is to win can be named.
pub proof fn law_ten_requests_complete_a_lobby<W, S>(
    lobby: LobbyView<W, S>,
    requests: Seq<(Seq<char>, Seq<char>, S)>,
)
    requires
        lobby.parameters_signal is None,
        requests.len() == LOBBY_SIZE,
        forall|number: Seq<char>| #[trigger]
            lobby.bots.contains_key(number) ==> exists|i: int|
                0 <= i < requests.len() && (#[trigger] requests[i]).0 == number,
        forall|i: int|
            0 <= i < requests.len() ==> lobby.bots.contains_key((#[trigger] requests[i]).0),
    ensures
        all_asked(after_requests(lobby, requests)),
        sides_known(after_requests(lobby, requests).bots),
        winner_known(after_requests(lobby, requests)),
{
    law_requests_are_counted(lobby, requests);
    law_all_who_ask_have_sides(lobby, requests);
}

/// In a lobby that was found full, and in which nobody had asked yet, the first five requests on
/// either side can all be served, in whatever order the requests of both sides come.
pub proof fn law_full_lobby_serves_five_a_side<W, S>(
    lobbies: Map<Seq<char>, LobbyView<W, S>>,
    lobby_id: Seq<char>,
    served: Seq<ServedRequest<S>>,
    bot_number: Seq<char>,
    side: Seq<char>,
)
    requires
        full(lobbies, lobby_id),
        lobbies[lobby_id].parameters_signal is None,
        lobbies[lobby_id].bots.contains_key(bot_number),
        served_in_turn(filled(lobbies, lobby_id)[lobby_id], served),
        side == "0"@ || side == "1"@,
        asked_on(served, side) < 5,
    ensures
        untouched_stock(filled(lobbies, lobby_id)[lobby_id]),
        aligned(after_served(filled(lobbies, lobby_id)[lobby_id], served)),
        can_grant(
            lobbies.insert(lobby_id, after_served(filled(lobbies, lobby_id)[lobby_id], served)),
            lobby_id,
            bot_number,
            side,
        ),
{
    let lobby = filled(lobbies, lobby_id)[lobby_id];
    assert(lobby =~= stocked(lobby));
    law_next_of_five_can_be_served(lobby, served, bot_number, side);
}

/// The lobbies under their ids are the ones that the map holds there.
pub proof fn law_active_lobbies_view<W, S>(active_lobbies: ActiveLobbies<W, S>, lobby_id: Seq<char>)
    ensures
        active_lobbies@.contains_key(lobby_id) == active_lobbies.lobbies@.contains_key(lobby_id),
        active_lobbies.lobbies@.contains_key(lobby_id) ==> active_lobbies@[lobby_id]
            == active_lobbies.lobbies@[lobby_id]@,
{
}

/// How long the two tasks of a lobby wait.
pub proof fn law_waiting_times()
    ensures
        LOBBY_FULL_WAIT_SECS == 15,
        IN_GAME_PARAMETERS_FULL_WAIT_SECS == 55,
        LOBBY_SIZE == 10,
{
}

/// A bot that finds a lobby is in it afterwards, on the connection of its report and on no side. A
/// lobby that was there keeps its other bots and all else; one that was not has this bot alone, nothing
/// to hand out, and the handle of this report. No other lobby changes.
pub proof fn law_finding_a_lobby_adds_one_bot<W, S>(
    lobbies: Map<Seq<char>, LobbyView<W, S>>,
    lobby_id: Seq<char>,
    bot_number: Seq<char>,
    tcp_writer: W,
    signal: S,
)
    ensures
        ({
            let after = joined(lobbies, lobby_id, bot_number, tcp_writer, signal);
            let lobby = after[lobby_id];
            &&& after.contains_key(lobby_id)
            &&& after.remove(lobby_id) == lobbies.remove(lobby_id)
            &&& lobby.bots.contains_key(bot_number)
            &&& lobby.bots[bot_number].tcp_writer == tcp_writer
            &&& lobby.bots[bot_number].side is None
            &&& lobbies.contains_key(lobby_id) ==> {
                let before = lobbies[lobby_id];
                &&& lobby.bots.remove(bot_number) == before.bots.remove(bot_number)
                &&& lobby.roles == before.roles
                &&& lobby.replays == before.replays
                &&& lobby.requests == before.requests
                &&& lobby.win_team == before.win_team
                &&& lobby.lobby_signal == before.lobby_signal
                &&& lobby.parameters_signal == before.parameters_signal
            }
            &&& !lobbies.contains_key(lobby_id) ==> {
                &&& lobby.bots.dom() == Set::empty().insert(bot_number)
                &&& lobby.roles.dom() == Set::<Seq<char>>::empty()
                &&& lobby.replays.dom() == Set::<Seq<char>>::empty()
                &&& lobby.requests == 0
                &&& lobby.win_team is None
                &&& lobby.lobby_signal == Some(signal)
                &&& lobby.parameters_signal is None
            }
        }),
{
    let after = joined(lobbies, lobby_id, bot_number, tcp_writer, signal);
    let lobby = after[lobby_id];
    assert(after.remove(lobby_id) =~= lobbies.remove(lobby_id));
    if lobbies.contains_key(lobby_id) {
        assert(lobby.bots.remove(bot_number) =~= lobbies[lobby_id].bots.remove(bot_number));
    } else {
        assert(lobby.bots.dom() =~= Set::empty().insert(bot_number));
        assert(lobby.roles.dom() =~= Set::<Seq<char>>::empty());
        assert(lobby.replays.dom() =~= Set::<Seq<char>>::empty());
    }
}

/// A bot that comes back is in its lobby afterwards, on the connection and the side of its report. A
/// lobby that was there keeps its other bots and all else; one that was not has this bot alone, the
/// full stock, and no handle. No other lobby changes.
pub proof fn law_coming_back_adds_one_bot<W, S>(
    lobbies: Map<Seq<char>, LobbyView<W, S>>,
    lobby_id: Seq<char>,
    bot_number: Seq<char>,
    side: Seq<char>,
    tcp_writer: W,
)
    ensures
        ({
            let after = rejoined(lobbies, lobby_id, bot_number, side, tcp_writer);
            let lobby = after[lobby_id];
            &&& after.contains_key(lobby_id)
            &&& after.remove(lobby_id) == lobbies.remove(lobby_id)
            &&& lobby.bots.contains_key(bot_number)
            &&& lobby.bots[bot_number].tcp_writer == tcp_writer
            &&& lobby.bots[bot_number].side == Some(side)
            &&& lobbies.contains_key(lobby_id) ==> {
                let before = lobbies[lobby_id];
                &&& lobby.bots.remove(bot_number) == before.bots.remove(bot_number)
                &&& lobby.roles == before.roles
                &&& lobby.replays == before.replays
                &&& lobby.requests == before.requests
                &&& lobby.win_team == before.win_team
                &&& lobby.lobby_signal == before.lobby_signal
                &&& lobby.parameters_signal == before.parameters_signal
            }
            &&& !lobbies.contains_key(lobby_id) ==> {
                &&& lobby.bots.dom() == Set::empty().insert(bot_number)
                &&& lobby.roles == stocked(lobby).roles
                &&& lobby.replays == stocked(lobby).replays
                &&& lobby.requests == 0
                &&& lobby.win_team is None
                &&& lobby.lobby_signal is None
                &&& lobby.parameters_signal is None
            }
        }),
{
    let after = rejoined(lobbies, lobby_id, bot_number, side, tcp_writer);
    let lobby = after[lobby_id];
    assert(after.remove(lobby_id) =~= lobbies.remove(lobby_id));
    if lobbies.contains_key(lobby_id) {
        assert(lobby.bots.remove(bot_number) =~= lobbies[lobby_id].bots.remove(bot_number));
    } else {
        assert(lobby.bots.dom() =~= Set::empty().insert(bot_number));
    }
}

/// A lobby is full exactly where ten bots are in it: one bot less or more, and it is not. A lobby
/// found full is stocked and otherwise stays, and so do all others.
pub proof fn law_ten_bots_fill_a_lobby<W, S>(
    lobbies: Map<Seq<char>, LobbyView<W, S>>,
    lobby_id: Seq<char>,
)
    ensures
        full(lobbies, lobby_id) == (lobbies.contains_key(lobby_id)
            && lobbies[lobby_id].bots.dom().len() == 10),
        filled(lobbies, lobby_id).contains_key(lobby_id),
        filled(lobbies, lobby_id).remove(lobby_id) == lobbies.remove(lobby_id),
        filled(lobbies, lobby_id)[lobby_id] == stocked(lobbies[lobby_id]),
{
    assert(filled(lobbies, lobby_id).remove(lobby_id) =~= lobbies.remove(lobby_id));
}

/// The verdict on a full lobby goes, as `11`, to the connection of each of its bots, once; the other
/// verdict, `10`, comes with the lobby that is gone.
pub proof fn law_verdicts_reach_all_bots<W, S>(
    step: LobbyStep<W, S>,
    lobby: Lobby<W, S>,
    left: LobbyView<W, S>,
)
    ensures
        step.tells_full(lobby) ==> (step matches LobbyStep::Full { message, writers } && message@
            == seq!['1', '1'] && writers@.len() == lobby.bots.walk().len() && (forall|i: int|
            0 <= i < writers@.len() ==> *(#[trigger] writers@[i])
                == lobby.bots.walk()[i].1.tcp_writer) && distinct_keys(lobby.bots.walk())),
        step.tells_not_full(left) ==> (step matches LobbyStep::NotFull { message, lobby: gone }
            && message@ == seq!['1', '0'] && gone@ == left),
{
    reveal_strlit("11");
    reveal_strlit("10");
    assert("11"@ =~= seq!['1', '1']);
    assert("10"@ =~= seq!['1', '0']);
    if step.tells_full(lobby) {
        match step {
            LobbyStep::Full { message, writers } => {
                let all = writers_in(lobby.bots.walk());
                assert(writers@.unref().len() == all.len());
                assert forall|i: int| 0 <= i < writers@.len() implies *(#[trigger] writers@[i])
                    == lobby.bots.walk()[i].1.tcp_writer by {
                    assert(writers@.unref()[i] == all[i]);
                }
            },
            _ => {},
        }
    }
}

/// All have asked exactly where ten requests were counted. The team that is to win is then the one
/// that the results name, and nothing else in the lobby changes.
pub proof fn law_tenth_request_decides<W, S>(
    lobby: LobbyView<W, S>,
    stats: Map<Seq<char>, Seq<MatchResult>>,
)
    ensures
        all_asked(lobby) == (lobby.requests == 10),
        decided(lobby, stats).win_team == Some(winning_team(lobby.bots, stats)),
        decided(lobby, stats).bots == lobby.bots,
        decided(lobby, stats).roles == lobby.roles,
        decided(lobby, stats).replays == lobby.replays,
        decided(lobby, stats).requests == lobby.requests,
        decided(lobby, stats).lobby_signal == lobby.lobby_signal,
        decided(lobby, stats).parameters_signal == lobby.parameters_signal,
{
}

/// The team that is to win is told, after a `4`, and the demand to leave, as `50`, on the connection
/// of each bot of the lobby, once.
pub proof fn law_decisions_reach_all_bots<W, S>(step: RequestsStep<W>, lobby: Lobby<W, S>)
    ensures
        step.tells_win_team(lobby) ==> (step matches RequestsStep::WinTeam { message, writers }
            && lobby@.win_team is Some && message@ == seq!['4'] + lobby@.win_team->0
            && writers@.len() == lobby.bots.walk().len() && (forall|i: int|
            0 <= i < writers@.len() ==> *(#[trigger] writers@[i])
                == lobby.bots.walk()[i].1.tcp_writer) && distinct_keys(lobby.bots.walk())),
        step.tells_disconnect(lobby) ==> (step matches RequestsStep::Disconnect { message, writers }
            && message@ == seq!['5', '0'] && writers@.len() == lobby.bots.walk().len() && (forall|
            i: int,
        |
            0 <= i < writers@.len() ==> *(#[trigger] writers@[i])
                == lobby.bots.walk()[i].1.tcp_writer) && distinct_keys(lobby.bots.walk())),
{
    reveal_strlit("4");
    reveal_strlit("50");
    assert("4"@ =~= seq!['4']);
    assert("50"@ =~= seq!['5', '0']);
    let all = writers_in(lobby.bots.walk());
    match step {
        RequestsStep::WinTeam { message, writers } => {
            if step.tells_win_team(lobby) {
                assert(writers@.unref().len() == all.len());
                assert forall|i: int| 0 <= i < writers@.len() implies *(#[trigger] writers@[i])
                    == lobby.bots.walk()[i].1.tcp_writer by {
                    assert(writers@.unref()[i] == all[i]);
                }
            }
        },
        RequestsStep::Disconnect { message, writers } => {
            if step.tells_disconnect(lobby) {
                assert(writers@.unref().len() == all.len());
                assert forall|i: int| 0 <= i < writers@.len() implies *(#[trigger] writers@[i])
                    == lobby.bots.walk()[i].1.tcp_writer by {
                    assert(writers@.unref()[i] == all[i]);
                }
            }
        },
        _ => {},
    }
}

/// A request can be met exactly where its lobby is there with its bot, and each stage of its side,
/// of which there is one, has a role left.
pub proof fn law_requests_that_can_be_met<W, S>(
    lobbies: Map<Seq<char>, LobbyView<W, S>>,
    lobby_id: Seq<char>,
    bot_number: Seq<char>,
    side: Seq<char>,
)
    ensures
        can_grant(lobbies, lobby_id, bot_number, side) <==> {
            &&& lobbies.contains_key(lobby_id)
            &&& lobbies[lobby_id].bots.contains_key(bot_number)
            &&& lobbies[lobby_id].roles.contains_key(side)
            &&& lobbies[lobby_id].roles[side].len() > 0
            &&& forall|stage: int|
                0 <= stage < lobbies[lobby_id].roles[side].len()
                    ==> (#[trigger] lobbies[lobby_id].roles[side][stage]).len() > 0
        },
{
}

/// It can be told who won exactly where a team was named or no bot lacks a side.
pub proof fn law_when_the_winner_is_known<W, S>(lobby: LobbyView<W, S>)
    ensures
        winner_known(lobby) <==> (lobby.win_team is Some || forall|number: Seq<char>| #[trigger]
            lobby.bots.contains_key(number) ==> lobby.bots[number].side is Some),
{
}

/// What is told of a broken-off game names the lobby and, between commas, each of its bots.
pub proof fn law_aborted_text_names_the_bots<W>(
    lobby_id: Seq<char>,
    walk: Seq<(Seq<char>, Bot<W>)>,
    i: int,
)
    ensures
        aborted_text(lobby_id, numbers_in(walk)) == "Lobby "@ + lobby_id
            + " was aborted, included bots: ["@ + join(numbers_in(walk), seq![',']) + "]"@,
        numbers_in(walk).len() == walk.len(),
        0 <= i < walk.len() ==> numbers_in(walk)[i] == walk[i].0,
{
    reveal_strlit(",");
    assert(","@ =~= seq![',']);
}

/// A command to end some bots goes by the bots alone: a lobby stays, as it was, exactly where none of
/// its bots is on the list, whatever else the lobby is at.
pub proof fn law_lobbies_without_terminated_bots_stay<W, S>(
    lobbies: Map<Seq<char>, LobbyView<W, S>>,
    affected: Seq<Seq<char>>,
    lobby_id: Seq<char>,
)
    ensures
        lobbies.contains_key(lobby_id) && (forall|number: Seq<char>| #[trigger]
            lobbies[lobby_id].bots.contains_key(number) ==> !affected.contains(number))
            ==> untouched(lobbies, affected).contains_key(lobby_id),
        untouched(lobbies, affected).contains_key(lobby_id) ==> lobbies.contains_key(lobby_id)
            && untouched(lobbies, affected)[lobby_id] == lobbies[lobby_id],
        forall|number: Seq<char>| #[trigger]
            lobbies[lobby_id].bots.contains_key(number) && affected.contains(number)
                ==> !untouched(lobbies, affected).contains_key(lobby_id),
{
    if lobbies.contains_key(lobby_id) && (forall|number: Seq<char>| #[trigger]
        lobbies[lobby_id].bots.contains_key(number) ==> !affected.contains(number)) {
        assert(!touched(lobbies[lobby_id], affected)) by {
            if touched(lobbies[lobby_id], affected) {
                let i = choose|i: int|
                    0 <= i < affected.len() && lobbies[lobby_id].bots.contains_key(
                        #[trigger] affected[i],
                    );
                assert(affected.contains(affected[i]));
            }
        }
    }
    assert forall|number: Seq<char>| #[trigger]
        lobbies[lobby_id].bots.contains_key(number) && affected.contains(
            number,
        ) implies !untouched(lobbies, affected).contains_key(lobby_id) by {
        let i = choose|i: int| 0 <= i < affected.len() && affected[i] == number;
        assert(lobbies[lobby_id].bots.contains_key(affected[i]));
        assert(touched(lobbies[lobby_id], affected));
    }
}

} // verus!
