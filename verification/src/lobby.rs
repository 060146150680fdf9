//! Lobbies, the bots in them, and what they have left to hand out.
use crate::string_map::{
    distinct_keys, lemma_map_of_entry, lemma_map_of_position, map_of, StringMap,
};
use crate::text::same_text;
use vstd::prelude::*;

verus! {

/// How many bots fill a lobby.
pub const LOBBY_SIZE: usize = 10;

/// A bot in a lobby: the connection that it is reached on, and its side, once that is known.
#[derive(Debug)]
pub struct Bot<W> {
    pub tcp_writer: W,
    pub side: Option<String>,
}

/// What a bot in a lobby is.
pub struct BotView<W> {
    pub tcp_writer: W,
    pub side: Option<Seq<char>>,
}

/// The characters of a text that may be absent.
pub open spec fn optional_text(text: Option<String>) -> Option<Seq<char>> {
    match text {
        Some(text) => Some(text@),
        None => None,
    }
}

impl<W> View for Bot<W> {
    type V = BotView<W>;

    open spec fn view(&self) -> BotView<W> {
        BotView { tcp_writer: self.tcp_writer, side: optional_text(self.side) }
    }
}

impl<W> Bot<W> {
    pub fn new(tcp_writer: W, side: Option<String>) -> (bot: Self)
        ensures
            bot.tcp_writer == tcp_writer,
            bot.side == side,
    {
        Bot { tcp_writer, side }
    }
}

/// A lobby: its bots, the roles and the starter replays that each side has left, how many bots
/// have asked for their in-game parameters, the team that is to win, and the handles by which the
/// two tasks that wait for the lobby are woken.
#[derive(Debug)]
pub struct Lobby<W, S> {
    pub bots: StringMap<Bot<W>>,
    pub roles_remaining: StringMap<Vec<Vec<&'static str>>>,
    pub starter_replays_numbers_remaining: StringMap<StringMap<Vec<&'static str>>>,
    pub in_game_parameters_requesting_fullness: u8,
    pub ongoing_win_team: Option<String>,
    pub lobby_fullness_controller_sender: Option<S>,
    pub in_game_parameters_fullness_controller_sender: Option<S>,
}

/// What a lobby is. Under each side, `roles` has one pool per stage, and `replays` one pool per
/// role.
#[verifier::ext_equal]
pub struct LobbyView<W, S> {
    pub bots: Map<Seq<char>, BotView<W>>,
    pub roles: Map<Seq<char>, Seq<Seq<Seq<char>>>>,
    pub replays: Map<Seq<char>, Map<Seq<char>, Seq<Seq<char>>>>,
    pub requests: u8,
    pub win_team: Option<Seq<char>>,
    pub lobby_signal: Option<S>,
    pub parameters_signal: Option<S>,
}

/// The bots under their numbers.
pub open spec fn bots_of<W>(bots: Map<Seq<char>, Bot<W>>) -> Map<Seq<char>, BotView<W>> {
    bots.map_values(|bot: Bot<W>| bot@)
}

/// The role pools under their sides.
pub open spec fn roles_of(pools: Map<Seq<char>, Vec<Vec<&'static str>>>) -> Map<
    Seq<char>,
    Seq<Seq<Seq<char>>>,
> {
    pools.map_values(|stages: Vec<Vec<&'static str>>| stages.deep_view())
}

/// The starter replay pools of one side under their roles.
pub open spec fn side_replays_of(pools: Map<Seq<char>, Vec<&'static str>>) -> Map<
    Seq<char>,
    Seq<Seq<char>>,
> {
    pools.map_values(|pool: Vec<&'static str>| pool.deep_view())
}

/// The starter replay pools under their sides and roles.
pub open spec fn replays_of(pools: Map<Seq<char>, StringMap<Vec<&'static str>>>) -> Map<
    Seq<char>,
    Map<Seq<char>, Seq<Seq<char>>>,
> {
    pools.map_values(|side: StringMap<Vec<&'static str>>| side_replays_of(side@))
}

impl<W, S> View for Lobby<W, S> {
    type V = LobbyView<W, S>;

    open spec fn view(&self) -> LobbyView<W, S> {
        LobbyView {
            bots: bots_of(self.bots@),
            roles: roles_of(self.roles_remaining@),
            replays: replays_of(self.starter_replays_numbers_remaining@),
            requests: self.in_game_parameters_requesting_fullness,
            win_team: optional_text(self.ongoing_win_team),
            lobby_signal: self.lobby_fullness_controller_sender,
            parameters_signal: self.in_game_parameters_fullness_controller_sender,
        }
    }
}

/// A lobby without bots and with nothing to hand out.
pub open spec fn empty_lobby<W, S>(lobby_signal: Option<S>) -> LobbyView<W, S> {
    LobbyView {
        bots: Map::empty(),
        roles: Map::empty(),
        replays: Map::empty(),
        requests: 0,
        win_team: None,
        lobby_signal,
        parameters_signal: None,
    }
}

/// The roles that one stage has to hand out on one side.
pub open spec fn stage_roles() -> Seq<Seq<char>> {
    seq!["0"@, "1"@, "2"@, "1"@, "2"@]
}

/// The roles that one side has to hand out, stage by stage.
pub open spec fn side_roles() -> Seq<Seq<Seq<char>>> {
    seq![stage_roles(), stage_roles()]
}

/// The starter replays that one side has to hand out, by role.
pub open spec fn side_replays() -> Map<Seq<char>, Seq<Seq<char>>> {
    Map::empty().insert("0"@, seq!["1"@]).insert("1"@, seq!["1"@, "2"@]).insert(
        "2"@,
        seq!["1"@, "2"@],
    )
}

/// The same for both sides.
pub open spec fn both_sides<T>(side: T) -> Map<Seq<char>, T> {
    Map::empty().insert("0"@, side).insert("1"@, side)
}

/// A lobby with everything to hand out on both sides.
pub open spec fn stocked<W, S>(lobby: LobbyView<W, S>) -> LobbyView<W, S> {
    LobbyView {
        roles: both_sides(side_roles()),
        replays: both_sides(side_replays()),
        ..lobby
    }
}

impl<W, S> Lobby<W, S> {
    pub fn new(lobby_fullness_controller_sender: Option<S>) -> (lobby: Self)
        ensures
            lobby@ == empty_lobby::<W, S>(lobby_fullness_controller_sender),
    {
        let lobby = Lobby {
            bots: StringMap::new(),
            roles_remaining: StringMap::new(),
            starter_replays_numbers_remaining: StringMap::new(),
            in_game_parameters_requesting_fullness: 0,
            ongoing_win_team: None,
            lobby_fullness_controller_sender,
            in_game_parameters_fullness_controller_sender: None,
        };
        proof {
            let empty = empty_lobby::<W, S>(lobby_fullness_controller_sender);
            assert(lobby@.bots =~= empty.bots);
            assert(lobby@.roles =~= empty.roles);
            assert(lobby@.replays =~= empty.replays);
        }
        lobby
    }
}

/// The roles of one stage.
pub fn roles_pool_for_stage() -> (pool: Vec<&'static str>)
    ensures
        pool.deep_view() == stage_roles(),
{
    let pool: Vec<&'static str> = vec!["0", "1", "2", "1", "2"];
    assert(pool.deep_view() =~= stage_roles());
    pool
}

/// The roles of one side, stage by stage.
pub fn roles_remaining_for_side() -> (pools: Vec<Vec<&'static str>>)
    ensures
        pools.deep_view() == side_roles(),
{
    let pools: Vec<Vec<&'static str>> = vec![roles_pool_for_stage(), roles_pool_for_stage()];
    assert(pools.deep_view() =~= side_roles());
    pools
}

/// The starter replays of one side, by role.
pub fn starter_replay_pool_for_side() -> (pools: StringMap<Vec<&'static str>>)
    ensures
        side_replays_of(pools@) == side_replays(),
{
    let mut pools: StringMap<Vec<&'static str>> = StringMap::new();
    let zero: Vec<&'static str> = vec!["1"];
    let one: Vec<&'static str> = vec!["1", "2"];
    let two: Vec<&'static str> = vec!["1", "2"];
    proof {
        assert(zero.deep_view() =~= seq!["1"@]);
        assert(one.deep_view() =~= seq!["1"@, "2"@]);
        assert(two.deep_view() =~= seq!["1"@, "2"@]);
    }
    pools.insert("0".to_owned(), zero);
    pools.insert("1".to_owned(), one);
    pools.insert("2".to_owned(), two);
    assert(side_replays_of(pools@) =~= side_replays());
    pools
}

/// Gives a lobby everything to hand out on both sides; its bots and the rest stay as they are.
pub fn fully_init_lobby<W, S>(lobby: &mut Lobby<W, S>)
    ensures
        final(lobby)@ == stocked(old(lobby)@),
        final(lobby).bots == old(lobby).bots,
{
    let mut roles: StringMap<Vec<Vec<&'static str>>> = StringMap::new();
    roles.insert("0".to_owned(), roles_remaining_for_side());
    roles.insert("1".to_owned(), roles_remaining_for_side());
    let mut replays: StringMap<StringMap<Vec<&'static str>>> = StringMap::new();
    replays.insert("0".to_owned(), starter_replay_pool_for_side());
    replays.insert("1".to_owned(), starter_replay_pool_for_side());
    proof {
        assert(roles_of(roles@) =~= both_sides(side_roles()));
        assert(replays_of(replays@) =~= both_sides(side_replays()));
    }
    lobby.roles_remaining = roles;
    lobby.starter_replays_numbers_remaining = replays;
}

/// The entries of a walk over a lobby's bots, but for one bot.
pub open spec fn walk_except<W>(walk: Seq<(Seq<char>, Bot<W>)>, except: Seq<char>) -> Seq<
    (Seq<char>, Bot<W>),
> {
    walk.filter(|entry: (Seq<char>, Bot<W>)| entry.0 != except)
}

/// The connections of the bots that a walk visits.
pub open spec fn writers_in<W>(walk: Seq<(Seq<char>, Bot<W>)>) -> Seq<W> {
    walk.map_values(|entry: (Seq<char>, Bot<W>)| entry.1.tcp_writer)
}

/// The numbers and connections of the bots that a walk visits.
pub open spec fn contacts_in<W>(walk: Seq<(Seq<char>, Bot<W>)>) -> Seq<(Seq<char>, W)> {
    walk.map_values(|entry: (Seq<char>, Bot<W>)| (entry.0, entry.1.tcp_writer))
}

/// Numbers and connections, the numbers by their characters.
pub open spec fn contacts_of<W>(bots: Seq<(&String, &W)>) -> Seq<(Seq<char>, W)> {
    bots.map_values(|bot: (&String, &W)| (bot.0@, *bot.1))
}

/// The connections of all bots in a lobby, each once.
pub fn lobby_writers<W, S>(lobby: &Lobby<W, S>) -> (writers: Vec<&W>)
    ensures
        writers@.unref() == writers_in(lobby.bots.walk()),
        writers@.len() == lobby@.bots.len(),
        distinct_keys(lobby.bots.walk()),
{
    let mut writers: Vec<&W> = Vec::new();
    let count: usize = lobby.bots.len();
    let ghost walk = lobby.bots.walk();
    let mut i: usize = 0;
    while i < count
        invariant
            i <= count,
            count == walk.len(),
            walk == lobby.bots.walk(),
            writers@.len() == i,
            forall|j: int| 0 <= j < i ==> *(#[trigger] writers@[j]) == walk[j].1.tcp_writer,
        decreases count - i,
    {
        let bot = lobby.bots.value_at(i);
        writers.push(&bot.tcp_writer);
        i += 1;
    }
    proof {
        assert(lobby@.bots.dom() =~= lobby.bots@.dom());
        assert(writers@.unref() =~= writers_in(walk));
    }
    writers
}

/// The numbers and connections of all bots in a lobby but one, in the order of the walk.
pub fn lobby_bots_except<'a, W, S>(lobby: &'a Lobby<W, S>, except_bot_number: &str) -> (bots: Vec<
    (&'a String, &'a W),
>)
    ensures
        contacts_of(bots@) == contacts_in(walk_except(lobby.bots.walk(), except_bot_number@)),
        distinct_keys(lobby.bots.walk()),
{
    let mut bots: Vec<(&'a String, &'a W)> = Vec::new();
    let count: usize = lobby.bots.len();
    let ghost walk = lobby.bots.walk();
    let ghost view = |bot: (&String, &W)| (bot.0@, *bot.1);
    let ghost pick = |entry: (Seq<char>, Bot<W>)| (entry.0, entry.1.tcp_writer);
    let ghost keep = |entry: (Seq<char>, Bot<W>)| entry.0 != except_bot_number@;
    let mut i: usize = 0;
    proof {
        assert(walk.take(0) =~= Seq::<(Seq<char>, Bot<W>)>::empty());
        reveal(Seq::filter);
        assert(bots@.map_values(view) =~= walk.take(0).filter(keep).map_values(pick));
    }
    while i < count
        invariant
            i <= count,
            count == walk.len(),
            walk == lobby.bots.walk(),
            view == (|bot: (&String, &W)| (bot.0@, *bot.1)),
            pick == (|entry: (Seq<char>, Bot<W>)| (entry.0, entry.1.tcp_writer)),
            keep == (|entry: (Seq<char>, Bot<W>)| entry.0 != except_bot_number@),
            bots@.map_values(view) == walk.take(i as int).filter(keep).map_values(pick),
        decreases count - i,
    {
        let ghost before = bots@;
        let ghost entry = walk[i as int];
        let number = lobby.bots.key_at(i);
        let bot = lobby.bots.value_at(i);
        proof {
            reveal(Seq::filter);
            assert(walk.take(i + 1).drop_last() =~= walk.take(i as int));
            assert(walk.take(i + 1).last() == entry);
        }
        if !same_text(number.as_str(), except_bot_number) {
            bots.push((number, &bot.tcp_writer));
            proof {
                assert(bots@.map_values(view) =~= before.map_values(view).push(pick(entry)));
                assert(walk.take(i as int).filter(keep).push(entry).map_values(pick)
                    =~= walk.take(i as int).filter(keep).map_values(pick).push(pick(entry)));
            }
        }
        i += 1;
    }
    proof {
        assert(walk.take(i as int) =~= walk);
    }
    bots
}

/// Where all bots of a lobby are told of something, each of them is told, and none twice.
pub proof fn law_all_are_told<W>(walk: Seq<(Seq<char>, Bot<W>)>, number: Seq<char>)
    requires
        distinct_keys(walk),
        map_of(walk).contains_key(number),
    ensures
        exists|i: int|
            0 <= i < walk.len() && walk[i] == (number, map_of(walk)[number]) && writers_in(walk)[i]
                == map_of(walk)[number].tcp_writer,
        forall|i: int, j: int|
            0 <= i < walk.len() && 0 <= j < walk.len() && (#[trigger] walk[i]).0 == number && (
            #[trigger] walk[j]).0 == number ==> i == j,
{
    let at = lemma_map_of_position(walk, number);
    assert(walk[at] == (number, map_of(walk)[number]));
    assert(writers_in(walk)[at] == map_of(walk)[number].tcp_writer);
}

/// Of the bots of a lobby all but one are told of something: the one is not among them, each other
/// bot is, and none is there twice.
pub proof fn law_all_others_are_told<W>(walk: Seq<(Seq<char>, Bot<W>)>, except: Seq<char>)
    requires
        distinct_keys(walk),
    ensures
        distinct_keys(walk_except(walk, except)),
        forall|i: int|
            0 <= i < walk_except(walk, except).len() ==> (#[trigger] walk_except(walk, except)[i]).0
                != except,
        forall|i: int|
            0 <= i < walk_except(walk, except).len() ==> walk.contains(
                #[trigger] walk_except(walk, except)[i],
            ),
        forall|i: int|
            0 <= i < walk.len() && (#[trigger] walk[i]).0 != except ==> walk_except(
                walk,
                except,
            ).contains(walk[i]),
    decreases walk.len(),
{
    let keep = |entry: (Seq<char>, Bot<W>)| entry.0 != except;
    let kept = walk_except(walk, except);
    reveal(Seq::filter);
    if walk.len() > 0 {
        let init = walk.drop_last();
        let last = walk.last();
        assert forall|i: int, j: int| 0 <= i < init.len() && 0 <= j < init.len() && i != j implies (
        #[trigger] init[i]).0 != (#[trigger] init[j]).0 by {
            assert(walk[i] == init[i] && walk[j] == init[j]);
        }
        law_all_others_are_told(init, except);
        let kept_init = walk_except(init, except);
        assert forall|i: int| 0 <= i < kept_init.len() implies walk.contains(
            #[trigger] kept_init[i],
        ) && kept_init[i].0 != last.0 by {
            assert(init.contains(kept_init[i]));
            let at = choose|at: int| 0 <= at < init.len() && init[at] == kept_init[i];
            assert(walk[at] == kept_init[i]);
            assert(walk[walk.len() - 1] == last);
        }
        assert(walk[walk.len() - 1] == last);
        if keep(last) {
            assert(kept == kept_init.push(last));
            assert(kept[kept.len() - 1] == last);
        } else {
            assert(kept == kept_init);
        }
        assert forall|i: int|
            0 <= i < walk.len() && (#[trigger] walk[i]).0 != except implies kept.contains(
            walk[i],
        ) by {
            if i < init.len() {
                assert(init[i] == walk[i]);
                let at = choose|at: int| 0 <= at < kept_init.len() && kept_init[at] == init[i];
                assert(kept[at] == walk[i]);
            }
        }
    }
}

/// Each bot of a lobby but the one left out, whatever its side, is among the contacts with its number
/// and its connection; nobody else is; the one left out is not; and there are as many contacts as
/// there are such bots.
pub proof fn law_contacts_are_all_others<W>(walk: Seq<(Seq<char>, Bot<W>)>, except: Seq<char>)
    requires
        distinct_keys(walk),
    ensures
        forall|i: int|
            0 <= i < walk.len() && (#[trigger] walk[i]).0 != except ==> contacts_in(
                walk_except(walk, except),
            ).contains((walk[i].0, walk[i].1.tcp_writer)),
        forall|i: int|
            0 <= i < contacts_in(walk_except(walk, except)).len() ==> (#[trigger] contacts_in(
                walk_except(walk, except),
            )[i]).0 != except,
        forall|i: int|
            0 <= i < contacts_in(walk_except(walk, except)).len() ==> map_of(walk).contains_key(
                (#[trigger] contacts_in(walk_except(walk, except))[i]).0,
            ) && map_of(walk)[contacts_in(walk_except(walk, except))[i].0].tcp_writer
                == contacts_in(walk_except(walk, except))[i].1,
        contacts_in(walk_except(walk, except)).len() == if map_of(walk).contains_key(except) {
            walk.len() - 1
        } else {
            walk.len() as int
        },
{
    law_all_others_are_told(walk, except);
    let kept = walk_except(walk, except);
    let contacts = contacts_in(kept);
    assert forall|i: int|
        0 <= i < walk.len() && (#[trigger] walk[i]).0 != except implies contacts.contains(
        (walk[i].0, walk[i].1.tcp_writer),
    ) by {
        assert(kept.contains(walk[i]));
        let at = choose|at: int| 0 <= at < kept.len() && kept[at] == walk[i];
        assert(contacts[at] == (walk[i].0, walk[i].1.tcp_writer));
    }
    assert forall|i: int| 0 <= i < contacts.len() implies map_of(walk).contains_key(
        (#[trigger] contacts[i]).0,
    ) && map_of(walk)[contacts[i].0].tcp_writer == contacts[i].1 by {
        assert(walk.contains(kept[i]));
        let j = choose|j: int| 0 <= j < walk.len() && walk[j] == kept[i];
        lemma_map_of_entry(walk, j);
    }
    lemma_others_are_one_fewer(walk, except);
}

/// Leaving a bot out of a walk leaves one entry out where the walk visits the bot, and none else.
proof fn lemma_others_are_one_fewer<W>(walk: Seq<(Seq<char>, Bot<W>)>, except: Seq<char>)
    requires
        distinct_keys(walk),
    ensures
        walk_except(walk, except).len() == if map_of(walk).contains_key(except) {
            walk.len() - 1
        } else {
            walk.len() as int
        },
    decreases walk.len(),
{
    reveal(Seq::filter);
    if walk.len() > 0 {
        let init = walk.drop_last();
        let last = walk.last();
        assert(last == walk[walk.len() - 1]);
        assert forall|i: int, j: int| 0 <= i < init.len() && 0 <= j < init.len() && i != j implies (
        #[trigger] init[i]).0 != (#[trigger] init[j]).0 by {
            assert(walk[i] == init[i] && walk[j] == init[j]);
        }
        lemma_others_are_one_fewer(init, except);
        if map_of(init).contains_key(except) {
            let at = lemma_map_of_position(init, except);
            assert(walk[at] == init[at]);
            lemma_map_of_entry(walk, at);
            assert(last.0 != except);
        } else if last.0 == except {
            lemma_map_of_entry(walk, walk.len() - 1);
        } else if map_of(walk).contains_key(except) {
            let at = lemma_map_of_position(walk, except);
            assert(init[at] == walk[at]);
            lemma_map_of_entry(init, at);
        }
    } else if map_of(walk).contains_key(except) {
        let at = lemma_map_of_position(walk, except);
    }
}

/// Contacts that are given out, and those of a walk, are taken one by one: none is left out, added or
/// changed.
pub proof fn law_contacts_one_by_one<W>(
    walk: Seq<(Seq<char>, Bot<W>)>,
    bots: Seq<(&String, &W)>,
    i: int,
)
    ensures
        contacts_in(walk).len() == walk.len(),
        writers_in(walk).len() == walk.len(),
        contacts_of(bots).len() == bots.len(),
        0 <= i < walk.len() ==> contacts_in(walk)[i] == (walk[i].0, walk[i].1.tcp_writer),
        0 <= i < walk.len() ==> writers_in(walk)[i] == walk[i].1.tcp_writer,
        0 <= i < bots.len() ==> contacts_of(bots)[i].0 == bots[i].0@ && contacts_of(bots)[i].1
            == *bots[i].1,
{
}

/// Putting a bot into a lobby, or a pool under a side, is seen in the lobby's view as such, and only
/// there: the view shows each bot, each role and each starter replay as the lobby holds it.
pub proof fn law_lobby_view<W, S>(lobby: Lobby<W, S>, key: Seq<char>)
    ensures
        lobby@.bots.contains_key(key) == lobby.bots@.contains_key(key),
        lobby.bots@.contains_key(key) ==> lobby@.bots[key].tcp_writer
            == lobby.bots@[key].tcp_writer,
        lobby.bots@.contains_key(key) ==> lobby@.bots[key].side is Some
            == lobby.bots@[key].side is Some,
        lobby.bots@.contains_key(key) && lobby.bots@[key].side is Some
            ==> lobby@.bots[key].side->0 == lobby.bots@[key].side->0@,
        lobby@.roles.contains_key(key) == lobby.roles_remaining@.contains_key(key),
        lobby.roles_remaining@.contains_key(key) ==> lobby@.roles[key].len()
            == lobby.roles_remaining@[key]@.len(),
        lobby.roles_remaining@.contains_key(key) ==> forall|stage: int, place: int|
            #![trigger lobby.roles_remaining@[key]@[stage]@[place]]
            0 <= stage < lobby.roles_remaining@[key]@.len() && 0 <= place
                < lobby.roles_remaining@[key]@[stage]@.len() ==> lobby@.roles[key][stage].len()
                == lobby.roles_remaining@[key]@[stage]@.len() && lobby@.roles[key][stage][place]
                == lobby.roles_remaining@[key]@[stage]@[place]@,
        lobby@.replays.contains_key(key) == lobby.starter_replays_numbers_remaining@.contains_key(
            key,
        ),
        lobby.starter_replays_numbers_remaining@.contains_key(key) ==> lobby@.replays[key].dom()
            == lobby.starter_replays_numbers_remaining@[key]@.dom(),
        lobby.starter_replays_numbers_remaining@.contains_key(key) ==> forall|
            role: Seq<char>,
            place: int,
        |
            #![trigger lobby.starter_replays_numbers_remaining@[key]@[role]@[place]]
            lobby.starter_replays_numbers_remaining@[key]@.contains_key(role) && 0 <= place
                < lobby.starter_replays_numbers_remaining@[key]@[role]@.len()
                ==> lobby@.replays[key][role].len()
                == lobby.starter_replays_numbers_remaining@[key]@[role]@.len()
                && lobby@.replays[key][role][place]
                == lobby.starter_replays_numbers_remaining@[key]@[role]@[place]@,
        lobby@.requests == lobby.in_game_parameters_requesting_fullness,
        lobby@.win_team is Some == lobby.ongoing_win_team is Some,
        lobby.ongoing_win_team is Some ==> lobby@.win_team->0 == lobby.ongoing_win_team->0@,
        lobby@.lobby_signal == lobby.lobby_fullness_controller_sender,
        lobby@.parameters_signal == lobby.in_game_parameters_fullness_controller_sender,
{
    if lobby.starter_replays_numbers_remaining@.contains_key(key) {
        assert(lobby@.replays[key].dom()
            =~= lobby.starter_replays_numbers_remaining@[key]@.dom());
    }
}

/// A new lobby has no bot, nothing to hand out, no request and no team, and is woken by the handle
/// that it was given.
pub proof fn law_new_lobby_is_empty<W, S>(signal: Option<S>, key: Seq<char>)
    ensures
        !empty_lobby::<W, S>(signal).bots.contains_key(key),
        !empty_lobby::<W, S>(signal).roles.contains_key(key),
        !empty_lobby::<W, S>(signal).replays.contains_key(key),
        empty_lobby::<W, S>(signal).requests == 0,
        empty_lobby::<W, S>(signal).win_team is None,
        empty_lobby::<W, S>(signal).lobby_signal == signal,
        empty_lobby::<W, S>(signal).parameters_signal is None,
{
}

/// Whatever a lobby had to hand out, once it is stocked each of the two sides, and no other, has the
/// mid lane once and the hard and the easy lane twice in each of two stages, and for each of these
/// roles as many starter replays, numbered from one. Nothing else in the lobby changes.
pub proof fn law_stock_is_complete<W, S>(lobby: LobbyView<W, S>, side: Seq<char>, role: Seq<char>)
    ensures
        stocked(lobby).roles.contains_key(side) == (side == seq!['0'] || side == seq!['1']),
        stocked(lobby).replays.contains_key(side) == (side == seq!['0'] || side == seq!['1']),
        stocked(lobby).roles.contains_key(side) ==> {
            let lanes = seq![seq!['0'], seq!['1'], seq!['2'], seq!['1'], seq!['2']];
            let replays = stocked(lobby).replays[side];
            &&& stocked(lobby).roles[side] == seq![lanes, lanes]
            &&& replays.contains_key(role) == lanes.contains(role)
            &&& role == seq!['0'] ==> replays[role] == seq![seq!['1']]
            &&& role == seq!['1'] || role == seq!['2'] ==> replays[role] == seq![
                seq!['1'],
                seq!['2'],
            ]
        },
        stocked(lobby).bots == lobby.bots,
        stocked(lobby).requests == lobby.requests,
        stocked(lobby).win_team == lobby.win_team,
        stocked(lobby).lobby_signal == lobby.lobby_signal,
        stocked(lobby).parameters_signal == lobby.parameters_signal,
{
    reveal_strlit("0");
    reveal_strlit("1");
    reveal_strlit("2");
    assert("0"@ =~= seq!['0']);
    assert("1"@ =~= seq!['1']);
    assert("2"@ =~= seq!['2']);
    assert(seq!['0'][0] == '0' && seq!['1'][0] == '1' && seq!['2'][0] == '2');
    let lanes = seq![seq!['0'], seq!['1'], seq!['2'], seq!['1'], seq!['2']];
    assert(stage_roles() =~= lanes);
    assert(side_roles() =~= seq![lanes, lanes]);
    assert(lanes[0] == seq!['0'] && lanes[1] == seq!['1'] && lanes[2] == seq!['2']);
    assert(lanes.contains(seq!['0']) && lanes.contains(seq!['1']) && lanes.contains(seq!['2']));
    assert(side_replays()[seq!['0']] =~= seq![seq!['1']]);
    assert(side_replays()[seq!['1']] =~= seq![seq!['1'], seq!['2']]);
    assert(side_replays()[seq!['2']] =~= seq![seq!['1'], seq!['2']]);
}

} // verus!
