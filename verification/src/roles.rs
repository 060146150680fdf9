//! Handing out roles and starter replays to the bots of a side.
use crate::draw::pick_index;
use crate::lobby::{
    bots_of, empty_lobby, replays_of, roles_of, side_replays, side_replays_of, side_roles,
    stage_roles, stocked, BotView, Lobby, LobbyView,
};
use crate::statistics::sides_known;
use crate::text::{join, join_texts};
use vstd::prelude::*;

verus! {

/// One place is picked in each stage's pool.
pub open spec fn picks_fit(pools: Seq<Seq<Seq<char>>>, picks: Seq<usize>) -> bool {
    &&& picks.len() == pools.len()
    &&& forall|i: int| 0 <= i < picks.len() ==> (#[trigger] picks[i]) < pools[i].len()
}

/// There is a stage, and each stage has a role left.
pub open spec fn roles_left(pools: Seq<Seq<Seq<char>>>) -> bool {
    &&& pools.len() > 0
    &&& forall|i: int| 0 <= i < pools.len() ==> (#[trigger] pools[i]).len() > 0
}

/// The roles at the picked places, stage by stage.
pub open spec fn picked_roles(pools: Seq<Seq<Seq<char>>>, picks: Seq<usize>) -> Seq<Seq<char>> {
    Seq::new(pools.len(), |i: int| pools[i][picks[i] as int])
}

/// What the stages have left once the picked roles are gone.
pub open spec fn pools_without(pools: Seq<Seq<Seq<char>>>, picks: Seq<usize>) -> Seq<
    Seq<Seq<char>>,
> {
    Seq::new(pools.len(), |i: int| pools[i].remove(picks[i] as int))
}

/// The message that tells a bot its roles.
pub open spec fn roles_message(roles: Seq<Seq<char>>) -> Seq<char> {
    "2"@ + join(roles, ","@)
}

/// The message that tells a bot its starter replay.
pub open spec fn starter_replay_message(number: Seq<char>) -> Seq<char> {
    "3"@ + number
}

/// The roles that a bot is given: the picked places as pairs of stage and place, the role of the
/// first stage, and the message that tells the bot.
#[derive(Debug, PartialEq, Eq)]
pub struct RoleGrant {
    pub picked: Vec<(usize, usize)>,
    pub primary_role: String,
    pub message: String,
}

impl RoleGrant {
    /// The places picked, stage by stage.
    pub open spec fn picks(self) -> Seq<usize> {
        self.picked@.map_values(|pair: (usize, usize)| pair.1)
    }

    /// The grant gives the roles that stand at the picked places.
    pub open spec fn gives(self, pools: Seq<Seq<Seq<char>>>, picks: Seq<usize>) -> bool {
        &&& self.picked@ == Seq::new(picks.len(), |i: int| (i as usize, picks[i]))
        &&& self.picks() == picks
        &&& self.primary_role@ == picked_roles(pools, picks)[0]
        &&& self.message@ == roles_message(picked_roles(pools, picks))
    }
}

/// The grant for given places.
pub fn roles_at(stage_pools: &Vec<Vec<&'static str>>, picks: &Vec<usize>) -> (grant: RoleGrant)
    requires
        roles_left(stage_pools.deep_view()),
        picks_fit(stage_pools.deep_view(), picks@),
    ensures
        grant.gives(stage_pools.deep_view(), picks@),
{
    let ghost pools = stage_pools.deep_view();
    let mut roles_for_bot: Vec<String> = Vec::new();
    let mut picked: Vec<(usize, usize)> = Vec::new();
    let mut stage: usize = 0;
    while stage < stage_pools.len()
        invariant
            stage <= stage_pools@.len(),
            pools == stage_pools.deep_view(),
            picks_fit(pools, picks@),
            roles_for_bot@.len() == stage,
            picked@.len() == stage,
            forall|i: int|
                0 <= i < stage ==> (#[trigger] roles_for_bot@[i])@ == pools[i][picks@[i] as int],
            forall|i: int| 0 <= i < stage ==> #[trigger] picked@[i] == (i as usize, picks@[i]),
        decreases stage_pools@.len() - stage,
    {
        let place: usize = picks[stage];
        let pool = &stage_pools[stage];
        proof {
            assert(pools[stage as int] == pool.deep_view());
            assert(picks@[stage as int] < pools[stage as int].len());
            assert(pool.deep_view()[place as int] == pool@[place as int]@);
        }
        let role: &'static str = pool[place];
        roles_for_bot.push(role.to_owned());
        picked.push((stage, place));
        stage += 1;
    }
    let mut message: String = "2".to_owned();
    message.append(join_texts(&roles_for_bot, ",").as_str());
    let primary_role = roles_for_bot[0].clone();
    let grant = RoleGrant { picked, primary_role, message };
    proof {
        assert(roles_for_bot.deep_view() =~= picked_roles(pools, picks@));
        assert(grant.picks() =~= picks@);
        assert(grant.picked@ =~= Seq::new(picks@.len(), |i: int| (i as usize, picks@[i])));
    }
    grant
}

/// Draws a place in each stage's pool.
fn draw_picks(stage_pools: &Vec<Vec<&'static str>>) -> (picks: Vec<usize>)
    requires
        roles_left(stage_pools.deep_view()),
    ensures
        picks_fit(stage_pools.deep_view(), picks@),
{
    let ghost pools = stage_pools.deep_view();
    let mut picks: Vec<usize> = Vec::new();
    let mut stage: usize = 0;
    while stage < stage_pools.len()
        invariant
            stage <= stage_pools@.len(),
            pools == stage_pools.deep_view(),
            roles_left(pools),
            picks@.len() == stage,
            forall|i: int| 0 <= i < stage ==> (#[trigger] picks@[i]) < pools[i].len(),
        decreases stage_pools@.len() - stage,
    {
        let pool = &stage_pools[stage];
        assert(pools[stage as int] == pool.deep_view());
        picks.push(pick_index(pool.len()));
        stage += 1;
    }
    picks
}

/// Gives a bot one role of each stage, drawn by chance.
pub fn give_roles_to_bot(stage_pools: &Vec<Vec<&'static str>>) -> (grant: RoleGrant)
    requires
        roles_left(stage_pools.deep_view()),
    ensures
        picks_fit(stage_pools.deep_view(), grant.picks()),
        grant.gives(stage_pools.deep_view(), grant.picks()),
{
    let picks = draw_picks(stage_pools);
    roles_at(stage_pools, &picks)
}

/// Takes the picked roles out of the pools.
fn take_out(stage_pools: &mut Vec<Vec<&'static str>>, picked: &Vec<(usize, usize)>, picks: Ghost<
    Seq<usize>,
>)
    requires
        picks_fit(old(stage_pools).deep_view(), picks@),
        picked@ == Seq::new(picks@.len(), |i: int| (i as usize, picks@[i])),
    ensures
        final(stage_pools).deep_view() == pools_without(old(stage_pools).deep_view(), picks@),
{
    let ghost pools = stage_pools.deep_view();
    let ghost goal = pools_without(pools, picks@);
    let mut done: usize = 0;
    while done < picked.len()
        invariant
            done <= picked@.len(),
            picked@ == Seq::new(picks@.len(), |i: int| (i as usize, picks@[i])),
            picks_fit(pools, picks@),
            goal == pools_without(pools, picks@),
            stage_pools@.len() == pools.len(),
            forall|i: int| 0 <= i < done ==> (#[trigger] stage_pools@[i]).deep_view() == goal[i],
            forall|i: int|
                done <= i < pools.len() ==> (#[trigger] stage_pools@[i]).deep_view() == pools[i],
        decreases picked@.len() - done,
    {
        let (stage, place) = picked[done];
        proof {
            assert(picks@[done as int] < pools[done as int].len());
            assert(stage_pools@[done as int].deep_view() == pools[done as int]);
        }
        let ghost before = stage_pools@[done as int];
        let _ = stage_pools[stage].remove(place);
        proof {
            assert(stage_pools@[done as int].deep_view() =~= before.deep_view().remove(
                place as int,
            ));
        }
        done += 1;
    }
    proof {
        assert(stage_pools.deep_view() =~= goal);
    }
}

/// Whether a side of a lobby has a role left in each stage.
pub fn has_roles_left<W, S>(lobby: &Lobby<W, S>, side: &str) -> (left: bool)
    ensures
        left == (lobby@.roles.contains_key(side@) && roles_left(lobby@.roles[side@])),
{
    match lobby.roles_remaining.get(side) {
        Some(stage_pools) => {
            let ghost pools = stage_pools.deep_view();
            assert(lobby@.roles[side@] == pools);
            let mut stage: usize = 0;
            while stage < stage_pools.len()
                invariant
                    stage <= stage_pools@.len(),
                    pools == stage_pools.deep_view(),
                    pools == lobby@.roles[side@],
                    forall|i: int| 0 <= i < stage ==> (#[trigger] pools[i]).len() > 0,
                decreases stage_pools@.len() - stage,
            {
                assert(pools[stage as int] == stage_pools@[stage as int].deep_view());
                if stage_pools[stage].len() == 0 {
                    return false;
                }
                stage += 1;
            }
            stage_pools.len() > 0
        },
        None => false,
    }
}

/// Hands out, on one side of a lobby, the roles at given places.
pub fn hand_out_roles<W, S>(lobby: &mut Lobby<W, S>, side: &str, picks: &Vec<usize>) -> (grant:
    RoleGrant)
    requires
        old(lobby)@.roles.contains_key(side@),
        roles_left(old(lobby)@.roles[side@]),
        picks_fit(old(lobby)@.roles[side@], picks@),
    ensures
        grant.gives(old(lobby)@.roles[side@], picks@),
        final(lobby)@ == (LobbyView {
            roles: old(lobby)@.roles.insert(
                side@,
                pools_without(old(lobby)@.roles[side@], picks@),
            ),
            ..old(lobby)@
        }),
        final(lobby).bots == old(lobby).bots,
{
    let stage_pools = lobby.roles_remaining.get_mut(side).unwrap();
    let grant = roles_at(stage_pools, picks);
    take_out(stage_pools, &grant.picked, Ghost(picks@));
    proof {
        assert(roles_of(lobby.roles_remaining@) =~= old(lobby)@.roles.insert(
            side@,
            pools_without(old(lobby)@.roles[side@], picks@),
        ));
    }
    grant
}

/// Hands out, on one side of a lobby, one role of each stage, drawn by chance; the pools lose
/// exactly the roles given.
pub fn roles_distributor<W, S>(lobby: &mut Lobby<W, S>, side: &str) -> (grant: RoleGrant)
    requires
        old(lobby)@.roles.contains_key(side@),
        roles_left(old(lobby)@.roles[side@]),
    ensures
        picks_fit(old(lobby)@.roles[side@], grant.picks()),
        grant.gives(old(lobby)@.roles[side@], grant.picks()),
        final(lobby)@ == (LobbyView {
            roles: old(lobby)@.roles.insert(
                side@,
                pools_without(old(lobby)@.roles[side@], grant.picks()),
            ),
            ..old(lobby)@
        }),
        final(lobby).bots == old(lobby).bots,
{
    let stage_pools = lobby.roles_remaining.get(side).unwrap();
    assert(lobby@.roles[side@] == stage_pools.deep_view());
    let picks = draw_picks(stage_pools);
    hand_out_roles(lobby, side, &picks)
}

/// The starter replay that a bot is given: its place in the pool, and the message that tells the
/// bot.
#[derive(Debug, PartialEq, Eq)]
pub struct ReplayGrant {
    pub place: usize,
    pub message: String,
}

/// A side of a lobby has a starter replay left for a role.
pub open spec fn replay_left<W, S>(lobby: LobbyView<W, S>, side: Seq<char>, role: Seq<char>) -> bool {
    &&& lobby.replays.contains_key(side)
    &&& lobby.replays[side].contains_key(role)
    &&& lobby.replays[side][role].len() > 0
}

/// A lobby once the starter replay at a place is gone.
pub open spec fn without_replay<W, S>(
    lobby: LobbyView<W, S>,
    side: Seq<char>,
    role: Seq<char>,
    place: int,
) -> LobbyView<W, S> {
    LobbyView {
        replays: lobby.replays.insert(
            side,
            lobby.replays[side].insert(role, lobby.replays[side][role].remove(place)),
        ),
        ..lobby
    }
}

/// Hands out, for a role on one side of a lobby, the starter replay at a given place.
pub fn hand_out_starter_replay<W, S>(
    lobby: &mut Lobby<W, S>,
    side: &str,
    primary_role: &str,
    place: usize,
) -> (grant: ReplayGrant)
    requires
        replay_left(old(lobby)@, side@, primary_role@),
        place < old(lobby)@.replays[side@][primary_role@].len(),
    ensures
        grant.place == place,
        grant.message@ == starter_replay_message(
            old(lobby)@.replays[side@][primary_role@][place as int],
        ),
        final(lobby)@ == without_replay(old(lobby)@, side@, primary_role@, place as int),
        final(lobby).bots == old(lobby).bots,
{
    let ghost before = lobby@;
    let side_pools = lobby.starter_replays_numbers_remaining.get_mut(side).unwrap();
    let ghost pools_before = side_pools@;
    let pool = side_pools.get_mut(primary_role).unwrap();
    let ghost pool_before = *pool;
    proof {
        assert(before.replays[side@] == side_replays_of(pools_before));
        assert(before.replays[side@][primary_role@] == pool_before.deep_view());
        assert(pool_before.deep_view()[place as int] == pool_before@[place as int]@);
    }
    let starter_replay_number: &'static str = pool[place];
    let mut message: String = "3".to_owned();
    message.append(starter_replay_number);
    let _ = pool.remove(place);
    proof {
        let side_after = lobby.starter_replays_numbers_remaining@[side@];
        let pool_after = side_after@[primary_role@];
        assert(pool_after.deep_view() =~= pool_before.deep_view().remove(place as int));
        assert(side_replays_of(side_after@) =~= side_replays_of(pools_before).insert(
            primary_role@,
            pool_before.deep_view().remove(place as int),
        ));
        assert(replays_of(lobby.starter_replays_numbers_remaining@) =~= without_replay(
            before,
            side@,
            primary_role@,
            place as int,
        ).replays);
    }
    ReplayGrant { place, message }
}

/// Hands out, for a role on one side of a lobby, a starter replay drawn by chance; its pool loses
/// exactly that one.
pub fn starter_replays_numbers_distributor<W, S>(
    lobby: &mut Lobby<W, S>,
    side: &str,
    primary_role: &str,
) -> (grant: ReplayGrant)
    requires
        replay_left(old(lobby)@, side@, primary_role@),
    ensures
        grant.place < old(lobby)@.replays[side@][primary_role@].len(),
        grant.message@ == starter_replay_message(
            old(lobby)@.replays[side@][primary_role@][grant.place as int],
        ),
        final(lobby)@ == without_replay(old(lobby)@, side@, primary_role@, grant.place as int),
        final(lobby).bots == old(lobby).bots,
{
    let side_pools = lobby.starter_replays_numbers_remaining.get(side).unwrap();
    let pool = side_pools.get(primary_role).unwrap();
    assert(lobby@.replays[side@][primary_role@] == pool.deep_view());
    let place: usize = pick_index(pool.len());
    hand_out_starter_replay(lobby, side, primary_role, place)
}

/// How often a role stands in a pool.
pub open spec fn role_count(pool: Seq<Seq<char>>, role: Seq<char>) -> nat {
    pool.to_multiset().count(role)
}

/// How many starter replays are left for a role.
pub open spec fn replay_count(replays: Map<Seq<char>, Seq<Seq<char>>>, role: Seq<char>) -> nat {
    if replays.contains_key(role) {
        replays[role].len()
    } else {
        0
    }
}

/// A side's pools go together: there is a stage, all stages have the same number of roles left,
/// and for each role as many starter replays are left as the first stage has of that role.
pub open spec fn side_aligned(
    pools: Seq<Seq<Seq<char>>>,
    replays: Map<Seq<char>, Seq<Seq<char>>>,
) -> bool {
    &&& pools.len() > 0
    &&& forall|i: int| 0 <= i < pools.len() ==> (#[trigger] pools[i]).len() == pools[0].len()
    &&& forall|role: Seq<char>| #[trigger]
        role_count(pools[0], role) == replay_count(replays, role)
}

/// The pools of each side go together.
pub open spec fn aligned<W, S>(lobby: LobbyView<W, S>) -> bool {
    &&& forall|side: Seq<char>| #[trigger]
        lobby.roles.contains_key(side) <==> lobby.replays.contains_key(side)
    &&& forall|side: Seq<char>| #[trigger]
        lobby.roles.contains_key(side) ==> side_aligned(lobby.roles[side], lobby.replays[side])
}

/// What a side starts with goes together.
proof fn lemma_stock_aligned()
    ensures
        side_aligned(side_roles(), side_replays()),
{
    broadcast use vstd::seq_lib::group_to_multiset_ensures;
    broadcast use vstd::multiset::group_multiset_axioms;

    reveal_strlit("0");
    reveal_strlit("1");
    reveal_strlit("2");
    let zero = "0"@;
    let one = "1"@;
    let two = "2"@;
    assert(zero[0] == '0' && one[0] == '1' && two[0] == '2');
    let pool = stage_roles();
    let none = Seq::<Seq<char>>::empty();
    assert(pool =~= none.push(zero).push(one).push(two).push(one).push(two));
    assert forall|role: Seq<char>| #[trigger]
        role_count(pool, role) == replay_count(side_replays(), role) by {
        assert(none.to_multiset().count(role) == 0);
    }
}

/// A new lobby and a lobby with everything to hand out have pools that go together.
pub proof fn law_fresh_pools_go_together<W, S>(lobby: LobbyView<W, S>, signal: Option<S>)
    ensures
        aligned(empty_lobby::<W, S>(signal)),
        aligned(stocked(lobby)),
{
    lemma_stock_aligned();
    let both = stocked(lobby);
    assert forall|side: Seq<char>| #[trigger] both.roles.contains_key(side) implies side_aligned(
        both.roles[side],
        both.replays[side],
    ) by {
        assert(both.roles[side] == side_roles());
        assert(both.replays[side] == side_replays());
    }
}

/// Where the pools go together, a role that the first stage still has comes with a starter replay.
pub proof fn law_each_role_has_its_replay<W, S>(
    lobby: LobbyView<W, S>,
    side: Seq<char>,
    picks: Seq<usize>,
)
    requires
        aligned(lobby),
        lobby.roles.contains_key(side),
        roles_left(lobby.roles[side]),
        picks_fit(lobby.roles[side], picks),
    ensures
        replay_left(lobby, side, picked_roles(lobby.roles[side], picks)[0]),
{
    broadcast use vstd::seq_lib::group_to_multiset_ensures;

    let pool = lobby.roles[side][0];
    let role = pool[picks[0] as int];
    assert(pool.contains(role));
    assert(role_count(pool, role) > 0);
}

/// Handing out roles and then a starter replay for the first of them keeps the pools together.
pub proof fn law_handing_out_keeps_pools_together<W, S>(
    lobby: LobbyView<W, S>,
    side: Seq<char>,
    picks: Seq<usize>,
    place: int,
)
    requires
        aligned(lobby),
        lobby.roles.contains_key(side),
        roles_left(lobby.roles[side]),
        picks_fit(lobby.roles[side], picks),
        0 <= place < lobby.replays[side][picked_roles(lobby.roles[side], picks)[0]].len(),
    ensures
        aligned(handed_out(lobby, side, picks, place)),
{
    broadcast use vstd::seq_lib::group_to_multiset_ensures;
    broadcast use vstd::multiset::group_multiset_axioms;

    let pools = lobby.roles[side];
    let replays = lobby.replays[side];
    let role = picked_roles(pools, picks)[0];
    law_each_role_has_its_replay(lobby, side, picks);
    let after = handed_out(lobby, side, picks, place);
    assert(picks[0] < pools[0].len());
    assert(after.roles[side] == pools_without(pools, picks));
    let pools_after = after.roles[side];
    let replays_after = after.replays[side];
    assert(pools_after[0] == pools[0].remove(picks[0] as int));
    assert(side_aligned(pools_after, replays_after)) by {
        assert forall|i: int| 0 <= i < pools_after.len() implies (#[trigger] pools_after[i]).len()
            == pools_after[0].len() by {
            assert(pools[i].len() == pools[0].len());
            assert(picks[i] < pools[i].len());
        }
        assert forall|other: Seq<char>| #[trigger]
            role_count(pools_after[0], other) == replay_count(replays_after, other) by {
            assert(role_count(pools[0], other) == replay_count(replays, other));
            assert(pools_after[0].to_multiset() == pools[0].to_multiset().remove(role));
        }
    }
    assert forall|other: Seq<char>| #[trigger] after.roles.contains_key(other) implies side_aligned(
        after.roles[other],
        after.replays[other],
    ) by {
        if other != side {
            assert(lobby.roles.contains_key(other));
        }
    }
    assert forall|other: Seq<char>| #[trigger]
        after.roles.contains_key(other) <==> after.replays.contains_key(other) by {
        assert(lobby.roles.contains_key(other) <==> lobby.replays.contains_key(other));
        assert(lobby.roles.contains_key(side) <==> lobby.replays.contains_key(side));
    }
}

/// A lobby once roles, and a starter replay for the first of them, are handed out.
pub open spec fn handed_out<W, S>(
    lobby: LobbyView<W, S>,
    side: Seq<char>,
    picks: Seq<usize>,
    place: int,
) -> LobbyView<W, S> {
    without_replay(
        LobbyView {
            roles: lobby.roles.insert(side, pools_without(lobby.roles[side], picks)),
            ..lobby
        },
        side,
        picked_roles(lobby.roles[side], picks)[0],
        place,
    )
}

/// The next count of requests, which begins again at zero after 255.
pub open spec fn next_count(count: u8) -> u8 {
    if count == u8::MAX {
        0
    } else {
        (count + 1) as u8
    }
}

/// A lobby once a bot has asked for its in-game parameters on a side: the bot's side is known, and
/// the request is counted. The first request of all sets the handle that later ones keep.
pub open spec fn requested<W, S>(
    lobby: LobbyView<W, S>,
    bot_number: Seq<char>,
    side: Seq<char>,
    signal: S,
) -> LobbyView<W, S> {
    LobbyView {
        bots: lobby.bots.insert(
            bot_number,
            BotView { side: Some(side), ..lobby.bots[bot_number] },
        ),
        requests: if lobby.parameters_signal is Some {
            next_count(lobby.requests)
        } else {
            1
        },
        parameters_signal: if lobby.parameters_signal is Some {
            lobby.parameters_signal
        } else {
            Some(signal)
        },
        ..lobby
    }
}

/// Notes that a bot has asked for its in-game parameters; says whether it is the first to ask.
pub fn note_request<W, S>(
    lobby: &mut Lobby<W, S>,
    bot_number: &str,
    side: &str,
    signal: S,
) -> (first: bool)
    requires
        old(lobby)@.bots.contains_key(bot_number@),
    ensures
        first == old(lobby)@.parameters_signal is None,
        final(lobby)@ == requested(old(lobby)@, bot_number@, side@, signal),
{
    let first = lobby.in_game_parameters_fullness_controller_sender.is_none();
    let bot = lobby.bots.get_mut(bot_number).unwrap();
    bot.side = Some(side.to_owned());
    if first {
        lobby.in_game_parameters_fullness_controller_sender = Some(signal);
        lobby.in_game_parameters_requesting_fullness = 1;
    } else {
        lobby.in_game_parameters_requesting_fullness =
        lobby.in_game_parameters_requesting_fullness.wrapping_add(1);
    }
    proof {
        let goal = requested(old(lobby)@, bot_number@, side@, signal);
        assert(bots_of(lobby.bots@) =~= goal.bots);
    }
    first
}

/// What a bot is given on its request, and whether it is the first of its lobby to ask.
#[derive(Debug, PartialEq, Eq)]
pub struct ParametersGrant {
    pub roles: RoleGrant,
    pub starter_replay: ReplayGrant,
    pub first: bool,
}

impl ParametersGrant {
    /// The grant is drawn from what a side of a lobby has left.
    pub open spec fn fits<W, S>(self, lobby: LobbyView<W, S>, side: Seq<char>) -> bool {
        let replays = lobby.replays[side][self.roles.primary_role@];
        &&& self.first == lobby.parameters_signal is None
        &&& picks_fit(lobby.roles[side], self.roles.picks())
        &&& self.roles.gives(lobby.roles[side], self.roles.picks())
        &&& self.starter_replay.place < replays.len()
        &&& self.starter_replay.message@ == starter_replay_message(
            replays[self.starter_replay.place as int],
        )
    }

    /// The lobby once a bot's request is noted and the grant handed out.
    pub open spec fn leaves<W, S>(
        self,
        lobby: LobbyView<W, S>,
        bot_number: Seq<char>,
        side: Seq<char>,
        signal: S,
    ) -> LobbyView<W, S> {
        handed_out(
            requested(lobby, bot_number, side, signal),
            side,
            self.roles.picks(),
            self.starter_replay.place as int,
        )
    }
}

/// Serves a bot's request for its in-game parameters: its side is noted and the request counted,
/// and it is given roles and a starter replay for the first of them, drawn by chance from what its
/// side has left.
pub fn grant_parameters<W, S>(
    lobby: &mut Lobby<W, S>,
    bot_number: &str,
    side: &str,
    signal: S,
) -> (grant: ParametersGrant)
    requires
        aligned(old(lobby)@),
        old(lobby)@.bots.contains_key(bot_number@),
        old(lobby)@.roles.contains_key(side@),
        roles_left(old(lobby)@.roles[side@]),
    ensures
        grant.fits(old(lobby)@, side@),
        final(lobby)@ == grant.leaves(old(lobby)@, bot_number@, side@, signal),
        aligned(final(lobby)@),
{
    let first = note_request(lobby, bot_number, side, signal);
    let ghost noted = lobby@;
    let roles = roles_distributor(lobby, side);
    proof {
        law_each_role_has_its_replay(noted, side@, roles.picks());
    }
    let starter_replay = starter_replays_numbers_distributor(
        lobby,
        side,
        roles.primary_role.as_str(),
    );
    proof {
        law_handing_out_keeps_pools_together(
            noted,
            side@,
            roles.picks(),
            starter_replay.place as int,
        );
    }
    ParametersGrant { roles, starter_replay, first }
}

/// Handing out takes one role from each stage of one side and one starter replay; it leaves the
/// bots, the count of requests, the handles and the other sides as they are.
pub proof fn law_handing_out_takes_one_of_each<W, S>(
    lobby: LobbyView<W, S>,
    side: Seq<char>,
    picks: Seq<usize>,
    place: int,
    other: Seq<char>,
)
    requires
        aligned(lobby),
        lobby.roles.contains_key(side),
        roles_left(lobby.roles[side]),
        picks_fit(lobby.roles[side], picks),
        0 <= place < lobby.replays[side][picked_roles(lobby.roles[side], picks)[0]].len(),
        other != side,
    ensures
        ({
            let after = handed_out(lobby, side, picks, place);
            &&& after.bots == lobby.bots
            &&& after.requests == lobby.requests
            &&& after.win_team == lobby.win_team
            &&& after.lobby_signal == lobby.lobby_signal
            &&& after.parameters_signal == lobby.parameters_signal
            &&& after.roles[side].len() == lobby.roles[side].len()
            &&& forall|stage: int|
                0 <= stage < lobby.roles[side].len() ==> (#[trigger] after.roles[side][stage]).len()
                    == lobby.roles[side][stage].len() - 1
            &&& after.roles.contains_key(other) == lobby.roles.contains_key(other)
            &&& lobby.roles.contains_key(other) ==> after.roles[other] == lobby.roles[other]
                && after.replays[other] == lobby.replays[other]
        }),
{
    assert forall|stage: int| 0 <= stage < lobby.roles[side].len() implies (
    #[trigger] pools_without(lobby.roles[side], picks)[stage]).len()
        == lobby.roles[side][stage].len() - 1 by {
        assert(picks[stage] < lobby.roles[side][stage].len());
    }
}

/// The pools of a side after several bots were given roles, one after the other.
pub open spec fn pools_after(pools: Seq<Seq<Seq<char>>>, draws: Seq<Seq<usize>>) -> Seq<
    Seq<Seq<char>>,
>
    decreases draws.len(),
{
    if draws.len() == 0 {
        pools
    } else {
        pools_without(pools_after(pools, draws.drop_last()), draws.last())
    }
}

/// Each of several draws fits the pools that it is made from.
pub open spec fn draws_fit(pools: Seq<Seq<Seq<char>>>, draws: Seq<Seq<usize>>) -> bool
    decreases draws.len(),
{
    draws.len() > 0 ==> draws_fit(pools, draws.drop_last()) && picks_fit(
        pools_after(pools, draws.drop_last()),
        draws.last(),
    )
}

/// The roles of one stage that several bots were given, in order.
pub open spec fn handed_in_stage(
    pools: Seq<Seq<Seq<char>>>,
    draws: Seq<Seq<usize>>,
    stage: int,
) -> Seq<Seq<char>>
    decreases draws.len(),
{
    if draws.len() == 0 {
        Seq::empty()
    } else {
        handed_in_stage(pools, draws.drop_last(), stage).push(
            picked_roles(pools_after(pools, draws.drop_last()), draws.last())[stage],
        )
    }
}

/// No role is lost or made up: in each stage, the roles that bots were given, together with those
/// that are left, are the roles that the stage began with.
pub proof fn law_roles_are_conserved(
    pools: Seq<Seq<Seq<char>>>,
    draws: Seq<Seq<usize>>,
    stage: int,
)
    requires
        draws_fit(pools, draws),
        0 <= stage < pools.len(),
    ensures
        pools_after(pools, draws).len() == pools.len(),
        handed_in_stage(pools, draws, stage).len() == draws.len(),
        pools_after(pools, draws)[stage].len() + draws.len() == pools[stage].len(),
        handed_in_stage(pools, draws, stage).to_multiset().add(
            pools_after(pools, draws)[stage].to_multiset(),
        ) == pools[stage].to_multiset(),
    decreases draws.len(),
{
    broadcast use vstd::seq_lib::group_to_multiset_ensures;
    broadcast use vstd::multiset::group_multiset_axioms;

    if draws.len() == 0 {
        assert(handed_in_stage(pools, draws, stage).to_multiset().add(
            pools[stage].to_multiset(),
        ) =~= pools[stage].to_multiset());
    } else {
        let earlier = draws.drop_last();
        law_roles_are_conserved(pools, earlier, stage);
        let before = pools_after(pools, earlier);
        let picks = draws.last();
        let role = before[stage][picks[stage] as int];
        assert(picks[stage] < before[stage].len());
        let handed = handed_in_stage(pools, earlier, stage);
        let left = before[stage].remove(picks[stage] as int);
        assert(pools_after(pools, draws)[stage] == left);
        assert(handed_in_stage(pools, draws, stage) == handed.push(role));
        assert(left.to_multiset() == before[stage].to_multiset().remove(role));
        assert(handed.push(role).to_multiset() == handed.to_multiset().insert(role));
        assert(before[stage].contains(role)) by {
            assert(before[stage][picks[stage] as int] == role);
        }
        assert(before[stage].to_multiset().count(role) > 0);
        assert(handed.push(role).to_multiset().add(left.to_multiset())
            =~= handed.to_multiset().add(before[stage].to_multiset()));
    }
}

/// The five bots of a side are given, in each of the two stages, one mid lane, two hard lanes and
/// two easy lanes between them, and then no role is left.
pub proof fn law_side_of_five_shares_all_roles(draws: Seq<Seq<usize>>, stage: int)
    requires
        draws_fit(side_roles(), draws),
        draws.len() == 5,
        0 <= stage < 2,
    ensures
        handed_in_stage(side_roles(), draws, stage).to_multiset() == stage_roles().to_multiset(),
        pools_after(side_roles(), draws)[stage].len() == 0,
{
    broadcast use vstd::seq_lib::group_to_multiset_ensures;
    broadcast use vstd::multiset::group_multiset_axioms;

    law_roles_are_conserved(side_roles(), draws, stage);
    let left = pools_after(side_roles(), draws)[stage];
    assert(left =~= Seq::<Seq<char>>::empty());
    assert(handed_in_stage(side_roles(), draws, stage).to_multiset()
        =~= handed_in_stage(side_roles(), draws, stage).to_multiset().add(left.to_multiset()));
}

/// In no pool of a side a starter replay stands twice.
pub open spec fn replays_distinct(replays: Map<Seq<char>, Seq<Seq<char>>>) -> bool {
    forall|role: Seq<char>| #[trigger]
        replays.contains_key(role) ==> replays[role].no_duplicates()
}

/// No two bots with the same first role on the same side are given the same starter replay: none
/// stands twice in what a side begins with, and one that was handed out is not left in its pool.
pub proof fn law_no_starter_replay_twice<W, S>(
    lobby: LobbyView<W, S>,
    side: Seq<char>,
    role: Seq<char>,
    place: int,
)
    requires
        replay_left(lobby, side, role),
        replays_distinct(lobby.replays[side]),
        0 <= place < lobby.replays[side][role].len(),
    ensures
        replays_distinct(side_replays()),
        replays_distinct(without_replay(lobby, side, role, place).replays[side]),
        !without_replay(lobby, side, role, place).replays[side][role].contains(
            lobby.replays[side][role][place],
        ),
{
    reveal_strlit("1");
    reveal_strlit("2");
    assert("1"@[0] != "2"@[0]);
    let pool = lobby.replays[side][role];
    assert(pool.no_duplicates());
    let left = pool.remove(place);
    assert forall|i: int, j: int| 0 <= i < left.len() && 0 <= j < left.len() && i != j implies left[i]
        != left[j] by {
        let i0 = if i < place { i } else { i + 1 };
        let j0 = if j < place { j } else { j + 1 };
        assert(left[i] == pool[i0] && left[j] == pool[j0]);
    }
    assert forall|i: int| 0 <= i < left.len() implies left[i] != pool[place] by {
        let i0 = if i < place { i } else { i + 1 };
        assert(left[i] == pool[i0]);
    }
}

/// A lobby after several bots, one after the other, have asked for their in-game parameters, each
/// with its number, its side and a handle.
pub open spec fn after_requests<W, S>(
    lobby: LobbyView<W, S>,
    requests: Seq<(Seq<char>, Seq<char>, S)>,
) -> LobbyView<W, S>
    decreases requests.len(),
{
    if requests.len() == 0 {
        lobby
    } else {
        let (bot_number, side, signal) = requests.last();
        requested(after_requests(lobby, requests.drop_last()), bot_number, side, signal)
    }
}

/// In a lobby that nobody has asked in yet, up to 255 requests are counted exactly, the handle that
/// came with the first is kept, and each bot that asked has a side.
pub proof fn law_requests_are_counted<W, S>(
    lobby: LobbyView<W, S>,
    requests: Seq<(Seq<char>, Seq<char>, S)>,
)
    requires
        lobby.parameters_signal is None,
        0 < requests.len() <= 255,
    ensures
        after_requests(lobby, requests).requests == requests.len(),
        after_requests(lobby, requests).parameters_signal == Some(requests[0].2),
        forall|i: int|
            0 <= i < requests.len() ==> after_requests(lobby, requests).bots.contains_key(
                (#[trigger] requests[i]).0,
            ) && after_requests(lobby, requests).bots[requests[i].0].side is Some,
    decreases requests.len(),
{
    let earlier = requests.drop_last();
    assert(requests.last() == requests[requests.len() - 1]);
    if earlier.len() == 0 {
        assert(after_requests(lobby, earlier) == lobby);
    } else {
        law_requests_are_counted(lobby, earlier);
        assert(earlier[0] == requests[0]);
    }
    let before = after_requests(lobby, earlier);
    let after = after_requests(lobby, requests);
    assert forall|i: int| 0 <= i < requests.len() implies after.bots.contains_key(
        (#[trigger] requests[i]).0,
    ) && after.bots[requests[i].0].side is Some by {
        if i < earlier.len() {
            assert(earlier[i] == requests[i]);
        }
    }
}

/// Where each bot of a lobby asks, and nobody else does, the side of each bot is known afterwards.
pub proof fn law_all_who_ask_have_sides<W, S>(
    lobby: LobbyView<W, S>,
    requests: Seq<(Seq<char>, Seq<char>, S)>,
)
    requires
        lobby.parameters_signal is None,
        0 < requests.len() <= 255,
        forall|number: Seq<char>| #[trigger]
            lobby.bots.contains_key(number) ==> exists|i: int|
                0 <= i < requests.len() && (#[trigger] requests[i]).0 == number,
        forall|i: int|
            0 <= i < requests.len() ==> lobby.bots.contains_key((#[trigger] requests[i]).0),
    ensures
        sides_known(after_requests(lobby, requests).bots),
        after_requests(lobby, requests).bots.dom() == lobby.bots.dom(),
{
    law_requests_are_counted(lobby, requests);
    lemma_requests_keep_the_bots(lobby, requests);
    let after = after_requests(lobby, requests);
    assert forall|number: Seq<char>| #[trigger]
        after.bots.contains_key(number) implies after.bots[number].side is Some by {
        assert(after.bots.dom().contains(number));
        assert(lobby.bots.contains_key(number));
        let i = choose|i: int| 0 <= i < requests.len() && (#[trigger] requests[i]).0 == number;
        assert(after.bots[requests[i].0].side is Some);
    }
}

/// Requests of the bots of a lobby bring no bot in and send none away.
proof fn lemma_requests_keep_the_bots<W, S>(
    lobby: LobbyView<W, S>,
    requests: Seq<(Seq<char>, Seq<char>, S)>,
)
    requires
        forall|i: int|
            0 <= i < requests.len() ==> lobby.bots.contains_key((#[trigger] requests[i]).0),
    ensures
        after_requests(lobby, requests).bots.dom() == lobby.bots.dom(),
    decreases requests.len(),
{
    if requests.len() > 0 {
        let earlier = requests.drop_last();
        assert forall|i: int| 0 <= i < earlier.len() implies lobby.bots.contains_key(
            (#[trigger] earlier[i]).0,
        ) by {
            assert(earlier[i] == requests[i]);
        }
        lemma_requests_keep_the_bots(lobby, earlier);
        assert(lobby.bots.contains_key(requests[requests.len() - 1].0));
        assert(after_requests(lobby, requests).bots.dom() =~= lobby.bots.dom());
    }
}

/// Places fit, and roles are left, exactly as said of each stage.
pub proof fn law_what_fits_and_what_is_left(pools: Seq<Seq<Seq<char>>>, picks: Seq<usize>)
    ensures
        picks_fit(pools, picks) <==> picks.len() == pools.len() && forall|stage: int|
            0 <= stage < pools.len() ==> (#[trigger] picks[stage]) < pools[stage].len(),
        roles_left(pools) <==> pools.len() > 0 && forall|stage: int|
            0 <= stage < pools.len() ==> (#[trigger] pools[stage]).len() > 0,
{
}

/// In each stage the role at the picked place is given, and the pool then holds the roles before it
/// and those after it, in their order.
pub proof fn law_picked_role_leaves_its_pool(
    pools: Seq<Seq<Seq<char>>>,
    picks: Seq<usize>,
    stage: int,
)
    requires
        picks_fit(pools, picks),
        0 <= stage < pools.len(),
    ensures
        picked_roles(pools, picks).len() == pools.len(),
        picked_roles(pools, picks)[stage] == pools[stage][picks[stage] as int],
        pools_without(pools, picks).len() == pools.len(),
        pools_without(pools, picks)[stage] == pools[stage].take(picks[stage] as int)
            + pools[stage].skip(picks[stage] as int + 1),
{
    assert(picks[stage] < pools[stage].len());
    assert(pools_without(pools, picks)[stage] =~= pools[stage].take(picks[stage] as int)
        + pools[stage].skip(picks[stage] as int + 1));
}

/// A grant names, stage by stage, the stage and the place of each role; its first role is that of the
/// first stage; and its message is a `2` and the roles, between commas.
pub proof fn law_grant_names_its_roles(
    grant: RoleGrant,
    pools: Seq<Seq<Seq<char>>>,
    picks: Seq<usize>,
    stage: int,
)
    requires
        picks_fit(pools, picks),
        pools.len() <= usize::MAX,
        grant.gives(pools, picks),
        0 <= stage < pools.len(),
    ensures
        grant.picked@.len() == pools.len(),
        grant.picked@[stage].0 == stage,
        grant.picked@[stage].1 == picks[stage],
        grant.picks().len() == pools.len(),
        grant.picks()[stage] == grant.picked@[stage].1,
        grant.primary_role@ == pools[0][picks[0] as int],
        grant.message@ == seq!['2'] + join(
            Seq::new(pools.len(), |i: int| pools[i][picks[i] as int]),
            seq![','],
        ),
{
    reveal_strlit("2");
    reveal_strlit(",");
    assert("2"@ =~= seq!['2']);
    assert(","@ =~= seq![',']);
    assert(picked_roles(pools, picks) =~= Seq::new(
        pools.len(),
        |i: int| pools[i][picks[i] as int],
    ));
}

/// The messages that tell a bot what it is given: a `2` and its roles between commas, a `3` and the
/// number of its starter replay.
pub proof fn law_messages_of_a_grant(roles: Seq<Seq<char>>, number: Seq<char>)
    ensures
        roles_message(roles) == seq!['2'] + join(roles, seq![',']),
        roles.len() == 2 ==> roles_message(roles) == seq!['2'] + roles[0] + seq![','] + roles[1],
        starter_replay_message(number) == seq!['3'] + number,
{
    reveal_strlit("2");
    reveal_strlit("3");
    reveal_strlit(",");
    assert("2"@ =~= seq!['2']);
    assert("3"@ =~= seq!['3']);
    assert(","@ =~= seq![',']);
    if roles.len() == 2 {
        assert(roles.drop_last().len() == 1);
        assert(join(roles.drop_last(), seq![',']) == roles[0]);
        assert(join(roles, seq![',']) =~= roles[0] + seq![','] + roles[1]);
        assert(roles_message(roles) =~= seq!['2'] + roles[0] + seq![','] + roles[1]);
    }
}

/// A starter replay that is handed out leaves its pool, which keeps those before it and those after
/// it, in their order; no other pool and nothing else in the lobby changes.
pub proof fn law_starter_replay_leaves_its_pool<W, S>(
    lobby: LobbyView<W, S>,
    side: Seq<char>,
    role: Seq<char>,
    place: int,
)
    requires
        lobby.replays.contains_key(side),
        lobby.replays[side].contains_key(role),
        0 <= place < lobby.replays[side][role].len(),
    ensures
        ({
            let after = without_replay(lobby, side, role, place);
            let pool = lobby.replays[side][role];
            &&& replay_left(lobby, side, role)
            &&& after.replays.contains_key(side)
            &&& after.replays.remove(side) == lobby.replays.remove(side)
            &&& after.replays[side].contains_key(role)
            &&& after.replays[side].remove(role) == lobby.replays[side].remove(role)
            &&& after.replays[side][role] == pool.take(place) + pool.skip(place + 1)
            &&& after.bots == lobby.bots
            &&& after.roles == lobby.roles
            &&& after.requests == lobby.requests
            &&& after.win_team == lobby.win_team
            &&& after.lobby_signal == lobby.lobby_signal
            &&& after.parameters_signal == lobby.parameters_signal
        }),
{
    let after = without_replay(lobby, side, role, place);
    let pool = lobby.replays[side][role];
    assert(after.replays.remove(side) =~= lobby.replays.remove(side));
    assert(after.replays[side].remove(role) =~= lobby.replays[side].remove(role));
    assert(after.replays[side][role] =~= pool.take(place) + pool.skip(place + 1));
}

/// A starter replay is left for a role exactly where its side has a pool for the role that is not
/// empty.
pub proof fn law_when_a_starter_replay_is_left<W, S>(
    lobby: LobbyView<W, S>,
    side: Seq<char>,
    role: Seq<char>,
)
    ensures
        replay_left(lobby, side, role) <==> lobby.replays.contains_key(side)
            && lobby.replays[side].contains_key(role) && lobby.replays[side][role].len() > 0,
{
}

/// A request notes the side of the bot that asks and is counted: as the first where nobody has asked
/// before, and then its handle is kept, else as one more, with the count beginning again at zero after
/// 255. The bot keeps its connection, and nothing else changes.
pub proof fn law_a_request_is_noted<W, S>(
    lobby: LobbyView<W, S>,
    bot_number: Seq<char>,
    side: Seq<char>,
    signal: S,
)
    requires
        lobby.bots.contains_key(bot_number),
    ensures
        ({
            let after = requested(lobby, bot_number, side, signal);
            &&& after.bots.contains_key(bot_number)
            &&& after.bots.remove(bot_number) == lobby.bots.remove(bot_number)
            &&& after.bots[bot_number].side == Some(side)
            &&& after.bots[bot_number].tcp_writer == lobby.bots[bot_number].tcp_writer
            &&& lobby.parameters_signal is None ==> after.requests == 1
                && after.parameters_signal == Some(signal)
            &&& lobby.parameters_signal is Some ==> after.requests == (lobby.requests + 1) % 256
                && after.parameters_signal == lobby.parameters_signal
            &&& after.roles == lobby.roles
            &&& after.replays == lobby.replays
            &&& after.win_team == lobby.win_team
            &&& after.lobby_signal == lobby.lobby_signal
        }),
{
    let after = requested(lobby, bot_number, side, signal);
    assert(after.bots.remove(bot_number) =~= lobby.bots.remove(bot_number));
}

/// What a bot is given is what leaves the pools. In each stage of its side the bot gets the role at
/// the named place, and the pool holds the others; its message is a `2` and these roles; of the pool of
/// its first role it gets the starter replay at the named place, told after a `3`, and the pool holds
/// the others. Its side is noted, the request counted, and nothing else changes.
pub proof fn law_what_is_given_leaves_the_pools<W, S>(
    grant: ParametersGrant,
    lobby: LobbyView<W, S>,
    bot_number: Seq<char>,
    side: Seq<char>,
    signal: S,
    stage: int,
)
    requires
        grant.fits(lobby, side),
        lobby.bots.contains_key(bot_number),
        0 <= stage < lobby.roles[side].len() <= usize::MAX,
    ensures
        ({
            let after = grant.leaves(lobby, bot_number, side, signal);
            let pools = lobby.roles[side];
            let picked = grant.roles.picked@;
            let role = pools[0][picked[0].1 as int];
            let replays = lobby.replays[side][role];
            let place = grant.starter_replay.place as int;
            &&& grant.first == (lobby.parameters_signal is None)
            &&& picked.len() == pools.len()
            &&& picked[stage].0 == stage
            &&& picked[stage].1 < pools[stage].len()
            &&& grant.roles.primary_role@ == role
            &&& grant.roles.message@ == seq!['2'] + join(
                Seq::new(pools.len(), |i: int| pools[i][picked[i].1 as int]),
                seq![','],
            )
            &&& 0 <= place < replays.len()
            &&& grant.starter_replay.message@ == seq!['3'] + replays[place]
            &&& after.roles[side].len() == pools.len()
            &&& after.roles[side][stage] == pools[stage].take(picked[stage].1 as int)
                + pools[stage].skip(picked[stage].1 as int + 1)
            &&& after.roles.remove(side) == lobby.roles.remove(side)
            &&& after.replays[side][role] == replays.take(place) + replays.skip(place + 1)
            &&& after.replays[side].remove(role) == lobby.replays[side].remove(role)
            &&& after.replays.remove(side) == lobby.replays.remove(side)
            &&& after.bots == requested(lobby, bot_number, side, signal).bots
            &&& after.requests == requested(lobby, bot_number, side, signal).requests
            &&& after.parameters_signal == requested(
                lobby,
                bot_number,
                side,
                signal,
            ).parameters_signal
            &&& after.win_team == lobby.win_team
            &&& after.lobby_signal == lobby.lobby_signal
        }),
{
    let after = grant.leaves(lobby, bot_number, side, signal);
    let pools = lobby.roles[side];
    let picks = grant.roles.picks();
    law_grant_names_its_roles(grant.roles, pools, picks, stage);
    law_grant_names_its_roles(grant.roles, pools, picks, 0);
    law_picked_role_leaves_its_pool(pools, picks, stage);
    let role = grant.roles.primary_role@;
    let replays = lobby.replays[side][role];
    let place = grant.starter_replay.place as int;
    law_messages_of_a_grant(Seq::empty(), replays[place]);
    assert forall|i: int| 0 <= i < pools.len() implies grant.roles.picked@[i].1
        == #[trigger] picks[i] by {
        assert(grant.roles.picks()[i] == grant.roles.picked@[i].1);
    }
    assert(Seq::new(pools.len(), |i: int| pools[i][grant.roles.picked@[i].1 as int]) =~= Seq::new(
        pools.len(),
        |i: int| pools[i][picks[i] as int],
    ));
    assert(after.roles.remove(side) =~= lobby.roles.remove(side));
    assert(after.replays.remove(side) =~= lobby.replays.remove(side));
    assert(after.replays[side].remove(role) =~= lobby.replays[side].remove(role));
    assert(after.replays[side][role] =~= replays.take(place) + replays.skip(place + 1));
}

} // verus!
