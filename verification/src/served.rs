//! What the requests of a lobby's bots for their in-game parameters come to, taken together.
use crate::lobby::{both_sides, side_replays, side_roles, stage_roles, stocked, LobbyView};
use crate::roles::{
    aligned, law_each_role_has_its_replay, law_fresh_pools_go_together,
    law_handing_out_keeps_pools_together, picked_roles, pools_without, replay_count, replay_left,
    requested, role_count, roles_left, side_aligned, ParametersGrant,
};
use crate::statistics::sides_known;
use vstd::prelude::*;

verus! {

/// A request for in-game parameters that was served: the bot that asked, its side, the handle that
/// came with the request, and what the bot was given.
pub struct ServedRequest<S> {
    pub bot_number: Seq<char>,
    pub side: Seq<char>,
    pub signal: S,
    pub grant: ParametersGrant,
}

/// A lobby after several requests were served, one after the other.
pub open spec fn after_served<W, S>(
    lobby: LobbyView<W, S>,
    served: Seq<ServedRequest<S>>,
) -> LobbyView<W, S>
    decreases served.len(),
{
    if served.len() == 0 {
        lobby
    } else {
        let last = served.last();
        last.grant.leaves(
            after_served(lobby, served.drop_last()),
            last.bot_number,
            last.side,
            last.signal,
        )
    }
}

/// Each of several requests came from a bot of the lobby, and was served from what the ones before
/// it had left.
pub open spec fn served_in_turn<W, S>(
    lobby: LobbyView<W, S>,
    served: Seq<ServedRequest<S>>,
) -> bool
    decreases served.len(),
{
    served.len() > 0 ==> {
        let before = after_served(lobby, served.drop_last());
        let last = served.last();
        &&& served_in_turn(lobby, served.drop_last())
        &&& before.bots.contains_key(last.bot_number)
        &&& before.roles.contains_key(last.side)
        &&& last.grant.fits(before, last.side)
    }
}

/// How many of several requests were made on a side.
pub open spec fn asked_on<S>(served: Seq<ServedRequest<S>>, side: Seq<char>) -> nat
    decreases served.len(),
{
    if served.len() == 0 {
        0
    } else {
        asked_on(served.drop_last(), side) + if served.last().side == side {
            1nat
        } else {
            0nat
        }
    }
}

/// The roles of one stage that were given on a side, in order.
pub open spec fn roles_given<W, S>(
    lobby: LobbyView<W, S>,
    served: Seq<ServedRequest<S>>,
    side: Seq<char>,
    stage: int,
) -> Seq<Seq<char>>
    decreases served.len(),
{
    if served.len() == 0 {
        Seq::empty()
    } else {
        let earlier = roles_given(lobby, served.drop_last(), side, stage);
        let last = served.last();
        if last.side == side {
            let before = after_served(lobby, served.drop_last());
            earlier.push(picked_roles(before.roles[side], last.grant.roles.picks())[stage])
        } else {
            earlier
        }
    }
}

/// The first roles that were given on a side, each with the starter replay that went with it, in
/// order.
pub open spec fn replays_given<W, S>(
    lobby: LobbyView<W, S>,
    served: Seq<ServedRequest<S>>,
    side: Seq<char>,
) -> Seq<(Seq<char>, Seq<char>)>
    decreases served.len(),
{
    if served.len() == 0 {
        Seq::empty()
    } else {
        let earlier = replays_given(lobby, served.drop_last(), side);
        let last = served.last();
        if last.side == side {
            let before = after_served(lobby, served.drop_last());
            let role = last.grant.roles.primary_role@;
            earlier.push(
                (role, before.replays[side][role][last.grant.starter_replay.place as int]),
            )
        } else {
            earlier
        }
    }
}

/// How often a starter replay is left for a role.
pub open spec fn pair_count(
    replays: Map<Seq<char>, Seq<Seq<char>>>,
    pair: (Seq<char>, Seq<char>),
) -> nat {
    if replays.contains_key(pair.0) {
        replays[pair.0].to_multiset().count(pair.1)
    } else {
        0
    }
}

/// Serving one request keeps the pools together and the bots in the lobby.
proof fn lemma_serving_keeps_pools<W, S>(
    before: LobbyView<W, S>,
    request: ServedRequest<S>,
)
    requires
        aligned(before),
        before.bots.contains_key(request.bot_number),
        before.roles.contains_key(request.side),
        request.grant.fits(before, request.side),
    ensures
        ({
            let noted = requested(before, request.bot_number, request.side, request.signal);
            let after = request.grant.leaves(
                before,
                request.bot_number,
                request.side,
                request.signal,
            );
            let picks = request.grant.roles.picks();
            let role = request.grant.roles.primary_role@;
            let place = request.grant.starter_replay.place as int;
            &&& aligned(after)
            &&& after.bots == noted.bots
            &&& after.bots.dom() == before.bots.dom()
            &&& after.requests == noted.requests
            &&& after.parameters_signal == noted.parameters_signal
            &&& after.roles == before.roles.insert(
                request.side,
                pools_without(before.roles[request.side], picks),
            )
            &&& role == picked_roles(before.roles[request.side], picks)[0]
            &&& replay_left(before, request.side, role)
            &&& after.replays == before.replays.insert(
                request.side,
                before.replays[request.side].insert(
                    role,
                    before.replays[request.side][role].remove(place),
                ),
            )
        }),
{
    let side = request.side;
    let picks = request.grant.roles.picks();
    let place = request.grant.starter_replay.place as int;
    let noted = requested(before, request.bot_number, side, request.signal);
    assert(aligned(noted)) by {
        assert forall|other: Seq<char>| #[trigger]
            noted.roles.contains_key(other) <==> noted.replays.contains_key(other) by {
            assert(before.roles.contains_key(other) <==> before.replays.contains_key(other));
        }
        assert forall|other: Seq<char>| #[trigger]
            noted.roles.contains_key(other) implies side_aligned(
            noted.roles[other],
            noted.replays[other],
        ) by {
            assert(before.roles.contains_key(other));
        }
    }
    assert(side_aligned(before.roles[side], before.replays[side]));
    assert(roles_left(before.roles[side])) by {
        assert forall|i: int| 0 <= i < before.roles[side].len() implies (
        #[trigger] before.roles[side][i]).len() > 0 by {
            assert(picks[i] < before.roles[side][i].len());
        }
    }
    law_each_role_has_its_replay(noted, side, picks);
    law_handing_out_keeps_pools_together(noted, side, picks, place);
    assert(noted.bots.dom() =~= before.bots.dom());
}

/// What was given on a side in a stage, and what is left, is what the side began with; the pools go
/// together all the while.
proof fn lemma_served_roles<W, S>(
    lobby: LobbyView<W, S>,
    served: Seq<ServedRequest<S>>,
    side: Seq<char>,
    stage: int,
)
    requires
        aligned(lobby),
        served_in_turn(lobby, served),
        lobby.roles.contains_key(side),
        0 <= stage < lobby.roles[side].len(),
    ensures
        aligned(after_served(lobby, served)),
        after_served(lobby, served).bots.dom() == lobby.bots.dom(),
        after_served(lobby, served).roles.contains_key(side),
        after_served(lobby, served).roles[side].len() == lobby.roles[side].len(),
        roles_given(lobby, served, side, stage).len() == asked_on(served, side),
        after_served(lobby, served).roles[side][stage].len() + asked_on(served, side)
            == lobby.roles[side][stage].len(),
        roles_given(lobby, served, side, stage).to_multiset().add(
            after_served(lobby, served).roles[side][stage].to_multiset(),
        ) == lobby.roles[side][stage].to_multiset(),
    decreases served.len(),
{
    broadcast use vstd::seq_lib::group_to_multiset_ensures;
    broadcast use vstd::multiset::group_multiset_axioms;

    if served.len() == 0 {
        assert(roles_given(lobby, served, side, stage).to_multiset().add(
            lobby.roles[side][stage].to_multiset(),
        ) =~= lobby.roles[side][stage].to_multiset());
    } else {
        let earlier = served.drop_last();
        let last = served.last();
        lemma_served_roles(lobby, earlier, side, stage);
        let before = after_served(lobby, earlier);
        lemma_serving_keeps_pools(before, last);
        if last.side == side {
            let place = last.grant.roles.picks()[stage] as int;
            let pool = before.roles[side][stage];
            assert(last.grant.roles.picks()[stage] < pool.len());
            let role = pool[place];
            let given = roles_given(lobby, earlier, side, stage);
            let left = pool.remove(place);
            assert(after_served(lobby, served).roles[side][stage] == left);
            assert(roles_given(lobby, served, side, stage) == given.push(role));
            assert(left.to_multiset() == pool.to_multiset().remove(role));
            assert(pool.contains(role));
            assert(pool.to_multiset().count(role) > 0);
            assert(given.push(role).to_multiset().add(left.to_multiset())
                =~= given.to_multiset().add(pool.to_multiset()));
        }
    }
}

/// The starter replays given on a side, with their roles, and those that are left, are those that
/// the side began with.
proof fn lemma_served_replays<W, S>(
    lobby: LobbyView<W, S>,
    served: Seq<ServedRequest<S>>,
    side: Seq<char>,
    pair: (Seq<char>, Seq<char>),
)
    requires
        aligned(lobby),
        served_in_turn(lobby, served),
        lobby.roles.contains_key(side),
    ensures
        replays_given(lobby, served, side).to_multiset().count(pair) + pair_count(
            after_served(lobby, served).replays[side],
            pair,
        ) == pair_count(lobby.replays[side], pair),
    decreases served.len(),
{
    broadcast use vstd::seq_lib::group_to_multiset_ensures;
    broadcast use vstd::multiset::group_multiset_axioms;

    if served.len() > 0 {
        let earlier = served.drop_last();
        let last = served.last();
        lemma_served_replays(lobby, earlier, side, pair);
        assert(side_aligned(lobby.roles[side], lobby.replays[side]));
        lemma_served_roles(lobby, earlier, side, 0);
        let before = after_served(lobby, earlier);
        lemma_serving_keeps_pools(before, last);
        if last.side == side {
            let role = last.grant.roles.primary_role@;
            let place = last.grant.starter_replay.place as int;
            let pool = before.replays[side][role];
            let number = pool[place];
            let given = replays_given(lobby, earlier, side);
            assert(replays_given(lobby, served, side) == given.push((role, number)));
            assert(pool.contains(number));
            assert(pool.to_multiset().count(number) > 0);
            assert(pool.remove(place).to_multiset() == pool.to_multiset().remove(number));
            assert(given.push((role, number)).to_multiset() == given.to_multiset().insert(
                (role, number),
            ));
        }
    }
}

/// Requests that are served are counted from the first on, and each bot that asked has a side.
proof fn lemma_served_requests<W, S>(lobby: LobbyView<W, S>, served: Seq<ServedRequest<S>>)
    requires
        aligned(lobby),
        served_in_turn(lobby, served),
        lobby.parameters_signal is None,
        served.len() <= 255,
    ensures
        aligned(after_served(lobby, served)),
        after_served(lobby, served).bots.dom() == lobby.bots.dom(),
        served.len() > 0 ==> after_served(lobby, served).requests == served.len(),
        (served.len() > 0) == (after_served(lobby, served).parameters_signal is Some),
        forall|i: int|
            0 <= i < served.len() ==> after_served(lobby, served).bots.contains_key(
                (#[trigger] served[i]).bot_number,
            ) && after_served(lobby, served).bots[served[i].bot_number].side is Some,
    decreases served.len(),
{
    if served.len() > 0 {
        let earlier = served.drop_last();
        lemma_served_requests(lobby, earlier);
        let before = after_served(lobby, earlier);
        let after = after_served(lobby, served);
        lemma_serving_keeps_pools(before, served.last());
        assert forall|i: int| 0 <= i < served.len() implies after.bots.contains_key(
            (#[trigger] served[i]).bot_number,
        ) && after.bots[served[i].bot_number].side is Some by {
            if i < earlier.len() {
                assert(earlier[i] == served[i]);
            }
        }
    }
}

/// A lobby has everything to hand out, and nobody has asked for anything yet.
pub open spec fn untouched_stock<W, S>(lobby: LobbyView<W, S>) -> bool {
    &&& lobby == stocked(lobby)
    &&& lobby.parameters_signal is None
}

/// The first roles that five bots of a side are given, each with its starter replay.
pub open spec fn side_pairs() -> Seq<(Seq<char>, Seq<char>)> {
    seq![("0"@, "1"@), ("1"@, "1"@), ("1"@, "2"@), ("2"@, "1"@), ("2"@, "2"@)]
}

/// What a side has of starter replays at the beginning, pair by pair.
proof fn lemma_side_pairs(pair: (Seq<char>, Seq<char>))
    ensures
        side_pairs().to_multiset().count(pair) == pair_count(side_replays(), pair),
{
    broadcast use vstd::seq_lib::group_to_multiset_ensures;
    broadcast use vstd::multiset::group_multiset_axioms;

    reveal_strlit("0");
    reveal_strlit("1");
    reveal_strlit("2");
    let zero = "0"@;
    let one = "1"@;
    let two = "2"@;
    assert(zero[0] == '0' && one[0] == '1' && two[0] == '2');
    let no_pair = Seq::<(Seq<char>, Seq<char>)>::empty();
    let no_text = Seq::<Seq<char>>::empty();
    assert(side_pairs() =~= no_pair.push((zero, one)).push((one, one)).push((one, two)).push(
        (two, one),
    ).push((two, two)));
    assert(seq![one] =~= no_text.push(one));
    assert(seq![one, two] =~= no_text.push(one).push(two));
    assert(no_pair.to_multiset().count(pair) == 0);
    assert(no_text.to_multiset().count(pair.1) == 0);
}

/// In a lobby with everything to hand out, as long as fewer than five requests were served on a
/// side, the next one on that side can be served.
pub proof fn law_next_of_five_can_be_served<W, S>(
    lobby: LobbyView<W, S>,
    served: Seq<ServedRequest<S>>,
    bot_number: Seq<char>,
    side: Seq<char>,
)
    requires
        untouched_stock(lobby),
        served_in_turn(lobby, served),
        lobby.bots.contains_key(bot_number),
        side == "0"@ || side == "1"@,
        asked_on(served, side) < 5,
    ensures
        aligned(after_served(lobby, served)),
        after_served(lobby, served).bots.contains_key(bot_number),
        after_served(lobby, served).roles.contains_key(side),
        roles_left(after_served(lobby, served).roles[side]),
{
    law_fresh_pools_go_together(lobby, None::<S>);
    assert(lobby.roles == both_sides(side_roles()));
    lemma_served_roles(lobby, served, side, 0);
    let after = after_served(lobby, served);
    assert(after.bots.dom().contains(bot_number));
    assert(side_aligned(after.roles[side], after.replays[side]));
}

/// Ten requests, five on each side, served one after the other in a lobby with everything to hand
/// out: on each side and in each stage the five bots are given one mid lane, two hard lanes and two
/// easy lanes; their first roles go with the starter replays of the side, each pair once; nothing is
/// left to hand out; all ten are counted; and where each bot of the lobby is among those that asked,
/// the side of each is known.
pub proof fn law_ten_requests_share_everything<W, S>(
    lobby: LobbyView<W, S>,
    served: Seq<ServedRequest<S>>,
    side: Seq<char>,
    stage: int,
)
    requires
        untouched_stock(lobby),
        served_in_turn(lobby, served),
        served.len() == 10,
        asked_on(served, "0"@) == 5,
        asked_on(served, "1"@) == 5,
        side == "0"@ || side == "1"@,
        0 <= stage < 2,
    ensures
        roles_given(lobby, served, side, stage).to_multiset() == stage_roles().to_multiset(),
        replays_given(lobby, served, side).to_multiset() == side_pairs().to_multiset(),
        after_served(lobby, served).roles[side].len() == 2,
        after_served(lobby, served).roles[side][stage].len() == 0,
        forall|role: Seq<char>| #[trigger]
            after_served(lobby, served).replays[side].contains_key(role) ==> after_served(
                lobby,
                served,
            ).replays[side][role].len() == 0,
        after_served(lobby, served).requests == 10,
        after_served(lobby, served).bots.dom() == lobby.bots.dom(),
        (forall|number: Seq<char>| #[trigger]
            lobby.bots.contains_key(number) ==> exists|i: int|
                0 <= i < served.len() && (#[trigger] served[i]).bot_number == number)
            ==> sides_known(after_served(lobby, served).bots),
{
    broadcast use vstd::seq_lib::group_to_multiset_ensures;
    broadcast use vstd::multiset::group_multiset_axioms;

    law_fresh_pools_go_together(lobby, None::<S>);
    assert(lobby.roles == both_sides(side_roles()));
    assert(lobby.replays == both_sides(side_replays()));
    lemma_served_roles(lobby, served, side, stage);
    lemma_served_roles(lobby, served, side, 0);
    lemma_served_requests(lobby, served);
    let after = after_served(lobby, served);
    let given = roles_given(lobby, served, side, stage);
    let left = after.roles[side][stage];
    assert(left =~= Seq::<Seq<char>>::empty());
    assert(given.to_multiset() =~= given.to_multiset().add(left.to_multiset()));
    assert(side_aligned(after.roles[side], after.replays[side]));
    let first = after.roles[side][0];
    assert(first =~= Seq::<Seq<char>>::empty());
    assert forall|role: Seq<char>| #[trigger]
        after.replays[side].contains_key(role) implies after.replays[side][role].len() == 0 by {
        assert(role_count(first, role) == replay_count(after.replays[side], role));
        assert(role_count(first, role) == 0);
    }
    let pairs = replays_given(lobby, served, side);
    assert forall|pair: (Seq<char>, Seq<char>)|
        pairs.to_multiset().count(pair) == side_pairs().to_multiset().count(pair) by {
        lemma_served_replays(lobby, served, side, pair);
        lemma_side_pairs(pair);
        if after.replays[side].contains_key(pair.0) {
            assert(after.replays[side][pair.0] =~= Seq::<Seq<char>>::empty());
        }
    }
    assert(pairs.to_multiset() =~= side_pairs().to_multiset());
    if forall|number: Seq<char>| #[trigger]
        lobby.bots.contains_key(number) ==> exists|i: int|
            0 <= i < served.len() && (#[trigger] served[i]).bot_number == number {
        assert forall|number: Seq<char>| #[trigger]
            after.bots.contains_key(number) implies after.bots[number].side is Some by {
            assert(after.bots.dom().contains(number));
            assert(lobby.bots.contains_key(number));
            let i = choose|i: int|
                0 <= i < served.len() && (#[trigger] served[i]).bot_number == number;
            assert(after.bots[served[i].bot_number].side is Some);
        }
    }
}

} // verus!
