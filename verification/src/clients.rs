//! The bots that are connected, under their numbers, each with its connection.
use crate::inbound::ConnectHandshake;
use crate::string_map::{distinct_keys, StringMap};
use vstd::prelude::*;

verus! {

/// How many minutes pass between two looks at the connections.
pub const HEALTH_CHECK_MINUTES: u64 = 30;

/// Notes the connection of a bot that tells its number, in place of the one that the bot had.
pub fn handle_connect_handshake<W>(
    bot_clients: &mut StringMap<W>,
    connect_handshake: ConnectHandshake,
    tcp_writer: W,
)
    ensures
        final(bot_clients)@ == old(bot_clients)@.insert(connect_handshake.bot_number@, tcp_writer),
{
    bot_clients.insert(connect_handshake.bot_number, tcp_writer);
}

/// A text stands among the first so many of a list.
pub open spec fn among_first(texts: Seq<Seq<char>>, count: int, text: Seq<char>) -> bool {
    exists|i: int| 0 <= i < count && #[trigger] texts[i] == text
}

/// The connected bots but for those on a list.
pub open spec fn without<W>(clients: Map<Seq<char>, W>, gone: Seq<Seq<char>>) -> Map<Seq<char>, W> {
    clients.remove_keys(Set::new(|number: Seq<char>| among_first(gone, gone.len() as int, number)))
}

/// The connection of one of the bots on a list: that of a connected bot, the first time that it
/// stands on the list.
pub open spec fn taken<W>(clients: Map<Seq<char>, W>, affected: Seq<Seq<char>>, at: int) -> Option<W> {
    if clients.contains_key(affected[at]) && !among_first(affected, at, affected[at]) {
        Some(clients[affected[at]])
    } else {
        None
    }
}

/// Takes bots off the list of connected bots, one after the other, and gives back the connection of
/// each.
fn take_off<W>(bot_clients: &mut StringMap<W>, affected_bots: &Vec<String>) -> (writers: Vec<
    Option<W>,
>)
    ensures
        final(bot_clients)@ == without(old(bot_clients)@, affected_bots.deep_view()),
        writers@ == Seq::new(
            affected_bots@.len(),
            |i: int| taken(old(bot_clients)@, affected_bots.deep_view(), i),
        ),
{
    let ghost start = bot_clients@;
    let ghost affected = affected_bots.deep_view();
    let mut writers: Vec<Option<W>> = Vec::new();
    let mut i: usize = 0;
    while i < affected_bots.len()
        invariant
            i <= affected_bots@.len(),
            affected == affected_bots.deep_view(),
            writers@.len() == i,
            forall|j: int| 0 <= j < i ==> #[trigger] writers@[j] == taken(start, affected, j),
            forall|number: Seq<char>| #[trigger]
                bot_clients@.contains_key(number) == (start.contains_key(number) && !among_first(
                    affected,
                    i as int,
                    number,
                )),
            forall|number: Seq<char>| #[trigger]
                bot_clients@.contains_key(number) ==> bot_clients@[number] == start[number],
        decreases affected_bots@.len() - i,
    {
        let ghost before = bot_clients@;
        let affected_bot = affected_bots[i].as_str();
        let writer = bot_clients.remove(affected_bot);
        proof {
            assert(affected[i as int] == affected_bot@);
            assert forall|number: Seq<char>|
                among_first(affected, i + 1, number) == (among_first(affected, i as int, number)
                    || number == affected_bot@) by {
                if number == affected_bot@ {
                    assert(affected[i as int] == number);
                }
                if among_first(affected, i as int, number) {
                    let at = choose|at: int| 0 <= at < i && #[trigger] affected[at] == number;
                    assert(affected[at] == number);
                }
            }
            assert(before.contains_key(affected_bot@) == (start.contains_key(affected_bot@)
                && !among_first(affected, i as int, affected_bot@)));
            assert forall|number: Seq<char>| #[trigger]
                bot_clients@.contains_key(number) == (start.contains_key(number) && !among_first(
                    affected,
                    i + 1,
                    number,
                )) by {
                assert(before.contains_key(number) == (start.contains_key(number) && !among_first(
                    affected,
                    i as int,
                    number,
                )));
            }
            assert forall|number: Seq<char>| #[trigger]
                bot_clients@.contains_key(number) implies bot_clients@[number] == start[number] by {
                assert(before.contains_key(number));
            }
        }
        writers.push(writer);
        i += 1;
    }
    proof {
        assert(bot_clients@ =~= without(start, affected));
        assert(writers@ =~= Seq::new(affected_bots@.len(), |j: int| taken(start, affected, j)));
    }
    writers
}

/// Takes the bots that are to end off the list of connected bots. Gives back, for each of them in
/// turn, the connection on which it is to be told, or nothing where it is not connected.
pub fn send_user_termination_command_to_bots<W>(
    bot_clients: &mut StringMap<W>,
    affected_bots: &Vec<String>,
) -> (writers: Vec<Option<W>>)
    ensures
        final(bot_clients)@ == without(old(bot_clients)@, affected_bots.deep_view()),
        writers@ == Seq::new(
            affected_bots@.len(),
            |i: int| taken(old(bot_clients)@, affected_bots.deep_view(), i),
        ),
{
    take_off(bot_clients, affected_bots)
}

/// The numbers and connections of all connected bots, which are to be asked whether they still
/// stand.
pub fn connections_to_check<W>(bot_clients: &StringMap<W>) -> (connections: Vec<(&String, &W)>)
    ensures
        connections@.map_values(|connection: (&String, &W)| (connection.0@, *connection.1))
            == bot_clients.walk(),
        distinct_keys(bot_clients.walk()),
{
    let mut connections: Vec<(&String, &W)> = Vec::new();
    let count: usize = bot_clients.len();
    let mut i: usize = 0;
    while i < count
        invariant
            i <= count,
            count == bot_clients.walk().len(),
            connections@.len() == i,
            forall|j: int|
                0 <= j < i ==> ((#[trigger] connections@[j]).0@, *connections@[j].1)
                    == bot_clients.walk()[j],
        decreases count - i,
    {
        connections.push((bot_clients.key_at(i), bot_clients.value_at(i)));
        i += 1;
    }
    proof {
        assert(connections@.map_values(
            |connection: (&String, &W)| (connection.0@, *connection.1),
        ) =~= bot_clients.walk());
    }
    connections
}

/// Takes the bots whose connections did not stand off the list of connected bots.
pub fn dead_connections_sanitizer<W>(
    bot_clients: &mut StringMap<W>,
    bot_clients_to_remove: &Vec<String>,
)
    ensures
        final(bot_clients)@ == without(old(bot_clients)@, bot_clients_to_remove.deep_view()),
{
    let _ = take_off(bot_clients, bot_clients_to_remove);
}

/// A bot that was told to end, or whose connection did not stand, is connected no more; all others
/// stay as they were.
pub proof fn law_removed_bots_are_gone<W>(
    clients: Map<Seq<char>, W>,
    gone: Seq<Seq<char>>,
    number: Seq<char>,
)
    ensures
        gone.contains(number) ==> !without(clients, gone).contains_key(number),
        !gone.contains(number) ==> without(clients, gone).contains_key(number)
            == clients.contains_key(number),
        !gone.contains(number) && clients.contains_key(number) ==> without(clients, gone)[number]
            == clients[number],
{
    if gone.contains(number) {
        let at = choose|at: int| 0 <= at < gone.len() && gone[at] == number;
        assert(gone[at] == number);
        assert(among_first(gone, gone.len() as int, number));
    }
}

/// Each connected bot on a list of bots that are to end is told exactly once, on its connection.
pub proof fn law_told_to_end_once<W>(
    clients: Map<Seq<char>, W>,
    affected: Seq<Seq<char>>,
    number: Seq<char>,
)
    requires
        affected.contains(number),
        clients.contains_key(number),
    ensures
        exists|i: int|
            0 <= i < affected.len() && #[trigger] affected[i] == number && taken(clients, affected, i)
                == Some(clients[number]),
        forall|i: int, j: int|
            0 <= i < affected.len() && 0 <= j < affected.len() && #[trigger] affected[i] == number
                && #[trigger] affected[j] == number && taken(clients, affected, i) is Some && taken(
                clients,
                affected,
                j,
            ) is Some ==> i == j,
    decreases affected.len(),
{
    let last = affected.len() - 1;
    let init = affected.drop_last();
    if init.contains(number) {
        law_told_to_end_once(clients, init, number);
        let i = choose|i: int|
            0 <= i < init.len() && #[trigger] init[i] == number && taken(clients, init, i) == Some(
                clients[number],
            );
        assert(affected[i] == number);
        if among_first(affected, i, number) {
            let at = choose|at: int| 0 <= at < i && #[trigger] affected[at] == number;
            assert(init[at] == number);
            assert(among_first(init, i, number));
        }
        assert(taken(clients, affected, i) == Some(clients[number]));
    } else {
        let at = choose|at: int| 0 <= at < affected.len() && affected[at] == number;
        if at < last {
            assert(init[at] == number);
        }
        assert(affected[last] == number);
        if among_first(affected, last, number) {
            let early = choose|early: int| 0 <= early < last && #[trigger] affected[early] == number;
            assert(init[early] == number);
        }
        assert(taken(clients, affected, last) == Some(clients[number]));
    }
    assert forall|i: int, j: int|
        0 <= i < affected.len() && 0 <= j < affected.len() && #[trigger] affected[i] == number
            && #[trigger] affected[j] == number && taken(clients, affected, i) is Some && taken(
            clients,
            affected,
            j,
        ) is Some implies i == j by {
        if i < j {
            assert(among_first(affected, j, number));
        }
        if j < i {
            assert(among_first(affected, i, number));
        }
    }
}

/// A connection is given back for a place on the list exactly where the bot there is connected and
/// does not stand on the list before; it is that bot's own.
pub proof fn law_connection_given_back<W>(
    clients: Map<Seq<char>, W>,
    affected: Seq<Seq<char>>,
    at: int,
)
    requires
        0 <= at < affected.len(),
    ensures
        taken(clients, affected, at) is Some <==> clients.contains_key(affected[at])
            && !affected.take(at).contains(affected[at]),
        taken(clients, affected, at) is Some ==> taken(clients, affected, at)->0
            == clients[affected[at]],
{
    if affected.take(at).contains(affected[at]) {
        let early = choose|early: int|
            0 <= early < affected.take(at).len() && affected.take(at)[early] == affected[at];
        assert(affected[early] == affected[at]);
        assert(among_first(affected, at, affected[at]));
    }
    if among_first(affected, at, affected[at]) {
        let early = choose|early: int|
            0 <= early < at && #[trigger] affected[early] == affected[at];
        assert(affected.take(at)[early] == affected[at]);
    }
}

/// Connections are looked at every half hour.
pub proof fn law_health_check_interval()
    ensures
        HEALTH_CHECK_MINUTES == 30,
{
}

} // verus!
