//! The course of a server: requests that come, go and are cleaned up after.
use crate::directory::{
    channels_in, directory_wf, exists_channel, line_becomes, line_moves, line_of, without_channel,
    Channel, Directory,
};
use crate::name_map::lists;
use crate::pipe::{linked, Payload};
use crate::rendezvous::{without, Line};
use vstd::prelude::*;

verus! {

/// A request to a channel that has not been cleaned up after yet.
pub struct Visit {
    pub namespace: Seq<char>,
    pub name: Seq<char>,
    /// It is a producer's request, not a consumer's.
    pub producer: bool,
    /// It holds an end of the pipe that the directory keeps under this name.
    pub holds: bool,
}

impl Visit {
    /// The request is one to this channel.
    pub open spec fn is_to(self, namespace: Seq<char>, name: Seq<char>) -> bool {
        self.namespace == namespace && self.name == name
    }

    /// The request without its hold on the directory's pipe.
    pub open spec fn released(self) -> Visit {
        Visit { holds: false, ..self }
    }
}

/// A server at one moment: its number, its channels, how many tickets it has
/// given out, and the requests to channels by their tickets.
pub struct Moment {
    pub server: u64,
    pub directory: Directory,
    pub tickets: int,
    pub visits: Map<u64, Visit>,
}

/// Something that happens to a server.
pub enum Deed {
    /// A producer request arrives, and is given this ticket.
    Produce { namespace: Seq<char>, name: Seq<char>, ticket: u64 },
    /// A consumer request arrives, and is given this ticket.
    Consume { namespace: Seq<char>, name: Seq<char>, ticket: u64 },
    /// The consumer receives the producer's payload.
    Receive { namespace: Seq<char>, name: Seq<char>, producer: u64, consumer: u64 },
    /// A request is answered or given up, and lets go of its end of the pipe.
    End { ticket: u64 },
    /// A request that has ended makes way for others.
    Leave { ticket: u64 },
    /// The channel of a request that has ended is removed if it is not in use.
    CleanUp { ticket: u64, senders: usize, receivers: usize },
    /// A channel is destroyed.
    DeleteChannel { namespace: Seq<char>, name: Seq<char> },
    /// A namespace is destroyed, and all of its channels.
    DeleteNamespace { namespace: Seq<char> },
}

/// A request to this channel arrives, and is given this ticket.
pub open spec fn asks_for(
    deed: Deed,
    namespace: Seq<char>,
    name: Seq<char>,
    ticket: u64,
) -> bool {
    ||| deed == (Deed::Produce { namespace, name, ticket })
    ||| deed == (Deed::Consume { namespace, name, ticket })
}

/// A server on which nothing has happened yet.
pub open spec fn fresh(server: u64) -> Moment {
    Moment { server, directory: Map::empty(), tickets: 0, visits: Map::empty() }
}

/// Whether one of the requests holds such an end of the channel's pipe.
pub open spec fn held(
    visits: Map<u64, Visit>,
    namespace: Seq<char>,
    name: Seq<char>,
    producer: bool,
) -> bool {
    exists|ticket: u64| #[trigger]
        visits.contains_key(ticket) && visits[ticket].is_to(namespace, name)
            && visits[ticket].holds && visits[ticket].producer == producer
}

/// The channel has one sender and one receiver for the directory itself, and one
/// more for every request that holds such an end. So there is more than one
/// exactly where a request holds one.
pub open spec fn counts_fit(
    visits: Map<u64, Visit>,
    namespace: Seq<char>,
    name: Seq<char>,
    senders: usize,
    receivers: usize,
) -> bool {
    &&& (senders > 1) == held(visits, namespace, name, true)
    &&& (receivers > 1) == held(visits, namespace, name, false)
}

/// The requests after a channel is destroyed: nobody holds an end of a pipe that
/// the directory keeps under this name.
pub open spec fn released(
    visits: Map<u64, Visit>,
    namespace: Seq<char>,
    name: Seq<char>,
) -> Map<u64, Visit> {
    visits.map_values(
        |visit: Visit|
            if visit.is_to(namespace, name) {
                visit.released()
            } else {
                visit
            },
    )
}

/// The requests after a namespace is destroyed.
pub open spec fn all_released(visits: Map<u64, Visit>, namespace: Seq<char>) -> Map<u64, Visit> {
    visits.map_values(
        |visit: Visit|
            if visit.namespace == namespace {
                visit.released()
            } else {
                visit
            },
    )
}

/// The step from one moment to the next, for each of the things that happen.
///
/// The functions of `ChannelClients` each make such a step, as their contracts
/// say. The one thing that happens without them is that a request ends.
pub open spec fn happens(before: Moment, deed: Deed, after: Moment) -> bool {
    &&& after.server == before.server
    &&& directory_wf(after.directory, after.server, after.tickets)
    &&& match deed {
        Deed::Produce { namespace, name, ticket } => {
            &&& ticket == before.tickets
            &&& after.tickets == before.tickets + 1
            &&& line_becomes(
                before.directory,
                after.directory,
                namespace,
                name,
                line_of(before.directory, namespace, name).with_producer(ticket),
            )
            &&& !exists_channel(before.directory, namespace, name)
                ==> after.directory[namespace][name].opened_by() == ticket
            &&& after.visits == before.visits.insert(
                ticket,
                Visit { namespace, name, producer: true, holds: true },
            )
        },
        Deed::Consume { namespace, name, ticket } => {
            &&& ticket == before.tickets
            &&& after.tickets == before.tickets + 1
            &&& line_becomes(
                before.directory,
                after.directory,
                namespace,
                name,
                line_of(before.directory, namespace, name).with_consumer(ticket),
            )
            &&& !exists_channel(before.directory, namespace, name)
                ==> after.directory[namespace][name].opened_by() == ticket
            &&& after.visits == before.visits.insert(
                ticket,
                Visit { namespace, name, producer: false, holds: true },
            )
        },
        Deed::Receive { namespace, name, producer, consumer } => {
            &&& line_moves(
                before.directory,
                after.directory,
                namespace,
                name,
                line_of(before.directory, namespace, name).handed_over(producer, consumer),
            )
            &&& after.tickets == before.tickets
            &&& after.visits == before.visits
        },
        Deed::End { ticket } => {
            &&& before.visits.contains_key(ticket)
            &&& after.directory == before.directory
            &&& after.tickets == before.tickets
            &&& after.visits == before.visits.insert(ticket, before.visits[ticket].released())
        },
        Deed::Leave { ticket } => {
            let visit = before.visits[ticket];
            &&& before.visits.contains_key(ticket)
            &&& !visit.holds
            &&& line_moves(
                before.directory,
                after.directory,
                visit.namespace,
                visit.name,
                line_of(before.directory, visit.namespace, visit.name).after_leaving(ticket),
            )
            &&& after.tickets == before.tickets
            &&& after.visits == before.visits
        },
        Deed::CleanUp { ticket, senders, receivers } => {
            let visit = before.visits[ticket];
            &&& before.visits.contains_key(ticket)
            &&& !visit.holds
            &&& counts_fit(before.visits, visit.namespace, visit.name, senders, receivers)
            &&& after.directory == if exists_channel(before.directory, visit.namespace, visit.name)
                && senders <= 1 && receivers <= 1 {
                without_channel(before.directory, visit.namespace, visit.name)
            } else {
                before.directory
            }
            &&& after.tickets == before.tickets
            &&& after.visits == before.visits.remove(ticket)
        },
        Deed::DeleteChannel { namespace, name } => {
            &&& after.directory == without_channel(before.directory, namespace, name)
            &&& after.tickets == before.tickets
            &&& after.visits == released(before.visits, namespace, name)
        },
        Deed::DeleteNamespace { namespace } => {
            &&& after.directory == before.directory.remove(namespace)
            &&& after.tickets == before.tickets
            &&& after.visits == all_released(before.visits, namespace)
        },
    }
}

/// A server's course from its start on: from one moment to the next, one thing
/// happens.
pub open spec fn course(moments: Seq<Moment>, deeds: Seq<Deed>) -> bool {
    &&& moments.len() == deeds.len() + 1
    &&& moments[0] == fresh(moments[0].server)
    &&& forall|i: int|
        0 <= i < deeds.len() ==> happens(moments[i], #[trigger] deeds[i], moments[i + 1])
}

/// Every namespace has a channel, every channel has a request that uses it or
/// has still to be cleaned up after, and a request that holds an end of a
/// channel has its channel in the directory.
pub open spec fn tended(moment: Moment) -> bool {
    &&& forall|namespace: Seq<char>| #[trigger]
        moment.directory.contains_key(namespace) ==> moment.directory[namespace] != Map::<
            Seq<char>,
            Channel,
        >::empty()
    &&& forall|namespace: Seq<char>, name: Seq<char>| #[trigger]
        exists_channel(moment.directory, namespace, name) ==> visited(
            moment.visits,
            namespace,
            name,
        )
    &&& forall|ticket: u64| #[trigger]
        moment.visits.contains_key(ticket) ==> {
            &&& ticket < moment.tickets
            &&& moment.visits[ticket].holds ==> exists_channel(
                moment.directory,
                moment.visits[ticket].namespace,
                moment.visits[ticket].name,
            )
        }
}

/// One of the requests is to this channel.
pub open spec fn visited(visits: Map<u64, Visit>, namespace: Seq<char>, name: Seq<char>) -> bool {
    exists|ticket: u64| #[trigger]
        visits.contains_key(ticket) && visits[ticket].is_to(namespace, name)
}

proof fn lemma_exists_after_removal(
    directory: Directory,
    namespace: Seq<char>,
    name: Seq<char>,
    other_namespace: Seq<char>,
    other_name: Seq<char>,
)
    ensures
        exists_channel(
            without_channel(directory, namespace, name),
            other_namespace,
            other_name,
        ) == (exists_channel(directory, other_namespace, other_name) && !(other_namespace
            == namespace && other_name == name)),
        exists_channel(without_channel(directory, namespace, name), other_namespace, other_name)
            ==> without_channel(directory, namespace, name)[other_namespace][other_name]
            == directory[other_namespace][other_name],
{
    let rest = channels_in(directory, namespace).remove(name);
    if rest == Map::<Seq<char>, Channel>::empty() {
        assert(!rest.contains_key(other_name));
    }
}

proof fn lemma_namespaces_stay_filled(before: Moment, deed: Deed, after: Moment)
    requires
        tended(before),
        happens(before, deed, after),
    ensures
        forall|namespace: Seq<char>| #[trigger]
            after.directory.contains_key(namespace) ==> after.directory[namespace] != Map::<
                Seq<char>,
                Channel,
            >::empty(),
{
    assert forall|other: Seq<char>| #[trigger]
        after.directory.contains_key(other) implies after.directory[other] != Map::<
        Seq<char>,
        Channel,
    >::empty() by {
        match deed {
            Deed::Produce { namespace, name, .. } | Deed::Consume { namespace, name, .. } => {
                assert(after.directory[namespace].contains_key(name));
            },
            Deed::Receive { namespace, name, .. } => {
                if exists_channel(before.directory, namespace, name) {
                    assert(after.directory[namespace].contains_key(name));
                }
            },
            Deed::Leave { ticket } => {
                let visit = before.visits[ticket];
                if exists_channel(before.directory, visit.namespace, visit.name) {
                    assert(after.directory[visit.namespace].contains_key(visit.name));
                }
            },
            _ => {},
        }
    }
}

proof fn lemma_stays_tended(before: Moment, deed: Deed, after: Moment)
    requires
        tended(before),
        happens(before, deed, after),
    ensures
        tended(after),
{
    lemma_namespaces_stay_filled(before, deed, after);
    assert forall|namespace: Seq<char>, name: Seq<char>| #[trigger]
        exists_channel(after.directory, namespace, name) implies visited(
        after.visits,
        namespace,
        name,
    ) by {
        lemma_stays_visited(before, deed, after, namespace, name);
    }
    assert forall|ticket: u64| #[trigger] after.visits.contains_key(ticket) implies ticket
        < after.tickets && (after.visits[ticket].holds ==> exists_channel(
        after.directory,
        after.visits[ticket].namespace,
        after.visits[ticket].name,
    )) by {
        lemma_holder_keeps_channel(before, deed, after, ticket);
    }
}

proof fn lemma_stays_visited(
    before: Moment,
    deed: Deed,
    after: Moment,
    namespace: Seq<char>,
    name: Seq<char>,
)
    requires
        tended(before),
        happens(before, deed, after),
        exists_channel(after.directory, namespace, name),
    ensures
        visited(after.visits, namespace, name),
{
    match deed {
        Deed::Produce { namespace: at, name: of, ticket } => {
            if at == namespace && of == name {
                assert(after.visits.contains_key(ticket));
            }
        },
        Deed::Consume { namespace: at, name: of, ticket } => {
            if at == namespace && of == name {
                assert(after.visits.contains_key(ticket));
            }
        },
        Deed::CleanUp { ticket, .. } => {
            let gone = before.visits[ticket];
            lemma_exists_after_removal(
                before.directory,
                gone.namespace,
                gone.name,
                namespace,
                name,
            );
            if gone.is_to(namespace, name) {
                let producer = held(before.visits, namespace, name, true);
                let holder = choose|holder: u64| #[trigger]
                    before.visits.contains_key(holder) && before.visits[holder].is_to(
                        namespace,
                        name,
                    ) && before.visits[holder].holds && before.visits[holder].producer == producer;
                assert(after.visits.contains_key(holder));
            }
        },
        Deed::DeleteChannel { namespace: at, name: of } => {
            lemma_exists_after_removal(before.directory, at, of, namespace, name);
        },
        _ => {},
    }
    if !visited(after.visits, namespace, name) {
        assert(exists_channel(before.directory, namespace, name));
        let ticket = choose|ticket: u64| #[trigger]
            before.visits.contains_key(ticket) && before.visits[ticket].is_to(namespace, name);
        assert(after.visits.contains_key(ticket));
    }
}

proof fn lemma_holder_keeps_channel(before: Moment, deed: Deed, after: Moment, ticket: u64)
    requires
        tended(before),
        happens(before, deed, after),
        after.visits.contains_key(ticket),
    ensures
        ticket < after.tickets,
        after.visits[ticket].holds ==> exists_channel(
            after.directory,
            after.visits[ticket].namespace,
            after.visits[ticket].name,
        ),
{
    let visit = after.visits[ticket];
    match deed {
        Deed::CleanUp { ticket: ended, .. } => {
            let gone = before.visits[ended];
            assert(before.visits.contains_key(ticket));
            lemma_exists_after_removal(
                before.directory,
                gone.namespace,
                gone.name,
                visit.namespace,
                visit.name,
            );
        },
        Deed::DeleteChannel { namespace, name } => {
            assert(before.visits.contains_key(ticket));
            lemma_exists_after_removal(
                before.directory,
                namespace,
                name,
                visit.namespace,
                visit.name,
            );
        },
        Deed::DeleteNamespace { .. } => {
            assert(before.visits.contains_key(ticket));
        },
        Deed::Produce { ticket: new, .. } | Deed::Consume { ticket: new, .. } => {
            if ticket != new {
                assert(before.visits.contains_key(ticket));
            }
        },
        _ => {
            assert(before.visits.contains_key(ticket));
        },
    }
}

/// Whatever happens on a server, at every moment each channel has a request that
/// uses it or has still to be cleaned up after, and as long as a request holds
/// an end of a channel, the channel stays, unless it is destroyed.
pub proof fn law_channels_are_there_for_requests(moments: Seq<Moment>, deeds: Seq<Deed>, i: int)
    requires
        course(moments, deeds),
        0 <= i < moments.len(),
    ensures
        tended(moments[i]),
    decreases i,
{
    if i > 0 {
        law_channels_are_there_for_requests(moments, deeds, i - 1);
        assert(happens(moments[i - 1], deeds[i - 1], moments[i - 1 + 1]));
        lemma_stays_tended(moments[i - 1], deeds[i - 1], moments[i]);
    }
}

/// Unused channels and namespaces are removed: whatever requests a server has
/// had, in whatever order they came, went and were cleaned up after, once all of
/// them are over there is no channel and no namespace left.
pub proof fn law_nothing_is_left_behind(moments: Seq<Moment>, deeds: Seq<Deed>)
    requires
        course(moments, deeds),
        moments.last().visits == Map::<u64, Visit>::empty(),
    ensures
        moments.last().directory == Map::<Seq<char>, Map<Seq<char>, Channel>>::empty(),
{
    law_channels_are_there_for_requests(moments, deeds, moments.len() - 1);
    let directory = moments.last().directory;
    assert forall|namespace: Seq<char>| !directory.contains_key(namespace) by {
        if directory.contains_key(namespace) {
            assert forall|name: Seq<char>| !directory[namespace].contains_key(name) by {
                if directory[namespace].contains_key(name) {
                    assert(exists_channel(directory, namespace, name));
                }
            }
            assert(directory[namespace] =~= Map::<Seq<char>, Channel>::empty());
        }
    }
    assert(directory =~= Map::<Seq<char>, Map<Seq<char>, Channel>>::empty());
}

/// Every channel was asked for, and everybody who waits for it or is served
/// there made a request for it.
pub open spec fn accounted(moment: Moment, deeds: Seq<Deed>) -> bool {
    &&& forall|namespace: Seq<char>, name: Seq<char>| #[trigger]
        exists_channel(moment.directory, namespace, name) ==> exists|i: int, ticket: u64|
            0 <= i < deeds.len() && #[trigger] asks_for(deeds[i], namespace, name, ticket)
    &&& forall|namespace: Seq<char>, name: Seq<char>, ticket: u64| #[trigger]
        line_of(moment.directory, namespace, name).knows(ticket) ==> exists|i: int|
            0 <= i < deeds.len() && #[trigger] asks_for(deeds[i], namespace, name, ticket)
}

proof fn lemma_settled_knows(line: Line, ticket: u64)
    requires
        line.settled().knows(ticket),
    ensures
        line.knows(ticket),
{
    let after = line.settled();
    if after.producers.contains(ticket) && !line.producers.contains(ticket) {
        let i = after.producers.index_of(ticket);
        assert(line.producers[i + 1] == ticket);
    }
    if after.consumers.contains(ticket) && !line.consumers.contains(ticket) {
        let i = after.consumers.index_of(ticket);
        assert(line.consumers[i + 1] == ticket);
    }
}

proof fn lemma_joined_knows(line: Line, new: u64, ticket: u64)
    ensures
        line.with_producer(new).knows(ticket) ==> ticket == new || line.knows(ticket),
        line.with_consumer(new).knows(ticket) ==> ticket == new || line.knows(ticket),
{
    let produced = Line { producers: line.producers.push(new), ..line };
    let consumed = Line { consumers: line.consumers.push(new), ..line };
    if line.with_producer(new).knows(ticket) {
        lemma_settled_knows(produced, ticket);
        if produced.producers.contains(ticket) && ticket != new {
            assert(line.producers[produced.producers.index_of(ticket)] == ticket);
        }
    }
    if line.with_consumer(new).knows(ticket) {
        lemma_settled_knows(consumed, ticket);
        if consumed.consumers.contains(ticket) && ticket != new {
            assert(line.consumers[consumed.consumers.index_of(ticket)] == ticket);
        }
    }
}

proof fn lemma_without_contains(tickets: Seq<u64>, gone: u64, ticket: u64)
    requires
        without(tickets, gone).contains(ticket),
    ensures
        tickets.contains(ticket),
{
    if tickets.contains(gone) {
        let k = tickets.index_of(gone);
        let i = without(tickets, gone).index_of(ticket);
        let j = if i < k { i } else { i + 1 };
        assert(tickets[j] == ticket);
    }
}

proof fn lemma_left_knows(line: Line, gone: u64, ticket: u64)
    requires
        line.after_leaving(gone).knows(ticket),
    ensures
        line.knows(ticket),
{
    if without(line.producers, gone).contains(ticket) {
        lemma_without_contains(line.producers, gone, ticket);
    }
    if without(line.consumers, gone).contains(ticket) {
        lemma_without_contains(line.consumers, gone, ticket);
    }
    match line.pair {
        Some(pair) => {
            let consumers = seq![pair.consumer] + line.consumers;
            let producers = seq![pair.producer] + line.producers;
            let first = Line { producers: line.producers, consumers, pair: None };
            let second = Line { producers, consumers: line.consumers, pair: None };
            let third = Line { producers: line.producers, consumers: line.consumers, pair: None };
            if first.settled().knows(ticket) {
                lemma_settled_knows(first, ticket);
            }
            if second.settled().knows(ticket) {
                lemma_settled_knows(second, ticket);
            }
            if third.settled().knows(ticket) {
                lemma_settled_knows(third, ticket);
            }
            if consumers.contains(ticket) && ticket != pair.consumer {
                assert(line.consumers[consumers.index_of(ticket) - 1] == ticket);
            }
            if producers.contains(ticket) && ticket != pair.producer {
                assert(line.producers[producers.index_of(ticket) - 1] == ticket);
            }
        },
        None => {},
    }
}

proof fn lemma_step_is_accounted(
    before: Moment,
    deed: Deed,
    after: Moment,
    namespace: Seq<char>,
    name: Seq<char>,
    ticket: u64,
)
    requires
        happens(before, deed, after),
    ensures
        exists_channel(after.directory, namespace, name) ==> exists_channel(
            before.directory,
            namespace,
            name,
        ) || exists|new: u64| #[trigger] asks_for(deed, namespace, name, new),
        line_of(after.directory, namespace, name).knows(ticket) ==> line_of(
            before.directory,
            namespace,
            name,
        ).knows(ticket) || asks_for(deed, namespace, name, ticket),
{
    let line = line_of(before.directory, namespace, name);
    match deed {
        Deed::Produce { namespace: at, name: of, ticket: new } => {
            if at == namespace && of == name {
                assert(asks_for(deed, namespace, name, new));
                lemma_joined_knows(line, new, ticket);
            }
        },
        Deed::Consume { namespace: at, name: of, ticket: new } => {
            if at == namespace && of == name {
                assert(asks_for(deed, namespace, name, new));
                lemma_joined_knows(line, new, ticket);
            }
        },
        Deed::Leave { ticket: gone } => {
            if line.after_leaving(gone).knows(ticket) {
                lemma_left_knows(line, gone, ticket);
            }
        },
        Deed::CleanUp { ticket: gone, .. } => {
            let visit = before.visits[gone];
            lemma_exists_after_removal(
                before.directory,
                visit.namespace,
                visit.name,
                namespace,
                name,
            );
        },
        Deed::DeleteChannel { namespace: at, name: of } => {
            lemma_exists_after_removal(before.directory, at, of, namespace, name);
        },
        _ => {},
    }
}

/// Nothing is on a server that was not asked of it: every channel was made by a
/// request for it, and whoever waits for a channel or has been matched there
/// made a request for that channel.
pub proof fn law_everything_was_asked_for(moments: Seq<Moment>, deeds: Seq<Deed>)
    requires
        course(moments, deeds),
    ensures
        accounted(moments.last(), deeds),
    decreases deeds.len(),
{
    if deeds.len() > 0 {
        let n = deeds.len() as int;
        let earlier = deeds.drop_last();
        let (before, deed, after) = (moments[n - 1], deeds[n - 1], moments[n]);
        assert(course(moments.drop_last(), earlier)) by {
            assert forall|i: int| 0 <= i < earlier.len() implies happens(
                moments.drop_last()[i],
                #[trigger] earlier[i],
                moments.drop_last()[i + 1],
            ) by {
                assert(happens(moments[i], deeds[i], moments[i + 1]));
            }
        }
        law_everything_was_asked_for(moments.drop_last(), earlier);
        assert(happens(before, deed, moments[n - 1 + 1]));
        assert forall|namespace: Seq<char>, name: Seq<char>| #[trigger]
            exists_channel(after.directory, namespace, name) implies exists|i: int, ticket: u64|
            0 <= i < deeds.len() && #[trigger] asks_for(deeds[i], namespace, name, ticket) by {
            lemma_step_is_accounted(before, deed, after, namespace, name, 0);
            if exists_channel(before.directory, namespace, name) {
                let (i, ticket) = choose|i: int, ticket: u64|
                    0 <= i < earlier.len() && #[trigger] asks_for(
                        earlier[i],
                        namespace,
                        name,
                        ticket,
                    );
                assert(asks_for(deeds[i], namespace, name, ticket));
            } else {
                let new = choose|new: u64| #[trigger] asks_for(deed, namespace, name, new);
                assert(asks_for(deeds[n - 1], namespace, name, new));
            }
        }
        assert forall|namespace: Seq<char>, name: Seq<char>, ticket: u64| #[trigger]
            line_of(after.directory, namespace, name).knows(ticket) implies exists|i: int|
            0 <= i < deeds.len() && #[trigger] asks_for(deeds[i], namespace, name, ticket) by {
            lemma_step_is_accounted(before, deed, after, namespace, name, ticket);
            if line_of(before.directory, namespace, name).knows(ticket) {
                let i = choose|i: int|
                    0 <= i < earlier.len() && #[trigger] asks_for(
                        earlier[i],
                        namespace,
                        name,
                        ticket,
                    );
                assert(asks_for(deeds[i], namespace, name, ticket));
            } else {
                assert(asks_for(deeds[n - 1], namespace, name, ticket));
            }
        }
    }
}

/// Two servers at one moment.
pub struct Servers {
    pub one: Moment,
    pub two: Moment,
}

impl Servers {
    /// The first of the servers, or the second.
    pub open spec fn of(self, first: bool) -> Moment {
        if first {
            self.one
        } else {
            self.two
        }
    }
}

/// The course of two servers side by side: from one moment to the next, one
/// thing happens on the one or on the other.
pub open spec fn courses(moments: Seq<Servers>, deeds: Seq<(bool, Deed)>) -> bool {
    &&& moments.len() == deeds.len() + 1
    &&& moments[0].one == fresh(moments[0].one.server)
    &&& moments[0].two == fresh(moments[0].two.server)
    &&& forall|i: int|
        0 <= i < deeds.len() ==> {
            let (first, deed) = #[trigger] deeds[i];
            &&& happens(moments[i].of(first), deed, moments[i + 1].of(first))
            &&& moments[i + 1].of(!first) == moments[i].of(!first)
        }
}

/// What happens on one of two servers.
pub open spec fn deeds_on(deeds: Seq<(bool, Deed)>, first: bool) -> Seq<Deed>
    decreases deeds.len(),
{
    if deeds.len() == 0 {
        seq![]
    } else if deeds.last().0 == first {
        deeds_on(deeds.drop_last(), first).push(deeds.last().1)
    } else {
        deeds_on(deeds.drop_last(), first)
    }
}

/// The moments of one of two servers, from its start on and after everything
/// that happens on it.
pub open spec fn moments_on(
    moments: Seq<Servers>,
    deeds: Seq<(bool, Deed)>,
    first: bool,
) -> Seq<Moment>
    decreases deeds.len(),
{
    if deeds.len() == 0 {
        seq![moments[0].of(first)]
    } else if deeds.last().0 == first {
        moments_on(moments.drop_last(), deeds.drop_last(), first).push(moments.last().of(first))
    } else {
        moments_on(moments.drop_last(), deeds.drop_last(), first)
    }
}

proof fn lemma_own_course(moments: Seq<Servers>, deeds: Seq<(bool, Deed)>, first: bool)
    requires
        courses(moments, deeds),
    ensures
        course(moments_on(moments, deeds, first), deeds_on(deeds, first)),
        moments_on(moments, deeds, first).last() == moments.last().of(first),
    decreases deeds.len(),
{
    if deeds.len() > 0 {
        let n = deeds.len() as int;
        let earlier = deeds.drop_last();
        let until = moments.drop_last();
        assert(courses(until, earlier)) by {
            assert forall|i: int| 0 <= i < earlier.len() implies {
                let (side, deed) = #[trigger] earlier[i];
                &&& happens(until[i].of(side), deed, until[i + 1].of(side))
                &&& until[i + 1].of(!side) == until[i].of(!side)
            } by {
                assert(deeds[i] == earlier[i]);
            }
        }
        lemma_own_course(until, earlier, first);
        let own = moments_on(until, earlier, first);
        let done = deeds_on(earlier, first);
        assert(deeds[n - 1] == deeds.last());
        assert(moments[n - 1 + 1] == moments.last());
        assert(own.last() == moments[n - 1].of(first));
        if deeds.last().0 == first {
            let next = own.push(moments.last().of(first));
            assert forall|i: int| 0 <= i < done.len() + 1 implies happens(
                next[i],
                #[trigger] done.push(deeds.last().1)[i],
                next[i + 1],
            ) by {
                if i < done.len() {
                    assert(happens(own[i], done[i], own[i + 1]));
                }
            }
        } else {
            assert(deeds.last().0 == !first);
        }
    }
}

proof fn lemma_first_moment(moments: Seq<Servers>, deeds: Seq<(bool, Deed)>, first: bool)
    requires
        moments.len() == deeds.len() + 1,
    ensures
        moments_on(moments, deeds, first).len() > 0,
        moments_on(moments, deeds, first)[0] == moments[0].of(first),
    decreases deeds.len(),
{
    if deeds.len() > 0 {
        lemma_first_moment(moments.drop_last(), deeds.drop_last(), first);
    }
}

proof fn lemma_server_stays(moments: Seq<Moment>, deeds: Seq<Deed>)
    requires
        course(moments, deeds),
    ensures
        moments.last().server == moments[0].server,
        directory_wf(moments.last().directory, moments.last().server, moments.last().tickets),
    decreases deeds.len(),
{
    if deeds.len() > 0 {
        let n = deeds.len() as int;
        assert(course(moments.drop_last(), deeds.drop_last())) by {
            assert forall|i: int| 0 <= i < n - 1 implies happens(
                moments.drop_last()[i],
                #[trigger] deeds.drop_last()[i],
                moments.drop_last()[i + 1],
            ) by {
                assert(happens(moments[i], deeds[i], moments[i + 1]));
            }
        }
        lemma_server_stays(moments.drop_last(), deeds.drop_last());
        assert(happens(moments[n - 1], deeds[n - 1], moments[n - 1 + 1]));
    }
}

/// No receiver is an end of a channel here and of one there.
pub open spec fn no_common_pipe(here: Directory, there: Directory) -> bool {
    forall|
        namespace: Seq<char>,
        name: Seq<char>,
        other_namespace: Seq<char>,
        other_name: Seq<char>,
        end: flume::Receiver<Payload>,
    |
        exists_channel(here, namespace, name) && exists_channel(there, other_namespace, other_name)
            ==> !(#[trigger] linked(here[namespace][name].tx, end) && #[trigger] linked(
            there[other_namespace][other_name].tx,
            end,
        ))
}

/// Servers share nothing. A new one has no namespaces, so there is nothing that
/// it lists. From then on each of two servers goes the course that its own
/// requests alone make it go, whatever is asked of the other: the channels that
/// it has were asked for there, and so were all who wait for them or have been
/// matched. No pipe of a server leads to one of a server of another number, even
/// under the same name.
pub proof fn law_servers_share_nothing(
    moments: Seq<Servers>,
    deeds: Seq<(bool, Deed)>,
    first: bool,
)
    requires
        courses(moments, deeds),
    ensures
        forall|names: Seq<Seq<char>>| #[trigger]
            lists(names, moments[0].of(first).directory.dom()) ==> names.len() == 0,
        course(moments_on(moments, deeds, first), deeds_on(deeds, first)),
        moments_on(moments, deeds, first).last() == moments.last().of(first),
        accounted(moments.last().of(first), deeds_on(deeds, first)),
        moments[0].one.server != moments[0].two.server ==> no_common_pipe(
            moments.last().one.directory,
            moments.last().two.directory,
        ),
{
    assert forall|names: Seq<Seq<char>>| #[trigger]
        lists(names, moments[0].of(first).directory.dom()) implies names.len() == 0 by {
        if names.len() > 0 {
            assert(names.to_set().contains(names[0]));
        }
    }
    lemma_own_course(moments, deeds, first);
    law_everything_was_asked_for(moments_on(moments, deeds, first), deeds_on(deeds, first));
    lemma_own_course(moments, deeds, !first);
    let one = moments_on(moments, deeds, true);
    let two = moments_on(moments, deeds, false);
    lemma_server_stays(one, deeds_on(deeds, true));
    lemma_server_stays(two, deeds_on(deeds, false));
    lemma_first_moment(moments, deeds, true);
    lemma_first_moment(moments, deeds, false);
    if moments[0].one.server != moments[0].two.server {
        let (here, there) = (moments.last().one, moments.last().two);
        assert forall|
            namespace: Seq<char>,
            name: Seq<char>,
            other_namespace: Seq<char>,
            other_name: Seq<char>,
            end: flume::Receiver<Payload>,
        |
            exists_channel(here.directory, namespace, name) && exists_channel(
                there.directory,
                other_namespace,
                other_name,
            ) implies !(#[trigger] linked(here.directory[namespace][name].tx, end)
            && #[trigger] linked(there.directory[other_namespace][other_name].tx, end)) by {
            assert(here.directory[namespace][name].belongs_to(here.server, namespace, name));
            assert(there.directory[other_namespace][other_name].belongs_to(
                there.server,
                other_namespace,
                other_name,
            ));
        }
    }
}

} // verus!
