//! Which channels there are, and what requests change about it.
use crate::pipe::{bounded, capacity, linked, made_for, Payload};
use crate::rendezvous::{lemma_wf_later, Line, Rendezvous};
use vstd::prelude::*;

verus! {

/// One channel: the two ends of the pipe, and who waits for it.
pub struct Channel {
    pub tx: flume::Sender<Payload>,
    pub rx: flume::Receiver<Payload>,
    pub line: Rendezvous,
}

impl Channel {
    /// The ticket of the request for which the channel was made.
    pub open spec fn opened_by(&self) -> u64 {
        made_for(self.rx).3
    }

    /// The two ends belong together, nothing is held back between them, the
    /// channel was made for an earlier request, and the queues are in order.
    pub open spec fn wf(&self, tickets: int) -> bool {
        &&& linked(self.tx, self.rx)
        &&& capacity(self.tx) == Some(0usize)
        &&& self.opened_by() < tickets
        &&& self.line@.wf(tickets)
    }

    /// The pipe was made for this namespace and name on this server, and it is
    /// this channel's alone.
    pub open spec fn belongs_to(
        &self,
        server: u64,
        namespace: Seq<char>,
        name: Seq<char>,
    ) -> bool {
        forall|rx: flume::Receiver<Payload>| #[trigger]
            linked(self.tx, rx) ==> made_for(rx) == (server, namespace, name, self.opened_by())
    }

    /// A channel that nobody uses yet.
    pub(crate) fn new(server: u64, namespace: &String, name: &String, ticket: u64) -> (channel:
        Channel)
        ensures
            channel.line@ == Line::empty(),
            channel.opened_by() == ticket,
            channel.belongs_to(server, namespace@, name@),
            forall|tickets: int| ticket < tickets ==> #[trigger] channel.wf(tickets),
    {
        let (tx, rx) = bounded(0, server, namespace, name, ticket);
        Channel { tx, rx, line: Rendezvous::new() }
    }
}

/// The channels by namespace and name.
pub type Directory = Map<Seq<char>, Map<Seq<char>, Channel>>;

/// The channels of a namespace.
pub open spec fn channels_in(directory: Directory, namespace: Seq<char>) -> Map<
    Seq<char>,
    Channel,
> {
    if directory.contains_key(namespace) {
        directory[namespace]
    } else {
        Map::empty()
    }
}

/// Whether there is a channel of this name in this namespace.
pub open spec fn exists_channel(
    directory: Directory,
    namespace: Seq<char>,
    name: Seq<char>,
) -> bool {
    channels_in(directory, namespace).contains_key(name)
}

/// Who waits for a channel, and whom it serves.
pub open spec fn line_of(directory: Directory, namespace: Seq<char>, name: Seq<char>) -> Line {
    if exists_channel(directory, namespace, name) {
        directory[namespace][name].line@
    } else {
        Line::empty()
    }
}

/// The directory with one channel put in, or in place of what it was.
pub open spec fn with_channel(
    directory: Directory,
    namespace: Seq<char>,
    name: Seq<char>,
    channel: Channel,
) -> Directory {
    directory.insert(namespace, channels_in(directory, namespace).insert(name, channel))
}

/// The directory without one channel. A namespace goes with its last channel.
pub open spec fn without_channel(
    directory: Directory,
    namespace: Seq<char>,
    name: Seq<char>,
) -> Directory {
    let rest = channels_in(directory, namespace).remove(name);
    if rest == Map::<Seq<char>, Channel>::empty() {
        directory.remove(namespace)
    } else {
        directory.insert(namespace, rest)
    }
}

/// Every namespace has a channel, and every channel is in order and has a pipe
/// of its own.
pub open spec fn directory_wf(directory: Directory, server: u64, tickets: int) -> bool {
    forall|namespace: Seq<char>| #[trigger]
        directory.contains_key(namespace) ==> {
            &&& directory[namespace] != Map::<Seq<char>, Channel>::empty()
            &&& forall|name: Seq<char>| #[trigger]
                directory[namespace].contains_key(name) ==> {
                    &&& directory[namespace][name].wf(tickets)
                    &&& directory[namespace][name].belongs_to(server, namespace, name)
                }
        }
}

/// What a request to a channel leads to: there is the channel, the one from
/// before if there was one, with this line; everything else is as it was.
pub open spec fn line_becomes(
    before: Directory,
    after: Directory,
    namespace: Seq<char>,
    name: Seq<char>,
    line: Line,
) -> bool {
    &&& exists_channel(after, namespace, name)
    &&& after == with_channel(before, namespace, name, after[namespace][name])
    &&& exists_channel(before, namespace, name) ==> same_pipe(
        before[namespace][name],
        after[namespace][name],
    )
    &&& after[namespace][name].line@ == line
}

/// The line of a channel changes to this, if there is the channel; everything
/// else is as it was.
pub open spec fn line_moves(
    before: Directory,
    after: Directory,
    namespace: Seq<char>,
    name: Seq<char>,
    line: Line,
) -> bool {
    if exists_channel(before, namespace, name) {
        line_becomes(before, after, namespace, name, line)
    } else {
        after == before
    }
}

/// The two have the same ends.
pub open spec fn same_pipe(a: Channel, b: Channel) -> bool {
    a.tx == b.tx && a.rx == b.rx
}

/// What is sent here comes out wherever the channel's payloads do, and waits
/// for a receiver to take it.
pub open spec fn sends_to(tx: flume::Sender<Payload>, channel: Channel) -> bool {
    &&& capacity(tx) == capacity(channel.tx)
    &&& forall|rx: flume::Receiver<Payload>| #[trigger] linked(tx, rx) == linked(channel.tx, rx)
}

/// What comes out here is what is sent into the channel.
pub open spec fn receives_from(rx: flume::Receiver<Payload>, channel: Channel) -> bool {
    forall|tx: flume::Sender<Payload>| #[trigger] linked(tx, rx) == linked(tx, channel.rx)
}

/// Whether a request waits in a line.
pub open spec fn waits(line: Line, ticket: u64) -> bool {
    line.producers.contains(ticket) || line.consumers.contains(ticket)
}

/// Whether a request waits for one of these channels.
pub open spec fn waits_in(channels: Map<Seq<char>, Channel>, ticket: u64) -> bool {
    exists|name: Seq<char>| #[trigger]
        channels.contains_key(name) && waits(channels[name].line@, ticket)
}

pub(crate) proof fn lemma_with_channel_wf(
    directory: Directory,
    server: u64,
    namespace: Seq<char>,
    name: Seq<char>,
    channel: Channel,
    tickets: int,
)
    requires
        directory_wf(directory, server, tickets),
        channel.wf(tickets),
        channel.belongs_to(server, namespace, name),
    ensures
        directory_wf(with_channel(directory, namespace, name, channel), server, tickets),
{
    let after = with_channel(directory, namespace, name, channel);
    assert forall|other: Seq<char>| #[trigger] after.contains_key(other) implies after[other]
        != Map::<Seq<char>, Channel>::empty() by {
        if other == namespace {
            assert(after[other].contains_key(name));
        }
    }
    assert forall|other: Seq<char>, key: Seq<char>|
        after.contains_key(other) && #[trigger] after[other].contains_key(key) implies after[other][key].wf(
    tickets) && after[other][key].belongs_to(server, other, key) by {
        if other == namespace && key != name {
            assert(directory[namespace].contains_key(key));
        }
    }
}

pub(crate) proof fn lemma_directory_wf_later(
    directory: Directory,
    server: u64,
    tickets: int,
    later: int,
)
    requires
        directory_wf(directory, server, tickets),
        tickets <= later,
    ensures
        directory_wf(directory, server, later),
{
    assert forall|namespace: Seq<char>, name: Seq<char>|
        directory.contains_key(namespace) && #[trigger] directory[namespace].contains_key(
            name,
        ) implies directory[namespace][name].wf(later) by {
        lemma_wf_later(directory[namespace][name].line@, tickets, later);
    }
}

pub(crate) proof fn lemma_without_channel(
    directory: Directory,
    server: u64,
    namespace: Seq<char>,
    name: Seq<char>,
    tickets: int,
)
    requires
        directory_wf(directory, server, tickets),
    ensures
        directory_wf(without_channel(directory, namespace, name), server, tickets),
        !exists_channel(directory, namespace, name) ==> without_channel(directory, namespace, name)
            == directory,
{
    let rest = channels_in(directory, namespace).remove(name);
    let after = without_channel(directory, namespace, name);
    assert forall|other: Seq<char>, key: Seq<char>|
        after.contains_key(other) && #[trigger] after[other].contains_key(key) implies after[other][key].wf(
    tickets) && after[other][key].belongs_to(server, other, key) by {
        if other == namespace {
            assert(directory[namespace].contains_key(key));
        }
    }
    if !exists_channel(directory, namespace, name) {
        assert(rest =~= channels_in(directory, namespace));
        assert(after =~= directory);
    }
}

/// The producers and consumers of one name meet in one channel, whoever comes
/// first: what the one sends comes out at the other, and is not held back in
/// between.
pub proof fn law_same_name_same_channel(
    before: Directory,
    between: Directory,
    after: Directory,
    server: u64,
    tickets: int,
    namespace: Seq<char>,
    name: Seq<char>,
    first: Line,
    second: Line,
    tx: flume::Sender<Payload>,
    rx: flume::Receiver<Payload>,
)
    requires
        directory_wf(between, server, tickets),
        line_becomes(before, between, namespace, name, first),
        line_becomes(between, after, namespace, name, second),
        // the producer came first and the consumer second, or the other way round
        (sends_to(tx, between[namespace][name]) && receives_from(rx, after[namespace][name])) || (
        sends_to(tx, after[namespace][name]) && receives_from(rx, between[namespace][name])),
    ensures
        linked(tx, rx),
        capacity(tx) == Some(0usize),
{
    assert(between[namespace][name].wf(tickets));
}

/// Channels are told apart by namespace and name together: a request to one
/// leaves every other as it is, one of the same name in another namespace
/// among them.
pub proof fn law_channels_are_separate(
    before: Directory,
    after: Directory,
    namespace: Seq<char>,
    name: Seq<char>,
    line: Line,
    other_namespace: Seq<char>,
    other_name: Seq<char>,
)
    requires
        line_becomes(before, after, namespace, name, line),
        other_namespace != namespace || other_name != name,
    ensures
        exists_channel(after, other_namespace, other_name) == exists_channel(
            before,
            other_namespace,
            other_name,
        ),
        exists_channel(before, other_namespace, other_name)
            ==> after[other_namespace][other_name] == before[other_namespace][other_name],
{
}

/// No payload comes out of another channel than the one it is sent into: what
/// goes into the pipe of one namespace and name is not received from that of
/// another, be it in the same directory or in a later one. Nor is it received on
/// a server of another number, under whatever name.
pub proof fn law_no_payload_goes_astray(
    here: Directory,
    there: Directory,
    server_here: u64,
    server_there: u64,
    tickets_here: int,
    tickets_there: int,
    namespace: Seq<char>,
    name: Seq<char>,
    other_namespace: Seq<char>,
    other_name: Seq<char>,
    tx: flume::Sender<Payload>,
    rx: flume::Receiver<Payload>,
)
    requires
        directory_wf(here, server_here, tickets_here),
        directory_wf(there, server_there, tickets_there),
        exists_channel(here, namespace, name),
        exists_channel(there, other_namespace, other_name),
        server_there != server_here || other_namespace != namespace || other_name != name,
        sends_to(tx, here[namespace][name]),
        receives_from(rx, there[other_namespace][other_name]),
    ensures
        !linked(tx, rx),
        forall|end: flume::Receiver<Payload>|
            !(#[trigger] linked(here[namespace][name].tx, end) && linked(
                there[other_namespace][other_name].tx,
                end,
            )),
{
    let from = here[namespace][name];
    let to = there[other_namespace][other_name];
    assert(from.belongs_to(server_here, namespace, name));
    assert(to.wf(tickets_there) && to.belongs_to(server_there, other_namespace, other_name));
    assert(linked(to.tx, rx));
}

/// A channel that is made again after it was destroyed or removed is another
/// one: what is still sent into the old one does not come out of the new one,
/// nor the other way round.
pub proof fn law_made_again_is_another_channel(
    earlier: Directory,
    later: Directory,
    server: u64,
    tickets: int,
    tickets_later: int,
    namespace: Seq<char>,
    name: Seq<char>,
    tx: flume::Sender<Payload>,
    rx: flume::Receiver<Payload>,
)
    requires
        directory_wf(earlier, server, tickets),
        directory_wf(later, server, tickets_later),
        exists_channel(earlier, namespace, name),
        exists_channel(later, namespace, name),
        // the later one was made for a request that came after
        tickets <= later[namespace][name].opened_by(),
        (sends_to(tx, earlier[namespace][name]) && receives_from(rx, later[namespace][name])) || (
        sends_to(tx, later[namespace][name]) && receives_from(rx, earlier[namespace][name])),
    ensures
        !linked(tx, rx),
{
    let old_one = earlier[namespace][name];
    let new_one = later[namespace][name];
    assert(old_one.wf(tickets) && old_one.belongs_to(server, namespace, name));
    assert(new_one.wf(tickets_later) && new_one.belongs_to(server, namespace, name));
}

/// Namespaces and channels are made on first use: after a request there are
/// the ones it names and those that were there before.
pub proof fn law_made_on_first_use(
    before: Directory,
    after: Directory,
    namespace: Seq<char>,
    name: Seq<char>,
    line: Line,
)
    requires
        line_becomes(before, after, namespace, name, line),
    ensures
        after.dom() == before.dom().insert(namespace),
        after[namespace].dom() == channels_in(before, namespace).dom().insert(name),
        !before.contains_key(namespace) ==> after[namespace].dom() == set![name],
{
}

/// A channel that is removed is gone and takes nothing with it but its
/// namespace, and that only if no other channel is left in it.
pub proof fn law_removal_takes_one_channel(
    directory: Directory,
    server: u64,
    tickets: int,
    namespace: Seq<char>,
    name: Seq<char>,
)
    requires
        directory_wf(directory, server, tickets),
    ensures
        ({
            let after = without_channel(directory, namespace, name);
            &&& directory_wf(after, server, tickets)
            &&& !exists_channel(after, namespace, name)
            &&& forall|other: Seq<char>, key: Seq<char>|
                (other != namespace || key != name) ==> #[trigger] exists_channel(after, other, key)
                    == exists_channel(directory, other, key) && (exists_channel(
                    directory,
                    other,
                    key,
                ) ==> after[other][key] == directory[other][key])
            &&& after.contains_key(namespace) == exists|key: Seq<char>|
                key != name && #[trigger] exists_channel(directory, namespace, key)
        }),
{
    lemma_without_channel(directory, server, namespace, name, tickets);
    let rest = channels_in(directory, namespace).remove(name);
    let after = without_channel(directory, namespace, name);
    if rest == Map::<Seq<char>, Channel>::empty() {
        assert forall|key: Seq<char>| key != name implies !#[trigger] exists_channel(
            directory,
            namespace,
            key,
        ) by {
            assert(!rest.contains_key(key));
        }
    } else {
        assert(exists|key: Seq<char>| rest.contains_key(key)) by {
            if forall|key: Seq<char>| !rest.contains_key(key) {
                assert(rest =~= Map::<Seq<char>, Channel>::empty());
            }
        }
        let key = choose|key: Seq<char>| rest.contains_key(key);
        assert(exists_channel(directory, namespace, key));
    }
}

/// What was made for the first request to a channel is gone again once the
/// channel is removed: nothing of an unused channel stays behind.
pub proof fn law_removal_undoes_first_use(
    before: Directory,
    after: Directory,
    server: u64,
    tickets: int,
    namespace: Seq<char>,
    name: Seq<char>,
    line: Line,
)
    requires
        directory_wf(before, server, tickets),
        !exists_channel(before, namespace, name),
        line_becomes(before, after, namespace, name, line),
    ensures
        without_channel(after, namespace, name) == before,
{
    lemma_without_channel(before, server, namespace, name, tickets);
    assert(channels_in(after, namespace).remove(name) =~= channels_in(before, namespace));
    assert(without_channel(after, namespace, name) =~= before);
}

/// There is a channel exactly where its namespace is there and holds its name,
/// and its line is the one that is kept there. Nobody waits where there is none.
pub proof fn law_where_a_channel_is(directory: Directory, namespace: Seq<char>, name: Seq<char>)
    ensures
        exists_channel(directory, namespace, name) == (directory.contains_key(namespace)
            && directory[namespace].contains_key(name)),
        directory.contains_key(namespace) && directory[namespace].contains_key(name) ==> line_of(
            directory,
            namespace,
            name,
        ) == directory[namespace][name].line@,
        !(directory.contains_key(namespace) && directory[namespace].contains_key(name)) ==> {
            let line = line_of(directory, namespace, name);
            line.producers.len() == 0 && line.consumers.len() == 0 && line.pair is None
        },
{
}

/// A request to a channel leads to this channel with this line, over the pipe
/// that it had if it was there before, and to nothing else: every other channel,
/// of this namespace or another, is there after exactly if it was before, and is
/// the same.
pub proof fn law_a_request_changes_one_channel(
    before: Directory,
    after: Directory,
    namespace: Seq<char>,
    name: Seq<char>,
    line: Line,
)
    requires
        line_becomes(before, after, namespace, name, line),
    ensures
        after.contains_key(namespace),
        after[namespace].contains_key(name),
        after[namespace][name].line@ == line,
        before.contains_key(namespace) && before[namespace].contains_key(name) ==> {
            &&& after[namespace][name].tx == before[namespace][name].tx
            &&& after[namespace][name].rx == before[namespace][name].rx
        },
        forall|other: Seq<char>|
            other != namespace ==> #[trigger] after.contains_key(other) == before.contains_key(other)
                && (before.contains_key(other) ==> after[other] == before[other]),
        forall|key: Seq<char>|
            key != name ==> #[trigger] after[namespace].contains_key(key) == (before.contains_key(
                namespace,
            ) && before[namespace].contains_key(key)) && (before.contains_key(namespace)
                && before[namespace].contains_key(key) ==> after[namespace][key]
                == before[namespace][key]),
{
}

/// What happens to the line of a channel that is there changes that line and
/// nothing else, and the channel keeps its pipe. Of a channel that is not there
/// nothing is made.
pub proof fn law_a_change_of_line_makes_no_channel(
    before: Directory,
    after: Directory,
    namespace: Seq<char>,
    name: Seq<char>,
    line: Line,
)
    requires
        line_moves(before, after, namespace, name, line),
    ensures
        !(before.contains_key(namespace) && before[namespace].contains_key(name)) ==> after
            == before,
        before.contains_key(namespace) && before[namespace].contains_key(name) ==> {
            &&& after.dom() == before.dom()
            &&& after[namespace].dom() == before[namespace].dom()
            &&& after[namespace][name].line@ == line
            &&& after[namespace][name].tx == before[namespace][name].tx
            &&& after[namespace][name].rx == before[namespace][name].rx
            &&& forall|other: Seq<char>|
                other != namespace && #[trigger] before.contains_key(other) ==> after[other]
                    == before[other]
            &&& forall|key: Seq<char>|
                key != name && #[trigger] before[namespace].contains_key(key)
                    ==> after[namespace][key] == before[namespace][key]
        },
{
    if before.contains_key(namespace) && before[namespace].contains_key(name) {
        assert(after.dom() =~= before.dom());
        assert(after[namespace].dom() =~= before[namespace].dom());
    }
}

/// A removal takes exactly one channel: after it all channels are there but this
/// one, as they were, and where every namespace had a channel every one has.
pub proof fn law_all_channels_but_one_stay(
    directory: Directory,
    namespace: Seq<char>,
    name: Seq<char>,
)
    requires
        forall|other: Seq<char>| #[trigger]
            directory.contains_key(other) ==> exists|key: Seq<char>|
                directory[other].contains_key(key),
    ensures
        ({
            let after = without_channel(directory, namespace, name);
            &&& forall|other: Seq<char>, key: Seq<char>|
                #![trigger after[other].contains_key(key)]
                #![trigger directory[other].contains_key(key)]
                (after.contains_key(other) && after[other].contains_key(key)) == (
                directory.contains_key(other) && directory[other].contains_key(key) && !(other
                    == namespace && key == name))
            &&& forall|other: Seq<char>, key: Seq<char>|
                after.contains_key(other) && #[trigger] after[other].contains_key(key)
                    ==> after[other][key] == directory[other][key]
            &&& forall|other: Seq<char>| #[trigger]
                after.contains_key(other) ==> exists|key: Seq<char>| after[other].contains_key(key)
        }),
{
    let rest = channels_in(directory, namespace).remove(name);
    let after = without_channel(directory, namespace, name);
    if rest == Map::<Seq<char>, Channel>::empty() {
        assert forall|key: Seq<char>| directory.contains_key(namespace) && key
            != name implies !#[trigger] directory[namespace].contains_key(key) by {
            assert(!rest.contains_key(key));
        }
    } else {
        assert(exists|key: Seq<char>| rest.contains_key(key)) by {
            if forall|key: Seq<char>| !rest.contains_key(key) {
                assert(rest =~= Map::<Seq<char>, Channel>::empty());
            }
        }
    }
    assert forall|other: Seq<char>| #[trigger] after.contains_key(other) implies exists|
        key: Seq<char>,
    | after[other].contains_key(key) by {
        if other == namespace {
            let key = choose|key: Seq<char>| rest.contains_key(key);
            assert(after[other].contains_key(key));
        } else {
            assert(directory.contains_key(other));
            let key = choose|key: Seq<char>| directory[other].contains_key(key);
            assert(after[other].contains_key(key));
        }
    }
}

/// Those who wait for one of these channels are all who are in one of its two
/// queues, whether or not the channel serves a pair, and nobody else.
pub proof fn law_who_waits_for_a_namespace(channels: Map<Seq<char>, Channel>, ticket: u64)
    ensures
        forall|name: Seq<char>| #[trigger]
            channels.contains_key(name) && (channels[name].line@.producers.contains(ticket)
                || channels[name].line@.consumers.contains(ticket)) ==> waits_in(channels, ticket),
        waits_in(channels, ticket) ==> exists|name: Seq<char>| #[trigger]
            channels.contains_key(name) && (channels[name].line@.producers.contains(ticket)
                || channels[name].line@.consumers.contains(ticket)),
{
}

/// Deleting a namespace dismisses whom deleting its channels would: `dismissed`
/// holds a ticket exactly if it is among the waiting of one of the channels,
/// where the waiting of a channel are its producers and its consumers.
pub proof fn law_a_namespace_dismisses_as_its_channels(
    directory: Directory,
    namespace: Seq<char>,
    dismissed: Seq<u64>,
    of_channels: Map<Seq<char>, Seq<u64>>,
)
    requires
        directory.contains_key(namespace),
        forall|ticket: u64| #[trigger]
            dismissed.contains(ticket) <==> waits_in(channels_in(directory, namespace), ticket),
        of_channels.dom() == directory[namespace].dom(),
        forall|name: Seq<char>| #[trigger]
            of_channels.contains_key(name) ==> of_channels[name] == line_of(
                directory,
                namespace,
                name,
            ).producers + line_of(directory, namespace, name).consumers,
    ensures
        forall|ticket: u64| #[trigger]
            dismissed.contains(ticket) <==> exists|name: Seq<char>| #[trigger]
                of_channels.contains_key(name) && of_channels[name].contains(ticket),
        forall|name: Seq<char>| #[trigger]
            of_channels.contains_key(name) ==> of_channels[name]
                == directory[namespace][name].line@.producers
                + directory[namespace][name].line@.consumers,
{
    let channels = directory[namespace];
    assert forall|ticket: u64| #[trigger] dismissed.contains(ticket) <==> exists|name: Seq<char>|
     #[trigger]
        of_channels.contains_key(name) && of_channels[name].contains(ticket) by {
        law_who_waits_for_a_namespace(channels, ticket);
        assert forall|name: Seq<char>| #[trigger] of_channels.contains_key(name) implies (
        of_channels[name].contains(ticket) <==> channels[name].line@.producers.contains(ticket)
            || channels[name].line@.consumers.contains(ticket)) by {
            assert(channels.contains_key(name));
            lemma_concat_contains(
                channels[name].line@.producers,
                channels[name].line@.consumers,
                ticket,
            );
        }
        if dismissed.contains(ticket) {
            let name = choose|name: Seq<char>| #[trigger]
                channels.contains_key(name) && (channels[name].line@.producers.contains(ticket)
                    || channels[name].line@.consumers.contains(ticket));
            assert(of_channels.contains_key(name));
        }
        if exists|name: Seq<char>| #[trigger]
            of_channels.contains_key(name) && of_channels[name].contains(ticket) {
            let name = choose|name: Seq<char>| #[trigger]
                of_channels.contains_key(name) && of_channels[name].contains(ticket);
            assert(channels.contains_key(name));
        }
    }
}

pub(crate) proof fn lemma_concat_contains(a: Seq<u64>, b: Seq<u64>, ticket: u64)
    ensures
        (a + b).contains(ticket) <==> a.contains(ticket) || b.contains(ticket),
{
    if a.contains(ticket) {
        assert((a + b)[a.index_of(ticket)] == ticket);
    }
    if b.contains(ticket) {
        assert((a + b)[a.len() + b.index_of(ticket)] == ticket);
    }
}

/// Whoever gets an end of a channel gets one of the channel's own pipe: a sender
/// reaches the receivers that the channel's sender reaches, as directly, and a
/// receiver is reached by the senders that reach the channel's receiver.
pub proof fn law_ends_are_the_channels_own(
    channel: Channel,
    tx: flume::Sender<Payload>,
    rx: flume::Receiver<Payload>,
)
    ensures
        sends_to(tx, channel) ==> capacity(tx) == capacity(channel.tx) && linked(tx, rx) == linked(
            channel.tx,
            rx,
        ),
        receives_from(rx, channel) ==> linked(tx, rx) == linked(tx, channel.rx),
        forall|tickets: int| #[trigger]
            channel.wf(tickets) ==> linked(channel.tx, channel.rx) && capacity(channel.tx) == Some(
                0usize,
            ),
{
}

} // verus!
