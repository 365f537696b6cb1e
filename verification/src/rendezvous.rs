//! The two queues of one channel.
//!
//! Producers and consumers of a channel wait in two queues and are matched in
//! the order in which they arrived. A channel serves one pair at a time: the
//! next pair is formed once the current one is done. Requests are told apart
//! by their tickets, numbers that grow with every request.
//!
//! The pipe between the two is a `flume` channel. It would let any number of
//! pairs meet at once, and it wakes a task that waits for a payload without
//! setting the payload aside for it, so that another may take it. Whose turn it
//! is, is therefore decided here.
use std::collections::VecDeque;
use vstd::prelude::*;

verus! {

/// How far a matched pair has come.
#[derive(Clone, Copy, Debug, PartialEq, Eq, Structural)]
pub enum Phase {
    /// The two have been told of each other; nothing has changed hands.
    Meeting,
    /// The consumer holds the producer's payload.
    Exchanging,
}

/// A producer and a consumer that have been matched.
#[derive(Clone, Copy, Debug, PartialEq, Eq, Structural)]
pub struct Pair {
    pub producer: u64,
    pub consumer: u64,
    pub phase: Phase,
}

/// What a channel's two queues hold, front first, and the pair that it serves.
#[verifier::ext_equal]
pub struct Line {
    pub producers: Seq<u64>,
    pub consumers: Seq<u64>,
    pub pair: Option<Pair>,
}

/// Tickets in the order in which they were drawn, none of them twice.
pub open spec fn in_order(tickets: Seq<u64>) -> bool {
    forall|i: int, j: int| 0 <= i < j < tickets.len() ==> tickets[i] < tickets[j]
}

/// Every ticket was drawn before `bound`.
pub open spec fn all_below(tickets: Seq<u64>, bound: int) -> bool {
    forall|i: int| 0 <= i < tickets.len() ==> #[trigger] tickets[i] < bound
}

/// No request is in both queues.
pub open spec fn disjoint(producers: Seq<u64>, consumers: Seq<u64>) -> bool {
    forall|i: int, j: int|
        0 <= i < producers.len() && 0 <= j < consumers.len() ==> #[trigger] producers[i]
            != #[trigger] consumers[j]
}

/// Every ticket was drawn after `ticket`.
pub open spec fn all_above(tickets: Seq<u64>, ticket: u64) -> bool {
    forall|i: int| 0 <= i < tickets.len() ==> ticket < #[trigger] tickets[i]
}

/// `tickets` without `ticket`, the others in their order.
pub open spec fn without(tickets: Seq<u64>, ticket: u64) -> Seq<u64> {
    if tickets.contains(ticket) {
        tickets.remove(tickets.index_of(ticket))
    } else {
        tickets
    }
}

impl Line {
    /// Nobody waits and nobody is served.
    pub open spec fn empty() -> Line {
        Line { producers: Seq::empty(), consumers: Seq::empty(), pair: None }
    }

    /// Every ticket was drawn before `bound`; both queues are in order of
    /// arrival; no request is a producer and a consumer at once; the pair that
    /// is served arrived before all who wait; and where no pair is served, one
    /// side has nobody waiting.
    pub open spec fn wf(self, bound: int) -> bool {
        &&& in_order(self.producers)
        &&& in_order(self.consumers)
        &&& all_below(self.producers, bound)
        &&& all_below(self.consumers, bound)
        &&& disjoint(self.producers, self.consumers)
        &&& match self.pair {
            Some(pair) => {
                &&& pair.producer < bound
                &&& pair.consumer < bound
                &&& pair.producer != pair.consumer
                &&& disjoint(seq![pair.producer], self.consumers)
                &&& disjoint(self.producers, seq![pair.consumer])
                &&& all_above(self.producers, pair.producer)
                &&& all_above(self.consumers, pair.consumer)
            },
            None => self.producers.len() == 0 || self.consumers.len() == 0,
        }
    }

    /// Whether a request waits or is served here.
    pub open spec fn knows(self, ticket: u64) -> bool {
        ||| self.producers.contains(ticket)
        ||| self.consumers.contains(ticket)
        ||| self.pair matches Some(pair) && (pair.producer == ticket || pair.consumer == ticket)
    }

    /// The fronts of the two queues become the pair, if there is none and
    /// neither queue is empty.
    pub open spec fn settled(self) -> Line {
        if self.pair is None && self.producers.len() > 0 && self.consumers.len() > 0 {
            Line {
                producers: self.producers.skip(1),
                consumers: self.consumers.skip(1),
                pair: Some(
                    Pair {
                        producer: self.producers[0],
                        consumer: self.consumers[0],
                        phase: Phase::Meeting,
                    },
                ),
            }
        } else {
            self
        }
    }

    /// A producer goes to the end of its queue.
    pub open spec fn with_producer(self, ticket: u64) -> Line {
        Line { producers: self.producers.push(ticket), ..self }.settled()
    }

    /// A consumer goes to the end of its queue.
    pub open spec fn with_consumer(self, ticket: u64) -> Line {
        Line { consumers: self.consumers.push(ticket), ..self }.settled()
    }

    /// The pair that is to meet, if it is this one, begins its exchange.
    pub open spec fn handed_over(self, producer: u64, consumer: u64) -> Line {
        if self.is_meeting(producer, consumer) {
            Line { pair: Some(Pair { producer, consumer, phase: Phase::Exchanging }), ..self }
        } else {
            self
        }
    }

    /// The pair that is served is this one, and it has not begun its exchange.
    pub open spec fn is_meeting(self, producer: u64, consumer: u64) -> bool {
        self.pair == Some(Pair { producer, consumer, phase: Phase::Meeting })
    }

    /// A request is over.
    ///
    /// One that waits gives up its place. Where one half of a pair is gone
    /// before anything changed hands, the other half is first in its queue
    /// again. Once the exchange has begun it lasts until the producer is done.
    pub open spec fn after_leaving(self, ticket: u64) -> Line {
        match self.pair {
            Some(pair) => if pair.phase == Phase::Meeting && pair.producer == ticket {
                Line {
                    producers: self.producers,
                    consumers: seq![pair.consumer] + self.consumers,
                    pair: None,
                }.settled()
            } else if pair.phase == Phase::Meeting && pair.consumer == ticket {
                Line {
                    producers: seq![pair.producer] + self.producers,
                    consumers: self.consumers,
                    pair: None,
                }.settled()
            } else if pair.producer == ticket {
                Line { producers: self.producers, consumers: self.consumers, pair: None }.settled()
            } else {
                self.without_waiting(ticket)
            },
            None => self.without_waiting(ticket),
        }
    }

    /// A request that waits gives up its place.
    pub open spec fn without_waiting(self, ticket: u64) -> Line {
        Line {
            producers: without(self.producers, ticket),
            consumers: without(self.consumers, ticket),
            pair: self.pair,
        }
    }
}

/// The pair that a step formed, where it formed one: the two requests that may
/// go ahead now.
pub open spec fn formed(before: Line, after: Line) -> Option<Pair> {
    if after.pair != before.pair {
        after.pair
    } else {
        None
    }
}

/// The queues of one channel.
pub struct Rendezvous {
    producers: VecDeque<u64>,
    consumers: VecDeque<u64>,
    pair: Option<Pair>,
}

impl View for Rendezvous {
    type V = Line;

    closed spec fn view(&self) -> Line {
        Line { producers: self.producers@, consumers: self.consumers@, pair: self.pair }
    }
}

/// The place of `ticket` in a queue.
fn position(tickets: &VecDeque<u64>, ticket: u64) -> (place: Option<usize>)
    ensures
        match place {
            Some(i) => i < tickets@.len() && tickets@[i as int] == ticket,
            None => !tickets@.contains(ticket),
        },
{
    let mut i: usize = 0;
    while i < tickets.len()
        invariant
            i <= tickets@.len(),
            forall|j: int| 0 <= j < i ==> tickets@[j] != ticket,
        decreases tickets@.len() - i,
    {
        if tickets[i] == ticket {
            return Some(i);
        }
        i = i + 1;
    }
    None
}

/// Takes `ticket` out of a queue.
fn discard(tickets: &mut VecDeque<u64>, ticket: u64)
    requires
        in_order(old(tickets)@),
    ensures
        final(tickets)@ == without(old(tickets)@, ticket),
{
    match position(tickets, ticket) {
        Some(i) => {
            proof {
                let k = tickets@.index_of(ticket);
                assert(tickets@.contains(ticket));
                assert(tickets@[k] == ticket);
                assert(k == i);
            }
            let _ = tickets.remove(i);
        },
        None => {},
    }
}

impl Rendezvous {
    /// A channel that nobody uses yet.
    pub fn new() -> (r: Rendezvous)
        ensures
            r@ == Line::empty(),
    {
        Rendezvous { producers: VecDeque::new(), consumers: VecDeque::new(), pair: None }
    }

    /// Forms the next pair, if one is due.
    fn settle(&mut self)
        ensures
            final(self)@ == old(self)@.settled(),
    {
        if self.pair.is_none() && self.producers.len() > 0 && self.consumers.len() > 0 {
            if let (Some(producer), Some(consumer)) = (
                self.producers.pop_front(),
                self.consumers.pop_front(),
            ) {
                self.pair = Some(Pair { producer, consumer, phase: Phase::Meeting });
            }
        }
    }

    /// A producer request arrives. Returns the pair that this formed, if any.
    pub fn join_producer(&mut self, ticket: u64) -> (pair: Option<Pair>)
        requires
            old(self)@.wf(ticket as int),
        ensures
            final(self)@ == old(self)@.with_producer(ticket),
            final(self)@.wf(ticket + 1),
            pair == formed(old(self)@, final(self)@),
    {
        let before = self.pair;
        self.producers.push_back(ticket);
        self.settle();
        proof {
            lemma_with_producer_wf(old(self)@, ticket);
        }
        if before.is_none() {
            self.pair
        } else {
            None
        }
    }

    /// A consumer request arrives. Returns the pair that this formed, if any.
    pub fn join_consumer(&mut self, ticket: u64) -> (pair: Option<Pair>)
        requires
            old(self)@.wf(ticket as int),
        ensures
            final(self)@ == old(self)@.with_consumer(ticket),
            final(self)@.wf(ticket + 1),
            pair == formed(old(self)@, final(self)@),
    {
        let before = self.pair;
        self.consumers.push_back(ticket);
        self.settle();
        proof {
            lemma_with_consumer_wf(old(self)@, ticket);
        }
        if before.is_none() {
            self.pair
        } else {
            None
        }
    }

    /// The consumer has received a payload of this producer. Returns whether
    /// the two are the pair that was to meet; their exchange then begins.
    pub fn hand_over(&mut self, producer: u64, consumer: u64) -> (begun: bool)
        ensures
            final(self)@ == old(self)@.handed_over(producer, consumer),
            forall|bound: int| old(self)@.wf(bound) ==> #[trigger] final(self)@.wf(bound),
            begun == old(self)@.is_meeting(producer, consumer),
            begun == (old(self)@.pair == Some(Pair { producer, consumer, phase: Phase::Meeting })),
    {
        let begun = match self.pair {
            Some(pair) => pair.producer == producer && pair.consumer == consumer && pair.phase
                == Phase::Meeting,
            None => false,
        };
        if begun {
            self.pair = Some(Pair { producer, consumer, phase: Phase::Exchanging });
        }
        begun
    }

    /// Those who wait: the producers, then the consumers, each in their order.
    pub fn waiting(&self) -> (tickets: Vec<u64>)
        ensures
            tickets@ == self@.producers + self@.consumers,
    {
        let mut tickets: Vec<u64> = Vec::new();
        let mut i: usize = 0;
        while i < self.producers.len()
            invariant
                i <= self.producers@.len(),
                tickets@ == self.producers@.take(i as int),
            decreases self.producers@.len() - i,
        {
            tickets.push(self.producers[i]);
            i = i + 1;
        }
        i = 0;
        while i < self.consumers.len()
            invariant
                i <= self.consumers@.len(),
                tickets@ == self.producers@ + self.consumers@.take(i as int),
            decreases self.consumers@.len() - i,
        {
            tickets.push(self.consumers[i]);
            i = i + 1;
        }
        tickets
    }

    /// The pair that is served.
    pub fn pair(&self) -> (pair: Option<Pair>)
        ensures
            pair == self@.pair,
    {
        self.pair
    }

    /// A request is over, served or not. Returns the pair that this formed, if
    /// any.
    pub fn leave(&mut self, ticket: u64) -> (pair: Option<Pair>)
        requires
            exists|bound: int| #[trigger] old(self)@.wf(bound),
        ensures
            final(self)@ == old(self)@.after_leaving(ticket),
            forall|bound: int| old(self)@.wf(bound) ==> #[trigger] final(self)@.wf(bound),
            pair == formed(old(self)@, final(self)@),
    {
        proof {
            assert forall|bound: int| old(self)@.wf(bound) implies #[trigger] old(
                self,
            )@.after_leaving(ticket).wf(bound) by {
                lemma_after_leaving_wf(old(self)@, ticket, bound);
            }
        }
        let before = self.pair;
        match before {
            Some(pair) => {
                if pair.phase == Phase::Meeting && pair.producer == ticket {
                    self.consumers.push_front(pair.consumer);
                    self.pair = None;
                    self.settle();
                } else if pair.phase == Phase::Meeting && pair.consumer == ticket {
                    self.producers.push_front(pair.producer);
                    self.pair = None;
                    self.settle();
                } else if pair.producer == ticket {
                    self.pair = None;
                    self.settle();
                } else {
                    discard(&mut self.producers, ticket);
                    discard(&mut self.consumers, ticket);
                    return None;
                }
                self.pair
            },
            None => {
                discard(&mut self.producers, ticket);
                discard(&mut self.consumers, ticket);
                None
            },
        }
    }
}

/// Tickets drawn before `bound` were drawn before any later bound.
pub proof fn lemma_wf_later(line: Line, bound: int, later: int)
    requires
        line.wf(bound),
        bound <= later,
    ensures
        line.wf(later),
{
}

proof fn lemma_settled_wf(line: Line, bound: int)
    requires
        in_order(line.producers),
        in_order(line.consumers),
        all_below(line.producers, bound),
        all_below(line.consumers, bound),
        disjoint(line.producers, line.consumers),
        line.pair matches Some(pair) ==> line.wf(bound),
    ensures
        line.settled().wf(bound),
{
}

proof fn lemma_with_producer_wf(line: Line, ticket: u64)
    requires
        line.wf(ticket as int),
    ensures
        line.with_producer(ticket).wf(ticket + 1),
{
    lemma_settled_wf(Line { producers: line.producers.push(ticket), ..line }, ticket + 1);
}

proof fn lemma_with_consumer_wf(line: Line, ticket: u64)
    requires
        line.wf(ticket as int),
    ensures
        line.with_consumer(ticket).wf(ticket + 1),
{
    lemma_settled_wf(Line { consumers: line.consumers.push(ticket), ..line }, ticket + 1);
}

proof fn lemma_without_in_order(tickets: Seq<u64>, ticket: u64)
    requires
        in_order(tickets),
    ensures
        in_order(without(tickets, ticket)),
        without(tickets, ticket).len() <= tickets.len(),
        forall|i: int|
            0 <= i < without(tickets, ticket).len() ==> tickets.contains(
                #[trigger] without(tickets, ticket)[i],
            ) && without(tickets, ticket)[i] != ticket,
{
    if tickets.contains(ticket) {
        let k = tickets.index_of(ticket);
        assert(tickets[k] == ticket);
        assert forall|i: int| 0 <= i < tickets.remove(k).len() implies tickets.contains(
            #[trigger] tickets.remove(k)[i],
        ) && tickets.remove(k)[i] != ticket by {
            let j = if i < k { i } else { i + 1 };
            assert(tickets.remove(k)[i] == tickets[j]);
        }
    }
}

proof fn lemma_after_leaving_wf(line: Line, ticket: u64, bound: int)
    requires
        line.wf(bound),
    ensures
        line.after_leaving(ticket).wf(bound),
{
    lemma_without_in_order(line.producers, ticket);
    lemma_without_in_order(line.consumers, ticket);
    match line.pair {
        Some(pair) => {
            lemma_settled_wf(
                Line {
                    producers: line.producers,
                    consumers: seq![pair.consumer] + line.consumers,
                    pair: None,
                },
                bound,
            );
            lemma_settled_wf(
                Line {
                    producers: seq![pair.producer] + line.producers,
                    consumers: line.consumers,
                    pair: None,
                },
                bound,
            );
            lemma_settled_wf(
                Line { producers: line.producers, consumers: line.consumers, pair: None },
                bound,
            );
        },
        None => {},
    }
}

/// Something that happens on a channel whose requests all wait for their turn.
pub enum Event {
    /// A producer request arrives.
    Produce(u64),
    /// A consumer request arrives.
    Consume(u64),
    /// The consumer of the current pair receives its producer's payload.
    Receive,
    /// The producer of the current pair is done, whose payload was received.
    Finish,
}

/// What has happened on a channel so far.
pub struct History {
    pub line: Line,
    /// The producers, in the order in which they made their requests.
    pub producers: Seq<u64>,
    /// The consumers, in the order in which they made their requests.
    pub consumers: Seq<u64>,
    /// Producer and consumer of every pair, in the order of matching.
    pub matched: Seq<(u64, u64)>,
    /// The consumer of the current pair has received its producer's payload.
    pub received: bool,
}

impl History {
    /// The history of a new channel.
    pub open spec fn empty() -> History {
        History {
            line: Line::empty(),
            producers: Seq::empty(),
            consumers: Seq::empty(),
            matched: Seq::empty(),
            received: false,
        }
    }

    /// The history with the pair added that led to `line`, if one was formed.
    pub open spec fn matching(self, line: Line) -> History {
        History {
            line,
            matched: match formed(self.line, line) {
                Some(pair) => self.matched.push((pair.producer, pair.consumer)),
                None => self.matched,
            },
            received: self.received && line.pair == self.line.pair,
            ..self
        }
    }

    /// The history after one more event.
    pub open spec fn followed_by(self, event: Event) -> History {
        match event {
            Event::Produce(ticket) => History {
                producers: self.producers.push(ticket),
                ..self
            }.matching(self.line.with_producer(ticket)),
            Event::Consume(ticket) => History {
                consumers: self.consumers.push(ticket),
                ..self
            }.matching(self.line.with_consumer(ticket)),
            Event::Receive => match self.line.pair {
                Some(pair) => History {
                    line: self.line.handed_over(pair.producer, pair.consumer),
                    received: true,
                    ..self
                },
                None => self,
            },
            Event::Finish => match self.line.pair {
                Some(pair) => if self.received {
                    self.matching(self.line.after_leaving(pair.producer))
                } else {
                    self
                },
                None => self,
            },
        }
    }
}

/// The history of a channel on which these events happened.
pub open spec fn replay(events: Seq<Event>) -> History
    decreases events.len(),
{
    if events.len() == 0 {
        History::empty()
    } else {
        replay(events.drop_last()).followed_by(events.last())
    }
}

/// Producers and consumers are matched in the order in which they made their
/// requests: whatever happens on a channel that nobody walks away from, the
/// first producer meets the first consumer, the second the second, and so on.
/// Those not yet matched wait in their order, and while no pair is being
/// served, nobody waits whose counterpart is there.
pub proof fn law_matched_in_order_of_arrival(events: Seq<Event>)
    ensures
        ({
            let h = replay(events);
            let n = h.matched.len();
            &&& n <= h.producers.len()
            &&& n <= h.consumers.len()
            &&& forall|i: int|
                0 <= i < n ==> #[trigger] h.matched[i] == (h.producers[i], h.consumers[i])
            &&& h.line.producers == h.producers.skip(n as int)
            &&& h.line.consumers == h.consumers.skip(n as int)
            &&& h.line.pair is None ==> n == h.producers.len() || n == h.consumers.len()
            &&& h.line.pair matches Some(pair) ==> n > 0 && h.matched[n - 1] == (
                pair.producer,
                pair.consumer,
            )
            &&& h.received == (h.line.pair matches Some(pair) && pair.phase == Phase::Exchanging)
        }),
    decreases events.len(),
{
    if events.len() > 0 {
        law_matched_in_order_of_arrival(events.drop_last());
        let g = replay(events.drop_last());
        let h = replay(events);
        let n = g.matched.len() as int;
        assert(h == g.followed_by(events.last()));
        match events.last() {
            Event::Produce(ticket) => {
                assert(g.line.producers.push(ticket) =~= g.producers.push(ticket).skip(n));
            },
            Event::Consume(ticket) => {
                assert(g.line.consumers.push(ticket) =~= g.consumers.push(ticket).skip(n));
            },
            Event::Receive => {},
            Event::Finish => {},
        }
        if n < h.producers.len() {
            assert(h.producers.skip(n).skip(1) =~= h.producers.skip(n + 1));
        }
        if n < h.consumers.len() {
            assert(h.consumers.skip(n).skip(1) =~= h.consumers.skip(n + 1));
        }
    }
}

/// A channel's concurrency is 1: as long as a pair is served, nobody who
/// arrives or gives up waiting changes that or is matched.
pub proof fn law_one_pair_at_a_time(line: Line, pair: Pair, ticket: u64)
    requires
        line.pair == Some(pair),
    ensures
        line.with_producer(ticket).pair == Some(pair),
        line.with_consumer(ticket).pair == Some(pair),
        ticket != pair.producer && ticket != pair.consumer ==> line.after_leaving(ticket).pair
            == Some(pair),
        pair.phase == Phase::Exchanging && ticket != pair.producer ==> line.after_leaving(
            ticket,
        ).pair == Some(pair),
{
}

/// A producer waits until there is a consumer, and a consumer until there is a
/// producer: without a counterpart the newcomer is last in its queue and no
/// pair is formed.
pub proof fn law_waits_for_counterpart(line: Line, ticket: u64)
    ensures
        line.consumers.len() == 0 ==> line.with_producer(ticket) == (Line {
            producers: line.producers.push(ticket),
            ..line
        }),
        line.producers.len() == 0 ==> line.with_consumer(ticket) == (Line {
            consumers: line.consumers.push(ticket),
            ..line
        }),
{
}

/// A pair is always formed of the earliest producer and the earliest consumer
/// of all who wait, whoever has walked away before.
pub proof fn law_earliest_are_matched(line: Line, bound: int, ticket: u64, pair: Pair)
    requires
        line.wf(bound),
        line.wf(ticket as int),
    ensures
        formed(line, line.with_producer(ticket)) == Some(pair) ==> all_above(
            line.with_producer(ticket).producers,
            pair.producer,
        ) && all_above(line.with_producer(ticket).consumers, pair.consumer),
        formed(line, line.with_consumer(ticket)) == Some(pair) ==> all_above(
            line.with_consumer(ticket).producers,
            pair.producer,
        ) && all_above(line.with_consumer(ticket).consumers, pair.consumer),
        forall|gone: u64|
            formed(line, #[trigger] line.after_leaving(gone)) == Some(pair) ==> all_above(
                line.after_leaving(gone).producers,
                pair.producer,
            ) && all_above(line.after_leaving(gone).consumers, pair.consumer),
{
    lemma_with_producer_wf(line, ticket);
    lemma_with_consumer_wf(line, ticket);
    assert forall|gone: u64|
        formed(line, #[trigger] line.after_leaving(gone)) == Some(pair) implies all_above(
        line.after_leaving(gone).producers,
        pair.producer,
    ) && all_above(line.after_leaving(gone).consumers, pair.consumer) by {
        lemma_after_leaving_wf(line, gone, bound);
    }
}

/// A request that is over is forgotten, unless it is the consumer of a pair
/// whose exchange has begun; such a pair ends with its producer.
pub proof fn law_who_leaves_is_forgotten(line: Line, bound: int, ticket: u64)
    requires
        line.wf(bound),
        line.pair matches Some(pair) ==> pair.phase == Phase::Exchanging ==> pair.consumer
            != ticket,
    ensures
        !line.after_leaving(ticket).knows(ticket),
{
    lemma_without_in_order(line.producers, ticket);
    lemma_without_in_order(line.consumers, ticket);
}

/// Where the consumer of a pair walks away before it has received anything,
/// the producer keeps its place: it is the next producer to be matched. The
/// same holds of the consumer where the producer walks away.
pub proof fn law_place_is_kept(line: Line, pair: Pair)
    requires
        line.pair == Some(pair),
        pair.phase == Phase::Meeting,
        pair.producer != pair.consumer,
    ensures
        ({
            let after = line.after_leaving(pair.consumer);
            match after.pair {
                Some(next) => next.producer == pair.producer && next.consumer
                    == line.consumers[0],
                None => after.producers[0] == pair.producer && line.consumers.len() == 0,
            }
        }),
        ({
            let after = line.after_leaving(pair.producer);
            match after.pair {
                Some(next) => next.consumer == pair.consumer && next.producer
                    == line.producers[0],
                None => after.consumers[0] == pair.consumer && line.producers.len() == 0,
            }
        }),
{
}

/// A channel that nobody uses yet has nobody waiting and serves nobody.
pub proof fn law_new_channel_is_idle()
    ensures
        Line::empty().producers.len() == 0,
        Line::empty().consumers.len() == 0,
        Line::empty().pair is None,
{
}

/// Whoever arrives goes to the end of their queue. If a pair is served it is
/// left alone. If none is and there is somebody on either side, the two who are
/// first become the pair, and all others stay in their order.
pub proof fn law_newcomers_queue_up(line: Line, ticket: u64)
    ensures
        ({
            let after = line.with_producer(ticket);
            &&& after.pair == line.pair ==> after.producers == line.producers.push(ticket)
                && after.consumers == line.consumers
            &&& after.pair != line.pair ==> {
                &&& line.pair is None
                &&& after.pair matches Some(pair) && pair.phase == Phase::Meeting && seq![
                    pair.producer,
                ] + after.producers == line.producers.push(ticket) && seq![pair.consumer]
                    + after.consumers == line.consumers
            }
            &&& after.pair is None ==> after.producers.len() == 0 || after.consumers.len() == 0
        }),
        ({
            let after = line.with_consumer(ticket);
            &&& after.pair == line.pair ==> after.consumers == line.consumers.push(ticket)
                && after.producers == line.producers
            &&& after.pair != line.pair ==> {
                &&& line.pair is None
                &&& after.pair matches Some(pair) && pair.phase == Phase::Meeting && seq![
                    pair.consumer,
                ] + after.consumers == line.consumers.push(ticket) && seq![pair.producer]
                    + after.producers == line.producers
            }
            &&& after.pair is None ==> after.producers.len() == 0 || after.consumers.len() == 0
        }),
{
    let produced = line.producers.push(ticket);
    let consumed = line.consumers.push(ticket);
    assert(seq![produced[0]] + produced.skip(1) =~= produced);
    assert(seq![consumed[0]] + consumed.skip(1) =~= consumed);
    if line.producers.len() > 0 {
        assert(seq![line.producers[0]] + line.producers.skip(1) =~= line.producers);
    }
    if line.consumers.len() > 0 {
        assert(seq![line.consumers[0]] + line.consumers.skip(1) =~= line.consumers);
    }
}

/// A step tells of the pair that it formed: the one that is served after it and
/// was not before. It tells of none only where it formed none.
pub proof fn law_told_of_the_new_pair(before: Line, after: Line)
    ensures
        match formed(before, after) {
            Some(pair) => after.pair == Some(pair) && before.pair != Some(pair),
            None => after.pair is None || after.pair == before.pair,
        },
{
}

/// When a consumer receives the payload of the producer that it is to meet, the
/// exchange of the two begins, whoever of them came first, and nobody else is
/// touched. A payload that changes hands otherwise changes nothing.
pub proof fn law_exchange_begins_with_the_payload(line: Line, producer: u64, consumer: u64)
    ensures
        ({
            let after = line.handed_over(producer, consumer);
            let meet = line.pair == Some(Pair { producer, consumer, phase: Phase::Meeting });
            &&& line.is_meeting(producer, consumer) == meet
            &&& after.producers == line.producers
            &&& after.consumers == line.consumers
            &&& meet ==> after.pair == Some(Pair { producer, consumer, phase: Phase::Exchanging })
            &&& !meet ==> after.pair == line.pair
        }),
{
}

/// An exchange ends with its producer. Once a consumer has received the payload
/// of the producer that it was to meet and the producer is done, neither of them
/// is left, and the next pair is made of those who are first in the queues.
pub proof fn law_exchange_ends_with_its_producer(line: Line, pair: Pair)
    requires
        line.pair == Some(pair),
        pair.phase == Phase::Meeting,
        pair.producer != pair.consumer,
        !line.producers.contains(pair.producer) && !line.producers.contains(pair.consumer),
        !line.consumers.contains(pair.producer) && !line.consumers.contains(pair.consumer),
    ensures
        ({
            let after = line.handed_over(pair.producer, pair.consumer).after_leaving(
                pair.producer,
            );
            &&& match after.pair {
                Some(next) => {
                    &&& next.phase == Phase::Meeting
                    &&& seq![next.producer] + after.producers == line.producers
                    &&& seq![next.consumer] + after.consumers == line.consumers
                    &&& next.producer != pair.producer && next.producer != pair.consumer
                    &&& next.consumer != pair.producer && next.consumer != pair.consumer
                },
                None => {
                    &&& after.producers == line.producers && after.consumers == line.consumers
                    &&& line.producers.len() == 0 || line.consumers.len() == 0
                },
            }
            &&& forall|i: int|
                0 <= i < after.producers.len() ==> #[trigger] after.producers[i] != pair.producer
                    && after.producers[i] != pair.consumer
            &&& forall|i: int|
                0 <= i < after.consumers.len() ==> #[trigger] after.consumers[i] != pair.producer
                    && after.consumers[i] != pair.consumer
        }),
{
    if line.producers.len() > 0 && line.consumers.len() > 0 {
        assert(seq![line.producers[0]] + line.producers.skip(1) =~= line.producers);
        assert(seq![line.consumers[0]] + line.consumers.skip(1) =~= line.consumers);
        assert(line.producers.contains(line.producers[0]));
        assert(line.consumers.contains(line.consumers[0]));
    }
    let after = line.handed_over(pair.producer, pair.consumer).after_leaving(pair.producer);
    assert forall|i: int| 0 <= i < after.producers.len() implies line.producers.contains(
        #[trigger] after.producers[i],
    ) by {
        let j = if after.pair is Some { i + 1 } else { i };
        assert(line.producers[j] == after.producers[i]);
    }
    assert forall|i: int| 0 <= i < after.consumers.len() implies line.consumers.contains(
        #[trigger] after.consumers[i],
    ) by {
        let j = if after.pair is Some { i + 1 } else { i };
        assert(line.consumers[j] == after.consumers[i]);
    }
}

proof fn lemma_filter_keeps_all(tickets: Seq<u64>, keep: spec_fn(u64) -> bool)
    requires
        forall|i: int| 0 <= i < tickets.len() ==> keep(#[trigger] tickets[i]),
    ensures
        tickets.filter(keep) == tickets,
    decreases tickets.len(),
{
    reveal(Seq::filter);
    if tickets.len() > 0 {
        lemma_filter_keeps_all(tickets.drop_last(), keep);
        assert(tickets.drop_last().push(tickets.last()) =~= tickets);
    }
}

proof fn lemma_filter_drops_one(tickets: Seq<u64>, i: int, keep: spec_fn(u64) -> bool)
    requires
        0 <= i < tickets.len(),
        !keep(tickets[i]),
        forall|j: int| 0 <= j < tickets.len() && j != i ==> keep(#[trigger] tickets[j]),
    ensures
        tickets.filter(keep) == tickets.remove(i),
    decreases tickets.len(),
{
    reveal(Seq::filter);
    if i == tickets.len() - 1 {
        lemma_filter_keeps_all(tickets.drop_last(), keep);
        assert(tickets.remove(i) =~= tickets.drop_last());
    } else {
        lemma_filter_drops_one(tickets.drop_last(), i, keep);
        assert(tickets.drop_last().remove(i).push(tickets.last()) =~= tickets.remove(i));
    }
}

proof fn lemma_without_is_filter(tickets: Seq<u64>, gone: u64, keep: spec_fn(u64) -> bool)
    requires
        tickets.no_duplicates(),
        forall|ticket: u64| #[trigger] keep(ticket) == (ticket != gone),
    ensures
        without(tickets, gone) == tickets.filter(keep),
{
    if tickets.contains(gone) {
        lemma_filter_drops_one(tickets, tickets.index_of(gone), keep);
    } else {
        assert forall|i: int| 0 <= i < tickets.len() implies keep(#[trigger] tickets[i]) by {
            assert(tickets.contains(tickets[i]));
        }
        lemma_filter_keeps_all(tickets, keep);
    }
}

/// A request that gives up waiting takes nobody along: the two queues are
/// exactly what they were without it, in their order, and the pair that is
/// served goes on.
pub proof fn law_giving_up_takes_nobody_along(line: Line, gone: u64)
    requires
        line.producers.no_duplicates(),
        line.consumers.no_duplicates(),
        line.pair matches Some(pair) ==> pair.producer != gone && pair.consumer != gone,
    ensures
        line.after_leaving(gone).producers == line.producers.filter(|ticket: u64| ticket != gone),
        line.after_leaving(gone).consumers == line.consumers.filter(|ticket: u64| ticket != gone),
        line.after_leaving(gone).pair == line.pair,
{
    lemma_without_is_filter(line.producers, gone, |ticket: u64| ticket != gone);
    lemma_without_is_filter(line.consumers, gone, |ticket: u64| ticket != gone);
}

/// One half of a pair that leaves before anything has changed hands takes nobody
/// along: all producers but it, the one that was to meet first, and all
/// consumers but it, go on in their order. The two who are now first are the next
/// pair, where there is somebody on either side.
pub proof fn law_a_broken_pair_takes_nobody_along(line: Line, pair: Pair, gone: u64)
    requires
        line.pair == Some(pair),
        pair.phase == Phase::Meeting,
        pair.producer != pair.consumer,
        gone == pair.producer || gone == pair.consumer,
    ensures
        ({
            let after = line.after_leaving(gone);
            let producers = if gone == pair.producer {
                line.producers
            } else {
                seq![pair.producer] + line.producers
            };
            let consumers = if gone == pair.consumer {
                line.consumers
            } else {
                seq![pair.consumer] + line.consumers
            };
            match after.pair {
                Some(next) => {
                    &&& next.phase == Phase::Meeting
                    &&& seq![next.producer] + after.producers == producers
                    &&& seq![next.consumer] + after.consumers == consumers
                },
                None => {
                    &&& after.producers == producers && after.consumers == consumers
                    &&& producers.len() == 0 || consumers.len() == 0
                },
            }
        }),
{
    let producers = if gone == pair.producer {
        line.producers
    } else {
        seq![pair.producer] + line.producers
    };
    let consumers = if gone == pair.consumer {
        line.consumers
    } else {
        seq![pair.consumer] + line.consumers
    };
    if producers.len() > 0 {
        assert(seq![producers[0]] + producers.skip(1) =~= producers);
    }
    if consumers.len() > 0 {
        assert(seq![consumers[0]] + consumers.skip(1) =~= consumers);
    }
}

/// Once an exchange has begun, its consumer may leave without ending it, and
/// nobody's place changes. When its producer leaves, the exchange is over: those
/// who wait go on in their order, and the two who are first are the next pair,
/// where there is somebody on either side.
pub proof fn law_leaving_during_an_exchange(line: Line, pair: Pair)
    requires
        line.pair == Some(pair),
        pair.phase == Phase::Exchanging,
        pair.producer != pair.consumer,
        !line.producers.contains(pair.consumer) && !line.consumers.contains(pair.consumer),
    ensures
        line.after_leaving(pair.consumer) == line,
        ({
            let after = line.after_leaving(pair.producer);
            match after.pair {
                Some(next) => {
                    &&& next.phase == Phase::Meeting
                    &&& seq![next.producer] + after.producers == line.producers
                    &&& seq![next.consumer] + after.consumers == line.consumers
                },
                None => {
                    &&& after.producers == line.producers && after.consumers == line.consumers
                    &&& line.producers.len() == 0 || line.consumers.len() == 0
                },
            }
        }),
{
    if line.producers.len() > 0 {
        assert(seq![line.producers[0]] + line.producers.skip(1) =~= line.producers);
    }
    if line.consumers.len() > 0 {
        assert(seq![line.consumers[0]] + line.consumers.skip(1) =~= line.consumers);
    }
}

/// The queues of a channel in order are such that the laws on leaving apply:
/// nobody is in them twice, and nobody who is served waits.
pub proof fn law_everybody_has_one_place(line: Line, bound: int)
    requires
        line.wf(bound),
    ensures
        line.producers.no_duplicates(),
        line.consumers.no_duplicates(),
        forall|ticket: u64| #[trigger]
            line.producers.contains(ticket) ==> !line.consumers.contains(ticket),
        line.pair matches Some(pair) ==> {
            &&& pair.producer != pair.consumer
            &&& !line.producers.contains(pair.producer) && !line.producers.contains(pair.consumer)
            &&& !line.consumers.contains(pair.producer) && !line.consumers.contains(pair.consumer)
        },
        line.pair is None ==> line.producers.len() == 0 || line.consumers.len() == 0,
{
    match line.pair {
        Some(pair) => {
            if line.producers.contains(pair.consumer) {
                let i = line.producers.index_of(pair.consumer);
                assert(line.producers[i] != seq![pair.consumer][0]);
            }
            if line.consumers.contains(pair.producer) {
                let i = line.consumers.index_of(pair.producer);
                assert(seq![pair.producer][0] != line.consumers[i]);
            }
        },
        None => {},
    }
}

} // verus!
