use httpipe::rendezvous::{Pair, Phase, Rendezvous};

fn meeting(producer: u64, consumer: u64) -> Option<Pair> {
    Some(Pair { producer, consumer, phase: Phase::Meeting })
}

#[test]
fn matched_in_order_of_arrival() {
    let mut line = Rendezvous::new();
    assert_eq!(line.join_producer(1), None);
    assert_eq!(line.join_producer(2), None);
    assert_eq!(line.join_consumer(3), meeting(1, 3));
    assert_eq!(line.join_consumer(4), None);
    assert_eq!(line.join_consumer(5), None);
    assert_eq!(line.join_producer(6), None);
    assert_eq!(line.waiting(), vec![2, 6, 4, 5]);
    assert_eq!(line.pair(), meeting(1, 3));

    assert!(line.hand_over(1, 3));
    assert_eq!(line.pair(), Some(Pair { producer: 1, consumer: 3, phase: Phase::Exchanging }));
    assert_eq!(line.leave(1), meeting(2, 4));
    assert!(line.hand_over(2, 4));
    assert_eq!(line.leave(4), None);
    assert_eq!(line.leave(2), meeting(6, 5));
    assert_eq!(line.waiting(), Vec::<u64>::new());
}

#[test]
fn nothing_is_handed_over_twice_or_to_a_stranger() {
    let mut line = Rendezvous::new();
    assert!(!line.hand_over(1, 2));
    line.join_producer(1);
    line.join_consumer(2);
    assert!(!line.hand_over(1, 3));
    assert!(!line.hand_over(3, 2));
    assert!(line.hand_over(1, 2));
    assert!(!line.hand_over(1, 2));
}

#[test]
fn who_waits_can_walk_away() {
    let mut line = Rendezvous::new();
    for ticket in 0..4 {
        line.join_producer(ticket);
    }
    assert_eq!(line.leave(1), None);
    assert_eq!(line.leave(9), None);
    assert_eq!(line.waiting(), vec![0, 2, 3]);
    assert_eq!(line.leave(0), None);
    assert_eq!(line.join_consumer(4), meeting(2, 4));
}

#[test]
fn the_half_that_stays_keeps_its_place() {
    let mut line = Rendezvous::new();
    line.join_consumer(0);
    line.join_consumer(1);
    assert_eq!(line.join_producer(2), meeting(2, 0));
    assert_eq!(line.leave(2), None);
    assert_eq!(line.waiting(), vec![0, 1]);
    assert_eq!(line.join_producer(3), meeting(3, 0));
    assert_eq!(line.leave(0), meeting(3, 1));
}

#[test]
fn one_pair_at_a_time() {
    let mut line = Rendezvous::new();
    line.join_producer(0);
    assert_eq!(line.join_consumer(1), meeting(0, 1));
    assert_eq!(line.join_producer(2), None);
    assert_eq!(line.join_consumer(3), None);
    assert_eq!(line.pair(), meeting(0, 1));
}
