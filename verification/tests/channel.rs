use axum::body::{to_bytes, Body, BodyDataStream};
use httpipe::channel::{ChannelClients, ChannelName, CleanUp, Namespace, ProducerPlace};
use httpipe::exchange::{deliver, payload_of, Delivery, ProducerState};
use httpipe::headers::Headers;
use httpipe::pipe::Payload;
use httpipe::rendezvous::{Pair, Phase};
use httpipe::status::Status;
use std::collections::HashSet;
use tokio::sync::oneshot::error::TryRecvError;
use tokio::sync::oneshot::Receiver;

fn ns(name: &str) -> Namespace {
    Namespace(name.to_string())
}

fn ch(name: &str) -> ChannelName {
    ChannelName(name.to_string())
}

fn meeting(producer: u64, consumer: u64) -> Option<Pair> {
    Some(Pair { producer, consumer, phase: Phase::Meeting })
}

fn headers(entries: &[(&str, &str)]) -> Headers {
    Headers {
        entries: entries
            .iter()
            .map(|(name, value)| (name.to_string(), value.as_bytes().to_vec()))
            .collect(),
    }
}

fn stream(body: &str) -> BodyDataStream {
    Body::from(body.to_string()).into_data_stream()
}

fn payload(producer: u64, headers: Headers, body: &str) -> (Payload, Receiver<()>) {
    payload_of(producer, headers, stream(body))
}

/// A producer of nothing in particular.
fn produce(
    clients: &mut ChannelClients,
    namespace: &Namespace,
    name: &ChannelName,
) -> ProducerPlace {
    match clients.broadcast_to_channel(namespace, name, headers(&[]), stream("")) {
        Ok(place) => place,
        Err(status) => panic!("{:?}", status),
    }
}

fn namespaces(clients: &ChannelClients) -> HashSet<String> {
    let listed = clients.list_all_namespaces();
    let set: HashSet<String> = listed.iter().map(|namespace| namespace.0.clone()).collect();
    assert_eq!(set.len(), listed.len());
    set
}

fn channels(clients: &ChannelClients, namespace: &str) -> Result<HashSet<String>, Status> {
    clients
        .list_all_namespace_channels(&ns(namespace))
        .map(|names| names.iter().map(|name| name.0.clone()).collect())
}

fn set(names: &[&str]) -> HashSet<String> {
    names.iter().map(|name| name.to_string()).collect()
}

fn run<T>(task: impl std::future::Future<Output = T>) -> T {
    tokio::runtime::Builder::new_current_thread()
        .enable_all()
        .build()
        .unwrap()
        .block_on(task)
}

async fn text(delivery: Delivery) -> String {
    let bytes = to_bytes(Body::from_stream(delivery.body_stream), usize::MAX)
        .await
        .unwrap();
    String::from_utf8(bytes.to_vec()).unwrap()
}

/// A consumer and then a producer use the channel; gives back what the
/// consumer is answered with, and leaves the channel to be cleaned up.
fn exchange(clients: &mut ChannelClients, sent: Headers, body: &str) -> (String, String, Status) {
    let (namespace, name) = (ns("v1"), ch("hello"));
    let consumer = clients.subscribe_to_channel(&namespace, &name).unwrap();
    assert_eq!(consumer.pair, None);
    let producer = match clients.broadcast_to_channel(&namespace, &name, sent, stream(body)) {
        Ok(place) => place,
        Err(status) => panic!("{:?}", status),
    };
    assert_eq!(producer.pair, meeting(producer.ticket, consumer.ticket));
    let ProducerPlace { ticket, tx: end, payload, done, .. } = producer;

    let answer = run(async {
        let mut state = ProducerState::Queued.next(true);
        let tx = end.clone();
        let sending = tokio::spawn(async move { tx.send_async(payload).await.is_ok() });
        let received = consumer.rx.recv_async().await.ok();
        state = state.next(sending.await.unwrap());
        let delivery = match clients.receive(&namespace, &name, consumer.ticket, received) {
            Ok(delivery) => delivery,
            Err(_) => panic!("the payload is the consumer's"),
        };
        let content_type = String::from_utf8(delivery.content_type.clone()).unwrap();
        let body = text(delivery).await;
        state = state.next(done.await.is_ok());
        match state {
            ProducerState::Answered(status) => (content_type, body, status),
            _ => panic!("the producer is answered"),
        }
    });

    assert_eq!(clients.leave(&namespace, &name, consumer.ticket), None);
    assert_eq!(
        clients.clean_up_unused_channels(&namespace, &name),
        CleanUp::Kept { senders: 2, receivers: 2 }
    );
    drop(consumer);
    assert_eq!(clients.leave(&namespace, &name, ticket), None);
    assert_eq!(
        clients.clean_up_unused_channels(&namespace, &name),
        CleanUp::Kept { senders: 2, receivers: 1 }
    );
    drop(end);
    assert_eq!(
        clients.clean_up_unused_channels(&namespace, &name),
        CleanUp::Removed { senders: 1, receivers: 1 }
    );
    answer
}

#[test]
fn channel_simple_json() {
    let mut clients = ChannelClients::new(0);
    let test_message = "{\"greeting\":\"Bwah!\"}";

    let (content_type, body, post_status) = exchange(
        &mut clients,
        headers(&[("accept", "*/*"), ("content-type", "application/json")]),
        test_message,
    );

    assert_eq!(post_status, Status::OK);
    assert_eq!(content_type, "application/json");
    assert_eq!(body, test_message);

    assert_eq!(namespaces(&clients), HashSet::new());
    assert_eq!(channels(&clients, "a_great_ns"), Err(Status::NotFound));
}

#[test]
fn channel_content_type_is_application_octet_stream_unless_otherwise_specified() {
    let mut clients = ChannelClients::new(0);
    let test_message = "hello";

    let (content_type, body, post_status) =
        exchange(&mut clients, headers(&[("accept", "*/*")]), test_message);

    assert_eq!(post_status, Status::OK);
    assert_eq!(content_type, "application/octet-stream");
    assert_eq!(body, test_message);
}

#[test]
fn namespaced_autovivify_on_receive() {
    let mut clients = ChannelClients::new(0);

    let place = clients
        .subscribe_to_channel(&ns("a_great_ns"), &ch("it_should_autovivify_on_receive"))
        .unwrap();

    assert_eq!(place.pair, None);
    assert_eq!(namespaces(&clients), set(&["a_great_ns"]));
    let ids = clients.list_all_namespace_channels(&ns("a_great_ns")).unwrap();
    assert_eq!(ids.len(), 1);
    assert_eq!(ids[0].0, "it_should_autovivify_on_receive");
}

#[test]
fn namespaced_autovivify_on_publish() {
    let mut clients = ChannelClients::new(0);

    let place = produce(
        &mut clients,
        &ns("a_great_ns"),
        &ch("it_should_autovivify_on_publish"),
    );

    assert_eq!(place.pair, None);
    assert_eq!(namespaces(&clients), set(&["a_great_ns"]));
    let ids = clients.list_all_namespace_channels(&ns("a_great_ns")).unwrap();
    assert_eq!(ids.len(), 1);
    assert_eq!(ids[0].0, "it_should_autovivify_on_publish");
}

#[test]
fn form_data_is_an_octet_stream() {
    let mut clients = ChannelClients::new(0);
    let (content_type, body, _) = exchange(
        &mut clients,
        headers(&[("content-type", "application/x-www-form-urlencoded")]),
        "hello",
    );
    assert_eq!(content_type, "application/octet-stream");
    assert_eq!(body, "hello");
}

#[test]
fn four_producers_and_one_consumer() {
    let mut clients = ChannelClients::new(0);
    let (namespace, name) = (ns("v1"), ch("do_work"));
    let producers: Vec<_> = (0..4)
        .map(|_| produce(&mut clients, &namespace, &name))
        .collect();
    assert!(producers.iter().all(|place| place.pair.is_none()));

    let c1 = clients.subscribe_to_channel(&namespace, &name).unwrap();
    assert_eq!(c1.pair, meeting(producers[0].ticket, c1.ticket));

    // the others go on waiting
    let c2 = clients.subscribe_to_channel(&namespace, &name).unwrap();
    assert_eq!(c2.pair, None);

    let (payload, _done) = payload(producers[0].ticket, headers(&[]), "p1");
    assert!(clients.receive(&namespace, &name, c1.ticket, Some(payload)).is_ok());
    // the consumer's request is over before the exchange is
    assert_eq!(clients.leave(&namespace, &name, c1.ticket), None);
    assert_eq!(
        clients.leave(&namespace, &name, producers[0].ticket),
        meeting(producers[1].ticket, c2.ticket)
    );
}

#[test]
fn the_same_name_in_two_namespaces() {
    let mut clients = ChannelClients::new(0);
    let p = produce(&mut clients, &ns("v1"), &ch("foo"));
    let c = clients.subscribe_to_channel(&ns("v2"), &ch("foo")).unwrap();
    assert_eq!(p.pair, None);
    assert_eq!(c.pair, None);
    assert_eq!(namespaces(&clients), set(&["v1", "v2"]));
    assert_eq!(channels(&clients, "v1"), Ok(set(&["foo"])));
    assert_eq!(channels(&clients, "v2"), Ok(set(&["foo"])));

    // what is sent in the one does not come out of the other
    assert!(!p.tx.same_channel(&produce(&mut clients, &ns("v2"), &ch("foo")).tx));
    assert!(!p.tx.same_channel(&produce(&mut clients, &ns("v1"), &ch("bar")).tx));
    assert!(p.tx.same_channel(&produce(&mut clients, &ns("v1"), &ch("foo")).tx));
    assert!(p.tx.try_send(p.payload).is_err());
    assert!(c.rx.try_recv().is_err());
}

#[test]
fn both_ends_of_a_channel_are_of_the_same_pipe() {
    let mut clients = ChannelClients::new(0);
    let (namespace, name) = (ns("v1"), ch("foo"));
    let p1 = produce(&mut clients, &namespace, &name);
    let c1 = clients.subscribe_to_channel(&namespace, &name).unwrap();
    let p2 = produce(&mut clients, &namespace, &name);
    let c2 = clients.subscribe_to_channel(&namespace, &name).unwrap();
    assert!(p1.tx.same_channel(&p2.tx));
    assert!(c1.rx.same_channel(&c2.rx));
    assert_eq!(p1.tx.capacity(), Some(0));
    assert_eq!(c1.rx.capacity(), Some(0));
    // the directory's own ends and two of each
    assert_eq!(p1.tx.sender_count(), 3);
    assert_eq!(p1.tx.receiver_count(), 3);
}

#[test]
fn a_channel_in_use_is_not_cleaned_up() {
    let mut clients = ChannelClients::new(0);
    let (namespace, name) = (ns("v1"), ch("foo"));
    let place = produce(&mut clients, &namespace, &name);
    assert_eq!(
        clients.clean_up_unused_channels(&namespace, &name),
        CleanUp::Kept { senders: 2, receivers: 1 }
    );
    assert_eq!(clients.clean_up_unused_channels(&namespace, &ch("bar")), CleanUp::Absent);
    assert_eq!(clients.clean_up_unused_channels(&ns("v2"), &name), CleanUp::Absent);
    drop(place);
    assert_eq!(
        clients.clean_up_unused_channels(&namespace, &name),
        CleanUp::Removed { senders: 1, receivers: 1 }
    );
    assert_eq!(clients.clean_up_unused_channels(&namespace, &name), CleanUp::Absent);
    assert_eq!(namespaces(&clients), HashSet::new());
}

#[test]
fn unused_means_at_most_the_directory_itself() {
    let mut clients = ChannelClients::new(0);
    let (namespace, name) = (ns("v1"), ch("foo"));
    let _ = produce(&mut clients, &namespace, &name);
    let _ = produce(&mut clients, &namespace, &ch("bar"));
    assert!(!clients.remove_if_unused(&namespace, &name, 2, 1));
    assert!(!clients.remove_if_unused(&namespace, &name, 1, 2));
    assert!(clients.remove_if_unused(&namespace, &name, 1, 1));
    assert!(!clients.remove_if_unused(&namespace, &name, 1, 1));
    assert_eq!(channels(&clients, "v1"), Ok(set(&["bar"])));
    assert!(clients.remove_if_unused(&namespace, &ch("bar"), 0, 0));
    assert_eq!(channels(&clients, "v1"), Err(Status::NotFound));
}

#[test]
fn deleting_a_channel_dismisses_who_waits() {
    let mut clients = ChannelClients::new(0);
    let namespace = ns("v1");
    let p1 = produce(&mut clients, &namespace, &ch("a"));
    let p2 = produce(&mut clients, &namespace, &ch("a"));
    let c = clients.subscribe_to_channel(&namespace, &ch("b")).unwrap();

    assert_eq!(clients.delete_channel(&namespace, &ch("a")), vec![p1.ticket, p2.ticket]);
    assert_eq!(clients.delete_channel(&namespace, &ch("a")), Vec::<u64>::new());
    assert_eq!(channels(&clients, "v1"), Ok(set(&["b"])));
    assert_eq!(clients.delete_channel(&namespace, &ch("b")), vec![c.ticket]);
    assert_eq!(namespaces(&clients), HashSet::new());

    // those who were dismissed leave without a trace
    assert_eq!(clients.leave(&namespace, &ch("a"), p1.ticket), None);
    assert_eq!(namespaces(&clients), HashSet::new());
}

#[test]
fn deleting_a_namespace_takes_all_of_its_channels() {
    let mut clients = ChannelClients::new(0);
    let p = produce(&mut clients, &ns("v1"), &ch("a"));
    let c = clients.subscribe_to_channel(&ns("v1"), &ch("b")).unwrap();
    let other = produce(&mut clients, &ns("v2"), &ch("a"));

    let dismissed: HashSet<u64> = clients.delete_namespace(&ns("v1")).into_iter().collect();
    assert_eq!(dismissed, HashSet::from([p.ticket, c.ticket]));
    assert_eq!(clients.delete_namespace(&ns("v1")), Vec::<u64>::new());
    assert_eq!(namespaces(&clients), set(&["v2"]));
    assert_eq!(clients.delete_namespace(&ns("v2")), vec![other.ticket]);
    assert_eq!(namespaces(&clients), HashSet::new());
}

#[test]
fn app_state_lists_everything() {
    let mut clients = ChannelClients::new(0);
    assert!(clients.app_state().is_empty());
    for (namespace, name) in [("v1", "a"), ("v1", "b"), ("v2", "a")] {
        let _ = produce(&mut clients, &ns(namespace), &ch(name));
    }
    let stats = clients.app_state();
    assert_eq!(stats.len(), 2);
    for (namespace, names) in stats {
        let names: HashSet<String> = names.into_iter().map(|name| name.0).collect();
        match namespace.0.as_str() {
            "v1" => assert_eq!(names, set(&["a", "b"])),
            "v2" => assert_eq!(names, set(&["a"])),
            other => panic!("unexpected namespace {}", other),
        }
    }
}

#[test]
fn a_consumer_that_walks_away_does_not_cost_the_producer_its_place() {
    let mut clients = ChannelClients::new(0);
    let (namespace, name) = (ns("v1"), ch("a"));
    let p1 = produce(&mut clients, &namespace, &name);
    let p2 = produce(&mut clients, &namespace, &name);
    let c1 = clients.subscribe_to_channel(&namespace, &name).unwrap();
    assert_eq!(c1.pair, meeting(p1.ticket, c1.ticket));
    assert_eq!(clients.leave(&namespace, &name, c1.ticket), None);
    let c2 = clients.subscribe_to_channel(&namespace, &name).unwrap();
    assert_eq!(c2.pair, meeting(p1.ticket, c2.ticket));

    // now the producer walks away too
    assert_eq!(clients.leave(&namespace, &name, p1.ticket), meeting(p2.ticket, c2.ticket));
    assert!(!clients.hand_over(&namespace, &name, p1.ticket, c2.ticket));
    assert!(clients.hand_over(&namespace, &name, p2.ticket, c2.ticket));
}

#[test]
fn a_payload_that_was_received_is_answered_with() {
    let mut clients = ChannelClients::new(0);
    let (namespace, name) = (ns("v1"), ch("a"));
    let p1 = produce(&mut clients, &namespace, &name);
    let p2 = produce(&mut clients, &namespace, &name);
    let c1 = clients.subscribe_to_channel(&namespace, &name).unwrap();
    let c2 = clients.subscribe_to_channel(&namespace, &name).unwrap();
    assert_eq!(c1.pair, meeting(p1.ticket, c1.ticket));

    // the producer walks away after the consumer has taken its payload
    assert_eq!(clients.leave(&namespace, &name, p1.ticket), meeting(p2.ticket, c1.ticket));
    let (taken, done) = payload(p1.ticket, headers(&[]), "p1");
    match clients.receive(&namespace, &name, c1.ticket, Some(taken)) {
        Ok(delivery) => assert_eq!(run(text(delivery)), "p1"),
        Err(_) => panic!("the payload is the consumer's"),
    }
    assert_eq!(done.blocking_recv(), Ok(()));

    // the next producer is still the next
    assert_eq!(clients.leave(&namespace, &name, c1.ticket), meeting(p2.ticket, c2.ticket));
}

#[test]
fn a_consumer_without_a_payload_fails() {
    let mut clients = ChannelClients::new(0);
    let answer = clients.receive(&ns("v1"), &ch("a"), 0, None);
    assert!(matches!(answer, Err(Status::InternalServerError)));
    assert_eq!(namespaces(&clients), HashSet::new());
}

#[test]
fn a_payload_of_a_destroyed_channel_is_accepted() {
    let mut clients = ChannelClients::new(0);
    let (sent, _done) = payload(7, headers(&[]), "late");
    match clients.receive(&ns("v1"), &ch("a"), 8, Some(sent)) {
        Ok(delivery) => assert_eq!(run(text(delivery)), "late"),
        Err(_) => panic!("nobody else could have it"),
    }
}

#[test]
fn a_delivery_is_the_payload() {
    let (sent, done) = payload(0, headers(&[("content-type", "text/plain")]), "data");
    let delivery = deliver(sent);
    assert_eq!(delivery.content_type, b"text/plain".to_vec());
    assert_eq!(run(text(delivery)), "data");
    assert_eq!(done.blocking_recv(), Ok(()));
}

#[test]
fn a_producer_is_answered() {
    let failed = ProducerState::Answered(Status::InternalServerError);
    let queued = ProducerState::Queued;
    assert_eq!(queued.next(false), failed);
    assert_eq!(queued.next(true), ProducerState::Sending);
    assert_eq!(queued.next(true).next(false), failed);
    assert_eq!(queued.next(true).next(true), ProducerState::Draining);
    assert_eq!(queued.next(true).next(true).next(false), failed);
    assert_eq!(
        queued.next(true).next(true).next(true),
        ProducerState::Answered(Status::OK)
    );
    assert_eq!(failed.next(true), failed);
}

#[test]
fn a_payload_holds_what_the_producer_sends() {
    let mut clients = ChannelClients::new(0);
    let sent = headers(&[("content-type", "text/plain"), ("x-other", "1")]);
    let place = clients
        .broadcast_to_channel(&ns("v1"), &ch("a"), sent, stream("data"))
        .ok()
        .unwrap();
    assert_eq!(place.payload.producer, place.ticket);
    assert_eq!(
        place.payload.headers.entries,
        vec![
            ("content-type".to_string(), b"text/plain".to_vec()),
            ("x-other".to_string(), b"1".to_vec()),
        ]
    );
    let mut done = place.done;
    assert_eq!(done.try_recv(), Err(TryRecvError::Empty));
    assert_eq!(run(text(deliver(place.payload))), "data");
    assert_eq!(done.try_recv(), Ok(()));
}

#[test]
fn nothing_is_left_once_all_requests_are_over() {
    let mut clients = ChannelClients::new(0);
    let asked = [("v1", "a"), ("v1", "b"), ("v2", "a"), ("v1", "a")];
    let mut producers = Vec::new();
    let mut consumers = Vec::new();
    for (namespace, name) in asked {
        producers.push(produce(&mut clients, &ns(namespace), &ch(name)));
        consumers.push(clients.subscribe_to_channel(&ns(namespace), &ch(name)).unwrap());
    }
    // one of them is destroyed and made again while requests to it are pending
    let _ = clients.delete_channel(&ns("v1"), &ch("b"));
    let again = clients.subscribe_to_channel(&ns("v1"), &ch("b")).unwrap();
    assert!(!again.rx.same_channel(&consumers[1].rx));

    for ((namespace, name), place) in asked.into_iter().zip(producers) {
        let ticket = place.ticket;
        drop(place);
        clients.leave(&ns(namespace), &ch(name), ticket);
        clients.clean_up_unused_channels(&ns(namespace), &ch(name));
    }
    assert_eq!(namespaces(&clients), set(&["v1", "v2"]));
    let over: Vec<u64> = consumers.iter().map(|place| place.ticket).collect();
    drop(consumers);
    for ((namespace, name), ticket) in asked.into_iter().zip(over) {
        clients.leave(&ns(namespace), &ch(name), ticket);
        clients.clean_up_unused_channels(&ns(namespace), &ch(name));
    }
    // the one that was made again is still in use
    assert_eq!(channels(&clients, "v1"), Ok(set(&["b"])));
    let ticket = again.ticket;
    drop(again);
    clients.leave(&ns("v1"), &ch("b"), ticket);
    clients.clean_up_unused_channels(&ns("v1"), &ch("b"));
    assert_eq!(namespaces(&clients), HashSet::new());
}

#[test]
fn two_servers_share_nothing() {
    let mut one = ChannelClients::new(1);
    let mut two = ChannelClients::new(2);
    let p = produce(&mut one, &ns("v1"), &ch("a"));
    assert_eq!(namespaces(&two), HashSet::new());
    assert!(two.app_state().is_empty());
    assert_eq!(channels(&two, "v1"), Err(Status::NotFound));
    let c = two.subscribe_to_channel(&ns("v1"), &ch("a")).unwrap();
    assert_eq!(c.pair, None);
    assert!(!p.tx.same_channel(&produce(&mut two, &ns("v1"), &ch("a")).tx));
}
