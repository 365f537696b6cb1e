use httpipe::decimal::decimal_text;
use httpipe::headers::Headers;
use httpipe::pubsub::{
    after_send, message_of, publish, subscription_next, subscription_start, Part, PubSubClients,
};
use httpipe::status::Status;
use httpipe::topic::Message;

fn headers(entries: &[(&str, &str)]) -> Headers {
    Headers {
        entries: entries
            .iter()
            .map(|(name, value)| (name.to_string(), value.as_bytes().to_vec()))
            .collect(),
    }
}

/// A subscriber and then a publisher use a new topic; gives back the content
/// type and the body that the subscriber gets.
fn exchange(sent: Headers, body: &str) -> (String, String) {
    let mut clients = PubSubClients::new(0);
    let (status, id) = clients.pubsub_create().unwrap();
    assert_eq!(status, Status::Created);
    assert_eq!(id.len(), 36);

    let mut rx = clients.pubsub_subscribe(&id, true).unwrap();
    assert_eq!(clients.pubsub_count(&id).unwrap(), "1");
    let mut tx = match clients.pubsub_broadcast(&id, true, sent) {
        Ok(tx) => tx,
        Err(_) => panic!("there is a subscriber"),
    };
    assert_eq!(publish(&mut tx, Part::Frame(body.as_bytes().to_vec())).ok(), Some(1));
    assert_eq!(publish(&mut tx, Part::End).ok(), Some(1));

    let content_type = subscription_start(Some(rx.try_recv().map_err(|_| 0))).unwrap();
    let mut got = Vec::new();
    while let Some(piece) = subscription_next(rx.try_recv().ok()) {
        got.extend(piece);
    }
    (String::from_utf8(content_type).unwrap(), String::from_utf8(got).unwrap())
}

#[test]
fn pubsub_simple_json() {
    let test_message = "{\"greeting\":\"Bwah!\"}";
    let (content_type, body) = exchange(
        headers(&[("content-type", "application/json")]),
        test_message,
    );
    assert_eq!(content_type, "application/json");
    assert_eq!(body, test_message);
}

#[test]
fn pubsub_content_type_is_application_octet_stream_unless_otherwise_specified() {
    let test_message = "hello";
    let (content_type, body) = exchange(headers(&[]), test_message);
    assert_eq!(content_type, "application/octet-stream");
    assert_eq!(body, test_message);
}

#[test]
fn autovivify_on_receive() {
    let mut clients = PubSubClients::new(0);
    let id = "it_should_autovivify_on_receive".to_string();
    assert!(clients.pubsub_subscribe(&id, true).is_ok());
    assert_eq!(clients.pubsub_index(), vec!["it_should_autovivify_on_receive"]);
}

#[test]
fn autovivify_on_publish() {
    let mut clients = PubSubClients::new(0);
    let id = "it_should_autovivify_on_publish".to_string();
    // nobody is subscribed, so the request fails; the topic is there
    match clients.pubsub_broadcast(&id, true, headers(&[])) {
        Ok(_) => panic!("nobody is subscribed"),
        Err(failure) => {
            assert_eq!(failure.status, Status::InternalServerError);
            assert_eq!(failure.text, Some("channel closed".to_string()));
        }
    }
    assert_eq!(clients.pubsub_index(), vec!["it_should_autovivify_on_publish"]);
}

#[test]
fn do_not_autovivify_on_receive_when_disabled() {
    let mut clients = PubSubClients::new(0);
    let id = "it_should_autovivify_on_receive".to_string();
    assert!(matches!(clients.pubsub_subscribe(&id, false), Err(Status::NotFound)));
    assert!(clients.pubsub_index().is_empty());
}

#[test]
fn do_not_autovivify_on_publish_when_disabled() {
    let mut clients = PubSubClients::new(0);
    let id = "it_should_autovivify_on_publish".to_string();
    match clients.pubsub_broadcast(&id, false, headers(&[])) {
        Ok(_) => panic!("there is no topic"),
        Err(failure) => {
            assert_eq!(failure.status, Status::NotFound);
            assert_eq!(failure.text, None);
        }
    }
    assert!(clients.pubsub_index().is_empty());
}

#[test]
fn a_new_topic_has_a_random_name() {
    let mut clients = PubSubClients::new(0);
    let (_, first) = clients.pubsub_create().unwrap();
    let (_, second) = clients.pubsub_create().unwrap();
    assert_ne!(first, second);
    for (i, c) in first.chars().enumerate() {
        match i {
            8 | 13 | 18 | 23 => assert_eq!(c, '-'),
            14 => assert_eq!(c, '4'),
            19 => assert!("89ab".contains(c)),
            _ => assert!(c.is_ascii_digit() || ('a'..='f').contains(&c)),
        }
    }
    assert_eq!(clients.pubsub_index(), vec![first, second]);
}

#[test]
fn a_name_that_is_taken_is_not_created_again() {
    let mut clients = PubSubClients::new(0);
    assert_eq!(
        clients.create_topic("a".to_string()),
        Ok((Status::Created, "a".to_string()))
    );
    assert_eq!(
        clients.create_topic("a".to_string()),
        Err(Status::InternalServerError)
    );
    assert_eq!(clients.pubsub_index(), vec!["a"]);
}

#[test]
fn every_subscriber_gets_every_message() {
    let mut clients = PubSubClients::new(0);
    let id = "a".to_string();
    let mut first = clients.pubsub_subscribe(&id, true).unwrap();
    let mut second = clients.pubsub_subscribe(&id, true).unwrap();
    let mut other = clients.pubsub_subscribe(&"b".to_string(), true).unwrap();
    assert_eq!(clients.pubsub_count(&id).unwrap(), "2");
    let mut tx = clients.topic(&id, false).unwrap();
    assert!(publish(&mut tx, Part::Frame(b"x".to_vec())).is_ok());
    for rx in [&mut first, &mut second] {
        assert_eq!(subscription_next(rx.try_recv().ok()), Some(b"x".to_vec()));
    }
    assert!(other.try_recv().is_err());
}

#[test]
fn closing_a_topic_ends_its_subscriptions() {
    let mut clients = PubSubClients::new(0);
    let id = "a".to_string();
    let mut rx = clients.pubsub_subscribe(&id, true).unwrap();
    assert!(clients.pubsub_close(&id).is_some());
    assert!(matches!(rx.try_recv(), Ok(Message::Close)));
    assert!(clients.pubsub_close(&id).is_none());
    assert!(clients.pubsub_index().is_empty());
    assert_eq!(clients.pubsub_count(&id), Err(Status::NotFound));
}

#[test]
fn a_topic_keeps_eight_messages_for_a_capacity_of_five() {
    // the capacity is rounded up to a power of two
    let mut clients = PubSubClients::new(0);
    let id = "a".to_string();
    let mut rx = clients.pubsub_subscribe(&id, true).unwrap();
    let mut tx = clients.topic(&id, false).unwrap();
    for i in 0..9u8 {
        assert!(publish(&mut tx, Part::Frame(vec![i])).is_ok());
    }
    assert!(rx.try_recv().is_err());
    assert_eq!(subscription_next(rx.try_recv().ok()), Some(vec![1]));
}

#[test]
fn a_broken_body_fails_the_publisher() {
    let mut clients = PubSubClients::new(0);
    let id = "a".to_string();
    let mut rx = clients.pubsub_subscribe(&id, true).unwrap();
    let mut tx = clients.topic(&id, false).unwrap();
    match publish(&mut tx, Part::Broken("reset".to_string())) {
        Ok(_) => panic!("the body is broken"),
        Err(failure) => {
            assert_eq!(failure.status, Status::InternalServerError);
            assert_eq!(failure.text, Some("reset".to_string()));
        }
    }
    assert!(rx.try_recv().is_err());
}

#[test]
fn only_the_headers_have_to_reach_somebody() {
    assert_eq!(after_send(true, Ok(2)).ok(), Some(2));
    assert_eq!(after_send(false, Err("channel closed".to_string())).ok(), Some(0));
    let failure = after_send(true, Err("channel closed".to_string())).err().unwrap();
    assert_eq!(failure.status, Status::InternalServerError);
    assert_eq!(failure.text, Some("channel closed".to_string()));

    // without subscribers the rest of a body goes nowhere
    let mut clients = PubSubClients::new(0);
    let mut tx = clients.topic(&"a".to_string(), true).unwrap();
    assert_eq!(publish(&mut tx, Part::Frame(vec![1])).ok(), Some(0));
    assert_eq!(publish(&mut tx, Part::End).ok(), Some(0));
    assert!(publish(&mut tx, Part::Start(headers(&[]))).is_err());
}

#[test]
fn parts_become_messages() {
    assert!(matches!(message_of(Part::Start(headers(&[]))), Ok(Message::Headers(_))));
    assert!(matches!(message_of(Part::Frame(vec![1])), Ok(Message::Data(data)) if data == vec![1]));
    assert!(matches!(message_of(Part::End), Ok(Message::Close)));
    assert!(message_of(Part::Broken("x".to_string())).is_err());
}

#[test]
fn a_subscription_starts_with_headers() {
    let json = headers(&[("content-type", "application/json")]);
    assert_eq!(
        subscription_start(Some(Ok(Message::Headers(json)))),
        Ok(b"application/json".to_vec())
    );
    let failed = Err(Status::InternalServerError);
    assert_eq!(subscription_start(None), failed);
    assert_eq!(subscription_start(Some(Err(3))), failed);
    assert_eq!(subscription_start(Some(Ok(Message::Close))), failed);
    assert_eq!(subscription_start(Some(Ok(Message::Data(vec![1])))), failed);
}

#[test]
fn a_subscription_ends_with_close() {
    assert_eq!(subscription_next(Some(Message::Data(vec![1, 2]))), Some(vec![1, 2]));
    assert_eq!(subscription_next(Some(Message::Close)), None);
    assert_eq!(subscription_next(None), None);
}

#[test]
fn a_copy_of_a_message_is_the_same() {
    let message = Message::Headers(headers(&[("a", "1"), ("b", "2")]));
    match message.clone() {
        Message::Headers(copy) => assert_eq!(
            copy.entries,
            vec![("a".to_string(), b"1".to_vec()), ("b".to_string(), b"2".to_vec())]
        ),
        _ => panic!("headers stay headers"),
    }
    assert!(matches!(Message::Data(vec![7]).clone(), Message::Data(data) if data == vec![7]));
    assert!(matches!(Message::Close.clone(), Message::Close));
}

#[test]
fn counts_in_decimal() {
    assert_eq!(decimal_text(0), "0");
    assert_eq!(decimal_text(9), "9");
    assert_eq!(decimal_text(10), "10");
    assert_eq!(decimal_text(1234567890), "1234567890");
    assert_eq!(decimal_text(usize::MAX), format!("{}", usize::MAX));
}

#[test]
fn nothing_is_read_after_close() {
    let mut clients = PubSubClients::new(0);
    let id = "a".to_string();
    let mut rx = clients.pubsub_subscribe(&id, true).unwrap();
    let mut tx = clients.topic(&id, false).unwrap();
    for part in [Part::Frame(vec![1]), Part::Frame(vec![2]), Part::End, Part::Frame(vec![3])] {
        assert_eq!(publish(&mut tx, part).ok(), Some(1));
    }
    let mut got = Vec::new();
    while let Some(piece) = subscription_next(rx.try_recv().ok()) {
        got.push(piece);
    }
    assert_eq!(got, vec![vec![1], vec![2]]);
}

#[test]
fn a_subscriber_hears_its_own_topic_only() {
    let mut clients = PubSubClients::new(0);
    let (a, b) = ("a".to_string(), "b".to_string());
    let mut on_a = clients.pubsub_subscribe(&a, true).unwrap();
    let mut on_b = clients.pubsub_subscribe(&b, true).unwrap();
    let to_a = clients.topic(&a, false).unwrap();
    let to_b = clients.topic(&b, false).unwrap();
    assert!(!to_a.same_channel(&to_b));
    assert_eq!(clients.pubsub_count(&a).unwrap(), "1");
    assert_eq!(clients.pubsub_count(&b).unwrap(), "1");
    assert!(clients.pubsub_close(&b).is_some());
    assert!(on_a.try_recv().is_err());
    assert!(matches!(on_b.try_recv(), Ok(Message::Close)));
}

#[test]
fn closing_again_changes_nothing() {
    let mut clients = PubSubClients::new(0);
    for id in ["a", "b"] {
        assert!(clients.create_topic(id.to_string()).is_ok());
    }
    // nobody is subscribed, which is no failure
    assert!(clients.pubsub_close(&"a".to_string()).is_some());
    assert_eq!(clients.pubsub_index(), vec!["b"]);
    assert!(clients.pubsub_close(&"a".to_string()).is_none());
    assert_eq!(clients.pubsub_index(), vec!["b"]);
}

#[test]
fn a_topic_made_again_is_another_one() {
    let mut clients = PubSubClients::new(0);
    let id = "a".to_string();
    let mut before = clients.pubsub_subscribe(&id, true).unwrap();
    let old = clients.topic(&id, false).unwrap();
    assert!(clients.pubsub_close(&id).is_some());
    let mut after = clients.pubsub_subscribe(&id, true).unwrap();
    let mut tx = clients.topic(&id, false).unwrap();
    assert!(!tx.same_channel(&old));
    assert_eq!(publish(&mut tx, Part::Frame(vec![1])).ok(), Some(1));
    assert!(matches!(before.try_recv(), Ok(Message::Close)));
    assert!(before.try_recv().is_err());
    assert!(matches!(after.try_recv(), Ok(Message::Data(data)) if data == vec![1]));
}

#[test]
fn topics_of_two_servers_are_separate() {
    let mut one = PubSubClients::new(1);
    let mut two = PubSubClients::new(2);
    let id = "a".to_string();
    let mut rx = one.pubsub_subscribe(&id, true).unwrap();
    assert!(two.pubsub_index().is_empty());
    let mut tx = two.topic(&id, true).unwrap();
    assert_eq!(publish(&mut tx, Part::Frame(vec![1])).ok(), Some(0));
    assert!(rx.try_recv().is_err());
}

#[test]
fn a_part_is_published_to_as_many_as_are_subscribed() {
    let mut clients = PubSubClients::new(0);
    let id = "a".to_string();
    let _first = clients.pubsub_subscribe(&id, true).unwrap();
    let _second = clients.pubsub_subscribe(&id, true).unwrap();
    let mut tx = clients.topic(&id, false).unwrap();
    assert_eq!(publish(&mut tx, Part::Frame(vec![1])).ok(), Some(2));
    assert_eq!(publish(&mut tx, Part::Start(headers(&[]))).ok(), Some(2));
}
