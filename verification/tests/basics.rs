use httpipe::drop_guard::DropGuard;
use httpipe::headers::Headers;
use httpipe::name_map::NameMap;
use httpipe::options::Options;
use httpipe::status::Status;
use tokio::sync::oneshot::error::TryRecvError;

fn headers(entries: &[(&str, &str)]) -> Headers {
    Headers {
        entries: entries
            .iter()
            .map(|(name, value)| (name.to_string(), value.as_bytes().to_vec()))
            .collect(),
    }
}

#[test]
fn default_options() {
    let options = Options::default();
    assert_eq!(options.port, 3000);
    assert_eq!(options.request_timeout, None);
}

#[test]
fn a_guard_signals_when_it_is_dropped() {
    let (guard, mut dropped) = DropGuard::new();
    assert_eq!(dropped.try_recv(), Err(TryRecvError::Empty));
    drop(guard);
    assert_eq!(dropped.try_recv(), Ok(()));
}

#[test]
fn guards_signal_to_their_own_receivers() {
    let (first, mut first_dropped) = DropGuard::new();
    let (second, mut second_dropped) = DropGuard::new();
    drop(second);
    assert_eq!(second_dropped.try_recv(), Ok(()));
    assert_eq!(first_dropped.try_recv(), Err(TryRecvError::Empty));
    drop(first_dropped);
    drop(first);
}

#[test]
fn statuses_have_codes() {
    assert_eq!(Status::OK.code(), 200);
    assert_eq!(Status::Created.code(), 201);
    assert_eq!(Status::NotFound.code(), 404);
    assert_eq!(Status::InternalServerError.code(), 500);
}

#[test]
fn the_first_content_type_counts() {
    let sent = headers(&[("host", "x"), ("content-type", "text/plain"), ("content-type", "text/html")]);
    assert_eq!(sent.content_type(), b"text/plain".to_vec());
    assert_eq!(sent.get(&"host".to_string()), Some(&b"x".to_vec()));
    assert_eq!(sent.get(&"accept".to_string()), None);
}

#[test]
fn content_types_that_say_nothing() {
    let octets = b"application/octet-stream".to_vec();
    assert_eq!(headers(&[]).content_type(), octets);
    assert_eq!(
        headers(&[("content-type", "application/x-www-form-urlencoded")]).content_type(),
        octets
    );
    // only the exact value is replaced
    assert_eq!(
        headers(&[("content-type", "application/x-www-form-urlencoded; charset=utf-8")])
            .content_type(),
        b"application/x-www-form-urlencoded; charset=utf-8".to_vec()
    );
    assert_eq!(
        headers(&[("content-type", "multipart/form-data")]).content_type(),
        b"multipart/form-data".to_vec()
    );
}

#[test]
fn a_content_type_need_not_be_text() {
    let sent = Headers { entries: vec![("content-type".to_string(), vec![0xff, 0xfe])] };
    assert_eq!(sent.content_type(), vec![0xff, 0xfe]);
}

#[test]
fn names_and_values() {
    let mut map: NameMap<u32> = NameMap::new();
    let (a, b) = ("a".to_string(), "b".to_string());
    assert!(map.is_empty());
    map.insert(a.clone(), 1);
    map.insert(b.clone(), 2);
    assert_eq!(map.len(), 2);
    assert_eq!(map.get(&a), Some(&1));
    *map.get_mut(&a).unwrap() = 3;
    assert_eq!(map.get(&a), Some(&3));
    assert_eq!(map.entry(1), (&b, &2));
    assert_eq!(map.remove(&a), Some(3));
    assert_eq!(map.remove(&a), None);
    assert!(!map.contains(&a));
    assert!(map.contains(&b));
    assert!(map.get_mut(&a).is_none());
}
