use rustmc::auth::{has_joined_url, AuthOutcome, AuthPoller, AuthStatus, MojangError};

#[test]
fn submit_records_in_flight_until_bound() {
    let mut p = AuthPoller::new(5, 2);
    assert_eq!(p.submit(1, "a".to_string()), Some(0));
    assert_eq!(p.submit(2, "b".to_string()), Some(1));
    assert_eq!(p.submit(3, "c".to_string()), None);
    assert_eq!(p.pending.len(), 2);
    assert!(matches!(p.pending[0].status, AuthStatus::InFlight));
    assert_eq!(p.pending[1].username, "b");
}

#[test]
fn poll_once_before_answers_reports_nothing() {
    let mut p = AuthPoller::new(5, 4);
    p.submit(1, "a".to_string());
    p.submit(2, "b".to_string());
    assert!(p.poll_once().is_empty());
    assert_eq!(p.pending.len(), 2);
    assert_eq!(p.pending[0].age, 1);
    assert_eq!(p.pending[1].age, 1);
}

#[test]
fn poll_once_hands_out_answers_in_order() {
    let mut p = AuthPoller::new(5, 4);
    let a = p.submit(1, "a".to_string()).unwrap();
    p.submit(2, "b".to_string());
    let c = p.submit(3, "c".to_string()).unwrap();
    assert!(p.complete(c, Err(MojangError::ConnectionError)));
    assert!(p.complete(a, Err(MojangError::ConnectionError)));
    assert!(!p.complete(a, Err(MojangError::ConnectionError)));
    assert!(!p.complete(99, Err(MojangError::ConnectionError)));
    let done = p.poll_once();
    assert_eq!(done.len(), 2);
    assert_eq!(done[0].0, 1);
    assert_eq!(done[1].0, 3);
    assert!(matches!(done[0].1, AuthOutcome::Failed(MojangError::ConnectionError)));
    assert_eq!(p.pending.len(), 1);
    assert_eq!(p.pending[0].client_id, 2);
}

#[test]
fn lookups_time_out() {
    let mut p = AuthPoller::new(1, 4);
    p.submit(7, "a".to_string());
    assert!(p.poll_once().is_empty());
    let done = p.poll_once();
    assert_eq!(done.len(), 1);
    assert_eq!(done[0].0, 7);
    assert!(matches!(done[0].1, AuthOutcome::TimedOut));
    assert!(p.pending.is_empty());
}

#[test]
fn discard_client_drops_its_lookups() {
    let mut p = AuthPoller::new(5, 4);
    p.submit(1, "a".to_string());
    p.submit(2, "b".to_string());
    p.submit(1, "c".to_string());
    p.discard_client(1);
    assert_eq!(p.pending.len(), 1);
    assert_eq!(p.pending[0].client_id, 2);
    assert!(p.poll_once().is_empty());
}

#[test]
fn has_joined_url_carries_name_and_digest() {
    assert_eq!(
        has_joined_url(&"Notch".to_string()),
        "https://sessionserver.mojang.com/session/minecraft/hasJoined?username=Notch&serverId=4ed1f46bbe04bc756bcb17c0c7ce3e4632f06a48"
    );
}
