use repomons::hub::{Frame, Hub};
use std::sync::Arc;

fn frame(tag: u8) -> Frame {
    Arc::new(vec![tag, tag, tag])
}

#[test]
fn every_registered_connection_gets_each_event_once_in_order() {
    let mut hub = Hub::new();
    let ids: Vec<u64> = (0..3).map(|i| hub.register(format!("10.0.0.{}:1", i))).collect();
    let events: Vec<Frame> = (1..=4).map(frame).collect();
    for e in &events {
        hub.publish(e);
    }
    for id in ids {
        let got = hub.take_pending(id);
        assert_eq!(got, events);
    }
}

#[test]
fn late_registration_gets_no_replay() {
    let mut hub = Hub::new();
    let early = hub.register("early".to_string());
    let e = frame(1);
    hub.publish(&e);
    let late = hub.register("late".to_string());
    assert!(hub.take_pending(late).is_empty());
    let f = frame(2);
    hub.publish(&f);
    assert_eq!(hub.take_pending(late), vec![f.clone()]);
    assert_eq!(hub.take_pending(early), vec![e, f]);
}

#[test]
fn broken_connection_is_dropped_without_affecting_others() {
    let mut hub = Hub::new();
    let a = hub.register("a".to_string());
    let broken = hub.register("broken".to_string());
    let b = hub.register("b".to_string());
    hub.close(broken);
    let events: Vec<Frame> = (1..=3).map(frame).collect();
    for e in &events {
        hub.publish(e);
    }
    assert!(!hub.is_registered(broken));
    assert_eq!(hub.len(), 2);
    assert_eq!(hub.take_pending(a), events);
    assert_eq!(hub.take_pending(b), events);
}

#[test]
fn deregister_is_idempotent() {
    let mut hub = Hub::new();
    let a = hub.register("a".to_string());
    let b = hub.register("b".to_string());
    hub.deregister(a);
    hub.deregister(a);
    assert!(!hub.is_registered(a));
    assert!(hub.is_registered(b));
    assert_eq!(hub.len(), 1);
    hub.publish(&frame(9));
    assert_eq!(hub.take_pending(b), vec![frame(9)]);
    assert!(hub.take_pending(a).is_empty());
}

#[test]
fn ids_are_fresh() {
    let mut hub = Hub::new();
    let a = hub.register("a".to_string());
    hub.deregister(a);
    let b = hub.register("a".to_string());
    assert_ne!(a, b);
    assert!(hub.can_register());
}

#[test]
fn draining_empties_the_queue() {
    let mut hub = Hub::new();
    let a = hub.register("a".to_string());
    hub.publish(&frame(1));
    assert_eq!(hub.take_pending(a).len(), 1);
    assert!(hub.take_pending(a).is_empty());
}
