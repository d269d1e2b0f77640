use wol_server::notify::{prune_notifications, Notification, Severity};

#[test]
fn new_notification_starts_unmarked() {
    let n = Notification::new("Success sending request".to_string(), Severity::Info, None, 1000);
    assert_eq!(n.content, "Success sending request");
    assert_eq!(n.severity, Severity::Info);
    assert_eq!(n.created_at_ms, 1000);
    assert_eq!(n.duration_ms, None);
    assert!(!n.to_delete);
}

#[test]
fn notification_without_duration_never_expires() {
    let n = Notification::new("stay".to_string(), Severity::Error, None, 0);
    assert!(!n.should_discard(u64::MAX));
}

#[test]
fn notification_expires_when_duration_elapses() {
    let n = Notification::new("brief".to_string(), Severity::Info, Some(2000), 1000);
    assert!(!n.should_discard(1000));
    assert!(!n.should_discard(2999));
    assert!(n.should_discard(3000));
    assert!(n.should_discard(9999));
}

#[test]
fn clicked_notification_is_discarded() {
    let mut n = Notification::new("clicked".to_string(), Severity::Info, None, 50);
    n.to_delete = true;
    assert!(n.should_discard(50));
}

#[test]
fn pruning_keeps_survivors_in_order() {
    let mut list = vec![
        Notification::new("a".to_string(), Severity::Info, Some(10), 0),
        Notification::new("b".to_string(), Severity::Error, None, 0),
        Notification::new("c".to_string(), Severity::Info, Some(1000), 0),
        Notification::new("d".to_string(), Severity::Info, None, 0),
    ];
    list[3].to_delete = true;
    prune_notifications(&mut list, 500);
    let contents: Vec<&str> = list.iter().map(|n| n.content.as_str()).collect();
    assert_eq!(contents, vec!["b", "c"]);
}

#[test]
fn pruning_an_empty_list_does_nothing() {
    let mut list: Vec<Notification> = Vec::new();
    prune_notifications(&mut list, 123);
    assert!(list.is_empty());
}
