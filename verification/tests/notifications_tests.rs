use hangar::notifications::NotificationCenter;
use hangar::subscription::{
    add_subscription, batch_toggle_subscriptions, delete_subscription, update_subscription,
    SubscriptionError,
};
use hangar::types::{Notification, Subscription};

fn notification(id: &str, title: &str) -> Notification {
    Notification {
        id: id.to_string(),
        title: title.to_string(),
        message: "message".to_string(),
        timestamp: 1000,
        is_read: false,
        severity: "info".to_string(),
    }
}

fn subscription(name: &str, enabled: bool) -> Subscription {
    Subscription {
        id: format!("id-{name}"),
        name: name.to_string(),
        url: format!("https://example.com/{name}"),
        enabled,
        last_updated: None,
        node_count: None,
    }
}

#[test]
fn test_add_and_get_notifications() {
    let mut center = NotificationCenter::new();
    center.add_notification(notification("n1", "first"));
    center.add_notification(notification("n2", "second"));
    let items = center.get_notifications();
    assert_eq!(items.len(), 2);
    assert_eq!(items[0].id, "n1");
    assert_eq!(items[1].id, "n2");
}

#[test]
fn test_notification_cap_drops_oldest() {
    let mut center = NotificationCenter::new();
    for i in 0..51 {
        center.add_notification(notification(&format!("n{i}"), "t"));
    }
    let items = center.get_notifications();
    assert_eq!(items.len(), 50);
    assert_eq!(items[0].id, "n1");
    assert_eq!(items[49].id, "n50");
}

#[test]
fn test_mark_as_read() {
    let mut center = NotificationCenter::new();
    center.add_notification(notification("n1", "first"));
    center.add_notification(notification("n2", "second"));
    center.mark_as_read("n2");
    let items = center.get_notifications();
    assert!(!items[0].is_read);
    assert!(items[1].is_read);
    // unknown ids change nothing
    center.mark_as_read("zzz");
    assert_eq!(center.get_notifications().len(), 2);
}

#[test]
fn test_clear_notifications() {
    let mut center = NotificationCenter::new();
    center.add_notification(notification("n1", "first"));
    center.clear_notifications();
    assert!(center.get_notifications().is_empty());
}

#[test]
fn test_subscription_list_operations() {
    let mut subs = Vec::new();
    add_subscription(&mut subs, subscription("A", true));
    add_subscription(&mut subs, subscription("B", false));
    assert_eq!(subs.len(), 2);

    update_subscription(
        &mut subs,
        1,
        "B2".to_string(),
        "https://example.com/B2".to_string(),
        true,
    )
    .unwrap();
    assert_eq!(subs[1].name, "B2");
    assert_eq!(subs[1].id, "id-B");
    assert!(subs[1].enabled);

    assert_eq!(
        update_subscription(&mut subs, 9, "x".to_string(), "y".to_string(), true),
        Err(SubscriptionError::IndexOutOfRange)
    );

    let removed = delete_subscription(&mut subs, 0).unwrap();
    assert_eq!(removed.name, "A");
    assert_eq!(subs.len(), 1);
    assert!(matches!(
        delete_subscription(&mut subs, 5),
        Err(SubscriptionError::IndexOutOfRange)
    ));
}

#[test]
fn test_batch_delete_subscriptions() {
    let mut subs = vec![
        subscription("A", true),
        subscription("B", true),
        subscription("C", true),
        subscription("D", true),
    ];
    hangar::subscription::batch_delete_subscriptions(&mut subs, &vec![1, 3, 3, 99]);
    let names: Vec<&str> = subs.iter().map(|s| s.name.as_str()).collect();
    assert_eq!(names, vec!["A", "C"]);
}

#[test]
fn test_batch_toggle_subscriptions() {
    let mut subs = vec![
        subscription("A", false),
        subscription("B", false),
        subscription("C", false),
    ];
    batch_toggle_subscriptions(&mut subs, &vec![0, 2, 17], true);
    assert!(subs[0].enabled);
    assert!(!subs[1].enabled);
    assert!(subs[2].enabled);
}
