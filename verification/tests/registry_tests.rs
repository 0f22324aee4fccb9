use broadcast_hub::registry::{Registry, SubscribeOutcome, UnsubscribeOutcome};

#[test]
fn test_subscribe() {
    let mut reg = Registry::new();
    let result = reg.subscribe(123456, "news", 0);
    assert_eq!(result, SubscribeOutcome::Subscribed);
}

#[test]
fn test_duplicate_subscription() {
    let mut reg = Registry::new();
    assert_eq!(reg.subscribe(123456, "news", 0), SubscribeOutcome::Subscribed);
    let result = reg.subscribe(123456, "news", 1);
    assert_eq!(result, SubscribeOutcome::AlreadySubscribed);
}

#[test]
fn test_get_subscribers() {
    let mut reg = Registry::new();
    assert_eq!(reg.subscribe(111, "tech", 0), SubscribeOutcome::Subscribed);
    assert_eq!(reg.subscribe(222, "tech", 1), SubscribeOutcome::Subscribed);
    assert_eq!(reg.subscribe(333, "news", 2), SubscribeOutcome::Subscribed);

    let subs = reg.recipients_of("tech");
    assert_eq!(subs.len(), 2);
    assert!(subs.contains(&111));
    assert!(subs.contains(&222));
}

#[test]
fn test_channel_name_with_space() {
    let mut reg = Registry::new();
    let result = reg.subscribe(123, "invalid channel", 0);
    assert_eq!(result, SubscribeOutcome::InvalidChannelName);
}

#[test]
fn test_unsubscribe() {
    let mut reg = Registry::new();
    assert_eq!(reg.subscribe(123, "news", 0), SubscribeOutcome::Subscribed);
    let result = reg.unsubscribe(123, "news");
    assert_eq!(result, UnsubscribeOutcome::Removed);

    let subs = reg.recipients_of("news");
    assert_eq!(subs.len(), 0);
}

#[test]
fn test_unsubscribe_not_subscribed() {
    let mut reg = Registry::new();
    let result = reg.unsubscribe(123, "news");
    assert_eq!(result, UnsubscribeOutcome::NotSubscribed);
}

#[test]
fn test_empty_channel_returns_empty() {
    let reg = Registry::new();
    let subs = reg.recipients_of("nonexistent");
    assert_eq!(subs.len(), 0);
}

#[test]
fn subscribe_then_recipients_of_lists_once() {
    let mut reg = Registry::new();
    assert_eq!(reg.subscribe(42, "news_1", 7), SubscribeOutcome::Subscribed);
    let subs = reg.recipients_of("news_1");
    assert_eq!(subs.iter().filter(|&&r| r == 42).count(), 1);
}

#[test]
fn duplicate_subscribe_keeps_one_row() {
    let mut reg = Registry::new();
    assert_eq!(reg.subscribe(9, "alerts", 0), SubscribeOutcome::Subscribed);
    assert_eq!(reg.subscribe(9, "alerts", 5), SubscribeOutcome::AlreadySubscribed);
    let rows = reg.list_subscriptions();
    assert_eq!(rows.len(), 1);
    assert_eq!(rows[0].recipient, 9);
    assert_eq!(rows[0].channel, "alerts");
    assert_eq!(rows[0].created_at, 0);
    let subs = reg.recipients_of("alerts");
    assert_eq!(subs, vec![9]);
}

#[test]
fn unsubscribe_missing_pair_leaves_store_unchanged() {
    let mut reg = Registry::new();
    assert_eq!(reg.subscribe(1, "a", 0), SubscribeOutcome::Subscribed);
    assert_eq!(reg.subscribe(2, "b", 1), SubscribeOutcome::Subscribed);
    let before: Vec<(i64, String, i64)> = reg
        .list_subscriptions()
        .into_iter()
        .map(|s| (s.recipient, s.channel, s.created_at))
        .collect();
    assert_eq!(reg.unsubscribe(1, "b"), UnsubscribeOutcome::NotSubscribed);
    assert_eq!(reg.unsubscribe(3, "a"), UnsubscribeOutcome::NotSubscribed);
    let after: Vec<(i64, String, i64)> = reg
        .list_subscriptions()
        .into_iter()
        .map(|s| (s.recipient, s.channel, s.created_at))
        .collect();
    assert_eq!(before, after);
}

#[test]
fn validation_applies_to_both_mutations() {
    let mut reg = Registry::new();
    for name in ["news 1", "news-1", "", "news.1"] {
        assert_eq!(reg.subscribe(5, name, 0), SubscribeOutcome::InvalidChannelName);
        assert_eq!(reg.unsubscribe(5, name), UnsubscribeOutcome::InvalidChannelName);
    }
    assert_eq!(reg.subscribe(5, "news_1", 0), SubscribeOutcome::Subscribed);
    assert_eq!(reg.unsubscribe(5, "news_1"), UnsubscribeOutcome::Removed);
    assert_eq!(reg.list_subscriptions().len(), 0);
}

#[test]
fn all_recipients_distinct_union() {
    let mut reg = Registry::new();
    assert_eq!(reg.subscribe(5, "a", 0), SubscribeOutcome::Subscribed);
    assert_eq!(reg.subscribe(5, "b", 1), SubscribeOutcome::Subscribed);
    let all = reg.all_recipients();
    assert_eq!(all, vec![5]);

    assert_eq!(reg.subscribe(6, "a", 2), SubscribeOutcome::Subscribed);
    let all = reg.all_recipients();
    assert_eq!(all.len(), 2);
    assert!(all.contains(&5));
    assert!(all.contains(&6));
}

#[test]
fn list_subscriptions_idempotent() {
    let mut reg = Registry::new();
    assert_eq!(reg.subscribe(3, "zeta", 0), SubscribeOutcome::Subscribed);
    assert_eq!(reg.subscribe(1, "alpha", 1), SubscribeOutcome::Subscribed);
    assert_eq!(reg.subscribe(2, "alpha", 2), SubscribeOutcome::Subscribed);
    let first: Vec<(i64, String, i64)> = reg
        .list_subscriptions()
        .into_iter()
        .map(|s| (s.recipient, s.channel, s.created_at))
        .collect();
    let second: Vec<(i64, String, i64)> = reg
        .list_subscriptions()
        .into_iter()
        .map(|s| (s.recipient, s.channel, s.created_at))
        .collect();
    assert_eq!(first, second);
}

#[test]
fn list_subscriptions_ordered_by_channel_then_recipient() {
    let mut reg = Registry::new();
    assert_eq!(reg.subscribe(30, "news", 0), SubscribeOutcome::Subscribed);
    assert_eq!(reg.subscribe(10, "tech", 1), SubscribeOutcome::Subscribed);
    assert_eq!(reg.subscribe(20, "news", 2), SubscribeOutcome::Subscribed);
    assert_eq!(reg.subscribe(-1, "news", 3), SubscribeOutcome::Subscribed);
    let rows: Vec<(String, i64)> = reg
        .list_subscriptions()
        .into_iter()
        .map(|s| (s.channel, s.recipient))
        .collect();
    assert_eq!(
        rows,
        vec![
            ("news".to_string(), -1),
            ("news".to_string(), 20),
            ("news".to_string(), 30),
            ("tech".to_string(), 10),
        ]
    );
}

#[test]
fn channel_ceases_when_last_subscription_removed() {
    let mut reg = Registry::new();
    assert_eq!(reg.subscribe(1, "ephemeral", 0), SubscribeOutcome::Subscribed);
    assert_eq!(reg.unsubscribe(1, "ephemeral"), UnsubscribeOutcome::Removed);
    assert_eq!(reg.recipients_of("ephemeral").len(), 0);
    assert_eq!(reg.subscribe(1, "ephemeral", 9), SubscribeOutcome::Subscribed);
    assert_eq!(reg.recipients_of("ephemeral"), vec![1]);
}
