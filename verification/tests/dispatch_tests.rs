use broadcast_hub::api::{plan_broadcast, plan_channel_send, InputError, MAX_MESSAGE_LEN};
use broadcast_hub::dispatch::{dispatch_report, DeliveryReport};
use broadcast_hub::registry::{Registry, SubscribeOutcome};

#[test]
fn empty_dispatch_reports_zero() {
    let outcomes: Vec<bool> = Vec::new();
    let report = dispatch_report(&outcomes);
    assert_eq!(report, DeliveryReport { sent: 0, errors: 0 });
}

#[test]
fn mixed_outcomes_tally() {
    // r1 and r3 succeed, r2 fails: 2 sent, 1 error.
    let report = dispatch_report(&vec![true, false, true]);
    assert_eq!(report, DeliveryReport { sent: 2, errors: 1 });
}

#[test]
fn tally_independent_of_completion_order() {
    let orders = [
        vec![true, false, true],
        vec![true, true, false],
        vec![false, true, true],
    ];
    for outcomes in &orders {
        let report = dispatch_report(outcomes);
        assert_eq!(report, DeliveryReport { sent: 2, errors: 1 });
    }
}

#[test]
fn all_failures_still_return_a_report() {
    let report = dispatch_report(&vec![false, false, false, false]);
    assert_eq!(report, DeliveryReport { sent: 0, errors: 4 });
}

#[test]
fn plan_channel_send_empty_channel_means_no_deliveries() {
    let reg = Registry::new();
    let targets = plan_channel_send(&reg, "anything", "hi").unwrap();
    assert!(targets.is_empty());
    let report = dispatch_report(&Vec::new());
    assert_eq!(report, DeliveryReport { sent: 0, errors: 0 });
}

#[test]
fn plan_channel_send_resolves_recipients() {
    let mut reg = Registry::new();
    assert_eq!(reg.subscribe(1, "ciao", 0), SubscribeOutcome::Subscribed);
    assert_eq!(reg.subscribe(2, "ciao", 1), SubscribeOutcome::Subscribed);
    assert_eq!(reg.subscribe(3, "other", 2), SubscribeOutcome::Subscribed);
    let targets = plan_channel_send(&reg, "ciao", "Test message").unwrap();
    assert_eq!(targets.len(), 2);
    assert!(targets.contains(&1));
    assert!(targets.contains(&2));
}

#[test]
fn plan_channel_send_checks_cap_before_name() {
    let reg = Registry::new();
    let long = "x".repeat(MAX_MESSAGE_LEN + 1);
    assert_eq!(
        plan_channel_send(&reg, "bad name", &long),
        Err(InputError::MessageTooLong)
    );
    assert_eq!(
        plan_channel_send(&reg, "bad name", "hi"),
        Err(InputError::InvalidChannelName)
    );
}

#[test]
fn message_length_boundary() {
    let mut reg = Registry::new();
    assert_eq!(reg.subscribe(1, "c", 0), SubscribeOutcome::Subscribed);
    let at_cap = "x".repeat(MAX_MESSAGE_LEN);
    let over_cap = "x".repeat(MAX_MESSAGE_LEN + 1);

    assert_eq!(plan_channel_send(&reg, "c", &at_cap), Ok(vec![1]));
    assert_eq!(
        plan_channel_send(&reg, "c", &over_cap),
        Err(InputError::MessageTooLong)
    );

    assert_eq!(plan_broadcast(&reg, &at_cap), Ok(vec![1]));
    assert_eq!(plan_broadcast(&reg, &over_cap), Err(InputError::MessageTooLong));
}

#[test]
fn broadcast_rejects_empty_message() {
    let mut reg = Registry::new();
    assert_eq!(reg.subscribe(1, "c", 0), SubscribeOutcome::Subscribed);
    assert_eq!(plan_broadcast(&reg, ""), Err(InputError::EmptyMessage));
}

#[test]
fn broadcast_targets_distinct_recipients() {
    let mut reg = Registry::new();
    assert_eq!(reg.subscribe(5, "a", 0), SubscribeOutcome::Subscribed);
    assert_eq!(reg.subscribe(5, "b", 1), SubscribeOutcome::Subscribed);
    assert_eq!(reg.subscribe(8, "b", 2), SubscribeOutcome::Subscribed);
    let targets = plan_broadcast(&reg, "Test broadcast message").unwrap();
    assert_eq!(targets.len(), 2);
    assert!(targets.contains(&5));
    assert!(targets.contains(&8));
}
