use broadcast_hub::auth::{check_auth, AuthOutcome};
use broadcast_hub::bot::{handle_command, BotCommand, BotReply};
use broadcast_hub::registry::Registry;

#[test]
fn empty_secret_is_misconfiguration() {
    assert_eq!(check_auth(Some("Bearer "), ""), AuthOutcome::MissingSecret);
    assert_eq!(check_auth(None, ""), AuthOutcome::MissingSecret);
}

#[test]
fn exact_bearer_line_authorizes() {
    assert_eq!(check_auth(Some("Bearer s3cret"), "s3cret"), AuthOutcome::Authorized);
}

#[test]
fn wrong_or_missing_header_is_unauthorized() {
    assert_eq!(check_auth(None, "s3cret"), AuthOutcome::Unauthorized);
    assert_eq!(check_auth(Some(""), "s3cret"), AuthOutcome::Unauthorized);
    assert_eq!(check_auth(Some("Bearer"), "s3cret"), AuthOutcome::Unauthorized);
    assert_eq!(check_auth(Some("Bearer s3cret "), "s3cret"), AuthOutcome::Unauthorized);
    assert_eq!(check_auth(Some("Bearer S3cret"), "s3cret"), AuthOutcome::Unauthorized);
    assert_eq!(check_auth(Some("bearer s3cret"), "s3cret"), AuthOutcome::Unauthorized);
    assert_eq!(check_auth(Some("s3cret"), "s3cret"), AuthOutcome::Unauthorized);
}

#[test]
fn bot_subscribe_flow() {
    let mut reg = Registry::new();
    let cmd = BotCommand::Subscribe("news".to_string());
    assert_eq!(handle_command(&mut reg, 77, &cmd, 0), BotReply::Subscribed);
    assert_eq!(handle_command(&mut reg, 77, &cmd, 1), BotReply::AlreadySubscribed);
    assert_eq!(reg.recipients_of("news"), vec![77]);
}

#[test]
fn bot_unsubscribe_flow() {
    let mut reg = Registry::new();
    let sub = BotCommand::Subscribe("news".to_string());
    let unsub = BotCommand::Unsubscribe("news".to_string());
    assert_eq!(handle_command(&mut reg, 77, &unsub, 0), BotReply::NotSubscribed);
    assert_eq!(handle_command(&mut reg, 77, &sub, 1), BotReply::Subscribed);
    assert_eq!(handle_command(&mut reg, 77, &unsub, 2), BotReply::Unsubscribed);
    assert_eq!(reg.recipients_of("news").len(), 0);
}

#[test]
fn bot_rejects_invalid_channel_names() {
    let mut reg = Registry::new();
    let sub = BotCommand::Subscribe("bad name".to_string());
    let unsub = BotCommand::Unsubscribe("bad name".to_string());
    assert_eq!(handle_command(&mut reg, 1, &sub, 0), BotReply::InvalidChannelName);
    assert_eq!(handle_command(&mut reg, 1, &unsub, 0), BotReply::InvalidChannelName);
    assert_eq!(reg.list_subscriptions().len(), 0);
}
