use fyler_app::feedback::{outcome_of_reply, resolve_endpoint, FeedbackOutcome, FeedbackReply};

#[test]
fn endpoint_resolution_honors_config_precedence_and_disable() {
    assert_eq!(
        resolve_endpoint(Some("https://config.test"), Some("https://build.test")),
        Some("https://config.test".to_owned())
    );
    assert_eq!(resolve_endpoint(Some(""), Some("https://build.test")), None);
    assert_eq!(
        resolve_endpoint(None, Some("https://build.test")),
        Some("https://build.test".to_owned())
    );
    assert_eq!(resolve_endpoint(None, None), None);
}

#[test]
fn user_messages_never_include_transport_details() {
    for outcome in [
        FeedbackOutcome::Accepted,
        FeedbackOutcome::Invalid,
        FeedbackOutcome::RateLimited,
        FeedbackOutcome::ServerError,
        FeedbackOutcome::Network,
        FeedbackOutcome::Timeout,
    ] {
        let message = outcome.message();
        assert!(!message.contains("http"));
        assert!(!message.contains("127.0.0.1"));
        assert!(!message.contains("OS error"));
    }
}

#[test]
fn maps_success_and_http_status_classes() {
    for (reply, expected) in [
        (FeedbackReply::Delivered, FeedbackOutcome::Accepted),
        (FeedbackReply::Status(400), FeedbackOutcome::Invalid),
        (FeedbackReply::Status(429), FeedbackOutcome::RateLimited),
        (FeedbackReply::Status(500), FeedbackOutcome::ServerError),
    ] {
        assert_eq!(outcome_of_reply(reply), expected);
    }
}

#[test]
fn lost_replies_are_told_apart() {
    assert_eq!(outcome_of_reply(FeedbackReply::TimedOut), FeedbackOutcome::Timeout);
    assert_eq!(outcome_of_reply(FeedbackReply::Failed), FeedbackOutcome::Network);
}
