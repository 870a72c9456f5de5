//! Feedback that a user sends.

use vstd::prelude::*;

use crate::text::{optional_text, trim, trimmed};

verus! {

/// What came of sending feedback. It holds no detail of the connection.
#[derive(Debug, Clone, Copy, PartialEq, Eq, Structural)]
pub enum FeedbackOutcome {
    Accepted,
    Invalid,
    RateLimited,
    ServerError,
    Network,
    Timeout,
}

/// What came back from the server, if anything.
#[derive(Debug, Clone, Copy, PartialEq, Eq, Structural)]
pub enum FeedbackReply {
    /// The server took it.
    Delivered,
    /// The server answered with an error status.
    Status(u16),
    TimedOut,
    /// Anything else went wrong.
    Failed,
}

/// What a user is told.
pub open spec fn outcome_message(outcome: FeedbackOutcome) -> Seq<char> {
    match outcome {
        FeedbackOutcome::Accepted => "フィードバックを受け付けました。ありがとうございます。"@,
        FeedbackOutcome::Invalid => "送信内容を受け付けられませんでした。内容を確認してください。"@,
        FeedbackOutcome::RateLimited =>
            "送信間隔が短すぎます。時間をおいてからもう一度お試しください。"@,
        FeedbackOutcome::ServerError =>
            "サーバーで問題が発生しました。時間をおいてからもう一度お試しください。"@,
        FeedbackOutcome::Network => "ネットワークに接続できませんでした。接続を確認してください。"@,
        FeedbackOutcome::Timeout =>
            "送信がタイムアウトしました。時間をおいてもう一度お試しください。"@,
    }
}

impl FeedbackOutcome {
    /// What a user is told.
    pub fn message(self) -> (r: &'static str)
        ensures
            r@ == outcome_message(self),
    {
        match self {
            FeedbackOutcome::Accepted => "フィードバックを受け付けました。ありがとうございます。",
            FeedbackOutcome::Invalid => "送信内容を受け付けられませんでした。内容を確認してください。",
            FeedbackOutcome::RateLimited =>
                "送信間隔が短すぎます。時間をおいてからもう一度お試しください。",
            FeedbackOutcome::ServerError =>
                "サーバーで問題が発生しました。時間をおいてからもう一度お試しください。",
            FeedbackOutcome::Network => "ネットワークに接続できませんでした。接続を確認してください。",
            FeedbackOutcome::Timeout =>
                "送信がタイムアウトしました。時間をおいてもう一度お試しください。",
        }
    }
}

/// What a reply means.
pub open spec fn outcome_of(reply: FeedbackReply) -> FeedbackOutcome {
    match reply {
        FeedbackReply::Delivered => FeedbackOutcome::Accepted,
        FeedbackReply::Status(status) => if status == 429 {
            FeedbackOutcome::RateLimited
        } else if 400 <= status <= 499 {
            FeedbackOutcome::Invalid
        } else if 500 <= status <= 599 {
            FeedbackOutcome::ServerError
        } else {
            FeedbackOutcome::Network
        },
        FeedbackReply::TimedOut => FeedbackOutcome::Timeout,
        FeedbackReply::Failed => FeedbackOutcome::Network,
    }
}

/// What a reply means.
pub fn outcome_of_reply(reply: FeedbackReply) -> (r: FeedbackOutcome)
    ensures
        r == outcome_of(reply),
{
    match reply {
        FeedbackReply::Delivered => FeedbackOutcome::Accepted,
        FeedbackReply::Status(status) => {
            if status == 429 {
                FeedbackOutcome::RateLimited
            } else if 400 <= status && status <= 499 {
                FeedbackOutcome::Invalid
            } else if 500 <= status && status <= 599 {
                FeedbackOutcome::ServerError
            } else {
                FeedbackOutcome::Network
            }
        },
        FeedbackReply::TimedOut => FeedbackOutcome::Timeout,
        FeedbackReply::Failed => FeedbackOutcome::Network,
    }
}

/// Where feedback goes: to the address that was set, or to the one that is built
/// in. A blank address switches feedback off.
pub open spec fn endpoint(configured: Option<Seq<char>>, built_in: Option<Seq<char>>) -> Option<
    Seq<char>,
> {
    let address = if configured is Some {
        configured
    } else {
        built_in
    };
    match address {
        Some(value) => if trimmed(value).len() == 0 {
            None
        } else {
            Some(value)
        },
        None => None,
    }
}

/// Where feedback goes.
pub fn resolve_endpoint(configured: Option<&str>, built_in: Option<&str>) -> (r: Option<String>)
    ensures
        match r {
            Some(address) => endpoint(optional_text(configured), optional_text(built_in)) == Some(
                address@,
            ),
            None => endpoint(optional_text(configured), optional_text(built_in)) is None,
        },
{
    let address = match configured {
        Some(value) => value,
        None => match built_in {
            Some(value) => value,
            None => {
                return None;
            },
        },
    };
    if trim(address).as_str().unicode_len() == 0 {
        None
    } else {
        Some(address.to_owned())
    }
}

/// A blank setting switches feedback off, whatever is built in.
pub proof fn blank_setting_disables(configured: Seq<char>, built_in: Option<Seq<char>>)
    requires
        trimmed(configured).len() == 0,
    ensures
        endpoint(Some(configured), built_in) is None,
{
}

} // verus!
