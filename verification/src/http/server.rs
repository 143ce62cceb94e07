//! What each path of the HTTP interface answers.

use crate::leadership::LeadershipState;
use vstd::prelude::*;

verus! {

/// The status of an answer that could be given.
pub const STATUS_OK: u16 = 200;

/// The status of an answer that says no.
pub const STATUS_UNAVAILABLE: u16 = 503;

/// The content type of the exposition and of plain answers.
pub const PLAIN_TEXT: &'static str = "text/plain; charset=utf-8";

/// The content type of the start page.
pub const HTML_TEXT: &'static str = "text/html; charset=utf-8";

/// The content type of the leadership answer.
pub const JSON_TEXT: &'static str = "application/json";

/// The start page.
pub const ROOT_PAGE: &'static str = "<!DOCTYPE html>
<html>
<head><title>Kafka Lag Exporter</title></head>
<body>
<h1>Kafka Lag Exporter</h1>
<p><a href=\"/metrics\">Metrics</a></p>
<p><a href=\"/health\">Health</a></p>
<p><a href=\"/ready\">Ready</a></p>
<p><a href=\"/leader\">Leader Status</a></p>
</body>
</html>";

/// An answer.
#[derive(Debug)]
pub struct Reply {
    pub status: u16,
    pub content_type: &'static str,
    pub body: String,
}

/// What a `Reply` holds.
#[verifier::ext_equal]
pub struct ReplyView {
    pub status: u16,
    pub content_type: Seq<char>,
    pub body: Seq<char>,
}

impl View for Reply {
    type V = ReplyView;

    open spec fn view(&self) -> ReplyView {
        ReplyView { status: self.status, content_type: self.content_type@, body: self.body@ }
    }
}

/// An answer in plain text.
pub open spec fn plain(status: u16, body: Seq<char>) -> ReplyView {
    ReplyView { status, content_type: PLAIN_TEXT@, body }
}

/// An answer in plain text has the status and the text that it was given.
pub proof fn plain_answers_are_as_given(status: u16, body: Seq<char>)
    ensures
        plain(status, body).status == status,
        plain(status, body).body == body,
        plain(status, body).content_type == "text/plain; charset=utf-8"@,
{
}

/// An answer in plain text.
fn plain_reply(status: u16, body: &str) -> (reply: Reply)
    ensures
        reply@ == plain(status, body@),
{
    Reply { status, content_type: PLAIN_TEXT, body: body.to_owned() }
}

/// `/metrics`: the exposition.
pub fn metrics_handler(exposition: String) -> (reply: Reply)
    ensures
        reply@ == plain(STATUS_OK, exposition@),
{
    Reply { status: STATUS_OK, content_type: PLAIN_TEXT, body: exposition }
}

/// `/health`: whether the exporter is healthy.
pub fn health_handler(healthy: bool) -> (reply: Reply)
    ensures
        reply@ == (if healthy {
            plain(STATUS_OK, "OK"@)
        } else {
            plain(STATUS_UNAVAILABLE, "Unhealthy"@)
        }),
{
    if healthy {
        plain_reply(STATUS_OK, "OK")
    } else {
        plain_reply(STATUS_UNAVAILABLE, "Unhealthy")
    }
}

/// `/ready`: whether this instance leads and has data of at least one cluster.
pub fn ready_handler(leadership: LeadershipState, cluster_count: usize) -> (reply: Reply)
    ensures
        reply@ == (if leadership != LeadershipState::Leader {
            plain(STATUS_UNAVAILABLE, "Not ready - standby instance (not leader)"@)
        } else if cluster_count > 0 {
            plain(STATUS_OK, "Ready"@)
        } else {
            plain(STATUS_UNAVAILABLE, "Not ready - no cluster data"@)
        }),
{
    if !leadership.is_leader() {
        return plain_reply(STATUS_UNAVAILABLE, "Not ready - standby instance (not leader)");
    }
    if cluster_count > 0 {
        plain_reply(STATUS_OK, "Ready")
    } else {
        plain_reply(STATUS_UNAVAILABLE, "Not ready - no cluster data")
    }
}

/// `/leader`: whether this instance leads.
pub fn leader_handler(leadership: LeadershipState) -> (reply: Reply)
    ensures
        reply@ == (ReplyView {
            status: STATUS_OK,
            content_type: JSON_TEXT@,
            body: if leadership == LeadershipState::Leader {
                "{\"is_leader\":true}"@
            } else {
                "{\"is_leader\":false}"@
            },
        }),
{
    let body = if leadership.is_leader() {
        "{\"is_leader\":true}"
    } else {
        "{\"is_leader\":false}"
    };
    Reply { status: STATUS_OK, content_type: JSON_TEXT, body: body.to_owned() }
}

/// `/`: the start page.
pub fn root_handler() -> (reply: Reply)
    ensures
        reply@ == (ReplyView {
            status: STATUS_OK,
            content_type: HTML_TEXT@,
            body: ROOT_PAGE@,
        }),
{
    Reply { status: STATUS_OK, content_type: HTML_TEXT, body: ROOT_PAGE.to_owned() }
}

} // verus!
