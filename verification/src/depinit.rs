//! Ask-then-initialize state of the fact provider.
//!
//! A failed call is not evidence that the provider has no configuration. Only an explicit
//! `unconfigured` answer licenses `init_defaults`; unreadable and early-startup replies must be
//! retried by a later call.
use vstd::prelude::*;

use crate::json;
use crate::json::{Json, JsonView};
use crate::text::same;
use crate::wire;

verus! {

/// What is done next about the provider's configuration.
#[derive(Clone, Copy, Debug, PartialEq, Eq, Structural)]
pub enum Next {
    Initialize,
    Settled,
    AskAgain,
}

/// What a status reply calls for.
pub open spec fn next_of(status: JsonView) -> Next {
    match json::text_at(status, "state"@) {
        Some(state) => if state == "unconfigured"@ {
            Next::Initialize
        } else if state == "configured"@ {
            Next::Settled
        } else {
            Next::AskAgain
        },
        None => Next::AskAgain,
    }
}

/// What the text of a status reply calls for; one that is no JSON calls for asking again.
pub open spec fn next_after(status: Seq<char>) -> Next {
    match wire::reading(status) {
        Ok(v) => next_of(v),
        Err(_) => Next::AskAgain,
    }
}

/// Whether a reply text says that it succeeded.
pub open spec fn says_ok(raw: Seq<char>) -> bool {
    match wire::reading(raw) {
        Ok(v) => json::truth_at(v, "ok"@) == Some(true),
        Err(_) => false,
    }
}

/// What a status reply calls for.
pub fn step_of(status: &Json) -> (r: Next)
    ensures
        r == next_of(status@),
{
    proof {
        reveal_strlit("unconfigured");
        reveal_strlit("configured");
    }
    match status.get_str("state") {
        Some(state) => if same(state, "unconfigured") {
            Next::Initialize
        } else if same(state, "configured") {
            Next::Settled
        } else {
            Next::AskAgain
        },
        None => Next::AskAgain,
    }
}

/// What the text of a status reply calls for.
pub fn next_step(status_json: &str) -> (r: Next)
    ensures
        r == next_after(status_json@),
{
    match Json::parse(status_json) {
        Ok(value) => step_of(&value),
        Err(_) => Next::AskAgain,
    }
}

/// Whether the reply to an initialization settles the matter. `applied: false` is still success:
/// another consumer initialized the provider first.
pub fn reply_ok(raw: &str) -> (r: bool)
    ensures
        r == says_ok(raw@),
{
    match Json::parse(raw) {
        Ok(value) => value.get_bool("ok") == Some(true),
        Err(_) => false,
    }
}

/// Initialization is licensed by nothing but a reply that can be read and says `unconfigured`.
pub proof fn law_only_explicit_unconfigured_licenses_initialization(status: Seq<char>)
    ensures
        next_after(status) is Initialize <==> wire::reading(status) is Ok && json::text_at(
            wire::reading(status)->Ok_0,
            "state"@,
        ) == Some("unconfigured"@),
{
}

/// A reply that cannot be read, or states anything but `configured` and `unconfigured`, is asked
/// for again.
pub proof fn law_unreadable_replies_are_retried(status: Seq<char>)
    ensures
        wire::reading(status) is Err ==> next_after(status) is AskAgain,
        wire::reading(status) is Ok ==> (next_after(status) is AskAgain <==> json::text_at(
            wire::reading(status)->Ok_0,
            "state"@,
        ) != Some("unconfigured"@) && json::text_at(wire::reading(status)->Ok_0, "state"@) != Some(
            "configured"@,
        )),
{
}

/// A configuration is settled by a status that says `configured`, and by a reply to an
/// initialization that says that it succeeded, and by nothing else.
pub proof fn law_what_settles_a_configuration(status: Seq<char>, raw: Seq<char>)
    ensures
        next_after(status) is Settled <==> wire::reading(status) is Ok && json::member(
            wire::reading(status)->Ok_0,
            "state"@,
        ) == Some(JsonView::Text("configured"@)),
        says_ok(raw) <==> wire::reading(raw) is Ok && json::member(
            wire::reading(raw)->Ok_0,
            "ok"@,
        ) == Some(JsonView::Bool(true)),
{
    reveal_strlit("configured");
    reveal_strlit("unconfigured");
    assert("configured"@.len() == 10 && "unconfigured"@.len() == 12);
}

} // verus!
