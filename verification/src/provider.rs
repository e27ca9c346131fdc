//! What is asked of the fact provider, and what its replies say.
use vstd::prelude::*;

use crate::assets;
use crate::budget;
use crate::json;
use crate::json::{Json, JsonView};
use crate::replies;
use crate::text::joined;
use crate::verified;
use crate::verified::Answer;
use crate::wire;

verus! {

/// What is asked of the fact provider. There is nothing else to ask of it: no request signs,
/// asks for approval or broadcasts.
#[derive(Debug, PartialEq, Eq)]
pub enum Request {
    ConfigStatus,
    InitDefaults,
    ListChains,
    Call { chain_id: i64, call: String },
}

/// What a request is.
pub enum RequestView {
    ConfigStatus,
    InitDefaults,
    ListChains,
    Call { chain_id: i64, call: Seq<char> },
}

impl View for Request {
    type V = RequestView;

    open spec fn view(&self) -> RequestView {
        match self {
            Request::ConfigStatus => RequestView::ConfigStatus,
            Request::InitDefaults => RequestView::InitDefaults,
            Request::ListChains => RequestView::ListChains,
            Request::Call { chain_id, call } => RequestView::Call {
                chain_id: *chain_id,
                call: call@,
            },
        }
    }
}

/// The most time that a request may take.
pub open spec fn cap_of(request: RequestView) -> u128 {
    match request {
        RequestView::ConfigStatus => budget::PROBE,
        RequestView::InitDefaults => budget::INIT,
        RequestView::ListChains => budget::LOCAL,
        RequestView::Call { chain_id: _, call: _ } => budget::RPC,
    }
}

impl Request {
    /// The most time that this request may take.
    pub fn cap(&self) -> (r: u128)
        ensures
            r == cap_of(self@),
    {
        match self {
            Request::ConfigStatus => budget::PROBE,
            Request::InitDefaults => budget::INIT,
            Request::ListChains => budget::LOCAL,
            Request::Call { chain_id: _, call: _ } => budget::RPC,
        }
    }
}

/// What becomes of a request: no time was left for it, the provider could not be reached, or it
/// replied.
#[derive(Debug, PartialEq, Eq)]
pub enum Event {
    Expired,
    Failed(String),
    Reply(String),
}

/// What an event is.
pub enum EventView {
    Expired,
    Failed(Seq<char>),
    Reply(Seq<char>),
}

impl View for Event {
    type V = EventView;

    open spec fn view(&self) -> EventView {
        match self {
            Event::Expired => EventView::Expired,
            Event::Failed(e) => EventView::Failed(e@),
            Event::Reply(raw) => EventView::Reply(raw@),
        }
    }
}

/// What the registry says of a chain, or why nothing is known of it.
pub open spec fn record_read(event: EventView, chain_id: u64) -> Result<JsonView, Seq<char>> {
    match event {
        EventView::Expired => Err("no time left to read chain metadata"@),
        EventView::Failed(e) => Err("eth_rpc_module: "@ + e),
        EventView::Reply(raw) => match wire::reading(raw) {
            Err(e) => Err(e),
            Ok(v) => replies::record_in(v, chain_id),
        },
    }
}

/// What an RPC read answers and the route it came by, or why it does not.
pub open spec fn answer_read(event: EventView) -> Result<
    (JsonView, Option<Seq<char>>),
    Seq<char>,
> {
    match event {
        EventView::Expired => Err("no time left for the RPC read"@),
        EventView::Failed(e) => Err("eth_rpc_module: "@ + e),
        EventView::Reply(raw) => match wire::reading(raw) {
            Err(e) => Err(e),
            Ok(v) => if verified::is_ok(v) {
                Ok((verified::answer_value(v), json::text_at(v, "route"@)))
            } else {
                Err(wire::writing(v))
            },
        },
    }
}

/// Whether a reply that is itself a refusal reads back when it is written out again, but for the
/// numbers in it that are not whole.
pub open spec fn refusal_reads_back(event: EventView) -> bool {
    match event {
        EventView::Reply(raw) => match wire::reading(raw) {
            Ok(v) => !verified::is_ok(v) ==> wire::rereads(v),
            Err(_) => true,
        },
        _ => true,
    }
}

/// What the registry says of a chain.
pub fn read_record(event: &Event, chain_id: u64) -> (r: Result<Json, String>)
    ensures
        match record_read(event@, chain_id) {
            Ok(v) => r matches Ok(j) && j@ == v,
            Err(why) => r matches Err(e) && e@ == why,
        },
        refusal_reads_back(event@),
{
    match event {
        Event::Expired => Err("no time left to read chain metadata".to_owned()),
        Event::Failed(e) => Err(joined("eth_rpc_module: ", e.as_str())),
        Event::Reply(raw) => match Json::parse(raw.as_str()) {
            Err(e) => Err(e),
            Ok(v) => replies::chain_record(&v, chain_id),
        },
    }
}

/// What an RPC read answers.
pub fn read_answer(event: &Event) -> (r: Result<Answer, String>)
    ensures
        match answer_read(event@) {
            Ok((value, route)) => r matches Ok(a) && a.value@ == value && assets::maybe(a.route)
                == route,
            Err(why) => r matches Err(e) && e@ == why,
        },
        refusal_reads_back(event@),
{
    match event {
        Event::Expired => Err("no time left for the RPC read".to_owned()),
        Event::Failed(e) => Err(joined("eth_rpc_module: ", e.as_str())),
        Event::Reply(raw) => verified::unwrap_answer(raw.as_str()),
    }
}

/// What the registry is asked for comes from its reply, and from nothing else: a reply that reads
/// is taken as it is, one that does not is refused with the reader's words, and without one the
/// reason says whether there was no time or no provider.
pub proof fn law_a_record_comes_from_the_reply(raw: Seq<char>, error: Seq<char>, chain_id: u64)
    ensures
        wire::reading(raw) matches Ok(v) ==> record_read(EventView::Reply(raw), chain_id)
            == replies::record_in(v, chain_id),
        wire::reading(raw) matches Err(e) ==> record_read(EventView::Reply(raw), chain_id) == Err::<
            JsonView,
            Seq<char>,
        >(e),
        record_read(EventView::Failed(error), chain_id) == Err::<JsonView, Seq<char>>(
            "eth_rpc_module: "@ + error,
        ),
        record_read(EventView::Expired, chain_id) == Err::<JsonView, Seq<char>>(
            "no time left to read chain metadata"@,
        ),
{
}

/// An RPC read is answered by the reply that came, with the route it came by; a reply that does not
/// say that it succeeded is refused as it is, and without one the reason says whether there was no
/// time or no provider.
pub proof fn law_an_answer_comes_from_the_reply(raw: Seq<char>, error: Seq<char>)
    ensures
        wire::reading(raw) matches Ok(v) ==> {
            &&& json::member(v, "ok"@) == Some(JsonView::Bool(true)) ==> answer_read(
                EventView::Reply(raw),
            ) is Ok && answer_read(EventView::Reply(raw))->Ok_0.1 == json::text_at(v, "route"@)
            &&& json::member(v, "ok"@) == Some(JsonView::Bool(true)) && json::member(
                v,
                "result"@,
            ) is Some ==> answer_read(EventView::Reply(raw))->Ok_0.0 == json::member(
                v,
                "result"@,
            )->0
            &&& json::member(v, "ok"@) != Some(JsonView::Bool(true)) ==> answer_read(
                EventView::Reply(raw),
            ) == Err::<(JsonView, Option<Seq<char>>), Seq<char>>(wire::writing(v))
        },
        wire::reading(raw) matches Err(e) ==> answer_read(EventView::Reply(raw)) == Err::<
            (JsonView, Option<Seq<char>>),
            Seq<char>,
        >(e),
        answer_read(EventView::Failed(error)) == Err::<(JsonView, Option<Seq<char>>), Seq<char>>(
            "eth_rpc_module: "@ + error,
        ),
        answer_read(EventView::Expired) == Err::<(JsonView, Option<Seq<char>>), Seq<char>>(
            "no time left for the RPC read"@,
        ),
{
}

/// Every request is bounded by its own time: a second and a half to ask for the status, three to
/// apply the defaults or to read the registry, twelve for a call.
pub proof fn law_every_request_is_bounded(request: RequestView)
    ensures
        request is ConfigStatus ==> cap_of(request) == 1_500_000_000u128,
        request is InitDefaults ==> cap_of(request) == 3_000_000_000u128,
        request is ListChains ==> cap_of(request) == 3_000_000_000u128,
        request is Call ==> cap_of(request) == 12_000_000_000u128,
{
}

} // verus!
