//! The operations, step by step: what each asks of the fact provider, and what becomes of what
//! comes back.
//!
//! An operation starts with a [`Step`]. A step either asks one thing of the provider, or is the
//! reply to the caller. Whoever runs an operation performs what is asked, within the time that
//! is granted for it, and hands back an [`Event`]. All decisions stand here.
use vstd::prelude::*;

use crate::address;
use crate::address::Address;
use crate::assets;
use crate::assets::{Asset, AssetView, TokenSort};
use crate::budget;
use crate::depinit;
use crate::depinit::Next;
use crate::history;
use crate::history::{History, HistoryView};
use crate::json;
use crate::json::{Json, JsonView};
use crate::provider;
use crate::provider::{read_answer, read_record, Event, EventView, Request, RequestView};
use crate::hextext;
use crate::replies;
use crate::replies::err;
use crate::rows;
use crate::text;
use crate::text::{joined, trim};
use crate::tokens;
use crate::transfer;
use crate::transfer::{Resolved, ResolvedView, TransferRequest};
use crate::uint;
use crate::verified;
use crate::wire;

verus! {

/// What an operation is to do, once the provider has been asked about its configuration.
#[derive(Debug)]
pub enum Task {
    Startup,
    List { chain_id: i64, tokens: Vec<Asset> },
    Balances {
        chain_id: i64,
        account: String,
        owner: Address,
        tokens: Vec<Asset>,
        sort: TokenSort,
    },
    Resolve { chain_id: i64, key: String, tokens: Vec<Asset> },
    Transfer { chain_id: i64, request: TransferRequest, tokens: Vec<Asset> },
    History { history: History },
}

/// What a task is.
pub enum TaskView {
    Startup,
    List { chain_id: i64, tokens: Seq<AssetView> },
    Balances {
        chain_id: i64,
        account: Seq<char>,
        owner: Seq<u8>,
        tokens: Seq<AssetView>,
        sort: TokenSort,
    },
    Resolve { chain_id: i64, key: Seq<char>, tokens: Seq<AssetView> },
    Transfer { chain_id: i64, request: TransferRequest, tokens: Seq<AssetView> },
    History { history: HistoryView },
}

impl View for Task {
    type V = TaskView;

    open spec fn view(&self) -> TaskView {
        match self {
            Task::Startup => TaskView::Startup,
            Task::List { chain_id, tokens } => TaskView::List {
                chain_id: *chain_id,
                tokens: assets::views(tokens@),
            },
            Task::Balances { chain_id, account, owner, tokens, sort } => TaskView::Balances {
                chain_id: *chain_id,
                account: account@,
                owner: owner@,
                tokens: assets::views(tokens@),
                sort: *sort,
            },
            Task::Resolve { chain_id, key, tokens } => TaskView::Resolve {
                chain_id: *chain_id,
                key: key@,
                tokens: assets::views(tokens@),
            },
            Task::Transfer { chain_id, request, tokens } => TaskView::Transfer {
                chain_id: *chain_id,
                request: *request,
                tokens: assets::views(tokens@),
            },
            Task::History { history } => TaskView::History { history: history@ },
        }
    }
}

/// What an operation waits for: the provider's status, its initialization, the record of a chain,
/// the balance batch, or the balance of one token.
#[derive(Debug)]
pub enum State {
    Probing { task: Task },
    Initializing { task: Task },
    Reading { task: Task },
    Batch { chain_id: i64, account: String, sort: TokenSort, offered: Vec<Asset> },
    Held { chain_id: i64, resolved: Resolved },
}

/// What a state is.
pub enum StateView {
    Probing { task: TaskView },
    Initializing { task: TaskView },
    Reading { task: TaskView },
    Batch { chain_id: i64, account: Seq<char>, sort: TokenSort, offered: Seq<AssetView> },
    Held { chain_id: i64, resolved: ResolvedView },
}

impl View for State {
    type V = StateView;

    open spec fn view(&self) -> StateView {
        match self {
            State::Probing { task } => StateView::Probing { task: task@ },
            State::Initializing { task } => StateView::Initializing { task: task@ },
            State::Reading { task } => StateView::Reading { task: task@ },
            State::Batch { chain_id, account, sort, offered } => StateView::Batch {
                chain_id: *chain_id,
                account: account@,
                sort: *sort,
                offered: assets::views(offered@),
            },
            State::Held { chain_id, resolved } => StateView::Held {
                chain_id: *chain_id,
                resolved: resolved@,
            },
        }
    }
}

/// An operation that waits for an event. `settled` says whether the provider is known to be
/// configured, `total` how much time the whole operation has.
#[derive(Debug)]
pub struct Pending {
    pub state: State,
    pub settled: bool,
    pub total: u128,
}

/// What a waiting operation is.
pub struct PendingView {
    pub state: StateView,
    pub settled: bool,
    pub total: u128,
}

impl View for Pending {
    type V = PendingView;

    open spec fn view(&self) -> PendingView {
        PendingView { state: self.state@, settled: self.settled, total: self.total }
    }
}

/// What an operation does next. `Unwritable` is a history with a row that holds something in the
/// place of what has to be written to: it has no reply.
#[derive(Debug)]
pub enum Step {
    Ask { request: Request, pending: Pending },
    Done { reply: String, settled: bool },
    Unwritable { settled: bool },
}

/// What a step is.
pub enum StepView {
    Ask { request: RequestView, pending: PendingView },
    Done { reply: Seq<char>, settled: bool },
    Unwritable { settled: bool },
}

impl View for Step {
    type V = StepView;

    open spec fn view(&self) -> StepView {
        match self {
            Step::Ask { request, pending } => StepView::Ask { request: request@, pending: pending@ },
            Step::Done { reply, settled } => StepView::Done { reply: reply@, settled: *settled },
            Step::Unwritable { settled } => StepView::Unwritable { settled: *settled },
        }
    }
}

/// Whether a task can be carried out: the tokens of a transfer are tokens at addresses, and a
/// history is an object.
pub open spec fn task_wf(task: TaskView) -> bool {
    match task {
        TaskView::Transfer { chain_id: _, request: _, tokens } => tokens::are_tokens(tokens),
        TaskView::History { history } => history.value is Object,
        _ => true,
    }
}

/// Whether a state can be gone on from.
pub open spec fn state_wf(state: StateView) -> bool {
    match state {
        StateView::Probing { task } => task_wf(task),
        StateView::Initializing { task } => task_wf(task),
        StateView::Reading { task } => task_wf(task),
        StateView::Batch { chain_id: _, account: _, sort: _, offered: _ } => true,
        StateView::Held { chain_id: _, resolved } => transfer::can_call(resolved),
    }
}

/// Whether a step can be gone on from.
pub open spec fn step_wf(step: StepView) -> bool {
    step matches StepView::Ask { request: _, pending } ==> state_wf(pending.state)
}

/// The step that refuses, for the reason `why`.
pub open spec fn refusing(why: Seq<char>, settled: bool) -> StepView {
    StepView::Done { reply: replies::refused(why), settled }
}

/// The step that replies with `v`.
pub open spec fn replying(v: JsonView, settled: bool) -> StepView {
    StepView::Done { reply: wire::writing(v), settled }
}

/// The work of a task itself: asking for the record of its chain, where it has one to read.
pub open spec fn entered(task: TaskView, settled: bool, total: u128) -> StepView {
    let reading = StepView::Ask {
        request: RequestView::ListChains,
        pending: PendingView { state: StateView::Reading { task }, settled, total },
    };
    match task {
        TaskView::Startup => StepView::Done { reply: ""@, settled },
        TaskView::History { history } => if history.chains.len() > 0 {
            reading
        } else if history::history_ready(history) {
            replying(history::final_history(history), settled)
        } else {
            StepView::Unwritable { settled }
        },
        _ => reading,
    }
}

/// The start of a task: the provider is asked about its configuration first, until that is known
/// to be settled.
pub open spec fn begun(task: TaskView, settled: bool, total: u128) -> StepView {
    if settled {
        entered(task, settled, total)
    } else {
        StepView::Ask {
            request: RequestView::ConfigStatus,
            pending: PendingView { state: StateView::Probing { task }, settled, total },
        }
    }
}

/// What follows the provider's status. Only an explicit `unconfigured` asks for initialization;
/// whatever else comes back, the task goes on.
pub open spec fn probed(task: TaskView, event: EventView, settled: bool, total: u128) -> StepView {
    match event {
        EventView::Reply(raw) => match depinit::next_after(raw) {
            Next::Initialize => StepView::Ask {
                request: RequestView::InitDefaults,
                pending: PendingView { state: StateView::Initializing { task }, settled, total },
            },
            Next::Settled => entered(task, true, total),
            Next::AskAgain => entered(task, settled, total),
        },
        _ => entered(task, settled, total),
    }
}

/// What follows the provider's initialization: the task goes on, settled where that succeeded.
pub open spec fn initialized(
    task: TaskView,
    event: EventView,
    settled: bool,
    total: u128,
) -> StepView {
    match event {
        EventView::Reply(raw) => entered(task, settled || depinit::says_ok(raw), total),
        _ => entered(task, settled, total),
    }
}

/// The assets that are offered on a chain, or why they are not known.
pub open spec fn offered_read(
    event: EventView,
    chain_id: i64,
    tokens: Seq<AssetView>,
) -> Result<Seq<AssetView>, Seq<char>> {
    match provider::record_read(event, chain_id as u64) {
        Err(why) => Err(why),
        Ok(record) => replies::offer(record, tokens),
    }
}

/// The read-only call of a contract on a chain.
pub open spec fn calling(chain_id: i64, call: JsonView) -> RequestView {
    RequestView::Call { chain_id, call: wire::writing(call) }
}

/// What follows the record of a chain.
pub open spec fn chain_read(
    task: TaskView,
    event: EventView,
    settled: bool,
    total: u128,
) -> StepView {
    match task {
        TaskView::Startup => entered(task, settled, total),
        TaskView::List { chain_id, tokens } => match offered_read(event, chain_id, tokens) {
            Err(why) => refusing(why, settled),
            Ok(offered) => replying(replies::list_json(chain_id, offered), settled),
        },
        TaskView::Balances { chain_id, account, owner, tokens, sort } => match offered_read(
            event,
            chain_id,
            tokens,
        ) {
            Err(why) => refusing(why, settled),
            Ok(offered) => StepView::Ask {
                request: calling(chain_id, replies::balances_call_json(offered, owner)),
                pending: PendingView {
                    state: StateView::Batch { chain_id, account, sort, offered },
                    settled,
                    total,
                },
            },
        },
        TaskView::Resolve { chain_id, key, tokens } => match offered_read(
            event,
            chain_id,
            tokens,
        ) {
            Err(why) => refusing(why, settled),
            Ok(offered) => match assets::resolution(offered, key) {
                Err(why) => refusing(why, settled),
                Ok(asset) => replying(replies::resolve_json(chain_id, asset), settled),
            },
        },
        TaskView::Transfer { chain_id, request, tokens } => match offered_read(
            event,
            chain_id,
            tokens,
        ) {
            Err(why) => refusing(why, settled),
            Ok(offered) => match transfer::settled(chain_id as u64, request, offered) {
                Err(why) => refusing(why, settled),
                Ok(resolved) => if resolved.asset.native {
                    replying(replies::transfer_json(chain_id, resolved, None), settled)
                } else {
                    StepView::Ask {
                        request: calling(
                            chain_id,
                            replies::token_call_json(
                                transfer::call_target(resolved),
                                resolved.from,
                            ),
                        ),
                        pending: PendingView {
                            state: StateView::Held { chain_id, resolved },
                            settled,
                            total,
                        },
                    }
                },
            },
        },
        TaskView::History { history } => if history.chains.len() > 0 {
            entered(
                TaskView::History { history: history::chain_done(history, event) },
                settled,
                total,
            )
        } else {
            entered(task, settled, total)
        },
    }
}

/// What follows the balance batch.
pub open spec fn batch_read(
    chain_id: i64,
    account: Seq<char>,
    sort: TokenSort,
    offered: Seq<AssetView>,
    event: EventView,
    settled: bool,
) -> StepView {
    match provider::answer_read(event) {
        Err(why) => refusing(why, settled),
        Ok((value, route)) => match replies::balances_in(value) {
            Err(why) => refusing(why, settled),
            Ok(raw) => replying(
                replies::balances_json(
                    chain_id,
                    account,
                    sort,
                    assets::placed_rows(offered, raw, sort),
                    route,
                ),
                settled,
            ),
        },
    }
}

/// What follows the balance of the token that is to be transferred.
pub open spec fn held_read(
    chain_id: i64,
    resolved: ResolvedView,
    event: EventView,
    settled: bool,
) -> StepView {
    match provider::answer_read(event) {
        Err(why) => refusing(why, settled),
        Ok((value, route)) => match replies::held_in(value) {
            Err(why) => refusing(why, settled),
            Ok(held) => if resolved.amount <= held {
                replying(replies::transfer_json(chain_id, resolved, route), settled)
            } else {
                refusing(
                    transfer::overdrawn(
                        held,
                        resolved.amount,
                        resolved.asset.symbol,
                        resolved.asset.decimals as nat,
                    ),
                    settled,
                )
            },
        },
    }
}

/// What an operation does next, after an event.
pub open spec fn advanced(p: PendingView, event: EventView) -> StepView {
    match p.state {
        StateView::Probing { task } => probed(task, event, p.settled, p.total),
        StateView::Initializing { task } => initialized(task, event, p.settled, p.total),
        StateView::Reading { task } => chain_read(task, event, p.settled, p.total),
        StateView::Batch { chain_id, account, sort, offered } => batch_read(
            chain_id,
            account,
            sort,
            offered,
            event,
            p.settled,
        ),
        StateView::Held { chain_id, resolved } => held_read(chain_id, resolved, event, p.settled),
    }
}

/// Why a task is refused after the record of its chain, where it is.
pub open spec fn chain_refusal(task: TaskView, event: EventView) -> Option<Seq<char>> {
    match task {
        TaskView::Startup => None,
        TaskView::List { chain_id, tokens } => offered_read(event, chain_id, tokens).err(),
        TaskView::Balances { chain_id, account: _, owner: _, tokens, sort: _ } => offered_read(
            event,
            chain_id,
            tokens,
        ).err(),
        TaskView::Resolve { chain_id, key, tokens } => match offered_read(
            event,
            chain_id,
            tokens,
        ) {
            Err(why) => Some(why),
            Ok(offered) => assets::resolution(offered, key).err(),
        },
        TaskView::Transfer { chain_id, request, tokens } => match offered_read(
            event,
            chain_id,
            tokens,
        ) {
            Err(why) => Some(why),
            Ok(offered) => transfer::settled(chain_id as u64, request, offered).err(),
        },
        TaskView::History { history: _ } => None,
    }
}

/// Why reading balances is refused after the batch, where it is.
pub open spec fn batch_refusal(event: EventView) -> Option<Seq<char>> {
    match provider::answer_read(event) {
        Err(why) => Some(why),
        Ok((value, _)) => replies::balances_in(value).err(),
    }
}

/// Why a transfer is refused after the balance of its token, where it is.
pub open spec fn held_refusal(resolved: ResolvedView, event: EventView) -> Option<Seq<char>> {
    match provider::answer_read(event) {
        Err(why) => Some(why),
        Ok((value, _)) => match replies::held_in(value) {
            Err(why) => Some(why),
            Ok(held) => if resolved.amount <= held {
                None
            } else {
                Some(
                    transfer::overdrawn(
                        held,
                        resolved.amount,
                        resolved.asset.symbol,
                        resolved.asset.decimals as nat,
                    ),
                )
            },
        },
    }
}

/// Why an operation is refused after an event, where it is.
pub open spec fn refusal_after(p: PendingView, event: EventView) -> Option<Seq<char>> {
    match p.state {
        StateView::Probing { task: _ } => None,
        StateView::Initializing { task: _ } => None,
        StateView::Reading { task } => chain_refusal(task, event),
        StateView::Batch { chain_id: _, account: _, sort: _, offered: _ } => batch_refusal(event),
        StateView::Held { chain_id: _, resolved } => held_refusal(resolved, event),
    }
}

/// The step that refuses.
fn refuse(why: &str, settled: bool) -> (r: Step)
    ensures
        r@ == refusing(why@, settled),
        replies::refused_reads_back(why@),
{
    Step::Done { reply: err(why), settled }
}

/// The step that replies.
fn reply(v: &Json, settled: bool) -> (r: Step)
    ensures
        r@ == replying(v@, settled),
{
    Step::Done { reply: v.to_text(), settled }
}

/// The work of a task itself.
fn enter(task: Task, settled: bool, total: u128) -> (r: Step)
    requires
        task_wf(task@),
    ensures
        r@ == entered(task@, settled, total),
        step_wf(r@),
{
    match task {
        Task::Startup => Step::Done { reply: "".to_owned(), settled },
        Task::History { history } => if history.chains.len() > 0 {
            Step::Ask {
                request: Request::ListChains,
                pending: Pending {
                    state: State::Reading { task: Task::History { history } },
                    settled,
                    total,
                },
            }
        } else {
            match history.finish() {
                Some(v) => reply(&v, settled),
                None => Step::Unwritable { settled },
            }
        },
        other => Step::Ask {
            request: Request::ListChains,
            pending: Pending { state: State::Reading { task: other }, settled, total },
        },
    }
}

/// The start of a task.
fn begin(task: Task, settled: bool, total: u128) -> (r: Step)
    requires
        task_wf(task@),
    ensures
        r@ == begun(task@, settled, total),
        step_wf(r@),
{
    if settled {
        enter(task, settled, total)
    } else {
        Step::Ask {
            request: Request::ConfigStatus,
            pending: Pending { state: State::Probing { task }, settled, total },
        }
    }
}

/// The assets that are offered on a chain.
fn read_offered(event: &Event, chain_id: i64, tokens: Vec<Asset>) -> (r: Result<
    Vec<Asset>,
    String,
>)
    ensures
        match offered_read(event@, chain_id, assets::views(tokens@)) {
            Ok(list) => r matches Ok(v) && assets::views(v@) == list,
            Err(why) => r matches Err(e) && e@ == why,
        },
        provider::refusal_reads_back(event@),
{
    match read_record(event, chain_id as u64) {
        Err(why) => Err(why),
        Ok(record) => replies::offered(&record, tokens),
    }
}

/// A settled transfer of a token that a descriptor gave, or of the native asset, can be called.
proof fn lemma_callable(
    chain_id: u64,
    request: TransferRequest,
    record: JsonView,
    tokens: Seq<AssetView>,
)
    requires
        tokens::are_tokens(tokens),
        replies::offer(record, tokens) is Ok,
        transfer::settled(chain_id, request, replies::offer(record, tokens)->Ok_0) is Ok,
    ensures
        transfer::can_call(
            transfer::settled(chain_id, request, replies::offer(record, tokens)->Ok_0)->Ok_0,
        ),
{
    let offered = replies::offer(record, tokens)->Ok_0;
    let native = assets::first_native(offered)->0;
    let key = transfer::asset_key(request, native);
    assets::law_only_offered_assets_are_named(offered, key);
    let asset = assets::resolution(offered, key)->Ok_0;
    let i = choose|i: int| 0 <= i < offered.len() && offered[i] == asset;
    if i > 0 {
        assert(offered[i] == tokens[i - 1]);
    }
}

/// What follows the record of a chain.
fn on_chain(task: Task, event: &Event, settled: bool, total: u128) -> (r: Step)
    requires
        task_wf(task@),
    ensures
        r@ == chain_read(task@, event@, settled, total),
        step_wf(r@),
        !(task@ is Startup) && (task@ is History ==> task@->History_history.chains.len() > 0)
            ==> provider::refusal_reads_back(event@),
        chain_refusal(task@, event@) matches Some(why) ==> replies::refused_reads_back(why),
{
    match task {
        Task::Startup => enter(task, settled, total),
        Task::List { chain_id, tokens } => match read_offered(event, chain_id, tokens) {
            Err(why) => refuse(why.as_str(), settled),
            Ok(offered) => reply(&replies::list_reply(chain_id, offered.as_slice()), settled),
        },
        Task::Balances { chain_id, account, owner, tokens, sort } => match read_offered(
            event,
            chain_id,
            tokens,
        ) {
            Err(why) => refuse(why.as_str(), settled),
            Ok(offered) => {
                let call = replies::balances_call(offered.as_slice(), owner).to_text();
                Step::Ask {
                    request: Request::Call { chain_id, call },
                    pending: Pending {
                        state: State::Batch { chain_id, account, sort, offered },
                        settled,
                        total,
                    },
                }
            },
        },
        Task::Resolve { chain_id, key, tokens } => match read_offered(event, chain_id, tokens) {
            Err(why) => refuse(why.as_str(), settled),
            Ok(offered) => match assets::resolve(offered.as_slice(), key.as_str()) {
                Err(why) => refuse(why.as_str(), settled),
                Ok(asset) => reply(&replies::resolve_reply(chain_id, &asset), settled),
            },
        },
        Task::Transfer { chain_id, request, tokens } => {
            let ghost given = assets::views(tokens@);
            match read_offered(event, chain_id, tokens) {
                Err(why) => refuse(why.as_str(), settled),
                Ok(offered) => match transfer::resolve(
                    chain_id as u64,
                    &request,
                    offered.as_slice(),
                ) {
                    Err(why) => refuse(why.as_str(), settled),
                    Ok(resolved) => {
                        proof {
                            let record = provider::record_read(event@, chain_id as u64)->Ok_0;
                            lemma_callable(chain_id as u64, request, record, given);
                        }
                        if resolved.asset.native {
                            reply(&replies::transfer_reply(chain_id, &resolved, &None), settled)
                        } else {
                            ask_held(chain_id, resolved, settled, total)
                        }
                    },
                },
            }
        },
        Task::History { history } => if history.chains.len() > 0 {
            let mut history = history;
            history.note(event);
            enter(Task::History { history }, settled, total)
        } else {
            enter(Task::History { history }, settled, total)
        },
    }
}

/// Asks for the balance of the token that is to be transferred.
fn ask_held(chain_id: i64, resolved: Resolved, settled: bool, total: u128) -> (r: Step)
    requires
        !resolved@.asset.native,
        transfer::can_call(resolved@),
    ensures
        r@ == (StepView::Ask {
            request: calling(
                chain_id,
                replies::token_call_json(transfer::call_target(resolved@), resolved@.from),
            ),
            pending: PendingView {
                state: StateView::Held { chain_id, resolved: resolved@ },
                settled,
                total,
            },
        }),
{
    let mut token = resolved.to;
    match &resolved.asset.address {
        Some(s) => match Address::parse(s.as_str()) {
            Ok(a) => {
                token = a;
            },
            Err(_) => {
                assert(false);
            },
        },
        None => {
            assert(false);
        },
    }
    let call = replies::token_call(token, resolved.from).to_text();
    Step::Ask {
        request: Request::Call { chain_id, call },
        pending: Pending { state: State::Held { chain_id, resolved }, settled, total },
    }
}

/// What follows the balance batch.
fn on_batch(
    chain_id: i64,
    account: String,
    sort: TokenSort,
    offered: Vec<Asset>,
    event: &Event,
    settled: bool,
) -> (r: Step)
    ensures
        r@ == batch_read(
            chain_id,
            account@,
            sort,
            assets::views(offered@),
            event@,
            settled,
        ),
        provider::refusal_reads_back(event@),
        batch_refusal(event@) matches Some(why) ==> replies::refused_reads_back(why),
{
    let answer = match read_answer(event) {
        Ok(a) => a,
        Err(why) => return refuse(why.as_str(), settled),
    };
    match replies::read_balances(&answer.value) {
        Err(why) => refuse(why.as_str(), settled),
        Ok(raw) => reply(
            &replies::balances_reply(
                chain_id,
                account.as_str(),
                sort,
                offered.as_slice(),
                raw.as_slice(),
                &answer.route,
            ),
            settled,
        ),
    }
}

/// What follows the balance of the token that is to be transferred.
fn on_held(chain_id: i64, resolved: Resolved, event: &Event, settled: bool) -> (r: Step)
    requires
        transfer::can_call(resolved@),
    ensures
        r@ == held_read(chain_id, resolved@, event@, settled),
        provider::refusal_reads_back(event@),
        held_refusal(resolved@, event@) matches Some(why) ==> replies::refused_reads_back(why),
{
    let answer = match read_answer(event) {
        Ok(a) => a,
        Err(why) => return refuse(why.as_str(), settled),
    };
    let held = match replies::read_held(&answer.value) {
        Ok(n) => n,
        Err(why) => return refuse(why.as_str(), settled),
    };
    match transfer::token_affordable(
        held,
        resolved.amount,
        resolved.asset.symbol.as_str(),
        resolved.asset.decimals,
    ) {
        Err(why) => refuse(why.as_str(), settled),
        Ok(_) => reply(&replies::transfer_reply(chain_id, &resolved, &answer.route), settled),
    }
}

/// Whether the event that a state waits for is a reply with facts, and not one about the
/// provider's configuration.
pub open spec fn awaits_facts(state: StateView) -> bool {
    match state {
        StateView::Probing { task: _ } => false,
        StateView::Initializing { task: _ } => false,
        StateView::Reading { task } => match task {
            TaskView::Startup => false,
            TaskView::History { history } => history.chains.len() > 0,
            _ => true,
        },
        _ => true,
    }
}

/// Whether an event is a reply that is a structured refusal.
pub open spec fn is_refusing(event: EventView) -> bool {
    match event {
        EventView::Reply(raw) => wire::reading(raw) is Ok && replies::is_refusal(
            wire::reading(raw)->Ok_0,
        ),
        _ => false,
    }
}

/// Whether `step` relays the refusal that `event` is: it ends the operation with a reply that reads
/// as a structured refusal, the same but for the numbers in it that are not whole, and as it is
/// where it has none of those.
pub open spec fn relays(step: StepView, event: EventView) -> bool {
    match (step, event) {
        (StepView::Done { reply, settled: _ }, EventView::Reply(raw)) => {
            let v = wire::reading(raw)->Ok_0;
            &&& wire::reading(reply) is Ok
            &&& replies::is_refusal(wire::reading(reply)->Ok_0)
            &&& json::same_but_floats(v, wire::reading(reply)->Ok_0, wire::DEPTH as nat)
            &&& json::plain(v, wire::DEPTH as nat) ==> wire::reading(reply)->Ok_0 == v && reply
                == wire::writing(v)
        },
        _ => false,
    }
}

/// Whether a state is part of decorating a history, where a refusal is reported and not relayed.
pub open spec fn in_history(state: StateView) -> bool {
    state matches StateView::Reading { task } && task is History
}

/// A structured refusal of the provider is relayed with everything that it says, whatever was asked
/// for and whatever numbers are in it.
pub proof fn law_the_providers_refusal_is_relayed(p: PendingView, event: EventView)
    requires
        awaits_facts(p.state),
        !in_history(p.state),
        is_refusing(event),
        provider::refusal_reads_back(event),
        refusal_after(p, event) matches Some(why) ==> replies::refused_reads_back(why),
    ensures
        relays(advanced(p, event), event),
{
    match event {
        EventView::Reply(raw) => {
            let v = wire::reading(raw)->Ok_0;
            assert(!verified::is_ok(v));
            assert(refusal_after(p, event) == Some(wire::writing(v)));
            replies::law_refusals_are_relayed_with_all_they_say(v);
            if json::plain(v, wire::DEPTH as nat) {
                wire::lemma_plain_rereads(v);
                replies::law_refusals_are_relayed_unchanged(v);
            }
        },
        _ => {},
    }
}

impl Pending {
    /// What the operation does next, after an event.
    pub fn advance(self, event: Event) -> (r: Step)
        requires
            state_wf(self@.state),
        ensures
            r@ == advanced(self@, event@),
            step_wf(r@),
            awaits_facts(self@.state) ==> provider::refusal_reads_back(event@),
            refusal_after(self@, event@) matches Some(why) ==> replies::refused_reads_back(why),
            awaits_facts(self@.state) && !in_history(self@.state) && is_refusing(event@) ==> relays(
                r@,
                event@,
            ),
    {
        let ghost before = self@;
        let ghost came = event@;
        let settled = self.settled;
        let total = self.total;
        let r = match self.state {
            State::Probing { task } => match event {
                Event::Reply(raw) => match depinit::next_step(raw.as_str()) {
                    Next::Initialize => Step::Ask {
                        request: Request::InitDefaults,
                        pending: Pending { state: State::Initializing { task }, settled, total },
                    },
                    Next::Settled => enter(task, true, total),
                    Next::AskAgain => enter(task, settled, total),
                },
                _ => enter(task, settled, total),
            },
            State::Initializing { task } => match event {
                Event::Reply(raw) => enter(
                    task,
                    settled || depinit::reply_ok(raw.as_str()),
                    total,
                ),
                _ => enter(task, settled, total),
            },
            State::Reading { task } => on_chain(task, &event, settled, total),
            State::Batch { chain_id, account, sort, offered } => on_batch(
                chain_id,
                account,
                sort,
                offered,
                &event,
                settled,
            ),
            State::Held { chain_id, resolved } => on_held(chain_id, resolved, &event, settled),
        };
        proof {
            if awaits_facts(before.state) && !in_history(before.state) && is_refusing(came) {
                law_the_providers_refusal_is_relayed(before, came);
            }
        }
        r
    }
}

/// Whether the refusal of a bad descriptor in a text, where there is one, reads back as the
/// `bad_token` object.
pub open spec fn tokens_read_back(tokens_json: Seq<char>) -> bool {
    tokens::text_fault(tokens_json) matches Some(said) ==> wire::reads_back(
        tokens::bad_token(said),
    )
}

/// Why listing the assets of a chain is refused, where it is.
pub open spec fn list_refusal(chain_id: i64, tokens_json: Seq<char>) -> Option<Seq<char>> {
    if chain_id < 0 {
        Some("chainId must be non-negative"@)
    } else {
        match tokens::text_tokens(chain_id as u64, tokens_json) {
            Err(why) => Some(why),
            Ok(_) => None,
        }
    }
}

/// The start of listing the assets of a chain.
pub open spec fn list_started(chain_id: i64, tokens_json: Seq<char>, settled: bool) -> StepView {
    match list_refusal(chain_id, tokens_json) {
        Some(why) => refusing(why, settled),
        None => begun(
            TaskView::List {
                chain_id,
                tokens: tokens::text_tokens(chain_id as u64, tokens_json)->Ok_0,
            },
            settled,
            budget::READ,
        ),
    }
}

/// Why reading the balances of an account is refused, where it is.
pub open spec fn balances_refusal(
    chain_id: i64,
    account: Seq<char>,
    tokens_json: Seq<char>,
    token_sort: Seq<char>,
) -> Option<Seq<char>> {
    let named = text::trimmed(account);
    if chain_id < 0 {
        Some("chainId must be non-negative"@)
    } else if assets::sort_named(token_sort) is None {
        Some("tokenSort must be alpha, balance, or empty"@)
    } else if !address::is_address(named) {
        Some("invalid address: "@ + address::address_refusal(named))
    } else {
        match tokens::text_tokens(chain_id as u64, tokens_json) {
            Err(why) => Some(why),
            Ok(_) => None,
        }
    }
}

/// The start of reading the balances of an account.
pub open spec fn balances_started(
    chain_id: i64,
    account: Seq<char>,
    tokens_json: Seq<char>,
    token_sort: Seq<char>,
    settled: bool,
) -> StepView {
    match balances_refusal(chain_id, account, tokens_json, token_sort) {
        Some(why) => refusing(why, settled),
        None => begun(
            TaskView::Balances {
                chain_id,
                account,
                owner: address::address_of(text::trimmed(account)),
                tokens: tokens::text_tokens(chain_id as u64, tokens_json)->Ok_0,
                sort: assets::sort_named(token_sort)->0,
            },
            settled,
            budget::READ,
        ),
    }
}

/// The start of resolving one asset, which is refused as listing the assets of its chain is.
pub open spec fn resolve_started(
    chain_id: i64,
    key: Seq<char>,
    tokens_json: Seq<char>,
    settled: bool,
) -> StepView {
    match list_refusal(chain_id, tokens_json) {
        Some(why) => refusing(why, settled),
        None => begun(
            TaskView::Resolve {
                chain_id,
                key,
                tokens: tokens::text_tokens(chain_id as u64, tokens_json)->Ok_0,
            },
            settled,
            budget::READ,
        ),
    }
}

/// Why building a transfer is refused before anything is asked, where it is.
pub open spec fn transfer_refusal(
    chain_id: i64,
    request: Result<TransferRequest, String>,
) -> Option<Seq<char>> {
    if chain_id < 0 {
        Some("chainId must be non-negative"@)
    } else {
        match request {
            Err(e) => Some("invalid transfer request: "@ + e@),
            Ok(request) => match tokens::given_tokens(
                chain_id as u64,
                json::trees(request.tokens@),
                "tokens"@,
            ) {
                Err(why) => Some(why),
                Ok(_) => None,
            },
        }
    }
}

/// The start of building a transfer, of a request that was read or of the message of the reader
/// that refused it.
pub open spec fn transfer_started(
    chain_id: i64,
    request: Result<TransferRequest, String>,
    settled: bool,
) -> StepView {
    match transfer_refusal(chain_id, request) {
        Some(why) => refusing(why, settled),
        None => begun(
            TaskView::Transfer {
                chain_id,
                request: request->Ok_0,
                tokens: tokens::given_tokens(
                    chain_id as u64,
                    json::trees(request->Ok_0.tokens@),
                    "tokens"@,
                )->Ok_0,
            },
            settled,
            budget::allowance_of(request->Ok_0.deadline_ms),
        ),
    }
}

/// Whether `step` refuses, for the reason `why`, with a reply that reads back.
pub open spec fn is_refused(why: Seq<char>, step: StepView, settled: bool) -> bool {
    step == refusing(why, settled) && replies::refused_reads_back(why)
}

/// Whether `step` is a start of decorating a history. Where the tokens of several chains are
/// refused, the refusal of one of them comes back.
pub open spec fn is_history_start(
    step: StepView,
    history_json: Seq<char>,
    tokens_json: Seq<char>,
    settled: bool,
) -> bool {
    match wire::reading(history_json) {
        Err(e) => is_refused("invalid history: "@ + e, step, settled),
        Ok(v) => if !(v is Object) {
            is_refused("history must be a JSON object"@, step, settled)
        } else {
            match tokens::text_by_chain(tokens_json) {
                Err(why) => is_refused(why, step, settled),
                Ok(given) => if tokens::all_fine(given) {
                    step == begun(
                        TaskView::History { history: History::fresh(v, tokens::by_chain(given)) },
                        settled,
                        budget::READ,
                    )
                } else {
                    exists|why: Seq<char>| #[trigger]
                        tokens::refused_by_chain(given, why) && is_refused(why, step, settled)
                },
            }
        },
    }
}

/// Native currency followed by the given ERC-20 descriptors, as asset rows.
pub fn list_assets(chain_id: i64, tokens_json: &str, settled: bool) -> (r: Step)
    ensures
        r@ == list_started(chain_id, tokens_json@, settled),
        step_wf(r@),
        list_refusal(chain_id, tokens_json@) matches Some(why) ==> replies::refused_reads_back(why),
        chain_id >= 0 ==> tokens_read_back(tokens_json@),
{
    if chain_id < 0 {
        return refuse("chainId must be non-negative", settled);
    }
    match tokens::parse_tokens(chain_id as u64, tokens_json) {
        Err(why) => refuse(why.as_str(), settled),
        Ok(tokens) => begin(Task::List { chain_id, tokens }, settled, budget::READ),
    }
}

/// One Multicall3 read for native and every given token balance.
pub fn get_balances(
    chain_id: i64,
    address: &str,
    tokens_json: &str,
    token_sort: &str,
    settled: bool,
) -> (r: Step)
    ensures
        r@ == balances_started(chain_id, address@, tokens_json@, token_sort@, settled),
        step_wf(r@),
        balances_refusal(chain_id, address@, tokens_json@, token_sort@) matches Some(why)
            ==> replies::refused_reads_back(why),
        chain_id >= 0 && assets::sort_named(token_sort@) is Some && address::is_address(
            text::trimmed(address@),
        ) ==> tokens_read_back(tokens_json@),
{
    if chain_id < 0 {
        return refuse("chainId must be non-negative", settled);
    }
    let sort = match TokenSort::parse(token_sort) {
        Some(sort) => sort,
        None => return refuse("tokenSort must be alpha, balance, or empty", settled),
    };
    let owner = match Address::parse(trim(address)) {
        Ok(a) => a,
        Err(e) => return refuse(joined("invalid address: ", e.as_str()).as_str(), settled),
    };
    match tokens::parse_tokens(chain_id as u64, tokens_json) {
        Err(why) => refuse(why.as_str(), settled),
        Ok(tokens) => begin(
            Task::Balances { chain_id, account: address.to_owned(), owner, tokens, sort },
            settled,
            budget::READ,
        ),
    }
}

/// Resolve native or one given token by exact address or unambiguous symbol.
pub fn resolve_asset(chain_id: i64, key: &str, tokens_json: &str, settled: bool) -> (r: Step)
    ensures
        r@ == resolve_started(chain_id, key@, tokens_json@, settled),
        step_wf(r@),
        list_refusal(chain_id, tokens_json@) matches Some(why) ==> replies::refused_reads_back(why),
        chain_id >= 0 ==> tokens_read_back(tokens_json@),
{
    if chain_id < 0 {
        return refuse("chainId must be non-negative", settled);
    }
    match tokens::parse_tokens(chain_id as u64, tokens_json) {
        Err(why) => refuse(why.as_str(), settled),
        Ok(tokens) => begin(
            Task::Resolve { chain_id, key: key.to_owned(), tokens },
            settled,
            budget::READ,
        ),
    }
}

/// Build exactly one unsigned native or ERC-20 call, resolved among native and the request's
/// `tokens`. `request` is what the request text was read as, or the reader's message.
pub fn build_transfer(
    chain_id: i64,
    request: Result<TransferRequest, String>,
    settled: bool,
) -> (r: Step)
    ensures
        r@ == transfer_started(chain_id, request, settled),
        step_wf(r@),
        transfer_refusal(chain_id, request) matches Some(why) ==> replies::refused_reads_back(why),
        chain_id >= 0 && request is Ok ==> tokens::fault_reads_back(
            json::trees(request->Ok_0.tokens@),
            "tokens"@,
        ),
{
    if chain_id < 0 {
        return refuse("chainId must be non-negative", settled);
    }
    let request = match request {
        Ok(v) => v,
        Err(e) => return refuse(
            joined("invalid transfer request: ", e.as_str()).as_str(),
            settled,
        ),
    };
    match tokens::tokens(chain_id as u64, request.tokens.as_slice()) {
        Err(why) => refuse(why.as_str(), settled),
        Ok(tokens) => {
            proof {
                tokens::law_given_tokens_are_sound(
                    chain_id as u64,
                    json::trees(request.tokens@),
                    "tokens"@,
                );
            }
            let total = budget::allowance(request.deadline_ms);
            begin(Task::Transfer { chain_id, request, tokens }, settled, total)
        },
    }
}

/// Decorate sender history with `{ "<chainId>": [descriptors] }`, native only for a chain the map
/// omits. A chain-registry failure leaves that chain's rows intact, reported in
/// `decorationErrors`; it never erases usable activity from the other chains.
pub fn decorate_history(history_json: &str, tokens_json: &str, settled: bool) -> (r: Step)
    ensures
        is_history_start(r@, history_json@, tokens_json@, settled),
        step_wf(r@),
{
    let value = match Json::parse(history_json) {
        Ok(v) => v,
        Err(e) => return refuse(joined("invalid history: ", e.as_str()).as_str(), settled),
    };
    if !value.is_object() {
        return refuse("history must be a JSON object", settled);
    }
    match tokens::parse_tokens_by_chain(tokens_json) {
        Err(why) => {
            let step = refuse(why.as_str(), settled);
            proof {
                if tokens::text_by_chain(tokens_json@) is Ok {
                    let given = tokens::text_by_chain(tokens_json@)->Ok_0;
                    assert(tokens::refused_by_chain(given, why@));
                    let key = choose|key: Seq<char>|
                        {
                            &&& json::member(given, key) is Some
                            &&& #[trigger] tokens::chain_tokens(key, json::member(given, key)->0)
                                == Err::<(u64, Seq<AssetView>), Seq<char>>(why@)
                            &&& tokens::member_reads_back(key, json::member(given, key)->0)
                        };
                    assert(json::member(given, key) is Some);
                }
            }
            step
        },
        Ok(tokens) => begin(
            Task::History { history: History::new(value, tokens) },
            settled,
            budget::READ,
        ),
    }
}

/// What is done at startup: the provider is asked about its configuration, and initialized where
/// it says that it has none.
pub fn on_context_ready(settled: bool) -> (r: Step)
    ensures
        r@ == begun(TaskView::Startup, settled, budget::STARTUP),
        step_wf(r@),
{
    begin(Task::Startup, settled, budget::STARTUP)
}

/// A refused request asks nothing: an operation that asks anything has a chain, an account and an
/// order that can be read, and nothing but good tokens.
pub proof fn law_refused_requests_ask_nothing(
    chain_id: i64,
    account: Seq<char>,
    key: Seq<char>,
    request: Result<TransferRequest, String>,
    tokens_json: Seq<char>,
    token_sort: Seq<char>,
    settled: bool,
)
    ensures
        list_started(chain_id, tokens_json, settled) is Ask ==> chain_id >= 0
            && tokens::text_tokens(chain_id as u64, tokens_json) is Ok,
        balances_started(chain_id, account, tokens_json, token_sort, settled) is Ask ==> {
            &&& chain_id >= 0
            &&& assets::sort_named(token_sort) is Some
            &&& address::is_address(text::trimmed(account))
            &&& tokens::text_tokens(chain_id as u64, tokens_json) is Ok
        },
        resolve_started(chain_id, key, tokens_json, settled) is Ask ==> chain_id >= 0
            && tokens::text_tokens(chain_id as u64, tokens_json) is Ok,
        transfer_started(chain_id, request, settled) is Ask ==> {
            &&& chain_id >= 0
            &&& request is Ok
            &&& tokens::given_tokens(
                chain_id as u64,
                json::trees(request->Ok_0.tokens@),
                "tokens"@,
            ) is Ok
        },
{
}

/// Whether the provider is known to be configured, after a step.
pub open spec fn settled_after(step: StepView) -> bool {
    match step {
        StepView::Ask { request: _, pending } => pending.settled,
        StepView::Done { reply: _, settled } => settled,
        StepView::Unwritable { settled } => settled,
    }
}

/// The provider is asked to apply its defaults after nothing but a status reply that says
/// `unconfigured`.
pub proof fn law_initialization_needs_a_license(p: PendingView, event: EventView)
    ensures
        (advanced(p, event) matches StepView::Ask { request, pending: _ } && request
            is InitDefaults) <==> (p.state is Probing && (event matches EventView::Reply(raw)
            && depinit::next_after(raw) is Initialize)),
{
}

/// The provider counts as configured only once it says so, or says that it applied its defaults;
/// and it stays so.
pub proof fn law_only_the_provider_settles(p: PendingView, event: EventView)
    ensures
        p.settled ==> settled_after(advanced(p, event)),
        settled_after(advanced(p, event)) && !p.settled ==> (event matches EventView::Reply(raw)
            && (p.state is Probing && depinit::next_after(raw) is Settled || p.state
            is Initializing && depinit::says_ok(raw))),
{
}

/// Every operation retries an unsettled configuration: until the provider is known to be
/// configured, the first thing that a task asks is its status; afterwards no task asks for it.
pub proof fn law_every_task_retries_until_settled(task: TaskView, total: u128)
    ensures
        begun(task, false, total) matches StepView::Ask { request, pending: _ } && request
            is ConfigStatus,
        begun(task, true, total) matches StepView::Ask { request, pending: _ } ==> request
            is ListChains,
{
}

/// The task that the question of configuration was put before.
pub open spec fn task_of(state: StateView) -> TaskView {
    match state {
        StateView::Probing { task } => task,
        StateView::Initializing { task } => task,
        StateView::Reading { task } => task,
        _ => TaskView::Startup,
    }
}

/// The question of configuration never stops a task: whatever the provider says about it, or fails
/// to say, the same task is entered next, unless its defaults are asked for first.
pub proof fn law_startup_is_best_effort(p: PendingView, event: EventView)
    requires
        p.state is Probing || p.state is Initializing,
    ensures
        ({
            let task = task_of(p.state);
            let next = advanced(p, event);
            ||| next == entered(task, settled_after(next), p.total)
            ||| p.state is Probing && next == (StepView::Ask {
                request: RequestView::InitDefaults,
                pending: PendingView { state: StateView::Initializing { task }, ..p },
            })
        }),
{
}

/// The most requests that a task makes once it is entered.
pub open spec fn work(task: TaskView) -> nat {
    match task {
        TaskView::Startup => 0,
        TaskView::List { chain_id: _, tokens: _ } => 1,
        TaskView::Balances { chain_id: _, account: _, owner: _, tokens: _, sort: _ } => 2,
        TaskView::Resolve { chain_id: _, key: _, tokens: _ } => 1,
        TaskView::Transfer { chain_id: _, request: _, tokens: _ } => 2,
        TaskView::History { history } => history.chains.len(),
    }
}

/// The most requests that an operation makes from a state on, with the one it waits for.
pub open spec fn requests_left(state: StateView) -> nat {
    match state {
        StateView::Probing { task } => work(task) + 2,
        StateView::Initializing { task } => work(task) + 1,
        StateView::Reading { task } => work(task),
        StateView::Batch { chain_id: _, account: _, sort: _, offered: _ } => 1,
        StateView::Held { chain_id: _, resolved: _ } => 1,
    }
}

/// Every operation ends: each event brings it closer to its reply, whatever the event is, and the
/// time that the whole of it has stays what it was.
pub proof fn law_every_operation_ends(p: PendingView, event: EventView)
    ensures
        advanced(p, event) matches StepView::Ask { request: _, pending } ==> requests_left(
            pending.state,
        ) < requests_left(p.state) && pending.total == p.total,
{
}

/// What is asked of contracts reads balances and nothing else: the batch of the offered balances
/// of one owner, or the balance of the one token that is to be transferred.
pub proof fn law_calls_only_read_balances(p: PendingView, event: EventView)
    ensures
        advanced(p, event) matches StepView::Ask { request, pending } ==> (request
            is Call ==> {
            ||| exists|chain_id: i64, offered: Seq<AssetView>, owner: Seq<u8>|
                request == #[trigger] calling(
                    chain_id,
                    replies::balances_call_json(offered, owner),
                ) && pending.state is Batch
            ||| exists|chain_id: i64, token: Seq<u8>, owner: Seq<u8>|
                request == #[trigger] calling(
                    chain_id,
                    replies::token_call_json(token, owner),
                ) && pending.state is Held
        }),
{
}

/// A transfer checks at most one contract: after the record of the chain it asks for the balance
/// of its own token at most, and with that it ends.
pub proof fn law_a_transfer_checks_at_most_one_contract(
    chain_id: i64,
    request: TransferRequest,
    tokens: Seq<AssetView>,
    settled: bool,
    total: u128,
    record: EventView,
    balance: EventView,
)
    ensures
        ({
            let reading = PendingView {
                state: StateView::Reading {
                    task: TaskView::Transfer { chain_id, request, tokens },
                },
                settled,
                total,
            };
            advanced(reading, record) matches StepView::Ask { request: _, pending }
                ==> pending.state is Held && advanced(pending, balance) is Done
        }),
{
}

/// A structured refusal of the provider that reads back is relayed unchanged, whatever was asked
/// for.
pub proof fn law_the_providers_refusal_is_the_reply(p: PendingView, raw: Seq<char>)
    requires
        awaits_facts(p.state),
        !in_history(p.state),
        wire::reading(raw) is Ok,
        replies::is_refusal(wire::reading(raw)->Ok_0),
        wire::reads_back(wire::reading(raw)->Ok_0),
    ensures
        advanced(p, EventView::Reply(raw)) == (StepView::Done {
            reply: wire::writing(wire::reading(raw)->Ok_0),
            settled: p.settled,
        }),
{
    let v = wire::reading(raw)->Ok_0;
    replies::law_refusals_are_relayed_unchanged(v);
    assert(!verified::is_ok(v));
}

/// No time, no request: where none is left for a fact that is needed, the reply says so and
/// nothing more is asked.
pub proof fn law_expired_operations_end(p: PendingView)
    requires
        awaits_facts(p.state),
        !in_history(p.state),
    ensures
        advanced(p, EventView::Expired) is Done,
{
}

/// A token is checked before it is sent: a transfer of a token replies with its call only once the
/// provider has answered with a balance that covers it.
pub proof fn law_tokens_are_checked_before_they_are_sent(
    chain_id: i64,
    request: TransferRequest,
    tokens: Seq<AssetView>,
    settled: bool,
    total: u128,
    record: EventView,
    balance: EventView,
)
    requires
        offered_read(record, chain_id, tokens) is Ok,
        transfer::settled(
            chain_id as u64,
            request,
            offered_read(record, chain_id, tokens)->Ok_0,
        ) is Ok,
        !transfer::settled(
            chain_id as u64,
            request,
            offered_read(record, chain_id, tokens)->Ok_0,
        )->Ok_0.asset.native,
    ensures
        ({
            let reading = PendingView {
                state: StateView::Reading {
                    task: TaskView::Transfer { chain_id, request, tokens },
                },
                settled,
                total,
            };
            let resolved = transfer::settled(
                chain_id as u64,
                request,
                offered_read(record, chain_id, tokens)->Ok_0,
            )->Ok_0;
            let held = provider::answer_read(balance);
            &&& advanced(reading, record) matches StepView::Ask { request: asked, pending }
                && asked == calling(
                chain_id,
                replies::token_call_json(transfer::call_target(resolved), resolved.from),
            ) && advanced(pending, balance) == held_read(chain_id, resolved, balance, settled)
            &&& held is Ok && replies::held_in(held->Ok_0.0) is Ok && resolved.amount
                <= replies::held_in(held->Ok_0.0)->Ok_0 ==> held_read(
                chain_id,
                resolved,
                balance,
                settled,
            ) == replying(replies::transfer_json(chain_id, resolved, held->Ok_0.1), settled)
            &&& !(held is Ok && replies::held_in(held->Ok_0.0) is Ok && resolved.amount
                <= replies::held_in(held->Ok_0.0)->Ok_0) ==> exists|why: Seq<char>|
                held_read(chain_id, resolved, balance, settled) == #[trigger] refusing(
                    why,
                    settled,
                )
        }),
{
}

/// A refused operation is answered with its refusal: an event that gives a reason to refuse ends
/// the operation with the reply for that reason, and any other goes on or succeeds.
pub proof fn law_a_reason_to_refuse_is_the_reply(p: PendingView, event: EventView)
    ensures
        match refusal_after(p, event) {
            Some(why) => advanced(p, event) == refusing(why, p.settled),
            None => awaits_facts(p.state) && advanced(p, event) is Done ==> exists|v: JsonView|
                advanced(p, event) == #[trigger] replying(v, p.settled),
        },
{
    if refusal_after(p, event) is None && awaits_facts(p.state) {
        match p.state {
            StateView::Reading { task } => match task {
                TaskView::List { chain_id, tokens } => {
                    let offered = offered_read(event, chain_id, tokens)->Ok_0;
                    assert(advanced(p, event) == replying(
                        replies::list_json(chain_id, offered),
                        p.settled,
                    ));
                },
                TaskView::Resolve { chain_id, key, tokens } => {
                    let offered = offered_read(event, chain_id, tokens)->Ok_0;
                    assert(advanced(p, event) == replying(
                        replies::resolve_json(chain_id, assets::resolution(offered, key)->Ok_0),
                        p.settled,
                    ));
                },
                TaskView::Transfer { chain_id, request, tokens } => {
                    let offered = offered_read(event, chain_id, tokens)->Ok_0;
                    let t = transfer::settled(chain_id as u64, request, offered)->Ok_0;
                    if t.asset.native {
                        assert(advanced(p, event) == replying(
                            replies::transfer_json(chain_id, t, None),
                            p.settled,
                        ));
                    }
                },
                TaskView::History { history } => {
                    let h = history::chain_done(history, event);
                    if advanced(p, event) is Done {
                        assert(advanced(p, event) == replying(
                            history::final_history(h),
                            p.settled,
                        ));
                    }
                },
                _ => {},
            },
            StateView::Batch { chain_id, account, sort, offered } => {
                let (value, route) = provider::answer_read(event)->Ok_0;
                let raw = replies::balances_in(value)->Ok_0;
                assert(advanced(p, event) == replying(
                    replies::balances_json(
                        chain_id,
                        account,
                        sort,
                        assets::placed_rows(offered, raw, sort),
                        route,
                    ),
                    p.settled,
                ));
            },
            StateView::Held { chain_id, resolved } => {
                let route = provider::answer_read(event)->Ok_0.1;
                assert(advanced(p, event) == replying(
                    replies::transfer_json(chain_id, resolved, route),
                    p.settled,
                ));
            },
            _ => {},
        }
    }
}

/// A bad descriptor is answered with its `bad_token` object: a list, a resolution or a balance
/// read whose other arguments are good replies with the refusal that names the first bad one, and
/// nothing is asked.
pub proof fn law_bad_tokens_are_answered(
    chain_id: i64,
    account: Seq<char>,
    key: Seq<char>,
    tokens_json: Seq<char>,
    token_sort: Seq<char>,
    settled: bool,
)
    requires
        chain_id >= 0,
        tokens::text_fault(tokens_json) is Some,
        tokens_read_back(tokens_json),
    ensures
        ({
            let answer = StepView::Done {
                reply: wire::writing(
                    tokens::bad_token(tokens::text_fault(tokens_json)->0),
                ),
                settled,
            };
            &&& list_started(chain_id, tokens_json, settled) == answer
            &&& resolve_started(chain_id, key, tokens_json, settled) == answer
            &&& assets::sort_named(token_sort) is Some && address::is_address(
                text::trimmed(account),
            ) ==> balances_started(chain_id, account, tokens_json, token_sort, settled) == answer
        }),
{
    let said = tokens::text_fault(tokens_json)->0;
    let rows = json::as_items(wire::reading(tokens_json)->Ok_0)->0;
    tokens::law_refused_for_the_first_fault(chain_id as u64, rows, "tokens"@);
    tokens::lemma_bad_token(said);
}

/// A bad descriptor of a transfer request is answered with its `bad_token` object.
pub proof fn law_bad_transfer_tokens_are_answered(
    chain_id: i64,
    request: TransferRequest,
    settled: bool,
)
    requires
        chain_id >= 0,
        tokens::first_fault(json::trees(request.tokens@), "tokens"@) is Some,
        tokens::fault_reads_back(json::trees(request.tokens@), "tokens"@),
    ensures
        transfer_started(chain_id, Ok(request), settled) == (StepView::Done {
            reply: wire::writing(
                tokens::bad_token(
                    tokens::first_fault(json::trees(request.tokens@), "tokens"@)->0,
                ),
            ),
            settled,
        }),
{
    let rows = json::trees(request.tokens@);
    tokens::law_refused_for_the_first_fault(chain_id as u64, rows, "tokens"@);
    tokens::lemma_bad_token(tokens::first_fault(rows, "tokens"@)->0);
}

/// What an operation does after several events, one for each thing that it asks; a step that asks
/// nothing stays what it is.
pub open spec fn after(step: StepView, events: Seq<EventView>) -> StepView
    decreases events.len(),
{
    if events.len() == 0 {
        step
    } else {
        match after(step, events.drop_last()) {
            StepView::Ask { request: _, pending } => advanced(pending, events.last()),
            ended => ended,
        }
    }
}

/// Decorating a history asks for each of its chains in turn, and then replies with the history as
/// it comes out of the whole run.
pub proof fn law_a_history_runs_through_its_chains(
    h: HistoryView,
    events: Seq<EventView>,
    settled: bool,
    total: u128,
)
    requires
        events.len() <= h.chains.len(),
    ensures
        after(entered(TaskView::History { history: h }, settled, total), events) == entered(
            TaskView::History { history: history::run(h, events) },
            settled,
            total,
        ),
        events.len() < h.chains.len() ==> after(
            entered(TaskView::History { history: h }, settled, total),
            events,
        ) is Ask,
    decreases events.len(),
{
    history::law_a_run_takes_its_chains_in_order(h, events);
    if events.len() > 0 {
        let front = events.drop_last();
        law_a_history_runs_through_its_chains(h, front, settled, total);
        history::law_a_run_takes_its_chains_in_order(h, front);
        assert(history::run(h, front).chains.len() > 0);
    }
}

/// Whether a step ends an operation with `v` as its reply.
pub open spec fn ends_with(step: StepView, v: JsonView) -> bool {
    step matches StepView::Done { reply, settled: _ } && reply == wire::writing(v)
}

/// Whether `offered` is what the record of a chain and the given tokens come to: the native asset of
/// the record first, and then the tokens as they were given.
pub open spec fn is_offer(
    offered: Seq<AssetView>,
    record: JsonView,
    tokens: Seq<AssetView>,
) -> bool {
    &&& offered.len() == tokens.len() + 1
    &&& assets::chain_asset(record) == Ok::<AssetView, Seq<char>>(offered[0])
    &&& forall|i: int| 0 <= i < tokens.len() ==> #[trigger] tokens[i] == offered[i + 1]
}

proof fn lemma_offer(
    event: EventView,
    chain_id: i64,
    record: JsonView,
    tokens: Seq<AssetView>,
    offered: Seq<AssetView>,
)
    requires
        provider::record_read(event, chain_id as u64) == Ok::<JsonView, Seq<char>>(record),
        is_offer(offered, record, tokens),
    ensures
        offered_read(event, chain_id, tokens) == Ok::<Seq<AssetView>, Seq<char>>(offered),
{
    let list = offered_read(event, chain_id, tokens)->Ok_0;
    assert forall|i: int| 0 <= i < offered.len() implies list[i] == #[trigger] offered[i] by {
        if i > 0 {
            assert(tokens[i - 1] == offered[i]);
        }
    }
    assert(list =~= offered);
}

/// A list is answered with the native asset of the chain and the given tokens, in that order, as soon
/// as the registry has the chain.
pub proof fn law_a_list_is_answered_with_the_offer(
    chain_id: i64,
    tokens: Seq<AssetView>,
    settled: bool,
    total: u128,
    event: EventView,
    record: JsonView,
    offered: Seq<AssetView>,
    i: int,
)
    requires
        provider::record_read(event, chain_id as u64) == Ok::<JsonView, Seq<char>>(record),
        is_offer(offered, record, tokens),
        0 <= i < offered.len(),
    ensures
        ({
            let step = advanced(
                PendingView {
                    state: StateView::Reading { task: TaskView::List { chain_id, tokens } },
                    settled,
                    total,
                },
                event,
            );
            exists|v: JsonView|
                {
                    &&& #[trigger] ends_with(step, v)
                    &&& json::member(v, "ok"@) == Some(JsonView::Bool(true))
                    &&& json::member(v, "chainId"@) == Some(JsonView::Int(chain_id as int))
                    &&& json::items_at(v, "tokens"@) matches Some(rows) && rows.len()
                        == offered.len() && replies::is_row_of(rows[i], offered[i])
                }
        }),
{
    lemma_offer(event, chain_id, record, tokens, offered);
    replies::law_a_list_holds_every_asset(chain_id, offered, i);
    let step = advanced(
        PendingView {
            state: StateView::Reading { task: TaskView::List { chain_id, tokens } },
            settled,
            total,
        },
        event,
    );
    assert(ends_with(step, replies::list_json(chain_id, offered)));
}

/// A resolution is answered with the offered asset that the key names.
pub proof fn law_a_resolution_is_answered_with_the_asset(
    chain_id: i64,
    key: Seq<char>,
    tokens: Seq<AssetView>,
    settled: bool,
    total: u128,
    event: EventView,
    record: JsonView,
    offered: Seq<AssetView>,
    asset: AssetView,
)
    requires
        provider::record_read(event, chain_id as u64) == Ok::<JsonView, Seq<char>>(record),
        is_offer(offered, record, tokens),
        assets::resolution(offered, key) == Ok::<AssetView, Seq<char>>(asset),
    ensures
        ({
            let step = advanced(
                PendingView {
                    state: StateView::Reading { task: TaskView::Resolve { chain_id, key, tokens } },
                    settled,
                    total,
                },
                event,
            );
            exists|v: JsonView|
                {
                    &&& #[trigger] ends_with(step, v)
                    &&& json::member(v, "ok"@) == Some(JsonView::Bool(true))
                    &&& json::member(v, "chainId"@) == Some(JsonView::Int(chain_id as int))
                    &&& json::member(v, "asset"@) matches Some(row) && replies::is_row_of(
                        row,
                        asset,
                    )
                }
        }),
{
    lemma_offer(event, chain_id, record, tokens, offered);
    replies::law_a_resolution_holds_the_asset(chain_id, asset);
    let step = advanced(
        PendingView {
            state: StateView::Reading { task: TaskView::Resolve { chain_id, key, tokens } },
            settled,
            total,
        },
        event,
    );
    assert(ends_with(step, replies::resolve_json(chain_id, asset)));
}

/// Balances are read by one batch on the chain, for the account that was named and every asset of
/// the offer, and whatever comes back is taken for that account, that order and that offer.
pub proof fn law_balances_are_asked_for_in_one_batch(
    chain_id: i64,
    account: Seq<char>,
    owner: Seq<u8>,
    tokens: Seq<AssetView>,
    sort: TokenSort,
    settled: bool,
    total: u128,
    event: EventView,
    record: JsonView,
    offered: Seq<AssetView>,
)
    requires
        provider::record_read(event, chain_id as u64) == Ok::<JsonView, Seq<char>>(record),
        is_offer(offered, record, tokens),
    ensures
        ({
            let step = advanced(
                PendingView {
                    state: StateView::Reading {
                        task: TaskView::Balances { chain_id, account, owner, tokens, sort },
                    },
                    settled,
                    total,
                },
                event,
            );
            &&& step matches StepView::Ask { request, pending } && {
                &&& request == (RequestView::Call {
                    chain_id,
                    call: wire::writing(replies::balances_call_json(offered, owner)),
                })
                &&& pending == (PendingView {
                    state: StateView::Batch { chain_id, account, sort, offered },
                    settled,
                    total,
                })
            }
        }),
{
    lemma_offer(event, chain_id, record, tokens, offered);
}

/// A batch that decodes is answered with the balance rows of the offer: one for each asset, each with
/// what its own leg holds, in the order that was asked for, and with the route of the answer.
pub proof fn law_a_batch_is_answered_with_the_balance_rows(
    chain_id: i64,
    account: Seq<char>,
    sort: TokenSort,
    offered: Seq<AssetView>,
    settled: bool,
    total: u128,
    raw: Seq<char>,
    reply: JsonView,
    answer: JsonView,
    amounts: Seq<Option<nat>>,
    order: Seq<int>,
    i: int,
)
    requires
        wire::reading(raw) == Ok::<JsonView, Seq<char>>(reply),
        json::member(reply, "ok"@) == Some(JsonView::Bool(true)),
        json::member(reply, "result"@) == Some(answer),
        replies::balances_in(answer) == Ok::<Seq<Option<nat>>, Seq<char>>(amounts),
        assets::is_order(
            order,
            assets::ranks(offered, amounts, sort),
            offered.len() as int,
        ),
        0 <= i < offered.len(),
    ensures
        ({
            let step = advanced(
                PendingView {
                    state: StateView::Batch { chain_id, account, sort, offered },
                    settled,
                    total,
                },
                EventView::Reply(raw),
            );
            exists|v: JsonView|
                {
                    &&& #[trigger] ends_with(step, v)
                    &&& json::member(v, "ok"@) == Some(JsonView::Bool(true))
                    &&& json::member(v, "chainId"@) == Some(JsonView::Int(chain_id as int))
                    &&& json::member(v, "address"@) == Some(JsonView::Text(account))
                    &&& json::text_at(v, "tokenSort"@) == Some(
                        if sort is Alpha {
                            "alpha"@
                        } else {
                            "balance"@
                        },
                    )
                    &&& json::items_at(v, "balances"@) matches Some(rows) && rows.len()
                        == offered.len() && rows[i] == assets::balance_row(
                        offered[order[i]],
                        if order[i] < amounts.len() {
                            amounts[order[i]]
                        } else {
                            None
                        },
                    )
                    &&& json::text_at(v, "route"@) == Some(
                        replies::route_text(json::text_at(reply, "route"@)),
                    )
                }
        }),
{
    let rows = assets::placed_rows(offered, amounts, sort);
    let route = json::text_at(reply, "route"@);
    replies::law_a_balance_reply_holds_its_rows(chain_id, account, sort, rows, route);
    assets::law_balance_rows_are_the_offered_assets(offered, amounts, sort, order);
    provider::law_an_answer_comes_from_the_reply(raw, Seq::empty());
    let step = advanced(
        PendingView {
            state: StateView::Batch { chain_id, account, sort, offered },
            settled,
            total,
        },
        EventView::Reply(raw),
    );
    assert(0 <= order[i] < offered.len());
    assert(ends_with(step, replies::balances_json(chain_id, account, sort, rows, route)));
}

/// A token transfer is answered with its call if and only if the account holds enough: where the
/// answer is the hexadecimal text of the word of an amount, the reply succeeds exactly where the
/// amount asked for is no more than that, and is a refusal otherwise.
pub proof fn law_a_transfer_is_answered_iff_it_is_covered(
    chain_id: i64,
    resolved: ResolvedView,
    settled: bool,
    total: u128,
    raw: Seq<char>,
    reply: JsonView,
    held: nat,
    rest: Seq<u8>,
)
    requires
        wire::reading(raw) == Ok::<JsonView, Seq<char>>(reply),
        json::member(reply, "ok"@) == Some(JsonView::Bool(true)),
        held < uint::limit(),
        json::member(reply, "result"@) == Some(
            JsonView::Text(
                seq!['0', 'x'] + hextext::hex_text(uint::be_bytes(held, 32) + rest),
            ),
        ),
    ensures
        ({
            let step = advanced(
                PendingView {
                    state: StateView::Held { chain_id, resolved },
                    settled,
                    total,
                },
                EventView::Reply(raw),
            );
            &&& resolved.amount <= held ==> ends_with(
                step,
                replies::transfer_json(chain_id, resolved, json::text_at(reply, "route"@)),
            )
            &&& resolved.amount > held ==> step == (StepView::Done {
                reply: replies::refused(
                    transfer::overdrawn(
                        held,
                        resolved.amount,
                        resolved.asset.symbol,
                        resolved.asset.decimals as nat,
                    ),
                ),
                settled,
            })
        }),
{
    replies::law_a_held_balance_is_read_exactly(held, rest);
    provider::law_an_answer_comes_from_the_reply(raw, Seq::empty());
}

/// A native transfer is answered at once with its one call, and nothing is asked of any contract.
pub proof fn law_a_native_transfer_is_answered_at_once(
    chain_id: i64,
    request: TransferRequest,
    tokens: Seq<AssetView>,
    settled: bool,
    total: u128,
    event: EventView,
    record: JsonView,
    offered: Seq<AssetView>,
    t: ResolvedView,
)
    requires
        provider::record_read(event, chain_id as u64) == Ok::<JsonView, Seq<char>>(record),
        is_offer(offered, record, tokens),
        transfer::settled(chain_id as u64, request, offered) == Ok::<ResolvedView, Seq<char>>(t),
        t.asset.native,
    ensures
        ends_with(
            advanced(
                PendingView {
                    state: StateView::Reading {
                        task: TaskView::Transfer { chain_id, request, tokens },
                    },
                    settled,
                    total,
                },
                event,
            ),
            replies::transfer_json(chain_id, t, None),
        ),
{
    lemma_offer(event, chain_id, record, tokens, offered);
}

/// A token transfer asks for the balance of that token, of the account that sends, on its chain.
pub proof fn law_a_token_transfer_asks_for_its_balance(
    chain_id: i64,
    request: TransferRequest,
    tokens: Seq<AssetView>,
    settled: bool,
    total: u128,
    event: EventView,
    record: JsonView,
    offered: Seq<AssetView>,
    t: ResolvedView,
)
    requires
        provider::record_read(event, chain_id as u64) == Ok::<JsonView, Seq<char>>(record),
        is_offer(offered, record, tokens),
        transfer::settled(chain_id as u64, request, offered) == Ok::<ResolvedView, Seq<char>>(t),
        !t.asset.native,
    ensures
        advanced(
            PendingView {
                state: StateView::Reading {
                    task: TaskView::Transfer { chain_id, request, tokens },
                },
                settled,
                total,
            },
            event,
        ) == (StepView::Ask {
            request: RequestView::Call {
                chain_id,
                call: wire::writing(
                    replies::token_call_json(
                        address::address_of(t.asset.address->0),
                        t.from,
                    ),
                ),
            },
            pending: PendingView {
                state: StateView::Held { chain_id, resolved: t },
                settled,
                total,
            },
        }),
{
    lemma_offer(event, chain_id, record, tokens, offered);
}

/// Where the provider is known to be configured, an operation with good arguments asks for the
/// registry at once, with the time of a read, or of a transfer, and with what it was given.
pub proof fn law_good_requests_are_started_as_given(
    chain_id: i64,
    account: Seq<char>,
    key: Seq<char>,
    request: TransferRequest,
    tokens_json: Seq<char>,
    token_sort: Seq<char>,
    tokens: Seq<AssetView>,
    listed: Seq<AssetView>,
    sort: TokenSort,
)
    requires
        chain_id >= 0,
        tokens::text_tokens(chain_id as u64, tokens_json) == Ok::<Seq<AssetView>, Seq<char>>(tokens),
        tokens::given_tokens(chain_id as u64, json::trees(request.tokens@), "tokens"@) == Ok::<
            Seq<AssetView>,
            Seq<char>,
        >(listed),
        assets::sort_named(token_sort) == Some(sort),
        address::is_address(text::trimmed(account)),
    ensures
        list_started(chain_id, tokens_json, true) == (StepView::Ask {
            request: RequestView::ListChains,
            pending: PendingView {
                state: StateView::Reading { task: TaskView::List { chain_id, tokens } },
                settled: true,
                total: 14_000_000_000,
            },
        }),
        resolve_started(chain_id, key, tokens_json, true) == (StepView::Ask {
            request: RequestView::ListChains,
            pending: PendingView {
                state: StateView::Reading { task: TaskView::Resolve { chain_id, key, tokens } },
                settled: true,
                total: 14_000_000_000,
            },
        }),
        balances_started(chain_id, account, tokens_json, token_sort, true) == (StepView::Ask {
            request: RequestView::ListChains,
            pending: PendingView {
                state: StateView::Reading {
                    task: TaskView::Balances {
                        chain_id,
                        account,
                        owner: address::address_of(text::trimmed(account)),
                        tokens,
                        sort,
                    },
                },
                settled: true,
                total: 14_000_000_000,
            },
        }),
        transfer_started(chain_id, Ok(request), true) == (StepView::Ask {
            request: RequestView::ListChains,
            pending: PendingView {
                state: StateView::Reading {
                    task: TaskView::Transfer { chain_id, request, tokens: listed },
                },
                settled: true,
                total: budget::allowance_of(request.deadline_ms),
            },
        }),
{
}

/// Asking about the configuration first changes nothing of an operation: once the provider has said
/// anything at all, it goes on as one that was started with the configuration known.
pub proof fn law_an_unsettled_start_goes_on_as_given(
    task: TaskView,
    total: u128,
    raw: Seq<char>,
)
    requires
        depinit::next_after(raw) is Settled,
    ensures
        begun(task, false, total) matches StepView::Ask { request: _, pending } && advanced(
            pending,
            EventView::Reply(raw),
        ) == begun(task, true, total),
{
}

/// A negative chain is refused by every operation on a chain.
pub proof fn law_a_negative_chain_is_refused(
    chain_id: i64,
    account: Seq<char>,
    key: Seq<char>,
    request: Result<TransferRequest, String>,
    tokens_json: Seq<char>,
    token_sort: Seq<char>,
    settled: bool,
)
    requires
        chain_id < 0,
    ensures
        ({
            let refusal = StepView::Done {
                reply: replies::refused("chainId must be non-negative"@),
                settled,
            };
            &&& list_started(chain_id, tokens_json, settled) == refusal
            &&& balances_started(chain_id, account, tokens_json, token_sort, settled) == refusal
            &&& resolve_started(chain_id, key, tokens_json, settled) == refusal
            &&& transfer_started(chain_id, request, settled) == refusal
        }),
{
}

/// A history is decorated for all the chains that its rows name, with the tokens that were given by
/// chain, and replies with what comes of it.
pub proof fn law_a_history_is_started_and_ended_as_given(
    history_json: Seq<char>,
    tokens_json: Seq<char>,
    step: StepView,
    v: JsonView,
    given: JsonView,
    h: HistoryView,
)
    requires
        is_history_start(step, history_json, tokens_json, true),
        wire::reading(history_json) == Ok::<JsonView, Seq<char>>(v),
        v is Object,
        tokens_json.len() > 0,
        wire::reading(tokens_json) == Ok::<JsonView, Seq<char>>(given),
        given is Object,
        tokens::all_fine(given),
        h.chains.len() == 0,
    ensures
        history::history_chains(v).len() > 0 ==> step == (StepView::Ask {
            request: RequestView::ListChains,
            pending: PendingView {
                state: StateView::Reading {
                    task: TaskView::History {
                        history: HistoryView {
                            value: v,
                            tokens: tokens::by_chain(given),
                            chains: history::history_chains(v),
                            facts: Seq::empty(),
                            failures: Seq::empty(),
                        },
                    },
                },
                settled: true,
                total: 14_000_000_000,
            },
        }),
        history::history_ready(h) ==> ends_with(
            entered(TaskView::History { history: h }, true, 14_000_000_000),
            history::final_history(h),
        ),
{
    reveal_strlit("");
    assert(""@.len() == 0);
}

/// What the provider says of its configuration is taken: a status that says `configured`, and an
/// initialization that says that it succeeded, settle it for good.
pub proof fn law_a_settling_reply_settles(task: TaskView, settled: bool, total: u128, raw: Seq<char>)
    ensures
        depinit::next_after(raw) is Settled ==> settled_after(
            advanced(
                PendingView { state: StateView::Probing { task }, settled, total },
                EventView::Reply(raw),
            ),
        ),
        depinit::says_ok(raw) ==> settled_after(
            advanced(
                PendingView { state: StateView::Initializing { task }, settled, total },
                EventView::Reply(raw),
            ),
        ),
{
}

/// Whether a step is the refusal for `why`.
pub open spec fn ends_refused(step: StepView, why: Seq<char>) -> bool {
    step matches StepView::Done { reply, settled: _ } && reply == replies::refused(why)
}

/// Where the record of the chain cannot be had, or gives no native asset, a list, a balance read, a
/// resolution and a transfer are each refused for that very reason.
pub proof fn law_a_missing_record_is_the_reason(
    chain_id: i64,
    account: Seq<char>,
    owner: Seq<u8>,
    key: Seq<char>,
    sort: TokenSort,
    request: TransferRequest,
    tokens: Seq<AssetView>,
    settled: bool,
    total: u128,
    event: EventView,
    why: Seq<char>,
)
    requires
        provider::record_read(event, chain_id as u64) == Err::<JsonView, Seq<char>>(why) || (
        provider::record_read(event, chain_id as u64) is Ok && assets::chain_asset(
            provider::record_read(event, chain_id as u64)->Ok_0,
        ) == Err::<AssetView, Seq<char>>(why)),
    ensures
        ends_refused(
            advanced(
                PendingView {
                    state: StateView::Reading { task: TaskView::List { chain_id, tokens } },
                    settled,
                    total,
                },
                event,
            ),
            why,
        ),
        ends_refused(
            advanced(
                PendingView {
                    state: StateView::Reading {
                        task: TaskView::Balances { chain_id, account, owner, tokens, sort },
                    },
                    settled,
                    total,
                },
                event,
            ),
            why,
        ),
        ends_refused(
            advanced(
                PendingView {
                    state: StateView::Reading { task: TaskView::Resolve { chain_id, key, tokens } },
                    settled,
                    total,
                },
                event,
            ),
            why,
        ),
        ends_refused(
            advanced(
                PendingView {
                    state: StateView::Reading {
                        task: TaskView::Transfer { chain_id, request, tokens },
                    },
                    settled,
                    total,
                },
                event,
            ),
            why,
        ),
{
}

/// Where a key names nothing, or a transfer cannot be settled, the reply is the refusal for that
/// very reason.
pub proof fn law_an_unresolved_request_is_refused_for_its_reason(
    chain_id: i64,
    key: Seq<char>,
    request: TransferRequest,
    tokens: Seq<AssetView>,
    settled: bool,
    total: u128,
    event: EventView,
    record: JsonView,
    offered: Seq<AssetView>,
)
    requires
        provider::record_read(event, chain_id as u64) == Ok::<JsonView, Seq<char>>(record),
        is_offer(offered, record, tokens),
    ensures
        assets::resolution(offered, key) matches Err(why) ==> ends_refused(
            advanced(
                PendingView {
                    state: StateView::Reading { task: TaskView::Resolve { chain_id, key, tokens } },
                    settled,
                    total,
                },
                event,
            ),
            why,
        ),
        transfer::settled(chain_id as u64, request, offered) matches Err(why) ==> ends_refused(
            advanced(
                PendingView {
                    state: StateView::Reading {
                        task: TaskView::Transfer { chain_id, request, tokens },
                    },
                    settled,
                    total,
                },
                event,
            ),
            why,
        ),
{
    lemma_offer(event, chain_id, record, tokens, offered);
}

/// Where a balance cannot be had, or cannot be read, the reply is the refusal for that very reason.
pub proof fn law_an_unread_balance_is_the_reason(
    chain_id: i64,
    account: Seq<char>,
    sort: TokenSort,
    offered: Seq<AssetView>,
    resolved: ResolvedView,
    settled: bool,
    total: u128,
    event: EventView,
    why: Seq<char>,
)
    ensures
        ({
            let batch = advanced(
                PendingView {
                    state: StateView::Batch { chain_id, account, sort, offered },
                    settled,
                    total,
                },
                event,
            );
            let held = advanced(
                PendingView { state: StateView::Held { chain_id, resolved }, settled, total },
                event,
            );
            &&& provider::answer_read(event) == Err::<(JsonView, Option<Seq<char>>), Seq<char>>(why)
                ==> ends_refused(batch, why) && ends_refused(held, why)
            &&& provider::answer_read(event) matches Ok(answer) ==> {
                &&& replies::balances_in(answer.0) == Err::<Seq<Option<nat>>, Seq<char>>(why)
                    ==> ends_refused(batch, why)
                &&& replies::held_in(answer.0) == Err::<nat, Seq<char>>(why) ==> ends_refused(
                    held,
                    why,
                )
            }
        }),
{
}

/// Before anything is asked, a bad order, account, request or list of tokens is refused for that very
/// reason, in this order.
pub proof fn law_bad_arguments_are_refused_for_their_reason(
    chain_id: i64,
    account: Seq<char>,
    tokens_json: Seq<char>,
    token_sort: Seq<char>,
    request: TransferRequest,
    message: String,
    settled: bool,
)
    requires
        chain_id >= 0,
    ensures
        ({
            let balances = balances_started(chain_id, account, tokens_json, token_sort, settled);
            let named = text::trimmed(account);
            &&& assets::sort_named(token_sort) is None ==> ends_refused(
                balances,
                "tokenSort must be alpha, balance, or empty"@,
            )
            &&& assets::sort_named(token_sort) is Some && !address::is_address(named)
                ==> ends_refused(
                balances,
                "invalid address: "@ + address::address_refusal(named),
            )
            &&& assets::sort_named(token_sort) is Some && address::is_address(named) ==> (
            tokens::text_tokens(chain_id as u64, tokens_json) matches Err(why) ==> ends_refused(
                balances,
                why,
            ))
            &&& tokens::text_tokens(chain_id as u64, tokens_json) matches Err(why) ==> ends_refused(
                list_started(chain_id, tokens_json, settled),
                why,
            )
            &&& ends_refused(
                transfer_started(chain_id, Err(message), settled),
                "invalid transfer request: "@ + message@,
            )
            &&& tokens::given_tokens(chain_id as u64, json::trees(request.tokens@), "tokens"@)
                matches Err(why) ==> ends_refused(
                transfer_started(chain_id, Ok(request), settled),
                why,
            )
        }),
{
}

/// A history of objects is always ready to come out.
pub proof fn law_a_history_of_objects_comes_out(
    h: HistoryView,
    list: Seq<JsonView>,
)
    requires
        json::member(h.value, "transactions"@) == Some(JsonView::Array(list)),
        h.chains.len() == 0,
        forall|i: int| 0 <= i < list.len() ==> (#[trigger] list[i]) is Object,
        forall|i: int|
            0 <= i < list.len() ==> (json::items_at(#[trigger] list[i], "transfers"@) matches Some(
                entries,
            ) ==> forall|k: int|
                0 <= k < entries.len() ==> (#[trigger] entries[k]) is Object || entries[k] is Null),
        forall|i: int|
            0 <= i < list.len() ==> (json::items_at(
                #[trigger] list[i],
                "nativeTransfers"@,
            ) matches Some(entries) ==> forall|k: int|
                0 <= k < entries.len() ==> (#[trigger] entries[k]) is Object || entries[k] is Null),
    ensures
        ends_with(
            entered(TaskView::History { history: h }, true, 14_000_000_000),
            history::final_history(h),
        ),
{
    assert forall|i: int| 0 <= i < list.len() implies history::row_ready(h, #[trigger] list[i]) by {
        let chain = rows::chain_of(list[i]);
        rows::law_rows_of_objects_can_be_decorated(
            list[i],
            history::table_of(h.facts, chain),
            history::record_of(h.facts, chain),
        );
    }
}

/// Startup asks about the configuration and nothing else, and replies with nothing.
pub proof fn law_startup_only_asks_about_the_configuration(settled: bool, total: u128)
    ensures
        begun(TaskView::Startup, true, total) == (StepView::Done {
            reply: Seq::empty(),
            settled: true,
        }),
        entered(TaskView::Startup, settled, total) == (StepView::Done {
            reply: Seq::empty(),
            settled,
        }),
{
    reveal_strlit("");
    assert(""@ =~= Seq::<char>::empty());
}

} // verus!
