//! A history under decoration: which chains have to be read for it, what is known of each, and
//! what becomes of every row.
use std::collections::BTreeMap;
use vstd::prelude::*;

use crate::assets;
use crate::assets::{Asset, AssetView};
use crate::json;
use crate::json::{Json, JsonView};
use crate::provider;
use crate::provider::{read_record, Event, EventView};
use crate::replies;
use crate::rows;
use crate::tokens;
use crate::wire;

verus! {

/// What is known of a chain: its assets, the native one first, and its record.
#[derive(Debug)]
pub struct Facts {
    pub chain: u64,
    pub offered: Vec<Asset>,
    pub record: Json,
}

/// What the facts of a chain are.
pub struct FactsView {
    pub chain: u64,
    pub offered: Seq<AssetView>,
    pub record: JsonView,
}

impl View for Facts {
    type V = FactsView;

    open spec fn view(&self) -> FactsView {
        FactsView {
            chain: self.chain,
            offered: assets::views(self.offered@),
            record: self.record@,
        }
    }
}

/// A chain of which nothing could be read, and why.
#[derive(Debug)]
pub struct Failure {
    pub chain: u64,
    pub error: String,
}

/// What a failure is.
pub struct FailureView {
    pub chain: u64,
    pub error: Seq<char>,
}

impl View for Failure {
    type V = FailureView;

    open spec fn view(&self) -> FailureView {
        FailureView { chain: self.chain, error: self.error@ }
    }
}

/// A history under decoration: the history, the tokens that the caller gave by chain, the chains
/// that are still to be read, and what is known of the others.
#[derive(Debug)]
pub struct History {
    pub value: Json,
    pub tokens: BTreeMap<u64, Vec<Asset>>,
    pub chains: Vec<u64>,
    pub facts: Vec<Facts>,
    pub failures: Vec<Failure>,
}

/// What a history under decoration is.
pub struct HistoryView {
    pub value: JsonView,
    pub tokens: Map<u64, Seq<AssetView>>,
    pub chains: Seq<u64>,
    pub facts: Seq<FactsView>,
    pub failures: Seq<FailureView>,
}

/// The facts of a list of chains, as they are.
pub open spec fn facts_views(list: Seq<Facts>) -> Seq<FactsView> {
    list.map_values(|f: Facts| f@)
}

/// The failures of a list, as they are.
pub open spec fn failure_views(list: Seq<Failure>) -> Seq<FailureView> {
    list.map_values(|f: Failure| f@)
}

impl View for History {
    type V = HistoryView;

    open spec fn view(&self) -> HistoryView {
        HistoryView {
            value: self.value@,
            tokens: tokens::table_views(self.tokens@),
            chains: self.chains@,
            facts: facts_views(self.facts@),
            failures: failure_views(self.failures@),
        }
    }
}

/// The chains that rows name, each once, in the order of their first rows.
pub open spec fn row_chains(rows: Seq<JsonView>) -> Seq<u64>
    decreases rows.len(),
{
    if rows.len() == 0 {
        Seq::empty()
    } else {
        let rest = row_chains(rows.drop_last());
        match json::word_at(rows.last(), "chainId"@) {
            Some(chain) => if rest.contains(chain) {
                rest
            } else {
                rest.push(chain)
            },
            None => rest,
        }
    }
}

/// The chains that the rows of a history name.
pub open spec fn history_chains(v: JsonView) -> Seq<u64> {
    match rows::history_rows(v) {
        Some(list) => row_chains(list),
        None => Seq::empty(),
    }
}

/// The tokens that the caller gave for a chain: none for a chain that was left out.
pub open spec fn tokens_for(given: Map<u64, Seq<AssetView>>, chain: u64) -> Seq<AssetView> {
    if given.contains_key(chain) {
        given[chain]
    } else {
        Seq::empty()
    }
}

/// The facts of a chain.
pub open spec fn facts_of(facts: Seq<FactsView>, chain: u64) -> Option<FactsView>
    decreases facts.len(),
{
    if facts.len() == 0 {
        None
    } else if facts[0].chain == chain {
        Some(facts[0])
    } else {
        facts_of(facts.drop_first(), chain)
    }
}

/// Whether a chain could not be read.
pub open spec fn has_failed(failures: Seq<FailureView>, chain: u64) -> bool {
    exists|i: int| 0 <= i < failures.len() && (#[trigger] failures[i]).chain == chain
}

/// The assets that a row of a chain is decorated with: those of the chain, where it was read.
pub open spec fn table_of(facts: Seq<FactsView>, chain: u64) -> Seq<AssetView> {
    match facts_of(facts, chain) {
        Some(f) => f.offered,
        None => Seq::empty(),
    }
}

/// The record that a row of a chain gets its network from.
pub open spec fn record_of(facts: Seq<FactsView>, chain: u64) -> Option<JsonView> {
    match facts_of(facts, chain) {
        Some(f) => Some(f.record),
        None => None,
    }
}

/// What becomes of a row: decorated with the assets and the record of its own chain, and left as
/// it is where that chain could not be read.
pub open spec fn final_row(h: HistoryView, row: JsonView) -> JsonView {
    let chain = rows::chain_of(row);
    if has_failed(h.failures, chain) {
        row
    } else {
        rows::networked_row(
            rows::decorated_row(row, table_of(h.facts, chain)),
            record_of(h.facts, chain),
        )
    }
}

/// Whether all that has to be written into a row can be.
pub open spec fn row_ready(h: HistoryView, row: JsonView) -> bool {
    let chain = rows::chain_of(row);
    has_failed(h.failures, chain) || {
        let table = table_of(h.facts, chain);
        rows::can_decorate(row, table) && rows::can_network(
            rows::decorated_row(row, table),
            record_of(h.facts, chain),
        )
    }
}

/// The rows of a history, as they come out.
pub open spec fn final_rows(h: HistoryView, list: Seq<JsonView>) -> Seq<JsonView> {
    list.map_values(|row: JsonView| final_row(h, row))
}

/// What is reported of a chain that could not be read.
pub open spec fn failure_json(f: FailureView) -> JsonView {
    let v = JsonView::Object(Map::empty());
    let v = json::put(v, "chainId"@, JsonView::Int(f.chain as int));
    json::put(v, "error"@, JsonView::Text(f.error))
}

/// What is reported of the chains that could not be read.
pub open spec fn failures_json(list: Seq<FailureView>) -> Seq<JsonView> {
    list.map_values(|f: FailureView| failure_json(f))
}

/// A history, as it comes out.
pub open spec fn final_history(h: HistoryView) -> JsonView {
    let v = match rows::history_rows(h.value) {
        Some(list) => rows::with_rows(h.value, final_rows(h, list)),
        None => h.value,
    };
    if h.failures.len() > 0 {
        json::put(v, "decorationErrors"@, JsonView::Array(failures_json(h.failures)))
    } else {
        v
    }
}

/// Whether all that has to be written into a history can be.
pub open spec fn history_ready(h: HistoryView) -> bool {
    match rows::history_rows(h.value) {
        Some(list) => forall|i: int| 0 <= i < list.len() ==> row_ready(h, #[trigger] list[i]),
        None => true,
    }
}

/// What is known of a chain after an event, or why nothing is.
pub open spec fn chain_outcome(
    given: Map<u64, Seq<AssetView>>,
    chain: u64,
    event: EventView,
) -> Result<FactsView, Seq<char>> {
    match provider::record_read(event, chain) {
        Err(why) => Err(why),
        Ok(record) => match replies::offer(record, tokens_for(given, chain)) {
            Err(why) => Err(why),
            Ok(offered) => Ok(FactsView { chain, offered, record }),
        },
    }
}

/// A history after one more chain was asked for.
pub open spec fn chain_done(h: HistoryView, event: EventView) -> HistoryView {
    let chain = h.chains[0];
    match chain_outcome(h.tokens, chain, event) {
        Ok(f) => HistoryView { chains: h.chains.drop_first(), facts: h.facts.push(f), ..h },
        Err(error) => HistoryView {
            chains: h.chains.drop_first(),
            failures: h.failures.push(FailureView { chain, error }),
            ..h
        },
    }
}

/// A history after one chain for each of `events` was asked for.
pub open spec fn run(h: HistoryView, events: Seq<EventView>) -> HistoryView
    decreases events.len(),
{
    if events.len() == 0 {
        h
    } else {
        chain_done(run(h, events.drop_last()), events.last())
    }
}

/// What fails of the chains that `events` are about, in their order: one failure for each chain of
/// which nothing is known.
pub open spec fn failures_among(
    given: Map<u64, Seq<AssetView>>,
    chains: Seq<u64>,
    events: Seq<EventView>,
) -> Seq<FailureView>
    decreases events.len(),
{
    if events.len() == 0 {
        Seq::empty()
    } else {
        let rest = failures_among(given, chains, events.drop_last());
        let chain = chains[events.len() - 1];
        match chain_outcome(given, chain, events.last()) {
            Ok(_) => rest,
            Err(error) => rest.push(FailureView { chain, error }),
        }
    }
}

/// What is known of the chains that `events` are about, in their order.
pub open spec fn facts_among(
    given: Map<u64, Seq<AssetView>>,
    chains: Seq<u64>,
    events: Seq<EventView>,
) -> Seq<FactsView>
    decreases events.len(),
{
    if events.len() == 0 {
        Seq::empty()
    } else {
        let rest = facts_among(given, chains, events.drop_last());
        match chain_outcome(given, chains[events.len() - 1], events.last()) {
            Ok(f) => rest.push(f),
            Err(_) => rest,
        }
    }
}

/// The first row that names a chain; the number of rows where none does.
pub open spec fn first_row(rows: Seq<JsonView>, chain: u64) -> int
    decreases rows.len(),
{
    if rows.len() == 0 {
        0
    } else if json::word_at(rows[0], "chainId"@) == Some(chain) {
        0
    } else {
        1 + first_row(rows.drop_first(), chain)
    }
}

/// The chains that rows name.
fn chains_in(list: &Vec<Json>) -> (r: Vec<u64>)
    ensures
        r@ == row_chains(json::trees(list@)),
{
    let ghost all = json::trees(list@);
    let mut out: Vec<u64> = Vec::new();
    let mut i: usize = 0;
    while i < list.len()
        invariant
            i <= list.len(),
            all == json::trees(list@),
            out@ == row_chains(all.take(i as int)),
        decreases list.len() - i,
    {
        proof {
            assert(all.take(i + 1).drop_last() =~= all.take(i as int));
            assert(all.take(i + 1).last() == list@[i as int]@);
        }
        match list[i].get_u64("chainId") {
            Some(chain) => if !is_among(&out, chain) {
                out.push(chain);
            },
            None => {},
        }
        i = i + 1;
    }
    assert(all.take(all.len() as int) =~= all);
    out
}

/// Whether a chain is in a list.
fn is_among(list: &Vec<u64>, chain: u64) -> (r: bool)
    ensures
        r == list@.contains(chain),
{
    let mut i: usize = 0;
    while i < list.len()
        invariant
            i <= list.len(),
            forall|k: int| 0 <= k < i ==> list[k] != chain,
        decreases list.len() - i,
    {
        if list[i] == chain {
            assert(list@[i as int] == chain);
            return true;
        }
        i = i + 1;
    }
    false
}

/// The facts of a chain.
fn find_facts(facts: &Vec<Facts>, chain: u64) -> (r: Option<&Facts>)
    ensures
        match facts_of(facts_views(facts@), chain) {
            Some(f) => r matches Some(g) && g@ == f,
            None => r is None,
        },
{
    let ghost all = facts_views(facts@);
    let mut i: usize = 0;
    assert(all.skip(0) =~= all);
    while i < facts.len()
        invariant
            i <= facts.len(),
            all == facts_views(facts@),
            facts_of(all.skip(i as int), chain) == facts_of(all, chain),
        decreases facts.len() - i,
    {
        assert(all.skip(i as int)[0] == facts@[i as int]@);
        if facts[i].chain == chain {
            return Some(&facts[i]);
        }
        assert(all.skip(i as int).drop_first() =~= all.skip(i + 1));
        i = i + 1;
    }
    None
}

/// Whether a chain could not be read.
fn did_fail(failures: &Vec<Failure>, chain: u64) -> (r: bool)
    ensures
        r == has_failed(failure_views(failures@), chain),
{
    let ghost all = failure_views(failures@);
    let mut i: usize = 0;
    while i < failures.len()
        invariant
            i <= failures.len(),
            all == failure_views(failures@),
            forall|k: int| 0 <= k < i ==> (#[trigger] all[k]).chain != chain,
        decreases failures.len() - i,
    {
        assert(all[i as int] == failures@[i as int]@);
        if failures[i].chain == chain {
            return true;
        }
        i = i + 1;
    }
    false
}

impl History {
    /// A history of which no chain has been read yet.
    pub open spec fn fresh(v: JsonView, given: Map<u64, Seq<AssetView>>) -> HistoryView {
        HistoryView {
            value: v,
            tokens: given,
            chains: history_chains(v),
            facts: Seq::empty(),
            failures: Seq::empty(),
        }
    }

    /// A history of which no chain has been read yet.
    pub fn new(value: Json, tokens: BTreeMap<u64, Vec<Asset>>) -> (r: History)
        ensures
            r@ == History::fresh(value@, tokens::table_views(tokens@)),
    {
        let chains = match value.get_array("transactions") {
            Some(list) => chains_in(list),
            None => Vec::new(),
        };
        let facts: Vec<Facts> = Vec::new();
        let failures: Vec<Failure> = Vec::new();
        assert(facts_views(facts@) =~= Seq::empty());
        assert(failure_views(failures@) =~= Seq::empty());
        History { value, tokens, chains, facts, failures }
    }

    /// Takes what came back for the next chain.
    pub fn note(&mut self, event: &Event)
        requires
            old(self)@.chains.len() > 0,
        ensures
            final(self)@ == chain_done(old(self)@, event@),
            provider::refusal_reads_back(event@),
    {
        let ghost before = self@;
        let chain = self.chains.remove(0);
        assert(self.chains@ =~= before.chains.drop_first());
        let given = match self.tokens.get(&chain) {
            Some(list) => copied(list),
            None => Vec::new(),
        };
        assert(assets::views(given@) =~= tokens_for(before.tokens, chain));
        let outcome = match read_record(event, chain) {
            Err(why) => Err(why),
            Ok(record) => match replies::offered(&record, given) {
                Err(why) => Err(why),
                Ok(offered) => Ok(Facts { chain, offered, record }),
            },
        };
        match outcome {
            Ok(f) => {
                assert(facts_views(self.facts@.push(f)) =~= facts_views(self.facts@).push(f@));
                self.facts.push(f);
            },
            Err(error) => {
                let f = Failure { chain, error };
                assert(failure_views(self.failures@.push(f)) =~= failure_views(
                    self.failures@,
                ).push(f@));
                self.failures.push(f);
            },
        }
    }

    /// What becomes of a row; nothing where it cannot be written to as it has to be.
    pub fn finish_row(&self, row: &Json) -> (r: Option<Json>)
        ensures
            r is Some <==> row_ready(self@, row@),
            r matches Some(v) ==> v@ == final_row(self@, row@),
    {
        let chain: u64 = match row.get_u64("chainId") {
            Some(id) => id,
            None => 0,
        };
        let mut out = row.clone();
        if did_fail(&self.failures, chain) {
            return Some(out);
        }
        let none: Vec<Asset> = Vec::new();
        assert(assets::views(none@) =~= Seq::empty());
        match find_facts(&self.facts, chain) {
            Some(f) => {
                if !rows::is_decoratable(row, f.offered.as_slice()) {
                    return None;
                }
                rows::decorate_row(&mut out, f.offered.as_slice());
                let record = Some(f.record.clone());
                if !rows::is_networkable(&out, &record) {
                    return None;
                }
                rows::network_row(&mut out, &record);
            },
            None => {
                if !rows::is_decoratable(row, none.as_slice()) {
                    return None;
                }
                rows::decorate_row(&mut out, none.as_slice());
            },
        }
        Some(out)
    }

    /// The history as it comes out; nothing where a row cannot be written to as it has to be.
    pub fn finish(&self) -> (r: Option<Json>)
        requires
            self@.value is Object,
        ensures
            r is Some <==> history_ready(self@),
            r matches Some(v) ==> v@ == final_history(self@),
    {
        let mut value = self.value.clone();
        match self.value.get_array("transactions") {
            Some(list) => {
                let ghost all = json::trees(list@);
                let mut out: Vec<Json> = Vec::new();
                let mut i: usize = 0;
                while i < list.len()
                    invariant
                        i <= list.len(),
                        all == json::trees(list@),
                        rows::history_rows(self@.value) == Some(all),
                        forall|k: int| 0 <= k < i ==> row_ready(self@, #[trigger] all[k]),
                        json::trees(out@) == final_rows(self@, all).take(i as int),
                    decreases list.len() - i,
                {
                    assert(all[i as int] == list@[i as int]@);
                    match self.finish_row(&list[i]) {
                        Some(row) => {
                            proof {
                                json::lemma_trees(out@, row);
                                assert(final_rows(self@, all).take(i + 1) =~= final_rows(
                                    self@,
                                    all,
                                ).take(i as int).push(row@));
                            }
                            out.push(row);
                        },
                        None => {
                            assert(!row_ready(self@, all[i as int]));
                            return None;
                        },
                    }
                    i = i + 1;
                }
                assert(final_rows(self@, all).take(all.len() as int) =~= final_rows(self@, all));
                value.set("transactions", Json::Array(out));
            },
            None => {},
        }
        if self.failures.len() > 0 {
            value.set("decorationErrors", Json::Array(report(&self.failures)));
        }
        Some(value)
    }
}

/// Another list of the same assets.
fn copied(list: &Vec<Asset>) -> (r: Vec<Asset>)
    ensures
        assets::views(r@) == assets::views(list@),
{
    let mut out: Vec<Asset> = Vec::new();
    let mut i: usize = 0;
    while i < list.len()
        invariant
            i <= list.len(),
            out.len() == i,
            forall|k: int| 0 <= k < i ==> (#[trigger] out[k])@ == list[k]@,
        decreases list.len() - i,
    {
        out.push(list[i].clone());
        i = i + 1;
    }
    assert(assets::views(out@) =~= assets::views(list@));
    out
}

/// What is reported of the chains that could not be read.
fn report(failures: &Vec<Failure>) -> (r: Vec<Json>)
    ensures
        json::trees(r@) == failures_json(failure_views(failures@)),
{
    let ghost all = failures_json(failure_views(failures@));
    let mut out: Vec<Json> = Vec::new();
    let mut i: usize = 0;
    while i < failures.len()
        invariant
            i <= failures.len(),
            all == failures_json(failure_views(failures@)),
            json::trees(out@) == all.take(i as int),
        decreases failures.len() - i,
    {
        let mut v = Json::object();
        v.set("chainId", Json::Unsigned(failures[i].chain));
        v.set("error", Json::text(failures[i].error.as_str()));
        proof {
            json::lemma_trees(out@, v);
            assert(all.take(i + 1) =~= all.take(i as int).push(v@));
        }
        out.push(v);
        i = i + 1;
    }
    assert(all.take(all.len() as int) =~= all);
    out
}

/// Whether every chain that the rows name is read, could not be read, or is still to be read.
pub open spec fn accounted(h: HistoryView) -> bool {
    forall|chain: u64| #[trigger]
        history_chains(h.value).contains(chain) ==> h.chains.contains(chain) || facts_of(
            h.facts,
            chain,
        ) is Some || has_failed(h.failures, chain)
}

/// Whether the assets that are known of each chain are its native one and the tokens that the
/// caller gave for that chain.
pub open spec fn own_tokens(h: HistoryView) -> bool {
    forall|i: int|
        0 <= i < h.facts.len() ==> {
            &&& json::word_at((#[trigger] h.facts[i]).record, "chainId"@) == Some(h.facts[i].chain)
            &&& replies::offer(h.facts[i].record, tokens_for(h.tokens, h.facts[i].chain)) == Ok::<
                Seq<AssetView>,
                Seq<char>,
            >(h.facts[i].offered)
        }
}

/// The facts that are found of a chain are among those that are known.
proof fn lemma_facts_of(facts: Seq<FactsView>, chain: u64)
    ensures
        match facts_of(facts, chain) {
            Some(f) => f.chain == chain && exists|i: int|
                0 <= i < facts.len() && #[trigger] facts[i] == f,
            None => forall|i: int| 0 <= i < facts.len() ==> (#[trigger] facts[i]).chain != chain,
        },
    decreases facts.len(),
{
    if facts.len() > 0 {
        let rest = facts.drop_first();
        if facts[0].chain != chain {
            lemma_facts_of(rest, chain);
            match facts_of(rest, chain) {
                Some(f) => {
                    let i = choose|i: int| 0 <= i < rest.len() && #[trigger] rest[i] == f;
                    assert(facts[i + 1] == f);
                },
                None => {
                    assert forall|i: int| 0 <= i < facts.len() implies (#[trigger] facts[i]).chain
                        != chain by {
                        if i > 0 {
                            assert(rest[i - 1] == facts[i]);
                        }
                    }
                },
            }
        } else {
            assert(facts[0] == facts_of(facts, chain)->0);
        }
    }
}

/// The record of a chain names the chain.
proof fn lemma_record_names_chain(records: Seq<JsonView>, chain_id: u64)
    ensures
        replies::chain_in(records, chain_id) matches Some(record) ==> json::word_at(
            record,
            "chainId"@,
        ) == Some(chain_id),
    decreases records.len(),
{
    if records.len() > 0 {
        lemma_record_names_chain(records.drop_first(), chain_id);
    }
}

/// No chain is lost: every chain that the rows of a history name is to be read at first.
pub proof fn law_every_chain_is_to_be_read(v: JsonView, given: Map<u64, Seq<AssetView>>)
    ensures
        accounted(History::fresh(v, given)),
        own_tokens(History::fresh(v, given)),
{
}

/// No chain is lost on the way, and none gets the tokens of another: after each event, what the
/// rows name is still accounted for, and what is known of a chain is its own.
pub proof fn law_every_chain_keeps_its_own_tokens(h: HistoryView, event: EventView)
    requires
        h.chains.len() > 0,
        accounted(h),
        own_tokens(h),
    ensures
        accounted(chain_done(h, event)),
        own_tokens(chain_done(h, event)),
{
    let after = chain_done(h, event);
    let first = h.chains[0];
    assert forall|chain: u64| #[trigger]
        history_chains(after.value).contains(chain) implies after.chains.contains(chain)
        || facts_of(after.facts, chain) is Some || has_failed(after.failures, chain) by {
        lemma_facts_of(h.facts, chain);
        lemma_facts_of(after.facts, chain);
        if chain == first {
            if after.facts.len() > h.facts.len() {
                assert(after.facts[h.facts.len() as int].chain == chain);
            } else {
                assert(after.failures[h.failures.len() as int].chain == chain);
            }
        } else if h.chains.contains(chain) {
            let i = choose|i: int| 0 <= i < h.chains.len() && h.chains[i] == chain;
            assert(after.chains[i - 1] == chain);
        } else if facts_of(h.facts, chain) is Some {
            let i = choose|i: int| 0 <= i < h.facts.len() && #[trigger] h.facts[i] == facts_of(
                h.facts,
                chain,
            )->0;
            assert(after.facts[i].chain == chain);
        } else {
            let i = choose|i: int|
                0 <= i < h.failures.len() && (#[trigger] h.failures[i]).chain == chain;
            assert(after.failures[i].chain == chain);
        }
    }
    assert forall|i: int| 0 <= i < after.facts.len() implies json::word_at(
        (#[trigger] after.facts[i]).record,
        "chainId"@,
    ) == Some(after.facts[i].chain) && replies::offer(
        after.facts[i].record,
        tokens_for(after.tokens, after.facts[i].chain),
    ) == Ok::<Seq<AssetView>, Seq<char>>(after.facts[i].offered) by {
        if i < h.facts.len() {
            assert(after.facts[i] == h.facts[i]);
        } else {
            match event {
                EventView::Reply(raw) => {
                    let v = wire::reading(raw)->Ok_0;
                    match json::items_at(v, "chains"@) {
                        Some(list) => lemma_record_names_chain(list, first),
                        None => lemma_record_names_chain(Seq::empty(), first),
                    }
                },
                _ => {},
            }
        }
    }
}

/// Each row is decorated with its own chain's assets: the native one of its chain's record and
/// the tokens that were given for that chain, and just the native one where none were.
pub proof fn law_each_row_uses_its_own_chain(h: HistoryView, row: JsonView)
    requires
        own_tokens(h),
        facts_of(h.facts, rows::chain_of(row)) is Some,
        !has_failed(h.failures, rows::chain_of(row)),
    ensures
        ({
            let chain = rows::chain_of(row);
            let record = record_of(h.facts, chain)->0;
            &&& json::word_at(record, "chainId"@) == Some(chain)
            &&& assets::chain_asset(record) is Ok
            &&& final_row(h, row) == rows::networked_row(
                rows::decorated_row(
                    row,
                    seq![assets::chain_asset(record)->Ok_0] + tokens_for(h.tokens, chain),
                ),
                Some(record),
            )
        }),
{
    lemma_facts_of(h.facts, rows::chain_of(row));
}

/// A chain that cannot be read keeps its rows intact and is reported; whatever fails, no row is
/// lost.
pub proof fn law_failed_chains_keep_their_rows(h: HistoryView, list: Seq<JsonView>, i: int)
    requires
        0 <= i < list.len(),
    ensures
        final_rows(h, list).len() == list.len(),
        has_failed(h.failures, rows::chain_of(list[i])) ==> final_rows(h, list)[i] == list[i],
        has_failed(h.failures, rows::chain_of(list[i])) ==> exists|k: int|
            0 <= k < h.failures.len() && json::word_at(
                #[trigger] failures_json(h.failures)[k],
                "chainId"@,
            ) == Some(rows::chain_of(list[i])),
{
    let chain = rows::chain_of(list[i]);
    if has_failed(h.failures, chain) {
        let k = choose|k: int|
            0 <= k < h.failures.len() && (#[trigger] h.failures[k]).chain == chain;
        reveal_strlit("chainId");
        reveal_strlit("error");
        assert("chainId"@.len() == 7 && "error"@.len() == 5);
        assert(failures_json(h.failures)[k] == failure_json(h.failures[k]));
        assert(json::word_at(failures_json(h.failures)[k], "chainId"@) == Some(chain));
    }
}

/// The first row of a chain names it, and none before does.
proof fn lemma_first_row(rows: Seq<JsonView>, chain: u64)
    ensures
        0 <= first_row(rows, chain) <= rows.len(),
        first_row(rows, chain) < rows.len() ==> json::word_at(
            rows[first_row(rows, chain)],
            "chainId"@,
        ) == Some(chain),
        forall|i: int|
            0 <= i < first_row(rows, chain) ==> json::word_at(#[trigger] rows[i], "chainId"@)
                != Some(chain),
    decreases rows.len(),
{
    if rows.len() > 0 && json::word_at(rows[0], "chainId"@) != Some(chain) {
        let rest = rows.drop_first();
        lemma_first_row(rest, chain);
        assert forall|i: int| 0 <= i < first_row(rows, chain) implies json::word_at(
            #[trigger] rows[i],
            "chainId"@,
        ) != Some(chain) by {
            if i > 0 {
                assert(rest[i - 1] == rows[i]);
            }
        }
    }
}

/// Where a row names a chain, and none before it does, that is the first row of the chain.
proof fn lemma_first_row_is(rows: Seq<JsonView>, chain: u64, at: int)
    requires
        0 <= at <= rows.len(),
        at < rows.len() ==> json::word_at(rows[at], "chainId"@) == Some(chain),
        forall|i: int|
            0 <= i < at ==> json::word_at(#[trigger] rows[i], "chainId"@) != Some(chain),
    ensures
        first_row(rows, chain) == at,
{
    lemma_first_row(rows, chain);
}

/// The chains of a history are those that its rows name, each once, in the order of their first
/// rows.
pub proof fn law_chains_come_in_the_order_of_their_first_rows(rows: Seq<JsonView>)
    ensures
        forall|chain: u64| #[trigger]
            row_chains(rows).contains(chain) <==> first_row(rows, chain) < rows.len(),
        forall|i: int, j: int|
            0 <= i < j < row_chains(rows).len() ==> first_row(
                rows,
                #[trigger] row_chains(rows)[i],
            ) < first_row(rows, #[trigger] row_chains(rows)[j]),
        row_chains(rows).no_duplicates(),
    decreases rows.len(),
{
    let chains = row_chains(rows);
    if rows.len() > 0 {
        let rest = rows.drop_last();
        let before = row_chains(rest);
        law_chains_come_in_the_order_of_their_first_rows(rest);
        assert forall|chain: u64| first_row(rest, chain) < rest.len() implies #[trigger] first_row(
            rows,
            chain,
        ) == first_row(rest, chain) by {
            lemma_first_row(rest, chain);
            let at = first_row(rest, chain);
            assert(rows[at] == rest[at]);
            assert forall|i: int| 0 <= i < at implies json::word_at(#[trigger] rows[i], "chainId"@)
                != Some(chain) by {
                assert(rows[i] == rest[i]);
            }
            lemma_first_row_is(rows, chain, at);
        }
        assert forall|chain: u64| first_row(rest, chain) >= rest.len() implies #[trigger] first_row(
            rows,
            chain,
        ) == if json::word_at(rows.last(), "chainId"@) == Some(chain) {
            rows.len() - 1
        } else {
            rows.len() as int
        } by {
            lemma_first_row(rest, chain);
            let at = if json::word_at(rows.last(), "chainId"@) == Some(chain) {
                rows.len() - 1
            } else {
                rows.len() as int
            };
            assert forall|i: int| 0 <= i < at implies json::word_at(#[trigger] rows[i], "chainId"@)
                != Some(chain) by {
                if i < rest.len() {
                    assert(rows[i] == rest[i]);
                }
            }
            lemma_first_row_is(rows, chain, at);
        }
        assert forall|chain: u64| #[trigger] chains.contains(chain) <==> first_row(rows, chain)
            < rows.len() by {
            lemma_first_row(rest, chain);
            lemma_first_row(rows, chain);
            assert(before.contains(chain) <==> first_row(rest, chain) < rest.len());
            if before.contains(chain) {
                let i = choose|i: int| 0 <= i < before.len() && before[i] == chain;
                assert(chains[i] == chain);
            }
            if chains.len() > before.len() {
                assert(chains[before.len() as int] == chains.last());
                if chains.contains(chain) {
                    let i = choose|i: int| 0 <= i < chains.len() && chains[i] == chain;
                    if i < before.len() {
                        assert(before[i] == chain);
                    }
                }
            }
        }
        assert forall|i: int, j: int| 0 <= i < j < chains.len() implies first_row(
            rows,
            #[trigger] chains[i],
        ) < first_row(rows, #[trigger] chains[j]) by {
            assert(before[i] == chains[i]);
            assert(before.contains(before[i]));
            assert(first_row(rows, chains[i]) == first_row(rest, chains[i]));
            if j < before.len() {
                assert(before[j] == chains[j]);
                assert(before.contains(before[j]));
                assert(first_row(rest, before[i]) < first_row(rest, before[j]));
                assert(first_row(rows, chains[j]) == first_row(rest, chains[j]));
            } else {
                let last = chains[j];
                assert(!before.contains(last));
                lemma_first_row(rest, last);
                assert(first_row(rows, last) == rows.len() - 1);
            }
        }
    } else {
        assert forall|chain: u64| #[trigger] chains.contains(chain) <==> first_row(rows, chain)
            < rows.len() by {
        }
    }
    assert forall|i: int, j: int| 0 <= i < chains.len() && 0 <= j < chains.len() && i
        != j implies chains[i] != chains[j] by {
        if i < j {
            assert(first_row(rows, chains[i]) < first_row(rows, chains[j]));
        } else {
            assert(first_row(rows, chains[j]) < first_row(rows, chains[i]));
        }
    }
}

/// A history over several events: the chains that were asked for are gone, and what is known and
/// what failed is that of each of them, in their order.
pub proof fn law_a_run_takes_its_chains_in_order(h: HistoryView, events: Seq<EventView>)
    requires
        events.len() <= h.chains.len(),
    ensures
        run(h, events) == (HistoryView {
            chains: h.chains.skip(events.len() as int),
            facts: h.facts + facts_among(h.tokens, h.chains, events),
            failures: h.failures + failures_among(h.tokens, h.chains, events),
            ..h
        }),
    decreases events.len(),
{
    if events.len() == 0 {
        assert(h.chains.skip(0) =~= h.chains);
        assert(h.facts + facts_among(h.tokens, h.chains, events) =~= h.facts);
        assert(h.failures + failures_among(h.tokens, h.chains, events) =~= h.failures);
    } else {
        let front = events.drop_last();
        law_a_run_takes_its_chains_in_order(h, front);
        let before = run(h, front);
        let after = run(h, events);
        assert(before.chains[0] == h.chains[events.len() - 1]);
        assert(before.chains.drop_first() =~= h.chains.skip(events.len() as int));
        assert(after.facts =~= h.facts + facts_among(h.tokens, h.chains, events));
        assert(after.failures =~= h.failures + failures_among(h.tokens, h.chains, events));
    }
}

/// The failures of different chains are one for each chain of which nothing is known, in the order
/// of the chains.
proof fn lemma_failures(
    given: Map<u64, Seq<AssetView>>,
    chains: Seq<u64>,
    events: Seq<EventView>,
)
    requires
        events.len() <= chains.len(),
        chains.no_duplicates(),
    ensures
        forall|i: int|
            0 <= i < failures_among(given, chains, events).len() ==> exists|k: int|
                0 <= k < events.len() && chains[k] == (#[trigger] failures_among(
                    given,
                    chains,
                    events,
                )[i]).chain,
        forall|k: int|
            0 <= k < events.len() ==> (has_failed(
                failures_among(given, chains, events),
                #[trigger] chains[k],
            ) <==> chain_outcome(given, chains[k], events[k]) is Err),
        forall|i: int, j: int|
            0 <= i < j < failures_among(given, chains, events).len() ==> (
            #[trigger] failures_among(given, chains, events)[i]).chain != (
            #[trigger] failures_among(given, chains, events)[j]).chain,
    decreases events.len(),
{
    if events.len() > 0 {
        let front = events.drop_last();
        let last = events.len() - 1;
        let before = failures_among(given, chains, front);
        let after = failures_among(given, chains, events);
        lemma_failures(given, chains, front);
        assert forall|i: int| 0 <= i < after.len() implies exists|k: int|
            0 <= k < events.len() && chains[k] == (#[trigger] after[i]).chain by {
            if i < before.len() {
                assert(after[i] == before[i]);
                let k = choose|k: int| 0 <= k < front.len() && chains[k] == before[i].chain;
                assert(chains[k] == after[i].chain);
            } else {
                assert(chains[last] == after[i].chain);
            }
        }
        assert forall|k: int| 0 <= k < events.len() implies (has_failed(
            after,
            #[trigger] chains[k],
        ) <==> chain_outcome(given, chains[k], events[k]) is Err) by {
            if k < last {
                assert(events[k] == front[k]);
                assert(chains[k] != chains[last]);
                if has_failed(before, chains[k]) {
                    let i = choose|i: int|
                        0 <= i < before.len() && (#[trigger] before[i]).chain == chains[k];
                    assert(after[i].chain == chains[k]);
                }
                if has_failed(after, chains[k]) {
                    let i = choose|i: int|
                        0 <= i < after.len() && (#[trigger] after[i]).chain == chains[k];
                    assert(i < before.len());
                    assert(before[i].chain == chains[k]);
                }
            } else {
                if chain_outcome(given, chains[k], events[k]) is Err {
                    assert(after[before.len() as int].chain == chains[k]);
                } else if has_failed(after, chains[k]) {
                    let i = choose|i: int|
                        0 <= i < after.len() && (#[trigger] after[i]).chain == chains[k];
                    let j = choose|j: int| 0 <= j < front.len() && chains[j] == before[i].chain;
                    assert(chains[j] != chains[last]);
                }
            }
        }
        assert forall|i: int, j: int| 0 <= i < j < after.len() implies (#[trigger] after[i]).chain
            != (#[trigger] after[j]).chain by {
            assert(after[i] == before[i]);
            if j < before.len() {
                assert(after[j] == before[j]);
            } else {
                let k = choose|k: int| 0 <= k < front.len() && chains[k] == before[i].chain;
                assert(chains[k] != chains[last]);
            }
        }
    }
}

/// Over a whole history: once every chain was asked for, none is left, the failures are exactly one
/// for each chain of which nothing is known, in the order of the first rows of those chains, and
/// every other chain has its facts.
pub proof fn law_a_whole_run_reports_each_failed_chain_once(
    v: JsonView,
    given: Map<u64, Seq<AssetView>>,
    events: Seq<EventView>,
)
    requires
        events.len() == history_chains(v).len(),
    ensures
        ({
            let chains = history_chains(v);
            let done = run(History::fresh(v, given), events);
            &&& chains.no_duplicates()
            &&& done.chains.len() == 0
            &&& done.failures == failures_among(given, chains, events)
            &&& done.facts == facts_among(given, chains, events)
            &&& forall|i: int, j: int|
                0 <= i < j < done.failures.len() ==> (#[trigger] done.failures[i]).chain != (
                #[trigger] done.failures[j]).chain
            &&& forall|k: int|
                0 <= k < chains.len() ==> (has_failed(done.failures, #[trigger] chains[k])
                    <==> chain_outcome(given, chains[k], events[k]) is Err)
            &&& forall|k: int|
                0 <= k < chains.len() ==> (facts_of(done.facts, #[trigger] chains[k]) is Some
                    <==> chain_outcome(given, chains[k], events[k]) is Ok)
        }),
{
    let chains = history_chains(v);
    let fresh = History::fresh(v, given);
    let done = run(fresh, events);
    match rows::history_rows(v) {
        Some(list) => law_chains_come_in_the_order_of_their_first_rows(list),
        None => {},
    }
    law_a_run_takes_its_chains_in_order(fresh, events);
    assert(done.failures =~= failures_among(given, chains, events));
    assert(done.facts =~= facts_among(given, chains, events));
    lemma_failures(given, chains, events);
    lemma_facts(given, chains, events);
}

/// The facts of different chains are those of the chains that were read.
proof fn lemma_facts(given: Map<u64, Seq<AssetView>>, chains: Seq<u64>, events: Seq<EventView>)
    requires
        events.len() <= chains.len(),
        chains.no_duplicates(),
    ensures
        forall|i: int|
            0 <= i < facts_among(given, chains, events).len() ==> exists|k: int|
                0 <= k < events.len() && chains[k] == (#[trigger] facts_among(
                    given,
                    chains,
                    events,
                )[i]).chain,
        forall|k: int|
            0 <= k < events.len() ==> (facts_of(
                facts_among(given, chains, events),
                #[trigger] chains[k],
            ) is Some <==> chain_outcome(given, chains[k], events[k]) is Ok),
    decreases events.len(),
{
    if events.len() > 0 {
        let front = events.drop_last();
        let last = events.len() - 1;
        let before = facts_among(given, chains, front);
        let after = facts_among(given, chains, events);
        lemma_facts(given, chains, front);
        assert forall|i: int| 0 <= i < after.len() implies exists|k: int|
            0 <= k < events.len() && chains[k] == (#[trigger] after[i]).chain by {
            if i < before.len() {
                assert(after[i] == before[i]);
                let k = choose|k: int| 0 <= k < front.len() && chains[k] == before[i].chain;
                assert(chains[k] == after[i].chain);
            } else {
                assert(chains[last] == after[i].chain);
            }
        }
        assert forall|k: int| 0 <= k < events.len() implies (facts_of(
            after,
            #[trigger] chains[k],
        ) is Some <==> chain_outcome(given, chains[k], events[k]) is Ok) by {
            lemma_facts_of(before, chains[k]);
            lemma_facts_of(after, chains[k]);
            if k < last {
                assert(events[k] == front[k]);
                assert(chains[k] != chains[last]);
                if facts_of(before, chains[k]) is Some {
                    let i = choose|i: int|
                        0 <= i < before.len() && #[trigger] before[i] == facts_of(
                            before,
                            chains[k],
                        )->0;
                    assert(after[i].chain == chains[k]);
                }
                if facts_of(after, chains[k]) is Some {
                    let i = choose|i: int|
                        0 <= i < after.len() && #[trigger] after[i] == facts_of(
                            after,
                            chains[k],
                        )->0;
                    assert(i < before.len());
                    assert(before[i].chain == chains[k]);
                }
            } else {
                if chain_outcome(given, chains[k], events[k]) is Ok {
                    assert(after[before.len() as int].chain == chains[k]);
                } else if facts_of(after, chains[k]) is Some {
                    let i = choose|i: int|
                        0 <= i < after.len() && #[trigger] after[i] == facts_of(
                            after,
                            chains[k],
                        )->0;
                    let j = choose|j: int| 0 <= j < front.len() && chains[j] == before[i].chain;
                    assert(chains[j] != chains[last]);
                }
            }
        }
    }
}

/// A row that came out of a history stays as it is when the same is done to it again.
pub proof fn law_finishing_a_row_twice_is_finishing_it_once(h: HistoryView, row: JsonView)
    ensures
        final_row(h, final_row(h, row)) == final_row(h, row),
{
    let chain = rows::chain_of(row);
    rows::law_decorating_and_networking_twice_is_doing_it_once(
        row,
        table_of(h.facts, chain),
        record_of(h.facts, chain),
    );
}

/// A chain gets the tokens that were given under its own number, and none where none were.
pub proof fn law_a_chain_gets_what_was_given_for_it(given: Map<u64, Seq<AssetView>>, chain: u64)
    ensures
        given.contains_key(chain) ==> tokens_for(given, chain) == given[chain],
        !given.contains_key(chain) ==> tokens_for(given, chain).len() == 0,
{
}

/// What is known of a chain comes from its own record: its native asset and then the tokens that
/// were given for it; nothing is known where the record cannot be read or gives no native asset.
pub proof fn law_what_is_known_of_a_chain(
    given: Map<u64, Seq<AssetView>>,
    chain: u64,
    event: EventView,
    i: int,
)
    ensures
        match provider::record_read(event, chain) {
            Ok(record) => match assets::chain_asset(record) {
                Ok(native) => chain_outcome(given, chain, event) matches Ok(f) && {
                    &&& f.chain == chain
                    &&& f.record == record
                    &&& f.offered.len() > 0 && f.offered[0] == native
                    &&& given.contains_key(chain) ==> f.offered.len() == given[chain].len() + 1
                    &&& given.contains_key(chain) && 0 <= i < given[chain].len() ==> f.offered[i + 1]
                        == given[chain][i]
                    &&& !given.contains_key(chain) ==> f.offered.len() == 1
                },
                Err(why) => chain_outcome(given, chain, event) == Err::<FactsView, Seq<char>>(why),
            },
            Err(why) => chain_outcome(given, chain, event) == Err::<FactsView, Seq<char>>(why),
        },
{
}

/// The facts of a chain are the first that are known of it.
pub proof fn law_facts_are_found_by_their_chain(facts: Seq<FactsView>, chain: u64, i: int)
    requires
        0 <= i < facts.len(),
        facts[i].chain == chain,
        forall|j: int| 0 <= j < i ==> (#[trigger] facts[j]).chain != chain,
    ensures
        facts_of(facts, chain) == Some(facts[i]),
        table_of(facts, chain) == facts[i].offered,
        record_of(facts, chain) == Some(facts[i].record),
    decreases facts.len(),
{
    if i > 0 {
        let rest = facts.drop_first();
        assert(facts[0].chain != chain);
        assert forall|j: int| 0 <= j < i - 1 implies (#[trigger] rest[j]).chain != chain by {
            assert(rest[j] == facts[j + 1]);
        }
        law_facts_are_found_by_their_chain(rest, chain, i - 1);
    }
}

/// A row of a chain that was read comes out with what is known of that very chain: decorated with
/// its assets and labelled with its record. A row of a chain that was not asked for comes out
/// decorated with no assets, and one of a chain that failed as it was.
pub proof fn law_a_row_comes_out_with_its_own_chain(h: HistoryView, row: JsonView, i: int)
    ensures
        ({
            let chain = rows::chain_of(row);
            let failed = exists|k: int|
                0 <= k < h.failures.len() && (#[trigger] h.failures[k]).chain == chain;
            &&& failed ==> final_row(h, row) == row
            &&& !failed && 0 <= i < h.facts.len() && h.facts[i].chain == chain && (forall|j: int|
                0 <= j < i ==> (#[trigger] h.facts[j]).chain != chain) ==> final_row(h, row)
                == rows::networked_row(
                rows::decorated_row(row, h.facts[i].offered),
                Some(h.facts[i].record),
            )
            &&& !failed && (forall|j: int|
                0 <= j < h.facts.len() ==> (#[trigger] h.facts[j]).chain != chain) ==> final_row(
                h,
                row,
            ) == rows::decorated_row(row, Seq::empty())
        }),
{
    let chain = rows::chain_of(row);
    lemma_facts_of(h.facts, chain);
    if 0 <= i < h.facts.len() && h.facts[i].chain == chain && (forall|j: int|
        0 <= j < i ==> (#[trigger] h.facts[j]).chain != chain) {
        law_facts_are_found_by_their_chain(h.facts, chain, i);
    }
}

/// A history comes out with all its rows, each in its place, with the chains that could not be read
/// reported by number and reason in their order, and with whatever else it said.
pub proof fn law_a_history_comes_out_whole(
    h: HistoryView,
    list: Seq<JsonView>,
    i: int,
    k: int,
    other: Seq<char>,
)
    requires
        json::member(h.value, "transactions"@) == Some(JsonView::Array(list)),
    ensures
        ({
            let v = final_history(h);
            let out = json::items_at(v, "transactions"@);
            let failed = json::items_at(v, "decorationErrors"@);
            &&& out is Some && out->0.len() == list.len()
            &&& 0 <= i < list.len() ==> out->0[i] == final_row(h, list[i])
            &&& h.failures.len() > 0 ==> failed is Some && failed->0.len() == h.failures.len()
            &&& 0 <= k < h.failures.len() ==> json::member(failed->0[k], "chainId"@) == Some(
                JsonView::Int(h.failures[k].chain as int),
            ) && json::member(failed->0[k], "error"@) == Some(JsonView::Text(h.failures[k].error))
            &&& h.failures.len() == 0 ==> json::member(v, "decorationErrors"@) == json::member(
                h.value,
                "decorationErrors"@,
            )
            &&& other != "transactions"@ && other != "decorationErrors"@ ==> json::member(v, other)
                == json::member(h.value, other)
        }),
{
    reveal_strlit("transactions");
    reveal_strlit("decorationErrors");
    reveal_strlit("chainId");
    reveal_strlit("error");
    assert("transactions"@.len() == 12 && "decorationErrors"@.len() == 16);
    assert("chainId"@.len() == 7 && "error"@.len() == 5);
}

/// A history starts with all its chains to be read, and nothing known of any.
pub proof fn law_a_history_starts_with_nothing_known(
    v: JsonView,
    given: Map<u64, Seq<AssetView>>,
    list: Seq<JsonView>,
    i: int,
)
    requires
        json::member(v, "transactions"@) == Some(JsonView::Array(list)),
    ensures
        ({
            let h = History::fresh(v, given);
            &&& h.value == v
            &&& h.tokens == given
            &&& h.facts.len() == 0 && h.failures.len() == 0
            &&& 0 <= i < list.len() && json::word_at(list[i], "chainId"@) is Some
                ==> h.chains.contains(json::word_at(list[i], "chainId"@)->0)
            &&& 0 <= i < h.chains.len() ==> exists|k: int|
                0 <= k < list.len() && json::word_at(#[trigger] list[k], "chainId"@) == Some(
                    h.chains[i],
                )
        }),
{
    let h = History::fresh(v, given);
    law_chains_come_in_the_order_of_their_first_rows(list);
    if 0 <= i < list.len() && json::word_at(list[i], "chainId"@) is Some {
        let chain = json::word_at(list[i], "chainId"@)->0;
        lemma_first_row(list, chain);
        assert(h.chains.contains(chain) <==> first_row(list, chain) < list.len());
    }
    if 0 <= i < h.chains.len() {
        let chain = h.chains[i];
        assert(h.chains.contains(chain));
        lemma_first_row(list, chain);
        assert(json::word_at(list[first_row(list, chain)], "chainId"@) == Some(chain));
    }
}

} // verus!
