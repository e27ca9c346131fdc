//! What is answered to a caller, what is asked of the fact provider, and what its replies hold:
//! JSON on both sides.
use vstd::prelude::*;
use vstd::string::StringExecFns;

use crate::address;
use crate::address::Address;
use crate::assets;
use crate::assets::{Asset, AssetView, TokenSort};
use crate::codec;
use crate::digits;
use crate::digits::decimal_text;
use crate::hextext;
use crate::hextext::{decode, encode};
use crate::json;
use crate::json::{Json, JsonView};
use crate::text;
use crate::text::joined;
use crate::tokens;
use crate::transfer;
use crate::transfer::{Resolved, ResolvedView};
use crate::uint;
use crate::uint::U256;
use crate::units;
use crate::verified;
use crate::verified::fold_route;
use crate::wire;

verus! {

/// The reply that refuses a request for the reason `message`.
pub open spec fn refusal(message: Seq<char>) -> JsonView {
    let v = JsonView::Object(Map::empty());
    let v = json::put(v, "ok"@, JsonView::Bool(false));
    json::put(v, "error"@, JsonView::Text(message))
}

/// Whether a value is a structured refusal: an object that says that it did not succeed.
pub open spec fn is_refusal(v: JsonView) -> bool {
    json::truth_at(v, "ok"@) == Some(false)
}

/// The reply for an error: a structured refusal is relayed as it is, anything else is the reason
/// of a new one.
pub open spec fn refused(message: Seq<char>) -> Seq<char> {
    match wire::reading(message) {
        Ok(v) => if is_refusal(v) {
            wire::writing(v)
        } else {
            wire::writing(refusal(message))
        },
        Err(_) => wire::writing(refusal(message)),
    }
}

/// A new refusal is a structured one, with whole numbers only.
pub proof fn lemma_refusal(message: Seq<char>)
    ensures
        json::plain(refusal(message), wire::DEPTH as nat),
        is_refusal(refusal(message)),
        json::text_at(refusal(message), "error"@) == Some(message),
{
    reveal_strlit("ok");
    reveal_strlit("error");
    assert("ok"@.len() == 2 && "error"@.len() == 5);
    let n = wire::DEPTH as nat;
    let v = JsonView::Object(Map::empty());
    json::lemma_plain_empty(n);
    json::lemma_plain_put(v, "ok"@, JsonView::Bool(false), n);
    let v = json::put(v, "ok"@, JsonView::Bool(false));
    json::lemma_plain_put(v, "error"@, JsonView::Text(message), n);
}

/// Whether the reply for an error reads back: a relayed refusal but for the numbers in it that are
/// not whole, a new one as it is.
pub open spec fn refused_reads_back(message: Seq<char>) -> bool {
    match wire::reading(message) {
        Ok(v) => if is_refusal(v) {
            wire::rereads(v)
        } else {
            wire::reads_back(refusal(message))
        },
        Err(_) => wire::reads_back(refusal(message)),
    }
}

/// The reply for an error message and what it reads as, where it reads as JSON.
pub fn relay(message: &str, read: Option<&Json>) -> (r: String)
    ensures
        r@ == match read {
            Some(v) => if is_refusal(v@) {
                wire::writing(v@)
            } else {
                wire::writing(refusal(message@))
            },
            None => wire::writing(refusal(message@)),
        },
        match read {
            Some(v) => if is_refusal(v@) {
                json::within(v@, wire::DEPTH as nat) ==> wire::rereads(v@)
            } else {
                wire::reads_back(refusal(message@))
            },
            None => wire::reads_back(refusal(message@)),
        },
{
    proof {
        lemma_refusal(message@);
    }
    match read {
        Some(v) => if v.get_bool("ok") == Some(false) {
            return v.to_text();
        },
        None => {},
    }
    let mut v = Json::object();
    v.set("ok", Json::Bool(false));
    v.set("error", Json::text(message));
    v.to_text()
}

/// The reply for an error.
pub fn err(message: &str) -> (r: String)
    ensures
        r@ == refused(message@),
        refused_reads_back(message@),
{
    match Json::parse(message) {
        Ok(v) => relay(message, Some(&v)),
        Err(_) => relay(message, None),
    }
}

/// What a refused request is answered with reads as a structured refusal: the one that was
/// relayed, the same but for the numbers in it that are not whole, or one that gives the message
/// as its reason.
pub proof fn law_a_refused_request_is_answered(message: Seq<char>)
    requires
        refused_reads_back(message),
    ensures
        wire::reading(refused(message)) is Ok,
        is_refusal(wire::reading(refused(message))->Ok_0),
        match wire::reading(message) {
            Ok(v) => if is_refusal(v) {
                &&& json::same_but_floats(
                    v,
                    wire::reading(refused(message))->Ok_0,
                    wire::DEPTH as nat,
                )
                &&& json::plain(v, wire::DEPTH as nat) ==> wire::reading(refused(message))->Ok_0
                    == v
            } else {
                json::text_at(wire::reading(refused(message))->Ok_0, "error"@) == Some(message)
            },
            Err(_) => json::text_at(wire::reading(refused(message))->Ok_0, "error"@) == Some(
                message,
            ),
        },
{
    lemma_refusal(message);
    if wire::reading(message) is Ok && is_refusal(wire::reading(message)->Ok_0) {
        let v = wire::reading(message)->Ok_0;
        let answer = wire::reading(refused(message))->Ok_0;
        json::lemma_same_members(v, answer, wire::DEPTH as nat, "ok"@);
        if json::plain(v, wire::DEPTH as nat) {
            wire::lemma_plain_rereads(v);
        }
    }
}

/// A structured refusal is relayed unchanged, with everything that it says.
pub proof fn law_refusals_are_relayed_unchanged(v: JsonView)
    requires
        is_refusal(v),
        wire::reads_back(v),
    ensures
        refused(wire::writing(v)) == wire::writing(v),
{
}

/// A structured refusal is relayed with everything that it says, whatever numbers are in it: the
/// reply reads as a refusal that is the same but for those that are not whole.
pub proof fn law_refusals_are_relayed_with_all_they_say(v: JsonView)
    requires
        is_refusal(v),
        wire::rereads(v),
        refused_reads_back(wire::writing(v)),
    ensures
        wire::reading(refused(wire::writing(v))) is Ok,
        is_refusal(wire::reading(refused(wire::writing(v)))->Ok_0),
        json::same_but_floats(
            v,
            wire::reading(refused(wire::writing(v)))->Ok_0,
            wire::DEPTH as nat,
        ),
{
    let read = wire::reading(wire::writing(v))->Ok_0;
    json::lemma_same_members(v, read, wire::DEPTH as nat, "ok"@);
    law_a_refused_request_is_answered(wire::writing(v));
    json::lemma_same_chain(
        v,
        read,
        wire::reading(refused(wire::writing(v)))->Ok_0,
        wire::DEPTH as nat,
    );
}

/// The record of a chain in a registry reply.
pub open spec fn chain_in(records: Seq<JsonView>, chain_id: u64) -> Option<JsonView>
    decreases records.len(),
{
    if records.len() == 0 {
        None
    } else if json::word_at(records[0], "chainId"@) == Some(chain_id) {
        Some(records[0])
    } else {
        chain_in(records.drop_first(), chain_id)
    }
}

/// What a registry reply says of a chain: its record, or why there is none.
pub open spec fn record_in(reply: JsonView, chain_id: u64) -> Result<JsonView, Seq<char>> {
    if !verified::is_ok(reply) {
        Err(wire::writing(reply))
    } else {
        let records = match json::items_at(reply, "chains"@) {
            Some(list) => list,
            None => Seq::empty(),
        };
        match chain_in(records, chain_id) {
            Some(record) => Ok(record),
            None => Err("chain "@ + digits::decimal(chain_id as nat) + " is not configured"@),
        }
    }
}

/// The first record of a chain in a list.
fn find_chain(list: &Vec<Json>, chain_id: u64) -> (r: Option<&Json>)
    ensures
        match chain_in(json::trees(list@), chain_id) {
            Some(v) => r matches Some(j) && j@ == v,
            None => r is None,
        },
{
    let ghost all = json::trees(list@);
    let mut i: usize = 0;
    assert(all.skip(0) =~= all);
    while i < list.len()
        invariant
            i <= list.len(),
            all == json::trees(list@),
            chain_in(all.skip(i as int), chain_id) == chain_in(all, chain_id),
        decreases list.len() - i,
    {
        assert(all.skip(i as int)[0] == list@[i as int]@);
        if list[i].get_u64("chainId") == Some(chain_id) {
            return Some(&list[i]);
        }
        assert(all.skip(i as int).drop_first() =~= all.skip(i + 1));
        i = i + 1;
    }
    None
}

/// What a registry reply says of a chain.
pub fn chain_record(reply: &Json, chain_id: u64) -> (r: Result<Json, String>)
    ensures
        match record_in(reply@, chain_id) {
            Ok(v) => r matches Ok(j) && j@ == v,
            Err(why) => r matches Err(e) && e@ == why,
        },
        json::within(reply@, wire::DEPTH as nat) && !verified::is_ok(reply@) ==> wire::rereads(
            reply@,
        ),
{
    if reply.get_bool("ok") != Some(true) {
        return Err(reply.to_text());
    }
    let found = match reply.get_array("chains") {
        Some(list) => find_chain(list, chain_id),
        None => None,
    };
    match found {
        Some(record) => Ok(record.clone()),
        None => {
            let mut why = joined("chain ", decimal_text(chain_id).as_str());
            why.append(" is not configured");
            Err(why)
        },
    }
}

/// The chain's native asset, then the caller's tokens; or why the record gives no native asset.
pub open spec fn offer(record: JsonView, tokens: Seq<AssetView>) -> Result<
    Seq<AssetView>,
    Seq<char>,
> {
    match assets::chain_asset(record) {
        Ok(native) => Ok(seq![native] + tokens),
        Err(why) => Err(why),
    }
}

/// The chain's native asset, then the caller's tokens.
pub fn offered(record: &Json, tokens: Vec<Asset>) -> (r: Result<Vec<Asset>, String>)
    ensures
        match offer(record@, assets::views(tokens@)) {
            Ok(list) => r matches Ok(v) && assets::views(v@) == list,
            Err(why) => r matches Err(e) && e@ == why,
        },
{
    let native = match Asset::from_chain(record) {
        Ok(a) => a,
        Err(why) => return Err(why),
    };
    let ghost first = native@;
    let ghost rest = assets::views(tokens@);
    let mut all: Vec<Asset> = Vec::new();
    all.push(native);
    let mut tokens = tokens;
    all.append(&mut tokens);
    assert(assets::views(all@) =~= seq![first] + rest);
    Ok(all)
}

/// The JSON object of an asset in a reply that names the chain elsewhere.
pub open spec fn asset_value(a: AssetView) -> JsonView {
    json::drop(assets::asset_json(a), "chainId"@)
}

/// The JSON objects of a list of assets.
pub open spec fn asset_values(list: Seq<AssetView>) -> Seq<JsonView> {
    list.map_values(|a: AssetView| asset_value(a))
}

/// The JSON object of an asset in a reply that names the chain elsewhere.
fn value_of(asset: &Asset) -> (r: Json)
    ensures
        r@ == asset_value(asset@),
{
    let mut v = asset.to_json();
    v.remove("chainId");
    v
}

/// A reply that succeeds, on a chain.
pub open spec fn success(chain_id: i64) -> JsonView {
    let v = JsonView::Object(Map::empty());
    let v = json::put(v, "ok"@, JsonView::Bool(true));
    json::put(v, "chainId"@, JsonView::Int(chain_id as int))
}

/// A reply that succeeds, on a chain.
fn start_reply(chain_id: i64) -> (r: Json)
    ensures
        r@ == success(chain_id),
{
    let mut v = Json::object();
    v.set("ok", Json::Bool(true));
    v.set("chainId", Json::Signed(chain_id));
    v
}

/// The reply that lists the offered assets.
pub open spec fn list_json(chain_id: i64, offered: Seq<AssetView>) -> JsonView {
    json::put(success(chain_id), "tokens"@, JsonView::Array(asset_values(offered)))
}

/// The reply that lists the offered assets.
pub fn list_reply(chain_id: i64, offered: &[Asset]) -> (r: Json)
    ensures
        r@ == list_json(chain_id, assets::views(offered@)),
{
    let ghost all = assets::views(offered@);
    let mut list: Vec<Json> = Vec::new();
    let mut i: usize = 0;
    while i < offered.len()
        invariant
            i <= offered.len(),
            all == assets::views(offered@),
            json::trees(list@) == asset_values(all).take(i as int),
        decreases offered.len() - i,
    {
        let v = value_of(&offered[i]);
        proof {
            json::lemma_trees(list@, v);
            assert(asset_values(all).take(i + 1) =~= asset_values(all).take(i as int).push(v@));
        }
        list.push(v);
        i = i + 1;
    }
    assert(asset_values(all).take(all.len() as int) =~= asset_values(all));
    let mut v = start_reply(chain_id);
    v.set("tokens", Json::Array(list));
    v
}

/// The reply that holds one asset.
pub open spec fn resolve_json(chain_id: i64, asset: AssetView) -> JsonView {
    json::put(success(chain_id), "asset"@, asset_value(asset))
}

/// The reply that holds one asset.
pub fn resolve_reply(chain_id: i64, asset: &Asset) -> (r: Json)
    ensures
        r@ == resolve_json(chain_id, asset@),
{
    let mut v = start_reply(chain_id);
    v.set("asset", value_of(asset));
    v
}

/// A read-only call of a contract.
pub open spec fn contract_call(to: Seq<u8>, data: Seq<u8>) -> JsonView {
    let v = JsonView::Object(Map::empty());
    let v = json::put(v, "to"@, JsonView::Text(address::checksummed(to)));
    json::put(v, "data"@, JsonView::Text("0x"@ + hextext::hex_text(data)))
}

/// A read-only call of a contract.
fn call_of(to: &Address, data: &[u8]) -> (r: Json)
    ensures
        r@ == contract_call(to@, data@),
{
    let mut v = Json::object();
    v.set("to", Json::Text(to.to_checksum()));
    v.set("data", Json::Text(joined("0x", encode(data).as_str())));
    v
}

/// The legs of the balance batch of an owner: the native balance, and the balance of every token.
pub open spec fn balance_legs(offered: Seq<AssetView>, owner: Seq<u8>) -> Seq<
    (Seq<u8>, bool, Seq<u8>),
>
    decreases offered.len(),
{
    if offered.len() == 0 {
        Seq::empty()
    } else {
        let rest = balance_legs(offered.drop_last(), owner);
        let asset = offered.last();
        if asset.native {
            rest.push(
                (
                    address::address_of(codec::MULTICALL3@),
                    true,
                    codec::native_balance_selector() + codec::address_word(owner),
                ),
            )
        } else if asset.address is Some && address::is_address(asset.address->0) {
            rest.push(
                (
                    address::address_of(asset.address->0),
                    true,
                    codec::balance_of_selector() + codec::address_word(owner),
                ),
            )
        } else {
            rest
        }
    }
}

/// The one call that reads every balance of an owner.
pub open spec fn balances_call_json(offered: Seq<AssetView>, owner: Seq<u8>) -> JsonView {
    contract_call(
        address::address_of(codec::MULTICALL3@),
        codec::aggregate_selector() + codec::encoded_legs(balance_legs(offered, owner)),
    )
}

/// The one call that reads every balance of an owner.
pub fn balances_call(offered: &[Asset], owner: Address) -> (r: Json)
    ensures
        r@ == balances_call_json(assets::views(offered@), owner@),
{
    let ghost all = assets::views(offered@);
    let mut calls: Vec<(Address, Vec<u8>)> = Vec::new();
    let mut i: usize = 0;
    assert(codec::batch_legs(calls@) =~= balance_legs(all.take(0), owner@));
    while i < offered.len()
        invariant
            i <= offered.len(),
            all == assets::views(offered@),
            codec::batch_legs(calls@) == balance_legs(all.take(i as int), owner@),
        decreases offered.len() - i,
    {
        proof {
            assert(all.take(i + 1).drop_last() =~= all.take(i as int));
            assert(all.take(i + 1).last() == offered@[i as int]@);
        }
        if offered[i].native {
            let call = (codec::multicall3(), codec::native_balance(owner));
            assert(codec::batch_legs(calls@.push(call)) =~= codec::batch_legs(calls@).push(
                (call.0@, true, call.1@),
            ));
            calls.push(call);
        } else {
            match &offered[i].address {
                Some(s) => match Address::parse(s.as_str()) {
                    Ok(token) => {
                        let call = (token, codec::balance_of(owner));
                        assert(codec::batch_legs(calls@.push(call)) =~= codec::batch_legs(
                            calls@,
                        ).push((call.0@, true, call.1@)));
                        calls.push(call);
                    },
                    Err(_) => {},
                },
                None => {},
            }
        }
        i = i + 1;
    }
    assert(all.take(all.len() as int) =~= all);
    call_of(&codec::multicall3(), codec::aggregate(calls.as_slice()).as_slice())
}

/// The bytes that an answer holds as hexadecimal text, with any number of `0x` in front.
pub open spec fn answer_bytes(v: JsonView) -> Option<Seq<u8>> {
    match json::as_text(v) {
        Some(s) => if hextext::is_hex(text::without_0x(s)) {
            Some(hextext::unhexed(text::without_0x(s)))
        } else {
            None
        },
        None => None,
    }
}

/// The bytes that an answer holds as hexadecimal text.
fn bytes_in(v: &Json) -> (r: Option<Vec<u8>>)
    ensures
        match answer_bytes(v@) {
            Some(bytes) => r matches Some(b) && b@ == bytes,
            None => r is None,
        },
{
    match v.as_str() {
        Some(s) => decode(text::strip_0x(s)),
        None => None,
    }
}

/// The balances that the answer to the batch holds, or why it holds none.
pub open spec fn balances_in(answer: JsonView) -> Result<Seq<Option<nat>>, Seq<char>> {
    match answer_bytes(answer) {
        Some(bytes) => match codec::decoded_answers(bytes) {
            Some(answers) => Ok(codec::leg_amounts(answers)),
            None => Err("could not decode the Multicall3 response"@),
        },
        None => Err("could not decode the Multicall3 response"@),
    }
}

/// The balances that the answer to the batch holds.
pub fn read_balances(answer: &Json) -> (r: Result<Vec<Option<U256>>, String>)
    ensures
        match balances_in(answer@) {
            Ok(list) => r matches Ok(v) && uint::amounts(v@) == list,
            Err(why) => r matches Err(e) && e@ == why,
        },
{
    let decoded = match bytes_in(answer) {
        Some(bytes) => codec::decode_aggregate(bytes.as_slice()),
        None => None,
    };
    match decoded {
        Some(list) => Ok(list),
        None => Err("could not decode the Multicall3 response".to_owned()),
    }
}

/// The route of one answer, as it is reported.
pub open spec fn route_text(route: Option<Seq<char>>) -> Seq<char> {
    match route {
        Some(s) => if verified::worth(s) > 0 {
            s
        } else {
            "unknown"@
        },
        None => "unknown"@,
    }
}

/// The route of one answer, as it is reported.
fn route_of(route: &Option<String>) -> (r: String)
    ensures
        r@ == route_text(assets::maybe(*route)),
{
    proof {
        reveal_strlit("unknown");
        reveal_strlit("verified");
        reveal_strlit("proxied");
        reveal_strlit("direct");
        assert("unknown"@[0] == 'u');
        assert("verified"@[0] == 'v');
        assert("proxied"@[0] == 'p');
        assert("direct"@[0] == 'd');
    }
    let one: [Option<&str>; 1] = match route {
        Some(s) => [Some(s.as_str())],
        None => [None],
    };
    assert(one@.len() == 1);
    fold_route(one.as_slice())
}

/// The reply that holds the balances of an account.
pub open spec fn balances_json(
    chain_id: i64,
    account: Seq<char>,
    sort: TokenSort,
    rows: Seq<JsonView>,
    route: Option<Seq<char>>,
) -> JsonView {
    let v = success(chain_id);
    let v = json::put(v, "address"@, JsonView::Text(account));
    let v = json::put(v, "tokenSort"@, JsonView::Text(sort.name()));
    let v = json::put(v, "balances"@, JsonView::Array(rows));
    json::put(v, "route"@, JsonView::Text(route_text(route)))
}

/// The reply that holds the balances of an account.
pub fn balances_reply(
    chain_id: i64,
    account: &str,
    sort: TokenSort,
    offered: &[Asset],
    raw: &[Option<U256>],
    route: &Option<String>,
) -> (r: Json)
    ensures
        r@ == balances_json(
            chain_id,
            account@,
            sort,
            assets::placed_rows(assets::views(offered@), uint::amounts(raw@), sort),
            assets::maybe(*route),
        ),
{
    let mut v = start_reply(chain_id);
    v.set("address", Json::text(account));
    v.set("tokenSort", Json::text(sort.as_str()));
    v.set("balances", Json::Array(assets::balance_rows(offered, raw, sort)));
    v.set("route", Json::Text(route_of(route)));
    v
}

/// The call that reads the balance of one token.
pub open spec fn token_call_json(token: Seq<u8>, owner: Seq<u8>) -> JsonView {
    contract_call(token, codec::balance_of_selector() + codec::address_word(owner))
}

/// The call that reads the balance of one token.
pub fn token_call(token: Address, owner: Address) -> (r: Json)
    ensures
        r@ == token_call_json(token@, owner@),
{
    call_of(&token, codec::balance_of(owner).as_slice())
}

/// The token balance that an answer holds, or why it holds none.
pub open spec fn held_in(answer: JsonView) -> Result<nat, Seq<char>> {
    match answer_bytes(answer) {
        None => Err("eth_call returned no decodable token balance"@),
        Some(bytes) => if bytes.len() >= 32 {
            Ok(uint::be_value(bytes.take(32)))
        } else {
            Err("token balance response was shorter than uint256"@)
        },
    }
}

/// The token balance that an answer holds.
pub fn read_held(answer: &Json) -> (r: Result<U256, String>)
    ensures
        match held_in(answer@) {
            Ok(n) => r matches Ok(v) && v@ == n,
            Err(why) => r matches Err(e) && e@ == why,
        },
{
    let bytes = match bytes_in(answer) {
        Some(b) => b,
        None => return Err("eth_call returned no decodable token balance".to_owned()),
    };
    if bytes.len() < 32 {
        return Err("token balance response was shorter than uint256".to_owned());
    }
    let word = vstd::slice::slice_subrange(bytes.as_slice(), 0, 32);
    assert(word@ =~= bytes@.take(32));
    Ok(U256::from_be_slice(word))
}

/// A text, null where there is none.
pub open spec fn text_or_null(s: Option<Seq<char>>) -> JsonView {
    match s {
        Some(t) => JsonView::Text(t),
        None => JsonView::Null,
    }
}

/// The reply that holds a transfer: its parties, its asset, its amount in every form, and the one
/// unsigned call.
pub open spec fn transfer_json(
    chain_id: i64,
    t: ResolvedView,
    route: Option<Seq<char>>,
) -> JsonView {
    let raw = digits::decimal(t.amount);
    let decimals = t.asset.decimals as nat;
    let v = success(chain_id);
    let v = json::put(v, "from"@, JsonView::Text(address::checksummed(t.from)));
    let v = json::put(v, "to"@, JsonView::Text(address::checksummed(t.to)));
    let v = json::put(v, "native"@, JsonView::Bool(t.asset.native));
    let v = json::put(v, "symbol"@, JsonView::Text(t.asset.symbol));
    let v = json::put(v, "decimals"@, JsonView::Int(t.asset.decimals as int));
    let v = json::put(v, "tokenAddress"@, text_or_null(t.asset.address));
    let v = json::put(v, "nativeSymbol"@, JsonView::Text(t.native_symbol));
    let v = json::put(v, "amount"@, JsonView::Text(raw));
    let v = json::put(v, "amountDisplay"@, text_or_null(units::display_text(raw, decimals)));
    let v = json::put(v, "amountExact"@, text_or_null(units::exact_text(raw, decimals)));
    let v = json::put(v, "calls"@, JsonView::Array(seq![transfer::call_json(t)]));
    let v = json::put(v, "purpose"@, JsonView::Text(transfer::purpose_text(t)));
    json::put(v, "route"@, JsonView::Text(route_text(route)))
}

/// A text, null where there is none.
fn or_null(s: Option<String>) -> (r: Json)
    ensures
        r@ == text_or_null(assets::maybe(s)),
{
    match s {
        Some(t) => Json::Text(t),
        None => Json::Null,
    }
}

/// The reply that holds a transfer.
pub fn transfer_reply(chain_id: i64, resolved: &Resolved, route: &Option<String>) -> (r: Json)
    requires
        transfer::can_call(resolved@),
    ensures
        r@ == transfer_json(chain_id, resolved@, assets::maybe(*route)),
{
    let asset = &resolved.asset;
    let raw = resolved.amount.to_decimal();
    let mut v = start_reply(chain_id);
    v.set("from", Json::Text(resolved.from.to_checksum()));
    v.set("to", Json::Text(resolved.to.to_checksum()));
    v.set("native", Json::Bool(asset.native));
    v.set("symbol", Json::text(asset.symbol.as_str()));
    v.set("decimals", Json::Unsigned(asset.decimals as u64));
    v.set("tokenAddress", or_null(asset.address.clone()));
    v.set("nativeSymbol", Json::text(resolved.native_symbol.as_str()));
    v.set("amount", Json::text(raw.as_str()));
    v.set("amountDisplay", or_null(units::format_display(raw.as_str(), asset.decimals)));
    v.set("amountExact", or_null(units::format_exact(raw.as_str(), asset.decimals)));
    let mut calls: Vec<Json> = Vec::new();
    let call = transfer::call(resolved);
    assert(json::trees(calls@.push(call)) =~= seq![call@]);
    calls.push(call);
    v.set("calls", Json::Array(calls));
    v.set("purpose", Json::Text(transfer::purpose(resolved)));
    v.set("route", Json::Text(route_of(route)));
    v
}

/// A transfer is one unsigned call: what is replied holds the call of the transfer and no other.
pub proof fn law_a_transfer_is_one_call(chain_id: i64, t: ResolvedView, route: Option<Seq<char>>)
    ensures
        json::items_at(transfer_json(chain_id, t, route), "calls"@) == Some(
            seq![transfer::call_json(t)],
        ),
{
    reveal_strlit("calls");
    reveal_strlit("purpose");
    reveal_strlit("route");
    assert("calls"@.len() == 5 && "calls"@[0] == 'c');
    assert("purpose"@.len() == 7);
    assert("route"@[0] == 'r');
}

/// The route of a reply is one of those that are known, or `unknown`.
pub proof fn law_a_route_is_known_or_unknown(route: Option<Seq<char>>)
    ensures
        route_text(route) == "verified"@ || route_text(route) == "proxied"@ || route_text(route)
            == "direct"@ || route_text(route) == "unknown"@,
{
}

/// Whether every asset of a list can be read: it is native, or stands at an address.
pub open spec fn all_readable(offered: Seq<AssetView>) -> bool {
    forall|i: int|
        0 <= i < offered.len() ==> (#[trigger] offered[i]).native || (offered[i].address is Some
            && address::is_address(offered[i].address->0))
}

/// The native asset of a chain and the tokens that descriptors give can all be read.
pub proof fn law_offers_are_readable(record: JsonView, tokens: Seq<AssetView>)
    requires
        tokens::are_tokens(tokens),
        offer(record, tokens) is Ok,
    ensures
        all_readable(offer(record, tokens)->Ok_0),
        offer(record, tokens)->Ok_0[0].native,
{
    let offered = offer(record, tokens)->Ok_0;
    assert forall|i: int| 0 <= i < offered.len() implies (#[trigger] offered[i]).native || (
    offered[i].address is Some && address::is_address(offered[i].address->0)) by {
        if i > 0 {
            assert(offered[i] == tokens[i - 1]);
        }
    }
}

/// One batch reads every balance, and each leg reads its own asset: there are as many legs as
/// assets, each may fail by itself, and the leg of a token asks its contract for the balance of the
/// owner.
pub proof fn law_each_leg_reads_its_own_asset(offered: Seq<AssetView>, owner: Seq<u8>)
    requires
        all_readable(offered),
    ensures
        balance_legs(offered, owner).len() == offered.len(),
        forall|i: int|
            0 <= i < offered.len() ==> #[trigger] balance_legs(offered, owner)[i] == if (
            offered[i].native) {
                (
                    address::address_of(codec::MULTICALL3@),
                    true,
                    codec::native_balance_selector() + codec::address_word(owner),
                )
            } else {
                (
                    address::address_of(offered[i].address->0),
                    true,
                    codec::balance_of_selector() + codec::address_word(owner),
                )
            },
    decreases offered.len(),
{
    if offered.len() > 0 {
        let rest = offered.drop_last();
        assert(offered[offered.len() - 1] == offered.last());
        assert forall|i: int| 0 <= i < rest.len() implies (#[trigger] rest[i]).native || (
        rest[i].address is Some && address::is_address(rest[i].address->0)) by {
            assert(rest[i] == offered[i]);
        }
        law_each_leg_reads_its_own_asset(rest, owner);
        assert(offered.last().native || (offered.last().address is Some && address::is_address(
            offered.last().address->0,
        )));
        assert forall|i: int| 0 <= i < rest.len() implies balance_legs(offered, owner)[i]
            == #[trigger] balance_legs(rest, owner)[i] && rest[i] == offered[i] by {
        }
    }
}

/// The shapes of the keys of replies: no two of them are alike.
proof fn lemma_reply_keys()
    ensures
        "ok"@.len() == 2 && "ok"@[0] == 'o',
        "to"@.len() == 2 && "to"@[0] == 't',
        "from"@.len() == 4 && "from"@[0] == 'f',
        "data"@.len() == 4 && "data"@[0] == 'd',
        "calls"@.len() == 5 && "calls"@[0] == 'c',
        "route"@.len() == 5 && "route"@[0] == 'r',
        "asset"@.len() == 5 && "asset"@[0] == 'a',
        "error"@.len() == 5 && "error"@[0] == 'e',
        "native"@.len() == 6 && "native"@[0] == 'n',
        "symbol"@.len() == 6 && "symbol"@[0] == 's',
        "tokens"@.len() == 6 && "tokens"@[0] == 't',
        "amount"@.len() == 6 && "amount"@[0] == 'a',
        "chainId"@.len() == 7 && "chainId"@[0] == 'c',
        "address"@.len() == 7 && "address"@[0] == 'a',
        "purpose"@.len() == 7 && "purpose"@[0] == 'p',
        "decimals"@.len() == 8 && "decimals"@[0] == 'd',
        "balances"@.len() == 8 && "balances"@[0] == 'b',
        "tokenSort"@.len() == 9 && "tokenSort"@[0] == 't',
        "amountExact"@.len() == 11 && "amountExact"@[0] == 'a',
        "tokenAddress"@.len() == 12 && "tokenAddress"@[0] == 't',
        "nativeSymbol"@.len() == 12 && "nativeSymbol"@[0] == 'n',
        "amountDisplay"@.len() == 13 && "amountDisplay"@[0] == 'a',
{
    reveal_strlit("ok");
    reveal_strlit("to");
    reveal_strlit("from");
    reveal_strlit("data");
    reveal_strlit("calls");
    reveal_strlit("route");
    reveal_strlit("asset");
    reveal_strlit("error");
    reveal_strlit("native");
    reveal_strlit("symbol");
    reveal_strlit("tokens");
    reveal_strlit("amount");
    reveal_strlit("chainId");
    reveal_strlit("address");
    reveal_strlit("purpose");
    reveal_strlit("decimals");
    reveal_strlit("balances");
    reveal_strlit("tokenSort");
    reveal_strlit("amountExact");
    reveal_strlit("tokenAddress");
    reveal_strlit("nativeSymbol");
    reveal_strlit("amountDisplay");
}


/// A balance is read exactly: whatever amount below two to the power 256 an account holds, an answer
/// whose hexadecimal text begins with the 32-byte big-endian word of that amount is read as that
/// very amount.
pub proof fn law_a_held_balance_is_read_exactly(n: nat, rest: Seq<u8>)
    requires
        n < uint::limit(),
    ensures
        held_in(
            JsonView::Text(seq!['0', 'x'] + hextext::hex_text(uint::be_bytes(n, 32) + rest)),
        ) == Ok::<nat, Seq<char>>(n),
{
    let bytes = uint::be_bytes(n, 32) + rest;
    lemma_answer_of(bytes);
    uint::law_words_read_back(n);
    assert(bytes.take(32) =~= uint::be_bytes(n, 32));
}

/// Bytes in hexadecimal behind `0x` are answered as those bytes.
proof fn lemma_answer_of(bytes: Seq<u8>)
    ensures
        answer_bytes(JsonView::Text(seq!['0', 'x'] + hextext::hex_text(bytes))) == Some(bytes),
{
    let h = hextext::hex_text(bytes);
    hextext::law_hex_text_reads_back(bytes);
    text::law_every_0x_is_taken_off(h);
    if h.len() >= 2 {
        assert(0 <= digits::digit_of(h[1]) < 16);
    }
}

/// A balance is the number that the first 64 hexadecimal digits of an answer write, whatever number
/// that is; an answer that is no hexadecimal text of whole bytes, or has fewer digits, holds none.
pub proof fn law_a_balance_is_what_the_first_word_writes(s: Seq<char>)
    ensures
        ({
            let h = text::without_0x(s);
            let bytes = h.len() % 2 == 0 && forall|i: int|
                0 <= i < h.len() ==> 0 <= digits::digit_of(#[trigger] h[i]) < 16;
            &&& bytes && h.len() >= 64 ==> held_in(JsonView::Text(s)) is Ok && held_in(
                JsonView::Text(s),
            )->Ok_0 == digits::numeral_value(h.take(64), 16)
            &&& bytes && h.len() < 64 ==> held_in(JsonView::Text(s)) == Err::<nat, Seq<char>>(
                "token balance response was shorter than uint256"@,
            )
            &&& !bytes ==> held_in(JsonView::Text(s)) == Err::<nat, Seq<char>>(
                "eth_call returned no decodable token balance"@,
            )
        }),
{
    let h = text::without_0x(s);
    if hextext::is_hex(h) {
        hextext::law_hex_digits_are_worth_their_bytes(h);
        if h.len() >= 64 {
            let front = h.take(64);
            assert forall|i: int| 0 <= i < front.len() implies 0 <= digits::digit_of(
                #[trigger] front[i],
            ) < 16 by {
                assert(front[i] == h[i]);
            }
            hextext::law_hex_digits_are_worth_their_bytes(front);
            assert(hextext::unhexed(h).take(32) =~= hextext::unhexed(front));
        }
    }
}

/// What is no text holds no balance.
pub proof fn law_only_texts_hold_balances(v: JsonView)
    requires
        !(v is Text),
    ensures
        held_in(v) is Err,
        balances_in(v) is Err,
{
}

/// The balances of a batch are those of its answers, one for each and in their order: an answer that
/// succeeded with the word of an amount holds that amount, one that failed or came back short none.
pub proof fn law_a_batch_is_read_answer_by_answer(
    data: Seq<u8>,
    answers: Seq<(bool, Seq<u8>)>,
    i: int,
    n: nat,
    rest: Seq<u8>,
)
    requires
        codec::decoded_answers(data) == Some(answers),
        0 <= i < answers.len(),
        n < uint::limit(),
    ensures
        ({
            let r = balances_in(JsonView::Text(seq!['0', 'x'] + hextext::hex_text(data)));
            &&& r is Ok
            &&& r->Ok_0.len() == answers.len()
            &&& answers[i] == (true, uint::be_bytes(n, 32) + rest) ==> r->Ok_0[i] == Some(n)
            &&& !answers[i].0 || answers[i].1.len() < 32 ==> r->Ok_0[i] is None
        }),
{
    lemma_answer_of(data);
    codec::law_a_leg_holds_what_its_first_word_writes(n, rest, answers[i].1);
    codec::law_each_answer_is_read_in_its_place(answers, i);
}

/// The record of a chain is the first in the registry with the number of the chain.
pub proof fn law_a_record_is_the_first_of_its_chain(
    reply: JsonView,
    list: Seq<JsonView>,
    chain_id: u64,
    i: int,
)
    requires
        json::member(reply, "ok"@) == Some(JsonView::Bool(true)),
        json::member(reply, "chains"@) == Some(JsonView::Array(list)),
        0 <= i < list.len(),
        json::member(list[i], "chainId"@) == Some(JsonView::Int(chain_id as int)),
        forall|j: int|
            0 <= j < i ==> json::member(#[trigger] list[j], "chainId"@) != Some(
                JsonView::Int(chain_id as int),
            ),
    ensures
        record_in(reply, chain_id) == Ok::<JsonView, Seq<char>>(list[i]),
{
    lemma_chain_is(list, chain_id, i);
}

proof fn lemma_chain_is(list: Seq<JsonView>, chain_id: u64, i: int)
    requires
        0 <= i < list.len(),
        json::member(list[i], "chainId"@) == Some(JsonView::Int(chain_id as int)),
        forall|j: int|
            0 <= j < i ==> json::member(#[trigger] list[j], "chainId"@) != Some(
                JsonView::Int(chain_id as int),
            ),
    ensures
        chain_in(list, chain_id) == Some(list[i]),
    decreases list.len(),
{
    if i > 0 {
        let rest = list.drop_first();
        assert(json::member(list[0], "chainId"@) != Some(JsonView::Int(chain_id as int)));
        assert forall|j: int| 0 <= j < i - 1 implies json::member(#[trigger] rest[j], "chainId"@)
            != Some(JsonView::Int(chain_id as int)) by {
            assert(rest[j] == list[j + 1]);
        }
        lemma_chain_is(rest, chain_id, i - 1);
    }
}

/// A chain that the registry does not list is refused by its number, and a reply that does not say
/// that it succeeded is refused as it is.
pub proof fn law_a_chain_that_is_not_listed_is_refused(
    reply: JsonView,
    list: Seq<JsonView>,
    chain_id: u64,
)
    ensures
        json::member(reply, "ok"@) != Some(JsonView::Bool(true)) ==> record_in(reply, chain_id)
            == Err::<JsonView, Seq<char>>(wire::writing(reply)),
        json::member(reply, "ok"@) == Some(JsonView::Bool(true)) && json::member(reply, "chains"@)
            == Some(JsonView::Array(list)) && (forall|j: int|
            0 <= j < list.len() ==> json::member(#[trigger] list[j], "chainId"@) != Some(
                JsonView::Int(chain_id as int),
            )) ==> record_in(reply, chain_id) == Err::<JsonView, Seq<char>>(
            "chain "@ + digits::decimal(chain_id as nat) + " is not configured"@,
        ),
{
    if forall|j: int|
        0 <= j < list.len() ==> json::member(#[trigger] list[j], "chainId"@) != Some(
            JsonView::Int(chain_id as int),
        ) {
        lemma_chain_is_not(list, chain_id);
    }
}

proof fn lemma_chain_is_not(list: Seq<JsonView>, chain_id: u64)
    requires
        forall|j: int|
            0 <= j < list.len() ==> json::member(#[trigger] list[j], "chainId"@) != Some(
                JsonView::Int(chain_id as int),
            ),
    ensures
        chain_in(list, chain_id) is None,
    decreases list.len(),
{
    if list.len() > 0 {
        let rest = list.drop_first();
        assert(json::member(list[0], "chainId"@) != Some(JsonView::Int(chain_id as int)));
        assert forall|j: int| 0 <= j < rest.len() implies json::member(#[trigger] rest[j], "chainId"@)
            != Some(JsonView::Int(chain_id as int)) by {
            assert(rest[j] == list[j + 1]);
        }
        lemma_chain_is_not(rest, chain_id);
    }
}

/// An offer is the native asset of the chain and then the caller's tokens, as they were given.
pub proof fn law_an_offer_is_native_then_the_tokens(record: JsonView, tokens: Seq<AssetView>, i: int)
    ensures
        offer(record, tokens) is Ok <==> assets::chain_asset(record) is Ok,
        offer(record, tokens) matches Ok(list) ==> {
            &&& list.len() == tokens.len() + 1
            &&& list[0] == assets::chain_asset(record)->Ok_0
            &&& 0 <= i < tokens.len() ==> list[i + 1] == tokens[i]
        },
        offer(record, tokens) matches Err(why) ==> assets::chain_asset(record) == Err::<
            AssetView,
            Seq<char>,
        >(why),
{
}

/// A list replies with every offered asset in its place, each saying what it is.
pub proof fn law_a_list_holds_every_asset(chain_id: i64, offered: Seq<AssetView>, i: int)
    requires
        0 <= i < offered.len(),
    ensures
        ({
            let v = list_json(chain_id, offered);
            let rows = json::items_at(v, "tokens"@);
            &&& json::member(v, "ok"@) == Some(JsonView::Bool(true))
            &&& json::member(v, "chainId"@) == Some(JsonView::Int(chain_id as int))
            &&& rows is Some && rows->0.len() == offered.len()
            &&& is_row_of(rows->0[i], offered[i])
        }),
{
    lemma_reply_keys();
    lemma_row_of(offered[i]);
}

/// Whether a row says what an asset is, without its chain.
pub open spec fn is_row_of(row: JsonView, a: AssetView) -> bool {
    &&& json::member(row, "symbol"@) == Some(JsonView::Text(a.symbol))
    &&& json::member(row, "name"@) == Some(JsonView::Text(a.name))
    &&& json::member(row, "decimals"@) == Some(JsonView::Int(a.decimals as int))
    &&& json::member(row, "address"@) == assets::text_if(a.address)
    &&& json::member(row, "native"@) == Some(JsonView::Bool(a.native))
    &&& json::member(row, "builtin"@) == Some(JsonView::Bool(a.builtin))
    &&& json::member(row, "enabled"@) == Some(JsonView::Bool(a.enabled))
    &&& json::member(row, "source"@) == Some(JsonView::Text(a.source))
    &&& json::member(row, "logoURI"@) == assets::text_if(a.logo_uri)
    &&& json::member(row, "symbolUnknown"@) == if a.symbol_unknown {
        Some(JsonView::Bool(true))
    } else {
        None
    }
    &&& json::member(row, "chainId"@) is None
}

proof fn lemma_row_of(a: AssetView)
    ensures
        is_row_of(asset_value(a), a),
{
    assets::law_an_asset_row_says_what_the_asset_is(a, "chainId"@);
    reveal_strlit("chainId");
    reveal_strlit("symbol");
    reveal_strlit("name");
    reveal_strlit("decimals");
    reveal_strlit("address");
    reveal_strlit("native");
    reveal_strlit("builtin");
    reveal_strlit("enabled");
    reveal_strlit("source");
    reveal_strlit("logoURI");
    assert("chainId"@.len() == 7 && "chainId"@[0] == 'c');
    assert("symbol"@.len() == 6 && "name"@.len() == 4 && "decimals"@.len() == 8);
    reveal_strlit("symbolUnknown");
    assert("symbolUnknown"@.len() == 13);
    assert("native"@.len() == 6 && "source"@.len() == 6);
    assert("address"@[0] == 'a' && "builtin"@[0] == 'b' && "enabled"@[0] == 'e' && "logoURI"@[0]
        == 'l');
}

/// A resolution replies with the one asset.
pub proof fn law_a_resolution_holds_the_asset(chain_id: i64, asset: AssetView)
    ensures
        ({
            let v = resolve_json(chain_id, asset);
            &&& json::member(v, "ok"@) == Some(JsonView::Bool(true))
            &&& json::member(v, "chainId"@) == Some(JsonView::Int(chain_id as int))
            &&& json::member(v, "asset"@) is Some
            &&& is_row_of(json::member(v, "asset"@)->0, asset)
        }),
{
    lemma_reply_keys();
    lemma_row_of(asset);
}

/// A balance reply holds the account as it was given, the order by its name, the rows, and the route
/// as far as it is a known one.
pub proof fn law_a_balance_reply_holds_its_rows(
    chain_id: i64,
    account: Seq<char>,
    sort: TokenSort,
    rows: Seq<JsonView>,
    route: Option<Seq<char>>,
)
    ensures
        ({
            let v = balances_json(chain_id, account, sort, rows, route);
            &&& json::member(v, "ok"@) == Some(JsonView::Bool(true))
            &&& json::member(v, "chainId"@) == Some(JsonView::Int(chain_id as int))
            &&& json::member(v, "address"@) == Some(JsonView::Text(account))
            &&& json::member(v, "tokenSort"@) == Some(
                JsonView::Text(
                    if sort is Alpha {
                        "alpha"@
                    } else {
                        "balance"@
                    },
                ),
            )
            &&& json::member(v, "balances"@) == Some(JsonView::Array(rows))
            &&& json::member(v, "route"@) == Some(JsonView::Text(route_text(route)))
        }),
{
    lemma_reply_keys();
}

/// A known route is reported as it is, and everything else as unknown.
pub proof fn law_known_routes_are_reported(route: Option<Seq<char>>)
    ensures
        route == Some("verified"@) || route == Some("proxied"@) || route == Some("direct"@)
            ==> route_text(route) == route->0,
        route is None ==> route_text(route) == "unknown"@,
        route matches Some(s) ==> (s != "verified"@ && s != "proxied"@ && s != "direct"@
            ==> route_text(route) == "unknown"@),
{
}

/// A transfer reply says who sends what to whom: the parties, the asset and the amount, the amount's
/// texts at the asset's own decimals, the one call and its purpose.
pub proof fn law_a_transfer_reply_says_what_is_sent(
    chain_id: i64,
    t: ResolvedView,
    route: Option<Seq<char>>,
)
    ensures
        ({
            let v = transfer_json(chain_id, t, route);
            let raw = digits::decimal(t.amount);
            &&& json::member(v, "ok"@) == Some(JsonView::Bool(true))
            &&& json::member(v, "chainId"@) == Some(JsonView::Int(chain_id as int))
            &&& json::member(v, "from"@) == Some(JsonView::Text(address::checksummed(t.from)))
            &&& json::member(v, "to"@) == Some(JsonView::Text(address::checksummed(t.to)))
            &&& json::member(v, "native"@) == Some(JsonView::Bool(t.asset.native))
            &&& json::member(v, "symbol"@) == Some(JsonView::Text(t.asset.symbol))
            &&& json::member(v, "decimals"@) == Some(JsonView::Int(t.asset.decimals as int))
            &&& json::text_at(v, "tokenAddress"@) == t.asset.address
            &&& json::member(v, "nativeSymbol"@) == Some(JsonView::Text(t.native_symbol))
            &&& json::member(v, "amount"@) == Some(JsonView::Text(raw))
            &&& json::text_at(v, "amountExact"@) == units::exact_text(raw, t.asset.decimals as nat)
            &&& json::text_at(v, "amountDisplay"@) == units::display_text(
                raw,
                t.asset.decimals as nat,
            )
            &&& json::member(v, "calls"@) == Some(JsonView::Array(seq![transfer::call_json(t)]))
            &&& json::member(v, "purpose"@) == Some(JsonView::Text(transfer::purpose_text(t)))
            &&& json::member(v, "route"@) == Some(JsonView::Text(route_text(route)))
        }),
{
    lemma_reply_keys();
}

/// A read of a contract says which contract and which data: nothing else is in it.
pub proof fn law_a_read_says_its_contract_and_data(to: Seq<u8>, data: Seq<u8>, other: Seq<char>)
    ensures
        ({
            let v = contract_call(to, data);
            let s = json::text_at(v, "data"@)->0;
            &&& json::text_at(v, "to"@) == Some(address::checksummed(to))
            &&& json::text_at(v, "data"@) is Some && s.len() >= 2 && s[0] == '0' && s[1] == 'x'
                && hextext::unhexed(s.skip(2)) == data
            &&& json::member(v, other) is Some ==> other == "to"@ || other == "data"@
        }),
{
    lemma_reply_keys();
    reveal_strlit("0x");
    let h = hextext::hex_text(data);
    hextext::law_hex_text_reads_back(data);
    assert(("0x"@ + h).skip(2) =~= h);
    assert(("0x"@ + h)[0] == '0' && ("0x"@ + h)[1] == 'x');
}

/// The data of a token balance: the selector, and the owner at the end of a word.
proof fn lemma_token_data(owner: Seq<u8>)
    requires
        owner.len() == 20,
    ensures
        ({
            let data = codec::balance_of_selector() + codec::address_word(owner);
            &&& data.len() == 36
            &&& data.take(4) == seq![0x70u8, 0xa0, 0x82, 0x31]
            &&& data.skip(16) == owner
        }),
{
    let data = codec::balance_of_selector() + codec::address_word(owner);
    assert(data.take(4) =~= seq![0x70u8, 0xa0, 0x82, 0x31]);
    assert(data.skip(16) =~= owner);
}

/// The data of a batch: the selector, and the legs.
proof fn lemma_batch_data(legs: Seq<u8>)
    ensures
        ({
            let data = codec::aggregate_selector() + legs;
            &&& data.len() >= 4
            &&& data.take(4) == seq![0x82u8, 0xad, 0x56, 0xcb]
            &&& data.skip(4) == legs
        }),
{
    let data = codec::aggregate_selector() + legs;
    assert(data.take(4) =~= seq![0x82u8, 0xad, 0x56, 0xcb]);
    assert(data.skip(4) =~= legs);
}

/// The bytes that a read of a contract hands over.
pub open spec fn data_of(call: JsonView) -> Seq<u8> {
    hextext::unhexed(json::text_at(call, "data"@)->0.skip(2))
}

proof fn lemma_data_of(to: Seq<u8>, data: Seq<u8>)
    ensures
        data_of(contract_call(to, data)) == data,
        json::text_at(contract_call(to, data), "to"@) == Some(address::checksummed(to)),
{
    law_a_read_says_its_contract_and_data(to, data, "to"@);
}

/// The balance of a token is read from that token's contract for that owner.
pub proof fn law_a_token_balance_is_read_from_its_contract(token: Seq<u8>, owner: Seq<u8>)
    requires
        owner.len() == 20,
    ensures
        json::text_at(token_call_json(token, owner), "to"@) == Some(address::checksummed(token)),
        data_of(token_call_json(token, owner)).len() == 36,
        data_of(token_call_json(token, owner)).take(4) == seq![0x70u8, 0xa0, 0x82, 0x31],
        data_of(token_call_json(token, owner)).skip(16) == owner,
{
    let data = codec::balance_of_selector() + codec::address_word(owner);
    lemma_data_of(token, data);
    lemma_token_data(owner);
}

/// Every balance is read in one call of the batch contract.
pub proof fn law_balances_are_read_in_one_batch(offered: Seq<AssetView>, owner: Seq<u8>)
    ensures
        json::text_at(balances_call_json(offered, owner), "to"@) == Some(
            address::checksummed(
                address::address_of("0xcA11bde05977b3631167028862bE2a173976CA11"@),
            ),
        ),
        data_of(balances_call_json(offered, owner)).len() >= 4,
        data_of(balances_call_json(offered, owner)).take(4) == seq![0x82u8, 0xad, 0x56, 0xcb],
        data_of(balances_call_json(offered, owner)).skip(4) == codec::encoded_legs(
            balance_legs(offered, owner),
        ),
{
    let legs = codec::encoded_legs(balance_legs(offered, owner));
    lemma_data_of(
        address::address_of(codec::MULTICALL3@),
        codec::aggregate_selector() + legs,
    );
    lemma_batch_data(legs);
}

/// A refusal says that it is one, and why, and nothing else.
pub proof fn law_a_refusal_says_why(message: Seq<char>, other: Seq<char>)
    ensures
        json::member(refusal(message), "ok"@) == Some(JsonView::Bool(false)),
        json::member(refusal(message), "error"@) == Some(JsonView::Text(message)),
        json::member(refusal(message), other) is Some ==> other == "ok"@ || other == "error"@,
{
    lemma_reply_keys();
}

/// A list and a resolution say nothing but what was asked for.
pub proof fn law_lists_and_resolutions_say_nothing_else(
    chain_id: i64,
    offered: Seq<AssetView>,
    asset: AssetView,
    other: Seq<char>,
)
    ensures
        json::member(list_json(chain_id, offered), other) is Some ==> other == "ok"@ || other
            == "chainId"@ || other == "tokens"@,
        json::member(resolve_json(chain_id, asset), other) is Some ==> other == "ok"@ || other
            == "chainId"@ || other == "asset"@,
{
}

/// A balance reply says nothing but what was asked for.
pub proof fn law_balance_replies_say_nothing_else(
    chain_id: i64,
    account: Seq<char>,
    sort: TokenSort,
    rows: Seq<JsonView>,
    route: Option<Seq<char>>,
    other: Seq<char>,
)
    ensures
        json::member(balances_json(chain_id, account, sort, rows, route), other) is Some ==> other
            == "ok"@ || other == "chainId"@ || other == "address"@ || other == "tokenSort"@
            || other == "balances"@ || other == "route"@,
{
}

/// A transfer reply says nothing but what is sent.
pub proof fn law_transfer_replies_say_nothing_else(
    chain_id: i64,
    t: ResolvedView,
    route: Option<Seq<char>>,
    other: Seq<char>,
)
    ensures
        json::member(transfer_json(chain_id, t, route), other) is Some ==> other == "ok"@ || other
            == "chainId"@ || other == "from"@ || other == "to"@ || other == "native"@ || other
            == "symbol"@ || other == "decimals"@ || other == "tokenAddress"@ || other
            == "nativeSymbol"@ || other == "amount"@ || other == "amountDisplay"@ || other
            == "amountExact"@ || other == "calls"@ || other == "purpose"@ || other == "route"@,
{
}

} // verus!
