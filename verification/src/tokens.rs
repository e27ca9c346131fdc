//! Token descriptors: what a caller names in a request, and what is refused of it.
use std::collections::BTreeMap;
use vstd::prelude::*;
use vstd::string::StringExecFns;

use crate::address;
use crate::address::Address;
use crate::assets;
use crate::assets::{Asset, AssetView};
use crate::digits;
use crate::digits::decimal_text;
use crate::json;
use crate::json::{Json, JsonView};
use crate::text;
use crate::text::{joined, same, trim};
use crate::uint::U256;
use crate::wire;

verus! {

/// Why a token descriptor is refused, where it is: a bad or zero address, an empty symbol, or
/// missing or out-of-range decimals.
pub open spec fn token_fault(row: JsonView) -> Option<Seq<char>> {
    match assets::row_address(row) {
        None => Some("address is missing or invalid"@),
        Some(a) => if address::all_zero(address::address_of(a)) {
            Some("address is zero"@)
        } else if assets::row_symbol(row) is None {
            Some("symbol is missing or empty"@)
        } else if json::byte_at(row, "decimals"@) is None {
            Some("decimals are missing or out of range"@)
        } else {
            None
        },
    }
}

/// The reply that refuses a token descriptor: `error` says which one and why.
pub open spec fn bad_token(error: Seq<char>) -> JsonView {
    let v = JsonView::Object(Map::empty());
    let v = json::put(v, "ok"@, JsonView::Bool(false));
    let v = json::put(v, "code"@, JsonView::Text("bad_token"@));
    json::put(v, "error"@, JsonView::Text(error))
}

/// What is said of the descriptor at `i` of the list `place`.
pub open spec fn fault_text(place: Seq<char>, i: nat, why: Seq<char>) -> Seq<char> {
    place + "["@ + digits::decimal(i) + "]: "@ + why
}

/// Whether a token at the address `bytes` is among `given`.
pub open spec fn is_given(given: Seq<AssetView>, bytes: Seq<u8>) -> bool {
    exists|i: int|
        0 <= i < given.len() && (#[trigger] given[i]).address is Some && address::address_of(
            given[i].address->0,
        ) == bytes
}

/// The tokens that a list of descriptors gives, or the refusal of the first bad one. A repeated
/// address keeps its first occurrence.
pub open spec fn given_tokens(chain_id: u64, rows: Seq<JsonView>, place: Seq<char>) -> Result<
    Seq<AssetView>,
    Seq<char>,
>
    decreases rows.len(),
{
    if rows.len() == 0 {
        Ok(Seq::empty())
    } else {
        match given_tokens(chain_id, rows.drop_last(), place) {
            Err(e) => Err(e),
            Ok(given) => match token_fault(rows.last()) {
                Some(why) => Err(
                    wire::writing(bad_token(fault_text(place, (rows.len() - 1) as nat, why))),
                ),
                None => {
                    let asset = assets::row_asset(chain_id, rows.last())->0;
                    if is_given(given, address::address_of(asset.address->0)) {
                        Ok(given)
                    } else {
                        Ok(given.push(asset))
                    }
                },
            },
        }
    }
}

/// What is said of the first bad descriptor of the list `place`.
pub open spec fn first_fault(rows: Seq<JsonView>, place: Seq<char>) -> Option<Seq<char>>
    decreases rows.len(),
{
    if rows.len() == 0 {
        None
    } else {
        match first_fault(rows.drop_last(), place) {
            Some(said) => Some(said),
            None => match token_fault(rows.last()) {
                Some(why) => Some(fault_text(place, (rows.len() - 1) as nat, why)),
                None => None,
            },
        }
    }
}

/// Whether the refusal of a bad descriptor of the list `place`, where there is one, reads back as
/// the `bad_token` object.
pub open spec fn fault_reads_back(rows: Seq<JsonView>, place: Seq<char>) -> bool {
    first_fault(rows, place) matches Some(said) ==> wire::reads_back(bad_token(said))
}

/// Descriptors are refused for their first fault and for nothing else.
pub proof fn law_refused_for_the_first_fault(chain_id: u64, rows: Seq<JsonView>, place: Seq<char>)
    ensures
        match first_fault(rows, place) {
            Some(said) => given_tokens(chain_id, rows, place) == Err::<Seq<AssetView>, Seq<char>>(
                wire::writing(bad_token(said)),
            ),
            None => given_tokens(chain_id, rows, place) is Ok,
        },
    decreases rows.len(),
{
    if rows.len() > 0 {
        law_refused_for_the_first_fault(chain_id, rows.drop_last(), place);
    }
}

/// What is said of the first bad descriptor in a text.
pub open spec fn text_fault(s: Seq<char>) -> Option<Seq<char>> {
    if s == ""@ || wire::reading(s) is Err {
        None
    } else {
        match json::as_items(wire::reading(s)->Ok_0) {
            Some(rows) => first_fault(rows, "tokens"@),
            None => None,
        }
    }
}

/// The tokens that a text gives: an empty one gives none, a JSON list its descriptors.
pub open spec fn text_tokens(chain_id: u64, s: Seq<char>) -> Result<Seq<AssetView>, Seq<char>> {
    if s == ""@ {
        Ok(Seq::empty())
    } else {
        match wire::reading(s) {
            Err(e) => Err("invalid tokens: "@ + e),
            Ok(v) => match json::as_items(v) {
                None => Err("tokens must be a JSON array"@),
                Some(rows) => given_tokens(chain_id, rows, "tokens"@),
            },
        }
    }
}

/// The list of descriptors that stands under a chain, as it is called in a refusal.
pub open spec fn chain_place(key: Seq<char>) -> Seq<char> {
    "tokens[\""@ + key + "\"]"@
}

/// The chain that `key` names: a machine word in decimal.
pub open spec fn is_chain_key(key: Seq<char>, chain: u64) -> bool {
    key == digits::decimal(chain as nat)
}

/// What one member of a map of tokens by chain comes to.
pub open spec fn chain_tokens(key: Seq<char>, value: JsonView) -> Result<
    (u64, Seq<AssetView>),
    Seq<char>,
> {
    if !exists|chain: u64| is_chain_key(key, chain) {
        Err(chain_place(key) + " names no chain id"@)
    } else {
        let chain = choose|chain: u64| is_chain_key(key, chain);
        match json::as_items(value) {
            None => Err(chain_place(key) + " must be a JSON array"@),
            Some(rows) => match given_tokens(chain, rows, chain_place(key)) {
                Ok(given) => Ok((chain, given)),
                Err(e) => Err(e),
            },
        }
    }
}

/// Whether the refusal of a bad descriptor in a member of a map of tokens by chain, where there is
/// one, reads back as the `bad_token` object.
pub open spec fn member_reads_back(key: Seq<char>, value: JsonView) -> bool {
    json::as_items(value) matches Some(rows) ==> ((exists|chain: u64| is_chain_key(key, chain))
        ==> fault_reads_back(rows, chain_place(key)))
}

/// Whether every member of `v` gives the tokens of a chain.
pub open spec fn all_fine(v: JsonView) -> bool {
    forall|key: Seq<char>|
        #![trigger json::member(v, key)]
        json::member(v, key) is Some ==> chain_tokens(key, json::member(v, key)->0) is Ok
}

/// What the members of `v` give, each under its own chain.
pub open spec fn by_chain(v: JsonView) -> Map<u64, Seq<AssetView>> {
    Map::new(
        |chain: u64| json::member(v, digits::decimal(chain as nat)) is Some,
        |chain: u64|
            chain_tokens(
                digits::decimal(chain as nat),
                json::member(v, digits::decimal(chain as nat))->0,
            )->Ok_0.1,
    )
}

/// The tokens of each chain, as they are.
pub open spec fn table_views(given: Map<u64, Vec<Asset>>) -> Map<u64, Seq<AssetView>> {
    given.map_values(|list: Vec<Asset>| assets::views(list@))
}

/// Whether `why` is what a member of `v` is refused with, and reads back where it is the refusal
/// of a bad descriptor.
pub open spec fn refused_by_chain(v: JsonView, why: Seq<char>) -> bool {
    exists|key: Seq<char>|
        {
            &&& json::member(v, key) is Some
            &&& #[trigger] chain_tokens(key, json::member(v, key)->0) == Err::<
                (u64, Seq<AssetView>),
                Seq<char>,
            >(why)
            &&& member_reads_back(key, json::member(v, key)->0)
        }
}

/// The refusal of a token descriptor is a structured one, with whole numbers only.
pub proof fn lemma_bad_token(error: Seq<char>)
    ensures
        json::plain(bad_token(error), wire::DEPTH as nat),
        json::truth_at(bad_token(error), "ok"@) == Some(false),
{
    reveal_strlit("ok");
    reveal_strlit("code");
    reveal_strlit("error");
    assert("ok"@.len() == 2 && "code"@.len() == 4 && "error"@.len() == 5);
    let n = wire::DEPTH as nat;
    let v = JsonView::Object(Map::empty());
    json::lemma_plain_empty(n);
    json::lemma_plain_put(v, "ok"@, JsonView::Bool(false), n);
    let v = json::put(v, "ok"@, JsonView::Bool(false));
    json::lemma_plain_put(v, "code"@, JsonView::Text("bad_token"@), n);
    let v = json::put(v, "code"@, JsonView::Text("bad_token"@));
    json::lemma_plain_put(v, "error"@, JsonView::Text(error), n);
}

/// The refusal of a token descriptor.
fn refuse(error: &str) -> (r: String)
    ensures
        r@ == wire::writing(bad_token(error@)),
        wire::reads_back(bad_token(error@)),
{
    proof {
        lemma_bad_token(error@);
    }
    let mut v = Json::object();
    v.set("ok", Json::Bool(false));
    v.set("code", Json::text("bad_token"));
    v.set("error", Json::text(error));
    v.to_text()
}

/// Why a token descriptor is refused, or the address that it names.
fn check_token(row: &Json) -> (r: Result<Address, &'static str>)
    ensures
        match token_fault(row@) {
            Some(why) => r matches Err(e) && e@ == why,
            None => r matches Ok(a) && assets::row_address(row@) is Some && a@
                == address::address_of(assets::row_address(row@)->0),
        },
{
    let found = match row.get_str("address") {
        Some(s) => Address::parse(trim(s)),
        None => return Err("address is missing or invalid"),
    };
    let address = match found {
        Ok(a) => a,
        Err(_) => return Err("address is missing or invalid"),
    };
    if address.is_zero() {
        return Err("address is zero");
    }
    let named = match row.get_str("symbol") {
        Some(s) => trim(s).unicode_len() > 0,
        None => false,
    };
    if !named {
        return Err("symbol is missing or empty");
    }
    match row.get_u8("decimals") {
        Some(_) => Ok(address),
        None => Err("decimals are missing or out of range"),
    }
}

/// Whether `address` is among `seen`.
fn is_seen(seen: &Vec<Address>, address: &Address) -> (r: bool)
    ensures
        r == exists|i: int| 0 <= i < seen.len() && (#[trigger] seen[i])@ == address@,
{
    let mut i: usize = 0;
    while i < seen.len()
        invariant
            i <= seen.len(),
            forall|j: int| 0 <= j < i ==> (#[trigger] seen[j])@ != address@,
        decreases seen.len() - i,
    {
        if seen[i].same_as(address) {
            return true;
        }
        i = i + 1;
    }
    false
}

/// An error among the first descriptors is the error of all.
proof fn lemma_refused_prefix(chain_id: u64, rows: Seq<JsonView>, place: Seq<char>, n: int)
    requires
        0 <= n <= rows.len(),
        given_tokens(chain_id, rows.take(n), place) is Err,
    ensures
        given_tokens(chain_id, rows, place) == given_tokens(chain_id, rows.take(n), place),
    decreases rows.len(),
{
    if n < rows.len() {
        assert(rows.drop_last().take(n) =~= rows.take(n));
        lemma_refused_prefix(chain_id, rows.drop_last(), place, n);
    } else {
        assert(rows.take(n) =~= rows);
    }
}

/// The first fault among the first descriptors is the first of all.
proof fn lemma_fault_prefix(rows: Seq<JsonView>, place: Seq<char>, n: int)
    requires
        0 <= n <= rows.len(),
        first_fault(rows.take(n), place) is Some,
    ensures
        first_fault(rows, place) == first_fault(rows.take(n), place),
    decreases rows.len(),
{
    if n < rows.len() {
        assert(rows.drop_last().take(n) =~= rows.take(n));
        lemma_fault_prefix(rows.drop_last(), place, n);
    } else {
        assert(rows.take(n) =~= rows);
    }
}

/// The tokens that the descriptors of the list `place` give.
fn read_tokens(chain_id: u64, rows: &[Json], place: &str) -> (r: Result<Vec<Asset>, String>)
    ensures
        match given_tokens(chain_id, json::trees(rows@), place@) {
            Ok(given) => r matches Ok(v) && assets::views(v@) == given,
            Err(why) => r matches Err(e) && e@ == why,
        },
        fault_reads_back(json::trees(rows@), place@),
{
    let ghost all = json::trees(rows@);
    proof {
        law_refused_for_the_first_fault(chain_id, all, place@);
    }
    let mut given: Vec<Asset> = Vec::new();
    let mut seen: Vec<Address> = Vec::new();
    let mut i: usize = 0;
    assert(assets::views(given@) =~= Seq::empty());
    while i < rows.len()
        invariant
            i <= rows.len(),
            all == json::trees(rows@),
            given_tokens(chain_id, all.take(i as int), place@) == Ok::<Seq<AssetView>, Seq<char>>(
                assets::views(given@),
            ),
            seen.len() == given.len(),
            forall|k: int|
                0 <= k < given.len() ==> (#[trigger] given[k])@.address is Some && seen[k]@
                    == address::address_of(given[k]@.address->0),
        decreases rows.len() - i,
    {
        let ghost next = all.take(i + 1);
        proof {
            assert(next.drop_last() =~= all.take(i as int));
            assert(next.last() == rows@[i as int]@);
        }
        match check_token(&rows[i]) {
            Err(why) => {
                let mut error = joined(place, "[");
                error.append(decimal_text(i as u64).as_str());
                error.append("]: ");
                error.append(why);
                proof {
                    lemma_refused_prefix(chain_id, all, place@, i + 1);
                    law_refused_for_the_first_fault(chain_id, all.take(i as int), place@);
                    lemma_fault_prefix(all, place@, i + 1);
                }
                return Err(refuse(error.as_str()));
            },
            Ok(address) => {
                let known = is_seen(&seen, &address);
                proof {
                    let bytes = address@;
                    let views = assets::views(given@);
                    if known {
                        let k = choose|k: int| 0 <= k < seen.len() && (#[trigger] seen[k])@ == bytes;
                        assert(given[k]@.address is Some);
                        assert(views[k].address is Some);
                    }
                    if is_given(views, bytes) {
                        let k = choose|k: int|
                            0 <= k < views.len() && (#[trigger] views[k]).address is Some
                                && address::address_of(views[k].address->0) == bytes;
                        assert(given[k]@.address is Some);
                        assert(seen[k]@ == bytes);
                    }
                }
                if !known {
                    match Asset::from_token_row(chain_id, &rows[i]) {
                        Some(asset) => {
                            assert(assets::views(given@.push(asset)) =~= assets::views(
                                given@,
                            ).push(asset@));
                            given.push(asset);
                            seen.push(address);
                        },
                        None => {
                            assert(false);
                        },
                    }
                }
            },
        }
        i = i + 1;
    }
    assert(all.take(all.len() as int) =~= all);
    Ok(given)
}

/// The tokens that the descriptors of a request give on chain `chain_id`.
pub fn tokens(chain_id: u64, rows: &[Json]) -> (r: Result<Vec<Asset>, String>)
    ensures
        match given_tokens(chain_id, json::trees(rows@), "tokens"@) {
            Ok(given) => r matches Ok(v) && assets::views(v@) == given,
            Err(why) => r matches Err(e) && e@ == why,
        },
        fault_reads_back(json::trees(rows@), "tokens"@),
{
    read_tokens(chain_id, rows, "tokens")
}

/// The tokens that a JSON list of descriptors gives on chain `chain_id`; an empty text gives none.
pub fn parse_tokens(chain_id: u64, tokens_json: &str) -> (r: Result<Vec<Asset>, String>)
    ensures
        match text_tokens(chain_id, tokens_json@) {
            Ok(given) => r matches Ok(v) && assets::views(v@) == given,
            Err(why) => r matches Err(e) && e@ == why,
        },
        text_fault(tokens_json@) matches Some(said) ==> wire::reads_back(bad_token(said)),
{
    if same(tokens_json, "") {
        let none: Vec<Asset> = Vec::new();
        assert(assets::views(none@) =~= Seq::empty());
        return Ok(none);
    }
    match Json::parse(tokens_json) {
        Err(e) => Err(joined("invalid tokens: ", e.as_str())),
        Ok(v) => match v.as_array() {
            None => Err("tokens must be a JSON array".to_owned()),
            Some(rows) => tokens(chain_id, rows.as_slice()),
        },
    }
}

/// The tokens that a text gives by chain: an empty one gives none, a JSON object those of its
/// members.
pub open spec fn text_by_chain(s: Seq<char>) -> Result<JsonView, Seq<char>> {
    if s == ""@ {
        Ok(JsonView::Object(Map::empty()))
    } else {
        match wire::reading(s) {
            Err(e) => Err("invalid tokens: "@ + e),
            Ok(v) => if v is Object {
                Ok(v)
            } else {
                Err("tokens must be a JSON object"@)
            },
        }
    }
}

/// A key names one chain.
proof fn lemma_chain_key(key: Seq<char>, chain: u64)
    requires
        is_chain_key(key, chain),
    ensures
        (choose|c: u64| is_chain_key(key, c)) == chain,
{
    let c = choose|c: u64| is_chain_key(key, c);
    digits::lemma_value_injective_of_decimal(c as nat, chain as nat);
}

/// The chain that `key` names.
fn chain_of(key: &str) -> (r: Option<u64>)
    ensures
        match r {
            Some(chain) => is_chain_key(key@, chain),
            None => !exists|chain: u64| is_chain_key(key@, chain),
        },
{
    let found = U256::from_str_radix(key, 10);
    proof {
        if exists|chain: u64| is_chain_key(key@, chain) {
            let chain = choose|chain: u64| is_chain_key(key@, chain);
            digits::lemma_decimal(chain as nat);
            assert forall|i: int| 0 <= i < key@.len() implies #[trigger] key@[i] == '_' || 0
                <= digits::digit_of(key@[i]) < 10 by {
                assert(digits::is_digit(key@[i]));
            }
        }
    }
    match found {
        Some(n) => if n.w1 == 0 && n.w2 == 0 && n.w3 == 0 && same(
            decimal_text(n.w0).as_str(),
            key,
        ) {
            Some(n.w0)
        } else {
            None
        },
        None => None,
    }
}

/// What one member of a map of tokens by chain comes to.
fn read_chain(key: &str, value: &Json) -> (r: Result<(u64, Vec<Asset>), String>)
    ensures
        match r {
            Ok((chain, given)) => is_chain_key(key@, chain) && chain_tokens(key@, value@) == Ok::<
                (u64, Seq<AssetView>),
                Seq<char>,
            >((chain, assets::views(given@))),
            Err(e) => chain_tokens(key@, value@) == Err::<(u64, Seq<AssetView>), Seq<char>>(e@),
        },
        member_reads_back(key@, value@),
{
    let mut place = joined("tokens[\"", key);
    place.append("\"]");
    let chain = match chain_of(key) {
        Some(chain) => chain,
        None => {
            place.append(" names no chain id");
            return Err(place);
        },
    };
    proof {
        lemma_chain_key(key@, chain);
    }
    match value.as_array() {
        None => {
            place.append(" must be a JSON array");
            Err(place)
        },
        Some(rows) => match read_tokens(chain, rows.as_slice(), place.as_str()) {
            Ok(given) => Ok((chain, given)),
            Err(e) => Err(e),
        },
    }
}

/// The tokens that the members of a JSON object give, each list of descriptors under its own
/// chain. Where several members are refused, the refusal of one of them comes back.
pub fn tokens_by_chain(v: &Json) -> (r: Result<BTreeMap<u64, Vec<Asset>>, String>)
    requires
        v@ is Object,
    ensures
        match r {
            Ok(given) => all_fine(v@) && table_views(given@) == by_chain(v@),
            Err(e) => refused_by_chain(v@, e@),
        },
{
    let keys = v.keys();
    let mut given: BTreeMap<u64, Vec<Asset>> = BTreeMap::new();
    let mut i: usize = 0;
    while i < keys.len()
        invariant
            i <= keys.len(),
            forall|key: Seq<char>|
                json::member(v@, key) is Some <==> exists|k: int|
                    0 <= k < keys.len() && keys[k]@ == key,
            forall|chain: u64| #[trigger]
                given@.contains_key(chain) ==> exists|k: int|
                    0 <= k < i && is_chain_key(keys[k]@, chain),
            forall|k: int, chain: u64|
                0 <= k < i && #[trigger] is_chain_key(keys[k]@, chain) ==> given@.contains_key(
                    chain,
                ),
            forall|chain: u64| #[trigger]
                given@.contains_key(chain) ==> chain_tokens(
                    digits::decimal(chain as nat),
                    json::member(v@, digits::decimal(chain as nat))->0,
                ) == Ok::<(u64, Seq<AssetView>), Seq<char>>(
                    (chain, assets::views(given@[chain]@)),
                ),
            forall|k: int|
                0 <= k < i ==> chain_tokens(
                    (#[trigger] keys[k])@,
                    json::member(v@, keys[k]@)->0,
                ) is Ok,
        decreases keys.len() - i,
    {
        let key = keys[i].as_str();
        match v.get(key) {
            Some(value) => match read_chain(key, value) {
                Ok((chain, list)) => {
                    let ghost before = given@;
                    given.insert(chain, list);
                    assert forall|k: int, c: u64|
                        0 <= k < i + 1 && #[trigger] is_chain_key(
                            keys[k]@,
                            c,
                        ) implies given@.contains_key(c) by {
                        if k == i {
                            digits::lemma_value_injective_of_decimal(c as nat, chain as nat);
                        } else {
                            assert(before.contains_key(c));
                        }
                    }
                    assert forall|c: u64| #[trigger] given@.contains_key(c) implies exists|k: int|
                        0 <= k < i + 1 && is_chain_key(keys[k]@, c) by {
                        if c == chain {
                            assert(is_chain_key(keys[i as int]@, c));
                        } else {
                            assert(before.contains_key(c));
                        }
                    }
                },
                Err(e) => {
                    return Err(e);
                },
            },
            None => {
                assert(false);
            },
        }
        i = i + 1;
    }
    proof {
        assert forall|chain: u64|
            #![trigger given@.contains_key(chain)]
            given@.contains_key(chain) <==> json::member(
                v@,
                digits::decimal(chain as nat),
            ) is Some by {
            if json::member(v@, digits::decimal(chain as nat)) is Some {
                let k = choose|k: int|
                    0 <= k < keys.len() && keys[k]@ == digits::decimal(chain as nat);
                assert(is_chain_key(keys[k]@, chain));
            }
        }
        assert(table_views(given@) =~= by_chain(v@));
    }
    Ok(given)
}

/// The tokens that the text of a JSON object of lists of descriptors gives, each list under its
/// own chain; an empty text gives none.
pub fn parse_tokens_by_chain(tokens_json: &str) -> (r: Result<BTreeMap<u64, Vec<Asset>>, String>)
    ensures
        match text_by_chain(tokens_json@) {
            Err(why) => r matches Err(e) && e@ == why,
            Ok(v) => match r {
                Ok(given) => all_fine(v) && table_views(given@) == by_chain(v),
                Err(e) => refused_by_chain(v, e@),
            },
        },
{
    let v = if same(tokens_json, "") {
        Json::object()
    } else {
        match Json::parse(tokens_json) {
            Err(e) => return Err(joined("invalid tokens: ", e.as_str())),
            Ok(v) => v,
        }
    };
    if !v.is_object() {
        return Err("tokens must be a JSON object".to_owned());
    }
    tokens_by_chain(&v)
}

/// Whether every asset of a list is a token at an address, and not the zero address.
pub open spec fn are_tokens(list: Seq<AssetView>) -> bool {
    forall|i: int|
        0 <= i < list.len() ==> {
            &&& !(#[trigger] list[i]).native
            &&& list[i].address is Some
            &&& address::is_address(list[i].address->0)
            &&& !address::all_zero(address::address_of(list[i].address->0))
            &&& list[i].symbol.len() > 0
        }
}

/// Descriptors give nothing but tokens with a symbol at an address that is not zero, and each
/// address once.
pub proof fn law_given_tokens_are_sound(chain_id: u64, rows: Seq<JsonView>, place: Seq<char>)
    requires
        given_tokens(chain_id, rows, place) is Ok,
    ensures
        are_tokens(given_tokens(chain_id, rows, place)->Ok_0),
        forall|i: int, j: int|
            0 <= i < j < given_tokens(chain_id, rows, place)->Ok_0.len() ==> address::address_of(
                (#[trigger] given_tokens(chain_id, rows, place)->Ok_0[i]).address->0,
            ) != address::address_of(
                (#[trigger] given_tokens(chain_id, rows, place)->Ok_0[j]).address->0,
            ),
        forall|i: int|
            0 <= i < given_tokens(chain_id, rows, place)->Ok_0.len() ==> (
            #[trigger] given_tokens(chain_id, rows, place)->Ok_0[i]).chain_id == chain_id,
    decreases rows.len(),
{
    if rows.len() > 0 {
        law_given_tokens_are_sound(chain_id, rows.drop_last(), place);
    }
}

/// Descriptors are refused where one of them is bad, and the first bad one is what the refusal
/// names.
pub proof fn law_the_first_bad_token_is_named(
    chain_id: u64,
    rows: Seq<JsonView>,
    place: Seq<char>,
    bad: int,
)
    requires
        0 <= bad < rows.len(),
        token_fault(rows[bad]) is Some,
        forall|i: int| 0 <= i < bad ==> token_fault(#[trigger] rows[i]) is None,
    ensures
        given_tokens(chain_id, rows, place) == Err::<Seq<AssetView>, Seq<char>>(
            wire::writing(bad_token(fault_text(place, bad as nat, token_fault(rows[bad])->0))),
        ),
    decreases rows.len(),
{
    let rest = rows.drop_last();
    if bad < rest.len() {
        law_the_first_bad_token_is_named(chain_id, rest, place, bad);
    } else {
        lemma_all_good(chain_id, rest, place);
    }
}

/// Descriptors without a fault are not refused.
proof fn lemma_all_good(chain_id: u64, rows: Seq<JsonView>, place: Seq<char>)
    requires
        forall|i: int| 0 <= i < rows.len() ==> token_fault(#[trigger] rows[i]) is None,
    ensures
        given_tokens(chain_id, rows, place) is Ok,
    decreases rows.len(),
{
    if rows.len() > 0 {
        assert(token_fault(rows[rows.len() - 1]) is None);
        lemma_all_good(chain_id, rows.drop_last(), place);
    }
}

/// A repeated address keeps its first occurrence: a descriptor without a fault whose address no
/// earlier one has is given as it is, and one whose address is already given adds nothing.
pub proof fn law_a_repeated_address_keeps_the_first(
    chain_id: u64,
    rows: Seq<JsonView>,
    row: JsonView,
    place: Seq<char>,
)
    requires
        given_tokens(chain_id, rows, place) is Ok,
        token_fault(row) is None,
    ensures
        ({
            let before = given_tokens(chain_id, rows, place)->Ok_0;
            let asset = assets::row_asset(chain_id, row)->0;
            let after = given_tokens(chain_id, rows.push(row), place);
            &&& assets::row_asset(chain_id, row) is Some
            &&& after is Ok
            &&& after->Ok_0 == if is_given(before, address::address_of(asset.address->0)) {
                before
            } else {
                before.push(asset)
            }
        }),
{
    assert(rows.push(row).drop_last() =~= rows);
}

/// A row is a token unless it is at fault: what is refused as a descriptor is no token row, and
/// nothing else is refused.
pub proof fn law_a_row_is_a_token_unless_at_fault(chain_id: u64, row: JsonView)
    ensures
        assets::row_asset(chain_id, row) is Some <==> token_fault(row) is None,
{
}

/// The refusal of a bad descriptor is relayed as the `bad_token` object that it is.
pub proof fn law_bad_tokens_are_structured_refusals(said: Seq<char>, other: Seq<char>)
    ensures
        json::member(bad_token(said), other) is Some ==> other == "ok"@ || other == "code"@ || other
            == "error"@,
        json::truth_at(bad_token(said), "ok"@) == Some(false),
        json::text_at(bad_token(said), "code"@) == Some("bad_token"@),
        json::text_at(bad_token(said), "error"@) == Some(said),
{
    lemma_bad_token(said);
    reveal_strlit("ok");
    reveal_strlit("code");
    reveal_strlit("error");
    assert("ok"@.len() == 2 && "code"@.len() == 4 && "error"@.len() == 5);
}

/// What is wrong with a descriptor is said in its order: its address, whether that is zero, its
/// symbol, its decimals.
pub proof fn law_each_fault_is_named(row: JsonView)
    ensures
        ({
            let s = json::text_at(row, "address"@);
            let written = s is Some && address::is_address(text::trimmed(s->0));
            let zero = written && forall|i: int|
                0 <= i < address::address_of(text::trimmed(s->0)).len()
                    ==> #[trigger] address::address_of(text::trimmed(s->0))[i] == 0;
            let symbol = json::text_at(row, "symbol"@);
            let named = symbol is Some && text::trimmed(symbol->0).len() > 0;
            let decimals = json::byte_at(row, "decimals"@) is Some;
            &&& !written ==> token_fault(row) == Some("address is missing or invalid"@)
            &&& written && zero ==> token_fault(row) == Some("address is zero"@)
            &&& written && !zero && !named ==> token_fault(row) == Some(
                "symbol is missing or empty"@,
            )
            &&& written && !zero && named && !decimals ==> token_fault(row) == Some(
                "decimals are missing or out of range"@,
            )
            &&& written && !zero && named && decimals ==> token_fault(row) is None
        }),
{
}

/// A fault is named by the list and by the number of the descriptor in it.
pub proof fn law_a_fault_names_its_place(place: Seq<char>, i: nat, why: Seq<char>)
    ensures
        fault_text(place, i, why) == place.push('[') + digits::decimal(i) + seq![']', ':', ' ']
            + why,
{
    reveal_strlit("[");
    reveal_strlit("]: ");
    assert("]: "@ =~= seq![']', ':', ' ']);
    assert(place + "["@ =~= place.push('['));
}

/// Descriptors are taken in turn: none give no token, and one more without a fault adds the token
/// that it describes behind the others, unless a token at its address is there already, which then
/// stays as it is.
pub proof fn law_descriptors_are_taken_in_turn(
    chain_id: u64,
    rows: Seq<JsonView>,
    row: JsonView,
    place: Seq<char>,
)
    requires
        given_tokens(chain_id, rows, place) is Ok,
        assets::row_asset(chain_id, row) is Some,
    ensures
        given_tokens(chain_id, Seq::empty(), place) == Ok::<Seq<AssetView>, Seq<char>>(Seq::empty()),
        ({
            let before = given_tokens(chain_id, rows, place)->Ok_0;
            let asset = assets::row_asset(chain_id, row)->0;
            let there = exists|i: int|
                0 <= i < before.len() && (#[trigger] before[i]).address is Some
                    && address::address_of(before[i].address->0) == address::address_of(
                    asset.address->0,
                );
            &&& there ==> given_tokens(chain_id, rows.push(row), place) == Ok::<
                Seq<AssetView>,
                Seq<char>,
            >(before)
            &&& !there ==> given_tokens(chain_id, rows.push(row), place) == Ok::<
                Seq<AssetView>,
                Seq<char>,
            >(before.push(asset))
        }),
{
    law_a_row_is_a_token_unless_at_fault(chain_id, row);
    law_a_repeated_address_keeps_the_first(chain_id, rows, row, place);
}

/// A text of descriptors gives what they give: nothing gives no token, a list those of its items,
/// and anything else is refused.
pub proof fn law_a_text_gives_what_its_descriptors_give(chain_id: u64, s: Seq<char>)
    ensures
        s.len() == 0 ==> text_tokens(chain_id, s) == Ok::<Seq<AssetView>, Seq<char>>(Seq::empty()),
        s.len() > 0 ==> match wire::reading(s) {
            Ok(JsonView::Array(rows)) => text_tokens(chain_id, s) == given_tokens(
                chain_id,
                rows,
                "tokens"@,
            ),
            _ => text_tokens(chain_id, s) is Err,
        },
{
    reveal_strlit("");
    if s.len() == 0 {
        assert(s =~= ""@);
    }
}

/// Each chain gets the tokens of its own list: what is given for a chain is what the list under its
/// number gives, and a chain whose number is no key has no entry.
pub proof fn law_each_chain_gets_its_own_list(m: Map<Seq<char>, JsonView>, chain: u64)
    requires
        all_fine(JsonView::Object(m)),
    ensures
        by_chain(JsonView::Object(m)).contains_key(chain) <==> m.contains_key(
            digits::decimal(chain as nat),
        ),
        m.contains_key(digits::decimal(chain as nat)) ==> {
            let list = m[digits::decimal(chain as nat)];
            &&& list is Array
            &&& given_tokens(
                chain,
                list->Array_0,
                seq!['t', 'o', 'k', 'e', 'n', 's', '[', '"'] + digits::decimal(chain as nat)
                    + seq!['"', ']'],
            ) == Ok::<Seq<AssetView>, Seq<char>>(by_chain(JsonView::Object(m))[chain])
        },
{
    let v = JsonView::Object(m);
    let key = digits::decimal(chain as nat);
    if m.contains_key(key) {
        assert(json::member(v, key) is Some);
        assert(is_chain_key(key, chain));
        lemma_chain_key(key, chain);
        reveal_strlit("tokens[\"");
        reveal_strlit("\"]");
        assert("tokens[\""@ =~= seq!['t', 'o', 'k', 'e', 'n', 's', '[', '"']);
        assert("\"]"@ =~= seq!['"', ']']);
    }
}

/// A list by chain is fine where each of its keys is the number of a chain and each of its lists has
/// no bad descriptor.
pub proof fn law_what_is_fine_by_chain(m: Map<Seq<char>, JsonView>)
    ensures
        all_fine(JsonView::Object(m)) <==> forall|key: Seq<char>| #[trigger]
            m.contains_key(key) ==> {
                &&& exists|chain: u64| key == #[trigger] digits::decimal(chain as nat)
                &&& m[key] is Array
                &&& first_fault(m[key]->Array_0, chain_place(key)) is None
            },
{
    let v = JsonView::Object(m);
    assert forall|key: Seq<char>| m.contains_key(key) implies (chain_tokens(
        key,
        #[trigger] m[key],
    ) is Ok <==> {
        &&& exists|chain: u64| key == #[trigger] digits::decimal(chain as nat)
        &&& m[key] is Array
        &&& first_fault(m[key]->Array_0, chain_place(key)) is None
    }) by {
        if exists|chain: u64| key == #[trigger] digits::decimal(chain as nat) {
            let chain = choose|chain: u64| key == #[trigger] digits::decimal(chain as nat);
            assert(is_chain_key(key, chain));
            lemma_chain_key(key, chain);
            if m[key] is Array {
                law_refused_for_the_first_fault(chain, m[key]->Array_0, chain_place(key));
            }
        } else if exists|chain: u64| is_chain_key(key, chain) {
            let chain = choose|chain: u64| is_chain_key(key, chain);
            assert(key == digits::decimal(chain as nat));
        }
    }
    if all_fine(v) {
        assert forall|key: Seq<char>| #[trigger] m.contains_key(key) implies {
            &&& exists|chain: u64| key == #[trigger] digits::decimal(chain as nat)
            &&& m[key] is Array
            &&& first_fault(m[key]->Array_0, chain_place(key)) is None
        } by {
            assert(json::member(v, key) == Some(m[key]));
            assert(chain_tokens(key, m[key]) is Ok);
        }
    }
    if forall|key: Seq<char>| #[trigger]
        m.contains_key(key) ==> {
            &&& exists|chain: u64| key == #[trigger] digits::decimal(chain as nat)
            &&& m[key] is Array
            &&& first_fault(m[key]->Array_0, chain_place(key)) is None
        } {
        assert forall|key: Seq<char>| json::member(v, key) is Some implies chain_tokens(
            key,
            (#[trigger] json::member(v, key))->0,
        ) is Ok by {
            assert(m.contains_key(key));
            assert(chain_tokens(key, m[key]) is Ok);
        }
    }
}

/// A text by chain is the object that it reads as, an empty one an object with nothing in it, and
/// anything else is refused.
pub proof fn law_a_text_by_chain_is_its_object(s: Seq<char>)
    ensures
        s.len() == 0 ==> text_by_chain(s) == Ok::<JsonView, Seq<char>>(
            JsonView::Object(Map::empty()),
        ),
        s.len() > 0 ==> match wire::reading(s) {
            Ok(v) => if v is Object {
                text_by_chain(s) == Ok::<JsonView, Seq<char>>(v)
            } else {
                text_by_chain(s) == Err::<JsonView, Seq<char>>("tokens must be a JSON object"@)
            },
            Err(e) => text_by_chain(s) == Err::<JsonView, Seq<char>>("invalid tokens: "@ + e),
        },
{
    reveal_strlit("");
    if s.len() == 0 {
        assert(s =~= ""@);
    }
}

/// A member by chain is refused for its key, for not being a list, or for its first bad descriptor,
/// each by the key.
pub proof fn law_a_member_by_chain_is_refused_by_its_key(key: Seq<char>, value: JsonView)
    ensures
        ({
            let place = seq!['t', 'o', 'k', 'e', 'n', 's', '[', '"'] + key + seq!['"', ']'];
            let named = exists|chain: u64| key == #[trigger] digits::decimal(chain as nat);
            &&& !named ==> chain_tokens(key, value) == Err::<(u64, Seq<AssetView>), Seq<char>>(
                place + " names no chain id"@,
            )
            &&& named && !(value is Array) ==> chain_tokens(key, value) == Err::<
                (u64, Seq<AssetView>),
                Seq<char>,
            >(place + " must be a JSON array"@)
            &&& named && value is Array ==> (first_fault(value->Array_0, place) matches Some(said)
                ==> chain_tokens(key, value) == Err::<(u64, Seq<AssetView>), Seq<char>>(
                wire::writing(bad_token(said)),
            ))
        }),
{
    reveal_strlit("tokens[\"");
    reveal_strlit("\"]");
    assert("tokens[\""@ =~= seq!['t', 'o', 'k', 'e', 'n', 's', '[', '"']);
    assert("\"]"@ =~= seq!['"', ']']);
    if exists|chain: u64| key == #[trigger] digits::decimal(chain as nat) {
        let chain = choose|chain: u64| key == #[trigger] digits::decimal(chain as nat);
        assert(is_chain_key(key, chain));
        lemma_chain_key(key, chain);
        if value is Array {
            law_refused_for_the_first_fault(chain, value->Array_0, chain_place(key));
        }
    } else if exists|chain: u64| is_chain_key(key, chain) {
        let chain = choose|chain: u64| is_chain_key(key, chain);
        assert(key == digits::decimal(chain as nat));
    }
}

/// A text of tokens that gives none is refused in these words.
pub proof fn law_a_text_of_tokens_is_refused_for_what_it_is(chain_id: u64, s: Seq<char>)
    requires
        s.len() > 0,
    ensures
        wire::reading(s) matches Err(e) ==> text_tokens(chain_id, s) == Err::<
            Seq<AssetView>,
            Seq<char>,
        >("invalid tokens: "@ + e),
        wire::reading(s) matches Ok(v) ==> (!(v is Array) ==> text_tokens(chain_id, s) == Err::<
            Seq<AssetView>,
            Seq<char>,
        >("tokens must be a JSON array"@)),
{
    reveal_strlit("");
    assert(""@.len() == 0);
}

} // verus!
