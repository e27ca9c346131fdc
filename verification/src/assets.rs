//! Asset rows shared by offers, balances, transfer resolution and history decoration.
use vstd::prelude::*;
use vstd::string::StringExecFns;

use crate::address;
use crate::address::Address;
use crate::digits;
use crate::digits::decimal_text;
use crate::json;
use crate::json::{Json, JsonView};
use crate::text;
use crate::text::{is_before, joined, same, same_folded, to_lower, trim};
use crate::uint;
use crate::uint::U256;
use crate::units;

pub use crate::tokens::{parse_tokens, parse_tokens_by_chain, tokens};

verus! {

/// A chain's native currency or a token on it.
#[derive(Debug, PartialEq, Eq)]
pub struct Asset {
    pub chain_id: u64,
    pub symbol: String,
    pub name: String,
    pub decimals: u8,
    pub address: Option<String>,
    pub native: bool,
    pub builtin: bool,
    pub enabled: bool,
    pub source: String,
    pub logo_uri: Option<String>,
    pub symbol_unknown: bool,
}

/// What an asset is.
pub struct AssetView {
    pub chain_id: u64,
    pub symbol: Seq<char>,
    pub name: Seq<char>,
    pub decimals: u8,
    pub address: Option<Seq<char>>,
    pub native: bool,
    pub builtin: bool,
    pub enabled: bool,
    pub source: Seq<char>,
    pub logo_uri: Option<Seq<char>>,
    pub symbol_unknown: bool,
}

/// The text that is held, where one is.
pub open spec fn maybe(s: Option<String>) -> Option<Seq<char>> {
    match s {
        Some(t) => Some(t@),
        None => None,
    }
}

impl View for Asset {
    type V = AssetView;

    open spec fn view(&self) -> AssetView {
        AssetView {
            chain_id: self.chain_id,
            symbol: self.symbol@,
            name: self.name@,
            decimals: self.decimals,
            address: maybe(self.address),
            native: self.native,
            builtin: self.builtin,
            enabled: self.enabled,
            source: self.source@,
            logo_uri: maybe(self.logo_uri),
            symbol_unknown: self.symbol_unknown,
        }
    }
}

/// What each asset of a list is.
pub open spec fn views(list: Seq<Asset>) -> Seq<AssetView> {
    list.map_values(|a: Asset| a@)
}

impl Clone for Asset {
    fn clone(&self) -> (r: Asset)
        ensures
            r@ == self@,
    {
        Asset {
            chain_id: self.chain_id,
            symbol: self.symbol.clone(),
            name: self.name.clone(),
            decimals: self.decimals,
            address: self.address.clone(),
            native: self.native,
            builtin: self.builtin,
            enabled: self.enabled,
            source: self.source.clone(),
            logo_uri: self.logo_uri.clone(),
            symbol_unknown: self.symbol_unknown,
        }
    }
}

/// The text under `key`, `other` where there is none.
pub open spec fn text_or(v: JsonView, key: Seq<char>, other: Seq<char>) -> Seq<char> {
    match json::text_at(v, key) {
        Some(s) => s,
        None => other,
    }
}

/// Whether the truth value under `key` is true.
pub open spec fn holds(v: JsonView, key: Seq<char>) -> bool {
    json::truth_at(v, key) == Some(true)
}

/// The native asset of the chain that `record` describes, or why it describes none.
pub open spec fn chain_asset(record: JsonView) -> Result<AssetView, Seq<char>> {
    match json::word_at(record, "chainId"@) {
        None => Err("chain record has no chainId"@),
        Some(id) => match json::byte_at(record, "nativeDecimals"@) {
            None => Err(
                "chain "@ + digits::decimal(id as nat) + " has no usable nativeDecimals metadata"@,
            ),
            Some(decimals) => {
                let symbol = text_or(record, "nativeSymbol"@, ""@);
                Ok(
                    AssetView {
                        chain_id: id,
                        symbol,
                        name: text_or(record, "name"@, symbol),
                        decimals,
                        address: None,
                        native: true,
                        builtin: true,
                        enabled: true,
                        source: "native"@,
                        logo_uri: None,
                        symbol_unknown: symbol.len() == 0,
                    },
                )
            },
        },
    }
}

/// The address that a token row writes, without the white space around it.
pub open spec fn row_address(row: JsonView) -> Option<Seq<char>> {
    match json::text_at(row, "address"@) {
        Some(s) => if address::is_address(text::trimmed(s)) {
            Some(text::trimmed(s))
        } else {
            None
        },
        None => None,
    }
}

/// The symbol that a token row writes, without the white space around it.
pub open spec fn row_symbol(row: JsonView) -> Option<Seq<char>> {
    match json::text_at(row, "symbol"@) {
        Some(s) => if text::trimmed(s).len() > 0 {
            Some(text::trimmed(s))
        } else {
            None
        },
        None => None,
    }
}

/// The token that `row` describes, where it describes one: it has an address other than zero, a
/// symbol and decimals below 256.
pub open spec fn row_asset(chain_id: u64, row: JsonView) -> Option<AssetView> {
    match (row_address(row), row_symbol(row), json::byte_at(row, "decimals"@)) {
        (Some(address), Some(symbol), Some(decimals)) => if address::all_zero(
            address::address_of(address),
        ) {
            None
        } else {
            Some(
                AssetView {
                    chain_id,
                    symbol,
                    name: text_or(row, "name"@, symbol),
                    decimals,
                    address: Some(address),
                    native: false,
                    builtin: holds(row, "builtin"@),
                    enabled: holds(row, "enabled"@),
                    source: text_or(row, "source"@, "unknown"@),
                    logo_uri: json::text_at(row, "logoURI"@),
                    symbol_unknown: false,
                },
            )
        },
        _ => None,
    }
}

/// The JSON object of an asset.
pub open spec fn asset_json(a: AssetView) -> JsonView {
    let v = JsonView::Object(Map::empty());
    let v = json::put(v, "chainId"@, JsonView::Int(a.chain_id as int));
    let v = json::put(v, "symbol"@, JsonView::Text(a.symbol));
    let v = json::put(v, "name"@, JsonView::Text(a.name));
    let v = json::put(v, "decimals"@, JsonView::Int(a.decimals as int));
    let v = match a.address {
        Some(s) => json::put(v, "address"@, JsonView::Text(s)),
        None => v,
    };
    let v = json::put(v, "native"@, JsonView::Bool(a.native));
    let v = json::put(v, "builtin"@, JsonView::Bool(a.builtin));
    let v = json::put(v, "enabled"@, JsonView::Bool(a.enabled));
    let v = json::put(v, "source"@, JsonView::Text(a.source));
    let v = match a.logo_uri {
        Some(s) => json::put(v, "logoURI"@, JsonView::Text(s)),
        None => v,
    };
    if a.symbol_unknown {
        json::put(v, "symbolUnknown"@, JsonView::Bool(true))
    } else {
        v
    }
}

/// `s`, or `other` where there is none.
fn or_else(s: Option<&str>, other: &str) -> (r: String)
    ensures
        r@ == match s {
            Some(t) => t@,
            None => other@,
        },
{
    match s {
        Some(t) => t.to_owned(),
        None => other.to_owned(),
    }
}

impl Asset {
    /// The native asset of the chain that `record` describes. Missing metadata is reported, never
    /// guessed.
    pub fn from_chain(record: &Json) -> (r: Result<Asset, String>)
        ensures
            match chain_asset(record@) {
                Ok(a) => r matches Ok(b) && b@ == a,
                Err(why) => r matches Err(e) && e@ == why,
            },
    {
        let chain_id = match record.get_u64("chainId") {
            Some(id) => id,
            None => return Err("chain record has no chainId".to_owned()),
        };
        let symbol = or_else(record.get_str("nativeSymbol"), "");
        let decimals = match record.get_u8("nativeDecimals") {
            Some(d) => d,
            None => {
                let mut why = joined("chain ", decimal_text(chain_id).as_str());
                why.append(" has no usable nativeDecimals metadata");
                return Err(why);
            },
        };
        let name = or_else(record.get_str("name"), symbol.as_str());
        let symbol_unknown = symbol.as_str().unicode_len() == 0;
        Ok(
            Asset {
                chain_id,
                symbol,
                name,
                decimals,
                address: None,
                native: true,
                builtin: true,
                enabled: true,
                source: "native".to_owned(),
                logo_uri: None,
                symbol_unknown,
            },
        )
    }

    /// The token that `row` describes on chain `chain_id`, where it describes one.
    pub fn from_token_row(chain_id: u64, row: &Json) -> (r: Option<Asset>)
        ensures
            match row_asset(chain_id, row@) {
                Some(a) => r matches Some(b) && b@ == a,
                None => r is None,
            },
    {
        let address = match row.get_str("address") {
            Some(s) => trim(s),
            None => return None,
        };
        match Address::parse(address) {
            Ok(a) => if a.is_zero() {
                return None;
            },
            Err(_) => return None,
        }
        let symbol = match row.get_str("symbol") {
            Some(s) => trim(s),
            None => return None,
        };
        if symbol.unicode_len() == 0 {
            return None;
        }
        let decimals = match row.get_u8("decimals") {
            Some(d) => d,
            None => return None,
        };
        let logo_uri = match row.get_str("logoURI") {
            Some(s) => Some(s.to_owned()),
            None => None,
        };
        Some(
            Asset {
                chain_id,
                symbol: symbol.to_owned(),
                name: or_else(row.get_str("name"), symbol),
                decimals,
                address: Some(address.to_owned()),
                native: false,
                builtin: row.get_bool("builtin") == Some(true),
                enabled: row.get_bool("enabled") == Some(true),
                source: or_else(row.get_str("source"), "unknown"),
                logo_uri,
                symbol_unknown: false,
            },
        )
    }

    /// The JSON object of this asset.
    pub fn to_json(&self) -> (r: Json)
        ensures
            r@ == asset_json(self@),
    {
        let mut v = Json::object();
        v.set("chainId", Json::Unsigned(self.chain_id));
        v.set("symbol", Json::text(self.symbol.as_str()));
        v.set("name", Json::text(self.name.as_str()));
        v.set("decimals", Json::Unsigned(self.decimals as u64));
        match &self.address {
            Some(s) => v.set("address", Json::text(s.as_str())),
            None => {},
        }
        v.set("native", Json::Bool(self.native));
        v.set("builtin", Json::Bool(self.builtin));
        v.set("enabled", Json::Bool(self.enabled));
        v.set("source", Json::text(self.source.as_str()));
        match &self.logo_uri {
            Some(s) => v.set("logoURI", Json::text(s.as_str())),
            None => {},
        }
        if self.symbol_unknown {
            v.set("symbolUnknown", Json::Bool(true));
        }
        v
    }
}

/// How balance rows are ordered behind the native one.
#[derive(Clone, Copy, Debug, Default, PartialEq, Eq, Structural)]
pub enum TokenSort {
    #[default]
    Alpha,
    Balance,
}

/// The order that `value` names, whatever the case of its letters and the white space around it.
pub open spec fn sort_named(value: Seq<char>) -> Option<TokenSort> {
    let name = text::lowered(text::trimmed(value));
    if name == ""@ || name == "alpha"@ {
        Some(TokenSort::Alpha)
    } else if name == "balance"@ {
        Some(TokenSort::Balance)
    } else {
        None
    }
}

impl TokenSort {
    /// The name of this order.
    pub open spec fn name(self) -> Seq<char> {
        match self {
            TokenSort::Alpha => "alpha"@,
            TokenSort::Balance => "balance"@,
        }
    }

    /// The order that `value` names.
    pub fn parse(value: &str) -> (r: Option<TokenSort>)
        ensures
            r == sort_named(value@),
    {
        let name = to_lower(trim(value));
        if same(name.as_str(), "") || same(name.as_str(), "alpha") {
            Some(TokenSort::Alpha)
        } else if same(name.as_str(), "balance") {
            Some(TokenSort::Balance)
        } else {
            None
        }
    }

    /// The name of this order.
    pub fn as_str(self) -> (r: &'static str)
        ensures
            r@ == self.name(),
    {
        match self {
            TokenSort::Alpha => "alpha",
            TokenSort::Balance => "balance",
        }
    }
}

/// The first asset of `offered` at the address `key`, compared as text whatever its case.
pub open spec fn first_at(offered: Seq<AssetView>, key: Seq<char>) -> Option<AssetView>
    decreases offered.len(),
{
    if offered.len() == 0 {
        None
    } else if stands_at(offered[0], key) {
        Some(offered[0])
    } else {
        first_at(offered.drop_first(), key)
    }
}

/// Whether `asset` has the address `key`, compared as text whatever its case.
pub open spec fn stands_at(asset: AssetView, key: Seq<char>) -> bool {
    asset.address is Some && text::alike(asset.address->0, key)
}

/// The assets of `offered` with the symbol `key`, whatever its case, in their order.
pub open spec fn named(offered: Seq<AssetView>, key: Seq<char>) -> Seq<AssetView>
    decreases offered.len(),
{
    if offered.len() == 0 {
        Seq::empty()
    } else {
        let rest = named(offered.drop_last(), key);
        if text::alike(offered.last().symbol, key) {
            rest.push(offered.last())
        } else {
            rest
        }
    }
}

/// The first native asset of `offered`.
pub open spec fn first_native(offered: Seq<AssetView>) -> Option<AssetView>
    decreases offered.len(),
{
    if offered.len() == 0 {
        None
    } else if offered[0].native {
        Some(offered[0])
    } else {
        first_native(offered.drop_first())
    }
}

/// The addresses of `offered`, with commas between them.
pub open spec fn address_list(offered: Seq<AssetView>) -> Seq<char>
    decreases offered.len(),
{
    if offered.len() == 0 {
        ""@
    } else {
        let rest = address_list(offered.drop_last());
        match offered.last().address {
            Some(a) => if has_address(offered.drop_last()) {
                rest + ", "@ + a
            } else {
                a
            },
            None => rest,
        }
    }
}

/// Whether any asset of `offered` has an address.
pub open spec fn has_address(offered: Seq<AssetView>) -> bool {
    exists|i: int| 0 <= i < offered.len() && (#[trigger] offered[i]).address is Some
}

/// The offered asset that `key` names, or why it names none. An address names the token there; a
/// symbol names the native asset first, and otherwise the one asset with that symbol.
pub open spec fn resolution(offered: Seq<AssetView>, key: Seq<char>) -> Result<
    AssetView,
    Seq<char>,
> {
    let key = text::trimmed(key);
    let hits = named(offered, key);
    if key.len() == 0 {
        Err("no asset was named"@)
    } else if address::is_address(key) {
        match first_at(offered, key) {
            Some(a) => Ok(a),
            None => Err("no offered token exists at "@ + key),
        }
    } else if first_native(hits) is Some {
        Ok(first_native(hits)->0)
    } else if hits.len() == 0 {
        Err("asset '"@ + key + "' is not offered"@)
    } else if hits.len() == 1 {
        Ok(hits[0])
    } else {
        Err(
            "'"@ + key + "' names "@ + digits::decimal(hits.len()) + " offered contracts ("@
                + address_list(hits) + "); use an address"@,
        )
    }
}

/// The first asset at the address `key`.
pub(crate) fn find_at<'a>(offered: &'a [Asset], key: &str) -> (r: Option<&'a Asset>)
    ensures
        match first_at(views(offered@), key@) {
            Some(a) => r matches Some(b) && b@ == a,
            None => r is None,
        },
{
    let ghost all = views(offered@);
    let mut i: usize = 0;
    assert(all.skip(0) =~= all);
    while i < offered.len()
        invariant
            i <= offered.len(),
            all == views(offered@),
            first_at(all.skip(i as int), key@) == first_at(all, key@),
        decreases offered.len() - i,
    {
        assert(all.skip(i as int)[0] == offered@[i as int]@);
        let here = match &offered[i].address {
            Some(a) => same_folded(a.as_str(), key),
            None => false,
        };
        if here {
            return Some(&offered[i]);
        }
        assert(all.skip(i as int).drop_first() =~= all.skip(i + 1));
        i = i + 1;
    }
    None
}

/// The first native asset.
pub(crate) fn find_native(offered: &[Asset]) -> (r: Option<&Asset>)
    ensures
        match first_native(views(offered@)) {
            Some(a) => r matches Some(b) && b@ == a,
            None => r is None,
        },
{
    let ghost all = views(offered@);
    let mut i: usize = 0;
    assert(all.skip(0) =~= all);
    while i < offered.len()
        invariant
            i <= offered.len(),
            all == views(offered@),
            first_native(all.skip(i as int)) == first_native(all),
        decreases offered.len() - i,
    {
        assert(all.skip(i as int)[0] == offered@[i as int]@);
        if offered[i].native {
            return Some(&offered[i]);
        }
        assert(all.skip(i as int).drop_first() =~= all.skip(i + 1));
        i = i + 1;
    }
    None
}

/// The assets with the symbol `key`.
fn find_named(offered: &[Asset], key: &str) -> (r: Vec<Asset>)
    ensures
        views(r@) == named(views(offered@), key@),
        r.len() <= offered.len(),
{
    let ghost all = views(offered@);
    let mut hits: Vec<Asset> = Vec::new();
    let mut i: usize = 0;
    assert(views(hits@) =~= named(all.take(0), key@));
    while i < offered.len()
        invariant
            i <= offered.len(),
            all == views(offered@),
            hits.len() <= i,
            views(hits@) == named(all.take(i as int), key@),
        decreases offered.len() - i,
    {
        proof {
            assert(all.take(i + 1).drop_last() =~= all.take(i as int));
            assert(all.take(i + 1).last() == offered@[i as int]@);
        }
        if same_folded(offered[i].symbol.as_str(), key) {
            let hit = offered[i].clone();
            assert(views(hits@.push(hit)) =~= views(hits@).push(hit@));
            hits.push(hit);
        }
        i = i + 1;
    }
    assert(all.take(all.len() as int) =~= all);
    hits
}

/// The addresses of `offered`, with commas between them.
fn list_addresses(offered: &[Asset]) -> (r: String)
    ensures
        r@ == address_list(views(offered@)),
{
    let ghost all = views(offered@);
    let mut out = "".to_owned();
    let mut some = false;
    let mut i: usize = 0;
    while i < offered.len()
        invariant
            i <= offered.len(),
            all == views(offered@),
            some == has_address(all.take(i as int)),
            out@ == address_list(all.take(i as int)),
        decreases offered.len() - i,
    {
        let ghost next = all.take(i + 1);
        proof {
            assert(next.drop_last() =~= all.take(i as int));
            assert(next.last() == offered@[i as int]@);
            assert(next[i as int] == next.last());
            if has_address(all.take(i as int)) {
                let j = choose|j: int|
                    0 <= j < i && (#[trigger] all.take(i as int)[j]).address is Some;
                assert(next[j].address is Some);
            }
            if has_address(next) && next.last().address is None {
                let j = choose|j: int| 0 <= j < next.len() && (#[trigger] next[j]).address is Some;
                assert(all.take(i as int)[j].address is Some);
            }
        }
        match &offered[i].address {
            Some(a) => {
                if some {
                    out.append(", ");
                    out.append(a.as_str());
                } else {
                    out = a.clone();
                }
                some = true;
            },
            None => {},
        }
        i = i + 1;
    }
    assert(all.take(all.len() as int) =~= all);
    out
}

/// The offered asset that `key` names by exact address or unambiguous symbol.
pub fn resolve(offered: &[Asset], key: &str) -> (r: Result<Asset, String>)
    ensures
        match resolution(views(offered@), key@) {
            Ok(a) => r matches Ok(b) && b@ == a,
            Err(why) => r matches Err(e) && e@ == why,
        },
{
    let key = trim(key);
    if key.unicode_len() == 0 {
        return Err("no asset was named".to_owned());
    }
    if Address::parse(key).is_ok() {
        return match find_at(offered, key) {
            Some(asset) => Ok(asset.clone()),
            None => Err(joined("no offered token exists at ", key)),
        };
    }
    let mut hits = find_named(offered, key);
    match find_native(hits.as_slice()) {
        Some(native) => return Ok(native.clone()),
        None => {},
    }
    if hits.len() == 0 {
        let mut why = joined("asset '", key);
        why.append("' is not offered");
        Err(why)
    } else if hits.len() == 1 {
        Ok(hits.remove(0))
    } else {
        let mut why = joined("'", key);
        why.append("' names ");
        why.append(decimal_text(hits.len() as u64).as_str());
        why.append(" offered contracts (");
        why.append(list_addresses(hits.as_slice()).as_str());
        why.append("); use an address");
        Err(why)
    }
}

/// The amount that was read for the asset at `i`, where one was.
pub open spec fn amount_at(raw: Seq<Option<nat>>, i: int) -> Option<nat> {
    if 0 <= i < raw.len() {
        raw[i]
    } else {
        None
    }
}

/// What stands under `key`, null where nothing does.
pub open spec fn or_null(v: JsonView, key: Seq<char>) -> JsonView {
    match json::member(v, key) {
        Some(w) => w,
        None => JsonView::Null,
    }
}

/// The balance row of an asset: a balance that was read has its exact and its display text, one
/// that was not has an empty raw amount and neither.
pub open spec fn balance_row(a: AssetView, amount: Option<nat>) -> JsonView {
    let v = asset_json(a);
    let v = json::drop(v, "chainId"@);
    let v = json::drop(v, "enabled"@);
    let v = json::drop(v, "source"@);
    let v = json::drop(v, "logoURI"@);
    match amount {
        None => json::put(v, "raw"@, JsonView::Text(""@)),
        Some(n) => {
            let v = json::put(v, "raw"@, JsonView::Text(digits::decimal(n)));
            let v = units::decorated(v, "amount"@, digits::decimal(n), a.decimals as nat);
            let v = json::put(v, "display"@, or_null(v, "amountDisplay"@));
            json::put(v, "exact"@, or_null(v, "amountExact"@))
        },
    }
}

/// What a balance row is placed by.
pub struct RankView {
    pub after_native: bool,
    pub band: int,
    pub value: nat,
    pub symbol: Seq<char>,
    pub address: Seq<char>,
}

/// The place of an asset with a balance. By balance, those that hold something come first. A
/// balance that was not read has an empty raw amount, which reads as zero: it is placed among the
/// empty ones.
pub open spec fn rank(a: AssetView, amount: Option<nat>, sort: TokenSort) -> RankView {
    let holds = amount is Some && amount->0 > 0;
    RankView {
        after_native: !a.native,
        band: if sort is Balance && !holds {
            2
        } else {
            0
        },
        value: if sort is Balance && holds {
            amount->0
        } else {
            0
        },
        symbol: text::lowered(a.symbol),
        address: text::lowered(
            match a.address {
                Some(s) => s,
                None => ""@,
            },
        ),
    }
}

/// The places of all offered assets.
pub open spec fn ranks(
    offered: Seq<AssetView>,
    raw: Seq<Option<nat>>,
    sort: TokenSort,
) -> Seq<RankView> {
    Seq::new(offered.len(), |i: int| rank(offered[i], amount_at(raw, i), sort))
}

/// Whether the first place is strictly before the second: the native asset first, then by band,
/// larger balances first, then by symbol and by address.
pub open spec fn precedes(a: RankView, b: RankView) -> bool {
    if a.after_native != b.after_native {
        !a.after_native
    } else if a.band != b.band {
        a.band < b.band
    } else if a.value != b.value {
        a.value > b.value
    } else if a.symbol != b.symbol {
        text::before(a.symbol, b.symbol)
    } else {
        text::before(a.address, b.address)
    }
}

/// Whether the row at `i` goes before the row at `j`: by its place, and where the places are one,
/// as they came.
pub open spec fn goes_before(ranks: Seq<RankView>, i: int, j: int) -> bool {
    precedes(ranks[i], ranks[j]) || (!precedes(ranks[j], ranks[i]) && i < j)
}

/// Whether `order` lists the first `n` rows, each once, as they go before each other.
pub open spec fn is_order(order: Seq<int>, ranks: Seq<RankView>, n: int) -> bool {
    &&& order.len() == n
    &&& forall|i: int| 0 <= i < n ==> 0 <= #[trigger] order[i] < n
    &&& forall|v: int| 0 <= v < n ==> #[trigger] order.contains(v)
    &&& forall|i: int, j: int|
        0 <= i < j < n ==> goes_before(ranks, #[trigger] order[i], #[trigger] order[j])
}

/// A place before another is before or behind any third.
proof fn lemma_between(a: RankView, b: RankView, c: RankView)
    requires
        precedes(a, c),
    ensures
        precedes(a, b) || precedes(b, c),
{
    text::lemma_before_either(a.symbol, b.symbol);
    text::lemma_before_either(b.symbol, c.symbol);
    text::lemma_before_either(a.address, b.address);
    text::lemma_before_either(b.address, c.address);
    text::lemma_before_either(a.address, c.address);
    text::lemma_before_either(a.symbol, c.symbol);
    if text::before(b.symbol, a.symbol) && text::before(a.symbol, c.symbol) {
        text::lemma_before_chain(b.symbol, a.symbol, c.symbol);
    }
    if text::before(a.symbol, c.symbol) && text::before(c.symbol, b.symbol) {
        text::lemma_before_chain(a.symbol, c.symbol, b.symbol);
    }
    if text::before(b.address, a.address) && text::before(a.address, c.address) {
        text::lemma_before_chain(b.address, a.address, c.address);
    }
}

/// Of two rows only one goes before the other.
proof fn lemma_goes_before_once(ranks: Seq<RankView>, i: int, j: int)
    ensures
        !(goes_before(ranks, i, j) && goes_before(ranks, j, i)),
{
    let a = ranks[i];
    let b = ranks[j];
    text::lemma_before_either(a.symbol, b.symbol);
    text::lemma_before_either(a.address, b.address);
}

/// The rows can be listed in one order only: balance rows come out the same however they are
/// sorted.
pub proof fn law_one_order(p: Seq<int>, q: Seq<int>, ranks: Seq<RankView>)
    requires
        is_order(p, ranks, ranks.len() as int),
        is_order(q, ranks, ranks.len() as int),
    ensures
        p == q,
{
    let n = ranks.len() as int;
    assert forall|k: int| 0 <= k < n implies p[k] == q[k] by {
        lemma_one_order(p, q, ranks, k);
    }
    assert(p =~= q);
}

proof fn lemma_one_order(p: Seq<int>, q: Seq<int>, ranks: Seq<RankView>, k: int)
    requires
        is_order(p, ranks, ranks.len() as int),
        is_order(q, ranks, ranks.len() as int),
        0 <= k < ranks.len(),
    ensures
        forall|i: int| 0 <= i <= k ==> p[i] == q[i],
    decreases k,
{
    let n = ranks.len() as int;
    if k > 0 {
        lemma_one_order(p, q, ranks, k - 1);
    }
    if p[k] != q[k] {
        assert(q.contains(p[k]));
        assert(p.contains(q[k]));
        let m = choose|m: int| 0 <= m < q.len() && q[m] == p[k];
        let l = choose|l: int| 0 <= l < p.len() && p[l] == q[k];
        if m < k {
            assert(p[m] == q[m]);
            assert(goes_before(ranks, p[m], p[k]));
            lemma_goes_before_once(ranks, p[m], p[k]);
        }
        if l < k {
            assert(p[l] == q[l]);
            assert(goes_before(ranks, q[l], q[k]));
            lemma_goes_before_once(ranks, q[l], q[k]);
        }
        assert(goes_before(ranks, p[k], p[l]));
        assert(goes_before(ranks, q[k], q[m]));
        lemma_goes_before_once(ranks, p[k], q[k]);
    }
}

/// One more row at its place.
proof fn lemma_insert(order: Seq<int>, ranks: Seq<RankView>, n: int, at: int)
    requires
        is_order(order, ranks, n),
        0 <= n < ranks.len(),
        0 <= at <= n,
        at > 0 ==> !precedes(ranks[n], ranks[order[at - 1]]),
        forall|k: int| at <= k < n ==> precedes(ranks[n], ranks[#[trigger] order[k]]),
    ensures
        is_order(order.insert(at, n), ranks, n + 1),
{
    let next = order.insert(at, n);
    assert forall|v: int| 0 <= v < n + 1 implies #[trigger] next.contains(v) by {
        if v == n {
            assert(next[at] == n);
        } else {
            assert(order.contains(v));
            let i = choose|i: int| 0 <= i < order.len() && order[i] == v;
            if i < at {
                assert(next[i] == v);
            } else {
                assert(next[i + 1] == v);
            }
        }
    }
    assert forall|i: int, j: int| 0 <= i < j < n + 1 implies goes_before(
        ranks,
        #[trigger] next[i],
        #[trigger] next[j],
    ) by {
        if j == at {
            if i < at - 1 {
                assert(goes_before(ranks, order[i], order[at - 1]));
                lemma_goes_before_once(ranks, order[i], order[at - 1]);
                if precedes(ranks[n], ranks[order[i]]) {
                    lemma_between(ranks[n], ranks[order[at - 1]], ranks[order[i]]);
                }
            }
            assert(!precedes(ranks[n], ranks[order[i]]));
        } else if i == at {
            assert(next[j] == order[j - 1]);
        } else {
            let a = if i < at {
                i
            } else {
                i - 1
            };
            let b = if j < at {
                j
            } else {
                j - 1
            };
            assert(next[i] == order[a] && next[j] == order[b]);
        }
    }
}

/// What a balance row is placed by.
struct Rank {
    after_native: bool,
    band: u8,
    value: U256,
    symbol: String,
    address: String,
}

impl View for Rank {
    type V = RankView;

    closed spec fn view(&self) -> RankView {
        RankView {
            after_native: self.after_native,
            band: self.band as int,
            value: self.value@,
            symbol: self.symbol@,
            address: self.address@,
        }
    }
}

impl Rank {
    /// The place of an asset with a balance.
    fn new(asset: &Asset, amount: Option<U256>, sort: TokenSort) -> (r: Rank)
        ensures
            r@ == rank(
                asset@,
                match amount {
                    Some(n) => Some(n@),
                    None => None,
                },
                sort,
            ),
    {
        let raw = match amount {
            Some(n) => n.to_decimal(),
            None => "".to_owned(),
        };
        let read = U256::from_str_radix(raw.as_str(), 10);
        proof {
            reveal_strlit("");
            match amount {
                Some(n) => {
                    digits::lemma_decimal(n@);
                    uint::lemma_below_limit(n);
                    assert forall|i: int| 0 <= i < raw@.len() implies #[trigger] raw@[i] == '_'
                        || 0 <= digits::digit_of(raw@[i]) < 10 by {
                        assert(digits::is_digit(raw@[i]));
                    }
                },
                None => {
                    assert(digits::numeral_value(raw@, 10) == 0);
                },
            }
        }
        let (band, value) = match sort {
            TokenSort::Alpha => (0u8, U256::zero()),
            TokenSort::Balance => match read {
                Some(n) => if n.is_zero() {
                    (2u8, U256::zero())
                } else {
                    (0u8, n)
                },
                None => (1u8, U256::zero()),
            },
        };
        let address = match &asset.address {
            Some(s) => to_lower(s.as_str()),
            None => to_lower(""),
        };
        Rank { after_native: !asset.native, band, value, symbol: to_lower(asset.symbol.as_str()), address }
    }

    /// Whether this place is strictly before `other`.
    fn precedes(&self, other: &Rank) -> (r: bool)
        ensures
            r == precedes(self@, other@),
    {
        if self.after_native != other.after_native {
            !self.after_native
        } else if self.band != other.band {
            self.band < other.band
        } else if other.value.is_below(&self.value) {
            true
        } else if self.value.is_below(&other.value) {
            false
        } else if !same(self.symbol.as_str(), other.symbol.as_str()) {
            is_before(self.symbol.as_str(), other.symbol.as_str())
        } else {
            is_before(self.address.as_str(), other.address.as_str())
        }
    }
}

/// Indices as integers.
spec fn ints(order: Seq<usize>) -> Seq<int> {
    order.map_values(|i: usize| i as int)
}

/// The places, as they are.
spec fn rank_views(places: Seq<Rank>) -> Seq<RankView> {
    places.map_values(|p: Rank| p@)
}

/// The order in which rows with these places come, equal ones as they are given.
fn sorted(places: &Vec<Rank>) -> (r: Vec<usize>)
    ensures
        is_order(ints(r@), rank_views(places@), places.len() as int),
{
    let ghost all = rank_views(places@);
    let mut order: Vec<usize> = Vec::new();
    let mut i: usize = 0;
    while i < places.len()
        invariant
            i <= places.len(),
            all == rank_views(places@),
            is_order(ints(order@), all, i as int),
        decreases places.len() - i,
    {
        let mut at: usize = i;
        while at > 0 && places[i].precedes(&places[order[at - 1]])
            invariant
                at <= i < places.len(),
                all == rank_views(places@),
                is_order(ints(order@), all, i as int),
                order.len() == i,
                forall|k: int| 0 <= k < i ==> #[trigger] order[k] == ints(order@)[k],
                forall|k: int|
                    at <= k < i ==> precedes(all[i as int], all[#[trigger] ints(order@)[k]]),
            decreases at,
        {
            assert(ints(order@)[at - 1] == order[at - 1]);
            at = at - 1;
        }
        proof {
            if at > 0 {
                assert(ints(order@)[at - 1] == order[at - 1]);
            }
            lemma_insert(ints(order@), all, i as int, at as int);
            assert(ints(order@.insert(at as int, i)) =~= ints(order@).insert(
                at as int,
                i as int,
            ));
        }
        order.insert(at, i);
        i = i + 1;
    }
    order
}

/// The balance row of an asset.
fn row_of(asset: &Asset, amount: Option<U256>) -> (r: Json)
    ensures
        r@ == balance_row(
            asset@,
            match amount {
                Some(n) => Some(n@),
                None => None,
            },
        ),
{
    let mut row = asset.to_json();
    row.remove("chainId");
    row.remove("enabled");
    row.remove("source");
    row.remove("logoURI");
    match amount {
        None => row.set("raw", Json::text("")),
        Some(n) => {
            let raw = n.to_decimal();
            row.set("raw", Json::text(raw.as_str()));
            units::decorate(&mut row, "amount", raw.as_str(), asset.decimals);
            let display = match row.get("amountDisplay") {
                Some(v) => v.clone(),
                None => Json::Null,
            };
            row.set("display", display);
            let exact = match row.get("amountExact") {
                Some(v) => v.clone(),
                None => Json::Null,
            };
            row.set("exact", exact);
        },
    }
    row
}

/// The amount that was read for the asset at `i`, where one was.
fn amount_read(raw: &[Option<U256>], i: usize) -> (r: Option<U256>)
    ensures
        match r {
            Some(n) => amount_at(uint::amounts(raw@), i as int) == Some(n@),
            None => amount_at(uint::amounts(raw@), i as int) is None,
        },
{
    if i < raw.len() {
        raw[i]
    } else {
        None
    }
}

/// The balance rows of the offered assets: one row each, in the one order of their places.
pub open spec fn placed_rows(
    offered: Seq<AssetView>,
    raw: Seq<Option<nat>>,
    sort: TokenSort,
) -> Seq<JsonView> {
    let n = offered.len();
    let order = choose|order: Seq<int>| is_order(order, ranks(offered, raw, sort), n as int);
    Seq::new(n, |i: int| balance_row(offered[order[i]], amount_at(raw, order[i])))
}

/// The balance rows of the offered assets: one row each, in the order of their places.
pub fn balance_rows(offered: &[Asset], raw: &[Option<U256>], sort: TokenSort) -> (r: Vec<Json>)
    ensures
        r.len() == offered.len(),
        exists|order: Seq<int>|
            {
                &&& #[trigger] is_order(
                    order,
                    ranks(views(offered@), uint::amounts(raw@), sort),
                    offered.len() as int,
                )
                &&& forall|i: int|
                    0 <= i < r.len() ==> (#[trigger] r[i])@ == balance_row(
                        offered[order[i]]@,
                        amount_at(uint::amounts(raw@), order[i]),
                    )
            },
        json::trees(r@) == placed_rows(views(offered@), uint::amounts(raw@), sort),
{
    let mut places: Vec<Rank> = Vec::new();
    let mut i: usize = 0;
    while i < offered.len()
        invariant
            i <= offered.len(),
            places.len() == i,
            forall|k: int|
                0 <= k < i ==> (#[trigger] places[k])@ == rank(
                    offered[k]@,
                    amount_at(uint::amounts(raw@), k),
                    sort,
                ),
        decreases offered.len() - i,
    {
        places.push(Rank::new(&offered[i], amount_read(raw, i), sort));
        i = i + 1;
    }
    assert(rank_views(places@) =~= ranks(views(offered@), uint::amounts(raw@), sort));
    let order = sorted(&places);
    let mut rows: Vec<Json> = Vec::new();
    let mut k: usize = 0;
    while k < order.len()
        invariant
            k <= order.len(),
            order.len() == offered.len(),
            rows.len() == k,
            is_order(ints(order@), ranks(views(offered@), uint::amounts(raw@), sort), offered.len() as int),
            forall|i: int|
                0 <= i < k ==> (#[trigger] rows[i])@ == balance_row(
                    offered[ints(order@)[i]]@,
                    amount_at(uint::amounts(raw@), ints(order@)[i]),
                ),
        decreases order.len() - k,
    {
        assert(0 <= ints(order@)[k as int] < offered.len());
        let at: usize = order[k];
        rows.push(row_of(&offered[at], amount_read(raw, at)));
        k = k + 1;
    }
    proof {
        let places = ranks(views(offered@), uint::amounts(raw@), sort);
        let chosen = choose|chosen: Seq<int>| is_order(chosen, places, offered.len() as int);
        law_one_order(ints(order@), chosen, places);
        assert(json::trees(rows@) =~= placed_rows(views(offered@), uint::amounts(raw@), sort));
    }
    rows
}

/// What is found at an address is offered, and stands there.
proof fn lemma_first_at(offered: Seq<AssetView>, key: Seq<char>)
    ensures
        match first_at(offered, key) {
            Some(a) => offered.contains(a) && stands_at(a, key),
            None => forall|i: int| 0 <= i < offered.len() ==> !stands_at(#[trigger] offered[i], key),
        },
    decreases offered.len(),
{
    if offered.len() > 0 {
        let rest = offered.drop_first();
        if stands_at(offered[0], key) {
            assert(offered.contains(offered[0]));
        } else {
            lemma_first_at(rest, key);
            match first_at(rest, key) {
                Some(a) => {
                    let i = choose|i: int| 0 <= i < rest.len() && rest[i] == a;
                    assert(offered[i + 1] == a);
                },
                None => {
                    assert forall|i: int| 0 <= i < offered.len() implies !stands_at(
                        #[trigger] offered[i],
                        key,
                    ) by {
                        if i > 0 {
                            assert(rest[i - 1] == offered[i]);
                        }
                    }
                },
            }
        }
    }
}

/// What has a symbol is offered and has it; everything offered that has it is there.
proof fn lemma_named(offered: Seq<AssetView>, key: Seq<char>)
    ensures
        forall|i: int|
            0 <= i < named(offered, key).len() ==> offered.contains(
                #[trigger] named(offered, key)[i],
            ) && text::alike(named(offered, key)[i].symbol, key),
        forall|i: int|
            0 <= i < offered.len() && text::alike((#[trigger] offered[i]).symbol, key) ==> named(
                offered,
                key,
            ).contains(offered[i]),
    decreases offered.len(),
{
    if offered.len() > 0 {
        let rest = offered.drop_last();
        let before = named(rest, key);
        let hits = named(offered, key);
        lemma_named(rest, key);
        assert(offered[offered.len() - 1] == offered.last());
        assert forall|i: int| 0 <= i < hits.len() implies offered.contains(#[trigger] hits[i])
            && text::alike(hits[i].symbol, key) by {
            if i < before.len() {
                assert(hits[i] == before[i]);
                let j = choose|j: int| 0 <= j < rest.len() && rest[j] == before[i];
                assert(offered[j] == before[i]);
            }
        }
        assert forall|i: int|
            0 <= i < offered.len() && text::alike(
                (#[trigger] offered[i]).symbol,
                key,
            ) implies hits.contains(offered[i]) by {
            if i < rest.len() {
                assert(rest[i] == offered[i]);
                assert(before.contains(rest[i]));
                let j = choose|j: int| 0 <= j < before.len() && before[j] == rest[i];
                assert(hits[j] == offered[i]);
            } else {
                assert(hits[hits.len() - 1] == offered[i]);
            }
        }
    }
}

/// What is found as native is in the list and native.
pub proof fn lemma_first_native(offered: Seq<AssetView>)
    ensures
        match first_native(offered) {
            Some(a) => offered.contains(a) && a.native,
            None => forall|i: int| 0 <= i < offered.len() ==> !(#[trigger] offered[i]).native,
        },
    decreases offered.len(),
{
    if offered.len() > 0 {
        let rest = offered.drop_first();
        if offered[0].native {
            assert(offered.contains(offered[0]));
        } else {
            lemma_first_native(rest);
            match first_native(rest) {
                Some(a) => {
                    let i = choose|i: int| 0 <= i < rest.len() && rest[i] == a;
                    assert(offered[i + 1] == a);
                },
                None => {
                    assert forall|i: int| 0 <= i < offered.len() implies !(
                    #[trigger] offered[i]).native by {
                        if i > 0 {
                            assert(rest[i - 1] == offered[i]);
                        }
                    }
                },
            }
        }
    }
}

/// Whatever a key names is offered.
pub proof fn law_only_offered_assets_are_named(offered: Seq<AssetView>, key: Seq<char>)
    requires
        resolution(offered, key) is Ok,
    ensures
        offered.contains(resolution(offered, key)->Ok_0),
{
    let key = text::trimmed(key);
    let hits = named(offered, key);
    lemma_first_at(offered, key);
    lemma_named(offered, key);
    lemma_first_native(hits);
    if first_native(hits) is Some {
        let i = choose|i: int| 0 <= i < hits.len() && hits[i] == first_native(hits)->0;
        assert(offered.contains(hits[i]));
    } else if hits.len() > 0 {
        assert(offered.contains(hits[0]));
    }
}

/// An address is an unambiguous identity: it names the offered token that stands there, whatever
/// else has the same symbol, and is refused only where none does.
pub proof fn law_an_address_is_an_unambiguous_identity(offered: Seq<AssetView>, key: Seq<char>)
    requires
        address::is_address(text::trimmed(key)),
    ensures
        match resolution(offered, key) {
            Ok(a) => offered.contains(a) && stands_at(a, text::trimmed(key)),
            Err(_) => forall|i: int|
                0 <= i < offered.len() ==> !stands_at(#[trigger] offered[i], text::trimmed(key)),
        },
{
    lemma_first_at(offered, text::trimmed(key));
    assert(address::is_address(text::trimmed(key)) ==> text::trimmed(key).len() > 0);
}

/// The native symbol wins a collision: a symbol that a native asset has names a native asset,
/// however many tokens have it too.
pub proof fn law_the_native_symbol_wins(offered: Seq<AssetView>, key: Seq<char>, i: int)
    requires
        0 <= i < offered.len(),
        offered[i].native,
        text::alike(offered[i].symbol, text::trimmed(key)),
        text::trimmed(key).len() > 0,
        !address::is_address(text::trimmed(key)),
    ensures
        resolution(offered, key) is Ok,
        resolution(offered, key)->Ok_0.native,
{
    let key = text::trimmed(key);
    let hits = named(offered, key);
    lemma_named(offered, key);
    lemma_first_native(hits);
    assert(hits.contains(offered[i]));
    let j = choose|j: int| 0 <= j < hits.len() && hits[j] == offered[i];
    assert(hits[j].native);
}

/// A symbol that several offered assets have, none of them native, is refused: nothing is picked.
pub proof fn law_an_ambiguous_symbol_is_refused(
    offered: Seq<AssetView>,
    key: Seq<char>,
    i: int,
    j: int,
)
    requires
        !address::is_address(text::trimmed(key)),
        first_native(named(offered, text::trimmed(key))) is None,
        0 <= i < j < offered.len(),
        text::alike(offered[i].symbol, text::trimmed(key)),
        text::alike(offered[j].symbol, text::trimmed(key)),
    ensures
        resolution(offered, key) is Err,
{
    lemma_named_count(offered, text::trimmed(key), i, j);
}

/// Two assets with a symbol are two hits.
proof fn lemma_named_count(offered: Seq<AssetView>, key: Seq<char>, i: int, j: int)
    requires
        0 <= i < j < offered.len(),
        text::alike(offered[i].symbol, key),
        text::alike(offered[j].symbol, key),
    ensures
        named(offered, key).len() > 1,
    decreases offered.len(),
{
    let rest = offered.drop_last();
    if j < rest.len() {
        lemma_named_count(rest, key, i, j);
    } else {
        assert(rest[i] == offered[i]);
        lemma_named(rest, key);
        assert(named(rest, key).contains(rest[i]));
    }
}

/// Native rows come first: in the one order of the rows, no token stands before a native asset.
pub proof fn law_native_rows_come_first(
    offered: Seq<AssetView>,
    raw: Seq<Option<nat>>,
    sort: TokenSort,
    order: Seq<int>,
    i: int,
    j: int,
)
    requires
        is_order(order, ranks(offered, raw, sort), offered.len() as int),
        0 <= i < j < offered.len(),
        offered[order[j]].native,
    ensures
        offered[order[i]].native,
{
    assert(goes_before(ranks(offered, raw, sort), order[i], order[j]));
}

/// Larger balances come first: by balance, no token stands before one that holds more.
pub proof fn law_larger_balances_come_first(
    offered: Seq<AssetView>,
    raw: Seq<Option<nat>>,
    order: Seq<int>,
    i: int,
    j: int,
)
    requires
        is_order(order, ranks(offered, raw, TokenSort::Balance), offered.len() as int),
        0 <= i < j < offered.len(),
        !offered[order[i]].native,
        amount_at(raw, order[j]) is Some,
        amount_at(raw, order[j])->0 > 0,
    ensures
        amount_at(raw, order[i]) is Some,
        amount_at(raw, order[i])->0 >= amount_at(raw, order[j])->0,
{
    assert(goes_before(ranks(offered, raw, TokenSort::Balance), order[i], order[j]));
    if offered[order[j]].native {
        law_native_rows_come_first(offered, raw, TokenSort::Balance, order, i, j);
    }
}

/// An unreadable leg is distinct from a zero balance: it has an empty raw amount and no rendering,
/// where zero has the raw amount `0` and both.
pub proof fn law_unread_is_not_zero(a: AssetView)
    ensures
        json::text_at(balance_row(a, None), "raw"@) == Some(""@),
        json::member(balance_row(a, None), "display"@) is None,
        json::member(balance_row(a, None), "exact"@) is None,
        json::text_at(balance_row(a, Some(0)), "raw"@) == Some("0"@),
        json::text_at(balance_row(a, Some(0)), "display"@) == Some("0"@),
        json::member(balance_row(a, Some(0)), "exact"@) is Some,
{
    reveal_strlit("raw");
    reveal_strlit("display");
    reveal_strlit("exact");
    reveal_strlit("chainId");
    reveal_strlit("symbol");
    reveal_strlit("name");
    reveal_strlit("decimals");
    reveal_strlit("address");
    reveal_strlit("native");
    reveal_strlit("builtin");
    reveal_strlit("enabled");
    reveal_strlit("source");
    reveal_strlit("logoURI");
    reveal_strlit("symbolUnknown");
    reveal_strlit("amountDisplay");
    reveal_strlit("amountExact");
    reveal_strlit("amount");
    reveal_strlit("Display");
    reveal_strlit("Exact");
    reveal_strlit("0");
    assert("raw"@.len() == 3 && "exact"@.len() == 5 && "name"@.len() == 4);
    assert("display"@.len() == 7 && "display"@[0] == 'd');
    assert("chainId"@[0] == 'c' && "address"@[0] == 'a' && "builtin"@[0] == 'b');
    assert("enabled"@[0] == 'e' && "logoURI"@[0] == 'l');
    assert("symbol"@.len() == 6 && "native"@.len() == 6 && "source"@.len() == 6);
    assert("decimals"@.len() == 8 && "symbolUnknown"@.len() == 13);
    assert("amount"@ + "Display"@ =~= "amountDisplay"@);
    assert("amount"@ + "Exact"@ =~= "amountExact"@);
    assert("amountDisplay"@.len() == 13 && "amountExact"@.len() == 11);
    digits::lemma_decimal(0);
    assert("0"@ =~= seq!['0']);
    units::lemma_raw_of_decimal(0);
}

/// A balance that was read is a decimal string with its exact and its display text beside it.
pub proof fn law_a_read_balance_has_every_rendering(a: AssetView, n: nat)
    requires
        n < uint::limit(),
    ensures
        ({
            let row = balance_row(a, Some(n));
            let raw = digits::decimal(n);
            &&& json::text_at(row, "raw"@) == Some(raw)
            &&& json::text_at(row, "exact"@) == units::exact_text(raw, a.decimals as nat)
            &&& json::text_at(row, "display"@) == units::display_text(raw, a.decimals as nat)
            &&& json::text_at(row, "exact"@) is Some
            &&& json::text_at(row, "display"@) is Some
        }),
{
    units::law_amounts_have_both_texts(n, a.decimals as nat);
    reveal_strlit("raw");
    reveal_strlit("display");
    reveal_strlit("exact");
    reveal_strlit("amountDisplay");
    reveal_strlit("amountExact");
    reveal_strlit("amount");
    reveal_strlit("Display");
    reveal_strlit("Exact");
    assert("raw"@.len() == 3 && "exact"@.len() == 5 && "display"@.len() == 7);
    assert("amount"@ + "Display"@ =~= "amountDisplay"@);
    assert("amount"@ + "Exact"@ =~= "amountExact"@);
    assert("amountDisplay"@.len() == 13 && "amountExact"@.len() == 11);
}

/// The token that a descriptor gives carries what the descriptor says: its decimals are the number
/// under `decimals`, its symbol and its address the trimmed texts under those keys, and its name,
/// source, logo and marks those of the descriptor where they are given.
pub proof fn law_a_token_is_what_its_descriptor_says(
    chain_id: u64,
    m: Map<Seq<char>, JsonView>,
)
    requires
        row_asset(chain_id, JsonView::Object(m)) is Some,
    ensures
        ({
            let a = row_asset(chain_id, JsonView::Object(m))->0;
            &&& a.chain_id == chain_id
            &&& m.contains_key("decimals"@) && m["decimals"@] == JsonView::Int(a.decimals as int)
            &&& m.contains_key("symbol"@) && m["symbol"@] is Text && a.symbol == text::trimmed(
                m["symbol"@]->Text_0,
            ) && a.symbol.len() > 0
            &&& m.contains_key("address"@) && m["address"@] is Text && a.address == Some(
                text::trimmed(m["address"@]->Text_0),
            )
            &&& a.name == if m.contains_key("name"@) && m["name"@] is Text {
                m["name"@]->Text_0
            } else {
                a.symbol
            }
            &&& a.source == if m.contains_key("source"@) && m["source"@] is Text {
                m["source"@]->Text_0
            } else {
                "unknown"@
            }
            &&& a.logo_uri == if m.contains_key("logoURI"@) && m["logoURI"@] is Text {
                Some(m["logoURI"@]->Text_0)
            } else {
                None
            }
            &&& a.builtin <==> m.contains_key("builtin"@) && m["builtin"@] == JsonView::Bool(true)
            &&& a.enabled <==> m.contains_key("enabled"@) && m["enabled"@] == JsonView::Bool(true)
            &&& !a.native
            &&& !a.symbol_unknown
        }),
{
}

/// A descriptor gives a token exactly where it has an address other than zero, a symbol and
/// decimals below 256, whatever else it says.
pub proof fn law_what_a_descriptor_has_to_say(chain_id: u64, row: JsonView)
    ensures
        row_asset(chain_id, row) is Some <==> {
            &&& row is Object
            &&& row->Object_0.contains_key("address"@)
            &&& row->Object_0["address"@] is Text
            &&& address::is_address(text::trimmed(row->Object_0["address"@]->Text_0))
            &&& exists|i: int|
                0 <= i < address::address_of(
                    text::trimmed(row->Object_0["address"@]->Text_0),
                ).len() && #[trigger] address::address_of(
                    text::trimmed(row->Object_0["address"@]->Text_0),
                )[i] != 0
            &&& row->Object_0.contains_key("symbol"@)
            &&& row->Object_0["symbol"@] is Text
            &&& text::trimmed(row->Object_0["symbol"@]->Text_0).len() > 0
            &&& row->Object_0.contains_key("decimals"@)
            &&& row->Object_0["decimals"@] is Int
            &&& 0 <= row->Object_0["decimals"@]->Int_0 < 256
        },
{
}

/// The native asset of a chain is what the record of the chain says: its decimals, its symbol and
/// its name come from nowhere else, and a record without usable decimals gives none.
pub proof fn law_a_native_asset_is_what_its_record_says(m: Map<Seq<char>, JsonView>)
    ensures
        ({
            let r = chain_asset(JsonView::Object(m));
            let symbol = if m.contains_key("nativeSymbol"@) && m["nativeSymbol"@] is Text {
                m["nativeSymbol"@]->Text_0
            } else {
                ""@
            };
            &&& r is Ok <==> {
                &&& m.contains_key("chainId"@)
                &&& m["chainId"@] is Int
                &&& 0 <= m["chainId"@]->Int_0 <= u64::MAX
                &&& m.contains_key("nativeDecimals"@)
                &&& m["nativeDecimals"@] is Int
                &&& 0 <= m["nativeDecimals"@]->Int_0 < 256
            }
            &&& r matches Ok(a) ==> {
                &&& m["chainId"@] == JsonView::Int(a.chain_id as int)
                &&& m["nativeDecimals"@] == JsonView::Int(a.decimals as int)
                &&& a.symbol == symbol
                &&& a.symbol_unknown <==> symbol.len() == 0
                &&& a.name == if m.contains_key("name"@) && m["name"@] is Text {
                    m["name"@]->Text_0
                } else {
                    symbol
                }
                &&& a.native && a.builtin && a.enabled
                &&& a.address is None && a.logo_uri is None
                &&& a.source == "native"@
            }
        }),
{
}

/// The shapes of the keys of an asset row: no two of them are alike.
proof fn lemma_row_keys()
    ensures
        "raw"@.len() == 3,
        "name"@.len() == 4,
        "exact"@.len() == 5,
        "symbol"@.len() == 6 && "symbol"@[1] == 'y',
        "native"@.len() == 6 && "native"@[1] == 'a',
        "source"@.len() == 6 && "source"@[1] == 'o',
        "display"@.len() == 7 && "display"@[0] == 'd',
        "chainId"@.len() == 7 && "chainId"@[0] == 'c',
        "address"@.len() == 7 && "address"@[0] == 'a',
        "builtin"@.len() == 7 && "builtin"@[0] == 'b',
        "enabled"@.len() == 7 && "enabled"@[0] == 'e',
        "logoURI"@.len() == 7 && "logoURI"@[0] == 'l',
        "decimals"@.len() == 8,
        "amountExact"@.len() == 11,
        "symbolUnknown"@.len() == 13 && "symbolUnknown"@[0] == 's',
        "amountDisplay"@.len() == 13 && "amountDisplay"@[0] == 'a',
        "amount"@ + "Display"@ == "amountDisplay"@,
        "amount"@ + "Exact"@ == "amountExact"@,
{
    reveal_strlit("raw");
    reveal_strlit("display");
    reveal_strlit("exact");
    reveal_strlit("chainId");
    reveal_strlit("symbol");
    reveal_strlit("name");
    reveal_strlit("decimals");
    reveal_strlit("address");
    reveal_strlit("native");
    reveal_strlit("builtin");
    reveal_strlit("enabled");
    reveal_strlit("source");
    reveal_strlit("logoURI");
    reveal_strlit("symbolUnknown");
    reveal_strlit("amountDisplay");
    reveal_strlit("amountExact");
    reveal_strlit("amount");
    reveal_strlit("Display");
    reveal_strlit("Exact");
    assert("amount"@ + "Display"@ =~= "amountDisplay"@);
    assert("amount"@ + "Exact"@ =~= "amountExact"@);
}

/// A text under a key where there is one, and nothing where there is none.
pub open spec fn text_if(s: Option<Seq<char>>) -> Option<JsonView> {
    match s {
        Some(t) => Some(JsonView::Text(t)),
        None => None,
    }
}

/// The JSON object of an asset says what the asset is, each thing under its own key, and nothing
/// more; what an asset does not have is left out.
pub proof fn law_an_asset_row_says_what_the_asset_is(a: AssetView, other: Seq<char>)
    ensures
        ({
            let v = asset_json(a);
            &&& v is Object
            &&& json::member(v, "chainId"@) == Some(JsonView::Int(a.chain_id as int))
            &&& json::member(v, "symbol"@) == Some(JsonView::Text(a.symbol))
            &&& json::member(v, "name"@) == Some(JsonView::Text(a.name))
            &&& json::member(v, "decimals"@) == Some(JsonView::Int(a.decimals as int))
            &&& json::member(v, "address"@) == text_if(a.address)
            &&& json::member(v, "native"@) == Some(JsonView::Bool(a.native))
            &&& json::member(v, "builtin"@) == Some(JsonView::Bool(a.builtin))
            &&& json::member(v, "enabled"@) == Some(JsonView::Bool(a.enabled))
            &&& json::member(v, "source"@) == Some(JsonView::Text(a.source))
            &&& json::member(v, "logoURI"@) == text_if(a.logo_uri)
            &&& json::member(v, "symbolUnknown"@) == if a.symbol_unknown {
                Some(JsonView::Bool(true))
            } else {
                None
            }
            &&& json::member(v, other) is Some ==> other == "chainId"@ || other == "symbol"@
                || other == "name"@ || other == "decimals"@ || other == "address"@ || other
                == "native"@ || other == "builtin"@ || other == "enabled"@ || other == "source"@
                || other == "logoURI"@ || other == "symbolUnknown"@
        }),
{
    lemma_row_keys();
}

/// A balance row says what the asset is and what of it is held: the raw amount in decimal, its exact
/// and display texts at the asset's own decimals under both their keys, and an empty raw amount and
/// no text at all where it was not read.
pub proof fn law_a_balance_row_says_what_is_held(
    a: AssetView,
    amount: Option<nat>,
    other: Seq<char>,
)
    ensures
        ({
            let v = balance_row(a, amount);
            let raw = match amount {
                Some(n) => digits::decimal(n),
                None => ""@,
            };
            let display = match amount {
                Some(n) => units::display_text(raw, a.decimals as nat),
                None => None,
            };
            let exact = match amount {
                Some(n) => units::exact_text(raw, a.decimals as nat),
                None => None,
            };
            &&& json::member(v, "symbol"@) == Some(JsonView::Text(a.symbol))
            &&& json::member(v, "name"@) == Some(JsonView::Text(a.name))
            &&& json::member(v, "decimals"@) == Some(JsonView::Int(a.decimals as int))
            &&& json::member(v, "address"@) == text_if(a.address)
            &&& json::member(v, "native"@) == Some(JsonView::Bool(a.native))
            &&& json::member(v, "builtin"@) == Some(JsonView::Bool(a.builtin))
            &&& json::member(v, "chainId"@) is None
            &&& json::member(v, "enabled"@) is None
            &&& json::member(v, "source"@) is None
            &&& json::member(v, "logoURI"@) is None
            &&& json::member(v, "raw"@) == Some(JsonView::Text(raw))
            &&& json::member(v, "amountDisplay"@) == text_if(display)
            &&& json::member(v, "amountExact"@) == text_if(exact)
            &&& json::text_at(v, "display"@) == display
            &&& json::text_at(v, "exact"@) == exact
            &&& json::member(v, "symbolUnknown"@) == if a.symbol_unknown {
                Some(JsonView::Bool(true))
            } else {
                None
            }
            &&& json::member(v, other) is Some ==> other == "symbol"@ || other == "name"@ || other
                == "decimals"@ || other == "address"@ || other == "native"@ || other == "builtin"@
                || other == "raw"@ || other == "symbolUnknown"@ || amount is Some && (other
                == "amountDisplay"@ || other == "amountExact"@ || other == "display"@ || other
                == "exact"@)
        }),
{
    lemma_row_keys();
}

/// An order lists each row once.
pub proof fn law_an_order_lists_each_row_once(order: Seq<int>, ranks: Seq<RankView>)
    requires
        is_order(order, ranks, ranks.len() as int),
    ensures
        order.len() == ranks.len(),
        forall|i: int| 0 <= i < order.len() ==> 0 <= #[trigger] order[i] < ranks.len(),
        forall|v: int| 0 <= v < ranks.len() ==> #[trigger] order.contains(v),
        order.no_duplicates(),
{
    assert forall|i: int, j: int| 0 <= i < order.len() && 0 <= j < order.len() && i
        != j implies order[i] != order[j] by {
        if i < j {
            assert(goes_before(ranks, order[i], order[j]));
            lemma_goes_before_once(ranks, order[i], order[j]);
        } else {
            assert(goes_before(ranks, order[j], order[i]));
            lemma_goes_before_once(ranks, order[j], order[i]);
        }
    }
}

/// In the alphabetical order, of two rows that are both native or both tokens the one whose
/// lowercased symbol is smaller stands first, and where the symbols are one the one whose lowercased
/// address is smaller, whatever else the assets hold; where both are one they stand as they were
/// given.
pub proof fn law_the_alphabetical_order_goes_by_symbol_and_address(
    offered: Seq<AssetView>,
    raw: Seq<Option<nat>>,
    order: Seq<int>,
    i: int,
    j: int,
)
    requires
        is_order(order, ranks(offered, raw, TokenSort::Alpha), offered.len() as int),
        0 <= i < offered.len(),
        0 <= j < offered.len(),
        i != j,
        offered[order[i]].native == offered[order[j]].native,
    ensures
        ({
            let s = text::lowered(offered[order[i]].symbol);
            let t = text::lowered(offered[order[j]].symbol);
            let a = match offered[order[i]].address {
                Some(x) => text::lowered(x),
                None => Seq::empty(),
            };
            let b = match offered[order[j]].address {
                Some(x) => text::lowered(x),
                None => Seq::empty(),
            };
            &&& text::before(s, t) ==> i < j
            &&& s == t && text::before(a, b) ==> i < j
            &&& s == t && a == b && order[i] < order[j] ==> i < j
        }),
{
    let places = ranks(offered, raw, TokenSort::Alpha);
    reveal_strlit("");
    assert(text::lowered(""@) =~= Seq::empty());
    text::lemma_before_either(
        text::lowered(offered[order[i]].symbol),
        text::lowered(offered[order[j]].symbol),
    );
    text::lemma_before_either(places[order[i]].address, places[order[j]].address);
    if j < i {
        assert(goes_before(places, order[j], order[i]));
    }
}

/// By balance, of two rows that are both native or both tokens the one that holds more stands
/// first, one that holds something before one that does not, and where they hold the same, or
/// neither holds anything, they stand as in the alphabetical order.
pub proof fn law_the_balance_order_goes_by_what_is_held(
    offered: Seq<AssetView>,
    raw: Seq<Option<nat>>,
    order: Seq<int>,
    i: int,
    j: int,
)
    requires
        is_order(order, ranks(offered, raw, TokenSort::Balance), offered.len() as int),
        0 <= i < offered.len(),
        0 <= j < offered.len(),
        i != j,
        offered[order[i]].native == offered[order[j]].native,
    ensures
        ({
            let s = text::lowered(offered[order[i]].symbol);
            let t = text::lowered(offered[order[j]].symbol);
            let a = match offered[order[i]].address {
                Some(x) => text::lowered(x),
                None => Seq::empty(),
            };
            let b = match offered[order[j]].address {
                Some(x) => text::lowered(x),
                None => Seq::empty(),
            };
            let m = if order[i] < raw.len() && raw[order[i]] is Some {
                raw[order[i]]->0
            } else {
                0
            };
            let n = if order[j] < raw.len() && raw[order[j]] is Some {
                raw[order[j]]->0
            } else {
                0
            };
            &&& m > n ==> i < j
            &&& m == n && text::before(s, t) ==> i < j
            &&& m == n && s == t && text::before(a, b) ==> i < j
            &&& m == n && s == t && a == b && order[i] < order[j] ==> i < j
        }),
{
    let places = ranks(offered, raw, TokenSort::Balance);
    reveal_strlit("");
    assert(text::lowered(""@) =~= Seq::empty());
    text::lemma_before_either(
        text::lowered(offered[order[i]].symbol),
        text::lowered(offered[order[j]].symbol),
    );
    text::lemma_before_either(places[order[i]].address, places[order[j]].address);
    if j < i {
        assert(goes_before(places, order[j], order[i]));
    }
}

/// The balance rows are the offered assets, one row each: there is a listing of the assets, each
/// once, in the order of the rows, by which every row is that of its asset with what was read for
/// that very asset.
pub proof fn law_balance_rows_are_the_offered_assets(
    offered: Seq<AssetView>,
    raw: Seq<Option<nat>>,
    sort: TokenSort,
    order: Seq<int>,
)
    requires
        is_order(order, ranks(offered, raw, sort), offered.len() as int),
    ensures
        placed_rows(offered, raw, sort).len() == offered.len(),
        order.no_duplicates(),
        forall|i: int|
            0 <= i < offered.len() ==> {
                &&& 0 <= #[trigger] order[i] < offered.len()
                &&& placed_rows(offered, raw, sort)[i] == balance_row(
                    offered[order[i]],
                    if order[i] < raw.len() {
                        raw[order[i]]
                    } else {
                        None
                    },
                )
            },
{
    let places = ranks(offered, raw, sort);
    let chosen = choose|chosen: Seq<int>| is_order(chosen, places, offered.len() as int);
    law_one_order(order, chosen, places);
    law_an_order_lists_each_row_once(order, places);
}

/// There is an order for the rows of every offer.
pub proof fn law_every_offer_has_an_order(
    offered: Seq<AssetView>,
    raw: Seq<Option<nat>>,
    sort: TokenSort,
)
    ensures
        exists|order: Seq<int>|
            is_order(order, ranks(offered, raw, sort), offered.len() as int),
{
    lemma_some_order(ranks(offered, raw, sort), offered.len() as int);
}

proof fn lemma_some_order(places: Seq<RankView>, n: int)
    requires
        0 <= n <= places.len(),
    ensures
        exists|order: Seq<int>| is_order(order, places, n),
    decreases n,
{
    if n == 0 {
        assert(is_order(Seq::<int>::empty(), places, 0));
    } else {
        let m = n - 1;
        lemma_some_order(places, m);
        let order = choose|order: Seq<int>| is_order(order, places, m);
        let at = lemma_some_place(order, places, m, m);
        lemma_insert(order, places, m, at);
    }
}

/// Where the next row goes.
proof fn lemma_some_place(order: Seq<int>, places: Seq<RankView>, n: int, upto: int) -> (at: int)
    requires
        is_order(order, places, n),
        0 <= upto <= n < places.len(),
        forall|k: int| upto <= k < n ==> precedes(places[n], places[#[trigger] order[k]]),
    ensures
        0 <= at <= n,
        at > 0 ==> !precedes(places[n], places[order[at - 1]]),
        forall|k: int| at <= k < n ==> precedes(places[n], places[#[trigger] order[k]]),
    decreases upto,
{
    if upto > 0 && precedes(places[n], places[order[upto - 1]]) {
        lemma_some_place(order, places, n, upto - 1)
    } else {
        upto
    }
}

/// A key that is no address names what has it: if it is resolved, then to an offered asset whose
/// symbol is the trimmed key, whatever its case.
pub proof fn law_a_symbol_names_what_has_it(offered: Seq<AssetView>, key: Seq<char>)
    requires
        !address::is_address(text::trimmed(key)),
        resolution(offered, key) is Ok,
    ensures
        offered.contains(resolution(offered, key)->Ok_0),
        text::alike(resolution(offered, key)->Ok_0.symbol, text::trimmed(key)),
{
    let k = text::trimmed(key);
    let hits = named(offered, k);
    lemma_named(offered, k);
    lemma_first_native(hits);
    if first_native(hits) is Some {
        let i = choose|i: int| 0 <= i < hits.len() && hits[i] == first_native(hits)->0;
        assert(offered.contains(hits[i]));
        assert(text::alike(hits[i].symbol, k));
    } else {
        assert(offered.contains(hits[0]) && text::alike(hits[0].symbol, k));
    }
}

/// A symbol that exactly one offered asset has is resolved to that asset, whatever else is offered.
pub proof fn law_a_symbol_of_one_asset_names_it(offered: Seq<AssetView>, key: Seq<char>, i: int)
    requires
        !address::is_address(text::trimmed(key)),
        text::trimmed(key).len() > 0,
        0 <= i < offered.len(),
        text::alike(offered[i].symbol, text::trimmed(key)),
        forall|j: int|
            0 <= j < offered.len() && j != i ==> !text::alike(
                (#[trigger] offered[j]).symbol,
                text::trimmed(key),
            ),
    ensures
        resolution(offered, key) == Ok::<AssetView, Seq<char>>(offered[i]),
{
    let k = text::trimmed(key);
    lemma_named_once(offered, k, i);
    let hits = named(offered, k);
    assert(hits =~= seq![offered[i]]);
    lemma_first_native(hits);
    if first_native(hits) is Some {
        let j = choose|j: int| 0 <= j < hits.len() && hits[j] == first_native(hits)->0;
        assert(hits[j] == offered[i]);
    }
}

proof fn lemma_named_once(offered: Seq<AssetView>, key: Seq<char>, i: int)
    requires
        0 <= i < offered.len(),
        text::alike(offered[i].symbol, key),
        forall|j: int|
            0 <= j < offered.len() && j != i ==> !text::alike(
                (#[trigger] offered[j]).symbol,
                key,
            ),
    ensures
        named(offered, key) == seq![offered[i]],
    decreases offered.len(),
{
    let rest = offered.drop_last();
    if i < rest.len() {
        assert forall|j: int| 0 <= j < rest.len() && j != i implies !text::alike(
            (#[trigger] rest[j]).symbol,
            key,
        ) by {
            assert(rest[j] == offered[j]);
        }
        assert(!text::alike(offered[offered.len() - 1].symbol, key));
        lemma_named_once(rest, key, i);
    } else {
        lemma_named(rest, key);
        if named(rest, key).len() > 0 {
            let hit = named(rest, key)[0];
            assert(rest.contains(hit));
            let j = choose|j: int| 0 <= j < rest.len() && rest[j] == hit;
            assert(!text::alike(offered[j].symbol, key));
        }
        assert(named(offered, key) =~= seq![offered[i]]);
    }
}

/// A symbol that no offered asset has is refused, and so is a key of nothing but white space.
pub proof fn law_unknown_keys_are_refused(offered: Seq<AssetView>, key: Seq<char>)
    requires
        text::trimmed(key).len() == 0 || (!address::is_address(text::trimmed(key)) && forall|i: int|
            0 <= i < offered.len() ==> !text::alike(
                (#[trigger] offered[i]).symbol,
                text::trimmed(key),
            )),
    ensures
        resolution(offered, key) is Err,
{
    if text::trimmed(key).len() > 0 && resolution(offered, key) is Ok {
        law_a_symbol_names_what_has_it(offered, key);
        let a = resolution(offered, key)->Ok_0;
        let i = choose|i: int| 0 <= i < offered.len() && offered[i] == a;
        assert(!text::alike(offered[i].symbol, text::trimmed(key)));
    }
}

/// An address names the first offered asset that stands there.
pub proof fn law_an_address_names_the_first_asset_there(
    offered: Seq<AssetView>,
    key: Seq<char>,
    i: int,
)
    requires
        address::is_address(text::trimmed(key)),
        0 <= i < offered.len(),
        offered[i].address is Some && text::alike(offered[i].address->0, text::trimmed(key)),
        forall|j: int|
            0 <= j < i ==> !((#[trigger] offered[j]).address is Some && text::alike(
                offered[j].address->0,
                text::trimmed(key),
            )),
    ensures
        resolution(offered, key) == Ok::<AssetView, Seq<char>>(offered[i]),
{
    lemma_first_at_is(offered, text::trimmed(key), i);
}

/// The asset at an address is the first that stands there.
pub proof fn lemma_first_at_is(offered: Seq<AssetView>, key: Seq<char>, i: int)
    requires
        0 <= i < offered.len(),
        offered[i].address is Some && text::alike(offered[i].address->0, key),
        forall|j: int|
            0 <= j < i ==> !((#[trigger] offered[j]).address is Some && text::alike(
                offered[j].address->0,
                key,
            )),
    ensures
        first_at(offered, key) == Some(offered[i]),
    decreases offered.len(),
{
    if i > 0 {
        let rest = offered.drop_first();
        assert(!(offered[0].address is Some && text::alike(offered[0].address->0, key)));
        assert forall|j: int| 0 <= j < i - 1 implies !((#[trigger] rest[j]).address is Some
            && text::alike(rest[j].address->0, key)) by {
            assert(rest[j] == offered[j + 1]);
        }
        lemma_first_at_is(rest, key, i - 1);
    }
}

/// The order of the rows is named by its name, whatever the case of its letters and the white space
/// around it; nothing at all names the alphabetical one, and nothing else names any.
pub proof fn law_orders_are_named_by_their_names(value: Seq<char>)
    ensures
        sort_named(value) == Some(TokenSort::Balance) <==> text::alike(
            text::trimmed(value),
            "balance"@,
        ),
        sort_named(value) == Some(TokenSort::Alpha) <==> text::alike(
            text::trimmed(value),
            "alpha"@,
        ) || text::trimmed(value).len() == 0,
        sort_named(TokenSort::Balance.name()) == Some(TokenSort::Balance),
        sort_named(TokenSort::Alpha.name()) == Some(TokenSort::Alpha),
{
    reveal_strlit("alpha");
    reveal_strlit("balance");
    reveal_strlit("");
    assert(text::lowered("alpha"@) =~= "alpha"@);
    assert(text::lowered("balance"@) =~= "balance"@);
    assert("alpha"@.len() == 5 && "balance"@.len() == 7 && ""@.len() == 0);
    let name = text::lowered(text::trimmed(value));
    assert(name.len() == text::trimmed(value).len());
    if name.len() == 0 {
        assert(name =~= ""@);
    }
    assert(text::trimmed("alpha"@) == "alpha"@);
    assert(text::trimmed("balance"@) == "balance"@);
}

/// The first native asset is the one that none before it is native.
pub proof fn lemma_first_native_is(offered: Seq<AssetView>, i: int)
    requires
        0 <= i < offered.len(),
        offered[i].native,
        forall|j: int| 0 <= j < i ==> !(#[trigger] offered[j]).native,
    ensures
        first_native(offered) == Some(offered[i]),
    decreases offered.len(),
{
    if i > 0 {
        let rest = offered.drop_first();
        assert(!offered[0].native);
        assert forall|j: int| 0 <= j < i - 1 implies !(#[trigger] rest[j]).native by {
            assert(rest[j] == offered[j + 1]);
        }
        lemma_first_native_is(rest, i - 1);
    }
}

/// A symbol that native assets have names the first of those.
pub proof fn law_a_native_symbol_names_the_first(offered: Seq<AssetView>, key: Seq<char>, i: int)
    requires
        !address::is_address(text::trimmed(key)),
        text::trimmed(key).len() > 0,
        0 <= i < offered.len(),
        offered[i].native && text::alike(offered[i].symbol, text::trimmed(key)),
        forall|j: int|
            0 <= j < i ==> !((#[trigger] offered[j]).native && text::alike(
                offered[j].symbol,
                text::trimmed(key),
            )),
    ensures
        resolution(offered, key) == Ok::<AssetView, Seq<char>>(offered[i]),
{
    lemma_native_hit(offered, text::trimmed(key), i);
}

proof fn lemma_native_hit(offered: Seq<AssetView>, key: Seq<char>, i: int)
    requires
        0 <= i < offered.len(),
        offered[i].native && text::alike(offered[i].symbol, key),
        forall|j: int|
            0 <= j < i ==> !((#[trigger] offered[j]).native && text::alike(offered[j].symbol, key)),
    ensures
        first_native(named(offered, key)) == Some(offered[i]),
    decreases offered.len(),
{
    let rest = offered.drop_last();
    let before = named(rest, key);
    let hits = named(offered, key);
    if i < rest.len() {
        assert(rest[i] == offered[i]);
        assert forall|j: int| 0 <= j < i implies !((#[trigger] rest[j]).native && text::alike(
            rest[j].symbol,
            key,
        )) by {
            assert(rest[j] == offered[j]);
        }
        lemma_native_hit(rest, key, i);
        if hits.len() > before.len() {
            lemma_first_native_push(before, offered.last());
        }
    } else {
        lemma_named(rest, key);
        assert forall|k: int| 0 <= k < before.len() implies !(#[trigger] before[k]).native by {
            assert(rest.contains(before[k]));
            let j = choose|j: int| 0 <= j < rest.len() && rest[j] == before[k];
            assert(offered[j] == before[k]);
        }
        assert(hits == before.push(offered[i]));
        assert forall|k: int| 0 <= k < before.len() implies !(#[trigger] hits[k]).native by {
            assert(hits[k] == before[k]);
        }
        lemma_first_native_is(hits, before.len() as int);
    }
}

proof fn lemma_first_native_push(list: Seq<AssetView>, last: AssetView)
    requires
        first_native(list) is Some,
    ensures
        first_native(list.push(last)) == first_native(list),
    decreases list.len(),
{
    if list.len() > 0 && !list[0].native {
        assert(list.push(last).drop_first() =~= list.drop_first().push(last));
        lemma_first_native_push(list.drop_first(), last);
    }
}

/// A record that gives no native asset is refused for what it lacks, by the number of its chain.
pub proof fn law_a_record_is_refused_for_what_it_lacks(record: JsonView)
    ensures
        json::word_at(record, "chainId"@) is None ==> chain_asset(record) == Err::<
            AssetView,
            Seq<char>,
        >("chain record has no chainId"@),
        json::word_at(record, "chainId"@) is Some && json::byte_at(record, "nativeDecimals"@) is None
            ==> chain_asset(record) == Err::<AssetView, Seq<char>>(
            "chain "@ + digits::decimal(json::word_at(record, "chainId"@)->0 as nat)
                + " has no usable nativeDecimals metadata"@,
        ),
{
}

/// A key that names nothing is refused in these words, by the trimmed key; one that names several
/// tokens with their number and their addresses.
pub proof fn law_an_unresolved_key_is_told_why(offered: Seq<AssetView>, key: Seq<char>)
    ensures
        ({
            let k = text::trimmed(key);
            resolution(offered, key) matches Err(why) ==> {
                &&& k.len() == 0 ==> why == "no asset was named"@
                &&& k.len() > 0 && address::is_address(k) ==> why == "no offered token exists at "@
                    + k
                &&& k.len() > 0 && !address::is_address(k) && (forall|i: int|
                    0 <= i < offered.len() ==> !text::alike((#[trigger] offered[i]).symbol, k))
                    ==> why == "asset '"@ + k + "' is not offered"@
                &&& k.len() > 0 && !address::is_address(k) && (exists|i: int|
                    0 <= i < offered.len() && text::alike((#[trigger] offered[i]).symbol, k))
                    ==> why == "'"@ + k + "' names "@ + digits::decimal(named(offered, k).len())
                    + " offered contracts ("@ + address_list(named(offered, k))
                    + "); use an address"@
            }
        }),
{
    let k = text::trimmed(key);
    lemma_named(offered, k);
    if forall|i: int|
        0 <= i < offered.len() ==> !text::alike((#[trigger] offered[i]).symbol, k) {
        if named(offered, k).len() > 0 {
            let hit = named(offered, k)[0];
            assert(offered.contains(hit));
            let j = choose|j: int| 0 <= j < offered.len() && offered[j] == hit;
            assert(!text::alike(offered[j].symbol, k));
        }
    }
    if exists|i: int| 0 <= i < offered.len() && text::alike((#[trigger] offered[i]).symbol, k) {
        let i = choose|i: int|
            0 <= i < offered.len() && text::alike((#[trigger] offered[i]).symbol, k);
        assert(named(offered, k).contains(offered[i]));
    }
}

/// Those that a symbol names are the offered assets with it, in their order: taken list by list,
/// and asset by asset.
pub proof fn law_hits_are_the_assets_with_the_symbol(
    a: Seq<AssetView>,
    b: Seq<AssetView>,
    asset: AssetView,
    key: Seq<char>,
)
    ensures
        named(a + b, key) == named(a, key) + named(b, key),
        named(seq![asset], key) == if text::alike(asset.symbol, key) {
            seq![asset]
        } else {
            Seq::<AssetView>::empty()
        },
    decreases b.len(),
{
    let one = seq![asset];
    assert(one.drop_last() =~= Seq::empty());
    assert(named(one.drop_last(), key) =~= Seq::empty());
    assert(Seq::<AssetView>::empty().push(asset) =~= seq![asset]);
    if b.len() == 0 {
        assert(a + b =~= a);
        assert(named(a, key) + named(b, key) =~= named(a, key));
    } else {
        let rest = b.drop_last();
        law_hits_are_the_assets_with_the_symbol(a, rest, asset, key);
        assert((a + b).drop_last() =~= a + rest);
        assert((a + b).last() == b.last());
        assert(named(a + b, key) =~= named(a, key) + named(b, key));
    }
}

/// Addresses are listed in their order with a comma and a space between them.
pub proof fn law_addresses_are_listed_with_commas(list: Seq<AssetView>, asset: AssetView)
    ensures
        ({
            let any = exists|i: int| 0 <= i < list.len() && (#[trigger] list[i]).address is Some;
            &&& asset.address is None ==> address_list(list.push(asset)) == address_list(list)
            &&& asset.address is Some && any ==> address_list(list.push(asset)) == address_list(list)
                + seq![',', ' '] + asset.address->0
            &&& asset.address is Some && !any ==> address_list(list.push(asset)) == asset.address->0
        }),
{
    reveal_strlit(", ");
    assert(", "@ =~= seq![',', ' ']);
    assert(list.push(asset).drop_last() =~= list);
}

} // verus!
