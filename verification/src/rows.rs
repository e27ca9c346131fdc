//! Decorate sender history with the assets the caller gave for each row's own chain.
use vstd::prelude::*;

use crate::address;
use crate::address::Address;
use crate::assets;
use crate::assets::{find_at, Asset, AssetView};
use crate::json;
use crate::json::{Json, JsonView};
use crate::text;
use crate::text::{same, same_folded};
use crate::units;

verus! {

/// EIP-7708's emitter. Its Transfer logs move ether: it is never a token contract.
pub const SYSTEM_ADDRESS: &'static str = "0xfffffffffffffffffffffffffffffffffffffffe";

/// Whether `s` is the system address, whatever its case.
pub open spec fn names_system(s: Seq<char>) -> bool {
    text::alike(s, SYSTEM_ADDRESS@)
}

/// The text under `key`, where it is not empty.
pub open spec fn filled(v: JsonView, key: Seq<char>) -> Option<Seq<char>> {
    match json::text_at(v, key) {
        Some(s) => if s.len() > 0 {
            Some(s)
        } else {
            None
        },
        None => None,
    }
}

/// The text under `key`, empty where there is none.
pub open spec fn filled_or_empty(v: JsonView, key: Seq<char>) -> Seq<char> {
    match filled(v, key) {
        Some(s) => s,
        None => ""@,
    }
}

/// The offered asset at an address. The system address names no token, whatever is offered.
pub open spec fn token_at(offered: Seq<AssetView>, at: Seq<char>) -> Option<AssetView> {
    if names_system(at) {
        None
    } else {
        assets::first_at(offered, at)
    }
}

/// An address with its checksum; any other text as it is.
pub open spec fn checksum_text(s: Seq<char>) -> Seq<char> {
    if address::is_address(s) {
        address::checksummed(address::address_of(s))
    } else {
        s
    }
}

/// `v` with the text `s`, where there is one, under `key`.
pub open spec fn put_text(v: JsonView, key: Seq<char>, s: Option<Seq<char>>) -> JsonView {
    match s {
        Some(t) => json::put(v, key, JsonView::Text(t)),
        None => v,
    }
}

/// `s` with its checksum, where it is there.
pub open spec fn checksummed_if(s: Option<Seq<char>>) -> Option<Seq<char>> {
    match s {
        Some(t) => Some(checksum_text(t)),
        None => None,
    }
}

/// A row whose meta data say that it sent a token, read back as a transfer of that token.
pub open spec fn sent(row: JsonView) -> JsonView {
    let meta = assets::or_null(row, "meta"@);
    if filled(meta, "kind"@) != Some("erc20"@) {
        row
    } else {
        let v = json::put(row, "kind"@, JsonView::Text("erc20"@));
        let v = put_text(v, "token"@, checksummed_if(filled(meta, "token"@)));
        let v = put_text(v, "to"@, checksummed_if(filled(meta, "recipient"@)));
        let v = put_text(v, "tokenSymbol"@, filled(meta, "tokenSymbol"@));
        let v = put_text(v, "valueSymbol"@, filled(meta, "tokenSymbol"@));
        let v = match (filled(meta, "amount"@), json::byte_at(meta, "tokenDecimals"@)) {
            (Some(amount), Some(decimals)) => {
                let v = json::put(v, "value"@, JsonView::Text(amount));
                let v = json::put(v, "valueDecimals"@, JsonView::Int(decimals as int));
                units::decorated(v, "value"@, amount, decimals as nat)
            },
            _ => v,
        };
        let v = json::drop(v, "totalWei"@);
        let v = json::drop(v, "totalWeiDisplay"@);
        json::drop(v, "totalWeiExact"@)
    }
}

/// A row that says which contract the transaction called: whether that is not the recipient, and
/// which offered token it is.
pub open spec fn interacted(row: JsonView, offered: Seq<AssetView>) -> JsonView {
    match filled(row, "txTo"@) {
        None => row,
        Some(target) => {
            let differs = !text::alike(target, filled_or_empty(row, "to"@));
            let v = json::put(row, "interactedWithDiffers"@, JsonView::Bool(differs));
            match token_at(offered, target) {
                Some(asset) => json::put(
                    v,
                    "interactedWithSymbol"@,
                    JsonView::Text(asset.symbol),
                ),
                None => v,
            }
        },
    }
}

/// An entry priced in an asset: its symbol, its decimals, and the texts of the amount.
pub open spec fn priced(entry: JsonView, asset: AssetView) -> JsonView {
    let v = json::put(entry, "symbol"@, JsonView::Text(asset.symbol));
    let v = json::put(v, "decimals"@, JsonView::Int(asset.decimals as int));
    match filled(v, "amount"@) {
        Some(amount) => units::decorated(v, "amount"@, amount, asset.decimals as nat),
        None => v,
    }
}

/// A token transfer that says whether its contract is offered, priced in it where it is.
pub open spec fn looked_up(transfer: JsonView, offered: Seq<AssetView>) -> JsonView {
    match token_at(offered, filled_or_empty(transfer, "contract"@)) {
        Some(asset) => priced(json::put(transfer, "known"@, JsonView::Bool(true)), asset),
        None => json::put(transfer, "known"@, JsonView::Bool(false)),
    }
}

/// The token transfers of a list, looked up; those of the system address move ether and are left
/// out.
pub open spec fn token_transfers(list: Seq<JsonView>, offered: Seq<AssetView>) -> Seq<JsonView>
    decreases list.len(),
{
    if list.len() == 0 {
        Seq::empty()
    } else {
        let rest = token_transfers(list.drop_last(), offered);
        if names_system(filled_or_empty(list.last(), "contract"@)) {
            rest
        } else {
            rest.push(looked_up(list.last(), offered))
        }
    }
}

/// A row with its token transfers looked up, and no list of them where no token moved.
pub open spec fn received(row: JsonView, offered: Seq<AssetView>) -> JsonView {
    match json::items_at(row, "transfers"@) {
        None => row,
        Some(list) => {
            let kept = token_transfers(list, offered);
            if kept.len() == 0 {
                json::drop(row, "transfers"@)
            } else {
                json::put(row, "transfers"@, JsonView::Array(kept))
            }
        },
    }
}

/// The native asset that ether is priced in: the first one whose symbol is known.
pub open spec fn pricing_native(offered: Seq<AssetView>) -> Option<AssetView>
    decreases offered.len(),
{
    if offered.len() == 0 {
        None
    } else if offered[0].native && !offered[0].symbol_unknown {
        Some(offered[0])
    } else {
        pricing_native(offered.drop_first())
    }
}

/// The entries of a list, each priced in `asset`.
pub open spec fn all_priced(list: Seq<JsonView>, asset: AssetView) -> Seq<JsonView> {
    list.map_values(|entry: JsonView| priced(entry, asset))
}

/// A row with its ether transfers priced in the native asset of the chain, where that has a
/// symbol.
pub open spec fn ether_priced(row: JsonView, offered: Seq<AssetView>) -> JsonView {
    match (pricing_native(offered), json::items_at(row, "nativeTransfers"@)) {
        (Some(native), Some(list)) => json::put(
            row,
            "nativeTransfers"@,
            JsonView::Array(all_priced(list, native)),
        ),
        _ => row,
    }
}

/// A history row, decorated with the assets of its chain.
pub open spec fn decorated_row(row: JsonView, offered: Seq<AssetView>) -> JsonView {
    ether_priced(received(interacted(sent(row), offered), offered), offered)
}

/// Whether every entry of the list under `key` can be written to.
pub open spec fn entries_writable(row: JsonView, key: Seq<char>) -> bool {
    match json::items_at(row, key) {
        Some(list) => forall|i: int| 0 <= i < list.len() ==> json::writable(#[trigger] list[i]),
        None => true,
    }
}

/// Whether a row can be decorated: what has to be written to can be.
pub open spec fn can_decorate(row: JsonView, offered: Seq<AssetView>) -> bool {
    &&& entries_writable(row, "transfers"@)
    &&& pricing_native(offered) is Some ==> entries_writable(row, "nativeTransfers"@)
}

/// Whether `s` is the system address.
fn is_system(s: &str) -> (r: bool)
    ensures
        r == names_system(s@),
{
    same_folded(s, SYSTEM_ADDRESS)
}

/// The text under `key`, where it is not empty.
fn filled_text<'a>(v: &'a Json, key: &str) -> (r: Option<&'a str>)
    ensures
        match filled(v@, key@) {
            Some(s) => r matches Some(t) && t@ == s,
            None => r is None,
        },
{
    match v.get_str(key) {
        Some(s) => if s.unicode_len() > 0 {
            Some(s)
        } else {
            None
        },
        None => None,
    }
}

/// The text under `key`, empty where there is none.
fn filled_text_or_empty(v: &Json, key: &str) -> (r: String)
    ensures
        r@ == filled_or_empty(v@, key@),
{
    match filled_text(v, key) {
        Some(s) => s.to_owned(),
        None => "".to_owned(),
    }
}

/// The offered asset at an address.
fn at<'a>(offered: &'a [Asset], address: &str) -> (r: Option<&'a Asset>)
    ensures
        match token_at(assets::views(offered@), address@) {
            Some(a) => r matches Some(b) && b@ == a,
            None => r is None,
        },
{
    if is_system(address) {
        return None;
    }
    find_at(offered, address)
}

/// An address with its checksum; any other text as it is.
fn checksum(value: &str) -> (r: String)
    ensures
        r@ == checksum_text(value@),
{
    match Address::parse(value) {
        Ok(a) => a.to_checksum(),
        Err(_) => value.to_owned(),
    }
}

/// Reads a row that sent a token back as a transfer of that token.
fn decorate_sent(row: &mut Json)
    ensures
        final(row)@ == sent(old(row)@),
{
    let meta = match row.get("meta") {
        Some(v) => v.clone(),
        None => Json::Null,
    };
    let erc20 = match filled_text(&meta, "kind") {
        Some(kind) => same(kind, "erc20"),
        None => false,
    };
    if !erc20 {
        return;
    }
    row.set("kind", Json::text("erc20"));
    match filled_text(&meta, "token") {
        Some(token) => row.set("token", Json::Text(checksum(token))),
        None => {},
    }
    match filled_text(&meta, "recipient") {
        Some(recipient) => row.set("to", Json::Text(checksum(recipient))),
        None => {},
    }
    match filled_text(&meta, "tokenSymbol") {
        Some(symbol) => {
            row.set("tokenSymbol", Json::text(symbol));
            row.set("valueSymbol", Json::text(symbol));
        },
        None => {},
    }
    match (filled_text(&meta, "amount"), meta.get_u8("tokenDecimals")) {
        (Some(amount), Some(decimals)) => {
            row.set("value", Json::text(amount));
            row.set("valueDecimals", Json::Unsigned(decimals as u64));
            units::decorate(row, "value", amount, decimals);
        },
        _ => {},
    }
    row.remove("totalWei");
    row.remove("totalWeiDisplay");
    row.remove("totalWeiExact");
}

/// Says of a row which contract the transaction called.
fn decorate_interaction(row: &mut Json, offered: &[Asset])
    ensures
        final(row)@ == interacted(old(row)@, assets::views(offered@)),
{
    let target = match filled_text(row, "txTo") {
        Some(s) => s.to_owned(),
        None => return,
    };
    let recipient = filled_text_or_empty(row, "to");
    let differs = !same_folded(target.as_str(), recipient.as_str());
    row.set("interactedWithDiffers", Json::Bool(differs));
    match at(offered, target.as_str()) {
        Some(asset) => row.set("interactedWithSymbol", Json::text(asset.symbol.as_str())),
        None => {},
    }
}

/// Prices an entry in an asset.
fn price(entry: &mut Json, asset: &Asset)
    requires
        json::writable(old(entry)@),
    ensures
        final(entry)@ == priced(old(entry)@, asset@),
{
    entry.set("symbol", Json::text(asset.symbol.as_str()));
    entry.set("decimals", Json::Unsigned(asset.decimals as u64));
    let amount = match filled_text(entry, "amount") {
        Some(s) => s.to_owned(),
        None => return,
    };
    units::decorate(entry, "amount", amount.as_str(), asset.decimals);
}

/// Says of a token transfer whether its contract is offered.
fn look_up(transfer: &mut Json, offered: &[Asset])
    requires
        json::writable(old(transfer)@),
    ensures
        final(transfer)@ == looked_up(old(transfer)@, assets::views(offered@)),
{
    let contract = filled_text_or_empty(transfer, "contract");
    match at(offered, contract.as_str()) {
        Some(asset) => {
            transfer.set("known", Json::Bool(true));
            price(transfer, asset);
        },
        None => transfer.set("known", Json::Bool(false)),
    }
}

/// Looks up the token transfers of a row.
fn decorate_transfers(row: &mut Json, offered: &[Asset])
    requires
        entries_writable(old(row)@, "transfers"@),
    ensures
        final(row)@ == received(old(row)@, assets::views(offered@)),
{
    let mut kept: Vec<Json> = Vec::new();
    match row.get_array("transfers") {
        None => return,
        Some(list) => {
            let ghost all = json::trees(list@);
            let ghost given = assets::views(offered@);
            let mut i: usize = 0;
            assert(json::trees(kept@) =~= token_transfers(all.take(0), given));
            while i < list.len()
                invariant
                    i <= list.len(),
                    all == json::trees(list@),
                    given == assets::views(offered@),
                    forall|k: int| 0 <= k < all.len() ==> json::writable(#[trigger] all[k]),
                    json::trees(kept@) == token_transfers(all.take(i as int), given),
                decreases list.len() - i,
            {
                proof {
                    assert(all.take(i + 1).drop_last() =~= all.take(i as int));
                    assert(all.take(i + 1).last() == all[i as int]);
                    assert(all[i as int] == list@[i as int]@);
                }
                let contract = filled_text_or_empty(&list[i], "contract");
                if !is_system(contract.as_str()) {
                    let mut transfer = list[i].clone();
                    look_up(&mut transfer, offered);
                    proof {
                        json::lemma_trees(kept@, transfer);
                    }
                    kept.push(transfer);
                }
                i = i + 1;
            }
            assert(all.take(all.len() as int) =~= all);
        },
    }
    assert(json::trees(kept@).len() == kept.len());
    if kept.len() == 0 {
        row.remove("transfers");
    } else {
        row.set("transfers", Json::Array(kept));
    }
}

/// The native asset that ether is priced in.
fn find_pricing(offered: &[Asset]) -> (r: Option<&Asset>)
    ensures
        match pricing_native(assets::views(offered@)) {
            Some(a) => r matches Some(b) && b@ == a,
            None => r is None,
        },
{
    let ghost all = assets::views(offered@);
    let mut i: usize = 0;
    assert(all.skip(0) =~= all);
    while i < offered.len()
        invariant
            i <= offered.len(),
            all == assets::views(offered@),
            pricing_native(all.skip(i as int)) == pricing_native(all),
        decreases offered.len() - i,
    {
        assert(all.skip(i as int)[0] == offered@[i as int]@);
        if offered[i].native && !offered[i].symbol_unknown {
            return Some(&offered[i]);
        }
        assert(all.skip(i as int).drop_first() =~= all.skip(i + 1));
        i = i + 1;
    }
    None
}

/// Prices the ether transfers of a row in the native asset of the chain.
fn decorate_ether(row: &mut Json, offered: &[Asset])
    requires
        pricing_native(assets::views(offered@)) is Some ==> entries_writable(
            old(row)@,
            "nativeTransfers"@,
        ),
    ensures
        final(row)@ == ether_priced(old(row)@, assets::views(offered@)),
{
    let native = match find_pricing(offered) {
        Some(a) => a,
        None => return,
    };
    let mut out: Vec<Json> = Vec::new();
    match row.get_array("nativeTransfers") {
        None => return,
        Some(list) => {
            let ghost all = json::trees(list@);
            let mut i: usize = 0;
            while i < list.len()
                invariant
                    i <= list.len(),
                    all == json::trees(list@),
                    forall|k: int| 0 <= k < all.len() ==> json::writable(#[trigger] all[k]),
                    json::trees(out@) == all_priced(all, native@).take(i as int),
                decreases list.len() - i,
            {
                assert(all[i as int] == list@[i as int]@);
                let mut entry = list[i].clone();
                price(&mut entry, native);
                proof {
                    json::lemma_trees(out@, entry);
                    assert(all_priced(all, native@).take(i + 1) =~= all_priced(all, native@).take(
                        i as int,
                    ).push(priced(all[i as int], native@)));
                }
                out.push(entry);
                i = i + 1;
            }
            assert(all_priced(all, native@).take(all.len() as int) =~= all_priced(all, native@));
        },
    }
    row.set("nativeTransfers", Json::Array(out));
}

/// Writing the texts of an amount leaves every other key as it is.
proof fn lemma_decorated_keeps(
    v: JsonView,
    prefix: Seq<char>,
    raw: Seq<char>,
    decimals: nat,
    key: Seq<char>,
)
    requires
        key != prefix + "Display"@,
        key != prefix + "Exact"@,
        v is Object,
    ensures
        json::member(units::decorated(v, prefix, raw, decimals), key) == json::member(v, key),
        units::decorated(v, prefix, raw, decimals) is Object,
{
}

/// The keys of the two lists of transfers are none of those that the other parts of a row are
/// written under.
proof fn lemma_lists_kept(row: JsonView, offered: Seq<AssetView>, key: Seq<char>)
    requires
        key == "transfers"@ || key == "nativeTransfers"@,
    ensures
        json::member(sent(row), key) == json::member(row, key),
        json::member(interacted(row, offered), key) == json::member(row, key),
        key == "nativeTransfers"@ ==> json::member(received(row, offered), key) == json::member(
            row,
            key,
        ),
{
    reveal_strlit("transfers");
    reveal_strlit("nativeTransfers");
    reveal_strlit("kind");
    reveal_strlit("token");
    reveal_strlit("to");
    reveal_strlit("tokenSymbol");
    reveal_strlit("valueSymbol");
    reveal_strlit("value");
    reveal_strlit("valueDecimals");
    reveal_strlit("Display");
    reveal_strlit("Exact");
    reveal_strlit("totalWei");
    reveal_strlit("totalWeiDisplay");
    reveal_strlit("totalWeiExact");
    reveal_strlit("interactedWithDiffers");
    reveal_strlit("interactedWithSymbol");
    assert("totalWeiDisplay"@[0] == 't' && "nativeTransfers"@[0] == 'n');
    assert(key.len() == 9 || key.len() == 15);
    assert("kind"@.len() == 4 && "token"@.len() == 5 && "to"@.len() == 2);
    assert("tokenSymbol"@.len() == 11 && "valueSymbol"@.len() == 11);
    assert("value"@.len() == 5 && "valueDecimals"@.len() == 13);
    assert("interactedWithDiffers"@.len() == 21 && "interactedWithSymbol"@.len() == 20);
    assert(("value"@ + "Display"@).len() == 12 && ("value"@ + "Exact"@).len() == 10);
    let meta = assets::or_null(row, "meta"@);
    if filled(meta, "kind"@) == Some("erc20"@) {
        assert(row is Object);
        let v = json::put(row, "kind"@, JsonView::Text("erc20"@));
        assert(v is Object && json::member(v, key) == json::member(row, key));
        let v = put_text(v, "token"@, checksummed_if(filled(meta, "token"@)));
        let v = put_text(v, "to"@, checksummed_if(filled(meta, "recipient"@)));
        assert(v is Object && json::member(v, key) == json::member(row, key));
        let v = put_text(v, "tokenSymbol"@, filled(meta, "tokenSymbol"@));
        let v = put_text(v, "valueSymbol"@, filled(meta, "tokenSymbol"@));
        assert(v is Object && json::member(v, key) == json::member(row, key));
        match (filled(meta, "amount"@), json::byte_at(meta, "tokenDecimals"@)) {
            (Some(amount), Some(decimals)) => {
                let v = json::put(v, "value"@, JsonView::Text(amount));
                let v = json::put(v, "valueDecimals"@, JsonView::Int(decimals as int));
                lemma_decorated_keeps(v, "value"@, amount, decimals as nat, key);
            },
            _ => {},
        }
    }
}

/// Decorates a history row with the assets of its chain.
pub fn decorate_row(row: &mut Json, offered: &[Asset])
    requires
        can_decorate(old(row)@, assets::views(offered@)),
    ensures
        final(row)@ == decorated_row(old(row)@, assets::views(offered@)),
{
    proof {
        let given = assets::views(offered@);
        lemma_lists_kept(row@, given, "transfers"@);
        lemma_lists_kept(sent(row@), given, "transfers"@);
        lemma_lists_kept(row@, given, "nativeTransfers"@);
        lemma_lists_kept(sent(row@), given, "nativeTransfers"@);
        lemma_lists_kept(interacted(sent(row@), given), given, "nativeTransfers"@);
    }
    decorate_sent(row);
    decorate_interaction(row, offered);
    decorate_transfers(row, offered);
    decorate_ether(row, offered);
}

/// Whether every entry of the list under `key` can be written to.
fn are_entries_writable(row: &Json, key: &str) -> (r: bool)
    ensures
        r == entries_writable(row@, key@),
{
    match row.get_array(key) {
        None => true,
        Some(list) => {
            let ghost all = json::trees(list@);
            let mut i: usize = 0;
            while i < list.len()
                invariant
                    i <= list.len(),
                    all == json::trees(list@),
                    json::items_at(row@, key@) == Some(all),
                    forall|k: int| 0 <= k < i ==> json::writable(#[trigger] all[k]),
                decreases list.len() - i,
            {
                assert(all[i as int] == list@[i as int]@);
                if !list[i].is_object() && !list[i].is_null() {
                    assert(all.len() == list.len());
                    assert(!json::writable(json::items_at(row@, key@)->0[i as int]));
                    return false;
                }
                i = i + 1;
            }
            true
        },
    }
}

/// Whether a row can be decorated.
pub fn is_decoratable(row: &Json, offered: &[Asset]) -> (r: bool)
    ensures
        r == can_decorate(row@, assets::views(offered@)),
{
    if !are_entries_writable(row, "transfers") {
        return false;
    }
    match find_pricing(offered) {
        Some(_) => are_entries_writable(row, "nativeTransfers"),
        None => true,
    }
}

/// The chain of a row, zero where it names none.
pub open spec fn chain_of(row: JsonView) -> u64 {
    match json::word_at(row, "chainId"@) {
        Some(id) => id,
        None => 0,
    }
}

/// The rows of a history.
pub open spec fn history_rows(v: JsonView) -> Option<Seq<JsonView>> {
    json::items_at(v, "transactions"@)
}

/// A history with its rows replaced.
pub open spec fn with_rows(v: JsonView, rows: Seq<JsonView>) -> JsonView {
    match history_rows(v) {
        Some(_) => json::put(v, "transactions"@, JsonView::Array(rows)),
        None => v,
    }
}

/// Whether `tables` is a table of assets for each of `rows`: what `offered_for` hands out for the
/// row's own chain, asked anew where the chain changes from one row to the next.
pub open spec fn are_tables<F: FnMut(u64) -> Vec<Asset>>(
    offered_for: F,
    rows: Seq<JsonView>,
    tables: Seq<Seq<AssetView>>,
) -> bool {
    &&& tables.len() == rows.len()
    &&& forall|i: int|
        0 <= i < rows.len() ==> #[trigger] is_table(offered_for, chain_of(rows[i]), tables[i])
    &&& forall|i: int|
        0 < i < rows.len() && chain_of(rows[i - 1]) == chain_of(rows[i]) ==> #[trigger] tables[i]
            == tables[i - 1]
}

/// Whether `table` is what `offered_for` hands out for `chain`.
pub open spec fn is_table<F: FnMut(u64) -> Vec<Asset>>(
    offered_for: F,
    chain: u64,
    table: Seq<AssetView>,
) -> bool {
    exists|list: Vec<Asset>| #[trigger]
        call_ensures(offered_for, (chain,), list) && assets::views(list@) == table
}

/// The rows of a history, each decorated with its own table.
pub open spec fn decorated_rows(
    rows: Seq<JsonView>,
    tables: Seq<Seq<AssetView>>,
) -> Seq<JsonView> {
    Seq::new(rows.len(), |i: int| decorated_row(rows[i], tables[i]))
}

/// Decorates every row of a history with the assets that `offered_for` hands out for the row's
/// own chain. What holds no list of transactions stays as it is.
pub fn decorate_history<F: FnMut(u64) -> Vec<Asset>>(value: &mut Json, mut offered_for: F)
    requires
        forall|chain: u64| call_requires(offered_for, (chain,)),
        match history_rows(old(value)@) {
            Some(rows) => forall|i: int, list: Vec<Asset>|
                0 <= i < rows.len() && #[trigger] call_ensures(
                    offered_for,
                    (chain_of(#[trigger] rows[i]),),
                    list,
                ) ==> can_decorate(rows[i], assets::views(list@)),
            None => true,
        },
    ensures
        match history_rows(old(value)@) {
            Some(rows) => exists|tables: Seq<Seq<AssetView>>|
                {
                    &&& #[trigger] are_tables(offered_for, rows, tables)
                    &&& final(value)@ == with_rows(old(value)@, decorated_rows(rows, tables))
                },
            None => final(value)@ == old(value)@,
        },
{
    let mut out: Vec<Json> = Vec::new();
    let ghost mut tables: Seq<Seq<AssetView>> = Seq::empty();
    let ghost asked = offered_for;
    match value.get_array("transactions") {
        None => return,
        Some(list) => {
            let ghost rows = json::trees(list@);
            let mut current: Option<u64> = None;
            let mut offered: Vec<Asset> = Vec::new();
            let mut i: usize = 0;
            while i < list.len()
                invariant
                    i <= list.len(),
                    rows == json::trees(list@),
                    offered_for == asked,
                    forall|chain: u64| call_requires(offered_for, (chain,)),
                    forall|k: int, list: Vec<Asset>|
                        0 <= k < rows.len() && #[trigger] call_ensures(
                            offered_for,
                            (chain_of(#[trigger] rows[k]),),
                            list,
                        ) ==> can_decorate(rows[k], assets::views(list@)),
                    tables.len() == i,
                    forall|k: int|
                        0 <= k < i ==> #[trigger] is_table(
                            offered_for,
                            chain_of(rows[k]),
                            tables[k],
                        ),
                    forall|k: int|
                        0 < k < i && chain_of(rows[k - 1]) == chain_of(rows[k])
                            ==> #[trigger] tables[k] == tables[k - 1],
                    i > 0 ==> current == Some(chain_of(rows[i - 1])) && tables[i - 1]
                        == assets::views(offered@),
                    i == 0 ==> current is None,
                    current matches Some(chain) ==> call_ensures(offered_for, (chain,), offered),
                    json::trees(out@) == Seq::new(
                        i as nat,
                        |k: int| decorated_row(rows[k], tables[k]),
                    ),
                decreases list.len() - i,
            {
                assert(rows[i as int] == list@[i as int]@);
                let chain: u64 = match list[i].get_u64("chainId") {
                    Some(id) => id,
                    None => 0,
                };
                if current != Some(chain) {
                    offered = offered_for(chain);
                    current = Some(chain);
                }
                assert(call_ensures(offered_for, (chain_of(rows[i as int]),), offered));
                let mut row = list[i].clone();
                decorate_row(&mut row, offered.as_slice());
                proof {
                    let table = assets::views(offered@);
                    let before = tables;
                    assert(is_table(offered_for, chain, table));
                    tables = before.push(table);
                    json::lemma_trees(out@, row);
                    assert(json::trees(out@.push(row)) =~= Seq::new(
                        (i + 1) as nat,
                        |k: int| decorated_row(rows[k], tables[k]),
                    ));
                    assert forall|k: int| 0 <= k < i + 1 implies #[trigger] is_table(
                        offered_for,
                        chain_of(rows[k]),
                        tables[k],
                    ) by {
                        if k < i {
                            assert(is_table(offered_for, chain_of(rows[k]), before[k]));
                        }
                    }
                    assert forall|k: int|
                        0 < k < i + 1 && chain_of(rows[k - 1]) == chain_of(
                            rows[k],
                        ) implies #[trigger] tables[k] == tables[k - 1] by {
                        if k < i {
                            assert(before[k] == before[k - 1]);
                        }
                    }
                }
                out.push(row);
                i = i + 1;
            }
            proof {
                assert(json::trees(out@) =~= decorated_rows(rows, tables));
                assert(are_tables(offered_for, rows, tables));
            }
        },
    }
    value.set("transactions", Json::Array(out));
}

/// `v` with `w`, where it is there, under `key`.
pub open spec fn put_if(v: JsonView, key: Seq<char>, w: Option<JsonView>) -> JsonView {
    match w {
        Some(x) => json::put(v, key, x),
        None => v,
    }
}

/// A row with the name, the native symbol and the testnet mark of its chain's record, each where
/// the record has it.
pub open spec fn networked_row(row: JsonView, record: Option<JsonView>) -> JsonView {
    match record {
        None => row,
        Some(r) => {
            let v = put_if(row, "network"@, json::member(r, "name"@));
            let v = put_if(v, "nativeSymbol"@, json::member(r, "nativeSymbol"@));
            put_if(v, "testnet"@, json::member(r, "testnet"@))
        },
    }
}

/// Whether a row can take what a record has for it.
pub open spec fn can_network(row: JsonView, record: Option<JsonView>) -> bool {
    json::writable(row) || match record {
        None => true,
        Some(r) => json::member(r, "name"@) is None && json::member(r, "nativeSymbol"@) is None
            && json::member(r, "testnet"@) is None,
    }
}

/// What the record is, where there is one.
pub open spec fn record_view(record: Option<Json>) -> Option<JsonView> {
    match record {
        Some(r) => Some(r@),
        None => None,
    }
}

/// Whether `record` is what `record_for` hands out for `chain`.
pub open spec fn is_record<F: FnMut(u64) -> Option<Json>>(
    record_for: F,
    chain: u64,
    record: Option<JsonView>,
) -> bool {
    exists|r: Option<Json>| #[trigger]
        call_ensures(record_for, (chain,), r) && record_view(r) == record
}

/// Whether `records` holds for each of `rows` what `record_for` hands out for the row's own chain.
pub open spec fn are_records<F: FnMut(u64) -> Option<Json>>(
    record_for: F,
    rows: Seq<JsonView>,
    records: Seq<Option<JsonView>>,
) -> bool {
    &&& records.len() == rows.len()
    &&& forall|i: int|
        0 <= i < rows.len() ==> #[trigger] is_record(record_for, chain_of(rows[i]), records[i])
}

/// The rows of a history, each with what its own record has for it.
pub open spec fn networked_rows(
    rows: Seq<JsonView>,
    records: Seq<Option<JsonView>>,
) -> Seq<JsonView> {
    Seq::new(rows.len(), |i: int| networked_row(rows[i], records[i]))
}

/// Whether a row can take what a record has for it.
pub fn is_networkable(row: &Json, record: &Option<Json>) -> (r: bool)
    ensures
        r == can_network(row@, record_view(*record)),
{
    if row.is_object() || row.is_null() {
        return true;
    }
    match record {
        None => true,
        Some(r) => r.get("name").is_none() && r.get("nativeSymbol").is_none() && r.get(
            "testnet",
        ).is_none(),
    }
}

/// Writes the display metadata of a chain's record into a row.
pub fn network_row(row: &mut Json, record: &Option<Json>)
    requires
        can_network(old(row)@, record_view(*record)),
    ensures
        final(row)@ == networked_row(old(row)@, record_view(*record)),
{
    match record {
        None => {},
        Some(r) => {
            match r.get("name") {
                Some(name) => row.set("network", name.clone()),
                None => {},
            }
            match r.get("nativeSymbol") {
                Some(symbol) => row.set("nativeSymbol", symbol.clone()),
                None => {},
            }
            match r.get("testnet") {
                Some(testnet) => row.set("testnet", testnet.clone()),
                None => {},
            }
        },
    }
}

/// Attaches display metadata from the authoritative chain registry to every history row. The
/// sender owns transaction state; how a chain-scoped row is presented is decided here, so
/// consumers never need their own chain-name join.
pub fn decorate_history_networks<F: FnMut(u64) -> Option<Json>>(
    value: &mut Json,
    mut record_for: F,
)
    requires
        forall|chain: u64| call_requires(record_for, (chain,)),
        match history_rows(old(value)@) {
            Some(rows) => forall|i: int, record: Option<Json>|
                0 <= i < rows.len() && #[trigger] call_ensures(
                    record_for,
                    (chain_of(#[trigger] rows[i]),),
                    record,
                ) ==> can_network(rows[i], record_view(record)),
            None => true,
        },
    ensures
        match history_rows(old(value)@) {
            Some(rows) => exists|records: Seq<Option<JsonView>>|
                {
                    &&& #[trigger] are_records(record_for, rows, records)
                    &&& final(value)@ == with_rows(old(value)@, networked_rows(rows, records))
                },
            None => final(value)@ == old(value)@,
        },
{
    let mut out: Vec<Json> = Vec::new();
    let ghost mut records: Seq<Option<JsonView>> = Seq::empty();
    let ghost asked = record_for;
    match value.get_array("transactions") {
        None => return,
        Some(list) => {
            let ghost rows = json::trees(list@);
            let mut i: usize = 0;
            while i < list.len()
                invariant
                    i <= list.len(),
                    rows == json::trees(list@),
                    record_for == asked,
                    forall|chain: u64| call_requires(record_for, (chain,)),
                    forall|k: int, record: Option<Json>|
                        0 <= k < rows.len() && #[trigger] call_ensures(
                            record_for,
                            (chain_of(#[trigger] rows[k]),),
                            record,
                        ) ==> can_network(rows[k], record_view(record)),
                    records.len() == i,
                    forall|k: int|
                        0 <= k < i ==> #[trigger] is_record(
                            record_for,
                            chain_of(rows[k]),
                            records[k],
                        ),
                    json::trees(out@) == Seq::new(
                        i as nat,
                        |k: int| networked_row(rows[k], records[k]),
                    ),
                decreases list.len() - i,
            {
                assert(rows[i as int] == list@[i as int]@);
                let chain: u64 = match list[i].get_u64("chainId") {
                    Some(id) => id,
                    None => 0,
                };
                let record = record_for(chain);
                assert(call_ensures(record_for, (chain_of(rows[i as int]),), record));
                let mut row = list[i].clone();
                network_row(&mut row, &record);
                proof {
                    let before = records;
                    assert(is_record(record_for, chain, record_view(record)));
                    records = before.push(record_view(record));
                    json::lemma_trees(out@, row);
                    assert(json::trees(out@.push(row)) =~= Seq::new(
                        (i + 1) as nat,
                        |k: int| networked_row(rows[k], records[k]),
                    ));
                    assert forall|k: int| 0 <= k < i + 1 implies #[trigger] is_record(
                        record_for,
                        chain_of(rows[k]),
                        records[k],
                    ) by {
                        if k < i {
                            assert(is_record(record_for, chain_of(rows[k]), before[k]));
                        }
                    }
                }
                out.push(row);
                i = i + 1;
            }
            proof {
                assert(json::trees(out@) =~= networked_rows(rows, records));
                assert(are_records(record_for, rows, records));
            }
        },
    }
    value.set("transactions", Json::Array(out));
}

/// However a token list presents it, the system address names no token: nothing offered is found
/// there, and no row names it as the token that was called.
pub proof fn law_the_system_address_is_never_a_token(
    row: JsonView,
    offered: Seq<AssetView>,
    at: Seq<char>,
)
    requires
        names_system(at),
    ensures
        token_at(offered, at) is None,
        filled(row, "txTo"@) == Some(at) ==> json::member(
            interacted(row, offered),
            "interactedWithSymbol"@,
        ) == json::member(row, "interactedWithSymbol"@),
{
    reveal_strlit("interactedWithSymbol");
    reveal_strlit("interactedWithDiffers");
    assert("interactedWithSymbol"@.len() != "interactedWithDiffers"@.len());
}

/// Looking a transfer up leaves its contract as it is.
proof fn lemma_contract_kept(transfer: JsonView, offered: Seq<AssetView>)
    ensures
        filled_or_empty(looked_up(transfer, offered), "contract"@) == filled_or_empty(
            transfer,
            "contract"@,
        ),
{
    reveal_strlit("contract");
    reveal_strlit("known");
    reveal_strlit("symbol");
    reveal_strlit("decimals");
    reveal_strlit("amount");
    reveal_strlit("Display");
    reveal_strlit("Exact");
    let key = "contract"@;
    assert(key.len() == 8 && key[0] == 'c');
    assert("known"@.len() == 5 && "symbol"@.len() == 6 && "decimals"@[0] == 'd');
    assert(("amount"@ + "Display"@).len() == 13 && ("amount"@ + "Exact"@).len() == 11);
    match token_at(offered, filled_or_empty(transfer, key)) {
        Some(asset) => {
            let v = json::put(transfer, "known"@, JsonView::Bool(true));
            let v = json::put(v, "symbol"@, JsonView::Text(asset.symbol));
            let v = json::put(v, "decimals"@, JsonView::Int(asset.decimals as int));
            assert(filled_or_empty(v, key) == filled_or_empty(transfer, key));
            match filled(v, "amount"@) {
                Some(amount) => {
                    lemma_decorated_keeps(v, "amount"@, amount, asset.decimals as nat, key);
                },
                None => {},
            }
        },
        None => {},
    }
}

/// No token transfer of a decorated row comes from the system address, and a row whose transfers
/// all do has no list of them.
pub proof fn law_no_token_transfer_is_the_systems(list: Seq<JsonView>, offered: Seq<AssetView>)
    ensures
        forall|i: int|
            0 <= i < token_transfers(list, offered).len() ==> !names_system(
                filled_or_empty(#[trigger] token_transfers(list, offered)[i], "contract"@),
            ),
        (forall|i: int|
            0 <= i < list.len() ==> names_system(
                filled_or_empty(#[trigger] list[i], "contract"@),
            )) <==> token_transfers(list, offered).len() == 0,
    decreases list.len(),
{
    if list.len() > 0 {
        let rest = list.drop_last();
        law_no_token_transfer_is_the_systems(rest, offered);
        lemma_contract_kept(list.last(), offered);
        let all = token_transfers(list, offered);
        let before = token_transfers(rest, offered);
        assert forall|i: int| 0 <= i < all.len() implies !names_system(
            filled_or_empty(#[trigger] all[i], "contract"@),
        ) by {
            if i < before.len() {
                assert(all[i] == before[i]);
            }
        }
        assert(list[list.len() - 1] == list.last());
        if forall|i: int|
            0 <= i < list.len() ==> names_system(
                filled_or_empty(#[trigger] list[i], "contract"@),
            ) {
            assert forall|i: int| 0 <= i < rest.len() implies names_system(
                filled_or_empty(#[trigger] rest[i], "contract"@),
            ) by {
                assert(rest[i] == list[i]);
            }
        }
        if all.len() == 0 {
            assert forall|i: int| 0 <= i < list.len() implies names_system(
                filled_or_empty(#[trigger] list[i], "contract"@),
            ) by {
                if i < rest.len() {
                    assert(rest[i] == list[i]);
                }
            }
        }
    }
}

/// Ether has no unit where the chain has no symbol, and then no figure either: its transfers stay
/// as they are.
pub proof fn law_no_unit_so_no_figure(row: JsonView, offered: Seq<AssetView>)
    requires
        forall|i: int|
            0 <= i < offered.len() ==> !(#[trigger] offered[i]).native || offered[i].symbol_unknown,
    ensures
        ether_priced(row, offered) == row,
    decreases offered.len(),
{
    if offered.len() > 0 {
        let rest = offered.drop_first();
        assert(!offered[0].native || offered[0].symbol_unknown);
        assert forall|i: int| 0 <= i < rest.len() implies !(#[trigger] rest[i]).native
            || rest[i].symbol_unknown by {
            assert(rest[i] == offered[i + 1]);
        }
        law_no_unit_so_no_figure(row, rest);
    }
}

/// The keys that decoration writes under or takes away.
pub open spec fn is_decoration(key: Seq<char>) -> bool {
    ||| key == "kind"@
    ||| key == "token"@
    ||| key == "to"@
    ||| key == "tokenSymbol"@
    ||| key == "valueSymbol"@
    ||| key == "value"@
    ||| key == "valueDecimals"@
    ||| key == "value"@ + "Display"@
    ||| key == "value"@ + "Exact"@
    ||| key == "totalWei"@
    ||| key == "totalWeiDisplay"@
    ||| key == "totalWeiExact"@
    ||| key == "interactedWithDiffers"@
    ||| key == "interactedWithSymbol"@
    ||| key == "transfers"@
    ||| key == "nativeTransfers"@
}

/// Decoration touches nothing but its own keys: whatever else a row says, it says afterwards.
pub proof fn law_decoration_keeps_everything_else(
    row: JsonView,
    offered: Seq<AssetView>,
    key: Seq<char>,
)
    requires
        !is_decoration(key),
    ensures
        json::member(decorated_row(row, offered), key) == json::member(row, key),
{
    let meta = assets::or_null(row, "meta"@);
    if filled(meta, "kind"@) == Some("erc20"@) {
        let v = json::put(row, "kind"@, JsonView::Text("erc20"@));
        let v = put_text(v, "token"@, checksummed_if(filled(meta, "token"@)));
        let v = put_text(v, "to"@, checksummed_if(filled(meta, "recipient"@)));
        let v = put_text(v, "tokenSymbol"@, filled(meta, "tokenSymbol"@));
        let v = put_text(v, "valueSymbol"@, filled(meta, "tokenSymbol"@));
        assert(v is Object && json::member(v, key) == json::member(row, key));
        match (filled(meta, "amount"@), json::byte_at(meta, "tokenDecimals"@)) {
            (Some(amount), Some(decimals)) => {
                let v = json::put(v, "value"@, JsonView::Text(amount));
                let v = json::put(v, "valueDecimals"@, JsonView::Int(decimals as int));
                lemma_decorated_keeps(v, "value"@, amount, decimals as nat, key);
            },
            _ => {},
        }
    }
    let a = sent(row);
    assert(json::member(a, key) == json::member(row, key));
    let b = interacted(a, offered);
    assert(json::member(b, key) == json::member(a, key));
    let c = received(b, offered);
    assert(json::member(c, key) == json::member(b, key));
}

/// The shapes of the keys that decoration reads and writes: no two of them are alike.
proof fn lemma_key_shapes()
    ensures
        "kind"@.len() == 4 && "kind"@[0] == 'k',
        "meta"@.len() == 4 && "meta"@[0] == 'm',
        "txTo"@.len() == 4 && "txTo"@[0] == 't',
        "to"@.len() == 2,
        "token"@.len() == 5 && "token"@[0] == 't',
        "value"@.len() == 5 && "value"@[0] == 'v',
        "known"@.len() == 5 && "known"@[0] == 'k',
        "symbol"@.len() == 6 && "symbol"@[0] == 's',
        "amount"@.len() == 6 && "amount"@[0] == 'a',
        "decimals"@.len() == 8 && "decimals"@[0] == 'd',
        "contract"@.len() == 8 && "contract"@[0] == 'c',
        "totalWei"@.len() == 8 && "totalWei"@[0] == 't',
        "transfers"@.len() == 9,
        ("value"@ + "Exact"@).len() == 10,
        "tokenSymbol"@.len() == 11 && "tokenSymbol"@[0] == 't',
        "valueSymbol"@.len() == 11 && "valueSymbol"@[0] == 'v',
        ("amount"@ + "Exact"@).len() == 11 && ("amount"@ + "Exact"@)[0] == 'a',
        ("value"@ + "Display"@).len() == 12,
        "valueDecimals"@.len() == 13 && "valueDecimals"@[0] == 'v',
        "totalWeiExact"@.len() == 13 && "totalWeiExact"@[0] == 't',
        ("amount"@ + "Display"@).len() == 13 && ("amount"@ + "Display"@)[0] == 'a',
        "totalWeiDisplay"@.len() == 15 && "totalWeiDisplay"@[0] == 't',
        "nativeTransfers"@.len() == 15 && "nativeTransfers"@[0] == 'n',
        "interactedWithSymbol"@.len() == 20,
        "interactedWithDiffers"@.len() == 21,
{
    reveal_strlit("kind");
    reveal_strlit("meta");
    reveal_strlit("txTo");
    reveal_strlit("to");
    reveal_strlit("token");
    reveal_strlit("value");
    reveal_strlit("known");
    reveal_strlit("symbol");
    reveal_strlit("amount");
    reveal_strlit("decimals");
    reveal_strlit("contract");
    reveal_strlit("totalWei");
    reveal_strlit("transfers");
    reveal_strlit("Exact");
    reveal_strlit("Display");
    reveal_strlit("tokenSymbol");
    reveal_strlit("valueSymbol");
    reveal_strlit("valueDecimals");
    reveal_strlit("totalWeiExact");
    reveal_strlit("totalWeiDisplay");
    reveal_strlit("nativeTransfers");
    reveal_strlit("interactedWithSymbol");
    reveal_strlit("interactedWithDiffers");
}

/// Objects that hold the same under every key are one.
proof fn lemma_same_object(a: JsonView, b: JsonView)
    requires
        a is Object,
        b is Object,
        forall|k: Seq<char>| #[trigger] json::member(a, k) == json::member(b, k),
    ensures
        a == b,
{
    let m = a->Object_0;
    let n = b->Object_0;
    assert forall|k: Seq<char>| #[trigger] m.dom().contains(k) == n.dom().contains(k) by {
        assert(json::member(a, k) == json::member(b, k));
    }
    assert(m.dom() =~= n.dom());
    assert forall|k: Seq<char>| m.contains_key(k) implies #[trigger] m[k] == n[k] by {
        assert(json::member(a, k) == json::member(b, k));
    }
    assert(m =~= n);
}

/// The text that is written, or else what stood there.
spec fn text_or_old(s: Option<Seq<char>>, old_value: Option<JsonView>) -> Option<JsonView> {
    match s {
        Some(t) => Some(JsonView::Text(t)),
        None => old_value,
    }
}

/// What stands under a key of a row that was read back as a transfer, where `meta` are its meta
/// data and `before` stood there.
spec fn sent_member(meta: JsonView, k: Seq<char>, before: Option<JsonView>) -> Option<JsonView> {
    let amount = filled(meta, "amount"@);
    let decimals = json::byte_at(meta, "tokenDecimals"@);
    let valued = amount is Some && decimals is Some;
    if k == "kind"@ {
        Some(JsonView::Text("erc20"@))
    } else if k == "token"@ {
        text_or_old(checksummed_if(filled(meta, "token"@)), before)
    } else if k == "to"@ {
        text_or_old(checksummed_if(filled(meta, "recipient"@)), before)
    } else if k == "tokenSymbol"@ || k == "valueSymbol"@ {
        text_or_old(filled(meta, "tokenSymbol"@), before)
    } else if k == "value"@ {
        text_or_old(amount_if(valued, amount), before)
    } else if k == "valueDecimals"@ {
        if valued {
            Some(JsonView::Int(decimals->0 as int))
        } else {
            before
        }
    } else if k == "value"@ + "Display"@ {
        if valued {
            text_or_old(units::display_text(amount->0, decimals->0 as nat), before)
        } else {
            before
        }
    } else if k == "value"@ + "Exact"@ {
        if valued {
            text_or_old(units::exact_text(amount->0, decimals->0 as nat), before)
        } else {
            before
        }
    } else if k == "totalWei"@ || k == "totalWeiDisplay"@ || k == "totalWeiExact"@ {
        None
    } else {
        before
    }
}

/// The amount, where it is wanted.
spec fn amount_if(wanted: bool, amount: Option<Seq<char>>) -> Option<Seq<char>> {
    if wanted {
        amount
    } else {
        None
    }
}

/// Whether the meta data of a row say that it sent a token.
spec fn is_sent(row: JsonView) -> bool {
    filled(assets::or_null(row, "meta"@), "kind"@) == Some("erc20"@)
}

/// What reading a row back as a transfer leaves under each key.
proof fn lemma_sent_member(row: JsonView, k: Seq<char>)
    requires
        is_sent(row),
    ensures
        row is Object,
        sent(row) is Object,
        json::member(sent(row), k) == sent_member(
            assets::or_null(row, "meta"@),
            k,
            json::member(row, k),
        ),
{
    lemma_key_shapes();
    let meta = assets::or_null(row, "meta"@);
    assert(row is Object);
    let v = json::put(row, "kind"@, JsonView::Text("erc20"@));
    let v = put_text(v, "token"@, checksummed_if(filled(meta, "token"@)));
    let v = put_text(v, "to"@, checksummed_if(filled(meta, "recipient"@)));
    let v = put_text(v, "tokenSymbol"@, filled(meta, "tokenSymbol"@));
    let v = put_text(v, "valueSymbol"@, filled(meta, "tokenSymbol"@));
    assert(v is Object);
    let w = match (filled(meta, "amount"@), json::byte_at(meta, "tokenDecimals"@)) {
        (Some(amount), Some(decimals)) => {
            let v = json::put(v, "value"@, JsonView::Text(amount));
            let v = json::put(v, "valueDecimals"@, JsonView::Int(decimals as int));
            units::decorated(v, "value"@, amount, decimals as nat)
        },
        _ => v,
    };
    assert(w is Object);
}

/// Reading a row back as a transfer touches neither the meta data nor what it calls.
proof fn lemma_sent_fixed(row: JsonView, d: JsonView)
    requires
        forall|k: Seq<char>|
            is_sent_key(k) ==> #[trigger] json::member(d, k) == json::member(sent(row), k),
        d is Object,
    ensures
        sent(d) == d,
{
    lemma_key_shapes();
    assert(is_sent_key("meta"@));
    assert(json::member(d, "meta"@) == json::member(sent(row), "meta"@));
    if is_sent(row) {
        lemma_sent_member(row, "meta"@);
        assert(is_sent(d));
        let meta = assets::or_null(row, "meta"@);
        assert forall|k: Seq<char>| #[trigger]
            json::member(sent(d), k) == json::member(d, k) by {
            lemma_sent_member(d, k);
            lemma_sent_member(row, k);
            if is_sent_key(k) {
                assert(json::member(d, k) == json::member(sent(row), k));
            }
        }
        lemma_sent_member(d, "meta"@);
        lemma_same_object(sent(d), d);
    } else {
        assert(sent(row) == row);
        assert(!is_sent(d));
    }
}

/// The keys that reading a row back as a transfer reads or writes.
spec fn is_sent_key(k: Seq<char>) -> bool {
    ||| k == "meta"@
    ||| k == "kind"@
    ||| k == "token"@
    ||| k == "to"@
    ||| k == "tokenSymbol"@
    ||| k == "valueSymbol"@
    ||| k == "value"@
    ||| k == "valueDecimals"@
    ||| k == "value"@ + "Display"@
    ||| k == "value"@ + "Exact"@
    ||| k == "totalWei"@
    ||| k == "totalWeiDisplay"@
    ||| k == "totalWeiExact"@
}

/// What saying which contract was called leaves under each key.
proof fn lemma_interacted_member(row: JsonView, offered: Seq<AssetView>, k: Seq<char>)
    ensures
        interacted(row, offered) is Object <==> row is Object,
        json::member(interacted(row, offered), k) == match filled(row, "txTo"@) {
            None => json::member(row, k),
            Some(target) => if k == "interactedWithDiffers"@ {
                Some(
                    JsonView::Bool(!text::alike(target, filled_or_empty(row, "to"@))),
                )
            } else if k == "interactedWithSymbol"@ && token_at(offered, target) is Some {
                Some(JsonView::Text(token_at(offered, target)->0.symbol))
            } else {
                json::member(row, k)
            },
        },
{
    lemma_key_shapes();
}

/// Saying again which contract was called changes nothing.
proof fn lemma_interacted_fixed(row: JsonView, offered: Seq<AssetView>, d: JsonView)
    requires
        forall|k: Seq<char>|
            (k == "txTo"@ || k == "to"@ || k == "interactedWithDiffers"@ || k
                == "interactedWithSymbol"@) ==> #[trigger] json::member(d, k) == json::member(
                interacted(row, offered),
                k,
            ),
        d is Object,
    ensures
        interacted(d, offered) == d,
{
    lemma_key_shapes();
    lemma_interacted_member(row, offered, "txTo"@);
    lemma_interacted_member(row, offered, "to"@);
    lemma_interacted_member(row, offered, "interactedWithDiffers"@);
    lemma_interacted_member(row, offered, "interactedWithSymbol"@);
    assert(json::member(d, "txTo"@) == json::member(row, "txTo"@));
    assert(json::member(d, "to"@) == json::member(row, "to"@));
    assert(json::member(d, "interactedWithDiffers"@) == json::member(
        interacted(row, offered),
        "interactedWithDiffers"@,
    ));
    assert(json::member(d, "interactedWithSymbol"@) == json::member(
        interacted(row, offered),
        "interactedWithSymbol"@,
    ));
    assert forall|k: Seq<char>| #[trigger]
        json::member(interacted(d, offered), k) == json::member(d, k) by {
        lemma_interacted_member(d, offered, k);
    }
    lemma_interacted_member(d, offered, "txTo"@);
    lemma_same_object(interacted(d, offered), d);
}

/// What pricing leaves under each key of an entry that can be written to.
proof fn lemma_priced_member(entry: JsonView, asset: AssetView, k: Seq<char>)
    requires
        json::writable(entry),
    ensures
        priced(entry, asset) is Object,
        json::member(priced(entry, asset), k) == {
            let amount = filled(entry, "amount"@);
            let decimals = asset.decimals as nat;
            if k == "symbol"@ {
                Some(JsonView::Text(asset.symbol))
            } else if k == "decimals"@ {
                Some(JsonView::Int(asset.decimals as int))
            } else if k == "amount"@ + "Display"@ && amount is Some {
                text_or_old(units::display_text(amount->0, decimals), json::member(entry, k))
            } else if k == "amount"@ + "Exact"@ && amount is Some {
                text_or_old(units::exact_text(amount->0, decimals), json::member(entry, k))
            } else {
                json::member(entry, k)
            }
        },
{
    lemma_key_shapes();
    let v = json::put(entry, "symbol"@, JsonView::Text(asset.symbol));
    let v = json::put(v, "decimals"@, JsonView::Int(asset.decimals as int));
    assert(json::member(v, "amount"@) == json::member(entry, "amount"@));
    assert(filled(v, "amount"@) == filled(entry, "amount"@));
}

/// Pricing an entry again changes nothing.
proof fn lemma_priced_twice(entry: JsonView, asset: AssetView)
    ensures
        priced(priced(entry, asset), asset) == priced(entry, asset),
{
    lemma_key_shapes();
    if json::writable(entry) {
        let p = priced(entry, asset);
        lemma_priced_member(entry, asset, "amount"@);
        assert(filled(p, "amount"@) == filled(entry, "amount"@));
        assert forall|k: Seq<char>| #[trigger]
            json::member(priced(p, asset), k) == json::member(p, k) by {
            lemma_priced_member(entry, asset, k);
            lemma_priced_member(p, asset, k);
        }
        lemma_priced_member(p, asset, "amount"@);
        lemma_same_object(priced(p, asset), p);
    }
}

/// Looking a transfer up again changes nothing.
proof fn lemma_looked_up_twice(transfer: JsonView, offered: Seq<AssetView>)
    ensures
        looked_up(looked_up(transfer, offered), offered) == looked_up(transfer, offered),
{
    lemma_key_shapes();
    lemma_contract_kept(transfer, offered);
    let d = looked_up(transfer, offered);
    match token_at(offered, filled_or_empty(transfer, "contract"@)) {
        Some(asset) => {
            let v = json::put(transfer, "known"@, JsonView::Bool(true));
            if json::writable(transfer) {
                lemma_priced_member(v, asset, "known"@);
                assert(json::member(d, "known"@) == Some(JsonView::Bool(true)));
                assert(json::put(d, "known"@, JsonView::Bool(true))->Object_0 =~= d->Object_0);
            }
            lemma_priced_twice(v, asset);
        },
        None => {
            if json::writable(transfer) {
                assert(json::put(d, "known"@, JsonView::Bool(false))->Object_0 =~= d->Object_0);
            }
        },
    }
}

/// Looking the transfers of a list up again changes nothing.
proof fn lemma_transfers_twice(list: Seq<JsonView>, offered: Seq<AssetView>)
    ensures
        token_transfers(token_transfers(list, offered), offered) == token_transfers(list, offered),
    decreases list.len(),
{
    if list.len() > 0 {
        let rest = token_transfers(list.drop_last(), offered);
        lemma_transfers_twice(list.drop_last(), offered);
        if !names_system(filled_or_empty(list.last(), "contract"@)) {
            let last = looked_up(list.last(), offered);
            lemma_contract_kept(list.last(), offered);
            lemma_looked_up_twice(list.last(), offered);
            assert(rest.push(last).drop_last() =~= rest);
        }
    }
}

/// The keys that display metadata of a chain is written under.
pub open spec fn is_network_key(k: Seq<char>) -> bool {
    k == "network"@ || k == "nativeSymbol"@ || k == "testnet"@
}

/// The keys that display metadata is written under are none that decoration reads or writes.
proof fn lemma_network_keys()
    ensures
        forall|k: Seq<char>| #[trigger]
            is_network_key(k) ==> !is_sent_key(k) && k != "txTo"@ && k != "transfers"@ && k
                != "nativeTransfers"@ && k != "interactedWithDiffers"@ && k
                != "interactedWithSymbol"@ && k != "chainId"@,
        "network"@ != "nativeSymbol"@ && "network"@ != "testnet"@ && "nativeSymbol"@ != "testnet"@,
{
    lemma_key_shapes();
    reveal_strlit("network");
    reveal_strlit("nativeSymbol");
    reveal_strlit("testnet");
    reveal_strlit("chainId");
    assert("network"@.len() == 7 && "network"@[0] == 'n');
    assert("testnet"@.len() == 7 && "testnet"@[0] == 't');
    assert("chainId"@.len() == 7 && "chainId"@[0] == 'c');
    assert("nativeSymbol"@.len() == 12 && "nativeSymbol"@[0] == 'n');
    assert(("value"@ + "Display"@)[0] == 'v') by {
        reveal_strlit("value");
        assert(("value"@ + "Display"@)[0] == "value"@[0]);
    }
}

/// An object that says what a decorated row says, but for the display metadata of its chain, stays
/// as it is when it is decorated.
proof fn lemma_decorated_fixed(row: JsonView, offered: Seq<AssetView>, d: JsonView)
    requires
        row is Object,
        d is Object,
        forall|k: Seq<char>|
            !is_network_key(k) ==> #[trigger] json::member(d, k) == json::member(
                decorated_row(row, offered),
                k,
            ),
    ensures
        decorated_row(row, offered) is Object,
        decorated_row(d, offered) == d,
{
    let s = sent(row);
    let i = interacted(s, offered);
    let r = received(i, offered);
    let e = ether_priced(r, offered);
    lemma_key_shapes();
    lemma_network_keys();
    if is_sent(row) {
        lemma_sent_member(row, "meta"@);
    }
    lemma_interacted_member(s, offered, "meta"@);
    assert(e is Object);
    assert forall|k: Seq<char>|
        k != "transfers"@ && k != "nativeTransfers"@ && !is_network_key(k) implies
        #[trigger] json::member(d, k) == json::member(i, k) by {
        assert(json::member(d, k) == json::member(e, k));
    }
    assert forall|k: Seq<char>| is_sent_key(k) implies #[trigger] json::member(d, k)
        == json::member(s, k) by {
        lemma_interacted_member(s, offered, k);
    }
    lemma_sent_fixed(row, d);
    lemma_interacted_fixed(s, offered, d);
    assert(json::member(d, "transfers"@) == json::member(e, "transfers"@));
    assert(json::member(d, "nativeTransfers"@) == json::member(e, "nativeTransfers"@));
    match json::items_at(i, "transfers"@) {
        Some(list) => {
            let kept = token_transfers(list, offered);
            lemma_transfers_twice(list, offered);
            if kept.len() > 0 {
                assert(json::member(d, "transfers"@) == Some(JsonView::Array(kept)));
                assert(json::put(d, "transfers"@, JsonView::Array(kept))->Object_0
                    =~= d->Object_0);
            } else {
                assert(json::member(d, "transfers"@) is None);
            }
        },
        None => {
            assert(json::member(d, "transfers"@) == json::member(i, "transfers"@));
        },
    }
    assert(received(d, offered) == d);
    match (pricing_native(offered), json::items_at(r, "nativeTransfers"@)) {
        (Some(native), Some(list)) => {
            let once = all_priced(list, native);
            assert forall|k: int| 0 <= k < list.len() implies #[trigger] all_priced(
                once,
                native,
            )[k] == once[k] by {
                lemma_priced_twice(list[k], native);
            }
            assert(all_priced(once, native) =~= once);
            assert(json::put(d, "nativeTransfers"@, JsonView::Array(once))->Object_0
                =~= d->Object_0);
        },
        _ => {},
    }
    assert(ether_priced(d, offered) == d);
}

/// Decorating a row again changes nothing: once decorated with the assets of its chain, a row
/// stays as it is.
pub proof fn law_decorating_twice_is_decorating_once(row: JsonView, offered: Seq<AssetView>)
    ensures
        decorated_row(decorated_row(row, offered), offered) == decorated_row(row, offered),
{
    if row is Object {
        lemma_decorated_object(row, offered);
        lemma_decorated_fixed(row, offered, decorated_row(row, offered));
    }
}

/// A decorated object is an object.
proof fn lemma_decorated_object(row: JsonView, offered: Seq<AssetView>)
    requires
        row is Object,
    ensures
        decorated_row(row, offered) is Object,
{
    if is_sent(row) {
        lemma_sent_member(row, "meta"@);
    }
    lemma_interacted_member(sent(row), offered, "meta"@);
}

/// Decorating a row and writing the metadata of its chain into it, and then doing both again,
/// changes nothing the second time.
pub proof fn law_decorating_and_networking_twice_is_doing_it_once(
    row: JsonView,
    offered: Seq<AssetView>,
    record: Option<JsonView>,
)
    ensures
        ({
            let once = networked_row(decorated_row(row, offered), record);
            &&& networked_row(decorated_row(once, offered), record) == once
            &&& chain_of(once) == chain_of(row)
        }),
{
    let d = decorated_row(row, offered);
    let once = networked_row(d, record);
    lemma_network_keys();
    lemma_key_shapes();
    reveal_strlit("chainId");
    assert("chainId"@.len() == 7 && "chainId"@[0] == 'c');
    assert(!is_network_key("chainId"@));
    if row is Object {
        lemma_decorated_object(row, offered);
        law_decoration_keeps_everything_else(row, offered, "chainId"@);
        assert forall|k: Seq<char>| !is_network_key(k) implies #[trigger] json::member(once, k)
            == json::member(d, k) by {
        }
        assert(json::member(once, "chainId"@) == json::member(d, "chainId"@));
        lemma_decorated_fixed(row, offered, once);
    } else {
        assert(d == row);
        if once is Object {
            let empty = JsonView::Object(Map::empty());
            assert(decorated_row(empty, offered) == empty);
            assert forall|k: Seq<char>| !is_network_key(k) implies #[trigger] json::member(once, k)
                == json::member(empty, k) by {
            }
            assert(json::member(once, "chainId"@) == json::member(empty, "chainId"@));
            lemma_decorated_fixed(empty, offered, once);
        }
    }
    match record {
        Some(r) => {
            if once is Object {
                let again = networked_row(once, record);
                assert(again->Object_0 =~= once->Object_0);
            }
        },
        None => {},
    }
}

/// The keys of the texts of an amount, written out.
proof fn lemma_amount_keys()
    ensures
        "amount"@ + "Display"@ == "amountDisplay"@,
        "amount"@ + "Exact"@ == "amountExact"@,
        "value"@ + "Display"@ == "valueDisplay"@,
        "value"@ + "Exact"@ == "valueExact"@,
{
    reveal_strlit("amount");
    reveal_strlit("value");
    reveal_strlit("Display");
    reveal_strlit("Exact");
    reveal_strlit("amountDisplay");
    reveal_strlit("amountExact");
    reveal_strlit("valueDisplay");
    reveal_strlit("valueExact");
    assert("amount"@ + "Display"@ =~= "amountDisplay"@);
    assert("amount"@ + "Exact"@ =~= "amountExact"@);
    assert("value"@ + "Display"@ =~= "valueDisplay"@);
    assert("value"@ + "Exact"@ =~= "valueExact"@);
}

/// Whether an entry says, in its symbol, its decimals and the texts of its amount, that it is in
/// `asset`, where `before` is the entry without them.
pub open spec fn says_asset(entry: JsonView, before: JsonView, asset: AssetView) -> bool {
    &&& json::member(entry, "symbol"@) == Some(JsonView::Text(asset.symbol))
    &&& json::member(entry, "decimals"@) == Some(JsonView::Int(asset.decimals as int))
    &&& json::member(entry, "amount"@) == json::member(before, "amount"@)
    &&& json::member(before, "amount"@) matches Some(JsonView::Text(amount)) ==> (amount.len() > 0
        ==> {
        &&& units::exact_text(amount, asset.decimals as nat) matches Some(t) ==> json::member(
            entry,
            "amountExact"@,
        ) == Some(JsonView::Text(t))
        &&& units::display_text(amount, asset.decimals as nat) matches Some(t) ==> json::member(
            entry,
            "amountDisplay"@,
        ) == Some(JsonView::Text(t))
    })
}

/// A token transfer is in the token that moved: where its contract is that of an offered token,
/// and not the system address, the decorated entry holds that very token's symbol and decimals, its
/// exact and display texts are those of the entry's amount at that token's own decimals, and it is
/// marked as known; whatever else the entry says stays.
pub proof fn law_a_known_transfer_is_in_its_own_token(
    transfer: JsonView,
    offered: Seq<AssetView>,
    contract: Seq<char>,
    i: int,
    other: Seq<char>,
)
    requires
        transfer is Object,
        json::member(transfer, "contract"@) == Some(JsonView::Text(contract)),
        contract.len() > 0,
        !text::alike(contract, SYSTEM_ADDRESS@),
        0 <= i < offered.len(),
        offered[i].address is Some && text::alike(offered[i].address->0, contract),
        forall|j: int|
            0 <= j < i ==> !((#[trigger] offered[j]).address is Some && text::alike(
                offered[j].address->0,
                contract,
            )),
    ensures
        ({
            let d = looked_up(transfer, offered);
            &&& json::member(d, "known"@) == Some(JsonView::Bool(true))
            &&& says_asset(d, transfer, offered[i])
            &&& other != "known"@ && other != "symbol"@ && other != "decimals"@ && other
                != "amountDisplay"@ && other != "amountExact"@ ==> json::member(d, other)
                == json::member(transfer, other)
        }),
{
    lemma_key_shapes();
    lemma_amount_keys();
    assets::lemma_first_at_is(offered, contract, i);
    assert(token_at(offered, filled_or_empty(transfer, "contract"@)) == Some(offered[i]));
    let v = json::put(transfer, "known"@, JsonView::Bool(true));
    lemma_priced_member(v, offered[i], "known"@);
    lemma_priced_member(v, offered[i], "symbol"@);
    lemma_priced_member(v, offered[i], "decimals"@);
    lemma_priced_member(v, offered[i], "amount"@);
    lemma_priced_member(v, offered[i], "amountExact"@);
    lemma_priced_member(v, offered[i], "amountDisplay"@);
    lemma_priced_member(v, offered[i], other);
    assert(json::member(v, "amount"@) == json::member(transfer, "amount"@));
}

/// A token transfer of a contract that is not offered, or that is the system's, is marked as
/// unknown and is otherwise left as it is: nothing is guessed of it.
pub proof fn law_an_unknown_transfer_is_left_alone(
    transfer: JsonView,
    offered: Seq<AssetView>,
    contract: Seq<char>,
    other: Seq<char>,
)
    requires
        transfer is Object,
        json::member(transfer, "contract"@) == Some(JsonView::Text(contract)),
        text::alike(contract, SYSTEM_ADDRESS@) || forall|j: int|
            0 <= j < offered.len() ==> !((#[trigger] offered[j]).address is Some && text::alike(
                offered[j].address->0,
                contract,
            )),
    ensures
        ({
            let d = looked_up(transfer, offered);
            &&& json::member(d, "known"@) == Some(JsonView::Bool(false))
            &&& other != "known"@ ==> json::member(d, other) == json::member(transfer, other)
        }),
{
    lemma_key_shapes();
    reveal_strlit("");
    assert(contract.len() == 0 ==> contract =~= ""@);
    if !text::alike(contract, SYSTEM_ADDRESS@) {
        lemma_none_at(offered, contract);
    }
}

/// Where no offered asset stands, none is found.
proof fn lemma_none_at(offered: Seq<AssetView>, at: Seq<char>)
    requires
        forall|j: int|
            0 <= j < offered.len() ==> !((#[trigger] offered[j]).address is Some && text::alike(
                offered[j].address->0,
                at,
            )),
    ensures
        assets::first_at(offered, at) is None,
    decreases offered.len(),
{
    if offered.len() > 0 {
        let rest = offered.drop_first();
        assert(!(offered[0].address is Some && text::alike(offered[0].address->0, at)));
        assert forall|j: int| 0 <= j < rest.len() implies !((#[trigger] rest[j]).address is Some
            && text::alike(rest[j].address->0, at)) by {
            assert(rest[j] == offered[j + 1]);
        }
        lemma_none_at(rest, at);
    }
}

/// The transfers of a list are looked up one by one, in their order: those of two lists one after
/// the other are those of the first and then those of the second, and a list of one transfer gives
/// that transfer, looked up, unless its contract is the system address.
pub proof fn law_transfers_are_looked_up_one_by_one(
    a: Seq<JsonView>,
    b: Seq<JsonView>,
    transfer: JsonView,
    offered: Seq<AssetView>,
)
    ensures
        token_transfers(a + b, offered) == token_transfers(a, offered) + token_transfers(
            b,
            offered,
        ),
        token_transfers(seq![transfer], offered) == if json::text_at(
            transfer,
            "contract"@,
        ) is Some && text::alike(json::text_at(transfer, "contract"@)->0, SYSTEM_ADDRESS@) {
            Seq::<JsonView>::empty()
        } else {
            seq![looked_up(transfer, offered)]
        },
    decreases b.len(),
{
    reveal_strlit("");
    reveal_strlit("0xfffffffffffffffffffffffffffffffffffffffe");
    assert(text::lowered(""@).len() == 0);
    assert(text::lowered(SYSTEM_ADDRESS@).len() == 42);
    let one = seq![transfer];
    assert(one.drop_last() =~= Seq::empty());
    assert(token_transfers(one.drop_last(), offered) =~= Seq::empty());
    assert(one.last() == transfer);
    match json::text_at(transfer, "contract"@) {
        Some(c) => {
            if c.len() == 0 {
                assert(c =~= ""@);
            }
        },
        None => {},
    }
    assert(Seq::<JsonView>::empty().push(looked_up(transfer, offered)) =~= seq![
        looked_up(transfer, offered),
    ]);
    if b.len() == 0 {
        assert(a + b =~= a);
        assert(token_transfers(a, offered) + token_transfers(b, offered) =~= token_transfers(
            a,
            offered,
        ));
    } else {
        let rest = b.drop_last();
        law_transfers_are_looked_up_one_by_one(a, rest, transfer, offered);
        assert((a + b).drop_last() =~= a + rest);
        assert((a + b).last() == b.last());
        assert(token_transfers(a + b, offered) =~= token_transfers(a, offered) + token_transfers(
            b,
            offered,
        ));
    }
}

/// What a decorated row holds under every key but those of the two lists of transfers.
proof fn lemma_decorated_member(row: JsonView, offered: Seq<AssetView>, k: Seq<char>)
    requires
        row is Object,
    ensures
        decorated_row(row, offered) is Object,
        k != "transfers"@ && k != "nativeTransfers"@ ==> json::member(
            decorated_row(row, offered),
            k,
        ) == json::member(interacted(sent(row), offered), k),
{
    lemma_decorated_object(row, offered);
}

/// The token transfers of a decorated row are those of the row, looked up among the offered assets;
/// where no token moved there is no list of them, and what is no list stays.
pub proof fn law_a_row_holds_its_transfers_looked_up(row: JsonView, offered: Seq<AssetView>)
    requires
        row is Object,
    ensures
        ({
            let d = decorated_row(row, offered);
            match json::member(row, "transfers"@) {
                Some(JsonView::Array(list)) => if token_transfers(list, offered).len() > 0 {
                    json::member(d, "transfers"@) == Some(
                        JsonView::Array(token_transfers(list, offered)),
                    )
                } else {
                    json::member(d, "transfers"@) is None
                },
                other => json::member(d, "transfers"@) == other,
            }
        }),
{
    lemma_key_shapes();
    lemma_lists_kept(row, offered, "transfers"@);
    lemma_lists_kept(sent(row), offered, "transfers"@);
    lemma_decorated_object(row, offered);
    if is_sent(row) {
        lemma_sent_member(row, "meta"@);
    }
    lemma_interacted_member(sent(row), offered, "transfers"@);
}

/// The ether transfers of a decorated row are those of the row, as many and in their order, each in
/// the first native asset whose symbol is known: its symbol, its decimals and the texts of the
/// amount at its decimals.
pub proof fn law_ether_is_in_the_native_asset(
    row: JsonView,
    offered: Seq<AssetView>,
    list: Seq<JsonView>,
    i: int,
    k: int,
)
    requires
        row is Object,
        json::member(row, "nativeTransfers"@) == Some(JsonView::Array(list)),
        0 <= i < offered.len(),
        offered[i].native && !offered[i].symbol_unknown,
        forall|j: int|
            0 <= j < i ==> !(#[trigger] offered[j]).native || offered[j].symbol_unknown,
        0 <= k < list.len(),
        json::writable(list[k]),
    ensures
        ({
            let d = decorated_row(row, offered);
            let out = json::items_at(d, "nativeTransfers"@);
            &&& out is Some
            &&& out->0.len() == list.len()
            &&& says_asset(out->0[k], list[k], offered[i])
        }),
{
    lemma_key_shapes();
    lemma_amount_keys();
    lemma_pricing_is(offered, i);
    lemma_lists_kept(row, offered, "nativeTransfers"@);
    lemma_lists_kept(sent(row), offered, "nativeTransfers"@);
    lemma_lists_kept(interacted(sent(row), offered), offered, "nativeTransfers"@);
    lemma_decorated_object(row, offered);
    if is_sent(row) {
        lemma_sent_member(row, "meta"@);
    }
    lemma_interacted_member(sent(row), offered, "transfers"@);
    let d = decorated_row(row, offered);
    assert(json::items_at(d, "nativeTransfers"@) == Some(all_priced(list, offered[i])));
    assert(all_priced(list, offered[i])[k] == priced(list[k], offered[i]));
    lemma_priced_member(list[k], offered[i], "symbol"@);
    lemma_priced_member(list[k], offered[i], "decimals"@);
    lemma_priced_member(list[k], offered[i], "amount"@);
    lemma_priced_member(list[k], offered[i], "amountExact"@);
    lemma_priced_member(list[k], offered[i], "amountDisplay"@);
}

proof fn lemma_pricing_is(offered: Seq<AssetView>, i: int)
    requires
        0 <= i < offered.len(),
        offered[i].native && !offered[i].symbol_unknown,
        forall|j: int|
            0 <= j < i ==> !(#[trigger] offered[j]).native || offered[j].symbol_unknown,
    ensures
        pricing_native(offered) == Some(offered[i]),
    decreases offered.len(),
{
    if i > 0 {
        let rest = offered.drop_first();
        assert(!offered[0].native || offered[0].symbol_unknown);
        assert forall|j: int| 0 <= j < i - 1 implies !(#[trigger] rest[j]).native
            || rest[j].symbol_unknown by {
            assert(rest[j] == offered[j + 1]);
        }
        lemma_pricing_is(rest, i - 1);
    }
}

/// A row that sent a token is read back as a transfer of it: the recipient, the token, its symbol,
/// the amount, its decimals and its texts are those of the meta data, and the ether totals are gone.
pub proof fn law_a_sent_token_is_read_back(
    row: JsonView,
    offered: Seq<AssetView>,
    meta: Map<Seq<char>, JsonView>,
)
    requires
        row is Object,
        json::member(row, "meta"@) == Some(JsonView::Object(meta)),
        meta.contains_key("kind"@) && meta["kind"@] == JsonView::Text("erc20"@),
    ensures
        ({
            let d = decorated_row(row, offered);
            let m = JsonView::Object(meta);
            &&& json::member(d, "kind"@) == Some(JsonView::Text("erc20"@))
            &&& json::text_at(m, "token"@) matches Some(s) ==> (s.len() > 0 ==> json::text_at(
                d,
                "token"@,
            ) == Some(
                if address::is_address(s) {
                    address::checksummed(address::address_of(s))
                } else {
                    s
                },
            ))
            &&& json::text_at(m, "recipient"@) matches Some(s) ==> (s.len() > 0 ==> json::text_at(
                d,
                "to"@,
            ) == Some(
                if address::is_address(s) {
                    address::checksummed(address::address_of(s))
                } else {
                    s
                },
            ))
            &&& json::text_at(m, "tokenSymbol"@) matches Some(s) ==> (s.len() > 0 ==> json::text_at(
                d,
                "tokenSymbol"@,
            ) == Some(s) && json::text_at(d, "valueSymbol"@) == Some(s))
            &&& json::text_at(m, "amount"@) matches Some(s) ==> (s.len() > 0 && json::byte_at(
                m,
                "tokenDecimals"@,
            ) is Some ==> {
                let decimals = json::byte_at(m, "tokenDecimals"@)->0;
                &&& json::member(d, "value"@) == Some(JsonView::Text(s))
                &&& json::member(d, "valueDecimals"@) == Some(JsonView::Int(decimals as int))
                &&& units::exact_text(s, decimals as nat) matches Some(t) ==> json::text_at(
                    d,
                    "valueExact"@,
                ) == Some(t)
                &&& units::display_text(s, decimals as nat) matches Some(t) ==> json::text_at(
                    d,
                    "valueDisplay"@,
                ) == Some(t)
            })
            &&& json::member(d, "totalWei"@) is None
            &&& json::member(d, "totalWeiDisplay"@) is None
            &&& json::member(d, "totalWeiExact"@) is None
            &&& json::member(d, "meta"@) == Some(m)
        }),
{
    lemma_key_shapes();
    lemma_amount_keys();
    reveal_strlit("erc20");
    assert("erc20"@.len() == 5);
    assert(is_sent(row));
    let s = sent(row);
    lemma_sent_read(row, offered, "kind"@);
    lemma_sent_read(row, offered, "token"@);
    lemma_sent_read(row, offered, "to"@);
    lemma_sent_read(row, offered, "tokenSymbol"@);
    lemma_sent_read(row, offered, "valueSymbol"@);
    lemma_sent_read(row, offered, "value"@);
    lemma_sent_read(row, offered, "valueDecimals"@);
    lemma_sent_read(row, offered, "valueExact"@);
    lemma_sent_read(row, offered, "valueDisplay"@);
    lemma_sent_read(row, offered, "totalWei"@);
    lemma_sent_read(row, offered, "totalWeiDisplay"@);
    lemma_sent_read(row, offered, "totalWeiExact"@);
    lemma_sent_read(row, offered, "meta"@);
}

proof fn lemma_sent_read(row: JsonView, offered: Seq<AssetView>, k: Seq<char>)
    requires
        row is Object,
        is_sent(row),
        is_sent_key(k),
    ensures
        json::member(decorated_row(row, offered), k) == sent_member(
            assets::or_null(row, "meta"@),
            k,
            json::member(row, k),
        ),
{
    lemma_key_shapes();
    lemma_sent_member(row, k);
    lemma_decorated_member(row, offered, k);
    lemma_interacted_member(sent(row), offered, k);
}

/// A row that sent no token keeps what it says of the transfer.
pub proof fn law_other_rows_keep_their_transfer(
    row: JsonView,
    offered: Seq<AssetView>,
    k: Seq<char>,
)
    requires
        row is Object,
        json::text_at(assets::or_null(row, "meta"@), "kind"@) != Some("erc20"@),
        k == "kind"@ || k == "to"@ || k == "token"@ || k == "value"@ || k == "totalWei"@ || k
            == "valueExact"@ || k == "valueDisplay"@ || k == "valueDecimals"@,
    ensures
        json::member(decorated_row(row, offered), k) == json::member(row, k),
{
    lemma_key_shapes();
    lemma_amount_keys();
    reveal_strlit("erc20");
    assert("erc20"@.len() == 5);
    lemma_decorated_member(row, offered, k);
    lemma_interacted_member(sent(row), offered, k);
}

/// A row says what its transaction called: whether that is other than the recipient that the row
/// ends up with, and the symbol of the offered token there, unless it is the system address.
pub proof fn law_a_row_says_what_was_called(
    row: JsonView,
    offered: Seq<AssetView>,
    target: Seq<char>,
    i: int,
)
    requires
        row is Object,
        json::member(row, "txTo"@) == Some(JsonView::Text(target)),
        target.len() > 0,
    ensures
        ({
            let d = decorated_row(row, offered);
            let to = match json::text_at(d, "to"@) {
                Some(s) => s,
                None => Seq::empty(),
            };
            &&& json::member(d, "interactedWithDiffers"@) == Some(
                JsonView::Bool(!text::alike(target, to)),
            )
            &&& !text::alike(target, SYSTEM_ADDRESS@) && 0 <= i < offered.len() && offered[i].address
                is Some && text::alike(offered[i].address->0, target) && (forall|j: int|
                0 <= j < i ==> !((#[trigger] offered[j]).address is Some && text::alike(
                    offered[j].address->0,
                    target,
                ))) ==> json::member(d, "interactedWithSymbol"@) == Some(
                JsonView::Text(offered[i].symbol),
            )
        }),
{
    lemma_key_shapes();
    reveal_strlit("");
    assert(""@ =~= Seq::<char>::empty());
    let s = sent(row);
    if is_sent(row) {
        lemma_sent_member(row, "txTo"@);
    }
    assert(filled(s, "txTo"@) == Some(target));
    lemma_decorated_member(row, offered, "to"@);
    lemma_decorated_member(row, offered, "interactedWithDiffers"@);
    lemma_decorated_member(row, offered, "interactedWithSymbol"@);
    lemma_interacted_member(s, offered, "to"@);
    lemma_interacted_member(s, offered, "interactedWithDiffers"@);
    lemma_interacted_member(s, offered, "interactedWithSymbol"@);
    match json::text_at(s, "to"@) {
        Some(t) => {
            if t.len() == 0 {
                assert(t =~= Seq::<char>::empty());
            }
        },
        None => {},
    }
    if !text::alike(target, SYSTEM_ADDRESS@) && 0 <= i < offered.len() && offered[i].address is Some
        && text::alike(offered[i].address->0, target) && (forall|j: int|
        0 <= j < i ==> !((#[trigger] offered[j]).address is Some && text::alike(
            offered[j].address->0,
            target,
        ))) {
        assets::lemma_first_at_is(offered, target, i);
    }
}

/// A row gets the name, the native symbol and the testnet mark of its chain's record as they stand
/// there, and nothing else of it.
pub proof fn law_a_row_gets_the_metadata_of_its_record(
    row: JsonView,
    record: JsonView,
    other: Seq<char>,
)
    requires
        json::writable(row),
    ensures
        ({
            let d = networked_row(row, Some(record));
            &&& json::member(record, "name"@) is Some ==> json::member(d, "network"@)
                == json::member(record, "name"@)
            &&& json::member(record, "nativeSymbol"@) is Some ==> json::member(d, "nativeSymbol"@)
                == json::member(record, "nativeSymbol"@)
            &&& json::member(record, "testnet"@) is Some ==> json::member(d, "testnet"@)
                == json::member(record, "testnet"@)
            &&& json::member(record, "name"@) is None ==> json::member(d, "network"@)
                == json::member(row, "network"@)
            &&& json::member(record, "nativeSymbol"@) is None ==> json::member(d, "nativeSymbol"@)
                == json::member(row, "nativeSymbol"@)
            &&& json::member(record, "testnet"@) is None ==> json::member(d, "testnet"@)
                == json::member(row, "testnet"@)
            &&& other != "network"@ && other != "nativeSymbol"@ && other != "testnet"@
                ==> json::member(d, other) == json::member(row, other)
        }),
{
    lemma_network_keys();
}

/// The chain of a row is the number under `chainId`, and zero where there is none.
pub proof fn law_a_row_names_its_chain(row: JsonView, chain: u64)
    ensures
        json::member(row, "chainId"@) == Some(JsonView::Int(chain as int)) ==> chain_of(row)
            == chain,
        json::member(row, "chainId"@) is None ==> chain_of(row) == 0,
{
}

/// Replacing the rows of a history replaces the list under `transactions` and nothing else.
pub proof fn law_rows_are_replaced_and_nothing_else(
    v: JsonView,
    rows: Seq<JsonView>,
    other: Seq<char>,
)
    requires
        history_rows(v) is Some,
    ensures
        json::member(v, "transactions"@) == Some(JsonView::Array(history_rows(v)->0)),
        json::member(with_rows(v, rows), "transactions"@) == Some(JsonView::Array(rows)),
        other != "transactions"@ ==> json::member(with_rows(v, rows), other) == json::member(
            v,
            other,
        ),
{
}

/// A row can be decorated wherever the entries of its lists of transfers are objects, and labelled
/// wherever it is an object itself.
pub proof fn law_rows_of_objects_can_be_decorated(
    row: JsonView,
    offered: Seq<AssetView>,
    record: Option<JsonView>,
)
    requires
        row is Object,
        json::items_at(row, "transfers"@) matches Some(list) ==> forall|i: int|
            0 <= i < list.len() ==> (#[trigger] list[i]) is Object || list[i] is Null,
        json::items_at(row, "nativeTransfers"@) matches Some(list) ==> forall|i: int|
            0 <= i < list.len() ==> (#[trigger] list[i]) is Object || list[i] is Null,
    ensures
        can_decorate(row, offered),
        can_network(decorated_row(row, offered), record),
{
    lemma_decorated_object(row, offered);
}

/// The rows of a history are decorated each with the table of its own place, and labelled each with
/// the record of its own place.
pub proof fn law_rows_are_decorated_in_their_places(
    rows: Seq<JsonView>,
    tables: Seq<Seq<AssetView>>,
    records: Seq<Option<JsonView>>,
    i: int,
)
    requires
        0 <= i < rows.len(),
    ensures
        decorated_rows(rows, tables).len() == rows.len(),
        decorated_rows(rows, tables)[i] == decorated_row(rows[i], tables[i]),
        networked_rows(rows, records).len() == rows.len(),
        networked_rows(rows, records)[i] == networked_row(rows[i], records[i]),
        networked_row(rows[i], None) == rows[i],
{
}

/// Each row has the table that was handed out for its own chain.
pub proof fn law_each_table_is_of_its_own_chain<F: FnMut(u64) -> Vec<Asset>>(
    offered_for: F,
    rows: Seq<JsonView>,
    tables: Seq<Seq<AssetView>>,
    i: int,
    chain: u64,
)
    requires
        are_tables(offered_for, rows, tables),
        0 <= i < rows.len(),
        json::member(rows[i], "chainId"@) == Some(JsonView::Int(chain as int)) || (json::member(
            rows[i],
            "chainId"@,
        ) is None && chain == 0),
    ensures
        tables.len() == rows.len(),
        exists|list: Vec<Asset>|
            {
                &&& #[trigger] call_ensures(offered_for, (chain,), list)
                &&& assets::views(list@) == tables[i]
            },
{
    assert(is_table(offered_for, chain_of(rows[i]), tables[i]));
}

/// Each row has the record that was handed out for its own chain.
pub proof fn law_each_record_is_of_its_own_chain<F: FnMut(u64) -> Option<Json>>(
    record_for: F,
    rows: Seq<JsonView>,
    records: Seq<Option<JsonView>>,
    i: int,
    chain: u64,
)
    requires
        are_records(record_for, rows, records),
        0 <= i < rows.len(),
        json::member(rows[i], "chainId"@) == Some(JsonView::Int(chain as int)) || (json::member(
            rows[i],
            "chainId"@,
        ) is None && chain == 0),
    ensures
        records.len() == rows.len(),
        exists|r: Option<Json>|
            {
                &&& #[trigger] call_ensures(record_for, (chain,), r)
                &&& record_view(r) == records[i]
            },
{
    assert(is_record(record_for, chain_of(rows[i]), records[i]));
}

/// A row without a target says nothing of what was called.
pub proof fn law_a_row_without_a_target_says_nothing(row: JsonView, offered: Seq<AssetView>)
    requires
        row is Object,
        json::text_at(row, "txTo"@) is None || json::text_at(row, "txTo"@)->0.len() == 0,
    ensures
        json::member(decorated_row(row, offered), "interactedWithDiffers"@) == json::member(
            row,
            "interactedWithDiffers"@,
        ),
        json::member(decorated_row(row, offered), "interactedWithSymbol"@) == json::member(
            row,
            "interactedWithSymbol"@,
        ),
{
    lemma_key_shapes();
    let s = sent(row);
    if is_sent(row) {
        lemma_sent_member(row, "txTo"@);
        lemma_sent_member(row, "interactedWithDiffers"@);
        lemma_sent_member(row, "interactedWithSymbol"@);
    }
    lemma_decorated_member(row, offered, "interactedWithDiffers"@);
    lemma_decorated_member(row, offered, "interactedWithSymbol"@);
    lemma_interacted_member(s, offered, "interactedWithDiffers"@);
    lemma_interacted_member(s, offered, "interactedWithSymbol"@);
}

/// What the meta data of a sent token do not say is not made up: what the row says of it stays. The
/// amount is taken only together with its decimals.
pub proof fn law_a_sent_token_is_not_made_up(
    row: JsonView,
    offered: Seq<AssetView>,
    meta: Map<Seq<char>, JsonView>,
)
    requires
        row is Object,
        json::member(row, "meta"@) == Some(JsonView::Object(meta)),
        meta.contains_key("kind"@) && meta["kind"@] == JsonView::Text("erc20"@),
    ensures
        ({
            let d = decorated_row(row, offered);
            let m = JsonView::Object(meta);
            let without = |k: Seq<char>|
                json::text_at(m, k) is None || json::text_at(m, k)->0.len() == 0;
            &&& without("token"@) ==> json::member(d, "token"@) == json::member(row, "token"@)
            &&& without("recipient"@) ==> json::member(d, "to"@) == json::member(row, "to"@)
            &&& without("tokenSymbol"@) ==> json::member(d, "tokenSymbol"@) == json::member(
                row,
                "tokenSymbol"@,
            ) && json::member(d, "valueSymbol"@) == json::member(row, "valueSymbol"@)
            &&& without("amount"@) || json::byte_at(m, "tokenDecimals"@) is None ==> {
                &&& json::member(d, "value"@) == json::member(row, "value"@)
                &&& json::member(d, "valueDecimals"@) == json::member(row, "valueDecimals"@)
                &&& json::member(d, "valueDisplay"@) == json::member(row, "valueDisplay"@)
                &&& json::member(d, "valueExact"@) == json::member(row, "valueExact"@)
            }
        }),
{
    lemma_key_shapes();
    lemma_amount_keys();
    reveal_strlit("erc20");
    assert("erc20"@.len() == 5);
    assert(is_sent(row));
    lemma_sent_read(row, offered, "token"@);
    lemma_sent_read(row, offered, "to"@);
    lemma_sent_read(row, offered, "tokenSymbol"@);
    lemma_sent_read(row, offered, "valueSymbol"@);
    lemma_sent_read(row, offered, "value"@);
    lemma_sent_read(row, offered, "valueDecimals"@);
    lemma_sent_read(row, offered, "valueExact"@);
    lemma_sent_read(row, offered, "valueDisplay"@);
}

/// An entry without an amount, or with one that is no number, gets no texts of it.
pub proof fn law_an_entry_without_an_amount_gets_no_texts(entry: JsonView, asset: AssetView)
    requires
        json::writable(entry),
        json::text_at(entry, "amount"@) is None || units::exact_text(
            json::text_at(entry, "amount"@)->0,
            asset.decimals as nat,
        ) is None,
    ensures
        json::member(priced(entry, asset), "amountExact"@) == json::member(entry, "amountExact"@),
        json::member(priced(entry, asset), "amountDisplay"@) == json::member(
            entry,
            "amountDisplay"@,
        ),
{
    lemma_key_shapes();
    lemma_amount_keys();
    lemma_priced_member(entry, asset, "amountExact"@);
    lemma_priced_member(entry, asset, "amountDisplay"@);
}

/// A transfer that names no contract is unknown, wherever every offered token has an address.
pub proof fn law_a_transfer_without_a_contract_is_unknown(
    transfer: JsonView,
    offered: Seq<AssetView>,
    other: Seq<char>,
)
    requires
        json::writable(transfer),
        json::text_at(transfer, "contract"@) is None,
        forall|j: int|
            0 <= j < offered.len() ==> ((#[trigger] offered[j]).address matches Some(a) ==> a.len()
                > 0),
    ensures
        json::member(looked_up(transfer, offered), "known"@) == Some(JsonView::Bool(false)),
        other != "known"@ ==> json::member(looked_up(transfer, offered), other) == json::member(
            transfer,
            other,
        ),
{
    lemma_key_shapes();
    reveal_strlit("");
    assert(text::lowered(""@).len() == 0);
    assert forall|j: int| 0 <= j < offered.len() implies !((#[trigger] offered[j]).address is Some
        && text::alike(offered[j].address->0, ""@)) by {
        if offered[j].address is Some {
            assert(text::lowered(offered[j].address->0).len() == offered[j].address->0.len());
        }
    }
    lemma_none_at(offered, ""@);
}

} // verus!
