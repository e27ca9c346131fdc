//! Pure transfer resolution and the unsigned call handed to a sender by a composer.
use vstd::prelude::*;
use vstd::string::StringExecFns;

use crate::address;
use crate::address::Address;
use crate::assets;
use crate::assets::{find_native, Asset, AssetView};
use crate::codec;
use crate::digits;
use crate::digits::decimal_text;
use crate::hextext;
use crate::hextext::encode;
use crate::json;
use crate::json::{Json, JsonView};
use crate::text;
use crate::text::{joined, trim};
use crate::uint;
use crate::uint::U256;
use crate::units;

verus! {

/// What a caller asks to be transferred.
#[derive(Clone, Debug)]
pub struct TransferRequest {
    pub from: String,
    pub to: String,
    pub amount: Option<String>,
    pub amount_units: Option<String>,
    pub token: Option<String>,
    pub token_address: Option<String>,
    pub tokens: Vec<Json>,
    pub deadline_ms: Option<i64>,
}

/// A transfer whose parties, asset and amount are settled.
#[derive(Clone, Debug)]
pub struct Resolved {
    pub chain_id: u64,
    pub from: Address,
    pub to: Address,
    pub asset: Asset,
    pub amount: U256,
    pub native_symbol: String,
}

/// What a settled transfer is.
pub struct ResolvedView {
    pub chain_id: u64,
    pub from: Seq<u8>,
    pub to: Seq<u8>,
    pub asset: AssetView,
    pub amount: nat,
    pub native_symbol: Seq<char>,
}

impl View for Resolved {
    type V = ResolvedView;

    open spec fn view(&self) -> ResolvedView {
        ResolvedView {
            chain_id: self.chain_id,
            from: self.from@,
            to: self.to@,
            asset: self.asset@,
            amount: self.amount@,
            native_symbol: self.native_symbol@,
        }
    }
}

/// What names the asset of a request: the token address where one is given, or else the token, or
/// else the native symbol.
pub open spec fn asset_key(request: TransferRequest, native: AssetView) -> Seq<char> {
    match request.token_address {
        Some(s) => if text::trimmed(s@).len() > 0 {
            s@
        } else {
            token_key(request, native)
        },
        None => token_key(request, native),
    }
}

/// The token of a request, or else the native symbol.
pub open spec fn token_key(request: TransferRequest, native: AssetView) -> Seq<char> {
    match request.token {
        Some(s) => s@,
        None => native.symbol,
    }
}

/// What a request comes to among the offered assets, or why it is refused.
pub open spec fn settled(
    chain_id: u64,
    request: TransferRequest,
    offered: Seq<AssetView>,
) -> Result<ResolvedView, Seq<char>> {
    let from = text::trimmed(request.from@);
    let to = text::trimmed(request.to@);
    if !address::is_address(from) {
        Err("invalid `from` address: "@ + address::address_refusal(from))
    } else if !address::is_address(to) {
        Err("invalid `to` address: "@ + address::address_refusal(to))
    } else {
        match assets::first_native(offered) {
            None => Err(
                "chain "@ + digits::decimal(chain_id as nat) + " has no native asset metadata"@,
            ),
            Some(native) => match assets::resolution(offered, asset_key(request, native)) {
                Err(why) => Err(why),
                Ok(asset) => match units::amount_outcome(
                    assets::maybe(request.amount),
                    assets::maybe(request.amount_units),
                    asset.decimals as nat,
                    asset.symbol,
                ) {
                    Err(why) => Err(why),
                    Ok(amount) => Ok(
                        ResolvedView {
                            chain_id,
                            from: address::address_of(from),
                            to: address::address_of(to),
                            asset,
                            amount,
                            native_symbol: native.symbol,
                        },
                    ),
                },
            },
        }
    }
}

/// The text that is borrowed, where one is.
fn borrowed(s: &Option<String>) -> (r: Option<&str>)
    ensures
        units::given(r) == assets::maybe(*s),
{
    match s {
        Some(t) => Some(t.as_str()),
        None => None,
    }
}

/// Settles a request among the offered assets.
pub fn resolve(chain_id: u64, request: &TransferRequest, offered: &[Asset]) -> (r: Result<
    Resolved,
    String,
>)
    ensures
        match settled(chain_id, *request, assets::views(offered@)) {
            Ok(v) => r matches Ok(t) && t@ == v,
            Err(why) => r matches Err(e) && e@ == why,
        },
{
    let from = match Address::parse(trim(request.from.as_str())) {
        Ok(a) => a,
        Err(e) => return Err(joined("invalid `from` address: ", e.as_str())),
    };
    let to = match Address::parse(trim(request.to.as_str())) {
        Ok(a) => a,
        Err(e) => return Err(joined("invalid `to` address: ", e.as_str())),
    };
    let native = match find_native(offered) {
        Some(a) => a,
        None => {
            let mut why = joined("chain ", decimal_text(chain_id).as_str());
            why.append(" has no native asset metadata");
            return Err(why);
        },
    };
    let token = match &request.token {
        Some(s) => s.as_str(),
        None => native.symbol.as_str(),
    };
    let key = match &request.token_address {
        Some(s) => if trim(s.as_str()).unicode_len() > 0 {
            s.as_str()
        } else {
            token
        },
        None => token,
    };
    let asset = match assets::resolve(offered, key) {
        Ok(a) => a,
        Err(why) => return Err(why),
    };
    let amount = match units::resolve_amount(
        borrowed(&request.amount),
        borrowed(&request.amount_units),
        asset.decimals,
        asset.symbol.as_str(),
    ) {
        Ok(n) => n,
        Err(why) => return Err(why),
    };
    Ok(Resolved { chain_id, from, to, asset, amount, native_symbol: native.symbol.clone() })
}

/// What is said to an account that holds too little.
pub open spec fn overdrawn(held: nat, amount: nat, symbol: Seq<char>, decimals: nat) -> Seq<char> {
    "cannot send "@ + digits::rendered(amount, decimals) + " "@ + symbol
        + "; the account holds "@ + digits::rendered(held, decimals) + " "@ + symbol
}

/// An amount in token units, every digit kept.
fn exact(amount: &U256, decimals: u8) -> (r: String)
    ensures
        r@ == digits::rendered(amount@, decimals as nat),
{
    let raw = amount.to_decimal();
    proof {
        units::lemma_raw_of_decimal(amount@);
    }
    match units::format_exact(raw.as_str(), decimals) {
        Some(s) => s,
        None => raw,
    }
}

/// Whether an account that holds `held` base units of a token can send `amount` of them; a refusal
/// speaks in token units.
pub fn token_affordable(held: U256, amount: U256, symbol: &str, decimals: u8) -> (r: Result<
    (),
    String,
>)
    ensures
        r is Ok <==> amount@ <= held@,
        r matches Err(e) ==> e@ == overdrawn(held@, amount@, symbol@, decimals as nat),
{
    if !held.is_below(&amount) {
        return Ok(());
    }
    let mut why = joined("cannot send ", exact(&amount, decimals).as_str());
    why.append(" ");
    why.append(symbol);
    why.append("; the account holds ");
    why.append(exact(&held, decimals).as_str());
    why.append(" ");
    why.append(symbol);
    Err(why)
}

/// The line that says what a transfer does.
pub open spec fn purpose_text(t: ResolvedView) -> Seq<char> {
    "Send "@ + digits::rendered(t.amount, t.asset.decimals as nat) + " "@ + t.asset.symbol
        + " from "@ + address::checksummed(t.from) + " to "@ + address::checksummed(t.to)
}

/// The line that says what a transfer does: how much of which asset, from whom and to whom.
pub fn purpose(resolved: &Resolved) -> (r: String)
    ensures
        r@ == purpose_text(resolved@),
{
    let mut line = joined("Send ", exact(&resolved.amount, resolved.asset.decimals).as_str());
    line.append(" ");
    line.append(resolved.asset.symbol.as_str());
    line.append(" from ");
    line.append(resolved.from.to_checksum().as_str());
    line.append(" to ");
    line.append(resolved.to.to_checksum().as_str());
    line
}

/// Whether a call can be built: the asset is native, or a token at an address.
pub open spec fn can_call(t: ResolvedView) -> bool {
    t.asset.native || (t.asset.address is Some && address::is_address(t.asset.address->0))
}

/// The meta data of the call of a transfer.
pub open spec fn call_meta(t: ResolvedView) -> JsonView {
    let v = JsonView::Object(Map::empty());
    let v = if t.asset.native {
        json::put(v, "kind"@, JsonView::Text("native"@))
    } else {
        let v = json::put(v, "kind"@, JsonView::Text("erc20"@));
        let v = json::put(
            v,
            "token"@,
            match t.asset.address {
                Some(s) => JsonView::Text(s),
                None => JsonView::Null,
            },
        );
        let v = json::put(v, "tokenSymbol"@, JsonView::Text(t.asset.symbol));
        json::put(v, "tokenDecimals"@, JsonView::Int(t.asset.decimals as int))
    };
    let v = json::put(v, "recipient"@, JsonView::Text(address::checksummed(t.to)));
    json::put(v, "amount"@, JsonView::Text(digits::decimal(t.amount)))
}

/// Whom the call of a transfer goes to: the recipient, or the contract of the token.
pub open spec fn call_target(t: ResolvedView) -> Seq<u8> {
    if t.asset.native {
        t.to
    } else {
        address::address_of(t.asset.address->0)
    }
}

/// The ether that the call of a transfer carries.
pub open spec fn call_value(t: ResolvedView) -> nat {
    if t.asset.native {
        t.amount
    } else {
        0
    }
}

/// The data of the call of a transfer.
pub open spec fn call_data(t: ResolvedView) -> Seq<u8> {
    if t.asset.native {
        Seq::empty()
    } else {
        codec::transfer_selector() + codec::address_word(t.to) + uint::be_bytes(t.amount, 32)
    }
}

/// The unsigned call of a transfer.
pub open spec fn call_json(t: ResolvedView) -> JsonView {
    let v = JsonView::Object(Map::empty());
    let v = json::put(v, "to"@, JsonView::Text(address::checksummed(call_target(t))));
    let v = json::put(v, "value"@, JsonView::Text("0x"@ + digits::digits(call_value(t), 16)));
    let v = json::put(v, "data"@, JsonView::Text("0x"@ + hextext::hex_text(call_data(t))));
    let v = json::put(v, "label"@, JsonView::Text("Send "@ + t.asset.symbol));
    json::put(v, "meta"@, call_meta(t))
}

/// The meta data of the call of a transfer.
fn meta(resolved: &Resolved) -> (r: Json)
    ensures
        r@ == call_meta(resolved@),
{
    let asset = &resolved.asset;
    let mut v = Json::object();
    if asset.native {
        v.set("kind", Json::text("native"));
    } else {
        v.set("kind", Json::text("erc20"));
        let token = match &asset.address {
            Some(s) => Json::text(s.as_str()),
            None => Json::Null,
        };
        v.set("token", token);
        v.set("tokenSymbol", Json::text(asset.symbol.as_str()));
        v.set("tokenDecimals", Json::Unsigned(asset.decimals as u64));
    }
    v.set("recipient", Json::Text(resolved.to.to_checksum()));
    v.set("amount", Json::Text(resolved.amount.to_decimal()));
    v
}

/// The unsigned call of a transfer, for a sender to submit.
pub fn call(resolved: &Resolved) -> (r: Json)
    requires
        can_call(resolved@),
    ensures
        r@ == call_json(resolved@),
{
    let mut target = resolved.to;
    let mut value = U256::zero();
    let mut data: Vec<u8> = Vec::new();
    if resolved.asset.native {
        value = resolved.amount;
    } else {
        match &resolved.asset.address {
            Some(s) => match Address::parse(s.as_str()) {
                Ok(a) => {
                    target = a;
                },
                Err(_) => {
                    assert(false);
                },
            },
            None => {
                assert(false);
            },
        }
        data = codec::transfer(resolved.to, resolved.amount);
    }
    assert(data@ =~= call_data(resolved@));
    let mut v = Json::object();
    v.set("to", Json::Text(target.to_checksum()));
    v.set("value", Json::Text(joined("0x", value.to_hex().as_str())));
    v.set("data", Json::Text(joined("0x", encode(data.as_slice()).as_str())));
    v.set("label", Json::Text(joined("Send ", resolved.asset.symbol.as_str())));
    v.set("meta", meta(resolved));
    v
}

/// An exact token address decides: a request with one comes to the token that stands there,
/// whatever its symbol collides with, or is refused.
pub proof fn law_a_token_address_decides(
    chain_id: u64,
    request: TransferRequest,
    offered: Seq<AssetView>,
)
    requires
        request.token_address is Some,
        address::is_address(text::trimmed(request.token_address->0@)),
        settled(chain_id, request, offered) is Ok,
    ensures
        offered.contains(settled(chain_id, request, offered)->Ok_0.asset),
        assets::stands_at(
            settled(chain_id, request, offered)->Ok_0.asset,
            text::trimmed(request.token_address->0@),
        ),
{
    assets::law_an_address_is_an_unambiguous_identity(offered, request.token_address->0@);
}

/// A request that supplies both amounts, or none, is refused.
pub proof fn law_one_amount_is_asked_for(
    chain_id: u64,
    request: TransferRequest,
    offered: Seq<AssetView>,
)
    requires
        request.amount is Some <==> request.amount_units is Some,
    ensures
        settled(chain_id, request, offered) is Err,
{
}

/// The call of a token says whom and how much: it carries no ether, it goes to the contract of the
/// token, and behind the selector its data hold the recipient and the amount.
pub proof fn law_a_token_call_says_whom_and_how_much(t: ResolvedView)
    requires
        !t.asset.native,
        t.to.len() == 20,
        t.amount < uint::limit(),
    ensures
        call_value(t) == 0,
        call_target(t) == address::address_of(t.asset.address->0),
        call_data(t).len() == 68,
        call_data(t).take(4) == codec::transfer_selector(),
        call_data(t).subrange(16, 36) == t.to,
        uint::be_value(call_data(t).subrange(36, 68)) == t.amount,
{
    uint::law_words_read_back(t.amount);
    let data = call_data(t);
    let word = uint::be_bytes(t.amount, 32);
    assert(data.take(4) =~= codec::transfer_selector());
    assert(data.subrange(16, 36) =~= t.to);
    assert(data.subrange(36, 68) =~= word);
}

/// A native call is a plain transfer of ether: it goes to the recipient, carries the amount and
/// has no data.
pub proof fn law_a_native_call_is_plain(t: ResolvedView)
    requires
        t.asset.native,
    ensures
        call_target(t) == t.to,
        call_value(t) == t.amount,
        call_data(t) == Seq::<u8>::empty(),
{
}

/// The shapes of the keys of a call: no two of them are alike.
proof fn lemma_call_keys()
    ensures
        "to"@.len() == 2 && "to"@[0] == 't',
        "data"@.len() == 4 && "data"@[0] == 'd',
        "meta"@.len() == 4 && "meta"@[0] == 'm',
        "kind"@.len() == 4 && "kind"@[0] == 'k',
        "label"@.len() == 5 && "label"@[0] == 'l',
        "value"@.len() == 5 && "value"@[0] == 'v',
        "token"@.len() == 5 && "token"@[0] == 't',
        "amount"@.len() == 6 && "amount"@[0] == 'a',
        "recipient"@.len() == 9 && "recipient"@[0] == 'r',
        "tokenSymbol"@.len() == 11 && "tokenSymbol"@[0] == 't',
        "tokenDecimals"@.len() == 13 && "tokenDecimals"@[0] == 't',
{
    reveal_strlit("to");
    reveal_strlit("data");
    reveal_strlit("meta");
    reveal_strlit("kind");
    reveal_strlit("label");
    reveal_strlit("value");
    reveal_strlit("token");
    reveal_strlit("amount");
    reveal_strlit("recipient");
    reveal_strlit("tokenSymbol");
    reveal_strlit("tokenDecimals");
}


/// A settled transfer is what was asked for: it goes from and to the addresses of the request, of
/// the asset that the token address names where one is given, or else the token, or else the native
/// symbol, and in the amount that is given in base units or that the human units come to at that
/// asset's own decimals.
pub proof fn law_a_settled_transfer_is_what_was_asked_for(
    chain_id: u64,
    request: TransferRequest,
    offered: Seq<AssetView>,
    i: int,
)
    requires
        settled(chain_id, request, offered) is Ok,
        0 <= i < offered.len(),
        offered[i].native,
        forall|j: int| 0 <= j < i ==> !(#[trigger] offered[j]).native,
    ensures
        ({
            let t = settled(chain_id, request, offered)->Ok_0;
            let given = request.token_address is Some && text::trimmed(
                request.token_address->0@,
            ).len() > 0;
            &&& t.chain_id == chain_id
            &&& address::is_address(text::trimmed(request.from@))
            &&& address::is_address(text::trimmed(request.to@))
            &&& t.from == address::address_of(text::trimmed(request.from@))
            &&& t.to == address::address_of(text::trimmed(request.to@))
            &&& t.native_symbol == offered[i].symbol
            &&& given ==> assets::resolution(offered, request.token_address->0@) == Ok::<
                AssetView,
                Seq<char>,
            >(t.asset)
            &&& !given && request.token is Some ==> assets::resolution(offered, request.token->0@)
                == Ok::<AssetView, Seq<char>>(t.asset)
            &&& !given && request.token is None ==> assets::resolution(offered, offered[i].symbol)
                == Ok::<AssetView, Seq<char>>(t.asset)
            &&& request.amount matches Some(s) ==> request.amount_units is None && units::any_value(
                s@,
            ) == Some(t.amount)
            &&& request.amount_units matches Some(s) ==> request.amount is None
                && units::units_outcome(s@, t.asset.decimals as nat) == Ok::<nat, units::Refusal>(
                t.amount,
            )
            &&& request.amount is Some || request.amount_units is Some
        }),
{
    assets::lemma_first_native_is(offered, i);
}

/// A request is settled wherever its parties are addresses, its asset is named and its amount can
/// be read; nothing else is asked of it.
pub proof fn law_what_a_request_has_to_say(
    chain_id: u64,
    request: TransferRequest,
    offered: Seq<AssetView>,
    i: int,
    asset: AssetView,
)
    requires
        0 <= i < offered.len(),
        offered[i].native,
        forall|j: int| 0 <= j < i ==> !(#[trigger] offered[j]).native,
        address::is_address(text::trimmed(request.from@)),
        address::is_address(text::trimmed(request.to@)),
        ({
            let key = if request.token_address is Some && text::trimmed(
                request.token_address->0@,
            ).len() > 0 {
                request.token_address->0@
            } else if request.token is Some {
                request.token->0@
            } else {
                offered[i].symbol
            };
            assets::resolution(offered, key) == Ok::<AssetView, Seq<char>>(asset)
        }),
        request.amount is Some && request.amount_units is None && units::any_value(
            request.amount->0@,
        ) is Some || request.amount is None && request.amount_units is Some && units::units_outcome(
            request.amount_units->0@,
            asset.decimals as nat,
        ) is Ok,
    ensures
        settled(chain_id, request, offered) is Ok,
        settled(chain_id, request, offered)->Ok_0.asset == asset,
{
    assets::lemma_first_native_is(offered, i);
}

/// The call of a transfer says whom it goes to, what ether it carries, what data it has, what it is
/// and what it means: a native transfer goes to the recipient with the amount and no data, one of a
/// token to its contract with no ether and the data of the transfer; its meta data name the
/// recipient and the amount, and for a token the token, its symbol and its decimals.
pub proof fn law_a_call_says_what_it_does(t: ResolvedView)
    requires
        can_call(t),
    ensures
        ({
            let c = call_json(t);
            let target = if t.asset.native {
                t.to
            } else {
                address::address_of(t.asset.address->0)
            };
            let value = json::text_at(c, "value"@)->0;
            let data = json::text_at(c, "data"@)->0;
            let meta = json::member(c, "meta"@)->0;
            &&& json::text_at(c, "to"@) == Some(address::checksummed(target))
            &&& json::text_at(c, "value"@) is Some && value.len() > 2 && value[0] == '0' && value[1]
                == 'x' && digits::numeral_value(value.skip(2), 16) == if t.asset.native {
                t.amount as int
            } else {
                0
            }
            &&& json::text_at(c, "data"@) is Some && data.len() >= 2 && data[0] == '0' && data[1]
                == 'x' && hextext::is_hex(data.skip(2)) && hextext::unhexed(data.skip(2))
                == call_data(t)
            &&& json::text_at(c, "label"@) == Some(seq!['S', 'e', 'n', 'd', ' '] + t.asset.symbol)
            &&& json::member(c, "meta"@) is Some
            &&& json::text_at(meta, "kind"@) == Some(
                if t.asset.native {
                    "native"@
                } else {
                    "erc20"@
                },
            )
            &&& json::text_at(meta, "recipient"@) == Some(address::checksummed(t.to))
            &&& json::text_at(meta, "amount"@) == Some(digits::decimal(t.amount))
            &&& !t.asset.native ==> json::text_at(meta, "token"@) == t.asset.address
            &&& !t.asset.native ==> json::text_at(meta, "tokenSymbol"@) == Some(t.asset.symbol)
            &&& !t.asset.native ==> json::byte_at(meta, "tokenDecimals"@) == Some(t.asset.decimals)
        }),
{
    lemma_call_keys();
    reveal_strlit("0x");
    reveal_strlit("Send ");
    assert("Send "@ =~= seq!['S', 'e', 'n', 'd', ' ']);
    let v = digits::digits(call_value(t), 16);
    let d = hextext::hex_text(call_data(t));
    digits::law_base_sixteen_is_worth_the_number(call_value(t));
    hextext::law_hex_text_reads_back(call_data(t));
    assert(("0x"@ + v).skip(2) =~= v);
    assert(("0x"@ + d).skip(2) =~= d);
    assert(("0x"@ + v)[0] == '0' && ("0x"@ + v)[1] == 'x');
    assert(("0x"@ + d)[0] == '0' && ("0x"@ + d)[1] == 'x');
}

/// The purpose of a transfer names the exact amount in the asset's own units, its symbol, from whom
/// and to whom.
pub proof fn law_a_purpose_names_every_fact(t: ResolvedView)
    ensures
        ({
            let exact = units::exact_text(digits::decimal(t.amount), t.asset.decimals as nat)->0;
            purpose_text(t) == "Send "@ + exact + " "@ + t.asset.symbol + " from "@
                + address::checksummed(t.from) + " to "@ + address::checksummed(t.to)
        }),
{
    units::lemma_raw_of_decimal(t.amount);
}

/// An overdrawn account is told both amounts exactly, in the token's own units.
pub proof fn law_an_overdrawn_account_is_told_both_amounts(
    held: nat,
    amount: nat,
    symbol: Seq<char>,
    decimals: nat,
)
    ensures
        ({
            let asked = units::exact_text(digits::decimal(amount), decimals)->0;
            let there = units::exact_text(digits::decimal(held), decimals)->0;
            overdrawn(held, amount, symbol, decimals) == "cannot send "@ + asked + " "@ + symbol
                + "; the account holds "@ + there + " "@ + symbol
        }),
{
    units::lemma_raw_of_decimal(amount);
    units::lemma_raw_of_decimal(held);
}

/// A request is refused for its first fault: its sender, its recipient, a chain without a native
/// asset, its asset, and then its amount.
pub proof fn law_a_request_is_refused_for_its_first_fault(
    chain_id: u64,
    request: TransferRequest,
    offered: Seq<AssetView>,
)
    ensures
        ({
            let from = text::trimmed(request.from@);
            let to = text::trimmed(request.to@);
            let r = settled(chain_id, request, offered);
            let parties = address::is_address(from) && address::is_address(to);
            let native = exists|i: int| 0 <= i < offered.len() && (#[trigger] offered[i]).native;
            &&& !address::is_address(from) ==> r == Err::<ResolvedView, Seq<char>>(
                "invalid `from` address: "@ + address::address_refusal(from),
            )
            &&& address::is_address(from) && !address::is_address(to) ==> r == Err::<
                ResolvedView,
                Seq<char>,
            >("invalid `to` address: "@ + address::address_refusal(to))
            &&& parties && !native ==> r == Err::<ResolvedView, Seq<char>>(
                "chain "@ + digits::decimal(chain_id as nat) + " has no native asset metadata"@,
            )
            &&& parties && native && request.token_address is Some && text::trimmed(
                request.token_address->0@,
            ).len() > 0 ==> (assets::resolution(offered, request.token_address->0@) matches Err(why)
                ==> r == Err::<ResolvedView, Seq<char>>(why))
            &&& parties && native && request.token_address is None && request.token is Some ==> (
            assets::resolution(offered, request.token->0@) matches Err(why) ==> r == Err::<
                ResolvedView,
                Seq<char>,
            >(why))
        }),
{
    let native = exists|i: int| 0 <= i < offered.len() && (#[trigger] offered[i]).native;
    assets::lemma_first_native(offered);
    if native {
        let i = choose|i: int| 0 <= i < offered.len() && (#[trigger] offered[i]).native;
        assert(assets::first_native(offered) is Some);
    } else if assets::first_native(offered) is Some {
        let a = assets::first_native(offered)->0;
        let i = choose|i: int| 0 <= i < offered.len() && offered[i] == a;
        assert(offered[i].native);
    }
}

/// A call and its meta data say nothing but what it does: no sender, nonce or fee is in it.
pub proof fn law_a_call_says_nothing_else(t: ResolvedView, other: Seq<char>)
    ensures
        json::member(call_json(t), other) is Some ==> other == "to"@ || other == "value"@ || other
            == "data"@ || other == "label"@ || other == "meta"@,
        json::member(call_meta(t), other) is Some ==> other == "kind"@ || other == "recipient"@
            || other == "amount"@ || !t.asset.native && (other == "token"@ || other
            == "tokenSymbol"@ || other == "tokenDecimals"@),
{
}

} // verus!
