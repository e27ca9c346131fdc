//! JSON text: what serde_json reads from it and writes to it.

use crate::json;
use crate::json::{Json, JsonView};
use vstd::prelude::*;

verus! {

/// A tree of serde_json: opaque here.
#[verifier::external_type_specification]
#[verifier::external_body]
pub struct ExValue(serde_json::Value);

/// The entries of an object of serde_json: opaque here.
#[verifier::external_type_specification]
#[verifier::external_body]
#[verifier::reject_recursive_types(K)]
#[verifier::reject_recursive_types(V)]
pub struct ExMap<K, V>(serde_json::Map<K, V>);

/// What a tree of serde_json holds.
pub uninterp spec fn held(tree: serde_json::Value) -> JsonView;

/// What an object of serde_json holds under each key.
pub uninterp spec fn fields(map: serde_json::Map<String, serde_json::Value>) -> Map<
    Seq<char>,
    JsonView,
>;

/// What serde_json reads from a text, or the message with which it refuses the text.
pub uninterp spec fn reading(s: Seq<char>) -> Result<JsonView, Seq<char>>;

/// The text that serde_json writes for a value.
pub uninterp spec fn writing(v: JsonView) -> Seq<char>;

/// Whether what is written for `v` reads as `v` again.
pub open spec fn reads_back(v: JsonView) -> bool {
    reading(writing(v)) is Ok && reading(writing(v))->Ok_0 == v
}

/// Whether what is written for `v` reads as `v` again, but for the numbers in it that are not
/// whole.
pub open spec fn rereads(v: JsonView) -> bool {
    reading(writing(v)) is Ok && json::same_but_floats(
        v,
        reading(writing(v))->Ok_0,
        DEPTH as nat,
    )
}

/// A value whose numbers are all whole reads as it is.
pub proof fn lemma_plain_rereads(v: JsonView)
    requires
        rereads(v),
        json::plain(v, DEPTH as nat),
    ensures
        reads_back(v),
{
    json::lemma_plain_same(v, reading(writing(v))->Ok_0, DEPTH as nat);
}

/// How deep lists and objects may stand in each other in a text that is read.
pub const DEPTH: usize = 127;

/// The outermost layer of a tree of serde_json.
enum Node {
    Null,
    Bool(bool),
    Number(serde_json::Number),
    Text(String),
    Array(Vec<serde_json::Value>),
    Object(serde_json::Map<String, serde_json::Value>),
}

/// What each tree of a list holds.
spec fn held_all(list: Seq<serde_json::Value>) -> Seq<JsonView> {
    list.map_values(|t: serde_json::Value| held(t))
}

/// What a list of entries holds under each key.
spec fn held_under(entries: Seq<(String, serde_json::Value)>) -> Map<Seq<char>, JsonView>
    decreases entries.len(),
{
    if entries.len() == 0 {
        Map::empty()
    } else {
        held_under(entries.drop_last()).insert(entries.last().0@, held(entries.last().1))
    }
}

/// Where no key stands twice, each entry is what stands under its key.
proof fn lemma_held_under(entries: Seq<(String, serde_json::Value)>, i: int)
    requires
        0 <= i < entries.len(),
        forall|a: int, b: int| 0 <= a < b < entries.len() ==> entries[a].0@ != entries[b].0@,
    ensures
        held_under(entries).contains_key(entries[i].0@),
        held_under(entries)[entries[i].0@] == held(entries[i].1),
    decreases entries.len(),
{
    if i < entries.len() - 1 {
        lemma_held_under(entries.drop_last(), i);
    }
}

/// A list of entries holds something under finitely many keys.
proof fn lemma_held_under_finite(entries: Seq<(String, serde_json::Value)>)
    ensures
        held_under(entries).dom().finite(),
    decreases entries.len(),
{
    if entries.len() > 0 {
        lemma_held_under_finite(entries.drop_last());
    }
}

impl Node {
    /// What a tree with this outermost layer holds.
    spec fn value(self) -> JsonView {
        match self {
            Node::Null => JsonView::Null,
            Node::Bool(b) => JsonView::Bool(b),
            Node::Number(n) => json::number(n),
            Node::Text(s) => JsonView::Text(s@),
            Node::Array(list) => JsonView::Array(held_all(list@)),
            Node::Object(map) => JsonView::Object(fields(map)),
        }
    }
}

/// The variants of `serde_json::Value`, told apart: each holds what its layer says.
#[verifier::external_body]
fn open_tree(tree: serde_json::Value) -> (r: Node)
    ensures
        r.value() == held(tree),
{
    match tree {
        serde_json::Value::Null => Node::Null,
        serde_json::Value::Bool(b) => Node::Bool(b),
        serde_json::Value::Number(n) => Node::Number(n),
        serde_json::Value::String(s) => Node::Text(s),
        serde_json::Value::Array(list) => Node::Array(list),
        serde_json::Value::Object(map) => Node::Object(map),
    }
}

/// The variants of `serde_json::Value`, made: each holds what its layer says.
#[verifier::external_body]
fn close_tree(node: Node) -> (r: serde_json::Value)
    ensures
        held(r) == node.value(),
{
    match node {
        Node::Null => serde_json::Value::Null,
        Node::Bool(b) => serde_json::Value::Bool(b),
        Node::Number(n) => serde_json::Value::Number(n),
        Node::Text(s) => serde_json::Value::String(s),
        Node::Array(list) => serde_json::Value::Array(list),
        Node::Object(map) => serde_json::Value::Object(map),
    }
}

/// `serde_json::Map::into_iter`, collected: the entries hand out what the map holds, each key
/// once.
#[verifier::external_body]
fn entries(map: serde_json::Map<String, serde_json::Value>) -> (r: Vec<
    (String, serde_json::Value),
>)
    ensures
        held_under(r@) == fields(map),
        forall|i: int, j: int| 0 <= i < j < r.len() ==> r[i].0@ != r[j].0@,
{
    map.into_iter().collect()
}

/// `serde_json::Map::new`: a map that holds nothing.
#[verifier::external_body]
fn no_entries() -> (r: serde_json::Map<String, serde_json::Value>)
    ensures
        fields(r) == held_under(Seq::empty()),
{
    serde_json::Map::new()
}

/// `serde_json::Map::insert`: the map holds the tree under the key, in the place of what it held
/// there before, and what it held under every other key.
#[verifier::external_body]
fn add_entry(
    map: &mut serde_json::Map<String, serde_json::Value>,
    key: String,
    tree: serde_json::Value,
)
    ensures
        fields(*final(map)) == fields(*old(map)).insert(key@, held(tree)),
{
    map.insert(key, tree);
}

/// `Number::from::<u64>`: the number reads back as the machine word that it was made from.
#[verifier::external_body]
fn unsigned_number(n: u64) -> (r: serde_json::Number)
    ensures
        json::unsigned(r) == Some(n),
{
    serde_json::Number::from(n)
}

/// `Number::from::<i64>`: the number is the one that it was made from. One below zero is no
/// unsigned machine word.
#[verifier::external_body]
fn signed_number(n: i64) -> (r: serde_json::Number)
    ensures
        json::number(r) == JsonView::Int(n as int),
{
    serde_json::Number::from(n)
}

/// `serde_json::from_str::<Value>`: reads a text. A text in which lists and objects stand deeper
/// than [`DEPTH`] is refused.
#[verifier::external_body]
fn read(s: &str) -> (r: Result<serde_json::Value, String>)
    ensures
        match r {
            Ok(tree) => reading(s@) is Ok && reading(s@)->Ok_0 == held(tree) && json::within(
                held(tree),
                DEPTH as nat,
            ),
            Err(message) => reading(s@) is Err && reading(s@)->Err_0 == message@,
        },
{
    serde_json::from_str(s).map_err(|e| e.to_string())
}

/// `Value::to_string`: writes a tree. A tree in which lists and objects stand no deeper than a
/// reader goes reads back as what it holds, but for the numbers in it that are not whole: each of
/// those is written with a point or an exponent, and reads as a number that is not held as a
/// whole one. That it is the same number is not claimed.
#[verifier::external_body]
fn write(tree: serde_json::Value) -> (r: String)
    ensures
        r@ == writing(held(tree)),
        json::within(held(tree), DEPTH as nat) ==> reading(r@) is Ok && json::same_but_floats(
            held(tree),
            reading(r@)->Ok_0,
            DEPTH as nat,
        ),
{
    tree.to_string()
}

/// The value that a tree of serde_json holds.
fn from_tree(tree: serde_json::Value) -> (r: Json)
    ensures
        r@ == held(tree),
    decreases held(tree),
{
    let ghost whole = held(tree);
    match open_tree(tree) {
        Node::Null => Json::Null,
        Node::Bool(b) => Json::Bool(b),
        Node::Number(n) => match n.as_u64() {
            Some(u) => Json::Unsigned(u),
            None => match n.as_i64() {
                Some(i) => Json::Signed(i),
                None => Json::Float(n),
            },
        },
        Node::Text(s) => Json::Text(s),
        Node::Array(list) => {
            let ghost all = list@;
            let mut out: Vec<Json> = Vec::new();
            for item in it: list
                invariant
                    it.seq() == all,
                    whole == held(tree),
                    whole == JsonView::Array(held_all(all)),
                    json::trees(out@) == held_all(all).take(it.index()),
            {
                let ghost i = it.index();
                assert(held_all(all)[i] == held(item));
                assert(decreases_to!(whole => whole->Array_0[i]));
                let value = from_tree(item);
                proof {
                    json::lemma_trees(out@, value);
                    assert(held_all(all).take(i + 1) =~= held_all(all).take(i).push(
                        held(all[i]),
                    ));
                }
                out.push(value);
            }
            assert(held_all(all).take(all.len() as int) =~= held_all(all));
            Json::Array(out)
        },
        Node::Object(map) => {
            let list = entries(map);
            let ghost all = list@;
            let mut out: Vec<(String, Json)> = Vec::new();
            assert(held_under(all.take(0)) =~= Map::empty());
            for entry in it: list
                invariant
                    it.seq() == all,
                    whole == held(tree),
                    whole == JsonView::Object(held_under(all)),
                    forall|i: int, j: int| 0 <= i < j < all.len() ==> all[i].0@ != all[j].0@,
                    json::members(out@) == held_under(all.take(it.index())),
            {
                let ghost i = it.index();
                proof {
                    lemma_held_under(all, i);
                    lemma_held_under_finite(all);
                    assert(decreases_to!(whole => whole->Object_0[all[i].0@]));
                }
                let (key, item) = entry;
                let value = from_tree(item);
                proof {
                    json::lemma_members(out@, (key, value));
                    assert(all.take(i + 1).drop_last() =~= all.take(i));
                }
                out.push((key, value));
            }
            assert(all.take(all.len() as int) =~= all);
            Json::Object(out)
        },
    }
}

/// A tree of serde_json that holds a value.
fn to_tree(value: &Json) -> (r: serde_json::Value)
    ensures
        held(r) == value@,
    decreases value,
{
    match value {
        Json::Null => close_tree(Node::Null),
        Json::Bool(b) => close_tree(Node::Bool(*b)),
        Json::Unsigned(n) => close_tree(Node::Number(unsigned_number(*n))),
        Json::Signed(n) => close_tree(Node::Number(signed_number(*n))),
        Json::Float(n) => close_tree(Node::Number(n.clone())),
        Json::Text(s) => close_tree(Node::Text(s.clone())),
        Json::Array(list) => {
            let mut out: Vec<serde_json::Value> = Vec::new();
            let mut i: usize = 0;
            while i < list.len()
                invariant
                    i <= list.len(),
                    value matches Json::Array(l) && l == list,
                    held_all(out@) == json::trees(list@.take(i as int)),
                decreases list.len() - i,
            {
                let item = to_tree(&list[i]);
                proof {
                    json::lemma_trees(list@.take(i as int), list@[i as int]);
                    assert(list@.take(i + 1) =~= list@.take(i as int).push(list@[i as int]));
                    assert(held_all(out@.push(item)) =~= held_all(out@).push(held(item)));
                }
                out.push(item);
                i = i + 1;
            }
            assert(list@.take(list@.len() as int) =~= list@);
            close_tree(Node::Array(out))
        },
        Json::Object(list) => {
            let mut out = no_entries();
            let mut i: usize = 0;
            while i < list.len()
                invariant
                    i <= list.len(),
                    value matches Json::Object(l) && l == list,
                    fields(out) == json::members(list@.take(i as int)),
                decreases list.len() - i,
            {
                let item = to_tree(&list[i].1);
                assert(list@.take(i + 1).drop_last() =~= list@.take(i as int));
                add_entry(&mut out, list[i].0.clone(), item);
                i = i + 1;
            }
            assert(list@.take(list@.len() as int) =~= list@);
            close_tree(Node::Object(out))
        },
    }
}

impl Json {
    /// The value that a tree of serde_json holds.
    pub fn from_value(tree: serde_json::Value) -> (r: Json)
        ensures
            r@ == held(tree),
    {
        from_tree(tree)
    }

    /// Reads a JSON text; the error is the reader's message.
    pub fn parse(s: &str) -> (r: Result<Json, String>)
        ensures
            match reading(s@) {
                Ok(v) => r matches Ok(j) && j@ == v && json::within(v, DEPTH as nat),
                Err(m) => r matches Err(e) && e@ == m,
            },
    {
        match read(s) {
            Ok(tree) => Ok(from_tree(tree)),
            Err(e) => Err(e),
        }
    }

    /// This value as a JSON text. A value in which lists and objects stand no deeper than a reader
    /// goes reads back, but for the numbers in it that are not whole, and as it is where it has
    /// none of those.
    pub fn to_text(&self) -> (r: String)
        ensures
            r@ == writing(self@),
            json::within(self@, DEPTH as nat) ==> rereads(self@),
            json::plain(self@, DEPTH as nat) ==> reads_back(self@),
    {
        let r = write(to_tree(self));
        proof {
            if json::plain(self@, DEPTH as nat) {
                json::lemma_plain_within(self@, DEPTH as nat);
                lemma_plain_rereads(self@);
            }
        }
        r
    }
}

} // verus!
