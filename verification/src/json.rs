//! JSON values: a tree of the library's own, its mathematical view, and its way from and to text.

use crate::text;
use vstd::prelude::*;

verus! {

/// A number of serde_json: opaque here.
#[verifier::external_type_specification]
#[verifier::external_body]
pub struct ExNumber(serde_json::Number);

/// The machine word that a number of serde_json is, where it is one.
pub uninterp spec fn unsigned(n: serde_json::Number) -> Option<u64>;

/// The signed machine word that a number of serde_json is, where it is one.
pub uninterp spec fn signed(n: serde_json::Number) -> Option<i64>;

/// `Number::as_u64`.
pub assume_specification [serde_json::Number::as_u64] (n: &serde_json::Number) -> (r: Option<u64>)
    ensures
        r == unsigned(*n),
;

/// `Number::as_i64`.
pub assume_specification [serde_json::Number::as_i64] (n: &serde_json::Number) -> (r: Option<i64>)
    ensures
        r == signed(*n),
;

/// `Number::clone`: the copy is the same number.
pub assume_specification [<serde_json::Number as Clone>::clone] (
    n: &serde_json::Number,
) -> (r: serde_json::Number)
    ensures
        r == *n,
;

/// A JSON value. Where a key stands twice in an object, its last entry counts.
#[derive(Debug, PartialEq, Eq)]
pub enum Json {
    Null,
    Bool(bool),
    Unsigned(u64),
    Signed(i64),
    Float(serde_json::Number),
    Text(String),
    Array(Vec<Json>),
    Object(Vec<(String, Json)>),
}

/// What a JSON value is, apart from how it is held.
pub enum JsonView {
    Null,
    Bool(bool),
    Int(int),
    Float(serde_json::Number),
    Text(Seq<char>),
    Array(Seq<JsonView>),
    Object(Map<Seq<char>, JsonView>),
}

/// The value that a number is: a whole one, or one that is carried as it is.
pub open spec fn number(n: serde_json::Number) -> JsonView {
    match unsigned(n) {
        Some(u) => JsonView::Int(u as int),
        None => match signed(n) {
            Some(i) => JsonView::Int(i as int),
            None => JsonView::Float(n),
        },
    }
}

/// What the entries of an object hold under each key.
pub open spec fn members(entries: Seq<(String, Json)>) -> Map<Seq<char>, JsonView>
    decreases entries,
{
    if entries.len() == 0 {
        Map::empty()
    } else {
        members(entries.drop_last()).insert(entries.last().0@, entries.last().1.tree())
    }
}

/// What each value of a list is.
pub open spec fn trees(list: Seq<Json>) -> Seq<JsonView>
    decreases list,
{
    Seq::new(
        list.len(),
        |i: int|
            if 0 <= i < list.len() {
                list[i].tree()
            } else {
                JsonView::Null
            },
    )
}

impl Json {
    /// The value that this tree stands for.
    pub open spec fn tree(&self) -> JsonView
        decreases self,
    {
        match self {
            Json::Null => JsonView::Null,
            Json::Bool(b) => JsonView::Bool(*b),
            Json::Unsigned(n) => JsonView::Int(*n as int),
            Json::Signed(n) => JsonView::Int(*n as int),
            Json::Float(n) => number(*n),
            Json::Text(s) => JsonView::Text(s@),
            Json::Array(v) => JsonView::Array(trees(v@)),
            Json::Object(v) => JsonView::Object(members(v@)),
        }
    }
}

impl View for Json {
    type V = JsonView;

    open spec fn view(&self) -> JsonView {
        self.tree()
    }
}

/// What stands under `key` in `v`, where `v` is an object.
pub open spec fn member(v: JsonView, key: Seq<char>) -> Option<JsonView> {
    match v {
        JsonView::Object(m) => if m.contains_key(key) {
            Some(m[key])
        } else {
            None
        },
        _ => None,
    }
}

/// The text that `v` is.
pub open spec fn as_text(v: JsonView) -> Option<Seq<char>> {
    match v {
        JsonView::Text(s) => Some(s),
        _ => None,
    }
}

/// The machine word that `v` is.
pub open spec fn as_word(v: JsonView) -> Option<u64> {
    match v {
        JsonView::Int(n) => if 0 <= n <= u64::MAX {
            Some(n as u64)
        } else {
            None
        },
        _ => None,
    }
}

/// The truth value that `v` is.
pub open spec fn as_truth(v: JsonView) -> Option<bool> {
    match v {
        JsonView::Bool(b) => Some(b),
        _ => None,
    }
}

/// The items of the list that `v` is.
pub open spec fn as_items(v: JsonView) -> Option<Seq<JsonView>> {
    match v {
        JsonView::Array(s) => Some(s),
        _ => None,
    }
}

/// The text under `key` in `v`.
pub open spec fn text_at(v: JsonView, key: Seq<char>) -> Option<Seq<char>> {
    match member(v, key) {
        Some(w) => as_text(w),
        None => None,
    }
}

/// The machine word under `key` in `v`.
pub open spec fn word_at(v: JsonView, key: Seq<char>) -> Option<u64> {
    match member(v, key) {
        Some(w) => as_word(w),
        None => None,
    }
}

/// The number below 256 under `key` in `v`.
pub open spec fn byte_at(v: JsonView, key: Seq<char>) -> Option<u8> {
    match word_at(v, key) {
        Some(n) => if n <= u8::MAX {
            Some(n as u8)
        } else {
            None
        },
        None => None,
    }
}

/// The truth value under `key` in `v`.
pub open spec fn truth_at(v: JsonView, key: Seq<char>) -> Option<bool> {
    match member(v, key) {
        Some(w) => as_truth(w),
        None => None,
    }
}

/// The items of the list under `key` in `v`.
pub open spec fn items_at(v: JsonView, key: Seq<char>) -> Option<Seq<JsonView>> {
    match member(v, key) {
        Some(w) => as_items(w),
        None => None,
    }
}

/// Whether a value can be written under a key of `v`: an object, or null, which becomes one.
pub open spec fn writable(v: JsonView) -> bool {
    v is Object || v is Null
}

/// `v` with `w` under `key`.
pub open spec fn put(v: JsonView, key: Seq<char>, w: JsonView) -> JsonView {
    match v {
        JsonView::Object(m) => JsonView::Object(m.insert(key, w)),
        JsonView::Null => JsonView::Object(Map::empty().insert(key, w)),
        _ => v,
    }
}

/// `v` with nothing under `key`.
pub open spec fn drop(v: JsonView, key: Seq<char>) -> JsonView {
    match v {
        JsonView::Object(m) => JsonView::Object(m.remove(key)),
        _ => v,
    }
}

/// Whether lists and objects stand in `v` at most `n` deep.
pub open spec fn within(v: JsonView, n: nat) -> bool
    decreases n,
{
    match v {
        JsonView::Array(s) => n > 0 && forall|i: int|
            0 <= i < s.len() ==> within(#[trigger] s[i], (n - 1) as nat),
        JsonView::Object(m) => n > 0 && forall|k: Seq<char>|
            m.contains_key(k) ==> within(#[trigger] m[k], (n - 1) as nat),
        _ => true,
    }
}

/// Whether lists and objects stand in `v` at most `n` deep and all its numbers are whole.
pub open spec fn plain(v: JsonView, n: nat) -> bool
    decreases n,
{
    match v {
        JsonView::Array(s) => n > 0 && forall|i: int|
            0 <= i < s.len() ==> plain(#[trigger] s[i], (n - 1) as nat),
        JsonView::Object(m) => n > 0 && forall|k: Seq<char>|
            m.contains_key(k) ==> plain(#[trigger] m[k], (n - 1) as nat),
        JsonView::Float(_) => false,
        _ => true,
    }
}

/// Whether `a` and `b`, in which lists and objects stand at most `n` deep, are the same but for
/// the numbers in them that are not whole.
pub open spec fn same_but_floats(a: JsonView, b: JsonView, n: nat) -> bool
    decreases n,
{
    match (a, b) {
        (JsonView::Array(s), JsonView::Array(t)) => n > 0 && s.len() == t.len() && forall|i: int|
            0 <= i < s.len() ==> same_but_floats(#[trigger] s[i], t[i], (n - 1) as nat),
        (JsonView::Object(l), JsonView::Object(m)) => n > 0 && l.dom() == m.dom() && forall|
            k: Seq<char>,
        |
            l.contains_key(k) ==> same_but_floats(#[trigger] l[k], m[k], (n - 1) as nat),
        (JsonView::Float(_), JsonView::Float(_)) => true,
        _ => a == b,
    }
}

/// What is under `key` among `entries`.
pub open spec fn found(entries: Seq<(String, Json)>, key: Seq<char>) -> Option<JsonView> {
    member(JsonView::Object(members(entries)), key)
}

/// `entries` without those under `key`.
fn drop_key(entries: Vec<(String, Json)>, key: &str) -> (r: Vec<(String, Json)>)
    ensures
        members(r@) == members(entries@).remove(key@),
{
    let ghost all = entries@;
    let mut kept: Vec<(String, Json)> = Vec::new();
    assert(members(all.take(0)).remove(key@) =~= Map::empty());
    for entry in it: entries
        invariant
            it.seq() == all,
            members(kept@) == members(all.take(it.index())).remove(key@),
    {
        let ghost i = it.index();
        proof {
            assert(all.take(i + 1).drop_last() =~= all.take(i));
            assert(all.take(i + 1).last() == all[i]);
        }
        if text::same(&entry.0, key) {
            assert(members(all.take(i + 1)).remove(key@) =~= members(kept@));
        } else {
            assert(kept@.push(entry).drop_last() =~= kept@);
            kept.push(entry);
            assert(members(all.take(i + 1)).remove(key@) =~= members(kept@));
        }
    }
    assert(all.take(all.len() as int) =~= all);
    kept
}

impl Json {
    /// What stands under `key`, where this is an object.
    pub fn get(&self, key: &str) -> (r: Option<&Json>)
        ensures
            match member(self@, key@) {
                Some(v) => r matches Some(j) && j@ == v,
                None => r is None,
            },
    {
        match self {
            Json::Object(entries) => {
                let mut i: usize = entries.len();
                assert(entries@.take(entries@.len() as int) =~= entries@);
                while i > 0
                    invariant
                        i <= entries.len(),
                        self@ == JsonView::Object(members(entries@)),
                        found(entries@.take(i as int), key@) == member(self@, key@),
                    decreases i,
                {
                    i = i - 1;
                    proof {
                        let t = entries@.take(i + 1);
                        assert(t.drop_last() =~= entries@.take(i as int));
                        assert(t.last() == entries@[i as int]);
                    }
                    if text::same(&entries[i].0, key) {
                        return Some(&entries[i].1);
                    }
                }
                assert(members(entries@.take(0)) =~= Map::empty());
                None
            },
            _ => None,
        }
    }

    /// The text that this is.
    pub fn as_str(&self) -> (r: Option<&str>)
        ensures
            match as_text(self@) {
                Some(s) => r matches Some(t) && t@ == s,
                None => r is None,
            },
    {
        match self {
            Json::Text(s) => Some(s.as_str()),
            _ => None,
        }
    }

    /// The machine word that this is.
    pub fn as_u64(&self) -> (r: Option<u64>)
        ensures
            r == as_word(self@),
    {
        match self {
            Json::Unsigned(n) => Some(*n),
            Json::Signed(n) => if *n >= 0 {
                Some(*n as u64)
            } else {
                None
            },
            Json::Float(n) => match n.as_u64() {
                Some(u) => Some(u),
                None => match n.as_i64() {
                    Some(i) => if i >= 0 {
                        Some(i as u64)
                    } else {
                        None
                    },
                    None => None,
                },
            },
            _ => None,
        }
    }

    /// The truth value that this is.
    pub fn as_bool(&self) -> (r: Option<bool>)
        ensures
            r == as_truth(self@),
    {
        match self {
            Json::Bool(b) => Some(*b),
            _ => None,
        }
    }

    /// The items of the list that this is.
    pub fn as_array(&self) -> (r: Option<&Vec<Json>>)
        ensures
            match as_items(self@) {
                Some(s) => r matches Some(v) && trees(v@) == s,
                None => r is None,
            },
    {
        match self {
            Json::Array(v) => Some(v),
            _ => None,
        }
    }

    /// Whether this is an object.
    pub fn is_object(&self) -> (r: bool)
        ensures
            r == (self@ is Object),
    {
        match self {
            Json::Object(_) => true,
            _ => false,
        }
    }

    /// Whether this is null.
    pub fn is_null(&self) -> (r: bool)
        ensures
            r == (self@ is Null),
    {
        match self {
            Json::Null => true,
            _ => false,
        }
    }

    /// The text under `key`.
    pub fn get_str(&self, key: &str) -> (r: Option<&str>)
        ensures
            match text_at(self@, key@) {
                Some(s) => r matches Some(t) && t@ == s,
                None => r is None,
            },
    {
        match self.get(key) {
            Some(v) => v.as_str(),
            None => None,
        }
    }

    /// The machine word under `key`.
    pub fn get_u64(&self, key: &str) -> (r: Option<u64>)
        ensures
            r == word_at(self@, key@),
    {
        match self.get(key) {
            Some(v) => v.as_u64(),
            None => None,
        }
    }

    /// The number below 256 under `key`.
    pub fn get_u8(&self, key: &str) -> (r: Option<u8>)
        ensures
            r == byte_at(self@, key@),
    {
        match self.get_u64(key) {
            Some(n) => if n <= 255 {
                Some(n as u8)
            } else {
                None
            },
            None => None,
        }
    }

    /// The truth value under `key`.
    pub fn get_bool(&self, key: &str) -> (r: Option<bool>)
        ensures
            r == truth_at(self@, key@),
    {
        match self.get(key) {
            Some(v) => v.as_bool(),
            None => None,
        }
    }

    /// The items of the list under `key`.
    pub fn get_array(&self, key: &str) -> (r: Option<&Vec<Json>>)
        ensures
            match items_at(self@, key@) {
                Some(s) => r matches Some(v) && trees(v@) == s,
                None => r is None,
            },
    {
        match self.get(key) {
            Some(v) => v.as_array(),
            None => None,
        }
    }

    /// The keys of this object.
    pub fn keys(&self) -> (r: Vec<String>)
        ensures
            forall|key: Seq<char>|
                member(self@, key) is Some <==> exists|i: int| 0 <= i < r.len() && r[i]@ == key,
    {
        let mut out: Vec<String> = Vec::new();
        match self {
            Json::Object(entries) => {
                let mut i: usize = 0;
                while i < entries.len()
                    invariant
                        i <= entries.len(),
                        out.len() == i,
                        forall|j: int| 0 <= j < i ==> (#[trigger] out[j])@ == entries[j].0@,
                    decreases entries.len() - i,
                {
                    out.push(entries[i].0.clone());
                    i = i + 1;
                }
                proof {
                    assert forall|key: Seq<char>| member(self@, key) is Some <==> exists|j: int|
                        0 <= j < out.len() && out[j]@ == key by {
                        lemma_has_key(entries@, key);
                        if member(self@, key) is Some {
                            let j = choose|j: int| 0 <= j < entries.len() && entries[j].0@ == key;
                            assert(out[j]@ == key);
                        }
                        if exists|j: int| 0 <= j < out.len() && out[j]@ == key {
                            let j = choose|j: int| 0 <= j < out.len() && out[j]@ == key;
                            assert(entries[j].0@ == key);
                        }
                    }
                }
            },
            _ => {},
        }
        out
    }

    /// Writes `value` under `key`; null becomes an object first.
    pub fn set(&mut self, key: &str, value: Json)
        requires
            writable(old(self)@),
        ensures
            final(self)@ == put(old(self)@, key@, value@),
    {
        let mut held = Json::Null;
        std::mem::swap(self, &mut held);
        let ghost before = held@;
        let mut entries = match held {
            Json::Object(entries) => drop_key(entries, key),
            _ => Vec::new(),
        };
        let ghost kept = entries@;
        let name = key.to_owned();
        entries.push((name, value));
        proof {
            lemma_members(kept, (name, value));
            assert(members(entries@) =~= put(before, key@, value@)->Object_0);
        }
        *self = Json::Object(entries);
    }

    /// Takes away what stands under `key`, where this is an object.
    pub fn remove(&mut self, key: &str)
        ensures
            final(self)@ == drop(old(self)@, key@),
    {
        let mut held = Json::Null;
        std::mem::swap(self, &mut held);
        *self = match held {
            Json::Object(entries) => Json::Object(drop_key(entries, key)),
            other => other,
        };
    }

    /// The JSON text `s`.
    pub fn text(s: &str) -> (r: Json)
        ensures
            r@ == JsonView::Text(s@),
    {
        Json::Text(s.to_owned())
    }

    /// An object with nothing in it.
    pub fn object() -> (r: Json)
        ensures
            r@ == JsonView::Object(Map::empty()),
    {
        Json::Object(Vec::new())
    }
}

impl Clone for Json {
    /// Another value that is the same.
    fn clone(&self) -> (r: Json)
        ensures
            r@ == self@,
        decreases self,
    {
        match self {
            Json::Null => Json::Null,
            Json::Bool(b) => Json::Bool(*b),
            Json::Unsigned(n) => Json::Unsigned(*n),
            Json::Signed(n) => Json::Signed(*n),
            Json::Float(n) => Json::Float(n.clone()),
            Json::Text(s) => Json::Text(s.clone()),
            Json::Array(list) => {
                let mut out: Vec<Json> = Vec::new();
                let mut i: usize = 0;
                while i < list.len()
                    invariant
                        i <= list.len(),
                        self matches Json::Array(l) && l == list,
                        trees(out@) == trees(list@.take(i as int)),
                    decreases list.len() - i,
                {
                    let item = list[i].clone();
                    assert(list@.take(i + 1) =~= list@.take(i as int).push(list@[i as int]));
                    assert(trees(out@.push(item)) =~= trees(out@).push(item@)) by {
                        lemma_trees(out@, item);
                    }
                    proof {
                        lemma_trees(list@.take(i as int), list@[i as int]);
                    }
                    out.push(item);
                    i = i + 1;
                }
                assert(list@.take(list@.len() as int) =~= list@);
                Json::Array(out)
            },
            Json::Object(entries) => {
                let mut out: Vec<(String, Json)> = Vec::new();
                let mut i: usize = 0;
                while i < entries.len()
                    invariant
                        i <= entries.len(),
                        self matches Json::Object(l) && l == entries,
                        members(out@) == members(entries@.take(i as int)),
                    decreases entries.len() - i,
                {
                    let item = entries[i].1.clone();
                    let name = entries[i].0.clone();
                    assert(entries@.take(i + 1).drop_last() =~= entries@.take(i as int));
                    assert(out@.push((name, item)).drop_last() =~= out@);
                    out.push((name, item));
                    i = i + 1;
                }
                assert(entries@.take(entries@.len() as int) =~= entries@);
                Json::Object(out)
            },
        }
    }
}

/// What one more value adds to a list.
pub proof fn lemma_trees(list: Seq<Json>, item: Json)
    ensures
        trees(list.push(item)) == trees(list).push(item@),
{
    assert(trees(list.push(item)) =~= trees(list).push(item@));
}

/// A key is in an object where one of its entries has it.
proof fn lemma_has_key(entries: Seq<(String, Json)>, key: Seq<char>)
    ensures
        members(entries).contains_key(key) <==> exists|i: int|
            0 <= i < entries.len() && entries[i].0@ == key,
    decreases entries.len(),
{
    if entries.len() > 0 {
        let rest = entries.drop_last();
        lemma_has_key(rest, key);
        if members(rest).contains_key(key) {
            let i = choose|i: int| 0 <= i < rest.len() && rest[i].0@ == key;
            assert(entries[i].0@ == key);
        }
        if exists|i: int| 0 <= i < entries.len() && entries[i].0@ == key {
            let i = choose|i: int| 0 <= i < entries.len() && entries[i].0@ == key;
            if i < rest.len() {
                assert(rest[i].0@ == key);
            }
        }
        assert(entries.last() == entries[entries.len() - 1]);
    }
}

/// What one more entry adds to an object.
pub proof fn lemma_members(entries: Seq<(String, Json)>, entry: (String, Json))
    ensures
        members(entries.push(entry)) == members(entries).insert(entry.0@, entry.1@),
{
    assert(entries.push(entry).drop_last() =~= entries);
}

/// An object with nothing in it is plain.
pub proof fn lemma_plain_empty(n: nat)
    requires
        n > 0,
    ensures
        plain(JsonView::Object(Map::empty()), n),
{
}

/// An object stays plain where a plain value is written into it.
pub proof fn lemma_plain_put(v: JsonView, key: Seq<char>, w: JsonView, n: nat)
    requires
        v is Object,
        n > 0,
        plain(v, n),
        plain(w, (n - 1) as nat),
    ensures
        put(v, key, w) is Object,
        plain(put(v, key, w), n),
{
    let m = v->Object_0;
    let p = put(v, key, w);
    let q = p->Object_0;
    assert forall|k: Seq<char>| q.contains_key(k) implies plain(#[trigger] q[k], (n - 1) as nat) by {
        if k != key {
            assert(q[k] == m[k]);
            assert(v->Object_0.contains_key(k));
        }
    }
}

/// Plain values stand within their depth.
pub proof fn lemma_plain_within(v: JsonView, n: nat)
    requires
        plain(v, n),
    ensures
        within(v, n),
    decreases n,
{
    match v {
        JsonView::Array(s) => {
            assert forall|i: int| 0 <= i < s.len() implies within(
                #[trigger] s[i],
                (n - 1) as nat,
            ) by {
                assert(plain(v->Array_0[i], (n - 1) as nat));
                lemma_plain_within(s[i], (n - 1) as nat);
            }
        },
        JsonView::Object(m) => {
            assert forall|k: Seq<char>| m.contains_key(k) implies within(
                #[trigger] m[k],
                (n - 1) as nat,
            ) by {
                assert(plain(v->Object_0[k], (n - 1) as nat));
                lemma_plain_within(m[k], (n - 1) as nat);
            }
        },
        _ => {},
    }
}

/// A value whose numbers are all whole is the same as another only where it is that value.
pub proof fn lemma_plain_same(a: JsonView, b: JsonView, n: nat)
    requires
        plain(a, n),
        same_but_floats(a, b, n),
    ensures
        a == b,
    decreases n,
{
    match (a, b) {
        (JsonView::Array(s), JsonView::Array(t)) => {
            assert forall|i: int| 0 <= i < s.len() implies #[trigger] s[i] == t[i] by {
                assert(plain(a->Array_0[i], (n - 1) as nat));
                assert(same_but_floats(a->Array_0[i], b->Array_0[i], (n - 1) as nat));
                lemma_plain_same(s[i], t[i], (n - 1) as nat);
            }
            assert(s =~= t);
        },
        (JsonView::Object(l), JsonView::Object(m)) => {
            assert forall|k: Seq<char>| l.contains_key(k) implies #[trigger] l[k] == m[k] by {
                assert(plain(a->Object_0[k], (n - 1) as nat));
                assert(same_but_floats(a->Object_0[k], b->Object_0[k], (n - 1) as nat));
                lemma_plain_same(l[k], m[k], (n - 1) as nat);
            }
            assert(l =~= m);
        },
        _ => {},
    }
}

/// What is the same as a second value that is the same as a third is the same as the third.
pub proof fn lemma_same_chain(a: JsonView, b: JsonView, c: JsonView, n: nat)
    requires
        same_but_floats(a, b, n),
        same_but_floats(b, c, n),
    ensures
        same_but_floats(a, c, n),
    decreases n,
{
    match (a, b, c) {
        (JsonView::Array(s), JsonView::Array(t), JsonView::Array(u)) => {
            assert forall|i: int| 0 <= i < s.len() implies same_but_floats(
                #[trigger] s[i],
                u[i],
                (n - 1) as nat,
            ) by {
                assert(same_but_floats(a->Array_0[i], b->Array_0[i], (n - 1) as nat));
                assert(same_but_floats(b->Array_0[i], c->Array_0[i], (n - 1) as nat));
                lemma_same_chain(s[i], t[i], u[i], (n - 1) as nat);
            }
        },
        (JsonView::Object(l), JsonView::Object(m), JsonView::Object(o)) => {
            assert forall|k: Seq<char>| l.contains_key(k) implies same_but_floats(
                #[trigger] l[k],
                o[k],
                (n - 1) as nat,
            ) by {
                assert(same_but_floats(a->Object_0[k], b->Object_0[k], (n - 1) as nat));
                assert(m.contains_key(k));
                assert(same_but_floats(b->Object_0[k], c->Object_0[k], (n - 1) as nat));
                lemma_same_chain(l[k], m[k], o[k], (n - 1) as nat);
            }
        },
        _ => {},
    }
}

/// Values that are the same but for numbers that are not whole have the same members, and the same
/// texts, truth values and machine words in them.
pub proof fn lemma_same_members(a: JsonView, b: JsonView, n: nat, key: Seq<char>)
    requires
        same_but_floats(a, b, n),
    ensures
        member(a, key) is Some <==> member(b, key) is Some,
        member(a, key) is Some ==> same_but_floats(
            member(a, key)->0,
            member(b, key)->0,
            (n - 1) as nat,
        ),
        text_at(a, key) == text_at(b, key),
        truth_at(a, key) == truth_at(b, key),
        word_at(a, key) == word_at(b, key),
{
    match (a, b) {
        (JsonView::Object(l), JsonView::Object(m)) => {
            assert(l.dom().contains(key) == m.dom().contains(key));
            if l.contains_key(key) {
                assert(same_but_floats(a->Object_0[key], b->Object_0[key], (n - 1) as nat));
            }
        },
        _ => {},
    }
}

/// What is looked up in an object is what stands there: a lookup of some kind of value gives a
/// value exactly where the object holds one of that kind under the key, and gives that one.
pub proof fn law_lookups_give_what_stands_there(m: Map<Seq<char>, JsonView>, key: Seq<char>)
    ensures
        ({
            let v = JsonView::Object(m);
            let there = m.contains_key(key);
            &&& member(v, key) is Some <==> there
            &&& there ==> member(v, key)->0 == m[key]
            &&& text_at(v, key) is Some <==> there && m[key] is Text
            &&& text_at(v, key) matches Some(s) ==> m[key] == JsonView::Text(s)
            &&& word_at(v, key) is Some <==> there && m[key] is Int && 0 <= m[key]->Int_0
                <= u64::MAX
            &&& word_at(v, key) matches Some(n) ==> m[key] == JsonView::Int(n as int)
            &&& byte_at(v, key) is Some <==> there && m[key] is Int && 0 <= m[key]->Int_0
                <= u8::MAX
            &&& byte_at(v, key) matches Some(n) ==> m[key] == JsonView::Int(n as int)
            &&& truth_at(v, key) is Some <==> there && m[key] is Bool
            &&& truth_at(v, key) matches Some(b) ==> m[key] == JsonView::Bool(b)
            &&& items_at(v, key) is Some <==> there && m[key] is Array
            &&& items_at(v, key) matches Some(l) ==> m[key] == JsonView::Array(l)
        }),
{
}

/// Nothing is looked up in what is no object.
pub proof fn law_only_objects_have_members(v: JsonView, key: Seq<char>)
    requires
        !(v is Object),
    ensures
        member(v, key) is None,
        text_at(v, key) is None,
        word_at(v, key) is None,
        byte_at(v, key) is None,
        truth_at(v, key) is None,
        items_at(v, key) is None,
{
}

/// Writing under a key changes what stands there and nothing else, and taking a key away takes
/// away what stood there and nothing else.
pub proof fn law_writing_touches_one_key(v: JsonView, key: Seq<char>, w: JsonView, other: Seq<char>)
    requires
        writable(v),
    ensures
        member(put(v, key, w), key) == Some(w),
        member(drop(v, key), key) is None,
        other != key ==> member(put(v, key, w), other) == member(v, other),
        other != key ==> member(drop(v, key), other) == member(v, other),
        put(v, key, w) is Object,
        v is Object ==> drop(v, key) is Object,
{
}

} // verus!
