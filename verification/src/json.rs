//! JSON documents: reading them into plain values, changing fields, writing them.

use crate::text::{has_sub, is_digit, same};
use serde_json::Value;
use vstd::prelude::*;

verus! {

/// The values of the `serde_json` crate.
#[verifier::external_type_specification]
#[verifier::external_body]
pub struct ExValue(serde_json::Value);

/// What a JSON value holds. A number is held as the text that writes it.
pub enum JsonTree {
    /// `null`.
    Null,
    /// `true` or `false`.
    Bool(bool),
    /// A number.
    Number(Seq<char>),
    /// A string.
    Text(Seq<char>),
    /// An array.
    List(Seq<JsonTree>),
    /// An object, its fields in order.
    Object(Seq<(Seq<char>, JsonTree)>),
}

/// What a value of `serde_json` holds.
pub uninterp spec fn json_tree(v: Value) -> JsonTree;

/// What the JSON text `s` says, or what is said against a text that is none.
pub uninterp spec fn json_read(s: Seq<char>) -> Result<JsonTree, Seq<char>>;

/// What the JSON text `s` says, where it is one.
pub open spec fn json_text(s: Seq<char>) -> Option<JsonTree> {
    match json_read(s) {
        Ok(t) => Some(t),
        Err(_) => None,
    }
}

/// What the JSON text in the bytes `b` says, where they are one.
pub uninterp spec fn json_bytes(b: Seq<u8>) -> Option<JsonTree>;

/// A tree as indented JSON.
pub uninterp spec fn json_pretty(t: JsonTree) -> Seq<char>;

/// A tree as JSON in one line.
pub uninterp spec fn json_compact(t: JsonTree) -> Seq<char>;

/// How deep arrays and objects are nested.
pub open spec fn depth(t: JsonTree) -> nat
    decreases t,
{
    match t {
        JsonTree::List(s) => 1 + list_depth(s),
        JsonTree::Object(s) => 1 + fields_depth(s),
        _ => 0,
    }
}

/// The depth of the deepest of the trees.
pub open spec fn list_depth(s: Seq<JsonTree>) -> nat
    decreases s,
{
    if s.len() == 0 {
        0
    } else {
        let a = list_depth(s.drop_last());
        let b = depth(s.last());
        if a > b {
            a
        } else {
            b
        }
    }
}

/// The depth of the deepest of the fields.
pub open spec fn fields_depth(s: Seq<(Seq<char>, JsonTree)>) -> nat
    decreases s,
{
    if s.len() == 0 {
        0
    } else {
        let a = fields_depth(s.drop_last());
        let b = depth(s.last().1);
        if a > b {
            a
        } else {
            b
        }
    }
}

/// Whether a number is written as an integer: digits, behind a `-` or not.
pub open spec fn integer_text(s: Seq<char>) -> bool {
    &&& s.len() > 0
    &&& s[0] == '-' || is_digit(s[0])
    &&& forall|i: int| 1 <= i < s.len() ==> is_digit(#[trigger] s[i])
}

/// Whether all numbers in a tree are integers.
pub open spec fn whole(t: JsonTree) -> bool
    decreases t,
{
    match t {
        JsonTree::Number(n) => integer_text(n),
        JsonTree::List(s) => list_whole(s),
        JsonTree::Object(s) => fields_whole(s),
        _ => true,
    }
}

/// Whether all numbers in the trees are integers.
pub open spec fn list_whole(s: Seq<JsonTree>) -> bool
    decreases s,
{
    s.len() == 0 || list_whole(s.drop_last()) && whole(s.last())
}

/// Whether all numbers in the fields are integers.
pub open spec fn fields_whole(s: Seq<(Seq<char>, JsonTree)>) -> bool
    decreases s,
{
    s.len() == 0 || fields_whole(s.drop_last()) && whole(s.last().1)
}

/// Whether JSON writes a string as it stands: printable ASCII without `"` and `\`.
pub open spec fn unescaped(s: Seq<char>) -> bool {
    forall|i: int| 0 <= i < s.len() ==> ' ' <= (#[trigger] s[i]) <= '~' && s[i] != '"' && s[i] != '\\'
}

/// The position of the field `key`, or the number of fields where there is none.
pub open spec fn field_at(fields: Seq<(Seq<char>, JsonTree)>, key: Seq<char>) -> int
    decreases fields.len(),
{
    if fields.len() == 0 || fields[0].0 == key {
        0
    } else {
        1 + field_at(fields.skip(1), key)
    }
}

/// The field `key` of a tree.
pub open spec fn field(t: JsonTree, key: Seq<char>) -> Option<JsonTree> {
    match t {
        JsonTree::Object(fields) => {
            let i = field_at(fields, key);
            if i < fields.len() {
                Some(fields[i].1)
            } else {
                None
            }
        },
        _ => None,
    }
}

/// The fields with `key` set to `x`: a field that is there keeps its place.
pub open spec fn with_field(
    fields: Seq<(Seq<char>, JsonTree)>,
    key: Seq<char>,
    x: JsonTree,
) -> Seq<(Seq<char>, JsonTree)> {
    let i = field_at(fields, key);
    if i < fields.len() {
        fields.update(i, (key, x))
    } else {
        fields.push((key, x))
    }
}

/// `serde_json::from_str::<Value>` reads a JSON text. It takes nothing that is nested deeper than
/// 127 arrays and objects.
#[verifier::external_body]
pub(crate) fn read_text(s: &str) -> (r: Result<Value, String>)
    ensures
        match r {
            Ok(v) => json_read(s@) == Ok::<JsonTree, Seq<char>>(json_tree(v)) && depth(
                json_tree(v),
            ) <= 127,
            Err(m) => json_read(s@) == Err::<JsonTree, Seq<char>>(m@),
        },
{
    serde_json::from_str::<Value>(s).map_err(|e| e.to_string())
}

/// `serde_json::from_slice::<Value>` reads a JSON text in UTF-8.
#[verifier::external_body]
pub(crate) fn read_bytes(b: &[u8]) -> (r: Option<Value>)
    ensures
        match r {
            Some(v) => json_bytes(b@) == Some(json_tree(v)) && depth(json_tree(v)) <= 127,
            None => json_bytes(b@) is None,
        },
{
    serde_json::from_slice::<Value>(b).ok()
}

/// A value of `serde_json`, opened one level deep.
pub enum Node {
    /// `null`.
    Null,
    /// `true` or `false`.
    Bool(bool),
    /// A number, as the text that writes it.
    Number(String),
    /// A string.
    Text(String),
    /// An array.
    List(Vec<Value>),
    /// An object, its fields in order.
    Object(Vec<(String, Value)>),
}

/// The trees of a list of values.
pub open spec fn value_trees(v: Seq<Value>) -> Seq<JsonTree> {
    Seq::new(v.len(), |i: int| json_tree(v[i]))
}

/// The trees of a list of fields.
pub open spec fn value_fields(v: Seq<(String, Value)>) -> Seq<(Seq<char>, JsonTree)> {
    Seq::new(v.len(), |i: int| (v[i].0@, json_tree(v[i].1)))
}

/// What an opened value holds.
pub open spec fn node_tree(n: Node) -> JsonTree {
    match n {
        Node::Null => JsonTree::Null,
        Node::Bool(b) => JsonTree::Bool(b),
        Node::Number(s) => JsonTree::Number(s@),
        Node::Text(s) => JsonTree::Text(s@),
        Node::List(v) => JsonTree::List(value_trees(v@)),
        Node::Object(v) => JsonTree::Object(value_fields(v@)),
    }
}

/// The variants of `serde_json::Value`, each with what it holds: a number by its `Display` text,
/// the fields of a map in the order in which its iterator gives them.
#[verifier::external_body]
fn node_of(v: Value) -> (r: Node)
    ensures
        node_tree(r) == json_tree(v),
{
    match v {
        Value::Null => Node::Null,
        Value::Bool(b) => Node::Bool(b),
        Value::Number(n) => Node::Number(n.to_string()),
        Value::String(s) => Node::Text(s),
        Value::Array(a) => Node::List(a),
        Value::Object(m) => Node::Object(m.into_iter().collect()),
    }
}

/// `Value::String` holds the string.
#[verifier::external_body]
pub(crate) fn text_value(s: &str) -> (r: Value)
    ensures
        json_tree(r) == JsonTree::Text(s@),
{
    Value::String(s.to_string())
}

/// `Value::from` of a `u16` is the number with that decimal text.
#[verifier::external_body]
pub(crate) fn number_value(n: u16) -> (r: Value)
    ensures
        json_tree(r) == JsonTree::Number(crate::numbers::digits_of(n as nat)),
{
    Value::from(n)
}

/// `Value::Array` holds the values in their order.
#[verifier::external_body]
pub(crate) fn list_value(v: Vec<Value>) -> (r: Value)
    ensures
        json_tree(r) == JsonTree::List(value_trees(v@)),
{
    Value::Array(v)
}

/// `serde_json::Map::new` is an object without fields.
#[verifier::external_body]
pub(crate) fn empty_object() -> (r: Value)
    ensures
        json_tree(r) == JsonTree::Object(Seq::empty()),
{
    Value::Object(serde_json::Map::new())
}

/// `serde_json::Map::insert`, which keeps the order of the fields: a field that is there gets the
/// new value in its place, another one comes last.
#[verifier::external_body]
pub(crate) fn set_field(v: &mut Value, key: &str, x: Value)
    requires
        json_tree(*old(v)) is Object,
    ensures
        json_tree(*final(v)) == JsonTree::Object(
            with_field(json_tree(*old(v))->Object_0, key@, json_tree(x)),
        ),
{
    if let Some(m) = v.as_object_mut() {
        m.insert(key.to_string(), x);
    }
}

/// `Value::is_object`.
#[verifier::external_body]
pub(crate) fn is_object(v: &Value) -> (r: bool)
    ensures
        r == (json_tree(*v) is Object),
{
    v.is_object()
}

/// `serde_json::to_string_pretty` writes indented JSON; it fails only for maps with keys that are
/// no strings, which a `Value` has not. What it wrote reads back as the same tree where all
/// numbers are integers and the nesting is not too deep for the reader. Of other numbers nothing
/// is said: the reader may miss their last bit.
#[verifier::external_body]
pub(crate) fn write_pretty(v: &Value) -> (r: Result<String, String>)
    requires
        depth(json_tree(*v)) <= 127,
    ensures
        r is Ok,
        r->Ok_0@ == json_pretty(json_tree(*v)),
        whole(json_tree(*v)) ==> json_text(r->Ok_0@) == Some(json_tree(*v)),
{
    serde_json::to_string_pretty(v).map_err(|e| e.to_string())
}

/// `serde_json::to_string` writes JSON in one line, as `to_string_pretty` does otherwise. A field
/// that is a string of printable ASCII without `"` and `\` stands in it as it is.
#[verifier::external_body]
pub(crate) fn write_compact(v: &Value) -> (r: Result<String, String>)
    requires
        depth(json_tree(*v)) <= 127,
    ensures
        r is Ok,
        r->Ok_0@ == json_compact(json_tree(*v)),
        whole(json_tree(*v)) ==> json_text(r->Ok_0@) == Some(json_tree(*v)),
        forall|key: Seq<char>|
            #![trigger field(json_tree(*v), key)]
            as_text(field(json_tree(*v), key)) is Some && unescaped(
                as_text(field(json_tree(*v), key))->0,
            ) ==> has_sub(r->Ok_0@, as_text(field(json_tree(*v), key))->0),
{
    serde_json::to_string(v).map_err(|e| e.to_string())
}

/// A JSON document as plain values.
pub enum Json {
    /// `null`.
    Null,
    /// `true` or `false`.
    Bool(bool),
    /// A number, as the text that writes it.
    Number(String),
    /// A string.
    Text(String),
    /// An array.
    List(Vec<Json>),
    /// An object, its fields in order.
    Object(Vec<(String, Json)>),
}

/// The trees of a list of documents.
pub open spec fn trees(v: Seq<Json>) -> Seq<JsonTree>
    decreases v,
{
    if v.len() == 0 {
        Seq::empty()
    } else {
        trees(v.drop_last()).push(tree(v.last()))
    }
}

/// The trees of a list of fields.
pub open spec fn field_trees(v: Seq<(String, Json)>) -> Seq<(Seq<char>, JsonTree)>
    decreases v,
{
    if v.len() == 0 {
        Seq::empty()
    } else {
        field_trees(v.drop_last()).push((v.last().0@, tree(v.last().1)))
    }
}

/// What a document holds.
pub open spec fn tree(j: Json) -> JsonTree
    decreases j,
{
    match j {
        Json::Null => JsonTree::Null,
        Json::Bool(b) => JsonTree::Bool(b),
        Json::Number(s) => JsonTree::Number(s@),
        Json::Text(s) => JsonTree::Text(s@),
        Json::List(v) => JsonTree::List(trees(v@)),
        Json::Object(v) => JsonTree::Object(field_trees(v@)),
    }
}

impl View for Json {
    type V = JsonTree;

    open spec fn view(&self) -> JsonTree {
        tree(*self)
    }
}

pub proof fn lemma_trees(v: Seq<Json>)
    ensures
        trees(v).len() == v.len(),
        forall|i: int| 0 <= i < v.len() ==> #[trigger] trees(v)[i] == tree(v[i]),
    decreases v.len(),
{
    if v.len() > 0 {
        lemma_trees(v.drop_last());
    }
}

pub proof fn lemma_field_trees(v: Seq<(String, Json)>)
    ensures
        field_trees(v).len() == v.len(),
        forall|i: int|
            0 <= i < v.len() ==> #[trigger] field_trees(v)[i] == (v[i].0@, tree(v[i].1)),
    decreases v.len(),
{
    if v.len() > 0 {
        lemma_field_trees(v.drop_last());
    }
}

/// A value of `serde_json` as plain values.
fn plain(v: Value) -> (r: Json)
    ensures
        r@ == json_tree(v),
    decreases json_tree(v),
{
    let ghost t = json_tree(v);
    match node_of(v) {
        Node::Null => Json::Null,
        Node::Bool(b) => Json::Bool(b),
        Node::Number(s) => Json::Number(s),
        Node::Text(s) => Json::Text(s),
        Node::List(items) => {
            let ghost all = items@;
            let mut rest = items;
            let mut out: Vec<Json> = Vec::new();
            while rest.len() > 0
                invariant
                    t == json_tree(v),
                    t == JsonTree::List(value_trees(all)),
                    rest@.len() + out@.len() == all.len(),
                    rest@ == all.skip(out@.len() as int),
                    trees(out@) == value_trees(all).take(out@.len() as int),
                decreases rest@.len(),
            {
                let ghost n = out@.len() as int;
                let x = rest.remove(0);
                proof {
                    assert(all[n] == x);
                    assert(value_trees(all)[n] == json_tree(x));
                    assert(decreases_to!(t => t->List_0));
                    assert(decreases_to!(t->List_0 => t->List_0[n]));
                }
                let ghost before = out@;
                out.push(plain(x));
                proof {
                    assert(out@.drop_last() =~= before);
                    assert(value_trees(all).take(n + 1) =~= value_trees(all).take(n).push(
                        json_tree(x),
                    ));
                    assert(rest@ =~= all.skip(n + 1));
                }
            }
            proof {
                assert(value_trees(all).take(all.len() as int) =~= value_trees(all));
            }
            Json::List(out)
        },
        Node::Object(items) => {
            let ghost all = items@;
            let mut rest = items;
            let mut out: Vec<(String, Json)> = Vec::new();
            while rest.len() > 0
                invariant
                    t == json_tree(v),
                    t == JsonTree::Object(value_fields(all)),
                    rest@.len() + out@.len() == all.len(),
                    rest@ == all.skip(out@.len() as int),
                    field_trees(out@) == value_fields(all).take(out@.len() as int),
                decreases rest@.len(),
            {
                let ghost n = out@.len() as int;
                let (key, x) = rest.remove(0);
                proof {
                    assert(all[n] == (key, x));
                    assert(value_fields(all)[n] == (key@, json_tree(x)));
                    assert(decreases_to!(t => t->Object_0));
                    assert(decreases_to!(t->Object_0 => t->Object_0[n]));
                    assert(decreases_to!(t->Object_0[n] => t->Object_0[n].1));
                }
                let ghost before = out@;
                out.push((key, plain(x)));
                proof {
                    assert(out@.drop_last() =~= before);
                    assert(value_fields(all).take(n + 1) =~= value_fields(all).take(n).push(
                        (key@, json_tree(x)),
                    ));
                    assert(rest@ =~= all.skip(n + 1));
                }
            }
            proof {
                assert(value_fields(all).take(all.len() as int) =~= value_fields(all));
            }
            Json::Object(out)
        },
    }
}

/// Reads a JSON text.
pub fn parse(s: &str) -> (r: Option<Json>)
    ensures
        match r {
            Some(j) => json_text(s@) == Some(j@),
            None => json_text(s@) is None,
        },
{
    match read_text(s) {
        Ok(v) => Some(plain(v)),
        Err(_) => None,
    }
}

/// Reads a JSON text in UTF-8.
pub fn parse_bytes(b: &[u8]) -> (r: Option<Json>)
    ensures
        match r {
            Some(j) => json_bytes(b@) == Some(j@),
            None => json_bytes(b@) is None,
        },
{
    match read_bytes(b) {
        Some(v) => Some(plain(v)),
        None => None,
    }
}

proof fn lemma_field_at(fields: Seq<(Seq<char>, JsonTree)>, key: Seq<char>, n: int)
    requires
        0 <= n <= fields.len(),
        forall|j: int| 0 <= j < n ==> (#[trigger] fields[j]).0 != key,
        n < fields.len() ==> fields[n].0 == key,
    ensures
        field_at(fields, key) == n,
    decreases fields.len(),
{
    if n > 0 {
        assert(fields[0].0 != key);
        let rest = fields.skip(1);
        assert forall|j: int| 0 <= j < n - 1 implies (#[trigger] rest[j]).0 != key by {
            assert(rest[j] == fields[j + 1]);
        }
        lemma_field_at(rest, key, n - 1);
    }
}

/// The field `key` of a document.
pub fn get<'a>(j: &'a Json, key: &str) -> (r: Option<&'a Json>)
    ensures
        match r {
            Some(x) => field(j@, key@) == Some(x@),
            None => field(j@, key@) is None,
        },
{
    match j {
        Json::Object(v) => {
            proof {
                lemma_field_trees(v@);
            }
            let ghost fields = field_trees(v@);
            let mut i: usize = 0;
            while i < v.len()
                invariant
                    i <= v@.len(),
                    fields == field_trees(v@),
                    fields.len() == v@.len(),
                    j@ == JsonTree::Object(fields),
                    forall|k: int|
                        0 <= k < v@.len() ==> #[trigger] fields[k] == (v@[k].0@, tree(v@[k].1)),
                    forall|k: int| 0 <= k < i ==> (#[trigger] fields[k]).0 != key@,
                decreases v@.len() - i,
            {
                if same(v[i].0.as_str(), key) {
                    proof {
                        assert(fields[i as int].0 == key@);
                        lemma_field_at(fields, key@, i as int);
                    }
                    return Some(&v[i].1);
                }
                proof {
                    assert(fields[i as int].0 != key@);
                }
                i += 1;
            }
            proof {
                lemma_field_at(fields, key@, fields.len() as int);
            }
            None
        },
        _ => None,
    }
}

/// The string that a tree is.
pub open spec fn as_text(t: Option<JsonTree>) -> Option<Seq<char>> {
    match t {
        Some(JsonTree::Text(s)) => Some(s),
        _ => None,
    }
}

/// A string field of a tree, empty where there is none.
pub open spec fn text_field(t: JsonTree, key: Seq<char>) -> Seq<char> {
    match as_text(field(t, key)) {
        Some(s) => s,
        None => Seq::empty(),
    }
}

/// The string that a document is.
pub fn text<'a>(j: Option<&'a Json>) -> (r: Option<&'a str>)
    ensures
        match j {
            Some(x) => match r {
                Some(s) => as_text(Some(x@)) == Some(s@),
                None => as_text(Some(x@)) is None,
            },
            None => r is None,
        },
{
    match j {
        Some(x) => match x {
            Json::Text(s) => Some(s.as_str()),
            _ => None,
        },
        None => None,
    }
}

/// A string field of a document, empty where there is none.
pub fn text_of_field(j: &Json, key: &str) -> (r: String)
    ensures
        r@ == text_field(j@, key@),
{
    match text(get(j, key)) {
        Some(s) => s.to_owned(),
        None => String::new(),
    }
}

/// A field of a document is the first with its key; a document without such a field, or one that is
/// no object, has none.
pub proof fn law_field_is_the_one_with_its_key(
    a: Seq<(Seq<char>, JsonTree)>,
    key: Seq<char>,
    x: JsonTree,
    b: Seq<(Seq<char>, JsonTree)>,
    t: JsonTree,
)
    requires
        forall|j: int| 0 <= j < a.len() ==> (#[trigger] a[j]).0 != key,
    ensures
        field(JsonTree::Object(a + seq![(key, x)] + b), key) == Some(x),
        field(JsonTree::Object(a), key) is None,
        !(t is Object) ==> field(t, key) is None,
        x is Text ==> text_field(JsonTree::Object(a + seq![(key, x)] + b), key) == x->Text_0,
        !(x is Text) ==> text_field(JsonTree::Object(a + seq![(key, x)] + b), key).len() == 0,
        text_field(JsonTree::Object(a), key).len() == 0,
{
    let all = a + seq![(key, x)] + b;
    assert forall|j: int| 0 <= j < a.len() implies (#[trigger] all[j]).0 != key by {
        assert(all[j] == a[j]);
    }
    assert(all[a.len() as int] == (key, x));
    lemma_field_at(all, key, a.len() as int);
    lemma_field_at(a, key, a.len() as int);
}

} // verus!
