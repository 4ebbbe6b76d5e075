//! JSON values, and the calls into `serde_json` that read and write them.

use crate::text::same_text;
use vstd::prelude::*;

verus! {

/// A number of a JSON document, carried through unchanged.
#[verifier::external_type_specification]
#[verifier::external_body]
pub struct ExNumber(serde_json::Number);

/// A JSON document as `serde_json` holds it.
#[verifier::external_type_specification]
#[verifier::external_body]
pub struct ExValue(serde_json::Value);

/// A JSON value. The entries of an object stand in the order of their keys.
#[derive(Debug, PartialEq)]
pub enum Json {
    Null,
    Bool(bool),
    Number(serde_json::Number),
    Text(String),
    Array(Vec<Json>),
    Object(Vec<(String, Json)>),
}

/// What a JSON value holds.
#[verifier::ext_equal]
pub enum JsonTree {
    Null,
    Bool(bool),
    Number(serde_json::Number),
    Text(Seq<char>),
    Array(Seq<JsonTree>),
    Object(Seq<(Seq<char>, JsonTree)>),
}

/// One level of a document that `serde_json` holds.
enum Level {
    Null,
    Bool(bool),
    Number(serde_json::Number),
    Text(String),
    Array(Vec<serde_json::Value>),
    Object(Vec<(String, serde_json::Value)>),
}

impl View for Json {
    type V = JsonTree;

    open spec fn view(&self) -> JsonTree
        decreases self,
    {
        match self {
            Json::Null => JsonTree::Null,
            Json::Bool(value) => JsonTree::Bool(*value),
            Json::Number(value) => JsonTree::Number(*value),
            Json::Text(value) => JsonTree::Text(value@),
            Json::Array(items) => JsonTree::Array(item_trees(items@)),
            Json::Object(entries) => JsonTree::Object(entry_trees(entries@)),
        }
    }
}

/// What the items of an array hold.
pub open spec fn item_trees(items: Seq<Json>) -> Seq<JsonTree>
    decreases items,
{
    Seq::new(
        items.len(),
        |i: int|
            if 0 <= i < items.len() {
                items[i].view()
            } else {
                arbitrary()
            },
    )
}

/// What the entries of an object hold.
pub open spec fn entry_trees(entries: Seq<(String, Json)>) -> Seq<(Seq<char>, JsonTree)>
    decreases entries,
{
    Seq::new(
        entries.len(),
        |i: int|
            if 0 <= i < entries.len() {
                (entries[i].0@, entries[i].1.view())
            } else {
                arbitrary()
            },
    )
}

/// What an array holds, item by item.
pub proof fn lemma_array_view(items: Vec<Json>)
    ensures
        Json::Array(items)@ == JsonTree::Array(item_trees(items@)),
        item_trees(items@).len() == items@.len(),
        forall|i: int| 0 <= i < items@.len() ==> item_trees(items@)[i] == (#[trigger] items@[i])@,
{
    let trees = item_trees(items@);
    assert(Json::Array(items)@ == JsonTree::Array(trees));
    assert(trees.len() == items@.len());
}

/// What an object holds, entry by entry.
pub proof fn lemma_object_view(entries: Vec<(String, Json)>)
    ensures
        Json::Object(entries)@ == JsonTree::Object(entry_trees(entries@)),
        entry_trees(entries@).len() == entries@.len(),
        forall|i: int|
            0 <= i < entries@.len() ==> entry_trees(entries@)[i] == (
                (#[trigger] entries@[i]).0@,
                entries@[i].1@,
            ),
{
    let trees = entry_trees(entries@);
    assert(Json::Object(entries)@ == JsonTree::Object(trees));
    assert(trees.len() == entries@.len());
}

/// Whether `a` stands before `b` in the order of strings: the order of the first characters in
/// which they differ, and a text before every longer text that begins with it.
pub open spec fn text_before(a: Seq<char>, b: Seq<char>) -> bool
    decreases a.len(),
{
    if b.len() == 0 {
        false
    } else if a.len() == 0 {
        true
    } else if a[0] != b[0] {
        a[0] < b[0]
    } else {
        text_before(a.drop_first(), b.drop_first())
    }
}

/// Whether the keys of the entries ascend, so that none occurs twice.
pub open spec fn keys_ascend(entries: Seq<(Seq<char>, JsonTree)>) -> bool {
    forall|i: int, j: int|
        0 <= i < j < entries.len() ==> text_before(
            (#[trigger] entries[i]).0,
            (#[trigger] entries[j]).0,
        )
}

impl JsonTree {
    /// Whether the keys of every object in the value ascend.
    pub open spec fn ordered(self) -> bool
        decreases self,
    {
        match self {
            JsonTree::Array(items) => forall|i: int|
                0 <= i < items.len() ==> (#[trigger] items[i]).ordered(),
            JsonTree::Object(entries) => keys_ascend(entries) && forall|i: int|
                0 <= i < entries.len() ==> (#[trigger] entries[i]).1.ordered(),
            _ => true,
        }
    }

    /// Whether arrays and objects nest at most `levels` deep in the value.
    pub open spec fn nests_within(self, levels: nat) -> bool
        decreases self,
    {
        match self {
            JsonTree::Array(items) => levels > 0 && forall|i: int|
                0 <= i < items.len() ==> (#[trigger] items[i]).nests_within((levels - 1) as nat),
            JsonTree::Object(entries) => levels > 0 && forall|i: int|
                0 <= i < entries.len() ==> (#[trigger] entries[i]).1.nests_within(
                    (levels - 1) as nat,
                ),
            _ => true,
        }
    }

    /// Whether the value can be written and read back: its keys ascend, and it does not nest
    /// deeper than a reader follows.
    pub open spec fn readable(self) -> bool {
        self.ordered() && self.nests_within(127)
    }

    /// Whether two values differ in nothing but the numbers that are not integers.
    pub open spec fn same_but_fractions(self, other: JsonTree) -> bool
        decreases self,
    {
        match (self, other) {
            (JsonTree::Number(left), JsonTree::Number(right)) => if is_fractional(left) {
                is_fractional(right)
            } else {
                left == right
            },
            (JsonTree::Array(left), JsonTree::Array(right)) => left.len() == right.len()
                && forall|i: int|
                0 <= i < left.len() ==> (#[trigger] left[i]).same_but_fractions(right[i]),
            (JsonTree::Object(left), JsonTree::Object(right)) => left.len() == right.len()
                && forall|i: int|
                0 <= i < left.len() ==> (#[trigger] left[i]).0 == right[i].0
                    && left[i].1.same_but_fractions(right[i].1),
            _ => self == other,
        }
    }

    /// Whether every number in the value is an integer.
    pub open spec fn integral(self) -> bool
        decreases self,
    {
        match self {
            JsonTree::Number(number) => !is_fractional(number),
            JsonTree::Array(items) => forall|i: int|
                0 <= i < items.len() ==> (#[trigger] items[i]).integral(),
            JsonTree::Object(entries) => forall|i: int|
                0 <= i < entries.len() ==> (#[trigger] entries[i]).1.integral(),
            _ => true,
        }
    }

    /// The value of the entry with the given key, if this is an object that has one.
    pub open spec fn field(self, key: Seq<char>) -> Option<JsonTree> {
        match self {
            JsonTree::Object(entries) => entry_value(entries, key),
            _ => None,
        }
    }
}

/// The value of the first entry with the given key.
pub open spec fn entry_value(entries: Seq<(Seq<char>, JsonTree)>, key: Seq<char>) -> Option<
    JsonTree,
>
    decreases entries.len(),
{
    if entries.len() == 0 {
        None
    } else if entries[0].0 == key {
        Some(entries[0].1)
    } else {
        entry_value(entries.drop_first(), key)
    }
}

/// Whether a number is held as a floating-point number, as `serde_json::Number::is_f64` tells.
/// Every other one is held as an integer.
pub uninterp spec fn is_fractional(number: serde_json::Number) -> bool;

/// What a document of `serde_json` holds.
pub uninterp spec fn document_tree(document: serde_json::Value) -> JsonTree;

/// The value that `serde_json` reads from a text, if the text is one JSON value.
pub uninterp spec fn parsed_json(bytes: Seq<u8>) -> Option<JsonTree>;

/// The text that `serde_json` writes for a value.
pub uninterp spec fn rendered_json(tree: JsonTree) -> Option<Seq<u8>>;

/// Whether reading the text gives the value again, but for numbers that are not integers.
pub open spec fn reads_back(tree: JsonTree, bytes: Seq<u8>) -> bool {
    parsed_json(bytes) matches Some(read) && tree.same_but_fractions(read)
}

spec fn level_tree(level: Level) -> JsonTree {
    match level {
        Level::Null => JsonTree::Null,
        Level::Bool(value) => JsonTree::Bool(value),
        Level::Number(value) => JsonTree::Number(value),
        Level::Text(value) => JsonTree::Text(value@),
        Level::Array(items) => JsonTree::Array(items@.map_values(|d| document_tree(d))),
        Level::Object(entries) => JsonTree::Object(
            entries@.map_values(|e: (String, serde_json::Value)| (e.0@, document_tree(e.1))),
        ),
    }
}

/// `serde_json::from_slice` reads a document from a text that is one JSON value, with white
/// space around it, and fails on every other text. A document it returns nests at most 127
/// levels deep, and the keys of each object ascend: an object is kept in a `BTreeMap`.
#[verifier::external_body]
fn parse_document(bytes: &[u8]) -> (found: Option<serde_json::Value>)
    ensures
        match found {
            Some(document) => parsed_json(bytes@) == Some(document_tree(document))
                && document_tree(document).readable(),
            None => parsed_json(bytes@) is None,
        },
{
    serde_json::from_slice(bytes).ok()
}

/// `serde_json::to_vec` writes a document as a text, which depends on what the document holds
/// and on nothing else. Reading the text gives the document again, with its integers, but one
/// of the other numbers may come back with another last digit.
#[verifier::external_body]
fn render_document(document: &serde_json::Value) -> (written: Option<Vec<u8>>)
    requires
        document_tree(*document).readable(),
    ensures
        written is Some,
        rendered_json(document_tree(*document)) == Some(written->0@),
        reads_back(document_tree(*document), written->0@),
{
    serde_json::to_vec(document).ok()
}

/// `serde_json::Number::is_f64` tells whether a number is held as a floating-point number.
#[verifier::external_body]
fn fractional(number: &serde_json::Number) -> (found: bool)
    ensures
        found == is_fractional(*number),
{
    number.is_f64()
}

/// Takes the outermost level of a `serde_json::Value` apart. The entries of an object come out
/// in the order in which its map is walked.
#[verifier::external_body]
fn open_document(document: serde_json::Value) -> (level: Level)
    ensures
        level_tree(level) == document_tree(document),
{
    match document {
        serde_json::Value::Null => Level::Null,
        serde_json::Value::Bool(value) => Level::Bool(value),
        serde_json::Value::Number(value) => Level::Number(value),
        serde_json::Value::String(value) => Level::Text(value),
        serde_json::Value::Array(items) => Level::Array(items),
        serde_json::Value::Object(entries) => Level::Object(entries.into_iter().collect()),
    }
}

/// Puts a `serde_json::Value` together from its outermost level. The map of an object is walked
/// in the order of its keys, so the entries keep their places if their keys ascend.
#[verifier::external_body]
fn close_document(level: Level) -> (document: serde_json::Value)
    requires
        level_tree(level) matches JsonTree::Object(entries) ==> keys_ascend(entries),
    ensures
        document_tree(document) == level_tree(level),
{
    match level {
        Level::Null => serde_json::Value::Null,
        Level::Bool(value) => serde_json::Value::Bool(value),
        Level::Number(value) => serde_json::Value::Number(value),
        Level::Text(value) => serde_json::Value::String(value),
        Level::Array(items) => serde_json::Value::Array(items),
        Level::Object(entries) => serde_json::Value::Object(entries.into_iter().collect()),
    }
}

fn json_of(document: serde_json::Value) -> (json: Json)
    ensures
        json@ == document_tree(document),
    decreases document_tree(document),
{
    let ghost tree = document_tree(document);
    match open_document(document) {
        Level::Null => Json::Null,
        Level::Bool(value) => Json::Bool(value),
        Level::Number(value) => Json::Number(value),
        Level::Text(value) => Json::Text(value),
        Level::Array(items) => {
            let ghost trees = tree->Array_0;
            let mut out: Vec<Json> = Vec::new();
            for item in it: items
                invariant
                    tree == document_tree(document),
                    tree == JsonTree::Array(trees),
                    it.seq() == items@,
                    trees == items@.map_values(|d| document_tree(d)),
                    out@.len() == it.index(),
                    forall|i: int| 0 <= i < out@.len() ==> (#[trigger] out@[i])@ == trees[i],
            {
                assert(trees[it.index() as int] == document_tree(item));
                assert(decreases_to!(tree => tree->Array_0[it.index() as int]));
                out.push(json_of(item));
            }
            proof {
                lemma_array_view(out);
                assert(item_trees(out@) =~= trees);
            }
            Json::Array(out)
        },
        Level::Object(entries) => {
            let ghost trees = tree->Object_0;
            let mut out: Vec<(String, Json)> = Vec::new();
            for entry in it: entries
                invariant
                    tree == document_tree(document),
                    tree == JsonTree::Object(trees),
                    it.seq() == entries@,
                    trees == entries@.map_values(
                        |e: (String, serde_json::Value)| (e.0@, document_tree(e.1)),
                    ),
                    out@.len() == it.index(),
                    forall|i: int|
                        0 <= i < out@.len() ==> ((#[trigger] out@[i]).0@, out@[i].1@) == trees[i],
            {
                let (key, value) = entry;
                assert(trees[it.index() as int] == (key@, document_tree(value)));
                assert(decreases_to!(tree => tree->Object_0[it.index() as int].1));
                out.push((key, json_of(value)));
            }
            proof {
                lemma_object_view(out);
                assert(entry_trees(out@) =~= trees);
            }
            Json::Object(out)
        },
    }
}

fn document_of(json: Json) -> (document: serde_json::Value)
    requires
        json@.ordered(),
    ensures
        document_tree(document) == json@,
    decreases json@,
{
    let ghost tree = json@;
    match json {
        Json::Null => close_document(Level::Null),
        Json::Bool(value) => close_document(Level::Bool(value)),
        Json::Number(value) => close_document(Level::Number(value)),
        Json::Text(value) => close_document(Level::Text(value)),
        Json::Array(items) => {
            let ghost trees = tree->Array_0;
            proof {
                lemma_array_view(items);
            }
            let mut out: Vec<serde_json::Value> = Vec::new();
            for item in it: items
                invariant
                    tree == json@,
                    tree == JsonTree::Array(trees),
                    tree.ordered(),
                    it.seq() == items@,
                    trees.len() == items@.len(),
                    forall|i: int| 0 <= i < items@.len() ==> trees[i] == (#[trigger] items@[i])@,
                    out@.len() == it.index(),
                    forall|i: int|
                        0 <= i < out@.len() ==> document_tree(#[trigger] out@[i]) == trees[i],
            {
                assert(item == items@[it.index() as int]);
                assert(decreases_to!(tree => tree->Array_0[it.index() as int]));
                out.push(document_of(item));
            }
            let level = Level::Array(out);
            assert(level_tree(level)->Array_0 =~= trees);
            close_document(level)
        },
        Json::Object(entries) => {
            let ghost trees = tree->Object_0;
            proof {
                lemma_object_view(entries);
            }
            let mut out: Vec<(String, serde_json::Value)> = Vec::new();
            for entry in it: entries
                invariant
                    tree == json@,
                    tree == JsonTree::Object(trees),
                    tree.ordered(),
                    it.seq() == entries@,
                    trees.len() == entries@.len(),
                    forall|i: int|
                        0 <= i < entries@.len() ==> trees[i] == ((#[trigger] entries@[i]).0@,
                            entries@[i].1@),
                    out@.len() == it.index(),
                    forall|i: int|
                        0 <= i < out@.len() ==> ((#[trigger] out@[i]).0@, document_tree(out@[i].1))
                            == trees[i],
            {
                assert(entry == entries@[it.index() as int]);
                let (key, value) = entry;
                assert(decreases_to!(tree => tree->Object_0[it.index() as int].1));
                out.push((key, document_of(value)));
            }
            let level = Level::Object(out);
            assert(level_tree(level)->Object_0 =~= trees);
            close_document(level)
        },
    }
}

/// Reads the JSON value that a text holds.
pub fn parse_json(bytes: &[u8]) -> (json: Option<Json>)
    ensures
        match json {
            Some(json) => parsed_json(bytes@) == Some(json@) && json@.readable(),
            None => parsed_json(bytes@) is None,
        },
{
    match parse_document(bytes) {
        Some(document) => Some(json_of(document)),
        None => None,
    }
}

/// Writes a JSON value as a text.
pub fn render_json(json: Json) -> (bytes: Option<Vec<u8>>)
    requires
        json@.readable(),
    ensures
        bytes matches Some(bytes) && rendered_json(json@) == Some(bytes@) && reads_back(
            json@,
            bytes@,
        ),
{
    render_document(&document_of(json))
}

impl Json {
    /// The value of the entry with the given key, if this is an object that has one.
    pub fn get(&self, key: &str) -> (value: Option<&Json>)
        ensures
            match value {
                Some(value) => self@.field(key@) == Some(value@),
                None => self@.field(key@) is None,
            },
    {
        if let Json::Object(entries) = self {
            let ghost trees = self@->Object_0;
            let mut i: usize = 0;
            proof {
                lemma_object_view(*entries);
            }
            assert(trees.skip(0) == trees);
            while i < entries.len()
                invariant
                    i <= entries@.len(),
                    trees.len() == entries@.len(),
                    forall|i: int|
                        0 <= i < entries@.len() ==> trees[i] == ((#[trigger] entries@[i]).0@,
                            entries@[i].1@),
                    self@ == JsonTree::Object(trees),
                    entry_value(trees, key@) == entry_value(trees.skip(i as int), key@),
                decreases entries@.len() - i,
            {
                if same_text(entries[i].0.as_str(), key) {
                    return Some(&entries[i].1);
                }
                assert(trees.skip(i as int).drop_first() == trees.skip(i + 1));
                i = i + 1;
            }
            assert(entry_value(trees, key@) is None);
        }
        None
    }

    /// Whether every number in the value is an integer.
    pub fn is_integral(&self) -> (found: bool)
        ensures
            found == self@.integral(),
        decreases self@,
    {
        let ghost tree = self@;
        match self {
            Json::Number(number) => !fractional(number),
            Json::Array(items) => {
                let mut i: usize = 0;
                proof {
                    lemma_array_view(*items);
                }
                while i < items.len()
                    invariant
                        i <= items@.len(),
                        tree == self@,
                        tree == JsonTree::Array(item_trees(items@)),
                        item_trees(items@).len() == items@.len(),
                        forall|j: int|
                            0 <= j < items@.len() ==> item_trees(items@)[j] == (
                            #[trigger] items@[j])@,
                        forall|j: int|
                            0 <= j < i ==> (#[trigger] item_trees(items@)[j]).integral(),
                    decreases items@.len() - i,
                {
                    assert(item_trees(items@)[i as int] == items@[i as int]@);
                    assert(decreases_to!(tree => tree->Array_0[i as int]));
                    if !items[i].is_integral() {
                        return false;
                    }
                    i = i + 1;
                }
                true
            },
            Json::Object(entries) => {
                let mut i: usize = 0;
                proof {
                    lemma_object_view(*entries);
                }
                while i < entries.len()
                    invariant
                        i <= entries@.len(),
                        tree == self@,
                        tree == JsonTree::Object(entry_trees(entries@)),
                        entry_trees(entries@).len() == entries@.len(),
                        forall|j: int|
                            0 <= j < entries@.len() ==> entry_trees(entries@)[j] == (
                                (#[trigger] entries@[j]).0@,
                                entries@[j].1@,
                            ),
                        forall|j: int|
                            0 <= j < i ==> (#[trigger] entry_trees(entries@)[j]).1.integral(),
                    decreases entries@.len() - i,
                {
                    assert(entry_trees(entries@)[i as int] == (
                        entries@[i as int].0@,
                        entries@[i as int].1@,
                    ));
                    assert(decreases_to!(tree => tree->Object_0[i as int].1));
                    if !entries[i].1.is_integral() {
                        return false;
                    }
                    i = i + 1;
                }
                true
            },
            _ => true,
        }
    }
}

/// The value of a key is that of the first entry with the key.
pub proof fn law_field_is_found(
    key: Seq<char>,
    value: JsonTree,
    rest: Seq<(Seq<char>, JsonTree)>,
    sought: Seq<char>,
)
    ensures
        JsonTree::Object(seq![(key, value)] + rest).field(sought) == (if key == sought {
            Some(value)
        } else {
            JsonTree::Object(rest).field(sought)
        }),
        JsonTree::Object(seq![]).field(sought) is None,
        JsonTree::Null.field(sought) is None,
        JsonTree::Array(seq![value]).field(sought) is None,
        JsonTree::Text(key).field(sought) is None,
{
    assert((seq![(key, value)] + rest).drop_first() =~= rest);
}

} // verus!
