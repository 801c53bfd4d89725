//! JSON documents as trees of plain values. Reading a text into a tree and
//! printing a tree as a text is the work of `serde_json`; what the library
//! reads out of a tree, and the trees that it builds, are verified here.
use vstd::prelude::*;
use crate::text::{contains_text, texts};

verus! {

/// `serde_json::Value`: a JSON document as `serde_json` holds it. The
/// library hands such a value from one call of `serde_json` to the next and
/// never looks inside.
#[verifier::external_type_specification]
#[verifier::external_body]
pub struct ExValue(serde_json::Value);

/// `serde_json::Number`: a JSON number, kept as `serde_json` read it.
#[verifier::external_type_specification]
#[verifier::external_body]
pub struct ExNumber(serde_json::Number);

/// A JSON document as a tree of plain values.
#[derive(Debug, PartialEq)]
pub enum JsonValue {
    Null,
    Bool(bool),
    Number(serde_json::Number),
    Text(String),
    Array(Vec<JsonValue>),
    Object(Vec<JsonMember>),
}

/// One member of a JSON object. Where an object lists a key more than once,
/// the last member of that key counts.
#[derive(Debug, PartialEq)]
pub struct JsonMember {
    pub key: String,
    pub value: JsonValue,
}

/// The mathematical content of a JSON document.
pub ghost enum JsonModel {
    Null,
    Bool(bool),
    Number(serde_json::Number),
    Text(Seq<char>),
    Array(Seq<JsonModel>),
    Object(Map<Seq<char>, JsonModel>),
}

/// The map that the first `n` members of an object stand for.
pub open spec fn members_model(members: Seq<JsonMember>, n: nat) -> Map<Seq<char>, JsonModel>
    decreases members, n,
{
    if n == 0 || n > members.len() {
        Map::empty()
    } else {
        members_model(members, (n - 1) as nat).insert(
            members[n - 1].key@,
            members[n - 1].value.model(),
        )
    }
}

impl JsonValue {
    /// The mathematical content of the tree.
    pub open spec fn model(self) -> JsonModel
        decreases self, 0nat,
    {
        match self {
            JsonValue::Null => JsonModel::Null,
            JsonValue::Bool(b) => JsonModel::Bool(b),
            JsonValue::Number(n) => JsonModel::Number(n),
            JsonValue::Text(s) => JsonModel::Text(s@),
            JsonValue::Array(items) => JsonModel::Array(
                Seq::new(
                    items@.len(),
                    |i: int|
                        if 0 <= i < items@.len() {
                            items@[i].model()
                        } else {
                            JsonModel::Null
                        },
                ),
            ),
            JsonValue::Object(members) => JsonModel::Object(
                members_model(members@, members@.len()),
            ),
        }
    }
}

impl View for JsonValue {
    type V = JsonModel;

    open spec fn view(&self) -> JsonModel {
        self.model()
    }
}

/// What a `serde_json::Value` holds.
pub uninterp spec fn value_tree(v: serde_json::Value) -> JsonModel;

/// The document that `serde_json::from_str` reads from a text, if it accepts
/// the text.
pub uninterp spec fn json_parse(text: Seq<char>) -> Option<JsonModel>;

/// The compact text that `serde_json` prints for a document. As it is
/// built here, without its feature `preserve_order`, it keeps the members
/// of an object in the order of their keys and prints them so: the text
/// depends on the document alone.
pub uninterp spec fn json_text(document: JsonModel) -> Seq<char>;

/// The indented text that `serde_json` prints for a document, with the
/// members of an object in the order of their keys, as `json_text` has
/// them.
pub uninterp spec fn json_pretty(document: JsonModel) -> Seq<char>;

/// The text that a value of a dictionary stands for: a text stands for
/// itself, character by character; a value that is no text stands for its
/// compact JSON text.
pub open spec fn member_text(document: JsonModel) -> Seq<char> {
    match document {
        JsonModel::Text(text) => text,
        _ => json_text(document),
    }
}

/// `serde_json::from_str` at the type `serde_json::Value`. It accepts the
/// text exactly when `json_parse` names a document for it, and the value
/// then holds that document.
#[verifier::external_body]
fn parse_value(text: &str) -> (parsed: Result<serde_json::Value, serde_json::Error>)
    ensures
        match parsed {
            Ok(v) => json_parse(text@) == Some(value_tree(v)),
            Err(_) => json_parse(text@) is None,
        },
{
    serde_json::from_str::<serde_json::Value>(text)
}

/// Moves what a `serde_json::Value` holds into a tree, variant by variant;
/// the members of a `serde_json::Map` come out one for each key.
#[verifier::external_body]
fn tree_of_value(v: &serde_json::Value) -> (tree: JsonValue)
    ensures
        tree@ == value_tree(*v),
{
    match v {
        serde_json::Value::Null => JsonValue::Null,
        serde_json::Value::Bool(b) => JsonValue::Bool(*b),
        serde_json::Value::Number(n) => JsonValue::Number(n.clone()),
        serde_json::Value::String(s) => JsonValue::Text(s.clone()),
        serde_json::Value::Array(a) => JsonValue::Array(a.iter().map(tree_of_value).collect()),
        serde_json::Value::Object(o) => JsonValue::Object(
            o.iter().map(|(k, v)| JsonMember { key: k.clone(), value: tree_of_value(v) }).collect(),
        ),
    }
}

/// Builds the `serde_json::Value` that holds what a tree holds, variant by
/// variant. The members go into a `serde_json::Map` by `Map::insert`, in
/// their order: an insert under a key that is there already puts the new
/// value in place of the old one, so the last member of a key stays.
#[verifier::external_body]
fn value_of_tree(tree: &JsonValue) -> (v: serde_json::Value)
    ensures
        value_tree(v) == tree@,
{
    match tree {
        JsonValue::Null => serde_json::Value::Null,
        JsonValue::Bool(b) => serde_json::Value::Bool(*b),
        JsonValue::Number(n) => serde_json::Value::Number(n.clone()),
        JsonValue::Text(s) => serde_json::Value::String(s.clone()),
        JsonValue::Array(a) => serde_json::Value::Array(a.iter().map(value_of_tree).collect()),
        JsonValue::Object(o) => {
            let mut map = serde_json::Map::new();
            o.iter().for_each(|m| drop(map.insert(m.key.clone(), value_of_tree(&m.value))));
            serde_json::Value::Object(map)
        },
    }
}

/// `Display` of `serde_json::Value` in its plain form, which prints the
/// compact text of what the value holds.
#[verifier::external_body]
fn value_text(v: &serde_json::Value) -> (text: String)
    ensures
        text@ == json_text(value_tree(*v)),
{
    v.to_string()
}

/// `Display` of `serde_json::Value` in its alternate form, which prints the
/// indented text of what the value holds.
#[verifier::external_body]
fn value_pretty(v: &serde_json::Value) -> (text: String)
    ensures
        text@ == json_pretty(value_tree(*v)),
{
    format!("{:#}", v)
}

/// `serde::de::Error::custom` of `serde_json::Error`: an error that carries
/// the given message. Nothing is stated of it.
#[verifier::external_body]
pub(crate) fn json_error(message: &str) -> serde_json::Error {
    <serde_json::Error as serde::de::Error>::custom(message)
}

/// The keys of the first `n` members are those of the map that the members
/// stand for, and the last member of a key gives the key its value.
pub proof fn lemma_members_model(members: Seq<JsonMember>, n: nat)
    requires
        n <= members.len(),
    ensures
        forall|k: Seq<char>|
            members_model(members, n).contains_key(k) <==> exists|i: int|
                0 <= i < n && #[trigger] members[i].key@ == k,
        forall|i: int|
            0 <= i < n && (forall|j: int| i < j < n ==> members[j].key@ != members[i].key@)
                ==> members_model(members, n)[#[trigger] members[i].key@]
                == members[i].value.model(),
    decreases n,
{
    if n > 0 {
        let before = (n - 1) as nat;
        lemma_members_model(members, before);
        let last = members[n - 1];
        assert forall|k: Seq<char>|
            members_model(members, n).contains_key(k) <==> exists|i: int|
                0 <= i < n && #[trigger] members[i].key@ == k by {
            if members_model(members, n).contains_key(k) {
                if k == last.key@ {
                    assert(members[n - 1].key@ == k);
                } else {
                    assert(members_model(members, before).contains_key(k));
                    let i = choose|i: int| 0 <= i < before && #[trigger] members[i].key@ == k;
                    assert(0 <= i < n && members[i].key@ == k);
                }
            }
            if exists|i: int| 0 <= i < n && #[trigger] members[i].key@ == k {
                let i = choose|i: int| 0 <= i < n && #[trigger] members[i].key@ == k;
                if i < before {
                    assert(members_model(members, before).contains_key(k));
                }
            }
        }
        assert forall|i: int|
            0 <= i < n && (forall|j: int|
                i < j < n ==> members[j].key@ != members[i].key@) implies members_model(
            members,
            n,
        )[#[trigger] members[i].key@] == members[i].value.model() by {
            if i < before {
                assert(members[n - 1].key@ != members[i].key@);
                assert(forall|j: int| i < j < before ==> members[j].key@ != members[i].key@);
            }
        }
    }
}

/// The map of the first `n` members does not depend on the members after
/// them.
pub proof fn lemma_members_model_prefix(a: Seq<JsonMember>, b: Seq<JsonMember>, n: nat)
    requires
        n <= a.len(),
        n <= b.len(),
        forall|i: int| 0 <= i < n ==> a[i] == b[i],
    ensures
        members_model(a, n) == members_model(b, n),
    decreases n,
{
    if n > 0 {
        lemma_members_model_prefix(a, b, (n - 1) as nat);
    }
}

/// The keys of the members of an object, in their order.
pub open spec fn member_keys(members: Seq<JsonMember>) -> Seq<Seq<char>> {
    Seq::new(members.len(), |i: int| members[i].key@)
}

/// The keys without those that occurred before, in the order in which
/// they first occur.
pub open spec fn distinct_keys(keys: Seq<Seq<char>>) -> Seq<Seq<char>>
    decreases keys.len(),
{
    if keys.len() == 0 {
        Seq::empty()
    } else if distinct_keys(keys.drop_last()).contains(keys.last()) {
        distinct_keys(keys.drop_last())
    } else {
        distinct_keys(keys.drop_last()).push(keys.last())
    }
}

/// Whether the keys list each key of the set once.
pub open spec fn lists_keys(keys: Seq<Seq<char>>, of: Set<Seq<char>>) -> bool {
    keys.no_duplicates() && keys.to_set() == of
}

/// The texts of an array whose items are all texts.
pub open spec fn text_array(document: JsonModel) -> Option<Seq<Seq<char>>> {
    match document {
        JsonModel::Array(items) => if forall|i: int|
            0 <= i < items.len() ==> #[trigger] items[i] is Text {
            Some(Seq::new(items.len(), |i: int| items[i]->Text_0))
        } else {
            None
        },
        _ => None,
    }
}

/// The array whose items are the given texts.
pub open spec fn array_of_texts(items: Seq<Seq<char>>) -> JsonModel {
    JsonModel::Array(Seq::new(items.len(), |i: int| JsonModel::Text(items[i])))
}

/// The map from key to text that a list of pairs stands for: a later pair
/// of a key takes the place of an earlier one.
pub open spec fn text_map(pairs: Seq<(Seq<char>, Seq<char>)>) -> Map<Seq<char>, JsonModel>
    decreases pairs.len(),
{
    if pairs.len() == 0 {
        Map::empty()
    } else {
        text_map(pairs.drop_last()).insert(pairs.last().0, JsonModel::Text(pairs.last().1))
    }
}

/// The keys of the map of a list of pairs are the keys of the pairs, and the
/// last pair of a key gives the key its text.
pub proof fn lemma_text_map(pairs: Seq<(Seq<char>, Seq<char>)>)
    ensures
        forall|k: Seq<char>|
            text_map(pairs).contains_key(k) <==> exists|i: int|
                0 <= i < pairs.len() && (#[trigger] pairs[i]).0 == k,
        forall|i: int|
            0 <= i < pairs.len() && (forall|j: int| i < j < pairs.len() ==> pairs[j].0 != pairs[i].0)
                ==> text_map(pairs)[(#[trigger] pairs[i]).0] == JsonModel::Text(pairs[i].1),
    decreases pairs.len(),
{
    if pairs.len() > 0 {
        let rest = pairs.drop_last();
        lemma_text_map(rest);
        assert forall|k: Seq<char>|
            text_map(pairs).contains_key(k) <==> exists|i: int|
                0 <= i < pairs.len() && (#[trigger] pairs[i]).0 == k by {
            if text_map(pairs).contains_key(k) {
                if k == pairs.last().0 {
                    assert(pairs[pairs.len() - 1].0 == k);
                } else {
                    assert(text_map(rest).contains_key(k));
                    let i = choose|i: int| 0 <= i < rest.len() && (#[trigger] rest[i]).0 == k;
                    assert(pairs[i].0 == k);
                }
            }
            if exists|i: int| 0 <= i < pairs.len() && (#[trigger] pairs[i]).0 == k {
                let i = choose|i: int| 0 <= i < pairs.len() && (#[trigger] pairs[i]).0 == k;
                if i < rest.len() {
                    assert(rest[i].0 == k);
                }
            }
        }
        assert forall|i: int|
            0 <= i < pairs.len() && (forall|j: int|
                i < j < pairs.len() ==> pairs[j].0 != pairs[i].0) implies text_map(pairs)[(
        #[trigger] pairs[i]).0] == JsonModel::Text(pairs[i].1) by {
            if i < rest.len() {
                assert(pairs[pairs.len() - 1].0 != pairs[i].0);
                assert(rest[i] == pairs[i]);
                assert(forall|j: int| i < j < rest.len() ==> rest[j].0 != rest[i].0) by {
                    assert forall|j: int| i < j < rest.len() implies rest[j].0 != rest[i].0 by {
                        assert(rest[j] == pairs[j]);
                    }
                }
            }
        }
    }
}

/// The text under a key of an object.
pub open spec fn field_text(document: JsonModel, key: Seq<char>) -> Option<Seq<char>> {
    match document {
        JsonModel::Object(members) => if members.contains_key(key) && members[key] is Text {
            Some(members[key]->Text_0)
        } else {
            None
        },
        _ => None,
    }
}

/// The texts of the array of texts under a key of an object.
pub open spec fn field_texts(document: JsonModel, key: Seq<char>) -> Option<Seq<Seq<char>>> {
    match document {
        JsonModel::Object(members) => if members.contains_key(key) {
            text_array(members[key])
        } else {
            None
        },
        _ => None,
    }
}

/// The map that a list of keys with their documents stands for: a later
/// entry of a key takes the place of an earlier one.
pub open spec fn document_map(entries: Seq<(Seq<char>, JsonModel)>) -> Map<Seq<char>, JsonModel>
    decreases entries.len(),
{
    if entries.len() == 0 {
        Map::empty()
    } else {
        document_map(entries.drop_last()).insert(entries.last().0, entries.last().1)
    }
}

/// The keys and documents of the members of an object.
pub open spec fn member_entries(members: Seq<JsonMember>) -> Seq<(Seq<char>, JsonModel)> {
    Seq::new(members.len(), |i: int| (members[i].key@, members[i].value@))
}

/// The members of an object stand for the map of their keys and
/// documents.
pub proof fn lemma_members_document_map(members: Seq<JsonMember>, n: nat)
    requires
        n <= members.len(),
    ensures
        members_model(members, n) == document_map(member_entries(members).take(n as int)),
    decreases n,
{
    let taken = member_entries(members).take(n as int);
    if n > 0 {
        lemma_members_document_map(members, (n - 1) as nat);
        assert(taken.drop_last() =~= member_entries(members).take(n - 1));
        assert(taken.last() == (members[n - 1].key@, members[n - 1].value@));
    }
}

/// The keys and texts of a list of pairs of strings.
pub open spec fn pair_texts(pairs: Seq<(String, String)>) -> Seq<(Seq<char>, Seq<char>)> {
    Seq::new(pairs.len(), |i: int| (pairs[i].0@, pairs[i].1@))
}

/// The object that maps each key of the pairs to its text.
pub open spec fn object_of_texts(pairs: Seq<(Seq<char>, Seq<char>)>) -> JsonModel {
    JsonModel::Object(text_map(pairs))
}

impl JsonValue {
    /// Reads a JSON text.
    pub fn parse(text: &str) -> (parsed: Result<JsonValue, serde_json::Error>)
        ensures
            match json_parse(text@) {
                Some(document) => parsed is Ok && parsed->Ok_0@ == document,
                None => parsed is Err,
            },
    {
        match parse_value(text) {
            Ok(v) => Ok(tree_of_value(&v)),
            Err(e) => Err(e),
        }
    }

    /// The compact text of the document.
    pub fn to_text(&self) -> (text: String)
        ensures
            text@ == json_text(self@),
    {
        let v = value_of_tree(self);
        value_text(&v)
    }

    /// The text that the document stands for as a value of a dictionary:
    /// a text as it is, anything else as its compact JSON text.
    pub fn plain_text(&self) -> (text: String)
        ensures
            text@ == member_text(self@),
    {
        match self {
            JsonValue::Text(text) => text.clone(),
            _ => self.to_text(),
        }
    }

    /// The indented text of the document.
    pub fn to_pretty_text(&self) -> (text: String)
        ensures
            text@ == json_pretty(self@),
    {
        let v = value_of_tree(self);
        value_pretty(&v)
    }

    /// The value of a key, where the document is an object that has the key.
    pub fn get(&self, key: &str) -> (found: Option<&JsonValue>)
        ensures
            match found {
                Some(value) => self@ is Object && self@->Object_0.contains_key(key@) && value@
                    == self@->Object_0[key@],
                None => !(self@ is Object && self@->Object_0.contains_key(key@)),
            },
    {
        match self {
            JsonValue::Object(members) => {
                let mut i: usize = members.len();
                while i > 0
                    invariant
                        i <= members.len(),
                        self@ == JsonModel::Object(members_model(members@, members@.len())),
                        forall|j: int| i <= j < members.len() ==> members@[j].key@ != key@,
                    decreases i,
                {
                    i -= 1;
                    if *members[i].key.as_str() == *key {
                        proof {
                            lemma_members_model(members@, members@.len());
                            assert(members@[i as int].key@ == key@);
                        }
                        return Some(&members[i].value);
                    }
                }
                proof {
                    lemma_members_model(members@, members@.len());
                }
                None
            },
            _ => None,
        }
    }

    /// The object that holds the given members.
    pub fn object(members: Vec<JsonMember>) -> (object: JsonValue)
        ensures
            object@ == JsonModel::Object(document_map(member_entries(members@))),
    {
        proof {
            lemma_members_document_map(members@, members@.len());
            assert(member_entries(members@).take(members@.len() as int) =~= member_entries(
                members@,
            ));
        }
        JsonValue::Object(members)
    }

    /// The text under a key, where the document is an object that holds a
    /// text under the key.
    pub fn text_field(&self, key: &str) -> (found: Option<String>)
        ensures
            match found {
                Some(text) => field_text(self@, key@) == Some(text@),
                None => field_text(self@, key@) is None,
            },
    {
        match self.get(key) {
            Some(value) => match value.as_text() {
                Some(text) => Some(text.clone()),
                None => None,
            },
            None => None,
        }
    }

    /// The texts under a key, where the document is an object that holds an
    /// array of texts under the key.
    pub fn texts_field(&self, key: &str) -> (found: Option<Vec<String>>)
        ensures
            match found {
                Some(items) => field_texts(self@, key@) == Some(texts(items@)),
                None => field_texts(self@, key@) is None,
            },
    {
        match self.get(key) {
            Some(value) => value.as_text_array(),
            None => None,
        }
    }

    /// The text, where the document is a text.
    pub fn as_text(&self) -> (found: Option<&String>)
        ensures
            match found {
                Some(text) => self@ == JsonModel::Text(text@),
                None => !(self@ is Text),
            },
    {
        match self {
            JsonValue::Text(text) => Some(text),
            _ => None,
        }
    }

    /// The items, where the document is an array.
    pub fn as_array(&self) -> (found: Option<&Vec<JsonValue>>)
        ensures
            match found {
                Some(items) => self@ == JsonModel::Array(
                    Seq::new(items@.len(), |i: int| items@[i]@),
                ),
                None => !(self@ is Array),
            },
    {
        match self {
            JsonValue::Array(items) => {
                assert(self@->Array_0 =~= Seq::new(items@.len(), |i: int| items@[i]@));
                Some(items)
            },
            _ => None,
        }
    }

    /// The keys, each once, where the document is an object: they come in
    /// the order in which the members first name them.
    pub fn object_keys(&self) -> (found: Option<Vec<String>>)
        ensures
            match found {
                Some(keys) => self@ is Object && lists_keys(texts(keys@), self@->Object_0.dom()),
                None => !(self@ is Object),
            },
            match *self {
                JsonValue::Object(members) => found is Some && texts(found->Some_0@)
                    == distinct_keys(member_keys(members@)),
                _ => found is None,
            },
    {
        match self {
            JsonValue::Object(members) => {
                let mut keys: Vec<String> = Vec::new();
                let mut i: usize = 0;
                proof {
                    assert(member_keys(members@).take(0) =~= Seq::<Seq<char>>::empty());
                }
                while i < members.len()
                    invariant
                        i <= members.len(),
                        texts(keys@) == distinct_keys(member_keys(members@).take(i as int)),
                        texts(keys@).no_duplicates(),
                        forall|k: Seq<char>|
                            texts(keys@).contains(k) <==> exists|j: int|
                                0 <= j < i && #[trigger] members@[j].key@ == k,
                    decreases members.len() - i,
                {
                    let ghost before = texts(keys@);
                    let ghost key = members@[i as int].key@;
                    proof {
                        let taken = member_keys(members@).take(i + 1);
                        assert(taken.drop_last() =~= member_keys(members@).take(i as int));
                        assert(taken.last() == key);
                    }
                    if !contains_text(&keys, members[i].key.as_str()) {
                        keys.push(members[i].key.clone());
                        assert(texts(keys@) =~= before.push(key));
                    }
                    proof {
                        let after = texts(keys@);
                        assert forall|k: Seq<char>|
                            after.contains(k) <==> exists|j: int|
                                0 <= j < i + 1 && #[trigger] members@[j].key@ == k by {
                            if after.contains(k) {
                                if before.contains(k) {
                                    let j = choose|j: int|
                                        0 <= j < i && #[trigger] members@[j].key@ == k;
                                    assert(0 <= j < i + 1 && members@[j].key@ == k);
                                } else {
                                    let at = choose|at: int| 0 <= at < after.len() && after[at] == k;
                                    assert(k == key);
                                    assert(members@[i as int].key@ == k);
                                }
                            }
                            if exists|j: int| 0 <= j < i + 1 && #[trigger] members@[j].key@ == k {
                                let j = choose|j: int|
                                    0 <= j < i + 1 && #[trigger] members@[j].key@ == k;
                                if j < i {
                                    assert(before.contains(k));
                                    let at = choose|at: int|
                                        0 <= at < before.len() && before[at] == k;
                                    assert(after[at] == k);
                                } else {
                                    assert(k == key);
                                    if before.contains(key) {
                                        let at = choose|at: int|
                                            0 <= at < before.len() && before[at] == key;
                                        assert(after[at] == k);
                                    } else {
                                        assert(after[after.len() - 1] == k);
                                    }
                                }
                            }
                        }
                    }
                    i += 1;
                }
                proof {
                    lemma_members_model(members@, members@.len());
                    assert(texts(keys@).to_set() =~= self@->Object_0.dom());
                    assert(member_keys(members@).take(members@.len() as int) =~= member_keys(
                        members@,
                    ));
                }
                Some(keys)
            },
            _ => None,
        }
    }

    /// The texts of the items, where the document is an array of texts.
    pub fn as_text_array(&self) -> (found: Option<Vec<String>>)
        ensures
            match found {
                Some(items) => text_array(self@) == Some(texts(items@)),
                None => text_array(self@) is None,
            },
    {
        match self {
            JsonValue::Array(items) => {
                let mut found: Vec<String> = Vec::new();
                let mut i: usize = 0;
                while i < items.len()
                    invariant
                        i <= items.len(),
                        found@.len() == i,
                        self@ is Array,
                        self@->Array_0.len() == items@.len(),
                        forall|j: int|
                            0 <= j < items@.len() ==> #[trigger] self@->Array_0[j] == items@[j]@,
                        forall|j: int| 0 <= j < i ==> items@[j]@ == JsonModel::Text(found@[j]@),
                    decreases items.len() - i,
                {
                    match &items[i] {
                        JsonValue::Text(text) => {
                            found.push(text.clone());
                        },
                        _ => {
                            assert(!(self@->Array_0[i as int] is Text));
                            return None;
                        },
                    }
                    i += 1;
                }
                proof {
                    assert forall|j: int| 0 <= j < items@.len() implies #[trigger] self@->Array_0[j]
                        == JsonModel::Text(found@[j]@) by {
                        assert(items@[j]@ == JsonModel::Text(found@[j]@));
                    }
                    assert(text_array(self@)->Some_0 =~= texts(found@));
                }
                Some(found)
            },
            _ => None,
        }
    }

    /// The object that maps each key of the pairs to its text; a later pair
    /// of a key takes the place of an earlier one.
    pub fn from_text_pairs(pairs: &Vec<(String, String)>) -> (object: JsonValue)
        ensures
            object@ == object_of_texts(pair_texts(pairs@)),
    {
        let mut members: Vec<JsonMember> = Vec::new();
        let mut i: usize = 0;
        while i < pairs.len()
            invariant
                i <= pairs.len(),
                members@.len() == i,
                members_model(members@, i as nat) == text_map(pair_texts(pairs@).take(i as int)),
            decreases pairs.len() - i,
        {
            let ghost before = members@;
            members.push(
                JsonMember { key: pairs[i].0.clone(), value: JsonValue::Text(pairs[i].1.clone()) },
            );
            proof {
                lemma_members_model_prefix(before, members@, i as nat);
                let taken = pair_texts(pairs@).take(i + 1);
                assert(taken.drop_last() =~= pair_texts(pairs@).take(i as int));
                assert(taken.last() == (pairs@[i as int].0@, pairs@[i as int].1@));
                assert(members@[i as int].key@ == pairs@[i as int].0@);
                assert(members@[i as int].value.model() == JsonModel::Text(pairs@[i as int].1@));
                assert(members_model(members@, (i + 1) as nat) == members_model(
                    members@,
                    i as nat,
                ).insert(members@[i as int].key@, members@[i as int].value.model()));
            }
            i += 1;
        }
        proof {
            assert(pair_texts(pairs@).take(pairs@.len() as int) =~= pair_texts(pairs@));
        }
        JsonValue::Object(members)
    }

    /// The array whose items are the given texts.
    pub fn from_texts(items: &Vec<String>) -> (array: JsonValue)
        ensures
            array@ == array_of_texts(texts(items@)),
    {
        let mut values: Vec<JsonValue> = Vec::new();
        let mut i: usize = 0;
        while i < items.len()
            invariant
                i <= items.len(),
                values@.len() == i,
                forall|j: int| 0 <= j < i ==> values@[j]@ == JsonModel::Text(items@[j]@),
            decreases items.len() - i,
        {
            values.push(JsonValue::Text(items[i].clone()));
            i += 1;
        }
        let array = JsonValue::Array(values);
        assert(array@->Array_0 =~= array_of_texts(texts(items@))->Array_0);
        array
    }
}

} // verus!
