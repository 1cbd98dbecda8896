//! Tagged values: the self-describing trees that carry a chunk's metadata.
//!
//! The bytes of a tagged value are parsed by `fastnbt`. What comes back is kept
//! as a closed sum type, [`Tag`], so that the decoder can read the few fields it
//! needs (a palette, a list of tile entities) in verified code.

use crate::entries::{
    find, first_at, holds_key, lemma_first_is_position, lemma_held_key_has_position, position,
};
use fastnbt::Value;
use vstd::prelude::*;

verus! {

/// `fastnbt::Value`, the parser's own tree.
#[verifier::external_type_specification]
#[verifier::external_body]
pub struct ExValue(Value);

/// A tagged value.
///
/// The two floating-point kinds hold the bit pattern of their number. The
/// entries of a compound come in no particular order; where a name occurs
/// twice, the first occurrence counts.
#[derive(Debug)]
pub enum Tag {
    Byte(i8),
    Short(i16),
    Int(i32),
    Long(i64),
    Float(u32),
    Double(u64),
    String(String),
    ByteArray(Vec<i8>),
    IntArray(Vec<i32>),
    LongArray(Vec<i64>),
    List(Vec<Tag>),
    Compound(Vec<(String, Tag)>),
}

/// What a [`Tag`] stands for: the same tree, with a compound as a map from
/// names to values.
pub enum TagModel {
    Byte(i8),
    Short(i16),
    Int(i32),
    Long(i64),
    Float(u32),
    Double(u64),
    String(Seq<char>),
    ByteArray(Seq<i8>),
    IntArray(Seq<i32>),
    LongArray(Seq<i64>),
    List(Seq<TagModel>),
    Compound(Map<Seq<char>, TagModel>),
}

impl DeepView for Tag {
    type V = TagModel;

    open spec fn deep_view(&self) -> TagModel {
        self.model()
    }
}

impl Tag {
    /// The tree that the tag stands for.
    pub open spec fn model(self) -> TagModel
        decreases self,
    {
        match self {
            Tag::Byte(v) => TagModel::Byte(v),
            Tag::Short(v) => TagModel::Short(v),
            Tag::Int(v) => TagModel::Int(v),
            Tag::Long(v) => TagModel::Long(v),
            Tag::Float(bits) => TagModel::Float(bits),
            Tag::Double(bits) => TagModel::Double(bits),
            Tag::String(text) => TagModel::String(text@),
            Tag::ByteArray(items) => TagModel::ByteArray(items@),
            Tag::IntArray(items) => TagModel::IntArray(items@),
            Tag::LongArray(items) => TagModel::LongArray(items@),
            Tag::List(items) => TagModel::List(
                Seq::new(
                    items@.len(),
                    |i: int|
                        if 0 <= i < items@.len() {
                            items@[i].model()
                        } else {
                            TagModel::Byte(0)
                        },
                ),
            ),
            Tag::Compound(entries) => TagModel::Compound(
                Map::new(
                    |key: Seq<char>| holds_key(entries@, key),
                    |key: Seq<char>|
                        {
                            let i = position(entries@, key);
                            if 0 <= i < entries@.len() {
                                entries@[i].1.model()
                            } else {
                                TagModel::Byte(0)
                            }
                        },
                ),
            ),
        }
    }
}

/// What `fastnbt::from_bytes` makes of `bytes` at `fastnbt::Value`: the tree
/// that it reads, or the message of the error that it reports.
pub uninterp spec fn nbt_decode(bytes: Seq<u8>) -> Result<TagModel, Seq<char>>;

/// The tree that a `fastnbt::Value` holds: each variant as the variant of the
/// same name, a floating-point number by its bits, an array by its items, and a
/// compound by the map from its keys to the trees of their values.
pub uninterp spec fn value_model(value: Value) -> TagModel;

impl TagModel {
    /// One of the six kinds of number.
    pub open spec fn is_number(self) -> bool {
        self is Byte || self is Short || self is Int || self is Long || self is Float
            || self is Double
    }

    /// A string or one of the three kinds of array.
    pub open spec fn is_buffer(self) -> bool {
        self is String || self is ByteArray || self is IntArray || self is LongArray
    }
}

/// `fastnbt::from_bytes` at `fastnbt::Value`: parses one tagged value from raw,
/// uncompressed bytes. The error is handed on as its message, the text that
/// its `Display` writes.
#[verifier::external_body]
fn decode_value(bytes: &[u8]) -> (r: Result<Value, String>)
    ensures
        match r {
            Ok(value) => nbt_decode(bytes@) == Ok::<TagModel, Seq<char>>(value_model(value)),
            Err(message) => nbt_decode(bytes@) == Err::<TagModel, Seq<char>>(message@),
        },
{
    match fastnbt::from_bytes::<Value>(bytes) {
        Ok(value) => Ok(value),
        Err(error) => Err(error.to_string()),
    }
}

/// Tells the six number variants of `fastnbt::Value` apart and copies the
/// number; `f32::to_bits` and `f64::to_bits` give the bits of the two
/// floating-point kinds. Every other variant gives `None`.
#[verifier::external_body]
fn number_of_value(value: &Value) -> (r: Option<Tag>)
    ensures
        match r {
            Some(tag) => value_model(*value).is_number() && tag.deep_view() == value_model(*value),
            None => !value_model(*value).is_number(),
        },
{
    match value {
        Value::Byte(v) => Some(Tag::Byte(*v)),
        Value::Short(v) => Some(Tag::Short(*v)),
        Value::Int(v) => Some(Tag::Int(*v)),
        Value::Long(v) => Some(Tag::Long(*v)),
        Value::Float(v) => Some(Tag::Float(v.to_bits())),
        Value::Double(v) => Some(Tag::Double(v.to_bits())),
        _ => None,
    }
}

/// Tells the string and the three array variants of `fastnbt::Value` apart and
/// copies what they hold; the arrays of `fastnbt` dereference to a slice of
/// their items. Every other variant gives `None`.
#[verifier::external_body]
fn buffer_of_value(value: &Value) -> (r: Option<Tag>)
    ensures
        match r {
            Some(tag) => value_model(*value).is_buffer() && tag.deep_view() == value_model(*value),
            None => !value_model(*value).is_buffer(),
        },
{
    match value {
        Value::String(v) => Some(Tag::String(v.clone())),
        Value::ByteArray(v) => Some(Tag::ByteArray(v.to_vec())),
        Value::IntArray(v) => Some(Tag::IntArray(v.to_vec())),
        Value::LongArray(v) => Some(Tag::LongArray(v.to_vec())),
        _ => None,
    }
}

/// The items of the `List` variant of `fastnbt::Value`, in order; `None` for
/// every other variant.
#[verifier::external_body]
fn list_of_value(value: &Value) -> (r: Option<&Vec<Value>>)
    ensures
        match r {
            Some(items) => {
                &&& value_model(*value) is List
                &&& value_model(*value)->List_0.len() == items@.len()
                &&& forall|i: int|
                    0 <= i < items@.len() ==> value_model(*value)->List_0[i] == value_model(
                        #[trigger] items@[i],
                    )
            },
            None => !(value_model(*value) is List),
        },
{
    match value {
        Value::List(items) => Some(items),
        _ => None,
    }
}

/// The entries of the `Compound` variant of `fastnbt::Value`, as its hash map
/// hands them out: every key once, in no particular order. `None` for every
/// other variant.
#[verifier::external_body]
fn entries_of_value<'a>(value: &'a Value) -> (r: Option<Vec<(&'a String, &'a Value)>>)
    ensures
        match r {
            Some(entries) => {
                &&& value_model(*value) is Compound
                &&& value_model(*value)->Compound_0.dom().finite()
                &&& forall|key: Seq<char>|
                    value_model(*value)->Compound_0.contains_key(key) ==> exists|i: int|
                        0 <= i < entries@.len() && (#[trigger] entries@[i]).0@ == key
                &&& forall|i: int|
                    0 <= i < entries@.len() ==> {
                        &&& value_model(*value)->Compound_0.contains_key(
                            (#[trigger] entries@[i]).0@,
                        )
                        &&& value_model(*value)->Compound_0[entries@[i].0@] == value_model(
                            *entries@[i].1,
                        )
                    }
            },
            None => !(value_model(*value) is Compound),
        },
{
    match value {
        Value::Compound(fields) => Some(fields.iter().collect()),
        _ => None,
    }
}

impl Tag {
    /// Copies a tree of the parser into a [`Tag`].
    pub fn from_value(value: &Value) -> (tag: Tag)
        ensures
            tag.deep_view() == value_model(*value),
        decreases value_model(*value),
    {
        if let Some(tag) = number_of_value(value) {
            return tag;
        }
        if let Some(tag) = buffer_of_value(value) {
            return tag;
        }
        if let Some(items) = list_of_value(value) {
            let mut tags: Vec<Tag> = Vec::new();
            let mut i: usize = 0;
            while i < items.len()
                invariant
                    i <= items@.len(),
                    tags@.len() == i,
                    value_model(*value) is List,
                    value_model(*value)->List_0.len() == items@.len(),
                    forall|j: int|
                        0 <= j < items@.len() ==> value_model(*value)->List_0[j] == value_model(
                            #[trigger] items@[j],
                        ),
                    forall|j: int|
                        0 <= j < i ==> (#[trigger] tags@[j]).deep_view() == value_model(items@[j]),
                decreases items@.len() - i,
            {
                let tag = Tag::from_value(&items[i]);
                tags.push(tag);
                i += 1;
            }
            proof {
                assert(Tag::List(tags).deep_view()->List_0 =~= value_model(*value)->List_0);
            }
            return Tag::List(tags);
        }
        match entries_of_value(value) {
            Some(entries) => {
                let mut fields: Vec<(String, Tag)> = Vec::new();
                let mut i: usize = 0;
                while i < entries.len()
                    invariant
                        i <= entries@.len(),
                        fields@.len() == i,
                        value_model(*value) is Compound,
                        value_model(*value)->Compound_0.dom().finite(),
                        forall|j: int|
                            0 <= j < entries@.len() ==> {
                                &&& value_model(*value)->Compound_0.contains_key(
                                    (#[trigger] entries@[j]).0@,
                                )
                                &&& value_model(*value)->Compound_0[entries@[j].0@] == value_model(
                                    *entries@[j].1,
                                )
                            },
                        forall|j: int|
                            0 <= j < i ==> {
                                &&& (#[trigger] fields@[j]).0@ == entries@[j].0@
                                &&& fields@[j].1.deep_view() == value_model(*entries@[j].1)
                            },
                    decreases entries@.len() - i,
                {
                    let name: String = entries[i].0.clone();
                    let tag = Tag::from_value(entries[i].1);
                    fields.push((name, tag));
                    i += 1;
                }
                proof {
                    let built = Tag::Compound(fields).deep_view()->Compound_0;
                    let held = value_model(*value)->Compound_0;
                    assert forall|key: Seq<char>| built.contains_key(key) == held.contains_key(
                        key,
                    ) by {
                        if held.contains_key(key) {
                            let at = choose|at: int|
                                0 <= at < entries@.len() && (#[trigger] entries@[at]).0@ == key;
                            assert(fields@[at].0@ == key);
                        }
                        if holds_key(fields@, key) {
                            let at = choose|at: int|
                                0 <= at < fields@.len() && (#[trigger] fields@[at]).0@ == key;
                            assert(entries@[at].0@ == key);
                        }
                    }
                    assert forall|key: Seq<char>| built.contains_key(key) implies built[key]
                        == held[key] by {
                        lemma_held_key_has_position(fields@, key);
                        let at = position(fields@, key);
                        assert(fields@[at].0@ == entries@[at].0@);
                    }
                    assert(built =~= held);
                }
                Tag::Compound(fields)
            },
            None => {
                // Every kind of value is a number, a buffer, a list or a compound.
                Tag::Compound(Vec::new())
            },
        }
    }
}

/// Parses the bytes of one tagged value.
///
/// Succeeds exactly where `fastnbt` does, with the tree it read; on failure
/// the parser's message is returned.
pub fn parse_tag(bytes: &[u8]) -> (r: Result<Tag, String>)
    ensures
        match r {
            Ok(tag) => nbt_decode(bytes@) == Ok::<TagModel, Seq<char>>(tag.deep_view()),
            Err(message) => nbt_decode(bytes@) == Err::<TagModel, Seq<char>>(message@),
        },
{
    match decode_value(bytes) {
        Ok(value) => Ok(Tag::from_value(&value)),
        Err(message) => Err(message),
    }
}

/// A copy of a vector of plain items.
pub fn copy_items<T: Copy>(items: &Vec<T>) -> (copy: Vec<T>)
    ensures
        copy@ == items@,
{
    let mut copy: Vec<T> = Vec::new();
    let mut i: usize = 0;
    while i < items.len()
        invariant
            i <= items@.len(),
            copy@ == items@.take(i as int),
        decreases items@.len() - i,
    {
        copy.push(items[i]);
        proof {
            assert(copy@ =~= items@.take(i + 1));
        }
        i += 1;
    }
    proof {
        assert(items@.take(i as int) =~= items@);
    }
    copy
}

impl Clone for Tag {
    /// A copy that stands for the same tree.
    fn clone(&self) -> (copy: Tag)
        ensures
            copy.deep_view() == self.deep_view(),
        decreases self,
    {
        match self {
            Tag::Byte(v) => Tag::Byte(*v),
            Tag::Short(v) => Tag::Short(*v),
            Tag::Int(v) => Tag::Int(*v),
            Tag::Long(v) => Tag::Long(*v),
            Tag::Float(bits) => Tag::Float(*bits),
            Tag::Double(bits) => Tag::Double(*bits),
            Tag::String(text) => Tag::String(text.clone()),
            Tag::ByteArray(items) => Tag::ByteArray(copy_items(items)),
            Tag::IntArray(items) => Tag::IntArray(copy_items(items)),
            Tag::LongArray(items) => Tag::LongArray(copy_items(items)),
            Tag::List(items) => {
                let mut copies: Vec<Tag> = Vec::new();
                let mut i: usize = 0;
                while i < items.len()
                    invariant
                        i <= items@.len(),
                        copies@.len() == i,
                        *self == Tag::List(*items),
                        forall|j: int|
                            0 <= j < i ==> (#[trigger] copies@[j]).deep_view()
                                == items@[j].deep_view(),
                    decreases items@.len() - i,
                {
                    assert(decreases_to!(*self => self->List_0[i as int]));
                    let copy = items[i].clone();
                    copies.push(copy);
                    i += 1;
                }
                proof {
                    lemma_list_items(*items);
                    lemma_list_items(copies);
                    assert(copies.deep_view() =~= items.deep_view());
                }
                Tag::List(copies)
            },
            Tag::Compound(entries) => {
                let mut copies: Vec<(String, Tag)> = Vec::new();
                let mut i: usize = 0;
                while i < entries.len()
                    invariant
                        i <= entries@.len(),
                        copies@.len() == i,
                        *self == Tag::Compound(*entries),
                        forall|j: int|
                            0 <= j < i ==> {
                                &&& (#[trigger] copies@[j]).0@ == entries@[j].0@
                                &&& copies@[j].1.deep_view() == entries@[j].1.deep_view()
                            },
                    decreases entries@.len() - i,
                {
                    let name: String = entries[i].0.clone();
                    assert(decreases_to!(*self => self->Compound_0[i as int].1));
                    let copy = entries[i].1.clone();
                    copies.push((name, copy));
                    i += 1;
                }
                proof {
                    let made = Tag::Compound(copies).deep_view()->Compound_0;
                    let held = self.deep_view()->Compound_0;
                    assert forall|key: Seq<char>| made.contains_key(key) == held.contains_key(
                        key,
                    ) by {
                        if holds_key(entries@, key) {
                            let at = choose|at: int|
                                0 <= at < entries@.len() && (#[trigger] entries@[at]).0@ == key;
                            assert(copies@[at].0@ == key);
                        }
                        if holds_key(copies@, key) {
                            let at = choose|at: int|
                                0 <= at < copies@.len() && (#[trigger] copies@[at]).0@ == key;
                            assert(entries@[at].0@ == key);
                        }
                    }
                    assert forall|key: Seq<char>| made.contains_key(key) implies made[key]
                        == held[key] by {
                        lemma_held_key_has_position(copies@, key);
                        let at = position(copies@, key);
                        assert(copies@[at].0@ == entries@[at].0@);
                        assert forall|j: int| 0 <= j < at implies (#[trigger] entries@[j]).0@
                            != key by {
                            assert(copies@[j].0@ == entries@[j].0@);
                        }
                        lemma_first_is_position(entries@, key, at);
                    }
                    assert(made =~= held);
                }
                Tag::Compound(copies)
            },
        }
    }
}

impl TagModel {
    /// The value of `key` in a compound; `None` for another kind of tag or a
    /// missing key.
    pub open spec fn field(self, key: Seq<char>) -> Option<TagModel> {
        match self {
            TagModel::Compound(fields) => if fields.contains_key(key) {
                Some(fields[key])
            } else {
                None
            },
            _ => None,
        }
    }
}

/// The fields of a compound, read off its entries: a name is a field where an
/// entry carries it, and its value is that of the first such entry.
pub proof fn lemma_compound_fields(entries: Vec<(String, Tag)>, key: Seq<char>)
    ensures
        Tag::Compound(entries).deep_view() is Compound,
        Tag::Compound(entries).deep_view()->Compound_0.contains_key(key) == holds_key(
            entries@,
            key,
        ),
        forall|i: int|
            first_at(entries@, key, i) ==> Tag::Compound(entries).deep_view()->Compound_0[key]
                == (#[trigger] entries@[i]).1.deep_view(),
{
    assert forall|i: int| first_at(entries@, key, i) implies Tag::Compound(
        entries,
    ).deep_view()->Compound_0[key] == (#[trigger] entries@[i]).1.deep_view() by {
        lemma_first_is_position(entries@, key, i);
    }
}

/// The items of a list, in order.
pub proof fn lemma_list_items(items: Vec<Tag>)
    ensures
        Tag::List(items).deep_view() is List,
        Tag::List(items).deep_view()->List_0 == items.deep_view(),
{
    assert(Tag::List(items).deep_view()->List_0 =~= items.deep_view());
}

impl Tag {
    /// The value of `key` in a compound; `None` for another kind of tag or a
    /// missing key.
    pub fn get(&self, key: &str) -> (value: Option<&Tag>)
        ensures
            self.deep_view().field(key@) == match value {
                Some(tag) => Some(tag.deep_view()),
                None => None,
            },
    {
        match self {
            Tag::Compound(entries) => match find(entries, key) {
                Some(i) => {
                    proof {
                        lemma_first_is_position(entries@, key@, i as int);
                    }
                    Some(&entries[i].1)
                },
                None => None,
            },
            _ => None,
        }
    }
}

} // verus!
