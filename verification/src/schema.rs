//! The two places where the decoder reads inside a tagged value: the paletted
//! block states of a section, and the list of tile entities of a chunk.
//!
//! Each shape is stated over the tree that the tag stands for, as a function
//! that gives the value read or `None` where the tree has another shape; the
//! executable reader is proved to agree with it.

use crate::entries::{
    find, first_at, holds_key, lemma_first_is_position, lemma_held_key_has_position,
    lemma_push_entry, position,
};
use crate::palette::{text_map, BlockState, BlockStateModel, ContainerModel, PalettedContainer};
use crate::tag::{copy_items, lemma_compound_fields, lemma_list_items, Tag, TagModel};
use vstd::prelude::*;

verus! {

/// The number of positions in the block storage of one section: a cube of
/// sixteen blocks a side.
pub const SECTION_BLOCKS: usize = 4096;

/// The fields of a compound all of whose values are strings, as a map from
/// names to those strings; `None` for any other tree.
pub open spec fn strings_of(model: TagModel) -> Option<Map<Seq<char>, Seq<char>>> {
    match model {
        TagModel::Compound(fields) => if forall|key: Seq<char>|
            fields.contains_key(key) ==> #[trigger] fields[key] is String {
            Some(
                Map::new(
                    |key: Seq<char>| fields.contains_key(key),
                    |key: Seq<char>| fields[key]->String_0,
                ),
            )
        } else {
            None
        },
        _ => None,
    }
}

/// A block state: a compound with a string `Name` and, optionally, a compound
/// `Properties` of strings. Other fields are passed over.
pub open spec fn block_state_of(model: TagModel) -> Option<BlockStateModel> {
    match model.field("Name"@) {
        Some(TagModel::String(name)) => match model.field("Properties"@) {
            None => Some(BlockStateModel { name, properties: Map::empty() }),
            Some(fields) => match strings_of(fields) {
                Some(properties) => Some(BlockStateModel { name, properties }),
                None => None,
            },
        },
        _ => None,
    }
}

/// The block states of every item of a list, if each item is one.
pub open spec fn palette_of(items: Seq<TagModel>) -> Option<Seq<BlockStateModel>> {
    if forall|i: int| 0 <= i < items.len() ==> (#[trigger] block_state_of(items[i])) is Some {
        Some(Seq::new(items.len(), |i: int| block_state_of(items[i])->Some_0))
    } else {
        None
    }
}

/// Paletted block states: a compound with a list `palette` of block states
/// and, optionally, a long array `data`. Other fields are passed over.
pub open spec fn block_states_of(model: TagModel) -> Option<ContainerModel<BlockStateModel>> {
    match model.field("palette"@) {
        Some(TagModel::List(items)) => match palette_of(items) {
            Some(palette) => match model.field("data"@) {
                None => Some(ContainerModel { palette, data: None }),
                Some(TagModel::LongArray(words)) => Some(
                    ContainerModel { palette, data: Some(words) },
                ),
                Some(_) => None,
            },
            None => None,
        },
        _ => None,
    }
}

/// Tile entities: a compound whose field `tileEntities` is a list; the items
/// of that list.
pub open spec fn tile_entities_of(model: TagModel) -> Option<Seq<TagModel>> {
    match model.field("tileEntities"@) {
        Some(TagModel::List(items)) => Some(items),
        _ => None,
    }
}

/// Whether `properties` holds, for every key that the entries seen so far
/// hold, the string of the first entry with that key, and nothing else.
spec fn tracks(properties: Seq<(String, String)>, seen: Seq<(String, Tag)>) -> bool {
    forall|key: Seq<char>|
        #![trigger holds_key(seen, key)]
        {
            &&& holds_key(properties, key) == holds_key(seen, key)
            &&& holds_key(seen, key) ==> seen[position(seen, key)].1.deep_view()
                == TagModel::String(properties[position(properties, key)].1@)
        }
}

proof fn lemma_tracks_push(
    properties: Seq<(String, String)>,
    seen: Seq<(String, Tag)>,
    property: (String, String),
    entry: (String, Tag),
)
    requires
        tracks(properties, seen),
        property.0@ == entry.0@,
        entry.1.deep_view() == TagModel::String(property.1@),
    ensures
        tracks(properties.push(property), seen.push(entry)),
{
    let longer = seen.push(entry);
    let grown = properties.push(property);
    assert forall|key: Seq<char>| #![trigger holds_key(longer, key)] holds_key(grown, key)
        == holds_key(longer, key) && (holds_key(longer, key) ==> longer[position(
        longer,
        key,
    )].1.deep_view() == TagModel::String(grown[position(grown, key)].1@)) by {
        lemma_push_entry(seen, entry, key);
        lemma_push_entry(properties, property, key);
        assert(holds_key(properties, key) == holds_key(seen, key));
        if holds_key(seen, key) {
            lemma_held_key_has_position(seen, key);
            lemma_held_key_has_position(properties, key);
        }
    }
}

proof fn lemma_tracks_skip(
    properties: Seq<(String, String)>,
    seen: Seq<(String, Tag)>,
    entry: (String, Tag),
)
    requires
        tracks(properties, seen),
        holds_key(seen, entry.0@),
    ensures
        tracks(properties, seen.push(entry)),
{
    let longer = seen.push(entry);
    assert forall|key: Seq<char>| #![trigger holds_key(longer, key)] holds_key(properties, key)
        == holds_key(longer, key) && (holds_key(longer, key) ==> longer[position(
        longer,
        key,
    )].1.deep_view() == TagModel::String(properties[position(properties, key)].1@)) by {
        lemma_push_entry(seen, entry, key);
        assert(holds_key(properties, key) == holds_key(seen, key));
        if holds_key(seen, key) {
            lemma_held_key_has_position(seen, key);
        }
    }
}

proof fn lemma_tracks_all(properties: Seq<(String, String)>, entries: Vec<(String, Tag)>)
    requires
        tracks(properties, entries@),
    ensures
        strings_of(Tag::Compound(entries).deep_view()) == Some(text_map(properties)),
{
    let fields = Tag::Compound(entries).deep_view()->Compound_0;
    assert forall|key: Seq<char>| fields.contains_key(key) == holds_key(entries@, key) && (
    fields.contains_key(key) ==> (#[trigger] fields[key]) == TagModel::String(
        properties[position(properties, key)].1@,
    )) by {
        lemma_compound_fields(entries, key);
        assert(holds_key(properties, key) == holds_key(entries@, key));
        if holds_key(entries@, key) {
            lemma_held_key_has_position(entries@, key);
        }
    }
    assert forall|key: Seq<char>| text_map(properties).contains_key(key) == fields.contains_key(
        key,
    ) by {
        assert(holds_key(properties, key) == holds_key(entries@, key));
    }
    assert(strings_of(Tag::Compound(entries).deep_view())->Some_0 =~= text_map(properties));
}

proof fn lemma_first_is_no_string(entries: Vec<(String, Tag)>, at: int)
    requires
        first_at(entries@, entries@[at].0@, at),
        !(entries@[at].1.deep_view() is String),
    ensures
        strings_of(Tag::Compound(entries).deep_view()) is None,
{
    let key = entries@[at].0@;
    lemma_compound_fields(entries, key);
    lemma_first_is_position(entries@, key, at);
    let fields = Tag::Compound(entries).deep_view()->Compound_0;
    assert(fields.contains_key(key) && !(fields[key] is String));
}

/// Reads a compound of strings as a list of named strings.
pub fn properties_from(tag: &Tag) -> (r: Option<Vec<(String, String)>>)
    ensures
        match r {
            Some(properties) => strings_of(tag.deep_view()) == Some(text_map(properties@)),
            None => strings_of(tag.deep_view()) is None,
        },
{
    match tag {
        Tag::Compound(entries) => {
            let mut properties: Vec<(String, String)> = Vec::new();
            let mut i: usize = 0;
            proof {
                assert(entries@.take(0) =~= Seq::empty());
            }
            while i < entries.len()
                invariant
                    i <= entries@.len(),
                    *tag == Tag::Compound(*entries),
                    tracks(properties@, entries@.take(i as int)),
                decreases entries@.len() - i,
            {
                proof {
                    assert(entries@.take(i + 1) =~= entries@.take(i as int).push(entries@[i as int]));
                }
                match &entries[i].1 {
                    Tag::String(text) => {
                        let name: String = entries[i].0.clone();
                        let value: String = text.clone();
                        proof {
                            lemma_tracks_push(
                                properties@,
                                entries@.take(i as int),
                                (name, value),
                                entries@[i as int],
                            );
                        }
                        properties.push((name, value));
                    },
                    _ => {
                        // An entry that is no string counts only where no
                        // earlier entry carries its name.
                        match find(entries, entries[i].0.as_str()) {
                            Some(first) => {
                                if first >= i {
                                    proof {
                                        lemma_first_is_no_string(*entries, i as int);
                                    }
                                    return None;
                                }
                                proof {
                                    assert(entries@.take(i as int)[first as int]
                                        == entries@[first as int]);
                                    lemma_tracks_skip(
                                        properties@,
                                        entries@.take(i as int),
                                        entries@[i as int],
                                    );
                                }
                            },
                            None => {
                                proof {
                                    assert(entries@[i as int].0@ == entries@[i as int].0@);
                                    lemma_first_is_no_string(*entries, i as int);
                                }
                                return None;
                            },
                        }
                    },
                }
                i += 1;
            }
            proof {
                assert(entries@.take(i as int) =~= entries@);
                lemma_tracks_all(properties@, *entries);
            }
            Some(properties)
        },
        _ => None,
    }
}

/// Reads one block state.
pub fn block_state_from(tag: &Tag) -> (r: Option<BlockState>)
    ensures
        match r {
            Some(state) => block_state_of(tag.deep_view()) == Some(state.deep_view()),
            None => block_state_of(tag.deep_view()) is None,
        },
{
    let name: String = match tag.get("Name") {
        Some(Tag::String(text)) => text.clone(),
        _ => {
            return None;
        },
    };
    let properties: Vec<(String, String)> = match tag.get("Properties") {
        Some(fields) => match properties_from(fields) {
            Some(properties) => properties,
            None => {
                return None;
            },
        },
        None => {
            let none: Vec<(String, String)> = Vec::new();
            proof {
                assert(text_map(none@) =~= Map::empty());
            }
            none
        },
    };
    Some(BlockState { name, properties })
}

/// Reads the block states of a palette, one per item.
pub fn palette_from(items: &Vec<Tag>) -> (r: Option<Vec<BlockState>>)
    ensures
        match r {
            Some(palette) => palette_of(items.deep_view()) == Some(palette.deep_view()),
            None => palette_of(items.deep_view()) is None,
        },
{
    let mut palette: Vec<BlockState> = Vec::new();
    let mut i: usize = 0;
    while i < items.len()
        invariant
            i <= items@.len(),
            palette@.len() == i,
            forall|j: int|
                0 <= j < i ==> block_state_of(items@[j].deep_view()) == Some(
                    (#[trigger] palette@[j]).deep_view(),
                ),
        decreases items@.len() - i,
    {
        match block_state_from(&items[i]) {
            Some(state) => {
                palette.push(state);
            },
            None => {
                proof {
                    assert(items.deep_view()[i as int] == items@[i as int].deep_view());
                }
                return None;
            },
        }
        i += 1;
    }
    proof {
        let models = items.deep_view();
        assert forall|j: int| 0 <= j < models.len() implies (#[trigger] block_state_of(
            models[j],
        )) is Some by {
            assert(models[j] == items@[j].deep_view());
            assert(block_state_of(items@[j].deep_view()) == Some(palette@[j].deep_view()));
        }
        assert(palette_of(models)->Some_0 =~= palette.deep_view());
    }
    Some(palette)
}

/// Reads the paletted block states of a section.
pub fn block_states_from(tag: &Tag) -> (r: Option<PalettedContainer<SECTION_BLOCKS, BlockState>>)
    ensures
        match r {
            Some(container) => block_states_of(tag.deep_view()) == Some(container.deep_view()),
            None => block_states_of(tag.deep_view()) is None,
        },
{
    let palette: Vec<BlockState> = match tag.get("palette") {
        Some(Tag::List(items)) => {
            proof {
                lemma_list_items(*items);
            }
            match palette_from(items) {
                Some(palette) => palette,
                None => {
                    return None;
                },
            }
        },
        _ => {
            return None;
        },
    };
    let data: Option<Vec<i64>> = match tag.get("data") {
        None => None,
        Some(Tag::LongArray(words)) => Some(copy_items(words)),
        Some(_) => {
            return None;
        },
    };
    Some(PalettedContainer { palette, data })
}

/// The tile entities of a chunk, as their tag lists them.
#[derive(Debug, Clone)]
pub struct TileEntities {
    pub tile_entities: Vec<Tag>,
}

impl DeepView for TileEntities {
    type V = Seq<TagModel>;

    open spec fn deep_view(&self) -> Seq<TagModel> {
        self.tile_entities.deep_view()
    }
}

/// Takes the list of tile entities out of its compound.
pub fn tile_entities_from(tag: Tag) -> (r: Option<TileEntities>)
    ensures
        match r {
            Some(tiles) => tile_entities_of(tag.deep_view()) == Some(tiles.deep_view()),
            None => tile_entities_of(tag.deep_view()) is None,
        },
{
    match tag {
        Tag::Compound(mut entries) => {
            let ghost all = entries;
            match find(&entries, "tileEntities") {
                Some(i) => {
                    proof {
                        lemma_compound_fields(all, "tileEntities"@);
                    }
                    let entry: (String, Tag) = entries.swap_remove(i);
                    match entry.1 {
                        Tag::List(items) => {
                            proof {
                                lemma_list_items(items);
                            }
                            Some(TileEntities { tile_entities: items })
                        },
                        _ => None,
                    }
                },
                None => {
                    proof {
                        lemma_compound_fields(all, "tileEntities"@);
                    }
                    None
                },
            }
        },
        _ => None,
    }
}

} // verus!
