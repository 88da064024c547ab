//! Assembling a character draw's response: the duplicate material a draw
//! books, the character records merged by id, and the encyclopedia entries
//! that a newly joined character opens.
use vstd::prelude::*;

use crate::counts::{contains_text, Counts};
use crate::gacha::exchange::{encyclopedia_key, spec_encyclopedia_key};
use crate::text::{decimal, decimal_string};

verus! {

/// The material that a character already owned turns into: its item id,
/// how many this draw gave, and the new balance of that item.
#[derive(Clone, Copy, Debug, PartialEq, Eq)]
pub struct DuplicateCharacterItem {
    pub id: i64,
    pub count: i64,
    pub total: i64,
}

/// The fields of a record, in the order they were written; a later field
/// of the same name replaces an earlier one.
pub open spec fn fields_map<V>(s: Seq<(String, V)>) -> Map<Seq<char>, V>
    decreases s.len(),
{
    if s.len() == 0 {
        Map::empty()
    } else {
        fields_map(s.drop_last()).insert(s.last().0@, s.last().1)
    }
}

/// Writing the fields of `b` after those of `a` gives the fields of `a`,
/// each replaced by the field of `b` with its name where there is one.
pub proof fn lemma_fields_concat<V>(a: Seq<(String, V)>, b: Seq<(String, V)>)
    ensures
        fields_map(a + b) == fields_map(a).union_prefer_right(fields_map(b)),
    decreases b.len(),
{
    if b.len() == 0 {
        assert(a + b =~= a);
        assert(fields_map(a).union_prefer_right(fields_map(b)) =~= fields_map(a));
    } else {
        lemma_fields_concat(a, b.drop_last());
        assert((a + b).drop_last() =~= a + b.drop_last());
        assert(fields_map(a + b) =~= fields_map(a).union_prefer_right(fields_map(b)));
    }
}

/// The position of the record of `id` among `records`, if there is one.
pub open spec fn record_index<V>(records: Seq<(i64, V)>, id: i64) -> Option<int> {
    if exists|i: int| 0 <= i < records.len() && records[i].0 == id {
        Some(choose|i: int| 0 <= i < records.len() && records[i].0 == id)
    } else {
        None
    }
}

/// No two records share an id.
pub open spec fn ids_distinct<V>(records: Seq<(i64, V)>) -> bool {
    forall|i: int, j: int|
        0 <= i < records.len() && 0 <= j < records.len() && i != j ==> records[i].0 != records[j].0
}

/// The records after merging `character` into the record of `id`: its
/// fields are written over the record's, or it becomes a new record at the
/// end.
pub open spec fn spec_merge_character<V>(
    records: Seq<(i64, Seq<(String, V)>)>,
    id: i64,
    character: Seq<(String, V)>,
) -> Seq<(i64, Seq<(String, V)>)> {
    match record_index(records, id) {
        Some(i) => records.update(i, (id, records[i].1 + character)),
        None => records.push((id, character)),
    }
}

/// The view of a list of character records: their fields, as sequences.
pub open spec fn records_view<V>(records: Seq<(i64, Vec<(String, V)>)>) -> Seq<(i64, Seq<(String, V)>)> {
    records.map_values(|r: (i64, Vec<(String, V)>)| (r.0, r.1@))
}

/// Merges the response of a drawn character into the records of this
/// draw: a character drawn twice keeps its first record, with the fields of
/// the later response written over it.
pub fn merge_character_response<V>(
    characters_by_id: &mut Vec<(i64, Vec<(String, V)>)>,
    character_id: i64,
    character: Vec<(String, V)>,
)
    requires
        ids_distinct(old(characters_by_id)@),
    ensures
        records_view(final(characters_by_id)@) == spec_merge_character(
            records_view(old(characters_by_id)@),
            character_id,
            character@,
        ),
        ids_distinct(final(characters_by_id)@),
{
    let ghost before = records_view(characters_by_id@);
    let ghost added = character@;
    let mut i: usize = 0;
    while i < characters_by_id.len()
        invariant
            i <= characters_by_id@.len(),
            characters_by_id@ == old(characters_by_id)@,
            before == records_view(old(characters_by_id)@),
            character@ == added,
            ids_distinct(old(characters_by_id)@),
            forall|j: int| 0 <= j < i ==> characters_by_id@[j].0 != character_id,
        decreases characters_by_id@.len() - i,
    {
        if characters_by_id[i].0 == character_id {
            let mut record = characters_by_id.remove(i);
            append_fields(&mut record.1, character);
            characters_by_id.insert(i, record);
            proof {
                let s = old(characters_by_id)@;
                assert(before[i as int].0 == character_id);
                let k = choose|k: int| 0 <= k < before.len() && before[k].0 == character_id;
                assert(s[k].0 == before[k].0);
                assert(k == i);
                assert(record_index(before, character_id) == Some(i as int));
                assert(records_view(characters_by_id@) =~= before.update(
                    i as int,
                    (character_id, before[i as int].1 + added),
                ));
                assert(spec_merge_character(before, character_id, added) == before.update(
                    i as int,
                    (character_id, before[i as int].1 + added),
                ));
            }
            return;
        }
        i = i + 1;
    }
    characters_by_id.push((character_id, character));
    proof {
        assert forall|j: int| 0 <= j < before.len() implies before[j].0 != character_id by {
            assert(old(characters_by_id)@[j].0 != character_id);
        };
        assert(record_index(before, character_id) == None::<int>);
        assert(records_view(characters_by_id@) =~= before.push((character_id, added)));
    }
}

/// Writes the fields of `other` after those of `fields`.
fn append_fields<V>(fields: &mut Vec<(String, V)>, other: Vec<(String, V)>)
    ensures
        final(fields)@ == old(fields)@ + other@,
{
    let mut other = other;
    fields.append(&mut other);
}

/// Books the material of a duplicate character: the draw shows the item and
/// how many it gave (the result), and the response's item list gets the
/// item's new balance under its id. A character drawn for the first time
/// books nothing.
pub fn apply_duplicate_item_to_draw(
    item_list: &mut Counts,
    duplicate_item: Option<DuplicateCharacterItem>,
) -> (r: Option<(i64, i64)>)
    ensures
        match duplicate_item {
            None => r == None::<(i64, i64)> && final(item_list).view() == old(item_list).view(),
            Some(item) => r == Some((item.id, item.count)) && final(item_list).view() == old(
                item_list,
            ).view().insert(decimal(item.id as int), item.total),
        },
{
    match duplicate_item {
        None => None,
        Some(item) => {
            item_list.insert(decimal_string(item.id), item.total);
            Some((item.id, item.count))
        },
    }
}

/// Opens the encyclopedia entry of a character that has just joined; true
/// when the entry is new, false when it was already stored.
pub fn record_character_encyclopedia_state(stored: &mut Vec<String>, character_id: i64) -> (r: bool)
    ensures
        r == !(exists|i: int|
            0 <= i < old(stored)@.len() && old(stored)@[i]@ == spec_encyclopedia_key(character_id)),
        r ==> final(stored)@.len() == old(stored)@.len() + 1 && final(stored)@.drop_last() == old(
            stored,
        )@ && final(stored)@.last()@ == spec_encyclopedia_key(character_id),
        !r ==> final(stored)@ == old(stored)@,
{
    let key = encyclopedia_key(character_id);
    if contains_text(stored, key.as_str()) {
        false
    } else {
        let ghost before = stored@;
        stored.push(key);
        assert(stored@.drop_last() =~= before);
        true
    }
}

/// What the character draws of one request have built so far: the records
/// of the drawn characters by id, the item balances to report, and the
/// encyclopedia entries opened.
pub struct CharacterDrawAssembly<V> {
    pub characters_by_id: Vec<(i64, Vec<(String, V)>)>,
    pub item_list: Counts,
    pub encyclopedia_info: Vec<String>,
}

impl<V> CharacterDrawAssembly<V> {
    /// The draw records are well formed: one record per character.
    pub open spec fn wf(&self) -> bool {
        ids_distinct(self.characters_by_id@)
    }
}

/// Adds one drawn character to the assembly: a newly joined character opens
/// its encyclopedia entry (reported only where the stored list did not have
/// it yet), a duplicate books its material, and the character's record is
/// merged by id. The result is the material the draw shows, if any.
pub fn add_character_draw<V>(
    assembly: &mut CharacterDrawAssembly<V>,
    stored_encyclopedia: &mut Vec<String>,
    character_id: i64,
    joined: bool,
    duplicate_item: Option<DuplicateCharacterItem>,
    character: Vec<(String, V)>,
) -> (r: Option<(i64, i64)>)
    requires
        old(assembly).wf(),
    ensures
        final(assembly).wf(),
        records_view(final(assembly).characters_by_id@) == spec_merge_character(
            records_view(old(assembly).characters_by_id@),
            character_id,
            character@,
        ),
        match duplicate_item {
            None => r == None::<(i64, i64)> && final(assembly).item_list.view() == old(
                assembly,
            ).item_list.view(),
            Some(item) => r == Some((item.id, item.count)) && final(assembly).item_list.view()
                == old(assembly).item_list.view().insert(decimal(item.id as int), item.total),
        },
        ({
            let opened = joined && !(exists|i: int|
                0 <= i < old(stored_encyclopedia)@.len() && old(stored_encyclopedia)@[i]@
                    == spec_encyclopedia_key(character_id));
            &&& opened ==> final(stored_encyclopedia)@.drop_last() == old(stored_encyclopedia)@
                && final(stored_encyclopedia)@.len() == old(stored_encyclopedia)@.len() + 1
                && final(stored_encyclopedia)@.last()@ == spec_encyclopedia_key(character_id)
                && final(assembly).encyclopedia_info@.len() == old(assembly).encyclopedia_info@.len() + 1
                && final(assembly).encyclopedia_info@.drop_last() == old(assembly).encyclopedia_info@
                && final(assembly).encyclopedia_info@.last()@ == spec_encyclopedia_key(character_id)
            &&& !opened ==> final(stored_encyclopedia)@ == old(stored_encyclopedia)@
                && final(assembly).encyclopedia_info@ == old(assembly).encyclopedia_info@
        }),
{
    if joined {
        if record_character_encyclopedia_state(stored_encyclopedia, character_id) {
            let ghost before = assembly.encyclopedia_info@;
            assembly.encyclopedia_info.push(encyclopedia_key(character_id));
            assert(assembly.encyclopedia_info@.drop_last() =~= before);
        }
    }
    let shown = apply_duplicate_item_to_draw(&mut assembly.item_list, duplicate_item);
    merge_character_response(&mut assembly.characters_by_id, character_id, character);
    shown
}

} // verus!
