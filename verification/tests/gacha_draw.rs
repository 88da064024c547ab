use serde_json::Value;
use starpoint_service::counts::Counts;
use starpoint_service::gacha::draw::{
    add_character_draw, apply_duplicate_item_to_draw, merge_character_response,
    record_character_encyclopedia_state, CharacterDrawAssembly, DuplicateCharacterItem,
};

fn fields(pairs: Vec<(&str, Value)>) -> Vec<(String, Value)> {
    pairs.into_iter().map(|(k, v)| (k.to_owned(), v)).collect()
}

/// The value a record holds for a field: the last one written.
fn field<'a>(record: &'a [(String, Value)], name: &str) -> Option<&'a Value> {
    record.iter().rev().find(|(k, _)| k == name).map(|(_, v)| v)
}

fn record<'a>(
    characters: &'a [(i64, Vec<(String, Value)>)],
    id: i64,
) -> &'a [(String, Value)] {
    &characters.iter().find(|(k, _)| *k == id).unwrap().1
}

#[test]
fn adds_duplicate_character_item_to_gacha_draw() {
    let duplicate = DuplicateCharacterItem { id: 14_003, count: 1, total: 1 };
    let mut item_list = Counts::new();

    let shown = apply_duplicate_item_to_draw(&mut item_list, Some(duplicate));

    assert_eq!(shown, Some((14_003, 1)));
    assert_eq!(item_list.get("14003"), Some(1));
}

#[test]
fn merges_partial_duplicate_character_response() {
    let mut characters = vec![(
        111_001_i64,
        fields(vec![
            ("character_id", Value::from(111_001_i64)),
            ("entry_count", Value::from(1_i64)),
            ("exp", Value::from(0_i64)),
            ("bond_token_list", Value::Array(Vec::new())),
            ("mana_board_index", Value::from(1_i64)),
            ("stack", Value::from(0_i64)),
        ]),
    )];

    merge_character_response(
        &mut characters,
        111_001,
        fields(vec![("character_id", Value::from(111_001_i64)), ("stack", Value::from(2_i64))]),
    );

    let merged = record(&characters, 111_001);
    assert_eq!(field(merged, "entry_count"), Some(&Value::from(1_i64)));
    assert_eq!(field(merged, "mana_board_index"), Some(&Value::from(1_i64)));
    assert_eq!(field(merged, "stack"), Some(&Value::from(2_i64)));
}

#[test]
fn first_draw_of_a_character_books_no_material() {
    let mut item_list = Counts::new();
    item_list.insert("14003".to_owned(), 7);
    assert_eq!(apply_duplicate_item_to_draw(&mut item_list, None), None);
    assert_eq!(item_list.get("14003"), Some(7));
    assert_eq!(item_list.entries.len(), 1);
}

#[test]
fn later_duplicate_reports_the_newest_balance() {
    let mut item_list = Counts::new();
    apply_duplicate_item_to_draw(
        &mut item_list,
        Some(DuplicateCharacterItem { id: 14_003, count: 1, total: 1 }),
    );
    apply_duplicate_item_to_draw(
        &mut item_list,
        Some(DuplicateCharacterItem { id: 14_003, count: 1, total: 2 }),
    );
    assert_eq!(item_list.get("14003"), Some(2));
}

#[test]
fn distinct_characters_keep_separate_records_in_draw_order() {
    let mut characters: Vec<(i64, Vec<(String, Value)>)> = Vec::new();
    merge_character_response(&mut characters, 2, fields(vec![("stack", Value::from(0_i64))]));
    merge_character_response(&mut characters, 1, fields(vec![("stack", Value::from(0_i64))]));
    merge_character_response(&mut characters, 2, fields(vec![("stack", Value::from(1_i64))]));
    let ids: Vec<i64> = characters.iter().map(|(id, _)| *id).collect();
    assert_eq!(ids, vec![2, 1]);
    assert_eq!(field(record(&characters, 2), "stack"), Some(&Value::from(1_i64)));
    assert_eq!(field(record(&characters, 1), "stack"), Some(&Value::from(0_i64)));
}

#[test]
fn encyclopedia_entry_opens_once() {
    let mut stored = vec!["111100101".to_owned()];
    assert!(record_character_encyclopedia_state(&mut stored, 111_002));
    assert_eq!(stored.last().map(String::as_str), Some("111100201"));
    assert!(!record_character_encyclopedia_state(&mut stored, 111_002));
    assert!(!record_character_encyclopedia_state(&mut stored, 111_001));
    assert_eq!(stored.len(), 2);
}

#[test]
fn draw_assembly_reports_new_entries_materials_and_merged_records() {
    let mut assembly: CharacterDrawAssembly<Value> = CharacterDrawAssembly {
        characters_by_id: Vec::new(),
        item_list: Counts::new(),
        encyclopedia_info: Vec::new(),
    };
    let mut stored: Vec<String> = Vec::new();

    let first = add_character_draw(
        &mut assembly,
        &mut stored,
        111_001,
        true,
        None,
        fields(vec![("entry_count", Value::from(1_i64)), ("stack", Value::from(0_i64))]),
    );
    let second = add_character_draw(
        &mut assembly,
        &mut stored,
        111_001,
        false,
        Some(DuplicateCharacterItem { id: 14_003, count: 1, total: 1 }),
        fields(vec![("stack", Value::from(1_i64))]),
    );

    assert_eq!(first, None);
    assert_eq!(second, Some((14_003, 1)));
    assert_eq!(assembly.encyclopedia_info, vec!["111100101".to_owned()]);
    assert_eq!(stored, vec!["111100101".to_owned()]);
    assert_eq!(assembly.item_list.get("14003"), Some(1));
    assert_eq!(assembly.characters_by_id.len(), 1);
    let merged = record(&assembly.characters_by_id, 111_001);
    assert_eq!(field(merged, "entry_count"), Some(&Value::from(1_i64)));
    assert_eq!(field(merged, "stack"), Some(&Value::from(1_i64)));
}
