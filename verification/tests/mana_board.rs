use starpoint_service::mana::board::{
    mana_node_board_location, LayoutBoard, LayoutRow, node_awake_level, project_mana_nodes, visible_mana_node_ids, CatalogBoard, StoredManaNode,
};

fn board(index: &str, nodes: &[&str]) -> CatalogBoard {
    CatalogBoard { index: index.to_string(), node_ids: nodes.iter().map(|n| n.to_string()).collect() }
}

fn node(id: i64, level: i64) -> StoredManaNode {
    StoredManaNode { node_id: Some(id), awake_level: level }
}

#[test]
fn only_boards_up_to_the_visible_one_show_their_nodes() {
    let boards = vec![board("1", &["101", "102"]), board("2", &["201"]), board("3", &["x"])];
    assert_eq!(visible_mana_node_ids(&boards, 1).unwrap(), vec![101, 102]);
    assert_eq!(visible_mana_node_ids(&boards, 2).unwrap(), vec![101, 102, 201]);
    let err = visible_mana_node_ids(&boards, 3).unwrap_err();
    assert_eq!(err.message, "CN Mana node id is invalid");
    let bad_index = vec![board("1", &["101"]), board("two", &[])];
    let err = visible_mana_node_ids(&bad_index, 1).unwrap_err();
    assert_eq!(err.message, "CN Mana board index is invalid");
}

#[test]
fn a_node_shows_its_highest_awakening_level() {
    let stored = vec![node(101, 1), node(102, 0), node(101, 3), node(101, 2)];
    assert_eq!(node_awake_level(&stored, 101), Some(3));
    assert_eq!(node_awake_level(&stored, 103), None);
}

#[test]
fn the_load_answer_shows_each_visible_node_once() {
    let stored = vec![node(101, 1), node(201, 0), node(101, 3), node(102, 0)];
    let shown = project_mana_nodes(&stored, &vec![101, 102]).unwrap();
    assert_eq!(shown, vec![(101, 3), (102, 0)]);
    let broken = vec![node(101, 1), StoredManaNode { node_id: None, awake_level: 0 }];
    let err = project_mana_nodes(&broken, &vec![101]).unwrap_err();
    assert_eq!(err.message, "stored CN Mana node id is invalid");
}

fn row(node_id: i64, pedestal: Option<i64>) -> LayoutRow {
    LayoutRow { node_id: Some(node_id), pedestal_size: pedestal }
}

#[test]
fn a_node_is_found_on_the_first_board_that_places_it() {
    let boards = vec![
        LayoutBoard { index: "1".to_string(), rows: Some(vec![row(101, Some(2)), row(102, Some(3))]) },
        LayoutBoard { index: "2".to_string(), rows: Some(vec![row(201, None), row(102, Some(9))]) },
    ];
    assert_eq!(mana_node_board_location(&boards, 102).unwrap(), Some((1, 3)));
    assert_eq!(mana_node_board_location(&boards, 999).unwrap(), None);
    let err = mana_node_board_location(&boards, 201).unwrap_err();
    assert_eq!(err.message, "CN Mana node pedestal size is missing");
    let broken = vec![LayoutBoard { index: "1".to_string(), rows: None }];
    assert_eq!(mana_node_board_location(&broken, 1).unwrap_err().message, "CN Mana board is invalid");
    let unnamed = vec![LayoutBoard { index: "b".to_string(), rows: Some(vec![]) }];
    assert_eq!(mana_node_board_location(&unnamed, 1).unwrap_err().message, "CN Mana board index is invalid");
}
