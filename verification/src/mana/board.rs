//! What a load answer shows of the mana boards: the nodes of the boards a
//! character can see, each once, with its awakening level.
use vstd::prelude::*;

use crate::error::ServiceError;
use crate::text::{parse_i64, spec_parse_i64};

verus! {

/// A board of a character in the node catalog: its index text and the id
/// texts of its nodes.
pub struct CatalogBoard {
    pub index: String,
    pub node_ids: Vec<String>,
}

/// The ids of the nodes on the boards up to `board_index`, board by board
/// in catalog order, or the failure of the first board index or node id
/// that is not an integer (every board index is read; the node ids of
/// boards past `board_index` are not).
pub open spec fn spec_visible_node_ids(boards: Seq<CatalogBoard>, board_index: i64) -> Result<Seq<i64>, Seq<char>>
    decreases boards.len(),
{
    if boards.len() == 0 {
        Ok(seq![])
    } else {
        match spec_visible_node_ids(boards.drop_last(), board_index) {
            Err(message) => Err(message),
            Ok(ids) => {
                let board = boards.last();
                match spec_parse_i64(board.index@) {
                    None => Err("CN Mana board index is invalid"@),
                    Some(index) => if index > board_index {
                        Ok(ids)
                    } else {
                        match parsed_node_ids(board.node_ids@) {
                            Some(nodes) => Ok(ids + nodes),
                            None => Err("CN Mana node id is invalid"@),
                        }
                    },
                }
            },
        }
    }
}

/// The node ids of a board read as integers, `None` where one is not.
pub open spec fn parsed_node_ids(texts: Seq<String>) -> Option<Seq<i64>>
    decreases texts.len(),
{
    if texts.len() == 0 {
        Some(seq![])
    } else {
        match (parsed_node_ids(texts.drop_last()), spec_parse_i64(texts.last()@)) {
            (Some(ids), Some(id)) => Some(ids.push(id)),
            _ => None,
        }
    }
}

/// The node ids of a board read as integers.
fn parse_node_ids(texts: &Vec<String>) -> (r: Option<Vec<i64>>)
    ensures
        match parsed_node_ids(texts@) {
            Some(ids) => r matches Some(v) && v@ == ids,
            None => r is None,
        },
{
    let mut ids: Vec<i64> = Vec::new();
    let mut i: usize = 0;
    assert(texts@.subrange(0, 0) =~= Seq::<String>::empty());
    while i < texts.len()
        invariant
            i <= texts@.len(),
            parsed_node_ids(texts@.subrange(0, i as int)) == Some(ids@),
        decreases texts@.len() - i,
    {
        assert(texts@.subrange(0, i + 1).drop_last() =~= texts@.subrange(0, i as int));
        match parse_i64(texts[i].as_str()) {
            Some(id) => ids.push(id),
            None => {
                proof {
                    lemma_parsed_node_ids_fail(texts@, i as int);
                }
                return None;
            },
        }
        i = i + 1;
    }
    assert(texts@.subrange(0, texts@.len() as int) =~= texts@);
    Some(ids)
}

proof fn lemma_parsed_node_ids_fail(texts: Seq<String>, i: int)
    requires
        0 <= i < texts.len(),
        parsed_node_ids(texts.subrange(0, i + 1)) is None,
    ensures
        parsed_node_ids(texts) is None,
    decreases texts.len() - i,
{
    if i + 1 == texts.len() {
        assert(texts.subrange(0, i + 1) =~= texts);
    } else {
        assert(texts.subrange(0, i + 2).drop_last() =~= texts.subrange(0, i + 1));
        lemma_parsed_node_ids_fail(texts, i + 1);
    }
}

proof fn lemma_visible_fail(boards: Seq<CatalogBoard>, board_index: i64, i: int)
    requires
        0 <= i < boards.len(),
        spec_visible_node_ids(boards.subrange(0, i + 1), board_index) is Err,
    ensures
        spec_visible_node_ids(boards, board_index) == spec_visible_node_ids(
            boards.subrange(0, i + 1),
            board_index,
        ),
    decreases boards.len() - i,
{
    if i + 1 == boards.len() {
        assert(boards.subrange(0, i + 1) =~= boards);
    } else {
        assert(boards.subrange(0, i + 2).drop_last() =~= boards.subrange(0, i + 1));
        lemma_visible_fail(boards, board_index, i + 1);
    }
}

/// The ids of the nodes a character can see on the boards up to
/// `board_index`.
pub fn visible_mana_node_ids(boards: &Vec<CatalogBoard>, board_index: i64) -> (r: Result<Vec<i64>, ServiceError>)
    ensures
        match spec_visible_node_ids(boards@, board_index) {
            Ok(ids) => r matches Ok(v) && v@ == ids,
            Err(message) => r matches Err(e) && e.message@ == message,
        },
{
    let mut ids: Vec<i64> = Vec::new();
    let mut i: usize = 0;
    assert(boards@.subrange(0, 0) =~= Seq::<CatalogBoard>::empty());
    while i < boards.len()
        invariant
            i <= boards@.len(),
            spec_visible_node_ids(boards@.subrange(0, i as int), board_index) == Ok::<
                Seq<i64>,
                Seq<char>,
            >(ids@),
        decreases boards@.len() - i,
    {
        assert(boards@.subrange(0, i + 1).drop_last() =~= boards@.subrange(0, i as int));
        assert(boards@.subrange(0, i + 1).last() == boards@[i as int]);
        let board = &boards[i];
        match parse_i64(board.index.as_str()) {
            None => {
                proof {
                    lemma_visible_fail(boards@, board_index, i as int);
                }
                return Err(ServiceError::new("CN Mana board index is invalid"));
            },
            Some(index) => {
                if index <= board_index {
                    match parse_node_ids(&board.node_ids) {
                        Some(nodes) => {
                            let ghost before = ids@;
                            let mut k: usize = 0;
                            while k < nodes.len()
                                invariant
                                    k <= nodes@.len(),
                                    ids@ == before + nodes@.subrange(0, k as int),
                                decreases nodes@.len() - k,
                            {
                                ids.push(nodes[k]);
                                k = k + 1;
                                assert(ids@ =~= before + nodes@.subrange(0, k as int));
                            }
                            assert(nodes@.subrange(0, nodes@.len() as int) =~= nodes@);
                        },
                        None => {
                            proof {
                                lemma_visible_fail(boards@, board_index, i as int);
                            }
                            return Err(ServiceError::new("CN Mana node id is invalid"));
                        },
                    }
                }
            },
        }
        i = i + 1;
    }
    assert(boards@.subrange(0, boards@.len() as int) =~= boards@);
    Ok(ids)
}

/// A node a character has unlocked, as stored: its id where the entry has
/// an integer one, and its awakening level (0 where none is stored).
#[derive(Clone, Copy, Debug, PartialEq, Eq, Structural)]
pub struct StoredManaNode {
    pub node_id: Option<i64>,
    pub awake_level: i64,
}

/// The awakening level of a node: the highest stored for it, `None` where
/// it is not stored.
pub open spec fn awake_level_of(nodes: Seq<StoredManaNode>, node_id: i64) -> Option<i64>
    decreases nodes.len(),
{
    if nodes.len() == 0 {
        None
    } else {
        let prev = awake_level_of(nodes.drop_last(), node_id);
        let last = nodes.last();
        if last.node_id == Some(node_id) {
            match prev {
                Some(level) => Some(
                    if last.awake_level > level {
                        last.awake_level
                    } else {
                        level
                    },
                ),
                None => Some(last.awake_level),
            }
        } else {
            prev
        }
    }
}

/// The awakening level of a node.
pub fn node_awake_level(nodes: &Vec<StoredManaNode>, node_id: i64) -> (r: Option<i64>)
    ensures
        r == awake_level_of(nodes@, node_id),
{
    let mut level: Option<i64> = None;
    let mut i: usize = 0;
    assert(nodes@.subrange(0, 0) =~= Seq::<StoredManaNode>::empty());
    while i < nodes.len()
        invariant
            i <= nodes@.len(),
            level == awake_level_of(nodes@.subrange(0, i as int), node_id),
        decreases nodes@.len() - i,
    {
        assert(nodes@.subrange(0, i + 1).drop_last() =~= nodes@.subrange(0, i as int));
        let node = nodes[i];
        if node.node_id == Some(node_id) {
            level = match level {
                Some(l) => Some(
                    if node.awake_level > l {
                        node.awake_level
                    } else {
                        l
                    },
                ),
                None => Some(node.awake_level),
            };
        }
        i = i + 1;
    }
    assert(nodes@.subrange(0, nodes@.len() as int) =~= nodes@);
    level
}

/// The ids of a list of projected nodes.
pub open spec fn projected_ids(shown: Seq<(i64, i64)>) -> Seq<i64> {
    shown.map_values(|p: (i64, i64)| p.0)
}

/// The nodes a load answer shows of a character, in stored order: each
/// visible node once, with its awakening level (0 where none is stored);
/// `None` where a stored entry has no integer id.
pub open spec fn spec_projected_nodes(
    stored: Seq<StoredManaNode>,
    visible: Seq<i64>,
    all: Seq<StoredManaNode>,
) -> Option<Seq<(i64, i64)>>
    decreases stored.len(),
{
    if stored.len() == 0 {
        Some(seq![])
    } else {
        match spec_projected_nodes(stored.drop_last(), visible, all) {
            None => None,
            Some(shown) => match stored.last().node_id {
                None => None,
                Some(id) => if visible.contains(id) && !projected_ids(shown).contains(id) {
                    Some(
                        shown.push(
                            (
                                id,
                                match awake_level_of(all, id) {
                                    Some(level) => level,
                                    None => 0,
                                },
                            ),
                        ),
                    )
                } else {
                    Some(shown)
                },
            },
        }
    }
}

/// Whether a list holds an id.
fn has_id(ids: &Vec<i64>, id: i64) -> (r: bool)
    ensures
        r == ids@.contains(id),
{
    let mut i: usize = 0;
    while i < ids.len()
        invariant
            i <= ids@.len(),
            forall|j: int| 0 <= j < i ==> ids@[j] != id,
        decreases ids@.len() - i,
    {
        if ids[i] == id {
            assert(ids@[i as int] == id);
            return true;
        }
        i = i + 1;
    }
    false
}

/// The nodes a load answer shows of a character whose visible node ids are
/// `visible`: each visible unlocked node once, with its awakening level.
pub fn project_mana_nodes(stored: &Vec<StoredManaNode>, visible: &Vec<i64>) -> (r: Result<
    Vec<(i64, i64)>,
    ServiceError,
>)
    ensures
        match spec_projected_nodes(stored@, visible@, stored@) {
            Some(shown) => r matches Ok(v) && v@ == shown,
            None => r matches Err(e) && e.message@ == "stored CN Mana node id is invalid"@,
        },
{
    let mut shown: Vec<(i64, i64)> = Vec::new();
    let mut ids: Vec<i64> = Vec::new();
    let mut i: usize = 0;
    assert(stored@.subrange(0, 0) =~= Seq::<StoredManaNode>::empty());
    assert(projected_ids(shown@) =~= ids@);
    while i < stored.len()
        invariant
            i <= stored@.len(),
            spec_projected_nodes(stored@.subrange(0, i as int), visible@, stored@) == Some(shown@),
            projected_ids(shown@) == ids@,
        decreases stored@.len() - i,
    {
        assert(stored@.subrange(0, i + 1).drop_last() =~= stored@.subrange(0, i as int));
        match stored[i].node_id {
            None => {
                proof {
                    lemma_projected_fail(stored@, visible@, i as int);
                }
                return Err(ServiceError::new("stored CN Mana node id is invalid"));
            },
            Some(id) => {
                if has_id(visible, id) && !has_id(&ids, id) {
                    let level = match node_awake_level(stored, id) {
                        Some(level) => level,
                        None => 0,
                    };
                    shown.push((id, level));
                    ids.push(id);
                    assert(projected_ids(shown@) =~= ids@);
                }
            },
        }
        i = i + 1;
    }
    assert(stored@.subrange(0, stored@.len() as int) =~= stored@);
    Ok(shown)
}

proof fn lemma_projected_fail(stored: Seq<StoredManaNode>, visible: Seq<i64>, i: int)
    requires
        0 <= i < stored.len(),
        spec_projected_nodes(stored.subrange(0, i), visible, stored) is Some,
        stored[i].node_id is None,
    ensures
        spec_projected_nodes(stored, visible, stored) is None,
    decreases stored.len() - i,
{
    assert(stored.subrange(0, i + 1).drop_last() =~= stored.subrange(0, i));
    lemma_projected_prefix_fail(stored, visible, i + 1);
}

proof fn lemma_projected_prefix_fail(stored: Seq<StoredManaNode>, visible: Seq<i64>, n: int)
    requires
        0 < n <= stored.len(),
        spec_projected_nodes(stored.subrange(0, n), visible, stored) is None,
    ensures
        spec_projected_nodes(stored, visible, stored) is None,
    decreases stored.len() - n,
{
    if n == stored.len() {
        assert(stored.subrange(0, n) =~= stored);
    } else {
        assert(stored.subrange(0, n + 1).drop_last() =~= stored.subrange(0, n));
        lemma_projected_prefix_fail(stored, visible, n + 1);
    }
}

/// A load answer shows each node at most once: the projected ids are all
/// different.
pub proof fn lemma_projected_nodes_distinct(stored: Seq<StoredManaNode>, visible: Seq<i64>, all: Seq<StoredManaNode>)
    ensures
        spec_projected_nodes(stored, visible, all) matches Some(shown) ==> forall|i: int, j: int|
            0 <= i < j < shown.len() ==> (#[trigger] shown[i]).0 != (#[trigger] shown[j]).0,
    decreases stored.len(),
{
    if stored.len() > 0 {
        lemma_projected_nodes_distinct(stored.drop_last(), visible, all);
        if let Some(shown) = spec_projected_nodes(stored.drop_last(), visible, all) {
            if let Some(id) = stored.last().node_id {
                if visible.contains(id) && !projected_ids(shown).contains(id) {
                    assert forall|i: int| 0 <= i < shown.len() implies shown[i].0 != id by {
                        assert(projected_ids(shown)[i] == shown[i].0);
                    }
                }
            }
        }
    }
}


/// A row of a board layout: the node it places (where its first entry is
/// an integer) and the size of its pedestal (where its fifth entry is).
#[derive(Clone, Copy, Debug, PartialEq, Eq, Structural)]
pub struct LayoutRow {
    pub node_id: Option<i64>,
    pub pedestal_size: Option<i64>,
}

/// A board of a character's layout: its index text and its rows, `None`
/// where the board is not an object.
pub struct LayoutBoard {
    pub index: String,
    pub rows: Option<Vec<LayoutRow>>,
}

/// The pedestal of the first row that places the node.
pub open spec fn row_pedestal(rows: Seq<LayoutRow>, node_id: i64) -> Option<Option<i64>>
    decreases rows.len(),
{
    if rows.len() == 0 {
        None
    } else if rows[0].node_id == Some(node_id) {
        Some(rows[0].pedestal_size)
    } else {
        row_pedestal(rows.drop_first(), node_id)
    }
}

/// Where a node sits: the index of the first board, in layout order, with
/// a row that places it and that row's pedestal size; `None` where no
/// board places it; the failure of the first board met with an index that
/// is not an integer or that is not an object, or of the placing row
/// without a pedestal size.
pub open spec fn spec_node_location(boards: Seq<LayoutBoard>, node_id: i64) -> Result<Option<(i64, i64)>, Seq<char>>
    decreases boards.len(),
{
    if boards.len() == 0 {
        Ok(None)
    } else {
        let b = boards[0];
        match spec_parse_i64(b.index@) {
            None => Err("CN Mana board index is invalid"@),
            Some(index) => match b.rows {
                None => Err("CN Mana board is invalid"@),
                Some(rows) => match row_pedestal(rows@, node_id) {
                    Some(Some(size)) => Ok(Some((index, size))),
                    Some(None) => Err("CN Mana node pedestal size is missing"@),
                    None => spec_node_location(boards.drop_first(), node_id),
                },
            },
        }
    }
}

/// The pedestal of the first row that places the node.
fn find_row_pedestal(rows: &Vec<LayoutRow>, node_id: i64) -> (r: Option<Option<i64>>)
    ensures
        r == row_pedestal(rows@, node_id),
{
    let mut i: usize = 0;
    assert(rows@.subrange(0, rows@.len() as int) =~= rows@);
    while i < rows.len()
        invariant
            i <= rows@.len(),
            row_pedestal(rows@, node_id) == row_pedestal(rows@.subrange(i as int, rows@.len() as int), node_id),
        decreases rows@.len() - i,
    {
        let ghost rest = rows@.subrange(i as int, rows@.len() as int);
        assert(rest.drop_first() =~= rows@.subrange(i + 1, rows@.len() as int));
        if rows[i].node_id == Some(node_id) {
            return Some(rows[i].pedestal_size);
        }
        i = i + 1;
    }
    None
}

/// Where a node sits on a character's boards: the board index and the
/// pedestal size.
pub fn mana_node_board_location(boards: &Vec<LayoutBoard>, node_id: i64) -> (r: Result<Option<(i64, i64)>, ServiceError>)
    ensures
        match spec_node_location(boards@, node_id) {
            Ok(location) => r matches Ok(l) && l == location,
            Err(message) => r matches Err(e) && e.message@ == message,
        },
{
    let mut i: usize = 0;
    assert(boards@.subrange(0, boards@.len() as int) =~= boards@);
    while i < boards.len()
        invariant
            i <= boards@.len(),
            spec_node_location(boards@, node_id) == spec_node_location(
                boards@.subrange(i as int, boards@.len() as int),
                node_id,
            ),
        decreases boards@.len() - i,
    {
        let ghost rest = boards@.subrange(i as int, boards@.len() as int);
        assert(rest.drop_first() =~= boards@.subrange(i + 1, boards@.len() as int));
        let b = &boards[i];
        let index = match parse_i64(b.index.as_str()) {
            Some(index) => index,
            None => return Err(ServiceError::new("CN Mana board index is invalid")),
        };
        match &b.rows {
            None => return Err(ServiceError::new("CN Mana board is invalid")),
            Some(rows) => match find_row_pedestal(rows, node_id) {
                Some(Some(size)) => return Ok(Some((index, size))),
                Some(None) => return Err(ServiceError::new("CN Mana node pedestal size is missing")),
                None => {},
            },
        }
        i = i + 1;
    }
    Ok(None)
}

} // verus!
