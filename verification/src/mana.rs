//! Mana boards: paying for mana nodes with free and paid mana and items,
//! the times that open a board, and the bond token of a completed board.
use vstd::prelude::*;
use crate::error::ServiceError;
use crate::http::{error_body, json_error, JsonResponse};
use crate::mission::{find_key_index, key_index, keyed, lemma_key_index};
use crate::text::str_eq;

pub mod board;
pub mod cost;

verus! {

/// Milliseconds that Japan Standard Time is ahead of UTC.
pub const JAPAN_STANDARD_OFFSET_MILLISECONDS: i64 = 32_400_000;

/// What is left of free and paid mana after paying `cost`, free mana
/// first; `None` where the mana does not suffice or a step leaves `i64`.
pub open spec fn spec_deduct_mana(free_mana: i64, paid_mana: i64, cost: i64) -> Option<(i64, i64)> {
    if cost <= free_mana {
        Some(((free_mana - cost) as i64, paid_mana))
    } else if cost - free_mana <= i64::MAX && paid_mana - (cost - free_mana) >= 0 {
        Some((0, (paid_mana - (cost - free_mana)) as i64))
    } else {
        None
    }
}

/// Pays `cost` from free mana first and from paid mana for the rest.
pub fn deduct_mana(free_mana: i64, paid_mana: i64, cost: i64) -> (r: Option<(i64, i64)>)
    requires
        cost <= free_mana ==> free_mana - cost <= i64::MAX,
    ensures
        r == spec_deduct_mana(free_mana, paid_mana, cost),
{
    if cost <= free_mana {
        return Some((free_mana - cost, paid_mana));
    }
    let paid_cost = match cost.checked_sub(free_mana) {
        Some(v) => v,
        None => return None,
    };
    let remaining_paid = match paid_mana.checked_sub(paid_cost) {
        Some(v) => v,
        None => return None,
    };
    if remaining_paid >= 0 {
        Some((0, remaining_paid))
    } else {
        None
    }
}

/// Paying mana takes exactly the cost: where the payment succeeds, free and
/// paid mana together drop by `cost`, and paid mana is never driven below
/// zero nor touched while free mana covers the cost.
pub proof fn lemma_deduct_takes_the_cost(free_mana: i64, paid_mana: i64, cost: i64)
    requires
        cost <= free_mana ==> free_mana - cost <= i64::MAX,
    ensures
        spec_deduct_mana(free_mana, paid_mana, cost) matches Some((f, p)) ==> f + p == free_mana
            + paid_mana - cost && (cost <= free_mana ==> p == paid_mana) && (cost > free_mana
            ==> f == 0 && p >= 0),
{
}

/// A condition time is `(None)` or a local Japan time `YYYY-MM-DD hh:mm:ss`;
/// this is the ISO text it stands for (`T` between date and time and
/// `.000Z` after), or `None` for `(None)`.
pub open spec fn spec_condition_timestamp_text(value: Seq<char>) -> Option<Seq<char>> {
    if value == "(None)"@ {
        None
    } else {
        Some(
            Seq::new(value.len(), |i: int| if value[i] == ' ' { 'T' } else { value[i] })
                + ".000Z"@,
        )
    }
}

/// The ISO text that the timestamp parser is given for a condition time.
pub fn condition_timestamp_text(value: &str) -> (r: Option<String>)
    ensures
        match spec_condition_timestamp_text(value@) {
            Some(text) => r matches Some(s) && s@ == text,
            None => r is None,
        },
{
    if str_eq(value, "(None)") {
        return None;
    }
    let len = value.unicode_len();
    let mut out = String::new();
    let mut i: usize = 0;
    while i < len
        invariant
            len == value@.len(),
            i <= len,
            out@ == Seq::new(i as nat, |j: int| if value@[j] == ' ' { 'T' } else { value@[j] }),
        decreases len - i,
    {
        let c = value.get_char(i);
        if c == ' ' {
            proof { reveal_strlit("T"); }
            out.append("T");
        } else {
            out.append(value.substring_char(i, i + 1));
        }
        i = i + 1;
        assert(out@ =~= Seq::new(
            i as nat,
            |j: int| if value@[j] == ' ' { 'T' } else { value@[j] },
        ));
    }
    out.append(".000Z");
    Some(out)
}

/// A condition time in UTC milliseconds: `Ok(None)` for `(None)`, else the
/// parsed local time `parsed` (the milliseconds that the ISO text of
/// `condition_timestamp_text` stands for, `None` where it does not parse)
/// moved back by the Japan offset.
pub fn parse_condition_timestamp(value: &str, parsed: Option<i64>) -> (r: Result<
    Option<i64>,
    ServiceError,
>)
    ensures
        value@ == "(None)"@ ==> r matches Ok(None),
        value@ != "(None)"@ ==> match parsed {
            None => r matches Err(e) && e.message@ == "CN Mana board condition time is invalid"@,
            Some(t) => if t - JAPAN_STANDARD_OFFSET_MILLISECONDS >= i64::MIN {
                r matches Ok(Some(v)) && v == t - JAPAN_STANDARD_OFFSET_MILLISECONDS
            } else {
                r matches Err(e) && e.message@ == "CN Mana board condition time is out of range"@
            },
        },
{
    if str_eq(value, "(None)") {
        return Ok(None);
    }
    match parsed {
        None => Err(ServiceError::new("CN Mana board condition time is invalid")),
        Some(timestamp) => match timestamp.checked_sub(JAPAN_STANDARD_OFFSET_MILLISECONDS) {
            Some(v) => Ok(Some(v)),
            None => Err(ServiceError::new("CN Mana board condition time is out of range")),
        },
    }
}

/// Whether a response time in seconds falls in the window of a board's
/// open condition (bounds in milliseconds, each optional and inclusive).
pub open spec fn spec_in_open_window(response_time: i64, start: Option<i64>, end: Option<i64>) -> bool {
    let millis = if response_time * 1000 > i64::MAX {
        i64::MAX as int
    } else if response_time * 1000 < i64::MIN {
        i64::MIN as int
    } else {
        response_time * 1000
    };
    &&& start matches Some(s) ==> millis >= s
    &&& end matches Some(e) ==> millis <= e
}

/// Whether a board is open at `response_time` (in seconds).
pub fn in_open_window(response_time: i64, start: Option<i64>, end: Option<i64>) -> (r: bool)
    ensures
        r == spec_in_open_window(response_time, start, end),
{
    let millis: i64 = if response_time > 9_223_372_036_854_775 {
        i64::MAX
    } else if response_time < -9_223_372_036_854_775 {
        i64::MIN
    } else {
        response_time * 1000
    };
    let after_start = match start {
        Some(s) => millis >= s,
        None => true,
    };
    let before_end = match end {
        Some(e) => millis <= e,
        None => true,
    };
    after_start && before_end
}

/// The board a character sees: the stored index held between 1 and the
/// highest open board (2 where the second board exists and is open).
pub fn visible_board_index(stored_board_index: i64, board_two_open: bool) -> (r: i64)
    ensures
        r == (if stored_board_index < 1 {
            1
        } else if stored_board_index > (if board_two_open { 2int } else { 1int }) {
            if board_two_open { 2int } else { 1int }
        } else {
            stored_board_index as int
        }),
{
    let highest: i64 = if board_two_open { 2 } else { 1 };
    if stored_board_index < 1 {
        1
    } else if stored_board_index > highest {
        highest
    } else {
        stored_board_index
    }
}

/// An item that a mana node costs, as the catalog holds it: the id and the
/// amount, each `None` where the catalog's text is not an integer.
#[derive(Clone, Copy, Debug, PartialEq, Eq, Structural)]
pub struct ManaItemCost {
    pub item_id: Option<i64>,
    pub amount: Option<i64>,
}

/// A node of a character's mana board: its id, its mana cost (`None`
/// where the catalog lacks it) and the items it costs.
pub struct ManaNodeCost {
    pub node_id: i64,
    pub mana_cost: Option<i64>,
    pub items: Vec<ManaItemCost>,
}

/// Why a node cannot be learned, or why the catalog or the stored player
/// cannot be read.
#[derive(Clone, Copy, Debug, PartialEq, Eq, Structural)]
pub enum ManaRefusal {
    AlreadyUnlocked,
    NodeNotFound,
    NotEnoughMana,
    NotEnoughItem,
    CostMissing,
    CostOverflow,
    ItemIdInvalid,
    ItemCostInvalid,
    ItemCostOverflow,
    FreeManaMissing,
    PaidManaMissing,
}

/// The position of the node with id `id` on the board.
pub open spec fn node_index(board: Seq<ManaNodeCost>, id: i64) -> Option<int>
    decreases board.len(),
{
    if board.len() == 0 {
        None
    } else if board[0].node_id == id {
        Some(0)
    } else {
        match node_index(board.drop_first(), id) {
            Some(i) => Some(i + 1),
            None => None,
        }
    }
}

proof fn lemma_node_index(board: Seq<ManaNodeCost>, id: i64)
    ensures
        node_index(board, id) matches Some(i) ==> 0 <= i < board.len() && board[i].node_id == id,
        node_index(board, id) is None ==> forall|i: int|
            0 <= i < board.len() ==> (#[trigger] board[i]).node_id != id,
    decreases board.len(),
{
    if board.len() > 0 && board[0].node_id != id {
        lemma_node_index(board.drop_first(), id);
        if node_index(board.drop_first(), id) is None {
            assert forall|i: int| 0 <= i < board.len() implies (#[trigger] board[i]).node_id
                != id by {
                if i > 0 {
                    assert(board[i] == board.drop_first()[i - 1]);
                }
            }
        }
    }
}

/// The index of the node with id `id`.
fn find_node(board: &Vec<ManaNodeCost>, id: i64) -> (r: Option<usize>)
    ensures
        match r {
            Some(i) => node_index(board@, id) == Some(i as int) && i < board@.len(),
            None => node_index(board@, id) is None,
        },
{
    let mut i: usize = 0;
    assert(board@.subrange(0, board@.len() as int) =~= board@);
    while i < board.len()
        invariant
            i <= board@.len(),
            node_index(board@, id) == match node_index(
                board@.subrange(i as int, board@.len() as int),
                id,
            ) {
                Some(j) => Some(j + i),
                None => None,
            },
        decreases board@.len() - i,
    {
        let ghost rest = board@.subrange(i as int, board@.len() as int);
        assert(rest[0] == board@[i as int]);
        if board[i].node_id == id {
            return Some(i);
        }
        assert(rest.drop_first() =~= board@.subrange(i + 1, board@.len() as int));
        i = i + 1;
    }
    None
}

/// Adds `amount` of item `id` to the running item costs; `None` where the
/// sum leaves `i64`.
pub open spec fn add_item_cost(costs: Seq<(i64, i64)>, id: i64, amount: i64) -> Option<Seq<(i64, i64)>> {
    match key_index(costs, id) {
        Some(j) => if i64::MIN <= costs[j].1 + amount <= i64::MAX {
            Some(costs.update(j, (id, (costs[j].1 + amount) as i64)))
        } else {
            None
        },
        None => Some(costs.push((id, amount))),
    }
}

/// Adds the items of one node to the running item costs, in the order the
/// catalog lists them.
pub open spec fn add_items(costs: Seq<(i64, i64)>, items: Seq<ManaItemCost>) -> Result<
    Seq<(i64, i64)>,
    ManaRefusal,
>
    decreases items.len(),
{
    if items.len() == 0 {
        Ok(costs)
    } else {
        match add_items(costs, items.drop_last()) {
            Err(e) => Err(e),
            Ok(c) => match items.last().item_id {
                None => Err(ManaRefusal::ItemIdInvalid),
                Some(id) => match items.last().amount {
                    None => Err(ManaRefusal::ItemCostInvalid),
                    Some(amount) => match add_item_cost(c, id, amount) {
                        None => Err(ManaRefusal::ItemCostOverflow),
                        Some(c2) => Ok(c2),
                    },
                },
            },
        }
    }
}

/// What the requested nodes add up to: the nodes learned, in the order
/// first requested, their mana cost and their item costs.
pub struct LearnTotals {
    pub learned: Seq<i64>,
    pub mana_cost: i64,
    pub item_costs: Seq<(i64, i64)>,
}

/// One requested node: a repeat is skipped; an unlocked or unknown node is
/// refused; else its costs are added.
pub open spec fn learn_step(
    board: Seq<ManaNodeCost>,
    unlocked: Seq<i64>,
    totals: LearnTotals,
    id: i64,
) -> Result<LearnTotals, ManaRefusal> {
    if totals.learned.contains(id) {
        Ok(totals)
    } else if unlocked.contains(id) {
        Err(ManaRefusal::AlreadyUnlocked)
    } else {
        match node_index(board, id) {
            None => Err(ManaRefusal::NodeNotFound),
            Some(j) => match board[j].mana_cost {
                None => Err(ManaRefusal::CostMissing),
                Some(cost) => if totals.mana_cost + cost > i64::MAX || totals.mana_cost + cost
                    < i64::MIN {
                    Err(ManaRefusal::CostOverflow)
                } else {
                    match add_items(totals.item_costs, board[j].items@) {
                        Err(e) => Err(e),
                        Ok(c) => Ok(
                            LearnTotals {
                                learned: totals.learned.push(id),
                                mana_cost: (totals.mana_cost + cost) as i64,
                                item_costs: c,
                            },
                        ),
                    }
                },
            },
        }
    }
}

/// The requested nodes taken in order.
pub open spec fn learn_fold(board: Seq<ManaNodeCost>, unlocked: Seq<i64>, requested: Seq<i64>) -> Result<
    LearnTotals,
    ManaRefusal,
>
    decreases requested.len(),
{
    if requested.len() == 0 {
        Ok(LearnTotals { learned: seq![], mana_cost: 0, item_costs: seq![] })
    } else {
        match learn_fold(board, unlocked, requested.drop_last()) {
            Err(e) => Err(e),
            Ok(t) => learn_step(board, unlocked, t, requested.last()),
        }
    }
}

/// The mana cost of a node on the board (0 where it has none).
pub open spec fn node_mana_cost(board: Seq<ManaNodeCost>, id: i64) -> int {
    match node_index(board, id) {
        Some(j) => match board[j].mana_cost {
            Some(cost) => cost as int,
            None => 0,
        },
        None => 0,
    }
}

/// The mana cost of some nodes, added up.
pub open spec fn nodes_mana_cost(board: Seq<ManaNodeCost>, ids: Seq<i64>) -> int
    decreases ids.len(),
{
    if ids.len() == 0 {
        0
    } else {
        nodes_mana_cost(board, ids.drop_last()) + node_mana_cost(board, ids.last())
    }
}

/// Whether a node is on the board.
pub open spec fn on_board(board: Seq<ManaNodeCost>, id: i64) -> bool {
    exists|j: int| 0 <= j < board.len() && board[j].node_id == id
}

proof fn lemma_node_index_on_board(board: Seq<ManaNodeCost>, id: i64)
    ensures
        node_index(board, id) matches Some(j) ==> 0 <= j < board.len() && board[j].node_id == id,
    decreases board.len(),
{
    if board.len() > 0 && board[0].node_id != id {
        lemma_node_index_on_board(board.drop_first(), id);
    }
}

/// Learning nodes that goes through learns every requested node once, in
/// the order first requested: each one on the board and not unlocked
/// before, and no other; its mana cost is the sum of the learned nodes'
/// costs.
pub proof fn lemma_learn_fold_learns_each_request_once(
    board: Seq<ManaNodeCost>,
    unlocked: Seq<i64>,
    requested: Seq<i64>,
)
    ensures
        learn_fold(board, unlocked, requested) matches Ok(t) ==> {
            &&& forall|i: int, j: int|
                0 <= i < j < t.learned.len() ==> t.learned[i] != t.learned[j]
            &&& forall|i: int|
                0 <= i < t.learned.len() ==> requested.contains(#[trigger] t.learned[i])
                    && on_board(board, t.learned[i]) && !unlocked.contains(t.learned[i])
            &&& forall|k: int| 0 <= k < requested.len() ==> t.learned.contains(#[trigger] requested[k])
            &&& t.mana_cost == nodes_mana_cost(board, t.learned)
        },
    decreases requested.len(),
{
    if requested.len() > 0 {
        let rest = requested.drop_last();
        let id = requested.last();
        lemma_learn_fold_learns_each_request_once(board, unlocked, rest);
        if let Ok(t0) = learn_fold(board, unlocked, rest) {
            if let Ok(t) = learn_fold(board, unlocked, requested) {
                lemma_node_index_on_board(board, id);
                assert forall|i: int| 0 <= i < t.learned.len() implies requested.contains(
                    #[trigger] t.learned[i],
                ) && on_board(board, t.learned[i]) && !unlocked.contains(t.learned[i]) by {
                    if i < t0.learned.len() {
                        assert(t.learned[i] == t0.learned[i]);
                        let k = choose|k: int| 0 <= k < rest.len() && rest[k] == t0.learned[i];
                        assert(requested[k] == rest[k]);
                    } else {
                        assert(t.learned[i] == id);
                        assert(requested[requested.len() - 1] == id);
                        let j = node_index(board, id)->0;
                        assert(board[j].node_id == id);
                    }
                };
                assert forall|k: int| 0 <= k < requested.len() implies t.learned.contains(
                    #[trigger] requested[k],
                ) by {
                    if k < rest.len() {
                        assert(rest[k] == requested[k]);
                        let m = choose|m: int| 0 <= m < t0.learned.len() && t0.learned[m] == rest[k];
                        assert(t.learned[m] == rest[k]);
                    } else {
                        if !t0.learned.contains(id) {
                            assert(t.learned[t0.learned.len() as int] == id);
                        } else {
                            let m = choose|m: int| 0 <= m < t0.learned.len() && t0.learned[m] == id;
                            assert(t.learned[m] == id);
                        }
                    }
                };
                if !t0.learned.contains(id) {
                    assert(t.learned.drop_last() =~= t0.learned);
                }
            }
        }
    }
}

/// The amount of an item that the player holds (0 where none is stored).
pub open spec fn held_amount(held: Seq<(i64, i64)>, id: i64) -> i64 {
    match keyed(held, id) {
        Some(v) => v,
        None => 0,
    }
}

/// Whether every node of the board is unlocked or about to be.
pub open spec fn board_complete(board: Seq<ManaNodeCost>, unlocked: Seq<i64>, learned: Seq<i64>) -> bool {
    forall|i: int|
        0 <= i < board.len() ==> unlocked.contains(#[trigger] board[i].node_id) || learned.contains(
            board[i].node_id,
        )
}

/// What learning the requested nodes does.
pub struct LearnPlan {
    /// The nodes learned, each once, in the order first requested.
    pub learned: Vec<i64>,
    pub mana_cost: i64,
    pub free_mana: i64,
    pub paid_mana: i64,
    /// The new amount of every item that the nodes cost.
    pub items: Vec<(i64, i64)>,
    /// Whether every node of the board is now unlocked.
    pub board_complete: bool,
}

/// The items' new amounts: each cost item with what is held less its cost.
pub open spec fn spends_items(costs: Seq<(i64, i64)>, held: Seq<(i64, i64)>, items: Seq<(i64, i64)>) -> bool {
    &&& items.len() == costs.len()
    &&& forall|i: int|
        0 <= i < items.len() ==> (#[trigger] items[i]).0 == costs[i].0 && items[i].1 == held_amount(
            held,
            costs[i].0,
        ) - costs[i].1
}

/// Whether the held items cover the item costs.
pub open spec fn items_suffice(costs: Seq<(i64, i64)>, held: Seq<(i64, i64)>) -> bool {
    forall|i: int|
        0 <= i < costs.len() ==> 0 <= held_amount(held, (#[trigger] costs[i]).0) - costs[i].1
            <= i64::MAX
}

/// Whether taking the mana cost of a learn from the free mana stays within
/// `i64`: it does not where a negative total cost is taken from free mana
/// close to the maximum, and the subtraction overflows.
pub open spec fn learn_deduction_fits(
    board: Seq<ManaNodeCost>,
    unlocked: Seq<i64>,
    requested: Seq<i64>,
    free_mana: Option<i64>,
    paid_mana: Option<i64>,
) -> bool {
    match (learn_fold(board, unlocked, requested), free_mana, paid_mana) {
        (Ok(t), Some(free), Some(_)) => t.mana_cost <= free ==> free - t.mana_cost <= i64::MAX,
        _ => true,
    }
}

/// Adds the items of a node to the running item costs.
fn add_node_items(costs: &mut Vec<(i64, i64)>, items: &Vec<ManaItemCost>) -> (r: Result<(), ManaRefusal>)
    ensures
        match add_items(old(costs)@, items@) {
            Ok(c) => r is Ok && final(costs)@ == c,
            Err(e) => r == Err::<(), ManaRefusal>(e),
        },
{
    let ghost start = costs@;
    let mut i: usize = 0;
    while i < items.len()
        invariant
            start == old(costs)@,
            i <= items@.len(),
            add_items(start, items@.subrange(0, i as int)) == Ok::<Seq<(i64, i64)>, ManaRefusal>(
                costs@,
            ),
        decreases items@.len() - i,
    {
        let item = items[i];
        proof {
            assert(items@.subrange(0, i + 1).drop_last() =~= items@.subrange(0, i as int));
            assert(items@.subrange(0, i + 1).last() == item);
        }
        let id = match item.item_id {
            Some(id) => id,
            None => {
                proof {
                    assert(add_items(start, items@.subrange(0, i + 1)) == Err::<
                        Seq<(i64, i64)>,
                        ManaRefusal,
                    >(ManaRefusal::ItemIdInvalid));
                    lemma_add_items_error_stays(start, items@, i as int + 1);
                }
                return Err(ManaRefusal::ItemIdInvalid);
            },
        };
        let amount = match item.amount {
            Some(a) => a,
            None => {
                proof { lemma_add_items_error_stays(start, items@, i as int + 1); }
                return Err(ManaRefusal::ItemCostInvalid);
            },
        };
        match find_key_index(costs, id) {
            Some(j) => {
                proof { lemma_key_index(costs@, id); }
                let current = costs[j].1;
                match current.checked_add(amount) {
                    Some(v) => {
                        costs.set(j, (id, v));
                    },
                    None => {
                        proof {
                            assert(add_item_cost(costs@, id, amount) is None);
                            assert(add_items(start, items@.subrange(0, i + 1)) == Err::<
                                Seq<(i64, i64)>,
                                ManaRefusal,
                            >(ManaRefusal::ItemCostOverflow));
                            lemma_add_items_error_stays(start, items@, i as int + 1);
                        }
                        return Err(ManaRefusal::ItemCostOverflow);
                    },
                }
            },
            None => {
                costs.push((id, amount));
            },
        }
        i = i + 1;
    }
    assert(items@.subrange(0, items@.len() as int) =~= items@);
    Ok(())
}

/// Once the items fail, more items do not mend them.
proof fn lemma_add_items_error_stays(costs: Seq<(i64, i64)>, items: Seq<ManaItemCost>, n: int)
    requires
        0 <= n <= items.len(),
        add_items(costs, items.subrange(0, n)) is Err,
    ensures
        add_items(costs, items) == add_items(costs, items.subrange(0, n)),
    decreases items.len() - n,
{
    if n < items.len() {
        assert(items.subrange(0, n + 1).drop_last() =~= items.subrange(0, n));
        lemma_add_items_error_stays(costs, items, n + 1);
    } else {
        assert(items.subrange(0, n) =~= items);
    }
}

/// Once the fold fails, more requests do not mend it.
proof fn lemma_fold_error_stays(
    board: Seq<ManaNodeCost>,
    unlocked: Seq<i64>,
    requested: Seq<i64>,
    n: int,
)
    requires
        0 <= n <= requested.len(),
        learn_fold(board, unlocked, requested.subrange(0, n)) is Err,
    ensures
        learn_fold(board, unlocked, requested) == learn_fold(board, unlocked, requested.subrange(0, n)),
    decreases requested.len() - n,
{
    if n < requested.len() {
        assert(requested.subrange(0, n + 1).drop_last() =~= requested.subrange(0, n));
        lemma_fold_error_stays(board, unlocked, requested, n + 1);
    } else {
        assert(requested.subrange(0, n) =~= requested);
    }
}

/// Whether `v` holds `x`.
fn contains_id(v: &Vec<i64>, x: i64) -> (r: bool)
    ensures
        r == v@.contains(x),
{
    let mut i: usize = 0;
    while i < v.len()
        invariant
            i <= v@.len(),
            forall|j: int| 0 <= j < i ==> v@[j] != x,
        decreases v@.len() - i,
    {
        if v[i] == x {
            assert(v@[i as int] == x);
            return true;
        }
        i = i + 1;
    }
    false
}

/// The totals of the requested nodes of a board, as `learn_fold` gives
/// them.
fn learn_totals(board: &Vec<ManaNodeCost>, unlocked: &Vec<i64>, requested: &Vec<i64>) -> (r: Result<
    (Vec<i64>, i64, Vec<(i64, i64)>),
    ManaRefusal,
>)
    ensures
        match learn_fold(board@, unlocked@, requested@) {
            Ok(t) => r matches Ok((learned, cost, items)) && learned@ == t.learned && cost == t.mana_cost
                && items@ == t.item_costs,
            Err(e) => r == Err::<(Vec<i64>, i64, Vec<(i64, i64)>), ManaRefusal>(e),
        },
{
    let mut learned: Vec<i64> = Vec::new();
    let mut mana_cost: i64 = 0;
    let mut item_costs: Vec<(i64, i64)> = Vec::new();
    let mut i: usize = 0;
    while i < requested.len()
        invariant
            i <= requested@.len(),
            learn_fold(board@, unlocked@, requested@.subrange(0, i as int)) == Ok::<
                LearnTotals,
                ManaRefusal,
            >(LearnTotals { learned: learned@, mana_cost, item_costs: item_costs@ }),
        decreases requested@.len() - i,
    {
        let id = requested[i];
        proof {
            assert(requested@.subrange(0, i + 1).drop_last() =~= requested@.subrange(0, i as int));
            assert(requested@.subrange(0, i + 1).last() == id);
        }
        if contains_id(&learned, id) {
            i = i + 1;
            continue;
        }
        if contains_id(unlocked, id) {
            proof { lemma_fold_error_stays(board@, unlocked@, requested@, i + 1); }
            return Err(ManaRefusal::AlreadyUnlocked);
        }
        let j = match find_node(board, id) {
            Some(j) => j,
            None => {
                proof { lemma_fold_error_stays(board@, unlocked@, requested@, i + 1); }
                return Err(ManaRefusal::NodeNotFound);
            },
        };
        proof { lemma_node_index(board@, id); }
        let node = &board[j];
        let cost = match node.mana_cost {
            Some(c) => c,
            None => {
                proof { lemma_fold_error_stays(board@, unlocked@, requested@, i + 1); }
                return Err(ManaRefusal::CostMissing);
            },
        };
        let new_cost = match mana_cost.checked_add(cost) {
            Some(c) => c,
            None => {
                proof { lemma_fold_error_stays(board@, unlocked@, requested@, i + 1); }
                return Err(ManaRefusal::CostOverflow);
            },
        };
        match add_node_items(&mut item_costs, &node.items) {
            Ok(()) => {},
            Err(e) => {
                proof { lemma_fold_error_stays(board@, unlocked@, requested@, i + 1); }
                return Err(e);
            },
        }
        mana_cost = new_cost;
        learned.push(id);
        i = i + 1;
    }
    assert(requested@.subrange(0, requested@.len() as int) =~= requested@);
    Ok((learned, mana_cost, item_costs))
}

/// Whether the learn would take a negative total cost from free mana so
/// close to the maximum that the subtraction overflows; the service fails
/// there, and `learn_mana_nodes` is not called.
pub fn learn_cost_overflows(
    board: &Vec<ManaNodeCost>,
    unlocked: &Vec<i64>,
    requested: &Vec<i64>,
    free_mana: Option<i64>,
    paid_mana: Option<i64>,
) -> (r: bool)
    ensures
        r == !learn_deduction_fits(board@, unlocked@, requested@, free_mana, paid_mana),
{
    match learn_totals(board, unlocked, requested) {
        Ok((_, cost, _)) => match (free_mana, paid_mana) {
            (Some(free), Some(_)) => cost <= free && free as i128 - cost as i128 > i64::MAX as i128,
            _ => false,
        },
        Err(_) => false,
    }
}

/// Plans learning the requested nodes of a board: the nodes are taken in
/// the order requested, repeats skipped; an unlocked or unknown node is
/// refused; mana is paid free first, then paid; every cost item must be
/// held in full.
pub fn learn_mana_nodes(
    board: &Vec<ManaNodeCost>,
    unlocked: &Vec<i64>,
    requested: &Vec<i64>,
    free_mana: Option<i64>,
    paid_mana: Option<i64>,
    held_items: &Vec<(i64, i64)>,
) -> (r: Result<LearnPlan, ManaRefusal>)
    requires
        learn_deduction_fits(board@, unlocked@, requested@, free_mana, paid_mana),
    ensures
        match learn_fold(board@, unlocked@, requested@) {
            Err(e) => r == Err::<LearnPlan, ManaRefusal>(e),
            Ok(t) => match (free_mana, paid_mana) {
                (None, _) => r == Err::<LearnPlan, ManaRefusal>(ManaRefusal::FreeManaMissing),
                (Some(_), None) => r == Err::<LearnPlan, ManaRefusal>(ManaRefusal::PaidManaMissing),
                (Some(free), Some(paid)) => match spec_deduct_mana(free, paid, t.mana_cost) {
                    None => r == Err::<LearnPlan, ManaRefusal>(ManaRefusal::NotEnoughMana),
                    Some((new_free, new_paid)) => if !items_suffice(t.item_costs, held_items@) {
                        r == Err::<LearnPlan, ManaRefusal>(ManaRefusal::NotEnoughItem)
                    } else {
                        r matches Ok(plan) && plan.learned@ == t.learned && plan.mana_cost
                            == t.mana_cost && plan.free_mana == new_free && plan.paid_mana
                            == new_paid && spends_items(t.item_costs, held_items@, plan.items@)
                            && plan.board_complete == board_complete(
                            board@,
                            unlocked@,
                            t.learned,
                        )
                    },
                },
            },
        },
{
    let (learned, mana_cost, item_costs) = match learn_totals(board, unlocked, requested) {
        Ok(totals) => totals,
        Err(e) => return Err(e),
    };
    let free = match free_mana {
        Some(v) => v,
        None => return Err(ManaRefusal::FreeManaMissing),
    };
    let paid = match paid_mana {
        Some(v) => v,
        None => return Err(ManaRefusal::PaidManaMissing),
    };
    let (new_free, new_paid) = match deduct_mana(free, paid, mana_cost) {
        Some(amounts) => amounts,
        None => return Err(ManaRefusal::NotEnoughMana),
    };
    let mut items: Vec<(i64, i64)> = Vec::new();
    let mut k: usize = 0;
    while k < item_costs.len()
        invariant
            learn_fold(board@, unlocked@, requested@) == Ok::<LearnTotals, ManaRefusal>(
                LearnTotals { learned: learned@, mana_cost, item_costs: item_costs@ },
            ),
            free_mana == Some(free),
            paid_mana == Some(paid),
            spec_deduct_mana(free, paid, mana_cost) == Some((new_free, new_paid)),
            k <= item_costs@.len(),
            items@.len() == k,
            forall|m: int|
                0 <= m < k ==> 0 <= held_amount(held_items@, (#[trigger] item_costs@[m]).0)
                    - item_costs@[m].1 <= i64::MAX,
            forall|m: int|
                0 <= m < k ==> (#[trigger] items@[m]).0 == item_costs@[m].0 && items@[m].1
                    == held_amount(held_items@, item_costs@[m].0) - item_costs@[m].1,
        decreases item_costs@.len() - k,
    {
        let (item_id, cost) = item_costs[k];
        let current = match find_key_index(held_items, item_id) {
            Some(h) => held_items[h].1,
            None => 0,
        };
        proof { lemma_key_index(held_items@, item_id); }
        assert(current == held_amount(held_items@, item_id));
        let remaining = match current.checked_sub(cost) {
            Some(v) => v,
            None => {
                assert(!items_suffice(item_costs@, held_items@)) by {
                    assert(item_costs@[k as int].0 == item_id);
                }
                return Err(ManaRefusal::NotEnoughItem);
            },
        };
        if remaining < 0 {
            assert(!items_suffice(item_costs@, held_items@)) by {
                assert(item_costs@[k as int].0 == item_id);
            }
            return Err(ManaRefusal::NotEnoughItem);
        }
        items.push((item_id, remaining));
        k = k + 1;
    }
    let mut complete = true;
    let mut b: usize = 0;
    while b < board.len()
        invariant
            learn_fold(board@, unlocked@, requested@) == Ok::<LearnTotals, ManaRefusal>(
                LearnTotals { learned: learned@, mana_cost, item_costs: item_costs@ },
            ),
            free_mana == Some(free),
            paid_mana == Some(paid),
            spec_deduct_mana(free, paid, mana_cost) == Some((new_free, new_paid)),
            items_suffice(item_costs@, held_items@),
            spends_items(item_costs@, held_items@, items@),
            b <= board@.len(),
            complete == forall|m: int|
                0 <= m < b ==> unlocked@.contains(#[trigger] board@[m].node_id)
                    || learned@.contains(board@[m].node_id),
        decreases board@.len() - b,
    {
        let node_id = board[b].node_id;
        if !contains_id(unlocked, node_id) && !contains_id(&learned, node_id) {
            complete = false;
        }
        b = b + 1;
    }
    Ok(LearnPlan {
        learned,
        mana_cost,
        free_mana: new_free,
        paid_mana: new_paid,
        items,
        board_complete: complete,
    })
}

/// The answer to a refused request, or the internal failure it stands for.
pub open spec fn refusal_code(refusal: ManaRefusal) -> Option<Seq<char>> {
    match refusal {
        ManaRefusal::AlreadyUnlocked => Some("mana_node_already_unlocked"@),
        ManaRefusal::NodeNotFound => Some("mana_node_not_found"@),
        ManaRefusal::NotEnoughMana => Some("not_enough_mana"@),
        ManaRefusal::NotEnoughItem => Some("not_enough_mana_item"@),
        _ => None,
    }
}

/// The message of an internal failure.
pub open spec fn refusal_message(refusal: ManaRefusal) -> Seq<char> {
    match refusal {
        ManaRefusal::CostMissing => "CN Mana node cost is missing"@,
        ManaRefusal::CostOverflow => "CN Mana cost exceeds supported range"@,
        ManaRefusal::ItemIdInvalid => "CN Mana item id is invalid"@,
        ManaRefusal::ItemCostInvalid => "CN Mana item cost is invalid"@,
        ManaRefusal::ItemCostOverflow => "CN Mana item cost exceeds range"@,
        ManaRefusal::FreeManaMissing => "stored CN free_mana value is missing"@,
        _ => "stored CN paid_mana value is missing"@,
    }
}

/// A refusal as an answer (`Ok`) or as an internal failure (`Err`).
pub fn refusal_response(refusal: ManaRefusal) -> (r: Result<JsonResponse, ServiceError>)
    ensures
        match refusal_code(refusal) {
            Some(code) => r matches Ok(resp) && resp.status@ == "400 Bad Request"@
                && resp.body@ == error_body(code),
            None => r matches Err(e) && e.message@ == refusal_message(refusal),
        },
{
    match refusal {
        ManaRefusal::AlreadyUnlocked => Ok(error_response("400 Bad Request", "mana_node_already_unlocked")),
        ManaRefusal::NodeNotFound => Ok(error_response("400 Bad Request", "mana_node_not_found")),
        ManaRefusal::NotEnoughMana => Ok(error_response("400 Bad Request", "not_enough_mana")),
        ManaRefusal::NotEnoughItem => Ok(error_response("400 Bad Request", "not_enough_mana_item")),
        ManaRefusal::CostMissing => Err(ServiceError::new("CN Mana node cost is missing")),
        ManaRefusal::CostOverflow => Err(ServiceError::new("CN Mana cost exceeds supported range")),
        ManaRefusal::ItemIdInvalid => Err(ServiceError::new("CN Mana item id is invalid")),
        ManaRefusal::ItemCostInvalid => Err(ServiceError::new("CN Mana item cost is invalid")),
        ManaRefusal::ItemCostOverflow => Err(ServiceError::new("CN Mana item cost exceeds range")),
        ManaRefusal::FreeManaMissing => Err(ServiceError::new("stored CN free_mana value is missing")),
        ManaRefusal::PaidManaMissing => Err(ServiceError::new("stored CN paid_mana value is missing")),
    }
}

/// What completing a board gives: the bond token at `token_index`, turned
/// from status 0 to 1, and the first evolution for a character at level 0.
#[derive(Clone, Copy, Debug, PartialEq, Eq, Structural)]
pub struct BondGrant {
    pub token_index: Option<usize>,
    pub evolution_level: i64,
}

/// The bond token and evolution that learning gives: where the board is
/// complete and the token of the board (index `board_index - 1`) exists
/// with status 0, that token is granted, and a character at evolution 0
/// reaches evolution 1.
pub fn bond_grant(
    board_complete: bool,
    board_index: i64,
    token_statuses: &Vec<Option<i64>>,
    current_evolution: i64,
) -> (r: BondGrant)
    requires
        board_index > i64::MIN,
    ensures
        ({
            let grants = board_complete && 1 <= board_index && board_index - 1
                < token_statuses@.len() && token_statuses@[board_index - 1] == Some(0i64);
            &&& r.token_index == (if grants {
                Some((board_index - 1) as usize)
            } else {
                None
            })
            &&& r.evolution_level == (if grants && current_evolution == 0 {
                1
            } else {
                current_evolution
            })
        }),
{
    let mut token_index: Option<usize> = None;
    if board_complete && board_index >= 1 {
        let index = board_index - 1;
        if (index as u64) < (token_statuses.len() as u64) {
            let idx = index as usize;
            if token_statuses[idx] == Some(0i64) {
                token_index = Some(idx);
            }
        }
    }
    let evolution_level = if token_index.is_some() && current_evolution == 0 {
        1
    } else {
        current_evolution
    };
    BondGrant { token_index, evolution_level }
}

/// Where a node sits: its board and the size of its pedestal.
#[derive(Clone, Copy, Debug, PartialEq, Eq, Structural)]
pub struct AwakeLocation {
    pub board_index: i64,
    pub pedestal_size: i64,
}

/// What the catalogs give for awakening a node: its place (`None` where
/// it is on no board or the board cannot be read) and its awakening cost
/// (`None` where no cost row can be found).
pub struct AwakeNode {
    pub node_id: i64,
    pub location: Option<AwakeLocation>,
    pub mana_amount: Option<i64>,
    /// The items of the cost row, each item once.
    pub items: Vec<(i64, i64)>,
}

/// Why nodes cannot be awakened.
#[derive(Clone, Copy, Debug, PartialEq, Eq, Structural)]
pub enum AwakeRefusal {
    NotUnlocked,
    CostNotFound,
    NotEnoughMana,
    NotEnoughItem,
    CostOverflow,
    ItemCostOverflow,
    FreeManaMissing,
    PaidManaMissing,
}

/// The index of the catalog entry of node `id`.
pub open spec fn awake_index(nodes: Seq<AwakeNode>, id: i64) -> Option<int>
    decreases nodes.len(),
{
    if nodes.len() == 0 {
        None
    } else if nodes[0].node_id == id {
        Some(0)
    } else {
        match awake_index(nodes.drop_first(), id) {
            Some(i) => Some(i + 1),
            None => None,
        }
    }
}

proof fn lemma_awake_index(nodes: Seq<AwakeNode>, id: i64)
    ensures
        awake_index(nodes, id) matches Some(i) ==> 0 <= i < nodes.len() && nodes[i].node_id == id,
    decreases nodes.len(),
{
    if nodes.len() > 0 && nodes[0].node_id != id {
        lemma_awake_index(nodes.drop_first(), id);
    }
}

fn find_awake_node(nodes: &Vec<AwakeNode>, id: i64) -> (r: Option<usize>)
    ensures
        match r {
            Some(i) => awake_index(nodes@, id) == Some(i as int) && i < nodes@.len(),
            None => awake_index(nodes@, id) is None,
        },
{
    let mut i: usize = 0;
    assert(nodes@.subrange(0, nodes@.len() as int) =~= nodes@);
    while i < nodes.len()
        invariant
            i <= nodes@.len(),
            awake_index(nodes@, id) == match awake_index(
                nodes@.subrange(i as int, nodes@.len() as int),
                id,
            ) {
                Some(j) => Some(j + i),
                None => None,
            },
        decreases nodes@.len() - i,
    {
        let ghost rest = nodes@.subrange(i as int, nodes@.len() as int);
        assert(rest[0] == nodes@[i as int]);
        if nodes[i].node_id == id {
            return Some(i);
        }
        assert(rest.drop_first() =~= nodes@.subrange(i + 1, nodes@.len() as int));
        i = i + 1;
    }
    None
}

/// Adds known items (each once) to the running item costs.
pub open spec fn add_known_items(costs: Seq<(i64, i64)>, items: Seq<(i64, i64)>) -> Option<
    Seq<(i64, i64)>,
>
    decreases items.len(),
{
    if items.len() == 0 {
        Some(costs)
    } else {
        match add_known_items(costs, items.drop_last()) {
            None => None,
            Some(c) => add_item_cost(c, items.last().0, items.last().1),
        }
    }
}

/// The running state of an awakening: the nodes seen, the answer for each,
/// the boards touched and the costs so far.
pub struct AwakeTotals {
    pub seen: Seq<i64>,
    pub answered: Seq<(i64, i64)>,
    pub boards: Seq<i64>,
    pub mana_cost: i64,
    pub item_costs: Seq<(i64, i64)>,
}

/// The awakening level a node has now (0 where none is stored).
pub open spec fn level_of(levels: Seq<(i64, i64)>, id: i64) -> i64 {
    match keyed(levels, id) {
        Some(v) => v,
        None => 0,
    }
}

/// One requested node: a repeat is skipped; a locked node or one without
/// a place is refused; a node already at the level is answered with its
/// level; else its cost is added and it is answered with the new level.
pub open spec fn awake_step(
    nodes: Seq<AwakeNode>,
    unlocked: Seq<i64>,
    levels: Seq<(i64, i64)>,
    level: i64,
    totals: AwakeTotals,
    id: i64,
) -> Result<AwakeTotals, AwakeRefusal> {
    if totals.seen.contains(id) {
        Ok(totals)
    } else if !unlocked.contains(id) {
        Err(AwakeRefusal::NotUnlocked)
    } else {
        match awake_index(nodes, id) {
            None => Err(AwakeRefusal::CostNotFound),
            Some(j) => match nodes[j].location {
                None => Err(AwakeRefusal::CostNotFound),
                Some(location) => {
                    let boards = if totals.boards.contains(location.board_index) {
                        totals.boards
                    } else {
                        totals.boards.push(location.board_index)
                    };
                    let current = level_of(levels, id);
                    if current >= level {
                        Ok(
                            AwakeTotals {
                                seen: totals.seen.push(id),
                                answered: totals.answered.push((id, current)),
                                boards,
                                ..totals
                            },
                        )
                    } else {
                        match nodes[j].mana_amount {
                            None => Err(AwakeRefusal::CostNotFound),
                            Some(amount) => if totals.mana_cost + amount > i64::MAX
                                || totals.mana_cost + amount < i64::MIN {
                                Err(AwakeRefusal::CostOverflow)
                            } else {
                                match add_known_items(totals.item_costs, nodes[j].items@) {
                                    None => Err(AwakeRefusal::ItemCostOverflow),
                                    Some(c) => Ok(
                                        AwakeTotals {
                                            seen: totals.seen.push(id),
                                            answered: totals.answered.push((id, level)),
                                            boards,
                                            mana_cost: (totals.mana_cost + amount) as i64,
                                            item_costs: c,
                                        },
                                    ),
                                }
                            },
                        }
                    }
                },
            },
        }
    }
}

/// The requested nodes taken in order.
pub open spec fn awake_fold(
    nodes: Seq<AwakeNode>,
    unlocked: Seq<i64>,
    levels: Seq<(i64, i64)>,
    level: i64,
    requested: Seq<i64>,
) -> Result<AwakeTotals, AwakeRefusal>
    decreases requested.len(),
{
    if requested.len() == 0 {
        Ok(AwakeTotals { seen: seq![], answered: seq![], boards: seq![], mana_cost: 0, item_costs: seq![] })
    } else {
        match awake_fold(nodes, unlocked, levels, level, requested.drop_last()) {
            Err(e) => Err(e),
            Ok(t) => awake_step(nodes, unlocked, levels, level, t, requested.last()),
        }
    }
}

/// Awakening nodes that goes through answers every requested node once,
/// in the order first requested: each one unlocked before, and each
/// answered with the requested level, or with its own level where that is
/// already higher.
pub proof fn lemma_awake_fold_answers_each_request_once(
    nodes: Seq<AwakeNode>,
    unlocked: Seq<i64>,
    levels: Seq<(i64, i64)>,
    level: i64,
    requested: Seq<i64>,
)
    ensures
        awake_fold(nodes, unlocked, levels, level, requested) matches Ok(t) ==> {
            &&& t.seen.len() == t.answered.len()
            &&& forall|i: int| 0 <= i < t.answered.len() ==> #[trigger] t.seen[i] == t.answered[i].0
            &&& forall|i: int, j: int|
                0 <= i < j < t.answered.len() ==> t.answered[i].0 != t.answered[j].0
            &&& forall|i: int|
                0 <= i < t.answered.len() ==> unlocked.contains(#[trigger] t.answered[i].0)
                    && requested.contains(t.answered[i].0) && t.answered[i].1 == if level_of(
                    levels,
                    t.answered[i].0,
                ) >= level {
                    level_of(levels, t.answered[i].0)
                } else {
                    level
                }
            &&& forall|k: int|
                0 <= k < requested.len() ==> exists|i: int|
                    0 <= i < t.answered.len() && (#[trigger] t.answered[i]).0 == #[trigger] requested[k]
        },
    decreases requested.len(),
{
    if requested.len() > 0 {
        let rest = requested.drop_last();
        let id = requested.last();
        lemma_awake_fold_answers_each_request_once(nodes, unlocked, levels, level, rest);
        if let Ok(t0) = awake_fold(nodes, unlocked, levels, level, rest) {
            if let Ok(t) = awake_fold(nodes, unlocked, levels, level, requested) {
                if t0.seen.contains(id) {
                    let m = choose|m: int| 0 <= m < t0.seen.len() && t0.seen[m] == id;
                    assert(t.answered[m].0 == id);
                    assert forall|i: int| 0 <= i < t.answered.len() implies requested.contains(
                        #[trigger] t.answered[i].0,
                    ) by {
                        let k = choose|k: int| 0 <= k < rest.len() && rest[k] == t0.answered[i].0;
                        assert(requested[k] == rest[k]);
                    };
                    assert forall|k: int| 0 <= k < requested.len() implies exists|i: int|
                        0 <= i < t.answered.len() && (#[trigger] t.answered[i]).0 == #[trigger] requested[k] by {
                        if k < rest.len() {
                            assert(requested[k] == rest[k]);
                        } else {
                            assert(t.answered[m].0 == requested[k]);
                        }
                    };
                } else {
                    let n = t0.answered.len() as int;
                    assert(t.answered[n].0 == id);
                    assert forall|i: int, j: int| 0 <= i < j < t.answered.len() implies t.answered[i].0
                        != t.answered[j].0 by {
                        if j == n {
                            assert(t0.seen[i] == t0.answered[i].0);
                        } else {
                            assert(t.answered[i] == t0.answered[i] && t.answered[j] == t0.answered[j]);
                        }
                    };
                    assert forall|i: int| 0 <= i < t.answered.len() implies unlocked.contains(
                        #[trigger] t.answered[i].0,
                    ) && requested.contains(t.answered[i].0) && t.answered[i].1 == if level_of(
                        levels,
                        t.answered[i].0,
                    ) >= level {
                        level_of(levels, t.answered[i].0)
                    } else {
                        level
                    } by {
                        if i < n {
                            assert(t.answered[i] == t0.answered[i]);
                            let k = choose|k: int| 0 <= k < rest.len() && rest[k] == t0.answered[i].0;
                            assert(requested[k] == rest[k]);
                        } else {
                            assert(requested[requested.len() - 1] == id);
                        }
                    };
                    assert forall|k: int| 0 <= k < requested.len() implies exists|i: int|
                        0 <= i < t.answered.len() && (#[trigger] t.answered[i]).0 == #[trigger] requested[k] by {
                        if k < rest.len() {
                            assert(requested[k] == rest[k]);
                            let i = choose|i: int| 0 <= i < t0.answered.len() && #[trigger] t0.answered[i].0 == rest[k];
                            assert(t.answered[i] == t0.answered[i]);
                        } else {
                            assert(t.answered[n].0 == requested[k]);
                        }
                    };
                    assert forall|i: int| 0 <= i < t.answered.len() implies #[trigger] t.seen[i]
                        == t.answered[i].0 by {
                        if i < n {
                            assert(t.seen[i] == t0.seen[i]);
                        }
                    };
                }
            }
        }
    }
}

proof fn lemma_awake_fold_error_stays(
    nodes: Seq<AwakeNode>,
    unlocked: Seq<i64>,
    levels: Seq<(i64, i64)>,
    level: i64,
    requested: Seq<i64>,
    n: int,
)
    requires
        0 <= n <= requested.len(),
        awake_fold(nodes, unlocked, levels, level, requested.subrange(0, n)) is Err,
    ensures
        awake_fold(nodes, unlocked, levels, level, requested) == awake_fold(
            nodes,
            unlocked,
            levels,
            level,
            requested.subrange(0, n),
        ),
    decreases requested.len() - n,
{
    if n < requested.len() {
        assert(requested.subrange(0, n + 1).drop_last() =~= requested.subrange(0, n));
        lemma_awake_fold_error_stays(nodes, unlocked, levels, level, requested, n + 1);
    } else {
        assert(requested.subrange(0, n) =~= requested);
    }
}

/// Whether taking the mana cost of an awakening from the free mana stays
/// within `i64` (see `learn_deduction_fits`).
pub open spec fn awake_deduction_fits(
    nodes: Seq<AwakeNode>,
    unlocked: Seq<i64>,
    levels: Seq<(i64, i64)>,
    level: i64,
    requested: Seq<i64>,
    free_mana: Option<i64>,
    paid_mana: Option<i64>,
) -> bool {
    match (awake_fold(nodes, unlocked, levels, level, requested), free_mana, paid_mana) {
        (Ok(t), Some(free), Some(_)) => t.mana_cost <= free ==> free - t.mana_cost <= i64::MAX,
        _ => true,
    }
}

/// Adds known items to the running item costs.
fn add_known_node_items(costs: &mut Vec<(i64, i64)>, items: &Vec<(i64, i64)>) -> (r: bool)
    ensures
        match add_known_items(old(costs)@, items@) {
            Some(c) => r && final(costs)@ == c,
            None => !r,
        },
{
    let ghost start = costs@;
    let mut i: usize = 0;
    while i < items.len()
        invariant
            start == old(costs)@,
            i <= items@.len(),
            add_known_items(start, items@.subrange(0, i as int)) == Some(costs@),
        decreases items@.len() - i,
    {
        let (id, amount) = items[i];
        proof {
            assert(items@.subrange(0, i + 1).drop_last() =~= items@.subrange(0, i as int));
            assert(items@.subrange(0, i + 1).last() == (id, amount));
        }
        match find_key_index(costs, id) {
            Some(j) => {
                proof { lemma_key_index(costs@, id); }
                let current = costs[j].1;
                match current.checked_add(amount) {
                    Some(v) => {
                        costs.set(j, (id, v));
                    },
                    None => {
                        proof { lemma_known_items_fail_stays(start, items@, i as int + 1); }
                        return false;
                    },
                }
            },
            None => {
                costs.push((id, amount));
            },
        }
        i = i + 1;
    }
    assert(items@.subrange(0, items@.len() as int) =~= items@);
    true
}

proof fn lemma_known_items_fail_stays(costs: Seq<(i64, i64)>, items: Seq<(i64, i64)>, n: int)
    requires
        0 <= n <= items.len(),
        add_known_items(costs, items.subrange(0, n)) is None,
    ensures
        add_known_items(costs, items) is None,
    decreases items.len() - n,
{
    if n < items.len() {
        assert(items.subrange(0, n + 1).drop_last() =~= items.subrange(0, n));
        lemma_known_items_fail_stays(costs, items, n + 1);
    } else {
        assert(items.subrange(0, n) =~= items);
    }
}

/// What awakening the requested nodes does.
pub struct AwakePlan {
    /// Each requested node once, with the level it now has.
    pub answered: Vec<(i64, i64)>,
    /// The boards of the requested nodes, each once.
    pub boards: Vec<i64>,
    pub mana_cost: i64,
    pub free_mana: i64,
    pub paid_mana: i64,
    /// The new amount of every item that the awakening costs.
    pub items: Vec<(i64, i64)>,
}

/// The totals of the requested awakenings, as `awake_fold` gives them:
/// the nodes seen, the answered levels, the boards, the mana cost and the
/// item costs.
fn awake_totals(
    nodes: &Vec<AwakeNode>,
    unlocked: &Vec<i64>,
    levels: &Vec<(i64, i64)>,
    level: i64,
    requested: &Vec<i64>,
) -> (r: Result<(Vec<i64>, Vec<(i64, i64)>, Vec<i64>, i64, Vec<(i64, i64)>), AwakeRefusal>)
    ensures
        match awake_fold(nodes@, unlocked@, levels@, level, requested@) {
            Ok(t) => r matches Ok((seen, answered, boards, cost, items)) && seen@ == t.seen
                && answered@ == t.answered && boards@ == t.boards && cost == t.mana_cost && items@
                == t.item_costs,
            Err(e) => r == Err::<(Vec<i64>, Vec<(i64, i64)>, Vec<i64>, i64, Vec<(i64, i64)>), AwakeRefusal>(e),
        },
{
    let mut seen: Vec<i64> = Vec::new();
    let mut answered: Vec<(i64, i64)> = Vec::new();
    let mut boards: Vec<i64> = Vec::new();
    let mut mana_cost: i64 = 0;
    let mut item_costs: Vec<(i64, i64)> = Vec::new();
    let mut i: usize = 0;
    while i < requested.len()
        invariant
            i <= requested@.len(),
            awake_fold(nodes@, unlocked@, levels@, level, requested@.subrange(0, i as int))
                == Ok::<AwakeTotals, AwakeRefusal>(
                AwakeTotals {
                    seen: seen@,
                    answered: answered@,
                    boards: boards@,
                    mana_cost,
                    item_costs: item_costs@,
                },
            ),
        decreases requested@.len() - i,
    {
        let id = requested[i];
        proof {
            assert(requested@.subrange(0, i + 1).drop_last() =~= requested@.subrange(0, i as int));
            assert(requested@.subrange(0, i + 1).last() == id);
        }
        if contains_id(&seen, id) {
            i = i + 1;
            continue;
        }
        if !contains_id(unlocked, id) {
            proof { lemma_awake_fold_error_stays(nodes@, unlocked@, levels@, level, requested@, i + 1); }
            return Err(AwakeRefusal::NotUnlocked);
        }
        let j = match find_awake_node(nodes, id) {
            Some(j) => j,
            None => {
                proof { lemma_awake_fold_error_stays(nodes@, unlocked@, levels@, level, requested@, i + 1); }
                return Err(AwakeRefusal::CostNotFound);
            },
        };
        proof { lemma_awake_index(nodes@, id); }
        let node = &nodes[j];
        let location = match node.location {
            Some(l) => l,
            None => {
                proof { lemma_awake_fold_error_stays(nodes@, unlocked@, levels@, level, requested@, i + 1); }
                return Err(AwakeRefusal::CostNotFound);
            },
        };
        let current = match find_key_index(levels, id) {
            Some(h) => levels[h].1,
            None => 0,
        };
        proof { lemma_key_index(levels@, id); }
        assert(current == level_of(levels@, id));
        if current >= level {
            if !contains_id(&boards, location.board_index) {
                boards.push(location.board_index);
            }
            seen.push(id);
            answered.push((id, current));
            i = i + 1;
            continue;
        }
        let amount = match node.mana_amount {
            Some(a) => a,
            None => {
                proof { lemma_awake_fold_error_stays(nodes@, unlocked@, levels@, level, requested@, i + 1); }
                return Err(AwakeRefusal::CostNotFound);
            },
        };
        let new_cost = match mana_cost.checked_add(amount) {
            Some(c) => c,
            None => {
                proof { lemma_awake_fold_error_stays(nodes@, unlocked@, levels@, level, requested@, i + 1); }
                return Err(AwakeRefusal::CostOverflow);
            },
        };
        if !add_known_node_items(&mut item_costs, &node.items) {
            proof { lemma_awake_fold_error_stays(nodes@, unlocked@, levels@, level, requested@, i + 1); }
            return Err(AwakeRefusal::ItemCostOverflow);
        }
        if !contains_id(&boards, location.board_index) {
            boards.push(location.board_index);
        }
        mana_cost = new_cost;
        seen.push(id);
        answered.push((id, level));
        i = i + 1;
    }
    assert(requested@.subrange(0, requested@.len() as int) =~= requested@);
    Ok((seen, answered, boards, mana_cost, item_costs))
}

/// Whether the awakening would take a negative total cost from free mana
/// so close to the maximum that the subtraction overflows; the service
/// fails there, and `awake_mana_nodes` is not called.
pub fn awake_cost_overflows(
    nodes: &Vec<AwakeNode>,
    unlocked: &Vec<i64>,
    levels: &Vec<(i64, i64)>,
    level: i64,
    requested: &Vec<i64>,
    free_mana: Option<i64>,
    paid_mana: Option<i64>,
) -> (r: bool)
    ensures
        r == !awake_deduction_fits(nodes@, unlocked@, levels@, level, requested@, free_mana, paid_mana),
{
    match awake_totals(nodes, unlocked, levels, level, requested) {
        Ok((_, _, _, cost, _)) => match (free_mana, paid_mana) {
            (Some(free), Some(_)) => cost <= free && free as i128 - cost as i128 > i64::MAX as i128,
            _ => false,
        },
        Err(_) => false,
    }
}

/// Plans awakening the requested nodes to `level`.
pub fn awake_mana_nodes(
    nodes: &Vec<AwakeNode>,
    unlocked: &Vec<i64>,
    levels: &Vec<(i64, i64)>,
    level: i64,
    requested: &Vec<i64>,
    free_mana: Option<i64>,
    paid_mana: Option<i64>,
    held_items: &Vec<(i64, i64)>,
) -> (r: Result<AwakePlan, AwakeRefusal>)
    requires
        awake_deduction_fits(nodes@, unlocked@, levels@, level, requested@, free_mana, paid_mana),
    ensures
        match awake_fold(nodes@, unlocked@, levels@, level, requested@) {
            Err(e) => r == Err::<AwakePlan, AwakeRefusal>(e),
            Ok(t) => match (free_mana, paid_mana) {
                (None, _) => r == Err::<AwakePlan, AwakeRefusal>(AwakeRefusal::FreeManaMissing),
                (Some(_), None) => r == Err::<AwakePlan, AwakeRefusal>(AwakeRefusal::PaidManaMissing),
                (Some(free), Some(paid)) => match spec_deduct_mana(free, paid, t.mana_cost) {
                    None => r == Err::<AwakePlan, AwakeRefusal>(AwakeRefusal::NotEnoughMana),
                    Some((new_free, new_paid)) => if !items_suffice(t.item_costs, held_items@) {
                        r == Err::<AwakePlan, AwakeRefusal>(AwakeRefusal::NotEnoughItem)
                    } else {
                        r matches Ok(plan) && plan.answered@ == t.answered && plan.boards@
                            == t.boards && plan.mana_cost == t.mana_cost && plan.free_mana
                            == new_free && plan.paid_mana == new_paid && spends_items(
                            t.item_costs,
                            held_items@,
                            plan.items@,
                        )
                    },
                },
            },
        },
{
    let (seen, answered, boards, mana_cost, item_costs) = match awake_totals(nodes, unlocked, levels, level, requested) {
        Ok(totals) => totals,
        Err(e) => return Err(e),
    };
    let free = match free_mana {
        Some(v) => v,
        None => return Err(AwakeRefusal::FreeManaMissing),
    };
    let paid = match paid_mana {
        Some(v) => v,
        None => return Err(AwakeRefusal::PaidManaMissing),
    };
    let (new_free, new_paid) = match deduct_mana(free, paid, mana_cost) {
        Some(amounts) => amounts,
        None => return Err(AwakeRefusal::NotEnoughMana),
    };
    let mut items: Vec<(i64, i64)> = Vec::new();
    let mut k: usize = 0;
    while k < item_costs.len()
        invariant
            awake_fold(nodes@, unlocked@, levels@, level, requested@) == Ok::<AwakeTotals, AwakeRefusal>(
                AwakeTotals {
                    seen: seen@,
                    answered: answered@,
                    boards: boards@,
                    mana_cost,
                    item_costs: item_costs@,
                },
            ),
            free_mana == Some(free),
            paid_mana == Some(paid),
            spec_deduct_mana(free, paid, mana_cost) == Some((new_free, new_paid)),
            k <= item_costs@.len(),
            items@.len() == k,
            forall|m: int|
                0 <= m < k ==> 0 <= held_amount(held_items@, (#[trigger] item_costs@[m]).0)
                    - item_costs@[m].1 <= i64::MAX,
            forall|m: int|
                0 <= m < k ==> (#[trigger] items@[m]).0 == item_costs@[m].0 && items@[m].1
                    == held_amount(held_items@, item_costs@[m].0) - item_costs@[m].1,
        decreases item_costs@.len() - k,
    {
        let (item_id, cost) = item_costs[k];
        let current = match find_key_index(held_items, item_id) {
            Some(h) => held_items[h].1,
            None => 0,
        };
        proof { lemma_key_index(held_items@, item_id); }
        assert(current == held_amount(held_items@, item_id));
        let remaining = match current.checked_sub(cost) {
            Some(v) => v,
            None => {
                assert(!items_suffice(item_costs@, held_items@)) by {
                    assert(item_costs@[k as int].0 == item_id);
                }
                return Err(AwakeRefusal::NotEnoughItem);
            },
        };
        if remaining < 0 {
            assert(!items_suffice(item_costs@, held_items@)) by {
                assert(item_costs@[k as int].0 == item_id);
            }
            return Err(AwakeRefusal::NotEnoughItem);
        }
        items.push((item_id, remaining));
        k = k + 1;
    }
    Ok(AwakePlan { answered, boards, mana_cost, free_mana: new_free, paid_mana: new_paid, items })
}

/// The awakening level stored for a board (0 where none is stored).
pub open spec fn board_level(stored: Seq<(i64, i64)>, board: i64) -> i64 {
    match keyed(stored, board) {
        Some(v) => v,
        None => 0,
    }
}

/// The higher of a stored level and `level`.
pub open spec fn raised_level(stored: i64, level: i64) -> i64 {
    if stored >= level {
        stored
    } else {
        level
    }
}

/// Raises the stored awakening level of each board to at least `level`
/// (a board without a stored level counts as level 0); the other boards
/// keep theirs.
pub fn raise_board_awake_levels(stored: &Vec<(i64, i64)>, boards: &Vec<i64>, level: i64) -> (r: Vec<
    (i64, i64),
>)
    ensures
        forall|b: i64|
            #![trigger boards@.contains(b)]
            boards@.contains(b) ==> keyed(r@, b) == Some(raised_level(board_level(stored@, b), level)),
        forall|b: i64| !boards@.contains(b) ==> #[trigger] keyed(r@, b) == keyed(stored@, b),
{
    let mut out = copy_pairs(stored);
    let mut i: usize = 0;
    while i < boards.len()
        invariant
            i <= boards@.len(),
            forall|b: i64|
                #![trigger boards@.subrange(0, i as int).contains(b)]
                boards@.subrange(0, i as int).contains(b) ==> keyed(out@, b) == Some(
                    raised_level(board_level(stored@, b), level),
                ),
            forall|b: i64|
                !boards@.subrange(0, i as int).contains(b) ==> #[trigger] keyed(out@, b) == keyed(
                    stored@,
                    b,
                ),
        decreases boards@.len() - i,
    {
        let board = boards[i];
        let ghost before = out@;
        let ghost expected = raised_level(board_level(stored@, board), level);
        match find_key_index(&out, board) {
            Some(j) => {
                proof { lemma_key_index(out@, board); }
                let current = out[j].1;
                let raised = if current >= level { current } else { level };
                proof {
                    assert(keyed(before, board) == Some(current));
                    if boards@.subrange(0, i as int).contains(board) {
                        assert(current == expected);
                    } else {
                        assert(keyed(stored@, board) == Some(current));
                    }
                    assert(raised == expected);
                }
                out.set(j, (board, raised));
                proof { lemma_keyed_update(before, j as int, board, raised); }
            },
            None => {
                let raised = if 0 >= level { 0 } else { level };
                proof {
                    assert(keyed(before, board) is None);
                    assert(!boards@.subrange(0, i as int).contains(board));
                    assert(keyed(stored@, board) is None);
                    assert(raised == expected);
                }
                out.push((board, raised));
                proof { lemma_keyed_push(before, board, raised); }
            },
        }
        proof {
            assert(keyed(out@, board) == Some(expected));
            assert forall|b: i64| boards@.subrange(0, i + 1).contains(b) implies keyed(out@, b)
                == Some(raised_level(board_level(stored@, b), level)) by {
                if b != board {
                    let k = choose|k: int| 0 <= k < i + 1 && #[trigger] boards@.subrange(0, i + 1)[k] == b;
                    assert(k != i);
                    assert(boards@.subrange(0, i as int)[k] == b);
                    assert(boards@.subrange(0, i as int).contains(b));
                }
            }
            assert forall|b: i64| !boards@.subrange(0, i + 1).contains(b) implies #[trigger] keyed(
                out@,
                b,
            ) == keyed(stored@, b) by {
                assert(boards@.subrange(0, i + 1)[i as int] == board);
                if boards@.subrange(0, i as int).contains(b) {
                    let k = choose|k: int| 0 <= k < i && #[trigger] boards@.subrange(0, i as int)[k] == b;
                    assert(boards@.subrange(0, i + 1)[k] == b);
                }
            }
        }
        i = i + 1;
    }
    assert(boards@.subrange(0, boards@.len() as int) =~= boards@);
    out
}

/// Entries with the same keys in the same places are found at the same
/// positions.
proof fn lemma_key_index_same_keys(s1: Seq<(i64, i64)>, s2: Seq<(i64, i64)>, b: i64)
    requires
        s1.len() == s2.len(),
        forall|i: int| 0 <= i < s1.len() ==> (#[trigger] s1[i]).0 == s2[i].0,
    ensures
        key_index(s1, b) == key_index(s2, b),
    decreases s1.len(),
{
    if s1.len() > 0 {
        assert forall|i: int| 0 <= i < s1.len() - 1 implies (#[trigger] s1.drop_first()[i]).0
            == s2.drop_first()[i].0 by {
            assert(s1.drop_first()[i] == s1[i + 1]);
            assert(s2.drop_first()[i] == s2[i + 1]);
        }
        lemma_key_index_same_keys(s1.drop_first(), s2.drop_first(), b);
    }
}

/// Where an entry is appended, keys already present are found where they
/// were, and the new key is found at the end.
proof fn lemma_key_index_push(s: Seq<(i64, i64)>, x: (i64, i64), b: i64)
    ensures
        key_index(s.push(x), b) == match key_index(s, b) {
            Some(i) => Some(i),
            None => if x.0 == b {
                Some(s.len() as int)
            } else {
                None
            },
        },
    decreases s.len(),
{
    if s.len() > 0 {
        assert(s.push(x)[0] == s[0]);
        assert(s.push(x).drop_first() =~= s.drop_first().push(x));
        lemma_key_index_push(s.drop_first(), x, b);
    } else {
        assert(s.push(x)[0] == x);
        assert(s.push(x).drop_first() =~= Seq::<(i64, i64)>::empty());
        assert(key_index(Seq::<(i64, i64)>::empty(), b) is None);
        assert(key_index(s, b) is None);
    }
}

/// Updating the entry at the first position of a key changes only that key.
proof fn lemma_keyed_update(s: Seq<(i64, i64)>, j: int, k: i64, v: i64)
    requires
        key_index(s, k) == Some(j),
    ensures
        keyed(s.update(j, (k, v)), k) == Some(v),
        forall|b: i64| b != k ==> #[trigger] keyed(s.update(j, (k, v)), b) == keyed(s, b),
{
    lemma_key_index(s, k);
    let t = s.update(j, (k, v));
    assert forall|b: i64| key_index(t, b) == key_index(s, b) by {
        lemma_key_index_same_keys(t, s, b);
    }
    assert forall|b: i64| b != k implies #[trigger] keyed(t, b) == keyed(s, b) by {
        assert(key_index(t, b) == key_index(s, b));
        lemma_key_index(s, b);
    }
    assert(key_index(t, k) == Some(j));
}

/// Appending a key that is absent changes only that key.
proof fn lemma_keyed_push(s: Seq<(i64, i64)>, k: i64, v: i64)
    requires
        key_index(s, k) is None,
    ensures
        keyed(s.push((k, v)), k) == Some(v),
        forall|b: i64| b != k ==> #[trigger] keyed(s.push((k, v)), b) == keyed(s, b),
{
    let t = s.push((k, v));
    lemma_key_index_push(s, (k, v), k);
    assert forall|b: i64| b != k implies #[trigger] keyed(t, b) == keyed(s, b) by {
        lemma_key_index_push(s, (k, v), b);
        lemma_key_index(s, b);
    }
}

/// A copy of a list of pairs.
fn copy_pairs(v: &Vec<(i64, i64)>) -> (r: Vec<(i64, i64)>)
    ensures
        r@ == v@,
{
    let mut out: Vec<(i64, i64)> = Vec::new();
    let mut i: usize = 0;
    while i < v.len()
        invariant
            i <= v@.len(),
            out@ == v@.subrange(0, i as int),
        decreases v@.len() - i,
    {
        out.push(v[i]);
        i = i + 1;
        assert(out@ =~= v@.subrange(0, i as int));
    }
    assert(v@.subrange(0, v@.len() as int) =~= v@);
    out
}

/// Whether a learning request names a positive viewer and character and
/// a non-negative api count (else it is answered `invalid_request_body`).
pub fn learn_request_valid(viewer_id: i64, character_id: i64, api_count: i64) -> (r: bool)
    ensures
        r == (viewer_id > 0 && character_id > 0 && api_count >= 0),
{
    viewer_id > 0 && character_id > 0 && api_count >= 0
}

/// Whether an awakening request names a positive viewer, character and
/// level (else it is answered `invalid_request_body`).
pub fn awake_request_valid(viewer_id: i64, character_id: i64, awake_level: i64) -> (r: bool)
    ensures
        r == (viewer_id > 0 && character_id > 0 && awake_level > 0),
{
    viewer_id > 0 && character_id > 0 && awake_level > 0
}

/// The endpoints of the mana service.
#[derive(Clone, Copy, Debug, PartialEq, Eq, Structural)]
pub enum ManaEndpoint {
    LearnManaNode,
    AwakeManaNode,
}

/// Which endpoint a request is for; `None` where it is not one of them.
pub fn route(method: &str, path: &str) -> (r: Option<ManaEndpoint>)
    ensures
        r == (if method@ != "POST"@ {
            None
        } else if path@ == "/api/index.php/character/learn_mana_node"@ {
            Some(ManaEndpoint::LearnManaNode)
        } else if path@ == "/api/index.php/character/awake_mana_node"@ {
            Some(ManaEndpoint::AwakeManaNode)
        } else {
            None
        }),
{
    if !str_eq(method, "POST") {
        None
    } else if str_eq(path, "/api/index.php/character/learn_mana_node") {
        Some(ManaEndpoint::LearnManaNode)
    } else if str_eq(path, "/api/index.php/character/awake_mana_node") {
        Some(ManaEndpoint::AwakeManaNode)
    } else {
        None
    }
}

/// The JSON error answer of this service.
pub fn error_response(status: &str, code: &str) -> (r: JsonResponse)
    ensures
        r.status@ == status@,
        r.body@ == error_body(code@),
{
    json_error(status, code)
}

} // verus!
