//! The cost of awakening a mana node as the awakening table writes it: a
//! slot by the node's kind, and item lists written as comma-separated text.
use vstd::prelude::*;

use crate::text::{parse_i64, spec_parse_i64, str_eq};

verus! {

/// The slot of the awakening table a node uses, by the kind text of the
/// node: "1", "2" and "3" name their slot, anything else slot 4.
pub open spec fn spec_awake_slot(kind: Seq<char>) -> i64 {
    if kind == "1"@ {
        1
    } else if kind == "2"@ {
        2
    } else if kind == "3"@ {
        3
    } else {
        4
    }
}

/// The slot of the awakening table a node uses.
pub fn awake_slot(kind: &str) -> (r: i64)
    ensures
        r == spec_awake_slot(kind@),
{
    if str_eq(kind, "1") {
        1
    } else if str_eq(kind, "2") {
        2
    } else if str_eq(kind, "3") {
        3
    } else {
        4
    }
}

/// The pieces of a text between commas (one empty piece for an empty
/// text), as `str::split(',')` gives them.
pub open spec fn split_commas(s: Seq<char>) -> Seq<Seq<char>>
    decreases s.len(),
{
    if s.len() == 0 {
        seq![seq![]]
    } else {
        let parts = split_commas(s.drop_last());
        if s.last() == ',' {
            parts.push(seq![])
        } else {
            parts.update(parts.len() - 1, parts.last().push(s.last()))
        }
    }
}

proof fn lemma_split_commas_nonempty(s: Seq<char>)
    ensures
        split_commas(s).len() >= 1,
    decreases s.len(),
{
    if s.len() > 0 {
        lemma_split_commas_nonempty(s.drop_last());
    }
}

/// A piece read as an integer, 0 where it is not one.
pub open spec fn int_or_zero(piece: Seq<char>) -> i64 {
    match spec_parse_i64(piece) {
        Some(v) => v,
        None => 0,
    }
}

/// The pieces of a comma-separated text read as integers.
pub open spec fn comma_values(s: Seq<char>) -> Seq<i64> {
    split_commas(s).map_values(|piece: Seq<char>| int_or_zero(piece))
}

/// The pieces of a comma-separated text read as integers (0 where a piece
/// is not an integer).
pub fn parse_comma_values(s: &str) -> (r: Vec<i64>)
    ensures
        r@ == comma_values(s@),
{
    let len = s.unicode_len();
    let mut out: Vec<i64> = Vec::new();
    let mut start: usize = 0;
    let mut i: usize = 0;
    assert(s@.subrange(0, 0) =~= Seq::<char>::empty());
    assert(s@.subrange(0, 0).len() == 0);
    assert(split_commas(s@.subrange(0, 0)) =~= seq![s@.subrange(0, 0)]);
    while i < len
        invariant
            len == s@.len(),
            start <= i <= len,
            split_commas(s@.subrange(0, i as int)).len() == out@.len() + 1,
            split_commas(s@.subrange(0, i as int)).last() == s@.subrange(start as int, i as int),
            forall|k: int|
                0 <= k < out@.len() ==> out@[k] == int_or_zero(
                    #[trigger] split_commas(s@.subrange(0, i as int))[k],
                ),
        decreases len - i,
    {
        let ghost prefix = s@.subrange(0, i as int);
        let ghost next = s@.subrange(0, i + 1);
        assert(next.drop_last() =~= prefix);
        assert(next.last() == s@[i as int]);
        let c = s.get_char(i);
        if c == ',' {
            let piece = s.substring_char(start, i);
            out.push(
                match parse_i64(piece) {
                    Some(v) => v,
                    None => 0,
                },
            );
            start = i + 1;
            proof {
                assert(split_commas(next) == split_commas(prefix).push(seq![]));
                assert(s@.subrange(start as int, i + 1) =~= Seq::<char>::empty());
                assert forall|k: int| 0 <= k < out@.len() implies out@[k] == int_or_zero(
                    #[trigger] split_commas(next)[k],
                ) by {
                    if k < out@.len() - 1 {
                        assert(split_commas(next)[k] == split_commas(prefix)[k]);
                    }
                }
            }
        } else {
            proof {
                lemma_split_commas_nonempty(prefix);
                let parts = split_commas(prefix);
                assert(split_commas(next) == parts.update(parts.len() - 1, parts.last().push(c)));
                assert(s@.subrange(start as int, i + 1) =~= s@.subrange(start as int, i as int).push(
                    c,
                ));
                assert forall|k: int| 0 <= k < out@.len() implies out@[k] == int_or_zero(
                    #[trigger] split_commas(next)[k],
                ) by {
                    assert(split_commas(next)[k] == parts[k]);
                }
            }
        }
        i = i + 1;
    }
    let piece = s.substring_char(start, len);
    out.push(
        match parse_i64(piece) {
            Some(v) => v,
            None => 0,
        },
    );
    assert(s@.subrange(0, len as int) =~= s@);
    assert(out@ =~= comma_values(s@));
    out
}

/// The items an awakening costs, as a map from item id to amount: the
/// item ids and amounts paired in order (as far as both lists go), those
/// with a positive id and amount kept, amounts of the same item summed.
pub open spec fn cost_items(ids: Seq<i64>, amounts: Seq<i64>) -> Map<i64, int>
    decreases ids.len(),
{
    if ids.len() == 0 {
        Map::empty()
    } else {
        let n = ids.len() - 1;
        let prev = cost_items(ids.drop_last(), amounts);
        if n < amounts.len() && ids[n] > 0 && amounts[n] > 0 {
            prev.insert(
                ids[n],
                (if prev.contains_key(ids[n]) {
                    prev[ids[n]]
                } else {
                    0
                }) + amounts[n],
            )
        } else {
            prev
        }
    }
}

/// Whether every summed amount fits in `i64` along the way.
pub open spec fn cost_sums_fit(ids: Seq<i64>, amounts: Seq<i64>) -> bool
    decreases ids.len(),
{
    if ids.len() == 0 {
        true
    } else {
        let n = ids.len() - 1;
        let prev = cost_items(ids.drop_last(), amounts);
        cost_sums_fit(ids.drop_last(), amounts) && (n < amounts.len() && ids[n] > 0 && amounts[n]
            > 0 && prev.contains_key(ids[n]) ==> prev[ids[n]] + amounts[n] <= i64::MAX)
    }
}

/// Whether a list of items comes in strictly ascending order of item id.
pub open spec fn strictly_ascending(items: Seq<(i64, i64)>) -> bool {
    forall|i: int, j: int| 0 <= i < j < items.len() ==> items[i].0 < items[j].0
}

/// Whether a list of items lists exactly a map of amounts.
pub open spec fn lists_map(items: Seq<(i64, i64)>, m: Map<i64, int>) -> bool {
    &&& forall|i: int| 0 <= i < items.len() ==> m.contains_key(#[trigger] items[i].0) && m[items[i].0] == items[i].1
    &&& forall|k: i64| m.contains_key(k) ==> exists|i: int| 0 <= i < items.len() && #[trigger] items[i].0 == k
}

/// The items an awakening costs, in ascending order of item id, from the
/// id and amount texts of the awakening table.
pub fn awake_cost_items(ids_text: &str, amounts_text: &str) -> (r: Vec<(i64, i64)>)
    requires
        cost_sums_fit(comma_values(ids_text@), comma_values(amounts_text@)),
    ensures
        strictly_ascending(r@),
        lists_map(r@, cost_items(comma_values(ids_text@), comma_values(amounts_text@))),
{
    let ids = parse_comma_values(ids_text);
    let amounts = parse_comma_values(amounts_text);
    let mut items: Vec<(i64, i64)> = Vec::new();
    let mut n: usize = 0;
    assert(ids@.subrange(0, 0) =~= Seq::<i64>::empty());
    while n < ids.len()
        invariant
            n <= ids@.len(),
            cost_sums_fit(ids@, amounts@),
            strictly_ascending(items@),
            lists_map(items@, cost_items(ids@.subrange(0, n as int), amounts@)),
        decreases ids@.len() - n,
    {
        let ghost prefix = ids@.subrange(0, n as int);
        let ghost next = ids@.subrange(0, n + 1);
        assert(next.drop_last() =~= prefix);
        proof {
            lemma_sums_fit_prefix(ids@, amounts@, n + 1);
        }
        let ghost before = cost_items(prefix, amounts@);
        if n < amounts.len() && ids[n] > 0 && amounts[n] > 0 {
            let id = ids[n];
            let amount = amounts[n];
            let mut pos: usize = 0;
            while pos < items.len() && items[pos].0 < id
                invariant
                    pos <= items@.len(),
                    forall|k: int| 0 <= k < pos ==> items@[k].0 < id,
                decreases items@.len() - pos,
            {
                pos = pos + 1;
            }
            let ghost old_items = items@;
            if pos < items.len() && items[pos].0 == id {
                assert(before.contains_key(id) && before[id] == old_items[pos as int].1);
                let total = items[pos].1 + amount;
                items.set(pos, (id, total));
                proof {
                    let after = cost_items(next, amounts@);
                    assert(after == before.insert(id, before[id] + amount));
                    assert forall|i: int| 0 <= i < items@.len() implies after.contains_key(
                        #[trigger] items@[i].0,
                    ) && after[items@[i].0] == items@[i].1 by {
                        if i != pos {
                            assert(items@[i] == old_items[i]);
                            assert(old_items[i].0 != id);
                        }
                    }
                    assert forall|k: i64| after.contains_key(k) implies exists|i: int|
                        0 <= i < items@.len() && #[trigger] items@[i].0 == k by {
                        if k == id {
                            assert(items@[pos as int].0 == k);
                        } else {
                            let i = choose|i: int| 0 <= i < old_items.len() && #[trigger] old_items[i].0 == k;
                            assert(items@[i].0 == k);
                        }
                    }
                    assert(strictly_ascending(items@)) by {
                        assert forall|i: int, j: int| 0 <= i < j < items@.len() implies items@[i].0
                            < items@[j].0 by {
                            assert(items@[i].0 == old_items[i].0 && items@[j].0 == old_items[j].0);
                        }
                    }
                }
            } else {
                proof {
                    if before.contains_key(id) {
                        let i = choose|i: int| 0 <= i < old_items.len() && #[trigger] old_items[i].0 == id;
                        if i < pos {
                            assert(old_items[i].0 < id);
                        } else if i > pos {
                            assert(old_items[pos as int].0 < old_items[i].0);
                            assert(old_items[pos as int].0 > id);
                        }
                        assert(false);
                    }
                }
                items.insert(pos, (id, amount));
                proof {
                    let after = cost_items(next, amounts@);
                    assert(after == before.insert(id, amount as int));
                    assert forall|i: int| 0 <= i < items@.len() implies after.contains_key(
                        #[trigger] items@[i].0,
                    ) && after[items@[i].0] == items@[i].1 by {
                        if i < pos {
                            assert(items@[i] == old_items[i]);
                        } else if i > pos {
                            assert(items@[i] == old_items[i - 1]);
                        }
                    }
                    assert forall|k: i64| after.contains_key(k) implies exists|i: int|
                        0 <= i < items@.len() && #[trigger] items@[i].0 == k by {
                        if k == id {
                            assert(items@[pos as int].0 == k);
                        } else {
                            let i = choose|i: int| 0 <= i < old_items.len() && #[trigger] old_items[i].0 == k;
                            if i < pos {
                                assert(items@[i].0 == k);
                            } else {
                                assert(items@[i + 1].0 == k);
                            }
                        }
                    }
                    assert forall|i: int, j: int| 0 <= i < j < items@.len() implies items@[i].0
                        < items@[j].0 by {
                        if pos < old_items.len() {
                            assert(old_items[pos as int].0 > id);
                        }
                        if j < pos {
                            assert(items@[i] == old_items[i] && items@[j] == old_items[j]);
                        } else if j == pos {
                            assert(items@[i] == old_items[i]);
                        } else if i < pos {
                            assert(items@[i] == old_items[i] && items@[j] == old_items[j - 1]);
                        } else if i == pos {
                            assert(items@[j] == old_items[j - 1]);
                            assert(old_items[pos as int].0 <= old_items[j - 1].0);
                        } else {
                            assert(items@[i] == old_items[i - 1] && items@[j] == old_items[j - 1]);
                        }
                    }
                }
            }
        }
        n = n + 1;
    }
    assert(ids@.subrange(0, ids@.len() as int) =~= ids@);
    items
}

proof fn lemma_sums_fit_prefix(ids: Seq<i64>, amounts: Seq<i64>, n: int)
    requires
        0 <= n <= ids.len(),
        cost_sums_fit(ids, amounts),
    ensures
        cost_sums_fit(ids.subrange(0, n), amounts),
    decreases ids.len() - n,
{
    if n == ids.len() {
        assert(ids.subrange(0, n) =~= ids);
    } else {
        lemma_sums_fit_prefix(ids, amounts, n + 1);
        assert(ids.subrange(0, n + 1).drop_last() =~= ids.subrange(0, n));
    }
}

} // verus!
