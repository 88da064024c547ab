//! The free-draw campaigns of gachas as a player holds them: redeeming the
//! daily free draw, resetting it each day, and showing the campaign of a
//! canonical gacha under the gacha id the client asked for.
use vstd::prelude::*;

use crate::error::ServiceError;
use crate::gacha::region::{is_enumerable, spec_is_enumerable, GachaRegionPolicy};
use crate::gacha::GachaCatalog;
use crate::mission::contains_i64;

verus! {

/// A campaign entry as stored: whether it is an object, and its gacha id,
/// campaign id and count where they are integers.
#[derive(Clone, Copy, Debug, PartialEq, Eq, Structural)]
pub struct StoredCampaign {
    pub is_object: bool,
    pub gacha_id: Option<i64>,
    pub campaign_id: Option<i64>,
    pub count: Option<i64>,
}

/// The index of the first entry of this gacha (and campaign, where one is
/// named).
pub open spec fn campaign_index(list: Seq<StoredCampaign>, gacha_id: i64, campaign_id: Option<i64>) -> Option<int>
    decreases list.len(),
{
    if list.len() == 0 {
        None
    } else if list[0].is_object && list[0].gacha_id == Some(gacha_id) && (campaign_id is None
        || list[0].campaign_id == campaign_id) {
        Some(0)
    } else {
        match campaign_index(list.drop_first(), gacha_id, campaign_id) {
            Some(i) => Some(i + 1),
            None => None,
        }
    }
}

proof fn lemma_campaign_index(list: Seq<StoredCampaign>, gacha_id: i64, campaign_id: Option<i64>)
    ensures
        campaign_index(list, gacha_id, campaign_id) matches Some(i) ==> 0 <= i < list.len()
            && list[i].is_object && list[i].gacha_id == Some(gacha_id) && (campaign_id is None
            || list[i].campaign_id == campaign_id),
    decreases list.len(),
{
    if list.len() > 0 && !(list[0].is_object && list[0].gacha_id == Some(gacha_id) && (
    campaign_id is None || list[0].campaign_id == campaign_id)) {
        lemma_campaign_index(list.drop_first(), gacha_id, campaign_id);
    }
}

/// The index of the first entry of this gacha (and campaign, where one is
/// named).
fn find_campaign(list: &Vec<StoredCampaign>, gacha_id: i64, campaign_id: Option<i64>) -> (r: Option<usize>)
    ensures
        match r {
            Some(i) => campaign_index(list@, gacha_id, campaign_id) == Some(i as int) && i < list@.len(),
            None => campaign_index(list@, gacha_id, campaign_id) is None,
        },
{
    let mut i: usize = 0;
    assert(list@.subrange(0, list@.len() as int) =~= list@);
    while i < list.len()
        invariant
            i <= list@.len(),
            campaign_index(list@, gacha_id, campaign_id) == match campaign_index(
                list@.subrange(i as int, list@.len() as int),
                gacha_id,
                campaign_id,
            ) {
                Some(j) => Some(j + i),
                None => None::<int>,
            },
        decreases list@.len() - i,
    {
        let ghost rest = list@.subrange(i as int, list@.len() as int);
        assert(rest.drop_first() =~= list@.subrange(i + 1, list@.len() as int));
        let c = list[i];
        if c.is_object && c.gacha_id == Some(gacha_id) && (campaign_id.is_none() || c.campaign_id
            == campaign_id) {
            return Some(i);
        }
        i = i + 1;
    }
    None
}

/// The free draws a gacha shows on load: the count of the player's entry
/// for the gacha and campaign, and 1 where there is none or it has no
/// integer count.
pub fn campaign_count_for_load(list: &Vec<StoredCampaign>, gacha_id: i64, campaign_id: i64) -> (r: i64)
    ensures
        r == match campaign_index(list@, gacha_id, Some(campaign_id)) {
            Some(i) => match list@[i].count {
                Some(c) => c,
                None => 1,
            },
            None => 1,
        },
{
    match find_campaign(list, gacha_id, Some(campaign_id)) {
        Some(i) => match list[i].count {
            Some(c) => c,
            None => 1,
        },
        None => 1,
    }
}

/// What redeeming a gacha's free draw does: refused with
/// `gacha_campaign_not_found` where the gacha has no campaign and with
/// `gacha_campaign_already_used` where the player's entry has no draw
/// left; else the entry's count becomes 0 (a new entry where the player
/// has none).
pub open spec fn spec_redeem(list: Seq<StoredCampaign>, gacha_id: i64, campaign_id: Option<i64>) -> Result<
    (Seq<StoredCampaign>, StoredCampaign),
    Seq<char>,
> {
    match campaign_id {
        None => Err("gacha_campaign_not_found"@),
        Some(c) => match campaign_index(list, gacha_id, Some(c)) {
            Some(i) => if (match list[i].count {
                Some(n) => n,
                None => 0,
            }) <= 0 {
                Err("gacha_campaign_already_used"@)
            } else {
                let used = StoredCampaign { count: Some(0), ..list[i] };
                Ok((list.update(i, used), used))
            },
            None => {
                let used = StoredCampaign {
                    is_object: true,
                    gacha_id: Some(gacha_id),
                    campaign_id: Some(c),
                    count: Some(0),
                };
                Ok((list.push(used), used))
            },
        },
    }
}

/// Redeems a gacha's free draw; `campaign_id` is the gacha's campaign in
/// the campaign master, where it has one. A refusal leaves the entries as
/// they were.
pub fn redeem(list: &mut Vec<StoredCampaign>, gacha_id: i64, campaign_id: Option<i64>) -> (r: Result<
    StoredCampaign,
    &'static str,
>)
    ensures
        match spec_redeem(old(list)@, gacha_id, campaign_id) {
            Ok((after, used)) => final(list)@ == after && r == Ok::<StoredCampaign, &'static str>(used),
            Err(code) => final(list)@ == old(list)@ && (r matches Err(c) && c@ == code),
        },
{
    proof {
        lemma_campaign_index(list@, gacha_id, campaign_id);
    }
    let c = match campaign_id {
        Some(c) => c,
        None => {
            proof {
                reveal_strlit("gacha_campaign_not_found");
            }
            return Err("gacha_campaign_not_found");
        },
    };
    proof {
        lemma_campaign_index(list@, gacha_id, Some(c));
    }
    match find_campaign(list, gacha_id, Some(c)) {
        Some(i) => {
            let entry = list[i];
            let left = match entry.count {
                Some(n) => n,
                None => 0,
            };
            if left <= 0 {
                proof {
                    reveal_strlit("gacha_campaign_already_used");
                }
                return Err("gacha_campaign_already_used");
            }
            let used = StoredCampaign { count: Some(0), ..entry };
            list.set(i, used);
            Ok(used)
        },
        None => {
            let used = StoredCampaign {
                is_object: true,
                gacha_id: Some(gacha_id),
                campaign_id: Some(c),
                count: Some(0),
            };
            list.push(used);
            Ok(used)
        },
    }
}

/// Every entry with one free draw again, or `None` where an entry is not
/// an object.
pub open spec fn spec_reset_daily_counts(list: Seq<StoredCampaign>) -> Option<Seq<StoredCampaign>> {
    if forall|i: int| 0 <= i < list.len() ==> #[trigger] list[i].is_object {
        Some(list.map_values(|c: StoredCampaign| StoredCampaign { count: Some(1), ..c }))
    } else {
        None
    }
}

/// Gives every free-draw campaign its daily draw back.
pub fn reset_daily_counts(list: &mut Vec<StoredCampaign>) -> (r: Result<(), ServiceError>)
    ensures
        match spec_reset_daily_counts(old(list)@) {
            Some(after) => r is Ok && final(list)@ == after,
            None => r matches Err(e) && e.message@ == "stored CN gacha campaign is invalid"@,
        },
{
    let ghost before = list@;
    let mut i: usize = 0;
    while i < list.len()
        invariant
            i <= list@.len(),
            list@.len() == before.len(),
            before == old(list)@,
            forall|j: int| 0 <= j < i ==> #[trigger] before[j].is_object,
            forall|j: int|
                0 <= j < list@.len() ==> #[trigger] list@[j] == if j < i {
                    StoredCampaign { count: Some(1), ..before[j] }
                } else {
                    before[j]
                },
        decreases list@.len() - i,
    {
        let entry = list[i];
        if !entry.is_object {
            return Err(ServiceError::new("stored CN gacha campaign is invalid"));
        }
        list.set(i, StoredCampaign { count: Some(1), ..entry });
        i = i + 1;
    }
    assert(list@ =~= before.map_values(|c: StoredCampaign| StoredCampaign { count: Some(1), ..c }));
    Ok(())
}

/// The entries after a canonical gacha's campaign is shown under the id
/// the client asked for: a copy of its first entry, renamed to that id
/// (as gacha and campaign), replaces the first entry already under it or
/// is added; nothing changes where the ids are the same or the canonical
/// gacha has no entry.
pub open spec fn spec_project_alias(list: Seq<StoredCampaign>, canonical_gacha_id: i64, response_gacha_id: i64) -> Seq<
    StoredCampaign,
> {
    if canonical_gacha_id == response_gacha_id {
        list
    } else {
        match campaign_index(list, canonical_gacha_id, None) {
            None => list,
            Some(i) => {
                let projected = StoredCampaign {
                    gacha_id: Some(response_gacha_id),
                    campaign_id: Some(response_gacha_id),
                    ..list[i]
                };
                match campaign_index(list, response_gacha_id, Some(response_gacha_id)) {
                    Some(j) => list.update(j, projected),
                    None => list.push(projected),
                }
            },
        }
    }
}

/// Shows a canonical gacha's campaign under the gacha id the client asked
/// for.
pub fn project_alias_for_load(list: &mut Vec<StoredCampaign>, canonical_gacha_id: i64, response_gacha_id: i64)
    ensures
        final(list)@ == spec_project_alias(old(list)@, canonical_gacha_id, response_gacha_id),
{
    if canonical_gacha_id == response_gacha_id {
        return;
    }
    proof {
        lemma_campaign_index(list@, canonical_gacha_id, None);
        lemma_campaign_index(list@, response_gacha_id, Some(response_gacha_id));
    }
    let i = match find_campaign(list, canonical_gacha_id, None) {
        Some(i) => i,
        None => return,
    };
    let projected = StoredCampaign {
        gacha_id: Some(response_gacha_id),
        campaign_id: Some(response_gacha_id),
        ..list[i]
    };
    match find_campaign(list, response_gacha_id, Some(response_gacha_id)) {
        Some(j) => list.set(j, projected),
        None => list.push(projected),
    }
}

/// The campaigns of a temporary alias shown under the id the client asked
/// for, or `None` where an entry is not an object.
pub open spec fn spec_project_temporary(list: Seq<StoredCampaign>, response_gacha_id: i64) -> Option<Seq<StoredCampaign>> {
    if forall|i: int| 0 <= i < list.len() ==> #[trigger] list[i].is_object {
        Some(
            list.map_values(
                |c: StoredCampaign|
                    StoredCampaign {
                        gacha_id: Some(response_gacha_id),
                        campaign_id: Some(response_gacha_id),
                        ..c
                    },
            ),
        )
    } else {
        None
    }
}

/// Shows the campaigns of a temporary alias under the id the client asked
/// for.
pub fn project_temporary_response(list: &mut Vec<StoredCampaign>, response_gacha_id: i64) -> (r: Result<
    (),
    ServiceError,
>)
    ensures
        match spec_project_temporary(old(list)@, response_gacha_id) {
            Some(after) => r is Ok && final(list)@ == after,
            None => r matches Err(e) && e.message@ == "stored CN gacha campaign is invalid"@,
        },
{
    let ghost before = list@;
    let mut i: usize = 0;
    while i < list.len()
        invariant
            i <= list@.len(),
            list@.len() == before.len(),
            before == old(list)@,
            forall|j: int| 0 <= j < i ==> #[trigger] before[j].is_object,
            forall|j: int|
                0 <= j < list@.len() ==> #[trigger] list@[j] == if j < i {
                    StoredCampaign {
                        gacha_id: Some(response_gacha_id),
                        campaign_id: Some(response_gacha_id),
                        ..before[j]
                    }
                } else {
                    before[j]
                },
        decreases list@.len() - i,
    {
        let entry = list[i];
        if !entry.is_object {
            return Err(ServiceError::new("stored CN gacha campaign is invalid"));
        }
        list.set(
            i,
            StoredCampaign {
                gacha_id: Some(response_gacha_id),
                campaign_id: Some(response_gacha_id),
                ..entry
            },
        );
        i = i + 1;
    }
    assert(list@ =~= before.map_values(
        |c: StoredCampaign|
            StoredCampaign {
                gacha_id: Some(response_gacha_id),
                campaign_id: Some(response_gacha_id),
                ..c
            },
    ));
    Ok(())
}

/// A free draw is redeemed once a day: right after a redeem succeeds, a
/// second redeem of the same gacha and campaign is refused as used.
pub proof fn lemma_redeem_once(list: Seq<StoredCampaign>, gacha_id: i64, campaign_id: Option<i64>)
    ensures
        spec_redeem(list, gacha_id, campaign_id) matches Ok((after, _)) ==> spec_redeem(
            after,
            gacha_id,
            campaign_id,
        ) == Err::<(Seq<StoredCampaign>, StoredCampaign), Seq<char>>("gacha_campaign_already_used"@),
{
    if let Some(c) = campaign_id {
        lemma_campaign_index(list, gacha_id, Some(c));
        match campaign_index(list, gacha_id, Some(c)) {
            Some(i) => {
                let used = StoredCampaign { count: Some(0), ..list[i] };
                lemma_index_after_update(list, gacha_id, c, i, used);
            },
            None => {
                let used = StoredCampaign {
                    is_object: true,
                    gacha_id: Some(gacha_id),
                    campaign_id: Some(c),
                    count: Some(0),
                };
                lemma_index_after_push(list, gacha_id, c, used);
            },
        }
    }
}

proof fn lemma_index_after_update(list: Seq<StoredCampaign>, gacha_id: i64, c: i64, i: int, x: StoredCampaign)
    requires
        campaign_index(list, gacha_id, Some(c)) == Some(i),
        x.is_object && x.gacha_id == Some(gacha_id) && x.campaign_id == Some(c),
    ensures
        campaign_index(list.update(i, x), gacha_id, Some(c)) == Some(i),
    decreases list.len(),
{
    lemma_campaign_index(list, gacha_id, Some(c));
    if i > 0 {
        assert(list.update(i, x).drop_first() =~= list.drop_first().update(i - 1, x));
        lemma_index_after_update(list.drop_first(), gacha_id, c, i - 1, x);
    }
}

proof fn lemma_index_after_push(list: Seq<StoredCampaign>, gacha_id: i64, c: i64, x: StoredCampaign)
    requires
        campaign_index(list, gacha_id, Some(c)) is None,
        x.is_object && x.gacha_id == Some(gacha_id) && x.campaign_id == Some(c),
    ensures
        campaign_index(list.push(x), gacha_id, Some(c)) == Some(list.len() as int),
    decreases list.len(),
{
    if list.len() > 0 {
        assert(list.push(x).drop_first() =~= list.drop_first().push(x));
        lemma_index_after_push(list.drop_first(), gacha_id, c, x);
    }
}


/// The campaign list a player loads: each campaign of the campaign catalog
/// (`campaigns`, as `(gacha id, campaign id)` in catalog order) whose gacha
/// may be listed and is available now (`available` holds the gachas that
/// are), with the count that `campaign_count_for_load` gives it.
pub open spec fn spec_campaigns_for_load(
    policy: &GachaRegionPolicy,
    catalog: &GachaCatalog,
    campaigns: Seq<(i64, i64)>,
    available: Seq<i64>,
    existing: Seq<StoredCampaign>,
) -> Seq<(i64, i64, i64)>
    decreases campaigns.len(),
{
    if campaigns.len() == 0 {
        seq![]
    } else {
        let (gacha_id, campaign_id) = campaigns.last();
        let rest = spec_campaigns_for_load(policy, catalog, campaigns.drop_last(), available, existing);
        if spec_is_enumerable(policy, catalog, gacha_id) && available.contains(gacha_id) {
            rest.push((gacha_id, campaign_id, match campaign_index(existing, gacha_id, Some(campaign_id)) {
                Some(i) => match existing[i].count {
                    Some(c) => c,
                    None => 1,
                },
                None => 1,
            }))
        } else {
            rest
        }
    }
}

/// The campaign list a player loads, as `(gacha id, campaign id, count)`;
/// see `spec_campaigns_for_load`.
pub fn replace_available_for_load(
    policy: &GachaRegionPolicy,
    catalog: &GachaCatalog,
    campaigns: &Vec<(i64, i64)>,
    available: &Vec<i64>,
    existing: &Vec<StoredCampaign>,
) -> (r: Vec<(i64, i64, i64)>)
    ensures
        r@ == spec_campaigns_for_load(policy, catalog, campaigns@, available@, existing@),
{
    let mut list: Vec<(i64, i64, i64)> = Vec::new();
    let mut i: usize = 0;
    while i < campaigns.len()
        invariant
            i <= campaigns@.len(),
            list@ == spec_campaigns_for_load(
                policy,
                catalog,
                campaigns@.subrange(0, i as int),
                available@,
                existing@,
            ),
        decreases campaigns@.len() - i,
    {
        let (gacha_id, campaign_id) = campaigns[i];
        proof {
            assert(campaigns@.subrange(0, i + 1).drop_last() =~= campaigns@.subrange(0, i as int));
            assert(campaigns@.subrange(0, i + 1).last() == campaigns@[i as int]);
        }
        if is_enumerable(policy, catalog, gacha_id) && contains_i64(available, gacha_id) {
            let count = campaign_count_for_load(existing, gacha_id, campaign_id);
            list.push((gacha_id, campaign_id, count));
        }
        i = i + 1;
    }
    assert(campaigns@.subrange(0, campaigns@.len() as int) =~= campaigns@);
    list
}

} // verus!
