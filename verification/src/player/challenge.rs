//! The daily challenge points a new day resets: each challenge goes back to
//! its base point plus the points its campaigns add.
use vstd::prelude::*;

use crate::error::ServiceError;

verus! {

/// The campaigns of a challenge as stored: absent, not a list, or the
/// additional point of each (`None` where one is no integer).
#[derive(Debug)]
pub enum CampaignList {
    Missing,
    NotList,
    Points(Vec<Option<i64>>),
}

/// A challenge of the default player: its id, its point and its
/// campaigns, each as far as the defaults hold a valid one.
pub struct ChallengeDefault {
    pub id: Option<i64>,
    pub point: Option<i64>,
    pub campaigns: CampaignList,
}

/// A stored challenge: its id where it has an integer one, its point and
/// its campaigns.
pub struct StoredChallenge {
    pub id: Option<i64>,
    pub point: Option<i64>,
    pub campaigns: CampaignList,
}

/// The plain values of a campaign list.
pub open spec fn campaigns_view(c: CampaignList) -> Option<Option<Seq<Option<i64>>>> {
    match c {
        CampaignList::Missing => None,
        CampaignList::NotList => Some(None),
        CampaignList::Points(points) => Some(Some(points@)),
    }
}

/// A stored challenge as plain values: id, point, campaigns.
pub type ChallengeView = (Option<i64>, Option<i64>, Option<Option<Seq<Option<i64>>>>);

/// The plain values of a stored challenge.
pub open spec fn challenge_view(c: StoredChallenge) -> ChallengeView {
    (c.id, c.point, campaigns_view(c.campaigns))
}

/// The plain values of the stored challenges.
pub open spec fn challenge_views(cs: Seq<StoredChallenge>) -> Seq<ChallengeView> {
    cs.map_values(|c: StoredChallenge| challenge_view(c))
}

/// The sum of the additional points of campaigns.
pub open spec fn points_sum(points: Seq<Option<i64>>) -> Result<i64, Seq<char>>
    decreases points.len(),
{
    if points.len() == 0 {
        Ok(0)
    } else {
        match points_sum(points.drop_last()) {
            Err(m) => Err(m),
            Ok(total) => match points.last() {
                None => Err("CN challenge campaign point is invalid"@),
                Some(p) => if i64::MIN <= total + p <= i64::MAX {
                    Ok((total + p) as i64)
                } else {
                    Err("CN challenge campaign points overflow"@)
                },
            },
        }
    }
}

/// The points campaigns add, or why they cannot be read.
pub open spec fn campaign_points(c: Option<Seq<Option<i64>>>) -> Result<i64, Seq<char>> {
    match c {
        None => Err("CN challenge campaigns are invalid"@),
        Some(points) => points_sum(points),
    }
}

/// The index of the first stored challenge with this id.
pub open spec fn challenge_index(stored: Seq<ChallengeView>, id: i64) -> Option<int>
    decreases stored.len(),
{
    if stored.len() == 0 {
        None
    } else if stored[0].0 == Some(id) {
        Some(0)
    } else {
        match challenge_index(stored.drop_first(), id) {
            Some(i) => Some(i + 1),
            None => None,
        }
    }
}

proof fn lemma_challenge_index(stored: Seq<ChallengeView>, id: i64)
    ensures
        challenge_index(stored, id) matches Some(i) ==> 0 <= i < stored.len() && stored[i].0 == Some(id),
    decreases stored.len(),
{
    if stored.len() > 0 && stored[0].0 != Some(id) {
        lemma_challenge_index(stored.drop_first(), id);
    }
}

/// The stored challenges after one default is applied: the stored
/// challenge of its id (keeping its campaigns, or taking the default's
/// where it has none) goes back to the default's base point (its point
/// less its campaigns' points) plus its campaigns' points; a challenge
/// the player lacks is added as the default has it.
pub open spec fn reset_one(
    stored: Seq<ChallengeView>,
    d: (Option<i64>, Option<i64>, Option<Option<Seq<Option<i64>>>>),
) -> Result<Seq<ChallengeView>, Seq<char>> {
    match d.0 {
        None => Err("default CN challenge point id is invalid"@),
        Some(id) => match d.2 {
            None => Err("default CN challenge campaigns are missing"@),
            Some(default_campaigns) => match d.1 {
                None => Err("default CN challenge point is invalid"@),
                Some(point) => match campaign_points(default_campaigns) {
                    Err(m) => Err(m),
                    Ok(default_sum) => if !(i64::MIN <= point - default_sum <= i64::MAX) {
                        Err("default CN challenge point underflows"@)
                    } else {
                        let base = point - default_sum;
                        match challenge_index(stored, id) {
                            Some(i) => {
                                let campaigns = match stored[i].2 {
                                    Some(c) => c,
                                    None => default_campaigns,
                                };
                                match campaign_points(campaigns) {
                                    Err(m) => Err(m),
                                    Ok(sum) => if base + sum <= i64::MAX && base + sum >= i64::MIN {
                                        Ok(
                                            stored.update(
                                                i,
                                                (stored[i].0, Some((base + sum) as i64), Some(campaigns)),
                                            ),
                                        )
                                    } else {
                                        Err("CN challenge point overflows"@)
                                    },
                                }
                            },
                            None => Ok(stored.push(d)),
                        }
                    },
                },
            },
        },
    }
}

/// The stored challenges after every default is applied in order, or the
/// first failure.
pub open spec fn spec_reset_challenges(
    stored: Seq<ChallengeView>,
    defaults: Seq<(Option<i64>, Option<i64>, Option<Option<Seq<Option<i64>>>>)>,
) -> Result<Seq<ChallengeView>, Seq<char>>
    decreases defaults.len(),
{
    if defaults.len() == 0 {
        Ok(stored)
    } else {
        match spec_reset_challenges(stored, defaults.drop_last()) {
            Err(m) => Err(m),
            Ok(s) => reset_one(s, defaults.last()),
        }
    }
}

/// The plain values of the defaults.
pub open spec fn default_views(ds: Seq<ChallengeDefault>) -> Seq<ChallengeView> {
    ds.map_values(|d: ChallengeDefault| default_view(d))
}

/// The sum of the additional points of campaigns.
fn sum_points(points: &Vec<Option<i64>>) -> (r: Result<i64, ServiceError>)
    ensures
        match points_sum(points@) {
            Ok(total) => r matches Ok(t) && t == total,
            Err(message) => r matches Err(e) && e.message@ == message,
        },
{
    let mut total: i64 = 0;
    let mut i: usize = 0;
    assert(points@.subrange(0, 0) =~= Seq::<Option<i64>>::empty());
    while i < points.len()
        invariant
            i <= points@.len(),
            points_sum(points@.subrange(0, i as int)) == Ok::<i64, Seq<char>>(total),
        decreases points@.len() - i,
    {
        assert(points@.subrange(0, i + 1).drop_last() =~= points@.subrange(0, i as int));
        match points[i] {
            None => {
                proof {
                    lemma_points_fail(points@, i + 1);
                }
                return Err(ServiceError::new("CN challenge campaign point is invalid"));
            },
            Some(p) => match total.checked_add(p) {
                Some(t) => total = t,
                None => {
                    proof {
                        lemma_points_fail(points@, i + 1);
                    }
                    return Err(ServiceError::new("CN challenge campaign points overflow"));
                },
            },
        }
        i = i + 1;
    }
    assert(points@.subrange(0, points@.len() as int) =~= points@);
    Ok(total)
}

proof fn lemma_points_fail(points: Seq<Option<i64>>, n: int)
    requires
        0 < n <= points.len(),
        points_sum(points.subrange(0, n)) is Err,
    ensures
        points_sum(points) == points_sum(points.subrange(0, n)),
    decreases points.len() - n,
{
    if n == points.len() {
        assert(points.subrange(0, n) =~= points);
    } else {
        assert(points.subrange(0, n + 1).drop_last() =~= points.subrange(0, n));
        lemma_points_fail(points, n + 1);
    }
}

/// The points campaigns add.
fn campaign_total(c: &CampaignList) -> (r: Result<i64, ServiceError>)
    requires
        !(c is Missing),
    ensures
        match campaign_points(campaigns_view(*c)->0) {
            Ok(total) => r matches Ok(t) && t == total,
            Err(message) => r matches Err(e) && e.message@ == message,
        },
{
    match c {
        CampaignList::Missing => Err(ServiceError::new("CN challenge campaigns are invalid")),
        CampaignList::NotList => Err(ServiceError::new("CN challenge campaigns are invalid")),
        CampaignList::Points(points) => sum_points(points),
    }
}

/// A copy of a campaign list.
fn copy_campaigns(c: &CampaignList) -> (r: CampaignList)
    ensures
        campaigns_view(r) == campaigns_view(*c),
{
    match c {
        CampaignList::Missing => CampaignList::Missing,
        CampaignList::NotList => CampaignList::NotList,
        CampaignList::Points(points) => CampaignList::Points(points.clone()),
    }
}

proof fn lemma_reset_fail(
    stored: Seq<ChallengeView>,
    defaults: Seq<(Option<i64>, Option<i64>, Option<Option<Seq<Option<i64>>>>)>,
    n: int,
)
    requires
        0 < n <= defaults.len(),
        spec_reset_challenges(stored, defaults.subrange(0, n)) is Err,
    ensures
        spec_reset_challenges(stored, defaults) == spec_reset_challenges(stored, defaults.subrange(0, n)),
    decreases defaults.len() - n,
{
    if n == defaults.len() {
        assert(defaults.subrange(0, n) =~= defaults);
    } else {
        assert(defaults.subrange(0, n + 1).drop_last() =~= defaults.subrange(0, n));
        lemma_reset_fail(stored, defaults, n + 1);
    }
}

/// The plain values of a default.
pub open spec fn default_view(d: ChallengeDefault) -> ChallengeView {
    (d.id, d.point, campaigns_view(d.campaigns))
}

/// The index of the first stored challenge with this id.
fn find_challenge(stored: &Vec<StoredChallenge>, id: i64) -> (r: Option<usize>)
    ensures
        match r {
            Some(i) => challenge_index(challenge_views(stored@), id) == Some(i as int) && i < stored@.len(),
            None => challenge_index(challenge_views(stored@), id) is None,
        },
{
    let ghost current = challenge_views(stored@);
    let mut i: usize = 0;
    assert(current.subrange(0, current.len() as int) =~= current);
    while i < stored.len()
        invariant
            i <= stored@.len(),
            current == challenge_views(stored@),
            challenge_index(current, id) == match challenge_index(
                current.subrange(i as int, current.len() as int),
                id,
            ) {
                Some(j) => Some(j + i),
                None => None::<int>,
            },
        decreases stored@.len() - i,
    {
        let ghost rest = current.subrange(i as int, current.len() as int);
        assert(rest.drop_first() =~= current.subrange(i + 1, current.len() as int));
        assert(rest[0] == current[i as int]);
        if stored[i].id == Some(id) {
            return Some(i);
        }
        i = i + 1;
    }
    None
}

/// Applies one default to the stored challenges.
fn reset_one_challenge(stored: &mut Vec<StoredChallenge>, d: &ChallengeDefault) -> (r: Result<(), ServiceError>)
    ensures
        match reset_one(challenge_views(old(stored)@), default_view(*d)) {
            Ok(after) => r is Ok && challenge_views(final(stored)@) == after,
            Err(message) => r matches Err(e) && e.message@ == message,
        },
{
    let ghost current = challenge_views(stored@);
    let id = match d.id {
        Some(id) => id,
        None => return Err(ServiceError::new("default CN challenge point id is invalid")),
    };
    if let CampaignList::Missing = d.campaigns {
        return Err(ServiceError::new("default CN challenge campaigns are missing"));
    }
    let point = match d.point {
        Some(p) => p,
        None => return Err(ServiceError::new("default CN challenge point is invalid")),
    };
    let default_sum = campaign_total(&d.campaigns)?;
    let base = match point.checked_sub(default_sum) {
        Some(b) => b,
        None => return Err(ServiceError::new("default CN challenge point underflows")),
    };
    proof {
        lemma_challenge_index(current, id);
    }
    let found = find_challenge(stored, id);
    match found {
        Some(i) => {
            let campaigns = match &stored[i].campaigns {
                CampaignList::Missing => copy_campaigns(&d.campaigns),
                other => copy_campaigns(other),
            };
            let sum = campaign_total(&campaigns)?;
            let reset = match base.checked_add(sum) {
                Some(v) => v,
                None => return Err(ServiceError::new("CN challenge point overflows")),
            };
            let ghost before = challenge_views(stored@);
            let ghost campaigns_v = campaigns_view(campaigns);
            let entry = StoredChallenge { id: stored[i].id, point: Some(reset), campaigns };
            stored.set(i, entry);
            assert(challenge_views(stored@) =~= before.update(
                i as int,
                (before[i as int].0, Some(reset), campaigns_v),
            ));
            Ok(())
        },
        None => {
            let ghost before = challenge_views(stored@);
            stored.push(StoredChallenge { id: d.id, point: d.point, campaigns: copy_campaigns(&d.campaigns) });
            assert(challenge_views(stored@) =~= before.push(default_view(*d)));
            Ok(())
        },
    }
}

/// Resets the daily challenge points of a new day: every default is
/// applied in order; on failure the stored challenges may be left part
/// way, and the caller keeps nothing of them.
pub fn reset_daily_challenge_points(stored: &mut Vec<StoredChallenge>, defaults: &Vec<ChallengeDefault>) -> (r:
    Result<(), ServiceError>)
    ensures
        match spec_reset_challenges(challenge_views(old(stored)@), default_views(defaults@)) {
            Ok(after) => r is Ok && challenge_views(final(stored)@) == after,
            Err(message) => r matches Err(e) && e.message@ == message,
        },
{
    let ghost start = challenge_views(stored@);
    let ghost dv = default_views(defaults@);
    let mut k: usize = 0;
    assert(dv.subrange(0, 0) =~= Seq::<ChallengeView>::empty());
    while k < defaults.len()
        invariant
            k <= defaults@.len(),
            start == challenge_views(old(stored)@),
            dv == default_views(defaults@),
            spec_reset_challenges(start, dv.subrange(0, k as int)) == Ok::<Seq<ChallengeView>, Seq<char>>(
                challenge_views(stored@),
            ),
        decreases defaults@.len() - k,
    {
        assert(dv.subrange(0, k + 1).drop_last() =~= dv.subrange(0, k as int));
        assert(dv.subrange(0, k + 1).last() == dv[k as int]);
        assert(dv[k as int] == default_view(defaults@[k as int]));
        match reset_one_challenge(stored, &defaults[k]) {
            Ok(()) => {},
            Err(e) => {
                proof {
                    lemma_reset_fail(start, dv, k + 1);
                }
                return Err(e);
            },
        }
        k = k + 1;
    }
    assert(dv.subrange(0, dv.len() as int) =~= dv);
    Ok(())
}

} // verus!
