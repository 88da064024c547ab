use starpoint_service::player::challenge::{
    reset_daily_challenge_points, CampaignList, ChallengeDefault, StoredChallenge,
};

fn default(id: i64, point: i64, campaigns: Vec<i64>) -> ChallengeDefault {
    ChallengeDefault {
        id: Some(id),
        point: Some(point),
        campaigns: CampaignList::Points(campaigns.into_iter().map(Some).collect()),
    }
}

fn points(list: &CampaignList) -> Option<Vec<Option<i64>>> {
    match list {
        CampaignList::Points(p) => Some(p.clone()),
        _ => None,
    }
}

#[test]
fn a_new_day_resets_points_to_base_plus_campaigns() {
    let defaults = vec![default(1, 10, vec![2, 3]), default(2, 4, vec![])];
    let mut stored = vec![
        StoredChallenge { id: Some(1), point: Some(0), campaigns: CampaignList::Points(vec![Some(7)]) },
        StoredChallenge { id: Some(9), point: Some(1), campaigns: CampaignList::Missing },
    ];
    reset_daily_challenge_points(&mut stored, &defaults).unwrap();
    // base 10 - 5 = 5, plus the stored campaigns' 7
    assert_eq!(stored[0].point, Some(12));
    assert_eq!(points(&stored[0].campaigns), Some(vec![Some(7)]));
    assert_eq!(stored[1].point, Some(1));
    assert_eq!(stored.len(), 3);
    assert_eq!(stored[2].id, Some(2));
    assert_eq!(stored[2].point, Some(4));
}

#[test]
fn a_challenge_without_campaigns_takes_the_defaults() {
    let defaults = vec![default(1, 10, vec![2, 3])];
    let mut stored = vec![StoredChallenge { id: Some(1), point: Some(99), campaigns: CampaignList::Missing }];
    reset_daily_challenge_points(&mut stored, &defaults).unwrap();
    assert_eq!(stored[0].point, Some(10));
    assert_eq!(points(&stored[0].campaigns), Some(vec![Some(2), Some(3)]));
}

#[test]
fn broken_challenge_data_is_reported() {
    let mut stored = vec![StoredChallenge { id: Some(1), point: Some(0), campaigns: CampaignList::NotList }];
    let err = reset_daily_challenge_points(&mut stored, &vec![default(1, 10, vec![])]).unwrap_err();
    assert_eq!(err.message, "CN challenge campaigns are invalid");
    let no_id = ChallengeDefault { id: None, point: Some(1), campaigns: CampaignList::Points(vec![]) };
    let err = reset_daily_challenge_points(&mut vec![], &vec![no_id]).unwrap_err();
    assert_eq!(err.message, "default CN challenge point id is invalid");
    let bad_point = ChallengeDefault { id: Some(3), point: Some(1), campaigns: CampaignList::Points(vec![None]) };
    let err = reset_daily_challenge_points(&mut vec![], &vec![bad_point]).unwrap_err();
    assert_eq!(err.message, "CN challenge campaign point is invalid");
    let missing = ChallengeDefault { id: Some(3), point: Some(1), campaigns: CampaignList::Missing };
    let err = reset_daily_challenge_points(&mut vec![], &vec![missing]).unwrap_err();
    assert_eq!(err.message, "default CN challenge campaigns are missing");
    let low = default(4, i64::MIN, vec![1]);
    let err = reset_daily_challenge_points(&mut vec![], &vec![low]).unwrap_err();
    assert_eq!(err.message, "default CN challenge point underflows");
}
