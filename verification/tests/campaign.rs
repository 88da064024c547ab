use starpoint_service::gacha::campaign::{
    campaign_count_for_load, project_alias_for_load, project_temporary_response, redeem,
    reset_daily_counts, StoredCampaign,
};

fn entry(gacha_id: i64, campaign_id: i64, count: i64) -> StoredCampaign {
    StoredCampaign { is_object: true, gacha_id: Some(gacha_id), campaign_id: Some(campaign_id), count: Some(count) }
}

#[test]
fn loads_show_the_free_draws_left() {
    let list = vec![entry(5, 50, 0), entry(6, 60, 3)];
    assert_eq!(campaign_count_for_load(&list, 5, 50), 0);
    assert_eq!(campaign_count_for_load(&list, 6, 60), 3);
    assert_eq!(campaign_count_for_load(&list, 6, 61), 1);
    assert_eq!(campaign_count_for_load(&list, 7, 70), 1);
}

#[test]
fn a_free_draw_is_redeemed_once() {
    let mut list = vec![entry(5, 50, 1)];
    let used = redeem(&mut list, 5, Some(50)).unwrap();
    assert_eq!(used.count, Some(0));
    assert_eq!(list[0].count, Some(0));
    assert_eq!(redeem(&mut list, 5, Some(50)), Err("gacha_campaign_already_used"));
    assert_eq!(redeem(&mut list, 5, None), Err("gacha_campaign_not_found"));
    let fresh = redeem(&mut list, 9, Some(90)).unwrap();
    assert_eq!(fresh, entry(9, 90, 0));
    assert_eq!(list.len(), 2);
    assert_eq!(redeem(&mut list, 9, Some(90)), Err("gacha_campaign_already_used"));
}

#[test]
fn a_new_day_gives_every_free_draw_back() {
    let mut list = vec![entry(5, 50, 0), entry(6, 60, 0)];
    reset_daily_counts(&mut list).unwrap();
    assert_eq!(list, vec![entry(5, 50, 1), entry(6, 60, 1)]);
    let mut broken = vec![entry(5, 50, 0), StoredCampaign { is_object: false, gacha_id: None, campaign_id: None, count: None }];
    assert_eq!(reset_daily_counts(&mut broken).unwrap_err().message, "stored CN gacha campaign is invalid");
}

#[test]
fn canonical_campaigns_show_under_the_requested_id() {
    let mut list = vec![entry(1, 11, 1), entry(61, 61, 0)];
    project_alias_for_load(&mut list, 1, 61);
    assert_eq!(list, vec![entry(1, 11, 1), entry(61, 61, 1)]);
    let mut other = vec![entry(1, 11, 0)];
    project_alias_for_load(&mut other, 1, 62);
    assert_eq!(other, vec![entry(1, 11, 0), entry(62, 62, 0)]);
    let mut same = vec![entry(1, 11, 0)];
    project_alias_for_load(&mut same, 1, 1);
    assert_eq!(same, vec![entry(1, 11, 0)]);
    let mut temporary = vec![entry(1, 11, 1)];
    project_temporary_response(&mut temporary, 800_000).unwrap();
    assert_eq!(temporary, vec![entry(800_000, 800_000, 1)]);
}
