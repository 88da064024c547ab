use starpoint_service::special_exchange::{
    adjust_ticket_count, campaign_status, draw_decision, exchange_decision, route,
    set_campaign_status, ExchangeEndpoint, StoredExchangeCampaign, ALREADY_DRAWN_RESULT_CODE,
    CAMPAIGN_ERROR_RESULT_CODE, TICKET_ITEM_ID,
};

fn campaign(id: i64, status: Option<i64>) -> StoredExchangeCampaign {
    StoredExchangeCampaign { is_object: true, campaign_id: Some(id), status, ticket_item_id: None }
}

#[test]
fn exchange_endpoints_route_by_post_path() {
    assert_eq!(
        route("POST", "/api/index.php/multi_special_exchange/exchange_character"),
        Some(ExchangeEndpoint::ExchangeCharacter)
    );
    assert_eq!(route("GET", "/api/index.php/multi_special_exchange/exchange_character"), None);
}

#[test]
fn the_status_comes_from_the_first_entry_with_one() {
    let list = vec![campaign(5, None), campaign(4, Some(9)), campaign(5, Some(2)), campaign(5, Some(3))];
    assert_eq!(campaign_status(&list, 5), Some(2));
    assert_eq!(campaign_status(&list, 6), None);
}

#[test]
fn a_ticket_is_drawn_once_then_exchanged_once() {
    assert_eq!(draw_decision(5, Some(2)), Ok(()));
    assert_eq!(draw_decision(5, Some(3)), Err(ALREADY_DRAWN_RESULT_CODE));
    assert_eq!(draw_decision(5, Some(4)), Err(ALREADY_DRAWN_RESULT_CODE));
    assert_eq!(draw_decision(5, Some(1)), Err(CAMPAIGN_ERROR_RESULT_CODE));
    assert_eq!(draw_decision(6, Some(2)), Err(CAMPAIGN_ERROR_RESULT_CODE));
    assert_eq!(exchange_decision(5, TICKET_ITEM_ID, Some(3), 1), Ok(()));
    assert_eq!(exchange_decision(5, TICKET_ITEM_ID, Some(3), 0), Err(CAMPAIGN_ERROR_RESULT_CODE));
    assert_eq!(exchange_decision(5, TICKET_ITEM_ID, Some(4), 1), Err(ALREADY_DRAWN_RESULT_CODE));
    assert_eq!(exchange_decision(5, 1, Some(3), 1), Err(CAMPAIGN_ERROR_RESULT_CODE));
    let mut list = vec![campaign(5, Some(2))];
    set_campaign_status(&mut list, 5, 3, Some(TICKET_ITEM_ID)).unwrap();
    assert_eq!(list[0].ticket_item_id, Some(TICKET_ITEM_ID));
    assert_eq!(draw_decision(5, campaign_status(&list, 5)), Err(ALREADY_DRAWN_RESULT_CODE));
    set_campaign_status(&mut list, 5, 4, None).unwrap();
    assert_eq!(list[0].ticket_item_id, None);
    assert_eq!(
        exchange_decision(5, TICKET_ITEM_ID, campaign_status(&list, 5), 1),
        Err(ALREADY_DRAWN_RESULT_CODE)
    );
    let err = set_campaign_status(&mut list, 7, 3, None).unwrap_err();
    assert_eq!(err.message, "stored CN multi special exchange campaign is missing");
}

#[test]
fn ticket_counts_stay_in_range() {
    assert_eq!(adjust_ticket_count(None, 1).unwrap(), 1);
    assert_eq!(adjust_ticket_count(Some(1), -1).unwrap(), 0);
    assert!(adjust_ticket_count(Some(0), -1).is_err());
    assert!(adjust_ticket_count(Some(i64::MAX), 1).is_err());
}
