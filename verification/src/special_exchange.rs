//! The character exchange campaign: a player draws one ticket, then trades
//! it for a character of their choice, once.
use vstd::prelude::*;

use crate::error::ServiceError;
use crate::text::str_eq;

verus! {

/// The campaign this exchange runs under.
pub const CAMPAIGN_ID: i64 = 5;

/// The item the ticket is.
pub const TICKET_ITEM_ID: i64 = 980_007;

/// The result code of a request the campaign does not allow.
pub const CAMPAIGN_ERROR_RESULT_CODE: i64 = 4901;

/// The result code of a ticket already drawn or used.
pub const ALREADY_DRAWN_RESULT_CODE: i64 = 4902;

/// The campaign status before the ticket is drawn.
pub const STATUS_OPEN: i64 = 2;

/// The campaign status once the ticket is drawn.
pub const STATUS_TICKET_DRAWN: i64 = 3;

/// The campaign status once the ticket is exchanged.
pub const STATUS_EXCHANGED: i64 = 4;

/// The endpoints of the exchange.
#[derive(Clone, Copy, Debug, PartialEq, Eq, Structural)]
pub enum ExchangeEndpoint {
    SingleDrawTicket,
    MultiDrawTicket,
    ExchangeCharacter,
}

/// The endpoint a request names, where it is one of the exchange.
pub fn route(method: &str, path: &str) -> (r: Option<ExchangeEndpoint>)
    ensures
        r == if method@ != "POST"@ {
            None
        } else if path@ == "/api/index.php/multi_special_exchange/single_draw_ticket"@ {
            Some(ExchangeEndpoint::SingleDrawTicket)
        } else if path@ == "/api/index.php/multi_special_exchange/multi_draw_ticket"@ {
            Some(ExchangeEndpoint::MultiDrawTicket)
        } else if path@ == "/api/index.php/multi_special_exchange/exchange_character"@ {
            Some(ExchangeEndpoint::ExchangeCharacter)
        } else {
            None
        },
{
    if !str_eq(method, "POST") {
        None
    } else if str_eq(path, "/api/index.php/multi_special_exchange/single_draw_ticket") {
        Some(ExchangeEndpoint::SingleDrawTicket)
    } else if str_eq(path, "/api/index.php/multi_special_exchange/multi_draw_ticket") {
        Some(ExchangeEndpoint::MultiDrawTicket)
    } else if str_eq(path, "/api/index.php/multi_special_exchange/exchange_character") {
        Some(ExchangeEndpoint::ExchangeCharacter)
    } else {
        None
    }
}

/// A stored campaign entry: whether it is an object, its campaign id and
/// status where they are integers, and its ticket item.
#[derive(Clone, Copy, Debug, PartialEq, Eq, Structural)]
pub struct StoredExchangeCampaign {
    pub is_object: bool,
    pub campaign_id: Option<i64>,
    pub status: Option<i64>,
    pub ticket_item_id: Option<i64>,
}

/// The status of a campaign: that of the first entry of the campaign that
/// has an integer status.
pub open spec fn spec_campaign_status(list: Seq<StoredExchangeCampaign>, campaign_id: i64) -> Option<i64>
    decreases list.len(),
{
    if list.len() == 0 {
        None
    } else if list[0].campaign_id == Some(campaign_id) && list[0].status is Some {
        list[0].status
    } else {
        spec_campaign_status(list.drop_first(), campaign_id)
    }
}

/// The status of a campaign.
pub fn campaign_status(list: &Vec<StoredExchangeCampaign>, campaign_id: i64) -> (r: Option<i64>)
    ensures
        r == spec_campaign_status(list@, campaign_id),
{
    let mut i: usize = 0;
    assert(list@.subrange(0, list@.len() as int) =~= list@);
    while i < list.len()
        invariant
            i <= list@.len(),
            spec_campaign_status(list@, campaign_id) == spec_campaign_status(
                list@.subrange(i as int, list@.len() as int),
                campaign_id,
            ),
        decreases list@.len() - i,
    {
        let ghost rest = list@.subrange(i as int, list@.len() as int);
        assert(rest.drop_first() =~= list@.subrange(i + 1, list@.len() as int));
        let c = list[i];
        if c.campaign_id == Some(campaign_id) && c.status.is_some() {
            return c.status;
        }
        i = i + 1;
    }
    None
}

/// Whether a ticket may be drawn: only for this exchange's campaign while
/// it is open; a drawn or used ticket answers `ALREADY_DRAWN_RESULT_CODE`,
/// anything else `CAMPAIGN_ERROR_RESULT_CODE`.
pub open spec fn spec_draw_decision(campaign_id: i64, status: Option<i64>) -> Result<(), i64> {
    if campaign_id != CAMPAIGN_ID {
        Err(CAMPAIGN_ERROR_RESULT_CODE)
    } else {
        match status {
            Some(s) => if s == STATUS_OPEN {
                Ok(())
            } else if s == STATUS_TICKET_DRAWN || s == STATUS_EXCHANGED {
                Err(ALREADY_DRAWN_RESULT_CODE)
            } else {
                Err(CAMPAIGN_ERROR_RESULT_CODE)
            },
            None => Err(CAMPAIGN_ERROR_RESULT_CODE),
        }
    }
}

/// Whether a ticket may be drawn, given the campaign's stored status.
pub fn draw_decision(campaign_id: i64, status: Option<i64>) -> (r: Result<(), i64>)
    ensures
        r == spec_draw_decision(campaign_id, status),
{
    if campaign_id != CAMPAIGN_ID {
        return Err(CAMPAIGN_ERROR_RESULT_CODE);
    }
    match status {
        Some(s) => if s == STATUS_OPEN {
            Ok(())
        } else if s == STATUS_TICKET_DRAWN || s == STATUS_EXCHANGED {
            Err(ALREADY_DRAWN_RESULT_CODE)
        } else {
            Err(CAMPAIGN_ERROR_RESULT_CODE)
        },
        None => Err(CAMPAIGN_ERROR_RESULT_CODE),
    }
}

/// Whether a ticket may be exchanged: only this exchange's ticket of this
/// campaign, once drawn and while the player holds one; a used ticket
/// answers `ALREADY_DRAWN_RESULT_CODE`, anything else
/// `CAMPAIGN_ERROR_RESULT_CODE`.
pub open spec fn spec_exchange_decision(
    campaign_id: i64,
    ticket_item_id: i64,
    status: Option<i64>,
    tickets: i64,
) -> Result<(), i64> {
    if campaign_id != CAMPAIGN_ID || ticket_item_id != TICKET_ITEM_ID {
        Err(CAMPAIGN_ERROR_RESULT_CODE)
    } else {
        match status {
            Some(s) => if s == STATUS_TICKET_DRAWN {
                if tickets < 1 {
                    Err(CAMPAIGN_ERROR_RESULT_CODE)
                } else {
                    Ok(())
                }
            } else if s == STATUS_EXCHANGED {
                Err(ALREADY_DRAWN_RESULT_CODE)
            } else {
                Err(CAMPAIGN_ERROR_RESULT_CODE)
            },
            None => Err(CAMPAIGN_ERROR_RESULT_CODE),
        }
    }
}

/// Whether a ticket may be exchanged, given the stored status and the
/// tickets the player holds.
pub fn exchange_decision(campaign_id: i64, ticket_item_id: i64, status: Option<i64>, tickets: i64) -> (r:
    Result<(), i64>)
    ensures
        r == spec_exchange_decision(campaign_id, ticket_item_id, status, tickets),
{
    if campaign_id != CAMPAIGN_ID || ticket_item_id != TICKET_ITEM_ID {
        return Err(CAMPAIGN_ERROR_RESULT_CODE);
    }
    match status {
        Some(s) => if s == STATUS_TICKET_DRAWN {
            if tickets < 1 {
                Err(CAMPAIGN_ERROR_RESULT_CODE)
            } else {
                Ok(())
            }
        } else if s == STATUS_EXCHANGED {
            Err(ALREADY_DRAWN_RESULT_CODE)
        } else {
            Err(CAMPAIGN_ERROR_RESULT_CODE)
        },
        None => Err(CAMPAIGN_ERROR_RESULT_CODE),
    }
}

/// The tickets held after a change: fails where the count would leave
/// `i64` or fall below zero.
pub fn adjust_ticket_count(current: Option<i64>, change: i64) -> (r: Result<i64, ServiceError>)
    ensures
        ({
            let total = (match current {
                Some(c) => c,
                None => 0,
            }) + change;
            if 0 <= total <= i64::MAX {
                r matches Ok(t) && t == total
            } else {
                r matches Err(e) && e.message@ == "CN multi special exchange ticket count exceeds range"@
            }
        }),
{
    let base = match current {
        Some(c) => c,
        None => 0,
    };
    match base.checked_add(change) {
        Some(total) => if total >= 0 {
            Ok(total)
        } else {
            Err(ServiceError::new("CN multi special exchange ticket count exceeds range"))
        },
        None => Err(ServiceError::new("CN multi special exchange ticket count exceeds range")),
    }
}

/// The index of the first entry of a campaign.
pub open spec fn first_entry(list: Seq<StoredExchangeCampaign>, campaign_id: i64) -> Option<int>
    decreases list.len(),
{
    if list.len() == 0 {
        None
    } else if list[0].campaign_id == Some(campaign_id) {
        Some(0)
    } else {
        match first_entry(list.drop_first(), campaign_id) {
            Some(i) => Some(i + 1),
            None => None,
        }
    }
}

proof fn lemma_first_entry(list: Seq<StoredExchangeCampaign>, campaign_id: i64)
    ensures
        first_entry(list, campaign_id) matches Some(i) ==> 0 <= i < list.len()
            && list[i].campaign_id == Some(campaign_id),
    decreases list.len(),
{
    if list.len() > 0 && list[0].campaign_id != Some(campaign_id) {
        lemma_first_entry(list.drop_first(), campaign_id);
    }
}

/// The entries after a campaign's status is set (with its ticket item, or
/// without one): the first entry of the campaign changes; fails where there
/// is none or it is not an object.
pub open spec fn spec_set_status(
    list: Seq<StoredExchangeCampaign>,
    campaign_id: i64,
    status: i64,
    ticket_item_id: Option<i64>,
) -> Option<Seq<StoredExchangeCampaign>> {
    match first_entry(list, campaign_id) {
        Some(i) => if list[i].is_object {
            Some(list.update(i, StoredExchangeCampaign { status: Some(status), ticket_item_id, ..list[i] }))
        } else {
            None
        },
        None => None,
    }
}

/// Sets a campaign's status.
pub fn set_campaign_status(
    list: &mut Vec<StoredExchangeCampaign>,
    campaign_id: i64,
    status: i64,
    ticket_item_id: Option<i64>,
) -> (r: Result<(), ServiceError>)
    ensures
        match spec_set_status(old(list)@, campaign_id, status, ticket_item_id) {
            Some(after) => r is Ok && final(list)@ == after,
            None => r matches Err(e) && e.message@
                == "stored CN multi special exchange campaign is missing"@ && final(list)@ == old(
                list,
            )@,
        },
{
    proof {
        lemma_first_entry(list@, campaign_id);
    }
    let mut i: usize = 0;
    assert(list@.subrange(0, list@.len() as int) =~= list@);
    while i < list.len()
        invariant
            i <= list@.len(),
            list@ == old(list)@,
            first_entry(list@, campaign_id) == match first_entry(
                list@.subrange(i as int, list@.len() as int),
                campaign_id,
            ) {
                Some(j) => Some(j + i),
                None => None::<int>,
            },
        decreases list@.len() - i,
    {
        let ghost rest = list@.subrange(i as int, list@.len() as int);
        assert(rest.drop_first() =~= list@.subrange(i + 1, list@.len() as int));
        let c = list[i];
        if c.campaign_id == Some(campaign_id) {
            if !c.is_object {
                return Err(ServiceError::new("stored CN multi special exchange campaign is missing"));
            }
            list.set(i, StoredExchangeCampaign { status: Some(status), ticket_item_id, ..c });
            return Ok(());
        }
        i = i + 1;
    }
    Err(ServiceError::new("stored CN multi special exchange campaign is missing"))
}

/// A set status reads back: after a campaign's status is set, the
/// campaign shows that status.
pub proof fn lemma_status_reads_back(
    list: Seq<StoredExchangeCampaign>,
    campaign_id: i64,
    status: i64,
    ticket_item_id: Option<i64>,
)
    ensures
        spec_set_status(list, campaign_id, status, ticket_item_id) matches Some(after)
            ==> spec_campaign_status(after, campaign_id) == Some(status),
    decreases list.len(),
{
    lemma_first_entry(list, campaign_id);
    if list.len() > 0 && list[0].campaign_id != Some(campaign_id) {
        lemma_status_reads_back(list.drop_first(), campaign_id, status, ticket_item_id);
        if let Some(after) = spec_set_status(list, campaign_id, status, ticket_item_id) {
            let i = first_entry(list, campaign_id)->0;
            assert(after.drop_first() =~= list.drop_first().update(
                i - 1,
                StoredExchangeCampaign { status: Some(status), ticket_item_id, ..list[i] },
            ));
        }
    }
}

/// A ticket is drawn once and exchanged once: after a draw records its
/// status, another draw is refused as already drawn; after an exchange
/// records its status, another exchange is refused as already drawn,
/// whatever tickets the player holds.
pub proof fn lemma_ticket_drawn_and_used_once(list: Seq<StoredExchangeCampaign>, tickets: i64)
    ensures
        spec_set_status(list, CAMPAIGN_ID, STATUS_TICKET_DRAWN, Some(TICKET_ITEM_ID)) matches Some(
            after,
        ) ==> spec_draw_decision(CAMPAIGN_ID, spec_campaign_status(after, CAMPAIGN_ID)) == Err::<
            (),
            i64,
        >(ALREADY_DRAWN_RESULT_CODE),
        spec_set_status(list, CAMPAIGN_ID, STATUS_EXCHANGED, None) matches Some(after)
            ==> spec_exchange_decision(
            CAMPAIGN_ID,
            TICKET_ITEM_ID,
            spec_campaign_status(after, CAMPAIGN_ID),
            tickets,
        ) == Err::<(), i64>(ALREADY_DRAWN_RESULT_CODE),
{
    lemma_status_reads_back(list, CAMPAIGN_ID, STATUS_TICKET_DRAWN, Some(TICKET_ITEM_ID));
    lemma_status_reads_back(list, CAMPAIGN_ID, STATUS_EXCHANGED, None);
}

} // verus!
