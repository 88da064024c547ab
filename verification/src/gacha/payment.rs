//! Paying for a gacha draw: which payment a draw type allows on a gacha
//! page, what it costs in free and paid currency or tickets, and how many
//! pulls it buys.
use vstd::prelude::*;
use crate::error::ServiceError;
use crate::http::{error_body, json_error, JsonResponse};
use crate::mission::{find_key_index, key_index, keyed, lemma_key_index};
use crate::text::{append_decimal, decimal};

verus! {

pub const CHARACTER_GACHA_TYPE: i64 = 0;

pub const EQUIPMENT_GACHA_TYPE: i64 = 1;

pub const FREE_VMONEY_PAYMENT: i64 = 1;

pub const PAID_VMONEY_PAYMENT: i64 = 2;

pub const TICKET_PAYMENT: i64 = 3;

pub const CAMPAIGN_PAYMENT: i64 = 4;

pub const SINGLE_DRAW: i64 = 1;

pub const MULTI_DRAW: i64 = 2;

pub const POOL_SINGLE_TICKET_DRAW: i64 = 3;

pub const POOL_MULTI_TICKET_DRAW: i64 = 4;

pub const DAILY_SINGLE_DRAW: i64 = 5;

pub const ACCOUNT_FIRST_MULTI_DRAW: i64 = 7;

pub const LEGACY_CAMPAIGN_SINGLE_DRAW: i64 = 7;

pub const CAMPAIGN_MULTI_DRAW: i64 = 8;

pub const CHARACTER_MULTI_TICKET_DRAW: i64 = 9;

pub const CHARACTER_SINGLE_TICKET_DRAW: i64 = 10;

pub const CAMPAIGN_SINGLE_DRAW: i64 = 11;

pub const EQUIPMENT_SINGLE_TICKET_DRAW: i64 = 12;

pub const EQUIPMENT_MULTI_TICKET_DRAW: i64 = 13;

pub const CRAZY_MULTI_TICKET_DRAW: i64 = 14;

pub const GUARANTEED_CHARACTER_SINGLE_TICKET_DRAW: i64 = 20;

/// An item id field of a gacha entry.
#[derive(Clone, Copy, Debug, PartialEq, Eq, Structural)]
pub enum CatalogItemId {
    /// The entry has no such field.
    Missing,
    /// The field is `null`: the gacha has no such ticket.
    Null,
    /// The field is not a positive integer.
    Invalid,
    Id(i64),
}

/// The fields of a gacha entry that name tickets or switch wildcard
/// tickets on.
#[derive(Clone, Copy, Debug, PartialEq, Eq, Structural)]
pub enum CatalogKey {
    OnceTicketItemId,
    TenTimesTicketItemId,
    CrazyTenTimesTicketItemId,
    WildcardCharacterTicketAvailable,
    WildcardEquipmentTicketAvailable,
    FreemiumGuaranteeAvailable,
}

/// What a gacha entry says of payment; each field as the entry holds it
/// (`None` where it is absent or not of the expected JSON type).
pub struct GachaPaymentTerms {
    pub page_kind: Option<i64>,
    pub gacha_type: Option<i64>,
    pub single_cost: Option<i64>,
    pub multi_cost: Option<i64>,
    pub discount_cost: Option<i64>,
    pub ten_times_per_account_cost: Option<i64>,
    pub once_ticket_item_id: CatalogItemId,
    pub ten_times_ticket_item_id: CatalogItemId,
    pub crazy_ten_times_ticket_item_id: CatalogItemId,
    pub wildcard_character_ticket_available: Option<bool>,
    pub wildcard_equipment_ticket_available: Option<bool>,
    pub freemium_guarantee_available: Option<bool>,
}

/// The currency and tickets of a player: free and paid currency (`None`
/// where not stored as an integer) and the stored count of each item
/// (`None` where it is not an integer).
pub struct PaymentWallet {
    pub free_vmoney: Option<i64>,
    pub vmoney: Option<i64>,
    pub items: Vec<(i64, Option<i64>)>,
}

/// Why a payment is refused (the first seven are answers to the client,
/// the rest internal failures).
#[derive(Clone, Copy, Debug, PartialEq, Eq, Structural)]
pub enum PaymentRefusal {
    InvalidRequest,
    NotEnoughVmoney,
    DailyUsed,
    AccountFirstUsed,
    NotEnoughTickets,
    UnsupportedType,
    UnsupportedPayment,
    FreeVmoneyMissing,
    VmoneyMissing,
    PageKindInvalid,
    TypeInvalid,
    CostInvalid,
    DailyCostInvalid,
    AccountFirstCostInvalid,
    FieldMissing(CatalogKey),
    ItemIdInvalid(CatalogKey),
    ItemIdRequired(CatalogKey),
    TicketCountInvalid,
}

/// The page kind, where it is one the client knows.
pub open spec fn spec_page_kind(terms: &GachaPaymentTerms) -> Result<i64, PaymentRefusal> {
    match terms.page_kind {
        Some(k) => if k == 0 || k == 1 || k == 2 || k == 3 || k == 4 || k == 5 || k == 8 {
            Ok(k)
        } else {
            Err(PaymentRefusal::PageKindInvalid)
        },
        None => Err(PaymentRefusal::PageKindInvalid),
    }
}

fn page_kind(terms: &GachaPaymentTerms) -> (r: Result<i64, PaymentRefusal>)
    ensures
        r == spec_page_kind(terms),
{
    match terms.page_kind {
        Some(k) => if k == 0 || k == 1 || k == 2 || k == 3 || k == 4 || k == 5 || k == 8 {
            Ok(k)
        } else {
            Err(PaymentRefusal::PageKindInvalid)
        },
        None => Err(PaymentRefusal::PageKindInvalid),
    }
}

/// The gacha type, where it is the character or the equipment gacha.
pub open spec fn spec_gacha_type(terms: &GachaPaymentTerms) -> Result<i64, PaymentRefusal> {
    match terms.gacha_type {
        Some(k) => if k == CHARACTER_GACHA_TYPE || k == EQUIPMENT_GACHA_TYPE {
            Ok(k)
        } else {
            Err(PaymentRefusal::TypeInvalid)
        },
        None => Err(PaymentRefusal::TypeInvalid),
    }
}

fn gacha_type(terms: &GachaPaymentTerms) -> (r: Result<i64, PaymentRefusal>)
    ensures
        r == spec_gacha_type(terms),
{
    match terms.gacha_type {
        Some(k) => if k == CHARACTER_GACHA_TYPE || k == EQUIPMENT_GACHA_TYPE {
            Ok(k)
        } else {
            Err(PaymentRefusal::TypeInvalid)
        },
        None => Err(PaymentRefusal::TypeInvalid),
    }
}

/// A cost field, where it is a positive integer.
pub open spec fn positive(value: Option<i64>, refusal: PaymentRefusal) -> Result<i64, PaymentRefusal> {
    match value {
        Some(v) => if v > 0 {
            Ok(v)
        } else {
            Err(refusal)
        },
        None => Err(refusal),
    }
}

fn positive_field(value: Option<i64>, refusal: PaymentRefusal) -> (r: Result<i64, PaymentRefusal>)
    ensures
        r == positive(value, refusal),
{
    match value {
        Some(v) => if v > 0 {
            Ok(v)
        } else {
            Err(refusal)
        },
        None => Err(refusal),
    }
}

/// A ticket item id that a draw needs.
pub open spec fn required_item(id: CatalogItemId, key: CatalogKey) -> Result<i64, PaymentRefusal> {
    match id {
        CatalogItemId::Missing => Err(PaymentRefusal::FieldMissing(key)),
        CatalogItemId::Null => Err(PaymentRefusal::ItemIdRequired(key)),
        CatalogItemId::Invalid => Err(PaymentRefusal::ItemIdInvalid(key)),
        CatalogItemId::Id(v) => if v > 0 {
            Ok(v)
        } else {
            Err(PaymentRefusal::ItemIdInvalid(key))
        },
    }
}

fn required_item_id(id: CatalogItemId, key: CatalogKey) -> (r: Result<i64, PaymentRefusal>)
    ensures
        r == required_item(id, key),
{
    match id {
        CatalogItemId::Missing => Err(PaymentRefusal::FieldMissing(key)),
        CatalogItemId::Null => Err(PaymentRefusal::ItemIdRequired(key)),
        CatalogItemId::Invalid => Err(PaymentRefusal::ItemIdInvalid(key)),
        CatalogItemId::Id(v) => if v > 0 {
            Ok(v)
        } else {
            Err(PaymentRefusal::ItemIdInvalid(key))
        },
    }
}

/// A switch of the gacha entry.
pub open spec fn flag(value: Option<bool>, key: CatalogKey) -> Result<bool, PaymentRefusal> {
    match value {
        Some(b) => Ok(b),
        None => Err(PaymentRefusal::FieldMissing(key)),
    }
}

fn required_flag(value: Option<bool>, key: CatalogKey) -> (r: Result<bool, PaymentRefusal>)
    ensures
        r == flag(value, key),
{
    match value {
        Some(b) => Ok(b),
        None => Err(PaymentRefusal::FieldMissing(key)),
    }
}

/// Whether a draw type is paid with tickets.
pub open spec fn is_ticket_draw(draw_type: i64) -> bool {
    draw_type == POOL_SINGLE_TICKET_DRAW || draw_type == POOL_MULTI_TICKET_DRAW
        || draw_type == CHARACTER_MULTI_TICKET_DRAW || draw_type == CHARACTER_SINGLE_TICKET_DRAW
        || draw_type == EQUIPMENT_SINGLE_TICKET_DRAW || draw_type == EQUIPMENT_MULTI_TICKET_DRAW
        || draw_type == CRAZY_MULTI_TICKET_DRAW || draw_type == GUARANTEED_CHARACTER_SINGLE_TICKET_DRAW
}

/// The refusal of a ticket draw type that the gacha does not offer.
pub open spec fn unoffered(draw_type: i64) -> PaymentRefusal {
    if is_ticket_draw(draw_type) {
        PaymentRefusal::UnsupportedType
    } else {
        PaymentRefusal::InvalidRequest
    }
}

/// The ticket that a draw type spends on a gacha and the pulls that one
/// ticket buys.
pub open spec fn spec_ticket_payment(terms: &GachaPaymentTerms, draw_type: i64) -> Result<
    (i64, i64),
    PaymentRefusal,
> {
    match spec_page_kind(terms) {
        Err(e) => Err(e),
        Ok(page) => match spec_gacha_type(terms) {
            Err(e) => Err(e),
            Ok(kind) => {
                let character_page = page == 0 || page == 8;
                if draw_type == POOL_SINGLE_TICKET_DRAW && (page == 0 || page == 2 || page == 3) {
                    match required_item(terms.once_ticket_item_id, CatalogKey::OnceTicketItemId) {
                        Ok(id) => Ok((id, 1)),
                        Err(e) => Err(e),
                    }
                } else if draw_type == POOL_MULTI_TICKET_DRAW && (page == 0 || page == 2 || page
                    == 4) {
                    match required_item(
                        terms.ten_times_ticket_item_id,
                        CatalogKey::TenTimesTicketItemId,
                    ) {
                        Ok(id) => Ok((id, 10)),
                        Err(e) => Err(e),
                    }
                } else if draw_type == CRAZY_MULTI_TICKET_DRAW && page == 5 {
                    match required_item(
                        terms.crazy_ten_times_ticket_item_id,
                        CatalogKey::CrazyTenTimesTicketItemId,
                    ) {
                        Ok(id) => Ok((id, 10)),
                        Err(e) => Err(e),
                    }
                } else if (draw_type == CHARACTER_SINGLE_TICKET_DRAW || draw_type
                    == CHARACTER_MULTI_TICKET_DRAW || draw_type
                    == GUARANTEED_CHARACTER_SINGLE_TICKET_DRAW) && character_page && kind
                    == CHARACTER_GACHA_TYPE {
                    match flag(
                        terms.wildcard_character_ticket_available,
                        CatalogKey::WildcardCharacterTicketAvailable,
                    ) {
                        Err(e) => Err(e),
                        Ok(false) => Err(PaymentRefusal::UnsupportedType),
                        Ok(true) => if draw_type == CHARACTER_SINGLE_TICKET_DRAW {
                            Ok((999_003, 1))
                        } else if draw_type == CHARACTER_MULTI_TICKET_DRAW {
                            Ok((999_001, 10))
                        } else {
                            match flag(
                                terms.freemium_guarantee_available,
                                CatalogKey::FreemiumGuaranteeAvailable,
                            ) {
                                Err(e) => Err(e),
                                Ok(false) => Err(PaymentRefusal::UnsupportedType),
                                Ok(true) => Ok((999_008, 1)),
                            }
                        },
                    }
                } else if (draw_type == EQUIPMENT_SINGLE_TICKET_DRAW || draw_type
                    == EQUIPMENT_MULTI_TICKET_DRAW) && page == 0 && kind == EQUIPMENT_GACHA_TYPE {
                    match flag(
                        terms.wildcard_equipment_ticket_available,
                        CatalogKey::WildcardEquipmentTicketAvailable,
                    ) {
                        Err(e) => Err(e),
                        Ok(false) => Err(PaymentRefusal::UnsupportedType),
                        Ok(true) => if draw_type == EQUIPMENT_SINGLE_TICKET_DRAW {
                            Ok((999_005, 1))
                        } else {
                            Ok((999_004, 10))
                        },
                    }
                } else {
                    Err(unoffered(draw_type))
                }
            },
        },
    }
}

/// The ticket that a draw type spends on a gacha and the pulls per ticket.
pub fn ticket_payment(terms: &GachaPaymentTerms, draw_type: i64) -> (r: Result<(i64, i64), PaymentRefusal>)
    ensures
        r == spec_ticket_payment(terms, draw_type),
{
    let page = match page_kind(terms) {
        Ok(p) => p,
        Err(e) => return Err(e),
    };
    let kind = match gacha_type(terms) {
        Ok(k) => k,
        Err(e) => return Err(e),
    };
    let character_page = page == 0 || page == 8;
    let ticket_draw = draw_type == POOL_SINGLE_TICKET_DRAW || draw_type == POOL_MULTI_TICKET_DRAW
        || draw_type == CHARACTER_MULTI_TICKET_DRAW || draw_type == CHARACTER_SINGLE_TICKET_DRAW
        || draw_type == EQUIPMENT_SINGLE_TICKET_DRAW || draw_type == EQUIPMENT_MULTI_TICKET_DRAW
        || draw_type == CRAZY_MULTI_TICKET_DRAW || draw_type
        == GUARANTEED_CHARACTER_SINGLE_TICKET_DRAW;
    let not_offered = if ticket_draw {
        PaymentRefusal::UnsupportedType
    } else {
        PaymentRefusal::InvalidRequest
    };
    if draw_type == POOL_SINGLE_TICKET_DRAW && (page == 0 || page == 2 || page == 3) {
        match required_item_id(terms.once_ticket_item_id, CatalogKey::OnceTicketItemId) {
            Ok(id) => Ok((id, 1)),
            Err(e) => Err(e),
        }
    } else if draw_type == POOL_MULTI_TICKET_DRAW && (page == 0 || page == 2 || page == 4) {
        match required_item_id(terms.ten_times_ticket_item_id, CatalogKey::TenTimesTicketItemId) {
            Ok(id) => Ok((id, 10)),
            Err(e) => Err(e),
        }
    } else if draw_type == CRAZY_MULTI_TICKET_DRAW && page == 5 {
        match required_item_id(
            terms.crazy_ten_times_ticket_item_id,
            CatalogKey::CrazyTenTimesTicketItemId,
        ) {
            Ok(id) => Ok((id, 10)),
            Err(e) => Err(e),
        }
    } else if (draw_type == CHARACTER_SINGLE_TICKET_DRAW || draw_type
        == CHARACTER_MULTI_TICKET_DRAW || draw_type == GUARANTEED_CHARACTER_SINGLE_TICKET_DRAW)
        && character_page && kind == CHARACTER_GACHA_TYPE {
        match required_flag(
            terms.wildcard_character_ticket_available,
            CatalogKey::WildcardCharacterTicketAvailable,
        ) {
            Err(e) => Err(e),
            Ok(false) => Err(PaymentRefusal::UnsupportedType),
            Ok(true) => if draw_type == CHARACTER_SINGLE_TICKET_DRAW {
                Ok((999_003, 1))
            } else if draw_type == CHARACTER_MULTI_TICKET_DRAW {
                Ok((999_001, 10))
            } else {
                match required_flag(
                    terms.freemium_guarantee_available,
                    CatalogKey::FreemiumGuaranteeAvailable,
                ) {
                    Err(e) => Err(e),
                    Ok(false) => Err(PaymentRefusal::UnsupportedType),
                    Ok(true) => Ok((999_008, 1)),
                }
            },
        }
    } else if (draw_type == EQUIPMENT_SINGLE_TICKET_DRAW || draw_type
        == EQUIPMENT_MULTI_TICKET_DRAW) && page == 0 && kind == EQUIPMENT_GACHA_TYPE {
        match required_flag(
            terms.wildcard_equipment_ticket_available,
            CatalogKey::WildcardEquipmentTicketAvailable,
        ) {
            Err(e) => Err(e),
            Ok(false) => Err(PaymentRefusal::UnsupportedType),
            Ok(true) => if draw_type == EQUIPMENT_SINGLE_TICKET_DRAW {
                Ok((999_005, 1))
            } else {
                Ok((999_004, 10))
            },
        }
    } else {
        Err(not_offered)
    }
}

/// The stored count of an item: 0 where none is stored, refused where the
/// stored value is not a non-negative integer.
pub open spec fn stored_count(items: Seq<(i64, Option<i64>)>, item_id: i64) -> Result<i64, PaymentRefusal> {
    match keyed(items, item_id) {
        None => Ok(0),
        Some(Some(c)) => if c >= 0 {
            Ok(c)
        } else {
            Err(PaymentRefusal::TicketCountInvalid)
        },
        Some(None) => Err(PaymentRefusal::TicketCountInvalid),
    }
}

fn stored_item_count(items: &Vec<(i64, Option<i64>)>, item_id: i64) -> (r: Result<i64, PaymentRefusal>)
    ensures
        r == stored_count(items@, item_id),
{
    match find_key_index(items, item_id) {
        None => Ok(0),
        Some(j) => {
            proof { lemma_key_index(items@, item_id); }
            match items[j].1 {
                Some(c) => if c >= 0 {
                    Ok(c)
                } else {
                    Err(PaymentRefusal::TicketCountInvalid)
                },
                None => Err(PaymentRefusal::TicketCountInvalid),
            }
        },
    }
}

/// A paid draw: the pulls bought, the currency left, the ticket count
/// left (item and count) where tickets were spent, whether a campaign
/// draw is to be redeemed, and whether the daily or the account-first
/// price was used.
#[derive(Clone, Copy, Debug)]
pub struct PaymentPlan {
    pub pull_count: i64,
    pub free_vmoney: i64,
    pub vmoney: i64,
    pub ticket: Option<(i64, i64)>,
    pub campaign: bool,
    pub is_daily_payment: bool,
    pub is_account_first_payment: bool,
}

/// Whether paying a free-currency draw would step out of `i64`: free
/// currency so far below the cost that the shortfall is not an `i64`.
pub open spec fn free_payment_overflows(
    terms: &GachaPaymentTerms,
    free_vmoney: i64,
    payment_type: i64,
    draw_type: i64,
) -> bool {
    let cost = if draw_type == SINGLE_DRAW {
        terms.single_cost
    } else {
        terms.multi_cost
    };
    &&& payment_type == FREE_VMONEY_PAYMENT
    &&& cost matches Some(c) && c > 0 && free_vmoney < c && c - free_vmoney > i64::MAX
}

/// What paying for a draw does.
pub open spec fn spec_apply_payment(
    terms: &GachaPaymentTerms,
    wallet: &PaymentWallet,
    payment_type: i64,
    draw_type: i64,
    number_of_exec: i64,
    daily_available: bool,
    account_first_available: bool,
) -> Result<PaymentPlan, PaymentRefusal> {
    match wallet.free_vmoney {
        None => Err(PaymentRefusal::FreeVmoneyMissing),
        Some(free) => match wallet.vmoney {
            None => Err(PaymentRefusal::VmoneyMissing),
            Some(vmoney) => match spec_page_kind(terms) {
                Err(e) => Err(e),
                Ok(page) => {
                    let unchanged = PaymentPlan {
                        pull_count: 0,
                        free_vmoney: free,
                        vmoney,
                        ticket: None,
                        campaign: false,
                        is_daily_payment: false,
                        is_account_first_payment: false,
                    };
                    if payment_type == FREE_VMONEY_PAYMENT {
                        if !(page == 0 || page == 8) || number_of_exec != 1 || !(draw_type
                            == SINGLE_DRAW || draw_type == MULTI_DRAW) {
                            Err(PaymentRefusal::InvalidRequest)
                        } else {
                            match positive(
                                if draw_type == SINGLE_DRAW {
                                    terms.single_cost
                                } else {
                                    terms.multi_cost
                                },
                                PaymentRefusal::CostInvalid,
                            ) {
                                Err(e) => Err(e),
                                Ok(cost) => {
                                    let pulls: i64 = if draw_type == MULTI_DRAW {
                                        10
                                    } else {
                                        1
                                    };
                                    if free >= cost {
                                        Ok(
                                            PaymentPlan {
                                                pull_count: pulls,
                                                free_vmoney: (free - cost) as i64,
                                                ..unchanged
                                            },
                                        )
                                    } else if vmoney < cost - free {
                                        Err(PaymentRefusal::NotEnoughVmoney)
                                    } else {
                                        Ok(
                                            PaymentPlan {
                                                pull_count: pulls,
                                                free_vmoney: 0,
                                                vmoney: (vmoney - (cost - free)) as i64,
                                                ..unchanged
                                            },
                                        )
                                    }
                                },
                            }
                        }
                    } else if payment_type == PAID_VMONEY_PAYMENT {
                        if number_of_exec != 1 {
                            Err(PaymentRefusal::InvalidRequest)
                        } else if draw_type == DAILY_SINGLE_DRAW && page == 0 {
                            if !daily_available {
                                Err(PaymentRefusal::DailyUsed)
                            } else {
                                match positive(terms.discount_cost, PaymentRefusal::DailyCostInvalid) {
                                    Err(e) => Err(e),
                                    Ok(cost) => if vmoney < cost {
                                        Err(PaymentRefusal::NotEnoughVmoney)
                                    } else {
                                        Ok(
                                            PaymentPlan {
                                                pull_count: 1,
                                                vmoney: (vmoney - cost) as i64,
                                                is_daily_payment: true,
                                                ..unchanged
                                            },
                                        )
                                    },
                                }
                            }
                        } else if draw_type == ACCOUNT_FIRST_MULTI_DRAW && page == 1 {
                            if !account_first_available {
                                Err(PaymentRefusal::AccountFirstUsed)
                            } else {
                                match positive(
                                    terms.ten_times_per_account_cost,
                                    PaymentRefusal::AccountFirstCostInvalid,
                                ) {
                                    Err(e) => Err(e),
                                    Ok(cost) => if vmoney < cost {
                                        Err(PaymentRefusal::NotEnoughVmoney)
                                    } else {
                                        Ok(
                                            PaymentPlan {
                                                pull_count: 10,
                                                vmoney: (vmoney - cost) as i64,
                                                is_account_first_payment: true,
                                                ..unchanged
                                            },
                                        )
                                    },
                                }
                            }
                        } else {
                            Err(PaymentRefusal::InvalidRequest)
                        }
                    } else if payment_type == TICKET_PAYMENT {
                        match spec_ticket_payment(terms, draw_type) {
                            Err(e) => Err(e),
                            Ok((item_id, pulls_per_ticket)) => if number_of_exec <= 0
                                || number_of_exec > 100 {
                                Err(PaymentRefusal::InvalidRequest)
                            } else {
                                match stored_count(wallet.items@, item_id) {
                                    Err(e) => Err(e),
                                    Ok(count) => if count < number_of_exec {
                                        Err(PaymentRefusal::NotEnoughTickets)
                                    } else {
                                        Ok(
                                            PaymentPlan {
                                                pull_count: (number_of_exec
                                                    * pulls_per_ticket) as i64,
                                                ticket: Some(
                                                    (item_id, (count - number_of_exec) as i64),
                                                ),
                                                ..unchanged
                                            },
                                        )
                                    },
                                }
                            },
                        }
                    } else if payment_type == CAMPAIGN_PAYMENT {
                        if number_of_exec != 1 || !(draw_type == LEGACY_CAMPAIGN_SINGLE_DRAW
                            || draw_type == CAMPAIGN_SINGLE_DRAW || draw_type
                            == CAMPAIGN_MULTI_DRAW) {
                            Err(PaymentRefusal::InvalidRequest)
                        } else {
                            Ok(
                                PaymentPlan {
                                    pull_count: if draw_type == CAMPAIGN_MULTI_DRAW {
                                        10
                                    } else {
                                        1
                                    },
                                    campaign: true,
                                    ..unchanged
                                },
                            )
                        }
                    } else {
                        Err(PaymentRefusal::UnsupportedPayment)
                    }
                },
            },
        },
    }
}

/// A currency draw that goes through takes exactly its price: for a
/// free-currency draw, the single or ten-pull price, free currency first
/// and paid currency only for what the free currency does not cover, one
/// pull or ten; for a paid draw, the daily price for one pull or the
/// account-first price for ten, from paid currency alone. Neither uses a
/// ticket or a campaign.
pub proof fn lemma_currency_draws_take_their_price(
    terms: &GachaPaymentTerms,
    wallet: &PaymentWallet,
    payment_type: i64,
    draw_type: i64,
    number_of_exec: i64,
    daily_available: bool,
    account_first_available: bool,
)
    ensures
        spec_apply_payment(
            terms,
            wallet,
            payment_type,
            draw_type,
            number_of_exec,
            daily_available,
            account_first_available,
        ) matches Ok(plan) ==> {
            let free = wallet.free_vmoney->0;
            let paid = wallet.vmoney->0;
            &&& payment_type == FREE_VMONEY_PAYMENT ==> {
                let price = if draw_type == MULTI_DRAW {
                    terms.multi_cost
                } else {
                    terms.single_cost
                };
                &&& (draw_type == SINGLE_DRAW || draw_type == MULTI_DRAW)
                &&& plan.pull_count == if draw_type == MULTI_DRAW {
                    10i64
                } else {
                    1i64
                }
                &&& (price matches Some(cost) && cost > 0 && (free - plan.free_vmoney) + (paid
                    - plan.vmoney) == cost)
                &&& 0 <= plan.free_vmoney && (free >= 0 ==> plan.free_vmoney <= free)
                &&& plan.vmoney <= paid
                &&& plan.vmoney < paid ==> plan.free_vmoney == 0 && plan.vmoney >= 0
                &&& plan.ticket is None && !plan.campaign
            }
            &&& payment_type == PAID_VMONEY_PAYMENT ==> {
                &&& plan.free_vmoney == free
                &&& plan.ticket is None && !plan.campaign
                &&& ({
                    ||| (plan.is_daily_payment && plan.pull_count == 1 && daily_available && (
                    terms.discount_cost matches Some(cost) && paid - plan.vmoney == cost))
                    ||| (plan.is_account_first_payment && plan.pull_count == 10
                        && account_first_available && (terms.ten_times_per_account_cost matches Some(
                        cost,
                    ) && paid - plan.vmoney == cost))
                })
            }
        },
{
}

/// A ticket draw that goes through uses between one and a hundred tickets
/// of one kind, leaving the stored count lowered by exactly that many; it
/// gives ten pulls per ticket for a ten-pull ticket draw and one per ticket
/// otherwise, and leaves both currencies alone.
pub proof fn lemma_ticket_draws_use_their_tickets(
    terms: &GachaPaymentTerms,
    wallet: &PaymentWallet,
    draw_type: i64,
    number_of_exec: i64,
    daily_available: bool,
    account_first_available: bool,
)
    ensures
        spec_apply_payment(
            terms,
            wallet,
            TICKET_PAYMENT,
            draw_type,
            number_of_exec,
            daily_available,
            account_first_available,
        ) matches Ok(plan) ==> {
            let multi = draw_type == POOL_MULTI_TICKET_DRAW || draw_type == CRAZY_MULTI_TICKET_DRAW
                || draw_type == CHARACTER_MULTI_TICKET_DRAW || draw_type
                == EQUIPMENT_MULTI_TICKET_DRAW;
            let single = draw_type == POOL_SINGLE_TICKET_DRAW || draw_type
                == CHARACTER_SINGLE_TICKET_DRAW || draw_type == GUARANTEED_CHARACTER_SINGLE_TICKET_DRAW
                || draw_type == EQUIPMENT_SINGLE_TICKET_DRAW;
            &&& multi || single
            &&& 1 <= number_of_exec <= 100
            &&& plan.pull_count == number_of_exec * if multi {
                10int
            } else {
                1int
            }
            &&& (plan.ticket matches Some((id, left)) && left >= 0 && stored_count(
                wallet.items@,
                id,
            ) == Ok::<i64, PaymentRefusal>((left + number_of_exec) as i64))
            &&& wallet.free_vmoney == Some(plan.free_vmoney)
            &&& wallet.vmoney == Some(plan.vmoney)
            &&& !plan.campaign
        },
{
}

/// A campaign payment that goes through spends the campaign's free draw
/// and nothing else: ten pulls for the campaign's multi draw, one pull for
/// either campaign single draw, and the wallet untouched.
pub proof fn lemma_campaign_pull_counts(
    terms: &GachaPaymentTerms,
    wallet: &PaymentWallet,
    draw_type: i64,
    number_of_exec: i64,
    daily_available: bool,
    account_first_available: bool,
)
    ensures
        spec_apply_payment(
            terms,
            wallet,
            CAMPAIGN_PAYMENT,
            draw_type,
            number_of_exec,
            daily_available,
            account_first_available,
        ) matches Ok(plan) ==> {
            &&& plan.campaign
            &&& number_of_exec == 1
            &&& plan.pull_count == 10 <==> draw_type == CAMPAIGN_MULTI_DRAW
            &&& (draw_type == CAMPAIGN_SINGLE_DRAW || draw_type == LEGACY_CAMPAIGN_SINGLE_DRAW)
                ==> plan.pull_count == 1
            &&& plan.pull_count == 1 || plan.pull_count == 10
            &&& wallet.free_vmoney == Some(plan.free_vmoney)
            &&& wallet.vmoney == Some(plan.vmoney)
            &&& plan.ticket is None
        },
{
}

/// Pays for a draw: free currency first for a free-currency draw, paid
/// currency for the daily and the account-first prices, tickets (at most
/// a hundred at once) for a ticket draw, a campaign's free draw for a
/// campaign draw.
pub fn apply_payment(
    terms: &GachaPaymentTerms,
    wallet: &PaymentWallet,
    payment_type: i64,
    draw_type: i64,
    number_of_exec: i64,
    daily_available: bool,
    account_first_available: bool,
) -> (r: Result<PaymentPlan, PaymentRefusal>)
    requires
        wallet.free_vmoney matches Some(free) ==> !free_payment_overflows(
            terms,
            free,
            payment_type,
            draw_type,
        ),
    ensures
        r == spec_apply_payment(
            terms,
            wallet,
            payment_type,
            draw_type,
            number_of_exec,
            daily_available,
            account_first_available,
        ),
{
    let free = match wallet.free_vmoney {
        Some(v) => v,
        None => return Err(PaymentRefusal::FreeVmoneyMissing),
    };
    let vmoney = match wallet.vmoney {
        Some(v) => v,
        None => return Err(PaymentRefusal::VmoneyMissing),
    };
    let page = match page_kind(terms) {
        Ok(p) => p,
        Err(e) => return Err(e),
    };
    let unchanged = PaymentPlan {
        pull_count: 0,
        free_vmoney: free,
        vmoney,
        ticket: None,
        campaign: false,
        is_daily_payment: false,
        is_account_first_payment: false,
    };
    if payment_type == FREE_VMONEY_PAYMENT {
        if !(page == 0 || page == 8) || number_of_exec != 1 || !(draw_type == SINGLE_DRAW
            || draw_type == MULTI_DRAW) {
            return Err(PaymentRefusal::InvalidRequest);
        }
        let raw = if draw_type == SINGLE_DRAW {
            terms.single_cost
        } else {
            terms.multi_cost
        };
        let cost = match positive_field(raw, PaymentRefusal::CostInvalid) {
            Ok(c) => c,
            Err(e) => return Err(e),
        };
        let pulls: i64 = if draw_type == MULTI_DRAW {
            10
        } else {
            1
        };
        if free >= cost {
            Ok(PaymentPlan { pull_count: pulls, free_vmoney: free - cost, ..unchanged })
        } else {
            let shortfall = cost - free;
            if vmoney < shortfall {
                Err(PaymentRefusal::NotEnoughVmoney)
            } else {
                Ok(PaymentPlan { pull_count: pulls, free_vmoney: 0, vmoney: vmoney - shortfall, ..unchanged })
            }
        }
    } else if payment_type == PAID_VMONEY_PAYMENT {
        if number_of_exec != 1 {
            Err(PaymentRefusal::InvalidRequest)
        } else if draw_type == DAILY_SINGLE_DRAW && page == 0 {
            if !daily_available {
                return Err(PaymentRefusal::DailyUsed);
            }
            let cost = match positive_field(terms.discount_cost, PaymentRefusal::DailyCostInvalid) {
                Ok(c) => c,
                Err(e) => return Err(e),
            };
            if vmoney < cost {
                Err(PaymentRefusal::NotEnoughVmoney)
            } else {
                Ok(PaymentPlan {
                    pull_count: 1,
                    vmoney: vmoney - cost,
                    is_daily_payment: true,
                    ..unchanged
                })
            }
        } else if draw_type == ACCOUNT_FIRST_MULTI_DRAW && page == 1 {
            if !account_first_available {
                return Err(PaymentRefusal::AccountFirstUsed);
            }
            let cost = match positive_field(
                terms.ten_times_per_account_cost,
                PaymentRefusal::AccountFirstCostInvalid,
            ) {
                Ok(c) => c,
                Err(e) => return Err(e),
            };
            if vmoney < cost {
                Err(PaymentRefusal::NotEnoughVmoney)
            } else {
                Ok(PaymentPlan {
                    pull_count: 10,
                    vmoney: vmoney - cost,
                    is_account_first_payment: true,
                    ..unchanged
                })
            }
        } else {
            Err(PaymentRefusal::InvalidRequest)
        }
    } else if payment_type == TICKET_PAYMENT {
        let (item_id, pulls_per_ticket) = match ticket_payment(terms, draw_type) {
            Ok(t) => t,
            Err(e) => return Err(e),
        };
        if number_of_exec <= 0 || number_of_exec > 100 {
            return Err(PaymentRefusal::InvalidRequest);
        }
        let count = match stored_item_count(&wallet.items, item_id) {
            Ok(c) => c,
            Err(e) => return Err(e),
        };
        if count < number_of_exec {
            return Err(PaymentRefusal::NotEnoughTickets);
        }
        Ok(PaymentPlan {
            pull_count: number_of_exec * pulls_per_ticket,
            ticket: Some((item_id, count - number_of_exec)),
            ..unchanged
        })
    } else if payment_type == CAMPAIGN_PAYMENT {
        if number_of_exec != 1 || !(draw_type == LEGACY_CAMPAIGN_SINGLE_DRAW || draw_type
            == CAMPAIGN_SINGLE_DRAW || draw_type == CAMPAIGN_MULTI_DRAW) {
            return Err(PaymentRefusal::InvalidRequest);
        }
        Ok(PaymentPlan {
            pull_count: if draw_type == CAMPAIGN_MULTI_DRAW {
                10
            } else {
                1
            },
            campaign: true,
            ..unchanged
        })
    } else {
        Err(PaymentRefusal::UnsupportedPayment)
    }
}

/// Whether paying a free-currency draw would step out of `i64` (the
/// stored free currency being far below zero).
pub fn payment_overflows(terms: &GachaPaymentTerms, free_vmoney: i64, payment_type: i64, draw_type: i64) -> (r:
    bool)
    ensures
        r == free_payment_overflows(terms, free_vmoney, payment_type, draw_type),
{
    let cost = if draw_type == SINGLE_DRAW {
        terms.single_cost
    } else {
        terms.multi_cost
    };
    match cost {
        Some(c) => payment_type == FREE_VMONEY_PAYMENT && c > 0 && free_vmoney < c && (free_vmoney
            < 0 && c > i64::MAX + free_vmoney),
        None => false,
    }
}

/// The name of a field of the gacha entry.
pub open spec fn key_name(key: CatalogKey) -> Seq<char> {
    match key {
        CatalogKey::OnceTicketItemId => "onceTicketItemId"@,
        CatalogKey::TenTimesTicketItemId => "tenTimesTicketItemId"@,
        CatalogKey::CrazyTenTimesTicketItemId => "crazyTenTimesTicketItemId"@,
        CatalogKey::WildcardCharacterTicketAvailable => "wildcardCharacterTicketAvailable"@,
        CatalogKey::WildcardEquipmentTicketAvailable => "wildcardEquipmentTicketAvailable"@,
        CatalogKey::FreemiumGuaranteeAvailable => "freemiumGuaranteeAvailable"@,
    }
}

fn catalog_key_name(key: CatalogKey) -> (r: &'static str)
    ensures
        r@ == key_name(key),
{
    match key {
        CatalogKey::OnceTicketItemId => "onceTicketItemId",
        CatalogKey::TenTimesTicketItemId => "tenTimesTicketItemId",
        CatalogKey::CrazyTenTimesTicketItemId => "crazyTenTimesTicketItemId",
        CatalogKey::WildcardCharacterTicketAvailable => "wildcardCharacterTicketAvailable",
        CatalogKey::WildcardEquipmentTicketAvailable => "wildcardEquipmentTicketAvailable",
        CatalogKey::FreemiumGuaranteeAvailable => "freemiumGuaranteeAvailable",
    }
}

/// The error code of a refusal that is answered to the client.
pub open spec fn payment_refusal_code(refusal: PaymentRefusal) -> Option<Seq<char>> {
    match refusal {
        PaymentRefusal::InvalidRequest => Some("invalid_gacha_request"@),
        PaymentRefusal::NotEnoughVmoney => Some("not_enough_vmoney"@),
        PaymentRefusal::DailyUsed => Some("daily_gacha_already_used"@),
        PaymentRefusal::AccountFirstUsed => Some("account_first_gacha_already_used"@),
        PaymentRefusal::NotEnoughTickets => Some("not_enough_tickets"@),
        PaymentRefusal::UnsupportedType => Some("unsupported_gacha_type"@),
        PaymentRefusal::UnsupportedPayment => Some("unsupported_gacha_payment"@),
        _ => None,
    }
}

/// The message of an internal failure.
pub open spec fn payment_failure_message(refusal: PaymentRefusal) -> Seq<char> {
    match refusal {
        PaymentRefusal::FreeVmoneyMissing => "stored CN free vmoney is missing"@,
        PaymentRefusal::VmoneyMissing => "stored CN vmoney is missing"@,
        PaymentRefusal::PageKindInvalid => "CN gacha page kind is invalid"@,
        PaymentRefusal::TypeInvalid => "CN gacha type is invalid"@,
        PaymentRefusal::CostInvalid => "CN gacha cost is invalid"@,
        PaymentRefusal::DailyCostInvalid => "CN gacha daily cost is invalid"@,
        PaymentRefusal::AccountFirstCostInvalid => "CN gacha account-first cost is invalid"@,
        PaymentRefusal::FieldMissing(key) => "CN gacha "@ + key_name(key) + " is missing"@,
        PaymentRefusal::ItemIdInvalid(key) => "CN gacha "@ + key_name(key) + " is invalid"@,
        PaymentRefusal::ItemIdRequired(key) => "CN gacha "@ + key_name(key)
            + " is required for this draw type"@,
        _ => "stored CN gacha ticket count is invalid"@,
    }
}

/// A message made of three parts.
fn message3(a: &str, b: &str, c: &str) -> (r: ServiceError)
    ensures
        r.message@ == a@ + b@ + c@,
{
    let mut text = String::from_str(a);
    text.append(b);
    text.append(c);
    ServiceError { message: text }
}

/// A refusal as an answer to the client (`Ok`) or an internal failure.
pub fn payment_refusal_response(refusal: PaymentRefusal) -> (r: Result<JsonResponse, ServiceError>)
    ensures
        match payment_refusal_code(refusal) {
            Some(code) => r matches Ok(resp) && resp.status@ == "400 Bad Request"@
                && resp.body@ == error_body(code),
            None => r matches Err(e) && e.message@ == payment_failure_message(refusal),
        },
{
    match refusal {
        PaymentRefusal::InvalidRequest => Ok(json_error("400 Bad Request", "invalid_gacha_request")),
        PaymentRefusal::NotEnoughVmoney => Ok(json_error("400 Bad Request", "not_enough_vmoney")),
        PaymentRefusal::DailyUsed => Ok(json_error("400 Bad Request", "daily_gacha_already_used")),
        PaymentRefusal::AccountFirstUsed => Ok(
            json_error("400 Bad Request", "account_first_gacha_already_used"),
        ),
        PaymentRefusal::NotEnoughTickets => Ok(json_error("400 Bad Request", "not_enough_tickets")),
        PaymentRefusal::UnsupportedType => Ok(json_error("400 Bad Request", "unsupported_gacha_type")),
        PaymentRefusal::UnsupportedPayment => Ok(
            json_error("400 Bad Request", "unsupported_gacha_payment"),
        ),
        PaymentRefusal::FreeVmoneyMissing => Err(ServiceError::new("stored CN free vmoney is missing")),
        PaymentRefusal::VmoneyMissing => Err(ServiceError::new("stored CN vmoney is missing")),
        PaymentRefusal::PageKindInvalid => Err(ServiceError::new("CN gacha page kind is invalid")),
        PaymentRefusal::TypeInvalid => Err(ServiceError::new("CN gacha type is invalid")),
        PaymentRefusal::CostInvalid => Err(ServiceError::new("CN gacha cost is invalid")),
        PaymentRefusal::DailyCostInvalid => Err(ServiceError::new("CN gacha daily cost is invalid")),
        PaymentRefusal::AccountFirstCostInvalid => Err(
            ServiceError::new("CN gacha account-first cost is invalid"),
        ),
        PaymentRefusal::FieldMissing(key) => Err(message3("CN gacha ", catalog_key_name(key), " is missing")),
        PaymentRefusal::ItemIdInvalid(key) => Err(message3("CN gacha ", catalog_key_name(key), " is invalid")),
        PaymentRefusal::ItemIdRequired(key) => Err(
            message3("CN gacha ", catalog_key_name(key), " is required for this draw type"),
        ),
        PaymentRefusal::TicketCountInvalid => Err(
            ServiceError::new("stored CN gacha ticket count is invalid"),
        ),
    }
}

/// Whether a draw request names a positive viewer and a non-negative api
/// count (else it is answered `invalid_gacha_request`).
pub fn execute_request_valid(viewer_id: i64, api_count: i64) -> (r: bool)
    ensures
        r == (viewer_id > 0 && api_count >= 0),
{
    viewer_id > 0 && api_count >= 0
}

/// Whether the daily-first and account-first prices stay open after a
/// draw: each stays open where it was open and this draw did not use it.
pub fn availability_after(daily_available: bool, account_first_available: bool, plan: &PaymentPlan) -> (r:
    (bool, bool))
    ensures
        r == (daily_available && !plan.is_daily_payment, account_first_available
            && !plan.is_account_first_payment),
{
    (daily_available && !plan.is_daily_payment, account_first_available && !plan.is_account_first_payment)
}

/// The key under which a draw is recorded in the receive history:
/// `gacha:exec:<gacha>:<payment type>:<draw type>:<count>:<api count>`.
pub fn history_event_key(
    canonical_gacha_id: i64,
    payment_type: i64,
    draw_type: i64,
    number_of_exec: i64,
    api_count: i64,
) -> (r: String)
    ensures
        r@ == "gacha:exec:"@ + decimal(canonical_gacha_id as int) + ":"@ + decimal(
            payment_type as int,
        ) + ":"@ + decimal(draw_type as int) + ":"@ + decimal(number_of_exec as int) + ":"@
            + decimal(api_count as int),
{
    let mut key = String::from_str("gacha:exec:");
    append_decimal(&mut key, canonical_gacha_id);
    key.append(":");
    append_decimal(&mut key, payment_type);
    key.append(":");
    append_decimal(&mut key, draw_type);
    key.append(":");
    append_decimal(&mut key, number_of_exec);
    key.append(":");
    append_decimal(&mut key, api_count);
    key
}

} // verus!
