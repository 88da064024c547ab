//! Gacha rules: which draw is guaranteed, which daily counters a draw
//! advances, and whether a gacha is open at a given time.
use vstd::prelude::*;

use crate::error::ServiceError;
use crate::http::{error_body, json_error, JsonResponse};
use crate::text::{
    append_decimal, decimal, has_prefix, lemma_parse_decimal, parse_i64, spec_parse_i64, str_eq,
    strip_prefix,
};

pub mod region;
pub mod payment;
pub mod movie;
pub mod exchange;
pub mod campaign;
pub mod period;
pub mod draw;

verus! {

pub const FREE_VMONEY_PAYMENT: i64 = 1;

pub const PAID_VMONEY_PAYMENT: i64 = 2;

pub const TICKET_PAYMENT: i64 = 3;

pub const SINGLE_DRAW: i64 = 1;

pub const MULTI_DRAW: i64 = 2;

pub const CRAZY_MULTI_TICKET_DRAW: i64 = 14;

/// The fields of a draw request that the rules read.
pub struct ExecuteRequest {
    pub api_count: i64,
    pub payment_type: i64,
    pub number_of_exec: i64,
    pub viewer_id: i64,
    pub gacha_id: i64,
    pub draw_type: i64,
}

/// How much a draw advances the daily and crazy-draw counters.
#[derive(Clone, Copy, Debug, PartialEq, Eq, Structural)]
pub struct GachaCountIncrement {
    pub daily_one: i64,
    pub daily_ten: i64,
    pub crazy_draw: i64,
}

/// The state of an activity's schedule at a moment.
#[derive(Clone, Copy, Debug, PartialEq, Eq, Structural)]
pub enum ActivityWindowStatus {
    Unscheduled,
    NotStarted,
    Open,
    Ended,
    Disabled,
}

/// The schedule fields of a gacha master entry.
#[derive(Clone, Copy, Debug, PartialEq, Eq, Structural)]
pub struct GachaDefinition {
    pub start_at_ms: Option<i64>,
    pub end_at_ms: Option<i64>,
}

/// The gacha master: definitions by gacha id text.
pub struct GachaCatalog {
    pub entries: Vec<(String, GachaDefinition)>,
}

/// Whether the catalog has an entry for `key` (the first one counts).
pub open spec fn catalog_lookup(entries: Seq<(String, GachaDefinition)>, key: Seq<char>) -> Option<
    GachaDefinition,
>
    decreases entries.len(),
{
    if entries.len() == 0 {
        None
    } else if entries[0].0@ == key {
        Some(entries[0].1)
    } else {
        catalog_lookup(entries.drop_first(), key)
    }
}

impl GachaCatalog {
    /// The definition of `gacha_id`, or an error where the gacha does not
    /// exist.
    pub fn direct_gacha_definition(&self, gacha_id: i64) -> (r: Result<GachaDefinition, ServiceError>)
        ensures
            match r {
                Ok(definition) => catalog_lookup(self.entries@, decimal(gacha_id as int)) == Some(
                    definition,
                ),
                Err(_) => catalog_lookup(self.entries@, decimal(gacha_id as int)) is None,
            },
    {
        let mut key = String::new();
        append_decimal(&mut key, gacha_id);
        assert(key@ =~= decimal(gacha_id as int));
        let mut i: usize = 0;
        assert(self.entries@.subrange(0, self.entries@.len() as int) =~= self.entries@);
        while i < self.entries.len()
            invariant
                i <= self.entries@.len(),
                key@ == decimal(gacha_id as int),
                catalog_lookup(self.entries@, key@) == catalog_lookup(
                    self.entries@.subrange(i as int, self.entries@.len() as int),
                    key@,
                ),
            decreases self.entries@.len() - i,
        {
            let ghost rest = self.entries@.subrange(i as int, self.entries@.len() as int);
            assert(rest.drop_first() =~= self.entries@.subrange(i + 1, self.entries@.len() as int));
            if str_eq(self.entries[i].0.as_str(), key.as_str()) {
                return Ok(self.entries[i].1);
            }
            i = i + 1;
        }
        Err(ServiceError::new("CN gacha does not exist"))
    }
}

/// The start and end of a gacha's master window, where both are present
/// and the end is after the start.
pub open spec fn spec_master_times(definition: GachaDefinition) -> Option<(i64, i64)> {
    match (definition.start_at_ms, definition.end_at_ms) {
        (Some(start), Some(end)) => if end > start {
            Some((start, end))
        } else {
            None
        },
        _ => None,
    }
}

/// Where `now_ms` stands relative to the master window.
pub open spec fn spec_window_status(start: i64, end: i64, now_ms: i64) -> ActivityWindowStatus {
    if now_ms < start {
        ActivityWindowStatus::NotStarted
    } else if now_ms >= end {
        ActivityWindowStatus::Ended
    } else {
        ActivityWindowStatus::Open
    }
}

/// Why a gacha has no master window: no start, or no end after it.
pub open spec fn master_times_failure(definition: GachaDefinition) -> Seq<char> {
    if definition.start_at_ms is None {
        "CN gacha start time is missing"@
    } else {
        "CN gacha end time is invalid"@
    }
}

/// The master window of a gacha; an error where a time is missing or the
/// window is empty.
pub fn gacha_master_times(definition: &GachaDefinition) -> (r: Result<(i64, i64), ServiceError>)
    ensures
        match r {
            Ok(times) => spec_master_times(*definition) == Some(times),
            Err(e) => spec_master_times(*definition) is None && e.message@ == master_times_failure(
                *definition,
            ),
        },
{
    let start_at_ms = match definition.start_at_ms {
        Some(start) => start,
        None => return Err(ServiceError::new("CN gacha start time is missing")),
    };
    match definition.end_at_ms {
        Some(end) => if end > start_at_ms {
            Ok((start_at_ms, end))
        } else {
            Err(ServiceError::new("CN gacha end time is invalid"))
        },
        None => Err(ServiceError::new("CN gacha end time is invalid")),
    }
}

/// The status of a gacha at `now_ms` by its master window alone.
pub fn gacha_master_window_status_from_definition(definition: &GachaDefinition, now_ms: i64) -> (r:
    Result<ActivityWindowStatus, ServiceError>)
    ensures
        match r {
            Ok(status) => spec_master_times(*definition) matches Some((start, end)) && status
                == spec_window_status(start, end, now_ms),
            Err(_) => spec_master_times(*definition) is None,
        },
{
    let (start_at_ms, end_at_ms) = gacha_master_times(definition)?;
    Ok(
        if now_ms < start_at_ms {
            ActivityWindowStatus::NotStarted
        } else if now_ms >= end_at_ms {
            ActivityWindowStatus::Ended
        } else {
            ActivityWindowStatus::Open
        },
    )
}

/// The status by its master window of the gacha that `gacha_id` stands
/// for; `None` where the canonical gacha is not in the catalog or has no
/// valid window.
pub open spec fn spec_master_status(
    policy: &region::GachaRegionPolicy,
    catalog: &GachaCatalog,
    gacha_id: i64,
    now_ms: i64,
) -> Option<ActivityWindowStatus> {
    match catalog_lookup(catalog.entries@, decimal(region::spec_canonical(policy, gacha_id) as int)) {
        Some(definition) => match spec_master_times(definition) {
            Some((start, end)) => Some(spec_window_status(start, end, now_ms)),
            None => None,
        },
        None => None,
    }
}

/// The master status of the gacha that `gacha_id` stands for: aliases are
/// resolved to their canonical gacha first.
pub fn gacha_master_window_status(
    policy: &region::GachaRegionPolicy,
    catalog: &GachaCatalog,
    gacha_id: i64,
    now_ms: i64,
) -> (r: Result<ActivityWindowStatus, ServiceError>)
    ensures
        match r {
            Ok(status) => spec_master_status(policy, catalog, gacha_id, now_ms) == Some(status),
            Err(_) => spec_master_status(policy, catalog, gacha_id, now_ms) is None,
        },
{
    let resolution = region::resolve(policy, catalog, gacha_id)?;
    let definition = catalog.direct_gacha_definition(resolution.canonical)?;
    gacha_master_window_status_from_definition(&definition, now_ms)
}

/// The status of a gacha: the scheduled status where there is one, else the
/// status by its master window.
pub fn gacha_activity_status(
    scheduled: ActivityWindowStatus,
    policy: &region::GachaRegionPolicy,
    catalog: &GachaCatalog,
    gacha_id: i64,
    now_ms: i64,
) -> (r: Result<ActivityWindowStatus, ServiceError>)
    ensures
        scheduled != ActivityWindowStatus::Unscheduled ==> r == Ok::<
            ActivityWindowStatus,
            ServiceError,
        >(scheduled),
        scheduled == ActivityWindowStatus::Unscheduled ==> match r {
            Ok(status) => spec_master_status(policy, catalog, gacha_id, now_ms) == Some(status),
            Err(_) => spec_master_status(policy, catalog, gacha_id, now_ms) is None,
        },
{
    if scheduled == ActivityWindowStatus::Unscheduled {
        gacha_master_window_status(policy, catalog, gacha_id, now_ms)
    } else {
        Ok(scheduled)
    }
}

/// Every tenth draw of a multi draw is guaranteed a high rank.
pub fn is_ten_pull_guaranteed_draw(draw_index: i64) -> (r: bool)
    ensures
        r == (draw_index >= 0 && draw_index % 10 == 9),
{
    draw_index >= 0 && draw_index % 10 == 9
}

/// The counters a draw advances: free single and multi draws count toward
/// the daily limits, crazy multi ticket draws toward their own limit.
pub fn gacha_count_increment(body: &ExecuteRequest) -> (r: GachaCountIncrement)
    ensures
        r == (if body.payment_type == FREE_VMONEY_PAYMENT && body.draw_type == SINGLE_DRAW {
            GachaCountIncrement { daily_one: body.number_of_exec, daily_ten: 0, crazy_draw: 0 }
        } else if body.payment_type == FREE_VMONEY_PAYMENT && body.draw_type == MULTI_DRAW {
            GachaCountIncrement { daily_one: 0, daily_ten: body.number_of_exec, crazy_draw: 0 }
        } else if body.payment_type == TICKET_PAYMENT && body.draw_type
            == CRAZY_MULTI_TICKET_DRAW {
            GachaCountIncrement { daily_one: 0, daily_ten: 0, crazy_draw: body.number_of_exec }
        } else {
            GachaCountIncrement { daily_one: 0, daily_ten: 0, crazy_draw: 0 }
        }),
{
    if body.payment_type == FREE_VMONEY_PAYMENT && body.draw_type == SINGLE_DRAW {
        GachaCountIncrement { daily_one: body.number_of_exec, daily_ten: 0, crazy_draw: 0 }
    } else if body.payment_type == FREE_VMONEY_PAYMENT && body.draw_type == MULTI_DRAW {
        GachaCountIncrement { daily_one: 0, daily_ten: body.number_of_exec, crazy_draw: 0 }
    } else if body.payment_type == TICKET_PAYMENT && body.draw_type == CRAZY_MULTI_TICKET_DRAW {
        GachaCountIncrement { daily_one: 0, daily_ten: 0, crazy_draw: body.number_of_exec }
    } else {
        GachaCountIncrement { daily_one: 0, daily_ten: 0, crazy_draw: 0 }
    }
}

/// The error code that keeps a gacha closed, if any: a temporary alias
/// needs an open temporary window; a selected coverage or regional bridge
/// is open; any other coverage alias has ended; otherwise the gacha's own
/// schedule decides (an unscheduled gacha is open).
pub open spec fn spec_closed_gacha_code(
    resolution: region::ResolvedGachaId,
    temporary_window_open: bool,
    is_selected_bridge: bool,
    status: ActivityWindowStatus,
) -> Option<Seq<char>> {
    if resolution.is_temporary {
        if temporary_window_open {
            None
        } else {
            Some("activity_ended"@)
        }
    } else if (resolution.is_coverage || resolution.is_regional) && is_selected_bridge {
        None
    } else if resolution.is_coverage {
        Some("activity_ended"@)
    } else {
        match status {
            ActivityWindowStatus::Unscheduled | ActivityWindowStatus::Open => None,
            ActivityWindowStatus::Disabled => Some("activity_disabled"@),
            ActivityWindowStatus::NotStarted => Some("activity_not_started"@),
            ActivityWindowStatus::Ended => Some("activity_ended"@),
        }
    }
}

/// The error code that keeps a gacha closed, from the temporary window of
/// the gacha, whether its alias is a selected bridge, and its schedule.
pub fn closed_gacha_code(
    resolution: region::ResolvedGachaId,
    temporary_window_open: bool,
    is_selected_bridge: bool,
    status: ActivityWindowStatus,
) -> (r: Option<&'static str>)
    ensures
        match spec_closed_gacha_code(resolution, temporary_window_open, is_selected_bridge, status) {
            Some(code) => r matches Some(c) && c@ == code,
            None => r is None,
        },
{
    if resolution.is_temporary {
        if temporary_window_open {
            None
        } else {
            Some("activity_ended")
        }
    } else if (resolution.is_coverage || resolution.is_regional) && is_selected_bridge {
        None
    } else if resolution.is_coverage {
        Some("activity_ended")
    } else {
        match status {
            ActivityWindowStatus::Unscheduled | ActivityWindowStatus::Open => None,
            ActivityWindowStatus::Disabled => Some("activity_disabled"),
            ActivityWindowStatus::NotStarted => Some("activity_not_started"),
            ActivityWindowStatus::Ended => Some("activity_ended"),
        }
    }
}

/// The id of a gacha's activity in the schedule: `gacha:<id>`.
pub fn gacha_activity_id(gacha_id: i64) -> (r: String)
    ensures
        r@ == "gacha:"@ + decimal(gacha_id as int),
{
    let mut id = String::from_str("gacha:");
    append_decimal(&mut id, gacha_id);
    id
}

/// The gacha that an activity id names: `gacha:<id>` with a decimal id.
pub open spec fn spec_gacha_of_activity(activity_id: Seq<char>) -> Option<i64> {
    if has_prefix(activity_id, "gacha:"@) {
        spec_parse_i64(activity_id.subrange(6, activity_id.len() as int))
    } else {
        None
    }
}

/// The gacha that an activity id names, if it names one.
pub fn gacha_of_activity(activity_id: &str) -> (r: Option<i64>)
    ensures
        r == spec_gacha_of_activity(activity_id@),
{
    match strip_prefix(activity_id, "gacha:") {
        Some(rest) => {
            proof {
                reveal_strlit("gacha:");
            }
            parse_i64(rest)
        },
        None => {
            proof {
                reveal_strlit("gacha:");
            }
            None
        },
    }
}

/// The activity of a gacha names the gacha again.
pub proof fn lemma_activity_id_round_trip(gacha_id: i64)
    ensures
        spec_gacha_of_activity("gacha:"@ + decimal(gacha_id as int)) == Some(gacha_id),
{
    reveal_strlit("gacha:");
    let s = "gacha:"@ + decimal(gacha_id as int);
    assert(s.subrange(0, 6) =~= "gacha:"@);
    assert(s.subrange(6, s.len() as int) =~= decimal(gacha_id as int));
    lemma_parse_decimal(gacha_id);
}

/// The endpoints of the gacha service.
#[derive(Clone, Copy, Debug, PartialEq, Eq, Structural)]
pub enum GachaEndpoint {
    Execute,
    ExchangeCharacter,
    ExchangeEquipment,
}

/// Which endpoint a request is for; `None` where it is not one of them.
pub fn route(method: &str, path: &str) -> (r: Option<GachaEndpoint>)
    ensures
        r == (if method@ != "POST"@ {
            None
        } else if path@ == "/api/index.php/gacha/exec"@ {
            Some(GachaEndpoint::Execute)
        } else if path@ == "/api/index.php/gacha/exchange_character"@ {
            Some(GachaEndpoint::ExchangeCharacter)
        } else if path@ == "/api/index.php/gacha/exchange_equipment"@ {
            Some(GachaEndpoint::ExchangeEquipment)
        } else {
            None
        }),
{
    if !str_eq(method, "POST") {
        None
    } else if str_eq(path, "/api/index.php/gacha/exec") {
        Some(GachaEndpoint::Execute)
    } else if str_eq(path, "/api/index.php/gacha/exchange_character") {
        Some(GachaEndpoint::ExchangeCharacter)
    } else if str_eq(path, "/api/index.php/gacha/exchange_equipment") {
        Some(GachaEndpoint::ExchangeEquipment)
    } else {
        None
    }
}

/// The JSON error answer of this service.
pub fn error_response(status: &str, code: &str) -> (r: JsonResponse)
    ensures
        r.status@ == status@,
        r.body@ == error_body(code@),
{
    json_error(status, code)
}

} // verus!
