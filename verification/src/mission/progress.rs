//! The mission progress request: the progress of every requested mission
//! and the stages whose rewards it pays out for the first time.
use vstd::prelude::*;

use crate::counts::Counts;
use crate::http::{error_body, JsonResponse};
use crate::mission::{
    compute_progress, current_stage, error_response, keyed, mission_character_id, spec_compute_progress,
    spec_current_stage, spec_mission_character_id, stage_reached, ComputeContext, MissionCatalog,
    MissionDefinition, MissionReward,
};
use crate::text::{append_decimal, decimal, str_eq};

verus! {

/// A requested category, with the character it is narrowed to where the
/// request names one (in the text the client sent).
pub struct RequestedCategory {
    pub category: i64,
    pub character_id: Option<String>,
}

/// Whether a progress request names a viewer and a call count.
pub fn progress_request_valid(viewer_id: i64, api_count: i64) -> (r: bool)
    ensures
        r == (viewer_id > 0 && api_count >= 0),
{
    viewer_id > 0 && api_count >= 0
}

/// Whether every requested category is positive.
pub open spec fn categories_positive(categories: Seq<RequestedCategory>) -> bool {
    forall|i: int| 0 <= i < categories.len() ==> #[trigger] categories[i].category > 0
}

/// The categories a request asks for: those it lists, or category 1 where
/// it lists none; refused with `invalid_request_body` where one is not
/// positive.
pub fn requested_categories(list: Option<Vec<RequestedCategory>>) -> (r: Result<
    Vec<RequestedCategory>,
    JsonResponse,
>)
    ensures
        match list {
            None => r matches Ok(c) && c@.len() == 1 && c@[0].category == 1
                && c@[0].character_id is None,
            Some(l) => if categories_positive(l@) {
                r matches Ok(c) && c@ == l@
            } else {
                r matches Err(e) && e.status@ == "400 Bad Request"@ && e.body@ == error_body(
                    "invalid_request_body"@,
                )
            },
        },
{
    match list {
        None => {
            let mut c: Vec<RequestedCategory> = Vec::new();
            c.push(RequestedCategory { category: 1, character_id: None });
            Ok(c)
        },
        Some(l) => {
            let mut i: usize = 0;
            while i < l.len()
                invariant
                    i <= l@.len(),
                    list == Some(l),
                    forall|j: int| 0 <= j < i ==> #[trigger] l@[j].category > 0,
                decreases l@.len() - i,
            {
                if l[i].category <= 0 {
                    return Err(error_response("400 Bad Request", "invalid_request_body"));
                }
                i = i + 1;
            }
            Ok(l)
        },
    }
}

/// The character a category is narrowed to: the last entry of that
/// category that names one.
pub open spec fn category_filter(categories: Seq<RequestedCategory>, category: i64) -> Option<Seq<char>>
    decreases categories.len(),
{
    if categories.len() == 0 {
        None
    } else if categories.last().category == category && categories.last().character_id is Some {
        Some(categories.last().character_id->0@)
    } else {
        category_filter(categories.drop_last(), category)
    }
}

/// The character a category is narrowed to.
pub fn character_filter(categories: &Vec<RequestedCategory>, category: i64) -> (r: Option<&str>)
    ensures
        match r {
            Some(s) => category_filter(categories@, category) == Some(s@),
            None => category_filter(categories@, category) is None,
        },
{
    let mut i: usize = categories.len();
    assert(categories@.subrange(0, categories@.len() as int) =~= categories@);
    while i > 0
        invariant
            i <= categories@.len(),
            category_filter(categories@, category) == category_filter(
                categories@.subrange(0, i as int),
                category,
            ),
        decreases i,
    {
        let ghost prefix = categories@.subrange(0, i as int);
        assert(prefix.drop_last() =~= categories@.subrange(0, i - 1));
        let entry = &categories[i - 1];
        if entry.category == category {
            if let Some(text) = &entry.character_id {
                return Some(text.as_str());
            }
        }
        i = i - 1;
    }
    None
}

/// Whether a mission of a requested category is listed: an awakening
/// mission (category 9) is listed only for the character its category is
/// narrowed to, where it is narrowed.
pub open spec fn mission_listed(category: i64, filter: Option<Seq<char>>, mission: MissionDefinition) -> bool {
    !(category == 9 && filter is Some && spec_mission_character_id(mission.id) != filter->0)
}

/// The progress a mission shows in the answer.
#[derive(Clone, Copy, Debug, PartialEq, Eq, Structural)]
pub struct MissionProgressEntry {
    pub category: i64,
    pub mission_id: i64,
    pub progress: i64,
    pub stage: i64,
}

/// A stage whose rewards are paid out now, with its receipt.
pub struct StageGrant {
    pub category: i64,
    pub mission_id: i64,
    pub stage: i64,
    pub progress: i64,
    pub receipt: String,
    pub rewards: Vec<MissionReward>,
}

/// A grant as plain values: category, mission, stage, progress, receipt
/// and rewards.
pub type GrantView = (i64, i64, i64, i64, Seq<char>, Seq<MissionReward>);

/// The plain values of a grant.
pub open spec fn grant_view(g: StageGrant) -> GrantView {
    (g.category, g.mission_id, g.stage, g.progress, g.receipt@, g.rewards@)
}

/// The plain values of a list of grants.
pub open spec fn grants_view(gs: Seq<StageGrant>) -> Seq<GrantView> {
    gs.map_values(|g: StageGrant| grant_view(g))
}

/// The receipts of a list of grants.
pub open spec fn receipts_of(gs: Seq<GrantView>) -> Seq<Seq<char>> {
    gs.map_values(|g: GrantView| g.4)
}

/// The receipt of a mission stage: `category:mission:stage`.
pub open spec fn stage_receipt(category: i64, mission_id: i64, stage: i64) -> Seq<char> {
    decimal(category as int) + ":"@ + decimal(mission_id as int) + ":"@ + decimal(stage as int)
}

/// The stored progress of a mission (0 where none is stored): the first
/// entry `(category, mission, progress)` for it.
pub open spec fn stored_value(stored: Seq<(i64, i64, i64)>, category: i64, mission_id: i64) -> i64
    decreases stored.len(),
{
    if stored.len() == 0 {
        0
    } else if stored[0].0 == category && stored[0].1 == mission_id {
        stored[0].2
    } else {
        stored_value(stored.drop_first(), category, mission_id)
    }
}

/// The stored progress of a mission.
pub fn stored_progress(stored: &Vec<(i64, i64, i64)>, category: i64, mission_id: i64) -> (r: i64)
    ensures
        r == stored_value(stored@, category, mission_id),
{
    let mut i: usize = 0;
    assert(stored@.subrange(0, stored@.len() as int) =~= stored@);
    while i < stored.len()
        invariant
            i <= stored@.len(),
            stored_value(stored@, category, mission_id) == stored_value(
                stored@.subrange(i as int, stored@.len() as int),
                category,
                mission_id,
            ),
        decreases stored@.len() - i,
    {
        let ghost rest = stored@.subrange(i as int, stored@.len() as int);
        assert(rest.drop_first() =~= stored@.subrange(i + 1, stored@.len() as int));
        let (c, m, p) = stored[i];
        if c == category && m == mission_id {
            return p;
        }
        i = i + 1;
    }
    0
}

/// The grants of one mission appended to `acc`: each stage, in order, that
/// the progress reaches and whose receipt is neither held nor granted
/// already.
pub open spec fn mission_grants(
    category: i64,
    mission_id: i64,
    progress: i64,
    held: Seq<Seq<char>>,
    stages: Seq<crate::mission::MissionStage>,
    acc: Seq<GrantView>,
) -> Seq<GrantView>
    decreases stages.len(),
{
    if stages.len() == 0 {
        acc
    } else {
        let s = stages[0];
        let receipt = stage_receipt(category, mission_id, s.stage);
        let next = if stage_reached(s, progress) && !(held + receipts_of(acc)).contains(receipt) {
            acc.push((category, mission_id, s.stage, progress, receipt, s.rewards@))
        } else {
            acc
        };
        mission_grants(category, mission_id, progress, held, stages.drop_first(), next)
    }
}

/// The answer so far: the progress entries and the grants.
pub type PlanView = (Seq<MissionProgressEntry>, Seq<GrantView>);

/// One listed mission added to the answer.
pub open spec fn plan_mission(
    plan: PlanView,
    category: i64,
    mission: MissionDefinition,
    context: ComputeContext,
    counters: Counts,
    stored: Seq<(i64, i64, i64)>,
    catalog: MissionCatalog,
    held: Seq<Seq<char>>,
) -> PlanView {
    let progress = spec_compute_progress(
        category,
        &mission,
        &context,
        &counters,
        stored_value(stored, category, mission.id),
        &catalog,
    );
    let entry = MissionProgressEntry {
        category,
        mission_id: mission.id,
        progress,
        stage: spec_current_stage(&mission, progress),
    };
    (
        plan.0.push(entry),
        mission_grants(category, mission.id, progress, held, mission.stages@, plan.1),
    )
}

/// The missions of a category added to the answer in the master's order.
pub open spec fn plan_category(
    plan: PlanView,
    category: i64,
    filter: Option<Seq<char>>,
    missions: Seq<MissionDefinition>,
    context: ComputeContext,
    counters: Counts,
    stored: Seq<(i64, i64, i64)>,
    catalog: MissionCatalog,
    held: Seq<Seq<char>>,
) -> PlanView
    decreases missions.len(),
{
    if missions.len() == 0 {
        plan
    } else {
        let next = if mission_listed(category, filter, missions[0]) {
            plan_mission(plan, category, missions[0], context, counters, stored, catalog, held)
        } else {
            plan
        };
        plan_category(
            next,
            category,
            filter,
            missions.drop_first(),
            context,
            counters,
            stored,
            catalog,
            held,
        )
    }
}

/// The requested categories added to the answer in the order requested; a
/// category the master does not have adds nothing.
pub open spec fn plan_categories(
    plan: PlanView,
    requested: Seq<RequestedCategory>,
    all: Seq<RequestedCategory>,
    context: ComputeContext,
    counters: Counts,
    stored: Seq<(i64, i64, i64)>,
    catalog: MissionCatalog,
    held: Seq<Seq<char>>,
) -> PlanView
    decreases requested.len(),
{
    if requested.len() == 0 {
        plan
    } else {
        let category = requested[0].category;
        let next = match keyed(catalog.categories@, category) {
            Some(missions) => plan_category(
                plan,
                category,
                category_filter(all, category),
                missions@,
                context,
                counters,
                stored,
                catalog,
                held,
            ),
            None => plan,
        };
        plan_categories(
            next,
            requested.drop_first(),
            all,
            context,
            counters,
            stored,
            catalog,
            held,
        )
    }
}

/// The answer to a progress request.
pub struct ProgressPlan {
    pub progress_list: Vec<MissionProgressEntry>,
    pub grants: Vec<StageGrant>,
}

/// The receipt of a mission stage.
pub fn stage_receipt_text(category: i64, mission_id: i64, stage: i64) -> (r: String)
    ensures
        r@ == stage_receipt(category, mission_id, stage),
{
    let mut r = String::new();
    append_decimal(&mut r, category);
    r.append(":");
    append_decimal(&mut r, mission_id);
    r.append(":");
    append_decimal(&mut r, stage);
    proof {
        reveal_strlit(":");
    }
    assert(r@ =~= stage_receipt(category, mission_id, stage));
    r
}

/// Whether a receipt is held or granted already.
fn receipt_taken(held: &Vec<String>, grants: &Vec<StageGrant>, receipt: &str) -> (r: bool)
    ensures
        r == (crate::party::key_views(held@) + receipts_of(grants_view(grants@))).contains(
            receipt@,
        ),
{
    let ghost all = crate::party::key_views(held@) + receipts_of(grants_view(grants@));
    let mut i: usize = 0;
    while i < held.len()
        invariant
            i <= held@.len(),
            all == crate::party::key_views(held@) + receipts_of(grants_view(grants@)),
            forall|j: int| 0 <= j < i ==> all[j] != receipt@,
        decreases held@.len() - i,
    {
        if str_eq(held[i].as_str(), receipt) {
            assert(all[i as int] == receipt@);
            return true;
        }
        i = i + 1;
    }
    let mut k: usize = 0;
    while k < grants.len()
        invariant
            k <= grants@.len(),
            all == crate::party::key_views(held@) + receipts_of(grants_view(grants@)),
            forall|j: int| 0 <= j < held@.len() + k ==> all[j] != receipt@,
        decreases grants@.len() - k,
    {
        if str_eq(grants[k].receipt.as_str(), receipt) {
            assert(all[held@.len() + k] == receipt@);
            return true;
        }
        k = k + 1;
    }
    proof {
        if all.contains(receipt@) {
            let j = choose|j: int| 0 <= j < all.len() && all[j] == receipt@;
            assert(false);
        }
    }
    false
}

/// Appends the grants of one mission to `grants`.
fn grant_mission_stages(
    category: i64,
    mission: &MissionDefinition,
    progress: i64,
    held: &Vec<String>,
    grants: &mut Vec<StageGrant>,
)
    ensures
        grants_view(final(grants)@) == mission_grants(
            category,
            mission.id,
            progress,
            crate::party::key_views(held@),
            mission.stages@,
            grants_view(old(grants)@),
        ),
{
    let ghost heldv = crate::party::key_views(held@);
    let ghost target = mission_grants(
        category,
        mission.id,
        progress,
        heldv,
        mission.stages@,
        grants_view(grants@),
    );
    let stages = &mission.stages;
    let mut i: usize = 0;
    assert(stages@.subrange(0, stages@.len() as int) =~= stages@);
    while i < stages.len()
        invariant
            i <= stages@.len(),
            stages@ == mission.stages@,
            heldv == crate::party::key_views(held@),
            target == mission_grants(
                category,
                mission.id,
                progress,
                heldv,
                stages@.subrange(i as int, stages@.len() as int),
                grants_view(grants@),
            ),
        decreases stages@.len() - i,
    {
        let ghost rest = stages@.subrange(i as int, stages@.len() as int);
        assert(rest.drop_first() =~= stages@.subrange(i + 1, stages@.len() as int));
        let stage = &stages[i];
        let reached = match stage.target {
            Some(target) => progress >= target,
            None => false,
        };
        if reached {
            let receipt = stage_receipt_text(category, mission.id, stage.stage);
            if !receipt_taken(held, grants, receipt.as_str()) {
                let ghost before = grants_view(grants@);
                let grant = StageGrant {
                    category,
                    mission_id: mission.id,
                    stage: stage.stage,
                    progress,
                    receipt,
                    rewards: stage.rewards.clone(),
                };
                grants.push(grant);
                assert(grants_view(grants@) =~= before.push(
                    (
                        category,
                        mission.id,
                        stage.stage,
                        progress,
                        stage_receipt(category, mission.id, stage.stage),
                        stage.rewards@,
                    ),
                ));
            }
        }
        i = i + 1;
    }
}

/// The progress of every mission of the requested categories, in the
/// order requested and in the master's order within a category, and the
/// stages paid out now: each stage the progress reaches whose receipt is
/// neither among `held` nor granted earlier in the same answer. `stored`
/// holds the stored progress as `(category, mission, progress)`.
pub fn plan_mission_progress(
    requested: &Vec<RequestedCategory>,
    catalog: &MissionCatalog,
    context: &ComputeContext,
    counters: &Counts,
    stored: &Vec<(i64, i64, i64)>,
    held: &Vec<String>,
) -> (r: ProgressPlan)
    ensures
        (r.progress_list@, grants_view(r.grants@)) == plan_categories(
            (seq![], seq![]),
            requested@,
            requested@,
            *context,
            *counters,
            stored@,
            *catalog,
            crate::party::key_views(held@),
        ),
{
    let ghost heldv = crate::party::key_views(held@);
    let ghost target = plan_categories(
        (seq![], seq![]),
        requested@,
        requested@,
        *context,
        *counters,
        stored@,
        *catalog,
        heldv,
    );
    let mut progress_list: Vec<MissionProgressEntry> = Vec::new();
    let mut grants: Vec<StageGrant> = Vec::new();
    assert(grants_view(grants@) =~= Seq::<GrantView>::empty());
    assert(requested@.subrange(0, requested@.len() as int) =~= requested@);
    let mut c: usize = 0;
    while c < requested.len()
        invariant
            c <= requested@.len(),
            heldv == crate::party::key_views(held@),
            target == plan_categories(
                (progress_list@, grants_view(grants@)),
                requested@.subrange(c as int, requested@.len() as int),
                requested@,
                *context,
                *counters,
                stored@,
                *catalog,
                heldv,
            ),
        decreases requested@.len() - c,
    {
        let ghost rest = requested@.subrange(c as int, requested@.len() as int);
        assert(rest.drop_first() =~= requested@.subrange(c + 1, requested@.len() as int));
        let category = requested[c].category;
        let found = crate::mission::find_key_index(&catalog.categories, category);
        proof {
            crate::mission::lemma_key_index(catalog.categories@, category);
        }
        if let Some(index) = found {
            let missions = &catalog.categories[index].1;
            let filter = character_filter(requested, category);
            let ghost filterv = category_filter(requested@, category);
            let ghost category_target = plan_category(
                (progress_list@, grants_view(grants@)),
                category,
                filterv,
                missions@,
                *context,
                *counters,
                stored@,
                *catalog,
                heldv,
            );
            assert(missions@.subrange(0, missions@.len() as int) =~= missions@);
            let mut m: usize = 0;
            while m < missions.len()
                invariant
                    m <= missions@.len(),
                    heldv == crate::party::key_views(held@),
                    filterv == category_filter(requested@, category),
                    match filter {
                        Some(s) => filterv == Some(s@),
                        None => filterv is None,
                    },
                    category_target == plan_category(
                        (progress_list@, grants_view(grants@)),
                        category,
                        filterv,
                        missions@.subrange(m as int, missions@.len() as int),
                        *context,
                        *counters,
                        stored@,
                        *catalog,
                        heldv,
                    ),
                decreases missions@.len() - m,
            {
                let ghost mrest = missions@.subrange(m as int, missions@.len() as int);
                assert(mrest.drop_first() =~= missions@.subrange(m + 1, missions@.len() as int));
                let mission = &missions[m];
                let listed = if category == 9 {
                    match filter {
                        Some(character) => {
                            let own = mission_character_id(mission.id);
                            str_eq(own.as_str(), character)
                        },
                        None => true,
                    }
                } else {
                    true
                };
                if listed {
                    let database_progress = stored_progress(stored, category, mission.id);
                    let progress = compute_progress(
                        category,
                        mission,
                        context,
                        counters,
                        database_progress,
                        catalog,
                    );
                    let stage = current_stage(mission, progress);
                    progress_list.push(
                        MissionProgressEntry { category, mission_id: mission.id, progress, stage },
                    );
                    grant_mission_stages(category, mission, progress, held, &mut grants);
                }
                m = m + 1;
            }
        }
        c = c + 1;
    }
    assert(requested@.subrange(c as int, requested@.len() as int).len() == 0);
    ProgressPlan { progress_list, grants }
}


/// Whether the receipts of the grants are all different and none of them
/// is held.
pub open spec fn fresh_receipts(held: Seq<Seq<char>>, grants: Seq<GrantView>) -> bool {
    let receipts = receipts_of(grants);
    &&& forall|i: int, j: int|
        0 <= i < j < receipts.len() ==> #[trigger] receipts[i] != #[trigger] receipts[j]
    &&& forall|i: int| 0 <= i < receipts.len() ==> !held.contains(#[trigger] receipts[i])
}

proof fn lemma_mission_grants_fresh(
    category: i64,
    mission_id: i64,
    progress: i64,
    held: Seq<Seq<char>>,
    stages: Seq<crate::mission::MissionStage>,
    acc: Seq<GrantView>,
)
    requires
        fresh_receipts(held, acc),
    ensures
        fresh_receipts(held, mission_grants(category, mission_id, progress, held, stages, acc)),
    decreases stages.len(),
{
    if stages.len() > 0 {
        let s = stages[0];
        let receipt = stage_receipt(category, mission_id, s.stage);
        if stage_reached(s, progress) && !(held + receipts_of(acc)).contains(receipt) {
            let g = (category, mission_id, s.stage, progress, receipt, s.rewards@);
            let next = acc.push(g);
            assert(receipts_of(next) =~= receipts_of(acc).push(receipt));
            assert forall|i: int| 0 <= i < receipts_of(acc).len() implies receipts_of(acc)[i]
                != receipt by {
                assert((held + receipts_of(acc))[held.len() + i] == receipts_of(acc)[i]);
            }
            assert forall|i: int| 0 <= i < held.len() implies held[i] != receipt by {
                assert((held + receipts_of(acc))[i] == held[i]);
            }
            lemma_mission_grants_fresh(category, mission_id, progress, held, stages.drop_first(), next);
        } else {
            lemma_mission_grants_fresh(category, mission_id, progress, held, stages.drop_first(), acc);
        }
    }
}

proof fn lemma_plan_category_fresh(
    plan: PlanView,
    category: i64,
    filter: Option<Seq<char>>,
    missions: Seq<MissionDefinition>,
    context: ComputeContext,
    counters: Counts,
    stored: Seq<(i64, i64, i64)>,
    catalog: MissionCatalog,
    held: Seq<Seq<char>>,
)
    requires
        fresh_receipts(held, plan.1),
    ensures
        fresh_receipts(
            held,
            plan_category(plan, category, filter, missions, context, counters, stored, catalog, held).1,
        ),
    decreases missions.len(),
{
    if missions.len() > 0 {
        let next = if mission_listed(category, filter, missions[0]) {
            let m = missions[0];
            let progress = spec_compute_progress(
                category,
                &m,
                &context,
                &counters,
                stored_value(stored, category, m.id),
                &catalog,
            );
            lemma_mission_grants_fresh(category, m.id, progress, held, m.stages@, plan.1);
            plan_mission(plan, category, m, context, counters, stored, catalog, held)
        } else {
            plan
        };
        lemma_plan_category_fresh(
            next,
            category,
            filter,
            missions.drop_first(),
            context,
            counters,
            stored,
            catalog,
            held,
        );
    }
}

proof fn lemma_plan_categories_fresh(
    plan: PlanView,
    requested: Seq<RequestedCategory>,
    all: Seq<RequestedCategory>,
    context: ComputeContext,
    counters: Counts,
    stored: Seq<(i64, i64, i64)>,
    catalog: MissionCatalog,
    held: Seq<Seq<char>>,
)
    requires
        fresh_receipts(held, plan.1),
    ensures
        fresh_receipts(
            held,
            plan_categories(plan, requested, all, context, counters, stored, catalog, held).1,
        ),
    decreases requested.len(),
{
    if requested.len() > 0 {
        let category = requested[0].category;
        let next = match keyed(catalog.categories@, category) {
            Some(missions) => {
                lemma_plan_category_fresh(
                    plan,
                    category,
                    category_filter(all, category),
                    missions@,
                    context,
                    counters,
                    stored,
                    catalog,
                    held,
                );
                plan_category(
                    plan,
                    category,
                    category_filter(all, category),
                    missions@,
                    context,
                    counters,
                    stored,
                    catalog,
                    held,
                )
            },
            None => plan,
        };
        lemma_plan_categories_fresh(
            next,
            requested.drop_first(),
            all,
            context,
            counters,
            stored,
            catalog,
            held,
        );
    }
}

/// A stage's rewards are paid at most once: the stages a progress request
/// pays out have different receipts, and none of them was held before.
pub proof fn lemma_stage_rewards_paid_once(
    requested: Seq<RequestedCategory>,
    context: ComputeContext,
    counters: Counts,
    stored: Seq<(i64, i64, i64)>,
    catalog: MissionCatalog,
    held: Seq<Seq<char>>,
)
    ensures
        fresh_receipts(
            held,
            plan_categories(
                (seq![], seq![]),
                requested,
                requested,
                context,
                counters,
                stored,
                catalog,
                held,
            ).1,
        ),
{
    assert(receipts_of(Seq::<GrantView>::empty()) =~= Seq::<Seq<char>>::empty());
    lemma_plan_categories_fresh(
        (seq![], seq![]),
        requested,
        requested,
        context,
        counters,
        stored,
        catalog,
        held,
    );
}


/// The awakening progress of one mission as the load answer shows it.
pub struct AwakeMissionEntry {
    pub mission_id: i64,
    pub progress: i64,
    pub stages: Vec<(i64, bool)>,
}

/// An awakening entry as plain values: mission, progress, and each stage
/// with whether it is received.
pub type AwakeView = (i64, i64, Seq<(i64, bool)>);

/// The plain values of an awakening entry.
pub open spec fn awake_view(e: AwakeMissionEntry) -> AwakeView {
    (e.mission_id, e.progress, e.stages@)
}

/// The plain values of a list of awakening entries.
pub open spec fn awake_views(es: Seq<AwakeMissionEntry>) -> Seq<AwakeView> {
    es.map_values(|e: AwakeMissionEntry| awake_view(e))
}

/// Each stage with whether the progress reaches it.
pub open spec fn stage_flags(stages: Seq<crate::mission::MissionStage>, progress: i64) -> Seq<(i64, bool)> {
    Seq::new(stages.len(), |i: int| (stages[i].stage, stage_reached(stages[i], progress)))
}

/// Whether every flag is set.
pub open spec fn all_received(flags: Seq<(i64, bool)>) -> bool {
    forall|i: int| 0 <= i < flags.len() ==> #[trigger] flags[i].1
}

/// The awakening missions of one character added to the entries, with
/// whether the character has any and whether all their stages are
/// received.
pub open spec fn character_awake_entries(
    character: Seq<char>,
    missions: Seq<MissionDefinition>,
    context: ComputeContext,
    counters: Counts,
    stored: Seq<(i64, i64, i64)>,
    catalog: MissionCatalog,
    acc: (Seq<AwakeView>, bool, bool),
) -> (Seq<AwakeView>, bool, bool)
    decreases missions.len(),
{
    if missions.len() == 0 {
        acc
    } else {
        let m = missions[0];
        let next = if spec_mission_character_id(m.id) == character {
            let progress = spec_compute_progress(
                9,
                &m,
                &context,
                &counters,
                stored_value(stored, 9, m.id),
                &catalog,
            );
            let flags = stage_flags(m.stages@, progress);
            (acc.0.push((m.id, progress, flags)), true, acc.2 && all_received(flags))
        } else {
            acc
        };
        character_awake_entries(
            character,
            missions.drop_first(),
            context,
            counters,
            stored,
            catalog,
            next,
        )
    }
}

/// The awakening summary of the owned characters, in the order given:
/// every awakening mission of each, and the characters that have some and
/// have received all their stages.
pub open spec fn awake_summary(
    owned: Seq<Seq<char>>,
    missions: Seq<MissionDefinition>,
    context: ComputeContext,
    counters: Counts,
    stored: Seq<(i64, i64, i64)>,
    catalog: MissionCatalog,
    acc: (Seq<AwakeView>, Seq<Seq<char>>),
) -> (Seq<AwakeView>, Seq<Seq<char>>)
    decreases owned.len(),
{
    if owned.len() == 0 {
        acc
    } else {
        let r = character_awake_entries(
            owned[0],
            missions,
            context,
            counters,
            stored,
            catalog,
            (acc.0, false, true),
        );
        let awakened = if r.1 && r.2 {
            acc.1.push(owned[0])
        } else {
            acc.1
        };
        awake_summary(owned.drop_first(), missions, context, counters, stored, catalog, (r.0, awakened))
    }
}

/// The awakening summary of a load answer.
pub struct AwakeSummary {
    pub active_missions: Vec<AwakeMissionEntry>,
    pub awakened: Vec<String>,
}

/// The stage flags of a mission at a progress.
fn mission_stage_flags(mission: &MissionDefinition, progress: i64) -> (r: Vec<(i64, bool)>)
    ensures
        r@ == stage_flags(mission.stages@, progress),
{
    let mut out: Vec<(i64, bool)> = Vec::new();
    let mut i: usize = 0;
    while i < mission.stages.len()
        invariant
            i <= mission.stages@.len(),
            out@ == stage_flags(mission.stages@, progress).subrange(0, i as int),
        decreases mission.stages@.len() - i,
    {
        let stage = &mission.stages[i];
        let received = match stage.target {
            Some(target) => progress >= target,
            None => false,
        };
        out.push((stage.stage, received));
        i = i + 1;
        assert(out@ =~= stage_flags(mission.stages@, progress).subrange(0, i as int));
    }
    assert(out@ =~= stage_flags(mission.stages@, progress));
    out
}

/// The awakening summary of the characters a player owns (their ids in
/// the order of the stored character list): the progress of every
/// awakening mission of each, and the characters that have received every
/// stage of their missions.
pub fn load_awake_summary(
    owned: &Vec<String>,
    catalog: &MissionCatalog,
    context: &ComputeContext,
    counters: &Counts,
    stored: &Vec<(i64, i64, i64)>,
) -> (r: AwakeSummary)
    ensures
        (awake_views(r.active_missions@), crate::party::key_views(r.awakened@)) == awake_summary(
            crate::party::key_views(owned@),
            match keyed(catalog.categories@, 9) {
                Some(missions) => missions@,
                None => seq![],
            },
            *context,
            *counters,
            stored@,
            *catalog,
            (seq![], seq![]),
        ),
{
    let found = crate::mission::find_key_index(&catalog.categories, 9);
    proof {
        crate::mission::lemma_key_index(catalog.categories@, 9);
    }
    let empty: Vec<MissionDefinition> = Vec::new();
    let missions = match found {
        Some(index) => &catalog.categories[index].1,
        None => &empty,
    };
    let ghost ownedv = crate::party::key_views(owned@);
    let ghost target = awake_summary(
        ownedv,
        missions@,
        *context,
        *counters,
        stored@,
        *catalog,
        (seq![], seq![]),
    );
    let mut active: Vec<AwakeMissionEntry> = Vec::new();
    let mut awakened: Vec<String> = Vec::new();
    assert(awake_views(active@) =~= Seq::<AwakeView>::empty());
    assert(crate::party::key_views(awakened@) =~= Seq::<Seq<char>>::empty());
    assert(ownedv.subrange(0, ownedv.len() as int) =~= ownedv);
    let mut c: usize = 0;
    while c < owned.len()
        invariant
            c <= owned@.len(),
            ownedv == crate::party::key_views(owned@),
            target == awake_summary(
                ownedv.subrange(c as int, ownedv.len() as int),
                missions@,
                *context,
                *counters,
                stored@,
                *catalog,
                (awake_views(active@), crate::party::key_views(awakened@)),
            ),
        decreases owned@.len() - c,
    {
        let ghost rest = ownedv.subrange(c as int, ownedv.len() as int);
        assert(rest.drop_first() =~= ownedv.subrange(c + 1, ownedv.len() as int));
        assert(rest[0] == owned@[c as int]@);
        let character = owned[c].as_str();
        let ghost character_target = character_awake_entries(
            character@,
            missions@,
            *context,
            *counters,
            stored@,
            *catalog,
            (awake_views(active@), false, true),
        );
        let mut any = false;
        let mut all = true;
        let mut m: usize = 0;
        assert(missions@.subrange(0, missions@.len() as int) =~= missions@);
        while m < missions.len()
            invariant
                m <= missions@.len(),
                character_target == character_awake_entries(
                    character@,
                    missions@.subrange(m as int, missions@.len() as int),
                    *context,
                    *counters,
                    stored@,
                    *catalog,
                    (awake_views(active@), any, all),
                ),
            decreases missions@.len() - m,
        {
            let ghost mrest = missions@.subrange(m as int, missions@.len() as int);
            assert(mrest.drop_first() =~= missions@.subrange(m + 1, missions@.len() as int));
            let mission = &missions[m];
            let own = mission_character_id(mission.id);
            if str_eq(own.as_str(), character) {
                let database_progress = stored_progress(stored, 9, mission.id);
                let progress = compute_progress(9, mission, context, counters, database_progress, catalog);
                let flags = mission_stage_flags(mission, progress);
                let mut every = true;
                let mut k: usize = 0;
                while k < flags.len()
                    invariant
                        k <= flags@.len(),
                        every == (forall|j: int| 0 <= j < k ==> #[trigger] flags@[j].1),
                    decreases flags@.len() - k,
                {
                    if !flags[k].1 {
                        every = false;
                    }
                    k = k + 1;
                }
                let ghost before = awake_views(active@);
                let ghost flagsv = flags@;
                active.push(AwakeMissionEntry { mission_id: mission.id, progress, stages: flags });
                assert(awake_views(active@) =~= before.push((mission.id, progress, flagsv)));
                any = true;
                all = all && every;
            }
            m = m + 1;
        }
        if any && all {
            let ghost before = crate::party::key_views(awakened@);
            awakened.push(owned[c].clone());
            assert(crate::party::key_views(awakened@) =~= before.push(character@));
        }
        c = c + 1;
    }
    assert(ownedv.subrange(c as int, ownedv.len() as int).len() == 0);
    AwakeSummary { active_missions: active, awakened }
}

} // verus!
