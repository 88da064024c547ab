use starpoint_service::expod::{
    bulk_stack_to_exp, inject_exp, inject_exp_amount, stack_to_exp, BulkCandidate, ExpRefusal,
    character_exp_cap, character_experience_for_level, character_level_cap,
    character_level_from_experience, interpolate_character_experience, route, stack_conversion,
    error_response, ExpodEndpoint,
};

#[test]
fn character_level_uses_cumulative_experience_thresholds() {
    assert_eq!(character_level_from_experience(4, 0, 0), Some(1));
    assert_eq!(character_level_from_experience(3, 11_415, 0), Some(39));
    assert_eq!(character_level_from_experience(3, 11_416, 0), Some(40));
    assert_eq!(character_level_from_experience(4, 76_271, 0), Some(69));
    assert_eq!(character_level_from_experience(4, 76_272, 0), Some(70));
    assert_eq!(character_level_from_experience(4, i64::MAX, 0), Some(70));
    assert_eq!(character_level_from_experience(4, 102_828, 1), Some(74));
    assert_eq!(character_level_from_experience(4, 102_829, 1), Some(75));
    assert_eq!(character_level_from_experience(5, 153_987, 0), Some(79));
    assert_eq!(character_level_from_experience(5, 153_988, 0), Some(80));
    assert_eq!(character_level_from_experience(5, 379_988, 4), Some(100));
    assert_eq!(character_level_from_experience(0, 100, 0), None);
}

#[test]
fn character_progression_clamps_stored_over_limit_step() {
    assert_eq!(character_exp_cap(4, -1), Some(76_272));
    assert_eq!(character_exp_cap(4, 100), Some(342_410));
    assert_eq!(character_level_from_experience(4, 342_410, 100), Some(100));
}

#[test]
fn level_caps_grow_five_levels_per_step() {
    assert_eq!(character_level_cap(1, 0), Some(40));
    assert_eq!(character_level_cap(1, 12), Some(100));
    assert_eq!(character_level_cap(3, 3), Some(75));
    assert_eq!(character_level_cap(6, 0), None);
    assert_eq!(character_exp_cap(0, 0), None);
}

#[test]
fn experience_for_level_follows_the_cap_of_each_step() {
    assert_eq!(character_experience_for_level(1, 1), Some(0));
    assert_eq!(character_experience_for_level(2, 100), Some(308_043));
    assert_eq!(character_experience_for_level(4, 70), Some(76_272));
    assert_eq!(character_experience_for_level(4, 75), Some(102_829));
    assert_eq!(character_experience_for_level(5, 100), Some(379_988));
    assert_eq!(character_experience_for_level(4, 0), None);
    assert_eq!(character_experience_for_level(4, 101), None);
    assert_eq!(character_experience_for_level(0, 10), None);
}

#[test]
fn interpolation_rounds_toward_zero() {
    assert_eq!(interpolate_character_experience(5, 0, 10, 0, 3), Some(1));
    assert_eq!(interpolate_character_experience(-5, 0, 10, 0, 3), Some(-1));
    assert_eq!(interpolate_character_experience(5, 10, 0, 0, 3), Some(1));
    assert_eq!(interpolate_character_experience(i64::MAX, -1, 0, 0, 1), None);
}

#[test]
fn duplicates_convert_by_rarity() {
    assert_eq!(stack_conversion(1).ok(), Some((500, 2)));
    assert_eq!(stack_conversion(3).ok(), Some((500, 2)));
    assert_eq!(stack_conversion(4).ok(), Some((2_000, 10)));
    assert_eq!(stack_conversion(5).ok(), Some((10_000, 30)));
    assert!(stack_conversion(6).is_err());
}

#[test]
fn expod_routes_only_its_post_paths() {
    assert_eq!(route("POST", "/api/index.php/expod/stack_to_exp"), Some(ExpodEndpoint::StackToExp));
    assert_eq!(
        route("POST", "/api/index.php/expod/bulk_stack_to_exp"),
        Some(ExpodEndpoint::BulkStackToExp)
    );
    assert_eq!(route("POST", "/api/index.php/expod/inject_exp"), Some(ExpodEndpoint::InjectExp));
    assert_eq!(route("GET", "/api/index.php/expod/inject_exp"), None);
    assert_eq!(route("POST", "/api/index.php/expod/other"), None);
}

#[test]
fn error_answer_is_a_json_object() {
    let response = error_response("400 Bad Request", "not_enough_exp");
    assert_eq!(response.status, "400 Bad Request");
    assert_eq!(response.body, "{\"error\":\"not_enough_exp\"}");
}

#[test]
fn duplicates_convert_into_pooled_experience() {
    let plan = stack_to_exp(4, 5, 2, 100, 7).unwrap();
    assert_eq!(
        (plan.after_stack, plan.increase_exp, plan.after_exp_pool, plan.after_items),
        (3, 4_000, 4_100, 27)
    );
    assert_eq!(stack_to_exp(4, 1, 2, 0, 0).err(), Some(ExpRefusal::NotEnoughStack));
    assert_eq!(stack_to_exp(9, 5, 2, 0, 0).err(), Some(ExpRefusal::RarityInvalid));
    assert_eq!(stack_to_exp(5, 5, 2, i64::MAX, 0).err(), Some(ExpRefusal::PoolRange));
    assert_eq!(stack_to_exp(5, i64::MIN, 1, 0, 0).err(), Some(ExpRefusal::StackRange));
}

#[test]
fn bulk_conversion_takes_fully_over_limited_characters() {
    let c = |character_id, stack, over_limit_step, rarity| BulkCandidate {
        character_id,
        stack,
        over_limit_step,
        rarity,
    };
    let plan = bulk_stack_to_exp(
        &vec![
            c(1, 2, 4, Some(5)),
            c(2, 3, 3, Some(5)),
            c(3, 1, 12, Some(1)),
            c(4, 0, 12, Some(1)),
            c(5, 9, 99, None),
        ],
        10,
        1,
    )
    .ok()
    .unwrap();
    assert_eq!(plan.converted, vec![1, 3]);
    assert_eq!((plan.total_exp, plan.total_items), (20_500, 62));
    assert_eq!((plan.new_exp_pool, plan.new_items), (20_510, 63));
    assert_eq!(
        bulk_stack_to_exp(&vec![c(1, 1, 0, Some(0))], 0, 0).err(),
        Some(ExpRefusal::RarityInvalid)
    );
}

#[test]
fn injected_experience_stops_at_the_cap() {
    assert_eq!(inject_exp_amount(-30), Ok(30));
    assert_eq!(inject_exp_amount(i64::MIN), Err(ExpRefusal::InvalidExp));
    let plan = inject_exp(100, 500, 950, 1_000).unwrap();
    assert_eq!(
        (plan.after_exp, plan.overflow_exp, plan.after_exp_pool, plan.gained),
        (1_000, 50, 450, 50)
    );
    assert_eq!(plan.after_exp + plan.after_exp_pool, 950 + 500);
    let plan = inject_exp(100, 500, 0, 1_000).unwrap();
    assert_eq!((plan.after_exp, plan.overflow_exp, plan.after_exp_pool), (100, 0, 400));
    assert_eq!(inject_exp(600, 500, 0, 1_000).err(), Some(ExpRefusal::NotEnoughExp));
}

#[test]
fn experience_never_falls_and_each_cap_level_needs_its_cap() {
    for rarity in 1..=5 {
        assert_eq!(character_experience_for_level(rarity, 1), Some(0));
        assert_eq!(character_experience_for_level(rarity, 0), None);
        assert_eq!(character_experience_for_level(rarity, 101), None);
        for level in 1..100 {
            let here = character_experience_for_level(rarity, level).unwrap();
            let next = character_experience_for_level(rarity, level + 1).unwrap();
            assert!(here <= next, "rarity {rarity} level {level}");
        }
        for step in 0..20 {
            let cap = character_level_cap(rarity, step).unwrap();
            assert_eq!(character_experience_for_level(rarity, cap), character_exp_cap(rarity, step));
        }
    }
    assert_eq!(character_experience_for_level(0, 10), None);
    assert_eq!(character_experience_for_level(6, 10), None);
    assert_eq!(character_experience_for_level(4, 70), Some(76_272));
    assert_eq!(character_experience_for_level(4, 75), Some(102_829));
    assert_eq!(character_experience_for_level(5, 100), Some(379_988));
}

#[test]
fn unknown_rarity_has_no_conversion() {
    for rarity in [0, 6, -1] {
        assert_eq!(stack_conversion(rarity).unwrap_err().message, "CN character rarity is invalid");
    }
    assert_eq!(stack_conversion(2).unwrap(), (500, 2));
}
