use starpoint_service::gacha::movie::{
    draw_movie_id, movie_pool, movie_seed, rarity_key, rolls_for_guarantee_movie, seed_at_draw,
    u64_from_le_bytes, MoviePool,
};

#[test]
fn movie_ids_map_to_their_seed_pools() {
    assert_eq!(movie_pool("normal"), MoviePool::Normal);
    assert_eq!(movie_pool("fes"), MoviePool::Fes);
    assert_eq!(movie_pool("normal_guarantee"), MoviePool::NormalGuarantee);
    assert_eq!(movie_pool("fes_guarantee"), MoviePool::FesGuarantee);
    assert_eq!(movie_pool("rarity_5_guarantee"), MoviePool::Fallback);
    assert_eq!(movie_pool(""), MoviePool::Fallback);
}

#[test]
fn rarity_keys_count_down_from_the_top_rarity() {
    assert_eq!(rarity_key(5), "1");
    assert_eq!(rarity_key(1), "5");
    assert_eq!(rarity_key(4), "2");
}

#[test]
fn only_high_rarities_roll_for_the_guarantee_movie() {
    assert!(rolls_for_guarantee_movie(4));
    assert!(rolls_for_guarantee_movie(5));
    assert!(!rolls_for_guarantee_movie(3));
    assert!(!rolls_for_guarantee_movie(1));
}

#[test]
fn drawn_movie_follows_rarity_roll_and_gacha_names() {
    assert_eq!(draw_movie_id(5, true, Some("fes"), None), "normal_guarantee");
    assert_eq!(draw_movie_id(5, true, Some("fes"), Some("fes_guarantee")), "fes_guarantee");
    assert_eq!(draw_movie_id(3, true, Some("fes"), Some("fes_guarantee")), "fes");
    assert_eq!(draw_movie_id(4, false, None, Some("fes_guarantee")), "normal");
    assert_eq!(draw_movie_id(2, false, Some("fes"), None), "fes");
}

#[test]
fn eight_bytes_read_little_endian() {
    assert_eq!(u64_from_le_bytes(&[1, 0, 0, 0, 0, 0, 0, 0]), 1);
    assert_eq!(u64_from_le_bytes(&[0, 1, 0, 0, 0, 0, 0, 0]), 256);
    assert_eq!(u64_from_le_bytes(&[0, 0, 0, 0, 0, 0, 0, 1]), 1 << 56);
    assert_eq!(u64_from_le_bytes(&[0x78, 0x56, 0x34, 0x12, 0, 0, 0, 0]), 0x1234_5678);
    assert_eq!(u64_from_le_bytes(&[0xff; 8]), u64::MAX);
}

#[test]
fn a_draw_picks_the_pool_entry_at_its_remainder() {
    let seeds = vec![Some(10), None, Some(30)];
    assert_eq!(seed_at_draw(&seeds, 5).ok(), Some(30));
    assert_eq!(seed_at_draw(&seeds, 3).ok(), Some(10));
    let err = seed_at_draw(&seeds, 4).err().unwrap();
    assert_eq!(err.message, "CN gacha movie seed is invalid");
}

#[test]
fn guarantee_movie_and_empty_pools_use_the_character_seed() {
    assert_eq!(movie_seed(7, "rarity_5_guarantee", &vec![Some(1)]).ok(), Some(7000));
    assert_eq!(movie_seed(7, "normal", &vec![]).ok(), Some(7000));
    assert_eq!(movie_seed(-3, "fes", &vec![]).ok(), Some(-3000));
}

#[test]
fn a_pool_of_one_always_gives_its_seed() {
    assert_eq!(movie_seed(7, "normal", &vec![Some(42)]).ok(), Some(42));
    let seeds = vec![Some(11), Some(12)];
    let seed = movie_seed(7, "fes", &seeds).ok().unwrap();
    assert!(seed == 11 || seed == 12);
}
