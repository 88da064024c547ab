//! The profile a player shows: which counts it shows and which character
//! leads it.
use vstd::prelude::*;

use crate::text::{decimal, decimal_string, parse_i64, spec_parse_i64, str_eq};

verus! {

/// The endpoints of the profile service.
#[derive(Clone, Copy, Debug, PartialEq, Eq, Structural)]
pub enum ProfileEndpoint {
    GetMyProfile,
    GetProfile,
    UpdateDegree,
    UpdateProfileSettings,
    UpdateComment,
    Rename,
}

/// The endpoint a request names, where it is one of the profile service.
pub open spec fn spec_route(method: Seq<char>, path: Seq<char>) -> Option<ProfileEndpoint> {
    if method != "POST"@ {
        None
    } else if path == "/api/index.php/profile/get_my_profile"@ {
        Some(ProfileEndpoint::GetMyProfile)
    } else if path == "/api/index.php/profile/get_profile"@ {
        Some(ProfileEndpoint::GetProfile)
    } else if path == "/api/index.php/profile/update_degree"@ {
        Some(ProfileEndpoint::UpdateDegree)
    } else if path == "/api/index.php/profile/update_profile_settings"@ {
        Some(ProfileEndpoint::UpdateProfileSettings)
    } else if path == "/api/index.php/profile/update_comment"@ {
        Some(ProfileEndpoint::UpdateComment)
    } else if path == "/api/index.php/profile/rename"@ {
        Some(ProfileEndpoint::Rename)
    } else {
        None
    }
}

/// The endpoint a request names, where it is one of the profile service.
pub fn route(method: &str, path: &str) -> (r: Option<ProfileEndpoint>)
    ensures
        r == spec_route(method@, path@),
{
    if !str_eq(method, "POST") {
        None
    } else if str_eq(path, "/api/index.php/profile/get_my_profile") {
        Some(ProfileEndpoint::GetMyProfile)
    } else if str_eq(path, "/api/index.php/profile/get_profile") {
        Some(ProfileEndpoint::GetProfile)
    } else if str_eq(path, "/api/index.php/profile/update_degree") {
        Some(ProfileEndpoint::UpdateDegree)
    } else if str_eq(path, "/api/index.php/profile/update_profile_settings") {
        Some(ProfileEndpoint::UpdateProfileSettings)
    } else if str_eq(path, "/api/index.php/profile/update_comment") {
        Some(ProfileEndpoint::UpdateComment)
    } else if str_eq(path, "/api/index.php/profile/rename") {
        Some(ProfileEndpoint::Rename)
    } else {
        None
    }
}

/// Which counts a profile shows.
#[derive(Clone, Copy, Debug, PartialEq, Eq, Structural)]
pub struct ProfileSettings {
    pub show_opened_mana_board_second_count: bool,
    pub show_owned_character_count: bool,
    pub show_owned_degree_count: bool,
}

/// Stored profile settings, each where it is a boolean.
#[derive(Clone, Copy, Debug, PartialEq, Eq, Structural)]
pub struct StoredProfileSettings {
    pub show_opened_mana_board_second_count: Option<bool>,
    pub show_owned_character_count: Option<bool>,
    pub show_owned_degree_count: Option<bool>,
}

/// The settings a profile shows: the stored ones, where a setting is
/// stored; the second-board count hidden and the owned counts shown
/// otherwise.
pub fn shown_profile_settings(stored: Option<StoredProfileSettings>) -> (r: ProfileSettings)
    ensures
        r == (match stored {
            Some(s) => ProfileSettings {
                show_opened_mana_board_second_count: match s.show_opened_mana_board_second_count {
                    Some(b) => b,
                    None => false,
                },
                show_owned_character_count: match s.show_owned_character_count {
                    Some(b) => b,
                    None => true,
                },
                show_owned_degree_count: match s.show_owned_degree_count {
                    Some(b) => b,
                    None => true,
                },
            },
            None => ProfileSettings {
                show_opened_mana_board_second_count: false,
                show_owned_character_count: true,
                show_owned_degree_count: true,
            },
        }),
{
    match stored {
        Some(s) => ProfileSettings {
            show_opened_mana_board_second_count: match s.show_opened_mana_board_second_count {
                Some(b) => b,
                None => false,
            },
            show_owned_character_count: match s.show_owned_character_count {
                Some(b) => b,
                None => true,
            },
            show_owned_degree_count: match s.show_owned_degree_count {
                Some(b) => b,
                None => true,
            },
        },
        None => ProfileSettings {
            show_opened_mana_board_second_count: false,
            show_owned_character_count: true,
            show_owned_degree_count: true,
        },
    }
}

/// The settings a player saves: those sent, and all off where none are
/// sent.
pub fn saved_profile_settings(sent: Option<ProfileSettings>) -> (r: ProfileSettings)
    ensures
        r == (match sent {
            Some(s) => s,
            None => ProfileSettings {
                show_opened_mana_board_second_count: false,
                show_owned_character_count: false,
                show_owned_degree_count: false,
            },
        }),
{
    match sent {
        Some(s) => s,
        None => ProfileSettings {
            show_opened_mana_board_second_count: false,
            show_owned_character_count: false,
            show_owned_degree_count: false,
        },
    }
}

/// The smallest of the keys that are integers.
pub open spec fn min_parsed(keys: Seq<Seq<char>>) -> Option<i64>
    decreases keys.len(),
{
    if keys.len() == 0 {
        None
    } else {
        let rest = min_parsed(keys.drop_last());
        match spec_parse_i64(keys.last()) {
            None => rest,
            Some(v) => match rest {
                Some(m) => Some(
                    if v < m {
                        v
                    } else {
                        m
                    },
                ),
                None => Some(v),
            },
        }
    }
}

/// The character a profile shows as favorite: the configured leader where
/// the player owns it, else the owned character of the smallest id (keys
/// that are no integer are passed over).
pub open spec fn spec_profile_leader(configured: Option<i64>, keys: Seq<Seq<char>>) -> Option<i64> {
    if configured is Some && keys.contains(decimal(configured->0 as int)) {
        configured
    } else {
        min_parsed(keys)
    }
}

/// The character a profile shows as favorite.
pub fn profile_leader_id(configured: Option<i64>, character_keys: &Vec<String>) -> (r: Option<i64>)
    ensures
        r == spec_profile_leader(configured, crate::party::key_views(character_keys@)),
{
    let ghost keys = crate::party::key_views(character_keys@);
    if let Some(leader) = configured {
        let key = decimal_string(leader);
        let mut i: usize = 0;
        while i < character_keys.len()
            invariant
                i <= character_keys@.len(),
                keys == crate::party::key_views(character_keys@),
                configured == Some(leader),
                key@ == decimal(leader as int),
                forall|j: int| 0 <= j < i ==> keys[j] != key@,
            decreases character_keys@.len() - i,
        {
            if str_eq(character_keys[i].as_str(), key.as_str()) {
                assert(keys[i as int] == key@);
                return Some(leader);
            }
            i = i + 1;
        }
        proof {
            if keys.contains(key@) {
                let j = choose|j: int| 0 <= j < keys.len() && keys[j] == key@;
                assert(false);
            }
        }
    }
    let mut smallest: Option<i64> = None;
    let mut i: usize = 0;
    assert(keys.subrange(0, 0) =~= Seq::<Seq<char>>::empty());
    while i < character_keys.len()
        invariant
            i <= character_keys@.len(),
            keys == crate::party::key_views(character_keys@),
            !(configured is Some && keys.contains(decimal(configured->0 as int))),
            smallest == min_parsed(keys.subrange(0, i as int)),
        decreases character_keys@.len() - i,
    {
        assert(keys.subrange(0, i + 1).drop_last() =~= keys.subrange(0, i as int));
        assert(keys.subrange(0, i + 1).last() == character_keys@[i as int]@);
        match parse_i64(character_keys[i].as_str()) {
            None => {},
            Some(v) => {
                smallest = match smallest {
                    Some(m) => Some(
                        if v < m {
                            v
                        } else {
                            m
                        },
                    ),
                    None => Some(v),
                };
            },
        }
        i = i + 1;
    }
    assert(keys.subrange(0, keys.len() as int) =~= keys);
    smallest
}

} // verus!
