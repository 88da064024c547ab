//! Mail rules: the request paths of the mail and management endpoints, the
//! reward catalog keys, the kind a mail shows for its rewards, and the
//! validation of claim requests.
use vstd::prelude::*;

use crate::counts::{contains_text, value_or, Counts};
use crate::error::ServiceError;
use crate::http::{error_body, json_error, JsonResponse};
use crate::text::{
    all_digits, contains_char, has_prefix, has_suffix, is_control, is_control_char, parse_i64,
    spec_parse_i64, starts_with, str_eq, strip_prefix, strip_suffix, lex_lt, trim, trimmed,
};

verus! {

/// What a request to the management interface asks for.
#[derive(Debug, PartialEq, Eq)]
pub enum ManagementAction {
    Unauthorized,
    RewardCatalog,
    RewardFavorite(String),
    LocalSaveMails(String),
    CreateMail,
    ListMails(String),
    MethodNotAllowed,
    RewardNotFound,
}

/// The slot id of a `/v1/local-saves/<slot>/mails` path.
pub open spec fn spec_local_save_mail_slot_id(path: Seq<char>) -> Option<Seq<char>> {
    let prefix = "/v1/local-saves/"@;
    let suffix = "/mails"@;
    if has_prefix(path, prefix) {
        let rest = path.subrange(prefix.len() as int, path.len() as int);
        if has_suffix(rest, suffix) {
            let slot = rest.subrange(0, rest.len() - suffix.len());
            if slot.contains('/') {
                None
            } else {
                Some(slot)
            }
        } else {
            None
        }
    } else {
        None
    }
}

/// The slot id of a local-save mail path: the one segment between
/// `/v1/local-saves/` and `/mails`.
pub fn local_save_mail_slot_id(path: &str) -> (r: Option<&str>)
    ensures
        match r {
            Some(slot) => spec_local_save_mail_slot_id(path@) == Some(slot@),
            None => spec_local_save_mail_slot_id(path@) is None,
        },
{
    let rest = strip_prefix(path, "/v1/local-saves/")?;
    let slot = strip_suffix(rest, "/mails")?;
    if contains_char(slot, '/') {
        None
    } else {
        Some(slot)
    }
}

/// The reward key of a `/v1/mail-rewards/catalog/<key>/favorite` path.
pub open spec fn spec_reward_favorite_key(path: Seq<char>) -> Option<Seq<char>> {
    let prefix = "/v1/mail-rewards/catalog/"@;
    let suffix = "/favorite"@;
    if has_prefix(path, prefix) {
        let rest = path.subrange(prefix.len() as int, path.len() as int);
        if has_suffix(rest, suffix) {
            let key = rest.subrange(0, rest.len() - suffix.len());
            if key.len() == 0 || key.contains('/') {
                None
            } else {
                Some(key)
            }
        } else {
            None
        }
    } else {
        None
    }
}

/// The reward key that a favorite path names: one non-empty segment.
pub fn reward_favorite_key(path: &str) -> (r: Option<&str>)
    ensures
        match r {
            Some(key) => spec_reward_favorite_key(path@) == Some(key@),
            None => spec_reward_favorite_key(path@) is None,
        },
{
    let suffix = strip_prefix(path, "/v1/mail-rewards/catalog/")?;
    let reward_key = strip_suffix(suffix, "/favorite")?;
    if reward_key.unicode_len() == 0 || contains_char(reward_key, '/') {
        None
    } else {
        Some(reward_key)
    }
}

/// What the management interface does with a request, given whether the
/// request is authorized; `None` where the path is not one of its paths.
pub open spec fn spec_management_route(method: Seq<char>, path: Seq<char>, authorized: bool) -> Option<
    ManagementAction,
> {
    let slot = spec_local_save_mail_slot_id(path);
    if slot is None && !has_prefix(path, "/v1/mails"@) && !has_prefix(path, "/v1/mail-rewards/"@) {
        None
    } else if !authorized {
        Some(ManagementAction::Unauthorized)
    } else {
        Some(
            if path == "/v1/mail-rewards/catalog"@ {
                ManagementAction::RewardCatalog
            } else if spec_reward_favorite_key(path) is Some {
                ManagementAction::RewardFavorite(arbitrary())
            } else if slot is Some {
                ManagementAction::LocalSaveMails(arbitrary())
            } else if path == "/v1/mails"@ && method == "POST"@ {
                ManagementAction::CreateMail
            } else if has_prefix(path, "/v1/mails/"@) {
                if method != "GET"@ {
                    ManagementAction::MethodNotAllowed
                } else {
                    ManagementAction::ListMails(arbitrary())
                }
            } else if has_prefix(path, "/v1/mail-rewards/"@) {
                ManagementAction::RewardNotFound
            } else {
                ManagementAction::MethodNotAllowed
            },
        )
    }
}

/// Whether two actions are of the same kind and carry the same text.
pub open spec fn same_action(a: ManagementAction, b: ManagementAction) -> bool {
    match (a, b) {
        (ManagementAction::RewardFavorite(_), ManagementAction::RewardFavorite(_)) => true,
        (ManagementAction::LocalSaveMails(_), ManagementAction::LocalSaveMails(_)) => true,
        (ManagementAction::ListMails(_), ManagementAction::ListMails(_)) => true,
        _ => a == b,
    }
}

/// Dispatches a request to the management interface.
pub fn management_route(method: &str, path: &str, authorized: bool) -> (r: Option<ManagementAction>)
    ensures
        match (r, spec_management_route(method@, path@, authorized)) {
            (Some(action), Some(expected)) => same_action(action, expected) && match action {
                ManagementAction::RewardFavorite(key) => spec_reward_favorite_key(path@) == Some(
                    key@,
                ),
                ManagementAction::LocalSaveMails(slot) => spec_local_save_mail_slot_id(path@)
                    == Some(slot@),
                ManagementAction::ListMails(viewer) => has_prefix(path@, "/v1/mails/"@) && viewer@
                    == path@.subrange(10, path@.len() as int),
                _ => true,
            },
            (None, None) => true,
            _ => false,
        },
{
    let local_save_slot_id = local_save_mail_slot_id(path);
    if local_save_slot_id.is_none() && !starts_with(path, "/v1/mails") && !starts_with(
        path,
        "/v1/mail-rewards/",
    ) {
        return None;
    }
    if !authorized {
        return Some(ManagementAction::Unauthorized);
    }
    let action = if str_eq(path, "/v1/mail-rewards/catalog") {
        ManagementAction::RewardCatalog
    } else if let Some(reward_key) = reward_favorite_key(path) {
        ManagementAction::RewardFavorite(reward_key.to_owned())
    } else if let Some(slot_id) = local_save_slot_id {
        ManagementAction::LocalSaveMails(slot_id.to_owned())
    } else if str_eq(path, "/v1/mails") && str_eq(method, "POST") {
        ManagementAction::CreateMail
    } else if let Some(viewer_id) = strip_prefix(path, "/v1/mails/") {
        proof {
            reveal_strlit("/v1/mails/");
        }
        if !str_eq(method, "GET") {
            ManagementAction::MethodNotAllowed
        } else {
            ManagementAction::ListMails(viewer_id.to_owned())
        }
    } else if starts_with(path, "/v1/mail-rewards/") {
        ManagementAction::RewardNotFound
    } else {
        ManagementAction::MethodNotAllowed
    };
    Some(action)
}

/// The display name of a reward kind (`其他` for an unknown kind).
pub open spec fn spec_reward_kind_name(kind: Seq<char>) -> Seq<char> {
    if kind == "currency"@ {
        "货币"@
    } else if kind == "ticket"@ {
        "抽卡券"@
    } else if kind == "growth"@ {
        "通用养成"@
    } else if kind == "stamina"@ {
        "体力"@
    } else if kind == "event"@ {
        "活动素材"@
    } else if kind == "ability-soul"@ {
        "能力之魂"@
    } else if kind == "character-growth"@ {
        "角色养成"@
    } else if kind == "equipment-growth"@ {
        "装备养成"@
    } else if kind == "exchange"@ {
        "兑换素材"@
    } else if kind == "craft"@ {
        "锻造"@
    } else if kind == "quest"@ {
        "任务素材"@
    } else if kind == "star-grain"@ {
        "星之粒"@
    } else {
        "其他"@
    }
}

/// The display name of a reward kind.
pub fn reward_kind_name(kind: &str) -> (r: &'static str)
    ensures
        r@ == spec_reward_kind_name(kind@),
{
    if str_eq(kind, "currency") {
        "货币"
    } else if str_eq(kind, "ticket") {
        "抽卡券"
    } else if str_eq(kind, "growth") {
        "通用养成"
    } else if str_eq(kind, "stamina") {
        "体力"
    } else if str_eq(kind, "event") {
        "活动素材"
    } else if str_eq(kind, "ability-soul") {
        "能力之魂"
    } else if str_eq(kind, "character-growth") {
        "角色养成"
    } else if str_eq(kind, "equipment-growth") {
        "装备养成"
    } else if str_eq(kind, "exchange") {
        "兑换素材"
    } else if str_eq(kind, "craft") {
        "锻造"
    } else if str_eq(kind, "quest") {
        "任务素材"
    } else if str_eq(kind, "star-grain") {
        "星之粒"
    } else {
        "其他"
    }
}

/// What a reward of the built-in catalog grants.
#[derive(Clone, Copy, Debug, PartialEq, Eq)]
pub enum CatalogReward {
    FreeVmoney,
    FreeMana,
    ExpPool,
    StarCrumb,
    BondToken,
    BossBoostPoint,
    BoostPoint,
    RankPoint,
    Item(&'static str),
}

/// The item id a catalog reward grants, where it is an item.
pub fn catalog_reward_resource_id(reward: CatalogReward) -> (r: Option<&'static str>)
    ensures
        match reward {
            CatalogReward::Item(id) => r == Some(id),
            _ => r is None,
        },
{
    match reward {
        CatalogReward::Item(item_id) => Some(item_id),
        CatalogReward::FreeVmoney | CatalogReward::FreeMana | CatalogReward::ExpPool
        | CatalogReward::StarCrumb | CatalogReward::BondToken | CatalogReward::BossBoostPoint
        | CatalogReward::BoostPoint | CatalogReward::RankPoint => None,
    }
}

/// The keys of the built-in reward catalog.
pub open spec fn is_builtin_reward_key(key: Seq<char>) -> bool {
    ||| key == "currency.free-vmoney"@
    ||| key == "currency.free-mana"@
    ||| key == "currency.star-crumb"@
    ||| key == "growth.exp-pool"@
    ||| key == "growth.bond-token"@
    ||| key == "growth.boss-boost-point"@
    ||| key == "growth.boost-point"@
    ||| key == "growth.rank-point"@
    ||| key == "stamina.recovery.tiny"@
    ||| key == "stamina.recovery.small"@
    ||| key == "stamina.recovery.medium"@
    ||| key == "stamina.recovery.large"@
    ||| key == "ticket.character.single"@
    ||| key == "ticket.character.multi"@
    ||| key == "ticket.weapon.single"@
    ||| key == "ticket.weapon.multi"@
}

/// The item ids that the built-in catalog already offers.
pub open spec fn is_static_item_id(id: Seq<char>) -> bool {
    ||| id == "100"@
    ||| id == "101"@
    ||| id == "102"@
    ||| id == "106"@
    ||| id == "999001"@
    ||| id == "999003"@
    ||| id == "999004"@
    ||| id == "999005"@
}

/// Whether a key names a reward: a built-in one, or `item.<id>` for an
/// item of the item catalog that the built-in catalog does not offer.
pub open spec fn spec_reward_catalog_contains(key: Seq<char>, item_ids: Seq<String>) -> bool {
    if is_builtin_reward_key(key) {
        true
    } else if has_prefix(key, "item."@) {
        let id = key.subrange(5, key.len() as int);
        !is_static_item_id(id) && exists|i: int| 0 <= i < item_ids.len() && item_ids[i]@ == id
    } else {
        false
    }
}

/// Whether a reward key is in the catalog; `item_ids` are the ids of the
/// item catalog.
pub fn reward_catalog_contains(key: &str, item_ids: &Vec<String>) -> (r: bool)
    ensures
        r == spec_reward_catalog_contains(key@, item_ids@),
{
    if str_eq(key, "currency.free-vmoney") || str_eq(key, "currency.free-mana") || str_eq(
        key,
        "currency.star-crumb",
    ) || str_eq(key, "growth.exp-pool") || str_eq(key, "growth.bond-token") || str_eq(
        key,
        "growth.boss-boost-point",
    ) || str_eq(key, "growth.boost-point") || str_eq(key, "growth.rank-point") || str_eq(
        key,
        "stamina.recovery.tiny",
    ) || str_eq(key, "stamina.recovery.small") || str_eq(key, "stamina.recovery.medium")
        || str_eq(key, "stamina.recovery.large") || str_eq(key, "ticket.character.single")
        || str_eq(key, "ticket.character.multi") || str_eq(key, "ticket.weapon.single") || str_eq(
        key,
        "ticket.weapon.multi",
    ) {
        return true;
    }
    let item_id = match strip_prefix(key, "item.") {
        Some(item_id) => item_id,
        None => return false,
    };
    proof {
        reveal_strlit("item.");
    }
    if str_eq(item_id, "100") || str_eq(item_id, "101") || str_eq(item_id, "102") || str_eq(
        item_id,
        "106",
    ) || str_eq(item_id, "999001") || str_eq(item_id, "999003") || str_eq(item_id, "999004")
        || str_eq(item_id, "999005") {
        return false;
    }
    contains_text(item_ids, item_id)
}

/// The icon path of a catalog reward.
pub fn reward_catalog_image_url(key: &str) -> (r: String)
    ensures
        r@ == "/manage/assets/item-icons/"@ + key@ + ".png"@,
{
    let mut url = String::from_str("/manage/assets/item-icons/");
    url.append(key);
    url.append(".png");
    url
}

/// The rewards of a mail. The item and equipment lists come from JSON
/// objects, whose keys are distinct and listed in ascending order; `wf`
/// states that order.
pub struct MailReward {
    pub item_list: Vec<(String, i64)>,
    pub equipment_list: Vec<(String, i64)>,
    pub character_list: Vec<i64>,
    pub free_vmoney: i64,
    pub vmoney: i64,
    pub free_mana: i64,
    pub paid_mana: i64,
    pub exp_pool: i64,
    pub star_crumb: i64,
    pub bond_token: i64,
    pub boss_boost_point: i64,
    pub boost_point: i64,
    pub rank_point: i64,
}

/// Keys strictly ascending in the order of texts.
pub open spec fn keys_ascending(list: Seq<(String, i64)>) -> bool {
    forall|i: int, j: int| 0 <= i < j < list.len() ==> lex_lt(list[i].0@, list[j].0@)
}

impl MailReward {
    /// The item and equipment lists are in ascending key order, so their
    /// first entries are those with the least keys.
    pub open spec fn wf(&self) -> bool {
        keys_ascending(self.item_list@) && keys_ascending(self.equipment_list@)
    }
}

/// The kind, resource id and amount that a mail shows: its first item,
/// else its first equipment, else its characters, else the first positive
/// currency, else paid mana (at least 1).
pub open spec fn spec_resolve_mail_kind(rewards: &MailReward) -> (i64, Option<i64>, i64) {
    if rewards.item_list@.len() > 0 {
        (1, spec_parse_i64(rewards.item_list@[0].0@), rewards.item_list@[0].1)
    } else if rewards.equipment_list@.len() > 0 {
        (6, spec_parse_i64(rewards.equipment_list@[0].0@), rewards.equipment_list@[0].1)
    } else if rewards.character_list@.len() > 0 {
        (5, Some(rewards.character_list@[0]), rewards.character_list@.len() as i64)
    } else if rewards.free_vmoney > 0 {
        (4, None, rewards.free_vmoney)
    } else if rewards.vmoney > 0 {
        (3, None, rewards.vmoney)
    } else if rewards.free_mana > 0 {
        (8, None, rewards.free_mana)
    } else if rewards.exp_pool > 0 {
        (9, None, rewards.exp_pool)
    } else if rewards.star_crumb > 0 {
        (7, None, rewards.star_crumb)
    } else if rewards.bond_token > 0 {
        (10, None, rewards.bond_token)
    } else if rewards.boss_boost_point > 0 {
        (11, None, rewards.boss_boost_point)
    } else if rewards.boost_point > 0 {
        (12, None, rewards.boost_point)
    } else if rewards.rank_point > 0 {
        (15, None, rewards.rank_point)
    } else {
        (8, None, if rewards.paid_mana > 1 {
            rewards.paid_mana
        } else {
            1
        })
    }
}

/// A mail without items, equipment or characters shows its free vmoney as
/// type 4 where it has some; else its paid vmoney as type 3 where it has
/// some: the two currencies are never shown under the same type.
pub proof fn lemma_vmoney_mail_kinds(rewards: &MailReward)
    requires
        rewards.item_list@.len() == 0,
        rewards.equipment_list@.len() == 0,
        rewards.character_list@.len() == 0,
    ensures
        rewards.free_vmoney > 0 ==> spec_resolve_mail_kind(rewards) == (4i64, None::<i64>, rewards.free_vmoney),
        rewards.free_vmoney <= 0 && rewards.vmoney > 0 ==> spec_resolve_mail_kind(rewards) == (
            3i64,
            None::<i64>,
            rewards.vmoney,
        ),
{
}

/// A mail shows its items first (type 1, the first item and its amount),
/// else its equipment (type 6), else its characters (type 5, the first
/// character and how many); a mail of currencies alone shows the first of
/// them that it grants, each under its own type: free mana 8, pooled
/// experience 9, star crumbs 7, bond tokens 10, boss boost points 11, boost
/// points 12, rank points 15; and paid mana (at least 1) under type 8 where
/// it grants none of them.
pub proof fn lemma_mail_kind_per_reward(rewards: &MailReward)
    ensures
        rewards.item_list@.len() > 0 ==> spec_resolve_mail_kind(rewards).0 == 1
            && spec_resolve_mail_kind(rewards).2 == rewards.item_list@[0].1,
        rewards.item_list@.len() == 0 && rewards.equipment_list@.len() > 0 ==> spec_resolve_mail_kind(
            rewards,
        ).0 == 6 && spec_resolve_mail_kind(rewards).2 == rewards.equipment_list@[0].1,
        rewards.item_list@.len() == 0 && rewards.equipment_list@.len() == 0
            && rewards.character_list@.len() > 0 ==> spec_resolve_mail_kind(rewards) == (
            5i64,
            Some(rewards.character_list@[0]),
            rewards.character_list@.len() as i64,
        ),
        ({
            let no_lists = rewards.item_list@.len() == 0 && rewards.equipment_list@.len() == 0
                && rewards.character_list@.len() == 0;
            let no_vmoney = rewards.free_vmoney <= 0 && rewards.vmoney <= 0;
            let r = spec_resolve_mail_kind(rewards);
            &&& no_lists && no_vmoney && rewards.free_mana > 0 ==> r == (8i64, None::<i64>, rewards.free_mana)
            &&& no_lists && no_vmoney && rewards.free_mana <= 0 && rewards.exp_pool > 0 ==> r == (
                9i64,
                None::<i64>,
                rewards.exp_pool,
            )
            &&& no_lists && no_vmoney && rewards.free_mana <= 0 && rewards.exp_pool <= 0
                && rewards.star_crumb > 0 ==> r == (7i64, None::<i64>, rewards.star_crumb)
            &&& no_lists && no_vmoney && rewards.free_mana <= 0 && rewards.exp_pool <= 0
                && rewards.star_crumb <= 0 && rewards.bond_token > 0 ==> r == (
                10i64,
                None::<i64>,
                rewards.bond_token,
            )
            &&& no_lists && no_vmoney && rewards.free_mana <= 0 && rewards.exp_pool <= 0
                && rewards.star_crumb <= 0 && rewards.bond_token <= 0 && rewards.boss_boost_point
                > 0 ==> r == (11i64, None::<i64>, rewards.boss_boost_point)
            &&& no_lists && no_vmoney && rewards.free_mana <= 0 && rewards.exp_pool <= 0
                && rewards.star_crumb <= 0 && rewards.bond_token <= 0 && rewards.boss_boost_point
                <= 0 && rewards.boost_point > 0 ==> r == (12i64, None::<i64>, rewards.boost_point)
            &&& no_lists && no_vmoney && rewards.free_mana <= 0 && rewards.exp_pool <= 0
                && rewards.star_crumb <= 0 && rewards.bond_token <= 0 && rewards.boss_boost_point
                <= 0 && rewards.boost_point <= 0 && rewards.rank_point > 0 ==> r == (
                15i64,
                None::<i64>,
                rewards.rank_point,
            )
            &&& no_lists && no_vmoney && rewards.free_mana <= 0 && rewards.exp_pool <= 0
                && rewards.star_crumb <= 0 && rewards.bond_token <= 0 && rewards.boss_boost_point
                <= 0 && rewards.boost_point <= 0 && rewards.rank_point <= 0 ==> r.0 == 8 && r.1
                is None && r.2 >= 1 && r.2 >= rewards.paid_mana
        }),
{
}

/// The kind, resource id and amount a mail shows for its rewards.
pub fn resolve_mail_kind(rewards: &MailReward) -> (r: (i64, Option<i64>, i64))
    ensures
        r == spec_resolve_mail_kind(rewards),
        rewards.wf() && r.0 == 1 ==> forall|i: int|
            1 <= i < rewards.item_list@.len() ==> lex_lt(
                rewards.item_list@[0].0@,
                #[trigger] rewards.item_list@[i].0@,
            ),
        rewards.wf() && r.0 == 6 ==> forall|i: int|
            1 <= i < rewards.equipment_list@.len() ==> lex_lt(
                rewards.equipment_list@[0].0@,
                #[trigger] rewards.equipment_list@[i].0@,
            ),
{
    if rewards.item_list.len() > 0 {
        return (1, parse_i64(rewards.item_list[0].0.as_str()), rewards.item_list[0].1);
    }
    if rewards.equipment_list.len() > 0 {
        return (6, parse_i64(rewards.equipment_list[0].0.as_str()), rewards.equipment_list[0].1);
    }
    if rewards.character_list.len() > 0 {
        return (5, Some(rewards.character_list[0]), rewards.character_list.len() as i64);
    }
    if rewards.free_vmoney > 0 {
        return (4, None, rewards.free_vmoney);
    }
    if rewards.vmoney > 0 {
        return (3, None, rewards.vmoney);
    }
    if rewards.free_mana > 0 {
        return (8, None, rewards.free_mana);
    }
    if rewards.exp_pool > 0 {
        return (9, None, rewards.exp_pool);
    }
    if rewards.star_crumb > 0 {
        return (7, None, rewards.star_crumb);
    }
    if rewards.bond_token > 0 {
        return (10, None, rewards.bond_token);
    }
    if rewards.boss_boost_point > 0 {
        return (11, None, rewards.boss_boost_point);
    }
    if rewards.boost_point > 0 {
        return (12, None, rewards.boost_point);
    }
    if rewards.rank_point > 0 {
        return (15, None, rewards.rank_point);
    }
    (8, None, if rewards.paid_mana > 1 {
        rewards.paid_mana
    } else {
        1
    })
}

/// What the session store says of a viewer.
pub enum ViewerSessionPlayer<S> {
    Present(S),
    InvalidSession,
    MissingPlayer,
    MissingPlayerData(String),
}

/// The stored player of a viewer, where the session and the player exist.
pub fn player_snapshot<S>(lookup: ViewerSessionPlayer<S>) -> (r: Option<S>)
    ensures
        match lookup {
            ViewerSessionPlayer::Present(snapshot) => r == Some(snapshot),
            _ => r is None,
        },
{
    match lookup {
        ViewerSessionPlayer::Present(snapshot) => Some(snapshot),
        ViewerSessionPlayer::InvalidSession | ViewerSessionPlayer::MissingPlayer
        | ViewerSessionPlayer::MissingPlayerData(_) => None,
    }
}

/// Whether a text is a positive decimal id made of ASCII digits only.
pub open spec fn spec_is_positive_id(value: Seq<char>) -> bool {
    &&& value.len() > 0
    &&& all_digits(value)
    &&& spec_parse_i64(value) matches Some(v) && v > 0
}

/// Whether a text is a positive id.
pub fn is_positive_id(value: &str) -> (r: bool)
    ensures
        r == spec_is_positive_id(value@),
{
    let len = value.unicode_len();
    if len == 0 {
        return false;
    }
    let mut i: usize = 0;
    while i < len
        invariant
            len == value@.len(),
            i <= len,
            forall|j: int| 0 <= j < i ==> '0' <= #[trigger] value@[j] <= '9',
        decreases len - i,
    {
        let c = value.get_char(i);
        if c < '0' || c > '9' {
            return false;
        }
        i = i + 1;
    }
    match parse_i64(value) {
        Some(parsed) => parsed > 0,
        None => false,
    }
}

/// A scalar of a JSON request body.
pub enum JsonScalar {
    /// A number, with its value where it is an integer in the range of
    /// `i64`.
    Number(Option<i64>),
    Text(String),
    Other,
}

/// A positive integer given as a JSON number or as decimal text.
pub open spec fn spec_positive_integer(value: &JsonScalar) -> Option<i64> {
    match value {
        JsonScalar::Number(Some(n)) => if *n > 0 {
            Some(*n)
        } else {
            None
        },
        JsonScalar::Text(text) => match spec_parse_i64(text@) {
            Some(n) => if n > 0 {
                Some(n)
            } else {
                None
            },
            None => None,
        },
        _ => None,
    }
}

/// The positive integer a request field holds.
pub fn positive_integer(value: &JsonScalar) -> (r: Option<i64>)
    ensures
        r == spec_positive_integer(value),
{
    match value {
        JsonScalar::Number(Some(n)) => if *n > 0 {
            Some(*n)
        } else {
            None
        },
        JsonScalar::Number(None) => None,
        JsonScalar::Text(text) => match parse_i64(text.as_str()) {
            Some(n) => if n > 0 {
                Some(n)
            } else {
                None
            },
            None => None,
        },
        JsonScalar::Other => None,
    }
}

/// A request to claim one mail.
pub struct ReceiveRequest {
    pub viewer_id: JsonScalar,
    pub mail_id: JsonScalar,
}

/// A request to claim many mails (all unclaimed ones where no ids are
/// given).
pub struct ReceiveAllRequest {
    pub viewer_id: JsonScalar,
    pub mail_ids: Option<Vec<JsonScalar>>,
}

/// A validated claim: the viewer, the mails (all where `None`) and whether
/// it came from the claim-all endpoint.
pub struct MailClaim {
    pub viewer_id: i64,
    pub mail_ids: Option<Vec<i64>>,
    pub receive_all: bool,
}

/// Validates a single claim.
pub fn receive(body: &ReceiveRequest) -> (r: Result<MailClaim, JsonResponse>)
    ensures
        match r {
            Ok(claim) => {
                &&& spec_positive_integer(&body.viewer_id) == Some(claim.viewer_id)
                &&& !claim.receive_all
                &&& spec_positive_integer(&body.mail_id) is Some
                &&& claim.mail_ids matches Some(ids) && ids@ == seq![
                    spec_positive_integer(&body.mail_id)->0,
                ]
            },
            Err(response) => response.status@ == "400 Bad Request"@ && if spec_positive_integer(
                &body.viewer_id,
            ) is None {
                response.body@ == error_body("invalid_viewer_id"@)
            } else {
                spec_positive_integer(&body.mail_id) is None && response.body@ == error_body(
                    "invalid_mail_id"@,
                )
            },
        },
{
    let viewer_id = match positive_integer(&body.viewer_id) {
        Some(viewer_id) => viewer_id,
        None => return Err(error_response("400 Bad Request", "invalid_viewer_id")),
    };
    let mail_id = match positive_integer(&body.mail_id) {
        Some(mail_id) => mail_id,
        None => return Err(error_response("400 Bad Request", "invalid_mail_id")),
    };
    let ids = vec![mail_id];
    assert(ids@ =~= seq![mail_id]);
    Ok(MailClaim { viewer_id, mail_ids: Some(ids), receive_all: false })
}

/// Whether every id is a positive integer.
pub open spec fn all_positive(values: Seq<JsonScalar>) -> bool {
    forall|i: int| 0 <= i < values.len() ==> spec_positive_integer(&values[i]) is Some
}

/// Validates a claim of many mails; at most `max_page_size` ids may be
/// given.
pub fn receive_all(body: &ReceiveAllRequest, max_page_size: usize) -> (r: Result<MailClaim, JsonResponse>)
    ensures
        match r {
            Ok(claim) => spec_positive_integer(&body.viewer_id) == Some(claim.viewer_id)
                && claim.receive_all && match (&body.mail_ids, claim.mail_ids) {
                (None, None) => true,
                (Some(values), Some(ids)) => values@.len() <= max_page_size && ids@.len()
                    == values@.len() && forall|i: int|
                    0 <= i < ids@.len() ==> spec_positive_integer(&values@[i]) == Some(ids@[i]),
                _ => false,
            },
            Err(response) => response.status@ == "400 Bad Request"@ && if spec_positive_integer(
                &body.viewer_id,
            ) is None {
                response.body@ == error_body("invalid_viewer_id"@)
            } else {
                body.mail_ids matches Some(values) && if values@.len() > max_page_size {
                    response.body@ == error_body("mail_ids_too_many"@)
                } else {
                    !all_positive(values@) && response.body@ == error_body("invalid_mail_id"@)
                }
            },
        },
{
    let viewer_id = match positive_integer(&body.viewer_id) {
        Some(viewer_id) => viewer_id,
        None => return Err(error_response("400 Bad Request", "invalid_viewer_id")),
    };
    let mail_ids = match &body.mail_ids {
        None => None,
        Some(values) => {
            if values.len() > max_page_size {
                return Err(error_response("400 Bad Request", "mail_ids_too_many"));
            }
            let mut ids: Vec<i64> = Vec::new();
            let mut i: usize = 0;
            while i < values.len()
                invariant
                    body.mail_ids == Some(*values),
                    spec_positive_integer(&body.viewer_id) is Some,
                    values@.len() <= max_page_size,
                    i <= values@.len(),
                    ids@.len() == i,
                    forall|k: int| 0 <= k < i ==> spec_positive_integer(&values@[k]) == Some(ids@[k]),
                decreases values@.len() - i,
            {
                match positive_integer(&values[i]) {
                    Some(mail_id) => ids.push(mail_id),
                    None => {
                        assert(!all_positive(values@));
                        return Err(error_response("400 Bad Request", "invalid_mail_id"));
                    },
                }
                i = i + 1;
            }
            Some(ids)
        },
    };
    Ok(MailClaim { viewer_id, mail_ids, receive_all: true })
}

/// Whether every listed id is a positive decimal id.
pub open spec fn ids_positive(list: Seq<(String, i64)>) -> bool {
    forall|i: int| 0 <= i < list.len() ==> spec_is_positive_id((#[trigger] list[i]).0@)
}

/// Whether every listed amount is non-negative.
pub open spec fn amounts_non_negative(list: Seq<(String, i64)>) -> bool {
    forall|i: int| 0 <= i < list.len() ==> (#[trigger] list[i]).1 >= 0
}

/// Whether some listed amount is positive.
pub open spec fn some_amount_positive(list: Seq<(String, i64)>) -> bool {
    exists|i: int| 0 <= i < list.len() && (#[trigger] list[i]).1 > 0
}

/// Whether the rewards of a new mail are acceptable: at most `max_entries`
/// entries in each list, positive ids, and no negative amount.
pub open spec fn rewards_acceptable(r: &MailReward, max_entries: usize) -> bool {
    &&& r.item_list@.len() <= max_entries
    &&& r.equipment_list@.len() <= max_entries
    &&& r.character_list@.len() <= max_entries
    &&& ids_positive(r.item_list@)
    &&& ids_positive(r.equipment_list@)
    &&& forall|i: int| 0 <= i < r.character_list@.len() ==> #[trigger] r.character_list@[i] > 0
    &&& amounts_non_negative(r.item_list@)
    &&& amounts_non_negative(r.equipment_list@)
    &&& r.free_mana >= 0 && r.paid_mana >= 0 && r.free_vmoney >= 0 && r.vmoney >= 0
    &&& r.exp_pool >= 0 && r.star_crumb >= 0 && r.bond_token >= 0 && r.boss_boost_point >= 0
    &&& r.boost_point >= 0 && r.rank_point >= 0
}

/// Whether a mail grants anything.
pub open spec fn grants_something(r: &MailReward) -> bool {
    ||| some_amount_positive(r.item_list@)
    ||| some_amount_positive(r.equipment_list@)
    ||| r.character_list@.len() > 0
    ||| r.free_mana > 0 || r.paid_mana > 0 || r.free_vmoney > 0 || r.vmoney > 0
    ||| r.exp_pool > 0 || r.star_crumb > 0 || r.bond_token > 0 || r.boss_boost_point > 0
    ||| r.boost_point > 0 || r.rank_point > 0
}

fn list_ids_positive(list: &Vec<(String, i64)>) -> (r: bool)
    ensures
        r == ids_positive(list@),
{
    let mut i: usize = 0;
    while i < list.len()
        invariant
            i <= list@.len(),
            forall|j: int| 0 <= j < i ==> spec_is_positive_id((#[trigger] list@[j]).0@),
        decreases list@.len() - i,
    {
        if !is_positive_id(list[i].0.as_str()) {
            return false;
        }
        i = i + 1;
    }
    true
}

fn list_amounts_non_negative(list: &Vec<(String, i64)>) -> (r: bool)
    ensures
        r == amounts_non_negative(list@),
{
    let mut i: usize = 0;
    while i < list.len()
        invariant
            i <= list@.len(),
            forall|j: int| 0 <= j < i ==> (#[trigger] list@[j]).1 >= 0,
        decreases list@.len() - i,
    {
        if list[i].1 < 0 {
            return false;
        }
        i = i + 1;
    }
    true
}

fn list_some_positive(list: &Vec<(String, i64)>) -> (r: bool)
    ensures
        r == some_amount_positive(list@),
{
    let mut i: usize = 0;
    while i < list.len()
        invariant
            i <= list@.len(),
            forall|j: int| 0 <= j < i ==> (#[trigger] list@[j]).1 <= 0,
        decreases list@.len() - i,
    {
        if list[i].1 > 0 {
            assert(list@[i as int].1 > 0);
            return true;
        }
        i = i + 1;
    }
    false
}

/// Checks the rewards of a new mail: `invalid_mail_rewards` where they are
/// not acceptable, `mail_rewards_empty` where they grant nothing.
pub fn normalize_rewards(rewards: MailReward, max_entries: usize) -> (r: Result<MailReward, JsonResponse>)
    ensures
        !rewards_acceptable(&rewards, max_entries) ==> (r matches Err(e) && e.status@
            == "400 Bad Request"@ && e.body@ == error_body("invalid_mail_rewards"@)),
        rewards_acceptable(&rewards, max_entries) && !grants_something(&rewards) ==> (
        r matches Err(e) && e.status@ == "400 Bad Request"@ && e.body@ == error_body(
            "mail_rewards_empty"@,
        )),
        rewards_acceptable(&rewards, max_entries) && grants_something(&rewards) ==> (
        r matches Ok(kept) && kept == rewards),
{
    let mut characters_positive = true;
    let mut i: usize = 0;
    while i < rewards.character_list.len()
        invariant
            i <= rewards.character_list@.len(),
            characters_positive == forall|j: int| 0 <= j < i ==> #[trigger] rewards.character_list@[j] > 0,
        decreases rewards.character_list@.len() - i,
    {
        if rewards.character_list[i] <= 0 {
            characters_positive = false;
        }
        i = i + 1;
    }
    if rewards.item_list.len() > max_entries || rewards.equipment_list.len() > max_entries
        || rewards.character_list.len() > max_entries || !list_ids_positive(&rewards.item_list)
        || !list_ids_positive(&rewards.equipment_list) || !characters_positive
        || !list_amounts_non_negative(&rewards.item_list) || !list_amounts_non_negative(
        &rewards.equipment_list,
    ) || rewards.free_mana < 0 || rewards.paid_mana < 0 || rewards.free_vmoney < 0
        || rewards.vmoney < 0 || rewards.exp_pool < 0 || rewards.star_crumb < 0
        || rewards.bond_token < 0 || rewards.boss_boost_point < 0 || rewards.boost_point < 0
        || rewards.rank_point < 0 {
        return Err(error_response("400 Bad Request", "invalid_mail_rewards"));
    }
    let has_reward = list_some_positive(&rewards.item_list) || list_some_positive(
        &rewards.equipment_list,
    ) || rewards.character_list.len() > 0 || rewards.free_mana > 0 || rewards.paid_mana > 0
        || rewards.free_vmoney > 0 || rewards.vmoney > 0 || rewards.exp_pool > 0
        || rewards.star_crumb > 0 || rewards.bond_token > 0 || rewards.boss_boost_point > 0
        || rewards.boost_point > 0 || rewards.rank_point > 0;
    if !has_reward {
        return Err(error_response("400 Bad Request", "mail_rewards_empty"));
    }
    Ok(rewards)
}

/// Whether a text holds a control character.
pub open spec fn has_control(s: Seq<char>) -> bool {
    exists|i: int| 0 <= i < s.len() && is_control_char(#[trigger] s[i])
}

fn contains_control(s: &str) -> (r: bool)
    ensures
        r == has_control(s@),
{
    let len = s.unicode_len();
    let mut i: usize = 0;
    while i < len
        invariant
            len == s@.len(),
            i <= len,
            forall|j: int| 0 <= j < i ==> !is_control_char(#[trigger] s@[j]),
        decreases len - i,
    {
        if is_control(s.get_char(i)) {
            assert(is_control_char(s@[i as int]));
            return true;
        }
        i = i + 1;
    }
    false
}

/// Whether a trimmed text is non-empty, at most `max` characters long and
/// free of control characters.
pub open spec fn text_acceptable(s: Seq<char>, max: nat) -> bool {
    s.len() > 0 && s.len() <= max && !has_control(s)
}

/// The trimmed title, body and sender of a new mail: the title at most 200
/// characters, the body 5000 and the sender 100, none empty or with control
/// characters, and an expiry after the creation time; else `invalid_mail`.
pub fn mail_texts(title: &str, body: &str, sender: &str, expires_at: Option<i64>, created_at: i64) -> (r:
    Result<(String, String, String), JsonResponse>)
    ensures
        ({
            let ok = text_acceptable(trimmed(title@), 200) && text_acceptable(trimmed(body@), 5000)
                && text_acceptable(trimmed(sender@), 100) && !(expires_at matches Some(e) && e
                <= created_at);
            &&& ok ==> (r matches Ok((t, b, s)) && t@ == trimmed(title@) && b@ == trimmed(body@)
                && s@ == trimmed(sender@))
            &&& !ok ==> (r matches Err(e) && e.status@ == "400 Bad Request"@ && e.body@
                == error_body("invalid_mail"@))
        }),
{
    let t = trim(title);
    let b = trim(body);
    let s = trim(sender);
    let t_len = t.unicode_len();
    let b_len = b.unicode_len();
    let s_len = s.unicode_len();
    let expired = match expires_at {
        Some(e) => e <= created_at,
        None => false,
    };
    if t_len == 0 || t_len > 200 || contains_control(t) || b_len == 0 || b_len > 5000
        || contains_control(b) || s_len == 0 || s_len > 100 || contains_control(s) || expired {
        return Err(error_response("400 Bad Request", "invalid_mail"));
    }
    Ok((t.to_owned(), b.to_owned(), s.to_owned()))
}

/// The currencies a player holds, as mail rewards add to them.
#[derive(Clone, Copy, Debug, PartialEq, Eq, Structural)]
pub struct Currencies {
    pub free_mana: i64,
    pub paid_mana: i64,
    pub free_vmoney: i64,
    pub vmoney: i64,
    pub exp_pool: i64,
    pub star_crumb: i64,
    pub bond_token: i64,
    pub boss_boost_point: i64,
    pub boost_point: i64,
    pub rank_point: i64,
}

/// Whether each currency plus its reward fits in `i64`.
pub open spec fn currencies_fit(c: Currencies, r: &MailReward) -> bool {
    &&& i64::MIN <= c.free_mana + r.free_mana <= i64::MAX
    &&& i64::MIN <= c.paid_mana + r.paid_mana <= i64::MAX
    &&& i64::MIN <= c.free_vmoney + r.free_vmoney <= i64::MAX
    &&& i64::MIN <= c.vmoney + r.vmoney <= i64::MAX
    &&& i64::MIN <= c.exp_pool + r.exp_pool <= i64::MAX
    &&& i64::MIN <= c.star_crumb + r.star_crumb <= i64::MAX
    &&& i64::MIN <= c.bond_token + r.bond_token <= i64::MAX
    &&& i64::MIN <= c.boss_boost_point + r.boss_boost_point <= i64::MAX
    &&& i64::MIN <= c.boost_point + r.boost_point <= i64::MAX
    &&& i64::MIN <= c.rank_point + r.rank_point <= i64::MAX
}

fn add_currency(a: i64, b: i64) -> (r: Option<i64>)
    ensures
        r == (if i64::MIN <= a + b <= i64::MAX {
            Some((a + b) as i64)
        } else {
            None::<i64>
        }),
{
    a.checked_add(b)
}

/// Adds the currencies of a mail to what the player holds; fails where a
/// sum leaves `i64`.
pub fn add_currency_rewards(current: Currencies, rewards: &MailReward) -> (r: Result<Currencies, ServiceError>)
    ensures
        currencies_fit(current, rewards) ==> (r matches Ok(c) && c == (Currencies {
            free_mana: (current.free_mana + rewards.free_mana) as i64,
            paid_mana: (current.paid_mana + rewards.paid_mana) as i64,
            free_vmoney: (current.free_vmoney + rewards.free_vmoney) as i64,
            vmoney: (current.vmoney + rewards.vmoney) as i64,
            exp_pool: (current.exp_pool + rewards.exp_pool) as i64,
            star_crumb: (current.star_crumb + rewards.star_crumb) as i64,
            bond_token: (current.bond_token + rewards.bond_token) as i64,
            boss_boost_point: (current.boss_boost_point + rewards.boss_boost_point) as i64,
            boost_point: (current.boost_point + rewards.boost_point) as i64,
            rank_point: (current.rank_point + rewards.rank_point) as i64,
        })),
        !currencies_fit(current, rewards) ==> (r matches Err(e) && e.message@
            == "mail currency exceeds the supported range"@),
{
    let fail = "mail currency exceeds the supported range";
    let free_mana = match add_currency(current.free_mana, rewards.free_mana) {
        Some(v) => v,
        None => return Err(ServiceError::new(fail)),
    };
    let paid_mana = match add_currency(current.paid_mana, rewards.paid_mana) {
        Some(v) => v,
        None => return Err(ServiceError::new(fail)),
    };
    let free_vmoney = match add_currency(current.free_vmoney, rewards.free_vmoney) {
        Some(v) => v,
        None => return Err(ServiceError::new(fail)),
    };
    let vmoney = match add_currency(current.vmoney, rewards.vmoney) {
        Some(v) => v,
        None => return Err(ServiceError::new(fail)),
    };
    let exp_pool = match add_currency(current.exp_pool, rewards.exp_pool) {
        Some(v) => v,
        None => return Err(ServiceError::new(fail)),
    };
    let star_crumb = match add_currency(current.star_crumb, rewards.star_crumb) {
        Some(v) => v,
        None => return Err(ServiceError::new(fail)),
    };
    let bond_token = match add_currency(current.bond_token, rewards.bond_token) {
        Some(v) => v,
        None => return Err(ServiceError::new(fail)),
    };
    let boss_boost_point = match add_currency(current.boss_boost_point, rewards.boss_boost_point) {
        Some(v) => v,
        None => return Err(ServiceError::new(fail)),
    };
    let boost_point = match add_currency(current.boost_point, rewards.boost_point) {
        Some(v) => v,
        None => return Err(ServiceError::new(fail)),
    };
    let rank_point = match add_currency(current.rank_point, rewards.rank_point) {
        Some(v) => v,
        None => return Err(ServiceError::new(fail)),
    };
    Ok(Currencies {
        free_mana,
        paid_mana,
        free_vmoney,
        vmoney,
        exp_pool,
        star_crumb,
        bond_token,
        boss_boost_point,
        boost_point,
        rank_point,
    })
}

/// The stack of an equipment after a mail grants `amount` of it: every
/// granted copy is a duplicate where the player has the equipment, all but
/// the first where not; `None` where the stack leaves `i64`.
pub fn equipment_stack_after(existing_stack: Option<i64>, amount: i64) -> (r: Option<i64>)
    ensures
        ({
            let stack: int = match existing_stack {
                Some(s) => s as int,
                None => 0,
            };
            let duplicates: int = match existing_stack {
                Some(_) => amount as int,
                None => if amount - 1 < i64::MIN {
                    i64::MIN as int
                } else {
                    amount - 1
                },
            };
            r == (if i64::MIN <= stack + duplicates <= i64::MAX {
                Some((stack + duplicates) as i64)
            } else {
                None::<i64>
            })
        }),
{
    let (stack, duplicates): (i64, i64) = match existing_stack {
        Some(s) => (s, amount),
        None => (0, if amount == i64::MIN { i64::MIN } else { amount - 1 }),
    };
    stack.checked_add(duplicates)
}

/// The views of keyed amounts.
pub open spec fn pair_views(pairs: Seq<(String, i64)>) -> Seq<(Seq<char>, i64)> {
    pairs.map_values(|p: (String, i64)| (p.0@, p.1))
}

/// The item counts after a mail's items are added in order, with the
/// items that were granted (those of positive amount); `None` where a count
/// leaves `i64`.
pub open spec fn items_after(items: Map<Seq<char>, i64>, rewards: Seq<(String, i64)>) -> Option<
    (Map<Seq<char>, i64>, Seq<(Seq<char>, i64)>),
>
    decreases rewards.len(),
{
    if rewards.len() == 0 {
        Some((items, seq![]))
    } else {
        match items_after(items, rewards.drop_last()) {
            None => None,
            Some((counts, granted)) => {
                let key = rewards.last().0@;
                let amount = rewards.last().1;
                let total = value_or(counts, key, 0) + amount;
                if i64::MIN <= total <= i64::MAX {
                    Some(
                        (
                            counts.insert(key, total as i64),
                            if amount > 0 {
                                granted.push((key, amount))
                            } else {
                                granted
                            },
                        ),
                    )
                } else {
                    None
                }
            },
        }
    }
}

/// Adds a mail's items to the player's item counts and returns the items
/// granted; fails where a count would leave `i64`.
pub fn add_item_rewards(items: &mut Counts, rewards: &Vec<(String, i64)>) -> (r: Result<
    Vec<(String, i64)>,
    ServiceError,
>)
    ensures
        match items_after(old(items).view(), rewards@) {
            Some((counts, granted)) => final(items).view() == counts && (r matches Ok(g)
                && pair_views(g@) == granted),
            None => r matches Err(e) && e.message@ == "mail item count exceeds the supported range"@,
        },
{
    let ghost start = items.view();
    let mut granted: Vec<(String, i64)> = Vec::new();
    let mut i: usize = 0;
    assert(pair_views(granted@) =~= Seq::<(Seq<char>, i64)>::empty());
    assert(rewards@.subrange(0, 0) =~= Seq::<(String, i64)>::empty());
    while i < rewards.len()
        invariant
            i <= rewards@.len(),
            items_after(start, rewards@.subrange(0, i as int)) == Some(
                (items.view(), pair_views(granted@)),
            ),
            start == old(items).view(),
        decreases rewards@.len() - i,
    {
        assert(rewards@.subrange(0, i + 1).drop_last() =~= rewards@.subrange(0, i as int));
        let (key, amount) = (&rewards[i].0, rewards[i].1);
        let current = items.get_or_zero(key.as_str());
        match current.checked_add(amount) {
            Some(total) => {
                items.insert(key.clone(), total);
                if amount > 0 {
                    let ghost before = pair_views(granted@);
                    granted.push((key.clone(), amount));
                    assert(pair_views(granted@) =~= before.push((key@, amount)));
                }
            },
            None => {
                proof {
                    lemma_items_after_fails(start, rewards@, i as int);
                }
                return Err(ServiceError::new("mail item count exceeds the supported range"));
            },
        }
        i = i + 1;
    }
    assert(rewards@.subrange(0, rewards@.len() as int) =~= rewards@);
    Ok(granted)
}

/// Once a prefix of the rewards fails, so do all of them.
proof fn lemma_items_after_fails(items: Map<Seq<char>, i64>, rewards: Seq<(String, i64)>, i: int)
    requires
        0 <= i < rewards.len(),
        items_after(items, rewards.subrange(0, i + 1)) is None,
    ensures
        items_after(items, rewards) is None,
    decreases rewards.len() - i,
{
    if i + 1 == rewards.len() {
        assert(rewards.subrange(0, i + 1) =~= rewards);
    } else {
        let j = i + 1;
        assert(rewards.subrange(0, j + 1).drop_last() =~= rewards.subrange(0, j));
        lemma_items_after_fails(items, rewards, j);
    }
}

/// The counts a claim answers with.
#[derive(Clone, Copy, Debug, PartialEq, Eq, Structural)]
pub struct ClaimCounts {
    pub already_mail_count: usize,
    pub mail_arrived: bool,
}

/// What a claim answers: a single claim that found no mail is refused with
/// `mail_not_found`; a claim of all mails counts the requested mails that
/// were not claimed (0 where none were named); mail has arrived where some
/// is left.
pub fn claim_counts(receive_all: bool, requested: Option<usize>, claimed: usize, remaining: i64) -> (r: Result<
    ClaimCounts,
    JsonResponse,
>)
    ensures
        !receive_all && claimed == 0 ==> (r matches Err(e) && e.status@ == "400 Bad Request"@
            && e.body@ == error_body("mail_not_found"@)),
        !(!receive_all && claimed == 0) ==> (r matches Ok(c) && c.mail_arrived == (remaining > 0)
            && c.already_mail_count == (if receive_all {
            match requested {
                Some(n) => if n > claimed {
                    (n - claimed) as usize
                } else {
                    0
                },
                None => 0,
            }
        } else {
            0
        })),
{
    if !receive_all && claimed == 0 {
        return Err(error_response("400 Bad Request", "mail_not_found"));
    }
    let already = if receive_all {
        match requested {
            Some(n) => n.saturating_sub(claimed),
            None => 0,
        }
    } else {
        0
    };
    Ok(ClaimCounts { already_mail_count: already, mail_arrived: remaining > 0 })
}

/// The endpoints of the mail service.
#[derive(Clone, Copy, Debug, PartialEq, Eq, Structural)]
pub enum MailEndpoint {
    Index,
    Receive,
    ReceiveAll,
}

/// Which endpoint a request is for; `None` where it is not one of them.
pub fn route(method: &str, path: &str) -> (r: Option<MailEndpoint>)
    ensures
        r == (if method@ != "POST"@ {
            None
        } else if path@ == "/api/index.php/mail/index"@ {
            Some(MailEndpoint::Index)
        } else if path@ == "/api/index.php/mail/receive"@ {
            Some(MailEndpoint::Receive)
        } else if path@ == "/api/index.php/mail/receive_all"@ {
            Some(MailEndpoint::ReceiveAll)
        } else {
            None
        }),
{
    if !str_eq(method, "POST") {
        None
    } else if str_eq(path, "/api/index.php/mail/index") {
        Some(MailEndpoint::Index)
    } else if str_eq(path, "/api/index.php/mail/receive") {
        Some(MailEndpoint::Receive)
    } else if str_eq(path, "/api/index.php/mail/receive_all") {
        Some(MailEndpoint::ReceiveAll)
    } else {
        None
    }
}

/// The JSON error answer of this service.
pub fn error_response(status: &str, code: &str) -> (r: JsonResponse)
    ensures
        r.status@ == status@,
        r.body@ == error_body(code@),
{
    json_error(status, code)
}


/// Pulls in one multi draw of the standard gacha.
pub const PULLS_PER_MULTI_DRAW: i64 = 10;

/// Pulls that the quick-pull preset of the reward catalog pays for.
pub const QUICK_PULL_COUNT: i64 = 200;

/// The multi-draw price of the standard gacha, from its `multiCost` in the
/// gacha configuration: a positive integer, else the configuration is
/// broken.
pub fn cn_gacha_cost(multi_cost: Option<i64>) -> (r: Result<i64, ServiceError>)
    ensures
        match multi_cost {
            Some(c) if c > 0 => r matches Ok(v) && v == c,
            _ => r is Err,
        },
{
    match multi_cost {
        Some(c) => if c > 0 {
            Ok(c)
        } else {
            Err(ServiceError::new("CN gacha multi-draw cost is missing"))
        },
        None => Err(ServiceError::new("CN gacha multi-draw cost is missing")),
    }
}

/// The premium currency of the quick-pull preset: the multi-draw price for
/// as many multi draws as the preset's pulls make. Fails where that does
/// not fit in `i64`.
pub fn quick_pull_cost(multi_draw_cost: i64) -> (r: Result<i64, ServiceError>)
    ensures
        ({
            let total = multi_draw_cost * (QUICK_PULL_COUNT / PULLS_PER_MULTI_DRAW);
            &&& r is Err <==> (total > i64::MAX || total < i64::MIN)
            &&& r matches Ok(v) ==> v == total
        }),
{
    let multi_draw_count: i64 = QUICK_PULL_COUNT / PULLS_PER_MULTI_DRAW;
    match multi_draw_cost.checked_mul(multi_draw_count) {
        Some(v) => Ok(v),
        None => Err(ServiceError::new("CN gacha preset cost exceeds the supported range")),
    }
}

} // verus!
