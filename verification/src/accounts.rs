//! Checks of viewers and sessions shared by the player endpoints, and the
//! small rules of the profile, news, store and exchange endpoints.
use vstd::prelude::*;
use crate::http::{error_body, json_error, JsonResponse};
use crate::mail::ViewerSessionPlayer;

verus! {

/// The status and error code of an answer.
pub open spec fn answers(r: JsonResponse, status: Seq<char>, code: Seq<char>) -> bool {
    r.status@ == status && r.body@ == error_body(code)
}

/// The viewer of a request, where its body decoded and names a positive
/// viewer; else the answer `invalid_request_body`.
pub fn viewer_id_only(decoded_viewer_id: Option<i64>) -> (r: Result<i64, JsonResponse>)
    ensures
        match decoded_viewer_id {
            Some(v) => if v > 0 {
                r == Ok::<i64, JsonResponse>(v)
            } else {
                r matches Err(e) && answers(e, "400 Bad Request"@, "invalid_request_body"@)
            },
            None => r matches Err(e) && answers(e, "400 Bad Request"@, "invalid_request_body"@),
        },
{
    match decoded_viewer_id {
        Some(v) => if v > 0 {
            Ok(v)
        } else {
            Err(json_error("400 Bad Request", "invalid_request_body"))
        },
        None => Err(json_error("400 Bad Request", "invalid_request_body")),
    }
}

/// The viewer again, unless the session store knows the viewer's session
/// to be invalid (`invalid_viewer_session`).
pub fn session_viewer_id_value<S>(viewer_id: i64, lookup: &ViewerSessionPlayer<S>) -> (r: Result<
    i64,
    JsonResponse,
>)
    ensures
        match lookup {
            ViewerSessionPlayer::InvalidSession => r matches Err(e) && answers(
                e,
                "400 Bad Request"@,
                "invalid_viewer_session"@,
            ),
            _ => r == Ok::<i64, JsonResponse>(viewer_id),
        },
{
    match lookup {
        ViewerSessionPlayer::InvalidSession => Err(
            json_error("400 Bad Request", "invalid_viewer_session"),
        ),
        _ => Ok(viewer_id),
    }
}

/// The viewer that a request names, 0 where its body does not decode.
pub fn decode_viewer_id(decoded_viewer_id: Option<i64>) -> (r: i64)
    ensures
        r == match decoded_viewer_id {
            Some(v) => v,
            None => 0,
        },
{
    match decoded_viewer_id {
        Some(v) => v,
        None => 0,
    }
}

/// The stored player of a session, or the answer for a session without
/// one.
pub fn session_player<S>(lookup: ViewerSessionPlayer<S>) -> (r: Result<S, JsonResponse>)
    ensures
        match lookup {
            ViewerSessionPlayer::Present(s) => r == Ok::<S, JsonResponse>(s),
            ViewerSessionPlayer::InvalidSession => r matches Err(e) && answers(
                e,
                "400 Bad Request"@,
                "invalid_viewer_session"@,
            ),
            ViewerSessionPlayer::MissingPlayer => r matches Err(e) && answers(
                e,
                "400 Bad Request"@,
                "no_player"@,
            ),
            ViewerSessionPlayer::MissingPlayerData(_) => r matches Err(e) && answers(
                e,
                "500 Internal Server Error"@,
                "no_player_data"@,
            ),
        },
{
    match lookup {
        ViewerSessionPlayer::Present(s) => Ok(s),
        ViewerSessionPlayer::InvalidSession => Err(
            json_error("400 Bad Request", "invalid_viewer_session"),
        ),
        ViewerSessionPlayer::MissingPlayer => Err(json_error("400 Bad Request", "no_player")),
        ViewerSessionPlayer::MissingPlayerData(_) => Err(
            json_error("500 Internal Server Error", "no_player_data"),
        ),
    }
}

/// The first `max` characters of a text (all of it where it is shorter).
pub open spec fn first_chars(value: Seq<char>, max: nat) -> Seq<char> {
    if value.len() <= max {
        value
    } else {
        value.subrange(0, max as int)
    }
}

/// The first `max` characters of a text.
pub fn truncate_chars(value: &str, max: usize) -> (r: String)
    ensures
        r@ == first_chars(value@, max as nat),
{
    let len = value.unicode_len();
    let end = if len <= max {
        len
    } else {
        max
    };
    let kept = value.substring_char(0, end);
    proof {
        if len <= max {
            assert(value@.subrange(0, len as int) =~= value@);
        }
    }
    kept.to_owned()
}

/// A new profile comment: at most 100 characters of it are kept; refused
/// (`invalid_request_body`) where the body did not decode or names no
/// positive viewer.
pub fn update_comment(decoded: Option<(i64, String)>) -> (r: Result<(i64, String), JsonResponse>)
    ensures
        match decoded {
            Some((viewer_id, comment)) => if viewer_id > 0 {
                r matches Ok((v, c)) && v == viewer_id && c@ == first_chars(comment@, 100)
            } else {
                r matches Err(e) && answers(e, "400 Bad Request"@, "invalid_request_body"@)
            },
            None => r matches Err(e) && answers(e, "400 Bad Request"@, "invalid_request_body"@),
        },
{
    match decoded {
        Some((viewer_id, comment)) => if viewer_id > 0 {
            Ok((viewer_id, truncate_chars(comment.as_str(), 100)))
        } else {
            Err(json_error("400 Bad Request", "invalid_request_body"))
        },
        None => Err(json_error("400 Bad Request", "invalid_request_body")),
    }
}

/// A new player name: at most 20 characters of it are kept; refused
/// (`invalid_request_body`) where the body did not decode or names no
/// positive viewer.
pub fn rename(decoded: Option<(i64, String)>) -> (r: Result<(i64, String), JsonResponse>)
    ensures
        match decoded {
            Some((viewer_id, name)) => if viewer_id > 0 {
                r matches Ok((v, n)) && v == viewer_id && n@ == first_chars(name@, 20)
            } else {
                r matches Err(e) && answers(e, "400 Bad Request"@, "invalid_request_body"@)
            },
            None => r matches Err(e) && answers(e, "400 Bad Request"@, "invalid_request_body"@),
        },
{
    match decoded {
        Some((viewer_id, name)) => if viewer_id > 0 {
            Ok((viewer_id, truncate_chars(name.as_str(), 20)))
        } else {
            Err(json_error("400 Bad Request", "invalid_request_body"))
        },
        None => Err(json_error("400 Bad Request", "invalid_request_body")),
    }
}

/// A news request: the viewer and the news item, both positive; refused
/// (`invalid_request_body`) otherwise.
pub fn get_info(decoded: Option<(i64, i64)>) -> (r: Result<(i64, i64), JsonResponse>)
    ensures
        match decoded {
            Some((viewer_id, news_id)) => if viewer_id > 0 && news_id > 0 {
                r == Ok::<(i64, i64), JsonResponse>((viewer_id, news_id))
            } else {
                r matches Err(e) && answers(e, "400 Bad Request"@, "invalid_request_body"@)
            },
            None => r matches Err(e) && answers(e, "400 Bad Request"@, "invalid_request_body"@),
        },
{
    match decoded {
        Some((viewer_id, news_id)) => if viewer_id > 0 && news_id > 0 {
            Ok((viewer_id, news_id))
        } else {
            Err(json_error("400 Bad Request", "invalid_request_body"))
        },
        None => Err(json_error("400 Bad Request", "invalid_request_body")),
    }
}

/// The product of a store request: its own product id, else the product
/// id of its payment.
pub fn requested_product_id(product_id: Option<String>, payment_product_id: Option<Option<String>>) -> (r:
    Option<String>)
    ensures
        match product_id {
            Some(p) => r matches Some(q) && q@ == p@,
            None => match payment_product_id {
                Some(Some(p)) => r matches Some(q) && q@ == p@,
                _ => r is None,
            },
        },
{
    match product_id {
        Some(p) => Some(p),
        None => match payment_product_id {
            Some(Some(p)) => Some(p),
            _ => None,
        },
    }
}

/// The viewer a store request answers: a positive viewer, else none (the
/// request is answered with an empty payment list).
pub fn start(decoded_viewer_id: Option<Option<i64>>) -> (r: Option<i64>)
    ensures
        r == match decoded_viewer_id {
            Some(Some(v)) => if v > 0 {
                Some(v)
            } else {
                None::<i64>
            },
            _ => None,
        },
{
    match decoded_viewer_id {
        Some(Some(v)) => if v > 0 {
            Some(v)
        } else {
            None
        },
        _ => None,
    }
}

/// A single-draw ticket claim: a positive viewer and a non-negative api
/// count; refused (`invalid_request_body`) otherwise. Gives the viewer and
/// the campaign.
pub fn single_draw_ticket(decoded: Option<(i64, i64, i64)>) -> (r: Result<(i64, i64), JsonResponse>)
    ensures
        match decoded {
            Some((viewer_id, campaign_id, api_count)) => if viewer_id > 0 && api_count >= 0 {
                r == Ok::<(i64, i64), JsonResponse>((viewer_id, campaign_id))
            } else {
                r matches Err(e) && answers(e, "400 Bad Request"@, "invalid_request_body"@)
            },
            None => r matches Err(e) && answers(e, "400 Bad Request"@, "invalid_request_body"@),
        },
{
    match decoded {
        Some((viewer_id, campaign_id, api_count)) => if viewer_id > 0 && api_count >= 0 {
            Ok((viewer_id, campaign_id))
        } else {
            Err(json_error("400 Bad Request", "invalid_request_body"))
        },
        None => Err(json_error("400 Bad Request", "invalid_request_body")),
    }
}

/// A multi-draw ticket claim: a positive viewer; refused
/// (`invalid_request_body`) otherwise. Gives the viewer and the campaign.
pub fn multi_draw_ticket(decoded: Option<(i64, i64)>) -> (r: Result<(i64, i64), JsonResponse>)
    ensures
        match decoded {
            Some((viewer_id, campaign_id)) => if viewer_id > 0 {
                r == Ok::<(i64, i64), JsonResponse>((viewer_id, campaign_id))
            } else {
                r matches Err(e) && answers(e, "400 Bad Request"@, "invalid_request_body"@)
            },
            None => r matches Err(e) && answers(e, "400 Bad Request"@, "invalid_request_body"@),
        },
{
    match decoded {
        Some((viewer_id, campaign_id)) => if viewer_id > 0 {
            Ok((viewer_id, campaign_id))
        } else {
            Err(json_error("400 Bad Request", "invalid_request_body"))
        },
        None => Err(json_error("400 Bad Request", "invalid_request_body")),
    }
}


/// The page of the news index a request asks for: its `page_index` where
/// positive, else its `current_page` where positive, else the first page.
/// Only the first page lists the packaged news.
pub fn news_page(page_index: Option<i64>, current_page: Option<i64>) -> (r: i64)
    ensures
        r == match page_index {
            Some(p) if p > 0 => p,
            _ => match current_page {
                Some(c) if c > 0 => c,
                _ => 1,
            },
        },
        r > 0,
{
    match page_index {
        Some(p) => if p > 0 {
            return p;
        },
        None => {},
    }
    match current_page {
        Some(c) => if c > 0 {
            return c;
        },
        None => {},
    }
    1
}


/// Whether a how-to-get query names exactly one thing: a positive item and
/// no equipment, or a positive equipment and no item.
pub fn how_to_get_request_valid(item_id: Option<i64>, equipment_id: Option<i64>) -> (r: bool)
    ensures
        r == ((item_id matches Some(i) && i > 0 && equipment_id is None)
            || (equipment_id matches Some(e) && e > 0 && item_id is None)),
{
    let has_item = match item_id {
        Some(i) => i > 0 && equipment_id.is_none(),
        None => false,
    };
    let has_equipment = match equipment_id {
        Some(e) => e > 0 && item_id.is_none(),
        None => false,
    };
    has_item || has_equipment
}

/// The degrees a player holds as the profile lists them: the first degree
/// and the stored one (the first where none is stored).
pub fn degree_ids(stored_degree_id: Option<i64>) -> (r: [i64; 2])
    ensures
        r@ == seq![1i64, match stored_degree_id {
            Some(d) => d,
            None => 1,
        }],
{
    let degree: i64 = match stored_degree_id {
        Some(d) => d,
        None => 1,
    };
    let r = [1i64, degree];
    assert(r@ =~= seq![1i64, degree]);
    r
}

} // verus!
