//! The shape of the JSON error answers that the endpoints give.
use vstd::prelude::*;

verus! {

/// An HTTP answer with a JSON body.
#[derive(Debug)]
pub struct JsonResponse {
    pub status: String,
    pub body: String,
}

/// The JSON body `{"error":"<code>"}`.
pub open spec fn error_body(code: Seq<char>) -> Seq<char> {
    "{\"error\":\""@ + code + "\"}"@
}

/// The JSON error answer with the given status line and error code.
pub fn json_error(status: &str, code: &str) -> (r: JsonResponse)
    ensures
        r.status@ == status@,
        r.body@ == error_body(code@),
{
    let mut body = String::from_str("{\"error\":\"");
    body.append(code);
    body.append("\"}");
    JsonResponse { status: status.to_owned(), body }
}

} // verus!
