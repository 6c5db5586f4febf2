use crate::bbc::BbcResponseError;
use crate::text::{decimal, push_str, to_decimal};
use vstd::prelude::*;

verus! {

/// The HTTP status and body text that answer a request which failed with
/// `err`: a missing programme or a bad pid (which upstream answers with 400) is
/// a 404 without text, an unusable upstream answer a 503, unsupported media a
/// 501, anything else a 500 without text.
pub fn get_http_response_for_bbc_error(err: &BbcResponseError) -> (r: (u16, Option<String>))
    ensures
        match err {
            BbcResponseError::NotFound => r.0 == 404 && r.1 is None,
            BbcResponseError::FormatError => r.0 == 503 && (r.1 matches Some(m) && m@
                == "Unexpected data from BBC"@),
            BbcResponseError::ServerResponseError(s) => if *s == 400 {
                r.0 == 404 && r.1 is None
            } else {
                r.0 == 503 && (r.1 matches Some(m) && m@ == "Error response from BBC ("@ + decimal(
                    *s as nat,
                ) + ")"@)
            },
            BbcResponseError::UnsupportedMedia(_, _) => r.0 == 501 && (r.1 matches Some(m) && m@
                == "Media format not supported"@),
            _ => r.0 == 500 && r.1 is None,
        },
{
    match err {
        BbcResponseError::NotFound => (404, None),
        BbcResponseError::FormatError => (503, Some("Unexpected data from BBC".to_owned())),
        BbcResponseError::ServerResponseError(upstream_status) => {
            if *upstream_status == 400 {
                (404, None)
            } else {
                let mut message = "Error response from BBC (".to_owned();
                let code = to_decimal(*upstream_status as u64);
                push_str(&mut message, code.as_str());
                push_str(&mut message, ")");
                (503, Some(message))
            }
        },
        BbcResponseError::UnsupportedMedia(_, _) => (501, Some("Media format not supported".to_owned())),
        _ => (500, None),
    }
}

} // verus!
