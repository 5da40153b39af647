//! Range requests of the streaming download: an inverted range is turned
//! into an open-ended one, so that the download resumes at its start.

use vstd::prelude::*;

use crate::text::decimal;

verus! {

/// The `Range` header value for bytes `start..=end`, or from `start` to the
/// end of the stream.
pub open spec fn range_header_text(start: u64, end: Option<u64>) -> Seq<char> {
    "bytes="@ + decimal(start as nat) + "-"@ + match end {
        Some(e) => decimal(e as nat),
        None => Seq::<char>::empty(),
    }
}

/// `format_range_header_bytes` of the `stream-download` crate: it writes
/// `bytes={start}-{end}`, the end left out when there is none.
#[verifier::external_body]
fn format_range_header(start: u64, end: Option<u64>) -> (res: String)
    ensures
        res@ == range_header_text(start, end),
{
    stream_download::http::format_range_header_bytes(start, end)
}

/// The end a range request keeps: an end before the start is dropped, so
/// that the request runs from the start to the end of the stream.
pub fn sanitize_range_end(start: u64, end: Option<u64>) -> (res: Option<u64>)
    ensures
        res == (match end {
            Some(e) => if e >= start {
                Some(e)
            } else {
                None
            },
            None => None,
        }),
{
    match end {
        Some(e) => if e >= start {
            Some(e)
        } else {
            None
        },
        None => None,
    }
}

/// The `Range` header a download sends for `start` and `end`, with an
/// inverted end dropped.
pub fn range_request_header(start: u64, end: Option<u64>) -> (res: String)
    ensures
        res@ == range_header_text(
            start,
            match end {
                Some(e) => if e >= start {
                    Some(e)
                } else {
                    None
                },
                None => None,
            },
        ),
{
    format_range_header(start, sanitize_range_end(start, end))
}

} // verus!
