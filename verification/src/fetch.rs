use vstd::prelude::*;

use crate::api::Page;
use crate::error::FetchError;
use crate::utils::digits_value;
use crate::utils::is_u16_decimal;
use crate::utils::remaining_requests;
use crate::utils::requests_needed;
use crate::utils::requests_to_make;

verus! {

/// What the first response tells a job to do next.
#[derive(Clone, Copy, Debug, PartialEq, Eq, Structural)]
pub enum Decision {
    /// Abort the job before creating or writing any output.
    Reject(FetchError),
    /// The year has no records: report so and succeed without a file.
    NoEntries,
    /// Open the output destination and write every page.
    Proceed,
}

/// The decision the first response calls for, checked in the order the job
/// applies the checks: a 429 status aborts at once, whatever the body
/// holds; then the rate-limit header must be present and well formed; then
/// the body must have decoded; then the remaining quota must cover the
/// whole request plan; only then does the record count choose between
/// writing and the no-entries notice.
pub open spec fn expected_decision(status: u16, header: Option<Seq<u8>>, page: Option<Page>) -> Decision {
    if status == 429 {
        Decision::Reject(FetchError::RateLimited)
    } else {
        match header {
            None => Decision::Reject(FetchError::MissingHeader),
            Some(h) => if !is_u16_decimal(h) {
                Decision::Reject(FetchError::MalformedHeader)
            } else {
                match page {
                    None => Decision::Reject(FetchError::DecodeError),
                    Some(p) => if digits_value(h) < requests_needed(
                        p.count as int,
                        p.page_size as int,
                    ) {
                        Decision::Reject(FetchError::QuotaExceeded)
                    } else if p.count == 0 {
                        Decision::NoEntries
                    } else {
                        Decision::Proceed
                    },
                }
            },
        }
    }
}

/// The header bytes as the decision spec sees them.
pub open spec fn header_view(header: Option<&Vec<u8>>) -> Option<Seq<u8>> {
    match header {
        Some(h) => Some(h@),
        None => None,
    }
}

/// The decoded page as the decision spec sees it.
pub open spec fn page_view(page: Option<&Page>) -> Option<Page> {
    match page {
        Some(p) => Some(*p),
        None => None,
    }
}

/// Run the whole first-response check. `header` carries the raw bytes of
/// the rate-limit header, if it was present; `page` the decoded body, if
/// decoding succeeded. Output is created only on `Proceed`.
pub fn first_page_decision(status: u16, header: Option<&Vec<u8>>, page: Option<&Page>) -> (d:
    Decision)
    requires
        page is Some ==> page->Some_0.page_size > 0,
    ensures
        d == expected_decision(status, header_view(header), page_view(page)),
        status == 429 ==> d == Decision::Reject(FetchError::RateLimited),
        status != 429 && header is Some && is_u16_decimal(header->Some_0@) && page is Some
            && digits_value(header->Some_0@) < requests_needed(
            page->Some_0.count as int,
            page->Some_0.page_size as int,
        ) ==> d == Decision::Reject(FetchError::QuotaExceeded),
        status != 429 && header is Some && is_u16_decimal(header->Some_0@) && page is Some
            && digits_value(header->Some_0@) >= requests_needed(
            page->Some_0.count as int,
            page->Some_0.page_size as int,
        ) && page->Some_0.count == 0 ==> d == Decision::NoEntries,
{
    if status == 429 {
        return Decision::Reject(FetchError::RateLimited);
    }
    let remaining = match remaining_requests(header) {
        Ok(v) => v,
        Err(e) => {
            return Decision::Reject(e);
        },
    };
    let p = match page {
        Some(p) => p,
        None => {
            return Decision::Reject(FetchError::DecodeError);
        },
    };
    let needed = requests_to_make(p);
    if remaining < needed {
        return Decision::Reject(FetchError::QuotaExceeded);
    }
    if p.count == 0 {
        return Decision::NoEntries;
    }
    Decision::Proceed
}

/// The URL for a follow-up page: the server's cursor with the API key
/// appended as one more query parameter.
pub fn next_page_url(cursor: &String, api_key: &String) -> (r: String)
    ensures
        r@ == cursor@ + "&api_key="@ + api_key@,
{
    let mut url = cursor.clone();
    url.append("&api_key=");
    url.append(api_key.as_str());
    proof {
        assert(url@ =~= cursor@ + "&api_key="@ + api_key@);
    }
    url
}

/// Law: the request plan is the ceiling of `count / page_size`. It is zero
/// exactly when there is nothing to fetch, at least one whenever any record
/// exists, and it is the least number of `page_size`-sized requests whose
/// capacity covers `count` records.
pub proof fn lemma_requests_needed_is_ceiling(count: int, page_size: int)
    requires
        page_size > 0,
        count >= 0,
    ensures
        count > 0 ==> requests_needed(count, page_size) >= 1,
        count == 0 ==> requests_needed(count, page_size) == 0,
        count <= requests_needed(count, page_size) * page_size,
        requests_needed(count, page_size) * page_size < count + page_size,
{
    let q = count / page_size;
    let r = count % page_size;
    vstd::arithmetic::div_mod::lemma_fundamental_div_mod(count, page_size);
    vstd::arithmetic::div_mod::lemma_mod_division_less_than_divisor(count, page_size);
    vstd::arithmetic::div_mod::lemma_div_pos_is_pos(count, page_size);
    assert(count == page_size * q + r && 0 <= r < page_size && q >= 0);
    if r == 0 {
        assert(requests_needed(count, page_size) == q);
        assert(count <= q * page_size && q * page_size < count + page_size && (count > 0 ==> q
            >= 1) && (count == 0 ==> q == 0)) by (nonlinear_arith)
            requires
                count == page_size * q,
                page_size > 0,
                q >= 0,
        ;
    } else {
        assert(requests_needed(count, page_size) == q + 1);
        assert(count <= (q + 1) * page_size && (q + 1) * page_size < count + page_size && q + 1
            >= 1) by (nonlinear_arith)
            requires
                count == page_size * q + r,
                0 < r < page_size,
                q >= 0,
        ;
    }
}

} // verus!
