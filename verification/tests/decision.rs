use cri_headings::api::Granule;
use cri_headings::api::Page;
use cri_headings::error::FetchError;
use cri_headings::first_page_decision;
use cri_headings::is_rate_limited;
use cri_headings::remaining_requests;
use cri_headings::Decision;

fn page_with(count: u16, page_size: u16) -> Page {
    Page {
        count,
        page_size,
        next_page: None,
        granules: vec![Granule { title: String::from("one") }],
    }
}

#[test]
fn test_is_rate_limited() {
    assert!(is_rate_limited(429));
    assert!(!is_rate_limited(200));
    assert!(!is_rate_limited(503));
}

#[test]
fn test_remaining_requests_ok() {
    let header = b"123".to_vec();
    assert_eq!(Ok(123), remaining_requests(Some(&header)));
}

#[test]
fn test_remaining_requests_zero() {
    let header = b"0".to_vec();
    assert_eq!(Ok(0), remaining_requests(Some(&header)));
}

#[test]
fn test_remaining_requests_missing() {
    assert_eq!(Err(FetchError::MissingHeader), remaining_requests(None));
}

#[test]
fn test_remaining_requests_not_a_number() {
    let header = b"12a".to_vec();
    assert_eq!(Err(FetchError::MalformedHeader), remaining_requests(Some(&header)));
}

#[test]
fn test_remaining_requests_empty() {
    let header = b"".to_vec();
    assert_eq!(Err(FetchError::MalformedHeader), remaining_requests(Some(&header)));
}

#[test]
fn test_remaining_requests_too_large() {
    let header = b"65536".to_vec();
    assert_eq!(Err(FetchError::MalformedHeader), remaining_requests(Some(&header)));
    let max = b"65535".to_vec();
    assert_eq!(Ok(65535), remaining_requests(Some(&max)));
}

#[test]
fn test_decision_rate_limited_ignores_body() {
    // A 429 status aborts whatever the rest of the response holds.
    let header = b"1000".to_vec();
    let page = page_with(14853, 1000);
    let d = first_page_decision(429, Some(&header), Some(&page));
    assert_eq!(Decision::Reject(FetchError::RateLimited), d);
    let d = first_page_decision(429, None, None);
    assert_eq!(Decision::Reject(FetchError::RateLimited), d);
}

#[test]
fn test_decision_missing_header() {
    let page = page_with(10, 1000);
    let d = first_page_decision(200, None, Some(&page));
    assert_eq!(Decision::Reject(FetchError::MissingHeader), d);
}

#[test]
fn test_decision_malformed_header() {
    let header = b"soon".to_vec();
    let page = page_with(10, 1000);
    let d = first_page_decision(200, Some(&header), Some(&page));
    assert_eq!(Decision::Reject(FetchError::MalformedHeader), d);
}

#[test]
fn test_decision_decode_error() {
    let header = b"1000".to_vec();
    let d = first_page_decision(200, Some(&header), None);
    assert_eq!(Decision::Reject(FetchError::DecodeError), d);
}

#[test]
fn test_decision_quota_exceeded() {
    // 14853 records at 1000 per page need 15 requests; 14 remain.
    let header = b"14".to_vec();
    let page = page_with(14853, 1000);
    let d = first_page_decision(200, Some(&header), Some(&page));
    assert_eq!(Decision::Reject(FetchError::QuotaExceeded), d);
}

#[test]
fn test_decision_quota_just_enough() {
    let header = b"15".to_vec();
    let page = page_with(14853, 1000);
    let d = first_page_decision(200, Some(&header), Some(&page));
    assert_eq!(Decision::Proceed, d);
}

#[test]
fn test_decision_no_entries() {
    let header = b"100".to_vec();
    let page = page_with(0, 1000);
    let d = first_page_decision(200, Some(&header), Some(&page));
    assert_eq!(Decision::NoEntries, d);
}

#[test]
fn test_error_messages() {
    assert_eq!(
        "Status Code 429: Too many requests. Wait one hour.",
        FetchError::RateLimited.message()
    );
    assert_eq!(
        "Not enough requests remaining to complete task. Wait one hour.",
        FetchError::QuotaExceeded.message()
    );
    assert_eq!("No matching header found", FetchError::MissingHeader.message());
    assert_eq!(
        "Could not create or write the output file",
        FetchError::IoError.message()
    );
    assert_eq!(
        "Request failed before a response arrived",
        FetchError::NetworkError.message()
    );
}
