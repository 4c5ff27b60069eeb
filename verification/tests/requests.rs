use cri_headings::api::Page;
use cri_headings::requests_to_make;

fn page_with(count: u16, page_size: u16) -> Page {
    Page { count, page_size, next_page: Some(String::new()), granules: Vec::new() }
}

#[test]
fn test_requests_to_make_1000() {
    let page = page_with(14853, 1000);
    let expected = 15;
    let result = requests_to_make(&page);
    assert_eq!(expected, result);
}

#[test]
fn test_requests_to_make_100() {
    let page = page_with(14853, 100);
    let expected = 149;
    let result = requests_to_make(&page);
    assert_eq!(expected, result);
}

#[test]
fn test_requests_to_make_10() {
    let page = page_with(14853, 10);
    let expected = 1486;
    let result = requests_to_make(&page);
    assert_eq!(expected, result);
}

#[test]
fn utils_test_requests_to_make_1000() {
    let page = page_with(14853, 1000);
    let expected = 15;
    let result = cri_headings::utils::requests_to_make(&page);
    assert_eq!(expected, result);
}

#[test]
fn utils_test_requests_to_make_100() {
    let page = page_with(14853, 100);
    let expected = 149;
    let result = cri_headings::utils::requests_to_make(&page);
    assert_eq!(expected, result);
}

#[test]
fn utils_test_requests_to_make_10() {
    let page = page_with(14853, 10);
    let expected = 1486;
    let result = cri_headings::utils::requests_to_make(&page);
    assert_eq!(expected, result);
}

#[test]
fn test_requests_to_make_zero_count() {
    let page = page_with(0, 1000);
    assert_eq!(0, requests_to_make(&page));
}

#[test]
fn test_requests_to_make_exact_multiple() {
    let page = page_with(2000, 1000);
    assert_eq!(2, requests_to_make(&page));
}

#[test]
fn test_current_year_matches_clock() {
    let expected = time::OffsetDateTime::now_utc().year().to_string();
    assert_eq!(expected, cri_headings::current_year());
}
