use vstd::prelude::*;

use std::sync::Arc;

use crate::api::Page;
use crate::args::Args;
use crate::error::FetchError;

verus! {

/// First-page request URLs start with this; the year follows directly.
pub open spec fn base_url_spec() -> Seq<char> {
    "https://api.govinfo.gov/packages/CRI-"@
}

/// The first-page request URL for one year, with the year token it was
/// built from: `{base}{year}/granules?offsetMark=*&pageSize={n}&api_key={key}`.
pub fn build_url(year: &String, args: Arc<Args>) -> (r: (String, String))
    ensures
        r.0@ == year@,
        r.1@ == base_url_spec() + year@ + "/granules?offsetMark=*&pageSize="@ + args.page_size@
            + "&api_key="@ + args.api_key@,
{
    let mut url = String::new();
    url.append("https://api.govinfo.gov/packages/CRI-");
    url.append(year.as_str());
    url.append("/granules?offsetMark=*&pageSize=");
    url.append(args.page_size.as_str());
    url.append("&api_key=");
    url.append(args.api_key.as_str());
    proof {
        assert(url@ =~= base_url_spec() + year@ + "/granules?offsetMark=*&pageSize="@
            + args.page_size@ + "&api_key="@ + args.api_key@);
    }
    (year.clone(), url)
}

/// Where one year's output lands: `CRI-{year}_headings.csv` for the
/// structured format, `.txt` for plain text, under the output directory.
pub fn output_filename(output_dir: &String, year: &String, csv: bool) -> (r: String)
    ensures
        csv ==> r@ == output_dir@ + "/CRI-"@ + year@ + "_headings.csv"@,
        !csv ==> r@ == output_dir@ + "/CRI-"@ + year@ + "_headings.txt"@,
{
    let mut name = output_dir.clone();
    name.append("/CRI-");
    name.append(year.as_str());
    if csv {
        name.append("_headings.csv");
        proof {
            assert(name@ =~= output_dir@ + "/CRI-"@ + year@ + "_headings.csv"@);
        }
    } else {
        name.append("_headings.txt");
        proof {
            assert(name@ =~= output_dir@ + "/CRI-"@ + year@ + "_headings.txt"@);
        }
    }
    name
}

/// The notice a year with no records prints in place of a file.
pub fn no_entries_notice(year: &String) -> (r: String)
    ensures
        r@ == "No CRI entries for "@ + year@,
{
    let mut s = String::new();
    s.append("No CRI entries for ");
    s.append(year.as_str());
    proof {
        assert(s@ =~= "No CRI entries for "@ + year@);
    }
    s
}

/// True exactly when the response status is HTTP 429, Too Many Requests.
pub fn is_rate_limited(status: u16) -> (r: bool)
    ensures
        r == (status == 429),
{
    status == 429
}

/// The character for one decimal digit.
pub open spec fn digit_char(d: nat) -> char {
    if d == 0 {
        '0'
    } else if d == 1 {
        '1'
    } else if d == 2 {
        '2'
    } else if d == 3 {
        '3'
    } else if d == 4 {
        '4'
    } else if d == 5 {
        '5'
    } else if d == 6 {
        '6'
    } else if d == 7 {
        '7'
    } else if d == 8 {
        '8'
    } else {
        '9'
    }
}

/// The decimal digit characters of `n`, most significant first.
pub open spec fn decimal_digits(n: nat) -> Seq<char>
    decreases n,
{
    if n < 10 {
        seq![digit_char(n)]
    } else {
        decimal_digits(n / 10) + seq![digit_char(n % 10)]
    }
}

/// Decimal rendering of `y`: a minus sign for negative values, then digits.
pub open spec fn decimal_string(y: int) -> Seq<char> {
    if y < 0 {
        seq!['-'] + decimal_digits((-y) as nat)
    } else {
        decimal_digits(y as nat)
    }
}

fn digit_str(d: u16) -> (r: &'static str)
    requires
        d < 10,
    ensures
        r@ == seq![digit_char(d as nat)],
{
    if d == 0 {
        proof {
            reveal_strlit("0");
            assert("0"@ =~= seq![digit_char(0)]);
        }
        "0"
    } else if d == 1 {
        proof {
            reveal_strlit("1");
            assert("1"@ =~= seq![digit_char(1)]);
        }
        "1"
    } else if d == 2 {
        proof {
            reveal_strlit("2");
            assert("2"@ =~= seq![digit_char(2)]);
        }
        "2"
    } else if d == 3 {
        proof {
            reveal_strlit("3");
            assert("3"@ =~= seq![digit_char(3)]);
        }
        "3"
    } else if d == 4 {
        proof {
            reveal_strlit("4");
            assert("4"@ =~= seq![digit_char(4)]);
        }
        "4"
    } else if d == 5 {
        proof {
            reveal_strlit("5");
            assert("5"@ =~= seq![digit_char(5)]);
        }
        "5"
    } else if d == 6 {
        proof {
            reveal_strlit("6");
            assert("6"@ =~= seq![digit_char(6)]);
        }
        "6"
    } else if d == 7 {
        proof {
            reveal_strlit("7");
            assert("7"@ =~= seq![digit_char(7)]);
        }
        "7"
    } else if d == 8 {
        proof {
            reveal_strlit("8");
            assert("8"@ =~= seq![digit_char(8)]);
        }
        "8"
    } else {
        proof {
            reveal_strlit("9");
            assert("9"@ =~= seq![digit_char(d as nat)]);
        }
        "9"
    }
}

fn push_decimal_digits(s: &mut String, n: u16)
    ensures
        final(s)@ == old(s)@ + decimal_digits(n as nat),
    decreases n,
{
    let ghost s0 = old(s)@;
    if n >= 10 {
        push_decimal_digits(s, n / 10);
    }
    s.append(digit_str(n % 10));
    proof {
        if n < 10 {
            assert(n % 10 == n);
        } else {
            assert(s0 + decimal_digits((n / 10) as nat) + seq![digit_char((n % 10) as nat)] =~= s0
                + decimal_digits(n as nat));
        }
    }
}

/// The decimal rendering of a year, a leading minus sign included.
pub fn year_string(y: i32) -> (r: String)
    requires
        -9999 <= y <= 9999,
    ensures
        r@ == decimal_string(y as int),
{
    let mut s = String::new();
    if y < 0 {
        s.append("-");
        proof {
            reveal_strlit("-");
            assert(s@ =~= seq!['-']);
        }
        let m: u16 = (-y) as u16;
        push_decimal_digits(&mut s, m);
        proof {
            assert(seq!['-'] + decimal_digits(m as nat) =~= decimal_string(y as int));
        }
    } else {
        push_decimal_digits(&mut s, y as u16);
        proof {
            assert(Seq::<char>::empty() + decimal_digits(y as nat) =~= decimal_string(y as int));
        }
    }
    s
}

/// Relies on time::OffsetDateTime::now_utc and OffsetDateTime::year: the
/// clock's current UTC year, which the crate keeps within -9999..=9999
/// unless its large-dates feature is enabled (here it is not).
#[verifier::external_body]
fn now_utc_year() -> (y: i32)
    ensures
        -9999 <= y <= 9999,
{
    time::OffsetDateTime::now_utc().year()
}

/// The current UTC calendar year, rendered in decimal.
pub fn current_year() -> (r: String)
    ensures
        exists|y: int| -9999 <= y <= 9999 && r@ == decimal_string(y),
{
    let y = now_utc_year();
    let r = year_string(y);
    proof {
        assert(-9999 <= y as int <= 9999 && r@ == decimal_string(y as int));
    }
    r
}

/// An ASCII decimal digit.
pub open spec fn is_digit_byte(b: u8) -> bool {
    48 <= b <= 57
}

/// Value of a sequence of ASCII decimal digits, most significant first.
pub open spec fn digits_value(s: Seq<u8>) -> int
    decreases s.len(),
{
    if s.len() == 0 {
        0
    } else {
        digits_value(s.drop_last()) * 10 + (s.last() - 48)
    }
}

/// The byte strings accepted as a rate-limit count: one or more ASCII
/// digits whose value fits in a `u16`.
pub open spec fn is_u16_decimal(s: Seq<u8>) -> bool {
    &&& s.len() > 0
    &&& forall|i: int| 0 <= i < s.len() ==> is_digit_byte(s[i])
    &&& digits_value(s) <= u16::MAX
}

proof fn lemma_digits_value_nonneg(s: Seq<u8>)
    requires
        forall|i: int| 0 <= i < s.len() ==> is_digit_byte(s[i]),
    ensures
        digits_value(s) >= 0,
    decreases s.len(),
{
    if s.len() > 0 {
        lemma_digits_value_nonneg(s.drop_last());
    }
}

proof fn lemma_digits_value_take_le(s: Seq<u8>, i: int)
    requires
        0 <= i <= s.len(),
        forall|j: int| 0 <= j < s.len() ==> is_digit_byte(s[j]),
    ensures
        digits_value(s.take(i)) <= digits_value(s),
    decreases s.len() - i,
{
    if i < s.len() {
        assert(s.take(i + 1).drop_last() =~= s.take(i));
        lemma_digits_value_nonneg(s.take(i));
        lemma_digits_value_take_le(s, i + 1);
    } else {
        assert(s.take(i) =~= s);
    }
}

/// The server-reported request quota, read from the bytes of the
/// `x-ratelimit-remaining` header; `None` when the header was absent.
pub fn remaining_requests(header: Option<&Vec<u8>>) -> (r: Result<u16, FetchError>)
    ensures
        match r {
            Ok(v) => header matches Some(h) && is_u16_decimal(h@) && v == digits_value(h@),
            Err(e) => (header is None && e == FetchError::MissingHeader) || (
            header matches Some(h) && !is_u16_decimal(h@) && e == FetchError::MalformedHeader),
        },
{
    let bytes = match header {
        Some(b) => b,
        None => {
            return Err(FetchError::MissingHeader);
        },
    };
    if bytes.len() == 0 {
        return Err(FetchError::MalformedHeader);
    }
    let mut acc: u32 = 0;
    let mut i: usize = 0;
    while i < bytes.len()
        invariant
            header == Some(bytes),
            bytes@.len() > 0,
            0 <= i <= bytes@.len(),
            forall|j: int| 0 <= j < i ==> is_digit_byte(bytes@[j]),
            acc <= u16::MAX,
            acc == digits_value(bytes@.take(i as int)),
        decreases bytes@.len() - i,
    {
        let b = bytes[i];
        if b < 48 || b > 57 {
            proof {
                assert(!is_digit_byte(bytes@[i as int]));
                assert(!is_u16_decimal(bytes@));
            }
            return Err(FetchError::MalformedHeader);
        }
        let next: u32 = acc * 10 + (b - 48) as u32;
        proof {
            assert(bytes@.take(i + 1).drop_last() =~= bytes@.take(i as int));
            assert(bytes@.take(i + 1).last() == bytes@[i as int]);
        }
        if next > 65535 {
            proof {
                assert(digits_value(bytes@.take(i + 1)) == digits_value(bytes@.take(i as int)) * 10
                    + (bytes@[i as int] - 48));
                if forall|j: int| 0 <= j < bytes@.len() ==> is_digit_byte(bytes@[j]) {
                    lemma_digits_value_take_le(bytes@, i + 1);
                    assert(digits_value(bytes@) >= next > u16::MAX);
                }
                assert(!is_u16_decimal(bytes@));
            }
            return Err(FetchError::MalformedHeader);
        }
        acc = next;
        i = i + 1;
    }
    proof {
        assert(bytes@.take(bytes@.len() as int) =~= bytes@);
    }
    Ok(acc as u16)
}

/// Number of page requests needed to retrieve `count` records at `page_size`
/// records per request, the first request included: the ceiling of
/// `count / page_size`.
pub open spec fn requests_needed(count: int, page_size: int) -> int
    recommends
        page_size > 0,
{
    if count % page_size == 0 {
        count / page_size
    } else {
        count / page_size + 1
    }
}

/// How many page requests the whole year takes at the page size this page
/// reports, the request that produced `page` included.
pub fn requests_to_make(page: &Page) -> (r: u16)
    requires
        page.page_size > 0,
    ensures
        r == requests_needed(page.count as int, page.page_size as int),
{
    let quotient = page.count / page.page_size;
    match page.count % page.page_size {
        0 => quotient,
        _ => {
            proof {
                assert(page.count / page.page_size + 1 <= u16::MAX) by (nonlinear_arith)
                    requires
                        page.page_size >= 1,
                        page.count % page.page_size != 0,
                        page.count <= u16::MAX,
                ;
            }
            quotient + 1
        },
    }
}

} // verus!
