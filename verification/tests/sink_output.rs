use std::sync::Arc;

use cri_headings::api::Granule;
use cri_headings::api::Page;
use cri_headings::args::Args;
use cri_headings::build_url;
use cri_headings::next_page_url;
use cri_headings::RecordSink;
use cri_headings::SinkFormat;

fn granules(titles: &[&str]) -> Vec<Granule> {
    titles.iter().map(|t| Granule { title: t.to_string() }).collect()
}

#[test]
fn test_build_url() {
    let args = Args {
        years: vec![String::from("1999")],
        page_size: String::from("1000"),
        output_dir: String::from("."),
        api_key: String::from("DEMO_KEY"),
        csv: false,
    };
    let (year, url) = build_url(&String::from("1999"), Arc::new(args));
    assert_eq!("1999", year);
    assert_eq!(
        "https://api.govinfo.gov/packages/CRI-1999/granules?offsetMark=*&pageSize=1000&api_key=DEMO_KEY",
        url
    );
}

#[test]
fn test_next_page_url() {
    let cursor = String::from("https://api.govinfo.gov/packages/CRI-1999/granules?offsetMark=abc");
    let url = next_page_url(&cursor, &String::from("DEMO_KEY"));
    assert_eq!(
        "https://api.govinfo.gov/packages/CRI-1999/granules?offsetMark=abc&api_key=DEMO_KEY",
        url
    );
}

#[test]
fn test_output_filename() {
    let dir = String::from("out");
    let year = String::from("2005");
    assert_eq!("out/CRI-2005_headings.csv", cri_headings::output_filename(&dir, &year, true));
    assert_eq!("out/CRI-2005_headings.txt", cri_headings::output_filename(&dir, &year, false));
}

#[test]
fn test_no_entries_notice() {
    assert_eq!(
        "No CRI entries for 1873",
        cri_headings::no_entries_notice(&String::from("1873"))
    );
}

#[test]
fn test_text_sink_lines_in_order() {
    let mut sink = RecordSink::new(SinkFormat::Text, "2020");
    sink.write_record("first");
    sink.write_record("");
    sink.write_record("third");
    assert_eq!("first\n\nthird\n", sink.buf);
}

#[test]
fn test_text_sink_round_trip() {
    // Splitting on newline recovers the titles, the empty one as an empty line.
    let titles = ["alpha", "", "gamma, with comma"];
    let mut sink = RecordSink::new(SinkFormat::Text, "2020");
    for t in titles {
        sink.write_record(t);
    }
    let recovered: Vec<&str> = sink.buf.split('\n').collect();
    // The final newline yields one trailing empty piece beyond the records.
    assert_eq!(vec!["alpha", "", "gamma, with comma", ""], recovered);
    assert_eq!(&recovered[..recovered.len() - 1], &titles);
}

#[test]
fn test_csv_sink_exact_output() {
    let mut sink = RecordSink::new(SinkFormat::Csv, "2020");
    sink.write_record("plain");
    sink.write_record("has,comma");
    sink.write_record("has\"quote");
    sink.write_record("");
    assert_eq!(
        "title,year\nplain,2020\n\"has,comma\",2020\n\"has\"\"quote\",2020\n,2020\n",
        sink.buf
    );
}

#[test]
fn test_csv_sink_round_trip() {
    // The structured output, parsed back as delimited rows, recovers every
    // (title, year) pair, whatever characters the titles hold.
    let titles = ["plain", "has,comma", "has\"quote", "multi\nline", ""];
    let mut sink = RecordSink::new(SinkFormat::Csv, "1987");
    for t in titles {
        sink.write_record(t);
    }
    let mut reader = csv::ReaderBuilder::new().has_headers(true).from_reader(
        sink.buf.as_bytes(),
    );
    let mut rows: Vec<(String, String)> = Vec::new();
    for record in reader.records() {
        let record = record.expect("row should parse");
        assert_eq!(2, record.len());
        rows.push((record[0].to_string(), record[1].to_string()));
    }
    let expected: Vec<(String, String)> =
        titles.iter().map(|t| (t.to_string(), String::from("1987"))).collect();
    assert_eq!(expected, rows);
}

#[test]
fn test_write_pages_totals() {
    // Three pages carrying count = 5 records in all: every record lands in
    // the sink, first page first, array order within each page.
    let pages = vec![
        Page {
            count: 5,
            page_size: 2,
            next_page: Some(String::from("cursor-1")),
            granules: granules(&["a", "b"]),
        },
        Page {
            count: 5,
            page_size: 2,
            next_page: Some(String::from("cursor-2")),
            granules: granules(&["c", "d"]),
        },
        Page { count: 5, page_size: 2, next_page: None, granules: granules(&["e"]) },
    ];
    let mut sink = RecordSink::new(SinkFormat::Text, "2020");
    sink.write_pages(&pages);
    assert_eq!("a\nb\nc\nd\ne\n", sink.buf);
    let written = sink.buf.split_terminator('\n').count();
    assert_eq!(5, written);
}

#[test]
fn test_write_page_appends() {
    let page = Page {
        count: 2,
        page_size: 10,
        next_page: None,
        granules: granules(&["x", "y"]),
    };
    let mut sink = RecordSink::new(SinkFormat::Csv, "1999");
    sink.write_page(&page);
    assert_eq!("title,year\nx,1999\ny,1999\n", sink.buf);
}
