use vstd::prelude::*;

use crate::api::Heading;
use crate::api::Page;
use crate::api::all_titles;
use crate::api::page_titles;
use crate::csvfmt::csv_encoding;
use crate::csvfmt::csv_header;
use crate::csvfmt::csv_row;
use crate::csvfmt::csv_rows;
use crate::csvfmt::heading_row;
use crate::csvfmt::lemma_csv_round_trip;
use crate::csvfmt::parse_csv;
use crate::textfmt::lemma_text_round_trip;
use crate::textfmt::split_lines;
use crate::textfmt::text_encoding;
use crate::textfmt::text_record;

verus! {

/// The two interchangeable output formats, chosen once per run.
#[derive(Clone, Copy, Debug, PartialEq, Eq, Structural)]
pub enum SinkFormat {
    /// One line per record, holding only the title.
    Text,
    /// One delimited row per record: title and year, after a header row.
    Csv,
}

/// What a record adds to the sink's text.
pub open spec fn record_encoding(format: SinkFormat, title: Seq<char>, year: Seq<char>) -> Seq<
    char,
> {
    match format {
        SinkFormat::Text => text_record(title),
        SinkFormat::Csv => csv_row(title, year),
    }
}

/// What a fresh sink holds before the first record.
pub open spec fn sink_prefix(format: SinkFormat) -> Seq<char> {
    match format {
        SinkFormat::Text => Seq::empty(),
        SinkFormat::Csv => csv_header(),
    }
}

/// What a title sequence adds to the sink's text, in order.
pub open spec fn records_encoding(
    format: SinkFormat,
    year: Seq<char>,
    titles: Seq<Seq<char>>,
) -> Seq<char>
    decreases titles.len(),
{
    if titles.len() == 0 {
        Seq::empty()
    } else {
        record_encoding(format, titles.first(), year) + records_encoding(
            format,
            year,
            titles.drop_first(),
        )
    }
}

proof fn lemma_records_encoding_push(
    format: SinkFormat,
    year: Seq<char>,
    titles: Seq<Seq<char>>,
    t: Seq<char>,
)
    ensures
        records_encoding(format, year, titles.push(t)) == records_encoding(format, year, titles)
            + record_encoding(format, t, year),
    decreases titles.len(),
{
    if titles.len() == 0 {
        assert(titles.push(t) =~~= seq![t]);
        assert(seq![t].first() == t);
        assert(seq![t].drop_first() =~~= Seq::<Seq<char>>::empty());
        assert(records_encoding(format, year, seq![t]) == record_encoding(format, t, year)
            + records_encoding(format, year, Seq::<Seq<char>>::empty()));
        assert(record_encoding(format, t, year) + Seq::<char>::empty() =~= record_encoding(
            format,
            t,
            year,
        ));
        assert(records_encoding(format, year, titles) + record_encoding(format, t, year)
            =~= record_encoding(format, t, year));
    } else {
        assert(titles.push(t).first() == titles.first());
        assert(titles.push(t).drop_first() =~~= titles.drop_first().push(t));
        assert(records_encoding(format, year, titles.push(t)) == record_encoding(
            format,
            titles.first(),
            year,
        ) + records_encoding(format, year, titles.drop_first().push(t)));
        lemma_records_encoding_push(format, year, titles.drop_first(), t);
        assert(record_encoding(format, titles.first(), year) + (records_encoding(
            format,
            year,
            titles.drop_first(),
        ) + record_encoding(format, t, year)) =~= (record_encoding(format, titles.first(), year)
            + records_encoding(format, year, titles.drop_first())) + record_encoding(
            format,
            t,
            year,
        ));
    }
}

proof fn lemma_records_encoding_concat(
    format: SinkFormat,
    year: Seq<char>,
    a: Seq<Seq<char>>,
    b: Seq<Seq<char>>,
)
    ensures
        records_encoding(format, year, a + b) == records_encoding(format, year, a)
            + records_encoding(format, year, b),
    decreases a.len(),
{
    if a.len() == 0 {
        assert(a + b =~~= b);
        assert(records_encoding(format, year, a) + records_encoding(format, year, b)
            =~= records_encoding(format, year, b));
    } else {
        assert((a + b).first() == a.first());
        assert((a + b).drop_first() =~~= a.drop_first() + b);
        lemma_records_encoding_concat(format, year, a.drop_first(), b);
        assert(record_encoding(format, a.first(), year) + (records_encoding(
            format,
            year,
            a.drop_first(),
        ) + records_encoding(format, year, b)) =~= (record_encoding(format, a.first(), year)
            + records_encoding(format, year, a.drop_first())) + records_encoding(format, year, b));
    }
}

/// One year's output destination: the format, the year every structured
/// row repeats, and the text written so far. Records arrive one at a time
/// and are never reordered, filtered or dropped.
pub struct RecordSink {
    /// The format chosen for this run.
    pub format: SinkFormat,
    /// The year this sink's job is fetching.
    pub year: String,
    /// Everything written so far.
    pub buf: String,
}

impl RecordSink {
    /// A sink holding only its format's prefix: nothing for text, the
    /// header row for the structured format.
    pub fn new(format: SinkFormat, year: &str) -> (s: RecordSink)
        ensures
            s.format == format,
            s.year@ == year@,
            s.buf@ == sink_prefix(format),
    {
        let mut buf = String::new();
        match format {
            SinkFormat::Text => {},
            SinkFormat::Csv => {
                buf.append("title,year\n");
                proof {
                    reveal_strlit("title,year\n");
                    assert(buf@ =~= csv_header());
                }
            },
        }
        RecordSink { format, year: year.to_owned(), buf }
    }

    /// Append one record: a title line, or a `title,year` row.
    pub fn write_record(&mut self, title: &str)
        ensures
            final(self).format == old(self).format,
            final(self).year == old(self).year,
            final(self).buf@ == old(self).buf@ + record_encoding(
                old(self).format,
                title@,
                old(self).year@,
            ),
    {
        match self.format {
            SinkFormat::Text => {
                self.buf.append(title);
                self.buf.append("\n");
                proof {
                    reveal_strlit("\n");
                    assert(self.buf@ =~= old(self).buf@ + text_record(title@));
                }
            },
            SinkFormat::Csv => {
                let heading = Heading { title: title.to_owned(), year: self.year.clone() };
                let row = heading_row(&heading);
                self.buf.append(row.as_str());
            },
        }
    }

    /// Append every record of one page, in array order.
    pub fn write_page(&mut self, page: &Page)
        ensures
            final(self).format == old(self).format,
            final(self).year == old(self).year,
            final(self).buf@ == old(self).buf@ + records_encoding(
                old(self).format,
                old(self).year@,
                page_titles(*page),
            ),
    {
        let ghost titles = page_titles(*page);
        let mut i: usize = 0;
        proof {
            assert(titles.take(0) =~~= Seq::<Seq<char>>::empty());
        }
        while i < page.granules.len()
            invariant
                self.format == old(self).format,
                self.year == old(self).year,
                titles == page_titles(*page),
                titles.len() == page.granules@.len(),
                i <= page.granules@.len(),
                self.buf@ == old(self).buf@ + records_encoding(
                    self.format,
                    self.year@,
                    titles.take(i as int),
                ),
            decreases page.granules@.len() - i,
        {
            self.write_record(page.granules[i].title.as_str());
            proof {
                assert(titles[i as int] == page.granules@[i as int].title@);
                assert(titles.take(i + 1) =~~= titles.take(i as int).push(titles[i as int]));
                lemma_records_encoding_push(
                    self.format,
                    self.year@,
                    titles.take(i as int),
                    titles[i as int],
                );
            }
            i = i + 1;
        }
        proof {
            assert(titles.take(page.granules@.len() as int) =~~= titles);
        }
    }

    /// Append every record of a run of pages, first page first.
    pub fn write_pages(&mut self, pages: &Vec<Page>)
        ensures
            final(self).format == old(self).format,
            final(self).year == old(self).year,
            final(self).buf@ == old(self).buf@ + records_encoding(
                old(self).format,
                old(self).year@,
                all_titles(pages@),
            ),
    {
        let mut i: usize = 0;
        proof {
            assert(pages@.take(0) =~~= Seq::<Page>::empty());
        }
        while i < pages.len()
            invariant
                self.format == old(self).format,
                self.year == old(self).year,
                i <= pages@.len(),
                self.buf@ == old(self).buf@ + records_encoding(
                    self.format,
                    self.year@,
                    all_titles(pages@.take(i as int)),
                ),
            decreases pages@.len() - i,
        {
            self.write_page(&pages[i]);
            proof {
                assert(pages@.take(i + 1) =~~= pages@.take(i as int).push(pages@[i as int]));
                crate::api::lemma_all_titles_push(pages@.take(i as int), pages@[i as int]);
                lemma_records_encoding_concat(
                    self.format,
                    self.year@,
                    all_titles(pages@.take(i as int)),
                    page_titles(pages@[i as int]),
                );
            }
            i = i + 1;
        }
        proof {
            assert(pages@.take(pages@.len() as int) =~~= pages@);
        }
    }
}

proof fn lemma_records_encoding_text(year: Seq<char>, titles: Seq<Seq<char>>)
    ensures
        records_encoding(SinkFormat::Text, year, titles) == text_encoding(titles),
    decreases titles.len(),
{
    if titles.len() > 0 {
        lemma_records_encoding_text(year, titles.drop_first());
    }
}

/// Each title paired with the one year a job repeats on every row.
pub open spec fn pair_with_year(titles: Seq<Seq<char>>, year: Seq<char>) -> Seq<
    (Seq<char>, Seq<char>),
> {
    titles.map_values(|t: Seq<char>| (t, year))
}

proof fn lemma_records_encoding_csv(year: Seq<char>, titles: Seq<Seq<char>>)
    ensures
        records_encoding(SinkFormat::Csv, year, titles) == csv_rows(pair_with_year(titles, year)),
    decreases titles.len(),
{
    let rows = pair_with_year(titles, year);
    if titles.len() == 0 {
        assert(rows.len() == 0);
    } else {
        assert(rows.first() == (titles.first(), year));
        assert(rows.drop_first() =~~= pair_with_year(titles.drop_first(), year));
        lemma_records_encoding_csv(year, titles.drop_first());
    }
}

/// Law: the text sink round-trips. For titles that contain no newline,
/// splitting the sink's final contents on newline recovers exactly the
/// titles written, in order; an empty title comes back as an empty line.
pub proof fn lemma_text_sink_round_trip(titles: Seq<Seq<char>>, year: Seq<char>)
    requires
        forall|i: int, j: int|
            0 <= i < titles.len() && 0 <= j < titles[i].len() ==> titles[i][j] != '\n',
    ensures
        split_lines(sink_prefix(SinkFormat::Text) + records_encoding(SinkFormat::Text, year, titles))
            == titles,
{
    lemma_records_encoding_text(year, titles);
    assert(sink_prefix(SinkFormat::Text) + text_encoding(titles) =~= text_encoding(titles));
    lemma_text_round_trip(titles);
}

/// Law: the structured sink round-trips. Parsing the sink's final contents
/// back as delimited rows recovers exactly the titles written, in order,
/// each paired with the job's year, whatever characters they hold.
pub proof fn lemma_csv_sink_round_trip(titles: Seq<Seq<char>>, year: Seq<char>)
    ensures
        parse_csv(sink_prefix(SinkFormat::Csv) + records_encoding(SinkFormat::Csv, year, titles))
            == Some(pair_with_year(titles, year)),
{
    lemma_records_encoding_csv(year, titles);
    assert(sink_prefix(SinkFormat::Csv) + records_encoding(SinkFormat::Csv, year, titles)
        =~= csv_encoding(pair_with_year(titles, year)));
    lemma_csv_round_trip(pair_with_year(titles, year));
}

} // verus!
