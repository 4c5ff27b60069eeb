use vstd::prelude::*;

use crate::api::Heading;

verus! {

/// Characters that force a field into quotes: the delimiter, the quote
/// itself, and line breaks.
pub open spec fn is_special_char(c: char) -> bool {
    c == ',' || c == '"' || c == '\n' || c == '\r'
}

/// A field is quoted only when leaving it bare would break the row shape.
pub open spec fn field_needs_quoting(f: Seq<char>) -> bool {
    exists|j: int| 0 <= j < f.len() && is_special_char(f[j])
}

/// One field character inside quotes: a quote is doubled, the rest stand.
pub open spec fn quoted_char(c: char) -> Seq<char> {
    if c == '"' {
        seq!['"', '"']
    } else {
        seq![c]
    }
}

/// The body of a quoted field: every quote doubled.
pub open spec fn doubled_quotes(f: Seq<char>) -> Seq<char>
    decreases f.len(),
{
    if f.len() == 0 {
        Seq::empty()
    } else {
        quoted_char(f.first()) + doubled_quotes(f.drop_first())
    }
}

/// A field as it stands in a row: bare, or quoted with its quotes doubled.
pub open spec fn encoded_field(f: Seq<char>) -> Seq<char> {
    if field_needs_quoting(f) {
        seq!['"'] + doubled_quotes(f) + seq!['"']
    } else {
        f
    }
}

/// One delimited row: title field, comma, year field, newline.
pub open spec fn csv_row(title: Seq<char>, year: Seq<char>) -> Seq<char> {
    encoded_field(title) + seq![','] + encoded_field(year) + seq!['\n']
}

/// The header row that precedes the records.
pub open spec fn csv_header() -> Seq<char> {
    seq!['t', 'i', 't', 'l', 'e', ',', 'y', 'e', 'a', 'r', '\n']
}

/// The rows after the header, one per record, in order.
pub open spec fn csv_rows(rows: Seq<(Seq<char>, Seq<char>)>) -> Seq<char>
    decreases rows.len(),
{
    if rows.len() == 0 {
        Seq::empty()
    } else {
        csv_row(rows.first().0, rows.first().1) + csv_rows(rows.drop_first())
    }
}

/// The whole structured output for a row sequence.
pub open spec fn csv_encoding(rows: Seq<(Seq<char>, Seq<char>)>) -> Seq<char> {
    csv_header() + csv_rows(rows)
}

/// Read a quoted field after its opening quote: a doubled quote stands for
/// one quote character, a lone quote closes the field. `None` when the
/// text ends before the field closes.
pub open spec fn parse_quoted_rest(s: Seq<char>) -> Option<(Seq<char>, Seq<char>)>
    decreases s.len(),
{
    if s.len() == 0 {
        None
    } else if s.first() == '"' {
        if s.len() >= 2 && s[1] == '"' {
            match parse_quoted_rest(s.skip(2)) {
                Some(p) => Some((seq!['"'] + p.0, p.1)),
                None => None,
            }
        } else {
            Some((Seq::empty(), s.drop_first()))
        }
    } else {
        match parse_quoted_rest(s.drop_first()) {
            Some(p) => Some((seq![s.first()] + p.0, p.1)),
            None => None,
        }
    }
}

/// Read a bare field: everything up to the next delimiter or line break.
pub open spec fn parse_unquoted(s: Seq<char>) -> (Seq<char>, Seq<char>)
    decreases s.len(),
{
    if s.len() == 0 {
        (Seq::empty(), Seq::empty())
    } else if s.first() == ',' || s.first() == '\n' {
        (Seq::empty(), s)
    } else {
        let p = parse_unquoted(s.drop_first());
        (seq![s.first()] + p.0, p.1)
    }
}

/// Read one field, quoted or bare.
pub open spec fn parse_field(s: Seq<char>) -> Option<(Seq<char>, Seq<char>)> {
    if s.len() > 0 && s.first() == '"' {
        parse_quoted_rest(s.drop_first())
    } else {
        Some(parse_unquoted(s))
    }
}

/// Read one row: two fields around a comma, closed by a newline.
pub open spec fn parse_row(s: Seq<char>) -> Option<((Seq<char>, Seq<char>), Seq<char>)> {
    match parse_field(s) {
        Some(p1) => {
            if p1.1.len() > 0 && p1.1.first() == ',' {
                match parse_field(p1.1.drop_first()) {
                    Some(p2) => {
                        if p2.1.len() > 0 && p2.1.first() == '\n' {
                            Some(((p1.0, p2.0), p2.1.drop_first()))
                        } else {
                            None
                        }
                    },
                    None => None,
                }
            } else {
                None
            }
        },
        None => None,
    }
}

/// Read rows until the text runs out.
pub open spec fn parse_rows(s: Seq<char>) -> Option<Seq<(Seq<char>, Seq<char>)>>
    decreases s.len(),
{
    if s.len() == 0 {
        Some(Seq::empty())
    } else {
        match parse_row(s) {
            Some(p) => {
                if p.1.len() < s.len() {
                    match parse_rows(p.1) {
                        Some(rows) => Some(seq![p.0] + rows),
                        None => None,
                    }
                } else {
                    None
                }
            },
            None => None,
        }
    }
}

/// Read a whole structured output back: the header row, then the records.
pub open spec fn parse_csv(s: Seq<char>) -> Option<Seq<(Seq<char>, Seq<char>)>> {
    if s.len() >= csv_header().len() && s.take(csv_header().len() as int) == csv_header() {
        parse_rows(s.skip(csv_header().len() as int))
    } else {
        None
    }
}

proof fn lemma_doubled_quotes_push(s: Seq<char>, c: char)
    ensures
        doubled_quotes(s.push(c)) == doubled_quotes(s) + quoted_char(c),
    decreases s.len(),
{
    if s.len() == 0 {
        assert(s.push(c) =~= seq![c]);
        assert(seq![c].first() == c);
        assert(seq![c].drop_first() =~= Seq::<char>::empty());
        assert(doubled_quotes(seq![c]) == quoted_char(c) + doubled_quotes(Seq::<char>::empty()));
        assert(quoted_char(c) + Seq::<char>::empty() =~= quoted_char(c));
        assert(doubled_quotes(s) + quoted_char(c) =~= quoted_char(c));
    } else {
        assert(s.push(c).first() == s.first());
        assert(s.push(c).drop_first() =~= s.drop_first().push(c));
        lemma_doubled_quotes_push(s.drop_first(), c);
        assert(quoted_char(s.first()) + (doubled_quotes(s.drop_first()) + quoted_char(c)) =~= (
        quoted_char(s.first()) + doubled_quotes(s.drop_first())) + quoted_char(c));
    }
}

/// A field made safe for a row: quoted, with quotes doubled, exactly when
/// it holds a delimiter, a quote or a line break.
pub fn encode_field(f: &str) -> (r: String)
    ensures
        r@ == encoded_field(f@),
{
    let n = f.unicode_len();
    let mut special = false;
    let mut i: usize = 0;
    while i < n
        invariant
            n == f@.len(),
            i <= n,
            special == exists|j: int| 0 <= j < i && is_special_char(f@[j]),
        decreases n - i,
    {
        let c = f.get_char(i);
        if c == ',' || c == '"' || c == '\n' || c == '\r' {
            proof {
                assert(is_special_char(f@[i as int]));
            }
            special = true;
        }
        i = i + 1;
    }
    if !special {
        return f.to_owned();
    }
    let mut out = String::new();
    out.append("\"");
    proof {
        reveal_strlit("\"");
        assert(out@ =~= seq!['"']);
        assert(f@.take(0) =~= Seq::<char>::empty());
        assert(out@ =~= seq!['"'] + doubled_quotes(f@.take(0)));
    }
    let mut i: usize = 0;
    while i < n
        invariant
            n == f@.len(),
            i <= n,
            out@ == seq!['"'] + doubled_quotes(f@.take(i as int)),
        decreases n - i,
    {
        let c = f.get_char(i);
        if c == '"' {
            out.append("\"\"");
            proof {
                reveal_strlit("\"\"");
                assert("\"\""@ =~= quoted_char(f@[i as int]));
            }
        } else {
            let piece = f.substring_char(i, i + 1);
            out.append(piece);
            proof {
                assert(piece@ =~= quoted_char(f@[i as int]));
            }
        }
        proof {
            assert(f@.take(i + 1) =~= f@.take(i as int).push(f@[i as int]));
            lemma_doubled_quotes_push(f@.take(i as int), f@[i as int]);
            assert(out@ =~= seq!['"'] + doubled_quotes(f@.take(i + 1)));
        }
        i = i + 1;
    }
    out.append("\"");
    proof {
        assert(f@.take(n as int) =~= f@);
        assert(out@ =~= seq!['"'] + doubled_quotes(f@) + seq!['"']);
    }
    out
}

/// The one delimited row a heading produces.
pub fn heading_row(h: &Heading) -> (r: String)
    ensures
        r@ == csv_row(h.title@, h.year@),
{
    let mut out = encode_field(h.title.as_str());
    out.append(",");
    let y = encode_field(h.year.as_str());
    out.append(y.as_str());
    out.append("\n");
    proof {
        reveal_strlit(",");
        reveal_strlit("\n");
        assert(","@ =~= seq![',']);
        assert("\n"@ =~= seq!['\n']);
        assert(out@ =~= csv_row(h.title@, h.year@));
    }
    out
}

proof fn lemma_parse_quoted_round(f: Seq<char>, rest: Seq<char>)
    requires
        rest.len() > 0,
        rest.first() == ',' || rest.first() == '\n',
    ensures
        parse_quoted_rest(doubled_quotes(f) + seq!['"'] + rest) == Some((f, rest)),
    decreases f.len(),
{
    let s = doubled_quotes(f) + seq!['"'] + rest;
    if f.len() == 0 {
        assert(s =~= seq!['"'] + rest);
        assert(s.first() == '"');
        assert(s[1] == rest.first());
        assert(s[1] != '"');
        assert(s.drop_first() =~= rest);
        assert(Seq::<char>::empty() =~= f);
    } else if f.first() == '"' {
        assert(s =~= seq!['"', '"'] + (doubled_quotes(f.drop_first()) + seq!['"'] + rest));
        assert(s.first() == '"');
        assert(s[1] == '"');
        assert(s.skip(2) =~= doubled_quotes(f.drop_first()) + seq!['"'] + rest);
        lemma_parse_quoted_round(f.drop_first(), rest);
        assert(seq!['"'] + f.drop_first() =~= f);
    } else {
        assert(s =~= seq![f.first()] + (doubled_quotes(f.drop_first()) + seq!['"'] + rest));
        assert(s.first() == f.first());
        assert(s.first() != '"');
        assert(s.drop_first() =~= doubled_quotes(f.drop_first()) + seq!['"'] + rest);
        lemma_parse_quoted_round(f.drop_first(), rest);
        assert(seq![f.first()] + f.drop_first() =~= f);
    }
}

proof fn lemma_parse_unquoted_round(f: Seq<char>, rest: Seq<char>)
    requires
        forall|j: int| 0 <= j < f.len() ==> f[j] != ',' && f[j] != '\n',
        rest.len() > 0,
        rest.first() == ',' || rest.first() == '\n',
    ensures
        parse_unquoted(f + rest) == (f, rest),
    decreases f.len(),
{
    let s = f + rest;
    if f.len() == 0 {
        assert(s =~= rest);
        assert(Seq::<char>::empty() =~= f);
    } else {
        assert(s.first() == f.first());
        assert(s.first() != ',' && s.first() != '\n');
        assert(s.drop_first() =~= f.drop_first() + rest);
        lemma_parse_unquoted_round(f.drop_first(), rest);
        assert(seq![f.first()] + f.drop_first() =~= f);
    }
}

proof fn lemma_parse_field_round(f: Seq<char>, rest: Seq<char>)
    requires
        rest.len() > 0,
        rest.first() == ',' || rest.first() == '\n',
    ensures
        parse_field(encoded_field(f) + rest) == Some((f, rest)),
{
    let s = encoded_field(f) + rest;
    if field_needs_quoting(f) {
        assert(s =~= seq!['"'] + (doubled_quotes(f) + seq!['"'] + rest));
        assert(s.first() == '"');
        assert(s.drop_first() =~= doubled_quotes(f) + seq!['"'] + rest);
        lemma_parse_quoted_round(f, rest);
    } else {
        assert(s =~= f + rest);
        if f.len() == 0 {
            assert(s =~= rest);
            assert(s.first() != '"');
        } else {
            assert(s.first() == f.first());
            assert(!is_special_char(f[0]));
            assert(s.first() != '"');
        }
        lemma_parse_unquoted_round(f, rest);
    }
}

proof fn lemma_parse_row_round(title: Seq<char>, year: Seq<char>, after: Seq<char>)
    ensures
        parse_row(csv_row(title, year) + after) == Some(((title, year), after)),
{
    let s = csv_row(title, year) + after;
    let rest1 = seq![','] + encoded_field(year) + seq!['\n'] + after;
    assert(s =~= encoded_field(title) + rest1);
    assert(rest1.first() == ',');
    lemma_parse_field_round(title, rest1);
    let rest2 = seq!['\n'] + after;
    assert(rest1.drop_first() =~= encoded_field(year) + rest2);
    assert(rest2.first() == '\n');
    lemma_parse_field_round(year, rest2);
    assert(rest2.drop_first() =~= after);
}

proof fn lemma_parse_rows_round(rows: Seq<(Seq<char>, Seq<char>)>)
    ensures
        parse_rows(csv_rows(rows)) == Some(rows),
    decreases rows.len(),
{
    if rows.len() == 0 {
        assert(csv_rows(rows).len() == 0);
    } else {
        let row = rows.first();
        let tail = csv_rows(rows.drop_first());
        let s = csv_rows(rows);
        assert(s == csv_row(row.0, row.1) + tail);
        lemma_parse_row_round(row.0, row.1, tail);
        assert(parse_row(s) == Some((row, tail)));
        assert(csv_row(row.0, row.1).len() >= 2);
        assert(s.len() > 0 && tail.len() < s.len());
        lemma_parse_rows_round(rows.drop_first());
        assert(seq![row] + rows.drop_first() =~= rows);
    }
}

/// Law: the structured output round-trips. Parsing the delimited encoding
/// of any `(title, year)` rows recovers exactly those rows, in order,
/// whatever characters the fields hold.
pub proof fn lemma_csv_round_trip(rows: Seq<(Seq<char>, Seq<char>)>)
    ensures
        parse_csv(csv_encoding(rows)) == Some(rows),
{
    let s = csv_encoding(rows);
    assert(csv_header().len() == 11);
    assert(s.take(11) =~= csv_header());
    assert(s.skip(11) =~= csv_rows(rows));
    lemma_parse_rows_round(rows);
}

} // verus!
