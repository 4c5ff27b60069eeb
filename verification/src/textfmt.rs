use vstd::prelude::*;

verus! {

/// One plain-text record: the title followed by a newline.
pub open spec fn text_record(title: Seq<char>) -> Seq<char> {
    title + seq!['\n']
}

/// The text output for a title sequence: one newline-terminated line per
/// title, in order.
pub open spec fn text_encoding(titles: Seq<Seq<char>>) -> Seq<char>
    decreases titles.len(),
{
    if titles.len() == 0 {
        Seq::empty()
    } else {
        text_record(titles.first()) + text_encoding(titles.drop_first())
    }
}

/// The lines of `s`, each newline terminator dropped: what splitting the
/// output on newline recovers. Text without a final newline still counts
/// as one last line.
pub open spec fn split_lines(s: Seq<char>) -> Seq<Seq<char>>
    decreases s.len(),
{
    if s.len() == 0 {
        Seq::empty()
    } else if s.first() == '\n' {
        seq![Seq::<char>::empty()] + split_lines(s.drop_first())
    } else {
        let rest = split_lines(s.drop_first());
        if rest.len() == 0 {
            seq![s]
        } else {
            seq![seq![s.first()] + rest.first()] + rest.drop_first()
        }
    }
}

proof fn lemma_split_lines_step(a: Seq<char>, b: Seq<char>)
    requires
        forall|i: int| 0 <= i < a.len() ==> a[i] != '\n',
    ensures
        split_lines(a + seq!['\n'] + b) == seq![a] + split_lines(b),
    decreases a.len(),
{
    let s = a + seq!['\n'] + b;
    if a.len() == 0 {
        assert(s =~= seq!['\n'] + b);
        assert(s.first() == '\n');
        assert(s.drop_first() =~= b);
        assert(seq![Seq::<char>::empty()] + split_lines(b) =~~= seq![a] + split_lines(b));
    } else {
        assert(s.first() == a.first());
        assert(s.first() != '\n');
        assert(s.drop_first() =~= a.drop_first() + seq!['\n'] + b);
        lemma_split_lines_step(a.drop_first(), b);
        let rest = split_lines(s.drop_first());
        assert(rest == seq![a.drop_first()] + split_lines(b));
        assert(rest.len() > 0);
        assert(rest.first() == a.drop_first());
        assert(seq![s.first()] + rest.first() =~= a);
        assert(rest.drop_first() =~= split_lines(b));
        assert(split_lines(s) =~~= seq![a] + split_lines(b));
    }
}

/// Law: the text output round-trips. Splitting the text encoding of any
/// titles that themselves contain no newline recovers exactly those titles,
/// in order; an empty title comes back as an empty line.
pub proof fn lemma_text_round_trip(titles: Seq<Seq<char>>)
    requires
        forall|i: int, j: int|
            0 <= i < titles.len() && 0 <= j < titles[i].len() ==> titles[i][j] != '\n',
    ensures
        split_lines(text_encoding(titles)) == titles,
    decreases titles.len(),
{
    if titles.len() == 0 {
        assert(split_lines(text_encoding(titles)) =~~= titles);
    } else {
        let t = titles.first();
        let rest = text_encoding(titles.drop_first());
        assert(text_encoding(titles) =~= t + seq!['\n'] + rest);
        lemma_split_lines_step(t, rest);
        lemma_text_round_trip(titles.drop_first());
        assert(seq![t] + titles.drop_first() =~~= titles);
    }
}

} // verus!
