use vstd::prelude::*;

verus! {

/// One API response: a batch of records plus pagination metadata.
///
/// Invariant over one year's pages: `count` and `page_size` are the same on
/// every page, and each page carries at most `page_size` granules.
pub struct Page {
    /// Total records for the year, constant across pages.
    pub count: u16,
    /// Records per page request, constant across pages.
    pub page_size: u16,
    /// Cursor URL for the next page; absent on the last page.
    pub next_page: Option<String>,
    /// The records carried by this page, in arrival order.
    pub granules: Vec<Granule>,
}

/// One heading entry as the API returns it. The title may be empty.
pub struct Granule {
    pub title: String,
}

/// Output projection of a record: its title paired with the year whose job
/// produced it. Used by the structured (delimited) output format.
pub struct Heading {
    pub title: String,
    pub year: String,
}

/// The titles a page carries, in array order.
pub open spec fn page_titles(p: Page) -> Seq<Seq<char>> {
    p.granules@.map_values(|g: Granule| g.title@)
}

/// Every title a run of pages carries: first page first, array order
/// within each page.
pub open spec fn all_titles(pages: Seq<Page>) -> Seq<Seq<char>>
    decreases pages.len(),
{
    if pages.len() == 0 {
        Seq::empty()
    } else {
        page_titles(pages.first()) + all_titles(pages.drop_first())
    }
}

/// How many records a run of pages carries in all.
pub open spec fn total_records(pages: Seq<Page>) -> int
    decreases pages.len(),
{
    if pages.len() == 0 {
        0
    } else {
        pages.first().granules@.len() + total_records(pages.drop_first())
    }
}

pub(crate) proof fn lemma_all_titles_push(pages: Seq<Page>, p: Page)
    ensures
        all_titles(pages.push(p)) == all_titles(pages) + page_titles(p),
    decreases pages.len(),
{
    if pages.len() == 0 {
        assert(pages.push(p) =~= seq![p]);
        assert(seq![p].first() == p);
        assert(seq![p].drop_first() =~= Seq::<Page>::empty());
        assert(all_titles(seq![p]) == page_titles(p) + all_titles(Seq::<Page>::empty()));
        assert(page_titles(p) + Seq::<Seq<char>>::empty() =~~= page_titles(p));
        assert(all_titles(pages) + page_titles(p) =~~= page_titles(p));
    } else {
        assert(pages.push(p).first() == pages.first());
        assert(pages.push(p).drop_first() =~= pages.drop_first().push(p));
        assert(all_titles(pages.push(p)) == page_titles(pages.first()) + all_titles(
            pages.drop_first().push(p),
        ));
        lemma_all_titles_push(pages.drop_first(), p);
        assert(page_titles(pages.first()) + (all_titles(pages.drop_first()) + page_titles(p))
            =~~= (page_titles(pages.first()) + all_titles(pages.drop_first())) + page_titles(p));
    }
}

/// Law: a run of pages in which each page carries at most `page_size`
/// granules and which together carry `count` records yields exactly
/// `count` titles, so a sink fed every page writes exactly `count`
/// records, first page first, array order within each page.
pub proof fn lemma_complete_run_total(pages: Seq<Page>, count: int, page_size: int)
    requires
        forall|i: int| 0 <= i < pages.len() ==> pages[i].granules@.len() <= page_size,
        total_records(pages) == count,
    ensures
        all_titles(pages).len() == count,
    decreases pages.len(),
{
    if pages.len() > 0 {
        assert(forall|i: int|
            0 <= i < pages.drop_first().len() ==> pages.drop_first()[i].granules@.len()
                <= page_size);
        lemma_complete_run_total(
            pages.drop_first(),
            total_records(pages.drop_first()),
            page_size,
        );
    }
}

} // verus!
