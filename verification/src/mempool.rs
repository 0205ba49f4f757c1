//! Reading the node's mempool page by page.

use vstd::prelude::*;

use crate::chain::{transactions_view, Transaction, TransactionView};

verus! {

/// How many pages a mempool can have.
pub const MAX_MEMPOOL_PAGES: u32 = 512;

/// What comes next in reading a mempool.
#[derive(Clone, Copy, PartialEq, Eq, Debug, Structural)]
pub enum PageStep {
    /// Ask the node for this page.
    Ask(u32),
    /// The mempool is read.
    Complete,
    /// The node names a page beyond the last possible one.
    TooManyPages,
}

/// The step after a page that names `next` as the following one.
pub open spec fn page_step(next: Option<u32>) -> PageStep {
    match next {
        None => PageStep::Complete,
        Some(page) => if page >= MAX_MEMPOOL_PAGES {
            PageStep::TooManyPages
        } else {
            PageStep::Ask(page)
        },
    }
}

/// The part of a mempool that was read so far.
pub struct MempoolPages {
    pub transactions: Vec<Transaction>,
    pub step: PageStep,
}

impl MempoolPages {
    /// Nothing is read yet; the first page is page zero.
    pub fn begin() -> (m: MempoolPages)
        ensures
            transactions_view(m.transactions@) == Seq::<TransactionView>::empty(),
            m.step == PageStep::Ask(0),
    {
        let m = MempoolPages { transactions: Vec::new(), step: PageStep::Ask(0) };
        assert(transactions_view(m.transactions@) =~= Seq::<TransactionView>::empty());
        m
    }

    /// Takes in the page that was asked for. A page that was not asked for changes
    /// nothing.
    pub fn take_page(&mut self, page: Vec<Transaction>, next_page: Option<u32>)
        ensures
            old(self).step is Ask ==> {
                &&& transactions_view(final(self).transactions@) == transactions_view(
                    old(self).transactions@,
                ) + transactions_view(page@)
                &&& final(self).step == page_step(next_page)
            },
            !(old(self).step is Ask) ==> *final(self) == *old(self),
    {
        match self.step {
            PageStep::Ask(_) => {},
            _ => return,
        }
        let mut page = page;
        let ghost before = self.transactions@;
        let ghost added = page@;
        self.transactions.append(&mut page);
        assert(transactions_view(self.transactions@) =~= transactions_view(before)
            + transactions_view(added));
        self.step = match next_page {
            None => PageStep::Complete,
            Some(p) => if p >= MAX_MEMPOOL_PAGES {
                PageStep::TooManyPages
            } else {
                PageStep::Ask(p)
            },
        };
    }
}

/// A page and the number of the following one.
pub struct PageView {
    pub transactions: Seq<TransactionView>,
    pub next_page: Option<u32>,
}

/// What comes next after the node has answered with these pages.
pub open spec fn step_after(pages: Seq<PageView>) -> PageStep
    decreases pages.len(),
{
    if pages.len() == 0 {
        PageStep::Ask(0)
    } else if step_after(pages.drop_last()) is Ask {
        page_step(pages.last().next_page)
    } else {
        step_after(pages.drop_last())
    }
}

/// What was read after the node has answered with these pages.
pub open spec fn read_after(pages: Seq<PageView>) -> Seq<TransactionView>
    decreases pages.len(),
{
    if pages.len() == 0 {
        Seq::empty()
    } else if step_after(pages.drop_last()) is Ask {
        read_after(pages.drop_last()) + pages.last().transactions
    } else {
        read_after(pages.drop_last())
    }
}

/// All transactions of a list of pages.
pub open spec fn all_transactions(pages: Seq<PageView>) -> Seq<TransactionView>
    decreases pages.len(),
{
    if pages.len() == 0 {
        Seq::empty()
    } else {
        all_transactions(pages.drop_last()) + pages.last().transactions
    }
}

/// The pages link up: each but the last names a possible page that follows.
pub open spec fn linked(pages: Seq<PageView>) -> bool {
    forall|i: int|
        0 <= i < pages.len() - 1 ==> page_step((#[trigger] pages[i]).next_page) is Ask
}

/// The page that was asked for names a later one, if any.
pub open spec fn rises(asked: PageStep, next_page: Option<u32>) -> bool {
    match (asked, next_page) {
        (PageStep::Ask(page), Some(next)) => next > page,
        _ => true,
    }
}

/// Each page names a later one than the one it was asked for.
pub open spec fn rising(pages: Seq<PageView>) -> bool {
    forall|i: int|
        0 <= i < pages.len() ==> rises(step_after(#[trigger] pages.take(i)), pages[i].next_page)
}

/// A mempool that was read to its end holds the transactions of all pages, in
/// the order of the pages, and nothing else.
pub proof fn law_mempool_is_all_pages(pages: Seq<PageView>)
    requires
        linked(pages),
    ensures
        read_after(pages) == all_transactions(pages),
        pages.len() > 0 ==> step_after(pages) == page_step(pages.last().next_page),
        pages.len() > 0 && pages.last().next_page is None ==> step_after(pages) is Complete,
    decreases pages.len(),
{
    if pages.len() > 0 {
        let t = pages.drop_last();
        assert forall|i: int| 0 <= i < t.len() - 1 implies page_step(
            (#[trigger] t[i]).next_page,
        ) is Ask by {
            assert(page_step(pages[i].next_page) is Ask);
        }
        law_mempool_is_all_pages(t);
        if t.len() > 0 {
            assert(t.last() == pages[t.len() - 1]);
        }
    }
}

/// No page beyond the last possible one is asked for.
pub proof fn law_pages_are_bounded(pages: Seq<PageView>)
    ensures
        step_after(pages) matches PageStep::Ask(page) ==> page < MAX_MEMPOOL_PAGES,
    decreases pages.len(),
{
    if pages.len() > 0 {
        law_pages_are_bounded(pages.drop_last());
    }
}

proof fn lemma_rising_prefix(pages: Seq<PageView>)
    requires
        rising(pages),
        pages.len() > 0,
    ensures
        rising(pages.drop_last()),
{
    let t = pages.drop_last();
    assert forall|i: int| 0 <= i < t.len() implies rises(
        step_after(#[trigger] t.take(i)),
        t[i].next_page,
    ) by {
        assert(t.take(i) =~= pages.take(i));
    }
}

/// Where the node's pages rise, reading ends: after `n` pages the next one is at
/// least page `n`, so that no more are asked for than a mempool can have.
pub proof fn law_rising_pages_end(pages: Seq<PageView>)
    requires
        rising(pages),
    ensures
        step_after(pages) matches PageStep::Ask(page) ==> page >= pages.len(),
        pages.len() >= MAX_MEMPOOL_PAGES ==> !(step_after(pages) is Ask),
    decreases pages.len(),
{
    if pages.len() > 0 {
        let t = pages.drop_last();
        lemma_rising_prefix(pages);
        law_rising_pages_end(t);
        law_pages_are_bounded(pages);
        assert(pages.take(t.len() as int) =~= t);
    }
}

/// A page names the next one to ask for where it lies below 512, and none where
/// the mempool ends.
pub proof fn law_pages_name_the_next(page: u32)
    ensures
        page_step(None) is Complete,
        page < 512 ==> page_step(Some(page)) == PageStep::Ask(page),
        page >= 512 ==> page_step(Some(page)) is TooManyPages,
{
}

} // verus!
