//! The feed: an owned, ordered list of items (plain values extracted from
//! the syndication channel) and the run configuration. Filtering evaluates
//! the conjunction of all compiled queries per item and yields the passing
//! ordinals, in feed order.

use vstd::prelude::*;

use crate::config::DumpConfig;
use crate::options::{eval_spec, Query};

verus! {

/// One feed item, reduced to the fields the engine reads: its text fields,
/// its enclosure's location and type, and the probed content length.
#[derive(Debug, Clone)]
pub struct FeedItem {
    pub title: String,
    pub description: String,
    pub pub_date: String,
    pub url: String,
    pub mime_type: String,
    pub length: u64,
}

/// Abstract value of a [`FeedItem`].
pub struct FeedItemV {
    pub title: Seq<char>,
    pub description: Seq<char>,
    pub pub_date: Seq<char>,
    pub url: Seq<char>,
    pub mime_type: Seq<char>,
    pub length: u64,
}

impl View for FeedItem {
    type V = FeedItemV;

    open spec fn view(&self) -> FeedItemV {
        FeedItemV {
            title: self.title@,
            description: self.description@,
            pub_date: self.pub_date@,
            url: self.url@,
            mime_type: self.mime_type@,
            length: self.length,
        }
    }
}

/// Whether one item, at its ordinal, passes every compiled query.
/// `dest_exists` is the caller's probe of the item's destination path.
pub open spec fn all_queries_pass(
    queries: Seq<Query>,
    item: FeedItemV,
    ordinal: u64,
    dest_exists: bool,
) -> bool {
    forall|q: int| 0 <= q < queries.len() ==> eval_spec(
        (#[trigger] queries[q]).op@,
        item.title,
        item.description,
        item.pub_date,
        ordinal,
        dest_exists,
    )
}

/// Sum of the items' probed content lengths.
pub open spec fn total_length(items: Seq<FeedItem>) -> int
    decreases items.len(),
{
    if items.len() == 0 {
        0
    } else {
        total_length(items.drop_last()) + items.last().length
    }
}

proof fn lemma_total_length_bound(items: Seq<FeedItem>)
    ensures
        0 <= total_length(items) <= items.len() * u64::MAX,
    decreases items.len(),
{
    if items.len() == 0 {
    } else {
        lemma_total_length_bound(items.drop_last());
        assert((items.len() - 1) * u64::MAX + u64::MAX == items.len() * u64::MAX)
            by (nonlinear_arith);
    }
}

/// The feed: its title, the ordered master list of items, and the run
/// configuration the filter consults.
#[derive(Debug)]
pub struct Feed {
    pub title: String,
    pub full_download_list: Vec<FeedItem>,
    pub config: DumpConfig,
}

impl Feed {
    /// Assemble a feed from the channel's title and extracted items.
    pub fn new(title: &str, full_download_list: Vec<FeedItem>, config: DumpConfig) -> (f: Feed)
        ensures
            f.title@ == title@,
            f.full_download_list == full_download_list,
            f.config == config,
    {
        Feed { title: title.to_owned(), full_download_list, config }
    }

    /// The ordinals of the items that pass every query, in feed order.
    /// `dest_exists[i]` reports whether item `i`'s destination path already
    /// exists, probed by the caller at evaluation time.
    pub fn build_list_from_query(&self, queries: &Vec<Query>, dest_exists: &Vec<bool>) -> (r: Vec<
        usize,
    >)
        requires
            dest_exists@.len() == self.full_download_list@.len(),
        ensures
            forall|t: int| 0 <= t < r@.len() ==> (#[trigger] r@[t]) < self.full_download_list@.len()
                && all_queries_pass(
                queries@,
                self.full_download_list@[r@[t] as int]@,
                r@[t] as u64,
                dest_exists@[r@[t] as int],
            ),
            forall|t1: int, t2: int| 0 <= t1 < t2 < r@.len() ==> r@[t1] < r@[t2],
            forall|i: int| 0 <= i < self.full_download_list@.len() && all_queries_pass(
                queries@,
                self.full_download_list@[i]@,
                i as u64,
                dest_exists@[i],
            ) ==> r@.contains(i as usize),
    {
        let n = self.full_download_list.len();
        let mut r: Vec<usize> = Vec::new();
        let mut i: usize = 0;
        while i < n
            invariant
                0 <= i <= n,
                n == self.full_download_list@.len(),
                dest_exists@.len() == n,
                forall|t: int| 0 <= t < r@.len() ==> (#[trigger] r@[t]) < i && all_queries_pass(
                    queries@,
                    self.full_download_list@[r@[t] as int]@,
                    r@[t] as u64,
                    dest_exists@[r@[t] as int],
                ),
                forall|t1: int, t2: int| 0 <= t1 < t2 < r@.len() ==> r@[t1] < r@[t2],
                forall|m: int| 0 <= m < i && all_queries_pass(
                    queries@,
                    self.full_download_list@[m]@,
                    m as u64,
                    dest_exists@[m],
                ) ==> r@.contains(m as usize),
            decreases n - i,
        {
            let item = &self.full_download_list[i];
            let mut passes = true;
            let mut q: usize = 0;
            while q < queries.len()
                invariant_except_break
                    passes == forall|m: int| 0 <= m < q ==> eval_spec(
                        (#[trigger] queries@[m]).op@,
                        item@.title,
                        item@.description,
                        item@.pub_date,
                        i as u64,
                        dest_exists@[i as int],
                    ),
                invariant
                    0 <= q <= queries@.len(),
                    i < n,
                    n == self.full_download_list@.len(),
                    item == &self.full_download_list@[i as int],
                    dest_exists@.len() == n,
                ensures
                    passes == all_queries_pass(
                        queries@,
                        self.full_download_list@[i as int]@,
                        i as u64,
                        dest_exists@[i as int],
                    ),
                decreases queries@.len() - q,
            {
                if !queries[q].op.evaluate(
                    item.title.as_str(),
                    item.description.as_str(),
                    item.pub_date.as_str(),
                    i,
                    dest_exists[i],
                ) {
                    passes = false;
                    proof {
                        assert(!eval_spec(
                            (#[trigger] queries@[q as int]).op@,
                            item@.title,
                            item@.description,
                            item@.pub_date,
                            i as u64,
                            dest_exists@[i as int],
                        ));
                    }
                    break;
                }
                q = q + 1;
            }
            let ghost pre = r@;
            if passes {
                r.push(i);
                proof {
                    assert(r@ == pre.push(i));
                    assert forall|m: int| 0 <= m < i + 1 && all_queries_pass(
                        queries@,
                        self.full_download_list@[m]@,
                        m as u64,
                        dest_exists@[m],
                    ) implies r@.contains(m as usize) by {
                        if m < i {
                            assert(pre.contains(m as usize));
                            let t = choose|t: int| 0 <= t < pre.len() && pre[t] == m as usize;
                            assert(r@[t] == m as usize);
                        } else {
                            assert(r@[pre.len() as int] == i);
                        }
                    }
                }
            }
            i = i + 1;
        }
        r
    }

    /// The feed's title.
    pub fn title(&self) -> (r: &str)
        ensures
            r@ == self.title@,
    {
        self.title.as_str()
    }

    /// How many items the feed holds.
    pub fn total_items(&self) -> (r: usize)
        ensures
            r == self.full_download_list@.len(),
    {
        self.full_download_list.len()
    }

    /// The configured output location.
    pub fn get_config_output(&self) -> (r: &str)
        ensures
            r@ == self.config.output@,
    {
        self.config.get_output()
    }

    /// The sum of all probed content lengths: the total transfer size.
    pub fn total_size(&self) -> (r: u128)
        ensures
            r == total_length(self.full_download_list@),
    {
        let n = self.full_download_list.len();
        let mut acc: u128 = 0;
        let mut i: usize = 0;
        while i < n
            invariant
                0 <= i <= n,
                n == self.full_download_list@.len(),
                acc == total_length(self.full_download_list@.subrange(0, i as int)),
                acc <= i * (u64::MAX as int),
            decreases n - i,
        {
            let ghost p0 = self.full_download_list@.subrange(0, i as int);
            let ghost p1 = self.full_download_list@.subrange(0, i + 1);
            proof {
                assert(p1.drop_last() =~= p0);
                lemma_total_length_bound(p0);
                assert(i * (u64::MAX as int) + u64::MAX == (i + 1) * (u64::MAX as int))
                    by (nonlinear_arith);
                assert((i + 1) * (u64::MAX as int) < u128::MAX) by (nonlinear_arith)
                    requires
                        0 <= i < 0x1_0000_0000_0000_0000,
                ;
            }
            acc = acc + (self.full_download_list[i].length as u128);
            i = i + 1;
        }
        proof {
            assert(self.full_download_list@.subrange(0, n as int) =~= self.full_download_list@);
        }
        acc
    }
}

} // verus!
