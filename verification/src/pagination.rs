use vstd::prelude::*;
use crate::errors::FetchError;

verus! {

/// Number of items in a full page. The upstream listing endpoints hand out at
/// most this many items per request; a page with fewer signals end-of-data.
pub const PAGE_SIZE: usize = 500;

/// The items a sequential paginated fetch collects when request `i` is
/// answered with `pages[i]`: the first page always counts, and fetching
/// continues past a page only while that page is full.
pub open spec fn paged_items<T>(pages: Seq<Seq<T>>) -> Seq<T>
    decreases pages.len(),
{
    if pages.len() == 0 {
        Seq::empty()
    } else if pages[0].len() < PAGE_SIZE {
        pages[0]
    } else {
        pages[0] + paged_items(pages.drop_first())
    }
}

/// How many requests the sequential paginated fetch issues when request `i`
/// is answered with `pages[i]`.
pub open spec fn paged_requests<T>(pages: Seq<Seq<T>>) -> nat
    decreases pages.len(),
{
    if pages.len() == 0 {
        0
    } else if pages[0].len() < PAGE_SIZE {
        1
    } else {
        1 + paged_requests(pages.drop_first())
    }
}

/// The outcome of one upstream request, as the I/O layer reports it.
pub enum FetchEvent<T> {
    /// The request succeeded and its body decoded into records.
    Received(Vec<T>),
    /// The request failed, timed out, or returned a non-success status;
    /// carries a description of the failure.
    TransportFailed(String),
    /// The body could not be decoded into the expected shape; carries the
    /// raw body.
    Undecodable(String),
}

/// The sequential pagination state machine. The caller issues one request at
/// `next_offset`, hands the outcome to `handle`, and repeats while `handle`
/// asks for more; the collected items are exactly the concatenation of the
/// pages received, in order.
pub struct Paginator<T> {
    items: Vec<T>,
    offset: u64,
    finished: bool,
    pages: Ghost<Seq<Seq<T>>>,
}

impl<T> Paginator<T> {
    /// The pages applied so far, in order.
    pub closed spec fn pages(self) -> Seq<Seq<T>> {
        self.pages@
    }

    /// Whether a terminal (short) page has been seen.
    pub closed spec fn is_done(self) -> bool {
        self.finished
    }

    /// The items collected so far, in upstream order.
    pub closed spec fn collected(self) -> Seq<T> {
        self.items@
    }

    pub closed spec fn wf(self) -> bool {
        &&& self.items@ == self.pages@.flatten()
        &&& (!self.finished ==> self.offset == PAGE_SIZE * self.pages@.len())
        &&& (forall|i: int|
            0 <= i < self.pages@.len() - 1 ==> #[trigger] self.pages@[i].len() >= PAGE_SIZE)
        &&& (self.finished <==> self.pages@.len() > 0 && self.pages@.last().len() < PAGE_SIZE)
    }

    pub fn new() -> (r: Paginator<T>)
        ensures
            r.wf(),
            r.pages() == Seq::<Seq<T>>::empty(),
            r.collected() == Seq::<T>::empty(),
            !r.is_done(),
    {
        let r = Paginator { items: Vec::new(), offset: 0, finished: false, pages: Ghost(Seq::empty()) };
        proof {
            assert(r.pages@.flatten() =~= Seq::<T>::empty());
        }
        r
    }

    /// The offset parameter of the next request: 0, 500, 1000, ...
    pub fn next_offset(&self) -> (r: u64)
        requires
            self.wf(),
            !self.is_done(),
        ensures
            r == PAGE_SIZE * self.pages().len(),
    {
        self.offset
    }

    /// Applies one received page: appends its items and decides whether the
    /// fetch is over (the page was short) or must go on at the next offset.
    pub fn apply_page(&mut self, page: Vec<T>)
        requires
            old(self).wf(),
            !old(self).is_done(),
            PAGE_SIZE * (old(self).pages().len() + 1) <= u64::MAX,
        ensures
            final(self).wf(),
            final(self).pages() == old(self).pages().push(page@),
            final(self).collected() == old(self).collected() + page@,
            final(self).is_done() <==> page@.len() < PAGE_SIZE,
    {
        let ghost p = page@;
        let mut page = page;
        let short = page.len() < PAGE_SIZE;
        self.items.append(&mut page);
        proof {
            self.pages@ = self.pages@.push(p);
            Seq::lemma_flatten_push(old(self).pages@, p);
        }
        if short {
            self.finished = true;
        } else {
            self.offset = self.offset + (PAGE_SIZE as u64);
        }
        proof {
            assert(self.pages@.last() == p);
            assert(self.pages@.drop_last() =~= old(self).pages@);
            assert forall|i: int| 0 <= i < self.pages@.len() - 1 implies #[trigger] self
                .pages@[i].len() >= PAGE_SIZE by {
                if i < self.pages@.len() - 2 {
                    assert(old(self).pages@[i].len() >= PAGE_SIZE);
                } else {
                    assert(self.pages@[i] == old(self).pages@.last());
                }
            }
        }
    }

    /// Folds one request outcome into the machine. A received page is
    /// applied, and `Ok(more)` says whether another request is owed; a
    /// transport failure or an undecodable body aborts the whole fetch with
    /// the corresponding error and no partial result is ever handed out.
    pub fn handle(&mut self, ev: FetchEvent<T>) -> (r: Result<bool, FetchError>)
        requires
            old(self).wf(),
            !old(self).is_done(),
            PAGE_SIZE * (old(self).pages().len() + 1) <= u64::MAX,
        ensures
            final(self).wf(),
            ev matches FetchEvent::Received(p) ==> {
                &&& final(self).pages() == old(self).pages().push(p@)
                &&& final(self).collected() == old(self).collected() + p@
                &&& (final(self).is_done() <==> p@.len() < PAGE_SIZE)
                &&& r == Ok::<bool, FetchError>(!final(self).is_done())
            },
            ev matches FetchEvent::TransportFailed(m) ==> (*final(self) == *old(self) && r
                == Err::<bool, FetchError>(FetchError::TransportError(m))),
            ev matches FetchEvent::Undecodable(b) ==> (*final(self) == *old(self) && r
                == Err::<bool, FetchError>(FetchError::DecodeError(b))),
    {
        match ev {
            FetchEvent::Received(p) => {
                self.apply_page(p);
                Ok(!self.finished)
            },
            FetchEvent::TransportFailed(m) => Err(FetchError::TransportError(m)),
            FetchEvent::Undecodable(b) => Err(FetchError::DecodeError(b)),
        }
    }

    /// Hands out the collected items once the terminal page has been seen;
    /// they are exactly what the pagination contract promises for the pages
    /// that were received, and the number of pages equals the number of
    /// requests the contract owes.
    pub fn into_items(self) -> (r: Vec<T>)
        requires
            self.wf(),
            self.is_done(),
        ensures
            r@ == paged_items(self.pages()),
            self.pages().len() == paged_requests(self.pages()),
    {
        proof {
            lemma_terminated_run(self.pages@);
        }
        self.items
    }
}

/// A run whose last page is short and whose earlier pages are all full
/// collects the concatenation of all its pages, one request per page.
pub proof fn lemma_terminated_run<T>(pages: Seq<Seq<T>>)
    requires
        pages.len() > 0,
        forall|i: int| 0 <= i < pages.len() - 1 ==> #[trigger] pages[i].len() >= PAGE_SIZE,
        pages.last().len() < PAGE_SIZE,
    ensures
        paged_items(pages) == pages.flatten(),
        paged_requests(pages) == pages.len(),
    decreases pages.len(),
{
    if pages.len() == 1 {
        assert(pages[0].len() < PAGE_SIZE);
        assert(pages.flatten() == pages[0] + pages.drop_first().flatten());
        assert(pages.drop_first().len() == 0);
        assert(pages.drop_first().flatten() =~= Seq::<T>::empty());
        assert(paged_items(pages) =~= pages.flatten());
    } else {
        assert(pages[0].len() >= PAGE_SIZE);
        let rest = pages.drop_first();
        assert(rest.last() == pages.last());
        assert forall|i: int| 0 <= i < rest.len() - 1 implies #[trigger] rest[i].len()
            >= PAGE_SIZE by {
            assert(rest[i] == pages[i + 1]);
        }
        lemma_terminated_run(rest);
        assert(pages.flatten() == pages[0] + rest.flatten());
    }
}

/// If every page the upstream would serve is short — in particular the very
/// first — the fetch issues exactly one request and returns exactly that
/// first page's items, in order.
pub proof fn lemma_all_pages_short<T>(pages: Seq<Seq<T>>)
    requires
        pages.len() > 0,
        forall|i: int| 0 <= i < pages.len() ==> #[trigger] pages[i].len() < PAGE_SIZE,
    ensures
        paged_requests(pages) == 1,
        paged_items(pages) == pages[0],
{
    assert(pages[0].len() < PAGE_SIZE);
}

/// If `n` full pages are followed by one short page of `m` items, the fetch
/// issues exactly `n + 1` requests and returns `PAGE_SIZE * n + m` items.
pub proof fn lemma_full_pages_then_short<T>(pages: Seq<Seq<T>>, n: int, m: int)
    requires
        pages.len() == n + 1,
        0 <= n,
        0 <= m < PAGE_SIZE,
        forall|i: int| 0 <= i < n ==> #[trigger] pages[i].len() == PAGE_SIZE,
        pages[n].len() == m,
    ensures
        paged_requests(pages) == n + 1,
        paged_items(pages).len() == PAGE_SIZE * n + m,
        paged_items(pages) == pages.flatten(),
    decreases n,
{
    lemma_terminated_run(pages);
    if n == 0 {
        assert(pages[0].len() < PAGE_SIZE);
    } else {
        assert(pages[0].len() == PAGE_SIZE);
        let rest = pages.drop_first();
        assert forall|i: int| 0 <= i < n - 1 implies #[trigger] rest[i].len() == PAGE_SIZE by {
            assert(rest[i] == pages[i + 1]);
        }
        assert(rest[n - 1] == pages[n]);
        lemma_full_pages_then_short(rest, n - 1, m);
        assert(paged_items(pages) == pages[0] + paged_items(rest));
        assert(PAGE_SIZE + (PAGE_SIZE * (n - 1) + m) == PAGE_SIZE * n + m) by (nonlinear_arith);
    }
}

/// Runs the whole pagination loop against an in-memory page source: request
/// `i` is answered with `pages[i]`. Returns the collected items and how many
/// requests were issued. The source must eventually serve a short page.
pub fn collect_pages<T>(pages: Vec<Vec<T>>) -> (r: (Vec<T>, usize))
    requires
        exists|k: int| 0 <= k < pages@.len() && #[trigger] pages@[k].len() < PAGE_SIZE,
        PAGE_SIZE * (pages@.len() + 1) <= u64::MAX,
    ensures
        r.0@ == paged_items(pages@.map_values(|p: Vec<T>| p@)),
        r.1 == paged_requests(pages@.map_values(|p: Vec<T>| p@)),
{
    let ghost all = pages@.map_values(|p: Vec<T>| p@);
    proof {
        let k = choose|k: int| 0 <= k < pages@.len() && #[trigger] pages@[k].len() < PAGE_SIZE;
        assert(all[k] == pages@[k]@);
        assert(all[k].len() < PAGE_SIZE);
    }
    let mut pages = pages;
    let mut machine = Paginator::<T>::new();
    let mut i: usize = 0;
    let n = pages.len();
    let mut more = true;
    while more
        invariant
            machine.wf(),
            pages@.len() + i == n,
            n == all.len(),
            forall|j: int| 0 <= j < pages@.len() ==> pages@[j]@ == all[i + j],
            machine.pages() == all.take(i as int),
            more <==> !machine.is_done(),
            exists|k: int| 0 <= k < all.len() && #[trigger] all[k].len() < PAGE_SIZE,
            PAGE_SIZE * (all.len() + 1) <= u64::MAX,
        decreases n - i,
    {
        proof {
            let k = choose|k: int| 0 <= k < all.len() && #[trigger] all[k].len() < PAGE_SIZE;
            assert forall|j: int| 0 <= j < i implies #[trigger] all[j].len() >= PAGE_SIZE by {
                assert(machine.pages()[j] == all[j]);
            }
            assert(i <= k);
            assert(i < all.len());
            assert(PAGE_SIZE * (i + 2) <= PAGE_SIZE * (all.len() + 1)) by (nonlinear_arith)
                requires
                    0 <= i,
                    i + 2 <= all.len() + 1,
            ;
        }
        let page = pages.remove(0);
        machine.apply_page(page);
        proof {
            assert(machine.pages() =~= all.take(i as int + 1));
        }
        i = i + 1;
        more = !machine.is_finished();
    }
    proof {
        assert(machine.pages().len() == i);
        assert(machine.pages().last() == all[i as int - 1]);
        assert forall|j: int| 0 <= j < i - 1 implies #[trigger] all[j].len() >= PAGE_SIZE by {
            assert(machine.pages()[j] == all[j]);
        }
        lemma_prefix_run(all, i as int);
    }
    let items = machine.into_items();
    (items, i)
}

/// Once the first short page appears at index `k - 1`, the pages past it are
/// never requested: the fetch over the whole sequence equals the fetch over
/// the first `k` pages.
pub proof fn lemma_prefix_run<T>(pages: Seq<Seq<T>>, k: int)
    requires
        0 < k <= pages.len(),
        forall|i: int| 0 <= i < k - 1 ==> #[trigger] pages[i].len() >= PAGE_SIZE,
        pages[k - 1].len() < PAGE_SIZE,
    ensures
        paged_items(pages) == paged_items(pages.take(k)),
        paged_requests(pages) == paged_requests(pages.take(k)),
    decreases k,
{
    if k == 1 {
        assert(pages[0].len() < PAGE_SIZE);
        assert(pages.take(1)[0] == pages[0]);
    } else {
        assert(pages[0].len() >= PAGE_SIZE);
        let rest = pages.drop_first();
        assert forall|i: int| 0 <= i < k - 2 implies #[trigger] rest[i].len() >= PAGE_SIZE by {
            assert(rest[i] == pages[i + 1]);
        }
        assert(rest[k - 2] == pages[k - 1]);
        lemma_prefix_run(rest, k - 1);
        assert(pages.take(k)[0] == pages[0]);
        assert(pages.take(k).drop_first() =~= rest.take(k - 1));
    }
}

impl<T> Paginator<T> {
    /// Whether the terminal page has been received.
    pub fn is_finished(&self) -> (r: bool)
        ensures
            r == self.is_done(),
    {
        self.finished
    }
}

} // verus!
