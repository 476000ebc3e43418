//! Splitting a sorted result set into pages, one event per page.

use crate::cancel::token_is_cancelled;
use crate::protocol::{Entry, Event, EventView};
use crate::router::scan_failed;
use crate::sort::{listing_order, sort_entries};
use tokio_util::sync::CancellationToken;
use vstd::prelude::*;

verus! {

/// Number of pages of a completed listing of `n` entries, `max` to a page:
/// `n / max` rounded up, and one (empty) page for an empty listing.
pub open spec fn page_count(n: nat, max: nat) -> nat
    recommends
        max >= 1,
{
    if n == 0 {
        1
    } else {
        ((n + max - 1) / (max as int)) as nat
    }
}

/// Index one past the last entry of the page that starts at `start`.
pub open spec fn page_end(n: nat, max: nat, start: nat) -> nat {
    if start + max < n {
        start + max
    } else {
        n
    }
}

/// The page that starts at entry `start` of the sorted listing `s`.
pub open spec fn page_from(id: u64, s: Seq<Entry>, max: nat, start: nat) -> EventView {
    EventView::ListChunk {
        id,
        entries: s.subrange(start as int, page_end(s.len(), max, start) as int),
        done: start + max >= s.len(),
    }
}

/// The `k`-th page (from 0) of the sorted listing `s`.
pub open spec fn page_at(id: u64, s: Seq<Entry>, max: nat, k: nat) -> EventView {
    page_from(id, s, max, k * max)
}

/// A listing whose entries run out within page `k` has `k + 1` pages.
pub proof fn lemma_page_count_from_last(n: nat, max: nat, k: nat)
    requires
        max >= 1,
        k * max < n <= k * max + max,
    ensures
        page_count(n, max) == k + 1,
{
    assert((k + 1) * max == k * max + max) by (nonlinear_arith);
    vstd::arithmetic::div_mod::lemma_fundamental_div_mod_converse(
        (n + max - 1) as int,
        max as int,
        (k + 1) as int,
        (n - 1 - k * max) as int,
    );
}

/// The pages of a non-empty listing cover it: all but the last page are
/// full, and the last page is where the entries run out.
pub proof fn lemma_page_count_bounds(n: nat, max: nat)
    requires
        max >= 1,
        n >= 1,
    ensures
        page_count(n, max) >= 1,
        (page_count(n, max) - 1) * max < n <= page_count(n, max) * max,
{
    let x = (n + max - 1) as int;
    let d = max as int;
    vstd::arithmetic::div_mod::lemma_fundamental_div_mod(x, d);
    vstd::arithmetic::div_mod::lemma_mod_bound(x, d);
    let c = x / d;
    assert(x == d * c + x % d);
    assert(c >= 1) by (nonlinear_arith)
        requires
            x == d * c + x % d,
            x % d < d,
            x >= d,
            d >= 1,
    ;
    assert((c - 1) * d == d * c - d) by (nonlinear_arith);
    assert(c * d == d * c) by (nonlinear_arith);
}

/// Every page of a completed listing holds at most `max` entries, holds at
/// least one unless the listing is empty, and is marked `done` exactly when it
/// is the last.
pub proof fn lemma_done_only_on_last(id: u64, s: Seq<Entry>, max: nat, k: nat)
    requires
        max >= 1,
        k < page_count(s.len(), max),
    ensures
        page_at(id, s, max, k) matches EventView::ListChunk { id: i, entries, done } && {
            &&& i == id
            &&& done == (k + 1 == page_count(s.len(), max))
            &&& entries.len() <= max
            &&& s.len() > 0 ==> entries.len() >= 1
            &&& entries == s.subrange((k * max) as int, (k * max + entries.len()) as int)
        },
{
    let n = s.len();
    let c = page_count(n, max);
    if n > 0 {
        lemma_page_count_bounds(n, max);
        if k + 1 < c {
            assert((k + 1) * max <= (c - 1) * max) by (nonlinear_arith)
                requires
                    k + 1 <= c - 1,
                    max >= 1,
            ;
        }
        assert((k + 1) * max == k * max + max) by (nonlinear_arith);
        assert(k * max <= (c - 1) * max) by (nonlinear_arith)
            requires
                k <= c - 1,
                max >= 1,
        ;
    } else {
        assert(k * max == 0) by (nonlinear_arith)
            requires
                k == 0,
        ;
    }
}

/// Copies of `entries[from..to]`.
pub fn copy_range(entries: &Vec<Entry>, from: usize, to: usize) -> (r: Vec<Entry>)
    requires
        from <= to <= entries.len(),
    ensures
        r@ == entries@.subrange(from as int, to as int),
{
    let mut r: Vec<Entry> = Vec::new();
    let mut i: usize = from;
    while i < to
        invariant
            from <= i <= to <= entries.len(),
            r@ == entries@.subrange(from as int, i as int),
        decreases to - i,
    {
        r.push(entries[i].duplicate());
        proof {
            assert(r@ =~= entries@.subrange(from as int, i + 1));
        }
        i += 1;
    }
    r
}

/// The emitting half of one request: the sorted listing and how far it has
/// been sent.
pub struct Pager {
    pub id: u64,
    /// The result set, in listing order.
    pub entries: Vec<Entry>,
    /// Page size; at least 1.
    pub max: usize,
    /// Index of the first entry not yet sent.
    pub pos: usize,
    /// No further page will be sent: the last one went out, or cancellation
    /// was observed.
    pub closed: bool,
}

impl Pager {
    /// The page size is positive and the position lies within the listing.
    pub open spec fn wf(&self) -> bool {
        self.max >= 1 && self.pos <= self.entries.len()
    }

    /// What one step does when polled with `cancelled`: the state after it and
    /// the event it hands out.
    pub open spec fn steps_to(self, cancelled: bool, next: Pager, out: Option<Event>) -> bool {
        &&& next.id == self.id
        &&& next.entries == self.entries
        &&& next.max == self.max
        &&& if self.closed || cancelled {
            &&& out is None
            &&& next.closed
            &&& next.pos == self.pos
        } else {
            &&& out is Some
            &&& out->0@ == page_from(
                self.id,
                self.entries@,
                self.max as nat,
                self.pos as nat,
            )
            &&& next.pos == page_end(self.entries@.len(), self.max as nat, self.pos as nat)
            &&& next.closed == (self.pos + self.max >= self.entries@.len())
        }
    }

    /// Starts the emission of a collected result set: sorts it into listing
    /// order and stands before its first page.
    pub fn new(id: u64, collected: Vec<Entry>, max: usize) -> (r: Pager)
        requires
            max >= 1,
        ensures
            r.wf(),
            r.id == id,
            r.max == max,
            r.pos == 0,
            !r.closed,
            r.entries@ == listing_order(collected@),
    {
        let mut entries = collected;
        sort_entries(&mut entries);
        Pager { id, entries, max, pos: 0, closed: false }
    }

    /// Takes over a result set at the end of its collection, given whether
    /// cancellation has been observed by then. If it has, the results are
    /// discarded and the pager is closed from the start; otherwise it is the
    /// pager that [`Pager::new`] gives.
    pub fn collected(id: u64, collected: Vec<Entry>, max: usize, cancelled: bool) -> (r: Pager)
        requires
            max >= 1,
        ensures
            r.wf(),
            r.id == id,
            r.max == max,
            r.pos == 0,
            r.closed == cancelled,
            r.entries@ == (if cancelled {
                Seq::<Entry>::empty()
            } else {
                listing_order(collected@)
            }),
    {
        if cancelled {
            Pager { id, entries: Vec::new(), max, pos: 0, closed: true }
        } else {
            Pager::new(id, collected, max)
        }
    }

    /// Polls the handle at the end of a collection and takes the result set
    /// over with what it answered.
    pub fn collected_poll(id: u64, collected: Vec<Entry>, max: usize, token: &CancellationToken) -> (r:
        Pager)
        requires
            max >= 1,
        ensures
            r.wf(),
            r.id == id,
            r.max == max,
            r.pos == 0,
            r.entries@ == (if r.closed {
                Seq::<Entry>::empty()
            } else {
                listing_order(collected@)
            }),
    {
        let cancelled = token_is_cancelled(token);
        Pager::collected(id, collected, max, cancelled)
    }

    /// One step of the emission, given whether cancellation has been observed.
    /// A closed or cancelled pager hands out nothing and stays closed.
    /// Otherwise the next page comes out, marked `done` exactly when it is the
    /// last, and the pager closes behind the last page.
    pub fn step(&mut self, cancelled: bool) -> (r: Option<Event>)
        requires
            old(self).wf(),
        ensures
            final(self).wf(),
            old(self).steps_to(cancelled, *final(self), r),
    {
        if self.closed || cancelled {
            self.closed = true;
            return None;
        }
        let len = self.entries.len();
        let room = len - self.pos;
        let last = self.max >= room;
        let end = if last {
            len
        } else {
            self.pos + self.max
        };
        let page = copy_range(&self.entries, self.pos, end);
        self.pos = end;
        self.closed = last;
        Some(Event::ListChunk { id: self.id, entries: page, done: last })
    }

    /// Polls the handle and takes one step with what it answered.
    pub fn poll(&mut self, token: &CancellationToken) -> (r: Option<Event>)
        requires
            old(self).wf(),
        ensures
            final(self).wf(),
            old(self).steps_to(true, *final(self), r) || old(self).steps_to(
                false,
                *final(self),
                r,
            ),
    {
        let cancelled = token_is_cancelled(token);
        self.step(cancelled)
    }
}

/// What follows the end of a scan, given whether cancellation has been
/// observed by then. Once it has, the scan ends in silence, whether or not it
/// failed: the results are discarded and the pager is closed from the start.
/// Otherwise a scan that failed on its root is answered with one error event
/// under the request's id and no page, and a scan that ran through hands its
/// result set, in listing order, to a pager that stands before the first
/// page.
pub fn scan_ended(
    id: u64,
    failure: Option<String>,
    collected: Vec<Entry>,
    max: usize,
    cancelled: bool,
) -> (r: Result<Pager, Event>)
    requires
        max >= 1,
    ensures
        match r {
            Ok(pager) => {
                &&& cancelled || failure is None
                &&& pager.wf()
                &&& pager.id == id
                &&& pager.max == max
                &&& pager.pos == 0
                &&& pager.closed == cancelled
                &&& pager.entries@ == (if cancelled {
                    Seq::<Entry>::empty()
                } else {
                    listing_order(collected@)
                })
            },
            Err(event) => {
                &&& !cancelled
                &&& failure is Some
                &&& event@ == (EventView::Error { id, message: failure->0@ })
            },
        },
{
    if cancelled {
        return Ok(Pager::collected(id, collected, max, true));
    }
    match failure {
        Some(message) => Err(scan_failed(id, message)),
        None => Ok(Pager::collected(id, collected, max, false)),
    }
}

/// Polls the handle at the end of a scan and decides what follows with what
/// it answered.
pub fn scan_ended_poll(
    id: u64,
    failure: Option<String>,
    collected: Vec<Entry>,
    max: usize,
    token: &CancellationToken,
) -> (r: Result<Pager, Event>)
    requires
        max >= 1,
    ensures
        match r {
            Ok(pager) => {
                &&& pager.wf()
                &&& pager.id == id
                &&& pager.max == max
                &&& pager.pos == 0
                &&& pager.closed || failure is None
                &&& pager.entries@ == (if pager.closed {
                    Seq::<Entry>::empty()
                } else {
                    listing_order(collected@)
                })
            },
            Err(event) => {
                &&& failure is Some
                &&& event@ == (EventView::Error { id, message: failure->0@ })
            },
        },
{
    let cancelled = token_is_cancelled(token);
    scan_ended(id, failure, collected, max, cancelled)
}

/// The whole answer to a scan that completes without cancellation: the
/// collected result set in listing order, cut into pages of at most `max`
/// entries, one event per page and in page order. An empty result set gives
/// one empty page.
pub fn assemble(id: u64, collected: Vec<Entry>, max: usize) -> (r: Vec<Event>)
    requires
        max >= 1,
    ensures
        r@.len() == page_count(collected@.len(), max as nat),
        forall|k: int|
            0 <= k < r@.len() ==> (#[trigger] r@[k])@ == page_at(
                id,
                listing_order(collected@),
                max as nat,
                k as nat,
            ),
{
    let mut pager = Pager::new(id, collected, max);
    let mut out: Vec<Event> = Vec::new();
    let ghost s = pager.entries@;
    proof {
        crate::sort::lemma_listing_order_sorted(collected@);
    }
    while !pager.closed
        invariant
            pager.wf(),
            pager.id == id,
            pager.max == max,
            pager.entries@ == s,
            s.len() == collected@.len(),
            forall|k: int|
                0 <= k < out@.len() ==> (#[trigger] out@[k])@ == page_at(
                    id,
                    s,
                    max as nat,
                    k as nat,
                ),
            !pager.closed ==> pager.pos == out@.len() * max && (pager.pos < s.len() || (s.len()
                == 0 && out@.len() == 0)),
            pager.closed ==> out@.len() == page_count(s.len(), max as nat),
        decreases s.len() - pager.pos + (if pager.closed { 0int } else { 1int }),
    {
        let ghost k = out@.len();
        let ghost before = out@;
        proof {
            assert((k + 1) * max == k * max + max) by (nonlinear_arith);
            if s.len() > 0 {
                if k * max + max >= s.len() {
                    lemma_page_count_from_last(s.len(), max as nat, k);
                }
            }
        }
        match pager.step(false) {
            Some(ev) => {
                out.push(ev);
            },
            None => {},
        }
        proof {
            assert(forall|j: int| 0 <= j < k ==> out@[j] == before[j]);
        }
    }
    out
}

} // verus!
