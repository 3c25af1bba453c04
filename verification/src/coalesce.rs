//! The debounce engine: a map from path to its most recent raw event,
//! drained once a path has been quiet for a full window.

use vstd::prelude::*;

use crate::event::clone_event;
use crate::event::RawEvent;
use crate::event::RawEventView;
use crate::text::str_eq;

verus! {

/// One pending entry: the most recent event seen for a path, and when.
#[derive(Debug)]
pub struct PendingEvent {
    pub path: String,
    pub event: RawEvent,
    pub last_seen: u64,
}

/// The mathematical content of a pending entry.
pub struct PendingEventView {
    pub path: Seq<char>,
    pub event: RawEventView,
    pub last_seen: u64,
}

impl View for PendingEvent {
    type V = PendingEventView;

    open spec fn view(&self) -> PendingEventView {
        PendingEventView { path: self.path@, event: self.event@, last_seen: self.last_seen }
    }
}

/// The entry stored under `path`, if any: entries carry distinct paths, so
/// the first match is the only one.
pub open spec fn spec_lookup(entries: Seq<PendingEventView>, path: Seq<char>) -> Option<
    PendingEventView,
>
    decreases entries.len(),
{
    if entries.len() == 0 {
        None
    } else if entries[0].path == path {
        Some(entries[0])
    } else {
        spec_lookup(entries.skip(1), path)
    }
}

/// In a well-formed entry list, the entry at any index is what lookup of
/// its path finds.
proof fn lemma_lookup_at(entries: Seq<PendingEventView>, i: int)
    requires
        entries_wf(entries),
        0 <= i < entries.len(),
    ensures
        spec_lookup(entries, entries[i].path) == Some(entries[i]),
    decreases i,
{
    if i == 0 {
    } else {
        assert(entries[0].path != entries[i].path);
        assert(entries.skip(1)[i - 1] == entries[i]);
        assert(entries_wf(entries.skip(1))) by {
            assert forall|a: int, b: int|
                0 <= a < b < entries.skip(1).len() implies (#[trigger] entries.skip(1)[a]).path != (
            #[trigger] entries.skip(1)[b]).path by {
                assert(entries.skip(1)[a] == entries[a + 1]);
                assert(entries.skip(1)[b] == entries[b + 1]);
            }
        }
        lemma_lookup_at(entries.skip(1), i - 1);
    }
}

/// Entries carry pairwise distinct paths.
pub open spec fn entries_wf(entries: Seq<PendingEventView>) -> bool {
    forall|i: int, j: int|
        0 <= i < j < entries.len() ==> (#[trigger] entries[i]).path != (#[trigger] entries[j]).path
}

/// Whether an entry's quiet period has reached the debounce window.
pub open spec fn spec_matured(e: PendingEventView, now: u64, window: u64) -> bool {
    (if now >= e.last_seen {
        now - e.last_seen
    } else {
        0
    }) >= window
}

/// The maturity test as a predicate on entries.
pub open spec fn matured_pred(now: u64, window: u64) -> spec_fn(PendingEventView) -> bool {
    |e: PendingEventView| spec_matured(e, now, window)
}

/// The complement of the maturity test.
pub open spec fn kept_pred(now: u64, window: u64) -> spec_fn(PendingEventView) -> bool {
    |e: PendingEventView| !spec_matured(e, now, window)
}

/// Dropping the head of an entry list drops the head of its view.
proof fn lemma_view_skip1(entries: Seq<PendingEvent>)
    requires
        entries.len() > 0,
    ensures
        entries.skip(1).map_values(|e: PendingEvent| e@) == entries.map_values(
            |e: PendingEvent| e@,
        ).skip(1),
{
    assert(entries.skip(1).map_values(|e: PendingEvent| e@) =~= entries.map_values(
        |e: PendingEvent| e@,
    ).skip(1));
}

/// The debounce map: at most one pending event per path; a new raw event
/// for a pending path replaces the old entry and resets its time.
#[derive(Debug)]
pub struct EventCoalescer {
    entries: Vec<PendingEvent>,
}

impl EventCoalescer {
    /// The pending entries, most recently inserted path last.
    pub closed spec fn pending(self) -> Seq<PendingEventView> {
        self.entries@.map_values(|e: PendingEvent| e@)
    }

    /// At most one pending entry per path.
    pub open spec fn wf(self) -> bool {
        entries_wf(self.pending())
    }

    /// An empty debounce map.
    pub fn new() -> (r: EventCoalescer)
        ensures
            r.wf(),
            r.pending() == Seq::<PendingEventView>::empty(),
    {
        let r = EventCoalescer { entries: Vec::new() };
        proof {
            assert(r.pending() =~= Seq::<PendingEventView>::empty());
        }
        r
    }

    /// Insert or overwrite the entry for one path.
    fn upsert(&mut self, path: &String, event: &RawEvent, now: u64)
        requires
            old(self).wf(),
        ensures
            final(self).wf(),
            spec_lookup(final(self).pending(), path@) matches Some(e) && e.event == event@
                && e.last_seen == now,
            forall|p: Seq<char>|
                p != path@ ==> #[trigger] spec_lookup(final(self).pending(), p) == spec_lookup(
                    old(self).pending(),
                    p,
                ),
    {
        let ghost orig = self.pending();
        let n = self.entries.len();
        let mut i: usize = 0;
        while i < n
            invariant
                i <= n,
                n == self.entries.len(),
                self.pending() == orig,
                orig == old(self).pending(),
                entries_wf(orig),
                forall|k: int| 0 <= k < i ==> (#[trigger] orig[k]).path != path@,
            decreases n - i,
        {
            if str_eq(self.entries[i].path.as_str(), path.as_str()) {
                proof {
                    assert(orig[i as int].path == path@);
                }
                let entry = PendingEvent { path: path.clone(), event: clone_event(event), last_seen: now };
                proof {
                    assert(entry@.path == path@);
                }
                self.entries.set(i, entry);
                proof {
                    let ghost cur = self.pending();
                    assert(cur =~= orig.update(i as int, entry@));
                    assert(entries_wf(cur)) by {
                        assert forall|a: int, b: int| 0 <= a < b < cur.len() implies (
                        #[trigger] cur[a]).path != (#[trigger] cur[b]).path by {
                            assert(orig[a].path == cur[a].path || a == i);
                            assert(orig[b].path == cur[b].path || b == i);
                        }
                    }
                    lemma_lookup_at(cur, i as int);
                    assert forall|p: Seq<char>|
                        p != path@ implies #[trigger] spec_lookup(cur, p) == spec_lookup(
                        orig,
                        p,
                    ) by {
                        assert forall|q: int|
                            0 <= q < orig.len() implies #[trigger] cur[q] == orig[q] || cur[q].path
                            != p && orig[q].path != p by {
                            if q == i {
                                assert(cur[q] == entry@);
                                assert(orig[q].path == path@);
                            } else {
                                assert(cur[q] == orig.update(i as int, entry@)[q]);
                            }
                        }
                        lemma_lookup_unaffected(orig, cur, p);
                    }
                }
                return ;
            }
            i = i + 1;
        }
        let entry = PendingEvent { path: path.clone(), event: clone_event(event), last_seen: now };
        let ghost prev = self.entries@;
        self.entries.push(entry);
        proof {
            let ghost cur = self.pending();
            prev.lemma_push_map_commute(|e: PendingEvent| e@, entry);
            assert(cur =~= orig.push(entry@));
            assert(forall|k: int| 0 <= k < orig.len() ==> (#[trigger] orig[k]).path != path@);
            assert(entries_wf(cur)) by {
                assert forall|a: int, b: int| 0 <= a < b < cur.len() implies (
                #[trigger] cur[a]).path != (#[trigger] cur[b]).path by {
                    if b < orig.len() {
                        assert(cur[a] == orig[a] && cur[b] == orig[b]);
                    } else {
                        assert(cur[a] == orig[a] && cur[b] == entry@);
                    }
                }
            }
            lemma_lookup_at(cur, cur.len() - 1);
            assert forall|p: Seq<char>|
                p != path@ implies #[trigger] spec_lookup(cur, p) == spec_lookup(orig, p) by {
                lemma_lookup_unaffected(orig, cur, p);
            }
        }
    }

    /// Record a raw event for every path it names, overwriting any pending
    /// entry for that path and resetting its quiet period to start at `now`.
    pub fn ingest(&mut self, event: &RawEvent, now: u64)
        requires
            old(self).wf(),
        ensures
            final(self).wf(),
            forall|k: int|
                0 <= k < event@.paths.len() ==> (spec_lookup(
                    final(self).pending(),
                    #[trigger] event@.paths[k],
                ) matches Some(e) && e.event == event@ && e.last_seen == now),
            forall|p: Seq<char>|
                !event@.paths.contains(p) ==> #[trigger] spec_lookup(final(self).pending(), p)
                    == spec_lookup(old(self).pending(), p),
    {
        let ghost orig = self.pending();
        let n = event.paths.len();
        let mut i: usize = 0;
        while i < n
            invariant
                i <= n,
                n == event.paths@.len(),
                self.wf(),
                forall|k: int|
                    0 <= k < i ==> (spec_lookup(self.pending(), #[trigger] event@.paths[k]) matches
                        Some(e) && e.event == event@ && e.last_seen == now),
                forall|p: Seq<char>|
                    !event@.paths.contains(p) ==> #[trigger] spec_lookup(self.pending(), p)
                        == spec_lookup(orig, p),
            decreases n - i,
        {
            let path = &event.paths[i];
            proof {
                assert(event@.paths[i as int] == path@);
                assert(event@.paths.contains(path@));
            }
            self.upsert(path, event, now);
            i = i + 1;
        }
    }

    /// Remove and return every entry whose quiet period has reached the
    /// window; the rest stay, in order.
    pub fn sweep(&mut self, now: u64, window_ms: u64) -> (r: Vec<PendingEvent>)
        requires
            old(self).wf(),
        ensures
            final(self).wf(),
            r@.map_values(|e: PendingEvent| e@) == old(self).pending().filter(
                matured_pred(now, window_ms),
            ),
            final(self).pending() == old(self).pending().filter(kept_pred(now, window_ms)),
    {
        let ghost orig = self.pending();
        let mut ready: Vec<PendingEvent> = Vec::new();
        let mut kept: Vec<PendingEvent> = Vec::new();
        proof {
            assert(orig.take(0) =~= Seq::<PendingEventView>::empty());
            assert(orig.skip(0) =~= orig);
            lemma_filter_empty(matured_pred(now, window_ms));
            lemma_filter_empty(kept_pred(now, window_ms));
            assert(ready@.map_values(|e: PendingEvent| e@) =~= Seq::<PendingEventView>::empty());
            assert(kept@.map_values(|e: PendingEvent| e@) =~= Seq::<PendingEventView>::empty());
        }
        let ghost mut processed: int = 0;
        while self.entries.len() > 0
            invariant
                0 <= processed <= orig.len(),
                self.pending() == orig.skip(processed),
                ready@.map_values(|e: PendingEvent| e@) == orig.take(processed).filter(
                    matured_pred(now, window_ms),
                ),
                kept@.map_values(|e: PendingEvent| e@) == orig.take(processed).filter(
                    kept_pred(now, window_ms),
                ),
            decreases self.entries.len(),
        {
            proof {
                assert(self.pending().len() == self.entries@.len());
                assert(orig.skip(processed).len() > 0);
                assert(processed < orig.len());
                assert(self.entries@[0]@ == self.pending()[0]);
                assert(self.pending()[0] == orig.skip(processed)[0]);
                assert(orig.skip(processed)[0] == orig[processed]);
            }
            let ghost prev_entries = self.entries@;
            let e = self.entries.remove(0);
            proof {
                assert(e@ == prev_entries[0]@);
                assert(prev_entries[0]@ == orig[processed]);
                assert(self.entries@ =~= prev_entries.skip(1));
                lemma_view_skip1(prev_entries);
                assert(self.pending() == prev_entries.map_values(|e: PendingEvent| e@).skip(1));
                assert(orig.skip(processed).skip(1) =~= orig.skip(processed + 1));
                assert(self.pending() == orig.skip(processed + 1));
                assert(orig.take(processed + 1) =~= orig.take(processed).push(orig[processed]));
            }
            let quiet = if now >= e.last_seen {
                now - e.last_seen
            } else {
                0
            };
            proof {
                Seq::filter_distributes_over_add(
                    orig.take(processed),
                    seq![orig[processed]],
                    matured_pred(now, window_ms),
                );
                Seq::filter_distributes_over_add(
                    orig.take(processed),
                    seq![orig[processed]],
                    kept_pred(now, window_ms),
                );
                lemma_filter_singleton(orig[processed], matured_pred(now, window_ms));
                lemma_filter_singleton(orig[processed], kept_pred(now, window_ms));
                assert(orig.take(processed) + seq![orig[processed]] =~= orig.take(processed).push(
                    orig[processed],
                ));
                assert(spec_matured(e@, now, window_ms) == (quiet >= window_ms));
            }
            if quiet >= window_ms {
                let ghost prev = ready@;
                ready.push(e);
                proof {
                    prev.lemma_push_map_commute(|e: PendingEvent| e@, e);
                    assert(ready@.map_values(|e: PendingEvent| e@) =~= orig.take(
                        processed + 1,
                    ).filter(matured_pred(now, window_ms)));
                    assert(kept@.map_values(|e: PendingEvent| e@) =~= orig.take(
                        processed + 1,
                    ).filter(kept_pred(now, window_ms)));
                }
            } else {
                let ghost prev = kept@;
                kept.push(e);
                proof {
                    prev.lemma_push_map_commute(|e: PendingEvent| e@, e);
                    assert(kept@.map_values(|e: PendingEvent| e@) =~= orig.take(
                        processed + 1,
                    ).filter(kept_pred(now, window_ms)));
                    assert(ready@.map_values(|e: PendingEvent| e@) =~= orig.take(
                        processed + 1,
                    ).filter(matured_pred(now, window_ms)));
                }
            }
            proof {
                processed = processed + 1;
            }
        }
        proof {
            assert(orig.take(processed) =~= orig);
        }
        self.entries = kept;
        proof {
            let ghost fin = self.pending();
            assert(fin == orig.filter(kept_pred(now, window_ms)));
            assert(entries_wf(fin)) by {
                assert forall|a: int, b: int| 0 <= a < b < fin.len() implies (
                #[trigger] fin[a]).path != (#[trigger] fin[b]).path by {
                    lemma_filter_is_subsequence(orig, kept_pred(now, window_ms), a, b);
                }
            }
        }
        ready
    }
}

/// Filtering the empty sequence yields the empty sequence.
proof fn lemma_filter_empty(pred: spec_fn(PendingEventView) -> bool)
    ensures
        Seq::<PendingEventView>::empty().filter(pred) == Seq::<PendingEventView>::empty(),
{
    reveal_with_fuel(Seq::<PendingEventView>::filter, 1);
    assert(Seq::<PendingEventView>::empty().filter(pred) =~= Seq::<PendingEventView>::empty());
}

/// Filtering a one-element sequence keeps or drops that element.
proof fn lemma_filter_singleton(e: PendingEventView, pred: spec_fn(PendingEventView) -> bool)
    ensures
        seq![e].filter(pred) == if pred(e) {
            seq![e]
        } else {
            Seq::<PendingEventView>::empty()
        },
{
    reveal_with_fuel(Seq::<PendingEventView>::filter, 2);
    let s = seq![e];
    assert(s.drop_last() =~= Seq::<PendingEventView>::empty());
    assert(s.drop_last().filter(pred) == Seq::<PendingEventView>::empty().filter(pred));
    if pred(e) {
        assert(s.filter(pred) =~= seq![e]);
    } else {
        assert(s.filter(pred) =~= Seq::<PendingEventView>::empty());
    }
}

/// Entries at two distinct positions of a filtered entry list still carry
/// distinct paths, since both come from the unfiltered list.
proof fn lemma_filter_is_subsequence(
    s: Seq<PendingEventView>,
    pred: spec_fn(PendingEventView) -> bool,
    a: int,
    b: int,
)
    requires
        entries_wf(s),
        0 <= a < b < s.filter(pred).len(),
    ensures
        s.filter(pred)[a].path != s.filter(pred)[b].path,
    decreases s.len(),
{
    reveal_with_fuel(Seq::<PendingEventView>::filter, 2);
    if s.len() > 0 {
        let f = s.filter(pred);
        let fd = s.drop_last().filter(pred);
        assert(entries_wf(s.drop_last())) by {
            assert forall|x: int, y: int|
                0 <= x < y < s.drop_last().len() implies (#[trigger] s.drop_last()[x]).path != (
            #[trigger] s.drop_last()[y]).path by {
                assert(s.drop_last()[x] == s[x]);
                assert(s.drop_last()[y] == s[y]);
            }
        }
        if pred(s.last()) {
            assert(f == fd.push(s.last()));
            if b < fd.len() {
                lemma_filter_is_subsequence(s.drop_last(), pred, a, b);
            } else {
                assert(f[b] == s.last());
                assert(0 <= a < fd.len());
                assert(fd.contains(fd[a]));
                s.drop_last().lemma_filter_contains_rev(pred, fd[a]);
                let i = choose|i: int|
                    0 <= i < s.drop_last().len() && #[trigger] s.drop_last()[i] == fd[a];
                assert(s.drop_last()[i] == s[i]);
                assert(s[i].path != s.last().path);
                assert(f[a] == fd[a]);
            }
        } else {
            assert(f == fd);
            lemma_filter_is_subsequence(s.drop_last(), pred, a, b);
        }
    }
}

/// Lookup of `p` is unchanged between two entry lists when every position
/// either agrees or holds, on both sides, an entry for some other path,
/// and any entry appended at the end is for some other path too.
proof fn lemma_lookup_unaffected(a: Seq<PendingEventView>, b: Seq<PendingEventView>, p: Seq<char>)
    requires
        a.len() <= b.len() <= a.len() + 1,
        forall|i: int| 0 <= i < a.len() ==> #[trigger] b[i] == a[i] || b[i].path != p && a[i].path != p,
        b.len() == a.len() + 1 ==> b[a.len() as int].path != p,
    ensures
        spec_lookup(b, p) == spec_lookup(a, p),
    decreases a.len(),
{
    if a.len() == 0 {
        if b.len() == 1 {
            assert(b[0].path != p);
            assert(b.skip(1) =~= Seq::<PendingEventView>::empty());
        }
    } else {
        assert(b[0] == a[0] || b[0].path != p && a[0].path != p);
        if b[0] == a[0] && a[0].path == p {
        } else {
            assert(forall|i: int|
                0 <= i < a.skip(1).len() ==> #[trigger] b.skip(1)[i] == a.skip(1)[i] || b.skip(
                    1,
                )[i].path != p && a.skip(1)[i].path != p);
            if b.len() == a.len() + 1 {
                assert(b.skip(1)[a.len() - 1].path != p);
            }
            lemma_lookup_unaffected(a.skip(1), b.skip(1), p);
        }
    }
}

} // verus!
