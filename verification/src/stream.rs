//! The bounded sort-and-emit buffer.
//!
//! Records accumulate up to a fixed capacity.  A push into a full
//! buffer first sorts the buffer ascending by the controlling time
//! and emits every record as one line to the sink, then starts the
//! next window with the new record.  `finish` drains what is left;
//! skipping it would silently drop the tail of the output.  Records
//! with equal controlling times keep their arrival order: the sort
//! is stable.

use vstd::multiset::Multiset;
use vstd::prelude::*;

use crate::line::format_line;
use crate::line::line_of;
use crate::record::QuotePacket;

verus! {

broadcast use vstd::seq_lib::group_to_multiset_ensures;

/// Every record of `s` is well formed.
pub open spec fn all_wf(s: Seq<QuotePacket>) -> bool {
    forall|i: int| 0 <= i < s.len() ==> (#[trigger] s[i]).wf()
}

/// Ascending by the controlling time.
pub open spec fn sorted_by_key(s: Seq<QuotePacket>) -> bool {
    forall|i: int, j: int|
        0 <= i < j < s.len() ==> #[trigger] s[i].sort_key() <= #[trigger] s[j].sort_key()
}

/// Insert `x` behind every record it does not strictly precede, so
/// that a record keeps its place among equals: the stable insertion.
pub open spec fn insert_sorted(s: Seq<QuotePacket>, x: QuotePacket) -> Seq<QuotePacket>
    decreases s.len(),
{
    if s.len() == 0 {
        seq![x]
    } else if x.sort_key() < s.last().sort_key() {
        insert_sorted(s.drop_last(), x).push(s.last())
    } else {
        s.push(x)
    }
}

/// The stable ascending sort of `s` by the controlling time: each
/// record inserted in arrival order.
pub open spec fn sort_of(s: Seq<QuotePacket>) -> Seq<QuotePacket>
    decreases s.len(),
{
    if s.len() == 0 {
        Seq::empty()
    } else {
        insert_sorted(sort_of(s.drop_last()), s.last())
    }
}

/// The output lines of the records of `s`, in order.
pub open spec fn lines_of(s: Seq<QuotePacket>) -> Seq<Seq<u8>> {
    s.map_values(|q: QuotePacket| line_of(q))
}

/// The byte views of a vector of lines.
pub open spec fn views_of(l: Seq<Vec<u8>>) -> Seq<Seq<u8>> {
    l.map_values(|v: Vec<u8>| v@)
}

/// What the buffer holds after the records of `rs` were pushed, in
/// order, into an empty buffer of capacity `cap`.
pub open spec fn run_buf(rs: Seq<QuotePacket>, cap: nat) -> Seq<QuotePacket>
    decreases rs.len(),
{
    if rs.len() == 0 {
        Seq::empty()
    } else {
        let b = run_buf(rs.drop_last(), cap);
        if b.len() < cap {
            b.push(rs.last())
        } else {
            seq![rs.last()]
        }
    }
}

/// The lines the same pushes emitted, drain by drain.
pub open spec fn run_lines(rs: Seq<QuotePacket>, cap: nat) -> Seq<Seq<u8>>
    decreases rs.len(),
{
    if rs.len() == 0 {
        Seq::empty()
    } else {
        let b = run_buf(rs.drop_last(), cap);
        let l = run_lines(rs.drop_last(), cap);
        if b.len() < cap {
            l
        } else {
            l + lines_of(sort_of(b))
        }
    }
}

/// Every line of the run, the mandatory final drain included.
pub open spec fn run_output(rs: Seq<QuotePacket>, cap: nat) -> Seq<Seq<u8>> {
    run_lines(rs, cap) + lines_of(sort_of(run_buf(rs, cap)))
}

/// Whatever bounds `x` and all of `s` bounds all of `insert_sorted(s, x)`.
proof fn lemma_insert_sorted_bound(s: Seq<QuotePacket>, x: QuotePacket, b: int)
    requires
        forall|i: int| 0 <= i < s.len() ==> (#[trigger] s[i]).sort_key() <= b,
        x.sort_key() <= b,
    ensures
        forall|i: int|
            0 <= i < insert_sorted(s, x).len() ==> (#[trigger] insert_sorted(s, x)[i]).sort_key()
                <= b,
    decreases s.len(),
{
    if s.len() == 0 {
        assert(insert_sorted(s, x) =~= seq![x]);
    } else if x.sort_key() < s.last().sort_key() {
        let dl = s.drop_last();
        assert(forall|i: int| 0 <= i < dl.len() ==> dl[i] == s[i]);
        lemma_insert_sorted_bound(dl, x, b);
        let r0 = insert_sorted(dl, x);
        let r = insert_sorted(s, x);
        assert(r == r0.push(s.last()));
        assert(forall|i: int| 0 <= i < r0.len() ==> r[i] == r0[i]);
        assert(r[r.len() - 1] == s.last());
    } else {
        let r = insert_sorted(s, x);
        assert(r == s.push(x));
        assert(forall|i: int| 0 <= i < s.len() ==> r[i] == s[i]);
        assert(r[s.len() as int] == x);
    }
}

/// Stable insertion keeps the buffer sorted, grows it by one record,
/// adds exactly that record to its contents, and keeps every record
/// well formed.
pub proof fn lemma_insert_sorted(s: Seq<QuotePacket>, x: QuotePacket)
    requires
        sorted_by_key(s),
    ensures
        sorted_by_key(insert_sorted(s, x)),
        insert_sorted(s, x).len() == s.len() + 1,
        insert_sorted(s, x).to_multiset() == s.to_multiset().insert(x),
        all_wf(s) && x.wf() ==> all_wf(insert_sorted(s, x)),
    decreases s.len(),
{
    if s.len() == 0 {
        assert(insert_sorted(s, x) =~= seq![x]);
        assert(s.to_multiset() =~= Multiset::empty());
        assert(insert_sorted(s, x).to_multiset() =~= s.to_multiset().insert(x));
    } else if x.sort_key() < s.last().sort_key() {
        let dl = s.drop_last();
        assert(sorted_by_key(dl)) by {
            assert(forall|i: int| 0 <= i < dl.len() ==> dl[i] == s[i]);
        }
        assert(all_wf(s) ==> all_wf(dl)) by {
            assert(forall|i: int| 0 <= i < dl.len() ==> dl[i] == s[i]);
        }
        lemma_insert_sorted(dl, x);
        assert(forall|i: int| 0 <= i < dl.len() ==> (#[trigger] dl[i]).sort_key()
            <= s.last().sort_key());
        lemma_insert_sorted_bound(dl, x, s.last().sort_key());
        assert(s =~= dl.push(s.last()));
        assert(s.to_multiset() == dl.to_multiset().insert(s.last()));
        assert(insert_sorted(s, x).to_multiset() == insert_sorted(dl, x).to_multiset().insert(
            s.last(),
        ));
        assert(insert_sorted(s, x).to_multiset() =~= s.to_multiset().insert(x));
        assert(all_wf(s) && x.wf() ==> all_wf(insert_sorted(s, x))) by {
            if all_wf(s) && x.wf() {
                assert(forall|i: int|
                    0 <= i < insert_sorted(dl, x).len() ==> (#[trigger] insert_sorted(dl, x)[i]).wf());
                assert(s.last().wf());
            }
        }
    } else {
        assert(insert_sorted(s, x) == s.push(x));
        assert(forall|i: int| 0 <= i < s.len() ==> (#[trigger] s[i]).sort_key()
            <= x.sort_key()) by {
            assert(forall|i: int| 0 <= i < s.len() - 1 ==> (#[trigger] s[i]).sort_key()
                <= s.last().sort_key());
        }
    }
}

/// The sort of a buffer is ascending by the controlling time, keeps
/// exactly the buffer's records, and keeps them well formed.
pub proof fn lemma_sort_of(s: Seq<QuotePacket>)
    ensures
        sorted_by_key(sort_of(s)),
        sort_of(s).len() == s.len(),
        sort_of(s).to_multiset() == s.to_multiset(),
        all_wf(s) ==> all_wf(sort_of(s)),
    decreases s.len(),
{
    if s.len() == 0 {
        assert(sort_of(s) =~= Seq::<QuotePacket>::empty());
    } else {
        let dl = s.drop_last();
        assert(all_wf(s) ==> all_wf(dl) && s.last().wf()) by {
            assert(forall|i: int| 0 <= i < dl.len() ==> dl[i] == s[i]);
            assert(s.last() == s[s.len() - 1]);
        }
        lemma_sort_of(dl);
        lemma_insert_sorted(sort_of(dl), s.last());
        assert(s =~= dl.push(s.last()));
        assert(s.to_multiset() == dl.to_multiset().insert(s.last()));
        assert(sort_of(s).to_multiset() =~= s.to_multiset());
    }
}

/// Viewing a vector of lines commutes with appending one line.
proof fn lemma_views_push(l: Seq<Vec<u8>>, v: Vec<u8>)
    ensures
        views_of(l.push(v)) == views_of(l).push(v@),
{
    assert(views_of(l.push(v)) =~= views_of(l).push(v@));
}

/// The lines of one more record extend the lines so far by its line.
proof fn lemma_lines_take_push(s: Seq<QuotePacket>, i: int)
    requires
        0 <= i < s.len(),
    ensures
        lines_of(s.take(i + 1)) == lines_of(s.take(i)).push(line_of(s[i])),
{
    assert(lines_of(s.take(i + 1)) =~= lines_of(s.take(i)).push(line_of(s[i])));
}

/// `insert_sorted` splits at the first suffix whose keys all exceed
/// the inserted record's key.
proof fn lemma_insert_sorted_split(s: Seq<QuotePacket>, x: QuotePacket, idx: int)
    requires
        0 <= idx <= s.len(),
        forall|j: int| idx <= j < s.len() ==> x.sort_key() < (#[trigger] s[j]).sort_key(),
        idx > 0 ==> s[idx - 1].sort_key() <= x.sort_key(),
    ensures
        insert_sorted(s, x) == s.take(idx) + seq![x] + s.skip(idx),
    decreases s.len(),
{
    if idx == s.len() {
        if s.len() == 0 {
            assert(insert_sorted(s, x) =~= s.take(idx) + seq![x] + s.skip(idx));
        } else {
            assert(s[idx - 1] == s.last());
            assert(insert_sorted(s, x) == s.push(x));
            assert(s.push(x) =~= s.take(idx) + seq![x] + s.skip(idx));
        }
    } else {
        assert(x.sort_key() < (s[s.len() - 1]).sort_key());
        let dl = s.drop_last();
        assert(forall|j: int| 0 <= j < dl.len() ==> dl[j] == s[j]);
        lemma_insert_sorted_split(dl, x, idx);
        assert(insert_sorted(s, x) == insert_sorted(dl, x).push(s.last()));
        assert((dl.take(idx) + seq![x] + dl.skip(idx)).push(s.last()) =~= s.take(idx) + seq![x]
            + s.skip(idx));
    }
}

/// Place one record into an already drained window at its stable
/// position.
#[verifier::loop_isolation(false)]
fn insert_packet(out: &mut Vec<QuotePacket>, x: QuotePacket)
    requires
        all_wf(old(out)@),
        x.wf(),
    ensures
        final(out)@ == insert_sorted(old(out)@, x),
        all_wf(final(out)@),
{
    let mut idx: usize = out.len();
    while idx > 0 && !(out[idx - 1].le(&x))
        invariant
            idx <= out@.len(),
            all_wf(out@),
            forall|j: int| idx <= j < out@.len() ==> x.sort_key() < (#[trigger] out@[j]).sort_key(),
        decreases idx,
    {
        idx = idx - 1;
    }
    proof {
        lemma_insert_sorted_split(out@, x, idx as int);
    }
    let ghost before = out@;
    out.insert(idx, x);
    proof {
        assert(out@ =~= before.take(idx as int) + seq![x] + before.skip(idx as int));
        assert forall|i: int| 0 <= i < out@.len() implies (#[trigger] out@[i]).wf() by {
            if i < idx {
                assert(out@[i] == before[i]);
            } else if i == idx {
                assert(out@[i] == x);
            } else {
                assert(out@[i] == before[i - 1]);
            }
        }
    }
}

/// Sort one drained window, stably, ascending by the controlling
/// time.
fn sort_packets(v: Vec<QuotePacket>) -> (r: Vec<QuotePacket>)
    requires
        all_wf(v@),
    ensures
        r@ == sort_of(v@),
        all_wf(r@),
{
    let ghost orig = v@;
    let mut rest = v;
    let mut out: Vec<QuotePacket> = Vec::new();
    proof {
        assert(out@ =~= sort_of(orig.take(0)));
        assert(rest@ =~= orig.skip(0));
    }
    while rest.len() > 0
        invariant
            rest@.len() <= orig.len(),
            out@ == sort_of(orig.take(orig.len() - rest@.len())),
            rest@ == orig.skip(orig.len() - rest@.len()),
            all_wf(orig),
            all_wf(out@),
        decreases rest@.len(),
    {
        let ghost k = orig.len() - rest@.len();
        let x = rest.remove(0);
        proof {
            assert(x == orig[k]);
            assert(x.wf());
            assert(rest@ =~= orig.skip(k + 1));
        }
        insert_packet(&mut out, x);
        proof {
            let t = orig.take(k + 1);
            assert(t.drop_last() =~= orig.take(k as int));
            assert(t.last() == orig[k]);
            assert(out@ == sort_of(t));
        }
    }
    proof {
        assert(orig.take(orig.len() - rest@.len()) =~= orig);
    }
    out
}

/// The bounded sort-and-emit buffer.  Records are pushed in arrival
/// order; full windows and the final drain leave through the sink as
/// formatted lines.
pub struct Stream {
    packets: Vec<QuotePacket>,
    capacity: usize,
    history: Ghost<Seq<QuotePacket>>,
}

impl Stream {
    /// The records now buffered, in arrival order.
    pub closed spec fn buffered(self) -> Seq<QuotePacket> {
        self.packets@
    }

    /// The capacity C: how many records the buffer holds before a
    /// push drains it.
    pub closed spec fn cap(self) -> nat {
        self.capacity as nat
    }

    /// Every record pushed since `new`, in arrival order.
    pub closed spec fn pushed(self) -> Seq<QuotePacket> {
        self.history@
    }

    pub open spec fn wf(self) -> bool {
        &&& self.cap() >= 1
        &&& self.buffered().len() <= self.cap()
        &&& all_wf(self.buffered())
    }

    /// The buffer and the lines emitted since `new` are exactly what
    /// the pushes since `new` dictate.
    pub open spec fn synced(self, emitted: Seq<Seq<u8>>) -> bool {
        &&& self.buffered() == run_buf(self.pushed(), self.cap())
        &&& emitted == run_lines(self.pushed(), self.cap())
    }

    /// An empty buffer of capacity `capacity`.
    pub fn new(capacity: usize) -> (r: Stream)
        requires
            capacity >= 1,
        ensures
            r.wf(),
            r.cap() == capacity,
            r.pushed() == Seq::<QuotePacket>::empty(),
            r.buffered() == Seq::<QuotePacket>::empty(),
            r.synced(Seq::<Seq<u8>>::empty()),
    {
        let r = Stream { packets: Vec::new(), capacity, history: Ghost(Seq::empty()) };
        proof {
            assert(r.buffered() =~= run_buf(r.pushed(), r.cap()));
            assert(Seq::<Seq<u8>>::empty() =~= run_lines(r.pushed(), r.cap()));
        }
        r
    }

    /// Sort `w` and append each record's line to the sink.
    fn drain_window(w: Vec<QuotePacket>, out: &mut Vec<Vec<u8>>)
        requires
            all_wf(w@),
        ensures
            views_of(final(out)@) == views_of(old(out)@) + lines_of(sort_of(w@)),
    {
        let ghost contents = w@;
        let sorted = sort_packets(w);
        proof {
            lemma_sort_of(contents);
        }
        let mut i: usize = 0;
        while i < sorted.len()
            invariant
                i <= sorted@.len(),
                sorted@ == sort_of(contents),
                all_wf(sorted@),
                views_of(out@) == views_of(old(out)@) + lines_of(sort_of(contents).take(i as int)),
            decreases sorted@.len() - i,
        {
            let line = format_line(&sorted[i]);
            let ghost prev = out@;
            out.push(line);
            proof {
                let s = sort_of(contents);
                lemma_views_push(prev, line);
                lemma_lines_take_push(s, i as int);
                assert(line@ == line_of(s[i as int]));
                assert((views_of(old(out)@) + lines_of(s.take(i as int))).push(line@) =~= views_of(
                    old(out)@,
                ) + lines_of(s.take(i as int)).push(line@));
            }
            i = i + 1;
        }
        proof {
            assert(sort_of(contents).take(sorted@.len() as int) =~= sort_of(contents));
            assert(views_of(out@) =~= views_of(old(out)@) + lines_of(sort_of(contents)));
        }
    }

    /// Push one record.  A push into a buffer with room only buffers;
    /// a push into a full buffer first sorts and emits the whole
    /// window, then starts the next window with this record.
    pub fn push(&mut self, q: QuotePacket, out: &mut Vec<Vec<u8>>)
        requires
            old(self).wf(),
            q.wf(),
        ensures
            final(self).wf(),
            final(self).cap() == old(self).cap(),
            final(self).pushed() == old(self).pushed().push(q),
            old(self).buffered().len() < old(self).cap() ==> {
                &&& final(self).buffered() == old(self).buffered().push(q)
                &&& final(out)@ == old(out)@
            },
            old(self).buffered().len() == old(self).cap() ==> {
                &&& final(self).buffered() == seq![q]
                &&& views_of(final(out)@) == views_of(old(out)@) + lines_of(
                    sort_of(old(self).buffered()),
                )
            },
            old(self).synced(views_of(old(out)@)) ==> final(self).synced(views_of(final(out)@)),
    {
        proof {
            self.history@ = self.history@.push(q);
        }
        if self.packets.len() == self.capacity {
            let mut w: Vec<QuotePacket> = Vec::new();
            core::mem::swap(&mut self.packets, &mut w);
            Self::drain_window(w, out);
            self.packets.push(q);
            proof {
                assert(self.packets@ =~= seq![q]);
            }
        } else {
            self.packets.push(q);
        }
        proof {
            let rs = old(self).pushed().push(q);
            assert(rs.drop_last() =~= old(self).pushed());
            assert(rs.last() == q);
            if old(self).synced(views_of(old(out)@)) {
                assert(self.buffered() =~= run_buf(rs, self.cap()));
                assert(views_of(out@) =~= run_lines(rs, self.cap()));
            }
        }
    }

    /// Drain whatever is still buffered: sort it and emit every
    /// record.  Mandatory at end of stream; the lines emitted over
    /// the whole run are then exactly `run_output` of the pushes.
    pub fn finish(&mut self, out: &mut Vec<Vec<u8>>)
        requires
            old(self).wf(),
        ensures
            final(self).wf(),
            final(self).cap() == old(self).cap(),
            final(self).pushed() == old(self).pushed(),
            final(self).buffered() == Seq::<QuotePacket>::empty(),
            views_of(final(out)@) == views_of(old(out)@) + lines_of(sort_of(old(self).buffered())),
            old(self).synced(views_of(old(out)@)) ==> views_of(final(out)@) == run_output(
                old(self).pushed(),
                old(self).cap(),
            ),
    {
        let mut w: Vec<QuotePacket> = Vec::new();
        core::mem::swap(&mut self.packets, &mut w);
        Self::drain_window(w, out);
        proof {
            assert(self.packets@ =~= Seq::<QuotePacket>::empty());
        }
    }
}

/// With capacity at or above the record count nothing drains early:
/// the buffer keeps every record and no line leaves.
proof fn lemma_small_run_stays(rs: Seq<QuotePacket>, cap: nat)
    requires
        rs.len() <= cap,
    ensures
        run_buf(rs, cap) == rs,
        run_lines(rs, cap) == Seq::<Seq<u8>>::empty(),
    decreases rs.len(),
{
    if rs.len() == 0 {
        assert(run_buf(rs, cap) =~= rs);
    } else {
        lemma_small_run_stays(rs.drop_last(), cap);
        assert(run_buf(rs, cap) =~= rs);
    }
}

/// Global-sort law: when the capacity is at least the number of
/// records pushed, the run's whole output is every record's line,
/// ascending by the controlling time, all in the final drain.
pub proof fn lemma_global_sort(rs: Seq<QuotePacket>, cap: nat)
    requires
        rs.len() <= cap,
    ensures
        run_output(rs, cap) == lines_of(sort_of(rs)),
        sorted_by_key(sort_of(rs)),
        sort_of(rs).to_multiset() == rs.to_multiset(),
{
    lemma_small_run_stays(rs, cap);
    lemma_sort_of(rs);
    assert(run_output(rs, cap) =~= lines_of(sort_of(rs)));
}

/// No-loss law: over all drains, the final one included, the run
/// emits exactly one line per pushed record.
pub proof fn lemma_no_loss(rs: Seq<QuotePacket>, cap: nat)
    requires
        cap >= 1,
    ensures
        run_output(rs, cap).len() == rs.len(),
    decreases rs.len(),
{
    lemma_sort_of(run_buf(rs, cap));
    if rs.len() == 0 {
    } else {
        lemma_no_loss(rs.drop_last(), cap);
        lemma_sort_of(run_buf(rs.drop_last(), cap));
    }
}

} // verus!
