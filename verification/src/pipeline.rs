//! The decoding pipeline: blocks in, ordered quote lines out.
//!
//! Bytes of the capture stream are fed in chunks.  The pipeline reads
//! blocks, normalizes each record's capture timestamp, classifies and
//! decodes its payload, and pushes every decoded quote through the
//! bounded sort-and-emit buffer into the sink.  `pump` is the
//! pipeline's functional specification: what one processing pass
//! over the available bytes yields.

use vstd::prelude::*;

use crate::reader::le32;
use crate::reader::magic_big_endian;
use crate::reader::magic_modified;
use crate::reader::network_of;
use crate::reader::u32_at;
use crate::reader::classify_link_payload;
use crate::reader::BlockReader;
use crate::reader::NextBlock;
use crate::reader::ReaderModel;
use crate::record::quote_ok;
use crate::record::record_of;
use crate::record::lemma_decoded_model;
use crate::record::LinkPayload;
use crate::record::PacketDataWithTime;
use crate::record::PacketOrdering;
use crate::record::QuotePacket;
use crate::record::RecordModel;
use crate::stream::run_output;
use crate::stream::views_of;
use crate::stream::Stream;
use crate::times::local_time_spec;
use crate::times::TimeOfDay;
use crate::times::normalize_capture_time;

verus! {

/// A condition that ends the run without the output's tail.
#[derive(Copy, Clone, Debug, Eq, PartialEq, Structural)]
pub enum PipelineError {
    /// The capture structure is malformed (a foreign or truncated
    /// block, or none where the global header is owed).
    MalformedCapture,
    /// A record block carried a timestamp no time of day represents.
    BadTimestamp,
}

/// Why one processing pass stopped.
pub enum PumpStop {
    /// The next block needs bytes the source has not supplied yet.
    Blocked,
    /// The closed stream was consumed whole: normal termination.
    Ended,
    /// A fatal condition.
    Failed(PipelineError),
}

/// What one processing pass yields: the reader state it leaves, the
/// link type in force, the records it decodes in order, and why it
/// stopped.
pub ghost struct PumpResult {
    pub reader: ReaderModel,
    pub net: int,
    pub records: Seq<RecordModel>,
    pub stop: PumpStop,
}

/// The record models one pass decodes out of `m`, given the link
/// type `net` in force and the run's ordering mode.  Mirrors, block
/// by block, what the reader, the time normalizer, the classifier
/// and the field decoder do.
#[verifier::opaque]
pub open spec fn pump(m: ReaderModel, net: int, ord: PacketOrdering) -> PumpResult
    decreases m.data.len() - m.pos,
    when 0 <= m.pos <= m.data.len()
{
    if !m.header_seen {
        if m.header_ready() && magic_modified(le32(m.rest(), 0)) {
            PumpResult { reader: m, net, records: Seq::empty(), stop: PumpStop::Failed(PipelineError::MalformedCapture) }
        } else if m.header_ready() {
            let be = magic_big_endian(le32(m.rest(), 0));
            let m2 = ReaderModel { pos: m.pos + 24, header_seen: true, big_endian: be, ..m };
            pump(m2, network_of(m.rest(), be), ord)
        } else if m.header_bad() || m.exhausted {
            PumpResult { reader: m, net, records: Seq::empty(), stop: PumpStop::Failed(PipelineError::MalformedCapture) }
        } else {
            PumpResult { reader: m, net, records: Seq::empty(), stop: PumpStop::Blocked }
        }
    } else {
        if m.rest().len() == 0 {
            if m.exhausted {
                PumpResult { reader: m, net, records: Seq::empty(), stop: PumpStop::Ended }
            } else {
                PumpResult { reader: m, net, records: Seq::empty(), stop: PumpStop::Blocked }
            }
        } else if m.frame_ready() {
            let ts_sec = u32_at(m.rest(), 0, m.big_endian);
            let ts_usec = u32_at(m.rest(), 4, m.big_endian);
            let payload = m.rest().subrange(16, 16 + m.frame_cap());
            let m2 = ReaderModel { pos: m.pos + 16 + m.frame_cap(), ..m };
            if ts_usec >= 1000000 {
                PumpResult { reader: m, net, records: Seq::empty(), stop: PumpStop::Failed(PipelineError::BadTimestamp) }
            } else {
                let t = local_time_spec(ts_sec, ts_usec);
                let rest_run = pump(m2, net, ord);
                if net == 1 && payload.len() > 0 && quote_ok(payload) {
                    PumpResult { records: seq![record_of(payload, t, ord)] + rest_run.records, ..rest_run }
                } else {
                    rest_run
                }
            }
        } else if m.exhausted {
            PumpResult { reader: m, net, records: Seq::empty(), stop: PumpStop::Failed(PipelineError::MalformedCapture) }
        } else {
            PumpResult { reader: m, net, records: Seq::empty(), stop: PumpStop::Blocked }
        }
    }
}

/// Unfolding `pump` once at a header block.
proof fn lemma_pump_header(m: ReaderModel, net: int, ord: PacketOrdering)
    requires
        0 <= m.pos <= m.data.len(),
        !m.header_seen,
        m.header_ready(),
        !magic_modified(le32(m.rest(), 0)),
    ensures
        pump(m, net, ord) == pump(
            ReaderModel {
                pos: m.pos + 24,
                header_seen: true,
                big_endian: magic_big_endian(le32(m.rest(), 0)),
                ..m
            },
            network_of(m.rest(), magic_big_endian(le32(m.rest(), 0))),
            ord,
        ),
{
    reveal_with_fuel(pump, 1);
}

/// Unfolding `pump` once where it stops: at backpressure, at end of
/// stream, and at each fatal condition.
proof fn lemma_pump_stop(m: ReaderModel, net: int, ord: PacketOrdering)
    requires
        0 <= m.pos <= m.data.len(),
    ensures
        !m.header_seen && m.header_ready() && magic_modified(le32(m.rest(), 0)) ==> pump(m, net, ord)
            == (PumpResult { reader: m, net, records: Seq::empty(), stop: PumpStop::Failed(PipelineError::MalformedCapture) }),
        !m.header_seen && !m.header_ready() && (m.header_bad() || m.exhausted) ==> pump(m, net, ord)
            == (PumpResult { reader: m, net, records: Seq::empty(), stop: PumpStop::Failed(PipelineError::MalformedCapture) }),
        !m.header_seen && !m.header_ready() && !m.header_bad() && !m.exhausted ==> pump(m, net, ord)
            == (PumpResult { reader: m, net, records: Seq::empty(), stop: PumpStop::Blocked }),
        m.header_seen && m.rest().len() == 0 && m.exhausted ==> pump(m, net, ord) == (PumpResult {
            reader: m,
            net,
            records: Seq::empty(),
            stop: PumpStop::Ended,
        }),
        m.header_seen && m.rest().len() == 0 && !m.exhausted ==> pump(m, net, ord) == (PumpResult {
            reader: m,
            net,
            records: Seq::empty(),
            stop: PumpStop::Blocked,
        }),
        m.header_seen && m.rest().len() > 0 && m.frame_ready() && u32_at(m.rest(), 4, m.big_endian)
            >= 1000000 ==> pump(m, net, ord) == (PumpResult {
            reader: m,
            net,
            records: Seq::empty(),
            stop: PumpStop::Failed(PipelineError::BadTimestamp),
        }),
        m.header_seen && m.rest().len() > 0 && !m.frame_ready() && m.exhausted ==> pump(m, net, ord)
            == (PumpResult { reader: m, net, records: Seq::empty(), stop: PumpStop::Failed(PipelineError::MalformedCapture) }),
        m.header_seen && m.rest().len() > 0 && !m.frame_ready() && !m.exhausted ==> pump(m, net, ord)
            == (PumpResult { reader: m, net, records: Seq::empty(), stop: PumpStop::Blocked }),
{
    reveal_with_fuel(pump, 1);
}

/// Unfolding `pump` once at a record block with a sound timestamp.
proof fn lemma_pump_record(m: ReaderModel, net: int, ord: PacketOrdering)
    requires
        0 <= m.pos <= m.data.len(),
        m.header_seen,
        m.rest().len() > 0,
        m.frame_ready(),
        u32_at(m.rest(), 4, m.big_endian) < 1000000,
    ensures
        ({
            let payload = m.rest().subrange(16, 16 + m.frame_cap());
            let t = local_time_spec(u32_at(m.rest(), 0, m.big_endian), u32_at(m.rest(), 4, m.big_endian));
            let nxt = pump(ReaderModel { pos: m.pos + 16 + m.frame_cap(), ..m }, net, ord);
            &&& pump(m, net, ord).reader == nxt.reader
            &&& pump(m, net, ord).net == nxt.net
            &&& pump(m, net, ord).stop == nxt.stop
            &&& (net == 1 && payload.len() > 0 && quote_ok(payload) ==> pump(m, net, ord).records
                == seq![record_of(payload, t, ord)] + nxt.records)
            &&& (!(net == 1 && payload.len() > 0 && quote_ok(payload)) ==> pump(m, net, ord).records
                == nxt.records)
        }),
{
    reveal_with_fuel(pump, 1);
}

/// The models of a sequence of records.
pub open spec fn models(s: Seq<QuotePacket>) -> Seq<RecordModel> {
    s.map_values(|q: QuotePacket| q.model())
}

/// A closed stream never blocks a pass.
proof fn lemma_pump_closed_never_blocks(m: ReaderModel, net: int, ord: PacketOrdering)
    requires
        0 <= m.pos <= m.data.len(),
        m.exhausted,
    ensures
        !(pump(m, net, ord).stop is Blocked),
    decreases m.data.len() - m.pos,
{
    reveal_with_fuel(pump, 1);
    if !m.header_seen {
        if m.header_ready() && !magic_modified(le32(m.rest(), 0)) {
            let be = magic_big_endian(le32(m.rest(), 0));
            let m2 = ReaderModel { pos: m.pos + 24, header_seen: true, big_endian: be, ..m };
            lemma_pump_closed_never_blocks(m2, network_of(m.rest(), be), ord);
        }
    } else {
        if m.rest().len() != 0 && m.frame_ready() {
            let ts_usec = u32_at(m.rest(), 4, m.big_endian);
            let m2 = ReaderModel { pos: m.pos + 16 + m.frame_cap(), ..m };
            if ts_usec < 1000000 {
                lemma_pump_closed_never_blocks(m2, net, ord);
            }
        }
    }
}

/// How far a pass still has to go: unconsumed bytes, plus one while
/// the header is owed.
pub open spec fn measure_of(m: ReaderModel) -> int {
    m.data.len() - m.pos + if m.header_seen {
        0int
    } else {
        1int
    }
}

/// What one `step` did.
enum StepResult {
    /// A block was consumed; the pass goes on.
    Continue,
    /// More bytes are needed.
    Blocked,
    /// End of the closed stream.
    Ended,
    /// A fatal condition.
    Fatal(PipelineError),
}

/// Pushing one record extends the models of the pushed records by
/// its model.
proof fn lemma_models_push(
    base: Seq<QuotePacket>,
    done: Seq<RecordModel>,
    now: Seq<QuotePacket>,
    q: QuotePacket,
)
    requires
        models(now.drop_last()) == models(base) + done,
        now.len() > 0,
        now.last() == q,
    ensures
        models(now) == models(base) + done.push(q.model()),
{
    assert(models(now) =~= models(now.drop_last()).push(q.model()));
    assert(models(now.drop_last()).push(q.model()) =~= models(base) + done.push(q.model()));
}

/// The whole pipeline: a block reader feeding the decoder, feeding
/// the sort-and-emit buffer.
pub struct Pipeline {
    reader: BlockReader,
    stream: Stream,
    ordering: PacketOrdering,
    network: i32,
    failed: bool,
}

impl Pipeline {
    /// The reader's abstract state.
    pub closed spec fn rm(self) -> ReaderModel {
        self.reader@
    }

    /// The link type in force (0 until the header block is read).
    pub closed spec fn net(self) -> int {
        self.network as int
    }

    /// The run's ordering mode.
    pub closed spec fn ord(self) -> PacketOrdering {
        self.ordering
    }

    /// The capacity of the sort-and-emit buffer.
    pub closed spec fn cap(self) -> nat {
        self.stream.cap()
    }

    /// Every record decoded so far, in arrival order.
    pub closed spec fn records(self) -> Seq<QuotePacket> {
        self.stream.pushed()
    }

    /// Whether a fatal condition ended the run.
    pub closed spec fn failed(self) -> bool {
        self.failed
    }

    pub closed spec fn wf(self) -> bool {
        &&& self.rm().pos >= 0
        &&& self.rm().pos <= self.rm().data.len()
        &&& self.stream.wf()
    }

    /// The lines appended to the sink so far are exactly what the
    /// decoded records dictate.
    pub closed spec fn synced(self, emitted: Seq<Seq<u8>>) -> bool {
        self.stream.synced(emitted)
    }

    /// A fresh pipeline: `ordering` picks the controlling time field
    /// of the run, `capacity` bounds the sort-and-emit buffer.
    pub fn new(ordering: PacketOrdering, capacity: usize) -> (r: Pipeline)
        requires
            capacity >= 1,
        ensures
            r.wf(),
            !r.failed(),
            r.ord() == ordering,
            r.net() == 0,
            r.cap() == capacity,
            r.records() == Seq::<QuotePacket>::empty(),
            r.synced(Seq::<Seq<u8>>::empty()),
            r.rm() == (ReaderModel {
                data: Seq::<u8>::empty(),
                pos: 0,
                header_seen: false,
                big_endian: false,
                exhausted: false,
            }),
    {
        Pipeline {
            reader: BlockReader::new(),
            stream: Stream::new(capacity),
            ordering,
            network: 0,
            failed: false,
        }
    }

    /// Decode one classified payload and push any resulting record.
    #[verifier::rlimit(100)]
    #[verifier::spinoff_prover]
    fn decode_push(&mut self, lp: LinkPayload, t: TimeOfDay, out: &mut Vec<Vec<u8>>) -> (added:
        bool)
        requires
            old(self).wf(),
            !old(self).failed(),
            t.wf(),
        ensures
            final(self).wf(),
            final(self).ord() == old(self).ord(),
            final(self).cap() == old(self).cap(),
            final(self).rm() == old(self).rm(),
            final(self).net() == old(self).net(),
            final(self).failed() == old(self).failed(),
            added <==> (lp matches LinkPayload::Ether(p) && quote_ok(p@)),
            added ==> models(final(self).records()) == models(old(self).records()).push(
                record_of(lp->Ether_0@, t, old(self).ord()),
            ),
            !added ==> final(self).records() == old(self).records() && final(out)@ == old(out)@,
            old(self).synced(views_of(old(out)@)) ==> final(self).synced(views_of(final(out)@)),
    {
        let ghost pl_ghost = lp;
        let d = PacketDataWithTime { data: lp, packet_timestamp: t, ordering: self.ordering };
        match QuotePacket::try_from(d) {
            Ok(q) => {
                let ghost base = self.records();
                self.stream.push(q, out);
                proof {
                    lemma_decoded_model(q, pl_ghost->Ether_0@, t, self.ordering);
                    assert(self.records().drop_last() =~= base);
                    assert(models(self.records()) =~= models(base).push(q.model()));
                }
                true
            },
            Err(_) => false,
        }
    }

    /// Handle one record block: normalize its timestamp, classify
    /// and decode its payload, and push any decoded quote.
    #[verifier::rlimit(100)]
    #[verifier::spinoff_prover]
    fn handle_record(
        &mut self,
        ts_sec: u32,
        ts_usec: u32,
        payload: Vec<u8>,
        Ghost(m): Ghost<ReaderModel>,
        out: &mut Vec<Vec<u8>>,
    ) -> (r: StepResult)
        requires
            old(self).wf(),
            !old(self).failed(),
            0 <= m.pos <= m.data.len(),
            m.header_seen,
            m.rest().len() > 0,
            m.frame_ready(),
            old(self).rm() == (ReaderModel { pos: m.pos + 16 + m.frame_cap(), ..m }),
            ts_sec == u32_at(m.rest(), 0, m.big_endian),
            ts_usec == u32_at(m.rest(), 4, m.big_endian),
            payload@ == m.rest().subrange(16, 16 + m.frame_cap()),
        ensures
            final(self).wf(),
            final(self).ord() == old(self).ord(),
            final(self).cap() == old(self).cap(),
            ({
                let cur = pump(m, old(self).net(), old(self).ord());
                let nxt = pump(final(self).rm(), final(self).net(), final(self).ord());
                let n = final(self).records().len() - old(self).records().len();
                &&& (r is Continue ==> {
                    &&& !final(self).failed()
                    &&& nxt.reader == cur.reader
                    &&& nxt.net == cur.net
                    &&& nxt.stop == cur.stop
                    &&& 0 <= n <= cur.records.len()
                    &&& nxt.records == cur.records.skip(n)
                    &&& models(final(self).records()) == models(old(self).records())
                        + cur.records.take(n)
                })
                &&& (r is Continue ==> measure_of(final(self).rm()) < measure_of(m))
                &&& !(r is Blocked) && !(r is Ended)
                &&& (r matches StepResult::Fatal(e) ==> cur.stop == PumpStop::Failed(e)
                    && final(self).failed() && cur.records == Seq::<RecordModel>::empty()
                    && final(self).records() == old(self).records())
                &&& (old(self).synced(views_of(old(out)@)) ==> final(self).synced(
                    views_of(final(out)@),
                ))
            }),
    {
        let ghost cur = pump(m, self.net(), self.ord());
        let ghost ts = u32_at(m.rest(), 0, m.big_endian);
        let ghost tu = u32_at(m.rest(), 4, m.big_endian);
        let ghost pl = m.rest().subrange(16, 16 + m.frame_cap());
        let ghost m2 = ReaderModel { pos: m.pos + 16 + m.frame_cap(), ..m };
        let t = match normalize_capture_time(ts_sec as i64, ts_usec) {
            Ok(t) => t,
            Err(_) => {
                self.failed = true;
                proof {
                    lemma_pump_stop(m, self.net(), self.ord());
                    assert(cur.stop == PumpStop::Failed(PipelineError::BadTimestamp));
                    assert(cur.records =~= Seq::<RecordModel>::empty());
                }
                return StepResult::Fatal(PipelineError::BadTimestamp);
            },
        };
        proof {
            lemma_pump_record(m, self.net(), self.ord());
            assert(t == local_time_spec(ts, tu));
        }
        let lp = if self.network == 1 {
            classify_link_payload(payload.as_slice(), self.network, payload.len())
        } else {
            LinkPayload::Other
        };
        proof {
            if lp is Ether {
                assert(lp->Ether_0@ =~= payload@);
            }
        }
        let ghost base = self.records();
        let added = self.decode_push(lp, t, out);
        proof {
            let nxt = pump(m2, self.net(), self.ord());
            if added {
                assert(self.net() == 1 && pl.len() > 0 && quote_ok(pl));
                assert(cur.records == seq![record_of(pl, t, self.ord())] + nxt.records);
                assert(cur.records[0] == record_of(pl, t, self.ord()));
                assert(nxt.records =~= cur.records.skip(1));
                assert(cur.records.take(1) =~= seq![record_of(pl, t, self.ord())]);
                assert(models(base).push(record_of(pl, t, self.ord())) =~= models(base)
                    + cur.records.take(1));
            } else {
                assert(!(self.net() == 1 && pl.len() > 0 && quote_ok(pl)));
                assert(cur.records == nxt.records);
                assert(cur.records.skip(0) =~= cur.records);
                assert(models(self.records()) =~= models(self.records()) + cur.records.take(0));
            }
        }
        StepResult::Continue
    }

    /// Read and handle one block: decode and push a record, note the
    /// header, or stop.
    #[verifier::rlimit(100)]
    #[verifier::spinoff_prover]
    fn step(&mut self, out: &mut Vec<Vec<u8>>) -> (r: StepResult)
        requires
            old(self).wf(),
            !old(self).failed(),
        ensures
            final(self).wf(),
            final(self).ord() == old(self).ord(),
            final(self).cap() == old(self).cap(),
            ({
                let cur = pump(old(self).rm(), old(self).net(), old(self).ord());
                let nxt = pump(final(self).rm(), final(self).net(), final(self).ord());
                let n = final(self).records().len() - old(self).records().len();
                &&& (r is Continue ==> {
                    &&& !final(self).failed()
                    &&& nxt.reader == cur.reader
                    &&& nxt.net == cur.net
                    &&& nxt.stop == cur.stop
                    &&& 0 <= n <= cur.records.len()
                    &&& nxt.records == cur.records.skip(n)
                    &&& models(final(self).records()) == models(old(self).records())
                        + cur.records.take(n)
                })
                &&& (!(r is Continue) ==> cur.records == Seq::<RecordModel>::empty()
                    && final(self).records() == old(self).records())
                &&& (r is Continue ==> measure_of(final(self).rm()) < measure_of(old(self).rm()))
                &&& (r is Blocked ==> cur.stop is Blocked && !final(self).failed()
                    && final(self).rm() == old(self).rm() && final(self).net() == old(self).net()
                    && cur.reader == old(self).rm() && cur.net == old(self).net())
                &&& (r is Ended ==> cur.stop is Ended && !final(self).failed()
                    && final(self).rm() == old(self).rm() && final(self).net() == old(self).net()
                    && cur.reader == old(self).rm() && cur.net == old(self).net())
                &&& (r matches StepResult::Fatal(e) ==> cur.stop == PumpStop::Failed(e)
                    && final(self).failed())
                &&& (old(self).synced(views_of(old(out)@)) ==> final(self).synced(
                    views_of(final(out)@),
                ))
            }),
    {
        let ghost m = self.rm();
        let ghost cur = pump(m, self.net(), self.ord());
        match self.reader.next() {
            NextBlock::Header { network } => {
                self.network = network;
                proof {
                    lemma_pump_header(m, old(self).net(), self.ord());
                    assert(pump(self.rm(), self.net(), self.ord()) == cur);
                    assert(cur.records.skip(0) =~= cur.records);
                    assert(models(self.records()) =~= models(self.records()) + cur.records.take(0));
                }
                StepResult::Continue
            },
            NextBlock::Record { ts_sec, ts_usec, payload } => {
                self.handle_record(ts_sec, ts_usec, payload, Ghost(m), out)
            },
            NextBlock::NeedMore => {
                proof {
                    lemma_pump_stop(m, self.net(), self.ord());
                    assert(cur.stop == PumpStop::Blocked);
                    assert(cur.records =~= Seq::<RecordModel>::empty());
                }
                StepResult::Blocked
            },
            NextBlock::Eof => {
                proof {
                    lemma_pump_stop(m, self.net(), self.ord());
                    assert(cur.stop == PumpStop::Ended);
                    assert(cur.records =~= Seq::<RecordModel>::empty());
                }
                StepResult::Ended
            },
            NextBlock::Malformed => {
                self.failed = true;
                proof {
                    lemma_pump_stop(m, self.net(), self.ord());
                    assert(cur.stop == PumpStop::Failed(PipelineError::MalformedCapture));
                    assert(cur.records =~= Seq::<RecordModel>::empty());
                }
                StepResult::Fatal(PipelineError::MalformedCapture)
            },
        }
    }

    /// Process every block the available bytes complete, stopping at
    /// backpressure, end of stream or a fatal condition, exactly as
    /// `pump` of the current state says.
    #[verifier::rlimit(100)]
    fn process(&mut self, out: &mut Vec<Vec<u8>>) -> (r: Result<(), PipelineError>)
        requires
            old(self).wf(),
            !old(self).failed(),
        ensures
            final(self).wf(),
            final(self).ord() == old(self).ord(),
            final(self).cap() == old(self).cap(),
            ({
                let pr = pump(old(self).rm(), old(self).net(), old(self).ord());
                &&& (r is Ok ==> final(self).rm() == pr.reader && final(self).net() == pr.net)
                &&& models(final(self).records()) == models(old(self).records()) + pr.records
                &&& (r is Ok <==> !(pr.stop is Failed))
                &&& (r is Ok ==> !final(self).failed())
                &&& (r is Err ==> pr.stop == PumpStop::Failed(r->Err_0) && final(self).failed())
                &&& (old(self).synced(views_of(old(out)@)) ==> final(self).synced(
                    views_of(final(out)@),
                ))
            }),
    {
        let ghost pr = pump(old(self).rm(), old(self).net(), old(self).ord());
        let ghost mut done: Seq<RecordModel> = Seq::empty();
        proof {
            assert(models(self.records()) =~= models(old(self).records()) + done);
            assert(pr.records.skip(0) =~= pr.records);
            assert(done =~= pr.records.take(0));
        }
        loop
            invariant
                self.wf(),
                !self.failed(),
                self.ord() == old(self).ord(),
                self.cap() == old(self).cap(),
                pr == pump(old(self).rm(), old(self).net(), old(self).ord()),
                pump(self.rm(), self.net(), self.ord()).reader == pr.reader,
                pump(self.rm(), self.net(), self.ord()).net == pr.net,
                pump(self.rm(), self.net(), self.ord()).stop == pr.stop,
                pump(self.rm(), self.net(), self.ord()).records == pr.records.skip(
                    done.len() as int,
                ),
                0 <= done.len() <= pr.records.len(),
                done == pr.records.take(done.len() as int),
                models(self.records()) == models(old(self).records()) + done,
                old(self).synced(views_of(old(out)@)) ==> self.synced(views_of(out@)),
            decreases measure_of(self.rm()),
        {
            let ghost m = self.rm();
            let ghost cur = pump(m, self.net(), self.ord());
            let ghost k = done.len() as int;
            match self.step(out) {
                StepResult::Continue => {
                    proof {
                        let n = self.records().len() - (old(self).records().len() + done.len());
                        let added = cur.records.take(n as int);
                        assert(pr.records.skip(k).skip(n as int) =~= pr.records.skip(k + n));
                        assert(done + pr.records.skip(k).take(n as int) =~= pr.records.take(k + n));
                        assert((models(old(self).records()) + done) + added =~= models(
                            old(self).records(),
                        ) + (done + added));
                        done = done + added;
                    }
                },
                StepResult::Blocked => {
                    proof {
                        assert(done =~= pr.records);
                    }
                    return Ok(());
                },
                StepResult::Ended => {
                    proof {
                        assert(done =~= pr.records);
                    }
                    return Ok(());
                },
                StepResult::Fatal(e) => {
                    proof {
                        assert(done =~= pr.records);
                    }
                    return Err(e);
                },
            }
        }
    }

    /// Feed the next chunk of the capture stream and process every
    /// block it completes.  Lines of any window drained meanwhile are
    /// appended to `out`.
    pub fn feed(&mut self, chunk: &[u8], out: &mut Vec<Vec<u8>>) -> (r: Result<(), PipelineError>)
        requires
            old(self).wf(),
            !old(self).failed(),
            !old(self).rm().exhausted,
        ensures
            final(self).wf(),
            final(self).ord() == old(self).ord(),
            final(self).cap() == old(self).cap(),
            ({
                let m1 = ReaderModel { data: old(self).rm().data + chunk@, ..old(self).rm() };
                let pr = pump(m1, old(self).net(), old(self).ord());
                &&& (r is Ok ==> final(self).rm() == pr.reader && final(self).net() == pr.net)
                &&& models(final(self).records()) == models(old(self).records()) + pr.records
                &&& (r is Ok <==> !(pr.stop is Failed))
                &&& (r is Ok ==> !final(self).failed())
                &&& (r is Err ==> pr.stop == PumpStop::Failed(r->Err_0) && final(self).failed())
                &&& (old(self).synced(views_of(old(out)@)) ==> final(self).synced(
                    views_of(final(out)@),
                ))
            }),
    {
        self.reader.feed(chunk);
        self.process(out)
    }

    /// Declare the stream complete, process what remains, and drain
    /// the buffer: the mandatory final emission.  On success the
    /// sink holds, beyond what it held at `new`, exactly
    /// `run_output` of every decoded record.
    pub fn finish(&mut self, out: &mut Vec<Vec<u8>>) -> (r: Result<(), PipelineError>)
        requires
            old(self).wf(),
            !old(self).failed(),
        ensures
            final(self).wf(),
            final(self).ord() == old(self).ord(),
            final(self).cap() == old(self).cap(),
            ({
                let m1 = ReaderModel { exhausted: true, ..old(self).rm() };
                let pr = pump(m1, old(self).net(), old(self).ord());
                &&& (r is Ok <==> pr.stop is Ended)
                &&& (r is Err ==> pr.stop == PumpStop::Failed(r->Err_0) && final(self).failed())
                &&& models(final(self).records()) == models(old(self).records()) + pr.records
                &&& (r is Ok && old(self).synced(views_of(old(out)@)) ==> views_of(final(out)@)
                    == run_output(final(self).records(), final(self).cap()))
            }),
    {
        self.reader.close();
        let ghost m1 = ReaderModel { exhausted: true, ..old(self).rm() };
        match self.process(out) {
            Ok(()) => {
                proof {
                    lemma_pump_closed_never_blocks(m1, old(self).net(), old(self).ord());
                }
                self.stream.finish(out);
                Ok(())
            },
            Err(e) => Err(e),
        }
    }
}

} // verus!
