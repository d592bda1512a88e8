//! Reading raw capture blocks out of a chunked byte stream.
//!
//! The container format itself is a library-provided primitive: its
//! block parsers come from the pcap-parser crate behind trusted
//! wrappers whose contracts restate what those parsers return.  The
//! reader's own protocol is verified here: one global header first,
//! then record blocks; a partial read asks the source for more bytes
//! and retries the same logical read; a malformed block is fatal; a
//! fully consumed, closed stream is end of stream.

use vstd::prelude::*;
use vstd::slice::slice_subrange;

use crate::record::LinkPayload;

verus! {

/// The unsigned 32-bit little-endian integer at `s[i..i + 4]`.
pub open spec fn le32(s: Seq<u8>, i: int) -> int {
    s[i] + 256 * (s[i + 1] + 256 * (s[i + 2] + 256 * s[i + 3]))
}

/// The unsigned 32-bit big-endian integer at `s[i..i + 4]`.
pub open spec fn be32(s: Seq<u8>, i: int) -> int {
    s[i + 3] + 256 * (s[i + 2] + 256 * (s[i + 1] + 256 * s[i]))
}

/// The 32-bit integer at `s[i..i + 4]` in the file's byte order.
pub open spec fn u32_at(s: Seq<u8>, i: int, big_endian: bool) -> int {
    if big_endian {
        be32(s, i)
    } else {
        le32(s, i)
    }
}

/// The magic numbers that open a legacy capture file, as read
/// little-endian: native order with microsecond or nanosecond
/// timestamps, the modified variant, and the two byte-swapped forms.
pub open spec fn magic_known(m: int) -> bool {
    m == 0xa1b2c3d4 || m == 0xa1b23c4d || m == 0xa1b2cd34 || m == 0xd4c3b2a1 || m == 0x4d3cb2a1
}

/// The "modified" variant's magic: pcap_parser parses its global
/// header, but its record blocks have another layout, which this
/// core does not support.
pub open spec fn magic_modified(m: int) -> bool {
    m == 0xa1b2cd34
}

/// The byte-swapped magics: every later field is big-endian.
pub open spec fn magic_big_endian(m: int) -> bool {
    m == 0xd4c3b2a1 || m == 0x4d3cb2a1
}

/// The link type of a header block: bytes 20..24 as a signed 32-bit
/// value in the file's byte order.
pub open spec fn network_of(s: Seq<u8>, big_endian: bool) -> int {
    let v = u32_at(s, 20, big_endian);
    if v >= 0x80000000 {
        v - 0x100000000
    } else {
        v
    }
}

/// What parsing a global header out of a byte prefix yields.
pub enum HeaderParse {
    /// A full header: how many bytes it took, the magic number and
    /// the link type.
    Parsed { consumed: usize, magic: u32, network: i32 },
    /// Too few bytes so far; the same read must be retried with more.
    NeedMore,
    /// The leading magic number is not a legacy capture magic.
    Bad,
}

/// What parsing a record block out of a byte prefix yields.
pub enum FrameParse {
    /// A full record: how many bytes it took, the capture timestamp
    /// and the captured bytes.
    Parsed { consumed: usize, ts_sec: u32, ts_usec: u32, payload: Vec<u8> },
    /// Too few bytes so far; the same read must be retried with more.
    NeedMore,
}

/// Relies on pcap_parser::parse_pcap_header: a legacy global header
/// is exactly 24 bytes; its leading magic number, read little-endian,
/// must be one of the five legacy magics and picks the byte order of
/// every later field; bytes 20..24 hold the link type; fewer than the
/// needed bytes are a partial read, and any other magic is not a
/// legacy capture header.
#[verifier::external_body]
fn parse_header(data: &[u8]) -> (r: HeaderParse)
    ensures
        r is Parsed ==> data@.len() >= 24 && magic_known(le32(data@, 0)),
        data@.len() >= 24 && magic_known(le32(data@, 0)) ==> r is Parsed,
        r matches HeaderParse::Parsed { consumed, magic, network } ==> consumed == 24 && magic == le32(data@, 0) && network == network_of(data@, magic_big_endian(le32(data@, 0))),
        r is Bad ==> data@.len() >= 4 && !magic_known(le32(data@, 0)),
        data@.len() >= 4 && !magic_known(le32(data@, 0)) ==> r is Bad,
{
    match pcap_parser::parse_pcap_header(data) {
        Ok((rem, h)) => HeaderParse::Parsed {
            consumed: data.len() - rem.len(),
            magic: h.magic_number,
            network: h.network.0,
        },
        Err(pcap_parser::nom::Err::Incomplete(_)) => HeaderParse::NeedMore,
        Err(_) => HeaderParse::Bad,
    }
}

/// Relies on pcap_parser::parse_pcap_frame: a little-endian record
/// block is a 16-byte header — capture seconds, capture microseconds,
/// captured length, original length — followed by exactly `captured
/// length` payload bytes; fewer bytes than that are a partial read,
/// and nothing else fails.
#[verifier::external_body]
fn parse_frame_le(data: &[u8]) -> (r: FrameParse)
    ensures
        r is Parsed ==> data@.len() >= 16 + le32(data@, 8) && data@.len() >= 16,
        data@.len() >= 16 + le32(data@, 8) && data@.len() >= 16 ==> r is Parsed,
        r matches FrameParse::Parsed { consumed, ts_sec, ts_usec, payload } ==> consumed == 16 + le32(data@, 8) && ts_sec == le32(data@, 0) && ts_usec == le32(data@, 4) && payload@ == data@.subrange(16, 16 + le32(data@, 8)),
{
    match pcap_parser::parse_pcap_frame(data) {
        Ok((rem, b)) => FrameParse::Parsed {
            consumed: data.len() - rem.len(),
            ts_sec: b.ts_sec,
            ts_usec: b.ts_usec,
            payload: b.data.to_vec(),
        },
        Err(_) => FrameParse::NeedMore,
    }
}

/// Relies on pcap_parser::parse_pcap_frame_be: as
/// `pcap_parser::parse_pcap_frame`, with every header field read
/// big-endian.
#[verifier::external_body]
fn parse_frame_be(data: &[u8]) -> (r: FrameParse)
    ensures
        r is Parsed ==> data@.len() >= 16 + be32(data@, 8) && data@.len() >= 16,
        data@.len() >= 16 + be32(data@, 8) && data@.len() >= 16 ==> r is Parsed,
        r matches FrameParse::Parsed { consumed, ts_sec, ts_usec, payload } ==> consumed == 16 + be32(data@, 8) && ts_sec == be32(data@, 0) && ts_usec == be32(data@, 4) && payload@ == data@.subrange(16, 16 + be32(data@, 8)),
{
    match pcap_parser::parse_pcap_frame_be(data) {
        Ok((rem, b)) => FrameParse::Parsed {
            consumed: data.len() - rem.len(),
            ts_sec: b.ts_sec,
            ts_usec: b.ts_usec,
            payload: b.data.to_vec(),
        },
        Err(_) => FrameParse::NeedMore,
    }
}

/// Relies on pcap_parser::data::get_packetdata for the Ethernet link
/// type (1): the bytes up to the captured length are the level-2
/// frame exactly when that length is positive and within the data.
/// Only this link type may be asked: handlers of some other link
/// types can panic on crafted data, so callers must test the link
/// type first.
#[verifier::external_body]
pub fn classify_link_payload(data: &[u8], network: i32, caplen: usize) -> (r: LinkPayload)
    requires
        network == 1,
    ensures
        r is Ether ==> 0 < caplen <= data@.len(),
        0 < caplen <= data@.len() ==> r is Ether,
        r matches LinkPayload::Ether(p) ==> p@ == data@.subrange(0, caplen as int),
{
    match pcap_parser::data::get_packetdata(data, pcap_parser::Linktype(network), caplen) {
        Some(pcap_parser::data::PacketData::L2(d)) => LinkPayload::Ether(d.to_vec()),
        Some(pcap_parser::data::PacketData::L3(_, _)) => LinkPayload::Other,
        Some(pcap_parser::data::PacketData::L4(_, _)) => LinkPayload::Other,
        Some(pcap_parser::data::PacketData::Unsupported(_)) => LinkPayload::Other,
        None => LinkPayload::Other,
    }
}

/// The abstract state of a `BlockReader`.
#[verifier::ext_equal]
pub ghost struct ReaderModel {
    /// Every byte fed so far.
    pub data: Seq<u8>,
    /// How many of them earlier blocks consumed.
    pub pos: int,
    /// Whether the global header was read.
    pub header_seen: bool,
    /// The byte order the header picked.
    pub big_endian: bool,
    /// Whether the source declared the input complete.
    pub exhausted: bool,
}

impl ReaderModel {
    /// The bytes no block consumed yet.
    pub open spec fn rest(self) -> Seq<u8> {
        self.data.skip(self.pos)
    }

    /// A full global header sits at the front of the rest.
    pub open spec fn header_ready(self) -> bool {
        self.rest().len() >= 24 && magic_known(le32(self.rest(), 0))
    }

    /// The front of the rest can never become a global header.
    pub open spec fn header_bad(self) -> bool {
        self.rest().len() >= 4 && !magic_known(le32(self.rest(), 0))
    }

    /// The captured length of the record block at the front.
    pub open spec fn frame_cap(self) -> int {
        u32_at(self.rest(), 8, self.big_endian)
    }

    /// A full record block sits at the front of the rest.
    pub open spec fn frame_ready(self) -> bool {
        self.rest().len() >= 16 && self.rest().len() >= 16 + self.frame_cap()
    }
}

/// One raw capture block, or a protocol signal.
pub enum NextBlock {
    /// The one-time global header; carries the link type.
    Header { network: i32 },
    /// One record block: capture timestamp and captured bytes.
    Record { ts_sec: u32, ts_usec: u32, payload: Vec<u8> },
    /// The source must `feed` more bytes, then the same logical read
    /// is retried.  Backpressure, not an error.
    NeedMore,
    /// The whole closed stream was consumed: normal termination.
    Eof,
    /// The capture structure is malformed (a foreign or truncated
    /// block).  Fatal: capture corruption is not recoverable.
    Malformed,
}

/// Yields successive raw capture blocks out of bytes fed in chunks.
/// Bytes that earlier blocks consumed are discarded on the next
/// refill, so the buffer holds only the unconsumed tail; the
/// abstract state keeps counting them.
pub struct BlockReader {
    buf: Vec<u8>,
    pos: usize,
    discarded: Ghost<Seq<u8>>,
    header_seen: bool,
    big_endian: bool,
    exhausted: bool,
}

impl View for BlockReader {
    type V = ReaderModel;

    closed spec fn view(&self) -> ReaderModel {
        ReaderModel {
            data: self.discarded@ + self.buf@,
            pos: self.discarded@.len() + self.pos,
            header_seen: self.header_seen,
            big_endian: self.big_endian,
            exhausted: self.exhausted,
        }
    }
}

impl BlockReader {
    pub open spec fn wf(self) -> bool {
        0 <= self@.pos <= self@.data.len()
    }

    /// A reader with nothing fed yet.
    pub fn new() -> (r: BlockReader)
        ensures
            r.wf(),
            r@ == (ReaderModel {
                data: Seq::<u8>::empty(),
                pos: 0,
                header_seen: false,
                big_endian: false,
                exhausted: false,
            }),
    {
        let r = BlockReader {
            buf: Vec::new(),
            pos: 0,
            discarded: Ghost(Seq::empty()),
            header_seen: false,
            big_endian: false,
            exhausted: false,
        };
        proof {
            assert(r@.data =~= Seq::<u8>::empty());
        }
        r
    }

    /// Hand the reader the next chunk of the source: the refill a
    /// `NeedMore` asked for.  The prefix that earlier blocks consumed
    /// is dropped first, so memory holds only the unconsumed tail and
    /// the new chunk.
    pub fn feed(&mut self, chunk: &[u8])
        requires
            old(self).wf(),
            !old(self)@.exhausted,
        ensures
            final(self).wf(),
            final(self)@ == (ReaderModel { data: old(self)@.data + chunk@, ..old(self)@ }),
    {
        let tail = vstd::slice::slice_to_vec(
            slice_subrange(self.buf.as_slice(), self.pos, self.buf.len()),
        );
        proof {
            self.discarded@ = self.discarded@ + self.buf@.take(self.pos as int);
        }
        self.buf = tail;
        self.pos = 0;
        self.buf.extend_from_slice(chunk);
        proof {
            assert(self@.data =~= old(self)@.data + chunk@);
            assert(self@ =~= (ReaderModel { data: old(self)@.data + chunk@, ..old(self)@ }));
        }
    }

    /// Declare the source complete: no more bytes will come.
    pub fn close(&mut self)
        requires
            old(self).wf(),
        ensures
            final(self).wf(),
            final(self)@ == (ReaderModel { exhausted: true, ..old(self)@ }),
    {
        self.exhausted = true;
    }

    /// Read the next block.  Before the header: a ready header is
    /// consumed and returned; an alien magic, or the unsupported
    /// "modified" variant, is fatal; a short prefix asks for more
    /// bytes, or is fatal once the source is closed (a capture with
    /// no full header).  After the header: a consumed
    /// stream ends or asks for more; a ready record block is consumed
    /// and returned; a truncated one asks for more bytes, or is fatal
    /// once the source is closed.
    pub fn next(&mut self) -> (r: NextBlock)
        requires
            old(self).wf(),
        ensures
            final(self).wf(),
            ({
                let m = old(self)@;
                let s = m.rest();
                if !m.header_seen {
                    if m.header_ready() && magic_modified(le32(s, 0)) {
                        r is Malformed && final(self)@ == m
                    } else if m.header_ready() {
                        &&& r matches NextBlock::Header { network } && network
                            == network_of(s, magic_big_endian(le32(s, 0)))
                        &&& final(self)@ == (ReaderModel {
                            pos: m.pos + 24,
                            header_seen: true,
                            big_endian: magic_big_endian(le32(s, 0)),
                            ..m
                        })
                    } else if m.header_bad() {
                        r is Malformed && final(self)@ == m
                    } else if m.exhausted {
                        r is Malformed && final(self)@ == m
                    } else {
                        r is NeedMore && final(self)@ == m
                    }
                } else {
                    if s.len() == 0 {
                        (if m.exhausted {
                            r is Eof
                        } else {
                            r is NeedMore
                        }) && final(self)@ == m
                    } else if m.frame_ready() {
                        &&& r matches NextBlock::Record { ts_sec, ts_usec, payload } && ts_sec
                            == u32_at(s, 0, m.big_endian) && ts_usec == u32_at(s, 4, m.big_endian)
                            && payload@ == s.subrange(16, 16 + m.frame_cap())
                        &&& final(self)@ == (ReaderModel { pos: m.pos + 16 + m.frame_cap(), ..m })
                    } else if m.exhausted {
                        r is Malformed && final(self)@ == m
                    } else {
                        r is NeedMore && final(self)@ == m
                    }
                }
            }),
    {
        let s = slice_subrange(self.buf.as_slice(), self.pos, self.buf.len());
        proof {
            assert(s@ =~= self@.rest());
        }
        if !self.header_seen {
            match parse_header(s) {
                HeaderParse::Parsed { consumed, magic, network } => {
                    if magic == 0xa1b2cd34 {
                        NextBlock::Malformed
                    } else {
                        self.pos = self.pos + consumed;
                        self.header_seen = true;
                        self.big_endian = magic == 0xd4c3b2a1 || magic == 0x4d3cb2a1;
                        proof {
                            assert(self@ =~= (ReaderModel {
                                pos: old(self)@.pos + 24,
                                header_seen: true,
                                big_endian: magic_big_endian(le32(old(self)@.rest(), 0)),
                                ..old(self)@
                            }));
                        }
                        NextBlock::Header { network }
                    }
                },
                HeaderParse::NeedMore => {
                    if self.exhausted {
                        NextBlock::Malformed
                    } else {
                        NextBlock::NeedMore
                    }
                },
                HeaderParse::Bad => NextBlock::Malformed,
            }
        } else {
            if self.pos == self.buf.len() {
                proof {
                    assert(self@.rest().len() == 0);
                }
                if self.exhausted {
                    return NextBlock::Eof;
                } else {
                    return NextBlock::NeedMore;
                }
            }
            let fr = if self.big_endian {
                parse_frame_be(s)
            } else {
                parse_frame_le(s)
            };
            match fr {
                FrameParse::Parsed { consumed, ts_sec, ts_usec, payload } => {
                    self.pos = self.pos + consumed;
                    proof {
                        assert(self@ =~= (ReaderModel {
                            pos: old(self)@.pos + 16 + old(self)@.frame_cap(),
                            ..old(self)@
                        }));
                    }
                    NextBlock::Record { ts_sec, ts_usec, payload }
                },
                FrameParse::NeedMore => {
                    if self.exhausted {
                        NextBlock::Malformed
                    } else {
                        NextBlock::NeedMore
                    }
                },
            }
        }
    }
}

} // verus!
