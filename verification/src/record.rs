//! The quote-record model and the fixed-offset field decoder.
//!
//! A quote lives in an Ethernet-framed datagram: 42 bytes of link,
//! network and transport headers, then a 5-byte packet identifier,
//! a 12-byte issue code, five bid levels, five ask levels, a skipped
//! trailing region, and an 8-digit accept time.  Every field sits at a
//! fixed cumulative offset; there are no delimiters.

use vstd::prelude::*;

use crate::times::TimeOfDay;

verus! {

/// Which embedded time field orders the records of a run.
#[derive(Copy, Clone, Debug, Eq, PartialEq, Structural)]
pub enum PacketOrdering {
    /// Compare by the normalized capture time.
    Default,
    /// Compare by the exchange's quote-accept time.
    QuoteAcceptTime,
}

/// A link-layer payload after classification: the raw bytes of an
/// Ethernet frame, or a frame of some other link type.
pub enum LinkPayload {
    Ether(Vec<u8>),
    Other,
}

/// One capture block's payload together with its normalized capture
/// time and the ordering mode of the run.
pub struct PacketDataWithTime {
    pub data: LinkPayload,
    pub packet_timestamp: TimeOfDay,
    pub ordering: PacketOrdering,
}

/// Why a payload yields no quote record.  All of these are
/// recoverable: the caller skips the payload and reads on.
#[derive(Copy, Clone, Debug, Eq, PartialEq, Structural)]
pub enum DecodeError {
    /// The payload is not an Ethernet frame.
    NotEthernetFramed,
    /// The payload ends before a field the decoder must read.
    TooShort,
    /// The 5-byte identifier is not the quote marker.
    NotQuote,
    /// A fixed-width text field holds a byte outside ASCII.
    BadText,
    /// The accept-time field holds a non-digit or an impossible time.
    BadAcceptTime,
}

/// A decoded quote record.  Prices and quantities stay the ASCII
/// digit strings of the payload; no arithmetic is done on them.
pub struct QuotePacket {
    pub packet_time: TimeOfDay,
    pub issue_code: Vec<u8>,
    pub bid_prices: Vec<Vec<u8>>,
    pub bid_quantities: Vec<Vec<u8>>,
    pub ask_prices: Vec<Vec<u8>>,
    pub ask_quantities: Vec<Vec<u8>>,
    pub quote_accept_time: TimeOfDay,
    pub ordering: PacketOrdering,
}

/// The fixed 5-byte packet identifier a quote payload must carry:
/// data type, information type and market type, in ASCII.
pub open spec fn marker() -> Seq<u8> {
    seq![66u8, 54u8, 48u8, 51u8, 52u8]
}

/// Every byte of `s[start..end]` is ASCII.
pub open spec fn ascii_range(s: Seq<u8>, start: int, end: int) -> bool {
    forall|i: int| start <= i < end ==> s[i] < 128
}

/// Every byte of `s[start..end]` is a decimal digit.
pub open spec fn digit_range(s: Seq<u8>, start: int, end: int) -> bool {
    forall|i: int| start <= i < end ==> 48 <= #[trigger] s[i] <= 57
}

/// The two-digit number at `s[i..i + 2]`.
pub open spec fn two_digit_at(s: Seq<u8>, i: int) -> int {
    (s[i] - 48) * 10 + (s[i + 1] - 48)
}

/// Offset of the bid price of level `i` (level 0 first in the payload).
pub open spec fn bid_price_off(i: int) -> int {
    71 + 12 * i
}

/// Offset of the bid quantity of level `i`.
pub open spec fn bid_qty_off(i: int) -> int {
    76 + 12 * i
}

/// Offset of the ask price of level `i`.
pub open spec fn ask_price_off(i: int) -> int {
    138 + 12 * i
}

/// Offset of the ask quantity of level `i`.
pub open spec fn ask_qty_off(i: int) -> int {
    143 + 12 * i
}

/// All fixed-width text fields past the identifier are ASCII: the
/// issue code and the five bid and five ask (price, quantity) pairs.
pub open spec fn fields_ascii(p: Seq<u8>) -> bool {
    &&& ascii_range(p, 47, 59)
    &&& forall|i: int| 0 <= i < 5 ==> ascii_range(p, #[trigger] bid_price_off(i), bid_price_off(i) + 5)
    &&& forall|i: int| 0 <= i < 5 ==> ascii_range(p, #[trigger] bid_qty_off(i), bid_qty_off(i) + 7)
    &&& forall|i: int| 0 <= i < 5 ==> ascii_range(p, #[trigger] ask_price_off(i), ask_price_off(i) + 5)
    &&& forall|i: int| 0 <= i < 5 ==> ascii_range(p, #[trigger] ask_qty_off(i), ask_qty_off(i) + 7)
}

/// The accept-time field is eight digits naming a real time of day:
/// two digits each of hour, minute, second and hundredths.
pub open spec fn accept_time_ok(p: Seq<u8>) -> bool {
    &&& digit_range(p, 248, 256)
    &&& two_digit_at(p, 248) <= 23
    &&& two_digit_at(p, 250) <= 59
    &&& two_digit_at(p, 252) <= 59
}

/// The time of day the accept-time field denotes; hundredths widen
/// to microseconds.
pub open spec fn accept_time_spec(p: Seq<u8>) -> TimeOfDay {
    TimeOfDay {
        hour: two_digit_at(p, 248) as u8,
        minute: two_digit_at(p, 250) as u8,
        second: two_digit_at(p, 252) as u8,
        micro: (two_digit_at(p, 254) * 10000) as u32,
    }
}

/// An Ethernet payload decodes to a quote record exactly when all of
/// this holds of its bytes.
pub open spec fn quote_ok(p: Seq<u8>) -> bool {
    &&& p.len() >= 256
    &&& ascii_range(p, 42, 46)
    &&& p.subrange(42, 47) == marker()
    &&& fields_ascii(p)
    &&& accept_time_ok(p)
}

/// The error reported for an Ethernet payload that decodes to no
/// record; checks run in the decoder's order.
pub open spec fn reject_of(p: Seq<u8>) -> DecodeError {
    if p.len() < 47 {
        DecodeError::TooShort
    } else if !ascii_range(p, 42, 46) {
        DecodeError::BadText
    } else if p.subrange(42, 47) != marker() {
        DecodeError::NotQuote
    } else if p.len() < 256 {
        DecodeError::TooShort
    } else if !fields_ascii(p) {
        DecodeError::BadText
    } else {
        DecodeError::BadAcceptTime
    }
}

/// The record a successful decode owes: each field is byte-for-byte
/// the fixed-offset slice of the payload, the capture time and the
/// ordering mode are the ones passed in, and the accept time is the
/// parsed terminal field.
pub open spec fn decoded_matches(
    q: QuotePacket,
    p: Seq<u8>,
    t: TimeOfDay,
    ord: PacketOrdering,
) -> bool {
    &&& q.packet_time == t
    &&& q.ordering == ord
    &&& q.issue_code@ == p.subrange(47, 59)
    &&& q.bid_prices@.len() == 5
    &&& q.bid_quantities@.len() == 5
    &&& q.ask_prices@.len() == 5
    &&& q.ask_quantities@.len() == 5
    &&& forall|i: int|
        0 <= i < 5 ==> (#[trigger] q.bid_prices@[i])@ == p.subrange(
            bid_price_off(i),
            bid_price_off(i) + 5,
        )
    &&& forall|i: int|
        0 <= i < 5 ==> (#[trigger] q.bid_quantities@[i])@ == p.subrange(
            bid_qty_off(i),
            bid_qty_off(i) + 7,
        )
    &&& forall|i: int|
        0 <= i < 5 ==> (#[trigger] q.ask_prices@[i])@ == p.subrange(
            ask_price_off(i),
            ask_price_off(i) + 5,
        )
    &&& forall|i: int|
        0 <= i < 5 ==> (#[trigger] q.ask_quantities@[i])@ == p.subrange(
            ask_qty_off(i),
            ask_qty_off(i) + 7,
        )
    &&& q.quote_accept_time == accept_time_spec(p)
}

/// The mathematical content of a quote record: every field as a
/// plain sequence.
#[verifier::ext_equal]
pub ghost struct RecordModel {
    pub packet_time: TimeOfDay,
    pub issue_code: Seq<u8>,
    pub bid_prices: Seq<Seq<u8>>,
    pub bid_quantities: Seq<Seq<u8>>,
    pub ask_prices: Seq<Seq<u8>>,
    pub ask_quantities: Seq<Seq<u8>>,
    pub quote_accept_time: TimeOfDay,
    pub ordering: PacketOrdering,
}

/// The record model a quote payload dictates.
pub open spec fn record_of(p: Seq<u8>, t: TimeOfDay, ord: PacketOrdering) -> RecordModel {
    RecordModel {
        packet_time: t,
        issue_code: p.subrange(47, 59),
        bid_prices: Seq::new(5, |i: int| p.subrange(bid_price_off(i), bid_price_off(i) + 5)),
        bid_quantities: Seq::new(5, |i: int| p.subrange(bid_qty_off(i), bid_qty_off(i) + 7)),
        ask_prices: Seq::new(5, |i: int| p.subrange(ask_price_off(i), ask_price_off(i) + 5)),
        ask_quantities: Seq::new(5, |i: int| p.subrange(ask_qty_off(i), ask_qty_off(i) + 7)),
        quote_accept_time: accept_time_spec(p),
        ordering: ord,
    }
}

/// A decode that matches the payload has exactly the model the
/// payload dictates.
pub proof fn lemma_decoded_model(q: QuotePacket, p: Seq<u8>, t: TimeOfDay, ord: PacketOrdering)
    requires
        decoded_matches(q, p, t, ord),
    ensures
        q.model() == record_of(p, t, ord),
{
    assert(q.bid_prices@.map_values(|v: Vec<u8>| v@) =~= record_of(p, t, ord).bid_prices);
    assert(q.bid_quantities@.map_values(|v: Vec<u8>| v@) =~= record_of(p, t, ord).bid_quantities);
    assert(q.ask_prices@.map_values(|v: Vec<u8>| v@) =~= record_of(p, t, ord).ask_prices);
    assert(q.ask_quantities@.map_values(|v: Vec<u8>| v@) =~= record_of(p, t, ord).ask_quantities);
    assert(q.model() =~= record_of(p, t, ord));
}

/// Copy `p[start..end]` into a fresh vector.
fn copy_range(p: &Vec<u8>, start: usize, end: usize) -> (r: Vec<u8>)
    requires
        start <= end <= p@.len(),
    ensures
        r@ == p@.subrange(start as int, end as int),
{
    let mut out: Vec<u8> = Vec::new();
    let mut i: usize = start;
    while i < end
        invariant
            start <= i <= end <= p@.len(),
            out@ == p@.subrange(start as int, i as int),
        decreases end - i,
    {
        out.push(p[i]);
        proof {
            assert(out@ =~= p@.subrange(start as int, i + 1 as int));
        }
        i = i + 1;
    }
    out
}

/// Whether every byte of `p[start..end]` is ASCII.
fn ascii_ok(p: &Vec<u8>, start: usize, end: usize) -> (r: bool)
    requires
        start <= end <= p@.len(),
    ensures
        r == ascii_range(p@, start as int, end as int),
{
    let mut i: usize = start;
    while i < end
        invariant
            start <= i <= end <= p@.len(),
            forall|j: int| start <= j < i ==> p@[j] < 128,
        decreases end - i,
    {
        if p[i] >= 128 {
            return false;
        }
        i = i + 1;
    }
    true
}

/// Whether every byte of `p[start..end]` is a decimal digit.
fn digits_ok(p: &Vec<u8>, start: usize, end: usize) -> (r: bool)
    requires
        start <= end <= p@.len(),
    ensures
        r == digit_range(p@, start as int, end as int),
{
    let mut i: usize = start;
    while i < end
        invariant
            start <= i <= end <= p@.len(),
            forall|j: int| start <= j < i ==> 48 <= #[trigger] p@[j] <= 57,
        decreases end - i,
    {
        if p[i] < 48 || p[i] > 57 {
            return false;
        }
        i = i + 1;
    }
    true
}

/// The two-digit number written at `p[i..i + 2]`.
fn two_digit(p: &Vec<u8>, i: usize) -> (r: u8)
    requires
        i + 2 <= p@.len(),
        digit_range(p@, i as int, i + 2),
    ensures
        r as int == two_digit_at(p@, i as int),
        r <= 99,
{
    let n = p.len();
    assert(i + 2 <= n);
    (p[i] - 48) * 10 + (p[i + 1] - 48)
}

impl QuotePacket {
    /// Shape of a decoded record: times inside one day, a 12-byte
    /// issue code, and five levels a side with 5-byte prices and
    /// 7-byte quantities.
    pub open spec fn wf(self) -> bool {
        &&& self.packet_time.wf()
        &&& self.quote_accept_time.wf()
        &&& self.issue_code@.len() == 12
        &&& self.bid_prices@.len() == 5
        &&& self.bid_quantities@.len() == 5
        &&& self.ask_prices@.len() == 5
        &&& self.ask_quantities@.len() == 5
        &&& forall|i: int| 0 <= i < 5 ==> (#[trigger] self.bid_prices@[i])@.len() == 5
        &&& forall|i: int| 0 <= i < 5 ==> (#[trigger] self.bid_quantities@[i])@.len() == 7
        &&& forall|i: int| 0 <= i < 5 ==> (#[trigger] self.ask_prices@[i])@.len() == 5
        &&& forall|i: int| 0 <= i < 5 ==> (#[trigger] self.ask_quantities@[i])@.len() == 7
    }

    /// The record's mathematical content.
    pub open spec fn model(self) -> RecordModel {
        RecordModel {
            packet_time: self.packet_time,
            issue_code: self.issue_code@,
            bid_prices: self.bid_prices@.map_values(|v: Vec<u8>| v@),
            bid_quantities: self.bid_quantities@.map_values(|v: Vec<u8>| v@),
            ask_prices: self.ask_prices@.map_values(|v: Vec<u8>| v@),
            ask_quantities: self.ask_quantities@.map_values(|v: Vec<u8>| v@),
            quote_accept_time: self.quote_accept_time,
            ordering: self.ordering,
        }
    }

    /// The controlling time of this record under its ordering mode,
    /// as microseconds since midnight.  Two records with equal keys
    /// compare equal whatever their other fields hold.
    pub open spec fn sort_key(self) -> int {
        match self.ordering {
            PacketOrdering::Default => self.packet_time.as_micros(),
            PacketOrdering::QuoteAcceptTime => self.quote_accept_time.as_micros(),
        }
    }

    /// The controlling time as a machine integer.
    pub fn key_micros(&self) -> (r: u64)
        requires
            self.packet_time.wf(),
            self.quote_accept_time.wf(),
        ensures
            r as int == self.sort_key(),
    {
        let t = match self.ordering {
            PacketOrdering::Default => self.packet_time,
            PacketOrdering::QuoteAcceptTime => self.quote_accept_time,
        };
        ((t.hour as u64) * 3600 + (t.minute as u64) * 60 + (t.second as u64)) * 1000000
            + (t.micro as u64)
    }

    /// Whether this record sorts no later than `other`.
    pub fn le(&self, other: &QuotePacket) -> (r: bool)
        requires
            self.wf(),
            other.wf(),
        ensures
            r == (self.sort_key() <= other.sort_key()),
    {
        self.key_micros() <= other.key_micros()
    }

    /// Decode one classified payload into a quote record.
    ///
    /// A record comes back exactly for Ethernet payloads whose bytes
    /// satisfy `quote_ok`; anything else is rejected with the reason
    /// `reject_of` names, and the caller reads on.
    #[verifier::loop_isolation(false)]
    pub fn try_from(d: PacketDataWithTime) -> (r: Result<QuotePacket, DecodeError>)
        requires
            d.packet_timestamp.wf(),
        ensures
            d.data is Other ==> r is Err && r->Err_0 == DecodeError::NotEthernetFramed,
            d.data matches LinkPayload::Ether(p) ==> {
                &&& (r is Ok <==> quote_ok(p@))
                &&& (r is Err ==> r->Err_0 == reject_of(p@))
                &&& (r is Ok ==> decoded_matches(r->Ok_0, p@, d.packet_timestamp, d.ordering))
                &&& (r is Ok ==> r->Ok_0.wf())
            },
    {
        let PacketDataWithTime { data, packet_timestamp, ordering } = d;
        let p: Vec<u8> = match data {
            LinkPayload::Ether(b) => b,
            LinkPayload::Other => {
                return Err(DecodeError::NotEthernetFramed);
            },
        };
        if p.len() < 47 {
            return Err(DecodeError::TooShort);
        }
        if !ascii_ok(&p, 42, 46) {
            return Err(DecodeError::BadText);
        }
        if !(p[42] == 66 && p[43] == 54 && p[44] == 48 && p[45] == 51 && p[46] == 52) {
            proof {
                assert(p@.subrange(42, 47)[0] == p@[42]);
                assert(p@.subrange(42, 47)[1] == p@[43]);
                assert(p@.subrange(42, 47)[2] == p@[44]);
                assert(p@.subrange(42, 47)[3] == p@[45]);
                assert(p@.subrange(42, 47)[4] == p@[46]);
            }
            return Err(DecodeError::NotQuote);
        }
        proof {
            assert(p@.subrange(42, 47) =~= marker());
        }
        if p.len() < 256 {
            return Err(DecodeError::TooShort);
        }
        if !ascii_ok(&p, 47, 59) {
            return Err(DecodeError::BadText);
        }
        let issue_code = copy_range(&p, 47, 59);

        let mut bid_prices: Vec<Vec<u8>> = Vec::new();
        let mut bid_quantities: Vec<Vec<u8>> = Vec::new();
        let mut i: usize = 0;
        while i < 5
            invariant
                i <= 5,
                p@.len() >= 256,
                bid_prices@.len() == i,
                bid_quantities@.len() == i,
                forall|j: int| 0 <= j < i ==> ascii_range(p@, #[trigger] bid_price_off(j), bid_price_off(j) + 5),
                forall|j: int| 0 <= j < i ==> ascii_range(p@, #[trigger] bid_qty_off(j), bid_qty_off(j) + 7),
                forall|j: int|
                    0 <= j < i ==> (#[trigger] bid_prices@[j])@ == p@.subrange(
                        bid_price_off(j),
                        bid_price_off(j) + 5,
                    ),
                forall|j: int|
                    0 <= j < i ==> (#[trigger] bid_quantities@[j])@ == p@.subrange(
                        bid_qty_off(j),
                        bid_qty_off(j) + 7,
                    ),
                quote_ok(p@) ==> fields_ascii(p@),
                p@.subrange(42, 47) == marker(),
                ascii_range(p@, 42, 46),
                ascii_range(p@, 47, 59),
            decreases 5 - i,
        {
            let off: usize = 71 + 12 * i;
            if !ascii_ok(&p, off, off + 5) {
                proof {
                    assert(!ascii_range(p@, bid_price_off(i as int), bid_price_off(i as int) + 5));
                    assert(!fields_ascii(p@));
                }
                return Err(DecodeError::BadText);
            }
            bid_prices.push(copy_range(&p, off, off + 5));
            if !ascii_ok(&p, off + 5, off + 12) {
                proof {
                    assert(!ascii_range(p@, bid_qty_off(i as int), bid_qty_off(i as int) + 7));
                    assert(!fields_ascii(p@));
                }
                return Err(DecodeError::BadText);
            }
            bid_quantities.push(copy_range(&p, off + 5, off + 12));
            i = i + 1;
        }

        let mut ask_prices: Vec<Vec<u8>> = Vec::new();
        let mut ask_quantities: Vec<Vec<u8>> = Vec::new();
        let mut k: usize = 0;
        while k < 5
            invariant
                k <= 5,
                p@.len() >= 256,
                ask_prices@.len() == k,
                ask_quantities@.len() == k,
                bid_prices@.len() == 5,
                bid_quantities@.len() == 5,
                forall|j: int| 0 <= j < 5 ==> ascii_range(p@, #[trigger] bid_price_off(j), bid_price_off(j) + 5),
                forall|j: int| 0 <= j < 5 ==> ascii_range(p@, #[trigger] bid_qty_off(j), bid_qty_off(j) + 7),
                forall|j: int|
                    0 <= j < 5 ==> (#[trigger] bid_prices@[j])@ == p@.subrange(
                        bid_price_off(j),
                        bid_price_off(j) + 5,
                    ),
                forall|j: int|
                    0 <= j < 5 ==> (#[trigger] bid_quantities@[j])@ == p@.subrange(
                        bid_qty_off(j),
                        bid_qty_off(j) + 7,
                    ),
                forall|j: int| 0 <= j < k ==> ascii_range(p@, #[trigger] ask_price_off(j), ask_price_off(j) + 5),
                forall|j: int| 0 <= j < k ==> ascii_range(p@, #[trigger] ask_qty_off(j), ask_qty_off(j) + 7),
                forall|j: int|
                    0 <= j < k ==> (#[trigger] ask_prices@[j])@ == p@.subrange(
                        ask_price_off(j),
                        ask_price_off(j) + 5,
                    ),
                forall|j: int|
                    0 <= j < k ==> (#[trigger] ask_quantities@[j])@ == p@.subrange(
                        ask_qty_off(j),
                        ask_qty_off(j) + 7,
                    ),
                p@.subrange(42, 47) == marker(),
                ascii_range(p@, 42, 46),
                ascii_range(p@, 47, 59),
            decreases 5 - k,
        {
            let off: usize = 138 + 12 * k;
            if !ascii_ok(&p, off, off + 5) {
                proof {
                    assert(!ascii_range(p@, ask_price_off(k as int), ask_price_off(k as int) + 5));
                    assert(!fields_ascii(p@));
                }
                return Err(DecodeError::BadText);
            }
            ask_prices.push(copy_range(&p, off, off + 5));
            if !ascii_ok(&p, off + 5, off + 12) {
                proof {
                    assert(!ascii_range(p@, ask_qty_off(k as int), ask_qty_off(k as int) + 7));
                    assert(!fields_ascii(p@));
                }
                return Err(DecodeError::BadText);
            }
            ask_quantities.push(copy_range(&p, off + 5, off + 12));
            k = k + 1;
        }
        proof {
            assert(fields_ascii(p@));
        }

        if !digits_ok(&p, 248, 256) {
            return Err(DecodeError::BadAcceptTime);
        }
        let hh = two_digit(&p, 248);
        let mm = two_digit(&p, 250);
        let ss = two_digit(&p, 252);
        let cc = two_digit(&p, 254);
        if hh > 23 || mm > 59 || ss > 59 {
            return Err(DecodeError::BadAcceptTime);
        }
        let quote_accept_time = TimeOfDay {
            hour: hh,
            minute: mm,
            second: ss,
            micro: (cc as u32) * 10000,
        };
        proof {
            assert(quote_accept_time == accept_time_spec(p@));
        }
        Ok(QuotePacket {
            packet_time: packet_timestamp,
            issue_code,
            bid_prices,
            bid_quantities,
            ask_prices,
            ask_quantities,
            quote_accept_time,
            ordering,
        })
    }
}

} // verus!
