//! Rendering a quote record as one output line.
//!
//! A line is the capture time at millisecond precision, the accept
//! time, the issue code, the five bid pairs from level 5 down to
//! level 1, and the five ask pairs from level 1 up to level 5, as
//! `quantity@price`, space-separated and newline-terminated.

use vstd::prelude::*;

use crate::record::QuotePacket;
use crate::times::TimeOfDay;

verus! {

/// The two ASCII digits of `n`, zero-padded.
pub open spec fn two_digits(n: int) -> Seq<u8> {
    seq![(48 + n / 10) as u8, (48 + n % 10) as u8]
}

/// The three ASCII digits of `n`, zero-padded.
pub open spec fn three_digits(n: int) -> Seq<u8> {
    seq![(48 + n / 100) as u8, (48 + (n / 10) % 10) as u8, (48 + n % 10) as u8]
}

/// `HH:MM:SS` of a time of day.
pub open spec fn hms_str(t: TimeOfDay) -> Seq<u8> {
    two_digits(t.hour as int) + seq![58u8] + two_digits(t.minute as int) + seq![58u8]
        + two_digits(t.second as int)
}

/// The capture time: `HH:MM:SS.mmm`, milliseconds always shown.
pub open spec fn capture_time_str(t: TimeOfDay) -> Seq<u8> {
    hms_str(t) + seq![46u8] + three_digits(t.micro as int / 1000)
}

/// The accept time: `HH:MM:SS`, and `.mmm` when the fraction is not
/// zero.
pub open spec fn accept_time_str(t: TimeOfDay) -> Seq<u8> {
    if t.micro == 0 {
        hms_str(t)
    } else {
        hms_str(t) + seq![46u8] + three_digits(t.micro as int / 1000)
    }
}

/// One quote level: a space, the quantity, `@`, the price.
pub open spec fn pair_str(qty: Seq<u8>, price: Seq<u8>) -> Seq<u8> {
    seq![32u8] + qty + seq![64u8] + price
}

/// The first `n` printed bid pairs: levels walk from index 4 down to
/// index 0.
pub open spec fn bids_str(q: QuotePacket, n: int) -> Seq<u8>
    decreases n,
{
    if n <= 0 {
        Seq::empty()
    } else {
        bids_str(q, n - 1) + pair_str(q.bid_quantities@[5 - n]@, q.bid_prices@[5 - n]@)
    }
}

/// The first `n` printed ask pairs: levels walk from index 0 up to
/// index 4.
pub open spec fn asks_str(q: QuotePacket, n: int) -> Seq<u8>
    decreases n,
{
    if n <= 0 {
        Seq::empty()
    } else {
        asks_str(q, n - 1) + pair_str(q.ask_quantities@[n - 1]@, q.ask_prices@[n - 1]@)
    }
}

/// The whole output line of a record, newline-terminated.
pub open spec fn line_of(q: QuotePacket) -> Seq<u8> {
    capture_time_str(q.packet_time) + seq![32u8] + accept_time_str(q.quote_accept_time)
        + seq![32u8] + q.issue_code@ + bids_str(q, 5) + asks_str(q, 5) + seq![10u8]
}

/// Append the two zero-padded digits of `n`.
fn push_two_digits(out: &mut Vec<u8>, n: u8)
    requires
        n <= 99,
    ensures
        final(out)@ == old(out)@ + two_digits(n as int),
{
    out.push(48 + n / 10);
    out.push(48 + n % 10);
    proof {
        assert(final(out)@ =~= old(out)@ + two_digits(n as int));
    }
}

/// Append the three zero-padded digits of `n`.
fn push_three_digits(out: &mut Vec<u8>, n: u32)
    requires
        n <= 999,
    ensures
        final(out)@ == old(out)@ + three_digits(n as int),
{
    out.push(48 + (n / 100) as u8);
    out.push(48 + ((n / 10) % 10) as u8);
    out.push(48 + (n % 10) as u8);
    proof {
        assert(final(out)@ =~= old(out)@ + three_digits(n as int));
    }
}

/// Append `HH:MM:SS` of `t`.
fn push_hms(out: &mut Vec<u8>, t: TimeOfDay)
    requires
        t.wf(),
    ensures
        final(out)@ == old(out)@ + hms_str(t),
{
    push_two_digits(out, t.hour);
    out.push(58);
    push_two_digits(out, t.minute);
    out.push(58);
    push_two_digits(out, t.second);
    proof {
        assert(final(out)@ =~= old(out)@ + hms_str(t));
    }
}

/// Append all bytes of `s`.
fn push_bytes(out: &mut Vec<u8>, s: &Vec<u8>)
    ensures
        final(out)@ == old(out)@ + s@,
{
    out.extend_from_slice(s.as_slice());
}

/// Render `q` as its output line.
#[verifier::loop_isolation(false)]
pub fn format_line(q: &QuotePacket) -> (r: Vec<u8>)
    requires
        q.wf(),
    ensures
        r@ == line_of(*q),
{
    let mut out: Vec<u8> = Vec::new();
    push_hms(&mut out, q.packet_time);
    out.push(46);
    push_three_digits(&mut out, q.packet_time.micro / 1000);
    proof {
        assert(out@ =~= capture_time_str(q.packet_time));
    }
    out.push(32);
    push_hms(&mut out, q.quote_accept_time);
    if q.quote_accept_time.micro != 0 {
        out.push(46);
        push_three_digits(&mut out, q.quote_accept_time.micro / 1000);
    }
    proof {
        assert(out@ =~= capture_time_str(q.packet_time) + seq![32u8] + accept_time_str(
            q.quote_accept_time,
        ));
    }
    out.push(32);
    push_bytes(&mut out, &q.issue_code);
    let ghost head: Seq<u8> = capture_time_str(q.packet_time) + seq![32u8] + accept_time_str(
        q.quote_accept_time,
    ) + seq![32u8] + q.issue_code@;
    proof {
        assert(out@ =~= head);
        assert(out@ =~= head + bids_str(*q, 0));
    }
    let mut n: usize = 0;
    while n < 5
        invariant
            n <= 5,
            out@ == head + bids_str(*q, n as int),
        decreases 5 - n,
    {
        let i = 4 - n;
        out.push(32);
        push_bytes(&mut out, &q.bid_quantities[i]);
        out.push(64);
        push_bytes(&mut out, &q.bid_prices[i]);
        proof {
            assert(out@ =~= head + bids_str(*q, n + 1));
        }
        n = n + 1;
    }
    let ghost mid: Seq<u8> = head + bids_str(*q, 5);
    proof {
        assert(out@ =~= mid + asks_str(*q, 0));
    }
    let mut m: usize = 0;
    while m < 5
        invariant
            m <= 5,
            out@ == mid + asks_str(*q, m as int),
        decreases 5 - m,
    {
        out.push(32);
        push_bytes(&mut out, &q.ask_quantities[m]);
        out.push(64);
        push_bytes(&mut out, &q.ask_prices[m]);
        proof {
            assert(out@ =~= mid + asks_str(*q, m + 1));
        }
        m = m + 1;
    }
    out.push(10);
    proof {
        assert(out@ =~= line_of(*q));
    }
    out
}

} // verus!
