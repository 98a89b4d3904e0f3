use vstd::prelude::*;
use crate::text::{ascii_bytes_to_string, ascii_chars_of};

verus! {

/// The ISO-8601 UTC rendering, with millisecond precision and a `Z`
/// suffix, of a timestamp given in milliseconds since the Unix epoch; the
/// empty sequence for the far-out timestamps the calendar cannot hold.
pub uninterp spec fn iso8601_utc_of(ms: i64) -> Seq<char>;

/// Relies on chrono's `DateTime::from_timestamp_millis` and `format`: the
/// rendered text is a function of the timestamp alone, in UTC with the
/// fixed layout `%Y-%m-%dT%H:%M:%S%.3fZ`.
#[verifier::external_body]
pub fn format_iso8601_millis(ms: i64) -> (r: String)
    ensures
        r@ == iso8601_utc_of(ms),
{
    match chrono::DateTime::<chrono::Utc>::from_timestamp_millis(ms) {
        Some(dt) => dt.format("%Y-%m-%dT%H:%M:%S%.3fZ").to_string(),
        None => String::new(),
    }
}

/// The decimal digits of a number, most significant first.
pub open spec fn dec_digits(n: nat) -> Seq<u8>
    decreases n,
{
    if n < 10 {
        seq![(0x30 + n) as u8]
    } else {
        dec_digits(n / 10).push((0x30 + n % 10) as u8)
    }
}

pub proof fn lemma_dec_digits_ascii(n: nat)
    ensures
        crate::text::all_ascii(dec_digits(n)),
    decreases n,
{
    if n >= 10 {
        lemma_dec_digits_ascii(n / 10);
        assert forall|i: int| 0 <= i < dec_digits(n).len() implies dec_digits(n)[i] < 0x80 by {
            if i < dec_digits(n).len() - 1 {
                assert(dec_digits(n)[i] == dec_digits(n / 10)[i]);
            }
        }
    }
}

fn push_dec_digits(n: u64, out: &mut Vec<u8>)
    ensures
        final(out)@ == old(out)@ + dec_digits(n as nat),
    decreases n,
{
    if n < 10 {
        out.push(0x30 + n as u8);
        assert(out@ =~= old(out)@ + dec_digits(n as nat));
    } else {
        push_dec_digits(n / 10, out);
        out.push(0x30 + (n % 10) as u8);
        assert(out@ =~= old(out)@ + dec_digits(n as nat));
    }
}

/// A number written in decimal.
pub fn u64_to_decimal(n: u64) -> (r: String)
    ensures
        r@ == ascii_chars_of(dec_digits(n as nat)),
{
    let mut out: Vec<u8> = Vec::new();
    push_dec_digits(n, &mut out);
    proof {
        lemma_dec_digits_ascii(n as nat);
        assert(out@ =~= dec_digits(n as nat));
    }
    ascii_bytes_to_string(out)
}

} // verus!
