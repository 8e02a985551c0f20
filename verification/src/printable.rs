//! Human-readable rendering. Output is produced as UTF-8 bytes appended to a
//! plain byte vector, with the exact output pinned down by spec functions:
//! decimal numbers, base64 runs, and the unit-by-unit duration form.

use vstd::prelude::*;

use crate::time::Duration;
use crate::time::Instant;
use vstd::arithmetic::div_mod::{lemma_div_nonincreasing, lemma_div_pos_is_pos, lemma_mod_bound};
use vstd::string::StringSliceAdditionalSpecFns;

verus! {

/// The UTF-8 bytes of a string literal.
pub open spec fn lit(s: &str) -> Seq<u8> {
    s.spec_bytes()
}

/// Appends the UTF-8 bytes of a literal.
pub fn push_lit(out: &mut Vec<u8>, s: &str)
    ensures
        final(out)@ == old(out)@ + lit(s),
{
    let bytes = s.as_bytes();
    let n = bytes.len();
    let mut i: usize = 0;
    while i < n
        invariant
            i <= n,
            n == bytes@.len(),
            bytes@ == lit(s),
            out@ == old(out)@ + lit(s).take(i as int),
        decreases n - i,
    {
        out.push(bytes[i]);
        i = i + 1;
        proof {
            assert(lit(s).take(i as int) =~= lit(s).take(i - 1).push(lit(s)[i - 1]));
        }
    }
    proof {
        assert(lit(s).take(n as int) =~= lit(s));
    }
}

/// The decimal ASCII digits of `n`, most significant first; `0` renders as a
/// single digit.
pub open spec fn dec_bytes(n: nat) -> Seq<u8>
    decreases n,
{
    if n < 10 {
        seq![(48 + n) as u8]
    } else {
        dec_bytes(n / 10).push((48 + n % 10) as u8)
    }
}

/// Appends the decimal digits of `v`.
pub fn push_dec(out: &mut Vec<u8>, v: u64)
    ensures
        final(out)@ == old(out)@ + dec_bytes(v as nat),
    decreases v,
{
    if v < 10 {
        out.push(48 + (v as u8));
        proof {
            assert(final(out)@ =~= old(out)@ + dec_bytes(v as nat));
        }
    } else {
        proof {
            lemma_div_nonincreasing(v as int, 10);
            lemma_div_pos_is_pos(v as int, 10);
            lemma_mod_bound(v as int, 10);
        }
        push_dec(out, v / 10);
        out.push(48 + ((v % 10) as u8));
        proof {
            assert(final(out)@ =~= old(out)@ + dec_bytes(v as nat));
        }
    }
}

/// The base64 alphabet digit for a 6-bit value.
pub open spec fn base64_digit(k: nat) -> u8 {
    if k < 26 {
        (65 + k) as u8
    } else if k < 52 {
        (97 + (k - 26)) as u8
    } else if k < 62 {
        (48 + (k - 52)) as u8
    } else if k == 62 {
        43
    } else {
        47
    }
}

/// The four base64 digits of a full three-byte group.
pub open spec fn base64_full(a: u8, b: u8, c: u8) -> Seq<u8> {
    let n = a as nat * 65536 + b as nat * 256 + c as nat;
    seq![
        base64_digit(n / 262144),
        base64_digit((n / 4096) % 64),
        base64_digit((n / 64) % 64),
        base64_digit(n % 64),
    ]
}

/// The base64 text of a byte string: full groups, then a padded final group
/// of one or two bytes.
pub open spec fn base64_of(data: Seq<u8>) -> Seq<u8>
    decreases data.len(),
{
    if data.len() == 0 {
        Seq::empty()
    } else if data.len() == 1 {
        base64_full(data[0], 0, 0).take(2).push(61).push(61)
    } else if data.len() == 2 {
        base64_full(data[0], data[1], 0).take(3).push(61)
    } else {
        base64_full(data[0], data[1], data[2]) + base64_of(data.skip(3))
    }
}

/// The base64 digit of a 6-bit value.
fn base64_digit_exec(k: u32) -> (r: u8)
    requires
        k < 64,
    ensures
        r == base64_digit(k as nat),
{
    if k < 26 {
        65 + (k as u8)
    } else if k < 52 {
        97 + ((k - 26) as u8)
    } else if k < 62 {
        48 + ((k - 52) as u8)
    } else if k == 62 {
        43
    } else {
        47
    }
}

/// Appends the four base64 digits of a full three-byte group.
fn push_base64_full(out: &mut Vec<u8>, a: u8, b: u8, c: u8)
    ensures
        final(out)@ == old(out)@ + base64_full(a, b, c),
{
    let n: u32 = (a as u32) * 65536 + (b as u32) * 256 + (c as u32);
    let d0 = base64_digit_exec(n / 262144);
    let d1 = base64_digit_exec((n / 4096) % 64);
    let d2 = base64_digit_exec((n / 64) % 64);
    let d3 = base64_digit_exec(n % 64);
    out.push(d0);
    out.push(d1);
    out.push(d2);
    out.push(d3);
    proof {
        assert(final(out)@ =~= old(out)@ + base64_full(a, b, c));
    }
}

/// Appends the base64 text of `data`.
pub fn print_base64(out: &mut Vec<u8>, data: &Vec<u8>)
    ensures
        final(out)@ == old(out)@ + base64_of(data@),
{
    let n = data.len();
    let mut i: usize = 0;
    proof {
        assert(data@.skip(0) =~= data@);
    }
    while n - i >= 3
        invariant
            0 <= i <= n,
            n == data@.len(),
            out@ + base64_of(data@.skip(i as int)) == old(out)@ + base64_of(data@),
        decreases n - i,
    {
        let ghost pre = out@;
        let ghost s = data@.skip(i as int);
        push_base64_full(out, data[i], data[i + 1], data[i + 2]);
        proof {
            assert(s[0] == data@[i as int]);
            assert(s[1] == data@[i as int + 1]);
            assert(s[2] == data@[i as int + 2]);
            assert(s.skip(3) =~= data@.skip(i as int + 3));
            assert(base64_of(s) == base64_full(s[0], s[1], s[2]) + base64_of(s.skip(3)));
            assert(pre + (base64_full(s[0], s[1], s[2]) + base64_of(s.skip(3))) =~= (pre
                + base64_full(s[0], s[1], s[2])) + base64_of(s.skip(3)));
        }
        i = i + 3;
    }
    let ghost tail = data@.skip(i as int);
    let ghost pre = out@;
    if n - i == 2 {
        push_base64_full(out, data[i], data[i + 1], 0);
        proof {
            assert(tail[0] == data@[i as int]);
            assert(tail[1] == data@[i as int + 1]);
        }
        let len_now = out.len();
        let _ = out.remove(len_now - 1);
        out.push(61);
        proof {
            assert(final(out)@ =~= pre + base64_of(tail));
        }
    } else if n - i == 1 {
        push_base64_full(out, data[i], 0, 0);
        proof {
            assert(tail[0] == data@[i as int]);
        }
        let len_now = out.len();
        let _ = out.remove(len_now - 1);
        let len_now2 = out.len();
        let _ = out.remove(len_now2 - 1);
        out.push(61);
        out.push(61);
        proof {
            assert(final(out)@ =~= pre + base64_of(tail));
        }
    } else {
        proof {
            assert(tail =~= Seq::<u8>::empty());
            assert(base64_of(tail) =~= Seq::<u8>::empty());
            assert(pre + Seq::<u8>::empty() =~= pre);
        }
    }
}

/// The rendering of a public byte string: its base64 text in quotes, or a
/// length notice once it reaches 96 bytes.
pub open spec fn public_bytes_text(data: Seq<u8>) -> Seq<u8> {
    if data.len() >= 96 {
        lit("... ") + dec_bytes(data.len()) + lit(" bytes omitted")
    } else {
        seq![34u8] + base64_of(data) + seq![34u8]
    }
}

/// Appends the rendering of a public byte string.
pub fn print_public_bytes(out: &mut Vec<u8>, data: &Vec<u8>)
    ensures
        final(out)@ == old(out)@ + public_bytes_text(data@),
{
    if data.len() >= 96 {
        push_lit(out, "... ");
        let n = data.len();
        push_dec(out, n as u64);
        push_lit(out, " bytes omitted");
        proof {
            assert(final(out)@ =~= old(out)@ + public_bytes_text(data@));
        }
    } else {
        out.push(34);
        print_base64(out, data);
        out.push(34);
        proof {
            assert(final(out)@ =~= old(out)@ + public_bytes_text(data@));
        }
    }
}

/// The fixed rendering of any secret byte string.
pub open spec fn secret_bytes_text() -> Seq<u8> {
    lit("<redacted>")
}

/// Appends the fixed rendering of a secret byte string: secrets never print
/// their contents.
pub fn print_secret_bytes(out: &mut Vec<u8>)
    ensures
        final(out)@ == old(out)@ + secret_bytes_text(),
{
    push_lit(out, "<redacted>");
}

/// The sub-second part of a duration: whole milliseconds or microseconds
/// when the value is exact in that unit, otherwise nanoseconds.
pub open spec fn subsecond_text(subns: nat) -> Seq<u8> {
    if subns % 1000000 == 0 {
        dec_bytes(subns / 1000000) + lit("ms")
    } else if subns % 1000 == 0 {
        dec_bytes(subns / 1000) + lit("\u{b5}s")
    } else {
        dec_bytes(subns) + lit("ns")
    }
}

/// One unit field: nothing when the count is zero, otherwise the count and
/// its unit suffix, preceded by a space when an earlier field was printed.
pub open spec fn field_text(v: nat, unit: &str, prior: bool) -> Seq<u8> {
    if v == 0 {
        Seq::empty()
    } else {
        (if prior {
            lit(" ")
        } else {
            Seq::<u8>::empty()
        }) + dec_bytes(v) + lit(unit)
    }
}

/// The sub-second field, preceded by a space when an earlier field was
/// printed.
pub open spec fn subsecond_field(subns: nat, prior: bool) -> Seq<u8> {
    if subns == 0 {
        Seq::empty()
    } else {
        (if prior {
            lit(" ")
        } else {
            Seq::<u8>::empty()
        }) + subsecond_text(subns)
    }
}

/// Appends one unit field.
fn push_field(out: &mut Vec<u8>, v: u64, unit: &str, prior: bool)
    ensures
        final(out)@ == old(out)@ + field_text(v as nat, unit, prior),
{
    if v != 0 {
        if prior {
            push_lit(out, " ");
        }
        push_dec(out, v);
        push_lit(out, unit);
        proof {
            assert(final(out)@ =~= old(out)@ + field_text(v as nat, unit, prior));
        }
    } else {
        proof {
            assert(old(out)@ + field_text(0, unit, prior) =~= old(out)@);
        }
    }
}

/// Appends the sub-second field.
fn push_subsecond(out: &mut Vec<u8>, subns: u64, prior: bool)
    ensures
        final(out)@ == old(out)@ + subsecond_field(subns as nat, prior),
{
    if subns != 0 {
        if prior {
            push_lit(out, " ");
        }
        if subns % 1000000 == 0 {
            push_dec(out, subns / 1000000);
            push_lit(out, "ms");
        } else if subns % 1000 == 0 {
            push_dec(out, subns / 1000);
            push_lit(out, "\u{b5}s");
        } else {
            push_dec(out, subns);
            push_lit(out, "ns");
        }
        proof {
            assert(final(out)@ =~= old(out)@ + subsecond_field(subns as nat, prior));
        }
    } else {
        proof {
            assert(old(out)@ + subsecond_field(0, prior) =~= old(out)@);
        }
    }
}

/// The unit fields of a finite, non-zero duration magnitude: days, hours,
/// minutes, seconds and the sub-second part, space-separated, omitting zero
/// fields.
pub open spec fn duration_fields(total: nat) -> Seq<u8> {
    let secs_total = total / 1000000000;
    let subns = total % 1000000000;
    let mins_total = secs_total / 60;
    let secs = secs_total % 60;
    let hours_total = mins_total / 60;
    let mins = mins_total % 60;
    let days = hours_total / 24;
    let hours = hours_total % 24;
    field_text(days, "d", false) + field_text(hours, "h", days != 0) + field_text(
        mins,
        "m",
        days != 0 || hours != 0,
    ) + field_text(secs, "s", days != 0 || hours != 0 || mins != 0) + subsecond_field(
        subns,
        days != 0 || hours != 0 || mins != 0 || secs != 0,
    )
}

/// The full rendering of a duration: zero and the two infinities have fixed
/// forms; a negative finite value is its magnitude's fields in `-[...]`.
pub open spec fn duration_text(d: Duration) -> Seq<u8> {
    if d.nanoseconds == 0 {
        lit("0")
    } else if d.nanoseconds == i64::MAX {
        lit("+infinity")
    } else if d.nanoseconds <= -i64::MAX {
        lit("-infinity")
    } else if d.nanoseconds < 0 {
        lit("-[") + duration_fields((-(d.nanoseconds as int)) as nat) + lit("]")
    } else {
        duration_fields(d.nanoseconds as nat)
    }
}

/// Appends the unit fields of a non-zero finite magnitude.
fn push_duration_fields(out: &mut Vec<u8>, total: u64)
    ensures
        final(out)@ == old(out)@ + duration_fields(total as nat),
{
    let secs_total = total / 1000000000;
    let subns = total % 1000000000;
    let mins_total = secs_total / 60;
    let secs = secs_total % 60;
    let hours_total = mins_total / 60;
    let mins = mins_total % 60;
    let days = hours_total / 24;
    let hours = hours_total % 24;
    push_field(out, days, "d", false);
    push_field(out, hours, "h", days != 0);
    push_field(out, mins, "m", days != 0 || hours != 0);
    push_field(out, secs, "s", days != 0 || hours != 0 || mins != 0);
    push_subsecond(out, subns, days != 0 || hours != 0 || mins != 0 || secs != 0);
    proof {
        assert(final(out)@ =~= old(out)@ + duration_fields(total as nat));
    }
}

impl Printable for Duration {
    open spec fn print_spec(&self) -> Seq<u8> {
        duration_text(*self)
    }

    fn print(&self, out: &mut Vec<u8>) {
        if self.nanoseconds == 0 {
            push_lit(out, "0");
        } else if self.nanoseconds >= i64::MAX {
            push_lit(out, "+infinity");
        } else if self.nanoseconds <= -i64::MAX {
            push_lit(out, "-infinity");
        } else if self.nanoseconds < 0 {
            push_lit(out, "-[");
            let magnitude = (-(self.nanoseconds as i128)) as u64;
            push_duration_fields(out, magnitude);
            push_lit(out, "]");
            proof {
                assert(final(out)@ =~= old(out)@ + duration_text(*self));
            }
        } else {
            push_duration_fields(out, self.nanoseconds as u64);
        }
    }
}

impl Printable for Instant {
    open spec fn print_spec(&self) -> Seq<u8> {
        duration_text(self.since_epoch) + lit(" since epoch")
    }

    fn print(&self, out: &mut Vec<u8>) {
        self.since_epoch.print(out);
        push_lit(out, " since epoch");
        proof {
            assert(final(out)@ =~= old(out)@ + self.print_spec());
        }
    }
}

/// A value with a fixed human-readable rendering.
pub trait Printable {
    /// The exact bytes this value renders to.
    spec fn print_spec(&self) -> Seq<u8>;

    /// Appends this value's rendering.
    fn print(&self, out: &mut Vec<u8>)
        ensures
            final(out)@ == old(out)@ + self.print_spec(),
    ;
}


/// The renderings of the items from position `i` on, each preceded by a
/// comma separator.
pub open spec fn joined_from<T: Printable>(items: Seq<T>, i: int) -> Seq<u8>
    decreases items.len() - i,
{
    if 0 <= i < items.len() {
        lit(", ") + items[i].print_spec() + joined_from(items, i + 1)
    } else {
        Seq::empty()
    }
}

/// Appends the comma-separated renderings of the items from position `i` on.
fn print_items_from<T: Printable>(out: &mut Vec<u8>, items: &Vec<T>, i: usize)
    ensures
        final(out)@ == old(out)@ + joined_from(items@, i as int),
    decreases items@.len() - i,
{
    let n = items.len();
    if i < n {
        push_lit(out, ", ");
        items[i].print(out);
        print_items_from(out, items, i + 1);
        proof {
            assert(final(out)@ =~= old(out)@ + joined_from(items@, i as int));
        }
    } else {
        proof {
            assert(old(out)@ + joined_from(items@, i as int) =~= old(out)@);
        }
    }
}

impl<T: Printable> Printable for Vec<T> {
    open spec fn print_spec(&self) -> Seq<u8> {
        if self@.len() == 0 {
            lit("[]")
        } else {
            lit("[ ") + self@[0].print_spec() + joined_from(self@, 1) + lit(" ]")
        }
    }

    fn print(&self, out: &mut Vec<u8>) {
        if self.len() == 0 {
            push_lit(out, "[]");
        } else {
            push_lit(out, "[ ");
            let first = &self[0];
            first.print(out);
            print_items_from(out, self, 1);
            push_lit(out, " ]");
            proof {
                assert(final(out)@ =~= old(out)@ + self.print_spec());
            }
        }
    }
}

} // verus!
