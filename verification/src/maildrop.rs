//! The computational core of the filesystem maildrop agent: argument
//! parsing, outbox file naming, and inbox file selection. The filesystem
//! work itself stays outside the verified core.

use vstd::prelude::*;

use crate::printable::{dec_bytes, push_dec};
use vstd::arithmetic::div_mod::{lemma_div_nonincreasing, lemma_div_pos_is_pos, lemma_mod_bound};

verus! {

/// Why a maildrop configuration was rejected.
#[derive(Clone, Copy, Debug, PartialEq, Eq, Structural)]
pub enum ConfigError {
    UnknownArgument,
    MissingInbox,
    MissingOutbox,
}

/// Where a maildrop agent reads and writes, as path byte strings.
#[derive(Clone, Debug, PartialEq)]
pub struct MaildropConfig {
    pub inbox: Vec<u8>,
    pub outbox: Vec<u8>,
}

/// The bytes of `inbox=`.
pub open spec fn inbox_prefix() -> Seq<u8> {
    seq![105u8, 110u8, 98u8, 111u8, 120u8, 61u8]
}

/// The bytes of `outbox=`.
pub open spec fn outbox_prefix() -> Seq<u8> {
    seq![111u8, 117u8, 116u8, 98u8, 111u8, 120u8, 61u8]
}

/// Whether `s` starts with `p`.
pub open spec fn starts_with(s: Seq<u8>, p: Seq<u8>) -> bool {
    s.len() >= p.len() && s.take(p.len() as int) == p
}

/// Folds the argument list into the last `inbox=` and `outbox=` values seen;
/// `None` when some argument is neither.
pub open spec fn fold_config(
    args: Seq<Seq<u8>>,
    inbox: Option<Seq<u8>>,
    outbox: Option<Seq<u8>>,
) -> Option<(Option<Seq<u8>>, Option<Seq<u8>>)>
    decreases args.len(),
{
    if args.len() == 0 {
        Some((inbox, outbox))
    } else if starts_with(args[0], inbox_prefix()) {
        fold_config(args.drop_first(), Some(args[0].skip(6)), outbox)
    } else if starts_with(args[0], outbox_prefix()) {
        fold_config(args.drop_first(), inbox, Some(args[0].skip(7)))
    } else {
        None
    }
}

/// The configuration an argument list describes, or why it is rejected.
pub open spec fn config_spec(args: Seq<Seq<u8>>) -> Result<
    (Seq<u8>, Seq<u8>),
    ConfigError,
> {
    match fold_config(args, None, None) {
        None => Err(ConfigError::UnknownArgument),
        Some((None, _)) => Err(ConfigError::MissingInbox),
        Some((Some(_), None)) => Err(ConfigError::MissingOutbox),
        Some((Some(i), Some(o))) => Ok((i, o)),
    }
}

/// Checks whether `arg` starts with `prefix` and hands back the remainder.
fn strip_prefix(arg: &Vec<u8>, prefix: &Vec<u8>) -> (r: Option<Vec<u8>>)
    ensures
        match r {
            Some(rest) => starts_with(arg@, prefix@) && rest@ == arg@.skip(prefix@.len() as int),
            None => !starts_with(arg@, prefix@),
        },
{
    let pn = prefix.len();
    let n = arg.len();
    if n < pn {
        return None;
    }
    let mut i: usize = 0;
    while i < pn
        invariant
            i <= pn <= n,
            pn == prefix@.len(),
            n == arg@.len(),
            forall|j: int| 0 <= j < i ==> arg@[j] == prefix@[j],
        decreases pn - i,
    {
        if arg[i] != prefix[i] {
            proof {
                assert(arg@.take(pn as int)[i as int] != prefix@[i as int]);
            }
            return None;
        }
        i = i + 1;
    }
    proof {
        assert(arg@.take(pn as int) =~= prefix@);
    }
    let mut rest: Vec<u8> = Vec::new();
    let mut k: usize = pn;
    while k < n
        invariant
            pn <= k <= n,
            n == arg@.len(),
            rest@ == arg@.subrange(pn as int, k as int),
        decreases n - k,
    {
        rest.push(arg[k]);
        k = k + 1;
        proof {
            assert(arg@.subrange(pn as int, k as int) =~= arg@.subrange(pn as int, k - 1).push(
                arg@[k - 1],
            ));
        }
    }
    proof {
        assert(rest@ =~= arg@.skip(pn as int));
    }
    Some(rest)
}

fn inbox_prefix_vec() -> (r: Vec<u8>)
    ensures
        r@ == inbox_prefix(),
{
    let mut v: Vec<u8> = Vec::new();
    v.push(105);
    v.push(110);
    v.push(98);
    v.push(111);
    v.push(120);
    v.push(61);
    proof {
        assert(v@ =~= inbox_prefix());
    }
    v
}

fn outbox_prefix_vec() -> (r: Vec<u8>)
    ensures
        r@ == outbox_prefix(),
{
    let mut v: Vec<u8> = Vec::new();
    v.push(111);
    v.push(117);
    v.push(116);
    v.push(98);
    v.push(111);
    v.push(120);
    v.push(61);
    proof {
        assert(v@ =~= outbox_prefix());
    }
    v
}

/// Parses maildrop arguments: the last `inbox=PATH` and `outbox=PATH` win,
/// anything else is rejected, and both must be present.
pub fn parse_config(args: &Vec<Vec<u8>>) -> (r: Result<MaildropConfig, ConfigError>)
    ensures
        match r {
            Ok(c) => config_spec(args.deep_view()) == Ok::<_, ConfigError>(
                (c.inbox@, c.outbox@),
            ),
            Err(e) => config_spec(args.deep_view()) == Err::<(Seq<u8>, Seq<u8>), _>(e),
        },
{
    let ghost m = args.deep_view();
    let inbox_p = inbox_prefix_vec();
    let outbox_p = outbox_prefix_vec();
    let mut inbox: Option<Vec<u8>> = None;
    let mut outbox: Option<Vec<u8>> = None;
    let count = args.len();
    let mut i: usize = 0;
    proof {
        assert(m.skip(0) =~~= m);
    }
    while i < count
        invariant
            i <= count,
            count == args@.len(),
            m == args.deep_view(),
            inbox_p@ == inbox_prefix(),
            outbox_p@ == outbox_prefix(),
            fold_config(m, None, None) == fold_config(
                m.skip(i as int),
                match &inbox {
                    Some(v) => Some(v@),
                    None => None,
                },
                match &outbox {
                    Some(v) => Some(v@),
                    None => None,
                },
            ),
        decreases count - i,
    {
        let ghost tail = m.skip(i as int);
        let ghost ib0: Option<Seq<u8>> = match &inbox {
            Some(v) => Some(v@),
            None => None,
        };
        let ghost ob0: Option<Seq<u8>> = match &outbox {
            Some(v) => Some(v@),
            None => None,
        };
        let arg = &args[i];
        proof {
            assert(m[i as int] == args@[i as int]@);
            assert(tail[0] =~= m[i as int]);
            assert(tail.drop_first() =~~= m.skip(i as int + 1));
        }
        match strip_prefix(arg, &inbox_p) {
            Some(rest) => {
                proof {
                    assert(arg@ == args@[i as int]@);
                    assert(arg@ == tail[0]);
                    assert(inbox_p@ == inbox_prefix());
                    assert(starts_with(tail[0], inbox_prefix()));
                    assert(tail.len() > 0);
                    assert(fold_config(tail, ib0, ob0) == fold_config(
                        tail.drop_first(),
                        Some(tail[0].skip(6)),
                        ob0,
                    ));
                    assert(rest@ =~= tail[0].skip(6));
                }
                inbox = Some(rest);
            },
            None => {
                match strip_prefix(arg, &outbox_p) {
                    Some(rest) => {
                        proof {
                            assert(fold_config(tail, ib0, ob0) == fold_config(
                                tail.drop_first(),
                                ib0,
                                Some(tail[0].skip(7)),
                            ));
                            assert(rest@ =~= tail[0].skip(7));
                        }
                        outbox = Some(rest);
                    },
                    None => {
                        proof {
                            assert(fold_config(tail, ib0, ob0) is None);
                        }
                        return Err(ConfigError::UnknownArgument);
                    },
                }
            },
        }
        i = i + 1;
    }
    proof {
        assert(m.skip(count as int) =~~= Seq::<Seq<u8>>::empty());
    }
    match (inbox, outbox) {
        (Some(i), Some(o)) => Ok(MaildropConfig { inbox: i, outbox: o }),
        (None, _) => Err(ConfigError::MissingInbox),
        (Some(_), None) => Err(ConfigError::MissingOutbox),
    }
}

/// The wrapping outbound-file counter: hands out the current value and steps
/// to the next, wrapping at the 32-bit boundary.
pub fn next_counter(counter: u32) -> (r: (u32, u32))
    ensures
        r.0 == counter,
        r.1 as int == (counter as int + 1) % 0x100000000,
{
    if counter == u32::MAX {
        (counter, 0)
    } else {
        (counter, counter + 1)
    }
}

/// The hexadecimal ASCII digits of `n`, lowercase, most significant first.
pub open spec fn hex_bytes(n: nat) -> Seq<u8>
    decreases n,
{
    if n < 16 {
        seq![hex_digit(n)]
    } else {
        hex_bytes(n / 16).push(hex_digit(n % 16))
    }
}

/// One lowercase hexadecimal digit.
pub open spec fn hex_digit(k: nat) -> u8 {
    if k < 10 {
        (48 + k) as u8
    } else {
        (87 + k) as u8
    }
}

/// Appends the hexadecimal digits of `v`.
pub fn push_hex(out: &mut Vec<u8>, v: u64)
    ensures
        final(out)@ == old(out)@ + hex_bytes(v as nat),
    decreases v,
{
    if v < 16 {
        let d: u8 = if v < 10 {
            48 + (v as u8)
        } else {
            87 + (v as u8)
        };
        out.push(d);
        proof {
            assert(final(out)@ =~= old(out)@ + hex_bytes(v as nat));
        }
    } else {
        proof {
            lemma_div_nonincreasing(v as int, 16);
            lemma_div_pos_is_pos(v as int, 16);
            lemma_mod_bound(v as int, 16);
        }
        push_hex(out, v / 16);
        let m = v % 16;
        let d: u8 = if m < 10 {
            48 + (m as u8)
        } else {
            87 + (m as u8)
        };
        out.push(d);
        proof {
            assert(final(out)@ =~= old(out)@ + hex_bytes(v as nat));
        }
    }
}

/// Zero-padding to a fixed width: the digits, preceded by ASCII zeros when
/// they are shorter than the field.
pub open spec fn padded(digits: Seq<u8>, width: nat) -> Seq<u8> {
    if digits.len() >= width {
        digits
    } else {
        Seq::new((width - digits.len()) as nat, |i: int| 48u8) + digits
    }
}

/// Appends `digits` padded with leading zeros to `width`.
fn push_padded(out: &mut Vec<u8>, digits: &Vec<u8>, width: usize)
    ensures
        final(out)@ == old(out)@ + padded(digits@, width as nat),
{
    let n = digits.len();
    if n < width {
        let pad = width - n;
        let mut k: usize = 0;
        while k < pad
            invariant
                k <= pad,
                out@ == old(out)@ + Seq::new(k as nat, |i: int| 48u8),
            decreases pad - k,
        {
            out.push(48);
            k = k + 1;
            proof {
                assert(Seq::new(k as nat, |i: int| 48u8) =~= Seq::new(
                    (k - 1) as nat,
                    |i: int| 48u8,
                ).push(48u8));
            }
        }
        let ghost mid = out@;
        let mut j: usize = 0;
        while j < n
            invariant
                j <= n,
                n == digits@.len(),
                out@ == mid + digits@.take(j as int),
            decreases n - j,
        {
            out.push(digits[j]);
            j = j + 1;
            proof {
                assert(digits@.take(j as int) =~= digits@.take(j - 1).push(digits@[j - 1]));
            }
        }
        proof {
            assert(digits@.take(n as int) =~= digits@);
            assert(final(out)@ =~= old(out)@ + padded(digits@, width as nat));
        }
    } else {
        let mut j: usize = 0;
        let ghost mid = out@;
        while j < n
            invariant
                j <= n,
                n == digits@.len(),
                out@ == mid + digits@.take(j as int),
            decreases n - j,
        {
            out.push(digits[j]);
            j = j + 1;
            proof {
                assert(digits@.take(j as int) =~= digits@.take(j - 1).push(digits@[j - 1]));
            }
        }
        proof {
            assert(digits@.take(n as int) =~= digits@);
        }
    }
}

/// The bytes of the `.dmxf` suffix.
pub open spec fn suffix_bytes() -> Seq<u8> {
    seq![46u8, 100u8, 109u8, 120u8, 102u8]
}

/// The bytes of the `.tmp` suffix.
pub open spec fn tmp_suffix_bytes() -> Seq<u8> {
    seq![46u8, 116u8, 109u8, 112u8]
}

/// The durable name of an outbound message file: seconds and nanoseconds
/// since the epoch zero-padded to twelve and nine decimal digits, the
/// wrapping counter as eight hexadecimal digits, and the message suffix.
pub open spec fn message_filename_spec(secs: nat, nanos: nat, counter: nat) -> Seq<u8> {
    padded(dec_bytes(secs), 12) + seq![45u8] + padded(dec_bytes(nanos), 9) + seq![45u8] + padded(
        hex_bytes(counter),
        8,
    ) + suffix_bytes()
}

/// Builds the durable name of an outbound message file.
pub fn message_filename(secs: u64, nanos: u32, counter: u32) -> (r: Vec<u8>)
    ensures
        r@ == message_filename_spec(secs as nat, nanos as nat, counter as nat),
{
    let mut secs_digits: Vec<u8> = Vec::new();
    push_dec(&mut secs_digits, secs);
    let mut nanos_digits: Vec<u8> = Vec::new();
    push_dec(&mut nanos_digits, nanos as u64);
    let mut counter_digits: Vec<u8> = Vec::new();
    push_hex(&mut counter_digits, counter as u64);
    let mut out: Vec<u8> = Vec::new();
    push_padded(&mut out, &secs_digits, 12);
    out.push(45);
    push_padded(&mut out, &nanos_digits, 9);
    out.push(45);
    push_padded(&mut out, &counter_digits, 8);
    out.push(46);
    out.push(100);
    out.push(109);
    out.push(120);
    out.push(102);
    proof {
        assert(out@ =~= message_filename_spec(secs as nat, nanos as nat, counter as nat));
    }
    out
}

/// Builds the temporary name an outbound file is written under before its
/// atomic rename: the durable name with `.tmp` appended.
pub fn temp_filename(secs: u64, nanos: u32, counter: u32) -> (r: Vec<u8>)
    ensures
        r@ == message_filename_spec(secs as nat, nanos as nat, counter as nat)
            + tmp_suffix_bytes(),
{
    let mut out = message_filename(secs, nanos, counter);
    out.push(46);
    out.push(116);
    out.push(109);
    out.push(112);
    proof {
        assert(out@ =~= message_filename_spec(secs as nat, nanos as nat, counter as nat)
            + tmp_suffix_bytes());
    }
    out
}

/// Whether a file name is an inbox message: it carries the message suffix
/// and is not a dotfile.
pub open spec fn matching_name(name: Seq<u8>) -> bool {
    &&& name.len() >= 5
    &&& name.skip(name.len() - 5) == suffix_bytes()
    &&& name[0] != 46u8
}

/// Decides whether an inbox entry is a message file: named with the message
/// suffix and not a dotfile.
pub fn is_matching_name(name: &Vec<u8>) -> (r: bool)
    ensures
        r == matching_name(name@),
{
    let n = name.len();
    if n < 5 {
        return false;
    }
    if name[0] == 46 {
        return false;
    }
    let tail_ok = name[n - 5] == 46 && name[n - 4] == 100 && name[n - 3] == 109 && name[n - 2]
        == 120 && name[n - 1] == 102;
    proof {
        let t = name@.skip(n - 5);
        assert(t.len() == 5);
        assert(t[0] == name@[n - 5]);
        assert(t[1] == name@[n - 4]);
        assert(t[2] == name@[n - 3]);
        assert(t[3] == name@[n - 2]);
        assert(t[4] == name@[n - 1]);
        if tail_ok {
            assert(t =~= suffix_bytes());
        } else {
            assert(t != suffix_bytes());
        }
    }
    tail_ok
}

/// A durable message file name always matches the inbox filter: what one
/// maildrop sends, a peer maildrop will see.
pub proof fn lemma_sent_files_match(secs: nat, nanos: nat, counter: nat)
    ensures
        matching_name(message_filename_spec(secs, nanos, counter)),
{
    let name = message_filename_spec(secs, nanos, counter);
    assert(name.skip(name.len() - 5) =~= suffix_bytes());
    assert(padded(dec_bytes(secs), 12).len() >= 12);
    assert(name[0] == padded(dec_bytes(secs), 12)[0]);
    assert(padded(dec_bytes(secs), 12)[0] != 46u8) by {
        let p = padded(dec_bytes(secs), 12);
        if dec_bytes(secs).len() >= 12 {
            lemma_dec_bytes_digits(secs);
        }
    }
}

/// A temporary file name never matches the inbox filter: half-written files
/// are invisible to receivers.
pub proof fn lemma_temp_files_hidden(secs: nat, nanos: nat, counter: nat)
    ensures
        !matching_name(
            message_filename_spec(secs, nanos, counter) + tmp_suffix_bytes(),
        ),
{
    let name = message_filename_spec(secs, nanos, counter) + tmp_suffix_bytes();
    let t = name.skip(name.len() - 5);
    assert(t[4] == name[name.len() - 1]);
    assert(name[name.len() - 1] == 112u8);
    assert(t != suffix_bytes());
}

/// Every decimal digit byte is an ASCII digit, in particular never a dot.
pub proof fn lemma_dec_bytes_digits(n: nat)
    ensures
        forall|i: int| 0 <= i < dec_bytes(n).len() ==> 48 <= #[trigger] dec_bytes(n)[i] <= 57,
    decreases n,
{
    if n >= 10 {
        lemma_dec_bytes_digits(n / 10);
        let s = dec_bytes(n);
        assert forall|i: int| 0 <= i < s.len() implies 48 <= #[trigger] s[i] <= 57 by {
            if i < s.len() - 1 {
                assert(s[i] == dec_bytes(n / 10)[i]);
            } else {
                assert(s[i] == (48 + n % 10) as u8);
            }
        }
    }
}

} // verus!
