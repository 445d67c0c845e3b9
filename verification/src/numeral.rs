//! Numerals: runs of ASCII digits read as numbers, and numbers written back
//! as zero-padded decimal digits.

use vstd::prelude::*;
use vstd::string::StringExecFns;

verus! {

/// The digits of base ten and of base sixteen. Base sixteen takes the
/// lower-case letters `a` to `f` only, as identifiers in the feed are
/// written.
pub open spec fn is_digit(b: u8, radix: nat) -> bool {
    (0x30 <= b <= 0x39) || (radix == 16 && 0x61 <= b <= 0x66)
}

/// The number a digit stands for.
pub open spec fn digit_value(b: u8) -> nat {
    if b <= 0x39 {
        (b - 0x30) as nat
    } else {
        (b - 0x61 + 10) as nat
    }
}

/// A numeral is a non-empty run of digits of the given base.
pub open spec fn is_numeral(s: Seq<u8>, radix: nat) -> bool {
    s.len() > 0 && forall|i: int| 0 <= i < s.len() ==> is_digit(#[trigger] s[i], radix)
}

/// The number a run of digits stands for, most significant digit first.
pub open spec fn numeral_value(s: Seq<u8>, radix: nat) -> nat
    decreases s.len(),
{
    if s.len() == 0 {
        0
    } else {
        numeral_value(s.drop_last(), radix) * radix + digit_value(s.last())
    }
}

/// `radix` raised to the power `n`.
pub open spec fn radix_pow(radix: nat, n: nat) -> nat
    decreases n,
{
    if n == 0 {
        1
    } else {
        radix_pow(radix, (n - 1) as nat) * radix
    }
}

/// What reading `s` as a numeral no greater than `max` gives: the number,
/// or nothing where `s` is no numeral or the number is too large.
pub open spec fn read_numeral(s: Seq<u8>, radix: nat, max: nat) -> Option<nat> {
    if is_numeral(s, radix) && numeral_value(s, radix) <= max {
        Some(numeral_value(s, radix))
    } else {
        None
    }
}

/// A numeral is worth at least as much as any of its prefixes.
pub proof fn lemma_prefix_value(s: Seq<u8>, k: int, radix: nat)
    requires
        0 <= k <= s.len(),
        radix >= 1,
    ensures
        numeral_value(s.take(k), radix) <= numeral_value(s, radix),
    decreases s.len() - k,
{
    if k == s.len() {
        assert(s.take(k) =~= s);
    } else {
        let t = s.take(k + 1);
        assert(t.drop_last() =~= s.take(k));
        assert(numeral_value(s.take(k), radix) <= numeral_value(s.take(k), radix) * radix)
            by (nonlinear_arith)
            requires
                radix >= 1,
        ;
        lemma_prefix_value(s, k + 1, radix);
    }
}

/// A numeral of `n` digits is less than the `n`th power of its base.
pub proof fn lemma_value_bound(s: Seq<u8>, radix: nat)
    requires
        radix == 10 || radix == 16,
        forall|i: int| 0 <= i < s.len() ==> is_digit(#[trigger] s[i], radix),
    ensures
        numeral_value(s, radix) < radix_pow(radix, s.len()),
    decreases s.len(),
{
    if s.len() > 0 {
        let p = s.drop_last();
        lemma_value_bound(p, radix);
        let v = numeral_value(p, radix);
        let w = radix_pow(radix, p.len());
        assert(digit_value(s.last()) < radix);
        assert(v * radix + digit_value(s.last()) < w * radix) by (nonlinear_arith)
            requires
                v < w,
                digit_value(s.last()) < radix,
        ;
    }
}

/// The two bases in which the numbers of a message are written.
#[derive(Clone, Copy, Debug, PartialEq, Eq, Structural)]
pub enum Radix {
    /// Base ten, digits `0` to `9`.
    Decimal,
    /// Base sixteen, digits `0` to `9` and `a` to `f`.
    Hexadecimal,
}

impl Radix {
    /// The base as a number.
    pub open spec fn base(self) -> nat {
        match self {
            Radix::Decimal => 10,
            Radix::Hexadecimal => 16,
        }
    }
}

/// What reading the bytes of `text` from `start` up to `end` as a numeral
/// no greater than `max` gives; nothing where the range does not lie in the
/// text.
pub open spec fn numeral_at(text: Seq<u8>, start: int, end: int, radix: nat, max: nat) -> Option<
    nat,
> {
    if 0 <= start <= end <= text.len() {
        read_numeral(text.subrange(start, end), radix, max)
    } else {
        None
    }
}

/// Reads the bytes of `bytes` from `start` up to `end` as a numeral that
/// must not exceed `max`.
pub fn parse_numeral(bytes: &[u8], start: usize, end: usize, radix: Radix, max: u64) -> (r: Option<
    u64,
>)
    ensures
        match r {
            Some(v) => numeral_at(bytes@, start as int, end as int, radix.base(), max as nat)
                == Some(v as nat),
            None => numeral_at(
                bytes@,
                start as int,
                end as int,
                radix.base(),
                max as nat,
            ).is_none(),
        },
{
    if start >= end || end > bytes.len() {
        return None;
    }
    let ghost s = bytes@.subrange(start as int, end as int);
    let hex: bool = match radix {
        Radix::Decimal => false,
        Radix::Hexadecimal => true,
    };
    let base: u64 = if hex { 16 } else { 10 };
    let mut acc: u64 = 0;
    let mut i: usize = start;
    while i < end
        invariant
            start <= i <= end <= bytes@.len(),
            base == radix.base(),
            hex == (radix == Radix::Hexadecimal),
            s == bytes@.subrange(start as int, end as int),
            forall|j: int| 0 <= j < i - start ==> is_digit(#[trigger] s[j], radix.base()),
            acc as nat == numeral_value(s.take(i - start), radix.base()),
            acc <= max,
        decreases end - i,
    {
        let b: u8 = bytes[i];
        assert(b == s[i - start]);
        let d: u64 = if 0x30 <= b && b <= 0x39 {
            (b - 0x30) as u64
        } else if hex && 0x61 <= b && b <= 0x66 {
            (b - 0x61 + 10) as u64
        } else {
            assert(!is_digit(s[i - start], radix.base()));
            return None;
        };
        assert(d as nat == digit_value(b));
        assert((acc as u128) * (base as u128) <= 0xffff_ffff_ffff_ffff * 16) by (nonlinear_arith)
            requires
                acc <= 0xffff_ffff_ffff_ffff,
                base <= 16,
        ;
        let next: u128 = (acc as u128) * (base as u128) + (d as u128);
        proof {
            let t = s.take(i - start + 1);
            assert(t.drop_last() =~= s.take(i - start));
            assert(t.last() == b);
            assert(numeral_value(t, radix.base()) == next as nat);
            lemma_prefix_value(s, i - start + 1, radix.base());
        }
        if next > max as u128 {
            return None;
        }
        acc = next as u64;
        i = i + 1;
    }
    assert(s.take(end - start) =~= s);
    Some(acc)
}

/// The powers of ten and sixteen that the fields of a message need.
pub proof fn lemma_pow_values()
    ensures
        radix_pow(10, 2) == 100,
        radix_pow(10, 4) == 10_000,
        radix_pow(10, 6) == 1_000_000,
        radix_pow(16, 4) == 0x1_0000,
        radix_pow(16, 8) == 0x1_0000_0000,
        radix_pow(16, 12) == 0x1_0000_0000_0000,
{
    reveal_with_fuel(radix_pow, 13);
}

/// Reads exactly `width` bytes of `bytes`, starting at `at`, as a numeral.
/// `max` is a bound that every numeral of that width meets, so the only
/// way to fail is to meet a byte that is no digit, or the end of the text.
pub(crate) fn fixed_numeral(bytes: &[u8], at: usize, width: usize, radix: Radix, max: u64) -> (r:
    Option<u64>)
    requires
        width > 0,
        radix_pow(radix.base(), width as nat) <= max + 1,
    ensures
        r.is_some() == (at + width <= bytes@.len() && is_numeral(
            bytes@.subrange(at as int, at + width),
            radix.base(),
        )),
        r matches Some(v) ==> v as nat == numeral_value(
            bytes@.subrange(at as int, at + width),
            radix.base(),
        ) && v <= max,
{
    let n: usize = bytes.len();
    if at > n || width > n - at {
        return None;
    }
    let r = parse_numeral(bytes, at, at + width, radix, max);
    proof {
        let s = bytes@.subrange(at as int, at + width);
        if is_numeral(s, radix.base()) {
            lemma_value_bound(s, radix.base());
        }
    }
    r
}

/// The byte that writes a digit below ten.
pub open spec fn digit_byte(d: nat) -> u8 {
    (0x30 + d % 10) as u8
}

/// The decimal digits of `n`, with zeros in front until there are at least
/// `width` of them. A number too large for `width` digits keeps all its
/// digits, and zero is written with one digit even where `width` is zero.
pub open spec fn padded(n: nat, width: nat) -> Seq<u8>
    decreases n, width,
{
    if n >= 10 || width > 1 {
        padded(n / 10, if width > 0 { (width - 1) as nat } else { 0 }) + seq![digit_byte(n % 10)]
    } else {
        seq![digit_byte(n)]
    }
}

/// Bytes below 128 read as characters.
pub open spec fn ascii(s: Seq<u8>) -> Seq<char> {
    Seq::new(s.len(), |i: int| s[i] as char)
}

/// Written digits are a numeral, and reading them gives the number back.
pub proof fn lemma_padded_reads_back(n: nat, width: nat)
    ensures
        is_numeral(padded(n, width), 10),
        numeral_value(padded(n, width), 10) == n,
        padded(n, width).len() >= width,
        width >= 1 && n < radix_pow(10, width) ==> padded(n, width).len() == width,
    decreases n, width,
{
    if n >= 10 || width > 1 {
        let w: nat = if width > 0 { (width - 1) as nat } else { 0 };
        let head = padded(n / 10, w);
        let whole = padded(n, width);
        lemma_padded_reads_back(n / 10, w);
        assert(whole == head + seq![digit_byte(n % 10)]);
        assert(whole.drop_last() =~= head);
        assert(whole.last() == digit_byte(n % 10));
        assert(digit_value(digit_byte(n % 10)) == n % 10);
        assert forall|i: int| 0 <= i < whole.len() implies is_digit(#[trigger] whole[i], 10) by {
            if i < head.len() {
                assert(whole[i] == head[i]);
            }
        }
        if width >= 1 && n < radix_pow(10, width) {
            assert(radix_pow(10, width) == radix_pow(10, (width - 1) as nat) * 10);
            if width > 1 {
                assert(n / 10 < radix_pow(10, w));
            } else {
                assert(radix_pow(10, 1) == 10) by {
                    reveal_with_fuel(radix_pow, 2);
                }
            }
        }
    } else {
        let whole = padded(n, width);
        assert(whole.drop_last() =~= Seq::<u8>::empty());
        assert(numeral_value(whole.drop_last(), 10) == 0);
        assert(digit_value(digit_byte(n)) == n);
    }
}

/// Writing the number that a run of decimal digits stands for, padded to the
/// run's own length, gives the run back.
pub proof fn lemma_numeral_writes_back(s: Seq<u8>)
    requires
        is_numeral(s, 10),
    ensures
        padded(numeral_value(s, 10), s.len()) == s,
    decreases s.len(),
{
    let p = s.drop_last();
    let d = digit_value(s.last());
    let v = numeral_value(s, 10);
    assert(is_digit(s[s.len() - 1], 10));
    assert(d < 10);
    assert(digit_byte(d) == s.last());
    if s.len() == 1 {
        assert(p =~= Seq::<u8>::empty());
        assert(numeral_value(p, 10) == 0);
        assert(v == d);
        assert(padded(v, 1) =~= s);
    } else {
        assert(is_numeral(p, 10)) by {
            assert forall|i: int| 0 <= i < p.len() implies is_digit(#[trigger] p[i], 10) by {
                assert(p[i] == s[i]);
            }
        }
        lemma_numeral_writes_back(p);
        assert(v == numeral_value(p, 10) * 10 + d);
        assert(v / 10 == numeral_value(p, 10));
        assert(v % 10 == d);
        assert(padded(v, s.len()) == padded(v / 10, (s.len() - 1) as nat) + seq![digit_byte(v % 10)]);
        assert(padded(v, s.len()) =~= s);
    }
}

/// The one-character text of a digit below ten.
fn digit_text(d: u32) -> (r: &'static str)
    requires
        d < 10,
    ensures
        r@ == ascii(seq![digit_byte(d as nat)]),
{
    proof {
        reveal_strlit("0");
        reveal_strlit("1");
        reveal_strlit("2");
        reveal_strlit("3");
        reveal_strlit("4");
        reveal_strlit("5");
        reveal_strlit("6");
        reveal_strlit("7");
        reveal_strlit("8");
        reveal_strlit("9");
    }
    let r = match d {
        0 => "0",
        1 => "1",
        2 => "2",
        3 => "3",
        4 => "4",
        5 => "5",
        6 => "6",
        7 => "7",
        8 => "8",
        _ => "9",
    };
    assert(r@ =~= ascii(seq![digit_byte(d as nat)]));
    r
}

/// Appends the decimal digits of `n` to `out`, zero-padded to `width`.
pub fn push_padded(out: &mut String, n: u32, width: u32)
    ensures
        final(out)@ == old(out)@ + ascii(padded(n as nat, width as nat)),
    decreases n, width,
{
    if n >= 10 || width > 1 {
        let w: u32 = if width > 0 { width - 1 } else { 0 };
        push_padded(out, n / 10, w);
        out.append(digit_text(n % 10));
        assert(ascii(padded(n as nat, width as nat)) =~= ascii(padded((n / 10) as nat, w as nat))
            + ascii(seq![digit_byte((n % 10) as nat)]));
    } else {
        out.append(digit_text(n));
    }
}

/// Two runs of digits of one length that stand for the same number are the
/// same run.
pub proof fn lemma_value_injective(a: Seq<u8>, b: Seq<u8>, radix: nat)
    requires
        radix == 10 || radix == 16,
        a.len() == b.len(),
        forall|i: int| 0 <= i < a.len() ==> is_digit(#[trigger] a[i], radix),
        forall|i: int| 0 <= i < b.len() ==> is_digit(#[trigger] b[i], radix),
        numeral_value(a, radix) == numeral_value(b, radix),
    ensures
        a == b,
    decreases a.len(),
{
    if a.len() == 0 {
        assert(a =~= b);
    } else {
        let pa = a.drop_last();
        let pb = b.drop_last();
        assert(is_digit(a[a.len() - 1], radix));
        assert(is_digit(b[b.len() - 1], radix));
        let da = digit_value(a.last());
        let db = digit_value(b.last());
        assert(da < radix && db < radix);
        let va = numeral_value(pa, radix);
        let vb = numeral_value(pb, radix);
        assert(va * radix + da == vb * radix + db);
        assert(va == vb && da == db) by {
            if radix == 10 {
                assert(va * 10 + da == vb * 10 + db);
            } else {
                assert(va * 16 + da == vb * 16 + db);
            }
        }
        assert(a.last() == b.last());
        assert forall|i: int| 0 <= i < pa.len() implies is_digit(#[trigger] pa[i], radix) by {
            assert(pa[i] == a[i]);
        }
        assert forall|i: int| 0 <= i < pb.len() implies is_digit(#[trigger] pb[i], radix) by {
            assert(pb[i] == b[i]);
        }
        lemma_value_injective(pa, pb, radix);
        assert(a =~= pa.push(a.last()));
        assert(b =~= pb.push(b.last()));
    }
}

} // verus!
