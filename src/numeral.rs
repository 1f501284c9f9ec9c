//! Digit runs: recognising them, reading their value in base 10 or 16, and
//! writing numbers back as digits.
use vstd::prelude::*;

verus! {

/// An ASCII decimal digit.
pub open spec fn is_dec(c: char) -> bool {
    '0' <= c && c <= '9'
}

/// A hexadecimal digit of either case.
pub open spec fn is_hex(c: char) -> bool {
    is_dec(c) || ('a' <= c && c <= 'f') || ('A' <= c && c <= 'F')
}

/// A hexadecimal digit in lower case.
pub open spec fn is_lower_hex(c: char) -> bool {
    is_dec(c) || ('a' <= c && c <= 'f')
}

/// Which characters a digit run may hold.
#[derive(Clone, Copy, PartialEq, Eq, Structural)]
pub enum DigitClass {
    Decimal,
    Hex,
    LowerHex,
}

pub open spec fn in_class(c: char, k: DigitClass) -> bool {
    match k {
        DigitClass::Decimal => is_dec(c),
        DigitClass::Hex => is_hex(c),
        DigitClass::LowerHex => is_lower_hex(c),
    }
}

/// The base in which a run of the class is read.
pub open spec fn radix_of(k: DigitClass) -> nat {
    match k {
        DigitClass::Decimal => 10,
        _ => 16,
    }
}

/// The end of the longest run of `k`-digits in `s` starting at `i`.
pub open spec fn run_end(s: Seq<char>, i: int, k: DigitClass) -> int
    decreases s.len() - i,
{
    if 0 <= i < s.len() && in_class(s[i], k) {
        run_end(s, i + 1, k)
    } else {
        i
    }
}

pub proof fn lemma_run_end(s: Seq<char>, i: int, k: DigitClass)
    requires
        0 <= i <= s.len(),
    ensures
        i <= run_end(s, i, k) <= s.len(),
        forall|j: int| i <= j < run_end(s, i, k) ==> in_class(#[trigger] s[j], k),
        run_end(s, i, k) < s.len() ==> !in_class(s[run_end(s, i, k)], k),
    decreases s.len() - i,
{
    if i < s.len() && in_class(s[i], k) {
        lemma_run_end(s, i + 1, k);
    }
}

/// Finds the end of the run of `k`-digits starting at `i`.
pub fn run_end_exec(s: &Vec<char>, i: usize, k: DigitClass) -> (e: usize)
    requires
        i <= s@.len(),
    ensures
        e as int == run_end(s@, i as int, k),
{
    let mut e = i;
    while e < s.len() && class_has(s[e], k)
        invariant
            i <= e <= s@.len(),
            run_end(s@, i as int, k) == run_end(s@, e as int, k),
        decreases s@.len() - e,
    {
        e = e + 1;
    }
    e
}

/// Whether `c` is a digit of class `k`.
pub fn class_has(c: char, k: DigitClass) -> (b: bool)
    ensures
        b == in_class(c, k),
{
    let dec = '0' <= c && c <= '9';
    match k {
        DigitClass::Decimal => dec,
        DigitClass::Hex => dec || ('a' <= c && c <= 'f') || ('A' <= c && c <= 'F'),
        DigitClass::LowerHex => dec || ('a' <= c && c <= 'f'),
    }
}

/// The value of one digit character.
pub open spec fn digit_value(c: char) -> nat {
    if is_dec(c) {
        (c as int - '0' as int) as nat
    } else if 'a' <= c && c <= 'f' {
        (c as int - 'a' as int + 10) as nat
    } else if 'A' <= c && c <= 'F' {
        (c as int - 'A' as int + 10) as nat
    } else {
        0
    }
}

/// The number that the digits `ds` write in base `radix`.
pub open spec fn value_of(ds: Seq<char>, radix: nat) -> nat
    decreases ds.len(),
{
    if ds.len() == 0 {
        0
    } else {
        value_of(ds.drop_last(), radix) * radix + digit_value(ds.last())
    }
}

/// A prefix of a digit string never has a larger value than the whole.
pub proof fn lemma_value_prefix(ds: Seq<char>, radix: nat, n: int)
    requires
        radix >= 1,
        0 <= n <= ds.len(),
    ensures
        value_of(ds.subrange(0, n), radix) <= value_of(ds, radix),
    decreases ds.len() - n,
{
    if n < ds.len() {
        lemma_value_prefix(ds, radix, n + 1);
        let a = ds.subrange(0, n + 1);
        assert(a.drop_last() =~= ds.subrange(0, n));
        let v = value_of(ds.subrange(0, n), radix);
        assert(v * radix >= v) by (nonlinear_arith)
            requires
                radix >= 1,
        ;
    } else {
        assert(ds.subrange(0, n) =~= ds);
    }
}

fn digit_value_exec(c: char) -> (v: u64)
    ensures
        v == digit_value(c),
        v < 16,
{
    if '0' <= c && c <= '9' {
        (c as u64) - ('0' as u64)
    } else if 'a' <= c && c <= 'f' {
        (c as u64) - ('a' as u64) + 10
    } else if 'A' <= c && c <= 'F' {
        (c as u64) - ('A' as u64) + 10
    } else {
        0
    }
}

/// Reads the digits `s[lo..hi]` in the base of `k`, as an unsigned 32-bit
/// number: `None` where the value does not fit.
pub fn parse_u32(s: &Vec<char>, lo: usize, hi: usize, k: DigitClass) -> (r: Option<u32>)
    requires
        lo <= hi <= s@.len(),
    ensures
        match r {
            Some(v) => v as nat == value_of(s@.subrange(lo as int, hi as int), radix_of(k)),
            None => value_of(s@.subrange(lo as int, hi as int), radix_of(k)) > u32::MAX,
        },
{
    let radix: u64 = match k {
        DigitClass::Decimal => 10,
        _ => 16,
    };
    let ghost ds = s@.subrange(lo as int, hi as int);
    let mut acc: u64 = 0;
    let mut i = lo;
    assert(ds.subrange(0, 0) =~= Seq::<char>::empty());
    while i < hi
        invariant
            lo <= i <= hi <= s@.len(),
            ds == s@.subrange(lo as int, hi as int),
            radix == radix_of(k),
            acc <= u32::MAX,
            acc == value_of(ds.subrange(0, i - lo), radix as nat),
        decreases hi - i,
    {
        let d = digit_value_exec(s[i]);
        let ghost pre = ds.subrange(0, i - lo + 1);
        assert(pre.drop_last() =~= ds.subrange(0, i - lo));
        assert(pre.last() == s@[i as int]);
        assert(acc * radix + d <= u32::MAX * 16 + 16) by (nonlinear_arith)
            requires
                acc <= u32::MAX,
                radix <= 16,
                d < 16,
        ;
        let next = acc * radix + d;
        i = i + 1;
        if next > u32::MAX as u64 {
            proof {
                lemma_value_prefix(ds, radix as nat, i - lo);
            }
            return None;
        }
        acc = next;
    }
    assert(ds.subrange(0, hi - lo) =~= ds);
    Some(acc as u32)
}

/// The character for a digit value below 16, in lower case.
pub open spec fn digit_char(d: nat) -> char {
    seq!['0', '1', '2', '3', '4', '5', '6', '7', '8', '9', 'a', 'b', 'c', 'd', 'e', 'f'][d as int]
}

/// `n` written in base `radix` (10, else 16) without leading zeros; zero is `0`.
pub open spec fn digits_of(n: nat, radix: nat) -> Seq<char>
    decreases n,
{
    if radix == 10 {
        if n < 10 {
            seq![digit_char(n)]
        } else {
            digits_of(n / 10, 10) + seq![digit_char(n % 10)]
        }
    } else {
        if n < 16 {
            seq![digit_char(n)]
        } else {
            digits_of(n / 16, radix) + seq![digit_char(n % 16)]
        }
    }
}

/// Lower-case hexadecimal with the `0x` prefix, as `{:#x}` writes it.
pub open spec fn hex_literal(n: nat) -> Seq<char> {
    seq!['0', 'x'] + digits_of(n, 16)
}

fn digit_char_exec(d: u64) -> (c: char)
    requires
        d < 16,
    ensures
        c == digit_char(d as nat),
{
    let table: Vec<char> = vec!['0', '1', '2', '3', '4', '5', '6', '7', '8', '9', 'a', 'b', 'c', 'd', 'e', 'f'];
    assert(table@ =~= seq!['0', '1', '2', '3', '4', '5', '6', '7', '8', '9', 'a', 'b', 'c', 'd', 'e', 'f']);
    table[d as usize]
}

/// Appends the digits of `n` in base `radix` to `out`.
pub fn push_digits(out: &mut Vec<char>, n: u64, radix: u64)
    requires
        radix == 10 || radix == 16,
    ensures
        final(out)@ == old(out)@ + digits_of(n as nat, radix as nat),
    decreases n,
{
    if n < radix {
        out.push(digit_char_exec(n));
    } else {
        push_digits(out, n / radix, radix);
        out.push(digit_char_exec(n % radix));
        assert(final(out)@ =~= old(out)@ + digits_of(n as nat, radix as nat));
    }
}

/// Appends `n` as a `0x`-prefixed lower-case hexadecimal literal.
pub fn push_hex_literal(out: &mut Vec<char>, n: u64)
    ensures
        final(out)@ == old(out)@ + hex_literal(n as nat),
{
    out.push('0');
    out.push('x');
    push_digits(out, n, 16);
    assert(final(out)@ =~= old(out)@ + hex_literal(n as nat));
}

} // verus!
