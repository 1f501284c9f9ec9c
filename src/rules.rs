//! The rewrite rules of the transpiler. Each rule recognises one textual
//! shape of a memory or calldata access in a line of assembly and moves the
//! address it names into one of the contract's named buffers.
use vstd::prelude::*;
use crate::numeral::{DigitClass, radix_of, run_end, value_of};
use crate::text::occurs_at;

verus! {

/// A character of the Unicode `White_Space` property, which both `\s` and
/// `str::trim` go by.
pub open spec fn is_ws(c: char) -> bool {
    ('\t' <= c && c <= '\r') || c == ' ' || c == '\u{85}' || c == '\u{a0}' || c == '\u{1680}'
        || ('\u{2000}' <= c && c <= '\u{200a}') || c == '\u{2028}' || c == '\u{2029}' || c
        == '\u{202f}' || c == '\u{205f}' || c == '\u{3000}'
}

fn is_ws_exec(c: char) -> (b: bool)
    ensures
        b == is_ws(c),
{
    ('\t' <= c && c <= '\r') || c == ' ' || c == '\u{85}' || c == '\u{a0}' || c == '\u{1680}'
        || ('\u{2000}' <= c && c <= '\u{200a}') || c == '\u{2028}' || c == '\u{2029}' || c
        == '\u{202f}' || c == '\u{205f}' || c == '\u{3000}'
}

/// The end of the whitespace run of `s` that starts at `i`.
pub open spec fn ws_end(s: Seq<char>, i: int) -> int
    decreases s.len() - i,
{
    if 0 <= i < s.len() && is_ws(s[i]) {
        ws_end(s, i + 1)
    } else {
        i
    }
}

pub proof fn lemma_ws_end(s: Seq<char>, i: int)
    requires
        0 <= i <= s.len(),
    ensures
        i <= ws_end(s, i) <= s.len(),
    decreases s.len() - i,
{
    if i < s.len() && is_ws(s[i]) {
        lemma_ws_end(s, i + 1);
    }
}

/// The position of the first character of `s` that is not whitespace.
pub fn ws_end_exec(s: &Vec<char>) -> (e: usize)
    ensures
        e as int == ws_end(s@, 0),
{
    let mut e: usize = 0;
    while e < s.len() && is_ws_exec(s[e])
        invariant
            e <= s@.len(),
            ws_end(s@, 0) == ws_end(s@, e as int),
        decreases s@.len() - e,
    {
        e = e + 1;
    }
    e
}

/// After leading whitespace, the line reads `w`.
pub open spec fn begins_with(s: Seq<char>, w: Seq<char>) -> bool {
    occurs_at(s, w, ws_end(s, 0))
}

/// From `t` on, a `)` comes before any line feed.
pub open spec fn close_from(s: Seq<char>, t: int) -> bool
    decreases s.len() - t,
{
    if t < 0 || t >= s.len() {
        false
    } else if s[t] == ')' {
        true
    } else if s[t] == '\n' {
        false
    } else {
        close_from(s, t + 1)
    }
}

pub fn close_from_exec(s: &Vec<char>, t: usize) -> (b: bool)
    ensures
        b == close_from(s@, t as int),
{
    let mut i = t;
    while i < s.len()
        invariant
            t <= i,
            close_from(s@, t as int) == close_from(s@, i as int),
        decreases s@.len() - i,
    {
        if s[i] == ')' {
            return true;
        }
        if s[i] == '\n' {
            return false;
        }
        i = i + 1;
    }
    false
}

/// At `k` one character other than a line feed, then `)` further on the same
/// line: the tail `.+\)` of a store.
pub open spec fn closes_after(s: Seq<char>, k: int) -> bool {
    0 <= k < s.len() && s[k] != '\n' && close_from(s, k + 1)
}

/// A write to memory at the head of a line.
#[derive(Clone, Copy, PartialEq, Eq, Structural)]
pub enum Store {
    /// `mstore8(N, ..)` with a decimal `N`.
    Byte,
    /// `mstore(N, ..)` with a decimal `N`.
    WordDecimal,
    /// `mstore(0xN, ..)`.
    WordHex,
}

/// A call of a precompiled contract through `staticcall`.
#[derive(Clone, Copy, PartialEq, Eq, Structural)]
pub enum Precompile {
    Modexp,
    EcMul,
    EcAdd,
    EcPairing,
}

/// One rule of the rewrite pass, after the type marks and calldata.
#[derive(Clone, Copy, PartialEq, Eq, Structural)]
pub enum Rule {
    Store(Store),
    Call(Precompile),
    Keccak,
    Loads,
}

/// The order in which the rules are tried on each line.
pub open spec fn rule_order() -> Seq<Rule> {
    seq![
        Rule::Store(Store::Byte),
        Rule::Store(Store::WordDecimal),
        Rule::Call(Precompile::Modexp),
        Rule::Call(Precompile::EcMul),
        Rule::Call(Precompile::EcAdd),
        Rule::Call(Precompile::EcPairing),
        Rule::Store(Store::WordHex),
        Rule::Keccak,
        Rule::Loads,
    ]
}

pub open spec fn store_word(st: Store) -> Seq<char> {
    match st {
        Store::Byte => "mstore8("@,
        Store::WordDecimal => "mstore("@,
        Store::WordHex => "mstore(0x"@,
    }
}

pub open spec fn store_class(st: Store) -> DigitClass {
    match st {
        Store::WordHex => DigitClass::Hex,
        _ => DigitClass::Decimal,
    }
}

pub fn store_class_exec(st: Store) -> (k: DigitClass)
    ensures
        k == store_class(st),
{
    match st {
        Store::WordHex => DigitClass::Hex,
        _ => DigitClass::Decimal,
    }
}

pub open spec fn store_new_word(st: Store) -> Seq<char> {
    match st {
        Store::Byte => "mstore8(add(transcript, "@,
        _ => "mstore(add(transcript, "@,
    }
}

pub fn store_texts(st: Store) -> (r: (&'static str, &'static str))
    ensures
        r.0@ == store_word(st),
        r.1@ == store_new_word(st),
{
    match st {
        Store::Byte => ("mstore8(", "mstore8(add(transcript, "),
        Store::WordDecimal => ("mstore(", "mstore(add(transcript, "),
        Store::WordHex => ("mstore(0x", "mstore(add(transcript, "),
    }
}

/// Where the digits of a store at the head of `s` start.
pub open spec fn store_digits_start(st: Store, s: Seq<char>) -> int {
    ws_end(s, 0) + store_word(st).len()
}

/// Where the digits of a store at the head of `s` end.
pub open spec fn store_digits_end(st: Store, s: Seq<char>) -> int {
    run_end(s, store_digits_start(st, s), store_class(st))
}

/// The line begins with a store of shape `st`: the word, at least one digit,
/// a comma, and the rest of the call.
pub open spec fn store_found(st: Store, s: Seq<char>) -> bool {
    let d0 = store_digits_start(st, s);
    let d1 = store_digits_end(st, s);
    begins_with(s, store_word(st)) && d0 < d1 && d1 < s.len() && s[d1] == ','
        && closes_after(s, d1 + 1)
}

/// The address a store at the head of `s` names.
pub open spec fn store_addr(st: Store, s: Seq<char>) -> nat {
    value_of(
        s.subrange(store_digits_start(st, s), store_digits_end(st, s)),
        radix_of(store_class(st)),
    )
}

pub open spec fn addr_ok(v: nat) -> bool {
    v <= u32::MAX
}

pub open spec fn prec_head(c: Precompile) -> Seq<char> {
    match c {
        Precompile::Modexp => "staticcall(gas(), 0x5, 0x"@,
        Precompile::EcMul => "staticcall(gas(), 0x7, 0x"@,
        Precompile::EcAdd => "staticcall(gas(), 0x6, 0x"@,
        Precompile::EcPairing => "staticcall(gas(), 0x8, 0x"@,
    }
}

pub open spec fn prec_mid(c: Precompile) -> Seq<char> {
    match c {
        Precompile::Modexp => ", 0xc0, 0x"@,
        Precompile::EcMul => ", 0x60, 0x"@,
        Precompile::EcAdd => ", 0x80, 0x"@,
        Precompile::EcPairing => ", 0x180, 0x"@,
    }
}

pub open spec fn prec_tail(c: Precompile) -> Seq<char> {
    match c {
        Precompile::Modexp => ", 0x20"@,
        Precompile::EcMul => ", 0x40"@,
        Precompile::EcAdd => ", 0x40"@,
        Precompile::EcPairing => ", 0x20"@,
    }
}

pub open spec fn prec_new_head(c: Precompile) -> Seq<char> {
    match c {
        Precompile::Modexp => "staticcall(gas(), 0x5, add(transcript, "@,
        Precompile::EcMul => "staticcall(gas(), 0x7, add(transcript, "@,
        Precompile::EcAdd => "staticcall(gas(), 0x6, add(transcript, "@,
        Precompile::EcPairing => "staticcall(gas(), 0x8, add(transcript, "@,
    }
}

pub open spec fn prec_new_mid(c: Precompile) -> Seq<char> {
    match c {
        Precompile::Modexp => "), 0xc0, add(transcript, "@,
        Precompile::EcMul => "), 0x60, add(transcript, "@,
        Precompile::EcAdd => "), 0x80, add(transcript, "@,
        Precompile::EcPairing => "), 0x180, add(transcript, "@,
    }
}

pub open spec fn prec_new_tail(c: Precompile) -> Seq<char> {
    match c {
        Precompile::Modexp => "), 0x20"@,
        Precompile::EcMul => "), 0x40"@,
        Precompile::EcAdd => "), 0x40"@,
        Precompile::EcPairing => "), 0x20"@,
    }
}

pub struct CallTexts {
    pub head: &'static str,
    pub mid: &'static str,
    pub tail: &'static str,
    pub new_head: &'static str,
    pub new_mid: &'static str,
    pub new_tail: &'static str,
}

pub fn call_texts(c: Precompile) -> (r: CallTexts)
    ensures
        r.head@ == prec_head(c),
        r.mid@ == prec_mid(c),
        r.tail@ == prec_tail(c),
        r.new_head@ == prec_new_head(c),
        r.new_mid@ == prec_new_mid(c),
        r.new_tail@ == prec_new_tail(c),
{
    match c {
        Precompile::Modexp => CallTexts {
            head: "staticcall(gas(), 0x5, 0x",
            mid: ", 0xc0, 0x",
            tail: ", 0x20",
            new_head: "staticcall(gas(), 0x5, add(transcript, ",
            new_mid: "), 0xc0, add(transcript, ",
            new_tail: "), 0x20",
        },
        Precompile::EcMul => CallTexts {
            head: "staticcall(gas(), 0x7, 0x",
            mid: ", 0x60, 0x",
            tail: ", 0x40",
            new_head: "staticcall(gas(), 0x7, add(transcript, ",
            new_mid: "), 0x60, add(transcript, ",
            new_tail: "), 0x40",
        },
        Precompile::EcAdd => CallTexts {
            head: "staticcall(gas(), 0x6, 0x",
            mid: ", 0x80, 0x",
            tail: ", 0x40",
            new_head: "staticcall(gas(), 0x6, add(transcript, ",
            new_mid: "), 0x80, add(transcript, ",
            new_tail: "), 0x40",
        },
        Precompile::EcPairing => CallTexts {
            head: "staticcall(gas(), 0x8, 0x",
            mid: ", 0x180, 0x",
            tail: ", 0x20",
            new_head: "staticcall(gas(), 0x8, add(transcript, ",
            new_mid: "), 0x180, add(transcript, ",
            new_tail: "), 0x20",
        },
    }
}

} // verus!
