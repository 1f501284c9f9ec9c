//! Laws of the transpiler, proved over the specifications that its
//! functions meet.
use vstd::prelude::*;
use crate::numeral::{DigitClass, hex_literal, in_class, run_end, value_of};
use crate::rewrite::{Buffer, max_pub_addr, resolve, store_step};
use crate::rules::{Store, close_from, store_addr, store_found, store_new_word, ws_end};
use crate::transpile::{
    is_close_write, is_pub_write, num_pub_inputs, scan_from, HEAD_LINES, TAIL_LINES, body_of, contract_text, lemma_seq_max, seq_max, transpile, word_count,
};

verus! {

/// Transpiling the same listing twice gives the same text, or the same error.
pub proof fn lemma_deterministic(a: Seq<Seq<char>>, b: Seq<Seq<char>>)
    requires
        a == b,
    ensures
        transpile(a) == transpile(b),
{
}

/// Every calldata address lands in exactly one buffer, the public inputs or
/// the proof, never the transcript: the public inputs exactly when there are
/// some and the address is at most the last of them, moved past the length
/// word; the proof otherwise, at an offset from the last public-input
/// address that is positive where there are public inputs.
pub proof fn lemma_calldata_partition(addr: nat, num_pub: nat)
    ensures
        resolve(addr, num_pub).0 == Buffer::PubInputs || resolve(addr, num_pub).0 == Buffer::Proof,
        resolve(addr, num_pub).0 == Buffer::PubInputs <==> num_pub > 0 && addr <= max_pub_addr(
            num_pub,
        ),
        resolve(addr, num_pub).0 == Buffer::PubInputs ==> resolve(addr, num_pub).1 == addr + 32,
        resolve(addr, num_pub).0 == Buffer::Proof ==> resolve(addr, num_pub).1 == addr
            - max_pub_addr(num_pub),
        resolve(addr, num_pub).0 == Buffer::Proof && num_pub > 0 ==> resolve(addr, num_pub).1 > 0,
        num_pub == 0 ==> resolve(addr, num_pub) == (Buffer::Proof, addr),
{
}

/// The transcript buffer reaches each recorded address where the largest one
/// is a multiple of 32; in any case it stops short of the last word by less
/// than one word.
pub proof fn lemma_buffer_sufficiency(offs: Seq<u32>)
    requires
        offs.len() > 0,
        seq_max(offs) % 32 == 0,
    ensures
        word_count(offs) matches Some(w) && (forall|i: int|
            0 <= i < offs.len() ==> #[trigger] offs[i] <= w * 32),
{
    lemma_seq_max(offs);
}

/// Each recorded address lies below the end of the last word of the buffer.
pub proof fn lemma_buffer_covers_words(offs: Seq<u32>)
    requires
        offs.len() > 0,
    ensures
        word_count(offs) matches Some(w) && (forall|i: int|
            0 <= i < offs.len() ==> #[trigger] offs[i] < w * 32 + 32),
{
    lemma_seq_max(offs);
}

/// A store whose address is written in decimal and one whose address is
/// written in hexadecimal, naming the same address, record the same
/// transcript address and put the same text in place of their heads; both
/// fail alike where it does not fit in 32 bits.
pub proof fn lemma_literal_base_offsets(s1: Seq<char>, s2: Seq<char>)
    requires
        store_found(Store::WordDecimal, s1),
        store_found(Store::WordHex, s2),
        store_addr(Store::WordDecimal, s1) == store_addr(Store::WordHex, s2),
    ensures
        store_step(Store::WordDecimal, s1) is Some <==> store_step(Store::WordHex, s2) is Some,
        store_step(Store::WordDecimal, s1) matches Some((_, o1)) ==> store_step(
            Store::WordHex,
            s2,
        ) matches Some((_, o2)) && o1 == o2 && o1 == seq![
            store_addr(Store::WordDecimal, s1) as u32,
        ],
        store_new_word(Store::WordDecimal) + hex_literal(store_addr(Store::WordDecimal, s1))
            == store_new_word(Store::WordHex) + hex_literal(store_addr(Store::WordHex, s2)),
{
}

/// Whether a `)` comes before any line feed does not depend on what stands
/// before.
proof fn lemma_close_from_shift(pre: Seq<char>, rest: Seq<char>, t: int)
    requires
        0 <= t,
    ensures
        close_from(pre + rest, pre.len() + t) == close_from(rest, t),
    decreases rest.len() - t,
{
    let x = pre + rest;
    if t < rest.len() {
        assert(x[pre.len() + t] == rest[t]);
        lemma_close_from_shift(pre, rest, t + 1);
        assert(pre.len() + t + 1 == pre.len() + (t + 1));
    }
}

/// The digits `ds`, all of class `k`, followed by a character outside it,
/// form the run at `i`.
proof fn lemma_run_exact(s: Seq<char>, i: int, n: int, k: DigitClass)
    requires
        0 <= i,
        0 <= n,
        i + n < s.len(),
        forall|j: int| i <= j < i + n ==> in_class(#[trigger] s[j], k),
        !in_class(s[i + n], k),
    ensures
        run_end(s, i, k) == i + n,
    decreases n,
{
    if n > 0 {
        assert(in_class(s[i], k));
        lemma_run_exact(s, i + 1, n - 1, k);
    }
}

/// A store written with a decimal address and one written with the same
/// address in hexadecimal, with the same remainder, become the same line and
/// record the same address.
pub proof fn lemma_literal_base(dec: Seq<char>, hex: Seq<char>, rest: Seq<char>)
    requires
        dec.len() > 0,
        hex.len() > 0,
        forall|j: int| 0 <= j < dec.len() ==> in_class(#[trigger] dec[j], DigitClass::Decimal),
        forall|j: int| 0 <= j < hex.len() ==> in_class(#[trigger] hex[j], DigitClass::Hex),
        value_of(dec, 10) == value_of(hex, 16),
        value_of(dec, 10) <= u32::MAX,
        rest.len() >= 2,
        rest[0] == ',',
        rest[1] != '\n',
        close_from(rest, 2),
    ensures
        store_step(Store::WordDecimal, "mstore("@ + dec + rest) == store_step(
            Store::WordHex,
            "mstore(0x"@ + hex + rest,
        ),
        store_step(Store::WordDecimal, "mstore("@ + dec + rest) == Some(
            (
                "mstore(add(transcript, "@ + hex_literal(value_of(dec, 10)) + ")"@ + rest,
                seq![value_of(dec, 10) as u32],
            ),
        ),
{
    reveal_strlit("mstore(");
    reveal_strlit("mstore(0x");
    let v = value_of(dec, 10);
    let s1 = "mstore("@ + dec + rest;
    let s2 = "mstore(0x"@ + hex + rest;
    assert(ws_end(s1, 0) == 0);
    assert(ws_end(s2, 0) == 0);
    assert(s1.subrange(0, 7) =~= "mstore("@);
    assert(s2.subrange(0, 9) =~= "mstore(0x"@);
    lemma_run_exact(s1, 7, dec.len() as int, DigitClass::Decimal);
    lemma_run_exact(s2, 9, hex.len() as int, DigitClass::Hex);
    let e1: int = 7 + dec.len() as int;
    let e2: int = 9 + hex.len() as int;
    assert(s1.subrange(7, e1) =~= dec);
    assert(s2.subrange(9, e2) =~= hex);
    assert(s1[e1] == ',' && s1[e1 + 1] == rest[1]);
    assert(s2[e2] == ',' && s2[e2 + 1] == rest[1]);
    lemma_close_from_shift("mstore("@ + dec, rest, 2);
    lemma_close_from_shift("mstore(0x"@ + hex, rest, 2);
    assert(s1 =~= ("mstore("@ + dec) + rest);
    assert(s2 =~= ("mstore(0x"@ + hex) + rest);
    assert(store_addr(Store::WordDecimal, s1) == v);
    assert(store_addr(Store::WordHex, s2) == v);
    let r = store_new_word(Store::WordDecimal) + hex_literal(v) + ")"@;
    assert(s1.subrange(0, 0) + r + s1.subrange(e1, s1.len() as int) =~= r + rest);
    assert(s2.subrange(0, 0) + r + s2.subrange(e2, s2.len() as int) =~= r + rest);
    assert(store_new_word(Store::WordHex) == store_new_word(Store::WordDecimal));
    assert(r + rest =~= "mstore(add(transcript, "@ + hex_literal(v) + ")"@ + rest);
}

/// The wrapper lines dropped around the body are the same number for every
/// listing long enough to hold them, and what they hold does not reach the
/// contract: listings of one length that agree on the body give one
/// contract.
pub proof fn lemma_trim_fixed(a: Seq<Seq<char>>, b: Seq<Seq<char>>, words: nat)
    requires
        a.len() == b.len(),
        a.len() >= HEAD_LINES + TAIL_LINES,
        body_of(a) == body_of(b),
    ensures
        a.len() - body_of(a).len() == HEAD_LINES + TAIL_LINES,
        contract_text(a, words) == contract_text(b, words),
{
}

proof fn lemma_scan_without_markers(ls: Seq<Seq<char>>, i: int)
    requires
        0 <= i,
        forall|j: int| 0 <= j < ls.len() ==> !is_pub_write(#[trigger] ls[j]) && !is_close_write(
            ls[j],
        ),
    ensures
        scan_from(ls, i, None) == (None::<int>, None::<int>),
    decreases ls.len() - i,
{
    if i < ls.len() {
        assert(!is_pub_write(ls[i]) && !is_close_write(ls[i]));
        lemma_scan_without_markers(ls, i + 1);
    }
}

/// A listing with no public-input write and no closing write has no public
/// inputs, so every calldata address it reads lands in the proof buffer at
/// that same address.
pub proof fn lemma_no_markers(ls: Seq<Seq<char>>, addr: nat)
    requires
        forall|j: int| 0 <= j < ls.len() ==> !is_pub_write(#[trigger] ls[j]) && !is_close_write(
            ls[j],
        ),
    ensures
        num_pub_inputs(ls) == 0,
        resolve(addr, num_pub_inputs(ls)) == (Buffer::Proof, addr),
{
    lemma_scan_without_markers(ls, 0);
}

} // verus!
