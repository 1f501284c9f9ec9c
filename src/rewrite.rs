//! The rewrite of one line: the steps of each rule and their composition.
use vstd::prelude::*;
use crate::numeral::{
    DigitClass, digit_char, digits_of, hex_literal, lemma_run_end, parse_u32, push_hex_literal,
    run_end, run_end_exec, value_of,
};
use crate::rules::{
    Precompile, Rule, Store, addr_ok, closes_after, prec_head, prec_mid, prec_new_head,
    prec_new_mid, prec_new_tail, prec_tail, rule_order, store_addr, store_digits_end,
    store_digits_start, store_found, store_new_word, ws_end,
};
use crate::text::{
    chars_of, occurs_at, occurs_at_exec, push_all, push_range, push_str, replace_all, splice,
    splice_exec,
};

verus! {

/// A shape searched for anywhere in a line.
#[derive(Clone, Copy, PartialEq, Eq, Structural)]
pub enum Finder {
    /// `calldataload(0xN)`, lower-case digits.
    Calldata,
    /// `staticcall(gas(), P, 0xI, LEN, 0xO, OUTLEN`.
    Call(Precompile),
    /// `keccak256(0xN`.
    Keccak,
    /// `mload(0xN` followed by `)`.
    Load,
}

pub open spec fn finder_head(f: Finder) -> Seq<char> {
    match f {
        Finder::Calldata => "calldataload(0x"@,
        Finder::Call(c) => prec_head(c),
        Finder::Keccak => "keccak256(0x"@,
        Finder::Load => "mload(0x"@,
    }
}

pub open spec fn finder_class(f: Finder) -> DigitClass {
    match f {
        Finder::Calldata => DigitClass::LowerHex,
        _ => DigitClass::Hex,
    }
}

/// Start of the (first) address digits of a match at `p`.
pub open spec fn addr_start(f: Finder, p: int) -> int {
    p + finder_head(f).len()
}

/// End of the (first) address digits of a match at `p`.
pub open spec fn addr_end(f: Finder, s: Seq<char>, p: int) -> int {
    run_end(s, addr_start(f, p), finder_class(f))
}

/// Start of the result address digits of a call matched at `p`.
pub open spec fn out_start(c: Precompile, s: Seq<char>, p: int) -> int {
    addr_end(Finder::Call(c), s, p) + prec_mid(c).len()
}

/// End of the result address digits of a call matched at `p`.
pub open spec fn out_end(c: Precompile, s: Seq<char>, p: int) -> int {
    run_end(s, out_start(c, s, p), DigitClass::Hex)
}

/// The shape `f` stands in `s` at `p`.
pub open spec fn found_at(f: Finder, s: Seq<char>, p: int) -> bool {
    let a0 = addr_start(f, p);
    let a1 = addr_end(f, s, p);
    &&& occurs_at(s, finder_head(f), p)
    &&& a0 < a1
    &&& match f {
        Finder::Calldata => a1 < s.len() && s[a1] == ')',
        Finder::Load => a1 < s.len() && s[a1] == ')',
        Finder::Keccak => true,
        Finder::Call(c) => occurs_at(s, prec_mid(c), a1) && out_start(c, s, p) < out_end(c, s, p)
            && occurs_at(s, prec_tail(c), out_end(c, s, p)),
    }
}

/// The end of the text that a match at `p` rewrites.
pub open spec fn group_end(f: Finder, s: Seq<char>, p: int) -> int {
    match f {
        Finder::Calldata => addr_end(f, s, p) + 1,
        Finder::Call(c) => out_end(c, s, p) + prec_tail(c).len(),
        _ => addr_end(f, s, p),
    }
}

/// The leftmost match at or after `i`.
pub open spec fn first_from(f: Finder, s: Seq<char>, i: int) -> Option<int>
    decreases s.len() + 1 - i,
{
    if i < 0 || i > s.len() {
        None
    } else if found_at(f, s, i) {
        Some(i)
    } else {
        first_from(f, s, i + 1)
    }
}

fn finder_head_exec(f: Finder) -> (r: &'static str)
    ensures
        r@ == finder_head(f),
{
    match f {
        Finder::Calldata => "calldataload(0x",
        Finder::Call(Precompile::Modexp) => "staticcall(gas(), 0x5, 0x",
        Finder::Call(Precompile::EcMul) => "staticcall(gas(), 0x7, 0x",
        Finder::Call(Precompile::EcAdd) => "staticcall(gas(), 0x6, 0x",
        Finder::Call(Precompile::EcPairing) => "staticcall(gas(), 0x8, 0x",
        Finder::Keccak => "keccak256(0x",
        Finder::Load => "mload(0x",
    }
}

fn prec_mid_exec(c: Precompile) -> (r: &'static str)
    ensures
        r@ == prec_mid(c),
{
    match c {
        Precompile::Modexp => ", 0xc0, 0x",
        Precompile::EcMul => ", 0x60, 0x",
        Precompile::EcAdd => ", 0x80, 0x",
        Precompile::EcPairing => ", 0x180, 0x",
    }
}

fn prec_tail_exec(c: Precompile) -> (r: &'static str)
    ensures
        r@ == prec_tail(c),
{
    match c {
        Precompile::Modexp => ", 0x20",
        Precompile::EcMul => ", 0x40",
        Precompile::EcAdd => ", 0x40",
        Precompile::EcPairing => ", 0x20",
    }
}

fn class_exec(f: Finder) -> (k: DigitClass)
    ensures
        k == finder_class(f),
{
    match f {
        Finder::Calldata => DigitClass::LowerHex,
        _ => DigitClass::Hex,
    }
}

/// Where the match at `p` stands: the address digits, the result digits of a
/// call (else zero), and the end of the rewritten text.
pub struct Found {
    pub a0: usize,
    pub a1: usize,
    pub b0: usize,
    pub b1: usize,
    pub end: usize,
}

/// The positions `m` are those of a match of `f` at `p` in `s`.
pub open spec fn found_fits(f: Finder, s: Seq<char>, p: int, m: Found) -> bool {
    &&& m.a0 == addr_start(f, p)
    &&& m.a1 == addr_end(f, s, p)
    &&& m.end == group_end(f, s, p)
    &&& m.end <= s.len()
    &&& p <= m.a0 < m.a1 <= m.end
    &&& match f {
        Finder::Call(c) => m.b0 == out_start(c, s, p) && m.b1 == out_end(c, s, p) && m.a1 <= m.b0
            < m.b1 <= m.end,
        _ => true,
    }
}

/// Tests for the shape `f` at `p`, and gives its positions where it stands.
fn found_at_exec(f: Finder, s: &Vec<char>, p: usize) -> (r: Option<Found>)
    requires
        p <= s@.len(),
    ensures
        r is Some <==> found_at(f, s@, p as int),
        r matches Some(m) ==> found_fits(f, s@, p as int, m),
{
    let n = s.len();
    let head = chars_of(finder_head_exec(f));
    if !occurs_at_exec(s, &head, p) {
        return None;
    }
    let a0 = p + head.len();
    let k = class_exec(f);
    let a1 = run_end_exec(s, a0, k);
    proof {
        lemma_run_end(s@, a0 as int, k);
    }
    if a1 == a0 {
        return None;
    }
    match f {
        Finder::Call(c) => {
            let mid = chars_of(prec_mid_exec(c));
            if !occurs_at_exec(s, &mid, a1) {
                return None;
            }
            let b0 = a1 + mid.len();
            let b1 = run_end_exec(s, b0, DigitClass::Hex);
            proof {
                lemma_run_end(s@, b0 as int, DigitClass::Hex);
            }
            if b1 == b0 {
                return None;
            }
            let tail = chars_of(prec_tail_exec(c));
            if !occurs_at_exec(s, &tail, b1) {
                return None;
            }
            Some(Found { a0, a1, b0, b1, end: b1 + tail.len() })
        },
        Finder::Keccak => Some(Found { a0, a1, b0: 0, b1: 0, end: a1 }),
        Finder::Calldata => {
            if a1 < s.len() && s[a1] == ')' {
                Some(Found { a0, a1, b0: 0, b1: 0, end: a1 + 1 })
            } else {
                None
            }
        },
        Finder::Load => {
            if a1 < s.len() && s[a1] == ')' {
                Some(Found { a0, a1, b0: 0, b1: 0, end: a1 })
            } else {
                None
            }
        },
    }
}

/// The leftmost match of `f` in `s`.
fn first_exec(f: Finder, s: &Vec<char>) -> (r: Option<(usize, Found)>)
    ensures
        match r {
            None => first_from(f, s@, 0) is None,
            Some((p, m)) => first_from(f, s@, 0) == Some(p as int) && found_at(f, s@, p as int)
                && found_fits(f, s@, p as int, m),
        },
{
    let mut p: usize = 0;
    while p < s.len()
        invariant
            p <= s@.len(),
            first_from(f, s@, 0) == first_from(f, s@, p as int),
        decreases s@.len() - p,
    {
        match found_at_exec(f, s, p) {
            Some(m) => {
                return Some((p, m));
            },
            None => {},
        }
        p = p + 1;
    }
    let _ = found_at_exec(f, s, p);
    assert(first_from(f, s@, p + 1) is None);
    None
}

/// The buffers of the generated contract.
#[derive(Clone, Copy, PartialEq, Eq, Structural, Debug)]
pub enum Buffer {
    PubInputs,
    Proof,
    Transcript,
}

/// The last calldata address of `n` public inputs.
pub open spec fn max_pub_addr(n: nat) -> nat {
    if n > 0 {
        (n * 32 - 32) as nat
    } else {
        0
    }
}

/// The last calldata address of `n` public inputs: `n * 32 - 32`, zero for
/// none.
pub fn max_pub_inputs_addr(n: u64) -> (r: u64)
    requires
        n <= u32::MAX,
    ensures
        r as nat == max_pub_addr(n as nat),
{
    if n > 0 {
        n * 32 - 32
    } else {
        0
    }
}

/// Where a calldata address lands, given the number of public inputs: the
/// public inputs up to the last public-input address, moved past their
/// length word; else the proof, counted from that last address. Without
/// public inputs every address lands in the proof.
pub open spec fn resolve(addr: nat, num_pub: nat) -> (Buffer, nat) {
    let m = max_pub_addr(num_pub);
    if num_pub > 0 && addr <= m {
        (Buffer::PubInputs, addr + 32)
    } else {
        (Buffer::Proof, (addr - m) as nat)
    }
}

/// Resolves a calldata address against the public inputs.
pub fn resolve_calldata(addr: u32, num_pub: u32) -> (r: (Buffer, u64))
    ensures
        r.0 == resolve(addr as nat, num_pub as nat).0,
        r.1 as nat == resolve(addr as nat, num_pub as nat).1,
{
    let m = max_pub_inputs_addr(num_pub as u64);
    if num_pub > 0 && addr as u64 <= m {
        (Buffer::PubInputs, addr as u64 + 32)
    } else {
        (Buffer::Proof, addr as u64 - m)
    }
}

/// The read that replaces `calldataload(0xN)`.
pub open spec fn calldata_new(addr: nat, num_pub: nat) -> Seq<char> {
    let (b, off) = resolve(addr, num_pub);
    (if b == Buffer::PubInputs {
        "mload(add(pubInputs, "@
    } else {
        "mload(add(proof, "@
    }) + hex_literal(off) + "))"@
}

/// No line feed in `s`.
pub open spec fn single_line(s: Seq<char>) -> bool {
    forall|i: int| 0 <= i < s.len() ==> s[i] != '\n'
}

/// The calldata rule: on a line without line feeds, every
/// `calldataload(0xN)` becomes a read of the public inputs or the proof.
/// `None`: an address does not fit in 32 bits.
pub open spec fn calldata_step(s: Seq<char>, num_pub: nat) -> Option<Seq<char>> {
    if !single_line(s) {
        Some(s)
    } else {
        match sweep(Finder::Calldata, s, num_pub) {
            None => None,
            Some((t, _)) => Some(t),
        }
    }
}

fn single_line_exec(s: &Vec<char>) -> (b: bool)
    ensures
        b == single_line(s@),
{
    let mut i: usize = 0;
    while i < s.len()
        invariant
            i <= s@.len(),
            forall|j: int| 0 <= j < i ==> s@[j] != '\n',
        decreases s@.len() - i,
    {
        if s[i] == '\n' {
            return false;
        }
        i = i + 1;
    }
    true
}

fn calldata_step_exec(s: &Vec<char>, num_pub: u32) -> (r: Option<Vec<char>>)
    ensures
        match calldata_step(s@, num_pub as nat) {
            None => r is None,
            Some(t) => r matches Some(u) && u@ == t,
        },
{
    if !single_line_exec(s) {
        return Some(s.clone());
    }
    let mut scratch: Vec<u32> = Vec::new();
    sweep_exec(Finder::Calldata, s, num_pub, &mut scratch)
}

/// What one rule makes of a line: the new line and the addresses it moved
/// into the transcript, in order; `None` where an address does not fit in
/// 32 bits.
pub type Outcome = Option<(Seq<char>, Seq<u32>)>;

/// A line that no rule touched.
pub open spec fn untouched(s: Seq<char>) -> Outcome {
    Some((s, Seq::<u32>::empty()))
}

/// The store rule `st`: the address of the store at the head of the line
/// moves into the transcript; the rest of the line is kept.
pub open spec fn store_step(st: Store, s: Seq<char>) -> Outcome {
    if !store_found(st, s) {
        untouched(s)
    } else {
        let v = store_addr(st, s);
        if !addr_ok(v) {
            None
        } else {
            Some(
                (
                    splice(
                        s,
                        ws_end(s, 0),
                        store_digits_end(st, s),
                        store_new_word(st) + hex_literal(v) + ")"@,
                    ),
                    seq![v as u32],
                ),
            )
        }
    }
}

/// The text that replaces a call of `c` whose addresses are `v` and `w`.
pub open spec fn call_new(c: Precompile, v: nat, w: nat) -> Seq<char> {
    prec_new_head(c) + hex_literal(v) + prec_new_mid(c) + hex_literal(w) + prec_new_tail(c)
}

/// The call rule `c`: every such call takes both addresses from the
/// transcript; the rest of the line is kept.
pub open spec fn call_step(c: Precompile, s: Seq<char>) -> Outcome {
    sweep(Finder::Call(c), s, 0)
}

/// The text that replaces a hash or load of address `v`.
pub open spec fn single_new(f: Finder, v: nat) -> Seq<char> {
    (if f == Finder::Keccak {
        "keccak256(add(transcript, "@
    } else {
        "mload(add(transcript, "@
    }) + hex_literal(v) + ")"@
}

/// One round of the load rule (`f` is `Load`): the leftmost match moves
/// into the transcript; the rest of the line is kept.
pub open spec fn single_step(f: Finder, s: Seq<char>) -> Outcome {
    match first_from(f, s, 0) {
        None => untouched(s),
        Some(p) => {
            let v = value_of(s.subrange(addr_start(f, p), addr_end(f, s, p)), 16);
            if !addr_ok(v) {
                None
            } else {
                Some(
                    (
                        splice(s, p, group_end(f, s, p), single_new(f, v)),
                        seq![v as u32],
                    ),
                )
            }
        },
    }
}

/// The addresses of `o` after those of `first`, the line that of `o`.
pub open spec fn after(first: Seq<u32>, o: Outcome) -> Outcome {
    match o {
        None => None,
        Some((t, rest)) => Some((t, first + rest)),
    }
}

/// The line `pre + t` and the addresses `rec + rest`, where `o` gives `t`
/// and `rest`.
pub open spec fn prefix_with(pre: Seq<char>, rec: Seq<u32>, o: Outcome) -> Outcome {
    match o {
        None => None,
        Some((t, rest)) => Some((pre + t, rec + rest)),
    }
}

/// The text that replaces the match of `f` at `p`, and the transcript
/// addresses it records; `None` where an address does not fit in 32 bits.
pub open spec fn match_new(f: Finder, s: Seq<char>, p: int, num_pub: nat) -> Outcome {
    let v = value_of(s.subrange(addr_start(f, p), addr_end(f, s, p)), 16);
    match f {
        Finder::Call(c) => {
            let w = value_of(s.subrange(out_start(c, s, p), out_end(c, s, p)), 16);
            if !addr_ok(v) || !addr_ok(w) {
                None
            } else {
                Some((call_new(c, v, w), seq![v as u32, w as u32]))
            }
        },
        Finder::Calldata => if !addr_ok(v) {
            None
        } else {
            Some((calldata_new(v, num_pub), Seq::<u32>::empty()))
        },
        _ => if !addr_ok(v) {
            None
        } else {
            Some((single_new(f, v), seq![v as u32]))
        },
    }
}

/// Every match of `f` in `s`, from left to right, replaced by its new text;
/// the text between and after the matches is kept.
pub open spec fn sweep(f: Finder, s: Seq<char>, num_pub: nat) -> Outcome
    decreases s.len(),
{
    match first_from(f, s, 0) {
        None => untouched(s),
        Some(p) => if 0 <= p < group_end(f, s, p) <= s.len() {
            match match_new(f, s, p, num_pub) {
                None => None,
                Some((new, rec)) => prefix_with(
                    s.subrange(0, p) + new,
                    rec,
                    sweep(f, s.subrange(group_end(f, s, p), s.len() as int), num_pub),
                ),
            }
        } else {
            untouched(s)
        },
    }
}

/// The number of `mload(0x` in `s`.
pub open spec fn load_count(s: Seq<char>) -> nat
    decreases s.len(),
{
    if s.len() == 0 {
        0
    } else {
        (if occurs_at(s, "mload(0x"@, 0) {
            1nat
        } else {
            0
        }) + load_count(s.subrange(1, s.len() as int))
    }
}

/// Up to `fuel` rounds of the load rule, until no load by address is left.
pub open spec fn loads_iter(s: Seq<char>, fuel: nat) -> Outcome
    decreases fuel,
{
    if fuel == 0 || first_from(Finder::Load, s, 0) is None {
        untouched(s)
    } else {
        match single_step(Finder::Load, s) {
            None => None,
            Some((t, o)) => after(o, loads_iter(t, (fuel - 1) as nat)),
        }
    }
}

/// The load rule: round after round, until no load by address is left.
pub open spec fn loads_step(s: Seq<char>) -> Outcome {
    loads_iter(s, load_count(s))
}

pub open spec fn rule_step(r: Rule, s: Seq<char>) -> Outcome {
    match r {
        Rule::Store(st) => store_step(st, s),
        Rule::Call(c) => call_step(c, s),
        Rule::Keccak => sweep(Finder::Keccak, s, 0),
        Rule::Loads => loads_step(s),
    }
}

/// The rules `rs` applied in turn, each to what the one before left.
pub open spec fn run_rules(s: Seq<char>, rs: Seq<Rule>) -> Outcome
    decreases rs.len(),
{
    if rs.len() == 0 {
        untouched(s)
    } else {
        match rule_step(rs[0], s) {
            None => None,
            Some((t, o)) => after(o, run_rules(t, rs.subrange(1, rs.len() as int))),
        }
    }
}

/// What the rewrite pass makes of one line, given the number of public
/// inputs: the `:bool` marks dropped, the calldata rule, then
/// the rules of `rule_order` in turn.
pub open spec fn rewrite_line_spec(s: Seq<char>, num_pub: nat) -> Outcome {
    let s1 = replace_all(s, ":bool"@, Seq::<char>::empty());
    match calldata_step(s1, num_pub) {
        None => None,
        Some(s2) => run_rules(s2, rule_order()),
    }
}

/// `r` and the growth of `offs` are what `o` gives.
pub open spec fn yields(r: Option<Vec<char>>, o: Outcome, old_offs: Seq<u32>, new_offs: Seq<u32>) -> bool {
    match o {
        None => r is None,
        Some((t, added)) => r matches Some(u) && u@ == t && new_offs == old_offs + added,
    }
}

fn store_step_exec(st: Store, s: &Vec<char>, offs: &mut Vec<u32>) -> (r: Option<Vec<char>>)
    ensures
        yields(r, store_step(st, s@), old(offs)@, final(offs)@),
{
    let n = s.len();
    let (word, new_word) = crate::rules::store_texts(st);
    let word = chars_of(word);
    let a = crate::rules::ws_end_exec(s);
    proof {
        crate::rules::lemma_ws_end(s@, 0);
    }
    if !occurs_at_exec(s, &word, a) {
        assert(!store_found(st, s@));
        return Some(s.clone());
    }
    let d0 = a + word.len();
    let k = crate::rules::store_class_exec(st);
    let d1 = run_end_exec(s, d0, k);
    proof {
        lemma_run_end(s@, d0 as int, k);
    }
    if !(d0 < d1 && d1 < s.len() && s[d1] == ',' && d1 + 1 < s.len() && s[d1 + 1] != '\n'
        && crate::rules::close_from_exec(s, d1 + 2)) {
        assert(!store_found(st, s@));
        return Some(s.clone());
    }
    match parse_u32(s, d0, d1, k) {
        None => None,
        Some(v) => {
            let mut new = chars_of(new_word);
            push_hex_literal(&mut new, v as u64);
            push_str(&mut new, ")");
            offs.push(v);
            assert(d0 == store_digits_start(st, s@));
            assert(d1 == store_digits_end(st, s@));
            assert(closes_after(s@, d1 + 1));
            assert(store_found(st, s@));
            assert(final(offs)@ == old(offs)@ + seq![v]);
            Some(splice_exec(s, a, d1, &new))
        },
    }
}

/// The new text for the match `m` of `f` at `p`, with the addresses it
/// records appended to `offs`.
fn match_new_exec(f: Finder, s: &Vec<char>, p: usize, m: &Found, num_pub: u32, offs: &mut Vec<u32>) -> (r: Option<Vec<char>>)
    requires
        found_fits(f, s@, p as int, *m),
    ensures
        yields(r, match_new(f, s@, p as int, num_pub as nat), old(offs)@, final(offs)@),
{
    let v = match parse_u32(s, m.a0, m.a1, class_exec(f)) {
        None => {
            return None;
        },
        Some(v) => v,
    };
    match f {
        Finder::Call(c) => {
            match parse_u32(s, m.b0, m.b1, DigitClass::Hex) {
                None => None,
                Some(w) => {
                    let t = crate::rules::call_texts(c);
                    let mut new = chars_of(t.new_head);
                    push_hex_literal(&mut new, v as u64);
                    push_str(&mut new, t.new_mid);
                    push_hex_literal(&mut new, w as u64);
                    push_str(&mut new, t.new_tail);
                    offs.push(v);
                    offs.push(w);
                    assert(final(offs)@ == old(offs)@ + seq![v, w]);
                    Some(new)
                },
            }
        },
        Finder::Calldata => {
            let (b, off) = resolve_calldata(v, num_pub);
            let mut new = match b {
                Buffer::PubInputs => chars_of("mload(add(pubInputs, "),
                _ => chars_of("mload(add(proof, "),
            };
            push_hex_literal(&mut new, off);
            push_str(&mut new, "))");
            assert(old(offs)@ + Seq::<u32>::empty() =~= old(offs)@);
            Some(new)
        },
        _ => {
            let mut new = match f {
                Finder::Keccak => chars_of("keccak256(add(transcript, "),
                _ => chars_of("mload(add(transcript, "),
            };
            push_hex_literal(&mut new, v as u64);
            push_str(&mut new, ")");
            offs.push(v);
            assert(final(offs)@ == old(offs)@ + seq![v]);
            Some(new)
        },
    }
}

proof fn lemma_prefix_with_assoc(a: Seq<char>, x: Seq<u32>, b: Seq<char>, y: Seq<u32>, o: Outcome)
    ensures
        prefix_with(a, x, prefix_with(b, y, o)) == prefix_with(a + b, x + y, o),
{
    match o {
        None => {},
        Some((t, rest)) => {
            assert(a + (b + t) =~= (a + b) + t);
            assert(x + (y + rest) =~= (x + y) + rest);
        },
    }
}

/// Replaces every match of `f` in `s`, from left to right, appending the
/// addresses recorded to `offs`.
fn sweep_exec(f: Finder, s: &Vec<char>, num_pub: u32, offs: &mut Vec<u32>) -> (r: Option<Vec<char>>)
    ensures
        yields(r, sweep(f, s@, num_pub as nat), old(offs)@, final(offs)@),
{
    let mut out: Vec<char> = Vec::new();
    let mut rest: Vec<char> = s.clone();
    let ghost gained: Seq<u32> = Seq::empty();
    proof {
        lemma_prefix_with_assoc(Seq::empty(), Seq::empty(), Seq::empty(), Seq::empty(), sweep(f, s@, num_pub as nat));
        match sweep(f, s@, num_pub as nat) {
            None => {},
            Some((t, o)) => {
                assert(Seq::<char>::empty() + t =~= t);
                assert(Seq::<u32>::empty() + o =~= o);
            },
        }
        assert(old(offs)@ + gained =~= old(offs)@);
    }
    loop
        invariant
            sweep(f, s@, num_pub as nat) == prefix_with(out@, gained, sweep(f, rest@, num_pub as nat)),
            offs@ == old(offs)@ + gained,
        decreases rest@.len(),
    {
        match first_exec(f, &rest) {
            None => {
                let n = rest.len();
                push_range(&mut out, &rest, 0, n);
                assert(rest@.subrange(0, n as int) =~= rest@);
                assert(gained + Seq::<u32>::empty() =~= gained);
                return Some(out);
            },
            Some((p, m)) => {
                let ghost before = offs@;
                let ghost out0 = out@;
                match match_new_exec(f, &rest, p, &m, num_pub, offs) {
                    None => {
                        return None;
                    },
                    Some(new) => {
                        let n = rest.len();
                        let mut next: Vec<char> = Vec::new();
                        push_range(&mut next, &rest, m.end, n);
                        push_range(&mut out, &rest, 0, p);
                        push_all(&mut out, &new);
                        proof {
                            let o = offs@.subrange(before.len() as int, offs@.len() as int);
                            assert(offs@ =~= before + o);
                            assert(rest@.subrange(m.end as int, n as int) =~= next@);
                            lemma_prefix_with_assoc(
                                out0,
                                gained,
                                rest@.subrange(0, p as int) + new@,
                                o,
                                sweep(f, next@, num_pub as nat),
                            );
                            assert(out@ =~= out0 + (rest@.subrange(0, p as int) + new@));
                            assert(offs@ =~= old(offs)@ + (gained + o));
                            gained = gained + o;
                        }
                        rest = next;
                    },
                }
            },
        }
    }
}

/// One round of the load rule.
fn single_step_exec(f: Finder, s: &Vec<char>, offs: &mut Vec<u32>) -> (r: Option<Vec<char>>)
    requires
        f == Finder::Load,
    ensures
        yields(r, single_step(f, s@), old(offs)@, final(offs)@),
{
    match first_exec(f, s) {
        None => Some(s.clone()),
        Some((p, m)) => {
            match parse_u32(s, m.a0, m.a1, DigitClass::Hex) {
                None => None,
                Some(v) => {
                    let mut new = chars_of("mload(add(transcript, ");
                    push_hex_literal(&mut new, v as u64);
                    push_str(&mut new, ")");
                    offs.push(v);
                    assert(final(offs)@ == old(offs)@ + seq![v]);
                    Some(splice_exec(s, p, m.end, &new))
                },
            }
        },
    }
}

/// No `m` in `x`.
pub open spec fn m_free(x: Seq<char>) -> bool {
    forall|i: int| 0 <= i < x.len() ==> x[i] != 'm'
}

proof fn lemma_count_m_free(x: Seq<char>, y: Seq<char>)
    requires
        m_free(x),
    ensures
        load_count(x + y) == load_count(y),
    decreases x.len(),
{
    reveal_strlit("mload(0x");
    if x.len() == 0 {
        assert(x + y =~= y);
    } else {
        let z = x + y;
        assert(!occurs_at(z, "mload(0x"@, 0)) by {
            if occurs_at(z, "mload(0x"@, 0) {
                assert(z.subrange(0, 8)[0] == z[0]);
            }
        };
        let x1 = x.subrange(1, x.len() as int);
        assert(z.subrange(1, z.len() as int) =~= x1 + y);
        lemma_count_m_free(x1, y);
    }
}

/// A text that starts `m` but not `mload(0x`, and holds no other `m`.
pub open spec fn harmless(r: Seq<char>) -> bool {
    r.len() >= 7 && r[0] == 'm' && r[6] != '0' && m_free(r.subrange(1, r.len() as int))
}

proof fn lemma_count_harmless(r: Seq<char>, y: Seq<char>)
    requires
        harmless(r),
    ensures
        load_count(r + y) == load_count(y),
{
    reveal_strlit("mload(0x");
    let z = r + y;
    assert(!occurs_at(z, "mload(0x"@, 0)) by {
        if occurs_at(z, "mload(0x"@, 0) {
            assert(z.subrange(0, 8)[6] == z[6]);
        }
    };
    assert(z.subrange(1, z.len() as int) =~= r.subrange(1, r.len() as int) + y);
    lemma_count_m_free(r.subrange(1, r.len() as int), y);
}

proof fn lemma_count_suffix(s: Seq<char>, k: int)
    requires
        0 <= k <= s.len(),
    ensures
        load_count(s.subrange(k, s.len() as int)) <= load_count(s),
    decreases k,
{
    if k == 0 {
        assert(s.subrange(0, s.len() as int) =~= s);
    } else {
        let s1 = s.subrange(1, s.len() as int);
        lemma_count_suffix(s1, k - 1);
        assert(s1.subrange(k - 1, s1.len() as int) =~= s.subrange(k, s.len() as int));
    }
}

proof fn lemma_count_positive(s: Seq<char>, p: int)
    requires
        occurs_at(s, "mload(0x"@, p),
    ensures
        load_count(s) >= 1,
{
    lemma_count_suffix(s, p);
    let s2 = s.subrange(p, s.len() as int);
    assert(s2.subrange(0, "mload(0x"@.len() as int) =~= s.subrange(p, p + "mload(0x"@.len()));
    assert(s2.len() > 0) by {
        reveal_strlit("mload(0x");
    };
}

/// Putting a harmless text in place of one that starts with `mload(0x`
/// lowers the count of `mload(0x` by at least one.
proof fn lemma_splice_lowers_count(a: Seq<char>, g: Seq<char>, r: Seq<char>, b: Seq<char>)
    requires
        occurs_at(g, "mload(0x"@, 0),
        harmless(r),
    ensures
        load_count(a + r + b) < load_count(a + g + b),
    decreases a.len(),
{
    reveal_strlit("mload(0x");
    let big_p = "mload(0x"@;
    if a.len() == 0 {
        assert(a + r + b =~= r + b);
        assert(a + g + b =~= g + b);
        lemma_count_harmless(r, b);
        let z = g + b;
        assert(z.subrange(0, 8) =~= g.subrange(0, 8));
        let z1 = z.subrange(1, z.len() as int);
        lemma_count_suffix(z1, g.len() - 1);
        assert(z1.subrange(g.len() - 1, z1.len() as int) =~= b);
    } else {
        let a1 = a.subrange(1, a.len() as int);
        let x = a + r + b;
        let y = a + g + b;
        assert(x.subrange(1, x.len() as int) =~= a1 + r + b);
        assert(y.subrange(1, y.len() as int) =~= a1 + g + b);
        lemma_splice_lowers_count(a1, g, r, b);
        if occurs_at(x, big_p, 0) {
            if a1.len() < 7 {
                let k: int = a1.len() as int + 1;
                assert(x.subrange(0, 8)[k] == x[k]);
                assert(x[k] == r[0]);
            } else {
                assert(x.subrange(0, 8) =~= a.subrange(0, 8));
                assert(y.subrange(0, 8) =~= a.subrange(0, 8));
            }
        }
    }
}

proof fn lemma_digits_m_free(n: nat)
    ensures
        m_free(digits_of(n, 16)),
    decreases n,
{
    if n >= 16 {
        lemma_digits_m_free(n / 16);
    }
    let d = n % 16;
    assert(digit_char(d) != 'm');
    assert(digits_of(n, 16) =~= if n < 16 {
        seq![digit_char(n)]
    } else {
        digits_of(n / 16, 16) + seq![digit_char(d)]
    });
}

proof fn lemma_load_text_harmless(v: nat)
    ensures
        harmless(single_new(Finder::Load, v)),
{
    reveal_strlit("mload(add(transcript, ");
    reveal_strlit(")");
    lemma_digits_m_free(v);
    let r = single_new(Finder::Load, v);
    let h = "mload(add(transcript, "@;
    assert(r =~= h + (seq!['0', 'x'] + digits_of(v, 16)) + ")"@);
    assert forall|i: int| 0 <= i < r.len() - 1 implies r.subrange(1, r.len() as int)[i] != 'm' by {
        let j = i + 1;
        if j < h.len() {
        } else if j < h.len() + 2 {
        } else if j < h.len() + 2 + digits_of(v, 16).len() {
            assert(r[j] == digits_of(v, 16)[j - h.len() - 2]);
        } else {
        }
    };
}

proof fn lemma_after_after(a: Seq<u32>, b: Seq<u32>, o: Outcome)
    ensures
        after(a, after(b, o)) == after(a + b, o),
{
    match o {
        None => {},
        Some((t, rest)) => {
            assert(a + (b + rest) =~= (a + b) + rest);
        },
    }
}

/// The load rule, round after round.
fn loads_exec(s: &Vec<char>, offs: &mut Vec<u32>) -> (r: Option<Vec<char>>)
    ensures
        yields(r, loads_step(s@), old(offs)@, final(offs)@),
{
    let mut cur = s.clone();
    let ghost fuel: nat = load_count(s@);
    let ghost gained: Seq<u32> = Seq::empty();
    assert(after(gained, loads_iter(cur@, fuel)) == loads_step(s@)) by {
        match loads_iter(cur@, fuel) {
            None => {},
            Some((t, o)) => {
                assert(gained + o =~= o);
            },
        }
    };
    loop
        invariant
            load_count(cur@) <= fuel,
            after(gained, loads_iter(cur@, fuel)) == loads_step(s@),
            offs@ == old(offs)@ + gained,
        decreases load_count(cur@),
    {
        match first_exec(Finder::Load, &cur) {
            None => {
                assert(loads_iter(cur@, fuel) == untouched(cur@));
                assert(gained + Seq::<u32>::empty() =~= gained);
                return Some(cur);
            },
            Some((p, m)) => {
                proof {
                    assert(occurs_at(cur@, finder_head(Finder::Load), p as int));
                    lemma_count_positive(cur@, p as int);
                }
                let ghost before = offs@;
                let next = single_step_exec(Finder::Load, &cur, offs);
                match next {
                    None => {
                        return None;
                    },
                    Some(next) => {
                        proof {
                            let f = Finder::Load;
                            let g = cur@.subrange(p as int, group_end(f, cur@, p as int));
                            let v = value_of(
                                cur@.subrange(addr_start(f, p as int), addr_end(f, cur@, p as int)),
                                16,
                            );
                            lemma_load_text_harmless(v);
                            reveal_strlit("mload(0x");
                            assert(g.subrange(0, 8) =~= cur@.subrange(p as int, p + 8));
                            let a = cur@.subrange(0, p as int);
                            let b = cur@.subrange(group_end(f, cur@, p as int), cur@.len() as int);
                            assert(cur@ =~= a + g + b);
                            lemma_splice_lowers_count(a, g, single_new(f, v), b);
                            let o = offs@.subrange(before.len() as int, offs@.len() as int);
                            assert(offs@ =~= before + o);
                            lemma_after_after(gained, o, loads_iter(next@, (fuel - 1) as nat));
                            assert(offs@ =~= old(offs)@ + (gained + o));
                            gained = gained + o;
                            fuel = (fuel - 1) as nat;
                        }
                        cur = next;
                    },
                }
            },
        }
    }
}

fn rule_step_exec(rule: Rule, s: &Vec<char>, offs: &mut Vec<u32>) -> (r: Option<Vec<char>>)
    ensures
        yields(r, rule_step(rule, s@), old(offs)@, final(offs)@),
{
    match rule {
        Rule::Store(st) => store_step_exec(st, s, offs),
        Rule::Call(c) => sweep_exec(Finder::Call(c), s, 0, offs),
        Rule::Keccak => sweep_exec(Finder::Keccak, s, 0, offs),
        Rule::Loads => loads_exec(s, offs),
    }
}

/// Rewrites one line of assembly, given the number of public inputs, and appends the transcript addresses it uses to `offs`.
/// `None`: an address literal does not fit in 32 bits.
pub fn rewrite_line_chars(s: &Vec<char>, num_pub: u32, offs: &mut Vec<u32>) -> (r: Option<
    Vec<char>,
>)
    ensures
        yields(r, rewrite_line_spec(s@, num_pub as nat), old(offs)@, final(offs)@),
{
    let mark = chars_of(":bool");
    proof {
        reveal_strlit(":bool");
    }
    let nothing: Vec<char> = Vec::new();
    assert(nothing@ =~= Seq::<char>::empty());
    let s1 = crate::text::replace_all_exec(s, &mark, &nothing);
    let mut cur = match calldata_step_exec(&s1, num_pub) {
        None => {
            return None;
        },
        Some(t) => t,
    };
    let rules: Vec<Rule> = vec![
        Rule::Store(Store::Byte),
        Rule::Store(Store::WordDecimal),
        Rule::Call(Precompile::Modexp),
        Rule::Call(Precompile::EcMul),
        Rule::Call(Precompile::EcAdd),
        Rule::Call(Precompile::EcPairing),
        Rule::Store(Store::WordHex),
        Rule::Keccak,
        Rule::Loads,
    ];
    assert(rules@ =~= rule_order());
    let ghost gained: Seq<u32> = Seq::empty();
    let mut i: usize = 0;
    assert(rules@.subrange(0, rules@.len() as int) =~= rules@);
    assert(after(gained, run_rules(cur@, rules@)) == run_rules(cur@, rules@)) by {
        match run_rules(cur@, rules@) {
            None => {},
            Some((t, o)) => {
                assert(gained + o =~= o);
            },
        }
    };
    while i < rules.len()
        invariant
            i <= rules@.len(),
            rules@ == rule_order(),
            rewrite_line_spec(s@, num_pub as nat) == after(
                gained,
                run_rules(cur@, rules@.subrange(i as int, rules@.len() as int)),
            ),
            offs@ == old(offs)@ + gained,
        decreases rules@.len() - i,
    {
        let ghost rs = rules@.subrange(i as int, rules@.len() as int);
        let ghost before = offs@;
        let ghost prev = cur@;
        match rule_step_exec(rules[i], &cur, offs) {
            None => {
                return None;
            },
            Some(t) => {
                proof {
                    let o = offs@.subrange(before.len() as int, offs@.len() as int);
                    assert(offs@ =~= before + o);
                    assert(rs.subrange(1, rs.len() as int) =~= rules@.subrange(
                        i + 1,
                        rules@.len() as int,
                    ));
                    lemma_after_after(
                        gained,
                        o,
                        run_rules(t@, rules@.subrange(i + 1, rules@.len() as int)),
                    );
                    assert(offs@ =~= old(offs)@ + (gained + o));
                    gained = gained + o;
                }
                cur = t;
            },
        }
        i = i + 1;
    }
    assert(gained + Seq::<u32>::empty() =~= gained);
    Some(cur)
}

} // verus!
