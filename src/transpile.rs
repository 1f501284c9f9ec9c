//! The transpiler: finds where the public inputs end, rewrites every line,
//! sizes the transcript buffer and wraps the body in the contract.
use vstd::prelude::*;
use crate::numeral::{digits_of, push_digits};
use crate::rewrite::{rewrite_line_chars, rewrite_line_spec};
use crate::rules::{begins_with, ws_end_exec};
use crate::text::{chars_of, occurs_at_exec, push_all, push_str, string_of};

verus! {

/// Why a transpile fails.
#[derive(Clone, Copy, PartialEq, Eq, Structural, Debug)]
pub enum TranspileError {
    /// An address literal does not fit in 32 bits.
    MalformedAddress,
    /// No line used the transcript.
    EmptyTranscript,
    /// Fewer lines than the wrapper around the body takes.
    MissingBoilerplate,
}

/// The lines as character sequences.
pub open spec fn lines_view(lines: Seq<String>) -> Seq<Seq<char>> {
    lines.map_values(|l: String| l@)
}

/// A write of the first public input.
pub open spec fn is_pub_write(l: Seq<char>) -> bool {
    begins_with(l, "mstore(0x20"@)
}

/// The closing write at offset zero.
pub open spec fn is_close_write(l: Seq<char>) -> bool {
    begins_with(l, "mstore(0x0"@)
}

/// The scan from line `i` on, `start` being the last public-input write seen
/// so far: it stops at the first closing write.
pub open spec fn scan_from(lines: Seq<Seq<char>>, i: int, start: Option<int>) -> (
    Option<int>,
    Option<int>,
)
    decreases lines.len() - i,
{
    if i < 0 || i >= lines.len() {
        (start, None)
    } else {
        let start2 = if is_pub_write(lines[i]) {
            Some(i)
        } else {
            start
        };
        if is_close_write(lines[i]) {
            (start2, Some(i))
        } else {
            scan_from(lines, i + 1, start2)
        }
    }
}

/// The line of the last public-input write before the first closing write,
/// and the line of that closing write.
pub open spec fn boundary(lines: Seq<Seq<char>>) -> (Option<int>, Option<int>) {
    scan_from(lines, 0, None)
}

/// The number of public-input slots: the distance between the two markers,
/// zero where either is missing.
pub open spec fn num_pub_inputs(lines: Seq<Seq<char>>) -> nat {
    match boundary(lines) {
        (Some(s), Some(e)) => if s <= e {
            (e - s) as nat
        } else {
            0
        },
        _ => 0,
    }
}

proof fn lemma_scan_bounds(lines: Seq<Seq<char>>, i: int, start: Option<int>)
    requires
        0 <= i,
        start matches Some(s) ==> 0 <= s < i,
    ensures
        scan_from(lines, i, start).1 matches Some(e) ==> e < lines.len() && (scan_from(
            lines,
            i,
            start,
        ).0 matches Some(s) ==> 0 <= s <= e),
    decreases lines.len() - i,
{
    if i < lines.len() {
        let start2 = if is_pub_write(lines[i]) {
            Some(i)
        } else {
            start
        };
        if !is_close_write(lines[i]) {
            lemma_scan_bounds(lines, i + 1, start2);
        }
    }
}

fn begins_with_exec(s: &Vec<char>, w: &Vec<char>) -> (b: bool)
    ensures
        b == begins_with(s@, w@),
{
    let a = ws_end_exec(s);
    occurs_at_exec(s, w, a)
}

/// Finds the public-input boundary: the line of the last public-input write
/// before the first closing write, and the line of that closing write.
pub fn find_boundary(lines: &Vec<String>) -> (r: (Option<usize>, Option<usize>))
    ensures
        r.0 matches Some(s) ==> boundary(lines_view(lines@)).0 == Some(s as int),
        r.0 is None ==> boundary(lines_view(lines@)).0 is None,
        r.1 matches Some(e) ==> boundary(lines_view(lines@)).1 == Some(e as int),
        r.1 is None ==> boundary(lines_view(lines@)).1 is None,
{
    let ghost v = lines_view(lines@);
    let pub_word = chars_of("mstore(0x20");
    let close_word = chars_of("mstore(0x0");
    let mut start: Option<usize> = None;
    let mut i: usize = 0;
    while i < lines.len()
        invariant
            i <= lines@.len(),
            v == lines_view(lines@),
            pub_word@ == "mstore(0x20"@,
            close_word@ == "mstore(0x0"@,
            boundary(v) == scan_from(
                v,
                i as int,
                match start {
                    Some(s) => Some(s as int),
                    None => None,
                },
            ),
        decreases lines@.len() - i,
    {
        let line = chars_of(lines[i].as_str());
        assert(line@ == v[i as int]);
        if begins_with_exec(&line, &pub_word) {
            start = Some(i);
        }
        if begins_with_exec(&line, &close_word) {
            return (start, Some(i));
        }
        i = i + 1;
    }
    (start, None)
}

/// Counts the public-input slots of the listing.
pub fn count_pub_inputs(lines: &Vec<String>) -> (n: usize)
    ensures
        n as nat == num_pub_inputs(lines_view(lines@)),
        n <= lines@.len(),
{
    let (s, e) = find_boundary(lines);
    proof {
        lemma_scan_bounds(lines_view(lines@), 0, None);
    }
    match (s, e) {
        (Some(s), Some(e)) => e - s,
        _ => 0,
    }
}

/// The largest of `offs`, zero for none.
pub open spec fn seq_max(offs: Seq<u32>) -> nat
    decreases offs.len(),
{
    if offs.len() == 0 {
        0
    } else {
        let m = seq_max(offs.drop_last());
        if offs.last() as nat > m {
            offs.last() as nat
        } else {
            m
        }
    }
}

pub proof fn lemma_seq_max(offs: Seq<u32>)
    ensures
        forall|i: int| 0 <= i < offs.len() ==> offs[i] as nat <= seq_max(offs),
        offs.len() > 0 ==> exists|i: int| 0 <= i < offs.len() && offs[i] as nat == seq_max(offs),
        seq_max(offs) <= u32::MAX,
    decreases offs.len(),
{
    if offs.len() > 0 {
        lemma_seq_max(offs.drop_last());
        if offs.len() > 1 && seq_max(offs.drop_last()) >= offs.last() {
            let i = choose|i: int|
                0 <= i < offs.drop_last().len() && offs.drop_last()[i] as nat == seq_max(
                    offs.drop_last(),
                );
            assert(offs[i] == offs.drop_last()[i]);
        } else {
            assert(offs[offs.len() - 1] == offs.last());
        }
        assert forall|i: int| 0 <= i < offs.len() implies offs[i] as nat <= seq_max(offs) by {
            if i < offs.len() - 1 {
                assert(offs[i] == offs.drop_last()[i]);
            }
        };
    }
}

/// The number of 32-byte words of the transcript buffer: the largest
/// recorded address over 32; `None` where nothing was recorded.
pub open spec fn word_count(offs: Seq<u32>) -> Option<nat> {
    if offs.len() == 0 {
        None
    } else {
        Some(seq_max(offs) / 32)
    }
}

/// Sizes the transcript buffer from the recorded addresses.
pub fn buffer_word_count(offs: &Vec<u32>) -> (r: Option<u32>)
    ensures
        match r {
            Some(w) => word_count(offs@) == Some(w as nat),
            None => word_count(offs@) is None,
        },
{
    if offs.len() == 0 {
        return None;
    }
    let mut m: u32 = 0;
    let mut i: usize = 0;
    while i < offs.len()
        invariant
            0 < offs@.len(),
            i <= offs@.len(),
            m as nat == seq_max(offs@.subrange(0, i as int)),
        decreases offs@.len() - i,
    {
        assert(offs@.subrange(0, i + 1).drop_last() =~= offs@.subrange(0, i as int));
        if offs[i] > m {
            m = offs[i];
        }
        i = i + 1;
    }
    assert(offs@.subrange(0, i as int) =~= offs@);
    Some(m / 32)
}

/// The contract text up to the size of the transcript buffer.
pub const CONTRACT_HEAD: &'static str = "// SPDX-License-Identifier: MIT\n    pragma solidity ^0.8.17;\n    \n    contract Verifier {\n        function verify(\n            uint256[] memory pubInputs,\n            bytes memory proof\n        ) public view returns (bool) {\n            bool success = true;\n            bytes32[";

/// The contract text from the size of the buffer to the body.
pub const CONTRACT_MID: &'static str = "] memory transcript;\n            assembly {";

/// The contract text after the body.
pub const CONTRACT_FOOT: &'static str = "} return success; } }\n";

/// The number of wrapper lines before the body of the listing.
pub const HEAD_LINES: usize = 16;

/// The number of wrapper lines after the body of the listing.
pub const TAIL_LINES: usize = 7;

/// The lines of `ls` one after another.
pub open spec fn concat_lines(ls: Seq<Seq<char>>) -> Seq<char>
    decreases ls.len(),
{
    if ls.len() == 0 {
        Seq::empty()
    } else {
        concat_lines(ls.drop_last()) + ls.last()
    }
}

/// The body of a rewritten listing: without its wrapper lines.
pub open spec fn body_of(ls: Seq<Seq<char>>) -> Seq<Seq<char>> {
    ls.subrange(HEAD_LINES as int, ls.len() - TAIL_LINES)
}

/// The contract around the body of `ls`, its transcript `words` words long.
pub open spec fn contract_text(ls: Seq<Seq<char>>, words: nat) -> Seq<char> {
    CONTRACT_HEAD@ + digits_of(words, 10) + CONTRACT_MID@ + concat_lines(body_of(ls))
        + CONTRACT_FOOT@
}

/// Every line rewritten in turn: the new lines and all transcript addresses
/// in order; `None` where a line fails.
pub open spec fn rewrite_all(ls: Seq<Seq<char>>, num_pub: nat) -> Option<
    (Seq<Seq<char>>, Seq<u32>),
>
    decreases ls.len(),
{
    if ls.len() == 0 {
        Some((Seq::empty(), Seq::empty()))
    } else {
        match rewrite_all(ls.drop_last(), num_pub) {
            None => None,
            Some((ts, os)) => match rewrite_line_spec(ls.last(), num_pub) {
                None => None,
                Some((t, o)) => Some((ts.push(t), os + o)),
            },
        }
    }
}

/// What the transpiler makes of a listing.
pub open spec fn transpile(ls: Seq<Seq<char>>) -> Result<Seq<char>, TranspileError> {
    match rewrite_all(ls, num_pub_inputs(ls)) {
        None => Err(TranspileError::MalformedAddress),
        Some((body, offs)) => match word_count(offs) {
            None => Err(TranspileError::EmptyTranscript),
            Some(w) => if body.len() < HEAD_LINES + TAIL_LINES {
                Err(TranspileError::MissingBoilerplate)
            } else {
                Ok(contract_text(body, w))
            },
        },
    }
}

/// Rewrites one line of assembly, given the number of public inputs: the new
/// line and the transcript addresses it uses.
pub fn rewrite_line(line: &str, num_pub: u32) -> (r: Result<(String, Vec<u32>), TranspileError>)
    ensures
        match rewrite_line_spec(line@, num_pub as nat) {
            None => r == Err::<(String, Vec<u32>), TranspileError>(
                TranspileError::MalformedAddress,
            ),
            Some((t, o)) => r matches Ok((u, offs)) && u@ == t && offs@ == o,
        },
{
    let mut offs: Vec<u32> = Vec::new();
    let chars = chars_of(line);
    match rewrite_line_chars(&chars, num_pub, &mut offs) {
        None => Err(TranspileError::MalformedAddress),
        Some(t) => {
            assert(offs@ =~= Seq::<u32>::empty() + offs@);
            Ok((string_of(&t), offs))
        },
    }
}

/// Transpiles a listing of verifier assembly, one instruction per line, into
/// the Solidity verifier contract.
pub fn fix_verifier_sol(lines: &Vec<String>) -> (r: Result<String, TranspileError>)
    requires
        lines@.len() <= u32::MAX,
    ensures
        match transpile(lines_view(lines@)) {
            Ok(t) => r matches Ok(u) && u@ == t,
            Err(e) => r == Err::<String, TranspileError>(e),
        },
{
    let ghost ls = lines_view(lines@);
    let n = count_pub_inputs(lines) as u32;
    let mut body: Vec<Vec<char>> = Vec::new();
    let mut offs: Vec<u32> = Vec::new();
    let mut i: usize = 0;
    assert(ls.subrange(0, 0) =~= Seq::<Seq<char>>::empty());
    assert(body@.map_values(|l: Vec<char>| l@) =~= Seq::<Seq<char>>::empty());
    while i < lines.len()
        invariant
            i <= lines@.len(),
            ls == lines_view(lines@),
            n == num_pub_inputs(ls),
            rewrite_all(ls.subrange(0, i as int), n as nat) == Some(
                (body@.map_values(|l: Vec<char>| l@), offs@),
            ),
        decreases lines@.len() - i,
    {
        let line = chars_of(lines[i].as_str());
        let ghost pre = ls.subrange(0, i + 1);
        assert(pre.drop_last() =~= ls.subrange(0, i as int));
        assert(pre.last() == line@);
        match rewrite_line_chars(&line, n, &mut offs) {
            None => {
                assert(rewrite_all(ls.subrange(0, i + 1), n as nat) is None);
                proof {
                    lemma_rewrite_all_fails(ls, n as nat, i + 1);
                }
                return Err(TranspileError::MalformedAddress);
            },
            Some(t) => {
                let ghost bv = body@.map_values(|l: Vec<char>| l@);
                body.push(t);
                assert(body@.map_values(|l: Vec<char>| l@) =~= bv.push(t@));
            },
        }
        i = i + 1;
    }
    assert(ls.subrange(0, i as int) =~= ls);
    let words = match buffer_word_count(&offs) {
        None => {
            return Err(TranspileError::EmptyTranscript);
        },
        Some(w) => w,
    };
    if body.len() < HEAD_LINES + TAIL_LINES {
        return Err(TranspileError::MissingBoilerplate);
    }
    let mut out = chars_of(CONTRACT_HEAD);
    push_digits(&mut out, words as u64, 10);
    push_str(&mut out, CONTRACT_MID);
    let ghost bv = body@.map_values(|l: Vec<char>| l@);
    let ghost start = out@;
    let mut j: usize = HEAD_LINES;
    let end = body.len() - TAIL_LINES;
    assert(bv.subrange(HEAD_LINES as int, j as int) =~= Seq::<Seq<char>>::empty());
    while j < end
        invariant
            HEAD_LINES <= j <= end,
            end == body@.len() - TAIL_LINES,
            bv == body@.map_values(|l: Vec<char>| l@),
            out@ == start + concat_lines(bv.subrange(HEAD_LINES as int, j as int)),
        decreases end - j,
    {
        let ghost prev = bv.subrange(HEAD_LINES as int, j as int);
        push_all(&mut out, &body[j]);
        j = j + 1;
        assert(bv.subrange(HEAD_LINES as int, j as int).drop_last() =~= prev);
        assert(out@ =~= start + concat_lines(bv.subrange(HEAD_LINES as int, j as int)));
    }
    push_str(&mut out, CONTRACT_FOOT);
    assert(out@ =~= contract_text(bv, words as nat));
    Ok(string_of(&out))
}

/// Once a prefix of the listing fails to rewrite, the whole listing does.
proof fn lemma_rewrite_all_fails(ls: Seq<Seq<char>>, num_pub: nat, k: int)
    requires
        0 <= k <= ls.len(),
        rewrite_all(ls.subrange(0, k), num_pub) is None,
    ensures
        rewrite_all(ls, num_pub) is None,
    decreases ls.len() - k,
{
    if k < ls.len() {
        assert(ls.subrange(0, k + 1).drop_last() =~= ls.subrange(0, k));
        lemma_rewrite_all_fails(ls, num_pub, k + 1);
    } else {
        assert(ls.subrange(0, k) =~= ls);
    }
}

} // verus!
