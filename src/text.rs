//! Character-sequence utilities: substring search and replacement, digit
//! classes, parsing of digit runs and formatting of numbers.
use vstd::prelude::*;

verus! {

/// `p` stands in `s` starting at position `i`.
pub open spec fn occurs_at(s: Seq<char>, p: Seq<char>, i: int) -> bool {
    0 <= i && i + p.len() <= s.len() && s.subrange(i, i + p.len()) == p
}

/// `s` with every occurrence of `p` replaced by `r`, the occurrences taken
/// from the left without overlap.
pub open spec fn replace_all(s: Seq<char>, p: Seq<char>, r: Seq<char>) -> Seq<char>
    decreases s.len(),
{
    if p.len() == 0 || s.len() < p.len() {
        s
    } else if s.subrange(0, p.len() as int) == p {
        r + replace_all(s.subrange(p.len() as int, s.len() as int), p, r)
    } else {
        seq![s[0]] + replace_all(s.subrange(1, s.len() as int), p, r)
    }
}

/// Appends `r` to `out`.
pub fn push_all(out: &mut Vec<char>, r: &Vec<char>)
    ensures
        final(out)@ == old(out)@ + r@,
{
    let mut i: usize = 0;
    while i < r.len()
        invariant
            i <= r@.len(),
            out@ == old(out)@ + r@.subrange(0, i as int),
        decreases r@.len() - i,
    {
        out.push(r[i]);
        i = i + 1;
        assert(out@ =~= old(out)@ + r@.subrange(0, i as int));
    }
    assert(r@.subrange(0, i as int) =~= r@);
}

/// Appends the characters of `s` to `out`.
pub fn push_str(out: &mut Vec<char>, s: &str)
    ensures
        final(out)@ == old(out)@ + s@,
{
    let n = s.unicode_len();
    let mut i: usize = 0;
    while i < n
        invariant
            n == s@.len(),
            i <= n,
            out@ == old(out)@ + s@.subrange(0, i as int),
        decreases n - i,
    {
        out.push(s.get_char(i));
        i = i + 1;
        assert(out@ =~= old(out)@ + s@.subrange(0, i as int));
    }
    assert(s@.subrange(0, n as int) =~= s@);
}

/// The characters of `s`.
pub fn chars_of(s: &str) -> (r: Vec<char>)
    ensures
        r@ == s@,
{
    let mut r: Vec<char> = Vec::new();
    push_str(&mut r, s);
    assert(r@ =~= s@);
    r
}

/// Whether `p` stands in `s` at position `i`.
pub fn occurs_at_exec(s: &Vec<char>, p: &Vec<char>, i: usize) -> (b: bool)
    ensures
        b == occurs_at(s@, p@, i as int),
{
    if i > s.len() || s.len() - i < p.len() {
        return false;
    }
    let mut k: usize = 0;
    while k < p.len()
        invariant
            i + p@.len() <= s@.len(),
            s@.len() <= usize::MAX,
            k <= p@.len(),
            forall|j: int| 0 <= j < k ==> s@[i + j] == p@[j],
        decreases p@.len() - k,
    {
        if s[i + k] != p[k] {
            assert(s@.subrange(i as int, i + p@.len())[k as int] != p@[k as int]);
            return false;
        }
        k = k + 1;
    }
    assert(s@.subrange(i as int, i + p@.len()) =~= p@);
    true
}

/// Replaces every occurrence of `p` in `s` by `r`, from the left.
pub fn replace_all_exec(s: &Vec<char>, p: &Vec<char>, r: &Vec<char>) -> (out: Vec<char>)
    requires
        p@.len() > 0,
    ensures
        out@ == replace_all(s@, p@, r@),
{
    let mut out: Vec<char> = Vec::new();
    let mut i: usize = 0;
    assert(s@.subrange(0, s@.len() as int) =~= s@);
    assert(out@ + replace_all(s@, p@, r@) =~= replace_all(s@, p@, r@));
    while i < s.len()
        invariant
            i <= s@.len(),
            p@.len() > 0,
            replace_all(s@, p@, r@) == out@ + replace_all(
                s@.subrange(i as int, s@.len() as int),
                p@,
                r@,
            ),
        decreases s@.len() - i,
    {
        let ghost rest = s@.subrange(i as int, s@.len() as int);
        if occurs_at_exec(s, p, i) {
            assert(rest.subrange(0, p@.len() as int) =~= s@.subrange(i as int, i + p@.len()));
            assert(rest.subrange(p@.len() as int, rest.len() as int) =~= s@.subrange(
                i + p@.len(),
                s@.len() as int,
            ));
            let ghost before = out@;
            push_all(&mut out, r);
            i = i + p.len();
            assert(before + r@ + replace_all(s@.subrange(i as int, s@.len() as int), p@, r@)
                =~= before + (r@ + replace_all(s@.subrange(i as int, s@.len() as int), p@, r@)));
        } else {
            let ghost before = out@;
            out.push(s[i]);
            i = i + 1;
            let ghost tail = s@.subrange(i as int, s@.len() as int);
            assert(rest.subrange(1, rest.len() as int) =~= tail);
            proof {
                if rest.len() >= p@.len() {
                    assert(rest.subrange(0, p@.len() as int) != p@) by {
                        assert(rest.subrange(0, p@.len() as int) =~= s@.subrange(
                            i - 1,
                            i - 1 + p@.len(),
                        ));
                    };
                    assert(replace_all(rest, p@, r@) == seq![rest[0]] + replace_all(tail, p@, r@));
                } else {
                    assert(replace_all(rest, p@, r@) == rest);
                    assert(replace_all(tail, p@, r@) == tail);
                    assert(rest =~= seq![rest[0]] + tail);
                }
            }
            assert(out@ =~= before + seq![rest[0]]);
            assert(before + seq![rest[0]] + replace_all(tail, p@, r@) =~= before + (seq![rest[0]]
                + replace_all(tail, p@, r@)));
        }
    }
    assert(replace_all(s@.subrange(i as int, s@.len() as int), p@, r@) =~= Seq::<char>::empty());
    assert(out@ + Seq::<char>::empty() =~= out@);
    out
}

/// Relies on `String`'s `FromIterator<&char>` (through `Iterator::collect`):
/// the string holds the characters in order.
#[verifier::external_body]
pub(crate) fn string_of(v: &Vec<char>) -> (r: String)
    ensures
        r@ == v@,
{
    v.iter().collect()
}

/// `l` without one trailing carriage return.
pub open spec fn strip_cr(l: Seq<char>) -> Seq<char> {
    if l.len() > 0 && l.last() == '\r' {
        l.drop_last()
    } else {
        l
    }
}

/// The position of the first line feed of `s` at or after `i`.
pub open spec fn lf_from(s: Seq<char>, i: int) -> Option<int>
    decreases s.len() - i,
{
    if i < 0 || i >= s.len() {
        None
    } else if s[i] == '\n' {
        Some(i)
    } else {
        lf_from(s, i + 1)
    }
}

/// The lines of `s`: split at each line feed, a carriage return just before
/// the line feed dropped, and no empty last line after a final line feed.
pub open spec fn lines_of(s: Seq<char>) -> Seq<Seq<char>>
    decreases s.len(),
{
    if s.len() == 0 {
        Seq::empty()
    } else {
        match lf_from(s, 0) {
            None => seq![s],
            Some(k) => if 0 <= k < s.len() {
                seq![strip_cr(s.subrange(0, k))] + lines_of(s.subrange(k + 1, s.len() as int))
            } else {
                Seq::empty()
            },
        }
    }
}

proof fn lemma_lf_from(s: Seq<char>, j: int, k: int)
    requires
        0 <= j <= k <= s.len(),
        forall|t: int| j <= t < k ==> s[t] != '\n',
    ensures
        lf_from(s, j) == lf_from(s, k),
    decreases k - j,
{
    if j < k {
        lemma_lf_from(s, j + 1, k);
    }
}

fn line_string(s: &Vec<char>, lo: usize, hi: usize) -> (r: String)
    requires
        lo <= hi <= s@.len(),
    ensures
        r@ == strip_cr(s@.subrange(lo as int, hi as int)),
{
    let end = if hi > lo && s[hi - 1] == '\r' {
        hi - 1
    } else {
        hi
    };
    let mut v: Vec<char> = Vec::new();
    let mut i = lo;
    while i < end
        invariant
            lo <= i <= end <= hi <= s@.len(),
            v@ == s@.subrange(lo as int, i as int),
        decreases end - i,
    {
        v.push(s[i]);
        i = i + 1;
        assert(v@ =~= s@.subrange(lo as int, i as int));
    }
    assert(v@ =~= strip_cr(s@.subrange(lo as int, hi as int)));
    string_of(&v)
}

/// Splits `text` into lines as `BufRead::lines` does.
pub fn split_lines(text: &str) -> (r: Vec<String>)
    ensures
        r@.map_values(|l: String| l@) == lines_of(text@),
{
    let s = chars_of(text);
    let mut out: Vec<String> = Vec::new();
    let mut seg: usize = 0;
    let mut i: usize = 0;
    assert(s@.subrange(0, s@.len() as int) =~= s@);
    assert(out@.map_values(|l: String| l@) =~= Seq::<Seq<char>>::empty());
    while i < s.len()
        invariant
            seg <= i <= s@.len(),
            s@ == text@,
            lines_of(s@) == out@.map_values(|l: String| l@) + lines_of(
                s@.subrange(seg as int, s@.len() as int),
            ),
            forall|t: int| seg <= t < i ==> s@[t] != '\n',
        decreases s@.len() - i,
    {
        if s[i] == '\n' {
            let ghost rest = s@.subrange(seg as int, s@.len() as int);
            proof {
                lemma_lf_from(rest, 0, i - seg);
                assert(rest.subrange(0, i - seg) =~= s@.subrange(seg as int, i as int));
                assert(rest.subrange(i - seg + 1, rest.len() as int) =~= s@.subrange(
                    i + 1,
                    s@.len() as int,
                ));
            }
            let line = line_string(&s, seg, i);
            let ghost before = out@.map_values(|l: String| l@);
            out.push(line);
            assert(out@.map_values(|l: String| l@) =~= before.push(line@));
            assert(before.push(line@) + lines_of(s@.subrange(i + 1, s@.len() as int)) =~= before
                + (seq![line@] + lines_of(s@.subrange(i + 1, s@.len() as int))));
            seg = i + 1;
        }
        i = i + 1;
    }
    let ghost rest = s@.subrange(seg as int, s@.len() as int);
    if seg < s.len() {
        proof {
            lemma_lf_from(rest, 0, rest.len() as int);
            assert(rest =~= s@.subrange(seg as int, s@.len() as int));
        }
        let mut last: Vec<char> = Vec::new();
        let n = s.len();
        push_range(&mut last, &s, seg, n);
        let line = string_of(&last);
        let ghost before = out@.map_values(|l: String| l@);
        out.push(line);
        assert(out@.map_values(|l: String| l@) =~= before + seq![line@]);
    } else {
        assert(out@.map_values(|l: String| l@) + lines_of(rest) =~= out@.map_values(
            |l: String| l@,
        ));
    }
    out
}

/// `s` with the characters from `lo` to `hi` replaced by `r`.
pub open spec fn splice(s: Seq<char>, lo: int, hi: int, r: Seq<char>) -> Seq<char> {
    s.subrange(0, lo) + r + s.subrange(hi, s.len() as int)
}

/// Replaces the characters of `s` from `lo` to `hi` by `r`.
pub fn splice_exec(s: &Vec<char>, lo: usize, hi: usize, r: &Vec<char>) -> (out: Vec<char>)
    requires
        lo <= hi <= s@.len(),
    ensures
        out@ == splice(s@, lo as int, hi as int, r@),
{
    let mut out: Vec<char> = Vec::new();
    let mut i: usize = 0;
    while i < lo
        invariant
            i <= lo <= hi <= s@.len(),
            out@ == s@.subrange(0, i as int),
        decreases lo - i,
    {
        out.push(s[i]);
        i = i + 1;
        assert(out@ =~= s@.subrange(0, i as int));
    }
    push_all(&mut out, r);
    let ghost start = out@;
    let mut j = hi;
    while j < s.len()
        invariant
            hi <= j <= s@.len(),
            out@ == start + s@.subrange(hi as int, j as int),
        decreases s@.len() - j,
    {
        out.push(s[j]);
        j = j + 1;
        assert(out@ =~= start + s@.subrange(hi as int, j as int));
    }
    assert(out@ =~= splice(s@, lo as int, hi as int, r@));
    out
}

/// Appends `s[lo..hi]` to `out`.
pub fn push_range(out: &mut Vec<char>, s: &Vec<char>, lo: usize, hi: usize)
    requires
        lo <= hi <= s@.len(),
    ensures
        final(out)@ == old(out)@ + s@.subrange(lo as int, hi as int),
{
    let ghost start = out@;
    let mut i = lo;
    while i < hi
        invariant
            lo <= i <= hi <= s@.len(),
            out@ == start + s@.subrange(lo as int, i as int),
            start == old(out)@,
        decreases hi - i,
    {
        out.push(s[i]);
        i = i + 1;
        assert(out@ =~= start + s@.subrange(lo as int, i as int));
    }
}

} // verus!
