//! Character-level helpers over `str`, each stated over the string's
//! character sequence.
use vstd::prelude::*;
use vstd::string::*;
use crate::address::split_view;

verus! {

/// Unicode `White_Space` code points, the set `char::is_whitespace` and
/// `str::trim` are documented to use.
pub open spec fn is_white(c: char) -> bool {
    let u = c as u32;
    (0x9 <= u && u <= 0xd) || u == 0x20 || u == 0x85 || u == 0xa0 || u == 0x1680
        || (0x2000 <= u && u <= 0x200a) || u == 0x2028 || u == 0x2029 || u == 0x202f
        || u == 0x205f || u == 0x3000
}

pub fn char_is_white(c: char) -> (r: bool)
    ensures
        r == is_white(c),
{
    let u = c as u32;
    (0x9 <= u && u <= 0xd) || u == 0x20 || u == 0x85 || u == 0xa0 || u == 0x1680 || (0x2000
        <= u && u <= 0x200a) || u == 0x2028 || u == 0x2029 || u == 0x202f || u == 0x205f || u
        == 0x3000
}

/// Index of the first character at or after `i` that is not white space.
pub open spec fn first_kept(s: Seq<char>, i: int) -> int
    decreases s.len() - i,
{
    if 0 <= i < s.len() && is_white(s[i]) {
        first_kept(s, i + 1)
    } else {
        i
    }
}

/// End of `s[lo..j]` once trailing white space is cut off.
pub open spec fn end_kept(s: Seq<char>, lo: int, j: int) -> int
    decreases j - lo,
{
    if lo < j && j <= s.len() && is_white(s[j - 1]) {
        end_kept(s, lo, j - 1)
    } else {
        j
    }
}

/// `s` without leading and trailing white space.
pub open spec fn trimmed(s: Seq<char>) -> Seq<char> {
    let a = first_kept(s, 0);
    s.subrange(a, end_kept(s, a, s.len() as int))
}

pub open spec fn all_white(s: Seq<char>) -> bool {
    forall|i: int| 0 <= i < s.len() ==> is_white(#[trigger] s[i])
}

proof fn lemma_first_kept(s: Seq<char>, i: int)
    requires
        0 <= i <= s.len(),
    ensures
        i <= first_kept(s, i) <= s.len(),
        forall|k: int| i <= k < first_kept(s, i) ==> is_white(#[trigger] s[k]),
        first_kept(s, i) < s.len() ==> !is_white(s[first_kept(s, i)]),
    decreases s.len() - i,
{
    if i < s.len() && is_white(s[i]) {
        lemma_first_kept(s, i + 1);
    }
}

proof fn lemma_end_kept(s: Seq<char>, lo: int, j: int)
    requires
        0 <= lo <= j <= s.len(),
    ensures
        lo <= end_kept(s, lo, j) <= j,
        forall|k: int| end_kept(s, lo, j) <= k < j ==> is_white(#[trigger] s[k]),
        lo < end_kept(s, lo, j) ==> !is_white(s[end_kept(s, lo, j) - 1]),
    decreases j - lo,
{
    if lo < j && is_white(s[j - 1]) {
        lemma_end_kept(s, lo, j - 1);
    }
}

/// The trimmed text is empty exactly when every character is white space.
pub proof fn lemma_trimmed_empty(s: Seq<char>)
    ensures
        trimmed(s).len() == 0 <==> all_white(s),
{
    lemma_first_kept(s, 0);
    let a = first_kept(s, 0);
    lemma_end_kept(s, a, s.len() as int);
}

/// `str::trim`, on the characters of `s`.
pub fn trim(s: &str) -> (r: &str)
    ensures
        r@ == trimmed(s@),
{
    let n = s.unicode_len();
    let mut i: usize = 0;
    while i < n && char_is_white(s.get_char(i))
        invariant
            n == s@.len(),
            0 <= i <= n,
            first_kept(s@, 0) == first_kept(s@, i as int),
        decreases n - i,
    {
        i = i + 1;
    }
    let mut j: usize = n;
    while j > i && char_is_white(s.get_char(j - 1))
        invariant
            n == s@.len(),
            0 <= i <= j <= n,
            i == first_kept(s@, 0),
            end_kept(s@, i as int, n as int) == end_kept(s@, i as int, j as int),
        decreases j - i,
    {
        j = j - 1;
    }
    s.substring_char(i, j)
}

/// `p` occurs in `s` starting at index `i`.
pub open spec fn occurs_at(s: Seq<char>, p: Seq<char>, i: int) -> bool {
    0 <= i && i + p.len() <= s.len() && s.subrange(i, i + p.len()) == p
}

pub open spec fn contains_seq(s: Seq<char>, p: Seq<char>) -> bool {
    exists|i: int| occurs_at(s, p, i)
}

pub open spec fn starts_with_seq(s: Seq<char>, p: Seq<char>) -> bool {
    occurs_at(s, p, 0)
}

/// Whether `p` occurs in `s` at index `i`.
pub fn matches_at(s: &str, p: &str, i: usize) -> (r: bool)
    requires
        i <= s@.len(),
    ensures
        r == occurs_at(s@, p@, i as int),
{
    let n = s.unicode_len();
    let m = p.unicode_len();
    if m > n - i {
        return false;
    }
    let mut k: usize = 0;
    while k < m
        invariant
            n == s@.len(),
            m == p@.len(),
            i + m <= n,
            0 <= k <= m,
            forall|t: int| 0 <= t < k ==> s@[i + t] == p@[t],
        decreases m - k,
    {
        if s.get_char(i + k) != p.get_char(k) {
            assert(s@.subrange(i as int, i + m)[k as int] != p@[k as int]);
            return false;
        }
        k = k + 1;
    }
    assert(s@.subrange(i as int, i + m) =~= p@);
    true
}

/// `str::contains` with a `str` pattern.
pub fn contains(s: &str, p: &str) -> (r: bool)
    ensures
        r == contains_seq(s@, p@),
{
    let n = s.unicode_len();
    let mut i: usize = 0;
    while i < n
        invariant
            n == s@.len(),
            0 <= i <= n,
            forall|t: int| 0 <= t < i ==> !occurs_at(s@, p@, t),
        decreases n - i,
    {
        if matches_at(s, p, i) {
            return true;
        }
        i = i + 1;
    }
    if matches_at(s, p, n) {
        return true;
    }
    assert forall|t: int| !occurs_at(s@, p@, t) by {
        if 0 <= t && t + p@.len() <= s@.len() {
            assert(t <= n);
        }
    }
    false
}

/// `str::starts_with` with a `str` pattern.
pub fn starts_with(s: &str, p: &str) -> (r: bool)
    ensures
        r == starts_with_seq(s@, p@),
{
    matches_at(s, p, 0)
}

/// Whether two texts are equal.
pub fn same_text(a: &str, b: &str) -> (r: bool)
    ensures
        r == (a@ == b@),
{
    if a.unicode_len() != b.unicode_len() {
        return false;
    }
    let r = matches_at(a, b, 0);
    assert(a@.subrange(0, b@.len() as int) =~= a@);
    r
}

/// `s` with every occurrence of `from`, found left to right without
/// overlap from index `i` on, replaced by `to`.
pub open spec fn replace_from(s: Seq<char>, from: Seq<char>, to: Seq<char>, i: int) -> Seq<char>
    decreases s.len() - i,
{
    if i < 0 || i >= s.len() {
        Seq::<char>::empty()
    } else if from.len() > 0 && occurs_at(s, from, i) {
        to + replace_from(s, from, to, i + from.len())
    } else {
        seq![s[i]] + replace_from(s, from, to, i + 1)
    }
}

/// `str::replace` with a non-empty pattern.
pub fn replace_all(s: &str, from: &str, to: &str) -> (r: String)
    requires
        from@.len() > 0,
    ensures
        r@ == replace_from(s@, from@, to@, 0),
{
    let n = s.unicode_len();
    let m = from.unicode_len();
    let mut out = String::new();
    let mut i: usize = 0;
    while i < n
        invariant
            n == s@.len(),
            m == from@.len(),
            m > 0,
            0 <= i <= n,
            replace_from(s@, from@, to@, 0) == out@ + replace_from(s@, from@, to@, i as int),
        decreases n - i,
    {
        let ghost prev = out@;
        if matches_at(s, from, i) {
            out.append(to);
            assert(prev + replace_from(s@, from@, to@, i as int) =~= out@ + replace_from(s@, from@, to@, i + m));
            i = i + m;
        } else {
            let c = s.substring_char(i, i + 1);
            assert(c@ =~= seq![s@[i as int]]);
            out.append(c);
            assert(prev + replace_from(s@, from@, to@, i as int) =~= out@ + replace_from(s@, from@, to@, i + 1));
            i = i + 1;
        }
    }
    assert(out@ + replace_from(s@, from@, to@, i as int) =~= out@);
    out
}

/// Drops one trailing carriage return.
pub open spec fn strip_cr(l: Seq<char>) -> Seq<char> {
    if l.len() > 0 && l.last() == '\r' {
        l.drop_last()
    } else {
        l
    }
}

/// The lines of `s` as `str::lines` gives them: split at `\n`, a `\r`
/// before the `\n` dropped, and no empty last line after a final `\n`.
pub open spec fn lines_view(s: Seq<char>) -> Seq<Seq<char>> {
    let p = split_view(s, '\n');
    let body = p.drop_last().map_values(|l: Seq<char>| strip_cr(l));
    if p.last().len() == 0 {
        body
    } else {
        body.push(p.last())
    }
}

/// `str::lines`, as owned strings.
pub fn lines(s: &str) -> (r: Vec<String>)
    ensures
        r@.map_values(|x: String| x@) == lines_view(s@),
{
    let n = s.unicode_len();
    let ghost t = s@;
    let ghost mut done: Seq<Seq<char>> = Seq::empty();
    let mut out: Vec<String> = Vec::new();
    let mut start: usize = 0;
    let mut i: usize = 0;
    assert(t.take(0) =~= Seq::<char>::empty());
    assert(t.subrange(0, 0) =~= Seq::<char>::empty());
    while i < n
        invariant
            n == t.len(),
            t == s@,
            0 <= start <= i <= n,
            split_view(t.take(i as int), '\n') == done.push(t.subrange(start as int, i as int)),
            out@.map_values(|x: String| x@) == done.map_values(|l: Seq<char>| strip_cr(l)),
            out@.len() == done.len(),
        decreases n - i,
    {
        let c = s.get_char(i);
        assert(t.take(i + 1).drop_last() =~= t.take(i as int));
        assert(t.take(i + 1).last() == c);
        if c == '\n' {
            let ghost piece = t.subrange(start as int, i as int);
            let mut end = i;
            if end > start && s.get_char(end - 1) == '\r' {
                end = end - 1;
            }
            let line = s.substring_char(start, end);
            assert(line@ =~= strip_cr(piece));
            let ghost prev = out@;
            let ls = String::from_str(line);
            out.push(ls);
            proof {
                let old_done = done;
                done = done.push(piece);
                assert(out@ == prev.push(ls));
                let a = out@.map_values(|x: String| x@);
                let b = done.map_values(|l: Seq<char>| strip_cr(l));
                let pa = prev.map_values(|x: String| x@);
                let pb = old_done.map_values(|l: Seq<char>| strip_cr(l));
                assert forall|j: int| 0 <= j < a.len() implies #[trigger] a[j] == b[j] by {
                    if j < prev.len() {
                        assert(pa[j] == pb[j]);
                        assert(a[j] == pa[j]);
                        assert(b[j] == pb[j]);
                    }
                }
                assert(out@.map_values(|x: String| x@) =~= done.map_values(|l: Seq<char>| strip_cr(l)));
            }
            start = i + 1;
            assert(t.subrange(start as int, i + 1) =~= Seq::<char>::empty());
        } else {
            assert(t.subrange(start as int, i as int).push(c) =~= t.subrange(start as int, i + 1));
        }
        i = i + 1;
    }
    assert(t.take(n as int) =~= t);
    let ghost p = done.push(t.subrange(start as int, n as int));
    assert(p.drop_last() =~= done);
    if start < n {
        let last = s.substring_char(start, n);
        out.push(String::from_str(last));
        assert(out@.map_values(|x: String| x@) =~= lines_view(t));
    } else {
        assert(out@.map_values(|x: String| x@) =~= lines_view(t));
    }
    out
}

/// The lines each followed by `\n`: what `join("\n")` and a final `\n`
/// give for a non-empty list, and nothing for an empty one.
pub open spec fn block(ls: Seq<Seq<char>>) -> Seq<char>
    decreases ls.len(),
{
    if ls.len() == 0 {
        Seq::<char>::empty()
    } else {
        block(ls.drop_last()) + ls.last() + "\n"@
    }
}

/// Writes out lines, each followed by `\n`.
pub fn block_of(ls: &Vec<String>) -> (r: String)
    ensures
        r@ == block(ls@.map_values(|x: String| x@)),
{
    let ghost all = ls@.map_values(|x: String| x@);
    let mut out = String::new();
    let mut i: usize = 0;
    assert(all.take(0) =~= Seq::<Seq<char>>::empty());
    while i < ls.len()
        invariant
            all == ls@.map_values(|x: String| x@),
            0 <= i <= ls.len(),
            out@ == block(all.take(i as int)),
        decreases ls.len() - i,
    {
        assert(all.take(i + 1).drop_last() =~= all.take(i as int));
        assert(all.take(i + 1).last() == ls[i as int]@);
        out.append(ls[i].as_str());
        out.append("\n");
        i = i + 1;
    }
    assert(all.take(i as int) =~= all);
    out
}

/// The lines joined with `\n` between them, as `join("\n")` gives.
pub open spec fn joined(ls: Seq<Seq<char>>) -> Seq<char>
    decreases ls.len(),
{
    if ls.len() == 0 {
        Seq::<char>::empty()
    } else if ls.len() == 1 {
        ls[0]
    } else {
        joined(ls.drop_last()) + "\n"@ + ls.last()
    }
}

/// `join("\n")` over lines.
pub fn join_lines(ls: &Vec<String>) -> (r: String)
    ensures
        r@ == joined(ls@.map_values(|x: String| x@)),
{
    let ghost all = ls@.map_values(|x: String| x@);
    let mut out = String::new();
    let mut i: usize = 0;
    assert(all.take(0) =~= Seq::<Seq<char>>::empty());
    while i < ls.len()
        invariant
            all == ls@.map_values(|x: String| x@),
            0 <= i <= ls.len(),
            out@ == joined(all.take(i as int)),
        decreases ls.len() - i,
    {
        assert(all.take(i + 1).drop_last() =~= all.take(i as int));
        assert(all.take(i + 1).last() == ls[i as int]@);
        if i > 0 {
            out.append("\n");
        } else {
            assert(out@ =~= Seq::<char>::empty());
            assert(all.take(1)[0] == ls[0]@);
        }
        out.append(ls[i].as_str());
        i = i + 1;
    }
    assert(all.take(i as int) =~= all);
    out
}

} // verus!
