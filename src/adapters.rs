//! Reading the system tools' listings of network adapters, to find the
//! virtual adapters the tunnel daemon leaves behind.
use vstd::prelude::*;
use vstd::string::*;
use crate::text::{char_is_white, contains, contains_seq, is_white, lines, lines_view, same_text, trim, trimmed};

verus! {

/// Index of the first `:` at or after `i`, or the length.
pub open spec fn colon_at(s: Seq<char>, i: int) -> int
    decreases s.len() - i,
{
    if 0 <= i < s.len() && s[i] != ':' {
        colon_at(s, i + 1)
    } else {
        i
    }
}

/// The text between the first and the second `:` of a line, trimmed; empty
/// when the line has no `:` (`split(':').nth(1)`, then `trim`).
pub open spec fn second_field(line: Seq<char>) -> Seq<char> {
    let a = colon_at(line, 0);
    if a >= line.len() {
        Seq::<char>::empty()
    } else {
        trimmed(line.subrange(a + 1, colon_at(line, a + 1)))
    }
}

proof fn lemma_colon_at(s: Seq<char>, i: int)
    requires
        0 <= i <= s.len(),
    ensures
        i <= colon_at(s, i) <= s.len(),
    decreases s.len() - i,
{
    if i < s.len() && s[i] != ':' {
        lemma_colon_at(s, i + 1);
    }
}

/// Index of the first `:` at or after `i`, or the length.
fn find_colon(s: &str, i: usize) -> (r: usize)
    requires
        i <= s@.len(),
    ensures
        r == colon_at(s@, i as int),
{
    let n = s.unicode_len();
    let mut j = i;
    while j < n && s.get_char(j) != ':'
        invariant
            n == s@.len(),
            i <= j <= n,
            colon_at(s@, i as int) == colon_at(s@, j as int),
        decreases n - j,
    {
        j = j + 1;
    }
    j
}

/// The trimmed text between the first and second `:` of `line`.
pub fn second_field_of(line: &str) -> (r: String)
    ensures
        r@ == second_field(line@),
{
    let n = line.unicode_len();
    let a = find_colon(line, 0);
    if a >= n {
        return String::new();
    }
    proof {
        lemma_colon_at(line@, a + 1);
    }
    let b = find_colon(line, a + 1);
    let piece = line.substring_char(a + 1, b);
    String::from_str(trim(piece))
}

/// A line naming a device instance.
pub open spec fn names_instance(l: Seq<char>) -> bool {
    contains_seq(l, "Instance ID:"@) || contains_seq(l, "实例 ID:"@)
}

/// A line mentioning the WinTun driver.
pub open spec fn mentions_wintun(l: Seq<char>) -> bool {
    contains_seq(l, "WinTun"@) || contains_seq(l, "wintun"@)
}

/// The device ids found so far and the instance id last seen, after the
/// lines `ls` of a device listing.
pub open spec fn device_scan(ls: Seq<Seq<char>>) -> (Seq<Seq<char>>, Seq<char>)
    decreases ls.len(),
{
    if ls.len() == 0 {
        (Seq::empty(), Seq::empty())
    } else {
        let (ids, cur) = device_scan(ls.drop_last());
        let l = ls.last();
        let cur1 = if names_instance(l) {
            second_field(l)
        } else {
            cur
        };
        if mentions_wintun(l) && cur1.len() > 0 {
            (ids.push(cur1), Seq::empty())
        } else {
            (ids, cur1)
        }
    }
}

/// The ids of the WinTun devices in a `pnputil /enum-devices` listing: each
/// is the last instance id named before a line mentioning WinTun.
pub fn wintun_device_ids(output: &str) -> (r: Vec<String>)
    ensures
        r@.map_values(|x: String| x@) == device_scan(lines_view(output@)).0,
{
    let ls = lines(output);
    let ghost all = ls@.map_values(|x: String| x@);
    let mut ids: Vec<String> = Vec::new();
    let mut cur = String::new();
    let mut i: usize = 0;
    assert(all.take(0) =~= Seq::<Seq<char>>::empty());
    assert(ids@.map_values(|x: String| x@) =~= Seq::<Seq<char>>::empty());
    while i < ls.len()
        invariant
            all == ls@.map_values(|x: String| x@),
            0 <= i <= ls.len(),
            device_scan(all.take(i as int)) == (ids@.map_values(|x: String| x@), cur@),
        decreases ls.len() - i,
    {
        assert(all.take(i + 1).drop_last() =~= all.take(i as int));
        assert(all.take(i + 1).last() == ls[i as int]@);
        let l = ls[i].as_str();
        if contains(l, "Instance ID:") || contains(l, "实例 ID:") {
            cur = second_field_of(l);
        }
        if (contains(l, "WinTun") || contains(l, "wintun")) && cur.as_str().unicode_len() > 0 {
            ids.push(cur);
            cur = String::new();
        }
        assert(ids@.map_values(|x: String| x@) =~= device_scan(all.take(i + 1)).0);
        i = i + 1;
    }
    assert(all.take(i as int) =~= all);
    ids
}

/// The white-space separated words of `s`, as `str::split_whitespace`
/// gives them.
pub open spec fn words(s: Seq<char>) -> Seq<Seq<char>>
    decreases s.len(),
{
    if s.len() == 0 {
        Seq::<Seq<char>>::empty()
    } else {
        let w = words(s.drop_last());
        let c = s.last();
        if is_white(c) {
            w
        } else if s.len() >= 2 && !is_white(s[s.len() - 2]) {
            w.update(w.len() - 1, w.last().push(c))
        } else {
            w.push(seq![c])
        }
    }
}

/// `str::split_whitespace`, as owned strings.
pub fn split_words(s: &str) -> (r: Vec<String>)
    ensures
        r@.map_values(|x: String| x@) == words(s@),
{
    let n = s.unicode_len();
    let ghost t = s@;
    let mut done: Vec<String> = Vec::new();
    let mut in_word = false;
    let mut start: usize = 0;
    let mut i: usize = 0;
    assert(t.take(0) =~= Seq::<char>::empty());
    assert(done@.map_values(|x: String| x@) =~= Seq::<Seq<char>>::empty());
    while i < n
        invariant
            n == t.len(),
            t == s@,
            0 <= start <= i <= n,
            in_word == (i > 0 && !is_white(t[i - 1])),
            in_word ==> start < i,
            words(t.take(i as int)) == (if in_word {
                done@.map_values(|x: String| x@).push(t.subrange(start as int, i as int))
            } else {
                done@.map_values(|x: String| x@)
            }),
        decreases n - i,
    {
        let c = s.get_char(i);
        assert(t.take(i + 1).drop_last() =~= t.take(i as int));
        assert(t.take(i + 1).last() == c);
        if i > 0 {
            assert(t.take(i + 1)[i - 1] == t[i - 1]);
        }
        let ghost prev = done@.map_values(|x: String| x@);
        if char_is_white(c) {
            if in_word {
                let w = s.substring_char(start, i);
                done.push(String::from_str(w));
                assert(done@.map_values(|x: String| x@) =~= prev.push(t.subrange(start as int, i as int)));
            }
            in_word = false;
        } else {
            if in_word {
                assert(t.subrange(start as int, i as int).push(c) =~= t.subrange(start as int, i + 1));
            } else {
                start = i;
                assert(t.subrange(start as int, i + 1) =~= seq![c]);
            }
            in_word = true;
        }
        i = i + 1;
    }
    assert(t.take(n as int) =~= t);
    if in_word {
        let ghost prev = done@.map_values(|x: String| x@);
        let w = s.substring_char(start, n);
        done.push(String::from_str(w));
        assert(done@.map_values(|x: String| x@) =~= prev.push(t.subrange(start as int, n as int)));
    }
    done
}

/// The adapter a line of `netsh interface show interface` names, when the
/// line mentions the tunnel's adapters: its last word, if the line has at
/// least three and that word is not a column heading.
pub open spec fn adapter_of(l: Seq<char>) -> Option<Seq<char>> {
    if contains_seq(l, "WinTun"@) || contains_seq(l, "EasyTier"@) || contains_seq(l, "wintun"@) {
        let w = words(l);
        if w.len() >= 3 && w.last().len() > 0 && w.last() != "Type"@ && w.last() != "Interface"@ {
            Some(w.last())
        } else {
            None
        }
    } else {
        None
    }
}

/// The adapters named by the lines `ls`, in order.
pub open spec fn adapters_in(ls: Seq<Seq<char>>) -> Seq<Seq<char>>
    decreases ls.len(),
{
    if ls.len() == 0 {
        Seq::<Seq<char>>::empty()
    } else {
        match adapter_of(ls.last()) {
            Some(a) => adapters_in(ls.drop_last()).push(a),
            None => adapters_in(ls.drop_last()),
        }
    }
}

/// The tunnel's adapters in a `netsh interface show interface` listing.
pub fn tunnel_adapter_names(output: &str) -> (r: Vec<String>)
    ensures
        r@.map_values(|x: String| x@) == adapters_in(lines_view(output@)),
{
    let ls = lines(output);
    let ghost all = ls@.map_values(|x: String| x@);
    let mut names: Vec<String> = Vec::new();
    let mut i: usize = 0;
    assert(all.take(0) =~= Seq::<Seq<char>>::empty());
    assert(names@.map_values(|x: String| x@) =~= Seq::<Seq<char>>::empty());
    while i < ls.len()
        invariant
            all == ls@.map_values(|x: String| x@),
            0 <= i <= ls.len(),
            names@.map_values(|x: String| x@) == adapters_in(all.take(i as int)),
        decreases ls.len() - i,
    {
        assert(all.take(i + 1).drop_last() =~= all.take(i as int));
        assert(all.take(i + 1).last() == ls[i as int]@);
        let l = ls[i].as_str();
        if contains(l, "WinTun") || contains(l, "EasyTier") || contains(l, "wintun") {
            let w = split_words(l);
            let k = w.len();
            if k >= 3 {
                assert(w@.map_values(|x: String| x@).last() == w[k - 1]@);
                let last = w[k - 1].as_str();
                if last.unicode_len() > 0 && !same_text(last, "Type") && !same_text(last, "Interface") {
                    names.push(String::from_str(last));
                }
            }
        }
        assert(names@.map_values(|x: String| x@) =~= adapters_in(all.take(i + 1)));
        i = i + 1;
    }
    assert(all.take(i as int) =~= all);
    names
}

} // verus!
