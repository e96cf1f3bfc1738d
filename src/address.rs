//! Dotted-quad addresses: parsing, validity, private ranges, and picking the
//! overlay address out of the tunnel daemon's output.
use vstd::prelude::*;
use vstd::string::*;
use crate::text::{contains, contains_seq};

verus! {

/// The pieces of `s` between occurrences of `sep`, as `str::split` gives them.
pub open spec fn split_view(s: Seq<char>, sep: char) -> Seq<Seq<char>>
    decreases s.len(),
{
    if s.len() == 0 {
        seq![Seq::<char>::empty()]
    } else {
        let p = split_view(s.drop_last(), sep);
        if s.last() == sep {
            p.push(Seq::<char>::empty())
        } else {
            p.update(p.len() - 1, p.last().push(s.last()))
        }
    }
}

pub open spec fn is_digit(c: char) -> bool {
    '0' <= c && c <= '9'
}

pub open spec fn all_digits(d: Seq<char>) -> bool {
    forall|i: int| 0 <= i < d.len() ==> is_digit(#[trigger] d[i])
}

/// Decimal value of a run of digits.
pub open spec fn digits_value(d: Seq<char>) -> nat
    decreases d.len(),
{
    if d.len() == 0 {
        0
    } else {
        digits_value(d.drop_last()) * 10 + ((d.last() as u32) as int - 48) as nat
    }
}

/// The value of one piece of a dotted quad: one or more decimal digits,
/// nothing else, whose value is at most 255.
pub open spec fn parse_u8_view(p: Seq<char>) -> Option<u8> {
    if p.len() > 0 && all_digits(p) && digits_value(p) <= 255 {
        Some(digits_value(p) as u8)
    } else {
        None
    }
}

/// The values of the pieces that are decimal octets, in order.
pub open spec fn parsed_octets(parts: Seq<Seq<char>>) -> Seq<u8>
    decreases parts.len(),
{
    if parts.len() == 0 {
        Seq::<u8>::empty()
    } else {
        let r = parsed_octets(parts.drop_last());
        match parse_u8_view(parts.last()) {
            Some(v) => r.push(v),
            None => r,
        }
    }
}

pub open spec fn octets_of(s: Seq<char>) -> Seq<u8> {
    parsed_octets(split_view(s, '.'))
}

/// Four dot-separated pieces, each a decimal octet.
pub open spec fn is_valid_ip_view(s: Seq<char>) -> bool {
    let parts = split_view(s, '.');
    parts.len() == 4 && forall|i: int| 0 <= i < 4 ==> (#[trigger] parse_u8_view(parts[i])) is Some
}

pub open spec fn is_loopback_view(s: Seq<char>) -> bool {
    let o = octets_of(s);
    o.len() == 4 && o[0] == 127
}

/// 10.0.0.0/8, 172.16.0.0/12 or 192.168.0.0/16.
pub open spec fn is_private_view(s: Seq<char>) -> bool {
    let o = octets_of(s);
    o.len() == 4 && (o[0] == 10 || (o[0] == 172 && 16 <= o[1] <= 31) || (o[0] == 192 && o[1]
        == 168))
}

/// An address the overlay may have assigned: well formed, private, not
/// loopback, and naming a host (last octet 1 to 254).
pub open spec fn is_usable_view(s: Seq<char>) -> bool {
    is_host_view(s) && is_private_view(s) && !is_loopback_view(s)
}

/// A well-formed address whose last octet names a host (1 to 254).
pub open spec fn is_host_view(s: Seq<char>) -> bool {
    is_valid_ip_view(s) && 1 <= octets_of(s)[3] <= 254
}

proof fn lemma_digits_prefix(d: Seq<char>, k: int)
    requires
        0 <= k <= d.len(),
        all_digits(d),
    ensures
        digits_value(d.take(k)) <= digits_value(d),
    decreases d.len(),
{
    if k < d.len() {
        lemma_digits_prefix(d.drop_last(), k);
        assert(d.drop_last().take(k) =~= d.take(k));
    } else {
        assert(d.take(k) =~= d);
    }
}

/// Parses `s[a..b]` as one piece of a dotted quad.
fn parse_u8_range(s: &str, a: usize, b: usize) -> (r: Option<u8>)
    requires
        a <= b <= s@.len(),
    ensures
        r == parse_u8_view(s@.subrange(a as int, b as int)),
{
    let start = a;
    let ghost d = s@.subrange(start as int, b as int);
    if start == b {
        return None;
    }
    let mut acc: u32 = 0;
    let mut k: usize = start;
    while k < b
        invariant
            a <= start <= k <= b <= s@.len(),
            start == a,
            d == s@.subrange(start as int, b as int),
            d.len() > 0,
            all_digits(d.take(k - start)),
            acc as nat == digits_value(d.take(k - start)),
            acc <= 255,
        decreases b - k,
    {
        let c = s.get_char(k);
        if !('0' <= c && c <= '9') {
            assert(d[k - start] == c);
            assert(!is_digit(d[k - start]));
            return None;
        }
        let ghost prev = d.take(k - start);
        let dv = (c as u32) - 48;
        acc = acc * 10 + dv;
        assert(d.take(k + 1 - start).drop_last() =~= prev);
        assert(d.take(k + 1 - start).last() == c);
        k = k + 1;
        if acc > 255 {
            proof {
                if all_digits(d) {
                    lemma_digits_prefix(d, k - start);
                }
            }
            return None;
        }
    }
    assert(d.take(k - start) =~= d);
    Some(acc as u8)
}

/// Splits `ip` on dots: the number of dots, the values of the pieces that
/// are decimal octets, and whether every piece is one.
fn scan_octets(ip: &str) -> (r: (usize, Vec<u8>, bool))
    ensures
        r.0 + 1 == split_view(ip@, '.').len(),
        r.1@ == octets_of(ip@),
        r.2 == forall|i: int|
            0 <= i < split_view(ip@, '.').len() ==> (#[trigger] parse_u8_view(
                split_view(ip@, '.')[i],
            )) is Some,
{
    let n = ip.unicode_len();
    let ghost s = ip@;
    let ghost mut done: Seq<Seq<char>> = Seq::empty();
    let mut dots: usize = 0;
    let mut vals: Vec<u8> = Vec::new();
    let mut all_ok = true;
    let mut start: usize = 0;
    let mut i: usize = 0;
    assert(s.take(0) =~= Seq::<char>::empty());
    assert(s.subrange(0, 0) =~= Seq::<char>::empty());
    while i < n
        invariant
            n == s.len(),
            s == ip@,
            0 <= start <= i <= n,
            dots == done.len(),
            dots <= i,
            split_view(s.take(i as int), '.') == done.push(s.subrange(start as int, i as int)),
            vals@ == parsed_octets(done),
            all_ok == forall|j: int| 0 <= j < done.len() ==> (#[trigger] parse_u8_view(done[j])) is Some,
        decreases n - i,
    {
        let c = ip.get_char(i);
        assert(s.take(i + 1).drop_last() =~= s.take(i as int));
        assert(s.take(i + 1).last() == c);
        if c == '.' {
            let v = parse_u8_range(ip, start, i);
            let ghost piece = s.subrange(start as int, i as int);
            let ghost old_done = done;
            proof {
                done = done.push(piece);
                assert(done.drop_last() =~= old_done);
            }
            match v {
                Some(x) => vals.push(x),
                None => {
                    all_ok = false;
                },
            }
            assert(all_ok == forall|j: int| 0 <= j < done.len() ==> (#[trigger] parse_u8_view(done[j])) is Some) by {
                assert(done[done.len() - 1] == piece);
                assert forall|j: int| 0 <= j < old_done.len() implies done[j] == old_done[j] by {}
            }
            dots = dots + 1;
            start = i + 1;
            assert(s.subrange(start as int, i + 1) =~= Seq::<char>::empty());
        } else {
            assert(s.subrange(start as int, i as int).push(c) =~= s.subrange(start as int, i + 1));
        }
        i = i + 1;
    }
    assert(s.take(n as int) =~= s);
    let v = parse_u8_range(ip, start, n);
    let ghost piece = s.subrange(start as int, n as int);
    let ghost parts = done.push(piece);
    assert(parts.drop_last() =~= done);
    match v {
        Some(x) => vals.push(x),
        None => {
            all_ok = false;
        },
    }
    assert(all_ok == forall|j: int| 0 <= j < parts.len() ==> (#[trigger] parse_u8_view(parts[j])) is Some) by {
        assert(parts[parts.len() - 1] == piece);
        assert forall|j: int| 0 <= j < done.len() implies parts[j] == done[j] by {}
    }
    (dots, vals, all_ok)
}

/// Whether `ip` is four dot-separated pieces, each a decimal octet.
pub fn is_valid_ip(ip: &str) -> (r: bool)
    ensures
        r == is_valid_ip_view(ip@),
{
    let (dots, _vals, all_ok) = scan_octets(ip);
    let ghost parts = split_view(ip@, '.');
    if dots == 3 && all_ok {
        true
    } else {
        if dots == 3 {
            assert(!(forall|i: int| 0 <= i < 4 ==> (#[trigger] parse_u8_view(parts[i])) is Some));
        }
        false
    }
}

/// Whether the pieces of `ip` that parse are four, the first being 127.
pub fn is_loopback(ip: &str) -> (r: bool)
    ensures
        r == is_loopback_view(ip@),
{
    let (_dots, vals, _all_ok) = scan_octets(ip);
    vals.len() == 4 && vals[0] == 127
}

/// Whether the pieces of `ip` that parse are four and fall in a private range.
pub fn is_private_ip(ip: &str) -> (r: bool)
    ensures
        r == is_private_view(ip@),
{
    let (_dots, vals, _all_ok) = scan_octets(ip);
    if vals.len() != 4 {
        return false;
    }
    vals[0] == 10 || (vals[0] == 172 && 16 <= vals[1] && vals[1] <= 31) || (vals[0] == 192
        && vals[1] == 168)
}

/// Whether `ip` is well formed and its last octet names a host (1 to 254).
pub fn is_host_address(ip: &str) -> (r: bool)
    ensures
        r == is_host_view(ip@),
{
    let (dots, vals, all_ok) = scan_octets(ip);
    if !(dots == 3 && all_ok) {
        proof {
            let parts = split_view(ip@, '.');
            if dots == 3 {
                assert(!(forall|i: int| 0 <= i < 4 ==> (#[trigger] parse_u8_view(parts[i])) is Some));
            }
        }
        return false;
    }
    proof {
        lemma_all_parse_keeps_all(split_view(ip@, '.'));
    }
    1 <= vals[3] && vals[3] <= 254
}

/// When every piece parses, no piece is dropped.
proof fn lemma_all_parse_keeps_all(parts: Seq<Seq<char>>)
    requires
        forall|i: int| 0 <= i < parts.len() ==> (#[trigger] parse_u8_view(parts[i])) is Some,
    ensures
        parsed_octets(parts).len() == parts.len(),
    decreases parts.len(),
{
    if parts.len() > 0 {
        let q = parts.drop_last();
        assert forall|i: int| 0 <= i < q.len() implies (#[trigger] parse_u8_view(q[i])) is Some by {
            assert(q[i] == parts[i]);
        }
        lemma_all_parse_keeps_all(q);
        assert(parse_u8_view(parts[parts.len() - 1]) is Some);
    }
}

/// The view of an optional string.
pub open spec fn opt_view(o: Option<String>) -> Option<Seq<char>> {
    match o {
        Some(s) => Some(s@),
        None => None,
    }
}

/// The successive non-overlapping matches of a regular expression in a text,
/// or `None` when the expression does not compile.
pub uninterp spec fn regex_find_all(pattern: Seq<char>, text: Seq<char>) -> Option<Seq<Seq<char>>>;

/// Relies on `regex::Regex::new` and `Regex::find_iter`: compiling `pattern`
/// and listing its leftmost-first, non-overlapping matches in `text`. Both
/// depend on the two strings alone.
#[verifier::external_body]
fn find_all_matches(pattern: &str, text: &str) -> (r: Option<Vec<String>>)
    ensures
        match r {
            Some(v) => regex_find_all(pattern@, text@) == Some(v@.map_values(|m: String| m@)),
            None => regex_find_all(pattern@, text@) is None,
        },
{
    match regex::Regex::new(pattern) {
        Ok(re) => Some(re.find_iter(text).map(|m| m.as_str().to_string()).collect()),
        Err(_) => None,
    }
}

/// A dotted quad standing as a word of its own.
pub const ADDRESS_PATTERN: &'static str = "\\b(\\d{1,3}\\.\\d{1,3}\\.\\d{1,3}\\.\\d{1,3})\\b";

/// The first candidate that is a usable overlay address.
pub open spec fn first_usable(ms: Seq<Seq<char>>) -> Option<Seq<char>>
    decreases ms.len(),
{
    if ms.len() == 0 {
        None
    } else if is_usable_view(ms[0]) {
        Some(ms[0])
    } else {
        first_usable(ms.drop_first())
    }
}

/// Whether `ip` is an address the overlay may have assigned.
pub fn is_usable_address(ip: &str) -> (r: bool)
    ensures
        r == is_usable_view(ip@),
{
    is_host_address(ip) && is_private_ip(ip) && !is_loopback(ip)
}

/// Picks, in order, the first candidate that is well formed, private, not
/// loopback, and names a host.
pub fn first_usable_address(candidates: &Vec<String>) -> (r: Option<String>)
    ensures
        opt_view(r) == first_usable(candidates@.map_values(|c: String| c@)),
{
    let ghost all = candidates@.map_values(|c: String| c@);
    let mut i: usize = 0;
    assert(all.skip(0) =~= all);
    while i < candidates.len()
        invariant
            all == candidates@.map_values(|c: String| c@),
            0 <= i <= candidates.len(),
            first_usable(all) == first_usable(all.skip(i as int)),
        decreases candidates.len() - i,
    {
        let c = &candidates[i];
        assert(all.skip(i as int)[0] == c@);
        assert(all.skip(i as int).drop_first() =~= all.skip(i + 1));
        if is_usable_address(c.as_str()) {
            return Some(c.clone());
        }
        i = i + 1;
    }
    assert(all.skip(i as int).len() == 0);
    None
}

/// What `extract_ip_from_line` yields for `line`.
pub open spec fn extracted_address(line: Seq<char>) -> Option<Seq<char>> {
    match regex_find_all(ADDRESS_PATTERN@, line) {
        Some(ms) => first_usable(ms),
        None => None,
    }
}

/// The first dotted quad in `line` that is a usable overlay address.
pub fn extract_ip_from_line(line: &str) -> (r: Option<String>)
    ensures
        opt_view(r) == extracted_address(line@),
{
    match find_all_matches(ADDRESS_PATTERN, line) {
        Some(found) => first_usable_address(&found),
        None => None,
    }
}

/// A line that announces an address: it speaks of a virtual, assigned or
/// DHCP address (judged on its lower-case form `lower`).
pub open spec fn announces_address(lower: Seq<char>) -> bool {
    contains_seq(lower, "virtual ip"@) || contains_seq(lower, "assigned ip"@) || contains_seq(
        lower,
        "dhcp"@,
    ) || contains_seq(lower, "got ip"@) || contains_seq(lower, "ipv4 address"@) || contains_seq(
        lower,
        "ip addr"@,
    ) || contains_seq(lower, "my ipv4"@) || (contains_seq(lower, "ipv4"@) && contains_seq(
        lower,
        "="@,
    ))
}

/// A line that echoes configuration rather than reporting an assignment.
pub open spec fn echoes_config(line: Seq<char>) -> bool {
    contains_seq(line, "local_addr"@) || contains_seq(line, "local:"@) || contains_seq(
        line,
        "ipv4 = \""@,
    ) || contains_seq(line, "listeners"@)
}

/// The address that an output line of the daemon reports, given the line and
/// its lower-case form.
pub open spec fn reported_address(line: Seq<char>, lower: Seq<char>) -> Option<Seq<char>> {
    if announces_address(lower) && !echoes_config(line) {
        extracted_address(line)
    } else {
        None
    }
}

/// Decides whether a daemon output line, whose lower-case form is `lower`,
/// reports the assigned address, and returns it.
pub fn address_in_output_line(line: &str, lower: &str) -> (r: Option<String>)
    ensures
        opt_view(r) == reported_address(line@, lower@),
{
    let announces = contains(lower, "virtual ip") || contains(lower, "assigned ip") || contains(
        lower,
        "dhcp",
    ) || contains(lower, "got ip") || contains(lower, "ipv4 address") || contains(
        lower,
        "ip addr",
    ) || contains(lower, "my ipv4") || (contains(lower, "ipv4") && contains(lower, "="));
    let echo = contains(line, "local_addr") || contains(line, "local:") || contains(
        line,
        "ipv4 = \"",
    ) || contains(line, "listeners");
    if !announces || echo {
        return None;
    }
    extract_ip_from_line(line)
}

/// Lower-case form of a text, as `str::to_lowercase` gives it.
pub uninterp spec fn lower_of(s: Seq<char>) -> Seq<char>;

/// Relies on `str::to_lowercase`: the lower-case mapping of each character,
/// which depends on the text alone.
#[verifier::external_body]
fn lowercase(s: &str) -> (r: String)
    ensures
        r@ == lower_of(s@),
{
    s.to_lowercase()
}

/// The address that a line of the daemon's standard output reports, if any.
pub fn address_from_log_line(line: &str) -> (r: Option<String>)
    ensures
        opt_view(r) == reported_address(line@, lower_of(line@)),
{
    let lower = lowercase(line);
    address_in_output_line(line, lower.as_str())
}

/// A line on the daemon's error stream saying that the virtual adapter could
/// not be created.
pub open spec fn is_fatal_view(line: Seq<char>) -> bool {
    (contains_seq(line, "error"@) || contains_seq(line, "Error"@) || contains_seq(line, "ERROR"@))
        && (contains_seq(line, "tun device error"@) || contains_seq(
        line,
        "Failed to create adapter"@,
    ))
}

/// Whether an error-stream line of the daemon is fatal to bring-up.
pub fn is_fatal_error_line(line: &str) -> (r: bool)
    ensures
        r == is_fatal_view(line@),
{
    (contains(line, "error") || contains(line, "Error") || contains(line, "ERROR")) && (contains(
        line,
        "tun device error",
    ) || contains(line, "Failed to create adapter"))
}

} // verus!
