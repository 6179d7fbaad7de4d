//! Release version comparison for the in-app updater.
//!
//! A version is read as its dot-separated numeric components: surrounding
//! whitespace and any leading `v`/`V` are ignored, each component counts by
//! its leading decimal digits, and components without digits (or too large
//! for 32 bits) are dropped. Shorter versions are padded with zeros, so
//! `0.2` and `0.2.0.0` are the same release.
use vstd::prelude::*;

verus! {

broadcast use vstd::string::group_string_axioms;

/// Unicode `White_Space`, as `char::is_whitespace` tests it.
pub open spec fn is_white_space(c: char) -> bool {
    let u = c as u32;
    (0x09 <= u <= 0x0D) || u == 0x20 || u == 0x85 || u == 0xA0 || u == 0x1680 || (0x2000 <= u
        <= 0x200A) || u == 0x2028 || u == 0x2029 || u == 0x202F || u == 0x205F || u == 0x3000
}

pub open spec fn is_ascii_digit(c: char) -> bool {
    '0' <= c && c <= '9'
}

pub open spec fn digit_value(c: char) -> int {
    c as int - '0' as int
}

pub open spec fn trim_start_white(s: Seq<char>) -> Seq<char>
    decreases s.len(),
{
    if s.len() > 0 && is_white_space(s[0]) {
        trim_start_white(s.drop_first())
    } else {
        s
    }
}

pub open spec fn trim_end_white(s: Seq<char>) -> Seq<char>
    decreases s.len(),
{
    if s.len() > 0 && is_white_space(s.last()) {
        trim_end_white(s.drop_last())
    } else {
        s
    }
}

pub open spec fn trim_start_v(s: Seq<char>) -> Seq<char>
    decreases s.len(),
{
    if s.len() > 0 && (s[0] == 'v' || s[0] == 'V') {
        trim_start_v(s.drop_first())
    } else {
        s
    }
}

/// The version text proper: whitespace trimmed, then leading `v`/`V` removed.
pub open spec fn version_text(s: Seq<char>) -> Seq<char> {
    trim_start_v(trim_end_white(trim_start_white(s)))
}

/// `s` split at every `.` (always at least one part).
pub open spec fn split_dots(s: Seq<char>) -> Seq<Seq<char>>
    decreases s.len(),
{
    if s.len() == 0 {
        seq![Seq::<char>::empty()]
    } else {
        let p = split_dots(s.drop_last());
        if s.last() == '.' {
            p.push(Seq::empty())
        } else {
            p.update(p.len() - 1, p.last().push(s.last()))
        }
    }
}

/// The longest prefix of `s` made of ASCII digits.
pub open spec fn leading_digits(s: Seq<char>) -> Seq<char>
    decreases s.len(),
{
    if s.len() == 0 {
        Seq::empty()
    } else {
        let p = leading_digits(s.drop_last());
        if p.len() == s.len() - 1 && is_ascii_digit(s.last()) {
            p.push(s.last())
        } else {
            p
        }
    }
}

/// The decimal value of a digit string.
pub open spec fn decimal_value(ds: Seq<char>) -> int
    decreases ds.len(),
{
    if ds.len() == 0 {
        0
    } else {
        decimal_value(ds.drop_last()) * 10 + digit_value(ds.last())
    }
}

/// The number a component stands for: its leading digits as a `u32`, or
/// nothing when it has none or they overflow.
pub open spec fn component_value(part: Seq<char>) -> Option<u32> {
    let ds = leading_digits(part);
    if ds.len() == 0 || decimal_value(ds) > u32::MAX {
        None
    } else {
        Some(decimal_value(ds) as u32)
    }
}

pub open spec fn components_of(parts: Seq<Seq<char>>) -> Seq<u32>
    decreases parts.len(),
{
    if parts.len() == 0 {
        Seq::empty()
    } else {
        components_of(parts.drop_last()) + match component_value(parts.last()) {
            Some(v) => seq![v],
            None => Seq::empty(),
        }
    }
}

/// The numeric components of a version string.
pub open spec fn version_components(s: Seq<char>) -> Seq<u32> {
    components_of(split_dots(version_text(s)))
}

/// Component `i`, zero past the end.
pub open spec fn padded(v: Seq<u32>, i: int) -> int {
    if 0 <= i < v.len() { v[i] as int } else { 0 }
}

/// `r` is greater than `c` comparing components `i..n`, first difference
/// deciding.
pub open spec fn greater_from(r: Seq<u32>, c: Seq<u32>, i: int, n: int) -> bool
    decreases n - i,
{
    if i >= n {
        false
    } else if padded(r, i) > padded(c, i) {
        true
    } else if padded(r, i) < padded(c, i) {
        false
    } else {
        greater_from(r, c, i + 1, n)
    }
}

/// `remote` names a strictly newer release than `current`.
pub open spec fn spec_is_newer_version(current: Seq<char>, remote: Seq<char>) -> bool {
    let c = version_components(current);
    let r = version_components(remote);
    let n = if c.len() >= r.len() { c.len() } else { r.len() };
    greater_from(r, c, 0, n as int)
}

/// The characters of a string slice, in order.
pub fn chars_of(s: &str) -> (v: Vec<char>)
    ensures
        v@ == s@,
{
    let mut v: Vec<char> = Vec::new();
    for c in it: s.chars()
        invariant
            v@ == it.seq().take(it.index()),
    {
        v.push(c);
    }
    v
}

fn white_space(c: char) -> (b: bool)
    ensures
        b == is_white_space(c),
{
    let u = c as u32;
    (0x09 <= u && u <= 0x0D) || u == 0x20 || u == 0x85 || u == 0xA0 || u == 0x1680 || (0x2000 <= u
        && u <= 0x200A) || u == 0x2028 || u == 0x2029 || u == 0x202F || u == 0x205F || u == 0x3000
}

proof fn lemma_split_nonempty(s: Seq<char>)
    ensures
        split_dots(s).len() >= 1,
    decreases s.len(),
{
    if s.len() > 0 {
        lemma_split_nonempty(s.drop_last());
    }
}

proof fn lemma_leading_digits_len(s: Seq<char>)
    ensures
        leading_digits(s).len() <= s.len(),
    decreases s.len(),
{
    if s.len() > 0 {
        lemma_leading_digits_len(s.drop_last());
    }
}

pub(crate) proof fn lemma_decimal_nonneg(ds: Seq<char>)
    requires
        forall|k: int| 0 <= k < ds.len() ==> is_ascii_digit(#[trigger] ds[k]),
    ensures
        decimal_value(ds) >= 0,
    decreases ds.len(),
{
    if ds.len() > 0 {
        lemma_decimal_nonneg(ds.drop_last());
    }
}

proof fn lemma_leading_digits_are_digits(s: Seq<char>)
    ensures
        forall|k: int| 0 <= k < leading_digits(s).len() ==> is_ascii_digit(#[trigger] leading_digits(s)[k]),
    decreases s.len(),
{
    if s.len() > 0 {
        let p = leading_digits(s.drop_last());
        lemma_leading_digits_are_digits(s.drop_last());
        if p.len() == s.len() - 1 && is_ascii_digit(s.last()) {
            assert forall|k: int| 0 <= k < leading_digits(s).len() implies is_ascii_digit(
                #[trigger] leading_digits(s)[k],
            ) by {
                if k < p.len() {
                    assert(leading_digits(s)[k] == p[k]);
                }
            }
        }
    }
}

/// The components of `chars[lo..hi]`, read as already-trimmed version text.
fn components_in(chars: &Vec<char>, lo: usize, hi: usize) -> (out: Vec<u32>)
    requires
        lo <= hi <= chars@.len(),
    ensures
        out@ == components_of(split_dots(chars@.subrange(lo as int, hi as int))),
{
    let ghost text = chars@.subrange(lo as int, hi as int);
    let mut done: Vec<u32> = Vec::new();
    let mut in_digits = true;
    let mut has_digit = false;
    let mut overflow = false;
    let mut value: u64 = 0;
    let mut i = lo;
    proof {
        assert(text.take(0) =~= Seq::<char>::empty());
        assert(split_dots(Seq::<char>::empty()).drop_last() =~= Seq::<Seq<char>>::empty());
    }
    while i < hi
        invariant
            lo <= i <= hi <= chars@.len(),
            text == chars@.subrange(lo as int, hi as int),
            ({
                let parts = split_dots(text.take(i - lo));
                let cur = parts.last();
                &&& parts.len() >= 1
                &&& done@ == components_of(parts.drop_last())
                &&& in_digits == (leading_digits(cur).len() == cur.len())
                &&& has_digit == (leading_digits(cur).len() > 0)
                &&& overflow == (decimal_value(leading_digits(cur)) > u32::MAX)
                &&& !overflow ==> value == decimal_value(leading_digits(cur))
            }),
        decreases hi - i,
    {
        let c = chars[i];
        let ghost t = text.take(i - lo);
        let ghost t2 = text.take(i + 1 - lo);
        let ghost parts = split_dots(t);
        let ghost cur = parts.last();
        proof {
            assert(t2.drop_last() =~= t);
            assert(t2.last() == c);
            lemma_split_nonempty(t);
            lemma_leading_digits_len(cur);
            lemma_leading_digits_are_digits(cur);
            lemma_decimal_nonneg(leading_digits(cur));
        }
        if c == '.' {
            if has_digit && !overflow {
                done.push(value as u32);
            }
            proof {
                assert(split_dots(t2) == parts.push(Seq::empty()));
                assert(split_dots(t2).drop_last() =~= parts);
                assert(parts =~= parts.drop_last().push(cur));
                assert(done@ =~= components_of(parts));
                assert(leading_digits(Seq::<char>::empty()) =~= Seq::<char>::empty());
            }
            in_digits = true;
            has_digit = false;
            overflow = false;
            value = 0;
        } else {
            let ghost cur2 = cur.push(c);
            proof {
                assert(split_dots(t2) == parts.update(parts.len() - 1, cur2));
                assert(split_dots(t2).drop_last() =~= parts.drop_last());
                assert(split_dots(t2).last() == cur2);
                assert(cur2.drop_last() =~= cur);
            }
            if in_digits && '0' <= c && c <= '9' {
                let d = (c as u32 - '0' as u32) as u64;
                has_digit = true;
                if !overflow {
                    value = value * 10 + d;
                    if value > 0xFFFF_FFFFu64 {
                        overflow = true;
                    }
                }
                proof {
                    assert(leading_digits(cur2) == leading_digits(cur).push(c));
                    assert(leading_digits(cur).push(c).drop_last() =~= leading_digits(cur));
                    assert(decimal_value(leading_digits(cur2)) == decimal_value(leading_digits(cur)) * 10
                        + digit_value(c));
                }
            } else {
                in_digits = false;
                proof {
                    assert(leading_digits(cur2) == leading_digits(cur));
                }
            }
        }
        i += 1;
    }
    proof {
        assert(text.take(hi - lo) =~= text);
    }
    let ghost parts = split_dots(text);
    if has_digit && !overflow {
        done.push(value as u32);
    }
    proof {
        lemma_split_nonempty(text);
        assert(parts =~= parts.drop_last().push(parts.last()));
        assert(done@ =~= components_of(parts));
    }
    done
}


/// The numeric components of a version written as characters.
fn parse_components(chars: &Vec<char>) -> (out: Vec<u32>)
    ensures
        out@ == version_components(chars@),
{
    let n = chars.len();
    let ghost cs = chars@;
    let mut lo: usize = 0;
    proof {
        assert(cs.skip(0) =~= cs);
    }
    while lo < n && white_space(chars[lo])
        invariant
            lo <= n == cs.len(),
            cs == chars@,
            trim_start_white(cs) == trim_start_white(cs.skip(lo as int)),
        decreases n - lo,
    {
        proof {
            assert(cs.skip(lo as int).drop_first() =~= cs.skip(lo + 1));
        }
        lo += 1;
    }
    proof {
        assert(trim_start_white(cs.skip(lo as int)) == cs.skip(lo as int));
        assert(cs.skip(lo as int) =~= cs.subrange(lo as int, n as int));
    }
    let mut hi: usize = n;
    while hi > lo && white_space(chars[hi - 1])
        invariant
            lo <= hi <= n == cs.len(),
            cs == chars@,
            trim_end_white(trim_start_white(cs)) == trim_end_white(cs.subrange(lo as int, hi as int)),
        decreases hi - lo,
    {
        proof {
            assert(cs.subrange(lo as int, hi as int).drop_last() =~= cs.subrange(lo as int, hi - 1));
        }
        hi -= 1;
    }
    proof {
        assert(trim_end_white(cs.subrange(lo as int, hi as int)) == cs.subrange(lo as int, hi as int));
    }
    let mut start = lo;
    while start < hi && (chars[start] == 'v' || chars[start] == 'V')
        invariant
            lo <= start <= hi <= n == cs.len(),
            cs == chars@,
            version_text(cs) == trim_start_v(cs.subrange(start as int, hi as int)),
        decreases hi - start,
    {
        proof {
            assert(cs.subrange(start as int, hi as int).drop_first() =~= cs.subrange(start + 1, hi as int));
        }
        start += 1;
    }
    proof {
        assert(trim_start_v(cs.subrange(start as int, hi as int)) == cs.subrange(start as int, hi as int));
    }
    components_in(chars, start, hi)
}

/// Compares two versions; true when `remote` is strictly newer than
/// `current`.
pub fn is_newer_version(current: &str, remote: &str) -> (newer: bool)
    ensures
        newer == spec_is_newer_version(current@, remote@),
{
    let current_chars = chars_of(current);
    let remote_chars = chars_of(remote);
    is_newer_chars(&current_chars, &remote_chars)
}

/// [`is_newer_version`] on versions written as characters.
pub fn is_newer_chars(current: &Vec<char>, remote: &Vec<char>) -> (newer: bool)
    ensures
        newer == spec_is_newer_version(current@, remote@),
{
    let cur = parse_components(current);
    let rem = parse_components(remote);
    let n = if cur.len() >= rem.len() { cur.len() } else { rem.len() };
    let mut i: usize = 0;
    while i < n
        invariant
            i <= n,
            cur@ == version_components(current@),
            rem@ == version_components(remote@),
            n == (if cur@.len() >= rem@.len() { cur@.len() } else { rem@.len() }),
            greater_from(rem@, cur@, 0, n as int) == greater_from(rem@, cur@, i as int, n as int),
        decreases n - i,
    {
        let r: u32 = if i < rem.len() { rem[i] } else { 0 };
        let c: u32 = if i < cur.len() { cur[i] } else { 0 };
        proof {
            assert(padded(rem@, i as int) == r as int);
            assert(padded(cur@, i as int) == c as int);
        }
        if r > c {
            assert(greater_from(rem@, cur@, i as int, n as int));
            return true;
        }
        if r < c {
            assert(!greater_from(rem@, cur@, i as int, n as int));
            return false;
        }
        i += 1;
    }
    false
}


proof fn lemma_greater_from_asymmetric(a: Seq<u32>, b: Seq<u32>, i: int, n: int)
    ensures
        greater_from(a, b, i, n) ==> !greater_from(b, a, i, n),
        !greater_from(a, a, i, n),
    decreases n - i,
{
    if i < n {
        lemma_greater_from_asymmetric(a, b, i + 1, n);
        lemma_greater_from_asymmetric(a, a, i + 1, n);
    }
}

/// No version is newer than itself, and of two versions at most one is newer
/// than the other: the comparison is a strict order.
pub proof fn law_newer_version_is_strict(a: Seq<char>, b: Seq<char>)
    ensures
        !spec_is_newer_version(a, a),
        spec_is_newer_version(a, b) ==> !spec_is_newer_version(b, a),
{
    let ca = version_components(a);
    let cb = version_components(b);
    let n = if ca.len() >= cb.len() { ca.len() } else { cb.len() };
    let na = ca.len();
    lemma_greater_from_asymmetric(cb, ca, 0, n as int);
    lemma_greater_from_asymmetric(ca, ca, 0, na as int);
    assert((if cb.len() >= ca.len() { cb.len() } else { ca.len() }) == n);
}

/// Past the end of both versions every component is a padding zero, so no
/// difference is found there.
proof fn lemma_greater_from_past_end(r: Seq<u32>, c: Seq<u32>, i: int, n: int)
    requires
        i >= r.len(),
        i >= c.len(),
    ensures
        !greater_from(r, c, i, n),
    decreases n - i,
{
    if i < n {
        lemma_greater_from_past_end(r, c, i + 1, n);
    }
}

/// Comparing over any horizon that covers both versions gives the same answer.
proof fn lemma_greater_from_horizon(r: Seq<u32>, c: Seq<u32>, i: int, n: int, m: int)
    requires
        0 <= i,
        n >= r.len(),
        n >= c.len(),
        m >= r.len(),
        m >= c.len(),
    ensures
        greater_from(r, c, i, n) == greater_from(r, c, i, m),
    decreases r.len() + c.len() - i,
{
    if i >= r.len() && i >= c.len() {
        lemma_greater_from_past_end(r, c, i, n);
        lemma_greater_from_past_end(r, c, i, m);
    } else {
        lemma_greater_from_horizon(r, c, i + 1, n, m);
    }
}

proof fn lemma_greater_from_transitive(a: Seq<u32>, b: Seq<u32>, c: Seq<u32>, i: int, n: int)
    requires
        greater_from(b, a, i, n),
        greater_from(c, b, i, n),
    ensures
        greater_from(c, a, i, n),
    decreases n - i,
{
    if i < n && padded(b, i) == padded(a, i) && padded(c, i) == padded(b, i) {
        lemma_greater_from_transitive(a, b, c, i + 1, n);
    }
}

/// "Newer" is transitive: a release newer than one that is newer than `a` is
/// itself newer than `a`.
pub proof fn law_newer_version_is_transitive(a: Seq<char>, b: Seq<char>, c: Seq<char>)
    requires
        spec_is_newer_version(a, b),
        spec_is_newer_version(b, c),
    ensures
        spec_is_newer_version(a, c),
{
    let va = version_components(a);
    let vb = version_components(b);
    let vc = version_components(c);
    let ab = if va.len() >= vb.len() { va.len() } else { vb.len() };
    let bc = if vb.len() >= vc.len() { vb.len() } else { vc.len() };
    let ac = if va.len() >= vc.len() { va.len() } else { vc.len() };
    let n = if ab >= vc.len() { ab } else { vc.len() };
    lemma_greater_from_horizon(vb, va, 0, ab as int, n as int);
    lemma_greater_from_horizon(vc, vb, 0, bc as int, n as int);
    lemma_greater_from_horizon(vc, va, 0, ac as int, n as int);
    lemma_greater_from_transitive(va, vb, vc, 0, n as int);
}

} // verus!
