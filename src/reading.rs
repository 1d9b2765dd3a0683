//! The text format of one accelerometer reading: three signed 16-bit
//! integers separated by commas, with white space allowed around the line.
use vstd::prelude::*;

verus! {

pub open spec fn is_space(b: u8) -> bool {
    b == 0x20 || (0x09 <= b && b <= 0x0d)
}

pub open spec fn is_digit(b: u8) -> bool {
    0x30 <= b && b <= 0x39
}

/// Value of a string of decimal digits.
pub open spec fn digits_value(d: Seq<u8>) -> int
    decreases d.len(),
{
    if d.len() == 0 {
        0
    } else {
        digits_value(d.drop_last()) * 10 + (d.last() - 0x30)
    }
}

pub open spec fn all_digits(d: Seq<u8>) -> bool {
    forall|i: int| 0 <= i < d.len() ==> is_digit(#[trigger] d[i])
}

/// A decimal `i16`: an optional `+` or `-`, then one digit or more.
pub open spec fn parse_i16(s: Seq<u8>) -> Option<i16> {
    if s.len() > 0 && s[0] == 0x2d {
        let d = s.drop_first();
        if d.len() > 0 && all_digits(d) && digits_value(d) <= 32768 {
            Some((-digits_value(d)) as i16)
        } else {
            None
        }
    } else {
        let d = if s.len() > 0 && s[0] == 0x2b { s.drop_first() } else { s };
        if d.len() > 0 && all_digits(d) && digits_value(d) <= 32767 {
            Some(digits_value(d) as i16)
        } else {
            None
        }
    }
}

/// `s[lo..hi]` is `s` without white space at either end.
pub open spec fn trimmed_at(s: Seq<u8>, lo: int, hi: int) -> bool {
    &&& 0 <= lo <= hi <= s.len()
    &&& forall|i: int| 0 <= i < lo ==> is_space(#[trigger] s[i])
    &&& forall|i: int| hi <= i < s.len() ==> is_space(#[trigger] s[i])
    &&& lo < hi ==> !is_space(s[lo]) && !is_space(s[hi - 1])
}

/// `t` holds exactly two commas, at `p < q`.
pub open spec fn commas_at(t: Seq<u8>, p: int, q: int) -> bool {
    &&& 0 <= p < q < t.len()
    &&& t[p] == 0x2c
    &&& t[q] == 0x2c
    &&& forall|i: int| 0 <= i < t.len() && i != p && i != q ==> #[trigger] t[i] != 0x2c
}

/// The three values of a reading line, if it is one.
pub open spec fn reading_of(t: Seq<u8>, p: int, q: int) -> Option<(i16, i16, i16)> {
    match (parse_i16(t.subrange(0, p)), parse_i16(t.subrange(p + 1, q)), parse_i16(t.subrange(q + 1, t.len() as int))) {
        (Some(x), Some(y), Some(z)) => Some((x, y, z)),
        _ => None,
    }
}

proof fn lemma_digits_prefix_grows(d: Seq<u8>, k: int)
    requires
        0 <= k <= d.len(),
        all_digits(d),
    ensures
        digits_value(d.subrange(0, k)) <= digits_value(d),
        0 <= digits_value(d.subrange(0, k)),
    decreases d.len() - k,
{
    if k < d.len() {
        lemma_digits_prefix_grows(d, k + 1);
        let a = d.subrange(0, k + 1);
        assert(a.drop_last() =~= d.subrange(0, k));
        assert(is_digit(d[k]));
    } else {
        assert(d.subrange(0, k) =~= d);
    }
    let pre = d.subrange(0, k);
    assert forall|i: int| 0 <= i < pre.len() implies is_digit(#[trigger] pre[i]) by {
        assert(pre[i] == d[i]);
    }
    lemma_digits_nonneg(pre);
}

proof fn lemma_digits_nonneg(d: Seq<u8>)
    requires
        all_digits(d),
    ensures
        0 <= digits_value(d),
    decreases d.len(),
{
    if d.len() > 0 {
        let e = d.drop_last();
        assert forall|i: int| 0 <= i < e.len() implies is_digit(#[trigger] e[i]) by {
            assert(e[i] == d[i]);
        }
        assert(is_digit(d.last()));
        lemma_digits_nonneg(e);
    }
}

/// Value of the digits `s[lo..hi]`, or `None` if one of them is not a digit
/// or the value passes `max`.
fn digits_upto(s: &[u8], lo: usize, hi: usize, max: u32) -> (r: Option<u32>)
    requires
        lo < hi <= s@.len(),
        max <= 40000,
    ensures
        match r {
            Some(v) => all_digits(s@.subrange(lo as int, hi as int)) && v == digits_value(s@.subrange(lo as int, hi as int)) && v <= max,
            None => !(all_digits(s@.subrange(lo as int, hi as int)) && digits_value(s@.subrange(lo as int, hi as int)) <= max),
        },
{
    let ghost d = s@.subrange(lo as int, hi as int);
    let mut acc: u32 = 0;
    let mut i: usize = lo;
    while i < hi
        invariant
            lo <= i <= hi,
            hi <= s@.len(),
            d == s@.subrange(lo as int, hi as int),
            max <= 40000,
            acc <= max,
            all_digits(d.subrange(0, i - lo)),
            acc == digits_value(d.subrange(0, i - lo)),
        decreases hi - i,
    {
        let b = s[i];
        if !(0x30 <= b && b <= 0x39) {
            proof {
                assert(d[i - lo] == b);
            }
            return None;
        }
        let ghost prev = d.subrange(0, i - lo);
        let ghost next = d.subrange(0, i - lo + 1);
        proof {
            assert(next.drop_last() =~= prev);
            assert(next.last() == b);
            assert(all_digits(next)) by {
                assert forall|j: int| 0 <= j < next.len() implies is_digit(#[trigger] next[j]) by {
                    if j < prev.len() {
                        assert(next[j] == prev[j]);
                    }
                }
            }
        }
        let v: u32 = acc * 10 + (b - 0x30) as u32;
        if v > max {
            proof {
                if all_digits(d) {
                    lemma_digits_prefix_grows(d, i - lo + 1);
                }
            }
            return None;
        }
        acc = v;
        i += 1;
    }
    proof {
        assert(d.subrange(0, hi - lo) =~= d);
    }
    Some(acc)
}

/// Parses `s[lo..hi]` as a decimal `i16`.
pub fn parse_i16_at(s: &[u8], lo: usize, hi: usize) -> (r: Option<i16>)
    requires
        lo <= hi <= s@.len(),
    ensures
        r == parse_i16(s@.subrange(lo as int, hi as int)),
{
    let ghost t = s@.subrange(lo as int, hi as int);
    if lo < hi && s[lo] == 0x2d {
        assert(t.drop_first() =~= s@.subrange(lo + 1, hi as int));
        if lo + 1 == hi {
            return None;
        }
        match digits_upto(s, lo + 1, hi, 32768) {
            Some(v) => Some((0 - v as i32) as i16),
            None => None,
        }
    } else {
        let start = if lo < hi && s[lo] == 0x2b { lo + 1 } else { lo };
        assert(s@.subrange(start as int, hi as int) =~= (if t.len() > 0 && t[0] == 0x2b { t.drop_first() } else { t }));
        if start == hi {
            return None;
        }
        match digits_upto(s, start, hi, 32767) {
            Some(v) => Some(v as i16),
            None => None,
        }
    }
}

/// Parses one reading line, `x,y,z`, after trimming white space at both ends.
pub fn parse_reading(line: &[u8]) -> (r: Option<(i16, i16, i16)>)
    ensures
        forall|lo: int, hi: int| #[trigger] trimmed_at(line@, lo, hi) ==> {
            let t = line@.subrange(lo, hi);
            match r {
                Some(v) => exists|p: int, q: int| commas_at(t, p, q) && reading_of(t, p, q) == Some(v),
                None => forall|p: int, q: int| commas_at(t, p, q) ==> reading_of(t, p, q) is None,
            }
        },
{
    let n = line.len();
    let mut lo: usize = 0;
    while lo < n && (line[lo] == 0x20 || (0x09 <= line[lo] && line[lo] <= 0x0d))
        invariant
            lo <= n,
            n == line@.len(),
            forall|i: int| 0 <= i < lo ==> is_space(#[trigger] line@[i]),
        decreases n - lo,
    {
        lo += 1;
    }
    let mut hi: usize = n;
    while hi > lo && (line[hi - 1] == 0x20 || (0x09 <= line[hi - 1] && line[hi - 1] <= 0x0d))
        invariant
            lo <= hi <= n,
            n == line@.len(),
            forall|i: int| hi <= i < n ==> is_space(#[trigger] line@[i]),
        decreases hi,
    {
        hi -= 1;
    }
    assert(trimmed_at(line@, lo as int, hi as int));
    proof {
        lemma_trim_unique(line@, lo as int, hi as int);
    }
    let ghost t = line@.subrange(lo as int, hi as int);
    // Find the commas.
    let mut count: usize = 0;
    let mut p: usize = 0;
    let mut q: usize = 0;
    let mut i: usize = lo;
    while i < hi
        invariant
            lo <= i <= hi <= n,
            n == line@.len(),
            t == line@.subrange(lo as int, hi as int),
            count <= 3,
            count >= 1 ==> lo <= p < i && line@[p as int] == 0x2c,
            count >= 2 ==> p < q < i && line@[q as int] == 0x2c,
            count == 0 ==> forall|j: int| lo <= j < i ==> #[trigger] line@[j] != 0x2c,
            count == 1 ==> forall|j: int| lo <= j < i && j != p ==> #[trigger] line@[j] != 0x2c,
            count == 2 ==> forall|j: int| lo <= j < i && j != p && j != q ==> #[trigger] line@[j] != 0x2c,
            count == 3 ==> exists|j: int| lo <= j < i && j != p && j != q && #[trigger] line@[j] == 0x2c,
        decreases hi - i,
    {
        if line[i] == 0x2c {
            if count == 0 {
                p = i;
                count = 1;
            } else if count == 1 {
                q = i;
                count = 2;
            } else if count == 2 {
                count = 3;
                assert(line@[i as int] == 0x2c);
            }
        }
        i += 1;
    }
    if count != 2 {
        proof {
            assert forall|pp: int, qq: int| commas_at(t, pp, qq) implies reading_of(t, pp, qq) is None by {
                if count == 0 {
                    assert(line@[lo + pp] == t[pp]);
                } else if count == 1 {
                    assert(line@[lo + pp] == t[pp]);
                    assert(line@[lo + qq] == t[qq]);
                } else {
                    let j = choose|j: int| lo <= j < hi && j != p && j != q && #[trigger] line@[j] == 0x2c;
                    assert(t[j - lo] == line@[j]);
                    assert(t[p - lo] == line@[p as int]);
                    assert(t[q - lo] == line@[q as int]);
                }
            }
        }
        return None;
    }
    proof {
        assert(commas_at(t, p - lo, q - lo)) by {
            assert forall|j: int| 0 <= j < t.len() && j != p - lo && j != q - lo implies #[trigger] t[j] != 0x2c by {
                assert(t[j] == line@[lo + j]);
            }
        }
        assert forall|pp: int, qq: int| commas_at(t, pp, qq) implies pp == p - lo && qq == q - lo by {
            assert(t[p - lo] == 0x2c && t[q - lo] == 0x2c);
        }
        assert(t.subrange(0, p - lo) =~= line@.subrange(lo as int, p as int));
        assert(t.subrange(p - lo + 1, q - lo) =~= line@.subrange(p + 1, q as int));
        assert(t.subrange(q - lo + 1, t.len() as int) =~= line@.subrange(q + 1, hi as int));
    }
    let x = parse_i16_at(line, lo, p);
    let y = parse_i16_at(line, p + 1, q);
    let z = parse_i16_at(line, q + 1, hi);
    match (x, y, z) {
        (Some(x), Some(y), Some(z)) => Some((x, y, z)),
        _ => None,
    }
}

/// Only one pair of bounds trims a line.
proof fn lemma_trim_unique(s: Seq<u8>, lo: int, hi: int)
    requires
        trimmed_at(s, lo, hi),
    ensures
        forall|a: int, b: int| #[trigger] trimmed_at(s, a, b) ==> s.subrange(a, b) == s.subrange(lo, hi),
{
    assert forall|a: int, b: int| #[trigger] trimmed_at(s, a, b) implies s.subrange(a, b) == s.subrange(lo, hi) by {
        if lo < hi {
            if a < lo { assert(is_space(s[a])); }
            if a > lo { assert(is_space(s[lo])); }
            assert(a == lo);
            if b > hi { assert(is_space(s[b - 1])); }
            if b < hi { assert(is_space(s[hi - 1])); }
            assert(b == hi);
        } else {
            if a < b {
                assert(is_space(s[a]));
            }
            assert(s.subrange(a, b) =~= s.subrange(lo, hi));
        }
    }
}

/// Collects the bytes of a serial stream into lines.
pub struct LineBuffer {
    pub line: Vec<u8>,
}

impl LineBuffer {
    pub fn new() -> (r: LineBuffer)
        ensures
            r.line@.len() == 0,
    {
        LineBuffer { line: Vec::new() }
    }

    /// Takes one byte. A newline ends the current line and hands it out,
    /// unless it is empty; a carriage return or a byte outside ASCII is
    /// dropped; any other byte extends the line.
    pub fn push_byte(&mut self, b: u8) -> (r: Option<Vec<u8>>)
        ensures
            b == 0x0a ==> final(self).line@.len() == 0 && match r {
                Some(l) => l@ == old(self).line@ && old(self).line@.len() > 0,
                None => old(self).line@.len() == 0,
            },
            b != 0x0a && (b == 0x0d || b >= 0x80) ==> final(self).line@ == old(self).line@ && r is None,
            b != 0x0a && b != 0x0d && b < 0x80 ==> final(self).line@ == old(self).line@.push(b) && r is None,
    {
        if b == 0x0a {
            let mut done: Vec<u8> = Vec::new();
            std::mem::swap(&mut done, &mut self.line);
            if done.len() > 0 {
                Some(done)
            } else {
                None
            }
        } else if b != 0x0d && b < 0x80 {
            self.line.push(b);
            None
        } else {
            None
        }
    }
}

} // verus!
