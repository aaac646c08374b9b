//! Small text routines: substring search and decimal numbers.
use vstd::prelude::*;
use vstd::string::*;

verus! {

/// `t` occurs in `s` at position `i`.
pub open spec fn occurs_at(s: Seq<char>, t: Seq<char>, i: int) -> bool {
    0 <= i && i + t.len() <= s.len() && s.subrange(i, i + t.len()) == t
}

/// `t` occurs somewhere in `s`.
pub open spec fn has_substring(s: Seq<char>, t: Seq<char>) -> bool {
    exists|i: int| occurs_at(s, t, i)
}

/// Whether `needle` occurs in `hay`.
pub fn contains_text(hay: &str, needle: &str) -> (r: bool)
    ensures
        r == has_substring(hay@, needle@),
{
    let n = hay.unicode_len();
    let m = needle.unicode_len();
    if m > n {
        proof {
            assert forall|i: int| !occurs_at(hay@, needle@, i) by {}
        }
        return false;
    }
    let mut i: usize = 0;
    while i <= n - m
        invariant
            n == hay@.len(),
            m == needle@.len(),
            m <= n,
            i <= n - m + 1,
            forall|k: int| 0 <= k < i ==> !occurs_at(hay@, needle@, k),
        decreases n - m + 1 - i,
    {
        let mut j: usize = 0;
        let mut same = true;
        while j < m
            invariant
                n == hay@.len(),
                m == needle@.len(),
                i + m <= n,
                j <= m,
                same == forall|q: int| 0 <= q < j ==> hay@[i + q] == needle@[q],
            decreases m - j,
        {
            if hay.get_char(i + j) != needle.get_char(j) {
                same = false;
            }
            j = j + 1;
        }
        if same {
            proof {
                assert(hay@.subrange(i as int, i + m) =~= needle@);
                assert(occurs_at(hay@, needle@, i as int));
            }
            return true;
        }
        proof {
            assert(!occurs_at(hay@, needle@, i as int)) by {
                if hay@.subrange(i as int, i + m) == needle@ {
                    assert forall|q: int| 0 <= q < m implies hay@[i + q] == needle@[q] by {
                        assert(hay@.subrange(i as int, i + m)[q] == hay@[i + q]);
                    }
                }
            }
        }
        i = i + 1;
    }
    proof {
        assert forall|k: int| !occurs_at(hay@, needle@, k) by {
            if k >= i {
                assert(k + m > n);
            }
        }
    }
    false
}

/// Whether `s` opens with `p`.
pub fn starts_with_text(s: &str, p: &str) -> (r: bool)
    ensures
        r == (p@.len() <= s@.len() && s@.subrange(0, p@.len() as int) == p@),
{
    let n = s.unicode_len();
    let m = p.unicode_len();
    if m > n {
        return false;
    }
    let mut j: usize = 0;
    while j < m
        invariant
            n == s@.len(),
            m == p@.len(),
            m <= n,
            j <= m,
            forall|q: int| 0 <= q < j ==> s@[q] == p@[q],
        decreases m - j,
    {
        if s.get_char(j) != p.get_char(j) {
            proof {
                assert(s@.subrange(0, m as int)[j as int] != p@[j as int]);
            }
            return false;
        }
        j = j + 1;
    }
    proof {
        assert(s@.subrange(0, m as int) =~= p@);
    }
    true
}

pub open spec fn is_digit(c: char) -> bool {
    '0' <= c && c <= '9'
}

pub open spec fn all_digits(s: Seq<char>) -> bool {
    forall|i: int| 0 <= i < s.len() ==> is_digit(#[trigger] s[i])
}

/// The number written by a string of decimal digits.
pub open spec fn digits_value(s: Seq<char>) -> int
    decreases s.len(),
{
    if s.len() == 0 {
        0
    } else {
        digits_value(s.drop_last()) * 10 + (s.last() as int - '0' as int)
    }
}

/// What `str::parse::<u16>` accepts: an optional `+`, then one or more
/// decimal digits, with a value that fits.
pub open spec fn unsigned_part(s: Seq<char>) -> Seq<char> {
    if s.len() > 0 && s[0] == '+' {
        s.drop_first()
    } else {
        s
    }
}

/// What `str::parse` accepts for an unsigned integer type whose largest
/// value is `max`: an optional `+`, then one or more decimal digits, with a
/// value that fits.
pub open spec fn parsed_decimal(s: Seq<char>, max: int) -> Option<int> {
    let body = unsigned_part(s);
    if body.len() > 0 && all_digits(body) && digits_value(body) <= max {
        Some(digits_value(body))
    } else {
        None
    }
}

pub open spec fn parsed_u16(s: Seq<char>) -> Option<u16> {
    match parsed_decimal(s, 65535) {
        Some(v) => Some(v as u16),
        None => None,
    }
}

pub open spec fn parsed_u32(s: Seq<char>) -> Option<u32> {
    match parsed_decimal(s, 4294967295) {
        Some(v) => Some(v as u32),
        None => None,
    }
}

proof fn lemma_digits_value_grows(s: Seq<char>, k: int)
    requires
        all_digits(s),
        0 <= k <= s.len(),
    ensures
        0 <= digits_value(s.subrange(0, k)) <= digits_value(s),
    decreases s.len() - k,
{
    if k < s.len() {
        lemma_digits_value_grows(s, k + 1);
        let p = s.subrange(0, k + 1);
        assert(p.drop_last() =~= s.subrange(0, k));
        assert(is_digit(p.last()));
    } else {
        assert(s.subrange(0, k) =~= s);
    }
    lemma_digits_value_nonneg(s.subrange(0, k));
}

proof fn lemma_digits_value_nonneg(s: Seq<char>)
    requires
        all_digits(s),
    ensures
        digits_value(s) >= 0,
    decreases s.len(),
{
    if s.len() > 0 {
        assert(is_digit(s.last()));
        lemma_digits_value_nonneg(s.drop_last());
    }
}

/// An unsigned decimal of at most `max`, as `str::parse` reads one.
fn parse_decimal(s: &str, max: u64) -> (r: Option<u64>)
    requires
        max <= 4294967295,
    ensures
        r == (match parsed_decimal(s@, max as int) {
            Some(v) => Some(v as u64),
            None => None::<u64>,
        }),
        parsed_decimal(s@, max as int) matches Some(v) ==> 0 <= v <= max,
{
    let n = s.unicode_len();
    let mut start: usize = 0;
    if n > 0 {
        let c0 = s.get_char(0);
        if c0 == '+' {
            start = 1;
        }
    }
    let ghost body = unsigned_part(s@);
    proof {
        assert(body =~= s@.subrange(start as int, n as int));
    }
    if start == n {
        return None;
    }
    let mut acc: u64 = 0;
    let mut i: usize = start;
    while i < n
        invariant
            n == s@.len(),
            start <= i <= n,
            body == s@.subrange(start as int, n as int),
            body == unsigned_part(s@),
            all_digits(s@.subrange(start as int, i as int)),
            acc as int == digits_value(s@.subrange(start as int, i as int)),
            acc <= max,
            max <= 4294967295,
        decreases n - i,
    {
        let c = s.get_char(i);
        let ghost prefix = s@.subrange(start as int, i + 1);
        proof {
            assert(prefix.drop_last() =~= s@.subrange(start as int, i as int));
        }
        if c < '0' || c > '9' {
            proof {
                assert(body[i - start] == c);
                assert(!is_digit(body[i - start]));
                assert(!all_digits(body));
                assert(parsed_decimal(s@, max as int) is None);
            }
            return None;
        }
        let d = (c as u64) - ('0' as u64);
        proof {
            assert(all_digits(prefix));
        }
        if acc * 10 + d > max {
            proof {
                if all_digits(body) {
                    lemma_digits_value_grows(body, i + 1 - start);
                    assert(body.subrange(0, i + 1 - start) =~= prefix);
                    assert(digits_value(prefix) == acc * 10 + d);
                }
                assert(parsed_decimal(s@, max as int) is None);
            }
            return None;
        }
        acc = acc * 10 + d;
        i = i + 1;
    }
    proof {
        assert(s@.subrange(start as int, i as int) =~= body);
    }
    Some(acc)
}

/// A port number written in decimal, as `str::parse::<u16>` reads it.
pub fn parse_u16(s: &str) -> (r: Option<u16>)
    ensures
        r == parsed_u16(s@),
{
    match parse_decimal(s, 65535) {
        Some(v) => Some(v as u16),
        None => None,
    }
}

/// A process id written in decimal, as `str::parse::<u32>` reads it.
pub fn parse_u32(s: &str) -> (r: Option<u32>)
    ensures
        r == parsed_u32(s@),
{
    match parse_decimal(s, 4294967295) {
        Some(v) => Some(v as u32),
        None => None,
    }
}

} // verus!
