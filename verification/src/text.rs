//! Decimal numbers and small text helpers, stated over `Seq<char>`.

use vstd::prelude::*;

verus! {

/// An ASCII decimal digit.
pub open spec fn is_digit(c: char) -> bool {
    '0' <= c && c <= '9'
}

pub open spec fn digit_value(c: char) -> nat {
    (c as nat - '0' as nat) as nat
}

pub open spec fn all_digits(s: Seq<char>) -> bool {
    forall|i: int| 0 <= i < s.len() ==> #[trigger] is_digit(s[i])
}

/// The number a string of decimal digits spells, most significant digit first.
pub open spec fn digits_value(s: Seq<char>) -> nat
    decreases s.len(),
{
    if s.len() == 0 {
        0
    } else {
        digits_value(s.drop_last()) * 10 + digit_value(s.last())
    }
}

/// The digits of an unsigned number as `str::parse` reads them: one optional
/// leading `+` is allowed.
pub open spec fn unsigned_digits(s: Seq<char>) -> Seq<char> {
    if s.len() > 0 && s[0] == '+' {
        s.drop_first()
    } else {
        s
    }
}

/// What `str::parse` of an unsigned integer whose largest value is `max` yields.
pub open spec fn spec_parse_unsigned(s: Seq<char>, max: nat) -> Option<nat> {
    let d = unsigned_digits(s);
    if d.len() > 0 && all_digits(d) && digits_value(d) <= max {
        Some(digits_value(d))
    } else {
        None
    }
}

pub open spec fn digit_char(d: nat) -> char {
    ((d % 10) + '0' as nat) as char
}

/// The shortest decimal rendering of `n`, as `to_string` writes it.
pub open spec fn decimal(n: nat) -> Seq<char>
    decreases n,
{
    if n < 10 {
        seq![digit_char(n)]
    } else {
        decimal(n / 10).push(digit_char(n % 10))
    }
}

/// Reads a decimal unsigned integer no larger than `max`, with the rules of
/// `str::parse` for unsigned types.
pub fn parse_unsigned(s: &str, max: u64) -> (res: Option<u64>)
    ensures
        match res {
            Some(v) => spec_parse_unsigned(s@, max as nat) == Some(v as nat),
            None => spec_parse_unsigned(s@, max as nat) is None,
        },
{
    let len = s.unicode_len();
    let mut start: usize = 0;
    if len > 0 && s.get_char(0) == '+' {
        start = 1;
    }
    let ghost d = unsigned_digits(s@);
    assert(d =~= s@.subrange(start as int, len as int));
    if start >= len {
        return None;
    }
    let mut value: u64 = 0;
    let mut i: usize = start;
    let mut overflow = false;
    while i < len
        invariant
            start <= i <= len,
            len == s@.len(),
            d =~= s@.subrange(start as int, len as int),
            d == unsigned_digits(s@),
            all_digits(s@.subrange(start as int, i as int)),
            !overflow ==> value as nat == digits_value(s@.subrange(start as int, i as int)),
            !overflow ==> value <= max,
            overflow ==> digits_value(s@.subrange(start as int, i as int)) > max,
        decreases len - i,
    {
        let c = s.get_char(i);
        if !('0' <= c && c <= '9') {
            assert(!is_digit(d[i - start]));
            assert(!all_digits(d));
            return None;
        }
        let ghost prev = s@.subrange(start as int, i as int);
        let ghost next = s@.subrange(start as int, i + 1);
        assert(next.drop_last() =~= prev);
        assert(next.last() == c);
        assert(all_digits(next)) by {
            assert forall|k: int| 0 <= k < next.len() implies #[trigger] is_digit(next[k]) by {
                if k < prev.len() {
                    assert(next[k] == prev[k]);
                }
            }
        }
        let dv: u64 = (c as u32 - '0' as u32) as u64;
        assert(dv as nat == digit_value(c));
        if !overflow {
            if dv > max || value > (max - dv) / 10 {
                overflow = true;
                assert(digits_value(next) == value * 10 + dv);
                assert(value * 10 + dv > max) by (nonlinear_arith)
                    requires dv > max || value > (max - dv) / 10, dv <= 9;
            } else {
                assert(value * 10 + dv <= max) by (nonlinear_arith)
                    requires value <= (max - dv) / 10, dv <= 9;
                value = value * 10 + dv;
            }
        } else {
            assert(digits_value(next) >= digits_value(prev) * 10) by (nonlinear_arith)
                requires digits_value(next) == digits_value(prev) * 10 + digit_value(c);
            assert(digits_value(prev) * 10 >= digits_value(prev)) by (nonlinear_arith);
        }
        i = i + 1;
    }
    assert(s@.subrange(start as int, i as int) =~= d);
    if overflow {
        None
    } else {
        Some(value)
    }
}


/// Unicode `White_Space`, the set that `char::is_whitespace` and `str::trim` use.
pub open spec fn is_whitespace(c: char) -> bool {
    let u = c as u32;
    (0x09 <= u && u <= 0x0d) || u == 0x20 || u == 0x85 || u == 0xa0 || u == 0x1680 || (0x2000
        <= u && u <= 0x200a) || u == 0x2028 || u == 0x2029 || u == 0x202f || u == 0x205f || u
        == 0x3000
}

pub fn char_is_whitespace(c: char) -> (b: bool)
    ensures
        b == is_whitespace(c),
{
    let u = c as u32;
    (0x09 <= u && u <= 0x0d) || u == 0x20 || u == 0x85 || u == 0xa0 || u == 0x1680 || (0x2000
        <= u && u <= 0x200a) || u == 0x2028 || u == 0x2029 || u == 0x202f || u == 0x205f || u
        == 0x3000
}

/// `s` without its leading whitespace.
pub open spec fn trim_start(s: Seq<char>) -> Seq<char>
    decreases s.len(),
{
    if s.len() > 0 && is_whitespace(s[0]) {
        trim_start(s.drop_first())
    } else {
        s
    }
}

/// `s` without its trailing whitespace.
pub open spec fn trim_end(s: Seq<char>) -> Seq<char>
    decreases s.len(),
{
    if s.len() > 0 && is_whitespace(s.last()) {
        trim_end(s.drop_last())
    } else {
        s
    }
}

/// `s` without leading and trailing whitespace, as `str::trim` gives it.
pub open spec fn trim(s: Seq<char>) -> Seq<char> {
    trim_end(trim_start(s))
}

/// The bounds `[lo, hi)` of `trim(s@)` within `s@`.
pub fn trim_bounds(s: &str) -> (r: (usize, usize))
    ensures
        r.0 <= r.1 <= s@.len(),
        trim(s@) == s@.subrange(r.0 as int, r.1 as int),
{
    let len = s.unicode_len();
    let mut lo: usize = 0;
    assert(s@.subrange(0, len as int) =~= s@);
    while lo < len && char_is_whitespace(s.get_char(lo))
        invariant
            lo <= len,
            len == s@.len(),
            trim_start(s@) == trim_start(s@.subrange(lo as int, len as int)),
        decreases len - lo,
    {
        assert(s@.subrange(lo as int, len as int).drop_first() =~= s@.subrange(
            lo + 1,
            len as int,
        ));
        lo = lo + 1;
    }
    let ghost rest = s@.subrange(lo as int, len as int);
    assert(trim_start(rest) == rest);
    let mut hi: usize = len;
    while hi > lo && char_is_whitespace(s.get_char(hi - 1))
        invariant
            lo <= hi <= len,
            len == s@.len(),
            rest == s@.subrange(lo as int, len as int),
            trim_end(rest) == trim_end(s@.subrange(lo as int, hi as int)),
        decreases hi - lo,
    {
        assert(s@.subrange(lo as int, hi as int).drop_last() =~= s@.subrange(
            lo as int,
            hi - 1,
        ));
        hi = hi - 1;
    }
    (lo, hi)
}


/// Whether two strings hold the same characters.
pub fn str_equals(a: &str, b: &str) -> (res: bool)
    ensures
        res == (a@ == b@),
{
    let n = a.unicode_len();
    if n != b.unicode_len() {
        return false;
    }
    let mut i: usize = 0;
    while i < n
        invariant
            i <= n,
            n == a@.len(),
            n == b@.len(),
            a@.take(i as int) =~= b@.take(i as int),
        decreases n - i,
    {
        if a.get_char(i) != b.get_char(i) {
            assert(a@[i as int] != b@[i as int]);
            return false;
        }
        assert(a@.take(i + 1) =~= a@.take(i as int).push(a@[i as int]));
        assert(b@.take(i + 1) =~= b@.take(i as int).push(b@[i as int]));
        i = i + 1;
    }
    assert(a@.take(n as int) =~= a@);
    assert(b@.take(n as int) =~= b@);
    true
}

/// Appends `tail` to `head`.
pub fn concat_str(head: &str, tail: &str) -> (res: String)
    ensures
        res@ == head@ + tail@,
{
    let mut r = head.to_owned();
    r.append(tail);
    r
}

/// `s` without its trailing occurrences of `c`.
pub open spec fn trim_end_char(s: Seq<char>, c: char) -> Seq<char>
    decreases s.len(),
{
    if s.len() > 0 && s.last() == c {
        trim_end_char(s.drop_last(), c)
    } else {
        s
    }
}

/// `str::trim_end_matches` with a single character, as an owned string.
pub fn trim_end_matches_char(s: &str, c: char) -> (res: String)
    ensures
        res@ == trim_end_char(s@, c),
{
    let mut hi = s.unicode_len();
    assert(s@.subrange(0, hi as int) =~= s@);
    while hi > 0 && s.get_char(hi - 1) == c
        invariant
            hi <= s@.len(),
            trim_end_char(s@, c) == trim_end_char(s@.subrange(0, hi as int), c),
        decreases hi,
    {
        assert(s@.subrange(0, hi as int).drop_last() =~= s@.subrange(0, hi - 1));
        hi = hi - 1;
    }
    s.substring_char(0, hi).to_owned()
}

/// Decimal digits of `n` as a string, the way `to_string` writes an integer.
pub fn u64_to_decimal(n: u64) -> (res: String)
    ensures
        res@ == decimal(n as nat),
    decreases n,
{
    let d = digit_str(n % 10);
    if n < 10 {
        d.to_owned()
    } else {
        let mut head = u64_to_decimal(n / 10);
        head.append(d);
        head
    }
}

fn digit_str(d: u64) -> (s: &'static str)
    requires
        d < 10,
    ensures
        s@ == seq![digit_char(d as nat)],
{
    proof {
        reveal_strlit("0");
        reveal_strlit("1");
        reveal_strlit("2");
        reveal_strlit("3");
        reveal_strlit("4");
        reveal_strlit("5");
        reveal_strlit("6");
        reveal_strlit("7");
        reveal_strlit("8");
        reveal_strlit("9");
    }
    if d == 0 {
        "0"
    } else if d == 1 {
        "1"
    } else if d == 2 {
        "2"
    } else if d == 3 {
        "3"
    } else if d == 4 {
        "4"
    } else if d == 5 {
        "5"
    } else if d == 6 {
        "6"
    } else if d == 7 {
        "7"
    } else if d == 8 {
        "8"
    } else {
        "9"
    }
}


proof fn lemma_decimal_digits(n: nat)
    ensures
        decimal(n).len() > 0,
        all_digits(decimal(n)),
        digits_value(decimal(n)) == n,
    decreases n,
{
    assert(digit_value(digit_char(n % 10)) == n % 10);
    if n >= 10 {
        lemma_decimal_digits(n / 10);
        let d = decimal(n);
        assert(d.drop_last() =~= decimal(n / 10));
        assert(d.last() == digit_char(n % 10));
        assert((n / 10) * 10 + n % 10 == n);
        assert(digits_value(d) == digits_value(decimal(n / 10)) * 10 + digit_value(d.last()));
        assert forall|i: int| 0 <= i < d.len() implies #[trigger] is_digit(d[i]) by {
            if i < d.len() - 1 {
                assert(d[i] == decimal(n / 10)[i]);
            }
        }
    } else {
        assert(decimal(n).drop_last() =~= Seq::<char>::empty());
        assert(digits_value(Seq::<char>::empty()) == 0);
    }
}

/// Reading back the decimal rendering of a number gives the number.
pub proof fn lemma_decimal_parse_roundtrip(n: nat, max: nat)
    requires
        n <= max,
    ensures
        spec_parse_unsigned(decimal(n), max) == Some(n),
{
    lemma_decimal_digits(n);
    assert(is_digit(decimal(n)[0]));
}


/// `i` is where `c` first occurs in `s`.
pub open spec fn is_first_index(s: Seq<char>, c: char, i: int) -> bool {
    0 <= i < s.len() && s[i] == c && forall|j: int| 0 <= j < i ==> s[j] != c
}

/// `str::split_once` at a character: the text before its first occurrence
/// and the text after it, or `None` when it does not occur.
pub open spec fn spec_split_once(s: Seq<char>, c: char) -> Option<(Seq<char>, Seq<char>)> {
    if exists|i: int| is_first_index(s, c, i) {
        let i = choose|i: int| is_first_index(s, c, i);
        Some((s.take(i), s.skip(i + 1)))
    } else {
        None
    }
}

proof fn lemma_first_index_unique(s: Seq<char>, c: char, i: int, k: int)
    requires
        is_first_index(s, c, i),
        is_first_index(s, c, k),
    ensures
        i == k,
{
    if i < k {
        assert(s[i] != c);
    } else if k < i {
        assert(s[k] != c);
    }
}

pub fn split_once(s: &str, c: char) -> (r: Option<(String, String)>)
    ensures
        match r {
            Some((a, b)) => spec_split_once(s@, c) == Some((a@, b@)),
            None => spec_split_once(s@, c) is None,
        },
{
    let n = s.unicode_len();
    let mut i: usize = 0;
    while i < n
        invariant
            i <= n,
            n == s@.len(),
            forall|j: int| 0 <= j < i ==> s@[j] != c,
        decreases n - i,
    {
        if s.get_char(i) == c {
            proof {
                assert(is_first_index(s@, c, i as int));
                let k = choose|k: int| is_first_index(s@, c, k);
                lemma_first_index_unique(s@, c, i as int, k);
            }
            let a = s.substring_char(0, i).to_owned();
            let b = s.substring_char(i + 1, n).to_owned();
            assert(a@ =~= s@.take(i as int));
            assert(b@ =~= s@.skip(i + 1));
            return Some((a, b));
        }
        i = i + 1;
    }
    assert(!exists|k: int| is_first_index(s@, c, k)) by {
        if exists|k: int| is_first_index(s@, c, k) {
            let k = choose|k: int| is_first_index(s@, c, k);
            assert(s@[k] == c);
        }
    }
    None
}

} // verus!
