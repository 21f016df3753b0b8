//! Character-level string helpers shared by the state and terminal modules.
use vstd::prelude::*;
use vstd::utf8::*;

verus! {

/// `String::push` appends one character to the end of the string.
pub assume_specification[ String::push ](s: &mut String, ch: char)
    ensures
        final(s)@ == old(s)@.push(ch),
;

/// Unicode `White_Space` property, the definition `char::is_whitespace` and
/// `str::trim` use.
pub open spec fn is_white_space(c: char) -> bool {
    let v = c as u32;
    ||| 0x09 <= v <= 0x0d
    ||| v == 0x20
    ||| v == 0x85
    ||| v == 0xa0
    ||| v == 0x1680
    ||| 0x2000 <= v <= 0x200a
    ||| v == 0x2028
    ||| v == 0x2029
    ||| v == 0x202f
    ||| v == 0x205f
    ||| v == 0x3000
}

/// True for characters with the Unicode `White_Space` property.
pub fn is_whitespace_char(c: char) -> (b: bool)
    ensures
        b == is_white_space(c),
{
    let v = c as u32;
    (0x09 <= v && v <= 0x0d) || v == 0x20 || v == 0x85 || v == 0xa0 || v == 0x1680 || (0x2000
        <= v && v <= 0x200a) || v == 0x2028 || v == 0x2029 || v == 0x202f || v == 0x205f || v
        == 0x3000
}

/// Index of the first non-whitespace character at or after `i`.
pub open spec fn ws_prefix_end(s: Seq<char>, i: int) -> int
    decreases s.len() - i,
{
    if 0 <= i < s.len() && is_white_space(s[i]) {
        ws_prefix_end(s, i + 1)
    } else {
        i
    }
}

/// Start of the run of whitespace that ends at `j`, not going below `lo`.
pub open spec fn ws_suffix_start(s: Seq<char>, j: int, lo: int) -> int
    decreases j - lo,
{
    if lo < j && j <= s.len() && is_white_space(s[j - 1]) {
        ws_suffix_start(s, j - 1, lo)
    } else {
        j
    }
}

/// `s` without leading and trailing whitespace, as `str::trim` returns it.
pub open spec fn trim_seq(s: Seq<char>) -> Seq<char> {
    let a = ws_prefix_end(s, 0);
    s.subrange(a, ws_suffix_start(s, s.len() as int, a))
}

/// Start of the run of `c` characters that ends at `j`.
pub open spec fn char_run_start(s: Seq<char>, j: int, c: char) -> int
    decreases j,
{
    if 0 < j && j <= s.len() && s[j - 1] == c {
        char_run_start(s, j - 1, c)
    } else {
        j
    }
}

/// `s` without trailing `c` characters, as `str::trim_end_matches(c)` returns it.
pub open spec fn trim_end_char_seq(s: Seq<char>, c: char) -> Seq<char> {
    s.subrange(0, char_run_start(s, s.len() as int, c))
}

proof fn lemma_ws_prefix_end_bounds(s: Seq<char>, i: int)
    requires
        0 <= i <= s.len(),
    ensures
        i <= ws_prefix_end(s, i) <= s.len(),
    decreases s.len() - i,
{
    if i < s.len() && is_white_space(s[i]) {
        lemma_ws_prefix_end_bounds(s, i + 1);
    }
}

proof fn lemma_ws_suffix_start_bounds(s: Seq<char>, j: int, lo: int)
    requires
        0 <= lo <= j <= s.len(),
    ensures
        lo <= ws_suffix_start(s, j, lo) <= j,
    decreases j - lo,
{
    if lo < j && is_white_space(s[j - 1]) {
        lemma_ws_suffix_start_bounds(s, j - 1, lo);
    }
}

pub proof fn lemma_char_run_start_bounds(s: Seq<char>, j: int, c: char)
    requires
        0 <= j <= s.len(),
    ensures
        0 <= char_run_start(s, j, c) <= j,
    decreases j,
{
    if 0 < j && s[j - 1] == c {
        lemma_char_run_start_bounds(s, j - 1, c);
    }
}

/// The characters of `s`, in order.
pub fn chars_of(s: &str) -> (r: Vec<char>)
    ensures
        r@ == s@,
{
    let mut r: Vec<char> = Vec::new();
    for c in it: s.chars()
        invariant
            r@ == it.seq().take(it.index() as int),
    {
        r.push(c);
    }
    proof {
        assert(r@ =~= s@);
    }
    r
}

/// True when two strings hold the same text.
pub fn text_equal(a: &String, b: &String) -> (eq: bool)
    ensures
        eq == (a@ == b@),
{
    let x = chars_of(a.as_str());
    let y = chars_of(b.as_str());
    if x.len() != y.len() {
        return false;
    }
    let mut i: usize = 0;
    while i < x.len()
        invariant
            i <= x@.len() == y@.len(),
            x@ == a@,
            y@ == b@,
            forall|j: int| 0 <= j < i ==> x@[j] == y@[j],
        decreases x.len() - i,
    {
        if x[i] != y[i] {
            return false;
        }
        i = i + 1;
    }
    assert(x@ =~= y@);
    true
}

/// A string holding `v[lo..hi]`.
pub fn string_from_range(v: &Vec<char>, lo: usize, hi: usize) -> (r: String)
    requires
        lo <= hi <= v.len(),
    ensures
        r@ == v@.subrange(lo as int, hi as int),
{
    let mut r = String::new();
    let mut i = lo;
    while i < hi
        invariant
            lo <= i <= hi <= v.len(),
            r@ == v@.subrange(lo as int, i as int),
        decreases hi - i,
    {
        r.push(v[i]);
        proof {
            assert(r@ =~= v@.subrange(lo as int, i + 1));
        }
        i = i + 1;
    }
    r
}

/// A copy of `v[lo..hi]`.
pub fn vec_range(v: &Vec<char>, lo: usize, hi: usize) -> (r: Vec<char>)
    requires
        lo <= hi <= v.len(),
    ensures
        r@ == v@.subrange(lo as int, hi as int),
{
    let mut r: Vec<char> = Vec::new();
    let mut i = lo;
    while i < hi
        invariant
            lo <= i <= hi <= v.len(),
            r@ == v@.subrange(lo as int, i as int),
        decreases hi - i,
    {
        r.push(v[i]);
        proof {
            assert(r@ =~= v@.subrange(lo as int, i + 1));
        }
        i = i + 1;
    }
    r
}

/// Index of the first occurrence of `pat` in `s` at or after `i`.
pub open spec fn find_from(s: Seq<char>, pat: Seq<char>, i: int) -> Option<int>
    decreases s.len() - i,
{
    if i < 0 || i + pat.len() > s.len() {
        None
    } else if s.subrange(i, i + pat.len()) == pat {
        Some(i)
    } else if i >= s.len() {
        None
    } else {
        find_from(s, pat, i + 1)
    }
}

/// Where `find_from` answers, the match starts at or after `i` and fits in `s`.
pub proof fn lemma_find_from_bounds(s: Seq<char>, pat: Seq<char>, i: int)
    ensures
        find_from(s, pat, i) matches Some(r) ==> i <= r && r + pat.len() <= s.len(),
    decreases s.len() - i,
{
    if i < 0 || i + pat.len() > s.len() {
    } else if s.subrange(i, i + pat.len()) == pat {
    } else if i >= s.len() {
    } else {
        lemma_find_from_bounds(s, pat, i + 1);
    }
}

/// First index at or after `from` where `pat` occurs in `v`.
pub fn find_in(v: &Vec<char>, pat: &Vec<char>, from: usize) -> (r: Option<usize>)
    requires
        from <= v.len(),
    ensures
        match r {
            Some(k) => find_from(v@, pat@, from as int) == Some(k as int),
            None => find_from(v@, pat@, from as int) is None,
        },
{
    let mut i = from;
    while pat.len() <= v.len() - i
        invariant
            from <= i <= v.len(),
            find_from(v@, pat@, from as int) == find_from(v@, pat@, i as int),
        decreases v.len() - i,
    {
        let mut j: usize = 0;
        let mut same = true;
        while j < pat.len()
            invariant
                i + pat.len() <= v.len(),
                j <= pat.len(),
                same == (forall|k: int| 0 <= k < j ==> v@[i + k] == pat@[k]),
            decreases pat.len() - j,
        {
            if v[i + j] != pat[j] {
                same = false;
            }
            j = j + 1;
        }
        if same {
            proof {
                assert(v@.subrange(i as int, i + pat.len()) =~= pat@);
            }
            return Some(i);
        }
        proof {
            let k = choose|k: int| 0 <= k < pat.len() && v@[i + k] != pat@[k];
            assert(v@.subrange(i as int, i + pat.len())[k] != pat@[k]);
        }
        if i == v.len() {
            return None;
        }
        i = i + 1;
    }
    None
}

/// A string holding all of `v`.
pub fn string_from_chars(v: &Vec<char>) -> (r: String)
    ensures
        r@ == v@,
{
    let r = string_from_range(v, 0, v.len());
    proof {
        assert(v@.subrange(0, v@.len() as int) =~= v@);
    }
    r
}

/// Bounds `[start, end)` of `v` once leading and trailing whitespace are removed.
pub fn trim_bounds(v: &Vec<char>) -> (r: (usize, usize))
    ensures
        r.0 == ws_prefix_end(v@, 0),
        r.1 == ws_suffix_start(v@, v@.len() as int, r.0 as int),
        r.0 <= r.1 <= v.len(),
{
    let mut a: usize = 0;
    while a < v.len() && is_whitespace_char(v[a])
        invariant
            a <= v.len(),
            ws_prefix_end(v@, 0) == ws_prefix_end(v@, a as int),
        decreases v.len() - a,
    {
        a = a + 1;
    }
    let mut b: usize = v.len();
    while b > a && is_whitespace_char(v[b - 1])
        invariant
            a <= b <= v.len(),
            ws_suffix_start(v@, v@.len() as int, a as int) == ws_suffix_start(v@, b as int, a as int),
        decreases b,
    {
        b = b - 1;
    }
    (a, b)
}

/// `s` with leading and trailing whitespace removed.
pub fn trim_string(s: &str) -> (r: String)
    ensures
        r@ == trim_seq(s@),
{
    let v = chars_of(s);
    let (a, b) = trim_bounds(&v);
    string_from_range(&v, a, b)
}

/// True when `s` holds only whitespace (or nothing).
pub fn is_blank(s: &str) -> (b: bool)
    ensures
        b == (trim_seq(s@).len() == 0),
{
    let v = chars_of(s);
    let (a, b) = trim_bounds(&v);
    a == b
}

/// `s` without trailing `c` characters.
pub fn trim_end_char(s: &str, c: char) -> (r: String)
    ensures
        r@ == trim_end_char_seq(s@, c),
{
    let v = chars_of(s);
    let mut j: usize = v.len();
    while j > 0 && v[j - 1] == c
        invariant
            j <= v.len(),
            char_run_start(v@, v@.len() as int, c) == char_run_start(v@, j as int, c),
        decreases j,
    {
        j = j - 1;
    }
    string_from_range(&v, 0, j)
}

/// Character for decimal digit `d`.
pub open spec fn digit_char(d: nat) -> char {
    if d == 0 {
        '0'
    } else if d == 1 {
        '1'
    } else if d == 2 {
        '2'
    } else if d == 3 {
        '3'
    } else if d == 4 {
        '4'
    } else if d == 5 {
        '5'
    } else if d == 6 {
        '6'
    } else if d == 7 {
        '7'
    } else if d == 8 {
        '8'
    } else {
        '9'
    }
}

/// Decimal digits of `n`, most significant first, without leading zeros.
pub open spec fn decimal_digits(n: nat) -> Seq<char>
    decreases n,
{
    if n < 10 {
        seq![digit_char(n)]
    } else {
        decimal_digits(n / 10).push(digit_char(n % 10))
    }
}

fn digit_to_char(d: u64) -> (c: char)
    requires
        d < 10,
    ensures
        c == digit_char(d as nat),
{
    if d == 0 {
        '0'
    } else if d == 1 {
        '1'
    } else if d == 2 {
        '2'
    } else if d == 3 {
        '3'
    } else if d == 4 {
        '4'
    } else if d == 5 {
        '5'
    } else if d == 6 {
        '6'
    } else if d == 7 {
        '7'
    } else if d == 8 {
        '8'
    } else {
        '9'
    }
}

/// Appends the decimal digits of `n` to `s`.
pub fn push_decimal(s: &mut String, n: u64)
    ensures
        final(s)@ == old(s)@ + decimal_digits(n as nat),
    decreases n,
{
    if n >= 10 {
        push_decimal(s, n / 10);
    }
    s.push(digit_to_char(n % 10));
    proof {
        if n >= 10 {
            assert(final(s)@ =~= old(s)@ + decimal_digits(n as nat));
        } else {
            assert(final(s)@ =~= old(s)@ + decimal_digits(n as nat));
        }
    }
}

/// Decimal digits are ASCII digits, at least one of them.
pub proof fn lemma_decimal_digits_ascii(n: nat)
    ensures
        decimal_digits(n).len() >= 1,
        forall|i: int| 0 <= i < decimal_digits(n).len() ==> '0' <= #[trigger] decimal_digits(n)[i] <= '9',
    decreases n,
{
    if n >= 10 {
        lemma_decimal_digits_ascii(n / 10);
    }
}

/// Numeric value of the ASCII digit `c`.
pub open spec fn digit_value(c: char) -> nat {
    ((c as u32) - ('0' as u32)) as nat
}

/// True for `'0'..='9'`.
pub open spec fn is_ascii_digit(c: char) -> bool {
    '0' <= c <= '9'
}

/// Value of a string of decimal digits, most significant first.
pub open spec fn digits_value(d: Seq<char>) -> nat
    decreases d.len(),
{
    if d.len() == 0 {
        0
    } else {
        digits_value(d.drop_last()) * 10 + digit_value(d.last())
    }
}

/// The decimal digits of `n` have value `n`.
pub proof fn lemma_decimal_digits_value(n: nat)
    ensures
        digits_value(decimal_digits(n)) == n,
    decreases n,
{
    if n >= 10 {
        lemma_decimal_digits_value(n / 10);
        let d = decimal_digits(n);
        assert(d.drop_last() =~= decimal_digits(n / 10));
        assert(d.last() == digit_char(n % 10));
        assert(digit_value(digit_char(n % 10)) == n % 10);
        assert(digits_value(d) == digits_value(d.drop_last()) * 10 + digit_value(d.last()));
        assert((n / 10) * 10 + n % 10 == n) by (nonlinear_arith);
        assert(digits_value(d.drop_last()) == n / 10);
        assert(digits_value(d) == (n / 10) * 10 + n % 10);
    } else {
        let d = decimal_digits(n);
        assert(d.drop_last() =~= Seq::<char>::empty());
        assert(digits_value(d.drop_last()) == 0);
        assert(d.last() == digit_char(n));
        assert(digit_value(digit_char(n)) == n);
        assert(digits_value(d) == digits_value(d.drop_last()) * 10 + digit_value(d.last()));
    }
}

/// Reading back the decimal digits of a `u64` gives the number, and
/// trimming them changes nothing.
pub proof fn lemma_decimal_digits_parse(n: u64)
    ensures
        parse_u64_seq(decimal_digits(n as nat)) == Some(n),
        trim_seq(decimal_digits(n as nat)) == decimal_digits(n as nat),
{
    let d = decimal_digits(n as nat);
    lemma_decimal_digits_ascii(n as nat);
    lemma_decimal_digits_value(n as nat);
    assert(d[0] != '+');
    assert(unsigned_digits_part(d) == d);
    assert(!is_white_space(d[0]));
    assert(!is_white_space(d[d.len() - 1]));
    assert(ws_prefix_end(d, 0) == 0);
    assert(ws_suffix_start(d, d.len() as int, 0) == d.len());
    assert(d.subrange(0, d.len() as int) =~= d);
}

/// The characters that `u64::from_str` reads as digits: `s` without one
/// optional leading `+`.
pub open spec fn unsigned_digits_part(s: Seq<char>) -> Seq<char> {
    if s.len() > 0 && s[0] == '+' {
        s.drop_first()
    } else {
        s
    }
}

/// What `str::parse::<u64>` returns for `s`: an optional `+`, then one or
/// more ASCII digits whose value fits in a `u64`.
pub open spec fn parse_u64_seq(s: Seq<char>) -> Option<u64> {
    let d = unsigned_digits_part(s);
    if d.len() > 0 && (forall|i: int| 0 <= i < d.len() ==> is_ascii_digit(#[trigger] d[i]))
        && digits_value(d) <= u64::MAX {
        Some(digits_value(d) as u64)
    } else {
        None
    }
}

proof fn lemma_digits_value_monotone(d: Seq<char>, k: int)
    requires
        0 <= k <= d.len(),
        forall|i: int| 0 <= i < d.len() ==> is_ascii_digit(#[trigger] d[i]),
    ensures
        digits_value(d.take(k)) <= digits_value(d),
    decreases d.len() - k,
{
    if k < d.len() {
        lemma_digits_value_monotone(d, k + 1);
        assert(d.take(k + 1).drop_last() =~= d.take(k));
        assert(digits_value(d.take(k + 1)) == digits_value(d.take(k)) * 10 + digit_value(
            d.take(k + 1).last(),
        ));
    } else {
        assert(d.take(k) =~= d);
    }
}

/// Parses `v[lo..hi]` the way `str::parse::<u64>` does.
pub fn parse_u64_range(v: &Vec<char>, lo: usize, hi: usize) -> (r: Option<u64>)
    requires
        lo <= hi <= v.len(),
    ensures
        r == parse_u64_seq(v@.subrange(lo as int, hi as int)),
{
    let ghost s = v@.subrange(lo as int, hi as int);
    let mut start = lo;
    if lo < hi && v[lo] == '+' {
        start = lo + 1;
    }
    let ghost d = v@.subrange(start as int, hi as int);
    proof {
        assert(d =~= unsigned_digits_part(s));
    }
    if start == hi {
        return None;
    }
    let mut value: u64 = 0;
    let mut i = start;
    while i < hi
        invariant
            lo <= start <= i <= hi <= v.len(),
            d == v@.subrange(start as int, hi as int),
            s == v@.subrange(lo as int, hi as int),
            d == unsigned_digits_part(s),
            forall|k: int| 0 <= k < i - start ==> is_ascii_digit(#[trigger] d[k]),
            value as nat == digits_value(d.take(i - start)),
        decreases hi - i,
    {
        let c = v[i];
        if !('0' <= c && c <= '9') {
            proof {
                assert(!is_ascii_digit(d[i - start]));
            }
            return None;
        }
        let digit = (c as u32 - '0' as u32) as u64;
        proof {
            assert(d.take(i - start + 1).drop_last() =~= d.take(i - start));
            assert(d.take(i - start + 1).last() == c);
        }
        if value > (u64::MAX - digit) / 10 {
            proof {
                assert(digits_value(d.take(i - start + 1)) == value * 10 + digit);
                assert(value * 10 + digit > u64::MAX) by (nonlinear_arith)
                    requires
                        value > (u64::MAX - digit) / 10,
                        digit <= 9,
                ;
                if forall|k: int| 0 <= k < d.len() ==> is_ascii_digit(#[trigger] d[k]) {
                    lemma_digits_value_monotone(d, i - start + 1);
                }
            }
            return None;
        }
        proof {
            assert(value * 10 + digit <= u64::MAX) by (nonlinear_arith)
                requires
                    value <= (u64::MAX - digit) / 10,
                    digit <= 9,
            ;
        }
        value = value * 10 + digit;
        i = i + 1;
    }
    proof {
        assert(d.take(i - start) =~= d);
    }
    Some(value)
}

/// What `String::from_utf8_lossy` returns for `bytes`: the decoded text, with
/// each ill-formed sequence replaced by U+FFFD.
pub uninterp spec fn utf8_lossy(bytes: Seq<u8>) -> Seq<char>;

/// Calls `String::from_utf8_lossy`. The contract names the result and states,
/// as the documentation does, that well-formed UTF-8 decodes unchanged; how
/// ill-formed input is replaced is left to the name.
#[verifier::external_body]
pub(crate) fn lossy_string(bytes: &[u8]) -> (s: String)
    ensures
        s@ == utf8_lossy(bytes@),
        valid_utf8(bytes@) ==> s@ == decode_utf8(bytes@),
{
    String::from_utf8_lossy(bytes).into_owned()
}

} // verus!
