//! Character and string helpers with exact specifications.
//!
//! Text is handled as sequences of Unicode scalar values (`Seq<char>`), the
//! view that vstd gives to `str` and `String`.
use vstd::prelude::*;

verus! {

// ---------------------------------------------------------------------------
// Character classes
// ---------------------------------------------------------------------------

/// Unicode `White_Space`, the property that `char::is_whitespace` tests.
pub open spec fn is_ws(c: char) -> bool {
    let u = c as u32;
    ||| (0x09 <= u && u <= 0x0d)
    ||| u == 0x20
    ||| u == 0x85
    ||| u == 0xa0
    ||| u == 0x1680
    ||| (0x2000 <= u && u <= 0x200a)
    ||| u == 0x2028
    ||| u == 0x2029
    ||| u == 0x202f
    ||| u == 0x205f
    ||| u == 0x3000
}

/// Whether `c` is Unicode white space.
pub fn is_whitespace(c: char) -> (r: bool)
    ensures
        r == is_ws(c),
{
    let u = c as u32;
    (0x09 <= u && u <= 0x0d) || u == 0x20 || u == 0x85 || u == 0xa0 || u == 0x1680 || (0x2000
        <= u && u <= 0x200a) || u == 0x2028 || u == 0x2029 || u == 0x202f || u == 0x205f || u
        == 0x3000
}

/// The number of bytes that `c` takes in UTF-8.
pub open spec fn utf8_len(c: char) -> nat {
    let u = c as u32;
    if u < 0x80 {
        1
    } else if u < 0x800 {
        2
    } else if u < 0x10000 {
        3
    } else {
        4
    }
}

/// The number of UTF-16 code units that `c` takes.
pub open spec fn utf16_len(c: char) -> nat {
    if (c as u32) < 0x10000 {
        1
    } else {
        2
    }
}

/// The number of bytes that `s` takes in UTF-8.
pub open spec fn utf8_size(s: Seq<char>) -> nat
    decreases s.len(),
{
    if s.len() == 0 {
        0
    } else {
        utf8_size(s.drop_last()) + utf8_len(s.last())
    }
}

/// The number of UTF-16 code units that `s` takes.
pub open spec fn utf16_size(s: Seq<char>) -> nat
    decreases s.len(),
{
    if s.len() == 0 {
        0
    } else {
        utf16_size(s.drop_last()) + utf16_len(s.last())
    }
}

/// The UTF-8 size of a prefix is at most that of the whole.
pub proof fn lemma_utf8_size_prefix(s: Seq<char>, i: int)
    requires
        0 <= i <= s.len(),
    ensures
        utf8_size(s.take(i)) <= utf8_size(s),
        i < s.len() ==> utf8_size(s.take(i)) < utf8_size(s),
    decreases s.len() - i,
{
    if i < s.len() {
        lemma_utf8_size_prefix(s, i + 1);
        assert(s.take(i + 1).drop_last() == s.take(i));
    } else {
        assert(s.take(i) == s);
    }
}

pub fn char_utf8_len(c: char) -> (r: usize)
    ensures
        r == utf8_len(c),
{
    let u = c as u32;
    if u < 0x80 {
        1
    } else if u < 0x800 {
        2
    } else if u < 0x10000 {
        3
    } else {
        4
    }
}

pub fn char_utf16_len(c: char) -> (r: usize)
    ensures
        r == utf16_len(c),
{
    if (c as u32) < 0x10000 {
        1
    } else {
        2
    }
}

/// `c` with ASCII upper-case letters mapped to lower case.
pub open spec fn ascii_lower(c: char) -> char {
    if 'A' <= c && c <= 'Z' {
        ((c as u32) + 32) as char
    } else {
        c
    }
}

/// What `str::eq_ignore_ascii_case` decides.
pub open spec fn eq_ascii_ci(a: Seq<char>, b: Seq<char>) -> bool {
    a.len() == b.len() && forall|i: int| 0 <= i < a.len() ==> ascii_lower(a[i]) == ascii_lower(b[i])
}

pub fn ascii_lower_char(c: char) -> (r: char)
    ensures
        r == ascii_lower(c),
{
    if 'A' <= c && c <= 'Z' {
        let u = (c as u32) + 32;
        assert(0x61 <= u <= 0x7a);
        char_from_ascii(u)
    } else {
        c
    }
}

/// The character with the given ASCII code.
pub fn char_from_ascii(u: u32) -> (c: char)
    requires
        u < 0x80,
    ensures
        c as u32 == u,
{
    let b = u as u8;
    b as char
}

/// Whether `a` and `b` are equal up to ASCII case.
pub fn eq_ignore_ascii_case(a: &[char], b: &[char]) -> (r: bool)
    ensures
        r == eq_ascii_ci(a@, b@),
{
    if a.len() != b.len() {
        return false;
    }
    let mut i: usize = 0;
    while i < a.len()
        invariant
            a.len() == b.len(),
            i <= a.len(),
            forall|j: int| 0 <= j < i ==> ascii_lower(a@[j]) == ascii_lower(b@[j]),
        decreases a.len() - i,
    {
        if ascii_lower_char(a[i]) != ascii_lower_char(b[i]) {
            return false;
        }
        i += 1;
    }
    true
}

// ---------------------------------------------------------------------------
// Conversions between `str` and character vectors
// ---------------------------------------------------------------------------

/// `String` built from the characters of `v` (`Iterator::collect`).
#[verifier::external_body]
pub(crate) fn string_of(v: &[char]) -> (s: String)
    ensures
        s@ == v@,
{
    v.iter().collect()
}

/// The characters of `s` (`str::chars`, collected). A `str` holds at most
/// `isize::MAX` bytes and each character takes at least one.
#[verifier::external_body]
pub(crate) fn chars_of(s: &str) -> (v: Vec<char>)
    ensures
        v@ == s@,
        v@.len() <= isize::MAX,
        utf8_size(v@) <= isize::MAX,
{
    s.chars().collect()
}

/// Appends the characters of `s` to `out`.
pub fn extend(out: &mut Vec<char>, s: &[char])
    ensures
        final(out)@ == old(out)@ + s@,
{
    let mut i: usize = 0;
    while i < s.len()
        invariant
            i <= s.len(),
            out@ == old(out)@ + s@.take(i as int),
        decreases s.len() - i,
    {
        out.push(s[i]);
        i += 1;
        assert(s@.take(i as int) == s@.take(i - 1) + seq![s@[i - 1]]);
    }
    assert(s@.take(s.len() as int) == s@);
}

/// Appends the characters of the string `s` to `out`.
pub fn push_str(out: &mut Vec<char>, s: &str)
    ensures
        final(out)@ == old(out)@ + s@,
{
    let v = chars_of(s);
    extend(out, v.as_slice());
}

/// A copy of `s[from..to]`.
pub fn slice_copy(s: &[char], from: usize, to: usize) -> (r: Vec<char>)
    requires
        from <= to <= s.len(),
    ensures
        r@ == s@.subrange(from as int, to as int),
{
    let mut r: Vec<char> = Vec::new();
    let mut i = from;
    while i < to
        invariant
            from <= i <= to <= s.len(),
            r@ == s@.subrange(from as int, i as int),
        decreases to - i,
    {
        r.push(s[i]);
        i += 1;
    }
    r
}

// ---------------------------------------------------------------------------
// Decimal and hexadecimal numerals
// ---------------------------------------------------------------------------

pub open spec fn digit_char(d: nat) -> char {
    ((d + 48) as u32) as char
}

/// The decimal numeral of `n`, as `Display` writes an unsigned integer.
pub open spec fn decimal(n: nat) -> Seq<char>
    decreases n,
{
    if n < 10 {
        seq![digit_char(n)]
    } else {
        decimal(n / 10).push(digit_char(n % 10))
    }
}

/// The decimal numeral of `n`.
pub fn decimal_chars(n: usize) -> (r: Vec<char>)
    ensures
        r@ == decimal(n as nat),
    decreases n,
{
    let d = char_from_ascii((n % 10) as u32 + 48);
    if n < 10 {
        let mut r = Vec::new();
        r.push(d);
        r
    } else {
        let mut r = decimal_chars(n / 10);
        r.push(d);
        r
    }
}

/// The decimal numeral of a 64-bit `n`.
pub fn decimal_chars_u64(n: u64) -> (r: Vec<char>)
    ensures
        r@ == decimal(n as nat),
    decreases n,
{
    let d = char_from_ascii((n % 10) as u32 + 48);
    if n < 10 {
        let mut r = Vec::new();
        r.push(d);
        r
    } else {
        let mut r = decimal_chars_u64(n / 10);
        r.push(d);
        r
    }
}

pub open spec fn hex_char(d: nat) -> char {
    if d < 10 {
        ((d + 48) as u32) as char
    } else {
        ((d + 87) as u32) as char
    }
}

/// The lowest `k` hexadecimal digits of `n` in lower case, most significant
/// first, as `format!("{:0k$x}", n)` writes `n` when it fits in `k` digits.
pub open spec fn hex_digits(n: nat, k: nat) -> Seq<char>
    decreases k,
{
    if k == 0 {
        Seq::empty()
    } else {
        hex_digits(n / 16, (k - 1) as nat).push(hex_char(n % 16))
    }
}

/// The sixteen lower-case hexadecimal digits of `n`, zero padded.
pub fn hex16(n: u64) -> (r: Vec<char>)
    ensures
        r@ == hex_digits(n as nat, 16),
{
    let mut digits: Vec<char> = Vec::new();
    let mut k: usize = 0;
    let mut m: u64 = n;
    assert(pow16(0) == 1);
    assert((n as nat) / 1 == n as nat);
    // Collect the digits least significant first, then reverse.
    while k < 16
        invariant
            k <= 16,
            digits.len() == k,
            forall|j: int|
                0 <= j < k ==> #[trigger] digits@[j] == hex_char(
                    ((n as nat) / pow16(j as nat)) % 16,
                ),
            m as nat == (n as nat) / pow16(k as nat),
        decreases 16 - k,
    {
        let d = (m % 16) as u32;
        let c = if d < 10 {
            char_from_ascii(d + 48)
        } else {
            char_from_ascii(d + 87)
        };
        digits.push(c);
        proof {
            lemma_div_pow16(n as nat, k as nat);
        }
        m = m / 16;
        k += 1;
    }
    let mut r: Vec<char> = Vec::new();
    let mut i: usize = 16;
    while i > 0
        invariant
            i <= 16,
            digits.len() == 16,
            forall|j: int|
                0 <= j < 16 ==> #[trigger] digits@[j] == hex_char(
                    ((n as nat) / pow16(j as nat)) % 16,
                ),
            r@ == hex_digits((n as nat) / pow16(i as nat), (16 - i) as nat),
        decreases i,
    {
        i -= 1;
        let c = digits[i];
        r.push(c);
        proof {
            lemma_div_pow16(n as nat, i as nat);
            let q = (n as nat) / pow16(i as nat);
            assert(q / 16 == (n as nat) / pow16((i + 1) as nat));
            let k: nat = (16 - i) as nat;
            assert(k > 0);
            lemma_hex_step(q, k);
            assert((k - 1) as nat == (16 - (i + 1)) as nat);
        }
    }
    proof {
        assert(pow16(0) == 1);
    }
    r
}

proof fn lemma_hex_step(q: nat, k: nat)
    requires
        k > 0,
    ensures
        hex_digits(q, k) == hex_digits(q / 16, (k - 1) as nat).push(hex_char(q % 16)),
{
}

pub open spec fn pow16(k: nat) -> nat
    decreases k,
{
    if k == 0 {
        1
    } else {
        16 * pow16((k - 1) as nat)
    }
}

proof fn lemma_pow16_pos(k: nat)
    ensures
        pow16(k) > 0,
    decreases k,
{
    if k > 0 {
        lemma_pow16_pos((k - 1) as nat);
    }
}

proof fn lemma_div_pow16(n: nat, k: nat)
    ensures
        (n / pow16(k)) / 16 == n / pow16(k + 1),
{
    lemma_pow16_pos(k);
    assert(pow16(k + 1) == 16 * pow16(k));
    vstd::arithmetic::div_mod::lemma_div_denominator(n as int, pow16(k) as int, 16);
    vstd::arithmetic::mul::lemma_mul_is_commutative(pow16(k) as int, 16);
}

// ---------------------------------------------------------------------------
// Parsing unsigned integers
// ---------------------------------------------------------------------------

pub open spec fn is_digit(c: char) -> bool {
    '0' <= c && c <= '9'
}

pub open spec fn digit_value(c: char) -> nat {
    ((c as u32) - 48) as nat
}

/// The value of a string of decimal digits.
pub open spec fn digits_value(s: Seq<char>) -> nat
    decreases s.len(),
{
    if s.len() == 0 {
        0
    } else {
        digits_value(s.drop_last()) * 10 + digit_value(s.last())
    }
}

pub open spec fn all_digits(s: Seq<char>) -> bool {
    forall|i: int| 0 <= i < s.len() ==> is_digit(#[trigger] s[i])
}

/// The digits that `<usize as FromStr>::from_str` reads: all of `s`, or all
/// of it after one leading `+`.
pub open spec fn unsigned_body(s: Seq<char>) -> Seq<char> {
    if s.len() > 0 && s[0] == '+' {
        s.drop_first()
    } else {
        s
    }
}

/// What `<usize as FromStr>::from_str` returns on `s`.
pub open spec fn parse_usize_spec(s: Seq<char>) -> Option<usize> {
    let body = unsigned_body(s);
    if body.len() > 0 && all_digits(body) && digits_value(body) <= usize::MAX {
        Some(digits_value(body) as usize)
    } else {
        None
    }
}

proof fn lemma_digits_value_mono(s: Seq<char>, i: int)
    requires
        0 <= i <= s.len(),
        all_digits(s),
    ensures
        digits_value(s.take(i)) <= digits_value(s),
    decreases s.len() - i,
{
    if i < s.len() {
        lemma_digits_value_mono(s, i + 1);
        assert(s.take(i + 1).drop_last() == s.take(i));
        let v = digits_value(s.take(i));
        assert(digits_value(s.take(i + 1)) == v * 10 + digit_value(s[i]));
        assert(v <= v * 10) by (nonlinear_arith);
    } else {
        assert(s.take(i) == s);
    }
}

proof fn lemma_decimal_digits(n: nat)
    ensures
        decimal(n).len() > 0,
        all_digits(decimal(n)),
        digits_value(decimal(n)) == n,
    decreases n,
{
    if n < 10 {
        assert(digit_value(digit_char(n)) == n);
        assert(seq![digit_char(n)].drop_last() =~= Seq::<char>::empty());
        assert(digits_value(Seq::<char>::empty()) == 0);
        assert(seq![digit_char(n)].last() == digit_char(n));
        assert(digits_value(seq![digit_char(n)]) == n);
    } else {
        lemma_decimal_digits(n / 10);
        let d = decimal(n / 10);
        assert(d.push(digit_char(n % 10)).drop_last() == d);
        assert(digit_value(digit_char(n % 10)) == n % 10);
        assert(d.push(digit_char(n % 10)).last() == digit_char(n % 10));
        assert((n / 10) * 10 + n % 10 == n);
        assert(digits_value(decimal(n)) == digits_value(d) * 10 + digit_value(digit_char(n % 10)));
    }
}

/// Reading the numeral of a number gives the number back.
pub proof fn lemma_decimal_parses(n: usize)
    ensures
        parse_usize_spec(decimal(n as nat)) == Some(n),
        all_digits(decimal(n as nat)),
{
    lemma_decimal_digits(n as nat);
    assert(is_digit(decimal(n as nat)[0]));
}

/// Parses `s` as `str::parse::<usize>` does.
pub fn parse_usize(s: &[char]) -> (r: Option<usize>)
    ensures
        r == parse_usize_spec(s@),
{
    let start: usize = if s.len() > 0 && s[0] == '+' {
        1
    } else {
        0
    };
    let ghost body = unsigned_body(s@);
    assert(body == s@.subrange(start as int, s@.len() as int));
    if start >= s.len() {
        return None;
    }
    let mut value: usize = 0;
    let mut i = start;
    while i < s.len()
        invariant
            start <= i <= s.len(),
            start < s.len(),
            body == s@.subrange(start as int, s@.len() as int),
            body == unsigned_body(s@),
            all_digits(body.take(i - start)),
            value as nat == digits_value(body.take(i - start)),
        decreases s.len() - i,
    {
        let c = s[i];
        if !('0' <= c && c <= '9') {
            assert(body[i - start] == c);
            assert(!is_digit(body[i - start]));
            return None;
        }
        let d = (c as u32 - 48) as usize;
        assert(body.take(i - start + 1).drop_last() == body.take(i - start));
        assert(body.take(i - start + 1).last() == c);
        assert(digits_value(body.take(i - start + 1)) == value * 10 + d);
        let next = match value.checked_mul(10) {
            Some(t) => t.checked_add(d),
            None => None,
        };
        if next.is_none() {
            proof {
                assert(value * 10 + d > usize::MAX);
                if all_digits(body) {
                    lemma_digits_value_mono(body, i - start + 1);
                }
            }
            return None;
        }
        proof {
            assert forall|j: int| 0 <= j < i - start + 1 implies is_digit(
                #[trigger] body.take(i - start + 1)[j],
            ) by {
                if j < i - start {
                    assert(body.take(i - start)[j] == body.take(i - start + 1)[j]);
                }
            }
        }
        value = next.unwrap();
        i += 1;
    }
    assert(body.take(s.len() - start) == body);
    Some(value)
}

// ---------------------------------------------------------------------------
// Trimming and white-space compaction
// ---------------------------------------------------------------------------

/// `s` without its leading white space (`str::trim_start`).
pub open spec fn trim_start(s: Seq<char>) -> Seq<char>
    decreases s.len(),
{
    if s.len() > 0 && is_ws(s[0]) {
        trim_start(s.drop_first())
    } else {
        s
    }
}

/// `s` without its trailing white space (`str::trim_end`).
pub open spec fn trim_end(s: Seq<char>) -> Seq<char>
    decreases s.len(),
{
    if s.len() > 0 && is_ws(s.last()) {
        trim_end(s.drop_last())
    } else {
        s
    }
}

/// `s` without leading and trailing white space (`str::trim`).
pub open spec fn trim(s: Seq<char>) -> Seq<char> {
    trim_end(trim_start(s))
}

/// `s` with every run of white space between two other characters replaced
/// by one space and all other white space removed: the words of `s`
/// (`str::split_whitespace`) joined by single spaces.
pub open spec fn squash(s: Seq<char>) -> Seq<char>
    decreases s.len(),
{
    if s.len() == 0 {
        Seq::empty()
    } else {
        let p = squash(s.drop_last());
        let c = s.last();
        if is_ws(c) {
            p
        } else if p.len() > 0 && is_ws(s[s.len() - 2]) {
            p.push(' ').push(c)
        } else {
            p.push(c)
        }
    }
}

/// The index of the first character of `s` that is not white space, at or
/// after `i`.
fn skip_ws_forward(s: &[char], i: usize) -> (j: usize)
    requires
        i <= s.len(),
    ensures
        i <= j <= s.len(),
        j < s.len() ==> !is_ws(s@[j as int]),
        forall|k: int| i <= k < j ==> is_ws(#[trigger] s@[k]),
{
    let mut j = i;
    while j < s.len() && is_whitespace(s[j])
        invariant
            i <= j <= s.len(),
            forall|k: int| i <= k < j ==> is_ws(#[trigger] s@[k]),
        decreases s.len() - j,
    {
        j += 1;
    }
    j
}

proof fn lemma_trim_start_skip(s: Seq<char>, i: int)
    requires
        0 <= i <= s.len(),
        forall|k: int| 0 <= k < i ==> is_ws(#[trigger] s[k]),
    ensures
        trim_start(s) == trim_start(s.skip(i)),
    decreases i,
{
    if i > 0 {
        lemma_trim_start_skip(s, i - 1);
        assert(s.skip(i - 1).drop_first() == s.skip(i));
        assert(s.skip(i - 1)[0] == s[i - 1]);
    } else {
        assert(s.skip(0) == s);
    }
}

proof fn lemma_trim_end_take(s: Seq<char>, j: int)
    requires
        0 <= j <= s.len(),
        forall|k: int| j <= k < s.len() ==> is_ws(#[trigger] s[k]),
    ensures
        trim_end(s) == trim_end(s.take(j)),
    decreases s.len() - j,
{
    if j < s.len() {
        lemma_trim_end_take(s, j + 1);
        assert(s.take(j + 1).drop_last() == s.take(j));
        assert(s.take(j + 1).last() == s[j]);
    } else {
        assert(s.take(j) == s);
    }
}

/// The bounds of `trim(s)` within `s`.
pub fn trim_bounds(s: &[char]) -> (r: (usize, usize))
    ensures
        r.0 <= r.1 <= s.len(),
        s@.subrange(r.0 as int, r.1 as int) == trim(s@),
{
    let a = skip_ws_forward(s, 0);
    proof {
        lemma_trim_start_skip(s@, a as int);
        if a < s.len() {
            assert(s@.skip(a as int)[0] == s@[a as int]);
        }
    }
    let mut b = s.len();
    while b > a && is_whitespace(s[b - 1])
        invariant
            a <= b <= s.len(),
            forall|k: int| b <= k < s.len() ==> is_ws(#[trigger] s@[k]),
        decreases b,
    {
        b -= 1;
    }
    proof {
        let t = s@.skip(a as int);
        assert(trim_start(s@) == t);
        lemma_trim_end_take(t, (b - a) as int);
        assert(t.take((b - a) as int) == s@.subrange(a as int, b as int));
        let u = t.take((b - a) as int);
        if u.len() > 0 {
            assert(u.last() == s@[b - 1]);
        }
    }
    (a, b)
}

/// `s` with leading white space removed.
pub fn trimmed_start(s: &[char]) -> (r: Vec<char>)
    ensures
        r@ == trim_start(s@),
{
    let a = skip_ws_forward(s, 0);
    proof {
        lemma_trim_start_skip(s@, a as int);
        if a < s.len() {
            assert(s@.skip(a as int)[0] == s@[a as int]);
        }
    }
    slice_copy(s, a, s.len())
}

/// `s` with leading and trailing white space removed.
pub fn trimmed(s: &[char]) -> (r: Vec<char>)
    ensures
        r@ == trim(s@),
{
    let (a, b) = trim_bounds(s);
    slice_copy(s, a, b)
}

/// Whether `s` is empty or all white space (`s.trim().is_empty()`).
pub fn is_blank(s: &[char]) -> (r: bool)
    ensures
        r == (trim(s@).len() == 0),
{
    let (a, b) = trim_bounds(s);
    a == b
}

/// The words of `s` joined by single spaces.
pub fn squash_whitespace(s: &[char]) -> (r: Vec<char>)
    ensures
        r@ == squash(s@),
{
    let mut out: Vec<char> = Vec::new();
    let mut i: usize = 0;
    assert(s@.take(0) == Seq::<char>::empty());
    while i < s.len()
        invariant
            i <= s.len(),
            out@ == squash(s@.take(i as int)),
        decreases s.len() - i,
    {
        let c = s[i];
        let ghost t = s@.take(i + 1);
        assert(t.drop_last() == s@.take(i as int));
        assert(t.last() == c);
        if is_whitespace(c) {
        } else if out.len() > 0 && is_whitespace(s[i - 1]) {
            assert(t[t.len() - 2] == s@[i - 1]);
            out.push(' ');
            out.push(c);
        } else {
            if i > 0 {
                assert(t[t.len() - 2] == s@[i - 1]);
            }
            out.push(c);
        }
        i += 1;
    }
    assert(s@.take(s.len() as int) == s@);
    out
}

// ---------------------------------------------------------------------------
// Prefixes, suffixes and sub-strings
// ---------------------------------------------------------------------------

/// Whether `p` occurs in `s` at index `i`.
pub open spec fn occurs_at(s: Seq<char>, p: Seq<char>, i: int) -> bool {
    0 <= i && i + p.len() <= s.len() && s.subrange(i, i + p.len()) == p
}

/// Whether `p` occurs in `s` (`str::contains`).
pub open spec fn contains_seq(s: Seq<char>, p: Seq<char>) -> bool {
    exists|i: int| occurs_at(s, p, i)
}

/// Whether `s` starts with `p`.
pub fn starts_with(s: &[char], p: &[char]) -> (r: bool)
    ensures
        r == p@.is_prefix_of(s@),
{
    if p.len() > s.len() {
        return false;
    }
    let mut i: usize = 0;
    while i < p.len()
        invariant
            p.len() <= s.len(),
            i <= p.len(),
            forall|k: int| 0 <= k < i ==> s@[k] == p@[k],
        decreases p.len() - i,
    {
        if s[i] != p[i] {
            return false;
        }
        i += 1;
    }
    assert(p@ =~= s@.subrange(0, p.len() as int));
    true
}

/// Whether `p` occurs in `s` at index `i`.
pub fn occurs_at_exec(s: &[char], p: &[char], i: usize) -> (r: bool)
    ensures
        r == occurs_at(s@, p@, i as int),
{
    if i > s.len() || p.len() > s.len() - i {
        return false;
    }
    let mut k: usize = 0;
    while k < p.len()
        invariant
            i + p.len() <= s.len(),
            k <= p.len(),
            forall|m: int| 0 <= m < k ==> s@[i + m] == p@[m],
        decreases p.len() - k,
    {
        if s[i + k] != p[k] {
            assert(s@.subrange(i as int, i + p.len())[k as int] == s@[i + k]);
            return false;
        }
        k += 1;
    }
    assert(s@.subrange(i as int, i + p.len()) =~= p@);
    true
}

/// Whether `p` occurs in `s`.
pub fn contains(s: &[char], p: &[char]) -> (r: bool)
    ensures
        r == contains_seq(s@, p@),
{
    if p.len() > s.len() {
        return false;
    }
    let last = s.len() - p.len();
    let mut i: usize = 0;
    while i <= last
        invariant
            last == s.len() - p.len(),
            i <= last + 1,
            forall|k: int| 0 <= k < i ==> !occurs_at(s@, p@, k),
        decreases last + 1 - i,
    {
        if occurs_at_exec(s, p, i) {
            return true;
        }
        if i == last {
            assert forall|k: int| !occurs_at(s@, p@, k) by {
                if 0 <= k && k < i {
                } else if k > i {
                }
            }
            return false;
        }
        i += 1;
    }
    assert forall|k: int| !occurs_at(s@, p@, k) by {
        if 0 <= k && k < i {
        }
    }
    false
}

/// Whether `s` ends with the character `c`.
pub fn ends_with_char(s: &[char], c: char) -> (r: bool)
    ensures
        r == (s@.len() > 0 && s@.last() == c),
{
    s.len() > 0 && s[s.len() - 1] == c
}

/// `parts` joined by `sep`.
pub open spec fn join(parts: Seq<Seq<char>>, sep: Seq<char>) -> Seq<char>
    decreases parts.len(),
{
    if parts.len() == 0 {
        Seq::empty()
    } else if parts.len() == 1 {
        parts[0]
    } else {
        join(parts.drop_last(), sep) + sep + parts.last()
    }
}

/// `parts` joined by `sep` (`[String]::join`).
pub fn join_with(parts: &Vec<Vec<char>>, sep: &[char]) -> (r: Vec<char>)
    ensures
        r@ == join(views(parts@), sep@),
{
    let mut out: Vec<char> = Vec::new();
    let mut i: usize = 0;
    while i < parts.len()
        invariant
            i <= parts.len(),
            out@ == join(views(parts@).take(i as int), sep@),
        decreases parts.len() - i,
    {
        let ghost before = views(parts@).take(i as int);
        let ghost after = views(parts@).take(i + 1);
        assert(after.drop_last() == before);
        if i > 0 {
            extend(&mut out, sep);
        }
        extend(&mut out, parts[i].as_slice());
        i += 1;
        proof {
            if i == 1 {
                assert(before.len() == 0);
            }
        }
    }
    assert(views(parts@).take(parts.len() as int) == views(parts@));
    out
}

/// The views of a sequence of character vectors.
pub open spec fn views(v: Seq<Vec<char>>) -> Seq<Seq<char>> {
    v.map_values(|x: Vec<char>| x@)
}

/// The elements of `s` that satisfy `f`, in order.
pub open spec fn keep<T>(s: Seq<T>, f: spec_fn(T) -> bool) -> Seq<T>
    decreases s.len(),
{
    if s.len() == 0 {
        Seq::empty()
    } else {
        let k = keep(s.drop_last(), f);
        if f(s.last()) {
            k.push(s.last())
        } else {
            k
        }
    }
}

/// One step of `keep` over a growing prefix.
pub proof fn lemma_keep_step<T>(s: Seq<T>, f: spec_fn(T) -> bool, i: int)
    requires
        0 <= i < s.len(),
    ensures
        keep(s.take(i + 1), f) == if f(s[i]) {
            keep(s.take(i), f).push(s[i])
        } else {
            keep(s.take(i), f)
        },
{
    assert(s.take(i + 1).drop_last() == s.take(i));
    assert(s.take(i + 1).last() == s[i]);
}

/// `keep` never yields more than it was given.
pub proof fn lemma_keep_len<T>(s: Seq<T>, f: spec_fn(T) -> bool)
    ensures
        keep(s, f).len() <= s.len(),
    decreases s.len(),
{
    if s.len() > 0 {
        lemma_keep_len(s.drop_last(), f);
    }
}

// ---------------------------------------------------------------------------
// Lines
// ---------------------------------------------------------------------------

/// The pieces of `s` between occurrences of `sep` (`str::split(sep)`).
pub open spec fn split_on(s: Seq<char>, sep: char) -> Seq<Seq<char>>
    decreases s.len(),
{
    if s.len() == 0 {
        seq![Seq::empty()]
    } else {
        let p = split_on(s.drop_last(), sep);
        if s.last() == sep {
            p.push(Seq::empty())
        } else {
            p.update(p.len() - 1, p.last().push(s.last()))
        }
    }
}

/// `l` without one trailing `'\r'`.
pub open spec fn strip_cr(l: Seq<char>) -> Seq<char> {
    if l.len() > 0 && l.last() == '\r' {
        l.drop_last()
    } else {
        l
    }
}

/// The lines of `s` as `str::lines` yields them: the pieces between line
/// feeds, without a final empty piece, each piece that a line feed ends
/// losing one trailing carriage return.
pub open spec fn lines(s: Seq<char>) -> Seq<Seq<char>> {
    let p = split_on(s, '\n');
    let n = if p.last().len() == 0 {
        p.len() - 1
    } else {
        p.len() as int
    };
    Seq::new(
        n as nat,
        |i: int|
            if i + 1 < p.len() {
                strip_cr(p[i])
            } else {
                p[i]
            },
    )
}

/// Splitting a text always yields at least one piece.
pub proof fn lemma_split_on_nonempty(s: Seq<char>, sep: char)
    ensures
        split_on(s, sep).len() >= 1,
    decreases s.len(),
{
    if s.len() > 0 {
        lemma_split_on_nonempty(s.drop_last(), sep);
    }
}

/// The pieces of `s` between occurrences of `sep`.
pub fn split_char(s: &[char], sep: char) -> (r: Vec<Vec<char>>)
    ensures
        views(r@) == split_on(s@, sep),
{
    let mut r: Vec<Vec<char>> = Vec::new();
    let mut cur: Vec<char> = Vec::new();
    let mut i: usize = 0;
    assert(s@.take(0) == Seq::<char>::empty());
    while i < s.len()
        invariant
            i <= s.len(),
            views(r@).push(cur@) == split_on(s@.take(i as int), sep),
        decreases s.len() - i,
    {
        proof {
            lemma_split_on_nonempty(s@.take(i as int), sep);
        }
        let c = s[i];
        let ghost t = s@.take(i + 1);
        assert(t.drop_last() == s@.take(i as int));
        assert(t.last() == c);
        let ghost old_r = views(r@);
        let ghost old_cur = cur@;
        if c == sep {
            let done = cur;
            cur = Vec::new();
            r.push(done);
            assert(views(r@) == old_r.push(old_cur));
        } else {
            cur.push(c);
            assert(views(r@).push(cur@) == old_r.push(old_cur).update(
                old_r.len() as int,
                old_cur.push(c),
            ));
        }
        i += 1;
    }
    assert(s@.take(s.len() as int) == s@);
    let ghost old_r = views(r@);
    r.push(cur);
    assert(views(r@) == old_r.push(cur@));
    r
}

/// The lines of `s` (`str::lines`).
pub fn lines_of(s: &[char]) -> (r: Vec<Vec<char>>)
    ensures
        views(r@) == lines(s@),
{
    let pieces = split_char(s, '\n');
    proof {
        lemma_split_on_nonempty(s@, '\n');
    }
    let n = if pieces[pieces.len() - 1].len() == 0 {
        pieces.len() - 1
    } else {
        pieces.len()
    };
    let mut r: Vec<Vec<char>> = Vec::new();
    let mut i: usize = 0;
    while i < n
        invariant
            n <= pieces.len(),
            views(pieces@) == split_on(s@, '\n'),
            i <= n,
            r.len() == i,
            forall|k: int| 0 <= k < i ==> #[trigger] r@[k]@ == lines(s@)[k],
            n == lines(s@).len(),
        decreases n - i,
    {
        let piece = &pieces[i];
        assert(views(pieces@)[i as int] == piece@);
        if i + 1 < pieces.len() && piece.len() > 0 && piece[piece.len() - 1] == '\r' {
            r.push(slice_copy(piece.as_slice(), 0, piece.len() - 1));
        } else {
            r.push(slice_copy(piece.as_slice(), 0, piece.len()));
        }
        i += 1;
    }
    assert(views(r@) =~= lines(s@));
    r
}

// ---------------------------------------------------------------------------
// Behaviour of the standard library that takes Unicode tables to state
// ---------------------------------------------------------------------------

/// What `str::to_lowercase` returns on a string.
pub uninterp spec fn lowercase(s: Seq<char>) -> Seq<char>;

/// What `char::is_alphanumeric` returns on a character.
pub uninterp spec fn alphanumeric(c: char) -> bool;

/// What `format!("{:?}", s)` writes for a string: `s` quoted, with the
/// escapes of `str::escape_debug`.
pub uninterp spec fn debug_quoted(s: Seq<char>) -> Seq<char>;

/// `str::to_lowercase`: claims only that the result is the Unicode lower
/// case mapping of `s`, a function of `s` alone.
#[verifier::external_body]
pub(crate) fn to_lowercase(s: &[char]) -> (r: Vec<char>)
    ensures
        r@ == lowercase(s@),
{
    let text: String = s.iter().collect();
    text.to_lowercase().chars().collect()
}

/// `char::is_alphanumeric`: claims only that the answer is a function of
/// `c` alone.
#[verifier::external_body]
pub(crate) fn is_alphanumeric(c: char) -> (r: bool)
    ensures
        r == alphanumeric(c),
{
    c.is_alphanumeric()
}

/// `format!("{:?}", s)` for a string: claims only that the result is a
/// function of `s` alone.
#[verifier::external_body]
pub(crate) fn debug_quote(s: &[char]) -> (r: Vec<char>)
    ensures
        r@ == debug_quoted(s@),
{
    let text: String = s.iter().collect();
    format!("{:?}", text).chars().collect()
}

} // verus!
