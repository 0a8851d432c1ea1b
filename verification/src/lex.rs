//! Character-level groundwork: ASCII case folding, digit and hexadecimal
//! classification, conversion between strings and character vectors, string
//! equality, and recognizers for the decimal integer and floating-point
//! literals that type inference relies on.

use vstd::prelude::*;

verus! {

/// ASCII case folding of one character; every other character is unchanged.
pub open spec fn lower_char(c: char) -> char {
    if 'A' <= c && c <= 'Z' {
        ((c as u32 + 32) as char)
    } else {
        c
    }
}

/// ASCII case folding, characterwise.
pub open spec fn lower_seq(s: Seq<char>) -> Seq<char> {
    s.map_values(|c: char| lower_char(c))
}

/// Executable ASCII case folding of one character.
pub fn to_lower_char(c: char) -> (r: char)
    ensures
        r == lower_char(c),
{
    if 'A' <= c && c <= 'Z' {
        ((c as u8) + 32) as char
    } else {
        c
    }
}

pub open spec fn is_digit(c: char) -> bool {
    '0' <= c && c <= '9'
}

pub open spec fn digit_of(c: char) -> int {
    c as u32 - '0' as u32
}

pub open spec fn all_digits(s: Seq<char>) -> bool {
    forall|i: int| 0 <= i < s.len() ==> is_digit(#[trigger] s[i])
}

pub open spec fn is_hex_digit(c: char) -> bool {
    is_digit(c) || ('a' <= c && c <= 'f') || ('A' <= c && c <= 'F')
}

pub open spec fn hex_digit_of(c: char) -> int {
    if is_digit(c) {
        digit_of(c)
    } else if 'a' <= c && c <= 'f' {
        c as u32 - 'a' as u32 + 10
    } else {
        c as u32 - 'A' as u32 + 10
    }
}

/// The characters of a string, in order.
pub fn str_chars(s: &str) -> (v: Vec<char>)
    ensures
        v@ == s@,
{
    let n = s.unicode_len();
    let mut v: Vec<char> = Vec::new();
    let mut i: usize = 0;
    while i < n
        invariant
            i <= n,
            n == s@.len(),
            v@ == s@.take(i as int),
        decreases n - i,
    {
        let c = s.get_char(i);
        v.push(c);
        proof {
            assert(s@.take(i + 1 as int) =~= s@.take(i as int).push(s@[i as int]));
        }
        i = i + 1;
    }
    proof {
        assert(s@.take(n as int) =~= s@);
    }
    v
}

/// Relies on `String: FromIterator<char>`: collecting characters yields the
/// string holding exactly those characters in order.
#[verifier::external_body]
pub fn string_from_chars(v: &Vec<char>) -> (r: String)
    ensures
        r@ == v@,
{
    v.iter().collect()
}

/// Relies on `core::char::from_u32`: the result is `Some` exactly when the
/// code is a Unicode scalar value (not a surrogate, at most 0x10FFFF), and
/// the character returned has that code.
#[verifier::external_body]
pub fn char_from_u32(u: u32) -> (r: Option<char>)
    ensures
        r is Some <==> (u < 0xD800 || (0xE000 <= u && u <= 0x10FFFF)),
        r is Some ==> r->0 as u32 == u,
{
    char::from_u32(u)
}

/// The value of a digit string read in base ten.
pub open spec fn digits_val(s: Seq<char>) -> int
    decreases s.len(),
{
    if s.len() == 0 {
        0
    } else {
        digits_val(s.drop_last()) * 10 + digit_of(s.last())
    }
}

/// The value denoted by a decimal integer literal: an optional sign followed
/// by at least one digit. `None` when the text has another shape.
pub open spec fn int_lit_val(s: Seq<char>) -> Option<int> {
    if s.len() > 0 && (s[0] == '+' || s[0] == '-') {
        if s.len() > 1 && all_digits(s.skip(1)) {
            if s[0] == '-' {
                Some(-digits_val(s.skip(1)))
            } else {
                Some(digits_val(s.skip(1)))
            }
        } else {
            None
        }
    } else {
        if s.len() > 0 && all_digits(s) {
            Some(digits_val(s))
        } else {
            None
        }
    }
}

/// What `i64::from_str` accepts: a decimal integer literal whose value fits.
pub open spec fn i64_lit(s: Seq<char>) -> Option<int> {
    match int_lit_val(s) {
        Some(v) => if i64::MIN <= v <= i64::MAX {
            Some(v)
        } else {
            None
        },
        None => None,
    }
}

proof fn lemma_digits_val_nonneg(s: Seq<char>)
    requires
        all_digits(s),
    ensures
        digits_val(s) >= 0,
    decreases s.len(),
{
    if s.len() > 0 {
        assert(all_digits(s.drop_last()));
        lemma_digits_val_nonneg(s.drop_last());
    }
}

/// Reading more digits never shrinks the value.
proof fn lemma_digits_val_prefix(s: Seq<char>, j: int)
    requires
        all_digits(s),
        0 <= j <= s.len(),
    ensures
        digits_val(s.take(j)) <= digits_val(s),
    decreases s.len() - j,
{
    lemma_digits_val_nonneg(s);
    if j < s.len() {
        lemma_digits_val_prefix(s, j + 1);
        assert(s.take(j + 1).drop_last() =~= s.take(j));
        assert(all_digits(s.take(j + 1)));
        lemma_digits_val_nonneg(s.take(j));
        assert(digits_val(s.take(j + 1)) == digits_val(s.take(j)) * 10 + digit_of(s.take(j + 1).last()));
        assert(digits_val(s.take(j)) * 10 >= digits_val(s.take(j)));
        assert(digit_of(s.take(j + 1).last()) >= 0);
    } else {
        assert(s.take(j) =~= s);
    }
}

/// Reads the digits of `s` from position `from` to the end as a base-ten
/// value, reporting `None` when the value exceeds `u64::MAX`.
fn read_digits(s: &Vec<char>, from: usize) -> (r: Option<u64>)
    requires
        from <= s@.len(),
        all_digits(s@.skip(from as int)),
    ensures
        match r {
            Some(v) => v as int == digits_val(s@.skip(from as int)),
            None => digits_val(s@.skip(from as int)) > u64::MAX,
        },
{
    let ghost ds = s@.skip(from as int);
    let n = s.len();
    let mut acc: u64 = 0;
    let mut i: usize = from;
    while i < n
        invariant
            from <= i <= n,
            n == s@.len(),
            ds == s@.skip(from as int),
            all_digits(ds),
            acc as int == digits_val(ds.take(i - from)),
        decreases n - i,
    {
        let c = s[i];
        proof {
            assert(ds[i - from] == c);
            assert(is_digit(c));
        }
        let d: u64 = (c as u32 - 48) as u64;
        let step = match acc.checked_mul(10) {
            Some(t) => t.checked_add(d),
            None => None,
        };
        proof {
            assert(ds.take(i + 1 - from).drop_last() =~= ds.take(i - from));
            assert(digits_val(ds.take(i + 1 - from)) == digits_val(ds.take(i - from)) * 10 + digit_of(c));
        }
        match step {
            Some(t) => {
                acc = t;
            }
            None => {
                proof {
                    lemma_digits_val_prefix(ds, i + 1 - from);
                    assert(digits_val(ds.take(i + 1 - from)) > u64::MAX);
                }
                return None;
            }
        }
        i = i + 1;
    }
    proof {
        assert(ds.take(n - from) =~= ds);
    }
    Some(acc)
}

/// Reads a decimal integer literal as `i64::from_str` does: an optional
/// sign, then one or more digits, the value within the type's range.
pub fn parse_i64(s: &Vec<char>) -> (r: Option<i64>)
    ensures
        match r {
            Some(v) => i64_lit(s@) == Some(v as int),
            None => i64_lit(s@) is None,
        },
{
    let n = s.len();
    if n == 0 {
        return None;
    }
    let c0 = s[0];
    let neg = c0 == '-';
    let start: usize = if c0 == '-' || c0 == '+' {
        1
    } else {
        0
    };
    if n == start {
        return None;
    }
    // every remaining character must be a digit
    let mut i: usize = start;
    while i < n
        invariant
            start <= i <= n,
            start < n,
            n == s@.len(),
            start == 0 || start == 1,
            start == 0 ==> s@[0] != '-' && s@[0] != '+',
            start == 1 ==> s@[0] == '-' || s@[0] == '+',
            forall|j: int| start <= j < i ==> is_digit(#[trigger] s@[j]),
        decreases n - i,
    {
        let c = s[i];
        if !('0' <= c && c <= '9') {
            proof {
                assert(!is_digit(s@[i as int]));
                if start == 1 {
                    assert(s@.skip(1)[i - 1] == s@[i as int]);
                }
            }
            return None;
        }
        i = i + 1;
    }
    proof {
        assert(all_digits(s@.skip(start as int))) by {
            assert(forall|j: int|
                0 <= j < s@.skip(start as int).len()
                    ==> #[trigger] s@.skip(start as int)[j] == s@[j + start]);
        }
    }
    let mag = read_digits(s, start);
    proof {
        lemma_digits_val_nonneg(s@.skip(start as int));
        if start == 0 {
            assert(s@.skip(0) =~= s@);
        }
    }
    match mag {
        None => None,
        Some(v) => {
            if neg {
                if v > 9223372036854775808u64 {
                    None
                } else if v == 9223372036854775808u64 {
                    Some(i64::MIN)
                } else {
                    Some(-(v as i64))
                }
            } else {
                if v > 9223372036854775807u64 {
                    None
                } else {
                    Some(v as i64)
                }
            }
        }
    }
}

/// First position of `c` in `s`: the length when `c` does not occur.
pub open spec fn first_index(s: Seq<char>, c: char) -> int
    decreases s.len(),
{
    if s.len() == 0 {
        0
    } else if s[0] == c {
        0
    } else {
        1 + first_index(s.drop_first(), c)
    }
}

proof fn lemma_first_index(s: Seq<char>, c: char, k: int)
    requires
        0 <= k <= s.len(),
        forall|j: int| 0 <= j < k ==> s[j] != c,
        k < s.len() ==> s[k] == c,
    ensures
        first_index(s, c) == k,
    decreases s.len(),
{
    if s.len() == 0 {
    } else if s[0] == c {
        assert(k == 0);
    } else {
        let t = s.drop_first();
        assert(forall|j: int| 0 <= j < t.len() ==> #[trigger] t[j] == s[j + 1]);
        lemma_first_index(t, c, k - 1);
    }
}

/// Whether positions `a..b` of `v` hold digits only.
fn digits_only(v: &Vec<char>, a: usize, b: usize) -> (r: bool)
    requires
        a <= b && b <= v.len(),
    ensures
        r == all_digits(v@.subrange(a as int, b as int)),
{
    let ghost w = v@.subrange(a as int, b as int);
    let mut i: usize = a;
    while i < b
        invariant
            a <= i <= b,
            b <= v@.len(),
            w == v@.subrange(a as int, b as int),
            forall|j: int| 0 <= j < i - a ==> is_digit(#[trigger] w[j]),
        decreases b - i,
    {
        let c = v[i];
        if !('0' <= c && c <= '9') {
            proof {
                assert(w[i - a] == v@[i as int]);
            }
            return false;
        }
        i = i + 1;
    }
    true
}

/// The first position of `c` in `v`, or the length when absent.
fn find_char(v: &Vec<char>, c: char) -> (r: usize)
    ensures
        r as int == first_index(v@, c),
        r <= v.len(),
{
    let n = v.len();
    let mut i: usize = 0;
    while i < n
        invariant
            i <= n,
            n == v@.len(),
            forall|j: int| 0 <= j < i ==> v@[j] != c,
        decreases n - i,
    {
        if v[i] == c {
            proof {
                lemma_first_index(v@, c, i as int);
            }
            return i;
        }
        i = i + 1;
    }
    proof {
        lemma_first_index(v@, c, v@.len() as int);
    }
    n
}

/// Positions `a..b` of `v`, as their own vector.
pub(crate) fn copy_range(v: &Vec<char>, a: usize, b: usize) -> (r: Vec<char>)
    requires
        a <= b && b <= v.len(),
    ensures
        r@ == v@.subrange(a as int, b as int),
{
    let mut r: Vec<char> = Vec::new();
    let mut i: usize = a;
    while i < b
        invariant
            a <= i <= b,
            b <= v@.len(),
            r@ == v@.subrange(a as int, i as int),
        decreases b - i,
    {
        r.push(v[i]);
        proof {
            assert(v@.subrange(a as int, i + 1 as int)
                =~= v@.subrange(a as int, i as int).push(v@[i as int]));
        }
        i = i + 1;
    }
    r
}

/// The shape of a mantissa: digits around at most one point, with at least
/// one digit present.
pub open spec fn is_mantissa(m: Seq<char>) -> bool {
    let d = first_index(m, '.');
    if d == m.len() {
        m.len() > 0 && all_digits(m)
    } else {
        all_digits(m.take(d)) && all_digits(m.skip(d + 1)) && (d > 0 || d + 1 < m.len())
    }
}

/// The shape of an exponent part: `e`, an optional sign, one or more digits.
pub open spec fn is_exponent(x: Seq<char>) -> bool {
    x.len() >= 1 && x[0] == 'e' && {
        let y = x.skip(1);
        let z = if y.len() > 0 && (y[0] == '+' || y[0] == '-') {
            y.skip(1)
        } else {
            y
        };
        z.len() > 0 && all_digits(z)
    }
}

/// What `f64::from_str` accepts, per its documented grammar: an optional
/// sign, then, case-insensitively, `inf`, `infinity`, `nan`, or a mantissa
/// with an optional exponent.
pub open spec fn is_float_lit(s: Seq<char>) -> bool {
    let t = if s.len() > 0 && (s[0] == '+' || s[0] == '-') {
        s.skip(1)
    } else {
        s
    };
    let l = lower_seq(t);
    ||| l == seq!['i', 'n', 'f']
    ||| l == seq!['i', 'n', 'f', 'i', 'n', 'i', 't', 'y']
    ||| l == seq!['n', 'a', 'n']
    ||| {
        let e = first_index(l, 'e');
        is_mantissa(l.take(e)) && (e == l.len() || is_exponent(l.skip(e)))
    }
}

fn is_mantissa_vec(m: &Vec<char>) -> (r: bool)
    ensures
        r == is_mantissa(m@),
{
    let d = find_char(m, '.');
    if d == m.len() {
        if m.len() == 0 {
            return false;
        }
        let r = digits_only(m, 0, m.len());
        proof {
            assert(m@.subrange(0, m@.len() as int) =~= m@);
        }
        r
    } else {
        proof {
            assert(m@.take(d as int) =~= m@.subrange(0, d as int));
            assert(m@.skip(d + 1 as int) =~= m@.subrange(d + 1 as int, m@.len() as int));
        }
        let ok1 = digits_only(m, 0, d);
        let ok2 = digits_only(m, d + 1, m.len());
        ok1 && ok2 && (d > 0 || d + 1 < m.len())
    }
}

fn is_exponent_vec(x: &Vec<char>) -> (r: bool)
    ensures
        r == is_exponent(x@),
{
    if x.len() == 0 {
        return false;
    }
    if !(x[0] == 'e') {
        return false;
    }
    let sgn: usize = if x.len() > 1 && (x[1] == '+' || x[1] == '-') {
        1
    } else {
        0
    };
    let a = 1 + sgn;
    proof {
        assert(x@.skip(1).len() == x@.len() - 1);
        if x@.len() > 1 {
            assert(x@.skip(1)[0] == x@[1]);
        }
        if sgn == 1 {
            assert(x@.skip(1).skip(1) =~= x@.skip(2));
        }
        assert(x@.skip(a as int) =~= x@.subrange(a as int, x@.len() as int));
    }
    if a >= x.len() {
        return false;
    }
    digits_only(x, a, x.len())
}

/// Whether the characters form a floating-point literal that `f64::from_str`
/// would accept.
pub fn is_float_literal(s: &Vec<char>) -> (r: bool)
    ensures
        r == is_float_lit(s@),
{
    let n = s.len();
    let start: usize = if n > 0 && (s[0] == '+' || s[0] == '-') {
        1
    } else {
        0
    };
    let ghost t = if s@.len() > 0 && (s@[0] == '+' || s@[0] == '-') {
        s@.skip(1)
    } else {
        s@
    };
    proof {
        if start == 0 {
            assert(s@.skip(0) =~= s@);
        }
        assert(t == s@.skip(start as int));
    }
    let mut low: Vec<char> = Vec::new();
    let mut i: usize = start;
    while i < n
        invariant
            start <= i <= n,
            n == s@.len(),
            low@.len() == i - start,
            forall|j: int| 0 <= j < i - start ==> low@[j] == lower_char(s@[start + j]),
        decreases n - i,
    {
        let c = to_lower_char(s[i]);
        low.push(c);
        i = i + 1;
    }
    let ghost l = lower_seq(t);
    proof {
        assert(low@ =~= l) by {
            assert(l.len() == t.len() == s@.len() - start);
            assert(forall|j: int| 0 <= j < l.len()
                ==> #[trigger] l[j] == lower_char(t[j]) && t[j] == s@[start + j]);
        }
    }
    let m = low.len();
    if m == 3 && low[0] == 'i' && low[1] == 'n' && low[2] == 'f' {
        proof {
            assert(l =~= seq!['i', 'n', 'f']);
        }
        return true;
    }
    if m == 8 && low[0] == 'i' && low[1] == 'n' && low[2] == 'f' && low[3] == 'i' && low[4] == 'n'
        && low[5] == 'i' && low[6] == 't' && low[7] == 'y' {
        proof {
            assert(l =~= seq!['i', 'n', 'f', 'i', 'n', 'i', 't', 'y']);
        }
        return true;
    }
    if m == 3 && low[0] == 'n' && low[1] == 'a' && low[2] == 'n' {
        proof {
            assert(l =~= seq!['n', 'a', 'n']);
        }
        return true;
    }
    proof {
        assert(l != seq!['i', 'n', 'f'] && l != seq!['i', 'n', 'f', 'i', 'n', 'i', 't', 'y']
            && l != seq!['n', 'a', 'n']) by {
            if l == seq!['i', 'n', 'f'] {
                assert(low@[0] == 'i' && low@[1] == 'n' && low@[2] == 'f');
            }
            if l == seq!['i', 'n', 'f', 'i', 'n', 'i', 't', 'y'] {
                assert(low@[0] == 'i' && low@[1] == 'n' && low@[2] == 'f' && low@[3] == 'i'
                    && low@[4] == 'n' && low@[5] == 'i' && low@[6] == 't' && low@[7] == 'y');
            }
            if l == seq!['n', 'a', 'n'] {
                assert(low@[0] == 'n' && low@[1] == 'a' && low@[2] == 'n');
            }
        }
    }
    let e = find_char(&low, 'e');
    let mant = copy_range(&low, 0, e);
    proof {
        assert(mant@ =~= l.take(e as int));
    }
    if !is_mantissa_vec(&mant) {
        return false;
    }
    if e == m {
        return true;
    }
    let expv = copy_range(&low, e, m);
    proof {
        assert(expv@ =~= l.skip(e as int));
    }
    is_exponent_vec(&expv)
}

/// Whether two strings hold the same characters.
pub fn str_eq(a: &str, b: &str) -> (r: bool)
    ensures
        r == (a@ == b@),
{
    let n = a.unicode_len();
    let m = b.unicode_len();
    if n != m {
        return false;
    }
    let mut i: usize = 0;
    while i < n
        invariant
            i <= n,
            n == a@.len(),
            n == b@.len(),
            forall|j: int| 0 <= j < i ==> a@[j] == b@[j],
        decreases n - i,
    {
        if !(a.get_char(i) == b.get_char(i)) {
            return false;
        }
        i = i + 1;
    }
    proof {
        assert(a@ =~= b@);
    }
    true
}

} // verus!
