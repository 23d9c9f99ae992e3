//! Decimal rendering of integers into strings, with its character-level
//! meaning stated.
use vstd::prelude::*;
use vstd::string::{StrSliceExecFns, StringExecFns};

verus! {

/// The character of decimal digit `d` (below ten).
pub open spec fn digit_char(d: nat) -> char {
    if d == 0 { '0' }
    else if d == 1 { '1' }
    else if d == 2 { '2' }
    else if d == 3 { '3' }
    else if d == 4 { '4' }
    else if d == 5 { '5' }
    else if d == 6 { '6' }
    else if d == 7 { '7' }
    else if d == 8 { '8' }
    else { '9' }
}

/// Decimal digits of `n`, most significant first, without leading zeros.
pub open spec fn decimal(n: nat) -> Seq<char>
    decreases n,
{
    if n < 10 {
        seq![digit_char(n)]
    } else {
        decimal(n / 10).push(digit_char(n % 10))
    }
}

/// Decimal rendering of a signed integer: a leading `-` for negatives.
pub open spec fn signed_decimal(n: int) -> Seq<char> {
    if n < 0 {
        seq!['-'] + decimal((-n) as nat)
    } else {
        decimal(n as nat)
    }
}

/// `decimal(n)` left-padded with zeros to at least `width` characters.
pub open spec fn padded_decimal(n: nat, width: nat) -> Seq<char> {
    let d = decimal(n);
    if d.len() < width {
        Seq::new((width - d.len()) as nat, |i: int| '0') + d
    } else {
        d
    }
}

fn digit_str(d: u64) -> (s: &'static str)
    requires
        d < 10,
    ensures
        s@ == seq![digit_char(d as nat)],
{
    proof {
        reveal_strlit("0");
        reveal_strlit("1");
        reveal_strlit("2");
        reveal_strlit("3");
        reveal_strlit("4");
        reveal_strlit("5");
        reveal_strlit("6");
        reveal_strlit("7");
        reveal_strlit("8");
        reveal_strlit("9");
    }
    let s = if d == 0 { "0" }
    else if d == 1 { "1" }
    else if d == 2 { "2" }
    else if d == 3 { "3" }
    else if d == 4 { "4" }
    else if d == 5 { "5" }
    else if d == 6 { "6" }
    else if d == 7 { "7" }
    else if d == 8 { "8" }
    else { "9" };
    assert(s@ =~= seq![digit_char(d as nat)]);
    s
}

/// Append the decimal digits of `n`.
pub fn push_decimal(out: &mut String, n: u64)
    ensures
        final(out)@ == old(out)@ + decimal(n as nat),
    decreases n,
{
    if n < 10 {
        out.append(digit_str(n));
    } else {
        push_decimal(out, n / 10);
        out.append(digit_str(n % 10));
        assert(old(out)@ + decimal(n as nat) =~= old(out)@ + decimal((n / 10) as nat) + seq![digit_char((n % 10) as nat)]);
    }
}

/// Append the decimal rendering of a signed `n`.
pub fn push_signed_decimal(out: &mut String, n: i64)
    ensures
        final(out)@ == old(out)@ + signed_decimal(n as int),
{
    if n < 0 {
        proof {
            reveal_strlit("-");
        }
        out.append("-");
        let magnitude: u64 = if n == i64::MIN { 9_223_372_036_854_775_808u64 } else { (-n) as u64 };
        push_decimal(out, magnitude);
        assert(old(out)@ + signed_decimal(n as int) =~= old(out)@ + seq!['-'] + decimal(magnitude as nat));
    } else {
        push_decimal(out, n as u64);
    }
}

/// Number of decimal digits of `n`.
pub fn decimal_len(n: u64) -> (len: usize)
    ensures
        len == decimal(n as nat).len(),
        1 <= len <= 20,
    decreases n,
{
    proof {
        lemma_decimal_len_u64(n as nat);
    }
    if n < 10 {
        1
    } else {
        let l = decimal_len(n / 10);
        l + 1
    }
}

pub open spec fn pow10(k: nat) -> nat
    decreases k,
{
    if k == 0 { 1 } else { 10 * pow10((k - 1) as nat) }
}

/// A number below `10^(k+1)` has at most `k + 1` digits, and every number
/// has at least one.
proof fn lemma_decimal_len_small(n: nat, k: nat)
    requires
        n < pow10(k + 1),
    ensures
        1 <= decimal(n).len() <= k + 1,
    decreases n,
{
    if n >= 10 {
        let p = pow10(k);
        assert(pow10(k + 1) == 10 * p);
        assert(n / 10 < p) by (nonlinear_arith)
            requires n < 10 * p, n >= 10;
        if k == 0 {
            assert(p == 1);
        } else {
            assert(pow10(k) == pow10(((k - 1) as nat) + 1));
            lemma_decimal_len_small(n / 10, (k - 1) as nat);
        }
    }
}

proof fn lemma_decimal_len_u64(n: nat)
    requires
        n <= u64::MAX,
    ensures
        1 <= decimal(n).len() <= 20,
{
    reveal_with_fuel(pow10, 21);
    assert(pow10(20) == 100_000_000_000_000_000_000nat);
    lemma_decimal_len_small(n, 19);
}

/// Append `n` zero-padded to at least `width` digits.
pub fn push_padded_decimal(out: &mut String, n: u64, width: usize)
    ensures
        final(out)@ == old(out)@ + padded_decimal(n as nat, width as nat),
{
    let len = decimal_len(n);
    if len < width {
        proof {
            reveal_strlit("0");
        }
        let mut k: usize = len;
        while k < width
            invariant
                len <= k <= width,
                out@ == old(out)@ + Seq::new((k - len) as nat, |i: int| '0'),
            decreases width - k,
        {
            proof {
                reveal_strlit("0");
            }
            out.append("0");
            k += 1;
            assert(out@ =~= old(out)@ + Seq::new((k - len) as nat, |i: int| '0'));
        }
        push_decimal(out, n);
        assert(out@ =~= old(out)@ + padded_decimal(n as nat, width as nat));
    } else {
        push_decimal(out, n);
    }
}

/// Lowercase hexadecimal digit `d` (below sixteen).
pub open spec fn hex_char(d: nat) -> char {
    if d < 10 { digit_char(d) }
    else if d == 10 { 'a' }
    else if d == 11 { 'b' }
    else if d == 12 { 'c' }
    else if d == 13 { 'd' }
    else if d == 14 { 'e' }
    else { 'f' }
}

/// A byte as two lowercase hexadecimal digits.
pub open spec fn hex2(b: u8) -> Seq<char> {
    seq![hex_char((b / 16) as nat), hex_char((b % 16) as nat)]
}

fn hex_str(d: u8) -> (s: &'static str)
    requires
        d < 16,
    ensures
        s@ == seq![hex_char(d as nat)],
{
    if d < 10 {
        digit_str(d as u64)
    } else {
        proof {
            reveal_strlit("a");
            reveal_strlit("b");
            reveal_strlit("c");
            reveal_strlit("d");
            reveal_strlit("e");
            reveal_strlit("f");
        }
        let s = if d == 10 { "a" }
        else if d == 11 { "b" }
        else if d == 12 { "c" }
        else if d == 13 { "d" }
        else if d == 14 { "e" }
        else { "f" };
        assert(s@ =~= seq![hex_char(d as nat)]);
        s
    }
}

/// Append a byte as two lowercase hexadecimal digits.
pub fn push_hex2(out: &mut String, b: u8)
    ensures
        final(out)@ == old(out)@ + hex2(b),
{
    out.append(hex_str(b / 16));
    out.append(hex_str(b % 16));
    assert(final(out)@ =~= old(out)@ + hex2(b));
}

/// Whether two strings hold the same characters.
pub fn str_eq(a: &str, b: &str) -> (r: bool)
    ensures
        r == (a@ == b@),
{
    let n = a.unicode_len();
    if n != b.unicode_len() {
        return false;
    }
    let mut i: usize = 0;
    while i < n
        invariant
            i <= n,
            n == a@.len(),
            n == b@.len(),
            forall|k: int| 0 <= k < i ==> a@[k] == b@[k],
        decreases n - i,
    {
        if a.get_char(i) != b.get_char(i) {
            return false;
        }
        i += 1;
    }
    assert(a@ =~= b@);
    true
}

/// Value of a run of decimal digit characters.
pub open spec fn digits_value(d: Seq<char>) -> nat
    decreases d.len(),
{
    if d.len() == 0 {
        0
    } else {
        digits_value(d.drop_last()) * 10 + ((d.last() as u32 - '0' as u32) as nat)
    }
}

pub open spec fn is_digit(c: char) -> bool {
    '0' <= c && c <= '9'
}

/// The characters after an optional leading `+`.
pub open spec fn unsigned_digits(s: Seq<char>) -> Seq<char> {
    if s.len() > 0 && s[0] == '+' { s.drop_first() } else { s }
}

pub open spec fn all_digits(d: Seq<char>) -> bool {
    forall|i: int| 0 <= i < d.len() ==> is_digit(#[trigger] d[i])
}

/// What `str::parse::<u64>` gives: an optional `+`, then one or more
/// decimal digits whose value fits in `u64`.
pub open spec fn parse_u64_spec(s: Seq<char>) -> Option<u64> {
    let d = unsigned_digits(s);
    if d.len() == 0 || !all_digits(d) {
        None
    } else if digits_value(d) > u64::MAX {
        None
    } else {
        Some(digits_value(d) as u64)
    }
}

proof fn lemma_digits_value_prefix(d: Seq<char>, k: int)
    requires
        0 <= k <= d.len(),
        forall|i: int| 0 <= i < d.len() ==> is_digit(#[trigger] d[i]),
    ensures
        digits_value(d.take(k)) <= digits_value(d),
    decreases d.len() - k,
{
    if k < d.len() {
        lemma_digits_value_prefix(d, k + 1);
        assert(d.take(k + 1).drop_last() =~= d.take(k));
    } else {
        assert(d.take(k) =~= d);
    }
}

/// Parse a non-negative decimal integer as `str::parse::<u64>` does.
pub fn parse_u64(s: &str) -> (r: Option<u64>)
    ensures
        r == parse_u64_spec(s@),
{
    let n = s.unicode_len();
    let start: usize = if n > 0 && s.get_char(0) == '+' { 1 } else { 0 };
    let ghost d = unsigned_digits(s@);
    assert(d =~= s@.subrange(start as int, n as int));
    if start == n {
        return None;
    }
    let mut acc: u64 = 0;
    let mut i: usize = start;
    while i < n
        invariant
            start <= i <= n,
            n == s@.len(),
            d == s@.subrange(start as int, n as int),
            d == unsigned_digits(s@),
            forall|k: int| 0 <= k < i - start ==> is_digit(#[trigger] d[k]),
            acc == digits_value(d.take(i - start)),
        decreases n - i,
    {
        let c = s.get_char(i);
        if !('0' <= c && c <= '9') {
            assert(!is_digit(d[i - start]));
            assert(exists|k: int| 0 <= k < d.len() && !is_digit(#[trigger] d[k]));
            return None;
        }
        let dv: u64 = (c as u32 - '0' as u32) as u64;
        assert(d.take(i - start + 1).drop_last() =~= d.take(i - start));
        if acc > (u64::MAX - dv) / 10 {
            // The value already exceeds `u64::MAX`; the rest is digits or not.
            let mut j: usize = i + 1;
            while j < n
                invariant
                    start <= i < j <= n,
                    n == s@.len(),
                    d == s@.subrange(start as int, n as int),
                    d == unsigned_digits(s@),
                    acc * 10 + dv > u64::MAX,
                    digits_value(d.take(i - start + 1)) == acc * 10 + dv,
                    forall|k: int| 0 <= k < j - start ==> is_digit(#[trigger] d[k]),
                decreases n - j,
            {
                let c2 = s.get_char(j);
                if !('0' <= c2 && c2 <= '9') {
                    assert(!is_digit(d[j - start]));
                    assert(exists|k: int| 0 <= k < d.len() && !is_digit(#[trigger] d[k]));
                    return None;
                }
                j += 1;
            }
            proof {
                assert(digits_value(d.take(i - start + 1)) > u64::MAX) by (nonlinear_arith)
                    requires
                        digits_value(d.take(i - start + 1)) == acc * 10 + dv,
                        acc > (u64::MAX - dv) / 10,
                        dv <= 9;
                lemma_digits_value_prefix(d, i - start + 1);
                assert(d.len() > 0);
                assert(!exists|k: int| 0 <= k < d.len() && !is_digit(#[trigger] d[k]));
            }
            return None;
        }
        acc = acc * 10 + dv;
        i += 1;
    }
    assert(d.take(n - start) =~= d);
    Some(acc)
}

/// Items of a list rendered with `render` and separated by `", "`.
pub open spec fn joined_u8(v: Seq<u8>) -> Seq<char>
    decreases v.len(),
{
    if v.len() == 0 {
        Seq::empty()
    } else if v.len() == 1 {
        decimal(v[0] as nat)
    } else {
        joined_u8(v.drop_last()) + ", "@ + decimal(v.last() as nat)
    }
}

/// A list of bytes as `Debug` renders it: `[32, 33, 34]`.
pub open spec fn debug_u8s(v: Seq<u8>) -> Seq<char> {
    "["@ + joined_u8(v) + "]"@
}

/// An optional ordinal as `Debug` renders it.
pub open spec fn debug_opt_i64(o: Option<i64>) -> Seq<char> {
    match o {
        Some(x) => "Some("@ + signed_decimal(x as int) + ")"@,
        None => "None"@,
    }
}

pub open spec fn joined_opt_i64(v: Seq<Option<i64>>) -> Seq<char>
    decreases v.len(),
{
    if v.len() == 0 {
        Seq::empty()
    } else if v.len() == 1 {
        debug_opt_i64(v[0])
    } else {
        joined_opt_i64(v.drop_last()) + ", "@ + debug_opt_i64(v.last())
    }
}

/// A list of optional ordinals as `Debug` renders it:
/// `[Some(1), None]`.
pub open spec fn debug_opt_i64s(v: Seq<Option<i64>>) -> Seq<char> {
    "["@ + joined_opt_i64(v) + "]"@
}

/// Append the `Debug` rendering of a list of bytes.
pub fn push_debug_u8s(out: &mut String, v: &[u8])
    ensures
        final(out)@ == old(out)@ + debug_u8s(v@),
{
    out.append("[");
    let ghost start = out@;
    let mut i: usize = 0;
    while i < v.len()
        invariant
            i <= v@.len(),
            out@ == start + joined_u8(v@.take(i as int)),
        decreases v@.len() - i,
    {
        let ghost before = out@;
        if i > 0 {
            out.append(", ");
        }
        push_decimal(out, v[i] as u64);
        proof {
            let t = v@.take(i + 1);
            assert(t.drop_last() =~= v@.take(i as int));
            if i == 0 {
                assert(v@.take(0) =~= Seq::<u8>::empty());
                assert(out@ =~= start + joined_u8(t));
            } else {
                assert(out@ =~= start + joined_u8(t));
            }
        }
        i += 1;
    }
    assert(v@.take(i as int) =~= v@);
    out.append("]");
    assert(out@ =~= old(out)@ + debug_u8s(v@));
}

/// Append the `Debug` rendering of an optional ordinal.
pub fn push_debug_opt_i64(out: &mut String, o: Option<i64>)
    ensures
        final(out)@ == old(out)@ + debug_opt_i64(o),
{
    match o {
        Some(x) => {
            out.append("Some(");
            push_signed_decimal(out, x);
            out.append(")");
            assert(out@ =~= old(out)@ + debug_opt_i64(o));
        },
        None => {
            out.append("None");
        },
    }
}

/// Append the `Debug` rendering of a list of optional ordinals.
pub fn push_debug_opt_i64s(out: &mut String, v: &[Option<i64>])
    ensures
        final(out)@ == old(out)@ + debug_opt_i64s(v@),
{
    out.append("[");
    let ghost start = out@;
    let mut i: usize = 0;
    while i < v.len()
        invariant
            i <= v@.len(),
            out@ == start + joined_opt_i64(v@.take(i as int)),
        decreases v@.len() - i,
    {
        if i > 0 {
            out.append(", ");
        }
        push_debug_opt_i64(out, v[i]);
        proof {
            let t = v@.take(i + 1);
            assert(t.drop_last() =~= v@.take(i as int));
            if i == 0 {
                assert(v@.take(0) =~= Seq::<Option<i64>>::empty());
            }
            assert(out@ =~= start + joined_opt_i64(t));
        }
        i += 1;
    }
    assert(v@.take(i as int) =~= v@);
    out.append("]");
    assert(out@ =~= old(out)@ + debug_opt_i64s(v@));
}

proof fn lemma_digit_value(d: nat)
    requires
        d < 10,
    ensures
        (digit_char(d) as u32 - '0' as u32) as nat == d,
        is_digit(digit_char(d)),
        digit_char(d) != '+',
{
    if d == 0 { assert('0' as u32 == 48); }
    else if d == 1 { assert('1' as u32 == 49); }
    else if d == 2 { assert('2' as u32 == 50); }
    else if d == 3 { assert('3' as u32 == 51); }
    else if d == 4 { assert('4' as u32 == 52); }
    else if d == 5 { assert('5' as u32 == 53); }
    else if d == 6 { assert('6' as u32 == 54); }
    else if d == 7 { assert('7' as u32 == 55); }
    else if d == 8 { assert('8' as u32 == 56); }
    else { assert('9' as u32 == 57); }
}

proof fn lemma_decimal_digits(n: nat)
    ensures
        all_digits(decimal(n)),
        decimal(n).len() > 0,
        decimal(n)[0] != '+',
        digits_value(decimal(n)) == n,
    decreases n,
{
    if n < 10 {
        lemma_digit_value(n);
        assert(decimal(n).drop_last() =~= Seq::<char>::empty());
        assert(digits_value(decimal(n)) == digits_value(Seq::<char>::empty()) * 10
            + ((digit_char(n) as u32 - '0' as u32) as nat));
    } else {
        lemma_digit_value(n % 10);
        lemma_decimal_digits(n / 10);
        let d = decimal(n);
        assert(d.drop_last() =~= decimal(n / 10));
        assert forall|i: int| 0 <= i < d.len() implies is_digit(#[trigger] d[i]) by {
            if i < d.len() - 1 {
                assert(d[i] == decimal(n / 10)[i]);
            }
        }
        assert(d[0] == decimal(n / 10)[0]);
        assert(digits_value(d) == digits_value(decimal(n / 10)) * 10 + n % 10);
        assert(n == (n / 10) * 10 + n % 10);
    }
}

/// Parsing what `push_decimal` renders gives the number back.
pub proof fn lemma_parse_renders_back(n: u64)
    ensures
        parse_u64_spec(decimal(n as nat)) == Some(n),
{
    lemma_decimal_digits(n as nat);
    assert(unsigned_digits(decimal(n as nat)) == decimal(n as nat));
}

} // verus!
