//! Character-sequence utilities shared by the converters and the codec:
//! lexicographic ordering of strings, splitting on a separator, and
//! decimal rendering and truncating parsing of numbers.

use vstd::prelude::*;

verus! {

// ---------------------------------------------------------------------------
// Lexicographic order on character sequences (byte order of UTF-8 text agrees
// with code-point order, so this is the order `str::cmp` uses).
// ---------------------------------------------------------------------------

/// Strict lexicographic order by Unicode code point.
pub open spec fn str_lt(a: Seq<char>, b: Seq<char>) -> bool
    decreases a.len(),
{
    if b.len() == 0 {
        false
    } else if a.len() == 0 {
        true
    } else if (a[0] as u32) < (b[0] as u32) {
        true
    } else if (a[0] as u32) > (b[0] as u32) {
        false
    } else {
        str_lt(a.skip(1), b.skip(1))
    }
}

/// `str_lt` never holds both ways at once.
pub proof fn lemma_str_lt_asymmetric(a: Seq<char>, b: Seq<char>)
    ensures
        !(str_lt(a, b) && str_lt(b, a)),
    decreases a.len(),
{
    if a.len() > 0 && b.len() > 0 && (a[0] as u32) == (b[0] as u32) {
        lemma_str_lt_asymmetric(a.skip(1), b.skip(1));
    }
}

/// Two sequences are equal or ordered one way or the other.
pub proof fn lemma_str_lt_trichotomy(a: Seq<char>, b: Seq<char>)
    ensures
        str_lt(a, b) || str_lt(b, a) || a == b,
    decreases a.len(),
{
    if a.len() == 0 && b.len() == 0 {
        assert(a =~= b);
    } else if a.len() > 0 && b.len() > 0 && (a[0] as u32) == (b[0] as u32) {
        lemma_str_lt_trichotomy(a.skip(1), b.skip(1));
        if !str_lt(a, b) && !str_lt(b, a) {
            assert(a.skip(1) == b.skip(1));
            assert(a[0] == b[0]) by {
                vstd::utf8::char_u32_cast(a[0], a[0] as u32);
                vstd::utf8::char_u32_cast(b[0], a[0] as u32);
            }
            assert(a =~= seq![a[0]] + a.skip(1));
            assert(b =~= seq![b[0]] + b.skip(1));
        }
    }
}

/// `str_lt` is transitive.
pub proof fn lemma_str_lt_transitive(a: Seq<char>, b: Seq<char>, c: Seq<char>)
    requires
        str_lt(a, b),
        str_lt(b, c),
    ensures
        str_lt(a, c),
    decreases a.len(),
{
    if a.len() > 0 && b.len() > 0 && c.len() > 0 && (a[0] as u32) == (b[0] as u32) && (b[0]
        as u32) == (c[0] as u32) {
        lemma_str_lt_transitive(a.skip(1), b.skip(1), c.skip(1));
    }
}

/// Compares two strings in the lexicographic order of their characters.
pub fn str_lt_exec(a: &str, b: &str) -> (r: bool)
    ensures
        r == str_lt(a@, b@),
{
    let alen = a.unicode_len();
    let blen = b.unicode_len();
    let mut i: usize = 0;
    proof {
        assert(a@.skip(0) =~= a@);
        assert(b@.skip(0) =~= b@);
    }
    loop
        invariant
            i <= alen,
            i <= blen,
            alen == a@.len(),
            blen == b@.len(),
            str_lt(a@, b@) == str_lt(a@.skip(i as int), b@.skip(i as int)),
        decreases alen - i,
    {
        if i == blen {
            return false;
        }
        if i == alen {
            return true;
        }
        let ca = a.get_char(i);
        let cb = b.get_char(i);
        if (ca as u32) < (cb as u32) {
            return true;
        }
        if (ca as u32) > (cb as u32) {
            return false;
        }
        proof {
            assert(a@.skip(i as int).skip(1) =~= a@.skip(i as int + 1));
            assert(b@.skip(i as int).skip(1) =~= b@.skip(i as int + 1));
        }
        i = i + 1;
    }
}

/// Equality of two strings, by their characters.
pub fn str_eq_exec(a: &str, b: &str) -> (r: bool)
    ensures
        r == (a@ == b@),
{
    let alen = a.unicode_len();
    let blen = b.unicode_len();
    if alen != blen {
        return false;
    }
    let mut i: usize = 0;
    loop
        invariant
            i <= alen,
            alen == a@.len(),
            alen == b@.len(),
            forall|j: int| 0 <= j < i ==> a@[j] == b@[j],
        decreases alen - i,
    {
        if i == alen {
            proof {
                assert(a@ =~= b@);
            }
            return true;
        }
        let ca = a.get_char(i);
        let cb = b.get_char(i);
        if (ca as u32) != (cb as u32) {
            return false;
        }
        proof {
            vstd::utf8::char_u32_cast(ca, ca as u32);
            vstd::utf8::char_u32_cast(cb, ca as u32);
        }
        i = i + 1;
    }
}

// ---------------------------------------------------------------------------
// Splitting on a separator character, with `str::split` semantics:
// the empty string yields one empty part, and a trailing separator yields a
// trailing empty part.
// ---------------------------------------------------------------------------

/// The parts of `s` split on `sep`; always at least one part.
pub open spec fn spec_split(s: Seq<char>, sep: char) -> Seq<Seq<char>>
    decreases s.len(),
{
    if s.len() == 0 {
        seq![Seq::<char>::empty()]
    } else if s[0] == sep {
        seq![Seq::<char>::empty()] + spec_split(s.skip(1), sep)
    } else {
        let rest = spec_split(s.skip(1), sep);
        rest.update(0, seq![s[0]] + rest[0])
    }
}

/// Splitting yields at least one part.
pub proof fn lemma_split_len(s: Seq<char>, sep: char)
    ensures
        spec_split(s, sep).len() >= 1,
    decreases s.len(),
{
    if s.len() > 0 {
        lemma_split_len(s.skip(1), sep);
    }
}

/// Splits a string on a separator character into owned parts.
pub fn split_exec(s: &str, sep: char) -> (r: Vec<String>)
    ensures
        r@.map_values(|p: String| p@) == spec_split(s@, sep),
{
    let len = s.unicode_len();
    let mut done: Vec<String> = Vec::new();
    let mut start: usize = 0;
    let mut i: usize = 0;
    proof {
        assert(s@.skip(0) =~= s@);
        lemma_split_len(s@, sep);
        let rest = spec_split(s@, sep);
        assert(s@.subrange(0, 0) + rest[0] =~= rest[0]);
        assert(rest.update(0, rest[0]) =~= rest);
        assert(done@.map_values(|p: String| p@) + rest =~= rest);
    }
    loop
        invariant
            start <= i <= len,
            len == s@.len(),
            spec_split(s@, sep) =~= done@.map_values(|p: String| p@) + {
                let rest = spec_split(s@.skip(i as int), sep);
                rest.update(0, s@.subrange(start as int, i as int) + rest[0])
            },
            forall|j: int| start <= j < i ==> s@[j] != sep,
        decreases len - i,
    {
        proof {
            lemma_split_len(s@.skip(i as int), sep);
            if i < len {
                lemma_split_len(s@.skip(i as int + 1), sep);
                assert(s@.skip(i as int).skip(1) =~= s@.skip(i as int + 1));
            }
        }
        if i == len {
            let part = s.substring_char(start, i);
            done.push(String::from_str(part));
            proof {
                assert(s@.skip(i as int).len() == 0);
                assert(spec_split(s@.skip(i as int), sep) =~= seq![Seq::<char>::empty()]);
                assert(done@.map_values(|p: String| p@) =~= done@.map_values(
                    |p: String| p@,
                ).drop_last().push(s@.subrange(start as int, i as int)));
                assert(spec_split(s@, sep) =~= done@.map_values(|p: String| p@));
            }
            return done;
        }
        let c = s.get_char(i);
        if c == sep {
            let part = s.substring_char(start, i);
            done.push(String::from_str(part));
            proof {
                let rest_old = spec_split(s@.skip(i as int), sep);
                let rest_new = spec_split(s@.skip(i as int + 1), sep);
                assert(rest_old =~= seq![Seq::<char>::empty()] + rest_new);
                assert(rest_old.update(0, s@.subrange(start as int, i as int) + rest_old[0])
                    =~= seq![s@.subrange(start as int, i as int)] + rest_new);
                assert(done@.map_values(|p: String| p@) + rest_new.update(
                    0,
                    s@.subrange(i as int + 1, i as int + 1) + rest_new[0],
                ) =~= done@.map_values(|p: String| p@).drop_last() + (seq![s@.subrange(
                    start as int,
                    i as int,
                )] + rest_new.update(0, rest_new[0])));
                assert(rest_new.update(0, rest_new[0]) =~= rest_new);
                assert(rest_new.update(0, s@.subrange(i as int + 1, i as int + 1) + rest_new[0])
                    =~= rest_new.update(0, rest_new[0]));
            }
            i = i + 1;
            start = i;
        } else {
            proof {
                let rest_old = spec_split(s@.skip(i as int), sep);
                let rest_new = spec_split(s@.skip(i as int + 1), sep);
                assert(s@.skip(i as int)[0] == s@[i as int]);
                assert(rest_old =~= rest_new.update(0, seq![s@[i as int]] + rest_new[0]));
                assert(rest_old[0] =~= seq![s@[i as int]] + rest_new[0]);
                assert(s@.subrange(start as int, i as int) + rest_old[0] =~= s@.subrange(
                    start as int,
                    i as int + 1,
                ) + rest_new[0]);
                assert(rest_old.update(0, s@.subrange(start as int, i as int) + rest_old[0])
                    =~= rest_new.update(0, s@.subrange(start as int, i as int + 1) + rest_new[0]));
            }
            i = i + 1;
        }
    }
}

// ---------------------------------------------------------------------------
// Decimal rendering of integers, and truncating parsing of number text.
// ---------------------------------------------------------------------------

/// The decimal digit character for `d` (0..=9).
pub open spec fn digit_char(d: int) -> char {
    if d == 0 {
        '0'
    } else if d == 1 {
        '1'
    } else if d == 2 {
        '2'
    } else if d == 3 {
        '3'
    } else if d == 4 {
        '4'
    } else if d == 5 {
        '5'
    } else if d == 6 {
        '6'
    } else if d == 7 {
        '7'
    } else if d == 8 {
        '8'
    } else {
        '9'
    }
}

/// The numeric value of a digit character, or -1 for any other character.
pub open spec fn digit_val(c: char) -> int {
    if c == '0' {
        0
    } else if c == '1' {
        1
    } else if c == '2' {
        2
    } else if c == '3' {
        3
    } else if c == '4' {
        4
    } else if c == '5' {
        5
    } else if c == '6' {
        6
    } else if c == '7' {
        7
    } else if c == '8' {
        8
    } else if c == '9' {
        9
    } else {
        -1
    }
}

/// The decimal digits of a non-negative integer, most significant first.
pub open spec fn dec_digits(n: nat) -> Seq<char>
    decreases n,
{
    if n < 10 {
        seq![digit_char(n as int)]
    } else {
        dec_digits(n / 10) + seq![digit_char((n % 10) as int)]
    }
}

/// The decimal rendering of an integer, with `-` for negative values.
pub open spec fn dec_of(n: int) -> Seq<char> {
    if n < 0 {
        seq!['-'] + dec_digits((-n) as nat)
    } else {
        dec_digits(n as nat)
    }
}

fn digit_str(d: u64) -> (r: &'static str)
    requires
        d < 10,
    ensures
        r@ =~= seq![digit_char(d as int)],
{
    proof {
        reveal_strlit("0");
        reveal_strlit("1");
        reveal_strlit("2");
        reveal_strlit("3");
        reveal_strlit("4");
        reveal_strlit("5");
        reveal_strlit("6");
        reveal_strlit("7");
        reveal_strlit("8");
        reveal_strlit("9");
    }
    match d {
        0 => "0",
        1 => "1",
        2 => "2",
        3 => "3",
        4 => "4",
        5 => "5",
        6 => "6",
        7 => "7",
        8 => "8",
        _ => "9",
    }
}

/// Renders a non-negative integer in decimal.
pub fn u64_to_dec(n: u64) -> (r: String)
    ensures
        r@ == dec_digits(n as nat),
    decreases n,
{
    if n < 10 {
        String::from_str(digit_str(n))
    } else {
        let mut s = u64_to_dec(n / 10);
        s.append(digit_str(n % 10));
        s
    }
}

/// Renders a signed integer in decimal.
pub fn i64_to_dec(n: i64) -> (r: String)
    ensures
        r@ == dec_of(n as int),
{
    if n >= 0 {
        u64_to_dec(n as u64)
    } else {
        // magnitude computed without overflowing at i64::MIN
        let mag: u64 = ((-(n + 1)) as u64) + 1;
        let mut s = String::from_str("-");
        proof {
            reveal_strlit("-");
        }
        s.append(u64_to_dec(mag).as_str());
        s
    }
}

// ---------------------------------------------------------------------------
// Truncating parse: the integer formed by the leading decimal digits of a
// number's text, ignoring any fractional part.  This is the integer form the
// converter uses for `Bool` and `Int64` type codes.
// ---------------------------------------------------------------------------

/// The value accumulated by reading digits from the front of `s` until the
/// first non-digit, starting from `acc`.
pub open spec fn trunc_digits(s: Seq<char>, acc: int) -> int
    decreases s.len(),
{
    if s.len() == 0 || digit_val(s[0]) < 0 {
        acc
    } else {
        trunc_digits(s.skip(1), acc * 10 + digit_val(s[0]))
    }
}

/// The integer part of a decimal number text, truncated toward zero:
/// an optional leading `-`, then the leading run of digits.
pub open spec fn num_trunc(s: Seq<char>) -> int {
    if s.len() > 0 && s[0] == '-' {
        -trunc_digits(s.skip(1), 0)
    } else {
        trunc_digits(s, 0)
    }
}

/// `n` clamped into the `i64` range.
pub open spec fn sat_i64(n: int) -> i64 {
    if n > i64::MAX {
        i64::MAX
    } else if n < i64::MIN {
        i64::MIN
    } else {
        n as i64
    }
}

proof fn lemma_trunc_digits_monotonic(s: Seq<char>, acc1: int, acc2: int)
    requires
        0 <= acc1 <= acc2,
    ensures
        trunc_digits(s, acc1) <= trunc_digits(s, acc2),
        acc1 <= trunc_digits(s, acc1),
    decreases s.len(),
{
    if s.len() > 0 && digit_val(s[0]) >= 0 {
        assert(acc1 * 10 <= acc2 * 10) by (nonlinear_arith)
            requires
                acc1 <= acc2,
        ;
        assert(acc1 <= acc1 * 10) by (nonlinear_arith)
            requires
                acc1 >= 0,
        ;
        lemma_trunc_digits_monotonic(s.skip(1), acc1 * 10 + digit_val(s[0]), acc2 * 10 + digit_val(
            s[0],
        ));
    }
}

/// Reads the leading digits of `s` starting at index `i`, accumulating into a
/// saturating `u64`; the result clamps the true value at `u64::MAX`.
fn trunc_digits_exec(s: &str, from: usize) -> (r: u64)
    requires
        from <= s@.len(),
    ensures
        ({
            let v = trunc_digits(s@.skip(from as int), 0);
            (v <= u64::MAX ==> r == v) && (v > u64::MAX ==> r == u64::MAX)
        }),
{
    let len = s.unicode_len();
    let mut i = from;
    let mut acc: u64 = 0;
    loop
        invariant
            from <= i <= len,
            len == s@.len(),
            ({
                let whole = trunc_digits(s@.skip(from as int), 0);
                let rest = s@.skip(i as int);
                // the whole value continues from the value read so far
                &&& (acc < u64::MAX ==> whole == trunc_digits(rest, acc as int))
                &&& (acc == u64::MAX ==> whole >= u64::MAX && whole >= trunc_digits(
                    rest,
                    acc as int,
                ))
            }),
        decreases len - i,
    {
        if i == len {
            proof {
                if acc < u64::MAX {
                    assert(trunc_digits(s@.skip(i as int), acc as int) == acc);
                } else {
                    assert(trunc_digits(s@.skip(i as int), acc as int) == acc);
                }
            }
            return acc;
        }
        let c = s.get_char(i);
        let d: u64 = match c {
            '0' => 0,
            '1' => 1,
            '2' => 2,
            '3' => 3,
            '4' => 4,
            '5' => 5,
            '6' => 6,
            '7' => 7,
            '8' => 8,
            '9' => 9,
            _ => 10,
        };
        if d == 10 {
            proof {
                assert(digit_val(s@.skip(i as int)[0]) < 0);
                assert(trunc_digits(s@.skip(i as int), acc as int) == acc);
            }
            return acc;
        }
        proof {
            assert(digit_val(s@.skip(i as int)[0]) == d);
            assert(s@.skip(i as int).skip(1) =~= s@.skip(i as int + 1));
        }
        let ghost whole = trunc_digits(s@.skip(from as int), 0);
        let ghost rest = s@.skip(i as int);
        let ghost rest1 = s@.skip(i as int + 1);
        proof {
            vstd::arithmetic::div_mod::lemma_fundamental_div_mod((u64::MAX - d) as int, 10);
        }
        if acc > (u64::MAX - d) / 10 {
            proof {
                let next = acc as int * 10 + d;
                assert(next > u64::MAX);
                assert(trunc_digits(rest, acc as int) == trunc_digits(rest1, next));
                lemma_trunc_digits_monotonic(rest1, next, next);
                if acc < u64::MAX {
                    assert(whole == trunc_digits(rest1, next));
                    assert(whole >= next > u64::MAX);
                    lemma_trunc_digits_monotonic(rest1, u64::MAX as int, next);
                } else {
                    lemma_trunc_digits_monotonic(rest1, u64::MAX as int, next);
                    assert(trunc_digits(rest1, u64::MAX as int) <= trunc_digits(rest1, next));
                }
            }
            acc = u64::MAX;
        } else {
            proof {
                assert(acc as int * 10 + d <= u64::MAX);
                assert(trunc_digits(rest, acc as int) == trunc_digits(rest1, acc as int * 10 + d));
                lemma_trunc_digits_monotonic(rest1, acc as int * 10 + d, acc as int * 10 + d);
                if acc == u64::MAX {
                    assert(false);
                }
            }
            acc = acc * 10 + d;
        }
        i = i + 1;
    }
}

/// The integer part of a number's text, truncated toward zero and clamped to
/// the `i64` range.
pub fn num_trunc_exec(s: &str) -> (r: i64)
    ensures
        r == sat_i64(num_trunc(s@)),
{
    let len = s.unicode_len();
    if len > 0 && s.get_char(0) == '-' {
        let mag = trunc_digits_exec(s, 1);
        let ghost v = trunc_digits(s@.skip(1), 0);
        proof {
            lemma_trunc_digits_monotonic(s@.skip(1), 0, 0);
        }
        if mag >= 9223372036854775808u64 {
            proof {
                assert(v >= 9223372036854775808);
                assert(-v <= i64::MIN);
            }
            i64::MIN
        } else {
            proof {
                assert(mag == v);
            }
            -(mag as i64)
        }
    } else {
        proof {
            if s@.len() > 0 {
                assert(s@[0] != '-');
            }
        }
        let mag = trunc_digits_exec(s, 0);
        let ghost v = trunc_digits(s@, 0);
        proof {
            assert(s@.skip(0) =~= s@);
            lemma_trunc_digits_monotonic(s@, 0, 0);
        }
        if mag > i64::MAX as u64 {
            i64::MAX
        } else {
            mag as i64
        }
    }
}

// ---------------------------------------------------------------------------
// Round trip: parsing the decimal rendering of an integer gives it back.
// ---------------------------------------------------------------------------

/// `10^k`.
pub open spec fn pow10(k: nat) -> int
    decreases k,
{
    if k == 0 {
        1
    } else {
        10 * pow10((k - 1) as nat)
    }
}

proof fn lemma_dec_digits_all_digits(n: nat)
    ensures
        dec_digits(n).len() >= 1,
        forall|i: int| 0 <= i < dec_digits(n).len() ==> digit_val(#[trigger] dec_digits(n)[i]) >= 0,
    decreases n,
{
    if n >= 10 {
        lemma_dec_digits_all_digits(n / 10);
    }
}

proof fn lemma_trunc_digits_concat(a: Seq<char>, b: Seq<char>, acc: int)
    requires
        forall|i: int| 0 <= i < a.len() ==> digit_val(#[trigger] a[i]) >= 0,
    ensures
        trunc_digits(a + b, acc) == trunc_digits(b, trunc_digits(a, acc)),
    decreases a.len(),
{
    if a.len() == 0 {
        assert(a + b =~= b);
    } else {
        assert((a + b)[0] == a[0]);
        assert((a + b).skip(1) =~= a.skip(1) + b);
        lemma_trunc_digits_concat(a.skip(1), b, acc * 10 + digit_val(a[0]));
    }
}

proof fn lemma_trunc_of_dec_digits(n: nat, acc: int)
    ensures
        trunc_digits(dec_digits(n), acc) == acc * pow10(dec_digits(n).len()) + n,
    decreases n,
{
    lemma_dec_digits_all_digits(n);
    if n < 10 {
        let s = dec_digits(n);
        assert(s =~= seq![digit_char(n as int)]);
        assert(digit_val(s[0]) == n);
        assert(s.skip(1) =~= Seq::<char>::empty());
        assert(trunc_digits(s.skip(1), acc * 10 + n) == acc * 10 + n);
        assert(trunc_digits(s, acc) == trunc_digits(s.skip(1), acc * 10 + digit_val(s[0])));
        assert(pow10(0) == 1);
        assert(pow10(1) == 10);
    } else {
        let hi = dec_digits(n / 10);
        let lo = seq![digit_char((n % 10) as int)];
        assert(dec_digits(n) == hi + lo);
        lemma_dec_digits_all_digits(n / 10);
        lemma_trunc_digits_concat(hi, lo, acc);
        lemma_trunc_of_dec_digits(n / 10, acc);
        let acch = trunc_digits(hi, acc);
        assert(digit_val(lo[0]) == n % 10);
        assert(lo.skip(1) =~= Seq::<char>::empty());
        assert(trunc_digits(lo.skip(1), acch * 10 + n % 10) == acch * 10 + n % 10);
        assert(trunc_digits(lo, acch) == trunc_digits(lo.skip(1), acch * 10 + digit_val(lo[0])));
        assert(dec_digits(n).len() == hi.len() + 1);
        assert(pow10(hi.len() + 1) == 10 * pow10(hi.len()));
        assert((acc * pow10(hi.len() as nat) + n / 10) * 10 + n % 10 == acc * (10 * pow10(
            hi.len() as nat,
        )) + (n / 10) * 10 + n % 10) by (nonlinear_arith);
        assert((n / 10) * 10 + n % 10 == n);
    }
}

/// Parsing the decimal rendering of an integer yields the integer again.
pub proof fn lemma_num_trunc_of_dec(n: int)
    ensures
        num_trunc(dec_of(n)) == n,
{
    if n < 0 {
        let s = dec_of(n);
        lemma_dec_digits_all_digits((-n) as nat);
        assert(s[0] == '-');
        assert(s.skip(1) =~= dec_digits((-n) as nat));
        lemma_trunc_of_dec_digits((-n) as nat, 0);
    } else {
        lemma_dec_digits_all_digits(n as nat);
        assert(digit_val(dec_of(n)[0]) >= 0);
        assert(dec_of(n)[0] != '-');
        lemma_trunc_of_dec_digits(n as nat, 0);
    }
}

} // verus!
