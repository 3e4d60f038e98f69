use vstd::prelude::*;

verus! {

/// The character for the digit `d` (`d < 16`), lower-case for `a` to `f`.
pub open spec fn digit_char(d: nat) -> char {
    if d < 10 {
        (d + 48) as char
    } else {
        (d + 87) as char
    }
}

/// The decimal digits of `n`, without leading zeros (`"0"` for zero).
pub open spec fn decimal(n: nat) -> Seq<char>
    decreases n,
{
    if n < 10 {
        seq![digit_char(n)]
    } else {
        decimal(n / 10).push(digit_char(n % 10))
    }
}

/// `n` in decimal, with a leading `-` when it is negative (what `Display`
/// writes for an integer).
pub open spec fn signed_decimal(n: int) -> Seq<char> {
    if n < 0 {
        seq!['-'] + decimal((-n) as nat)
    } else {
        decimal(n as nat)
    }
}

/// The lower-case hexadecimal digits of `n`, without leading zeros (what
/// `{:x}` writes).
pub open spec fn hex_lower(n: nat) -> Seq<char>
    decreases n,
{
    if n < 16 {
        seq![digit_char(n)]
    } else {
        hex_lower(n / 16).push(digit_char(n % 16))
    }
}

/// Whether `c` is an ASCII decimal digit.
pub open spec fn is_digit(c: char) -> bool {
    48 <= c as u32 <= 57
}

/// The value of the ASCII digit `c`.
pub open spec fn digit_value(c: char) -> int {
    c as u32 - 48
}

/// Whether every character of `s` is an ASCII digit.
pub open spec fn all_digits(s: Seq<char>) -> bool {
    forall|i: int| 0 <= i < s.len() ==> is_digit(#[trigger] s[i])
}

/// The number that the digits `s` spell in decimal.
pub open spec fn digits_value(s: Seq<char>) -> int
    decreases s.len(),
{
    if s.len() == 0 {
        0
    } else {
        digits_value(s.drop_last()) * 10 + digit_value(s.last())
    }
}

/// The `i32` that `s` spells (what `str::parse::<i32>` accepts): an optional
/// `+` or `-`, then one or more ASCII digits, and a value in range.
pub open spec fn parsed_i32(s: Seq<char>) -> Option<i32> {
    if s.len() == 0 {
        None
    } else {
        let signed = s[0] == '-' || s[0] == '+';
        let ds = if signed {
            s.drop_first()
        } else {
            s
        };
        let v = if s[0] == '-' {
            -digits_value(ds)
        } else {
            digits_value(ds)
        };
        if ds.len() == 0 || !all_digits(ds) {
            None
        } else if i32::MIN <= v <= i32::MAX {
            Some(v as i32)
        } else {
            None
        }
    }
}

/// The character for the digit `d`.
pub fn digit_char_exec(d: u64) -> (c: char)
    requires
        d < 16,
    ensures
        c == digit_char(d as nat),
{
    let b: u8 = d as u8;
    if d < 10 {
        (b + 48) as char
    } else {
        (b + 87) as char
    }
}

/// The decimal digits of `n`.
pub fn decimal_chars(n: u64) -> (r: Vec<char>)
    ensures
        r@ == decimal(n as nat),
    decreases n,
{
    if n < 10 {
        let mut r = Vec::new();
        r.push(digit_char_exec(n));
        r
    } else {
        let mut r = decimal_chars(n / 10);
        r.push(digit_char_exec(n % 10));
        r
    }
}

/// The lower-case hexadecimal digits of `n`.
pub fn hex_chars(n: u64) -> (r: Vec<char>)
    ensures
        r@ == hex_lower(n as nat),
    decreases n,
{
    if n < 16 {
        let mut r = Vec::new();
        r.push(digit_char_exec(n));
        r
    } else {
        let mut r = hex_chars(n / 16);
        r.push(digit_char_exec(n % 16));
        r
    }
}

/// Appends the decimal digits of `n` to `s`.
pub fn push_decimal(s: &mut String, n: u64)
    ensures
        final(s)@ == old(s)@ + decimal(n as nat),
{
    let ds = decimal_chars(n);
    let mut i: usize = 0;
    while i < ds.len()
        invariant
            i <= ds.len(),
            ds@ == decimal(n as nat),
            s@ == old(s)@ + ds@.take(i as int),
        decreases ds.len() - i,
    {
        crate::text::push_char(s, ds[i]);
        i = i + 1;
        assert(s@ == old(s)@ + ds@.take(i as int));
    }
    assert(ds@.take(i as int) == ds@);
}

/// Appends `n` in decimal, with its sign, to `s`.
pub fn push_signed_decimal(s: &mut String, n: i64)
    ensures
        final(s)@ == old(s)@ + signed_decimal(n as int),
{
    if n < 0 {
        crate::text::push_char(s, '-');
        let m: u64 = ((-(n + 1)) as u64) + 1;
        push_decimal(s, m);
        assert(s@ == old(s)@ + signed_decimal(n as int));
    } else {
        push_decimal(s, n as u64);
    }
}

/// Appends the lower-case hexadecimal digits of `n` to `s`.
pub fn push_hex(s: &mut String, n: u64)
    ensures
        final(s)@ == old(s)@ + hex_lower(n as nat),
{
    let ds = hex_chars(n);
    let mut i: usize = 0;
    while i < ds.len()
        invariant
            i <= ds.len(),
            ds@ == hex_lower(n as nat),
            s@ == old(s)@ + ds@.take(i as int),
        decreases ds.len() - i,
    {
        crate::text::push_char(s, ds[i]);
        i = i + 1;
        assert(s@ == old(s)@ + ds@.take(i as int));
    }
    assert(ds@.take(i as int) == ds@);
}

/// A larger bound than any `i32` magnitude, where accumulation saturates.
pub open spec fn saturation() -> int {
    0x8000_0001
}

/// The `i32` that `v[a..b]` spells, as `str::parse::<i32>` reads it.
pub fn parse_i32_range(v: &Vec<char>, a: usize, b: usize) -> (r: Option<i32>)
    requires
        a <= b <= v.len(),
    ensures
        r == parsed_i32(v@.subrange(a as int, b as int)),
{
    let ghost s = v@.subrange(a as int, b as int);
    if a == b {
        return None;
    }
    let negative = v[a] == '-';
    let start = if v[a] == '-' || v[a] == '+' {
        a + 1
    } else {
        a
    };
    let ghost ds = s.subrange((start - a) as int, s.len() as int);
    assert(ds == if s[0] == '-' || s[0] == '+' {
        s.drop_first()
    } else {
        s
    });
    if start == b {
        return None;
    }
    let mut acc: i64 = 0;
    let mut i = start;
    while i < b
        invariant
            a <= start <= i <= b <= v.len(),
            s == v@.subrange(a as int, b as int),
            ds == v@.subrange(start as int, b as int),
            s.len() > 0,
            ds == if s[0] == '-' || s[0] == '+' {
                s.drop_first()
            } else {
                s
            },
            all_digits(ds.take(i - start)),
            acc == if digits_value(ds.take(i - start)) < saturation() {
                digits_value(ds.take(i - start))
            } else {
                saturation()
            },
        decreases b - i,
    {
        let c = v[i];
        let u = c as u32;
        if u < 48 || u > 57 {
            assert(ds[i - start] == c);
            assert(!is_digit(ds[i - start]));
            assert(!all_digits(ds));
            return None;
        }
        let d = (u - 48) as i64;
        let ghost prev = ds.take(i - start);
        let ghost next = ds.take(i + 1 - start);
        assert(next.drop_last() == prev);
        assert(next.last() == c);
        proof {
            lemma_digits_value_nonneg(prev);
        }
        let grown = acc * 10 + d;
        acc = if grown < 0x8000_0001 {
            grown
        } else {
            0x8000_0001
        };
        i = i + 1;
        assert(all_digits(ds.take(i - start))) by {
            assert forall|k: int| 0 <= k < next.len() implies is_digit(#[trigger] next[k]) by {
                if k < prev.len() {
                    assert(next[k] == prev[k]);
                }
            }
        }
    }
    assert(ds.take(b - start) == ds);
    proof {
        lemma_digits_value_nonneg(ds);
    }
    if negative {
        if acc <= 0x8000_0000 {
            Some((-acc) as i32)
        } else {
            None
        }
    } else {
        if acc <= 0x7fff_ffff {
            Some(acc as i32)
        } else {
            None
        }
    }
}

pub proof fn lemma_digits_value_nonneg(s: Seq<char>)
    requires
        all_digits(s),
    ensures
        digits_value(s) >= 0,
    decreases s.len(),
{
    if s.len() > 0 {
        assert(is_digit(s[s.len() - 1]));
        assert(all_digits(s.drop_last())) by {
            assert forall|k: int| 0 <= k < s.drop_last().len() implies is_digit(
                #[trigger] s.drop_last()[k],
            ) by {
                assert(s.drop_last()[k] == s[k]);
            }
        }
        lemma_digits_value_nonneg(s.drop_last());
    }
}

} // verus!

verus! {

pub proof fn lemma_decimal_digits(n: nat)
    ensures
        decimal(n).len() >= 1,
        all_digits(decimal(n)),
        digits_value(decimal(n)) == n,
    decreases n,
{
    if n < 10 {
        assert(digit_char(n) as u32 == n + 48);
        assert(decimal(n).drop_last() =~= Seq::<char>::empty());
        assert(digits_value(Seq::<char>::empty()) == 0);
        assert(digits_value(decimal(n)) == digits_value(decimal(n).drop_last()) * 10 + digit_value(
            decimal(n).last(),
        ));
    } else {
        lemma_decimal_digits(n / 10);
        let s = decimal(n);
        assert(digit_char(n % 10) as u32 == n % 10 + 48);
        assert(s.drop_last() == decimal(n / 10));
        assert(digits_value(s) == digits_value(decimal(n / 10)) * 10 + digit_value(s.last()));
        assert(all_digits(s)) by {
            assert forall|i: int| 0 <= i < s.len() implies is_digit(#[trigger] s[i]) by {
                if i < s.len() - 1 {
                    assert(s[i] == decimal(n / 10)[i]);
                }
            }
        }
    }
}

/// A number written in decimal by `signed_decimal` is read back, as the same
/// `i32`, by `parsed_i32`: the text of a status code renders and parses to
/// itself.
pub proof fn lemma_decimal_roundtrip(n: i32)
    ensures
        parsed_i32(signed_decimal(n as int)) == Some(n),
{
    let s = signed_decimal(n as int);
    if n < 0 {
        let m = (-n) as nat;
        lemma_decimal_digits(m);
        assert(s.drop_first() == decimal(m));
        assert(s[0] == '-');
    } else {
        lemma_decimal_digits(n as nat);
        assert(is_digit(s[0]));
        assert(s[0] != '-' && s[0] != '+');
    }
}

} // verus!

verus! {

/// The value of a lower-case hexadecimal digit.
pub open spec fn hex_digit_value(c: char) -> int {
    if c as u32 <= 57 {
        c as u32 - 48
    } else {
        c as u32 - 87
    }
}

/// The number that the lower-case hexadecimal digits `s` spell, as a reader
/// of a chunk's size line reads it.
pub open spec fn hex_value(s: Seq<char>) -> int
    decreases s.len(),
{
    if s.len() == 0 {
        0
    } else {
        hex_value(s.drop_last()) * 16 + hex_digit_value(s.last())
    }
}

/// A size written by `hex_lower` reads back as itself: the size line of a
/// streamed chunk gives the length of the chunk's text.
pub proof fn lemma_hex_roundtrip(n: nat)
    ensures
        hex_value(hex_lower(n)) == n,
    decreases n,
{
    let s = hex_lower(n);
    if n < 16 {
        assert(s.drop_last() =~= Seq::<char>::empty());
        assert(hex_value(Seq::<char>::empty()) == 0);
        if n < 10 {
            assert(digit_char(n) as u32 == n + 48);
        } else {
            assert(digit_char(n) as u32 == n + 87);
        }
    } else {
        lemma_hex_roundtrip(n / 16);
        assert(s.drop_last() == hex_lower(n / 16));
        let d = n % 16;
        if d < 10 {
            assert(digit_char(d) as u32 == d + 48);
        } else {
            assert(digit_char(d) as u32 == d + 87);
        }
        assert(hex_value(s) == hex_value(hex_lower(n / 16)) * 16 + hex_digit_value(s.last()));
    }
}

} // verus!
