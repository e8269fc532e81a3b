//! Unsigned numerals in base ten and base sixteen.

use vstd::prelude::*;

verus! {

/// The value of `c` as a digit: `0` to `9`, then `a` to `f` in either case
/// for ten to fifteen. Other characters are no digits.
pub open spec fn digit(c: char) -> Option<nat> {
    if '0' <= c <= '9' {
        Some((c as nat - '0' as nat) as nat)
    } else if 'a' <= c <= 'f' {
        Some((c as nat - 'a' as nat + 10) as nat)
    } else if 'A' <= c <= 'F' {
        Some((c as nat - 'A' as nat + 10) as nat)
    } else {
        None
    }
}

/// Whether `c` is a digit of base `radix`.
pub open spec fn is_digit(c: char, radix: nat) -> bool {
    digit(c) matches Some(d) && d < radix
}

/// Whether `c` is a hexadecimal digit.
pub open spec fn is_hex_digit(c: char) -> bool {
    is_digit(c, 16)
}

/// Whether every character of `s` is a digit of base `radix`.
pub open spec fn all_digits(s: Seq<char>, radix: nat) -> bool {
    forall|i: int| 0 <= i < s.len() ==> is_digit(#[trigger] s[i], radix)
}

/// The number that the digits `s` denote in base `radix`, most significant
/// digit first. A character that is no digit counts as zero.
pub open spec fn value(s: Seq<char>, radix: nat) -> nat
    decreases s.len(),
{
    if s.len() == 0 {
        0
    } else {
        value(s.drop_last(), radix) * radix + match digit(s.last()) {
            Some(d) => d,
            None => 0,
        }
    }
}

/// What `s` denotes as an unsigned 64-bit numeral of base `radix`: one
/// digit or more and nothing else, with a value that fits. A sign is no
/// digit, so a numeral with a sign denotes nothing, as does the empty text.
pub open spec fn parse_unsigned(s: Seq<char>, radix: nat) -> Option<u64> {
    if s.len() > 0 && all_digits(s, radix) && value(s, radix) <= u64::MAX {
        Some(value(s, radix) as u64)
    } else {
        None
    }
}

/// A numeral's value is at least the value of each of its prefixes.
pub proof fn lemma_value_prefix(s: Seq<char>, radix: nat, k: int)
    requires
        0 <= k <= s.len(),
        radix >= 1,
    ensures
        value(s.take(k), radix) <= value(s, radix),
    decreases s.len() - k,
{
    if k == s.len() {
        assert(s.take(k) =~= s);
    } else {
        lemma_value_prefix(s, radix, k + 1);
        assert(s.take(k + 1).drop_last() =~= s.take(k));
        let shorter = value(s.take(k), radix);
        assert(shorter <= shorter * radix) by (nonlinear_arith)
            requires
                radix >= 1,
        ;
    }
}

/// The value of `c` as a digit of base sixteen or less.
pub fn digit_of(c: char) -> (d: Option<u64>)
    ensures
        d is Some == digit(c) is Some,
        d matches Some(n) ==> digit(c) == Some(n as nat) && n < 16,
{
    if '0' <= c && c <= '9' {
        Some((c as u64) - ('0' as u64))
    } else if 'a' <= c && c <= 'f' {
        Some((c as u64) - ('a' as u64) + 10)
    } else if 'A' <= c && c <= 'F' {
        Some((c as u64) - ('A' as u64) + 10)
    } else {
        None
    }
}

/// Decides whether `c` is a hexadecimal digit.
pub fn hex_digit(c: char) -> (b: bool)
    ensures
        b == is_hex_digit(c),
{
    digit_of(c).is_some()
}

/// Reads the characters of `chars` between `from` and `to` as an unsigned
/// numeral of base `radix`.
pub fn parse_range(chars: &Vec<char>, from: usize, to: usize, radix: u64) -> (parsed: Option<u64>)
    requires
        from <= to <= chars.len(),
        2 <= radix <= 16,
    ensures
        parsed == parse_unsigned(chars@.subrange(from as int, to as int), radix as nat),
{
    let ghost body = chars@.subrange(from as int, to as int);
    if from == to {
        return None;
    }
    let mut i: usize = from;
    let mut acc: u64 = 0;
    while i < to
        invariant
            from <= i <= to <= chars.len(),
            from < to,
            2 <= radix <= 16,
            body == chars@.subrange(from as int, to as int),
            all_digits(body.take(i - from), radix as nat),
            acc == value(body.take(i - from), radix as nat),
        decreases to - i,
    {
        let ghost seen = body.take(i - from);
        let ghost next = body.take(i - from + 1);
        proof {
            assert(next.drop_last() =~= seen);
            assert(next.last() == chars@[i as int]);
        }
        let d = match digit_of(chars[i]) {
            Some(d) => d,
            None => {
                proof {
                    assert(!is_digit(body[i - from], radix as nat));
                }
                return None;
            },
        };
        if d >= radix {
            proof {
                assert(!is_digit(body[i - from], radix as nat));
            }
            return None;
        }
        proof {
            assert forall|j: int| 0 <= j < next.len() implies is_digit(
                #[trigger] next[j],
                radix as nat,
            ) by {
                if j < seen.len() {
                    assert(next[j] == seen[j]);
                }
            }
            lemma_value_prefix(body, radix as nat, i - from + 1);
        }
        let scaled = match acc.checked_mul(radix) {
            Some(scaled) => scaled,
            None => {
                return None;
            },
        };
        acc = match scaled.checked_add(d) {
            Some(sum) => sum,
            None => {
                return None;
            },
        };
        i += 1;
    }
    proof {
        assert(body.take(to - from) =~= body);
    }
    Some(acc)
}

/// The digit for `d` below sixteen: `0` to `9`, then `a` to `f`.
pub open spec fn digit_char(d: nat) -> char {
    if d == 0 {
        '0'
    }     else if d == 1 {
        '1'
    }     else if d == 2 {
        '2'
    }     else if d == 3 {
        '3'
    }     else if d == 4 {
        '4'
    }     else if d == 5 {
        '5'
    }     else if d == 6 {
        '6'
    }     else if d == 7 {
        '7'
    }     else if d == 8 {
        '8'
    }     else if d == 9 {
        '9'
    }     else if d == 10 {
        'a'
    }     else if d == 11 {
        'b'
    }     else if d == 12 {
        'c'
    }     else if d == 13 {
        'd'
    }     else if d == 14 {
        'e'
    } else {
        'f'
    }
}

/// The base-ten numeral of `n`, without sign or leading zeros.
pub open spec fn decimal(n: nat) -> Seq<char>
    decreases n,
{
    if n < 10 {
        seq![digit_char(n)]
    } else {
        decimal(n / 10).push(digit_char(n % 10))
    }
}

/// The base-sixteen numeral of `n` in lower case, without sign or leading
/// zeros.
pub open spec fn lower_hex(n: nat) -> Seq<char>
    decreases n,
{
    if n < 16 {
        seq![digit_char(n)]
    } else {
        lower_hex(n / 16).push(digit_char(n % 16))
    }
}

/// Each digit character has the value it was chosen for.
pub proof fn lemma_digit_char(d: nat)
    requires
        d < 16,
    ensures
        digit(digit_char(d)) == Some(d),
{
}

/// A base-ten numeral consists of digits and denotes the number it was
/// made from.
pub proof fn lemma_decimal(n: nat)
    ensures
        decimal(n).len() > 0,
        all_digits(decimal(n), 10),
        value(decimal(n), 10) == n,
    decreases n,
{
    lemma_digit_char(n % 10);
    if n < 10 {
        assert(decimal(n).drop_last() =~= Seq::<char>::empty());
        assert(value(decimal(n).drop_last(), 10) == 0);
    } else {
        lemma_decimal(n / 10);
        assert(decimal(n).drop_last() =~= decimal(n / 10));
        assert forall|i: int| 0 <= i < decimal(n).len() implies is_digit(
            #[trigger] decimal(n)[i],
            10,
        ) by {
            if i < decimal(n / 10).len() {
                assert(decimal(n)[i] == decimal(n / 10)[i]);
            }
        }
    }
}

/// A base-sixteen numeral consists of digits and denotes the number it was
/// made from.
pub proof fn lemma_lower_hex(n: nat)
    ensures
        lower_hex(n).len() > 0,
        all_digits(lower_hex(n), 16),
        value(lower_hex(n), 16) == n,
    decreases n,
{
    lemma_digit_char(n % 16);
    if n < 16 {
        assert(lower_hex(n).drop_last() =~= Seq::<char>::empty());
        assert(value(lower_hex(n).drop_last(), 16) == 0);
    } else {
        lemma_lower_hex(n / 16);
        assert(lower_hex(n).drop_last() =~= lower_hex(n / 16));
        assert forall|i: int| 0 <= i < lower_hex(n).len() implies is_digit(
            #[trigger] lower_hex(n)[i],
            16,
        ) by {
            if i < lower_hex(n / 16).len() {
                assert(lower_hex(n)[i] == lower_hex(n / 16)[i]);
            }
        }
    }
}

/// Reading the numeral of a number gives the number back, in either base.
pub proof fn lemma_numerals_round_trip(n: u64)
    ensures
        parse_unsigned(decimal(n as nat), 10) == Some(n),
        parse_unsigned(lower_hex(n as nat), 16) == Some(n),
{
    lemma_decimal(n as nat);
    lemma_lower_hex(n as nat);
}

/// The digit for `d` as a string of one character.
pub fn digit_str(d: u64) -> (s: &'static str)
    requires
        d < 16,
    ensures
        s@ == seq![digit_char(d as nat)],
{
    proof {
        reveal_strlit("0");
        reveal_strlit("1");
        reveal_strlit("2");
        reveal_strlit("3");
        reveal_strlit("4");
        reveal_strlit("5");
        reveal_strlit("6");
        reveal_strlit("7");
        reveal_strlit("8");
        reveal_strlit("9");
        reveal_strlit("a");
        reveal_strlit("b");
        reveal_strlit("c");
        reveal_strlit("d");
        reveal_strlit("e");
        reveal_strlit("f");
    }
    if d == 0 {
        let s = "0";
        assert(s@ =~= seq![digit_char(d as nat)]);
        s
    }     else if d == 1 {
        let s = "1";
        assert(s@ =~= seq![digit_char(d as nat)]);
        s
    }     else if d == 2 {
        let s = "2";
        assert(s@ =~= seq![digit_char(d as nat)]);
        s
    }     else if d == 3 {
        let s = "3";
        assert(s@ =~= seq![digit_char(d as nat)]);
        s
    }     else if d == 4 {
        let s = "4";
        assert(s@ =~= seq![digit_char(d as nat)]);
        s
    }     else if d == 5 {
        let s = "5";
        assert(s@ =~= seq![digit_char(d as nat)]);
        s
    }     else if d == 6 {
        let s = "6";
        assert(s@ =~= seq![digit_char(d as nat)]);
        s
    }     else if d == 7 {
        let s = "7";
        assert(s@ =~= seq![digit_char(d as nat)]);
        s
    }     else if d == 8 {
        let s = "8";
        assert(s@ =~= seq![digit_char(d as nat)]);
        s
    }     else if d == 9 {
        let s = "9";
        assert(s@ =~= seq![digit_char(d as nat)]);
        s
    }     else if d == 10 {
        let s = "a";
        assert(s@ =~= seq![digit_char(d as nat)]);
        s
    }     else if d == 11 {
        let s = "b";
        assert(s@ =~= seq![digit_char(d as nat)]);
        s
    }     else if d == 12 {
        let s = "c";
        assert(s@ =~= seq![digit_char(d as nat)]);
        s
    }     else if d == 13 {
        let s = "d";
        assert(s@ =~= seq![digit_char(d as nat)]);
        s
    }     else if d == 14 {
        let s = "e";
        assert(s@ =~= seq![digit_char(d as nat)]);
        s
    } else {
        let s = "f";
        assert(s@ =~= seq![digit_char(d as nat)]);
        s
    }
}

/// Appends the base-sixteen numeral of `n` to `out`.
pub fn append_lower_hex(out: &mut String, n: u64)
    ensures
        final(out)@ == old(out)@ + lower_hex(n as nat),
    decreases n,
{
    if n >= 16 {
        append_lower_hex(out, n / 16);
    }
    out.append(digit_str(n % 16));
    proof {
        if n >= 16 {
            assert(old(out)@ + lower_hex((n / 16) as nat) + seq![digit_char((n % 16) as nat)]
                =~= old(out)@ + lower_hex(n as nat));
        }
    }
}

} // verus!
