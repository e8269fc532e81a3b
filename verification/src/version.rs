//! Encoded versions: one integer per version, ordered as versions are.
//!
//! The layout is that of the library's own version number: four bits of
//! major version from bit 28 up, then eight bits each of minor, fix and
//! patch, and four bits of status at the bottom.

use crate::error::Error;
use crate::numeral::{
    all_digits, decimal, digit, hex_digit, is_digit, is_hex_digit, lemma_decimal,
    lemma_numerals_round_trip, parse_range, parse_unsigned, value,
};
use crate::text::{chars_of, find_sep, has_prefix, lemma_next_sep_is, split, split_from};
use vstd::prelude::*;

verus! {

/// `s` without the characters after its last hexadecimal digit.
pub open spec fn strip_suffix(s: Seq<char>) -> Seq<char>
    decreases s.len(),
{
    if s.len() > 0 && !is_hex_digit(s.last()) {
        strip_suffix(s.drop_last())
    } else {
        s
    }
}

/// What a hexadecimal version token such as `0x100020cfL` denotes. The
/// token begins with the marker `0x`. What follows, without the type suffix,
/// is one hexadecimal digit or more and nothing else, and its value fits in
/// 64 bits. A token of any other shape, one with a sign among them, is
/// malformed.
pub open spec fn hex_version(token: Seq<char>) -> Result<u64, Error> {
    if token.len() >= 2 && token[0] == '0' && token[1] == 'x' {
        let digits = strip_suffix(token.skip(2));
        if digits.len() > 0 && all_digits(digits, 16) && value(digits, 16) <= u64::MAX {
            Ok(value(digits, 16) as u64)
        } else {
            Err(Error::MalformedVersionToken)
        }
    } else {
        Err(Error::MalformedVersionToken)
    }
}

/// The encoded version of a release `major.minor.patch` in the dotted
/// scheme; its status is zero.
pub open spec fn pack(major: u64, minor: u64, patch: u64) -> u64 {
    (major << 28) | (minor << 20) | (patch << 4)
}

/// What a dotted version token such as `3_0_0` denotes: its first three
/// components, packed into one integer. Each of the three is one decimal
/// digit or more and nothing else, with a value that fits in 64 bits. A
/// token with fewer components, or with a component of any other shape, one
/// with a sign among them, is malformed. Components after the third are not
/// looked at.
pub open spec fn dotted_version(token: Seq<char>) -> Result<u64, Error> {
    let parts = split(token, '_');
    if parts.len() >= 3 {
        match (
            parse_unsigned(parts[0], 10),
            parse_unsigned(parts[1], 10),
            parse_unsigned(parts[2], 10),
        ) {
            (Some(major), Some(minor), Some(patch)) => Ok(pack(major, minor, patch)),
            _ => Err(Error::MalformedVersionToken),
        }
    } else {
        Err(Error::MalformedVersionToken)
    }
}

/// Reads the characters of `chars` between `from` and `to` as a hexadecimal
/// version token.
pub fn parse_version_range(chars: &Vec<char>, from: usize, to: usize) -> (parsed: Result<
    u64,
    Error,
>)
    requires
        from <= to <= chars.len(),
    ensures
        parsed == hex_version(chars@.subrange(from as int, to as int)),
{
    let ghost token = chars@.subrange(from as int, to as int);
    if to - from < 2 || chars[from] != '0' || chars[from + 1] != 'x' {
        return Err(Error::MalformedVersionToken);
    }
    let start: usize = from + 2;
    let mut end: usize = to;
    proof {
        assert(token.skip(2) =~= chars@.subrange(start as int, to as int));
    }
    while start < end && !hex_digit(chars[end - 1])
        invariant
            start <= end <= to <= chars.len(),
            strip_suffix(chars@.subrange(start as int, to as int)) == strip_suffix(
                chars@.subrange(start as int, end as int),
            ),
        decreases end - start,
    {
        proof {
            assert(chars@.subrange(start as int, end as int).drop_last() =~= chars@.subrange(
                start as int,
                end - 1,
            ));
        }
        end -= 1;
    }
    match parse_range(chars, start, end, 16) {
        Some(version) => Ok(version),
        None => Err(Error::MalformedVersionToken),
    }
}

/// Parses a hexadecimal version token such as `0x100020cfL`.
pub fn parse_version(version: &str) -> (parsed: Result<u64, Error>)
    ensures
        parsed == hex_version(version@),
{
    let chars = chars_of(version);
    proof {
        assert(chars@.subrange(0, chars@.len() as int) =~= chars@);
    }
    parse_version_range(&chars, 0, chars.len())
}

/// Reads the characters of `chars` between `from` and `to` as a dotted
/// version token.
pub fn parse_new_version_range(chars: &Vec<char>, from: usize, to: usize) -> (parsed: Result<
    u64,
    Error,
>)
    requires
        from <= to <= chars.len(),
    ensures
        parsed == dotted_version(chars@.subrange(from as int, to as int)),
{
    let token = token_of(chars, from, to);
    let major_end = find_sep(&token, '_', 0);
    if major_end == token.len() {
        return Err(Error::MalformedVersionToken);
    }
    let minor_end = find_sep(&token, '_', major_end + 1);
    proof {
        let rest = split_from(token@, '_', major_end + 1);
        assert(split(token@, '_') == seq![token@.subrange(0, major_end as int)] + rest);
        assert(minor_end == token.len() ==> rest.len() == 1);
    }
    if minor_end == token.len() {
        return Err(Error::MalformedVersionToken);
    }
    let patch_end = find_sep(&token, '_', minor_end + 1);
    let major = parse_range(&token, 0, major_end, 10);
    let minor = parse_range(&token, major_end + 1, minor_end, 10);
    let patch = parse_range(&token, minor_end + 1, patch_end, 10);
    proof {
        let rest = split_from(token@, '_', major_end + 1);
        let last = split_from(token@, '_', minor_end + 1);
        assert(rest == seq![token@.subrange(major_end + 1, minor_end as int)] + last);
        assert(last.len() >= 1);
        assert(last[0] == token@.subrange(minor_end + 1, patch_end as int));
    }
    match (major, minor, patch) {
        (Some(major), Some(minor), Some(patch)) => Ok((major << 28) | (minor << 20) | (patch << 4)),
        _ => Err(Error::MalformedVersionToken),
    }
}

/// A copy of the characters of `chars` between `from` and `to`.
pub fn token_of(chars: &Vec<char>, from: usize, to: usize) -> (token: Vec<char>)
    requires
        from <= to <= chars.len(),
    ensures
        token@ == chars@.subrange(from as int, to as int),
{
    let mut token: Vec<char> = Vec::new();
    let mut i: usize = from;
    while i < to
        invariant
            from <= i <= to <= chars.len(),
            token@ == chars@.subrange(from as int, i as int),
        decreases to - i,
    {
        token.push(chars[i]);
        proof {
            assert(chars@.subrange(from as int, i as int).push(chars@[i as int])
                =~= chars@.subrange(from as int, i + 1));
        }
        i += 1;
    }
    token
}

/// Parses a dotted version token such as `3_0_0`.
pub fn parse_new_version(version: &str) -> (parsed: Result<u64, Error>)
    ensures
        parsed == dotted_version(version@),
{
    let chars = chars_of(version);
    proof {
        assert(chars@.subrange(0, chars@.len() as int) =~= chars@);
    }
    parse_new_version_range(&chars, 0, chars.len())
}

/// The major version of an encoded version: its bits from 28 up.
pub open spec fn major_of(version: u64) -> u64 {
    version >> 28
}

/// The minor version of an encoded version: bits 20 to 27.
pub open spec fn minor_of(version: u64) -> u64 {
    (version >> 20) & 0xff
}

/// The fix number of an encoded version: bits 12 to 19.
pub open spec fn fix_of(version: u64) -> u64 {
    (version >> 12) & 0xff
}

/// The patch number of an encoded version: bits 4 to 11.
pub open spec fn patch_of(version: u64) -> u64 {
    (version >> 4) & 0xff
}

/// The status of an encoded version: its lowest four bits.
pub open spec fn status_of(version: u64) -> u64 {
    version & 0xf
}

/// Computes `major_of`.
pub fn major(version: u64) -> (field: u64)
    ensures
        field == major_of(version),
{
    version >> 28
}

/// Computes `minor_of`.
pub fn minor(version: u64) -> (field: u64)
    ensures
        field == minor_of(version),
{
    (version >> 20) & 0xff
}

/// Computes `fix_of`.
pub fn fix(version: u64) -> (field: u64)
    ensures
        field == fix_of(version),
{
    (version >> 12) & 0xff
}

/// Computes `patch_of`.
pub fn patch(version: u64) -> (field: u64)
    ensures
        field == patch_of(version),
{
    (version >> 4) & 0xff
}

/// Computes `status_of`.
pub fn status(version: u64) -> (field: u64)
    ensures
        field == status_of(version),
{
    version & 0xf
}

/// A hexadecimal version token is malformed in these cases and in no
/// other: it does not begin with `0x`; or what is left after the marker,
/// without the type suffix, is empty, holds a character that is no
/// hexadecimal digit, or denotes more than 64 bits hold. The only failure
/// is that of a malformed token.
pub proof fn lemma_hex_version_fails(token: Seq<char>)
    ensures
        hex_version(token) is Err <==> {
            ||| !has_prefix(token, seq!['0', 'x'])
            ||| strip_suffix(token.skip(2)).len() == 0
            ||| exists|i: int|
                0 <= i < strip_suffix(token.skip(2)).len() && !is_hex_digit(
                    #[trigger] strip_suffix(token.skip(2))[i],
                )
            ||| value(strip_suffix(token.skip(2)), 16) > u64::MAX
        },
        hex_version(token) is Err ==> hex_version(token) == Err::<u64, Error>(
            Error::MalformedVersionToken,
        ),
        hex_version(token) is Ok ==> hex_version(token)->Ok_0 == value(
            strip_suffix(token.skip(2)),
            16,
        ),
{
    let marker = seq!['0', 'x'];
    if has_prefix(token, marker) {
        assert(token.take(2)[0] == token[0] && token.take(2)[1] == token[1]);
    }
    if token.len() >= 2 && token[0] == '0' && token[1] == 'x' {
        assert(token.take(2) =~= marker);
    }
}

/// A dotted version token is malformed in these cases and in no other: it
/// has fewer than three components; or one of its first three components
/// is empty, holds a character that is no decimal digit, or denotes more
/// than 64 bits hold. The only failure is that of a malformed token.
pub proof fn lemma_dotted_version_fails(token: Seq<char>)
    ensures
        dotted_version(token) is Err <==> {
            ||| split(token, '_').len() < 3
            ||| exists|k: int|
                0 <= k < 3 && {
                    ||| (#[trigger] split(token, '_')[k]).len() == 0
                    ||| !all_digits(split(token, '_')[k], 10)
                    ||| value(split(token, '_')[k], 10) > u64::MAX
                }
        },
        dotted_version(token) is Err ==> dotted_version(token) == Err::<u64, Error>(
            Error::MalformedVersionToken,
        ),
{
    let parts = split(token, '_');
    if parts.len() >= 3 {
        if dotted_version(token) is Err {
            if parse_unsigned(parts[0], 10) is None {
                assert(parts[0].len() == 0 || !all_digits(parts[0], 10) || value(parts[0], 10)
                    > u64::MAX);
            } else if parse_unsigned(parts[1], 10) is None {
                assert(parts[1].len() == 0 || !all_digits(parts[1], 10) || value(parts[1], 10)
                    > u64::MAX);
            } else {
                assert(parts[2].len() == 0 || !all_digits(parts[2], 10) || value(parts[2], 10)
                    > u64::MAX);
            }
        }
    }
}

/// A sign makes a version token malformed, in the hexadecimal form and in
/// every component of the dotted form.
pub proof fn lemma_signs_are_malformed(rest: Seq<char>, sign: char)
    requires
        sign == '+' || sign == '-',
    ensures
        parse_unsigned(seq![sign] + rest, 10) is None,
        parse_unsigned(seq![sign] + rest, 16) is None,
        hex_version(seq!['0', 'x', sign] + rest) == Err::<u64, Error>(
            Error::MalformedVersionToken,
        ),
{
    let numeral = seq![sign] + rest;
    assert(!is_digit(numeral[0], 10) && !is_digit(numeral[0], 16));
    let token = seq!['0', 'x', sign] + rest;
    assert(token.skip(2) =~= numeral);
    lemma_strip_suffix_keeps(numeral);
    let digits = strip_suffix(numeral);
    if digits.len() > 0 {
        assert(digits[0] == numeral[0]);
        assert(!is_digit(digits[0], 16));
    }
}

/// `strip_suffix` takes nothing away from before the last hexadecimal
/// digit: what it leaves is a prefix of the text, and a character that is
/// followed by a hexadecimal digit stays where it is.
pub proof fn lemma_strip_suffix_keeps(s: Seq<char>)
    ensures
        strip_suffix(s).len() <= s.len(),
        strip_suffix(s) == s.take(strip_suffix(s).len() as int),
        strip_suffix(s).len() > 0 ==> is_hex_digit(strip_suffix(s).last()),
        forall|j: int| strip_suffix(s).len() <= j < s.len() ==> !is_hex_digit(#[trigger] s[j]),
    decreases s.len(),
{
    if s.len() > 0 && !is_hex_digit(s.last()) {
        lemma_strip_suffix_keeps(s.drop_last());
        let kept = strip_suffix(s).len() as int;
        assert(s.drop_last().take(kept) =~= s.take(kept));
        assert forall|j: int| kept <= j < s.len() implies !is_hex_digit(#[trigger] s[j]) by {
            if j < s.len() - 1 {
                assert(s.drop_last()[j] == s[j]);
            }
        }
    } else {
        assert(s.take(s.len() as int) =~= s);
    }
}

/// Whether the fields of `v1` come before those of `v2`, the major version
/// counting most and the status least.
pub open spec fn fields_before(v1: u64, v2: u64) -> bool {
    ||| major_of(v1) < major_of(v2)
    ||| major_of(v1) == major_of(v2) && minor_of(v1) < minor_of(v2)
    ||| major_of(v1) == major_of(v2) && minor_of(v1) == minor_of(v2) && fix_of(v1) < fix_of(v2)
    ||| major_of(v1) == major_of(v2) && minor_of(v1) == minor_of(v2) && fix_of(v1) == fix_of(v2)
        && patch_of(v1) < patch_of(v2)
    ||| major_of(v1) == major_of(v2) && minor_of(v1) == minor_of(v2) && fix_of(v1) == fix_of(v2)
        && patch_of(v1) == patch_of(v2) && status_of(v1) < status_of(v2)
}

/// An encoded version is made of its fields and of nothing else, so that
/// versions with the same fields are the same version.
pub proof fn lemma_fields_make_version(version: u64)
    ensures
        version == (major_of(version) << 28) | (minor_of(version) << 20) | (fix_of(version) << 12)
            | (patch_of(version) << 4) | status_of(version),
{
    assert(version == ((version >> 28) << 28) | (((version >> 20) & 0xff) << 20) | (((version
        >> 12) & 0xff) << 12) | (((version >> 4) & 0xff) << 4) | (version & 0xf)) by (bit_vector);
}

/// Encoded versions are ordered as their fields are.
pub proof fn lemma_order_is_by_fields(v1: u64, v2: u64)
    ensures
        v1 < v2 <==> fields_before(v1, v2),
{
    assert(v1 < v2 <==> {
        ||| (v1 >> 28) < (v2 >> 28)
        ||| (v1 >> 28) == (v2 >> 28) && ((v1 >> 20) & 0xff) < ((v2 >> 20) & 0xff)
        ||| (v1 >> 28) == (v2 >> 28) && ((v1 >> 20) & 0xff) == ((v2 >> 20) & 0xff) && ((v1 >> 12)
            & 0xff) < ((v2 >> 12) & 0xff)
        ||| (v1 >> 28) == (v2 >> 28) && ((v1 >> 20) & 0xff) == ((v2 >> 20) & 0xff) && ((v1 >> 12)
            & 0xff) == ((v2 >> 12) & 0xff) && ((v1 >> 4) & 0xff) < ((v2 >> 4) & 0xff)
        ||| (v1 >> 28) == (v2 >> 28) && ((v1 >> 20) & 0xff) == ((v2 >> 20) & 0xff) && ((v1 >> 12)
            & 0xff) == ((v2 >> 12) & 0xff) && ((v1 >> 4) & 0xff) == ((v2 >> 4) & 0xff) && (v1
            & 0xf) < (v2 & 0xf)
    }) by (bit_vector);
}

/// A packed release has the fields it was packed from, as long as minor
/// version and patch number fit their eight bits; fix and status are zero.
pub proof fn lemma_pack_fields(major: u64, minor: u64, patch: u64)
    requires
        major <= 0xf_ffff_ffff,
        minor <= 0xff,
        patch <= 0xff,
    ensures
        major_of(pack(major, minor, patch)) == major,
        minor_of(pack(major, minor, patch)) == minor,
        fix_of(pack(major, minor, patch)) == 0,
        patch_of(pack(major, minor, patch)) == patch,
        status_of(pack(major, minor, patch)) == 0,
{
    let v = (major << 28) | (minor << 20) | (patch << 4);
    assert(major <= 0xf_ffff_ffff && minor <= 0xff && patch <= 0xff && v == (major << 28) | (minor
        << 20) | (patch << 4) ==> v >> 28 == major && (v >> 20) & 0xff == minor && (v >> 12) & 0xff
        == 0 && (v >> 4) & 0xff == patch && v & 0xf == 0) by (bit_vector);
}

/// Within the widths of the fields, packing adds up the fields, each at its
/// place.
pub proof fn lemma_pack_is_sum(major: u64, minor: u64, patch: u64)
    requires
        major <= 0xf_ffff_ffff,
        minor <= 0xff,
        patch <= 0xff,
    ensures
        pack(major, minor, patch) == major * 0x1000_0000 + minor * 0x10_0000 + patch * 0x10,
{
    assert(major <= 0xf_ffff_ffff && minor <= 0xff && patch <= 0xff ==> (major << 28) | (minor
        << 20) | (patch << 4) == major * 0x1000_0000 + minor * 0x10_0000 + patch * 0x10)
        by (bit_vector);
}

/// Whether the release `a` comes before the release `b`, each given as
/// major version, minor version and patch number.
pub open spec fn release_before(a: (u64, u64, u64), b: (u64, u64, u64)) -> bool {
    a.0 < b.0 || (a.0 == b.0 && a.1 < b.1) || (a.0 == b.0 && a.1 == b.1 && a.2 < b.2)
}

/// Within the widths of the fields, packing is injective and keeps the
/// order of releases.
pub proof fn lemma_pack_orders(a: (u64, u64, u64), b: (u64, u64, u64))
    requires
        a.0 <= 0xf_ffff_ffff && a.1 <= 0xff && a.2 <= 0xff,
        b.0 <= 0xf_ffff_ffff && b.1 <= 0xff && b.2 <= 0xff,
    ensures
        pack(a.0, a.1, a.2) == pack(b.0, b.1, b.2) <==> a == b,
        pack(a.0, a.1, a.2) < pack(b.0, b.1, b.2) <==> release_before(a, b),
{
    lemma_pack_fields(a.0, a.1, a.2);
    lemma_pack_fields(b.0, b.1, b.2);
    lemma_order_is_by_fields(pack(a.0, a.1, a.2), pack(b.0, b.1, b.2));
}

/// `strip_suffix` takes away a tail without hexadecimal digits and keeps
/// what ends in one.
pub proof fn lemma_strip_suffix(body: Seq<char>, suffix: Seq<char>)
    requires
        body.len() > 0,
        is_hex_digit(body.last()),
        forall|i: int| 0 <= i < suffix.len() ==> !is_hex_digit(#[trigger] suffix[i]),
    ensures
        strip_suffix(body + suffix) == body,
    decreases suffix.len(),
{
    if suffix.len() == 0 {
        assert(body + suffix =~= body);
    } else {
        assert((body + suffix).last() == suffix.last());
        assert((body + suffix).drop_last() =~= body + suffix.drop_last());
        lemma_strip_suffix(body, suffix.drop_last());
    }
}

/// The value of the hexadecimal digit `c`; zero for any other character.
pub open spec fn hex(c: char) -> u64 {
    match digit(c) {
        Some(d) => d as u64,
        None => 0,
    }
}

/// A token of `0x`, eight hexadecimal digits and a type suffix reads as the
/// version whose four bytes are the four groups of two digits: masking the
/// version gives each group back.
pub proof fn lemma_hex_groups_round_trip(digits: Seq<char>, suffix: Seq<char>)
    requires
        digits.len() == 8,
        all_digits(digits, 16),
        forall|i: int| 0 <= i < suffix.len() ==> !is_hex_digit(#[trigger] suffix[i]),
    ensures
        hex_version(seq!['0', 'x'] + digits + suffix) is Ok,
        ({
            let version = hex_version(seq!['0', 'x'] + digits + suffix)->Ok_0;
            &&& version <= 0xffff_ffff
            &&& (version >> 24) & 0xff == 16 * hex(digits[0]) + hex(digits[1])
            &&& (version >> 16) & 0xff == 16 * hex(digits[2]) + hex(digits[3])
            &&& (version >> 8) & 0xff == 16 * hex(digits[4]) + hex(digits[5])
            &&& version & 0xff == 16 * hex(digits[6]) + hex(digits[7])
        }),
{
    let token = seq!['0', 'x'] + digits + suffix;
    assert(token.skip(2) =~= digits + suffix);
    assert(is_digit(digits[7], 16));
    lemma_strip_suffix(digits, suffix);
    assert(is_digit(digits[0], 16));
    let d0 = hex(digits[0]);
    let d1 = hex(digits[1]);
    let d2 = hex(digits[2]);
    let d3 = hex(digits[3]);
    let d4 = hex(digits[4]);
    let d5 = hex(digits[5]);
    let d6 = hex(digits[6]);
    let d7 = hex(digits[7]);
    assert(is_digit(digits[1], 16) && is_digit(digits[2], 16) && is_digit(digits[3], 16)
        && is_digit(digits[4], 16) && is_digit(digits[5], 16) && is_digit(digits[6], 16));
    let p1 = digits.take(1);
    let p2 = digits.take(2);
    let p3 = digits.take(3);
    let p4 = digits.take(4);
    let p5 = digits.take(5);
    let p6 = digits.take(6);
    let p7 = digits.take(7);
    assert(p1.drop_last() =~= Seq::<char>::empty());
    assert(p2.drop_last() =~= p1);
    assert(p3.drop_last() =~= p2);
    assert(p4.drop_last() =~= p3);
    assert(p5.drop_last() =~= p4);
    assert(p6.drop_last() =~= p5);
    assert(p7.drop_last() =~= p6);
    assert(digits.drop_last() =~= p7);
    assert(value(p1.drop_last(), 16) == 0);
    assert(value(p1, 16) == d0);
    assert(value(p2, 16) == d0 * 16 + d1);
    assert(value(p3, 16) == (d0 * 16 + d1) * 16 + d2);
    assert(value(p4, 16) == ((d0 * 16 + d1) * 16 + d2) * 16 + d3);
    assert(value(p5, 16) == (((d0 * 16 + d1) * 16 + d2) * 16 + d3) * 16 + d4);
    assert(value(p6, 16) == ((((d0 * 16 + d1) * 16 + d2) * 16 + d3) * 16 + d4) * 16 + d5);
    assert(value(p7, 16) == (((((d0 * 16 + d1) * 16 + d2) * 16 + d3) * 16 + d4) * 16 + d5) * 16
        + d6);
    let total: u64 = (d0 * 0x1000_0000 + d1 * 0x100_0000 + d2 * 0x10_0000 + d3 * 0x1_0000 + d4
        * 0x1000 + d5 * 0x100 + d6 * 0x10 + d7) as u64;
    assert(value(digits, 16) == total);
    assert(d0 < 16 && d1 < 16 && d2 < 16 && d3 < 16 && d4 < 16 && d5 < 16 && d6 < 16 && d7 < 16
        && total == d0 * 0x1000_0000 + d1 * 0x100_0000 + d2 * 0x10_0000 + d3 * 0x1_0000 + d4
        * 0x1000 + d5 * 0x100 + d6 * 0x10 + d7 ==> total <= 0xffff_ffff && (total >> 24) & 0xff
        == 16 * d0 + d1 && (total
        >> 16) & 0xff == 16 * d2 + d3 && (total >> 8) & 0xff == 16 * d4 + d5 && total & 0xff == 16
        * d6 + d7) by (bit_vector);
}

/// A token of three base-ten numerals with `_` between them reads as the
/// release that the three numbers name. For numbers up to 255 none of its
/// fields runs into another.
pub proof fn lemma_dotted_triple(major: u64, minor: u64, patch: u64)
    ensures
        dotted_version(
            decimal(major as nat) + seq!['_'] + decimal(minor as nat) + seq!['_'] + decimal(
                patch as nat,
            ),
        ) == Ok::<u64, Error>((major << 28) | (minor << 20) | (patch << 4)),
{
    let a = decimal(major as nat);
    let b = decimal(minor as nat);
    let c = decimal(patch as nat);
    let token = a + seq!['_'] + b + seq!['_'] + c;
    lemma_decimal(major as nat);
    lemma_decimal(minor as nat);
    lemma_decimal(patch as nat);
    lemma_numerals_round_trip(major);
    lemma_numerals_round_trip(minor);
    lemma_numerals_round_trip(patch);
    let e0 = a.len() as int;
    let e1 = e0 + 1 + b.len();
    let e2 = e1 + 1 + c.len();
    assert(token.len() == e2);
    assert forall|i: int| 0 <= i < e0 implies token[i] != '_' by {
        assert(token[i] == a[i]);
        assert(is_digit(a[i], 10));
    }
    assert forall|i: int| e0 + 1 <= i < e1 implies token[i] != '_' by {
        assert(token[i] == b[i - e0 - 1]);
        assert(is_digit(b[i - e0 - 1], 10));
    }
    assert forall|i: int| e1 + 1 <= i < e2 implies token[i] != '_' by {
        assert(token[i] == c[i - e1 - 1]);
        assert(is_digit(c[i - e1 - 1], 10));
    }
    assert(token[e0] == '_');
    assert(token[e1] == '_');
    lemma_next_sep_is(token, '_', 0, e0);
    lemma_next_sep_is(token, '_', e0 + 1, e1);
    lemma_next_sep_is(token, '_', e1 + 1, e2);
    let rest = split_from(token, '_', e0 + 1);
    let last = split_from(token, '_', e1 + 1);
    assert(split(token, '_') == seq![token.subrange(0, e0)] + rest);
    assert(rest == seq![token.subrange(e0 + 1, e1)] + last);
    assert(last == seq![token.subrange(e1 + 1, e2)]);
    assert(token.subrange(0, e0) =~= a);
    assert(token.subrange(e0 + 1, e1) =~= b);
    assert(token.subrange(e1 + 1, e2) =~= c);
}

} // verus!
