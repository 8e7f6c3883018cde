//! Byte-string helpers the protocol and the archive reader share.  All
//! text the controller handles (command templates, serial lines, archive
//! entry names, INI contents) is ASCII carried in byte vectors.

use vstd::prelude::*;

verus! {

/// ASCII decimal digit.
pub open spec fn is_digit(b: u8) -> bool {
    48 <= b <= 57
}

/// A byte a substitution token may consist of: letters, digits and the
/// underscore.
pub open spec fn is_word_byte(b: u8) -> bool {
    (97 <= b <= 122) || (65 <= b <= 90) || is_digit(b) || b == 95
}

/// Horizontal whitespace trimmed around INI keys and values, and the
/// carriage return left by CRLF line endings.
pub open spec fn is_space(b: u8) -> bool {
    b == 32 || b == 9 || b == 13
}

/// `needle` occurs contiguously inside `hay`.
pub open spec fn spec_contains(hay: Seq<u8>, needle: Seq<u8>) -> bool {
    exists|i: int|
        0 <= i && i + needle.len() <= hay.len() && #[trigger] hay.subrange(
            i,
            i + needle.len() as int,
        ) == needle
}

/// Whether a serial reply satisfies an expectation: the expected text
/// occurs in the reply as a substring.
pub fn contains_bytes(hay: &[u8], needle: &[u8]) -> (r: bool)
    ensures
        r == spec_contains(hay@, needle@),
{
    let n = needle.len();
    let h = hay.len();
    if n > h {
        proof {
            assert(!spec_contains(hay@, needle@));
        }
        return false;
    }
    let mut i: usize = 0;
    while i <= h - n
        invariant
            n <= h,
            h == hay@.len(),
            n == needle@.len(),
            0 <= i <= h - n + 1,
            forall|m: int|
                0 <= m < i ==> #[trigger] hay@.subrange(m, m + needle@.len() as int) != needle@,
        decreases h - n - i + 1,
    {
        let mut j: usize = 0;
        let mut matched: bool = true;
        while j < n
            invariant
                0 <= j <= n,
                n <= h,
                h == hay@.len(),
                n == needle@.len(),
                i + n <= h,
                matched == (forall|m: int| 0 <= m < j ==> hay@[i + m] == needle@[m]),
            decreases n - j,
        {
            if hay[i + j] != needle[j] {
                matched = false;
                proof {
                    assert(!(forall|m: int| 0 <= m < j + 1 ==> hay@[i + m] == needle@[m]));
                }
                j = n;
            } else {
                proof {
                    if matched {
                        assert(forall|m: int| 0 <= m < j + 1 ==> hay@[i + m] == needle@[m]);
                    }
                }
                j = j + 1;
            }
        }
        if matched {
            proof {
                assert(hay@.subrange(i as int, i + needle@.len() as int) =~= needle@);
            }
            return true;
        }
        proof {
            if hay@.subrange(i as int, i + needle@.len() as int) == needle@ {
                assert(forall|m: int|
                    0 <= m < n ==> #[trigger] hay@.subrange(
                        i as int,
                        i + needle@.len() as int,
                    )[m] == hay@[i + m]);
                assert(false);
            }
        }
        i = i + 1;
    }
    proof {
        assert(forall|m: int|
            0 <= m && m + needle@.len() <= hay@.len() ==> #[trigger] hay@.subrange(
                m,
                m + needle@.len() as int,
            ) != needle@);
    }
    false
}

/// The first index at or after `from` holding a byte that fails `pred`;
/// parameterised helpers below instantiate it.
pub open spec fn spec_trim_start(s: Seq<u8>) -> int
    decreases s.len(),
{
    if s.len() == 0 || !is_space(s[0]) {
        0
    } else {
        1 + spec_trim_start(s.skip(1))
    }
}

/// `s` with leading and trailing whitespace removed.
pub open spec fn spec_trim(s: Seq<u8>) -> Seq<u8> {
    spec_trim_end(s.skip(spec_trim_start(s)))
}

/// `s` with trailing whitespace removed.
pub open spec fn spec_trim_end(s: Seq<u8>) -> Seq<u8>
    decreases s.len(),
{
    if s.len() == 0 || !is_space(s.last()) {
        s
    } else {
        spec_trim_end(s.drop_last())
    }
}

proof fn lemma_trim_start_bounds(s: Seq<u8>)
    ensures
        0 <= spec_trim_start(s) <= s.len(),
        forall|i: int| 0 <= i < spec_trim_start(s) ==> is_space(#[trigger] s[i]),
        spec_trim_start(s) < s.len() ==> !is_space(s[spec_trim_start(s)]),
    decreases s.len(),
{
    if s.len() > 0 && is_space(s[0]) {
        lemma_trim_start_bounds(s.skip(1));
        assert forall|i: int| 0 <= i < spec_trim_start(s) implies is_space(#[trigger] s[i]) by {
            if i >= 1 {
                assert(s.skip(1)[i - 1] == s[i]);
                assert(is_space(s.skip(1)[i - 1]));
            }
        }
    }
}

proof fn lemma_trim_end_bounds(s: Seq<u8>)
    ensures
        spec_trim_end(s).len() <= s.len(),
        spec_trim_end(s) == s.take(spec_trim_end(s).len() as int),
        forall|i: int| spec_trim_end(s).len() <= i < s.len() ==> is_space(#[trigger] s[i]),
        spec_trim_end(s).len() > 0 ==> !is_space(s[spec_trim_end(s).len() - 1]),
    decreases s.len(),
{
    if s.len() == 0 || !is_space(s.last()) {
        assert(s.take(s.len() as int) =~= s);
    } else {
        lemma_trim_end_bounds(s.drop_last());
        assert(s.drop_last().take(spec_trim_end(s.drop_last()).len() as int) =~= s.take(
            spec_trim_end(s.drop_last()).len() as int,
        ));
        assert forall|i: int| spec_trim_end(s).len() <= i < s.len() implies is_space(
            #[trigger] s[i],
        ) by {
            if i < s.len() - 1 {
                assert(s.drop_last()[i] == s[i]);
                assert(is_space(s.drop_last()[i]));
            }
        }
    }
}

/// Removes surrounding whitespace, as INI keys and values are compared
/// after trimming.
pub fn trim_bytes(s: &[u8]) -> (r: Vec<u8>)
    ensures
        r@ == spec_trim(s@),
{
    proof {
        lemma_trim_start_bounds(s@);
        lemma_trim_end_bounds(s@.skip(spec_trim_start(s@)));
    }
    let len = s.len();
    let mut start: usize = 0;
    while start < len && (s[start] == 32 || s[start] == 9 || s[start] == 13)
        invariant
            0 <= start <= len,
            len == s@.len(),
            start <= spec_trim_start(s@),
            forall|i: int| 0 <= i < start ==> is_space(#[trigger] s@[i]),
        decreases len - start,
    {
        proof {
            lemma_trim_start_bounds(s@);
            if start + 1 > spec_trim_start(s@) {
                assert(!is_space(s@[spec_trim_start(s@)]));
                assert(false);
            }
        }
        start = start + 1;
    }
    proof {
        lemma_trim_start_bounds(s@);
        assert(start == spec_trim_start(s@));
    }
    let mut end: usize = len;
    let ghost tail = s@.skip(spec_trim_start(s@));
    let ghost keep = spec_trim_end(tail).len() + start;
    proof {
        lemma_trim_end_bounds(tail);
        assert(forall|i: int| 0 <= i < tail.len() ==> tail[i] == s@[i + start]);
    }
    while end > start && (s[end - 1] == 32 || s[end - 1] == 9 || s[end - 1] == 13)
        invariant
            start <= end <= len,
            len == s@.len(),
            start == spec_trim_start(s@),
            tail == s@.skip(start as int),
            keep == spec_trim_end(tail).len() + start,
            keep <= end,
            forall|i: int| end <= i < len ==> is_space(#[trigger] s@[i]),
        decreases end,
    {
        proof {
            lemma_trim_end_bounds(tail);
            if end - 1 < keep {
                assert(end - 1 == keep - 1);
                assert(tail[spec_trim_end(tail).len() - 1] == s@[end - 1]);
                assert(false);
            }
        }
        end = end - 1;
    }
    proof {
        lemma_trim_end_bounds(tail);
        if end > keep {
            assert(is_space(tail[end - 1 - start]));
            assert(spec_trim_end(tail)[end - 1 - start] == tail[end - 1 - start]);
            assert(false);
        }
        assert(end == keep);
    }
    let mut r: Vec<u8> = Vec::new();
    let mut i: usize = start;
    while i < end
        invariant
            start <= i <= end,
            end <= len,
            len == s@.len(),
            r@ =~= s@.subrange(start as int, i as int),
        decreases end - i,
    {
        r.push(s[i]);
        i = i + 1;
    }
    proof {
        lemma_trim_end_bounds(tail);
        assert(spec_trim_end(tail) == tail.take(spec_trim_end(tail).len() as int));
        assert(r@ =~= spec_trim(s@));
    }
    r
}

/// Index of the first occurrence of `b` in `s`, or `s.len()` if absent.
pub open spec fn spec_find(s: Seq<u8>, b: u8) -> int
    decreases s.len(),
{
    if s.len() == 0 {
        0
    } else if s[0] == b {
        0
    } else {
        1 + spec_find(s.skip(1), b)
    }
}

pub proof fn lemma_find_bounds(s: Seq<u8>, b: u8)
    ensures
        0 <= spec_find(s, b) <= s.len(),
        forall|i: int| 0 <= i < spec_find(s, b) ==> #[trigger] s[i] != b,
        spec_find(s, b) < s.len() ==> s[spec_find(s, b)] == b,
    decreases s.len(),
{
    if s.len() > 0 && s[0] != b {
        lemma_find_bounds(s.skip(1), b);
        assert forall|i: int| 0 <= i < spec_find(s, b) implies #[trigger] s[i] != b by {
            if i >= 1 {
                assert(s.skip(1)[i - 1] == s[i]);
            }
        }
    }
}

/// First occurrence of `b` at or after `from`, or the length if absent.
pub fn find_byte(s: &[u8], from: usize, b: u8) -> (r: usize)
    requires
        from <= s@.len(),
    ensures
        from <= r <= s@.len(),
        r == from + spec_find(s@.skip(from as int), b),
        forall|i: int| from <= i < r ==> #[trigger] s@[i] != b,
        r < s@.len() ==> s@[r as int] == b,
{
    let ghost target = from + spec_find(s@.skip(from as int), b);
    proof {
        lemma_find_bounds(s@.skip(from as int), b);
        assert forall|i0: int| from <= i0 < target implies #[trigger] s@[i0] != b by {
            assert(s@.skip(from as int)[i0 - from] == s@[i0]);
        }
        if target < s@.len() {
            assert(s@.skip(from as int)[target - from] == s@[target as int]);
        }
    }
    let len = s.len();
    let mut i: usize = from;
    while i < len && s[i] != b
        invariant
            from <= i <= len,
            len == s@.len(),
            i <= target,
            target == from + spec_find(s@.skip(from as int), b),
            target <= len,
            forall|i0: int| from <= i0 < target ==> #[trigger] s@[i0] != b,
            target < len ==> s@[target as int] == b,
        decreases len - i,
    {
        proof {
            if i + 1 > target {
                assert(s@[target as int] == b);
                assert(false);
            }
        }
        i = i + 1;
    }
    proof {
        assert(i == target);
    }
    i
}

/// `s` cut at every line feed; the separators themselves are dropped.
/// An empty input is a single empty line.
pub open spec fn spec_split_lines(s: Seq<u8>) -> Seq<Seq<u8>>
    decreases s.len(),
    via spec_split_lines_dec
{
    let f = spec_find(s, 10);
    if f >= s.len() {
        seq![s]
    } else {
        seq![s.take(f)] + spec_split_lines(s.skip(f + 1))
    }
}

#[via_fn]
proof fn spec_split_lines_dec(s: Seq<u8>) {
    lemma_find_bounds(s, 10);
}

/// Splits INI contents (or any text) into its lines.
pub fn split_lines(s: &[u8]) -> (r: Vec<Vec<u8>>)
    ensures
        r@.map_values(|line: Vec<u8>| line@) == spec_split_lines(s@),
{
    let mut out: Vec<Vec<u8>> = Vec::new();
    let len = s.len();
    let mut start: usize = 0;
    proof {
        assert(s@.skip(0) =~= s@);
        assert(out@.map_values(|line: Vec<u8>| line@) =~= Seq::<Seq<u8>>::empty());
        assert(Seq::<Seq<u8>>::empty() + spec_split_lines(s@) =~= spec_split_lines(s@));
    }
    loop
        invariant
            0 <= start <= len,
            len == s@.len(),
            out@.map_values(|line: Vec<u8>| line@) + spec_split_lines(s@.skip(start as int))
                =~= spec_split_lines(s@),
        decreases len - start,
    {
        let f = find_byte(s, start, 10);
        let mut piece: Vec<u8> = Vec::new();
        let mut i: usize = start;
        while i < f
            invariant
                start <= i <= f,
                f <= len,
                len == s@.len(),
                piece@ =~= s@.subrange(start as int, i as int),
            decreases f - i,
        {
            piece.push(s[i]);
            i = i + 1;
        }
        let ghost rest = s@.skip(start as int);
        proof {
            lemma_find_bounds(rest, 10);
            assert(forall|i0: int| 0 <= i0 < rest.len() ==> #[trigger] rest[i0] == s@[i0 + start]);
            assert(spec_find(rest, 10) == f - start) by {
                let ff = spec_find(rest, 10);
                if ff < f - start {
                    assert(rest[ff] == 10);
                    assert(s@[ff + start] != 10);
                } else if ff > f - start && f < len {
                    assert(rest[f - start] == s@[f as int]);
                }
            }
            assert(piece@ =~= rest.take(f - start));
        }
        if f >= len {
            out.push(piece);
            proof {
                assert(spec_split_lines(rest) =~= seq![rest]);
                assert(rest.take(f - start) =~= rest);
                assert(out@.map_values(|line: Vec<u8>| line@) =~= out@.map_values(
                    |line: Vec<u8>| line@,
                ).drop_last() + seq![piece@]);
                assert(out@.map_values(|line: Vec<u8>| line@) + spec_split_lines(
                    s@.skip(len as int),
                ) =~= spec_split_lines(s@) + spec_split_lines(s@.skip(len as int)));
            }
            return out;
        }
        out.push(piece);
        proof {
            assert(spec_split_lines(rest) =~= seq![rest.take(f - start)] + spec_split_lines(
                rest.skip(f - start + 1),
            ));
            assert(rest.skip(f - start + 1) =~= s@.skip(f + 1));
            assert(out@.map_values(|line: Vec<u8>| line@) =~= out@.map_values(
                |line: Vec<u8>| line@,
            ).drop_last() + seq![piece@]);
            assert(out@.map_values(|line: Vec<u8>| line@) + spec_split_lines(s@.skip(f + 1))
                =~= spec_split_lines(s@));
        }
        start = f + 1;
    }
}

/// The integer a digit string denotes, most significant digit first.
pub open spec fn spec_digits_val(s: Seq<u8>) -> int
    decreases s.len(),
{
    if s.len() == 0 {
        0
    } else {
        spec_digits_val(s.drop_last()) * 10 + (s.last() - 48)
    }
}

pub open spec fn all_digits(s: Seq<u8>) -> bool {
    forall|i: int| 0 <= i < s.len() ==> is_digit(#[trigger] s[i])
}

/// What parsing an unsigned decimal yields: defined exactly when the
/// string is non-empty, all digits, and the value fits in 64 bits.
pub open spec fn spec_parse_u64(s: Seq<u8>) -> Option<u64> {
    if s.len() > 0 && all_digits(s) && spec_digits_val(s) <= u64::MAX {
        Some(spec_digits_val(s) as u64)
    } else {
        None
    }
}

proof fn lemma_digits_val_nonneg(s: Seq<u8>)
    requires
        all_digits(s),
    ensures
        spec_digits_val(s) >= 0,
    decreases s.len(),
{
    if s.len() > 0 {
        assert(forall|i: int|
            0 <= i < s.drop_last().len() ==> #[trigger] s.drop_last()[i] == s[i]);
        lemma_digits_val_nonneg(s.drop_last());
    }
}

proof fn lemma_digits_val_mono(s: Seq<u8>, i: int)
    requires
        all_digits(s),
        0 <= i <= s.len(),
    ensures
        spec_digits_val(s) >= spec_digits_val(s.take(i)),
    decreases s.len() - i,
{
    if i < s.len() {
        lemma_digits_val_mono(s, i + 1);
        let p = s.take(i + 1);
        assert(p.drop_last() =~= s.take(i));
        assert(p.last() == s[i]);
        assert(forall|m: int| 0 <= m < i ==> #[trigger] s.take(i)[m] == s[m]);
        lemma_digits_val_nonneg(s.take(i));
        assert(spec_digits_val(p) == spec_digits_val(s.take(i)) * 10 + (s[i] - 48));
        assert(spec_digits_val(s.take(i)) * 10 >= spec_digits_val(s.take(i)));
    } else {
        assert(s.take(i) =~= s);
    }
}

/// Parses an unsigned decimal; `None` on anything but a pure digit
/// string whose value fits, exactly as the specification defines it.
pub fn parse_u64(s: &[u8]) -> (r: Option<u64>)
    ensures
        r == spec_parse_u64(s@),
{
    let len = s.len();
    if len == 0 {
        return None;
    }
    let mut val: u64 = 0;
    let mut i: usize = 0;
    proof {
        assert(s@.take(0) =~= Seq::<u8>::empty());
    }
    while i < len
        invariant
            0 <= i <= len,
            len == s@.len(),
            all_digits(s@.take(i as int)),
            val == spec_digits_val(s@.take(i as int)),
        decreases len - i,
    {
        let b = s[i];
        if b < 48 || b > 57 {
            proof {
                assert(!is_digit(s@[i as int]));
                assert(!all_digits(s@));
            }
            return None;
        }
        let d = b - 48;
        if val > (u64::MAX - (d as u64)) / 10 {
            proof {
                let p = s@.take(i as int + 1);
                assert(p.drop_last() =~= s@.take(i as int));
                assert(p.last() == s@[i as int]);
                assert(forall|m: int| 0 <= m <= i ==> #[trigger] p[m] == s@[m]);
                assert(all_digits(p));
                assert(spec_digits_val(p) == val * 10 + d);
                assert(val * 10 + d > u64::MAX) by (nonlinear_arith)
                    requires
                        val > (u64::MAX - (d as u64)) / 10,
                        0 <= d <= 9,
                ;
                if all_digits(s@) {
                    lemma_digits_val_mono(s@, i as int + 1);
                }
            }
            return None;
        }
        proof {
            let p = s@.take(i as int + 1);
            assert(p.drop_last() =~= s@.take(i as int));
            assert(p.last() == s@[i as int]);
            assert(forall|m: int| 0 <= m <= i ==> #[trigger] p[m] == s@[m]);
            assert(val * 10 + d <= u64::MAX) by (nonlinear_arith)
                requires
                    val <= (u64::MAX - (d as u64)) / 10,
                    0 <= d <= 9,
            ;
        }
        val = val * 10 + (d as u64);
        i = i + 1;
    }
    proof {
        assert(s@.take(len as int) =~= s@);
    }
    Some(val)
}

/// The decimal digit string of `n`, most significant digit first.
pub open spec fn spec_dec(n: nat) -> Seq<u8>
    decreases n,
{
    if n < 10 {
        seq![(48 + n) as u8]
    } else {
        spec_dec((n / 10) as nat) + seq![(48 + n % 10) as u8]
    }
}

/// Renders an unsigned decimal, as substitution values are written.
pub fn dec_bytes(n: u64) -> (r: Vec<u8>)
    ensures
        r@ == spec_dec(n as nat),
{
    let mut rev: Vec<u8> = Vec::new();
    let mut m: u64 = n;
    while m >= 10
        invariant
            spec_dec(n as nat) =~= spec_dec(m as nat) + Seq::new(
                rev@.len(),
                |i: int| rev@[rev@.len() - 1 - i],
            ),
        decreases m,
    {
        let d: u8 = (m % 10) as u8;
        proof {
            assert(spec_dec(m as nat) == spec_dec((m / 10) as nat) + seq![(48 + m % 10) as u8]);
            assert(spec_dec(m as nat) + Seq::new(rev@.len(), |i: int| rev@[rev@.len() - 1 - i])
                =~= spec_dec((m / 10) as nat) + Seq::new(
                rev@.len() + 1,
                |i: int| rev@.push((48 + d) as u8)[rev@.len() - i],
            ));
        }
        rev.push(48 + d);
        m = m / 10;
    }
    rev.push(48 + (m as u8));
    proof {
        assert(spec_dec(n as nat) =~= spec_dec(m as nat) + Seq::new(
            (rev@.len() - 1) as nat,
            |i: int| rev@[rev@.len() - 2 - i],
        ));
        assert(spec_dec(m as nat) == seq![(48 + m) as u8]);
    }
    let k = rev.len();
    let mut out: Vec<u8> = Vec::new();
    let mut j: usize = 0;
    while j < k
        invariant
            0 <= j <= k,
            k == rev@.len(),
            spec_dec(n as nat) =~= seq![rev@[k - 1]] + Seq::new(
                (k - 1) as nat,
                |i: int| rev@[k - 2 - i],
            ),
            out@ =~= Seq::new(j as nat, |i: int| rev@[k - 1 - i]),
        decreases k - j,
    {
        out.push(rev[k - 1 - j]);
        j = j + 1;
    }
    proof {
        assert(out@ =~= spec_dec(n as nat));
    }
    out
}

/// The millimetre rendering of a micron count: whole millimetres, then a
/// dot and the micron fraction with trailing zeros (and a zero fraction)
/// omitted.  This is the dot-decimal text the `{z}` substitution carries.
pub open spec fn spec_mm_bytes(microns: nat) -> Seq<u8> {
    let ip = (microns / 1000) as nat;
    let f = microns % 1000;
    if f == 0 {
        spec_dec(ip)
    } else if f % 100 == 0 {
        spec_dec(ip) + seq![46u8, (48 + f / 100) as u8]
    } else if f % 10 == 0 {
        spec_dec(ip) + seq![46u8, (48 + f / 100) as u8, (48 + (f / 10) % 10) as u8]
    } else {
        spec_dec(ip) + seq![
            46u8,
            (48 + f / 100) as u8,
            (48 + (f / 10) % 10) as u8,
            (48 + f % 10) as u8,
        ]
    }
}

/// Renders microns as dot-decimal millimetres.
pub fn mm_bytes(microns: u64) -> (r: Vec<u8>)
    ensures
        r@ == spec_mm_bytes(microns as nat),
{
    let mut out = dec_bytes(microns / 1000);
    let f: u64 = microns % 1000;
    if f == 0 {
        proof {
            assert(out@ =~= spec_mm_bytes(microns as nat));
        }
        return out;
    }
    out.push(46);
    out.push(48 + (f / 100) as u8);
    if f % 100 == 0 {
        proof {
            assert(out@ =~= spec_mm_bytes(microns as nat));
        }
        return out;
    }
    out.push(48 + ((f / 10) % 10) as u8);
    if f % 10 == 0 {
        proof {
            assert(out@ =~= spec_mm_bytes(microns as nat));
        }
        return out;
    }
    out.push(48 + (f % 10) as u8);
    proof {
        assert(out@ =~= spec_mm_bytes(microns as nat));
    }
    out
}

/// The digit-value of `fp[i]`, taking absent fractional digits as zero.
pub open spec fn frac_digit(fp: Seq<u8>, i: int) -> int {
    if 0 <= i < fp.len() {
        fp[i] - 48
    } else {
        0
    }
}

/// The first three fractional digits as thousandths.
pub open spec fn spec_frac_milli(fp: Seq<u8>) -> int {
    frac_digit(fp, 0) * 100 + frac_digit(fp, 1) * 10 + frac_digit(fp, 2)
}

/// What parsing a non-negative decimal number into thousandths yields:
/// an integer part, optionally a dot and a digit fraction of which the
/// first three digits count.  Defined exactly when the text has that
/// shape and the value fits.
pub open spec fn spec_parse_milli(s: Seq<u8>) -> Option<u64> {
    let dot = spec_find(s, 46);
    if dot >= s.len() {
        if s.len() > 0 && all_digits(s) && spec_digits_val(s) * 1000 <= u64::MAX {
            Some((spec_digits_val(s) * 1000) as u64)
        } else {
            None
        }
    } else {
        let ip = s.take(dot);
        let fp = s.skip(dot + 1);
        if ip.len() > 0 && all_digits(ip) && all_digits(fp) && spec_digits_val(ip) * 1000
            + spec_frac_milli(fp) <= u64::MAX {
            Some((spec_digits_val(ip) * 1000 + spec_frac_milli(fp)) as u64)
        } else {
            None
        }
    }
}

/// Parses a decimal number (integer or dot-fraction) into thousandths,
/// truncating fractional digits beyond the third.
pub fn parse_milli(s: &[u8]) -> (r: Option<u64>)
    ensures
        r == spec_parse_milli(s@),
{
    proof {
        lemma_find_bounds(s@, 46);
    }
    let dot = find_byte(s, 0, 46);
    let len = s.len();
    proof {
        assert(s@.skip(0) =~= s@);
        assert(dot == spec_find(s@, 46));
    }
    if dot >= len {
        let ghost whole = s@;
        match parse_u64(s) {
            Option::None => {
                proof {
                    if all_digits(whole) && whole.len() > 0 {
                        lemma_digits_val_nonneg(whole);
                        assert(spec_digits_val(whole) > u64::MAX);
                        assert(spec_digits_val(whole) * 1000 > u64::MAX) by (nonlinear_arith)
                            requires
                                spec_digits_val(whole) > u64::MAX,
                        ;
                    }
                }
                return None;
            },
            Option::Some(v) => {
                proof {
                    lemma_digits_val_nonneg(whole);
                }
                if v > u64::MAX / 1000 {
                    proof {
                        assert(v * 1000 > u64::MAX) by (nonlinear_arith)
                            requires
                                v > u64::MAX / 1000,
                        ;
                    }
                    return None;
                }
                proof {
                    assert(v * 1000 <= u64::MAX) by (nonlinear_arith)
                        requires
                            v <= u64::MAX / 1000,
                    ;
                }
                return Some(v * 1000);
            },
        }
    }
    let mut ip: Vec<u8> = Vec::new();
    let mut i: usize = 0;
    while i < dot
        invariant
            0 <= i <= dot,
            dot < len,
            len == s@.len(),
            ip@ =~= s@.subrange(0, i as int),
        decreases dot - i,
    {
        ip.push(s[i]);
        i = i + 1;
    }
    let mut fp: Vec<u8> = Vec::new();
    let mut j: usize = dot + 1;
    while j < len
        invariant
            dot + 1 <= j <= len,
            len == s@.len(),
            fp@ =~= s@.subrange(dot + 1, j as int),
        decreases len - j,
    {
        fp.push(s[j]);
        j = j + 1;
    }
    proof {
        assert(ip@ =~= s@.take(dot as int));
        assert(fp@ =~= s@.skip(dot + 1));
    }
    let iv = match parse_u64(ip.as_slice()) {
        Option::None => {
            proof {
                let ips = s@.take(dot as int);
                if ips.len() > 0 && all_digits(ips) {
                    lemma_digits_val_nonneg(ips);
                    assert(spec_digits_val(ips) > u64::MAX);
                    assert(spec_digits_val(ips) * 1000 > u64::MAX) by (nonlinear_arith)
                        requires
                            spec_digits_val(ips) > u64::MAX,
                    ;
                }
            }
            return None;
        },
        Option::Some(v) => {
            proof {
                lemma_digits_val_nonneg(s@.take(dot as int));
            }
            v
        },
    };
    let mut m: usize = 0;
    let fl = fp.len();
    while m < fl
        invariant
            0 <= m <= fl,
            fl == fp@.len(),
            dot == spec_find(s@, 46),
            dot < s@.len(),
            fp@ == s@.skip(dot + 1),
            forall|x: int| 0 <= x < m ==> is_digit(#[trigger] fp@[x]),
        decreases fl - m,
    {
        let b = fp[m];
        if b < 48 || b > 57 {
            proof {
                assert(!is_digit(fp@[m as int]));
            }
            return None;
        }
        m = m + 1;
    }
    let d0: u64 = if fl > 0 { (fp[0] - 48) as u64 } else { 0 };
    let d1: u64 = if fl > 1 { (fp[1] - 48) as u64 } else { 0 };
    let d2: u64 = if fl > 2 { (fp[2] - 48) as u64 } else { 0 };
    let frac: u64 = d0 * 100 + d1 * 10 + d2;
    proof {
        assert(frac == spec_frac_milli(fp@));
    }
    if iv > (u64::MAX - frac) / 1000 {
        proof {
            assert(iv * 1000 + frac > u64::MAX) by (nonlinear_arith)
                requires
                    iv > (u64::MAX - frac) / 1000,
                    0 <= frac <= 999,
            ;
        }
        return None;
    }
    proof {
        assert(iv * 1000 + frac <= u64::MAX) by (nonlinear_arith)
            requires
                iv <= (u64::MAX - frac) / 1000,
                0 <= frac <= 999,
        ;
    }
    Some(iv * 1000 + frac)
}

/// Byte-for-byte equality of two slices.
pub fn bytes_eq(a: &[u8], b: &[u8]) -> (r: bool)
    ensures
        r == (a@ == b@),
{
    let n = a.len();
    if n != b.len() {
        proof {
            assert(a@ != b@);
        }
        return false;
    }
    let mut i: usize = 0;
    while i < n
        invariant
            0 <= i <= n,
            n == a@.len(),
            n == b@.len(),
            forall|m: int| 0 <= m < i ==> a@[m] == #[trigger] b@[m],
        decreases n - i,
    {
        if a[i] != b[i] {
            return false;
        }
        i = i + 1;
    }
    proof {
        assert(a@ =~= b@);
    }
    true
}

/// Byte-wise lexicographic order: the order mask file names are printed
/// in.
pub open spec fn lex_le(a: Seq<u8>, b: Seq<u8>) -> bool
    decreases a.len(),
{
    if a.len() == 0 {
        true
    } else if b.len() == 0 {
        false
    } else if a[0] < b[0] {
        true
    } else if a[0] > b[0] {
        false
    } else {
        lex_le(a.skip(1), b.skip(1))
    }
}

pub proof fn lemma_lex_total(a: Seq<u8>, b: Seq<u8>)
    ensures
        lex_le(a, b) || lex_le(b, a),
    decreases a.len(),
{
    if a.len() > 0 && b.len() > 0 && a[0] == b[0] {
        lemma_lex_total(a.skip(1), b.skip(1));
    }
}

pub proof fn lemma_lex_trans(a: Seq<u8>, b: Seq<u8>, c: Seq<u8>)
    requires
        lex_le(a, b),
        lex_le(b, c),
    ensures
        lex_le(a, c),
    decreases a.len(),
{
    if a.len() > 0 && b.len() > 0 && c.len() > 0 && a[0] == b[0] && b[0] == c[0] {
        lemma_lex_trans(a.skip(1), b.skip(1), c.skip(1));
    }
}

proof fn lemma_lex_skip(a: Seq<u8>, b: Seq<u8>, i: int)
    requires
        0 <= i <= a.len(),
        i <= b.len(),
        forall|j: int| 0 <= j < i ==> a[j] == b[j],
    ensures
        lex_le(a, b) == lex_le(a.skip(i), b.skip(i)),
    decreases i,
{
    if i == 0 {
        assert(a.skip(0) =~= a);
        assert(b.skip(0) =~= b);
    } else {
        assert(a[0] == b[0]);
        assert(forall|j: int| 0 <= j < i - 1 ==> a.skip(1)[j] == a[j + 1]);
        assert(forall|j: int| 0 <= j < i - 1 ==> b.skip(1)[j] == b[j + 1]);
        lemma_lex_skip(a.skip(1), b.skip(1), i - 1);
        assert(a.skip(1).skip(i - 1) =~= a.skip(i));
        assert(b.skip(1).skip(i - 1) =~= b.skip(i));
    }
}

/// Compares two byte strings in lexicographic order.
pub fn lex_le_bytes(a: &[u8], b: &[u8]) -> (r: bool)
    ensures
        r == lex_le(a@, b@),
{
    let an = a.len();
    let bn = b.len();
    let mut i: usize = 0;
    while i < an && i < bn
        invariant
            0 <= i <= an,
            i <= bn,
            an == a@.len(),
            bn == b@.len(),
            forall|j: int| 0 <= j < i ==> a@[j] == b@[j],
        decreases an - i,
    {
        let x = a[i];
        let y = b[i];
        if x < y {
            proof {
                lemma_lex_skip(a@, b@, i as int);
            }
            return true;
        }
        if x > y {
            proof {
                lemma_lex_skip(a@, b@, i as int);
            }
            return false;
        }
        i = i + 1;
    }
    proof {
        lemma_lex_skip(a@, b@, i as int);
        if i == an {
            assert(a@.skip(i as int).len() == 0);
        } else {
            assert(b@.skip(i as int).len() == 0);
            assert(a@.skip(i as int).len() > 0);
        }
    }
    an <= bn
}

/// Whether some entry of `s` holds the byte string `x`.
pub open spec fn has_name(s: Seq<Vec<u8>>, x: Seq<u8>) -> bool {
    exists|i: int| 0 <= i < s.len() && (#[trigger] s[i])@ == x
}

/// All of `names`, in lexicographic order.  The input's entries are
/// pairwise distinct (archive entry names are), and stay so.
pub fn sort_names(names: Vec<Vec<u8>>) -> (r: Vec<Vec<u8>>)
    requires
        forall|i: int, j: int|
            0 <= i < j < names@.len() ==> (#[trigger] names@[i])@ != (#[trigger] names@[j])@,
    ensures
        r@.len() == names@.len(),
        forall|i: int, j: int| 0 <= i < j < r@.len() ==> lex_le((#[trigger] r@[i])@, (#[trigger] r@[j])@),
        forall|i: int, j: int|
            0 <= i < j < r@.len() ==> (#[trigger] r@[i])@ != (#[trigger] r@[j])@,
        forall|x: Seq<u8>| #[trigger] has_name(r@, x) <==> has_name(names@, x),
{
    let n = names.len();
    let mut r: Vec<Vec<u8>> = Vec::new();
    let mut rest = names;
    let ghost all = rest@;
    let mut taken: usize = 0;
    // Insertion sort: move the front element of the remainder into its
    // place in the sorted prefix.
    while taken < n
        invariant
            0 <= taken <= n,
            n == all.len(),
            rest@.len() == n - taken,
            forall|i: int| 0 <= i < rest@.len() ==> (#[trigger] rest@[i])@ == all[i + taken]@,
            r@.len() == taken,
            forall|i: int, j: int|
                0 <= i < j < all.len() ==> (#[trigger] all[i])@ != (#[trigger] all[j])@,
            forall|i: int, j: int|
                0 <= i < j < r@.len() ==> lex_le((#[trigger] r@[i])@, (#[trigger] r@[j])@),
            forall|x: Seq<u8>| #[trigger] has_name(r@, x) <==> has_name(all.take(taken as int), x),
            forall|i: int, j: int|
                0 <= i < j < r@.len() ==> (#[trigger] r@[i])@ != (#[trigger] r@[j])@,
        decreases n - taken,
    {
        let x = rest.remove(0);
        proof {
            assert(x@ == all[taken as int]@);
            assert(forall|i: int|
                0 <= i < rest@.len() ==> (#[trigger] rest@[i])@ == all[i + taken + 1]@);
            assert forall|i: int| 0 <= i < r@.len() implies (#[trigger] r@[i])@ != x@ by {
                assert(has_name(r@, r@[i]@));
                let w = choose|m: int|
                    0 <= m < taken && (#[trigger] all.take(taken as int)[m])@ == r@[i]@;
                if r@[i]@ == x@ {
                    assert(all[w]@ == all[taken as int]@);
                }
            }
        }
        let rl = r.len();
        let mut pos: usize = 0;
        while pos < rl && lex_le_bytes(r[pos].as_slice(), x.as_slice())
            invariant
                0 <= pos <= rl,
                rl == r@.len(),
                x@ == all[taken as int]@,
                forall|j: int| 0 <= j < pos ==> lex_le((#[trigger] r@[j])@, x@),
            decreases rl - pos,
        {
            pos = pos + 1;
        }
        proof {
            if pos < rl {
                lemma_lex_total(r@[pos as int]@, x@);
                assert(lex_le(x@, r@[pos as int]@));
            }
        }
        let ghost r_before = r@;
        r.insert(pos, x);
        proof {
            assert(forall|j: int| 0 <= j < pos ==> #[trigger] r@[j] == r_before[j]);
            assert(r@[pos as int] == x);
            assert(forall|j: int|
                pos < j < r@.len() ==> #[trigger] r@[j] == r_before[j - 1]);
            assert forall|i: int, j: int|
                0 <= i < j < r@.len() implies lex_le((#[trigger] r@[i])@, (#[trigger] r@[j])@) by {
                if i < pos && j < pos {
                } else if i < pos && j == pos {
                    assert(lex_le(r@[i]@, x@));
                } else if i < pos && j > pos {
                    assert(r@[j] == r_before[j - 1]);
                } else if i == pos && j > pos {
                    assert(pos < rl);
                    assert(lex_le(x@, r_before[pos as int]@));
                    if j - 1 == pos {
                        assert(r@[j]@ == r_before[pos as int]@);
                    } else {
                        assert(lex_le(r_before[pos as int]@, r_before[j - 1]@));
                        lemma_lex_trans(x@, r_before[pos as int]@, r_before[j - 1]@);
                        assert(r@[j] == r_before[j - 1]);
                    }
                } else {
                    assert(r@[i] == r_before[i - 1]);
                    assert(r@[j] == r_before[j - 1]);
                }
            }
            assert forall|i: int, j: int|
                0 <= i < j < r@.len() implies (#[trigger] r@[i])@ != (#[trigger] r@[j])@ by {
                if i != pos && j != pos {
                    let oi = if i < pos { i } else { i - 1 };
                    let oj = if j < pos { j } else { j - 1 };
                    assert(r@[i] == r_before[oi]);
                    assert(r@[j] == r_before[oj]);
                } else if i == pos {
                    assert(r@[j] == r_before[j - 1]);
                } else {
                    assert(r@[i] == r_before[i]);
                }
            }
            assert forall|x2: Seq<u8>| #[trigger] has_name(r@, x2) <==> has_name(
                all.take(taken + 1),
                x2,
            ) by {
                if has_name(r@, x2) {
                    let c = choose|i: int| 0 <= i < r@.len() && (#[trigger] r@[i])@ == x2;
                    if c == pos {
                        assert(all.take(taken + 1)[taken as int]@ == x2);
                    } else {
                        let oc = if c < pos { c } else { c - 1 };
                        assert(r_before[oc]@ == x2);
                        assert(has_name(r_before, x2));
                        assert(has_name(all.take(taken as int), x2));
                        let w = choose|i: int|
                            0 <= i < taken && (#[trigger] all.take(taken as int)[i])@ == x2;
                        assert(all.take(taken + 1)[w]@ == x2);
                    }
                    assert(has_name(all.take(taken + 1), x2));
                }
                if has_name(all.take(taken + 1), x2) {
                    let c = choose|i: int|
                        0 <= i < taken + 1 && (#[trigger] all.take(taken + 1)[i])@ == x2;
                    if c == taken {
                        assert(r@[pos as int]@ == x2);
                    } else {
                        assert(all.take(taken as int)[c]@ == x2);
                        assert(has_name(all.take(taken as int), x2));
                        assert(has_name(r_before, x2));
                        let w = choose|i: int|
                            0 <= i < r_before.len() && (#[trigger] r_before[i])@ == x2;
                        if w < pos {
                            assert(r@[w]@ == x2);
                        } else {
                            assert(r@[w + 1]@ == x2);
                        }
                    }
                    assert(has_name(r@, x2));
                }
            }
        }
        taken = taken + 1;
    }
    proof {
        assert(all.take(n as int) =~= names@);
    }
    r
}

/// A verified copy of a byte vector.
pub fn clone_bytes(v: &Vec<u8>) -> (r: Vec<u8>)
    ensures
        r@ == v@,
{
    let n = v.len();
    let mut r: Vec<u8> = Vec::new();
    let mut i: usize = 0;
    while i < n
        invariant
            0 <= i <= n,
            n == v@.len(),
            r@ =~= v@.take(i as int),
        decreases n - i,
    {
        r.push(v[i]);
        i = i + 1;
    }
    proof {
        assert(v@.take(n as int) =~= v@);
    }
    r
}

/// A verified copy of `s[from..to]`.
pub fn copy_range(s: &[u8], from: usize, to: usize) -> (r: Vec<u8>)
    requires
        from <= to <= s@.len(),
    ensures
        r@ == s@.subrange(from as int, to as int),
{
    let mut r: Vec<u8> = Vec::new();
    let mut i: usize = from;
    while i < to
        invariant
            from <= i <= to,
            to <= s@.len(),
            r@ =~= s@.subrange(from as int, i as int),
        decreases to - i,
    {
        r.push(s[i]);
        i = i + 1;
    }
    r
}

} // verus!
