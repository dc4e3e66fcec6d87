//! Verified text utilities: character access, separator splitting, and exact
//! decimal parsing.
//!
//! The dependency encoding of a catalog row is a string such as
//! `"iron_plate:2;copper_wire:1.5"`. This module supplies the pieces its
//! parser needs: splitting on a separator and turning a decimal numeral into
//! an exact [`Ratio`].

use crate::error::Error;
use crate::rat::{canon, frac_fits, lemma_canon_too_big, Frac, Ratio};
use vstd::prelude::*;

verus! {

/// The characters of `s`, one element per `char`.
pub fn str_chars(s: &str) -> (r: Vec<char>)
    ensures
        r@ == s@,
{
    let n = s.unicode_len();
    let mut r: Vec<char> = Vec::new();
    for i in 0..n
        invariant
            n == s@.len(),
            r@ == s@.take(i as int),
    {
        r.push(s.get_char(i));
        proof {
            assert(r@ =~= s@.take(i + 1));
        }
    }
    proof {
        assert(s@.take(n as int) =~= s@);
    }
    r
}

/// The characters `s[from..to]`.
pub fn subvec(s: &Vec<char>, from: usize, to: usize) -> (r: Vec<char>)
    requires
        from <= to <= s@.len(),
    ensures
        r@ == s@.subrange(from as int, to as int),
{
    let mut r: Vec<char> = Vec::new();
    for i in from..to
        invariant
            from <= i <= to <= s@.len(),
            r@ == s@.subrange(from as int, i as int),
    {
        r.push(s[i]);
        proof {
            assert(r@ =~= s@.subrange(from as int, i + 1));
        }
    }
    r
}

/// Whether two string slices hold the same characters.
pub fn str_eq(a: &str, b: &str) -> (r: bool)
    ensures
        r == (a@ == b@),
{
    let sa: String = a.to_owned();
    let sb: String = b.to_owned();
    sa == sb
}

/// The segments of `s` between occurrences of the separator `c`; one segment
/// more than there are separators, in order, separators dropped.
pub open spec fn split_seq(s: Seq<char>, c: char) -> Seq<Seq<char>>
    decreases s.len(),
{
    if s.len() == 0 {
        seq![Seq::empty()]
    } else if s[0] == c {
        seq![Seq::<char>::empty()] + split_seq(s.skip(1), c)
    } else {
        let rest = split_seq(s.skip(1), c);
        seq![seq![s[0]] + rest[0]] + rest.skip(1)
    }
}

/// Splitting yields at least one segment.
pub proof fn lemma_split_len(s: Seq<char>, c: char)
    ensures
        split_seq(s, c).len() >= 1,
    decreases s.len(),
{
    if s.len() > 0 && s[0] != c {
        lemma_split_len(s.skip(1), c);
    }
}

/// Half-open index ranges of the segments of `s` between separators, in
/// order: one range per segment of [`split_seq`].
pub fn split_ranges(s: &Vec<char>, c: char) -> (r: Vec<(usize, usize)>)
    ensures
        r@.len() == split_seq(s@, c).len(),
        forall|k: int|
            0 <= k < r@.len() ==> (#[trigger] r@[k]).0 <= r@[k].1 <= s@.len() && s@.subrange(
                r@[k].0 as int,
                r@[k].1 as int,
            ) == split_seq(s@, c)[k],
{
    let ghost m = |p: (usize, usize)| s@.subrange(p.0 as int, p.1 as int);
    let n = s.len();
    let mut r: Vec<(usize, usize)> = Vec::new();
    let mut start: usize = 0;
    proof {
        lemma_split_len(s@, c);
        assert(s@.skip(0) =~= s@);
        assert(s@.subrange(0, 0) + split_seq(s@, c)[0] =~= split_seq(s@, c)[0]);
        assert(prepend(s@.subrange(0, 0), split_seq(s@, c)) =~= split_seq(s@, c));
        assert(r@.map_values(m) + prepend(s@.subrange(0, 0), split_seq(s@.skip(0), c))
            =~= split_seq(s@, c));
    }
    for i in 0..n
        invariant
            start <= i <= n == s@.len(),
            split_seq(s@, c) == r@.map_values(m) + prepend(
                s@.subrange(start as int, i as int),
                split_seq(s@.skip(i as int), c),
            ),
            m == (|p: (usize, usize)| s@.subrange(p.0 as int, p.1 as int)),
            forall|k: int| 0 <= k < r@.len() ==> (#[trigger] r@[k]).0 <= r@[k].1 <= s@.len(),
    {
        proof {
            lemma_split_len(s@.skip(i + 1), c);
            assert(s@.skip(i as int).skip(1) =~= s@.skip(i + 1));
        }
        let ghost rest = split_seq(s@.skip(i + 1), c);
        let ghost cur = s@.subrange(start as int, i as int);
        if s[i] == c {
            // The segment ends here: `split_seq(s[i..], c)` opens with an
            // empty segment, which closes the current range.
            proof {
                assert(split_seq(s@.skip(i as int), c) =~= seq![Seq::<char>::empty()] + rest);
                assert(cur + Seq::<char>::empty() =~= cur);
                assert(prepend(cur, seq![Seq::<char>::empty()] + rest) =~= seq![cur] + rest);
            }
            let ghost old_r = r@;
            let ghost old_start = start;
            r.push((start, i));
            start = i + 1;
            proof {
                assert(r@ == old_r.push((old_start, i)));
                assert(r@.map_values(m) =~= old_r.map_values(m).push(cur));
                assert(s@.subrange(i + 1, i + 1) + rest[0] =~= rest[0]);
                assert(prepend(s@.subrange(i + 1, i + 1), rest) =~= rest);
                assert(old_r.map_values(m).push(cur) + rest =~= old_r.map_values(m) + (seq![cur]
                    + rest));
                assert(split_seq(s@, c) == r@.map_values(m) + prepend(
                    s@.subrange(start as int, i + 1),
                    split_seq(s@.skip(i + 1), c),
                ));
            }
        } else {
            // The segment grows by one character.
            proof {
                assert(split_seq(s@.skip(i as int), c) =~= seq![seq![s@[i as int]] + rest[0]]
                    + rest.skip(1));
                assert(cur + (seq![s@[i as int]] + rest[0]) =~= s@.subrange(start as int, i + 1)
                    + rest[0]);
                assert(prepend(cur, split_seq(s@.skip(i as int), c)) =~= prepend(
                    s@.subrange(start as int, i + 1),
                    rest,
                ));
                assert(split_seq(s@, c) == r@.map_values(m) + prepend(
                    s@.subrange(start as int, i + 1),
                    split_seq(s@.skip(i + 1), c),
                ));
            }
        }
    }
    let ghost old_r = r@;
    let ghost cur = s@.subrange(start as int, n as int);
    r.push((start, n));
    proof {
        assert(split_seq(s@.skip(n as int), c) =~= seq![Seq::<char>::empty()]);
        assert(cur + Seq::<char>::empty() =~= cur);
        assert(prepend(cur, seq![Seq::<char>::empty()]) =~= seq![cur]);
        assert(r@.map_values(m) =~= old_r.map_values(m).push(cur));
        assert(old_r.map_values(m).push(cur) =~= old_r.map_values(m) + seq![cur]);
        assert(split_seq(s@, c) =~= r@.map_values(m));
        assert(forall|k: int|
            0 <= k < r@.len() ==> s@.subrange((#[trigger] r@[k]).0 as int, r@[k].1 as int)
                == r@.map_values(m)[k]);
    }
    r
}

/// `p` glued onto the front of the first segment.
pub open spec fn prepend(p: Seq<char>, segs: Seq<Seq<char>>) -> Seq<Seq<char>>
    recommends
        segs.len() >= 1,
{
    seq![p + segs[0]] + segs.skip(1)
}

/// An ASCII decimal digit.
pub open spec fn is_digit(c: char) -> bool {
    48 <= c as u32 <= 57
}

pub open spec fn all_digits(s: Seq<char>) -> bool {
    forall|i: int| 0 <= i < s.len() ==> is_digit(#[trigger] s[i])
}

/// The number a digit string denotes (non-digits count as zero).
pub open spec fn digits_val(s: Seq<char>) -> nat
    decreases s.len(),
{
    if s.len() == 0 {
        0
    } else {
        digits_val(s.drop_last()) * 10 + (if is_digit(s.last()) {
            (s.last() as u32 - 48) as nat
        } else {
            0
        })
    }
}

pub open spec fn pow10(n: nat) -> nat
    decreases n,
{
    if n == 0 {
        1
    } else {
        10 * pow10((n - 1) as nat)
    }
}

pub proof fn lemma_pow10_pos(n: nat)
    ensures
        pow10(n) >= 1,
    decreases n,
{
    if n > 0 {
        lemma_pow10_pos((n - 1) as nat);
    }
}

pub proof fn lemma_pow10_mono(m: nat, n: nat)
    requires
        m <= n,
    ensures
        pow10(m) <= pow10(n),
    decreases n,
{
    if m < n {
        lemma_pow10_mono(m, (n - 1) as nat);
        lemma_pow10_pos((n - 1) as nat);
    }
}

/// The largest power of ten a fractional part may use.
pub proof fn lemma_pow10_19()
    ensures
        pow10(19) == 10_000_000_000_000_000_000,
{
    assert(pow10(0) == 1);
    assert(pow10(1) == 10);
    assert(pow10(2) == 100);
    assert(pow10(3) == 1000);
    assert(pow10(4) == 10000);
    assert(pow10(5) == 100000);
    assert(pow10(6) == 1000000);
    assert(pow10(7) == 10000000);
    assert(pow10(8) == 100000000);
    assert(pow10(9) == 1000000000);
    assert(pow10(10) == 10_000_000_000);
    assert(pow10(11) == 100_000_000_000);
    assert(pow10(12) == 1_000_000_000_000);
    assert(pow10(13) == 10_000_000_000_000);
    assert(pow10(14) == 100_000_000_000_000);
    assert(pow10(15) == 1_000_000_000_000_000);
    assert(pow10(16) == 10_000_000_000_000_000);
    assert(pow10(17) == 100_000_000_000_000_000);
    assert(pow10(18) == 1_000_000_000_000_000_000);
    assert(pow10(19) == 10_000_000_000_000_000_000);
}

/// A digit string of length `n` denotes less than `10^n`.
pub proof fn lemma_digits_val_bound(s: Seq<char>)
    ensures
        digits_val(s) < pow10(s.len()),
    decreases s.len(),
{
    if s.len() > 0 {
        lemma_digits_val_bound(s.drop_last());
    }
}

/// Index of the first occurrence of `c` in `s`, or `s.len()` if absent.
pub open spec fn find_first(s: Seq<char>, c: char) -> int
    decreases s.len(),
{
    if s.len() == 0 {
        0
    } else if s[0] == c {
        0
    } else {
        1 + find_first(s.skip(1), c)
    }
}

pub proof fn lemma_find_first(s: Seq<char>, c: char)
    ensures
        0 <= find_first(s, c) <= s.len(),
        forall|i: int| 0 <= i < find_first(s, c) ==> s[i] != c,
        find_first(s, c) < s.len() ==> s[find_first(s, c)] == c,
    decreases s.len(),
{
    if s.len() > 0 && s[0] != c {
        lemma_find_first(s.skip(1), c);
        assert forall|i: int| 0 <= i < find_first(s, c) implies s[i] != c by {
            if i > 0 {
                assert(s[i] == s.skip(1)[i - 1]);
            }
        }
        if find_first(s, c) < s.len() {
            assert(s[find_first(s, c)] == s.skip(1)[find_first(s.skip(1), c)]);
        }
    }
}

/// The characterization above pins `find_first` down.
pub proof fn lemma_find_first_unique(s: Seq<char>, c: char, k: int)
    requires
        0 <= k <= s.len(),
        forall|i: int| 0 <= i < k ==> s[i] != c,
        k < s.len() ==> s[k] == c,
    ensures
        find_first(s, c) == k,
    decreases s.len(),
{
    if s.len() > 0 && s[0] != c {
        assert forall|i: int| 0 <= i < k - 1 implies s.skip(1)[i] != c by {
            assert(s.skip(1)[i] == s[i + 1]);
        }
        if k - 1 < s.skip(1).len() {
            assert(s.skip(1)[k - 1] == s[k]);
        }
        lemma_find_first_unique(s.skip(1), c, k - 1);
    }
}

/// The digits before the decimal point.
pub open spec fn int_part(s: Seq<char>) -> Seq<char> {
    s.take(find_first(s, '.'))
}

/// The digits after the decimal point; empty when there is no point.
pub open spec fn frac_part(s: Seq<char>) -> Seq<char> {
    if find_first(s, '.') == s.len() {
        Seq::empty()
    } else {
        s.skip(find_first(s, '.') + 1)
    }
}

/// The numeral grammar: digits with at most one decimal point between them,
/// at least one digit in all, and at most 19 fractional digits.
pub open spec fn valid_decimal(s: Seq<char>) -> bool {
    &&& all_digits(int_part(s))
    &&& all_digits(frac_part(s))
    &&& int_part(s).len() + frac_part(s).len() >= 1
    &&& frac_part(s).len() <= 19
}

/// The exact rational a valid numeral denotes.
pub open spec fn dec_frac(s: Seq<char>) -> Frac {
    Frac {
        num: (digits_val(int_part(s)) * pow10(frac_part(s).len()) + digits_val(
            frac_part(s),
        )) as int,
        den: pow10(frac_part(s).len()) as int,
    }
}

/// Parse a decimal numeral into an exact ratio.
///
/// Succeeds exactly when the numeral fits the grammar of [`valid_decimal`]
/// and its value, in lowest terms, fits the representation; a grammar
/// violation reports the whole numeral as the offending fragment. The
/// grammar is plain digits with at most one decimal point: signs and
/// exponent forms are rejected as malformed.
pub fn parse_ratio(s: &str) -> (r: Result<Ratio, Error>)
    ensures
        r matches Ok(v) ==> valid_decimal(s@) && frac_fits(canon(dec_frac(s@))) && v.wf() && v@
            == canon(dec_frac(s@)),
        r matches Err(e) ==> match e {
            Error::MalformedInput(f) => f@ == s@ && !valid_decimal(s@),
            Error::ValueOverflow => valid_decimal(s@) && !frac_fits(canon(dec_frac(s@))),
            _ => false,
        },
{
    let cs = str_chars(s);
    let n = cs.len();
    // Locate the first decimal point.
    let mut dot: usize = n;
    let mut i: usize = 0;
    while i < n
        invariant
            0 <= i <= n == cs@.len(),
            cs@ == s@,
            dot == n || (dot < i && s@[dot as int] == '.'),
            forall|k: int| 0 <= k < i && k < dot ==> s@[k] != '.',
        decreases n - i,
    {
        if dot == n && cs[i] == '.' {
            dot = i;
        }
        i = i + 1;
    }
    proof {
        lemma_find_first_unique(s@, '.', dot as int);
    }
    let flen = if dot == n {
        0
    } else {
        n - dot - 1
    };
    proof {
        assert(int_part(s@) =~= s@.take(dot as int));
        if dot == n {
            assert(frac_part(s@) =~= Seq::<char>::empty());
        } else {
            assert(frac_part(s@) =~= s@.skip(dot + 1));
        }
        assert(int_part(s@).len() == dot && frac_part(s@).len() == flen);
    }
    if dot + flen == 0 {
        // "" or "."
        return Err(Error::MalformedInput(s.to_owned()));
    }
    if flen > 19 {
        return Err(Error::MalformedInput(s.to_owned()));
    }
    // Integer part: scan and accumulate, tracking values beyond the
    // representable range.
    let mut acc: u64 = 0;
    let mut too_big = false;
    let mut i: usize = 0;
    while i < dot
        invariant
            0 <= i <= dot <= n == cs@.len(),
            cs@ == s@,
            int_part(s@) == s@.take(dot as int),
            forall|k: int| 0 <= k < i ==> is_digit(#[trigger] s@[k]),
            !too_big ==> acc == digits_val(s@.take(dot as int).take(i as int)) && acc <= u32::MAX
                as u64,
            too_big ==> digits_val(s@.take(dot as int).take(i as int)) > u32::MAX as nat,
        decreases dot - i,
    {
        let c = cs[i];
        let u = c as u32;
        if u < 48 || u > 57 {
            proof {
                assert(!is_digit(s@[i as int]));
                assert(int_part(s@)[i as int] == s@[i as int]);
                assert(!all_digits(int_part(s@)));
            }
            return Err(Error::MalformedInput(s.to_owned()));
        }
        proof {
            assert(is_digit(s@[i as int]));
            assert(s@.take(dot as int).take(i + 1).drop_last() =~= s@.take(dot as int).take(
                i as int,
            ));
            assert(s@.take(dot as int).take(i + 1).last() == s@[i as int]);
        }
        let d = (u - 48) as u64;
        if !too_big {
            let acc2 = acc * 10 + d;
            if acc2 > u32::MAX as u64 {
                too_big = true;
            } else {
                acc = acc2;
            }
        }
        i = i + 1;
    }
    proof {
        assert(s@.take(dot as int).take(dot as int) =~= s@.take(dot as int));
        assert forall|k: int| 0 <= k < int_part(s@).len() implies is_digit(
            #[trigger] int_part(s@)[k],
        ) by {
            assert(int_part(s@)[k] == s@[k]);
        }
        assert(all_digits(int_part(s@)));
    }
    // Fractional part: scan and accumulate value and scale.
    let mut facc: u64 = 0;
    let mut den: u64 = 1;
    let mut j: usize = 0;
    proof {
        lemma_pow10_19();
    }
    while j < flen
        invariant
            0 <= j <= flen <= 19,
            dot <= n,
            dot == n ==> flen == 0,
            dot < n ==> dot + 1 + flen == n,
            n == cs@.len(),
            cs@ == s@,
            frac_part(s@).len() == flen,
            dot < n ==> frac_part(s@) == s@.skip(dot + 1),
            forall|k: int| 0 <= k < j ==> is_digit(#[trigger] frac_part(s@)[k]),
            facc == digits_val(frac_part(s@).take(j as int)),
            den == pow10(j as nat),
            facc < den,
            pow10(19) == 10_000_000_000_000_000_000,
        decreases flen - j,
    {
        let c = cs[dot + 1 + j];
        let u = c as u32;
        if u < 48 || u > 57 {
            proof {
                assert(frac_part(s@)[j as int] == s@[dot + 1 + j]);
                assert(!is_digit(frac_part(s@)[j as int]));
                assert(!all_digits(frac_part(s@)));
            }
            return Err(Error::MalformedInput(s.to_owned()));
        }
        proof {
            assert(frac_part(s@).take(j + 1).drop_last() =~= frac_part(s@).take(j as int));
            assert(frac_part(s@).take(j + 1).last() == frac_part(s@)[j as int]);
            assert(frac_part(s@)[j as int] == s@[dot + 1 + j]);
            assert(is_digit(frac_part(s@)[j as int]));
            lemma_pow10_mono((j + 1) as nat, 19);
        }
        let d = (u - 48) as u64;
        facc = facc * 10 + d;
        den = den * 10;
        j = j + 1;
    }
    proof {
        assert(frac_part(s@).take(flen as int) =~= frac_part(s@));
        assert(valid_decimal(s@));
        lemma_pow10_pos(flen as nat);
    }
    if too_big {
        proof {
            let f = dec_frac(s@);
            lemma_digits_val_bound(frac_part(s@));
            assert(f.num > u32::MAX as int * f.den) by (nonlinear_arith)
                requires
                    f.num == digits_val(int_part(s@)) * pow10(frac_part(s@).len()) + digits_val(
                        frac_part(s@),
                    ),
                    f.den == pow10(frac_part(s@).len()) as int,
                    digits_val(int_part(s@)) > u32::MAX as nat,
                    f.den >= 1,
            ;
            lemma_canon_too_big(f);
        }
        return Err(Error::ValueOverflow);
    }
    proof {
        lemma_pow10_mono(flen as nat, 19);
        lemma_mul_bounds_u128(acc as int, den as int);
    }
    let num: u128 = (acc as u128) * (den as u128) + (facc as u128);
    match crate::rat::reduce_u128(num, den as u128) {
        Some(v) => Ok(v),
        None => Err(Error::ValueOverflow),
    }
}

/// Bound on the product of an integer part and a scale.
proof fn lemma_mul_bounds_u128(x: int, y: int)
    by (nonlinear_arith)
    requires
        0 <= x <= u32::MAX as int,
        0 <= y <= 10_000_000_000_000_000_000,
    ensures
        0 <= x * y <= u32::MAX as int * 10_000_000_000_000_000_000,
{
}

/// Parse an unsigned whole number.
///
/// Succeeds exactly when the string is all digits, nonempty, and the value
/// fits in a `u32`.
pub fn parse_u32(s: &str) -> (r: Result<u32, Error>)
    ensures
        r matches Ok(v) ==> all_digits(s@) && s@.len() >= 1 && digits_val(s@) == v as nat,
        r matches Err(e) ==> match e {
            Error::MalformedInput(f) => f@ == s@ && !(all_digits(s@) && s@.len() >= 1),
            Error::ValueOverflow => all_digits(s@) && s@.len() >= 1 && digits_val(s@) > u32::MAX
                as nat,
            _ => false,
        },
{
    let cs = str_chars(s);
    let n = cs.len();
    if n == 0 {
        return Err(Error::MalformedInput(s.to_owned()));
    }
    let mut acc: u64 = 0;
    let mut too_big = false;
    let mut i: usize = 0;
    while i < n
        invariant
            0 <= i <= n == cs@.len(),
            cs@ == s@,
            forall|k: int| 0 <= k < i ==> is_digit(#[trigger] s@[k]),
            !too_big ==> acc == digits_val(s@.take(i as int)) && acc <= u32::MAX as u64,
            too_big ==> digits_val(s@.take(i as int)) > u32::MAX as nat,
        decreases n - i,
    {
        let c = cs[i];
        let u = c as u32;
        if u < 48 || u > 57 {
            proof {
                assert(!is_digit(s@[i as int]));
            }
            return Err(Error::MalformedInput(s.to_owned()));
        }
        proof {
            assert(is_digit(s@[i as int]));
            assert(s@.take(i + 1).drop_last() =~= s@.take(i as int));
            assert(s@.take(i + 1).last() == s@[i as int]);
        }
        let d = (u - 48) as u64;
        if !too_big {
            let acc2 = acc * 10 + d;
            if acc2 > u32::MAX as u64 {
                too_big = true;
            } else {
                acc = acc2;
            }
        }
        i = i + 1;
    }
    proof {
        assert(s@.take(n as int) =~= s@);
    }
    if too_big {
        Err(Error::ValueOverflow)
    } else {
        Ok(acc as u32)
    }
}

} // verus!
