//! Canonical decimal numerals: the digit strings that the board codec emits
//! and accepts. A canonical numeral is non-empty, all digits, and free of
//! leading zeros.

use vstd::prelude::*;

verus! {

pub open spec fn is_digit(c: char) -> bool {
    '0' <= c && c <= '9'
}

pub open spec fn digit_val(c: char) -> nat {
    (c as int - 48) as nat
}

pub open spec fn digit_char(d: nat) -> char {
    if d == 0 {
        '0'
    } else if d == 1 {
        '1'
    } else if d == 2 {
        '2'
    } else if d == 3 {
        '3'
    } else if d == 4 {
        '4'
    } else if d == 5 {
        '5'
    } else if d == 6 {
        '6'
    } else if d == 7 {
        '7'
    } else if d == 8 {
        '8'
    } else {
        '9'
    }
}

/// The canonical decimal numeral of `n`, most significant digit first.
pub open spec fn dec_digits(n: nat) -> Seq<char>
    decreases n,
{
    if n < 10 {
        seq![digit_char(n)]
    } else {
        dec_digits(n / 10) + seq![digit_char(n % 10)]
    }
}

pub open spec fn all_digits(s: Seq<char>) -> bool {
    forall|k: int| 0 <= k < s.len() ==> is_digit(#[trigger] s[k])
}

pub open spec fn canonical_digits(s: Seq<char>) -> bool {
    &&& s.len() > 0
    &&& all_digits(s)
    &&& (s.len() > 1 ==> s[0] != '0')
}

/// The value of a digit string, read in base ten.
pub open spec fn digits_val(s: Seq<char>) -> nat
    decreases s.len(),
{
    if s.len() == 0 {
        0
    } else {
        digits_val(s.drop_last()) * 10 + digit_val(s.last())
    }
}

pub proof fn lemma_digit_char_val(d: nat)
    requires
        d < 10,
    ensures
        is_digit(digit_char(d)),
        digit_val(digit_char(d)) == d,
        (digit_char(d) == '0') <==> (d == 0),
{
}

pub proof fn lemma_digit_val_char(c: char)
    requires
        is_digit(c),
    ensures
        digit_char(digit_val(c)) == c,
        digit_val(c) < 10,
{
    assert(digit_char(digit_val(c)) as int == c as int);
}

/// The numeral of `n` is canonical, reads back as `n`, and starts with a
/// nonzero digit whenever `n` is nonzero.
pub proof fn lemma_dec_digits(n: nat)
    ensures
        canonical_digits(dec_digits(n)),
        digits_val(dec_digits(n)) == n,
        n >= 1 ==> dec_digits(n)[0] != '0',
        dec_digits(n).len() >= 1,
    decreases n,
{
    if n < 10 {
        lemma_digit_char_val(n);
        let w = seq![digit_char(n)];
        assert(w.drop_last().len() == 0);
        assert(digits_val(w.drop_last()) == 0);
        assert(digits_val(w) == digit_val(digit_char(n)));
    } else {
        lemma_dec_digits(n / 10);
        lemma_digit_char_val(n % 10);
        let p = dec_digits(n / 10);
        let w = p + seq![digit_char(n % 10)];
        assert(w.drop_last() =~= p);
        assert(w.last() == digit_char(n % 10));
        assert(digits_val(w) == digits_val(p) * 10 + digit_val(digit_char(n % 10)));
        assert((n / 10) * 10 + n % 10 == n);
        assert(w[0] == p[0]);
        assert forall|k: int| 0 <= k < w.len() implies is_digit(#[trigger] w[k]) by {
            if k < p.len() {
                assert(w[k] == p[k]);
            }
        }
    }
}

/// A digit string with a nonzero leading digit has a positive value.
pub proof fn lemma_digits_val_positive(s: Seq<char>)
    requires
        s.len() > 0,
        all_digits(s),
        s[0] != '0',
    ensures
        digits_val(s) >= 1,
    decreases s.len(),
{
    if s.len() == 1 {
        assert(digit_val(s[0]) >= 1);
    } else {
        let p = s.drop_last();
        assert(p[0] == s[0]);
        assert(all_digits(p)) by {
            assert(forall|k: int| 0 <= k < p.len() ==> p[k] == #[trigger] s[k]);
        }
        lemma_digits_val_positive(p);
    }
}

/// Reading a canonical numeral and printing the value again gives the same
/// numeral: canonical numerals are in bijection with their values.
pub proof fn lemma_canonical_digits_inverse(s: Seq<char>)
    requires
        canonical_digits(s),
    ensures
        dec_digits(digits_val(s)) == s,
    decreases s.len(),
{
    if s.len() == 1 {
        lemma_digit_val_char(s[0]);
        assert(digits_val(s) == digits_val(s.drop_last()) * 10 + digit_val(s.last()));
        assert(s.drop_last().len() == 0);
        assert(digits_val(s) == digit_val(s[0]));
        assert(dec_digits(digits_val(s)) =~= s);
    } else {
        let p = s.drop_last();
        let d = digit_val(s.last());
        assert(p[0] == s[0]);
        assert(all_digits(p)) by {
            assert(forall|k: int| 0 <= k < p.len() ==> p[k] == #[trigger] s[k]);
        }
        assert(canonical_digits(p));
        lemma_canonical_digits_inverse(p);
        lemma_digits_val_positive(p);
        lemma_digit_val_char(s.last());
        let pv = digits_val(p);
        let v = digits_val(s);
        assert(v == pv * 10 + d);
        assert(v >= 10) by (nonlinear_arith)
            requires
                v == pv * 10 + d,
                pv >= 1,
                d >= 0,
        ;
        assert(v / 10 == pv && v % 10 == d) by (nonlinear_arith)
            requires
                v == pv * 10 + d,
                0 <= d < 10,
                pv >= 0,
        ;
        assert(dec_digits(v) == dec_digits(pv) + seq![digit_char(d)]);
        assert(dec_digits(v) =~= s);
    }
}

/// Extending a digit string on the right cannot lower its value.
pub proof fn lemma_digits_val_extend(s: Seq<char>, t: Seq<char>)
    ensures
        digits_val(s) <= digits_val(s + t),
    decreases t.len(),
{
    if t.len() == 0 {
        assert(s + t =~= s);
    } else {
        let t0 = t.drop_last();
        lemma_digits_val_extend(s, t0);
        assert((s + t).drop_last() =~= s + t0);
        assert(digits_val(s + t) == digits_val(s + t0) * 10 + digit_val((s + t).last()));
        assert(digits_val(s + t0) * 10 >= digits_val(s + t0));
    }
}

/// First index at or after `i` that does not hold a digit.
pub open spec fn scan_digits(s: Seq<char>, i: int) -> int
    decreases s.len() - i,
{
    if 0 <= i < s.len() && is_digit(s[i]) {
        scan_digits(s, i + 1)
    } else {
        i
    }
}

pub proof fn lemma_scan_digits(s: Seq<char>, i: int)
    requires
        0 <= i <= s.len(),
    ensures
        i <= scan_digits(s, i) <= s.len(),
        forall|k: int| i <= k < scan_digits(s, i) ==> is_digit(#[trigger] s[k]),
        scan_digits(s, i) < s.len() ==> !is_digit(s[scan_digits(s, i)]),
    decreases s.len() - i,
{
    if i < s.len() && is_digit(s[i]) {
        lemma_scan_digits(s, i + 1);
    }
}

/// The scan stops exactly at a known digit-run boundary.
pub proof fn lemma_scan_digits_of(s: Seq<char>, i: int, j: int)
    requires
        0 <= i <= j <= s.len(),
        forall|k: int| i <= k < j ==> is_digit(#[trigger] s[k]),
        j < s.len() ==> !is_digit(s[j]),
    ensures
        scan_digits(s, i) == j,
    decreases j - i,
{
    if i < j {
        lemma_scan_digits_of(s, i + 1, j);
    }
}

/// What parsing a numeral at `i` yields: the value and end of the maximal
/// digit run, provided the run is non-empty and canonical.
pub open spec fn parse_nat(s: Seq<char>, i: int) -> Option<(nat, int)> {
    let j = scan_digits(s, i);
    if 0 <= i <= s.len() && i < j && canonical_digits(s.subrange(i, j)) {
        Some((digits_val(s.subrange(i, j)), j))
    } else {
        None
    }
}

pub open spec fn spec_parse_u64(s: Seq<char>, i: int) -> Option<(u64, int)> {
    match parse_nat(s, i) {
        Some((v, j)) => if v <= u64::MAX as nat {
            Some((v as u64, j))
        } else {
            None
        },
        None => None,
    }
}

pub open spec fn spec_parse_u32(s: Seq<char>, i: int) -> Option<(u32, int)> {
    match parse_nat(s, i) {
        Some((v, j)) => if v <= u32::MAX as nat {
            Some((v as u32, j))
        } else {
            None
        },
        None => None,
    }
}

/// At the canonical numeral of `n`, followed by a non-digit or the end of
/// the input, parsing yields exactly `n`.
pub proof fn lemma_parse_nat_of_encoding(s: Seq<char>, i: int, n: nat)
    requires
        0 <= i,
        i + dec_digits(n).len() <= s.len(),
        s.subrange(i, i + dec_digits(n).len()) == dec_digits(n),
        i + dec_digits(n).len() == s.len() || !is_digit(s[i + dec_digits(n).len()]),
    ensures
        parse_nat(s, i) == Some((n, i + dec_digits(n).len())),
{
    let d = dec_digits(n);
    let j = i + d.len();
    lemma_dec_digits(n);
    assert forall|k: int| i <= k < j implies is_digit(#[trigger] s[k]) by {
        assert(s[k] == d[k - i]);
    }
    lemma_scan_digits_of(s, i, j);
}

/// A successful `u64` parse consumed exactly the canonical numeral of its
/// value.
pub proof fn lemma_parse_u64_sound(s: Seq<char>, i: int)
    ensures
        spec_parse_u64(s, i) matches Some(p) ==> 0 <= i < p.1 <= s.len() && s.subrange(i, p.1)
            == dec_digits(p.0 as nat),
{
    if spec_parse_u64(s, i) is Some {
        lemma_scan_digits(s, i);
        lemma_canonical_digits_inverse(s.subrange(i, scan_digits(s, i)));
    }
}

/// A successful `u32` parse consumed exactly the canonical numeral of its
/// value.
pub proof fn lemma_parse_u32_sound(s: Seq<char>, i: int)
    ensures
        spec_parse_u32(s, i) matches Some(p) ==> 0 <= i < p.1 <= s.len() && s.subrange(i, p.1)
            == dec_digits(p.0 as nat),
{
    if spec_parse_u32(s, i) is Some {
        lemma_scan_digits(s, i);
        lemma_canonical_digits_inverse(s.subrange(i, scan_digits(s, i)));
    }
}

/// At the canonical numeral of a `u64`, parsing yields exactly that value.
pub proof fn lemma_parse_u64_of_encoding(s: Seq<char>, i: int, x: u64)
    requires
        0 <= i,
        i + dec_digits(x as nat).len() <= s.len(),
        s.subrange(i, i + dec_digits(x as nat).len()) == dec_digits(x as nat),
        i + dec_digits(x as nat).len() == s.len() || !is_digit(s[i + dec_digits(x as nat).len()]),
    ensures
        spec_parse_u64(s, i) == Some((x, i + dec_digits(x as nat).len())),
{
    lemma_parse_nat_of_encoding(s, i, x as nat);
}

/// At the canonical numeral of a `u32`, parsing yields exactly that value.
pub proof fn lemma_parse_u32_of_encoding(s: Seq<char>, i: int, x: u32)
    requires
        0 <= i,
        i + dec_digits(x as nat).len() <= s.len(),
        s.subrange(i, i + dec_digits(x as nat).len()) == dec_digits(x as nat),
        i + dec_digits(x as nat).len() == s.len() || !is_digit(s[i + dec_digits(x as nat).len()]),
    ensures
        spec_parse_u32(s, i) == Some((x, i + dec_digits(x as nat).len())),
{
    lemma_parse_nat_of_encoding(s, i, x as nat);
}

fn digit_of_char(c: char) -> (d: u8)
    requires
        is_digit(c),
    ensures
        d as nat == digit_val(c),
        d < 10,
{
    if c == '0' {
        0
    } else if c == '1' {
        1
    } else if c == '2' {
        2
    } else if c == '3' {
        3
    } else if c == '4' {
        4
    } else if c == '5' {
        5
    } else if c == '6' {
        6
    } else if c == '7' {
        7
    } else if c == '8' {
        8
    } else {
        assert(c as int == 57);
        9
    }
}

fn digit_char_exec(d: u8) -> (c: char)
    requires
        d < 10,
    ensures
        c == digit_char(d as nat),
{
    if d == 0 {
        '0'
    } else if d == 1 {
        '1'
    } else if d == 2 {
        '2'
    } else if d == 3 {
        '3'
    } else if d == 4 {
        '4'
    } else if d == 5 {
        '5'
    } else if d == 6 {
        '6'
    } else if d == 7 {
        '7'
    } else if d == 8 {
        '8'
    } else {
        '9'
    }
}

/// Appends the canonical numeral of `n` to `out`.
pub fn push_u64_digits(out: &mut Vec<char>, n: u64)
    ensures
        final(out)@ == old(out)@ + dec_digits(n as nat),
    decreases n,
{
    if n < 10 {
        out.push(digit_char_exec(n as u8));
        proof {
            assert(out@ =~= old(out)@ + dec_digits(n as nat));
        }
    } else {
        push_u64_digits(out, n / 10);
        out.push(digit_char_exec((n % 10) as u8));
        proof {
            assert(out@ =~= old(out)@ + dec_digits(n as nat));
        }
    }
}

/// Parses a canonical numeral at `i`, within the range of `u64`.
pub fn parse_u64_chars(v: &Vec<char>, i: usize) -> (r: Option<(u64, usize)>)
    requires
        i <= v@.len(),
    ensures
        r matches Some(p) ==> spec_parse_u64(v@, i as int) == Some((p.0, p.1 as int)) && i < p.1
            <= v@.len(),
        r is None ==> spec_parse_u64(v@, i as int) is None,
{
    let ghost s = v@;
    let n = v.len();
    if i == n {
        proof {
            assert(scan_digits(s, i as int) == i);
        }
        return None;
    }
    let c0 = v[i];
    if !('0' <= c0 && c0 <= '9') {
        proof {
            assert(!is_digit(s[i as int]));
            assert(scan_digits(s, i as int) == i);
        }
        return None;
    }
    if c0 == '0' {
        // either the single numeral "0", or a forbidden leading zero
        if i + 1 < n && '0' <= v[i + 1] && v[i + 1] <= '9' {
            proof {
                lemma_scan_digits(s, i as int);
                let j = scan_digits(s, i as int);
                assert(is_digit(s[i as int]) && is_digit(s[i + 1]));
                lemma_scan_digits(s, i + 2);
                lemma_scan_digits_of(s, i as int, scan_digits(s, i + 2));
                assert(j >= i + 2);
                if parse_nat(s, i as int) is Some {
                    assert(s.subrange(i as int, j)[0] == s[i as int]);
                    assert(s[i as int] == '0') by {
                        assert(digit_val(s[i as int]) == 0);
                        lemma_digit_val_char(s[i as int]);
                    }
                    assert(!canonical_digits(s.subrange(i as int, j)));
                }
            }
            return None;
        }
        proof {
            assert(i + 1 == s.len() || !is_digit(s[i + 1]));
            lemma_scan_digits_of(s, i as int, i + 1);
            let d = s.subrange(i as int, i + 1);
            assert(d.len() == 1 && d[0] == s[i as int]);
            assert(canonical_digits(d));
            assert(d.drop_last().len() == 0);
            assert(digits_val(d.drop_last()) == 0);
            assert(digits_val(d) == digit_val(d.last()));
            assert(digit_val(s[i as int]) == 0);
        }
        return Some((0, i + 1));
    }
    let mut acc: u64 = digit_of_char(c0) as u64;
    let mut k: usize = i + 1;
    proof {
        assert(s.subrange(i as int, i + 1).drop_last() =~= Seq::<char>::empty());
        assert(digits_val(s.subrange(i as int, i + 1).drop_last()) == 0);
        assert(digits_val(s.subrange(i as int, i + 1)) == digit_val(s[i as int]));
        assert(s[i as int] != '0') by {
            lemma_digit_val_char(s[i as int]);
            lemma_digit_char_val(digit_val(s[i as int]));
        }
    }
    while k < n && '0' <= v[k] && v[k] <= '9'
        invariant
            s == v@,
            n == s.len(),
            0 <= i < k <= n,
            forall|t: int| i <= t < k ==> is_digit(#[trigger] s[t]),
            s[i as int] != '0',
            acc == digits_val(s.subrange(i as int, k as int)),
        decreases n - k,
    {
        proof {
            assert(is_digit(s[k as int]));
        }
        let d = digit_of_char(v[k]) as u64;
        if acc > (u64::MAX - d) / 10 {
            proof {
                let part = s.subrange(i as int, k + 1);
                assert(part.drop_last() =~= s.subrange(i as int, k as int));
                assert(digits_val(part) == acc * 10 + d);
                assert(acc * 10 + d > u64::MAX) by (nonlinear_arith)
                    requires
                        acc > (u64::MAX - d) / 10,
                        0 <= d < 10,
                        acc >= 0,
                ;
                lemma_scan_digits(s, i as int);
                let j = scan_digits(s, i as int);
                lemma_scan_digits(s, k + 1);
                lemma_scan_digits_of(s, i as int, scan_digits(s, k + 1));
                assert(j >= k + 1);
                if parse_nat(s, i as int) is Some {
                    let full = s.subrange(i as int, j);
                    assert(full =~= part + s.subrange(k + 1, j));
                    lemma_digits_val_extend(part, s.subrange(k + 1, j));
                    assert(digits_val(full) > u64::MAX);
                }
            }
            return None;
        }
        proof {
            assert(acc * 10 + d <= u64::MAX) by (nonlinear_arith)
                requires
                    acc <= (u64::MAX - d) / 10,
                    0 <= d < 10,
                    acc >= 0,
            ;
            let part = s.subrange(i as int, k + 1);
            assert(part.drop_last() =~= s.subrange(i as int, k as int));
            assert(digits_val(part) == acc * 10 + d);
        }
        acc = acc * 10 + d;
        k = k + 1;
    }
    proof {
        assert(k == s.len() || !is_digit(s[k as int]));
        lemma_scan_digits_of(s, i as int, k as int);
        let dgs = s.subrange(i as int, k as int);
        assert(dgs[0] == s[i as int]);
        assert forall|t: int| 0 <= t < dgs.len() implies is_digit(#[trigger] dgs[t]) by {
            assert(dgs[t] == s[i + t]);
        }
        assert(canonical_digits(dgs));
    }
    Some((acc, k))
}

/// Parses a canonical numeral at `i`, within the range of `u32`.
pub fn parse_u32_chars(v: &Vec<char>, i: usize) -> (r: Option<(u32, usize)>)
    requires
        i <= v@.len(),
    ensures
        r matches Some(p) ==> spec_parse_u32(v@, i as int) == Some((p.0, p.1 as int)) && i < p.1
            <= v@.len(),
        r is None ==> spec_parse_u32(v@, i as int) is None,
{
    match parse_u64_chars(v, i) {
        Some((x, j)) => {
            if x <= u32::MAX as u64 {
                Some((x as u32, j))
            } else {
                None
            }
        },
        None => None,
    }
}

} // verus!
