//! JSON string literals. Encoding emits the canonical text: quotes and
//! backslashes escaped, control characters as `\u00XX`, every other
//! character standing for itself. Parsing accepts the full standard form:
//! the short escapes, `\uXXXX` for any four-digit scalar value, and raw
//! characters otherwise.

use vstd::prelude::*;
use vstd::string::StrSliceExecFns;

verus! {

/// Converts a code point to a char: exactly the scalar values are accepted.
pub assume_specification[ char::from_u32 ](i: u32) -> (r: Option<char>)
    ensures
        r matches Some(c) ==> c as int == i as int,
        ((i as int) < 0xD800 || (0xE000 <= i as int && i as int <= 0x10FFFF)) ==> r is Some,
;

pub open spec fn is_hex(c: char) -> bool {
    ('0' <= c && c <= '9') || ('a' <= c && c <= 'f') || ('A' <= c && c <= 'F')
}

pub open spec fn hex_val(c: char) -> nat {
    if '0' <= c && c <= '9' {
        (c as int - 48) as nat
    } else if 'a' <= c && c <= 'f' {
        (c as int - 87) as nat
    } else {
        (c as int - 55) as nat
    }
}

pub open spec fn hex_digit(d: nat) -> char {
    if d == 0 {
        '0'
    } else if d == 1 {
        '1'
    } else if d == 2 {
        '2'
    } else if d == 3 {
        '3'
    } else if d == 4 {
        '4'
    } else if d == 5 {
        '5'
    } else if d == 6 {
        '6'
    } else if d == 7 {
        '7'
    } else if d == 8 {
        '8'
    } else if d == 9 {
        '9'
    } else if d == 10 {
        'a'
    } else if d == 11 {
        'b'
    } else if d == 12 {
        'c'
    } else if d == 13 {
        'd'
    } else if d == 14 {
        'e'
    } else {
        'f'
    }
}

pub proof fn lemma_hex_digit(d: nat)
    requires
        d < 16,
    ensures
        is_hex(hex_digit(d)),
        hex_val(hex_digit(d)) == d,
{
}

/// The character a short escape letter stands for.
pub open spec fn escape_code(e: char) -> char {
    if e == 'b' {
        '\u{0008}'
    } else if e == 'f' {
        '\u{000C}'
    } else if e == 'n' {
        '\n'
    } else if e == 'r' {
        '\r'
    } else {
        '\t'
    }
}

/// The value of the four hex digits at `i`.
pub open spec fn hex4_val(s: Seq<char>, i: int) -> nat {
    ((hex_val(s[i]) * 16 + hex_val(s[i + 1])) * 16 + hex_val(s[i + 2])) * 16 + hex_val(s[i + 3])
}

/// The canonical escape of one character inside a JSON string literal.
pub open spec fn esc_char(c: char) -> Seq<char> {
    if c == '"' || c == '\\' {
        seq!['\\', c]
    } else if (c as int) < 32 {
        seq![
            '\\',
            'u',
            '0',
            '0',
            hex_digit((c as int / 16) as nat),
            hex_digit((c as int % 16) as nat),
        ]
    } else {
        seq![c]
    }
}

/// The canonical escape of a whole string.
pub open spec fn esc(s: Seq<char>) -> Seq<char>
    decreases s.len(),
{
    if s.len() == 0 {
        Seq::empty()
    } else {
        esc_char(s[0]) + esc(s.drop_first())
    }
}

/// The canonical JSON text of a string value.
pub open spec fn json_string(s: Seq<char>) -> Seq<char> {
    seq!['"'] + esc(s) + seq!['"']
}

pub proof fn lemma_esc_snoc(s: Seq<char>, c: char)
    ensures
        esc(s.push(c)) == esc(s) + esc_char(c),
    decreases s.len(),
{
    if s.len() == 0 {
        assert(s.push(c)[0] == c);
        assert(s.push(c).drop_first() =~= Seq::<char>::empty());
        assert(esc(s.push(c).drop_first()) =~= Seq::<char>::empty());
        assert(esc(s.push(c)) == esc_char(c) + esc(s.push(c).drop_first()));
        assert(esc(s.push(c)) =~= esc(s) + esc_char(c));
    } else {
        let t = s.push(c);
        assert(t[0] == s[0]);
        assert(t.drop_first() =~= s.drop_first().push(c));
        lemma_esc_snoc(s.drop_first(), c);
        assert(esc(t) == esc_char(s[0]) + (esc(s.drop_first()) + esc_char(c)));
        assert(esc_char(s[0]) + (esc(s.drop_first()) + esc_char(c)) =~= (esc_char(s[0]) + esc(
            s.drop_first(),
        )) + esc_char(c));
    }
}

/// Every character of `s` is a Unicode scalar value: true of the view of
/// every real string.
pub open spec fn scalar_values(s: Seq<char>) -> bool {
    forall|k: int|
        0 <= k < s.len() ==> 0 <= (#[trigger] s[k]) as int && s[k] as int <= 0x10FFFF && !(0xD800
            <= s[k] as int && (s[k] as int) < 0xE000)
}

/// The escape of a text holding no quote, backslash or control character is
/// the text itself.
pub proof fn lemma_esc_plain(s: Seq<char>)
    requires
        forall|k: int| 0 <= k < s.len() ==> #[trigger] s[k] != '"' && s[k] != '\\' && s[k] as int
            >= 32,
    ensures
        esc(s) == s,
    decreases s.len(),
{
    if s.len() == 0 {
        assert(esc(s) =~= s);
    } else {
        assert(s[0] != '"' && s[0] != '\\' && s[0] as int >= 32);
        assert(forall|k: int|
            0 <= k < s.drop_first().len() ==> #[trigger] s.drop_first()[k] == s[k + 1]);
        lemma_esc_plain(s.drop_first());
        assert(esc(s) =~= s);
    }
}

/// What parsing the body of a JSON string literal at `i` yields: the raw
/// text up to the first unescaped quote, and the index just past that
/// quote. Short escapes and `\uXXXX` scalar values are decoded; surrogate
/// halves and unknown escapes are rejected.
pub open spec fn parse_string_body(s: Seq<char>, i: int) -> Option<(Seq<char>, int)>
    decreases s.len() - i,
{
    if i < 0 || i >= s.len() {
        None
    } else if s[i] == '"' {
        Some((Seq::empty(), i + 1))
    } else if s[i] == '\\' {
        if i + 1 < s.len() {
            let e = s[i + 1];
            if e == '"' || e == '\\' || e == '/' {
                match parse_string_body(s, i + 2) {
                    Some((r, j)) => Some((seq![e] + r, j)),
                    None => None,
                }
            } else if e == 'b' || e == 'f' || e == 'n' || e == 'r' || e == 't' {
                match parse_string_body(s, i + 2) {
                    Some((r, j)) => Some((seq![escape_code(e)] + r, j)),
                    None => None,
                }
            } else if e == 'u' {
                if i + 6 <= s.len() && is_hex(s[i + 2]) && is_hex(s[i + 3]) && is_hex(s[i + 4])
                    && is_hex(s[i + 5]) && (hex4_val(s, i + 2) < 0xD800 || hex4_val(s, i + 2)
                    >= 0xE000) {
                    match parse_string_body(s, i + 6) {
                        Some((r, j)) => Some((seq![hex4_val(s, i + 2) as char] + r, j)),
                        None => None,
                    }
                } else {
                    None
                }
            } else {
                None
            }
        } else {
            None
        }
    } else {
        match parse_string_body(s, i + 1) {
            Some((r, j)) => Some((seq![s[i]] + r, j)),
            None => None,
        }
    }
}

/// What parsing a JSON string literal at `i` yields.
pub open spec fn spec_parse_string(s: Seq<char>, i: int) -> Option<(Seq<char>, int)> {
    if 0 <= i < s.len() && s[i] == '"' {
        parse_string_body(s, i + 1)
    } else {
        None
    }
}

/// At the canonical escape of `raw` followed by a closing quote, the body
/// parse yields exactly `raw`.
pub proof fn lemma_parse_string_body_of(s: Seq<char>, i: int, raw: Seq<char>)
    requires
        scalar_values(raw),
        0 <= i,
        i + esc(raw).len() + 1 <= s.len(),
        s.subrange(i, i + esc(raw).len() + 1) == esc(raw) + seq!['"'],
    ensures
        parse_string_body(s, i) == Some((raw, i + esc(raw).len() + 1)),
    decreases raw.len(),
{
    let e = esc(raw);
    let w = s.subrange(i, i + e.len() + 1);
    if raw.len() == 0 {
        assert(s[i] == w[0]);
        assert(s[i] == '"');
    } else {
        let c = raw[0];
        let rest = raw.drop_first();
        assert(0 <= c as int);
        assert(scalar_values(rest)) by {
            assert(forall|k: int|
                0 <= k < rest.len() ==> #[trigger] rest[k] == raw[k + 1]);
        }
        assert(esc(raw) == esc_char(c) + esc(rest));
        if c == '"' || c == '\\' {
            assert(s[i] == w[0] && w[0] == '\\');
            assert(s[i + 1] == w[1] && w[1] == c);
            assert(s.subrange(i + 2, i + 2 + esc(rest).len() + 1) =~= esc(rest) + seq!['"']) by {
                assert forall|k: int| 0 <= k < esc(rest).len() + 1 implies s[i + 2 + k] == (esc(
                    rest,
                ) + seq!['"'])[k] by {
                    assert(s[i + 2 + k] == w[2 + k]);
                }
            }
            lemma_parse_string_body_of(s, i + 2, rest);
            assert(seq![s[i + 1]] + rest =~= raw);
        } else if (c as int) < 32 {
            let hi = (c as int / 16) as nat;
            let lo = (c as int % 16) as nat;
            assert(hi < 16 && lo < 16) by (nonlinear_arith)
                requires
                    0 <= c as int && (c as int) < 32,
                    hi == (c as int / 16) as nat,
                    lo == (c as int % 16) as nat,
            ;
            lemma_hex_digit(hi);
            lemma_hex_digit(lo);
            assert(esc_char(c).len() == 6);
            assert(s[i] == w[0] && w[0] == '\\');
            assert(s[i + 1] == w[1] && w[1] == 'u');
            assert(s[i + 2] == w[2] && w[2] == '0');
            assert(s[i + 3] == w[3] && w[3] == '0');
            assert(s[i + 4] == w[4] && w[4] == hex_digit(hi));
            assert(s[i + 5] == w[5] && w[5] == hex_digit(lo));
            assert(hex_val('0') == 0);
            assert(hex4_val(s, i + 2) == hi * 16 + lo);
            assert(hi * 16 + lo == c as int) by (nonlinear_arith)
                requires
                    0 <= c as int && (c as int) < 32,
                    hi == (c as int / 16) as nat,
                    lo == (c as int % 16) as nat,
            ;
            assert(hex4_val(s, i + 2) < 0xD800);
            assert(hex4_val(s, i + 2) as char == c);
            assert(s.subrange(i + 6, i + 6 + esc(rest).len() + 1) =~= esc(rest) + seq!['"']) by {
                assert forall|k: int| 0 <= k < esc(rest).len() + 1 implies s[i + 6 + k] == (esc(
                    rest,
                ) + seq!['"'])[k] by {
                    assert(s[i + 6 + k] == w[6 + k]);
                }
            }
            lemma_parse_string_body_of(s, i + 6, rest);
            assert(seq![hex4_val(s, i + 2) as char] + rest =~= raw);
        } else {
            assert(s[i] == w[0] && w[0] == c);
            assert(s[i] != '"' && s[i] != '\\');
            assert(s.subrange(i + 1, i + 1 + esc(rest).len() + 1) =~= esc(rest) + seq!['"']) by {
                assert forall|k: int| 0 <= k < esc(rest).len() + 1 implies s[i + 1 + k] == (esc(
                    rest,
                ) + seq!['"'])[k] by {
                    assert(s[i + 1 + k] == w[1 + k]);
                }
            }
            lemma_parse_string_body_of(s, i + 1, rest);
            assert(seq![s[i]] + rest =~= raw);
        }
    }
}

/// At the canonical JSON text of `raw`, the string parse yields exactly
/// `raw`.
pub proof fn lemma_parse_string_of(s: Seq<char>, i: int, raw: Seq<char>)
    requires
        scalar_values(raw),
        0 <= i,
        i + json_string(raw).len() <= s.len(),
        s.subrange(i, i + json_string(raw).len()) == json_string(raw),
    ensures
        spec_parse_string(s, i) == Some((raw, i + json_string(raw).len())),
{
    let w = s.subrange(i, i + json_string(raw).len());
    assert(s[i] == w[0] && w[0] == '"');
    assert(s.subrange(i + 1, i + 1 + esc(raw).len() + 1) =~= esc(raw) + seq!['"']) by {
        assert forall|k: int| 0 <= k < esc(raw).len() + 1 implies s[i + 1 + k] == (esc(raw)
            + seq!['"'])[k] by {
            assert(s[i + 1 + k] == w[1 + k]);
        }
    }
    lemma_parse_string_body_of(s, i + 1, raw);
}

fn hex_of_char(c: char) -> (d: u8)
    requires
        is_hex(c),
    ensures
        d as nat == hex_val(c),
        d < 16,
{
    if c == '0' {
        0
    } else if c == '1' {
        1
    } else if c == '2' {
        2
    } else if c == '3' {
        3
    } else if c == '4' {
        4
    } else if c == '5' {
        5
    } else if c == '6' {
        6
    } else if c == '7' {
        7
    } else if c == '8' {
        8
    } else if c == '9' {
        9
    } else if c == 'a' || c == 'A' {
        10
    } else if c == 'b' || c == 'B' {
        11
    } else if c == 'c' || c == 'C' {
        12
    } else if c == 'd' || c == 'D' {
        13
    } else if c == 'e' || c == 'E' {
        14
    } else {
        assert(c == 'f' || c == 'F');
        15
    }
}

fn hex_char_of(d: u8) -> (c: char)
    requires
        d < 16,
    ensures
        c == hex_digit(d as nat),
{
    if d == 0 {
        '0'
    } else if d == 1 {
        '1'
    } else if d == 2 {
        '2'
    } else if d == 3 {
        '3'
    } else if d == 4 {
        '4'
    } else if d == 5 {
        '5'
    } else if d == 6 {
        '6'
    } else if d == 7 {
        '7'
    } else if d == 8 {
        '8'
    } else if d == 9 {
        '9'
    } else if d == 10 {
        'a'
    } else if d == 11 {
        'b'
    } else if d == 12 {
        'c'
    } else if d == 13 {
        'd'
    } else if d == 14 {
        'e'
    } else {
        'f'
    }
}

fn ctrl_code(c: char) -> (d: u8)
    requires
        (c as int) < 32,
    ensures
        d as int == c as int,
        d < 32,
{
    if c == '\u{0}' {
        0
    } else
    if c == '\u{1}' {
        1
    } else
    if c == '\u{2}' {
        2
    } else
    if c == '\u{3}' {
        3
    } else
    if c == '\u{4}' {
        4
    } else
    if c == '\u{5}' {
        5
    } else
    if c == '\u{6}' {
        6
    } else
    if c == '\u{7}' {
        7
    } else
    if c == '\u{8}' {
        8
    } else
    if c == '\u{9}' {
        9
    } else
    if c == '\u{A}' {
        10
    } else
    if c == '\u{B}' {
        11
    } else
    if c == '\u{C}' {
        12
    } else
    if c == '\u{D}' {
        13
    } else
    if c == '\u{E}' {
        14
    } else
    if c == '\u{F}' {
        15
    } else
    if c == '\u{10}' {
        16
    } else
    if c == '\u{11}' {
        17
    } else
    if c == '\u{12}' {
        18
    } else
    if c == '\u{13}' {
        19
    } else
    if c == '\u{14}' {
        20
    } else
    if c == '\u{15}' {
        21
    } else
    if c == '\u{16}' {
        22
    } else
    if c == '\u{17}' {
        23
    } else
    if c == '\u{18}' {
        24
    } else
    if c == '\u{19}' {
        25
    } else
    if c == '\u{1A}' {
        26
    } else
    if c == '\u{1B}' {
        27
    } else
    if c == '\u{1C}' {
        28
    } else
    if c == '\u{1D}' {
        29
    } else
    if c == '\u{1E}' {
        30
    } else {
        assert(c as int == 31);
        31
    }
}

fn is_hex_char(c: char) -> (r: bool)
    ensures
        r == is_hex(c),
{
    ('0' <= c && c <= '9') || ('a' <= c && c <= 'f') || ('A' <= c && c <= 'F')
}

fn parse_body_chars(v: &Vec<char>, i: usize) -> (r: Option<(Vec<char>, usize)>)
    requires
        i <= v@.len(),
    ensures
        r matches Some(p) ==> parse_string_body(v@, i as int) == Some((p.0@, p.1 as int)) && i
            < p.1 <= v@.len(),
        r is None ==> parse_string_body(v@, i as int) is None,
    decreases v@.len() - i,
{
    if i == v.len() {
        return None;
    }
    let c = v[i];
    if c == '"' {
        let out: Vec<char> = Vec::new();
        return Some((out, i + 1));
    }
    if c == '\\' {
        if i + 1 >= v.len() {
            return None;
        }
        let e = v[i + 1];
        if e == '"' || e == '\\' || e == '/' {
            match parse_body_chars(v, i + 2) {
                Some((mut r0, j)) => {
                    let ghost tail = r0@;
                    r0.insert(0, e);
                    proof {
                        assert(r0@ =~= seq![v@[i + 1]] + tail);
                    }
                    Some((r0, j))
                },
                None => None,
            }
        } else if e == 'b' || e == 'f' || e == 'n' || e == 'r' || e == 't' {
            let decoded: char = if e == 'b' {
                '\u{0008}'
            } else if e == 'f' {
                '\u{000C}'
            } else if e == 'n' {
                '\n'
            } else if e == 'r' {
                '\r'
            } else {
                '\t'
            };
            proof {
                assert(decoded == escape_code(e));
            }
            match parse_body_chars(v, i + 2) {
                Some((mut r0, j)) => {
                    let ghost tail = r0@;
                    r0.insert(0, decoded);
                    proof {
                        assert(r0@ =~= seq![escape_code(v@[i + 1])] + tail);
                    }
                    Some((r0, j))
                },
                None => None,
            }
        } else if e == 'u' {
            if v.len() - i < 6 || !is_hex_char(v[i + 2]) || !is_hex_char(v[i + 3])
                || !is_hex_char(v[i + 4]) || !is_hex_char(v[i + 5]) {
                return None;
            }
            let h0 = hex_of_char(v[i + 2]) as u32;
            let h1 = hex_of_char(v[i + 3]) as u32;
            let h2 = hex_of_char(v[i + 4]) as u32;
            let h3 = hex_of_char(v[i + 5]) as u32;
            let x: u32 = ((h0 * 16 + h1) * 16 + h2) * 16 + h3;
            proof {
                assert(x as nat == hex4_val(v@, i + 2));
            }
            if !(x < 0xD800 || x >= 0xE000) {
                return None;
            }
            let decoded: char = match char::from_u32(x) {
                Some(d) => d,
                None => {
                    proof {
                        assert(false);
                    }
                    '0'
                },
            };
            proof {
                assert(decoded as int == x as int);
                assert(decoded == hex4_val(v@, i + 2) as char);
            }
            match parse_body_chars(v, i + 6) {
                Some((mut r0, j)) => {
                    let ghost tail = r0@;
                    r0.insert(0, decoded);
                    proof {
                        assert(r0@ =~= seq![hex4_val(v@, i + 2) as char] + tail);
                    }
                    Some((r0, j))
                },
                None => None,
            }
        } else {
            None
        }
    } else {
        match parse_body_chars(v, i + 1) {
            Some((mut r0, j)) => {
                let ghost tail = r0@;
                r0.insert(0, c);
                proof {
                    assert(r0@ =~= seq![v@[i as int]] + tail);
                }
                Some((r0, j))
            },
            None => None,
        }
    }
}

/// Parses a JSON string literal starting at `i`.
pub fn parse_string_chars(v: &Vec<char>, i: usize) -> (r: Option<(Vec<char>, usize)>)
    requires
        i <= v@.len(),
    ensures
        r matches Some(p) ==> spec_parse_string(v@, i as int) == Some((p.0@, p.1 as int)) && i
            < p.1 <= v@.len(),
        r is None ==> spec_parse_string(v@, i as int) is None,
{
    if i < v.len() && v[i] == '"' {
        parse_body_chars(v, i + 1)
    } else {
        None
    }
}

/// Appends the canonical JSON text of `s` to `out`.
pub fn push_json_string(out: &mut Vec<char>, s: &str)
    ensures
        final(out)@ == old(out)@ + json_string(s@),
{
    out.push('"');
    let n = s.unicode_len();
    let mut k: usize = 0;
    while k < n
        invariant
            n == s@.len(),
            k <= n,
            out@ == old(out)@ + seq!['"'] + esc(s@.subrange(0, k as int)),
        decreases n - k,
    {
        let c = s.get_char(k);
        if c == '"' || c == '\\' {
            out.push('\\');
            out.push(c);
        } else if c <= '\u{001F}' {
            let code = ctrl_code(c);
            out.push('\\');
            out.push('u');
            out.push('0');
            out.push('0');
            out.push(hex_char_of(code / 16));
            out.push(hex_char_of(code % 16));
        } else {
            out.push(c);
        }
        proof {
            lemma_esc_snoc(s@.subrange(0, k as int), c);
            assert(s@.subrange(0, k + 1) =~= s@.subrange(0, k as int).push(c));
            assert(out@ =~= old(out)@ + seq!['"'] + esc(s@.subrange(0, k + 1)));
        }
        k = k + 1;
    }
    out.push('"');
    proof {
        assert(s@.subrange(0, n as int) =~= s@);
        assert(out@ =~= old(out)@ + json_string(s@));
    }
}

} // verus!
