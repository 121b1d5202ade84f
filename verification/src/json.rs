//! Byte-level JSON primitives for the one wire format the shell speaks:
//! whitespace skipping, string escaping and unescaping (including `\uXXXX`
//! escapes and surrogate pairs), and parsing of strings and arrays of
//! strings. Everything is specified over byte sequences; the exec functions
//! are proved equal to the spec-level definitions.

use vstd::prelude::*;

verus! {

// --- JSON whitespace ---

/// The four JSON whitespace bytes: space, tab, line feed, carriage return.
pub open spec fn is_json_ws(b: u8) -> bool {
    b == 0x20 || b == 0x09 || b == 0x0A || b == 0x0D
}

/// Index of the first byte at or after `i` that is not JSON whitespace
/// (the length of `s` if everything from `i` on is whitespace).
pub open spec fn skip_ws(s: Seq<u8>, i: int) -> int
    recommends
        0 <= i <= s.len(),
    decreases s.len() - i,
        when 0 <= i <= s.len()
{
    if i < s.len() && is_json_ws(s[i]) {
        skip_ws(s, i + 1)
    } else {
        i
    }
}

pub proof fn lemma_skip_ws_bounds(s: Seq<u8>, i: int)
    requires
        0 <= i <= s.len(),
    ensures
        i <= skip_ws(s, i) <= s.len(),
    decreases s.len() - i,
{
    if i < s.len() && is_json_ws(s[i]) {
        lemma_skip_ws_bounds(s, i + 1);
    }
}

fn is_ws_byte(b: u8) -> (r: bool)
    ensures
        r == is_json_ws(b),
{
    b == 0x20 || b == 0x09 || b == 0x0A || b == 0x0D
}

/// Advances past JSON whitespace.
pub fn skip_ws_exec(s: &[u8], i: usize) -> (r: usize)
    requires
        i <= s@.len(),
    ensures
        r == skip_ws(s@, i as int),
        i <= r <= s@.len(),
{
    let mut j: usize = i;
    while j < s.len() && is_ws_byte(s[j])
        invariant
            i <= j <= s@.len(),
            skip_ws(s@, i as int) == skip_ws(s@, j as int),
        decreases s@.len() - j,
    {
        proof {
            assert(skip_ws(s@, j as int) == skip_ws(s@, j + 1));
        }
        j = j + 1;
    }
    proof {
        assert(skip_ws(s@, j as int) == j);
    }
    j
}

// --- hex digits ---

/// The value of one hex digit byte, if it is one (either letter case).
pub open spec fn hex_digit_value(b: u8) -> Option<u32> {
    if 0x30 <= b && b <= 0x39 {
        Some((b - 0x30) as u32)
    } else if 0x41 <= b && b <= 0x46 {
        Some((b - 0x41 + 10) as u32)
    } else if 0x61 <= b && b <= 0x66 {
        Some((b - 0x61 + 10) as u32)
    } else {
        None
    }
}

/// The value of the four hex digits starting at `i`, if they are there.
pub open spec fn hex4_value(s: Seq<u8>, i: int) -> Option<u32> {
    if 0 <= i && i + 4 <= s.len() {
        match (
            hex_digit_value(s[i]),
            hex_digit_value(s[i + 1]),
            hex_digit_value(s[i + 2]),
            hex_digit_value(s[i + 3]),
        ) {
            (Some(a), Some(b), Some(c), Some(d)) => Some(
                (a * 4096 + b * 256 + c * 16 + d) as u32,
            ),
            _ => None,
        }
    } else {
        None
    }
}

fn hex_digit_value_exec(b: u8) -> (r: Option<u32>)
    ensures
        r == hex_digit_value(b),
{
    if 0x30 <= b && b <= 0x39 {
        Some((b - 0x30) as u32)
    } else if 0x41 <= b && b <= 0x46 {
        Some((b - 0x41 + 10) as u32)
    } else if 0x61 <= b && b <= 0x66 {
        Some((b - 0x61 + 10) as u32)
    } else {
        None
    }
}

/// Reads four hex digits starting at `i`.
pub fn parse_hex4(s: &[u8], i: usize) -> (r: Option<u32>)
    requires
        i <= s@.len(),
    ensures
        r == hex4_value(s@, i as int),
{
    if s.len() - i < 4 {
        return None;
    }
    let a = hex_digit_value_exec(s[i]);
    let b = hex_digit_value_exec(s[i + 1]);
    let c = hex_digit_value_exec(s[i + 2]);
    let d = hex_digit_value_exec(s[i + 3]);
    match (a, b, c, d) {
        (Some(a), Some(b), Some(c), Some(d)) => Some(a * 4096 + b * 256 + c * 16 + d),
        _ => None,
    }
}

// --- UTF-8 ---

/// The UTF-8 encoding of a Unicode scalar value.
pub open spec fn utf8_encode(c: u32) -> Seq<u8>
    recommends
        c <= 0x10FFFF,
{
    if c < 0x80 {
        seq![c as u8]
    } else if c < 0x800 {
        seq![(0xC0 + c / 64) as u8, (0x80 + c % 64) as u8]
    } else if c < 0x10000 {
        seq![
            (0xE0 + c / 4096) as u8,
            (0x80 + (c / 64) % 64) as u8,
            (0x80 + c % 64) as u8,
        ]
    } else {
        seq![
            (0xF0 + c / 262144) as u8,
            (0x80 + (c / 4096) % 64) as u8,
            (0x80 + (c / 64) % 64) as u8,
            (0x80 + c % 64) as u8,
        ]
    }
}

/// Appends the UTF-8 encoding of `c` to `out`.
pub fn push_utf8(out: &mut Vec<u8>, c: u32)
    requires
        c <= 0x10FFFF,
    ensures
        final(out)@ == old(out)@ + utf8_encode(c),
{
    if c < 0x80 {
        out.push(c as u8);
    } else if c < 0x800 {
        out.push((0xC0 + c / 64) as u8);
        out.push((0x80 + c % 64) as u8);
    } else if c < 0x10000 {
        out.push((0xE0 + c / 4096) as u8);
        out.push((0x80 + (c / 64) % 64) as u8);
        out.push((0x80 + c % 64) as u8);
    } else {
        out.push((0xF0 + c / 262144) as u8);
        out.push((0x80 + (c / 4096) % 64) as u8);
        out.push((0x80 + (c / 64) % 64) as u8);
        out.push((0x80 + c % 64) as u8);
    }
    proof {
        assert(out@ =~= old(out)@ + utf8_encode(c));
    }
}

// --- escaping ---

/// The lower-case hex digit byte for a value below 16.
pub open spec fn hex_digit_char(n: int) -> u8
    recommends
        0 <= n < 16,
{
    if n < 10 {
        (0x30 + n) as u8
    } else {
        (0x61 + n - 10) as u8
    }
}

fn hex_digit_char_exec(n: u8) -> (r: u8)
    requires
        n < 16,
    ensures
        r == hex_digit_char(n as int),
{
    if n < 10 {
        0x30 + n
    } else {
        0x61 + n - 10
    }
}

/// How one byte is written inside a JSON string literal: two-character
/// escapes for the quote, the backslash and the common controls, `\u00XX`
/// for the remaining controls, the byte itself otherwise.
pub open spec fn escape_byte(b: u8) -> Seq<u8> {
    if b == 0x22 {
        seq![0x5C, 0x22]
    } else if b == 0x5C {
        seq![0x5C, 0x5C]
    } else if b == 0x08 {
        seq![0x5C, 0x62]
    } else if b == 0x09 {
        seq![0x5C, 0x74]
    } else if b == 0x0A {
        seq![0x5C, 0x6E]
    } else if b == 0x0C {
        seq![0x5C, 0x66]
    } else if b == 0x0D {
        seq![0x5C, 0x72]
    } else if b < 0x20 {
        seq![0x5C, 0x75, 0x30, 0x30, hex_digit_char(b as int / 16), hex_digit_char(b as int % 16)]
    } else {
        seq![b]
    }
}

/// A whole byte string escaped for the inside of a JSON string literal.
pub open spec fn spec_escape(s: Seq<u8>) -> Seq<u8>
    decreases s.len(),
{
    if s.len() == 0 {
        Seq::empty()
    } else {
        spec_escape(s.drop_last()) + escape_byte(s.last())
    }
}

pub proof fn lemma_spec_escape_first(s: Seq<u8>)
    requires
        s.len() > 0,
    ensures
        spec_escape(s) == escape_byte(s[0]) + spec_escape(s.drop_first()),
    decreases s.len(),
{
    if s.len() == 1 {
        assert(s.drop_last() =~= Seq::<u8>::empty());
        assert(s.drop_first() =~= Seq::<u8>::empty());
        assert(spec_escape(s) =~= escape_byte(s[0]) + spec_escape(s.drop_first()));
    } else {
        lemma_spec_escape_first(s.drop_last());
        assert(s.drop_last()[0] == s[0]);
        assert(s.drop_last().drop_first() =~= s.drop_first().drop_last());
        assert(s.drop_first().last() == s.last());
        assert(spec_escape(s) == spec_escape(s.drop_last()) + escape_byte(s.last()));
        assert(spec_escape(s.drop_first()) == spec_escape(s.drop_first().drop_last())
            + escape_byte(s.last()));
        assert(spec_escape(s) =~= escape_byte(s[0]) + spec_escape(s.drop_first()));
    }
}

/// Appends the JSON escaping of `s` to `out`.
pub fn push_escaped(out: &mut Vec<u8>, s: &[u8])
    ensures
        final(out)@ == old(out)@ + spec_escape(s@),
{
    let mut i: usize = 0;
    proof {
        assert(out@ =~= old(out)@ + spec_escape(s@.take(0)));
    }
    while i < s.len()
        invariant
            i <= s@.len(),
            out@ == old(out)@ + spec_escape(s@.take(i as int)),
        decreases s@.len() - i,
    {
        let b = s[i];
        if b == 0x22 {
            out.push(0x5C);
            out.push(0x22);
        } else if b == 0x5C {
            out.push(0x5C);
            out.push(0x5C);
        } else if b == 0x08 {
            out.push(0x5C);
            out.push(0x62);
        } else if b == 0x09 {
            out.push(0x5C);
            out.push(0x74);
        } else if b == 0x0A {
            out.push(0x5C);
            out.push(0x6E);
        } else if b == 0x0C {
            out.push(0x5C);
            out.push(0x66);
        } else if b == 0x0D {
            out.push(0x5C);
            out.push(0x72);
        } else if b < 0x20 {
            out.push(0x5C);
            out.push(0x75);
            out.push(0x30);
            out.push(0x30);
            out.push(hex_digit_char_exec(b / 16));
            out.push(hex_digit_char_exec(b % 16));
        } else {
            out.push(b);
        }
        proof {
            assert(s@.take(i + 1).drop_last() =~= s@.take(i as int));
            assert(s@.take(i + 1).last() == s@[i as int]);
            assert(out@ =~= old(out)@ + spec_escape(s@.take(i + 1)));
        }
        i = i + 1;
    }
    proof {
        assert(s@.take(s@.len() as int) =~= s@);
    }
}

// --- string literals ---

/// The rest of a JSON string literal, the opening quote already consumed:
/// the bytes decoded so far stand in `acc`. Yields the decoded bytes and the
/// index just past the closing quote. Escapes are decoded as JSON asks:
/// the two-character escapes, and `\uXXXX` with a following low surrogate
/// escape where `XXXX` is a high surrogate. Unescaped control bytes and
/// stray surrogates refuse the literal.
pub open spec fn parse_string_body(s: Seq<u8>, i: int, acc: Seq<u8>) -> Option<(Seq<u8>, int)>
    recommends
        0 <= i <= s.len(),
    decreases s.len() - i,
        when 0 <= i <= s.len()
{
    if i >= s.len() {
        None
    } else {
        let b = s[i];
        if b == 0x22 {
            Some((acc, i + 1))
        } else if b == 0x5C {
            if i + 1 >= s.len() {
                None
            } else {
                let e = s[i + 1];
                if e == 0x22 {
                    parse_string_body(s, i + 2, acc.push(0x22))
                } else if e == 0x5C {
                    parse_string_body(s, i + 2, acc.push(0x5C))
                } else if e == 0x2F {
                    parse_string_body(s, i + 2, acc.push(0x2F))
                } else if e == 0x62 {
                    parse_string_body(s, i + 2, acc.push(0x08))
                } else if e == 0x66 {
                    parse_string_body(s, i + 2, acc.push(0x0C))
                } else if e == 0x6E {
                    parse_string_body(s, i + 2, acc.push(0x0A))
                } else if e == 0x72 {
                    parse_string_body(s, i + 2, acc.push(0x0D))
                } else if e == 0x74 {
                    parse_string_body(s, i + 2, acc.push(0x09))
                } else if e == 0x75 {
                    match hex4_value(s, i + 2) {
                        None => None,
                        Some(h) => {
                            if 0xD800 <= h && h <= 0xDBFF {
                                if i + 8 <= s.len() && s[i + 6] == 0x5C && s[i + 7] == 0x75 {
                                    match hex4_value(s, i + 8) {
                                        None => None,
                                        Some(l) => {
                                            if 0xDC00 <= l && l <= 0xDFFF {
                                                parse_string_body(
                                                    s,
                                                    i + 12,
                                                    acc + utf8_encode(
                                                        (0x10000 + (h - 0xD800) * 0x400 + (l
                                                            - 0xDC00)) as u32,
                                                    ),
                                                )
                                            } else {
                                                None
                                            }
                                        },
                                    }
                                } else {
                                    None
                                }
                            } else if 0xDC00 <= h && h <= 0xDFFF {
                                None
                            } else {
                                parse_string_body(s, i + 6, acc + utf8_encode(h))
                            }
                        },
                    }
                } else {
                    None
                }
            }
        } else if b < 0x20 {
            None
        } else {
            parse_string_body(s, i + 1, acc.push(b))
        }
    }
}

pub proof fn lemma_parse_string_body_advances(s: Seq<u8>, i: int, acc: Seq<u8>)
    requires
        0 <= i <= s.len(),
    ensures
        parse_string_body(s, i, acc) matches Some(p) ==> i < p.1 <= s.len(),
    decreases s.len() - i,
{
    if i < s.len() {
        let b = s[i];
        if b == 0x22 {
        } else if b == 0x5C && i + 1 < s.len() {
            let e = s[i + 1];
            if e == 0x22 {
                lemma_parse_string_body_advances(s, i + 2, acc.push(0x22));
            } else if e == 0x5C {
                lemma_parse_string_body_advances(s, i + 2, acc.push(0x5C));
            } else if e == 0x2F {
                lemma_parse_string_body_advances(s, i + 2, acc.push(0x2F));
            } else if e == 0x62 {
                lemma_parse_string_body_advances(s, i + 2, acc.push(0x08));
            } else if e == 0x66 {
                lemma_parse_string_body_advances(s, i + 2, acc.push(0x0C));
            } else if e == 0x6E {
                lemma_parse_string_body_advances(s, i + 2, acc.push(0x0A));
            } else if e == 0x72 {
                lemma_parse_string_body_advances(s, i + 2, acc.push(0x0D));
            } else if e == 0x74 {
                lemma_parse_string_body_advances(s, i + 2, acc.push(0x09));
            } else if e == 0x75 {
                match hex4_value(s, i + 2) {
                    None => {},
                    Some(h) => {
                        if 0xD800 <= h && h <= 0xDBFF {
                            if i + 8 <= s.len() && s[i + 6] == 0x5C && s[i + 7] == 0x75 {
                                match hex4_value(s, i + 8) {
                                    None => {},
                                    Some(l) => {
                                        if 0xDC00 <= l && l <= 0xDFFF {
                                            lemma_parse_string_body_advances(
                                                s,
                                                i + 12,
                                                acc + utf8_encode(
                                                    (0x10000 + (h - 0xD800) * 0x400 + (l
                                                        - 0xDC00)) as u32,
                                                ),
                                            );
                                        }
                                    },
                                }
                            }
                        } else if 0xDC00 <= h && h <= 0xDFFF {
                        } else {
                            lemma_parse_string_body_advances(s, i + 6, acc + utf8_encode(h));
                        }
                    },
                }
            }
        } else if b < 0x20 {
        } else if b != 0x5C {
            lemma_parse_string_body_advances(s, i + 1, acc.push(b));
        }
    }
}

/// Parses the rest of a JSON string literal, the opening quote already
/// consumed, unescaping as it goes. Returns the decoded bytes and the index
/// just past the closing quote.
#[verifier::rlimit(100)]
pub fn parse_string_body_exec(s: &[u8], i: usize) -> (r: Option<(Vec<u8>, usize)>)
    requires
        i <= s@.len(),
    ensures
        match r {
            Some(p) => parse_string_body(s@, i as int, Seq::empty()) == Some(
                (p.0@, p.1 as int),
            ) && i < p.1 <= s@.len(),
            None => parse_string_body(s@, i as int, Seq::empty()) is None,
        },
{
    let mut j: usize = i;
    let mut acc: Vec<u8> = Vec::new();
    loop
        invariant
            i <= j <= s@.len(),
            parse_string_body(s@, i as int, Seq::empty()) == parse_string_body(
                s@,
                j as int,
                acc@,
            ),
        decreases s@.len() - j,
    {
        if j >= s.len() {
            return None;
        }
        let b = s[j];
        if b == 0x22 {
            proof {
                assert(parse_string_body(s@, j as int, acc@) == Some((acc@, j + 1)));
            }
            return Some((acc, j + 1));
        } else if b == 0x5C {
            if j + 1 >= s.len() {
                return None;
            }
            let e = s[j + 1];
            if e == 0x22 {
                acc.push(0x22);
                j = j + 2;
            } else if e == 0x5C {
                acc.push(0x5C);
                j = j + 2;
            } else if e == 0x2F {
                acc.push(0x2F);
                j = j + 2;
            } else if e == 0x62 {
                acc.push(0x08);
                j = j + 2;
            } else if e == 0x66 {
                acc.push(0x0C);
                j = j + 2;
            } else if e == 0x6E {
                acc.push(0x0A);
                j = j + 2;
            } else if e == 0x72 {
                acc.push(0x0D);
                j = j + 2;
            } else if e == 0x74 {
                acc.push(0x09);
                j = j + 2;
            } else if e == 0x75 {
                match parse_hex4(s, j + 2) {
                    None => {
                        return None;
                    },
                    Some(h) => {
                        if 0xD800 <= h && h <= 0xDBFF {
                            if s.len() - j >= 8 && s[j + 6] == 0x5C && s[j + 7] == 0x75 {
                                match parse_hex4(s, j + 8) {
                                    None => {
                                        return None;
                                    },
                                    Some(l) => {
                                        if 0xDC00 <= l && l <= 0xDFFF {
                                            let c: u32 = 0x10000 + (h - 0xD800) * 0x400 + (l
                                                - 0xDC00);
                                            push_utf8(&mut acc, c);
                                            j = j + 12;
                                        } else {
                                            return None;
                                        }
                                    },
                                }
                            } else {
                                return None;
                            }
                        } else if 0xDC00 <= h && h <= 0xDFFF {
                            return None;
                        } else {
                            push_utf8(&mut acc, h);
                            j = j + 6;
                        }
                    },
                }
            } else {
                return None;
            }
        } else if b < 0x20 {
            return None;
        } else {
            acc.push(b);
            j = j + 1;
        }
    }
}

#[verifier::rlimit(100)]
pub proof fn lemma_parse_escaped(b: Seq<u8>, i: int, j: int, s: Seq<u8>, acc: Seq<u8>)
    requires
        0 <= i <= j <= b.len(),
        b.subrange(i, j) == spec_escape(s).push(0x22),
    ensures
        parse_string_body(b, i, acc) == Some((acc + s, j)),
    decreases s.len(),
{
    let rest = b.subrange(i, j);
    if s.len() == 0 {
        assert(spec_escape(s) =~= Seq::<u8>::empty());
        assert(rest.len() == 1);
        assert(b[i] == 0x22) by {
            assert(rest[0] == 0x22);
        }
        assert(acc + s =~= acc);
        assert(parse_string_body(b, i, acc) == Some((acc, i + 1)));
    } else {
        lemma_spec_escape_first(s);
        let c = s[0];
        let e0 = escape_byte(c);
        let tail = spec_escape(s.drop_first()).push(0x22);
        let n: int = e0.len() as int;
        assert(rest =~= e0 + tail);
        assert(forall|k: int| 0 <= k < n ==> #[trigger] b[i + k] == e0[k]) by {
            assert(forall|k: int| 0 <= k < n ==> rest[k] == e0[k]);
        }
        assert(b[i] == e0[0]) by {
            assert(b[i + 0] == e0[0]);
        }
        assert(i + n <= j);
        assert(b.subrange(i + n, j) =~= tail) by {
            assert(forall|k: int|
                0 <= k < j - i - n ==> #[trigger] b.subrange(i + n, j)[k] == rest[n + k]);
        }
        if c == 0x22 {
            lemma_parse_escaped(b, i + 2, j, s.drop_first(), acc.push(0x22));
            assert(acc.push(0x22) + s.drop_first() =~= acc + s);
            assert(parse_string_body(b, i, acc) == parse_string_body(
                b,
                i + 2,
                acc.push(0x22),
            ));
        } else if c == 0x5C {
            lemma_parse_escaped(b, i + 2, j, s.drop_first(), acc.push(0x5C));
            assert(acc.push(0x5C) + s.drop_first() =~= acc + s);
            assert(parse_string_body(b, i, acc) == parse_string_body(
                b,
                i + 2,
                acc.push(0x5C),
            ));
        } else if c == 0x08 {
            lemma_parse_escaped(b, i + 2, j, s.drop_first(), acc.push(0x08));
            assert(acc.push(0x08) + s.drop_first() =~= acc + s);
            assert(parse_string_body(b, i, acc) == parse_string_body(
                b,
                i + 2,
                acc.push(0x08),
            ));
        } else if c == 0x09 {
            lemma_parse_escaped(b, i + 2, j, s.drop_first(), acc.push(0x09));
            assert(acc.push(0x09) + s.drop_first() =~= acc + s);
            assert(parse_string_body(b, i, acc) == parse_string_body(
                b,
                i + 2,
                acc.push(0x09),
            ));
        } else if c == 0x0A {
            lemma_parse_escaped(b, i + 2, j, s.drop_first(), acc.push(0x0A));
            assert(acc.push(0x0A) + s.drop_first() =~= acc + s);
            assert(parse_string_body(b, i, acc) == parse_string_body(
                b,
                i + 2,
                acc.push(0x0A),
            ));
        } else if c == 0x0C {
            lemma_parse_escaped(b, i + 2, j, s.drop_first(), acc.push(0x0C));
            assert(acc.push(0x0C) + s.drop_first() =~= acc + s);
            assert(parse_string_body(b, i, acc) == parse_string_body(
                b,
                i + 2,
                acc.push(0x0C),
            ));
        } else if c == 0x0D {
            lemma_parse_escaped(b, i + 2, j, s.drop_first(), acc.push(0x0D));
            assert(acc.push(0x0D) + s.drop_first() =~= acc + s);
            assert(parse_string_body(b, i, acc) == parse_string_body(
                b,
                i + 2,
                acc.push(0x0D),
            ));
        } else if c < 0x20 {
            assert(b[i] == 0x5C && b[i + 1] == 0x75 && b[i + 2] == 0x30 && b[i + 3] == 0x30);
            assert(b[i + 4] == hex_digit_char(c as int / 16));
            assert(b[i + 5] == hex_digit_char(c as int % 16));
            assert(hex_digit_value(0x30) == Some(0u32));
            assert(hex_digit_value(hex_digit_char(c as int / 16)) == Some(
                (c as int / 16) as u32,
            ));
            assert(hex_digit_value(hex_digit_char(c as int % 16)) == Some(
                (c as int % 16) as u32,
            ));
            assert(hex4_value(b, i + 2) == Some(c as u32)) by {
                assert((c as int / 16) * 16 + (c as int % 16) == c as int);
            }
            assert(utf8_encode(c as u32) =~= seq![c]);
            lemma_parse_escaped(b, i + 6, j, s.drop_first(), acc + utf8_encode(c as u32));
            assert(acc + utf8_encode(c as u32) =~= acc.push(c));
            assert(acc.push(c) + s.drop_first() =~= acc + s);
            assert(parse_string_body(b, i, acc) == parse_string_body(
                b,
                i + 6,
                acc + utf8_encode(c as u32),
            ));
        } else {
            assert(b[i] == c);
            lemma_parse_escaped(b, i + 1, j, s.drop_first(), acc.push(c));
            assert(acc.push(c) + s.drop_first() =~= acc + s);
            assert(parse_string_body(b, i, acc) == parse_string_body(b, i + 1, acc.push(c)));
        }
    }
}

/// Bytes the escaper leaves exactly as they are.
pub open spec fn is_plain_byte(b: u8) -> bool {
    0x20 <= b && b != 0x22 && b != 0x5C
}

pub proof fn lemma_spec_escape_plain(s: Seq<u8>)
    requires
        forall|k: int| 0 <= k < s.len() ==> is_plain_byte(#[trigger] s[k]),
    ensures
        spec_escape(s) == s,
    decreases s.len(),
{
    if s.len() == 0 {
        assert(spec_escape(s) =~= s);
    } else {
        assert forall|k: int| 0 <= k < s.drop_last().len() implies is_plain_byte(
            #[trigger] s.drop_last()[k],
        ) by {
            assert(s.drop_last()[k] == s[k]);
        }
        lemma_spec_escape_plain(s.drop_last());
        assert(is_plain_byte(s.last()));
        assert(escape_byte(s.last()) =~= seq![s.last()]);
        assert(spec_escape(s) =~= s);
    }
}

/// Law: escaping round-trips through the string grammar. For every byte
/// string, its escaping followed by a closing quote parses back to exactly
/// the original bytes, consuming the whole literal. This ties the request
/// encoder's escaping to the reply parser: whatever one writes, the other
/// reads back unchanged.
pub proof fn lemma_escape_round_trip(s: Seq<u8>)
    ensures
        parse_string_body(spec_escape(s).push(0x22), 0, Seq::empty()) == Some(
            (s, spec_escape(s).len() as int + 1),
        ),
{
    let b = spec_escape(s).push(0x22);
    assert(b.subrange(0, b.len() as int) =~= b);
    lemma_parse_escaped(b, 0, b.len() as int, s, Seq::empty());
    assert(Seq::<u8>::empty() + s =~= s);
}

// --- arrays of strings ---

/// The elements of a JSON array of strings, the opening bracket already
/// consumed and at least one element still expected; `acc` holds the
/// elements decoded so far. Yields all elements and the index just past the
/// closing bracket.
pub open spec fn parse_elements(s: Seq<u8>, i: int, acc: Seq<Seq<u8>>) -> Option<
    (Seq<Seq<u8>>, int),
>
    recommends
        0 <= i <= s.len(),
    decreases s.len() - i,
        when 0 <= i <= s.len()
{
    let j: int = skip_ws(s, i);
    if j < s.len() && s[j] == 0x22 {
        match parse_string_body(s, j + 1, Seq::empty()) {
            None => None,
            Some((elem, k)) => {
                let m: int = skip_ws(s, k);
                if m < s.len() && s[m] == 0x2C {
                    proof {
                        lemma_skip_ws_bounds(s, i);
                        lemma_parse_string_body_advances(s, j + 1, Seq::empty());
                        lemma_skip_ws_bounds(s, k);
                    }
                    parse_elements(s, m + 1, acc.push(elem))
                } else if m < s.len() && s[m] == 0x5D {
                    Some((acc.push(elem), m + 1))
                } else {
                    None
                }
            },
        }
    } else {
        None
    }
}

/// Parses the elements of a JSON array of strings, the opening bracket
/// already consumed and at least one element expected.
pub fn parse_elements_exec(s: &[u8], i: usize) -> (r: Option<(Vec<Vec<u8>>, usize)>)
    requires
        i <= s@.len(),
    ensures
        match r {
            Some(p) => parse_elements(s@, i as int, Seq::empty()) == Some(
                (p.0.deep_view(), p.1 as int),
            ) && i < p.1 <= s@.len(),
            None => parse_elements(s@, i as int, Seq::empty()) is None,
        },
{
    let mut j: usize = i;
    let mut acc: Vec<Vec<u8>> = Vec::new();
    proof {
        assert(acc.deep_view() =~= Seq::<Seq<u8>>::empty());
    }
    loop
        invariant
            i <= j <= s@.len(),
            parse_elements(s@, i as int, Seq::empty()) == parse_elements(
                s@,
                j as int,
                acc.deep_view(),
            ),
        decreases s@.len() - j,
    {
        let t = skip_ws_exec(s, j);
        if t >= s.len() {
            return None;
        }
        if s[t] == 0x22 {
            match parse_string_body_exec(s, t + 1) {
                None => {
                    return None;
                },
                Some((elem, k)) => {
                    let m = skip_ws_exec(s, k);
                    if m < s.len() && s[m] == 0x2C {
                        proof {
                            assert(parse_elements(s@, j as int, acc.deep_view())
                                == parse_elements(s@, m + 1, acc.deep_view().push(elem@)));
                            assert(elem.deep_view() =~= elem@);
                        }
                        let ghost pre: Seq<Seq<u8>> = acc.deep_view();
                        acc.push(elem);
                        proof {
                            assert(acc.deep_view() =~= pre.push(elem@));
                        }
                        j = m + 1;
                    } else if m < s.len() && s[m] == 0x5D {
                        proof {
                            assert(parse_elements(s@, j as int, acc.deep_view()) == Some(
                                (acc.deep_view().push(elem@), m + 1),
                            ));
                            assert(elem.deep_view() =~= elem@);
                        }
                        let ghost pre: Seq<Seq<u8>> = acc.deep_view();
                        acc.push(elem);
                        proof {
                            assert(acc.deep_view() =~= pre.push(elem@));
                        }
                        return Some((acc, m + 1));
                    } else {
                        return None;
                    }
                },
            }
        } else {
            return None;
        }
    }
}

// --- canonical renderings, and that they parse back ---

/// The canonical rendering of a string value: quoted and escaped.
pub open spec fn spec_render_string(s: Seq<u8>) -> Seq<u8> {
    seq![0x22] + spec_escape(s) + seq![0x22]
}

/// The canonical rendering of the inside of a non-empty array of strings:
/// the rendered elements, comma separated.
pub open spec fn spec_render_elements(ms: Seq<Seq<u8>>) -> Seq<u8>
    recommends
        ms.len() > 0,
    decreases ms.len(),
{
    if ms.len() <= 1 {
        spec_render_string(ms[0])
    } else {
        spec_render_string(ms[0]) + seq![0x2C] + spec_render_elements(ms.drop_first())
    }
}

/// The canonical rendering of a whole array of strings, brackets included.
pub open spec fn spec_render_string_array(ms: Seq<Seq<u8>>) -> Seq<u8> {
    if ms.len() == 0 {
        seq![0x5B, 0x5D]
    } else {
        seq![0x5B] + spec_render_elements(ms) + seq![0x5D]
    }
}

/// Law: a rendered non-empty array of strings parses back to exactly its
/// elements. With the rendered elements and the closing bracket standing at
/// `i..j` in a buffer, the array grammar decodes every element unchanged and
/// stops just past the bracket.
#[verifier::rlimit(100)]
pub proof fn lemma_parse_rendered_elements(
    b: Seq<u8>,
    i: int,
    j: int,
    ms: Seq<Seq<u8>>,
    acc: Seq<Seq<u8>>,
)
    requires
        ms.len() > 0,
        0 <= i <= j <= b.len(),
        b.subrange(i, j) == spec_render_elements(ms).push(0x5D),
    ensures
        parse_elements(b, i, acc) == Some((acc + ms, j)),
    decreases ms.len(),
{
    let rest = b.subrange(i, j);
    let e0 = spec_render_string(ms[0]);
    let n: int = e0.len() as int;
    assert(forall|k: int| 0 <= k < j - i ==> #[trigger] b[i + k] == rest[k]);
    if ms.len() == 1 {
        assert(rest =~= e0.push(0x5D));
        assert(b[i] == 0x22) by {
            assert(b[i + 0] == rest[0]);
            assert(rest[0] == e0[0]);
        }
        assert(skip_ws(b, i) == i);
        assert(b.subrange(i + 1, i + n) =~= spec_escape(ms[0]).push(0x22)) by {
            assert(forall|k: int|
                0 <= k < n - 1 ==> #[trigger] b.subrange(i + 1, i + n)[k] == rest[1 + k]);
        }
        lemma_parse_escaped(b, i + 1, i + n, ms[0], Seq::empty());
        assert(b[i + n] == rest[n]);
        assert(rest[n] == 0x5D);
        assert(skip_ws(b, i + n) == i + n);
        assert(Seq::<u8>::empty() + ms[0] =~= ms[0]);
        assert(acc.push(ms[0]) =~= acc + ms);
        assert(parse_elements(b, i, acc) == Some((acc.push(ms[0]), i + n + 1)));
    } else {
        let tail2 = spec_render_elements(ms.drop_first()).push(0x5D);
        assert(rest =~= e0 + seq![0x2C] + tail2);
        assert(b[i] == 0x22) by {
            assert(b[i + 0] == rest[0]);
            assert(rest[0] == e0[0]);
        }
        assert(skip_ws(b, i) == i);
        assert(b.subrange(i + 1, i + n) =~= spec_escape(ms[0]).push(0x22)) by {
            assert(forall|k: int|
                0 <= k < n - 1 ==> #[trigger] b.subrange(i + 1, i + n)[k] == rest[1 + k]);
        }
        lemma_parse_escaped(b, i + 1, i + n, ms[0], Seq::empty());
        assert(b[i + n] == rest[n]);
        assert(rest[n] == 0x2C);
        assert(skip_ws(b, i + n) == i + n);
        assert(b.subrange(i + n + 1, j) =~= tail2) by {
            assert(forall|k: int|
                0 <= k < j - i - n - 1 ==> #[trigger] b.subrange(i + n + 1, j)[k] == rest[n + 1
                    + k]);
        }
        lemma_parse_rendered_elements(b, i + n + 1, j, ms.drop_first(), acc.push(ms[0]));
        assert(Seq::<u8>::empty() + ms[0] =~= ms[0]);
        assert(acc.push(ms[0]) + ms.drop_first() =~= acc + ms);
        assert(parse_elements(b, i, acc) == parse_elements(b, i + n + 1, acc.push(ms[0])));
    }
}

} // verus!
