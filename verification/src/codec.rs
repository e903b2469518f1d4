//! Persistence text format for curves and configurations.
//!
//! A configuration is stored as one JSON document,
//! `{"curves":[...],"default_curve_index":N}` with `N` a number or
//! `null`, and each curve as `{"name":"...","points":[{"temp":T,"duty":D},...]}`.
//! The encoder emits compact documents, escaping `"` and `\` inside
//! strings; the parser also accepts blanks between tokens, the control
//! escapes `\n` `\t` `\r` `\b` `\f`, `\/`, and four-digit `\u` codes.
//! Decoding inverts encoding exactly: see `lemma_config_round_trip`.

use vstd::prelude::*;
use crate::fan::FanPoint;
use crate::fan::FanCurve;
use crate::fan::FanCurveConfig;
use crate::errors::FanCurveError;

verus! {

/// The mathematical content of one stored curve.
pub ghost struct CurveModel {
    pub name: Seq<char>,
    pub points: Seq<FanPoint>,
}

/// The mathematical content of one stored configuration.
pub ghost struct ConfigModel {
    pub curves: Seq<CurveModel>,
    pub default_curve_index: Option<usize>,
}

/// What a curve value stands for in the stored format.
pub open spec fn curve_model(c: &FanCurve) -> CurveModel {
    CurveModel { name: c.spec_name(), points: c.spec_points() }
}

/// What a configuration value stands for in the stored format.
pub open spec fn config_model(c: &FanCurveConfig) -> ConfigModel {
    ConfigModel {
        curves: Seq::new(c.curves@.len(), |i: int| curve_model(&c.curves@[i])),
        default_curve_index: c.default_curve_index,
    }
}

/// Blank characters the parser skips between tokens.
pub open spec fn is_ws(c: char) -> bool {
    c == ' ' || c == '\n' || c == '\t' || c == '\r'
}

/// A decimal digit.
pub open spec fn is_digit(c: char) -> bool {
    48 <= c as u32 <= 57
}

/// The numeric value of a decimal digit character.
pub open spec fn digit_val(c: char) -> int {
    c as u32 - 48
}

/// The character for a decimal digit value.
pub open spec fn digit_char(d: int) -> char {
    if d == 0 {
        '0'
    } else if d == 1 {
        '1'
    } else if d == 2 {
        '2'
    } else if d == 3 {
        '3'
    } else if d == 4 {
        '4'
    } else if d == 5 {
        '5'
    } else if d == 6 {
        '6'
    } else if d == 7 {
        '7'
    } else if d == 8 {
        '8'
    } else {
        '9'
    }
}

proof fn lemma_digit_char(d: int)
    requires
        0 <= d <= 9,
    ensures
        is_digit(digit_char(d)),
        digit_val(digit_char(d)) == d,
{
}

// ---------------------------------------------------------------------
// Spec-level encoder
// ---------------------------------------------------------------------
/// Decimal digits of `n`, most significant first.
pub open spec fn enc_nat(n: nat) -> Seq<char>
    decreases n,
{
    if n < 10 {
        seq![digit_char(n as int)]
    } else {
        enc_nat(n / 10).push(digit_char((n % 10) as int))
    }
}

/// A decimal integer, with a leading minus sign when negative.
pub open spec fn enc_int(v: int) -> Seq<char> {
    if v < 0 {
        seq!['-'] + enc_nat((-v) as nat)
    } else {
        enc_nat(v as nat)
    }
}

/// A string body with `"` and `\` escaped by a backslash.
pub open spec fn enc_escaped(name: Seq<char>) -> Seq<char>
    decreases name.len(),
{
    if name.len() == 0 {
        Seq::empty()
    } else {
        enc_char(name[0]) + enc_escaped(name.drop_first())
    }
}

/// One string-body character, escaped if it is `"` or `\`.
pub open spec fn enc_char(c: char) -> Seq<char> {
    if c == '"' || c == '\\' {
        seq!['\\', c]
    } else {
        seq![c]
    }
}

// ---------------------------------------------------------------------
// Spec-level parser, consuming from the front of a character sequence
// ---------------------------------------------------------------------
/// Drops leading blanks.
pub open spec fn skip_ws(s: Seq<char>) -> Seq<char>
    decreases s.len(),
{
    if s.len() > 0 && is_ws(s[0]) {
        skip_ws(s.drop_first())
    } else {
        s
    }
}

/// One punctuation character, after blanks.
pub open spec fn parse_sym(s: Seq<char>, c: char) -> Option<Seq<char>> {
    let t = skip_ws(s);
    if t.len() > 0 && t[0] == c {
        Some(t.drop_first())
    } else {
        None
    }
}

/// An exact word, with no blanks inside.
pub open spec fn parse_exact(s: Seq<char>, w: Seq<char>) -> Option<Seq<char>> {
    if w.len() <= s.len() && s.take(w.len() as int) == w {
        Some(s.skip(w.len() as int))
    } else {
        None
    }
}

/// A run of digits folded into `acc`; stops at the first non-digit.
pub open spec fn parse_digits(s: Seq<char>, acc: nat) -> (nat, Seq<char>)
    decreases s.len(),
{
    if s.len() > 0 && is_digit(s[0]) {
        parse_digits(s.drop_first(), acc * 10 + digit_val(s[0]) as nat)
    } else {
        (acc, s)
    }
}

/// A decimal natural number, after blanks.
pub open spec fn parse_nat(s: Seq<char>) -> Option<(nat, Seq<char>)> {
    let t = skip_ws(s);
    if t.len() > 0 && is_digit(t[0]) {
        Some(parse_digits(t, 0))
    } else {
        None
    }
}

/// A decimal integer with an optional leading minus sign, after blanks.
pub open spec fn parse_int(s: Seq<char>) -> Option<(int, Seq<char>)> {
    let t = skip_ws(s);
    if t.len() > 0 && t[0] == '-' {
        if t.len() > 1 && is_digit(t[1]) {
            let (n, r) = parse_digits(t.drop_first(), 0);
            Some((-(n as int), r))
        } else {
            None
        }
    } else if t.len() > 0 && is_digit(t[0]) {
        let (n, r) = parse_digits(t, 0);
        Some((n as int, r))
    } else {
        None
    }
}

/// A quoted string: a `"`, then characters with backslash taking the
/// next character literally, up to the closing `"`.
pub open spec fn parse_string(s: Seq<char>) -> Option<(Seq<char>, Seq<char>)> {
    let t = skip_ws(s);
    if t.len() > 0 && t[0] == '"' {
        parse_str_body(t.drop_first())
    } else {
        None
    }
}

/// The escape letters that stand for one control character.
pub open spec fn is_control_escape(e: char) -> bool {
    e == 'n' || e == 't' || e == 'r' || e == 'b' || e == 'f'
}

/// The control character an escape letter stands for.
pub open spec fn control_escape_char(e: char) -> char {
    if e == 'n' {
        '\n'
    } else if e == 't' {
        '\t'
    } else if e == 'r' {
        '\r'
    } else if e == 'b' {
        '\u{0008}'
    } else {
        '\u{000C}'
    }
}

/// A hexadecimal digit.
pub open spec fn is_hex(c: char) -> bool {
    is_digit(c) || 97 <= c as u32 <= 102 || 65 <= c as u32 <= 70
}

/// The numeric value of a hexadecimal digit character.
pub open spec fn hex_val(c: char) -> int {
    if is_digit(c) {
        c as u32 - 48
    } else if 97 <= c as u32 <= 102 {
        c as u32 - 87
    } else {
        c as u32 - 55
    }
}

/// The code of a four-digit hexadecimal escape.
pub open spec fn hex4_val(a: char, b: char, c: char, d: char) -> int {
    hex_val(a) * 4096 + hex_val(b) * 256 + hex_val(c) * 16 + hex_val(d)
}

/// Whether a code is a scalar value — one a character can carry (not a
/// surrogate, not beyond the last code point).
pub open spec fn is_scalar_code(v: int) -> bool {
    0 <= v < 0xD800 || 0xE000 <= v <= 0x10FFFF
}

/// The character with the given code.
pub open spec fn char_of_code(v: int) -> char {
    (v as u32) as char
}

/// The characters of a string body after the opening quote.  A backslash
/// opens an escape: `\"`, `\\` and `\/` stand for the second character
/// itself, the escape letters for their control characters, and `\u`
/// with four hexadecimal digits for the character with that code; any
/// other escape, or a code no character can carry, fails the parse.
pub open spec fn parse_str_body(s: Seq<char>) -> Option<(Seq<char>, Seq<char>)>
    decreases s.len(),
{
    if s.len() == 0 {
        None
    } else if s[0] == '"' {
        Some((Seq::empty(), s.drop_first()))
    } else if s[0] == '\\' {
        if s.len() >= 2 && (s[1] == '"' || s[1] == '\\' || s[1] == '/') {
            match parse_str_body(s.skip(2)) {
                Some((u, r)) => Some((seq![s[1]] + u, r)),
                None => None,
            }
        } else if s.len() >= 2 && is_control_escape(s[1]) {
            match parse_str_body(s.skip(2)) {
                Some((u, r)) => Some((seq![control_escape_char(s[1])] + u, r)),
                None => None,
            }
        } else if s.len() >= 6 && s[1] == 'u' && is_hex(s[2]) && is_hex(s[3]) && is_hex(s[4])
            && is_hex(s[5]) && is_scalar_code(hex4_val(s[2], s[3], s[4], s[5])) {
            match parse_str_body(s.skip(6)) {
                Some((u, r)) => Some(
                    (seq![char_of_code(hex4_val(s[2], s[3], s[4], s[5]))] + u, r),
                ),
                None => None,
            }
        } else {
            None
        }
    } else {
        match parse_str_body(s.drop_first()) {
            Some((u, r)) => Some((seq![s[0]] + u, r)),
            None => None,
        }
    }
}

// ---------------------------------------------------------------------
// Round-trip lemmas for the primitives
// ---------------------------------------------------------------------
/// One punctuation character reads back from its encoding.
proof fn lemma_rt_sym(c: char, rest: Seq<char>)
    requires
        !is_ws(c),
    ensures
        parse_sym(seq![c] + rest, c) == Some(rest),
{
    let s = seq![c] + rest;
    assert(s[0] == c);
    lemma_skip_ws_clean(s);
    assert(s.drop_first() =~= rest);
}

/// An exact word reads back from its encoding.
proof fn lemma_rt_exact(w: Seq<char>, rest: Seq<char>)
    ensures
        parse_exact(w + rest, w) == Some(rest),
{
    let s = w + rest;
    assert(s.take(w.len() as int) =~= w);
    assert(s.skip(w.len() as int) =~= rest);
}

/// A string body reads back from its escaped encoding up to the closing
/// quote.
proof fn lemma_rt_str_body(name: Seq<char>, rest: Seq<char>)
    ensures
        parse_str_body(enc_escaped(name) + (seq!['"'] + rest)) == Some((name, rest)),
    decreases name.len(),
{
    let s = enc_escaped(name) + (seq!['"'] + rest);
    if name.len() == 0 {
        assert(s =~= seq!['"'] + rest);
        assert(s[0] == '"');
        assert(s.drop_first() =~= rest);
        assert(parse_str_body(s) == Some((Seq::<char>::empty(), rest)));
        assert(name =~= Seq::<char>::empty());
    } else {
        let c = name[0];
        let tail = name.drop_first();
        lemma_rt_str_body(tail, rest);
        let inner = enc_escaped(tail) + (seq!['"'] + rest);
        if c == '"' || c == '\\' {
            assert(s =~= seq!['\\', c] + inner);
            assert(s[0] == '\\' && s[1] == c);
            assert(s.len() >= 2);
            assert(s.skip(2) =~= inner);
            assert(parse_str_body(s) == Some((seq![c] + tail, rest)));
            assert(seq![c] + tail =~= name);
        } else {
            assert(s =~= seq![c] + inner);
            assert(s[0] == c);
            assert(s.drop_first() =~= inner);
            assert(parse_str_body(s) == Some((seq![c] + tail, rest)));
            assert(seq![c] + tail =~= name);
        }
    }
}

/// A quoted string reads back from its encoding.
proof fn lemma_rt_string(name: Seq<char>, rest: Seq<char>)
    ensures
        parse_string(seq!['"'] + enc_escaped(name) + seq!['"'] + rest) == Some((name, rest)),
{
    let s = seq!['"'] + enc_escaped(name) + seq!['"'] + rest;
    assert(s[0] == '"');
    lemma_skip_ws_clean(s);
    assert(s.drop_first() =~= enc_escaped(name) + (seq!['"'] + rest));
    lemma_rt_str_body(name, rest);
}

// ---------------------------------------------------------------------
// Consumed lengths (for the termination of the list parsers)
// ---------------------------------------------------------------------
proof fn lemma_skip_ws_len(s: Seq<char>)
    ensures
        skip_ws(s).len() <= s.len(),
    decreases s.len(),
{
    if s.len() > 0 && is_ws(s[0]) {
        lemma_skip_ws_len(s.drop_first());
    }
}

proof fn lemma_parse_sym_len(s: Seq<char>, c: char)
    ensures
        parse_sym(s, c) matches Some(r) ==> r.len() < s.len(),
{
    lemma_skip_ws_len(s);
}

proof fn lemma_parse_exact_len(s: Seq<char>, w: Seq<char>)
    ensures
        parse_exact(s, w) matches Some(r) ==> r.len() <= s.len(),
{
}

proof fn lemma_parse_digits_len(s: Seq<char>, acc: nat)
    ensures
        parse_digits(s, acc).1.len() <= s.len(),
    decreases s.len(),
{
    if s.len() > 0 && is_digit(s[0]) {
        lemma_parse_digits_len(s.drop_first(), acc * 10 + digit_val(s[0]) as nat);
    }
}

proof fn lemma_parse_int_len(s: Seq<char>)
    ensures
        parse_int(s) matches Some((v, r)) ==> r.len() < s.len(),
{
    lemma_skip_ws_len(s);
    let t = skip_ws(s);
    if t.len() > 0 && t[0] == '-' && t.len() > 1 && is_digit(t[1]) {
        lemma_parse_digits_len(t.drop_first().drop_first(), digit_val(t[1]) as nat);
        assert(t.drop_first().drop_first().len() < s.len());
    } else if t.len() > 0 && is_digit(t[0]) {
        lemma_parse_digits_len(t.drop_first(), digit_val(t[0]) as nat);
    }
}

proof fn lemma_parse_nat_len(s: Seq<char>)
    ensures
        parse_nat(s) matches Some((v, r)) ==> r.len() < s.len(),
{
    lemma_skip_ws_len(s);
    let t = skip_ws(s);
    if t.len() > 0 && is_digit(t[0]) {
        lemma_parse_digits_len(t.drop_first(), digit_val(t[0]) as nat);
    }
}

proof fn lemma_parse_str_body_len(s: Seq<char>)
    ensures
        parse_str_body(s) matches Some((u, r)) ==> r.len() < s.len(),
    decreases s.len(),
{
    if s.len() == 0 {
    } else if s[0] == '"' {
    } else if s[0] == '\\' {
        if s.len() >= 2 {
            lemma_parse_str_body_len(s.skip(2));
        }
        if s.len() >= 6 {
            lemma_parse_str_body_len(s.skip(6));
        }
    } else {
        lemma_parse_str_body_len(s.drop_first());
    }
}

proof fn lemma_parse_string_len(s: Seq<char>)
    ensures
        parse_string(s) matches Some((u, r)) ==> r.len() < s.len(),
{
    lemma_skip_ws_len(s);
    let t = skip_ws(s);
    if t.len() > 0 && t[0] == '"' {
        lemma_parse_str_body_len(t.drop_first());
    }
}

proof fn lemma_parse_point_len(s: Seq<char>)
    ensures
        parse_point(s) matches Some((p, r)) ==> r.len() < s.len(),
{
    lemma_parse_sym_len(s, '{');
    if let Some(r1) = parse_sym(s, '{') {
        lemma_skip_ws_len(r1);
        lemma_parse_exact_len(skip_ws(r1), key_temp());
        if let Some(r2) = parse_exact(skip_ws(r1), key_temp()) {
            lemma_parse_sym_len(r2, ':');
            if let Some(r3) = parse_sym(r2, ':') {
                lemma_parse_int_len(r3);
                if let Some((t, r4)) = parse_int(r3) {
                    lemma_parse_sym_len(r4, ',');
                    if let Some(r5) = parse_sym(r4, ',') {
                        lemma_skip_ws_len(r5);
                        lemma_parse_exact_len(skip_ws(r5), key_duty());
                        if let Some(r6) = parse_exact(skip_ws(r5), key_duty()) {
                            lemma_parse_sym_len(r6, ':');
                            if let Some(r7) = parse_sym(r6, ':') {
                                lemma_parse_nat_len(r7);
                                if let Some((d, r8)) = parse_nat(r7) {
                                    lemma_parse_sym_len(r8, '}');
                                }
                            }
                        }
                    }
                }
            }
        }
    }
}

// ---------------------------------------------------------------------
// Document structure
// ---------------------------------------------------------------------
/// The key `"temp"`.
pub open spec fn key_temp() -> Seq<char> {
    seq!['"', 't', 'e', 'm', 'p', '"']
}

/// The key `"duty"`.
pub open spec fn key_duty() -> Seq<char> {
    seq!['"', 'd', 'u', 't', 'y', '"']
}

/// The key `"name"`.
pub open spec fn key_name() -> Seq<char> {
    seq!['"', 'n', 'a', 'm', 'e', '"']
}

/// The key `"points"`.
pub open spec fn key_points() -> Seq<char> {
    seq!['"', 'p', 'o', 'i', 'n', 't', 's', '"']
}

/// The key `"curves"`.
pub open spec fn key_curves() -> Seq<char> {
    seq!['"', 'c', 'u', 'r', 'v', 'e', 's', '"']
}

/// The key `"default_curve_index"`.
pub open spec fn key_default() -> Seq<char> {
    seq![
        '"',
        'd',
        'e',
        'f',
        'a',
        'u',
        'l',
        't',
        '_',
        'c',
        'u',
        'r',
        'v',
        'e',
        '_',
        'i',
        'n',
        'd',
        'e',
        'x',
        '"',
    ]
}

/// The word `null`.
pub open spec fn kw_null() -> Seq<char> {
    seq!['n', 'u', 'l', 'l']
}

/// One encoded point: `{"temp":T,"duty":D}`.
pub open spec fn enc_point(p: FanPoint) -> Seq<char> {
    seq!['{'] + key_temp() + seq![':'] + enc_int(p.temp as int) + seq![','] + key_duty()
        + seq![':'] + enc_nat(p.duty as nat) + seq!['}']
}

/// An encoded point list: `[P,...]`.
pub open spec fn enc_points(ps: Seq<FanPoint>) -> Seq<char> {
    if ps.len() == 0 {
        seq!['[', ']']
    } else {
        seq!['['] + enc_point(ps[0]) + enc_points_tail(ps.drop_first())
    }
}

/// The elements after the first: `,P` repeated, then `]`.
pub open spec fn enc_points_tail(ps: Seq<FanPoint>) -> Seq<char>
    decreases ps.len(),
{
    if ps.len() == 0 {
        seq![']']
    } else {
        seq![','] + enc_point(ps[0]) + enc_points_tail(ps.drop_first())
    }
}

/// One encoded curve: `{"name":"...","points":[...]}`.
pub open spec fn enc_curve(c: CurveModel) -> Seq<char> {
    seq!['{'] + key_name() + seq![':', '"'] + enc_escaped(c.name) + seq!['"', ','] + key_points()
        + seq![':'] + enc_points(c.points) + seq!['}']
}

/// An encoded curve list: `[C,...]`.
pub open spec fn enc_curves(cs: Seq<CurveModel>) -> Seq<char> {
    if cs.len() == 0 {
        seq!['[', ']']
    } else {
        seq!['['] + enc_curve(cs[0]) + enc_curves_tail(cs.drop_first())
    }
}

/// The curves after the first: `,C` repeated, then `]`.
pub open spec fn enc_curves_tail(cs: Seq<CurveModel>) -> Seq<char>
    decreases cs.len(),
{
    if cs.len() == 0 {
        seq![']']
    } else {
        seq![','] + enc_curve(cs[0]) + enc_curves_tail(cs.drop_first())
    }
}

/// The encoded default selection: an index or `null`.
pub open spec fn enc_default(d: Option<usize>) -> Seq<char> {
    match d {
        Some(i) => enc_nat(i as nat),
        None => kw_null(),
    }
}

/// One encoded configuration document:
/// `{"curves":[...],"default_curve_index":N}`.
pub open spec fn enc_config(m: ConfigModel) -> Seq<char> {
    seq!['{'] + key_curves() + seq![':'] + enc_curves(m.curves) + seq![','] + key_default()
        + seq![':'] + enc_default(m.default_curve_index) + seq!['}']
}

/// A key followed by a colon and an integer value.
pub open spec fn parse_kv_int(s: Seq<char>, key: Seq<char>) -> Option<(int, Seq<char>)> {
    match parse_exact(skip_ws(s), key) {
        Some(r) => match parse_sym(r, ':') {
            Some(r2) => parse_int(r2),
            None => None,
        },
        None => None,
    }
}

/// A key followed by a colon and a natural value.
pub open spec fn parse_kv_nat(s: Seq<char>, key: Seq<char>) -> Option<(nat, Seq<char>)> {
    match parse_exact(skip_ws(s), key) {
        Some(r) => match parse_sym(r, ':') {
            Some(r2) => parse_nat(r2),
            None => None,
        },
        None => None,
    }
}

/// One point object; its temperature must fit `i16` and its duty `u16`.
pub open spec fn parse_point(s: Seq<char>) -> Option<(FanPoint, Seq<char>)> {
    match parse_sym(s, '{') {
        Some(r1) => match parse_kv_int(r1, key_temp()) {
            Some((t, r2)) => if -32768 <= t <= 32767 {
                match parse_sym(r2, ',') {
                    Some(r3) => match parse_kv_nat(r3, key_duty()) {
                        Some((d, r4)) => if d <= 65535 {
                            match parse_sym(r4, '}') {
                                Some(r5) => Some((FanPoint { temp: t as i16, duty: d as u16 }, r5)),
                                None => None,
                            }
                        } else {
                            None
                        },
                        None => None,
                    },
                    None => None,
                }
            } else {
                None
            },
            None => None,
        },
        None => None,
    }
}

/// A point list.
pub open spec fn parse_points(s: Seq<char>) -> Option<(Seq<FanPoint>, Seq<char>)> {
    match parse_sym(s, '[') {
        Some(r) => {
            let t = skip_ws(r);
            if t.len() > 0 && t[0] == ']' {
                Some((Seq::empty(), t.drop_first()))
            } else {
                match parse_point(r) {
                    Some((p, r2)) => match parse_points_tail(r2) {
                        Some((ps, r3)) => Some((seq![p] + ps, r3)),
                        None => None,
                    },
                    None => None,
                }
            }
        },
        None => None,
    }
}

/// The points after the first: a comma and a point, repeated, up to `]`.
pub open spec fn parse_points_tail(s: Seq<char>) -> Option<(Seq<FanPoint>, Seq<char>)>
    decreases s.len(),
    via parse_points_tail_dec
{
    let t = skip_ws(s);
    if t.len() > 0 && t[0] == ']' {
        Some((Seq::empty(), t.drop_first()))
    } else if t.len() > 0 && t[0] == ',' {
        match parse_point(t.drop_first()) {
            Some((p, r)) => match parse_points_tail(r) {
                Some((ps, r2)) => Some((seq![p] + ps, r2)),
                None => None,
            },
            None => None,
        }
    } else {
        None
    }
}

#[via_fn]
proof fn parse_points_tail_dec(s: Seq<char>) {
    lemma_skip_ws_len(s);
    let t = skip_ws(s);
    if t.len() > 0 && t[0] == ',' {
        lemma_parse_point_len(t.drop_first());
    }
}

/// One curve object.
pub open spec fn parse_curve(s: Seq<char>) -> Option<(CurveModel, Seq<char>)> {
    match parse_sym(s, '{') {
        Some(r1) => match parse_exact(skip_ws(r1), key_name()) {
            Some(r2) => match parse_sym(r2, ':') {
                Some(r3) => match parse_string(r3) {
                    Some((name, r4)) => match parse_sym(r4, ',') {
                        Some(r5) => match parse_exact(skip_ws(r5), key_points()) {
                            Some(r6) => match parse_sym(r6, ':') {
                                Some(r7) => match parse_points(r7) {
                                    Some((ps, r8)) => match parse_sym(r8, '}') {
                                        Some(r9) => Some(
                                            (CurveModel { name, points: ps }, r9),
                                        ),
                                        None => None,
                                    },
                                    None => None,
                                },
                                None => None,
                            },
                            None => None,
                        },
                        None => None,
                    },
                    None => None,
                },
                None => None,
            },
            None => None,
        },
        None => None,
    }
}

proof fn lemma_parse_points_len(s: Seq<char>)
    ensures
        parse_points(s) matches Some((ps, r)) ==> r.len() < s.len(),
    decreases s.len(),
{
    lemma_parse_sym_len(s, '[');
    if let Some(r) = parse_sym(s, '[') {
        lemma_skip_ws_len(r);
        lemma_parse_point_len(r);
        if let Some((p, r2)) = parse_point(r) {
            lemma_parse_points_tail_len(r2);
        }
    }
}

proof fn lemma_parse_points_tail_len(s: Seq<char>)
    ensures
        parse_points_tail(s) matches Some((ps, r)) ==> r.len() < s.len(),
    decreases s.len(),
{
    lemma_skip_ws_len(s);
    let t = skip_ws(s);
    if t.len() > 0 && t[0] == ',' {
        lemma_parse_point_len(t.drop_first());
        if let Some((p, r)) = parse_point(t.drop_first()) {
            lemma_parse_points_tail_len(r);
        }
    }
}

proof fn lemma_parse_curve_len(s: Seq<char>)
    ensures
        parse_curve(s) matches Some((c, r)) ==> r.len() < s.len(),
{
    lemma_parse_sym_len(s, '{');
    if let Some(r1) = parse_sym(s, '{') {
        lemma_skip_ws_len(r1);
        lemma_parse_exact_len(skip_ws(r1), key_name());
        if let Some(r2) = parse_exact(skip_ws(r1), key_name()) {
            lemma_parse_sym_len(r2, ':');
            if let Some(r3) = parse_sym(r2, ':') {
                lemma_parse_string_len(r3);
                if let Some((name, r4)) = parse_string(r3) {
                    lemma_parse_sym_len(r4, ',');
                    if let Some(r5) = parse_sym(r4, ',') {
                        lemma_skip_ws_len(r5);
                        lemma_parse_exact_len(skip_ws(r5), key_points());
                        if let Some(r6) = parse_exact(skip_ws(r5), key_points()) {
                            lemma_parse_sym_len(r6, ':');
                            if let Some(r7) = parse_sym(r6, ':') {
                                lemma_parse_points_len(r7);
                                if let Some((ps, r8)) = parse_points(r7) {
                                    lemma_parse_sym_len(r8, '}');
                                }
                            }
                        }
                    }
                }
            }
        }
    }
}

/// A curve list.
pub open spec fn parse_curves(s: Seq<char>) -> Option<(Seq<CurveModel>, Seq<char>)> {
    match parse_sym(s, '[') {
        Some(r) => {
            let t = skip_ws(r);
            if t.len() > 0 && t[0] == ']' {
                Some((Seq::empty(), t.drop_first()))
            } else {
                match parse_curve(r) {
                    Some((c, r2)) => match parse_curves_tail(r2) {
                        Some((cs, r3)) => Some((seq![c] + cs, r3)),
                        None => None,
                    },
                    None => None,
                }
            }
        },
        None => None,
    }
}

/// The curves after the first: a comma and a curve, repeated, up to `]`.
pub open spec fn parse_curves_tail(s: Seq<char>) -> Option<(Seq<CurveModel>, Seq<char>)>
    decreases s.len(),
    via parse_curves_tail_dec
{
    let t = skip_ws(s);
    if t.len() > 0 && t[0] == ']' {
        Some((Seq::empty(), t.drop_first()))
    } else if t.len() > 0 && t[0] == ',' {
        match parse_curve(t.drop_first()) {
            Some((c, r)) => match parse_curves_tail(r) {
                Some((cs, r2)) => Some((seq![c] + cs, r2)),
                None => None,
            },
            None => None,
        }
    } else {
        None
    }
}

#[via_fn]
proof fn parse_curves_tail_dec(s: Seq<char>) {
    lemma_skip_ws_len(s);
    let t = skip_ws(s);
    if t.len() > 0 && t[0] == ',' {
        lemma_parse_curve_len(t.drop_first());
    }
}

/// The default selection: an index that fits `usize`, or `null`.
pub open spec fn parse_default(s: Seq<char>) -> Option<(Option<usize>, Seq<char>)> {
    match parse_exact(skip_ws(s), kw_null()) {
        Some(r) => Some((None, r)),
        None => match parse_nat(s) {
            Some((n, r)) => if n <= usize::MAX {
                Some((Some(n as usize), r))
            } else {
                None
            },
            None => None,
        },
    }
}

/// One whole configuration document, with nothing but blanks after it.
pub open spec fn parse_config(s: Seq<char>) -> Option<ConfigModel> {
    match parse_sym(s, '{') {
        Some(r1) => match parse_exact(skip_ws(r1), key_curves()) {
            Some(r2) => match parse_sym(r2, ':') {
                Some(r3) => match parse_curves(r3) {
                    Some((cs, r4)) => match parse_sym(r4, ',') {
                        Some(r5) => match parse_exact(skip_ws(r5), key_default()) {
                            Some(r6) => match parse_sym(r6, ':') {
                                Some(r7) => match parse_default(r7) {
                                    Some((d, r8)) => match parse_sym(r8, '}') {
                                        Some(r9) => if skip_ws(r9).len() == 0 {
                                            Some(
                                                ConfigModel {
                                                    curves: cs,
                                                    default_curve_index: d,
                                                },
                                            )
                                        } else {
                                            None
                                        },
                                        None => None,
                                    },
                                    None => None,
                                },
                                None => None,
                            },
                            None => None,
                        },
                        None => None,
                    },
                    None => None,
                },
                None => None,
            },
            None => None,
        },
        None => None,
    }
}

/// One whole curve document, with nothing but blanks after it.
pub open spec fn parse_curve_doc(s: Seq<char>) -> Option<CurveModel> {
    match parse_curve(s) {
        Some((c, r)) => if skip_ws(r).len() == 0 {
            Some(c)
        } else {
            None
        },
        None => None,
    }
}

// ---------------------------------------------------------------------
// Round trip of the document structure
// ---------------------------------------------------------------------
/// A key reads back from its encoding, blanks before it allowed.
proof fn lemma_rt_key(key: Seq<char>, rest: Seq<char>)
    requires
        key.len() > 0,
        !is_ws(key[0]),
    ensures
        parse_exact(skip_ws(key + rest), key) == Some(rest),
{
    assert((key + rest)[0] == key[0]);
    lemma_skip_ws_clean(key + rest);
    lemma_rt_exact(key, rest);
}

/// A point object reads back from its encoding.
proof fn lemma_rt_point(p: FanPoint, rest: Seq<char>)
    ensures
        parse_point(enc_point(p) + rest) == Some((p, rest)),
{
    let s8 = seq!['}'] + rest;
    let s7 = enc_nat(p.duty as nat) + s8;
    let s6 = seq![':'] + s7;
    let s5 = key_duty() + s6;
    let s4 = seq![','] + s5;
    let s3 = enc_int(p.temp as int) + s4;
    let s2 = seq![':'] + s3;
    let s1 = key_temp() + s2;
    let s0 = seq!['{'] + s1;
    assert(enc_point(p) + rest =~= s0);
    lemma_rt_sym('{', s1);
    lemma_rt_key(key_temp(), s2);
    lemma_rt_sym(':', s3);
    assert(s4[0] == ',' && !is_digit(','));
    lemma_rt_int(p.temp as int, s4);
    lemma_rt_sym(',', s5);
    lemma_rt_key(key_duty(), s6);
    lemma_rt_sym(':', s7);
    assert(s8[0] == '}' && !is_digit('}'));
    lemma_rt_nat(p.duty as nat, s8);
    lemma_rt_sym('}', rest);
}

/// The tail of a point list reads back from its encoding.
#[verifier::rlimit(60)]
#[verifier::spinoff_prover]
proof fn lemma_rt_points_tail(ps: Seq<FanPoint>, rest: Seq<char>)
    ensures
        parse_points_tail(enc_points_tail(ps) + rest) == Some((ps, rest)),
    decreases ps.len(),
{
    if ps.len() == 0 {
        let s = enc_points_tail(ps) + rest;
        assert(s =~= seq![']'] + rest);
        assert(s[0] == ']' && !is_ws(']'));
        lemma_skip_ws_clean(s);
        assert(s.drop_first() =~= rest);
        assert(ps =~= Seq::<FanPoint>::empty());
    } else {
        let tail = ps.drop_first();
        let s = enc_points_tail(ps) + rest;
        let inner = enc_point(ps[0]) + (enc_points_tail(tail) + rest);
        assert(s =~= seq![','] + inner);
        assert(s[0] == ',' && !is_ws(',') && ',' != ']');
        lemma_skip_ws_clean(s);
        assert(s.drop_first() =~= inner);
        lemma_rt_point(ps[0], enc_points_tail(tail) + rest);
        lemma_rt_points_tail(tail, rest);
        assert(seq![ps[0]] + tail =~= ps);
    }
}

/// A point list reads back from its encoding.
#[verifier::rlimit(60)]
proof fn lemma_rt_points(ps: Seq<FanPoint>, rest: Seq<char>)
    ensures
        parse_points(enc_points(ps) + rest) == Some((ps, rest)),
{
    if ps.len() == 0 {
        let s = enc_points(ps) + rest;
        let r = seq![']'] + rest;
        assert(s =~= seq!['['] + r);
        lemma_rt_sym('[', r);
        assert(r[0] == ']' && !is_ws(']'));
        lemma_skip_ws_clean(r);
        assert(r.drop_first() =~= rest);
        assert(ps =~= Seq::<FanPoint>::empty());
    } else {
        let tail = ps.drop_first();
        let s = enc_points(ps) + rest;
        let r = enc_point(ps[0]) + (enc_points_tail(tail) + rest);
        assert(s =~= seq!['['] + r);
        lemma_rt_sym('[', r);
        assert(r[0] == '{' && !is_ws('{') && '{' != ']');
        lemma_skip_ws_clean(r);
        lemma_rt_point(ps[0], enc_points_tail(tail) + rest);
        lemma_rt_points_tail(tail, rest);
        assert(seq![ps[0]] + tail =~= ps);
    }
}

/// A curve object reads back from its encoding.
#[verifier::rlimit(60)]
#[verifier::spinoff_prover]
proof fn lemma_rt_curve(c: CurveModel, rest: Seq<char>)
    ensures
        parse_curve(enc_curve(c) + rest) == Some((c, rest)),
{
    let s8 = seq!['}'] + rest;
    let s7 = enc_points(c.points) + s8;
    let s6 = seq![':'] + s7;
    let s5 = key_points() + s6;
    let s4 = seq![','] + s5;
    let s3 = seq!['"'] + enc_escaped(c.name) + seq!['"'] + s4;
    let s2 = seq![':'] + s3;
    let s1 = key_name() + s2;
    let s0 = seq!['{'] + s1;
    assert(enc_curve(c) + rest =~= s0);
    lemma_rt_sym('{', s1);
    lemma_rt_key(key_name(), s2);
    lemma_rt_sym(':', s3);
    lemma_rt_string(c.name, s4);
    lemma_rt_sym(',', s5);
    lemma_rt_key(key_points(), s6);
    lemma_rt_sym(':', s7);
    lemma_rt_points(c.points, s8);
    lemma_rt_sym('}', rest);
}

/// The tail of a curve list reads back from its encoding.
#[verifier::rlimit(60)]
#[verifier::spinoff_prover]
proof fn lemma_rt_curves_tail(cs: Seq<CurveModel>, rest: Seq<char>)
    ensures
        parse_curves_tail(enc_curves_tail(cs) + rest) == Some((cs, rest)),
    decreases cs.len(),
{
    if cs.len() == 0 {
        let s = enc_curves_tail(cs) + rest;
        assert(s =~= seq![']'] + rest);
        assert(s[0] == ']' && !is_ws(']'));
        lemma_skip_ws_clean(s);
        assert(s.drop_first() =~= rest);
        assert(cs =~= Seq::<CurveModel>::empty());
    } else {
        let tail = cs.drop_first();
        let s = enc_curves_tail(cs) + rest;
        let inner = enc_curve(cs[0]) + (enc_curves_tail(tail) + rest);
        assert(s =~= seq![','] + inner);
        assert(s[0] == ',' && !is_ws(',') && ',' != ']');
        lemma_skip_ws_clean(s);
        assert(s.drop_first() =~= inner);
        lemma_rt_curve(cs[0], enc_curves_tail(tail) + rest);
        lemma_rt_curves_tail(tail, rest);
        assert(seq![cs[0]] + tail =~= cs);
    }
}

/// A curve list reads back from its encoding.
#[verifier::rlimit(60)]
proof fn lemma_rt_curves(cs: Seq<CurveModel>, rest: Seq<char>)
    ensures
        parse_curves(enc_curves(cs) + rest) == Some((cs, rest)),
{
    if cs.len() == 0 {
        let s = enc_curves(cs) + rest;
        let r = seq![']'] + rest;
        assert(s =~= seq!['['] + r);
        lemma_rt_sym('[', r);
        assert(r[0] == ']' && !is_ws(']'));
        lemma_skip_ws_clean(r);
        assert(r.drop_first() =~= rest);
        assert(cs =~= Seq::<CurveModel>::empty());
    } else {
        let tail = cs.drop_first();
        let s = enc_curves(cs) + rest;
        let r = enc_curve(cs[0]) + (enc_curves_tail(tail) + rest);
        assert(s =~= seq!['['] + r);
        lemma_rt_sym('[', r);
        assert(r[0] == '{' && !is_ws('{') && '{' != ']');
        lemma_skip_ws_clean(r);
        lemma_rt_curve(cs[0], enc_curves_tail(tail) + rest);
        lemma_rt_curves_tail(tail, rest);
        assert(seq![cs[0]] + tail =~= cs);
    }
}

/// The default selection reads back from its encoding.
proof fn lemma_rt_default(d: Option<usize>, rest: Seq<char>)
    requires
        rest.len() > 0,
        !is_digit(rest[0]),
        !is_ws(rest[0]),
    ensures
        parse_default(enc_default(d) + rest) == Some((d, rest)),
{
    let s = enc_default(d) + rest;
    match d {
        None => {
            assert(s[0] == 'n' && !is_ws('n'));
            lemma_skip_ws_clean(s);
            lemma_rt_exact(kw_null(), rest);
        },
        Some(i) => {
            lemma_enc_nat_digits(i as nat);
            assert(s[0] == enc_nat(i as nat)[0]);
            assert(is_digit(s[0]) && !is_ws(s[0]));
            lemma_skip_ws_clean(s);
            // The word `null` cannot match: it starts with a letter.
            if kw_null().len() <= s.len() {
                assert(s.take(kw_null().len() as int)[0] == s[0]);
                assert(s.take(kw_null().len() as int) != kw_null());
            }
            lemma_rt_nat(i as nat, rest);
        },
    }
}

/// Law: decoding inverts encoding — a configuration document written by
/// the encoder parses back to exactly the value it was written from.
pub proof fn lemma_config_round_trip(m: ConfigModel)
    ensures
        parse_config(enc_config(m)) == Some(m),
{
    let rest = Seq::<char>::empty();
    let s8 = seq!['}'] + rest;
    let s7 = enc_default(m.default_curve_index) + s8;
    let s6 = seq![':'] + s7;
    let s5 = key_default() + s6;
    let s4 = seq![','] + s5;
    let s3 = enc_curves(m.curves) + s4;
    let s2 = seq![':'] + s3;
    let s1 = key_curves() + s2;
    let s0 = seq!['{'] + s1;
    assert(enc_config(m) =~= s0);
    lemma_rt_sym('{', s1);
    lemma_rt_key(key_curves(), s2);
    lemma_rt_sym(':', s3);
    lemma_rt_curves(m.curves, s4);
    lemma_rt_sym(',', s5);
    lemma_rt_key(key_default(), s6);
    lemma_rt_sym(':', s7);
    assert(s8[0] == '}' && !is_digit('}') && !is_ws('}'));
    lemma_rt_default(m.default_curve_index, s8);
    lemma_rt_sym('}', rest);
    assert(skip_ws(rest).len() == 0);
}

/// Law: decoding inverts encoding for a single stored curve as well.
pub proof fn lemma_curve_round_trip(c: CurveModel)
    ensures
        parse_curve_doc(enc_curve(c)) == Some(c),
{
    let rest = Seq::<char>::empty();
    assert(enc_curve(c) =~= enc_curve(c) + rest);
    lemma_rt_curve(c, rest);
    assert(skip_ws(rest).len() == 0);
}

// ---------------------------------------------------------------------
// Encoder
// ---------------------------------------------------------------------
/// The single-character text of a decimal digit value.
fn digit_str(d: u64) -> (r: &'static str)
    requires
        d <= 9,
    ensures
        r@ == seq![digit_char(d as int)],
{
    proof {
        reveal_strlit("0");
        reveal_strlit("1");
        reveal_strlit("2");
        reveal_strlit("3");
        reveal_strlit("4");
        reveal_strlit("5");
        reveal_strlit("6");
        reveal_strlit("7");
        reveal_strlit("8");
        reveal_strlit("9");
        assert("0"@ =~= seq!['0']);
        assert("1"@ =~= seq!['1']);
        assert("2"@ =~= seq!['2']);
        assert("3"@ =~= seq!['3']);
        assert("4"@ =~= seq!['4']);
        assert("5"@ =~= seq!['5']);
        assert("6"@ =~= seq!['6']);
        assert("7"@ =~= seq!['7']);
        assert("8"@ =~= seq!['8']);
        assert("9"@ =~= seq!['9']);
    }
    if d == 0 {
        "0"
    } else if d == 1 {
        "1"
    } else if d == 2 {
        "2"
    } else if d == 3 {
        "3"
    } else if d == 4 {
        "4"
    } else if d == 5 {
        "5"
    } else if d == 6 {
        "6"
    } else if d == 7 {
        "7"
    } else if d == 8 {
        "8"
    } else {
        "9"
    }
}

/// Appends the decimal digits of `n`.
fn w_nat(out: &mut String, n: u64)
    ensures
        final (out)@ == old(out)@ + enc_nat(n as nat),
    decreases n,
{
    if n < 10 {
        out.append(digit_str(n));
    } else {
        w_nat(out, n / 10);
        out.append(digit_str(n % 10));
        proof {
            assert(out@ =~= old(out)@ + enc_nat(n as nat));
        }
    }
}

/// Appends a decimal integer, minus sign included when negative.
fn w_int(out: &mut String, v: i32)
    ensures
        final (out)@ == old(out)@ + enc_int(v as int),
{
    if v < 0 {
        out.append("-");
        proof {
            reveal_strlit("-");
            assert("-"@ =~= seq!['-']);
        }
        w_nat(out, (-(v as i64)) as u64);
        proof {
            assert(out@ =~= old(out)@ + enc_int(v as int));
        }
    } else {
        w_nat(out, v as u64);
    }
}

/// Appending one more character extends the escaped text by that
/// character's encoding.
proof fn lemma_enc_escaped_push(a: Seq<char>, c: char)
    ensures
        enc_escaped(a.push(c)) == enc_escaped(a) + enc_char(c),
    decreases a.len(),
{
    let pushed = a.push(c);
    if a.len() == 0 {
        assert(pushed[0] == c);
        assert(pushed.drop_first() =~= Seq::<char>::empty());
        assert(enc_escaped(Seq::<char>::empty()) =~= Seq::<char>::empty());
        assert(enc_escaped(pushed) =~= enc_char(c));
        assert(enc_escaped(a) + enc_char(c) =~= enc_char(c));
    } else {
        assert(pushed[0] == a[0]);
        assert(pushed.drop_first() =~= a.drop_first().push(c));
        lemma_enc_escaped_push(a.drop_first(), c);
        assert(enc_escaped(pushed) == enc_char(a[0]) + (enc_escaped(a.drop_first()) + enc_char(
            c,
        )));
        assert(enc_char(a[0]) + (enc_escaped(a.drop_first()) + enc_char(c)) =~= (enc_char(a[0])
            + enc_escaped(a.drop_first())) + enc_char(c));
    }
}

/// Appends a string body with `"` and `\` escaped.
fn w_escaped(out: &mut String, name: &str)
    ensures
        final (out)@ == old(out)@ + enc_escaped(name@),
{
    let n = name.unicode_len();
    let mut i: usize = 0;
    proof {
        assert(name@.take(0) =~= Seq::<char>::empty());
        assert(out@ =~= old(out)@ + enc_escaped(name@.take(0)));
    }
    while i < n
        invariant
            0 <= i <= n,
            n == name@.len(),
            out@ == old(out)@ + enc_escaped(name@.take(i as int)),
        decreases n - i,
    {
        let c = name.get_char(i);
        if c == '"' {
            out.append("\\\"");
            proof {
                reveal_strlit("\\\"");
                assert("\\\""@ =~= enc_char('"'));
            }
        } else if c == '\\' {
            out.append("\\\\");
            proof {
                reveal_strlit("\\\\");
                assert("\\\\"@ =~= enc_char('\\'));
            }
        } else {
            out.append(name.substring_char(i, i + 1));
            proof {
                assert(name@.subrange(i as int, i + 1) =~= seq![c]);
                assert(seq![c] =~= enc_char(c));
            }
        }
        proof {
            assert(name@.take(i as int).push(c) =~= name@.take(i + 1));
            lemma_enc_escaped_push(name@.take(i as int), c);
            assert(out@ =~= old(out)@ + enc_escaped(name@.take(i + 1)));
        }
        i = i + 1;
    }
    proof {
        assert(name@.take(n as int) =~= name@);
    }
}

/// Appends one encoded point.
fn w_point(out: &mut String, p: &FanPoint)
    ensures
        final (out)@ == old(out)@ + enc_point(*p),
{
    out.append("{\"temp\":");
    proof {
        reveal_strlit("{\"temp\":");
        assert("{\"temp\":"@ =~= seq!['{'] + key_temp() + seq![':']);
    }
    w_int(out, p.temp as i32);
    out.append(",\"duty\":");
    proof {
        reveal_strlit(",\"duty\":");
        assert(",\"duty\":"@ =~= seq![','] + key_duty() + seq![':']);
    }
    w_nat(out, p.duty as u64);
    out.append("}");
    proof {
        reveal_strlit("}");
        assert("}"@ =~= seq!['}']);
        assert(out@ =~= old(out)@ + enc_point(*p));
    }
}

/// Appends the points from `i` on as a list tail: `,P` repeated, `]`.
fn w_points_tail(out: &mut String, ps: &Vec<FanPoint>, i: usize)
    requires
        i <= ps@.len(),
    ensures
        final (out)@ == old(out)@ + enc_points_tail(ps@.skip(i as int)),
    decreases ps@.len() - i,
{
    if i == ps.len() {
        out.append("]");
        proof {
            reveal_strlit("]");
            assert("]"@ =~= seq![']']);
            assert(ps@.skip(i as int) =~= Seq::<FanPoint>::empty());
        }
    } else {
        out.append(",");
        proof {
            reveal_strlit(",");
            assert(","@ =~= seq![',']);
        }
        w_point(out, &ps[i]);
        w_points_tail(out, ps, i + 1);
        proof {
            assert(ps@.skip(i as int)[0] == ps@[i as int]);
            assert(ps@.skip(i as int).drop_first() =~= ps@.skip(i + 1));
            assert(out@ =~= old(out)@ + enc_points_tail(ps@.skip(i as int)));
        }
    }
}

/// Appends one encoded curve.
fn w_curve(out: &mut String, c: &FanCurve)
    ensures
        final (out)@ == old(out)@ + enc_curve(curve_model(c)),
{
    out.append("{\"name\":\"");
    proof {
        reveal_strlit("{\"name\":\"");
        assert("{\"name\":\""@ =~= seq!['{'] + key_name() + seq![':', '"']);
    }
    w_escaped(out, c.name());
    out.append("\",\"points\":");
    proof {
        reveal_strlit("\",\"points\":");
        assert("\",\"points\":"@ =~= seq!['"', ','] + key_points() + seq![':']);
    }
    w_points(out, c.points_ref());
    out.append("}");
    proof {
        reveal_strlit("}");
        assert("}"@ =~= seq!['}']);
        assert(out@ =~= old(out)@ + enc_curve(curve_model(c)));
    }
}

/// Appends the curves from `i` on as a list tail: `,C` repeated, `]`.
fn w_curves_tail(out: &mut String, cs: &Vec<FanCurve>, i: usize, Ghost(model): Ghost<
    Seq<CurveModel>,
>)
    requires
        i <= cs@.len(),
        model.len() == cs@.len(),
        forall|k: int| 0 <= k < cs@.len() ==> model[k] == curve_model(&cs@[k]),
    ensures
        final (out)@ == old(out)@ + enc_curves_tail(model.skip(i as int)),
    decreases cs@.len() - i,
{
    if i == cs.len() {
        out.append("]");
        proof {
            reveal_strlit("]");
            assert("]"@ =~= seq![']']);
            assert(model.skip(i as int) =~= Seq::<CurveModel>::empty());
        }
    } else {
        out.append(",");
        proof {
            reveal_strlit(",");
            assert(","@ =~= seq![',']);
        }
        w_curve(out, &cs[i]);
        w_curves_tail(out, cs, i + 1, Ghost(model));
        proof {
            assert(model.skip(i as int)[0] == model[i as int]);
            assert(model.skip(i as int).drop_first() =~= model.skip(i + 1));
            assert(out@ =~= old(out)@ + enc_curves_tail(model.skip(i as int)));
        }
    }
}

/// Appends an encoded curve list.
fn w_curves(out: &mut String, cs: &Vec<FanCurve>, Ghost(model): Ghost<Seq<CurveModel>>)
    requires
        model.len() == cs@.len(),
        forall|k: int| 0 <= k < cs@.len() ==> model[k] == curve_model(&cs@[k]),
    ensures
        final (out)@ == old(out)@ + enc_curves(model),
{
    if cs.len() == 0 {
        out.append("[]");
        proof {
            reveal_strlit("[]");
            assert("[]"@ =~= seq!['[', ']']);
        }
    } else {
        out.append("[");
        proof {
            reveal_strlit("[");
            assert("["@ =~= seq!['[']);
        }
        w_curve(out, &cs[0]);
        w_curves_tail(out, cs, 1, Ghost(model));
        proof {
            assert(model.skip(1) =~= model.drop_first());
            assert(out@ =~= old(out)@ + enc_curves(model));
        }
    }
}

/// Appends an encoded point list.
fn w_points(out: &mut String, ps: &Vec<FanPoint>)
    ensures
        final (out)@ == old(out)@ + enc_points(ps@),
{
    if ps.len() == 0 {
        out.append("[]");
        proof {
            reveal_strlit("[]");
            assert("[]"@ =~= seq!['[', ']']);
        }
    } else {
        out.append("[");
        proof {
            reveal_strlit("[");
            assert("["@ =~= seq!['[']);
        }
        w_point(out, &ps[0]);
        w_points_tail(out, ps, 1);
        proof {
            assert(ps@.skip(1) =~= ps@.drop_first());
            assert(out@ =~= old(out)@ + enc_points(ps@));
        }
    }
}

// ---------------------------------------------------------------------
// Decoder
// ---------------------------------------------------------------------
proof fn lemma_skip_next(s: Seq<char>, i: int)
    requires
        0 <= i < s.len(),
    ensures
        s.skip(i).drop_first() == s.skip(i + 1),
{
    assert(s.skip(i).drop_first() =~= s.skip(i + 1));
}

/// Advances past blanks.
pub(crate) fn p_skip_ws(s: &str, i: usize) -> (j: usize)
    requires
        i <= s@.len(),
    ensures
        i <= j <= s@.len(),
        s@.skip(j as int) == skip_ws(s@.skip(i as int)),
{
    let n = s.unicode_len();
    let mut j = i;
    while j < n
        invariant
            i <= j <= n,
            n == s@.len(),
            skip_ws(s@.skip(i as int)) == skip_ws(s@.skip(j as int)),
        decreases n - j,
    {
        let c = s.get_char(j);
        if c == ' ' || c == '\n' || c == '\t' || c == '\r' {
            proof {
                assert(s@.skip(j as int)[0] == s@[j as int]);
                lemma_skip_next(s@, j as int);
            }
            j = j + 1;
        } else {
            proof {
                assert(s@.skip(j as int)[0] == s@[j as int]);
                lemma_skip_ws_clean(s@.skip(j as int));
            }
            return j;
        }
    }
    proof {
        assert(s@.skip(j as int).len() == 0);
        lemma_skip_ws_clean(s@.skip(j as int));
    }
    j
}

/// Reads one punctuation character, after blanks.
fn p_sym(s: &str, i: usize, c: char) -> (r: Option<usize>)
    requires
        i <= s@.len(),
    ensures
        match r {
            Some(j) => parse_sym(s@.skip(i as int), c) == Some(s@.skip(j as int)) && i < j
                <= s@.len(),
            None => parse_sym(s@.skip(i as int), c) is None,
        },
{
    let j = p_skip_ws(s, i);
    if j < s.unicode_len() {
        let ch = s.get_char(j);
        if ch == c {
            proof {
                assert(s@.skip(j as int)[0] == s@[j as int]);
                lemma_skip_next(s@, j as int);
            }
            Some(j + 1)
        } else {
            proof {
                assert(s@.skip(j as int)[0] == s@[j as int]);
            }
            None
        }
    } else {
        proof {
            assert(s@.skip(j as int).len() == 0);
        }
        None
    }
}

/// Reads an exact word with no blanks before or inside it.
fn p_exact(s: &str, i: usize, w: &str) -> (r: Option<usize>)
    requires
        i <= s@.len(),
    ensures
        match r {
            Some(j) => parse_exact(s@.skip(i as int), w@) == Some(s@.skip(j as int)) && i <= j
                <= s@.len() && j - i == w@.len(),
            None => parse_exact(s@.skip(i as int), w@) is None,
        },
{
    let n = s.unicode_len();
    let wl = w.unicode_len();
    if wl > n - i {
        return None;
    }
    let mut k: usize = 0;
    while k < wl
        invariant
            0 <= k <= wl,
            wl == w@.len(),
            n == s@.len(),
            i + wl <= n,
            forall|m: int| 0 <= m < k ==> s@[i + m] == w@[m],
        decreases wl - k,
    {
        if s.get_char(i + k) != w.get_char(k) {
            proof {
                assert(s@.skip(i as int).take(wl as int)[k as int] == s@[i + k]);
            }
            return None;
        }
        k = k + 1;
    }
    proof {
        assert(s@.skip(i as int).take(wl as int) =~= w@);
        assert(s@.skip(i as int).skip(wl as int) =~= s@.skip(i + wl));
    }
    Some(i + wl)
}

/// The folded value of a digit run never falls below what was already
/// accumulated.
proof fn lemma_parse_digits_ge(s: Seq<char>, acc: nat)
    ensures
        parse_digits(s, acc).0 >= acc,
    decreases s.len(),
{
    if s.len() > 0 && is_digit(s[0]) {
        lemma_parse_digits_ge(s.drop_first(), acc * 10 + digit_val(s[0]) as nat);
    }
}

/// Reads a decimal natural number no greater than `max`, after blanks.
/// Fails exactly when no number starts here or its value exceeds `max`.
pub(crate) fn p_nat(s: &str, i: usize, max: u64) -> (r: Option<(u64, usize)>)
    requires
        i <= s@.len(),
    ensures
        match r {
            Some((v, j)) => parse_nat(s@.skip(i as int)) == Some(
                (v as nat, s@.skip(j as int)),
            ) && v <= max && i < j <= s@.len(),
            None => match parse_nat(s@.skip(i as int)) {
                Some((n, rest)) => n > max,
                None => true,
            },
        },
{
    let n = s.unicode_len();
    let j0 = p_skip_ws(s, i);
    if j0 >= n {
        proof {
            assert(s@.skip(j0 as int).len() == 0);
        }
        return None;
    }
    let c0 = s.get_char(j0) as u32;
    proof {
        assert(s@.skip(j0 as int)[0] == s@[j0 as int]);
    }
    if c0 < 48 || c0 > 57 {
        return None;
    }
    let ghost t = s@.skip(j0 as int);
    let mut acc: u64 = (c0 - 48) as u64;
    let mut j: usize = j0 + 1;
    proof {
        lemma_skip_next(s@, j0 as int);
        assert(parse_digits(t, 0) == parse_digits(s@.skip(j as int), acc as nat));
    }
    if acc > max {
        proof {
            lemma_parse_digits_ge(s@.skip(j as int), acc as nat);
        }
        return None;
    }
    while j < n
        invariant
            i <= j0 < j <= n,
            n == s@.len(),
            t == s@.skip(j0 as int),
            t == skip_ws(s@.skip(i as int)),
            t.len() > 0 && is_digit(t[0]),
            parse_digits(t, 0) == parse_digits(s@.skip(j as int), acc as nat),
            acc <= max,
        ensures
            i <= j0 < j <= n,
            parse_digits(t, 0) == parse_digits(s@.skip(j as int), acc as nat),
            acc <= max,
            n == s@.len(),
            t == s@.skip(j0 as int),
            t == skip_ws(s@.skip(i as int)),
            t.len() > 0 && is_digit(t[0]),
            j == n || !is_digit(s@[j as int]),
        decreases n - j,
    {
        let cv = s.get_char(j) as u32;
        proof {
            assert(s@.skip(j as int)[0] == s@[j as int]);
        }
        if cv < 48 || cv > 57 {
            break ;
        }
        let d = (cv - 48) as u64;
        proof {
            lemma_skip_next(s@, j as int);
        }
        // The digits still to come can only grow the value, so once it
        // passes `max` the number is rejected.
        match acc.checked_mul(10) {
            None => {
                proof {
                    lemma_parse_digits_ge(
                        s@.skip(j + 1),
                        (acc * 10 + digit_val(s@[j as int])) as nat,
                    );
                }
                return None;
            },
            Some(m) => match m.checked_add(d) {
                None => {
                    proof {
                        lemma_parse_digits_ge(
                            s@.skip(j + 1),
                            (acc * 10 + digit_val(s@[j as int])) as nat,
                        );
                    }
                    return None;
                },
                Some(v) => {
                    if v > max {
                        proof {
                            lemma_parse_digits_ge(
                                s@.skip(j + 1),
                                (acc * 10 + digit_val(s@[j as int])) as nat,
                            );
                        }
                        return None;
                    }
                    acc = v;
                    j = j + 1;
                },
            },
        }
    }
    proof {
        if j < n {
            assert(s@.skip(j as int)[0] == s@[j as int]);
        } else {
            assert(s@.skip(j as int).len() == 0);
        }
        assert(parse_digits(s@.skip(j as int), acc as nat) == (acc as nat, s@.skip(j as int)));
    }
    Some((acc, j))
}

/// Reads a decimal integer within `[lo, hi]`, after blanks.  Fails
/// exactly when no integer starts here or its value is out of range.
pub(crate) fn p_int(s: &str, i: usize, lo: i64, hi: i64) -> (r: Option<(i64, usize)>)
    requires
        i <= s@.len(),
        -0x7fff_ffff_ffff_ffff <= lo <= 0 <= hi,
    ensures
        match r {
            Some((v, j)) => parse_int(s@.skip(i as int)) == Some(
                (v as int, s@.skip(j as int)),
            ) && lo <= v <= hi && i < j <= s@.len(),
            None => match parse_int(s@.skip(i as int)) {
                Some((n, rest)) => n < lo || n > hi,
                None => true,
            },
        },
{
    let n = s.unicode_len();
    let j0 = p_skip_ws(s, i);
    if j0 >= n {
        proof {
            assert(s@.skip(j0 as int).len() == 0);
        }
        return None;
    }
    let c0 = s.get_char(j0);
    proof {
        assert(s@.skip(j0 as int)[0] == s@[j0 as int]);
    }
    if c0 == '-' {
        if j0 + 1 >= n {
            proof {
                assert(s@.skip(j0 as int).len() == 1);
            }
            return None;
        }
        let c1 = s.get_char(j0 + 1) as u32;
        proof {
            assert(s@.skip(j0 as int)[1] == s@[j0 + 1]);
        }
        if c1 < 48 || c1 > 57 {
            return None;
        }
        proof {
            lemma_skip_next(s@, j0 as int);
            lemma_skip_ws_clean(s@.skip(j0 + 1));
        }
        match p_nat(s, j0 + 1, (-lo) as u64) {
            Some((v, j)) => {
                proof {
                    assert(parse_digits(s@.skip(j0 + 1), 0) == (
                        v as nat,
                        s@.skip(j as int),
                    ));
                }
                Some((-(v as i64), j))
            },
            None => None,
        }
    } else {
        let cv = c0 as u32;
        if cv < 48 || cv > 57 {
            return None;
        }
        proof {
            lemma_skip_ws_clean(s@.skip(j0 as int));
        }
        match p_nat(s, j0, hi as u64) {
            Some((v, j)) => Some((v as i64, j)),
            None => None,
        }
    }
}

/// Relies on char::from_u32: the character for a code, `None` exactly on
/// the codes no character can carry (surrogates and codes beyond the
/// last code point); the result is converted to its one-character text.
#[verifier::external_body]
fn utf_char_string(v: u32) -> (r: Option<String>)
    ensures
        match r {
            Some(cs) => cs@.len() == 1 && (cs@[0]) as u32 == v,
            None => !is_scalar_code(v as int),
        },
{
    char::from_u32(v).map(|c| c.to_string())
}

/// The value of one hexadecimal digit character.
fn hex_digit_val(c: char) -> (r: Option<u8>)
    ensures
        match r {
            Some(v) => is_hex(c) && v as int == hex_val(c) && v <= 15,
            None => !is_hex(c),
        },
{
    let cv = c as u32;
    if 48 <= cv && cv <= 57 {
        Some((cv - 48) as u8)
    } else if 97 <= cv && cv <= 102 {
        Some((cv - 87) as u8)
    } else if 65 <= cv && cv <= 70 {
        Some((cv - 55) as u8)
    } else {
        None
    }
}

/// Reads a string body after the opening quote, undoing escapes.
#[verifier::rlimit(60)]
#[verifier::spinoff_prover]
fn p_str_body(s: &str, i: usize) -> (r: Option<(String, usize)>)
    requires
        i <= s@.len(),
    ensures
        match r {
            Some((u, j)) => parse_str_body(s@.skip(i as int)) == Some(
                (u@, s@.skip(j as int)),
            ) && i < j <= s@.len(),
            None => parse_str_body(s@.skip(i as int)) is None,
        },
    decreases s@.len() - i,
{
    let n = s.unicode_len();
    if i >= n {
        proof {
            assert(s@.skip(i as int).len() == 0);
        }
        return None;
    }
    let c = s.get_char(i);
    proof {
        assert(s@.skip(i as int)[0] == s@[i as int]);
    }
    if c == '"' {
        proof {
            lemma_skip_next(s@, i as int);
        }
        Some((String::new(), i + 1))
    } else if c == '\\' {
        if i + 1 >= n {
            return None;
        }
        let e = s.get_char(i + 1);
        proof {
            assert(s@.skip(i as int)[1] == s@[i + 1]);
        }
        if e == '"' || e == '\\' || e == '/' {
            proof {
                assert(s@.skip(i as int).skip(2) =~= s@.skip(i + 2));
            }
            match p_str_body(s, i + 2) {
                Some((u, j)) => {
                    let mut w = s.substring_char(i + 1, i + 2).to_owned();
                    w.append(u.as_str());
                    proof {
                        assert(s@.subrange(i + 1, i + 2) =~= seq![s@[i + 1]]);
                        assert(w@ == seq![s@.skip(i as int)[1]] + u@);
                    }
                    Some((w, j))
                },
                None => None,
            }
        } else if e == 'n' || e == 't' || e == 'r' || e == 'b' || e == 'f' {
            let lit: &str = if e == 'n' {
                "\n"
            } else if e == 't' {
                "\t"
            } else if e == 'r' {
                "\r"
            } else if e == 'b' {
                "\u{0008}"
            } else {
                "\u{000C}"
            };
            proof {
                reveal_strlit("\n");
                reveal_strlit("\t");
                reveal_strlit("\r");
                reveal_strlit("\u{0008}");
                reveal_strlit("\u{000C}");
                assert(lit@ =~= seq![control_escape_char(e)]);
                assert(s@.skip(i as int).skip(2) =~= s@.skip(i + 2));
            }
            match p_str_body(s, i + 2) {
                Some((u, j)) => {
                    let mut w = lit.to_owned();
                    w.append(u.as_str());
                    Some((w, j))
                },
                None => None,
            }
        } else if e == 'u' {
            if n - i < 6 {
                return None;
            }
            let h0 = match hex_digit_val(s.get_char(i + 2)) {
                Some(v) => v,
                None => {
                    proof {
                        assert(s@.skip(i as int)[2] == s@[i + 2]);
                    }
                    return None;
                },
            };
            let h1 = match hex_digit_val(s.get_char(i + 3)) {
                Some(v) => v,
                None => {
                    proof {
                        assert(s@.skip(i as int)[3] == s@[i + 3]);
                    }
                    return None;
                },
            };
            let h2 = match hex_digit_val(s.get_char(i + 4)) {
                Some(v) => v,
                None => {
                    proof {
                        assert(s@.skip(i as int)[4] == s@[i + 4]);
                    }
                    return None;
                },
            };
            let h3 = match hex_digit_val(s.get_char(i + 5)) {
                Some(v) => v,
                None => {
                    proof {
                        assert(s@.skip(i as int)[5] == s@[i + 5]);
                    }
                    return None;
                },
            };
            let code: u32 = (h0 as u32) * 4096 + (h1 as u32) * 256 + (h2 as u32) * 16 + (h3 as u32);
            proof {
                assert(s@.skip(i as int)[2] == s@[i + 2]);
                assert(s@.skip(i as int)[3] == s@[i + 3]);
                assert(s@.skip(i as int)[4] == s@[i + 4]);
                assert(s@.skip(i as int)[5] == s@[i + 5]);
            }
            let head = match utf_char_string(code) {
                Some(cs) => cs,
                None => {
                    return None;
                },
            };
            proof {
                let w0 = head@[0];
                vstd::utf8::char_u32_cast(w0, code);
                assert(char_of_code(code as int) == w0);
                assert(head@ =~= seq![char_of_code(code as int)]);
                assert(s@.skip(i as int).skip(6) =~= s@.skip(i + 6));
            }
            match p_str_body(s, i + 6) {
                Some((u, j)) => {
                    let mut w = head;
                    w.append(u.as_str());
                    Some((w, j))
                },
                None => None,
            }
        } else {
            None
        }
    } else {
        proof {
            lemma_skip_next(s@, i as int);
        }
        match p_str_body(s, i + 1) {
            Some((u, j)) => {
                let mut w = s.substring_char(i, i + 1).to_owned();
                w.append(u.as_str());
                proof {
                    assert(s@.subrange(i as int, i + 1) =~= seq![s@[i as int]]);
                    assert(w@ == seq![s@.skip(i as int)[0]] + u@);
                }
                Some((w, j))
            },
            None => None,
        }
    }
}

/// Reads a quoted string, after blanks.
fn p_string(s: &str, i: usize) -> (r: Option<(String, usize)>)
    requires
        i <= s@.len(),
    ensures
        match r {
            Some((u, j)) => parse_string(s@.skip(i as int)) == Some(
                (u@, s@.skip(j as int)),
            ) && i < j <= s@.len(),
            None => parse_string(s@.skip(i as int)) is None,
        },
{
    let n = s.unicode_len();
    let j0 = p_skip_ws(s, i);
    if j0 >= n {
        proof {
            assert(s@.skip(j0 as int).len() == 0);
        }
        return None;
    }
    let c = s.get_char(j0);
    proof {
        assert(s@.skip(j0 as int)[0] == s@[j0 as int]);
    }
    if c != '"' {
        return None;
    }
    proof {
        lemma_skip_next(s@, j0 as int);
    }
    p_str_body(s, j0 + 1)
}

/// Reads a key word, after blanks.
fn p_key(s: &str, i: usize, w: &str) -> (r: Option<usize>)
    requires
        i <= s@.len(),
    ensures
        match r {
            Some(j) => parse_exact(skip_ws(s@.skip(i as int)), w@) == Some(s@.skip(j as int)) && i
                <= j <= s@.len(),
            None => parse_exact(skip_ws(s@.skip(i as int)), w@) is None,
        },
{
    let j0 = p_skip_ws(s, i);
    p_exact(s, j0, w)
}

/// Reads one point object; its temperature must fit the curve's
/// temperature type and its duty the duty type.
fn p_point(s: &str, i: usize) -> (r: Option<(FanPoint, usize)>)
    requires
        i <= s@.len(),
    ensures
        match r {
            Some((p, j)) => parse_point(s@.skip(i as int)) == Some((p, s@.skip(j as int))) && i < j
                <= s@.len(),
            None => parse_point(s@.skip(i as int)) is None,
        },
{
    proof {
        reveal_strlit("\"temp\"");
        assert("\"temp\""@ =~= key_temp());
        reveal_strlit("\"duty\"");
        assert("\"duty\""@ =~= key_duty());
    }
    let r1 = match p_sym(s, i, '{') {
        Some(j) => j,
        None => {
            return None;
        },
    };
    let r2 = match p_key(s, r1, "\"temp\"") {
        Some(j) => j,
        None => {
            return None;
        },
    };
    let r3 = match p_sym(s, r2, ':') {
        Some(j) => j,
        None => {
            return None;
        },
    };
    let (t, r4) = match p_int(s, r3, -32768, 32767) {
        Some(v) => v,
        None => {
            return None;
        },
    };
    let r5 = match p_sym(s, r4, ',') {
        Some(j) => j,
        None => {
            return None;
        },
    };
    let r6 = match p_key(s, r5, "\"duty\"") {
        Some(j) => j,
        None => {
            return None;
        },
    };
    let r7 = match p_sym(s, r6, ':') {
        Some(j) => j,
        None => {
            return None;
        },
    };
    let (d, r8) = match p_nat(s, r7, 65535) {
        Some(v) => v,
        None => {
            return None;
        },
    };
    let r9 = match p_sym(s, r8, '}') {
        Some(j) => j,
        None => {
            return None;
        },
    };
    Some((FanPoint { temp: t as i16, duty: d as u16 }, r9))
}

/// Reads the points after the first: a comma and a point, repeated, up
/// to the closing bracket.
fn p_points_tail(s: &str, i: usize) -> (r: Option<(Vec<FanPoint>, usize)>)
    requires
        i <= s@.len(),
    ensures
        match r {
            Some((ps, j)) => parse_points_tail(s@.skip(i as int)) == Some(
                (ps@, s@.skip(j as int)),
            ) && i < j <= s@.len(),
            None => parse_points_tail(s@.skip(i as int)) is None,
        },
    decreases s@.len() - i,
{
    let n = s.unicode_len();
    let j0 = p_skip_ws(s, i);
    if j0 >= n {
        proof {
            assert(s@.skip(j0 as int).len() == 0);
        }
        return None;
    }
    let c = s.get_char(j0);
    proof {
        assert(s@.skip(j0 as int)[0] == s@[j0 as int]);
    }
    if c == ']' {
        proof {
            lemma_skip_next(s@, j0 as int);
        }
        let ps: Vec<FanPoint> = Vec::new();
        proof {
            assert(ps@ =~= Seq::<FanPoint>::empty());
        }
        Some((ps, j0 + 1))
    } else if c == ',' {
        proof {
            lemma_skip_next(s@, j0 as int);
        }
        let (p, r) = match p_point(s, j0 + 1) {
            Some(v) => v,
            None => {
                return None;
            },
        };
        let (mut ps, r2) = match p_points_tail(s, r) {
            Some(v) => v,
            None => {
                return None;
            },
        };
        ps.insert(0, p);
        proof {
            assert(ps@ =~= seq![p] + ps@.drop_first());
        }
        Some((ps, r2))
    } else {
        None
    }
}

/// Reads a point list.
fn p_points(s: &str, i: usize) -> (r: Option<(Vec<FanPoint>, usize)>)
    requires
        i <= s@.len(),
    ensures
        match r {
            Some((ps, j)) => parse_points(s@.skip(i as int)) == Some(
                (ps@, s@.skip(j as int)),
            ) && i < j <= s@.len(),
            None => parse_points(s@.skip(i as int)) is None,
        },
{
    let n = s.unicode_len();
    let r1 = match p_sym(s, i, '[') {
        Some(j) => j,
        None => {
            return None;
        },
    };
    let j0 = p_skip_ws(s, r1);
    if j0 < n {
        let c = s.get_char(j0);
        proof {
            assert(s@.skip(j0 as int)[0] == s@[j0 as int]);
        }
        if c == ']' {
            proof {
                lemma_skip_next(s@, j0 as int);
            }
            let ps: Vec<FanPoint> = Vec::new();
            proof {
                assert(ps@ =~= Seq::<FanPoint>::empty());
            }
            return Some((ps, j0 + 1));
        }
    } else {
        proof {
            assert(s@.skip(j0 as int).len() == 0);
        }
    }
    let (p, r2) = match p_point(s, r1) {
        Some(v) => v,
        None => {
            return None;
        },
    };
    let (mut ps, r3) = match p_points_tail(s, r2) {
        Some(v) => v,
        None => {
            return None;
        },
    };
    ps.insert(0, p);
    proof {
        assert(ps@ =~= seq![p] + ps@.drop_first());
    }
    Some((ps, r3))
}

/// Reads one curve object.
fn p_curve(s: &str, i: usize) -> (r: Option<(FanCurve, usize)>)
    requires
        i <= s@.len(),
    ensures
        match r {
            Some((c, j)) => parse_curve(s@.skip(i as int)) == Some(
                (curve_model(&c), s@.skip(j as int)),
            ) && i < j <= s@.len(),
            None => parse_curve(s@.skip(i as int)) is None,
        },
{
    proof {
        reveal_strlit("\"name\"");
        assert("\"name\""@ =~= key_name());
        reveal_strlit("\"points\"");
        assert("\"points\""@ =~= key_points());
    }
    let r1 = match p_sym(s, i, '{') {
        Some(j) => j,
        None => {
            return None;
        },
    };
    let r2 = match p_key(s, r1, "\"name\"") {
        Some(j) => j,
        None => {
            return None;
        },
    };
    let r3 = match p_sym(s, r2, ':') {
        Some(j) => j,
        None => {
            return None;
        },
    };
    let (name, r4) = match p_string(s, r3) {
        Some(v) => v,
        None => {
            return None;
        },
    };
    let r5 = match p_sym(s, r4, ',') {
        Some(j) => j,
        None => {
            return None;
        },
    };
    let r6 = match p_key(s, r5, "\"points\"") {
        Some(j) => j,
        None => {
            return None;
        },
    };
    let r7 = match p_sym(s, r6, ':') {
        Some(j) => j,
        None => {
            return None;
        },
    };
    let (pts, r8) = match p_points(s, r7) {
        Some(v) => v,
        None => {
            return None;
        },
    };
    let r9 = match p_sym(s, r8, '}') {
        Some(j) => j,
        None => {
            return None;
        },
    };
    let mut curve = FanCurve::new(name);
    let dst = curve.points_mut();
    *dst = pts;
    Some((curve, r9))
}

/// Reads the curves after the first: a comma and a curve, repeated, up
/// to the closing bracket.
fn p_curves_tail(s: &str, i: usize) -> (r: Option<(Vec<FanCurve>, usize)>)
    requires
        i <= s@.len(),
    ensures
        match r {
            Some((cs, j)) => (parse_curves_tail(s@.skip(i as int)) matches Some((m, rest))
                && rest == s@.skip(j as int) && m.len() == cs@.len() && (forall|k: int|
                0 <= k < cs@.len() ==> m[k] == curve_model(&cs@[k]))) && i < j <= s@.len(),
            None => parse_curves_tail(s@.skip(i as int)) is None,
        },
    decreases s@.len() - i,
{
    let n = s.unicode_len();
    let j0 = p_skip_ws(s, i);
    if j0 >= n {
        proof {
            assert(s@.skip(j0 as int).len() == 0);
        }
        return None;
    }
    let c = s.get_char(j0);
    proof {
        assert(s@.skip(j0 as int)[0] == s@[j0 as int]);
    }
    if c == ']' {
        proof {
            lemma_skip_next(s@, j0 as int);
        }
        let cs: Vec<FanCurve> = Vec::new();
        proof {
            assert(Seq::<CurveModel>::empty() =~= Seq::<CurveModel>::empty());
        }
        Some((cs, j0 + 1))
    } else if c == ',' {
        proof {
            lemma_skip_next(s@, j0 as int);
        }
        let (cv, r) = match p_curve(s, j0 + 1) {
            Some(v) => v,
            None => {
                return None;
            },
        };
        let (mut cs, r2) = match p_curves_tail(s, r) {
            Some(v) => v,
            None => {
                return None;
            },
        };
        cs.insert(0, cv);
        Some((cs, r2))
    } else {
        None
    }
}

/// Reads a curve list.
fn p_curves(s: &str, i: usize) -> (r: Option<(Vec<FanCurve>, usize)>)
    requires
        i <= s@.len(),
    ensures
        match r {
            Some((cs, j)) => (parse_curves(s@.skip(i as int)) matches Some((m, rest)) && rest
                == s@.skip(j as int) && m.len() == cs@.len() && (forall|k: int|
                0 <= k < cs@.len() ==> m[k] == curve_model(&cs@[k]))) && i < j <= s@.len(),
            None => parse_curves(s@.skip(i as int)) is None,
        },
{
    let n = s.unicode_len();
    let r1 = match p_sym(s, i, '[') {
        Some(j) => j,
        None => {
            return None;
        },
    };
    let j0 = p_skip_ws(s, r1);
    if j0 < n {
        let c = s.get_char(j0);
        proof {
            assert(s@.skip(j0 as int)[0] == s@[j0 as int]);
        }
        if c == ']' {
            proof {
                lemma_skip_next(s@, j0 as int);
            }
            let cs: Vec<FanCurve> = Vec::new();
            return Some((cs, j0 + 1));
        }
    } else {
        proof {
            assert(s@.skip(j0 as int).len() == 0);
        }
    }
    let (cv, r2) = match p_curve(s, r1) {
        Some(v) => v,
        None => {
            return None;
        },
    };
    let (mut cs, r3) = match p_curves_tail(s, r2) {
        Some(v) => v,
        None => {
            return None;
        },
    };
    cs.insert(0, cv);
    Some((cs, r3))
}

/// Reads the default selection: an index or the word `null`.
fn p_default(s: &str, i: usize) -> (r: Option<(Option<usize>, usize)>)
    requires
        i <= s@.len(),
    ensures
        match r {
            Some((d, j)) => parse_default(s@.skip(i as int)) == Some((d, s@.skip(j as int))) && i
                <= j <= s@.len(),
            None => parse_default(s@.skip(i as int)) is None,
        },
{
    proof {
        reveal_strlit("null");
        assert("null"@ =~= kw_null());
    }
    match p_key(s, i, "null") {
        Some(j) => Some((None, j)),
        None => {
            match p_nat(s, i, usize::MAX as u64) {
                Some((v, j)) => Some((Some(v as usize), j)),
                None => None,
            }
        },
    }
}

/// Decodes one stored curve document.  Fails exactly on text that is not
/// a curve document.
pub fn curve_from_json(s: &str) -> (r: Result<FanCurve, FanCurveError>)
    ensures
        match r {
            Ok(c) => parse_curve_doc(s@) == Some(curve_model(&c)),
            Err(e) => parse_curve_doc(s@) is None && e is Serialization,
        },
{
    proof {
        assert(s@.skip(0) =~= s@);
    }
    let n = s.unicode_len();
    match p_curve(s, 0) {
        Some((c, j)) => {
            let jf = p_skip_ws(s, j);
            if jf == n {
                Ok(c)
            } else {
                proof {
                    assert(s@.skip(jf as int).len() > 0);
                }
                Err(FanCurveError::Serialization("trailing text after fan curve".to_owned()))
            }
        },
        None => Err(FanCurveError::Serialization("malformed fan curve document".to_owned())),
    }
}

/// Decodes one stored configuration document.  Fails exactly on text
/// that is not a configuration document.
pub fn config_from_json(s: &str) -> (r: Result<FanCurveConfig, FanCurveError>)
    ensures
        match r {
            Ok(c) => parse_config(s@) == Some(config_model(&c)),
            Err(e) => parse_config(s@) is None && e is Serialization,
        },
{
    proof {
        reveal_strlit("\"curves\"");
        assert("\"curves\""@ =~= key_curves());
        reveal_strlit("\"default_curve_index\"");
        assert("\"default_curve_index\""@ =~= key_default());
        assert(s@.skip(0) =~= s@);
    }
    let n = s.unicode_len();
    let err = "malformed fan curve configuration document";
    let r1 = match p_sym(s, 0, '{') {
        Some(j) => j,
        None => {
            return Err(FanCurveError::Serialization(err.to_owned()));
        },
    };
    let r2 = match p_key(s, r1, "\"curves\"") {
        Some(j) => j,
        None => {
            return Err(FanCurveError::Serialization(err.to_owned()));
        },
    };
    let r3 = match p_sym(s, r2, ':') {
        Some(j) => j,
        None => {
            return Err(FanCurveError::Serialization(err.to_owned()));
        },
    };
    let (cs, r4) = match p_curves(s, r3) {
        Some(v) => v,
        None => {
            return Err(FanCurveError::Serialization(err.to_owned()));
        },
    };
    let r5 = match p_sym(s, r4, ',') {
        Some(j) => j,
        None => {
            return Err(FanCurveError::Serialization(err.to_owned()));
        },
    };
    let r6 = match p_key(s, r5, "\"default_curve_index\"") {
        Some(j) => j,
        None => {
            return Err(FanCurveError::Serialization(err.to_owned()));
        },
    };
    let r7 = match p_sym(s, r6, ':') {
        Some(j) => j,
        None => {
            return Err(FanCurveError::Serialization(err.to_owned()));
        },
    };
    let (d, r8) = match p_default(s, r7) {
        Some(v) => v,
        None => {
            return Err(FanCurveError::Serialization(err.to_owned()));
        },
    };
    let r9 = match p_sym(s, r8, '}') {
        Some(j) => j,
        None => {
            return Err(FanCurveError::Serialization(err.to_owned()));
        },
    };
    let jf = p_skip_ws(s, r9);
    if jf != n {
        proof {
            assert(s@.skip(jf as int).len() > 0);
        }
        return Err(FanCurveError::Serialization(err.to_owned()));
    }
    let config = FanCurveConfig { curves: cs, default_curve_index: d };
    proof {
        let m = parse_config(s@).unwrap();
        assert(config_model(&config).curves =~= m.curves);
    }
    Ok(config)
}

/// The decimal text of a number (used for the values written to the
/// hardware's control files).
pub fn u64_to_string(n: u64) -> (r: String)
    ensures
        r@ == enc_nat(n as nat),
{
    let mut s = String::new();
    w_nat(&mut s, n);
    proof {
        assert(s@ =~= enc_nat(n as nat));
    }
    s
}

/// Encodes one curve as a stored document.
pub fn curve_to_json(c: &FanCurve) -> (r: String)
    ensures
        r@ == enc_curve(curve_model(c)),
{
    let mut out = String::new();
    w_curve(&mut out, c);
    proof {
        assert(out@ =~= enc_curve(curve_model(c)));
    }
    out
}

/// Encodes a whole configuration as a stored document.
pub fn config_to_json(config: &FanCurveConfig) -> (r: String)
    ensures
        r@ == enc_config(config_model(config)),
{
    let ghost model = config_model(config).curves;
    let mut out = String::new();
    out.append("{\"curves\":");
    proof {
        reveal_strlit("{\"curves\":");
        assert("{\"curves\":"@ =~= seq!['{'] + key_curves() + seq![':']);
    }
    w_curves(&mut out, &config.curves, Ghost(model));
    out.append(",\"default_curve_index\":");
    proof {
        reveal_strlit(",\"default_curve_index\":");
        assert(",\"default_curve_index\":"@ =~= seq![','] + key_default() + seq![':']);
    }
    match config.default_curve_index {
        Some(i) => {
            w_nat(&mut out, i as u64);
        },
        None => {
            out.append("null");
            proof {
                reveal_strlit("null");
                assert("null"@ =~= kw_null());
            }
        },
    }
    out.append("}");
    proof {
        reveal_strlit("}");
        assert("}"@ =~= seq!['}']);
        assert(out@ =~= enc_config(config_model(config)));
    }
    out
}

/// Skipping blanks leaves a sequence alone when it starts with none.
proof fn lemma_skip_ws_clean(s: Seq<char>)
    requires
        s.len() == 0 || !is_ws(s[0]),
    ensures
        skip_ws(s) == s,
{
}

/// Every character of an encoded natural number is a digit, and there is
/// at least one.
proof fn lemma_enc_nat_digits(n: nat)
    ensures
        enc_nat(n).len() >= 1,
        forall|i: int| 0 <= i < enc_nat(n).len() ==> is_digit(#[trigger] enc_nat(n)[i]),
    decreases n,
{
    lemma_digit_char((n % 10) as int);
    if n < 10 {
    } else {
        lemma_enc_nat_digits(n / 10);
    }
}

/// The value of a digit run read after already-accumulated `acc`.
pub open spec fn digits_value(a: Seq<char>, acc: nat) -> nat
    decreases a.len(),
{
    if a.len() == 0 {
        acc
    } else {
        digits_value(a.drop_first(), acc * 10 + digit_val(a[0]) as nat)
    }
}

/// `parse_digits` over a digit run followed by anything folds the run
/// and goes on with the rest.
proof fn lemma_parse_digits_concat(a: Seq<char>, b: Seq<char>, acc: nat)
    requires
        forall|i: int| 0 <= i < a.len() ==> is_digit(#[trigger] a[i]),
    ensures
        parse_digits(a + b, acc) == parse_digits(b, digits_value(a, acc)),
    decreases a.len(),
{
    if a.len() == 0 {
        assert(a + b =~= b);
    } else {
        assert((a + b)[0] == a[0]);
        assert((a + b).drop_first() =~= a.drop_first() + b);
        lemma_parse_digits_concat(a.drop_first(), b, acc * 10 + digit_val(a[0]) as nat);
    }
}

/// Folding one more trailing digit multiplies the value by ten.
proof fn lemma_digits_value_push(a: Seq<char>, d: int, acc: nat)
    requires
        0 <= d <= 9,
    ensures
        digits_value(a.push(digit_char(d)), acc) == digits_value(a, acc) * 10 + d,
    decreases a.len(),
{
    lemma_digit_char(d);
    let pushed = a.push(digit_char(d));
    if a.len() == 0 {
        assert(pushed[0] == digit_char(d));
        assert(pushed.drop_first() =~= Seq::<char>::empty());
        assert(digits_value(pushed.drop_first(), acc * 10 + d as nat) == acc * 10 + d as nat);
        assert(digits_value(pushed, acc) == acc * 10 + d);
    } else {
        let acc2 = acc * 10 + digit_val(a[0]) as nat;
        assert(pushed[0] == a[0]);
        assert(pushed.drop_first() =~= a.drop_first().push(digit_char(d)));
        lemma_digits_value_push(a.drop_first(), d, acc2);
        assert(digits_value(pushed, acc) == digits_value(pushed.drop_first(), acc2));
        assert(digits_value(a, acc) == digits_value(a.drop_first(), acc2));
    }
}

/// Reading back the digits of `n` yields `n`.
proof fn lemma_digits_value_enc(n: nat)
    ensures
        digits_value(enc_nat(n), 0) == n,
    decreases n,
{
    lemma_digits_value_enc_acc(n, 0);
}

/// Reading the digits of `n` after `acc` yields `acc` shifted past them
/// plus `n`; only the `acc == 0` corollary is used.
proof fn lemma_digits_value_enc_acc(n: nat, acc: nat)
    ensures
        digits_value(enc_nat(n), acc) == acc * pow10(enc_nat(n).len()) + n,
    decreases n,
{
    lemma_digit_char((n % 10) as int);
    if n < 10 {
        assert(enc_nat(n) =~= Seq::empty().push(digit_char(n as int)));
        lemma_digits_value_push(Seq::empty(), n as int, acc);
        assert(pow10(0) == 1);
        assert(pow10(1) == 10);
    } else {
        lemma_digits_value_enc_acc(n / 10, acc);
        lemma_digits_value_push(enc_nat(n / 10), (n % 10) as int, acc);
        vstd::arithmetic::div_mod::lemma_fundamental_div_mod(n as int, 10);
        let k = enc_nat(n / 10).len();
        assert(enc_nat(n).len() == k + 1);
        assert((acc * pow10(k) + n / 10) * 10 == acc * (pow10(k) * 10) + (n / 10) * 10)
            by (nonlinear_arith);
        assert(pow10(k + 1) == pow10(k) * 10);
    }
}

/// Powers of ten.
pub open spec fn pow10(k: nat) -> nat
    decreases k,
{
    if k == 0 {
        1
    } else {
        pow10((k - 1) as nat) * 10
    }
}

/// A natural number reads back from its encoding, leaving anything that
/// follows a non-digit untouched.
proof fn lemma_rt_nat(n: nat, rest: Seq<char>)
    requires
        rest.len() == 0 || !is_digit(rest[0]),
    ensures
        parse_nat(enc_nat(n) + rest) == Some((n, rest)),
{
    lemma_enc_nat_digits(n);
    let s = enc_nat(n) + rest;
    assert(s[0] == enc_nat(n)[0]);
    lemma_skip_ws_clean(s);
    lemma_parse_digits_concat(enc_nat(n), rest, 0);
    lemma_digits_value_enc(n);
}

/// An integer reads back from its encoding, leaving anything that
/// follows a non-digit untouched.
proof fn lemma_rt_int(v: int, rest: Seq<char>)
    requires
        rest.len() == 0 || !is_digit(rest[0]),
    ensures
        parse_int(enc_int(v) + rest) == Some((v, rest)),
{
    if v < 0 {
        let n = (-v) as nat;
        lemma_enc_nat_digits(n);
        let s = enc_int(v) + rest;
        assert(s[0] == '-');
        assert(!is_ws('-'));
        lemma_skip_ws_clean(s);
        assert(s.drop_first() =~= enc_nat(n) + rest);
        assert(s[1] == enc_nat(n)[0]);
        lemma_parse_digits_concat(enc_nat(n), rest, 0);
        lemma_digits_value_enc(n);
    } else {
        let n = v as nat;
        lemma_enc_nat_digits(n);
        let s = enc_int(v) + rest;
        assert(s[0] == enc_nat(n)[0]);
        assert(!is_ws(s[0]) && s[0] != '-');
        lemma_skip_ws_clean(s);
        lemma_parse_digits_concat(enc_nat(n), rest, 0);
        lemma_digits_value_enc(n);
    }
}

} // verus!
