//! The wire and file formats: the configuration file (a JSON object with
//! a fixed set of fields) and the release manifest (a JSON array of
//! strings). Both the grammar and the printer are defined here as spec
//! functions; the executable parser and printer are proved against them.

use vstd::prelude::*;
use crate::config::{Config, ConfigView};
use crate::strings::{chars_of, string_of, append_str};

verus! {

// ---------------------------------------------------------------------
// The grammar, as spec functions over character sequences.
// ---------------------------------------------------------------------

/// JSON whitespace.
pub open spec fn is_ws_char(c: char) -> bool {
    c == ' ' || c == '\n' || c == '\t' || c == '\r'
}

/// First index at or after `i` that does not hold whitespace.
pub open spec fn skip_ws(s: Seq<char>, i: int) -> int
    decreases s.len() - i,
{
    if 0 <= i < s.len() && is_ws_char(s[i]) {
        skip_ws(s, i + 1)
    } else {
        i
    }
}

/// `Some(end)` when `s` holds exactly `t` starting at `i`.
pub open spec fn expect_lit(s: Seq<char>, i: int, t: Seq<char>) -> Option<int>
    decreases t.len(),
{
    if t.len() == 0 {
        Some(i)
    } else if 0 <= i < s.len() && s[i] == t[0] {
        expect_lit(s, i + 1, t.drop_first())
    } else {
        None
    }
}

/// The character named by a single-letter JSON escape, if any.
pub open spec fn simple_escape(c: char) -> Option<char> {
    if c == '"' {
        Some('"')
    } else if c == '\\' {
        Some('\\')
    } else if c == '/' {
        Some('/')
    } else if c == 'b' {
        Some('\u{8}')
    } else if c == 'f' {
        Some('\u{c}')
    } else if c == 'n' {
        Some('\n')
    } else if c == 'r' {
        Some('\r')
    } else if c == 't' {
        Some('\t')
    } else {
        None
    }
}

/// Value of one hex digit, either case.
pub open spec fn hex_val(c: char) -> Option<u32> {
    let u = c as u32;
    if 48 <= u <= 57 {
        Some((u - 48) as u32)
    } else if 65 <= u <= 70 {
        Some((u - 55) as u32)
    } else if 97 <= u <= 102 {
        Some((u - 87) as u32)
    } else {
        None
    }
}

/// Value of the four hex digits at `i`, if all four are hex digits.
pub open spec fn hex4(s: Seq<char>, i: int) -> Option<u32> {
    if 0 <= i && i + 4 <= s.len() {
        match (hex_val(s[i]), hex_val(s[i + 1]), hex_val(s[i + 2]), hex_val(s[i + 3])) {
            (Some(a), Some(b), Some(c), Some(d)) => Some(
                ((((a * 16 + b) * 16 + c) * 16 + d)) as u32,
            ),
            _ => None,
        }
    } else {
        None
    }
}

/// Parses the body of a JSON string starting at `i` (the opening quote
/// already consumed) up to and including the closing quote. Accepts the
/// single-letter escapes and `\uXXXX` escapes naming characters below
/// 0x80; raw control characters are refused.
pub open spec fn parse_string_body(s: Seq<char>, i: int) -> Option<(Seq<char>, int)>
    decreases s.len() - i,
{
    if !(0 <= i < s.len()) {
        None
    } else if s[i] == '"' {
        Some((Seq::empty(), i + 1))
    } else if s[i] == '\\' {
        if i + 1 < s.len() {
            if simple_escape(s[i + 1]) is Some {
                match parse_string_body(s, i + 2) {
                    Some(p) => Some((seq![simple_escape(s[i + 1])->0] + p.0, p.1)),
                    None => None,
                }
            } else if s[i + 1] == 'u' {
                match hex4(s, i + 2) {
                    Some(u) => if u < 128 {
                        match parse_string_body(s, i + 6) {
                            Some(p) => Some((seq![((u as u8) as char)] + p.0, p.1)),
                            None => None,
                        }
                    } else {
                        None
                    },
                    None => None,
                }
            } else {
                None
            }
        } else {
            None
        }
    } else if (s[i] as u32) < 32 {
        None
    } else {
        match parse_string_body(s, i + 1) {
            Some(p) => Some((seq![s[i]] + p.0, p.1)),
            None => None,
        }
    }
}

/// Decimal digit.
pub open spec fn is_digit(c: char) -> bool {
    48 <= c as u32 <= 57
}

/// Value of a decimal digit.
pub open spec fn digit_of(c: char) -> int {
    c as u32 - 48
}

/// First index at or after `i` that does not hold a digit.
pub open spec fn digits_end(s: Seq<char>, i: int) -> int
    decreases s.len() - i,
{
    if 0 <= i < s.len() && is_digit(s[i]) {
        digits_end(s, i + 1)
    } else {
        i
    }
}

/// Value of the digits `s[i..j)`, most significant first.
pub open spec fn digits_val(s: Seq<char>, i: int, j: int) -> int
    decreases j - i,
{
    if i >= j {
        0
    } else {
        digits_val(s, i, j - 1) * 10 + digit_of(s[j - 1])
    }
}

/// Expects `"key"`, optionally surrounded by whitespace, then a colon,
/// then whitespace; returns the index after it.
pub open spec fn expect_key(s: Seq<char>, i: int, key: Seq<char>) -> Option<int> {
    let i1 = skip_ws(s, i);
    match expect_lit(s, i1, seq!['"'] + key + seq!['"']) {
        Some(i2) => {
            let i3 = skip_ws(s, i2);
            match expect_lit(s, i3, seq![':']) {
                Some(i4) => Some(skip_ws(s, i4)),
                None => None,
            }
        },
        None => None,
    }
}

/// A `"key": "value"` member: returns the value and the index after its
/// closing quote.
pub open spec fn parse_str_field(s: Seq<char>, i: int, key: Seq<char>) -> Option<(Seq<char>, int)> {
    match expect_key(s, i, key) {
        Some(j) => match expect_lit(s, j, seq!['"']) {
            Some(j2) => parse_string_body(s, j2),
            None => None,
        },
        None => None,
    }
}

/// A `"port": n` member with `n` an unsigned decimal that fits in `u32`.
pub open spec fn parse_port_field(s: Seq<char>, i: int) -> Option<(u32, int)> {
    match expect_key(s, i, "port"@) {
        Some(j) => {
            let e = digits_end(s, j);
            if e > j && digits_val(s, j, e) <= u32::MAX {
                Some((digits_val(s, j, e) as u32, e))
            } else {
                None
            }
        },
        None => None,
    }
}

/// Whitespace then a comma.
pub open spec fn expect_comma(s: Seq<char>, i: int) -> Option<int> {
    expect_lit(s, skip_ws(s, i), seq![','])
}

/// The configuration file: a JSON object holding exactly the seven
/// fields, in this order, with arbitrary whitespace between tokens and
/// nothing but whitespace after the closing brace.
pub open spec fn parse_config_text(s: Seq<char>) -> Option<ConfigView> {
    match expect_lit(s, skip_ws(s, 0), seq!['{']) {
        None => None,
        Some(i1) => match parse_str_field(s, i1, "server"@) {
            None => None,
            Some((server, i2)) => match expect_comma(s, i2) {
                None => None,
                Some(i3) => match parse_port_field(s, i3) {
                    None => None,
                    Some((port, i4)) => match expect_comma(s, i4) {
                        None => None,
                        Some(i5) => match parse_str_field(s, i5, "version"@) {
                            None => None,
                            Some((version, i6)) => match expect_comma(s, i6) {
                                None => None,
                                Some(i7) => match parse_str_field(s, i7, "dir"@) {
                                    None => None,
                                    Some((dir, i8)) => match expect_comma(s, i8) {
                                        None => None,
                                        Some(i9) => match parse_str_field(s, i9, "project"@) {
                                            None => None,
                                            Some((project, i10)) => match expect_comma(s, i10) {
                                                None => None,
                                                Some(i11) => match parse_str_field(
                                                    s,
                                                    i11,
                                                    "profile"@,
                                                ) {
                                                    None => None,
                                                    Some((profile, i12)) => match expect_comma(
                                                        s,
                                                        i12,
                                                    ) {
                                                        None => None,
                                                        Some(i13) => match parse_str_field(
                                                            s,
                                                            i13,
                                                            "auth"@,
                                                        ) {
                                                            None => None,
                                                            Some((auth, i14)) => match expect_lit(
                                                                s,
                                                                skip_ws(s, i14),
                                                                seq!['}'],
                                                            ) {
                                                                None => None,
                                                                Some(i15) => if skip_ws(s, i15)
                                                                    == s.len() {
                                                                    Some(
                                                                        ConfigView {
                                                                            server,
                                                                            port,
                                                                            version,
                                                                            dir,
                                                                            project,
                                                                            profile,
                                                                            auth,
                                                                        },
                                                                    )
                                                                } else {
                                                                    None
                                                                },
                                                            },
                                                        },
                                                    },
                                                },
                                            },
                                        },
                                    },
                                },
                            },
                        },
                    },
                },
            },
        },
    }
}

// ---------------------------------------------------------------------
// Bounds of the parsing functions, needed for termination and indices.
// ---------------------------------------------------------------------

pub proof fn lemma_skip_ws_bounds(s: Seq<char>, i: int)
    requires
        0 <= i <= s.len(),
    ensures
        i <= skip_ws(s, i) <= s.len(),
    decreases s.len() - i,
{
    if i < s.len() && is_ws_char(s[i]) {
        lemma_skip_ws_bounds(s, i + 1);
    }
}

pub proof fn lemma_expect_lit_end(s: Seq<char>, i: int, t: Seq<char>)
    ensures
        expect_lit(s, i, t) matches Some(j) ==> j == i + t.len(),
        expect_lit(s, i, t) is Some && t.len() > 0 ==> 0 <= i && i + t.len() <= s.len(),
    decreases t.len(),
{
    if t.len() > 0 && 0 <= i < s.len() && s[i] == t[0] {
        lemma_expect_lit_end(s, i + 1, t.drop_first());
    }
}

pub proof fn lemma_string_body_advances(s: Seq<char>, i: int)
    ensures
        parse_string_body(s, i) matches Some(p) ==> i < p.1 <= s.len(),
    decreases s.len() - i,
{
    if 0 <= i < s.len() {
        if s[i] == '\\' {
            if i + 1 < s.len() {
                if simple_escape(s[i + 1]) is Some {
                    lemma_string_body_advances(s, i + 2);
                } else if s[i + 1] == 'u' && hex4(s, i + 2) is Some {
                    lemma_string_body_advances(s, i + 6);
                }
            }
        } else {
            lemma_string_body_advances(s, i + 1);
        }
    }
}

pub proof fn lemma_expect_key_bounds(s: Seq<char>, i: int, key: Seq<char>)
    requires
        0 <= i <= s.len(),
    ensures
        expect_key(s, i, key) matches Some(j) ==> 0 <= j <= s.len(),
{
    lemma_skip_ws_bounds(s, i);
    let i1 = skip_ws(s, i);
    lemma_expect_lit_end(s, i1, seq!['"'] + key + seq!['"']);
    match expect_lit(s, i1, seq!['"'] + key + seq!['"']) {
        Some(i2) => {
            lemma_skip_ws_bounds(s, i2);
            let i3 = skip_ws(s, i2);
            lemma_expect_lit_end(s, i3, seq![':']);
            match expect_lit(s, i3, seq![':']) {
                Some(i4) => {
                    lemma_skip_ws_bounds(s, i4);
                },
                None => {},
            }
        },
        None => {},
    }
}

// ---------------------------------------------------------------------
// The manifest: a JSON array of strings.
// ---------------------------------------------------------------------

/// One or more strings separated by commas, ending at a closing bracket;
/// `i` points at the opening quote of the first string. Returns the
/// values and the index after the bracket.
pub open spec fn parse_items(s: Seq<char>, i: int) -> Option<(Seq<Seq<char>>, int)>
    decreases s.len() - i
        via parse_items_dec
{
    match expect_lit(s, i, seq!['"']) {
        None => None,
        Some(j0) => match parse_string_body(s, j0) {
            None => None,
            Some(p) => {
                let j1 = skip_ws(s, p.1);
                match expect_lit(s, j1, seq![']']) {
                    Some(j2) => Some((seq![p.0], j2)),
                    None => match expect_lit(s, j1, seq![',']) {
                        None => None,
                        Some(j2) => {
                            let j3 = skip_ws(s, j2);
                            match parse_items(s, j3) {
                                None => None,
                                Some(q) => Some((seq![p.0] + q.0, q.1)),
                            }
                        },
                    },
                }
            },
        },
    }
}

#[via_fn]
proof fn parse_items_dec(s: Seq<char>, i: int) {
    match expect_lit(s, i, seq!['"']) {
        None => {},
        Some(j0) => {
            lemma_expect_lit_end(s, i, seq!['"']);
            match parse_string_body(s, j0) {
                None => {},
                Some(p) => {
                    lemma_string_body_advances(s, j0);
                    lemma_skip_ws_bounds(s, p.1);
                    let j1 = skip_ws(s, p.1);
                    match expect_lit(s, j1, seq![',']) {
                        None => {},
                        Some(j2) => {
                            lemma_expect_lit_end(s, j1, seq![',']);
                            lemma_skip_ws_bounds(s, j2);
                        },
                    }
                },
            }
        },
    }
}

/// The manifest body: a JSON array of strings, with arbitrary whitespace
/// and nothing but whitespace after the closing bracket.
pub open spec fn parse_manifest_text(s: Seq<char>) -> Option<Seq<Seq<char>>> {
    match expect_lit(s, skip_ws(s, 0), seq!['[']) {
        None => None,
        Some(i1) => {
            let i2 = skip_ws(s, i1);
            match expect_lit(s, i2, seq![']']) {
                Some(j) => if skip_ws(s, j) == s.len() {
                    Some(Seq::empty())
                } else {
                    None
                },
                None => match parse_items(s, i2) {
                    None => None,
                    Some(q) => if skip_ws(s, q.1) == s.len() {
                        Some(q.0)
                    } else {
                        None
                    },
                },
            }
        },
    }
}

// ---------------------------------------------------------------------
// The printer, as spec functions.
// ---------------------------------------------------------------------

/// Lower-case hex digit.
pub open spec fn hex_digit_lower(d: int) -> char {
    if d < 10 {
        ((d + 48) as u8) as char
    } else {
        ((d + 87) as u8) as char
    }
}

/// How one character is written inside a JSON string: quote and backslash
/// are escaped, control characters get their short escape or a `\u00xx`
/// escape, everything else stands as itself.
pub open spec fn escape_char(c: char) -> Seq<char> {
    let u = c as u32;
    if c == '"' {
        seq!['\\', '"']
    } else if c == '\\' {
        seq!['\\', '\\']
    } else if u == 8 {
        seq!['\\', 'b']
    } else if u == 9 {
        seq!['\\', 't']
    } else if u == 10 {
        seq!['\\', 'n']
    } else if u == 12 {
        seq!['\\', 'f']
    } else if u == 13 {
        seq!['\\', 'r']
    } else if u < 32 {
        seq!['\\', 'u', '0', '0', hex_digit_lower(u as int / 16), hex_digit_lower(u as int % 16)]
    } else {
        seq![c]
    }
}

/// A whole string value, escaped.
pub open spec fn json_escaped(s: Seq<char>) -> Seq<char>
    decreases s.len(),
{
    if s.len() == 0 {
        Seq::empty()
    } else {
        escape_char(s[0]) + json_escaped(s.drop_first())
    }
}

/// Decimal digit character.
pub open spec fn digit_char(d: int) -> char {
    ((d + 48) as u8) as char
}

/// `n` written in decimal, most significant digit first.
pub open spec fn dec_str(n: int) -> Seq<char>
    decreases n,
{
    if n < 10 {
        seq![digit_char(n)]
    } else {
        dec_str(n / 10).push(digit_char(n % 10))
    }
}

/// A `"key": "value"` member as the printer writes it.
pub open spec fn str_member(key: Seq<char>, val: Seq<char>) -> Seq<char> {
    seq!['"'] + key + "\": \""@ + json_escaped(val) + seq!['"']
}

/// The configuration file as the printer writes it: one member per line,
/// two-space indentation.
pub open spec fn render_config_view(c: ConfigView) -> Seq<char> {
    "{\n  "@ + str_member("server"@, c.server) + ",\n  \"port\": "@ + dec_str(c.port as int)
        + ",\n  "@ + str_member("version"@, c.version) + ",\n  "@ + str_member("dir"@, c.dir)
        + ",\n  "@ + str_member("project"@, c.project) + ",\n  "@ + str_member(
        "profile"@,
        c.profile,
    ) + ",\n  "@ + str_member("auth"@, c.auth) + "\n}"@
}

// ---------------------------------------------------------------------
// The executable parser.
// ---------------------------------------------------------------------

fn skip_ws_exec(v: &Vec<char>, i: usize) -> (r: usize)
    requires
        i <= v@.len(),
    ensures
        r as int == skip_ws(v@, i as int),
        i <= r <= v@.len(),
{
    let mut j = i;
    while j < v.len() && (v[j] == ' ' || v[j] == '\n' || v[j] == '\t' || v[j] == '\r')
        invariant
            i <= j <= v@.len(),
            skip_ws(v@, i as int) == skip_ws(v@, j as int),
        decreases v@.len() - j,
    {
        j = j + 1;
    }
    j
}

proof fn lemma_expect_one(s: Seq<char>, i: int, c: char)
    ensures
        expect_lit(s, i, seq![c]) == (if 0 <= i < s.len() && s[i] == c {
            Some(i + 1)
        } else {
            None::<int>
        }),
{
    assert(seq![c].len() == 1);
    assert(seq![c][0] == c);
    if 0 <= i < s.len() && s[i] == c {
        assert(seq![c].drop_first().len() == 0);
        assert(expect_lit(s, i + 1, seq![c].drop_first()) == Some(i + 1));
    }
}

fn expect_ch(v: &Vec<char>, i: usize, c: char) -> (r: Option<usize>)
    ensures
        (r is Some <==> expect_lit(v@, i as int, seq![c]) is Some),
        r matches Some(j) ==> Some(j as int) == expect_lit(v@, i as int, seq![c]) && j == i + 1
            && j <= v@.len(),
{
    proof {
        lemma_expect_one(v@, i as int, c);
    }
    if i < v.len() && v[i] == c {
        Some(i + 1)
    } else {
        None
    }
}

pub proof fn lemma_expect_lit_concat(s: Seq<char>, i: int, a: Seq<char>, b: Seq<char>)
    ensures
        expect_lit(s, i, a + b) == (match expect_lit(s, i, a) {
            Some(j) => expect_lit(s, j, b),
            None => None::<int>,
        }),
    decreases a.len(),
{
    if a.len() == 0 {
        assert(a + b =~= b);
    } else {
        assert((a + b).len() > 0);
        assert((a + b)[0] == a[0]);
        if 0 <= i < s.len() && s[i] == a[0] {
            assert((a + b).drop_first() =~= a.drop_first() + b);
            lemma_expect_lit_concat(s, i + 1, a.drop_first(), b);
        }
    }
}

fn expect_str(v: &Vec<char>, i: usize, t: &str) -> (r: Option<usize>)
    requires
        i <= v@.len(),
    ensures
        (r is Some <==> expect_lit(v@, i as int, t@) is Some),
        r matches Some(j) ==> Some(j as int) == expect_lit(v@, i as int, t@) && j <= v@.len(),
{
    let tc = chars_of(t);
    let mut k: usize = 0;
    let mut j = i;
    proof {
        assert(t@.skip(0) =~= t@);
    }
    while k < tc.len()
        invariant
            j <= v@.len(),
            k <= tc@.len(),
            tc@ == t@,
            expect_lit(v@, i as int, t@) == expect_lit(v@, j as int, t@.skip(k as int)),
        decreases tc@.len() - k,
    {
        proof {
            assert(t@.skip(k as int).len() > 0);
            assert(t@.skip(k as int)[0] == t@[k as int]);
        }
        if j < v.len() && v[j] == tc[k] {
            proof {
                assert(t@.skip(k as int).drop_first() =~= t@.skip(k + 1));
            }
            j = j + 1;
            k = k + 1;
        } else {
            return None;
        }
    }
    proof {
        assert(t@.skip(tc@.len() as int) =~= Seq::<char>::empty());
    }
    Some(j)
}

fn simple_escape_exec(c: char) -> (r: Option<char>)
    ensures
        r == simple_escape(c),
{
    if c == '"' {
        Some('"')
    } else if c == '\\' {
        Some('\\')
    } else if c == '/' {
        Some('/')
    } else if c == 'b' {
        Some('\u{8}')
    } else if c == 'f' {
        Some('\u{c}')
    } else if c == 'n' {
        Some('\n')
    } else if c == 'r' {
        Some('\r')
    } else if c == 't' {
        Some('\t')
    } else {
        None
    }
}

fn hex_val_exec(c: char) -> (r: Option<u32>)
    ensures
        r == hex_val(c),
{
    let u = c as u32;
    if 48 <= u && u <= 57 {
        Some(u - 48)
    } else if 65 <= u && u <= 70 {
        Some(u - 55)
    } else if 97 <= u && u <= 102 {
        Some(u - 87)
    } else {
        None
    }
}

#[verifier::rlimit(60)]
fn parse_string_body_exec(v: &Vec<char>, i: usize) -> (r: Option<(Vec<char>, usize)>)
    ensures
        (r is Some <==> parse_string_body(v@, i as int) is Some),
        r matches Some(p) ==> parse_string_body(v@, i as int) matches Some(q) && p.0@ == q.0
            && p.1 as int == q.1 && p.1 <= v@.len(),
    decreases v@.len() - i,
{
    if i >= v.len() {
        None
    } else if v[i] == '"' {
        Some((Vec::new(), i + 1))
    } else if v[i] == '\\' {
        if i + 1 < v.len() {
            match simple_escape_exec(v[i + 1]) {
                Some(c) => match parse_string_body_exec(v, i + 2) {
                    Some((mut w, j)) => {
                        let ghost w0 = w@;
                        w.insert(0, c);
                        proof {
                            assert(w@ =~= seq![c] + w0);
                        }
                        Some((w, j))
                    },
                    None => None,
                },
                None => {
                    if v[i + 1] == 'u' && v.len() >= 6 && i <= v.len() - 6 {
                        let h = (
                            hex_val_exec(v[i + 2]),
                            hex_val_exec(v[i + 3]),
                            hex_val_exec(v[i + 4]),
                            hex_val_exec(v[i + 5]),
                        );
                        match h {
                            (Some(a), Some(b), Some(c), Some(d)) => {
                                let u = ((a * 16 + b) * 16 + c) * 16 + d;
                                if u < 128 {
                                    match parse_string_body_exec(v, i + 6) {
                                        Some((mut w, j)) => {
                                            let ghost w0 = w@;
                                            w.insert(0, (u as u8) as char);
                                            proof {
                                                assert(w@ =~= seq![((u as u8) as char)] + w0);
                                            }
                                            Some((w, j))
                                        },
                                        None => None,
                                    }
                                } else {
                                    None
                                }
                            },
                            _ => None,
                        }
                    } else {
                        None
                    }
                },
            }
        } else {
            None
        }
    } else if (v[i] as u32) < 32 {
        None
    } else {
        match parse_string_body_exec(v, i + 1) {
            Some((mut w, j)) => {
                let ghost w0 = w@;
                let c = v[i];
                w.insert(0, c);
                proof {
                    assert(w@ =~= seq![v@[i as int]] + w0);
                }
                Some((w, j))
            },
            None => None,
        }
    }
}

fn expect_key_exec(v: &Vec<char>, i: usize, key: &str) -> (r: Option<usize>)
    requires
        i <= v@.len(),
    ensures
        (r is Some <==> expect_key(v@, i as int, key@) is Some),
        r matches Some(j) ==> Some(j as int) == expect_key(v@, i as int, key@) && j <= v@.len(),
{
    let i1 = skip_ws_exec(v, i);
    let ghost quoted = seq!['"'] + key@ + seq!['"'];
    proof {
        lemma_expect_lit_concat(v@, i1 as int, seq!['"'] + key@, seq!['"']);
        lemma_expect_lit_concat(v@, i1 as int, seq!['"'], key@);
    }
    match expect_ch(v, i1, '"') {
        None => None,
        Some(ia) => match expect_str(v, ia, key) {
            None => None,
            Some(ib) => match expect_ch(v, ib, '"') {
                None => None,
                Some(i2) => {
                    let i3 = skip_ws_exec(v, i2);
                    match expect_ch(v, i3, ':') {
                        None => None,
                        Some(i4) => Some(skip_ws_exec(v, i4)),
                    }
                },
            },
        },
    }
}

fn parse_str_field_exec(v: &Vec<char>, i: usize, key: &str) -> (r: Option<(Vec<char>, usize)>)
    requires
        i <= v@.len(),
    ensures
        (r is Some <==> parse_str_field(v@, i as int, key@) is Some),
        r matches Some(p) ==> parse_str_field(v@, i as int, key@) matches Some(q) && p.0@ == q.0
            && p.1 as int == q.1 && p.1 <= v@.len(),
{
    match expect_key_exec(v, i, key) {
        None => None,
        Some(j) => match expect_ch(v, j, '"') {
            None => None,
            Some(j2) => parse_string_body_exec(v, j2),
        },
    }
}

fn is_digit_exec(c: char) -> (r: bool)
    ensures
        r == is_digit(c),
{
    let u = c as u32;
    48 <= u && u <= 57
}

fn parse_num(v: &Vec<char>, i: usize) -> (r: Option<(u32, usize)>)
    requires
        i <= v@.len(),
    ensures
        (r is Some <==> digits_end(v@, i as int) > i && digits_val(v@, i as int, digits_end(v@, i as int))
            <= u32::MAX),
        r matches Some(p) ==> p.1 as int == digits_end(v@, i as int) && p.0 == digits_val(
            v@,
            i as int,
            digits_end(v@, i as int),
        ) && p.1 <= v@.len(),
{
    let mut j = i;
    let mut acc: u64 = 0;
    let mut over = false;
    while j < v.len() && is_digit_exec(v[j])
        invariant
            i <= j <= v@.len(),
            digits_end(v@, i as int) == digits_end(v@, j as int),
            over <==> digits_val(v@, i as int, j as int) > u32::MAX,
            !over ==> acc == digits_val(v@, i as int, j as int) && acc <= u32::MAX,
        decreases v@.len() - j,
    {
        let d = (v[j] as u32 - 48) as u64;
        proof {
            assert(digits_val(v@, i as int, j + 1) == digits_val(v@, i as int, j as int) * 10
                + digit_of(v@[j as int]));
        }
        if !over {
            let acc2 = acc * 10 + d;
            if acc2 > 0xFFFF_FFFF {
                over = true;
            } else {
                acc = acc2;
            }
        }
        j = j + 1;
    }
    if j == i || over {
        None
    } else {
        Some((acc as u32, j))
    }
}

fn parse_port_field_exec(v: &Vec<char>, i: usize) -> (r: Option<(u32, usize)>)
    requires
        i <= v@.len(),
    ensures
        (r is Some <==> parse_port_field(v@, i as int) is Some),
        r matches Some(p) ==> parse_port_field(v@, i as int) matches Some(q) && p.0 == q.0
            && p.1 as int == q.1 && p.1 <= v@.len(),
{
    match expect_key_exec(v, i, "port") {
        None => None,
        Some(j) => parse_num(v, j),
    }
}

fn expect_comma_exec(v: &Vec<char>, i: usize) -> (r: Option<usize>)
    requires
        i <= v@.len(),
    ensures
        (r is Some <==> expect_comma(v@, i as int) is Some),
        r matches Some(j) ==> Some(j as int) == expect_comma(v@, i as int) && j <= v@.len(),
{
    let j = skip_ws_exec(v, i);
    expect_ch(v, j, ',')
}

/// Parses the text of a configuration file. Returns the configuration
/// exactly when the text matches the grammar in `parse_config_text`.
pub fn parse_config(s: &str) -> (r: Option<Config>)
    ensures
        (r is Some <==> parse_config_text(s@) is Some),
        r matches Some(c) ==> parse_config_text(s@) == Some(c@),
{
    let v = chars_of(s);
    let i0 = skip_ws_exec(&v, 0);
    let i1 = match expect_ch(&v, i0, '{') {
        None => {
            return None;
        },
        Some(i1) => i1,
    };
    let (server, i2) = match parse_str_field_exec(&v, i1, "server") {
        None => {
            return None;
        },
        Some(p) => p,
    };
    let i3 = match expect_comma_exec(&v, i2) {
        None => {
            return None;
        },
        Some(j) => j,
    };
    let (port, i4) = match parse_port_field_exec(&v, i3) {
        None => {
            return None;
        },
        Some(p) => p,
    };
    let i5 = match expect_comma_exec(&v, i4) {
        None => {
            return None;
        },
        Some(j) => j,
    };
    let (version, i6) = match parse_str_field_exec(&v, i5, "version") {
        None => {
            return None;
        },
        Some(p) => p,
    };
    let i7 = match expect_comma_exec(&v, i6) {
        None => {
            return None;
        },
        Some(j) => j,
    };
    let (dir, i8) = match parse_str_field_exec(&v, i7, "dir") {
        None => {
            return None;
        },
        Some(p) => p,
    };
    let i9 = match expect_comma_exec(&v, i8) {
        None => {
            return None;
        },
        Some(j) => j,
    };
    let (project, i10) = match parse_str_field_exec(&v, i9, "project") {
        None => {
            return None;
        },
        Some(p) => p,
    };
    let i11 = match expect_comma_exec(&v, i10) {
        None => {
            return None;
        },
        Some(j) => j,
    };
    let (profile, i12) = match parse_str_field_exec(&v, i11, "profile") {
        None => {
            return None;
        },
        Some(p) => p,
    };
    let i13 = match expect_comma_exec(&v, i12) {
        None => {
            return None;
        },
        Some(j) => j,
    };
    let (auth, i14) = match parse_str_field_exec(&v, i13, "auth") {
        None => {
            return None;
        },
        Some(p) => p,
    };
    let j = skip_ws_exec(&v, i14);
    let i15 = match expect_ch(&v, j, '}') {
        None => {
            return None;
        },
        Some(j2) => j2,
    };
    if skip_ws_exec(&v, i15) != v.len() {
        return None;
    }
    Some(
        Config {
            server: string_of(&server),
            port,
            version: string_of(&version),
            dir: string_of(&dir),
            project: string_of(&project),
            profile: string_of(&profile),
            auth: string_of(&auth),
        },
    )
}

fn parse_items_exec(v: &Vec<char>, i: usize) -> (r: Option<(Vec<String>, usize)>)
    requires
        i <= v@.len(),
    ensures
        (r is Some <==> parse_items(v@, i as int) is Some),
        r matches Some(p) ==> parse_items(v@, i as int) matches Some(q) && p.0.deep_view() == q.0
            && p.1 as int == q.1 && p.1 <= v@.len(),
    decreases v@.len() - i,
{
    let j0 = match expect_ch(v, i, '"') {
        None => {
            return None;
        },
        Some(j) => j,
    };
    let (w, je) = match parse_string_body_exec(v, j0) {
        None => {
            return None;
        },
        Some(p) => p,
    };
    let first = string_of(&w);
    let j1 = skip_ws_exec(v, je);
    match expect_ch(v, j1, ']') {
        Some(j2) => {
            let mut out: Vec<String> = Vec::new();
            out.push(first);
            proof {
                assert(out.deep_view() =~= seq![w@]);
            }
            Some((out, j2))
        },
        None => {
            let j2 = match expect_ch(v, j1, ',') {
                None => {
                    return None;
                },
                Some(j) => j,
            };
            let j3 = skip_ws_exec(v, j2);
            proof {
                lemma_string_body_advances(v@, j0 as int);
            }
            match parse_items_exec(v, j3) {
                None => None,
                Some((mut rest, jr)) => {
                    let ghost rest0 = rest.deep_view();
                    rest.insert(0, first);
                    proof {
                        assert(rest.deep_view() =~= seq![w@] + rest0);
                    }
                    Some((rest, jr))
                },
            }
        },
    }
}

/// Parses the manifest body. Returns the ordered locations exactly when
/// the text matches the grammar in `parse_manifest_text`.
pub fn parse_manifest(s: &str) -> (r: Option<Vec<String>>)
    ensures
        (r is Some <==> parse_manifest_text(s@) is Some),
        r matches Some(fs) ==> parse_manifest_text(s@) == Some(fs.deep_view()),
{
    let v = chars_of(s);
    let i0 = skip_ws_exec(&v, 0);
    let i1 = match expect_ch(&v, i0, '[') {
        None => {
            return None;
        },
        Some(j) => j,
    };
    let i2 = skip_ws_exec(&v, i1);
    match expect_ch(&v, i2, ']') {
        Some(j) => {
            if skip_ws_exec(&v, j) == v.len() {
                let out: Vec<String> = Vec::new();
                proof {
                    assert(out.deep_view() =~= Seq::<Seq<char>>::empty());
                }
                Some(out)
            } else {
                None
            }
        },
        None => {
            match parse_items_exec(&v, i2) {
                None => None,
                Some((items, je)) => {
                    if skip_ws_exec(&v, je) == v.len() {
                        Some(items)
                    } else {
                        None
                    }
                },
            }
        },
    }
}

// ---------------------------------------------------------------------
// The executable printer.
// ---------------------------------------------------------------------

proof fn lemma_json_escaped_push(a: Seq<char>, x: char)
    ensures
        json_escaped(a.push(x)) == json_escaped(a) + escape_char(x),
    decreases a.len(),
{
    if a.len() == 0 {
        assert(a.push(x).len() == 1);
        assert(a.push(x)[0] == x);
        assert(a.push(x).drop_first() =~= Seq::<char>::empty());
        assert(json_escaped(a.push(x).drop_first()) == Seq::<char>::empty());
        assert(json_escaped(a.push(x)) =~= json_escaped(a) + escape_char(x));
    } else {
        assert(a.push(x)[0] == a[0]);
        assert(a.push(x).drop_first() =~= a.drop_first().push(x));
        lemma_json_escaped_push(a.drop_first(), x);
        assert(json_escaped(a.push(x)) == escape_char(a[0]) + (json_escaped(a.drop_first())
            + escape_char(x)));
        assert(escape_char(a[0]) + (json_escaped(a.drop_first()) + escape_char(x)) =~= (escape_char(
            a[0],
        ) + json_escaped(a.drop_first())) + escape_char(x));
    }
}

fn append_escaped(out: &mut Vec<char>, val: &str)
    ensures
        final(out)@ == old(out)@ + json_escaped(val@),
{
    let ghost o0 = old(out)@;
    let v = chars_of(val);
    let mut i: usize = 0;
    proof {
        assert(val@.take(0) =~= Seq::<char>::empty());
        assert(out@ =~= o0 + json_escaped(val@.take(0)));
    }
    while i < v.len()
        invariant
            i <= v@.len(),
            v@ == val@,
            out@ == o0 + json_escaped(val@.take(i as int)),
        decreases v@.len() - i,
    {
        let c = v[i];
        let u = c as u32;
        if c == '"' {
            out.push('\\');
            out.push('"');
        } else if c == '\\' {
            out.push('\\');
            out.push('\\');
        } else if u == 8 {
            out.push('\\');
            out.push('b');
        } else if u == 9 {
            out.push('\\');
            out.push('t');
        } else if u == 10 {
            out.push('\\');
            out.push('n');
        } else if u == 12 {
            out.push('\\');
            out.push('f');
        } else if u == 13 {
            out.push('\\');
            out.push('r');
        } else if u < 32 {
            out.push('\\');
            out.push('u');
            out.push('0');
            out.push('0');
            let hi = u / 16;
            let lo = u % 16;
            out.push(if hi < 10 {
                ((hi as u8) + 48) as char
            } else {
                ((hi as u8) + 87) as char
            });
            out.push(if lo < 10 {
                ((lo as u8) + 48) as char
            } else {
                ((lo as u8) + 87) as char
            });
        } else {
            out.push(c);
        }
        proof {
            assert(out@ =~= (o0 + json_escaped(val@.take(i as int))) + escape_char(v@[i as int]));
            assert(val@.take(i + 1) =~= val@.take(i as int).push(val@[i as int]));
            lemma_json_escaped_push(val@.take(i as int), val@[i as int]);
            assert(out@ =~= o0 + json_escaped(val@.take(i + 1)));
        }
        i = i + 1;
    }
    proof {
        assert(val@.take(v@.len() as int) =~= val@);
    }
}

pub(crate) fn append_dec(out: &mut Vec<char>, n: u32)
    ensures
        final(out)@ == old(out)@ + dec_str(n as int),
    decreases n,
{
    if n < 10 {
        out.push(((n as u8) + 48) as char);
        proof {
            assert(old(out)@ + dec_str(n as int) =~= old(out)@.push(digit_char(n as int)));
        }
    } else {
        append_dec(out, n / 10);
        out.push((((n % 10) as u8) + 48) as char);
        proof {
            assert(old(out)@ + dec_str(n as int) =~= (old(out)@ + dec_str(n as int / 10)).push(
                digit_char(n as int % 10),
            ));
        }
    }
}

fn append_member(out: &mut Vec<char>, key: &str, val: &str)
    ensures
        final(out)@ == old(out)@ + str_member(key@, val@),
{
    let ghost o0 = old(out)@;
    out.push('"');
    append_str(out, key);
    append_str(out, "\": \"");
    append_escaped(out, val);
    out.push('"');
    proof {
        assert(out@ =~= o0 + str_member(key@, val@));
    }
}

/// Writes a configuration in the form the loader reads back: one member
/// per line, two-space indentation, fields in their fixed order.
pub fn render_config(c: &Config) -> (s: String)
    ensures
        s@ == render_config_view(c@),
{
    let mut out: Vec<char> = Vec::new();
    append_str(&mut out, "{\n  ");
    append_member(&mut out, "server", c.server.as_str());
    append_str(&mut out, ",\n  \"port\": ");
    append_dec(&mut out, c.port);
    append_str(&mut out, ",\n  ");
    append_member(&mut out, "version", c.version.as_str());
    append_str(&mut out, ",\n  ");
    append_member(&mut out, "dir", c.dir.as_str());
    append_str(&mut out, ",\n  ");
    append_member(&mut out, "project", c.project.as_str());
    append_str(&mut out, ",\n  ");
    append_member(&mut out, "profile", c.profile.as_str());
    append_str(&mut out, ",\n  ");
    append_member(&mut out, "auth", c.auth.as_str());
    append_str(&mut out, "\n}");
    proof {
        assert(out@ =~= render_config_view(c@));
    }
    string_of(&out)
}

// ---------------------------------------------------------------------
// The loader.
// ---------------------------------------------------------------------

/// Why a configuration file could not be loaded.
#[derive(Clone, Copy, PartialEq, Eq, Structural, Debug)]
pub enum ConfigError {
    /// The file did not exist or could not be read.
    NotFound,
    /// The file was read but did not match the configuration grammar.
    Format,
}

/// Classifies the contents of the configuration file: `None` (the file
/// could not be read) is reported as not found, text outside the grammar
/// as a format error, and anything else parses into a configuration.
/// Never panics, whatever the file held.
pub fn load_config(contents: Option<&str>) -> (r: Result<Config, ConfigError>)
    ensures
        (r == Err::<Config, ConfigError>(ConfigError::NotFound) <==> contents is None),
        (r == Err::<Config, ConfigError>(ConfigError::Format) <==> (contents matches Some(s)
            && parse_config_text(s@) is None)),
        contents matches Some(s) ==> (parse_config_text(s@) matches Some(cv) ==> r matches Ok(c)
            && c@ == cv),
{
    match contents {
        None => Err(ConfigError::NotFound),
        Some(s) => match parse_config(s) {
            Some(c) => {
                proof {
                    assert(parse_config_text(s@) == Some(c@));
                }
                Ok(c)
            },
            None => Err(ConfigError::Format),
        },
    }
}

// ---------------------------------------------------------------------
// The printer inverts into the parser.
// ---------------------------------------------------------------------

/// Text that the printer writes unchanged: no quote, no backslash, no
/// control character.
pub open spec fn plain_text(s: Seq<char>) -> bool {
    forall|k: int|
        0 <= k < s.len() ==> (#[trigger] s[k]) != '"' && s[k] != '\\' && (s[k] as u32) >= 32
}

/// A configuration whose strings are all plain.
pub open spec fn plain_config(c: ConfigView) -> bool {
    &&& plain_text(c.server)
    &&& plain_text(c.version)
    &&& plain_text(c.dir)
    &&& plain_text(c.project)
    &&& plain_text(c.profile)
    &&& plain_text(c.auth)
}

proof fn lemma_plain_escaped(s: Seq<char>)
    requires
        plain_text(s),
    ensures
        json_escaped(s) == s,
    decreases s.len(),
{
    if s.len() == 0 {
        assert(json_escaped(s) =~= s);
    } else {
        assert(plain_text(s.drop_first()));
        lemma_plain_escaped(s.drop_first());
        assert(escape_char(s[0]) == seq![s[0]]);
        assert(json_escaped(s) =~= s);
    }
}

proof fn lemma_skip_ws_run(s: Seq<char>, i: int, j: int)
    requires
        0 <= i <= j <= s.len(),
        forall|k: int| i <= k < j ==> is_ws_char(#[trigger] s[k]),
        j == s.len() || !is_ws_char(s[j]),
    ensures
        skip_ws(s, i) == j,
    decreases j - i,
{
    if i < j {
        lemma_skip_ws_run(s, i + 1, j);
    }
}

proof fn lemma_expect_lit_sub(s: Seq<char>, i: int, t: Seq<char>)
    requires
        0 <= i,
        i + t.len() <= s.len(),
        s.subrange(i, i + t.len()) == t,
    ensures
        expect_lit(s, i, t) == Some(i + t.len()),
    decreases t.len(),
{
    if t.len() > 0 {
        assert(s[i] == t[0]);
        assert(s.subrange(i + 1, i + 1 + t.drop_first().len()) =~= t.drop_first());
        lemma_expect_lit_sub(s, i + 1, t.drop_first());
    }
}

proof fn lemma_parse_plain_body(s: Seq<char>, i: int, t: Seq<char>)
    requires
        plain_text(t),
        0 <= i,
        i + t.len() + 1 <= s.len(),
        s.subrange(i, i + t.len()) == t,
        s[i + t.len()] == '"',
    ensures
        parse_string_body(s, i) == Some((t, i + t.len() + 1)),
    decreases t.len(),
{
    if t.len() == 0 {
        assert(s[i] == '"');
        assert(t =~= Seq::<char>::empty());
    } else {
        assert(s[i] == t[0]);
        assert(plain_text(t.drop_first()));
        assert(s.subrange(i + 1, i + 1 + t.drop_first().len()) =~= t.drop_first());
        lemma_parse_plain_body(s, i + 1, t.drop_first());
        assert(seq![s[i]] + t.drop_first() =~= t);
    }
}

proof fn lemma_dec_str_digits(n: int)
    requires
        n >= 0,
    ensures
        dec_str(n).len() >= 1,
        forall|k: int| 0 <= k < dec_str(n).len() ==> is_digit(#[trigger] dec_str(n)[k]),
    decreases n,
{
    if n < 10 {
        assert(dec_str(n)[0] == digit_char(n));
        assert(is_digit(digit_char(n)));
    } else {
        lemma_dec_str_digits(n / 10);
        assert(forall|k: int|
            0 <= k < dec_str(n).len() ==> is_digit(#[trigger] dec_str(n)[k])) by {
            assert(dec_str(n) == dec_str(n / 10).push(digit_char(n % 10)));
            assert(is_digit(digit_char(n % 10)));
            assert(forall|k: int|
                0 <= k < dec_str(n / 10).len() ==> is_digit(#[trigger] dec_str(n / 10)[k]));
        }
    }
}

proof fn lemma_digits_run(s: Seq<char>, i: int, j: int)
    requires
        0 <= i <= j <= s.len(),
        forall|k: int| i <= k < j ==> is_digit(#[trigger] s[k]),
        j == s.len() || !is_digit(s[j]),
    ensures
        digits_end(s, i) == j,
    decreases j - i,
{
    if i < j {
        lemma_digits_run(s, i + 1, j);
    }
}

proof fn lemma_digits_val_of_dec(s: Seq<char>, i: int, n: int)
    requires
        n >= 0,
        0 <= i,
        i + dec_str(n).len() <= s.len(),
        s.subrange(i, i + dec_str(n).len()) == dec_str(n),
    ensures
        digits_val(s, i, i + dec_str(n).len()) == n,
    decreases n,
{
    if n < 10 {
        assert(s[i] == s.subrange(i, i + 1)[0]);
        assert(s[i] == digit_char(n));
        assert(digits_val(s, i, i) == 0);
        assert(digits_val(s, i, i + 1) == digit_of(digit_char(n)));
        assert(digit_of(digit_char(n)) == n);
    } else {
        let d = dec_str(n);
        let dp = dec_str(n / 10);
        assert(d == dp.push(digit_char(n % 10)));
        lemma_index_of_eq(s, i, d);
        assert(s.subrange(i, i + dp.len()) =~= dp);
        lemma_digits_val_of_dec(s, i, n / 10);
        assert(s[i + d.len() - 1] == d[d.len() - 1]);
        assert(d[d.len() - 1] == digit_char(n % 10));
        assert(digits_val(s, i, i + d.len()) == digits_val(s, i, i + d.len() - 1) * 10 + digit_of(
            s[i + d.len() - 1],
        ));
        assert(digit_of(digit_char(n % 10)) == n % 10);
        assert((n / 10) * 10 + n % 10 == n);
    }
}

proof fn lemma_index_of_eq(s: Seq<char>, i: int, t: Seq<char>)
    requires
        0 <= i,
        i + t.len() <= s.len(),
        s.subrange(i, i + t.len()) == t,
    ensures
        forall|k: int| 0 <= k < t.len() ==> s[i + k] == #[trigger] t[k],
{
    assert(forall|k: int|
        0 <= k < t.len() ==> s.subrange(i, i + t.len())[k] == #[trigger] t[k]);
}

/// One `"key": "value"` member, preceded by the printer's line break and
/// indentation, parses back to exactly the value.
proof fn lemma_parse_member(s: Seq<char>, i: int, key: Seq<char>, val: Seq<char>)
    requires
        plain_text(val),
        0 <= i,
        i + 9 + key.len() + val.len() <= s.len(),
        s.subrange(i, i + 3) == "\n  "@,
        s.subrange(i + 3, i + 9 + key.len() + val.len()) == seq!['"'] + key + "\": \""@ + val
            + seq!['"'],
        key.len() > 0,
    ensures
        parse_str_field(s, i, key) == Some((val, i + 9 + key.len() + val.len())),
{
    reveal_strlit("\n  ");
    reveal_strlit("\": \"");
    let kl = key.len() as int;
    let vl = val.len() as int;
    let m = seq!['"'] + key + "\": \""@ + val + seq!['"'];
    assert(m.len() == kl + vl + 6);
    // the shape of the member
    assert(m[0] == '"');
    assert(forall|k: int| 0 <= k < kl ==> m[1 + k] == key[k]);
    assert(m[kl + 1] == '"');
    assert(m[kl + 2] == ':');
    assert(m[kl + 3] == ' ');
    assert(m[kl + 4] == '"');
    assert(forall|k: int| 0 <= k < vl ==> m[kl + 5 + k] == val[k]);
    assert(m[kl + 5 + vl] == '"');
    // leading whitespace
    lemma_index_of_eq(s, i, "\n  "@);
    lemma_index_of_eq(s, i + 3, m);
    assert(s[i] == "\n  "@[0]);
    assert(s[i + 1] == "\n  "@[1]);
    assert(s[i + 2] == "\n  "@[2]);
    assert(s[i] == '\n' && s[i + 1] == ' ' && s[i + 2] == ' ');
    assert(s[i + 3] == m[0]);
    lemma_skip_ws_run(s, i, i + 3);
    // the quoted key
    assert(s.subrange(i + 3, i + 3 + (kl + 2)) =~= seq!['"'] + key + seq!['"']);
    lemma_expect_lit_sub(s, i + 3, seq!['"'] + key + seq!['"']);
    let i2 = i + kl + 5;
    // the colon and the space
    assert(s[i2] == m[kl + 2]);
    lemma_skip_ws_run(s, i2, i2);
    lemma_expect_one(s, i2, ':');
    assert(s[i2 + 1] == m[kl + 3]);
    assert(s[i2 + 2] == m[kl + 4]);
    lemma_skip_ws_run(s, i2 + 1, i2 + 2);
    assert(expect_key(s, i, key) == Some(i2 + 2));
    // the quoted value
    lemma_expect_one(s, i2 + 2, '"');
    assert(s.subrange(i2 + 3, i2 + 3 + vl) =~= val);
    assert(s[i2 + 3 + vl] == m[kl + 5 + vl]);
    lemma_parse_plain_body(s, i2 + 3, val);
}

/// The port member, preceded by the printer's line break and
/// indentation, parses back to exactly the port.
proof fn lemma_parse_port(s: Seq<char>, i: int, port: u32)
    requires
        0 <= i,
        i + 11 + dec_str(port as int).len() + 1 <= s.len(),
        s.subrange(i, i + 3) == "\n  "@,
        s.subrange(i + 3, i + 11) == "\"port\": "@,
        s.subrange(i + 11, i + 11 + dec_str(port as int).len()) == dec_str(port as int),
        !is_digit(s[i + 11 + dec_str(port as int).len()]),
    ensures
        parse_port_field(s, i) == Some((port, i + 11 + dec_str(port as int).len())),
{
    reveal_strlit("\n  ");
    reveal_strlit("\"port\": ");
    reveal_strlit("port");
    let dl = dec_str(port as int).len() as int;
    lemma_index_of_eq(s, i, "\n  "@);
    lemma_index_of_eq(s, i + 3, "\"port\": "@);
    lemma_index_of_eq(s, i + 11, dec_str(port as int));
    assert(s[i] == "\n  "@[0]);
    assert(s[i + 1] == "\n  "@[1]);
    assert(s[i + 2] == "\n  "@[2]);
    assert(s[i + 3] == "\"port\": "@[0]);
    assert(s[i + 9] == "\"port\": "@[6]);
    assert(s[i + 10] == "\"port\": "@[7]);
    assert(s[i] == '\n' && s[i + 1] == ' ' && s[i + 2] == ' ');
    assert(s[i + 3] == '"');
    lemma_skip_ws_run(s, i, i + 3);
    assert(s.subrange(i + 3, i + 9) =~= seq!['"'] + "port"@ + seq!['"']);
    lemma_expect_lit_sub(s, i + 3, seq!['"'] + "port"@ + seq!['"']);
    assert(s[i + 9] == ':');
    lemma_skip_ws_run(s, i + 9, i + 9);
    lemma_expect_one(s, i + 9, ':');
    lemma_dec_str_digits(port as int);
    assert(s[i + 10] == ' ');
    assert(s[i + 11] == dec_str(port as int)[0]);
    assert(is_digit(s[i + 11]));
    lemma_skip_ws_run(s, i + 10, i + 11);
    assert(expect_key(s, i, "port"@) == Some(i + 11));
    assert(forall|k: int| i + 11 <= k < i + 11 + dl ==> is_digit(#[trigger] s[k])) by {
        assert(forall|k: int|
            0 <= k < dl ==> is_digit(#[trigger] dec_str(port as int)[k]));
        assert(forall|k: int|
            i + 11 <= k < i + 11 + dl ==> s[k] == dec_str(port as int)[k - i - 11]);
    }
    lemma_digits_run(s, i + 11, i + 11 + dl);
    lemma_digits_val_of_dec(s, i + 11, port as int);
}

/// Writing a configuration and parsing the text back yields the same
/// configuration, for configurations whose strings need no escaping.
// Where each piece of the printed text ends: after the server member,
// after the port digits, and after each later member.
pub open spec fn rt_e1(c: ConfigView) -> int {
    16 + c.server.len() as int
}

pub open spec fn rt_e2(c: ConfigView) -> int {
    rt_e1(c) + 12 + dec_str(c.port as int).len() as int
}

pub open spec fn rt_e3(c: ConfigView) -> int {
    rt_e2(c) + 17 + c.version.len() as int
}

pub open spec fn rt_e4(c: ConfigView) -> int {
    rt_e3(c) + 13 + c.dir.len() as int
}

pub open spec fn rt_e5(c: ConfigView) -> int {
    rt_e4(c) + 17 + c.project.len() as int
}

pub open spec fn rt_e6(c: ConfigView) -> int {
    rt_e5(c) + 17 + c.profile.len() as int
}

pub open spec fn rt_e7(c: ConfigView) -> int {
    rt_e6(c) + 14 + c.auth.len() as int
}

#[verifier::rlimit(100)]
proof fn lemma_round_trip_head(c: ConfigView)
    requires
        plain_config(c),
    ensures
        ({
            let s = render_config_view(c);
            &&& s.len() == rt_e7(c) + 2
            &&& expect_lit(s, skip_ws(s, 0), seq!['{']) == Some(1int)
            &&& parse_str_field(s, 1, "server"@) == Some((c.server, rt_e1(c)))
            &&& expect_comma(s, rt_e1(c)) == Some(rt_e1(c) + 1)
        }),
{
    reveal_strlit("{
  ");
    reveal_strlit("\": \"");
    reveal_strlit(",
  \"port\": ");
    reveal_strlit(",
  ");
    reveal_strlit("
}");
    reveal_strlit("
  ");
    reveal_strlit("\"port\": ");
    reveal_strlit("server");
    reveal_strlit("version");
    reveal_strlit("dir");
    reveal_strlit("project");
    reveal_strlit("profile");
    reveal_strlit("auth");
    lemma_plain_escaped(c.server);
    lemma_plain_escaped(c.version);
    lemma_plain_escaped(c.dir);
    lemma_plain_escaped(c.project);
    lemma_plain_escaped(c.profile);
    lemma_plain_escaped(c.auth);
    lemma_dec_str_digits(c.port as int);
    let s = render_config_view(c);
    let e1 = rt_e1(c);
    assert(s.len() == rt_e7(c) + 2);
    // the opening brace
    assert(s[0] == "{\n  "@[0]);
    assert(s[0] == '{');
    lemma_skip_ws_run(s, 0, 0);
    lemma_expect_one(s, 0, '{');
    // server
    assert(s.subrange(1, 4) =~= "\n  "@);
    assert(s.subrange(4, e1) =~= seq!['"'] + "server"@ + "\": \""@ + c.server + seq!['"']);
    lemma_parse_member(s, 1, "server"@, c.server);
    // port comes next
    assert(s[e1] == ",\n  \"port\": "@[0]);
    assert(s[e1] == ',');
    lemma_skip_ws_run(s, e1, e1);
    lemma_expect_one(s, e1, ',');
}

#[verifier::rlimit(100)]
proof fn lemma_round_trip_port(c: ConfigView)
    requires
        plain_config(c),
    ensures
        ({
            let s = render_config_view(c);
            &&& parse_port_field(s, rt_e1(c) + 1) == Some((c.port, rt_e2(c)))
            &&& expect_comma(s, rt_e2(c)) == Some(rt_e2(c) + 1)
        }),
{
    reveal_strlit("{\n  ");
    reveal_strlit("\": \"");
    reveal_strlit(",\n  \"port\": ");
    reveal_strlit(",\n  ");
    reveal_strlit("\n}");
    reveal_strlit("\n  ");
    reveal_strlit("\"port\": ");
    reveal_strlit("server");
    reveal_strlit("version");
    reveal_strlit("dir");
    reveal_strlit("project");
    reveal_strlit("profile");
    reveal_strlit("auth");
    lemma_plain_escaped(c.server);
    lemma_plain_escaped(c.version);
    lemma_plain_escaped(c.dir);
    lemma_plain_escaped(c.project);
    lemma_plain_escaped(c.profile);
    lemma_plain_escaped(c.auth);
    lemma_dec_str_digits(c.port as int);
    let s = render_config_view(c);
    let e1 = rt_e1(c);
    let e2 = rt_e2(c);
    assert(s.subrange(e1 + 1, e1 + 4) =~= "\n  "@);
    assert(s.subrange(e1 + 4, e1 + 12) =~= "\"port\": "@);
    assert(s.subrange(e1 + 12, e2) =~= dec_str(c.port as int));
    assert(s[e2] == ",\n  "@[0]);
    assert(s[e2] == ',');
    assert(!is_digit(s[e2]));
    lemma_parse_port(s, e1 + 1, c.port);
    lemma_skip_ws_run(s, e2, e2);
    lemma_expect_one(s, e2, ',');
}

#[verifier::rlimit(100)]
proof fn lemma_round_trip_mid(c: ConfigView)
    requires
        plain_config(c),
    ensures
        ({
            let s = render_config_view(c);
            &&& parse_str_field(s, rt_e2(c) + 1, "version"@) == Some((c.version, rt_e3(c)))
            &&& expect_comma(s, rt_e3(c)) == Some(rt_e3(c) + 1)
            &&& parse_str_field(s, rt_e3(c) + 1, "dir"@) == Some((c.dir, rt_e4(c)))
            &&& expect_comma(s, rt_e4(c)) == Some(rt_e4(c) + 1)
        }),
{
    reveal_strlit("{
  ");
    reveal_strlit("\": \"");
    reveal_strlit(",
  \"port\": ");
    reveal_strlit(",
  ");
    reveal_strlit("
}");
    reveal_strlit("
  ");
    reveal_strlit("\"port\": ");
    reveal_strlit("server");
    reveal_strlit("version");
    reveal_strlit("dir");
    reveal_strlit("project");
    reveal_strlit("profile");
    reveal_strlit("auth");
    lemma_plain_escaped(c.server);
    lemma_plain_escaped(c.version);
    lemma_plain_escaped(c.dir);
    lemma_plain_escaped(c.project);
    lemma_plain_escaped(c.profile);
    lemma_plain_escaped(c.auth);
    lemma_dec_str_digits(c.port as int);
    let s = render_config_view(c);
    let e2 = rt_e2(c);
    let e3 = rt_e3(c);
    let e4 = rt_e4(c);
    // version
    assert(s.subrange(e2 + 1, e2 + 4) =~= "\n  "@);
    assert(s.subrange(e2 + 4, e3) =~= seq!['"'] + "version"@ + "\": \""@ + c.version
        + seq!['"']);
    lemma_parse_member(s, e2 + 1, "version"@, c.version);
    assert(s[e3] == ",\n  "@[0]);
    assert(s[e3] == ',');
    lemma_skip_ws_run(s, e3, e3);
    lemma_expect_one(s, e3, ',');
    // dir
    assert(s.subrange(e3 + 1, e3 + 4) =~= "\n  "@);
    assert(s.subrange(e3 + 4, e4) =~= seq!['"'] + "dir"@ + "\": \""@ + c.dir + seq!['"']);
    lemma_parse_member(s, e3 + 1, "dir"@, c.dir);
    assert(s[e4] == ",\n  "@[0]);
    assert(s[e4] == ',');
    lemma_skip_ws_run(s, e4, e4);
    lemma_expect_one(s, e4, ',');
}

#[verifier::rlimit(100)]
proof fn lemma_round_trip_late(c: ConfigView)
    requires
        plain_config(c),
    ensures
        ({
            let s = render_config_view(c);
            &&& parse_str_field(s, rt_e4(c) + 1, "project"@) == Some((c.project, rt_e5(c)))
            &&& expect_comma(s, rt_e5(c)) == Some(rt_e5(c) + 1)
            &&& parse_str_field(s, rt_e5(c) + 1, "profile"@) == Some((c.profile, rt_e6(c)))
            &&& expect_comma(s, rt_e6(c)) == Some(rt_e6(c) + 1)
        }),
{
    reveal_strlit("{
  ");
    reveal_strlit("\": \"");
    reveal_strlit(",
  \"port\": ");
    reveal_strlit(",
  ");
    reveal_strlit("
}");
    reveal_strlit("
  ");
    reveal_strlit("\"port\": ");
    reveal_strlit("server");
    reveal_strlit("version");
    reveal_strlit("dir");
    reveal_strlit("project");
    reveal_strlit("profile");
    reveal_strlit("auth");
    lemma_plain_escaped(c.server);
    lemma_plain_escaped(c.version);
    lemma_plain_escaped(c.dir);
    lemma_plain_escaped(c.project);
    lemma_plain_escaped(c.profile);
    lemma_plain_escaped(c.auth);
    lemma_dec_str_digits(c.port as int);
    let s = render_config_view(c);
    let e4 = rt_e4(c);
    let e5 = rt_e5(c);
    let e6 = rt_e6(c);
    // project
    assert(s.subrange(e4 + 1, e4 + 4) =~= "\n  "@);
    assert(s.subrange(e4 + 4, e5) =~= seq!['"'] + "project"@ + "\": \""@ + c.project
        + seq!['"']);
    lemma_parse_member(s, e4 + 1, "project"@, c.project);
    assert(s[e5] == ",\n  "@[0]);
    assert(s[e5] == ',');
    lemma_skip_ws_run(s, e5, e5);
    lemma_expect_one(s, e5, ',');
    // profile
    assert(s.subrange(e5 + 1, e5 + 4) =~= "\n  "@);
    assert(s.subrange(e5 + 4, e6) =~= seq!['"'] + "profile"@ + "\": \""@ + c.profile
        + seq!['"']);
    lemma_parse_member(s, e5 + 1, "profile"@, c.profile);
    assert(s[e6] == ",\n  "@[0]);
    assert(s[e6] == ',');
    lemma_skip_ws_run(s, e6, e6);
    lemma_expect_one(s, e6, ',');
}

#[verifier::rlimit(100)]
proof fn lemma_round_trip_tail(c: ConfigView)
    requires
        plain_config(c),
    ensures
        ({
            let s = render_config_view(c);
            &&& parse_str_field(s, rt_e6(c) + 1, "auth"@) == Some((c.auth, rt_e7(c)))
            &&& expect_lit(s, skip_ws(s, rt_e7(c)), seq!['}']) == Some(rt_e7(c) + 2)
            &&& skip_ws(s, rt_e7(c) + 2) == s.len()
        }),
{
    reveal_strlit("{
  ");
    reveal_strlit("\": \"");
    reveal_strlit(",
  \"port\": ");
    reveal_strlit(",
  ");
    reveal_strlit("
}");
    reveal_strlit("
  ");
    reveal_strlit("\"port\": ");
    reveal_strlit("server");
    reveal_strlit("version");
    reveal_strlit("dir");
    reveal_strlit("project");
    reveal_strlit("profile");
    reveal_strlit("auth");
    lemma_plain_escaped(c.server);
    lemma_plain_escaped(c.version);
    lemma_plain_escaped(c.dir);
    lemma_plain_escaped(c.project);
    lemma_plain_escaped(c.profile);
    lemma_plain_escaped(c.auth);
    lemma_dec_str_digits(c.port as int);
    let s = render_config_view(c);
    let e6 = rt_e6(c);
    let e7 = rt_e7(c);
    // auth
    assert(s.subrange(e6 + 1, e6 + 4) =~= "\n  "@);
    assert(s.subrange(e6 + 4, e7) =~= seq!['"'] + "auth"@ + "\": \""@ + c.auth + seq!['"']);
    lemma_parse_member(s, e6 + 1, "auth"@, c.auth);
    // the closing brace, and nothing after it
    assert(s[e7] == "\n}"@[0]);
    assert(s[e7 + 1] == "\n}"@[1]);
    assert(s[e7] == '\n');
    assert(s[e7 + 1] == '}');
    lemma_skip_ws_run(s, e7, e7 + 1);
    lemma_expect_one(s, e7 + 1, '}');
    assert(s.len() == e7 + 2);
    assert(skip_ws(s, e7 + 2) == s.len());
}

/// Writing a configuration and parsing the text back yields the same
/// configuration, for configurations whose strings need no escaping.
pub proof fn lemma_render_parse_round_trip(c: ConfigView)
    requires
        plain_config(c),
    ensures
        parse_config_text(render_config_view(c)) == Some(c),
{
    lemma_round_trip_head(c);
    lemma_round_trip_port(c);
    lemma_round_trip_mid(c);
    lemma_round_trip_late(c);
    lemma_round_trip_tail(c);
    let s = render_config_view(c);
    assert(parse_config_text(s) == Some(c));
}

/// The configuration the initializer writes is plain, so writing it and
/// loading it back yields exactly the documented defaults; doing it
/// twice changes nothing.
#[verifier::rlimit(100)]
pub proof fn lemma_default_round_trip()
    ensures
        parse_config_text(render_config_view(crate::config::default_config_view())) == Some(
            crate::config::default_config_view(),
        ),
{
    reveal_strlit("127.0.0.1");
    reveal_strlit("");
    reveal_strlit(".");
    reveal_strlit("project_name");
    reveal_strlit("__default__");
    reveal_strlit("your_auth_code");
    let c = crate::config::default_config_view();
    assert(plain_text(c.server));
    assert(plain_text(c.version));
    assert(plain_text(c.dir));
    assert(plain_text(c.project));
    assert(plain_text(c.profile));
    assert(plain_text(c.auth));
    lemma_render_parse_round_trip(c);
}

} // verus!
