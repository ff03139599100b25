//! The persistence format: one JSON object per pet, with exactly the four
//! fields `name`, `hunger`, `happiness` and `energy`, in that order. The
//! emitter and the parser are verified against each other: parsing what
//! was emitted gives back exactly the saved identity and attributes.
//! Reading, writing and deleting the record file is the driver's job; the
//! library only produces and consumes the record text.

use vstd::prelude::*;

use crate::pet::Pet;

verus! {

broadcast use vstd::utf8::char_u32_cast, vstd::utf8::char_is_scalar;

/// Errors of the persistence adapter that the library itself can detect.
#[derive(Clone, Copy, Debug, PartialEq, Eq, Structural)]
pub enum StorageError {
    /// No record exists for the requested identity.
    NotFound,
    /// A record exists but is not a well-formed pet record.
    FormatError,
}

/// The two ways a delete request can succeed: the record was removed, or
/// there was nothing to remove. Absence is an outcome, not an error.
#[derive(Clone, Copy, Debug, PartialEq, Eq, Structural)]
pub enum DeleteOutcome {
    Deleted,
    NoSaveFile,
}

// ---------------------------------------------------------------------
// Character classes and digits
// ---------------------------------------------------------------------

/// JSON insignificant whitespace.
pub open spec fn is_ws_char(c: char) -> bool {
    c == ' ' || c == '\t' || c == '\n' || c == '\r'
}

pub open spec fn is_digit_char(c: char) -> bool {
    48 <= c as u32 <= 57
}

/// Numeric value of a decimal digit character.
pub open spec fn digit_value(c: char) -> int {
    c as u32 - 48
}

/// The decimal digit character of a value in 0..=9.
pub open spec fn digit_glyph(d: int) -> char {
    if d == 0 {
        '0'
    } else if d == 1 {
        '1'
    } else if d == 2 {
        '2'
    } else if d == 3 {
        '3'
    } else if d == 4 {
        '4'
    } else if d == 5 {
        '5'
    } else if d == 6 {
        '6'
    } else if d == 7 {
        '7'
    } else if d == 8 {
        '8'
    } else {
        '9'
    }
}

pub open spec fn is_hex_char(c: char) -> bool {
    ||| 48 <= c as u32 <= 57
    ||| 97 <= c as u32 <= 102
    ||| 65 <= c as u32 <= 70
}

/// Numeric value of a hexadecimal digit character, either case.
pub open spec fn hex_value(c: char) -> int {
    if 48 <= c as u32 <= 57 {
        c as u32 - 48
    } else if 97 <= c as u32 <= 102 {
        c as u32 - 87
    } else {
        c as u32 - 55
    }
}

/// The lower-case hexadecimal digit character of a value in 0..=15.
pub open spec fn hex_glyph(d: int) -> char {
    if d < 10 {
        digit_glyph(d)
    } else if d == 10 {
        'a'
    } else if d == 11 {
        'b'
    } else if d == 12 {
        'c'
    } else if d == 13 {
        'd'
    } else if d == 14 {
        'e'
    } else {
        'f'
    }
}

/// Decimal text of an attribute value in 0..=100, without leading zeros.
pub open spec fn attr_digits(v: int) -> Seq<char> {
    if v < 10 {
        seq![digit_glyph(v)]
    } else if v < 100 {
        seq![digit_glyph(v / 10), digit_glyph(v % 10)]
    } else {
        seq!['1', '0', '0']
    }
}

// ---------------------------------------------------------------------
// String escaping
// ---------------------------------------------------------------------

/// How one character of the identity appears inside the record's quoted
/// string: quote and backslash get a backslash escape, control characters
/// a \u00XX escape, everything else stands as itself.
pub open spec fn escaped_char(c: char) -> Seq<char> {
    if c == '"' {
        seq!['\\', '"']
    } else if c == '\\' {
        seq!['\\', '\\']
    } else if (c as u32) < 32 {
        seq!['\\', 'u', '0', '0', hex_glyph(c as u32 as int / 16), hex_glyph(c as u32 as int % 16)]
    } else {
        seq![c]
    }
}

/// The escaped form of a whole identity.
pub open spec fn escaped(s: Seq<char>) -> Seq<char>
    decreases s.len(),
{
    if s.len() == 0 {
        Seq::empty()
    } else {
        escaped_char(s[0]) + escaped(s.skip(1))
    }
}

/// Escaping distributes over concatenation.
pub proof fn lemma_escaped_append(a: Seq<char>, b: Seq<char>)
    ensures
        escaped(a + b) == escaped(a) + escaped(b),
    decreases a.len(),
{
    if a.len() == 0 {
        assert(a + b =~= b);
        assert(escaped(a) + escaped(b) =~= escaped(b));
    } else {
        assert((a + b).skip(1) =~= a.skip(1) + b);
        lemma_escaped_append(a.skip(1), b);
        assert(escaped(a + b) =~= escaped(a) + escaped(b));
    }
}

/// Escaping one more character appends that character's escaped form.
pub proof fn lemma_escaped_snoc(s: Seq<char>, i: int)
    requires
        0 <= i < s.len(),
    ensures
        escaped(s.take(i + 1)) == escaped(s.take(i)) + escaped_char(s[i]),
{
    let one = seq![s[i]];
    assert(s.take(i + 1) =~= s.take(i) + one);
    lemma_escaped_append(s.take(i), one);
    assert(one.skip(1) =~= Seq::<char>::empty());
    assert(escaped_char(s[i]) + Seq::<char>::empty() =~= escaped_char(s[i]));
    assert(escaped(one) == escaped_char(one[0]) + escaped(one.skip(1)));
    assert(escaped(one) =~= escaped_char(s[i]));
}

// ---------------------------------------------------------------------
// The record text
// ---------------------------------------------------------------------

/// The exact text of a saved record: the four fields in fixed order, the
/// identity escaped, the attributes in decimal.
pub open spec fn record_chars(name: Seq<char>, hunger: int, happiness: int, energy: int) -> Seq<
    char,
> {
    "{\"name\":\""@ + escaped(name) + "\",\"hunger\":"@ + attr_digits(hunger)
        + ",\"happiness\":"@ + attr_digits(happiness) + ",\"energy\":"@ + attr_digits(energy)
        + "}"@
}

// ---------------------------------------------------------------------
// Trusted conversions
// ---------------------------------------------------------------------

/// Relies on String implementing FromIterator over chars: collecting the
/// chars of the vector yields the string of exactly those chars in order.
#[verifier::external_body]
pub(crate) fn string_from_chars(v: &Vec<char>) -> (r: String)
    ensures
        r@ == v@,
{
    v.iter().collect()
}

/// Relies on str::chars: it yields the string's chars in order, which in
/// Verus's model of strings is exactly the string's view.
#[verifier::external_body]
fn chars_of_str(s: &str) -> (r: Vec<char>)
    ensures
        r@ == s@,
{
    s.chars().collect()
}

/// Relies on char::from_u32: Some exactly for Unicode scalar values (not
/// a surrogate, at most 0x10FFFF), and the char has the given code point.
#[verifier::external_body]
fn char_from_code(code: u32) -> (r: Option<char>)
    ensures
        r is Some <==> (code < 0xD800 || (0xE000 <= code && code <= 0x10FFFF)),
        r is Some ==> r.unwrap() as u32 == code,
{
    char::from_u32(code)
}

// ---------------------------------------------------------------------
// The emitter
// ---------------------------------------------------------------------

/// The decimal digit character of a value in 0..=9.
fn digit_exec(d: i32) -> (r: char)
    requires
        0 <= d <= 9,
    ensures
        r == digit_glyph(d as int),
{
    if d == 0 {
        '0'
    } else if d == 1 {
        '1'
    } else if d == 2 {
        '2'
    } else if d == 3 {
        '3'
    } else if d == 4 {
        '4'
    } else if d == 5 {
        '5'
    } else if d == 6 {
        '6'
    } else if d == 7 {
        '7'
    } else if d == 8 {
        '8'
    } else {
        '9'
    }
}

/// The lower-case hexadecimal digit character of a value in 0..=15.
fn hex_exec(d: u32) -> (r: char)
    requires
        d < 16,
    ensures
        r == hex_glyph(d as int),
{
    if d < 10 {
        digit_exec(d as i32)
    } else if d == 10 {
        'a'
    } else if d == 11 {
        'b'
    } else if d == 12 {
        'c'
    } else if d == 13 {
        'd'
    } else if d == 14 {
        'e'
    } else {
        'f'
    }
}

/// Decimal text of an attribute value, as characters.
pub(crate) fn attr_chars(v: i32) -> (r: Vec<char>)
    requires
        0 <= v <= 100,
    ensures
        r@ == attr_digits(v as int),
{
    let mut d: Vec<char> = Vec::new();
    if v == 100 {
        d.push('1');
        d.push('0');
        d.push('0');
    } else if v >= 10 {
        d.push(digit_exec(v / 10));
        d.push(digit_exec(v % 10));
    } else {
        d.push(digit_exec(v));
    }
    proof {
        assert(d@ =~= attr_digits(v as int));
    }
    d
}

/// Decimal text of an attribute value.
fn attr_string(v: i32) -> (r: String)
    requires
        0 <= v <= 100,
    ensures
        r@ == attr_digits(v as int),
{
    let d = attr_chars(v);
    string_from_chars(&d)
}

/// The escaped form of an identity, as a fresh character vector.
fn escaped_of(s: &str) -> (r: Vec<char>)
    ensures
        r@ == escaped(s@),
{
    let n = s.unicode_len();
    let mut out: Vec<char> = Vec::new();
    let mut i: usize = 0;
    while i < n
        invariant
            n == s@.len(),
            0 <= i <= n,
            out@ == escaped(s@.take(i as int)),
        decreases n - i,
    {
        let c = s.get_char(i);
        proof {
            lemma_escaped_snoc(s@, i as int);
        }
        if c == '"' {
            out.push('\\');
            out.push('"');
        } else if c == '\\' {
            out.push('\\');
            out.push('\\');
        } else if (c as u32) < 32 {
            out.push('\\');
            out.push('u');
            out.push('0');
            out.push('0');
            out.push(hex_exec((c as u32) / 16));
            out.push(hex_exec((c as u32) % 16));
        } else {
            out.push(c);
        }
        proof {
            assert(out@ =~= escaped(s@.take(i as int)) + escaped_char(s@[i as int]));
        }
        i = i + 1;
    }
    proof {
        assert(s@.take(n as int) =~= s@);
    }
    out
}

impl Pet {
    /// Serialize the pet into its record text. The record holds each
    /// attribute as an integer in 0..=100, so the pet must be
    /// well-formed.
    pub fn to_record(&self) -> (r: String)
        requires
            self@.wf(),
        ensures
            r@ == record_chars(self@.name, self@.hunger, self@.happiness, self@.energy),
    {
        let mut out = String::new();
        out.append("{\"name\":\"");
        let esc = escaped_of(self.name.as_str());
        let esc_s = string_from_chars(&esc);
        out.append(esc_s.as_str());
        out.append("\",\"hunger\":");
        let hs = attr_string(self.hunger);
        out.append(hs.as_str());
        out.append(",\"happiness\":");
        let ps = attr_string(self.happiness);
        out.append(ps.as_str());
        out.append(",\"energy\":");
        let es = attr_string(self.energy);
        out.append(es.as_str());
        out.append("}");
        out
    }
}

// ---------------------------------------------------------------------
// The parser: the grammar, as spec functions
// ---------------------------------------------------------------------

/// The character c stands at position i.
pub open spec fn at_char(s: Seq<char>, i: int, c: char) -> bool {
    0 <= i < s.len() && s[i] == c
}

/// The literal lit stands at position i.
pub open spec fn matches_at(s: Seq<char>, i: int, lit: Seq<char>) -> bool {
    0 <= i && i + lit.len() <= s.len() && s.subrange(i, i + lit.len()) == lit
}

/// The first position at or after i holding no insignificant whitespace.
pub open spec fn skip_ws(s: Seq<char>, i: int) -> int
    decreases s.len() - i,
{
    if 0 <= i < s.len() && is_ws_char(s[i]) {
        skip_ws(s, i + 1)
    } else {
        i
    }
}

/// What a two-character escape stands for, if it is one.
pub open spec fn unescape_simple(e: char) -> Option<char> {
    if e == '"' {
        Some('"')
    } else if e == '\\' {
        Some('\\')
    } else if e == '/' {
        Some('/')
    } else if e == 'b' {
        Some('\u{8}')
    } else if e == 'f' {
        Some('\u{c}')
    } else if e == 'n' {
        Some('\n')
    } else if e == 'r' {
        Some('\r')
    } else if e == 't' {
        Some('\t')
    } else {
        None
    }
}

/// The body of a quoted string starting at i (after the opening quote):
/// the characters it denotes and the position after the closing quote.
/// Unescaped control characters, bad escapes, surrogate code points and a
/// missing closing quote are malformed.
pub open spec fn parse_str_body(s: Seq<char>, i: int) -> Option<(Seq<char>, int)>
    decreases s.len() - i,
{
    if !(0 <= i < s.len()) {
        None
    } else {
        let c = s[i];
        if c == '"' {
            Some((Seq::<char>::empty(), i + 1))
        } else if c == '\\' {
            if i + 2 <= s.len() {
                let e = s[i + 1];
                if e == 'u' {
                    if i + 6 <= s.len() && is_hex_char(s[i + 2]) && is_hex_char(s[i + 3])
                        && is_hex_char(s[i + 4]) && is_hex_char(s[i + 5]) {
                        let code = hex_value(s[i + 2]) * 4096 + hex_value(s[i + 3]) * 256
                            + hex_value(s[i + 4]) * 16 + hex_value(s[i + 5]);
                        if code < 0xD800 || code >= 0xE000 {
                            match parse_str_body(s, i + 6) {
                                Some(t) => Some((seq![(code as u32) as char] + t.0, t.1)),
                                None => None,
                            }
                        } else {
                            None
                        }
                    } else {
                        None
                    }
                } else {
                    match unescape_simple(e) {
                        Some(u) => match parse_str_body(s, i + 2) {
                            Some(t) => Some((seq![u] + t.0, t.1)),
                            None => None,
                        },
                        None => None,
                    }
                }
            } else {
                None
            }
        } else if (c as u32) < 32 {
            None
        } else {
            match parse_str_body(s, i + 1) {
                Some(t) => Some((seq![c] + t.0, t.1)),
                None => None,
            }
        }
    }
}

/// The end of the run of decimal digits starting at i.
pub open spec fn digits_end(s: Seq<char>, i: int) -> int
    decreases s.len() - i,
{
    if 0 <= i < s.len() && is_digit_char(s[i]) {
        digits_end(s, i + 1)
    } else {
        i
    }
}

/// The value of the digits s[i..j].
pub open spec fn digits_value(s: Seq<char>, i: int, j: int) -> int
    decreases j - i,
{
    if i < j {
        digits_value(s, i, j - 1) * 10 + digit_value(s[j - 1])
    } else {
        0
    }
}

/// A JSON integer at position i, restricted to the range of i32: an
/// optional minus sign and a run of digits without a leading zero. More
/// than ten digits always lies outside the range and is malformed.
pub open spec fn parse_int(s: Seq<char>, i: int) -> Option<(int, int)> {
    let neg = at_char(s, i, '-');
    let d0 = if neg {
        i + 1
    } else {
        i
    };
    let dend = digits_end(s, d0);
    if dend == d0 {
        None
    } else if dend - d0 > 10 {
        None
    } else if s[d0] == '0' && dend - d0 > 1 {
        None
    } else {
        let m = digits_value(s, d0, dend);
        let v = if neg {
            -m
        } else {
            m
        };
        if -2147483648 <= v <= 2147483647 {
            Some((v, dend))
        } else {
            None
        }
    }
}

/// A quoted key at position i followed by a colon: the position of the
/// value after it.
pub open spec fn after_key(s: Seq<char>, i: int, key: Seq<char>) -> Option<int> {
    if matches_at(s, i, key) {
        let j = skip_ws(s, i + key.len());
        if at_char(s, j, ':') {
            Some(skip_ws(s, j + 1))
        } else {
            None
        }
    } else {
        None
    }
}

/// A comma, a quoted key, a colon and an integer value, with whitespace
/// between the tokens: the value and the position after it.
pub open spec fn int_field(s: Seq<char>, i: int, key: Seq<char>) -> Option<(int, int)> {
    let j = skip_ws(s, i);
    if at_char(s, j, ',') {
        match after_key(s, skip_ws(s, j + 1), key) {
            Some(k) => parse_int(s, k),
            None => None,
        }
    } else {
        None
    }
}

/// The whole record: an object holding exactly the four fields in their
/// fixed order, with whitespace allowed between tokens and nothing but
/// whitespace after the closing brace. Yields the identity and the three
/// attribute values, which are not re-clamped.
pub open spec fn parse_record(s: Seq<char>) -> Option<(Seq<char>, int, int, int)> {
    let i = skip_ws(s, 0);
    if at_char(s, i, '{') {
        match after_key(s, skip_ws(s, i + 1), "\"name\""@) {
            Some(j) => if at_char(s, j, '"') {
                match parse_str_body(s, j + 1) {
                    Some(nm) => match int_field(s, nm.1, "\"hunger\""@) {
                        Some(h) => match int_field(s, h.1, "\"happiness\""@) {
                            Some(p) => match int_field(s, p.1, "\"energy\""@) {
                                Some(e) => {
                                    let k = skip_ws(s, e.1);
                                    if at_char(s, k, '}') && skip_ws(s, k + 1) == s.len() {
                                        Some((nm.0, h.0, p.0, e.0))
                                    } else {
                                        None
                                    }
                                },
                                None => None,
                            },
                            None => None,
                        },
                        None => None,
                    },
                    None => None,
                }
            } else {
                None
            },
            None => None,
        }
    } else {
        None
    }
}

// ---------------------------------------------------------------------
// The parser: executable
// ---------------------------------------------------------------------

/// First non-whitespace position at or after i.
fn skip_ws_x(v: &Vec<char>, i: usize) -> (r: usize)
    requires
        i <= v.len(),
    ensures
        r as int == skip_ws(v@, i as int),
        i <= r <= v.len(),
{
    let mut k = i;
    while k < v.len()
        invariant
            i <= k <= v.len(),
            skip_ws(v@, i as int) == skip_ws(v@, k as int),
        decreases v.len() - k,
    {
        let c = v[k];
        if c == ' ' || c == '\t' || c == '\n' || c == '\r' {
            proof {
                assert(skip_ws(v@, k as int) == skip_ws(v@, k as int + 1));
            }
            k = k + 1;
        } else {
            proof {
                assert(skip_ws(v@, k as int) == k as int);
            }
            return k;
        }
    }
    k
}

/// Whether the literal stands at position i of v.
fn lit_at(v: &Vec<char>, i: usize, lit: &Vec<char>) -> (r: bool)
    requires
        i <= v.len(),
    ensures
        r == matches_at(v@, i as int, lit@),
{
    if v.len() - i < lit.len() {
        return false;
    }
    let mut k: usize = 0;
    while k < lit.len()
        invariant
            i + lit.len() <= v.len(),
            0 <= k <= lit.len(),
            forall|t: int| 0 <= t < k ==> v@[i + t] == lit@[t],
        decreases lit.len() - k,
    {
        if v[i + k] != lit[k] {
            proof {
                assert(!matches_at(v@, i as int, lit@)) by {
                    if matches_at(v@, i as int, lit@) {
                        assert(v@.subrange(i as int, i + lit@.len())[k as int] == lit@[k as int]);
                    }
                }
            }
            return false;
        }
        k = k + 1;
    }
    proof {
        assert(v@.subrange(i as int, i + lit@.len()) =~= lit@);
    }
    true
}

/// The key "name", with its quotes.
fn key_name() -> (r: Vec<char>)
    ensures
        r@ == "\"name\""@,
{
    let mut r: Vec<char> = Vec::new();
    r.push('"');
    r.push('n');
    r.push('a');
    r.push('m');
    r.push('e');
    r.push('"');
    proof {
        reveal_strlit("\"name\"");
        assert(r@ =~= "\"name\""@);
    }
    r
}

/// The key "hunger", with its quotes.
fn key_hunger() -> (r: Vec<char>)
    ensures
        r@ == "\"hunger\""@,
{
    let mut r: Vec<char> = Vec::new();
    r.push('"');
    r.push('h');
    r.push('u');
    r.push('n');
    r.push('g');
    r.push('e');
    r.push('r');
    r.push('"');
    proof {
        reveal_strlit("\"hunger\"");
        assert(r@ =~= "\"hunger\""@);
    }
    r
}

/// The key "happiness", with its quotes.
fn key_happiness() -> (r: Vec<char>)
    ensures
        r@ == "\"happiness\""@,
{
    let mut r: Vec<char> = Vec::new();
    r.push('"');
    r.push('h');
    r.push('a');
    r.push('p');
    r.push('p');
    r.push('i');
    r.push('n');
    r.push('e');
    r.push('s');
    r.push('s');
    r.push('"');
    proof {
        reveal_strlit("\"happiness\"");
        assert(r@ =~= "\"happiness\""@);
    }
    r
}

/// The key "energy", with its quotes.
fn key_energy() -> (r: Vec<char>)
    ensures
        r@ == "\"energy\""@,
{
    let mut r: Vec<char> = Vec::new();
    r.push('"');
    r.push('e');
    r.push('n');
    r.push('e');
    r.push('r');
    r.push('g');
    r.push('y');
    r.push('"');
    proof {
        reveal_strlit("\"energy\"");
        assert(r@ =~= "\"energy\""@);
    }
    r
}

/// Value of a hexadecimal digit character, or None.
fn hex_val_x(c: char) -> (r: Option<u32>)
    ensures
        match r {
            Some(h) => is_hex_char(c) && h as int == hex_value(c),
            None => !is_hex_char(c),
        },
{
    let u = c as u32;
    if 48 <= u && u <= 57 {
        Some(u - 48)
    } else if 97 <= u && u <= 102 {
        Some(u - 87)
    } else if 65 <= u && u <= 70 {
        Some(u - 55)
    } else {
        None
    }
}

/// What a two-character escape stands for.
fn unescape_simple_x(e: char) -> (r: Option<char>)
    ensures
        r == unescape_simple(e),
{
    if e == '"' {
        Some('"')
    } else if e == '\\' {
        Some('\\')
    } else if e == '/' {
        Some('/')
    } else if e == 'b' {
        Some('\u{8}')
    } else if e == 'f' {
        Some('\u{c}')
    } else if e == 'n' {
        Some('\n')
    } else if e == 'r' {
        Some('\r')
    } else if e == 't' {
        Some('\t')
    } else {
        None
    }
}

/// The body of a quoted string starting at i, after the opening quote.
fn parse_str_body_x(v: &Vec<char>, i: usize) -> (r: Option<(Vec<char>, usize)>)
    requires
        i <= v.len(),
    ensures
        match r {
            Some(t) => parse_str_body(v@, i as int) == Some((t.0@, t.1 as int)) && i <= t.1
                <= v.len(),
            None => parse_str_body(v@, i as int) is None,
        },
{
    let mut acc: Vec<char> = Vec::new();
    let mut k = i;
    while k < v.len()
        invariant
            i <= k <= v.len(),
            parse_str_body(v@, i as int) == (match parse_str_body(v@, k as int) {
                Some(t) => Some::<(Seq<char>, int)>((acc@ + t.0, t.1)),
                None => None::<(Seq<char>, int)>,
            }),
        decreases v.len() - k,
    {
        let ghost k0 = k as int;
        let ghost acc0 = acc@;
        let c = v[k];
        if c == '"' {
            proof {
                assert(acc@ + Seq::<char>::empty() =~= acc@);
            }
            return Some((acc, k + 1));
        } else if c == '\\' {
            if k + 1 == v.len() {
                return None;
            }
            let e = v[k + 1];
            if e == 'u' {
                if v.len() - k < 6 {
                    return None;
                }
                let h2 = match hex_val_x(v[k + 2]) {
                    Some(h) => h,
                    None => {
                        return None;
                    },
                };
                let h3 = match hex_val_x(v[k + 3]) {
                    Some(h) => h,
                    None => {
                        return None;
                    },
                };
                let h4 = match hex_val_x(v[k + 4]) {
                    Some(h) => h,
                    None => {
                        return None;
                    },
                };
                let h5 = match hex_val_x(v[k + 5]) {
                    Some(h) => h,
                    None => {
                        return None;
                    },
                };
                let code: u32 = h2 * 4096 + h3 * 256 + h4 * 16 + h5;
                if 0xD800 <= code && code < 0xE000 {
                    return None;
                }
                let u = match char_from_code(code) {
                    Some(u) => u,
                    None => {
                        proof {
                            assert(false);
                        }
                        return None;
                    },
                };
                acc.push(u);
                k = k + 6;
                proof {
                    vstd::utf8::char_u32_cast(u, code);
                    match parse_str_body(v@, k as int) {
                        Some(t) => {
                            assert(parse_str_body(v@, k0) == Some(
                                (seq![(code as u32) as char] + t.0, t.1),
                            ));
                            assert(acc@ =~= acc0 + seq![u]);
                            assert(acc0 + (seq![u] + t.0) =~= (acc0 + seq![u]) + t.0);
                        },
                        None => {
                            assert(parse_str_body(v@, k0) is None);
                        },
                    }
                }
            } else {
                let u = match unescape_simple_x(e) {
                    Some(u) => u,
                    None => {
                        return None;
                    },
                };
                acc.push(u);
                k = k + 2;
                proof {
                    match parse_str_body(v@, k as int) {
                        Some(t) => {
                            assert(parse_str_body(v@, k0) == Some((seq![u] + t.0, t.1)));
                            assert(acc@ =~= acc0 + seq![u]);
                            assert(acc0 + (seq![u] + t.0) =~= (acc0 + seq![u]) + t.0);
                        },
                        None => {
                            assert(parse_str_body(v@, k0) is None);
                        },
                    }
                }
            }
        } else if (c as u32) < 32 {
            return None;
        } else {
            acc.push(c);
            k = k + 1;
            proof {
                match parse_str_body(v@, k as int) {
                    Some(t) => {
                        assert(parse_str_body(v@, k0) == Some((seq![c] + t.0, t.1)));
                        assert(acc@ =~= acc0 + seq![c]);
                        assert(acc0 + (seq![c] + t.0) =~= (acc0 + seq![c]) + t.0);
                    },
                    None => {
                        assert(parse_str_body(v@, k0) is None);
                    },
                }
            }
        }
    }
    None
}

/// End of the run of decimal digits starting at i.
fn digits_end_x(v: &Vec<char>, i: usize) -> (r: usize)
    requires
        i <= v.len(),
    ensures
        r as int == digits_end(v@, i as int),
        i <= r <= v.len(),
        forall|t: int| i <= t < r ==> is_digit_char(v@[t]),
{
    let mut k = i;
    while k < v.len()
        invariant
            i <= k <= v.len(),
            digits_end(v@, i as int) == digits_end(v@, k as int),
            forall|t: int| i <= t < k ==> is_digit_char(v@[t]),
        decreases v.len() - k,
    {
        let c = v[k];
        if 48 <= (c as u32) && (c as u32) <= 57 {
            proof {
                assert(digits_end(v@, k as int) == digits_end(v@, k as int + 1));
            }
            k = k + 1;
        } else {
            proof {
                assert(digits_end(v@, k as int) == k as int);
            }
            return k;
        }
    }
    k
}

/// Powers of ten.
pub open spec fn pow10(n: nat) -> int
    decreases n,
{
    if n == 0 {
        1
    } else {
        10 * pow10((n - 1) as nat)
    }
}

/// A run of j - i digits has a value below pow10(j - i).
proof fn lemma_digits_value_bound(s: Seq<char>, i: int, j: int)
    requires
        i <= j,
        forall|t: int| i <= t < j ==> is_digit_char(s[t]),
    ensures
        0 <= digits_value(s, i, j) < pow10((j - i) as nat),
    decreases j - i,
{
    if i < j {
        lemma_digits_value_bound(s, i, j - 1);
    }
}

/// A JSON integer in the range of i32, starting at i.
fn parse_int_x(v: &Vec<char>, i: usize) -> (r: Option<(i32, usize)>)
    requires
        i <= v.len(),
    ensures
        match r {
            Some(t) => parse_int(v@, i as int) == Some((t.0 as int, t.1 as int)) && i <= t.1
                <= v.len(),
            None => parse_int(v@, i as int) is None,
        },
{
    let mut k = i;
    let mut neg = false;
    if k < v.len() {
        if v[k] == '-' {
            neg = true;
            k = k + 1;
        }
    }
    let d0 = k;
    let dend = digits_end_x(v, d0);
    if dend == d0 {
        return None;
    }
    if dend - d0 > 10 {
        return None;
    }
    if v[d0] == '0' && dend - d0 > 1 {
        return None;
    }
    let mut acc: i64 = 0;
    let mut t = d0;
    while t < dend
        invariant
            d0 <= t <= dend <= v.len(),
            dend - d0 <= 10,
            forall|q: int| d0 <= q < dend ==> is_digit_char(v@[q]),
            acc as int == digits_value(v@, d0 as int, t as int),
            0 <= acc,
        decreases dend - t,
    {
        proof {
            lemma_digits_value_bound(v@, d0 as int, t as int);
            lemma_pow10_mono(((t - d0) as nat), 9);
            lemma_pow10_nine();
        }
        let c = v[t];
        let d: i64 = (c as u32) as i64 - 48;
        acc = acc * 10 + d;
        t = t + 1;
    }
    let m: i64 = acc;
    let val: i64 = if neg {
        -m
    } else {
        m
    };
    if val < -2147483648 || val > 2147483647 {
        return None;
    }
    Some((val as i32, dend))
}

/// pow10 is at least one.
proof fn lemma_pow10_pos(n: nat)
    ensures
        pow10(n) >= 1,
    decreases n,
{
    if n > 0 {
        lemma_pow10_pos((n - 1) as nat);
    }
}

/// pow10 is monotone.
proof fn lemma_pow10_mono(n: nat, m: nat)
    requires
        n <= m,
    ensures
        pow10(n) <= pow10(m),
    decreases m,
{
    if n < m {
        lemma_pow10_mono(n, (m - 1) as nat);
        lemma_pow10_pos((m - 1) as nat);
    }
}

/// pow10 of nine is one billion.
proof fn lemma_pow10_nine()
    ensures
        pow10(9) == 1000000000,
{
    assert(pow10(0) == 1);
    assert(pow10(1) == 10);
    assert(pow10(2) == 100);
    assert(pow10(3) == 1000);
    assert(pow10(4) == 10000);
    assert(pow10(5) == 100000);
    assert(pow10(6) == 1000000);
    assert(pow10(7) == 10000000);
    assert(pow10(8) == 100000000);
    assert(pow10(9) == 1000000000);
}

/// A quoted key and its colon at position i.
fn after_key_x(v: &Vec<char>, i: usize, key: &Vec<char>) -> (r: Option<usize>)
    requires
        i <= v.len(),
    ensures
        match r {
            Some(j) => after_key(v@, i as int, key@) == Some(j as int) && j <= v.len(),
            None => after_key(v@, i as int, key@) is None,
        },
{
    if !lit_at(v, i, key) {
        return None;
    }
    let j = skip_ws_x(v, i + key.len());
    if j < v.len() {
        if v[j] == ':' {
            return Some(skip_ws_x(v, j + 1));
        }
    }
    None
}

/// A comma, a key and an integer value at position i.
fn int_field_x(v: &Vec<char>, i: usize, key: &Vec<char>) -> (r: Option<(i32, usize)>)
    requires
        i <= v.len(),
    ensures
        match r {
            Some(t) => int_field(v@, i as int, key@) == Some((t.0 as int, t.1 as int)) && t.1
                <= v.len(),
            None => int_field(v@, i as int, key@) is None,
        },
{
    let j = skip_ws_x(v, i);
    if j < v.len() {
        if v[j] == ',' {
            match after_key_x(v, skip_ws_x(v, j + 1), key) {
                Some(k) => {
                    return parse_int_x(v, k);
                },
                None => {
                    return None;
                },
            }
        }
    }
    None
}

/// Deserialize a record. Succeeds exactly on a well-formed record, and
/// then yields the identity and the attribute values exactly as stored;
/// anything else is a format error.
pub fn from_record(s: &str) -> (r: Result<Pet, StorageError>)
    ensures
        match r {
            Ok(pet) => parse_record(s@) == Some(
                (pet@.name, pet@.hunger, pet@.happiness, pet@.energy),
            ),
            Err(e) => e == StorageError::FormatError && parse_record(s@) is None,
        },
{
    let v = chars_of_str(s);
    let kn = key_name();
    let kh = key_hunger();
    let kp = key_happiness();
    let ke = key_energy();
    let i = skip_ws_x(&v, 0);
    if i == v.len() {
        return Err(StorageError::FormatError);
    }
    if v[i] != '{' {
        return Err(StorageError::FormatError);
    }
    let j = match after_key_x(&v, skip_ws_x(&v, i + 1), &kn) {
        Some(j) => j,
        None => {
            return Err(StorageError::FormatError);
        },
    };
    if j == v.len() {
        return Err(StorageError::FormatError);
    }
    if v[j] != '"' {
        return Err(StorageError::FormatError);
    }
    let nm = match parse_str_body_x(&v, j + 1) {
        Some(t) => t,
        None => {
            return Err(StorageError::FormatError);
        },
    };
    let hu = match int_field_x(&v, nm.1, &kh) {
        Some(t) => t,
        None => {
            return Err(StorageError::FormatError);
        },
    };
    let ha = match int_field_x(&v, hu.1, &kp) {
        Some(t) => t,
        None => {
            return Err(StorageError::FormatError);
        },
    };
    let en = match int_field_x(&v, ha.1, &ke) {
        Some(t) => t,
        None => {
            return Err(StorageError::FormatError);
        },
    };
    let k5 = skip_ws_x(&v, en.1);
    if k5 == v.len() {
        return Err(StorageError::FormatError);
    }
    if v[k5] != '}' {
        return Err(StorageError::FormatError);
    }
    if skip_ws_x(&v, k5 + 1) != v.len() {
        return Err(StorageError::FormatError);
    }
    let name = string_from_chars(&nm.0);
    Ok(Pet { name, hunger: hu.0, happiness: ha.0, energy: en.0 })
}

/// Interpret what the driver found in storage: no file at all is
/// NotFound; a file's contents either parse to the stored pet or are a
/// format error. The loaded attributes are taken verbatim, not
/// re-clamped.
pub fn load_record(contents: Option<&str>) -> (r: Result<Pet, StorageError>)
    ensures
        match contents {
            None => r == Err::<Pet, StorageError>(StorageError::NotFound),
            Some(s) => match r {
                Ok(pet) => parse_record(s@) == Some(
                    (pet@.name, pet@.hunger, pet@.happiness, pet@.energy),
                ),
                Err(e) => e == StorageError::FormatError && parse_record(s@) is None,
            },
        },
{
    match contents {
        None => Err(StorageError::NotFound),
        Some(s) => from_record(s),
    }
}

// ---------------------------------------------------------------------
// Round trip: parsing a record gives back exactly what was saved
// ---------------------------------------------------------------------

/// Parsing a string body that holds an escaped identity followed by the
/// closing quote yields the identity itself: unescaping inverts escaping.
proof fn lemma_unescape_escaped(s: Seq<char>, i: int, name: Seq<char>)
    requires
        0 <= i,
        i + escaped(name).len() < s.len(),
        s.subrange(i, i + escaped(name).len()) == escaped(name),
        s[i + escaped(name).len()] == '"',
    ensures
        parse_str_body(s, i) == Some((name, i + escaped(name).len() + 1)),
    decreases name.len(),
{
    let e_all = escaped(name);
    if name.len() == 0 {
        assert(s[i] == '"');
    } else {
        let c = name[0];
        let rest = name.skip(1);
        let ec = escaped_char(c);
        let e_rest = escaped(rest);
        assert(e_all == ec + e_rest);
        let i2 = i + ec.len();
        assert forall|t: int| 0 <= t < e_all.len() implies s[i + t] == e_all[t] by {
            assert(s.subrange(i, i + e_all.len())[t] == e_all[t]);
        }
        assert(s[i] == e_all[0]) by {
            assert(s.subrange(i, i + e_all.len())[0] == e_all[0]);
        }
        assert(e_all[0] == ec[0]);
        if ec.len() >= 2 {
            assert(s[i + 1] == e_all[1]);
            assert(e_all[1] == ec[1]);
        }
        assert(s.subrange(i2, i2 + e_rest.len()) =~= e_rest) by {
            assert forall|t: int| 0 <= t < e_rest.len() implies s.subrange(
                i2,
                i2 + e_rest.len(),
            )[t] == e_rest[t] by {
                assert(s[i2 + t] == e_all[ec.len() + t]);
            }
        }
        assert(s[i2 + e_rest.len()] == '"');
        lemma_unescape_escaped(s, i2, rest);
        assert(seq![c] + rest =~= name);
        if c == '"' {
            assert(s[i] == '\\' && s[i + 1] == '"');
            assert(unescape_simple('"') == Some('"'));
            assert(parse_str_body(s, i) == Some((name, i + e_all.len() + 1)));
        } else if c == '\\' {
            assert(s[i] == '\\' && s[i + 1] == '\\');
            assert(parse_str_body(s, i) == Some((name, i + e_all.len() + 1)));
        } else if (c as u32) < 32 {
            let cu = c as u32 as int;
            assert(e_all[2] == ec[2] && e_all[3] == ec[3] && e_all[4] == ec[4] && e_all[5]
                == ec[5]);
            assert(s[i + 2] == e_all[2] && s[i + 3] == e_all[3] && s[i + 4] == e_all[4] && s[i
                + 5] == e_all[5]);
            assert(s[i] == '\\' && s[i + 1] == 'u' && s[i + 2] == '0' && s[i + 3] == '0' && s[i
                + 4] == hex_glyph(cu / 16) && s[i + 5] == hex_glyph(cu % 16));
            assert(is_hex_char('0') && hex_value('0') == 0);
            assert(0 <= cu / 16 < 16 && 0 <= cu % 16 < 16);
            assert(is_hex_char(hex_glyph(cu / 16)) && hex_value(hex_glyph(cu / 16)) == cu / 16);
            assert(is_hex_char(hex_glyph(cu % 16)) && hex_value(hex_glyph(cu % 16)) == cu % 16);
            let code = hex_value(s[i + 2]) * 4096 + hex_value(s[i + 3]) * 256 + hex_value(
                s[i + 4],
            ) * 16 + hex_value(s[i + 5]);
            assert(code == (cu / 16) * 16 + cu % 16);
            assert(code == cu);
            vstd::utf8::char_u32_cast(c, c as u32);
            assert((code as u32) as char == c);
            assert(parse_str_body(s, i) == Some((name, i + e_all.len() + 1)));
        } else {
            assert(s[i] == c);
            assert(parse_str_body(s, i) == Some((name, i + e_all.len() + 1)));
        }
    }
}

/// Parsing an integer where an attribute's decimal text stands, with no
/// digit following it, yields the attribute value: parsing inverts
/// printing for values in 0..=100.
proof fn lemma_parse_attr_digits(s: Seq<char>, i: int, val: int)
    requires
        0 <= val <= 100,
        0 <= i,
        i + attr_digits(val).len() <= s.len(),
        s.subrange(i, i + attr_digits(val).len()) == attr_digits(val),
        i + attr_digits(val).len() == s.len() || !is_digit_char(s[i + attr_digits(val).len()]),
    ensures
        parse_int(s, i) == Some((val, i + attr_digits(val).len())),
{
    let d = attr_digits(val);
    let len = d.len() as int;
    assert forall|t: int| 0 <= t < len implies s[i + t] == d[t] by {
        assert(s.subrange(i, i + len)[t] == d[t]);
    }
    assert(s[i] == d[0]) by {
        assert(s.subrange(i, i + len)[0] == d[0]);
    }
    if len >= 2 {
        assert(s[i + 1] == d[1]);
    }
    if len >= 3 {
        assert(s[i + 2] == d[2]);
    }
    assert forall|q: int| 0 <= q <= 9 implies is_digit_char(digit_glyph(q)) && digit_value(
        digit_glyph(q),
    ) == q by {}
    if val < 10 {
        assert(s[i] == digit_glyph(val));
        assert(digits_end(s, i) == digits_end(s, i + 1));
        assert(digits_end(s, i + 1) == i + 1);
        assert(digits_value(s, i, i + 1) == digits_value(s, i, i) * 10 + digit_value(s[i]));
        assert(digits_value(s, i, i + 1) == val);
        assert(!at_char(s, i, '-'));
        assert(parse_int(s, i) == Some((val, i + 1)));
    } else if val < 100 {
        assert(s[i] == digit_glyph(val / 10) && s[i + 1] == digit_glyph(val % 10));
        assert(1 <= val / 10 <= 9 && 0 <= val % 10 <= 9);
        assert(digits_end(s, i) == digits_end(s, i + 1));
        assert(digits_end(s, i + 1) == digits_end(s, i + 2));
        assert(digits_end(s, i + 2) == i + 2);
        assert(digits_value(s, i, i + 2) == digits_value(s, i, i + 1) * 10 + digit_value(
            s[i + 1],
        ));
        assert(digits_value(s, i, i + 1) == digits_value(s, i, i) * 10 + digit_value(s[i]));
        assert(digits_value(s, i, i + 2) == (val / 10) * 10 + val % 10);
        assert((val / 10) * 10 + val % 10 == val);
        assert(s[i] != '0');
        assert(!at_char(s, i, '-'));
        assert(parse_int(s, i) == Some((val, i + 2)));
    } else {
        assert(s[i] == '1' && s[i + 1] == '0' && s[i + 2] == '0');
        assert(digits_end(s, i) == digits_end(s, i + 1));
        assert(digits_end(s, i + 1) == digits_end(s, i + 2));
        assert(digits_end(s, i + 2) == digits_end(s, i + 3));
        assert(digits_end(s, i + 3) == i + 3);
        assert(digits_value(s, i, i + 3) == digits_value(s, i, i + 2) * 10 + digit_value(
            s[i + 2],
        ));
        assert(digits_value(s, i, i + 2) == digits_value(s, i, i + 1) * 10 + digit_value(
            s[i + 1],
        ));
        assert(digits_value(s, i, i + 1) == digits_value(s, i, i) * 10 + digit_value(s[i]));
        assert(digits_value(s, i, i + 3) == 100);
        assert(s[i] != '0');
        assert(!at_char(s, i, '-'));
        assert(parse_int(s, i) == Some((val, i + 3)));
    }
}

/// The record text indexed anywhere inside the escaped identity gives
/// that character of the escaped identity.
proof fn lemma_rt_esc_at(name: Seq<char>, hunger: int, happiness: int, energy: int)
    requires
        0 <= hunger <= 100,
        0 <= happiness <= 100,
        0 <= energy <= 100,
    ensures
        forall|t: int|
            0 <= t < escaped(name).len() ==> record_chars(name, hunger, happiness, energy)[9 + t]
                == escaped(name)[t],
        record_chars(name, hunger, happiness, energy).len() == 44 + escaped(name).len()
            + attr_digits(hunger).len() + attr_digits(happiness).len() + attr_digits(
            energy,
        ).len(),
{
    reveal_strlit("{\"name\":\"");
    reveal_strlit("\",\"hunger\":");
    reveal_strlit(",\"happiness\":");
    reveal_strlit(",\"energy\":");
    reveal_strlit("}");
    let s = record_chars(name, hunger, happiness, energy);
    let esc = escaped(name);
    assert forall|t: int| 0 <= t < esc.len() implies s[9 + t] == esc[t] by {}
}

/// The head of the record: the brace, the name key and the quoted,
/// escaped identity parse as expected.
proof fn lemma_rt_head(name: Seq<char>, hunger: int, happiness: int, energy: int)
    requires
        0 <= hunger <= 100,
        0 <= happiness <= 100,
        0 <= energy <= 100,
    ensures
        ({
            let s = record_chars(name, hunger, happiness, energy);
            &&& skip_ws(s, 0) == 0
            &&& at_char(s, 0, '{')
            &&& skip_ws(s, 1) == 1
            &&& after_key(s, 1, "\"name\""@) == Some(8int)
            &&& at_char(s, 8, '"')
            &&& parse_str_body(s, 9) == Some((name, 10 + escaped(name).len() as int))
        }),
{
    reveal_strlit("{\"name\":\"");
    reveal_strlit("\",\"hunger\":");
    reveal_strlit(",\"happiness\":");
    reveal_strlit(",\"energy\":");
    reveal_strlit("}");
    reveal_strlit("\"name\"");
    let s = record_chars(name, hunger, happiness, energy);
    let esc = escaped(name);
    let el = esc.len() as int;
    lemma_rt_esc_at(name, hunger, happiness, energy);
    assert(s[0] == '{' && s[1] == '"' && s[2] == 'n' && s[3] == 'a' && s[4] == 'm' && s[5] == 'e'
        && s[6] == '"' && s[7] == ':' && s[8] == '"');
    assert(skip_ws(s, 0) == 0);
    assert(skip_ws(s, 1) == 1);
    assert(matches_at(s, 1, "\"name\""@)) by {
        assert(s.subrange(1, 7) =~= "\"name\""@);
    }
    assert(skip_ws(s, 7) == 7);
    assert(skip_ws(s, 8) == 8);
    assert(after_key(s, 1, "\"name\""@) == Some(8int));
    assert(s.subrange(9, 9 + el) =~= esc) by {
        assert forall|t: int| 0 <= t < el implies s.subrange(9, 9 + el)[t] == esc[t] by {
            assert(s[9 + t] == esc[t]);
        }
    }
    assert(s[9 + el] == '"');
    lemma_unescape_escaped(s, 9, name);
}

/// The hunger field parses to the hunger value.
proof fn lemma_rt_hunger(name: Seq<char>, hunger: int, happiness: int, energy: int)
    requires
        0 <= hunger <= 100,
        0 <= happiness <= 100,
        0 <= energy <= 100,
    ensures
        ({
            let s = record_chars(name, hunger, happiness, energy);
            let f1 = 10 + escaped(name).len() as int;
            int_field(s, f1, "\"hunger\""@) == Some(
                (hunger, f1 + 10 + attr_digits(hunger).len() as int),
            )
        }),
{
    reveal_strlit("{\"name\":\"");
    reveal_strlit("\",\"hunger\":");
    reveal_strlit(",\"happiness\":");
    reveal_strlit(",\"energy\":");
    reveal_strlit("}");
    reveal_strlit("\"hunger\"");
    let s = record_chars(name, hunger, happiness, energy);
    let el = escaped(name).len() as int;
    let dh = attr_digits(hunger);
    let hl = dh.len() as int;
    let f1 = 10 + el;
    let v1 = f1 + 10;
    assert(s[f1] == ',' && s[f1 + 1] == '"' && s[f1 + 2] == 'h' && s[f1 + 3] == 'u' && s[f1 + 4]
        == 'n' && s[f1 + 5] == 'g' && s[f1 + 6] == 'e' && s[f1 + 7] == 'r' && s[f1 + 8] == '"'
        && s[f1 + 9] == ':');
    assert(skip_ws(s, f1) == f1);
    assert(skip_ws(s, f1 + 1) == f1 + 1);
    assert(matches_at(s, f1 + 1, "\"hunger\""@)) by {
        assert(s.subrange(f1 + 1, f1 + 9) =~= "\"hunger\""@);
    }
    assert(skip_ws(s, f1 + 9) == f1 + 9);
    assert(s.subrange(v1, v1 + hl) =~= dh) by {
        assert forall|t: int| 0 <= t < hl implies s.subrange(v1, v1 + hl)[t] == dh[t] by {
            assert(s[v1 + t] == dh[t]);
        }
    }
    assert(s[v1] == dh[0]) by {
        assert(s.subrange(v1, v1 + hl)[0] == dh[0]);
    }
    assert(skip_ws(s, v1) == v1);
    assert(s[v1 + hl] == ',');
    lemma_parse_attr_digits(s, v1, hunger);
    assert(after_key(s, f1 + 1, "\"hunger\""@) == Some(v1));
}

/// The happiness field parses to the happiness value.
proof fn lemma_rt_happiness(name: Seq<char>, hunger: int, happiness: int, energy: int)
    requires
        0 <= hunger <= 100,
        0 <= happiness <= 100,
        0 <= energy <= 100,
    ensures
        ({
            let s = record_chars(name, hunger, happiness, energy);
            let f2 = 20 + escaped(name).len() as int + attr_digits(hunger).len() as int;
            int_field(s, f2, "\"happiness\""@) == Some(
                (happiness, f2 + 13 + attr_digits(happiness).len() as int),
            )
        }),
{
    reveal_strlit("{\"name\":\"");
    reveal_strlit("\",\"hunger\":");
    reveal_strlit(",\"happiness\":");
    reveal_strlit(",\"energy\":");
    reveal_strlit("}");
    reveal_strlit("\"happiness\"");
    let s = record_chars(name, hunger, happiness, energy);
    let el = escaped(name).len() as int;
    let hl = attr_digits(hunger).len() as int;
    let dp = attr_digits(happiness);
    let pl = dp.len() as int;
    let f2 = 20 + el + hl;
    let v2 = f2 + 13;
    assert(s[f2] == ',' && s[f2 + 1] == '"' && s[f2 + 2] == 'h' && s[f2 + 3] == 'a' && s[f2 + 4]
        == 'p' && s[f2 + 5] == 'p' && s[f2 + 6] == 'i' && s[f2 + 7] == 'n' && s[f2 + 8] == 'e'
        && s[f2 + 9] == 's' && s[f2 + 10] == 's' && s[f2 + 11] == '"' && s[f2 + 12] == ':');
    assert(skip_ws(s, f2) == f2);
    assert(skip_ws(s, f2 + 1) == f2 + 1);
    assert(matches_at(s, f2 + 1, "\"happiness\""@)) by {
        assert(s.subrange(f2 + 1, f2 + 12) =~= "\"happiness\""@);
    }
    assert(skip_ws(s, f2 + 12) == f2 + 12);
    assert(s.subrange(v2, v2 + pl) =~= dp) by {
        assert forall|t: int| 0 <= t < pl implies s.subrange(v2, v2 + pl)[t] == dp[t] by {
            assert(s[v2 + t] == dp[t]);
        }
    }
    assert(s[v2] == dp[0]) by {
        assert(s.subrange(v2, v2 + pl)[0] == dp[0]);
    }
    assert(skip_ws(s, v2) == v2);
    assert(s[v2 + pl] == ',');
    lemma_parse_attr_digits(s, v2, happiness);
    assert(after_key(s, f2 + 1, "\"happiness\""@) == Some(v2));
}

/// The energy field parses to the energy value, and the record ends with
/// the closing brace.
proof fn lemma_rt_energy(name: Seq<char>, hunger: int, happiness: int, energy: int)
    requires
        0 <= hunger <= 100,
        0 <= happiness <= 100,
        0 <= energy <= 100,
    ensures
        ({
            let s = record_chars(name, hunger, happiness, energy);
            let f3 = 33 + escaped(name).len() as int + attr_digits(hunger).len() as int
                + attr_digits(happiness).len() as int;
            let k = f3 + 10 + attr_digits(energy).len() as int;
            &&& int_field(s, f3, "\"energy\""@) == Some((energy, k))
            &&& skip_ws(s, k) == k
            &&& at_char(s, k, '}')
            &&& skip_ws(s, k + 1) == s.len()
        }),
{
    reveal_strlit("{\"name\":\"");
    reveal_strlit("\",\"hunger\":");
    reveal_strlit(",\"happiness\":");
    reveal_strlit(",\"energy\":");
    reveal_strlit("}");
    reveal_strlit("\"energy\"");
    let s = record_chars(name, hunger, happiness, energy);
    let el = escaped(name).len() as int;
    let hl = attr_digits(hunger).len() as int;
    let pl = attr_digits(happiness).len() as int;
    let de = attr_digits(energy);
    let eln = de.len() as int;
    let f3 = 33 + el + hl + pl;
    let v3 = f3 + 10;
    lemma_rt_esc_at(name, hunger, happiness, energy);
    assert(s.len() == 44 + el + hl + pl + eln);
    assert(s[f3] == ',' && s[f3 + 1] == '"' && s[f3 + 2] == 'e' && s[f3 + 3] == 'n' && s[f3 + 4]
        == 'e' && s[f3 + 5] == 'r' && s[f3 + 6] == 'g' && s[f3 + 7] == 'y' && s[f3 + 8] == '"'
        && s[f3 + 9] == ':');
    assert(skip_ws(s, f3) == f3);
    assert(skip_ws(s, f3 + 1) == f3 + 1);
    assert(matches_at(s, f3 + 1, "\"energy\""@)) by {
        assert(s.subrange(f3 + 1, f3 + 9) =~= "\"energy\""@);
    }
    assert(skip_ws(s, f3 + 9) == f3 + 9);
    assert(s.subrange(v3, v3 + eln) =~= de) by {
        assert forall|t: int| 0 <= t < eln implies s.subrange(v3, v3 + eln)[t] == de[t] by {
            assert(s[v3 + t] == de[t]);
        }
    }
    assert(s[v3] == de[0]) by {
        assert(s.subrange(v3, v3 + eln)[0] == de[0]);
    }
    assert(skip_ws(s, v3) == v3);
    assert(s[v3 + eln] == '}');
    lemma_parse_attr_digits(s, v3, energy);
    assert(after_key(s, f3 + 1, "\"energy\""@) == Some(v3));
    let k = v3 + eln;
    assert(skip_ws(s, k) == k);
    assert(at_char(s, k, '}'));
    assert(k + 1 == s.len());
    assert(skip_ws(s, k + 1) == k + 1);
}

/// The round trip: parsing the record text of any identity and any
/// attribute values in 0..=100 yields back exactly that identity and
/// those values.
pub proof fn lemma_record_round_trip(name: Seq<char>, hunger: int, happiness: int, energy: int)
    requires
        0 <= hunger <= 100,
        0 <= happiness <= 100,
        0 <= energy <= 100,
    ensures
        parse_record(record_chars(name, hunger, happiness, energy)) == Some(
            (name, hunger, happiness, energy),
        ),
{
    let s = record_chars(name, hunger, happiness, energy);
    lemma_rt_head(name, hunger, happiness, energy);
    lemma_rt_hunger(name, hunger, happiness, energy);
    lemma_rt_happiness(name, hunger, happiness, energy);
    lemma_rt_energy(name, hunger, happiness, energy);
    assert(parse_record(s) == Some((name, hunger, happiness, energy)));
}

/// The file name under which a pet's record is stored: the identity with
/// the record extension.
pub fn save_filename(name: &str) -> (r: String)
    ensures
        r@ == name@ + ".json"@,
{
    let mut out = String::from_str(name);
    out.append(".json");
    out
}

} // verus!
