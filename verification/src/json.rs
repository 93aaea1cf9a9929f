//! The metadata text format: a flat, pretty-printed object of string,
//! unsigned-number, boolean and null fields, one field per line.
//!
//! The writer emits a canonical form — `{`, one two-space-indented
//! `"key": value` line per field with a trailing comma on all but the last,
//! and a closing `}` — and the parser accepts exactly that shape, with any
//! keys in any order, so records written by older schema versions remain
//! loadable. String contents are escaped; control characters inside
//! strings travel as `\n`, `\r`, `\t` or `\u00xx` and never raw.

use vstd::prelude::*;

verus! {

/// One field value of a metadata document.
pub enum JsonValue {
    Null,
    Bool(bool),
    Num(u64),
    Text(String),
}

#[verifier::ext_equal]
pub enum JsonValueV {
    Null,
    Bool(bool),
    Num(u64),
    Text(Seq<char>),
}

impl View for JsonValue {
    type V = JsonValueV;

    open spec fn view(&self) -> JsonValueV {
        match self {
            JsonValue::Null => JsonValueV::Null,
            JsonValue::Bool(b) => JsonValueV::Bool(*b),
            JsonValue::Num(n) => JsonValueV::Num(*n),
            JsonValue::Text(t) => JsonValueV::Text(t@),
        }
    }
}

/// The fields of a document, in writing order.
pub type FieldsV = Seq<(Seq<char>, JsonValueV)>;

/// The view of an executable field list.
pub open spec fn fields_view(s: Seq<(String, JsonValue)>) -> FieldsV {
    s.map_values(|p: (String, JsonValue)| (p.0@, p.1@))
}

/// Relies on String::push: the string grows by exactly the pushed
/// character.
#[verifier::external_body]
fn push_char(s: &mut String, c: char)
    ensures
        final(s)@ == old(s)@.push(c),
{
    s.push(c);
}

// ---------------------------------------------------------------------
// characters
// ---------------------------------------------------------------------
pub open spec fn is_digit(c: char) -> bool {
    '0' <= c && c <= '9'
}

pub open spec fn digit_val(c: char) -> int {
    c as int - '0' as int
}

/// The decimal digit characters, least significant last.
pub open spec fn digit_char(d: int) -> char {
    if d == 0 {
        '0'
    } else if d == 1 {
        '1'
    } else if d == 2 {
        '2'
    } else if d == 3 {
        '3'
    } else if d == 4 {
        '4'
    } else if d == 5 {
        '5'
    } else if d == 6 {
        '6'
    } else if d == 7 {
        '7'
    } else if d == 8 {
        '8'
    } else {
        '9'
    }
}

/// The value of a lowercase hexadecimal digit, or -1.
pub open spec fn hex_val(c: char) -> int {
    if '0' <= c && c <= '9' {
        c as int - '0' as int
    } else if 'a' <= c && c <= 'f' {
        10 + c as int - 'a' as int
    } else {
        -1
    }
}

/// The lowercase hexadecimal digit characters.
pub open spec fn hex_char(d: int) -> char {
    if d < 10 {
        digit_char(d)
    } else if d == 10 {
        'a'
    } else if d == 11 {
        'b'
    } else if d == 12 {
        'c'
    } else if d == 13 {
        'd'
    } else if d == 14 {
        'e'
    } else {
        'f'
    }
}

/// The control character with scalar value `v`.
pub open spec fn control_char(v: int) -> char {
    (v as u8) as char
}

// ---------------------------------------------------------------------
// the grammar, as recursive functions over the text
// ---------------------------------------------------------------------
/// The remainder of a string token, scanned from just after the opening
/// quote with the characters read so far in `acc`: ends at the closing
/// quote, unescapes `\" \\ \/ \n \r \t \b \f` and `\u00xx` below 0x20, and
/// accepts no raw control character.
pub open spec fn scan_text(s: Seq<char>, i: int, acc: Seq<char>) -> Option<(Seq<char>, int)>
    decreases s.len() - i,
    when 0 <= i <= s.len()
{
    if i >= s.len() {
        None
    } else if s[i] == '"' {
        Some((acc, i + 1))
    } else if s[i] == '\\' {
        if i + 1 >= s.len() {
            None
        } else {
            let e = s[i + 1];
            if e == '"' {
                scan_text(s, i + 2, acc.push('"'))
            } else if e == '\\' {
                scan_text(s, i + 2, acc.push('\\'))
            } else if e == '/' {
                scan_text(s, i + 2, acc.push('/'))
            } else if e == 'n' {
                scan_text(s, i + 2, acc.push('\n'))
            } else if e == 'r' {
                scan_text(s, i + 2, acc.push('\r'))
            } else if e == 't' {
                scan_text(s, i + 2, acc.push('\t'))
            } else if e == 'b' {
                scan_text(s, i + 2, acc.push('\u{8}'))
            } else if e == 'f' {
                scan_text(s, i + 2, acc.push('\u{c}'))
            } else if e == 'u' {
                if i + 6 <= s.len() && s[i + 2] == '0' && s[i + 3] == '0' && hex_val(s[i + 4]) >= 0
                    && hex_val(s[i + 5]) >= 0 && 16 * hex_val(s[i + 4]) + hex_val(s[i + 5]) < 0x20 {
                    scan_text(
                        s,
                        i + 6,
                        acc.push(control_char(16 * hex_val(s[i + 4]) + hex_val(s[i + 5]))),
                    )
                } else {
                    None
                }
            } else {
                None
            }
        }
    } else if (s[i] as u32) < 0x20 {
        None
    } else {
        scan_text(s, i + 1, acc.push(s[i]))
    }
}

/// The remainder of a number token: decimal digits accumulated onto `acc`,
/// rejected if the value outgrows the unsigned 64-bit range.
pub open spec fn scan_num(s: Seq<char>, i: int, acc: int) -> Option<(int, int)>
    decreases s.len() - i,
    when 0 <= i <= s.len()
{
    if i < s.len() && is_digit(s[i]) {
        if acc * 10 + digit_val(s[i]) > u64::MAX as int {
            None
        } else {
            scan_num(s, i + 1, acc * 10 + digit_val(s[i]))
        }
    } else {
        Some((acc, i))
    }
}

/// One field value: a string, a number, `true`, `false` or `null`.
pub open spec fn scan_value(s: Seq<char>, i: int) -> Option<(JsonValueV, int)>
    recommends
        0 <= i <= s.len(),
{
    if i >= s.len() {
        None
    } else if s[i] == '"' {
        match scan_text(s, i + 1, Seq::empty()) {
            Some((t, j)) => Some((JsonValueV::Text(t), j)),
            None => None,
        }
    } else if is_digit(s[i]) {
        match scan_num(s, i, 0) {
            Some((n, j)) => Some((JsonValueV::Num(n as u64), j)),
            None => None,
        }
    } else if s[i] == 't' {
        if i + 4 <= s.len() && s[i + 1] == 'r' && s[i + 2] == 'u' && s[i + 3] == 'e' {
            Some((JsonValueV::Bool(true), i + 4))
        } else {
            None
        }
    } else if s[i] == 'f' {
        if i + 5 <= s.len() && s[i + 1] == 'a' && s[i + 2] == 'l' && s[i + 3] == 's' && s[i + 4]
            == 'e' {
            Some((JsonValueV::Bool(false), i + 5))
        } else {
            None
        }
    } else if s[i] == 'n' {
        if i + 4 <= s.len() && s[i + 1] == 'u' && s[i + 2] == 'l' && s[i + 3] == 'l' {
            Some((JsonValueV::Null, i + 4))
        } else {
            None
        }
    } else {
        None
    }
}

/// A successful string scan lands past its starting point and within the
/// text.
pub proof fn lemma_scan_text_shape(s: Seq<char>, i: int, acc: Seq<char>)
    requires
        0 <= i <= s.len(),
    ensures
        scan_text(s, i, acc) matches Some(r) ==> i < r.1 <= s.len(),
    decreases s.len() - i,
{
    if i < s.len() {
        if s[i] == '"' {
        } else if s[i] == '\\' {
            if i + 1 < s.len() {
                let e = s[i + 1];
                if e == '"' {
                    lemma_scan_text_shape(s, i + 2, acc.push('"'));
                } else if e == '\\' {
                    lemma_scan_text_shape(s, i + 2, acc.push('\\'));
                } else if e == '/' {
                    lemma_scan_text_shape(s, i + 2, acc.push('/'));
                } else if e == 'n' {
                    lemma_scan_text_shape(s, i + 2, acc.push('\n'));
                } else if e == 'r' {
                    lemma_scan_text_shape(s, i + 2, acc.push('\r'));
                } else if e == 't' {
                    lemma_scan_text_shape(s, i + 2, acc.push('\t'));
                } else if e == 'b' {
                    lemma_scan_text_shape(s, i + 2, acc.push('\u{8}'));
                } else if e == 'f' {
                    lemma_scan_text_shape(s, i + 2, acc.push('\u{c}'));
                } else if e == 'u' {
                    if i + 6 <= s.len() && s[i + 2] == '0' && s[i + 3] == '0' && hex_val(s[i + 4])
                        >= 0 && hex_val(s[i + 5]) >= 0 && 16 * hex_val(s[i + 4]) + hex_val(
                        s[i + 5],
                    ) < 0x20 {
                        lemma_scan_text_shape(
                            s,
                            i + 6,
                            acc.push(control_char(16 * hex_val(s[i + 4]) + hex_val(s[i + 5]))),
                        );
                    }
                }
            }
        } else if (s[i] as u32) >= 0x20 {
            lemma_scan_text_shape(s, i + 1, acc.push(s[i]));
        }
    }
}

/// A number token never runs past the text.
pub proof fn lemma_scan_num_shape(s: Seq<char>, i: int, acc: int)
    requires
        0 <= i <= s.len(),
    ensures
        scan_num(s, i, acc) matches Some(r) ==> i <= r.1 <= s.len(),
    decreases s.len() - i,
{
    if i < s.len() && is_digit(s[i]) && acc * 10 + digit_val(s[i]) <= u64::MAX as int {
        lemma_scan_num_shape(s, i + 1, acc * 10 + digit_val(s[i]));
    }
}

/// A value token consumes at least one character and never runs past the
/// text.
pub proof fn lemma_scan_value_progress(s: Seq<char>, i: int)
    requires
        0 <= i <= s.len(),
    ensures
        scan_value(s, i) matches Some(r) ==> i < r.1 <= s.len(),
{
    if i < s.len() {
        if s[i] == '"' {
            lemma_scan_text_shape(s, i + 1, Seq::empty());
        } else if is_digit(s[i]) {
            assert(0 * 10 + digit_val(s[i]) <= u64::MAX as int);
            lemma_scan_num_shape(s, i + 1, digit_val(s[i]));
        }
    }
}

/// The member lines of a document, scanned from the start of a line with
/// the fields read so far in `acc`: ends at the closing brace.
pub open spec fn scan_lines(s: Seq<char>, i: int, acc: FieldsV) -> Option<(FieldsV, int)>
    decreases s.len() - i,
    when 0 <= i <= s.len()
    via scan_lines_decreases
{
    if i >= s.len() {
        None
    } else if s[i] == '}' {
        Some((acc, i + 1))
    } else if i + 3 <= s.len() && s[i] == ' ' && s[i + 1] == ' ' && s[i + 2] == '"' {
        match scan_text(s, i + 3, Seq::empty()) {
            Some((key, j)) => if j + 2 <= s.len() && s[j] == ':' && s[j + 1] == ' ' {
                match scan_value(s, j + 2) {
                    Some((v, k)) => if k + 2 <= s.len() && s[k] == ',' && s[k + 1] == '\n' {
                        scan_lines(s, k + 2, acc.push((key, v)))
                    } else if k < s.len() && s[k] == '\n' {
                        scan_lines(s, k + 1, acc.push((key, v)))
                    } else {
                        None
                    },
                    None => None,
                }
            } else {
                None
            },
            None => None,
        }
    } else {
        None
    }
}

#[via_fn]
proof fn scan_lines_decreases(s: Seq<char>, i: int, acc: FieldsV) {
    if 0 <= i && i < s.len() && s[i] != '}' && i + 3 <= s.len() && s[i] == ' ' && s[i + 1] == ' '
        && s[i + 2] == '"' {
        lemma_scan_text_shape(s, i + 3, Seq::empty());
        match scan_text(s, i + 3, Seq::empty()) {
            Some((key, j)) => {
                if j + 2 <= s.len() && s[j] == ':' && s[j + 1] == ' ' {
                    lemma_scan_value_progress(s, j + 2);
                }
            },
            None => {},
        }
    }
}

/// A whole metadata document: an opening brace on its own line, the member
/// lines, a closing brace, nothing after it.
pub open spec fn scan_document(s: Seq<char>) -> Option<FieldsV> {
    if s.len() >= 2 && s[0] == '{' && s[1] == '\n' {
        match scan_lines(s, 2, Seq::empty()) {
            Some((fields, end)) => if end == s.len() {
                Some(fields)
            } else {
                None
            },
            None => None,
        }
    } else {
        None
    }
}


// ---------------------------------------------------------------------
// the parser
// ---------------------------------------------------------------------
/// The value of a lowercase hexadecimal digit character, or -1.
fn hex_val_of(c: char) -> (r: i32)
    ensures
        r as int == hex_val(c),
{
    let v = c as u32;
    if v >= 48 && v <= 57 {
        (v - 48) as i32
    } else if v >= 97 && v <= 102 {
        (v - 97 + 10) as i32
    } else {
        -1
    }
}

/// One string token, read from just after its opening quote.
fn scan_text_e(s: &str, n: usize, start: usize) -> (r: Option<(String, usize)>)
    requires
        n == s@.len(),
        start <= n,
    ensures
        r matches Some(p) ==> scan_text(s@, start as int, Seq::empty()) == Some((
            p.0@,
            p.1 as int,
        )) && start < p.1 <= n,
        r is None ==> scan_text(s@, start as int, Seq::empty()) is None,
{
    proof {
        lemma_scan_text_shape(s@, start as int, Seq::empty());
    }
    let mut i: usize = start;
    let mut acc = String::new();
    loop
        invariant
            n == s@.len(),
            start <= i <= n,
            scan_text(s@, start as int, Seq::empty()) == scan_text(s@, i as int, acc@),
        decreases n - i,
    {
        if i >= n {
            return None;
        }
        let c = s.get_char(i);
        if c == '"' {
            return Some((acc, i + 1));
        } else if c == '\\' {
            if i + 1 >= n {
                return None;
            }
            let e = s.get_char(i + 1);
            if e == '"' {
                push_char(&mut acc, '"');
                i = i + 2;
            } else if e == '\\' {
                push_char(&mut acc, '\\');
                i = i + 2;
            } else if e == '/' {
                push_char(&mut acc, '/');
                i = i + 2;
            } else if e == 'n' {
                push_char(&mut acc, '\n');
                i = i + 2;
            } else if e == 'r' {
                push_char(&mut acc, '\r');
                i = i + 2;
            } else if e == 't' {
                push_char(&mut acc, '\t');
                i = i + 2;
            } else if e == 'b' {
                push_char(&mut acc, '\u{8}');
                i = i + 2;
            } else if e == 'f' {
                push_char(&mut acc, '\u{c}');
                i = i + 2;
            } else if e == 'u' {
                if n - i >= 6 && s.get_char(i + 2) == '0' && s.get_char(i + 3) == '0' {
                    let h1 = hex_val_of(s.get_char(i + 4));
                    let h2 = hex_val_of(s.get_char(i + 5));
                    if h1 >= 0 && h2 >= 0 && 16 * h1 + h2 < 0x20 {
                        let v = (16 * h1 + h2) as u8;
                        push_char(&mut acc, v as char);
                        i = i + 6;
                    } else {
                        return None;
                    }
                } else {
                    return None;
                }
            } else {
                return None;
            }
        } else if (c as u32) < 0x20 {
            return None;
        } else {
            push_char(&mut acc, c);
            i = i + 1;
        }
    }
}

/// One number token.
fn scan_num_e(s: &str, n: usize, start: usize) -> (r: Option<(u64, usize)>)
    requires
        n == s@.len(),
        start <= n,
    ensures
        r matches Some(p) ==> scan_num(s@, start as int, 0) == Some((p.0 as int, p.1 as int))
            && p.1 <= n,
        r is None ==> scan_num(s@, start as int, 0) is None,
{
    let mut i: usize = start;
    let mut acc: u64 = 0;
    loop
        invariant
            n == s@.len(),
            start <= i <= n,
            scan_num(s@, start as int, 0) == scan_num(s@, i as int, acc as int),
        decreases n - i,
    {
        if i >= n {
            return Some((acc, i));
        }
        let c = s.get_char(i);
        let v = c as u32;
        if v >= 48 && v <= 57 {
            proof {
                assert(is_digit(s@[i as int]));
            }
            let d = (v - 48) as u64;
            let wide: u128 = acc as u128 * 10 + d as u128;
            if wide > u64::MAX as u128 {
                return None;
            }
            acc = wide as u64;
            i = i + 1;
        } else {
            proof {
                assert(!is_digit(s@[i as int]));
            }
            return Some((acc, i));
        }
    }
}

/// One field value.
fn scan_value_e(s: &str, n: usize, i: usize) -> (r: Option<(JsonValue, usize)>)
    requires
        n == s@.len(),
        i <= n,
    ensures
        r matches Some(p) ==> scan_value(s@, i as int) == Some((p.0@, p.1 as int)) && i < p.1
            <= n,
        r is None ==> scan_value(s@, i as int) is None,
{
    proof {
        lemma_scan_value_progress(s@, i as int);
    }
    if i >= n {
        return None;
    }
    let c = s.get_char(i);
    if c == '"' {
        match scan_text_e(s, n, i + 1) {
            Some((t, j)) => Some((JsonValue::Text(t), j)),
            None => None,
        }
    } else if (c as u32) >= 48 && (c as u32) <= 57 {
        proof {
            assert(is_digit(s@[i as int]));
        }
        match scan_num_e(s, n, i) {
            Some((v, j)) => Some((JsonValue::Num(v), j)),
            None => None,
        }
    } else if c == 't' {
        if n - i >= 4 && s.get_char(i + 1) == 'r' && s.get_char(i + 2) == 'u' && s.get_char(i + 3)
            == 'e' {
            Some((JsonValue::Bool(true), i + 4))
        } else {
            None
        }
    } else if c == 'f' {
        if n - i >= 5 && s.get_char(i + 1) == 'a' && s.get_char(i + 2) == 'l' && s.get_char(i + 3)
            == 's' && s.get_char(i + 4) == 'e' {
            Some((JsonValue::Bool(false), i + 5))
        } else {
            None
        }
    } else if c == 'n' {
        if n - i >= 4 && s.get_char(i + 1) == 'u' && s.get_char(i + 2) == 'l' && s.get_char(i + 3)
            == 'l' {
            Some((JsonValue::Null, i + 4))
        } else {
            None
        }
    } else {
        None
    }
}

/// A whole metadata document, or nothing when the text does not parse as
/// one.
pub fn parse_document(s: &str) -> (r: Option<Vec<(String, JsonValue)>>)
    ensures
        r matches Some(fields) ==> scan_document(s@) == Some(fields_view(fields@)),
        r is None ==> scan_document(s@) is None,
{
    let n = s.unicode_len();
    if n < 2 {
        return None;
    }
    if s.get_char(0) != '{' || s.get_char(1) != '\n' {
        return None;
    }
    let mut i: usize = 2;
    let mut fields: Vec<(String, JsonValue)> = Vec::new();
    proof {
        assert(fields_view(fields@) =~= Seq::<(Seq<char>, JsonValueV)>::empty());
    }
    loop
        invariant
            n == s@.len(),
            2 <= i <= n,
            s@[0] == '{' && s@[1] == '\n',
            scan_lines(s@, 2, Seq::empty()) == scan_lines(s@, i as int, fields_view(fields@)),
        decreases n - i,
    {
        if i >= n {
            return None;
        }
        let c = s.get_char(i);
        if c == '}' {
            if i + 1 == n {
                return Some(fields);
            } else {
                return None;
            }
        }
        if n - i < 3 || c != ' ' || s.get_char(i + 1) != ' ' || s.get_char(i + 2) != '"' {
            return None;
        }
        let parsed_key = scan_text_e(s, n, i + 3);
        match parsed_key {
            None => {
                return None;
            },
            Some((key, j)) => {
                if n - j < 2 || s.get_char(j) != ':' || s.get_char(j + 1) != ' ' {
                    return None;
                }
                let parsed_value = scan_value_e(s, n, j + 2);
                match parsed_value {
                    None => {
                        return None;
                    },
                    Some((v, k)) => {
                        let ghost fv0 = fields_view(fields@);
                        let ghost kv = (key@, v@);
                        if n - k >= 2 && s.get_char(k) == ',' && s.get_char(k + 1) == '\n' {
                            fields.push((key, v));
                            proof {
                                assert(fields_view(fields@) =~= fv0.push(kv));
                            }
                            i = k + 2;
                        } else if k < n && s.get_char(k) == '\n' {
                            fields.push((key, v));
                            proof {
                                assert(fields_view(fields@) =~= fv0.push(kv));
                            }
                            i = k + 1;
                        } else {
                            return None;
                        }
                    },
                }
            },
        }
    }
}

// ---------------------------------------------------------------------
// the writer
// ---------------------------------------------------------------------
/// How one character travels inside a string token: itself, unless it must
/// be escaped.
pub open spec fn esc_char(c: char) -> Seq<char> {
    if c == '"' {
        seq!['\\', '"']
    } else if c == '\\' {
        seq!['\\', '\\']
    } else if c == '\n' {
        seq!['\\', 'n']
    } else if c == '\r' {
        seq!['\\', 'r']
    } else if c == '\t' {
        seq!['\\', 't']
    } else if (c as u32) < 0x20 {
        seq![
            '\\',
            'u',
            '0',
            '0',
            hex_char((c as u32) as int / 16),
            hex_char((c as u32) as int % 16),
        ]
    } else {
        seq![c]
    }
}

/// A whole string's contents, escaped.
pub open spec fn esc_text(t: Seq<char>) -> Seq<char>
    decreases t.len(),
{
    if t.len() == 0 {
        Seq::empty()
    } else {
        esc_char(t[0]) + esc_text(t.drop_first())
    }
}

/// A string token: the escaped contents in quotes.
pub open spec fn text_token(t: Seq<char>) -> Seq<char> {
    seq!['"'] + esc_text(t) + seq!['"']
}

/// A number's decimal digits, most significant first.
pub open spec fn dec_digits(n: int) -> Seq<char>
    decreases n,
    when n >= 0
{
    if n < 10 {
        seq![digit_char(n)]
    } else {
        dec_digits(n / 10).push(digit_char(n % 10))
    }
}

/// One field value as written.
pub open spec fn value_token(v: JsonValueV) -> Seq<char> {
    match v {
        JsonValueV::Null => seq!['n', 'u', 'l', 'l'],
        JsonValueV::Bool(b) => if b {
            seq!['t', 'r', 'u', 'e']
        } else {
            seq!['f', 'a', 'l', 's', 'e']
        },
        JsonValueV::Num(n) => dec_digits(n as int),
        JsonValueV::Text(t) => text_token(t),
    }
}

/// One member line as written: indented, key, value, a comma unless last.
pub open spec fn line_token(key: Seq<char>, v: JsonValueV, last: bool) -> Seq<char> {
    seq![' ', ' '] + text_token(key) + seq![':', ' '] + value_token(v) + (if last {
        seq!['\n']
    } else {
        seq![',', '\n']
    })
}

/// The member lines from position `i` on, closed by the final brace.
pub open spec fn lines_token(fields: FieldsV, i: int) -> Seq<char>
    decreases fields.len() - i,
    when 0 <= i <= fields.len()
{
    if i >= fields.len() {
        seq!['}']
    } else {
        line_token(fields[i].0, fields[i].1, i == fields.len() - 1) + lines_token(fields, i + 1)
    }
}

/// A whole document as written.
pub open spec fn document_text(fields: FieldsV) -> Seq<char> {
    seq!['{', '\n'] + lines_token(fields, 0)
}

/// Escaping distributes over extending the text by one character.
proof fn lemma_esc_snoc(t: Seq<char>, c: char)
    ensures
        esc_text(t.push(c)) =~= esc_text(t) + esc_char(c),
    decreases t.len(),
{
    if t.len() == 0 {
        assert(t.push(c)[0] == c);
        assert(t.push(c).drop_first() =~= Seq::<char>::empty());
        assert(esc_text(t.push(c)) == esc_char(c) + esc_text(Seq::<char>::empty()));
        assert(esc_char(c) + Seq::<char>::empty() =~= esc_char(c));
        assert(Seq::<char>::empty() + esc_char(c) =~= esc_char(c));
    } else {
        assert(t.push(c)[0] == t[0]);
        assert(t.push(c).drop_first() =~= t.drop_first().push(c));
        lemma_esc_snoc(t.drop_first(), c);
        assert(esc_text(t.push(c)) == esc_char(t[0]) + esc_text(t.drop_first().push(c)));
    }
}

/// The lowercase hexadecimal digit characters.
fn hex_char_of(d: u32) -> (c: char)
    requires
        d < 16,
    ensures
        c == hex_char(d as int),
{
    if d == 0 {
        '0'
    } else if d == 1 {
        '1'
    } else if d == 2 {
        '2'
    } else if d == 3 {
        '3'
    } else if d == 4 {
        '4'
    } else if d == 5 {
        '5'
    } else if d == 6 {
        '6'
    } else if d == 7 {
        '7'
    } else if d == 8 {
        '8'
    } else if d == 9 {
        '9'
    } else if d == 10 {
        'a'
    } else if d == 11 {
        'b'
    } else if d == 12 {
        'c'
    } else if d == 13 {
        'd'
    } else if d == 14 {
        'e'
    } else {
        'f'
    }
}

/// Appends one string's escaped contents.
fn push_escaped(out: &mut String, t: &str)
    ensures
        final(out)@ == old(out)@ + esc_text(t@),
{
    let n = t.unicode_len();
    let mut i: usize = 0;
    proof {
        assert(esc_text(t@.subrange(0, 0)) =~= Seq::<char>::empty());
        assert(old(out)@ + Seq::<char>::empty() =~= old(out)@);
    }
    while i < n
        invariant
            n == t@.len(),
            i <= n,
            out@ == old(out)@ + esc_text(t@.subrange(0, i as int)),
        decreases n - i,
    {
        let c = t.get_char(i);
        if c == '"' {
            push_char(out, '\\');
            push_char(out, '"');
        } else if c == '\\' {
            push_char(out, '\\');
            push_char(out, '\\');
        } else if c == '\n' {
            push_char(out, '\\');
            push_char(out, 'n');
        } else if c == '\r' {
            push_char(out, '\\');
            push_char(out, 'r');
        } else if c == '\t' {
            push_char(out, '\\');
            push_char(out, 't');
        } else if (c as u32) < 0x20 {
            let v = c as u32;
            push_char(out, '\\');
            push_char(out, 'u');
            push_char(out, '0');
            push_char(out, '0');
            push_char(out, hex_char_of(v / 16));
            push_char(out, hex_char_of(v % 16));
        } else {
            push_char(out, c);
        }
        proof {
            lemma_esc_snoc(t@.subrange(0, i as int), t@[i as int]);
            assert(t@.subrange(0, i as int).push(t@[i as int]) =~= t@.subrange(0, i as int + 1));
            assert(out@ =~= old(out)@ + esc_text(t@.subrange(0, i as int + 1)));
        }
        i = i + 1;
    }
    proof {
        assert(t@.subrange(0, n as int) =~= t@);
    }
}

/// Appends one string token.
fn push_text_token(out: &mut String, t: &str)
    ensures
        final(out)@ == old(out)@ + text_token(t@),
{
    push_char(out, '"');
    push_escaped(out, t);
    push_char(out, '"');
    proof {
        assert(out@ =~= old(out)@ + text_token(t@));
    }
}

/// Appends a number's decimal digits.
fn push_num(out: &mut String, n: u64)
    ensures
        final(out)@ == old(out)@ + dec_digits(n as int),
    decreases n,
{
    if n < 10 {
        let d = n as u32;
        if d == 0 {
            push_char(out, '0');
        } else if d == 1 {
            push_char(out, '1');
        } else if d == 2 {
            push_char(out, '2');
        } else if d == 3 {
            push_char(out, '3');
        } else if d == 4 {
            push_char(out, '4');
        } else if d == 5 {
            push_char(out, '5');
        } else if d == 6 {
            push_char(out, '6');
        } else if d == 7 {
            push_char(out, '7');
        } else if d == 8 {
            push_char(out, '8');
        } else {
            push_char(out, '9');
        }
        proof {
            assert(out@ =~= old(out)@ + dec_digits(n as int));
        }
    } else {
        push_num(out, n / 10);
        let d = (n % 10) as u32;
        push_char(out, hex_char_of(d));
        proof {
            assert(hex_char(d as int) == digit_char(d as int));
            assert(out@ =~= old(out)@ + dec_digits(n as int));
        }
    }
}

/// Appends one field value.
fn push_value(out: &mut String, v: &JsonValue)
    ensures
        final(out)@ == old(out)@ + value_token(v@),
{
    match v {
        JsonValue::Null => {
            out.append("null");
            proof {
                reveal_strlit("null");
                assert("null"@ =~= seq!['n', 'u', 'l', 'l']);
                assert(out@ =~= old(out)@ + value_token(v@));
            }
        },
        JsonValue::Bool(b) => {
            if *b {
                out.append("true");
                proof {
                    reveal_strlit("true");
                    assert("true"@ =~= seq!['t', 'r', 'u', 'e']);
                    assert(out@ =~= old(out)@ + value_token(v@));
                }
            } else {
                out.append("false");
                proof {
                    reveal_strlit("false");
                    assert("false"@ =~= seq!['f', 'a', 'l', 's', 'e']);
                    assert(out@ =~= old(out)@ + value_token(v@));
                }
            }
        },
        JsonValue::Num(n) => {
            push_num(out, *n);
        },
        JsonValue::Text(t) => {
            push_text_token(out, t.as_str());
        },
    }
}

/// A whole metadata document in its canonical written form.
pub fn write_document(fields: &Vec<(String, JsonValue)>) -> (r: String)
    ensures
        r@ == document_text(fields_view(fields@)),
{
    let ghost fv = fields_view(fields@);
    let mut out = String::new();
    push_char(&mut out, '{');
    push_char(&mut out, '\n');
    let mut i: usize = 0;
    proof {
        assert(out@ =~= seq!['{', '\n']);
        assert(document_text(fv) =~= out@ + lines_token(fv, 0));
    }
    while i < fields.len()
        invariant
            fv == fields_view(fields@),
            i <= fields@.len(),
            document_text(fv) == out@ + lines_token(fv, i as int),
        decreases fields@.len() - i,
    {
        let ghost out0 = out@;
        push_char(&mut out, ' ');
        push_char(&mut out, ' ');
        push_text_token(&mut out, fields[i].0.as_str());
        push_char(&mut out, ':');
        push_char(&mut out, ' ');
        push_value(&mut out, &fields[i].1);
        if i + 1 < fields.len() {
            push_char(&mut out, ',');
        }
        push_char(&mut out, '\n');
        proof {
            assert(fv[i as int] == (fields@[i as int].0@, fields@[i as int].1@));
            assert(out@ =~= out0 + line_token(fv[i as int].0, fv[i as int].1, i as int == fv.len()
                - 1));
            assert(document_text(fv) =~= out@ + lines_token(fv, i as int + 1));
        }
        i = i + 1;
    }
    push_char(&mut out, '}');
    proof {
        assert(lines_token(fv, fields@.len() as int) =~= seq!['}']);
        assert(out@ =~= document_text(fv));
    }
    out
}

// ---------------------------------------------------------------------
// the writer's output parses back to what was written
// ---------------------------------------------------------------------
/// The decimal digit characters are digits and carry their value.
proof fn lemma_digit_char_val(d: int)
    requires
        0 <= d < 10,
    ensures
        is_digit(digit_char(d)),
        digit_val(digit_char(d)) == d,
{
}

/// The hexadecimal digit characters carry their value.
proof fn lemma_hex_char_val(d: int)
    requires
        0 <= d < 16,
    ensures
        hex_val(hex_char(d)) == d,
{
}

/// A written number is never empty and opens with a digit.
proof fn lemma_dec_digits_first(n: int)
    requires
        n >= 0,
    ensures
        dec_digits(n).len() >= 1,
        is_digit(dec_digits(n)[0]),
    decreases n,
{
    if n >= 10 {
        lemma_dec_digits_first(n / 10);
        assert(dec_digits(n)[0] == dec_digits(n / 10)[0]);
    } else {
        lemma_digit_char_val(n);
    }
}

/// The value a run of written digits accumulates onto `a`, most
/// significant digit first.
pub open spec fn combine(a: int, n: int) -> int
    decreases n,
    when n >= 0
{
    if n < 10 {
        a * 10 + n
    } else {
        combine(a, n / 10) * 10 + n % 10
    }
}

proof fn lemma_combine_nonneg(a: int, n: int)
    requires
        a >= 0,
        n >= 0,
    ensures
        combine(a, n) >= 0,
    decreases n,
{
    if n >= 10 {
        lemma_combine_nonneg(a, n / 10);
    }
}

/// Accumulating onto nothing reads the written number itself back.
proof fn lemma_combine_zero(n: int)
    requires
        n >= 0,
    ensures
        combine(0, n) == n,
    decreases n,
{
    if n >= 10 {
        lemma_combine_zero(n / 10);
    }
}

/// A control character survives the trip through its scalar value.
proof fn lemma_control_char_identity(c: char)
    requires
        (c as u32) < 0x20,
    ensures
        ((c as u32) as u8) as char == c,
{
}

/// Scanning a written string token from just after its opening quote reads
/// back exactly the written text and stops just past the closing quote,
/// whatever surrounds the token.
proof fn lemma_scan_text_of_token(pre: Seq<char>, t: Seq<char>, post: Seq<char>, acc: Seq<char>)
    ensures
        scan_text(pre + esc_text(t) + seq!['"'] + post, pre.len() as int, acc) == Some((
            acc + t,
            pre.len() as int + esc_text(t).len() + 1,
        )),
    decreases t.len(),
{
    let s = pre + esc_text(t) + seq!['"'] + post;
    let i = pre.len() as int;
    if t.len() == 0 {
        assert(esc_text(t).len() == 0);
        assert(s[i] == '"');
        assert(acc + t =~= acc);
    } else {
        let c = t[0];
        let t2 = t.drop_first();
        let e = esc_char(c);
        assert(esc_text(t) == e + esc_text(t2));
        assert forall|x: int| 0 <= x < e.len() implies s[i + x] == e[x] by {
            assert(s[i + x] == esc_text(t)[x]);
            assert(esc_text(t)[x] == e[x]);
        }
        let pre2 = pre + e;
        let s2 = pre2 + esc_text(t2) + seq!['"'] + post;
        assert(s2 =~= s);
        if c == '"' {
            lemma_scan_text_of_token(pre2, t2, post, acc.push('"'));
            assert(acc.push(c) + t2 =~= acc + t);
        } else if c == '\\' {
            lemma_scan_text_of_token(pre2, t2, post, acc.push('\\'));
            assert(acc.push(c) + t2 =~= acc + t);
        } else if c == '\n' {
            lemma_scan_text_of_token(pre2, t2, post, acc.push('\n'));
            assert(acc.push(c) + t2 =~= acc + t);
        } else if c == '\r' {
            lemma_scan_text_of_token(pre2, t2, post, acc.push('\r'));
            assert(acc.push(c) + t2 =~= acc + t);
        } else if c == '\t' {
            lemma_scan_text_of_token(pre2, t2, post, acc.push('\t'));
            assert(acc.push(c) + t2 =~= acc + t);
        } else if (c as u32) < 0x20 {
            let v: int = (c as u32) as int;
            assert(e[4] == hex_char(v / 16));
            assert(e[5] == hex_char(v % 16));
            lemma_hex_char_val(v / 16);
            lemma_hex_char_val(v % 16);
            assert(16 * hex_val(s[i + 4]) + hex_val(s[i + 5]) == v);
            assert(0 <= v < 0x20);
            assert(v as u8 == (c as u32) as u8);
            lemma_control_char_identity(c);
            assert(control_char(v) == c);
            lemma_scan_text_of_token(pre2, t2, post, acc.push(c));
            assert(acc.push(c) + t2 =~= acc + t);
        } else {
            assert(e =~= seq![c]);
            assert(s[i] == c);
            lemma_scan_text_of_token(pre2, t2, post, acc.push(c));
            assert(acc.push(c) + t2 =~= acc + t);
        }
    }
}

/// Scanning a written number consumes exactly its digits, accumulating
/// their value.
proof fn lemma_scan_num_of_digits(pre: Seq<char>, n: u64, post: Seq<char>, a: int)
    requires
        0 <= a,
        combine(a, n as int) <= u64::MAX as int,
    ensures
        scan_num(pre + dec_digits(n as int) + post, pre.len() as int, a) == scan_num(
            pre + dec_digits(n as int) + post,
            pre.len() as int + dec_digits(n as int).len(),
            combine(a, n as int),
        ),
    decreases n,
{
    let d = dec_digits(n as int);
    let s = pre + d + post;
    let i = pre.len() as int;
    if n < 10 {
        assert(d =~= seq![digit_char(n as int)]);
        assert(s[i] == digit_char(n as int));
        lemma_digit_char_val(n as int);
        assert(a * 10 + digit_val(s[i]) == combine(a, n as int));
    } else {
        let d1 = dec_digits(n as int / 10);
        let last = digit_char(n as int % 10);
        assert(d == d1.push(last));
        assert(d =~= d1 + seq![last]);
        let post2 = seq![last] + post;
        assert(pre + d1 + post2 =~= s);
        let c1: int = combine(a, n as int / 10);
        lemma_combine_nonneg(a, n as int / 10);
        assert(c1 * 10 + n as int % 10 == combine(a, n as int));
        assert(c1 <= c1 * 10);
        lemma_scan_num_of_digits(pre, n / 10, post2, a);
        let j: int = i + d1.len();
        assert(s[j] == last);
        lemma_digit_char_val(n as int % 10);
        assert(digit_val(s[j]) == n as int % 10);
        assert(scan_num(s, j, c1) == scan_num(s, j + 1, combine(a, n as int)));
    }
}

/// Scanning a written value token reads back exactly the written value,
/// provided no digit follows it directly.
proof fn lemma_scan_value_of_token(pre: Seq<char>, v: JsonValueV, post: Seq<char>)
    requires
        post.len() > 0 ==> !is_digit(post[0]),
    ensures
        scan_value(pre + value_token(v) + post, pre.len() as int) == Some((
            v,
            pre.len() as int + value_token(v).len(),
        )),
{
    let vt = value_token(v);
    let s = pre + vt + post;
    let i = pre.len() as int;
    match v {
        JsonValueV::Null => {
            assert(s[i] == 'n');
        },
        JsonValueV::Bool(b) => {
            if b {
                assert(s[i] == 't');
            } else {
                assert(s[i] == 'f');
            }
        },
        JsonValueV::Num(n) => {
            lemma_dec_digits_first(n as int);
            assert(s[i] == dec_digits(n as int)[0]);
            assert(is_digit(s[i]));
            lemma_combine_zero(n as int);
            lemma_scan_num_of_digits(pre, n, post, 0);
            let j: int = i + dec_digits(n as int).len();
            assert(j < s.len() ==> s[j] == post[0]);
            assert(scan_num(s, j, n as int) == Some((n as int, j)));
        },
        JsonValueV::Text(t) => {
            assert(s[i] == '"');
            let pre2 = pre + seq!['"'];
            assert(pre2 + esc_text(t) + seq!['"'] + post =~= s);
            lemma_scan_text_of_token(pre2, t, post, Seq::empty());
            assert(Seq::<char>::empty() + t =~= t);
        },
    }
}

/// Scanning the written member lines from position `k` on reads back
/// exactly the remaining fields and stops at the end of the text.
#[verifier::rlimit(100)]
proof fn lemma_scan_lines_of_tokens(pre: Seq<char>, fields: FieldsV, k: int, acc: FieldsV)
    requires
        0 <= k <= fields.len(),
    ensures
        scan_lines(pre + lines_token(fields, k), pre.len() as int, acc) == Some((
            acc + fields.skip(k),
            (pre + lines_token(fields, k)).len() as int,
        )),
    decreases fields.len() - k,
{
    let lt = lines_token(fields, k);
    let s = pre + lt;
    let i = pre.len() as int;
    if k == fields.len() {
        assert(lt =~= seq!['}']);
        assert(s[i] == '}');
        assert(acc + fields.skip(k) =~= acc);
    } else {
        let key = fields[k].0;
        let v = fields[k].1;
        let last = k == fields.len() - 1;
        let line = line_token(key, v, last);
        assert(lt == line + lines_token(fields, k + 1));
        let sep: Seq<char> = if last {
            seq!['\n']
        } else {
            seq![',', '\n']
        };
        assert(s[i] == ' ');
        assert(s[i + 1] == ' ');
        assert(s[i + 2] == '"');
        // the key token
        let pre_key = pre + seq![' ', ' ', '"'];
        let post_key = seq![':', ' '] + value_token(v) + sep + lines_token(fields, k + 1);
        assert(pre_key + esc_text(key) + seq!['"'] + post_key =~= s);
        lemma_scan_text_of_token(pre_key, key, post_key, Seq::empty());
        assert(Seq::<char>::empty() + key =~= key);
        let j: int = pre_key.len() as int + esc_text(key).len() + 1;
        assert(scan_text(s, i + 3, Seq::empty()) == Some((key, j)));
        assert(s[j] == ':');
        assert(s[j + 1] == ' ');
        // the value token
        let pre_val = pre + seq![' ', ' '] + text_token(key) + seq![':', ' '];
        let post_val = sep + lines_token(fields, k + 1);
        assert(pre_val + value_token(v) + post_val =~= s);
        assert(pre_val.len() == j + 2);
        assert(post_val[0] == sep[0]);
        assert(!is_digit(post_val[0]));
        lemma_scan_value_of_token(pre_val, v, post_val);
        let m: int = pre_val.len() as int + value_token(v).len();
        assert(scan_value(s, j + 2) == Some((v, m)));
        assert(s[m] == sep[0]);
        // the separator, then the rest of the lines
        if last {
            assert(s[m] == '\n');
            let pre_rest = pre + line;
            assert(pre_rest.len() == m + 1);
            assert(pre_rest + lines_token(fields, k + 1) =~= s);
            lemma_scan_lines_of_tokens(pre_rest, fields, k + 1, acc.push((key, v)));
            assert(acc.push(fields[k]) + fields.skip(k + 1) =~= acc + fields.skip(k));
        } else {
            assert(s[m] == ',');
            assert(s[m + 1] == '\n');
            let pre_rest = pre + line;
            assert(pre_rest.len() == m + 2);
            assert(pre_rest + lines_token(fields, k + 1) =~= s);
            lemma_scan_lines_of_tokens(pre_rest, fields, k + 1, acc.push((key, v)));
            assert(acc.push(fields[k]) + fields.skip(k + 1) =~= acc + fields.skip(k));
        }
    }
}

/// What the writer writes, the parser reads back: a canonical document
/// scans to exactly the fields it was written from.
pub proof fn lemma_scan_of_document_text(fields: FieldsV)
    ensures
        scan_document(document_text(fields)) == Some(fields),
{
    let s = document_text(fields);
    assert(s[0] == '{');
    assert(s[1] == '\n');
    assert(s.len() >= 3);
    lemma_scan_lines_of_tokens(seq!['{', '\n'], fields, 0, Seq::empty());
    assert(seq!['{', '\n'] + lines_token(fields, 0) =~= s);
    assert(Seq::<(Seq<char>, JsonValueV)>::empty() + fields.skip(0) =~= fields);
}

} // verus!
