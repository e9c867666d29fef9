//! A JSON document model with a verified text codec: canonical rendering
//! and a parser, with a proof that parsing a rendering yields the value
//! back.
//!
//! Number literals are kept as their text, so a decoded document re-encodes
//! byte for byte and no floating point is involved.

use vstd::prelude::*;
use crate::numtext::{
    all_digits, digit_char, digits_val, int_of_num_text, is_digit, is_digit_char, is_num_char,
    is_num_char_exec, lemma_digit_char_value, lemma_num_prefix_chars, lemma_skip_index,
    lemma_skip_points, lemma_skip_skip, lemma_valid_number_chars, num_prefix, valid_number,
    valid_number_exec,
};

verus! {

/// The mathematical shape of a JSON document. Numbers are their literal
/// text; strings are their character sequences; objects are ordered member
/// lists.
#[verifier::ext_equal]
pub enum JVal {
    Null,
    Bool(bool),
    Num(Seq<char>),
    Str(Seq<char>),
    Arr(Seq<JVal>),
    Obj(Seq<(Seq<char>, JVal)>),
}

/// Every number literal in the document is valid.
pub open spec fn wf_jval(j: JVal) -> bool
    decreases j, 1int,
{
    match j {
        JVal::Null => true,
        JVal::Bool(_) => true,
        JVal::Num(t) => valid_number(t),
        JVal::Str(_) => true,
        JVal::Arr(es) => wf_jvals(es, 0),
        JVal::Obj(ms) => wf_jmembers(ms, 0),
    }
}

/// Every element of `es` from index `i` on is well formed.
pub open spec fn wf_jvals(es: Seq<JVal>, i: int) -> bool
    decreases es, es.len() - i, 0int,
{
    if i < 0 || i >= es.len() {
        true
    } else {
        wf_jval(es[i]) && wf_jvals(es, i + 1)
    }
}

/// Every member value of `ms` from index `i` on is well formed.
pub open spec fn wf_jmembers(ms: Seq<(Seq<char>, JVal)>, i: int) -> bool
    decreases ms, ms.len() - i, 0int,
{
    if i < 0 || i >= ms.len() {
        true
    } else {
        wf_jval(ms[i].1) && wf_jmembers(ms, i + 1)
    }
}

pub proof fn lemma_wf_jvals_at(es: Seq<JVal>, i: int, k: int)
    requires
        wf_jvals(es, i),
        0 <= i <= k < es.len(),
    ensures
        wf_jval(es[k]),
    decreases k - i,
{
    if k > i {
        lemma_wf_jvals_at(es, i + 1, k);
    }
}

pub proof fn lemma_wf_jmembers_at(ms: Seq<(Seq<char>, JVal)>, i: int, k: int)
    requires
        wf_jmembers(ms, i),
        0 <= i <= k < ms.len(),
    ensures
        wf_jval(ms[k].1),
    decreases k - i,
{
    if k > i {
        lemma_wf_jmembers_at(ms, i + 1, k);
    }
}

/// The first member of `ms` at index `i` or later named `k`, if any.
pub open spec fn jobj_get_from(ms: Seq<(Seq<char>, JVal)>, k: Seq<char>, i: int) -> Option<JVal>
    decreases ms.len() - i,
{
    if i < 0 || i >= ms.len() {
        None
    } else if ms[i].0 == k {
        Some(ms[i].1)
    } else {
        jobj_get_from(ms, k, i + 1)
    }
}

/// The first member of `ms` named `k`, if any.
pub open spec fn jobj_get(ms: Seq<(Seq<char>, JVal)>, k: Seq<char>) -> Option<JVal> {
    jobj_get_from(ms, k, 0)
}

// --- canonical rendering ---

pub open spec fn hex_digit(d: int) -> char {
    if d < 10 {
        digit_char(d)
    } else if d == 10 {
        'a'
    } else if d == 11 {
        'b'
    } else if d == 12 {
        'c'
    } else if d == 13 {
        'd'
    } else if d == 14 {
        'e'
    } else {
        'f'
    }
}

/// How one character appears inside a rendered string literal.
pub open spec fn esc_char(c: char) -> Seq<char> {
    if c == '"' {
        seq!['\\', '"']
    } else if c == '\\' {
        seq!['\\', '\\']
    } else if (c as u32) < 32 {
        seq!['\\', 'u', '0', '0', hex_digit(c as u32 as int / 16), hex_digit(c as u32 as int % 16)]
    } else {
        seq![c]
    }
}

/// The body of a rendered string literal.
pub open spec fn esc_str(s: Seq<char>) -> Seq<char>
    decreases s.len(),
{
    if s.len() == 0 {
        Seq::empty()
    } else {
        esc_char(s[0]) + esc_str(s.skip(1))
    }
}

/// The canonical text of a JSON value: no whitespace, strings escaped as
/// `esc_char` says, numbers verbatim.
pub open spec fn render_jval(j: JVal) -> Seq<char>
    decreases j, 1int,
{
    match j {
        JVal::Null => seq!['n', 'u', 'l', 'l'],
        JVal::Bool(b) => if b {
            seq!['t', 'r', 'u', 'e']
        } else {
            seq!['f', 'a', 'l', 's', 'e']
        },
        JVal::Num(t) => t,
        JVal::Str(s) => seq!['"'] + esc_str(s) + seq!['"'],
        JVal::Arr(es) => seq!['['] + render_arr_body(es, 0),
        JVal::Obj(ms) => seq!['{'] + render_obj_body(ms, 0),
    }
}

/// The rendered elements of an array from index `i` on, with the separator
/// that precedes each element after the first, and the closing bracket.
pub open spec fn render_arr_body(es: Seq<JVal>, i: int) -> Seq<char>
    decreases es, es.len() - i, 0int,
{
    if i < 0 || i >= es.len() {
        seq![']']
    } else if i == 0 {
        render_jval(es[0]) + render_arr_body(es, 1)
    } else {
        seq![','] + render_jval(es[i]) + render_arr_body(es, i + 1)
    }
}

/// One rendered object member.
pub open spec fn render_member(m: (Seq<char>, JVal)) -> Seq<char>
    decreases m, 2int,
{
    seq!['"'] + esc_str(m.0) + seq!['"', ':'] + render_jval(m.1)
}

/// The rendered members of an object from index `i` on, and the closing
/// brace.
pub open spec fn render_obj_body(ms: Seq<(Seq<char>, JVal)>, i: int) -> Seq<char>
    decreases ms, ms.len() - i, 3int,
{
    if i < 0 || i >= ms.len() {
        seq!['}']
    } else if i == 0 {
        render_member(ms[0]) + render_obj_body(ms, 1)
    } else {
        seq![','] + render_member(ms[i]) + render_obj_body(ms, i + 1)
    }
}

// --- parsing ---

pub open spec fn is_ws(c: char) -> bool {
    c == ' ' || c == '\t' || c == '\n' || c == '\r'
}

pub open spec fn is_hex_char(c: char) -> bool {
    is_digit_char(c) || ('a' as u32 <= c as u32 && c as u32 <= 'f' as u32) || ('A' as u32
        <= c as u32 && c as u32 <= 'F' as u32)
}

pub open spec fn hex_value(c: char) -> int {
    if is_digit_char(c) {
        c as u32 - 48
    } else if 'a' as u32 <= c as u32 && c as u32 <= 'f' as u32 {
        c as u32 - 'a' as u32 + 10
    } else {
        c as u32 - 'A' as u32 + 10
    }
}

/// The rest of a string literal after its opening quote: the decoded
/// content and the count of characters consumed, closing quote included.
pub open spec fn parse_str_rest(s: Seq<char>) -> Option<(Seq<char>, int)>
    decreases s.len(),
{
    if s.len() == 0 {
        None
    } else if s[0] == '"' {
        Some((Seq::empty(), 1))
    } else if s[0] == '\\' {
        if s.len() < 2 {
            None
        } else {
            let e = s[1];
            if e == 'u' {
                if s.len() >= 6 && s[2] == '0' && s[3] == '0' && is_hex_char(s[4]) && is_hex_char(
                    s[5],
                ) {
                    let c = ((hex_value(s[4]) * 16 + hex_value(s[5])) as u8) as char;
                    match parse_str_rest(s.skip(6)) {
                        Some((tail, n)) => Some((seq![c] + tail, 6 + n)),
                        None => None,
                    }
                } else {
                    None
                }
            } else {
                let c = if e == '"' {
                    '"'
                } else if e == '\\' {
                    '\\'
                } else if e == '/' {
                    '/'
                } else if e == 'b' {
                    8u8 as char
                } else if e == 'f' {
                    12u8 as char
                } else if e == 'n' {
                    '\n'
                } else if e == 'r' {
                    '\r'
                } else {
                    '\t'
                };
                if e == '"' || e == '\\' || e == '/' || e == 'b' || e == 'f' || e == 'n' || e == 'r'
                    || e == 't' {
                    match parse_str_rest(s.skip(2)) {
                        Some((tail, n)) => Some((seq![c] + tail, 2 + n)),
                        None => None,
                    }
                } else {
                    None
                }
            }
        }
    } else if (s[0] as u32) < 32 {
        None
    } else {
        match parse_str_rest(s.skip(1)) {
            Some((tail, n)) => Some((seq![s[0]] + tail, 1 + n)),
            None => None,
        }
    }
}

/// A JSON value read from the front of `s`, with the count of characters
/// consumed. Leading whitespace is accepted and counted.
pub open spec fn parse_jval(s: Seq<char>) -> Option<(JVal, int)>
    decreases s.len(), 0int,
{
    if s.len() == 0 {
        None
    } else if is_ws(s[0]) {
        match parse_jval(s.skip(1)) {
            Some((j, n)) => Some((j, 1 + n)),
            None => None,
        }
    } else if s[0] == 'n' {
        if s.len() >= 4 && s[1] == 'u' && s[2] == 'l' && s[3] == 'l' {
            Some((JVal::Null, 4))
        } else {
            None
        }
    } else if s[0] == 't' {
        if s.len() >= 4 && s[1] == 'r' && s[2] == 'u' && s[3] == 'e' {
            Some((JVal::Bool(true), 4))
        } else {
            None
        }
    } else if s[0] == 'f' {
        if s.len() >= 5 && s[1] == 'a' && s[2] == 'l' && s[3] == 's' && s[4] == 'e' {
            Some((JVal::Bool(false), 5))
        } else {
            None
        }
    } else if s[0] == '"' {
        match parse_str_rest(s.skip(1)) {
            Some((content, n)) => Some((JVal::Str(content), 1 + n)),
            None => None,
        }
    } else if s[0] == '[' {
        match parse_arr(s.skip(1)) {
            Some((es, n)) => Some((JVal::Arr(es), 1 + n)),
            None => None,
        }
    } else if s[0] == '{' {
        match parse_obj(s.skip(1)) {
            Some((ms, n)) => Some((JVal::Obj(ms), 1 + n)),
            None => None,
        }
    } else if s[0] == '-' || is_digit_char(s[0]) {
        let t = num_prefix(s);
        if valid_number(t) {
            Some((JVal::Num(t), t.len() as int))
        } else {
            None
        }
    } else {
        None
    }
}

/// Array elements after the opening bracket: the element list and the
/// count of characters consumed, closing bracket included.
pub open spec fn parse_arr(s: Seq<char>) -> Option<(Seq<JVal>, int)>
    decreases s.len(), 1int,
{
    if s.len() == 0 {
        None
    } else if is_ws(s[0]) {
        match parse_arr(s.skip(1)) {
            Some((es, n)) => Some((es, 1 + n)),
            None => None,
        }
    } else if s[0] == ']' {
        Some((Seq::empty(), 1))
    } else {
        match parse_jval(s) {
            Some((j, n)) => if 1 <= n <= s.len() {
                match parse_arr_tail(s.skip(n)) {
                    Some((es, m)) => Some((seq![j] + es, n + m)),
                    None => None,
                }
            } else {
                None
            },
            None => None,
        }
    }
}

/// After an array element: either the closing bracket, or a comma and the
/// elements that follow.
pub open spec fn parse_arr_tail(s: Seq<char>) -> Option<(Seq<JVal>, int)>
    decreases s.len(), 2int,
{
    if s.len() == 0 {
        None
    } else if is_ws(s[0]) {
        match parse_arr_tail(s.skip(1)) {
            Some((es, n)) => Some((es, 1 + n)),
            None => None,
        }
    } else if s[0] == ']' {
        Some((Seq::empty(), 1))
    } else if s[0] == ',' {
        match parse_jval(s.skip(1)) {
            Some((j, n)) => if 1 <= n <= s.len() - 1 {
                match parse_arr_tail(s.skip(1 + n)) {
                    Some((es, m)) => Some((seq![j] + es, 1 + n + m)),
                    None => None,
                }
            } else {
                None
            },
            None => None,
        }
    } else {
        None
    }
}

/// One object member: its key, its value, and the count of characters
/// consumed, from the opening quote of the key to the end of the value.
pub open spec fn parse_member(s: Seq<char>) -> Option<((Seq<char>, JVal), int)>
    decreases s.len(), 1int,
{
    if s.len() == 0 {
        None
    } else if is_ws(s[0]) {
        match parse_member(s.skip(1)) {
            Some((m, n)) => Some((m, 1 + n)),
            None => None,
        }
    } else if s[0] == '"' {
        match parse_str_rest(s.skip(1)) {
            Some((key, n)) => if 1 <= n <= s.len() - 1 {
                match parse_colon_value(s.skip(1 + n)) {
                    Some((j, m)) => Some(((key, j), 1 + n + m)),
                    None => None,
                }
            } else {
                None
            },
            None => None,
        }
    } else {
        None
    }
}

/// A colon and the value after it.
pub open spec fn parse_colon_value(s: Seq<char>) -> Option<(JVal, int)>
    decreases s.len(), 1int,
{
    if s.len() == 0 {
        None
    } else if is_ws(s[0]) {
        match parse_colon_value(s.skip(1)) {
            Some((j, n)) => Some((j, 1 + n)),
            None => None,
        }
    } else if s[0] == ':' {
        match parse_jval(s.skip(1)) {
            Some((j, n)) => Some((j, 1 + n)),
            None => None,
        }
    } else {
        None
    }
}

/// Object members after the opening brace: the member list and the count
/// of characters consumed, closing brace included.
pub open spec fn parse_obj(s: Seq<char>) -> Option<(Seq<(Seq<char>, JVal)>, int)>
    decreases s.len(), 2int,
{
    if s.len() == 0 {
        None
    } else if is_ws(s[0]) {
        match parse_obj(s.skip(1)) {
            Some((ms, n)) => Some((ms, 1 + n)),
            None => None,
        }
    } else if s[0] == '}' {
        Some((Seq::empty(), 1))
    } else {
        match parse_member(s) {
            Some((m, n)) => if 1 <= n <= s.len() {
                match parse_obj_tail(s.skip(n)) {
                    Some((ms, k)) => Some((seq![m] + ms, n + k)),
                    None => None,
                }
            } else {
                None
            },
            None => None,
        }
    }
}

/// After an object member: either the closing brace, or a comma and the
/// members that follow.
pub open spec fn parse_obj_tail(s: Seq<char>) -> Option<(Seq<(Seq<char>, JVal)>, int)>
    decreases s.len(), 3int,
{
    if s.len() == 0 {
        None
    } else if is_ws(s[0]) {
        match parse_obj_tail(s.skip(1)) {
            Some((ms, n)) => Some((ms, 1 + n)),
            None => None,
        }
    } else if s[0] == '}' {
        Some((Seq::empty(), 1))
    } else if s[0] == ',' {
        match parse_member(s.skip(1)) {
            Some((m, n)) => if 1 <= n <= s.len() - 1 {
                match parse_obj_tail(s.skip(1 + n)) {
                    Some((ms, k)) => Some((seq![m] + ms, 1 + n + k)),
                    None => None,
                }
            } else {
                None
            },
            None => None,
        }
    } else {
        None
    }
}

// --- parsing a rendering yields the value back ---

proof fn lemma_hex_digit_value(d: int)
    requires
        0 <= d < 16,
    ensures
        is_hex_char(hex_digit(d)),
        hex_value(hex_digit(d)) == d,
{
    if d < 10 {
        lemma_digit_char_value(d);
    }
}

/// The first character of any rendering: never whitespace and never a
/// closing or separating character, so a parser at a value boundary always
/// enters the value.
proof fn lemma_render_first(j: JVal)
    requires
        wf_jval(j),
    ensures
        render_jval(j).len() >= 1,
        !is_ws(render_jval(j)[0]),
        render_jval(j)[0] != ']',
        render_jval(j)[0] != '}',
        render_jval(j)[0] != ',',
        render_jval(j)[0] != ':',
{
    match j {
        JVal::Num(t) => {
            lemma_valid_number_chars(t);
        },
        _ => {},
    }
}

/// Reading an escaped string body gives the original content back and
/// stops right after the closing quote.
proof fn lemma_parse_esc(content: Seq<char>, rest: Seq<char>)
    ensures
        parse_str_rest(esc_str(content) + (seq!['"'] + rest)) == Some(
            (content, esc_str(content).len() as int + 1),
        ),
    decreases content.len(),
{
    broadcast use vstd::utf8::char_u32_cast;

    let s = esc_str(content) + (seq!['"'] + rest);
    if content.len() == 0 {
        assert(esc_str(content) =~= Seq::<char>::empty());
        assert(s =~= seq!['"'] + rest);
        assert(s[0] == '"');
    } else {
        let c = content[0];
        let e = esc_char(c);
        let tail = esc_str(content.skip(1)) + (seq!['"'] + rest);
        assert(esc_str(content) == e + esc_str(content.skip(1)));
        assert(s =~= e + tail);
        lemma_parse_esc(content.skip(1), rest);
        assert(seq![c] + content.skip(1) =~= content);
        if c == '"' {
            assert(s[0] == '\\' && s[1] == '"');
            assert(s.skip(2) =~= tail);
        } else if c == '\\' {
            assert(s[0] == '\\' && s[1] == '\\');
            assert(s.skip(2) =~= tail);
        } else if (c as u32) < 32 {
            let hi = c as u32 as int / 16;
            let lo = c as u32 as int % 16;
            lemma_hex_digit_value(hi);
            lemma_hex_digit_value(lo);
            assert(s[0] == '\\' && s[1] == 'u' && s[2] == '0' && s[3] == '0');
            assert(s[4] == hex_digit(hi) && s[5] == hex_digit(lo));
            assert(s.len() >= 6 + 1);
            assert(s.skip(6) =~= tail);
            let code = hex_value(s[4]) * 16 + hex_value(s[5]);
            assert(code == c as u32 as int);
            let y: u8 = code as u8;
            assert(y as char == c) by {
                vstd::utf8::char_u32_cast(c, c as u32);
                assert(y as u32 == c as u32);
            }
            assert((code as u8) as char == c);
            assert(parse_str_rest(s) == Some((seq![c] + content.skip(1), 6 + esc_str(
                content.skip(1),
            ).len() as int + 1)));
            assert(esc_str(content).len() == 6 + esc_str(content.skip(1)).len());
        } else {
            assert(e =~= seq![c]);
            assert(s[0] == c);
            assert(s[0] != '"' && s[0] != '\\' && (s[0] as u32) >= 32);
            assert(s.skip(1) =~= tail);
        }
    }
}

/// Parsing the rendering of a well-formed value, followed by anything that
/// does not extend a trailing number literal, yields the value and
/// consumes exactly the rendering.
pub proof fn lemma_parse_render(j: JVal, rest: Seq<char>)
    requires
        wf_jval(j),
        rest.len() == 0 || !is_num_char(rest[0]),
    ensures
        parse_jval(render_jval(j) + rest) == Some((j, render_jval(j).len() as int)),
    decreases j, 0int, 1int,
{
    let r = render_jval(j);
    let s = r + rest;
    lemma_render_first(j);
    match j {
        JVal::Null => {
            assert(s[0] == 'n' && s[1] == 'u' && s[2] == 'l' && s[3] == 'l');
        },
        JVal::Bool(b) => {
            if b {
                assert(s[0] == 't' && s[1] == 'r' && s[2] == 'u' && s[3] == 'e');
            } else {
                assert(s[0] == 'f' && s[1] == 'a' && s[2] == 'l' && s[3] == 's' && s[4] == 'e');
            }
        },
        JVal::Num(t) => {
            lemma_valid_number_chars(t);
            assert(s[0] == t[0]);
            assert forall|i: int| 0 <= i < t.len() implies is_num_char(#[trigger] s[i]) by {
                assert(s[i] == t[i]);
            }
            if rest.len() > 0 {
                assert(s[t.len() as int] == rest[0]);
            }
            lemma_num_prefix_chars(s, t.len() as int);
            assert(s.subrange(0, t.len() as int) =~= t);
            assert(num_prefix(s) == t);
        },
        JVal::Str(sc) => {
            assert(s[0] == '"');
            lemma_parse_esc(sc, rest);
            assert(s.skip(1) =~= esc_str(sc) + (seq!['"'] + rest));
            assert(r.len() == 1 + esc_str(sc).len() + 1);
        },
        JVal::Arr(es) => {
            assert(s[0] == '[');
            lemma_parse_arr_body(es, 0, rest);
            assert(s.skip(1) =~= render_arr_body(es, 0) + rest);
            assert(r.len() == 1 + render_arr_body(es, 0).len());
        },
        JVal::Obj(ms) => {
            assert(s[0] == '{');
            lemma_parse_obj_body(ms, 0, rest);
            assert(s.skip(1) =~= render_obj_body(ms, 0) + rest);
            assert(r.len() == 1 + render_obj_body(ms, 0).len());
        },
    }
}

/// As `lemma_parse_render`, for the members of an array from index `i` on.
#[verifier::rlimit(100)]
proof fn lemma_parse_arr_body(es: Seq<JVal>, i: int, rest: Seq<char>)
    requires
        wf_jval(JVal::Arr(es)),
        0 <= i <= es.len(),
        rest.len() == 0 || !is_num_char(rest[0]),
    ensures
        i == 0 ==> parse_arr(render_arr_body(es, 0) + rest) == Some(
            (es, render_arr_body(es, 0).len() as int),
        ),
        i >= 1 ==> parse_arr_tail(render_arr_body(es, i) + rest) == Some(
            (es.skip(i), render_arr_body(es, i).len() as int),
        ),
    decreases es, es.len() - i, 0int,
{
    let body = render_arr_body(es, i);
    let s = body + rest;
    if i >= es.len() {
        assert(body == seq![']']);
        assert(s[0] == ']');
        if i >= 1 {
            assert(es.skip(i) =~= Seq::<JVal>::empty());
        } else {
            assert(es =~= Seq::<JVal>::empty());
        }
    } else if i == 0 {
        let e0 = es[0];
        let r0 = render_jval(e0);
        let after = render_arr_body(es, 1) + rest;
        assert(wf_jval(e0)) by {
            lemma_wf_jvals_at(es, 0, 0);
        }
        lemma_render_first(e0);
        assert(body == r0 + render_arr_body(es, 1));
        assert(s =~= r0 + after);
        assert(after[0] == ',' || after[0] == ']');
        lemma_parse_render(e0, after);
        let n0 = r0.len() as int;
        assert(s[0] == r0[0]);
        assert(!is_ws(s[0]) && s[0] != ']');
        assert(parse_jval(s) == Some((e0, n0)));
        assert(1 <= n0 <= s.len());
        assert(s.skip(n0) =~= after);
        lemma_parse_arr_body(es, 1, rest);
        if es.len() == 1 {
            assert(parse_arr_tail(after) == Some(
                (es.skip(1), render_arr_body(es, 1).len() as int),
            ));
        }
        assert(parse_arr_tail(after) == Some((es.skip(1), render_arr_body(es, 1).len() as int)));
        assert(seq![e0] + es.skip(1) =~= es);
        assert(body.len() == n0 + render_arr_body(es, 1).len());
    } else {
        let ei = es[i];
        let ri = render_jval(ei);
        let after = render_arr_body(es, i + 1) + rest;
        assert(wf_jval(ei)) by {
            lemma_wf_jvals_at(es, 0, i);
        }
        lemma_render_first(ei);
        assert(body == seq![','] + ri + render_arr_body(es, i + 1));
        assert(s =~= seq![','] + (ri + after));
        assert(s[0] == ',');
        assert(s.skip(1) =~= ri + after);
        assert(after[0] == ',' || after[0] == ']');
        lemma_parse_render(ei, after);
        let n = ri.len() as int;
        assert(parse_jval(s.skip(1)) == Some((ei, n)));
        assert(1 <= n <= s.len() - 1);
        assert(s.skip(1 + n) =~= after) by {
            lemma_skip_skip(s, 1, n);
            assert(s.skip(1).skip(n) =~= (ri + after).skip(n));
            assert((ri + after).skip(n) =~= after);
        }
        lemma_parse_arr_body(es, i + 1, rest);
        assert(parse_arr_tail(after) == Some(
            (es.skip(i + 1), render_arr_body(es, i + 1).len() as int),
        ));
        assert(seq![ei] + es.skip(i + 1) =~= es.skip(i));
        assert(body.len() == 1 + n + render_arr_body(es, i + 1).len());
    }
}

/// As `lemma_parse_render`, for one object member followed by `after`.
proof fn lemma_parse_member_text(m: (Seq<char>, JVal), after: Seq<char>)
    requires
        wf_jval(m.1),
        after.len() == 0 || !is_num_char(after[0]),
    ensures
        parse_member(render_member(m) + after) == Some((m, render_member(m).len() as int)),
    decreases m, 0int, 2int,
{
    let rm = render_member(m);
    let s = rm + after;
    let k = m.0;
    let v = m.1;
    let rv = render_jval(v);
    let colon_text = seq![':'] + (rv + after);
    assert(rm == seq!['"'] + esc_str(k) + seq!['"', ':'] + render_jval(v));
    assert(s[0] == '"');
    assert(s.skip(1) =~= esc_str(k) + (seq!['"'] + (colon_text)));
    lemma_parse_esc(k, colon_text);
    let n: int = esc_str(k).len() as int + 1;
    assert(parse_str_rest(s.skip(1)) == Some((k, n)));
    assert(1 <= n <= s.len() - 1);
    assert(s.skip(1 + n) =~= colon_text) by {
        lemma_skip_skip(s, 1, n);
        assert(s.skip(1).skip(n) =~= colon_text);
    }
    lemma_parse_render(v, after);
    assert(colon_text[0] == ':');
    assert(colon_text.skip(1) =~= rv + after);
    assert(parse_colon_value(colon_text) == Some((v, 1 + rv.len() as int)));
    assert(rm.len() == 1 + n + 1 + rv.len());
}

/// As `lemma_parse_render`, for the members of an object from index `i`
/// on.
#[verifier::rlimit(100)]
proof fn lemma_parse_obj_body(ms: Seq<(Seq<char>, JVal)>, i: int, rest: Seq<char>)
    requires
        wf_jval(JVal::Obj(ms)),
        0 <= i <= ms.len(),
        rest.len() == 0 || !is_num_char(rest[0]),
    ensures
        i == 0 ==> parse_obj(render_obj_body(ms, 0) + rest) == Some(
            (ms, render_obj_body(ms, 0).len() as int),
        ),
        i >= 1 ==> parse_obj_tail(render_obj_body(ms, i) + rest) == Some(
            (ms.skip(i), render_obj_body(ms, i).len() as int),
        ),
    decreases ms, ms.len() - i, 1int,
{
    let body = render_obj_body(ms, i);
    let s = body + rest;
    if i >= ms.len() {
        assert(body == seq!['}']);
        assert(s[0] == '}');
        if i >= 1 {
            assert(ms.skip(i) =~= Seq::<(Seq<char>, JVal)>::empty());
        } else {
            assert(ms =~= Seq::<(Seq<char>, JVal)>::empty());
        }
    } else if i == 0 {
        let m0 = ms[0];
        let r0 = render_member(m0);
        let after = render_obj_body(ms, 1) + rest;
        assert(wf_jval(m0.1)) by {
            lemma_wf_jmembers_at(ms, 0, 0);
        }
        assert(body == r0 + render_obj_body(ms, 1));
        assert(s =~= r0 + after);
        assert(after[0] == ',' || after[0] == '}');
        lemma_parse_member_text(m0, after);
        let n0 = r0.len() as int;
        assert(s[0] == '"');
        assert(parse_member(s) == Some((m0, n0)));
        assert(1 <= n0 <= s.len());
        assert(s.skip(n0) =~= after);
        lemma_parse_obj_body(ms, 1, rest);
        assert(parse_obj_tail(after) == Some((ms.skip(1), render_obj_body(ms, 1).len() as int)));
        assert(seq![m0] + ms.skip(1) =~= ms);
        assert(body.len() == n0 + render_obj_body(ms, 1).len());
    } else {
        let mi = ms[i];
        let ri = render_member(mi);
        let after = render_obj_body(ms, i + 1) + rest;
        assert(wf_jval(mi.1)) by {
            lemma_wf_jmembers_at(ms, 0, i);
        }
        assert(body == seq![','] + ri + render_obj_body(ms, i + 1));
        assert(s =~= seq![','] + (ri + after));
        assert(s[0] == ',');
        assert(s.skip(1) =~= ri + after);
        assert(after[0] == ',' || after[0] == '}');
        lemma_parse_member_text(mi, after);
        let n = ri.len() as int;
        assert(parse_member(s.skip(1)) == Some((mi, n)));
        assert(1 <= n <= s.len() - 1);
        assert(s.skip(1 + n) =~= after) by {
            lemma_skip_skip(s, 1, n);
            assert(s.skip(1).skip(n) =~= (ri + after).skip(n));
            assert((ri + after).skip(n) =~= after);
        }
        lemma_parse_obj_body(ms, i + 1, rest);
        assert(parse_obj_tail(after) == Some(
            (ms.skip(i + 1), render_obj_body(ms, i + 1).len() as int),
        ));
        assert(seq![mi] + ms.skip(i + 1) =~= ms.skip(i));
        assert(body.len() == 1 + n + render_obj_body(ms, i + 1).len());
    }
}

/// Rendering a well-formed value and parsing the text back yields the
/// value, exactly.
pub proof fn lemma_document_round_trip(j: JVal)
    requires
        wf_jval(j),
    ensures
        parse_document(render_jval(j)) == Some(j),
{
    lemma_parse_render(j, Seq::empty());
    let r = render_jval(j);
    assert(r + Seq::<char>::empty() =~= r);
    assert(r.skip(r.len() as int) =~= Seq::<char>::empty());
}

/// Nothing but whitespace.
pub open spec fn all_ws(s: Seq<char>) -> bool {
    forall|i: int| 0 <= i < s.len() ==> is_ws(#[trigger] s[i])
}

/// A whole JSON document: one value, with only whitespace after it.
pub open spec fn parse_document(s: Seq<char>) -> Option<JVal> {
    match parse_jval(s) {
        Some((j, n)) => if 0 <= n <= s.len() && all_ws(s.skip(n)) {
            Some(j)
        } else {
            None
        },
        None => None,
    }
}

// --- executable values ---

/// A JSON number, kept as its literal text.
#[derive(Clone, Debug, PartialEq, Eq)]
pub struct JsonNumber {
    pub text: String,
}

/// A JSON value as executable data. Its view is a `JVal`.
#[derive(Debug, PartialEq, Eq)]
pub enum JsonValue {
    Null,
    Bool(bool),
    Num(JsonNumber),
    Str(String),
    Arr(Vec<JsonValue>),
    Obj(Vec<(String, JsonValue)>),
}

/// The shape of an executable value.
pub open spec fn jval_view(v: JsonValue) -> JVal
    decreases v, 1int,
{
    match v {
        JsonValue::Null => JVal::Null,
        JsonValue::Bool(b) => JVal::Bool(b),
        JsonValue::Num(n) => JVal::Num(n.text@),
        JsonValue::Str(s) => JVal::Str(s@),
        JsonValue::Arr(es) => JVal::Arr(elems_jv(es, 0)),
        JsonValue::Obj(ms) => JVal::Obj(members_jv(ms, 0)),
    }
}

/// The shapes of the elements of `es` from index `i` on.
pub open spec fn elems_jv(es: Vec<JsonValue>, i: int) -> Seq<JVal>
    decreases es, es.len() - i, 0int,
{
    if i < 0 || i >= es.len() {
        Seq::empty()
    } else {
        seq![jval_view(es[i])] + elems_jv(es, i + 1)
    }
}

/// The shapes of the members of `ms` from index `i` on.
pub open spec fn members_jv(ms: Vec<(String, JsonValue)>, i: int) -> Seq<(Seq<char>, JVal)>
    decreases ms, ms.len() - i, 0int,
{
    if i < 0 || i >= ms.len() {
        Seq::empty()
    } else {
        seq![(ms[i].0@, jval_view(ms[i].1))] + members_jv(ms, i + 1)
    }
}

impl View for JsonValue {
    type V = JVal;

    open spec fn view(&self) -> JVal {
        jval_view(*self)
    }
}

pub proof fn lemma_elems_jv(es: Vec<JsonValue>, i: int)
    requires
        0 <= i <= es.len(),
    ensures
        elems_jv(es, i).len() == es.len() - i,
        forall|k: int|
            0 <= k < es.len() - i ==> #[trigger] elems_jv(es, i)[k] == jval_view(es[i + k]),
    decreases es.len() - i,
{
    if i < es.len() {
        lemma_elems_jv(es, i + 1);
    }
}

pub proof fn lemma_members_jv(ms: Vec<(String, JsonValue)>, i: int)
    requires
        0 <= i <= ms.len(),
    ensures
        members_jv(ms, i).len() == ms.len() - i,
        forall|k: int|
            0 <= k < ms.len() - i ==> #[trigger] members_jv(ms, i)[k] == (
            ms[i + k].0@,
            jval_view(ms[i + k].1),
            ),
    decreases ms.len() - i,
{
    if i < ms.len() {
        lemma_members_jv(ms, i + 1);
    }
}

// --- moving between strings and character vectors ---

/// Relies on str::chars (through Iterator::collect): the iterator yields
/// the string's characters in order.
#[verifier::external_body]
pub(crate) fn chars_of(s: &str) -> (r: Vec<char>)
    ensures
        r@ == s@,
{
    s.chars().collect()
}

/// Relies on String::from_iter over characters (through
/// Iterator::collect): the string is made of exactly those characters in
/// order.
#[verifier::external_body]
pub(crate) fn string_from_chars(v: &Vec<char>) -> (r: String)
    ensures
        r@ == v@,
{
    v.iter().copied().collect()
}

impl JsonNumber {
    /// Whether the held text is a valid JSON number literal.
    pub open spec fn wf(&self) -> bool {
        valid_number(self.text@)
    }

    /// Accepts `text` as a number when it is a valid JSON number literal.
    pub fn new(text: String) -> (r: Option<JsonNumber>)
        ensures
            valid_number(text@) ==> (r matches Some(n) && n.text@ == text@),
            !valid_number(text@) ==> r is None,
    {
        let cs = chars_of(text.as_str());
        proof {
            assert(cs@.skip(0) =~= cs@);
        }
        if valid_number_exec(&cs, 0) {
            Some(JsonNumber { text })
        } else {
            None
        }
    }

    /// The number written by `i`.
    pub fn from_i64(i: i64) -> (r: JsonNumber)
        ensures
            r.text@ == crate::numtext::render_int(i as int),
            r.wf(),
    {
        let digits = crate::numtext::i64_to_chars(i);
        proof {
            crate::numtext::lemma_render_int_valid(i as int);
        }
        JsonNumber { text: string_from_chars(&digits) }
    }

    /// The value of the number when it is a plain integer in `i64` range,
    /// as serde-style readers report it.
    pub fn as_i64(&self) -> (r: Option<i64>)
        ensures
            match crate::numtext::i64_of_num_text(self.text@) {
                Some(x) => r matches Some(y) && y as int == x,
                None => r is None,
            },
    {
        let cs = chars_of(self.text.as_str());
        crate::numtext::num_text_to_i64(&cs)
    }
}

// --- executable rendering ---

/// Appends all of `v` to `out`.
fn push_all(out: &mut Vec<char>, v: &Vec<char>)
    ensures
        final(out)@ == old(out)@ + v@,
{
    let mut j: usize = 0;
    while j < v.len()
        invariant
            j <= v.len(),
            out@ == old(out)@ + v@.subrange(0, j as int),
        decreases v.len() - j,
    {
        let ghost before = out@;
        out.push(v[j]);
        proof {
            assert(old(out)@ + v@.subrange(0, j + 1 as int) =~= before.push(v@[j as int]));
        }
        j = j + 1;
    }
    proof {
        assert(v@.subrange(0, v.len() as int) =~= v@);
    }
}

fn hex_char(d: u8) -> (c: char)
    requires
        d < 16,
    ensures
        c == hex_digit(d as int),
{
    match d {
        0 => '0',
        1 => '1',
        2 => '2',
        3 => '3',
        4 => '4',
        5 => '5',
        6 => '6',
        7 => '7',
        8 => '8',
        9 => '9',
        10 => 'a',
        11 => 'b',
        12 => 'c',
        13 => 'd',
        14 => 'e',
        _ => 'f',
    }
}

/// Appends the escaped form of `cs[i..]` to `out`.
fn render_str_body(cs: &Vec<char>, i: usize, out: &mut Vec<char>)
    requires
        i <= cs.len(),
    ensures
        final(out)@ == old(out)@ + esc_str(cs@.skip(i as int)),
    decreases cs.len() - i,
{
    if i == cs.len() {
        proof {
            assert(esc_str(cs@.skip(i as int)) =~= Seq::<char>::empty());
            assert(out@ + esc_str(cs@.skip(i as int)) =~= out@);
        }
        return ;
    }
    let c = cs[i];
    let ghost mid0 = out@;
    if c == '"' {
        out.push('\\');
        out.push('"');
    } else if c == '\\' {
        out.push('\\');
        out.push('\\');
    } else if (c as u32) < 32 {
        let u = c as u32;
        out.push('\\');
        out.push('u');
        out.push('0');
        out.push('0');
        out.push(hex_char((u / 16) as u8));
        out.push(hex_char((u % 16) as u8));
    } else {
        out.push(c);
    }
    proof {
        assert(cs@.skip(i as int)[0] == cs@[i as int]);
        assert(out@ =~= mid0 + esc_char(c));
        lemma_skip_skip(cs@, i as int, 1);
    }
    let ghost mid1 = out@;
    render_str_body(cs, i + 1, out);
    proof {
        assert(esc_str(cs@.skip(i as int)) == esc_char(c) + esc_str(cs@.skip(i + 1 as int)));
        assert((mid0 + esc_char(c)) + esc_str(cs@.skip(i + 1 as int)) =~= mid0 + (esc_char(c)
            + esc_str(cs@.skip(i + 1 as int))));
    }
}

/// Appends the canonical text of `v` to `out`.
pub fn render_value(v: &JsonValue, out: &mut Vec<char>)
    ensures
        final(out)@ == old(out)@ + render_jval(v@),
    decreases *v, 1int,
{
    match v {
        JsonValue::Null => {
            out.push('n');
            out.push('u');
            out.push('l');
            out.push('l');
            proof {
                assert(out@ =~= old(out)@ + render_jval(v@));
            }
        },
        JsonValue::Bool(b) => {
            if *b {
                out.push('t');
                out.push('r');
                out.push('u');
                out.push('e');
            } else {
                out.push('f');
                out.push('a');
                out.push('l');
                out.push('s');
                out.push('e');
            }
            proof {
                assert(out@ =~= old(out)@ + render_jval(v@));
            }
        },
        JsonValue::Num(n) => {
            let cs = chars_of(n.text.as_str());
            push_all(out, &cs);
        },
        JsonValue::Str(s) => {
            out.push('"');
            let cs = chars_of(s.as_str());
            let ghost mid = out@;
            render_str_body(&cs, 0, out);
            proof {
                assert(cs@.skip(0) =~= cs@);
            }
            out.push('"');
            proof {
                assert(out@ =~= old(out)@ + (seq!['"'] + esc_str(s@) + seq!['"']));
            }
        },
        JsonValue::Arr(es) => {
            out.push('[');
            render_elems(es, 0, out);
            proof {
                assert(out@ =~= old(out)@ + (seq!['['] + render_arr_body(elems_jv(*es, 0), 0)));
            }
        },
        JsonValue::Obj(ms) => {
            out.push('{');
            render_members(ms, 0, out);
            proof {
                assert(out@ =~= old(out)@ + (seq!['{'] + render_obj_body(members_jv(*ms, 0), 0)));
            }
        },
    }
}

/// Appends the rendered elements of `es` from index `i` on, and the
/// closing bracket.
fn render_elems(es: &Vec<JsonValue>, i: usize, out: &mut Vec<char>)
    requires
        i <= es.len(),
    ensures
        final(out)@ == old(out)@ + render_arr_body(elems_jv(*es, 0), i as int),
    decreases *es, es.len() - i, 0int,
{
    proof {
        lemma_elems_jv(*es, 0);
    }
    let ghost full = elems_jv(*es, 0);
    if i == es.len() {
        out.push(']');
        proof {
            assert(render_arr_body(full, i as int) == seq![']']);
            assert(out@ =~= old(out)@ + seq![']']);
        }
    } else if i == 0 {
        render_value(&es[0], out);
        proof {
            assert(full[0] == jval_view(es@[0]));
        }
        let ghost mid = out@;
        render_elems(es, 1, out);
        proof {
            assert(render_arr_body(full, 0) == render_jval(full[0]) + render_arr_body(full, 1));
            assert((old(out)@ + render_jval(full[0])) + render_arr_body(full, 1) =~= old(out)@ + (
            render_jval(full[0]) + render_arr_body(full, 1)));
        }
    } else {
        out.push(',');
        render_value(&es[i], out);
        proof {
            assert(full[i as int] == jval_view(es@[i as int]));
            assert(out@ =~= old(out)@ + (seq![','] + render_jval(full[i as int])));
        }
        render_elems(es, i + 1, out);
        proof {
            assert(render_arr_body(full, i as int) == seq![','] + render_jval(full[i as int])
                + render_arr_body(full, i + 1));
            assert((old(out)@ + (seq![','] + render_jval(full[i as int]))) + render_arr_body(
                full,
                i + 1,
            ) =~= old(out)@ + (seq![','] + render_jval(full[i as int]) + render_arr_body(
                full,
                i + 1,
            )));
        }
    }
}

/// Appends the rendered members of `ms` from index `i` on, and the
/// closing brace.
fn render_members(ms: &Vec<(String, JsonValue)>, i: usize, out: &mut Vec<char>)
    requires
        i <= ms.len(),
    ensures
        final(out)@ == old(out)@ + render_obj_body(members_jv(*ms, 0), i as int),
    decreases *ms, ms.len() - i, 1int,
{
    proof {
        lemma_members_jv(*ms, 0);
    }
    let ghost full = members_jv(*ms, 0);
    if i == ms.len() {
        out.push('}');
        proof {
            assert(render_obj_body(full, i as int) == seq!['}']);
            assert(out@ =~= old(out)@ + seq!['}']);
        }
    } else {
        if i > 0 {
            out.push(',');
        }
        let ghost mid0 = out@;
        let m = &ms[i];
        out.push('"');
        let kcs = chars_of(m.0.as_str());
        render_str_body(&kcs, 0, out);
        out.push('"');
        out.push(':');
        render_value(&m.1, out);
        proof {
            assert(kcs@.skip(0) =~= kcs@);
            assert(full[i as int] == (ms@[i as int].0@, jval_view(ms@[i as int].1)));
            assert(render_member(full[i as int]) == seq!['"'] + esc_str(ms@[i as int].0@) + seq![
                '"',
                ':',
            ] + render_jval(jval_view(ms@[i as int].1)));
            assert(out@ =~= mid0 + render_member(full[i as int]));
        }
        let ghost mid1 = out@;
        render_members(ms, i + 1, out);
        proof {
            if i == 0 {
                assert(render_obj_body(full, 0) == render_member(full[0]) + render_obj_body(
                    full,
                    1,
                ));
                assert((old(out)@ + render_member(full[0])) + render_obj_body(full, 1) =~= old(
                    out,
                )@ + (render_member(full[0]) + render_obj_body(full, 1)));
            } else {
                assert(render_obj_body(full, i as int) == seq![','] + render_member(full[i as int])
                    + render_obj_body(full, i + 1));
                assert(mid0 =~= old(out)@ + seq![',']);
                assert((mid0 + render_member(full[i as int])) + render_obj_body(full, i + 1)
                    =~= old(out)@ + (seq![','] + render_member(full[i as int]) + render_obj_body(
                    full,
                    i + 1,
                )));
            }
        }
    }
}

/// The canonical text of `v`.
pub fn render_text(v: &JsonValue) -> (r: String)
    ensures
        r@ == render_jval(v@),
{
    let mut out: Vec<char> = Vec::new();
    render_value(v, &mut out);
    proof {
        assert(Seq::<char>::empty() + render_jval(v@) =~= render_jval(v@));
    }
    string_from_chars(&out)
}

// --- executable parsing ---

fn is_hex_exec(c: char) -> (r: bool)
    ensures
        r == is_hex_char(c),
{
    let u = c as u32;
    (48 <= u && u <= 57) || (97 <= u && u <= 102) || (65 <= u && u <= 70)
}

fn hex_value_exec(c: char) -> (r: u32)
    requires
        is_hex_char(c),
    ensures
        r == hex_value(c),
        r < 16,
{
    let u = c as u32;
    if 48 <= u && u <= 57 {
        u - 48
    } else if 97 <= u && u <= 102 {
        u - 97 + 10
    } else {
        u - 65 + 10
    }
}

fn is_ws_exec(c: char) -> (r: bool)
    ensures
        r == is_ws(c),
{
    c == ' ' || c == '\t' || c == '\n' || c == '\r'
}

/// Reads the rest of a string literal from `v[i..]`, after the opening
/// quote.
fn p_str_rest(v: &Vec<char>, i: usize) -> (r: Option<(Vec<char>, usize)>)
    requires
        i <= v.len(),
    ensures
        match parse_str_rest(v@.skip(i as int)) {
            None => r is None,
            Some((cs, n)) => r matches Some((cv, m)) && cv@ == cs && m == i + n && i < m
                <= v.len(),
        },
    decreases v.len() - i,
{
    proof {
        lemma_skip_points(v@, i as int);
    }
    let ghost s = v@.skip(i as int);
    if i == v.len() {
        return None;
    }
    let c = v[i];
    if c == '"' {
        let cv: Vec<char> = Vec::new();
        proof {
            assert(cv@ =~= Seq::<char>::empty());
        }
        return Some((cv, i + 1));
    }
    if c == '\\' {
        if v.len() - i < 2 {
            return None;
        }
        let e = v[i + 1];
        if e == 'u' {
            if v.len() - i >= 6 && v[i + 2] == '0' && v[i + 3] == '0' && is_hex_exec(v[i + 4])
                && is_hex_exec(v[i + 5]) {
                let code: u32 = hex_value_exec(v[i + 4]) * 16 + hex_value_exec(v[i + 5]);
                let ch: char = (code as u8) as char;
                proof {
                    lemma_skip_skip(v@, i as int, 6);
                }
                match p_str_rest(v, i + 6) {
                    None => None,
                    Some((tail, m)) => {
                        let mut cv = tail;
                        let ghost tl = cv@;
                        cv.insert(0, ch);
                        proof {
                            assert(cv@ =~= seq![ch] + tl);
                        }
                        Some((cv, m))
                    },
                }
            } else {
                None
            }
        } else if e == '"' || e == '\\' || e == '/' || e == 'b' || e == 'f' || e == 'n' || e == 'r'
            || e == 't' {
            let ch: char = if e == '"' {
                '"'
            } else if e == '\\' {
                '\\'
            } else if e == '/' {
                '/'
            } else if e == 'b' {
                8u8 as char
            } else if e == 'f' {
                12u8 as char
            } else if e == 'n' {
                '\n'
            } else if e == 'r' {
                '\r'
            } else {
                '\t'
            };
            proof {
                lemma_skip_skip(v@, i as int, 2);
            }
            match p_str_rest(v, i + 2) {
                None => None,
                Some((tail, m)) => {
                    let mut cv = tail;
                    let ghost tl = cv@;
                    cv.insert(0, ch);
                    proof {
                        assert(cv@ =~= seq![ch] + tl);
                    }
                    Some((cv, m))
                },
            }
        } else {
            None
        }
    } else if (c as u32) < 32 {
        None
    } else {
        proof {
            lemma_skip_skip(v@, i as int, 1);
        }
        match p_str_rest(v, i + 1) {
            None => None,
            Some((tail, m)) => {
                let mut cv = tail;
                let ghost tl = cv@;
                cv.insert(0, c);
                proof {
                    assert(cv@ =~= seq![c] + tl);
                }
                Some((cv, m))
            },
        }
    }
}

/// Reads one JSON value from `v[i..]`.
fn p_value(v: &Vec<char>, i: usize) -> (r: Option<(JsonValue, usize)>)
    requires
        i <= v.len(),
    ensures
        match parse_jval(v@.skip(i as int)) {
            None => r is None,
            Some((j, n)) => r matches Some((jv, m)) && jv@ == j && m == i + n && i < m <= v.len(),
        },
    decreases v.len() - i, 0int,
{
    proof {
        lemma_skip_points(v@, i as int);
    }
    if i == v.len() {
        return None;
    }
    let c = v[i];
    if is_ws_exec(c) {
        proof {
            lemma_skip_skip(v@, i as int, 1);
        }
        return p_value(v, i + 1);
    }
    if c == 'n' {
        if v.len() - i >= 4 && v[i + 1] == 'u' && v[i + 2] == 'l' && v[i + 3] == 'l' {
            return Some((JsonValue::Null, i + 4));
        }
        return None;
    }
    if c == 't' {
        if v.len() - i >= 4 && v[i + 1] == 'r' && v[i + 2] == 'u' && v[i + 3] == 'e' {
            return Some((JsonValue::Bool(true), i + 4));
        }
        return None;
    }
    if c == 'f' {
        if v.len() - i >= 5 && v[i + 1] == 'a' && v[i + 2] == 'l' && v[i + 3] == 's' && v[i + 4]
            == 'e' {
            return Some((JsonValue::Bool(false), i + 5));
        }
        return None;
    }
    if c == '"' {
        proof {
            lemma_skip_skip(v@, i as int, 1);
        }
        return match p_str_rest(v, i + 1) {
            None => None,
            Some((cv, m)) => Some((JsonValue::Str(string_from_chars(&cv)), m)),
        };
    }
    if c == '[' {
        proof {
            lemma_skip_skip(v@, i as int, 1);
        }
        return match p_arr(v, i + 1) {
            None => None,
            Some((ev, m)) => Some((JsonValue::Arr(ev), m)),
        };
    }
    if c == '{' {
        proof {
            lemma_skip_skip(v@, i as int, 1);
        }
        return match p_obj(v, i + 1) {
            None => None,
            Some((mv, m)) => Some((JsonValue::Obj(mv), m)),
        };
    }
    if c == '-' || is_digit(c) {
        let ghost s = v@.skip(i as int);
        let mut j: usize = i;
        while j < v.len() && is_num_char_exec(v[j])
            invariant
                i <= j <= v.len(),
                forall|t: int| i <= t < j ==> is_num_char(#[trigger] v@[t]),
            decreases v.len() - j,
        {
            j = j + 1;
        }
        let mut tvec: Vec<char> = Vec::new();
        let mut k: usize = i;
        while k < j
            invariant
                i <= k <= j <= v.len(),
                tvec@ =~= v@.subrange(i as int, k as int),
            decreases j - k,
        {
            let ghost before = tvec@;
            tvec.push(v[k]);
            proof {
                assert(v@.subrange(i as int, k + 1 as int) =~= before.push(v@[k as int]));
            }
            k = k + 1;
        }
        proof {
            lemma_skip_points(v@, i as int);
            assert(forall|t: int|
                0 <= t < j - i ==> is_num_char(#[trigger] s[t]) && s[t] == v@[i + t]);
            if j < v.len() {
                assert(s[j - i] == v@[j as int]);
                assert(!is_num_char(s[j - i]));
            }
            lemma_num_prefix_chars(s, j - i);
            assert(s.subrange(0, j - i) =~= v@.subrange(i as int, j as int));
            assert(num_prefix(s) == tvec@);
            assert(tvec@.skip(0) =~= tvec@);
        }
        if valid_number_exec(&tvec, 0) {
            if j == i {
                // unreachable: the scan took at least one character
                return None;
            }
            let text = string_from_chars(&tvec);
            return Some((JsonValue::Num(JsonNumber { text }), j));
        }
        return None;
    }
    None
}

/// Reads array elements and the closing bracket from `v[i..]`.
fn p_arr(v: &Vec<char>, i: usize) -> (r: Option<(Vec<JsonValue>, usize)>)
    requires
        i <= v.len(),
    ensures
        match parse_arr(v@.skip(i as int)) {
            None => r is None,
            Some((es, n)) => r matches Some((ev, m)) && elems_jv(ev, 0) == es && m == i + n && i
                < m <= v.len(),
        },
    decreases v.len() - i, 1int,
{
    proof {
        lemma_skip_points(v@, i as int);
    }
    if i == v.len() {
        return None;
    }
    let c = v[i];
    if is_ws_exec(c) {
        proof {
            lemma_skip_skip(v@, i as int, 1);
        }
        return p_arr(v, i + 1);
    }
    if c == ']' {
        let ev: Vec<JsonValue> = Vec::new();
        proof {
            assert(elems_jv(ev, 0) =~= Seq::<JVal>::empty());
        }
        return Some((ev, i + 1));
    }
    match p_value(v, i) {
        None => None,
        Some((jv, m1)) => {
            proof {
                lemma_skip_skip(v@, i as int, m1 - i);
            }
            match p_arr_tail(v, m1) {
                None => None,
                Some((tail, m2)) => {
                    let mut ev = tail;
                    let ghost tl = ev;
                    ev.insert(0, jv);
                    proof {
                        lemma_elems_jv(ev, 0);
                        lemma_elems_jv(tl, 0);
                        assert(elems_jv(ev, 0) =~= seq![jv@] + elems_jv(tl, 0));
                    }
                    Some((ev, m2))
                },
            }
        },
    }
}

/// Reads what follows an array element from `v[i..]`.
fn p_arr_tail(v: &Vec<char>, i: usize) -> (r: Option<(Vec<JsonValue>, usize)>)
    requires
        i <= v.len(),
    ensures
        match parse_arr_tail(v@.skip(i as int)) {
            None => r is None,
            Some((es, n)) => r matches Some((ev, m)) && elems_jv(ev, 0) == es && m == i + n && i
                < m <= v.len(),
        },
    decreases v.len() - i, 2int,
{
    proof {
        lemma_skip_points(v@, i as int);
    }
    if i == v.len() {
        return None;
    }
    let c = v[i];
    if is_ws_exec(c) {
        proof {
            lemma_skip_skip(v@, i as int, 1);
        }
        return p_arr_tail(v, i + 1);
    }
    if c == ']' {
        let ev: Vec<JsonValue> = Vec::new();
        proof {
            assert(elems_jv(ev, 0) =~= Seq::<JVal>::empty());
        }
        return Some((ev, i + 1));
    }
    if c == ',' {
        proof {
            lemma_skip_skip(v@, i as int, 1);
        }
        return match p_value(v, i + 1) {
            None => None,
            Some((jv, m1)) => {
                proof {
                    lemma_skip_skip(v@, i as int, m1 - i);
                }
                match p_arr_tail(v, m1) {
                    None => None,
                    Some((tail, m2)) => {
                        let mut ev = tail;
                        let ghost tl = ev;
                        ev.insert(0, jv);
                        proof {
                            lemma_elems_jv(ev, 0);
                            lemma_elems_jv(tl, 0);
                            assert(elems_jv(ev, 0) =~= seq![jv@] + elems_jv(tl, 0));
                        }
                        Some((ev, m2))
                    },
                }
            },
        };
    }
    None
}

/// Reads one object member from `v[i..]`.
fn p_member(v: &Vec<char>, i: usize) -> (r: Option<((String, JsonValue), usize)>)
    requires
        i <= v.len(),
    ensures
        match parse_member(v@.skip(i as int)) {
            None => r is None,
            Some((kj, n)) => r matches Some((mv, m)) && mv.0@ == kj.0 && mv.1@ == kj.1 && m == i
                + n && i < m <= v.len(),
        },
    decreases v.len() - i, 1int,
{
    proof {
        lemma_skip_points(v@, i as int);
    }
    if i == v.len() {
        return None;
    }
    let c = v[i];
    if is_ws_exec(c) {
        proof {
            lemma_skip_skip(v@, i as int, 1);
        }
        return p_member(v, i + 1);
    }
    if c == '"' {
        proof {
            lemma_skip_skip(v@, i as int, 1);
        }
        return match p_str_rest(v, i + 1) {
            None => None,
            Some((kcv, m1)) => {
                proof {
                    lemma_skip_skip(v@, i as int, m1 - i);
                }
                match p_colon_value(v, m1) {
                    None => None,
                    Some((jv, m2)) => {
                        let key = string_from_chars(&kcv);
                        Some(((key, jv), m2))
                    },
                }
            },
        };
    }
    None
}

/// Reads a colon and the value after it from `v[i..]`.
fn p_colon_value(v: &Vec<char>, i: usize) -> (r: Option<(JsonValue, usize)>)
    requires
        i <= v.len(),
    ensures
        match parse_colon_value(v@.skip(i as int)) {
            None => r is None,
            Some((j, n)) => r matches Some((jv, m)) && jv@ == j && m == i + n && i < m <= v.len(),
        },
    decreases v.len() - i, 1int,
{
    proof {
        lemma_skip_points(v@, i as int);
    }
    if i == v.len() {
        return None;
    }
    let c = v[i];
    if is_ws_exec(c) {
        proof {
            lemma_skip_skip(v@, i as int, 1);
        }
        return p_colon_value(v, i + 1);
    }
    if c == ':' {
        proof {
            lemma_skip_skip(v@, i as int, 1);
        }
        return p_value(v, i + 1);
    }
    None
}

/// Reads object members and the closing brace from `v[i..]`.
fn p_obj(v: &Vec<char>, i: usize) -> (r: Option<(Vec<(String, JsonValue)>, usize)>)
    requires
        i <= v.len(),
    ensures
        match parse_obj(v@.skip(i as int)) {
            None => r is None,
            Some((ms, n)) => r matches Some((mv, m)) && members_jv(mv, 0) == ms && m == i + n && i
                < m <= v.len(),
        },
    decreases v.len() - i, 2int,
{
    proof {
        lemma_skip_points(v@, i as int);
    }
    if i == v.len() {
        return None;
    }
    let c = v[i];
    if is_ws_exec(c) {
        proof {
            lemma_skip_skip(v@, i as int, 1);
        }
        return p_obj(v, i + 1);
    }
    if c == '}' {
        let mv: Vec<(String, JsonValue)> = Vec::new();
        proof {
            assert(members_jv(mv, 0) =~= Seq::<(Seq<char>, JVal)>::empty());
        }
        return Some((mv, i + 1));
    }
    match p_member(v, i) {
        None => None,
        Some((kv, m1)) => {
            proof {
                lemma_skip_skip(v@, i as int, m1 - i);
            }
            match p_obj_tail(v, m1) {
                None => None,
                Some((tail, m2)) => {
                    let mut mv = tail;
                    let ghost tl = mv;
                    let ghost kvv = (kv.0@, kv.1@);
                    mv.insert(0, kv);
                    proof {
                        lemma_members_jv(mv, 0);
                        lemma_members_jv(tl, 0);
                        assert(members_jv(mv, 0) =~= seq![kvv] + members_jv(tl, 0));
                    }
                    Some((mv, m2))
                },
            }
        },
    }
}

/// Reads what follows an object member from `v[i..]`.
fn p_obj_tail(v: &Vec<char>, i: usize) -> (r: Option<(Vec<(String, JsonValue)>, usize)>)
    requires
        i <= v.len(),
    ensures
        match parse_obj_tail(v@.skip(i as int)) {
            None => r is None,
            Some((ms, n)) => r matches Some((mv, m)) && members_jv(mv, 0) == ms && m == i + n && i
                < m <= v.len(),
        },
    decreases v.len() - i, 3int,
{
    proof {
        lemma_skip_points(v@, i as int);
    }
    if i == v.len() {
        return None;
    }
    let c = v[i];
    if is_ws_exec(c) {
        proof {
            lemma_skip_skip(v@, i as int, 1);
        }
        return p_obj_tail(v, i + 1);
    }
    if c == '}' {
        let mv: Vec<(String, JsonValue)> = Vec::new();
        proof {
            assert(members_jv(mv, 0) =~= Seq::<(Seq<char>, JVal)>::empty());
        }
        return Some((mv, i + 1));
    }
    if c == ',' {
        proof {
            lemma_skip_skip(v@, i as int, 1);
        }
        return match p_member(v, i + 1) {
            None => None,
            Some((kv, m1)) => {
                proof {
                    lemma_skip_skip(v@, i as int, m1 - i);
                }
                match p_obj_tail(v, m1) {
                    None => None,
                    Some((tail, m2)) => {
                        let mut mv = tail;
                        let ghost tl = mv;
                        let ghost kvv = (kv.0@, kv.1@);
                        mv.insert(0, kv);
                        proof {
                            lemma_members_jv(mv, 0);
                            lemma_members_jv(tl, 0);
                            assert(members_jv(mv, 0) =~= seq![kvv] + members_jv(tl, 0));
                        }
                        Some((mv, m2))
                    },
                }
            },
        };
    }
    None
}

/// Reads a whole JSON document: one value that fills all of `s`.
pub fn parse_text(s: &str) -> (r: Option<JsonValue>)
    ensures
        match parse_document(s@) {
            None => r is None,
            Some(j) => r matches Some(jv) && jv@ == j,
        },
{
    let cs = chars_of(s);
    proof {
        assert(cs@.skip(0) =~= cs@);
    }
    match p_value(&cs, 0) {
        None => None,
        Some((jv, m)) => {
            let mut j: usize = m;
            while j < cs.len()
                invariant
                    m <= j <= cs.len(),
                    cs@ == s@,
                    parse_jval(s@) matches Some((j0, n)) && n == m as int && jv@ == j0,
                    forall|t: int| m <= t < j ==> is_ws(#[trigger] cs@[t]),
                decreases cs.len() - j,
            {
                if !is_ws_exec(cs[j]) {
                    proof {
                        lemma_skip_points(cs@, m as int);
                        assert(cs@.skip(m as int)[j - m] == cs@[j as int]);
                        assert(!all_ws(cs@.skip(m as int)));
                    }
                    return None;
                }
                j = j + 1;
            }
            proof {
                lemma_skip_points(cs@, m as int);
                assert(all_ws(cs@.skip(m as int)));
            }
            Some(jv)
        },
    }
}


// --- value helpers ---

fn obj_lookup_from<'a>(ms: &'a Vec<(String, JsonValue)>, key: &String, i: usize) -> (r: Option<
    &'a JsonValue,
>)
    requires
        i <= ms.len(),
    ensures
        match jobj_get_from(members_jv(*ms, 0), key@, i as int) {
            None => r is None,
            Some(j) => r matches Some(jv) && jv@ == j,
        },
    decreases ms.len() - i,
{
    proof {
        lemma_members_jv(*ms, 0);
    }
    if i == ms.len() {
        None
    } else if ms[i].0 == *key {
        Some(&ms[i].1)
    } else {
        obj_lookup_from(ms, key, i + 1)
    }
}

/// The value of the first member of `ms` named `key`, if any.
pub fn obj_lookup<'a>(ms: &'a Vec<(String, JsonValue)>, key: &String) -> (r: Option<
    &'a JsonValue,
>)
    ensures
        match jobj_get(members_jv(*ms, 0), key@) {
            None => r is None,
            Some(j) => r matches Some(jv) && jv@ == j,
        },
{
    obj_lookup_from(ms, key, 0)
}

/// A deep copy of `v`, equal in shape.
pub fn clone_value(v: &JsonValue) -> (r: JsonValue)
    ensures
        r@ == v@,
    decreases *v, 1int,
{
    match v {
        JsonValue::Null => JsonValue::Null,
        JsonValue::Bool(b) => JsonValue::Bool(*b),
        JsonValue::Num(n) => JsonValue::Num(JsonNumber { text: n.text.clone() }),
        JsonValue::Str(s) => JsonValue::Str(s.clone()),
        JsonValue::Arr(es) => JsonValue::Arr(clone_elems(es, 0)),
        JsonValue::Obj(ms) => JsonValue::Obj(clone_members(ms, 0)),
    }
}

/// Deep copies of the elements of `es` from index `i` on.
fn clone_elems(es: &Vec<JsonValue>, i: usize) -> (r: Vec<JsonValue>)
    requires
        i <= es.len(),
    ensures
        elems_jv(r, 0) == elems_jv(*es, i as int),
    decreases *es, es.len() - i, 0int,
{
    if i == es.len() {
        let r: Vec<JsonValue> = Vec::new();
        proof {
            assert(elems_jv(r, 0) =~= elems_jv(*es, i as int));
        }
        r
    } else {
        let head = clone_value(&es[i]);
        let mut r = clone_elems(es, i + 1);
        let ghost tail = r;
        r.insert(0, head);
        proof {
            lemma_elems_jv(r, 0);
            lemma_elems_jv(tail, 0);
            lemma_elems_jv(*es, i as int);
            assert(elems_jv(r, 0) =~= elems_jv(*es, i as int));
        }
        r
    }
}

/// Deep copies of the members of `ms` from index `i` on.
fn clone_members(ms: &Vec<(String, JsonValue)>, i: usize) -> (r: Vec<(String, JsonValue)>)
    requires
        i <= ms.len(),
    ensures
        members_jv(r, 0) == members_jv(*ms, i as int),
    decreases *ms, ms.len() - i, 0int,
{
    if i == ms.len() {
        let r: Vec<(String, JsonValue)> = Vec::new();
        proof {
            assert(members_jv(r, 0) =~= members_jv(*ms, i as int));
        }
        r
    } else {
        let kc = ms[i].0.clone();
        let vc = clone_value(&ms[i].1);
        let mut r = clone_members(ms, i + 1);
        let ghost tail = r;
        r.insert(0, (kc, vc));
        proof {
            lemma_members_jv(r, 0);
            lemma_members_jv(tail, 0);
            lemma_members_jv(*ms, i as int);
            assert(members_jv(r, 0) =~= members_jv(*ms, i as int));
        }
        r
    }
}

} // verus!
