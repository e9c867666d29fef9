//! Decimal text: rendering integers as digit strings, reading integers back,
//! and the grammar of JSON number literals.

use vstd::prelude::*;

verus! {

pub open spec fn is_digit_char(c: char) -> bool {
    48 <= c as u32 && c as u32 <= 57
}

pub open spec fn digit_value(c: char) -> int {
    c as u32 - 48
}

pub open spec fn digit_char(d: int) -> char {
    if d == 0 { '0' }
    else if d == 1 { '1' }
    else if d == 2 { '2' }
    else if d == 3 { '3' }
    else if d == 4 { '4' }
    else if d == 5 { '5' }
    else if d == 6 { '6' }
    else if d == 7 { '7' }
    else if d == 8 { '8' }
    else { '9' }
}

pub proof fn lemma_digit_char_value(d: int)
    requires
        0 <= d < 10,
    ensures
        is_digit_char(digit_char(d)),
        digit_value(digit_char(d)) == d,
{
}

pub open spec fn all_digits(s: Seq<char>) -> bool {
    forall|i: int| 0 <= i < s.len() ==> is_digit_char(#[trigger] s[i])
}

/// The decimal digits of `n`, most significant first, without leading zeros.
pub open spec fn dec_digits(n: nat) -> Seq<char>
    decreases n,
{
    if n < 10 {
        seq![digit_char(n as int)]
    } else {
        dec_digits(n / 10).push(digit_char((n % 10) as int))
    }
}

/// The canonical decimal rendering of an integer, `-` first when negative.
pub open spec fn render_int(i: int) -> Seq<char> {
    if i < 0 {
        seq!['-'] + dec_digits((-i) as nat)
    } else {
        dec_digits(i as nat)
    }
}

/// The value of a digit string, most significant digit first.
pub open spec fn digits_val(s: Seq<char>) -> int
    decreases s.len(),
{
    if s.len() == 0 {
        0
    } else {
        digits_val(s.drop_last()) * 10 + digit_value(s.last())
    }
}

pub proof fn lemma_digits_val_nonneg(s: Seq<char>)
    requires
        all_digits(s),
    ensures
        digits_val(s) >= 0,
    decreases s.len(),
{
    if s.len() > 0 {
        lemma_digits_val_nonneg(s.drop_last());
    }
}

pub proof fn lemma_dec_digits_all_digits(n: nat)
    ensures
        all_digits(dec_digits(n)),
        dec_digits(n).len() >= 1,
    decreases n,
{
    if n >= 10 {
        lemma_dec_digits_all_digits(n / 10);
        assert(dec_digits(n) == dec_digits(n / 10).push(digit_char((n % 10) as int)));
        lemma_digit_char_value((n % 10) as int);
    } else {
        lemma_digit_char_value(n as int);
    }
}

pub proof fn lemma_dec_digits_val(n: nat)
    ensures
        digits_val(dec_digits(n)) == n,
    decreases n,
{
    if n < 10 {
        lemma_digit_char_value(n as int);
        let s = seq![digit_char(n as int)];
        assert(dec_digits(n) =~= s);
        assert(s.drop_last() =~= Seq::<char>::empty());
        assert(s.last() == digit_char(n as int));
        assert(digits_val(s) == digits_val(s.drop_last()) * 10 + digit_value(s.last()));
        assert(digits_val(s.drop_last()) == 0);
    } else {
        lemma_dec_digits_val(n / 10);
        lemma_digit_char_value((n % 10) as int);
        let whole = dec_digits(n / 10).push(digit_char((n % 10) as int));
        assert(dec_digits(n) =~= whole);
        assert(whole.drop_last() =~= dec_digits(n / 10));
        assert(whole.last() == digit_char((n % 10) as int));
        assert(digits_val(whole) == (n / 10) * 10 + (n % 10));
    }
}

/// The first digit of the rendering of `n` is `0` only when `n` is zero.
pub proof fn lemma_dec_digits_leading(n: nat)
    ensures
        n > 0 ==> dec_digits(n)[0] != '0',
        n == 0 ==> dec_digits(n) == seq!['0'],
    decreases n,
{
    if n >= 10 {
        lemma_dec_digits_leading(n / 10);
        lemma_dec_digits_all_digits(n / 10);
        assert(dec_digits(n)[0] == dec_digits(n / 10)[0]);
    }
}

/// Characters that may occur in a JSON number literal.
pub open spec fn is_num_char(c: char) -> bool {
    is_digit_char(c) || c == '-' || c == '+' || c == '.' || c == 'e' || c == 'E'
}

/// The longest prefix of `s` made of number characters.
pub open spec fn num_prefix(s: Seq<char>) -> Seq<char>
    decreases s.len(),
{
    if s.len() > 0 && is_num_char(s[0]) {
        seq![s[0]] + num_prefix(s.skip(1))
    } else {
        Seq::empty()
    }
}

pub proof fn lemma_skip_index(s: Seq<char>, n: int, i: int)
    requires
        0 <= n,
        0 <= i,
        n + i < s.len(),
    ensures
        s.skip(n)[i] == s[n + i],
{
    assert(s.skip(n) =~= s.subrange(n, s.len() as int));
}

pub proof fn lemma_skip_points(s: Seq<char>, i: int)
    requires
        0 <= i <= s.len(),
    ensures
        s.skip(i).len() == s.len() - i,
        forall|k: int| 0 <= k < s.len() - i ==> #[trigger] s.skip(i)[k] == s[i + k],
{
    assert forall|k: int| 0 <= k < s.len() - i implies #[trigger] s.skip(i)[k] == s[i + k] by {
        lemma_skip_index(s, i, k);
    }
}

pub proof fn lemma_skip_skip(s: Seq<char>, i: int, j: int)
    requires
        0 <= i,
        0 <= j,
        i + j <= s.len(),
    ensures
        s.skip(i).skip(j) == s.skip(i + j),
{
    assert(s.skip(i).skip(j) =~= s.skip(i + j));
}

pub proof fn lemma_num_prefix_chars(s: Seq<char>, k: int)
    requires
        0 <= k <= s.len(),
        forall|t: int| 0 <= t < k ==> is_num_char(#[trigger] s[t]),
        k == s.len() || !is_num_char(s[k]),
    ensures
        num_prefix(s) == s.subrange(0, k),
    decreases k,
{
    if k == 0 {
        assert(num_prefix(s) =~= s.subrange(0, 0));
    } else {
        lemma_num_prefix_chars(s.skip(1), k - 1);
        assert(num_prefix(s) == seq![s[0]] + num_prefix(s.skip(1)));
        assert(seq![s[0]] + s.skip(1).subrange(0, k - 1) =~= s.subrange(0, k));
    }
}

// --- the grammar of a JSON number literal, as a deterministic acceptor ---

/// Exponent digits after the first: digits until the end.
pub open spec fn vn_exp_rest(s: Seq<char>) -> bool
    decreases s.len(),
{
    if s.len() == 0 {
        true
    } else {
        is_digit_char(s[0]) && vn_exp_rest(s.skip(1))
    }
}

/// Exponent digit block: at least one digit, then digits until the end.
pub open spec fn vn_exp_digits(s: Seq<char>) -> bool {
    s.len() > 0 && is_digit_char(s[0]) && vn_exp_rest(s.skip(1))
}

/// Exponent body: optional sign, then its digits.
pub open spec fn vn_exp_sign(s: Seq<char>) -> bool {
    if s.len() > 0 && (s[0] == '+' || s[0] == '-') {
        vn_exp_digits(s.skip(1))
    } else {
        vn_exp_digits(s)
    }
}

/// Optional exponent part.
pub open spec fn vn_exp(s: Seq<char>) -> bool {
    if s.len() == 0 {
        true
    } else if s[0] == 'e' || s[0] == 'E' {
        vn_exp_sign(s.skip(1))
    } else {
        false
    }
}

/// Fraction digits after the first: digits, then an optional exponent.
pub open spec fn vn_frac_rest(s: Seq<char>) -> bool
    decreases s.len(),
{
    if s.len() > 0 && is_digit_char(s[0]) {
        vn_frac_rest(s.skip(1))
    } else {
        vn_exp(s)
    }
}

/// Optional fraction part, then an optional exponent.
pub open spec fn vn_frac(s: Seq<char>) -> bool {
    if s.len() == 0 {
        true
    } else if s[0] == '.' {
        s.len() > 1 && is_digit_char(s[1]) && vn_frac_rest(s.skip(2))
    } else {
        vn_exp(s)
    }
}

/// Integer-part digits after a leading nonzero digit.
pub open spec fn vn_int_rest(s: Seq<char>) -> bool
    decreases s.len(),
{
    if s.len() > 0 && is_digit_char(s[0]) {
        vn_int_rest(s.skip(1))
    } else {
        vn_frac(s)
    }
}

/// Integer part: `0` alone, or a nonzero digit followed by digits.
pub open spec fn vn_int(s: Seq<char>) -> bool {
    if s.len() == 0 {
        false
    } else if s[0] == '0' {
        vn_frac(s.skip(1))
    } else if is_digit_char(s[0]) {
        vn_int_rest(s.skip(1))
    } else {
        false
    }
}

/// A complete JSON number literal.
pub open spec fn valid_number(s: Seq<char>) -> bool {
    if s.len() > 0 && s[0] == '-' {
        vn_int(s.skip(1))
    } else {
        vn_int(s)
    }
}

/// The value of a number literal that is a plain integer (no fraction, no
/// exponent); `None` for any other text.
pub open spec fn int_of_num_text(s: Seq<char>) -> Option<int> {
    if s.len() > 0 && s[0] == '-' {
        let d = s.skip(1);
        if d.len() > 0 && all_digits(d) {
            Some(-digits_val(d))
        } else {
            None
        }
    } else {
        if s.len() > 0 && all_digits(s) {
            Some(digits_val(s))
        } else {
            None
        }
    }
}

/// The value of an integer written as `str::parse` reads it: an optional
/// sign, then at least one digit; `None` on any other text.
pub open spec fn str_int_parse(s: Seq<char>) -> Option<int> {
    if s.len() > 0 && (s[0] == '-' || s[0] == '+') {
        let d = s.skip(1);
        if d.len() > 0 && all_digits(d) {
            Some(if s[0] == '-' { -digits_val(d) } else { digits_val(d) })
        } else {
            None
        }
    } else {
        if s.len() > 0 && all_digits(s) {
            Some(digits_val(s))
        } else {
            None
        }
    }
}

/// `str_int_parse` confined to the `i32` range, as `str::parse::<i32>` is.
pub open spec fn i32_of_text(s: Seq<char>) -> Option<int> {
    match str_int_parse(s) {
        Some(x) => if i32::MIN <= x <= i32::MAX {
            Some(x)
        } else {
            None
        },
        None => None,
    }
}

/// `int_of_num_text` confined to the `i64` range.
pub open spec fn i64_of_num_text(s: Seq<char>) -> Option<int> {
    match int_of_num_text(s) {
        Some(x) => if i64::MIN <= x <= i64::MAX {
            Some(x)
        } else {
            None
        },
        None => None,
    }
}

// --- every character of a valid number literal is a number character ---

proof fn lemma_num_chars_unskip(s: Seq<char>, k: int)
    requires
        0 <= k <= s.len(),
        forall|t: int| 0 <= t < k ==> is_num_char(#[trigger] s[t]),
        forall|t: int| 0 <= t < s.len() - k ==> is_num_char(#[trigger] s.skip(k)[t]),
    ensures
        forall|t: int| 0 <= t < s.len() ==> is_num_char(#[trigger] s[t]),
{
    assert forall|t: int| 0 <= t < s.len() implies is_num_char(#[trigger] s[t]) by {
        if t >= k {
            lemma_skip_index(s, k, t - k);
            assert(is_num_char(s.skip(k)[t - k]));
        }
    }
}

proof fn lemma_vn_exp_rest_chars(s: Seq<char>)
    requires
        vn_exp_rest(s),
    ensures
        forall|t: int| 0 <= t < s.len() ==> is_num_char(#[trigger] s[t]),
    decreases s.len(),
{
    if s.len() > 0 {
        lemma_vn_exp_rest_chars(s.skip(1));
        lemma_num_chars_unskip(s, 1);
    }
}

proof fn lemma_vn_exp_sign_chars(s: Seq<char>)
    requires
        vn_exp_sign(s),
    ensures
        forall|t: int| 0 <= t < s.len() ==> is_num_char(#[trigger] s[t]),
{
    if s.len() > 0 && (s[0] == '+' || s[0] == '-') {
        lemma_vn_exp_rest_chars(s.skip(1).skip(1));
        lemma_num_chars_unskip(s.skip(1), 1);
        lemma_num_chars_unskip(s, 1);
    } else {
        lemma_vn_exp_rest_chars(s.skip(1));
        lemma_num_chars_unskip(s, 1);
    }
}

proof fn lemma_vn_exp_chars(s: Seq<char>)
    requires
        vn_exp(s),
    ensures
        forall|t: int| 0 <= t < s.len() ==> is_num_char(#[trigger] s[t]),
{
    if s.len() > 0 {
        lemma_vn_exp_sign_chars(s.skip(1));
        lemma_num_chars_unskip(s, 1);
    }
}

proof fn lemma_vn_frac_rest_chars(s: Seq<char>)
    requires
        vn_frac_rest(s),
    ensures
        forall|t: int| 0 <= t < s.len() ==> is_num_char(#[trigger] s[t]),
    decreases s.len(),
{
    if s.len() > 0 && is_digit_char(s[0]) {
        lemma_vn_frac_rest_chars(s.skip(1));
        lemma_num_chars_unskip(s, 1);
    } else {
        lemma_vn_exp_chars(s);
    }
}

proof fn lemma_vn_frac_chars(s: Seq<char>)
    requires
        vn_frac(s),
    ensures
        forall|t: int| 0 <= t < s.len() ==> is_num_char(#[trigger] s[t]),
{
    if s.len() == 0 {
    } else if s[0] == '.' {
        lemma_vn_frac_rest_chars(s.skip(2));
        assert forall|t: int| 0 <= t < s.len() implies is_num_char(#[trigger] s[t]) by {
            if t >= 2 {
                lemma_skip_index(s, 2, t - 2);
                assert(is_num_char(s.skip(2)[t - 2]));
            }
        }
    } else {
        lemma_vn_exp_chars(s);
    }
}

proof fn lemma_vn_int_rest_chars(s: Seq<char>)
    requires
        vn_int_rest(s),
    ensures
        forall|t: int| 0 <= t < s.len() ==> is_num_char(#[trigger] s[t]),
    decreases s.len(),
{
    if s.len() > 0 && is_digit_char(s[0]) {
        lemma_vn_int_rest_chars(s.skip(1));
        lemma_num_chars_unskip(s, 1);
    } else {
        lemma_vn_frac_chars(s);
    }
}

proof fn lemma_vn_int_chars(s: Seq<char>)
    requires
        vn_int(s),
    ensures
        forall|t: int| 0 <= t < s.len() ==> is_num_char(#[trigger] s[t]),
{
    if s[0] == '0' {
        lemma_vn_frac_chars(s.skip(1));
        lemma_num_chars_unskip(s, 1);
    } else {
        lemma_vn_int_rest_chars(s.skip(1));
        lemma_num_chars_unskip(s, 1);
    }
}

/// A valid number literal is nonempty, starts with a sign or digit, and
/// holds number characters only.
pub proof fn lemma_valid_number_chars(s: Seq<char>)
    requires
        valid_number(s),
    ensures
        s.len() >= 1,
        s[0] == '-' || is_digit_char(s[0]),
        forall|t: int| 0 <= t < s.len() ==> is_num_char(#[trigger] s[t]),
{
    if s.len() > 0 && s[0] == '-' {
        lemma_vn_int_chars(s.skip(1));
        lemma_num_chars_unskip(s, 1);
    } else {
        lemma_vn_int_chars(s);
    }
}

// --- digit strings are valid number literals and read back to their value ---

proof fn lemma_vn_frac_empty()
    ensures
        vn_frac(Seq::<char>::empty()),
{
}

proof fn lemma_vn_int_rest_digits(s: Seq<char>)
    requires
        all_digits(s),
    ensures
        vn_int_rest(s),
    decreases s.len(),
{
    if s.len() > 0 {
        lemma_vn_int_rest_digits(s.skip(1));
    }
}

/// The canonical rendering of any integer is a valid JSON number literal,
/// made of a sign and digits only, and reads back to the same integer.
pub proof fn lemma_render_int_valid(i: int)
    ensures
        valid_number(render_int(i)),
        int_of_num_text(render_int(i)) == Some(i),
        render_int(i).len() >= 1,
        forall|t: int| 0 <= t < render_int(i).len() ==> is_num_char(#[trigger] render_int(i)[t]),
        is_digit_char(render_int(i)[0]) || render_int(i)[0] == '-',
{
    if i < 0 {
        let m = (-i) as nat;
        let d = dec_digits(m);
        lemma_dec_digits_all_digits(m);
        lemma_dec_digits_val(m);
        lemma_dec_digits_leading(m);
        let s = seq!['-'] + d;
        assert(render_int(i) == s);
        assert(s.skip(1) =~= d);
        // valid: leading digit of a negative rendering is never zero
        if d[0] == '0' {
            assert(m == 0) by {
                if m > 0 {
                    assert(d[0] != '0');
                }
            }
            assert(false);
        }
        lemma_vn_int_rest_digits(d.skip(1));
        assert(vn_int(d));
        assert(int_of_num_text(s) == Some(-digits_val(d)));
    } else {
        let m = i as nat;
        let d = dec_digits(m);
        lemma_dec_digits_all_digits(m);
        lemma_dec_digits_val(m);
        lemma_dec_digits_leading(m);
        assert(render_int(i) == d);
        if d[0] == '0' {
            assert(m == 0);
            assert(d =~= seq!['0']);
            assert(d.skip(1) =~= Seq::<char>::empty());
            assert(vn_int(d));
        } else {
            lemma_vn_int_rest_digits(d.skip(1));
            assert(vn_int(d));
        }
        assert(d[0] != '-');
    }
}

// --- executable helpers ---

/// Whether `c` is a decimal digit.
pub fn is_digit(c: char) -> (r: bool)
    ensures
        r == is_digit_char(c),
{
    let u = c as u32;
    48 <= u && u <= 57
}

/// Whether `c` may occur in a JSON number literal.
pub fn is_num_char_exec(c: char) -> (r: bool)
    ensures
        r == is_num_char(c),
{
    is_digit(c) || c == '-' || c == '+' || c == '.' || c == 'e' || c == 'E'
}

fn vn_exp_rest_exec(v: &Vec<char>, i: usize) -> (r: bool)
    requires
        i <= v.len(),
    ensures
        r == vn_exp_rest(v@.skip(i as int)),
    decreases v.len() - i,
{
    if i == v.len() {
        true
    } else {
        proof {
            lemma_skip_skip(v@, i as int, 1);
        }
        is_digit(v[i]) && vn_exp_rest_exec(v, i + 1)
    }
}

fn vn_exp_digits_exec(v: &Vec<char>, i: usize) -> (r: bool)
    requires
        i <= v.len(),
    ensures
        r == vn_exp_digits(v@.skip(i as int)),
{
    if i == v.len() {
        false
    } else {
        proof {
            lemma_skip_skip(v@, i as int, 1);
        }
        is_digit(v[i]) && vn_exp_rest_exec(v, i + 1)
    }
}

fn vn_exp_sign_exec(v: &Vec<char>, i: usize) -> (r: bool)
    requires
        i <= v.len(),
    ensures
        r == vn_exp_sign(v@.skip(i as int)),
{
    if i < v.len() && (v[i] == '+' || v[i] == '-') {
        proof {
            lemma_skip_skip(v@, i as int, 1);
        }
        vn_exp_digits_exec(v, i + 1)
    } else {
        vn_exp_digits_exec(v, i)
    }
}

fn vn_exp_exec(v: &Vec<char>, i: usize) -> (r: bool)
    requires
        i <= v.len(),
    ensures
        r == vn_exp(v@.skip(i as int)),
{
    if i == v.len() {
        true
    } else if v[i] == 'e' || v[i] == 'E' {
        proof {
            lemma_skip_skip(v@, i as int, 1);
        }
        vn_exp_sign_exec(v, i + 1)
    } else {
        false
    }
}

fn vn_frac_rest_exec(v: &Vec<char>, i: usize) -> (r: bool)
    requires
        i <= v.len(),
    ensures
        r == vn_frac_rest(v@.skip(i as int)),
    decreases v.len() - i,
{
    if i < v.len() && is_digit(v[i]) {
        proof {
            lemma_skip_skip(v@, i as int, 1);
        }
        vn_frac_rest_exec(v, i + 1)
    } else {
        vn_exp_exec(v, i)
    }
}

fn vn_frac_exec(v: &Vec<char>, i: usize) -> (r: bool)
    requires
        i <= v.len(),
    ensures
        r == vn_frac(v@.skip(i as int)),
{
    if i == v.len() {
        true
    } else if v[i] == '.' {
        if i + 1 < v.len() && is_digit(v[i + 1]) {
            proof {
                lemma_skip_skip(v@, i as int, 2);
            }
            vn_frac_rest_exec(v, i + 2)
        } else {
            false
        }
    } else {
        vn_exp_exec(v, i)
    }
}

fn vn_int_rest_exec(v: &Vec<char>, i: usize) -> (r: bool)
    requires
        i <= v.len(),
    ensures
        r == vn_int_rest(v@.skip(i as int)),
    decreases v.len() - i,
{
    if i < v.len() && is_digit(v[i]) {
        proof {
            lemma_skip_skip(v@, i as int, 1);
        }
        vn_int_rest_exec(v, i + 1)
    } else {
        vn_frac_exec(v, i)
    }
}

fn vn_int_exec(v: &Vec<char>, i: usize) -> (r: bool)
    requires
        i <= v.len(),
    ensures
        r == vn_int(v@.skip(i as int)),
{
    if i == v.len() {
        false
    } else if v[i] == '0' {
        proof {
            lemma_skip_skip(v@, i as int, 1);
        }
        vn_frac_exec(v, i + 1)
    } else if is_digit(v[i]) {
        proof {
            lemma_skip_skip(v@, i as int, 1);
        }
        vn_int_rest_exec(v, i + 1)
    } else {
        false
    }
}

/// Whether `v[i..]` is a complete, valid JSON number literal.
pub fn valid_number_exec(v: &Vec<char>, i: usize) -> (r: bool)
    requires
        i <= v.len(),
    ensures
        r == valid_number(v@.skip(i as int)),
{
    if i < v.len() && v[i] == '-' {
        proof {
            lemma_skip_skip(v@, i as int, 1);
        }
        vn_int_exec(v, i + 1)
    } else {
        vn_int_exec(v, i)
    }
}

/// Reads the digits `v[from..to]` as a `u64`; `None` when their value does
/// not fit.
pub fn digits_to_u64(v: &Vec<char>, from: usize, to: usize) -> (r: Option<u64>)
    requires
        from <= to <= v.len(),
        all_digits(v@.subrange(from as int, to as int)),
    ensures
        match r {
            Some(a) => a as int == digits_val(v@.subrange(from as int, to as int)),
            None => digits_val(v@.subrange(from as int, to as int)) > u64::MAX,
        },
{
    let ghost whole = v@.subrange(from as int, to as int);
    let mut acc: u64 = 0;
    let mut over: bool = false;
    let mut j: usize = from;
    while j < to
        invariant
            from <= j <= to <= v.len(),
            all_digits(whole),
            whole == v@.subrange(from as int, to as int),
            !over ==> acc as int == digits_val(whole.subrange(0, j - from)),
            over ==> digits_val(whole.subrange(0, j - from)) > u64::MAX,
        decreases to - j,
    {
        let ghost pre = whole.subrange(0, j - from);
        let ghost post = whole.subrange(0, j + 1 - from);
        proof {
            assert(post.drop_last() =~= pre);
            assert(post.last() == v@[j as int]);
            lemma_digits_val_nonneg(pre);
        }
        let c = v[j];
        assert(is_digit_char(c));
        let d: u64 = (c as u32 - 48) as u64;
        if over {
            proof {
                assert(digits_val(post) == digits_val(pre) * 10 + digit_value(v@[j as int]));
                assert(digits_val(pre) * 10 >= digits_val(pre)) by {
                    lemma_digits_val_nonneg(pre);
                }
            }
        } else if acc > 1844674407370955161u64 || (acc == 1844674407370955161u64 && d > 5) {
            over = true;
            proof {
                assert(digits_val(post) == digits_val(pre) * 10 + digit_value(v@[j as int]));
            }
        } else {
            acc = acc * 10 + d;
        }
        j = j + 1;
    }
    proof {
        assert(whole.subrange(0, (to - from) as int) =~= whole);
    }
    if over {
        None
    } else {
        Some(acc)
    }
}

/// Reads `v` as `str::parse::<i32>` would.
pub fn parse_int_i32(v: &Vec<char>) -> (r: Option<i32>)
    ensures
        match i32_of_text(v@) {
            Some(x) => r matches Some(y) && y as int == x,
            None => r is None,
        },
{
    let n = v.len();
    let (neg, start): (bool, usize) = if n > 0 && (v[0] == '-' || v[0] == '+') {
        (v[0] == '-', 1)
    } else {
        (false, 0)
    };
    let ghost d = if start == 1 { v@.skip(1) } else { v@ };
    if start >= n {
        proof {
            assert(str_int_parse(v@) is None);
        }
        return None;
    }
    let mut j: usize = start;
    while j < n
        invariant
            start <= 1,
            start <= j <= n == v.len(),
            start == 1 <==> n > 0 && (v@[0] == '-' || v@[0] == '+'),
            forall|t: int| start <= t < j ==> is_digit_char(#[trigger] v@[t]),
            d == if start == 1 { v@.skip(1) } else { v@ },
        decreases n - j,
    {
        if !is_digit(v[j]) {
            proof {
                if start == 1 {
                    lemma_skip_index(v@, 1, j - 1);
                }
                assert(d[j - start] == v@[j as int]);
                assert(!all_digits(d));
                assert(str_int_parse(v@) is None);
            }
            return None;
        }
        j = j + 1;
    }
    proof {
        assert(d =~= v@.subrange(start as int, n as int));
        assert(all_digits(d)) by {
            assert(forall|t: int| 0 <= t < d.len() ==> #[trigger] d[t] == v@[t + start]);
        }
        lemma_digits_val_nonneg(d);
        assert(str_int_parse(v@) == Some(if neg { -digits_val(d) } else { digits_val(d) }));
    }
    match digits_to_u64(v, start, n) {
        None => {
            None
        },
        Some(a) => {
            if neg {
                if a > 2147483648u64 {
                    None
                } else if a == 2147483648u64 {
                    Some(i32::MIN)
                } else {
                    Some(-(a as i32))
                }
            } else {
                if a > 2147483647u64 {
                    None
                } else {
                    Some(a as i32)
                }
            }
        },
    }
}

/// Reads a JSON number literal as `v` into an `i64` when it is a plain
/// integer in range; `None` otherwise.
pub fn num_text_to_i64(v: &Vec<char>) -> (r: Option<i64>)
    ensures
        match i64_of_num_text(v@) {
            Some(x) => r matches Some(y) && y as int == x,
            None => r is None,
        },
{
    let n = v.len();
    let (neg, start): (bool, usize) = if n > 0 && v[0] == '-' {
        (true, 1)
    } else {
        (false, 0)
    };
    let ghost d = if start == 1 { v@.skip(1) } else { v@ };
    if start >= n {
        proof {
            assert(int_of_num_text(v@) is None);
        }
        return None;
    }
    let mut j: usize = start;
    while j < n
        invariant
            start <= 1,
            start <= j <= n == v.len(),
            start == 1 <==> n > 0 && v@[0] == '-',
            forall|t: int| start <= t < j ==> is_digit_char(#[trigger] v@[t]),
            d == if start == 1 { v@.skip(1) } else { v@ },
        decreases n - j,
    {
        if !is_digit(v[j]) {
            proof {
                if start == 1 {
                    lemma_skip_index(v@, 1, j - 1);
                }
                assert(d[j - start] == v@[j as int]);
                assert(!all_digits(d));
                assert(int_of_num_text(v@) is None);
            }
            return None;
        }
        j = j + 1;
    }
    proof {
        assert(d =~= v@.subrange(start as int, n as int));
        assert(all_digits(d)) by {
            assert(forall|t: int| 0 <= t < d.len() ==> #[trigger] d[t] == v@[t + start]);
        }
        lemma_digits_val_nonneg(d);
        assert(int_of_num_text(v@) == Some(if neg { -digits_val(d) } else { digits_val(d) }));
    }
    match digits_to_u64(v, start, n) {
        None => {
            None
        },
        Some(a) => {
            if neg {
                if a > 9223372036854775808u64 {
                    None
                } else if a == 9223372036854775808u64 {
                    Some(i64::MIN)
                } else {
                    Some(-(a as i64))
                }
            } else {
                if a > 9223372036854775807u64 {
                    None
                } else {
                    Some(a as i64)
                }
            }
        },
    }
}

/// The decimal digits of `n`, most significant first.
pub fn u64_to_digits(n: u64) -> (r: Vec<char>)
    ensures
        r@ == dec_digits(n as nat),
{
    let mut rev: Vec<char> = Vec::new();
    let mut m: u64 = n;
    proof {
        assert(dec_digits(n as nat) + rev@.reverse() =~= dec_digits(n as nat));
    }
    loop
        invariant_except_break
            dec_digits(n as nat) == dec_digits(m as nat) + rev@.reverse(),
        ensures
            dec_digits(n as nat) == rev@.reverse(),
        decreases m,
    {
        let d: u8 = (m % 10) as u8;
        let c: char = match d {
            0 => '0',
            1 => '1',
            2 => '2',
            3 => '3',
            4 => '4',
            5 => '5',
            6 => '6',
            7 => '7',
            8 => '8',
            _ => '9',
        };
        assert(c == digit_char((m % 10) as int));
        let ghost old_rev = rev@;
        rev.push(c);
        proof {
            assert(rev@.reverse() =~= seq![c] + old_rev.reverse());
        }
        if m < 10 {
            proof {
                assert(dec_digits(m as nat) =~= seq![c]);
                assert(seq![c] + old_rev.reverse() =~= dec_digits(m as nat) + old_rev.reverse());
            }
            break;
        }
        proof {
            assert(dec_digits(m as nat) == dec_digits((m as nat) / 10).push(digit_char(
                ((m as nat) % 10) as int,
            )));
            assert(dec_digits((m as nat) / 10).push(c) =~= dec_digits((m as nat) / 10) + seq![c]);
            assert((dec_digits((m as nat) / 10) + seq![c]) + old_rev.reverse() =~= dec_digits(
                (m as nat) / 10,
            ) + (seq![c] + old_rev.reverse()));
            assert((m as nat) / 10 == ((m / 10) as nat));
        }
        m = m / 10;
    }
    let mut out: Vec<char> = Vec::new();
    let mut k: usize = rev.len();
    while k > 0
        invariant
            k <= rev.len(),
            out@ =~= rev@.subrange(k as int, rev.len() as int).reverse(),
        decreases k,
    {
        k = k - 1;
        let ghost before = out@;
        out.push(rev[k]);
        proof {
            assert(rev@.subrange(k as int, rev.len() as int).reverse() =~= before.push(
                rev@[k as int],
            ));
        }
    }
    proof {
        assert(rev@.subrange(0, rev.len() as int) =~= rev@);
    }
    out
}

/// The canonical decimal rendering of `i`.
pub fn i64_to_chars(i: i64) -> (r: Vec<char>)
    ensures
        r@ == render_int(i as int),
{
    if i < 0 {
        let mag: u64 = if i == i64::MIN {
            9223372036854775808u64
        } else {
            (-i) as u64
        };
        let digits = u64_to_digits(mag);
        let mut out: Vec<char> = Vec::new();
        out.push('-');
        let mut j: usize = 0;
        while j < digits.len()
            invariant
                j <= digits.len(),
                out@ =~= seq!['-'] + digits@.subrange(0, j as int),
            decreases digits.len() - j,
        {
            let ghost before = out@;
            out.push(digits[j]);
            proof {
                assert(seq!['-'] + digits@.subrange(0, j + 1 as int) =~= before.push(
                    digits@[j as int],
                ));
            }
            j = j + 1;
        }
        proof {
            assert(digits@.subrange(0, digits.len() as int) =~= digits@);
        }
        out
    } else {
        u64_to_digits(i as u64)
    }
}

} // verus!
