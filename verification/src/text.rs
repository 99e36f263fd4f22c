//! Character classification, token scanning and decimal formatting over
//! sequences of characters. Parsing works on a `Vec<char>` copy of the
//! input; rendering builds a `String` whose view is pinned to the
//! specification-level text functions below.
use vstd::prelude::*;

use crate::date::Instant;

verus! {

use vstd::string::*;

pub open spec fn is_digit(c: char) -> bool {
    '0' <= c <= '9'
}

pub open spec fn digit_val(c: char) -> int {
    c as int - 48
}

/// Decimal value of a digit character.
pub fn digit_val_x(c: char) -> (r: u32)
    requires
        is_digit(c),
    ensures
        r == digit_val(c),
{
    match c {
        '0' => 0,
        '1' => 1,
        '2' => 2,
        '3' => 3,
        '4' => 4,
        '5' => 5,
        '6' => 6,
        '7' => 7,
        '8' => 8,
        _ => 9,
    }
}

pub open spec fn is_space(c: char) -> bool {
    c == ' ' || c == '\t' || c == '\n' || c == '\r'
}

pub open spec fn is_letter(c: char) -> bool {
    ('A' <= c <= 'Z') || ('a' <= c <= 'z')
}

/// Lower-case code of an ASCII character; other characters keep their code.
pub open spec fn lower_code(c: char) -> int {
    if 'A' <= c <= 'Z' {
        c as int + 32
    } else {
        c as int
    }
}

/// Case-insensitive equality of two character sequences (ASCII folding).
pub open spec fn eq_ci(a: Seq<char>, b: Seq<char>) -> bool {
    a.len() == b.len() && forall|i: int| 0 <= i < a.len() ==> lower_code(a[i]) == lower_code(b[i])
}

/// First index at or after `i` that does not hold whitespace.
pub open spec fn skip_spaces(s: Seq<char>, i: int) -> int
    decreases s.len() - i,
{
    if 0 <= i < s.len() && is_space(s[i]) {
        skip_spaces(s, i + 1)
    } else {
        i
    }
}

/// First index at or after `i` that does not hold a decimal digit.
pub open spec fn digit_end(s: Seq<char>, i: int) -> int
    decreases s.len() - i,
{
    if 0 <= i < s.len() && is_digit(s[i]) {
        digit_end(s, i + 1)
    } else {
        i
    }
}

/// First index at or after `i` that does not hold an ASCII letter.
pub open spec fn letter_end(s: Seq<char>, i: int) -> int
    decreases s.len() - i,
{
    if 0 <= i < s.len() && is_letter(s[i]) {
        letter_end(s, i + 1)
    } else {
        i
    }
}

/// First index at or after `i` that holds a semicolon, or the end.
pub open spec fn semi_end(s: Seq<char>, i: int) -> int
    decreases s.len() - i,
{
    if 0 <= i < s.len() && s[i] != ';' {
        semi_end(s, i + 1)
    } else {
        i
    }
}

/// Numeric value of a sequence of decimal digits.
pub open spec fn digits_val(s: Seq<char>) -> int
    decreases s.len(),
{
    if s.len() == 0 {
        0
    } else {
        digits_val(s.drop_last()) * 10 + digit_val(s.last())
    }
}

/// `s` with leading and trailing whitespace removed.
pub open spec fn trim_spaces(s: Seq<char>) -> Seq<char> {
    let a = skip_spaces(s, 0);
    let b = rskip_spaces(s, s.len() as int);
    if a <= b {
        s.subrange(a, b)
    } else {
        Seq::empty()
    }
}

/// Last index at or before `j` such that everything from it on (up to `j`)
/// is whitespace-free on its right edge: the end of `s` with trailing
/// whitespace removed.
pub open spec fn rskip_spaces(s: Seq<char>, j: int) -> int
    decreases j,
{
    if 0 < j <= s.len() && is_space(s[j - 1]) {
        rskip_spaces(s, j - 1)
    } else {
        j
    }
}

pub proof fn lemma_skip_spaces_range(s: Seq<char>, i: int)
    requires
        0 <= i <= s.len(),
    ensures
        i <= skip_spaces(s, i) <= s.len(),
        forall|k: int| i <= k < skip_spaces(s, i) ==> is_space(s[k]),
        skip_spaces(s, i) < s.len() ==> !is_space(s[skip_spaces(s, i)]),
    decreases s.len() - i,
{
    if i < s.len() && is_space(s[i]) {
        lemma_skip_spaces_range(s, i + 1);
    }
}

pub proof fn lemma_digit_end_range(s: Seq<char>, i: int)
    requires
        0 <= i <= s.len(),
    ensures
        i <= digit_end(s, i) <= s.len(),
        forall|k: int| i <= k < digit_end(s, i) ==> is_digit(s[k]),
        digit_end(s, i) < s.len() ==> !is_digit(s[digit_end(s, i)]),
    decreases s.len() - i,
{
    if i < s.len() && is_digit(s[i]) {
        lemma_digit_end_range(s, i + 1);
    }
}

pub proof fn lemma_letter_end_range(s: Seq<char>, i: int)
    requires
        0 <= i <= s.len(),
    ensures
        i <= letter_end(s, i) <= s.len(),
        forall|k: int| i <= k < letter_end(s, i) ==> is_letter(s[k]),
        letter_end(s, i) < s.len() ==> !is_letter(s[letter_end(s, i)]),
    decreases s.len() - i,
{
    if i < s.len() && is_letter(s[i]) {
        lemma_letter_end_range(s, i + 1);
    }
}

pub proof fn lemma_rskip_spaces_range(s: Seq<char>, j: int)
    requires
        0 <= j <= s.len(),
    ensures
        0 <= rskip_spaces(s, j) <= j,
        forall|k: int| rskip_spaces(s, j) <= k < j ==> is_space(s[k]),
        rskip_spaces(s, j) > 0 ==> !is_space(s[rskip_spaces(s, j) - 1]),
    decreases j,
{
    if 0 < j && is_space(s[j - 1]) {
        lemma_rskip_spaces_range(s, j - 1);
    }
}

pub proof fn lemma_semi_end_range(s: Seq<char>, i: int)
    requires
        0 <= i <= s.len(),
    ensures
        i <= semi_end(s, i) <= s.len(),
        forall|k: int| i <= k < semi_end(s, i) ==> s[k] != ';',
        semi_end(s, i) < s.len() ==> s[semi_end(s, i)] == ';',
    decreases s.len() - i,
{
    if i < s.len() && s[i] != ';' {
        lemma_semi_end_range(s, i + 1);
    }
}

/// Digit sequences grow in value as they grow in length.
pub proof fn lemma_digits_val_prefix_le(s: Seq<char>, n: int)
    requires
        0 <= n <= s.len(),
        forall|i: int| 0 <= i < s.len() ==> is_digit(s[i]),
    ensures
        digits_val(s.subrange(0, n)) <= digits_val(s),
        digits_val(s) >= 0,
    decreases s.len() - n,
{
    if n == s.len() {
        assert(s.subrange(0, n) =~= s);
        lemma_digits_val_nonneg(s);
    } else {
        lemma_digits_val_prefix_le(s, n + 1);
        let p = s.subrange(0, n + 1);
        assert(p.drop_last() =~= s.subrange(0, n));
        lemma_digits_val_nonneg(s.subrange(0, n));
    }
}

pub proof fn lemma_digits_val_nonneg(s: Seq<char>)
    requires
        forall|i: int| 0 <= i < s.len() ==> is_digit(s[i]),
    ensures
        digits_val(s) >= 0,
    decreases s.len(),
{
    if s.len() > 0 {
        assert(forall|i: int| 0 <= i < s.drop_last().len() ==> is_digit(s.drop_last()[i]));
        lemma_digits_val_nonneg(s.drop_last());
    }
}

pub fn to_char_vec(s: &str) -> (v: Vec<char>)
    ensures
        v@ == s@,
{
    let n: usize = s.unicode_len();
    let mut v: Vec<char> = Vec::new();
    let mut i: usize = 0;
    while i < n
        invariant
            i <= n,
            n == s@.len(),
            v@ == s@.subrange(0, i as int),
        decreases n - i,
    {
        let c = s.get_char(i);
        v.push(c);
        proof {
            assert(v@ =~= s@.subrange(0, i + 1));
        }
        i = i + 1;
    }
    proof {
        assert(v@ =~= s@);
    }
    v
}

/// ASCII lower-case image of a character.
fn lower_char(c: char) -> (r: char)
    ensures
        r as int == lower_code(c),
{
    match c {
        'A' => 'a',
        'B' => 'b',
        'C' => 'c',
        'D' => 'd',
        'E' => 'e',
        'F' => 'f',
        'G' => 'g',
        'H' => 'h',
        'I' => 'i',
        'J' => 'j',
        'K' => 'k',
        'L' => 'l',
        'M' => 'm',
        'N' => 'n',
        'O' => 'o',
        'P' => 'p',
        'Q' => 'q',
        'R' => 'r',
        'S' => 's',
        'T' => 't',
        'U' => 'u',
        'V' => 'v',
        'W' => 'w',
        'X' => 'x',
        'Y' => 'y',
        'Z' => 'z',
        _ => c,
    }
}

/// Case-insensitive comparison of `v[from..to]` against a token.
pub fn range_eq_ci(v: &Vec<char>, from: usize, to: usize, t: &str) -> (r: bool)
    requires
        from <= to <= v@.len(),
    ensures
        r == eq_ci(v@.subrange(from as int, to as int), t@),
{
    let n: usize = t.unicode_len();
    if to - from != n {
        return false;
    }
    let mut i: usize = 0;
    while i < n
        invariant
            i <= n,
            n == t@.len(),
            from + n <= v@.len(),
            to == from + n,
            forall|k: int|
                0 <= k < i ==> lower_code(v@.subrange(from as int, to as int)[k]) == lower_code(
                    t@[k],
                ),
        decreases n - i,
    {
        let a = lower_char(v[from + i]);
        let b = lower_char(t.get_char(i));
        if a != b {
            return false;
        }
        i = i + 1;
    }
    true
}

/// Exact (case-sensitive) comparison of `v[from..to]` against a token.
pub fn range_eq(v: &Vec<char>, from: usize, to: usize, t: &str) -> (r: bool)
    requires
        from <= to <= v@.len(),
    ensures
        r == (v@.subrange(from as int, to as int) == t@),
{
    let n: usize = t.unicode_len();
    if to - from != n {
        return false;
    }
    let mut i: usize = 0;
    while i < n
        invariant
            i <= n,
            n == t@.len(),
            from + n <= v@.len(),
            to == from + n,
            forall|k: int| 0 <= k < i ==> v@.subrange(from as int, to as int)[k] == t@[k],
        decreases n - i,
    {
        let a: char = v[from + i];
        let b: char = t.get_char(i);
        if a != b {
            return false;
        }
        i = i + 1;
    }
    proof {
        assert(v@.subrange(from as int, to as int) =~= t@);
    }
    true
}

pub fn skip_spaces_x(v: &Vec<char>, i: usize) -> (r: usize)
    requires
        i <= v@.len(),
    ensures
        r == skip_spaces(v@, i as int),
        i <= r <= v@.len(),
{
    let mut j: usize = i;
    while j < v.len() && (v[j] == ' ' || v[j] == '\t' || v[j] == '\n' || v[j] == '\r')
        invariant
            i <= j <= v@.len(),
            skip_spaces(v@, i as int) == skip_spaces(v@, j as int),
        decreases v@.len() - j,
    {
        j = j + 1;
    }
    j
}

pub fn digit_end_x(v: &Vec<char>, i: usize) -> (r: usize)
    requires
        i <= v@.len(),
    ensures
        r == digit_end(v@, i as int),
        i <= r <= v@.len(),
{
    let mut j: usize = i;
    while j < v.len() && v[j] >= '0' && v[j] <= '9'
        invariant
            i <= j <= v@.len(),
            digit_end(v@, i as int) == digit_end(v@, j as int),
        decreases v@.len() - j,
    {
        j = j + 1;
    }
    j
}

pub fn letter_end_x(v: &Vec<char>, i: usize) -> (r: usize)
    requires
        i <= v@.len(),
    ensures
        r == letter_end(v@, i as int),
        i <= r <= v@.len(),
{
    let mut j: usize = i;
    while j < v.len() && ((v[j] >= 'A' && v[j] <= 'Z') || (v[j] >= 'a' && v[j] <= 'z'))
        invariant
            i <= j <= v@.len(),
            letter_end(v@, i as int) == letter_end(v@, j as int),
        decreases v@.len() - j,
    {
        j = j + 1;
    }
    j
}

pub fn semi_end_x(v: &Vec<char>, i: usize) -> (r: usize)
    requires
        i <= v@.len(),
    ensures
        r == semi_end(v@, i as int),
        i <= r <= v@.len(),
{
    let mut j: usize = i;
    while j < v.len() && v[j] != ';'
        invariant
            i <= j <= v@.len(),
            semi_end(v@, i as int) == semi_end(v@, j as int),
        decreases v@.len() - j,
    {
        j = j + 1;
    }
    j
}

pub fn rskip_spaces_x(v: &Vec<char>, j: usize) -> (r: usize)
    requires
        j <= v@.len(),
    ensures
        r == rskip_spaces(v@, j as int),
        r <= j,
{
    let mut k: usize = j;
    while k > 0 && (v[k - 1] == ' ' || v[k - 1] == '\t' || v[k - 1] == '\n' || v[k - 1] == '\r')
        invariant
            k <= j <= v@.len(),
            rskip_spaces(v@, j as int) == rskip_spaces(v@, k as int),
        decreases k,
    {
        k = k - 1;
    }
    k
}

/// A copy of the window `v[from..to]`.
pub fn subvec(v: &Vec<char>, from: usize, to: usize) -> (r: Vec<char>)
    requires
        from <= to <= v@.len(),
    ensures
        r@ == v@.subrange(from as int, to as int),
{
    let mut r: Vec<char> = Vec::new();
    let mut i: usize = from;
    while i < to
        invariant
            from <= i <= to <= v@.len(),
            r@ == v@.subrange(from as int, i as int),
        decreases to - i,
    {
        r.push(v[i]);
        proof {
            assert(r@ =~= v@.subrange(from as int, i + 1));
        }
        i = i + 1;
    }
    r
}

/// A trimmed copy of a character vector.
pub fn trim_vec(v: &Vec<char>) -> (r: Vec<char>)
    ensures
        r@ == trim_spaces(v@),
{
    let n = v.len();
    let a = skip_spaces_x(v, 0);
    let b = rskip_spaces_x(v, n);
    if a <= b {
        subvec(v, a, b)
    } else {
        let r: Vec<char> = Vec::new();
        proof {
            assert(r@ =~= trim_spaces(v@));
        }
        r
    }
}

/// A trimmed copy of a whole string.
pub fn trimmed_chars(s: &str) -> (r: Vec<char>)
    ensures
        r@ == trim_spaces(s@),
{
    let v = to_char_vec(s);
    let n = v.len();
    let a = skip_spaces_x(&v, 0);
    let b = rskip_spaces_x(&v, n);
    if a <= b {
        subvec(&v, a, b)
    } else {
        let r: Vec<char> = Vec::new();
        proof {
            assert(r@ =~= trim_spaces(s@));
        }
        r
    }
}

/// Numeric value of the digit run `v[from..to]`, or `None` when the value
/// does not fit in `u32`.
pub fn digits_to_u32(v: &Vec<char>, from: usize, to: usize) -> (r: Option<u32>)
    requires
        from <= to <= v@.len(),
        forall|k: int| from <= k < to ==> is_digit(v@[k]),
    ensures
        ({
            let val = digits_val(v@.subrange(from as int, to as int));
            match r {
                Some(n) => n == val,
                None => val > u32::MAX,
            }
        }),
{
    let ghost s = v@.subrange(from as int, to as int);
    proof {
        assert(forall|i: int| 0 <= i < s.len() ==> is_digit(s[i]));
    }
    let mut acc: u32 = 0;
    let mut i: usize = from;
    while i < to
        invariant
            from <= i <= to <= v@.len(),
            s == v@.subrange(from as int, to as int),
            forall|k: int| 0 <= k < s.len() ==> is_digit(s[k]),
            acc == digits_val(s.subrange(0, i - from)),
        decreases to - i,
    {
        let c: char = v[i];
        proof {
            assert(s[i - from] == v@[i as int]);
            assert(is_digit(v@[i as int]));
        }
        let d: u32 = digit_val_x(c);
        proof {
            assert(s.subrange(0, i + 1 - from).drop_last() =~= s.subrange(0, i - from));
            assert(s.subrange(0, i + 1 - from).last() == c);
        }
        if acc > (u32::MAX - d) / 10 {
            proof {
                lemma_digits_val_nonneg(s.subrange(0, i - from));
                assert(digits_val(s.subrange(0, i + 1 - from)) > u32::MAX) by (nonlinear_arith)
                    requires
                        digits_val(s.subrange(0, i + 1 - from)) == acc * 10 + d,
                        acc > (u32::MAX - d) / 10,
                        0 <= d <= 9,
                        acc >= 0,
                ;
                lemma_digits_val_prefix_le(s, i + 1 - from);
            }
            return None;
        }
        proof {
            assert(acc * 10 + d <= u32::MAX) by (nonlinear_arith)
                requires
                    acc <= (u32::MAX - d) / 10,
                    0 <= d <= 9,
            ;
        }
        acc = acc * 10 + d;
        i = i + 1;
    }
    proof {
        assert(s.subrange(0, to - from) =~= s);
    }
    Some(acc)
}

// ---------------------------------------------------------------------------
// Decimal formatting
// ---------------------------------------------------------------------------
pub open spec fn digit_char(d: int) -> char {
    if d == 0 {
        '0'
    } else if d == 1 {
        '1'
    } else if d == 2 {
        '2'
    } else if d == 3 {
        '3'
    } else if d == 4 {
        '4'
    } else if d == 5 {
        '5'
    } else if d == 6 {
        '6'
    } else if d == 7 {
        '7'
    } else if d == 8 {
        '8'
    } else {
        '9'
    }
}

/// Unpadded decimal text of a non-negative number.
pub open spec fn dec_text(n: int) -> Seq<char>
    decreases n,
{
    if n <= 9 {
        seq![digit_char(n)]
    } else {
        dec_text(n / 10).push(digit_char(n % 10))
    }
}

pub open spec fn two_digit_text(n: int) -> Seq<char> {
    seq![digit_char(n / 10), digit_char(n % 10)]
}

pub open spec fn four_digit_text(n: int) -> Seq<char> {
    seq![
        digit_char(n / 1000),
        digit_char(n / 100 % 10),
        digit_char(n / 10 % 10),
        digit_char(n % 10),
    ]
}

/// The fixed-width calendar timestamp of an instant.
pub open spec fn instant_text(i: Instant) -> Seq<char> {
    four_digit_text(i.year as int) + seq!['-'] + two_digit_text(i.month as int) + seq!['-']
        + two_digit_text(i.day as int) + seq![' '] + two_digit_text(i.hour as int) + seq![':']
        + two_digit_text(i.minute as int) + seq![':'] + two_digit_text(i.second as int)
}

fn digit_str(d: u32) -> (r: &'static str)
    requires
        d <= 9,
    ensures
        r@ == seq![digit_char(d as int)],
{
    proof {
        reveal_strlit("0");
        reveal_strlit("1");
        reveal_strlit("2");
        reveal_strlit("3");
        reveal_strlit("4");
        reveal_strlit("5");
        reveal_strlit("6");
        reveal_strlit("7");
        reveal_strlit("8");
        reveal_strlit("9");
    }
    if d == 0 {
        "0"
    } else if d == 1 {
        "1"
    } else if d == 2 {
        "2"
    } else if d == 3 {
        "3"
    } else if d == 4 {
        "4"
    } else if d == 5 {
        "5"
    } else if d == 6 {
        "6"
    } else if d == 7 {
        "7"
    } else if d == 8 {
        "8"
    } else {
        "9"
    }
}

pub fn push_two_digits(s: &mut String, n: u32)
    requires
        n <= 99,
    ensures
        final(s)@ == old(s)@ + two_digit_text(n as int),
{
    s.append(digit_str(n / 10));
    s.append(digit_str(n % 10));
    proof {
        assert(s@ =~= old(s)@ + two_digit_text(n as int));
    }
}

pub fn push_four_digits(s: &mut String, n: u32)
    requires
        n <= 9999,
    ensures
        final(s)@ == old(s)@ + four_digit_text(n as int),
{
    s.append(digit_str(n / 1000));
    s.append(digit_str(n / 100 % 10));
    s.append(digit_str(n / 10 % 10));
    s.append(digit_str(n % 10));
    proof {
        assert(s@ =~= old(s)@ + four_digit_text(n as int));
    }
}

/// Append the unpadded decimal text of `n`.
pub fn push_decimal(s: &mut String, n: u64)
    ensures
        final(s)@ == old(s)@ + dec_text(n as int),
    decreases n,
{
    if n <= 9 {
        s.append(digit_str(n as u32));
    } else {
        proof {
            assert(n as int / 10 < n as int) by (nonlinear_arith)
                requires
                    n >= 10,
            ;
        }
        push_decimal(s, n / 10);
        s.append(digit_str((n % 10) as u32));
        proof {
            assert(s@ =~= old(s)@ + dec_text(n as int));
        }
    }
}

/// Decimal text of a possibly negative number.
pub open spec fn signed_dec_text(n: int) -> Seq<char> {
    if n < 0 {
        "-"@ + dec_text(-n)
    } else {
        dec_text(n)
    }
}

pub fn push_signed_decimal(s: &mut String, n: i64)
    requires
        n > i64::MIN,
    ensures
        final(s)@ == old(s)@ + signed_dec_text(n as int),
{
    if n < 0 {
        s.append("-");
        push_decimal(s, (-n) as u64);
        proof {
            assert(s@ =~= old(s)@ + signed_dec_text(n as int));
        }
    } else {
        push_decimal(s, n as u64);
    }
}

/// Fixed-width `YYYY-MM-DD HH:MM:SS` text of an instant.
pub fn push_instant(s: &mut String, i: &Instant)
    requires
        i.wf(),
    ensures
        final(s)@ == old(s)@ + instant_text(*i),
{
    push_four_digits(s, i.year);
    s.append("-");
    push_two_digits(s, i.month);
    s.append("-");
    push_two_digits(s, i.day);
    s.append(" ");
    push_two_digits(s, i.hour);
    s.append(":");
    push_two_digits(s, i.minute);
    s.append(":");
    push_two_digits(s, i.second);
    proof {
        reveal_strlit("-");
        reveal_strlit(" ");
        reveal_strlit(":");
        assert(s@ =~= old(s)@ + instant_text(*i));
    }
}

} // verus!
