//! Character-level helpers: line cleanliness, the accent substitution
//! table, padding, decimal and roman numeral formatting, truncation.

use vstd::prelude::*;
use vstd::string::StrSliceExecFns;

verus! {

/// A character that may appear inside a buffered line: neither a line
/// break nor a form feed, the two characters that delimit the output's
/// line and page structure.
pub open spec fn clean_char(c: char) -> bool {
    c != '\n' && c != '\x0C'
}

/// A piece of text that can stand as one line of output.
pub open spec fn clean(s: Seq<char>) -> bool {
    forall|i: int| 0 <= i < s.len() ==> clean_char(#[trigger] s[i])
}

/// The fixed transliteration table: a handful of accented characters
/// are written out as their two-letter ASCII equivalents; every other
/// character stands for itself.
pub open spec fn translit_char(c: char) -> Seq<char> {
    if c == '\u{00C4}' {
        "AE"@
    } else if c == '\u{00E4}' {
        "ae"@
    } else if c == '\u{00D6}' {
        "OE"@
    } else if c == '\u{00F6}' {
        "oe"@
    } else if c == '\u{00DC}' {
        "UE"@
    } else if c == '\u{00FC}' {
        "ue"@
    } else if c == '\u{00DF}' {
        "ss"@
    } else {
        seq![c]
    }
}

/// The transliteration pass over a whole line.
pub open spec fn translit(s: Seq<char>) -> Seq<char>
    decreases s.len(),
{
    if s.len() == 0 {
        Seq::empty()
    } else {
        translit_char(s[0]) + translit(s.drop_first())
    }
}

pub proof fn lemma_translit_concat(a: Seq<char>, b: Seq<char>)
    ensures
        translit(a + b) == translit(a) + translit(b),
    decreases a.len(),
{
    if a.len() == 0 {
        assert(a + b =~= b);
        assert(translit(a) + translit(b) =~= translit(b));
    } else {
        assert((a + b).drop_first() =~= a.drop_first() + b);
        lemma_translit_concat(a.drop_first(), b);
        assert(translit(a + b) =~= translit(a) + translit(b));
    }
}

/// Substituted text is clean whenever its source is: the table's
/// replacements are plain letters.
pub proof fn lemma_translit_clean(s: Seq<char>)
    requires
        clean(s),
    ensures
        clean(translit(s)),
    decreases s.len(),
{
    reveal_strlit("AE");
    reveal_strlit("ae");
    reveal_strlit("OE");
    reveal_strlit("oe");
    reveal_strlit("UE");
    reveal_strlit("ue");
    reveal_strlit("ss");
    if s.len() != 0 {
        assert(clean(s.drop_first()));
        lemma_translit_clean(s.drop_first());
        assert(clean_char(s[0]));
        assert(clean(translit_char(s[0])));
        assert forall|i: int| 0 <= i < translit(s).len() implies clean_char(
            #[trigger] translit(s)[i],
        ) by {
            let head = translit_char(s[0]);
            if i < head.len() {
                assert(translit(s)[i] == head[i]);
            } else {
                assert(translit(s)[i] == translit(s.drop_first())[i - head.len()]);
            }
        }
    }
}

pub proof fn lemma_clean_concat(a: Seq<char>, b: Seq<char>)
    requires
        clean(a),
        clean(b),
    ensures
        clean(a + b),
{
    assert forall|i: int| 0 <= i < (a + b).len() implies clean_char(#[trigger] (a + b)[i]) by {
        if i < a.len() {
            assert((a + b)[i] == a[i]);
        } else {
            assert((a + b)[i] == b[i - a.len()]);
        }
    }
}

/// Applies the transliteration pass: writes out the table's accented
/// characters as their ASCII equivalents.
pub fn replace_invalid_asciis(input: &str) -> (r: String)
    ensures
        r@ == translit(input@),
{
    let n = input.unicode_len();
    let mut r = String::new();
    let mut i: usize = 0;
    while i < n
        invariant
            i <= n,
            n == input@.len(),
            r@ == translit(input@.take(i as int)),
        decreases n - i,
    {
        let c = input.get_char(i);
        if c == '\u{00C4}' {
            r.append("AE");
        } else if c == '\u{00E4}' {
            r.append("ae");
        } else if c == '\u{00D6}' {
            r.append("OE");
        } else if c == '\u{00F6}' {
            r.append("oe");
        } else if c == '\u{00DC}' {
            r.append("UE");
        } else if c == '\u{00FC}' {
            r.append("ue");
        } else if c == '\u{00DF}' {
            r.append("ss");
        } else {
            r.push(c);
        }
        proof {
            let cc = input@[i as int];
            lemma_translit_concat(input@.take(i as int), seq![cc]);
            assert(input@.take(i + 1) =~= input@.take(i as int) + seq![cc]);
            assert(seq![cc].drop_first() =~= Seq::<char>::empty());
            assert(translit(seq![cc]) == translit_char(seq![cc][0]) + translit(
                seq![cc].drop_first(),
            ));
            assert(seq![cc][0] == cc);
            assert(translit(seq![cc]) =~= translit_char(cc));
            assert(r@ =~= translit(input@.take(i + 1)));
        }
        i = i + 1;
    }
    proof {
        assert(input@.take(n as int) =~= input@);
    }
    r
}

/// `n` spaces (none when `n` is negative).
pub open spec fn spaces(n: int) -> Seq<char> {
    Seq::new(if n < 0 { 0 } else { n as nat }, |i: int| ' ')
}

pub proof fn lemma_clean_spaces(n: int)
    ensures
        clean(spaces(n)),
{
}

/// Builds a run of spaces.
pub fn make_spaces(n: usize) -> (r: String)
    ensures
        r@ == spaces(n as int),
{
    let mut r = String::new();
    let mut i: usize = 0;
    while i < n
        invariant
            i <= n,
            r@ == spaces(i as int),
        decreases n - i,
    {
        r.push(' ');
        i = i + 1;
        assert(r@ =~= spaces(i as int));
    }
    r
}

/// The decimal digit for one value `0 <= d <= 9`.
pub open spec fn digit_char(d: int) -> char {
    if d == 0 {
        '0'
    } else if d == 1 {
        '1'
    } else if d == 2 {
        '2'
    } else if d == 3 {
        '3'
    } else if d == 4 {
        '4'
    } else if d == 5 {
        '5'
    } else if d == 6 {
        '6'
    } else if d == 7 {
        '7'
    } else if d == 8 {
        '8'
    } else {
        '9'
    }
}

/// The usual decimal rendering of a non-negative integer.
pub open spec fn dec_spec(n: int) -> Seq<char>
    recommends
        n >= 0,
    decreases n,
{
    if n <= 9 {
        seq![digit_char(n)]
    } else {
        dec_spec(n / 10).push(digit_char(n % 10))
    }
}

pub proof fn lemma_dec_clean(n: int)
    ensures
        clean(dec_spec(n)),
    decreases n,
{
    if n <= 9 {
    } else {
        lemma_dec_clean(n / 10);
    }
}

fn exec_digit_char(d: u128) -> (c: char)
    requires
        d <= 9,
    ensures
        c == digit_char(d as int),
{
    if d == 0 {
        '0'
    } else if d == 1 {
        '1'
    } else if d == 2 {
        '2'
    } else if d == 3 {
        '3'
    } else if d == 4 {
        '4'
    } else if d == 5 {
        '5'
    } else if d == 6 {
        '6'
    } else if d == 7 {
        '7'
    } else if d == 8 {
        '8'
    } else {
        '9'
    }
}

/// Formats a number in decimal.
pub fn decimal_string(n: u128) -> (s: String)
    ensures
        s@ == dec_spec(n as int),
    decreases n,
{
    if n <= 9 {
        let mut s = String::new();
        s.push(exec_digit_char(n));
        assert(s@ =~= dec_spec(n as int));
        s
    } else {
        let mut s = decimal_string(n / 10);
        s.push(exec_digit_char(n % 10));
        s
    }
}

/// Classical subtractive roman numerals, uppercase; empty for values
/// below one.
pub open spec fn roman_upper_spec(n: int) -> Seq<char>
    decreases n,
{
    if n <= 0 {
        Seq::empty()
    } else if n >= 1000 {
        "M"@ + roman_upper_spec(n - 1000)
    } else if n >= 900 {
        "CM"@ + roman_upper_spec(n - 900)
    } else if n >= 500 {
        "D"@ + roman_upper_spec(n - 500)
    } else if n >= 400 {
        "CD"@ + roman_upper_spec(n - 400)
    } else if n >= 100 {
        "C"@ + roman_upper_spec(n - 100)
    } else if n >= 90 {
        "XC"@ + roman_upper_spec(n - 90)
    } else if n >= 50 {
        "L"@ + roman_upper_spec(n - 50)
    } else if n >= 40 {
        "XL"@ + roman_upper_spec(n - 40)
    } else if n >= 10 {
        "X"@ + roman_upper_spec(n - 10)
    } else if n >= 9 {
        "IX"@ + roman_upper_spec(n - 9)
    } else if n >= 5 {
        "V"@ + roman_upper_spec(n - 5)
    } else if n >= 4 {
        "IV"@ + roman_upper_spec(n - 4)
    } else {
        "I"@ + roman_upper_spec(n - 1)
    }
}

/// Classical subtractive roman numerals, lowercase.
pub open spec fn roman_lower_spec(n: int) -> Seq<char>
    decreases n,
{
    if n <= 0 {
        Seq::empty()
    } else if n >= 1000 {
        "m"@ + roman_lower_spec(n - 1000)
    } else if n >= 900 {
        "cm"@ + roman_lower_spec(n - 900)
    } else if n >= 500 {
        "d"@ + roman_lower_spec(n - 500)
    } else if n >= 400 {
        "cd"@ + roman_lower_spec(n - 400)
    } else if n >= 100 {
        "c"@ + roman_lower_spec(n - 100)
    } else if n >= 90 {
        "xc"@ + roman_lower_spec(n - 90)
    } else if n >= 50 {
        "l"@ + roman_lower_spec(n - 50)
    } else if n >= 40 {
        "xl"@ + roman_lower_spec(n - 40)
    } else if n >= 10 {
        "x"@ + roman_lower_spec(n - 10)
    } else if n >= 9 {
        "ix"@ + roman_lower_spec(n - 9)
    } else if n >= 5 {
        "v"@ + roman_lower_spec(n - 5)
    } else if n >= 4 {
        "iv"@ + roman_lower_spec(n - 4)
    } else {
        "i"@ + roman_lower_spec(n - 1)
    }
}

proof fn lemma_roman_lits_clean()
    ensures
        clean("M"@) && clean("CM"@) && clean("D"@) && clean("CD"@) && clean("C"@) && clean("XC"@)
            && clean("L"@) && clean("XL"@) && clean("X"@) && clean("IX"@) && clean("V"@) && clean(
            "IV"@,
        ) && clean("I"@),
        clean("m"@) && clean("cm"@) && clean("d"@) && clean("cd"@) && clean("c"@) && clean("xc"@)
            && clean("l"@) && clean("xl"@) && clean("x"@) && clean("ix"@) && clean("v"@) && clean(
            "iv"@,
        ) && clean("i"@),
{
    reveal_strlit("M");
    reveal_strlit("CM");
    reveal_strlit("D");
    reveal_strlit("CD");
    reveal_strlit("C");
    reveal_strlit("XC");
    reveal_strlit("L");
    reveal_strlit("XL");
    reveal_strlit("X");
    reveal_strlit("IX");
    reveal_strlit("V");
    reveal_strlit("IV");
    reveal_strlit("I");
    reveal_strlit("m");
    reveal_strlit("cm");
    reveal_strlit("d");
    reveal_strlit("cd");
    reveal_strlit("c");
    reveal_strlit("xc");
    reveal_strlit("l");
    reveal_strlit("xl");
    reveal_strlit("x");
    reveal_strlit("ix");
    reveal_strlit("v");
    reveal_strlit("iv");
    reveal_strlit("i");
}

pub proof fn lemma_roman_clean(n: int)
    ensures
        clean(roman_upper_spec(n)),
        clean(roman_lower_spec(n)),
    decreases n,
{
    lemma_roman_lits_clean();
    if n <= 0 {
    } else {
        if n >= 1000 {
            lemma_roman_clean(n - 1000);
        } else if n >= 900 {
            lemma_roman_clean(n - 900);
        } else if n >= 500 {
            lemma_roman_clean(n - 500);
        } else if n >= 400 {
            lemma_roman_clean(n - 400);
        } else if n >= 100 {
            lemma_roman_clean(n - 100);
        } else if n >= 90 {
            lemma_roman_clean(n - 90);
        } else if n >= 50 {
            lemma_roman_clean(n - 50);
        } else if n >= 40 {
            lemma_roman_clean(n - 40);
        } else if n >= 10 {
            lemma_roman_clean(n - 10);
        } else if n >= 9 {
            lemma_roman_clean(n - 9);
        } else if n >= 5 {
            lemma_roman_clean(n - 5);
        } else if n >= 4 {
            lemma_roman_clean(n - 4);
        } else {
            lemma_roman_clean(n - 1);
        }
        assert forall|i: int| 0 <= i < roman_upper_spec(n).len() implies clean_char(
            #[trigger] roman_upper_spec(n)[i],
        ) by {}
        assert forall|i: int| 0 <= i < roman_lower_spec(n).len() implies clean_char(
            #[trigger] roman_lower_spec(n)[i],
        ) by {}
    }
}

pub fn roman_upper(n: u128) -> (s: String)
    ensures
        s@ == roman_upper_spec(n as int),
    decreases n,
{
    if n == 0 {
        let s = String::new();
        assert(s@ =~= roman_upper_spec(0));
        s
    } else {
        let (lit, sub): (&str, u128) = if n >= 1000 {
            ("M", 1000)
        } else if n >= 900 {
            ("CM", 900)
        } else if n >= 500 {
            ("D", 500)
        } else if n >= 400 {
            ("CD", 400)
        } else if n >= 100 {
            ("C", 100)
        } else if n >= 90 {
            ("XC", 90)
        } else if n >= 50 {
            ("L", 50)
        } else if n >= 40 {
            ("XL", 40)
        } else if n >= 10 {
            ("X", 10)
        } else if n >= 9 {
            ("IX", 9)
        } else if n >= 5 {
            ("V", 5)
        } else if n >= 4 {
            ("IV", 4)
        } else {
            ("I", 1)
        };
        let mut s = lit.to_owned();
        let rest = roman_upper(n - sub);
        s.append(rest.as_str());
        s
    }
}

pub fn roman_lower(n: u128) -> (s: String)
    ensures
        s@ == roman_lower_spec(n as int),
    decreases n,
{
    if n == 0 {
        let s = String::new();
        assert(s@ =~= roman_lower_spec(0));
        s
    } else {
        let (lit, sub): (&str, u128) = if n >= 1000 {
            ("m", 1000)
        } else if n >= 900 {
            ("cm", 900)
        } else if n >= 500 {
            ("d", 500)
        } else if n >= 400 {
            ("cd", 400)
        } else if n >= 100 {
            ("c", 100)
        } else if n >= 90 {
            ("xc", 90)
        } else if n >= 50 {
            ("l", 50)
        } else if n >= 40 {
            ("xl", 40)
        } else if n >= 10 {
            ("x", 10)
        } else if n >= 9 {
            ("ix", 9)
        } else if n >= 5 {
            ("v", 5)
        } else if n >= 4 {
            ("iv", 4)
        } else {
            ("i", 1)
        };
        let mut s = lit.to_owned();
        let rest = roman_lower(n - sub);
        s.append(rest.as_str());
        s
    }
}

/// Uppercase roman rendering, with the historical convention that zero
/// is written as the digit "0".
pub open spec fn int_to_roman_spec(n: int) -> Seq<char> {
    if n == 0 {
        "0"@
    } else {
        roman_upper_spec(n)
    }
}

/// Formats a number as an uppercase roman numeral ("0" for zero).
pub fn int_to_roman(num: u32) -> (s: String)
    ensures
        s@ == int_to_roman_spec(num as int),
{
    if num == 0 {
        "0".to_owned()
    } else {
        roman_upper(num as u128)
    }
}

/// Formats a number as a lowercase roman numeral ("0" for zero).
pub fn int_to_roman_lower(num: u32) -> (s: String)
    ensures
        num == 0 ==> s@ == "0"@,
        num > 0 ==> s@ == roman_lower_spec(num as int),
{
    if num == 0 {
        "0".to_owned()
    } else {
        roman_lower(num as u128)
    }
}

/// The first `width` characters of `s`; all of `s` when it is shorter.
pub open spec fn take_left(s: Seq<char>, width: int) -> Seq<char> {
    if width < 0 {
        Seq::empty()
    } else if s.len() <= width {
        s
    } else {
        s.take(width)
    }
}

pub proof fn lemma_take_left_clean(s: Seq<char>, width: int)
    requires
        clean(s),
    ensures
        clean(take_left(s, width)),
{
    assert forall|i: int| 0 <= i < take_left(s, width).len() implies clean_char(
        #[trigger] take_left(s, width)[i],
    ) by {
        assert(take_left(s, width)[i] == s[i]);
    }
}

/// Keeps at most `width` leading characters of `s`.
pub fn truncate_to_width_left(s: &str, width: usize) -> (r: String)
    ensures
        r@ == take_left(s@, width as int),
{
    let n = s.unicode_len();
    let limit = if n <= width {
        n
    } else {
        width
    };
    let mut r = String::new();
    let mut i: usize = 0;
    while i < limit
        invariant
            i <= limit,
            limit <= n,
            n == s@.len(),
            limit == if n <= width {
                n as int
            } else {
                width as int
            },
            r@ == s@.take(i as int),
        decreases limit - i,
    {
        r.push(s.get_char(i));
        i = i + 1;
        assert(r@ =~= s@.take(i as int));
    }
    assert(r@ =~= take_left(s@, width as int));
    r
}

/// Shortens `s` to at most `max_len` characters.
pub fn abbreviate(s: &str, max_len: usize) -> (r: String)
    ensures
        r@ == take_left(s@, max_len as int),
{
    if s.unicode_len() <= max_len {
        s.to_owned()
    } else {
        truncate_to_width_left(s, max_len)
    }
}

/// The English month names, indexed one through twelve.
pub open spec fn month_name_spec(m: int) -> Seq<char> {
    if m == 1 {
        "January"@
    } else if m == 2 {
        "February"@
    } else if m == 3 {
        "March"@
    } else if m == 4 {
        "April"@
    } else if m == 5 {
        "May"@
    } else if m == 6 {
        "June"@
    } else if m == 7 {
        "July"@
    } else if m == 8 {
        "August"@
    } else if m == 9 {
        "September"@
    } else if m == 10 {
        "October"@
    } else if m == 11 {
        "November"@
    } else {
        "December"@
    }
}

pub proof fn lemma_month_clean(m: int)
    ensures
        clean(month_name_spec(m)),
{
    reveal_strlit("January");
    reveal_strlit("February");
    reveal_strlit("March");
    reveal_strlit("April");
    reveal_strlit("May");
    reveal_strlit("June");
    reveal_strlit("July");
    reveal_strlit("August");
    reveal_strlit("September");
    reveal_strlit("October");
    reveal_strlit("November");
    reveal_strlit("December");
}

/// The English name of month `m` (one through twelve).
pub fn month_name(m: u8) -> (r: &'static str)
    requires
        1 <= m <= 12,
    ensures
        r@ == month_name_spec(m as int),
{
    match m {
        1 => "January",
        2 => "February",
        3 => "March",
        4 => "April",
        5 => "May",
        6 => "June",
        7 => "July",
        8 => "August",
        9 => "September",
        10 => "October",
        11 => "November",
        _ => "December",
    }
}

/// Left padding used to center text of display width `l` on a line of
/// width `w`: half the slack, rounded up; none when the text is wider
/// than the line.
pub open spec fn center_pad(w: int, l: int) -> int {
    if l <= w {
        (w - l + 1) / 2
    } else {
        0
    }
}

/// Centering pads with the ceiling of half the slack: `2 * pad` equals
/// `w - l` when the slack is even and `w - l + 1` when it is odd.
pub proof fn lemma_center_pad_is_ceil(w: int, l: int)
    requires
        0 <= l <= w,
    ensures
        center_pad(w, l) == (w - l + 1) / 2,
        w - l <= 2 * center_pad(w, l) <= w - l + 1,
        (w - l) % 2 == 0 ==> 2 * center_pad(w, l) == w - l,
        (w - l) % 2 == 1 ==> 2 * center_pad(w, l) == w - l + 1,
{
}

} // verus!
