//! Text helpers with exact specifications: comparison, decimal formatting
//! and parsing, and splitting on a separator character.

use vstd::prelude::*;

verus! {

/// The character of a decimal digit `d < 10`.
pub open spec fn digit_char(d: nat) -> char {
    if d == 0 { '0' }
    else if d == 1 { '1' }
    else if d == 2 { '2' }
    else if d == 3 { '3' }
    else if d == 4 { '4' }
    else if d == 5 { '5' }
    else if d == 6 { '6' }
    else if d == 7 { '7' }
    else if d == 8 { '8' }
    else { '9' }
}

/// The decimal representation of `n`, without leading zeros.
pub open spec fn dec(n: nat) -> Seq<char>
    decreases n,
{
    if n < 10 {
        seq![digit_char(n)]
    } else {
        dec(n / 10).push(digit_char(n % 10))
    }
}

/// Whether `c` is one of the ASCII digits `0`..`9`.
pub open spec fn is_digit(c: char) -> bool {
    '0' <= c && c <= '9'
}

/// The value of an ASCII digit.
pub open spec fn digit_value(c: char) -> nat {
    (c as int - '0' as int) as nat
}

/// Whether `s` is a non-empty run of ASCII digits.
pub open spec fn all_digits(s: Seq<char>) -> bool {
    s.len() > 0 && forall|i: int| 0 <= i < s.len() ==> is_digit(#[trigger] s[i])
}

/// The value of a run of ASCII digits, read in base ten.
pub open spec fn digits_value(s: Seq<char>) -> nat
    decreases s.len(),
{
    if s.len() == 0 {
        0
    } else {
        digits_value(s.drop_last()) * 10 + digit_value(s.last())
    }
}

/// What `str::parse` gives for an unsigned type whose largest value is `max`:
/// an optional `+` followed by one or more ASCII digits whose value is at most `max`.
pub open spec fn parse_unsigned(s: Seq<char>, max: nat) -> Option<nat> {
    let body = if s.len() > 0 && s[0] == '+' { s.drop_first() } else { s };
    if all_digits(body) && digits_value(body) <= max {
        Some(digits_value(body))
    } else {
        None
    }
}

/// What `str::parse::<i32>` gives: an optional `+` or `-` followed by one or
/// more ASCII digits whose signed value fits in an `i32`.
pub open spec fn parse_i32_spec(s: Seq<char>) -> Option<int> {
    if s.len() > 0 && s[0] == '-' {
        let body = s.drop_first();
        if all_digits(body) && digits_value(body) <= 0x8000_0000 {
            Some(-(digits_value(body) as int))
        } else {
            None
        }
    } else {
        match parse_unsigned(s, 0x7fff_ffff) {
            Some(v) => Some(v as int),
            None => None,
        }
    }
}

/// Reading one more digit multiplies the value so far by ten and adds the digit.
pub proof fn lemma_digits_value_take(s: Seq<char>, i: int)
    requires
        0 <= i < s.len(),
    ensures
        digits_value(s.take(i + 1)) == digits_value(s.take(i)) * 10 + digit_value(s[i]),
{
    assert(s.take(i + 1).drop_last() =~= s.take(i));
}

/// The digits read so far are worth no more than the whole run.
pub proof fn lemma_digits_value_mono(s: Seq<char>, i: int)
    requires
        0 <= i <= s.len(),
    ensures
        digits_value(s.take(i)) <= digits_value(s),
    decreases s.len() - i,
{
    if i < s.len() {
        lemma_digits_value_take(s, i);
        lemma_digits_value_mono(s, i + 1);
    } else {
        assert(s.take(i) =~= s);
    }
}

/// Compares two strings character by character.
pub fn str_eq(a: &str, b: &str) -> (r: bool)
    ensures
        r == (a@ == b@),
{
    let n = a.unicode_len();
    let m = b.unicode_len();
    if n != m {
        return false;
    }
    let mut i: usize = 0;
    while i < n
        invariant
            n == a@.len(),
            m == b@.len(),
            n == m,
            i <= n,
            forall|j: int| 0 <= j < i ==> a@[j] == b@[j],
        decreases n - i,
    {
        if a.get_char(i) != b.get_char(i) {
            return false;
        }
        i = i + 1;
    }
    assert(a@ =~= b@);
    true
}

/// Reads a run of digits starting at `start`, stopping early once the value
/// exceeds `max`. Returns the value when the whole rest is digits and the
/// value is at most `max`.
fn read_digits(s: &str, start: usize, max: u64) -> (r: Option<u64>)
    requires
        start <= s@.len(),
    ensures
        ({
            let body = s@.skip(start as int);
            match r {
                Some(v) => all_digits(body) && digits_value(body) <= max && v == digits_value(body),
                None => !(all_digits(body) && digits_value(body) <= max),
            }
        }),
{
    let n = s.unicode_len();
    let ghost body = s@.skip(start as int);
    if start >= n {
        return None;
    }
    let mut i: usize = start;
    let mut acc: u64 = 0;
    while i < n
        invariant
            n == s@.len(),
            start < n,
            start <= i <= n,
            body == s@.skip(start as int),
            acc <= max,
            acc == digits_value(body.take(i - start)),
            forall|j: int| 0 <= j < i - start ==> is_digit(#[trigger] body[j]),
        decreases n - i,
    {
        let c = s.get_char(i);
        proof {
            assert(body[i - start] == c);
            lemma_digits_value_take(body, i - start);
        }
        if c < '0' || c > '9' {
            return None;
        }
        let d: u64 = (c as u32 - '0' as u32) as u64;
        if d > max {
            proof {
                lemma_digits_value_mono(body, i - start + 1);
            }
            return None;
        }
        if acc > (max - d) / 10 {
            proof {
                lemma_digits_value_mono(body, i - start + 1);
                assert(acc * 10 + d > max) by (nonlinear_arith)
                    requires acc > (max - d) / 10, d <= 9, d <= max;
            }
            return None;
        }
        proof {
            assert(acc * 10 + d <= max) by (nonlinear_arith)
                requires acc <= (max - d) / 10, d <= max;
        }
        acc = acc * 10 + d;
        i = i + 1;
    }
    assert(body.take(n - start) =~= body);
    Some(acc)
}

/// `str::parse::<u64>`: an optional `+` and then decimal digits.
pub fn parse_u64(s: &str) -> (r: Option<u64>)
    ensures
        r matches Some(v) ==> parse_unsigned(s@, u64::MAX as nat) == Some(v as nat),
        r is None ==> parse_unsigned(s@, u64::MAX as nat) is None,
{
    let n = s.unicode_len();
    if n > 0 && s.get_char(0) == '+' {
        proof { assert(s@.skip(1) =~= s@.drop_first()); }
        read_digits(s, 1, u64::MAX)
    } else {
        proof { assert(s@.skip(0) =~= s@); }
        read_digits(s, 0, u64::MAX)
    }
}


/// The one-character string of a decimal digit.
pub fn digit_str(d: u64) -> (r: &'static str)
    requires
        d < 10,
    ensures
        r@ == seq![digit_char(d as nat)],
{
    if d == 0 {
        proof { reveal_strlit("0"); }
        "0"
    } else if d == 1 {
        proof { reveal_strlit("1"); }
        "1"
    } else if d == 2 {
        proof { reveal_strlit("2"); }
        "2"
    } else if d == 3 {
        proof { reveal_strlit("3"); }
        "3"
    } else if d == 4 {
        proof { reveal_strlit("4"); }
        "4"
    } else if d == 5 {
        proof { reveal_strlit("5"); }
        "5"
    } else if d == 6 {
        proof { reveal_strlit("6"); }
        "6"
    } else if d == 7 {
        proof { reveal_strlit("7"); }
        "7"
    } else if d == 8 {
        proof { reveal_strlit("8"); }
        "8"
    } else {
        proof { reveal_strlit("9"); }
        "9"
    }
}

/// Appends the decimal representation of `n` to `out`.
pub fn push_dec(out: &mut String, n: u64)
    ensures
        final(out)@ == old(out)@ + dec(n as nat),
    decreases n,
{
    if n >= 10 {
        push_dec(out, n / 10);
    }
    out.append(digit_str(n % 10));
    assert(n >= 10 ==> (n / 10) as nat == (n as nat) / 10);
}

/// The decimal representation of a signed number: a `-` before the digits
/// of a negative one.
pub open spec fn signed_dec(n: int) -> Seq<char> {
    if n < 0 { "-"@ + dec((-n) as nat) } else { dec(n as nat) }
}

/// Appends the decimal representation of the signed `n` to `out`.
pub fn push_signed(out: &mut String, n: i64)
    ensures
        final(out)@ == old(out)@ + signed_dec(n as int),
{
    if n < 0 {
        out.append("-");
        let magnitude: u64 = if n == i64::MIN { 9_223_372_036_854_775_808u64 } else { (0 - n) as u64 };
        push_dec(out, magnitude);
        proof {
            reveal_strlit("-");
        }
        assert(out@ =~= old(out)@ + signed_dec(n as int));
    } else {
        push_dec(out, n as u64);
    }
}

/// The decimal representation of `n` as a new string.
pub fn u64_to_string(n: u64) -> (r: String)
    ensures
        r@ == dec(n as nat),
{
    let mut out = String::new();
    push_dec(&mut out, n);
    assert(out@ =~= dec(n as nat));
    out
}

/// The concatenation of two strings.
pub fn concat_str(a: &str, b: &str) -> (r: String)
    ensures
        r@ == a@ + b@,
{
    let mut out = a.to_owned();
    out.append(b);
    out
}

/// The pieces of `s` between occurrences of `sep`, as `str::split` with a
/// character pattern gives them: one more piece than there are separators,
/// empty pieces included.
pub open spec fn split_on(s: Seq<char>, sep: char) -> Seq<Seq<char>>
    decreases s.len(),
{
    if s.len() == 0 {
        seq![Seq::empty()]
    } else {
        let prev = split_on(s.drop_last(), sep);
        if s.last() == sep {
            prev.push(Seq::empty())
        } else {
            prev.update(prev.len() - 1, prev.last().push(s.last()))
        }
    }
}

/// `split_on` never gives an empty list of pieces.
pub proof fn lemma_split_on_nonempty(s: Seq<char>, sep: char)
    ensures
        split_on(s, sep).len() >= 1,
    decreases s.len(),
{
    if s.len() > 0 {
        lemma_split_on_nonempty(s.drop_last(), sep);
    }
}

/// The views of a list of string slices.
pub open spec fn str_views(v: Seq<&str>) -> Seq<Seq<char>> {
    v.map_values(|x: &str| x@)
}

/// Splits `s` at every `sep`.
pub fn split_char<'a>(s: &'a str, sep: char) -> (r: Vec<&'a str>)
    ensures
        str_views(r@) == split_on(s@, sep),
{
    let n = s.unicode_len();
    let mut r: Vec<&'a str> = Vec::new();
    let mut start: usize = 0;
    let mut i: usize = 0;
    assert(s@.take(0) =~= Seq::<char>::empty());
    assert(str_views(r@) + seq![s@.subrange(0, 0)] =~= split_on(s@.take(0), sep));
    while i < n
        invariant
            n == s@.len(),
            start <= i <= n,
            split_on(s@.take(i as int), sep) == str_views(r@) + seq![s@.subrange(start as int, i as int)],
        decreases n - i,
    {
        let c = s.get_char(i);
        proof {
            lemma_split_on_nonempty(s@.take(i as int), sep);
            assert(s@.take(i + 1).drop_last() =~= s@.take(i as int));
            assert(s@.take(i + 1).last() == c);
        }
        if c == sep {
            let piece = s.substring_char(start, i);
            let ghost before = str_views(r@);
            r.push(piece);
            proof {
                assert(str_views(r@) =~= before.push(piece@));
                assert(s@.subrange(i + 1, i + 1) =~= Seq::<char>::empty());
                assert(split_on(s@.take(i + 1), sep) =~= str_views(r@) + seq![s@.subrange(i + 1, i + 1)]);
            }
            start = i + 1;
        } else {
            proof {
                assert(s@.subrange(start as int, i + 1) =~= s@.subrange(start as int, i as int).push(c));
                assert(split_on(s@.take(i + 1), sep) =~= str_views(r@) + seq![s@.subrange(start as int, i + 1)]);
            }
        }
        i = i + 1;
    }
    let last = s.substring_char(start, n);
    let ghost before = str_views(r@);
    r.push(last);
    proof {
        assert(s@.take(n as int) =~= s@);
        assert(str_views(r@) =~= before.push(last@));
        assert(str_views(r@) =~= split_on(s@, sep));
    }
    r
}

/// A line without the `\r` that ends it, if any.
pub open spec fn without_cr(l: Seq<char>) -> Seq<char> {
    if l.len() > 0 && l.last() == '\r' { l.drop_last() } else { l }
}

/// The lines of a text, as `str::lines` gives them: the text split at each
/// `\n`, a line ended by `\r\n` losing its `\r` too; the end of the text
/// closes a last line only when that line is not empty.
pub open spec fn lines_of(s: Seq<char>) -> Seq<Seq<char>> {
    let p = split_on(s, '\n');
    let ended = Seq::new((p.len() - 1) as nat, |i: int| without_cr(p[i]));
    if p.last().len() == 0 { ended } else { ended.push(p.last()) }
}

/// `l` without a final `\r`.
fn strip_cr<'a>(l: &'a str) -> (r: &'a str)
    ensures
        r@ == without_cr(l@),
{
    let n = l.unicode_len();
    if n > 0 && l.get_char(n - 1) == '\r' {
        let r = l.substring_char(0, n - 1);
        assert(r@ =~= l@.drop_last());
        r
    } else {
        l
    }
}

/// The lines of `s`.
pub fn text_lines<'a>(s: &'a str) -> (r: Vec<&'a str>)
    ensures
        str_views(r@) == lines_of(s@),
{
    let pieces = split_char(s, '\n');
    let ghost p = split_on(s@, '\n');
    proof {
        lemma_split_on_nonempty(s@, '\n');
        assert(str_views(pieces@).len() == pieces@.len());
    }
    let ghost ended = Seq::new((p.len() - 1) as nat, |i: int| without_cr(p[i]));
    let last = pieces.len() - 1;
    let mut r: Vec<&'a str> = Vec::new();
    let mut i: usize = 0;
    while i < last
        invariant
            str_views(pieces@) == p,
            p.len() == pieces@.len(),
            last + 1 == pieces@.len(),
            i <= last,
            ended == Seq::new((p.len() - 1) as nat, |k: int| without_cr(p[k])),
            str_views(r@) == ended.take(i as int),
        decreases last - i,
    {
        let l = strip_cr(pieces[i]);
        proof {
            assert(p[i as int] == pieces@[i as int]@);
        }
        let ghost before = str_views(r@);
        r.push(l);
        proof {
            assert(str_views(r@) =~= before.push(l@));
            assert(ended.take(i + 1) =~= ended.take(i as int).push(ended[i as int]));
        }
        i = i + 1;
    }
    assert(ended.take(last as int) =~= ended);
    assert(p.last() == pieces@[last as int]@);
    if pieces[last].unicode_len() > 0 {
        let ghost before = str_views(r@);
        r.push(pieces[last]);
        assert(str_views(r@) =~= before.push(p.last()));
    }
    r
}

/// The white space `str::trim` removes: the characters with the Unicode
/// property `White_Space`, those `char::is_whitespace` accepts.
pub open spec fn is_white_space(c: char) -> bool {
    ||| '\u{9}' <= c <= '\u{d}'
    ||| c == ' ' || c == '\u{85}' || c == '\u{a0}' || c == '\u{1680}'
    ||| '\u{2000}' <= c <= '\u{200a}'
    ||| c == '\u{2028}' || c == '\u{2029}' || c == '\u{202f}' || c == '\u{205f}' || c == '\u{3000}'
}

/// A text without its leading white space.
pub open spec fn trim_start_of(s: Seq<char>) -> Seq<char>
    decreases s.len(),
{
    if s.len() > 0 && is_white_space(s[0]) { trim_start_of(s.drop_first()) } else { s }
}

/// A text without its trailing white space.
pub open spec fn trim_end_of(s: Seq<char>) -> Seq<char>
    decreases s.len(),
{
    if s.len() > 0 && is_white_space(s.last()) { trim_end_of(s.drop_last()) } else { s }
}

/// A text without leading and trailing white space, as `str::trim` gives it.
pub open spec fn trimmed_of(s: Seq<char>) -> Seq<char> {
    trim_end_of(trim_start_of(s))
}

/// Whether `c` is white space.
fn white_space(c: char) -> (r: bool)
    ensures
        r == is_white_space(c),
{
    ('\u{9}' <= c && c <= '\u{d}') || c == ' ' || c == '\u{85}' || c == '\u{a0}' || c == '\u{1680}'
        || ('\u{2000}' <= c && c <= '\u{200a}') || c == '\u{2028}' || c == '\u{2029}' || c == '\u{202f}'
        || c == '\u{205f}' || c == '\u{3000}'
}

/// `s` without leading and trailing white space.
pub fn trim_str<'a>(s: &'a str) -> (r: &'a str)
    ensures
        r@ == trimmed_of(s@),
{
    let n = s.unicode_len();
    let mut i: usize = 0;
    assert(s@.subrange(0, n as int) =~= s@);
    while i < n && white_space(s.get_char(i))
        invariant
            n == s@.len(),
            i <= n,
            trim_start_of(s@) == trim_start_of(s@.subrange(i as int, n as int)),
        decreases n - i,
    {
        assert(s@.subrange(i as int, n as int).drop_first() =~= s@.subrange(i + 1, n as int));
        i = i + 1;
    }
    assert(trim_start_of(s@) == s@.subrange(i as int, n as int));
    let mut j: usize = n;
    while j > i && white_space(s.get_char(j - 1))
        invariant
            n == s@.len(),
            i <= j <= n,
            trimmed_of(s@) == trim_end_of(s@.subrange(i as int, j as int)),
        decreases j - i,
    {
        assert(s@.subrange(i as int, j as int).drop_last() =~= s@.subrange(i as int, j - 1));
        j = j - 1;
    }
    let r = s.substring_char(i, j);
    assert(trim_end_of(s@.subrange(i as int, j as int)) == s@.subrange(i as int, j as int));
    r
}

/// The decimal representation of a number is a run of digits worth the number.
pub proof fn lemma_dec_digits(n: nat)
    ensures
        all_digits(dec(n)),
        digits_value(dec(n)) == n,
    decreases n,
{
    if n >= 10 {
        lemma_dec_digits(n / 10);
        let d = dec(n);
        assert(d.drop_last() =~= dec(n / 10));
        assert(d.last() == digit_char(n % 10));
        assert(digit_value(digit_char(n % 10)) == n % 10);
        assert(digits_value(d) == digits_value(dec(n / 10)) * 10 + n % 10);
        vstd::arithmetic::div_mod::lemma_fundamental_div_mod(n as int, 10);
        assert(digits_value(d) == n);
        assert forall|i: int| 0 <= i < d.len() implies is_digit(#[trigger] d[i]) by {
            if i < d.len() - 1 {
                assert(d[i] == dec(n / 10)[i]);
            }
        }
    } else {
        let d = dec(n);
        assert(d.drop_last() =~= Seq::<char>::empty());
        assert(digit_value(digit_char(n)) == n);
        assert(digits_value(d.drop_last()) == 0);
        assert(d.last() == digit_char(n));
        assert(digits_value(d) == n);
    }
}

/// `str::parse` reads the decimal representation of a number back as the number.
pub proof fn lemma_parse_dec(n: nat, max: nat)
    requires
        n <= max,
    ensures
        parse_unsigned(dec(n), max) == Some(n),
{
    lemma_dec_digits(n);
    assert(is_digit(dec(n)[0]));
}

/// A piece without separators splits into itself.
pub proof fn lemma_split_on_no_sep(s: Seq<char>, sep: char)
    requires
        forall|i: int| 0 <= i < s.len() ==> s[i] != sep,
    ensures
        split_on(s, sep) == seq![s],
    decreases s.len(),
{
    if s.len() > 0 {
        lemma_split_on_no_sep(s.drop_last(), sep);
        assert(s.drop_last().push(s.last()) =~= s);
        assert(split_on(s, sep) =~= seq![s]);
    } else {
        assert(s =~= Seq::<char>::empty());
    }
}

/// Splitting at a separator splits the two sides apart.
pub proof fn lemma_split_on_concat(a: Seq<char>, b: Seq<char>, sep: char)
    ensures
        split_on(a + seq![sep] + b, sep) == split_on(a, sep) + split_on(b, sep),
    decreases b.len(),
{
    let whole = a + seq![sep] + b;
    if b.len() == 0 {
        assert(whole.drop_last() =~= a);
        assert(split_on(b, sep) =~= seq![Seq::<char>::empty()]);
        assert(split_on(whole, sep) =~= split_on(a, sep) + split_on(b, sep));
    } else {
        lemma_split_on_concat(a, b.drop_last(), sep);
        lemma_split_on_nonempty(a, sep);
        lemma_split_on_nonempty(b.drop_last(), sep);
        assert(whole.drop_last() =~= a + seq![sep] + b.drop_last());
        assert(whole.last() == b.last());
        assert(split_on(whole, sep) =~= split_on(a, sep) + split_on(b, sep));
    }
}

/// Decimal digits hold no `:`.
pub proof fn lemma_dec_no_colon(n: nat)
    ensures
        forall|i: int| 0 <= i < dec(n).len() ==> dec(n)[i] != ':',
{
    lemma_dec_digits(n);
    assert forall|i: int| 0 <= i < dec(n).len() implies dec(n)[i] != ':' by {
        assert(is_digit(dec(n)[i]));
    }
}

/// `str::parse::<u8>`: an optional `+` and then decimal digits.
pub fn parse_u8(s: &str) -> (r: Option<u8>)
    ensures
        r matches Some(v) ==> parse_unsigned(s@, 255) == Some(v as nat),
        r is None ==> parse_unsigned(s@, 255) is None,
{
    let n = s.unicode_len();
    let v = if n > 0 && s.get_char(0) == '+' {
        proof { assert(s@.skip(1) =~= s@.drop_first()); }
        read_digits(s, 1, 255)
    } else {
        proof { assert(s@.skip(0) =~= s@); }
        read_digits(s, 0, 255)
    };
    match v {
        Some(x) => Some(x as u8),
        None => None,
    }
}

/// `str::parse::<i32>`: an optional `+` or `-` and then decimal digits.
pub fn parse_i32(s: &str) -> (r: Option<i32>)
    ensures
        r matches Some(v) ==> parse_i32_spec(s@) == Some(v as int),
        r is None ==> parse_i32_spec(s@) is None,
{
    let n = s.unicode_len();
    if n > 0 && s.get_char(0) == '-' {
        proof { assert(s@.skip(1) =~= s@.drop_first()); }
        match read_digits(s, 1, 0x8000_0000) {
            Some(x) => {
                let v: i64 = 0 - (x as i64);
                Some(v as i32)
            },
            None => None,
        }
    } else if n > 0 && s.get_char(0) == '+' {
        proof { assert(s@.skip(1) =~= s@.drop_first()); }
        match read_digits(s, 1, 0x7fff_ffff) {
            Some(x) => Some(x as i32),
            None => None,
        }
    } else {
        proof { assert(s@.skip(0) =~= s@); }
        match read_digits(s, 0, 0x7fff_ffff) {
            Some(x) => Some(x as i32),
            None => None,
        }
    }
}

/// A number below 256 read as a `u8` reads the same as an `i32`.
pub proof fn lemma_parse_u8_as_i32(s: Seq<char>)
    requires
        parse_unsigned(s, 255) is Some,
    ensures
        parse_i32_spec(s) == Some(parse_unsigned(s, 255)->Some_0 as int),
{
    if s.len() > 0 && s[0] == '-' {
        assert(!is_digit(s[0]));
    }
}

/// Where reading the digits of `body` as a `u64`, from position `i` with
/// `acc` read so far, first fails: `Some(true)` at a character that is not a
/// digit, `Some(false)` when the value grows past `u64::MAX`, `None` when it
/// does not fail. Each character is checked for being a digit before the
/// value is grown, as `str::parse` does.
pub open spec fn u64_scan_failure(body: Seq<char>, i: int, acc: nat) -> Option<bool>
    decreases body.len() - i,
{
    if i < 0 || i >= body.len() {
        None
    } else if !is_digit(body[i]) {
        Some(true)
    } else if acc * 10 + digit_value(body[i]) > u64::MAX {
        Some(false)
    } else {
        u64_scan_failure(body, i + 1, acc * 10 + digit_value(body[i]))
    }
}

/// The message of the error `str::parse::<u64>` gives for `s`.
pub open spec fn u64_parse_error_text(s: Seq<char>) -> Seq<char> {
    if s.len() == 0 {
        "cannot parse integer from empty string"@
    } else if s.len() == 1 && (s[0] == '+' || s[0] == '-') {
        "invalid digit found in string"@
    } else {
        let body = if s[0] == '+' { s.drop_first() } else { s };
        match u64_scan_failure(body, 0, 0) {
            Some(false) => "number too large to fit in target type"@,
            _ => "invalid digit found in string"@,
        }
    }
}

/// The message of the error `str::parse::<u64>` gives for `s`.
pub fn u64_parse_error(s: &str) -> (r: &'static str)
    ensures
        r@ == u64_parse_error_text(s@),
{
    let n = s.unicode_len();
    if n == 0 {
        return "cannot parse integer from empty string";
    }
    let first = s.get_char(0);
    if n == 1 && (first == '+' || first == '-') {
        return "invalid digit found in string";
    }
    let start: usize = if first == '+' { 1 } else { 0 };
    let ghost body = if s@[0] == '+' { s@.drop_first() } else { s@ };
    assert(body =~= s@.skip(start as int));
    let mut i: usize = start;
    let mut acc: u64 = 0;
    while i < n
        invariant
            n == s@.len(),
            n > 0,
            !(n == 1 && (s@[0] == '+' || s@[0] == '-')),
            body == (if s@[0] == '+' { s@.drop_first() } else { s@ }),
            start <= i <= n,
            body == s@.skip(start as int),
            u64_scan_failure(body, 0, 0) == u64_scan_failure(body, i - start, acc as nat),
        decreases n - i,
    {
        let c = s.get_char(i);
        assert(body[i - start] == c);
        if c < '0' || c > '9' {
            return "invalid digit found in string";
        }
        let d: u64 = (c as u32 - '0' as u32) as u64;
        if acc > (u64::MAX - d) / 10 {
            assert(acc * 10 + d > u64::MAX) by (nonlinear_arith)
                requires acc > (u64::MAX - d) / 10, d <= 9;
            return "number too large to fit in target type";
        }
        assert(acc * 10 + d <= u64::MAX) by (nonlinear_arith)
            requires acc <= (u64::MAX - d) / 10, d <= 9;
        acc = acc * 10 + d;
        i = i + 1;
    }
    "invalid digit found in string"
}

} // verus!
