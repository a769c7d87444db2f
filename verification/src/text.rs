//! Character-level text handling: whitespace trimming, decimal scanning and printing.

use vstd::prelude::*;

verus! {

/// The Unicode `White_Space` characters, the set that `str::trim` removes.
pub open spec fn is_unicode_whitespace(c: char) -> bool {
    ||| ('\u{9}' <= c && c <= '\u{d}')
    ||| c == ' '
    ||| c == '\u{85}'
    ||| c == '\u{a0}'
    ||| c == '\u{1680}'
    ||| ('\u{2000}' <= c && c <= '\u{200a}')
    ||| c == '\u{2028}'
    ||| c == '\u{2029}'
    ||| c == '\u{202f}'
    ||| c == '\u{205f}'
    ||| c == '\u{3000}'
}

/// `s` without its leading whitespace.
pub open spec fn trimmed_start(s: Seq<char>) -> Seq<char>
    decreases s.len(),
{
    if s.len() > 0 && is_unicode_whitespace(s[0]) {
        trimmed_start(s.drop_first())
    } else {
        s
    }
}

/// `s` without its trailing whitespace.
pub open spec fn trimmed_end(s: Seq<char>) -> Seq<char>
    decreases s.len(),
{
    if s.len() > 0 && is_unicode_whitespace(s.last()) {
        trimmed_end(s.drop_last())
    } else {
        s
    }
}

/// `s` without leading and trailing whitespace.
pub open spec fn trimmed(s: Seq<char>) -> Seq<char> {
    trimmed_end(trimmed_start(s))
}

/// Exec test of `is_unicode_whitespace`.
pub fn is_whitespace_char(c: char) -> (r: bool)
    ensures
        r == is_unicode_whitespace(c),
{
    ('\u{9}' <= c && c <= '\u{d}') || c == ' ' || c == '\u{85}' || c == '\u{a0}' || c == '\u{1680}'
        || ('\u{2000}' <= c && c <= '\u{200a}') || c == '\u{2028}' || c == '\u{2029}' || c
        == '\u{202f}' || c == '\u{205f}' || c == '\u{3000}'
}

/// `s` with leading and trailing Unicode whitespace removed, as `str::trim` does.
pub fn trim(s: &str) -> (r: &str)
    ensures
        r@ == trimmed(s@),
{
    let n = s.unicode_len();
    let mut i: usize = 0;
    assert(s@.skip(0) =~= s@);
    while i < n && is_whitespace_char(s.get_char(i))
        invariant
            n == s@.len(),
            i <= n,
            trimmed_start(s@) == trimmed_start(s@.skip(i as int)),
        decreases n - i,
    {
        assert(s@.skip(i as int).drop_first() =~= s@.skip(i + 1));
        i = i + 1;
    }
    assert(trimmed_start(s@) == s@.subrange(i as int, n as int)) by {
        assert(s@.skip(i as int) =~= s@.subrange(i as int, n as int));
    }
    let mut j: usize = n;
    while j > i && is_whitespace_char(s.get_char(j - 1))
        invariant
            n == s@.len(),
            i <= j <= n,
            trimmed(s@) == trimmed_end(s@.subrange(i as int, j as int)),
        decreases j,
    {
        assert(s@.subrange(i as int, j as int).drop_last() =~= s@.subrange(i as int, j - 1));
        j = j - 1;
    }
    s.substring_char(i, j)
}

/// The characters that scan_fmt skips between tokens.
pub open spec fn is_scan_space(c: char) -> bool {
    c == ' ' || c == '\t' || c == '\n' || c == '\r'
}

/// `s` without the scan spaces at its start.
pub open spec fn skip_scan_spaces(s: Seq<char>) -> Seq<char>
    decreases s.len(),
{
    if s.len() > 0 && is_scan_space(s[0]) {
        skip_scan_spaces(s.drop_first())
    } else {
        s
    }
}

/// An ASCII decimal digit.
pub open spec fn is_decimal_digit(c: char) -> bool {
    '0' <= c && c <= '9'
}

/// The longest prefix of `s` made of ASCII decimal digits.
pub open spec fn digit_run(s: Seq<char>) -> Seq<char>
    decreases s.len(),
{
    if s.len() > 0 && is_decimal_digit(s[0]) {
        seq![s[0]] + digit_run(s.drop_first())
    } else {
        Seq::empty()
    }
}

/// The value of one decimal digit.
pub open spec fn digit_value(c: char) -> nat {
    (c as int - '0' as int) as nat
}

/// The number that a string of decimal digits denotes.
pub open spec fn digits_value(d: Seq<char>) -> nat
    decreases d.len(),
{
    if d.len() == 0 {
        0
    } else {
        digits_value(d.drop_last()) * 10 + digit_value(d.last())
    }
}

/// The `{d}` token at the start of `s` (after scan spaces): whether it is
/// negative, and its digits.
pub open spec fn decimal_token(s: Seq<char>) -> (bool, Seq<char>) {
    let t = skip_scan_spaces(s);
    if t.len() > 0 && t[0] == '-' {
        (true, digit_run(t.drop_first()))
    } else if t.len() > 0 && t[0] == '+' {
        (false, digit_run(t.drop_first()))
    } else {
        (false, digit_run(t))
    }
}

/// What scan_fmt's `{d}` read into an `i32` gives on `s`.
#[verifier::opaque]
pub open spec fn scanned_i32(s: Seq<char>) -> Option<i32> {
    let (neg, digits) = decimal_token(s);
    let v: int = if neg { -(digits_value(digits) as int) } else { digits_value(digits) as int };
    if digits.len() > 0 && i32::MIN <= v && v <= i32::MAX {
        Some(v as i32)
    } else {
        None
    }
}

/// What scan_fmt's `{d}` read into a `u64` gives on `s`.
#[verifier::opaque]
pub open spec fn scanned_u64(s: Seq<char>) -> Option<u64> {
    let (neg, digits) = decimal_token(s);
    if !neg && digits.len() > 0 && digits_value(digits) <= u64::MAX {
        Some(digits_value(digits) as u64)
    } else {
        None
    }
}

/// What scan_fmt's `C{d}` read into an `i32` gives on `s`: a `C`, then a `{d}`.
#[verifier::opaque]
pub open spec fn scanned_column_id(s: Seq<char>) -> Option<i32> {
    let t = skip_scan_spaces(s);
    if t.len() > 0 && t[0] == 'C' {
        scanned_i32(t.drop_first())
    } else {
        None
    }
}

fn is_scan_space_char(c: char) -> (r: bool)
    ensures
        r == is_scan_space(c),
{
    c == ' ' || c == '\t' || c == '\n' || c == '\r'
}

fn is_digit_char(c: char) -> (r: bool)
    ensures
        r == is_decimal_digit(c),
{
    '0' <= c && c <= '9'
}

/// The index of the first character of `s` at or after `from` that is no scan space.
fn skip_spaces_from(s: &str, from: usize) -> (i: usize)
    requires
        from <= s@.len(),
    ensures
        from <= i <= s@.len(),
        s@.skip(i as int) == skip_scan_spaces(s@.skip(from as int)),
{
    let n = s.unicode_len();
    let mut i = from;
    while i < n && is_scan_space_char(s.get_char(i))
        invariant
            n == s@.len(),
            from <= i <= n,
            skip_scan_spaces(s@.skip(from as int)) == skip_scan_spaces(s@.skip(i as int)),
        decreases n - i,
    {
        assert(s@.skip(i as int).drop_first() =~= s@.skip(i + 1));
        i = i + 1;
    }
    i
}

proof fn lemma_digits_value_push(d: Seq<char>, c: char)
    ensures
        digits_value(d.push(c)) == digits_value(d) * 10 + digit_value(c),
{
    assert(d.push(c).drop_last() =~= d);
}

/// Reads the `{d}` token of `s` at `from`: its sign, the number of its
/// digits, and its magnitude when that is at most `bound`.
fn read_decimal(s: &str, from: usize, bound: u64) -> (res: (bool, usize, Option<u64>))
    requires
        from <= s@.len(),
    ensures
        res.0 == decimal_token(s@.skip(from as int)).0,
        res.1 == decimal_token(s@.skip(from as int)).1.len(),
        res.2 == (if digits_value(decimal_token(s@.skip(from as int)).1) <= bound {
            Some(digits_value(decimal_token(s@.skip(from as int)).1) as u64)
        } else {
            None
        }),
{
    let n = s.unicode_len();
    let ghost whole = s@.skip(from as int);
    let mut i = skip_spaces_from(s, from);
    let mut neg = false;
    if i < n && s.get_char(i) == '-' {
        neg = true;
        assert(s@.skip(i as int).drop_first() =~= s@.skip(i + 1));
        i = i + 1;
    } else if i < n && s.get_char(i) == '+' {
        assert(s@.skip(i as int).drop_first() =~= s@.skip(i + 1));
        i = i + 1;
    }
    let start = i;
    let ghost t = s@.skip(start as int);
    assert(decimal_token(whole).1 == digit_run(t));
    assert(decimal_token(whole).0 == neg);
    let mut acc: u64 = 0;
    let mut over = false;
    assert(t.subrange(0, 0) =~= Seq::<char>::empty());
    assert(s@.skip(start as int) =~= t.skip(0));
    while i < n && is_digit_char(s.get_char(i))
        invariant
            n == s@.len(),
            start <= i <= n,
            t == s@.skip(start as int),
            digit_run(t) == t.subrange(0, i - start) + digit_run(s@.skip(i as int)),
            !over ==> acc as nat == digits_value(t.subrange(0, i - start)) && acc <= bound,
            over ==> digits_value(t.subrange(0, i - start)) > bound,
        decreases n - i,
    {
        let c = s.get_char(i);
        let d = (c as u32 - '0' as u32) as u64;
        proof {
            let k = i - start;
            assert(s@.skip(i as int).drop_first() =~= s@.skip(i + 1));
            assert(t.subrange(0, k + 1) =~= t.subrange(0, k).push(c));
            assert(t.subrange(0, k) + digit_run(s@.skip(i as int)) =~= t.subrange(0, k + 1)
                + digit_run(s@.skip(i + 1)));
            lemma_digits_value_push(t.subrange(0, k), c);
        }
        if !over {
            match acc.checked_mul(10) {
                Some(m) => match m.checked_add(d) {
                    Some(v) => {
                        if v <= bound {
                            acc = v;
                        } else {
                            over = true;
                        }
                    },
                    None => {
                        over = true;
                    },
                },
                None => {
                    over = true;
                },
            }
        }
        i = i + 1;
    }
    proof {
        assert(digit_run(s@.skip(i as int)) =~= Seq::<char>::empty());
        assert(digit_run(t) =~= t.subrange(0, i - start));
    }
    if over {
        (neg, i - start, None)
    } else {
        (neg, i - start, Some(acc))
    }
}

/// scan_fmt's `{d}` read into an `i32`: `None` where nothing parses.
pub fn scan_i32(s: &str) -> (r: Option<i32>)
    ensures
        r == scanned_i32(s@),
{
    assert(s@.skip(0) =~= s@);
    scan_i32_from(s, 0)
}

fn scan_i32_from(s: &str, from: usize) -> (r: Option<i32>)
    requires
        from <= s@.len(),
    ensures
        r == scanned_i32(s@.skip(from as int)),
{
    reveal(scanned_i32);
    let (neg, count, mag) = read_decimal(s, from, 2147483648);
    if count == 0 {
        return None;
    }
    match mag {
        Some(m) => {
            if neg {
                Some((0 - (m as i64)) as i32)
            } else if m <= 2147483647 {
                Some(m as i32)
            } else {
                None
            }
        },
        None => None,
    }
}

/// scan_fmt's `{d}` read into a `u64`: `None` where nothing parses.
pub fn scan_u64(s: &str) -> (r: Option<u64>)
    ensures
        r == scanned_u64(s@),
{
    reveal(scanned_u64);
    assert(s@.skip(0) =~= s@);
    let (neg, count, mag) = read_decimal(s, 0, u64::MAX);
    if neg || count == 0 {
        None
    } else {
        mag
    }
}

/// scan_fmt's `C{d}` read into an `i32`: the column number of a VOTable
/// field ID such as `C12`.
pub fn scan_column_id(s: &str) -> (r: Option<i32>)
    ensures
        r == scanned_column_id(s@),
{
    reveal(scanned_column_id);
    assert(s@.skip(0) =~= s@);
    let i = skip_spaces_from(s, 0);
    if i < s.unicode_len() && s.get_char(i) == 'C' {
        assert(s@.skip(i as int).drop_first() =~= s@.skip(i + 1));
        scan_i32_from(s, i + 1)
    } else {
        None
    }
}

/// The ASCII digit for `d < 10`.
pub open spec fn digit_char(d: nat) -> char {
    ('0' as int + d) as char
}

/// The decimal representation of `n`, as `{}` formats an unsigned integer.
pub open spec fn decimal_string(n: nat) -> Seq<char>
    decreases n,
{
    if n < 10 {
        seq![digit_char(n)]
    } else {
        decimal_string(n / 10).push(digit_char(n % 10))
    }
}

/// Appends the decimal representation of `n` to `out`.
pub fn push_decimal(out: &mut String, n: u64)
    ensures
        final(out)@ == old(out)@ + decimal_string(n as nat),
    decreases n,
{
    if n >= 10 {
        push_decimal(out, n / 10);
    }
    out.append(digit_text(n % 10));
    assert(old(out)@ + decimal_string(n as nat) =~= out@);
}

/// The one-character text of the digit `d`.
fn digit_text(d: u64) -> (r: &'static str)
    requires
        d < 10,
    ensures
        r@ == seq![digit_char(d as nat)],
{
    match d {
        0 => {
            proof {
                reveal_strlit("0");
            }
            "0"
        },
        1 => {
            proof {
                reveal_strlit("1");
            }
            "1"
        },
        2 => {
            proof {
                reveal_strlit("2");
            }
            "2"
        },
        3 => {
            proof {
                reveal_strlit("3");
            }
            "3"
        },
        4 => {
            proof {
                reveal_strlit("4");
            }
            "4"
        },
        5 => {
            proof {
                reveal_strlit("5");
            }
            "5"
        },
        6 => {
            proof {
                reveal_strlit("6");
            }
            "6"
        },
        7 => {
            proof {
                reveal_strlit("7");
            }
            "7"
        },
        8 => {
            proof {
                reveal_strlit("8");
            }
            "8"
        },
        _ => {
            proof {
                reveal_strlit("9");
            }
            "9"
        },
    }
}

proof fn lemma_decimal_string_digits(n: nat)
    ensures
        decimal_string(n).len() > 0,
        forall|i: int| 0 <= i < decimal_string(n).len() ==> #[trigger] is_decimal_digit(decimal_string(n)[i]),
        digits_value(decimal_string(n)) == n,
    decreases n,
{
    let d = n % 10;
    assert(digit_char(d) as int == '0' as int + d);
    assert(digit_value(digit_char(d)) == d);
    if n >= 10 {
        lemma_decimal_string_digits(n / 10);
        lemma_digits_value_push(decimal_string(n / 10), digit_char(d));
    } else {
        lemma_digits_value_push(Seq::empty(), digit_char(d));
        assert(Seq::<char>::empty().push(digit_char(d)) =~= decimal_string(n));
    }
}

proof fn lemma_digit_run_of_digits(s: Seq<char>)
    requires
        forall|i: int| 0 <= i < s.len() ==> #[trigger] is_decimal_digit(s[i]),
    ensures
        digit_run(s) == s,
    decreases s.len(),
{
    if s.len() > 0 {
        lemma_digit_run_of_digits(s.drop_first());
        assert(seq![s[0]] + s.drop_first() =~= s);
    }
}

/// A number printed in decimal scans back as the same number: what the page
/// shows of a file size is what a `{d}` scan of it reads.
pub proof fn lemma_decimal_scan_round_trip(n: u64)
    ensures
        scanned_u64(decimal_string(n as nat)) == Some(n),
{
    reveal(scanned_u64);
    let s = decimal_string(n as nat);
    lemma_decimal_string_digits(n as nat);
    lemma_digit_run_of_digits(s);
    assert(is_decimal_digit(s[0]));
    assert(skip_scan_spaces(s) == s);
}

proof fn lemma_trimmed_start_bounds(s: Seq<char>)
    ensures
        trimmed_start(s).len() > 0 ==> !is_unicode_whitespace(trimmed_start(s)[0]),
        exists|i: int| 0 <= i <= s.len() && trimmed_start(s) == s.subrange(i, s.len() as int),
    decreases s.len(),
{
    if s.len() > 0 && is_unicode_whitespace(s[0]) {
        lemma_trimmed_start_bounds(s.drop_first());
        let i = choose|i: int|
            0 <= i <= s.drop_first().len() && trimmed_start(s.drop_first())
                == s.drop_first().subrange(i, s.drop_first().len() as int);
        assert(s.drop_first().subrange(i, s.drop_first().len() as int) =~= s.subrange(
            i + 1,
            s.len() as int,
        ));
    } else {
        assert(s.subrange(0, s.len() as int) =~= s);
    }
}

proof fn lemma_trimmed_end_bounds(s: Seq<char>)
    ensures
        trimmed_end(s).len() > 0 ==> !is_unicode_whitespace(trimmed_end(s).last()),
        trimmed_end(s).len() > 0 ==> trimmed_end(s)[0] == s[0],
        exists|j: int| 0 <= j <= s.len() && trimmed_end(s) == s.subrange(0, j),
    decreases s.len(),
{
    if s.len() > 0 && is_unicode_whitespace(s.last()) {
        lemma_trimmed_end_bounds(s.drop_last());
        let j = choose|j: int|
            0 <= j <= s.drop_last().len() && trimmed_end(s.drop_last()) == s.drop_last().subrange(
                0,
                j,
            );
        assert(s.drop_last().subrange(0, j) =~= s.subrange(0, j));
    } else {
        assert(s.subrange(0, s.len() as int) =~= s);
    }
}

/// Trimming removes whitespace at both ends and nothing else: the result is
/// a contiguous part of the text that neither starts nor ends with whitespace.
pub proof fn lemma_trimmed_is_inner_part(s: Seq<char>)
    ensures
        trimmed(s).len() > 0 ==> !is_unicode_whitespace(trimmed(s)[0]),
        trimmed(s).len() > 0 ==> !is_unicode_whitespace(trimmed(s).last()),
        exists|i: int, j: int| 0 <= i <= j <= s.len() && trimmed(s) == s.subrange(i, j),
{
    let t = trimmed_start(s);
    lemma_trimmed_start_bounds(s);
    lemma_trimmed_end_bounds(t);
    let i = choose|i: int| 0 <= i <= s.len() && t == s.subrange(i, s.len() as int);
    let j = choose|j: int| 0 <= j <= t.len() && trimmed_end(t) == t.subrange(0, j);
    assert(t.subrange(0, j) =~= s.subrange(i, i + j));
}

/// A column number written after a `C` scans back as the same number: the
/// field ID `C<k>` names column `k`.
pub proof fn lemma_column_id_round_trip(k: i32)
    requires
        k >= 0,
    ensures
        scanned_column_id(seq!['C'] + decimal_string(k as nat)) == Some(k),
{
    reveal(scanned_column_id);
    reveal(scanned_i32);
    let ds = decimal_string(k as nat);
    let s = seq!['C'] + ds;
    lemma_decimal_string_digits(k as nat);
    lemma_digit_run_of_digits(ds);
    assert(is_decimal_digit(ds[0]));
    assert(skip_scan_spaces(ds) == ds);
    assert(s[0] == 'C');
    assert(skip_scan_spaces(s) == s);
    assert(s.drop_first() =~= ds);
}

} // verus!
