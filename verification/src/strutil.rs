//! Small verified string utilities shared by the board codec and the
//! arena protocol: appending a character, decimal parsing and decimal
//! formatting.

use vstd::prelude::*;

verus! {

/// Relies on `String::push`: appends exactly the given character to the
/// end of the string.
#[verifier::external_body]
pub fn push_char(s: &mut String, c: char)
    ensures
        final(s)@ == old(s)@.push(c),
{
    s.push(c);
}

/// Value of a decimal digit character, or 10 for any other character.
pub open spec fn digit_val(c: char) -> nat {
    if '0' <= c <= '9' {
        (c as nat - '0' as nat) as nat
    } else {
        10
    }
}

/// True when `c` is a decimal digit.
pub open spec fn is_digit(c: char) -> bool {
    '0' <= c <= '9'
}

/// The number denoted by a sequence of digit characters, most significant
/// first.
pub open spec fn dec_value(s: Seq<char>) -> nat
    decreases s.len(),
{
    if s.len() == 0 {
        0
    } else {
        dec_value(s.drop_last()) * 10 + digit_val(s.last())
    }
}

/// True when `s` is a well-formed decimal numeral: non-empty and all
/// digits.
pub open spec fn is_numeral(s: Seq<char>) -> bool {
    s.len() > 0 && forall|k: int| 0 <= k < s.len() ==> is_digit(#[trigger] s[k])
}

/// The digit character of a value below ten.
pub open spec fn digit_char(d: nat) -> char {
    if d == 0 {
        '0'
    } else if d == 1 {
        '1'
    } else if d == 2 {
        '2'
    } else if d == 3 {
        '3'
    } else if d == 4 {
        '4'
    } else if d == 5 {
        '5'
    } else if d == 6 {
        '6'
    } else if d == 7 {
        '7'
    } else if d == 8 {
        '8'
    } else {
        '9'
    }
}

/// The canonical decimal numeral of `n`: no leading zeros, most
/// significant digit first.
pub open spec fn dec_digits(n: nat) -> Seq<char>
    decreases n,
{
    if n < 10 {
        seq![digit_char(n)]
    } else {
        dec_digits(n / 10).push(digit_char(n % 10))
    }
}

/// The digit character of a value below ten.
fn digit_char_exec(d: u64) -> (c: char)
    requires
        d < 10,
    ensures
        c == digit_char(d as nat),
        is_digit(c),
        digit_val(c) == d,
{
    let c = match d {
        0u64 => '0',
        1u64 => '1',
        2u64 => '2',
        3u64 => '3',
        4u64 => '4',
        5u64 => '5',
        6u64 => '6',
        7u64 => '7',
        8u64 => '8',
        _ => '9',
    };
    c
}

/// The digit character of a value below ten denotes that value.
proof fn lemma_digit_char_val(d: nat)
    requires
        d < 10,
    ensures
        is_digit(digit_char(d)),
        digit_val(digit_char(d)) == d,
{
}

/// A canonical numeral denotes the number it was built from.
pub proof fn lemma_dec_digits_value(n: nat)
    ensures
        is_numeral(dec_digits(n)),
        dec_value(dec_digits(n)) == n,
    decreases n,
{
    if n < 10 {
        let s = dec_digits(n);
        lemma_digit_char_val(n);
        assert(s.drop_last() =~= Seq::<char>::empty());
        assert(dec_value(s) == dec_value(s.drop_last()) * 10 + digit_val(s.last()));
    } else {
        lemma_dec_digits_value(n / 10);
        lemma_digit_char_val(n % 10);
        let s = dec_digits(n);
        assert(s.drop_last() =~= dec_digits(n / 10));
        assert(dec_value(s) == dec_value(dec_digits(n / 10)) * 10 + (n % 10));
        assert(n / 10 * 10 + n % 10 == n) by (nonlinear_arith);
        assert forall|k: int| 0 <= k < s.len() implies is_digit(#[trigger] s[k]) by {
            if k < s.len() - 1 {
                assert(s[k] == dec_digits(n / 10)[k]);
            }
        }
    }
}

/// Append the canonical decimal numeral of `n` to `out`.
pub fn append_decimal(out: &mut String, n: u64)
    ensures
        final(out)@ == old(out)@ + dec_digits(n as nat),
    decreases n,
{
    if n < 10 {
        push_char(out, digit_char_exec(n));
        proof {
            assert(final(out)@ =~= old(out)@ + dec_digits(n as nat));
        }
    } else {
        append_decimal(out, n / 10);
        push_char(out, digit_char_exec(n % 10));
        proof {
            assert(final(out)@ =~= old(out)@ + dec_digits(n as nat));
        }
    }
}

/// Parse a decimal numeral. Returns the denoted value exactly when the
/// whole string is a numeral whose value fits in `u64`, and nothing
/// otherwise.
pub fn parse_decimal(s: &str) -> (r: Option<u64>)
    ensures
        match r {
            Some(v) => is_numeral(s@) && v == dec_value(s@) && dec_value(s@) <= u64::MAX,
            None => !is_numeral(s@) || dec_value(s@) > u64::MAX,
        },
{
    let n = s.unicode_len();
    if n == 0 {
        return None;
    }
    let mut i: usize = 0;
    let mut acc: u64 = 0;
    while i < n
        invariant
            0 < n == s@.len(),
            0 <= i <= n,
            forall|k: int| 0 <= k < i ==> is_digit(#[trigger] s@[k]),
            acc == dec_value(s@.subrange(0, i as int)),
        decreases n - i,
    {
        let c = s.get_char(i);
        if c < '0' || c > '9' {
            proof {
                lemma_non_digit_no_numeral(s@, i as int);
            }
            return None;
        }
        let d: u64 = (c as u32 as u64) - 48;
        assert(d == digit_val(c) && d < 10);
        if acc > (u64::MAX - d) / 10 {
            proof {
                assert(s@.subrange(0, i + 1).drop_last() =~= s@.subrange(0, i as int));
                assert(s@.subrange(0, i + 1).last() == s@[i as int]);
                assert(dec_value(s@.subrange(0, i + 1)) == acc * 10 + d);
                lemma_dec_value_prefix_monotonic(s@, i + 1);
                assert(acc * 10 + d > u64::MAX) by (nonlinear_arith)
                    requires
                        acc > (u64::MAX - d) / 10 && d < 10,
                ;
            }
            return None;
        }
        proof {
            assert(acc * 10 + d <= u64::MAX) by (nonlinear_arith)
                requires
                    acc <= (u64::MAX - d) / 10 && d < 10,
            ;
            assert(s@.subrange(0, (i + 1) as int).drop_last() =~= s@.subrange(0, i as int));
        }
        acc = acc * 10 + d;
        i = i + 1;
    }
    proof {
        assert(s@.subrange(0, n as int) =~= s@);
    }
    Some(acc)
}

/// A non-digit anywhere refutes the numeral shape.
proof fn lemma_non_digit_no_numeral(s: Seq<char>, i: int)
    requires
        0 <= i < s.len(),
        !is_digit(s[i]),
    ensures
        !is_numeral(s),
{
}

/// The value of a numeral is at least the value of any of its prefixes.
proof fn lemma_dec_value_prefix_monotonic(s: Seq<char>, i: int)
    requires
        0 <= i <= s.len(),
    ensures
        dec_value(s) >= dec_value(s.subrange(0, i)),
    decreases s.len() - i,
{
    if i < s.len() {
        lemma_dec_value_prefix_monotonic(s, i + 1);
        let a = s.subrange(0, i);
        let b = s.subrange(0, i + 1);
        assert(b.drop_last() =~= a);
        assert(dec_value(b) == dec_value(a) * 10 + digit_val(s[i]));
        assert(dec_value(a) * 10 >= dec_value(a)) by (nonlinear_arith);
    } else {
        assert(s.subrange(0, i) =~= s);
    }
}


/// True for the ASCII whitespace that line-based protocols produce.
pub open spec fn is_space(c: char) -> bool {
    c == ' ' || c == '\n' || c == '\r' || c == '\t'
}

/// `s` without its leading whitespace.
pub open spec fn trim_front(s: Seq<char>) -> Seq<char>
    decreases s.len(),
{
    if s.len() > 0 && is_space(s[0]) {
        trim_front(s.drop_first())
    } else {
        s
    }
}

/// `s` without its trailing whitespace.
pub open spec fn trim_back(s: Seq<char>) -> Seq<char>
    decreases s.len(),
{
    if s.len() > 0 && is_space(s.last()) {
        trim_back(s.drop_last())
    } else {
        s
    }
}

/// `s` without leading and trailing whitespace.
pub open spec fn trim_spec(s: Seq<char>) -> Seq<char> {
    trim_back(trim_front(s))
}

/// Dropping a whitespace prefix reaches the first non-space character.
proof fn lemma_trim_front_at(s: Seq<char>, i: int)
    requires
        0 <= i <= s.len(),
        forall|k: int| 0 <= k < i ==> is_space(#[trigger] s[k]),
        i < s.len() ==> !is_space(s[i]),
    ensures
        trim_front(s) =~= s.subrange(i, s.len() as int),
    decreases i,
{
    if i == 0 {
        if s.len() > 0 && is_space(s[0]) {
            assert(false);
        }
        assert(s.subrange(0, s.len() as int) =~= s);
    } else {
        assert(is_space(s[0]));
        let t = s.drop_first();
        assert forall|k: int| 0 <= k < i - 1 implies is_space(#[trigger] t[k]) by {
            assert(t[k] == s[k + 1]);
        }
        lemma_trim_front_at(t, i - 1);
        assert(t.subrange(i - 1, t.len() as int) =~= s.subrange(i, s.len() as int));
    }
}

/// Dropping a whitespace suffix reaches the last non-space character.
proof fn lemma_trim_back_at(s: Seq<char>, j: int)
    requires
        0 <= j <= s.len(),
        forall|k: int| j <= k < s.len() ==> is_space(#[trigger] s[k]),
        j > 0 ==> !is_space(s[j - 1]),
    ensures
        trim_back(s) =~= s.subrange(0, j),
    decreases s.len() - j,
{
    if j == s.len() {
        if s.len() > 0 && is_space(s.last()) {
            lemma_trim_back_at(s.drop_last(), j - 1);
            assert(s.drop_last().subrange(0, j - 1) =~= s.subrange(0, j - 1));
            assert(false);
        }
        assert(s.subrange(0, s.len() as int) =~= s);
    } else {
        assert(is_space(s[s.len() - 1]));
        let t = s.drop_last();
        assert forall|k: int| j <= k < t.len() implies is_space(#[trigger] t[k]) by {
            assert(t[k] == s[k]);
        }
        lemma_trim_back_at(t, j);
        assert(t.subrange(0, j) =~= s.subrange(0, j));
    }
}

/// Whether `c` is ASCII whitespace.
fn is_space_char(c: char) -> (r: bool)
    ensures
        r == is_space(c),
{
    c == ' ' || c == '\n' || c == '\r' || c == '\t'
}

/// The index of the first non-space character at or after `start`.
fn scan_non_space(line: &str, start: usize) -> (r: usize)
    requires
        start <= line@.len(),
    ensures
        start <= r <= line@.len(),
        forall|k: int| start <= k < r ==> is_space(#[trigger] line@[k]),
        r < line@.len() ==> !is_space(line@[r as int]),
{
    let n = line.unicode_len();
    let mut i: usize = start;
    while i < n
        invariant
            n == line@.len(),
            start <= i <= n,
            forall|k: int| start <= k < i ==> is_space(#[trigger] line@[k]),
        decreases n - i,
    {
        if !is_space_char(line.get_char(i)) {
            return i;
        }
        i = i + 1;
    }
    i
}

/// The end of the last non-space character strictly after `floor`, given
/// that position `floor` is not a space.
fn scan_back_non_space(line: &str, floor: usize) -> (r: usize)
    requires
        floor < line@.len(),
        !is_space(line@[floor as int]),
    ensures
        floor < r <= line@.len(),
        forall|k: int| r <= k < line@.len() ==> is_space(#[trigger] line@[k]),
        !is_space(line@[r - 1]),
{
    let n = line.unicode_len();
    let mut b: usize = n;
    while b > floor + 1
        invariant
            n == line@.len(),
            floor < b <= n,
            forall|k: int| b <= k < n ==> is_space(#[trigger] line@[k]),
        decreases b,
    {
        if !is_space_char(line.get_char(b - 1)) {
            return b;
        }
        b = b - 1;
    }
    b
}

/// `line` without leading and trailing ASCII whitespace.
pub fn trim<'a>(line: &'a str) -> (r: &'a str)
    ensures
        r@ == trim_spec(line@),
{
    let n = line.unicode_len();
    let a = scan_non_space(line, 0);
    if a == n {
        proof {
            lemma_trim_front_at(line@, a as int);
            lemma_trim_back_at(line@.subrange(a as int, n as int), 0);
        }
        let r = line.substring_char(a, n);
        return r;
    }
    let b = scan_back_non_space(line, a);
    proof {
        lemma_trim_front_at(line@, a as int);
        let t = line@.subrange(a as int, n as int);
        assert forall|k: int| b - a <= k < t.len() implies is_space(#[trigger] t[k]) by {
            assert(t[k] == line@[k + a]);
        }
        assert(t[b - a - 1] == line@[b as int - 1]);
        lemma_trim_back_at(t, b as int - a as int);
        assert(t.subrange(0, b as int - a as int) =~= line@.subrange(a as int, b as int));
    }
    line.substring_char(a, b)
}

/// True exactly when the two strings hold the same characters.
pub fn string_eq(a: &str, b: &str) -> (r: bool)
    ensures
        r == (a@ =~= b@),
{
    let n = a.unicode_len();
    if n != b.unicode_len() {
        return false;
    }
    let mut i: usize = 0;
    while i < n
        invariant
            n == a@.len() == b@.len(),
            0 <= i <= n,
            forall|k: int| 0 <= k < i ==> a@[k] == b@[k],
        decreases n - i,
    {
        if a.get_char(i) != b.get_char(i) {
            return false;
        }
        i = i + 1;
    }
    true
}


/// Length of the leading word of `s`: the count of characters before
/// the first whitespace.
pub open spec fn word_end(s: Seq<char>) -> nat
    decreases s.len(),
{
    if s.len() == 0 || is_space(s[0]) {
        0
    } else {
        (word_end(s.drop_first()) + 1) as nat
    }
}

/// The leading word ends within the string, holds no whitespace, and is
/// followed by whitespace when anything follows it.
proof fn lemma_word_end_bounds(s: Seq<char>)
    ensures
        word_end(s) <= s.len(),
        forall|k: int| 0 <= k < word_end(s) ==> !is_space(#[trigger] s[k]),
        word_end(s) < s.len() ==> is_space(s[word_end(s) as int]),
    decreases s.len(),
{
    if s.len() > 0 && !is_space(s[0]) {
        lemma_word_end_bounds(s.drop_first());
        let t = s.drop_first();
        assert forall|k: int| 0 <= k < word_end(s) implies !is_space(#[trigger] s[k]) by {
            if k > 0 {
                assert(t[k - 1] == s[k]);
            }
        }
        if word_end(s) < s.len() {
            assert(t[word_end(s) as int - 1] == s[word_end(s) as int]);
        }
    }
}

/// A scan that stops at the first whitespace finds the leading word.
proof fn lemma_word_end_at(s: Seq<char>, w: int)
    requires
        1 <= w <= s.len(),
        forall|k: int| 0 <= k < w ==> !is_space(#[trigger] s[k]),
        w < s.len() ==> is_space(s[w]),
    ensures
        word_end(s) == w,
    decreases w,
{
    let t = s.drop_first();
    assert(!is_space(s[0]));
    assert(word_end(s) == (word_end(t) + 1) as nat);
    if w == 1 {
        if t.len() > 0 {
            assert(t[0] == s[1]);
        }
        assert(word_end(t) == 0);
    } else {
        assert forall|k: int| 0 <= k < w - 1 implies !is_space(#[trigger] t[k]) by {
            assert(t[k] == s[k + 1]);
        }
        if w - 1 < t.len() {
            assert(t[w - 1] == s[w]);
        }
        lemma_word_end_at(t, w - 1);
    }
}

/// The whitespace-separated words of `s`, in order.
pub open spec fn split_ws_spec(s: Seq<char>) -> Seq<Seq<char>>
    decreases s.len(),
    via split_ws_spec_decreases
{
    if s.len() == 0 {
        Seq::empty()
    } else if is_space(s[0]) {
        split_ws_spec(s.drop_first())
    } else {
        seq![s.subrange(0, word_end(s) as int)] + split_ws_spec(
            s.subrange(word_end(s) as int, s.len() as int),
        )
    }
}

#[via_fn]
proof fn split_ws_spec_decreases(s: Seq<char>) {
    if s.len() > 0 && !is_space(s[0]) {
        lemma_word_end_bounds(s);
        assert(word_end(s) == (word_end(s.drop_first()) + 1) as nat);
        assert(s.subrange(word_end(s) as int, s.len() as int).len() < s.len());
    }
}

/// The character sequences of a sequence of strings.
pub open spec fn words_of(v: Seq<String>) -> Seq<Seq<char>> {
    v.map_values(|x: String| x@)
}

/// The end of the word starting at `start`.
fn scan_word_end(line: &str, start: usize) -> (r: usize)
    requires
        start < line@.len(),
        !is_space(line@[start as int]),
    ensures
        start < r <= line@.len(),
        forall|k: int| start <= k < r ==> !is_space(#[trigger] line@[k]),
        r < line@.len() ==> is_space(line@[r as int]),
{
    let n = line.unicode_len();
    let mut j: usize = start + 1;
    while j < n
        invariant
            n == line@.len(),
            start < j <= n,
            forall|k: int| start <= k < j ==> !is_space(#[trigger] line@[k]),
        decreases n - j,
    {
        if is_space_char(line.get_char(j)) {
            return j;
        }
        j = j + 1;
    }
    j
}

/// Split a line into its whitespace-separated words.
pub fn split_ws(line: &str) -> (r: Vec<String>)
    ensures
        words_of(r@) == split_ws_spec(line@),
{
    let n = line.unicode_len();
    let mut out: Vec<String> = Vec::new();
    proof {
        assert(line@.subrange(0, n as int) =~= line@);
        assert(words_of(out@) =~~= Seq::<Seq<char>>::empty());
    }
    let mut i: usize = 0;
    while i < n
        invariant
            n == line@.len(),
            0 <= i <= n,
            words_of(out@) + split_ws_spec(line@.subrange(i as int, n as int)) =~~= split_ws_spec(
                line@,
            ),
        decreases n - i,
    {
        let c = line.get_char(i);
        if is_space_char(c) {
            proof {
                let t = line@.subrange(i as int, n as int);
                assert(t.drop_first() =~= line@.subrange(i + 1, n as int));
            }
            i = i + 1;
        } else {
            let j = scan_word_end(line, i);
            let w = line.substring_char(i, j);
            let ghost prev = out@;
            out.push(String::from_str(w));
            proof {
                let t = line@.subrange(i as int, n as int);
                assert forall|k: int| 0 <= k < j - i implies !is_space(#[trigger] t[k]) by {
                    assert(t[k] == line@[k + i]);
                }
                if j < n {
                    assert(t[j - i] == line@[j as int]);
                }
                lemma_word_end_at(t, j - i);
                assert(t.subrange(0, j - i) =~= line@.subrange(i as int, j as int));
                assert(t.subrange(j - i, t.len() as int) =~= line@.subrange(j as int, n as int));
                assert(w@ =~= t.subrange(0, j - i));
                assert(words_of(out@) =~= words_of(prev).push(w@));
                assert(split_ws_spec(t) =~~= seq![w@] + split_ws_spec(
                    line@.subrange(j as int, n as int),
                ));
                assert(words_of(out@) + split_ws_spec(line@.subrange(j as int, n as int))
                    =~~= words_of(prev) + split_ws_spec(t));
            }
            i = j;
        }
    }
    proof {
        assert(line@.subrange(n as int, n as int) =~= Seq::<char>::empty());
        assert(words_of(out@) =~~= split_ws_spec(line@));
    }
    out
}

} // verus!
