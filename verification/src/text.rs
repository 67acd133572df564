//! Small text utilities shared by the FEN, UCI and book code: building
//! strings character by character, decimal numerals, and splitting.

use vstd::prelude::*;
use vstd::string::StringExecFns;

verus! {

/// `String::push` of std: appends one character to the string.
#[verifier::external_body]
pub(crate) fn push_char(s: &mut String, c: char)
    ensures
        final(s)@ == old(s)@.push(c),
{
    s.push(c);
}

/// Whether a non-ASCII character has the Unicode `White_Space` property, which
/// `char::is_whitespace` decides: U+0085, U+00A0, U+1680, U+2000 to U+200A,
/// U+2028, U+2029, U+202F, U+205F and U+3000.
pub open spec fn unicode_whitespace(c: char) -> bool {
    let v = c as u32;
    v == 0x85 || v == 0xA0 || v == 0x1680 || (0x2000 <= v && v <= 0x200A) || v == 0x2028 || v == 0x2029
        || v == 0x202F || v == 0x205F || v == 0x3000
}

/// Whether a character is whitespace: among ASCII characters the space and the
/// controls U+0009 to U+000D; beyond ASCII the Unicode `White_Space` property.
pub open spec fn whitespace_char(c: char) -> bool {
    if (c as u32) < 128 {
        c == ' ' || ('\t' <= c && c <= '\r')
    } else {
        unicode_whitespace(c)
    }
}

/// Whether a character is whitespace, as `char::is_whitespace` decides it.
pub fn is_whitespace(c: char) -> (r: bool)
    ensures
        r == whitespace_char(c),
{
    let v = c as u32;
    if v < 128 {
        c == ' ' || ('\t' <= c && c <= '\r')
    } else {
        v == 0x85 || v == 0xA0 || v == 0x1680 || (0x2000 <= v && v <= 0x200A) || v == 0x2028 || v == 0x2029
            || v == 0x202F || v == 0x205F || v == 0x3000
    }
}

/// Whether a non-ASCII character has the Unicode `Lowercase` property, as `char::is_lowercase` decides.
pub uninterp spec fn unicode_lowercase(c: char) -> bool;

/// Whether a non-ASCII character has the Unicode `Uppercase` property, as `char::is_uppercase` decides.
pub uninterp spec fn unicode_uppercase(c: char) -> bool;

/// Lower case: `a` to `z` among ASCII characters, the Unicode property beyond.
pub open spec fn lowercase_char(c: char) -> bool {
    if (c as u32) < 128 { 'a' <= c && c <= 'z' } else { unicode_lowercase(c) }
}

/// Upper case: `A` to `Z` among ASCII characters, the Unicode property beyond.
pub open spec fn uppercase_char(c: char) -> bool {
    if (c as u32) < 128 { 'A' <= c && c <= 'Z' } else { unicode_uppercase(c) }
}

/// `char::is_lowercase` of std: the Unicode `Lowercase` property, which among
/// ASCII characters holds exactly for `a` to `z`. Beyond ASCII the property is
/// named, not spelled out.
#[verifier::external_body]
pub(crate) fn is_lowercase(c: char) -> (r: bool)
    ensures
        (c as u32) < 128 ==> (r <==> ('a' <= c && c <= 'z')),
        (c as u32) >= 128 ==> r == unicode_lowercase(c),
{
    c.is_lowercase()
}

/// `char::is_uppercase` of std: the Unicode `Uppercase` property, which among
/// ASCII characters holds exactly for `A` to `Z`. Beyond ASCII the property is
/// named, not spelled out.
#[verifier::external_body]
pub(crate) fn is_uppercase(c: char) -> (r: bool)
    ensures
        (c as u32) < 128 ==> (r <==> ('A' <= c && c <= 'Z')),
        (c as u32) >= 128 ==> r == unicode_uppercase(c),
{
    c.is_uppercase()
}

/// The text without its leading whitespace.
pub open spec fn trim_start_ws(s: Seq<char>) -> Seq<char>
    decreases s.len(),
{
    if s.len() > 0 && whitespace_char(s[0]) { trim_start_ws(s.drop_first()) } else { s }
}

/// The text without its trailing whitespace.
pub open spec fn trim_end_ws(s: Seq<char>) -> Seq<char>
    decreases s.len(),
{
    if s.len() > 0 && whitespace_char(s.last()) { trim_end_ws(s.drop_last()) } else { s }
}

/// The text without leading and trailing whitespace, as `str::trim` gives it.
pub open spec fn trim_ws(s: Seq<char>) -> Seq<char> {
    trim_end_ws(trim_start_ws(s))
}

proof fn lemma_trim_start_sub(s: Seq<char>, i: int)
    requires
        0 <= i <= s.len(),
        forall|k: int| 0 <= k < i ==> whitespace_char(#[trigger] s[k]),
    ensures
        trim_start_ws(s) == trim_start_ws(s.subrange(i, s.len() as int)),
    decreases i,
{
    if i > 0 {
        assert(s.drop_first().subrange(i - 1, s.drop_first().len() as int) =~= s.subrange(i, s.len() as int));
        assert forall|k: int| 0 <= k < i - 1 implies whitespace_char(#[trigger] s.drop_first()[k]) by {
            assert(s.drop_first()[k] == s[k + 1]);
        }
        lemma_trim_start_sub(s.drop_first(), i - 1);
    } else {
        assert(s.subrange(0, s.len() as int) =~= s);
    }
}

proof fn lemma_trim_end_sub(s: Seq<char>, j: int)
    requires
        0 <= j <= s.len(),
        forall|k: int| j <= k < s.len() ==> whitespace_char(#[trigger] s[k]),
    ensures
        trim_end_ws(s) == trim_end_ws(s.subrange(0, j)),
    decreases s.len() - j,
{
    if j < s.len() {
        assert(s.drop_last().subrange(0, j) =~= s.subrange(0, j));
        lemma_trim_end_sub(s.drop_last(), j);
    } else {
        assert(s.subrange(0, s.len() as int) =~= s);
    }
}

/// Removes leading and trailing whitespace.
pub fn trim(s: &Vec<char>) -> (r: Vec<char>)
    ensures
        r@ == trim_ws(s@),
{
    let n = s.len();
    let mut i: usize = 0;
    while i < n && is_whitespace(s[i])
        invariant
            i <= n,
            n == s@.len(),
            forall|k: int| 0 <= k < i ==> whitespace_char(#[trigger] s@[k]),
        decreases n - i,
    {
        i = i + 1;
    }
    proof {
        lemma_trim_start_sub(s@, i as int);
    }
    let ghost rest = s@.subrange(i as int, n as int);
    assert(i < n ==> !whitespace_char(rest[0]));
    assert(trim_start_ws(rest) == rest);
    let mut j: usize = n;
    while j > i && is_whitespace(s[j - 1])
        invariant
            i <= j <= n,
            n == s@.len(),
            rest == s@.subrange(i as int, n as int),
            forall|k: int| j - i <= k < rest.len() ==> whitespace_char(#[trigger] rest[k]),
        decreases j - i,
    {
        j = j - 1;
    }
    proof {
        lemma_trim_end_sub(rest, j - i);
        assert(rest.subrange(0, j - i) =~= s@.subrange(i as int, j as int));
    }
    let mut out: Vec<char> = Vec::new();
    let mut k: usize = i;
    while k < j
        invariant
            i <= k <= j <= n,
            n == s@.len(),
            out@ =~= s@.subrange(i as int, k as int),
        decreases j - k,
    {
        out.push(s[k]);
        k = k + 1;
    }
    out
}

/// A message made of a fixed text and an argument.
pub fn message(prefix: &str, arg: &str) -> (r: String)
    ensures
        r@ == prefix@ + arg@,
{
    let mut s = String::from_str(prefix);
    s.append(arg);
    s
}

/// A message made of a fixed text and one character.
pub fn message_char(prefix: &str, c: char) -> (r: String)
    ensures
        r@ == prefix@.push(c),
{
    let mut s = String::from_str(prefix);
    push_char(&mut s, c);
    s
}

/// The character of a decimal digit.
pub open spec fn digit_char(d: int) -> char {
    ((d + 48) as u8) as char
}

/// The value of a decimal digit character.
pub open spec fn digit_value(c: char) -> int {
    (c as u32) - 48
}

pub open spec fn is_digit(c: char) -> bool {
    '0' <= c && c <= '9'
}

/// The decimal numeral of a natural number, without leading zeros.
pub open spec fn decimal(n: nat) -> Seq<char>
    decreases n,
{
    if n < 10 {
        seq![digit_char(n as int)]
    } else {
        decimal(n / 10).push(digit_char((n % 10) as int))
    }
}

fn digit_to_char(d: u64) -> (c: char)
    requires
        d < 10,
    ensures
        c == digit_char(d as int),
        is_digit(c),
        digit_value(c) == d,
{
    let b: u8 = 48u8 + (d as u8);
    let c = b as char;
    assert(c == digit_char(d as int));
    assert((c as u32) == b as u32);
    c
}

/// Appends the decimal numeral of `n`.
pub fn push_decimal(s: &mut String, n: u64)
    ensures
        final(s)@ == old(s)@ + decimal(n as nat),
    decreases n,
{
    if n >= 10 {
        push_decimal(s, n / 10);
    }
    let c = digit_to_char(n % 10);
    push_char(s, c);
    proof {
        if n >= 10 {
            assert(decimal(n as nat) == decimal((n / 10) as nat).push(digit_char((n % 10) as int)));
        } else {
            assert(decimal(n as nat) == seq![digit_char(n as int)]);
        }
        assert(final(s)@ =~= old(s)@ + decimal(n as nat));
    }
}

/// The value of a string of decimal digits.
pub open spec fn digits_value(s: Seq<char>) -> int
    decreases s.len(),
{
    if s.len() == 0 {
        0
    } else {
        digits_value(s.drop_last()) * 10 + digit_value(s.last())
    }
}

pub open spec fn all_digits(s: Seq<char>) -> bool {
    forall|i: int| 0 <= i < s.len() ==> is_digit(#[trigger] s[i])
}

/// What `str::parse::<u32>` gives for a text: an optional `+` sign followed by
/// at least one decimal digit, whose value fits in 32 bits.
pub open spec fn parse_u32_spec(s: Seq<char>) -> Option<u32> {
    let d = if s.len() > 0 && s[0] == '+' { s.drop_first() } else { s };
    if d.len() > 0 && all_digits(d) && digits_value(d) <= u32::MAX {
        Some(digits_value(d) as u32)
    } else {
        None
    }
}

proof fn lemma_digits_value_nonneg(s: Seq<char>)
    requires
        all_digits(s),
    ensures
        digits_value(s) >= 0,
    decreases s.len(),
{
    if s.len() > 0 {
        assert(all_digits(s.drop_last()));
        lemma_digits_value_nonneg(s.drop_last());
    }
}

proof fn lemma_digits_value_monotone(s: Seq<char>, i: int)
    requires
        all_digits(s),
        0 <= i <= s.len(),
    ensures
        digits_value(s.take(i)) <= digits_value(s),
    decreases s.len() - i,
{
    if i < s.len() {
        lemma_digits_value_monotone(s, i + 1);
        assert(s.take(i + 1).drop_last() =~= s.take(i));
        assert(all_digits(s.take(i)));
        lemma_digits_value_nonneg(s.take(i));
    } else {
        assert(s.take(i) =~= s);
    }
}

/// Parses an unsigned 32-bit decimal number the way `str::parse::<u32>` does.
pub fn parse_u32(s: &Vec<char>) -> (r: Option<u32>)
    ensures
        r == parse_u32_spec(s@),
{
    let n = s.len();
    let mut start: usize = 0;
    if n > 0 && s[0] == '+' {
        start = 1;
    }
    let ghost d = if s@.len() > 0 && s@[0] == '+' { s@.drop_first() } else { s@ };
    assert(d =~= s@.subrange(start as int, n as int));
    if start == n {
        return None;
    }
    let mut value: u64 = 0;
    let mut i: usize = start;
    while i < n
        invariant
            start <= i <= n,
            n == s@.len(),
            d == (if s@.len() > 0 && s@[0] == '+' { s@.drop_first() } else { s@ }),
            d =~= s@.subrange(start as int, n as int),
            start < n,
            all_digits(d.take(i - start)),
            value as int == digits_value(d.take(i - start)),
            value <= u32::MAX,
        decreases n - i,
    {
        let c = s[i];
        if !('0' <= c && c <= '9') {
            proof {
                assert(d[i - start] == c);
                assert(!is_digit(d[i - start]));
                assert(!all_digits(d));
            }
            return None;
        }
        let dv: u64 = (c as u32 - 48) as u64;
        let ghost prev = d.take(i - start);
        assert(d.take(i + 1 - start).drop_last() =~= prev);
        assert(d.take(i + 1 - start).last() == c);
        let next = value * 10 + dv;
        if next > 4294967295u64 {
            proof {
                assert(d[i - start] == c);
                assert(is_digit(c));
                assert(all_digits(d.take(i + 1 - start)));
                assert(digits_value(d.take(i + 1 - start)) == value * 10 + dv);
                if all_digits(d) {
                    lemma_digits_value_monotone(d, i + 1 - start);
                }
            }
            return None;
        }
        value = next;
        i = i + 1;
    }
    assert(d.take(n - start) =~= d);
    Some(value as u32)
}

/// What `str::parse` gives for an unsigned type whose largest value is `max`:
/// an optional `+` sign followed by at least one decimal digit, whose value
/// does not exceed `max`.
pub open spec fn parse_bounded_spec(s: Seq<char>, max: int) -> Option<int> {
    let d = if s.len() > 0 && s[0] == '+' { s.drop_first() } else { s };
    if d.len() > 0 && all_digits(d) && digits_value(d) <= max {
        Some(digits_value(d))
    } else {
        None
    }
}

/// Parses an unsigned decimal number no greater than `max`, the way `str::parse`
/// does for an unsigned type of that range.
pub fn parse_bounded(s: &Vec<char>, max: u128) -> (r: Option<u128>)
    ensures
        r matches Some(v) ==> parse_bounded_spec(s@, max as int) == Some(v as int),
        r is None ==> parse_bounded_spec(s@, max as int) is None,
{
    let n = s.len();
    let mut start: usize = 0;
    if n > 0 && s[0] == '+' {
        start = 1;
    }
    let ghost d = if s@.len() > 0 && s@[0] == '+' { s@.drop_first() } else { s@ };
    assert(d =~= s@.subrange(start as int, n as int));
    if start == n {
        return None;
    }
    let mut value: u128 = 0;
    let mut i: usize = start;
    while i < n
        invariant
            start <= i <= n,
            n == s@.len(),
            d == (if s@.len() > 0 && s@[0] == '+' { s@.drop_first() } else { s@ }),
            d =~= s@.subrange(start as int, n as int),
            start < n,
            all_digits(d.take(i - start)),
            value as int == digits_value(d.take(i - start)),
            value <= max,
        decreases n - i,
    {
        let c = s[i];
        if !('0' <= c && c <= '9') {
            proof {
                assert(d[i - start] == c);
                assert(!is_digit(d[i - start]));
                assert(!all_digits(d));
            }
            return None;
        }
        let dv: u128 = (c as u32 - 48) as u128;
        let ghost prev = d.take(i - start);
        assert(d.take(i + 1 - start).drop_last() =~= prev);
        assert(d.take(i + 1 - start).last() == c);
        if dv > max || value > (max - dv) / 10 {
            proof {
                assert(d[i - start] == c);
                assert(is_digit(c));
                assert(all_digits(d.take(i + 1 - start)));
                assert(digits_value(d.take(i + 1 - start)) == value * 10 + dv);
                assert(value * 10 + dv > max) by (nonlinear_arith)
                    requires
                        dv > max || value > (max - dv) / 10,
                        0 <= dv,
                        0 <= value;
                if all_digits(d) {
                    lemma_digits_value_monotone(d, i + 1 - start);
                }
            }
            return None;
        }
        assert(value * 10 + dv <= max) by (nonlinear_arith)
            requires
                dv <= max,
                value <= (max - dv) / 10,
                0 <= dv,
                0 <= value;
        value = value * 10 + dv;
        i = i + 1;
    }
    assert(d.take(n - start) =~= d);
    Some(value)
}

/// The whitespace-separated tokens of a text, as `str::split_whitespace` yields them.
pub open spec fn split_ws(s: Seq<char>) -> Seq<Seq<char>> {
    let st = split_ws_state(s);
    if st.1.len() > 0 { st.0.push(st.1) } else { st.0 }
}

/// Tokens completed so far and the token in progress after reading `s`.
pub open spec fn split_ws_state(s: Seq<char>) -> (Seq<Seq<char>>, Seq<char>)
    decreases s.len(),
{
    if s.len() == 0 {
        (Seq::empty(), Seq::empty())
    } else {
        let st = split_ws_state(s.drop_last());
        let c = s.last();
        if whitespace_char(c) {
            if st.1.len() > 0 { (st.0.push(st.1), Seq::empty()) } else { (st.0, Seq::empty()) }
        } else {
            (st.0, st.1.push(c))
        }
    }
}

/// The pieces of a text between occurrences of a separator, empty pieces
/// included, as `str::split` with a character yields them.
pub open spec fn split_on(s: Seq<char>, sep: char) -> Seq<Seq<char>> {
    let st = split_on_state(s, sep);
    st.0.push(st.1)
}

pub open spec fn split_on_state(s: Seq<char>, sep: char) -> (Seq<Seq<char>>, Seq<char>)
    decreases s.len(),
{
    if s.len() == 0 {
        (Seq::empty(), Seq::empty())
    } else {
        let st = split_on_state(s.drop_last(), sep);
        let c = s.last();
        if c == sep { (st.0.push(st.1), Seq::empty()) } else { (st.0, st.1.push(c)) }
    }
}

/// Splitting yields at least one piece.
pub proof fn lemma_split_on_nonempty(s: Seq<char>, sep: char)
    ensures
        split_on(s, sep).len() >= 1,
{
}

/// The characters of a string slice, in order.
pub fn chars_of(s: &str) -> (v: Vec<char>)
    ensures
        v@ == s@,
{
    let n = s.unicode_len();
    let mut v: Vec<char> = Vec::new();
    let mut i: usize = 0;
    while i < n
        invariant
            i <= n,
            n == s@.len(),
            v@ =~= s@.take(i as int),
        decreases n - i,
    {
        v.push(s.get_char(i));
        i = i + 1;
        assert(v@ =~= s@.take(i as int));
    }
    assert(s@.take(n as int) =~= s@);
    v
}

/// Splits a text at whitespace.
pub fn split_whitespace(s: &Vec<char>) -> (r: Vec<Vec<char>>)
    ensures
        r@.len() == split_ws(s@).len(),
        forall|i: int| 0 <= i < r@.len() ==> #[trigger] r@[i]@ == split_ws(s@)[i],
{
    let n = s.len();
    let mut done: Vec<Vec<char>> = Vec::new();
    let mut cur: Vec<char> = Vec::new();
    let mut i: usize = 0;
    while i < n
        invariant
            i <= n,
            n == s@.len(),
            done@.len() == split_ws_state(s@.take(i as int)).0.len(),
            forall|k: int| 0 <= k < done@.len() ==> #[trigger] done@[k]@ == split_ws_state(s@.take(i as int)).0[k],
            cur@ == split_ws_state(s@.take(i as int)).1,
        decreases n - i,
    {
        let c = s[i];
        assert(s@.take(i + 1).drop_last() =~= s@.take(i as int));
        if is_whitespace(c) {
            if cur.len() > 0 {
                let t = cur;
                done.push(t);
                cur = Vec::new();
            }
        } else {
            cur.push(c);
        }
        i = i + 1;
    }
    assert(s@.take(n as int) =~= s@);
    if cur.len() > 0 {
        done.push(cur);
    }
    done
}

/// Splits a text at every occurrence of a separator character.
pub fn split_on_char(s: &Vec<char>, sep: char) -> (r: Vec<Vec<char>>)
    ensures
        r@.len() == split_on(s@, sep).len(),
        forall|i: int| 0 <= i < r@.len() ==> #[trigger] r@[i]@ == split_on(s@, sep)[i],
{
    let n = s.len();
    let mut done: Vec<Vec<char>> = Vec::new();
    let mut cur: Vec<char> = Vec::new();
    let mut i: usize = 0;
    while i < n
        invariant
            i <= n,
            n == s@.len(),
            done@.len() == split_on_state(s@.take(i as int), sep).0.len(),
            forall|k: int| 0 <= k < done@.len() ==> #[trigger] done@[k]@ == split_on_state(s@.take(i as int), sep).0[k],
            cur@ == split_on_state(s@.take(i as int), sep).1,
        decreases n - i,
    {
        let c = s[i];
        assert(s@.take(i + 1).drop_last() =~= s@.take(i as int));
        if c == sep {
            let t = cur;
            done.push(t);
            cur = Vec::new();
        } else {
            cur.push(c);
        }
        i = i + 1;
    }
    assert(s@.take(n as int) =~= s@);
    done.push(cur);
    done
}

/// Whether two character sequences are equal.
pub fn chars_equal(a: &Vec<char>, b: &str) -> (r: bool)
    ensures
        r == (a@ == b@),
{
    let bv = chars_of(b);
    if a.len() != bv.len() {
        return false;
    }
    let mut i: usize = 0;
    while i < a.len()
        invariant
            i <= a@.len(),
            a@.len() == bv@.len(),
            bv@ == b@,
            forall|k: int| 0 <= k < i ==> a@[k] == bv@[k],
        decreases a@.len() - i,
    {
        if a[i] != bv[i] {
            return false;
        }
        i = i + 1;
    }
    assert(a@ =~= bv@);
    true
}

} // verus!
