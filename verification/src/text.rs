//! Text handling shared by the parsers and renderers: white space and
//! trimming as `str::trim` does it, ASCII case folding, unsigned number
//! parsing as `str::parse` and `from_str_radix` do it, and decimal and
//! hexadecimal rendering as `{}` and `{:x}` do it.

use vstd::prelude::*;
use vstd::string::StrSliceExecFns;
use vstd::string::StringExecFns;

verus! {

// ---------------------------------------------------------------------------
// Characters
// ---------------------------------------------------------------------------

/// Unicode `White_Space`, the set that `char::is_whitespace` tests.
pub open spec fn is_space(c: char) -> bool {
    ||| ('\u{9}' <= c && c <= '\u{d}')
    ||| c == ' '
    ||| c == '\u{85}'
    ||| c == '\u{a0}'
    ||| c == '\u{1680}'
    ||| ('\u{2000}' <= c && c <= '\u{200a}')
    ||| c == '\u{2028}'
    ||| c == '\u{2029}'
    ||| c == '\u{202f}'
    ||| c == '\u{205f}'
    ||| c == '\u{3000}'
}

/// The five characters that `char::is_ascii_whitespace` accepts.
pub open spec fn is_ascii_space(c: char) -> bool {
    c == ' ' || c == '\t' || c == '\n' || c == '\u{c}' || c == '\r'
}

pub fn is_space_char(c: char) -> (b: bool)
    ensures
        b == is_space(c),
{
    ('\u{9}' <= c && c <= '\u{d}') || c == ' ' || c == '\u{85}' || c == '\u{a0}' || c == '\u{1680}'
        || ('\u{2000}' <= c && c <= '\u{200a}') || c == '\u{2028}' || c == '\u{2029}' || c
        == '\u{202f}' || c == '\u{205f}' || c == '\u{3000}'
}

pub fn is_ascii_space_char(c: char) -> (b: bool)
    ensures
        b == is_ascii_space(c),
{
    c == ' ' || c == '\t' || c == '\n' || c == '\u{c}' || c == '\r'
}

/// The code of `c` with an ASCII upper-case letter folded to lower case.
pub open spec fn fold_code(c: char) -> u32 {
    if 'A' <= c && c <= 'Z' {
        (c as u32 + 32) as u32
    } else {
        c as u32
    }
}

fn fold_code_exec(c: char) -> (r: u32)
    ensures
        r == fold_code(c),
{
    if 'A' <= c && c <= 'Z' {
        c as u32 + 32
    } else {
        c as u32
    }
}

/// `s` with its ASCII upper-case letters lowered, as `str::to_ascii_lowercase`
/// gives it.
pub open spec fn ascii_lower(s: Seq<char>) -> Seq<char> {
    Seq::new(
        s.len(),
        |i: int|
            if 'A' <= s[i] && s[i] <= 'Z' {
                ((s[i] as u32) + 32) as char
            } else {
                s[i]
            },
    )
}

/// No character of `w` is an ASCII upper-case letter.
pub open spec fn no_upper(w: Seq<char>) -> bool {
    forall|i: int| 0 <= i < w.len() ==> !('A' <= #[trigger] w[i] && w[i] <= 'Z')
}

/// Against a word without upper-case letters, comparing without regard to
/// ASCII case is lowering the other text and comparing.
pub proof fn lemma_ignore_case_is_lowering(t: Seq<char>, w: Seq<char>)
    requires
        no_upper(w),
    ensures
        eq_ignore_ascii_case(t, w) <==> ascii_lower(t) == w,
{
    let l = ascii_lower(t);
    if eq_ignore_ascii_case(t, w) {
        assert forall|i: int| 0 <= i < w.len() implies #[trigger] l[i] == w[i] by {
            assert(fold_code(t[i]) == fold_code(w[i]));
            assert(!('A' <= w[i] && w[i] <= 'Z'));
            assert(fold_code(w[i]) == w[i] as u32);
            if 'A' <= t[i] && t[i] <= 'Z' {
                assert(fold_code(t[i]) == t[i] as u32 + 32);
                assert(l[i] as u32 == t[i] as u32 + 32);
            } else {
                assert(l[i] == t[i]);
            }
            assert(l[i] as u32 == w[i] as u32);
            vstd::utf8::char_u32_cast(l[i], l[i] as u32);
            vstd::utf8::char_u32_cast(w[i], w[i] as u32);
        }
        assert(l =~= w);
    }
    if l == w {
        assert forall|i: int| 0 <= i < t.len() implies fold_code(#[trigger] t[i]) == fold_code(w[i]) by {
            assert(l[i] == w[i]);
            assert(!('A' <= w[i] && w[i] <= 'Z'));
        }
    }
}

// ---------------------------------------------------------------------------
// Trimming
// ---------------------------------------------------------------------------

/// `s` without its leading white space.
pub open spec fn trim_start(s: Seq<char>) -> Seq<char>
    decreases s.len(),
{
    if s.len() > 0 && is_space(s[0]) {
        trim_start(s.drop_first())
    } else {
        s
    }
}

/// `s` without its trailing white space.
pub open spec fn trim_end(s: Seq<char>) -> Seq<char>
    decreases s.len(),
{
    if s.len() > 0 && is_space(s.last()) {
        trim_end(s.drop_last())
    } else {
        s
    }
}

/// `s` without leading and trailing white space, as `str::trim` gives it.
pub open spec fn trim(s: Seq<char>) -> Seq<char> {
    trim_end(trim_start(s))
}

/// `str::trim`: the text without leading and trailing white space.
pub fn trim_text(s: &str) -> (r: &str)
    ensures
        r@ == trim(s@),
{
    let n = s.unicode_len();
    let mut i: usize = 0;
    assert(s@.subrange(0, n as int) =~= s@);
    while i < n && is_space_char(s.get_char(i))
        invariant
            i <= n,
            n == s@.len(),
            trim_start(s@) == trim_start(s@.subrange(i as int, n as int)),
        decreases n - i,
    {
        assert(s@.subrange(i as int, n as int).drop_first() =~= s@.subrange(i + 1, n as int));
        i = i + 1;
    }
    assert(trim_start(s@) == s@.subrange(i as int, n as int));
    let mut j: usize = n;
    while j > i && is_space_char(s.get_char(j - 1))
        invariant
            i <= j <= n,
            n == s@.len(),
            trim(s@) == trim_end(s@.subrange(i as int, j as int)),
        decreases j,
    {
        assert(s@.subrange(i as int, j as int).drop_last() =~= s@.subrange(i as int, j - 1));
        j = j - 1;
    }
    s.substring_char(i, j)
}

// ---------------------------------------------------------------------------
// Comparing
// ---------------------------------------------------------------------------

/// `a.eq_ignore_ascii_case(b)`.
pub open spec fn eq_ignore_ascii_case(a: Seq<char>, b: Seq<char>) -> bool {
    &&& a.len() == b.len()
    &&& forall|i: int| 0 <= i < a.len() ==> fold_code(#[trigger] a[i]) == fold_code(b[i])
}

pub fn eq_ignore_ascii_case_text(a: &str, b: &str) -> (r: bool)
    ensures
        r == eq_ignore_ascii_case(a@, b@),
{
    let n = a.unicode_len();
    if n != b.unicode_len() {
        return false;
    }
    let mut i: usize = 0;
    while i < n
        invariant
            i <= n,
            n == a@.len(),
            n == b@.len(),
            forall|k: int| 0 <= k < i ==> fold_code(#[trigger] a@[k]) == fold_code(b@[k]),
        decreases n - i,
    {
        if fold_code_exec(a.get_char(i)) != fold_code_exec(b.get_char(i)) {
            return false;
        }
        i = i + 1;
    }
    true
}

/// `a == b` on text.
pub fn same_text(a: &str, b: &str) -> (r: bool)
    ensures
        r == (a@ == b@),
{
    let n = a.unicode_len();
    if n != b.unicode_len() {
        return false;
    }
    let mut i: usize = 0;
    while i < n
        invariant
            i <= n,
            n == a@.len(),
            n == b@.len(),
            forall|k: int| 0 <= k < i ==> #[trigger] a@[k] == b@[k],
        decreases n - i,
    {
        if a.get_char(i) != b.get_char(i) {
            return false;
        }
        i = i + 1;
    }
    assert(a@ =~= b@);
    true
}

/// `needle` occurs in `hay` at `at` once ASCII letters of both are folded
/// to lower case.
pub open spec fn folded_match_at(hay: Seq<char>, needle: Seq<char>, at: int) -> bool {
    &&& 0 <= at
    &&& at + needle.len() <= hay.len()
    &&& forall|k: int| 0 <= k < needle.len() ==> fold_code(#[trigger] hay[at + k]) == fold_code(needle[k])
}

/// `hay.to_ascii_lowercase().contains(needle)` for a lower-case `needle`.
pub open spec fn contains_ignore_ascii_case(hay: Seq<char>, needle: Seq<char>) -> bool {
    exists|at: int| folded_match_at(hay, needle, at)
}

pub fn contains_ignore_ascii_case_text(hay: &str, needle: &str) -> (r: bool)
    ensures
        r == contains_ignore_ascii_case(hay@, needle@),
{
    let n = hay.unicode_len();
    let m = needle.unicode_len();
    if m > n {
        assert forall|at: int| !folded_match_at(hay@, needle@, at) by {}
        return false;
    }
    let mut at: usize = 0;
    while at <= n - m
        invariant
            m <= n,
            n == hay@.len(),
            m == needle@.len(),
            forall|p: int| 0 <= p < at ==> !folded_match_at(hay@, needle@, p),
        decreases n - m + 1 - at,
    {
        let mut k: usize = 0;
        let mut same = true;
        while k < m
            invariant
                k <= m,
                m <= n,
                at <= n - m,
                n == hay@.len(),
                m == needle@.len(),
                same ==> forall|q: int|
                    0 <= q < k ==> fold_code(#[trigger] hay@[at + q]) == fold_code(needle@[q]),
                !same ==> !folded_match_at(hay@, needle@, at as int),
            decreases m - k,
        {
            if same && fold_code_exec(hay.get_char(at + k)) != fold_code_exec(needle.get_char(k)) {
                same = false;
            }
            k = k + 1;
        }
        if same {
            assert(folded_match_at(hay@, needle@, at as int));
            return true;
        }
        at = at + 1;
    }
    assert forall|p: int| !folded_match_at(hay@, needle@, p) by {
        if 0 <= p && p < at {
        }
    }
    false
}

// ---------------------------------------------------------------------------
// Splitting
// ---------------------------------------------------------------------------

/// `s.split(sep)`: the pieces between separators, an empty piece for each
/// separator at either end or next to another, and one empty piece for empty `s`.
pub open spec fn split_on(s: Seq<char>, sep: char) -> Seq<Seq<char>>
    decreases s.len(),
{
    if s.len() == 0 {
        seq![Seq::empty()]
    } else {
        let before = split_on(s.drop_last(), sep);
        if s.last() == sep {
            before.push(Seq::empty())
        } else {
            before.update(before.len() - 1, before.last().push(s.last()))
        }
    }
}

/// Splitting always gives at least one piece.
pub proof fn lemma_split_nonempty(s: Seq<char>, sep: char)
    ensures
        split_on(s, sep).len() >= 1,
    decreases s.len(),
{
    if s.len() > 0 {
        lemma_split_nonempty(s.drop_last(), sep);
    }
}

/// `s.split(sep)`, collected.
pub fn split_text(s: &str, sep: char) -> (pieces: Vec<&str>)
    ensures
        pieces.len() == split_on(s@, sep).len(),
        forall|i: int| 0 <= i < pieces.len() ==> #[trigger] pieces[i]@ == split_on(s@, sep)[i],
{
    let n = s.unicode_len();
    let mut pieces: Vec<&str> = Vec::new();
    let mut start: usize = 0;
    let mut i: usize = 0;
    assert(s@.take(0) =~= Seq::<char>::empty());
    assert(split_on(s@.take(0), sep) =~= seq![s@.subrange(0, 0)]);
    while i < n
        invariant
            start <= i <= n,
            n == s@.len(),
            pieces.len() + 1 == split_on(s@.take(i as int), sep).len(),
            forall|q: int|
                0 <= q < pieces.len() ==> #[trigger] pieces[q]@ == split_on(s@.take(i as int), sep)[q],
            split_on(s@.take(i as int), sep).last() == s@.subrange(start as int, i as int),
        decreases n - i,
    {
        let c = s.get_char(i);
        assert(s@.take(i + 1).drop_last() =~= s@.take(i as int));
        assert(s@.take(i + 1).last() == c);
        proof {
            lemma_split_nonempty(s@.take(i as int), sep);
        }
        if c == sep {
            pieces.push(s.substring_char(start, i));
            start = i + 1;
            assert(s@.subrange(start as int, i + 1) =~= Seq::<char>::empty());
        } else {
            assert(s@.subrange(start as int, i + 1) =~= s@.subrange(start as int, i as int).push(c));
        }
        i = i + 1;
    }
    pieces.push(s.substring_char(start, n));
    assert(s@.take(n as int) =~= s@);
    pieces
}

// ---------------------------------------------------------------------------
// Unsigned numbers
// ---------------------------------------------------------------------------

/// The value of `c` as a digit of `radix` (at most 36), as `char::to_digit` gives it.
pub open spec fn digit_of(c: char, radix: nat) -> Option<nat> {
    let v: int = if '0' <= c && c <= '9' {
        c as int - '0' as int
    } else if 'a' <= c && c <= 'z' {
        c as int - 'a' as int + 10
    } else if 'A' <= c && c <= 'Z' {
        c as int - 'A' as int + 10
    } else {
        radix as int
    };
    if v < radix {
        Some(v as nat)
    } else {
        None
    }
}

/// Every character of `s` is a digit of `radix`.
pub open spec fn all_digits(s: Seq<char>, radix: nat) -> bool {
    forall|i: int| 0 <= i < s.len() ==> (#[trigger] digit_of(s[i], radix)) is Some
}

/// The number that the digits `s` write in `radix`, most significant first.
pub open spec fn digits_value(s: Seq<char>, radix: nat) -> nat
    decreases s.len(),
{
    if s.len() == 0 {
        0
    } else {
        digits_value(s.drop_last(), radix) * radix + match digit_of(s.last(), radix) {
            Some(d) => d,
            None => 0,
        }
    }
}

/// The digits of an unsigned number: one leading `+` is dropped.
pub open spec fn unsigned_digits(s: Seq<char>) -> Seq<char> {
    if s.len() > 0 && s[0] == '+' {
        s.drop_first()
    } else {
        s
    }
}

/// What `from_str_radix` of an unsigned type whose largest value is `max`
/// gives for `s`: an optional `+`, then at least one digit of `radix`, and a
/// value that fits.
pub open spec fn parse_unsigned(s: Seq<char>, radix: nat, max: nat) -> Option<nat> {
    let d = unsigned_digits(s);
    if d.len() > 0 && all_digits(d, radix) && digits_value(d, radix) <= max {
        Some(digits_value(d, radix))
    } else {
        None
    }
}

/// Leading digits never write more than all of the digits.
proof fn lemma_prefix_value_le(s: Seq<char>, k: int, radix: nat)
    requires
        0 <= k <= s.len(),
        radix >= 1,
    ensures
        digits_value(s.take(k), radix) <= digits_value(s, radix),
    decreases s.len(),
{
    if k < s.len() {
        assert(s.drop_last().take(k) =~= s.take(k));
        lemma_prefix_value_le(s.drop_last(), k, radix);
        let v = digits_value(s.drop_last(), radix);
        assert(v * radix >= v) by (nonlinear_arith)
            requires
                radix >= 1,
        ;
    } else {
        assert(s.take(k) =~= s);
    }
}

pub(crate) fn digit_exec(c: char, radix: u32) -> (r: Option<u32>)
    requires
        radix == 10 || radix == 16,
    ensures
        match r {
            Some(v) => digit_of(c, radix as nat) == Some(v as nat) && v < radix,
            None => digit_of(c, radix as nat) is None,
        },
{
    let v: u32 = if '0' <= c && c <= '9' {
        c as u32 - '0' as u32
    } else if 'a' <= c && c <= 'z' {
        c as u32 - 'a' as u32 + 10
    } else if 'A' <= c && c <= 'Z' {
        c as u32 - 'A' as u32 + 10
    } else {
        radix
    };
    if v < radix {
        Some(v)
    } else {
        None
    }
}

/// `u64::from_str_radix(s, radix)` for radix 10 or 16, with the error left out.
pub fn parse_u64_radix(s: &str, radix: u32) -> (r: Option<u64>)
    requires
        radix == 10 || radix == 16,
    ensures
        match r {
            Some(v) => parse_unsigned(s@, radix as nat, u64::MAX as nat) == Some(v as nat),
            None => parse_unsigned(s@, radix as nat, u64::MAX as nat) is None,
        },
{
    let n = s.unicode_len();
    let start: usize = if n > 0 && s.get_char(0) == '+' {
        1
    } else {
        0
    };
    let ghost d = unsigned_digits(s@);
    assert(d =~= s@.subrange(start as int, n as int));
    if start == n {
        return None;
    }
    let mut acc: u64 = 0;
    let mut i: usize = start;
    assert(d.take(0) =~= Seq::<char>::empty());
    while i < n
        invariant
            start <= i <= n,
            n == s@.len(),
            d == s@.subrange(start as int, n as int),
            d == unsigned_digits(s@),
            radix == 10 || radix == 16,
            all_digits(d.take(i - start), radix as nat),
            acc as nat == digits_value(d.take(i - start), radix as nat),
        decreases n - i,
    {
        let c = s.get_char(i);
        let k: usize = i - start;
        assert(d[k as int] == c);
        assert(d.take(k + 1).drop_last() =~= d.take(k as int));
        match digit_exec(c, radix) {
            None => {
                assert(!all_digits(d, radix as nat)) by {
                    assert(digit_of(d[k as int], radix as nat) is None);
                }
                return None;
            },
            Some(v) => {
                let next = match acc.checked_mul(radix as u64) {
                    None => None,
                    Some(m) => m.checked_add(v as u64),
                };
                match next {
                    None => {
                        proof {
                            assert(digits_value(d.take(k + 1), radix as nat) > u64::MAX);
                            if all_digits(d, radix as nat) {
                                lemma_prefix_value_le(d, k + 1, radix as nat);
                            }
                        }
                        return None;
                    },
                    Some(x) => {
                        assert(all_digits(d.take(k + 1), radix as nat)) by {
                            assert forall|q: int| 0 <= q < k + 1 implies (#[trigger] digit_of(
                                d.take(k + 1)[q],
                                radix as nat,
                            )) is Some by {
                                if q < k {
                                    assert(d.take(k + 1)[q] == d.take(k as int)[q]);
                                }
                            }
                        }
                        acc = x;
                    },
                }
            },
        }
        i = i + 1;
    }
    assert(d.take(n - start) =~= d);
    Some(acc)
}

/// `str::parse::<u64>`, with the error left out.
pub fn parse_u64_text(s: &str) -> (r: Option<u64>)
    ensures
        match r {
            Some(v) => parse_unsigned(s@, 10, u64::MAX as nat) == Some(v as nat),
            None => parse_unsigned(s@, 10, u64::MAX as nat) is None,
        },
{
    parse_u64_radix(s, 10)
}

/// `str::parse::<u32>`, with the error left out.
pub fn parse_u32_text(s: &str) -> (r: Option<u32>)
    ensures
        match r {
            Some(v) => parse_unsigned(s@, 10, u32::MAX as nat) == Some(v as nat),
            None => parse_unsigned(s@, 10, u32::MAX as nat) is None,
        },
{
    match parse_u64_radix(s, 10) {
        Some(v) => {
            if v <= u32::MAX as u64 {
                Some(v as u32)
            } else {
                None
            }
        },
        None => None,
    }
}

// ---------------------------------------------------------------------------
// Rendering
// ---------------------------------------------------------------------------

/// The lower-case digit characters, `0` to `f`.
pub open spec fn digit_chars() -> Seq<char> {
    seq!['0', '1', '2', '3', '4', '5', '6', '7', '8', '9', 'a', 'b', 'c', 'd', 'e', 'f']
}

/// `n` in decimal, as `{}` writes it.
pub open spec fn dec(n: nat) -> Seq<char>
    decreases n,
{
    if n < 10 {
        seq![digit_chars()[n as int]]
    } else {
        dec(n / 10).push(digit_chars()[(n % 10) as int])
    }
}

/// `n` in lower-case hexadecimal without prefix, as `{:x}` writes it.
pub open spec fn hex(n: nat) -> Seq<char>
    decreases n,
{
    if n < 16 {
        seq![digit_chars()[n as int]]
    } else {
        hex(n / 16).push(digit_chars()[(n % 16) as int])
    }
}

/// The upper-case digit characters, `0` to `F`.
pub open spec fn upper_digit_chars() -> Seq<char> {
    seq!['0', '1', '2', '3', '4', '5', '6', '7', '8', '9', 'A', 'B', 'C', 'D', 'E', 'F']
}

/// `n` in upper-case hexadecimal without prefix, as `{:X}` writes it.
pub open spec fn hex_upper(n: nat) -> Seq<char>
    decreases n,
{
    if n < 16 {
        seq![upper_digit_chars()[n as int]]
    } else {
        hex_upper(n / 16).push(upper_digit_chars()[(n % 16) as int])
    }
}

fn digit_char(d: u64) -> (c: char)
    requires
        d < 16,
    ensures
        c == digit_chars()[d as int],
{
    if d == 0 {
        '0'
    } else if d == 1 {
        '1'
    } else if d == 2 {
        '2'
    } else if d == 3 {
        '3'
    } else if d == 4 {
        '4'
    } else if d == 5 {
        '5'
    } else if d == 6 {
        '6'
    } else if d == 7 {
        '7'
    } else if d == 8 {
        '8'
    } else if d == 9 {
        '9'
    } else if d == 10 {
        'a'
    } else if d == 11 {
        'b'
    } else if d == 12 {
        'c'
    } else if d == 13 {
        'd'
    } else if d == 14 {
        'e'
    } else {
        'f'
    }
}

/// `String::push`: appends one character.
#[verifier::external_body]
pub(crate) fn push_char(s: &mut String, c: char)
    ensures
        final(s)@ == old(s)@.push(c),
{
    s.push(c)
}

/// Appends `n` in decimal.
pub fn push_dec(s: &mut String, n: u64)
    ensures
        final(s)@ == old(s)@ + dec(n as nat),
    decreases n,
{
    if n >= 10 {
        push_dec(s, n / 10);
    }
    push_char(s, digit_char(n % 10));
    assert(s@ =~= old(s)@ + dec(n as nat));
}

/// Appends `n` in lower-case hexadecimal.
pub fn push_hex(s: &mut String, n: u64)
    ensures
        final(s)@ == old(s)@ + hex(n as nat),
    decreases n,
{
    if n >= 16 {
        push_hex(s, n / 16);
    }
    push_char(s, digit_char(n % 16));
    assert(s@ =~= old(s)@ + hex(n as nat));
}

/// Appends `t`.
pub fn push_text(s: &mut String, t: &str)
    ensures
        final(s)@ == old(s)@ + t@,
{
    s.append(t);
}

/// A new `String` holding `t`.
pub fn text_of(t: &str) -> (r: String)
    ensures
        r@ == t@,
{
    String::from_str(t)
}

} // verus!

verus! {

// ---------------------------------------------------------------------------
// Rendering and parsing agree
// ---------------------------------------------------------------------------

/// The digit `d` as written in `radix`, upper case when `upper` asks for it.
pub open spec fn written_digit(d: nat, radix: nat, upper: bool) -> char {
    if radix == 16 && upper {
        upper_digit_chars()[d as int]
    } else {
        digit_chars()[d as int]
    }
}

/// `n` written in `radix` (10 or 16), as `{}`, `{:x}` or `{:X}` writes it.
pub open spec fn written(n: nat, radix: nat, upper: bool) -> Seq<char> {
    if radix == 10 {
        dec(n)
    } else if upper {
        hex_upper(n)
    } else {
        hex(n)
    }
}

pub(crate) proof fn lemma_digit_char(d: nat, radix: nat, upper: bool)
    requires
        d < radix <= 16,
    ensures
        digit_of(written_digit(d, radix, upper), radix) == Some(d),
        !is_space(written_digit(d, radix, upper)),
        written_digit(d, radix, upper) != '+',
        written_digit(d, radix, upper) != 'x' && written_digit(d, radix, upper) != 'X',
{
    if radix == 16 && upper {
        assert(upper_digit_chars()[10] == 'A');
        assert(upper_digit_chars()[11] == 'B');
        assert(upper_digit_chars()[12] == 'C');
        assert(upper_digit_chars()[13] == 'D');
        assert(upper_digit_chars()[14] == 'E');
        assert(upper_digit_chars()[15] == 'F');
    } else {
        assert(digit_chars()[10] == 'a');
        assert(digit_chars()[11] == 'b');
        assert(digit_chars()[12] == 'c');
        assert(digit_chars()[13] == 'd');
        assert(digit_chars()[14] == 'e');
        assert(digit_chars()[15] == 'f');
    }
    assert(digit_chars()[0] == '0' && upper_digit_chars()[0] == '0');
    assert(digit_chars()[1] == '1' && upper_digit_chars()[1] == '1');
    assert(digit_chars()[2] == '2' && upper_digit_chars()[2] == '2');
    assert(digit_chars()[3] == '3' && upper_digit_chars()[3] == '3');
    assert(digit_chars()[4] == '4' && upper_digit_chars()[4] == '4');
    assert(digit_chars()[5] == '5' && upper_digit_chars()[5] == '5');
    assert(digit_chars()[6] == '6' && upper_digit_chars()[6] == '6');
    assert(digit_chars()[7] == '7' && upper_digit_chars()[7] == '7');
    assert(digit_chars()[8] == '8' && upper_digit_chars()[8] == '8');
    assert(digit_chars()[9] == '9' && upper_digit_chars()[9] == '9');
}

/// Digits written in `radix` (10 or 16, either case) read back as the
/// number they write, and hold no sign, white space or `x`.
proof fn lemma_written_digits(n: nat, radix: nat, upper: bool)
    requires
        radix == 10 || radix == 16,
    ensures
        written(n, radix, upper).len() > 0,
        all_digits(written(n, radix, upper), radix),
        digits_value(written(n, radix, upper), radix) == n,
        forall|i: int|
            0 <= i < written(n, radix, upper).len() ==> {
                let c = #[trigger] written(n, radix, upper)[i];
                !is_space(c) && c != '+' && c != 'x' && c != 'X'
            },
    decreases n,
{
    let s = written(n, radix, upper);
    if n < radix {
        lemma_digit_char(n, radix, upper);
        assert(s =~= seq![written_digit(n, radix, upper)]);
        assert(s.last() == written_digit(n, radix, upper));
        assert(s.drop_last() =~= Seq::<char>::empty());
        assert(digits_value(s.drop_last(), radix) == 0);
        assert(0 * radix == 0) by (nonlinear_arith);
        assert(digits_value(s, radix) == n);
    } else {
        let hi: nat = n / radix;
        let lo: nat = n % radix;
        let t = written(hi, radix, upper);
        lemma_written_digits(hi, radix, upper);
        lemma_digit_char(lo, radix, upper);
        assert(s == t.push(written_digit(lo, radix, upper)));
        assert(s.drop_last() =~= t);
        assert(digits_value(s, radix) == digits_value(t, radix) * radix + lo);
        assert(hi * radix + lo == n) by (nonlinear_arith)
            requires
                hi == n / radix,
                lo == n % radix,
                radix > 0,
        ;
        assert forall|i: int| 0 <= i < s.len() implies (#[trigger] digit_of(s[i], radix)) is Some by {
            if i < t.len() {
                assert(s[i] == t[i]);
            }
        }
        assert forall|i: int| 0 <= i < s.len() implies {
            let c = #[trigger] s[i];
            !is_space(c) && c != '+' && c != 'x' && c != 'X'
        } by {
            if i < t.len() {
                assert(s[i] == t[i]);
            }
        }
    }
}

/// Text without leading or trailing white space trims to itself.
proof fn lemma_trim_unspaced(s: Seq<char>)
    requires
        forall|i: int| 0 <= i < s.len() ==> !is_space(#[trigger] s[i]),
    ensures
        trim(s) == s,
{
    if s.len() > 0 {
        assert(!is_space(s[0]));
        assert(!is_space(s.last()));
    }
}

/// A number written in decimal, as `{}` writes it, parses back to itself.
pub proof fn lemma_dec_parses_back(n: nat, max: nat)
    requires
        n <= max,
    ensures
        parse_unsigned(dec(n), 10, max) == Some(n),
        trim(dec(n)) == dec(n),
        dec(n).len() > 0,
        all_digits(dec(n), 10),
{
    lemma_written_digits(n, 10, false);
    lemma_trim_unspaced(dec(n));
}

/// A number written in hexadecimal, as `{:x}` or `{:X}` writes it, parses
/// back to itself in radix 16; its digits hold no white space and no `x`.
pub proof fn lemma_hex_parses_back(n: nat, max: nat)
    requires
        n <= max,
    ensures
        parse_unsigned(hex(n), 16, max) == Some(n),
        parse_unsigned(hex_upper(n), 16, max) == Some(n),
        hex(n).len() > 0,
        hex_upper(n).len() > 0,
        forall|i: int| 0 <= i < hex(n).len() ==> !is_space(#[trigger] hex(n)[i]),
        forall|i: int| 0 <= i < hex_upper(n).len() ==> !is_space(#[trigger] hex_upper(n)[i]),
        hex(n)[0] != 'x' && hex(n)[0] != 'X',
        hex_upper(n)[0] != 'x' && hex_upper(n)[0] != 'X',
{
    lemma_written_digits(n, 16, false);
    lemma_written_digits(n, 16, true);
    assert(hex(n)[0] == written(n, 16, false)[0]);
    assert(hex_upper(n)[0] == written(n, 16, true)[0]);
}

/// Trimming drops white space around text that neither starts nor ends with
/// white space, and nothing of the text itself.
pub proof fn lemma_trim_padded(pre: Seq<char>, t: Seq<char>, post: Seq<char>)
    requires
        forall|i: int| 0 <= i < pre.len() ==> is_space(#[trigger] pre[i]),
        forall|i: int| 0 <= i < post.len() ==> is_space(#[trigger] post[i]),
        t.len() > 0,
        !is_space(t[0]),
        !is_space(t.last()),
    ensures
        trim(pre + t + post) == t,
{
    assert(pre + t + post =~= pre + (t + post));
    lemma_trim_start_spaces(pre, t + post);
    lemma_trim_end_spaces(t, post);
}

proof fn lemma_trim_start_spaces(pre: Seq<char>, x: Seq<char>)
    requires
        forall|i: int| 0 <= i < pre.len() ==> is_space(#[trigger] pre[i]),
        x.len() > 0,
        !is_space(x[0]),
    ensures
        trim_start(pre + x) == x,
    decreases pre.len(),
{
    if pre.len() == 0 {
        assert(pre + x =~= x);
    } else {
        assert(is_space(pre[0]));
        assert((pre + x).drop_first() =~= pre.drop_first() + x);
        lemma_trim_start_spaces(pre.drop_first(), x);
    }
}

proof fn lemma_trim_end_spaces(x: Seq<char>, post: Seq<char>)
    requires
        forall|i: int| 0 <= i < post.len() ==> is_space(#[trigger] post[i]),
        x.len() > 0,
        !is_space(x.last()),
    ensures
        trim_end(x + post) == x,
    decreases post.len(),
{
    if post.len() == 0 {
        assert(x + post =~= x);
    } else {
        assert(is_space(post.last()));
        assert((x + post).drop_last() =~= x + post.drop_last());
        lemma_trim_end_spaces(x, post.drop_last());
    }
}

/// Text without the separator splits into itself alone.
pub proof fn lemma_split_without_sep(s: Seq<char>, sep: char)
    requires
        forall|i: int| 0 <= i < s.len() ==> #[trigger] s[i] != sep,
    ensures
        split_on(s, sep) == seq![s],
    decreases s.len(),
{
    if s.len() == 0 {
        assert(s =~= Seq::<char>::empty());
    } else {
        lemma_split_without_sep(s.drop_last(), sep);
        assert(s.drop_last().push(s.last()) =~= s);
    }
}

/// Splitting at a separator splits the text on either side of it apart.
pub proof fn lemma_split_concat(a: Seq<char>, b: Seq<char>, sep: char)
    ensures
        split_on(a + seq![sep] + b, sep) == split_on(a, sep) + split_on(b, sep),
    decreases b.len(),
{
    let s = a + seq![sep] + b;
    if b.len() == 0 {
        assert(s.drop_last() =~= a);
        assert(split_on(a, sep).push(Seq::empty()) =~= split_on(a, sep) + split_on(b, sep));
    } else {
        assert(s.drop_last() =~= a + seq![sep] + b.drop_last());
        lemma_split_concat(a, b.drop_last(), sep);
        lemma_split_nonempty(b.drop_last(), sep);
        let x = split_on(a, sep);
        let y = split_on(b.drop_last(), sep);
        if b.last() == sep {
            assert((x + y).push(Seq::empty()) =~= x + y.push(Seq::empty()));
        } else {
            let piece = y.last().push(b.last());
            assert((x + y).last() == y.last());
            assert((x + y).update((x + y).len() - 1, piece) =~= x + y.update(y.len() - 1, piece));
        }
    }
}

} // verus!
