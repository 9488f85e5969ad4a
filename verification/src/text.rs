//! Characters and decimal numerals: the vocabulary that the parsers share.

use vstd::prelude::*;

verus! {

/// Whether `c` has the Unicode property `White_Space`.
pub open spec fn is_whitespace(c: char) -> bool {
    let u: u32 = c as u32;
    ||| 0x09 <= u <= 0x0D
    ||| u == 0x20
    ||| u == 0x85
    ||| u == 0xA0
    ||| u == 0x1680
    ||| 0x2000 <= u <= 0x200A
    ||| u == 0x2028
    ||| u == 0x2029
    ||| u == 0x202F
    ||| u == 0x205F
    ||| u == 0x3000
}

/// Whether `c` is one of the ten ASCII digits.
pub open spec fn is_digit(c: char) -> bool {
    '0' <= c <= '9'
}

/// The number that the ASCII digit `c` stands for.
pub open spec fn digit_value(c: char) -> int {
    c as int - '0' as int
}

/// The ASCII digit that stands for `d`.
pub open spec fn digit_char(d: int) -> char
    recommends
        0 <= d <= 9,
{
    ('0' as int + d) as char
}

/// `c` in lower case if it is an ASCII capital, else `c` itself.
pub open spec fn ascii_lower_char(c: char) -> char {
    if 'A' <= c <= 'Z' {
        (c as u32 + 32) as char
    } else {
        c
    }
}

/// Whether every character of `s` is an ASCII character.
pub open spec fn is_ascii_text(s: Seq<char>) -> bool {
    forall|i: int| 0 <= i < s.len() ==> (#[trigger] s[i] as u32) < 128
}

/// `s` without its leading whitespace.
pub open spec fn trim_start(s: Seq<char>) -> Seq<char>
    decreases s.len(),
{
    if s.len() > 0 && is_whitespace(s.first()) {
        trim_start(s.drop_first())
    } else {
        s
    }
}

/// `s` without its trailing whitespace.
pub open spec fn trim_end(s: Seq<char>) -> Seq<char>
    decreases s.len(),
{
    if s.len() > 0 && is_whitespace(s.last()) {
        trim_end(s.drop_last())
    } else {
        s
    }
}

/// `s` without the whitespace around it.
pub open spec fn trimmed(s: Seq<char>) -> Seq<char> {
    trim_end(trim_start(s))
}

/// `s` with its ASCII capitals in lower case.
pub open spec fn ascii_lower(s: Seq<char>) -> Seq<char> {
    Seq::new(s.len(), |i: int| ascii_lower_char(s[i]))
}

/// Whether `s` holds lower-case ASCII letters only.
pub open spec fn is_lower_word(s: Seq<char>) -> bool {
    forall|i: int| 0 <= i < s.len() ==> 'a' <= #[trigger] s[i] <= 'z'
}

/// How many ASCII digits `s` starts with.
pub open spec fn digit_prefix_len(s: Seq<char>) -> nat
    decreases s.len(),
{
    if s.len() > 0 && is_digit(s.first()) {
        1 + digit_prefix_len(s.drop_first())
    } else {
        0
    }
}

/// Whether `s` holds ASCII digits only.
pub open spec fn all_digits(s: Seq<char>) -> bool {
    forall|i: int| 0 <= i < s.len() ==> is_digit(#[trigger] s[i])
}

/// The number that the decimal numeral `s` denotes; the empty numeral denotes zero.
pub open spec fn decimal_value(s: Seq<char>) -> nat
    recommends
        all_digits(s),
    decreases s.len(),
{
    if s.len() == 0 {
        0
    } else {
        (10 * decimal_value(s.drop_last()) + digit_value(s.last())) as nat
    }
}

/// The number that `s` denotes if it is a decimal numeral with an optional sign in front: a
/// `+` or a `-`, then one or more digits and nothing else.
pub open spec fn signed_decimal(s: Seq<char>) -> Option<int> {
    let signed: bool = s.len() > 0 && (s[0] == '+' || s[0] == '-');
    let digits = if signed {
        s.skip(1)
    } else {
        s
    };
    if digits.len() > 0 && all_digits(digits) {
        if s[0] == '-' {
            Some(-(decimal_value(digits) as int))
        } else {
            Some(decimal_value(digits) as int)
        }
    } else {
        None
    }
}

/// The decimal numeral of `n`, without leading zeros.
pub open spec fn natural_text(n: nat) -> Seq<char>
    decreases n,
{
    if n < 10 {
        seq![digit_char(n as int)]
    } else {
        natural_text(n / 10).push(digit_char(n as int % 10))
    }
}

/// The decimal numeral of `n`, with a minus sign in front if `n` is negative.
pub open spec fn decimal_text(n: int) -> Seq<char> {
    if n < 0 {
        seq!['-'] + natural_text((-n) as nat)
    } else {
        natural_text(n as nat)
    }
}

/// The characters of `s`, one by one.
pub(crate) fn chars_of(s: &str) -> (v: Vec<char>)
    ensures
        v@ == s@,
{
    let mut v: Vec<char> = Vec::new();
    for c in it: s.chars()
        invariant
            it.seq() == s@,
            v@ == s@.take(it.index()),
    {
        v.push(c);
    }
    v
}

/// Tells whether `c` is whitespace.
pub(crate) fn char_is_whitespace(c: char) -> (r: bool)
    ensures
        r == is_whitespace(c),
{
    let u: u32 = c as u32;
    (0x09 <= u && u <= 0x0D) || u == 0x20 || u == 0x85 || u == 0xA0 || u == 0x1680 || (0x2000 <= u
        && u <= 0x200A) || u == 0x2028 || u == 0x2029 || u == 0x202F || u == 0x205F || u == 0x3000
}

/// Tells whether `c` is an ASCII digit.
pub(crate) fn char_is_digit(c: char) -> (r: bool)
    ensures
        r == is_digit(c),
{
    '0' <= c && c <= '9'
}

/// Where the text of `v` begins and ends once the whitespace around it is left out.
pub(crate) fn trim_bounds(v: &[char]) -> (r: (usize, usize))
    ensures
        r.0 <= r.1 <= v@.len(),
        v@.subrange(r.0 as int, r.1 as int) == trimmed(v@),
{
    let n: usize = v.len();
    let mut i: usize = 0;
    assert(v@.skip(0) =~= v@);
    while i < n && char_is_whitespace(v[i])
        invariant
            i <= n == v@.len(),
            trim_start(v@) == trim_start(v@.skip(i as int)),
        decreases n - i,
    {
        assert(v@.skip(i as int).drop_first() =~= v@.skip(i as int + 1));
        i += 1;
    }
    let mut j: usize = n;
    while j > i && char_is_whitespace(v[j - 1])
        invariant
            i <= j <= n == v@.len(),
            trimmed(v@) == trim_end(v@.subrange(i as int, j as int)),
        decreases j,
    {
        assert(v@.subrange(i as int, j as int).drop_last() =~= v@.subrange(i as int, j as int - 1));
        j -= 1;
    }
    (i, j)
}

/// The end of the run of ASCII digits that starts at `from`, looking no further than `to`.
pub(crate) fn scan_digits(v: &[char], from: usize, to: usize) -> (r: usize)
    requires
        from <= to <= v@.len(),
    ensures
        from <= r <= to,
        r - from == digit_prefix_len(v@.subrange(from as int, to as int)),
        all_digits(v@.subrange(from as int, r as int)),
{
    let mut k: usize = from;
    while k < to && char_is_digit(v[k])
        invariant
            from <= k <= to <= v@.len(),
            all_digits(v@.subrange(from as int, k as int)),
            digit_prefix_len(v@.subrange(from as int, to as int)) == (k - from) + digit_prefix_len(
                v@.subrange(k as int, to as int),
            ),
        decreases to - k,
    {
        assert(v@.subrange(k as int, to as int).drop_first() =~= v@.subrange(
            k as int + 1,
            to as int,
        ));
        k += 1;
    }
    k
}

/// The number that the digits of `v` from `from` up to `to` denote, if it fits in 64 bits.
pub(crate) fn parse_magnitude(v: &[char], from: usize, to: usize) -> (r: Option<u64>)
    requires
        from <= to <= v@.len(),
        all_digits(v@.subrange(from as int, to as int)),
    ensures
        r == (if decimal_value(v@.subrange(from as int, to as int)) <= u64::MAX {
            Some(decimal_value(v@.subrange(from as int, to as int)) as u64)
        } else {
            None
        }),
{
    let ghost digits = v@.subrange(from as int, to as int);
    let mut acc: u64 = 0;
    let mut k: usize = from;
    while k < to
        invariant
            from <= k <= to <= v@.len(),
            digits == v@.subrange(from as int, to as int),
            all_digits(digits),
            acc == decimal_value(digits.take(k - from)),
        decreases to - k,
    {
        let c: char = v[k];
        proof {
            assert(digits.take(k - from + 1).drop_last() =~= digits.take(k - from));
            lemma_decimal_value_prefix(digits, k - from + 1);
        }
        let d: u64 = (c as u32 - '0' as u32) as u64;
        let next: Option<u64> = match acc.checked_mul(10) {
            Some(tens) => tens.checked_add(d),
            None => None,
        };
        match next {
            Some(value) => {
                acc = value;
            },
            None => {
                return None;
            },
        }
        k += 1;
    }
    assert(digits.take(to - from) =~= digits);
    Some(acc)
}

/// Tells whether `c` is the lower-case letter `letter` in either case.
pub(crate) fn is_letter_ignoring_case(c: char, letter: char) -> (r: bool)
    requires
        'a' <= letter <= 'z',
    ensures
        r == (ascii_lower_char(c) == letter),
{
    c == letter || c as u32 + 32 == letter as u32
}

/// Tells whether `v` from `from` up to `to` spells `word`, whatever the case of its letters.
pub(crate) fn spells_ignoring_case(v: &[char], from: usize, to: usize, word: &[char]) -> (r: bool)
    requires
        from <= to <= v@.len(),
        is_lower_word(word@),
    ensures
        r == (ascii_lower(v@.subrange(from as int, to as int)) =~= word@),
{
    if to - from != word.len() {
        return false;
    }
    let ghost text = v@.subrange(from as int, to as int);
    let mut k: usize = 0;
    while k < word.len()
        invariant
            from <= to <= v@.len(),
            to - from == word@.len(),
            k <= word@.len(),
            text == v@.subrange(from as int, to as int),
            is_lower_word(word@),
            forall|i: int| 0 <= i < k ==> ascii_lower(text)[i] == word@[i],
        decreases word@.len() - k,
    {
        if !is_letter_ignoring_case(v[from + k], word[k]) {
            return false;
        }
        k += 1;
    }
    true
}

/// What `str::to_lowercase` makes of `s`: its lower-case form by the Unicode case mappings.
pub uninterp spec fn lowercase_text(s: Seq<char>) -> Seq<char>;

/// Calls `str::to_lowercase`, which maps each character to its Unicode lower-case form. The
/// result is taken on trust: it is the named text, and for ASCII text it is the text with its
/// capitals `A` to `Z` replaced by `a` to `z`.
#[verifier::external_body]
pub(crate) fn to_lowercase(s: &str) -> (r: String)
    ensures
        r@ == lowercase_text(s@),
        is_ascii_text(s@) ==> r@ == ascii_lower(s@),
{
    s.to_lowercase()
}

/// Calls `i64::to_string`, which writes `n` in decimal. The result is taken on trust: it is
/// the numeral of `n` without leading zeros, after a minus sign if `n` is negative.
#[verifier::external_body]
pub(crate) fn decimal_string(n: i64) -> (r: String)
    ensures
        r@ == decimal_text(n as int),
{
    n.to_string()
}

/// A text that neither starts nor ends with whitespace is its own trimmed form.
pub proof fn lemma_trimmed_whole(s: Seq<char>)
    requires
        s.len() == 0 || (!is_whitespace(s.first()) && !is_whitespace(s.last())),
    ensures
        trimmed(s) == s,
{
}

/// The run of leading digits is no longer than the text.
pub proof fn lemma_digit_prefix(s: Seq<char>)
    ensures
        digit_prefix_len(s) <= s.len(),
    decreases s.len(),
{
    if s.len() > 0 && is_digit(s.first()) {
        lemma_digit_prefix(s.drop_first());
    }
}

/// Digits followed by a text that starts with no digit are the whole run of leading digits.
pub proof fn lemma_digit_run(digits: Seq<char>, rest: Seq<char>)
    requires
        all_digits(digits),
        rest.len() == 0 || !is_digit(rest.first()),
    ensures
        digit_prefix_len(digits + rest) == digits.len(),
        (digits + rest).take(digits.len() as int) == digits,
        (digits + rest).skip(digits.len() as int) == rest,
    decreases digits.len(),
{
    if digits.len() > 0 {
        assert((digits + rest).drop_first() =~= digits.drop_first() + rest);
        lemma_digit_run(digits.drop_first(), rest);
    }
}

/// A text that holds more than its leading digits does not hold digits only.
pub proof fn lemma_digit_run_stops(s: Seq<char>)
    requires
        digit_prefix_len(s) < s.len(),
    ensures
        !all_digits(s),
    decreases s.len(),
{
    if is_digit(s.first()) {
        lemma_digit_run_stops(s.drop_first());
    }
}

/// A numeral denotes at least as much as any of its prefixes.
pub proof fn lemma_decimal_value_prefix(s: Seq<char>, k: int)
    requires
        all_digits(s),
        0 <= k <= s.len(),
    ensures
        decimal_value(s.take(k)) <= decimal_value(s),
    decreases s.len() - k,
{
    if k == s.len() {
        assert(s.take(k) =~= s);
    } else {
        lemma_decimal_value_prefix(s.drop_last(), k);
        assert(s.drop_last().take(k) =~= s.take(k));
    }
}

/// The numeral of a number holds digits only and denotes that number.
pub proof fn lemma_natural_text(n: nat)
    ensures
        natural_text(n).len() > 0,
        all_digits(natural_text(n)),
        decimal_value(natural_text(n)) == n,
    decreases n,
{
    let text = natural_text(n);
    if n < 10 {
        assert(decimal_value(text.drop_last()) == 0);
    } else {
        lemma_natural_text(n / 10);
        assert(text.drop_last() =~= natural_text(n / 10));
    }
}

/// The numeral of a number, signed or not, denotes that number.
pub proof fn lemma_decimal_text(n: int)
    ensures
        signed_decimal(decimal_text(n)) == Some(n),
        trimmed(decimal_text(n)) == decimal_text(n),
{
    let digits = natural_text(if n < 0 {
        (-n) as nat
    } else {
        n as nat
    });
    lemma_natural_text(if n < 0 {
        (-n) as nat
    } else {
        n as nat
    });
    if n < 0 {
        assert(decimal_text(n).skip(1) =~= digits);
    }
    lemma_trimmed_whole(decimal_text(n));
}

} // verus!
