//! Character-level text handling for command lines: trimming Unicode
//! whitespace, splitting into words at ASCII whitespace, comparing texts and
//! reading unsigned decimal numbers.

use vstd::prelude::*;
use vstd::string::StrSliceExecFns;

verus! {

/// The characters with the Unicode `White_Space` property (what
/// `char::is_whitespace` accepts).
pub open spec fn is_whitespace(c: char) -> bool {
    let v = c as u32;
    ||| 0x09 <= v <= 0x0d
    ||| v == 0x20
    ||| v == 0x85
    ||| v == 0xa0
    ||| v == 0x1680
    ||| 0x2000 <= v <= 0x200a
    ||| v == 0x2028
    ||| v == 0x2029
    ||| v == 0x202f
    ||| v == 0x205f
    ||| v == 0x3000
}

/// The ASCII whitespace characters: space, tab, line feed, form feed and
/// carriage return (what `u8::is_ascii_whitespace` accepts).
pub open spec fn is_ascii_whitespace(c: char) -> bool {
    let v = c as u32;
    v == 0x20 || v == 0x09 || v == 0x0a || v == 0x0c || v == 0x0d
}

/// `s` without its leading whitespace.
pub open spec fn trim_start(s: Seq<char>) -> Seq<char>
    decreases s.len(),
{
    if s.len() > 0 && is_whitespace(s[0]) {
        trim_start(s.drop_first())
    } else {
        s
    }
}

/// `s` without its trailing whitespace.
pub open spec fn trim_end(s: Seq<char>) -> Seq<char>
    decreases s.len(),
{
    if s.len() > 0 && is_whitespace(s.last()) {
        trim_end(s.drop_last())
    } else {
        s
    }
}

/// `s` without its leading and trailing whitespace.
pub open spec fn trim(s: Seq<char>) -> Seq<char> {
    trim_end(trim_start(s))
}

/// The words of `s`: its maximal runs of characters that are not ASCII
/// whitespace, in order. Built up one character at a time: whitespace ends a
/// word, and any other character either extends the word that the character
/// before it belongs to or starts a new one.
pub open spec fn ascii_words(s: Seq<char>) -> Seq<Seq<char>>
    decreases s.len(),
{
    if s.len() == 0 {
        Seq::empty()
    } else {
        let init = ascii_words(s.drop_last());
        let c = s.last();
        if is_ascii_whitespace(c) {
            init
        } else if s.len() >= 2 && !is_ascii_whitespace(s[s.len() - 2]) {
            init.update(init.len() - 1, init.last().push(c))
        } else {
            init.push(seq![c])
        }
    }
}

/// No word holds ASCII whitespace.
pub proof fn lemma_words_hold_no_ascii_whitespace(s: Seq<char>)
    ensures
        forall|i: int, j: int|
            0 <= i < ascii_words(s).len() && 0 <= j < ascii_words(s)[i].len()
                ==> !is_ascii_whitespace(#[trigger] ascii_words(s)[i][j]),
    decreases s.len(),
{
    if s.len() > 0 {
        lemma_words_hold_no_ascii_whitespace(s.drop_last());
        let init = ascii_words(s.drop_last());
        let c = s.last();
        if !is_ascii_whitespace(c) && s.len() >= 2 && !is_ascii_whitespace(s[s.len() - 2]) {
            lemma_last_word_exists(s.drop_last());
        }
    }
}

/// A text that ends in a character other than ASCII whitespace has a word.
proof fn lemma_last_word_exists(s: Seq<char>)
    requires
        s.len() > 0,
        !is_ascii_whitespace(s.last()),
    ensures
        ascii_words(s).len() > 0,
    decreases s.len(),
{
    if s.len() >= 2 && !is_ascii_whitespace(s[s.len() - 2]) {
        assert(s.drop_last().last() == s[s.len() - 2]);
        lemma_last_word_exists(s.drop_last());
    }
}

/// The value of a sequence of decimal digits, most significant first.
pub open spec fn digits_value(s: Seq<char>) -> nat
    decreases s.len(),
{
    if s.len() == 0 {
        0
    } else {
        digits_value(s.drop_last()) * 10 + ((s.last() as u32) - 0x30) as nat
    }
}

pub open spec fn is_digit(c: char) -> bool {
    0x30 <= (c as u32) <= 0x39
}

pub open spec fn all_digits(s: Seq<char>) -> bool {
    forall|i: int| 0 <= i < s.len() ==> is_digit(#[trigger] s[i])
}

/// What `u128`'s `from_str` makes of `s`: an optional `+` followed by at least
/// one decimal digit, whose value fits in 128 bits; `None` for anything else.
pub open spec fn decimal_u128(s: Seq<char>) -> Option<u128> {
    let digits = if s.len() > 0 && s[0] == '+' {
        s.drop_first()
    } else {
        s
    };
    if digits.len() > 0 && all_digits(digits) && digits_value(digits) <= u128::MAX {
        Some(digits_value(digits) as u128)
    } else {
        None
    }
}

/// `s` without one leading `+`, if it has one.
spec fn unsigned_part(s: Seq<char>) -> Seq<char> {
    if s.len() > 0 && s[0] == '+' {
        s.drop_first()
    } else {
        s
    }
}

/// A number is read from the whole text or not at all: when `s` reads as a
/// number, every character of it after an optional leading `+` is one of the
/// digits `0` to `9`, and there is at least one. So a text holding any other
/// character (`.`, `,`, `-`, a space, ...) reads as no number.
pub proof fn lemma_decimal_reads_whole_text(s: Seq<char>)
    ensures
        decimal_u128(s) is Some ==> {
            let start: int = if s.len() > 0 && s[0] == '+' {
                1
            } else {
                0
            };
            &&& start < s.len()
            &&& forall|i: int| start <= i < s.len() ==> 0x30 <= (#[trigger] s[i] as u32) <= 0x39
        },
{
    if decimal_u128(s) is Some {
        let d = unsigned_part(s);
        let start: int = if s.len() > 0 && s[0] == '+' {
            1
        } else {
            0
        };
        assert forall|i: int| start <= i < s.len() implies 0x30 <= (#[trigger] s[i] as u32)
            <= 0x39 by {
            assert(s[i] == d[i - start]);
            assert(is_digit(d[i - start]));
        }
    }
}

/// The empty text, and a lone `+`, read as no number.
pub proof fn lemma_decimal_needs_a_digit()
    ensures
        decimal_u128(Seq::<char>::empty()) is None,
        decimal_u128(seq!['+']) is None,
{
    assert(seq!['+'].drop_first() =~= Seq::<char>::empty());
}

/// A single digit reads as its own value.
pub proof fn lemma_decimal_single_digit(c: char)
    requires
        0x30 <= (c as u32) <= 0x39,
    ensures
        decimal_u128(seq![c]) == Some(((c as u32) - 0x30) as u128),
{
    assert(seq![c].drop_last() =~= Seq::<char>::empty());
    assert(seq![c][0] == c);
    assert(seq![c].last() == c);
    assert(digits_value(Seq::<char>::empty()) == 0);
    assert(digits_value(seq![c].drop_last()) == 0);
    assert(unsigned_part(seq![c]) == seq![c]);
    assert(all_digits(seq![c]));
    assert(digits_value(seq![c]) == ((c as u32) - 0x30) as nat);
}

/// Writing one more digit behind a number multiplies it by ten and adds the
/// digit; when that no longer fits in 128 bits, the text reads as no number.
pub proof fn lemma_decimal_next_digit(s: Seq<char>, c: char, v: u128)
    requires
        decimal_u128(s) == Some(v),
        0x30 <= (c as u32) <= 0x39,
    ensures
        v * 10 + ((c as u32) - 0x30) <= u128::MAX ==> decimal_u128(s.push(c)) == Some(
            (v * 10 + ((c as u32) - 0x30)) as u128,
        ),
        v * 10 + ((c as u32) - 0x30) > u128::MAX ==> decimal_u128(s.push(c)) is None,
{
    let d = unsigned_part(s);
    let e = unsigned_part(s.push(c));
    assert(d.len() > 0);
    assert(e =~= d.push(c));
    assert(e.drop_last() =~= d);
    assert(all_digits(e)) by {
        assert forall|i: int| 0 <= i < e.len() implies is_digit(#[trigger] e[i]) by {
            if i < d.len() {
                assert(e[i] == d[i]);
            }
        }
    }
}

/// A leading `+` does not change the number that the digits behind it read as.
pub proof fn lemma_decimal_plus_sign(s: Seq<char>)
    requires
        s.len() > 0,
        s[0] != '+',
    ensures
        decimal_u128(seq!['+'] + s) == decimal_u128(s),
{
    assert((seq!['+'] + s).drop_first() =~= s);
}

fn char_is_whitespace(c: char) -> (b: bool)
    ensures
        b == is_whitespace(c),
{
    let v = c as u32;
    (0x09 <= v && v <= 0x0d) || v == 0x20 || v == 0x85 || v == 0xa0 || v == 0x1680 || (0x2000
        <= v && v <= 0x200a) || v == 0x2028 || v == 0x2029 || v == 0x202f || v == 0x205f || v
        == 0x3000
}

fn char_is_ascii_whitespace(c: char) -> (b: bool)
    ensures
        b == is_ascii_whitespace(c),
{
    let v = c as u32;
    v == 0x20 || v == 0x09 || v == 0x0a || v == 0x0c || v == 0x0d
}

/// `s` with leading and trailing Unicode whitespace removed.
pub fn trim_text(s: &str) -> (t: &str)
    ensures
        t@ == trim(s@),
{
    let n = s.unicode_len();
    let mut a: usize = 0;
    assert(s@.subrange(0, n as int) =~= s@);
    while a < n && char_is_whitespace(s.get_char(a))
        invariant
            a <= n,
            n == s@.len(),
            trim_start(s@) == trim_start(s@.subrange(a as int, n as int)),
        decreases n - a,
    {
        assert(s@.subrange(a as int, n as int).drop_first() =~= s@.subrange(a + 1, n as int));
        a = a + 1;
    }
    assert(trim_start(s@) == s@.subrange(a as int, n as int)) by {
        if a == n {
            assert(s@.subrange(a as int, n as int) =~= Seq::<char>::empty());
        }
    }
    let mut b: usize = n;
    while b > a && char_is_whitespace(s.get_char(b - 1))
        invariant
            a <= b <= n,
            n == s@.len(),
            trim_start(s@) == s@.subrange(a as int, n as int),
            trim(s@) == trim_end(s@.subrange(a as int, b as int)),
        decreases b - a,
    {
        assert(s@.subrange(a as int, b as int).drop_last() =~= s@.subrange(a as int, b - 1));
        b = b - 1;
    }
    s.substring_char(a, b)
}

/// The views of a sequence of texts.
pub open spec fn text_views(texts: Seq<&str>) -> Seq<Seq<char>> {
    Seq::new(texts.len(), |i: int| texts[i]@)
}

/// The words of `s`, split at ASCII whitespace (what
/// `str::split_ascii_whitespace` yields).
pub fn split_ascii_words(s: &str) -> (words: Vec<&str>)
    ensures
        text_views(words@) == ascii_words(s@),
{
    let n = s.unicode_len();
    let mut words: Vec<&str> = Vec::new();
    let mut start: usize = 0;
    let mut in_word = false;
    let mut i: usize = 0;
    while i < n
        invariant
            i <= n,
            n == s@.len(),
            start <= i,
            in_word ==> start < i && ascii_words(s@.subrange(0, i as int)) == text_views(
                words@,
            ).push(s@.subrange(start as int, i as int)),
            !in_word ==> ascii_words(s@.subrange(0, i as int)) == text_views(words@),
            in_word <==> (i > 0 && !is_ascii_whitespace(s@[i - 1])),
        decreases n - i,
    {
        let c = s.get_char(i);
        let ghost prefix = s@.subrange(0, i + 1);
        let ghost before = text_views(words@);
        assert(prefix.drop_last() =~= s@.subrange(0, i as int));
        assert(prefix.last() == c);
        if char_is_ascii_whitespace(c) {
            if in_word {
                let w = s.substring_char(start, i);
                words.push(w);
                assert(text_views(words@) =~= before.push(w@));
                in_word = false;
            }
        } else if in_word {
            assert(prefix[prefix.len() - 2] == s@[i - 1]);
            assert(s@.subrange(start as int, i as int).push(c) =~= s@.subrange(
                start as int,
                i + 1,
            ));
            assert(before.push(s@.subrange(start as int, i as int)).update(
                before.len() as int,
                s@.subrange(start as int, i + 1),
            ) =~= before.push(s@.subrange(start as int, i + 1)));
        } else {
            start = i;
            in_word = true;
            assert(s@.subrange(start as int, i + 1) =~= seq![c]);
        }
        i = i + 1;
    }
    if in_word {
        let w = s.substring_char(start, n);
        let ghost before = text_views(words@);
        words.push(w);
        assert(text_views(words@) =~= before.push(w@));
    }
    assert(s@.subrange(0, n as int) =~= s@);
    words
}

/// Whether `a` and `b` hold the same characters.
pub fn same_text(a: &str, b: &str) -> (same: bool)
    ensures
        same == (a@ == b@),
{
    let n = a.unicode_len();
    let m = b.unicode_len();
    if n != m {
        return false;
    }
    let mut i: usize = 0;
    while i < n
        invariant
            i <= n,
            n == a@.len(),
            n == b@.len(),
            forall|k: int| 0 <= k < i ==> a@[k] == b@[k],
        decreases n - i,
    {
        if (a.get_char(i) as u32) != (b.get_char(i) as u32) {
            return false;
        }
        i = i + 1;
    }
    assert(a@ =~= b@);
    true
}

/// A prefix of a digit sequence is worth no more than the whole sequence.
proof fn lemma_digits_value_prefix(s: Seq<char>, k: int)
    requires
        0 <= k <= s.len(),
    ensures
        digits_value(s.subrange(0, k)) <= digits_value(s),
    decreases s.len(),
{
    if k == s.len() {
        assert(s.subrange(0, k) =~= s);
    } else {
        lemma_digits_value_prefix(s.drop_last(), k);
        assert(s.drop_last().subrange(0, k) =~= s.subrange(0, k));
    }
}

/// Reads `s` as an unsigned decimal number that fits in 128 bits, the way
/// `u128`'s `from_str` does.
pub fn parse_u128(s: &str) -> (value: Option<u128>)
    ensures
        value == decimal_u128(s@),
{
    let n = s.unicode_len();
    let mut start: usize = 0;
    if n > 0 && (s.get_char(0) as u32) == 0x2b {
        start = 1;
    }
    let ghost digits = s@.subrange(start as int, n as int);
    assert(digits =~= (if s@.len() > 0 && s@[0] == '+' {
        s@.drop_first()
    } else {
        s@
    }));
    if start == n {
        return None;
    }
    let mut acc: u128 = 0;
    let mut k: usize = start;
    assert(s@.subrange(start as int, start as int) =~= Seq::<char>::empty());
    while k < n
        invariant
            start <= k <= n,
            n == s@.len(),
            digits == s@.subrange(start as int, n as int),
            digits == (if s@.len() > 0 && s@[0] == '+' {
                s@.drop_first()
            } else {
                s@
            }),
            acc == digits_value(s@.subrange(start as int, k as int)),
            forall|j: int| start <= j < k ==> is_digit(#[trigger] s@[j]),
        decreases n - k,
    {
        let cv = s.get_char(k) as u32;
        if cv < 0x30 || cv > 0x39 {
            assert(!is_digit(digits[k - start]));
            return None;
        }
        let d = (cv - 0x30) as u128;
        let ghost next = s@.subrange(start as int, k + 1);
        assert(next.drop_last() =~= s@.subrange(start as int, k as int));
        assert(digits_value(next) == acc * 10 + d);
        assert(digits.subrange(0, k + 1 - start) =~= next);
        match acc.checked_mul(10) {
            None => {
                proof {
                    if all_digits(digits) {
                        lemma_digits_value_prefix(digits, k + 1 - start);
                    }
                }
                return None;
            },
            Some(tens) => match tens.checked_add(d) {
                None => {
                    proof {
                        if all_digits(digits) {
                            lemma_digits_value_prefix(digits, k + 1 - start);
                        }
                    }
                    return None;
                },
                Some(v) => {
                    acc = v;
                },
            },
        }
        k = k + 1;
    }
    assert(all_digits(digits));
    Some(acc)
}

} // verus!
