//! Character-level text handling shared by the configuration reader and the
//! diagnostic snapshot: Unicode whitespace trimming, ASCII case folding,
//! decimal digits, and building strings character by character.

use vstd::prelude::*;

verus! {

/// `String::push` appends one character to the end of the string.
pub assume_specification[ String::push ](s: &mut String, ch: char)
    ensures
        final(s)@ == old(s)@.push(ch),
;

// ---------------------------------------------------------------------------
// Characters of a string
// ---------------------------------------------------------------------------

/// The characters of `s`, in order.
pub fn chars_of(s: &str) -> (r: Vec<char>)
    ensures
        r@ == s@,
{
    broadcast use vstd::string::group_string_axioms;
    let mut r: Vec<char> = Vec::new();
    for c in it: s.chars()
        invariant
            r@ == it.seq().take(it.index() as int),
            it.seq() == s@,
    {
        r.push(c);
    }
    r
}

/// The characters of `s` collected into a `String`.
pub fn string_of(s: &Vec<char>) -> (r: String)
    ensures
        r@ == s@,
{
    let mut r = String::new();
    let n = s.len();
    for i in 0..n
        invariant
            n == s.len(),
            r@ == s@.take(i as int),
    {
        r.push(s[i]);
        assert(s@.take(i + 1) =~= s@.take(i as int).push(s@[i as int]));
    }
    assert(s@.take(n as int) =~= s@);
    r
}

/// The characters of `s` from index `lo` up to, not including, `hi`.
pub fn copy_range(s: &Vec<char>, lo: usize, hi: usize) -> (r: Vec<char>)
    requires
        lo <= hi <= s.len(),
    ensures
        r@ == s@.subrange(lo as int, hi as int),
{
    let mut r: Vec<char> = Vec::new();
    let mut k: usize = lo;
    while k < hi
        invariant
            lo <= k <= hi <= s.len(),
            r@ == s@.subrange(lo as int, k as int),
        decreases hi - k,
    {
        r.push(s[k]);
        assert(s@.subrange(lo as int, k + 1) =~= s@.subrange(lo as int, k as int).push(s@[k as int]));
        k = k + 1;
    }
    r
}

// ---------------------------------------------------------------------------
// Whitespace and trimming
// ---------------------------------------------------------------------------

/// Unicode `White_Space`, the set that `char::is_whitespace` and `str::trim`
/// go by.
pub open spec fn is_ws(c: char) -> bool {
    ||| ('\u{9}' <= c && c <= '\u{d}')
    ||| c == ' '
    ||| c == '\u{85}'
    ||| c == '\u{a0}'
    ||| c == '\u{1680}'
    ||| ('\u{2000}' <= c && c <= '\u{200a}')
    ||| c == '\u{2028}'
    ||| c == '\u{2029}'
    ||| c == '\u{202f}'
    ||| c == '\u{205f}'
    ||| c == '\u{3000}'
}

/// Whether `c` is Unicode whitespace.
pub fn is_whitespace(c: char) -> (r: bool)
    ensures
        r == is_ws(c),
{
    ('\u{9}' <= c && c <= '\u{d}') || c == ' ' || c == '\u{85}' || c == '\u{a0}' || c == '\u{1680}'
        || ('\u{2000}' <= c && c <= '\u{200a}') || c == '\u{2028}' || c == '\u{2029}' || c
        == '\u{202f}' || c == '\u{205f}' || c == '\u{3000}'
}

/// The number of whitespace characters that `s` starts with.
pub open spec fn leading_ws(s: Seq<char>) -> nat
    decreases s.len(),
{
    if s.len() > 0 && is_ws(s[0]) {
        1 + leading_ws(s.drop_first())
    } else {
        0
    }
}

/// The number of whitespace characters that `s` ends with.
pub open spec fn trailing_ws(s: Seq<char>) -> nat
    decreases s.len(),
{
    if s.len() > 0 && is_ws(s.last()) {
        1 + trailing_ws(s.drop_last())
    } else {
        0
    }
}

/// `s` without its leading and trailing whitespace.
pub open spec fn trim(s: Seq<char>) -> Seq<char> {
    let t = s.skip(leading_ws(s) as int);
    t.take(t.len() - trailing_ws(t))
}

proof fn lemma_trailing_ws_bound(s: Seq<char>)
    ensures
        trailing_ws(s) <= s.len(),
    decreases s.len(),
{
    if s.len() > 0 && is_ws(s.last()) {
        lemma_trailing_ws_bound(s.drop_last());
    }
}

proof fn lemma_leading_ws_bound(s: Seq<char>)
    ensures
        leading_ws(s) <= s.len(),
    decreases s.len(),
{
    if s.len() > 0 && is_ws(s[0]) {
        lemma_leading_ws_bound(s.drop_first());
    }
}

proof fn lemma_leading_ws_push(s: Seq<char>, c: char)
    requires
        is_ws(c),
    ensures
        leading_ws(s.push(c)) == if leading_ws(s) == s.len() {
            s.len() + 1
        } else {
            leading_ws(s)
        },
    decreases s.len(),
{
    lemma_leading_ws_bound(s);
    if s.len() == 0 {
        assert(s.push(c)[0] == c);
        assert(s.push(c).drop_first() =~= Seq::<char>::empty());
        assert(leading_ws(Seq::<char>::empty()) == 0);
        assert(leading_ws(s.push(c)) == 1);
    } else {
        assert(s.push(c)[0] == s[0]);
        if is_ws(s[0]) {
            assert(s.push(c).drop_first() =~= s.drop_first().push(c));
            lemma_leading_ws_push(s.drop_first(), c);
            assert(leading_ws(s.push(c)) == 1 + leading_ws(s.drop_first().push(c)));
            assert(leading_ws(s) == 1 + leading_ws(s.drop_first()));
        } else {
            assert(leading_ws(s.push(c)) == 0);
            assert(leading_ws(s) == 0);
        }
    }
}

/// `str::trim` removes every Unicode `White_Space` character at either end:
/// the code points 9 to 13, 32, 0x85, 0xA0, 0x1680, 0x2000 to 0x200A, 0x2028,
/// 0x2029, 0x202F, 0x205F and 0x3000. One more of them before or after a text
/// leaves its trimmed form as it was.
pub proof fn lemma_trim_drops_white_space(s: Seq<char>, c: char)
    requires
        (9 <= c as int <= 13) || c as int == 32 || c as int == 0x85 || c as int == 0xa0
            || c as int == 0x1680 || (0x2000 <= c as int <= 0x200a) || c as int == 0x2028
            || c as int == 0x2029 || c as int == 0x202f || c as int == 0x205f || c as int
            == 0x3000,
    ensures
        trim(seq![c] + s) == trim(s),
        trim(s + seq![c]) == trim(s),
{
    assert(is_ws(c));
    let cs = seq![c] + s;
    assert(cs[0] == c);
    assert(cs.drop_first() =~= s);
    lemma_leading_ws_bound(s);
    assert(leading_ws(cs) == 1 + leading_ws(s));
    assert(cs.skip(leading_ws(cs) as int) =~= s.skip(leading_ws(s) as int));
    let sc = s + seq![c];
    assert(sc =~= s.push(c));
    lemma_leading_ws_push(s, c);
    let l = leading_ws(s);
    if l == s.len() {
        assert(sc.skip(leading_ws(sc) as int) =~= Seq::<char>::empty());
        assert(s.skip(l as int) =~= Seq::<char>::empty());
    } else {
        let t = s.skip(l as int);
        let t2 = sc.skip(l as int);
        assert(t2 =~= t.push(c));
        assert(t2.drop_last() =~= t);
        assert(trailing_ws(t2) == 1 + trailing_ws(t));
        lemma_trailing_ws_bound(t);
        assert(t2.take(t2.len() - trailing_ws(t2)) =~= t.take(t.len() - trailing_ws(t)));
    }
}

/// A text that starts and ends with characters outside Unicode `White_Space`
/// is its own trimmed form: trimming removes nothing else.
pub proof fn lemma_trim_keeps_other(s: Seq<char>, c: char, d: char)
    requires
        !((9 <= c as int <= 13) || c as int == 32 || c as int == 0x85 || c as int == 0xa0
            || c as int == 0x1680 || (0x2000 <= c as int <= 0x200a) || c as int == 0x2028
            || c as int == 0x2029 || c as int == 0x202f || c as int == 0x205f || c as int
            == 0x3000),
        !((9 <= d as int <= 13) || d as int == 32 || d as int == 0x85 || d as int == 0xa0
            || d as int == 0x1680 || (0x2000 <= d as int <= 0x200a) || d as int == 0x2028
            || d as int == 0x2029 || d as int == 0x202f || d as int == 0x205f || d as int
            == 0x3000),
    ensures
        trim(seq![c] + s + seq![d]) == seq![c] + s + seq![d],
        trim(seq![c]) == seq![c],
{
    let x = seq![c] + s + seq![d];
    assert(x[0] == c);
    assert(!is_ws(c));
    assert(!is_ws(d));
    assert(x.skip(0) =~= x);
    assert(x.last() == d);
    assert(x.take(x.len() as int) =~= x);
    let y = seq![c];
    assert(y.skip(0) =~= y);
    assert(y.take(1) =~= y);
}

/// `s` without its leading and trailing Unicode whitespace.
pub fn trim_chars(s: &Vec<char>) -> (r: Vec<char>)
    ensures
        r@ == trim(s@),
{
    let n = s.len();
    let mut i: usize = 0;
    assert(s@.skip(0) =~= s@);
    while i < n && is_whitespace(s[i])
        invariant
            n == s.len(),
            i <= n,
            leading_ws(s@) == i + leading_ws(s@.skip(i as int)),
        decreases n - i,
    {
        assert(s@.skip(i as int).drop_first() =~= s@.skip(i + 1));
        i = i + 1;
    }
    assert(leading_ws(s@.skip(i as int)) == 0);
    let ghost t = s@.skip(i as int);
    let mut j: usize = n;
    assert(t.take(n - i) =~= t);
    while j > i && is_whitespace(s[j - 1])
        invariant
            n == s.len(),
            i <= j <= n,
            t == s@.skip(i as int),
            trailing_ws(t) == (n - j) + trailing_ws(t.take(j - i)),
        decreases j - i,
    {
        assert(t.take(j - i).drop_last() =~= t.take(j - 1 - i));
        assert(t.take(j - i).last() == s@[j - 1]);
        j = j - 1;
    }
    assert(trailing_ws(t.take(j - i)) == 0);
    let r = copy_range(s, i, j);
    assert(trim(s@) =~= s@.subrange(i as int, j as int));
    r
}

// ---------------------------------------------------------------------------
// Searching
// ---------------------------------------------------------------------------

/// The index of the first `c` in `s`, if `s` holds one.
pub open spec fn index_of_char(s: Seq<char>, c: char) -> Option<int>
    decreases s.len(),
{
    if s.len() == 0 {
        None
    } else if s[0] == c {
        Some(0)
    } else {
        match index_of_char(s.drop_first(), c) {
            Some(i) => Some(i + 1),
            None => None,
        }
    }
}

pub(crate) proof fn lemma_index_of_char(s: Seq<char>, c: char, i: int)
    requires
        0 <= i <= s.len(),
        forall|j: int| 0 <= j < i ==> s[j] != c,
        i < s.len() ==> s[i] == c,
    ensures
        index_of_char(s, c) == (if i < s.len() { Some(i) } else { None::<int> }),
    decreases s.len(),
{
    if s.len() > 0 && s[0] != c {
        lemma_index_of_char(s.drop_first(), c, i - 1);
    }
}

/// The index of the first `c` in `s`, if `s` holds one.
pub fn find_char(s: &Vec<char>, c: char) -> (r: Option<usize>)
    ensures
        match r {
            Some(i) => i < s.len() && s@[i as int] == c && index_of_char(s@, c) == Some(i as int),
            None => index_of_char(s@, c) == None::<int>,
        },
{
    let n = s.len();
    for i in 0..n
        invariant
            n == s.len(),
            forall|j: int| 0 <= j < i ==> s@[j] != c,
    {
        if s[i] == c {
            proof {
                lemma_index_of_char(s@, c, i as int);
            }
            return Some(i);
        }
    }
    proof {
        lemma_index_of_char(s@, c, n as int);
    }
    None
}

// ---------------------------------------------------------------------------
// ASCII case
// ---------------------------------------------------------------------------

/// The code of `c` once an ASCII capital letter is turned into its small one;
/// any other character keeps its code.
pub open spec fn ascii_lower_code(c: char) -> int {
    if 65 <= (c as int) <= 90 {
        c as int + 32
    } else {
        c as int
    }
}

/// `s` equals `word` once the ASCII capitals of `s` are made small.
pub open spec fn eq_ascii_lowered(s: Seq<char>, word: Seq<char>) -> bool {
    &&& s.len() == word.len()
    &&& forall|i: int| 0 <= i < s.len() ==> ascii_lower_code(#[trigger] s[i]) == word[i] as int
}

/// Whether `s`, with its ASCII capitals made small, equals `word`.
pub fn eq_ascii_lowered_chars(s: &Vec<char>, word: &Vec<char>) -> (r: bool)
    ensures
        r == eq_ascii_lowered(s@, word@),
{
    if s.len() != word.len() {
        return false;
    }
    let n = s.len();
    for i in 0..n
        invariant
            n == s.len(),
            n == word@.len(),
            forall|j: int| 0 <= j < i ==> ascii_lower_code(#[trigger] s@[j]) == word@[j] as int,
    {
        let c = s[i];
        let w = word[i];
        let same: bool = if 'A' <= c && c <= 'Z' {
            'a' <= w && w <= 'z' && (c as u32) + 32 == (w as u32)
        } else {
            c == w
        };
        if !same {
            return false;
        }
    }
    true
}

// ---------------------------------------------------------------------------
// Decimal numbers
// ---------------------------------------------------------------------------

/// An ASCII decimal digit.
pub open spec fn is_digit(c: char) -> bool {
    '0' <= c && c <= '9'
}

/// The value of the digit `c`.
pub open spec fn digit_value(c: char) -> int {
    c as int - '0' as int
}

/// The value of the decimal digits `d`, most significant first.
pub open spec fn digits_value(d: Seq<char>) -> int
    decreases d.len(),
{
    if d.len() == 0 {
        0
    } else {
        digits_value(d.drop_last()) * 10 + digit_value(d.last())
    }
}

/// Every character of `d` is an ASCII digit.
pub open spec fn all_digits(d: Seq<char>) -> bool {
    forall|i: int| 0 <= i < d.len() ==> is_digit(#[trigger] d[i])
}

/// `s` without a leading `+`, if it has one.
pub open spec fn unsigned_part(s: Seq<char>) -> Seq<char> {
    if s.len() > 0 && s[0] == '+' {
        s.drop_first()
    } else {
        s
    }
}

/// What `str::parse::<usize>` gives back: an optional `+`, then at least one
/// ASCII digit and nothing else, with a value that fits in a `usize`.
pub open spec fn parse_usize_spec(s: Seq<char>) -> Option<usize> {
    let d = unsigned_part(s);
    if d.len() > 0 && all_digits(d) && digits_value(d) <= usize::MAX {
        Some(digits_value(d) as usize)
    } else {
        None
    }
}

proof fn lemma_digits_value_grows(d: Seq<char>, i: int, j: int)
    requires
        0 <= i <= j <= d.len(),
        all_digits(d),
    ensures
        0 <= digits_value(d.take(i)) <= digits_value(d.take(j)),
    decreases j,
{
    if j > 0 {
        assert(d.take(j).drop_last() =~= d.take(j - 1));
        if i < j {
            lemma_digits_value_grows(d, i, j - 1);
        } else {
            lemma_digits_value_grows(d, j - 1, j - 1);
        }
    }
}

/// The `usize` that `s` spells in decimal, as `str::parse::<usize>` reads it.
pub fn parse_usize(s: &Vec<char>) -> (r: Option<usize>)
    ensures
        r == parse_usize_spec(s@),
{
    let n = s.len();
    let start: usize = if n > 0 && s[0] == '+' {
        1
    } else {
        0
    };
    let ghost d = unsigned_part(s@);
    assert(d =~= s@.skip(start as int));
    if start == n {
        return None;
    }
    let mut acc: usize = 0;
    let mut k: usize = start;
    assert(d.take(0) =~= Seq::<char>::empty());
    while k < n
        invariant
            start <= k <= n,
            n == s.len(),
            d == s@.skip(start as int),
            d == unsigned_part(s@),
            forall|m: int| 0 <= m < k - start ==> is_digit(#[trigger] d[m]),
            acc == digits_value(d.take(k - start)),
        decreases n - k,
    {
        let c = s[k];
        if !('0' <= c && c <= '9') {
            assert(d[k - start] == c);
            return None;
        }
        let digit: usize = (c as u32 - '0' as u32) as usize;
        assert(d.take(k + 1 - start).drop_last() =~= d.take(k - start));
        assert(d.take(k + 1 - start).last() == c);
        match acc.checked_mul(10) {
            Some(m) => match m.checked_add(digit) {
                Some(v) => {
                    acc = v;
                },
                None => {
                    proof {
                        if all_digits(d) {
                            lemma_digits_value_grows(d, k + 1 - start, d.len() as int);
                            assert(d.take(d.len() as int) =~= d);
                        }
                    }
                    return None;
                },
            },
            None => {
                proof {
                    if all_digits(d) {
                        lemma_digits_value_grows(d, k + 1 - start, d.len() as int);
                        lemma_digits_value_grows(d, 0, k - start);
                        assert(d.take(d.len() as int) =~= d);
                    }
                }
                return None;
            },
        }
        k = k + 1;
    }
    assert(d.take(n - start) =~= d);
    Some(acc)
}

/// The ASCII digit of `d`, for `d` in `0..10`.
pub open spec fn digit_char(d: int) -> char {
    if d == 0 {
        '0'
    } else if d == 1 {
        '1'
    } else if d == 2 {
        '2'
    } else if d == 3 {
        '3'
    } else if d == 4 {
        '4'
    } else if d == 5 {
        '5'
    } else if d == 6 {
        '6'
    } else if d == 7 {
        '7'
    } else if d == 8 {
        '8'
    } else {
        '9'
    }
}

/// The decimal digits of `n`, most significant first, with no leading zero.
pub open spec fn decimal(n: nat) -> Seq<char>
    decreases n,
{
    if n < 10 {
        seq![digit_char(n as int)]
    } else {
        decimal(n / 10).push(digit_char((n % 10) as int))
    }
}

fn digit_char_of(d: u64) -> (c: char)
    requires
        d < 10,
    ensures
        c == digit_char(d as int),
{
    match d {
        0 => '0',
        1 => '1',
        2 => '2',
        3 => '3',
        4 => '4',
        5 => '5',
        6 => '6',
        7 => '7',
        8 => '8',
        _ => '9',
    }
}

/// Appends the decimal digits of `n` to `s`.
pub fn push_decimal(s: &mut String, n: u64)
    ensures
        final(s)@ == old(s)@ + decimal(n as nat),
    decreases n,
{
    if n >= 10 {
        push_decimal(s, n / 10);
    }
    s.push(digit_char_of(n % 10));
    assert(final(s)@ =~= old(s)@ + decimal(n as nat)) by {
        if n >= 10 {
            assert(decimal(n as nat) == decimal((n / 10) as nat).push(digit_char((n % 10) as int)));
        }
    }
}

/// `str::parse::<usize>` accepts nothing but ASCII digits, with at most one
/// `+` in front and at least one digit.
pub proof fn lemma_parse_usize_only_digits(s: Seq<char>)
    ensures
        parse_usize_spec(s) is Some ==> {
            &&& s.len() > 0
            &&& !(s.len() == 1 && s[0] == '+')
            &&& forall|i: int| 0 <= i < s.len() ==> ('0' <= #[trigger] s[i] <= '9' || (i == 0 && s[i] == '+'))
        },
{
    if parse_usize_spec(s) is Some {
        let d = unsigned_part(s);
        assert forall|i: int| 0 <= i < s.len() implies ('0' <= #[trigger] s[i] <= '9' || (i == 0 && s[i] == '+')) by {
            if s.len() > 0 && s[0] == '+' {
                if i > 0 {
                    assert(d[i - 1] == s[i]);
                    assert(is_digit(d[i - 1]));
                }
            } else {
                assert(is_digit(d[i]));
            }
        }
    }
}

proof fn lemma_digits_value_leading_zero(d: Seq<char>)
    ensures
        digits_value(seq!['0'] + d) == digits_value(d),
    decreases d.len(),
{
    if d.len() == 0 {
        let z = seq!['0'];
        assert(z.drop_last() =~= Seq::<char>::empty());
        assert(seq!['0'] + d =~= z);
        assert(digits_value(Seq::<char>::empty()) == 0);
        assert(digits_value(z) == digits_value(z.drop_last()) * 10 + digit_value(z.last()));
    } else {
        let zd = seq!['0'] + d;
        assert(zd.drop_last() =~= seq!['0'] + d.drop_last());
        assert(zd.last() == d.last());
        lemma_digits_value_leading_zero(d.drop_last());
        assert(digits_value(zd) == digits_value(zd.drop_last()) * 10 + digit_value(zd.last()));
    }
}

/// Leading zeros and a leading `+` do not change what a number reads as.
pub proof fn lemma_parse_usize_prefixes(d: Seq<char>)
    requires
        d.len() > 0,
        forall|i: int| 0 <= i < d.len() ==> '0' <= #[trigger] d[i] <= '9',
    ensures
        parse_usize_spec(seq!['0'] + d) == parse_usize_spec(d),
        parse_usize_spec(seq!['+'] + d) == parse_usize_spec(d),
{
    let zd = seq!['0'] + d;
    let pd = seq!['+'] + d;
    assert(d[0] != '+');
    assert(unsigned_part(d) == d);
    assert(zd[0] == '0');
    assert(unsigned_part(zd) == zd);
    assert(pd[0] == '+');
    assert(unsigned_part(pd) =~= d);
    lemma_digits_value_leading_zero(d);
    assert(all_digits(zd) == all_digits(d)) by {
        if all_digits(d) {
            assert forall|i: int| 0 <= i < zd.len() implies is_digit(#[trigger] zd[i]) by {
                if i > 0 {
                    assert(zd[i] == d[i - 1]);
                }
            }
        }
    }
}

/// The decimal digits of a number read back as that number: `decimal` and
/// `parse_usize_spec` undo each other on every `usize`.
pub proof fn lemma_decimal_parses_back(n: usize)
    ensures
        parse_usize_spec(decimal(n as nat)) == Some(n),
{
    lemma_decimal_digits(n as nat);
    assert(unsigned_part(decimal(n as nat)) == decimal(n as nat));
}

proof fn lemma_digit_char(d: int)
    requires
        0 <= d < 10,
    ensures
        is_digit(digit_char(d)),
        digit_value(digit_char(d)) == d,
{
}

pub(crate) proof fn lemma_decimal_digits(n: nat)
    ensures
        decimal(n).len() > 0,
        decimal(n)[0] != '+',
        all_digits(decimal(n)),
        digits_value(decimal(n)) == n,
    decreases n,
{
    lemma_digit_char((n % 10) as int);
    if n >= 10 {
        lemma_decimal_digits(n / 10);
        let d = decimal(n);
        assert(d.drop_last() =~= decimal(n / 10));
        assert(n == (n / 10) * 10 + n % 10);
        assert(digits_value(d) == digits_value(d.drop_last()) * 10 + digit_value(d.last()));
    } else {
        let d = decimal(n);
        assert(d.drop_last() =~= Seq::<char>::empty());
        assert(digits_value(d) == digits_value(d.drop_last()) * 10 + digit_value(d.last()));
    }
}

} // verus!
