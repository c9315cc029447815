//! Text as sequences of characters: comparison, search, trimming and decimal numbers.

use vstd::prelude::*;

verus! {

/// The characters of a text.
pub fn chars_of(s: &str) -> (res: Vec<char>)
    ensures
        res@ == s@,
{
    broadcast use vstd::string::axiom_spec_iter;

    let mut out: Vec<char> = Vec::new();
    for c in it: s.chars()
        invariant
            it.seq() == s@,
            out@ == s@.take(it.index()),
    {
        proof {
            assert(s@.take(it.index() + 1) =~= s@.take(it.index()).push(s@[it.index()]));
        }
        out.push(c);
    }
    assert(s@.take(s@.len() as int) =~= s@);
    out
}

/// Whether two texts hold the same characters.
pub fn same(a: &str, b: &str) -> (res: bool)
    ensures
        res == (a@ == b@),
{
    let x: Vec<char> = chars_of(a);
    let y: Vec<char> = chars_of(b);
    if x.len() != y.len() {
        return false;
    }
    let mut i: usize = 0;
    while i < x.len()
        invariant
            x@ == a@,
            y@ == b@,
            x@.len() == y@.len(),
            i <= x@.len(),
            forall|k: int| 0 <= k < i ==> x@[k] == y@[k],
        decreases x@.len() - i,
    {
        if x[i] != y[i] {
            return false;
        }
        i = i + 1;
    }
    assert(a@ =~= b@);
    true
}

/// Whether `a` is there and equals `b`.
pub fn is_text(a: &Option<String>, b: &str) -> (res: bool)
    ensures
        res == (a matches Some(t) && t@ == b@),
{
    match a {
        Some(t) => same(t.as_str(), b),
        None => false,
    }
}

/// The characters of a text that may be missing.
pub open spec fn opt(a: Option<String>) -> Option<Seq<char>> {
    match a {
        Some(t) => Some(t@),
        None => None,
    }
}

/// A copy of a text that may be missing.
pub fn copy_opt(a: &Option<String>) -> (res: Option<String>)
    ensures
        opt(res) == opt(*a),
{
    match a {
        Some(t) => Some(t.as_str().to_owned()),
        None => None,
    }
}

/// Two texts, one after the other.
pub fn join(a: &str, b: &str) -> (res: String)
    ensures
        res@ == a@ + b@,
{
    let mut s: String = a.to_owned();
    s.append(b);
    s
}

/// Three texts, one after the other.
pub fn join3(a: &str, b: &str, c: &str) -> (res: String)
    ensures
        res@ == a@ + b@ + c@,
{
    let mut s: String = a.to_owned();
    s.append(b);
    s.append(c);
    s
}

/// What the `Debug` form of a text is: quoted, with escapes.
pub uninterp spec fn quoted(s: Seq<char>) -> Seq<char>;

/// `format!("{:?}", s)` of std: the text in double quotes, with escapes. That the result is a
/// function of the text alone is all that is claimed of it.
#[verifier::external_body]
pub(crate) fn quote(s: &str) -> (res: String)
    ensures
        res@ == quoted(s@),
{
    format!("{:?}", s)
}

// ---------------------------------------------------------------------------
// Decimal numbers
// ---------------------------------------------------------------------------

/// The character of a decimal digit.
pub open spec fn digit(d: nat) -> char {
    (48 + d) as char
}

/// A number in decimal, without leading zeros.
pub open spec fn decimal(n: nat) -> Seq<char>
    decreases n,
{
    if n < 10 {
        seq![digit(n)]
    } else {
        decimal(n / 10).push(digit(n % 10))
    }
}

/// A signed number in decimal, with a leading minus sign where it is negative.
pub open spec fn signed_decimal(n: int) -> Seq<char> {
    if n < 0 {
        seq!['-'] + decimal((-n) as nat)
    } else {
        decimal(n as nat)
    }
}

fn digit_text(d: u64) -> (res: &'static str)
    requires
        d < 10,
    ensures
        res@ == seq![digit(d as nat)],
{
    proof {
        reveal_strlit("0");
        reveal_strlit("1");
        reveal_strlit("2");
        reveal_strlit("3");
        reveal_strlit("4");
        reveal_strlit("5");
        reveal_strlit("6");
        reveal_strlit("7");
        reveal_strlit("8");
        reveal_strlit("9");
    }
    match d {
        0 => "0",
        1 => "1",
        2 => "2",
        3 => "3",
        4 => "4",
        5 => "5",
        6 => "6",
        7 => "7",
        8 => "8",
        _ => "9",
    }
}

/// Writes a number in decimal.
pub fn to_decimal(n: u64) -> (res: String)
    ensures
        res@ == decimal(n as nat),
    decreases n,
{
    if n < 10 {
        return digit_text(n).to_owned();
    }
    let mut s: String = to_decimal(n / 10);
    s.append(digit_text(n % 10));
    assert(s@ =~= decimal(n as nat));
    s
}

/// Writes a signed number in decimal.
pub fn to_signed_decimal(n: i64) -> (res: String)
    ensures
        res@ == signed_decimal(n as int),
{
    if n < 0 {
        proof {
            reveal_strlit("-");
        }
        let m: u64 = if n == i64::MIN {
            0x8000_0000_0000_0000
        } else {
            (-n) as u64
        };
        let s: String = join("-", to_decimal(m).as_str());
        assert("-"@ =~= seq!['-']);
        s
    } else {
        to_decimal(n as u64)
    }
}

/// A number written in decimal is digits that stand for it.
pub proof fn lemma_decimal(n: nat)
    ensures
        decimal(n).len() > 0,
        forall|i: int| 0 <= i < decimal(n).len() ==> is_digit(#[trigger] decimal(n)[i]),
        digits_value(decimal(n)) == n,
    decreases n,
{
    if n < 10 {
        assert(decimal(n).drop_last() =~= Seq::<char>::empty());
        assert(digits_value(Seq::<char>::empty()) == 0);
    } else {
        lemma_decimal(n / 10);
        assert(decimal(n).drop_last() =~= decimal(n / 10));
    }
}

/// Reading back a number written in decimal gives the number.
pub proof fn lemma_parse_reads_decimal(n: nat, max: nat)
    requires
        n <= max,
    ensures
        parsed(decimal(n), max) == Some(n),
{
    lemma_decimal(n);
    assert(is_digit(decimal(n)[0]));
}

/// Leading zeros and a plus sign do not change the number that is read; a number that is too
/// large is not read.
pub proof fn lemma_parse_skips_zeros(n: nat, zeros: nat, plus: bool, max: nat)
    ensures
        ({
            let digits = Seq::new(zeros, |i: int| '0') + decimal(n);
            let text = if plus {
                seq!['+'] + digits
            } else {
                digits
            };
            parsed(text, max) == if n <= max {
                Some(n)
            } else {
                None
            }
        }),
    decreases n,
{
    let digits = Seq::new(zeros, |i: int| '0') + decimal(n);
    lemma_decimal(n);
    lemma_zeros_in_front(zeros, decimal(n));
    assert(is_digit(digits[0])) by {
        if zeros == 0 {
            assert(digits[0] == decimal(n)[0]);
        }
    }
    assert forall|i: int| 0 <= i < digits.len() implies is_digit(#[trigger] digits[i]) by {
        if i >= zeros {
            assert(digits[i] == decimal(n)[i - zeros]);
        }
    }
    assert((seq!['+'] + digits).skip(1) =~= digits);
}

proof fn lemma_zeros_in_front(zeros: nat, d: Seq<char>)
    ensures
        digits_value(Seq::new(zeros, |i: int| '0') + d) == digits_value(d),
    decreases zeros, d.len(),
{
    let front = Seq::new(zeros, |i: int| '0');
    let all = front + d;
    if d.len() > 0 {
        lemma_zeros_in_front(zeros, d.drop_last());
        assert(all.drop_last() =~= front + d.drop_last());
        assert(all.last() == d.last());
    } else if zeros > 0 {
        let less = Seq::new((zeros - 1) as nat, |i: int| '0');
        lemma_zeros_in_front((zeros - 1) as nat, d);
        assert(all.drop_last() =~= less + d);
        assert(all.last() == '0');
    } else {
        assert(all =~= d);
    }
}

/// A text that holds anything but digits, behind at most one plus sign, is no number, and
/// neither is one without a digit.
pub proof fn lemma_parse_refuses_others(s: Seq<char>, max: nat)
    requires
        s.len() == 0 || s == seq!['+'] || (exists|i: int|
            0 <= i < s.len() && !('0' <= (#[trigger] s[i]) <= '9') && (i > 0 || s[i] != '+')),
    ensures
        parsed(s, max) is None,
{
    let d = unsigned_digits(s);
    if s.len() > 0 && s != seq!['+'] {
        let i = choose|i: int|
            0 <= i < s.len() && !('0' <= (#[trigger] s[i]) <= '9') && (i > 0 || s[i] != '+');
        if s[0] == '+' {
            assert(d[i - 1] == s[i]);
            assert(!is_digit(d[i - 1]));
        } else {
            assert(d[i] == s[i]);
            assert(!is_digit(d[i]));
        }
    }
}

/// Whether a character is a decimal digit.
pub open spec fn is_digit(c: char) -> bool {
    '0' <= c <= '9'
}

/// The number that digits stand for, read from the left.
pub open spec fn digits_value(s: Seq<char>) -> nat
    decreases s.len(),
{
    if s.len() == 0 {
        0
    } else {
        digits_value(s.drop_last()) * 10 + (s.last() as nat - 48) as nat
    }
}

/// The digits of a number in text: all of it, but for a leading plus sign.
pub open spec fn unsigned_digits(s: Seq<char>) -> Seq<char> {
    if s.len() > 0 && s[0] == '+' {
        s.skip(1)
    } else {
        s
    }
}

/// The number up to `max` that a text stands for: one or more digits, behind at most one plus
/// sign.
pub open spec fn parsed(s: Seq<char>, max: nat) -> Option<nat> {
    let d = unsigned_digits(s);
    if d.len() == 0 || !(forall|i: int| 0 <= i < d.len() ==> is_digit(#[trigger] d[i])) {
        None
    } else if digits_value(d) > max {
        None
    } else {
        Some(digits_value(d))
    }
}

proof fn lemma_digits_grow(s: Seq<char>, k: int)
    requires
        0 <= k <= s.len(),
        forall|i: int| 0 <= i < s.len() ==> is_digit(#[trigger] s[i]),
    ensures
        digits_value(s.take(k)) <= digits_value(s),
    decreases s.len() - k,
{
    if k == s.len() {
        assert(s.take(k) =~= s);
    } else {
        lemma_digits_grow(s, k + 1);
        assert(s.take(k + 1).drop_last() =~= s.take(k));
        assert(is_digit(s[k]));
    }
}

/// Reads a number up to `max`.
fn parse_upto(s: &str, max: u32) -> (res: Option<u32>)
    ensures
        match (parsed(s@, max as nat), res) {
            (Some(w), Some(g)) => g == w,
            (None, None) => true,
            _ => false,
        },
{
    let cs: Vec<char> = chars_of(s);
    let from: usize = if cs.len() > 0 && cs[0] == '+' {
        1
    } else {
        0
    };
    let ghost d = unsigned_digits(s@);
    assert(d =~= cs@.skip(from as int));
    if cs.len() == from {
        return None;
    }
    let mut value: u64 = 0;
    let mut i: usize = from;
    assert(d.take(0) =~= Seq::<char>::empty());
    while i < cs.len()
        invariant
            from <= i <= cs@.len(),
            d == cs@.skip(from as int),
            d == unsigned_digits(s@),
            forall|k: int| 0 <= k < i - from ==> is_digit(#[trigger] d[k]),
            value == digits_value(d.take(i - from)),
            value <= max,
        decreases cs@.len() - i,
    {
        let c: char = cs[i];
        assert(d[i - from] == c);
        if c < '0' || c > '9' {
            return None;
        }
        proof {
            assert(d.take(i + 1 - from).drop_last() =~= d.take(i - from));
            assert(d.take(i + 1 - from).last() == c);
        }
        value = value * 10 + (c as u64 - 48);
        if value > max as u64 {
            proof {
                if forall|k: int| 0 <= k < d.len() ==> is_digit(#[trigger] d[k]) {
                    lemma_digits_grow(d, i + 1 - from);
                }
            }
            return None;
        }
        i = i + 1;
    }
    assert(d.take(d.len() as int) =~= d);
    Some(value as u32)
}

/// Reads a 32-bit number.
pub fn parse_u32(s: &str) -> (res: Option<u32>)
    ensures
        match (parsed(s@, u32::MAX as nat), res) {
            (Some(w), Some(g)) => g == w,
            (None, None) => true,
            _ => false,
        },
{
    parse_upto(s, u32::MAX)
}

/// Reads a 16-bit number.
pub fn parse_u16(s: &str) -> (res: Option<u16>)
    ensures
        match (parsed(s@, u16::MAX as nat), res) {
            (Some(w), Some(g)) => g == w,
            (None, None) => true,
            _ => false,
        },
{
    match parse_upto(s, 0xffff) {
        Some(n) => Some(n as u16),
        None => None,
    }
}

// ---------------------------------------------------------------------------
// Search and trimming
// ---------------------------------------------------------------------------

/// Whether `pat` stands in `s` from position `i` on.
pub open spec fn occurs_at(s: Seq<char>, pat: Seq<char>, i: int) -> bool {
    0 <= i && i + pat.len() <= s.len() && s.subrange(i, i + pat.len()) == pat
}

/// Whether `pat` stands somewhere in `s`.
pub open spec fn contains(s: Seq<char>, pat: Seq<char>) -> bool {
    exists|i: int| occurs_at(s, pat, i)
}

/// The first place from `from` on at which `pat` stands in `s`.
pub open spec fn first_index(s: Seq<char>, pat: Seq<char>, from: int) -> Option<int>
    decreases s.len() + 1 - from,
{
    if from > s.len() {
        None
    } else if occurs_at(s, pat, from) {
        Some(from)
    } else {
        first_index(s, pat, from + 1)
    }
}

/// The first place is one at which the pattern stands, and none before it is.
pub proof fn lemma_first_index(s: Seq<char>, pat: Seq<char>, from: int)
    requires
        0 <= from,
    ensures
        match first_index(s, pat, from) {
            Some(i) => from <= i && occurs_at(s, pat, i) && forall|k: int|
                from <= k < i ==> !#[trigger] occurs_at(s, pat, k),
            None => forall|k: int| from <= k ==> !#[trigger] occurs_at(s, pat, k),
        },
    decreases s.len() + 1 - from,
{
    if from <= s.len() && !occurs_at(s, pat, from) {
        lemma_first_index(s, pat, from + 1);
    }
}

/// Where the pattern stands at `i` and at no place from `from` to there, that is its first.
pub proof fn lemma_is_first_index(s: Seq<char>, pat: Seq<char>, from: int, i: int)
    requires
        0 <= from <= i,
        occurs_at(s, pat, i),
        forall|k: int| from <= k < i ==> !#[trigger] occurs_at(s, pat, k),
    ensures
        first_index(s, pat, from) == Some(i),
{
    lemma_first_index(s, pat, from);
}

/// All that stands behind the first `pat` in `s`.
pub open spec fn behind_first(s: Seq<char>, pat: Seq<char>) -> Option<Seq<char>> {
    match first_index(s, pat, 0) {
        None => None,
        Some(i) => Some(s.skip(i + pat.len())),
    }
}

/// Tests one place.
pub fn occurs(s: &Vec<char>, pat: &Vec<char>, i: usize) -> (res: bool)
    ensures
        res == occurs_at(s@, pat@, i as int),
{
    if i > s.len() || s.len() - i < pat.len() {
        return false;
    }
    let mut k: usize = 0;
    while k < pat.len()
        invariant
            i + pat.len() <= s.len(),
            k <= pat.len(),
            forall|j: int| 0 <= j < k ==> s@[i + j] == pat@[j],
        decreases pat@.len() - k,
    {
        if s[i + k] != pat[k] {
            proof {
                if s@.subrange(i as int, i + pat@.len()) == pat@ {
                    assert(s@.subrange(i as int, i + pat@.len())[k as int] == s@[i + k]);
                }
            }
            return false;
        }
        k = k + 1;
    }
    assert(s@.subrange(i as int, i + pat@.len()) =~= pat@);
    true
}

/// The first place at which `pat` stands in `s`.
pub fn find(s: &str, pat: &str) -> (res: Option<usize>)
    ensures
        match (first_index(s@, pat@, 0), res) {
            (Some(w), Some(g)) => g == w && g + pat@.len() <= s@.len(),
            (None, None) => true,
            _ => false,
        },
{
    let a: Vec<char> = chars_of(s);
    let b: Vec<char> = chars_of(pat);
    let mut i: usize = 0;
    while i <= a.len()
        invariant
            a@ == s@,
            b@ == pat@,
            first_index(s@, pat@, 0) == first_index(s@, pat@, i as int),
        decreases a@.len() + 1 - i,
    {
        if occurs(&a, &b, i) {
            return Some(i);
        }
        if i == a.len() {
            assert(first_index(s@, pat@, i + 1) is None);
            return None;
        }
        i = i + 1;
    }
    None
}

/// All that stands behind the first `pat` in `s`.
pub fn after_first<'a>(s: &'a str, pat: &str) -> (res: Option<&'a str>)
    ensures
        match (behind_first(s@, pat@), res) {
            (Some(w), Some(g)) => g@ == w,
            (None, None) => true,
            _ => false,
        },
{
    match find(s, pat) {
        None => None,
        Some(i) => {
            let len: usize = s.unicode_len();
            let width: usize = pat.unicode_len();
            let rest: &'a str = s.substring_char(i + width, len);
            assert(rest@ =~= s@.skip(i + pat@.len()));
            Some(rest)
        },
    }
}

/// Whether `pat` stands somewhere in `s`.
pub fn has(s: &str, pat: &str) -> (res: bool)
    ensures
        res == contains(s@, pat@),
{
    proof {
        lemma_first_index(s@, pat@, 0);
    }
    match find(s, pat) {
        Some(i) => {
            assert(occurs_at(s@, pat@, i as int));
            true
        },
        None => {
            assert forall|k: int| !occurs_at(s@, pat@, k) by {
                if k >= 0 {
                }
            }
            false
        },
    }
}

/// The white space characters of Unicode.
pub open spec fn white(c: char) -> bool {
    ||| '\u{9}' <= c <= '\u{d}'
    ||| c == ' '
    ||| c == '\u{85}'
    ||| c == '\u{a0}'
    ||| c == '\u{1680}'
    ||| '\u{2000}' <= c <= '\u{200a}'
    ||| c == '\u{2028}'
    ||| c == '\u{2029}'
    ||| c == '\u{202f}'
    ||| c == '\u{205f}'
    ||| c == '\u{3000}'
}

/// Whether a character is white space.
pub fn is_white(c: char) -> (res: bool)
    ensures
        res == white(c),
{
    ('\u{9}' <= c && c <= '\u{d}') || c == ' ' || c == '\u{85}' || c == '\u{a0}' || c == '\u{1680}'
        || ('\u{2000}' <= c && c <= '\u{200a}') || c == '\u{2028}' || c == '\u{2029}' || c
        == '\u{202f}' || c == '\u{205f}' || c == '\u{3000}'
}

/// The text without the white space at its start.
pub open spec fn trimmed_start(s: Seq<char>) -> Seq<char>
    decreases s.len(),
{
    if s.len() > 0 && white(s[0]) {
        trimmed_start(s.skip(1))
    } else {
        s
    }
}

/// The text without the white space at its end.
pub open spec fn trimmed_end(s: Seq<char>) -> Seq<char>
    decreases s.len(),
{
    if s.len() > 0 && white(s.last()) {
        trimmed_end(s.drop_last())
    } else {
        s
    }
}

/// The text without the white space at both ends.
pub open spec fn trimmed(s: Seq<char>) -> Seq<char> {
    trimmed_end(trimmed_start(s))
}

/// The text without the white space at both ends.
pub fn trim(s: &str) -> (res: &str)
    ensures
        res@ == trimmed(s@),
{
    let cs: Vec<char> = chars_of(s);
    let mut a: usize = 0;
    assert(s@.skip(0) =~= s@);
    while a < cs.len() && is_white(cs[a])
        invariant
            cs@ == s@,
            a <= cs@.len(),
            trimmed_start(s@) == trimmed_start(s@.skip(a as int)),
        decreases cs@.len() - a,
    {
        assert(s@.skip(a as int).skip(1) =~= s@.skip(a + 1));
        a = a + 1;
    }
    assert(trimmed_start(s@) == s@.skip(a as int));
    let mut b: usize = cs.len();
    assert(s@.skip(a as int) =~= s@.subrange(a as int, b as int));
    while b > a && is_white(cs[b - 1])
        invariant
            cs@ == s@,
            a <= b <= cs@.len(),
            trimmed(s@) == trimmed_end(s@.subrange(a as int, b as int)),
        decreases b,
    {
        assert(s@.subrange(a as int, b as int).drop_last() =~= s@.subrange(a as int, b - 1));
        b = b - 1;
    }
    s.substring_char(a, b)
}

/// The text without white space at both ends, unless nothing is left.
pub open spec fn content(s: Option<Seq<char>>) -> Option<Seq<char>> {
    match s {
        Some(t) => if trimmed(t).len() > 0 {
            Some(trimmed(t))
        } else {
            None
        },
        None => None,
    }
}

/// The text that may be missing, as characters.
pub open spec fn opt_str(a: Option<&str>) -> Option<Seq<char>> {
    match a {
        Some(t) => Some(t@),
        None => None,
    }
}

/// The text without white space at both ends, unless nothing is left.
pub fn non_empty(value: Option<&str>) -> (res: Option<String>)
    ensures
        opt(res) == content(opt_str(value)),
{
    match value {
        Some(v) => {
            let t: &str = trim(v);
            if t.is_empty() {
                None
            } else {
                Some(t.to_owned())
            }
        },
        None => None,
    }
}

/// Whether `s` ends in `suffix`.
pub open spec fn ends_with(s: Seq<char>, suffix: Seq<char>) -> bool {
    s.len() >= suffix.len() && s.skip(s.len() - suffix.len()) == suffix
}

/// The text without a suffix, where it ends in it.
pub open spec fn without_suffix(s: Seq<char>, suffix: Seq<char>) -> Seq<char> {
    if ends_with(s, suffix) {
        s.take(s.len() - suffix.len())
    } else {
        s
    }
}

/// The text without a suffix, where it ends in it.
pub fn strip_suffix<'a>(s: &'a str, suffix: &str) -> (res: &'a str)
    ensures
        res@ == without_suffix(s@, suffix@),
{
    let len: usize = s.unicode_len();
    let width: usize = suffix.unicode_len();
    if len < width {
        return s;
    }
    let tail: &str = s.substring_char(len - width, len);
    assert(tail@ =~= s@.skip(s@.len() - suffix@.len()));
    if same(tail, suffix) {
        let head: &'a str = s.substring_char(0, len - width);
        assert(head@ =~= s@.take(s@.len() - suffix@.len()));
        head
    } else {
        s
    }
}

/// What stands behind the last slash or backslash.
pub open spec fn last_component(s: Seq<char>) -> Seq<char>
    decreases s.len(),
{
    if s.len() == 0 || s.last() == '/' || s.last() == '\\' {
        Seq::empty()
    } else {
        last_component(s.drop_last()).push(s.last())
    }
}

/// The name of an executable: what stands behind the last separator of its path, unless that is
/// empty.
pub fn executable_basename(path: &str) -> (res: Option<String>)
    ensures
        opt(res) == if last_component(path@).len() > 0 {
            Some(last_component(path@))
        } else {
            None
        },
{
    let cs: Vec<char> = chars_of(path);
    let len: usize = cs.len();
    let mut a: usize = len;
    assert(path@.take(len as int) =~= path@);
    assert(path@.skip(len as int) =~= Seq::<char>::empty());
    assert(last_component(path@) =~= last_component(path@.take(len as int)) + path@.skip(
        len as int,
    ));
    while a > 0 && cs[a - 1] != '/' && cs[a - 1] != '\\'
        invariant
            cs@ == path@,
            len == cs@.len(),
            a <= len,
            last_component(path@) == last_component(path@.take(a as int)) + path@.skip(a as int),
        decreases a,
    {
        proof {
            let head = path@.take(a as int);
            assert(head.last() == path@[a - 1]);
            assert(head.drop_last() =~= path@.take(a - 1));
            assert(last_component(head) + path@.skip(a as int) =~= last_component(
                path@.take(a - 1),
            ) + path@.skip(a - 1));
        }
        a = a - 1;
    }
    proof {
        let head = path@.take(a as int);
        if a > 0 {
            assert(head.last() == path@[a - 1]);
        }
        assert(last_component(head) =~= Seq::<char>::empty());
        assert(Seq::<char>::empty() + path@.skip(a as int) =~= path@.skip(a as int));
    }
    let name: &str = path.substring_char(a, len);
    assert(name@ =~= path@.skip(a as int));
    if name.is_empty() {
        None
    } else {
        Some(name.to_owned())
    }
}

// ---------------------------------------------------------------------------
// Laws of trimming and paths
// ---------------------------------------------------------------------------

/// Trimming takes off white space at both ends and nothing else: what is left is a part of the
/// text that starts and ends with other characters, and all around it is white space.
pub proof fn lemma_trimmed(s: Seq<char>) -> (at: (int, int))
    ensures
        0 <= at.0 <= at.1 <= s.len(),
        trimmed(s) == s.subrange(at.0, at.1),
        forall|i: int| 0 <= i < at.0 ==> white(#[trigger] s[i]),
        forall|i: int| at.1 <= i < s.len() ==> white(#[trigger] s[i]),
        at.0 < at.1 ==> !white(s[at.0]) && !white(s[at.1 - 1]),
{
    let a = lemma_trimmed_start(s);
    let t = s.skip(a);
    let b = lemma_trimmed_end(t);
    assert(t.take(b) =~= s.subrange(a, a + b));
    assert forall|i: int| a + b <= i < s.len() implies white(#[trigger] s[i]) by {
        assert(t[i - a] == s[i]);
    }
    if b > 0 {
        assert(t[b - 1] == s[a + b - 1]);
        if a < s.len() {
            assert(t[0] == s[a]);
        }
    }
    (a, a + b)
}

proof fn lemma_trimmed_start(s: Seq<char>) -> (a: int)
    ensures
        0 <= a <= s.len(),
        trimmed_start(s) == s.skip(a),
        forall|i: int| 0 <= i < a ==> white(#[trigger] s[i]),
        a < s.len() ==> !white(s[a]),
    decreases s.len(),
{
    if s.len() > 0 && white(s[0]) {
        let a = lemma_trimmed_start(s.skip(1));
        assert(s.skip(1).skip(a) =~= s.skip(a + 1));
        assert forall|i: int| 0 <= i < a + 1 implies white(#[trigger] s[i]) by {
            if i > 0 {
                assert(s.skip(1)[i - 1] == s[i]);
            }
        }
        if a + 1 < s.len() {
            assert(s.skip(1)[a] == s[a + 1]);
        }
        a + 1
    } else {
        assert(s.skip(0) =~= s);
        0
    }
}

proof fn lemma_trimmed_end(s: Seq<char>) -> (b: int)
    ensures
        0 <= b <= s.len(),
        trimmed_end(s) == s.take(b),
        forall|i: int| b <= i < s.len() ==> white(#[trigger] s[i]),
        b > 0 ==> !white(s[b - 1]),
    decreases s.len(),
{
    if s.len() > 0 && white(s.last()) {
        let b = lemma_trimmed_end(s.drop_last());
        assert(s.drop_last().take(b) =~= s.take(b));
        assert forall|i: int| b <= i < s.len() implies white(#[trigger] s[i]) by {
            if i < s.len() - 1 {
                assert(s.drop_last()[i] == s[i]);
            }
        }
        if b > 0 {
            assert(s.drop_last()[b - 1] == s[b - 1]);
        }
        b
    } else {
        assert(s.take(s.len() as int) =~= s);
        s.len() as int
    }
}

/// A text that is there counts exactly where it holds anything but white space.
pub proof fn lemma_content(s: Seq<char>)
    ensures
        content(None) is None,
        content(Some(s)) is Some <==> exists|i: int| 0 <= i < s.len() && !white(#[trigger] s[i]),
        content(Some(s)) is Some ==> content(Some(s)) == Some(trimmed(s)),
        (s.len() > 0 && !white(s[0]) && !white(s.last())) ==> content(Some(s)) == Some(s),
{
    let at = lemma_trimmed(s);
    if at.0 < at.1 {
        assert(!white(s[at.0]));
    }
    if s.len() > 0 && !white(s[0]) && !white(s.last()) {
        assert(s[s.len() - 1] == s.last());
        assert(at.0 == 0 && at.1 == s.len());
        assert(s.subrange(0, s.len() as int) =~= s);
    }
}

/// Only the suffix is taken off, and only where the text ends in it.
pub proof fn lemma_without_suffix(head: Seq<char>, suffix: Seq<char>)
    ensures
        without_suffix(head + suffix, suffix) == head,
        !ends_with(head, suffix) ==> without_suffix(head, suffix) == head,
{
    let s = head + suffix;
    assert(s.skip(s.len() - suffix.len()) =~= suffix);
    assert(s.take(s.len() - suffix.len()) =~= head);
}

/// The last component of a path is all that stands behind its last separator.
pub proof fn lemma_last_component(head: Seq<char>, name: Seq<char>)
    requires
        head.len() == 0 || head.last() == '/' || head.last() == '\\',
        forall|i: int| 0 <= i < name.len() ==> #[trigger] name[i] != '/' && name[i] != '\\',
    ensures
        last_component(head + name) == name,
    decreases name.len(),
{
    let s = head + name;
    if name.len() == 0 {
        assert(s =~= head);
        assert(name =~= Seq::<char>::empty());
    } else {
        assert forall|i: int| 0 <= i < name.drop_last().len() implies #[trigger] name.drop_last()[i]
            != '/' && name.drop_last()[i] != '\\' by {
            assert(name[i] != '/');
        }
        lemma_last_component(head, name.drop_last());
        assert(s.drop_last() =~= head + name.drop_last());
        assert(s.last() == name.last());
        assert(name[name.len() - 1] != '/');
        assert(name.drop_last().push(name.last()) =~= name);
    }
}

/// White space by its code points.
pub proof fn lemma_white(c: char)
    ensures
        ({
            let n = c as u32;
            white(c) <==> (9 <= n <= 13 || n == 32 || n == 133 || n == 160 || n == 5760 || 8192 <= n
                <= 8202 || n == 8232 || n == 8233 || n == 8239 || n == 8287 || n == 12288)
        }),
{
}

/// A number that is not negative is written by its digits, and another one by those of its
/// opposite behind a minus sign; each digit is the character that stands for it.
pub proof fn lemma_signed_decimal(n: int, d: nat)
    requires
        d < 10,
    ensures
        n >= 0 ==> signed_decimal(n) == decimal(n as nat),
        n < 0 ==> signed_decimal(n)[0] == '-' && signed_decimal(n).skip(1) == decimal((-n) as nat),
        digit(d) as int == '0' as int + d,
        decimal(d) == seq![digit(d)],
{
    if n < 0 {
        assert(signed_decimal(n).skip(1) =~= decimal((-n) as nat));
    }
}

/// A pattern stands at a place exactly where its characters are those of the text from there on.
pub proof fn lemma_occurs_at(s: Seq<char>, pat: Seq<char>, i: int)
    ensures
        occurs_at(s, pat, i) <==> 0 <= i && i + pat.len() <= s.len() && forall|k: int|
            0 <= k < pat.len() ==> #[trigger] s[i + k] == pat[k],
        contains(s, pat) <==> exists|j: int| occurs_at(s, pat, j),
{
    if 0 <= i && i + pat.len() <= s.len() {
        let part = s.subrange(i, i + pat.len());
        if forall|k: int| 0 <= k < pat.len() ==> #[trigger] s[i + k] == pat[k] {
            assert forall|k: int| 0 <= k < pat.len() implies part[k] == pat[k] by {
                assert(s[i + k] == pat[k]);
            }
            assert(part =~= pat);
        }
        if part == pat {
            assert forall|k: int| 0 <= k < pat.len() implies #[trigger] s[i + k] == pat[k] by {
                assert(part[k] == s[i + k]);
            }
        }
    }
}

/// A text ends in a suffix exactly where its last characters are those of the suffix.
pub proof fn lemma_ends_with(s: Seq<char>, suffix: Seq<char>)
    ensures
        ends_with(s, suffix) <==> s.len() >= suffix.len() && forall|k: int|
            0 <= k < suffix.len() ==> #[trigger] suffix[k] == s[s.len() - suffix.len() + k],
{
    if s.len() >= suffix.len() {
        let tail = s.skip(s.len() - suffix.len());
        if forall|k: int|
            0 <= k < suffix.len() ==> #[trigger] suffix[k] == s[s.len() - suffix.len() + k] {
            assert(tail =~= suffix);
        }
        if tail == suffix {
            assert forall|k: int| 0 <= k < suffix.len() implies #[trigger] suffix[k] == s[s.len()
                - suffix.len() + k] by {
                assert(tail[k] == suffix[k]);
            }
        }
    }
}

} // verus!
