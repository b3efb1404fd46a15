//! Message text: diagnostics are built piece by piece, and every contract in
//! this crate that speaks of an error speaks of its exact characters.

use vstd::prelude::*;

verus! {

/// Characters of one decimal digit.
pub open spec fn digit(d: nat) -> Seq<char> {
    if d == 0 {
        "0"@
    } else if d == 1 {
        "1"@
    } else if d == 2 {
        "2"@
    } else if d == 3 {
        "3"@
    } else if d == 4 {
        "4"@
    } else if d == 5 {
        "5"@
    } else if d == 6 {
        "6"@
    } else if d == 7 {
        "7"@
    } else if d == 8 {
        "8"@
    } else {
        "9"@
    }
}

/// Decimal notation of `n`, without leading zeros.
pub open spec fn decimal(n: nat) -> Seq<char>
    decreases n,
{
    if n < 10 {
        digit(n)
    } else {
        decimal(n / 10) + digit(n % 10)
    }
}

fn digit_str(d: u64) -> (s: &'static str)
    requires
        d < 10,
    ensures
        s@ == digit(d as nat),
{
    if d == 0 {
        "0"
    } else if d == 1 {
        "1"
    } else if d == 2 {
        "2"
    } else if d == 3 {
        "3"
    } else if d == 4 {
        "4"
    } else if d == 5 {
        "5"
    } else if d == 6 {
        "6"
    } else if d == 7 {
        "7"
    } else if d == 8 {
        "8"
    } else {
        "9"
    }
}

/// Decimal notation of a machine integer.
pub fn decimal_string(n: u64) -> (s: String)
    ensures
        s@ == decimal(n as nat),
    decreases n,
{
    if n < 10 {
        digit_str(n).to_owned()
    } else {
        let mut head = decimal_string(n / 10);
        head.append(digit_str(n % 10));
        head
    }
}

/// A message under construction.
pub struct Msg {
    text: String,
}

impl View for Msg {
    type V = Seq<char>;

    closed spec fn view(&self) -> Seq<char> {
        self.text@
    }
}

impl Msg {
    /// Starts with `s`.
    pub fn new(s: &str) -> (m: Msg)
        ensures
            m@ == s@,
    {
        Msg { text: s.to_owned() }
    }

    /// Appends `s`.
    pub fn text(self, s: &str) -> (m: Msg)
        ensures
            m@ == self@ + s@,
    {
        let mut text = self.text;
        text.append(s);
        Msg { text }
    }

    /// Appends `n` in decimal.
    pub fn num(self, n: usize) -> (m: Msg)
        ensures
            m@ == self@ + decimal(n as nat),
    {
        let mut text = self.text;
        let digits = decimal_string(n as u64);
        text.append(digits.as_str());
        Msg { text }
    }

    /// Appends the 64-bit `n` in decimal.
    pub fn num64(self, n: u64) -> (m: Msg)
        ensures
            m@ == self@ + decimal(n as nat),
    {
        let mut text = self.text;
        let digits = decimal_string(n);
        text.append(digits.as_str());
        Msg { text }
    }

    /// Characters so far.
    pub fn chars(&self) -> (n: usize)
        ensures
            n == self@.len(),
    {
        self.text.as_str().unicode_len()
    }

    /// The finished message.
    pub fn done(self) -> (s: String)
        ensures
            s@ == self@,
    {
        self.text
    }
}

/// How a truth value prints.
pub open spec fn bool_text(b: bool) -> Seq<char> {
    if b {
        "true"@
    } else {
        "false"@
    }
}

/// How a truth value prints.
pub fn bool_str(b: bool) -> (r: &'static str)
    ensures
        r@ == bool_text(b),
{
    if b {
        "true"
    } else {
        "false"
    }
}

/// `s` as an owned string.
pub fn owned(s: &str) -> (r: String)
    ensures
        r@ == s@,
{
    s.to_owned()
}

/// `a` followed by `b`.
pub fn join(a: &str, b: &str) -> (r: String)
    ensures
        r@ == a@ + b@,
{
    let mut r = a.to_owned();
    r.append(b);
    r
}

/// The first complaint of two, if any.
pub open spec fn first(a: Option<Seq<char>>, b: Option<Seq<char>>) -> Option<Seq<char>> {
    if a is Some {
        a
    } else {
        b
    }
}

/// A complaint that holds unless `ok`.
pub open spec fn unless(ok: bool, message: Seq<char>) -> Option<Seq<char>> {
    if ok {
        None
    } else {
        Some(message)
    }
}

/// `r` reports exactly `problem`: success without one, its text otherwise.
pub open spec fn reports<T>(r: Result<T, String>, problem: Option<Seq<char>>) -> bool {
    match problem {
        Some(m) => r is Err && r->Err_0@ == m,
        None => r is Ok,
    }
}

/// Value of a decimal digit character.
pub open spec fn digit_value(c: char) -> Option<int> {
    if '0' <= c && c <= '9' {
        Some(c as int - '0' as int)
    } else {
        None
    }
}

/// Value of a decimal digit character.
pub fn digit_of(c: char) -> (r: Option<usize>)
    ensures
        match r {
            Some(d) => digit_value(c) == Some(d as int) && d < 10,
            None => digit_value(c) is None,
        },
{
    if c == '0' {
        Some(0)
    } else if c == '1' {
        Some(1)
    } else if c == '2' {
        Some(2)
    } else if c == '3' {
        Some(3)
    } else if c == '4' {
        Some(4)
    } else if c == '5' {
        Some(5)
    } else if c == '6' {
        Some(6)
    } else if c == '7' {
        Some(7)
    } else if c == '8' {
        Some(8)
    } else if c == '9' {
        Some(9)
    } else {
        None
    }
}

/// Value of the first `n` characters read as decimal digits.
pub open spec fn digits_value(s: Seq<char>, n: int) -> Option<int>
    decreases n,
{
    if n <= 0 {
        Some(0)
    } else {
        match (digits_value(s, n - 1), digit_value(s[n - 1])) {
            (Some(v), Some(d)) => Some(v * 10 + d),
            _ => None,
        }
    }
}

/// `s` without a leading plus sign.
pub open spec fn unsigned_part(s: Seq<char>) -> Seq<char> {
    if s.len() > 0 && s[0] == '+' {
        s.subrange(1, s.len() as int)
    } else {
        s
    }
}

/// The count that `s` spells: decimal digits, at least one, perhaps after a plus
/// sign, of a value that fits a machine word.
pub open spec fn count_of(s: Seq<char>) -> Option<int> {
    let digits = unsigned_part(s);
    match digits_value(digits, digits.len() as int) {
        Some(v) => if digits.len() > 0 && v <= usize::MAX {
            Some(v)
        } else {
            None
        },
        None => None,
    }
}

pub(crate) proof fn lemma_digits_grow(s: Seq<char>, i: int, n: int)
    requires
        0 <= i <= n <= s.len(),
    ensures
        digits_value(s, i) is None ==> digits_value(s, n) is None,
        digits_value(s, n) is Some ==> 0 <= digits_value(s, i)->0 <= digits_value(s, n)->0,
    decreases n - i, n,
{
    if i < n {
        lemma_digits_grow(s, i, n - 1);
    } else if n > 0 {
        lemma_digits_grow(s, n - 1, n - 1);
    }
}

/// Parses a count.
pub fn parse_count(s: &str) -> (r: Option<usize>)
    ensures
        match r {
            Some(v) => count_of(s@) == Some(v as int),
            None => count_of(s@) is None,
        },
{
    let total: usize = s.unicode_len();
    let start: usize = if total > 0 && s.get_char(0) == '+' {
        1
    } else {
        0
    };
    let ghost digits = unsigned_part(s@);
    assert(digits =~= s@.subrange(start as int, total as int));
    if start == total {
        return None;
    }
    let mut v: usize = 0;
    let mut i: usize = start;
    while i < total
        invariant
            total == s@.len(),
            start <= i <= total,
            start < total,
            digits == unsigned_part(s@),
            digits == s@.subrange(start as int, total as int),
            digits_value(digits, i - start) == Some(v as int),
        decreases total - i,
    {
        let c: char = s.get_char(i);
        assert(digits[i - start] == s@[i as int]);
        assert(digits_value(digits, i + 1 - start) == match digit_value(c) {
            Some(d) => Some(v * 10 + d),
            None => None::<int>,
        });
        proof {
            lemma_digits_grow(digits, i + 1 - start, digits.len() as int);
        }
        let d: usize = match digit_of(c) {
            Some(d) => d,
            None => {
                return None;
            },
        };
        let tens: usize = match v.checked_mul(10) {
            Some(t) => t,
            None => {
                return None;
            },
        };
        v = match tens.checked_add(d) {
            Some(t) => t,
            None => {
                return None;
            },
        };
        i += 1;
    }
    Some(v)
}

/// Two strings hold the same characters.
pub fn same_text(a: &str, b: &str) -> (r: bool)
    ensures
        r == (a@ == b@),
{
    let left = a.to_owned();
    let right = b.to_owned();
    left == right
}

// ----------------------------------------------------- quoted notation -----

/// The debug notation of a text: what `{:?}` writes for a `str`, quotes and
/// escapes included.
pub uninterp spec fn debug_text(s: Seq<char>) -> Seq<char>;

/// Calls the `Debug` impl of `str`, through `format!`. The result is claimed to
/// depend on the text alone; which characters it escapes is not stated.
#[verifier::external_body]
pub(crate) fn debug_string(s: &str) -> (r: String)
    ensures
        r@ == debug_text(s@),
{
    format!("{s:?}")
}

/// Refusal of a setting: what was expected, and the quoted value given.
pub open spec fn refusal_text(expected: Seq<char>, quoted: Seq<char>) -> Seq<char> {
    expected + "; got "@ + quoted
}

/// Refusal of a setting, from what was expected and the quoted value given.
pub fn refusal(expected: &str, quoted: &str) -> (r: String)
    ensures
        r@ == refusal_text(expected@, quoted@),
{
    Msg::new(expected).text("; got ").text(quoted).done()
}

// --------------------------------------------------------- byte strings ----

/// What a lossy decoding makes of bytes that are not valid UTF-8.
pub uninterp spec fn lossy_text(bytes: Seq<u8>) -> Seq<char>;

/// Calls `String::from_utf8_lossy`. Valid UTF-8 is claimed to be decoded as it
/// is; of other bytes the result is claimed to depend on the bytes alone, and
/// where replacement characters go is not stated.
#[verifier::external_body]
pub(crate) fn lossy_string(bytes: &[u8]) -> (r: String)
    ensures
        r@ == (if vstd::utf8::valid_utf8(bytes@) {
            vstd::utf8::decode_utf8(bytes@)
        } else {
            lossy_text(bytes@)
        }),
{
    String::from_utf8_lossy(bytes).into_owned()
}

} // verus!
