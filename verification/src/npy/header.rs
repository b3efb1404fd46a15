//! The text of a `.npy` header: a dictionary literal with the element type, the
//! storage order and the shape.

use vstd::prelude::*;

use crate::text::{
    decimal, digit_of, digit_value, digits_value, owned, unsigned_part, Msg,
};

verus! {

// --------------------------------------------------------------- reading ---

/// Where `pattern` first occurs in `s`, from position `i` on.
pub open spec fn find_from(s: Seq<char>, pattern: Seq<char>, i: int) -> Option<int>
    decreases s.len() + 1 - i,
{
    if i < 0 || i + pattern.len() > s.len() {
        None
    } else if s.subrange(i, i + pattern.len()) == pattern {
        Some(i)
    } else {
        find_from(s, pattern, i + 1)
    }
}

/// A found pattern occurs where it was found, inside the text.
pub proof fn lemma_find_after(s: Seq<char>, pattern: Seq<char>, i: int)
    ensures
        find_from(s, pattern, i) matches Some(j) ==> {
            &&& 0 <= i <= j
            &&& j + pattern.len() <= s.len()
            &&& s.subrange(j, j + pattern.len()) == pattern
        },
    decreases s.len() + 1 - i,
{
    if 0 <= i && i + pattern.len() <= s.len() && s.subrange(i, i + pattern.len()) != pattern {
        lemma_find_after(s, pattern, i + 1);
    }
}

fn occurs_at(s: &str, pattern: &str, i: usize) -> (r: bool)
    requires
        i + pattern@.len() <= s@.len(),
    ensures
        r == (s@.subrange(i as int, i + pattern@.len()) == pattern@),
{
    let total: usize = s.unicode_len();
    let n: usize = pattern.unicode_len();
    let mut k: usize = 0;
    while k < n
        invariant
            total == s@.len(),
            n == pattern@.len(),
            k <= n,
            i + n <= total,
            forall|j: int| 0 <= j < k ==> s@[i + j] == pattern@[j],
        decreases n - k,
    {
        if s.get_char(i + k) != pattern.get_char(k) {
            assert(s@.subrange(i as int, i + pattern@.len())[k as int] != pattern@[k as int]);
            return false;
        }
        k += 1;
    }
    assert(s@.subrange(i as int, i + pattern@.len()) =~= pattern@);
    true
}

/// Where `pattern` first occurs in `s`, from position `from` on.
pub fn find(s: &str, pattern: &str, from: usize) -> (r: Option<usize>)
    ensures
        match r {
            Some(i) => {
                &&& find_from(s@, pattern@, from as int) == Some(i as int)
                &&& from <= i
                &&& i + pattern@.len() <= s@.len() <= usize::MAX
                &&& s@.subrange(i as int, i + pattern@.len()) == pattern@
            },
            None => find_from(s@, pattern@, from as int) is None,
        },
{
    let total: usize = s.unicode_len();
    let n: usize = pattern.unicode_len();
    if n > total {
        return None;
    }
    let mut i: usize = from;
    while i <= total - n
        invariant
            total == s@.len(),
            n == pattern@.len(),
            n <= total,
            from <= i,
            i <= total - n || i == from || i == total - n + 1,
            find_from(s@, pattern@, from as int) == find_from(s@, pattern@, i as int),
        decreases total - n + 1 - i,
    {
        if occurs_at(s, pattern, i) {
            return Some(i);
        }
        if i == total - n {
            assert(find_from(s@, pattern@, i + 1) is None);
            return None;
        }
        i += 1;
    }
    None
}

/// The code point counts as white space.
pub open spec fn white_point(u: u32) -> bool {
    ||| 0x9 <= u <= 0xD
    ||| u == 0x20
    ||| u == 0x85
    ||| u == 0xA0
    ||| u == 0x1680
    ||| 0x2000 <= u <= 0x200A
    ||| u == 0x2028
    ||| u == 0x2029
    ||| u == 0x202F
    ||| u == 0x205F
    ||| u == 0x3000
}

/// The character is white space.
pub open spec fn white(c: char) -> bool {
    white_point(c as u32)
}

fn is_white(c: char) -> (r: bool)
    ensures
        r == white(c),
{
    let u: u32 = c as u32;
    (0x9 <= u && u <= 0xD) || u == 0x20 || u == 0x85 || u == 0xA0 || u == 0x1680 || (0x2000 <= u
        && u <= 0x200A) || u == 0x2028 || u == 0x2029 || u == 0x202F || u == 0x205F || u == 0x3000
}

/// First position from `i` on that is not white space, or the length.
pub open spec fn solid_from(s: Seq<char>, i: int) -> int
    decreases s.len() - i,
{
    if 0 <= i < s.len() && white(s[i]) {
        solid_from(s, i + 1)
    } else {
        i
    }
}

/// End of `s` up to `j` without trailing white space.
pub open spec fn solid_to(s: Seq<char>, j: int) -> int
    decreases j,
{
    if 0 < j <= s.len() && white(s[j - 1]) {
        solid_to(s, j - 1)
    } else {
        j
    }
}

/// `s` without white space at its ends.
pub open spec fn trimmed(s: Seq<char>) -> Seq<char> {
    let a = solid_from(s, 0);
    let b = solid_to(s, s.len() as int);
    if a >= b {
        Seq::empty()
    } else {
        s.subrange(a, b)
    }
}

pub(crate) fn trim(s: &str) -> (r: &str)
    ensures
        r@ == trimmed(s@),
{
    let total: usize = s.unicode_len();
    let mut a: usize = 0;
    while a < total && is_white(s.get_char(a))
        invariant
            total == s@.len(),
            a <= total,
            solid_from(s@, 0) == solid_from(s@, a as int),
        decreases total - a,
    {
        a += 1;
    }
    let mut b: usize = total;
    while b > 0 && is_white(s.get_char(b - 1))
        invariant
            total == s@.len(),
            b <= total,
            solid_to(s@, total as int) == solid_to(s@, b as int),
        decreases b,
    {
        b -= 1;
    }
    if a >= b {
        let r = s.substring_char(0, 0);
        assert(r@ =~= Seq::<char>::empty());
        r
    } else {
        s.substring_char(a, b)
    }
}

/// Message of a character that is no digit.
pub open spec fn bad_digit() -> Seq<char> {
    "invalid digit found in string"@
}

/// Message of a number that does not fit.
pub open spec fn too_large() -> Seq<char> {
    "number too large to fit in target type"@
}

/// What stops the reading of the first `n` characters as a number, from the
/// left: a character that is no digit, or a value that does not fit.
pub open spec fn digits_problem(s: Seq<char>, n: int) -> Option<Seq<char>>
    decreases n,
{
    if n <= 0 {
        None
    } else {
        match digits_problem(s, n - 1) {
            Some(m) => Some(m),
            None => if digit_value(s[n - 1]) is None {
                Some(bad_digit())
            } else if digits_value(s, n)->0 > usize::MAX {
                Some(too_large())
            } else {
                None
            },
        }
    }
}

/// The extent that a non-empty text spells: digits, perhaps after a plus sign.
pub open spec fn dim_of(s: Seq<char>) -> Result<usize, Seq<char>> {
    let digits = unsigned_part(s);
    if digits.len() == 0 {
        Err(bad_digit())
    } else {
        match digits_problem(digits, digits.len() as int) {
            Some(m) => Err(m),
            None => Ok(digits_value(digits, digits.len() as int)->0 as usize),
        }
    }
}

proof fn lemma_problem_sticks(s: Seq<char>, i: int, n: int)
    requires
        0 <= i <= n,
        digits_problem(s, i) is Some,
    ensures
        digits_problem(s, n) == digits_problem(s, i),
    decreases n,
{
    if i < n {
        lemma_problem_sticks(s, i, n - 1);
    }
}

fn parse_dim(s: &str) -> (r: Result<usize, &'static str>)
    ensures
        match dim_of(s@) {
            Ok(v) => r == Ok::<usize, &'static str>(v),
            Err(m) => r is Err && r->Err_0@ == m,
        },
{
    let total: usize = s.unicode_len();
    let start: usize = if total > 0 && s.get_char(0) == '+' {
        1
    } else {
        0
    };
    let ghost digits = unsigned_part(s@);
    assert(digits =~= s@.subrange(start as int, total as int));
    if start == total {
        return Err("invalid digit found in string");
    }
    let mut v: usize = 0;
    let mut i: usize = start;
    while i < total
        invariant
            total == s@.len(),
            start <= i <= total,
            start < total,
            digits == unsigned_part(s@),
            digits == s@.subrange(start as int, total as int),
            digits_value(digits, i - start) == Some(v as int),
            digits_problem(digits, i - start) is None,
        decreases total - i,
    {
        let c: char = s.get_char(i);
        let ghost k = i + 1 - start;
        assert(digits[k - 1] == c);
        assert(digits_value(digits, k) == match digit_value(c) {
            Some(d) => Some(v * 10 + d),
            None => None::<int>,
        });
        let d: usize = match digit_of(c) {
            Some(d) => d,
            None => {
                proof {
                    lemma_problem_sticks(digits, k, digits.len() as int);
                }
                return Err("invalid digit found in string");
            },
        };
        let next: Option<usize> = match v.checked_mul(10) {
            Some(t) => t.checked_add(d),
            None => None,
        };
        match next {
            Some(t) => {
                v = t;
            },
            None => {
                proof {
                    lemma_problem_sticks(digits, k, digits.len() as int);
                }
                return Err("number too large to fit in target type");
            },
        }
        i += 1;
    }
    Ok(v)
}

/// End of the comma-separated piece that starts at `i`.
pub open spec fn piece_end(s: Seq<char>, i: int) -> int {
    match find_from(s, ","@, i) {
        Some(j) => j,
        None => s.len() as int,
    }
}

/// The extents in `s` from position `i` on, behind those already read: pieces
/// between commas, white space and empty pieces dropped.
pub open spec fn dims_from(s: Seq<char>, i: int, read: Seq<usize>) -> Result<
    Seq<usize>,
    Seq<char>,
>
    decreases s.len() + 1 - i,
{
    if i < 0 || i > s.len() {
        Ok(read)
    } else {
        proof {
            lemma_find_after(s, ","@, i);
        }
        let j = piece_end(s, i);
        let piece = trimmed(s.subrange(i, j));
        if piece.len() == 0 {
            dims_from(s, j + 1, read)
        } else {
            match dim_of(piece) {
                Err(m) => Err("shape parse "@ + piece + ": "@ + m),
                Ok(v) => dims_from(s, j + 1, read.push(v)),
            }
        }
    }
}

fn parse_dims(s: &str) -> (r: Result<Vec<usize>, String>)
    ensures
        match dims_from(s@, 0, Seq::empty()) {
            Ok(dims) => r is Ok && r->Ok_0@ == dims,
            Err(m) => r is Err && r->Err_0@ == m,
        },
{
    let total: usize = s.unicode_len();
    let mut dims: Vec<usize> = Vec::new();
    let mut i: usize = 0;
    loop
        invariant
            total == s@.len(),
            i <= total,
            dims_from(s@, 0, Seq::empty()) == dims_from(s@, i as int, dims@),
        decreases total - i,
    {
        let found = find(s, ",", i);
        proof {
            reveal_strlit(",");
            reveal_with_fuel(dims_from, 2);
        }
        let end: usize = match found {
            Some(j) => j,
            None => total,
        };
        let piece = trim(s.substring_char(i, end));
        if piece.unicode_len() > 0 {
            match parse_dim(piece) {
                Err(m) => {
                    return Err(
                        Msg::new("shape parse ").text(piece).text(": ").text(m).done(),
                    );
                },
                Ok(v) => dims.push(v),
            }
        }
        if end == total {
            return Ok(dims);
        }
        i = end + 1;
    }
}

/// The element type a header names: the quoted text behind its key.
pub open spec fn descr_of(h: Seq<char>) -> Result<Seq<char>, Seq<char>> {
    match find_from(h, "'descr':"@, 0) {
        None => Err("missing descr"@),
        Some(i) => match find_from(h, "'"@, i + "'descr':"@.len()) {
            None => Err("descr quote"@),
            Some(a) => match find_from(h, "'"@, a + 1) {
                None => Err("descr end"@),
                Some(b) => Ok(h.subrange(a + 1, b)),
            },
        },
    }
}

/// The header says the array is stored column by column.
pub open spec fn fortran_of(h: Seq<char>) -> bool {
    find_from(h, "fortran_order': True"@, 0) is Some
}

/// The shape a header gives: the extents between the brackets behind its key.
pub open spec fn shape_of(h: Seq<char>) -> Result<Seq<usize>, Seq<char>> {
    match find_from(h, "'shape':"@, 0) {
        None => Err("missing shape"@),
        Some(i) => match find_from(h, "("@, i + "'shape':"@.len()) {
            None => Err("shape ("@),
            Some(a) => match find_from(h, ")"@, a) {
                None => Err("shape )"@),
                Some(b) => dims_from(trimmed(h.subrange(a + 1, b)), 0, Seq::empty()),
            },
        },
    }
}

/// Element type and shape of a header: the type first, column order refused,
/// then the shape.
pub open spec fn header_of(h: Seq<char>) -> Result<(Seq<char>, Seq<usize>), Seq<char>> {
    match descr_of(h) {
        Err(m) => Err(m),
        Ok(descr) => if fortran_of(h) {
            Err("fortran-order npy not supported"@)
        } else {
            match shape_of(h) {
                Err(m) => Err(m),
                Ok(shape) => Ok((descr, shape)),
            }
        },
    }
}

fn parse_descr(header: &str) -> (r: Result<String, String>)
    ensures
        match descr_of(header@) {
            Ok(d) => r is Ok && r->Ok_0@ == d,
            Err(m) => r is Err && r->Err_0@ == m,
        },
{
    proof {
        reveal_strlit("'descr':");
        reveal_strlit("'");
    }
    let i: usize = match find(header, "'descr':", 0) {
        Some(i) => i,
        None => {
            return Err(owned("missing descr"));
        },
    };
    let a: usize = match find(header, "'", i + 8) {
        Some(a) => a,
        None => {
            return Err(owned("descr quote"));
        },
    };
    let b: usize = match find(header, "'", a + 1) {
        Some(b) => b,
        None => {
            return Err(owned("descr end"));
        },
    };
    Ok(owned(header.substring_char(a + 1, b)))
}

fn parse_shape(header: &str) -> (r: Result<Vec<usize>, String>)
    ensures
        match shape_of(header@) {
            Ok(dims) => r is Ok && r->Ok_0@ == dims,
            Err(m) => r is Err && r->Err_0@ == m,
        },
{
    proof {
        reveal_strlit("'shape':");
        reveal_strlit("(");
        reveal_strlit(")");
    }
    let i: usize = match find(header, "'shape':", 0) {
        Some(i) => i,
        None => {
            return Err(owned("missing shape"));
        },
    };
    let a: usize = match find(header, "(", i + 8) {
        Some(a) => a,
        None => {
            return Err(owned("shape ("));
        },
    };
    let b: usize = match find(header, ")", a) {
        Some(b) => b,
        None => {
            return Err(owned("shape )"));
        },
    };
    assert(b > a) by {
        assert("("@[0] == '(');
        assert(")"@[0] == ')');
        assert(header@.subrange(a as int, a + 1)[0] == header@[a as int]);
        assert(header@.subrange(b as int, b + 1)[0] == header@[b as int]);
    }
    parse_dims(trim(header.substring_char(a + 1, b)))
}

/// Reads a header: the element type and the shape.
pub fn parse_header(header: &str) -> (r: Result<(String, Vec<usize>), String>)
    ensures
        match header_of(header@) {
            Ok((descr, shape)) => r is Ok && r->Ok_0.0@ == descr && r->Ok_0.1@ == shape,
            Err(m) => r is Err && r->Err_0@ == m,
        },
{
    let descr = parse_descr(header)?;
    if find(header, "fortran_order': True", 0).is_some() {
        return Err(owned("fortran-order npy not supported"));
    }
    let shape = parse_shape(header)?;
    Ok((descr, shape))
}

// --------------------------------------------------------------- writing ---

/// The first `n` extents, with `", "` between them.
pub open spec fn joined_to(shape: Seq<usize>, n: int) -> Seq<char>
    decreases n,
{
    if n <= 0 {
        Seq::empty()
    } else if n == 1 {
        decimal(shape[0] as nat)
    } else {
        joined_to(shape, n - 1) + ", "@ + decimal(shape[n - 1] as nat)
    }
}

/// A shape as a tuple literal: one extent keeps a comma behind it.
pub open spec fn tuple_text(shape: Seq<usize>) -> Seq<char> {
    if shape.len() == 1 {
        "("@ + decimal(shape[0] as nat) + ",)"@
    } else {
        "("@ + joined_to(shape, shape.len() as int) + ")"@
    }
}

/// A shape as a list: extents in square brackets.
pub open spec fn list_text(shape: Seq<usize>) -> Seq<char> {
    "["@ + joined_to(shape, shape.len() as int) + "]"@
}

/// `n` spaces.
pub open spec fn spaces(n: nat) -> Seq<char> {
    Seq::new(n, |i: int| ' ')
}

/// A header before it is padded.
pub open spec fn bare_header(shape: Seq<usize>) -> Seq<char> {
    "{'descr': '<f4', 'fortran_order': False, 'shape': "@ + tuple_text(shape) + ", }"@
}

/// Spaces that bring the file up to the payload to a multiple of 64 bytes, the
/// newline counted.
pub open spec fn padding(n: int) -> nat {
    ((64 - (11 + n) % 64) % 64) as nat
}

/// The header of a float array: padded, and ended by a newline.
pub open spec fn float_header(shape: Seq<usize>) -> Seq<char> {
    bare_header(shape) + spaces(padding(bare_header(shape).len() as int)) + "\n"@
}

fn joined(shape: &[usize]) -> (r: String)
    ensures
        r@ == joined_to(shape@, shape@.len() as int),
{
    let mut m = Msg::new("");
    proof {
        reveal_strlit("");
        assert(m@ =~= Seq::<char>::empty());
    }
    let mut i: usize = 0;
    while i < shape.len()
        invariant
            i <= shape@.len(),
            m@ == joined_to(shape@, i as int),
        decreases shape@.len() - i,
    {
        let ghost before = m@;
        if i > 0 {
            m = m.text(", ");
        }
        m = m.num(shape[i]);
        if i == 0 {
            assert(m@ =~= decimal(shape@[0] as nat));
        }
        i += 1;
    }
    m.done()
}

/// A shape as a list.
pub fn list_string(shape: &[usize]) -> (r: String)
    ensures
        r@ == list_text(shape@),
{
    Msg::new("[").text(joined(shape).as_str()).text("]").done()
}

/// The header of a float array of this shape.
pub fn float_header_string(shape: &[usize]) -> (r: String)
    ensures
        r@ == float_header(shape@),
{
    let tuple = if shape.len() == 1 {
        Msg::new("(").num(shape[0]).text(",)").done()
    } else {
        Msg::new("(").text(joined(shape).as_str()).text(")").done()
    };
    let mut m = Msg::new("{'descr': '<f4', 'fortran_order': False, 'shape': ").text(
        tuple.as_str(),
    ).text(", }");
    let ghost bare = m@;
    let n: usize = m.chars();
    let pad: usize = (64 - (11 + n % 64) % 64) % 64;
    let mut i: usize = 0;
    assert(bare + spaces(0) =~= bare);
    while i < pad
        invariant
            i <= pad,
            m@ == bare + spaces(i as nat),
        decreases pad - i,
    {
        m = m.text(" ");
        proof {
            reveal_strlit(" ");
            assert(m@ =~= bare + spaces((i + 1) as nat));
        }
        i += 1;
    }
    m.text("\n").done()
}

} // verus!
