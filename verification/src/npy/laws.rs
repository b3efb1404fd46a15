//! What reading, writing and transposing promise together.

use vstd::prelude::*;
use vstd::utf8::{encode_utf8, is_ascii_chars};

use crate::bytes::{law_words_read_back, word_at, words_to};
use crate::npy::header::{
    bare_header, descr_of, digits_problem, dim_of, dims_from, find_from, float_header, header_of,
    joined_to, padding, piece_end, shape_of, solid_from, solid_to, spaces, trimmed, tuple_text,
    white,
};
use crate::npy::{
    array_in, float_file, header_len, lemma_last_two, lemma_origin, magic, origin, swapped,
    transposed, write_problem, ArrayView,
};
use crate::sizes::{ints, product};
use crate::text::{decimal, digit, digit_value, digits_value, unsigned_part};

verus! {

// ------------------------------------------------------------- transpose ---

/// Transposing twice gives back an array that fills its shape, and the shape.
pub proof fn law_transposing_twice_gives_back(data: Seq<u32>, shape: Seq<usize>)
    requires
        shape.len() >= 2,
        product(ints(shape)) == data.len(),
    ensures
        ({
            let total = data.len() as int;
            let rows = shape[shape.len() - 2] as int;
            let cols = shape[shape.len() - 1] as int;
            &&& swapped(swapped(shape)) == shape
            &&& product(ints(swapped(shape))) == total
            &&& transposed(transposed(data, total, rows, cols), total, cols, rows) == data
        }),
{
    let total = data.len() as int;
    let n = shape.len() as int;
    let rows = shape[n - 2] as int;
    let cols = shape[n - 1] as int;
    let planes = crate::sizes::product_to(ints(shape), n - 2);
    lemma_last_two(shape);
    assert(rows * cols == cols * rows) by (nonlinear_arith);
    assert(swapped(swapped(shape)) =~= shape);
    let once = transposed(data, total, rows, cols);
    let twice = transposed(once, total, cols, rows);
    assert forall|k: int| 0 <= k < total implies twice[k] == data[k] by {
        lemma_origin(k, total, cols, rows, planes);
        let o = origin(k, cols, rows);
        lemma_origin(o, total, rows, cols, planes);
        let plane = rows * cols;
        let b = k / plane;
        let r = k % plane;
        let i = r % cols;
        let j = r / cols;
        let q = i * rows + j;
        assert(o % plane == q);
        assert(r == j * cols + i && 0 <= i < cols && 0 <= j) by (nonlinear_arith)
            requires
                cols > 0,
                r >= 0,
                i == r % cols,
                j == r / cols,
        ;
        assert(j < rows) by (nonlinear_arith)
            requires
                r == j * cols + i,
                0 <= i,
                r < rows * cols,
                cols > 0,
        ;
        assert(q == rows * i + j) by (nonlinear_arith)
            requires
                q == i * rows + j,
        ;
        assert(q == i * rows + j);
        vstd::arithmetic::div_mod::lemma_fundamental_div_mod_converse(q, rows, i, j);
        assert(q % rows == j && q / rows == i);
        assert(k == b * plane + r) by (nonlinear_arith)
            requires
                plane > 0,
                b == k / plane,
                r == k % plane,
        ;
        assert(o == b * plane + q);
        assert(origin(o, rows, cols) == k);
    }
    assert(twice =~= data);
}

// -------------------------------------------------------------- decimals ---

proof fn lemma_digit(d: nat)
    requires
        d < 10,
    ensures
        digit(d).len() == 1,
        digit_value(digit(d)[0]) == Some(d as int),
{
    reveal_strlit("0");
    reveal_strlit("1");
    reveal_strlit("2");
    reveal_strlit("3");
    reveal_strlit("4");
    reveal_strlit("5");
    reveal_strlit("6");
    reveal_strlit("7");
    reveal_strlit("8");
    reveal_strlit("9");
}

proof fn lemma_digits_prefix(s: Seq<char>, t: Seq<char>, n: int)
    requires
        0 <= n <= s.len(),
        n <= t.len(),
        forall|i: int| 0 <= i < n ==> s[i] == t[i],
    ensures
        digits_value(s, n) == digits_value(t, n),
    decreases n,
{
    if n > 0 {
        lemma_digits_prefix(s, t, n - 1);
    }
}

pub(crate) proof fn lemma_decimal(n: nat)
    ensures
        decimal(n).len() > 0,
        forall|i: int| 0 <= i < decimal(n).len() ==> digit_value(#[trigger] decimal(n)[i]) is Some,
        digits_value(decimal(n), decimal(n).len() as int) == Some(n as int),
    decreases n,
{
    if n < 10 {
        lemma_digit(n);
        reveal_with_fuel(digits_value, 2);
    } else {
        lemma_decimal(n / 10);
        lemma_digit(n % 10);
        let head = decimal(n / 10);
        let s = decimal(n);
        assert(s =~= head.push(digit(n % 10)[0]));
        lemma_digits_prefix(s, head, head.len() as int);
        assert(s[s.len() - 1] == digit(n % 10)[0]);
        assert forall|i: int| 0 <= i < s.len() implies digit_value(#[trigger] s[i]) is Some by {
            if i < head.len() {
                assert(s[i] == head[i]);
            }
        }
    }
}

proof fn lemma_no_problem(s: Seq<char>, k: int)
    requires
        0 <= k <= s.len(),
        forall|i: int| 0 <= i < s.len() ==> digit_value(#[trigger] s[i]) is Some,
        digits_value(s, s.len() as int) is Some,
        digits_value(s, s.len() as int)->0 <= usize::MAX,
    ensures
        digits_problem(s, k) is None,
    decreases k,
{
    if k > 0 {
        lemma_no_problem(s, k - 1);
        crate::text::lemma_digits_grow(s, k, s.len() as int);
    }
}

/// Reading a written extent gives it back.
pub proof fn law_extents_read_back(n: usize)
    ensures
        dim_of(decimal(n as nat)) == Ok::<usize, Seq<char>>(n),
{
    let s = decimal(n as nat);
    lemma_decimal(n as nat);
    assert(digit_value(s[0]) is Some);
    assert(unsigned_part(s) == s);
    lemma_no_problem(s, s.len() as int);
}

// ------------------------------------------------------------- searching ---

proof fn lemma_find_at(s: Seq<char>, p: Seq<char>, i: int, j: int)
    requires
        0 <= i <= j,
        j + p.len() <= s.len(),
        s.subrange(j, j + p.len()) == p,
        forall|k: int| i <= k < j ==> #[trigger] s.subrange(k, k + p.len()) != p,
    ensures
        find_from(s, p, i) == Some(j),
    decreases j - i,
{
    if i < j {
        assert(s.subrange(i, i + p.len()) != p);
        lemma_find_at(s, p, i + 1, j);
    }
}

proof fn lemma_find_none(s: Seq<char>, p: Seq<char>, i: int)
    requires
        0 <= i,
        forall|k: int| i <= k && k + p.len() <= s.len() ==> #[trigger] s.subrange(k, k + p.len())
            != p,
    ensures
        find_from(s, p, i) is None,
    decreases s.len() + 1 - i,
{
    if i + p.len() <= s.len() {
        assert(s.subrange(i, i + p.len()) != p);
        lemma_find_none(s, p, i + 1);
    }
}

proof fn lemma_find_char(s: Seq<char>, p: Seq<char>, i: int, j: int)
    requires
        p.len() == 1,
        0 <= i <= j < s.len(),
        s[j] == p[0],
        forall|k: int| i <= k < j ==> s[k] != p[0],
    ensures
        find_from(s, p, i) == Some(j),
{
    assert(s.subrange(j, j + 1) =~= p);
    assert forall|k: int| i <= k < j implies #[trigger] s.subrange(k, k + p.len()) != p by {
        assert(s.subrange(k, k + 1)[0] == s[k]);
    }
    lemma_find_at(s, p, i, j);
}

proof fn lemma_no_char(s: Seq<char>, p: Seq<char>, i: int)
    requires
        p.len() == 1,
        0 <= i,
        forall|k: int| i <= k < s.len() ==> s[k] != p[0],
    ensures
        find_from(s, p, i) is None,
{
    assert forall|k: int| i <= k && k + p.len() <= s.len() implies #[trigger] s.subrange(
        k,
        k + p.len(),
    ) != p by {
        assert(s.subrange(k, k + 1)[0] == s[k]);
    }
    lemma_find_none(s, p, i);
}

// --------------------------------------------------------------- extents ---

/// A digit, a comma or a space.
spec fn listed(c: char) -> bool {
    digit_value(c) is Some || c == ',' || c == ' '
}

proof fn lemma_joined(shape: Seq<usize>, n: int)
    requires
        0 <= n <= shape.len(),
    ensures
        n > 0 ==> joined_to(shape, n).len() > 0,
        forall|i: int| 0 <= i < joined_to(shape, n).len() ==> listed(#[trigger] joined_to(shape, n)[i]),
        n > 0 ==> digit_value(joined_to(shape, n)[0]) is Some,
        n > 0 ==> digit_value(joined_to(shape, n).last()) is Some,
    decreases n,
{
    if n > 0 {
        lemma_joined(shape, n - 1);
        let d = decimal(shape[n - 1] as nat);
        lemma_decimal(shape[n - 1] as nat);
        assert(digit_value(d[0]) is Some);
        assert(digit_value(d[d.len() - 1]) is Some);
        if n > 1 {
            reveal_strlit(", ");
            let head = joined_to(shape, n - 1);
            let s = joined_to(shape, n);
            assert forall|i: int| 0 <= i < s.len() implies listed(#[trigger] s[i]) by {
                if i < head.len() {
                    assert(s[i] == head[i]);
                } else if i >= head.len() + 2 {
                    assert(s[i] == d[i - head.len() - 2]);
                }
            }
            assert(s[0] == head[0]);
            assert(s.last() == d.last());
        }
    }
}

proof fn lemma_joined_prefix(shape: Seq<usize>, i: int, n: int)
    requires
        1 <= i <= n <= shape.len(),
    ensures
        joined_to(shape, i).len() <= joined_to(shape, n).len(),
        forall|k: int|
            0 <= k < joined_to(shape, i).len() ==> joined_to(shape, n)[k] == joined_to(
                shape,
                i,
            )[k],
    decreases n,
{
    if i < n {
        lemma_joined_prefix(shape, i, n - 1);
    }
}

pub(crate) proof fn lemma_trim_solid(s: Seq<char>)
    requires
        s.len() > 0,
        !white(s[0]),
        !white(s.last()),
    ensures
        trimmed(s) == s,
{
    assert(s.subrange(0, s.len() as int) =~= s);
}

proof fn lemma_trim_spaced(s: Seq<char>, d: Seq<char>)
    requires
        d.len() > 0,
        s == seq![' '] + d,
        !white(d[0]),
        !white(d.last()),
    ensures
        trimmed(s) == d,
{
    assert(s[0] == ' ' && s[1] == d[0] && s.last() == d.last());
    reveal_with_fuel(solid_from, 2);
    assert(solid_from(s, 0) == 1);
    assert(solid_to(s, s.len() as int) == s.len());
    assert(s.subrange(1, s.len() as int) =~= d);
}

/// Where the piece of extent `i` starts: behind the comma before it.
spec fn piece_start(shape: Seq<usize>, i: int) -> int {
    if i == 0 {
        0
    } else {
        joined_to(shape, i).len() as int + 1
    }
}

proof fn lemma_piece(shape: Seq<usize>, i: int)
    requires
        0 <= i < shape.len(),
    ensures
        ({
            let s = joined_to(shape, shape.len() as int);
            let a = piece_start(shape, i);
            let b = joined_to(shape, i + 1).len() as int;
            &&& 0 <= a <= b <= s.len()
            &&& piece_end(s, a) == b
            &&& trimmed(s.subrange(a, b)) == decimal(shape[i] as nat)
            &&& i + 1 == shape.len() <==> b == s.len()
        }),
{
    let n = shape.len() as int;
    let s = joined_to(shape, n);
    let a = piece_start(shape, i);
    let b = joined_to(shape, i + 1).len() as int;
    let d = decimal(shape[i] as nat);
    reveal_strlit(",");
    reveal_strlit(", ");
    lemma_decimal(shape[i] as nat);
    lemma_joined_prefix(shape, i + 1, n);
    let t = joined_to(shape, i + 1);
    if i > 0 {
        lemma_joined(shape, i);
        let head = joined_to(shape, i);
        assert(t =~= head + ", "@ + d);
        assert(t[head.len() as int] == ',');
        assert(t[head.len() as int + 1] == ' ');
    }
    assert(s.subrange(a, b) =~= if i == 0 {
        d
    } else {
        seq![' '] + d
    }) by {
        assert forall|k: int| a <= k < b implies s[k] == t[k] by {}
        if i > 0 {
            let head = joined_to(shape, i);
            assert forall|k: int| 0 <= k < b - a implies #[trigger] s.subrange(a, b)[k] == (seq![
                ' ',
            ] + d)[k] by {
                if k > 0 {
                    assert(t[a + k] == d[k - 1]);
                }
            }
        }
    }
    assert(digit_value(d[0]) is Some && digit_value(d[d.len() - 1]) is Some);
    assert forall|c: char| digit_value(c) is Some implies !white(c) && c != ',' by {}
    if i == 0 {
        lemma_trim_solid(d);
    } else {
        lemma_trim_spaced(s.subrange(a, b), d);
    }
    assert forall|k: int| a <= k < b implies s[k] != ',' by {
        assert(s.subrange(a, b)[k - a] == s[k]);
        if i == 0 {
            assert(digit_value(d[k - a]) is Some);
        } else if k > a {
            assert(digit_value(d[k - a - 1]) is Some);
        }
    }
    if i + 1 < n {
        lemma_joined_prefix(shape, i + 2, n);
        let u = joined_to(shape, i + 2);
        lemma_decimal(shape[i + 1] as nat);
        assert(u =~= t + ", "@ + decimal(shape[i + 1] as nat));
        assert(u[b] == ',');
        assert(s[b] == ',');
        lemma_find_char(s, ","@, a, b);
    } else {
        lemma_no_char(s, ","@, a);
    }
}

proof fn lemma_dims_from(shape: Seq<usize>, i: int)
    requires
        0 <= i < shape.len(),
    ensures
        dims_from(
            joined_to(shape, shape.len() as int),
            piece_start(shape, i),
            shape.take(i),
        ) == Ok::<Seq<usize>, Seq<char>>(shape),
    decreases shape.len() - i,
{
    let n = shape.len() as int;
    let s = joined_to(shape, n);
    lemma_piece(shape, i);
    lemma_decimal(shape[i] as nat);
    law_extents_read_back(shape[i]);
    assert(shape.take(i).push(shape[i]) =~= shape.take(i + 1));
    let b = joined_to(shape, i + 1).len() as int;
    if i + 1 < n {
        lemma_dims_from(shape, i + 1);
        assert(piece_start(shape, i + 1) == b + 1);
    } else {
        assert(shape.take(n) =~= shape);
        reveal_with_fuel(dims_from, 2);
    }
}

/// The text between the brackets of a written shape.
spec fn inner_text(shape: Seq<usize>) -> Seq<char> {
    if shape.len() == 1 {
        decimal(shape[0] as nat) + ","@
    } else {
        joined_to(shape, shape.len() as int)
    }
}

proof fn lemma_inner_reads_back(shape: Seq<usize>)
    ensures
        dims_from(trimmed(inner_text(shape)), 0, Seq::empty()) == Ok::<Seq<usize>, Seq<char>>(
            shape,
        ),
        forall|i: int| 0 <= i < inner_text(shape).len() ==> listed(#[trigger] inner_text(shape)[i]),
{
    let s = inner_text(shape);
    let none = Seq::<usize>::empty();
    reveal_strlit(",");
    assert forall|c: char| digit_value(c) is Some implies !white(c) && c != ',' by {}
    assert(!white(','));
    if shape.len() == 0 {
        assert(s =~= Seq::<char>::empty());
        assert(trimmed(s) =~= Seq::<char>::empty());
        lemma_no_char(trimmed(s), ","@, 0);
        reveal_with_fuel(dims_from, 2);
        assert(trimmed(trimmed(s).subrange(0, 0)) =~= Seq::<char>::empty());
        assert(none =~= shape);
    } else if shape.len() == 1 {
        let d = decimal(shape[0] as nat);
        let n = d.len() as int;
        lemma_decimal(shape[0] as nat);
        law_extents_read_back(shape[0]);
        assert(s[0] == d[0]);
        assert(s.last() == ',');
        lemma_trim_solid(s);
        assert forall|k: int| 0 <= k < n implies s[k] != ',' by {
            assert(s[k] == d[k]);
        }
        lemma_find_char(s, ","@, 0, n);
        assert(s.subrange(0, n) =~= d);
        assert(digit_value(d[n - 1]) is Some);
        lemma_trim_solid(d);
        assert(dims_from(s, 0, none) == dims_from(s, n + 1, none.push(shape[0])));
        lemma_no_char(s, ","@, n + 1);
        let rest = s.subrange(n + 1, n + 1);
        assert(rest =~= Seq::<char>::empty());
        assert(trimmed(rest) =~= Seq::<char>::empty());
        reveal_with_fuel(dims_from, 2);
        assert(dims_from(s, n + 1, none.push(shape[0])) == Ok::<Seq<usize>, Seq<char>>(
            none.push(shape[0]),
        ));
        assert(none.push(shape[0]) =~= shape);
        assert forall|i: int| 0 <= i < s.len() implies listed(#[trigger] s[i]) by {
            if i < n {
                assert(s[i] == d[i]);
            }
        }
    } else {
        lemma_joined(shape, shape.len() as int);
        lemma_trim_solid(s);
        lemma_dims_from(shape, 0);
        assert(shape.take(0) =~= none);
    }
}

// --------------------------------------------------------------- headers ---

/// The characters that follow the fixed part of a written header.
spec fn plain(c: char) -> bool {
    listed(c) || c == '(' || c == ')' || c == '}' || c == '\n'
}

/// The fixed part of a written header.
spec fn prefix() -> Seq<char> {
    "{'descr': '<f4', 'fortran_order': False, 'shape': "@
}

proof fn lemma_tuple(shape: Seq<usize>)
    ensures
        tuple_text(shape) == "("@ + inner_text(shape) + ")"@,
{
    if shape.len() == 1 {
        reveal_strlit(",)");
        reveal_strlit(",");
        reveal_strlit(")");
        assert(",)"@ =~= ","@ + ")"@);
        assert(tuple_text(shape) =~= "("@ + inner_text(shape) + ")"@);
    }
}

proof fn lemma_header_chars(shape: Seq<usize>)
    ensures
        ({
            let h = float_header(shape);
            let inner = inner_text(shape);
            &&& prefix().len() == 50
            &&& h.len() > 52 + inner.len()
            &&& forall|k: int| 0 <= k < 50 ==> h[k] == prefix()[k]
            &&& h[50] == '('
            &&& h.subrange(51, 51 + inner.len() as int) == inner
            &&& h[51 + inner.len() as int] == ')'
            &&& forall|k: int| 50 <= k < h.len() ==> plain(#[trigger] h[k])
        }),
{
    let h = float_header(shape);
    let inner = inner_text(shape);
    let n = inner.len() as int;
    reveal_strlit("{'descr': '<f4', 'fortran_order': False, 'shape': ");
    reveal_strlit("(");
    reveal_strlit(")");
    reveal_strlit(", }");
    reveal_strlit("\n");
    lemma_tuple(shape);
    lemma_inner_reads_back(shape);
    let pad = padding(bare_header(shape).len() as int);
    assert(h =~= prefix() + "("@ + inner + ")"@ + ", }"@ + spaces(pad) + "\n"@);
    assert(h.subrange(51, 51 + n) =~= inner);
    assert forall|k: int| 50 <= k < h.len() implies plain(#[trigger] h[k]) by {
        if 51 <= k < 51 + n {
            assert(h[k] == inner[k - 51]);
        }
    }
}

proof fn lemma_plain_free(c: char)
    requires
        plain(c),
    ensures
        c != 'f',
        c != '\'',
        '\0' <= c <= '\u{7f}',
{
}

#[verifier::spinoff_prover]
#[verifier::rlimit(40)]
proof fn lemma_prefix_ascii()
    ensures
        forall|k: int| 0 <= k < 50 ==> '\0' <= #[trigger] prefix()[k] <= '\u{7f}',
{
    reveal_strlit("{'descr': '<f4', 'fortran_order': False, 'shape': ");
}

#[verifier::spinoff_prover]
proof fn lemma_header_ascii(shape: Seq<usize>)
    ensures
        is_ascii_chars(float_header(shape)),
{
    let h = float_header(shape);
    lemma_header_chars(shape);
    lemma_prefix_ascii();
    assert forall|k: int| 0 <= k < h.len() implies '\0' <= #[trigger] h[k] <= '\u{7f}' by {
        if k >= 50 {
            lemma_plain_free(h[k]);
        } else {
            assert(h[k] == prefix()[k]);
        }
    }
}

/// A written header reads back as a float array of its shape.
pub proof fn law_headers_read_back(shape: Seq<usize>)
    ensures
        header_of(float_header(shape)) == Ok::<(Seq<char>, Seq<usize>), Seq<char>>(
            ("<f4"@, shape),
        ),
{
    let h = float_header(shape);
    let inner = inner_text(shape);
    let n = inner.len() as int;
    lemma_header_chars(shape);
    lemma_inner_reads_back(shape);
    reveal_strlit("{'descr': '<f4', 'fortran_order': False, 'shape': ");
    reveal_strlit("'descr':");
    reveal_strlit("'");
    reveal_strlit("<f4");
    reveal_strlit("'shape':");
    reveal_strlit("(");
    reveal_strlit(")");
    reveal_strlit("fortran_order': True");
    let pre = prefix();
    // The element type.
    assert(h.subrange(1, 9) =~= "'descr':"@);
    assert(h.subrange(0, 8)[0] != "'descr':"@[0]);
    lemma_find_at(h, "'descr':"@, 0, 1);
    lemma_find_char(h, "'"@, 9, 10);
    lemma_find_char(h, "'"@, 11, 14);
    assert(h.subrange(11, 14) =~= "<f4"@);
    assert(descr_of(h) == Ok::<Seq<char>, Seq<char>>("<f4"@));
    // The storage order.
    let order = "fortran_order': True"@;
    assert forall|k: int| 0 <= k && k + order.len() <= h.len() implies #[trigger] h.subrange(
        k,
        k + order.len(),
    ) != order by {
        let sub = h.subrange(k, k + order.len());
        assert(sub[0] == h[k] && sub[1] == h[k + 1] && sub[16] == h[k + 16]);
        assert(order[0] == 'f' && order[1] == 'o' && order[16] == 'T');
        if k >= 50 {
            lemma_plain_free(h[k]);
        } else {
            assert(h[k] == pre[k]);
            if pre[k] == 'f' {
                assert(k == 12 || k == 18);
                assert(pre[13] == '4' && pre[34] == 'F');
            }
        }
    }
    lemma_find_none(h, order, 0);
    // The shape.
    let key = "'shape':"@;
    assert(h.subrange(41, 49) =~= key);
    assert forall|k: int| 0 <= k < 41 implies #[trigger] h.subrange(k, k + key.len()) != key by {
        let sub = h.subrange(k, k + key.len());
        assert(sub[0] == pre[k] && sub[1] == pre[k + 1]);
        assert(key[0] == '\'' && key[1] == 's');
        if pre[k] == '\'' {
            assert(k == 1 || k == 7 || k == 10 || k == 14 || k == 17 || k == 31);
        }
    }
    lemma_find_at(h, key, 0, 41);
    lemma_find_char(h, "("@, 49, 50);
    assert forall|k: int| 50 <= k < 51 + n implies h[k] != ')' by {
        if k > 50 {
            assert(h.subrange(51, 51 + n)[k - 51] == h[k]);
            assert(listed(inner[k - 51]));
        }
    }
    lemma_find_char(h, ")"@, 50, 51 + n);
    assert(shape_of(h) == Ok::<Seq<usize>, Seq<char>>(shape));
}

// ----------------------------------------------------------------- files ---

#[verifier::spinoff_prover]
#[verifier::rlimit(40)]
proof fn lemma_file_parts(shape: Seq<usize>, data: Seq<u32>)
    requires
        encode_utf8(float_header(shape)).len() < 0x1_0000,
    ensures
        ({
            let raw = encode_utf8(float_header(shape));
            let b = float_file(shape, data);
            let end = 10 + raw.len() as int;
            &&& b.len() >= end
            &&& b.take(6) == magic()
            &&& b[6] == 1
            &&& header_len(b) == raw.len()
            &&& b.subrange(10, end) == raw
            &&& b.subrange(end, b.len() as int) == words_to(data, data.len() as int)
        }),
{
    let raw = encode_utf8(float_header(shape));
    let b = float_file(shape, data);
    let end = 10 + raw.len() as int;
    assert(b.take(6) =~= magic());
    assert(b[6] == 1 && b[8] == (raw.len() % 0x100) as u8 && b[9] == (raw.len() / 0x100
        % 0x100) as u8);
    assert(b.subrange(10, end) =~= raw);
    assert(b.subrange(end, b.len() as int) =~= words_to(data, data.len() as int));
}

/// Reading a written array gives it back: the shape and every bit pattern. The
/// header has to fit the two bytes of its length.
#[verifier::spinoff_prover]
#[verifier::rlimit(40)]
pub proof fn law_arrays_read_back(shape: Seq<usize>, data: Seq<u32>, name: Seq<char>)
    requires
        write_problem(shape, data.len()) is None,
        float_header(shape).len() < 0x1_0000,
    ensures
        array_in(float_file(shape, data), name) == Ok::<ArrayView, Seq<char>>(
            ArrayView { shape, floats: Some(data), longs: None, double: None },
        ),
{
    let h = float_header(shape);
    let raw = encode_utf8(h);
    let n = data.len() as int;
    let words = words_to(data, n);
    let b = float_file(shape, data);
    lemma_header_ascii(shape);
    vstd::utf8::is_ascii_chars_encode_utf8(h);
    vstd::utf8::encode_utf8_valid_utf8(h);
    vstd::utf8::encode_utf8_decode_utf8(h);
    law_headers_read_back(shape);
    law_words_read_back(data, n);
    lemma_file_parts(shape, data);
    reveal_strlit("<f4");
    assert(Seq::new(n as nat, |i: int| word_at(words, 4 * i)) =~= data);
}

/// The payload of a written array starts at a multiple of 64 bytes.
pub proof fn law_payloads_are_aligned(shape: Seq<usize>)
    ensures
        (10 + encode_utf8(float_header(shape)).len()) % 64 == 0,
{
    lemma_header_ascii(shape);
    vstd::utf8::is_ascii_chars_encode_utf8(float_header(shape));
    reveal_strlit("\n");
}

} // verus!
