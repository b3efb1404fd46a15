//! Arrays in NumPy's `.npy` format: versions 1 and 2, row order, 32-bit floats,
//! 64-bit integers, and scalars of 64-bit floats. Floats are carried as their bit
//! patterns.

use vstd::prelude::*;
use vstd::utf8::{decode_utf8, encode_utf8, valid_utf8};

use crate::bytes::{push_words, read_word, word_at, words_to};
use crate::npy::header::{
    float_header, float_header_string, header_of, list_string, list_text, parse_header,
};
use crate::sizes::{checked_product, ints, product, product_fits};
use crate::text::{decimal, lossy_string, lossy_text, owned, same_text, Msg};

pub mod header;
pub mod laws;

verus! {

/// An array read from a file: floats as bit patterns, integers, or one 64-bit
/// float as its bit pattern.
#[derive(Debug)]
pub struct NpyArray {
    pub shape: Vec<usize>,
    pub data_f32: Option<Vec<u32>>,
    pub data_i64: Option<Vec<i64>>,
    pub data_f64: Option<u64>,
}

/// An array as data.
#[verifier::ext_equal]
pub struct ArrayView {
    pub shape: Seq<usize>,
    pub floats: Option<Seq<u32>>,
    pub longs: Option<Seq<i64>>,
    pub double: Option<u64>,
}

impl View for NpyArray {
    type V = ArrayView;

    open spec fn view(&self) -> ArrayView {
        ArrayView {
            shape: self.shape@,
            floats: match self.data_f32 {
                Some(v) => Some(v@),
                None => None,
            },
            longs: match self.data_i64 {
                Some(v) => Some(v@),
                None => None,
            },
            double: self.data_f64,
        }
    }
}

impl NpyArray {
    /// The floats, as bit patterns.
    pub fn f32_slice(&self) -> (r: Result<&[u32], String>)
        ensures
            match self@.floats {
                Some(v) => r is Ok && r->Ok_0@ == v,
                None => r is Err && r->Err_0@ == "expected float32 npy"@,
            },
    {
        match &self.data_f32 {
            Some(v) => Ok(v.as_slice()),
            None => Err(owned("expected float32 npy")),
        }
    }

    /// The integers.
    pub fn i64_slice(&self) -> (r: Result<&[i64], String>)
        ensures
            match self@.longs {
                Some(v) => r is Ok && r->Ok_0@ == v,
                None => r is Err && r->Err_0@ == "expected int64 npy"@,
            },
    {
        match &self.data_i64 {
            Some(v) => Ok(v.as_slice()),
            None => Err(owned("expected int64 npy")),
        }
    }

    /// The only float, as a bit pattern.
    pub fn scalar_f32(&self) -> (r: Result<u32, String>)
        ensures
            match self@.floats {
                None => r is Err && r->Err_0@ == "expected float32 npy"@,
                Some(v) => if v.len() == 1 {
                    r is Ok && r->Ok_0 == v[0]
                } else {
                    r is Err && r->Err_0@ == "expected scalar, got "@ + decimal(v.len())
                        + " elems"@
                },
            },
    {
        let s = self.f32_slice()?;
        if s.len() != 1 {
            return Err(Msg::new("expected scalar, got ").num(s.len()).text(" elems").done());
        }
        Ok(s[0])
    }
}

// --------------------------------------------------------------- reading ---

/// The first bytes of every file.
pub open spec fn magic() -> Seq<u8> {
    seq![0x93u8, 0x4E, 0x55, 0x4D, 0x50, 0x59]
}

/// Message of a file that ends too early.
pub open spec fn short(part: Seq<char>) -> Seq<char> {
    part + ": failed to fill whole buffer"@
}

/// The little-endian double word at byte `i`.
pub open spec fn double_word_at(b: Seq<u8>, i: int) -> u64 {
    (word_at(b, i) + 0x1_0000_0000 * word_at(b, i + 4)) as u64
}

/// The little-endian signed double word at byte `i`.
pub open spec fn long_at(b: Seq<u8>, i: int) -> i64 {
    double_word_at(b, i) as i64
}

/// Where the header starts: behind a 2-byte length in version 1, a 4-byte one
/// in later versions.
pub open spec fn header_start(b: Seq<u8>) -> int {
    if b[6] == 1 {
        10
    } else {
        12
    }
}

/// Bytes of the header.
pub open spec fn header_len(b: Seq<u8>) -> int {
    if b[6] == 1 {
        b[8] + 0x100 * b[9]
    } else {
        word_at(b, 8) as int
    }
}

/// The text of header bytes.
pub open spec fn header_text(b: Seq<u8>) -> Seq<char> {
    if valid_utf8(b) {
        decode_utf8(b)
    } else {
        lossy_text(b)
    }
}

/// The elements behind a header, from the bytes that follow it.
pub open spec fn elements(
    name: Seq<char>,
    descr: Seq<char>,
    shape: Seq<usize>,
    payload: Seq<u8>,
) -> Result<ArrayView, Seq<char>> {
    let n = product(ints(shape));
    if !product_fits(ints(shape)) {
        Err("shape product overflows usize"@)
    } else if descr == "<f4"@ || descr == "|f4"@ {
        if 4 * n > payload.len() {
            Err(short("f32 payload"@))
        } else {
            Ok(
                ArrayView {
                    shape,
                    floats: Some(Seq::new(n as nat, |i: int| word_at(payload, 4 * i))),
                    longs: None,
                    double: None,
                },
            )
        }
    } else if descr == "<i8"@ || descr == "|i8"@ {
        if 8 * n > payload.len() {
            Err(short("i64 payload"@))
        } else {
            Ok(
                ArrayView {
                    shape,
                    floats: None,
                    longs: Some(Seq::new(n as nat, |i: int| long_at(payload, 8 * i))),
                    double: None,
                },
            )
        }
    } else if (descr == "<f8"@ || descr == "|f8"@) && shape.len() == 0 {
        if payload.len() < 8 {
            Err(short("f64 payload"@))
        } else {
            Ok(
                ArrayView {
                    shape,
                    floats: None,
                    longs: None,
                    double: Some(double_word_at(payload, 0)),
                },
            )
        }
    } else {
        Err("unsupported dtype "@ + descr + " in "@ + name)
    }
}

/// The array in the bytes of the file called `name`.
pub open spec fn array_in(b: Seq<u8>, name: Seq<char>) -> Result<ArrayView, Seq<char>> {
    let n = b.len() as int;
    if n < 6 {
        Err(short("read magic"@))
    } else if b.take(6) != magic() {
        Err("not an npy file: "@ + name)
    } else if n < 8 {
        Err(short("ver"@))
    } else if n < header_start(b) {
        Err(short("hlen"@))
    } else if n < header_start(b) + header_len(b) {
        Err(short("header"@))
    } else {
        let end = header_start(b) + header_len(b);
        match header_of(header_text(b.subrange(header_start(b), end))) {
            Err(m) => Err(m),
            Ok((descr, shape)) => elements(name, descr, shape, b.subrange(end, n)),
        }
    }
}

/// `r` is the array that `expected` describes.
pub open spec fn array_outcome(
    r: Result<NpyArray, String>,
    expected: Result<ArrayView, Seq<char>>,
) -> bool {
    match expected {
        Ok(a) => r is Ok && r->Ok_0@ == a,
        Err(m) => r is Err && r->Err_0@ == m,
    }
}

fn read_floats(b: &[u8], from: usize, n: usize) -> (r: Vec<u32>)
    requires
        from + 4 * n <= b@.len(),
    ensures
        r@ == Seq::new(
            n as nat,
            |i: int| word_at(b@.subrange(from as int, b@.len() as int), 4 * i),
        ),
{
    let ghost payload = b@.subrange(from as int, b@.len() as int);
    let total: usize = b.len();
    let mut r: Vec<u32> = Vec::new();
    let mut i: usize = 0;
    while i < n
        invariant
            i <= n,
            from + 4 * n <= total,
            total == b@.len(),
            payload == b@.subrange(from as int, b@.len() as int),
            r@.len() == i,
            forall|k: int| 0 <= k < i ==> r@[k] == word_at(payload, 4 * k),
        decreases n - i,
    {
        r.push(read_word(b, from + 4 * i));
        i += 1;
    }
    r
}

fn read_longs(b: &[u8], from: usize, n: usize) -> (r: Vec<i64>)
    requires
        from + 8 * n <= b@.len(),
    ensures
        r@ == Seq::new(
            n as nat,
            |i: int| long_at(b@.subrange(from as int, b@.len() as int), 8 * i),
        ),
{
    let ghost payload = b@.subrange(from as int, b@.len() as int);
    let total: usize = b.len();
    let mut r: Vec<i64> = Vec::new();
    let mut i: usize = 0;
    while i < n
        invariant
            i <= n,
            from + 8 * n <= total,
            total == b@.len(),
            payload == b@.subrange(from as int, b@.len() as int),
            r@.len() == i,
            forall|k: int| 0 <= k < i ==> r@[k] == long_at(payload, 8 * k),
        decreases n - i,
    {
        let low: u64 = read_word(b, from + 8 * i) as u64;
        let high: u64 = read_word(b, from + 8 * i + 4) as u64;
        let v: u64 = low + 0x1_0000_0000 * high;
        r.push(v as i64);
        i += 1;
    }
    r
}

fn read_elements(
    name: &str,
    descr: &str,
    shape: Vec<usize>,
    b: &[u8],
    from: usize,
) -> (r: Result<NpyArray, String>)
    requires
        from <= b@.len(),
    ensures
        array_outcome(
            r,
            elements(name@, descr@, shape@, b@.subrange(from as int, b@.len() as int)),
        ),
{
    let n: usize = match checked_product(shape.as_slice()) {
        Some(n) => n,
        None => {
            return Err(owned("shape product overflows usize"));
        },
    };
    let room: usize = b.len() - from;
    if same_text(descr, "<f4") || same_text(descr, "|f4") {
        if n > room / 4 {
            return Err(Msg::new("f32 payload").text(": failed to fill whole buffer").done());
        }
        let data = read_floats(b, from, n);
        Ok(NpyArray { shape, data_f32: Some(data), data_i64: None, data_f64: None })
    } else if same_text(descr, "<i8") || same_text(descr, "|i8") {
        if n > room / 8 {
            return Err(Msg::new("i64 payload").text(": failed to fill whole buffer").done());
        }
        let data = read_longs(b, from, n);
        Ok(NpyArray { shape, data_f32: None, data_i64: Some(data), data_f64: None })
    } else if (same_text(descr, "<f8") || same_text(descr, "|f8")) && shape.len() == 0 {
        if room < 8 {
            return Err(Msg::new("f64 payload").text(": failed to fill whole buffer").done());
        }
        let low: u64 = read_word(b, from) as u64;
        let high: u64 = read_word(b, from + 4) as u64;
        let bits: u64 = low + 0x1_0000_0000 * high;
        Ok(NpyArray { shape, data_f32: None, data_i64: None, data_f64: Some(bits) })
    } else {
        Err(Msg::new("unsupported dtype ").text(descr).text(" in ").text(name).done())
    }
}

fn has_magic(b: &[u8]) -> (r: bool)
    requires
        b@.len() >= 6,
    ensures
        r == (b@.take(6) == magic()),
{
    let r = b[0] == 0x93 && b[1] == 0x4E && b[2] == 0x55 && b[3] == 0x4D && b[4] == 0x50 && b[5]
        == 0x59;
    proof {
        if r {
            assert(b@.take(6) =~= magic());
        } else {
            assert(b@.take(6)[0] == b@[0] && b@.take(6)[1] == b@[1] && b@.take(6)[2] == b@[2]
                && b@.take(6)[3] == b@[3] && b@.take(6)[4] == b@[4] && b@.take(6)[5] == b@[5]);
        }
    }
    r
}

/// Reads an array from the bytes of the file called `name`.
pub fn read_npy(bytes: &[u8], name: &str) -> (r: Result<NpyArray, String>)
    ensures
        array_outcome(r, array_in(bytes@, name@)),
{
    let n: usize = bytes.len();
    if n < 6 {
        return Err(Msg::new("read magic").text(": failed to fill whole buffer").done());
    }
    if !has_magic(bytes) {
        return Err(Msg::new("not an npy file: ").text(name).done());
    }
    if n < 8 {
        return Err(Msg::new("ver").text(": failed to fill whole buffer").done());
    }
    let start: usize = if bytes[6] == 1 {
        10
    } else {
        12
    };
    if n < start {
        return Err(Msg::new("hlen").text(": failed to fill whole buffer").done());
    }
    let len: usize = if bytes[6] == 1 {
        bytes[8] as usize + 0x100 * bytes[9] as usize
    } else {
        read_word(bytes, 8) as usize
    };
    if n - start < len {
        return Err(Msg::new("header").text(": failed to fill whole buffer").done());
    }
    let end: usize = start + len;
    let raw = vstd::slice::slice_subrange(bytes, start, end);
    let text = lossy_string(raw);
    let (descr, shape) = parse_header(text.as_str())?;
    read_elements(name, descr.as_str(), shape, bytes, end)
}

// --------------------------------------------------------------- writing ---

/// The file of a float array: version 1, with the header's length in 2 bytes.
pub open spec fn float_file(shape: Seq<usize>, data: Seq<u32>) -> Seq<u8> {
    let header = encode_utf8(float_header(shape));
    magic() + seq![1u8, 0, (header.len() % 0x100) as u8, (header.len() / 0x100 % 0x100) as u8]
        + header + words_to(data, data.len() as int)
}

/// What keeps a float array from being written.
pub open spec fn write_problem(shape: Seq<usize>, len: nat) -> Option<Seq<char>> {
    if !product_fits(ints(shape)) {
        Some("write_npy shape "@ + list_text(shape) + " overflows usize"@)
    } else if len != product(ints(shape)) {
        Some(
            "write_npy shape "@ + list_text(shape) + " expects "@ + decimal(
                product(ints(shape)) as nat,
            ) + " elems, got "@ + decimal(len),
        )
    } else {
        None
    }
}

/// The bytes of a file that holds a float array of this shape; `data` are the
/// bit patterns, row by row.
pub fn write_npy_f32(shape: &[usize], data: &[u32]) -> (r: Result<Vec<u8>, String>)
    ensures
        match write_problem(shape@, data@.len()) {
            Some(m) => r is Err && r->Err_0@ == m,
            None => r is Ok && r->Ok_0@ == float_file(shape@, data@),
        },
{
    let numel: usize = match checked_product(shape) {
        Some(n) => n,
        None => {
            return Err(
                Msg::new("write_npy shape ").text(list_string(shape).as_str()).text(
                    " overflows usize",
                ).done(),
            );
        },
    };
    if data.len() != numel {
        return Err(
            Msg::new("write_npy shape ").text(list_string(shape).as_str()).text(" expects ").num(
                numel,
            ).text(" elems, got ").num(data.len()).done(),
        );
    }
    let header = float_header_string(shape);
    let mut raw: Vec<u8> = header.as_str().as_bytes_vec();
    let n: usize = raw.len();
    let mut out: Vec<u8> = Vec::new();
    out.push(0x93);
    out.push(0x4E);
    out.push(0x55);
    out.push(0x4D);
    out.push(0x50);
    out.push(0x59);
    out.push(1);
    out.push(0);
    out.push((n % 0x100) as u8);
    out.push((n / 0x100 % 0x100) as u8);
    out.append(&mut raw);
    push_words(&mut out, data);
    assert(out@ =~= float_file(shape@, data@));
    Ok(out)
}

// ------------------------------------------------------------- transpose ---

/// Where element `k` of the transposed array comes from.
pub open spec fn origin(k: int, rows: int, cols: int) -> int {
    let plane = rows * cols;
    let r = k % plane;
    k - r + r % rows * cols + r / rows
}

/// `data` with the planes of `rows` by `cols` transposed; what is behind the
/// last of the `total` elements becomes zero.
pub open spec fn transposed(data: Seq<u32>, total: int, rows: int, cols: int) -> Seq<u32> {
    Seq::new(
        data.len(),
        |k: int|
            if k < total {
                data[origin(k, rows, cols)]
            } else {
                0
            },
    )
}

/// A shape with its last two extents swapped.
pub open spec fn swapped(shape: Seq<usize>) -> Seq<usize> {
    let r = shape.len() as int;
    shape.update(r - 2, shape[r - 1]).update(r - 1, shape[r - 2])
}

pub(crate) proof fn lemma_origin(k: int, total: int, rows: int, cols: int, planes: int)
    requires
        0 <= k < total,
        total == planes * (rows * cols),
        rows >= 0,
        cols >= 0,
        planes >= 0,
    ensures
        rows > 0,
        cols > 0,
        rows * cols > 0,
        0 <= k % (rows * cols) <= k,
        0 <= k % (rows * cols) % rows * cols + k % (rows * cols) / rows < rows * cols,
        0 <= origin(k, rows, cols) < total,
        origin(k, rows, cols) / (rows * cols) == k / (rows * cols),
        origin(k, rows, cols) % (rows * cols) == k % (rows * cols) % rows * cols + k % (rows
            * cols) / rows,
{
    let plane = rows * cols;
    assert(rows > 0 && cols > 0 && plane > 0) by (nonlinear_arith)
        requires
            total == planes * (rows * cols),
            total > 0,
            rows >= 0,
            cols >= 0,
            planes >= 0,
            plane == rows * cols,
    ;
    let b = k / plane;
    let r = k % plane;
    assert(k == b * plane + r && 0 <= r < plane && 0 <= b) by (nonlinear_arith)
        requires
            plane > 0,
            k >= 0,
            b == k / plane,
            r == k % plane,
    ;
    let i = r % rows;
    let j = r / rows;
    assert(r == j * rows + i && 0 <= i < rows && 0 <= j) by (nonlinear_arith)
        requires
            rows > 0,
            r >= 0,
            i == r % rows,
            j == r / rows,
    ;
    assert(j < cols) by (nonlinear_arith)
        requires
            r == j * rows + i,
            0 <= i,
            r < rows * cols,
            rows > 0,
    ;
    let q = i * cols + j;
    assert(0 <= q < plane) by (nonlinear_arith)
        requires
            0 <= i < rows,
            0 <= j < cols,
            q == i * cols + j,
            plane == rows * cols,
    ;
    let o = b * plane + q;
    assert(origin(k, rows, cols) == o);
    assert(b < planes) by (nonlinear_arith)
        requires
            b * plane + r < planes * plane,
            0 <= r,
            plane > 0,
    ;
    assert(o < total) by (nonlinear_arith)
        requires
            o == b * plane + q,
            q < plane,
            b + 1 <= planes,
            total == planes * plane,
            plane > 0,
    ;
    vstd::arithmetic::div_mod::lemma_fundamental_div_mod_converse(o, plane, b, q);
    assert(b * plane == plane * b) by (nonlinear_arith);
    assert(b * plane >= 0) by (nonlinear_arith)
        requires
            b >= 0,
            plane > 0,
    ;
}

pub(crate) proof fn lemma_last_two(shape: Seq<usize>)
    requires
        shape.len() >= 2,
    ensures
        ({
            let r = shape.len() as int;
            &&& product(ints(shape)) == crate::sizes::product_to(ints(shape), r - 2) * (shape[r
                - 2] * shape[r - 1])
            &&& crate::sizes::product_to(ints(shape), r - 2) >= 0
            &&& product(ints(swapped(shape))) == product(ints(shape))
        }),
{
    let r = shape.len() as int;
    let d = ints(shape);
    let e = ints(swapped(shape));
    let batch = crate::sizes::product_to(d, r - 2);
    reveal_with_fuel(crate::sizes::product_to, 3);
    crate::sizes::lemma_product_nonneg(d, r - 2);
    lemma_same_prefix(d, e, r - 2);
    let x = d[r - 2];
    let y = d[r - 1];
    assert(batch * x * y == batch * (x * y)) by (nonlinear_arith);
    assert(batch * y * x == batch * (x * y)) by (nonlinear_arith);
}

proof fn lemma_same_prefix(d: Seq<int>, e: Seq<int>, n: int)
    requires
        0 <= n <= d.len(),
        n <= e.len(),
        forall|i: int| 0 <= i < n ==> d[i] == e[i],
    ensures
        crate::sizes::product_to(d, n) == crate::sizes::product_to(e, n),
    decreases n,
{
    if n > 0 {
        lemma_same_prefix(d, e, n - 1);
    }
}

/// Transposes the last two dimensions of a row-major array, in place. Elements
/// past the shape are set to zero.
pub fn transpose_last2(data: &mut Vec<u32>, shape: &mut Vec<usize>) -> (r: Result<(), String>)
    requires
        old(shape)@.len() >= 2 ==> product_fits(ints(old(shape)@)) && product(ints(old(shape)@))
            <= old(data)@.len(),
    ensures
        old(shape)@.len() < 2 ==> {
            &&& r is Err
            &&& r->Err_0@ == "transpose_last2 needs rank >= 2"@
            &&& final(data)@ == old(data)@
            &&& final(shape)@ == old(shape)@
        },
        old(shape)@.len() >= 2 ==> {
            &&& r is Ok
            &&& final(shape)@ == swapped(old(shape)@)
            &&& final(data)@ == transposed(
                old(data)@,
                product(ints(old(shape)@)),
                old(shape)@[old(shape)@.len() - 2] as int,
                old(shape)@[old(shape)@.len() - 1] as int,
            )
        },
{
    let r: usize = shape.len();
    if r < 2 {
        return Err(owned("transpose_last2 needs rank >= 2"));
    }
    let rows: usize = shape[r - 2];
    let cols: usize = shape[r - 1];
    let total: usize = match checked_product(shape.as_slice()) {
        Some(n) => n,
        None => 0,
    };
    let ghost shape0 = shape@;
    let ghost data0 = data@;
    let ghost planes = crate::sizes::product_to(ints(shape0), r - 2);
    proof {
        lemma_last_two(shape0);
    }
    let n: usize = data.len();
    let mut out: Vec<u32> = Vec::new();
    let mut k: usize = 0;
    while k < n
        invariant
            k <= n,
            n == data0.len(),
            data@ == data0,
            total <= n,
            total == planes * (rows * cols),
            planes >= 0,
            out@.len() == k,
            forall|m: int|
                0 <= m < k ==> out@[m] == transposed(
                    data0,
                    total as int,
                    rows as int,
                    cols as int,
                )[m],
        decreases n - k,
    {
        if k < total {
            proof {
                lemma_origin(k as int, total as int, rows as int, cols as int, planes);
                assert(rows * cols <= total) by (nonlinear_arith)
                    requires
                        total == planes * (rows * cols),
                        total > 0,
                        planes >= 0,
                        rows * cols >= 0,
                ;
                assert(k as int % (rows * cols) % (rows as int) * cols >= 0) by (nonlinear_arith)
                    requires
                        rows > 0,
                        cols > 0,
                ;
            }
            let plane: usize = rows * cols;
            let rest: usize = k % plane;
            let across: usize = rest % rows * cols;
            out.push(data[k - rest + (across + rest / rows)]);
        } else {
            out.push(0);
        }
        k += 1;
    }
    *data = out;
    shape.set(r - 2, cols);
    shape.set(r - 1, rows);
    assert(data@ =~= transposed(data0, total as int, rows as int, cols as int));
    assert(shape@ =~= swapped(shape0));
    Ok(())
}

/// Does nothing.
pub fn seek_noop() {
}

} // verus!
