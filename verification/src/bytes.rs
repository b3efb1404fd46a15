//! Numbers as bytes, little-endian.

use vstd::prelude::*;

verus! {

/// Bytes of a word.
pub open spec fn word_bytes(v: u32) -> Seq<u8> {
    seq![
        (v % 0x100) as u8,
        (v / 0x100 % 0x100) as u8,
        (v / 0x1_0000 % 0x100) as u8,
        (v / 0x100_0000) as u8,
    ]
}

/// The word at byte `i`.
pub open spec fn word_at(b: Seq<u8>, i: int) -> u32 {
    (b[i] + 0x100 * b[i + 1] + 0x1_0000 * b[i + 2] + 0x100_0000 * b[i + 3]) as u32
}

/// The words of `data`, up to the `n`th.
pub open spec fn words_to(data: Seq<u32>, n: int) -> Seq<u8>
    decreases n,
{
    if n <= 0 {
        Seq::empty()
    } else {
        words_to(data, n - 1) + word_bytes(data[n - 1])
    }
}

/// Bytes of a half word.
pub open spec fn half_bytes(v: u16) -> Seq<u8> {
    seq![(v % 0x100) as u8, (v / 0x100) as u8]
}

/// The half words of `data`, up to the `n`th.
pub open spec fn halves_to(data: Seq<u16>, n: int) -> Seq<u8>
    decreases n,
{
    if n <= 0 {
        Seq::empty()
    } else {
        halves_to(data, n - 1) + half_bytes(data[n - 1])
    }
}

/// The word at byte `i`.
pub fn read_word(b: &[u8], i: usize) -> (r: u32)
    requires
        i + 4 <= b@.len(),
    ensures
        r == word_at(b@, i as int),
{
    b[i] as u32 + 0x100 * b[i + 1] as u32 + 0x1_0000 * b[i + 2] as u32 + 0x100_0000 * b[i
        + 3] as u32
}

/// Appends a word.
pub fn push_word(out: &mut Vec<u8>, v: u32)
    ensures
        final(out)@ == old(out)@ + word_bytes(v),
{
    out.push((v % 0x100) as u8);
    out.push((v / 0x100 % 0x100) as u8);
    out.push((v / 0x1_0000 % 0x100) as u8);
    out.push((v / 0x100_0000) as u8);
    assert(out@ =~= old(out)@ + word_bytes(v));
}

/// Appends words.
pub fn push_words(out: &mut Vec<u8>, data: &[u32])
    ensures
        final(out)@ == old(out)@ + words_to(data@, data@.len() as int),
{
    let ghost head = out@;
    let mut i: usize = 0;
    assert(head + words_to(data@, 0) =~= head);
    while i < data.len()
        invariant
            i <= data@.len(),
            out@ == head + words_to(data@, i as int),
        decreases data@.len() - i,
    {
        push_word(out, data[i]);
        assert(out@ =~= head + words_to(data@, i + 1));
        i += 1;
    }
}

/// Appends half words.
pub fn push_halves(out: &mut Vec<u8>, data: &[u16])
    ensures
        final(out)@ == old(out)@ + halves_to(data@, data@.len() as int),
{
    let ghost head = out@;
    let mut i: usize = 0;
    assert(head + halves_to(data@, 0) =~= head);
    while i < data.len()
        invariant
            i <= data@.len(),
            out@ == head + halves_to(data@, i as int),
        decreases data@.len() - i,
    {
        let v: u16 = data[i];
        out.push((v % 0x100) as u8);
        out.push((v / 0x100) as u8);
        assert(out@ =~= head + halves_to(data@, i + 1));
        i += 1;
    }
}

/// Reading the words of a byte string gives back what was written.
pub proof fn law_words_read_back(data: Seq<u32>, n: int)
    requires
        0 <= n <= data.len(),
    ensures
        words_to(data, n).len() == 4 * n,
        forall|i: int| 0 <= i < n ==> #[trigger] word_at(words_to(data, n), 4 * i) == data[i],
    decreases n,
{
    if n > 0 {
        law_words_read_back(data, n - 1);
        let head = words_to(data, n - 1);
        let s = words_to(data, n);
        assert forall|i: int| 0 <= i < n implies #[trigger] word_at(s, 4 * i) == data[i] by {
            if i < n - 1 {
                assert(s[4 * i] == head[4 * i]);
                assert(s[4 * i + 1] == head[4 * i + 1]);
                assert(s[4 * i + 2] == head[4 * i + 2]);
                assert(s[4 * i + 3] == head[4 * i + 3]);
                assert(word_at(s, 4 * i) == word_at(head, 4 * i));
            } else {
                let w = word_bytes(data[i]);
                assert(s[4 * i] == w[0] && s[4 * i + 1] == w[1] && s[4 * i + 2] == w[2] && s[4 * i
                    + 3] == w[3]);
            }
        }
    }
}

} // verus!
