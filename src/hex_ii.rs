//! The HexII dump: each byte shown in two columns, with printable ASCII as
//! `.c`, zero as blanks, `0xFF` as `##` and the end of the data as ` ]`.
use vstd::arithmetic::power2::{lemma2_to64, lemma_pow2_unfold, pow2};
use vstd::prelude::*;

verus! {

/// Bytes shown on one line of the dump.
pub const CHUNK_SIZE: usize = 16;

/// One cell of the dump.
#[derive(Debug, Clone, Copy, PartialEq, Eq, Structural)]
pub enum HexII {
    /// A printable ASCII byte other than space.
    Ascii(u8),
    /// Any other byte, shown in hexadecimal.
    Byte(u8),
    /// A zero byte.
    Null,
    /// A `0xFF` byte.
    Full,
    /// The end of the data.
    Eof,
}

/// The cell that shows byte `v`.
pub open spec fn classify(v: u8) -> HexII {
    if v == 0 {
        HexII::Null
    } else if v == 0xff {
        HexII::Full
    } else if 0x21 <= v <= 0x7e {
        HexII::Ascii(v)
    } else {
        HexII::Byte(v)
    }
}

impl From<u8> for HexII {
    fn from(v: u8) -> Self {
        if v == 0 {
            HexII::Null
        } else if v == 0xff {
            HexII::Full
        } else if 0x21 <= v && v <= 0x7e {
            HexII::Ascii(v)
        } else {
            HexII::Byte(v)
        }
    }
}

impl vstd::std_specs::convert::FromSpecImpl<u8> for HexII {
    open spec fn obeys_from_spec() -> bool {
        true
    }

    open spec fn from_spec(v: u8) -> HexII {
        classify(v)
    }
}

/// The lower-case hexadecimal digit for `n < 16`.
pub open spec fn hex_char(n: u8) -> u8 {
    if n < 10 {
        (0x30 + n) as u8
    } else {
        (0x61 + n - 10) as u8
    }
}

/// The two characters that show a cell.
pub open spec fn cell_text(h: HexII) -> Seq<u8> {
    match h {
        HexII::Ascii(c) => seq![0x2eu8, c],
        HexII::Byte(v) => seq![hex_char(v >> 4u8), hex_char(v & 0x0f)],
        HexII::Null => seq![0x20u8, 0x20],
        HexII::Full => seq![0x23u8, 0x23],
        HexII::Eof => seq![0x20u8, 0x5d],
    }
}

fn hex_digit_char(n: u8) -> (r: u8)
    requires
        n < 16,
    ensures
        r == hex_char(n),
{
    if n < 10 {
        0x30 + n
    } else {
        0x61 + n - 10
    }
}

impl HexII {
    /// The two characters that show this cell.
    pub fn render(&self) -> (r: Vec<u8>)
        ensures
            r@ == cell_text(*self),
    {
        let r: Vec<u8> = match *self {
            HexII::Ascii(c) => vec![0x2eu8, c],
            HexII::Byte(v) => {
                assert(v >> 4u8 < 16 && v & 0x0f < 16) by (bit_vector);
                vec![hex_digit_char(v >> 4u8), hex_digit_char(v & 0x0f)]
            },
            HexII::Null => vec![0x20u8, 0x20],
            HexII::Full => vec![0x23u8, 0x23],
            HexII::Eof => vec![0x20u8, 0x5d],
        };
        assert(r@ =~= cell_text(*self));
        r
    }
}

/// The cells of one line for `chunk`: one per byte, then, on a short line,
/// the end marker and blanks up to `CHUNK_SIZE` cells.
pub open spec fn line_cells(chunk: Seq<u8>) -> Seq<HexII> {
    let cells = chunk.map_values(|v: u8| classify(v));
    if chunk.len() < CHUNK_SIZE {
        cells + seq![HexII::Eof] + Seq::new(
            (CHUNK_SIZE - chunk.len() - 1) as nat,
            |i: int| HexII::Null,
        )
    } else {
        cells
    }
}

/// The cells of one line for a chunk of at most `CHUNK_SIZE` bytes.
pub fn hex_ii_line(chunk: &[u8]) -> (r: Vec<HexII>)
    requires
        chunk@.len() <= CHUNK_SIZE,
    ensures
        r@ == line_cells(chunk@),
{
    let len = chunk.len();
    let mut out: Vec<HexII> = Vec::new();
    let mut i: usize = 0;
    while i < len
        invariant
            i <= len,
            len == chunk@.len(),
            len <= CHUNK_SIZE,
            out@ == chunk@.subrange(0, i as int).map_values(|v: u8| classify(v)),
        decreases len - i,
    {
        out.push(HexII::from(chunk[i]));
        i += 1;
        assert(out@ =~= chunk@.subrange(0, i as int).map_values(|v: u8| classify(v)));
    }
    assert(chunk@.subrange(0, len as int) =~= chunk@);
    if len < CHUNK_SIZE {
        out.push(HexII::Eof);
        let ghost head = out@;
        while out.len() < CHUNK_SIZE
            invariant
                len < CHUNK_SIZE,
                head.len() == len + 1,
                head.len() <= out@.len() <= CHUNK_SIZE,
                out@ == head + Seq::new((out@.len() - head.len()) as nat, |i: int| HexII::Null),
            decreases CHUNK_SIZE - out@.len(),
        {
            out.push(HexII::Null);
            assert(out@ =~= head + Seq::new((out@.len() - head.len()) as nat, |i: int| HexII::Null));
        }
    }
    assert(out@ =~= line_cells(chunk@));
    out
}

/// The text of a line of cells, separated by single spaces.
pub open spec fn line_text(cells: Seq<HexII>) -> Seq<u8>
    decreases cells.len(),
{
    if cells.len() == 0 {
        Seq::empty()
    } else if cells.len() == 1 {
        cell_text(cells[0])
    } else {
        line_text(cells.drop_last()) + seq![0x20u8] + cell_text(cells.last())
    }
}

/// The text of a line of cells.
pub fn render_line(cells: &Vec<HexII>) -> (r: Vec<u8>)
    requires
        cells@.len() <= CHUNK_SIZE,
    ensures
        r@ == line_text(cells@),
{
    let mut out: Vec<u8> = Vec::new();
    let mut i: usize = 0;
    while i < cells.len()
        invariant
            i <= cells@.len() <= CHUNK_SIZE,
            out@ == line_text(cells@.subrange(0, i as int)),
            out@.len() <= 3 * i,
        decreases cells@.len() - i,
    {
        if i != 0 {
            out.push(0x20u8);
        }
        let text = cells[i].render();
        crate::codec::append_bytes(&mut out, &text);
        assert(cells@.subrange(0, i + 1).drop_last() =~= cells@.subrange(0, i as int));
        i += 1;
    }
    assert(cells@.subrange(0, i as int) =~= cells@);
    out
}

/// Whether a line shows nothing but blanks, which the dump leaves out.
pub fn is_blank(cells: &Vec<HexII>) -> (r: bool)
    ensures
        r == (forall|i: int| 0 <= i < cells@.len() ==> cells@[i] == HexII::Null),
{
    let mut i: usize = 0;
    while i < cells.len()
        invariant
            i <= cells@.len(),
            forall|j: int| 0 <= j < i ==> cells@[j] == HexII::Null,
        decreases cells@.len() - i,
    {
        match cells[i] {
            HexII::Null => {},
            _ => {
                return false;
            },
        }
        i += 1;
    }
    true
}

/// Number of bits needed to write `n`.
pub open spec fn bit_len(n: nat) -> nat
    decreases n,
{
    if n == 0 {
        0
    } else {
        1 + bit_len(n / 2)
    }
}

/// Number of hexadecimal digits of the offset column for data of `total`
/// bytes: the bits of `total`, rounded up to whole bytes, four to a digit.
pub open spec fn offset_digits_spec(total: nat) -> nat {
    let bits = bit_len(total);
    (if bits % 8 == 0 {
        bits
    } else {
        (bits + (8 - bits % 8)) as nat
    }) / 4
}

proof fn lemma_bit_len_below(n: nat, k: nat)
    requires
        n < pow2(k),
    ensures
        bit_len(n) <= k,
    decreases k,
{
    if n > 0 {
        if k == 0 {
            lemma2_to64();
        } else {
            lemma_pow2_unfold(k);
            lemma_bit_len_below(n / 2, (k - 1) as nat);
        }
    }
}

/// Number of hexadecimal digits of the offset column for data of `total`
/// bytes.
pub fn offset_digits(total: u64) -> (r: usize)
    ensures
        r == offset_digits_spec(total as nat),
{
    let mut n: u64 = total;
    let mut bits: usize = 0;
    proof {
        lemma2_to64();
        lemma_bit_len_below(total as nat, 64);
    }
    while n > 0
        invariant
            bits + bit_len(n as nat) == bit_len(total as nat),
            bits <= 64 - bit_len(n as nat),
            bit_len(n as nat) <= 64,
        decreases n,
    {
        n = n / 2;
        bits += 1;
    }
    if bits % 8 != 0 {
        bits = bits + (8 - bits % 8);
    }
    bits / 4
}

} // verus!
