//! Trainable linear head: `y = Wx + b` over a pooled embedding, with weights that
//! were trained elsewhere.
//!
//! The file format is
//!
//! ```text
//! magic    4 bytes, "SMHD"
//! version  u32, little endian, 1
//! n_in     u32, little endian: the embedding size
//! n_out    u32, little endian
//! weights  n_in * n_out single-precision numbers, little endian,
//!          n_out rows of n_in numbers each
//! bias     n_out single-precision numbers, little endian
//! ```
//!
//! Numbers are held as their bit patterns.

use crate::score::Score;
use crate::text;
use vstd::prelude::*;
use vstd::slice::*;
use vstd::string::*;

verus! {

/// A trained head.
pub struct LinearHead {
    n_in: usize,
    n_out: usize,
    /// Row by row: entry `o * n_in + i` weighs input `i` for output `o`.
    weights: Vec<Score>,
    bias: Vec<Score>,
}

/// Why a file is not a head for the model at hand.
#[derive(Debug, Clone, Copy, PartialEq, Eq, Structural)]
pub enum HeadError {
    /// The file is too short to contain a header.
    TooShort,
    /// The file does not start with the magic.
    BadMagic,
    /// The version is not supported.
    UnsupportedVersion(u32),
    /// The head was trained for another embedding size.
    WrongInputSize { n_in: u32, expected_n_in: usize },
    /// The header calls for another file size.
    WrongLength { len: usize, expected_len: u128, n_in: u32, n_out: u32 },
}

impl HeadError {
    /// The message for a person about the file at `path`.
    pub open spec fn describes(self, path: Seq<char>) -> Seq<char> {
        let file = "linear head file "@ + path;
        match self {
            HeadError::TooShort => file + " is too short to contain a header"@,
            HeadError::BadMagic => file + " has bad magic (not an SMHD file)"@,
            HeadError::UnsupportedVersion(version) => file + " has unsupported version "@
                + text::decimal(version as nat),
            HeadError::WrongInputSize { n_in, expected_n_in } => file + " was trained for n_in="@
                + text::decimal(n_in as nat) + " but the model's embedding size is "@
                + text::decimal(expected_n_in as nat) + " — wrong head for this model?"@,
            HeadError::WrongLength { len, expected_len, n_in, n_out } => file + " is "@ + text::decimal(
                len as nat,
            ) + " bytes, expected "@ + text::decimal(expected_len as nat) + " for n_in="@
                + text::decimal(n_in as nat) + " n_out="@ + text::decimal(n_out as nat),
        }
    }

    /// The message for a person about the file at `path`.
    pub fn message(&self, path: &str) -> (m: String)
        ensures
            m@ == self.describes(path@),
    {
        let mut m = text::concat2("linear head file ", path);
        match self {
            HeadError::TooShort => {
                m.append(" is too short to contain a header");
            },
            HeadError::BadMagic => {
                m.append(" has bad magic (not an SMHD file)");
            },
            HeadError::UnsupportedVersion(version) => {
                m.append(" has unsupported version ");
                m.append(text::to_decimal(*version as u128).as_str());
            },
            HeadError::WrongInputSize { n_in, expected_n_in } => {
                m.append(" was trained for n_in=");
                m.append(text::to_decimal(*n_in as u128).as_str());
                m.append(" but the model's embedding size is ");
                m.append(text::to_decimal(*expected_n_in as u128).as_str());
                m.append(" — wrong head for this model?");
            },
            HeadError::WrongLength { len, expected_len, n_in, n_out } => {
                m.append(" is ");
                m.append(text::to_decimal(*len as u128).as_str());
                m.append(" bytes, expected ");
                m.append(text::to_decimal(*expected_len).as_str());
                m.append(" for n_in=");
                m.append(text::to_decimal(*n_in as u128).as_str());
                m.append(" n_out=");
                m.append(text::to_decimal(*n_out as u128).as_str());
            },
        }
        m
    }
}

/// What a head holds.
pub struct HeadView {
    pub n_in: nat,
    pub n_out: nat,
    pub weights: Seq<Score>,
    pub bias: Seq<Score>,
}

impl HeadView {
    /// The sizes agree and fit the header.
    pub open spec fn wf(self) -> bool {
        &&& self.n_in <= u32::MAX
        &&& self.n_out <= u32::MAX
        &&& self.weights.len() == self.n_in * self.n_out
        &&& self.bias.len() == self.n_out
    }
}

impl View for LinearHead {
    type V = HeadView;

    closed spec fn view(&self) -> HeadView {
        HeadView {
            n_in: self.n_in as nat,
            n_out: self.n_out as nat,
            weights: self.weights@,
            bias: self.bias@,
        }
    }
}

/// Four bytes at `at`, read as a little-endian number.
pub open spec fn word_at(bytes: Seq<u8>, at: int) -> int {
    bytes[at] + 0x100 * bytes[at + 1] + 0x1_0000 * bytes[at + 2] + 0x100_0000 * bytes[at + 3]
}

/// `count` numbers from `at` on.
pub open spec fn words_from(bytes: Seq<u8>, at: int, count: nat) -> Seq<Score> {
    Seq::new(count, |i: int| Score { bits: word_at(bytes, at + 4 * i) as u32 })
}

/// The size of a head's file.
pub open spec fn file_len(n_in: nat, n_out: nat) -> nat {
    16 + (n_in * n_out + n_out) * 4
}

/// What a file says of a head for a model with this embedding size.
pub open spec fn parse(bytes: Seq<u8>, expected_n_in: nat) -> Result<HeadView, HeadError> {
    let version = word_at(bytes, 4);
    let n_in = word_at(bytes, 8) as nat;
    let n_out = word_at(bytes, 12) as nat;
    if bytes.len() < 16 {
        Err(HeadError::TooShort)
    } else if bytes.take(4) != seq![0x53u8, 0x4D, 0x48, 0x44] {
        Err(HeadError::BadMagic)
    } else if version != 1 {
        Err(HeadError::UnsupportedVersion(version as u32))
    } else if n_in != expected_n_in {
        Err(HeadError::WrongInputSize { n_in: n_in as u32, expected_n_in: expected_n_in as usize })
    } else if bytes.len() != file_len(n_in, n_out) {
        Err(
            HeadError::WrongLength {
                len: bytes.len() as usize,
                expected_len: file_len(n_in, n_out) as u128,
                n_in: n_in as u32,
                n_out: n_out as u32,
            },
        )
    } else {
        Ok(
            HeadView {
                n_in,
                n_out,
                weights: words_from(bytes, 16, n_in * n_out),
                bias: words_from(bytes, (16 + 4 * (n_in * n_out)) as int, n_out),
            },
        )
    }
}

/// Reads four bytes as a little-endian number.
fn read_word(bytes: &[u8], at: usize) -> (w: u32)
    requires
        at + 4 <= bytes@.len(),
    ensures
        w == word_at(bytes@, at as int),
{
    bytes[at] as u32 + 0x100 * (bytes[at + 1] as u32) + 0x1_0000 * (bytes[at + 2] as u32)
        + 0x100_0000 * (bytes[at + 3] as u32)
}

/// Reads `count` numbers and moves `offset` behind them.
pub fn read_f32_vec(bytes: &[u8], offset: &mut usize, count: usize) -> (out: Vec<Score>)
    requires
        *old(offset) + 4 * count <= bytes@.len(),
    ensures
        out@ == words_from(bytes@, *old(offset) as int, count as nat),
        *final(offset) == *old(offset) + 4 * count,
{
    let start: usize = *offset;
    let n: usize = bytes.len();
    let mut out: Vec<Score> = Vec::new();
    let mut i: usize = 0;
    while i < count
        invariant
            i <= count,
            n == bytes@.len(),
            start + 4 * count <= n,
            out@ == words_from(bytes@, start as int, i as nat),
        decreases count - i,
    {
        let w: u32 = read_word(bytes, start + 4 * i);
        out.push(Score { bits: w });
        assert(out@ =~= words_from(bytes@, start as int, (i + 1) as nat));
        i = i + 1;
    }
    *offset = start + 4 * count;
    out
}

impl LinearHead {
    /// The sizes agree.
    pub open spec fn wf(&self) -> bool {
        self@.wf()
    }

    /// Reads a head from the bytes of its file. `expected_n_in` is the embedding
    /// size of the model; a head for another size is refused.
    pub fn load(bytes: &[u8], expected_n_in: usize) -> (r: Result<Self, HeadError>)
        ensures
            match r {
                Ok(head) => head.wf() && parse(bytes@, expected_n_in as nat) == Ok::<
                    HeadView,
                    HeadError,
                >(head@),
                Err(e) => parse(bytes@, expected_n_in as nat) == Err::<HeadView, HeadError>(e),
            },
    {
        if bytes.len() < 16 {
            return Err(HeadError::TooShort);
        }
        proof {
            let magic = seq![0x53u8, 0x4D, 0x48, 0x44];
            if bytes@[0] == 0x53 && bytes@[1] == 0x4D && bytes@[2] == 0x48 && bytes@[3] == 0x44 {
                assert(bytes@.take(4) =~= magic);
            } else {
                assert(bytes@.take(4)[0] == bytes@[0]);
                assert(bytes@.take(4)[1] == bytes@[1]);
                assert(bytes@.take(4)[2] == bytes@[2]);
                assert(bytes@.take(4)[3] == bytes@[3]);
            }
        }
        if bytes[0] != 0x53 || bytes[1] != 0x4D || bytes[2] != 0x48 || bytes[3] != 0x44 {
            return Err(HeadError::BadMagic);
        }
        let version: u32 = read_word(bytes, 4);
        if version != 1 {
            return Err(HeadError::UnsupportedVersion(version));
        }
        let n_in: u32 = read_word(bytes, 8);
        let n_out: u32 = read_word(bytes, 12);
        if n_in as usize != expected_n_in {
            return Err(HeadError::WrongInputSize { n_in, expected_n_in });
        }
        proof {
            lemma_product_bound(n_in as nat, n_out as nat);
        }
        let weights_len: u128 = n_in as u128 * n_out as u128;
        let expected_len: u128 = 16 + (weights_len + n_out as u128) * 4;
        if bytes.len() as u128 != expected_len {
            return Err(HeadError::WrongLength { len: bytes.len(), expected_len, n_in, n_out });
        }
        let mut offset: usize = 16;
        let weights = read_f32_vec(bytes, &mut offset, weights_len as usize);
        let bias = read_f32_vec(bytes, &mut offset, n_out as usize);
        Ok(LinearHead { n_in: n_in as usize, n_out: n_out as usize, weights, bias })
    }

    /// How many inputs the head takes.
    pub fn n_in(&self) -> (n: usize)
        ensures
            n == self@.n_in,
    {
        self.n_in
    }

    /// How many outputs the head gives.
    pub fn n_out(&self) -> (n: usize)
        ensures
            n == self@.n_out,
    {
        self.n_out
    }

    /// The weights and the bias of output `o`: the output is the dot product of
    /// the input with the former, plus the latter.
    pub fn row(&self, o: usize) -> (r: (&[Score], Score))
        requires
            self.wf(),
            o < self@.n_out,
        ensures
            r.0@ == self@.weights.subrange(
                o * self@.n_in,
                o * self@.n_in + self@.n_in,
            ),
            r.0@.len() == self@.n_in,
            r.1 == self@.bias[o as int],
    {
        proof {
            lemma_row_bound(self.n_in as int, self.n_out as int, o as int);
        }
        let len: usize = self.weights.len();
        assert(len == self.n_in * self.n_out);
        let start: usize = o * self.n_in;
        (slice_subrange(self.weights.as_slice(), start, start + self.n_in), self.bias[o])
    }
}

proof fn lemma_product_bound(a: nat, b: nat)
    requires
        a <= u32::MAX,
        b <= u32::MAX,
    ensures
        a * b <= 0xFFFF_FFFF * 0xFFFF_FFFF,
{
    assert(a * b <= 0xFFFF_FFFF * 0xFFFF_FFFF) by (nonlinear_arith)
        requires
            0 <= a <= 0xFFFF_FFFF,
            0 <= b <= 0xFFFF_FFFF,
    ;
}

proof fn lemma_row_bound(n_in: int, n_out: int, o: int)
    requires
        0 <= o < n_out,
        0 <= n_in,
    ensures
        0 <= o * n_in,
        o * n_in + n_in <= n_in * n_out,
{
    assert(0 <= o * n_in && o * n_in + n_in <= n_in * n_out) by (nonlinear_arith)
        requires
            0 <= o < n_out,
            0 <= n_in,
    ;
}

/// A number as four bytes, little endian.
pub open spec fn word_bytes(w: int) -> Seq<u8> {
    seq![
        (w % 0x100) as u8,
        (w / 0x100 % 0x100) as u8,
        (w / 0x1_0000 % 0x100) as u8,
        (w / 0x100_0000 % 0x100) as u8,
    ]
}

/// Numbers, one behind the other.
pub open spec fn words_bytes(words: Seq<Score>) -> Seq<u8>
    decreases words.len(),
{
    if words.len() == 0 {
        Seq::empty()
    } else {
        words_bytes(words.drop_last()) + word_bytes(words.last().bits as int)
    }
}

/// The file of a head.
pub open spec fn encode(head: HeadView) -> Seq<u8> {
    seq![0x53u8, 0x4D, 0x48, 0x44] + word_bytes(1) + word_bytes(head.n_in as int) + word_bytes(
        head.n_out as int,
    ) + words_bytes(head.weights) + words_bytes(head.bias)
}

/// A head that was written is read back as it was.
pub proof fn parse_reads_back_encode(head: HeadView)
    requires
        head.wf(),
    ensures
        parse(encode(head), head.n_in) == Ok::<HeadView, HeadError>(head),
{
    let bytes = encode(head);
    let n_weights = head.n_in * head.n_out;
    lemma_encode_parts(head);
    lemma_words_len(head.weights);
    lemma_words_len(head.bias);
    lemma_word_at(bytes, 4, 1);
    lemma_word_at(bytes, 8, head.n_in as int);
    lemma_word_at(bytes, 12, head.n_out as int);
    lemma_words_read_back(bytes, 16, head.weights);
    lemma_words_read_back(bytes, (16 + 4 * n_weights) as int, head.bias);
}

/// Where the parts of a head's file stand.
proof fn lemma_encode_parts(head: HeadView)
    requires
        head.wf(),
    ensures
        ({
            let bytes = encode(head);
            let from_bias = 16 + 4 * head.weights.len() as int;
            &&& bytes.len() == from_bias + 4 * head.bias.len()
            &&& bytes.take(4) == seq![0x53u8, 0x4D, 0x48, 0x44]
            &&& bytes.subrange(4, 8) == word_bytes(1)
            &&& bytes.subrange(8, 12) == word_bytes(head.n_in as int)
            &&& bytes.subrange(12, 16) == word_bytes(head.n_out as int)
            &&& bytes.subrange(16, from_bias) == words_bytes(head.weights)
            &&& bytes.subrange(from_bias, bytes.len() as int) == words_bytes(head.bias)
        }),
{
    let magic = seq![0x53u8, 0x4D, 0x48, 0x44];
    let v = word_bytes(1);
    let i = word_bytes(head.n_in as int);
    let o = word_bytes(head.n_out as int);
    let w = words_bytes(head.weights);
    let b = words_bytes(head.bias);
    let bytes = encode(head);
    lemma_words_len(head.weights);
    lemma_words_len(head.bias);
    assert(bytes == magic + v + i + o + w + b);
    let from_bias = 16 + w.len() as int;
    assert(bytes.take(4) =~= magic);
    assert(bytes.subrange(4, 8) =~= v);
    assert(bytes.subrange(8, 12) =~= i);
    assert(bytes.subrange(12, 16) =~= o);
    assert(bytes.subrange(16, from_bias) =~= w);
    assert(bytes.subrange(from_bias, bytes.len() as int) =~= b);
}

/// A file that is accepted is exactly the one that writing the head gives.
pub proof fn encode_gives_back_what_was_parsed(bytes: Seq<u8>, expected_n_in: nat)
    requires
        parse(bytes, expected_n_in) is Ok,
    ensures
        parse(bytes, expected_n_in).unwrap().wf(),
        encode(parse(bytes, expected_n_in).unwrap()) == bytes,
{
    let head = parse(bytes, expected_n_in).unwrap();
    let n_weights = head.n_in * head.n_out;
    let from_bias = (16 + 4 * n_weights) as int;
    lemma_bytes_of_word(bytes, 4);
    lemma_bytes_of_word(bytes, 8);
    lemma_bytes_of_word(bytes, 12);
    lemma_bytes_of_words(bytes, 16, n_weights);
    lemma_bytes_of_words(bytes, from_bias, head.n_out);
    lemma_encode_parts(head);
    let written = encode(head);
    assert(written.len() == bytes.len());
    assert forall|i: int| 0 <= i < bytes.len() implies written[i] == bytes[i] by {
        if i < 4 {
            assert(written.take(4)[i] == bytes.take(4)[i]);
        } else if i < 8 {
            assert(written.subrange(4, 8)[i - 4] == bytes.subrange(4, 8)[i - 4]);
        } else if i < 12 {
            assert(written.subrange(8, 12)[i - 8] == bytes.subrange(8, 12)[i - 8]);
        } else if i < 16 {
            assert(written.subrange(12, 16)[i - 12] == bytes.subrange(12, 16)[i - 12]);
        } else if i < from_bias {
            assert(written.subrange(16, from_bias)[i - 16] == bytes.subrange(16, from_bias)[i - 16]);
        } else {
            let n = bytes.len() as int;
            assert(written.subrange(from_bias, n)[i - from_bias] == bytes.subrange(
                from_bias,
                n,
            )[i - from_bias]);
        }
    }
    assert(written =~= bytes);
}

proof fn lemma_bytes_of_word(bytes: Seq<u8>, at: int)
    requires
        0 <= at,
        at + 4 <= bytes.len(),
    ensures
        0 <= word_at(bytes, at) <= u32::MAX,
        word_bytes(word_at(bytes, at)) == bytes.subrange(at, at + 4),
{
    lemma_split_word(
        bytes[at] as int,
        bytes[at + 1] as int,
        bytes[at + 2] as int,
        bytes[at + 3] as int,
    );
    let written = word_bytes(word_at(bytes, at));
    let part = bytes.subrange(at, at + 4);
    assert(written[0] == part[0]);
    assert(written[1] == part[1]);
    assert(written[2] == part[2]);
    assert(written[3] == part[3]);
    assert(written =~= part);
}

proof fn lemma_split_word(a: int, b: int, c: int, d: int)
    requires
        0 <= a < 0x100,
        0 <= b < 0x100,
        0 <= c < 0x100,
        0 <= d < 0x100,
    ensures
        ({
            let w = a + 0x100 * b + 0x1_0000 * c + 0x100_0000 * d;
            &&& 0 <= w <= u32::MAX
            &&& w % 0x100 == a
            &&& w / 0x100 % 0x100 == b
            &&& w / 0x1_0000 % 0x100 == c
            &&& w / 0x100_0000 % 0x100 == d
        }),
{
    let w = a + 0x100 * b + 0x1_0000 * c + 0x100_0000 * d;
    let w1 = b + 0x100 * c + 0x1_0000 * d;
    let w2 = c + 0x100 * d;
    lemma_low_digit(w, w1, a);
    lemma_low_digit(w1, w2, b);
    lemma_low_digit(w2, d, c);
    lemma_low_digit(d, 0, d);
    assert(w / 0x1_0000 == w / 0x100 / 0x100) by (nonlinear_arith)
        requires
            w >= 0,
    ;
    assert(w / 0x100_0000 == w / 0x1_0000 / 0x100) by (nonlinear_arith)
        requires
            w >= 0,
    ;
}

/// The lowest byte of a number, and what is left above it.
proof fn lemma_low_digit(w: int, high: int, low: int)
    requires
        w == 0x100 * high + low,
        0 <= low < 0x100,
    ensures
        w % 0x100 == low,
        w / 0x100 == high,
{
}

proof fn lemma_bytes_of_words(bytes: Seq<u8>, at: int, count: nat)
    requires
        0 <= at,
        at + 4 * count <= bytes.len(),
    ensures
        words_bytes(words_from(bytes, at, count)) == bytes.subrange(at, at + 4 * count),
    decreases count,
{
    let words = words_from(bytes, at, count);
    if count > 0 {
        let n = (count - 1) as nat;
        lemma_bytes_of_words(bytes, at, n);
        lemma_bytes_of_word(bytes, at + 4 * n);
        assert(words.drop_last() =~= words_from(bytes, at, n));
        assert(bytes.subrange(at, at + 4 * count) =~= bytes.subrange(at, at + 4 * n)
            + bytes.subrange(at + 4 * n, at + 4 * n + 4));
    }
    assert(words_bytes(words) =~= bytes.subrange(at, at + 4 * count));
}

proof fn lemma_words_len(words: Seq<Score>)
    ensures
        words_bytes(words).len() == 4 * words.len(),
    decreases words.len(),
{
    if words.len() > 0 {
        lemma_words_len(words.drop_last());
    }
}

proof fn lemma_word_at(bytes: Seq<u8>, at: int, w: int)
    requires
        0 <= w <= u32::MAX,
        0 <= at,
        at + 4 <= bytes.len(),
        bytes.subrange(at, at + 4) == word_bytes(w),
    ensures
        word_at(bytes, at) == w,
{
    let part = bytes.subrange(at, at + 4);
    assert(part[0] == bytes[at]);
    assert(part[1] == bytes[at + 1]);
    assert(part[2] == bytes[at + 2]);
    assert(part[3] == bytes[at + 3]);
}

proof fn lemma_words_read_back(bytes: Seq<u8>, at: int, words: Seq<Score>)
    requires
        0 <= at,
        at + words_bytes(words).len() <= bytes.len(),
        bytes.subrange(at, at + words_bytes(words).len()) == words_bytes(words),
    ensures
        words_from(bytes, at, words.len()) == words,
    decreases words.len(),
{
    lemma_words_len(words);
    if words.len() > 0 {
        let short = words.drop_last();
        let last = words.last().bits as int;
        let n = short.len() as int;
        lemma_words_len(short);
        let all = words_bytes(words);
        assert(bytes.subrange(at, at + 4 * n) =~= words_bytes(short)) by {
            assert(all.subrange(0, 4 * n) =~= words_bytes(short));
            assert(bytes.subrange(at, at + all.len()).subrange(0, 4 * n) =~= bytes.subrange(
                at,
                at + 4 * n,
            ));
        }
        lemma_words_read_back(bytes, at, short);
        assert(bytes.subrange(at + 4 * n, at + 4 * n + 4) =~= word_bytes(last)) by {
            assert(all.subrange(4 * n, 4 * n + 4) =~= word_bytes(last));
            assert(bytes.subrange(at, at + all.len()).subrange(4 * n, 4 * n + 4)
                =~= bytes.subrange(at + 4 * n, at + 4 * n + 4));
        }
        lemma_word_at(bytes, at + 4 * n, last);
        assert forall|i: int| 0 <= i < words.len() implies words_from(
            bytes,
            at,
            words.len(),
        )[i] == words[i] by {
            if i < n {
                assert(words_from(bytes, at, short.len())[i] == short[i]);
            }
        }
    }
    assert(words_from(bytes, at, words.len()) =~= words);
}

/// What the bytes of a file mean, one by one: the four of the magic, then numbers of
/// four bytes with the lowest first, which are the version, the two sizes, the weights
/// row by row and the bias. Every other file is refused, for the first reason that holds.
#[verifier::spinoff_prover]
pub proof fn file_is_read_byte_by_byte(bytes: Seq<u8>, expected_n_in: nat)
    requires
        bytes.len() <= usize::MAX,
        expected_n_in <= usize::MAX,
    ensures
        ({
            let word = |at: int|
                bytes[at] + 256 * bytes[at + 1] + 65536 * bytes[at + 2] + 16777216 * bytes[at + 3];
            let magic = bytes[0] == 0x53 && bytes[1] == 0x4D && bytes[2] == 0x48 && bytes[3]
                == 0x44;
            let n_in = word(8);
            let n_out = word(12);
            let size = 16 + 4 * (n_in * n_out) + 4 * n_out;
            let r = parse(bytes, expected_n_in);
            &&& bytes.len() < 16 <==> r == Err::<HeadView, HeadError>(HeadError::TooShort)
            &&& bytes.len() >= 16 ==> {
                &&& !magic <==> r == Err::<HeadView, HeadError>(HeadError::BadMagic)
                &&& magic && word(4) != 1 ==> (r matches Err(
                    HeadError::UnsupportedVersion(v),
                ) && v == word(4))
                &&& magic && word(4) == 1 && n_in != expected_n_in ==> (r matches Err(
                    HeadError::WrongInputSize { n_in: a, expected_n_in: b },
                ) && a == n_in && b == expected_n_in)
                &&& magic && word(4) == 1 && n_in == expected_n_in && bytes.len() != size ==> (
                r matches Err(HeadError::WrongLength { len, expected_len, n_in: a, n_out: b })
                    && len == bytes.len() && expected_len == size && a == n_in && b == n_out)
                &&& magic && word(4) == 1 && n_in == expected_n_in && bytes.len() == size ==> (
                r matches Ok(head) && {
                    &&& head.n_in == n_in
                    &&& head.n_out == n_out
                    &&& head.weights.len() == n_in * n_out
                    &&& head.bias.len() == n_out
                    &&& forall|i: int|
                        0 <= i < head.weights.len() ==> (#[trigger] head.weights[i]).bits
                            == word(16 + 4 * i)
                    &&& forall|o: int|
                        0 <= o < head.bias.len() ==> (#[trigger] head.bias[o]).bits == word(
                            16 + 4 * (n_in * n_out) + 4 * o,
                        )
                })
            }
        }),
{
    if bytes.len() >= 16 {
        let magic = seq![0x53u8, 0x4D, 0x48, 0x44];
        let first = bytes.take(4);
        assert(first[0] == bytes[0] && first[1] == bytes[1] && first[2] == bytes[2] && first[3]
            == bytes[3]);
        if bytes[0] == 0x53 && bytes[1] == 0x4D && bytes[2] == 0x48 && bytes[3] == 0x44 {
            assert(first =~= magic);
        }
        let n_in = word_at(bytes, 8) as nat;
        let n_out = word_at(bytes, 12) as nat;
        lemma_bytes_of_word(bytes, 4);
        lemma_bytes_of_word(bytes, 8);
        lemma_bytes_of_word(bytes, 12);
        lemma_product_bound(n_in, n_out);
        if let Ok(head) = parse(bytes, expected_n_in) {
            assert forall|i: int| 0 <= i < head.weights.len() implies (
            #[trigger] head.weights[i]).bits == word_at(bytes, 16 + 4 * i) by {
                lemma_bytes_of_word(bytes, 16 + 4 * i);
            }
            let from = 16 + 4 * (n_in * n_out) as int;
            assert forall|o: int| 0 <= o < head.bias.len() implies (#[trigger] head.bias[o]).bits
                == word_at(bytes, from + 4 * o) by {
                lemma_bytes_of_word(bytes, from + 4 * o);
            }
        }
    }
}

/// Every refusal names the file and then says what is wrong with it.
pub proof fn refusals_name_the_file(e: HeadError, path: Seq<char>)
    ensures
        text::has_prefix(e.describes(path), "linear head file "@ + path),
        e is TooShort ==> e.describes(path) == "linear head file "@ + path
            + " is too short to contain a header"@,
        e is BadMagic ==> e.describes(path) == "linear head file "@ + path
            + " has bad magic (not an SMHD file)"@,
        e matches HeadError::UnsupportedVersion(v) ==> e.describes(path) == "linear head file "@
            + path + " has unsupported version "@ + text::decimal(v as nat),
        e matches HeadError::WrongInputSize { n_in, expected_n_in } ==> e.describes(path)
            == "linear head file "@ + path + " was trained for n_in="@ + text::decimal(n_in as nat)
            + " but the model's embedding size is "@ + text::decimal(expected_n_in as nat)
            + " — wrong head for this model?"@,
        e matches HeadError::WrongLength { len, expected_len, n_in, n_out } ==> e.describes(path)
            == "linear head file "@ + path + " is "@ + text::decimal(len as nat)
            + " bytes, expected "@ + text::decimal(expected_len as nat) + " for n_in="@
            + text::decimal(n_in as nat) + " n_out="@ + text::decimal(n_out as nat),
{
    let file = "linear head file "@ + path;
    assert(e.describes(path).take(file.len() as int) =~= file);
}

}
