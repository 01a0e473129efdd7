//! Object ids: the names by which a repository knows its commits, trees and blobs.

use vstd::prelude::*;

verus! {

/// A 160-bit object id, held as five big-endian words.
#[derive(Clone, Copy, PartialEq, Eq, Structural, Debug)]
pub struct Oid {
    pub w0: u32,
    pub w1: u32,
    pub w2: u32,
    pub w3: u32,
    pub w4: u32,
}

/// The four bytes of a word, most significant first.
pub open spec fn word_bytes(w: u32) -> Seq<u8> {
    seq![
        (w >> 24) as u8,
        (w >> 16) as u8,
        (w >> 8) as u8,
        w as u8,
    ]
}

/// The lower-case hexadecimal digit for `n`.
pub open spec fn hex_digit(n: int) -> char
    recommends
        0 <= n < 16,
{
    if n < 10 {
        (48 + n) as char
    } else {
        (87 + n) as char
    }
}

/// A word written as eight hexadecimal digits.
pub open spec fn word_hex(w: u32) -> Seq<char> {
    seq![
        hex_digit(w as int / 0x1000_0000),
        hex_digit(w as int / 0x100_0000 % 16),
        hex_digit(w as int / 0x10_0000 % 16),
        hex_digit(w as int / 0x1_0000 % 16),
        hex_digit(w as int / 0x1000 % 16),
        hex_digit(w as int / 0x100 % 16),
        hex_digit(w as int / 0x10 % 16),
        hex_digit(w as int % 16),
    ]
}

fn digit(n: u32) -> (c: char)
    requires
        n < 16,
    ensures
        c == hex_digit(n as int),
{
    if n < 10 {
        (48 + n) as u8 as char
    } else {
        (87 + n) as u8 as char
    }
}

impl Oid {
    /// The id's twenty bytes.
    pub open spec fn spec_bytes(self) -> Seq<u8> {
        word_bytes(self.w0) + word_bytes(self.w1) + word_bytes(self.w2) + word_bytes(self.w3)
            + word_bytes(self.w4)
    }

    /// The abbreviation shown to people: the first eight hexadecimal digits.
    pub open spec fn spec_short(self) -> Seq<char> {
        word_hex(self.w0)
    }

    /// All forty hexadecimal digits.
    pub open spec fn spec_hex(self) -> Seq<char> {
        word_hex(self.w0) + word_hex(self.w1) + word_hex(self.w2) + word_hex(self.w3) + word_hex(
            self.w4,
        )
    }

    /// The order of the bytes, compared one after another.
    pub open spec fn before(self, other: Oid) -> bool {
        ||| self.w0 < other.w0
        ||| self.w0 == other.w0 && {
            ||| self.w1 < other.w1
            ||| self.w1 == other.w1 && {
                ||| self.w2 < other.w2
                ||| self.w2 == other.w2 && (self.w3 < other.w3 || self.w3 == other.w3 && self.w4
                    < other.w4)
            }
        }
    }

    /// The id that names nothing.
    pub open spec fn spec_zero() -> Oid {
        Oid { w0: 0, w1: 0, w2: 0, w3: 0, w4: 0 }
    }

    #[verifier::when_used_as_spec(spec_zero)]
    pub fn zero() -> (o: Oid)
        ensures
            o == Oid::spec_zero(),
    {
        Oid { w0: 0, w1: 0, w2: 0, w3: 0, w4: 0 }
    }

    /// The id with these twenty bytes; `None` for any other length.
    pub fn from_bytes(b: &[u8]) -> (r: Option<Oid>)
        ensures
            r is Some <==> b@.len() == 20,
            r matches Some(o) ==> o.spec_bytes() == b@,
    {
        if b.len() != 20 {
            return None;
        }
        let o = Oid {
            w0: word(b[0], b[1], b[2], b[3]),
            w1: word(b[4], b[5], b[6], b[7]),
            w2: word(b[8], b[9], b[10], b[11]),
            w3: word(b[12], b[13], b[14], b[15]),
            w4: word(b[16], b[17], b[18], b[19]),
        };
        assert(o.spec_bytes() =~= b@);
        Some(o)
    }

    /// The id's twenty bytes.
    pub fn bytes(&self) -> (v: Vec<u8>)
        ensures
            v@ == self.spec_bytes(),
    {
        let mut v: Vec<u8> = Vec::new();
        push_word(&mut v, self.w0);
        push_word(&mut v, self.w1);
        push_word(&mut v, self.w2);
        push_word(&mut v, self.w3);
        push_word(&mut v, self.w4);
        v
    }

    /// The abbreviation shown to people.
    pub fn short(&self) -> (s: String)
        ensures
            s@ == self.spec_short(),
    {
        let mut s = String::new();
        push_hex(&mut s, self.w0);
        assert(s@ =~= self.spec_short());
        s
    }

    /// All forty hexadecimal digits.
    pub fn hex(&self) -> (s: String)
        ensures
            s@ == self.spec_hex(),
    {
        let mut s = String::new();
        push_hex(&mut s, self.w0);
        push_hex(&mut s, self.w1);
        push_hex(&mut s, self.w2);
        push_hex(&mut s, self.w3);
        push_hex(&mut s, self.w4);
        assert(s@ =~= self.spec_hex());
        s
    }

    /// Does this id come before `other` in byte order?
    pub fn is_before(&self, other: &Oid) -> (b: bool)
        ensures
            b == self.before(*other),
    {
        self.w0 < other.w0 || (self.w0 == other.w0 && (self.w1 < other.w1 || (self.w1 == other.w1
            && (self.w2 < other.w2 || (self.w2 == other.w2 && (self.w3 < other.w3 || (self.w3
            == other.w3 && self.w4 < other.w4)))))))
    }
}

fn word(a: u8, b: u8, c: u8, d: u8) -> (w: u32)
    ensures
        word_bytes(w) == seq![a, b, c, d],
{
    let w: u32 = ((a as u32) << 24) | ((b as u32) << 16) | ((c as u32) << 8) | (d as u32);
    assert((w >> 24) as u8 == a && (w >> 16) as u8 == b && (w >> 8) as u8 == c && w as u8 == d) by (bit_vector)
        requires
            w == ((a as u32) << 24) | ((b as u32) << 16) | ((c as u32) << 8) | (d as u32),
    ;
    assert(word_bytes(w) =~= seq![a, b, c, d]);
    w
}

/// A word is determined by its bytes.
proof fn lemma_word_of_bytes(x: u32, y: u32)
    requires
        word_bytes(x) == word_bytes(y),
    ensures
        x == y,
{
    assert(word_bytes(x)[0] == word_bytes(y)[0] && word_bytes(x)[1] == word_bytes(y)[1]
        && word_bytes(x)[2] == word_bytes(y)[2] && word_bytes(x)[3] == word_bytes(y)[3]);
    assert(x == y) by (bit_vector)
        requires
            (x >> 24) as u8 == (y >> 24) as u8,
            (x >> 16) as u8 == (y >> 16) as u8,
            (x >> 8) as u8 == (y >> 8) as u8,
            x as u8 == y as u8,
    ;
}

fn push_word(v: &mut Vec<u8>, w: u32)
    ensures
        final(v)@ == old(v)@ + word_bytes(w),
{
    v.push((w >> 24) as u8);
    v.push((w >> 16) as u8);
    v.push((w >> 8) as u8);
    v.push(w as u8);
    assert(v@ =~= old(v)@ + word_bytes(w));
}

fn push_hex(s: &mut String, w: u32)
    ensures
        final(s)@ == old(s)@ + word_hex(w),
{
    s.push(digit(w / 0x1000_0000));
    s.push(digit(w / 0x100_0000 % 16));
    s.push(digit(w / 0x10_0000 % 16));
    s.push(digit(w / 0x1_0000 % 16));
    s.push(digit(w / 0x1000 % 16));
    s.push(digit(w / 0x100 % 16));
    s.push(digit(w / 0x10 % 16));
    s.push(digit(w % 16));
    assert(s@ =~= old(s)@ + word_hex(w));
}

/// Reading an id back from its own bytes gives the same id, and no two ids
/// share their bytes.
pub proof fn bytes_name_the_id(a: Oid, b: Oid)
    ensures
        a.spec_bytes().len() == 20,
        a.spec_bytes() == b.spec_bytes() ==> a == b,
{
    if a.spec_bytes() == b.spec_bytes() {
        let x = a.spec_bytes();
        let y = b.spec_bytes();
        assert(word_bytes(a.w0) =~= x.subrange(0, 4) && word_bytes(b.w0) =~= y.subrange(0, 4));
        assert(word_bytes(a.w1) =~= x.subrange(4, 8) && word_bytes(b.w1) =~= y.subrange(4, 8));
        assert(word_bytes(a.w2) =~= x.subrange(8, 12) && word_bytes(b.w2) =~= y.subrange(8, 12));
        assert(word_bytes(a.w3) =~= x.subrange(12, 16) && word_bytes(b.w3) =~= y.subrange(12, 16));
        assert(word_bytes(a.w4) =~= x.subrange(16, 20) && word_bytes(b.w4) =~= y.subrange(16, 20));
        lemma_word_of_bytes(a.w0, b.w0);
        lemma_word_of_bytes(a.w1, b.w1);
        lemma_word_of_bytes(a.w2, b.w2);
        lemma_word_of_bytes(a.w3, b.w3);
        lemma_word_of_bytes(a.w4, b.w4);
    }
}

/// The byte order is a strict total order.
pub proof fn order_is_total(a: Oid, b: Oid, c: Oid)
    ensures
        !a.before(a),
        a.before(b) || b.before(a) || a == b,
        a.before(b) ==> !b.before(a),
        a.before(b) && b.before(c) ==> a.before(c),
{
}

/// The value of a lower-case hexadecimal digit.
pub open spec fn digit_value(c: char) -> int {
    if '0' <= c <= '9' {
        c as int - '0' as int
    } else {
        c as int - 'a' as int + 10
    }
}

/// The byte `b` is written as the two lower-case digits `c` and `d`.
pub open spec fn spells(b: u8, c: char, d: char) -> bool {
    &&& '0' <= c <= '9' || 'a' <= c <= 'f'
    &&& '0' <= d <= '9' || 'a' <= d <= 'f'
    &&& b == 16 * digit_value(c) + digit_value(d)
}

/// An id is written as its bytes are: two lower-case digits for each, the higher one
/// first. The abbreviation is the first eight of the digits.
#[verifier::rlimit(40)]
#[verifier::spinoff_prover]
pub proof fn the_digits_spell_the_bytes(o: Oid)
    ensures
        o.spec_hex().len() == 40,
        o.spec_short() == o.spec_hex().take(8),
        forall|i: int|
            0 <= i < 20 ==> spells(
                #[trigger] o.spec_bytes()[i],
                o.spec_hex()[2 * i],
                o.spec_hex()[2 * i + 1],
            ),
{
    let (h, b) = (o.spec_hex(), o.spec_bytes());
    lemma_word_spells(o.w0);
    lemma_word_spells(o.w1);
    lemma_word_spells(o.w2);
    lemma_word_spells(o.w3);
    lemma_word_spells(o.w4);
    lemma_spelled(
        seq![word_bytes(o.w0), word_bytes(o.w1), word_bytes(o.w2), word_bytes(o.w3), word_bytes(o.w4)],
        seq![word_hex(o.w0), word_hex(o.w1), word_hex(o.w2), word_hex(o.w3), word_hex(o.w4)],
        b,
        h,
    );
}

/// The four bytes are written as the eight digits.
#[verifier::opaque]
spec fn word_spelled(b: Seq<u8>, h: Seq<char>) -> bool {
    &&& b.len() == 4
    &&& h.len() == 8
    &&& spells(b[0], h[0], h[1])
    &&& spells(b[1], h[2], h[3])
    &&& spells(b[2], h[4], h[5])
    &&& spells(b[3], h[6], h[7])
}

#[verifier::rlimit(40)]
proof fn lemma_spelled(bs: Seq<Seq<u8>>, hs: Seq<Seq<char>>, b: Seq<u8>, h: Seq<char>)
    requires
        bs.len() == 5,
        hs.len() == 5,
        forall|x: int| 0 <= x < 5 ==> #[trigger] word_spelled(bs[x], hs[x]),
        b == bs[0] + bs[1] + bs[2] + bs[3] + bs[4],
        h == hs[0] + hs[1] + hs[2] + hs[3] + hs[4],
    ensures
        h.len() == 40,
        hs[0] == h.take(8),
        forall|i: int| 0 <= i < 20 ==> spells(#[trigger] b[i], h[2 * i], h[2 * i + 1]),
{
    reveal(word_spelled);
    assert(word_spelled(bs[0], hs[0]) && word_spelled(bs[1], hs[1]) && word_spelled(bs[2], hs[2])
        && word_spelled(bs[3], hs[3]) && word_spelled(bs[4], hs[4]));
    assert(hs[0] =~= h.take(8));
    assert forall|i: int| 0 <= i < 20 implies spells(#[trigger] b[i], h[2 * i], h[2 * i + 1]) by {
        let x = i / 4;
        let j = i - 4 * x;
        assert(word_spelled(bs[x], hs[x]));
        assert(b[i] == bs[x][j]);
        assert(h[2 * i] == hs[x][2 * j]);
        assert(h[2 * i + 1] == hs[x][2 * j + 1]);
    }
}

proof fn lemma_digits(b: u8, hi: int, lo: int)
    requires
        0 <= hi < 16,
        0 <= lo < 16,
        b == 16 * hi + lo,
    ensures
        spells(b, hex_digit(hi), hex_digit(lo)),
{
}

#[verifier::rlimit(40)]
#[verifier::spinoff_prover]
proof fn lemma_word_spells(w: u32)
    ensures
        word_spelled(word_bytes(w), word_hex(w)),
{
    reveal(word_spelled);
    assert(((w >> 24) as u8) as int == 16 * (w / 0x1000_0000) + w / 0x100_0000 % 16) by (bit_vector);
    assert(((w >> 16) as u8) as int == 16 * (w / 0x10_0000 % 16) + w / 0x1_0000 % 16) by (bit_vector);
    assert(((w >> 8) as u8) as int == 16 * (w / 0x1000 % 16) + w / 0x100 % 16) by (bit_vector);
    assert((w as u8) as int == 16 * (w / 0x10 % 16) + w % 16) by (bit_vector);
    lemma_digits((w >> 24) as u8, w as int / 0x1000_0000, w as int / 0x100_0000 % 16);
    lemma_digits((w >> 16) as u8, w as int / 0x10_0000 % 16, w as int / 0x1_0000 % 16);
    lemma_digits((w >> 8) as u8, w as int / 0x1000 % 16, w as int / 0x100 % 16);
    lemma_digits(w as u8, w as int / 0x10 % 16, w as int % 16);
}

/// The order of two ids is that of the first byte in which they differ.
pub proof fn the_first_difference_orders(a: Oid, b: Oid, i: int)
    requires
        0 <= i < 20,
        forall|j: int| 0 <= j < i ==> #[trigger] a.spec_bytes()[j] == b.spec_bytes()[j],
        a.spec_bytes()[i] < b.spec_bytes()[i],
    ensures
        a.before(b),
{
    let x = a.spec_bytes();
    let y = b.spec_bytes();
    assert(x.subrange(0, 4) =~= word_bytes(a.w0) && y.subrange(0, 4) =~= word_bytes(b.w0));
    assert(x.subrange(4, 8) =~= word_bytes(a.w1) && y.subrange(4, 8) =~= word_bytes(b.w1));
    assert(x.subrange(8, 12) =~= word_bytes(a.w2) && y.subrange(8, 12) =~= word_bytes(b.w2));
    assert(x.subrange(12, 16) =~= word_bytes(a.w3) && y.subrange(12, 16) =~= word_bytes(b.w3));
    assert(x.subrange(16, 20) =~= word_bytes(a.w4) && y.subrange(16, 20) =~= word_bytes(b.w4));
    let j = i % 4;
    if i >= 4 {
        assert(word_bytes(a.w0) =~= word_bytes(b.w0)) by {
            assert(x[0] == y[0] && x[1] == y[1] && x[2] == y[2] && x[3] == y[3]);
        }
        lemma_word_of_bytes(a.w0, b.w0);
    }
    if i >= 8 {
        assert(word_bytes(a.w1) =~= word_bytes(b.w1)) by {
            assert(x[4] == y[4] && x[5] == y[5] && x[6] == y[6] && x[7] == y[7]);
        }
        lemma_word_of_bytes(a.w1, b.w1);
    }
    if i >= 12 {
        assert(word_bytes(a.w2) =~= word_bytes(b.w2)) by {
            assert(x[8] == y[8] && x[9] == y[9] && x[10] == y[10] && x[11] == y[11]);
        }
        lemma_word_of_bytes(a.w2, b.w2);
    }
    if i >= 16 {
        assert(word_bytes(a.w3) =~= word_bytes(b.w3)) by {
            assert(x[12] == y[12] && x[13] == y[13] && x[14] == y[14] && x[15] == y[15]);
        }
        lemma_word_of_bytes(a.w3, b.w3);
    }
    let (v, w) = if i < 4 {
        (a.w0, b.w0)
    } else if i < 8 {
        (a.w1, b.w1)
    } else if i < 12 {
        (a.w2, b.w2)
    } else if i < 16 {
        (a.w3, b.w3)
    } else {
        (a.w4, b.w4)
    };
    assert(word_bytes(v)[j] == x[i] && word_bytes(w)[j] == y[i]);
    assert(j > 0 ==> word_bytes(v)[0] == word_bytes(w)[0]) by {
        assert(x[i - j] == word_bytes(v)[0] && y[i - j] == word_bytes(w)[0]);
    }
    assert(j > 1 ==> word_bytes(v)[1] == word_bytes(w)[1]) by {
        assert(x[i - j + 1] == word_bytes(v)[1] && y[i - j + 1] == word_bytes(w)[1]);
    }
    assert(j > 2 ==> word_bytes(v)[2] == word_bytes(w)[2]) by {
        assert(x[i - j + 2] == word_bytes(v)[2] && y[i - j + 2] == word_bytes(w)[2]);
    }
    lemma_word_order(v, w, j);
}

proof fn lemma_word_order(v: u32, w: u32, j: int)
    requires
        0 <= j < 4,
        forall|i: int| 0 <= i < j ==> #[trigger] word_bytes(v)[i] == word_bytes(w)[i],
        word_bytes(v)[j] < word_bytes(w)[j],
    ensures
        v < w,
{
    let (a, b, c, d): (u8, u8, u8, u8) = ((v >> 24) as u8, (v >> 16) as u8, (v >> 8) as u8, v as u8);
    let (e, f, g, h): (u8, u8, u8, u8) = ((w >> 24) as u8, (w >> 16) as u8, (w >> 8) as u8, w as u8);
    assert(word_bytes(v) =~= seq![a, b, c, d]);
    assert(word_bytes(w) =~= seq![e, f, g, h]);
    assert(j > 0 ==> word_bytes(v)[0] == word_bytes(w)[0]);
    assert(j > 1 ==> word_bytes(v)[1] == word_bytes(w)[1]);
    assert(j > 2 ==> word_bytes(v)[2] == word_bytes(w)[2]);
    assert(v < w) by (bit_vector)
        requires
            a == (v >> 24) as u8,
            b == (v >> 16) as u8,
            c == (v >> 8) as u8,
            d == v as u8,
            e == (w >> 24) as u8,
            f == (w >> 16) as u8,
            g == (w >> 8) as u8,
            h == w as u8,
            a < e || (a == e && (b < f || (b == f && (c < g || (c == g && d < h))))),
    ;
}

} // verus!
