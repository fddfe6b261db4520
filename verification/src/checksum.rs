//! Checksumming of file content.
//!
//! A file's bytes are streamed through a fixed-size buffer into an MD5
//! context; the resulting 16-byte digest identifies the content. The hash
//! itself is computed by the `md5` crate behind trusted wrappers; the
//! chunking loop and everything downstream of the digest is verified.

use vstd::prelude::*;
use vstd::slice::slice_subrange;

verus! {

/// Size of the buffer that file content is streamed through while hashing.
pub const CHECKSUM_READ_BUFFER_SIZE: usize = 8192;

/// The MD5 digest of a byte stream. The digest is a pure function of the
/// bytes alone; its 16-byte value is not spelled out here.
pub uninterp spec fn md5_of(bytes: Seq<u8>) -> Seq<u8>;

/// The bytes that an MD5 context has consumed so far.
pub uninterp spec fn md5_fed(ctx: md5::Context) -> Seq<u8>;

#[verifier::external_type_specification]
#[verifier::external_body]
pub struct ExMd5Context(md5::Context);

/// Relies on md5::Context::new: a fresh context has consumed nothing.
#[verifier::external_body]
fn md5_context_new() -> (ctx: md5::Context)
    ensures
        md5_fed(ctx) == Seq::<u8>::empty(),
{
    md5::Context::new()
}

/// Relies on md5::Context::consume: the data is appended to the stream
/// being hashed.
#[verifier::external_body]
fn md5_context_consume(ctx: &mut md5::Context, data: &[u8])
    ensures
        md5_fed(*final(ctx)) == md5_fed(*old(ctx)) + data@,
{
    ctx.consume(data);
}

/// Relies on md5::Context::finalize: the digest of the consumed stream,
/// 16 bytes wide.
#[verifier::external_body]
fn md5_context_finalize(ctx: md5::Context) -> (r: Vec<u8>)
    ensures
        r@ == md5_of(md5_fed(ctx)),
        r@.len() == 16,
{
    ctx.finalize().0.to_vec()
}

/// A content checksum: the fixed-width digest that decides which group a
/// file belongs to. Two files are duplicates exactly when their digests are
/// byte-for-byte equal.
#[derive(Debug)]
pub struct Digest {
    /// The digest's bytes, most significant first.
    pub bytes: Vec<u8>,
}

impl View for Digest {
    type V = Seq<u8>;

    open spec fn view(&self) -> Seq<u8> {
        self.bytes@
    }
}

impl Clone for Digest {
    fn clone(&self) -> (r: Self)
        ensures
            r@ == self@,
    {
        let mut bytes: Vec<u8> = Vec::new();
        let mut i: usize = 0;
        while i < self.bytes.len()
            invariant
                i <= self.bytes@.len(),
                bytes@ == self.bytes@.take(i as int),
            decreases self.bytes@.len() - i,
        {
            bytes.push(self.bytes[i]);
            proof {
                assert(self.bytes@.take(i + 1) =~= self.bytes@.take(i as int).push(
                    self.bytes@[i as int],
                ));
            }
            i = i + 1;
        }
        proof {
            assert(self.bytes@.take(self.bytes@.len() as int) =~= self.bytes@);
        }
        Digest { bytes }
    }
}

impl Digest {
    /// Whether two digests are byte-for-byte equal.
    pub fn equals(&self, other: &Digest) -> (r: bool)
        ensures
            r == (self@ == other@),
    {
        if self.bytes.len() != other.bytes.len() {
            proof {
                assert(self@ != other@);
            }
            return false;
        }
        let mut i: usize = 0;
        while i < self.bytes.len()
            invariant
                i <= self.bytes@.len(),
                self.bytes@.len() == other.bytes@.len(),
                forall|j: int| 0 <= j < i ==> self.bytes@[j] == other.bytes@[j],
            decreases self.bytes@.len() - i,
        {
            if self.bytes[i] != other.bytes[i] {
                return false;
            }
            i = i + 1;
        }
        proof {
            assert(self@ =~= other@);
        }
        true
    }
}

/// The lower-case hexadecimal character for a value below 16.
pub open spec fn hex_digit(n: int) -> char {
    if n == 0 {
        '0'
    } else if n == 1 {
        '1'
    } else if n == 2 {
        '2'
    } else if n == 3 {
        '3'
    } else if n == 4 {
        '4'
    } else if n == 5 {
        '5'
    } else if n == 6 {
        '6'
    } else if n == 7 {
        '7'
    } else if n == 8 {
        '8'
    } else if n == 9 {
        '9'
    } else if n == 10 {
        'a'
    } else if n == 11 {
        'b'
    } else if n == 12 {
        'c'
    } else if n == 13 {
        'd'
    } else if n == 14 {
        'e'
    } else {
        'f'
    }
}

/// The lower-case hexadecimal rendering of a byte sequence, two characters
/// per byte.
pub open spec fn hex_of(bytes: Seq<u8>) -> Seq<char>
    decreases bytes.len(),
{
    if bytes.len() == 0 {
        Seq::<char>::empty()
    } else {
        hex_of(bytes.drop_last()) + seq![
            hex_digit(bytes.last() as int / 16),
            hex_digit(bytes.last() as int % 16),
        ]
    }
}

/// A one-character string holding the hexadecimal character for a value
/// below 16.
fn hex_char_str(n: u8) -> (s: &'static str)
    requires
        n < 16,
    ensures
        s@ == seq![hex_digit(n as int)],
{
    if n == 0 {
        proof {
            reveal_strlit("0");
            assert(("0")@ =~= seq![hex_digit(0)]);
        }
        "0"
    } else if n == 1 {
        proof {
            reveal_strlit("1");
            assert(("1")@ =~= seq![hex_digit(1)]);
        }
        "1"
    } else if n == 2 {
        proof {
            reveal_strlit("2");
            assert(("2")@ =~= seq![hex_digit(2)]);
        }
        "2"
    } else if n == 3 {
        proof {
            reveal_strlit("3");
            assert(("3")@ =~= seq![hex_digit(3)]);
        }
        "3"
    } else if n == 4 {
        proof {
            reveal_strlit("4");
            assert(("4")@ =~= seq![hex_digit(4)]);
        }
        "4"
    } else if n == 5 {
        proof {
            reveal_strlit("5");
            assert(("5")@ =~= seq![hex_digit(5)]);
        }
        "5"
    } else if n == 6 {
        proof {
            reveal_strlit("6");
            assert(("6")@ =~= seq![hex_digit(6)]);
        }
        "6"
    } else if n == 7 {
        proof {
            reveal_strlit("7");
            assert(("7")@ =~= seq![hex_digit(7)]);
        }
        "7"
    } else if n == 8 {
        proof {
            reveal_strlit("8");
            assert(("8")@ =~= seq![hex_digit(8)]);
        }
        "8"
    } else if n == 9 {
        proof {
            reveal_strlit("9");
            assert(("9")@ =~= seq![hex_digit(9)]);
        }
        "9"
    } else if n == 10 {
        proof {
            reveal_strlit("a");
            assert(("a")@ =~= seq![hex_digit(10)]);
        }
        "a"
    } else if n == 11 {
        proof {
            reveal_strlit("b");
            assert(("b")@ =~= seq![hex_digit(11)]);
        }
        "b"
    } else if n == 12 {
        proof {
            reveal_strlit("c");
            assert(("c")@ =~= seq![hex_digit(12)]);
        }
        "c"
    } else if n == 13 {
        proof {
            reveal_strlit("d");
            assert(("d")@ =~= seq![hex_digit(13)]);
        }
        "d"
    } else if n == 14 {
        proof {
            reveal_strlit("e");
            assert(("e")@ =~= seq![hex_digit(14)]);
        }
        "e"
    } else {
        proof {
            reveal_strlit("f");
            assert(("f")@ =~= seq![hex_digit(15)]);
        }
        "f"
    }
}

impl Digest {
    /// The digest rendered as lower-case hexadecimal text.
    pub fn to_hex(&self) -> (s: String)
        ensures
            s@ == hex_of(self@),
    {
        let mut s = String::new();
        let mut i: usize = 0;
        proof {
            assert(self@.take(0) =~= Seq::<u8>::empty());
        }
        while i < self.bytes.len()
            invariant
                i <= self.bytes@.len(),
                s@ == hex_of(self.bytes@.take(i as int)),
            decreases self.bytes@.len() - i,
        {
            let b = self.bytes[i];
            let hi = b / 16;
            let lo = b % 16;
            s.append(hex_char_str(hi));
            s.append(hex_char_str(lo));
            proof {
                let taken = self.bytes@.take(i + 1);
                assert(taken.drop_last() =~= self.bytes@.take(i as int));
                assert(taken.last() == self.bytes@[i as int]);
            }
            i = i + 1;
        }
        proof {
            assert(self.bytes@.take(self.bytes@.len() as int) =~= self.bytes@);
        }
        s
    }
}

/// Compute the digest of a full byte stream, feeding the hash through the
/// fixed-size buffer one chunk at a time.
pub fn checksum_of_bytes(content: &[u8]) -> (d: Digest)
    ensures
        d@ == md5_of(content@),
        d@.len() == 16,
{
    let mut ctx = md5_context_new();
    let mut i: usize = 0;
    proof {
        assert(content@.take(0) =~= Seq::<u8>::empty());
    }
    while i < content.len()
        invariant
            i <= content@.len(),
            md5_fed(ctx) == content@.take(i as int),
        decreases content@.len() - i,
    {
        let j = if content.len() - i >= CHECKSUM_READ_BUFFER_SIZE {
            i + CHECKSUM_READ_BUFFER_SIZE
        } else {
            content.len()
        };
        let chunk = slice_subrange(content, i, j);
        md5_context_consume(&mut ctx, chunk);
        proof {
            assert(content@.take(j as int) =~= content@.take(i as int) + content@.subrange(
                i as int,
                j as int,
            ));
        }
        i = j;
    }
    proof {
        assert(content@.take(content@.len() as int) =~= content@);
    }
    let bytes = md5_context_finalize(ctx);
    Digest { bytes }
}

} // verus!
