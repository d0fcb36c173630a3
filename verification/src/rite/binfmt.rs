use vstd::prelude::*;

verus! {

/// Errors raised while reading a RITE binary.
#[derive(Debug, Copy, Clone, PartialEq, Eq, Structural)]
pub enum Error {
    General,
    TooShort,
    InvalidFormat,
    InvalidOpCode,
    TypeMismatch,
    InvalidOperand,
    NoMethod,
    UnknownPoolType(u8),
}

/// Size in bytes of the RITE binary header.
pub const BINARY_HEADER_SIZE: usize = 20;

/// Size in bytes of the IREP section header.
pub const IREP_HEADER_SIZE: usize = 12;

/// Size in bytes of one IREP record header.
pub const IREP_RECORD_SIZE: usize = 16;

/// Size in bytes of a generic section header (identifier and size).
pub const MISC_HEADER_SIZE: usize = 8;

/// Size in bytes of one catch-handler entry.
pub const CATCH_HANDLER_SIZE: usize = 13;

/// Big-endian value of two bytes.
pub open spec fn spec_be16(b0: u8, b1: u8) -> nat {
    (b0 as nat) * 256 + (b1 as nat)
}

/// Big-endian value of four bytes.
pub open spec fn spec_be32(b0: u8, b1: u8, b2: u8, b3: u8) -> nat {
    (b0 as nat) * 16777216 + (b1 as nat) * 65536 + (b2 as nat) * 256 + (b3 as nat)
}

/// Big-endian value of the two bytes of `s` starting at `i`.
pub open spec fn be16_at(s: Seq<u8>, i: int) -> nat {
    spec_be16(s[i], s[i + 1])
}

/// Big-endian value of the four bytes of `s` starting at `i`.
pub open spec fn be32_at(s: Seq<u8>, i: int) -> nat {
    spec_be32(s[i], s[i + 1], s[i + 2], s[i + 3])
}

/// Decodes a big-endian 32-bit unsigned integer.
pub fn be32_to_u32(be32: [u8; 4]) -> (r: u32)
    ensures
        r as nat == spec_be32(be32@[0], be32@[1], be32@[2], be32@[3]),
{
    (be32[0] as u32) * 16777216 + (be32[1] as u32) * 65536 + (be32[2] as u32) * 256
        + (be32[3] as u32)
}

/// Decodes a big-endian 16-bit unsigned integer.
pub fn be16_to_u16(be16: [u8; 2]) -> (r: u16)
    ensures
        r as nat == spec_be16(be16@[0], be16@[1]),
{
    (be16[0] as u16) * 256 + (be16[1] as u16)
}

/// Copies two bytes of `b` starting at `i`.
fn take2(b: &[u8], i: usize) -> (r: [u8; 2])
    requires
        i + 2 <= b@.len(),
    ensures
        r@ == b@.subrange(i as int, i + 2),
{
    let r = [b[i], b[i + 1]];
    assert(r@ =~= b@.subrange(i as int, i + 2));
    r
}

/// Copies four bytes of `b` starting at `i`.
fn take4(b: &[u8], i: usize) -> (r: [u8; 4])
    requires
        i + 4 <= b@.len(),
    ensures
        r@ == b@.subrange(i as int, i + 4),
{
    let r = [b[i], b[i + 1], b[i + 2], b[i + 3]];
    assert(r@ =~= b@.subrange(i as int, i + 4));
    r
}

/// Header at the start of every RITE binary.
#[derive(Debug, Copy, Clone)]
pub struct RiteBinaryHeader {
    pub ident: [u8; 4],
    pub major_version: [u8; 2],
    pub minor_version: [u8; 2],
    pub size: [u8; 4],
    pub compiler_name: [u8; 4],
    pub compiler_version: [u8; 4],
}

impl RiteBinaryHeader {
    /// The bytes this header was read from, in order.
    pub open spec fn bytes(&self) -> Seq<u8> {
        self.ident@ + self.major_version@ + self.minor_version@ + self.size@
            + self.compiler_name@ + self.compiler_version@
    }

    /// A header of zero bytes.
    pub fn zeroed() -> (h: Self)
        ensures
            h.bytes() == Seq::new(20, |_i: int| 0u8),
    {
        let h = RiteBinaryHeader {
            ident: [0; 4],
            major_version: [0; 2],
            minor_version: [0; 2],
            size: [0; 4],
            compiler_name: [0; 4],
            compiler_version: [0; 4],
        };
        assert(h.bytes() =~= Seq::new(20, |_i: int| 0u8));
        h
    }

    /// Reads the header from the front of `b`.
    pub fn from_bytes(b: &[u8]) -> (r: Result<Self, Error>)
        ensures
            b@.len() < BINARY_HEADER_SIZE ==> r == Err::<Self, Error>(Error::TooShort),
            b@.len() >= BINARY_HEADER_SIZE ==> (r matches Ok(h) && h.bytes()
                == b@.subrange(0, BINARY_HEADER_SIZE as int)),
    {
        if b.len() < BINARY_HEADER_SIZE {
            return Err(Error::TooShort);
        }
        let h = RiteBinaryHeader {
            ident: take4(b, 0),
            major_version: take2(b, 4),
            minor_version: take2(b, 6),
            size: take4(b, 8),
            compiler_name: take4(b, 12),
            compiler_version: take4(b, 16),
        };
        assert(h.bytes() =~= b@.subrange(0, 20));
        Ok(h)
    }
}

/// Header of the IREP section.
#[derive(Debug, Copy, Clone)]
pub struct SectionIrepHeader {
    pub ident: [u8; 4],
    pub size: [u8; 4],
    pub rite_version: [u8; 4],
}

impl SectionIrepHeader {
    /// The bytes this header was read from, in order.
    pub open spec fn bytes(&self) -> Seq<u8> {
        self.ident@ + self.size@ + self.rite_version@
    }

    /// A header of zero bytes.
    pub fn zeroed() -> (h: Self)
        ensures
            h.bytes() == Seq::new(12, |_i: int| 0u8),
    {
        let h = SectionIrepHeader { ident: [0; 4], size: [0; 4], rite_version: [0; 4] };
        assert(h.bytes() =~= Seq::new(12, |_i: int| 0u8));
        h
    }

    /// Reads the header from the front of `b`.
    pub fn from_bytes(b: &[u8]) -> (r: Result<Self, Error>)
        ensures
            b@.len() < IREP_HEADER_SIZE ==> r == Err::<Self, Error>(Error::TooShort),
            b@.len() >= IREP_HEADER_SIZE ==> (r matches Ok(h) && h.bytes() == b@.subrange(
                0,
                IREP_HEADER_SIZE as int,
            ) && h.size@ == b@.subrange(4, 8)),
    {
        if b.len() < IREP_HEADER_SIZE {
            return Err(Error::TooShort);
        }
        let h = SectionIrepHeader { ident: take4(b, 0), size: take4(b, 4), rite_version: take4(b, 8) };
        assert(h.bytes() =~= b@.subrange(0, 12));
        Ok(h)
    }
}

/// Header of one IREP record.
#[derive(Debug, Copy, Clone)]
pub struct IrepRecord {
    pub size: [u8; 4],
    pub nlocals: [u8; 2],
    pub nregs: [u8; 2],
    pub rlen: [u8; 2],
    pub clen: [u8; 2],
    pub ilen: [u8; 4],
}

impl IrepRecord {
    /// The bytes this record header was read from, in order.
    pub open spec fn bytes(&self) -> Seq<u8> {
        self.size@ + self.nlocals@ + self.nregs@ + self.rlen@ + self.clen@ + self.ilen@
    }

    /// Reads the record header from `b` at offset `i`.
    pub fn read_at(b: &[u8], i: usize) -> (h: Self)
        requires
            i + IREP_RECORD_SIZE <= b@.len(),
        ensures
            h.bytes() == b@.subrange(i as int, i + IREP_RECORD_SIZE),
    {
        let _len = b.len();
        let h = IrepRecord {
            size: take4(b, i),
            nlocals: take2(b, i + 4),
            nregs: take2(b, i + 6),
            rlen: take2(b, i + 8),
            clen: take2(b, i + 10),
            ilen: take4(b, i + 12),
        };
        assert(h.bytes() =~= b@.subrange(i as int, i + 16));
        h
    }
}

/// Header shared by the sections that are only measured or skipped.
#[derive(Debug, Copy, Clone)]
pub struct SectionMiscHeader {
    pub ident: [u8; 4],
    pub size: [u8; 4],
}

impl SectionMiscHeader {
    /// The bytes this header was read from, in order.
    pub open spec fn bytes(&self) -> Seq<u8> {
        self.ident@ + self.size@
    }

    /// Reads the header from the front of `b`.
    pub fn from_bytes(b: &[u8]) -> (r: Result<Self, Error>)
        ensures
            b@.len() < MISC_HEADER_SIZE ==> r == Err::<Self, Error>(Error::TooShort),
            b@.len() >= MISC_HEADER_SIZE ==> (r matches Ok(h) && h.bytes() == b@.subrange(
                0,
                MISC_HEADER_SIZE as int,
            ) && h.size@ == b@.subrange(4, 8)),
    {
        if b.len() < MISC_HEADER_SIZE {
            return Err(Error::TooShort);
        }
        let h = SectionMiscHeader { ident: take4(b, 0), size: take4(b, 4) };
        assert(h.bytes() =~= b@.subrange(0, 8));
        Ok(h)
    }
}

/// An IREP record header lays out, in order: the record size (4 bytes),
/// the number of locals (2), of registers (2), of child IREPs (2), of catch
/// handlers (2) and the instruction length (4).
pub proof fn lemma_irep_record_layout(r: IrepRecord)
    ensures
        r.bytes().len() == 16,
        r.bytes().subrange(0, 4) == r.size@,
        r.bytes().subrange(4, 6) == r.nlocals@,
        r.bytes().subrange(6, 8) == r.nregs@,
        r.bytes().subrange(8, 10) == r.rlen@,
        r.bytes().subrange(10, 12) == r.clen@,
        r.bytes().subrange(12, 16) == r.ilen@,
{
    let b = r.bytes();
    assert(b.subrange(0, 4) =~= r.size@);
    assert(b.subrange(4, 6) =~= r.nlocals@);
    assert(b.subrange(6, 8) =~= r.nregs@);
    assert(b.subrange(8, 10) =~= r.rlen@);
    assert(b.subrange(10, 12) =~= r.clen@);
    assert(b.subrange(12, 16) =~= r.ilen@);
}

} // verus!
