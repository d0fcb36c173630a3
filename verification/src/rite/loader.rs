use vstd::prelude::*;
use super::binfmt::{
    Error, RiteBinaryHeader, SectionIrepHeader, IrepRecord, SectionMiscHeader, be16_at, be32_at,
    be16_to_u16, be32_to_u32, BINARY_HEADER_SIZE, IREP_HEADER_SIZE, IREP_RECORD_SIZE,
    MISC_HEADER_SIZE, CATCH_HANDLER_SIZE,
};

verus! {

// ---------------------------------------------------------------------------
// Decoded values
// ---------------------------------------------------------------------------

/// One constant-pool entry of an IREP. A 64-bit integer is stored as two
/// big-endian 32-bit words, high word first. Floating-point entries keep the
/// eight bytes of their IEEE-754 encoding as a little-endian `u64`.
#[derive(Debug, Clone)]
pub enum PoolValue {
    Str(Vec<u8>),
    Int32(i32),
    SStr(Vec<u8>),
    Int64(i64),
    Float(u64),
    BigInt(Vec<u8>),
}

/// Mathematical model of a pool entry.
pub enum PoolValueView {
    Str(Seq<u8>),
    Int32(i32),
    SStr(Seq<u8>),
    Int64(i64),
    Float(u64),
    BigInt(Seq<u8>),
}

impl View for PoolValue {
    type V = PoolValueView;

    open spec fn view(&self) -> PoolValueView {
        match self {
            PoolValue::Str(s) => PoolValueView::Str(s@),
            PoolValue::Int32(i) => PoolValueView::Int32(*i),
            PoolValue::SStr(s) => PoolValueView::SStr(s@),
            PoolValue::Int64(i) => PoolValueView::Int64(*i),
            PoolValue::Float(f) => PoolValueView::Float(*f),
            PoolValue::BigInt(b) => PoolValueView::BigInt(b@),
        }
    }
}

/// A `rescue`/`ensure` region of an IREP.
#[derive(Debug, Copy, Clone)]
pub struct CatchHandler {
    pub type_: u8,
    pub start: usize,
    pub end: usize,
    pub target: usize,
}

/// The local-variable section; only its header is kept.
#[derive(Debug, Copy, Clone)]
pub struct LVar {
    pub header: SectionMiscHeader,
}

/// One decoded IREP record.
#[derive(Debug)]
pub struct Irep {
    pub header: IrepRecord,
    pub insn: Vec<u8>,
    pub plen: usize,
    pub pool: Vec<PoolValue>,
    pub slen: usize,
    pub syms: Vec<Vec<u8>>,
    pub catch_handlers: Vec<CatchHandler>,
}

/// Mathematical model of an IREP record.
#[verifier::ext_equal]
pub struct IrepView {
    pub header: Seq<u8>,
    pub insn: Seq<u8>,
    pub plen: nat,
    pub pool: Seq<PoolValueView>,
    pub slen: nat,
    pub syms: Seq<Seq<u8>>,
    pub catch_handlers: Seq<CatchHandler>,
}

pub open spec fn pool_views(p: Seq<PoolValue>) -> Seq<PoolValueView> {
    p.map_values(|v: PoolValue| v@)
}

pub open spec fn bytes_views(p: Seq<Vec<u8>>) -> Seq<Seq<u8>> {
    p.map_values(|v: Vec<u8>| v@)
}

impl View for Irep {
    type V = IrepView;

    open spec fn view(&self) -> IrepView {
        IrepView {
            header: self.header.bytes(),
            insn: self.insn@,
            plen: self.plen as nat,
            pool: pool_views(self.pool@),
            slen: self.slen as nat,
            syms: bytes_views(self.syms@),
            catch_handlers: self.catch_handlers@,
        }
    }
}

impl Irep {
    /// Number of local variables.
    pub fn nlocals(&self) -> (r: usize)
        ensures
            r == be16_at(self.header.nlocals@, 0),
    {
        be16_to_u16(self.header.nlocals) as usize
    }

    /// Number of registers.
    pub fn nregs(&self) -> (r: usize)
        ensures
            r == be16_at(self.header.nregs@, 0),
    {
        be16_to_u16(self.header.nregs) as usize
    }

    /// Number of child IREPs.
    pub fn rlen(&self) -> (r: usize)
        ensures
            r == be16_at(self.header.rlen@, 0),
    {
        be16_to_u16(self.header.rlen) as usize
    }

    /// Number of catch handlers.
    pub fn clen(&self) -> (r: usize)
        ensures
            r == be16_at(self.header.clen@, 0),
    {
        be16_to_u16(self.header.clen) as usize
    }
}

// ---------------------------------------------------------------------------
// Specification of the record layout
// ---------------------------------------------------------------------------

/// Little-endian value of the eight bytes of `s` starting at `i`.
pub open spec fn le64_at(s: Seq<u8>, i: int) -> nat {
    (s[i] as nat) + (s[i + 1] as nat) * 0x100 + (s[i + 2] as nat) * 0x10000 + (s[i + 3] as nat)
        * 0x1000000 + (s[i + 4] as nat) * 0x100000000 + (s[i + 5] as nat) * 0x10000000000 + (s[i
        + 6] as nat) * 0x1000000000000 + (s[i + 7] as nat) * 0x100000000000000
}

/// Two's-complement reading of a 32-bit unsigned value.
pub open spec fn signed32(u: nat) -> int {
    if u >= 0x80000000 {
        u - 0x100000000
    } else {
        u as int
    }
}

/// Two's-complement reading of a 64-bit unsigned value.
pub open spec fn signed64(u: nat) -> int {
    if u >= 0x8000000000000000 {
        u - 0x10000000000000000
    } else {
        u as int
    }
}

/// A NUL-terminated byte string with no interior NUL.
pub open spec fn valid_cstr(b: Seq<u8>) -> bool {
    &&& b.len() > 0
    &&& b[b.len() - 1] == 0
    &&& forall|i: int| 0 <= i < b.len() - 1 ==> b[i] != 0
}

/// A length-prefixed NUL-terminated string at `p`: its bytes without the NUL
/// and the position after it.
pub open spec fn parse_cstr(s: Seq<u8>, p: int) -> Result<(Seq<u8>, int), Error> {
    if p + 2 > s.len() {
        Err(Error::TooShort)
    } else {
        let n = be16_at(s, p) + 1;
        let q = p + 2;
        if q + n > s.len() {
            Err(Error::TooShort)
        } else if !valid_cstr(s.subrange(q, q + n)) {
            Err(Error::InvalidFormat)
        } else {
            Ok((s.subrange(q, q + n - 1), q + n))
        }
    }
}

/// The pool entry at `p` and the position after it.
pub open spec fn parse_pool_value(s: Seq<u8>, p: int) -> Result<(PoolValueView, int), Error> {
    if p + 1 > s.len() {
        Err(Error::TooShort)
    } else {
        let typ = s[p];
        let q = p + 1;
        if typ == 0 || typ == 2 {
            match parse_cstr(s, q) {
                Ok((b, r)) => Ok(
                    (
                        if typ == 0 {
                            PoolValueView::Str(b)
                        } else {
                            PoolValueView::SStr(b)
                        },
                        r,
                    ),
                ),
                Err(e) => Err(e),
            }
        } else if typ == 1 {
            if q + 4 > s.len() {
                Err(Error::TooShort)
            } else {
                Ok((PoolValueView::Int32(signed32(be32_at(s, q)) as i32), q + 4))
            }
        } else if typ == 3 {
            if q + 8 > s.len() {
                Err(Error::TooShort)
            } else {
                Ok((PoolValueView::Int64(signed64(be32_at(s, q) * 0x1_0000_0000 + be32_at(s, q + 4)) as i64), q + 8))
            }
        } else if typ == 5 {
            if q + 8 > s.len() {
                Err(Error::TooShort)
            } else {
                Ok((PoolValueView::Float(le64_at(s, q) as u64), q + 8))
            }
        } else if typ == 7 {
            if q + 2 > s.len() {
                Err(Error::TooShort)
            } else {
                let n = be16_at(s, q);
                let r = q + 2;
                if r + n > s.len() {
                    Err(Error::TooShort)
                } else {
                    Ok((PoolValueView::BigInt(s.subrange(r, r + n)), r + n))
                }
            }
        } else {
            Err(Error::UnknownPoolType(typ))
        }
    }
}

/// `n` consecutive pool entries from `p`, and the position after the last.
pub open spec fn parse_pools(s: Seq<u8>, p: int, n: nat) -> Result<(Seq<PoolValueView>, int), Error>
    decreases n,
{
    if n == 0 {
        Ok((Seq::empty(), p))
    } else {
        match parse_pool_value(s, p) {
            Ok((v, q)) => match parse_pools(s, q, (n - 1) as nat) {
                Ok((vs, r)) => Ok((seq![v] + vs, r)),
                Err(e) => Err(e),
            },
            Err(e) => Err(e),
        }
    }
}

/// `n` consecutive symbol names from `p`, and the position after the last.
pub open spec fn parse_syms(s: Seq<u8>, p: int, n: nat) -> Result<(Seq<Seq<u8>>, int), Error>
    decreases n,
{
    if n == 0 {
        Ok((Seq::empty(), p))
    } else {
        match parse_cstr(s, p) {
            Ok((v, q)) => match parse_syms(s, q, (n - 1) as nat) {
                Ok((vs, r)) => Ok((seq![v] + vs, r)),
                Err(e) => Err(e),
            },
            Err(e) => Err(e),
        }
    }
}

/// The catch handler encoded at `i`.
pub open spec fn catch_handler_at(s: Seq<u8>, i: int) -> CatchHandler {
    CatchHandler {
        type_: s[i],
        start: be32_at(s, i + 1) as usize,
        end: be32_at(s, i + 5) as usize,
        target: be32_at(s, i + 9) as usize,
    }
}

/// `n` consecutive catch handlers from `p`.
pub open spec fn catch_handlers_at(s: Seq<u8>, p: int, n: nat) -> Seq<CatchHandler> {
    Seq::new(n, |k: int| catch_handler_at(s, p + 13 * k))
}

/// The IREP record at `cur` and its declared size.
#[verifier::opaque]
pub open spec fn parse_irep(s: Seq<u8>, cur: int) -> Result<(IrepView, nat), Error> {
    if cur + 16 > s.len() {
        Err(Error::TooShort)
    } else {
        let rec_size = be32_at(s, cur);
        let clen = be16_at(s, cur + 10);
        let ilen = be32_at(s, cur + 12);
        let p1 = cur + 16;
        if p1 + ilen > s.len() {
            Err(Error::TooShort)
        } else {
            let p2 = p1 + ilen;
            if p2 + 13 * clen > s.len() {
                Err(Error::TooShort)
            } else {
                let p3 = p2 + 13 * clen;
                if p3 + 2 > s.len() {
                    Err(Error::TooShort)
                } else {
                    let plen = be16_at(s, p3);
                    match parse_pools(s, p3 + 2, plen) {
                        Err(e) => Err(e),
                        Ok((pool, p4)) => if p4 + 2 > s.len() {
                            Err(Error::TooShort)
                        } else {
                            let slen = be16_at(s, p4);
                            match parse_syms(s, p4 + 2, slen) {
                                Err(e) => Err(e),
                                Ok((syms, _)) => Ok(
                                    (
                                        IrepView {
                                            header: s.subrange(cur, cur + 16),
                                            insn: s.subrange(p1, p1 + ilen),
                                            plen: plen,
                                            pool: pool,
                                            slen: slen,
                                            syms: syms,
                                            catch_handlers: catch_handlers_at(s, p2, clen),
                                        },
                                        rec_size,
                                    ),
                                ),
                            }
                        },
                    }
                }
            }
        }
    }
}

/// The IREP records from `cur` up to `end`; each record starts where the
/// previous one's declared size ends. A record declaring size zero would
/// never advance and is rejected.
pub open spec fn parse_ireps(s: Seq<u8>, cur: int, end: int) -> Result<Seq<IrepView>, Error>
    decreases
            (if cur < end {
                end - cur
            } else {
                0
            }),
{
    if cur >= end {
        Ok(Seq::empty())
    } else {
        match parse_irep(s, cur) {
            Err(e) => Err(e),
            Ok((irep, rec_size)) => if rec_size == 0 {
                Err(Error::InvalidFormat)
            } else {
                match parse_ireps(s, cur + rec_size, end) {
                    Ok(rest) => Ok(seq![irep] + rest),
                    Err(e) => Err(e),
                }
            },
        }
    }
}

/// The IREP section at the front of `s`: its declared size, the bytes of its
/// header and its records.
pub open spec fn spec_section_irep(s: Seq<u8>) -> Result<(nat, Seq<u8>, Seq<IrepView>), Error> {
    if s.len() < 12 {
        Err(Error::TooShort)
    } else {
        let size = be32_at(s, 4);
        if s.len() < size {
            Err(Error::TooShort)
        } else {
            match parse_ireps(s, 12, size as int) {
                Ok(ireps) => Ok((size, s.subrange(0, 12), ireps)),
                Err(e) => Err(e),
            }
        }
    }
}


// ---------------------------------------------------------------------------
// Readers
// ---------------------------------------------------------------------------

/// Model of a reader's result: the decoded value's view and the next position.
pub open spec fn res_view<T: View>(r: Result<(T, usize), Error>) -> Result<(T::V, int), Error> {
    match r {
        Ok((v, q)) => Ok((v@, q as int)),
        Err(e) => Err(e),
    }
}

/// Copies `b[start..end]` into a new vector.
fn copy_bytes(b: &[u8], start: usize, end: usize) -> (r: Vec<u8>)
    requires
        start <= end <= b@.len(),
    ensures
        r@ == b@.subrange(start as int, end as int),
{
    let mut r: Vec<u8> = Vec::new();
    let mut i = start;
    while i < end
        invariant
            start <= i <= end <= b@.len(),
            r@ == b@.subrange(start as int, i as int),
        decreases end - i,
    {
        r.push(b[i]);
        i = i + 1;
        assert(r@ =~= b@.subrange(start as int, i as int));
    }
    r
}

/// Reads a little-endian `u64` at `i`.
fn read_le_u64(b: &[u8], i: usize) -> (r: u64)
    requires
        i + 8 <= b@.len(),
    ensures
        r as nat == le64_at(b@, i as int),
{
    let _len = b.len();
    (b[i] as u64) + (b[i + 1] as u64) * 0x100 + (b[i + 2] as u64) * 0x10000 + (b[i + 3] as u64)
        * 0x1000000 + (b[i + 4] as u64) * 0x100000000 + (b[i + 5] as u64) * 0x10000000000 + (b[i
        + 6] as u64) * 0x1000000000000 + (b[i + 7] as u64) * 0x100000000000000
}

/// Reads a big-endian `u32` at `i`.
fn read_be_u32(b: &[u8], i: usize) -> (r: u32)
    requires
        i + 4 <= b@.len(),
    ensures
        r as nat == be32_at(b@, i as int),
{
    let _len = b.len();
    be32_to_u32([b[i], b[i + 1], b[i + 2], b[i + 3]])
}

/// Reads a big-endian `u16` at `i`.
fn read_be_u16(b: &[u8], i: usize) -> (r: u16)
    requires
        i + 2 <= b@.len(),
    ensures
        r as nat == be16_at(b@, i as int),
{
    let _len = b.len();
    be16_to_u16([b[i], b[i + 1]])
}

/// Whether `b[q..q + n]` is a NUL-terminated string without interior NUL.
fn is_valid_cstr(b: &[u8], q: usize, n: usize) -> (r: bool)
    requires
        q + n <= b@.len(),
    ensures
        r == valid_cstr(b@.subrange(q as int, q + n)),
{
    let ghost sub = b@.subrange(q as int, q + n);
    let len = b.len();
    if n == 0 {
        return false;
    }
    if b[q + n - 1] != 0 {
        return false;
    }
    let mut i: usize = 0;
    while i < n - 1
        invariant
            0 <= i <= n - 1,
            q + n <= b@.len(),
            len == b@.len(),
            sub == b@.subrange(q as int, q + n),
            forall|j: int| 0 <= j < i ==> sub[j] != 0,
        decreases n - 1 - i,
    {
        if b[q + i] == 0 {
            assert(sub[i as int] == 0);
            return false;
        }
        i = i + 1;
    }
    true
}

/// Reads a length-prefixed NUL-terminated string at `p`.
fn read_cstr(b: &[u8], p: usize) -> (r: Result<(Vec<u8>, usize), Error>)
    requires
        p <= b@.len(),
    ensures
        res_view(r) == parse_cstr(b@, p as int),
        r matches Ok((_, q)) ==> q <= b@.len(),
{
    let len = b.len();
    if len - p < 2 {
        return Err(Error::TooShort);
    }
    let n = read_be_u16(b, p) as usize + 1;
    let q = p + 2;
    if len - q < n {
        return Err(Error::TooShort);
    }
    if !is_valid_cstr(b, q, n) {
        return Err(Error::InvalidFormat);
    }
    let v = copy_bytes(b, q, q + n - 1);
    Ok((v, q + n))
}

/// Reads the pool entry at `p`.
fn read_pool_value(b: &[u8], p: usize) -> (r: Result<(PoolValue, usize), Error>)
    requires
        p <= b@.len(),
    ensures
        res_view(r) == parse_pool_value(b@, p as int),
        r matches Ok((_, q)) ==> q <= b@.len(),
{
    let len = b.len();
    if len - p < 1 {
        return Err(Error::TooShort);
    }
    let typ = b[p];
    let q = p + 1;
    if typ == 0 || typ == 2 {
        match read_cstr(b, q) {
            Ok((v, r)) => {
                if typ == 0 {
                    Ok((PoolValue::Str(v), r))
                } else {
                    Ok((PoolValue::SStr(v), r))
                }
            },
            Err(e) => Err(e),
        }
    } else if typ == 1 {
        if len - q < 4 {
            return Err(Error::TooShort);
        }
        let u = read_be_u32(b, q);
        let v: i32 = if u >= 0x8000_0000 {
            ((u - 0x8000_0000) as i32) - 0x7fff_ffff - 1
        } else {
            u as i32
        };
        Ok((PoolValue::Int32(v), q + 4))
    } else if typ == 3 {
        if len - q < 8 {
            return Err(Error::TooShort);
        }
        let hi = read_be_u32(b, q) as u64;
        let lo = read_be_u32(b, q + 4) as u64;
        let u: u64 = hi * 0x1_0000_0000 + lo;
        let v: i64 = if u >= 0x8000_0000_0000_0000 {
            ((u - 0x8000_0000_0000_0000) as i64) - 0x7fff_ffff_ffff_ffff - 1
        } else {
            u as i64
        };
        Ok((PoolValue::Int64(v), q + 8))
    } else if typ == 5 {
        if len - q < 8 {
            return Err(Error::TooShort);
        }
        let u = read_le_u64(b, q);
        Ok((PoolValue::Float(u), q + 8))
    } else if typ == 7 {
        if len - q < 2 {
            return Err(Error::TooShort);
        }
        let n = read_be_u16(b, q) as usize;
        let r = q + 2;
        if len - r < n {
            return Err(Error::TooShort);
        }
        Ok((PoolValue::BigInt(copy_bytes(b, r, r + n)), r + n))
    } else {
        Err(Error::UnknownPoolType(typ))
    }
}

/// Prepends already decoded entries to the outcome of decoding the rest.
pub open spec fn prepend_res<A>(acc: Seq<A>, r: Result<(Seq<A>, int), Error>) -> Result<(Seq<A>, int), Error> {
    match r {
        Ok((vs, q)) => Ok((acc + vs, q)),
        Err(e) => Err(e),
    }
}

/// Reads `n` consecutive pool entries from `p`.
fn read_pools(b: &[u8], p: usize, n: usize) -> (r: Result<(Vec<PoolValue>, usize), Error>)
    requires
        p <= b@.len(),
    ensures
        match r {
            Ok((v, q)) => parse_pools(b@, p as int, n as nat) == Ok::<_, Error>((pool_views(v@), q as int)) && q <= b@.len(),
            Err(e) => parse_pools(b@, p as int, n as nat) == Err::<(Seq<PoolValueView>, int), Error>(e),
        },
{
    let mut pool: Vec<PoolValue> = Vec::new();
    let mut cur = p;
    let mut k: usize = 0;
    while k < n
        invariant
            k <= n,
            cur <= b@.len(),
            prepend_res(pool_views(pool@), parse_pools(b@, cur as int, (n - k) as nat))
                == parse_pools(b@, p as int, n as nat),
        decreases n - k,
    {
        let ghost before = pool_views(pool@);
        match read_pool_value(b, cur) {
            Ok((v, q)) => {
                pool.push(v);
                assert(pool_views(pool@) =~= before.push(v@));
                proof {
                    let m = (n - k) as nat;
                    let rest = parse_pools(b@, q as int, (m - 1) as nat);
                    match rest {
                        Ok((vs, e)) => {
                            assert(before + (seq![v@] + vs) =~= before.push(v@) + vs);
                        },
                        Err(_) => {},
                    }
                }
                cur = q;
                k = k + 1;
            },
            Err(e) => {
                return Err(e);
            },
        }
    }
    assert(pool_views(pool@) + Seq::<PoolValueView>::empty() =~= pool_views(pool@));
    Ok((pool, cur))
}

/// Reads `n` consecutive symbol names from `p`.
fn read_syms(b: &[u8], p: usize, n: usize) -> (r: Result<(Vec<Vec<u8>>, usize), Error>)
    requires
        p <= b@.len(),
    ensures
        match r {
            Ok((v, q)) => parse_syms(b@, p as int, n as nat) == Ok::<_, Error>((bytes_views(v@), q as int)) && q <= b@.len(),
            Err(e) => parse_syms(b@, p as int, n as nat) == Err::<(Seq<Seq<u8>>, int), Error>(e),
        },
{
    let mut syms: Vec<Vec<u8>> = Vec::new();
    let mut cur = p;
    let mut k: usize = 0;
    while k < n
        invariant
            k <= n,
            cur <= b@.len(),
            prepend_res(bytes_views(syms@), parse_syms(b@, cur as int, (n - k) as nat))
                == parse_syms(b@, p as int, n as nat),
        decreases n - k,
    {
        let ghost before = bytes_views(syms@);
        match read_cstr(b, cur) {
            Ok((v, q)) => {
                syms.push(v);
                assert(bytes_views(syms@) =~= before.push(v@));
                proof {
                    let m = (n - k) as nat;
                    let rest = parse_syms(b@, q as int, (m - 1) as nat);
                    match rest {
                        Ok((vs, e)) => {
                            assert(before + (seq![v@] + vs) =~= before.push(v@) + vs);
                        },
                        Err(_) => {},
                    }
                }
                cur = q;
                k = k + 1;
            },
            Err(e) => {
                return Err(e);
            },
        }
    }
    assert(bytes_views(syms@) + Seq::<Seq<u8>>::empty() =~= bytes_views(syms@));
    Ok((syms, cur))
}


/// Reads `n` consecutive catch handlers from `p`.
fn read_catch_handlers(b: &[u8], p: usize, n: usize) -> (r: Vec<CatchHandler>)
    requires
        p + 13 * n <= b@.len(),
    ensures
        r@ == catch_handlers_at(b@, p as int, n as nat),
{
    let len = b.len();
    let mut r: Vec<CatchHandler> = Vec::new();
    let mut k: usize = 0;
    while k < n
        invariant
            len == b@.len(),
            k <= n,
            p + 13 * n <= b@.len(),
            r@ == catch_handlers_at(b@, p as int, k as nat),
        decreases n - k,
    {
        let at = p + 13 * k;
        let h = CatchHandler {
            type_: b[at],
            start: read_be_u32(b, at + 1) as usize,
            end: read_be_u32(b, at + 5) as usize,
            target: read_be_u32(b, at + 9) as usize,
        };
        r.push(h);
        k = k + 1;
        assert(r@ =~= catch_handlers_at(b@, p as int, k as nat));
    }
    r
}

/// Reads the IREP record at `cur`, returning it with its declared size.
fn read_irep(b: &[u8], cur: usize) -> (r: Result<(Irep, usize), Error>)
    requires
        cur <= b@.len(),
    ensures
        match r {
            Ok((irep, rs)) => parse_irep(b@, cur as int) == Ok::<_, Error>((irep@, rs as nat)),
            Err(e) => parse_irep(b@, cur as int) == Err::<(IrepView, nat), Error>(e),
        },
{
    reveal(parse_irep);
    let len = b.len();
    if len - cur < IREP_RECORD_SIZE {
        return Err(Error::TooShort);
    }
    let header = IrepRecord::read_at(b, cur);
    let rec_size = read_be_u32(b, cur) as usize;
    let clen = read_be_u16(b, cur + 10) as usize;
    let ilen = read_be_u32(b, cur + 12) as usize;
    let p1 = cur + IREP_RECORD_SIZE;
    if len - p1 < ilen {
        return Err(Error::TooShort);
    }
    let insn = copy_bytes(b, p1, p1 + ilen);
    let p2 = p1 + ilen;
    if (len - p2) / CATCH_HANDLER_SIZE < clen {
        return Err(Error::TooShort);
    }
    let catch_handlers = read_catch_handlers(b, p2, clen);
    let p3 = p2 + CATCH_HANDLER_SIZE * clen;
    if len - p3 < 2 {
        return Err(Error::TooShort);
    }
    let plen = read_be_u16(b, p3) as usize;
    let (pool, p4) = match read_pools(b, p3 + 2, plen) {
        Ok(x) => x,
        Err(e) => {
            return Err(e);
        },
    };
    if len - p4 < 2 {
        return Err(Error::TooShort);
    }
    let slen = read_be_u16(b, p4) as usize;
    let (syms, _p5) = match read_syms(b, p4 + 2, slen) {
        Ok(x) => x,
        Err(e) => {
            return Err(e);
        },
    };
    let irep = Irep { header, insn, plen, pool, slen, syms, catch_handlers };
    Ok((irep, rec_size))
}

/// Model of a sequence of decoded IREPs.
pub open spec fn irep_views(s: Seq<Irep>) -> Seq<IrepView> {
    s.map_values(|i: Irep| i@)
}

/// Prepends already decoded records to the outcome of decoding the rest.
pub open spec fn prepend_ireps(acc: Seq<IrepView>, r: Result<Seq<IrepView>, Error>) -> Result<Seq<IrepView>, Error> {
    match r {
        Ok(vs) => Ok(acc + vs),
        Err(e) => Err(e),
    }
}

/// One step of `parse_ireps`: a record that advances is followed by the rest.
proof fn lemma_parse_ireps_step(s: Seq<u8>, cur: int, end: int, irep: IrepView, rs: nat)
    requires
        cur < end,
        rs > 0,
        parse_irep(s, cur) == Ok::<_, Error>((irep, rs)),
    ensures
        parse_ireps(s, cur, end) == prepend_ireps(seq![irep], parse_ireps(s, cur + rs, end)),
{
}

/// Reads the IREP section at the front of `head`: its declared size, its
/// header and the records it holds.
pub fn section_irep_1(head: &[u8]) -> (r: Result<(usize, SectionIrepHeader, Vec<Irep>), Error>)
    ensures
        match r {
            Ok((n, h, ireps)) => spec_section_irep(head@) == Ok::<_, Error>(
                (n as nat, h.bytes(), irep_views(ireps@)),
            ),
            Err(e) => spec_section_irep(head@) == Err::<(nat, Seq<u8>, Seq<IrepView>), Error>(e),
        },
{
    let len = head.len();
    let irep_header = match SectionIrepHeader::from_bytes(head) {
        Ok(h) => h,
        Err(e) => {
            return Err(e);
        },
    };
    let irep_size = read_be_u32(head, 4) as usize;
    if len < irep_size {
        return Err(Error::TooShort);
    }
    let mut cur: usize = IREP_HEADER_SIZE;
    let mut ireps: Vec<Irep> = Vec::new();
    while cur < irep_size
        invariant
            len == head@.len(),
            len >= 12,
            irep_size as nat == be32_at(head@, 4),
            irep_header.bytes() == head@.subrange(0, 12),
            irep_size <= len,
            cur <= len,
            prepend_ireps(irep_views(ireps@), parse_ireps(head@, cur as int, irep_size as int))
                == parse_ireps(head@, 12, irep_size as int),
        decreases irep_size - cur,
    {
        let ghost before = irep_views(ireps@);
        let (irep, rec_size) = match read_irep(head, cur) {
            Ok(x) => x,
            Err(e) => {
                assert(parse_ireps(head@, cur as int, irep_size as int) == Err::<Seq<IrepView>, Error>(e));
                return Err(e);
            },
        };
        if rec_size == 0 {
            assert(parse_ireps(head@, cur as int, irep_size as int) == Err::<Seq<IrepView>, Error>(Error::InvalidFormat));
            return Err(Error::InvalidFormat);
        }
        let next = if rec_size >= irep_size - cur {
            irep_size
        } else {
            cur + rec_size
        };
        ireps.push(irep);
        proof {
            lemma_parse_ireps_step(head@, cur as int, irep_size as int, irep@, rec_size as nat);
            assert(irep_views(ireps@) =~= before.push(irep@));
            let rest = parse_ireps(head@, cur + rec_size, irep_size as int);
            assert(rest == parse_ireps(head@, next as int, irep_size as int));
            match rest {
                Ok(vs) => {
                    assert(before + (seq![irep@] + vs) =~= before.push(irep@) + vs);
                },
                Err(_) => {},
            }
        }
        cur = next;
    }
    assert(irep_views(ireps@) + Seq::<IrepView>::empty() =~= irep_views(ireps@));
    Ok((irep_size, irep_header, ireps))
}


// ---------------------------------------------------------------------------
// Sections and the whole binary
// ---------------------------------------------------------------------------

/// The four bytes at the front of `src` read as characters, if there are four.
pub fn peek4(src: &[u8]) -> (r: Option<[char; 4]>)
    ensures
        src@.len() < 4 ==> r is None,
        src@.len() >= 4 ==> (r matches Some(c) && forall|i: int|
            0 <= i < 4 ==> #[trigger] c@[i] == src@[i] as char),
{
    if src.len() < 4 {
        return None;
    }
    let a = src[0] as char;
    let b = src[1] as char;
    let c = src[2] as char;
    let d = src[3] as char;
    Some([a, b, c, d])
}

/// The size declared by the section header at the front of `head`.
pub fn section_end(head: &[u8]) -> (r: Result<usize, Error>)
    ensures
        head@.len() < MISC_HEADER_SIZE ==> r == Err::<usize, Error>(Error::TooShort),
        head@.len() >= MISC_HEADER_SIZE ==> r == Ok::<usize, Error>(be32_at(head@, 4) as usize),
{
    let header = SectionMiscHeader::from_bytes(head)?;
    proof {
        assert(header.size@[0] == head@[4] && header.size@[1] == head@[5]);
        assert(header.size@[2] == head@[6] && header.size@[3] == head@[7]);
    }
    Ok(be32_to_u32(header.size) as usize)
}

/// The local-variable section at the front of `head`, with its declared size.
pub fn section_lvar(head: &[u8]) -> (r: Result<(usize, LVar), Error>)
    ensures
        head@.len() < MISC_HEADER_SIZE ==> r is Err && r->Err_0 == Error::TooShort,
        head@.len() >= MISC_HEADER_SIZE ==> (r matches Ok((n, lvar)) && n == be32_at(head@, 4)
            as usize && lvar.header.bytes() == head@.subrange(0, 8)),
{
    let header = SectionMiscHeader::from_bytes(head)?;
    let lvar = LVar { header };
    proof {
        assert(header.size@[0] == head@[4] && header.size@[1] == head@[5]);
        assert(header.size@[2] == head@[6] && header.size@[3] == head@[7]);
    }
    Ok((be32_to_u32(lvar.header.size) as usize, lvar))
}

/// The size declared by a section that is skipped.
pub fn section_skip(head: &[u8]) -> (r: Result<usize, Error>)
    ensures
        head@.len() < MISC_HEADER_SIZE ==> r == Err::<usize, Error>(Error::TooShort),
        head@.len() >= MISC_HEADER_SIZE ==> r == Ok::<usize, Error>(be32_at(head@, 4) as usize),
{
    let header = SectionMiscHeader::from_bytes(head)?;
    proof {
        assert(header.size@[0] == head@[4] && header.size@[1] == head@[5]);
        assert(header.size@[2] == head@[6] && header.size@[3] == head@[7]);
    }
    Ok(be32_to_u32(header.size) as usize)
}

/// A decoded RITE binary.
#[derive(Debug)]
pub struct Rite {
    pub binary_header: RiteBinaryHeader,
    pub irep_header: SectionIrepHeader,
    pub irep: Vec<Irep>,
    pub lvar: Option<LVar>,
}

/// Mathematical model of a decoded RITE binary.
#[verifier::ext_equal]
pub struct RiteView {
    pub binary_header: Seq<u8>,
    pub irep_header: Seq<u8>,
    pub irep: Seq<IrepView>,
    pub lvar: Option<Seq<u8>>,
}

impl View for Rite {
    type V = RiteView;

    open spec fn view(&self) -> RiteView {
        RiteView {
            binary_header: self.binary_header.bytes(),
            irep_header: self.irep_header.bytes(),
            irep: irep_views(self.irep@),
            lvar: match self.lvar {
                Some(l) => Some(l.header.bytes()),
                None => None,
            },
        }
    }
}

/// Whether `s` starts with the four characters `a`, `b`, `c`, `d`.
pub open spec fn tag_is(s: Seq<u8>, a: char, b: char, c: char, d: char) -> bool {
    &&& s[0] as char == a
    &&& s[1] as char == b
    &&& s[2] as char == c
    &&& s[3] as char == d
}

/// The sections of `s`, read one after the other into `acc` until fewer than
/// four bytes remain. A section whose declared size is zero would never
/// advance and is rejected.
pub open spec fn load_sections(s: Seq<u8>, acc: RiteView) -> Result<RiteView, Error>
    decreases s.len(),
{
    if s.len() < 4 {
        Ok(acc)
    } else if tag_is(s, 'I', 'R', 'E', 'P') {
        match spec_section_irep(s) {
            Err(e) => Err(e),
            Ok((cur, h, ireps)) => if cur == 0 {
                Err(Error::InvalidFormat)
            } else {
                load_sections(
                    s.subrange(cur as int, s.len() as int),
                    RiteView { binary_header: acc.binary_header, irep_header: h, irep: ireps, lvar: acc.lvar },
                )
            },
        }
    } else if tag_is(s, 'L', 'V', 'A', 'R') || tag_is(s, 'D', 'B', 'G', '\0') || tag_is(s, 'E', 'N', 'D', '\0') {
        if s.len() < 8 {
            Err(Error::TooShort)
        } else {
            let cur = be32_at(s, 4);
            if cur == 0 {
                Err(Error::InvalidFormat)
            } else if cur > s.len() {
                Err(Error::TooShort)
            } else {
                let next = if tag_is(s, 'L', 'V', 'A', 'R') {
                    RiteView { binary_header: acc.binary_header, irep_header: acc.irep_header, irep: acc.irep, lvar: Some(s.subrange(0, 8)) }
                } else {
                    acc
                };
                load_sections(s.subrange(cur as int, s.len() as int), next)
            }
        }
    } else {
        Err(Error::InvalidFormat)
    }
}

/// The whole binary `src`: a binary header, then sections.
pub open spec fn spec_load(src: Seq<u8>) -> Result<RiteView, Error> {
    if src.len() < 20 {
        Err(Error::TooShort)
    } else if src.len() - 20 < 12 {
        Err(Error::TooShort)
    } else {
        load_sections(
            src.subrange(20, src.len() as int),
            RiteView {
                binary_header: src.subrange(0, 20),
                irep_header: Seq::new(12, |_i: int| 0u8),
                irep: Seq::empty(),
                lvar: None,
            },
        )
    }
}

/// Model of the outcome of loading.
pub open spec fn load_view(r: Result<Rite, Error>) -> Result<RiteView, Error> {
    match r {
        Ok(rite) => Ok(rite@),
        Err(e) => Err(e),
    }
}

/// Reads a whole RITE binary: its header, then each section in turn.
pub fn load(src: &[u8]) -> (r: Result<Rite, Error>)
    ensures
        load_view(r) == spec_load(src@),
{
    let binary_header = RiteBinaryHeader::from_bytes(src)?;
    let mut rite = Rite {
        binary_header,
        irep_header: SectionIrepHeader::zeroed(),
        irep: Vec::new(),
        lvar: None,
    };
    let (_, rest) = src.split_at(BINARY_HEADER_SIZE);
    let mut head: &[u8] = rest;
    if head.len() < IREP_HEADER_SIZE {
        return Err(Error::TooShort);
    }
    assert(rite@ =~= RiteView {
        binary_header: src@.subrange(0, 20),
        irep_header: Seq::new(12, |_i: int| 0u8),
        irep: Seq::empty(),
        lvar: None,
    });
    loop
        invariant
            load_sections(head@, rite@) == spec_load(src@),
        ensures
            head@.len() < 4,
            load_sections(head@, rite@) == spec_load(src@),
        decreases head@.len(),
    {
        let chrs = match peek4(head) {
            Some(c) => c,
            None => {
                break;
            },
        };
        let ghost before = rite@;
        if chrs[0] == 'I' && chrs[1] == 'R' && chrs[2] == 'E' && chrs[3] == 'P' {
            assert(tag_is(head@, 'I', 'R', 'E', 'P'));
            let (cur, irep_header, irep) = section_irep_1(head)?;
            if cur == 0 {
                return Err(Error::InvalidFormat);
            }
            rite.irep_header = irep_header;
            rite.irep = irep;
            let (_, rest) = head.split_at(cur);
            head = rest;
            assert(rite@ =~= RiteView { binary_header: before.binary_header, irep_header: irep_header.bytes(), irep: irep_views(irep@), lvar: before.lvar });
        } else if chrs[0] == 'L' && chrs[1] == 'V' && chrs[2] == 'A' && chrs[3] == 'R' {
            assert(tag_is(head@, 'L', 'V', 'A', 'R'));
            let (cur, lvar) = section_lvar(head)?;
            if cur == 0 {
                return Err(Error::InvalidFormat);
            }
            if cur > head.len() {
                return Err(Error::TooShort);
            }
            rite.lvar = Some(lvar);
            let (_, rest) = head.split_at(cur);
            head = rest;
        } else if chrs[0] == 'D' && chrs[1] == 'B' && chrs[2] == 'G' && chrs[3] == '\0' {
            assert(tag_is(head@, 'D', 'B', 'G', '\0'));
            let cur = section_skip(head)?;
            if cur == 0 {
                return Err(Error::InvalidFormat);
            }
            if cur > head.len() {
                return Err(Error::TooShort);
            }
            let (_, rest) = head.split_at(cur);
            head = rest;
        } else if chrs[0] == 'E' && chrs[1] == 'N' && chrs[2] == 'D' && chrs[3] == '\0' {
            assert(tag_is(head@, 'E', 'N', 'D', '\0'));
            let cur = section_end(head)?;
            if cur == 0 {
                return Err(Error::InvalidFormat);
            }
            if cur > head.len() {
                return Err(Error::TooShort);
            }
            let (_, rest) = head.split_at(cur);
            head = rest;
        } else {
            return Err(Error::InvalidFormat);
        }
    }
    Ok(rite)
}

/// The big-endian value of the four bytes of `s` from `i`, spelled out.
pub open spec fn word_at(s: Seq<u8>, i: int) -> int {
    (s[i] as int) * 0x1000000 + (s[i + 1] as int) * 0x10000 + (s[i + 2] as int) * 0x100 + (s[i + 3] as int)
}

/// A float pool entry (type 5) holds its eight following bytes read
/// little-endian, as `f64::from_le_bytes` reads the bits of the double.
pub proof fn lemma_float_pool_entry(s: Seq<u8>, p: int)
    requires
        0 <= p,
        p + 9 <= s.len(),
        s[p] == 5,
    ensures
        parse_pool_value(s, p) matches Ok((PoolValueView::Float(u), q)) && q == p + 9 && u as int == (s[p + 1] as int)
            + 0x100 * (s[p + 2] as int) + 0x10000 * (s[p + 3] as int) + 0x1000000 * (s[p + 4] as int) + 0x100000000 * (
        s[p + 5] as int) + 0x10000000000 * (s[p + 6] as int) + 0x1000000000000 * (s[p + 7] as int) + 0x100000000000000
            * (s[p + 8] as int),
{
    assert(le64_at(s, p + 1) < 0x1_0000_0000_0000_0000);
}

/// Integer pool entries are big-endian two's-complement numbers: a 32-bit
/// entry (type 1) reads the next four bytes, a 64-bit entry (type 3) the
/// next eight, the high word first.
pub proof fn lemma_int_pool_entries(s: Seq<u8>, p: int)
    requires
        0 <= p,
    ensures
        p + 5 <= s.len() && s[p] == 1 ==> (parse_pool_value(s, p) matches Ok((PoolValueView::Int32(v), q)) && q == p + 5
            && v as int == (if word_at(s, p + 1) >= 0x8000_0000 {
            word_at(s, p + 1) - 0x1_0000_0000
        } else {
            word_at(s, p + 1)
        })),
        p + 9 <= s.len() && s[p] == 3 ==> (parse_pool_value(s, p) matches Ok((PoolValueView::Int64(v), q)) && q == p + 9
            && v as int == (if word_at(s, p + 1) >= 0x8000_0000 {
            word_at(s, p + 1) * 0x1_0000_0000 + word_at(s, p + 5) - 0x1_0000_0000_0000_0000
        } else {
            word_at(s, p + 1) * 0x1_0000_0000 + word_at(s, p + 5)
        })),
{
    if p + 9 <= s.len() && s[p] == 3 {
        let hi = be32_at(s, p + 1);
        let lo = be32_at(s, p + 5);
        assert(hi < 0x1_0000_0000 && lo < 0x1_0000_0000);
        assert(hi * 0x1_0000_0000 + lo < 0x1_0000_0000_0000_0000) by (nonlinear_arith)
            requires
                hi < 0x1_0000_0000,
                lo < 0x1_0000_0000,
        ;
        assert(hi >= 0x8000_0000 <==> hi * 0x1_0000_0000 + lo >= 0x8000_0000_0000_0000) by (nonlinear_arith)
            requires
                hi < 0x1_0000_0000,
                lo < 0x1_0000_0000,
        ;
    }
}

/// The catch handlers of an IREP record are the `clen` 13-byte entries
/// that follow its instructions; each is a type byte and then the start,
/// end and target offsets as big-endian words, in that order.
pub proof fn lemma_irep_catch_handlers(s: Seq<u8>, cur: int)
    requires
        0 <= cur,
        parse_irep(s, cur) is Ok,
    ensures
        ({
            let v = parse_irep(s, cur)->Ok_0.0;
            let clen = (s[cur + 10] as int) * 0x100 + (s[cur + 11] as int);
            let at = cur + 16 + word_at(s, cur + 12);
            &&& v.catch_handlers.len() == clen
            &&& forall|k: int| 0 <= k < clen ==> {
                let h = #[trigger] v.catch_handlers[k];
                &&& h.type_ == s[at + 13 * k]
                &&& h.start as int == word_at(s, at + 13 * k + 1)
                &&& h.end as int == word_at(s, at + 13 * k + 5)
                &&& h.target as int == word_at(s, at + 13 * k + 9)
            }
        }),
{
    reveal(parse_irep);
    let v = parse_irep(s, cur)->Ok_0.0;
    let clen = (s[cur + 10] as int) * 0x100 + (s[cur + 11] as int);
    let at = cur + 16 + word_at(s, cur + 12);
    assert forall|k: int| 0 <= k < clen implies {
        let h = #[trigger] v.catch_handlers[k];
        &&& h.type_ == s[at + 13 * k]
        &&& h.start as int == word_at(s, at + 13 * k + 1)
        &&& h.end as int == word_at(s, at + 13 * k + 5)
        &&& h.target as int == word_at(s, at + 13 * k + 9)
    } by {
        assert(v.catch_handlers[k] == catch_handler_at(s, at + 13 * k));
        assert(word_at(s, at + 13 * k + 1) < 0x1_0000_0000);
        assert(word_at(s, at + 13 * k + 5) < 0x1_0000_0000);
        assert(word_at(s, at + 13 * k + 9) < 0x1_0000_0000);
    }
}

/// A string pool entry (type 0, or 2 for a static string) is a big-endian
/// 16-bit length `n` followed by `n` bytes and a NUL; the entry holds those
/// `n` bytes.
pub proof fn lemma_string_pool_entry(s: Seq<u8>, p: int)
    requires
        0 <= p,
        p + 3 <= s.len(),
        s[p] == 0 || s[p] == 2,
    ensures
        ({
            let n = (s[p + 1] as int) * 0x100 + (s[p + 2] as int);
            let text = s.subrange(p + 3, p + 3 + n);
            &&& (p + 4 + n <= s.len() && s[p + 3 + n] == 0 && (forall|i: int| p + 3 <= i < p + 3 + n ==> #[trigger] s[i] != 0))
                ==> parse_pool_value(s, p) is Ok
            &&& parse_pool_value(s, p) matches Ok((e, q)) ==> {
                &&& q == p + 4 + n
                &&& s[p + 3 + n] == 0
                &&& (if s[p] == 0 { e == PoolValueView::Str(text) } else { e == PoolValueView::SStr(text) })
            }
        }),
{
    let n = (s[p + 1] as int) * 0x100 + (s[p + 2] as int);
    if p + 4 + n <= s.len() && s[p + 3 + n] == 0 && (forall|i: int| p + 3 <= i < p + 3 + n ==> #[trigger] s[i] != 0) {
        let b = s.subrange(p + 3, p + 4 + n);
        assert forall|i: int| 0 <= i < b.len() - 1 implies b[i] != 0 by {
            assert(b[i] == s[p + 3 + i]);
        }
        assert(valid_cstr(b));
    }
}

/// A symbol name, like a string literal, is a big-endian 16-bit length `n`,
/// then `n` bytes without NUL and a terminating NUL: it reads as those `n`
/// bytes, and reading goes on after the NUL.
pub proof fn lemma_cstr_layout(s: Seq<u8>, p: int)
    requires
        0 <= p,
        p + 2 <= s.len(),
    ensures
        ({
            let n = (s[p] as int) * 0x100 + (s[p + 1] as int);
            &&& (p + 3 + n <= s.len() && s[p + 2 + n] == 0 && (forall|i: int| p + 2 <= i < p + 2 + n ==> #[trigger] s[i]
                != 0)) ==> parse_cstr(s, p) == Ok::<(Seq<u8>, int), Error>((s.subrange(p + 2, p + 2 + n), p + 3 + n))
            &&& parse_cstr(s, p) matches Ok((b, q)) ==> b == s.subrange(p + 2, p + 2 + n) && q == p + 3 + n && s[p + 2
                + n] == 0
        }),
{
    let n = (s[p] as int) * 0x100 + (s[p + 1] as int);
    if p + 3 + n <= s.len() && s[p + 2 + n] == 0 && (forall|i: int| p + 2 <= i < p + 2 + n ==> #[trigger] s[i] != 0) {
        let b = s.subrange(p + 2, p + 3 + n);
        assert forall|i: int| 0 <= i < b.len() - 1 implies b[i] != 0 by {
            assert(b[i] == s[p + 2 + i]);
        }
        assert(valid_cstr(b));
    }
}

} // verus!
