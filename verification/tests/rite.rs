use mrubyedge::rite::binfmt::{be16_to_u16, be32_to_u32, Error, RiteBinaryHeader};
use mrubyedge::rite::loader::{load, peek4, section_end, section_irep_1, section_skip, PoolValue};
use mrubyedge::rite::irep::{load_irep, load_irep_tree, rite_to_irep};
use mrubyedge::value::RPool;

/// One IREP record: 1 local, 3 registers, 4 instruction bytes, a string and
/// an int32 in the pool, one symbol.
fn irep_record(pool_type: u8) -> Vec<u8> {
    let mut r = vec![
        0, 0, 0, 41, // record size
        0, 1, // nlocals
        0, 3, // nregs
        0, 0, // rlen
        0, 0, // clen
        0, 0, 0, 4, // ilen
        1, 2, 3, 4, // instructions
        0, 2, // plen
    ];
    r.extend_from_slice(&[pool_type, 0, 2, b'h', b'i', 0]);
    r.extend_from_slice(&[1, 0xff, 0xff, 0xff, 0xfe]);
    r.extend_from_slice(&[0, 1, 0, 3, b'f', b'o', b'o', 0]);
    r
}

fn binary(pool_type: u8) -> Vec<u8> {
    let rec = irep_record(pool_type);
    assert_eq!(rec.len(), 41);
    let mut b = Vec::new();
    b.extend_from_slice(b"RITE0300");
    b.extend_from_slice(&[0, 0, 0, 81]);
    b.extend_from_slice(b"MATZ0000");
    b.extend_from_slice(b"IREP");
    b.extend_from_slice(&[0, 0, 0, 53]);
    b.extend_from_slice(b"0300");
    b.extend_from_slice(&rec);
    b.extend_from_slice(b"END\0");
    b.extend_from_slice(&[0, 0, 0, 8]);
    assert_eq!(b.len(), 81);
    b
}

#[test]
fn rite_load_minimal_binary() {
    let rite = load(&binary(0)).expect("load failed");
    assert_eq!(&rite.binary_header.ident, b"RITE");
    assert_eq!(be32_to_u32(rite.binary_header.size), 81);
    assert_eq!(&rite.irep_header.ident, b"IREP");
    assert_eq!(rite.irep.len(), 1);
    let irep = &rite.irep[0];
    assert_eq!(irep.nlocals(), 1);
    assert_eq!(irep.nregs(), 3);
    assert_eq!(irep.rlen(), 0);
    assert_eq!(irep.clen(), 0);
    assert_eq!(irep.insn, vec![1, 2, 3, 4]);
    assert_eq!(irep.plen, 2);
    assert!(matches!(&irep.pool[0], PoolValue::Str(s) if s.as_slice() == b"hi"));
    assert!(matches!(irep.pool[1], PoolValue::Int32(-2)));
    assert_eq!(irep.slen, 1);
    assert_eq!(irep.syms, vec![b"foo".to_vec()]);
    assert!(irep.catch_handlers.is_empty());
    assert!(rite.lvar.is_none());
}

#[test]
fn rite_static_string_pool_entry() {
    let rite = load(&binary(2)).expect("load failed");
    assert!(matches!(&rite.irep[0].pool[0], PoolValue::SStr(s) if s.as_slice() == b"hi"));
}

#[test]
fn rite_unknown_pool_type() {
    assert_eq!(load(&binary(9)).err(), Some(Error::UnknownPoolType(9)));
}

#[test]
fn rite_too_short() {
    assert_eq!(load(&binary(0)[..10]).err(), Some(Error::TooShort));
    assert_eq!(load(&binary(0)[..25]).err(), Some(Error::TooShort));
    assert_eq!(load(&binary(0)[..60]).err(), Some(Error::TooShort));
}

#[test]
fn rite_unknown_section() {
    let mut b = binary(0);
    b[73] = b'X';
    assert_eq!(load(&b).err(), Some(Error::InvalidFormat));
}

#[test]
fn rite_zero_sized_section() {
    let mut b = binary(0);
    b[80] = 0;
    assert_eq!(load(&b).err(), Some(Error::InvalidFormat));
}

#[test]
fn rite_bad_cstring() {
    let mut b = binary(0);
    // the NUL that ends "hi"
    let at = 20 + 12 + 16 + 4 + 2 + 5;
    assert_eq!(b[at], 0);
    b[at] = b'!';
    assert_eq!(load(&b).err(), Some(Error::InvalidFormat));
}

#[test]
fn rite_headers_and_sections() {
    let b = binary(0);
    let h = RiteBinaryHeader::from_bytes(&b).expect("header");
    assert_eq!(&h.major_version, b"03");
    assert_eq!(&h.compiler_name, b"MATZ");
    assert!(RiteBinaryHeader::from_bytes(&b[..19]).is_err());
    assert_eq!(peek4(&b), Some(['R', 'I', 'T', 'E']));
    assert_eq!(peek4(&b[..3]), None);
    assert_eq!(section_end(&b[73..]), Ok(8));
    assert_eq!(section_skip(&b[73..]), Ok(8));
    assert_eq!(section_end(&b[73..79]), Err(Error::TooShort));
    let (size, hdr, ireps) = section_irep_1(&b[20..]).expect("irep section");
    assert_eq!(size, 53);
    assert_eq!(&hdr.rite_version, b"0300");
    assert_eq!(ireps.len(), 1);
}

#[test]
fn rite_big_endian_decoding() {
    assert_eq!(be32_to_u32([0x12, 0x34, 0x56, 0x78]), 0x1234_5678);
    assert_eq!(be16_to_u16([0xab, 0xcd]), 0xabcd);
}

#[test]
fn rite_int64_pool_entry_is_big_endian() {
    let head: Vec<u8> = vec![
        0x49, 0x52, 0x45, 0x50, 0, 0, 0, 42, 0x30, 0x33, 0x30, 0x30, 0, 0, 0, 30, 0, 1, 0, 2, 0, 0, 0, 0, 0, 0, 0,
        1, 0x69, 0, 1, 3, 0, 0, 0, 1, 0, 0, 0, 0, 0, 0,
    ];
    let (size, _, ireps) = section_irep_1(&head).expect("irep section");
    assert_eq!(size, 42);
    assert_eq!(ireps.len(), 1);
    assert_eq!(ireps[0].insn, vec![0x69]);
    assert_eq!(ireps[0].plen, 1);
    assert!(matches!(ireps[0].pool[0], PoolValue::Int64(4294967296)));
    assert_eq!(ireps[0].slen, 0);
    assert!(ireps[0].syms.is_empty());
    assert!(ireps[0].catch_handlers.is_empty());
}

/// An IREP section of minimal records (no instructions, pool or symbols),
/// record `i` declaring `rlens[i]` children.
fn irep_section(rlens: &[u8]) -> Vec<u8> {
    let size = 12 + 20 * rlens.len() as u32;
    let mut b = Vec::new();
    b.extend_from_slice(b"IREP");
    b.extend_from_slice(&size.to_be_bytes());
    b.extend_from_slice(b"0300");
    for r in rlens {
        b.extend_from_slice(&[0, 0, 0, 20, 0, 1, 0, 1, 0, *r, 0, 0, 0, 0, 0, 0, 0, 0, 0, 0]);
    }
    b
}

#[test]
fn irep_tree_follows_preorder_and_rlen() {
    let (_, _, ireps) = section_irep_1(&irep_section(&[2, 1, 0, 0])).expect("irep section");
    assert_eq!(ireps.len(), 4);
    let tree = rite_to_irep(&ireps).expect("tree");
    assert_eq!(tree.id, 0);
    assert_eq!(tree.reps.len(), 2);
    assert_eq!(tree.reps[0].id, 1);
    assert_eq!(tree.reps[0].reps.len(), 1);
    assert_eq!(tree.reps[0].reps[0].id, 2);
    assert_eq!(tree.reps[1].id, 3);
    assert!(tree.reps[1].reps.is_empty());
    let (_, end) = load_irep_tree(&ireps, 1).expect("subtree");
    assert_eq!(end, 3);
}

#[test]
fn irep_tree_missing_child_is_none() {
    let (_, _, ireps) = section_irep_1(&irep_section(&[2, 0])).expect("irep section");
    assert!(rite_to_irep(&ireps).is_none());
    assert!(load_irep_tree(&ireps, 5).is_none());
}

#[test]
fn load_irep_converts_symbols_pool_and_counts() {
    let rite = load(&binary(0)).expect("load failed");
    let (ir, end) = load_irep(&rite.irep, 0).expect("irep");
    assert_eq!(end, 1);
    assert_eq!(ir.id, 0);
    assert_eq!(ir.nlocals, 1);
    assert_eq!(ir.nregs, 3);
    assert_eq!(ir.rlen, 0);
    assert_eq!(ir.syms.len(), 1);
    assert_eq!(ir.syms[0].name, "foo");
    assert_eq!(ir.pool.len(), 2);
    assert!(matches!(&ir.pool[0], RPool::Str(s) if s == "hi"));
    assert!(matches!(ir.pool[1], RPool::Int(-2)));
    assert!(ir.reps.is_empty());
}

#[test]
fn load_irep_converts_int64_and_static_strings() {
    let rite = load(&binary(2)).expect("load failed");
    let (ir, _) = load_irep(&rite.irep, 0).expect("irep");
    assert!(matches!(&ir.pool[0], RPool::Str(s) if s == "hi"));
    let head: Vec<u8> = vec![
        0x49, 0x52, 0x45, 0x50, 0, 0, 0, 42, 0x30, 0x33, 0x30, 0x30, 0, 0, 0, 30, 0, 1, 0, 2, 0, 0, 0, 0, 0, 0, 0,
        1, 0x69, 0, 1, 3, 0, 0, 0, 1, 0, 0, 0, 0, 0, 0,
    ];
    let (_, _, ireps) = section_irep_1(&head).expect("irep section");
    let (ir, _) = load_irep(&ireps, 0).expect("irep");
    assert!(matches!(ir.pool[0], RPool::Int(4294967296)));
}

#[test]
fn load_irep_builds_the_child_irep_tree() {
    let (_, _, ireps) = section_irep_1(&irep_section(&[2, 1, 0, 0])).expect("irep section");
    let (ir, end) = load_irep(&ireps, 0).expect("irep");
    assert_eq!(end, 4);
    assert_eq!(ir.rlen, 2);
    assert_eq!(ir.reps.len(), 2);
    assert_eq!(ir.reps[0].id, 1);
    assert_eq!(ir.reps[0].reps[0].id, 2);
    assert_eq!(ir.reps[1].id, 3);
    assert_eq!(ir.reps[1].nregs, 1);
    let (_, _, short) = section_irep_1(&irep_section(&[2, 0])).expect("irep section");
    assert!(load_irep(&short, 0).is_none());
}
