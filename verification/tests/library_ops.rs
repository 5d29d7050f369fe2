use aluvm::isa::CtrlOp;
use aluvm::library::{Error, Lib, LibSite, Registers};

#[test]
fn roundtrip_assemble_disassemble() {
    let seq = vec![CtrlOp::Nop, CtrlOp::Jmp(5), CtrlOp::Call(9), CtrlOp::Stop];
    let lib = Lib::assemble(&seq).unwrap();
    assert_eq!(lib.code_segment().len(), 8);
    let back = lib.disassemble().unwrap();
    assert_eq!(back, seq);
}

#[test]
fn roundtrip_of_empty_sequence() {
    let seq: Vec<CtrlOp> = vec![];
    let lib = Lib::assemble(&seq).unwrap();
    assert_eq!(lib.code_segment().len(), 0);
    assert_eq!(lib.disassemble().unwrap(), seq);
}

#[test]
fn disassemble_rejects_malformed_stream() {
    let lib = Lib::<CtrlOp>::with(vec![9], vec![]).unwrap();
    assert!(lib.disassemble().is_err());
}

#[test]
fn code_segment_bound_enforced() {
    // 65,537 bytes of code fail with a code-segment-too-large condition.
    let r = Lib::<CtrlOp>::with(vec![0u8; 65537], vec![]);
    assert!(matches!(r, Err(Error::CodeSegmentTooLarge(65537))));
    // The bound itself is admissible.
    assert!(Lib::<CtrlOp>::with(vec![0u8; 65536], vec![]).is_ok());
}

#[test]
fn data_segment_bound_enforced() {
    let r = Lib::<CtrlOp>::with(vec![], vec![0u8; 16777217]);
    assert!(matches!(r, Err(Error::DataSegmentTooLarge(16777217))));
    assert!(Lib::<CtrlOp>::with(vec![], vec![0u8; 16777216]).is_ok());
}

#[test]
fn identity_depends_on_code_alone() {
    let a = Lib::<CtrlOp>::with(vec![1, 2, 3], vec![4, 5]).unwrap();
    let b = Lib::<CtrlOp>::with(vec![1, 2, 3], vec![9]).unwrap();
    assert_eq!(a.lib_hash(), b.lib_hash());
}

#[test]
fn identity_changes_with_any_code_byte() {
    let a = Lib::<CtrlOp>::with(vec![1, 2, 3], vec![]).unwrap();
    let b = Lib::<CtrlOp>::with(vec![1, 2, 4], vec![]).unwrap();
    assert_ne!(a.lib_hash(), b.lib_hash());
}

#[test]
fn identity_is_a_digest_not_the_code() {
    let code = vec![7u8; 32];
    let lib = Lib::<CtrlOp>::with(code.clone(), vec![]).unwrap();
    let hash = lib.lib_hash();
    assert_eq!(hash.bytes.len(), 32);
    assert_ne!(hash.bytes.to_vec(), code);
}

#[test]
fn run_two_instructions_to_a_halt() {
    // A no-op that advances to a Stop: started at entrypoint 0, the run
    // yields no control transfer.
    let lib = Lib::assemble(&vec![CtrlOp::Nop, CtrlOp::Stop]).unwrap();
    let mut registers = Registers::new();
    assert!(lib.run(0, &mut registers).is_none());
}

#[test]
fn run_off_the_end_yields_no_transfer() {
    let lib = Lib::assemble(&vec![CtrlOp::Nop, CtrlOp::Nop]).unwrap();
    let mut registers = Registers::new();
    assert!(lib.run(0, &mut registers).is_none());
    assert!(lib.run(40, &mut registers).is_none());
}

#[test]
fn run_follows_jumps_within_the_library() {
    // Jmp(4) hops over the Nop at offset 3 straight to the Stop at 4.
    let lib = Lib::assemble(&vec![CtrlOp::Jmp(4), CtrlOp::Nop, CtrlOp::Stop]).unwrap();
    let mut registers = Registers::new();
    assert!(lib.run(0, &mut registers).is_none());
}

#[test]
fn run_yields_call_site() {
    let lib = Lib::assemble(&vec![CtrlOp::Call(7)]).unwrap();
    let mut registers = Registers::new();
    let site = lib.run(0, &mut registers).unwrap();
    assert_eq!(site.pos, 7);
    assert_eq!(site.lib, lib.lib_hash());
}

#[test]
fn run_decode_failure_acts_as_halt() {
    let lib = Lib::<CtrlOp>::with(vec![9], vec![]).unwrap();
    let mut registers = Registers::new();
    assert!(lib.run(0, &mut registers).is_none());
}

#[test]
fn lib_site_pairs_position_and_identity() {
    let lib = Lib::<CtrlOp>::with(vec![1], vec![]).unwrap();
    let hash = lib.lib_hash();
    let site = LibSite::with(11, hash);
    assert_eq!(site.pos, 11);
    assert_eq!(site.lib, hash);
}

#[test]
fn segments_are_returned_as_stored() {
    let lib = Lib::<CtrlOp>::with(vec![1, 2], vec![3]).unwrap();
    assert_eq!(lib.code_segment(), &vec![1, 2]);
    assert_eq!(lib.data_segment(), &vec![3]);
}
