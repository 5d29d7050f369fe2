//! A minimal control-flow instruction set: enough to halt, fall through,
//! jump within a library and call into a library site. It grounds the
//! instruction-set capability that the library core is generic over; richer
//! instruction sets plug into the same capability.

use vstd::prelude::*;

use crate::cursor::{lemma_u16_le_bytes, Cursor, CursorError};
use crate::library::{ExecStep, InstructionSet, LibSite, Registers};

verus! {

/// A control-flow instruction. One tag byte selects the variant; jump and
/// call targets carry a little-endian two-byte code offset. A call names a
/// site within the executing library itself, whose identity the instruction
/// takes from its execution context.
#[derive(Clone, Copy, PartialEq, Eq, Debug)]
pub enum CtrlOp {
    /// Halt execution; encoded as the tag byte 0.
    Stop,
    /// Do nothing and fall through; encoded as the tag byte 1.
    Nop,
    /// Jump to the given code offset in the same library; tag byte 2.
    Jmp(u16),
    /// Yield a call site at the given code offset of the executing library;
    /// tag byte 3.
    Call(u16),
}

impl InstructionSet for CtrlOp {
    open spec fn enc(self) -> Seq<u8> {
        match self {
            CtrlOp::Stop => seq![0u8],
            CtrlOp::Nop => seq![1u8],
            CtrlOp::Jmp(p) => seq![2u8, (p & 0xff) as u8, (p >> 8) as u8],
            CtrlOp::Call(p) => seq![3u8, (p & 0xff) as u8, (p >> 8) as u8],
        }
    }

    proof fn lemma_enc(a: CtrlOp, b: CtrlOp) {
        match a {
            CtrlOp::Stop => {},
            CtrlOp::Nop => {},
            CtrlOp::Jmp(p) => {},
            CtrlOp::Call(p) => {},
        }
        if a.enc().len() <= b.enc().len() && a.enc() == b.enc().take(a.enc().len() as int) {
            assert(a.enc()[0] == b.enc().take(a.enc().len() as int)[0]);
            match b {
                CtrlOp::Stop => {},
                CtrlOp::Nop => {},
                CtrlOp::Jmp(p) => {},
                CtrlOp::Call(p) => {},
            }
            match (a, b) {
                (CtrlOp::Stop, CtrlOp::Stop) => {},
                (CtrlOp::Nop, CtrlOp::Nop) => {},
                (CtrlOp::Jmp(pa), CtrlOp::Jmp(pb)) => {
                    assert(a.enc() =~= b.enc());
                    assert(a.enc()[1] == b.enc()[1] && a.enc()[2] == b.enc()[2]);
                    assert(pa == pb) by (bit_vector)
                        requires
                            (pa & 0xff) as u8 == (pb & 0xff) as u8,
                            (pa >> 8) as u8 == (pb >> 8) as u8,
                    ;
                },
                (CtrlOp::Call(pa), CtrlOp::Call(pb)) => {
                    assert(a.enc() =~= b.enc());
                    assert(a.enc()[1] == b.enc()[1] && a.enc()[2] == b.enc()[2]);
                    assert(pa == pb) by (bit_vector)
                        requires
                            (pa & 0xff) as u8 == (pb & 0xff) as u8,
                            (pa >> 8) as u8 == (pb >> 8) as u8,
                    ;
                },
                _ => {
                    assert(false);
                },
            }
        }
    }

    fn write(&self, w: &mut Cursor) -> (r: Result<(), CursorError>) {
        let p = w.pos();
        match self {
            CtrlOp::Stop => {
                if p as usize >= w.code_len() || p > 65534 {
                    return Err(CursorError::Eof);
                }
                let res = w.write_u8(0);
                proof {
                    assert(final(w).code@ =~= old(w).code@.take(p as int).add(self.enc()).add(
                        old(w).code@.skip(p + 1),
                    ));
                    assert(old(w).data@.take(old(w).data@.len() as int) =~= old(w).data@);
                }
                res
            },
            CtrlOp::Nop => {
                if p as usize >= w.code_len() || p > 65534 {
                    return Err(CursorError::Eof);
                }
                let res = w.write_u8(1);
                proof {
                    assert(final(w).code@ =~= old(w).code@.take(p as int).add(self.enc()).add(
                        old(w).code@.skip(p + 1),
                    ));
                    assert(old(w).data@.take(old(w).data@.len() as int) =~= old(w).data@);
                }
                res
            },
            CtrlOp::Jmp(target) => {
                if p as usize + 3 > w.code_len() || p > 65532 {
                    return Err(CursorError::Eof);
                }
                let r8 = w.write_u8(2);
                proof {
                    assert(r8 matches Ok(u));
                }
                let r16 = w.write_u16(*target);
                proof {
                    assert(r16 matches Ok(u));
                    assert(final(w).code@ =~= old(w).code@.take(p as int).add(self.enc()).add(
                        old(w).code@.skip(p + 3),
                    ));
                    assert(old(w).data@.take(old(w).data@.len() as int) =~= old(w).data@);
                }
                Ok(())
            },
            CtrlOp::Call(target) => {
                if p as usize + 3 > w.code_len() || p > 65532 {
                    return Err(CursorError::Eof);
                }
                let r8 = w.write_u8(3);
                proof {
                    assert(r8 matches Ok(u));
                }
                let r16 = w.write_u16(*target);
                proof {
                    assert(r16 matches Ok(u));
                    assert(final(w).code@ =~= old(w).code@.take(p as int).add(self.enc()).add(
                        old(w).code@.skip(p + 3),
                    ));
                    assert(old(w).data@.take(old(w).data@.len() as int) =~= old(w).data@);
                }
                Ok(())
            },
        }
    }

    fn read(r: &mut Cursor) -> (res: Result<CtrlOp, CursorError>) {
        let ghost pre = *old(r);
        let opcode = match r.read_u8() {
            Ok(b) => b,
            Err(e) => {
                return Err(e);
            },
        };
        if r.is_eof() {
            proof {
                if exists|a: CtrlOp|
                    pre.byte_pos + #[trigger] a.enc().len() <= pre.code@.len() && pre.byte_pos
                        + a.enc().len() <= 65535 && pre.code@.subrange(
                        pre.byte_pos as int,
                        pre.byte_pos + a.enc().len(),
                    ) == a.enc() {
                    let a = choose|a: CtrlOp|
                        pre.byte_pos + #[trigger] a.enc().len() <= pre.code@.len() && pre.byte_pos
                            + a.enc().len() <= 65535 && pre.code@.subrange(
                            pre.byte_pos as int,
                            pre.byte_pos + a.enc().len(),
                        ) == a.enc();
                    match a {
                        CtrlOp::Stop => {},
                        CtrlOp::Nop => {},
                        CtrlOp::Jmp(p) => {},
                        CtrlOp::Call(p) => {},
                    }
                    assert(pre.byte_pos + 1 <= 65535);
                    assert(false);
                }
            }
            return Err(CursorError::Eof);
        }
        if opcode == 0 {
            proof {
                assert(pre.code@.subrange(pre.byte_pos as int, pre.byte_pos + 1)
                    =~= CtrlOp::Stop.enc());
            }
            return Ok(CtrlOp::Stop);
        }
        if opcode == 1 {
            proof {
                assert(pre.code@.subrange(pre.byte_pos as int, pre.byte_pos + 1)
                    =~= CtrlOp::Nop.enc());
            }
            return Ok(CtrlOp::Nop);
        }
        if opcode == 2 || opcode == 3 {
            if r.pos() as usize + 2 > r.code_len() {
                proof {
                    lemma_ctrl_read_witness(pre, opcode);
                }
                return Err(CursorError::Eof);
            }
            let target = match r.read_u16() {
                Ok(v) => v,
                Err(e) => {
                    proof {
                        lemma_ctrl_read_witness(pre, opcode);
                    }
                    return Err(e);
                },
            };
            proof {
                lemma_u16_le_bytes(pre.code@[pre.byte_pos + 1], pre.code@[pre.byte_pos + 2]);
                if opcode == 2 {
                    assert(pre.code@.subrange(pre.byte_pos as int, pre.byte_pos + 3) =~= CtrlOp::Jmp(
                        target,
                    ).enc());
                } else {
                    assert(pre.code@.subrange(pre.byte_pos as int, pre.byte_pos + 3)
                        =~= CtrlOp::Call(target).enc());
                }
            }
            if opcode == 2 {
                return Ok(CtrlOp::Jmp(target));
            }
            return Ok(CtrlOp::Call(target));
        }
        proof {
            if exists|a: CtrlOp|
                pre.byte_pos + #[trigger] a.enc().len() <= pre.code@.len() && pre.byte_pos
                    + a.enc().len() <= 65535 && pre.code@.subrange(
                    pre.byte_pos as int,
                    pre.byte_pos + a.enc().len(),
                ) == a.enc() {
                let a = choose|a: CtrlOp|
                    pre.byte_pos + #[trigger] a.enc().len() <= pre.code@.len() && pre.byte_pos
                        + a.enc().len() <= 65535 && pre.code@.subrange(
                        pre.byte_pos as int,
                        pre.byte_pos + a.enc().len(),
                    ) == a.enc();
                match a {
                    CtrlOp::Stop => {},
                    CtrlOp::Nop => {},
                    CtrlOp::Jmp(p) => {},
                    CtrlOp::Call(p) => {},
                }
                assert(pre.code@.subrange(pre.byte_pos as int, pre.byte_pos + a.enc().len())[0]
                    == pre.code@[pre.byte_pos as int]);
                assert(false);
            }
        }
        Err(CursorError::Eof)
    }

    open spec fn exec_spec(self, registers: Registers, site: LibSite) -> (Registers, ExecStep) {
        (
            registers,
            match self {
                CtrlOp::Stop => ExecStep::Stop,
                CtrlOp::Nop => ExecStep::Next,
                CtrlOp::Jmp(target) => ExecStep::Jump(target),
                CtrlOp::Call(target) => ExecStep::Call(LibSite { lib: site.lib, pos: target }),
            },
        )
    }

    fn exec(&self, registers: &mut Registers, site: LibSite) -> (step: ExecStep) {
        match self {
            CtrlOp::Stop => ExecStep::Stop,
            CtrlOp::Nop => ExecStep::Next,
            CtrlOp::Jmp(target) => ExecStep::Jump(*target),
            CtrlOp::Call(target) => ExecStep::Call(LibSite::with(*target, site.lib)),
        }
    }
}

/// In a decode that has consumed the tag byte of a jump or call, any valid
/// encoding at the position is three bytes long and lies within both the
/// code buffer and the addressable range.
proof fn lemma_ctrl_read_witness(pre: Cursor, opcode: u8)
    requires
        opcode == 2 || opcode == 3,
        pre.byte_pos < pre.code@.len(),
        pre.code@[pre.byte_pos as int] == opcode,
    ensures
        (exists|a: CtrlOp|
            pre.byte_pos + #[trigger] a.enc().len() <= pre.code@.len() && pre.byte_pos
                + a.enc().len() <= 65535 && pre.code@.subrange(
                pre.byte_pos as int,
                pre.byte_pos + a.enc().len(),
            ) == a.enc()) ==> pre.byte_pos + 3 <= pre.code@.len() && pre.byte_pos + 3 <= 65535,
{
    if exists|a: CtrlOp|
        pre.byte_pos + #[trigger] a.enc().len() <= pre.code@.len() && pre.byte_pos + a.enc().len()
            <= 65535 && pre.code@.subrange(pre.byte_pos as int, pre.byte_pos + a.enc().len())
            == a.enc() {
        let a = choose|a: CtrlOp|
            pre.byte_pos + #[trigger] a.enc().len() <= pre.code@.len() && pre.byte_pos
                + a.enc().len() <= 65535 && pre.code@.subrange(
                pre.byte_pos as int,
                pre.byte_pos + a.enc().len(),
            ) == a.enc();
        match a {
            CtrlOp::Stop => {},
            CtrlOp::Nop => {},
            CtrlOp::Jmp(p) => {},
            CtrlOp::Call(p) => {},
        }
        assert(pre.code@.subrange(pre.byte_pos as int, pre.byte_pos + a.enc().len())[0]
            == pre.code@[pre.byte_pos as int]);
    }
}

} // verus!

