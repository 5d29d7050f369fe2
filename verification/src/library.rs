//! An immutable, content-identified bytecode unit: a code segment paired
//! with a data segment, generic over a pluggable instruction-set capability,
//! together with assembly, disassembly, hash identity and the single-step
//! execution loop.

use vstd::prelude::*;

use crate::cursor::{Cursor, CursorError};

verus! {

/// Errors of library creation from bytecode and data segments.
#[derive(Clone, Copy, PartialEq, Eq, Hash, Debug)]
pub enum Error {
    /// The size of the code segment exceeds its bound (the size is carried).
    CodeSegmentTooLarge(usize),

    /// The size of the data segment exceeds its bound (the size is carried).
    DataSegmentTooLarge(usize),
}

/// The library identity: a domain-separated 256-bit digest of the code
/// segment bytes alone.
#[derive(Clone, Copy, PartialEq, Eq, Hash, Debug)]
pub struct LibHash {
    /// The digest bytes.
    pub bytes: [u8; 32],
}

/// The digest that identifies a code segment: a function of the code bytes
/// alone, stable across processes and machines.
pub uninterp spec fn lib_hash_of(code: Seq<u8>) -> Seq<u8>;

/// Relies on bitcoin_hashes sha256: a hash engine resumed via
/// `HashEngine::from_midstate` from the fixed library-identity midstate is
/// fed the code bytes and finalized with `Hash::from_engine`, so the digest
/// depends on the code bytes alone.
#[verifier::external_body]
fn tagged_hash(code: &Vec<u8>) -> (r: LibHash)
    ensures
        r.bytes@ == lib_hash_of(code@),
{
    let midstate = bitcoin_hashes::sha256::Midstate::new(
        [
            156, 224, 228, 230, 124, 17, 108, 57, 56, 179, 202, 242, 195, 15, 80, 137, 211, 243,
            147, 108, 71, 99, 110, 96, 125, 179, 62, 234, 221, 198, 240, 201,
        ],
        64,
    );
    let mut engine = bitcoin_hashes::sha256::HashEngine::from_midstate(midstate);
    bitcoin_hashes::HashEngine::input(&mut engine, code.as_slice());
    LibHash { bytes: bitcoin_hashes::sha256::Hash::from_engine(engine).to_byte_array() }
}

/// A location within a library: the identity of the library and a byte
/// offset from the beginning of its code segment. Used for jump and call
/// targets and as the execution context handed to instructions.
#[derive(Clone, Copy, PartialEq, Eq, Hash, Debug)]
pub struct LibSite {
    /// Library identity.
    pub lib: LibHash,

    /// Offset from the beginning of the code segment, in bytes.
    pub pos: u16,
}

impl LibSite {
    /// Constructs a library site from a position and a library identity.
    pub fn with(pos: u16, lib: LibHash) -> (r: LibSite)
        ensures
            r.pos == pos,
            r.lib == lib,
    {
        LibSite { lib, pos }
    }
}

/// The outcome of executing one instruction: halt, fall through to the next
/// instruction, jump within the same library, or call into a library site.
#[derive(Clone, Copy, PartialEq, Eq, Debug)]
pub enum ExecStep {
    /// Halt the execution loop; no control transfer is yielded.
    Stop,
    /// Continue at the position right after the decoded instruction.
    Next,
    /// Continue at the given byte offset within the same library.
    Jump(u16),
    /// Leave the loop and yield the given site as the next location.
    Call(LibSite),
}

/// The register-file capability consumed by instruction execution. The
/// register file proper is an external collaborator; this boundary carries
/// the status flag that soft conditions, such as a clamped data read, set.
pub struct Registers {
    /// The status flag.
    pub st0: bool,
}

impl Registers {
    /// A fresh register file with the status flag set.
    pub fn new() -> (r: Registers)
        ensures
            r.st0 == true,
    {
        Registers { st0: true }
    }
}

/// The instruction-set capability the library core is generic over: each
/// instruction knows its byte encoding, how to write and read itself through
/// a cursor, and how to execute against a register file. The core never
/// inspects instruction semantics directly.
pub trait InstructionSet: Sized {
    /// The byte encoding of this instruction within the code segment.
    spec fn enc(self) -> Seq<u8>;

    /// Encodings are nonempty, and prefix-free: no encoding is a proper
    /// prefix of another, so a byte stream decodes to at most one
    /// instruction sequence.
    proof fn lemma_enc(a: Self, b: Self)
        ensures
            1 <= a.enc().len(),
            (a.enc().len() <= b.enc().len() && a.enc() == b.enc().take(a.enc().len() as int))
                ==> a == b,
    ;

    /// Encodes this instruction at the cursor's position, which must be
    /// byte-aligned and backed by still-unwritten (zero) bytes; on success
    /// exactly the encoding has been laid down and the position has moved
    /// past it, and the encoding succeeds whenever it fits into the buffer
    /// and the addressable range. Writes may append to the data segment but
    /// never rewrite it.
    fn write(&self, w: &mut Cursor) -> (r: Result<(), CursorError>)
        requires
            old(w).inv(),
            old(w).bit_pos == 0,
            !old(w).eof,
            forall|i: int| old(w).byte_pos <= i < old(w).code@.len() ==> old(w).code@[i] == 0,
        ensures
            final(w).inv(),
            final(w).code@.len() == old(w).code@.len(),
            old(w).data@.is_prefix_of(final(w).data@),
            r matches Ok(u) ==> ({
                &&& final(w).bit_pos == 0
                &&& !final(w).eof
                &&& old(w).byte_pos + self.enc().len() <= old(w).code@.len()
                &&& old(w).byte_pos + self.enc().len() <= 65535
                &&& final(w).byte_pos == old(w).byte_pos + self.enc().len()
                &&& final(w).code@ == old(w).code@.take(old(w).byte_pos as int).add(
                    self.enc(),
                ).add(old(w).code@.skip(old(w).byte_pos + self.enc().len()))
            }),
            (old(w).byte_pos + self.enc().len() <= old(w).code@.len() && old(w).byte_pos
                + self.enc().len() <= 65535) ==> r is Ok,
    ;

    /// Decodes one instruction at the cursor's byte-aligned position. On
    /// success the consumed bytes are exactly the returned instruction's
    /// encoding; and whenever a valid encoding lies at the position, the
    /// decode succeeds. The buffers are never modified.
    fn read(r: &mut Cursor) -> (res: Result<Self, CursorError>)
        requires
            old(r).inv(),
            old(r).bit_pos == 0,
            !old(r).eof,
            old(r).byte_pos < old(r).code@.len(),
        ensures
            final(r).inv(),
            final(r).code@ == old(r).code@,
            final(r).data@ == old(r).data@,
            res matches Ok(i) ==> ({
                &&& final(r).bit_pos == 0
                &&& !final(r).eof
                &&& old(r).byte_pos + i.enc().len() <= old(r).code@.len()
                &&& old(r).byte_pos + i.enc().len() <= 65535
                &&& final(r).byte_pos == old(r).byte_pos + i.enc().len()
                &&& old(r).code@.subrange(old(r).byte_pos as int, final(r).byte_pos as int)
                    == i.enc()
            }),
            (exists|a: Self|
                old(r).byte_pos + #[trigger] a.enc().len() <= old(r).code@.len() && old(r).byte_pos
                    + a.enc().len() <= 65535 && old(r).code@.subrange(
                    old(r).byte_pos as int,
                    old(r).byte_pos + a.enc().len(),
                ) == a.enc()) ==> res is Ok,
    ;

    /// What executing this instruction does: the register file it leaves
    /// behind and the control-flow outcome it yields, as a function of the
    /// register file it meets and its context site.
    spec fn exec_spec(self, registers: Registers, site: LibSite) -> (Registers, ExecStep);

    /// Executes this instruction against the register file, receiving the
    /// current library site (this library's identity and the position just
    /// past the instruction) as context, and yields the control-flow
    /// outcome, exactly as `exec_spec` describes it.
    fn exec(&self, registers: &mut Registers, site: LibSite) -> (step: ExecStep)
        ensures
            (*final(registers), step) == self.exec_spec(*old(registers), site),
    ;
}

/// Whether the instruction `i` is what the code buffer encodes at byte
/// offset `p`: its encoding lies there, within the buffer and within the
/// addressable range.
pub open spec fn decodes_at<E: InstructionSet>(code: Seq<u8>, p: int, i: E) -> bool {
    &&& p + i.enc().len() <= code.len()
    &&& p + i.enc().len() <= 65535
    &&& code.subrange(p, p + i.enc().len() as int) == i.enc()
}

/// At most one instruction is encoded at a given offset, since encodings
/// are prefix-free.
pub proof fn lemma_decode_unique<E: InstructionSet>(code: Seq<u8>, p: int, a: E, b: E)
    requires
        0 <= p,
        decodes_at(code, p, a),
        decodes_at(code, p, b),
    ensures
        a == b,
{
    let ea = a.enc();
    let eb = b.enc();
    if ea.len() <= eb.len() {
        assert(ea =~= eb.take(ea.len() as int)) by {
            assert(forall|t: int|
                0 <= t < ea.len() ==> ea[t] == code.subrange(p, p + ea.len() as int)[t] && eb[t]
                    == code.subrange(p, p + eb.len() as int)[t]);
        }
        E::lemma_enc(a, b);
    } else {
        assert(eb =~= ea.take(eb.len() as int)) by {
            assert(forall|t: int|
                0 <= t < eb.len() ==> ea[t] == code.subrange(p, p + ea.len() as int)[t] && eb[t]
                    == code.subrange(p, p + eb.len() as int)[t]);
        }
        E::lemma_enc(b, a);
    }
}

/// The state that the execution loop reaches from byte offset `pos` with
/// the given register file, within `fuel` decode steps: the register file
/// it leaves behind, and either a call site to resume at or no control
/// transfer. One step decodes the instruction at the position (there is at
/// most one), executes it, and dispatches its outcome: falling through
/// continues right after the instruction, a jump continues at its target, a
/// halt ends with no transfer, a call ends at that very site; reaching the
/// end of the code, failing to decode and exhausting the fuel likewise end
/// with no transfer.
pub open spec fn run_state<E: InstructionSet>(
    code: Seq<u8>,
    registers: Registers,
    lib: LibHash,
    pos: u16,
    fuel: nat,
) -> (Registers, Option<LibSite>)
    decreases fuel,
{
    if pos >= code.len() {
        (registers, None)
    } else if fuel == 0 {
        (registers, None)
    } else if exists|i: E| decodes_at(code, pos as int, i) {
        let i = choose|i: E| decodes_at(code, pos as int, i);
        let next = (pos + i.enc().len()) as u16;
        let site = LibSite { lib, pos: next };
        let (after, step) = i.exec_spec(registers, site);
        match step {
            ExecStep::Stop => (after, None),
            ExecStep::Next => run_state::<E>(code, after, lib, next, (fuel - 1) as nat),
            ExecStep::Jump(target) => run_state::<E>(code, after, lib, target, (fuel - 1) as nat),
            ExecStep::Call(target) => (after, Some(target)),
        }
    } else {
        (registers, None)
    }
}

/// What a run of the execution loop leaves behind: for the library identity
/// (whose digest bytes the hash names), the register file and the yielded
/// control transfer are those that `run_state` reaches from the entrypoint.
pub open spec fn run_post<E: InstructionSet>(
    code: Seq<u8>,
    registers_pre: Registers,
    registers_post: Registers,
    entrypoint: u16,
    r: Option<LibSite>,
) -> bool {
    exists|h: LibHash|
        #[trigger] run_state::<E>(code, registers_pre, h, entrypoint, u64::MAX as nat) == (
        registers_post,
        r,
    ) && h.bytes@ == lib_hash_of(code)
}

/// The byte stream that encodes an instruction sequence: the concatenation
/// of the instructions' encodings in order.
pub open spec fn encs<E: InstructionSet>(seq: Seq<E>) -> Seq<u8>
    decreases seq.len(),
{
    if seq.len() == 0 {
        Seq::empty()
    } else {
        encs(seq.drop_last()).add(seq.last().enc())
    }
}

/// Appending one instruction appends exactly its encoding.
pub proof fn lemma_encs_push<E: InstructionSet>(seq: Seq<E>, i: E)
    ensures
        encs(seq.push(i)) == encs(seq).add(i.enc()),
{
    assert(seq.push(i).drop_last() =~= seq);
    assert(seq.push(i).last() == i);
}

/// The encoding of a prefix one instruction longer.
pub proof fn lemma_encs_take_succ<E: InstructionSet>(seq: Seq<E>, k: int)
    requires
        0 <= k < seq.len(),
    ensures
        encs(seq.take(k + 1)) == encs(seq.take(k)).add(seq[k].enc()),
{
    assert(seq.take(k + 1).drop_last() =~= seq.take(k));
    assert(seq.take(k + 1).last() == seq[k]);
}

/// The encoded length of a prefix grows with the prefix.
pub proof fn lemma_encs_take_len_monotone<E: InstructionSet>(seq: Seq<E>, a: int, b: int)
    requires
        0 <= a <= b <= seq.len(),
    ensures
        encs(seq.take(a)).len() <= encs(seq.take(b)).len(),
    decreases b - a,
{
    if a < b {
        lemma_encs_take_len_monotone(seq, a, b - 1);
        lemma_encs_take_succ(seq, b - 1);
        assert(encs(seq.take(b)).len() == encs(seq.take(b - 1)).len() + seq[b - 1].enc().len());
    }
}

/// The encoding of a nonempty sequence starts with the encoding of its
/// first instruction.
pub proof fn lemma_encs_head<E: InstructionSet>(seq: Seq<E>)
    requires
        seq.len() > 0,
    ensures
        encs(seq) == seq.first().enc().add(encs(seq.drop_first())),
    decreases seq.len(),
{
    if seq.len() == 1 {
        assert(seq.drop_last() =~= Seq::<E>::empty());
        assert(seq.drop_first() =~= Seq::<E>::empty());
        assert(encs(seq) == encs(seq.drop_last()).add(seq.last().enc()));
        assert(Seq::<u8>::empty().add(seq.last().enc()) =~= seq.last().enc());
        assert(seq.first().enc().add(Seq::<u8>::empty()) =~= seq.first().enc());
        assert(seq.first() == seq.last());
    } else {
        let sdl = seq.drop_last();
        lemma_encs_head(sdl);
        assert(sdl.first() == seq.first());
        assert(sdl.drop_first() =~= seq.drop_first().drop_last());
        assert(seq.drop_first().last() == seq.last());
        assert(encs(seq.drop_first()) == encs(seq.drop_first().drop_last()).add(seq.last().enc()));
        assert(seq.first().enc().add(encs(sdl.drop_first())).add(seq.last().enc())
            =~= seq.first().enc().add(encs(sdl.drop_first()).add(seq.last().enc())));
    }
}

/// Instruction sequences with one encoding: the byte stream determines the
/// instruction sequence, which is what makes disassembly invert assembly.
pub proof fn lemma_encs_injective<E: InstructionSet>(s1: Seq<E>, s2: Seq<E>)
    requires
        encs(s1) == encs(s2),
    ensures
        s1 == s2,
    decreases s1.len(),
{
    if s1.len() == 0 {
        if s2.len() > 0 {
            lemma_encs_head(s2);
            E::lemma_enc(s2.first(), s2.first());
            assert(encs(s2).len() >= s2.first().enc().len());
        }
        assert(s1 =~= s2);
    } else {
        if s2.len() == 0 {
            lemma_encs_head(s1);
            E::lemma_enc(s1.first(), s1.first());
            assert(encs(s1).len() >= s1.first().enc().len());
            assert(false);
        }
        lemma_encs_head(s1);
        lemma_encs_head(s2);
        let h1 = s1.first().enc();
        let h2 = s2.first().enc();
        E::lemma_enc(s1.first(), s1.first());
        E::lemma_enc(s2.first(), s2.first());
        if h1.len() <= h2.len() {
            assert(h1 =~= h2.take(h1.len() as int)) by {
                assert(forall|t: int|
                    0 <= t < h1.len() ==> encs(s1)[t] == h1[t] && encs(s2)[t] == h2[t]);
            }
            E::lemma_enc(s1.first(), s2.first());
        } else {
            assert(h2 =~= h1.take(h2.len() as int)) by {
                assert(forall|t: int|
                    0 <= t < h2.len() ==> encs(s1)[t] == h1[t] && encs(s2)[t] == h2[t]);
            }
            E::lemma_enc(s2.first(), s1.first());
        }
        assert(s1.first() == s2.first());
        let t1 = encs(s1.drop_first());
        let t2 = encs(s2.drop_first());
        assert(h1.add(t1) == h2.add(t2));
        assert(h1 == h2);
        assert(h1.add(t1).len() == h1.len() + t1.len());
        assert(h2.add(t2).len() == h2.len() + t2.len());
        assert(t1.len() == t2.len());
        assert forall|t: int| 0 <= t < t1.len() implies t1[t] == t2[t] by {
            assert(h1.add(t1)[h1.len() + t] == t1[t]);
            assert(h2.add(t2)[h2.len() + t] == t2[t]);
        }
        assert(t1 =~= t2);
        lemma_encs_injective(s1.drop_first(), s2.drop_first());
        assert(s1 =~= s2) by {
            assert(forall|t: int|
                1 <= t < s1.len() ==> s1[t] == s1.drop_first()[t - 1] && s2[t] == s2.drop_first()[t
                    - 1]);
        }
    }
}

/// Copies a byte buffer.
fn clone_bytes(v: &Vec<u8>) -> (r: Vec<u8>)
    ensures
        r@ == v@,
{
    let mut out: Vec<u8> = Vec::new();
    let mut i: usize = 0;
    while i < v.len()
        invariant
            i <= v@.len(),
            out@ == v@.take(i as int),
        decreases v@.len() - i,
    {
        let b = v[i];
        out.push(b);
        proof {
            assert(out@ =~= v@.take(i + 1));
        }
        i = i + 1;
    }
    proof {
        assert(v@.take(v@.len() as int) =~= v@);
    }
    out
}

/// An executable code library: an immutable pairing of a code segment and a
/// data segment, generic over the instruction-set capability it carries.
pub struct Lib<E> {
    /// The encoded instruction stream; at most 65,536 bytes.
    pub code_segment: Vec<u8>,
    /// The content-deduplicated constant heap; at most 16,777,216 bytes.
    pub data_segment: Vec<u8>,
    /// Marker for the instruction-set capability.
    pub instruction_set: core::marker::PhantomData<E>,
}

impl<E: InstructionSet> Lib<E> {
    /// Well-formedness: both segments lie within their bounds.
    pub open spec fn wf(self) -> bool {
        &&& self.code_segment@.len() <= crate::CODE_SEGMENT_MAX_LEN
        &&& self.data_segment@.len() <= crate::DATA_SEGMENT_MAX_LEN
    }

    /// Constructs a library from pre-built segments; a segment beyond its
    /// bound is refused with the corresponding sizing error, the code
    /// segment being examined first.
    pub fn with(bytecode: Vec<u8>, data: Vec<u8>) -> (r: Result<Lib<E>, Error>)
        ensures
            bytecode@.len() > crate::CODE_SEGMENT_MAX_LEN ==> (r matches Err(e) && e
                == Error::CodeSegmentTooLarge(bytecode@.len() as usize)),
            bytecode@.len() <= crate::CODE_SEGMENT_MAX_LEN && data@.len()
                > crate::DATA_SEGMENT_MAX_LEN ==> (r matches Err(e) && e
                == Error::DataSegmentTooLarge(data@.len() as usize)),
            bytecode@.len() <= crate::CODE_SEGMENT_MAX_LEN && data@.len()
                <= crate::DATA_SEGMENT_MAX_LEN ==> (r matches Ok(lib) && lib.wf()
                && lib.code_segment@ == bytecode@ && lib.data_segment@ == data@),
    {
        if bytecode.len() > crate::CODE_SEGMENT_MAX_LEN {
            return Err(Error::CodeSegmentTooLarge(bytecode.len()));
        }
        if data.len() > crate::DATA_SEGMENT_MAX_LEN {
            return Err(Error::DataSegmentTooLarge(data.len()));
        }
        Ok(
            Lib {
                code_segment: bytecode,
                data_segment: data,
                instruction_set: core::marker::PhantomData,
            },
        )
    }

    /// Returns the library identity: the domain-separated digest of the
    /// code segment bytes alone. Two libraries with identical code share an
    /// identity whatever their data segments hold.
    pub fn lib_hash(&self) -> (r: LibHash)
        ensures
            r.bytes@ == lib_hash_of(self.code_segment@),
    {
        tagged_hash(&self.code_segment)
    }

    /// Returns the code segment.
    pub fn code_segment(&self) -> (r: &Vec<u8>)
        ensures
            r@ == self.code_segment@,
    {
        &self.code_segment
    }

    /// Returns the data segment.
    pub fn data_segment(&self) -> (r: &Vec<u8>)
        ensures
            r@ == self.data_segment@,
    {
        &self.data_segment
    }

    /// Assembles a library from the provided instructions by encoding each
    /// of them in sequence into a fresh code buffer, accumulating constants
    /// in a fresh data segment; an encoding failure of any instruction is
    /// propagated and no library is built. On success the code segment is
    /// exactly the concatenation of the instructions' encodings; and a
    /// sequence whose encoding lies within the addressable range always
    /// assembles.
    pub fn assemble(code: &Vec<E>) -> (r: Result<Lib<E>, CursorError>)
        ensures
            r matches Ok(lib) ==> lib.wf() && lib.code_segment@ == encs(code@) && encs(
                code@,
            ).len() <= 65535,
            encs(code@).len() <= 65535 ==> r is Ok,
    {
        let mut buf: Vec<u8> = Vec::new();
        let mut n: usize = 0;
        while n < crate::CODE_SEGMENT_MAX_LEN
            invariant
                n <= crate::CODE_SEGMENT_MAX_LEN,
                buf@.len() == n,
                forall|j: int| 0 <= j < n ==> buf@[j] == 0,
            decreases crate::CODE_SEGMENT_MAX_LEN - n,
        {
            buf.push(0u8);
            n = n + 1;
        }
        let mut writer = Cursor::with(buf, Vec::new());
        let mut k: usize = 0;
        while k < code.len()
            invariant
                k <= code@.len(),
                writer.inv(),
                writer.bit_pos == 0,
                !writer.eof,
                writer.code@.len() == crate::CODE_SEGMENT_MAX_LEN,
                writer.byte_pos == encs(code@.take(k as int)).len(),
                writer.code@.take(writer.byte_pos as int) == encs(code@.take(k as int)),
                forall|j: int| writer.byte_pos <= j < writer.code@.len() ==> writer.code@[j] == 0,
            decreases code@.len() - k,
        {
            let ghost pre = writer;
            let instr = &code[k];
            let res = instr.write(&mut writer);
            match res {
                Ok(u) => {},
                Err(e) => {
                    proof {
                        if encs(code@).len() <= 65535 {
                            lemma_encs_take_succ(code@, k as int);
                            lemma_encs_take_len_monotone(code@, k as int + 1, code@.len() as int);
                            assert(code@.take(code@.len() as int) =~= code@);
                            assert(encs(code@.take(k as int + 1)).len() == encs(
                                code@.take(k as int),
                            ).len() + code@[k as int].enc().len());
                            assert(false);
                        }
                    }
                    return Err(e);
                },
            }
            proof {
                lemma_encs_take_succ(code@, k as int);
                assert(code@.take(k as int + 1) =~= code@.take((k + 1) as int));
                assert(writer.code@.take(writer.byte_pos as int) =~= encs(
                    code@.take(k as int),
                ).add(code@[k as int].enc()));
            }
            k = k + 1;
        }
        proof {
            assert(code@.take(code@.len() as int) =~= code@);
        }
        let pos = writer.pos();
        let Cursor { code: mut code_buf, data, .. } = writer;
        code_buf.truncate(pos as usize);
        proof {
            assert(code_buf@ =~= encs(code@));
        }
        Ok(
            Lib {
                code_segment: code_buf,
                data_segment: data,
                instruction_set: core::marker::PhantomData,
            },
        )
    }

    /// Disassembles the library into a sequence of instructions, decoding
    /// one instruction at a time until the end of the code segment and
    /// failing on the first malformed instruction encountered. The result,
    /// when there is one, encodes back to exactly the code segment; and
    /// whenever the code segment is a concatenation of encodings, the
    /// disassembly succeeds, so it inverts assembly.
    pub fn disassemble(&self) -> (r: Result<Vec<E>, CursorError>)
        requires
            self.wf(),
        ensures
            r matches Ok(out) ==> encs(out@) == self.code_segment@,
            (self.code_segment@.len() <= 65535 && exists|s: Seq<E>| encs(s) == self.code_segment@)
                ==> r is Ok,
    {
        let ghost has = self.code_segment@.len() <= 65535 && exists|s: Seq<E>|
            encs(s) == self.code_segment@;
        let ghost w: Seq<E> = if has {
            choose|s: Seq<E>| encs(s) == self.code_segment@
        } else {
            Seq::empty()
        };
        let code = clone_bytes(&self.code_segment);
        let data = clone_bytes(&self.data_segment);
        let mut reader = Cursor::with(code, data);
        let mut out: Vec<E> = Vec::new();
        proof {
            assert(reader.code@.take(0) =~= Seq::<u8>::empty());
            assert(encs(out@) =~= reader.code@.take(0));
            if has {
                assert(w.take(0) =~= Seq::<E>::empty());
                assert(out@ =~= w.take(0));
                assert(w.skip(0) =~= w);
                assert(reader.code@.skip(0) =~= reader.code@);
            }
        }
        while !reader.is_end()
            invariant
                reader.inv(),
                reader.bit_pos == 0,
                !reader.eof,
                reader.code@ == self.code_segment@,
                reader.data@ == self.data_segment@,
                reader.byte_pos <= reader.code@.len(),
                encs(out@) == reader.code@.take(reader.byte_pos as int),
                has == (self.code_segment@.len() <= 65535 && exists|s: Seq<E>|
                    encs(s) == self.code_segment@),
                has ==> self.code_segment@.len() <= 65535 && encs(w) == reader.code@ && out@.len()
                    <= w.len() && out@ == w.take(out@.len() as int) && encs(
                    w.skip(out@.len() as int),
                ) == reader.code@.skip(reader.byte_pos as int),
            decreases reader.code@.len() - reader.byte_pos,
        {
            let ghost pre = reader;
            let ghost j = out@.len() as int;
            proof {
                if has {
                    if j == w.len() {
                        assert(w.skip(j) =~= Seq::<E>::empty());
                        assert(reader.code@.skip(pre.byte_pos as int).len() == reader.code@.len()
                            - pre.byte_pos);
                        assert(false);
                    }
                    lemma_encs_head(w.skip(j));
                    assert(w.skip(j).first() == w[j]);
                    E::lemma_enc(w[j], w[j]);
                    let hd = w[j].enc();
                    let rest = encs(w.skip(j).drop_first());
                    assert(pre.code@.skip(pre.byte_pos as int) == hd.add(rest));
                    assert(hd.add(rest).len() == hd.len() + rest.len());
                    assert(pre.byte_pos + hd.len() <= pre.code@.len());
                    assert(pre.code@.subrange(pre.byte_pos as int, pre.byte_pos + hd.len()) =~= hd)
                        by {
                        assert(forall|t: int|
                            0 <= t < hd.len() ==> pre.code@.skip(pre.byte_pos as int)[t] == pre.code@[pre.byte_pos
                                + t] && hd.add(rest)[t] == hd[t]);
                    }
                    assert(exists|a: E|
                        pre.byte_pos + #[trigger] a.enc().len() <= pre.code@.len() && pre.byte_pos
                            + a.enc().len() <= 65535 && pre.code@.subrange(
                            pre.byte_pos as int,
                            pre.byte_pos + a.enc().len(),
                        ) == a.enc());
                }
            }
            let res = E::read(&mut reader);
            let instr = match res {
                Ok(i) => i,
                Err(e) => {
                    proof {
                        if has {
                            assert(false);
                        }
                    }
                    return Err(e);
                },
            };
            proof {
                E::lemma_enc(instr, instr);
                lemma_encs_push(out@, instr);
                assert(reader.code@.take(reader.byte_pos as int) =~= pre.code@.take(
                    pre.byte_pos as int,
                ).add(pre.code@.subrange(pre.byte_pos as int, reader.byte_pos as int)));
                if has {
                    let hd = w[j].enc();
                    let ie = instr.enc();
                    assert(pre.code@.subrange(pre.byte_pos as int, pre.byte_pos + ie.len())
                        == ie);
                    if ie.len() <= hd.len() {
                        assert(ie =~= hd.take(ie.len() as int)) by {
                            assert(forall|t: int|
                                0 <= t < ie.len() ==> ie[t] == pre.code@[pre.byte_pos + t] && hd[t]
                                    == pre.code@[pre.byte_pos + t]);
                        }
                        E::lemma_enc(instr, w[j]);
                    } else {
                        assert(hd =~= ie.take(hd.len() as int)) by {
                            assert(forall|t: int|
                                0 <= t < hd.len() ==> ie[t] == pre.code@[pre.byte_pos + t] && hd[t]
                                    == pre.code@[pre.byte_pos + t]);
                        }
                        E::lemma_enc(w[j], instr);
                    }
                    assert(instr == w[j]);
                    assert(out@.push(instr) =~= w.take(j + 1));
                    let rest = encs(w.skip(j).drop_first());
                    assert(w.skip(j).drop_first() =~= w.skip(j + 1));
                    assert(reader.code@.skip(reader.byte_pos as int) =~= rest) by {
                        let hd = w[j].enc();
                        assert(pre.code@.skip(pre.byte_pos as int) == hd.add(rest));
                        assert(hd.add(rest).len() == hd.len() + rest.len());
                        assert(forall|t: int|
                            0 <= t < rest.len() ==> reader.code@.skip(reader.byte_pos as int)[t]
                                == reader.code@[reader.byte_pos + t] && hd.add(rest)[hd.len() + t]
                                == rest[t] && pre.code@.skip(pre.byte_pos as int)[hd.len() + t]
                                == pre.code@[pre.byte_pos + hd.len() + t]);
                    }
                }
            }
            out.push(instr);
        }
        proof {
            assert(reader.code@.take(reader.code@.len() as int) =~= reader.code@);
        }
        Ok(out)
    }

    /// Executes the library's code against a register file, starting at the
    /// given entrypoint, until an instruction halts the loop, an instruction
    /// yields a call site, decoding fails, or the end of the code segment is
    /// reached. A halt, a decode failure and running off the end all yield
    /// no control transfer; a call yields the site to resume at, in
    /// whatever library it names, and resolving that library is the
    /// caller's responsibility. Bounding execution is also the caller's
    /// responsibility; as a termination bound the loop itself gives up after
    /// an astronomically large number of decode steps, yielding no control
    /// transfer, exactly as a halt would.
    pub fn run(&self, entrypoint: u16, registers: &mut Registers) -> (r: Option<LibSite>)
        requires
            self.wf(),
        ensures
            entrypoint >= self.code_segment@.len() ==> r is None,
            run_post::<E>(self.code_segment@, *old(registers), *final(registers), entrypoint, r),
    {
        let lib_hash = self.lib_hash();
        if entrypoint as usize >= self.code_segment.len() {
            proof {
                assert(run_state::<E>(
                    self.code_segment@,
                    *registers,
                    lib_hash,
                    entrypoint,
                    u64::MAX as nat,
                ) == (*registers, None::<LibSite>));
            }
            return None;
        }
        let code = clone_bytes(&self.code_segment);
        let data = clone_bytes(&self.data_segment);
        let mut cursor = Cursor::with(code, data);
        cursor.seek(entrypoint);
        let ghost regs0 = *registers;

        let mut fuel: u64 = u64::MAX;
        while !cursor.is_end()
            invariant
                cursor.inv(),
                cursor.bit_pos == 0,
                !cursor.eof,
                cursor.code@ == self.code_segment@,
                cursor.data@ == self.data_segment@,
                lib_hash.bytes@ == lib_hash_of(self.code_segment@),
                regs0 == *old(registers),
                run_state::<E>(self.code_segment@, regs0, lib_hash, entrypoint, u64::MAX as nat)
                    == run_state::<E>(
                    self.code_segment@,
                    *registers,
                    lib_hash,
                    cursor.byte_pos,
                    fuel as nat,
                ),
            decreases fuel,
        {
            let ghost pre_pos = cursor.byte_pos;
            let ghost pre_regs = *registers;
            let ghost pre_fuel = fuel as nat;
            if fuel == 0 {
                return None;
            }
            fuel = fuel - 1;
            let res = E::read(&mut cursor);
            let instr = match res {
                Ok(i) => i,
                Err(e) => {
                    proof {
                        if exists|i: E| decodes_at(self.code_segment@, pre_pos as int, i) {
                            let a = choose|i: E|
                                decodes_at(self.code_segment@, pre_pos as int, i);
                            assert(false);
                        }
                        assert(run_state::<E>(
                            self.code_segment@,
                            pre_regs,
                            lib_hash,
                            pre_pos,
                            pre_fuel,
                        ) == (pre_regs, None::<LibSite>));
                    }
                    return None;
                },
            };
            let site = LibSite::with(cursor.pos(), lib_hash);
            proof {
                assert(decodes_at(self.code_segment@, pre_pos as int, instr));
                let ci = choose|i: E| decodes_at(self.code_segment@, pre_pos as int, i);
                lemma_decode_unique(self.code_segment@, pre_pos as int, instr, ci);
                assert(site == (LibSite { lib: lib_hash, pos: cursor.byte_pos }));
            }
            let step = instr.exec(registers, site);
            proof {
                assert((*registers, step) == instr.exec_spec(pre_regs, site));
            }
            match step {
                ExecStep::Stop => {
                    proof {
                        assert(run_state::<E>(
                            self.code_segment@,
                            pre_regs,
                            lib_hash,
                            pre_pos,
                            pre_fuel,
                        ) == (*registers, None::<LibSite>));
                    }
                    return None;
                },
                ExecStep::Next => {
                    proof {
                        assert(run_state::<E>(
                            self.code_segment@,
                            pre_regs,
                            lib_hash,
                            pre_pos,
                            pre_fuel,
                        ) == run_state::<E>(
                            self.code_segment@,
                            *registers,
                            lib_hash,
                            cursor.byte_pos,
                            (pre_fuel - 1) as nat,
                        ));
                    }
                },
                ExecStep::Jump(target) => {
                    cursor.seek(target);
                    proof {
                        assert(run_state::<E>(
                            self.code_segment@,
                            pre_regs,
                            lib_hash,
                            pre_pos,
                            pre_fuel,
                        ) == run_state::<E>(
                            self.code_segment@,
                            *registers,
                            lib_hash,
                            cursor.byte_pos,
                            (pre_fuel - 1) as nat,
                        ));
                    }
                },
                ExecStep::Call(next_site) => {
                    proof {
                        assert(run_state::<E>(
                            self.code_segment@,
                            pre_regs,
                            lib_hash,
                            pre_pos,
                            pre_fuel,
                        ) == (*registers, Some(next_site)));
                    }
                    return Some(next_site);
                },
            }
        }
        None
    }
}

/// Identity stability: the library identity is a function of the code
/// segment bytes alone, so libraries with identical code segments share one
/// identity whatever their data segments hold.
pub proof fn lemma_identity_from_code_alone<E: InstructionSet>(a: Lib<E>, b: Lib<E>)
    requires
        a.code_segment@ == b.code_segment@,
    ensures
        lib_hash_of(a.code_segment@) == lib_hash_of(b.code_segment@),
{
}

} // verus!
