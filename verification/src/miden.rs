//! Instruction emission for the Miden VM target: each supported instruction
//! maps to one assembly token line appended to a sink; any other instruction
//! is rejected with a coverage error, never silently dropped.

use vstd::prelude::*;

use crate::dec::dec_int;
use crate::dec::i64_dec_bytes;
use crate::inst::Inst;
use vstd::utf8::encode_utf8;

verus! {

/// A Miden emission failure: the offending instruction has no defined
/// mapping on this target.
#[derive(Debug)]
pub enum MidenError {
    UnsupportedInstruction { inst: Inst },
}

impl MidenError {
    /// A short description of the error.
    pub fn message(&self) -> (r: &'static str)
        ensures
            r@ == "instruction not supported by this target"@,
    {
        "instruction not supported by this target"
    }
}

/// Configuration of the Miden target. The instruction mapping is fixed; no
/// knobs are exposed yet.
pub struct MidenTargetConfig {}

impl Default for MidenTargetConfig {
    fn default() -> (r: MidenTargetConfig) {
        MidenTargetConfig {  }
    }
}

/// The instructions this target maps to tokens. `Return` is not among
/// them: it would be valid only directly before the procedure's `End`, a
/// condition a per-instruction emitter cannot check, and emitting nothing
/// for it would silently drop a mid-body `Return` — so it is rejected.
pub open spec fn miden_supported(i: Inst) -> bool {
    match i {
        Inst::End => true,
        Inst::I32Const { .. } => true,
        _ => false,
    }
}

/// The token bytes one supported instruction emits.
pub open spec fn miden_inst_bytes(i: Inst) -> Seq<u8> {
    match i {
        Inst::End => encode_utf8("end\n"@),
        Inst::I32Const { value } => encode_utf8("push."@) + dec_int(value as int) + encode_utf8(
            "\n"@,
        ),
        _ => Seq::empty(),
    }
}

/// The ordered token stream collected during emission.
pub struct InstBuffer {
    bytes: Vec<u8>,
}

impl View for InstBuffer {
    type V = Seq<u8>;

    closed spec fn view(&self) -> Seq<u8> {
        self.bytes@
    }
}

impl InstBuffer {
    pub fn new() -> (r: InstBuffer)
        ensures
            r@ == Seq::<u8>::empty(),
    {
        InstBuffer { bytes: Vec::new() }
    }

    /// Appends one token to the stream.
    pub fn push(&mut self, mut token: Vec<u8>)
        ensures
            final(self)@ == old(self)@ + token@,
    {
        self.bytes.append(&mut token);
    }

    /// Hands the collected stream out.
    pub fn into_bytes(self) -> (r: Vec<u8>)
        ensures
            r@ == self@,
    {
        self.bytes
    }
}

/// A builder for Miden assembly tokens.
pub struct MidenAssemblyBuilder {}

impl MidenAssemblyBuilder {
    pub fn new() -> (r: MidenAssemblyBuilder) {
        MidenAssemblyBuilder {  }
    }

    /// The `end` terminator of a block or procedure.
    pub fn end(&self) -> (r: Vec<u8>)
        ensures
            r@ == encode_utf8("end\n"@),
    {
        let mut r: Vec<u8> = Vec::new();
        r.extend_from_slice("end\n".as_bytes());
        proof {
            assert(r@ =~= encode_utf8("end\n"@));
        }
        r
    }

    /// A push of a literal value.
    pub fn push(&self, value: i64) -> (r: Vec<u8>)
        ensures
            r@ == encode_utf8("push."@) + dec_int(value as int) + encode_utf8("\n"@),
    {
        let mut r: Vec<u8> = Vec::new();
        r.extend_from_slice("push.".as_bytes());
        let mut d = i64_dec_bytes(value);
        r.append(&mut d);
        r.extend_from_slice("\n".as_bytes());
        proof {
            assert(r@ =~= encode_utf8("push."@) + dec_int(value as int) + encode_utf8("\n"@));
        }
        r
    }
}

/// Emits the tokens of one instruction into the sink, or rejects an
/// instruction this target does not cover. Symbolic call emission is not
/// covered yet; the name table parameter stands ready for it.
pub fn emit_inst(
    ins: &Inst,
    config: &MidenTargetConfig,
    sink: &mut InstBuffer,
    func_names: &Vec<String>,
) -> (r: Result<(), MidenError>)
    ensures
        (r is Ok) == miden_supported(*ins),
        r is Ok ==> final(sink)@ == old(sink)@ + miden_inst_bytes(*ins),
        r matches Err(e) ==> final(sink)@ == old(sink)@ && e == (MidenError::UnsupportedInstruction {
            inst: *ins,
        }),
{
    let b = MidenAssemblyBuilder::new();
    match ins {
        Inst::End => {
            sink.push(b.end());
            Ok(())
        },
        Inst::I32Const { value } => {
            sink.push(b.push(*value as i64));
            Ok(())
        },
        _ => Err(MidenError::UnsupportedInstruction { inst: *ins }),
    }
}

} // verus!
