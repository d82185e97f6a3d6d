use vstd::prelude::*;
use bitcoin::blockdata::opcodes::All;
use bitcoin::blockdata::script::Builder;

verus! {

/// Pushes the empty byte string; read as a number it is zero, as a flag false.
pub const OP_FALSE: u8 = 0x00;

/// Pushes the number one.
pub const OP_PUSHNUM_1: u8 = 0x51;

/// Opens the branch that runs when the top of the stack is true.
pub const OP_IF: u8 = 0x63;

/// Closes a branch.
pub const OP_ENDIF: u8 = 0x68;

/// Checks a signature against a public key.
pub const OP_CHECKSIG: u8 = 0xac;

/// Announces a data push whose length is in the next byte.
pub const OP_PUSHDATA1: u8 = 0x4c;

/// Announces a data push whose length is in the next two bytes.
pub const OP_PUSHDATA2: u8 = 0x4d;

/// Announces a data push whose length is in the next four bytes.
pub const OP_PUSHDATA4: u8 = 0x4e;

/// The most bytes that one data push may carry to be standard.
pub const MAX_SCRIPT_ELEMENT_SIZE: usize = 520;

/// The bytes that announce a data push of `len` bytes: the shortest of the
/// four forms, with the length in little-endian order.
pub open spec fn push_prefix(len: nat) -> Seq<u8> {
    if len < 0x4c {
        seq![len as u8]
    } else if len < 0x100 {
        seq![OP_PUSHDATA1, len as u8]
    } else if len < 0x10000 {
        seq![OP_PUSHDATA2, (len % 0x100) as u8, (len / 0x100) as u8]
    } else {
        seq![
            OP_PUSHDATA4,
            (len % 0x100) as u8,
            ((len / 0x100) % 0x100) as u8,
            ((len / 0x10000) % 0x100) as u8,
            (len / 0x1000000) as u8,
        ]
    }
}

/// The bytes that pushing `data` appends to a script.
pub open spec fn push_bytes(data: Seq<u8>) -> Seq<u8> {
    push_prefix(data.len()) + data
}

/// The script that pays to the Taproot output key `key`.
pub open spec fn p2tr_script_bytes(key: Seq<u8>) -> Seq<u8> {
    seq![OP_PUSHNUM_1] + push_bytes(key)
}

#[verifier::external_type_specification]
#[verifier::external_body]
pub struct ExBuilder(Builder);

/// The bytes of the script that a builder holds.
pub uninterp spec fn builder_bytes(builder: Builder) -> Seq<u8>;

/// `Builder::new` starts an empty script.
pub assume_specification[ Builder::new ]() -> (builder: Builder)
    ensures
        builder_bytes(builder) == Seq::<u8>::empty(),
;

/// `Builder::push_slice` appends the shortest push opcode for the data's
/// length, then the data. It refuses data of four gigabytes and more.
pub assume_specification[ Builder::push_slice ](builder: Builder, data: &[u8]) -> (after: Builder)
    requires
        data@.len() < 0x1_0000_0000,
    ensures
        builder_bytes(after) == builder_bytes(builder) + push_bytes(data@),
;

/// `Builder::push_opcode` appends the opcode's one byte; the opcode is made
/// from that byte with `All::from`.
#[verifier::external_body]
pub(crate) fn push_opcode(builder: Builder, code: u8) -> (after: Builder)
    ensures
        builder_bytes(after) == builder_bytes(builder).push(code),
{
    builder.push_opcode(All::from(code))
}

/// `Builder::into_script` and `Script::into_bytes` hand out the bytes that
/// the builder holds.
#[verifier::external_body]
pub(crate) fn into_bytes(builder: Builder) -> (bytes: Vec<u8>)
    ensures
        bytes@ == builder_bytes(builder),
{
    builder.into_script().into_bytes()
}

/// The script that pays to a Taproot output key: version one, then the key.
pub fn p2tr_script(key: &[u8; 32]) -> (script: Vec<u8>)
    ensures
        script@ == p2tr_script_bytes(key@),
{
    let builder = push_opcode(Builder::new(), OP_PUSHNUM_1);
    let builder = builder.push_slice(key.as_slice());
    assert(Seq::<u8>::empty().push(OP_PUSHNUM_1) =~= seq![OP_PUSHNUM_1]);
    into_bytes(builder)
}

} // verus!
