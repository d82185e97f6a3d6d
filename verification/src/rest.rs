use vstd::prelude::*;
use vstd::string::StringSliceAdditionalSpecFns;
use crate::text::{decimal, push_decimal, push_str, push_txid, txid_text};

verus! {

/// The path under which the REST interface answers with the hash of the
/// block at `height`.
pub open spec fn block_hash_path_text(height: u32) -> Seq<u8> {
    "/rest/blockhashbyheight/".spec_bytes() + decimal(height as nat) + ".bin".spec_bytes()
}

/// The path under which the REST interface answers with the transaction
/// of the id.
pub open spec fn transaction_path_text(txid: [u8; 32]) -> Seq<u8> {
    "/rest/tx/".spec_bytes() + txid_text(txid) + ".bin".spec_bytes()
}

/// The path to ask for the hash of the block at `height`.
pub fn block_hash_path(height: u32) -> (path: Vec<u8>)
    ensures
        path@ == block_hash_path_text(height),
{
    let mut path: Vec<u8> = Vec::new();
    push_str(&mut path, "/rest/blockhashbyheight/");
    push_decimal(&mut path, height as u64);
    push_str(&mut path, ".bin");
    assert(path@ =~= block_hash_path_text(height));
    path
}

/// The path to ask for the transaction of the id.
pub fn transaction_path(txid: &[u8; 32]) -> (path: Vec<u8>)
    ensures
        path@ == transaction_path_text(*txid),
{
    let mut path: Vec<u8> = Vec::new();
    push_str(&mut path, "/rest/tx/");
    push_txid(&mut path, txid);
    push_str(&mut path, ".bin");
    assert(path@ =~= transaction_path_text(*txid));
    path
}

} // verus!
