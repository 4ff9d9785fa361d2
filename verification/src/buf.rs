//! Small byte-buffer helpers shared by the wire-format modules.
use vstd::prelude::*;

verus! {

/// Append all of `src` to `out`.
pub fn append_bytes(out: &mut Vec<u8>, src: &[u8])
    ensures
        final(out)@ == old(out)@ + src@,
{
    let ghost before = out@;
    out.extend_from_slice(src);
    assert(out@ =~= before + src@);
}

/// A copy of `src` as an owned vector.
pub fn copy_bytes(src: &[u8]) -> (out: Vec<u8>)
    ensures
        out@ == src@,
{
    let mut out: Vec<u8> = Vec::new();
    append_bytes(&mut out, src);
    assert(out@ =~= src@);
    out
}

} // verus!
