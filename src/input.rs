//! Bytes read from a terminal in raw mode.

use vstd::prelude::*;

verus! {

/// The byte a terminal in raw mode sends for Ctrl-C.
pub const CTRL_C: u8 = 3;

/// Strips the zero bytes that pad a read buffer: keeps what comes before
/// the first zero byte.
pub fn strip_bytes(bytes: &[u8]) -> (r: Vec<u8>)
    ensures
        forall|j: int| 0 <= j < r@.len() ==> r@[j] != 0,
        r@ == bytes@.take(r@.len() as int),
        r@.len() < bytes@.len() ==> bytes@[r@.len() as int] == 0,
{
    let mut out: Vec<u8> = Vec::new();
    let mut i: usize = 0;
    while i < bytes.len() && bytes[i] != 0
        invariant
            i <= bytes@.len(),
            out@ == bytes@.take(i as int),
            forall|j: int| 0 <= j < i ==> bytes@[j] != 0,
        decreases bytes@.len() - i,
    {
        out.push(bytes[i]);
        i = i + 1;
        assert(out@ =~= bytes@.take(i as int));
    }
    out
}

/// Whether a read that gave `bytes` ends a wait for Ctrl-C: a failed read
/// (`None`) ends it too.
pub fn ends_wait(bytes: Option<&[u8]>) -> (r: bool)
    ensures
        r == match bytes {
            None => true,
            Some(b) => b@ == seq![CTRL_C],
        },
{
    match bytes {
        None => true,
        Some(b) => {
            let ok = b.len() == 1 && b[0] == CTRL_C;
            assert(ok == (b@ == seq![CTRL_C])) by {
                if b@.len() == 1 && b@[0] == CTRL_C {
                    assert(b@ =~= seq![CTRL_C]);
                }
            }
            ok
        },
    }
}

} // verus!
