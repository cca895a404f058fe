//! The one piece of the X11 connection setup that the client must decode
//! before it can read the rest: the fixed prefix of the server's reply.
use byteorder::{BigEndian, ByteOrder};
use vstd::prelude::*;

verus! {

/// How many bytes of the fixed reply prefix come before the rest.
pub const SETUP_PREFIX_LEN: usize = 8;

/// The number that the bytes `hi` and `lo` encode, most significant first.
pub open spec fn be_u16(hi: u8, lo: u8) -> nat {
    hi as nat * 256 + lo as nat
}

/// Relies on byteorder's `BigEndian::read_u16`: the first two bytes of `buf`
/// read most significant first; it panics when `buf` is shorter.
#[verifier::external_body]
fn read_be_u16(buf: &[u8]) -> (r: u16)
    requires
        2 <= buf@.len(),
    ensures
        r == be_u16(buf@[0], buf@[1]),
{
    BigEndian::read_u16(buf)
}

/// The length in bytes of the rest of a successful setup reply whose fixed
/// prefix is `prefix`: its bytes 6 and 7 count 4-byte units, most significant
/// first. `None` when `prefix` is too short or its first byte, the status,
/// is not 1 (success).
pub fn setup_data_len(prefix: &[u8]) -> (n: Option<usize>)
    ensures
        n == if prefix@.len() >= SETUP_PREFIX_LEN && prefix@[0] == 1 {
            Some((4 * be_u16(prefix@[6], prefix@[7])) as usize)
        } else {
            None::<usize>
        },
{
    if prefix.len() < SETUP_PREFIX_LEN || prefix[0] != 1 {
        return None;
    }
    let units = read_be_u16(vstd::slice::slice_subrange(prefix, 6, 8));
    Some(4 * (units as usize))
}

} // verus!
