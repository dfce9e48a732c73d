//! The serialized form of a code stream: two bytes to a code, the more
//! significant one first, and nothing else.

use vstd::prelude::*;

verus! {

/// One more than the largest code that two bytes can hold.
pub const CODE_SPACE: usize = 65536;

/// The bytes of `codes`, each below `CODE_SPACE`, in order.
pub open spec fn pack(codes: Seq<nat>) -> Seq<u8> {
    Seq::new(
        2 * codes.len(),
        |i: int|
            if i % 2 == 0 {
                (codes[i / 2] / 256) as u8
            } else {
                (codes[i / 2] % 256) as u8
            },
    )
}

/// The codes that `bytes` hold; a last odd byte holds none.
pub open spec fn unpack(bytes: Seq<u8>) -> Seq<nat> {
    Seq::new(bytes.len() / 2, |j: int| (bytes[2 * j] as nat) * 256 + bytes[2 * j + 1] as nat)
}

/// Whether every code of `codes` fits in two bytes.
pub open spec fn fits(codes: Seq<nat>) -> bool {
    forall|j: int| 0 <= j < codes.len() ==> #[trigger] codes[j] < CODE_SPACE
}

/// Packing one more code appends its two bytes.
pub proof fn lemma_pack_push(codes: Seq<nat>, code: nat)
    ensures
        pack(codes.push(code)) == pack(codes).push((code / 256) as u8).push((code % 256) as u8),
{
    let longer = pack(codes.push(code));
    let appended = pack(codes).push((code / 256) as u8).push((code % 256) as u8);
    assert forall|i: int| 0 <= i < longer.len() implies longer[i] == appended[i] by {}
}

/// Codes that fit come back out of their bytes unchanged.
pub proof fn lemma_unpack_pack(codes: Seq<nat>)
    requires
        fits(codes),
    ensures
        unpack(pack(codes)) == codes,
        pack(codes).len() == 2 * codes.len(),
{
    let back = unpack(pack(codes));
    assert forall|j: int| 0 <= j < codes.len() implies back[j] == codes[j] by {
        // two bytes hold the quotient and the remainder by 256 of a code that fits
        let c = codes[j];
    }
}

/// Appends the two bytes of `code` to `out`.
pub fn push_code(out: &mut Vec<u8>, code: u16)
    ensures
        final(out)@ == old(out)@.push((code as nat / 256) as u8).push((code as nat % 256) as u8),
{
    let high: u8 = (code / 256) as u8;
    let low: u8 = (code % 256) as u8;
    out.push(high);
    out.push(low);
}

/// Reads the code that starts at byte `2 * index` of `bytes`.
pub fn read_code(bytes: &[u8], index: usize) -> (code: u16)
    requires
        2 * index + 1 < bytes@.len(),
    ensures
        code as nat == unpack(bytes@)[index as int],
{
    let len: usize = bytes.len();
    let high: u16 = bytes[2 * index] as u16;
    let low: u16 = bytes[2 * index + 1] as u16;
    high * 256 + low
}

} // verus!
