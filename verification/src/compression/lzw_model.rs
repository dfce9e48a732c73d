//! The mathematical model of the LZW codec: the dictionary, the code
//! stream that the encoder writes for a buffer, and the buffer that the
//! decoder reads out of a code stream.

use crate::compression::code_stream::{pack, unpack};
use vstd::prelude::*;

verus! {

/// A dictionary: the byte string that each code stands for, by code.
pub type Table = Seq<Seq<u8>>;

/// The dictionary both sides start from: code `b` is the one-byte string `b`.
pub open spec fn seed_table() -> Table {
    Seq::new(256, |i: int| seq![i as u8])
}

/// What every dictionary of a run has: the literals in their places.
pub open spec fn has_literals(table: Table) -> bool {
    &&& table.len() >= 256
    &&& forall|i: int| 0 <= i < 256 ==> #[trigger] table[i] == seq![i as u8]
}

/// `table` with `entry` under the next unused code, unless `limit` is reached.
pub open spec fn grow(table: Table, entry: Seq<u8>, limit: nat) -> Table {
    if table.len() < limit {
        table.push(entry)
    } else {
        table
    }
}

/// The larger of the number of literals and `limit`: no dictionary of a run
/// grows beyond it.
pub open spec fn capacity(limit: nat) -> nat {
    if limit < 256 {
        256
    } else {
        limit
    }
}

/// A code under which `table` holds `w`.
pub open spec fn code_of(table: Table, w: Seq<u8>) -> nat {
    (choose|c: int| 0 <= c < table.len() && table[c] == w) as nat
}

/// The codes the encoder emits for `data`, with `table` as its dictionary
/// and `w` as the match it has built so far.
pub open spec fn encode_from(table: Table, w: Seq<u8>, data: Seq<u8>, limit: nat) -> Seq<nat>
    decreases data.len(),
{
    if data.len() == 0 {
        if w.len() == 0 {
            Seq::empty()
        } else {
            seq![code_of(table, w)]
        }
    } else {
        let wk = w.push(data[0]);
        if table.contains(wk) {
            encode_from(table, wk, data.drop_first(), limit)
        } else {
            seq![code_of(table, w)] + encode_from(
                grow(table, wk, limit),
                seq![data[0]],
                data.drop_first(),
                limit,
            )
        }
    }
}

/// The code stream of `data` under a dictionary of at most `limit` entries.
pub open spec fn encode_codes(data: Seq<u8>, limit: nat) -> Seq<nat> {
    encode_from(seed_table(), Seq::empty(), data, limit)
}

/// The dictionary the encoder is left with after `data`, having started
/// from `table` with the match `w`.
pub open spec fn table_after(table: Table, w: Seq<u8>, data: Seq<u8>, limit: nat) -> Table
    decreases data.len(),
{
    if data.len() == 0 {
        table
    } else {
        let wk = w.push(data[0]);
        if table.contains(wk) {
            table_after(table, wk, data.drop_first(), limit)
        } else {
            table_after(grow(table, wk, limit), seq![data[0]], data.drop_first(), limit)
        }
    }
}

/// What the code `k` stands for when the decoder holds `table` and has just
/// written `w`: an entry, or the one entry the encoder is a step ahead with.
pub open spec fn entry_for(table: Table, w: Seq<u8>, k: nat) -> Option<Seq<u8>> {
    if k < table.len() {
        Some(table[k as int])
    } else if k == table.len() {
        Some(w.push(w[0]))
    } else {
        None
    }
}

/// The bytes that `codes` stand for, for a decoder that holds `table` and
/// has just written `w`; `None` where a code stands for nothing.
pub open spec fn decode_from(table: Table, w: Seq<u8>, codes: Seq<nat>, limit: nat) -> Option<
    Seq<u8>,
>
    decreases codes.len(),
{
    if codes.len() == 0 {
        Some(Seq::empty())
    } else {
        match entry_for(table, w, codes[0]) {
            None => None,
            Some(entry) => match decode_from(
                grow(table, w.push(entry[0]), limit),
                entry,
                codes.drop_first(),
                limit,
            ) {
                None => None,
                Some(rest) => Some(entry + rest),
            },
        }
    }
}

/// The bytes that a whole code stream stands for. The first code has to be
/// a literal; an empty stream stands for nothing.
pub open spec fn decode_codes(codes: Seq<nat>, limit: nat) -> Option<Seq<u8>> {
    if codes.len() == 0 || codes[0] >= 256 {
        None
    } else {
        let w = seq![codes[0] as u8];
        match decode_from(seed_table(), w, codes.drop_first(), limit) {
            None => None,
            Some(rest) => Some(w + rest),
        }
    }
}

/// Each byte as the code of its literal.
pub open spec fn literal_codes(data: Seq<u8>) -> Seq<nat> {
    Seq::new(data.len(), |i: int| data[i] as nat)
}

/// Why a buffer is no code stream.
#[derive(Debug, Clone, Copy, PartialEq, Eq)]
pub enum DecodeFault {
    /// It is empty, or ends in the middle of a code.
    Framing,
    /// One of its codes stands for nothing where it occurs.
    Code,
}

/// The compressed form of `data` under a dictionary of at most `limit` entries.
pub open spec fn lzw_encode(data: Seq<u8>, limit: nat) -> Seq<u8> {
    pack(encode_codes(data, limit))
}

/// The buffer that `bytes` is the compressed form of, or why it is none.
pub open spec fn lzw_decode(bytes: Seq<u8>, limit: nat) -> Result<Seq<u8>, DecodeFault> {
    if bytes.len() == 0 || bytes.len() % 2 != 0 {
        Err(DecodeFault::Framing)
    } else {
        match decode_codes(unpack(bytes), limit) {
            Some(data) => Ok(data),
            None => Err(DecodeFault::Code),
        }
    }
}

} // verus!
