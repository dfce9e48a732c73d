//! The LZW codec: a dictionary that grows while the data passes, and a
//! decoder that rebuilds the same dictionary from the codes alone.

use crate::compression::code_stream::{lemma_pack_push, pack, push_code, read_code, unpack, CODE_SPACE};
use crate::compression::dictionary::{DecoderTable, EncoderTable};
use crate::compression::lzw_model::{
    decode_codes, decode_from, encode_codes, encode_from, grow, lzw_decode, lzw_encode,
    DecodeFault,
};
use crate::compression::{CompressionError, Compressor};
use crate::text::{decimal, decimal_string};
use vstd::prelude::*;
use vstd::string::StringExecFns;

verus! {

/// Compresses `data` with a dictionary of at most `max_table_size` entries.
///
/// The longest string of the dictionary that the data goes on with is
/// written as its code; that string and the byte after it become a new
/// entry, while there is room; and so on from that byte. What is matched
/// when the data ends is written as a last code.
pub fn encode(data: &[u8], max_table_size: usize) -> (out: Vec<u8>)
    requires
        max_table_size <= CODE_SPACE,
    ensures
        out@ == lzw_encode(data@, max_table_size as nat),
{
    let len: usize = data.len();
    let mut table = EncoderTable::new(max_table_size);
    let mut matching: bool = false;
    let mut current: u16 = 0;
    let mut out: Vec<u8> = Vec::new();
    let ghost limit = max_table_size as nat;
    let ghost mut w: Seq<u8> = Seq::empty();
    let ghost mut emitted: Seq<nat> = Seq::empty();
    proof {
        assert(data@.subrange(0, len as int) =~= data@);
    }
    let mut i: usize = 0;
    while i < len
        invariant
            i <= len,
            len == data@.len(),
            table.wf(),
            table.limit() == limit,
            matching <==> w.len() > 0,
            matching ==> current < table@.len() && table@[current as int] == w,
            out@ == pack(emitted),
            encode_codes(data@, limit) == emitted + encode_from(
                table@,
                w,
                data@.subrange(i as int, len as int),
                limit,
            ),
        decreases len - i,
    {
        let k: u8 = data[i];
        let ghost rest = data@.subrange(i as int, len as int);
        let ghost after = data@.subrange(i as int + 1, len as int);
        let ghost wk = w.push(k);
        proof {
            table.lemma_wf();
            assert(rest.drop_first() =~= after);
        }
        if !matching {
            proof {
                assert(wk =~= seq![k]);
                w = wk;
            }
            current = k as u16;
            matching = true;
        } else {
            match table.longer(current, k) {
                Some(next) => {
                    current = next;
                    proof {
                        w = wk;
                    }
                },
                None => {
                    let ghost grown = grow(table@, wk, limit);
                    proof {
                        table.lemma_code_is_unique(current as int);
                        lemma_pack_push(emitted, current as nat);
                        let tail = encode_from(grown, seq![k], after, limit);
                        assert(emitted + (seq![current as nat] + tail) =~= emitted.push(
                            current as nat,
                        ) + tail);
                        emitted = emitted.push(current as nat);
                    }
                    push_code(&mut out, current);
                    table.learn(current, k);
                    proof {
                        w = seq![k];
                        table.lemma_wf();
                    }
                    current = k as u16;
                },
            }
        }
        i = i + 1;
    }
    if matching {
        proof {
            table.lemma_code_is_unique(current as int);
            lemma_pack_push(emitted, current as nat);
        }
        push_code(&mut out, current);
    }
    out
}

/// Restores the buffer that the code stream `data` stands for, with a
/// dictionary of at most `max_table_size` entries.
///
/// Fails, with nothing restored, where `data` is empty or ends within a
/// code, where its first code is no literal, and where a later code is
/// past the first unused one of the dictionary as it stands then.
pub fn decode(data: &[u8], max_table_size: usize) -> (result: Result<Vec<u8>, DecodeFault>)
    ensures
        match result {
            Ok(out) => lzw_decode(data@, max_table_size as nat) == Ok::<Seq<u8>, DecodeFault>(out@),
            Err(fault) => lzw_decode(data@, max_table_size as nat) == Err::<Seq<u8>, DecodeFault>(
                fault,
            ),
        },
{
    let len: usize = data.len();
    if len == 0 || len % 2 != 0 {
        return Err(DecodeFault::Framing);
    }
    let count: usize = len / 2;
    let ghost limit = max_table_size as nat;
    let ghost codes = unpack(data@);
    let first: u16 = read_code(data, 0);
    if first >= 256 {
        return Err(DecodeFault::Code);
    }
    let mut table = DecoderTable::new(max_table_size);
    let mut w: Vec<u8> = Vec::new();
    w.push(first as u8);
    let mut out: Vec<u8> = Vec::new();
    out.push(first as u8);
    let mut j: usize = 1;
    while j < count
        invariant
            1 <= j <= count,
            count == codes.len(),
            len == data@.len(),
            len == 2 * count,
            codes == unpack(data@),
            limit == max_table_size,
            table.wf(),
            table.limit() == limit,
            w@.len() > 0,
            decode_codes(codes, limit) == match decode_from(
                table@,
                w@,
                codes.subrange(j as int, count as int),
                limit,
            ) {
                Some(rest) => Some(out@ + rest),
                None => None,
            },
        decreases count - j,
    {
        let code: u16 = read_code(data, j);
        let ghost rest = codes.subrange(j as int, count as int);
        let ghost after = codes.subrange(j as int + 1, count as int);
        proof {
            assert(rest.drop_first() =~= after);
        }
        let entry: Vec<u8> = match table.entry(code, &w) {
            Some(entry) => entry,
            None => {
                return Err(DecodeFault::Code);
            },
        };
        assert(entry@.len() > 0);
        out.extend_from_slice(entry.as_slice());
        let mut longer: Vec<u8> = w;
        longer.push(entry[0]);
        table.learn(longer);
        proof {
            // what is still to come follows what was written so far and `entry`
            let next = decode_from(table@, entry@, after, limit);
        }
        w = entry;
        j = j + 1;
    }
    Ok(out)
}

/// What a decompression error says of a buffer that is no code stream.
pub open spec fn fault_text(fault: DecodeFault) -> Seq<char> {
    match fault {
        DecodeFault::Framing => "Invalid compressed data"@,
        DecodeFault::Code => "Invalid compressed code"@,
    }
}

/// A compressor that uses the LZW algorithm.
#[derive(Debug)]
pub struct LzwCompressor {
    max_table_size: usize,
}

impl LzwCompressor {
    #[verifier::type_invariant]
    spec fn codes_fit(self) -> bool {
        self.max_table_size <= CODE_SPACE
    }

    /// The number of entries that the dictionary may grow to.
    pub closed spec fn limit(&self) -> nat {
        self.max_table_size as nat
    }

    /// What `description` writes.
    pub open spec fn description_text(&self) -> Seq<char> {
        "LzwCompressor (Max Table Size: "@ + decimal(self.limit()) + ")"@
    }

    /// A compressor whose dictionary holds at most `max_table_size` entries,
    /// which can be no more than two bytes have codes for. The 256 literals
    /// are always in it, also under a smaller limit.
    pub fn new(max_table_size: usize) -> (compressor: Self)
        requires
            max_table_size <= CODE_SPACE,
        ensures
            compressor.limit() == max_table_size,
    {
        LzwCompressor { max_table_size }
    }

    /// The compressor in words, with the limit on its dictionary.
    pub fn description(&self) -> (text: String)
        ensures
            text@ == self.description_text(),
    {
        let mut text = String::from_str("LzwCompressor (Max Table Size: ");
        let limit = decimal_string(self.max_table_size as u64);
        text.append(limit.as_str());
        text.append(")");
        text
    }
}

impl Clone for LzwCompressor {
    fn clone(&self) -> (copy: Self)
        ensures
            copy == *self,
    {
        proof {
            use_type_invariant(self);
        }
        LzwCompressor { max_table_size: self.max_table_size }
    }
}

impl Compressor for LzwCompressor {
    open spec fn compressed(&self, data: Seq<u8>) -> Result<Seq<u8>, Seq<char>> {
        Ok(lzw_encode(data, self.limit()))
    }

    open spec fn decompressed(&self, data: Seq<u8>) -> Result<Seq<u8>, Seq<char>> {
        match lzw_decode(data, self.limit()) {
            Ok(bytes) => Ok(bytes),
            Err(fault) => Err(fault_text(fault)),
        }
    }

    /// Compresses `data` into its code stream. This never fails.
    fn compress(&self, data: &[u8]) -> (result: Result<Vec<u8>, CompressionError>)
        ensures
            result is Ok,
    {
        proof {
            use_type_invariant(self);
        }
        Ok(encode(data, self.max_table_size))
    }

    /// Restores the buffer that the code stream `data` stands for, or says
    /// why `data` is none: "Invalid compressed data" where it is empty or
    /// of odd length, "Invalid compressed code" where a code stands for
    /// nothing.
    fn decompress(&self, data: &[u8]) -> (result: Result<Vec<u8>, CompressionError>) {
        match decode(data, self.max_table_size) {
            Ok(out) => Ok(out),
            Err(DecodeFault::Framing) => Err(
                CompressionError::Decompression(String::from_str("Invalid compressed data")),
            ),
            Err(DecodeFault::Code) => Err(
                CompressionError::Decompression(String::from_str("Invalid compressed code")),
            ),
        }
    }
}

/// Decompressing what a compressor gave for a non-empty buffer gives the
/// buffer back.
pub proof fn lemma_round_trip(compressor: LzwCompressor, data: Seq<u8>)
    requires
        compressor.limit() <= CODE_SPACE,
        data.len() > 0,
    ensures
        compressor.compressed(data) matches Ok(bytes) && compressor.decompressed(bytes) == Ok::<
            Seq<u8>,
            Seq<char>,
        >(data),
{
    crate::compression::lzw_laws::lemma_round_trip(data, compressor.limit());
}

/// A buffer of odd length is rejected as invalid compressed data.
pub proof fn lemma_odd_length_is_rejected(compressor: LzwCompressor, bytes: Seq<u8>)
    requires
        bytes.len() % 2 == 1,
    ensures
        compressor.decompressed(bytes) == Err::<Seq<u8>, Seq<char>>("Invalid compressed data"@),
{
}

/// A buffer whose first code is past the literals is rejected for that code.
pub proof fn lemma_first_code_is_a_literal(compressor: LzwCompressor, bytes: Seq<u8>)
    requires
        bytes.len() >= 2,
        bytes.len() % 2 == 0,
        bytes[0] > 0,
    ensures
        compressor.decompressed(bytes) == Err::<Seq<u8>, Seq<char>>("Invalid compressed code"@),
{
}

} // verus!
