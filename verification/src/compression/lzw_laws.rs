//! What holds of the LZW codec: that decoding undoes encoding, what is
//! rejected, and how far the dictionary and the code stream can grow.

use crate::compression::code_stream::{lemma_unpack_pack, unpack, CODE_SPACE};
use crate::compression::lzw_model::{
    capacity, code_of, decode_codes, decode_from, encode_codes, encode_from, entry_for, grow,
    has_literals, literal_codes, lzw_decode, lzw_encode, seed_table, table_after, DecodeFault,
    Table,
};
use vstd::prelude::*;

verus! {

/// Growing a dictionary leaves every entry where it was.
pub proof fn lemma_grow_keeps(table: Table, entry: Seq<u8>, limit: nat)
    requires
        has_literals(table),
    ensures
        has_literals(grow(table, entry, limit)),
        forall|i: int| 0 <= i < table.len() ==> #[trigger] grow(table, entry, limit)[i] == table[i],
{
}

/// In the dictionary of literals the one-byte string `b` is there, under the code `b`.
pub proof fn lemma_seed_code(b: u8)
    ensures
        has_literals(seed_table()),
        seed_table().contains(seq![b]),
        code_of(seed_table(), seq![b]) == b,
{
    let seed = seed_table();
    let single = seq![b];
    assert(seed[b as int] == single);
    let c = code_of(seed, single);
    assert(seq![c as int as u8][0] == single[0]);
}

/// The dictionary of literals holds no string of two bytes or more.
pub proof fn lemma_seed_holds_literals_only(w: Seq<u8>)
    requires
        w.len() != 1,
    ensures
        !seed_table().contains(w),
{
    let seed = seed_table();
    if seed.contains(w) {
        // where `w` stands there stands a literal, of one byte
        let i = choose|i: int| 0 <= i < seed.len() && seed[i] == w;
    }
}

/// The decoder's dictionary is the encoder's of one code earlier: holding
/// `behind` and having written `prev`, it reads from the codes of an
/// encoder that holds `behind` grown by `prev` and the first byte of its
/// match `w` what that encoder had matched and had still to read.
pub proof fn lemma_decoder_follows(behind: Table, prev: Seq<u8>, w: Seq<u8>, data: Seq<u8>, limit: nat)
    requires
        has_literals(behind),
        prev.len() > 0,
        w.len() > 0,
        grow(behind, prev.push(w[0]), limit).contains(w),
    ensures
        decode_from(
            behind,
            prev,
            encode_from(grow(behind, prev.push(w[0]), limit), w, data, limit),
            limit,
        ) == Some(w + data),
    decreases data.len(),
{
    let ahead = grow(behind, prev.push(w[0]), limit);
    lemma_grow_keeps(behind, prev.push(w[0]), limit);
    let c = code_of(ahead, w);
    // The code of `w`, read with the dictionary one entry behind, is `w`:
    // where it is the entry still missing there, `w` is `prev` and the first
    // byte of `w`, which is then the first byte of `prev`.
    assert(entry_for(behind, prev, c) == Some(w));
    if data.len() == 0 {
        let codes = seq![c];
        assert(decode_from(ahead, w, codes.drop_first(), limit) == Some(Seq::<u8>::empty()));
    } else {
        let k = data[0];
        let wk = w.push(k);
        let rest = data.drop_first();
        if ahead.contains(wk) {
            lemma_decoder_follows(behind, prev, wk, rest, limit);
        } else {
            let next = grow(ahead, wk, limit);
            let tail = encode_from(next, seq![k], rest, limit);
            let codes = seq![c] + tail;
            assert(codes.drop_first() =~= tail);
            lemma_grow_keeps(ahead, wk, limit);
            assert(next.contains(seq![k])) by {
                assert(next[k as int] == seq![k as int as u8]);
            }
            let single = seq![k];
            lemma_decoder_follows(ahead, w, single, rest, limit);
        }
    }
}

/// Decoding the code stream of a non-empty buffer gives the buffer back,
/// whatever the limit on the dictionary.
pub proof fn lemma_codes_round_trip(data: Seq<u8>, limit: nat)
    requires
        data.len() > 0,
    ensures
        decode_codes(encode_codes(data, limit), limit) == Some(data),
{
    let seed = seed_table();
    let b = data[0];
    let first = seq![b];
    let rest = data.drop_first();
    lemma_seed_code(b);
    assert(encode_codes(data, limit) == encode_from(seed, first, rest, limit));
    let c = code_of(seed, first);
    if rest.len() > 0 {
        let k = rest[0];
        let wk = first.push(k);
        lemma_seed_holds_literals_only(wk);
        let next = grow(seed, wk, limit);
        let single = seq![k];
        let tail = encode_from(next, single, rest.drop_first(), limit);
        let codes = seq![c] + tail;
        assert(codes.drop_first() =~= tail);
        lemma_grow_keeps(seed, wk, limit);
        assert(next.contains(single)) by {
            assert(next[k as int] == seq![k as int as u8]);
        }
        lemma_decoder_follows(seed, first, single, rest.drop_first(), limit);
    }
}

/// Every code the encoder emits is one that its dictionary can hold.
pub proof fn lemma_codes_within_capacity(table: Table, w: Seq<u8>, data: Seq<u8>, limit: nat)
    requires
        has_literals(table),
        table.len() <= capacity(limit),
        w.len() == 0 || table.contains(w),
    ensures
        forall|j: int|
            0 <= j < encode_from(table, w, data, limit).len() ==> #[trigger] encode_from(
                table,
                w,
                data,
                limit,
            )[j] < capacity(limit),
    decreases data.len(),
{
    let codes = encode_from(table, w, data, limit);
    let bound = capacity(limit);
    if data.len() == 0 {
        assert forall|j: int| 0 <= j < codes.len() implies #[trigger] codes[j] < bound by {}
    } else {
        let k = data[0];
        let wk = w.push(k);
        let rest = data.drop_first();
        if w.len() == 0 {
            assert(wk =~= seq![k]);
        }
        if table.contains(wk) {
            lemma_codes_within_capacity(table, wk, rest, limit);
            assert(codes == encode_from(table, wk, rest, limit));
        } else {
            let next = grow(table, wk, limit);
            let single = seq![k];
            lemma_grow_keeps(table, wk, limit);
            assert(next.contains(single)) by {
                assert(next[k as int] == seq![k as int as u8]);
            }
            lemma_codes_within_capacity(next, single, rest, limit);
            let tail = encode_from(next, single, rest, limit);
            assert forall|j: int| 0 <= j < codes.len() implies #[trigger] codes[j] < bound by {
                if j > 0 {
                    assert(codes[j] == tail[j - 1]);
                }
            }
        }
    }
}

/// Decompressing what compression gave for a non-empty buffer gives the
/// buffer back, for every limit that leaves the codes within two bytes.
pub proof fn lemma_round_trip(data: Seq<u8>, limit: nat)
    requires
        data.len() > 0,
        limit <= CODE_SPACE,
    ensures
        lzw_decode(lzw_encode(data, limit), limit) == Ok::<Seq<u8>, DecodeFault>(data),
{
    let codes = encode_codes(data, limit);
    lemma_codes_round_trip(data, limit);
    lemma_codes_within_capacity(seed_table(), Seq::empty(), data, limit);
    lemma_unpack_pack(codes);
}

/// The empty buffer compresses to the empty buffer, which in turn is no
/// code stream: there is no first code to start from.
pub proof fn lemma_empty_buffer(limit: nat)
    ensures
        lzw_encode(Seq::empty(), limit) == Seq::<u8>::empty(),
        lzw_decode(Seq::empty(), limit) == Err::<Seq<u8>, DecodeFault>(DecodeFault::Framing),
{
}

/// Compressing loses nothing: two buffers with one compressed form are
/// one buffer.
pub proof fn lemma_encoding_is_one_to_one(first: Seq<u8>, second: Seq<u8>, limit: nat)
    requires
        limit <= CODE_SPACE,
        lzw_encode(first, limit) == lzw_encode(second, limit),
    ensures
        first == second,
{
    lemma_empty_buffer(limit);
    if first.len() > 0 {
        lemma_round_trip(first, limit);
    }
    if second.len() > 0 {
        lemma_round_trip(second, limit);
    }
    if first.len() == 0 && second.len() == 0 {
        assert(first =~= second);
    } else if first.len() == 0 {
        assert(first =~= Seq::<u8>::empty());
    } else if second.len() == 0 {
        assert(second =~= Seq::<u8>::empty());
    }
}

/// A buffer of odd length is no code stream.
pub proof fn lemma_odd_length_is_rejected(bytes: Seq<u8>, limit: nat)
    requires
        bytes.len() % 2 == 1,
    ensures
        lzw_decode(bytes, limit) == Err::<Seq<u8>, DecodeFault>(DecodeFault::Framing),
{
}

/// A code stream cannot start with a code past the literals: before the
/// dictionary has grown, such a code stands for nothing.
pub proof fn lemma_first_code_is_a_literal(bytes: Seq<u8>, limit: nat)
    requires
        bytes.len() >= 2,
        bytes.len() % 2 == 0,
        unpack(bytes)[0] >= 256,
    ensures
        lzw_decode(bytes, limit) == Err::<Seq<u8>, DecodeFault>(DecodeFault::Code),
{
}

/// However long the data, the dictionary stays within its capacity, and
/// no entry is ever taken out or changed: once full, it is frozen.
pub proof fn lemma_table_is_capped(table: Table, w: Seq<u8>, data: Seq<u8>, limit: nat)
    requires
        table.len() <= capacity(limit),
    ensures
        table.len() <= table_after(table, w, data, limit).len() <= capacity(limit),
        forall|i: int|
            0 <= i < table.len() ==> #[trigger] table_after(table, w, data, limit)[i] == table[i],
        table.len() >= limit ==> table_after(table, w, data, limit) == table,
    decreases data.len(),
{
    if data.len() > 0 {
        let wk = w.push(data[0]);
        if table.contains(wk) {
            lemma_table_is_capped(table, wk, data.drop_first(), limit);
        } else {
            lemma_table_is_capped(grow(table, wk, limit), seq![data[0]], data.drop_first(), limit);
        }
    }
}

/// The encoder writes no more codes than it reads bytes, and one more if it
/// starts with a match in hand.
pub proof fn lemma_one_code_per_byte_at_most(table: Table, w: Seq<u8>, data: Seq<u8>, limit: nat)
    requires
        has_literals(table),
    ensures
        encode_from(table, w, data, limit).len() <= data.len() + if w.len() == 0 {
            0int
        } else {
            1int
        },
    decreases data.len(),
{
    if data.len() > 0 {
        let k = data[0];
        let wk = w.push(k);
        let rest = data.drop_first();
        if w.len() == 0 {
            assert(wk =~= seq![k]);
            assert(table[k as int] == seq![k as int as u8]);
        }
        if table.contains(wk) {
            lemma_one_code_per_byte_at_most(table, wk, rest, limit);
        } else {
            lemma_grow_keeps(table, wk, limit);
            lemma_one_code_per_byte_at_most(grow(table, wk, limit), seq![k], rest, limit);
        }
    }
}

/// Compressing at most doubles a buffer.
pub proof fn lemma_at_most_doubled(data: Seq<u8>, limit: nat)
    ensures
        lzw_encode(data, limit).len() <= 2 * data.len(),
{
    lemma_seed_code(0);
    lemma_one_code_per_byte_at_most(seed_table(), Seq::empty(), data, limit);
}

/// With no room past the literals, the encoder that holds the byte `prev`
/// as its match writes `prev` and then each byte of `data` as a literal.
proof fn lemma_literals_from(prev: u8, data: Seq<u8>, limit: nat)
    requires
        limit <= 256,
    ensures
        encode_from(seed_table(), seq![prev], data, limit) == literal_codes(seq![prev] + data),
    decreases data.len(),
{
    lemma_seed_code(prev);
    if data.len() > 0 {
        // a string of two bytes is not there and finds no room
        lemma_seed_holds_literals_only(seq![prev].push(data[0]));
        lemma_literals_from(data[0], data.drop_first(), limit);
    }
}

/// With a limit that leaves no room past the literals, the code stream is
/// the buffer itself, one code to a byte.
pub proof fn lemma_literals_only(data: Seq<u8>, limit: nat)
    requires
        limit <= 256,
    ensures
        encode_codes(data, limit) == literal_codes(data),
        lzw_encode(data, limit).len() == 2 * data.len(),
{
    if data.len() > 0 {
        lemma_seed_code(data[0]);
        lemma_literals_from(data[0], data.drop_first(), limit);
    }
}

} // verus!
