//! The two forms of the LZW dictionary: a lookup table from strings to
//! codes for the encoder, and the strings by code for the decoder. Both
//! start from the 256 literals, grow by one entry at a time up to a limit,
//! and never lose or change an entry.

use crate::compression::code_stream::CODE_SPACE;
use crate::compression::lzw_model::{code_of, entry_for, grow, has_literals, seed_table, Table};
use std::collections::HashMap;
use vstd::prelude::*;

verus! {

/// The key of the entry that the code `prefix` stands for, followed by `byte`.
spec fn edge(prefix: int, byte: u8) -> u32 {
    (prefix * 256 + byte) as u32
}

/// The encoder's dictionary. A string of two bytes or more is found from
/// the code of all but its last byte, and that byte; a literal is its own
/// code.
pub struct EncoderTable {
    edges: HashMap<u32, u16>,
    count: usize,
    limit: usize,
    strings: Ghost<Table>,
    parents: Ghost<Seq<int>>,
}

impl View for EncoderTable {
    type V = Table;

    /// The string that each code stands for.
    closed spec fn view(&self) -> Table {
        self.strings@
    }
}

impl EncoderTable {
    /// The number of entries that the dictionary may grow to.
    pub closed spec fn limit(&self) -> nat {
        self.limit as nat
    }

    /// The lookup table holds the strings, and each string once.
    pub closed spec fn wf(&self) -> bool {
        let table = self.strings@;
        let parent = self.parents@;
        let edges = self.edges@;
        &&& has_literals(table)
        &&& self.limit <= CODE_SPACE
        &&& self.count == table.len()
        &&& table.len() <= 256 || table.len() <= self.limit
        &&& parent.len() == table.len()
        &&& forall|i: int, j: int|
            0 <= i < table.len() && 0 <= j < table.len() && #[trigger] table[i] == #[trigger] table[j]
                ==> i == j
        &&& forall|i: int|
            256 <= i < table.len() ==> {
                &&& 0 <= #[trigger] parent[i] < i
                &&& table[i] == table[parent[i]].push(table[i].last())
                &&& edges.contains_key(edge(parent[i], table[i].last()))
                &&& edges[edge(parent[i], table[i].last())] == i
            }
        &&& forall|key: u32| #[trigger]
            edges.contains_key(key) ==> {
                let i = edges[key] as int;
                &&& 256 <= i < table.len()
                &&& key == edge(parent[i], table[i].last())
            }
    }

    /// What a well-formed dictionary is known to hold.
    pub proof fn lemma_wf(&self)
        requires
            self.wf(),
        ensures
            has_literals(self@),
            self.limit() <= CODE_SPACE,
            self@.len() <= CODE_SPACE,
            self@.len() <= 256 || self@.len() <= self.limit(),
            forall|i: int| 0 <= i < self@.len() ==> (#[trigger] self@[i]).len() > 0,
    {
        let table = self.strings@;
        assert forall|i: int| 0 <= i < table.len() implies (#[trigger] table[i]).len() > 0 by {
            if i >= 256 {
                assert(table[i] == table[self.parents@[i]].push(table[i].last()));
            }
        }
    }

    /// No string stands under two codes: the code of a string is the one
    /// place where it is found.
    pub proof fn lemma_code_is_unique(&self, code: int)
        requires
            self.wf(),
            0 <= code < self@.len(),
        ensures
            code_of(self@, self@[code]) == code,
    {
        // the code chosen for the string is a place where it stands: this one
        let found = code_of(self@, self@[code]);
    }

    /// The edge is in the lookup table exactly where the dictionary holds
    /// the longer string.
    proof fn lemma_lookup(&self, c: int, k: u8)
        requires
            self.wf(),
            0 <= c < self@.len(),
        ensures
            self.edges@.contains_key(edge(c, k)) <==> self@.contains(self@[c].push(k)),
            self.edges@.contains_key(edge(c, k)) ==> self@[self.edges@[edge(c, k)] as int]
                == self@[c].push(k),
    {
        let table = self.strings@;
        let parent = self.parents@;
        let key = edge(c, k);
        let wk = table[c].push(k);
        self.lemma_wf();
        if self.edges@.contains_key(key) {
            // the entry behind the edge has the same parent and last byte
            let i = self.edges@[key] as int;
        }
        if table.contains(wk) {
            // the longer string is no literal, and its parent is `c`
            let i = choose|i: int| 0 <= i < table.len() && table[i] == wk;
            if i >= 256 {
                assert(table[parent[i]] =~= wk.drop_last());
                assert(table[c] =~= wk.drop_last());
            }
        }
    }

    /// The dictionary of the 256 literals, to grow to `limit` entries.
    pub fn new(limit: usize) -> (table: Self)
        requires
            limit <= CODE_SPACE,
        ensures
            table.wf(),
            table@ == seed_table(),
            table.limit() == limit,
    {
        let table = EncoderTable {
            edges: HashMap::new(),
            count: 256,
            limit,
            strings: Ghost(seed_table()),
            parents: Ghost(Seq::new(256, |i: int| 0int)),
        };
        proof {
            let seed = seed_table();
            assert forall|i: int, j: int|
                0 <= i < seed.len() && 0 <= j < seed.len() && #[trigger] seed[i] == #[trigger] seed[j]
                implies i == j by {
                assert(seed[i][0] == i as u8);
            }
        }
        table
    }

    /// The number of entries.
    pub fn len(&self) -> (count: usize)
        requires
            self.wf(),
        ensures
            count == self@.len(),
    {
        self.count
    }

    /// The code of the string that `code` stands for, followed by `byte`,
    /// if the dictionary holds that string.
    pub fn longer(&self, code: u16, byte: u8) -> (found: Option<u16>)
        requires
            self.wf(),
            code < self@.len(),
        ensures
            match found {
                Some(next) => next < self@.len() && self@[next as int] == self@[code as int].push(
                    byte,
                ),
                None => !self@.contains(self@[code as int].push(byte)),
            },
    {
        let key: u32 = code as u32 * 256 + byte as u32;
        proof {
            self.lemma_lookup(code as int, byte);
        }
        match self.edges.get(&key) {
            Some(next) => Some(*next),
            None => None,
        }
    }

    /// Puts the string that `code` stands for, followed by `byte`, under
    /// the next unused code, unless the dictionary is full: then it stays
    /// as it is.
    pub fn learn(&mut self, code: u16, byte: u8)
        requires
            old(self).wf(),
            code < old(self)@.len(),
            !old(self)@.contains(old(self)@[code as int].push(byte)),
        ensures
            final(self).wf(),
            final(self).limit() == old(self).limit(),
            final(self)@ == grow(old(self)@, old(self)@[code as int].push(byte), old(self).limit()),
    {
        if self.count < self.limit {
            let key: u32 = code as u32 * 256 + byte as u32;
            let ghost before = *self;
            let ghost table = self.strings@;
            let ghost parent = self.parents@;
            let ghost longer = table[code as int].push(byte);
            proof {
                before.lemma_lookup(code as int, byte);
            }
            self.edges.insert(key, self.count as u16);
            self.count = self.count + 1;
            self.strings = Ghost(table.push(longer));
            self.parents = Ghost(parent.push(code as int));
            proof {
                let n = table.len() as int;
                let table2 = self.strings@;
                let parent2 = self.parents@;
                let edges2 = self.edges@;
                // the new string was in no place before
                assert forall|i: int, j: int|
                    0 <= i < table2.len() && 0 <= j < table2.len() && #[trigger] table2[i]
                        == #[trigger] table2[j] implies i == j by {}
                // its edge is new too, so every older edge leads where it led
                assert forall|i: int| 256 <= i < table2.len() implies {
                    &&& 0 <= #[trigger] parent2[i] < i
                    &&& table2[i] == table2[parent2[i]].push(table2[i].last())
                    &&& edges2.contains_key(edge(parent2[i], table2[i].last()))
                    &&& edges2[edge(parent2[i], table2[i].last())] == i
                } by {}
                assert forall|key2: u32| #[trigger] edges2.contains_key(key2) implies {
                    let i = edges2[key2] as int;
                    &&& 256 <= i < table2.len()
                    &&& key2 == edge(parent2[i], table2[i].last())
                } by {
                    if key2 != key {
                        let i = before.edges@[key2] as int;
                    }
                }
            }
        }
    }
}

/// The decoder's dictionary: the strings, by code.
pub struct DecoderTable {
    strings: Vec<Vec<u8>>,
    limit: usize,
}

impl View for DecoderTable {
    type V = Table;

    /// The string that each code stands for.
    closed spec fn view(&self) -> Table {
        Seq::new(self.strings@.len(), |i: int| self.strings@[i]@)
    }
}

impl DecoderTable {
    /// The number of entries that the dictionary may grow to.
    pub closed spec fn limit(&self) -> nat {
        self.limit as nat
    }

    /// The literals are in their places and no string is empty.
    pub open spec fn wf(&self) -> bool {
        &&& has_literals(self@)
        &&& forall|i: int| 0 <= i < self@.len() ==> (#[trigger] self@[i]).len() > 0
    }

    /// The dictionary of the 256 literals, to grow to `limit` entries.
    pub fn new(limit: usize) -> (table: Self)
        ensures
            table.wf(),
            table@ == seed_table(),
            table.limit() == limit,
    {
        let mut strings: Vec<Vec<u8>> = Vec::new();
        let mut i: usize = 0;
        while i < 256
            invariant
                i <= 256,
                strings@.len() == i,
                forall|j: int| 0 <= j < i ==> #[trigger] strings@[j]@ == seq![j as u8],
            decreases 256 - i,
        {
            let mut literal: Vec<u8> = Vec::new();
            literal.push(i as u8);
            strings.push(literal);
            i = i + 1;
        }
        DecoderTable { strings, limit }
    }

    /// The number of entries.
    pub fn len(&self) -> (count: usize)
        ensures
            count == self@.len(),
    {
        self.strings.len()
    }

    /// The string that `code` stands for after `previous` was written: an
    /// entry, or for the first unused code `previous` followed by its own
    /// first byte.
    pub fn entry(&self, code: u16, previous: &Vec<u8>) -> (found: Option<Vec<u8>>)
        requires
            previous@.len() > 0,
        ensures
            match found {
                Some(string) => entry_for(self@, previous@, code as nat) == Some(string@),
                None => entry_for(self@, previous@, code as nat) is None,
            },
    {
        let index: usize = code as usize;
        if index < self.strings.len() {
            let string = self.strings[index].clone();
            Some(string)
        } else if index == self.strings.len() {
            let mut string = previous.clone();
            string.push(previous[0]);
            Some(string)
        } else {
            None
        }
    }

    /// Puts `string` under the next unused code, unless the dictionary is
    /// full: then it stays as it is.
    pub fn learn(&mut self, string: Vec<u8>)
        requires
            old(self).wf(),
            string@.len() > 0,
        ensures
            final(self).wf(),
            final(self).limit() == old(self).limit(),
            final(self)@ == grow(old(self)@, string@, old(self).limit()),
    {
        if self.strings.len() < self.limit {
            let ghost before = self@;
            self.strings.push(string);
            proof {
                assert(self@ =~= before.push(string@));
                assert forall|i: int| 0 <= i < self@.len() implies (#[trigger] self@[i]).len()
                    > 0 by {
                    if i < before.len() {
                    }
                }
                assert forall|i: int| 0 <= i < 256 implies #[trigger] self@[i] == seq![i as u8] by {
                }
            }
        }
    }
}

} // verus!
