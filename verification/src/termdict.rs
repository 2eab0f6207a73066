//! The term dictionary: for each term, in the order of insertion, where its
//! postings and its positions begin.

use crate::common::{
    lemma_vint_bytes_shape,
    lemma_vint_parse_bytes,
    serialize_vint,
    vint_bytes,
    vint_parse,
};
use vstd::prelude::*;

verus! {

/// What the dictionary stores for a term.
#[derive(Clone, Copy, Debug, PartialEq, Eq, Structural)]
pub struct TermInfo {
    /// The number of documents that contain the term.
    pub doc_freq: u32,
    /// Where the term's postings begin in the postings stream.
    pub postings_offset: u64,
    /// Where the term's positions begin in the positions stream.
    pub positions_offset: u64,
}

/// One entry of the dictionary: a key and what is stored for it.
#[verifier::ext_equal]
pub struct TermRecord {
    pub key: Seq<u8>,
    pub doc_freq: nat,
    pub postings_offset: nat,
    pub positions_offset: nat,
}

impl TermInfo {
    /// The dictionary entry that stores `self` under `key`.
    pub open spec fn record(self, key: Seq<u8>) -> TermRecord {
        TermRecord {
            key,
            doc_freq: self.doc_freq as nat,
            postings_offset: self.postings_offset as nat,
            positions_offset: self.positions_offset as nat,
        }
    }
}

/// The bytes of one entry: the length of the key, the key, and the three
/// numbers, each number as a variable-length integer.
pub open spec fn record_bytes(record: TermRecord) -> Seq<u8> {
    vint_bytes(record.key.len()) + record.key + vint_bytes(record.doc_freq) + vint_bytes(
        record.postings_offset,
    ) + vint_bytes(record.positions_offset)
}

/// The bytes of a dictionary: its entries one after the other.
pub open spec fn dictionary_bytes(entries: Seq<TermRecord>) -> Seq<u8>
    decreases entries.len(),
{
    if entries.len() == 0 {
        Seq::empty()
    } else {
        dictionary_bytes(entries.drop_last()) + record_bytes(entries.last())
    }
}

/// `a` comes before `b` in the order of the dictionary: byte by byte, a
/// proper prefix before what it is a prefix of.
pub open spec fn key_before(a: Seq<u8>, b: Seq<u8>) -> bool
    decreases a.len(),
{
    if b.len() == 0 {
        false
    } else if a.len() == 0 {
        true
    } else if a[0] != b[0] {
        a[0] < b[0]
    } else {
        key_before(a.skip(1), b.skip(1))
    }
}

/// The keys of `entries` are in strictly increasing order.
pub open spec fn keys_increasing(entries: Seq<TermRecord>) -> bool {
    forall|i: int, j: int|
        0 <= i < j < entries.len() ==> key_before(
            (#[trigger] entries[i]).key,
            (#[trigger] entries[j]).key,
        )
}

/// Reads one entry from the front of `bytes`: the entry and the number of
/// bytes it occupies, or `None` if `bytes` ends too early.
#[verifier::opaque]
pub open spec fn record_parse(bytes: Seq<u8>) -> Option<(TermRecord, nat)> {
    match vint_parse(bytes) {
        Some((key_len, a)) => if bytes.len() < a + key_len {
            None
        } else {
            let key = bytes.subrange(a as int, (a + key_len) as int);
            match vint_parse(bytes.skip((a + key_len) as int)) {
                Some((doc_freq, b)) => match vint_parse(bytes.skip((a + key_len + b) as int)) {
                    Some((postings_offset, c)) => match vint_parse(
                        bytes.skip((a + key_len + b + c) as int),
                    ) {
                        Some((positions_offset, d)) => Some(
                            (
                                TermRecord { key, doc_freq, postings_offset, positions_offset },
                                a + key_len + b + c + d,
                            ),
                        ),
                        None => None,
                    },
                    None => None,
                },
                None => None,
            }
        },
        None => None,
    }
}

/// Reads a whole dictionary: the entries of `bytes`, or `None` if `bytes`
/// is not a sequence of entries.
pub open spec fn dictionary_parse(bytes: Seq<u8>) -> Option<Seq<TermRecord>>
    decreases bytes.len(),
{
    if bytes.len() == 0 {
        Some(Seq::empty())
    } else {
        match record_parse(bytes) {
            Some((record, used)) => if used == 0 || used > bytes.len() {
                None
            } else {
                match dictionary_parse(bytes.skip(used as int)) {
                    Some(records) => Some(seq![record] + records),
                    None => None,
                }
            },
            None => None,
        }
    }
}

/// Reading an entry gives the entry back, whatever follows it.
pub proof fn lemma_record_parse(record: TermRecord, rest: Seq<u8>)
    ensures
        record_parse(record_bytes(record) + rest) == Some((record, record_bytes(record).len())),
        record_bytes(record).len() > 0,
{
    reveal(record_parse);
    let a = vint_bytes(record.key.len());
    let b = vint_bytes(record.doc_freq);
    let c = vint_bytes(record.postings_offset);
    let d = vint_bytes(record.positions_offset);
    let bytes = record_bytes(record) + rest;
    lemma_vint_bytes_shape(record.key.len());
    lemma_vint_parse_bytes(record.key.len(), record.key + b + c + d + rest);
    assert(bytes =~= a + (record.key + b + c + d + rest));
    assert(bytes.subrange(a.len() as int, (a.len() + record.key.len()) as int) =~= record.key);
    lemma_vint_parse_bytes(record.doc_freq, c + d + rest);
    assert(bytes.skip((a.len() + record.key.len()) as int) =~= b + (c + d + rest));
    lemma_vint_parse_bytes(record.postings_offset, d + rest);
    assert(bytes.skip((a.len() + record.key.len() + b.len()) as int) =~= c + (d + rest));
    lemma_vint_parse_bytes(record.positions_offset, rest);
    assert(bytes.skip((a.len() + record.key.len() + b.len() + c.len()) as int) =~= d + rest);
}

/// The bytes of a dictionary are those of its first entry followed by
/// those of the others.
pub proof fn lemma_dictionary_front(entries: Seq<TermRecord>)
    requires
        entries.len() > 0,
    ensures
        dictionary_bytes(entries) == record_bytes(entries[0]) + dictionary_bytes(entries.skip(1)),
    decreases entries.len(),
{
    let front = entries.drop_last();
    if front.len() == 0 {
        assert(entries.skip(1) =~= Seq::<TermRecord>::empty());
        assert(dictionary_bytes(front) =~= Seq::<u8>::empty());
        assert(dictionary_bytes(entries.skip(1)) =~= Seq::<u8>::empty());
        assert(entries.last() == entries[0]);
        assert(dictionary_bytes(entries) =~= record_bytes(entries[0]) + dictionary_bytes(
            entries.skip(1),
        ));
    } else {
        lemma_dictionary_front(front);
        assert(entries.skip(1).drop_last() =~= front.skip(1));
        assert(dictionary_bytes(entries) =~= record_bytes(entries[0]) + dictionary_bytes(
            entries.skip(1),
        ));
    }
}

/// Reading the bytes of a dictionary gives its entries back: the keys, the
/// document frequencies and the offsets, in the order of insertion.
pub proof fn lemma_dictionary_parse(entries: Seq<TermRecord>)
    ensures
        dictionary_parse(dictionary_bytes(entries)) == Some(entries),
    decreases entries.len(),
{
    if entries.len() > 0 {
        let first = record_bytes(entries[0]);
        let others = entries.skip(1);
        let bytes = dictionary_bytes(entries);
        lemma_dictionary_front(entries);
        lemma_record_parse(entries[0], dictionary_bytes(others));
        assert(bytes.skip(first.len() as int) =~= dictionary_bytes(others));
        lemma_dictionary_parse(others);
        assert(seq![entries[0]] + others =~= entries);
    }
}

/// Builds the bytes of a dictionary, entry by entry.
///
/// The builder takes the keys as they come: it is the caller who inserts
/// them in increasing order.
pub struct TermDictionaryBuilder {
    data: Vec<u8>,
    entries: Ghost<Seq<TermRecord>>,
}

impl View for TermDictionaryBuilder {
    type V = Seq<TermRecord>;

    /// The entries inserted so far.
    closed spec fn view(&self) -> Seq<TermRecord> {
        self.entries@
    }
}

impl TermDictionaryBuilder {
    /// The bytes built so far are those of the entries inserted so far.
    pub closed spec fn wf(&self) -> bool {
        self.data@ == dictionary_bytes(self.entries@)
    }

    pub fn new() -> (builder: TermDictionaryBuilder)
        ensures
            builder.wf(),
            builder@ == Seq::<TermRecord>::empty(),
    {
        TermDictionaryBuilder { data: Vec::new(), entries: Ghost(Seq::empty()) }
    }

    /// Appends the entry that stores `info` under `key`.
    pub fn insert(&mut self, key: &[u8], info: &TermInfo)
        requires
            old(self).wf(),
        ensures
            final(self).wf(),
            final(self)@ == old(self)@.push(info.record(key@)),
    {
        let ghost record = info.record(key@);
        let ghost before = self.data@;
        serialize_vint(key.len() as u64, &mut self.data);
        let mut i: usize = 0;
        while i < key.len()
            invariant
                i <= key.len(),
                self.data@ == before + vint_bytes(key@.len()) + key@.take(i as int),
                self.entries == old(self).entries,
            decreases key.len() - i,
        {
            self.data.push(key[i]);
            assert(self.data@ =~= before + vint_bytes(key@.len()) + key@.take(i + 1));
            i = i + 1;
        }
        assert(key@.take(i as int) =~= key@);
        serialize_vint(info.doc_freq as u64, &mut self.data);
        serialize_vint(info.postings_offset, &mut self.data);
        serialize_vint(info.positions_offset, &mut self.data);
        proof {
            let entries = self.entries@.push(record);
            assert(entries.drop_last() =~= self.entries@);
            assert(self.data@ =~= before + record_bytes(record));
            self.entries@ = entries;
        }
    }

    /// The bytes built so far.
    pub fn as_slice(&self) -> (bytes: &[u8])
        requires
            self.wf(),
        ensures
            bytes@ == dictionary_bytes(self@),
    {
        self.data.as_slice()
    }

    /// The number of bytes built so far.
    pub fn len(&self) -> (len: usize)
        requires
            self.wf(),
        ensures
            len == dictionary_bytes(self@).len(),
    {
        self.data.len()
    }

    /// The bytes of the dictionary.
    pub fn finish(self) -> (bytes: Vec<u8>)
        requires
            self.wf(),
        ensures
            bytes@ == dictionary_bytes(self@),
    {
        self.data
    }
}

} // verus!
