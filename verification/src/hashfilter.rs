//! A set of 128-bit keys kept in memory and mirrored in an append-only file
//! of 16-byte little-endian records. The set decides membership from memory
//! alone; what is read from and written to the file passes through it as
//! bytes, so that the record format and the repair of a torn tail are proved.

use vstd::prelude::*;
use vstd::bytes::{
    lemma_auto_spec_u128_to_from_le_bytes, spec_u128_from_le_bytes, spec_u128_to_le_bytes,
    u128_from_le_bytes, u128_to_le_bytes,
};
use vstd::slice::slice_subrange;
use std::collections::HashSet;
use std::hash::Hash;
use siphasher::sip128::{Hasher128, SipHasher};

verus! {

broadcast use vstd::std_specs::hash::group_hash_axioms;

/// The two halves of the SipHash 2-4 128-bit digest, under the all-zero key,
/// of what `str`'s `Hash` impl feeds a hasher for this text.
pub uninterp spec fn sip128_halves(text: Seq<char>) -> (u64, u64);

/// Feeds `text` to `siphasher::sip128::SipHasher::new()` through
/// `Hash::hash` and returns the fields `h1` and `h2` of what
/// `Hasher128::finish128` gives. The hasher's key is fixed, so the digest
/// depends on the text alone; the contract only gives that digest its name.
#[verifier::external_body]
fn sip128(text: &str) -> (h: (u64, u64))
    ensures
        h == sip128_halves(text@),
{
    let mut hasher = SipHasher::new();
    text.hash(&mut hasher);
    let digest = hasher.finish128();
    (digest.h1, digest.h2)
}

/// The key made of two digest halves: the first in the high 64 bits.
pub open spec fn join_halves(h1: u64, h2: u64) -> u128 {
    ((h1 as u128) << 64) | (h2 as u128)
}

/// The key under which a path is remembered.
pub open spec fn key_of(path: Seq<char>) -> u128 {
    join_halves(sip128_halves(path).0, sip128_halves(path).1)
}

/// The record at index `i` of a file's bytes.
pub open spec fn record_at(bytes: Seq<u8>, i: int) -> u128 {
    spec_u128_from_le_bytes(bytes.subrange(16 * i, 16 * i + 16))
}

/// The whole records of a file's bytes, in order; a partial record at the end is left out.
pub open spec fn decode_records(bytes: Seq<u8>) -> Seq<u128> {
    Seq::new((bytes.len() / 16) as nat, |i: int| record_at(bytes, i))
}

/// The bytes of a sequence of keys, 16 little-endian bytes each.
pub open spec fn encode_keys(keys: Seq<u128>) -> Seq<u8>
    decreases keys.len(),
{
    if keys.len() == 0 {
        Seq::empty()
    } else {
        encode_keys(keys.drop_last()) + spec_u128_to_le_bytes(keys.last())
    }
}

/// The length of a file once a partial record at its end is cut off.
pub open spec fn whole_records_len(len: int) -> int {
    len - len % 16
}

/// Keys encode to 16 bytes each.
pub proof fn lemma_encode_len(keys: Seq<u128>)
    ensures
        encode_keys(keys).len() == 16 * keys.len(),
    decreases keys.len(),
{
    lemma_auto_spec_u128_to_from_le_bytes();
    if keys.len() > 0 {
        lemma_encode_len(keys.drop_last());
    }
}

/// Records appended to a file made of whole records are read back after those
/// the file held.
pub proof fn lemma_decode_append(prefix: Seq<u8>, keys: Seq<u128>)
    requires
        prefix.len() % 16 == 0,
    ensures
        decode_records(prefix + encode_keys(keys)) =~= decode_records(prefix) + keys,
    decreases keys.len(),
{
    lemma_auto_spec_u128_to_from_le_bytes();
    lemma_encode_len(keys);
    let whole = prefix + encode_keys(keys);
    let n = prefix.len() / 16;
    if keys.len() == 0 {
        assert(whole =~= prefix);
    } else {
        let init = keys.drop_last();
        lemma_encode_len(init);
        lemma_decode_append(prefix, init);
        let shorter = prefix + encode_keys(init);
        let last = spec_u128_to_le_bytes(keys.last());
        assert(whole =~= shorter + last);
        assert(shorter.len() == 16 * (n + init.len()));
        assert(whole.len() == 16 * (n + keys.len()));
        assert forall|i: int| 0 <= i < n + keys.len() implies #[trigger] decode_records(whole)[i]
            == (decode_records(prefix) + keys)[i] by {
            if i < n + init.len() {
                assert(whole.subrange(16 * i, 16 * i + 16) =~= shorter.subrange(
                    16 * i,
                    16 * i + 16,
                ));
                assert(decode_records(shorter)[i] == record_at(shorter, i));
                assert((decode_records(prefix) + init)[i] == (decode_records(prefix) + keys)[i]);
            } else {
                assert(whole.subrange(16 * i, 16 * i + 16) =~= last);
            }
        }
    }
}

/// What was written is read back: the records of encoded keys are those keys.
pub proof fn lemma_round_trip(keys: Seq<u128>)
    ensures
        decode_records(encode_keys(keys)) =~= keys,
{
    lemma_decode_append(Seq::<u8>::empty(), keys);
    assert(Seq::<u8>::empty() + encode_keys(keys) =~= encode_keys(keys));
}

/// Cutting a partial record off the end of a file loses no whole record.
pub proof fn lemma_decode_truncated(file: Seq<u8>)
    ensures
        0 <= whole_records_len(file.len() as int) <= file.len(),
        whole_records_len(file.len() as int) % 16 == 0,
        decode_records(file.subrange(0, whole_records_len(file.len() as int))) =~= decode_records(
            file,
        ),
{
    let cut = whole_records_len(file.len() as int);
    let kept = file.subrange(0, cut);
    assert(kept.len() / 16 == file.len() / 16);
    assert forall|i: int| 0 <= i < file.len() / 16 implies #[trigger] decode_records(kept)[i]
        == decode_records(file)[i] by {
        assert(kept.subrange(16 * i, 16 * i + 16) =~= file.subrange(16 * i, 16 * i + 16));
    }
}

/// A save after a torn write: whatever the file held, once it is cut back to
/// whole records and the pending keys are appended, reading it gives the
/// records it held before followed by those keys, and nothing made of the
/// torn fragment.
pub proof fn lemma_save_repairs_torn_tail(file: Seq<u8>, keys: Seq<u128>)
    ensures
        decode_records(
            file.subrange(0, whole_records_len(file.len() as int)) + encode_keys(keys),
        ) =~= decode_records(file) + keys,
{
    lemma_decode_truncated(file);
    lemma_decode_append(file.subrange(0, whole_records_len(file.len() as int)), keys);
}

/// What a reader finds after a save: every key that was pending, every
/// record the file held before, and nothing else.
pub proof fn lemma_saved_keys_are_loaded(file: Seq<u8>, pending: Seq<u128>, key: u128)
    ensures
        decode_records(
            file.subrange(0, whole_records_len(file.len() as int)) + encode_keys(pending.reverse()),
        ).contains(key) <==> decode_records(file).contains(key) || pending.contains(key),
{
    lemma_save_repairs_torn_tail(file, pending.reverse());
    let before = decode_records(file);
    let newest_first = pending.reverse();
    let after = decode_records(
        file.subrange(0, whole_records_len(file.len() as int)) + encode_keys(newest_first),
    );
    assert(after =~= before + newest_first);
    if after.contains(key) {
        let i = choose|i: int| 0 <= i < after.len() && after[i] == key;
        if i < before.len() {
            assert(before[i] == key);
        } else {
            let j = i - before.len();
            assert(newest_first[j] == key);
            assert(pending[pending.len() - 1 - j] == key);
        }
    }
    if before.contains(key) {
        let i = choose|i: int| 0 <= i < before.len() && before[i] == key;
        assert(after[i] == key);
    }
    if pending.contains(key) {
        let j = choose|j: int| 0 <= j < pending.len() && pending[j] == key;
        let i = before.len() + (pending.len() - 1 - j);
        assert(newest_first[pending.len() - 1 - j] == key);
        assert(after[i] == key);
    }
}

/// The mathematical content of a key set.
pub struct HashFilterView {
    /// The backing file's path, once one was given.
    pub path: Option<Seq<char>>,
    /// Bytes of the backing file that were read already.
    pub last_offset: u64,
    /// The keys held in memory.
    pub keys: Set<u128>,
    /// Keys inserted since the last save, oldest first.
    pub pending: Seq<u128>,
}

impl HashFilterView {
    /// The empty set without a backing file.
    pub open spec fn unbound() -> HashFilterView {
        HashFilterView { path: None, last_offset: 0, keys: Set::empty(), pending: Seq::empty() }
    }

    /// The empty set backed by the file at `path`.
    pub open spec fn bound(path: Seq<char>) -> HashFilterView {
        HashFilterView { path: Some(path), ..Self::unbound() }
    }

    /// The set after a key was inserted: a new key is also pending.
    pub open spec fn with_key(self, key: u128) -> HashFilterView {
        HashFilterView {
            keys: self.keys.insert(key),
            pending: if self.keys.contains(key) {
                self.pending
            } else {
                self.pending.push(key)
            },
            ..self
        }
    }
}

/// What to do to the backing file in order to save.
#[derive(Debug, Clone)]
pub struct SavePlan {
    /// The length to cut the file to before anything is appended.
    pub truncate_to: u64,
    /// The bytes to append at the end of the file.
    pub bytes: Vec<u8>,
}

/// A set of keys of paths, with the keys that are not yet on disk.
#[derive(Debug)]
pub struct HashFilter {
    path: Option<String>,
    last_offset: u64,
    filter: HashSet<u128>,
    pending: Vec<u128>,
}

impl View for HashFilter {
    type V = HashFilterView;

    closed spec fn view(&self) -> HashFilterView {
        HashFilterView {
            path: match self.path {
                Some(p) => Some(p@),
                None => None,
            },
            last_offset: self.last_offset,
            keys: self.filter@,
            pending: self.pending@,
        }
    }
}

impl Default for HashFilter {
    /// An empty set without a backing file.
    fn default() -> (f: Self)
        ensures
            f.wf(),
            f@ == HashFilterView::unbound(),
    {
        HashFilter::new()
    }
}

impl HashFilter {
    /// Every pending key is in the set.
    pub open spec fn wf(&self) -> bool {
        forall|i: int| 0 <= i < self@.pending.len() ==> self@.keys.contains(#[trigger] self@.pending[i])
    }

    /// An empty set without a backing file.
    pub fn new() -> (f: Self)
        ensures
            f.wf(),
            f@ == HashFilterView::unbound(),
    {
        HashFilter { path: None, last_offset: 0, filter: HashSet::new(), pending: Vec::new() }
    }

    /// An empty set backed by the file at `path`.
    pub fn open(path: &str) -> (f: Self)
        ensures
            f.wf(),
            f@ == HashFilterView::bound(path@),
    {
        HashFilter {
            path: Some(path.to_owned()),
            last_offset: 0,
            filter: HashSet::new(),
            pending: Vec::new(),
        }
    }

    /// Binds the set to another file, which is to be read from its start.
    pub fn set_backing(&mut self, path: &str)
        ensures
            final(self)@ == (HashFilterView { path: Some(path@), last_offset: 0, ..old(self)@ }),
            old(self).wf() ==> final(self).wf(),
    {
        self.path = Some(path.to_owned());
        self.last_offset = 0;
    }

    /// The backing file's path, if the set has one.
    pub fn backing(&self) -> (p: Option<&String>)
        ensures
            match p {
                Some(s) => self@.path == Some(s@),
                None => self@.path is None,
            },
    {
        self.path.as_ref()
    }

    /// The offset in the backing file from which the next load reads.
    pub fn last_offset(&self) -> (n: u64)
        ensures
            n == self@.last_offset,
    {
        self.last_offset
    }

    /// Number of keys waiting to be saved.
    pub fn pending_len(&self) -> (n: usize)
        ensures
            n == self@.pending.len(),
    {
        self.pending.len()
    }

    /// The key of a path.
    pub fn key_for(path: &str) -> (k: u128)
        ensures
            k == key_of(path@),
    {
        let (h1, h2) = sip128(path);
        ((h1 as u128) << 64) | (h2 as u128)
    }

    /// Adds a key; a new one is also queued for the next save.
    pub fn insert_key(&mut self, key: u128) -> (added: bool)
        requires
            old(self).wf(),
        ensures
            final(self).wf(),
            added == !old(self)@.keys.contains(key),
            final(self)@ == old(self)@.with_key(key),
    {
        let added = self.filter.insert(key);
        if added {
            self.pending.push(key);
        }
        proof {
            assert forall|i: int| 0 <= i < self@.pending.len() implies self@.keys.contains(
                #[trigger] self@.pending[i],
            ) by {
                if i < old(self)@.pending.len() {
                    assert(old(self)@.keys.contains(old(self)@.pending[i]));
                }
            }
        }
        added
    }

    /// Whether a key is in the set, by memory alone.
    pub fn contains_key(&self, key: u128) -> (b: bool)
        ensures
            b == self@.keys.contains(key),
    {
        self.filter.contains(&key)
    }

    /// Remembers a path; tells whether it was new.
    pub fn insert(&mut self, path: &str) -> (added: bool)
        requires
            old(self).wf(),
        ensures
            final(self).wf(),
            added == !old(self)@.keys.contains(key_of(path@)),
            final(self)@ == old(self)@.with_key(key_of(path@)),
    {
        let key = Self::key_for(path);
        self.insert_key(key)
    }

    /// Whether a path was remembered, by memory alone.
    pub fn contains(&self, path: &str) -> (b: bool)
        ensures
            b == self@.keys.contains(key_of(path@)),
    {
        self.contains_key(Self::key_for(path))
    }

    /// Takes in what the backing file holds from `last_offset` on: every whole
    /// record becomes a key of the set and moves the offset past it; a partial
    /// record at the end is left for a later load. Without a backing file
    /// nothing changes.
    pub fn load(&mut self, bytes: &[u8])
        requires
            old(self).wf(),
            old(self)@.last_offset + bytes@.len() <= u64::MAX,
        ensures
            final(self).wf(),
            final(self)@.path == old(self)@.path,
            final(self)@.pending == old(self)@.pending,
            old(self)@.path is None ==> final(self)@ == old(self)@,
            old(self)@.path is Some ==> {
                &&& final(self)@.keys == old(self)@.keys.union(decode_records(bytes@).to_set())
                &&& final(self)@.last_offset == old(self)@.last_offset + 16 * (bytes@.len() / 16)
            },
    {
        if self.path.is_none() {
            return ;
        }
        let count: usize = bytes.len() / 16;
        let mut i: usize = 0;
        proof {
            assert(decode_records(bytes@).subrange(0, 0) =~= Seq::<u128>::empty());
            assert(self@.keys.union(Seq::<u128>::empty().to_set()) =~= self@.keys);
        }
        while i < count
            invariant
                i <= count,
                count == bytes@.len() / 16,
                bytes@.len() <= usize::MAX,
                self.wf(),
                self@.path == old(self)@.path,
                self@.pending == old(self)@.pending,
                self@.last_offset == old(self)@.last_offset + 16 * i,
                old(self)@.last_offset + bytes@.len() <= u64::MAX,
                self@.keys == old(self)@.keys.union(
                    decode_records(bytes@).subrange(0, i as int).to_set(),
                ),
            decreases count - i,
        {
            assert(16 * i + 16 <= bytes@.len());
            let record = slice_subrange(bytes, 16 * i, 16 * i + 16);
            let key = u128_from_le_bytes(record);
            self.filter.insert(key);
            self.last_offset = self.last_offset + 16;
            proof {
                let all = decode_records(bytes@);
                let before = all.subrange(0, i as int);
                let after = all.subrange(0, i + 1);
                assert(all[i as int] == key);
                assert(after =~= before.push(key));
                assert(after.to_set() =~= before.to_set().insert(key)) by {
                    assert forall|k: u128| after.to_set().contains(k) implies before.to_set().insert(
                        key,
                    ).contains(k) by {
                        let j = choose|j: int| 0 <= j < after.len() && after[j] == k;
                        if j < before.len() {
                            assert(before[j] == k);
                        }
                    }
                    assert forall|k: u128| before.to_set().insert(key).contains(
                        k,
                    ) implies after.to_set().contains(k) by {
                        if k == key {
                            assert(after[i as int] == k);
                        } else {
                            let j = choose|j: int| 0 <= j < before.len() && before[j] == k;
                            assert(after[j] == k);
                        }
                    }
                }
                assert(self@.keys =~= old(self)@.keys.union(after.to_set()));
            }
            i = i + 1;
        }
        proof {
            assert(decode_records(bytes@).subrange(0, count as int) =~= decode_records(bytes@));
        }
    }

    /// Plans a save for a backing file that is `file_len` bytes long. Nothing
    /// is to be done without a backing file or without pending keys. Else the
    /// file is cut back to its whole records and the pending keys are
    /// appended, the newest first.
    pub fn save_plan(&self, file_len: u64) -> (plan: Option<SavePlan>)
        ensures
            plan is None <==> (self@.path is None || self@.pending.len() == 0),
            plan is Some ==> {
                &&& plan.unwrap().truncate_to == whole_records_len(file_len as int)
                &&& plan.unwrap().bytes@ == encode_keys(self@.pending.reverse())
            },
    {
        if self.path.is_none() || self.pending.len() == 0 {
            return None;
        }
        let ghost newest_first = self@.pending.reverse();
        let n: usize = self.pending.len();
        let mut bytes: Vec<u8> = Vec::new();
        let mut j: usize = 0;
        proof {
            assert(newest_first.subrange(0, 0) =~= Seq::<u128>::empty());
        }
        while j < n
            invariant
                j <= n,
                n == self.pending@.len(),
                newest_first == self.pending@.reverse(),
                bytes@ == encode_keys(newest_first.subrange(0, j as int)),
            decreases n - j,
        {
            let key = self.pending[n - 1 - j];
            let mut record = u128_to_le_bytes(key);
            bytes.append(&mut record);
            proof {
                let upto = newest_first.subrange(0, j + 1);
                assert(upto.drop_last() =~= newest_first.subrange(0, j as int));
                assert(upto.last() == key);
            }
            j = j + 1;
        }
        proof {
            assert(newest_first.subrange(0, n as int) =~= newest_first);
        }
        Some(SavePlan { truncate_to: file_len - file_len % 16, bytes })
    }

    /// Records that a planned save reached the disk: no key is pending any
    /// more. `file_len` is the length the file had when the save was planned
    /// and `new_len` its length afterwards; where the set had read the file
    /// up to `file_len`, it has now read it up to `new_len`.
    pub fn saved(&mut self, file_len: u64, new_len: u64)
        requires
            old(self).wf(),
        ensures
            final(self).wf(),
            final(self)@.pending == Seq::<u128>::empty(),
            final(self)@.keys == old(self)@.keys,
            final(self)@.path == old(self)@.path,
            final(self)@.last_offset == if file_len == old(self)@.last_offset {
                new_len
            } else {
                old(self)@.last_offset
            },
    {
        self.pending.clear();
        if file_len == self.last_offset {
            self.last_offset = new_len;
        }
    }
}

} // verus!
