//! A log-structured store: records appended to one log file, found again
//! through an in-memory index of bins.
//!
//! The log is a 13-byte head (`MONA`, a version byte, eight bytes) followed
//! by records, each `| bin | key length | value length (u16, big-endian) |
//! key | value |`. Every `put` appends a record and points the bin's index at
//! it; `get` follows the pointer and decodes the record there. Reading and
//! writing the file is the caller's part: these functions take what was read
//! and hand over what to write.
use vstd::prelude::*;

use crate::error::Error;

verus! {

/// The log's magic bytes.
pub const MAGIC: [u8; 4] = [0x4d, 0x4f, 0x4e, 0x41];

/// The log format's version.
pub const VERSION: u8 = 1;

/// The largest bin number.
pub const MAX_BIN: usize = 127;

/// The longest key, in bytes.
pub const MAX_KEY_SIZE: usize = 255;

/// The longest value, in bytes.
pub const MAX_VAL_SIZE: usize = 65535;

/// The length of the log's head.
pub const SIZE_OF_HEAD: usize = 13;

/// The length of a record's prefix: bin, key length, value length.
pub const SIZE_OF_RECORD_PREFIX: usize = 4;

/// Where a record stands in the log: its offset and its length.
#[derive(Debug, Clone, Copy, PartialEq, Eq, Structural)]
pub struct LogPtr {
    pub pos: u64,
    pub len: u64,
}

/// One record of the log.
#[derive(Debug)]
pub struct LogRecord {
    pub bin: u8,
    pub key: Vec<u8>,
    pub val: Vec<u8>,
}

/// The bytes of a record: its flag byte (the bin, with the top two bits
/// cleared), the key's length as one byte and the value's as two
/// big-endian bytes, then the key and the value.
pub open spec fn record_bytes(bin: u8, key: Seq<u8>, val: Seq<u8>) -> Seq<u8> {
    seq![
        (bin % 64) as u8,
        (key.len() % 256) as u8,
        ((val.len() / 256) % 256) as u8,
        (val.len() % 256) as u8,
    ] + key + val
}

/// The key length a record's prefix gives.
pub open spec fn prefix_key_len(b: Seq<u8>) -> int {
    b[1] as int
}

/// The value length a record's prefix gives.
pub open spec fn prefix_val_len(b: Seq<u8>) -> int {
    b[2] as int * 256 + b[3] as int
}

/// `b` holds a whole record at its start: a prefix and the key and value
/// it announces.
pub open spec fn holds_record(b: Seq<u8>) -> bool {
    b.len() >= 4 && b.len() >= 4 + prefix_key_len(b) + prefix_val_len(b)
}

/// The bin, key and value of the record at the start of `b`.
pub open spec fn decode_spec(b: Seq<u8>) -> (u8, Seq<u8>, Seq<u8>) {
    let n = prefix_key_len(b);
    let m = prefix_val_len(b);
    (b[0], b.subrange(4, 4 + n), b.subrange(4 + n, 4 + n + m))
}

/// The text of the error for an out-of-range record part.
pub open spec fn too_large_text(bin: usize, key: Seq<u8>, val: Seq<u8>) -> Option<Seq<char>> {
    if bin > MAX_BIN {
        Some("bin too large (max 127)"@)
    } else if key.len() > MAX_KEY_SIZE {
        Some("key too large (max 255 bytes)"@)
    } else if val.len() > MAX_VAL_SIZE {
        Some("val too large (max 65535 bytes)"@)
    } else {
        None
    }
}

/// Appends every byte of `src` to `out`.
fn push_all(out: &mut Vec<u8>, src: &[u8])
    ensures
        final(out)@ == old(out)@ + src@,
{
    let mut i: usize = 0;
    while i < src.len()
        invariant
            i <= src@.len(),
            out@ == old(out)@ + src@.take(i as int),
        decreases src.len() - i,
    {
        out.push(src[i]);
        assert(src@.take(i + 1) =~= src@.take(i as int).push(src@[i as int]));
        i = i + 1;
    }
    assert(src@.take(i as int) =~= src@);
}

/// The bytes `b[from..to]`.
fn bytes_between(b: &[u8], from: usize, to: usize) -> (r: Vec<u8>)
    requires
        from <= to <= b@.len(),
    ensures
        r@ == b@.subrange(from as int, to as int),
{
    let mut out: Vec<u8> = Vec::new();
    let mut i = from;
    while i < to
        invariant
            from <= i <= to,
            to <= b@.len(),
            out@ == b@.subrange(from as int, i as int),
        decreases to - i,
    {
        out.push(b[i]);
        assert(b@.subrange(from as int, i + 1) =~= b@.subrange(from as int, i as int).push(
            b@[i as int],
        ));
        i = i + 1;
    }
    out
}

impl LogRecord {
    /// A record of `key` and `val` in `bin`; an error when the bin, the key
    /// or the value is beyond its limit.
    pub fn new(bin: usize, key: Vec<u8>, val: Vec<u8>) -> (r: Result<LogRecord, Error>)
        ensures
            match too_large_text(bin, key@, val@) {
                Some(t) => r matches Err(Error::InternalError(m)) && m@ == t,
                None => r matches Ok(rec) && rec.bin == bin && rec.key@ == key@ && rec.val@ == val@,
            },
    {
        if bin > MAX_BIN {
            return Err(Error::InternalError(String::from_str("bin too large (max 127)")));
        }
        if key.len() > MAX_KEY_SIZE {
            return Err(Error::InternalError(String::from_str("key too large (max 255 bytes)")));
        }
        if val.len() > MAX_VAL_SIZE {
            return Err(Error::InternalError(String::from_str("val too large (max 65535 bytes)")));
        }
        Ok(LogRecord { bin: bin as u8, key, val })
    }

    /// The record's bytes in the log.
    pub fn encode(&self) -> (out: Vec<u8>)
        ensures
            out@ == record_bytes(self.bin, self.key@, self.val@),
    {
        let b = self.bin;
        let flag: u8 = b & 0b0111111u8;
        assert(b & 0b0111111u8 == b % 64) by (bit_vector);
        let k = self.key.len();
        let v = self.val.len();
        let mut out: Vec<u8> = Vec::new();
        out.push(flag);
        out.push((k % 256) as u8);
        out.push(((v / 256) % 256) as u8);
        out.push((v % 256) as u8);
        push_all(&mut out, self.key.as_slice());
        push_all(&mut out, self.val.as_slice());
        out
    }

    /// The record at the start of `value`.
    pub fn decode(value: &[u8]) -> (r: LogRecord)
        requires
            holds_record(value@),
        ensures
            (r.bin, r.key@, r.val@) == decode_spec(value@),
    {
        let bin = value[0];
        let n = value[1] as usize;
        let m = (value[2] as usize) * 256 + (value[3] as usize);
        let key = bytes_between(value, 4, 4 + n);
        let val = bytes_between(value, 4 + n, 4 + n + m);
        LogRecord { bin, key, val }
    }
}

/// A record decodes to what it was made of, when its bin fits the six bits
/// the flag byte keeps and its key and value fit their length fields.
pub proof fn law_record_roundtrip(bin: u8, key: Seq<u8>, val: Seq<u8>)
    requires
        bin < 64,
        key.len() <= MAX_KEY_SIZE,
        val.len() <= MAX_VAL_SIZE,
    ensures
        holds_record(record_bytes(bin, key, val)),
        decode_spec(record_bytes(bin, key, val)) == (bin, key, val),
{
    let b = record_bytes(bin, key, val);
    assert(prefix_key_len(b) == key.len());
    assert(prefix_val_len(b) == val.len());
    let n = key.len() as int;
    let m = val.len() as int;
    assert(b.subrange(4, 4 + n) =~= key);
    assert(b.subrange(4 + n, 4 + n + m) =~= val);
}

/// Whether two byte strings are the same.
fn bytes_eq(a: &[u8], b: &[u8]) -> (r: bool)
    ensures
        r == (a@ == b@),
{
    if a.len() != b.len() {
        return false;
    }
    let mut i: usize = 0;
    while i < a.len()
        invariant
            i <= a@.len(),
            a@.len() == b@.len(),
            a@.take(i as int) == b@.take(i as int),
        decreases a.len() - i,
    {
        if a[i] != b[i] {
            assert(a@[i as int] != b@[i as int]);
            return false;
        }
        assert(a@.take(i + 1) =~= a@.take(i as int).push(a@[i as int]));
        assert(b@.take(i + 1) =~= b@.take(i as int).push(b@[i as int]));
        i = i + 1;
    }
    assert(a@ =~= a@.take(i as int));
    assert(b@ =~= b@.take(i as int));
    true
}

/// The pointer one bin's index holds for key `k`.
pub open spec fn bin_lookup(l: Seq<(Vec<u8>, LogPtr)>, k: Seq<u8>) -> Option<LogPtr>
    decreases l.len(),
{
    if l.len() == 0 {
        None
    } else if l[0].0@ == k {
        Some(l[0].1)
    } else {
        bin_lookup(l.drop_first(), k)
    }
}

/// No key stands twice in a bin's index.
pub open spec fn keys_distinct(l: Seq<(Vec<u8>, LogPtr)>) -> bool {
    forall|i: int, j: int| 0 <= i < j < l.len() ==> (#[trigger] l[i]).0@ != (#[trigger] l[j]).0@
}

/// A key found at `j`, and nowhere before it, looks up to its pointer.
proof fn lemma_lookup_found(l: Seq<(Vec<u8>, LogPtr)>, k: Seq<u8>, j: int)
    requires
        0 <= j < l.len(),
        l[j].0@ == k,
        forall|i: int| 0 <= i < j ==> (#[trigger] l[i]).0@ != k,
    ensures
        bin_lookup(l, k) == Some(l[j].1),
    decreases j,
{
    if j > 0 {
        assert(l[0].0@ != k);
        assert forall|i: int| 0 <= i < j - 1 implies (#[trigger] l.drop_first()[i]).0@ != k by {
            assert(l.drop_first()[i] == l[i + 1]);
        }
        lemma_lookup_found(l.drop_first(), k, j - 1);
    }
}

/// A key found nowhere looks up to nothing.
proof fn lemma_lookup_absent(l: Seq<(Vec<u8>, LogPtr)>, k: Seq<u8>)
    requires
        forall|i: int| 0 <= i < l.len() ==> (#[trigger] l[i]).0@ != k,
    ensures
        bin_lookup(l, k) is None,
    decreases l.len(),
{
    if l.len() > 0 {
        assert(l[0].0@ != k);
        assert forall|i: int| 0 <= i < l.len() - 1 implies (#[trigger] l.drop_first()[i]).0@ != k by {
            assert(l.drop_first()[i] == l[i + 1]);
        }
        lemma_lookup_absent(l.drop_first(), k);
    }
}

/// A key that looks up to something stands in the index.
proof fn lemma_lookup_some(l: Seq<(Vec<u8>, LogPtr)>, k: Seq<u8>)
    requires
        bin_lookup(l, k) is Some,
    ensures
        exists|i: int| 0 <= i < l.len() && (#[trigger] l[i]).0@ == k && l[i].1 == bin_lookup(
            l,
            k,
        )->0,
    decreases l.len(),
{
    if l[0].0@ != k {
        lemma_lookup_some(l.drop_first(), k);
        let i = choose|i: int|
            0 <= i < l.drop_first().len() && (#[trigger] l.drop_first()[i]).0@ == k
                && l.drop_first()[i].1 == bin_lookup(l.drop_first(), k)->0;
        assert(l[i + 1] == l.drop_first()[i]);
    }
}

/// Lookups of the other keys are unchanged by setting the entry at `j`,
/// which holds key `k`, to another pointer for `k`.
proof fn lemma_lookup_update(
    l: Seq<(Vec<u8>, LogPtr)>,
    j: int,
    e: (Vec<u8>, LogPtr),
    k2: Seq<u8>,
)
    requires
        0 <= j < l.len(),
        e.0@ == l[j].0@,
        k2 != e.0@,
    ensures
        bin_lookup(l.update(j, e), k2) == bin_lookup(l, k2),
    decreases l.len(),
{
    if j == 0 {
        assert(l.update(j, e)[0] == e);
        assert(l.update(j, e).drop_first() =~= l.drop_first());
    } else {
        assert(l.update(j, e)[0] == l[0]);
        if l[0].0@ != k2 {
            assert(l.update(j, e).drop_first() =~= l.drop_first().update(j - 1, e));
            lemma_lookup_update(l.drop_first(), j - 1, e, k2);
        }
    }
}

/// Lookups of the other keys are unchanged by appending an entry for `k`.
proof fn lemma_lookup_push(l: Seq<(Vec<u8>, LogPtr)>, e: (Vec<u8>, LogPtr), k2: Seq<u8>)
    ensures
        k2 != e.0@ ==> bin_lookup(l.push(e), k2) == bin_lookup(l, k2),
        bin_lookup(l, e.0@) is None ==> bin_lookup(l.push(e), e.0@) == Some(e.1),
    decreases l.len(),
{
    if l.len() > 0 {
        assert(l.push(e)[0] == l[0]);
        assert(l.push(e).drop_first() =~= l.drop_first().push(e));
        lemma_lookup_push(l.drop_first(), e, k2);
        lemma_lookup_push(l.drop_first(), e, e.0@);
    } else {
        assert(l.push(e)[0] == e);
        assert(l.push(e).drop_first() =~= Seq::<(Vec<u8>, LogPtr)>::empty());
        assert(bin_lookup(Seq::<(Vec<u8>, LogPtr)>::empty(), k2) is None);
        assert(bin_lookup(l, k2) is None);
    }
}

/// The place of key `k` in a bin's index.
pub open spec fn key_index(l: Seq<(Vec<u8>, LogPtr)>, k: Seq<u8>) -> Option<int>
    decreases l.len(),
{
    if l.len() == 0 {
        None
    } else if l[0].0@ == k {
        Some(0)
    } else {
        match key_index(l.drop_first(), k) {
            Some(j) => Some(j + 1),
            None => None,
        }
    }
}

/// A bin's index with key `e.0` pointed at `e.1`: in its place if it has
/// one, else added at the end.
pub open spec fn index_put(l: Seq<(Vec<u8>, LogPtr)>, e: (Vec<u8>, LogPtr)) -> Seq<
    (Vec<u8>, LogPtr),
> {
    match key_index(l, e.0@) {
        Some(j) => l.update(j, e),
        None => l.push(e),
    }
}

/// Where `key_index` finds a key, and that it is found nowhere else before.
proof fn lemma_key_index(l: Seq<(Vec<u8>, LogPtr)>, k: Seq<u8>)
    ensures
        key_index(l, k) matches Some(j) ==> 0 <= j < l.len() && l[j].0@ == k && forall|i: int|
            0 <= i < j ==> (#[trigger] l[i]).0@ != k,
        key_index(l, k) is None ==> forall|i: int| 0 <= i < l.len() ==> (#[trigger] l[i]).0@ != k,
    decreases l.len(),
{
    if l.len() > 0 {
        lemma_key_index(l.drop_first(), k);
        assert forall|i: int| 0 < i < l.len() implies l[i] == #[trigger] l.drop_first()[i - 1] by {}
        if l[0].0@ != k {
            if key_index(l.drop_first(), k) is None {
                assert forall|i: int| 0 <= i < l.len() implies (#[trigger] l[i]).0@ != k by {
                    if i > 0 {
                        assert(l[i] == l.drop_first()[i - 1]);
                    }
                }
            } else {
                let j = key_index(l.drop_first(), k)->0;
                assert forall|i: int| 0 <= i < j + 1 implies (#[trigger] l[i]).0@ != k by {
                    if i > 0 {
                        assert(l[i] == l.drop_first()[i - 1]);
                    }
                }
            }
        }
    }
}

/// The first place a key stands is its `key_index`.
proof fn lemma_key_index_found(l: Seq<(Vec<u8>, LogPtr)>, k: Seq<u8>, j: int)
    requires
        0 <= j < l.len(),
        l[j].0@ == k,
        forall|i: int| 0 <= i < j ==> (#[trigger] l[i]).0@ != k,
    ensures
        key_index(l, k) == Some(j),
{
    lemma_key_index(l, k);
    match key_index(l, k) {
        Some(j2) => {
            if j2 < j {
                assert(l[j2].0@ != k);
            } else if j < j2 {
                assert(l[j].0@ != k);
            }
        },
        None => {
            assert(l[j].0@ != k);
        },
    }
}

/// Pointing a key at a record makes a bin's index give that pointer back
/// for it, and leaves every other key's pointer as it was.
pub proof fn law_index_get_after_put(l: Seq<(Vec<u8>, LogPtr)>, e: (Vec<u8>, LogPtr), other: Seq<u8>)
    ensures
        bin_lookup(index_put(l, e), e.0@) == Some(e.1),
        other != e.0@ ==> bin_lookup(index_put(l, e), other) == bin_lookup(l, other),
{
    lemma_key_index(l, e.0@);
    match key_index(l, e.0@) {
        Some(j) => {
            lemma_lookup_found(l.update(j, e), e.0@, j);
            if other != e.0@ {
                lemma_lookup_update(l, j, e, other);
            }
        },
        None => {
            lemma_lookup_absent(l, e.0@);
            lemma_lookup_push(l, e, other);
            lemma_lookup_push(l, e, e.0@);
        },
    }
}

/// The keys a bin's index holds.
pub open spec fn bin_keys(l: Seq<(Vec<u8>, LogPtr)>) -> Set<Seq<u8>> {
    Set::new(|k: Seq<u8>| bin_lookup(l, k) is Some)
}

/// An index without repeated keys holds as many keys as it has entries.
proof fn lemma_bin_keys_len(l: Seq<(Vec<u8>, LogPtr)>)
    requires
        keys_distinct(l),
    ensures
        bin_keys(l).finite(),
        bin_keys(l).len() == l.len(),
    decreases l.len(),
{
    if l.len() == 0 {
        assert(bin_keys(l) =~= Set::<Seq<u8>>::empty());
    } else {
        let rest = l.drop_first();
        assert(keys_distinct(rest)) by {
            assert forall|i: int, j: int| 0 <= i < j < rest.len() implies (#[trigger] rest[i]).0@
                != (#[trigger] rest[j]).0@ by {
                assert(rest[i] == l[i + 1] && rest[j] == l[j + 1]);
            }
        }
        lemma_bin_keys_len(rest);
        assert forall|i: int| 0 <= i < rest.len() implies (#[trigger] rest[i]).0@ != l[0].0@ by {
            assert(rest[i] == l[i + 1]);
        }
        lemma_lookup_absent(rest, l[0].0@);
        assert(bin_keys(l) =~= bin_keys(rest).insert(l[0].0@));
    }
}

/// The index of the log: for each bin, each key with the pointer of its
/// latest record.
pub struct LogBins {
    pub bins: Vec<Option<Vec<(Vec<u8>, LogPtr)>>>,
}

/// The error text for a bin number beyond the largest.
pub open spec fn bin_error_text() -> Seq<char> {
    "bin cannot exceed 127"@
}

impl LogBins {
    /// There is one slot per bin number below the largest, and no bin holds
    /// a key twice.
    pub open spec fn wf(&self) -> bool {
        &&& self.bins@.len() == MAX_BIN
        &&& forall|b: int|
            0 <= b < MAX_BIN ==> (#[trigger] self.bins@[b] matches Some(l) ==> keys_distinct(l@))
    }

    /// The pointer the index holds for `k` in `bin`.
    pub open spec fn lookup(&self, bin: int, k: Seq<u8>) -> Option<LogPtr> {
        match self.bins@[bin] {
            Some(l) => bin_lookup(l@, k),
            None => None,
        }
    }

    /// The entries of `bin`'s index.
    pub open spec fn entries(&self, bin: int) -> Seq<(Vec<u8>, LogPtr)> {
        match self.bins@[bin] {
            Some(l) => l@,
            None => Seq::empty(),
        }
    }

    /// The keys `bin` holds.
    pub open spec fn keys(&self, bin: int) -> Set<Seq<u8>> {
        bin_keys(self.entries(bin))
    }

    /// The number of keys in `bin`.
    pub open spec fn size(&self, bin: int) -> nat {
        match self.bins@[bin] {
            Some(l) => l@.len(),
            None => 0,
        }
    }

    /// An index with every bin empty.
    pub fn new() -> (r: Self)
        ensures
            r.wf(),
            forall|b: int| 0 <= b < MAX_BIN ==> (#[trigger] r.bins@[b]) is None,
    {
        let mut bins: Vec<Option<Vec<(Vec<u8>, LogPtr)>>> = Vec::new();
        let mut i: usize = 0;
        while i < MAX_BIN
            invariant
                i <= MAX_BIN,
                bins@.len() == i,
                forall|b: int| 0 <= b < i ==> (#[trigger] bins@[b]) is None,
            decreases MAX_BIN - i,
        {
            bins.push(None);
            i = i + 1;
        }
        LogBins { bins }
    }

    /// The number of keys in `bin`.
    pub fn count(&self, bin: usize) -> (r: usize)
        requires
            self.wf(),
            bin < MAX_BIN,
        ensures
            r == self.size(bin as int),
            r == self.keys(bin as int).len(),
    {
        proof {
            lemma_bin_keys_len(self.entries(bin as int));
        }
        match &self.bins[bin] {
            Some(l) => l.len(),
            None => 0,
        }
    }

    /// Points `key` in `bin` at `ptr`, replacing its pointer if it has one.
    /// A bin number beyond the largest is an error.
    pub fn put(&mut self, bin: usize, key: Vec<u8>, ptr: LogPtr) -> (r: Result<(), Error>)
        requires
            old(self).wf(),
            bin != MAX_BIN,
        ensures
            final(self).wf(),
            bin > MAX_BIN ==> (r matches Err(Error::InternalError(m)) && m@ == bin_error_text())
                && *final(self) == *old(self),
            bin < MAX_BIN ==> r is Ok,
            bin < MAX_BIN ==> final(self).bins@[bin as int] is Some && final(self).entries(
                bin as int,
            ) == index_put(old(self).entries(bin as int), (key, ptr)),
            bin < MAX_BIN ==> final(self).lookup(bin as int, key@) == Some(ptr),
            bin < MAX_BIN ==> forall|k: Seq<u8>|
                k != key@ ==> #[trigger] final(self).lookup(bin as int, k) == old(self).lookup(
                    bin as int,
                    k,
                ),
            bin < MAX_BIN ==> final(self).size(bin as int) == old(self).size(bin as int) + if old(
                self,
            ).lookup(bin as int, key@) is Some {
                0int
            } else {
                1int
            },
            bin < MAX_BIN ==> forall|b: int|
                0 <= b < MAX_BIN && b != bin ==> #[trigger] final(self).bins@[b] == old(
                    self,
                ).bins@[b],
    {
        if bin > MAX_BIN {
            return Err(Error::InternalError(String::from_str("bin cannot exceed 127")));
        }
        let mut slot: Option<Vec<(Vec<u8>, LogPtr)>> = None;
        self.bins.set_and_swap(bin, &mut slot);
        let mut list = match slot {
            Some(l) => l,
            None => Vec::new(),
        };
        let ghost l0 = list@;
        assert(keys_distinct(l0)) by {
            assert(old(self).bins@[bin as int] matches Some(l) ==> keys_distinct(l@));
        }
        assert forall|k: Seq<u8>| #[trigger] old(self).lookup(bin as int, k) == bin_lookup(l0, k) by {
            if old(self).bins@[bin as int] is None {
                assert(bin_lookup(l0, k) is None);
            }
        }
        let mut j: usize = 0;
        let mut found = false;
        while j < list.len() && !found
            invariant
                list@ == l0,
                j <= l0.len(),
                forall|t: int| 0 <= t < j ==> (#[trigger] l0[t]).0@ != key@,
                found ==> j < l0.len() && l0[j as int].0@ == key@,
            decreases l0.len() - j + if found {
                0int
            } else {
                1int
            },
        {
            if bytes_eq(list[j].0.as_slice(), key.as_slice()) {
                found = true;
            } else {
                j = j + 1;
            }
        }
        let ghost kv = key@;
        let ghost e = (key, ptr);
        if found {
            proof {
                lemma_key_index_found(l0, kv, j as int);
                lemma_lookup_found(l0, kv, j as int);
                assert forall|k: Seq<u8>| k != kv implies bin_lookup(l0.update(j as int, e), k)
                    == bin_lookup(l0, k) by {
                    lemma_lookup_update(l0, j as int, e, k);
                }
                lemma_lookup_found(l0.update(j as int, e), kv, j as int);
            }
            list.set(j, (key, ptr));
        } else {
            proof {
                lemma_key_index(l0, kv);
                if key_index(l0, kv) is Some {
                    let jj = key_index(l0, kv)->0;
                    assert(l0[jj].0@ != kv);
                }
                lemma_lookup_absent(l0, kv);
                assert forall|k: Seq<u8>| k != kv implies bin_lookup(l0.push(e), k) == bin_lookup(
                    l0,
                    k,
                ) by {
                    lemma_lookup_push(l0, e, k);
                }
                lemma_lookup_push(l0, e, kv);
            }
            list.push((key, ptr));
        }
        assert(keys_distinct(list@)) by {
            assert forall|a: int, b: int| 0 <= a < b < list@.len() implies (#[trigger] list@[a]).0@
                != (#[trigger] list@[b]).0@ by {
                if found {
                    if a == j {
                        assert(l0[b].0@ != kv || b == j);
                    }
                } else {
                    if b == l0.len() {
                        assert(l0[a].0@ != kv);
                    }
                }
            }
        }
        let ghost mid = self.bins@;
        let ghost newl = list@;
        self.bins.set(bin, Some(list));
        proof {
            assert(self.bins@[bin as int] matches Some(l) && l@ == newl);
            assert(self.lookup(bin as int, kv) == bin_lookup(newl, kv));
            assert forall|k: Seq<u8>| k != kv implies #[trigger] self.lookup(bin as int, k) == old(
                self,
            ).lookup(bin as int, k) by {
                assert(self.lookup(bin as int, k) == bin_lookup(newl, k));
            }
            assert forall|b: int| 0 <= b < MAX_BIN && b != bin implies #[trigger] self.bins@[b]
                == old(self).bins@[b] by {
                assert(mid[b] == old(self).bins@[b]);
            }
        }
        Ok(())
    }

    /// The pointer the index holds for `key` in `bin`. A bin number beyond
    /// the largest is an error.
    pub fn get(&self, bin: usize, key: &[u8]) -> (r: Result<Option<LogPtr>, Error>)
        requires
            self.wf(),
            bin != MAX_BIN,
            bin < MAX_BIN ==> self.bins@[bin as int] is Some,
        ensures
            bin > MAX_BIN ==> (r matches Err(Error::InternalError(m)) && m@ == bin_error_text()),
            bin < MAX_BIN ==> r == Ok::<Option<LogPtr>, Error>(self.lookup(bin as int, key@)),
    {
        if bin > MAX_BIN {
            return Err(Error::InternalError(String::from_str("bin cannot exceed 127")));
        }
        let list = match &self.bins[bin] {
            Some(l) => l,
            None => {
                return Ok(None);
            },
        };
        assert(self.lookup(bin as int, key@) == bin_lookup(list@, key@));
        let mut j: usize = 0;
        while j < list.len()
            invariant
                j <= list@.len(),
                bin < MAX_BIN,
                self.lookup(bin as int, key@) == bin_lookup(list@, key@),
                forall|t: int| 0 <= t < j ==> (#[trigger] list@[t]).0@ != key@,
            decreases list.len() - j,
        {
            if bytes_eq(list[j].0.as_slice(), key) {
                proof {
                    lemma_lookup_found(list@, key@, j as int);
                }
                return Ok(Some(list[j].1));
            }
            j = j + 1;
        }
        proof {
            lemma_lookup_absent(list@, key@);
        }
        Ok(None)
    }
}

/// The writing end of the log: the offset the next record goes to.
pub struct LogWriter {
    pub pos: u64,
}

impl LogWriter {
    /// A writer at the end of a log `end` bytes long.
    pub fn new(end: u64) -> (w: Self)
        ensures
            w.pos == end,
    {
        LogWriter { pos: end }
    }

    /// Appends `record` through `write`, which writes the bytes it is given
    /// at the end of the log and says how many it wrote. The record's pointer
    /// is where it starts and how much was written.
    pub fn append<F: FnOnce(Vec<u8>) -> Result<usize, Error>>(&mut self, record: LogRecord, write: F) -> (r:
        Result<LogPtr, Error>)
        requires
            forall|b: Vec<u8>| write.requires((b,)),
            forall|b: Vec<u8>, n: usize| write.ensures((b,), Ok::<usize, Error>(n)) ==> n <= b@.len(),
            old(self).pos + record_bytes(record.bin, record.key@, record.val@).len() <= u64::MAX,
        ensures
            r is Err ==> final(self).pos == old(self).pos,
            r matches Ok(p) ==> p.pos == old(self).pos,
            r matches Ok(p) ==> final(self).pos == old(self).pos + p.len,
            r matches Ok(p) ==> exists|b: Vec<u8>, n: usize|
                b@ == record_bytes(record.bin, record.key@, record.val@) && n == p.len
                    && #[trigger] write.ensures((b,), Ok::<usize, Error>(n)),
            r matches Err(e) ==> exists|b: Vec<u8>|
                b@ == record_bytes(record.bin, record.key@, record.val@)
                    && #[trigger] write.ensures((b,), Err::<usize, Error>(e)),
    {
        let pos = self.pos;
        let buf = record.encode();
        let ghost sent = buf;
        let n = match write(buf) {
            Ok(n) => n,
            Err(e) => {
                assert(write.ensures((sent,), Err::<usize, Error>(e)));
                return Err(e);
            },
        };
        assert(n <= sent@.len());
        assert(write.ensures((sent,), Ok::<usize, Error>(n)));
        self.pos = self.pos + n as u64;
        let p = LogPtr { pos, len: n as u64 };
        assert(p.len as usize == n);
        assert(sent@ == record_bytes(record.bin, record.key@, record.val@));
        Ok(p)
    }
}

/// The values of the records of `bin` from offset `pos` on, in log order,
/// as a walk over the log reads them: `None` where the walk runs out of
/// bytes reading a prefix or one of those values. The walk skips the other
/// bins' records without reading them.
pub open spec fn scan_spec(log: Seq<u8>, pos: int, bin: int) -> Option<Seq<Seq<u8>>>
    decreases log.len() - pos,
{
    if pos < 0 || pos >= log.len() {
        Some(Seq::empty())
    } else if pos + 4 > log.len() {
        None
    } else {
        let b = log.subrange(pos, log.len() as int);
        let k = prefix_key_len(b);
        let v = prefix_val_len(b);
        let next = pos + 4 + k + v;
        let rest = if next >= log.len() {
            Some(Seq::empty())
        } else {
            scan_spec(log, next, bin)
        };
        if b[0] as int != bin {
            rest
        } else if next > log.len() {
            None
        } else {
            match rest {
                Some(r) => Some(seq![log.subrange(pos + 4 + k, next)] + r),
                None => None,
            }
        }
    }
}

/// The error text of a read that runs out of bytes.
pub open spec fn short_read_text() -> Seq<char> {
    "failed to fill whole buffer"@
}

fn short_read() -> (e: Error)
    ensures
        e matches Error::IoError(m) && m@ == short_read_text(),
{
    Error::IoError(String::from_str("failed to fill whole buffer"))
}

/// The values of `bin`'s records in the log `log`, in log order (see
/// `scan_spec`); the records start after the head.
pub fn scan_log(log: &[u8], bin: usize) -> (r: Result<Vec<Vec<u8>>, Error>)
    ensures
        match scan_spec(log@, SIZE_OF_HEAD as int, bin as int) {
            Some(vals) => r matches Ok(v) && v@.len() == vals.len() && forall|i: int|
                0 <= i < vals.len() ==> (#[trigger] v@[i])@ == vals[i],
            None => r matches Err(e) && e matches Error::IoError(m) && m@ == short_read_text(),
        },
{
    let mut values: Vec<Vec<u8>> = Vec::new();
    let mut pos: usize = SIZE_OF_HEAD;
    let end = log.len();
    let ghost start = SIZE_OF_HEAD as int;
    proof {
        if end <= SIZE_OF_HEAD {
            assert(values@.map_values(|x: Vec<u8>| x@) =~= Seq::<Seq<u8>>::empty());
        } else {
            assert(values@.map_values(|x: Vec<u8>| x@) + scan_spec(log@, start, bin as int)->0
                =~= scan_spec(log@, start, bin as int)->0) by {
                assert(values@.map_values(|x: Vec<u8>| x@) =~= Seq::<Seq<u8>>::empty());
            }
        }
    }
    while pos < end
        invariant
            end == log@.len(),
            start == SIZE_OF_HEAD as int,
            scan_spec(log@, start, bin as int) == match scan_spec(log@, pos as int, bin as int) {
                Some(rest) => Some(values@.map_values(|x: Vec<u8>| x@) + rest),
                None => None::<Seq<Seq<u8>>>,
            },
        decreases end - pos,
    {
        if end - pos < 4 {
            assert(scan_spec(log@, pos as int, bin as int) is None);
            assert(scan_spec(log@, start, bin as int) is None);
            assert(start == SIZE_OF_HEAD as int);
            return Err(short_read());
        }
        let ghost b = log@.subrange(pos as int, end as int);
        let this_bin = log[pos] as usize;
        let k = log[pos + 1] as usize;
        let v = (log[pos + 2] as usize) * 256 + (log[pos + 3] as usize);
        assert(b[0] == log@[pos as int] && b[1] == log@[pos + 1] && b[2] == log@[pos + 2] && b[3]
            == log@[pos + 3]);
        let len = 4 + k + v;
        let ghost vals_before = values@.map_values(|x: Vec<u8>| x@);
        if end - pos < len {
            if this_bin == bin {
                assert(scan_spec(log@, pos as int, bin as int) is None);
                return Err(short_read());
            }
            pos = end;
        } else {
            if this_bin == bin {
                let val = bytes_between(log, pos + 4 + k, pos + len);
                let ghost before = values@;
                values.push(val);
                proof {
                    let rest = if pos + len >= end {
                        Some(Seq::<Seq<u8>>::empty())
                    } else {
                        scan_spec(log@, (pos + len) as int, bin as int)
                    };
                    assert(values@.map_values(|x: Vec<u8>| x@) =~= before.map_values(
                        |x: Vec<u8>| x@,
                    ).push(val@));
                    if rest is Some {
                        assert(values@.map_values(|x: Vec<u8>| x@) + rest->0 =~= before.map_values(
                            |x: Vec<u8>| x@,
                        ) + (seq![val@] + rest->0));
                    }
                }
            }
            pos = pos + len;
        }
    }
    proof {
        assert(scan_spec(log@, pos as int, bin as int) == Some(Seq::<Seq<u8>>::empty()));
        assert(values@.map_values(|x: Vec<u8>| x@) + Seq::<Seq<u8>>::empty() =~= values@.map_values(
            |x: Vec<u8>| x@,
        ));
    }
    Ok(values)
}

/// How a restore walking the records from `pos` stops early: `Some(true)`
/// when it runs out of bytes reading a prefix or a key, `Some(false)` at a
/// record whose bin is beyond the largest, `None` when it reads them all.
pub open spec fn restore_error(log: Seq<u8>, pos: int) -> Option<bool>
    decreases log.len() - pos,
{
    if pos < 0 || pos >= log.len() {
        None
    } else if pos + 4 > log.len() {
        Some(true)
    } else {
        let b = log.subrange(pos, log.len() as int);
        let k = prefix_key_len(b);
        let next = pos + 4 + k + prefix_val_len(b);
        if pos + 4 + k > log.len() {
            Some(true)
        } else if b[0] > MAX_BIN {
            Some(false)
        } else if next >= log.len() {
            None
        } else {
            restore_error(log, next)
        }
    }
}

/// Whether a restore walking the records from `pos` meets one of bin 127
/// (which has no slot in the index) before it stops.
pub open spec fn meets_last_bin(log: Seq<u8>, pos: int) -> bool
    decreases log.len() - pos,
{
    if pos < 0 || pos >= log.len() || pos + 4 > log.len() {
        false
    } else {
        let b = log.subrange(pos, log.len() as int);
        let k = prefix_key_len(b);
        let next = pos + 4 + k + prefix_val_len(b);
        if pos + 4 + k > log.len() {
            false
        } else if b[0] == MAX_BIN {
            true
        } else if b[0] > MAX_BIN || next >= log.len() {
            false
        } else {
            meets_last_bin(log, next)
        }
    }
}

/// The pointer a restore walking the records from `pos` leaves for key `k`
/// of bin `bin`: that of the last record of them with that bin and key.
pub open spec fn restored_ptr(log: Seq<u8>, pos: int, bin: int, k: Seq<u8>) -> Option<LogPtr>
    decreases log.len() - pos,
{
    if pos < 0 || pos >= log.len() || pos + 4 > log.len() {
        None
    } else {
        let b = log.subrange(pos, log.len() as int);
        let kl = prefix_key_len(b);
        let len = 4 + kl + prefix_val_len(b);
        let next = pos + len;
        let rest = if next >= log.len() {
            None
        } else {
            restored_ptr(log, next, bin, k)
        };
        if rest is Some {
            rest
        } else if b[0] as int == bin && log.subrange(pos + 4, pos + 4 + kl) == k {
            Some(LogPtr { pos: pos as u64, len: len as u64 })
        } else {
            None
        }
    }
}

/// `p` where there is one, else `q`.
pub open spec fn overlay(p: Option<LogPtr>, q: Option<LogPtr>) -> Option<LogPtr> {
    if p is Some {
        p
    } else {
        q
    }
}

/// Rebuilds the index from the log's bytes `log`: every record after the
/// head points its bin's key at itself, later records over earlier ones.
/// Running out of bytes reading a prefix or a key, or a record with a bin
/// beyond the largest, is an error.
pub fn restore_index(log: &[u8], bins: &mut LogBins) -> (r: Result<(), Error>)
    requires
        old(bins).wf(),
        !meets_last_bin(log@, SIZE_OF_HEAD as int),
    ensures
        final(bins).wf(),
        match restore_error(log@, SIZE_OF_HEAD as int) {
            None => r is Ok && forall|b: int, k: Seq<u8>|
                0 <= b < MAX_BIN ==> #[trigger] final(bins).lookup(b, k) == overlay(
                    restored_ptr(log@, SIZE_OF_HEAD as int, b, k),
                    old(bins).lookup(b, k),
                ),
            Some(true) => r matches Err(e) && e matches Error::IoError(m) && m@ == short_read_text(),
            Some(false) => r matches Err(e) && e matches Error::InternalError(m) && m@
                == bin_error_text(),
        },
{
    let mut pos: usize = SIZE_OF_HEAD;
    let end = log.len();
    let ghost start = SIZE_OF_HEAD as int;
    let ghost first = *bins;
    while pos < end
        invariant
            end == log@.len(),
            start == SIZE_OF_HEAD as int,
            bins.wf(),
            restore_error(log@, start) == restore_error(log@, pos as int),
            !meets_last_bin(log@, pos as int),
            forall|b: int, k: Seq<u8>|
                0 <= b < MAX_BIN ==> overlay(restored_ptr(log@, start, b, k), first.lookup(b, k))
                    == overlay(restored_ptr(log@, pos as int, b, k), #[trigger] bins.lookup(b, k)),
        decreases end - pos,
    {
        if end - pos < 4 {
            return Err(short_read());
        }
        let ghost bs = log@.subrange(pos as int, end as int);
        let this_bin = log[pos] as usize;
        let k = log[pos + 1] as usize;
        let v = (log[pos + 2] as usize) * 256 + (log[pos + 3] as usize);
        assert(bs[0] == log@[pos as int] && bs[1] == log@[pos + 1] && bs[2] == log@[pos + 2]
            && bs[3] == log@[pos + 3]);
        if end - pos - 4 < k {
            return Err(short_read());
        }
        let key = bytes_between(log, pos + 4, pos + 4 + k);
        let len = 4 + k + v;
        let ptr = LogPtr { pos: pos as u64, len: len as u64 };
        let ghost before = *bins;
        let ghost kv = key@;
        let r = bins.put(this_bin, key, ptr);
        if r.is_err() {
            return r;
        }
        proof {
            assert forall|b: int, kk: Seq<u8>| 0 <= b < MAX_BIN implies overlay(
                restored_ptr(log@, start, b, kk),
                first.lookup(b, kk),
            ) == overlay(
                if pos + len >= end {
                    None
                } else {
                    restored_ptr(log@, (pos + len) as int, b, kk)
                },
                #[trigger] bins.lookup(b, kk),
            ) by {
                assert(overlay(restored_ptr(log@, start, b, kk), first.lookup(b, kk)) == overlay(
                    restored_ptr(log@, pos as int, b, kk),
                    before.lookup(b, kk),
                ));
                if b == this_bin && kk == kv {
                    assert(bins.lookup(b, kk) == Some(ptr));
                } else if b == this_bin {
                    assert(bins.lookup(b, kk) == before.lookup(b, kk));
                } else {
                    assert(bins.bins@[b] == before.bins@[b]);
                }
            }
        }
        if end - pos <= len {
            pos = end;
        } else {
            pos = pos + len;
        }
    }
    Ok(())
}

/// The head of a new log: the magic bytes, the version, eight zero bytes.
pub open spec fn head_bytes() -> Seq<u8> {
    seq![0x4d, 0x4f, 0x4e, 0x41, 1, 0, 0, 0, 0, 0, 0, 0, 0]
}

/// A record appended at the end of a log is found again whole: the pointer
/// `put` records for it covers exactly its bytes, and decoding them, as
/// `get` does, gives back its key and value (and its bin, less the two bits
/// the flag byte drops).
pub proof fn law_cask_get_returns_put(log: Seq<u8>, bin: u8, key: Seq<u8>, val: Seq<u8>)
    requires
        key.len() <= MAX_KEY_SIZE,
        val.len() <= MAX_VAL_SIZE,
    ensures
        ({
            let rec = record_bytes(bin, key, val);
            let after = log + rec;
            let start = log.len() as int;
            &&& after.subrange(start, start + rec.len()) == rec
            &&& holds_record(rec)
            &&& decode_spec(rec) == ((bin % 64) as u8, key, val)
        }),
{
    let rec = record_bytes(bin, key, val);
    let start = log.len() as int;
    assert((log + rec).subrange(start, start + rec.len()) =~= rec);
    law_record_roundtrip((bin % 64) as u8, key, val);
    assert(record_bytes((bin % 64) as u8, key, val) =~= rec);
}

/// Whether `b` holds a whole record at its start.
pub fn is_whole_record(b: &[u8]) -> (r: bool)
    ensures
        r == holds_record(b@),
{
    if b.len() < 4 {
        return false;
    }
    let n = b[1] as usize;
    let m = (b[2] as usize) * 256 + (b[3] as usize);
    b.len() - 4 >= n + m
}

/// Whether restoring from the log `log` would meet a record of bin 127,
/// which has no slot in the index.
pub fn log_meets_last_bin(log: &[u8]) -> (r: bool)
    ensures
        r == meets_last_bin(log@, SIZE_OF_HEAD as int),
{
    let mut pos: usize = SIZE_OF_HEAD;
    let end = log.len();
    while pos < end
        invariant
            end == log@.len(),
            meets_last_bin(log@, SIZE_OF_HEAD as int) == meets_last_bin(log@, pos as int),
        decreases end - pos,
    {
        if end - pos < 4 {
            return false;
        }
        let ghost bs = log@.subrange(pos as int, end as int);
        let this_bin = log[pos] as usize;
        let k = log[pos + 1] as usize;
        let v = (log[pos + 2] as usize) * 256 + (log[pos + 3] as usize);
        assert(bs[0] == log@[pos as int] && bs[1] == log@[pos + 1] && bs[2] == log@[pos + 2]
            && bs[3] == log@[pos + 3]);
        if end - pos - 4 < k {
            return false;
        }
        if this_bin == MAX_BIN {
            return true;
        }
        if this_bin > MAX_BIN {
            return false;
        }
        let len = 4 + k + v;
        if end - pos <= len {
            return false;
        }
        pos = pos + len;
    }
    false
}

/// A store: the index of its log and the writing end of the log.
pub struct Cask {
    pub bins: LogBins,
    pub log_w: LogWriter,
}

impl Cask {
    /// The bytes of a new, empty log: its head.
    pub fn new_log() -> (r: Vec<u8>)
        ensures
            r@ == head_bytes(),
    {
        let mut out: Vec<u8> = Vec::new();
        out.push(0x4d);
        out.push(0x4f);
        out.push(0x4e);
        out.push(0x41);
        out.push(VERSION);
        let mut i: usize = 0;
        while i < 8
            invariant
                i <= 8,
                out@.len() == 5 + i,
                out@.take(5) == seq![0x4du8, 0x4fu8, 0x4eu8, 0x41u8, 1u8],
                forall|j: int| 5 <= j < out@.len() ==> out@[j] == 0,
            decreases 8 - i,
        {
            out.push(0);
            i = i + 1;
        }
        assert(out@ =~= head_bytes());
        out
    }

    /// Opens the store whose log holds `log`, rebuilding its index from the
    /// records; new records go after the last byte.
    pub fn open(log: &[u8]) -> (r: Result<Cask, Error>)
        requires
            log@.len() >= SIZE_OF_HEAD,
            log@.subrange(0, 5) == head_bytes().subrange(0, 5),
            !meets_last_bin(log@, SIZE_OF_HEAD as int),
        ensures
            match restore_error(log@, SIZE_OF_HEAD as int) {
                None => r matches Ok(c) && c.bins.wf() && c.log_w.pos == log@.len() && forall|
                    b: int,
                    k: Seq<u8>,
                | 0 <= b < MAX_BIN ==> #[trigger] c.bins.lookup(b, k) == restored_ptr(
                    log@,
                    SIZE_OF_HEAD as int,
                    b,
                    k,
                ) && forall|b: int|
                    0 <= b < MAX_BIN ==> #[trigger] c.bins.keys(b) == Set::new(
                        |k: Seq<u8>| restored_ptr(log@, SIZE_OF_HEAD as int, b, k) is Some,
                    ),
                Some(true) => r matches Err(e) && e matches Error::IoError(m) && m@
                    == short_read_text(),
                Some(false) => r matches Err(e) && e matches Error::InternalError(m) && m@
                    == bin_error_text(),
            },
    {
        let mut bins = LogBins::new();
        let ghost fresh = bins;
        let r = restore_index(log, &mut bins);
        match r {
            Ok(()) => {
                proof {
                    assert forall|b: int, k: Seq<u8>| 0 <= b < MAX_BIN implies #[trigger] bins.lookup(
                        b,
                        k,
                    ) == restored_ptr(log@, SIZE_OF_HEAD as int, b, k) by {
                        assert(fresh.bins@[b] is None);
                    }
                    assert forall|b: int| 0 <= b < MAX_BIN implies #[trigger] bins.keys(b) == Set::new(
                        |k: Seq<u8>| restored_ptr(log@, SIZE_OF_HEAD as int, b, k) is Some,
                    ) by {
                        assert forall|k: Seq<u8>| #[trigger] bins.keys(b).contains(k) == (restored_ptr(
                            log@,
                            SIZE_OF_HEAD as int,
                            b,
                            k,
                        ) is Some) by {
                            assert(bins.lookup(b, k) == restored_ptr(log@, SIZE_OF_HEAD as int, b, k));
                            if bins.bins@[b] is None {
                                assert(bin_lookup(bins.entries(b), k) is None);
                            }
                        }
                        assert(bins.keys(b) =~= Set::new(
                            |k: Seq<u8>| restored_ptr(log@, SIZE_OF_HEAD as int, b, k) is Some,
                        ));
                    }
                }
                Ok(Cask { bins, log_w: LogWriter::new(log.len() as u64) })
            },
            Err(e) => Err(e),
        }
    }

    /// The number of keys in `bin`.
    pub fn count(&self, bin: usize) -> (r: usize)
        requires
            self.bins.wf(),
            bin < MAX_BIN,
        ensures
            r == self.bins.size(bin as int),
            r == self.bins.keys(bin as int).len(),
    {
        self.bins.count(bin)
    }

    /// Stores `val` under `key` in `bin`: appends its record to the log
    /// through `write` (which writes the bytes it is given at the log's end
    /// and says how many it wrote), then points the key at it. A bin, key or
    /// value beyond its limit is an error, and so is a failed write.
    pub fn put<F: FnOnce(Vec<u8>) -> Result<usize, Error>>(
        &mut self,
        bin: usize,
        key: Vec<u8>,
        val: Vec<u8>,
        write: F,
    ) -> (r: Result<(), Error>)
        requires
            old(self).bins.wf(),
            bin != MAX_BIN,
            forall|b: Vec<u8>| write.requires((b,)),
            forall|b: Vec<u8>, n: usize| write.ensures((b,), Ok::<usize, Error>(n)) ==> n <= b@.len(),
            old(self).log_w.pos + 4 + key@.len() + val@.len() <= u64::MAX,
        ensures
            final(self).bins.wf(),
            too_large_text(bin, key@, val@) matches Some(t) ==> (r matches Err(
                Error::InternalError(m),
            ) && m@ == t) && final(self).bins == old(self).bins && final(self).log_w.pos == old(
                self,
            ).log_w.pos,
            r is Ok ==> exists|b: Vec<u8>, n: usize|
                b@ == record_bytes(bin as u8, key@, val@) && #[trigger] write.ensures(
                    (b,),
                    Ok::<usize, Error>(n),
                ) && final(self).log_w.pos == old(self).log_w.pos + n && final(self).bins.lookup(
                    bin as int,
                    key@,
                ) == Some(LogPtr { pos: old(self).log_w.pos, len: n as u64 }),
            r is Ok ==> forall|b: int, k: Seq<u8>|
                0 <= b < MAX_BIN && (b != bin || k != key@) ==> #[trigger] final(self).bins.lookup(
                    b,
                    k,
                ) == old(self).bins.lookup(b, k),
            r is Err && too_large_text(bin, key@, val@) is None ==> final(self).bins == old(
                self,
            ).bins,
            too_large_text(bin, key@, val@) is None ==> (r matches Err(e) ==> exists|b: Vec<u8>|
                b@ == record_bytes(bin as u8, key@, val@) && #[trigger] write.ensures(
                    (b,),
                    Err::<usize, Error>(e),
                )),
    {
        let ghost kv = key@;
        let k2 = bytes_between(key.as_slice(), 0, key.len());
        assert(key@.subrange(0, key@.len() as int) =~= key@);
        let rec = match LogRecord::new(bin, k2, val) {
            Ok(rec) => rec,
            Err(e) => {
                return Err(e);
            },
        };
        let ghost old_pos = self.log_w.pos;
        let ptr = match self.log_w.append(rec, write) {
            Ok(p) => p,
            Err(e) => {
                return Err(e);
            },
        };
        let ghost before = self.bins;
        let r = self.bins.put(bin, key, ptr);
        proof {
            assert forall|b: int, k: Seq<u8>|
                0 <= b < MAX_BIN && (b != bin || k != kv) implies #[trigger] self.bins.lookup(b, k)
                == before.lookup(b, k) by {
                if b != bin {
                    assert(self.bins.bins@[b] == before.bins@[b]);
                }
            }
        }
        r
    }

    /// The value stored under `key` in `bin`: the index's pointer, followed
    /// through `read` (which reads the bytes the pointer covers) and decoded;
    /// `None` for a key never stored. A bin number beyond the largest is an
    /// error, and so is a failed read.
    pub fn get<F: FnOnce(LogPtr) -> Result<Vec<u8>, Error>>(&self, bin: usize, key: &[u8], read: F) -> (r:
        Result<Option<Vec<u8>>, Error>)
        requires
            self.bins.wf(),
            bin != MAX_BIN,
            bin < MAX_BIN ==> self.bins.bins@[bin as int] is Some,
            forall|p: LogPtr| read.requires((p,)),
            forall|p: LogPtr, b: Vec<u8>| read.ensures((p,), Ok::<Vec<u8>, Error>(b)) ==> holds_record(
                b@,
            ),
        ensures
            bin > MAX_BIN ==> (r matches Err(Error::InternalError(m)) && m@ == bin_error_text()),
            bin < MAX_BIN && self.bins.lookup(bin as int, key@) is None ==> r matches Ok(None),
            bin < MAX_BIN ==> (self.bins.lookup(bin as int, key@) matches Some(p) ==> (r matches Ok(
                Some(v),
            ) ==> exists|b: Vec<u8>|
                #[trigger] read.ensures((p,), Ok::<Vec<u8>, Error>(b)) && v@ == decode_spec(b@).2)),
            bin < MAX_BIN ==> (self.bins.lookup(bin as int, key@) matches Some(p) ==> (r matches Err(
                e,
            ) ==> read.ensures((p,), Err::<Vec<u8>, Error>(e)))),
    {
        let ptr = match self.bins.get(bin, key) {
            Ok(Some(p)) => p,
            Ok(None) => {
                return Ok(None);
            },
            Err(e) => {
                return Err(e);
            },
        };
        let bytes = match read(ptr) {
            Ok(b) => b,
            Err(e) => {
                return Err(e);
            },
        };
        let record = LogRecord::decode(bytes.as_slice());
        Ok(Some(record.val))
    }

    /// Deletes a key: not supported by the log format yet, so it reports
    /// that nothing was deleted.
    pub fn del(&mut self, _key: &[u8]) -> (r: Result<bool, Error>)
        ensures
            r matches Ok(false),
    {
        Ok(false)
    }

    /// The values of `bin`'s records in the log `log`, in log order.
    pub fn scan(&self, log: &[u8], bin: usize) -> (r: Result<Vec<Vec<u8>>, Error>)
        ensures
            match scan_spec(log@, SIZE_OF_HEAD as int, bin as int) {
                Some(vals) => r matches Ok(v) && v@.len() == vals.len() && forall|i: int|
                    0 <= i < vals.len() ==> (#[trigger] v@[i])@ == vals[i],
                None => r matches Err(e) && e matches Error::IoError(m) && m@ == short_read_text(),
            },
    {
        scan_log(log, bin)
    }
}

} // verus!
