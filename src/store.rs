use vstd::prelude::*;

use crate::keys::{bytes_equal, le_u32, push_le_u32, DailyTracingKey, DTK_LEN};

verus! {

/// Days before today that the duplicate check looks back over.
pub const DAYS_WINDOW: u32 = 21;

/// Largest span, in days, that a fetch may reach back. It is the window
/// multiplied by 24, which allows far more than the window itself: kept as
/// it stands until the intended bound is settled.
pub const FETCH_BOUND: u32 = 504;

/// Bytes of one record of a day's file: the key, then its checksum.
pub const RECORD_LEN: usize = 20;

/// The CRC-32 (IEEE) checksum of some bytes.
pub uninterp spec fn crc32_ieee(b: Seq<u8>) -> u32;

/// Relies on crc::crc32::checksum_ieee: the IEEE CRC-32 of the bytes.
#[verifier::external_body]
fn checksum(b: &[u8]) -> (r: u32)
    ensures
        r == crc32_ieee(b@),
{
    crc::crc32::checksum_ieee(b)
}

/// The record that stores a key: its bytes, then their checksum.
pub open spec fn record_of(key: Seq<u8>) -> Seq<u8> {
    key + le_u32(crc32_ieee(key))
}

/// The key bytes of the `k`-th record of `data`.
pub open spec fn frame_key(data: Seq<u8>, k: int) -> Seq<u8> {
    data.subrange(20 * k, 20 * k + 16)
}

/// True when the `k`-th record of `data` carries the checksum of its key.
pub open spec fn frame_ok(data: Seq<u8>, k: int) -> bool {
    data.subrange(20 * k + 16, 20 * k + 20) == le_u32(crc32_ieee(frame_key(data, k)))
}

/// Why a day's file could not be loaded.
#[derive(Debug, PartialEq, Eq)]
pub enum LoadError {
    TruncatedRecord,
    ChecksumMismatch,
}

/// The record to append to a day's file for a key.
pub fn encode_record(key: &DailyTracingKey) -> (r: Vec<u8>)
    ensures
        r@ == record_of(key@),
{
    let b = key.as_bytes();
    let mut out: Vec<u8> = Vec::new();
    let mut i: usize = 0;
    while i < b.len()
        invariant
            i <= b@.len(),
            out@ == b@.take(i as int),
        decreases b@.len() - i,
    {
        out.push(b[i]);
        i = i + 1;
        assert(out@ =~= b@.take(i as int));
    }
    assert(b@.take(b@.len() as int) =~= b@);
    push_le_u32(&mut out, checksum(b));
    out
}

/// Why a fetch was refused.
#[derive(Debug, PartialEq, Eq)]
pub enum FetchError {
    RangeTooFar,
}

/// One daily tracing key held by the store, with the day it was filed under.
#[derive(Debug)]
pub struct StoredKey {
    pub day: u32,
    pub key: DailyTracingKey,
}

/// The in-memory cache of the key store: the keys held under each day,
/// and the days whose file has been read.
#[derive(Debug)]
pub struct DailyTracingKeyStore {
    entries: Vec<StoredKey>,
    loaded: Vec<u32>,
}

/// True when `day` lies in the window of days before `now`, today excluded.
pub open spec fn in_window(day: u32, now: u32) -> bool {
    now - DAYS_WINDOW <= day && day < now
}

/// The keys filed under a day in `lo..=hi`, in the order of `entries`.
pub open spec fn keys_in_range(entries: Seq<(u32, Seq<u8>)>, lo: u32, hi: u32) -> Seq<Seq<u8>>
    decreases entries.len(),
{
    if entries.len() == 0 {
        Seq::empty()
    } else {
        let rest = keys_in_range(entries.drop_last(), lo, hi);
        let e = entries.last();
        if lo <= e.0 && e.0 <= hi {
            rest.push(e.1)
        } else {
            rest
        }
    }
}

/// The bytes of a day's file; a file that does not exist reads as empty.
pub open spec fn file_bytes(data: Option<Vec<u8>>) -> Seq<u8> {
    match data {
        Some(v) => v@,
        None => Seq::empty(),
    }
}

/// True when every whole record of `data` carries the checksum of its key.
pub open spec fn all_frames_ok(data: Seq<u8>) -> bool {
    forall|k: int| 0 <= k < data.len() / 20 ==> #[trigger] frame_ok(data, k)
}

/// What the cache holds after a key is put under a day: the pair is added
/// unless it is there already.
pub open spec fn with_pair(s: Seq<(u32, Seq<u8>)>, day: u32, key: Seq<u8>) -> Seq<(u32, Seq<u8>)> {
    if s.contains((day, key)) {
        s
    } else {
        s.push((day, key))
    }
}

proof fn lemma_push_contains<A>(s: Seq<A>, x: A)
    ensures
        forall|p: A| s.push(x).contains(p) <==> (s.contains(p) || p == x),
{
    assert forall|p: A| s.push(x).contains(p) <==> (s.contains(p) || p == x) by {
        if s.contains(p) {
            let i = choose|i: int| 0 <= i < s.len() && s[i] == p;
            assert(s.push(x)[i] == p);
        }
        if p == x {
            assert(s.push(x)[s.len() as int] == p);
        }
        if s.push(x).contains(p) {
            let i = choose|i: int| 0 <= i < s.len() + 1 && s.push(x)[i] == p;
            if i < s.len() {
                assert(s[i] == p);
            }
        }
    }
}

proof fn lemma_push_no_duplicates<A>(s: Seq<A>, x: A)
    requires
        s.no_duplicates(),
        !s.contains(x),
    ensures
        s.push(x).no_duplicates(),
{
    let t = s.push(x);
    assert forall|i: int, j: int| 0 <= i < t.len() && 0 <= j < t.len() && i != j implies t[i] != t[j] by {
        if i == s.len() {
            assert(t[j] == s[j]);
        } else if j == s.len() {
            assert(t[i] == s[i]);
        } else {
            assert(t[i] == s[i] && t[j] == s[j]);
        }
    }
}

impl StoredKey {
    /// The day and the key bytes.
    pub open spec fn day_key(&self) -> (u32, Seq<u8>) {
        (self.day, self.key@)
    }
}

/// Reads the records of a day's file in order: the keys, each under `day`,
/// or the first fault met, a bad checksum or a file that ends inside a record.
fn parse_records(bytes: &[u8], day: u32) -> (r: Result<Vec<StoredKey>, LoadError>)
    ensures
        r is Ok <==> bytes@.len() % 20 == 0 && all_frames_ok(bytes@),
        r matches Err(LoadError::ChecksumMismatch) <==> !all_frames_ok(bytes@),
        r matches Err(LoadError::TruncatedRecord) <==> bytes@.len() % 20 != 0 && all_frames_ok(bytes@),
        r matches Ok(v) ==> v@.len() == bytes@.len() / 20 && forall|k: int| 0 <= k < v@.len()
            ==> (#[trigger] v@[k]).day_key() == (day, frame_key(bytes@, k)),
{
    let ghost d = bytes@;
    let mut parsed: Vec<StoredKey> = Vec::new();
    let mut pos: usize = 0;
    while pos < bytes.len()
        invariant
            bytes@ == d,
            pos <= d.len(),
            pos % 20 == 0,
            forall|k: int| 0 <= k < pos / 20 ==> #[trigger] frame_ok(d, k),
            parsed@.len() == pos / 20,
            forall|k: int| 0 <= k < pos / 20 ==> (#[trigger] parsed@[k]).day_key() == (day, frame_key(d, k)),
        decreases d.len() - pos,
    {
        if bytes.len() - pos < RECORD_LEN {
            assert(pos / 20 == d.len() / 20);
            assert(d.len() % 20 != 0);
            assert(all_frames_ok(d));
            return Err(LoadError::TruncatedRecord);
        }
        let mut key_bytes: Vec<u8> = Vec::new();
        let mut i: usize = 0;
        while i < DTK_LEN
            invariant
                i <= DTK_LEN,
                pos + 20 <= d.len(),
                d.len() <= usize::MAX,
                bytes@ == d,
                key_bytes@ == d.subrange(pos as int, pos + i),
            decreases DTK_LEN - i,
        {
            key_bytes.push(bytes[pos + i]);
            i = i + 1;
            assert(key_bytes@ =~= d.subrange(pos as int, pos + i));
        }
        let sum = checksum(key_bytes.as_slice());
        let mut stored: Vec<u8> = Vec::new();
        push_le_u32(&mut stored, sum);
        let mut j: usize = 0;
        let mut same = true;
        while j < 4
            invariant
                j <= 4,
                pos + 20 <= d.len(),
                d.len() <= usize::MAX,
                bytes@ == d,
                stored@.len() == 4,
                same == forall|m: int| 0 <= m < j ==> stored@[m] == d[pos as int + 16 + m],
            decreases 4 - j,
        {
            if stored[j] != bytes[pos + 16 + j] {
                same = false;
            }
            j = j + 1;
        }
        let ghost k: int = pos as int / 20;
        assert(20 * k == pos as int);
        assert(k < d.len() / 20);
        assert(frame_key(d, k) == key_bytes@);
        if !same {
            assert(!frame_ok(d, k)) by {
                let m = choose|m: int| 0 <= m < 4 && stored@[m] != d[pos as int + 16 + m];
                assert(d.subrange(20 * k + 16, 20 * k + 20)[m] == d[pos as int + 16 + m]);
            };
            assert(!all_frames_ok(d));
            return Err(LoadError::ChecksumMismatch);
        }
        assert(d.subrange(20 * k + 16, 20 * k + 20) =~= stored@);
        let key = DailyTracingKey::from_bytes(key_bytes.as_slice()).unwrap();
        parsed.push(StoredKey { day, key });
        pos = pos + RECORD_LEN;
    }
    assert(pos as int == d.len());
    assert(all_frames_ok(d));
    Ok(parsed)
}

impl View for DailyTracingKeyStore {
    type V = Seq<(u32, Seq<u8>)>;

    closed spec fn view(&self) -> Seq<(u32, Seq<u8>)> {
        self.entries@.map_values(|e: StoredKey| (e.day, e.key@))
    }
}

impl DailyTracingKeyStore {
    /// The days whose file has been read into the cache.
    pub closed spec fn loaded_days(&self) -> Set<u32> {
        Set::new(|d: u32| self.loaded@.contains(d))
    }

    /// No key is held twice under the same day.
    pub open spec fn wf(&self) -> bool {
        self@.no_duplicates()
    }

    /// True when the store holds `key` under some day of the window before `now`.
    pub open spec fn knows(&self, key: Seq<u8>, now: u32) -> bool {
        exists|i: int| 0 <= i < self@.len() && #[trigger] self@[i].1 == key && in_window(self@[i].0, now)
    }

    /// An empty store, with no day loaded.
    pub fn new() -> (r: DailyTracingKeyStore)
        ensures
            r@ == Seq::<(u32, Seq<u8>)>::empty(),
            r.loaded_days() == Set::<u32>::empty(),
            r.wf(),
    {
        let r = DailyTracingKeyStore { entries: Vec::new(), loaded: Vec::new() };
        assert(r@ =~= Seq::<(u32, Seq<u8>)>::empty());
        assert(r.loaded_days() =~= Set::<u32>::empty());
        r
    }

    /// Number of keys held.
    pub fn len(&self) -> (r: usize)
        ensures
            r == self@.len(),
    {
        self.entries.len()
    }

    /// True when the file of `day` has already been read into the cache.
    pub fn is_loaded(&self, day: u32) -> (r: bool)
        ensures
            r == self.loaded_days().contains(day),
    {
        let mut i: usize = 0;
        while i < self.loaded.len()
            invariant
                i <= self.loaded@.len(),
                forall|j: int| 0 <= j < i ==> self.loaded@[j] != day,
            decreases self.loaded@.len() - i,
        {
            if self.loaded[i] == day {
                assert(self.loaded@[i as int] == day);
                return true;
            }
            i = i + 1;
        }
        false
    }

    /// True when `key` is held under `day`.
    fn holds_key(&self, day: u32, key: &DailyTracingKey) -> (r: bool)
        ensures
            r == self@.contains((day, key@)),
    {
        let mut i: usize = 0;
        while i < self.entries.len()
            invariant
                i <= self@.len(),
                self@.len() == self.entries@.len(),
                forall|j: int| 0 <= j < i ==> self@[j] != (day, key@),
            decreases self.entries@.len() - i,
        {
            let e = &self.entries[i];
            assert(self@[i as int] == (e.day, e.key@));
            if e.day == day && bytes_equal(e.key.as_bytes(), key.as_bytes()) {
                return true;
            }
            i = i + 1;
        }
        false
    }

    /// Puts a key into the bucket of `day`, unless that bucket holds it already.
    pub fn load_key(&mut self, day: u32, key: DailyTracingKey)
        requires
            old(self).wf(),
        ensures
            final(self).wf(),
            final(self).loaded_days() == old(self).loaded_days(),
            final(self)@ == with_pair(old(self)@, day, key@),
    {
        if self.holds_key(day, &key) {
            return;
        }
        let ghost prev = self@;
        let ghost x = (day, key@);
        self.entries.push(StoredKey { day, key });
        assert(self@ =~= prev.push(x));
        proof {
            lemma_push_no_duplicates(prev, x);
        }
    }

    /// Loads the file of `day` into the cache, one record after another,
    /// unless that day is loaded already. `None` stands for a file that
    /// does not exist, read as an empty bucket. Nothing is cached when a
    /// record's checksum does not match its key or when the file ends
    /// inside a record.
    pub fn load_bucket(&mut self, day: u32, data: Option<Vec<u8>>) -> (r: Result<(), LoadError>)
        requires
            old(self).wf(),
        ensures
            final(self).wf(),
            old(self).loaded_days().contains(day) ==> r is Ok && final(self)@ == old(self)@
                && final(self).loaded_days() == old(self).loaded_days(),
            !old(self).loaded_days().contains(day) ==> (r is Ok <==> file_bytes(data).len() % 20 == 0
                && all_frames_ok(file_bytes(data))),
            !old(self).loaded_days().contains(day) ==> (r matches Err(LoadError::ChecksumMismatch)
                <==> !all_frames_ok(file_bytes(data))),
            !old(self).loaded_days().contains(day) ==> (r matches Err(LoadError::TruncatedRecord)
                <==> file_bytes(data).len() % 20 != 0 && all_frames_ok(file_bytes(data))),
            r is Err ==> final(self)@ == old(self)@ && final(self).loaded_days() == old(self).loaded_days(),
            !old(self).loaded_days().contains(day) && r is Ok ==> final(self).loaded_days()
                == old(self).loaded_days().insert(day),
            !old(self).loaded_days().contains(day) && r is Ok ==> forall|p: (u32, Seq<u8>)|
                #[trigger] final(self)@.contains(p) ==> (old(self)@.contains(p) || exists|k: int|
                0 <= k < file_bytes(data).len() / 20 && p == (day, #[trigger] frame_key(file_bytes(data), k))),
            r is Ok ==> forall|p: (u32, Seq<u8>)| #[trigger] old(self)@.contains(p) ==> final(self)@.contains(p),
            !old(self).loaded_days().contains(day) && r is Ok ==> forall|k: int| 0 <= k < file_bytes(data).len() / 20
                ==> final(self)@.contains((day, #[trigger] frame_key(file_bytes(data), k))),
    {
        if self.is_loaded(day) {
            return Ok(());
        }
        let bytes: Vec<u8> = match data {
            Some(v) => v,
            None => Vec::new(),
        };
        let parsed = match parse_records(bytes.as_slice(), day) {
            Ok(p) => p,
            Err(e) => {
                return Err(e);
            },
        };
        let ghost d = bytes@;
        let ghost start_v = self@;
        let ghost start_days = self.loaded_days();
        self.merge_keys(&parsed);
        proof {
            assert forall|k: int| 0 <= k < d.len() / 20 implies self@.contains((day, #[trigger] frame_key(d, k))) by {
                assert(parsed@[k].day_key() == (day, frame_key(d, k)));
            }
            assert forall|p: (u32, Seq<u8>)| #[trigger] self@.contains(p) implies (start_v.contains(p) || exists|k: int|
                0 <= k < d.len() / 20 && p == (day, #[trigger] frame_key(d, k))) by {
                if !start_v.contains(p) {
                    let k = choose|k: int| 0 <= k < parsed@.len() && p == (#[trigger] parsed@[k]).day_key();
                    assert(p == (day, frame_key(d, k)));
                }
            }
        }
        let ghost days_before = self.loaded@;
        self.loaded.push(day);
        proof {
            lemma_push_contains(days_before, day);
            assert(self.loaded_days() =~= start_days.insert(day));
        }
        Ok(())
    }

    /// Puts each of `keys` into the bucket of its day.
    fn merge_keys(&mut self, keys: &Vec<StoredKey>)
        requires
            old(self).wf(),
        ensures
            final(self).wf(),
            final(self).loaded_days() == old(self).loaded_days(),
            forall|p: (u32, Seq<u8>)| #[trigger] final(self)@.contains(p) ==> (old(self)@.contains(p)
                || exists|k: int| 0 <= k < keys@.len() && p == (#[trigger] keys@[k]).day_key()),
            forall|p: (u32, Seq<u8>)| #[trigger] old(self)@.contains(p) ==> final(self)@.contains(p),
            forall|k: int| 0 <= k < keys@.len() ==> final(self)@.contains(#[trigger] keys@[k].day_key()),
    {
        let ghost start_v = self@;
        let mut idx: usize = 0;
        while idx < keys.len()
            invariant
                idx <= keys@.len(),
                self.wf(),
                self.loaded_days() == old(self).loaded_days(),
                start_v == old(self)@,
                forall|p: (u32, Seq<u8>)| #[trigger] self@.contains(p) ==> (start_v.contains(p)
                    || exists|k: int| 0 <= k < idx && p == (#[trigger] keys@[k]).day_key()),
                forall|p: (u32, Seq<u8>)| #[trigger] start_v.contains(p) ==> self@.contains(p),
                forall|k: int| 0 <= k < idx ==> self@.contains(#[trigger] keys@[k].day_key()),
            decreases keys@.len() - idx,
        {
            let e = &keys[idx];
            let ghost prev = self@;
            let ghost x = e.day_key();
            self.load_key(e.day, e.key.duplicate());
            proof {
                lemma_push_contains(prev, x);
                assert(self@.contains(x));
                assert forall|p: (u32, Seq<u8>)| #[trigger] prev.contains(p) implies self@.contains(p) by {
                }
                assert forall|p: (u32, Seq<u8>)| #[trigger] self@.contains(p) implies (start_v.contains(p)
                    || exists|k: int| 0 <= k < idx + 1 && p == (#[trigger] keys@[k]).day_key()) by {
                    if p == x {
                        assert(p == keys@[idx as int].day_key());
                    } else {
                        assert(prev.contains(p));
                    }
                }
            }
            idx = idx + 1;
        }
    }

    /// Checks whether a daily tracing key was filed under one of the days
    /// of the window before `now`.
    pub fn has_daily_tracing_key(&self, key: &DailyTracingKey, now: u32) -> (r: bool)
        ensures
            r == self.knows(key@, now),
    {
        let mut i: usize = 0;
        while i < self.entries.len()
            invariant
                i <= self@.len(),
                self@.len() == self.entries@.len(),
                forall|j: int| 0 <= j < i ==> !(#[trigger] self@[j].1 == key@ && in_window(self@[j].0, now)),
            decreases self.entries@.len() - i,
        {
            let e = &self.entries[i];
            assert(self@[i as int] == (e.day, e.key@));
            let lo: u32 = if now >= DAYS_WINDOW { now - DAYS_WINDOW } else { 0 };
            if lo <= e.day && e.day < now && bytes_equal(e.key.as_bytes(), key.as_bytes()) {
                assert(self@[i as int].1 == key@ && in_window(self@[i as int].0, now));
                return true;
            }
            i = i + 1;
        }
        false
    }

    /// Adds a key under `day` unless it is already known in the window
    /// before `now`. Returns whether it was added.
    pub fn add_daily_tracing_key(&mut self, day: u32, key: DailyTracingKey, now: u32) -> (r: bool)
        requires
            old(self).wf(),
        ensures
            final(self).wf(),
            final(self).loaded_days() == old(self).loaded_days(),
            r == !old(self).knows(key@, now),
            r ==> final(self)@ == with_pair(old(self)@, day, key@),
            !r ==> final(self)@ == old(self)@,
    {
        if self.has_daily_tracing_key(&key, now) {
            return false;
        }
        self.load_key(day, key);
        true
    }

    /// The keys filed under the days from `start_day` to `current_day`.
    /// Empty when `start_day` lies after `current_day`; refused when the span
    /// exceeds the fetch bound.
    pub fn fetch_buckets(&self, start_day: u32, current_day: u32) -> (r: Result<Vec<DailyTracingKey>, FetchError>)
        ensures
            r is Err <==> current_day >= start_day && current_day - start_day > FETCH_BOUND,
            r matches Ok(v) ==> v@.map_values(|k: DailyTracingKey| k@) == keys_in_range(self@, start_day, current_day),
    {
        if current_day >= start_day && current_day - start_day > FETCH_BOUND {
            return Err(FetchError::RangeTooFar);
        }
        let mut out: Vec<DailyTracingKey> = Vec::new();
        let mut i: usize = 0;
        while i < self.entries.len()
            invariant
                i <= self@.len(),
                self@.len() == self.entries@.len(),
                out@.map_values(|k: DailyTracingKey| k@) == keys_in_range(self@.take(i as int), start_day, current_day),
            decreases self.entries@.len() - i,
        {
            let e = &self.entries[i];
            assert(self@[i as int] == (e.day, e.key@));
            assert(self@.take(i + 1).drop_last() =~= self@.take(i as int));
            if start_day <= e.day && e.day <= current_day {
                out.push(e.key.duplicate());
                assert(out@.map_values(|k: DailyTracingKey| k@) =~= keys_in_range(self@.take(i as int), start_day, current_day).push(e.key@));
            }
            i = i + 1;
        }
        assert(self@.take(self@.len() as int) =~= self@);
        Ok(out)
    }
}

/// A key held under a day of the window before `now` is known to the store,
/// so a second insert of it, under whatever day, adds nothing.
pub proof fn lemma_known_key_not_added_again(s: DailyTracingKeyStore, day: u32, key: Seq<u8>, now: u32)
    requires
        s@.contains((day, key)),
        in_window(day, now),
    ensures
        s.knows(key, now),
{
    let i = choose|i: int| 0 <= i < s@.len() && s@[i] == (day, key);
    assert(s@[i].1 == key && in_window(s@[i].0, now));
}

/// The file written by appending the records of `keys`, one after another.
pub open spec fn records_of(keys: Seq<Seq<u8>>) -> Seq<u8>
    decreases keys.len(),
{
    if keys.len() == 0 {
        Seq::empty()
    } else {
        records_of(keys.drop_last()) + record_of(keys.last())
    }
}

/// A file written as the records of some 16-byte keys loads back: every
/// record's checksum is accepted, and the `k`-th record gives the `k`-th key.
pub proof fn lemma_records_round_trip(keys: Seq<Seq<u8>>)
    requires
        forall|i: int| 0 <= i < keys.len() ==> #[trigger] keys[i].len() == 16,
    ensures
        records_of(keys).len() == 20 * keys.len(),
        all_frames_ok(records_of(keys)),
        forall|k: int| 0 <= k < keys.len() ==> #[trigger] frame_key(records_of(keys), k) == keys[k],
    decreases keys.len(),
{
    if keys.len() > 0 {
        let init = keys.drop_last();
        assert forall|i: int| 0 <= i < init.len() implies #[trigger] init[i].len() == 16 by {
            assert(init[i] == keys[i]);
        }
        lemma_records_round_trip(init);
        let a = records_of(init);
        let last = keys.last();
        let b = record_of(last);
        let r = a + b;
        assert(r == records_of(keys));
        assert(last.len() == 16);
        assert(r.len() == 20 * keys.len());
        assert forall|k: int| 0 <= k < keys.len() implies #[trigger] frame_key(r, k) == keys[k] && frame_ok(r, k) by {
            if k < init.len() {
                assert(r.subrange(20 * k, 20 * k + 16) =~= a.subrange(20 * k, 20 * k + 16));
                assert(r.subrange(20 * k + 16, 20 * k + 20) =~= a.subrange(20 * k + 16, 20 * k + 20));
                assert(frame_ok(a, k));
                assert(frame_key(a, k) == init[k]);
            } else {
                assert(r.subrange(20 * k, 20 * k + 16) =~= last);
                assert(r.subrange(20 * k + 16, 20 * k + 20) =~= le_u32(crc32_ieee(last)));
            }
        }
        assert(r.len() / 20 == keys.len());
    }
}

/// Changing any byte of the stored checksum of one whole record, in a file
/// whose records all load, makes that record fail its checksum.
pub proof fn lemma_altered_checksum_refused(data: Seq<u8>, altered: Seq<u8>, j: int, m: int)
    requires
        all_frames_ok(data),
        altered.len() == data.len(),
        0 <= j < data.len() / 20,
        0 <= m < 4,
        forall|i: int| 0 <= i < data.len() && i != 20 * j + 16 + m ==> #[trigger] altered[i] == data[i],
        altered[20 * j + 16 + m] != data[20 * j + 16 + m],
    ensures
        !frame_ok(altered, j),
        !all_frames_ok(altered),
{
    assert(frame_ok(data, j));
    assert(frame_key(altered, j) =~= frame_key(data, j));
    assert(altered.subrange(20 * j + 16, 20 * j + 20)[m] == altered[20 * j + 16 + m]);
    assert(data.subrange(20 * j + 16, 20 * j + 20)[m] == data[20 * j + 16 + m]);
    assert(!frame_ok(altered, j));
    assert(0 <= j < altered.len() / 20);
}

/// A fetch whose start lies after the current day yields no key.
pub proof fn lemma_fetch_after_today_is_empty(entries: Seq<(u32, Seq<u8>)>, lo: u32, hi: u32)
    requires
        hi < lo,
    ensures
        keys_in_range(entries, lo, hi) == Seq::<Seq<u8>>::empty(),
    decreases entries.len(),
{
    if entries.len() > 0 {
        lemma_fetch_after_today_is_empty(entries.drop_last(), lo, hi);
    }
}

} // verus!
