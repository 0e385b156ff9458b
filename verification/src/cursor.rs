//! The cursor file that accompanies a recording.
//!
//! The file is a run of records of [`RECORD_SIZE`] bytes, all little-endian: the time in
//! nanoseconds (8), the position (4 and 4), and the hash of the cursor image (8), zero for none.
use crate::double::{nearest_double, Double};
use crate::text::{decimal, law_digits_stand_for_their_number, lemma_middle, push_decimal};
use crate::utils::{file_stem, names_file, renamed, takes_extension, with_extension};
use std::collections::HashSet;
use vstd::arithmetic::div_mod::lemma_div_denominator;
use vstd::arithmetic::power::{lemma_pow_positive, pow};
use vstd::arithmetic::power2::pow2;
use vstd::prelude::*;

verus! {

/// The least time between two records, in milliseconds.
pub const CURSOR_INTERVAL_MS: u128 = 16;

/// The size of a record in bytes.
pub const RECORD_SIZE: usize = 24;

/// What one record of the file says.
#[derive(Clone, Copy, Debug, PartialEq, Eq, Structural)]
pub struct CursorRecord {
    pub pts: u64,
    pub x: i32,
    pub y: i32,
    pub cursor_type_hash: Option<u64>,
}

/// The `count` little-endian bytes of `n`.
pub open spec fn le_bytes(n: nat, count: nat) -> Seq<u8>
    decreases count,
{
    if count == 0 {
        Seq::empty()
    } else {
        seq![(n % 256) as u8] + le_bytes(n / 256, (count - 1) as nat)
    }
}

/// The number whose little-endian bytes are given.
pub open spec fn le_value(bytes: Seq<u8>) -> nat
    decreases bytes.len(),
{
    if bytes.len() == 0 {
        0
    } else {
        bytes[0] as nat + 256 * le_value(bytes.drop_first())
    }
}

/// The two's complement pattern of `x`.
pub open spec fn unsigned(x: i32) -> nat {
    if x < 0 {
        (x + 0x1_0000_0000) as nat
    } else {
        x as nat
    }
}

/// The number whose two's complement pattern is `n`.
pub open spec fn signed(n: nat) -> int {
    if n >= 0x8000_0000 {
        n - 0x1_0000_0000
    } else {
        n as int
    }
}

impl CursorRecord {
    /// The bytes of this record.
    pub open spec fn encoded(self) -> Seq<u8> {
        let hash: nat = match self.cursor_type_hash {
            Some(hash) => hash as nat,
            None => 0,
        };
        le_bytes(self.pts as nat, 8) + le_bytes(unsigned(self.x), 4) + le_bytes(
            unsigned(self.y),
            4,
        ) + le_bytes(hash, 8)
    }
}

/// The bytes of several records, one after the other.
pub open spec fn encoded_all(records: Seq<CursorRecord>) -> Seq<u8>
    decreases records.len(),
{
    if records.len() == 0 {
        Seq::empty()
    } else {
        encoded_all(records.drop_last()) + records.last().encoded()
    }
}

/// The number of whole records in `data`.
pub open spec fn record_count(data: Seq<u8>) -> nat {
    data.len() / (RECORD_SIZE as nat)
}

/// The record number `i` of `data`.
pub open spec fn record_at(data: Seq<u8>, i: int) -> CursorRecord {
    let at = i * RECORD_SIZE;
    let hash = le_value(data.subrange(at + 16, at + 24));
    CursorRecord {
        pts: le_value(data.subrange(at, at + 8)) as u64,
        x: signed(le_value(data.subrange(at + 8, at + 12))) as i32,
        y: signed(le_value(data.subrange(at + 12, at + 16))) as i32,
        cursor_type_hash: if hash == 0 {
            None
        } else {
            Some(hash as u64)
        },
    }
}

/// Whether `bytes` are one record that says this. A hash of zero is not told from none.
pub open spec fn says(
    bytes: Seq<u8>,
    pts: u64,
    x: i32,
    y: i32,
    cursor_type_hash: Option<u64>,
) -> bool {
    &&& bytes.len() == RECORD_SIZE
    &&& record_at(bytes, 0).pts == pts
    &&& record_at(bytes, 0).x == x
    &&& record_at(bytes, 0).y == y
    &&& cursor_type_hash != Some(0u64) ==> record_at(bytes, 0).cursor_type_hash == cursor_type_hash
    &&& cursor_type_hash == Some(0u64) ==> record_at(bytes, 0).cursor_type_hash is None
}

/// Whether record `i` is the first one in `data` that shows its cursor image.
pub open spec fn shows_new_image(data: Seq<u8>, i: int) -> bool {
    &&& 0 <= i < record_count(data)
    &&& record_at(data, i).cursor_type_hash is Some
    &&& forall|j: int|
        0 <= j < i ==> (#[trigger] record_at(data, j)).cursor_type_hash != record_at(
            data,
            i,
        ).cursor_type_hash
}

/// A sample of the cursor's path.
#[derive(Clone, Copy, Debug)]
pub struct CursorEntry {
    pub pts: Double,
    pub x: Double,
    pub y: Double,
    pub cursor_type_hash: Option<u64>,
}

impl CursorEntry {
    /// Whether this sample is what `record` says, with each number converted to the nearest
    /// double.
    pub open spec fn samples(self, record: CursorRecord) -> bool {
        &&& self.pts.is_integer(nearest_double(record.pts as nat) as int)
        &&& !self.pts.is_negative()
        &&& self.x.is_integer(record.x as int)
        &&& self.x.is_negative() <==> record.x < 0
        &&& self.y.is_integer(record.y as int)
        &&& self.y.is_negative() <==> record.y < 0
        &&& self.cursor_type_hash == record.cursor_type_hash
    }

    pub fn new(pts: u64, x: i32, y: i32, cursor_type_hash: Option<u64>) -> (res: Self)
        ensures
            res.samples(CursorRecord { pts, x, y, cursor_type_hash }),
            !res.pts.nan() && !res.x.nan() && !res.y.nan(),
            res.pts.value() == nearest_double(pts as nat) * pow2(1074),
            res.x.value() == x * pow2(1074),
            res.y.value() == y * pow2(1074),
            res.cursor_type_hash == cursor_type_hash,
    {
        CursorEntry {
            pts: Double::from_u64(pts),
            x: Double::from_i32(x),
            y: Double::from_i32(y),
            cursor_type_hash,
        }
    }

    pub fn from_f64(pts: Double, x: Double, y: Double, cursor_type_hash: Option<u64>) -> (res: Self)
        ensures
            res == (CursorEntry { pts, x, y, cursor_type_hash }),
    {
        CursorEntry { pts, x, y, cursor_type_hash }
    }
}

fn push_le(bytes: &mut Vec<u8>, n: u64, count: usize)
    ensures
        final(bytes)@ == old(bytes)@ + le_bytes(n as nat, count as nat),
    decreases count,
{
    if count > 0 {
        bytes.push((n % 256) as u8);
        let ghost first = bytes@;
        push_le(bytes, n / 256, count - 1);
        assert(bytes@ =~= old(bytes)@ + le_bytes(n as nat, count as nat));
    } else {
        assert(bytes@ =~= old(bytes)@ + le_bytes(n as nat, count as nat));
    }
}

fn read_le(data: &[u8], at: usize, count: usize) -> (res: u64)
    requires
        at + count <= data@.len(),
        count <= 8,
    ensures
        res == le_value(data@.subrange(at as int, at + count)),
{
    let size: usize = data.len();
    let mut res: u64 = 0;
    let mut left: usize = count;
    proof {
        lemma_limits();
    }
    assert(le_value(data@.subrange(at + count, at + count)) == 0);
    while left > 0
        invariant
            left <= count <= 8,
            at + count <= size == data@.len(),
            res == le_value(data@.subrange(at + left, at + count)),
            res < limit((count - left) as nat),
            limit(8) == 0x1_0000_0000_0000_0000,
        decreases left,
    {
        left = left - 1;
        proof {
            let tail = data@.subrange(at + left, at + count);
            assert(tail.drop_first() =~= data@.subrange(at + left + 1, at + count));
            lemma_limit_grows((count - left) as nat, 8);
        }
        res = res * 256 + data[at + left] as u64;
    }
    res
}

/// Whether a sample at `now` is recorded when the last record is from `last`.
pub open spec fn record_due(last: int, now: int) -> bool {
    now - last >= CURSOR_INTERVAL_MS
}

/// The times among `times` at which a record is written, where the last record before them is
/// from `last`.
pub open spec fn recorded_times(last: int, times: Seq<int>) -> Seq<int>
    decreases times.len(),
{
    if times.len() == 0 {
        Seq::empty()
    } else if record_due(last, times[0]) {
        seq![times[0]] + recorded_times(times[0], times.drop_first())
    } else {
        recorded_times(last, times.drop_first())
    }
}

/// What has been written to a cursor file so far, as far as later writes depend on it.
#[derive(Debug)]
pub struct CursorFile {
    pub last_write_pts: u128,
}

impl CursorFile {
    pub fn new() -> (res: Self)
        ensures
            res.last_write_pts == 0,
    {
        CursorFile { last_write_pts: 0 }
    }

    /// The bytes to append for a sample taken at `now_ms`: none if the last record is too recent.
    pub fn write(
        &mut self,
        now_ms: u128,
        pts: u64,
        x: i32,
        y: i32,
        cursor_type_hash: Option<u64>,
    ) -> (res: Option<Vec<u8>>)
        requires
            old(self).last_write_pts <= now_ms,
        ensures
            res is Some <==> record_due(old(self).last_write_pts as int, now_ms as int),
            res is Some <==> now_ms - old(self).last_write_pts >= CURSOR_INTERVAL_MS,
            res is None ==> *final(self) == *old(self),
            res matches Some(bytes) ==> {
                &&& final(self).last_write_pts == now_ms
                &&& bytes@ == (CursorRecord { pts, x, y, cursor_type_hash }).encoded()
                &&& says(bytes@, pts, x, y, cursor_type_hash)
            },
    {
        if now_ms - self.last_write_pts < CURSOR_INTERVAL_MS {
            return None;
        }
        self.last_write_pts = now_ms;

        let mut bytes: Vec<u8> = Vec::new();
        push_le(&mut bytes, pts, 8);
        push_le(&mut bytes, to_unsigned(x), 4);
        push_le(&mut bytes, to_unsigned(y), 4);
        let hash: u64 = match cursor_type_hash {
            Some(hash) => hash,
            None => 0,
        };
        push_le(&mut bytes, hash, 8);
        assert(bytes@ =~= (CursorRecord { pts, x, y, cursor_type_hash }).encoded());
        proof {
            law_record_says_what_was_written(CursorRecord { pts, x, y, cursor_type_hash });
        }
        Some(bytes)
    }

    /// The path of the cursor file, next to the recording.
    pub fn path(recording_file: &str) -> (res: String)
        ensures
            takes_extension(recording_file@, "curs"@, res@),
            forall|folder: Seq<char>, name: Seq<char>| #[trigger]
                names_file(recording_file@, folder, name) ==> res@ == folder + file_stem(name)
                    + ".curs"@,
    {
        proof {
            reveal_strlit("curs");
            reveal_strlit(".curs");
        }
        let path = with_extension(recording_file, "curs");
        assert forall|folder: Seq<char>, name: Seq<char>| #[trigger]
            names_file(recording_file@, folder, name) implies path@ == folder + file_stem(name)
            + ".curs"@ by {
            assert(folder + renamed(name, "curs"@) =~= folder + file_stem(name) + ".curs"@);
        }
        path
    }

    /// The file that holds the cursor image `hash`, next to the recording.
    pub fn img_path(recording_file: &str, hash: u64) -> (res: String)
        ensures
            exists|stem: Seq<char>| #[trigger]
                takes_extension(recording_file@, ""@, stem) && res@ == image_name(
                    stem,
                    hash as nat,
                ),
            forall|folder: Seq<char>, name: Seq<char>| #[trigger]
                names_file(recording_file@, folder, name) ==> res@ == image_name(
                    folder + file_stem(name),
                    hash as nat,
                ),
            forall|folder: Seq<char>, name: Seq<char>| #[trigger]
                names_file(recording_file@, folder, name) ==> res@ == folder + file_stem(name)
                    + "_"@ + decimal(hash as nat) + ".png"@,
    {
        proof {
            reveal_strlit("");
        }
        let mut path = with_extension(recording_file, "");
        let ghost stem = path@;
        path.append("_");
        push_decimal(&mut path, hash);
        path.append(".png");
        assert(takes_extension(recording_file@, ""@, stem));
        path
    }
}

/// The path of a cursor image, from the path of the recording without its extension.
pub open spec fn image_name(stem: Seq<char>, hash: nat) -> Seq<char> {
    stem + "_"@ + decimal(hash) + ".png"@
}

fn read_record(data: &[u8], i: usize) -> (res: CursorRecord)
    requires
        0 <= i < record_count(data@),
    ensures
        res == record_at(data@, i as int),
{
    let size: usize = data.len();
    let at: usize = i * RECORD_SIZE;
    proof {
        let x = data@.subrange(at + 8, at + 12);
        let y = data@.subrange(at + 12, at + 16);
        lemma_limits();
        lemma_le_value_bound(x);
        lemma_le_value_bound(y);
    }
    let raw_hash: u64 = read_le(data, at + 16, 8);
    CursorRecord {
        pts: read_le(data, at, 8),
        x: to_signed(read_le(data, at + 8, 4)),
        y: to_signed(read_le(data, at + 12, 4)),
        cursor_type_hash: if raw_hash == 0 {
            None
        } else {
            Some(raw_hash)
        },
    }
}

/// Reads the samples of a cursor file, and the positions among them of those that show a cursor
/// image for the first time. An incomplete record at the end is left out.
pub fn read_cursor_entries(data: &[u8]) -> (res: (Vec<CursorEntry>, Vec<usize>))
    ensures
        res.0@.len() == record_count(data@),
        forall|i: int|
            0 <= i < res.0@.len() ==> (#[trigger] res.0@[i]).samples(record_at(data@, i)),
        forall|a: int, b: int| 0 <= a < b < res.1@.len() ==> res.1@[a] < res.1@[b],
        forall|i: usize| #[trigger] res.1@.contains(i) <==> shows_new_image(data@, i as int),
{
    let count: usize = data.len() / RECORD_SIZE;
    let mut hashes: HashSet<u64> = HashSet::new();
    let mut types: Vec<usize> = Vec::new();
    let mut entries: Vec<CursorEntry> = Vec::new();
    let mut i: usize = 0;
    while i < count
        invariant
            i <= count == record_count(data@),
            entries@.len() == i,
            forall|k: int| 0 <= k < i ==> (#[trigger] entries@[k]).samples(record_at(data@, k)),
            forall|h: u64|
                #[trigger] hashes@.contains(h) <==> exists|k: int|
                    0 <= k < i && (#[trigger] record_at(data@, k)).cursor_type_hash == Some(h),
            forall|a: int, b: int| 0 <= a < b < types@.len() ==> types@[a] < types@[b],
            forall|a: int| 0 <= a < types@.len() ==> #[trigger] types@[a] < i,
            forall|k: usize|
                #[trigger] types@.contains(k) <==> k < i && shows_new_image(data@, k as int),
        decreases count - i,
    {
        let record = read_record(data, i);
        let ghost seen = hashes@;
        let ghost earlier = types@;
        if let Some(hash) = record.cursor_type_hash {
            if hashes.insert(hash) {
                types.push(i);
                assert(shows_new_image(data@, i as int));
                assert(types@.last() == i);
                assert forall|k: usize| #[trigger] types@.contains(k) <==> k < i + 1
                    && shows_new_image(data@, k as int) by {
                    if earlier.contains(k) {
                        let a = choose|a: int| 0 <= a < earlier.len() && earlier[a] == k;
                        assert(types@[a] == k);
                    }
                    if types@.contains(k) {
                        let a = choose|a: int| 0 <= a < types@.len() && types@[a] == k;
                        if a < earlier.len() {
                            assert(earlier[a] == k);
                        }
                    }
                    if k == i {
                        assert(types@[types@.len() - 1] == k);
                    }
                }
            } else {
                assert(!shows_new_image(data@, i as int));
            }
        }
        assert forall|h: u64| #[trigger] hashes@.contains(h) <==> exists|k: int|
            0 <= k < i + 1 && (#[trigger] record_at(data@, k)).cursor_type_hash == Some(h) by {
            if seen.contains(h) {
                let k = choose|k: int|
                    0 <= k < i && (#[trigger] record_at(data@, k)).cursor_type_hash == Some(h);
                assert(record_at(data@, k).cursor_type_hash == Some(h));
            }
            if record_at(data@, i as int).cursor_type_hash == Some(h) {
                assert(hashes@.contains(h));
            }
        }
        entries.push(CursorEntry::new(record.pts, record.x, record.y, record.cursor_type_hash));
        i = i + 1;
    }
    (entries, types)
}

proof fn lemma_le_value_bound(bytes: Seq<u8>)
    ensures
        le_value(bytes) < limit(bytes.len()),
    decreases bytes.len(),
{
    if bytes.len() > 0 {
        lemma_le_value_bound(bytes.drop_first());
    }
}

/// The least number that does not fit into `count` bytes.
spec fn limit(count: nat) -> nat
    decreases count,
{
    if count == 0 {
        1
    } else {
        256 * limit((count - 1) as nat)
    }
}

proof fn lemma_limit_grows(a: nat, b: nat)
    requires
        a <= b,
    ensures
        limit(a) <= limit(b),
    decreases b,
{
    if a < b {
        lemma_limit_grows(a, (b - 1) as nat);
    }
}

fn to_unsigned(x: i32) -> (res: u64)
    ensures
        res == unsigned(x),
{
    if x < 0 {
        (x as i64 + 0x1_0000_0000) as u64
    } else {
        x as u64
    }
}

fn to_signed(n: u64) -> (res: i32)
    requires
        n < 0x1_0000_0000,
    ensures
        res == signed(n as nat),
{
    if n >= 0x8000_0000 {
        (n as i64 - 0x1_0000_0000) as i32
    } else {
        n as i32
    }
}

proof fn lemma_le_round_trip(n: nat, count: nat)
    ensures
        le_bytes(n, count).len() == count,
        n < limit(count) ==> le_value(le_bytes(n, count)) == n,
    decreases count,
{
    if count > 0 {
        let bytes = le_bytes(n, count);
        lemma_le_round_trip(n / 256, (count - 1) as nat);
        assert(bytes.drop_first() =~= le_bytes(n / 256, (count - 1) as nat));
    }
}

proof fn lemma_encoded_len(record: CursorRecord)
    ensures
        record.encoded().len() == RECORD_SIZE,
{
    let hash: nat = match record.cursor_type_hash {
        Some(hash) => hash as nat,
        None => 0,
    };
    lemma_le_round_trip(record.pts as nat, 8);
    lemma_le_round_trip(unsigned(record.x), 4);
    lemma_le_round_trip(unsigned(record.y), 4);
    lemma_le_round_trip(hash, 8);
}

proof fn lemma_encoded_all_len(records: Seq<CursorRecord>)
    ensures
        encoded_all(records).len() == records.len() * RECORD_SIZE,
    decreases records.len(),
{
    if records.len() > 0 {
        lemma_encoded_all_len(records.drop_last());
        lemma_encoded_len(records.last());
    }
}

proof fn lemma_encoded_all_at(records: Seq<CursorRecord>, i: int)
    requires
        0 <= i < records.len(),
    ensures
        encoded_all(records).len() == records.len() * RECORD_SIZE,
        encoded_all(records).subrange(i * RECORD_SIZE, i * RECORD_SIZE + RECORD_SIZE)
            == records[i].encoded(),
    decreases records.len(),
{
    let data = encoded_all(records);
    lemma_encoded_all_len(records);
    lemma_encoded_all_len(records.drop_last());
    lemma_encoded_len(records.last());
    if i < records.len() - 1 {
        lemma_encoded_all_at(records.drop_last(), i);
        assert(data.subrange(i * RECORD_SIZE, i * RECORD_SIZE + RECORD_SIZE) =~= encoded_all(
            records.drop_last(),
        ).subrange(i * RECORD_SIZE, i * RECORD_SIZE + RECORD_SIZE));
    } else {
        assert(data.subrange(i * RECORD_SIZE, i * RECORD_SIZE + RECORD_SIZE)
            =~= records.last().encoded());
    }
}

proof fn lemma_limits()
    ensures
        limit(4) == 0x1_0000_0000,
        limit(8) == 0x1_0000_0000_0000_0000,
{
    reveal_with_fuel(limit, 9);
}

proof fn lemma_record_round_trip(record: CursorRecord)
    ensures
        le_value(record.encoded().subrange(0, 8)) == record.pts,
        signed(le_value(record.encoded().subrange(8, 12))) == record.x,
        signed(le_value(record.encoded().subrange(12, 16))) == record.y,
        le_value(record.encoded().subrange(16, 24)) == (match record.cursor_type_hash {
            Some(hash) => hash as nat,
            None => 0,
        }),
{
    let hash: nat = match record.cursor_type_hash {
        Some(hash) => hash as nat,
        None => 0,
    };
    let bytes = record.encoded();
    lemma_limits();
    lemma_le_round_trip(record.pts as nat, 8);
    lemma_le_round_trip(unsigned(record.x), 4);
    lemma_le_round_trip(unsigned(record.y), 4);
    lemma_le_round_trip(hash, 8);
    let (p, x, y, h) = (
        le_bytes(record.pts as nat, 8),
        le_bytes(unsigned(record.x), 4),
        le_bytes(unsigned(record.y), 4),
        le_bytes(hash, 8),
    );
    assert(bytes.subrange(0, 8) =~= p);
    assert(bytes.subrange(8, 12) =~= x);
    assert(bytes.subrange(12, 16) =~= y);
    assert(bytes.subrange(16, 24) =~= h);
}

/// Reading a file gives back the records that were written to it, each in its place. Only a hash
/// of zero is not told from none.
pub proof fn law_written_records_are_read_back(records: Seq<CursorRecord>, i: int)
    requires
        0 <= i < records.len(),
    ensures
        record_count(encoded_all(records)) == records.len(),
        records[i].cursor_type_hash != Some(0u64) ==> record_at(encoded_all(records), i)
            == records[i],
        records[i].cursor_type_hash == Some(0u64) ==> record_at(encoded_all(records), i) == (
        CursorRecord { cursor_type_hash: None, ..records[i] }),
{
    let data = encoded_all(records);
    let at = i * RECORD_SIZE;
    let bytes = records[i].encoded();
    lemma_encoded_all_at(records, i);
    lemma_encoded_len(records[i]);
    lemma_record_round_trip(records[i]);
    assert(data.subrange(at, at + 8) =~= bytes.subrange(0, 8)) by {
        assert(data.subrange(at, at + RECORD_SIZE).subrange(0, 8) =~= data.subrange(at, at + 8));
    }
    assert(data.subrange(at + 8, at + 12) =~= bytes.subrange(8, 12)) by {
        assert(data.subrange(at, at + RECORD_SIZE).subrange(8, 12) =~= data.subrange(
            at + 8,
            at + 12,
        ));
    }
    assert(data.subrange(at + 12, at + 16) =~= bytes.subrange(12, 16)) by {
        assert(data.subrange(at, at + RECORD_SIZE).subrange(12, 16) =~= data.subrange(
            at + 12,
            at + 16,
        ));
    }
    assert(data.subrange(at + 16, at + 24) =~= bytes.subrange(16, 24)) by {
        assert(data.subrange(at, at + RECORD_SIZE).subrange(16, 24) =~= data.subrange(
            at + 16,
            at + 24,
        ));
    }
}

proof fn lemma_le_bytes_at(n: nat, count: nat, k: int)
    requires
        0 <= k < count,
    ensures
        le_bytes(n, count).len() == count,
        le_bytes(n, count)[k] == n as int / pow(256, k as nat) % 256,
    decreases count,
{
    let rest = le_bytes(n / 256, (count - 1) as nat);
    lemma_le_round_trip(n, count);
    lemma_le_round_trip(n / 256, (count - 1) as nat);
    lemma_pow_positive(256, k as nat);
    reveal(pow);
    if k == 0 {
        assert(pow(256, 0) == 1);
        assert(n as int / 1 == n);
    } else {
        let power = pow(256, (k - 1) as nat);
        lemma_le_bytes_at(n / 256, (count - 1) as nat, k - 1);
        lemma_pow_positive(256, (k - 1) as nat);
        lemma_div_denominator(n as int, 256, power);
        assert(pow(256, k as nat) == 256 * power);
        assert(le_bytes(n, count)[k] == rest[k - 1]);
    }
}

/// A record is the time in eight bytes, the two coordinates in four each, and the hash, zero for
/// none, in eight. In each of these the bytes count for ascending powers of 256. A coordinate below
/// zero stands as the number that is greater by two to the power of thirty-two.
pub proof fn law_record_layout(record: CursorRecord, k: int)
    requires
        0 <= k < 24,
    ensures
        record.encoded().len() == 24,
        k < 8 ==> record.encoded()[k] == record.pts as int / pow(256, k as nat) % 256,
        8 <= k < 12 ==> record.encoded()[k] == record.x as int % 0x1_0000_0000 / pow(
            256,
            (k - 8) as nat,
        ) % 256,
        12 <= k < 16 ==> record.encoded()[k] == record.y as int % 0x1_0000_0000 / pow(
            256,
            (k - 12) as nat,
        ) % 256,
        16 <= k ==> record.encoded()[k] == match record.cursor_type_hash {
            Some(hash) => hash as int / pow(256, (k - 16) as nat) % 256,
            None => 0,
        },
{
    let hash: nat = match record.cursor_type_hash {
        Some(hash) => hash as nat,
        None => 0,
    };
    lemma_encoded_len(record);
    lemma_le_round_trip(record.pts as nat, 8);
    lemma_le_round_trip(unsigned(record.x), 4);
    lemma_le_round_trip(unsigned(record.y), 4);
    if k < 8 {
        lemma_le_bytes_at(record.pts as nat, 8, k);
    } else if k < 12 {
        lemma_le_bytes_at(unsigned(record.x), 4, k - 8);
    } else if k < 16 {
        lemma_le_bytes_at(unsigned(record.y), 4, k - 12);
    } else {
        lemma_le_bytes_at(hash, 8, k - 16);
        lemma_pow_positive(256, (k - 16) as nat);
        assert(0int / pow(256, (k - 16) as nat) == 0) by (nonlinear_arith)
            requires
                pow(256, (k - 16) as nat) > 0,
        ;
    }
}

/// The bytes of a record, read again, say what was written.
pub proof fn law_record_says_what_was_written(record: CursorRecord)
    ensures
        says(record.encoded(), record.pts, record.x, record.y, record.cursor_type_hash),
{
    let records = seq![record];
    assert(records.drop_last() =~= Seq::empty());
    assert(encoded_all(records.drop_last()) =~= Seq::empty());
    assert(encoded_all(records) =~= record.encoded());
    lemma_encoded_len(record);
    law_written_records_are_read_back(records, 0);
}

/// Several records are written one after the other, in their order.
pub proof fn law_records_stand_in_order(records: Seq<CursorRecord>, i: int, k: int)
    requires
        0 <= i < records.len(),
        0 <= k < 24,
    ensures
        encoded_all(records).len() == 24 * records.len(),
        encoded_all(records)[24 * i + k] == records[i].encoded()[k],
{
    let at = i * RECORD_SIZE;
    lemma_encoded_all_at(records, i);
    assert(encoded_all(records).subrange(at, at + RECORD_SIZE)[k] == encoded_all(records)[at + k]);
}

/// As many records are read as there are whole ones.
pub proof fn law_whole_records_are_counted(data: Seq<u8>)
    ensures
        24 * record_count(data) <= data.len() < 24 * (record_count(data) + 1),
{
}

/// Each cursor image of a file is listed: the record that is listed for it shows the same image,
/// and no record before that one does.
pub proof fn law_every_image_is_listed(data: Seq<u8>, i: int)
    requires
        0 <= i < record_count(data),
        record_at(data, i).cursor_type_hash is Some,
    ensures
        exists|j: int|
            {
                &&& 0 <= j <= i
                &&& #[trigger] shows_new_image(data, j)
                &&& record_at(data, j).cursor_type_hash == record_at(data, i).cursor_type_hash
            },
    decreases i,
{
    if !shows_new_image(data, i) {
        let j = choose|j: int|
            0 <= j < i && (#[trigger] record_at(data, j)).cursor_type_hash == record_at(
                data,
                i,
            ).cursor_type_hash;
        law_every_image_is_listed(data, j);
    }
}

/// No cursor image of a file is listed twice, and no record without an image is listed.
pub proof fn law_no_image_is_listed_twice(data: Seq<u8>, a: int, b: int)
    requires
        shows_new_image(data, a),
        shows_new_image(data, b),
        record_at(data, a).cursor_type_hash == record_at(data, b).cursor_type_hash,
    ensures
        a == b,
        0 <= a < record_count(data),
        record_at(data, a).cursor_type_hash is Some,
{
    if a < b {
        assert(record_at(data, a).cursor_type_hash != record_at(data, b).cursor_type_hash);
    } else if b < a {
        assert(record_at(data, b).cursor_type_hash != record_at(data, a).cursor_type_hash);
    }
}

/// A sample lies where and when its record says: the coordinates exactly, the time as near as a
/// double can.
pub proof fn law_sample_lies_where_its_record_says(entry: CursorEntry, record: CursorRecord)
    requires
        entry.samples(record),
    ensures
        !entry.pts.nan() && !entry.x.nan() && !entry.y.nan(),
        entry.x.value() == record.x * pow2(1074),
        entry.y.value() == record.y * pow2(1074),
        entry.pts.value() == nearest_double(record.pts as nat) * pow2(1074),
        entry.cursor_type_hash == record.cursor_type_hash,
{
}

/// A record that was cut off at the end of the file takes nothing from the records before it.
pub proof fn law_cut_off_record_is_ignored(data: Seq<u8>, rest: Seq<u8>, i: int)
    requires
        data.len() % (RECORD_SIZE as nat) == 0,
        rest.len() < RECORD_SIZE,
        0 <= i < record_count(data),
    ensures
        record_count(data + rest) == record_count(data),
        record_at(data + rest, i) == record_at(data, i),
{
    let at = i * RECORD_SIZE;
    let all = data + rest;
    assert(all.subrange(at, at + 8) =~= data.subrange(at, at + 8));
    assert(all.subrange(at + 8, at + 12) =~= data.subrange(at + 8, at + 12));
    assert(all.subrange(at + 12, at + 16) =~= data.subrange(at + 12, at + 16));
    assert(all.subrange(at + 16, at + 24) =~= data.subrange(at + 16, at + 24));
}

/// Two records of a file are never closer than the recording interval.
pub proof fn law_records_are_spaced(last: int, times: Seq<int>, k: int)
    requires
        0 < k < recorded_times(last, times).len(),
    ensures
        recorded_times(last, times)[k] - recorded_times(last, times)[k - 1] >= CURSOR_INTERVAL_MS,
    decreases times.len(),
{
    let rest = times.drop_first();
    if record_due(last, times[0]) {
        let later = recorded_times(times[0], rest);
        if k == 1 {
            lemma_first_recorded(times[0], rest);
        } else {
            law_records_are_spaced(times[0], rest, k - 1);
        }
        assert(recorded_times(last, times) =~= seq![times[0]] + later);
    } else {
        law_records_are_spaced(last, rest, k);
    }
}

/// A sample is left out only where it comes too soon after the last record before it: the first
/// sample that does not is recorded, and the others follow from there.
pub proof fn law_due_samples_are_recorded(last: int, times: Seq<int>, first: int)
    requires
        0 <= first < times.len(),
        times[first] - last >= CURSOR_INTERVAL_MS,
        forall|k: int| 0 <= k < first ==> #[trigger] times[k] - last < CURSOR_INTERVAL_MS,
    ensures
        recorded_times(last, times) == seq![times[first]] + recorded_times(
            times[first],
            times.skip(first + 1),
        ),
    decreases times.len(),
{
    let rest = times.drop_first();
    if first == 0 {
        assert(times.skip(1) =~= rest);
    } else {
        assert(times[0] - last < CURSOR_INTERVAL_MS);
        assert forall|k: int| 0 <= k < first - 1 implies #[trigger] rest[k] - last
            < CURSOR_INTERVAL_MS by {
            assert(times[k + 1] - last < CURSOR_INTERVAL_MS);
        }
        law_due_samples_are_recorded(last, rest, first - 1);
        assert(rest.skip(first) =~= times.skip(first + 1));
    }
}

proof fn lemma_first_recorded(last: int, times: Seq<int>)
    requires
        recorded_times(last, times).len() > 0,
    ensures
        record_due(last, recorded_times(last, times)[0]),
    decreases times.len(),
{
    if !record_due(last, times[0]) {
        lemma_first_recorded(last, times.drop_first());
    }
}

/// No two cursor images of a recording share a file.
pub proof fn law_images_have_files_of_their_own(stem: Seq<char>, a: nat, b: nat)
    requires
        image_name(stem, a) == image_name(stem, b),
    ensures
        a == b,
{
    lemma_middle(stem + "_"@, decimal(a), decimal(b), ".png"@);
    law_digits_stand_for_their_number(a, 0);
    law_digits_stand_for_their_number(b, 0);
}

} // verus!
