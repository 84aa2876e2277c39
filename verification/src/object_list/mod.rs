use vstd::prelude::*;
use vstd::utf8::*;

use crate::data_encoding::{ByteCursor, ByteWriter, DecodingError, le_u16_of, u16_le_bytes, null_terminated, null_terminated_at, lemma_encode_utf8_no_zero, lemma_terminator_found};
use crate::xor_encryption::{xor_at, xor_transform, lemma_xor_involution};

verus! {

/// An inventory object: its name and the room it starts in.
#[derive(Debug, Clone, PartialEq, Eq)]
pub struct ObjectListEntry {
    pub name: String,
    pub starting_room_number: u8,
}

/// The game's inventory objects and the number of animated objects it allows.
#[derive(Debug, Clone, PartialEq, Eq)]
pub struct ObjectList {
    pub objects: Vec<ObjectListEntry>,
    pub max_animated_objects: u8,
}

/// An object as its name's characters and its starting room.
pub type ObjectEntryView = (Seq<char>, u8);

/// An object list as its entries and its animated-object limit.
pub type ObjectListView = (Seq<ObjectEntryView>, u8);

impl View for ObjectListEntry {
    type V = ObjectEntryView;

    open spec fn view(&self) -> ObjectEntryView {
        (self.name@, self.starting_room_number)
    }
}

impl View for ObjectList {
    type V = ObjectListView;

    open spec fn view(&self) -> ObjectListView {
        (entries_view(self.objects@), self.max_animated_objects)
    }
}

pub open spec fn entries_view(v: Seq<ObjectListEntry>) -> Seq<ObjectEntryView> {
    v.map_values(|e: ObjectListEntry| e@)
}

pub open spec fn records_view(v: Seq<(u16, u8)>) -> Seq<(int, u8)> {
    v.map_values(|r: (u16, u8)| (r.0 as int, r.1))
}

/// The length of an entry's name in bytes, with its terminator.
pub open spec fn entry_name_size(e: ObjectEntryView) -> int {
    encode_utf8(e.0).len() + 1int
}

/// Where the name of entry `i` begins within the name section.
pub open spec fn name_offset(entries: Seq<ObjectEntryView>, i: int) -> int
    decreases i,
{
    if i <= 0 {
        0
    } else {
        name_offset(entries, i - 1) + entry_name_size(entries[i - 1])
    }
}

/// The header records of the first `k` entries: each the name's position
/// (past the `header_len` bytes of records) and the starting room.
pub open spec fn header_records(entries: Seq<ObjectEntryView>, k: int, header_len: int) -> Seq<u8>
    decreases k,
{
    if k <= 0 {
        Seq::empty()
    } else {
        header_records(entries, k - 1, header_len) + u16_le_bytes(
            (name_offset(entries, k - 1) + header_len) as u16,
        ).push(entries[k - 1].1)
    }
}

/// The names of the first `k` entries, each ending in a zero.
pub open spec fn name_section(entries: Seq<ObjectEntryView>, k: int) -> Seq<u8>
    decreases k,
{
    if k <= 0 {
        Seq::empty()
    } else {
        name_section(entries, k - 1) + null_terminated(entries[k - 1].0)
    }
}

/// The unscrambled bytes of an object list: the length of the record table,
/// the animated-object limit, one three-byte record per object and the names.
pub open spec fn object_list_plain(ol: ObjectListView) -> Seq<u8> {
    let n = ol.0.len() as int;
    u16_le_bytes((3 * n) as u16).push(ol.1) + header_records(ol.0, n, 3 * n) + name_section(
        ol.0,
        n,
    )
}

/// The bytes of an object file: the plain bytes scrambled from position 0.
pub open spec fn object_list_bytes(ol: ObjectListView) -> Seq<u8> {
    xor_at(object_list_plain(ol), 0, 0)
}

/// The outcome of reading an object file: a list, an error, or an input on
/// which an offset overflows 16 bits.
pub enum ObjectListRead {
    Parsed(ObjectListView),
    Failed(DecodingError),
    Fault,
}

/// The outcome of reading the first records of the table.
pub enum RecordsRead {
    Done(Seq<(int, u8)>),
    Failed(DecodingError),
    Fault,
}

/// The number of records read: the table is read three bytes at a time
/// while the position lies below `names_start`.
pub open spec fn record_count(names_start: int) -> int {
    if names_start <= 3 {
        0
    } else {
        (names_start - 3 + 2) / 3
    }
}

/// Reads the first `k` records of plain bytes `p`: a name position, which
/// gets 3 added, and a room.
pub open spec fn read_records(p: Seq<u8>, k: int) -> RecordsRead
    decreases k,
{
    if k <= 0 {
        RecordsRead::Done(Seq::empty())
    } else {
        match read_records(p, k - 1) {
            RecordsRead::Done(acc) => {
                let pos = 3 + 3 * (k - 1);
                if pos + 2 > p.len() {
                    RecordsRead::Failed(DecodingError::UnexpectedEof)
                } else if le_u16_of(p[pos], p[pos + 1]) + 3 > 0xffff {
                    RecordsRead::Fault
                } else if pos + 2 >= p.len() {
                    RecordsRead::Failed(DecodingError::UnexpectedEof)
                } else {
                    RecordsRead::Done(acc.push((le_u16_of(p[pos], p[pos + 1]) + 3, p[pos + 2])))
                }
            },
            other => other,
        }
    }
}

/// Reads the names that the first `k` records point to.
pub open spec fn read_names(p: Seq<u8>, recs: Seq<(int, u8)>, k: int) -> Result<
    Seq<ObjectEntryView>,
    DecodingError,
>
    decreases k,
{
    if k <= 0 {
        Ok(Seq::empty())
    } else {
        match read_names(p, recs, k - 1) {
            Ok(acc) => match null_terminated_at(p, recs[k - 1].0) {
                Ok(name) => Ok(acc.push((name, recs[k - 1].1))),
                Err(e) => Err(e),
            },
            Err(e) => Err(e),
        }
    }
}

/// Reads an object list from its unscrambled bytes.
pub open spec fn read_object_list_plain(p: Seq<u8>) -> ObjectListRead {
    if p.len() < 2 {
        ObjectListRead::Failed(DecodingError::UnexpectedEof)
    } else if le_u16_of(p[0], p[1]) + 3 > 0xffff {
        ObjectListRead::Fault
    } else if p.len() < 3 {
        ObjectListRead::Failed(DecodingError::UnexpectedEof)
    } else {
        let names_start = le_u16_of(p[0], p[1]) + 3;
        let k = record_count(names_start);
        match read_records(p, k) {
            RecordsRead::Done(recs) => match read_names(p, recs, k) {
                Ok(entries) => ObjectListRead::Parsed((entries, p[2])),
                Err(e) => ObjectListRead::Failed(e),
            },
            RecordsRead::Failed(e) => ObjectListRead::Failed(e),
            RecordsRead::Fault => ObjectListRead::Fault,
        }
    }
}

/// Reads an object file: unscrambles it from position 0, then reads it.
pub open spec fn read_object_list(data: Seq<u8>) -> ObjectListRead {
    read_object_list_plain(xor_at(data, 0, 0))
}

pub open spec fn object_list_result(r: Result<ObjectList, DecodingError>) -> ObjectListRead {
    match r {
        Ok(ol) => ObjectListRead::Parsed(ol@),
        Err(e) => ObjectListRead::Failed(e),
    }
}

impl ObjectList {
    /// Reads an object file.
    pub fn decode(data: &[u8]) -> (r: Result<ObjectList, DecodingError>)
        requires
            read_object_list(data@) != ObjectListRead::Fault,
        ensures
            object_list_result(r) == read_object_list(data@),
    {
        let n = data.len();
        assert(n == data@.len());
        let plain = xor_transform(data, 0, 0);
        let ghost p = plain@;
        let mut cursor = ByteCursor::new(plain);
        let header = cursor.read_u16_le()?;
        let names_start: u16 = header + 3;
        let max_animated_objects = cursor.read_u8()?;
        let ghost count = record_count(names_start as int);
        let mut records: Vec<(u16, u8)> = Vec::new();
        let ghost mut k: int = 0;
        assert(records_view(records@) =~= Seq::<(int, u8)>::empty());
        while cursor.stream_position() < names_start as usize
            invariant
                cursor.contents() == p,
                p == xor_at(data@, 0, 0),
                read_object_list_plain(p) != ObjectListRead::Fault,
                p.len() >= 3,
                names_start == le_u16_of(p[0], p[1]) + 3,
                count == record_count(names_start as int),
                cursor.position() == 3 + 3 * k,
                k == records@.len(),
                0 <= k <= count,
                cursor.position() < names_start ==> k < count,
                cursor.position() >= names_start ==> k == count,
                read_records(p, k) == RecordsRead::Done(records_view(records@)),
                max_animated_objects == p[2],
            decreases count - k,
        {
            let ghost kk = k;
            let off = match cursor.read_u16_le() {
                Ok(v) => v,
                Err(e) => {
                    proof {
                        lemma_records_failed_propagates(p, kk + 1, count, e);
                    }
                    return Err(e);
                },
            };
            proof {
                if off + 3 > 0xffff {
                    lemma_records_fault_propagates(p, kk + 1, count);
                    assert(false);
                }
            }
            let name_pos = off + 3;
            let room = match cursor.read_u8() {
                Ok(v) => v,
                Err(e) => {
                    proof {
                        lemma_records_failed_propagates(p, kk + 1, count, e);
                    }
                    return Err(e);
                },
            };
            let ghost prev = records_view(records@);
            records.push((name_pos, room));
            proof {
                let pos = 3 + 3 * kk;
                assert(pos + 2 < p.len());
                assert(off == le_u16_of(p[pos], p[pos + 1]));
                assert(room == p[pos + 2]);
                assert(read_records(p, kk + 1) == RecordsRead::Done(prev.push((name_pos as int, room))));
                lemma_record_count_step(kk, names_start as int);
                k = k + 1;
                assert(records_view(records@) =~= prev.push((name_pos as int, room)));
            }
        }
        let ghost recs = records_view(records@);
        let mut objects: Vec<ObjectListEntry> = Vec::new();
        let mut i: usize = 0;
        assert(entries_view(objects@) =~= Seq::<ObjectEntryView>::empty());
        while i < records.len()
            invariant
                cursor.contents() == p,
                p == xor_at(data@, 0, 0),
                p.len() >= 3,
                names_start == le_u16_of(p[0], p[1]) + 3,
                count == record_count(names_start as int),
                read_records(p, count) == RecordsRead::Done(recs),
                recs.len() == count,
                max_animated_objects == p[2],
                0 <= i <= records@.len(),
                recs == records_view(records@),
                read_names(p, recs, i as int) == Ok::<Seq<ObjectEntryView>, DecodingError>(entries_view(objects@)),
            decreases records@.len() - i,
        {
            let (name_pos, room) = records[i];
            assert(recs[i as int] == (name_pos as int, room));
            cursor.seek(name_pos as usize);
            let name = match cursor.read_null_terminated_string() {
                Ok(v) => v,
                Err(e) => {
                    proof {
                        lemma_names_failed_propagates(p, recs, i + 1, count, e);
                    }
                    return Err(e);
                },
            };
            let ghost prev = entries_view(objects@);
            assert(null_terminated_at(p, recs[i as int].0) == Ok::<Seq<char>, DecodingError>(name@));
            assert(read_names(p, recs, i + 1) == Ok::<Seq<ObjectEntryView>, DecodingError>(prev.push((name@, room))));
            objects.push(ObjectListEntry { name, starting_room_number: room });
            i = i + 1;
            assert(entries_view(objects@) =~= prev.push((name@, room)));
        }
        let r = ObjectList { objects, max_animated_objects };
        assert(r@ == (entries_view(objects@), max_animated_objects));
        Ok(r)
    }

    /// Writes the object file: the record table and names, scrambled from position 0.
    pub fn encode(&self) -> (r: Vec<u8>)
        requires
            3 + 3 * self@.0.len() + name_offset(self@.0, self@.0.len() as int) <= usize::MAX,
        ensures
            r@ == object_list_bytes(self@),
    {
        let ghost entries = self@.0;
        let n = self.objects.len();
        proof {
            lemma_name_offset_monotonic(entries, 0, n as int);
        }
        let header_len = n * 3;
        let mut w = ByteWriter::new();
        w.write_u16_le(header_len as u16);
        w.write_u8(self.max_animated_objects);
        let ghost prefix = w.contents();
        let mut offset: usize = 0;
        let mut i: usize = 0;
        while i < n
            invariant
                n == self.objects@.len(),
                entries == self@.0,
                entries.len() == n,
                header_len == 3 * n,
                3 + 3 * n + name_offset(entries, n as int) <= usize::MAX,
                0 <= i <= n,
                offset == name_offset(entries, i as int),
                w.contents() == prefix + header_records(entries, i as int, header_len as int),
            decreases n - i,
        {
            proof {
                lemma_name_offset_monotonic(entries, i + 1, n as int);
            }
            let entry = &self.objects[i];
            assert(entries[i as int] == entry@);
            w.write_u16_le((offset + header_len) as u16);
            w.write_u8(entry.starting_room_number);
            let name_len = entry.name.as_str().as_bytes().len();
            offset = offset + name_len + 1;
            i = i + 1;
            assert(w.contents() =~= prefix + header_records(entries, i as int, header_len as int));
        }
        let ghost middle = w.contents();
        let mut j: usize = 0;
        while j < n
            invariant
                n == self.objects@.len(),
                entries == self@.0,
                entries.len() == n,
                0 <= j <= n,
                w.contents() == middle + name_section(entries, j as int),
            decreases n - j,
        {
            let entry = &self.objects[j];
            assert(entries[j as int] == entry@);
            w.write_null_terminated_string(entry.name.as_str());
            j = j + 1;
            assert(w.contents() =~= middle + name_section(entries, j as int));
        }
        let plain = w.into_bytes();
        assert(plain@ =~= object_list_plain(self@));
        let total = plain.len();
        assert(total == plain@.len());
        xor_transform(plain.as_slice(), 0, 0)
    }
}

proof fn lemma_name_offset_monotonic(entries: Seq<ObjectEntryView>, i: int, j: int)
    requires
        0 <= i <= j,
    ensures
        name_offset(entries, i) <= name_offset(entries, j),
    decreases j - i,
{
    if i < j {
        lemma_name_offset_monotonic(entries, i, j - 1);
    }
}

proof fn lemma_record_count_step(k: int, ns: int)
    requires
        0 <= k,
        3 + 3 * k < ns,
    ensures
        k < record_count(ns),
        3 + 3 * (k + 1) < ns ==> k + 1 < record_count(ns),
        3 + 3 * (k + 1) >= ns ==> k + 1 == record_count(ns),
{
    assert(record_count(ns) == (ns - 1) / 3);
    assert(k < (ns - 1) / 3) by (nonlinear_arith)
        requires
            3 + 3 * k < ns,
    ;
    assert(3 + 3 * (k + 1) < ns ==> k + 1 < (ns - 1) / 3) by (nonlinear_arith);
    assert(3 + 3 * (k + 1) >= ns && 3 + 3 * k < ns ==> k + 1 == (ns - 1) / 3) by (nonlinear_arith);
}

proof fn lemma_records_failed_propagates(p: Seq<u8>, k: int, n: int, e: DecodingError)
    requires
        0 <= k <= n,
        read_records(p, k) == RecordsRead::Failed(e),
    ensures
        read_records(p, n) == RecordsRead::Failed(e),
    decreases n - k,
{
    if k < n {
        assert(read_records(p, k + 1) == RecordsRead::Failed(e));
        lemma_records_failed_propagates(p, k + 1, n, e);
    }
}

proof fn lemma_names_failed_propagates(p: Seq<u8>, recs: Seq<(int, u8)>, k: int, n: int, e: DecodingError)
    requires
        0 <= k <= n,
        read_names(p, recs, k) == Err::<Seq<ObjectEntryView>, DecodingError>(e),
    ensures
        read_names(p, recs, n) == Err::<Seq<ObjectEntryView>, DecodingError>(e),
    decreases n - k,
{
    if k < n {
        assert(read_names(p, recs, k + 1) == Err::<Seq<ObjectEntryView>, DecodingError>(e));
        lemma_names_failed_propagates(p, recs, k + 1, n, e);
    }
}

proof fn lemma_records_fault_propagates(p: Seq<u8>, k: int, n: int)
    requires
        0 <= k <= n,
        read_records(p, k) == RecordsRead::Fault,
    ensures
        read_records(p, n) == RecordsRead::Fault,
    decreases n - k,
{
    if k < n {
        assert(read_records(p, k + 1) == RecordsRead::Fault);
        lemma_records_fault_propagates(p, k + 1, n);
    }
}


/// The byte pair of a 16-bit number reads back as that number.
pub proof fn lemma_u16_le_round_trip(v: u16)
    ensures
        le_u16_of(u16_le_bytes(v)[0], u16_le_bytes(v)[1]) == v,
{
}

proof fn lemma_header_records(e: Seq<ObjectEntryView>, k: int, h: int)
    requires
        0 <= k,
    ensures
        header_records(e, k, h).len() == 3 * k,
        forall|j: int, t: int|
            0 <= j < k && 0 <= t < 3 ==> #[trigger] header_records(e, k, h)[3 * j + t] == u16_le_bytes(
                (name_offset(e, j) + h) as u16,
            ).push(e[j].1)[t],
    decreases k,
{
    if k > 0 {
        lemma_header_records(e, k - 1, h);
        let prev = header_records(e, k - 1, h);
        let rec = u16_le_bytes((name_offset(e, k - 1) + h) as u16).push(e[k - 1].1);
        assert(header_records(e, k, h) == prev + rec);
        assert forall|j: int, t: int| 0 <= j < k && 0 <= t < 3 implies #[trigger] header_records(
            e,
            k,
            h,
        )[3 * j + t] == u16_le_bytes((name_offset(e, j) + h) as u16).push(e[j].1)[t] by {
            if j < k - 1 {
                assert(prev[3 * j + t] == u16_le_bytes((name_offset(e, j) + h) as u16).push(e[j].1)[t]);
            }
        }
    }
}

proof fn lemma_name_section(e: Seq<ObjectEntryView>, k: int)
    requires
        0 <= k <= e.len(),
    ensures
        name_section(e, k).len() == name_offset(e, k),
        forall|j: int|
            0 <= j < k ==> name_section(e, k).subrange(name_offset(e, j), name_offset(e, j + 1))
                == #[trigger] null_terminated(e[j].0),
    decreases k,
{
    if k > 0 {
        lemma_name_section(e, k - 1);
        let prev = name_section(e, k - 1);
        let last = null_terminated(e[k - 1].0);
        assert(name_section(e, k) == prev + last);
        assert forall|j: int| 0 <= j < k implies name_section(e, k).subrange(
            name_offset(e, j),
            name_offset(e, j + 1),
        ) == #[trigger] null_terminated(e[j].0) by {
            lemma_name_offset_monotonic(e, 0, j);
            lemma_name_offset_monotonic(e, j, j + 1);
            if j < k - 1 {
                lemma_name_offset_monotonic(e, j + 1, k - 1);
                assert(name_section(e, k).subrange(name_offset(e, j), name_offset(e, j + 1))
                    =~= prev.subrange(name_offset(e, j), name_offset(e, j + 1)));
            } else {
                assert(name_section(e, k).subrange(name_offset(e, j), name_offset(e, j + 1)) =~= last);
            }
        }
    }
}

/// An object file that `encode` writes reads back as the same list, provided
/// that no name holds the NUL character and that every name position, with the
/// three header bytes, fits in 16 bits.
pub proof fn lemma_object_list_round_trip(ol: ObjectListView)
    requires
        forall|i: int, c: int| 0 <= i < ol.0.len() && 0 <= c < ol.0[i].0.len() ==> ol.0[i].0[c] != '\0',
        ol.0.len() > 0 ==> 3 + 3 * ol.0.len() + name_offset(ol.0, ol.0.len() - 1) <= 0xffff,
    ensures
        read_object_list(object_list_bytes(ol)) == ObjectListRead::Parsed(ol),
{
    let e = ol.0;
    let n = e.len() as int;
    let p = object_list_plain(ol);
    lemma_xor_involution(p, 0, 0);
    assert(read_object_list(object_list_bytes(ol)) == read_object_list_plain(p));
    let a = u16_le_bytes((3 * n) as u16).push(ol.1);
    let hr = header_records(e, n, 3 * n);
    let ns = name_section(e, n);
    lemma_header_records(e, n, 3 * n);
    lemma_name_section(e, n);
    assert(p == a + hr + ns);
    if n > 0 {
        lemma_name_offset_monotonic(e, 0, n - 1);
    }
    assert(3 * n <= 0xffff);
    lemma_u16_le_round_trip((3 * n) as u16);
    assert(p[0] == a[0] && p[1] == a[1] && p[2] == ol.1);
    let names_start = 3 * n + 3;
    assert(le_u16_of(p[0], p[1]) == 3 * n);
    assert(record_count(names_start) == n) by {
        if n > 0 {
            assert((3 * n + 3 - 3 + 2) / 3 == n) by (nonlinear_arith);
        }
    }
    let recs = Seq::new(n as nat, |j: int| (name_offset(e, j) + 3 * n + 3, e[j].1));
    assert forall|k: int| 0 <= k <= n implies #[trigger] read_records(p, k) == RecordsRead::Done(recs.take(k)) by {
        lemma_read_records_prefix(ol, p, k);
    }
    assert(recs.take(n) =~= recs);
    assert forall|k: int| 0 <= k <= n implies #[trigger] read_names(p, recs, k) == Ok::<Seq<ObjectEntryView>, DecodingError>(e.take(k)) by {
        lemma_read_names_prefix(ol, p, recs, k);
    }
    assert(e.take(n) =~= e);
}

proof fn lemma_read_records_prefix(ol: ObjectListView, p: Seq<u8>, k: int)
    requires
        p == object_list_plain(ol),
        0 <= k <= ol.0.len(),
        ol.0.len() > 0 ==> 3 + 3 * ol.0.len() + name_offset(ol.0, ol.0.len() - 1) <= 0xffff,
    ensures
        read_records(p, k) == RecordsRead::Done(
            Seq::new(ol.0.len(), |j: int| (name_offset(ol.0, j) + 3 * ol.0.len() + 3, ol.0[j].1)).take(k),
        ),
    decreases k,
{
    let e = ol.0;
    let n = e.len() as int;
    let recs = Seq::new(n as nat, |j: int| (name_offset(e, j) + 3 * n + 3, e[j].1));
    if k > 0 {
        lemma_read_records_prefix(ol, p, k - 1);
        let a = u16_le_bytes((3 * n) as u16).push(ol.1);
        let hr = header_records(e, n, 3 * n);
        let ns = name_section(e, n);
        lemma_header_records(e, n, 3 * n);
        lemma_name_section(e, n);
        assert(p == a + hr + ns);
        let j = k - 1;
        let pos = 3 + 3 * j;
        lemma_name_offset_monotonic(e, j, n - 1);
        lemma_name_offset_monotonic(e, 0, j);
        assert(0 <= name_offset(e, j) + 3 * n <= 0xffff);
        let v = (name_offset(e, j) + 3 * n) as u16;
        assert(v as int == name_offset(e, j) + 3 * n);
        assert(hr[3 * j + 0] == u16_le_bytes(v).push(e[j].1)[0]);
        assert(hr[3 * j + 1] == u16_le_bytes(v).push(e[j].1)[1]);
        assert(hr[3 * j + 2] == u16_le_bytes(v).push(e[j].1)[2]);
        assert(p[pos] == hr[3 * j]);
        assert(p[pos + 1] == hr[3 * j + 1]);
        assert(p[pos + 2] == hr[3 * j + 2]);
        lemma_u16_le_round_trip(v);
        assert(le_u16_of(p[pos], p[pos + 1]) == name_offset(e, j) + 3 * n);
        assert(recs.take(k) =~= recs.take(k - 1).push((name_offset(e, j) + 3 * n + 3, e[j].1)));
    } else {
        assert(recs.take(0) =~= Seq::<(int, u8)>::empty());
    }
}

proof fn lemma_read_names_prefix(ol: ObjectListView, p: Seq<u8>, recs: Seq<(int, u8)>, k: int)
    requires
        p == object_list_plain(ol),
        recs == Seq::new(ol.0.len(), |j: int| (name_offset(ol.0, j) + 3 * ol.0.len() + 3, ol.0[j].1)),
        0 <= k <= ol.0.len(),
        forall|i: int, c: int| 0 <= i < ol.0.len() && 0 <= c < ol.0[i].0.len() ==> ol.0[i].0[c] != '\0',
    ensures
        read_names(p, recs, k) == Ok::<Seq<ObjectEntryView>, DecodingError>(ol.0.take(k)),
    decreases k,
{
    let e = ol.0;
    let n = e.len() as int;
    if k > 0 {
        lemma_read_names_prefix(ol, p, recs, k - 1);
        let j = k - 1;
        let a = u16_le_bytes((3 * n) as u16).push(ol.1);
        let hr = header_records(e, n, 3 * n);
        let ns = name_section(e, n);
        lemma_header_records(e, n, 3 * n);
        lemma_name_section(e, n);
        assert(p == a + hr + ns);
        let name = e[j].0;
        let bytes = encode_utf8(name);
        lemma_encode_utf8_no_zero(name);
        lemma_name_offset_monotonic(e, 0, j);
        lemma_name_offset_monotonic(e, j + 1, n);
        let start = 3 + 3 * n + name_offset(e, j);
        let z = start + bytes.len();
        let seg = ns.subrange(name_offset(e, j), name_offset(e, j + 1));
        assert(ns.subrange(name_offset(e, j), name_offset(e, j + 1)) == null_terminated(name));
        assert(name_offset(e, j + 1) == name_offset(e, j) + bytes.len() + 1);
        assert forall|q: int| start <= q < z implies p[q] != 0 by {
            assert(p[q] == ns[q - 3 - 3 * n]);
            assert(seg[q - start] == ns[q - 3 - 3 * n]);
            assert(ns[q - 3 - 3 * n] == null_terminated(name)[q - start]);
        }
        assert(p[z] == ns[z - 3 - 3 * n]);
        assert(seg[z - start] == ns[z - 3 - 3 * n]);
        assert(p[z] == null_terminated(name)[bytes.len() as int]);
        lemma_terminator_found(p, start, z);
        assert(p.subrange(start, z) =~= bytes) by {
            assert forall|q: int| 0 <= q < bytes.len() implies p.subrange(start, z)[q] == bytes[q] by {
                assert(p[start + q] == ns[start + q - 3 - 3 * n]);
                assert(seg[q] == ns[start + q - 3 - 3 * n]);
                assert(ns[start + q - 3 - 3 * n] == null_terminated(name)[q]);
            }
        }
        vstd::utf8::encode_utf8_valid_utf8(name);
        vstd::utf8::encode_utf8_decode_utf8(name);
        assert(recs[j] == (start, e[j].1));
        assert(null_terminated_at(p, start) == Ok::<Seq<char>, DecodingError>(name));
        assert(e.take(k) =~= e.take(k - 1).push((name, e[j].1)));
    } else {
        assert(e.take(0) =~= Seq::<ObjectEntryView>::empty());
    }
}

} // verus!
