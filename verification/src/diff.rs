//! Comparing two archives by normalized path: which entries were added, removed,
//! changed or left alone, by listed metadata and optionally by payload fingerprint.

use vstd::prelude::*;
use vstd::string::*;

use crate::byte_map::{
    has_key, lemma_lex_irreflexive, lemma_lex_total, lemma_lex_transitive, lemma_sorted_insert, lemma_to_map_dom, lex_lt,
    sorted_insert, sorted_keys, to_map, ByteMap,
};
use crate::error::Result;
use crate::loaded::{spec_open_index, spec_read_file, EntryView, LoadedArchive, LoadedEntry};
use crate::paths::{archive_path_bytes_to_display, archive_path_bytes_to_hex, spec_hex_chars, spec_lossy_display};

verus! {

/// Options controlling archive comparison.
#[derive(Debug, Clone, Copy, Default, PartialEq, Eq, Structural)]
pub struct DiffOptions {
    /// Fingerprint payload bytes instead of comparing only listed metadata.
    pub hash_payloads: bool,
}

/// Entry present on one side of a comparison.
#[derive(Debug, Clone)]
pub struct DiffEntry {
    pub path: String,
    pub path_bytes_hex: String,
    pub size: Option<u64>,
    pub compressed_size: Option<u64>,
    pub payload_fingerprint: Option<String>,
}

/// Side-specific state of a changed entry.
#[derive(Debug, Clone)]
pub struct DiffEntryState {
    pub size: Option<u64>,
    pub compressed_size: Option<u64>,
    pub payload_fingerprint: Option<String>,
}

/// Entry present in both archives with differing metadata or fingerprint.
#[derive(Debug, Clone)]
pub struct DiffChange {
    pub path: String,
    pub path_bytes_hex: String,
    pub old: DiffEntryState,
    pub new: DiffEntryState,
}

/// Archive comparison report.
#[derive(Debug, Clone)]
pub struct DiffReport {
    pub old: String,
    pub new: String,
    pub hash_payloads: bool,
    pub added: Vec<DiffEntry>,
    pub removed: Vec<DiffEntry>,
    pub changed: Vec<DiffChange>,
    pub unchanged: usize,
}

/// What the comparison keeps of one entry.
pub struct DiffData {
    pub path: Seq<u8>,
    pub size: Option<u64>,
    pub compressed_size: Option<u64>,
    pub payload_fingerprint: Option<Seq<char>>,
}

pub struct DiffEntryView {
    pub path: Seq<char>,
    pub path_bytes_hex: Seq<char>,
    pub size: Option<u64>,
    pub compressed_size: Option<u64>,
    pub payload_fingerprint: Option<Seq<char>>,
}

pub struct DiffStateView {
    pub size: Option<u64>,
    pub compressed_size: Option<u64>,
    pub payload_fingerprint: Option<Seq<char>>,
}

pub struct DiffChangeView {
    pub path: Seq<char>,
    pub path_bytes_hex: Seq<char>,
    pub old: DiffStateView,
    pub new: DiffStateView,
}

pub open spec fn opt_text(t: Option<String>) -> Option<Seq<char>> {
    match t {
        Some(s) => Some(s@),
        None => None,
    }
}

impl View for DiffEntry {
    type V = DiffEntryView;

    open spec fn view(&self) -> DiffEntryView {
        DiffEntryView {
            path: self.path@,
            path_bytes_hex: self.path_bytes_hex@,
            size: self.size,
            compressed_size: self.compressed_size,
            payload_fingerprint: opt_text(self.payload_fingerprint),
        }
    }
}

impl View for DiffEntryState {
    type V = DiffStateView;

    open spec fn view(&self) -> DiffStateView {
        DiffStateView { size: self.size, compressed_size: self.compressed_size, payload_fingerprint: opt_text(self.payload_fingerprint) }
    }
}

impl View for DiffChange {
    type V = DiffChangeView;

    open spec fn view(&self) -> DiffChangeView {
        DiffChangeView { path: self.path@, path_bytes_hex: self.path_bytes_hex@, old: self.old@, new: self.new@ }
    }
}

/// Working record of one entry.
pub struct DiffEntryData {
    path: Vec<u8>,
    size: Option<u64>,
    compressed_size: Option<u64>,
    payload_fingerprint: Option<String>,
}

impl View for DiffEntryData {
    type V = DiffData;

    closed spec fn view(&self) -> DiffData {
        DiffData { path: self.path@, size: self.size, compressed_size: self.compressed_size, payload_fingerprint: opt_text(self.payload_fingerprint) }
    }
}

// ---------------------------------------------------------------------------
// Payload fingerprints
// ---------------------------------------------------------------------------

pub open spec fn fnv_offset() -> u64 {
    0xcbf2_9ce4_8422_2325u64
}

pub open spec fn fnv_prime() -> u64 {
    0x0000_0100_0000_01b3u64
}

/// 64-bit FNV-1a of `bytes`.
pub open spec fn spec_fnv1a64(bytes: Seq<u8>) -> u64
    decreases bytes.len(),
{
    if bytes.len() == 0 {
        fnv_offset()
    } else {
        vstd::wrapping::u64_specs::wrapping_mul(spec_fnv1a64(bytes.drop_last()) ^ (bytes.last() as u64), fnv_prime())
    }
}

/// 64-bit FNV-1a of `bytes`: a fast fingerprint for change detection, not an integrity check.
pub fn fnv1a64(bytes: &[u8]) -> (hash: u64)
    ensures
        hash == spec_fnv1a64(bytes@),
{
    let mut hash: u64 = 0xcbf2_9ce4_8422_2325u64;
    let mut i: usize = 0;
    assert(bytes@.take(0) =~= Seq::<u8>::empty());
    while i < bytes.len()
        invariant
            i <= bytes@.len(),
            hash == spec_fnv1a64(bytes@.take(i as int)),
        decreases bytes@.len() - i,
    {
        assert(bytes@.take(i as int + 1).drop_last() =~= bytes@.take(i as int));
        hash = hash ^ (bytes[i] as u64);
        hash = hash.wrapping_mul(0x0000_0100_0000_01b3u64);
        i = i + 1;
    }
    assert(bytes@.take(bytes@.len() as int) =~= bytes@);
    hash
}

/// Big-endian bytes of a 64-bit value.
pub open spec fn be_bytes(h: u64) -> Seq<u8> {
    seq![
        (h >> 56u64) as u8,
        (h >> 48u64) as u8,
        (h >> 40u64) as u8,
        (h >> 32u64) as u8,
        (h >> 24u64) as u8,
        (h >> 16u64) as u8,
        (h >> 8u64) as u8,
        h as u8,
    ]
}

/// Sixteen lowercase hex digits of a fingerprint, most significant first.
pub open spec fn spec_hash_text(h: u64) -> Seq<char> {
    spec_hex_chars(be_bytes(h))
}

fn hash_text(h: u64) -> (text: String)
    ensures
        text@ == spec_hash_text(h),
{
    let mut bytes: Vec<u8> = Vec::new();
    bytes.push((h >> 56u64) as u8);
    bytes.push((h >> 48u64) as u8);
    bytes.push((h >> 40u64) as u8);
    bytes.push((h >> 32u64) as u8);
    bytes.push((h >> 24u64) as u8);
    bytes.push((h >> 16u64) as u8);
    bytes.push((h >> 8u64) as u8);
    bytes.push(h as u8);
    assert(bytes@ =~= be_bytes(h));
    archive_path_bytes_to_hex(bytes.as_slice())
}

// ---------------------------------------------------------------------------
// The comparison
// ---------------------------------------------------------------------------

/// Fingerprint text of the payload at `path`, when it can be read.
pub open spec fn spec_payload_fingerprint(archive: dream_archive::Archive, path: Seq<u8>) -> Option<Seq<char>> {
    match spec_read_file(archive, path) {
        Some(Some(p)) => Some(spec_hash_text(spec_fnv1a64(p))),
        _ => None,
    }
}

/// Whether every listed payload can be read.
pub open spec fn payloads_readable(archive: dream_archive::Archive, entries: Seq<EntryView>) -> bool {
    forall|i: int| 0 <= i < entries.len() ==> (spec_read_file(archive, #[trigger] entries[i].path) matches Some(Some(_)))
}

pub open spec fn spec_entry_data(archive: dream_archive::Archive, e: EntryView, hash_payloads: bool) -> DiffData {
    DiffData {
        path: e.path,
        size: e.size,
        compressed_size: e.compressed_size,
        payload_fingerprint: if hash_payloads { spec_payload_fingerprint(archive, e.path) } else { None },
    }
}

/// Entries keyed and sorted by normalized path; a later entry with the same path wins.
pub open spec fn spec_diff_table(archive: dream_archive::Archive, entries: Seq<EntryView>, hash_payloads: bool) -> Seq<(Seq<u8>, DiffData)>
    decreases entries.len(),
{
    if entries.len() == 0 {
        seq![]
    } else {
        let e = entries.last();
        sorted_insert(spec_diff_table(archive, entries.drop_last(), hash_payloads), e.path, spec_entry_data(archive, e, hash_payloads))
    }
}

pub open spec fn same_state(a: DiffData, b: DiffData) -> bool {
    a.size == b.size && a.compressed_size == b.compressed_size && a.payload_fingerprint == b.payload_fingerprint
}

pub open spec fn spec_diff_entry(d: DiffData) -> DiffEntryView {
    DiffEntryView {
        path: spec_lossy_display(d.path),
        path_bytes_hex: spec_hex_chars(d.path),
        size: d.size,
        compressed_size: d.compressed_size,
        payload_fingerprint: d.payload_fingerprint,
    }
}

pub open spec fn spec_state(d: DiffData) -> DiffStateView {
    DiffStateView { size: d.size, compressed_size: d.compressed_size, payload_fingerprint: d.payload_fingerprint }
}

/// Entries of `table` whose path the other side lacks, in path order.
pub open spec fn spec_missing(table: Seq<(Seq<u8>, DiffData)>, other: Map<Seq<u8>, DiffData>) -> Seq<DiffEntryView>
    decreases table.len(),
{
    if table.len() == 0 {
        seq![]
    } else {
        let init = spec_missing(table.drop_last(), other);
        let last = table.last();
        if other.contains_key(last.0) {
            init
        } else {
            init.push(spec_diff_entry(last.1))
        }
    }
}

/// Entries of `table` present on the other side with a different state, in path order.
pub open spec fn spec_changed(table: Seq<(Seq<u8>, DiffData)>, other: Map<Seq<u8>, DiffData>) -> Seq<DiffChangeView>
    decreases table.len(),
{
    if table.len() == 0 {
        seq![]
    } else {
        let init = spec_changed(table.drop_last(), other);
        let last = table.last();
        if other.contains_key(last.0) && !same_state(last.1, other[last.0]) {
            init.push(DiffChangeView {
                path: spec_lossy_display(last.0),
                path_bytes_hex: spec_hex_chars(last.0),
                old: spec_state(last.1),
                new: spec_state(other[last.0]),
            })
        } else {
            init
        }
    }
}

/// Number of entries of `table` present on the other side with the same state.
pub open spec fn spec_unchanged(table: Seq<(Seq<u8>, DiffData)>, other: Map<Seq<u8>, DiffData>) -> nat
    decreases table.len(),
{
    if table.len() == 0 {
        0
    } else {
        let last = table.last();
        spec_unchanged(table.drop_last(), other) + if other.contains_key(last.0) && same_state(last.1, other[last.0]) { 1nat } else { 0nat }
    }
}

pub struct DiffReportView {
    pub old: Seq<char>,
    pub new: Seq<char>,
    pub hash_payloads: bool,
    pub added: Seq<DiffEntryView>,
    pub removed: Seq<DiffEntryView>,
    pub changed: Seq<DiffChangeView>,
    pub unchanged: nat,
}

impl View for DiffReport {
    type V = DiffReportView;

    open spec fn view(&self) -> DiffReportView {
        DiffReportView {
            old: self.old@,
            new: self.new@,
            hash_payloads: self.hash_payloads,
            added: self.added@.map_values(|e: DiffEntry| e@),
            removed: self.removed@.map_values(|e: DiffEntry| e@),
            changed: self.changed@.map_values(|c: DiffChange| c@),
            unchanged: self.unchanged as nat,
        }
    }
}

/// The report comparing an old table with a new one.
pub open spec fn spec_diff_report(
    old_label: Seq<char>,
    new_label: Seq<char>,
    hash_payloads: bool,
    old_table: Seq<(Seq<u8>, DiffData)>,
    new_table: Seq<(Seq<u8>, DiffData)>,
) -> DiffReportView {
    DiffReportView {
        old: old_label,
        new: new_label,
        hash_payloads,
        added: spec_missing(new_table, to_map(old_table)),
        removed: spec_missing(old_table, to_map(new_table)),
        changed: spec_changed(old_table, to_map(new_table)),
        unchanged: spec_unchanged(old_table, to_map(new_table)),
    }
}

fn copy_text(text: &Option<String>) -> (copy: Option<String>)
    ensures
        opt_text(copy) == opt_text(*text),
{
    match text {
        Some(t) => Some(String::from_str(t.as_str())),
        None => None,
    }
}

fn copy_bytes(bytes: &Vec<u8>) -> (copy: Vec<u8>)
    ensures
        copy@ == bytes@,
{
    let mut copy: Vec<u8> = Vec::new();
    let mut i: usize = 0;
    while i < bytes.len()
        invariant
            i <= bytes@.len(),
            copy@ == bytes@.take(i as int),
        decreases bytes@.len() - i,
    {
        copy.push(bytes[i]);
        assert(bytes@.take(i as int + 1) =~= bytes@.take(i as int).push(bytes@[i as int]));
        i = i + 1;
    }
    assert(bytes@.take(bytes@.len() as int) =~= bytes@);
    copy
}

/// Key and sort the entries of one archive, fingerprinting payloads when asked.
pub fn diff_entries(archive: &LoadedArchive, hash_payloads: bool) -> (r: Result<ByteMap<DiffEntryData>>)
    ensures
        r is Ok <==> !hash_payloads || payloads_readable(archive.source(), archive@.entries),
        r matches Ok(m) ==> sorted_keys(m@)
            && m@.map_values(|e: (Seq<u8>, DiffEntryData)| (e.0, e.1@)) == spec_diff_table(archive.source(), archive@.entries, hash_payloads),
{
    let entries = archive.list_loaded_entries();
    let ghost all = archive@.entries;
    let mut table: ByteMap<DiffEntryData> = ByteMap::new();
    let mut i: usize = 0;
    assert(all.take(0) =~= Seq::<EntryView>::empty());
    assert(table@.map_values(|e: (Seq<u8>, DiffEntryData)| (e.0, e.1@)) =~= Seq::<(Seq<u8>, DiffData)>::empty());
    while i < entries.len()
        invariant
            all == archive@.entries,
            entries@.map_values(|e: LoadedEntry| e@) == all,
            i <= entries@.len(),
            sorted_keys(table@),
            table@.map_values(|e: (Seq<u8>, DiffEntryData)| (e.0, e.1@)) == spec_diff_table(archive.source(), all.take(i as int), hash_payloads),
            hash_payloads ==> forall|k: int| 0 <= k < i ==> (spec_read_file(archive.source(), #[trigger] all[k].path) matches Some(Some(_))),
        decreases entries@.len() - i,
    {
        assert(all.take(i as int + 1).drop_last() =~= all.take(i as int));
        assert(all.take(i as int + 1).last() == entries@[i as int]@);
        let entry = &entries[i];
        let payload_fingerprint = if hash_payloads {
            assert(all[i as int] == entry@);
            let bytes = match archive.read_entry_bytes_by_normalized_path(entry.path.as_slice()) {
                Ok(b) => b,
                Err(e) => {
                    assert(!(spec_read_file(archive.source(), all[i as int].path) matches Some(Some(_))));
                    assert(!payloads_readable(archive.source(), all));
                    return Err(e);
                },
            };
            Some(hash_text(fnv1a64(bytes.as_slice())))
        } else {
            None
        };
        let data = DiffEntryData {
            path: copy_bytes(&entry.path),
            size: entry.size,
            compressed_size: entry.compressed_size,
            payload_fingerprint,
        };
        let ghost before = table@;
        let ghost dv = data@;
        assert(dv == spec_entry_data(archive.source(), entry@, hash_payloads));
        table.insert(copy_bytes(&entry.path), data);
        proof {
            lemma_map_values_sorted_insert(before, entry.path@, data);
        }
        i = i + 1;
    }
    assert(all.take(entries@.len() as int) =~= all);
    Ok(table)
}

/// Projecting the values commutes with sorted insertion.
pub proof fn lemma_map_values_sorted_insert(s: Seq<(Seq<u8>, DiffEntryData)>, k: Seq<u8>, v: DiffEntryData)
    ensures
        sorted_insert(s, k, v).map_values(|e: (Seq<u8>, DiffEntryData)| (e.0, e.1@))
            == sorted_insert(s.map_values(|e: (Seq<u8>, DiffEntryData)| (e.0, e.1@)), k, v@),
    decreases s.len(),
{
    let f = |e: (Seq<u8>, DiffEntryData)| (e.0, e.1@);
    if s.len() == 0 {
        assert(sorted_insert(s, k, v).map_values(f) =~= seq![(k, v@)]);
    } else {
        let t = s.map_values(f);
        assert(t[0].0 == s[0].0);
        if s[0].0 == k {
            assert(sorted_insert(s, k, v).map_values(f) =~= seq![(k, v@)] + t.drop_first());
        } else if crate::byte_map::lex_lt(k, s[0].0) {
            assert(sorted_insert(s, k, v).map_values(f) =~= seq![(k, v@)] + t);
        } else {
            lemma_map_values_sorted_insert(s.drop_first(), k, v);
            assert(s.drop_first().map_values(f) =~= t.drop_first());
            assert(sorted_insert(s, k, v).map_values(f) =~= seq![t[0]] + sorted_insert(t.drop_first(), k, v@));
        }
    }
}

fn diff_entry(d: &DiffEntryData) -> (e: DiffEntry)
    ensures
        e@ == spec_diff_entry(d@),
{
    DiffEntry {
        path: archive_path_bytes_to_display(d.path.as_slice()),
        path_bytes_hex: archive_path_bytes_to_hex(d.path.as_slice()),
        size: d.size,
        compressed_size: d.compressed_size,
        payload_fingerprint: copy_text(&d.payload_fingerprint),
    }
}

fn entry_state(d: &DiffEntryData) -> (s: DiffEntryState)
    ensures
        s@ == spec_state(d@),
{
    DiffEntryState { size: d.size, compressed_size: d.compressed_size, payload_fingerprint: copy_text(&d.payload_fingerprint) }
}

fn same_text(a: &Option<String>, b: &Option<String>) -> (same: bool)
    ensures
        same <==> opt_text(*a) == opt_text(*b),
{
    match (a, b) {
        (Some(x), Some(y)) => {
            let xb = x.as_str().as_bytes();
            let yb = y.as_str().as_bytes();
            let same = crate::byte_map::compare_bytes(xb, yb) == crate::byte_map::ByteOrder::Equal;
            proof {
                if same {
                    vstd::utf8::encode_utf8_decode_utf8(x@);
                    vstd::utf8::encode_utf8_decode_utf8(y@);
                }
            }
            same
        },
        (None, None) => true,
        _ => false,
    }
}

fn same_entry_state(left: &DiffEntryData, right: &DiffEntryData) -> (same: bool)
    ensures
        same <==> same_state(left@, right@),
{
    left.size == right.size && left.compressed_size == right.compressed_size && same_text(&left.payload_fingerprint, &right.payload_fingerprint)
}

/// Project a table to its values' views.
pub open spec fn table_view(m: Seq<(Seq<u8>, DiffEntryData)>) -> Seq<(Seq<u8>, DiffData)> {
    m.map_values(|e: (Seq<u8>, DiffEntryData)| (e.0, e.1@))
}

pub proof fn lemma_table_view_map(m: Seq<(Seq<u8>, DiffEntryData)>, k: Seq<u8>)
    requires
        sorted_keys(m),
    ensures
        sorted_keys(table_view(m)),
        to_map(table_view(m)).contains_key(k) <==> to_map(m).contains_key(k),
        to_map(m).contains_key(k) ==> to_map(table_view(m))[k] == to_map(m)[k]@,
{
    let t = table_view(m);
    assert forall|i: int, j: int| 0 <= i < j < t.len() implies crate::byte_map::lex_lt(#[trigger] t[i].0, #[trigger] t[j].0) by {
        assert(t[i].0 == m[i].0);
        assert(t[j].0 == m[j].0);
    }
    crate::byte_map::lemma_to_map_dom(t, k);
    crate::byte_map::lemma_to_map_dom(m, k);
    if crate::byte_map::has_key(m, k) {
        let i = choose|i: int| 0 <= i < m.len() && (#[trigger] m[i]).0 == k;
        assert(t[i].0 == k);
        crate::byte_map::lemma_to_map_at(m, i);
        crate::byte_map::lemma_to_map_at(t, i);
    }
    if crate::byte_map::has_key(t, k) {
        let i = choose|i: int| 0 <= i < t.len() && (#[trigger] t[i]).0 == k;
        assert(m[i].0 == k);
    }
}

/// Compare two loaded archives.
pub fn diff_loaded_archives(
    old_label: &str,
    old: &LoadedArchive,
    new_label: &str,
    new: &LoadedArchive,
    options: &DiffOptions,
) -> (r: Result<DiffReport>)
    ensures
        r is Ok <==> !options.hash_payloads || (payloads_readable(old.source(), old@.entries) && payloads_readable(new.source(), new@.entries)),
        r matches Ok(report) ==> report@ == spec_diff_report(
            old_label@,
            new_label@,
            options.hash_payloads,
            spec_diff_table(old.source(), old@.entries, options.hash_payloads),
            spec_diff_table(new.source(), new@.entries, options.hash_payloads),
        ),
{
    let old_entries = diff_entries(old, options.hash_payloads)?;
    let new_entries = diff_entries(new, options.hash_payloads)?;
    let ghost ot = table_view(old_entries@);
    let ghost nt = table_view(new_entries@);
    let ghost om = to_map(ot);
    let ghost nm = to_map(nt);
    let mut added: Vec<DiffEntry> = Vec::new();
    let mut removed: Vec<DiffEntry> = Vec::new();
    let mut changed: Vec<DiffChange> = Vec::new();
    let mut unchanged: usize = 0;
    let mut i: usize = 0;
    assert(ot.take(0) =~= Seq::<(Seq<u8>, DiffData)>::empty());
    assert(removed@.map_values(|e: DiffEntry| e@) =~= Seq::<DiffEntryView>::empty());
    assert(changed@.map_values(|c: DiffChange| c@) =~= Seq::<DiffChangeView>::empty());
    while i < old_entries.len()
        invariant
            sorted_keys(old_entries@),
            sorted_keys(new_entries@),
            ot == table_view(old_entries@),
            nt == table_view(new_entries@),
            nm == to_map(nt),
            i <= old_entries@.len(),
            removed@.map_values(|e: DiffEntry| e@) == spec_missing(ot.take(i as int), nm),
            changed@.map_values(|c: DiffChange| c@) == spec_changed(ot.take(i as int), nm),
            unchanged == spec_unchanged(ot.take(i as int), nm),
            unchanged <= i,
        decreases old_entries@.len() - i,
    {
        let (path, data) = old_entries.entry_at(i);
        assert(ot.take(i as int + 1).drop_last() =~= ot.take(i as int));
        assert(ot.take(i as int + 1).last() == (path@, data@));
        proof {
            lemma_table_view_map(new_entries@, path@);
        }
        let ghost r0 = removed@.map_values(|e: DiffEntry| e@);
        let ghost c0 = changed@.map_values(|c: DiffChange| c@);
        match new_entries.get(path.as_slice()) {
            Some(new_data) => {
                if same_entry_state(data, new_data) {
                    unchanged = unchanged + 1;
                } else {
                    let change = DiffChange {
                        path: archive_path_bytes_to_display(path.as_slice()),
                        path_bytes_hex: archive_path_bytes_to_hex(path.as_slice()),
                        old: entry_state(data),
                        new: entry_state(new_data),
                    };
                    changed.push(change);
                    assert(changed@.map_values(|c: DiffChange| c@) =~= c0.push(change@));
                }
            },
            None => {
                let e = diff_entry(data);
                removed.push(e);
                assert(removed@.map_values(|e: DiffEntry| e@) =~= r0.push(e@));
            },
        }
        i = i + 1;
    }
    assert(ot.take(old_entries@.len() as int) =~= ot);
    let mut j: usize = 0;
    assert(nt.take(0) =~= Seq::<(Seq<u8>, DiffData)>::empty());
    assert(added@.map_values(|e: DiffEntry| e@) =~= Seq::<DiffEntryView>::empty());
    while j < new_entries.len()
        invariant
            sorted_keys(old_entries@),
            sorted_keys(new_entries@),
            ot == table_view(old_entries@),
            nt == table_view(new_entries@),
            om == to_map(ot),
            j <= new_entries@.len(),
            added@.map_values(|e: DiffEntry| e@) == spec_missing(nt.take(j as int), om),
        decreases new_entries@.len() - j,
    {
        let (path, data) = new_entries.entry_at(j);
        assert(nt.take(j as int + 1).drop_last() =~= nt.take(j as int));
        assert(nt.take(j as int + 1).last() == (path@, data@));
        proof {
            lemma_table_view_map(old_entries@, path@);
        }
        let ghost a0 = added@.map_values(|e: DiffEntry| e@);
        if !old_entries.contains_key(path.as_slice()) {
            let e = diff_entry(data);
            added.push(e);
            assert(added@.map_values(|e: DiffEntry| e@) =~= a0.push(e@));
        }
        j = j + 1;
    }
    assert(nt.take(new_entries@.len() as int) =~= nt);
    Ok(DiffReport {
        old: String::from_str(old_label),
        new: String::from_str(new_label),
        hash_payloads: options.hash_payloads,
        added,
        removed,
        changed,
        unchanged,
    })
}

/// Compare two archives, given their labels and file bytes, by normalized path
/// bytes and listed metadata, optionally fingerprinting payloads.
pub fn diff_archives(
    old_label: &str,
    old_bytes: Vec<u8>,
    new_label: &str,
    new_bytes: Vec<u8>,
    options: &DiffOptions,
) -> (r: Result<DiffReport>)
    ensures
        spec_open_index(old_bytes@) is None || spec_open_index(new_bytes@) is None ==> r is Err,
        spec_open_index(old_bytes@) matches Some(o) ==> (spec_open_index(new_bytes@) matches Some(n) ==> (
            (r is Ok <==> !options.hash_payloads || (payloads_readable(o.archive, o.index.entries) && payloads_readable(n.archive, n.index.entries)))
            && (r matches Ok(report) ==> report@ == spec_diff_report(
                old_label@,
                new_label@,
                options.hash_payloads,
                spec_diff_table(o.archive, o.index.entries, options.hash_payloads),
                spec_diff_table(n.archive, n.index.entries, options.hash_payloads),
            )))),
{
    let old = LoadedArchive::open(old_label, old_bytes)?;
    let new = LoadedArchive::open(new_label, new_bytes)?;
    diff_loaded_archives(old_label, &old, new_label, &new, options)
}

/// Every entry of the old side's table is reported exactly once: removed, changed
/// or counted as unchanged.
pub proof fn law_diff_partitions_old_side(table: Seq<(Seq<u8>, DiffData)>, other: Map<Seq<u8>, DiffData>)
    ensures
        spec_missing(table, other).len() + spec_changed(table, other).len() + spec_unchanged(table, other) == table.len(),
    decreases table.len(),
{
    if table.len() > 0 {
        law_diff_partitions_old_side(table.drop_last(), other);
    }
}

/// Comparing a table with itself reports nothing added, removed or changed, and
/// every entry as unchanged.
pub proof fn law_diff_self_is_unchanged(table: Seq<(Seq<u8>, DiffData)>)
    requires
        sorted_keys(table),
    ensures
        spec_missing(table, to_map(table)).len() == 0,
        spec_changed(table, to_map(table)).len() == 0,
        spec_unchanged(table, to_map(table)) == table.len(),
{
    lemma_self_compare(table, table.len() as int);
    assert(table.take(table.len() as int) =~= table);
}

proof fn lemma_self_compare(table: Seq<(Seq<u8>, DiffData)>, n: int)
    requires
        sorted_keys(table),
        0 <= n <= table.len(),
    ensures
        spec_missing(table.take(n), to_map(table)).len() == 0,
        spec_changed(table.take(n), to_map(table)).len() == 0,
        spec_unchanged(table.take(n), to_map(table)) == n,
    decreases n,
{
    if n > 0 {
        lemma_self_compare(table, n - 1);
        assert(table.take(n).drop_last() =~= table.take(n - 1));
        assert(table.take(n).last() == table[n - 1]);
        crate::byte_map::lemma_to_map_at(table, n - 1);
    }
}

/// A change seen from the other side: old and new swapped.
pub open spec fn swapped_change(c: DiffChangeView) -> DiffChangeView {
    DiffChangeView { path: c.path, path_bytes_hex: c.path_bytes_hex, old: c.new, new: c.old }
}

/// The comparison of a table against a map depends on the map only at the
/// table's keys.
proof fn lemma_compare_congruent(table: Seq<(Seq<u8>, DiffData)>, m1: Map<Seq<u8>, DiffData>, m2: Map<Seq<u8>, DiffData>)
    requires
        forall|i: int| 0 <= i < table.len() ==> (m1.contains_key(#[trigger] table[i].0) <==> m2.contains_key(table[i].0))
            && (m1.contains_key(table[i].0) ==> m1[table[i].0] == m2[table[i].0]),
    ensures
        spec_changed(table, m1) == spec_changed(table, m2),
        spec_unchanged(table, m1) == spec_unchanged(table, m2),
    decreases table.len(),
{
    if table.len() > 0 {
        let init = table.drop_last();
        assert forall|i: int| 0 <= i < init.len() implies (m1.contains_key(#[trigger] init[i].0) <==> m2.contains_key(init[i].0))
            && (m1.contains_key(init[i].0) ==> m1[init[i].0] == m2[init[i].0]) by {
            assert(init[i] == table[i]);
        }
        lemma_compare_congruent(init, m1, m2);
        assert(table.last() == table[table.len() - 1]);
    }
}

proof fn lemma_sorted_init(table: Seq<(Seq<u8>, DiffData)>)
    requires
        sorted_keys(table),
        table.len() > 0,
    ensures
        sorted_keys(table.drop_last()),
        forall|i: int| 0 <= i < table.len() - 1 ==> lex_lt(#[trigger] table.drop_last()[i].0, table.last().0),
{
    let init = table.drop_last();
    assert forall|a: int, b: int| 0 <= a < b < init.len() implies lex_lt(#[trigger] init[a].0, #[trigger] init[b].0) by {
        assert(init[a] == table[a]);
        assert(init[b] == table[b]);
    }
    assert forall|i: int| 0 <= i < table.len() - 1 implies lex_lt(#[trigger] table.drop_last()[i].0, table.last().0) by {
        assert(init[i] == table[i]);
        assert(table.last() == table[table.len() - 1]);
    }
}

/// Every key of `table` lies strictly below `k`, so `k` is none of them.
proof fn lemma_below_not_key(table: Seq<(Seq<u8>, DiffData)>, k: Seq<u8>, m1: Map<Seq<u8>, DiffData>, v: DiffData)
    requires
        forall|i: int| 0 <= i < table.len() ==> lex_lt(#[trigger] table[i].0, k),
    ensures
        forall|i: int| 0 <= i < table.len() ==> (m1.insert(k, v).contains_key(#[trigger] table[i].0) <==> m1.contains_key(table[i].0))
            && (m1.insert(k, v).contains_key(table[i].0) ==> m1.insert(k, v)[table[i].0] == m1[table[i].0]),
{
    assert forall|i: int| 0 <= i < table.len() implies table[i].0 != k by {
        lemma_lex_irreflexive(k);
    }
}

/// Comparing against an empty side finds nothing changed or unchanged.
proof fn lemma_compare_empty(table: Seq<(Seq<u8>, DiffData)>)
    ensures
        spec_changed(table, Map::empty()) == Seq::<DiffChangeView>::empty(),
        spec_unchanged(table, Map::empty()) == 0,
    decreases table.len(),
{
    if table.len() > 0 {
        lemma_compare_empty(table.drop_last());
    }
}

/// Swapping the sides of a comparison swaps old and new in every change, in
/// the same path order, and keeps the unchanged count.
proof fn lemma_compare_swapped(a: Seq<(Seq<u8>, DiffData)>, b: Seq<(Seq<u8>, DiffData)>)
    requires
        sorted_keys(a),
        sorted_keys(b),
    ensures
        spec_changed(a, to_map(b)) == spec_changed(b, to_map(a)).map_values(|c: DiffChangeView| swapped_change(c)),
        spec_unchanged(a, to_map(b)) == spec_unchanged(b, to_map(a)),
    decreases a.len() + b.len(),
{
    if a.len() == 0 {
        lemma_compare_empty(b);
        assert(to_map(a) == Map::<Seq<u8>, DiffData>::empty());
        assert(spec_changed(b, to_map(a)).map_values(|c: DiffChangeView| swapped_change(c)) =~= Seq::<DiffChangeView>::empty());
    } else if b.len() == 0 {
        lemma_compare_empty(a);
        assert(to_map(b) == Map::<Seq<u8>, DiffData>::empty());
        assert(spec_changed(b, to_map(a)) =~= Seq::<DiffChangeView>::empty());
        assert(spec_changed(b, to_map(a)).map_values(|c: DiffChangeView| swapped_change(c)) =~= Seq::<DiffChangeView>::empty());
    } else {
        let a0 = a.drop_last();
        let b0 = b.drop_last();
        let ka = a.last().0;
        let kb = b.last().0;
        lemma_sorted_init(a);
        lemma_sorted_init(b);
        lemma_lex_total(ka, kb);
        if ka == kb {
            // Both sides end with the same path.
            lemma_below_not_key(a0, kb, to_map(b0), b.last().1);
            lemma_compare_congruent(a0, to_map(b), to_map(b0));
            lemma_below_not_key(b0, ka, to_map(a0), a.last().1);
            lemma_compare_congruent(b0, to_map(a), to_map(a0));
            lemma_compare_swapped(a0, b0);
            assert(to_map(b).contains_key(ka) && to_map(b)[ka] == b.last().1);
            assert(to_map(a).contains_key(kb) && to_map(a)[kb] == a.last().1);
            let f = |c: DiffChangeView| swapped_change(c);
            let cb0 = spec_changed(b0, to_map(a0));
            if !same_state(a.last().1, b.last().1) {
                let cb = cb0.push(DiffChangeView {
                    path: spec_lossy_display(kb),
                    path_bytes_hex: spec_hex_chars(kb),
                    old: spec_state(b.last().1),
                    new: spec_state(a.last().1),
                });
                assert(spec_changed(b, to_map(a)) == cb);
                assert(cb.map_values(f) =~= cb0.map_values(f).push(f(cb.last())));
            }
        } else if lex_lt(kb, ka) {
            // The old side's last path is on the old side only.
            assert forall|i: int| 0 <= i < b.len() implies lex_lt(#[trigger] b[i].0, ka) by {
                if i < b.len() - 1 {
                    assert(b[i] == b0[i]);
                    lemma_lex_transitive(b[i].0, kb, ka);
                }
            }
            assert(!to_map(b).contains_key(ka)) by {
                lemma_to_map_dom(b, ka);
                if has_key(b, ka) {
                    let j = choose|j: int| 0 <= j < b.len() && (#[trigger] b[j]).0 == ka;
                    lemma_lex_irreflexive(ka);
                }
            }
            lemma_below_not_key(b, ka, to_map(a0), a.last().1);
            lemma_compare_congruent(b, to_map(a), to_map(a0));
            lemma_compare_swapped(a0, b);
        } else {
            // The new side's last path is on the new side only.
            assert forall|i: int| 0 <= i < a.len() implies lex_lt(#[trigger] a[i].0, kb) by {
                if i < a.len() - 1 {
                    assert(a[i] == a0[i]);
                    lemma_lex_transitive(a[i].0, ka, kb);
                }
            }
            assert(!to_map(a).contains_key(kb)) by {
                lemma_to_map_dom(a, kb);
                if has_key(a, kb) {
                    let j = choose|j: int| 0 <= j < a.len() && (#[trigger] a[j]).0 == kb;
                    lemma_lex_irreflexive(kb);
                }
            }
            lemma_below_not_key(a, kb, to_map(b0), b.last().1);
            lemma_compare_congruent(a, to_map(b), to_map(b0));
            lemma_compare_swapped(a, b0);
        }
    }
}

/// The change reported for an entry of `table` against the other side.
pub open spec fn change_against(entry: (Seq<u8>, DiffData), other: Map<Seq<u8>, DiffData>) -> DiffChangeView {
    DiffChangeView {
        path: spec_lossy_display(entry.0),
        path_bytes_hex: spec_hex_chars(entry.0),
        old: spec_state(entry.1),
        new: spec_state(other[entry.0]),
    }
}

/// An entry of `table` whose path the other side has with another state is
/// among the changes and adds nothing to the unchanged count.
proof fn lemma_changed_entry(table: Seq<(Seq<u8>, DiffData)>, other: Map<Seq<u8>, DiffData>, i: int)
    requires
        0 <= i < table.len(),
        other.contains_key(table[i].0),
        !same_state(table[i].1, other[table[i].0]),
    ensures
        exists|k: int| 0 <= k < spec_changed(table, other).len()
            && #[trigger] spec_changed(table, other)[k] == change_against(table[i], other),
        spec_unchanged(table, other) == spec_unchanged(table.remove(i), other),
        spec_changed(table, other).len() == spec_changed(table.remove(i), other).len() + 1,
    decreases table.len(),
{
    let init = table.drop_last();
    if i == table.len() - 1 {
        assert(table.remove(i) =~= init);
        assert(table.last() == table[i]);
        let c = spec_changed(table, other);
        assert(c[c.len() - 1] == change_against(table[i], other));
    } else {
        lemma_changed_entry(init, other, i);
        assert(init[i] == table[i]);
        assert(table.remove(i).drop_last() =~= init.remove(i));
        assert(table.remove(i).last() == table.last());
        let k = choose|k: int| 0 <= k < spec_changed(init, other).len()
            && #[trigger] spec_changed(init, other)[k] == change_against(init[i], other);
        assert(spec_changed(table, other)[k] == change_against(table[i], other));
    }
}

/// An entry both archives list whose size, compressed size or payload
/// fingerprint differs is reported as changed, with the old archive's values as
/// `old` and the new archive's as `new`; it is not counted as unchanged.
pub proof fn law_diff_reports_differing_entry(
    old_label: Seq<char>,
    new_label: Seq<char>,
    hash_payloads: bool,
    old_table: Seq<(Seq<u8>, DiffData)>,
    new_table: Seq<(Seq<u8>, DiffData)>,
    i: int,
    j: int,
)
    requires
        sorted_keys(new_table),
        0 <= i < old_table.len(),
        0 <= j < new_table.len(),
        old_table[i].0 == new_table[j].0,
        old_table[i].1.size != new_table[j].1.size
            || old_table[i].1.compressed_size != new_table[j].1.compressed_size
            || old_table[i].1.payload_fingerprint != new_table[j].1.payload_fingerprint,
    ensures
        ({
            let report = spec_diff_report(old_label, new_label, hash_payloads, old_table, new_table);
            &&& exists|k: int| 0 <= k < report.changed.len() && #[trigger] report.changed[k] == (DiffChangeView {
                path: spec_lossy_display(old_table[i].0),
                path_bytes_hex: spec_hex_chars(old_table[i].0),
                old: DiffStateView {
                    size: old_table[i].1.size,
                    compressed_size: old_table[i].1.compressed_size,
                    payload_fingerprint: old_table[i].1.payload_fingerprint,
                },
                new: DiffStateView {
                    size: new_table[j].1.size,
                    compressed_size: new_table[j].1.compressed_size,
                    payload_fingerprint: new_table[j].1.payload_fingerprint,
                },
            })
            &&& report.unchanged == spec_unchanged(old_table.remove(i), to_map(new_table))
            &&& report.changed.len() == spec_changed(old_table.remove(i), to_map(new_table)).len() + 1
        }),
{
    crate::byte_map::lemma_to_map_at(new_table, j);
    lemma_changed_entry(old_table, to_map(new_table), i);
}

/// The keyed table of an archive is sorted by path.
pub proof fn lemma_diff_table_sorted(archive: dream_archive::Archive, entries: Seq<EntryView>, hash_payloads: bool)
    ensures
        sorted_keys(spec_diff_table(archive, entries, hash_payloads)),
    decreases entries.len(),
{
    if entries.len() > 0 {
        let e = entries.last();
        lemma_diff_table_sorted(archive, entries.drop_last(), hash_payloads);
        lemma_sorted_insert(spec_diff_table(archive, entries.drop_last(), hash_payloads), e.path, spec_entry_data(archive, e, hash_payloads));
    }
}

/// Comparing the new archive with the old one reports the same comparison seen
/// from the other side: added and removed trade places, each change has old and
/// new swapped, in the same path order, and the unchanged count is kept.
pub proof fn law_diff_swapped_sides(
    old_label: Seq<char>,
    new_label: Seq<char>,
    hash_payloads: bool,
    old_archive: dream_archive::Archive,
    old_entries: Seq<EntryView>,
    new_archive: dream_archive::Archive,
    new_entries: Seq<EntryView>,
)
    ensures
        ({
            let old_table = spec_diff_table(old_archive, old_entries, hash_payloads);
            let new_table = spec_diff_table(new_archive, new_entries, hash_payloads);
            let x = spec_diff_report(old_label, new_label, hash_payloads, old_table, new_table);
            let y = spec_diff_report(new_label, old_label, hash_payloads, new_table, old_table);
            &&& x.added == y.removed
            &&& x.removed == y.added
            &&& x.unchanged == y.unchanged
            &&& x.changed.len() == y.changed.len()
            &&& forall|i: int| 0 <= i < x.changed.len() ==> #[trigger] x.changed[i] == swapped_change(y.changed[i])
        }),
{
    lemma_diff_table_sorted(old_archive, old_entries, hash_payloads);
    lemma_diff_table_sorted(new_archive, new_entries, hash_payloads);
    lemma_compare_swapped(
        spec_diff_table(old_archive, old_entries, hash_payloads),
        spec_diff_table(new_archive, new_entries, hash_payloads),
    );
}

} // verus!
