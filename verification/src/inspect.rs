//! Depth-bounded inspection of a directory listing.
//!
//! The caller walks the directory tree and hands over one [`EntryInfo`] per
//! visited filesystem object, in the walk's pre-order, each carrying its
//! depth below the root (the root itself has depth 0), its display name and
//! its metadata. [`inspect`] classifies every entry within the depth bound
//! as a folder or a file, emits one [`Record`] per entry, and accumulates
//! the aggregate summary: total file size, folder count, and per-extension
//! file counts.

use vstd::prelude::*;
use vstd::string::*;

verus! {

/// A wall-clock timestamp, already converted to local time by the caller.
#[derive(Clone, Copy, PartialEq, Eq, Structural, Debug)]
pub struct Timestamp {
    pub year: u16,
    pub month: u8,
    pub day: u8,
    pub hour: u8,
    pub minute: u8,
}

/// What kind of filesystem object an entry is, with the metadata that
/// only files carry.
#[derive(Clone, Copy, PartialEq, Eq, Debug)]
pub enum EntryKind {
    Folder,
    File { size: u64, readonly: bool, created: Timestamp },
}

/// One visited filesystem object, as the walking caller reports it.
#[derive(Clone, PartialEq, Eq, Debug)]
pub struct EntryInfo {
    /// Path segments between the inspection root and the entry; the root
    /// itself is 0, its immediate children are 1.
    pub depth: usize,
    /// The entry's file name (the last path segment).
    pub name: String,
    pub kind: EntryKind,
}

/// Spec-level mirror of [`EntryKind`].
pub ghost enum KindView {
    Folder,
    File { size: u64, readonly: bool, created: Timestamp },
}

/// Spec-level mirror of [`EntryInfo`].
pub ghost struct EntryView {
    pub depth: usize,
    pub name: Seq<char>,
    pub kind: KindView,
}

impl View for EntryInfo {
    type V = EntryView;

    open spec fn view(&self) -> EntryView {
        EntryView {
            depth: self.depth,
            name: self.name@,
            kind: match self.kind {
                EntryKind::Folder => KindView::Folder,
                EntryKind::File { size, readonly, created } => KindView::File {
                    size,
                    readonly,
                    created,
                },
            },
        }
    }
}

impl DeepView for EntryInfo {
    type V = EntryView;

    open spec fn deep_view(&self) -> EntryView {
        self.view()
    }
}

/// The kind-specific part of an emitted record; files additionally carry
/// their derived extension token.
#[derive(Clone, PartialEq, Eq, Debug)]
pub enum RecordKind {
    Folder,
    File { size: u64, readonly: bool, created: Timestamp, extension: String },
}

/// One emitted record: the per-entry output of an inspection.
#[derive(Clone, PartialEq, Eq, Debug)]
pub struct Record {
    pub depth: usize,
    pub name: String,
    pub kind: RecordKind,
}

/// Spec-level mirror of [`RecordKind`].
pub ghost enum RecordKindView {
    Folder,
    File { size: u64, readonly: bool, created: Timestamp, extension: Seq<char> },
}

/// Spec-level mirror of [`Record`].
pub ghost struct RecordView {
    pub depth: usize,
    pub name: Seq<char>,
    pub kind: RecordKindView,
}

impl View for Record {
    type V = RecordView;

    open spec fn view(&self) -> RecordView {
        RecordView {
            depth: self.depth,
            name: self.name@,
            kind: match self.kind {
                RecordKind::Folder => RecordKindView::Folder,
                RecordKind::File { size, readonly, created, ref extension } => RecordKindView::File {
                    size,
                    readonly,
                    created,
                    extension: extension@,
                },
            },
        }
    }
}

impl DeepView for Record {
    type V = RecordView;

    open spec fn deep_view(&self) -> RecordView {
        self.view()
    }
}

/// One bucket of the per-extension file counts.
#[derive(Clone, PartialEq, Eq, Debug)]
pub struct ExtCount {
    pub extension: String,
    pub count: u64,
}

/// Spec-level mirror of [`ExtCount`].
pub ghost struct ExtCountView {
    pub extension: Seq<char>,
    pub count: int,
}

impl View for ExtCount {
    type V = ExtCountView;

    open spec fn view(&self) -> ExtCountView {
        ExtCountView { extension: self.extension@, count: self.count as int }
    }
}

impl DeepView for ExtCount {
    type V = ExtCountView;

    open spec fn deep_view(&self) -> ExtCountView {
        self.view()
    }
}

/// The extension token of a file without one.
pub open spec fn other_token() -> Seq<char> {
    seq!['o', 't', 'h', 'e', 'r']
}

/// The position of the last `'.'` of `name` within `1..=upto`, or `-1` if
/// there is none. A dot at position 0 (a leading-dot hidden file with no
/// further dot) does not begin an extension.
pub open spec fn last_dot_from(name: Seq<char>, upto: int) -> int
    decreases upto,
{
    if upto < 1 {
        -1
    } else if name[upto] == '.' {
        upto
    } else {
        last_dot_from(name, upto - 1)
    }
}

/// The extension token of a file name: the characters after the last `'.'`,
/// except that a name with no dot past its first character — and the special
/// name `".."` — has no extension and is bucketed under `"other"`.
pub open spec fn extension_spec(name: Seq<char>) -> Seq<char> {
    if name == seq!['.', '.'] {
        other_token()
    } else {
        let p = last_dot_from(name, name.len() - 1);
        if p >= 1 {
            name.subrange(p + 1, name.len() as int)
        } else {
            other_token()
        }
    }
}

proof fn lemma_last_dot_found(name: Seq<char>, upto: int, at: int)
    requires
        1 <= at <= upto < name.len(),
        name[at] == '.',
        forall|k: int| at < k <= upto ==> name[k] != '.',
    ensures
        last_dot_from(name, upto) == at,
    decreases upto,
{
    if upto > at {
        lemma_last_dot_found(name, upto - 1, at);
    }
}

proof fn lemma_last_dot_none(name: Seq<char>, upto: int)
    requires
        upto < name.len(),
        forall|k: int| 1 <= k <= upto ==> name[k] != '.',
    ensures
        last_dot_from(name, upto) == -1,
    decreases upto,
{
    if upto >= 1 {
        lemma_last_dot_none(name, upto - 1);
    }
}

fn other_string() -> (r: String)
    ensures
        r@ == other_token(),
{
    proof {
        reveal_strlit("other");
        assert("other"@ =~= other_token());
    }
    String::from_str("other")
}

/// Derives the extension token of a file name, as [`extension_spec`]
/// states: the characters after the last dot, or `"other"` where the name
/// has no dot past its first character.
pub fn extension_of(name: &str) -> (r: String)
    ensures
        r@ == extension_spec(name@),
{
    let n = name.unicode_len();
    if n == 2 && name.get_char(0) == '.' && name.get_char(1) == '.' {
        proof {
            assert(name@ =~= seq!['.', '.']);
        }
        return other_string();
    }
    proof {
        assert(name@ != seq!['.', '.']);
    }
    let mut j = n;
    while j > 1
        invariant
            j <= n,
            n == name@.len(),
            name@ != seq!['.', '.'],
            forall|k: int| j <= k < n ==> name@[k] != '.',
        decreases j,
    {
        j = j - 1;
        if name.get_char(j) == '.' {
            let r = String::from_str(name.substring_char(j + 1, n));
            proof {
                lemma_last_dot_found(name@, n - 1, j as int);
            }
            return r;
        }
    }
    proof {
        if n >= 1 {
            lemma_last_dot_none(name@, n - 1);
        }
    }
    other_string()
}

/// The aggregate summary and the per-entry records of one inspection.
#[derive(Clone, PartialEq, Eq, Debug)]
pub struct Report {
    /// One record per visited entry within the depth bound, in visit order.
    pub records: Vec<Record>,
    /// The sizes of all emitted files, summed.
    pub total_size: u64,
    /// How many folder records were emitted.
    pub folder_count: u64,
    /// How many file records were emitted per extension token, keyed
    /// uniquely, in order of first occurrence.
    pub ext_counts: Vec<ExtCount>,
}

/// Spec-level mirror of [`Report`].
pub ghost struct ReportView {
    pub records: Seq<RecordView>,
    pub total_size: int,
    pub folder_count: int,
    pub ext_counts: Seq<ExtCountView>,
}

impl View for Report {
    type V = ReportView;

    open spec fn view(&self) -> ReportView {
        ReportView {
            records: self.records.deep_view(),
            total_size: self.total_size as int,
            folder_count: self.folder_count as int,
            ext_counts: self.ext_counts.deep_view(),
        }
    }
}

/// Whether an entry is visited and emitted: the root (depth 0) never is,
/// nor is anything below the depth bound.
pub open spec fn qualifies(e: EntryView, d: int) -> bool {
    1 <= e.depth && e.depth <= d
}

/// The record emitted for one qualifying entry.
pub open spec fn record_of(e: EntryView) -> RecordView {
    match e.kind {
        KindView::Folder => RecordView { depth: e.depth, name: e.name, kind: RecordKindView::Folder },
        KindView::File { size, readonly, created } => RecordView {
            depth: e.depth,
            name: e.name,
            kind: RecordKindView::File {
                size,
                readonly,
                created,
                extension: extension_spec(e.name),
            },
        },
    }
}

/// The records an inspection of `entries` bounded by `d` emits, in order.
pub open spec fn emitted_records(entries: Seq<EntryView>, d: int) -> Seq<RecordView>
    decreases entries.len(),
{
    if entries.len() == 0 {
        Seq::empty()
    } else {
        let rest = emitted_records(entries.drop_last(), d);
        if qualifies(entries.last(), d) {
            rest.push(record_of(entries.last()))
        } else {
            rest
        }
    }
}

/// What one entry contributes to the total size: its size if it is an
/// emitted file, nothing otherwise.
pub open spec fn entry_size(e: EntryView, d: int) -> int {
    if qualifies(e, d) {
        match e.kind {
            KindView::File { size, .. } => size as int,
            KindView::Folder => 0,
        }
    } else {
        0
    }
}

/// The sum of the sizes of all emitted files.
pub open spec fn total_size_of(entries: Seq<EntryView>, d: int) -> int
    decreases entries.len(),
{
    if entries.len() == 0 {
        0
    } else {
        total_size_of(entries.drop_last(), d) + entry_size(entries.last(), d)
    }
}

/// Whether an entry counts as an emitted folder.
pub open spec fn is_emitted_folder(e: EntryView, d: int) -> bool {
    qualifies(e, d) && e.kind is Folder
}

/// Whether an entry counts as an emitted file.
pub open spec fn is_emitted_file(e: EntryView, d: int) -> bool {
    qualifies(e, d) && e.kind is File
}

/// How many folders an inspection emits.
pub open spec fn folder_count_of(entries: Seq<EntryView>, d: int) -> int
    decreases entries.len(),
{
    if entries.len() == 0 {
        0
    } else {
        folder_count_of(entries.drop_last(), d) + if is_emitted_folder(entries.last(), d) {
            1int
        } else {
            0int
        }
    }
}

/// How many files an inspection emits.
pub open spec fn file_count_of(entries: Seq<EntryView>, d: int) -> int
    decreases entries.len(),
{
    if entries.len() == 0 {
        0
    } else {
        file_count_of(entries.drop_last(), d) + if is_emitted_file(entries.last(), d) {
            1int
        } else {
            0int
        }
    }
}

/// The position of extension `ext` among the count buckets, or `-1` if it
/// has no bucket yet.
pub open spec fn find_bucket(counts: Seq<ExtCountView>, ext: Seq<char>) -> int
    decreases counts.len(),
{
    if counts.len() == 0 {
        -1
    } else if counts[0].extension == ext {
        0
    } else {
        let r = find_bucket(counts.drop_first(), ext);
        if r < 0 {
            -1
        } else {
            r + 1
        }
    }
}

/// One more file of extension `ext`: its bucket is incremented, or a fresh
/// bucket of count 1 is appended.
pub open spec fn tally(counts: Seq<ExtCountView>, ext: Seq<char>) -> Seq<ExtCountView> {
    let i = find_bucket(counts, ext);
    if i >= 0 {
        counts.update(i, ExtCountView { extension: ext, count: counts[i].count + 1 })
    } else {
        counts.push(ExtCountView { extension: ext, count: 1 })
    }
}

/// The per-extension file counts of an inspection, in order of first
/// occurrence.
pub open spec fn ext_counts_of(entries: Seq<EntryView>, d: int) -> Seq<ExtCountView>
    decreases entries.len(),
{
    if entries.len() == 0 {
        Seq::empty()
    } else {
        let rest = ext_counts_of(entries.drop_last(), d);
        let e = entries.last();
        if is_emitted_file(e, d) {
            tally(rest, extension_spec(e.name))
        } else {
            rest
        }
    }
}

/// The whole outcome of inspecting `entries` bounded by `d`.
pub open spec fn spec_report(entries: Seq<EntryView>, d: int) -> ReportView {
    ReportView {
        records: emitted_records(entries, d),
        total_size: total_size_of(entries, d),
        folder_count: folder_count_of(entries, d),
        ext_counts: ext_counts_of(entries, d),
    }
}

pub proof fn lemma_find_bucket_in_range(counts: Seq<ExtCountView>, ext: Seq<char>)
    ensures
        -1 <= find_bucket(counts, ext) < counts.len(),
        find_bucket(counts, ext) >= 0 ==> counts[find_bucket(counts, ext)].extension == ext,
    decreases counts.len(),
{
    if counts.len() > 0 && counts[0].extension != ext {
        lemma_find_bucket_in_range(counts.drop_first(), ext);
    }
}

proof fn lemma_find_bucket_of_scan(counts: Seq<ExtCountView>, ext: Seq<char>, i: int)
    requires
        0 <= i < counts.len(),
        counts[i].extension == ext,
        forall|k: int| 0 <= k < i ==> counts[k].extension != ext,
    ensures
        find_bucket(counts, ext) == i,
    decreases i,
{
    if i > 0 {
        lemma_find_bucket_of_scan(counts.drop_first(), ext, i - 1);
    }
}

proof fn lemma_find_bucket_none(counts: Seq<ExtCountView>, ext: Seq<char>)
    requires
        forall|k: int| 0 <= k < counts.len() ==> counts[k].extension != ext,
    ensures
        find_bucket(counts, ext) == -1,
    decreases counts.len(),
{
    if counts.len() > 0 {
        lemma_find_bucket_none(counts.drop_first(), ext);
    }
}

/// A prefix of the listing never sums to more than the whole listing:
/// entry sizes are never negative.
pub proof fn lemma_total_size_prefix_le(entries: Seq<EntryView>, d: int, i: int)
    requires
        0 <= i <= entries.len(),
    ensures
        total_size_of(entries.take(i), d) <= total_size_of(entries, d),
    decreases entries.len(),
{
    if i == entries.len() {
        assert(entries.take(i) =~= entries);
    } else {
        assert(entries.drop_last().take(i) =~= entries.take(i));
        lemma_total_size_prefix_le(entries.drop_last(), d, i);
    }
}

/// Extending the inspected listing by one entry extends each aggregate by
/// that entry's contribution.
pub proof fn lemma_aggregates_step(entries: Seq<EntryView>, d: int, i: int)
    requires
        0 <= i < entries.len(),
    ensures
        emitted_records(entries.take(i + 1), d) == if qualifies(entries[i], d) {
            emitted_records(entries.take(i), d).push(record_of(entries[i]))
        } else {
            emitted_records(entries.take(i), d)
        },
        total_size_of(entries.take(i + 1), d) == total_size_of(entries.take(i), d) + entry_size(
            entries[i],
            d,
        ),
        folder_count_of(entries.take(i + 1), d) == folder_count_of(entries.take(i), d) + if is_emitted_folder(
            entries[i],
            d,
        ) {
            1int
        } else {
            0int
        },
        file_count_of(entries.take(i + 1), d) == file_count_of(entries.take(i), d) + if is_emitted_file(
            entries[i],
            d,
        ) {
            1int
        } else {
            0int
        },
        ext_counts_of(entries.take(i + 1), d) == if is_emitted_file(entries[i], d) {
            tally(ext_counts_of(entries.take(i), d), extension_spec(entries[i].name))
        } else {
            ext_counts_of(entries.take(i), d)
        },
{
    let a = entries.take(i + 1);
    assert(a.drop_last() =~= entries.take(i));
    assert(a.last() == entries[i]);
}

fn bump_extension(counts: &mut Vec<ExtCount>, ext: &String, Ghost(bound): Ghost<int>)
    requires
        0 <= bound < u64::MAX,
        forall|j: int|
            0 <= j < old(counts)@.len() ==> old(counts).deep_view()[j].count <= bound,
    ensures
        final(counts).deep_view() == tally(old(counts).deep_view(), ext@),
        forall|j: int|
            0 <= j < final(counts)@.len() ==> final(counts).deep_view()[j].count <= bound + 1,
{
    let ghost orig = counts.deep_view();
    let n = counts.len();
    let mut k: usize = 0;
    while k < n
        invariant
            k <= n,
            n == counts@.len(),
            counts.deep_view() == orig,
            orig == old(counts).deep_view(),
            0 <= bound < u64::MAX,
            forall|j: int| 0 <= j < orig.len() ==> orig[j].count <= bound,
            forall|j: int| 0 <= j < k ==> orig[j].extension != ext@,
        decreases n - k,
    {
        if counts[k].extension == *ext {
            let c = counts[k].count;
            proof {
                assert(orig[k as int].count == c as int);
                assert(c < u64::MAX);
            }
            let fresh = ExtCount { extension: counts[k].extension.clone(), count: c + 1 };
            counts[k] = fresh;
            proof {
                lemma_find_bucket_of_scan(orig, ext@, k as int);
                assert(counts.deep_view() =~= orig.update(
                    k as int,
                    ExtCountView { extension: ext@, count: c as int + 1 },
                ));
            }
            return ;
        }
        k = k + 1;
    }
    proof {
        lemma_find_bucket_none(orig, ext@);
    }
    counts.push(ExtCount { extension: ext.clone(), count: 1 });
    proof {
        assert(counts.deep_view() =~= orig.push(ExtCountView { extension: ext@, count: 1 }));
    }
}

/// Inspects a directory listing: classifies every entry within the depth
/// bound, emits one record per entry in listing order, and accumulates the
/// total file size, the folder count and the per-extension file counts, as
/// [`spec_report`] states. Returns `None` exactly when the total size would
/// not fit in a `u64`.
pub fn inspect(entries: &Vec<EntryInfo>, max_depth: usize) -> (r: Option<Report>)
    ensures
        r is Some <==> total_size_of(entries.deep_view(), max_depth as int) <= u64::MAX,
        r is Some ==> r.unwrap()@ == spec_report(entries.deep_view(), max_depth as int),
{
    let ghost es = entries.deep_view();
    let ghost d = max_depth as int;
    let mut records: Vec<Record> = Vec::new();
    let mut total_size: u64 = 0;
    let mut folder_count: u64 = 0;
    let mut ext_counts: Vec<ExtCount> = Vec::new();
    let n = entries.len();
    let mut i: usize = 0;
    proof {
        assert(es.take(0) =~= Seq::<EntryView>::empty());
        assert(records.deep_view() =~= Seq::<RecordView>::empty());
        assert(ext_counts.deep_view() =~= Seq::<ExtCountView>::empty());
    }
    while i < n
        invariant
            i <= n,
            n == entries@.len(),
            es == entries.deep_view(),
            es.len() == n,
            d == max_depth as int,
            records.deep_view() == emitted_records(es.take(i as int), d),
            total_size as int == total_size_of(es.take(i as int), d),
            folder_count as int == folder_count_of(es.take(i as int), d),
            folder_count <= i,
            ext_counts.deep_view() == ext_counts_of(es.take(i as int), d),
            forall|j: int|
                0 <= j < ext_counts@.len() ==> ext_counts.deep_view()[j].count <= file_count_of(
                    es.take(i as int),
                    d,
                ),
            0 <= file_count_of(es.take(i as int), d) <= i,
        decreases n - i,
    {
        let entry = &entries[i];
        proof {
            assert(entry@ == es[i as int]);
            lemma_aggregates_step(es, d, i as int);
        }
        let ghost prev_records = records.deep_view();
        if 1 <= entry.depth && entry.depth <= max_depth {
            match entry.kind {
                EntryKind::Folder => {
                    folder_count = folder_count + 1;
                    records.push(
                        Record { depth: entry.depth, name: entry.name.clone(), kind: RecordKind::Folder },
                    );
                    proof {
                        assert(records.deep_view() =~= prev_records.push(record_of(es[i as int])));
                    }
                },
                EntryKind::File { size, readonly, created } => {
                    match total_size.checked_add(size) {
                        Some(new_total) => {
                            total_size = new_total;
                        },
                        None => {
                            proof {
                                lemma_total_size_prefix_le(es, d, i as int + 1);
                            }
                            return None;
                        },
                    }
                    let extension = extension_of(entry.name.as_str());
                    records.push(
                        Record {
                            depth: entry.depth,
                            name: entry.name.clone(),
                            kind: RecordKind::File {
                                size,
                                readonly,
                                created,
                                extension: extension.clone(),
                            },
                        },
                    );
                    proof {
                        assert(records.deep_view() =~= prev_records.push(record_of(es[i as int])));
                    }
                    bump_extension(
                        &mut ext_counts,
                        &extension,
                        Ghost(file_count_of(es.take(i as int), d)),
                    );
                },
            }
        }
        i = i + 1;
    }
    proof {
        assert(es.take(n as int) =~= es);
    }
    Some(Report { records, total_size, folder_count, ext_counts })
}

} // verus!
