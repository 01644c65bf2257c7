//! Properties that tie the aggregate summary of an inspection to the
//! records it emits, stated over the same spec functions that
//! [`crate::inspect::inspect`]'s contract uses.

use vstd::prelude::*;

use crate::inspect::{
    emitted_records, entry_size, ext_counts_of, extension_spec, find_bucket, folder_count_of,
    is_emitted_file, lemma_find_bucket_in_range, qualifies, record_of, spec_report, tally,
    total_size_of, EntryView, ExtCountView, RecordKindView, RecordView, ReportView,
};

verus! {

/// What one record contributes to the total size: its size if it is a file
/// record, nothing if it is a folder record.
pub open spec fn record_size(r: RecordView) -> int {
    match r.kind {
        RecordKindView::File { size, .. } => size as int,
        RecordKindView::Folder => 0,
    }
}

/// The sum of the sizes of the file records among `records`.
pub open spec fn records_size_sum(records: Seq<RecordView>) -> int
    decreases records.len(),
{
    if records.len() == 0 {
        0
    } else {
        records_size_sum(records.drop_last()) + record_size(records.last())
    }
}

/// How many folder records stand among `records`.
pub open spec fn records_folder_count(records: Seq<RecordView>) -> int
    decreases records.len(),
{
    if records.len() == 0 {
        0
    } else {
        records_folder_count(records.drop_last()) + if records.last().kind is Folder {
            1int
        } else {
            0int
        }
    }
}

/// How many file records stand among `records`.
pub open spec fn records_file_count(records: Seq<RecordView>) -> int
    decreases records.len(),
{
    if records.len() == 0 {
        0
    } else {
        records_file_count(records.drop_last()) + if records.last().kind is File {
            1int
        } else {
            0int
        }
    }
}

/// The sum of all per-extension counts.
pub open spec fn counts_sum(counts: Seq<ExtCountView>) -> int
    decreases counts.len(),
{
    if counts.len() == 0 {
        0
    } else {
        counts_sum(counts.drop_last()) + counts.last().count
    }
}

/// The reported total size equals the sum of the sizes of the emitted file
/// records, exactly: every emitted file's size is counted once, and nothing
/// else is counted.
pub proof fn lemma_total_size_is_records_sum(entries: Seq<EntryView>, d: int)
    ensures
        total_size_of(entries, d) == records_size_sum(emitted_records(entries, d)),
    decreases entries.len(),
{
    if entries.len() > 0 {
        lemma_total_size_is_records_sum(entries.drop_last(), d);
        let rest = emitted_records(entries.drop_last(), d);
        let e = entries.last();
        if qualifies(e, d) {
            assert(rest.push(record_of(e)).drop_last() =~= rest);
            assert(record_size(record_of(e)) == entry_size(e, d));
        }
    }
}

/// The reported folder count equals the number of emitted folder records,
/// exactly.
pub proof fn lemma_folder_count_is_records_count(entries: Seq<EntryView>, d: int)
    ensures
        folder_count_of(entries, d) == records_folder_count(emitted_records(entries, d)),
    decreases entries.len(),
{
    if entries.len() > 0 {
        lemma_folder_count_is_records_count(entries.drop_last(), d);
        let rest = emitted_records(entries.drop_last(), d);
        let e = entries.last();
        if qualifies(e, d) {
            assert(rest.push(record_of(e)).drop_last() =~= rest);
            assert(record_of(e).kind is Folder <==> e.kind is Folder);
        }
    }
}

/// Tallying one more file raises the sum of the per-extension counts by
/// exactly one.
proof fn lemma_tally_sum(counts: Seq<ExtCountView>, ext: Seq<char>)
    ensures
        counts_sum(tally(counts, ext)) == counts_sum(counts) + 1,
{
    lemma_find_bucket_in_range(counts, ext);
    let i = find_bucket(counts, ext);
    if i >= 0 {
        lemma_counts_sum_update(counts, i, ExtCountView {
            extension: ext,
            count: counts[i].count + 1,
        });
    } else {
        assert(counts.push(ExtCountView { extension: ext, count: 1 }).drop_last() =~= counts);
    }
}

/// Replacing one bucket changes the sum by the difference at that bucket.
proof fn lemma_counts_sum_update(counts: Seq<ExtCountView>, i: int, v: ExtCountView)
    requires
        0 <= i < counts.len(),
    ensures
        counts_sum(counts.update(i, v)) == counts_sum(counts) - counts[i].count + v.count,
    decreases counts.len(),
{
    let updated = counts.update(i, v);
    if i == counts.len() - 1 {
        assert(updated.drop_last() =~= counts.drop_last());
    } else {
        assert(updated.drop_last() =~= counts.drop_last().update(i, v));
        lemma_counts_sum_update(counts.drop_last(), i, v);
    }
}

/// The per-extension counts sum to the number of emitted file records,
/// exactly: every emitted file raises its extension's bucket once.
pub proof fn lemma_counts_sum_is_file_records(entries: Seq<EntryView>, d: int)
    ensures
        counts_sum(ext_counts_of(entries, d)) == records_file_count(emitted_records(entries, d)),
    decreases entries.len(),
{
    if entries.len() > 0 {
        lemma_counts_sum_is_file_records(entries.drop_last(), d);
        let rest = emitted_records(entries.drop_last(), d);
        let e = entries.last();
        if qualifies(e, d) {
            assert(rest.push(record_of(e)).drop_last() =~= rest);
            assert(record_of(e).kind is File <==> e.kind is File);
            if is_emitted_file(e, d) {
                lemma_tally_sum(ext_counts_of(entries.drop_last(), d), extension_spec(e.name));
            }
        }
    }
}

/// With a depth bound of zero only the root is considered, and the root is
/// always skipped: nothing is emitted, the total size is zero, the folder
/// count is zero, and no extension has a bucket.
pub proof fn lemma_depth_zero(entries: Seq<EntryView>)
    ensures
        spec_report(entries, 0) == (ReportView {
            records: Seq::<RecordView>::empty(),
            total_size: 0,
            folder_count: 0,
            ext_counts: Seq::<ExtCountView>::empty(),
        }),
    decreases entries.len(),
{
    if entries.len() > 0 {
        lemma_depth_zero(entries.drop_last());
    }
}

/// No emitted record lies outside the depth bound: each one's depth is at
/// least 1 (the root is skipped) and at most `d`.
pub proof fn lemma_records_within_depth(entries: Seq<EntryView>, d: int)
    ensures
        forall|k: int|
            0 <= k < emitted_records(entries, d).len() ==> 1 <= #[trigger] emitted_records(
                entries,
                d,
            )[k].depth <= d,
    decreases entries.len(),
{
    if entries.len() > 0 {
        lemma_records_within_depth(entries.drop_last(), d);
        let rest = emitted_records(entries.drop_last(), d);
        let e = entries.last();
        if qualifies(e, d) {
            assert(forall|k: int|
                0 <= k < rest.len() ==> rest.push(record_of(e))[k] == rest[k]);
        }
    }
}

/// Extension buckets are keyed uniquely: no two buckets of an inspection
/// carry the same extension token.
pub proof fn lemma_ext_counts_distinct(entries: Seq<EntryView>, d: int)
    ensures
        forall|j: int, k: int|
            0 <= j < k < ext_counts_of(entries, d).len() ==> #[trigger] ext_counts_of(
                entries,
                d,
            )[j].extension != #[trigger] ext_counts_of(entries, d)[k].extension,
    decreases entries.len(),
{
    if entries.len() > 0 {
        lemma_ext_counts_distinct(entries.drop_last(), d);
        let rest = ext_counts_of(entries.drop_last(), d);
        let e = entries.last();
        if is_emitted_file(e, d) {
            let ext = extension_spec(e.name);
            lemma_find_bucket_in_range(rest, ext);
            let i = find_bucket(rest, ext);
            if i >= 0 {
                let updated = rest.update(i, ExtCountView {
                    extension: ext,
                    count: rest[i].count + 1,
                });
                assert(forall|j: int|
                    0 <= j < rest.len() ==> #[trigger] updated[j].extension == rest[j].extension);
            } else {
                lemma_find_bucket_negative_means_absent(rest, ext);
            }
        }
    }
}

/// A bucket search that fails means no bucket carries the key.
proof fn lemma_find_bucket_negative_means_absent(counts: Seq<ExtCountView>, ext: Seq<char>)
    requires
        find_bucket(counts, ext) < 0,
    ensures
        forall|j: int| 0 <= j < counts.len() ==> counts[j].extension != ext,
    decreases counts.len(),
{
    if counts.len() > 0 {
        assert(counts[0].extension != ext);
        if find_bucket(counts.drop_first(), ext) >= 0 {
            assert(find_bucket(counts, ext) >= 0);
        }
        lemma_find_bucket_negative_means_absent(counts.drop_first(), ext);
        assert forall|j: int| 0 <= j < counts.len() implies counts[j].extension != ext by {
            if j >= 1 {
                assert(counts.drop_first()[j - 1] == counts[j]);
            }
        }
    }
}

/// Inspecting the same listing with the same bound twice yields the same
/// report: the outcome is a function of the listing and the bound alone,
/// so an unchanged tree gives identical totals and records on every run.
pub proof fn lemma_inspect_deterministic(
    entries: Seq<EntryView>,
    d: int,
    first: ReportView,
    second: ReportView,
)
    requires
        first == spec_report(entries, d),
        second == spec_report(entries, d),
    ensures
        first == second,
{
}

} // verus!
