//! Comparing two file trees by content digest: every path is either the same
//! on both sides, modified, or present on one side only.

use crate::digest::{compute_file_hash, is_file_utf8, md5_digest, same_bytes};
use crate::text::{append_chars, join, same_text, texts, to_chars, to_text};
use vstd::prelude::*;
use vstd::utf8::valid_utf8;

verus! {

/// How a path differs between the two trees.
#[derive(Clone, Copy, Debug, PartialEq, Eq, PartialOrd, Ord, Hash, Structural)]
pub enum Classification {
    Modified,
    OnlyInLeft,
    OnlyInRight,
}

/// Whether the content behind a report entry reads as text.
#[derive(Clone, Copy, Debug, PartialEq, Eq, PartialOrd, Ord, Hash, Structural)]
pub enum EncodingHint {
    Text,
    Binary,
}

/// One file of a tree: its path below the root, with `/` between the
/// components, the digest of its content, and whether the content is text.
#[derive(Clone, Debug, PartialEq, Eq)]
pub struct FileRecord {
    pub path: String,
    pub digest: Vec<u8>,
    pub is_utf8: bool,
}

pub struct FileRecordView {
    pub path: Seq<char>,
    pub digest: Seq<u8>,
    pub is_utf8: bool,
}

impl View for FileRecord {
    type V = FileRecordView;

    open spec fn view(&self) -> FileRecordView {
        FileRecordView { path: self.path@, digest: self.digest@, is_utf8: self.is_utf8 }
    }
}

/// One line of a report. Entries order by path first, so a report can be
/// sorted for presentation.
#[derive(Clone, Debug, PartialEq, Eq, PartialOrd, Ord, Hash)]
pub struct DiffEntry {
    pub relative_path: String,
    pub classification: Classification,
    pub encoding_hint: EncodingHint,
}

pub struct DiffEntryView {
    pub relative_path: Seq<char>,
    pub classification: Classification,
    pub encoding_hint: EncodingHint,
}

impl View for DiffEntry {
    type V = DiffEntryView;

    open spec fn view(&self) -> DiffEntryView {
        DiffEntryView {
            relative_path: self.relative_path@,
            classification: self.classification,
            encoding_hint: self.encoding_hint,
        }
    }
}

/// What sets two trees apart. An empty report means that the trees hold the
/// same files with the same digests.
#[derive(Clone, Debug, PartialEq, Eq)]
pub struct DiffReport {
    pub entries: Vec<DiffEntry>,
}

impl View for DiffReport {
    type V = Seq<DiffEntryView>;

    open spec fn view(&self) -> Seq<DiffEntryView> {
        self.entries@.map_values(|e: DiffEntry| e@)
    }
}

/// An entry met while walking a directory: the components of its path below
/// the root, whether it is a regular file, and its content where it could
/// be read.
#[derive(Clone, Debug, PartialEq, Eq)]
pub struct WalkedFile {
    pub components: Vec<String>,
    pub is_file: bool,
    pub content: Option<Vec<u8>>,
}

pub struct WalkedFileView {
    pub components: Seq<Seq<char>>,
    pub is_file: bool,
    pub content: Option<Seq<u8>>,
}

impl View for WalkedFile {
    type V = WalkedFileView;

    open spec fn view(&self) -> WalkedFileView {
        WalkedFileView {
            components: texts(self.components@),
            is_file: self.is_file,
            content: match self.content {
                Some(c) => Some(c@),
                None => None,
            },
        }
    }
}

/// No two records share a path.
pub open spec fn distinct_paths(tree: Seq<FileRecordView>) -> bool {
    forall|i: int, j: int| 0 <= i < j < tree.len() ==> tree[i].path != tree[j].path
}

/// No two entries share a path.
pub open spec fn distinct_entries(report: Seq<DiffEntryView>) -> bool {
    forall|i: int, j: int|
        0 <= i < j < report.len() ==> report[i].relative_path != report[j].relative_path
}

/// The index of the first record with the given path.
pub open spec fn position(tree: Seq<FileRecordView>, path: Seq<char>) -> Option<int>
    decreases tree.len(),
{
    if tree.len() == 0 {
        None
    } else {
        match position(tree.drop_last(), path) {
            Some(k) => Some(k),
            None => if tree.last().path == path {
                Some(tree.len() - 1)
            } else {
                None
            },
        }
    }
}

/// The first record with the given path.
pub open spec fn find(tree: Seq<FileRecordView>, path: Seq<char>) -> Option<FileRecordView> {
    match position(tree, path) {
        Some(k) => Some(tree[k]),
        None => None,
    }
}

/// The tree after a record was put in: it takes the place of the record
/// with the same path, or comes last.
pub open spec fn inserted(tree: Seq<FileRecordView>, record: FileRecordView) -> Seq<
    FileRecordView,
> {
    match position(tree, record.path) {
        Some(k) => tree.update(k, record),
        None => tree.push(record),
    }
}

pub open spec fn hint_of(text: bool) -> EncodingHint {
    if text {
        EncodingHint::Text
    } else {
        EncodingHint::Binary
    }
}

/// The entries for the paths that both trees hold with differing digests,
/// in the order of the left tree. Such an entry is text only if both
/// contents are.
pub open spec fn modified_in(left: Seq<FileRecordView>, right: Seq<FileRecordView>) -> Seq<
    DiffEntryView,
>
    decreases left.len(),
{
    if left.len() == 0 {
        Seq::empty()
    } else {
        let before = modified_in(left.drop_last(), right);
        let l = left.last();
        match find(right, l.path) {
            Some(r) => if r.digest != l.digest {
                before.push(
                    DiffEntryView {
                        relative_path: l.path,
                        classification: Classification::Modified,
                        encoding_hint: hint_of(l.is_utf8 && r.is_utf8),
                    },
                )
            } else {
                before
            },
            None => before,
        }
    }
}

/// The entries for the paths of `side` that `other` does not hold, in the
/// order of `side`.
pub open spec fn only_in(
    side: Seq<FileRecordView>,
    other: Seq<FileRecordView>,
    classification: Classification,
) -> Seq<DiffEntryView>
    decreases side.len(),
{
    if side.len() == 0 {
        Seq::empty()
    } else {
        let before = only_in(side.drop_last(), other, classification);
        let s = side.last();
        if find(other, s.path) is None {
            before.push(
                DiffEntryView {
                    relative_path: s.path,
                    classification,
                    encoding_hint: hint_of(s.is_utf8),
                },
            )
        } else {
            before
        }
    }
}

/// The report on two trees: what was modified, then what only the left tree
/// holds, then what only the right tree holds.
pub open spec fn diff_of(left: Seq<FileRecordView>, right: Seq<FileRecordView>) -> Seq<
    DiffEntryView,
> {
    modified_in(left, right) + only_in(left, right, Classification::OnlyInLeft) + only_in(
        right,
        left,
        Classification::OnlyInRight,
    )
}

/// Whether an entry lies in a version-control metadata directory: one of
/// the directories on its path, at whatever depth, is named `.git`. The last
/// component names the entry itself and is not looked at.
pub open spec fn in_metadata_directory(components: Seq<Seq<char>>) -> bool {
    exists|i: int| 0 <= i < components.len() - 1 && components[i] == ".git"@
}

/// Whether a walked entry is a regular file outside every version-control
/// metadata directory.
pub open spec fn is_source_file(components: Seq<Seq<char>>, is_file: bool) -> bool {
    is_file && !in_metadata_directory(components)
}

/// The record of a file with the given path components and content.
pub open spec fn record_of(components: Seq<Seq<char>>, content: Seq<u8>) -> FileRecordView {
    FileRecordView {
        path: join(components, '/'),
        digest: md5_digest(content),
        is_utf8: valid_utf8(content),
    }
}

/// The tree that a walk yields: the source files whose content could be
/// read, each under its path.
pub open spec fn hashed(walk: Seq<WalkedFileView>) -> Seq<FileRecordView>
    decreases walk.len(),
{
    if walk.len() == 0 {
        Seq::empty()
    } else {
        let before = hashed(walk.drop_last());
        let entry = walk.last();
        match entry.content {
            Some(content) => if is_source_file(entry.components, entry.is_file) {
                inserted(before, record_of(entry.components, content))
            } else {
                before
            },
            None => before,
        }
    }
}

/// A position that was found is that of a record with the path, and no
/// earlier record has it.
pub proof fn lemma_position_some(tree: Seq<FileRecordView>, path: Seq<char>)
    ensures
        position(tree, path) matches Some(k) ==> 0 <= k < tree.len() && tree[k].path == path
            && forall|j: int| 0 <= j < k ==> tree[j].path != path,
        position(tree, path) is None ==> forall|j: int|
            0 <= j < tree.len() ==> tree[j].path != path,
    decreases tree.len(),
{
    if tree.len() > 0 {
        let init = tree.drop_last();
        lemma_position_some(init, path);
        assert(forall|j: int| 0 <= j < init.len() ==> init[j] == tree[j]);
    }
}

/// The other way round: the first index with the path is the position.
pub proof fn lemma_position_first(tree: Seq<FileRecordView>, path: Seq<char>, k: int)
    requires
        0 <= k < tree.len(),
        tree[k].path == path,
        forall|j: int| 0 <= j < k ==> tree[j].path != path,
    ensures
        position(tree, path) == Some(k),
{
    lemma_position_some(tree, path);
}

/// In a tree without repeated paths every record is the one found under its path.
pub proof fn lemma_find_own(tree: Seq<FileRecordView>, k: int)
    requires
        distinct_paths(tree),
        0 <= k < tree.len(),
    ensures
        position(tree, tree[k].path) == Some(k),
        find(tree, tree[k].path) == Some(tree[k]),
{
    lemma_position_some(tree, tree[k].path);
}

/// Putting a record in keeps the paths distinct.
pub proof fn lemma_inserted_distinct(tree: Seq<FileRecordView>, record: FileRecordView)
    requires
        distinct_paths(tree),
    ensures
        distinct_paths(inserted(tree, record)),
        find(inserted(tree, record), record.path) == Some(record),
{
    lemma_position_some(tree, record.path);
    let after = inserted(tree, record);
    match position(tree, record.path) {
        Some(k) => {
            assert(after[k] == record);
            lemma_find_own(after, k);
        },
        None => {
            assert(after[tree.len() as int] == record);
            lemma_find_own(after, tree.len() as int);
        },
    }
}

/// What it takes for an entry to belong in the report on two trees.
pub open spec fn belongs(
    left: Seq<FileRecordView>,
    right: Seq<FileRecordView>,
    entry: DiffEntryView,
) -> bool {
    match entry.classification {
        Classification::Modified => exists|i: int|
            0 <= i < left.len() && left[i].path == entry.relative_path && (#[trigger] find(
                right,
                left[i].path,
            ) matches Some(r) && r.digest != left[i].digest && entry.encoding_hint == hint_of(
                left[i].is_utf8 && r.is_utf8,
            )),
        Classification::OnlyInLeft => exists|i: int|
            0 <= i < left.len() && left[i].path == entry.relative_path && (#[trigger] find(
                right,
                left[i].path,
            )) is None && entry.encoding_hint == hint_of(left[i].is_utf8),
        Classification::OnlyInRight => exists|i: int|
            0 <= i < right.len() && right[i].path == entry.relative_path && (#[trigger] find(
                left,
                right[i].path,
            )) is None && entry.encoding_hint == hint_of(right[i].is_utf8),
    }
}

/// The entries of `modified_in` are `Modified` entries that belong, and all of them.
pub proof fn lemma_modified_in(
    left: Seq<FileRecordView>,
    right: Seq<FileRecordView>,
    entry: DiffEntryView,
)
    ensures
        modified_in(left, right).contains(entry) <==> entry.classification
            == Classification::Modified && belongs(left, right, entry),
    decreases left.len(),
{
    let all = modified_in(left, right);
    if left.len() == 0 {
        assert(!all.contains(entry));
    } else {
        let before = modified_in(left.drop_last(), right);
        let l = left.last();
        lemma_modified_in(left.drop_last(), right, entry);
        let added = DiffEntryView {
            relative_path: l.path,
            classification: Classification::Modified,
            encoding_hint: hint_of(l.is_utf8 && find(right, l.path)->0.is_utf8),
        };
        let adds = find(right, l.path) is Some && find(right, l.path)->0.digest != l.digest;
        if all.contains(entry) {
            let k = choose|k: int| 0 <= k < all.len() && all[k] == entry;
            if adds && k == all.len() - 1 {
                assert(entry == added);
                assert(left[left.len() - 1].path == entry.relative_path);
                assert(find(right, left[left.len() - 1].path) is Some);
            } else {
                assert(before[k] == entry);
                assert(before.contains(entry));
                let i = choose|i: int|
                    0 <= i < left.drop_last().len() && left.drop_last()[i].path
                        == entry.relative_path && (#[trigger] find(
                        right,
                        left.drop_last()[i].path,
                    ) matches Some(r) && r.digest != left.drop_last()[i].digest
                        && entry.encoding_hint == hint_of(left.drop_last()[i].is_utf8 && r.is_utf8));
                assert(left[i] == left.drop_last()[i]);
                assert(find(right, left[i].path) is Some);
            }
        }
        if entry.classification == Classification::Modified && belongs(left, right, entry) {
            let i = choose|i: int|
                0 <= i < left.len() && left[i].path == entry.relative_path && (#[trigger] find(
                    right,
                    left[i].path,
                ) matches Some(r) && r.digest != left[i].digest && entry.encoding_hint == hint_of(
                    left[i].is_utf8 && r.is_utf8,
                ));
            if i == left.len() - 1 {
                assert(adds);
                assert(entry == added);
                assert(all[all.len() - 1] == entry);
            } else {
                assert(left.drop_last()[i] == left[i]);
                assert(find(right, left.drop_last()[i].path) is Some);
                assert(belongs(left.drop_last(), right, entry));
                let k = choose|k: int| 0 <= k < before.len() && before[k] == entry;
                assert(all[k] == entry);
            }
        }
    }
}

/// The entries of `only_in` are the one-sided entries that belong, and all of them.
pub proof fn lemma_only_in(
    side: Seq<FileRecordView>,
    other: Seq<FileRecordView>,
    classification: Classification,
    entry: DiffEntryView,
)
    ensures
        only_in(side, other, classification).contains(entry) <==> entry.classification
            == classification && exists|i: int|
            0 <= i < side.len() && side[i].path == entry.relative_path && (#[trigger] find(
                other,
                side[i].path,
            )) is None && entry.encoding_hint == hint_of(side[i].is_utf8),
    decreases side.len(),
{
    let all = only_in(side, other, classification);
    if side.len() == 0 {
        assert(!all.contains(entry));
    } else {
        let before = only_in(side.drop_last(), other, classification);
        let s = side.last();
        lemma_only_in(side.drop_last(), other, classification, entry);
        let added = DiffEntryView {
            relative_path: s.path,
            classification,
            encoding_hint: hint_of(s.is_utf8),
        };
        let adds = find(other, s.path) is None;
        if all.contains(entry) {
            let k = choose|k: int| 0 <= k < all.len() && all[k] == entry;
            if adds && k == all.len() - 1 {
                assert(entry == added);
                assert(side[side.len() - 1].path == entry.relative_path);
                assert(find(other, side[side.len() - 1].path) is None);
            } else {
                assert(before[k] == entry);
                assert(before.contains(entry));
                let i = choose|i: int|
                    0 <= i < side.drop_last().len() && side.drop_last()[i].path
                        == entry.relative_path && (#[trigger] find(
                        other,
                        side.drop_last()[i].path,
                    )) is None && entry.encoding_hint == hint_of(side.drop_last()[i].is_utf8);
                assert(side[i] == side.drop_last()[i]);
                assert(find(other, side[i].path) is None);
            }
        }
        if entry.classification == classification && exists|i: int|
            0 <= i < side.len() && side[i].path == entry.relative_path && (#[trigger] find(
                other,
                side[i].path,
            )) is None && entry.encoding_hint == hint_of(side[i].is_utf8) {
            let i = choose|i: int|
                0 <= i < side.len() && side[i].path == entry.relative_path && (#[trigger] find(
                    other,
                    side[i].path,
                )) is None && entry.encoding_hint == hint_of(side[i].is_utf8);
            if i == side.len() - 1 {
                assert(adds);
                assert(entry == added);
                assert(all[all.len() - 1] == entry);
            } else {
                assert(side.drop_last()[i] == side[i]);
                assert(find(other, side.drop_last()[i].path) is None);
                let k = choose|k: int| 0 <= k < before.len() && before[k] == entry;
                assert(all[k] == entry);
            }
        }
    }
}

/// The report holds exactly the entries that belong: no divergence is left
/// out and nothing else is reported.
pub proof fn lemma_diff_exact(
    left: Seq<FileRecordView>,
    right: Seq<FileRecordView>,
    entry: DiffEntryView,
)
    ensures
        diff_of(left, right).contains(entry) <==> belongs(left, right, entry),
{
    let a = modified_in(left, right);
    let b = only_in(left, right, Classification::OnlyInLeft);
    let c = only_in(right, left, Classification::OnlyInRight);
    let all = diff_of(left, right);
    lemma_modified_in(left, right, entry);
    lemma_only_in(left, right, Classification::OnlyInLeft, entry);
    lemma_only_in(right, left, Classification::OnlyInRight, entry);
    if all.contains(entry) {
        let k = choose|k: int| 0 <= k < all.len() && all[k] == entry;
        if k < a.len() {
            assert(a[k] == entry);
        } else if k < a.len() + b.len() {
            assert(b[k - a.len()] == entry);
        } else {
            assert(c[k - a.len() - b.len()] == entry);
        }
        assert(a.contains(entry) || b.contains(entry) || c.contains(entry));
    }
    if a.contains(entry) {
        let k = choose|k: int| 0 <= k < a.len() && a[k] == entry;
        assert(all[k] == entry);
    }
    if b.contains(entry) {
        let k = choose|k: int| 0 <= k < b.len() && b[k] == entry;
        assert(all[a.len() + k] == entry);
    }
    if c.contains(entry) {
        let k = choose|k: int| 0 <= k < c.len() && c[k] == entry;
        assert(all[a.len() + b.len() + k] == entry);
    }
}

/// The modified entries carry distinct paths where the left tree does.
pub proof fn lemma_modified_in_distinct(left: Seq<FileRecordView>, right: Seq<FileRecordView>)
    requires
        distinct_paths(left),
    ensures
        distinct_entries(modified_in(left, right)),
    decreases left.len(),
{
    if left.len() > 0 {
        let init = left.drop_last();
        let before = modified_in(init, right);
        assert(forall|j: int| 0 <= j < init.len() ==> init[j] == left[j]);
        lemma_modified_in_distinct(init, right);
        assert forall|k: int| 0 <= k < before.len() implies before[k].relative_path
            != left.last().path by {
            assert(before.contains(before[k]));
            lemma_modified_in(init, right, before[k]);
        }
    }
}

/// The one-sided entries carry distinct paths where their side does.
pub proof fn lemma_only_in_distinct(
    side: Seq<FileRecordView>,
    other: Seq<FileRecordView>,
    classification: Classification,
)
    requires
        distinct_paths(side),
    ensures
        distinct_entries(only_in(side, other, classification)),
    decreases side.len(),
{
    if side.len() > 0 {
        let init = side.drop_last();
        let before = only_in(init, other, classification);
        assert(forall|j: int| 0 <= j < init.len() ==> init[j] == side[j]);
        lemma_only_in_distinct(init, other, classification);
        assert forall|k: int| 0 <= k < before.len() implies before[k].relative_path
            != side.last().path by {
            assert(before.contains(before[k]));
            lemma_only_in(init, other, classification, before[k]);
        }
    }
}

/// A report is keyed by path: where neither tree holds a path twice, no two
/// entries of their report share one.
pub proof fn lemma_diff_keyed_by_path(left: Seq<FileRecordView>, right: Seq<FileRecordView>)
    requires
        distinct_paths(left),
        distinct_paths(right),
    ensures
        distinct_entries(diff_of(left, right)),
{
    let a = modified_in(left, right);
    let b = only_in(left, right, Classification::OnlyInLeft);
    let c = only_in(right, left, Classification::OnlyInRight);
    let all = diff_of(left, right);
    lemma_modified_in_distinct(left, right);
    lemma_only_in_distinct(left, right, Classification::OnlyInLeft);
    lemma_only_in_distinct(right, left, Classification::OnlyInRight);
    assert forall|i: int, j: int| 0 <= i < j < all.len() implies all[i].relative_path
        != all[j].relative_path by {
        let x = all[i];
        let y = all[j];
        assert(all.contains(x));
        assert(all.contains(y));
        lemma_diff_exact(left, right, x);
        lemma_diff_exact(left, right, y);
        lemma_modified_in(left, right, x);
        lemma_modified_in(left, right, y);
        lemma_only_in(left, right, Classification::OnlyInLeft, x);
        lemma_only_in(left, right, Classification::OnlyInLeft, y);
        lemma_only_in(right, left, Classification::OnlyInRight, x);
        lemma_only_in(right, left, Classification::OnlyInRight, y);
        if i < a.len() {
            assert(a[i] == x);
            assert(a.contains(x));
        } else if i < a.len() + b.len() {
            assert(b[i - a.len()] == x);
            assert(b.contains(x));
        } else {
            assert(c[i - a.len() - b.len()] == x);
            assert(c.contains(x));
        }
        if j < a.len() {
            assert(a[j] == y);
            assert(a.contains(y));
        } else if j < a.len() + b.len() {
            assert(b[j - a.len()] == y);
            assert(b.contains(y));
        } else {
            assert(c[j - a.len() - b.len()] == y);
            assert(c.contains(y));
        }
        if x.relative_path == y.relative_path {
            lemma_position_some(left, x.relative_path);
            lemma_position_some(right, x.relative_path);
            assert(x.classification == y.classification);
        }
    }
}

/// A tree does not differ from itself.
pub proof fn lemma_diff_with_itself(tree: Seq<FileRecordView>)
    requires
        distinct_paths(tree),
    ensures
        diff_of(tree, tree) == Seq::<DiffEntryView>::empty(),
{
    let all = diff_of(tree, tree);
    if all.len() > 0 {
        let entry = all[0];
        assert(all.contains(entry));
        lemma_diff_exact(tree, tree, entry);
        assert forall|i: int| 0 <= i < tree.len() implies find(tree, tree[i].path) == Some(
            tree[i],
        ) by {
            lemma_find_own(tree, i);
        }
        assert(false);
    }
    assert(all =~= Seq::<DiffEntryView>::empty());
}

/// A path that only the left tree holds has exactly one entry in the
/// report: `OnlyInLeft`, text or binary as the file is.
pub proof fn lemma_left_only_reported_once(
    left: Seq<FileRecordView>,
    right: Seq<FileRecordView>,
    i: int,
)
    requires
        distinct_paths(left),
        distinct_paths(right),
        0 <= i < left.len(),
        find(right, left[i].path) is None,
    ensures
        exists|k: int|
            0 <= k < diff_of(left, right).len() && #[trigger] diff_of(left, right)[k] == (
            DiffEntryView {
                relative_path: left[i].path,
                classification: Classification::OnlyInLeft,
                encoding_hint: hint_of(left[i].is_utf8),
            }) && forall|j: int|
                0 <= j < diff_of(left, right).len() && #[trigger] diff_of(
                    left,
                    right,
                )[j].relative_path == left[i].path ==> j == k,
{
    let entry = DiffEntryView {
        relative_path: left[i].path,
        classification: Classification::OnlyInLeft,
        encoding_hint: hint_of(left[i].is_utf8),
    };
    lemma_reported_once(left, right, entry);
}

/// A path that only the right tree holds has exactly one entry in the
/// report: `OnlyInRight`, text or binary as the file is.
pub proof fn lemma_right_only_reported_once(
    left: Seq<FileRecordView>,
    right: Seq<FileRecordView>,
    i: int,
)
    requires
        distinct_paths(left),
        distinct_paths(right),
        0 <= i < right.len(),
        find(left, right[i].path) is None,
    ensures
        exists|k: int|
            0 <= k < diff_of(left, right).len() && #[trigger] diff_of(left, right)[k] == (
            DiffEntryView {
                relative_path: right[i].path,
                classification: Classification::OnlyInRight,
                encoding_hint: hint_of(right[i].is_utf8),
            }) && forall|j: int|
                0 <= j < diff_of(left, right).len() && #[trigger] diff_of(
                    left,
                    right,
                )[j].relative_path == right[i].path ==> j == k,
{
    let entry = DiffEntryView {
        relative_path: right[i].path,
        classification: Classification::OnlyInRight,
        encoding_hint: hint_of(right[i].is_utf8),
    };
    lemma_reported_once(left, right, entry);
}

/// A path that both trees hold with differing digests has exactly one entry
/// in the report: `Modified`, and text only if both sides are.
pub proof fn lemma_modified_reported_once(
    left: Seq<FileRecordView>,
    right: Seq<FileRecordView>,
    i: int,
    j: int,
)
    requires
        distinct_paths(left),
        distinct_paths(right),
        0 <= i < left.len(),
        0 <= j < right.len(),
        left[i].path == right[j].path,
        left[i].digest != right[j].digest,
    ensures
        exists|k: int|
            0 <= k < diff_of(left, right).len() && #[trigger] diff_of(left, right)[k] == (
            DiffEntryView {
                relative_path: left[i].path,
                classification: Classification::Modified,
                encoding_hint: hint_of(left[i].is_utf8 && right[j].is_utf8),
            }) && forall|m: int|
                0 <= m < diff_of(left, right).len() && #[trigger] diff_of(
                    left,
                    right,
                )[m].relative_path == left[i].path ==> m == k,
{
    let entry = DiffEntryView {
        relative_path: left[i].path,
        classification: Classification::Modified,
        encoding_hint: hint_of(left[i].is_utf8 && right[j].is_utf8),
    };
    lemma_find_own(right, j);
    assert(find(right, left[i].path) == Some(right[j]));
    lemma_reported_once(left, right, entry);
}

/// A path that both trees hold with the same digest is not reported.
pub proof fn lemma_unchanged_not_reported(
    left: Seq<FileRecordView>,
    right: Seq<FileRecordView>,
    i: int,
    j: int,
)
    requires
        distinct_paths(left),
        distinct_paths(right),
        0 <= i < left.len(),
        0 <= j < right.len(),
        left[i].path == right[j].path,
        left[i].digest == right[j].digest,
    ensures
        forall|k: int|
            0 <= k < diff_of(left, right).len() ==> #[trigger] diff_of(
                left,
                right,
            )[k].relative_path != left[i].path,
{
    let all = diff_of(left, right);
    assert forall|k: int| 0 <= k < all.len() implies #[trigger] all[k].relative_path
        != left[i].path by {
        let entry = all[k];
        assert(all.contains(entry));
        lemma_diff_exact(left, right, entry);
        if entry.relative_path == left[i].path {
            lemma_find_own(left, i);
            lemma_find_own(right, j);
            lemma_position_some(left, entry.relative_path);
            lemma_position_some(right, entry.relative_path);
            assert(false);
        }
    }
}

/// An entry that belongs stands in the report at one index, and no other
/// index holds its path.
proof fn lemma_reported_once(
    left: Seq<FileRecordView>,
    right: Seq<FileRecordView>,
    entry: DiffEntryView,
)
    requires
        distinct_paths(left),
        distinct_paths(right),
        belongs(left, right, entry),
    ensures
        exists|k: int|
            0 <= k < diff_of(left, right).len() && #[trigger] diff_of(left, right)[k] == entry
                && forall|j: int|
                0 <= j < diff_of(left, right).len() && #[trigger] diff_of(
                    left,
                    right,
                )[j].relative_path == entry.relative_path ==> j == k,
{
    let all = diff_of(left, right);
    lemma_diff_exact(left, right, entry);
    lemma_diff_keyed_by_path(left, right);
    let k = choose|k: int| 0 <= k < all.len() && all[k] == entry;
    assert(all[k] == entry);
    assert forall|j: int|
        0 <= j < all.len() && #[trigger] all[j].relative_path == entry.relative_path implies j
        == k by {
        if j < k {
            assert(all[j].relative_path != all[k].relative_path);
        } else if k < j {
            assert(all[k].relative_path != all[j].relative_path);
        }
    }
}

/// The files of one tree, each under its path. Putting a file in under a
/// path that is already there replaces the earlier record, so no path
/// occurs twice.
#[derive(Clone, Debug, PartialEq, Eq)]
pub struct FileTree {
    records: Vec<FileRecord>,
}

impl View for FileTree {
    type V = Seq<FileRecordView>;

    closed spec fn view(&self) -> Seq<FileRecordView> {
        self.records@.map_values(|r: FileRecord| r@)
    }
}

impl FileTree {
    /// No path occurs twice. Every tree made by `new` and filled through
    /// `insert` and `add_file` is well-formed.
    pub open spec fn wf(&self) -> bool {
        distinct_paths(self@)
    }

    /// A tree without files.
    pub fn new() -> (tree: FileTree)
        ensures
            tree@ == Seq::<FileRecordView>::empty(),
            tree.wf(),
    {
        let tree = FileTree { records: Vec::new() };
        assert(tree@ =~= Seq::<FileRecordView>::empty());
        tree
    }

    /// The number of files.
    pub fn len(&self) -> (n: usize)
        ensures
            n == self@.len(),
    {
        self.records.len()
    }

    /// The record at an index, in the order in which the paths came in.
    pub fn record(&self, index: usize) -> (r: &FileRecord)
        requires
            index < self@.len(),
        ensures
            r@ == self@[index as int],
    {
        &self.records[index]
    }

    /// The index of the record with the given path.
    pub fn index_of(&self, path: &str) -> (found: Option<usize>)
        ensures
            match found {
                Some(k) => position(self@, path@) == Some(k as int) && k < self@.len(),
                None => position(self@, path@) is None,
            },
    {
        let mut i: usize = 0;
        while i < self.records.len()
            invariant
                i <= self.records.len(),
                forall|j: int| 0 <= j < i ==> self@[j].path != path@,
            decreases self.records.len() - i,
        {
            if same_text(self.records[i].path.as_str(), path) {
                proof {
                    lemma_position_first(self@, path@, i as int);
                }
                return Some(i);
            }
            i += 1;
        }
        proof {
            lemma_position_some(self@, path@);
        }
        None
    }

    /// The record with the given path.
    pub fn get(&self, path: &str) -> (found: Option<&FileRecord>)
        ensures
            match found {
                Some(r) => find(self@, path@) == Some(r@),
                None => find(self@, path@) is None,
            },
    {
        match self.index_of(path) {
            Some(k) => Some(&self.records[k]),
            None => None,
        }
    }

    /// Whether the tree holds no files.
    pub fn is_empty(&self) -> (empty: bool)
        ensures
            empty == (self@.len() == 0),
    {
        self.records.len() == 0
    }

    /// Puts a record in, in place of the one with the same path if there is one.
    pub fn insert(&mut self, record: FileRecord)
        ensures
            final(self)@ == inserted(old(self)@, record@),
            old(self).wf() ==> final(self).wf(),
    {
        proof {
            if self.wf() {
                lemma_inserted_distinct(self@, record@);
            }
        }
        let ghost before = self@;
        match self.index_of(record.path.as_str()) {
            Some(k) => {
                self.records.set(k, record);
                assert(self@ =~= before.update(k as int, record@));
            },
            None => {
                self.records.push(record);
                assert(self@ =~= before.push(record@));
            },
        }
    }

    /// Puts in the file with the given path components and content.
    pub fn add_file(&mut self, components: &Vec<String>, content: &[u8])
        ensures
            final(self)@ == inserted(old(self)@, record_of(texts(components@), content@)),
            old(self).wf() ==> final(self).wf(),
    {
        let record = FileRecord {
            path: relative_path(components),
            digest: compute_file_hash(content),
            is_utf8: is_file_utf8(content),
        };
        self.insert(record);
    }
}

/// The path of an entry below the root of its tree, with `/` between the components.
pub fn relative_path(components: &Vec<String>) -> (path: String)
    ensures
        path@ == join(texts(components@), '/'),
{
    let mut out: Vec<char> = Vec::new();
    let mut i: usize = 0;
    let ghost all = texts(components@);
    proof {
        assert(all.take(0).len() == 0);
    }
    while i < components.len()
        invariant
            i <= components.len(),
            all == texts(components@),
            out@ == join(all.take(i as int), '/'),
        decreases components.len() - i,
    {
        proof {
            let now = all.take(i + 1);
            assert(now.drop_last() == all.take(i as int));
            assert(now.last() == components@[i as int]@);
            if i == 0 {
                assert(out@ + components@[i as int]@ == components@[i as int]@);
            }
        }
        if i > 0 {
            out.push('/');
        }
        let piece = to_chars(components[i].as_str());
        append_chars(&mut out, &piece);
        i += 1;
    }
    assert(all.take(components.len() as int) == all);
    to_text(&out)
}

/// Whether an entry lies in a version-control metadata directory, at
/// whatever depth.
pub fn lies_in_metadata_directory(components: &Vec<String>) -> (yes: bool)
    ensures
        yes == in_metadata_directory(texts(components@)),
{
    if components.len() == 0 {
        return false;
    }
    let mut i: usize = 0;
    while i < components.len() - 1
        invariant
            components.len() > 0,
            i <= components.len() - 1,
            forall|j: int| 0 <= j < i ==> texts(components@)[j] != ".git"@,
        decreases components.len() - i,
    {
        if same_text(components[i].as_str(), ".git") {
            assert(texts(components@)[i as int] == ".git"@);
            return true;
        }
        assert(texts(components@)[i as int] == components@[i as int]@);
        i += 1;
    }
    false
}

/// Whether a walked entry is to be compared: a regular file that lies in no
/// version-control metadata directory.
pub fn is_compared(components: &Vec<String>, is_file: bool) -> (yes: bool)
    ensures
        yes == is_source_file(texts(components@), is_file),
{
    is_file && !lies_in_metadata_directory(components)
}

/// The tree of a walk: the digest of every regular file outside the
/// version-control metadata directories whose content could be read, under
/// its path.
pub fn get_file_hashes(walk: &Vec<WalkedFile>) -> (tree: FileTree)
    ensures
        tree@ == hashed(walk@.map_values(|w: WalkedFile| w@)),
        tree.wf(),
{
    let mut tree = FileTree::new();
    let mut i: usize = 0;
    let ghost all = walk@.map_values(|w: WalkedFile| w@);
    proof {
        assert(all.take(0).len() == 0);
    }
    while i < walk.len()
        invariant
            i <= walk.len(),
            all == walk@.map_values(|w: WalkedFile| w@),
            tree@ == hashed(all.take(i as int)),
            tree.wf(),
        decreases walk.len() - i,
    {
        proof {
            let now = all.take(i + 1);
            assert(now.drop_last() == all.take(i as int));
            assert(now.last() == walk@[i as int]@);
        }
        let entry = &walk[i];
        if is_compared(&entry.components, entry.is_file) {
            match &entry.content {
                Some(content) => {
                    tree.add_file(&entry.components, content.as_slice());
                },
                None => {},
            }
        }
        i += 1;
    }
    assert(all.take(walk.len() as int) == all);
    tree
}

/// The entries for what `side` holds and `other` lacks.
fn collect_only_in(
    side: &FileTree,
    other: &FileTree,
    classification: Classification,
    entries: &mut Vec<DiffEntry>,
)
    ensures
        final(entries)@.map_values(|e: DiffEntry| e@) == old(entries)@.map_values(
            |e: DiffEntry| e@,
        ) + only_in(side@, other@, classification),
{
    let ghost start = entries@.map_values(|e: DiffEntry| e@);
    let mut i: usize = 0;
    proof {
        assert(side@.take(0).len() == 0);
        assert(start + only_in(side@.take(0), other@, classification) == start);
    }
    while i < side.len()
        invariant
            i <= side@.len(),
            entries@.map_values(|e: DiffEntry| e@) == start + only_in(
                side@.take(i as int),
                other@,
                classification,
            ),
        decreases side@.len() - i,
    {
        proof {
            let now = side@.take(i + 1);
            assert(now.drop_last() == side@.take(i as int));
            assert(now.last() == side@[i as int]);
        }
        let record = side.record(i);
        let ghost before = entries@.map_values(|e: DiffEntry| e@);
        if other.get(record.path.as_str()).is_none() {
            let entry = DiffEntry {
                relative_path: record.path.clone(),
                classification,
                encoding_hint: if record.is_utf8 {
                    EncodingHint::Text
                } else {
                    EncodingHint::Binary
                },
            };
            entries.push(entry);
            assert(entries@.map_values(|e: DiffEntry| e@) == before.push(entry@));
            assert(before.push(entry@) == start + only_in(
                side@.take(i as int),
                other@,
                classification,
            ).push(entry@));
        }
        i += 1;
    }
    assert(side@.take(side@.len() as int) == side@);
}

/// Compares two trees. The report lists, in this order: the paths that both
/// trees hold with differing digests, the paths that only the left tree
/// holds, and the paths that only the right tree holds, each group in the
/// order of the tree it was read from. No path is reported twice.
pub fn diff_directories(left: &FileTree, right: &FileTree) -> (report: DiffReport)
    ensures
        report@ == diff_of(left@, right@),
        left.wf() && right.wf() ==> distinct_entries(report@),
{
    let mut entries: Vec<DiffEntry> = Vec::new();
    let mut i: usize = 0;
    proof {
        assert(left@.take(0).len() == 0);
    }
    while i < left.len()
        invariant
            i <= left@.len(),
            entries@.map_values(|e: DiffEntry| e@) == modified_in(left@.take(i as int), right@),
        decreases left@.len() - i,
    {
        proof {
            let now = left@.take(i + 1);
            assert(now.drop_last() == left@.take(i as int));
            assert(now.last() == left@[i as int]);
        }
        let record = left.record(i);
        let ghost before = entries@.map_values(|e: DiffEntry| e@);
        match right.get(record.path.as_str()) {
            Some(other) => {
                if !same_bytes(&other.digest, &record.digest) {
                    let entry = DiffEntry {
                        relative_path: record.path.clone(),
                        classification: Classification::Modified,
                        encoding_hint: if record.is_utf8 && other.is_utf8 {
                            EncodingHint::Text
                        } else {
                            EncodingHint::Binary
                        },
                    };
                    entries.push(entry);
                    assert(entries@.map_values(|e: DiffEntry| e@) == before.push(entry@));
                }
            },
            None => {},
        }
        i += 1;
    }
    assert(left@.take(left@.len() as int) == left@);
    collect_only_in(left, right, Classification::OnlyInLeft, &mut entries);
    collect_only_in(right, left, Classification::OnlyInRight, &mut entries);
    proof {
        if left.wf() && right.wf() {
            lemma_diff_keyed_by_path(left@, right@);
        }
    }
    DiffReport { entries }
}

} // verus!
