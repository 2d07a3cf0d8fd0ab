//! Episode discovery: which entries of a directory listing are media files,
//! and in which order they air.

use vstd::prelude::*;
use crate::model::{episode_views, Episode, EpisodeView};
use crate::paths::{extension_bounds, final_segment, final_segment_bounds, path_extension};
use crate::text::{chars_of, slice_chars};

verus! {

/// One entry of a directory listing: its path, and whether it is a regular
/// file.
#[derive(Clone, Debug, PartialEq, Eq)]
pub struct FileEntry {
    pub path: String,
    pub is_file: bool,
}

/// The mathematical value of a `FileEntry`.
pub struct FileEntryView {
    pub path: Seq<char>,
    pub is_file: bool,
}

impl View for FileEntry {
    type V = FileEntryView;

    open spec fn view(&self) -> FileEntryView {
        FileEntryView { path: self.path@, is_file: self.is_file }
    }
}

/// The views of a listing's entries, in order.
pub open spec fn entry_views(entries: Seq<FileEntry>) -> Seq<FileEntryView> {
    Seq::new(entries.len(), |i: int| entries[i]@)
}

/// The extensions that mark a media file: `mp4`, `mkv`, `avi`, `mov`, in
/// lower case only.
pub open spec fn is_media_extension(ext: Seq<char>) -> bool {
    ext == seq!['m', 'p', '4'] || ext == seq!['m', 'k', 'v'] || ext == seq!['a', 'v', 'i'] || ext
        == seq!['m', 'o', 'v']
}

/// An entry is a media file when it is a regular file with a media
/// extension.
pub open spec fn is_media(entry: FileEntryView) -> bool {
    entry.is_file && match path_extension(entry.path) {
        Some(ext) => is_media_extension(ext),
        None => false,
    }
}

/// The paths of the media files of a listing, in the listing's order.
pub open spec fn media_paths(entries: Seq<FileEntryView>) -> Seq<Seq<char>>
    decreases entries.len(),
{
    if entries.len() == 0 {
        Seq::empty()
    } else if is_media(entries.last()) {
        media_paths(entries.drop_last()).push(entries.last().path)
    } else {
        media_paths(entries.drop_last())
    }
}

/// Lexicographic order on texts, character by character; a text comes
/// before every text that it begins.
pub open spec fn text_le(a: Seq<char>, b: Seq<char>) -> bool
    decreases a.len(),
{
    if a.len() == 0 {
        true
    } else if b.len() == 0 {
        false
    } else if a[0] == b[0] {
        text_le(a.drop_first(), b.drop_first())
    } else {
        a[0] < b[0]
    }
}

/// The text by which a path is ordered: its file name.
pub open spec fn sort_key(path: Seq<char>) -> Seq<char> {
    match final_segment(path) {
        Some(name) => name,
        None => Seq::empty(),
    }
}

/// `sorted` with `path` put in behind the last path whose file name does
/// not come after its own.
pub open spec fn insert_sorted(sorted: Seq<Seq<char>>, path: Seq<char>) -> Seq<Seq<char>>
    decreases sorted.len(),
{
    if sorted.len() == 0 {
        seq![path]
    } else if text_le(sort_key(sorted.last()), sort_key(path)) {
        sorted.push(path)
    } else {
        insert_sorted(sorted.drop_last(), path).push(sorted.last())
    }
}

/// The paths in the order of their file names; paths with the same file
/// name keep the order in which they came.
pub open spec fn sorted_paths(paths: Seq<Seq<char>>) -> Seq<Seq<char>>
    decreases paths.len(),
{
    if paths.len() == 0 {
        Seq::empty()
    } else {
        insert_sorted(sorted_paths(paths.drop_last()), paths.last())
    }
}

/// The episodes for the paths, numbered from 1 in the given order.
pub open spec fn numbered(paths: Seq<Seq<char>>) -> Seq<EpisodeView> {
    Seq::new(
        paths.len(),
        |i: int| EpisodeView { path: paths[i], episode_number: (i + 1) as nat },
    )
}

/// The episodes found in a listing: its media files, ordered by file name
/// and numbered from 1.
pub open spec fn scanned(entries: Seq<FileEntryView>) -> Seq<EpisodeView> {
    numbered(sorted_paths(media_paths(entries)))
}

/// The texts of a sequence of strings, in order.
pub open spec fn string_views(strings: Seq<String>) -> Seq<Seq<char>> {
    Seq::new(strings.len(), |i: int| strings[i]@)
}

/// Putting a path into a sorted sequence is an insertion at the place
/// behind which every file name comes after its own.
pub proof fn lemma_insert_sorted_at(sorted: Seq<Seq<char>>, path: Seq<char>, k: int)
    requires
        0 <= k <= sorted.len(),
        forall|j: int| k <= j < sorted.len() ==> !text_le(sort_key(#[trigger] sorted[j]), sort_key(path)),
        k > 0 ==> text_le(sort_key(sorted[k - 1]), sort_key(path)),
    ensures
        insert_sorted(sorted, path) == sorted.insert(k, path),
    decreases sorted.len(),
{
    if sorted.len() == 0 {
        assert(seq![path] =~= sorted.insert(k, path));
    } else if k == sorted.len() {
        assert(sorted.push(path) =~= sorted.insert(k, path));
    } else {
        assert(!text_le(sort_key(sorted[sorted.len() - 1]), sort_key(path)));
        lemma_insert_sorted_at(sorted.drop_last(), path, k);
        assert(sorted.drop_last().insert(k, path).push(sorted.last()) =~= sorted.insert(k, path));
    }
}

/// Of two texts, one comes before the other or they are equal.
pub proof fn lemma_text_le_total(a: Seq<char>, b: Seq<char>)
    ensures
        text_le(a, b) || text_le(b, a),
    decreases a.len(),
{
    if a.len() > 0 && b.len() > 0 && a[0] == b[0] {
        lemma_text_le_total(a.drop_first(), b.drop_first());
    }
}

/// The order on texts is transitive.
pub proof fn lemma_text_le_transitive(a: Seq<char>, b: Seq<char>, c: Seq<char>)
    requires
        text_le(a, b),
        text_le(b, c),
    ensures
        text_le(a, c),
    decreases a.len(),
{
    if a.len() > 0 && b.len() > 0 && c.len() > 0 && a[0] == b[0] && b[0] == c[0] {
        lemma_text_le_transitive(a.drop_first(), b.drop_first(), c.drop_first());
    }
}

/// The paths stand in the order of their file names.
pub open spec fn is_ordered(paths: Seq<Seq<char>>) -> bool {
    forall|i: int, j: int|
        0 <= i < j < paths.len() ==> text_le(
            sort_key(#[trigger] paths[i]),
            sort_key(#[trigger] paths[j]),
        )
}

/// The place at which `insert_sorted` puts `path` into `sorted`.
pub open spec fn insert_place(sorted: Seq<Seq<char>>, path: Seq<char>) -> int
    decreases sorted.len(),
{
    if sorted.len() == 0 {
        0
    } else if text_le(sort_key(sorted.last()), sort_key(path)) {
        sorted.len() as int
    } else {
        insert_place(sorted.drop_last(), path)
    }
}

/// `insert_sorted` is an insertion at `insert_place`; it keeps an ordered
/// sequence ordered and adds the one path to what the sequence holds.
pub proof fn lemma_insert_sorted(sorted: Seq<Seq<char>>, path: Seq<char>)
    ensures
        0 <= insert_place(sorted, path) <= sorted.len(),
        insert_sorted(sorted, path) == sorted.insert(insert_place(sorted, path), path),
        insert_sorted(sorted, path).to_multiset() == sorted.to_multiset().insert(path),
        is_ordered(sorted) ==> is_ordered(insert_sorted(sorted, path)),
    decreases sorted.len(),
{
    let k = insert_place(sorted, path);
    lemma_insert_place(sorted, path);
    lemma_insert_sorted_at(sorted, path, k);
    vstd::seq_lib::to_multiset_insert(sorted, k, path);
    if is_ordered(sorted) {
        let after = sorted.insert(k, path);
        assert forall|i: int, j: int| 0 <= i < j < after.len() implies text_le(
            sort_key(#[trigger] after[i]),
            sort_key(#[trigger] after[j]),
        ) by {
            if j < k {
                assert(after[i] == sorted[i] && after[j] == sorted[j]);
            } else if j == k {
                assert(after[i] == sorted[i]);
                if i < k - 1 {
                    lemma_text_le_transitive(
                        sort_key(sorted[i]),
                        sort_key(sorted[k - 1]),
                        sort_key(path),
                    );
                }
            } else if i == k {
                assert(after[j] == sorted[j - 1]);
                lemma_text_le_total(sort_key(sorted[j - 1]), sort_key(path));
            } else if i > k {
                assert(after[i] == sorted[i - 1] && after[j] == sorted[j - 1]);
            } else {
                assert(after[i] == sorted[i] && after[j] == sorted[j - 1]);
            }
        }
    }
}

/// Behind `insert_place` every file name comes after that of `path`, and
/// the one just before it does not.
pub proof fn lemma_insert_place(sorted: Seq<Seq<char>>, path: Seq<char>)
    ensures
        0 <= insert_place(sorted, path) <= sorted.len(),
        forall|j: int|
            insert_place(sorted, path) <= j < sorted.len() ==> !text_le(
                sort_key(#[trigger] sorted[j]),
                sort_key(path),
            ),
        insert_place(sorted, path) > 0 ==> text_le(
            sort_key(sorted[insert_place(sorted, path) - 1]),
            sort_key(path),
        ),
    decreases sorted.len(),
{
    if sorted.len() > 0 && !text_le(sort_key(sorted.last()), sort_key(path)) {
        lemma_insert_place(sorted.drop_last(), path);
        let k = insert_place(sorted.drop_last(), path);
        assert forall|j: int| k <= j < sorted.len() implies !text_le(
            sort_key(#[trigger] sorted[j]),
            sort_key(path),
        ) by {
            if j < sorted.len() - 1 {
                assert(sorted[j] == sorted.drop_last()[j]);
            }
        }
        if k > 0 {
            assert(sorted[k - 1] == sorted.drop_last()[k - 1]);
        }
    }
}

/// Sorting puts the paths in the order of their file names and neither
/// adds nor loses one.
pub proof fn lemma_sorted_paths(paths: Seq<Seq<char>>)
    ensures
        is_ordered(sorted_paths(paths)),
        sorted_paths(paths).to_multiset() == paths.to_multiset(),
        sorted_paths(paths).len() == paths.len(),
    decreases paths.len(),
{
    if paths.len() == 0 {
        assert(sorted_paths(paths) =~= paths);
    } else {
        lemma_sorted_paths(paths.drop_last());
        lemma_insert_sorted(sorted_paths(paths.drop_last()), paths.last());
        vstd::seq_lib::to_multiset_build(paths.drop_last(), paths.last());
        assert(paths.drop_last().push(paths.last()) =~= paths);
    }
}

/// The paths of a sequence of episodes, in order.
pub open spec fn episode_paths(episodes: Seq<EpisodeView>) -> Seq<Seq<char>> {
    Seq::new(episodes.len(), |i: int| episodes[i].path)
}

/// A scan numbers its episodes from 1 without a gap, orders them by file
/// name, and finds each media file of the listing once and nothing else.
pub proof fn law_scan_is_ordered_and_complete(entries: Seq<FileEntryView>)
    ensures
        forall|i: int|
            0 <= i < scanned(entries).len() ==> (#[trigger] scanned(entries)[i]).episode_number
                == i + 1,
        is_ordered(episode_paths(scanned(entries))),
        episode_paths(scanned(entries)).to_multiset() == media_paths(entries).to_multiset(),
{
    lemma_sorted_paths(media_paths(entries));
    assert(episode_paths(scanned(entries)) =~= sorted_paths(media_paths(entries)));
}

/// Two texts of which each comes before the other are the same text.
pub proof fn lemma_text_le_antisymmetric(a: Seq<char>, b: Seq<char>)
    requires
        text_le(a, b),
        text_le(b, a),
    ensures
        a == b,
    decreases a.len(),
{
    if a.len() == 0 {
        assert(a =~= b);
    } else {
        lemma_text_le_antisymmetric(a.drop_first(), b.drop_first());
        assert(a =~= seq![a[0]] + a.drop_first());
        assert(b =~= seq![b[0]] + b.drop_first());
    }
}

/// No two of the paths have the same file name.
pub open spec fn distinct_names(paths: Seq<Seq<char>>) -> bool {
    forall|i: int, j: int|
        0 <= i < j < paths.len() ==> sort_key(#[trigger] paths[i]) != sort_key(
            #[trigger] paths[j],
        )
}

/// Sorting paths with distinct file names gives paths with distinct file
/// names.
pub proof fn lemma_sorted_paths_distinct(paths: Seq<Seq<char>>)
    requires
        distinct_names(paths),
    ensures
        distinct_names(sorted_paths(paths)),
    decreases paths.len(),
{
    if paths.len() > 0 {
        let rest = paths.drop_last();
        let x = paths.last();
        assert forall|i: int, j: int| 0 <= i < j < rest.len() implies sort_key(#[trigger] rest[i])
            != sort_key(#[trigger] rest[j]) by {
            assert(rest[i] == paths[i] && rest[j] == paths[j]);
        }
        lemma_sorted_paths_distinct(rest);
        lemma_sorted_paths(rest);
        let sorted = sorted_paths(rest);
        lemma_insert_sorted(sorted, x);
        let k = insert_place(sorted, x);
        let after = sorted.insert(k, x);
        assert forall|i: int| 0 <= i < sorted.len() implies sort_key(#[trigger] sorted[i])
            != sort_key(x) by {
            vstd::seq_lib::to_multiset_contains(sorted, sorted[i]);
            vstd::seq_lib::to_multiset_contains(rest, sorted[i]);
            assert(sorted.contains(sorted[i]));
            let m = choose|m: int| 0 <= m < rest.len() && rest[m] == sorted[i];
            assert(rest[m] == paths[m]);
            assert(sort_key(paths[m]) != sort_key(paths[paths.len() - 1]));
        }
        assert forall|i: int, j: int| 0 <= i < j < after.len() implies sort_key(
            #[trigger] after[i],
        ) != sort_key(#[trigger] after[j]) by {
            let i0 = if i < k { i } else { i - 1 };
            let j0 = if j < k { j } else { j - 1 };
            if i == k {
                assert(after[j] == sorted[j0]);
            } else if j == k {
                assert(after[i] == sorted[i0]);
            } else {
                assert(after[i] == sorted[i0] && after[j] == sorted[j0]);
            }
        }
    }
}

/// Two ordered sequences that hold the same paths, none of them with the
/// file name of another, are the same sequence.
pub proof fn lemma_ordered_unique(a: Seq<Seq<char>>, b: Seq<Seq<char>>)
    requires
        is_ordered(a),
        is_ordered(b),
        distinct_names(a),
        a.to_multiset() == b.to_multiset(),
    ensures
        a == b,
    decreases a.len(),
{
    vstd::seq_lib::to_multiset_len(a);
    vstd::seq_lib::to_multiset_len(b);
    if a.len() == 0 {
        assert(a =~= b);
    } else {
        let x = a.last();
        let n = a.len() as int;
        assert(a.contains(x)) by {
            assert(a[n - 1] == x);
        }
        vstd::seq_lib::to_multiset_contains(a, x);
        vstd::seq_lib::to_multiset_contains(b, x);
        let k = choose|k: int| 0 <= k < b.len() && b[k] == x;
        let a0 = a.drop_last();
        let b0 = b.remove(k);
        vstd::seq_lib::to_multiset_remove(a, n - 1);
        vstd::seq_lib::to_multiset_remove(b, k);
        assert(a.remove(n - 1) =~= a0);
        assert(a0.to_multiset() =~= b0.to_multiset());
        assert forall|i: int, j: int| 0 <= i < j < a0.len() implies text_le(
            sort_key(#[trigger] a0[i]),
            sort_key(#[trigger] a0[j]),
        ) && sort_key(a0[i]) != sort_key(a0[j]) by {
            assert(a0[i] == a[i] && a0[j] == a[j]);
        }
        assert forall|i: int, j: int| 0 <= i < j < b0.len() implies text_le(
            sort_key(#[trigger] b0[i]),
            sort_key(#[trigger] b0[j]),
        ) by {
            let i1 = if i < k { i } else { i + 1 };
            let j1 = if j < k { j } else { j + 1 };
            assert(b0[i] == b[i1] && b0[j] == b[j1]);
        }
        lemma_ordered_unique(a0, b0);
        if k < n - 1 {
            let y = b[n - 1];
            assert(b0[n - 2] == y);
            assert(a0[n - 2] == y);
            assert(a[n - 2] == y);
            assert(text_le(sort_key(b[k]), sort_key(b[n - 1])));
            assert(text_le(sort_key(a[n - 2]), sort_key(a[n - 1])));
            lemma_text_le_antisymmetric(sort_key(x), sort_key(y));
            assert(sort_key(a[n - 2]) != sort_key(a[n - 1]));
        }
        assert(b.remove(n - 1) =~= b.drop_last());
        assert(b =~= b.drop_last().push(x));
        assert(a =~= a0.push(x));
    }
}

/// Taking one entry out of a listing takes its path out of the media
/// paths, where it is a media file, and nothing else.
pub proof fn lemma_media_paths_remove(entries: Seq<FileEntryView>, k: int)
    requires
        0 <= k < entries.len(),
    ensures
        media_paths(entries.remove(k)).to_multiset() == (if is_media(entries[k]) {
            media_paths(entries).to_multiset().remove(entries[k].path)
        } else {
            media_paths(entries).to_multiset()
        }),
    decreases entries.len(),
{
    let n = entries.len() as int;
    let last = entries.last();
    let rest = entries.drop_last();
    if k == n - 1 {
        assert(entries.remove(k) =~= rest);
        if is_media(last) {
            vstd::seq_lib::to_multiset_build(media_paths(rest), last.path);
            assert(media_paths(rest).to_multiset().insert(last.path).remove(last.path)
                =~= media_paths(rest).to_multiset());
        }
    } else {
        lemma_media_paths_remove(rest, k);
        let cut = entries.remove(k);
        assert(cut.drop_last() =~= rest.remove(k));
        assert(cut.last() == last);
        assert(rest[k] == entries[k]);
        if is_media(last) {
            vstd::seq_lib::to_multiset_build(media_paths(rest), last.path);
            vstd::seq_lib::to_multiset_build(media_paths(rest.remove(k)), last.path);
            if is_media(entries[k]) {
                let found = media_paths(rest);
                assert(found.contains(entries[k].path)) by {
                    lemma_media_paths_contains(rest, k);
                }
                vstd::seq_lib::to_multiset_contains(found, entries[k].path);
                assert(found.to_multiset().remove(entries[k].path).insert(last.path)
                    =~= found.to_multiset().insert(last.path).remove(entries[k].path));
            }
        }
    }
}

/// The path of a media file of the listing is among the media paths.
pub proof fn lemma_media_paths_contains(entries: Seq<FileEntryView>, k: int)
    requires
        0 <= k < entries.len(),
        is_media(entries[k]),
    ensures
        media_paths(entries).contains(entries[k].path),
    decreases entries.len(),
{
    let rest = entries.drop_last();
    if k == entries.len() - 1 {
        let found = media_paths(rest).push(entries[k].path);
        assert(found[found.len() - 1] == entries[k].path);
    } else {
        lemma_media_paths_contains(rest, k);
        assert(rest[k] == entries[k]);
        let i = choose|i: int| 0 <= i < media_paths(rest).len() && media_paths(rest)[i]
            == entries[k].path;
        if is_media(entries.last()) {
            assert(media_paths(entries)[i] == entries[k].path);
        }
    }
}

/// Two listings that hold the same entries hold the same media paths.
pub proof fn lemma_media_paths_permuted(one: Seq<FileEntryView>, other: Seq<FileEntryView>)
    requires
        one.to_multiset() == other.to_multiset(),
    ensures
        media_paths(one).to_multiset() == media_paths(other).to_multiset(),
    decreases one.len(),
{
    vstd::seq_lib::to_multiset_len(one);
    vstd::seq_lib::to_multiset_len(other);
    if one.len() == 0 {
        assert(one =~= other);
    } else {
        let n = one.len() as int;
        let e = one.last();
        assert(one.contains(e)) by {
            assert(one[n - 1] == e);
        }
        vstd::seq_lib::to_multiset_contains(one, e);
        vstd::seq_lib::to_multiset_contains(other, e);
        let k = choose|k: int| 0 <= k < other.len() && other[k] == e;
        vstd::seq_lib::to_multiset_remove(one, n - 1);
        vstd::seq_lib::to_multiset_remove(other, k);
        assert(one.remove(n - 1) =~= one.drop_last());
        assert(one.drop_last().to_multiset() =~= other.remove(k).to_multiset());
        lemma_media_paths_permuted(one.drop_last(), other.remove(k));
        lemma_media_paths_remove(one, n - 1);
        lemma_media_paths_remove(other, k);
        if is_media(e) {
            lemma_media_paths_contains(one, n - 1);
            lemma_media_paths_contains(other, k);
            vstd::seq_lib::to_multiset_contains(media_paths(one), e.path);
            vstd::seq_lib::to_multiset_contains(media_paths(other), e.path);
            let m1 = media_paths(one).to_multiset();
            let m2 = media_paths(other).to_multiset();
            assert(m1 =~= m1.remove(e.path).insert(e.path));
            assert(m2 =~= m2.remove(e.path).insert(e.path));
        }
    }
}

/// The order of a listing does not matter: two listings that hold the same
/// entries, with no file name twice among the media files, give the same
/// episodes with the same numbers.
pub proof fn law_scan_ignores_listing_order(one: Seq<FileEntryView>, other: Seq<FileEntryView>)
    requires
        one.to_multiset() == other.to_multiset(),
        distinct_names(media_paths(one)),
    ensures
        scanned(one) == scanned(other),
{
    lemma_media_paths_permuted(one, other);
    lemma_sorted_paths(media_paths(one));
    lemma_sorted_paths(media_paths(other));
    lemma_sorted_paths_distinct(media_paths(one));
    lemma_ordered_unique(sorted_paths(media_paths(one)), sorted_paths(media_paths(other)));
}

/// Compares two texts in lexicographic order.
pub fn chars_le(a: &Vec<char>, b: &Vec<char>) -> (r: bool)
    ensures
        r == text_le(a@, b@),
{
    let mut i: usize = 0;
    assert(a@.skip(0) =~= a@ && b@.skip(0) =~= b@);
    while i < a.len() && i < b.len()
        invariant
            i <= a@.len(),
            i <= b@.len(),
            text_le(a@, b@) == text_le(a@.skip(i as int), b@.skip(i as int)),
        decreases a@.len() - i,
    {
        if a[i] != b[i] {
            return a[i] < b[i];
        }
        assert(a@.skip(i as int).drop_first() =~= a@.skip(i + 1));
        assert(b@.skip(i as int).drop_first() =~= b@.skip(i + 1));
        i += 1;
    }
    i >= a.len()
}

/// Tells whether `v[c..d]` is a media extension.
fn is_media_ext(v: &Vec<char>, c: usize, d: usize) -> (r: bool)
    requires
        c <= d <= v@.len(),
    ensures
        r == is_media_extension(v@.subrange(c as int, d as int)),
{
    let ghost ext = v@.subrange(c as int, d as int);
    if d - c != 3 {
        assert(seq!['m', 'p', '4'].len() == 3 && seq!['m', 'k', 'v'].len() == 3);
        assert(seq!['a', 'v', 'i'].len() == 3 && seq!['m', 'o', 'v'].len() == 3);
        return false;
    }
    let x: char = v[c];
    let y: char = v[c + 1];
    let z: char = v[c + 2];
    assert(ext =~= seq![x, y, z]);
    assert(seq![x, y, z] == seq!['m', 'p', '4'] <==> (x == 'm' && y == 'p' && z == '4')) by {
        if x == 'm' && y == 'p' && z == '4' {
            assert(seq![x, y, z] =~= seq!['m', 'p', '4']);
        } else {
            assert(seq![x, y, z][0] == x && seq![x, y, z][1] == y && seq![x, y, z][2] == z);
        }
    }
    assert(seq![x, y, z] == seq!['m', 'k', 'v'] <==> (x == 'm' && y == 'k' && z == 'v')) by {
        if x == 'm' && y == 'k' && z == 'v' {
            assert(seq![x, y, z] =~= seq!['m', 'k', 'v']);
        } else {
            assert(seq![x, y, z][0] == x && seq![x, y, z][1] == y && seq![x, y, z][2] == z);
        }
    }
    assert(seq![x, y, z] == seq!['a', 'v', 'i'] <==> (x == 'a' && y == 'v' && z == 'i')) by {
        if x == 'a' && y == 'v' && z == 'i' {
            assert(seq![x, y, z] =~= seq!['a', 'v', 'i']);
        } else {
            assert(seq![x, y, z][0] == x && seq![x, y, z][1] == y && seq![x, y, z][2] == z);
        }
    }
    assert(seq![x, y, z] == seq!['m', 'o', 'v'] <==> (x == 'm' && y == 'o' && z == 'v')) by {
        if x == 'm' && y == 'o' && z == 'v' {
            assert(seq![x, y, z] =~= seq!['m', 'o', 'v']);
        } else {
            assert(seq![x, y, z][0] == x && seq![x, y, z][1] == y && seq![x, y, z][2] == z);
        }
    }
    (x == 'm' && y == 'p' && z == '4') || (x == 'm' && y == 'k' && z == 'v') || (x == 'a' && y
        == 'v' && z == 'i') || (x == 'm' && y == 'o' && z == 'v')
}

/// Finds the place at which a path with the file name `key` goes into the
/// sorted paths, whose file names are `keys`.
fn insertion_place(keys: &Vec<Vec<char>>, key: &Vec<char>) -> (k: usize)
    ensures
        k <= keys@.len(),
        forall|j: int| k <= j < keys@.len() ==> !text_le((#[trigger] keys@[j])@, key@),
        k > 0 ==> text_le(keys@[k - 1]@, key@),
{
    let mut k: usize = keys.len();
    let mut searching: bool = true;
    while searching && k > 0
        invariant
            k <= keys@.len(),
            forall|j: int| k <= j < keys@.len() ==> !text_le((#[trigger] keys@[j])@, key@),
            !searching ==> k > 0 && text_le(keys@[k - 1]@, key@),
        decreases k + (if searching { 1int } else { 0int }),
    {
        if chars_le(&keys[k - 1], key) {
            searching = false;
        } else {
            k -= 1;
        }
    }
    k
}

/// The bounds in `v` of the file name of the path that `v` holds, where
/// that path names a file with a media extension.
fn media_name_bounds(v: &Vec<char>) -> (r: Option<(usize, usize)>)
    ensures
        match r {
            Some((a, b)) => a <= b <= v@.len() && final_segment(v@) == Some(
                v@.subrange(a as int, b as int),
            ) && path_extension(v@).is_some() && is_media_extension(path_extension(v@).unwrap()),
            None => match path_extension(v@) {
                Some(ext) => !is_media_extension(ext),
                None => true,
            },
        },
{
    match final_segment_bounds(v) {
        None => None,
        Some((a, b)) => match extension_bounds(v, a, b) {
            None => None,
            Some((c, d)) => if is_media_ext(v, c, d) {
                Some((a, b))
            } else {
                None
            },
        },
    }
}

/// Finds the episodes in a directory listing: the regular files with a
/// media extension, in the order of their file names, numbered from 1.
/// An empty result means that the listing holds no media file.
pub fn scan_episodes(entries: &Vec<FileEntry>) -> (episodes: Vec<Episode>)
    ensures
        episode_views(episodes@) == scanned(entry_views(entries@)),
{
    let ghost listing = entry_views(entries@);
    let mut paths: Vec<String> = Vec::new();
    let mut keys: Vec<Vec<char>> = Vec::new();
    let mut i: usize = 0;
    assert(string_views(paths@) =~= sorted_paths(media_paths(listing.subrange(0, 0))));
    while i < entries.len()
        invariant
            i <= entries@.len(),
            listing == entry_views(entries@),
            paths@.len() == keys@.len(),
            string_views(paths@) == sorted_paths(media_paths(listing.subrange(0, i as int))),
            forall|j: int| 0 <= j < keys@.len() ==> (#[trigger] keys@[j])@ == sort_key(paths@[j]@),
        decreases entries@.len() - i,
    {
        let entry = &entries[i];
        let ghost seen = listing.subrange(0, i as int);
        let ghost next = listing.subrange(0, i + 1);
        proof {
            assert(next.drop_last() =~= seen);
            assert(next.last() == entry@);
            if is_media(entry@) {
                let found = media_paths(seen).push(entry.path@);
                assert(media_paths(next) == found);
                assert(found.drop_last() =~= media_paths(seen));
                assert(found.last() == entry.path@);
            } else {
                assert(media_paths(next) == media_paths(seen));
            }
        }
        if entry.is_file {
            let v = chars_of(entry.path.as_str());
            match media_name_bounds(&v) {
                None => {},
                Some((a, b)) => {
                    let key = slice_chars(&v, a, b);
                    let k: usize = insertion_place(&keys, &key);
                    let ghost before = string_views(paths@);
                    proof {
                        assert forall|j: int| k <= j < before.len() implies !text_le(
                            sort_key(#[trigger] before[j]),
                            sort_key(entry.path@),
                        ) by {
                            assert(keys@[j]@ == sort_key(paths@[j]@));
                        }
                        lemma_insert_sorted_at(before, entry.path@, k as int);
                    }
                    paths.insert(k, entry.path.clone());
                    keys.insert(k, key);
                    assert(string_views(paths@) =~= before.insert(k as int, entry.path@));
                },
            }
        }
        i += 1;
    }
    assert(listing.subrange(0, i as int) =~= listing);
    let mut episodes: Vec<Episode> = Vec::new();
    let mut j: usize = 0;
    while j < paths.len()
        invariant
            j <= paths@.len(),
            episodes@.len() == j,
            forall|t: int|
                0 <= t < j ==> (#[trigger] episodes@[t])@ == (EpisodeView {
                    path: paths@[t]@,
                    episode_number: (t + 1) as nat,
                }),
        decreases paths@.len() - j,
    {
        episodes.push(Episode { path: paths[j].clone(), episode_number: j + 1 });
        j += 1;
    }
    assert(episode_views(episodes@) =~= numbered(string_views(paths@)));
    episodes
}

} // verus!
