//! The catalog: the video files of one directory, in the order of their
//! paths, each under a short alias made of its rank and its extension.

use crate::mime::{
    get_lowercase_extension, is_video_ext, is_video_extension, video_extension,
};
use crate::path::{extension, file_name};
use crate::text::lowercase_of;
use crate::text::{
    before_first, decimal, decimal_string, decimal_value, lemma_before_first_of_joined,
    lemma_decimal, lemma_lex_le_antisymmetric, lemma_lex_le_total, lemma_lex_le_transitive,
    lex_le, str_le,
};
use vstd::relations::{sorted_by, total_ordering};
use vstd::prelude::*;
use vstd::seq_lib::*;
use vstd::string::*;

verus! {

/// What a scan of a directory found of one entry.
#[derive(Debug)]
pub struct DirEntry {
    /// The path of the entry, the directory included.
    pub path: String,
    /// Whether the entry is a regular file.
    pub is_file: bool,
}

/// A `DirEntry` as contracts see it.
pub struct DirEntryView {
    pub path: Seq<char>,
    pub is_file: bool,
}

impl View for DirEntry {
    type V = DirEntryView;

    open spec fn view(&self) -> DirEntryView {
        DirEntryView { path: self.path@, is_file: self.is_file }
    }
}

impl DeepView for DirEntry {
    type V = DirEntryView;

    open spec fn deep_view(&self) -> DirEntryView {
        self@
    }
}

/// One video of the catalog.
#[derive(Clone, Debug)]
pub struct VideoEntry {
    /// The path of the file.
    pub path: String,
    /// The name under which the catalog offers it.
    pub alias: String,
}

/// A `VideoEntry` as contracts see it.
pub struct VideoEntryView {
    pub path: Seq<char>,
    pub alias: Seq<char>,
}

impl View for VideoEntry {
    type V = VideoEntryView;

    open spec fn view(&self) -> VideoEntryView {
        VideoEntryView { path: self.path@, alias: self.alias@ }
    }
}

impl DeepView for VideoEntry {
    type V = VideoEntryView;

    open spec fn deep_view(&self) -> VideoEntryView {
        self@
    }
}

/// The alias of the video of rank `rank` whose lowercase extension is `ext`.
pub open spec fn alias_for(rank: nat, ext: Seq<char>) -> Seq<char> {
    decimal(rank) + seq!['.'] + ext
}

/// Whether a directory entry belongs in the catalog: a regular file whose
/// extension, in lowercase, is one of the video formats.
pub open spec fn is_video_file(entry: DirEntryView) -> bool {
    entry.is_file && video_extension(entry.path) is Some
}

/// The paths of the video files of a listing, in the order of the listing.
pub open spec fn video_paths(entries: Seq<DirEntryView>) -> Seq<Seq<char>>
    decreases entries.len(),
{
    if entries.len() == 0 {
        Seq::empty()
    } else if is_video_file(entries.last()) {
        video_paths(entries.drop_last()).push(entries.last().path)
    } else {
        video_paths(entries.drop_last())
    }
}

/// The paths of the entries of a catalog, in its order.
pub open spec fn catalog_paths(catalog: Seq<VideoEntryView>) -> Seq<Seq<char>> {
    Seq::new(catalog.len(), |i: int| catalog[i].path)
}

/// Whether a sequence of paths is in ascending byte-wise order.
pub open spec fn sorted_paths(paths: Seq<Seq<char>>) -> bool {
    forall|i: int, j: int| 0 <= i < j < paths.len() ==> lex_le(paths[i], paths[j])
}

/// Whether the entry at `i` names a video and bears the alias of its place.
pub open spec fn well_aliased(catalog: Seq<VideoEntryView>, i: int) -> bool {
    &&& video_extension(catalog[i].path) is Some
    &&& catalog[i].alias == alias_for((i + 1) as nat, video_extension(catalog[i].path).unwrap())
}

/// Whether a sequence of entries is a catalog: videos only, in the order of
/// their paths, the entry at place `i` under the alias of rank `i + 1`.
pub open spec fn is_catalog(catalog: Seq<VideoEntryView>) -> bool {
    &&& sorted_paths(catalog_paths(catalog))
    &&& forall|i: int| 0 <= i < catalog.len() ==> well_aliased(catalog, i)
}

/// Every entry of a catalog has a file name, so each is listed and can be
/// asked for by that name.
pub proof fn lemma_catalog_entries_have_file_names(catalog: Seq<VideoEntryView>, i: int)
    requires
        is_catalog(catalog),
        0 <= i < catalog.len(),
    ensures
        file_name(catalog[i].path) is Some,
{
    assert(well_aliased(catalog, i));
}

/// The rank that an alias states: the number written before its first `.`.
pub open spec fn alias_rank(alias: Seq<char>) -> nat {
    decimal_value(before_first(alias, '.'))
}

/// An alias states the rank that it was made for.
pub proof fn lemma_alias_rank(rank: nat, ext: Seq<char>)
    ensures
        alias_rank(alias_for(rank, ext)) == rank,
{
    lemma_decimal(rank);
    lemma_before_first_of_joined(decimal(rank), '.', ext);
}

/// The aliases of a catalog state the ranks 1, 2, 3 and so on in its order:
/// so they are pairwise different, and they rise strictly with the rank.
pub proof fn lemma_aliases_unique_and_increasing(catalog: Seq<VideoEntryView>, i: int, j: int)
    requires
        is_catalog(catalog),
        0 <= i < j < catalog.len(),
    ensures
        alias_rank(catalog[i].alias) == i + 1,
        alias_rank(catalog[j].alias) == j + 1,
        alias_rank(catalog[i].alias) < alias_rank(catalog[j].alias),
        catalog[i].alias != catalog[j].alias,
{
    assert(well_aliased(catalog, i));
    assert(well_aliased(catalog, j));
    lemma_alias_rank((i + 1) as nat, video_extension(catalog[i].path).unwrap());
    lemma_alias_rank((j + 1) as nat, video_extension(catalog[j].path).unwrap());
}

/// A path is among the video paths of a listing just when the listing has a
/// video file at that path.
pub proof fn lemma_video_paths_contains(entries: Seq<DirEntryView>, path: Seq<char>)
    ensures
        video_paths(entries).contains(path) <==> exists|k: int|
            0 <= k < entries.len() && #[trigger] entries[k].path == path && is_video_file(
                entries[k],
            ),
    decreases entries.len(),
{
    if entries.len() > 0 {
        let rest = entries.drop_last();
        lemma_video_paths_contains(rest, path);
        if video_paths(entries).contains(path) {
            if is_video_file(entries.last()) && entries.last().path == path {
                assert(entries[entries.len() - 1].path == path);
            } else {
                let i = choose|i: int|
                    0 <= i < video_paths(entries).len() && video_paths(entries)[i] == path;
                assert(video_paths(rest)[i] == path);
                let k = choose|k: int|
                    0 <= k < rest.len() && #[trigger] rest[k].path == path && is_video_file(
                        rest[k],
                    );
                assert(entries[k].path == path);
            }
        }
        if exists|k: int|
            0 <= k < entries.len() && #[trigger] entries[k].path == path && is_video_file(
                entries[k],
            ) {
            let k = choose|k: int|
                0 <= k < entries.len() && #[trigger] entries[k].path == path && is_video_file(
                    entries[k],
                );
            if k == entries.len() - 1 {
                assert(video_paths(entries).last() == path);
            } else {
                assert(rest[k].path == path);
                let i = choose|i: int|
                    0 <= i < video_paths(rest).len() && video_paths(rest)[i] == path;
                assert(video_paths(entries)[i] == path);
            }
        }
    }
}

/// A catalog built from a listing holds exactly the video files of the
/// listing: a path stands in it just when the listing has a regular file
/// with a video extension at that path, and it has as many entries as the
/// listing has such files.
pub proof fn lemma_catalog_holds_exactly_the_videos(
    entries: Seq<DirEntryView>,
    catalog: Seq<VideoEntryView>,
    path: Seq<char>,
)
    requires
        catalog_paths(catalog).to_multiset() == video_paths(entries).to_multiset(),
    ensures
        catalog.len() == video_paths(entries).len(),
        (exists|i: int| 0 <= i < catalog.len() && #[trigger] catalog[i].path == path)
            <==> exists|k: int|
            0 <= k < entries.len() && #[trigger] entries[k].path == path && is_video_file(
                entries[k],
            ),
{
    lemma_video_paths_contains(entries, path);
    let paths = catalog_paths(catalog);
    paths.to_multiset_ensures();
    video_paths(entries).to_multiset_ensures();
    assert(paths.contains(path) <==> paths.to_multiset().count(path) > 0);
    assert(video_paths(entries).contains(path) <==> video_paths(entries).to_multiset().count(path)
        > 0);
    if paths.contains(path) {
        let i = choose|i: int| 0 <= i < paths.len() && paths[i] == path;
        assert(catalog[i].path == path);
    }
    if exists|i: int| 0 <= i < catalog.len() && #[trigger] catalog[i].path == path {
        let i = choose|i: int| 0 <= i < catalog.len() && #[trigger] catalog[i].path == path;
        assert(paths[i] == path);
    }
}

/// A listing has one catalog only: two catalogs that hold the same paths
/// are the same, entry by entry.
pub proof fn lemma_catalog_is_determined(a: Seq<VideoEntryView>, b: Seq<VideoEntryView>)
    requires
        is_catalog(a),
        is_catalog(b),
        catalog_paths(a).to_multiset() == catalog_paths(b).to_multiset(),
    ensures
        a == b,
{
    let leq = |x: Seq<char>, y: Seq<char>| lex_le(x, y);
    assert(total_ordering(leq)) by {
        assert forall|x: Seq<char>| #[trigger] leq(x, x) by {
            lemma_lex_le_total(x, x);
        }
        assert forall|x: Seq<char>, y: Seq<char>| #[trigger] leq(x, y) && #[trigger] leq(
            y,
            x,
        ) implies x == y by {
            lemma_lex_le_antisymmetric(x, y);
        }
        assert forall|x: Seq<char>, y: Seq<char>, z: Seq<char>| #[trigger] leq(x, y)
            && #[trigger] leq(y, z) implies leq(x, z) by {
            lemma_lex_le_transitive(x, y, z);
        }
        assert forall|x: Seq<char>, y: Seq<char>| #[trigger] leq(x, y) || #[trigger] leq(
            y,
            x,
        ) by {
            lemma_lex_le_total(x, y);
        }
    }
    assert(sorted_by(catalog_paths(a), leq));
    assert(sorted_by(catalog_paths(b), leq));
    lemma_sorted_unique(catalog_paths(a), catalog_paths(b), leq);
    assert(a.len() == catalog_paths(a).len());
    assert(b.len() == catalog_paths(b).len());
    assert forall|i: int| 0 <= i < a.len() implies a[i] == b[i] by {
        assert(catalog_paths(a)[i] == catalog_paths(b)[i]);
        assert(well_aliased(a, i));
        assert(well_aliased(b, i));
    }
    assert(a =~= b);
}

/// The paths of a list of files, each given with its lowercase extension,
/// in the order of the list.
pub open spec fn pair_paths(files: Seq<(String, String)>) -> Seq<Seq<char>> {
    Seq::new(files.len(), |i: int| files[i].0@)
}

/// Whether the entry at place `i` of a catalog stands for one of `files`:
/// it has the path of one of them, and bears the alias of rank `i + 1` with
/// the extension that this file was given with.
pub open spec fn made_from(
    files: Seq<(String, String)>,
    catalog: Seq<VideoEntryView>,
    i: int,
) -> bool {
    exists|k: int|
        0 <= k < files.len() && (#[trigger] files[k]).0@ == catalog[i].path && catalog[i].alias
            == alias_for((i + 1) as nat, files[k].1@)
}

spec fn holds_file(files: Seq<(String, String)>, path: Seq<char>, ext: Seq<char>) -> bool {
    exists|k: int| 0 <= k < files.len() && (#[trigger] files[k]).0@ == path && files[k].1@ == ext
}

proof fn lemma_insert_to_multiset<A>(s: Seq<A>, p: int, x: A)
    requires
        0 <= p <= s.len(),
    ensures
        s.insert(p, x).to_multiset() == s.to_multiset().insert(x),
{
    broadcast use group_to_multiset_ensures;

    let head = s.take(p);
    let tail = s.skip(p);
    assert(s.insert(p, x) =~= head.push(x) + tail);
    assert(s =~= head + tail);
    lemma_multiset_commutative(head.push(x), tail);
    lemma_multiset_commutative(head, tail);
    assert(head.push(x).to_multiset().add(tail.to_multiset()) =~= head.to_multiset().add(
        tail.to_multiset(),
    ).insert(x));
}

/// Puts `path` with its extension into `items` at the place that keeps the
/// paths in order, behind any equal path.
fn insert_sorted(items: &mut Vec<(String, String)>, path: String, ext: String)
    requires
        sorted_paths(pair_paths(old(items)@)),
    ensures
        sorted_paths(pair_paths(final(items)@)),
        pair_paths(final(items)@).to_multiset() == pair_paths(old(items)@).to_multiset().insert(
            path@,
        ),
        exists|p: int|
            0 <= p <= old(items)@.len() && final(items)@ == old(items)@.insert(p, (path, ext)),
{
    let ghost before = items@;
    let mut p: usize = 0;
    while p < items.len() && str_le(items[p].0.as_str(), path.as_str())
        invariant
            items@ == before,
            p <= items.len(),
            forall|k: int| 0 <= k < p ==> lex_le(#[trigger] before[k].0@, path@),
        decreases items.len() - p,
    {
        p = p + 1;
    }
    items.insert(p, (path, ext));
    proof {
        let after = items@;
        assert(pair_paths(after) =~= pair_paths(before).insert(p as int, path@));
        lemma_insert_to_multiset(pair_paths(before), p as int, path@);
        assert forall|i: int, j: int| 0 <= i < j < after.len() implies lex_le(
            pair_paths(after)[i],
            pair_paths(after)[j],
        ) by {
            if j < p {
                assert(lex_le(pair_paths(before)[i], pair_paths(before)[j]));
            } else if j == p {
                assert(lex_le(before[i].0@, path@));
            } else if i == p {
                lemma_lex_le_total(before[p as int].0@, path@);
                if j - 1 > p {
                    assert(lex_le(pair_paths(before)[p as int], pair_paths(before)[j - 1]));
                    lemma_lex_le_transitive(path@, before[p as int].0@, before[j - 1].0@);
                }
            } else if i < p {
                assert(lex_le(pair_paths(before)[i], pair_paths(before)[j - 1]));
            } else {
                assert(lex_le(pair_paths(before)[i - 1], pair_paths(before)[j - 1]));
            }
        }
    }
}

/// Orders video files into a catalog. Each file is given by its path and
/// its lowercase extension. The catalog holds the same paths in ascending
/// order, and the entry at place `i` bears the alias of rank `i + 1` with the
/// extension that its path was given with.
pub fn catalog_of(files: &[(String, String)]) -> (catalog: Vec<VideoEntry>)
    ensures
        catalog.len() == files.len(),
        sorted_paths(catalog_paths(catalog.deep_view())),
        catalog_paths(catalog.deep_view()).to_multiset() == pair_paths(files@).to_multiset(),
        forall|i: int|
            0 <= i < catalog.len() ==> #[trigger] made_from(files@, catalog.deep_view(), i),
{
    let mut items: Vec<(String, String)> = Vec::new();
    let mut k: usize = 0;
    proof {
        assert(pair_paths(items@) =~= pair_paths(files@.take(0)));
    }
    while k < files.len()
        invariant
            k <= files.len(),
            items.len() == k,
            sorted_paths(pair_paths(items@)),
            forall|i: int|
                0 <= i < items.len() ==> holds_file(files@, (#[trigger] items@[i]).0@, items@[i].1@),
            pair_paths(items@).to_multiset() == pair_paths(files@.take(k as int)).to_multiset(),
        decreases files.len() - k,
    {
        let ghost before = items@;
        let path = files[k].0.clone();
        let ext = files[k].1.clone();
        insert_sorted(&mut items, path, ext);
        proof {
            let p = choose|p: int|
                0 <= p <= before.len() && items@ == before.insert(p, (path, ext));
            assert forall|i: int| 0 <= i < items.len() implies holds_file(
                files@,
                (#[trigger] items@[i]).0@,
                items@[i].1@,
            ) by {
                if i < p {
                    assert(items@[i] == before[i]);
                } else if i > p {
                    assert(items@[i] == before[i - 1]);
                } else {
                    assert(files@[k as int].0@ == path@ && files@[k as int].1@ == ext@);
                }
            }
            assert(pair_paths(files@.take(k + 1)) =~= pair_paths(files@.take(k as int)).push(
                path@,
            ));
            to_multiset_build(pair_paths(files@.take(k as int)), path@);
        }
        k = k + 1;
    }
    proof {
        assert(files@.take(k as int) =~= files@);
    }
    let mut catalog: Vec<VideoEntry> = Vec::new();
    let mut i: usize = 0;
    while i < items.len()
        invariant
            i <= items.len(),
            catalog.len() == i,
            forall|j: int|
                0 <= j < i ==> (#[trigger] catalog@[j]).path@ == items@[j].0@ && catalog@[j].alias@
                    == alias_for((j + 1) as nat, items@[j].1@),
        decreases items.len() - i,
    {
        let mut alias = decimal_string(i + 1);
        alias.append(".");
        alias.append(items[i].1.as_str());
        proof {
            reveal_strlit(".");
            assert("."@ =~= seq!['.']);
        }
        catalog.push(VideoEntry { path: items[i].0.clone(), alias });
        i = i + 1;
    }
    proof {
        let c = catalog.deep_view();
        assert(catalog_paths(c) =~= pair_paths(items@));
        assert forall|i: int| 0 <= i < catalog.len() implies #[trigger] made_from(
            files@,
            c,
            i,
        ) by {
            assert(c[i] == catalog@[i]@);
            assert(holds_file(files@, items@[i].0@, items@[i].1@));
        }
    }
    catalog
}

/// The files of a list as contracts see them: each path with its extension.
pub open spec fn file_views(files: Seq<(String, String)>) -> Seq<(Seq<char>, Seq<char>)> {
    Seq::new(files.len(), |i: int| (files[i].0@, files[i].1@))
}

/// The video files among directory entries, each of which is given with the
/// lowercase form of its extension where it has one: the regular files whose
/// lowercase extension is one of the video formats, each with that
/// extension, in the order of the entries.
pub open spec fn selected(candidates: Seq<(DirEntry, Option<String>)>) -> Seq<
    (Seq<char>, Seq<char>),
>
    decreases candidates.len(),
{
    if candidates.len() == 0 {
        Seq::empty()
    } else {
        let rest = selected(candidates.drop_last());
        let (entry, lowered) = candidates.last();
        match lowered {
            Some(ext) => if entry.is_file && is_video_extension(ext@) {
                rest.push((entry.path@, ext@))
            } else {
                rest
            },
            None => rest,
        }
    }
}

/// Whether each candidate is the entry at its place of `listing`, given with
/// the lowercase form of that entry's extension.
pub open spec fn lowered_listing(
    candidates: Seq<(DirEntry, Option<String>)>,
    listing: Seq<DirEntryView>,
) -> bool {
    &&& candidates.len() == listing.len()
    &&& forall|i: int|
        0 <= i < candidates.len() ==> (#[trigger] candidates[i]).0@ == listing[i] && match (
        candidates[i].1) {
            Some(lower) => extension(listing[i].path) is Some && lower@ == lowercase_of(
                extension(listing[i].path).unwrap(),
            ),
            None => extension(listing[i].path) is None,
        }
}

/// Selecting by the lowercase extensions of a listing gives its video files:
/// the video paths of the listing, each with its video extension.
pub proof fn lemma_selected_are_the_videos(
    candidates: Seq<(DirEntry, Option<String>)>,
    listing: Seq<DirEntryView>,
)
    requires
        lowered_listing(candidates, listing),
    ensures
        selected(candidates).len() == video_paths(listing).len(),
        forall|j: int|
            0 <= j < selected(candidates).len() ==> (#[trigger] selected(candidates)[j]).0
                == video_paths(listing)[j] && video_extension(selected(candidates)[j].0) == Some(
                selected(candidates)[j].1,
            ),
    decreases candidates.len(),
{
    if candidates.len() > 0 {
        let n = candidates.len() - 1;
        assert(candidates[n].0@ == listing[n]);
        assert forall|i: int| 0 <= i < n implies (#[trigger] candidates.drop_last()[i]).0@
            == listing.drop_last()[i] && match (candidates.drop_last()[i].1) {
            Some(lower) => extension(listing.drop_last()[i].path) is Some && lower@
                == lowercase_of(extension(listing.drop_last()[i].path).unwrap()),
            None => extension(listing.drop_last()[i].path) is None,
        } by {
            assert(candidates[i].0@ == listing[i]);
        }
        lemma_selected_are_the_videos(candidates.drop_last(), listing.drop_last());
    }
}

/// Picks the video files out of directory entries, each of which is given
/// with the lowercase form of its extension (`None` where it has none).
pub fn video_files(candidates: &[(DirEntry, Option<String>)]) -> (files: Vec<(String, String)>)
    ensures
        file_views(files@) == selected(candidates@),
{
    let mut files: Vec<(String, String)> = Vec::new();
    let mut k: usize = 0;
    proof {
        assert(candidates@.take(0) =~= Seq::empty());
        assert(file_views(files@) =~= selected(candidates@.take(0)));
    }
    while k < candidates.len()
        invariant
            k <= candidates.len(),
            file_views(files@) == selected(candidates@.take(k as int)),
        decreases candidates.len() - k,
    {
        let ghost before = files@;
        proof {
            let upto = candidates@.take(k + 1);
            assert(upto.drop_last() =~= candidates@.take(k as int));
            assert(upto.last() == candidates@[k as int]);
        }
        let entry = &candidates[k].0;
        match &candidates[k].1 {
            Some(ext) => {
                if entry.is_file && is_video_ext(ext.as_str()) {
                    files.push((entry.path.clone(), ext.clone()));
                    proof {
                        assert(file_views(files@) =~= file_views(before).push(
                            (entry.path@, ext@),
                        ));
                    }
                }
            },
            None => {},
        }
        k = k + 1;
    }
    proof {
        assert(candidates@.take(k as int) =~= candidates@);
    }
    files
}

/// Builds the catalog of a directory from the entries that a scan of it
/// found: the regular files with a video extension, sorted by path, each
/// under the alias of its rank.
pub fn get_video_list(entries: &[DirEntry]) -> (catalog: Vec<VideoEntry>)
    ensures
        is_catalog(catalog.deep_view()),
        catalog_paths(catalog.deep_view()).to_multiset() == video_paths(
            entries.deep_view(),
        ).to_multiset(),
{
    let ghost listing = entries.deep_view();
    let mut candidates: Vec<(DirEntry, Option<String>)> = Vec::new();
    let mut k: usize = 0;
    while k < entries.len()
        invariant
            k <= entries.len(),
            listing == entries.deep_view(),
            lowered_listing(candidates@, listing.take(k as int)),
        decreases entries.len() - k,
    {
        let ghost before = candidates@;
        let entry = &entries[k];
        let lowered = get_lowercase_extension(entry.path.as_str());
        candidates.push((DirEntry { path: entry.path.clone(), is_file: entry.is_file }, lowered));
        proof {
            assert(listing[k as int] == entry@);
            assert forall|i: int| 0 <= i < candidates.len() implies (#[trigger] candidates@[i]).0@
                == listing.take(k + 1)[i] && match (candidates@[i].1) {
                Some(lower) => extension(listing.take(k + 1)[i].path) is Some && lower@
                    == lowercase_of(extension(listing.take(k + 1)[i].path).unwrap()),
                None => extension(listing.take(k + 1)[i].path) is None,
            } by {
                if i < k {
                    assert(candidates@[i] == before[i]);
                    assert(before[i].0@ == listing.take(k as int)[i]);
                }
            }
        }
        k = k + 1;
    }
    let files = video_files(candidates.as_slice());
    let catalog = catalog_of(files.as_slice());
    proof {
        assert(listing.take(k as int) =~= listing);
        lemma_selected_are_the_videos(candidates@, listing);
        let chosen = selected(candidates@);
        assert(pair_paths(files@) =~= video_paths(listing)) by {
            assert forall|j: int| 0 <= j < files.len() implies pair_paths(files@)[j]
                == video_paths(listing)[j] by {
                assert(file_views(files@)[j] == chosen[j]);
            }
        }
        let c = catalog.deep_view();
        assert forall|j: int| 0 <= j < c.len() implies well_aliased(c, j) by {
            assert(made_from(files@, c, j));
            let i = choose|i: int|
                0 <= i < files.len() && (#[trigger] files@[i]).0@ == c[j].path && c[j].alias
                    == alias_for((j + 1) as nat, files@[i].1@);
            assert(file_views(files@)[i] == chosen[i]);
            assert(video_extension(chosen[i].0) == Some(chosen[i].1));
        }
    }
    catalog
}

} // verus!
