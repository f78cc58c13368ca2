//! Directory trees and the discovery of audio files in them.
//!
//! A directory's contents are modelled as a vector of entries, each a regular
//! file or a subdirectory, in the order the filesystem listed them. Discovery
//! walks the entries in order, descends into every subdirectory, and keeps
//! exactly the files whose name has a recognized audio extension; the result
//! is the list of their paths relative to the walked directory, in traversal
//! order.

use vstd::prelude::*;
use crate::names::is_audio_name;
use crate::names::is_audio_file_name;
use crate::paths::lemma_path_deep_view;
use crate::paths::lemma_path_list_deep_view;

verus! {

/// One entry of a directory tree: a regular file, or a subdirectory with its
/// own entries in listing order.
pub enum FsEntry {
    File { name: String },
    Dir { name: String, entries: Vec<FsEntry> },
}

/// Every path of `paths` with the component `name` prepended.
pub open spec fn prefixed_with(name: Seq<char>, paths: Seq<Seq<Seq<char>>>) -> Seq<Seq<Seq<char>>> {
    Seq::new(paths.len(), |j: int| seq![name] + paths[j])
}

/// The relative paths of the audio files under one entry, in traversal
/// order: a matching file is itself, a directory contributes its own audio
/// files one level deeper, and a file without a recognized extension
/// contributes nothing.
pub open spec fn spec_discover(e: FsEntry) -> Seq<Seq<Seq<char>>>
    decreases e,
{
    match e {
        FsEntry::File { name } => if is_audio_name(name@) {
            seq![seq![name@]]
        } else {
            Seq::empty()
        },
        FsEntry::Dir { name, entries } => prefixed_with(name@, spec_discover_list(entries@)),
    }
}

/// The relative paths of the audio files under `entries`, in order.
pub open spec fn spec_discover_list(entries: Seq<FsEntry>) -> Seq<Seq<Seq<char>>>
    decreases entries,
{
    if entries.len() == 0 {
        Seq::empty()
    } else {
        spec_discover(entries.first()) + spec_discover_list(entries.drop_first())
    }
}

/// Discovery over a list grows from the back one entry at a time.
proof fn lemma_discover_list_push(s: Seq<FsEntry>, x: FsEntry)
    ensures
        spec_discover_list(s.push(x)) == spec_discover_list(s) + spec_discover(x),
    decreases s,
{
    if s.len() == 0 {
        assert(s.push(x).drop_first() =~= Seq::<FsEntry>::empty());
        assert(s.push(x).first() == x);
        assert(spec_discover_list(Seq::<FsEntry>::empty()) == Seq::<Seq<Seq<char>>>::empty());
        assert(spec_discover_list(s.push(x)) == spec_discover(x) + Seq::<Seq<Seq<char>>>::empty());
        assert(spec_discover(x) + Seq::<Seq<Seq<char>>>::empty() =~= spec_discover(x));
        assert(spec_discover_list(s) + spec_discover(x) =~= spec_discover(x));
    } else {
        assert(s.push(x).drop_first() =~= s.drop_first().push(x));
        assert(s.push(x).first() == s.first());
        lemma_discover_list_push(s.drop_first(), x);
        assert(spec_discover(s.first()) + (spec_discover_list(s.drop_first()) + spec_discover(x))
            =~= (spec_discover(s.first()) + spec_discover_list(s.drop_first())) + spec_discover(
            x,
        ));
    }
}

/// Recursively finds all audio files under `entries`: the returned paths are
/// relative to the directory whose contents `entries` are, and come in
/// traversal order.
pub fn find_audio_files(entries: &Vec<FsEntry>) -> (files: Vec<Vec<String>>)
    ensures
        files.deep_view() == spec_discover_list(entries@),
    decreases *entries,
{
    let mut files: Vec<Vec<String>> = Vec::new();
    proof {
        lemma_path_list_deep_view(files);
        assert(entries@.subrange(0, 0) =~= Seq::<FsEntry>::empty());
        assert(files.deep_view() =~= spec_discover_list(entries@.subrange(0, 0)));
    }
    let mut i: usize = 0;
    while i < entries.len()
        invariant
            i <= entries@.len(),
            files@.len() == files.deep_view().len(),
            files.deep_view() == spec_discover_list(entries@.subrange(0, i as int)),
        decreases entries@.len() - i,
    {
        proof {
            assert(entries@.subrange(0, i + 1) =~= entries@.subrange(0, i as int).push(
                entries@[i as int],
            ));
            lemma_discover_list_push(entries@.subrange(0, i as int), entries@[i as int]);
        }
        match &entries[i] {
            FsEntry::File { name } => {
                if is_audio_file_name(name.as_str()) {
                    let mut p: Vec<String> = Vec::new();
                    p.push(name.clone());
                    let ghost files_old = files;
                    proof {
                        lemma_path_deep_view(p);
                        assert(p.deep_view() =~= seq![name@]);
                        assert(entries@[i as int] == (FsEntry::File { name: *name }));
                        assert(spec_discover(entries@[i as int]) == seq![seq![name@]]);
                    }
                    files.push(p);
                    proof {
                        lemma_path_list_deep_view(files_old);
                        lemma_path_list_deep_view(files);
                        assert(files.deep_view() =~= files_old.deep_view() + spec_discover(
                            entries@[i as int],
                        ));
                    }
                } else {
                    proof {
                        assert(entries@[i as int] == (FsEntry::File { name: *name }));
                        assert(files.deep_view() =~= files.deep_view() + spec_discover(
                            entries@[i as int],
                        ));
                    }
                }
            },
            FsEntry::Dir { name, entries: sub } => {
                proof {
                    assert(entries@[i as int] == (FsEntry::Dir {
                        name: *name,
                        entries: *sub,
                    }));
                    assert(decreases_to!(*entries => entries@));
                    assert(decreases_to!(entries@ => entries@[i as int]));
                    assert(decreases_to!(entries@[i as int] => *sub));
                }
                let sub_files = find_audio_files(sub);
                let ghost files_at_dir = files.deep_view();
                proof {
                    assert(files.deep_view() =~= files_at_dir + prefixed_with(
                        name@,
                        sub_files.deep_view(),
                    ).subrange(0, 0));
                }
                let mut j: usize = 0;
                while j < sub_files.len()
                    invariant
                        j <= sub_files@.len(),
                        sub_files.deep_view() == spec_discover_list(sub@),
                        sub_files@.len() == sub_files.deep_view().len(),
                        files@.len() == files.deep_view().len(),
                        files.deep_view() == files_at_dir + prefixed_with(
                            name@,
                            sub_files.deep_view(),
                        ).subrange(0, j as int),
                    decreases sub_files@.len() - j,
                {
                    let mut p: Vec<String> = Vec::new();
                    p.push(name.clone());
                    proof {
                        assert(p@ =~= seq![*name] + sub_files@[j as int]@.subrange(0, 0));
                    }
                    let mut k: usize = 0;
                    while k < sub_files[j].len()
                        invariant
                            j < sub_files@.len(),
                            k <= sub_files@[j as int]@.len(),
                            p@ == seq![*name] + sub_files@[j as int]@.subrange(0, k as int),
                        decreases sub_files@[j as int]@.len() - k,
                    {
                        let c = sub_files[j][k].clone();
                        p.push(c);
                        assert(p@ =~= seq![*name] + sub_files@[j as int]@.subrange(0, k + 1));
                        k += 1;
                    }
                    let ghost files_old = files;
                    proof {
                        assert(p@ =~= seq![*name] + sub_files@[j as int]@);
                        lemma_path_deep_view(p);
                        lemma_path_deep_view(sub_files@[j as int]);
                        lemma_path_list_deep_view(sub_files);
                        assert(p.deep_view() =~= seq![name@] + sub_files@[j as int].deep_view());
                        assert(p.deep_view() == prefixed_with(name@, sub_files.deep_view())[
                            j as int
                        ]);
                    }
                    files.push(p);
                    proof {
                        lemma_path_list_deep_view(files_old);
                        lemma_path_list_deep_view(files);
                        assert(files.deep_view() =~= files_old.deep_view().push(p.deep_view()));
                        assert(prefixed_with(name@, sub_files.deep_view()).subrange(0, j + 1)
                            =~= prefixed_with(name@, sub_files.deep_view()).subrange(
                            0,
                            j as int,
                        ).push(p.deep_view()));
                        assert(files.deep_view() =~= files_at_dir + prefixed_with(
                            name@,
                            sub_files.deep_view(),
                        ).subrange(0, j + 1));
                    }
                    j += 1;
                }
                proof {
                    assert(prefixed_with(name@, sub_files.deep_view()).subrange(
                        0,
                        sub_files.deep_view().len() as int,
                    ) =~= prefixed_with(name@, sub_files.deep_view()));
                    assert(files.deep_view() =~= files_at_dir + spec_discover(
                        entries@[i as int],
                    ));
                }
            },
        }
        i += 1;
    }
    proof {
        assert(entries@.subrange(0, entries@.len() as int) =~= entries@);
    }
    files
}

/// `path` names a regular file reachable from `entries`: its leading
/// components name nested subdirectories and its last component names a file
/// in the innermost of them.
pub open spec fn tree_contains_file(entries: Seq<FsEntry>, path: Seq<Seq<char>>) -> bool
    decreases entries,
{
    entries.len() > 0 && (entry_contains_file(entries.first(), path) || tree_contains_file(
        entries.drop_first(),
        path,
    ))
}

/// `path` names a regular file reachable from the single entry `e`.
pub open spec fn entry_contains_file(e: FsEntry, path: Seq<Seq<char>>) -> bool
    decreases e,
{
    match e {
        FsEntry::File { name } => path == seq![name@],
        FsEntry::Dir { name, entries } => path.len() >= 1 && path.first() == name@
            && tree_contains_file(entries@, path.drop_first()),
    }
}

/// `path` names a directory reachable from `entries`.
pub open spec fn tree_contains_dir(entries: Seq<FsEntry>, path: Seq<Seq<char>>) -> bool
    decreases entries,
{
    entries.len() > 0 && (entry_contains_dir(entries.first(), path) || tree_contains_dir(
        entries.drop_first(),
        path,
    ))
}

/// `path` names a directory reachable from the single entry `e`.
pub open spec fn entry_contains_dir(e: FsEntry, path: Seq<Seq<char>>) -> bool
    decreases e,
{
    match e {
        FsEntry::File { name } => false,
        FsEntry::Dir { name, entries } => path == seq![name@] || (path.len() >= 1
            && path.first() == name@ && tree_contains_dir(entries@, path.drop_first())),
    }
}

/// Membership in a concatenation is membership in either part.
proof fn lemma_concat_contains<A>(a: Seq<A>, b: Seq<A>, x: A)
    ensures
        (a + b).contains(x) <==> a.contains(x) || b.contains(x),
{
    if a.contains(x) {
        let i = choose|i: int| 0 <= i < a.len() && a[i] == x;
        assert((a + b)[i] == x);
    }
    if b.contains(x) {
        let i = choose|i: int| 0 <= i < b.len() && b[i] == x;
        assert((a + b)[a.len() + i] == x);
    }
    if (a + b).contains(x) {
        let i = choose|i: int| 0 <= i < (a + b).len() && (a + b)[i] == x;
        if i < a.len() {
            assert(a[i] == x);
        } else {
            assert(b[i - a.len()] == x);
        }
    }
}

/// A path is in a prefixed list exactly when it starts with the prefix and
/// its remainder is in the bare list.
proof fn lemma_prefixed_contains(name: Seq<char>, ps: Seq<Seq<Seq<char>>>, x: Seq<Seq<char>>)
    ensures
        prefixed_with(name, ps).contains(x) <==> (x.len() >= 1 && x.first() == name
            && ps.contains(x.drop_first())),
{
    if prefixed_with(name, ps).contains(x) {
        let i = choose|i: int|
            0 <= i < prefixed_with(name, ps).len() && prefixed_with(name, ps)[i] == x;
        assert(x == seq![name] + ps[i]);
        assert(x.drop_first() =~= ps[i]);
    }
    if x.len() >= 1 && x.first() == name && ps.contains(x.drop_first()) {
        let i = choose|i: int| 0 <= i < ps.len() && ps[i] == x.drop_first();
        assert(seq![name] + ps[i] =~= x);
        assert(prefixed_with(name, ps)[i] == x);
    }
}

/// The discovered paths of one entry are exactly the audio-named file paths
/// reachable from it.
proof fn lemma_discover_entry_exact(e: FsEntry, path: Seq<Seq<char>>)
    ensures
        spec_discover(e).contains(path) <==> (entry_contains_file(e, path) && path.len() >= 1
            && is_audio_name(path.last())),
    decreases e,
{
    match e {
        FsEntry::File { name } => {
            if is_audio_name(name@) {
                assert(spec_discover(e) == seq![seq![name@]]);
                if spec_discover(e).contains(path) {
                    let i = choose|i: int|
                        0 <= i < spec_discover(e).len() && spec_discover(e)[i] == path;
                    assert(i == 0);
                    assert(path == seq![name@]);
                    assert(path.len() == 1 && path.last() == name@);
                }
                if entry_contains_file(e, path) {
                    assert(path == seq![name@]);
                    assert(spec_discover(e)[0] == path);
                    assert(spec_discover(e).contains(path));
                    assert(path.len() == 1 && path.last() == name@);
                }
            } else {
                assert(spec_discover(e) == Seq::<Seq<Seq<char>>>::empty());
                assert(!spec_discover(e).contains(path));
                if entry_contains_file(e, path) {
                    assert(path == seq![name@]);
                    assert(path.len() == 1 && path.last() == name@);
                    assert(!is_audio_name(path.last()));
                }
            }
        },
        FsEntry::Dir { name, entries } => {
            assert(decreases_to!(e => entries));
            assert(decreases_to!(entries => entries@));
            lemma_prefixed_contains(name@, spec_discover_list(entries@), path);
            lemma_discovery_exact(entries@, path.drop_first());
            assert(spec_discover(e) == prefixed_with(name@, spec_discover_list(entries@)));
            if path.len() >= 2 {
                assert(path.drop_first().len() >= 1);
                assert(path.drop_first().last() == path.last());
            }
            if path.len() == 1 {
                assert(path.drop_first().len() == 0);
                lemma_no_file_at_empty_path(entries@, path.drop_first());
            }
        },
    }
}

/// No regular file is named by an empty path.
proof fn lemma_no_file_at_empty_path(entries: Seq<FsEntry>, path: Seq<Seq<char>>)
    requires
        path.len() == 0,
    ensures
        !tree_contains_file(entries, path),
    decreases entries,
{
    if entries.len() > 0 {
        assert(!entry_contains_file(entries.first(), path)) by {
            match entries.first() {
                FsEntry::File { name } => {
                    assert(path != seq![name@]);
                },
                FsEntry::Dir { name, entries: sub } => {
                },
            }
        }
        lemma_no_file_at_empty_path(entries.drop_first(), path);
    }
}

/// The Discoverer is exact: a path is in the discovered list if and only if
/// it names a regular file reachable from `entries`, at any depth, whose
/// file name has a recognized audio extension (matched case-sensitively).
pub proof fn lemma_discovery_exact(entries: Seq<FsEntry>, path: Seq<Seq<char>>)
    ensures
        spec_discover_list(entries).contains(path) <==> (tree_contains_file(entries, path)
            && path.len() >= 1 && is_audio_name(path.last())),
    decreases entries,
{
    if entries.len() == 0 {
    } else {
        lemma_concat_contains(
            spec_discover(entries.first()),
            spec_discover_list(entries.drop_first()),
            path,
        );
        lemma_discover_entry_exact(entries.first(), path);
        lemma_discovery_exact(entries.drop_first(), path);
    }
}

/// Every discovered path has at least its file-name component.
pub proof fn lemma_discovered_paths_nonempty(entries: Seq<FsEntry>)
    ensures
        forall|i: int|
            0 <= i < spec_discover_list(entries).len() ==> #[trigger] spec_discover_list(
                entries,
            )[i].len() >= 1,
{
    assert forall|i: int|
        0 <= i < spec_discover_list(entries).len() implies #[trigger] spec_discover_list(
        entries,
    )[i].len() >= 1 by {
        let p = spec_discover_list(entries)[i];
        assert(spec_discover_list(entries).contains(p));
        lemma_discovery_exact(entries, p);
    }
}

/// Every proper, nonempty prefix of a reachable file path names a directory
/// of the tree.
proof fn lemma_entry_file_prefix_is_dir(e: FsEntry, path: Seq<Seq<char>>, k: int)
    requires
        entry_contains_file(e, path),
        1 <= k < path.len(),
    ensures
        entry_contains_dir(e, path.subrange(0, k)),
    decreases e,
{
    match e {
        FsEntry::File { name } => {
            assert(path == seq![name@]);
            assert(false);
        },
        FsEntry::Dir { name, entries } => {
            if k == 1 {
                assert(path.subrange(0, 1) =~= seq![name@]);
            } else {
                assert(decreases_to!(e => entries));
                assert(decreases_to!(entries => entries@));
                lemma_file_prefix_is_dir(entries@, path.drop_first(), k - 1);
                assert(path.subrange(0, k).drop_first() =~= path.drop_first().subrange(0, k - 1));
                assert(path.subrange(0, k).first() == name@);
            }
        },
    }
}

/// Every proper, nonempty prefix of a reachable file path names a directory
/// of the tree.
proof fn lemma_file_prefix_is_dir(entries: Seq<FsEntry>, path: Seq<Seq<char>>, k: int)
    requires
        tree_contains_file(entries, path),
        1 <= k < path.len(),
    ensures
        tree_contains_dir(entries, path.subrange(0, k)),
    decreases entries,
{
    if entry_contains_file(entries.first(), path) {
        lemma_entry_file_prefix_is_dir(entries.first(), path, k);
    } else {
        lemma_file_prefix_is_dir(entries.drop_first(), path, k);
    }
}

/// The output tree mirrors the input tree's shape exactly for converted
/// files: a directory path `d` stands (properly) below some discovered file
/// path if and only if `d` names a directory of the tree and at least one
/// audio-named file is reachable below `d`.
pub proof fn lemma_mirrored_structure(entries: Seq<FsEntry>, d: Seq<Seq<char>>)
    requires
        d.len() >= 1,
    ensures
        (exists|p: Seq<Seq<char>>|
            #[trigger] spec_discover_list(entries).contains(p) && d.is_prefix_of(p) && d.len()
                < p.len()) <==> (tree_contains_dir(entries, d) && (exists|p: Seq<Seq<char>>|
            #[trigger] tree_contains_file(entries, p) && is_audio_name(p.last())
                && d.is_prefix_of(p) && d.len() < p.len())),
{
    if exists|p: Seq<Seq<char>>|
        #[trigger] spec_discover_list(entries).contains(p) && d.is_prefix_of(p) && d.len()
            < p.len() {
        let p = choose|p: Seq<Seq<char>>|
            #[trigger] spec_discover_list(entries).contains(p) && d.is_prefix_of(p) && d.len()
                < p.len();
        lemma_discovery_exact(entries, p);
        assert(p.subrange(0, d.len() as int) =~= d);
        lemma_file_prefix_is_dir(entries, p, d.len() as int);
        assert(tree_contains_file(entries, p) && is_audio_name(p.last()) && d.is_prefix_of(p)
            && d.len() < p.len());
    }
    if tree_contains_dir(entries, d) && (exists|p: Seq<Seq<char>>|
        #[trigger] tree_contains_file(entries, p) && is_audio_name(p.last()) && d.is_prefix_of(p)
            && d.len() < p.len()) {
        let p = choose|p: Seq<Seq<char>>|
            #[trigger] tree_contains_file(entries, p) && is_audio_name(p.last())
                && d.is_prefix_of(p) && d.len() < p.len();
        lemma_discovery_exact(entries, p);
        assert(spec_discover_list(entries).contains(p) && d.is_prefix_of(p) && d.len() < p.len());
    }
}

} // verus!
