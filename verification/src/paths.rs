//! Paths as sequences of components.
//!
//! The tool's path logic is independent of any one separator or path type,
//! so a path is modelled here as a `Vec<String>` of components, ordered from
//! the outermost directory to the file name. Stripping the input root,
//! re-rooting under the output root, and forcing the `.wav` extension are
//! all operations on such component sequences. Contracts speak of a path's
//! `deep_view()`, the sequence of its components' character sequences.

use vstd::prelude::*;
use crate::names::with_extension;
use crate::names::replace_extension_with_wav;

verus! {

/// The output path for a file at `rel` (relative to the input root): `rel`
/// re-rooted under `output_root`, with the file name's extension replaced by
/// `wav`.
pub open spec fn spec_output_path(output_root: Seq<Seq<char>>, rel: Seq<Seq<char>>) -> Seq<
    Seq<char>,
>
    recommends
        rel.len() >= 1,
{
    output_root + rel.drop_last() + seq![with_extension(rel.last(), "wav"@)]
}

/// A component path's deep view is its components' views, pointwise.
pub proof fn lemma_path_deep_view(v: Vec<String>)
    ensures
        v.deep_view().len() == v@.len(),
        forall|j: int| 0 <= j < v@.len() ==> v.deep_view()[j] == v@[j]@,
{
    assert(v.deep_view() =~= Seq::new(v@.len(), |j: int| v@[j]@));
}

/// A path list's deep view is its paths' deep views, pointwise.
pub proof fn lemma_path_list_deep_view(v: Vec<Vec<String>>)
    ensures
        v.deep_view().len() == v@.len(),
        forall|j: int| 0 <= j < v@.len() ==> v.deep_view()[j] == v@[j].deep_view(),
{
    assert(v.deep_view() =~= Seq::new(v@.len(), |j: int| v@[j].deep_view()));
}

/// What a computed output path looks like: it lies under the output root,
/// keeps every directory component of the relative path, and its file name
/// ends in `.wav`.
pub proof fn lemma_output_path_shape(output_root: Seq<Seq<char>>, rel: Seq<Seq<char>>)
    requires
        rel.len() >= 1,
    ensures
        output_root.is_prefix_of(spec_output_path(output_root, rel)),
        spec_output_path(output_root, rel).len() == output_root.len() + rel.len(),
        spec_output_path(output_root, rel).last() == with_extension(rel.last(), "wav"@),
        crate::names::ends_with(spec_output_path(output_root, rel).last(), seq!['.'] + "wav"@),
{
    let out = spec_output_path(output_root, rel);
    assert(output_root =~= out.subrange(0, output_root.len() as int));
    let name = with_extension(rel.last(), "wav"@);
    let suffix = seq!['.'] + "wav"@;
    assert(name.subrange(name.len() - suffix.len(), name.len() as int) =~= suffix);
}

/// `path` with the leading components `root` removed: `Some` exactly when
/// `root` is a prefix of `path`, and then `path` is `root` followed by the
/// returned remainder.
pub fn strip_path_prefix(path: &Vec<String>, root: &Vec<String>) -> (r: Option<Vec<String>>)
    ensures
        match r {
            Some(rel) => root.deep_view().is_prefix_of(path.deep_view()) && rel.deep_view()
                == path.deep_view().skip(root.len() as int) && path.deep_view()
                == root.deep_view() + rel.deep_view(),
            None => !root.deep_view().is_prefix_of(path.deep_view()),
        },
{
    proof {
        lemma_path_deep_view(*path);
        lemma_path_deep_view(*root);
    }
    if root.len() > path.len() {
        return None;
    }
    let mut i: usize = 0;
    while i < root.len()
        invariant
            i <= root.len() <= path.len(),
            path@.len() == path.deep_view().len(),
            root@.len() == root.deep_view().len(),
            forall|j: int| 0 <= j < path@.len() ==> path.deep_view()[j] == path@[j]@,
            forall|j: int| 0 <= j < root@.len() ==> root.deep_view()[j] == root@[j]@,
            forall|j: int| 0 <= j < i ==> path@[j]@ == root@[j]@,
        decreases root.len() - i,
    {
        if !(path[i] == root[i]) {
            assert(path.deep_view()[i as int] != root.deep_view()[i as int]);
            return None;
        }
        i += 1;
    }
    assert(root.deep_view() =~= path.deep_view().subrange(0, root.len() as int));
    let mut rel: Vec<String> = Vec::new();
    let mut k: usize = root.len();
    while k < path.len()
        invariant
            root.len() <= k <= path.len(),
            rel@ == path@.subrange(root.len() as int, k as int),
        decreases path.len() - k,
    {
        let c = path[k].clone();
        rel.push(c);
        assert(rel@ =~= path@.subrange(root.len() as int, k + 1));
        k += 1;
    }
    proof {
        lemma_path_deep_view(rel);
        assert(rel.deep_view() =~= path.deep_view().skip(root.len() as int));
        assert(path.deep_view() =~= root.deep_view() + rel.deep_view());
    }
    Some(rel)
}

/// `rel` appended to `root`, component by component.
pub fn join_paths(root: &Vec<String>, rel: &Vec<String>) -> (r: Vec<String>)
    ensures
        r.deep_view() == root.deep_view() + rel.deep_view(),
{
    let mut r: Vec<String> = Vec::new();
    let mut i: usize = 0;
    while i < root.len()
        invariant
            i <= root.len(),
            r@ == root@.subrange(0, i as int),
        decreases root.len() - i,
    {
        let c = root[i].clone();
        r.push(c);
        assert(r@ =~= root@.subrange(0, i + 1));
        i += 1;
    }
    assert(r@ =~= root@);
    let mut k: usize = 0;
    while k < rel.len()
        invariant
            k <= rel.len(),
            r@ == root@ + rel@.subrange(0, k as int),
        decreases rel.len() - k,
    {
        let c = rel[k].clone();
        r.push(c);
        assert(r@ =~= root@ + rel@.subrange(0, k + 1));
        k += 1;
    }
    assert(r@ =~= root@ + rel@);
    proof {
        lemma_path_deep_view(r);
        lemma_path_deep_view(*root);
        lemma_path_deep_view(*rel);
        assert(r.deep_view() =~= root.deep_view() + rel.deep_view());
    }
    r
}

/// The output path for the file at `rel` relative to the input root: every
/// directory component is kept, the file name's extension becomes `wav`, and
/// the whole path is placed under `output_root`.
pub fn output_path_for(output_root: &Vec<String>, rel: &Vec<String>) -> (r: Vec<String>)
    requires
        rel.len() >= 1,
    ensures
        r.deep_view() == spec_output_path(output_root.deep_view(), rel.deep_view()),
{
    let mut r: Vec<String> = Vec::new();
    let mut i: usize = 0;
    while i < output_root.len()
        invariant
            i <= output_root.len(),
            r@ == output_root@.subrange(0, i as int),
        decreases output_root.len() - i,
    {
        let c = output_root[i].clone();
        r.push(c);
        assert(r@ =~= output_root@.subrange(0, i + 1));
        i += 1;
    }
    assert(r@ =~= output_root@);
    let mut k: usize = 0;
    while k < rel.len() - 1
        invariant
            rel.len() >= 1,
            k <= rel.len() - 1,
            r@ == output_root@ + rel@.subrange(0, k as int),
        decreases rel.len() - 1 - k,
    {
        let c = rel[k].clone();
        r.push(c);
        assert(r@ =~= output_root@ + rel@.subrange(0, k + 1));
        k += 1;
    }
    let wav_name = replace_extension_with_wav(rel[rel.len() - 1].as_str());
    proof {
        lemma_path_deep_view(*rel);
        assert(rel.deep_view().drop_last() =~= Seq::new(
            (rel@.len() - 1) as nat,
            |j: int| rel@[j]@,
        ));
        assert(rel.deep_view().last() == rel@[rel@.len() - 1]@);
    }
    r.push(wav_name);
    proof {
        lemma_path_deep_view(r);
        lemma_path_deep_view(*output_root);
        assert(r.deep_view() =~= spec_output_path(output_root.deep_view(), rel.deep_view()));
    }
    r
}

} // verus!
