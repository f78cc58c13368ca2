//! Conversion planning: from discovered files to conversion tasks.
//!
//! A conversion task pairs a discovered file with the output path its WAV
//! file is written to, and fixes the argument list handed to the external
//! transcoder. Planning is the part of the Converter that can be decided
//! without touching the filesystem: computing the path relative to the input
//! root (rejecting a file that does not lie under it), re-rooting it under
//! the output root with a `.wav` extension, and laying out the subprocess
//! arguments. Creating directories and running the subprocess stay with the
//! caller.

use vstd::prelude::*;
use crate::discover::FsEntry;
use crate::discover::find_audio_files;
use crate::discover::lemma_discovered_paths_nonempty;
use crate::discover::spec_discover_list;
use crate::paths::join_paths;
use crate::paths::lemma_path_deep_view;
use crate::paths::lemma_path_list_deep_view;
use crate::paths::output_path_for;
use crate::paths::spec_output_path;
use crate::paths::strip_path_prefix;

verus! {

/// Why a conversion cannot be planned: the file does not lie strictly under
/// the input root, so no relative path can be computed for it.
#[derive(Debug)]
pub enum PathError {
    NotUnderRoot,
}

impl PathError {
    /// A human-readable description of the error.
    pub fn message(&self) -> (r: String)
        ensures
            r@ == "failed to compute a path relative to the input root"@,
    {
        "failed to compute a path relative to the input root".to_owned()
    }
}

/// One planned conversion: the file to read and the WAV file to write.
pub struct ConversionTask {
    pub input: Vec<String>,
    pub output: Vec<String>,
}

/// `path` copied component by component.
fn clone_path(path: &Vec<String>) -> (r: Vec<String>)
    ensures
        r@ == path@,
{
    let mut r: Vec<String> = Vec::new();
    let mut i: usize = 0;
    while i < path.len()
        invariant
            i <= path.len(),
            r@ == path@.subrange(0, i as int),
        decreases path.len() - i,
    {
        let c = path[i].clone();
        r.push(c);
        assert(r@ =~= path@.subrange(0, i + 1));
        i += 1;
    }
    assert(r@ =~= path@);
    r
}

/// Plans the conversion of `file`: computes its path relative to
/// `input_root`, re-roots it under `output_root`, and forces the `.wav`
/// extension. Fails exactly when `file` does not lie strictly under
/// `input_root`.
pub fn plan_conversion(input_root: &Vec<String>, output_root: &Vec<String>, file: &Vec<String>) -> (r:
    Result<ConversionTask, PathError>)
    ensures
        r is Ok <==> (input_root.deep_view().is_prefix_of(file.deep_view())
            && input_root.deep_view().len() < file.deep_view().len()),
        r matches Ok(t) ==> t.input.deep_view() == file.deep_view() && t.output.deep_view()
            == spec_output_path(
            output_root.deep_view(),
            file.deep_view().skip(input_root.len() as int),
        ),
{
    proof {
        lemma_path_deep_view(*input_root);
        lemma_path_deep_view(*file);
    }
    match strip_path_prefix(file, input_root) {
        None => Err(PathError::NotUnderRoot),
        Some(rel) => {
            proof {
                lemma_path_deep_view(rel);
            }
            if rel.len() == 0 {
                Err(PathError::NotUnderRoot)
            } else {
                let output = output_path_for(output_root, &rel);
                let input = clone_path(file);
                proof {
                    lemma_path_deep_view(input);
                    assert(input.deep_view() =~= file.deep_view());
                }
                Ok(ConversionTask { input, output })
            }
        },
    }
}

/// The fixed argument list for one transcoder invocation: read `input`,
/// write 16-bit signed little-endian PCM at 16000 Hz, mono, in a WAV
/// container, overwriting `output` if it exists.
pub open spec fn spec_ffmpeg_args(input: Seq<char>, output: Seq<char>) -> Seq<Seq<char>> {
    seq![
        "-i"@,
        input,
        "-f"@,
        "wav"@,
        "-acodec"@,
        "pcm_s16le"@,
        "-ar"@,
        "16000"@,
        "-ac"@,
        "1"@,
        "-y"@,
        output,
    ]
}

/// Builds the transcoder's argument list for one conversion.
pub fn ffmpeg_args(input: &str, output: &str) -> (r: Vec<String>)
    ensures
        r.deep_view() == spec_ffmpeg_args(input@, output@),
{
    let mut r: Vec<String> = Vec::new();
    r.push("-i".to_owned());
    r.push(input.to_owned());
    r.push("-f".to_owned());
    r.push("wav".to_owned());
    r.push("-acodec".to_owned());
    r.push("pcm_s16le".to_owned());
    r.push("-ar".to_owned());
    r.push("16000".to_owned());
    r.push("-ac".to_owned());
    r.push("1".to_owned());
    r.push("-y".to_owned());
    r.push(output.to_owned());
    proof {
        lemma_path_deep_view(r);
        assert(r.deep_view() =~= spec_ffmpeg_args(input@, output@));
    }
    r
}

/// Every transcoder invocation carries the overwrite flag and writes to the
/// task's output path, so a second run over the same input rewrites the same
/// outputs in place instead of failing or writing elsewhere.
pub proof fn lemma_overwrite_flag(input: Seq<char>, output: Seq<char>)
    ensures
        spec_ffmpeg_args(input, output).contains("-y"@),
        spec_ffmpeg_args(input, output).last() == output,
{
    assert(spec_ffmpeg_args(input, output)[10] == "-y"@);
}

/// Plans the whole run: discovers the audio files under `entries` (the
/// contents of the directory at `input_root`) and computes one conversion
/// task per discovered file, in traversal order. The defensive re-check that
/// each discovered file lies under the input root never fails, so planning
/// always succeeds.
pub fn plan_all(input_root: &Vec<String>, output_root: &Vec<String>, entries: &Vec<FsEntry>) -> (tasks:
    Vec<ConversionTask>)
    ensures
        tasks@.len() == spec_discover_list(entries@).len(),
        forall|i: int|
            0 <= i < tasks@.len() ==> (#[trigger] tasks@[i].input).deep_view()
                == input_root.deep_view() + spec_discover_list(entries@)[i]
                && tasks@[i].output.deep_view() == spec_output_path(
                output_root.deep_view(),
                spec_discover_list(entries@)[i],
            ),
{
    let rel_files = find_audio_files(entries);
    proof {
        lemma_path_list_deep_view(rel_files);
        lemma_discovered_paths_nonempty(entries@);
        lemma_path_deep_view(*input_root);
    }
    let mut tasks: Vec<ConversionTask> = Vec::new();
    let mut i: usize = 0;
    while i < rel_files.len()
        invariant
            i <= rel_files@.len(),
            rel_files.deep_view() == spec_discover_list(entries@),
            rel_files@.len() == rel_files.deep_view().len(),
            forall|t: int|
                0 <= t < rel_files@.len() ==> #[trigger] rel_files@[t].deep_view()
                    == rel_files.deep_view()[t],
            forall|t: int|
                0 <= t < spec_discover_list(entries@).len() ==> #[trigger] spec_discover_list(
                    entries@,
                )[t].len() >= 1,
            input_root@.len() == input_root.deep_view().len(),
            tasks@.len() == i,
            forall|t: int|
                0 <= t < i ==> (#[trigger] tasks@[t].input).deep_view()
                    == input_root.deep_view() + spec_discover_list(entries@)[t]
                    && tasks@[t].output.deep_view() == spec_output_path(
                    output_root.deep_view(),
                    spec_discover_list(entries@)[t],
                ),
        decreases rel_files@.len() - i,
    {
        let file = join_paths(input_root, &rel_files[i]);
        proof {
            lemma_path_deep_view(file);
            assert(input_root.deep_view() =~= file.deep_view().subrange(
                0,
                input_root.deep_view().len() as int,
            ));
            assert(input_root.deep_view().is_prefix_of(file.deep_view()));
        }
        match plan_conversion(input_root, output_root, &file) {
            Ok(t) => {
                proof {
                    assert(file.deep_view().skip(input_root.len() as int) =~= spec_discover_list(
                        entries@,
                    )[i as int]);
                }
                tasks.push(t);
            },
            Err(_) => {
                proof {
                    assert(false);
                }
            },
        }
        i += 1;
    }
    tasks
}

} // verus!
