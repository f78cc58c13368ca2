//! File-name logic: which names count as audio files, and how a name's
//! extension is replaced by `wav`.
//!
//! A name's extension is the part after the last `.` of the name, except that
//! a name whose only `.` is its first character has no extension. A name is
//! an audio file name when its extension is one of a fixed, case-sensitive
//! set of audio extensions.

use vstd::prelude::*;
use vstd::string::StrSliceExecFns;
use vstd::string::StringExecFns;

verus! {

/// `s` ends in `suffix`.
pub open spec fn ends_with(s: Seq<char>, suffix: Seq<char>) -> bool {
    s.len() >= suffix.len() && s.subrange(s.len() - suffix.len(), s.len() as int) == suffix
}

/// The fixed, case-sensitive set of recognized audio extensions.
pub open spec fn audio_extensions() -> Seq<Seq<char>> {
    seq!["mp3"@, "wav"@, "flac"@, "ogg"@, "m4a"@, "aac"@, "wma"@, "aiff"@, "au"@, "mp2"@]
}

/// The extension of `name` is exactly `ext`: the name ends in `.` followed by
/// `ext`, and that `.` is not the name's first character (a name such as
/// `.gitignore` has no extension).
pub open spec fn name_has_extension(name: Seq<char>, ext: Seq<char>) -> bool {
    name.len() > ext.len() + 1 && ends_with(name, seq!['.'] + ext)
}

/// The extension of `name` is one of the recognized audio extensions.
pub open spec fn is_audio_name(name: Seq<char>) -> bool {
    exists|i: int|
        0 <= i < audio_extensions().len() && name_has_extension(name, audio_extensions()[i])
}

/// Index of the last `.` in `name`, or `-1` if `name` holds no `.`.
pub open spec fn last_dot_index(name: Seq<char>) -> int
    decreases name.len(),
{
    if name.len() == 0 {
        -1
    } else if name[name.len() - 1] == '.' {
        name.len() - 1
    } else {
        last_dot_index(name.drop_last())
    }
}

/// The part of `name` before its extension; `name` itself if it has none.
pub open spec fn stem_of(name: Seq<char>) -> Seq<char> {
    if last_dot_index(name) >= 1 {
        name.subrange(0, last_dot_index(name))
    } else {
        name
    }
}

/// `name` with its extension replaced by `ext` (appended if `name` has none).
pub open spec fn with_extension(name: Seq<char>, ext: Seq<char>) -> Seq<char> {
    stem_of(name) + seq!['.'] + ext
}

/// Whether `s` ends in `suffix`, by comparing characters from the end.
fn str_ends_with(s: &str, suffix: &str) -> (r: bool)
    ensures
        r == ends_with(s@, suffix@),
{
    let n = s.unicode_len();
    let m = suffix.unicode_len();
    if m > n {
        return false;
    }
    let mut k: usize = 0;
    while k < m
        invariant
            k <= m <= n,
            n == s@.len(),
            m == suffix@.len(),
            forall|j: int| 0 <= j < k ==> s@[n - m + j] == suffix@[j],
        decreases m - k,
    {
        if s.get_char(n - m + k) != suffix.get_char(k) {
            assert(!ends_with(s@, suffix@)) by {
                if ends_with(s@, suffix@) {
                    assert(s@.subrange(n - m, n as int)[k as int] == suffix@[k as int]);
                }
            }
            return false;
        }
        k += 1;
    }
    assert(s@.subrange(n - m, n as int) =~= suffix@);
    true
}

/// Whether `name` is longer than `dotted` and ends in it. `dotted` is meant
/// to be a `.` followed by an extension, so the length condition keeps a bare
/// `.ext` name (which has no extension) from matching.
fn name_matches_dotted(name: &str, dotted: &str) -> (r: bool)
    ensures
        r == (name@.len() > dotted@.len() && ends_with(name@, dotted@)),
{
    name.unicode_len() > dotted.unicode_len() && str_ends_with(name, dotted)
}

/// Whether `name` has one of the recognized audio extensions, matched
/// case-sensitively: `track.mp3` counts, `track.MP3` and `mp3` do not.
pub fn is_audio_file_name(name: &str) -> (r: bool)
    ensures
        r == is_audio_name(name@),
{
    let m0 = name_matches_dotted(name, ".mp3");
    let m1 = name_matches_dotted(name, ".wav");
    let m2 = name_matches_dotted(name, ".flac");
    let m3 = name_matches_dotted(name, ".ogg");
    let m4 = name_matches_dotted(name, ".m4a");
    let m5 = name_matches_dotted(name, ".aac");
    let m6 = name_matches_dotted(name, ".wma");
    let m7 = name_matches_dotted(name, ".aiff");
    let m8 = name_matches_dotted(name, ".au");
    let m9 = name_matches_dotted(name, ".mp2");
    let r = m0 || m1 || m2 || m3 || m4 || m5 || m6 || m7 || m8 || m9;
    proof {
        reveal_strlit(".mp3");
        reveal_strlit("mp3");
        reveal_strlit(".wav");
        reveal_strlit("wav");
        reveal_strlit(".flac");
        reveal_strlit("flac");
        reveal_strlit(".ogg");
        reveal_strlit("ogg");
        reveal_strlit(".m4a");
        reveal_strlit("m4a");
        reveal_strlit(".aac");
        reveal_strlit("aac");
        reveal_strlit(".wma");
        reveal_strlit("wma");
        reveal_strlit(".aiff");
        reveal_strlit("aiff");
        reveal_strlit(".au");
        reveal_strlit("au");
        reveal_strlit(".mp2");
        reveal_strlit("mp2");
        assert(".mp3"@ =~= seq!['.'] + "mp3"@);
        assert(".wav"@ =~= seq!['.'] + "wav"@);
        assert(".flac"@ =~= seq!['.'] + "flac"@);
        assert(".ogg"@ =~= seq!['.'] + "ogg"@);
        assert(".m4a"@ =~= seq!['.'] + "m4a"@);
        assert(".aac"@ =~= seq!['.'] + "aac"@);
        assert(".wma"@ =~= seq!['.'] + "wma"@);
        assert(".aiff"@ =~= seq!['.'] + "aiff"@);
        assert(".au"@ =~= seq!['.'] + "au"@);
        assert(".mp2"@ =~= seq!['.'] + "mp2"@);
        assert(audio_extensions()[0] == "mp3"@);
        assert(audio_extensions()[1] == "wav"@);
        assert(audio_extensions()[2] == "flac"@);
        assert(audio_extensions()[3] == "ogg"@);
        assert(audio_extensions()[4] == "m4a"@);
        assert(audio_extensions()[5] == "aac"@);
        assert(audio_extensions()[6] == "wma"@);
        assert(audio_extensions()[7] == "aiff"@);
        assert(audio_extensions()[8] == "au"@);
        assert(audio_extensions()[9] == "mp2"@);
        assert(m0 == name_has_extension(name@, audio_extensions()[0]));
        assert(m1 == name_has_extension(name@, audio_extensions()[1]));
        assert(m2 == name_has_extension(name@, audio_extensions()[2]));
        assert(m3 == name_has_extension(name@, audio_extensions()[3]));
        assert(m4 == name_has_extension(name@, audio_extensions()[4]));
        assert(m5 == name_has_extension(name@, audio_extensions()[5]));
        assert(m6 == name_has_extension(name@, audio_extensions()[6]));
        assert(m7 == name_has_extension(name@, audio_extensions()[7]));
        assert(m8 == name_has_extension(name@, audio_extensions()[8]));
        assert(m9 == name_has_extension(name@, audio_extensions()[9]));
        if r {
            assert(is_audio_name(name@));
        } else {
            assert forall|i: int|
                0 <= i < audio_extensions().len() implies !name_has_extension(
                name@,
                audio_extensions()[i],
            ) by {
                if i == 0 {
                } else if i == 1 {
                } else if i == 2 {
                } else if i == 3 {
                } else if i == 4 {
                } else if i == 5 {
                } else if i == 6 {
                } else if i == 7 {
                } else if i == 8 {
                } else {
                    assert(i == 9);
                }
            }
            assert(!is_audio_name(name@));
        }
    }
    r
}

/// An output file is named identically to its input counterpart but with
/// extension `wav`: when the name's extension is the (dot-free) `ext`,
/// replacing it keeps everything before that extension's dot unchanged.
pub proof fn lemma_wav_name_keeps_stem(name: Seq<char>, ext: Seq<char>)
    requires
        name_has_extension(name, ext),
        forall|i: int| 0 <= i < ext.len() ==> ext[i] != '.',
    ensures
        with_extension(name, "wav"@) == name.subrange(0, name.len() - ext.len() - 1) + seq!['.']
            + "wav"@,
{
    let d = name.len() - ext.len() - 1;
    let suffix = seq!['.'] + ext;
    assert(name.subrange(name.len() - suffix.len(), name.len() as int) == suffix);
    assert(name[d] == suffix[0]);
    assert forall|k: int| d < k < name.len() implies name[k] != '.' by {
        assert(name[k] == suffix[k - d]);
        assert(suffix[k - d] == ext[k - d - 1]);
    }
    lemma_last_dot_at(name, d);
    assert(stem_of(name) == name.subrange(0, d));
}

proof fn lemma_last_dot_none(name: Seq<char>)
    requires
        forall|k: int| 0 <= k < name.len() ==> name[k] != '.',
    ensures
        last_dot_index(name) == -1,
    decreases name.len(),
{
    if name.len() > 0 {
        lemma_last_dot_none(name.drop_last());
    }
}

proof fn lemma_last_dot_at(name: Seq<char>, d: int)
    requires
        0 <= d < name.len(),
        name[d] == '.',
        forall|k: int| d < k < name.len() ==> name[k] != '.',
    ensures
        last_dot_index(name) == d,
    decreases name.len(),
{
    if d < name.len() - 1 {
        lemma_last_dot_at(name.drop_last(), d);
    }
}

/// `name` with its extension replaced by `wav`: the output file's name. A
/// name without an extension gets `.wav` appended.
pub fn replace_extension_with_wav(name: &str) -> (r: String)
    ensures
        r@ == with_extension(name@, "wav"@),
{
    let n = name.unicode_len();
    let mut j: usize = 0;
    let mut last: usize = 0;
    let mut found = false;
    while j < n
        invariant
            j <= n,
            n == name@.len(),
            found ==> last < j && name@[last as int] == '.' && (forall|k: int|
                last < k < j ==> name@[k] != '.'),
            !found ==> forall|k: int| 0 <= k < j ==> name@[k] != '.',
        decreases n - j,
    {
        if name.get_char(j) == '.' {
            last = j;
            found = true;
        }
        j += 1;
    }
    let mut r: String = if found && last >= 1 {
        proof {
            lemma_last_dot_at(name@, last as int);
        }
        name.substring_char(0, last).to_owned()
    } else {
        proof {
            if found {
                lemma_last_dot_at(name@, last as int);
            } else {
                lemma_last_dot_none(name@);
            }
        }
        name.to_owned()
    };
    r.append(".wav");
    proof {
        reveal_strlit(".wav");
        reveal_strlit("wav");
        assert(".wav"@ =~= seq!['.'] + "wav"@);
        assert(r@ =~= with_extension(name@, "wav"@));
    }
    r
}

} // verus!
