//! Command-line level options and the rules that derive the output path
//! from the input path. Reading the actual command line is left to the
//! surrounding program, which fills `CliOptions` with plain values.

use vstd::prelude::*;

verus! {

/// The options of one run: source and destination paths, frames per window,
/// scale factor, upscaling model, and whether a variable-framerate source
/// may be converted automatically.
pub struct CliOptions {
    /// Source video path.
    pub input: String,
    /// Destination video path.
    pub output: String,
    /// Number of frames processed at once.
    pub window_size: u64,
    /// Scale factor.
    pub scale: Scale,
    /// Upscaling model.
    pub model: Model,
    /// Automatically convert a variable-framerate source.
    pub convert_vfr: bool,
}

/// The integer scale factors the upscaler accepts.
#[derive(Clone, Copy, Debug, PartialEq, Eq)]
pub enum Scale {
    One,
    Two,
    Three,
    Four,
}

impl Scale {
    /// The text of the scale factor, as handed to the upscaler.
    pub fn as_str(self) -> (r: &'static str)
        ensures
            r@ == match self {
                Scale::One => "1"@,
                Scale::Two => "2"@,
                Scale::Three => "3"@,
                Scale::Four => "4"@,
            },
    {
        match self {
            Scale::One => "1",
            Scale::Two => "2",
            Scale::Three => "3",
            Scale::Four => "4",
        }
    }
}

/// The upscaling models the upscaler accepts.
#[derive(Clone, Copy, Debug, PartialEq, Eq)]
pub enum Model {
    Realesranimevideov3,
    Realesrganx4plus,
    Realesrganx4plusanime,
    Realesrnetx4plus,
}

impl Model {
    /// The name of the model, as handed to the upscaler.
    pub fn as_str(self) -> (r: &'static str)
        ensures
            r@ == match self {
                Model::Realesranimevideov3 => "realesr-animevideov3"@,
                Model::Realesrganx4plus => "realesrgan-x4plus"@,
                Model::Realesrganx4plusanime => "realesrgan-x4plus-anime"@,
                Model::Realesrnetx4plus => "realesrnet-x4plus"@,
            },
    {
        match self {
            Model::Realesranimevideov3 => "realesr-animevideov3",
            Model::Realesrganx4plus => "realesrgan-x4plus",
            Model::Realesrganx4plusanime => "realesrgan-x4plus-anime",
            Model::Realesrnetx4plus => "realesrnet-x4plus",
        }
    }
}

/// The position of the last `'.'` in `s`, or `-1` when there is none.
pub open spec fn last_dot(s: Seq<char>) -> int
    decreases s.len(),
{
    if s.len() == 0 {
        -1
    } else if s[s.len() - 1] == '.' {
        s.len() - 1
    } else {
        last_dot(s.drop_last())
    }
}

proof fn lemma_last_dot_at(s: Seq<char>, k: int)
    requires
        0 <= k < s.len(),
        s[k] == '.',
        forall|j: int| k < j < s.len() ==> s[j] != '.',
    ensures
        last_dot(s) == k,
    decreases s.len(),
{
    if s.len() - 1 == k {
    } else {
        assert(s.drop_last() =~= s.subrange(0, s.len() - 1));
        lemma_last_dot_at(s.drop_last(), k);
    }
}

proof fn lemma_last_dot_none(s: Seq<char>)
    requires
        forall|j: int| 0 <= j < s.len() ==> s[j] != '.',
    ensures
        last_dot(s) == -1,
    decreases s.len(),
{
    if s.len() > 0 {
        lemma_last_dot_none(s.drop_last());
    }
}

/// Finds the position of the last `'.'` in `s`.
pub fn find_last_dot(s: &str) -> (r: Option<usize>)
    ensures
        match r {
            Some(i) => i == last_dot(s@) && i < s@.len(),
            None => last_dot(s@) == -1,
        },
{
    let n = s.unicode_len();
    let mut i: usize = n;
    while i > 0
        invariant
            i <= n,
            n == s@.len(),
            forall|j: int| i <= j < s@.len() ==> s@[j] != '.',
        decreases i,
    {
        let c = s.get_char(i - 1);
        if c == '.' {
            proof {
                lemma_last_dot_at(s@, i - 1);
            }
            return Some(i - 1);
        }
        i = i - 1;
    }
    proof {
        lemma_last_dot_none(s@);
    }
    None
}

/// The default destination path: the input path with its extension replaced
/// by `_upscaled.mp4`.
pub open spec fn spec_default_output(input: Seq<char>) -> Seq<char>
    recommends
        last_dot(input) >= 0,
{
    input.subrange(0, last_dot(input)) + "_upscaled.mp4"@
}

/// Replaces the input path's extension with `_upscaled.mp4`.
pub fn default_output(input: &str) -> (r: String)
    requires
        last_dot(input@) >= 0,
    ensures
        r@ == spec_default_output(input@),
{
    let dot = find_last_dot(input).unwrap();
    let stem = input.substring_char(0, dot);
    let mut out = stem.to_owned();
    out.append("_upscaled.mp4");
    out
}

/// The input path's extension replaced by `.mp4`.
pub open spec fn spec_as_mp4(input: Seq<char>) -> Seq<char>
    recommends
        last_dot(input) >= 0,
{
    input.subrange(0, last_dot(input)) + ".mp4"@
}

/// Replaces the input path's extension with `.mp4`.
pub fn as_mp4(input: &str) -> (r: String)
    requires
        last_dot(input@) >= 0,
    ensures
        r@ == spec_as_mp4(input@),
{
    let dot = find_last_dot(input).unwrap();
    let stem = input.substring_char(0, dot);
    let mut out = stem.to_owned();
    out.append(".mp4");
    out
}

/// The destination path that a run uses: an explicitly given file path is
/// kept; a given directory receives the input's name with an `.mp4`
/// extension; with nothing given, the default destination is used.
pub open spec fn spec_resolve_output(
    input: Seq<char>,
    maybe_output: Option<Seq<char>>,
    output_is_dir: bool,
) -> Seq<char> {
    match maybe_output {
        Some(o) => if output_is_dir {
            o + "/"@ + spec_as_mp4(input)
        } else {
            o
        },
        None => spec_default_output(input),
    }
}

/// Resolves the destination path from the optional output argument.
/// `output_is_dir` says whether that argument names a directory.
pub fn resolve_output(input: &str, maybe_output: Option<String>, output_is_dir: bool) -> (r:
    String)
    requires
        (maybe_output is None || output_is_dir) ==> last_dot(input@) >= 0,
    ensures
        r@ == spec_resolve_output(
            input@,
            match maybe_output {
                Some(o) => Some(o@),
                None => None,
            },
            output_is_dir,
        ),
{
    match maybe_output {
        Some(o) => {
            if output_is_dir {
                let suffix = as_mp4(input);
                let mut out = o;
                out.append("/");
                out.append(suffix.as_str());
                out
            } else {
                o
            }
        },
        None => default_output(input),
    }
}

} // verus!
