//! Probe-result interpretation, the variable-framerate decision, and the
//! exact command lines handed to the external decoder, encoder, prober and
//! converter. The surrounding program spawns the processes; everything it
//! passes them is computed here.

use vstd::prelude::*;

verus! {

/// What the prober reports for one video stream: the real and the average
/// framerate as exact rational strings, and the exact decoded frame count
/// as a decimal string.
pub struct ProbeStream {
    /// Real (instantaneous) framerate, e.g. `30/1`.
    pub r_frame_rate: String,
    /// Average framerate, e.g. `30/1`.
    pub avg_frame_rate: String,
    /// Exact decoded frame count, in decimal.
    pub nb_read_frames: String,
}

/// The facts about a constant-framerate source that the pipeline needs.
pub struct StreamData {
    /// Framerate as an exact rational string, e.g. `30/1`.
    pub framerate: String,
    /// Exact frame count.
    pub frames: u64,
}

/// The source has a variable framerate.
pub struct VFRError;

/// The probe report could not be used.
#[derive(Clone, Copy, Debug, PartialEq, Eq)]
pub enum ProbeError {
    /// The source did not hold exactly one video stream.
    StreamCount(usize),
    /// The reported frame count was not an unsigned decimal number.
    FrameCount,
}

/// Whether `c` is a decimal digit.
pub open spec fn is_dec_digit(c: char) -> bool {
    48 <= c as int <= 57
}

/// The value of the decimal digit `c`.
pub open spec fn dec_digit_val(c: char) -> int {
    c as int - 48
}

/// Whether every character of `s` is a decimal digit.
pub open spec fn all_dec_digits(s: Seq<char>) -> bool {
    forall|i: int| 0 <= i < s.len() ==> is_dec_digit(s[i])
}

/// The number that the digit string `s` denotes.
pub open spec fn dec_value(s: Seq<char>) -> int
    decreases s.len(),
{
    if s.len() == 0 {
        0
    } else {
        dec_value(s.drop_last()) * 10 + dec_digit_val(s.last())
    }
}

/// Whether `s` is a decimal numeral whose value fits in a `u64`.
pub open spec fn is_u64_dec(s: Seq<char>) -> bool {
    s.len() > 0 && all_dec_digits(s) && dec_value(s) <= u64::MAX
}

proof fn lemma_dec_value_nonneg(s: Seq<char>)
    requires
        all_dec_digits(s),
    ensures
        dec_value(s) >= 0,
    decreases s.len(),
{
    if s.len() > 0 {
        assert(forall|i: int| 0 <= i < s.drop_last().len() ==> is_dec_digit(#[trigger] s.drop_last()[i]));
        lemma_dec_value_nonneg(s.drop_last());
    }
}

/// Extending a digit string can only keep or grow its value.
proof fn lemma_dec_value_prefix_le(s: Seq<char>, j: int)
    requires
        all_dec_digits(s),
        0 <= j <= s.len(),
    ensures
        dec_value(s.take(j)) <= dec_value(s),
    decreases s.len() - j,
{
    if j < s.len() {
        let t = s.take(j + 1);
        assert(t.drop_last() =~= s.take(j));
        assert(forall|i: int| 0 <= i < t.len() ==> is_dec_digit(#[trigger] t[i]));
        assert(forall|i: int| 0 <= i < s.take(j).len() ==> is_dec_digit(#[trigger] s.take(j)[i]));
        lemma_dec_value_nonneg(s.take(j));
        assert(dec_value(t) == dec_value(s.take(j)) * 10 + dec_digit_val(s[j]));
        lemma_dec_value_prefix_le(s, j + 1);
    } else {
        assert(s.take(j) =~= s);
    }
}

/// Parses an unsigned decimal numeral. Returns the value exactly when the
/// whole string is a numeral that fits in a `u64`; leading zeros are
/// allowed, signs and blanks are not.
pub fn parse_u64(s: &str) -> (r: Option<u64>)
    ensures
        match r {
            Some(v) => is_u64_dec(s@) && v == dec_value(s@),
            None => !is_u64_dec(s@),
        },
{
    let n = s.unicode_len();
    if n == 0 {
        return None;
    }
    let mut acc: u64 = 0;
    let mut i: usize = 0;
    while i < n
        invariant
            i <= n,
            n == s@.len(),
            forall|j: int| 0 <= j < i ==> is_dec_digit(s@[j]),
            acc == dec_value(s@.take(i as int)),
        decreases n - i,
    {
        let c = s.get_char(i);
        let u = c as u32;
        if u < 48 || u > 57 {
            assert(!is_dec_digit(s@[i as int]));
            return None;
        }
        let d = (u - 48) as u64;
        proof {
            assert(s@.take(i + 1).drop_last() =~= s@.take(i as int));
            assert(s@.take(i + 1).last() == s@[i as int]);
        }
        let next = match acc.checked_mul(10) {
            Some(m) => m.checked_add(d),
            None => None,
        };
        match next {
            Some(v) => {
                acc = v;
            },
            None => {
                proof {
                    if all_dec_digits(s@) {
                        lemma_dec_value_nonneg(s@.take(i as int));
                        lemma_dec_value_prefix_le(s@, i + 1);
                    }
                }
                return None;
            },
        }
        i = i + 1;
    }
    proof {
        assert(s@.take(n as int) =~= s@);
    }
    Some(acc)
}

/// What `interpret_probe` returns for a given report.
pub open spec fn spec_interpret_probe(streams: Seq<ProbeStream>) -> Result<
    Result<StreamData, VFRError>,
    ProbeError,
> {
    if streams.len() != 1 {
        Err(ProbeError::StreamCount(streams.len() as usize))
    } else if streams[0].r_frame_rate@ != streams[0].avg_frame_rate@ {
        Ok(Err(VFRError))
    } else if is_u64_dec(streams[0].nb_read_frames@) {
        Ok(
            Ok(
                StreamData {
                    framerate: streams[0].r_frame_rate,
                    frames: dec_value(streams[0].nb_read_frames@) as u64,
                },
            ),
        )
    } else {
        Err(ProbeError::FrameCount)
    }
}

/// Turns a probe report into the stream facts. Exactly one video stream
/// must be reported; a mismatch between the real and the average framerate
/// means the source has a variable framerate; otherwise the frame count
/// must be an exact decimal numeral.
pub fn interpret_probe(streams: &Vec<ProbeStream>) -> (r: Result<
    Result<StreamData, VFRError>,
    ProbeError,
>)
    ensures
        r == spec_interpret_probe(streams@),
{
    if streams.len() != 1 {
        return Err(ProbeError::StreamCount(streams.len()));
    }
    let s = &streams[0];
    if !(s.r_frame_rate == s.avg_frame_rate) {
        return Ok(Err(VFRError));
    }
    match parse_u64(s.nb_read_frames.as_str()) {
        Some(v) => Ok(Ok(StreamData { framerate: s.r_frame_rate.clone(), frames: v })),
        None => Err(ProbeError::FrameCount),
    }
}

/// What to do after probing: run the pipeline on the source, convert it to
/// a constant framerate first, or reject it.
pub enum VfrDecision {
    /// The source has a constant framerate: run on it.
    Run(StreamData),
    /// The source has a variable framerate and conversion is allowed:
    /// convert it, then probe the copy with conversion disabled, so the
    /// retry happens at most once.
    ConvertFirst,
    /// The source has a variable framerate and conversion is not allowed:
    /// fail without touching anything.
    Reject,
}

/// Decides between running, converting once, and rejecting, from the probe
/// outcome and the conversion opt-in.
pub fn plan_after_probe(probe: Result<StreamData, VFRError>, convert_vfr: bool) -> (r: VfrDecision)
    ensures
        r == match probe {
            Ok(sd) => VfrDecision::Run(sd),
            Err(VFRError) => if convert_vfr {
                VfrDecision::ConvertFirst
            } else {
                VfrDecision::Reject
            },
        },
{
    match probe {
        Ok(sd) => VfrDecision::Run(sd),
        Err(VFRError) => if convert_vfr {
            VfrDecision::ConvertFirst
        } else {
            VfrDecision::Reject
        },
    }
}

/// The command line that decodes the source into a continuous stream of
/// PNG frames on its standard output, one image per frame, in presentation
/// order, with informational logging suppressed.
pub fn decoder_args(source_video: &str) -> (argv: Vec<String>)
    ensures
        argv@.len() == 10,
        argv@[0]@ == "ffmpeg"@,
        argv@[1]@ == "-loglevel"@,
        argv@[2]@ == "error"@,
        argv@[3]@ == "-i"@,
        argv@[4]@ == source_video@,
        argv@[5]@ == "-c:v"@,
        argv@[6]@ == "png"@,
        argv@[7]@ == "-f"@,
        argv@[8]@ == "image2pipe"@,
        argv@[9]@ == "-"@,
{
    let mut argv: Vec<String> = Vec::new();
    argv.push("ffmpeg".to_owned());
    argv.push("-loglevel".to_owned());
    argv.push("error".to_owned());
    argv.push("-i".to_owned());
    argv.push(source_video.to_owned());
    argv.push("-c:v".to_owned());
    argv.push("png".to_owned());
    argv.push("-f".to_owned());
    argv.push("image2pipe".to_owned());
    argv.push("-".to_owned());
    argv
}

/// The command line that encodes the raw image stream arriving on its
/// standard input at the given framerate, muxes the source's first audio
/// stream unmodified, and writes the destination file.
pub fn encoder_args(framerate: &str, original_src: &str, output_path: &str) -> (argv: Vec<String>)
    ensures
        argv@.len() == 22,
        argv@[0]@ == "ffmpeg"@,
        argv@[1]@ == "-loglevel"@,
        argv@[2]@ == "error"@,
        argv@[3]@ == "-f"@,
        argv@[4]@ == "image2pipe"@,
        argv@[5]@ == "-framerate"@,
        argv@[6]@ == framerate@,
        argv@[7]@ == "-i"@,
        argv@[8]@ == "-"@,
        argv@[9]@ == "-i"@,
        argv@[10]@ == original_src@,
        argv@[11]@ == "-map"@,
        argv@[12]@ == "0:v:0"@,
        argv@[13]@ == "-map"@,
        argv@[14]@ == "1:a:0?"@,
        argv@[15]@ == "-c:a"@,
        argv@[16]@ == "copy"@,
        argv@[17]@ == "-c:v"@,
        argv@[18]@ == "libx265"@,
        argv@[19]@ == "-x265-params"@,
        argv@[20]@ == "log-level=none"@,
        argv@[21]@ == output_path@,
{
    let mut argv: Vec<String> = Vec::new();
    argv.push("ffmpeg".to_owned());
    argv.push("-loglevel".to_owned());
    argv.push("error".to_owned());
    argv.push("-f".to_owned());
    argv.push("image2pipe".to_owned());
    argv.push("-framerate".to_owned());
    argv.push(framerate.to_owned());
    argv.push("-i".to_owned());
    argv.push("-".to_owned());
    argv.push("-i".to_owned());
    argv.push(original_src.to_owned());
    argv.push("-map".to_owned());
    argv.push("0:v:0".to_owned());
    argv.push("-map".to_owned());
    argv.push("1:a:0?".to_owned());
    argv.push("-c:a".to_owned());
    argv.push("copy".to_owned());
    argv.push("-c:v".to_owned());
    argv.push("libx265".to_owned());
    argv.push("-x265-params".to_owned());
    argv.push("log-level=none".to_owned());
    argv.push(output_path.to_owned());
    argv
}

/// The command line that probes the source: it counts frames exactly,
/// selects the video streams, and prints their data as JSON.
pub fn probe_args(path: &str) -> (argv: Vec<String>)
    ensures
        argv@.len() == 8,
        argv@[0]@ == "ffprobe"@,
        argv@[1]@ == "-count_frames"@,
        argv@[2]@ == "-select_streams"@,
        argv@[3]@ == "v:0"@,
        argv@[4]@ == "-show_streams"@,
        argv@[5]@ == "-print_format"@,
        argv@[6]@ == "json"@,
        argv@[7]@ == path@,
{
    let mut argv: Vec<String> = Vec::new();
    argv.push("ffprobe".to_owned());
    argv.push("-count_frames".to_owned());
    argv.push("-select_streams".to_owned());
    argv.push("v:0".to_owned());
    argv.push("-show_streams".to_owned());
    argv.push("-print_format".to_owned());
    argv.push("json".to_owned());
    argv.push(path.to_owned());
    argv
}

/// The command line that copies the source to a constant-framerate file,
/// keeping the audio unmodified and re-timing the video to uniform frame
/// spacing.
pub fn cfr_args(video: &str, converted_path: &str) -> (argv: Vec<String>)
    ensures
        argv@.len() == 10,
        argv@[0]@ == "ffmpeg"@,
        argv@[1]@ == "-loglevel"@,
        argv@[2]@ == "error"@,
        argv@[3]@ == "-i"@,
        argv@[4]@ == video@,
        argv@[5]@ == "-c:a"@,
        argv@[6]@ == "copy"@,
        argv@[7]@ == "-vsync"@,
        argv@[8]@ == "cfr"@,
        argv@[9]@ == converted_path@,
{
    let mut argv: Vec<String> = Vec::new();
    argv.push("ffmpeg".to_owned());
    argv.push("-loglevel".to_owned());
    argv.push("error".to_owned());
    argv.push("-i".to_owned());
    argv.push(video.to_owned());
    argv.push("-c:a".to_owned());
    argv.push("copy".to_owned());
    argv.push("-vsync".to_owned());
    argv.push("cfr".to_owned());
    argv.push(converted_path.to_owned());
    argv
}

} // verus!
