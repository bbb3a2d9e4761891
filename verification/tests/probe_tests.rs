use upscale::ffmpeg::{
    interpret_probe, parse_u64, plan_after_probe, ProbeError, ProbeStream, VFRError, VfrDecision,
};

fn stream(r: &str, avg: &str, frames: &str) -> ProbeStream {
    ProbeStream {
        r_frame_rate: r.to_string(),
        avg_frame_rate: avg.to_string(),
        nb_read_frames: frames.to_string(),
    }
}

#[test]
fn parse_u64_accepts_plain_numerals() {
    assert_eq!(parse_u64("0"), Some(0));
    assert_eq!(parse_u64("300"), Some(300));
    assert_eq!(parse_u64("007"), Some(7));
    assert_eq!(parse_u64("18446744073709551615"), Some(u64::MAX));
}

#[test]
fn parse_u64_rejects_everything_else() {
    assert_eq!(parse_u64(""), None);
    assert_eq!(parse_u64("+3"), None);
    assert_eq!(parse_u64("-3"), None);
    assert_eq!(parse_u64("12a"), None);
    assert_eq!(parse_u64(" 12"), None);
    assert_eq!(parse_u64("18446744073709551616"), None);
}

#[test]
fn constant_framerate_source_is_accepted() {
    let streams = vec![stream("30/1", "30/1", "250")];
    let sd = interpret_probe(&streams).unwrap().unwrap_or_else(|_| panic!("not variable"));
    assert_eq!(sd.framerate, "30/1");
    assert_eq!(sd.frames, 250);
}

#[test]
fn mismatched_framerates_mean_variable() {
    // Real framerate 30/1 against average 29/1: a variable framerate.
    let streams = vec![stream("30/1", "29/1", "250")];
    let inner = interpret_probe(&streams).unwrap();
    assert!(matches!(inner, Err(VFRError)));
}

#[test]
fn stream_count_must_be_exactly_one() {
    let none: Vec<ProbeStream> = Vec::new();
    assert_eq!(interpret_probe(&none).err(), Some(ProbeError::StreamCount(0)));
    let two = vec![stream("30/1", "30/1", "1"), stream("30/1", "30/1", "1")];
    assert_eq!(interpret_probe(&two).err(), Some(ProbeError::StreamCount(2)));
}

#[test]
fn unreadable_frame_count_is_an_error() {
    let streams = vec![stream("30/1", "30/1", "N/A")];
    assert_eq!(interpret_probe(&streams).err(), Some(ProbeError::FrameCount));
}

#[test]
fn variable_framerate_without_opt_in_is_rejected() {
    // Probe mismatch with conversion disabled: the run must fail before
    // creating anything.
    let streams = vec![stream("30/1", "29/1", "250")];
    let inner = interpret_probe(&streams).unwrap();
    let plan = plan_after_probe(inner, false);
    assert!(matches!(plan, VfrDecision::Reject));
}

#[test]
fn variable_framerate_with_opt_in_converts_once() {
    let plan = plan_after_probe(Err(VFRError), true);
    assert!(matches!(plan, VfrDecision::ConvertFirst));
}

#[test]
fn constant_framerate_runs_directly() {
    let streams = vec![stream("24000/1001", "24000/1001", "42")];
    let inner = interpret_probe(&streams).unwrap();
    match plan_after_probe(inner, false) {
        VfrDecision::Run(sd) => {
            assert_eq!(sd.framerate, "24000/1001");
            assert_eq!(sd.frames, 42);
        }
        _ => panic!("expected a direct run"),
    }
}
