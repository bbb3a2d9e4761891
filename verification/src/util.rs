//! Decimal rendering of counters, the progress bar, the elapsed-time text,
//! and the throughput-based estimate of the remaining time.

use vstd::prelude::*;

verus! {

/// The character for one decimal digit.
pub open spec fn digit_char(d: int) -> char
    recommends
        0 <= d < 10,
{
    if d == 0 {
        '0'
    } else if d == 1 {
        '1'
    } else if d == 2 {
        '2'
    } else if d == 3 {
        '3'
    } else if d == 4 {
        '4'
    } else if d == 5 {
        '5'
    } else if d == 6 {
        '6'
    } else if d == 7 {
        '7'
    } else if d == 8 {
        '8'
    } else {
        '9'
    }
}

/// The decimal digits of `n`, most significant first, with no leading zeros
/// (a single `'0'` for zero).
pub open spec fn dec_digits(n: int) -> Seq<char>
    recommends
        n >= 0,
    decreases n,
{
    if n < 10 {
        seq![digit_char(n)]
    } else {
        dec_digits(n / 10) + seq![digit_char(n % 10)]
    }
}

/// Appends the character for the decimal digit `d` to `out`.
fn push_digit(out: &mut String, d: u64)
    requires
        d < 10,
    ensures
        final(out)@ == old(out)@ + seq![digit_char(d as int)],
{
    proof {
        reveal_strlit("0");
        reveal_strlit("1");
        reveal_strlit("2");
        reveal_strlit("3");
        reveal_strlit("4");
        reveal_strlit("5");
        reveal_strlit("6");
        reveal_strlit("7");
        reveal_strlit("8");
        reveal_strlit("9");
    }
    if d == 0 {
        out.append("0");
    } else if d == 1 {
        out.append("1");
    } else if d == 2 {
        out.append("2");
    } else if d == 3 {
        out.append("3");
    } else if d == 4 {
        out.append("4");
    } else if d == 5 {
        out.append("5");
    } else if d == 6 {
        out.append("6");
    } else if d == 7 {
        out.append("7");
    } else if d == 8 {
        out.append("8");
    } else {
        out.append("9");
    }
}

/// Appends the decimal digits of `n` to `out`.
pub fn push_u64_dec(out: &mut String, n: u64)
    ensures
        final(out)@ == old(out)@ + dec_digits(n as int),
    decreases n,
{
    if n < 10 {
        push_digit(out, n);
    } else {
        push_u64_dec(out, n / 10);
        push_digit(out, n % 10);
    }
}

/// The decimal text of `n`.
pub fn u64_dec_string(n: u64) -> (s: String)
    ensures
        s@ == dec_digits(n as int),
{
    let mut s = String::new();
    push_u64_dec(&mut s, n);
    s
}

/// `s` left-padded with `'0'` to at least four characters.
pub open spec fn zero_pad4(s: Seq<char>) -> Seq<char> {
    if s.len() >= 4 {
        s
    } else {
        Seq::new((4 - s.len()) as nat, |i: int| '0') + s
    }
}

/// The name of the frame file of local index `n` within a window: a fixed
/// prefix, the index zero-padded to four digits, and the image extension.
/// Both scratch directories use this scheme, so the decoder side, the
/// upscaler and the encoder side all address the same slot.
pub open spec fn spec_frame_file_name(n: int) -> Seq<char> {
    "frame"@ + zero_pad4(dec_digits(n)) + ".png"@
}

/// Renders the frame file name of local index `n`.
pub fn frame_file_name(n: u64) -> (s: String)
    ensures
        s@ == spec_frame_file_name(n as int),
{
    proof {
        reveal_strlit("0");
    }
    let mut digits = String::new();
    push_u64_dec(&mut digits, n);
    let len = digits.as_str().unicode_len();
    let mut s = "frame".to_owned();
    let mut i: usize = len;
    while i < 4
        invariant
            len <= i <= 4 || (len > 4 && i == len),
            s@ == "frame"@ + Seq::new((i - len) as nat, |k: int| '0'),
        decreases 4 - i,
    {
        proof {
            reveal_strlit("0");
        }
        s.append("0");
        i = i + 1;
        proof {
            assert(s@ =~= "frame"@ + Seq::new((i - len) as nat, |k: int| '0'));
        }
    }
    s.append(digits.as_str());
    s.append(".png");
    proof {
        assert(s@ =~= spec_frame_file_name(n as int));
    }
    s
}

/// The text that `pretty_time` renders for `total_secs` seconds: hours and
/// minutes appear only when they are nonzero, seconds always appear.
pub open spec fn spec_pretty_time(total_secs: int) -> Seq<char>
    recommends
        total_secs >= 0,
{
    let hrs = total_secs / 3600;
    let mins = (total_secs % 3600) / 60;
    let secs = total_secs % 60;
    (if hrs > 0 {
        dec_digits(hrs) + seq!['h']
    } else {
        Seq::<char>::empty()
    }) + (if mins > 0 {
        dec_digits(mins) + seq!['m']
    } else {
        Seq::<char>::empty()
    }) + dec_digits(secs) + seq!['s']
}

/// Renders a duration as `XhYmZs`, leaving out the hour and minute parts
/// when they are zero.
pub fn pretty_time(total_secs: u64) -> (s: String)
    ensures
        s@ == spec_pretty_time(total_secs as int),
{
    proof {
        reveal_strlit("h");
        reveal_strlit("m");
        reveal_strlit("s");
    }
    let hrs = total_secs / 3600;
    let mins = (total_secs % 3600) / 60;
    let secs = total_secs % 60;
    let mut s = String::new();
    if hrs > 0 {
        push_u64_dec(&mut s, hrs);
        s.append("h");
    }
    if mins > 0 {
        push_u64_dec(&mut s, mins);
        s.append("m");
    }
    push_u64_dec(&mut s, secs);
    s.append("s");
    proof {
        assert(s@ =~= spec_pretty_time(total_secs as int));
    }
    s
}

/// The text of a progress bar of `width` characters: brackets around
/// `(width - 2) * value / max` filled positions, the rest unfilled.
pub open spec fn spec_progress_bar(width: int, value: int, max: int) -> Seq<char>
    recommends
        2 <= width,
        0 < max,
        0 <= value <= max,
{
    let inner = width - 2;
    let filled = inner * value / max;
    seq!['['] + Seq::new(filled as nat, |i: int| '#') + Seq::new((inner - filled) as nat, |i: int| '.')
        + seq![']']
}

/// Renders a progress bar of `width` characters for `value` out of `max`.
pub fn progress_bar(width: usize, value: usize, max: usize) -> (s: String)
    requires
        2 <= width,
        0 < max,
        value <= max,
        (width - 2) * value <= usize::MAX,
    ensures
        s@ == spec_progress_bar(width as int, value as int, max as int),
{
    proof {
        reveal_strlit("[");
        reveal_strlit("]");
        reveal_strlit("#");
        reveal_strlit(".");
    }
    let inner = width - 2;
    let filled = inner * value / max;
    proof {
        let iw = inner as int;
        let v = value as int;
        let m = max as int;
        assert(iw * v <= iw * m) by (nonlinear_arith)
            requires
                0 <= iw,
                v <= m,
        ;
        assert(iw * v / m <= iw) by (nonlinear_arith)
            requires
                0 < m,
                0 <= iw,
                iw * v <= iw * m,
        ;
    }
    let mut s = String::new();
    s.append("[");
    let mut i: usize = 0;
    while i < filled
        invariant
            i <= filled,
            s@ =~= seq!['['] + Seq::new(i as nat, |k: int| '#'),
        decreases filled - i,
    {
        proof {
            reveal_strlit("#");
        }
        s.append("#");
        i = i + 1;
        proof {
            assert(s@ =~= seq!['['] + Seq::new(i as nat, |k: int| '#'));
        }
    }
    let mut j: usize = filled;
    while j < inner
        invariant
            filled <= j <= inner,
            s@ =~= seq!['['] + Seq::new(filled as nat, |k: int| '#') + Seq::new(
                (j - filled) as nat,
                |k: int| '.',
            ),
        decreases inner - j,
    {
        proof {
            reveal_strlit(".");
        }
        s.append(".");
        j = j + 1;
        proof {
            assert(s@ =~= seq!['['] + Seq::new(filled as nat, |k: int| '#') + Seq::new(
                (j - filled) as nat,
                |k: int| '.',
            ));
        }
    }
    s.append("]");
    proof {
        assert(s@ =~= spec_progress_bar(width as int, value as int, max as int));
    }
    s
}

/// The remaining-time estimate derived from the last window's throughput:
/// `window_secs * frames_left / window_frames`, saturating at `u64::MAX`.
pub open spec fn spec_estimate_remaining(window_secs: int, frames_left: int, window_frames: int) -> int
    recommends
        window_frames > 0,
{
    let q = window_secs * frames_left / window_frames;
    if q > u64::MAX {
        u64::MAX as int
    } else {
        q
    }
}

/// Estimates the seconds left from the time one window took, the frames
/// still to process, and the frames of that window.
pub fn estimate_remaining_secs(window_secs: u64, frames_left: u64, window_frames: u64) -> (r: u64)
    requires
        window_frames > 0,
    ensures
        r == spec_estimate_remaining(window_secs as int, frames_left as int, window_frames as int),
{
    proof {
        assert((window_secs as int) * (frames_left as int) <= (u64::MAX as int) * (u64::MAX as int))
            by (nonlinear_arith)
            requires
                0 <= window_secs <= u64::MAX,
                0 <= frames_left <= u64::MAX,
        ;
    }
    let prod: u128 = (window_secs as u128) * (frames_left as u128);
    let q: u128 = prod / (window_frames as u128);
    if q > u64::MAX as u128 {
        u64::MAX
    } else {
        q as u64
    }
}

} // verus!
