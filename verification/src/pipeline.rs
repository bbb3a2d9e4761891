//! The windowed pipeline: the frame range divided into fixed-size windows
//! that partition it exactly, and the state machine that orders every step
//! of a run — pull each decoded frame of a window into the low-resolution
//! scratch directory, upscale the whole window at once, forward the
//! upscaled frames to the encoder in strictly ascending order while
//! deleting each frame pair, and finally close the encoder's input and
//! wait for both stream processes. The surrounding program performs the
//! actions; the machine decides them.

use crate::util::spec_estimate_remaining;
use vstd::arithmetic::div_mod::lemma_remainder;
use vstd::arithmetic::div_mod::lemma_remainder_lower;
use vstd::arithmetic::mul::lemma_mul_inequality;
use vstd::arithmetic::mul::lemma_mul_nonnegative;
use vstd::prelude::*;

verus! {

/// One contiguous run of frames processed together through the upscaler.
#[derive(Clone, Copy, Debug, PartialEq, Eq)]
pub struct Window {
    /// Position of the window in the run.
    pub index: u64,
    /// Global index of the window's first frame.
    pub first_frame: u64,
    /// Number of frames in the window: the configured size, except for a
    /// shorter final window when the total is not a multiple of it.
    pub frame_count: u64,
}

/// How many windows a run of `total` frames has at `size` frames per
/// window: the exact ceiling of `total / size`.
pub open spec fn spec_window_count(total: u64, size: u64) -> int
    recommends
        size > 0,
{
    if total == 0 {
        0
    } else {
        (total - 1) as int / size as int + 1
    }
}

/// The number of frames of window `i`.
pub open spec fn spec_window_len(total: u64, size: u64, i: int) -> int
    recommends
        size > 0,
        0 <= i < spec_window_count(total, size),
{
    if i * size + size <= total {
        size as int
    } else {
        total - i * size
    }
}

/// The sum of the frame counts of the first `k` windows.
pub open spec fn spec_lens_sum(total: u64, size: u64, k: int) -> int
    decreases k,
{
    if k <= 0 {
        0
    } else {
        spec_lens_sum(total, size, k - 1) + spec_window_len(total, size, k - 1)
    }
}

/// Bounds of one window: it starts within the frame range, holds between
/// 1 and `size` frames, stays inside the range, is full except possibly
/// as the last window, and the last window ends exactly at `total`.
proof fn lemma_window_bounds(total: u64, size: u64, i: int)
    requires
        size > 0,
        0 <= i < spec_window_count(total, size),
    ensures
        0 <= i * size <= total - 1,
        1 <= spec_window_len(total, size, i) <= size,
        i * size + spec_window_len(total, size, i) <= total,
        i < spec_window_count(total, size) - 1 ==> spec_window_len(total, size, i) == size,
        i == spec_window_count(total, size) - 1 ==> i * size + spec_window_len(total, size, i)
            == total,
        i < spec_window_count(total, size) - 1 ==> (i + 1) * size == i * size + size,
{
    let t = total as int - 1;
    let s = size as int;
    let q = t / s;
    lemma_mul_nonnegative(i, s);
    lemma_mul_inequality(i, q, s);
    lemma_remainder_lower(t, s);
    lemma_remainder(t, s);
    assert((i + 1) * s == i * s + s) by (nonlinear_arith);
    if i < q {
        lemma_mul_inequality(i + 1, q, s);
    }
}

/// Law: the windows of a run partition `[0, total)` exactly — the first
/// window starts at frame 0, each window starts where the previous one
/// ended, and the frame counts sum to the total.
pub proof fn lemma_windows_partition(total: u64, size: u64)
    requires
        size > 0,
    ensures
        spec_lens_sum(total, size, spec_window_count(total, size)) == total,
        forall|i: int|
            0 <= i < spec_window_count(total, size) ==> 1 <= #[trigger] spec_window_len(
                total,
                size,
                i,
            ) <= size,
        forall|i: int|
            0 <= i < spec_window_count(total, size) - 1 ==> #[trigger] ((i + 1) * size) == i * size
                + spec_window_len(total, size, i),
        forall|i: int|
            0 <= i < spec_window_count(total, size) ==> #[trigger] spec_lens_sum(total, size, i)
                == i * size,
{
    let n = spec_window_count(total, size);
    assert forall|i: int| 0 <= i < n implies 1 <= #[trigger] spec_window_len(total, size, i)
        <= size by {
        lemma_window_bounds(total, size, i);
    }
    assert forall|i: int| 0 <= i < n - 1 implies #[trigger] ((i + 1) * size) == i * size
        + spec_window_len(total, size, i) by {
        lemma_window_bounds(total, size, i);
    }
    lemma_lens_sum(total, size, n);
    assert forall|i: int| 0 <= i < n implies #[trigger] spec_lens_sum(total, size, i) == i
        * size by {
        lemma_lens_sum(total, size, i);
    }
}

/// The first `k` windows cover exactly `k * size` frames, and all windows
/// together cover the whole run.
proof fn lemma_lens_sum(total: u64, size: u64, k: int)
    requires
        size > 0,
        0 <= k <= spec_window_count(total, size),
    ensures
        k < spec_window_count(total, size) ==> spec_lens_sum(total, size, k) == k * size,
        k == spec_window_count(total, size) ==> spec_lens_sum(total, size, k) == total,
    decreases k,
{
    if k == 0 {
        assert(0 * size == 0) by (nonlinear_arith);
    } else {
        lemma_lens_sum(total, size, k - 1);
        lemma_window_bounds(total, size, k - 1);
        assert(k * size == (k - 1) * size + size) by (nonlinear_arith);
    }
}

/// How many windows a run of `total` frames has at `size` frames per
/// window.
pub fn num_windows(total: u64, size: u64) -> (n: u64)
    requires
        size > 0,
    ensures
        n == spec_window_count(total, size),
{
    if total == 0 {
        0
    } else {
        (total - 1) / size + 1
    }
}

/// The `i`-th window of the run.
pub fn window_at(total: u64, size: u64, i: u64) -> (w: Window)
    requires
        size > 0,
        (i as int) < spec_window_count(total, size),
    ensures
        w.index == i,
        w.first_frame == i * size,
        w.frame_count == spec_window_len(total, size, i as int),
        1 <= w.frame_count <= size,
{
    proof {
        lemma_window_bounds(total, size, i as int);
    }
    let first = i * size;
    let count = if size <= total - first {
        size
    } else {
        total - first
    };
    Window { index: i, first_frame: first, frame_count: count }
}

/// The sum of the frame counts of `ws`.
pub open spec fn windows_total(ws: Seq<Window>) -> int
    decreases ws.len(),
{
    if ws.len() == 0 {
        0
    } else {
        windows_total(ws.drop_last()) + ws.last().frame_count
    }
}

/// All windows of the run, in order. They partition `[0, total)`: the
/// first starts at frame 0, each starts where the previous one ended, and
/// the counts sum to `total`.
pub fn compute_windows(total: u64, size: u64) -> (ws: Vec<Window>)
    requires
        size > 0,
    ensures
        ws@.len() == spec_window_count(total, size),
        forall|i: int|
            0 <= i < ws@.len() ==> {
                &&& (#[trigger] ws@[i]).index == i
                &&& ws@[i].first_frame == i * size
                &&& ws@[i].frame_count == spec_window_len(total, size, i)
            },
        windows_total(ws@) == total,
        ws@.len() > 0 ==> ws@[0].first_frame == 0,
        forall|i: int|
            0 <= i < ws@.len() - 1 ==> (#[trigger] ws@[i + 1]).first_frame == ws@[i].first_frame
                + ws@[i].frame_count,
{
    let n = num_windows(total, size);
    let mut ws: Vec<Window> = Vec::new();
    let mut i: u64 = 0;
    while i < n
        invariant
            size > 0,
            i <= n,
            n == spec_window_count(total, size),
            ws@.len() == i,
            forall|j: int|
                0 <= j < i ==> {
                    &&& (#[trigger] ws@[j]).index == j
                    &&& ws@[j].first_frame == j * size
                    &&& ws@[j].frame_count == spec_window_len(total, size, j)
                },
            windows_total(ws@) == spec_lens_sum(total, size, i as int),
        decreases n - i,
    {
        let w = window_at(total, size, i);
        let ghost prev = ws@;
        ws.push(w);
        proof {
            assert(ws@.drop_last() =~= prev);
        }
        i = i + 1;
    }
    proof {
        lemma_lens_sum(total, size, n as int);
        assert(0 * size == 0) by (nonlinear_arith);
        assert forall|i: int| 0 <= i < ws@.len() - 1 implies (#[trigger] ws@[i + 1]).first_frame
            == ws@[i].first_frame + ws@[i].frame_count by {
            lemma_window_bounds(total, size, i);
        }
    }
    ws
}

/// Where the pipeline stands.
#[derive(Clone, Copy, Debug, PartialEq, Eq)]
pub enum Phase {
    /// Pulling decoded frames of the current window into the
    /// low-resolution scratch directory.
    Pull,
    /// Upscaling the current window's directory in one blocking call.
    Upscale,
    /// Forwarding the current window's upscaled frames to the encoder, in
    /// ascending order, deleting each frame pair once forwarded.
    Emit,
    /// All windows done: closing the encoder's input and waiting for the
    /// decoder and the encoder.
    Drain,
    /// The run finished.
    Done,
    /// The run failed or was interrupted; everything is to be cleaned up.
    Aborted,
}

/// The next thing the surrounding program must do for the pipeline.
#[derive(Clone, Copy, Debug, PartialEq, Eq)]
pub enum PipelineAction {
    /// Extract one image from the decoder's stream and write it to the
    /// low-resolution slot `local` of window `window`; it holds the video
    /// frame `global`.
    PullFrame { window: u64, local: u64, global: u64 },
    /// Run the upscaler once over the whole low-resolution directory,
    /// which holds exactly `count` frames of window `window`.
    UpscaleWindow { window: u64, count: u64 },
    /// Forward the bytes of the high-resolution slot `local` of window
    /// `window` — video frame `global` — to the encoder, then delete both
    /// slots of that frame.
    EmitFrame { window: u64, local: u64, global: u64 },
    /// Close the encoder's input channel and wait on the decoder and the
    /// encoder.
    CloseEncoder,
    /// Nothing is left to do.
    Finished,
    /// Remove the scratch directory and the partly written destination.
    Cleanup,
}

/// The pipeline state machine. It decides every action of a run; the
/// surrounding program performs the actions, reports each success or
/// failure, and never reorders them.
pub struct Pipeline {
    /// Total frames of the source, from the probe's exact count.
    pub total_frames: u64,
    /// Configured frames per window.
    pub window_size: u64,
    /// Current window, or the window count once all are done.
    pub window: u64,
    /// Frames of the current window already pulled from the decoder.
    pub pulled: u64,
    /// Frames of the current window already forwarded to the encoder.
    pub emitted: u64,
    /// Where the run stands.
    pub phase: Phase,
}

impl Pipeline {
    /// The number of windows of this run.
    pub open spec fn win_count(&self) -> int {
        spec_window_count(self.total_frames, self.window_size)
    }

    /// The frame count of the current window.
    pub open spec fn cur_len(&self) -> int {
        spec_window_len(self.total_frames, self.window_size, self.window as int)
    }

    /// How many frames have been forwarded to the encoder so far.
    pub open spec fn frames_emitted(&self) -> int {
        spec_lens_sum(self.total_frames, self.window_size, self.window as int) + self.emitted
    }

    /// Frame files currently in the low-resolution scratch directory.
    pub open spec fn lores_files(&self) -> int {
        match self.phase {
            Phase::Pull => self.pulled as int,
            Phase::Upscale => self.cur_len(),
            Phase::Emit => self.cur_len() - self.emitted,
            _ => 0,
        }
    }

    /// Frame files currently in the high-resolution scratch directory.
    pub open spec fn hires_files(&self) -> int {
        match self.phase {
            Phase::Emit => self.cur_len() - self.emitted,
            _ => 0,
        }
    }

    /// The machine's invariant.
    pub open spec fn wf(&self) -> bool {
        &&& self.window_size > 0
        &&& match self.phase {
            Phase::Pull => {
                &&& self.window < self.win_count()
                &&& self.pulled < self.cur_len()
                &&& self.emitted == 0
            },
            Phase::Upscale => {
                &&& self.window < self.win_count()
                &&& self.pulled == self.cur_len()
                &&& self.emitted == 0
            },
            Phase::Emit => {
                &&& self.window < self.win_count()
                &&& self.pulled == self.cur_len()
                &&& self.emitted < self.cur_len()
            },
            Phase::Drain | Phase::Done => {
                &&& self.window == self.win_count()
                &&& self.pulled == 0
                &&& self.emitted == 0
            },
            Phase::Aborted => self.window <= self.win_count(),
        }
    }

    /// The action the machine asks for in this state.
    pub open spec fn action_spec(&self) -> PipelineAction {
        match self.phase {
            Phase::Pull => PipelineAction::PullFrame {
                window: self.window,
                local: self.pulled,
                global: (self.window * self.window_size + self.pulled) as u64,
            },
            Phase::Upscale => PipelineAction::UpscaleWindow {
                window: self.window,
                count: self.cur_len() as u64,
            },
            Phase::Emit => PipelineAction::EmitFrame {
                window: self.window,
                local: self.emitted,
                global: (self.window * self.window_size + self.emitted) as u64,
            },
            Phase::Drain => PipelineAction::CloseEncoder,
            Phase::Done => PipelineAction::Finished,
            Phase::Aborted => PipelineAction::Cleanup,
        }
    }

    /// The state after the current action succeeds.
    pub open spec fn spec_step(self) -> Pipeline {
        match self.phase {
            Phase::Pull => if self.pulled + 1 == self.cur_len() {
                Pipeline { pulled: (self.pulled + 1) as u64, phase: Phase::Upscale, ..self }
            } else {
                Pipeline { pulled: (self.pulled + 1) as u64, ..self }
            },
            Phase::Upscale => Pipeline { phase: Phase::Emit, ..self },
            Phase::Emit => if self.emitted + 1 == self.cur_len() {
                if self.window + 1 == self.win_count() {
                    Pipeline {
                        window: (self.window + 1) as u64,
                        pulled: 0,
                        emitted: 0,
                        phase: Phase::Drain,
                        ..self
                    }
                } else {
                    Pipeline {
                        window: (self.window + 1) as u64,
                        pulled: 0,
                        emitted: 0,
                        phase: Phase::Pull,
                        ..self
                    }
                }
            } else {
                Pipeline { emitted: (self.emitted + 1) as u64, ..self }
            },
            Phase::Drain => Pipeline { phase: Phase::Done, ..self },
            Phase::Done => self,
            Phase::Aborted => self,
        }
    }

    /// A pipeline at the start of a run.
    pub fn new(total_frames: u64, window_size: u64) -> (p: Pipeline)
        requires
            window_size > 0,
        ensures
            p.wf(),
            p.total_frames == total_frames,
            p.window_size == window_size,
            p.window == 0 && p.pulled == 0 && p.emitted == 0,
            p.frames_emitted() == 0,
            p.phase == (if spec_window_count(total_frames, window_size) == 0 {
                Phase::Drain
            } else {
                Phase::Pull
            }),
    {
        let n = num_windows(total_frames, window_size);
        if n == 0 {
            Pipeline {
                total_frames,
                window_size,
                window: 0,
                pulled: 0,
                emitted: 0,
                phase: Phase::Drain,
            }
        } else {
            proof {
                lemma_window_bounds(total_frames, window_size, 0);
            }
            Pipeline {
                total_frames,
                window_size,
                window: 0,
                pulled: 0,
                emitted: 0,
                phase: Phase::Pull,
            }
        }
    }

    /// The next action to perform.
    pub fn next_action(&self) -> (a: PipelineAction)
        requires
            self.wf(),
        ensures
            a == self.action_spec(),
    {
        proof {
            if self.window < self.win_count() {
                lemma_window_bounds(self.total_frames, self.window_size, self.window as int);
            }
        }
        match self.phase {
            Phase::Pull => PipelineAction::PullFrame {
                window: self.window,
                local: self.pulled,
                global: self.window * self.window_size + self.pulled,
            },
            Phase::Upscale => {
                let count = window_len(self.total_frames, self.window_size, self.window);
                PipelineAction::UpscaleWindow { window: self.window, count }
            },
            Phase::Emit => PipelineAction::EmitFrame {
                window: self.window,
                local: self.emitted,
                global: self.window * self.window_size + self.emitted,
            },
            Phase::Drain => PipelineAction::CloseEncoder,
            Phase::Done => PipelineAction::Finished,
            Phase::Aborted => PipelineAction::Cleanup,
        }
    }

    /// Records that the current action succeeded and moves the machine
    /// forward.
    pub fn step_ok(&mut self)
        requires
            old(self).wf(),
            !(old(self).phase is Done),
            !(old(self).phase is Aborted),
        ensures
            *final(self) == old(self).spec_step(),
            final(self).wf(),
    {
        proof {
            lemma_step_wf(*self);
        }
        match self.phase {
            Phase::Pull => {
                let len = window_len(self.total_frames, self.window_size, self.window);
                self.pulled = self.pulled + 1;
                if self.pulled == len {
                    self.phase = Phase::Upscale;
                }
            },
            Phase::Upscale => {
                self.phase = Phase::Emit;
            },
            Phase::Emit => {
                let len = window_len(self.total_frames, self.window_size, self.window);
                self.emitted = self.emitted + 1;
                if self.emitted == len {
                    let n = num_windows(self.total_frames, self.window_size);
                    self.window = self.window + 1;
                    self.pulled = 0;
                    self.emitted = 0;
                    if self.window == n {
                        self.phase = Phase::Drain;
                    } else {
                        self.phase = Phase::Pull;
                    }
                }
            },
            Phase::Drain => {
                self.phase = Phase::Done;
            },
            Phase::Done => {
            },
            Phase::Aborted => {
            },
        }
    }

    /// Records that the current action failed or that the run was
    /// interrupted: the machine moves to `Aborted`, whose one action is
    /// the cleanup.
    pub fn step_fail(&mut self)
        requires
            old(self).wf(),
        ensures
            *final(self) == (Pipeline { phase: Phase::Aborted, ..*old(self) }),
            final(self).wf(),
            final(self).frames_emitted() == old(self).frames_emitted(),
    {
        self.phase = Phase::Aborted;
    }
}

/// A successful step preserves the invariant.
proof fn lemma_step_wf(p: Pipeline)
    requires
        p.wf(),
        !(p.phase is Done),
        !(p.phase is Aborted),
    ensures
        p.spec_step().wf(),
{
    if p.window < p.win_count() {
        lemma_window_bounds(p.total_frames, p.window_size, p.window as int);
        if p.window + 1 < p.win_count() {
            lemma_window_bounds(p.total_frames, p.window_size, p.window as int + 1);
        }
    }
}

/// The frame count of window `i`, computed.
pub fn window_len(total: u64, size: u64, i: u64) -> (n: u64)
    requires
        size > 0,
        (i as int) < spec_window_count(total, size),
    ensures
        n == spec_window_len(total, size, i as int),
        1 <= n <= size,
{
    proof {
        lemma_window_bounds(total, size, i as int);
    }
    let first = i * size;
    if size <= total - first {
        size
    } else {
        total - first
    }
}

/// Law: frames reach the encoder exactly in ascending order, each one
/// once — in every reachable state, the next frame the machine forwards
/// is exactly the number already forwarded, and only a forwarding step
/// raises that number, by one.
pub proof fn lemma_emission_in_order(p: Pipeline)
    requires
        p.wf(),
        !(p.phase is Done),
        !(p.phase is Aborted),
    ensures
        (p.action_spec() matches PipelineAction::EmitFrame { global, .. } ==> global
            == p.frames_emitted()),
        p.spec_step().frames_emitted() == p.frames_emitted() + (
        if p.action_spec() is EmitFrame {
            1int
        } else {
            0int
        }),
{
    if p.window < p.win_count() {
        lemma_window_bounds(p.total_frames, p.window_size, p.window as int);
        lemma_lens_sum(p.total_frames, p.window_size, p.window as int);
        lemma_windows_partition(p.total_frames, p.window_size);
    }
    match p.phase {
        Phase::Emit => {
            if p.emitted + 1 == p.cur_len() {
                assert(p.spec_step().frames_emitted() == spec_lens_sum(
                    p.total_frames,
                    p.window_size,
                    p.window as int + 1,
                ));
            }
        },
        _ => {},
    }
}

/// Law: when the machine reaches the draining or finished state, the
/// number of frames forwarded to the encoder equals the total frame
/// count exactly.
pub proof fn lemma_done_all_frames(p: Pipeline)
    requires
        p.wf(),
        p.phase is Drain || p.phase is Done,
    ensures
        p.frames_emitted() == p.total_frames,
{
    lemma_windows_partition(p.total_frames, p.window_size);
    lemma_lens_sum(p.total_frames, p.window_size, p.win_count());
}

/// Law: at most `2 * window_size` frame files exist at any instant of an
/// unaborted run, and none once the machine drains or finishes.
pub proof fn lemma_scratch_bound(p: Pipeline)
    requires
        p.wf(),
        !(p.phase is Aborted),
    ensures
        p.lores_files() + p.hires_files() <= 2 * p.window_size,
        p.phase is Drain || p.phase is Done ==> p.lores_files() + p.hires_files() == 0,
{
    if p.window < p.win_count() {
        lemma_window_bounds(p.total_frames, p.window_size, p.window as int);
    }
}

/// The estimate shown after a window: the time the window took, scaled by
/// the frames still to do.
pub fn window_estimate(window_secs: u64, total: u64, done: u64, window_frames: u64) -> (r: u64)
    requires
        window_frames > 0,
        done <= total,
    ensures
        r == spec_estimate_remaining(
            window_secs as int,
            (total - done) as int,
            window_frames as int,
        ),
{
    crate::util::estimate_remaining_secs(window_secs, total - done, window_frames)
}

} // verus!
