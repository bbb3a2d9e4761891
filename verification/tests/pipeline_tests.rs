use upscale::pipeline::{
    compute_windows, num_windows, window_at, window_len, window_estimate, Phase, Pipeline,
    PipelineAction,
};

#[test]
fn windows_25_by_10() {
    let ws = compute_windows(25, 10);
    assert_eq!(ws.len(), 3);
    assert_eq!((ws[0].index, ws[0].first_frame, ws[0].frame_count), (0, 0, 10));
    assert_eq!((ws[1].index, ws[1].first_frame, ws[1].frame_count), (1, 10, 10));
    assert_eq!((ws[2].index, ws[2].first_frame, ws[2].frame_count), (2, 20, 5));
    let total: u64 = ws.iter().map(|w| w.frame_count).sum();
    assert_eq!(total, 25);
}

#[test]
fn windows_divide_evenly_without_stray_window() {
    let ws = compute_windows(20, 10);
    assert_eq!(ws.len(), 2);
    assert_eq!(ws[1].first_frame + ws[1].frame_count, 20);
}

#[test]
fn windows_of_empty_run() {
    assert_eq!(num_windows(0, 10), 0);
    assert!(compute_windows(0, 10).is_empty());
}

#[test]
fn single_short_window() {
    let ws = compute_windows(7, 100);
    assert_eq!(ws.len(), 1);
    assert_eq!(ws[0].frame_count, 7);
}

#[test]
fn window_helpers_agree() {
    assert_eq!(num_windows(25, 10), 3);
    assert_eq!(window_len(25, 10, 2), 5);
    let w = window_at(25, 10, 2);
    assert_eq!(w.first_frame, 20);
    assert_eq!(w.frame_count, 5);
}

#[test]
fn machine_runs_25_by_10_in_order() {
    let mut p = Pipeline::new(25, 10);
    let mut pulls: Vec<u64> = Vec::new();
    let mut upscales: Vec<(u64, u64)> = Vec::new();
    let mut emits: Vec<u64> = Vec::new();
    let mut closed = 0;
    loop {
        match p.next_action() {
            PipelineAction::PullFrame { window, local, global } => {
                assert_eq!(global, window * 10 + local);
                pulls.push(global);
            }
            PipelineAction::UpscaleWindow { window, count } => {
                upscales.push((window, count));
            }
            PipelineAction::EmitFrame { window, local, global } => {
                assert_eq!(global, window * 10 + local);
                emits.push(global);
            }
            PipelineAction::CloseEncoder => {
                closed += 1;
            }
            PipelineAction::Finished => break,
            PipelineAction::Cleanup => panic!("run must not abort"),
        }
        p.step_ok();
    }
    // Every frame pulled once, in order.
    assert_eq!(pulls, (0..25).collect::<Vec<u64>>());
    // One upscaler invocation per window, over the stated frame counts.
    assert_eq!(upscales, vec![(0, 10), (1, 10), (2, 5)]);
    // Every frame forwarded once, in ascending order, before closing.
    assert_eq!(emits, (0..25).collect::<Vec<u64>>());
    assert_eq!(closed, 1);
}

#[test]
fn machine_interleaves_windows_correctly() {
    // Within each window: all pulls, then the upscale, then all emits.
    let mut p = Pipeline::new(12, 5);
    let mut trace = String::new();
    loop {
        match p.next_action() {
            PipelineAction::PullFrame { .. } => trace.push('p'),
            PipelineAction::UpscaleWindow { .. } => trace.push('u'),
            PipelineAction::EmitFrame { .. } => trace.push('e'),
            PipelineAction::CloseEncoder => trace.push('c'),
            PipelineAction::Finished => break,
            PipelineAction::Cleanup => panic!("run must not abort"),
        }
        p.step_ok();
    }
    assert_eq!(trace, "pppppueeeeepppppueeeeeppueec");
}

#[test]
fn machine_with_zero_frames_only_drains() {
    let mut p = Pipeline::new(0, 10);
    assert!(matches!(p.next_action(), PipelineAction::CloseEncoder));
    p.step_ok();
    assert!(matches!(p.next_action(), PipelineAction::Finished));
}

#[test]
fn failure_leads_to_cleanup() {
    let mut p = Pipeline::new(25, 10);
    p.step_ok(); // one frame pulled
    p.step_fail(); // the next pull failed
    assert!(matches!(p.phase, Phase::Aborted));
    assert!(matches!(p.next_action(), PipelineAction::Cleanup));
}

#[test]
fn scratch_files_stay_bounded() {
    // Count the files the actions create and delete; never more than
    // 2 * window_size, and none at the end.
    let mut p = Pipeline::new(25, 10);
    let mut lores = 0i64;
    let mut hires = 0i64;
    loop {
        match p.next_action() {
            PipelineAction::PullFrame { .. } => lores += 1,
            PipelineAction::UpscaleWindow { count, .. } => hires += count as i64,
            PipelineAction::EmitFrame { .. } => {
                lores -= 1;
                hires -= 1;
            }
            PipelineAction::CloseEncoder => {}
            PipelineAction::Finished => break,
            PipelineAction::Cleanup => panic!("run must not abort"),
        }
        assert!(lores + hires <= 20);
        assert!(lores >= 0 && hires >= 0);
        p.step_ok();
    }
    assert_eq!(lores, 0);
    assert_eq!(hires, 0);
}

#[test]
fn estimate_after_a_window() {
    // A 10-frame window took 10 seconds; 5 frames remain of 25.
    assert_eq!(window_estimate(10, 25, 20, 10), 5);
    // Nothing remains.
    assert_eq!(window_estimate(10, 25, 25, 10), 0);
}
