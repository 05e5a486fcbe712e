use quasicrystals::error::ConfigurationError;
use quasicrystals::schedule::{schedule, FrameRange};

fn run(start: u64, end: u64) -> FrameRange {
    FrameRange { start, end }
}

#[test]
fn ten_frames_on_three_workers() {
    let runs = schedule(10, 3).unwrap();
    assert_eq!(runs, vec![run(0, 4), run(4, 8), run(8, 10)]);
    let sizes: Vec<u64> = runs.iter().map(|r| r.end - r.start).collect();
    assert_eq!(sizes, vec![4, 4, 2]);
    let frames: Vec<u64> = runs.iter().flat_map(|r| r.start..r.end).collect();
    assert_eq!(frames, (0..10).collect::<Vec<u64>>());
}

#[test]
fn no_workers_is_refused() {
    assert_eq!(schedule(10, 0), Err(ConfigurationError::NoThreads));
    assert_eq!(schedule(0, 0), Err(ConfigurationError::NoThreads));
}

#[test]
fn fewer_frames_than_workers_go_to_one_worker() {
    assert_eq!(schedule(3, 4).unwrap(), vec![run(0, 3)]);
    assert_eq!(schedule(1, 2).unwrap(), vec![run(0, 1)]);
    assert_eq!(schedule(0, 1).unwrap(), vec![run(0, 0)]);
}

#[test]
fn one_worker_renders_everything() {
    assert_eq!(schedule(1, 1).unwrap(), vec![run(0, 1)]);
    assert_eq!(schedule(10, 1).unwrap(), vec![run(0, 10)]);
}

#[test]
fn frames_that_divide_evenly() {
    assert_eq!(schedule(9, 3).unwrap(), vec![run(0, 3), run(3, 6), run(6, 9)]);
    assert_eq!(schedule(4, 4).unwrap(), vec![run(0, 1), run(1, 2), run(2, 3), run(3, 4)]);
}

#[test]
fn the_last_worker_takes_what_is_left() {
    assert_eq!(schedule(10, 4).unwrap(), vec![run(0, 3), run(3, 6), run(6, 9), run(9, 10)]);
    assert_eq!(schedule(7, 2).unwrap(), vec![run(0, 4), run(4, 7)]);
}

#[test]
fn runs_follow_one_another() {
    for frames in 0..60u32 {
        for threads in 1..12u32 {
            let runs = schedule(frames, threads).unwrap();
            assert_eq!(runs.len() as u32, if frames < threads { 1 } else { threads });
            assert_eq!(runs[0].start, 0);
            assert_eq!(runs[runs.len() - 1].end, frames as u64);
            for pair in runs.windows(2) {
                assert_eq!(pair[0].end, pair[1].start);
            }
        }
    }
}

#[test]
fn no_frame_is_rendered_twice_and_frames_ascend() {
    for frames in 0..60u32 {
        for threads in 1..12u32 {
            let runs = schedule(frames, threads).unwrap();
            let order: Vec<u64> = runs.iter().flat_map(|r| r.start..r.end).collect();
            for pair in order.windows(2) {
                assert!(pair[0] < pair[1]);
            }
        }
    }
}

#[test]
fn a_plan_whose_last_run_starts_within_the_animation_covers_it() {
    for frames in 0..60u32 {
        for threads in 1..12u32 {
            let runs = schedule(frames, threads).unwrap();
            if runs[runs.len() - 1].start <= frames as u64 {
                let order: Vec<u64> = runs.iter().flat_map(|r| r.start..r.end).collect();
                assert_eq!(order, (0..frames as u64).collect::<Vec<u64>>());
            }
        }
    }
}

#[test]
fn runs_of_rounded_up_length_may_pass_the_end() {
    // ten frames on seven workers: runs of two frames, and the sixth run
    // lies beyond the tenth frame
    assert_eq!(
        schedule(10, 7).unwrap(),
        vec![run(0, 2), run(2, 4), run(4, 6), run(6, 8), run(8, 10), run(10, 12), run(12, 10)]
    );
}

#[test]
fn the_largest_run_does_not_overflow() {
    let runs = schedule(u32::MAX, 2).unwrap();
    assert_eq!(runs, vec![run(0, 2147483648), run(2147483648, 4294967295)]);
    let runs = schedule(u32::MAX, 4).unwrap();
    assert_eq!(
        runs,
        vec![
            run(0, 1073741824),
            run(1073741824, 2147483648),
            run(2147483648, 3221225472),
            run(3221225472, 4294967295),
        ]
    );
}
