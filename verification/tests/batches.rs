//! Batches of files.
use vfs_storage_hub::batch::{
    admit_submission, base_destination, compress_cleanup, compress_temp_dir, compress_verdict,
    decompress_message, decompress_verdict, reserve_batch_destination, split_stem_and_ext,
    video_message, video_verdict, BatchPlan, CompressOutcome, CompressRun, CompressStep,
    DecompressRun, ItemOutcome, TaskVerdict, UniquePathSearch, VfsBatchExecutor, VideoOutcome,
    VideoRun, VideoStep,
};
use vfs_storage_hub::error::VfsError;

fn failure(v: TaskVerdict) -> String {
    match v {
        TaskVerdict::Failure(t) => t,
        TaskVerdict::Success => panic!("success"),
    }
}

fn strings(list: &[&str]) -> Vec<String> {
    list.iter().map(|s| s.to_string()).collect()
}

#[test]
fn taken_destinations_are_numbered() {
    let mut reserved = Vec::new();
    let mut reserve = |s: &str| reserve_batch_destination(s.to_string(), &mut reserved);
    assert_eq!(reserve("/d/a.txt"), "/d/a.txt");
    assert_eq!(reserve("/d/a.txt"), "/d/a (1).txt");
    assert_eq!(reserve("/d/a.txt"), "/d/a (2).txt");
    assert_eq!(reserve("/d/a (1).txt"), "/d/a (1) (1).txt");
    assert_eq!(reserve("/d/.conf"), "/d/.conf");
    assert_eq!(reserve("/d/.conf"), "/d/.conf (1)");
    assert_eq!(reserve("x"), "x");
    assert_eq!(reserve("x"), "x (1)");
    assert_eq!(split_stem_and_ext("a.b.c"), ("a.b".to_string(), "c".to_string()));
    assert_eq!(split_stem_and_ext(".a"), (".a".to_string(), String::new()));
}

#[test]
fn the_destinations_of_a_batch_differ() {
    let mut plan = BatchPlan::new();
    for src in ["/x/f.txt", "/y/f.txt", "/z/f.txt"] {
        plan.add_file(src.to_string(), base_destination(src, "/d/"));
    }
    let plans = plan.into_plans();
    let dst: Vec<&str> = plans.iter().map(|p| p.1.as_str()).collect();
    assert_eq!(dst, vec!["/d/f.txt", "/d/f (1).txt", "/d/f (2).txt"]);
}

#[test]
fn unique_paths_are_searched_for() {
    let mut s = UniquePathSearch::new("/d/a.tar.gz");
    assert_eq!(s.current(), "/d/a.tar.gz");
    assert!(!s.advance(true));
    assert_eq!(s.current(), "/d/a.tar_1.gz");
    assert!(!s.advance(true));
    assert_eq!(s.current(), "/d/a.tar_2.gz");
    assert!(s.advance(false));
    let mut long = UniquePathSearch::new("/f");
    let mut n = 0;
    while !long.advance(true) {
        n += 1;
    }
    assert_eq!(n, 99);
    assert_eq!(long.current(), "/f_100");
}

#[test]
fn a_run_counts_logs_and_reports() {
    let mut run = VfsBatchExecutor::new(7);
    for i in 1..=4 {
        let r = run.on_outcome(false, ItemOutcome::Done);
        assert!(!r.stop && !r.report, "{}", i);
        assert_eq!(r.log_success, Some(true));
    }
    let r = run.on_outcome(false, ItemOutcome::Failed);
    assert!(r.report);
    assert_eq!(r.log_success, Some(false));
    assert_eq!(run.progress_message(), "Processed 5/7 (Success: 4, Failed: 1)");
    assert!(run.on_outcome(true, ItemOutcome::Done).stop);
    assert!(run.on_outcome(false, ItemOutcome::NotTried).stop);
    assert_eq!((run.success, run.failed), (4, 1));
    assert!(!run.on_outcome(false, ItemOutcome::Done).report);
    assert!(run.on_outcome(false, ItemOutcome::Done).report);
    assert_eq!(failure(run.verdict(false)), "Completed with failures: 6 success, 1 failed");
    assert_eq!(failure(run.verdict(true)), "Task timed out");
    assert!(matches!(VfsBatchExecutor::new(0).verdict(false), TaskVerdict::Success));
}

#[test]
fn a_compression_gathers_and_compresses() {
    let dir = compress_temp_dir(12, "id");
    assert_eq!(dir, "/.virtual/tmp/batch_12_id");
    let paths = strings(&["/a/x", "/../y", "/", "b\\z"]);
    let mut run = CompressRun::new(&paths, &dir, true, false);
    assert!(matches!(run.next(), CompressStep::CreateTempDir));
    run.report(None);
    match run.next() {
        CompressStep::Copy { position, from, to } => {
            assert_eq!((position, from, to), (0, "/a/x", "/.virtual/tmp/batch_12_id/x"));
        }
        other => panic!("{:?}", other),
    }
    run.report(Some("no".to_string()));
    match run.next() {
        CompressStep::Copy { position, from, to } => {
            assert_eq!((position, from, to), (3, "/b/z", "/.virtual/tmp/batch_12_id/z"));
        }
        other => panic!("{:?}", other),
    }
    run.report(None);
    assert!(matches!(run.next(), CompressStep::Compress));
    run.report(None);
    assert!(matches!(run.next(), CompressStep::Nothing));
    let outcome = run.into_outcome().unwrap();
    assert!(matches!(compress_verdict(&outcome), TaskVerdict::Success));
    assert_eq!(compress_cleanup(&outcome, &dir, &paths, false), vec![dir.clone()]);
    assert_eq!(compress_cleanup(&outcome, &dir, &paths, true).len(), 5);
}

#[test]
fn compressions_fail_where_they_should() {
    let verdict = |reports: Vec<Option<String>>, counts: bool| {
        let mut run = CompressRun::new(&strings(&["/a"]), "/t", false, counts);
        for r in reports {
            run.report(r);
        }
        failure(compress_verdict(&run.into_outcome().unwrap()))
    };
    let no = || Some("no".to_string());
    assert_eq!(verdict(vec![no()], false), "Failed to create temp dir: no");
    assert_eq!(
        verdict(vec![None, no()], false),
        "No files were successfully prepared for compression"
    );
    assert_eq!(verdict(vec![None, no(), no()], true), "Compression failed: no");
    assert_eq!(
        failure(compress_verdict(&CompressOutcome::TimedOut)),
        "Compression task timed out after 24 hours"
    );
    let mut empty = CompressRun::new(&Vec::new(), "/t", false, true);
    empty.report(None);
    assert!(matches!(empty.into_outcome(), Some(CompressOutcome::NothingPrepared)));
    assert!(compress_cleanup(&CompressOutcome::TimedOut, "/t", &strings(&["/a"]), true).is_empty());
}

#[test]
fn decompressions_and_videos_are_judged() {
    assert_eq!(decompress_message(2, 3, 1), "Processed 2/3 (Failed: 1)");
    assert_eq!(failure(decompress_verdict(2, false)), "Decompression completed with 2 failures");
    assert_eq!(
        failure(decompress_verdict(0, true)),
        "Decompression task timed out after 24 hours"
    );
    assert!(matches!(decompress_verdict(0, false), TaskVerdict::Success));
    assert_eq!(video_message(1, 2, 1, 0), "Processed 1/2 videos (Success: 1, Failed: 0)");
    assert_eq!(
        failure(video_verdict(&VideoOutcome::NoVideos)),
        "No video files were found in the selected paths"
    );
    assert_eq!(
        failure(video_verdict(&VideoOutcome::Cancelled)),
        "Video compression task cancelled by user"
    );
    assert_eq!(failure(video_verdict(&VideoOutcome::ScanFailed("x".to_string()))), "x");
    assert_eq!(
        failure(video_verdict(&VideoOutcome::TimedOut)),
        "Video compression task timed out"
    );
    assert_eq!(
        failure(video_verdict(&VideoOutcome::Finished { success: 1, failed: 2 })),
        "Video compression completed with 2 failures"
    );
    assert!(matches!(
        video_verdict(&VideoOutcome::Finished { success: 0, failed: 0 }),
        TaskVerdict::Success
    ));
}

#[test]
fn submissions_are_admitted() {
    assert!(admit_submission(false, true).is_ok());
    assert!(matches!(admit_submission(true, false), Err(VfsError::MaintenanceMode)));
    assert!(matches!(
        admit_submission(false, false),
        Err(VfsError::Internal(ref m)) if m == "Task handler not configured"
    ));
}

#[test]
fn a_decompression_goes_on_after_a_failure() {
    let mut run = DecompressRun::new(2);
    assert_eq!(run.next(), Some(0));
    assert_eq!(run.report(false), "Processed 1/2 (Failed: 1)");
    assert_eq!(run.next(), Some(1));
    assert_eq!(run.report(true), "Processed 2/2 (Failed: 1)");
    assert_eq!(run.next(), None);
    assert_eq!(failure(run.verdict(false)), "Decompression completed with 1 failures");
    assert_eq!(
        failure(run.verdict(true)),
        "Decompression task timed out after 24 hours"
    );
    assert!(matches!(DecompressRun::new(0).verdict(false), TaskVerdict::Success));
}

#[test]
fn videos_are_compressed_until_the_task_is_cancelled() {
    assert!(matches!(VideoRun::start(Ok(0)), Err(VideoOutcome::NoVideos)));
    match VideoRun::start(Err("disk".to_string())) {
        Err(VideoOutcome::ScanFailed(text)) => assert_eq!(text, "disk"),
        _ => panic!("scan failed"),
    }
    let mut run = match VideoRun::start(Ok(2)) {
        Ok(run) => run,
        Err(_) => panic!("two videos"),
    };
    assert!(matches!(run.next(false), VideoStep::Compress(0)));
    assert_eq!(run.report(true), "Processed 1/2 videos (Success: 1, Failed: 0)");
    assert!(matches!(run.next(true), VideoStep::Over(VideoOutcome::Cancelled)));
    assert!(matches!(run.next(false), VideoStep::Compress(1)));
    assert_eq!(run.report(false), "Processed 2/2 videos (Success: 1, Failed: 1)");
    assert!(matches!(
        run.next(true),
        VideoStep::Over(VideoOutcome::Finished { success: 1, failed: 1 })
    ));
}

#[test]
fn files_keep_their_names_in_the_directory_they_go_to() {
    assert_eq!(base_destination("/a/b.txt", "/c/"), "/c/b.txt");
    assert_eq!(base_destination("b.txt", "/"), "/b.txt");
}
