use bz_downloader::bz_task::info::{compute_rate, PROGRESS_SCALE};
use bz_downloader::bz_task::{BzTaskInfo, BzTaskStatus, BzTaskType};
use bz_downloader::m3u8::{M3u8Task, M3u8TaskProgress, M3u8TaskProgressMessage};
use bz_downloader::zfs::{ZfsTask, ZfsTaskProgress, ZfsTaskProgressMessage};

fn mk_info(kind: BzTaskType) -> BzTaskInfo {
    BzTaskInfo {
        src: String::from("https://example.com/video.m3u8"),
        dest: String::from("./out/video.mp4"),
        cache: String::from("./cache/video"),
        kind,
        status: BzTaskStatus::Queued,
    }
}

const MANIFEST: &[u8] = b"#EXTM3U\n#EXT-X-VERSION:3\n#EXT-X-TARGETDURATION:10\n#EXTINF:9.0,\nseg0.ts\n#EXTINF:9.0,\nseg1.ts\n#EXTINF:9.0,\nseg2.ts\n#EXT-X-ENDLIST\n";

#[test]
fn rate_is_the_exact_scaled_fraction() {
    assert_eq!(compute_rate(0, 8), 0);
    assert_eq!(compute_rate(3, 8), 375000);
    assert_eq!(compute_rate(8, 8), PROGRESS_SCALE);
    // an empty workload reports zero
    assert_eq!(compute_rate(0, 0), 0);
    // a stale downloaded set can never report more than "all done"
    assert_eq!(compute_rate(9, 8), PROGRESS_SCALE);
}

#[test]
fn rate_never_decreases_as_downloads_complete() {
    let mut last: u64 = 0;
    for d in 0..=7u64 {
        let r = compute_rate(d, 7);
        assert!(r >= last);
        last = r;
    }
    assert_eq!(last, PROGRESS_SCALE);
}

#[test]
fn init_tasks_schedules_only_the_complement() {
    // resuming with a non-empty prior downloaded set: todos = total - downloaded
    let mut progress = M3u8TaskProgress::new("./cache/video");
    progress._update(M3u8TaskProgressMessage::Add(String::from("seg1.ts")));
    let uris = vec![
        String::from("seg0.ts"),
        String::from("seg1.ts"),
        String::from("seg2.ts"),
    ];
    progress.init_tasks(&uris);
    assert_eq!(progress.total, 3);
    assert_eq!(progress.todos, vec![String::from("seg0.ts"), String::from("seg2.ts")]);
    assert_eq!(progress.downloaded, vec![String::from("seg1.ts")]);
}

#[test]
fn the_downloaded_set_holds_each_value_once() {
    let mut progress = M3u8TaskProgress::new("./tmp");
    progress._update(M3u8TaskProgressMessage::Add(String::from("a.ts")));
    progress._update(M3u8TaskProgressMessage::Add(String::from("a.ts")));
    progress._update(M3u8TaskProgressMessage::Add(String::from("b.ts")));
    assert_eq!(progress.downloaded.len(), 2);
    progress._update(M3u8TaskProgressMessage::Remove(String::from("a.ts")));
    assert_eq!(progress.downloaded, vec![String::from("b.ts")]);
    progress._update(M3u8TaskProgressMessage::Remove(String::from("a.ts")));
    assert_eq!(progress.downloaded, vec![String::from("b.ts")]);
}

#[test]
fn sidecar_text_round_trips_through_load_and_dump() {
    let mut progress = M3u8TaskProgress::new("./tmp");
    progress._update(M3u8TaskProgressMessage::Add(String::from("seg0.ts")));
    progress._update(M3u8TaskProgressMessage::Add(String::from("seg1.ts")));
    let text = progress.dump();
    assert_eq!(text, "[\"seg0.ts\",\"seg1.ts\"]");

    let mut other = M3u8TaskProgress::new("./tmp");
    assert!(other.load(&text));
    assert_eq!(other.downloaded, progress.downloaded);

    assert!(!other.load("not an array"));
    // a failed load changes nothing
    assert_eq!(other.downloaded, progress.downloaded);
}

#[test]
fn playlist_resolves_to_its_segment_uris() {
    let task = M3u8Task::new(&mk_info(BzTaskType::M3u8));
    let uris = task.get_ts_file_list(&MANIFEST.to_vec()).unwrap();
    assert_eq!(
        uris,
        vec![String::from("seg0.ts"), String::from("seg1.ts"), String::from("seg2.ts")]
    );
    // bytes that are no playlist are reported, not unwrapped into a panic
    let garbage = b"this is not a playlist".to_vec();
    assert!(task.get_ts_file_list(&garbage).is_none());
}

#[test]
fn prepare_resumes_from_the_sidecar() {
    let mut task = M3u8Task::new(&mk_info(BzTaskType::M3u8));
    assert!(task.prepare(&MANIFEST.to_vec(), Some("[\"seg1.ts\"]")));
    assert_eq!(task.progress.total, 3);
    assert_eq!(task.progress.todos, vec![String::from("seg0.ts"), String::from("seg2.ts")]);
    assert_eq!(task.uris.len(), 3);

    // the work loop: pop from the back, complete, rate grows
    let next = task.take_next_uri().unwrap();
    assert_eq!(next, "seg2.ts");
    let rate = task.complete_uri(next);
    assert_eq!(rate, 2 * PROGRESS_SCALE / 3);
    let next = task.take_next_uri().unwrap();
    assert_eq!(next, "seg0.ts");
    let rate = task.complete_uri(next);
    assert_eq!(rate, PROGRESS_SCALE);
    assert!(task.take_next_uri().is_none());
}

#[test]
fn prepare_fails_cleanly_on_bad_input() {
    let mut task = M3u8Task::new(&mk_info(BzTaskType::M3u8));
    assert!(!task.prepare(&b"garbage".to_vec(), None));
    assert_eq!(task.progress.total, 0);
    let mut task = M3u8Task::new(&mk_info(BzTaskType::M3u8));
    assert!(!task.prepare(&MANIFEST.to_vec(), Some("{broken")));
    assert_eq!(task.progress.total, 0);
}

#[test]
fn zfs_task_advances_in_fixed_increments() {
    let task = ZfsTask::new(mk_info(BzTaskType::Zfs));
    assert_eq!(task.progress.total, 10);
    let mut i: u64 = 0;
    let mut steps: u64 = 0;
    let mut last: u64 = 0;
    while let Some((n, p)) = task.step(i) {
        assert_eq!(n, i + 1);
        assert!(p >= last);
        last = p;
        i = n;
        steps += 1;
    }
    assert_eq!(steps, 10);
    assert_eq!(i, 10);
    assert_eq!(last, PROGRESS_SCALE);
    assert_eq!(task.step(10), None);
    // first increment is exactly one tenth
    assert_eq!(task.step(0), Some((1, PROGRESS_SCALE / 10)));
}

#[test]
fn zfs_progress_counts_markers() {
    let mut progress = ZfsTaskProgress { downloaded: Vec::new(), todos: Vec::new(), total: 10 };
    progress._update(ZfsTaskProgressMessage::Add(String::from("chunk")));
    progress._update(ZfsTaskProgressMessage::Add(String::from("chunk")));
    assert_eq!(progress.downloaded.len(), 2);
    assert_eq!(progress.rate(), 2 * PROGRESS_SCALE / 10);
    progress._update(ZfsTaskProgressMessage::Remove(String::from("chunk")));
    assert_eq!(progress.downloaded.len(), 2);
}
