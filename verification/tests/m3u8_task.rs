use bz_downloader::bz_task::{BzTaskInfo, BzTaskStatus, BzTaskType};
use bz_downloader::m3u8::M3u8Task;

#[test]
fn test_m3u8_task() {
    let task_info = BzTaskInfo {
        src: String::from(
            "https://svipsvip.ffzy-online5.com/20250118/37333_517b17a8/2000k/hls/mixed.m3u8",
        ),
        dest: String::from("./tmp"),
        cache: String::from("./tmp"),
        kind: BzTaskType::M3u8,
        status: BzTaskStatus::Queued,
    };
    let task = M3u8Task::new(&task_info);
    assert_eq!(task.task_info.src, task_info.src);
    assert_eq!(task.progress.save_file, "./tmp/process.json");
    assert!(task.uris.is_empty());
}
