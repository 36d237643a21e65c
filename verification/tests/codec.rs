use bz_downloader::bz_task::{BzTaskInfo, BzTaskStatus, BzTaskType};
use bz_downloader::codec::{
    decode_string_list, decode_task_infos, encode_string_list, encode_task_infos,
};

fn infos_equal(a: &[BzTaskInfo], b: &[BzTaskInfo]) -> bool {
    a.len() == b.len() && a.iter().zip(b.iter()).all(|(x, y)| {
        x.src == y.src && x.dest == y.dest && x.cache == y.cache && x.kind == y.kind && x.status
            == y.status
    })
}

#[test]
fn test_serlize() {
    let task_info = BzTaskInfo {
        src: String::from(
            "https://svipsvip.ffzy-online5.com/20250118/37333_517b17a8/2000k/hls/mixed.m3u8",
        ),
        dest: String::from("./tmp"),
        cache: String::from("./tmp"),
        kind: BzTaskType::Zfs,
        status: BzTaskStatus::Queued,
    };
    let serialized = encode_task_infos(&vec![task_info]);
    println!("serialized = {}", serialized);

    let deserialized: Vec<BzTaskInfo> = decode_task_infos(serialized.as_str()).unwrap();
    println!("deserialized = {:?}", deserialized)
}

#[test]
fn one_task_encodes_to_the_documented_shape() {
    let info = BzTaskInfo {
        src: String::from("https://example.com/a.m3u8"),
        dest: String::from("./out/a.mp4"),
        cache: String::from("./cache/a"),
        kind: BzTaskType::M3u8,
        status: BzTaskStatus::Stopped,
    };
    let text = encode_task_infos(&vec![info]);
    let expected = "[\n  {\n    \"src\": \"https://example.com/a.m3u8\",\n    \"dest\": \"./out/a.mp4\",\n    \"cache\": \"./cache/a\",\n    \"kind\": \"M3u8\",\n    \"status\": \"Stopped\"\n  }\n]";
    assert_eq!(text, expected);
}

#[test]
fn an_empty_task_list_is_an_empty_array() {
    let text = encode_task_infos(&Vec::new());
    assert_eq!(text, "[]");
    let back = decode_task_infos(&text).unwrap();
    assert!(back.is_empty());
    let back = decode_task_infos("  [ ]  ").unwrap();
    assert!(back.is_empty());
}

#[test]
fn task_lists_round_trip_exactly() {
    let infos = vec![
        BzTaskInfo {
            src: String::from("https://example.com/one.m3u8"),
            dest: String::from("./out/one.mp4"),
            cache: String::from("./cache/one"),
            kind: BzTaskType::M3u8,
            status: BzTaskStatus::Completed,
        },
        BzTaskInfo {
            src: String::from("https://example.com/two"),
            dest: String::from("./out/two.bin"),
            cache: String::from("./cache/two"),
            kind: BzTaskType::Zfs,
            status: BzTaskStatus::Failed,
        },
        BzTaskInfo {
            src: String::from("https://example.com/three"),
            dest: String::from("./out/three.bin"),
            cache: String::from("./cache/three"),
            kind: BzTaskType::Zfs,
            status: BzTaskStatus::Running,
        },
    ];
    let text = encode_task_infos(&infos);
    let back = decode_task_infos(&text).unwrap();
    assert!(infos_equal(&infos, &back));
}

#[test]
fn saving_what_was_loaded_is_byte_identical_twice() {
    // load -> save -> load -> save gives the same bytes both times
    let text = "[\n  {\n    \"src\": \"https://example.com/x\",\n    \"dest\": \"./x\",\n    \"cache\": \"./cx\",\n    \"kind\": \"Zfs\",\n    \"status\": \"Queued\"\n  }\n]";
    let first = decode_task_infos(text).unwrap();
    let once = encode_task_infos(&first);
    let second = decode_task_infos(&once).unwrap();
    let twice = encode_task_infos(&second);
    assert_eq!(once, twice);
    assert!(infos_equal(&first, &second));
}

#[test]
fn string_values_escape_and_unescape() {
    let infos = vec![BzTaskInfo {
        src: String::from("odd \"name\" with \\ and \n and \t inside"),
        dest: String::from("./a\rb"),
        cache: String::from(""),
        kind: BzTaskType::M3u8,
        status: BzTaskStatus::Queued,
    }];
    let text = encode_task_infos(&infos);
    assert!(text.contains("odd \\\"name\\\" with \\\\ and \\n and \\t inside"));
    let back = decode_task_infos(&text).unwrap();
    assert!(infos_equal(&infos, &back));
}

#[test]
fn the_reader_accepts_blanks_between_tokens() {
    let text = "  [ {\n\"src\" : \"a\" ,\t \"dest\": \"b\", \"cache\":\"c\", \"kind\" :\"Zfs\", \"status\": \"Running\" } ]\n";
    let back = decode_task_infos(text).unwrap();
    assert_eq!(back.len(), 1);
    assert_eq!(back[0].src, "a");
    assert_eq!(back[0].dest, "b");
    assert_eq!(back[0].cache, "c");
    assert_eq!(back[0].kind, BzTaskType::Zfs);
    assert_eq!(back[0].status, BzTaskStatus::Running);
}

#[test]
fn malformed_task_lists_are_rejected() {
    for text in [
        "",
        "{}",
        "[",
        "[{}]",
        "[\n  {\n    \"src\": \"a\"\n  }\n]",
        "[ { \"src\": \"a\", \"dest\": \"b\", \"cache\": \"c\", \"kind\": \"Tar\", \"status\": \"Running\" } ]",
        "[ { \"src\": \"a\", \"dest\": \"b\", \"cache\": \"c\", \"kind\": \"Zfs\", \"status\": \"Sleeping\" } ]",
        "[ { \"dest\": \"b\", \"src\": \"a\", \"cache\": \"c\", \"kind\": \"Zfs\", \"status\": \"Running\" } ]",
        "[ { \"src\": \"a\", \"dest\": \"b\", \"cache\": \"c\", \"kind\": \"Zfs\", \"status\": \"Running\" } ] trailing",
    ] {
        assert!(decode_task_infos(text).is_none(), "accepted: {}", text);
    }
}

#[test]
fn string_lists_round_trip_exactly() {
    let items = vec![
        String::from("seg0.ts"),
        String::from("a \"quoted\" one"),
        String::from("back\\slash"),
        String::from(""),
    ];
    let text = encode_string_list(&items);
    let back = decode_string_list(&text).unwrap();
    assert_eq!(items, back);

    assert_eq!(encode_string_list(&Vec::new()), "[]");
    assert_eq!(decode_string_list("[]").unwrap(), Vec::<String>::new());
    assert_eq!(
        decode_string_list(" [ \"a\" , \"b\" ] ").unwrap(),
        vec![String::from("a"), String::from("b")]
    );
    assert!(decode_string_list("[\"a\",]").is_none());
    assert!(decode_string_list("[\"a\" \"b\"]").is_none());
}
