use moa_submitter::failure::{Failure, EXIT_USAGE};
use moa_submitter::manifest::{kib, manifest_lines};
use moa_submitter::sources::{
    collect_sources, read_upload, sort_by_path, sum_bytes, Upload, MAX_TOTAL_BYTES,
};

fn upload(path: &str, bytes: &[u8]) -> Upload {
    Upload { path: path.to_string(), bytes: bytes.to_vec() }
}

fn paths(files: &[Upload]) -> Vec<&str> {
    files.iter().map(|f| f.path.as_str()).collect()
}

fn refused(files: Vec<Upload>) -> Failure {
    let failure = collect_sources(files).unwrap_err();
    assert_eq!(failure.code, EXIT_USAGE);
    failure
}

#[test]
fn files_are_sent_in_the_order_of_their_paths() {
    let files = vec![
        upload("src/ops.rs", b"o"),
        upload("src/device/z.rs", b"z"),
        upload("src/device/a/b.rs", b"b"),
        upload("src/device/a.rs", b"a"),
        upload("src/device/A.rs", b"A"),
    ];
    let sorted = collect_sources(files).unwrap();
    assert_eq!(
        paths(&sorted),
        vec![
            "src/device/A.rs",
            "src/device/a.rs",
            "src/device/a/b.rs",
            "src/device/z.rs",
            "src/ops.rs"
        ]
    );
    assert_eq!(sorted[4].bytes, b"o");
}

#[test]
fn files_with_one_path_keep_their_order() {
    let files = vec![upload("b", b"1"), upload("a", b"2"), upload("b", b"3"), upload("a", b"4")];
    let sorted = sort_by_path(files);
    let contents: Vec<&[u8]> = sorted.iter().map(|f| f.bytes.as_slice()).collect();
    assert_eq!(contents, vec![b"2", b"4", b"1", b"3"]);
}

#[test]
fn sorting_agrees_with_the_standard_sort() {
    let mut state: u32 = 12345;
    let mut names: Vec<String> = Vec::new();
    for _ in 0..200 {
        state = state.wrapping_mul(1664525).wrapping_add(1013904223);
        names.push(format!("src/device/{}", state >> 22));
    }
    let files: Vec<Upload> =
        names.iter().enumerate().map(|(i, n)| upload(n, format!("{i}").as_bytes())).collect();
    let mut expected: Vec<(String, Vec<u8>)> =
        files.iter().map(|f| (f.path.clone(), f.bytes.clone())).collect();
    expected.sort_by(|a, b| a.0.cmp(&b.0));
    let sorted: Vec<(String, Vec<u8>)> =
        sort_by_path(files).into_iter().map(|f| (f.path, f.bytes)).collect();
    assert_eq!(sorted, expected);
}

#[test]
fn a_thousand_files_are_the_most() {
    let make = |n: usize| -> Vec<Upload> {
        (0..n).map(|i| upload(&format!("src/device/{i}.rs"), b"x")).collect()
    };
    assert_eq!(collect_sources(make(1000)).unwrap().len(), 1000);
    assert_eq!(
        refused(make(1001)).message,
        "A submission may contain at most 1000 files, but this one has 1001.\n\
         Check whether something unexpected ended up under src/device/."
    );
}

#[test]
fn the_first_empty_file_is_named() {
    let files = vec![
        upload("src/ops.rs", b""),
        upload("src/device/b.rs", b""),
        upload("src/device/a.rs", b"a"),
    ];
    assert_eq!(
        refused(files).message,
        "src/device/b.rs is empty. The server does not accept empty files; delete it or write \
         something in it."
    );
}

#[test]
fn ten_mebibytes_are_the_most() {
    let half = vec![1u8; MAX_TOTAL_BYTES as usize / 2];
    let files = vec![upload("a", &half), upload("b", &half)];
    assert_eq!(sum_bytes(&files), 10 * 1024 * 1024);
    assert!(collect_sources(files).is_ok());
    let files = vec![upload("a", &half), upload("b", &half), upload("c", &[0; 2048])];
    assert_eq!(
        refused(files).message,
        "The sources total 10242 KiB, over the 10240 KiB limit.\n\
         Check whether something unexpected ended up under src/device/."
    );
}

#[test]
fn too_many_comes_before_empty_comes_before_too_large() {
    let mut files: Vec<Upload> = (0..1001).map(|i| upload(&format!("{i}"), b"")).collect();
    assert!(collect_sources(files.split_off(0)).unwrap_err().message.contains("at most 1000"));
    let large = vec![0u8; MAX_TOTAL_BYTES as usize + 1];
    let files = vec![upload("a", &large), upload("b", b"")];
    assert!(refused(files).message.starts_with("b is empty."));
}

#[test]
fn an_upload_has_its_names_joined() {
    let names = vec!["src".to_string(), "device".to_string(), "a.rs".to_string()];
    let upload = read_upload(Some(&names), "/r/src/device/a.rs", Ok(vec![1, 2])).unwrap();
    assert_eq!(upload.path, "src/device/a.rs");
    assert_eq!(upload.bytes, vec![1, 2]);
}

#[test]
fn an_upload_that_cannot_be_made_says_why() {
    let names = vec!["a".to_string()];
    let failure = read_upload(Some(&names), "/r/a", Err("denied".to_string())).unwrap_err();
    assert_eq!(failure.message, "Cannot read /r/a: denied");
    assert_eq!(failure.code, EXIT_USAGE);
    let failure = read_upload(None, "/x/a", Ok(vec![1])).unwrap_err();
    assert_eq!(failure.message, "/x/a is outside the repository");
    assert_eq!(failure.code, EXIT_USAGE);
    let failure = read_upload(None, "/x/a", Err("denied".to_string())).unwrap_err();
    assert_eq!(failure.message, "Cannot read /x/a: denied");
}

#[test]
fn sizes_are_written_with_one_decimal() {
    assert_eq!(kib(0), "0.0");
    assert_eq!(kib(51), "0.0");
    assert_eq!(kib(52), "0.1");
    assert_eq!(kib(256), "0.2");
    assert_eq!(kib(768), "0.8");
    assert_eq!(kib(1024), "1.0");
    assert_eq!(kib(1536), "1.5");
    assert_eq!(kib(10 * 1024 * 1024), "10240.0");
    let mut bytes: u64 = 0;
    while bytes <= MAX_TOTAL_BYTES {
        assert_eq!(kib(bytes as u128), format!("{:.1}", bytes as f64 / 1024.0), "{bytes}");
        bytes += if bytes < 40_000 { 1 } else { 64 };
    }
}

#[test]
fn the_manifest_counts_the_device_files() {
    let files = vec![
        upload("src/device/a.rs", &[0; 1000]),
        upload("src/device/b/c.rs", &[0; 1000]),
        upload("src/ops.rs", &[0; 600]),
    ];
    assert_eq!(
        manifest_lines(&files),
        vec![
            "Files:        3 (2.5 KiB)",
            "                src/ops.rs",
            "                src/device/  (2 files)",
        ]
    );
}

#[test]
fn the_manifest_names_what_lies_elsewhere() {
    let files = vec![upload("src/ops.rs", b"x"), upload("src/device", b"y")];
    assert_eq!(
        manifest_lines(&files),
        vec!["Files:        2 (0.0 KiB)", "                src/ops.rs", "                src/device"]
    );
}
