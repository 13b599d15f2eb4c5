use sha3::Digest;
use undr::configuration::InstallableMode;
use undr::json_index::Compression;
use undr::json_index::Compressions;
use undr::json_index::File;
use undr::json_index::Index;
use undr::json_index::Properties;
use undr::json_index::Resource;
use undr::json_index::Version;
use undr::remote::DownloadState;
use undr::transfer::Transfer;
use undr::types::DecompressError;
use undr::types::DownloadError;
use undr::types::Force;
use undr::types::Name;
use undr::types::PathId;
use undr::types::Value;
use undr::walker::ResourceProbe;

const H: &str = "10ada4f8679a20c4d4f8fea56e8552e667f01a405611ca8c0463546c";
const H2: &str = "6b4e03423667dbb73b6e15454f0eb1abd4597f9a1b078e3f5b5a6bc7";

fn hash_of(text: &str) -> undr::digest::Hash {
    undr::digest::Hash::deserialize(text).unwrap()
}

fn sha3_224(data: &[u8]) -> undr::digest::Hash {
    let digest = sha3::Sha3_224::digest(data);
    let mut bytes = [0u8; 28];
    bytes.copy_from_slice(&digest);
    undr::digest::Hash(bytes)
}

fn resource(compressions: Compressions) -> Resource {
    Resource {
        name: Name("x".to_owned()),
        size: 10,
        hash: hash_of(H),
        compressions,
        doi: None,
    }
}

fn none_compression() -> Compression {
    Compression::NoneCompression { suffix: Name("".to_owned()) }
}

fn brotli(size: u64) -> Compression {
    Compression::Brotli { size, hash: hash_of(H2), suffix: Name(".br".to_owned()) }
}

fn index_of(resource: Resource) -> Index {
    Index {
        version: Version { major: 1, minor: 0, patch: 0 },
        doi: None,
        directories: Vec::new(),
        files: vec![File { resource, properties: Properties::Imu, metadata: None }],
        other_files: Vec::new(),
        metadata: None,
    }
}

fn absent() -> ResourceProbe {
    ResourceProbe { raw: None, compressed: None, partial: None }
}

fn zero() -> Value {
    Value { initial_bytes: 0, final_bytes: 0 }
}

#[test]
fn cold_install_remote_mode() {
    let index = index_of(resource(Compressions { first: none_compression(), rest: Vec::new() }));
    let d = PathId("d".to_owned());
    match undr::walker::index_loaded(&d, &index) {
        undr::Message::IndexLoaded { path_id, children } => {
            assert_eq!(path_id.0, "d");
            assert_eq!(children, 0);
        }
        _ => panic!("expected IndexLoaded"),
    }
    let scanned = undr::walker::scan_directory(
        &d,
        zero(),
        &index,
        &vec![absent()],
        InstallableMode::Remote,
        Force(false), undr::CalculateSize(false))
    .unwrap();
    assert_eq!(scanned.final_count, 0);
    assert_eq!(scanned.download, zero());
    let tasks = undr::walker::plan_file_tasks(&d, &index, &vec![false], InstallableMode::Remote, Force(false));
    assert!(tasks.is_empty());
}

#[test]
fn cold_install_raw_mode_brotli() {
    let index = index_of(resource(Compressions { first: brotli(4), rest: Vec::new() }));
    let d = PathId("d".to_owned());
    let scanned = undr::walker::scan_directory(
        &d,
        zero(),
        &index,
        &vec![absent()],
        InstallableMode::Raw,
        Force(false), undr::CalculateSize(false))
    .unwrap();
    assert_eq!(scanned.final_count, 1);
    assert_eq!(scanned.download, Value { initial_bytes: 0, final_bytes: 4 });
    assert_eq!(scanned.process, Value { initial_bytes: 0, final_bytes: 10 });
    assert_eq!(scanned.initial_download_count, 0);
    let tasks = undr::walker::plan_file_tasks(&d, &index, &vec![false], InstallableMode::Raw, Force(false));
    assert_eq!(tasks.len(), 1);
    assert_eq!(tasks[0].path_id.0, "d/x");
    assert_eq!(tasks[0].download_size, 4);
    assert!(tasks[0].download_hash.same(&hash_of(H2)));
    assert_eq!(tasks[0].suffix.0, ".br");
    let decode = tasks[0].decode.unwrap();
    assert_eq!(decode.size, 10);
    assert!(decode.hash.same(&hash_of(H)));
}

#[test]
fn raw_file_present_is_not_planned_again() {
    let index = index_of(resource(Compressions { first: brotli(4), rest: Vec::new() }));
    let d = PathId("d".to_owned());
    let tasks = undr::walker::plan_file_tasks(&d, &index, &vec![true], InstallableMode::Raw, Force(false));
    assert!(tasks.is_empty());
    let forced = undr::walker::plan_file_tasks(&d, &index, &vec![true], InstallableMode::Raw, Force(true));
    assert_eq!(forced.len(), 1);
    let local = undr::walker::plan_file_tasks(&d, &index, &vec![true], InstallableMode::Local, Force(false));
    assert_eq!(local.len(), 1);
    assert!(local[0].decode.is_none());
}

#[test]
fn scan_credits_what_is_on_disk() {
    let index = index_of(resource(Compressions { first: brotli(4), rest: Vec::new() }));
    let d = PathId("d".to_owned());
    let raw_present = ResourceProbe { raw: Some(10), compressed: None, partial: Some(2) };
    let s = undr::walker::scan_directory(&d, zero(), &index, &vec![raw_present], InstallableMode::Raw, Force(false), undr::CalculateSize(true))
        .unwrap();
    assert_eq!(s.initial_download_count, 1);
    assert_eq!(s.initial_process_count, 1);
    assert_eq!(s.download, Value { initial_bytes: 4, final_bytes: 4 });
    assert_eq!(s.process, Value { initial_bytes: 10, final_bytes: 10 });
    assert_eq!(s.calculate_size_raw.local_bytes, 10);
    assert_eq!(s.calculate_size_raw.remote_bytes, 10);
    assert_eq!(s.calculate_size_compressed.local_bytes, 2);
    assert_eq!(s.calculate_size_compressed.remote_bytes, 4);
    let partial = ResourceProbe { raw: None, compressed: None, partial: Some(3) };
    let s = undr::walker::scan_directory(&d, zero(), &index, &vec![partial], InstallableMode::Local, Force(false), undr::CalculateSize(false))
        .unwrap();
    assert_eq!(s.initial_download_count, 0);
    assert_eq!(s.download, Value { initial_bytes: 3, final_bytes: 4 });
    let compressed = ResourceProbe { raw: None, compressed: Some(4), partial: Some(3) };
    let s = undr::walker::scan_directory(&d, zero(), &index, &vec![compressed], InstallableMode::Raw, Force(false), undr::CalculateSize(false))
        .unwrap();
    assert_eq!(s.initial_download_count, 1);
    assert_eq!(s.initial_process_count, 0);
    assert_eq!(s.download, Value { initial_bytes: 4, final_bytes: 4 });
    let forced = undr::walker::scan_directory(&d, zero(), &index, &vec![raw_present], InstallableMode::Raw, Force(true), undr::CalculateSize(false))
        .unwrap();
    assert_eq!(forced.initial_download_count, 0);
    assert_eq!(forced.download, Value { initial_bytes: 0, final_bytes: 4 });
}

#[test]
fn scan_reports_overflow() {
    let mut r = resource(Compressions { first: none_compression(), rest: Vec::new() });
    r.size = u64::MAX;
    let mut index = index_of(r.clone());
    index.other_files.push(undr::json_index::OtherFile { resource: r, metadata: None });
    let d = PathId("d".to_owned());
    let s = undr::walker::scan_directory(&d, zero(), &index, &vec![absent(), absent()], InstallableMode::Local, Force(false), undr::CalculateSize(false));
    assert!(s.is_none());
}

#[test]
fn best_compression_is_smallest_first_of_equals() {
    let r = resource(Compressions { first: none_compression(), rest: vec![brotli(4), brotli(4), brotli(12)] });
    let (c, p) = r.best_compression();
    assert_eq!(p.size, 4);
    assert!(matches!(c, Compression::Brotli { .. }));
    assert_eq!(p.suffix.0, ".br");
    let raw_smallest = resource(Compressions { first: brotli(10), rest: vec![none_compression()] });
    let (c, p) = raw_smallest.best_compression();
    assert_eq!(p.size, 10);
    assert!(matches!(c, Compression::Brotli { .. }));
    let plain = none_compression();
    let props = raw_smallest.compression_properties_from(&plain);
    assert_eq!(props.size, 10);
    assert!(props.hash.same(&hash_of(H)));
}

#[test]
fn compressions_need_one_entry() {
    assert!(Compressions::from_vec(Vec::new()).is_none());
    let c = Compressions::from_vec(vec![brotli(1), none_compression()]).unwrap();
    assert!(matches!(c.first, Compression::Brotli { size: 1, .. }));
    assert_eq!(c.rest.len(), 1);
    assert_eq!(c.to_vec().len(), 2);
}

#[test]
fn empty_directory_list() {
    let index = index_of(resource(Compressions { first: none_compression(), rest: Vec::new() }));
    let d = PathId("d".to_owned());
    assert!(undr::walker::child_path_ids(&d, &index).is_empty());
    assert!(matches!(undr::walker::index_loaded(&d, &index), undr::Message::IndexLoaded { children: 0, .. }));
    let mut with_children = index.clone();
    with_children.directories = vec![Name("a".to_owned()), Name("b".to_owned())];
    let children = undr::walker::child_path_ids(&d, &with_children);
    assert_eq!(children.iter().map(|p| p.0.clone()).collect::<Vec<_>>(), vec!["d/a", "d/b"]);
}

#[test]
fn index_values() {
    assert_eq!(undr::walker::initial_index_value(Force(true), Some(5), Some(3)), zero());
    assert_eq!(undr::walker::initial_index_value(Force(false), Some(5), Some(3)), Value { initial_bytes: 5, final_bytes: 5 });
    assert_eq!(undr::walker::initial_index_value(Force(false), None, Some(3)), Value { initial_bytes: 3, final_bytes: 0 });
    assert_eq!(undr::walker::initial_index_value(Force(false), None, None), zero());
    assert_eq!(undr::walker::index_value_after_download(Value { initial_bytes: 3, final_bytes: 0 }, Some(9)), Some(Value { initial_bytes: 3, final_bytes: 9 }));
    assert_eq!(undr::walker::index_value_after_download(zero(), None), None);
    assert_eq!(undr::walker::index_value_after_download(Value { initial_bytes: 5, final_bytes: 5 }, None), Some(Value { initial_bytes: 5, final_bytes: 5 }));
    assert_eq!(undr::walker::index_name().0, "-index.json");
}

#[test]
fn dois_of_a_directory() {
    let mut r = resource(Compressions { first: none_compression(), rest: Vec::new() });
    r.doi = Some(undr::types::Doi("10.x/y".to_owned()));
    let mut index = index_of(r);
    index.doi = Some(undr::types::Doi("10.x/d".to_owned()));
    let d = PathId("d".to_owned());
    match undr::walker::index_doi(&d, &index, undr::DispatchDois(true)) {
        Some(undr::Message::Doi { path_id, value }) => {
            assert_eq!(path_id.0, "d");
            assert_eq!(value.0, "10.x/d");
        }
        _ => panic!("expected a DOI"),
    }
    assert!(undr::walker::index_doi(&d, &index, undr::DispatchDois(false)).is_none());
    let messages = undr::walker::resource_dois(&d, &index, undr::DispatchDois(true));
    assert_eq!(messages.len(), 1);
    match &messages[0] {
        undr::Message::Doi { path_id, value } => {
            assert_eq!(path_id.0, "d/x");
            assert_eq!(value.0, "10.x/y");
        }
        _ => panic!("expected a DOI"),
    }
    assert!(undr::walker::resource_dois(&d, &index, undr::DispatchDois(false)).is_empty());
}

#[test]
fn urls_drop_the_dataset_name() {
    let server = undr::remote::Server::new("https://example.com/data");
    let p = PathId("d/a/x".to_owned());
    assert_eq!(server.url_from_path_id_and_suffix(&p, &Name(".br".to_owned())), "https://example.com/data/a/x.br");
    let slashed = undr::remote::Server::new("https://example.com/data/");
    assert_eq!(slashed.url_from_path_id_and_suffix(&p, &Name("".to_owned())), "https://example.com/data/a/x");
    assert_eq!(server.url_from_path_id_and_suffix(&PathId("d".to_owned()), &Name(".br".to_owned())), "https://example.com/data");
}

#[test]
fn download_begin_states() {
    assert!(matches!(undr::remote::download_begin(Force(true), Some(4), Some(3)), DownloadState::NotStarted(())));
    assert!(matches!(undr::remote::download_begin(Force(false), Some(4), Some(3)), DownloadState::Complete()));
    assert!(matches!(undr::remote::download_begin(Force(false), None, Some(3)), DownloadState::Partial { skip: 3, .. }));
    assert!(matches!(undr::remote::download_begin(Force(false), None, None), DownloadState::NotStarted(())));
    let p = undr::remote::already_complete_progress(&PathId("d/x".to_owned()), Some(4), 7);
    assert!(p.complete);
    assert_eq!((p.initial_bytes, p.current_bytes, p.final_bytes), (4, 4, 4));
    let q = undr::remote::already_complete_progress(&PathId("d/x".to_owned()), None, 7);
    assert_eq!(q.final_bytes, 7);
}

#[test]
fn resume_hashes_the_whole_file() {
    assert!(matches!(undr::remote::download_begin(Force(false), None, Some(3)), DownloadState::Partial { skip: 3, .. }));
    assert_eq!(undr::remote::range_header(3), "bytes=3-");
    assert!(undr::remote::range_accepted(206));
    let mut transfer = Transfer::new(true, true);
    transfer.take_existing(b"abc");
    assert_eq!(transfer.absorb(b"d"), None);
    assert_eq!(transfer.flush(), Some(1));
    let done = undr::remote::finish_download(&PathId("d/x.br".to_owned()), transfer, Some(sha3_224(b"abcd")), Some(4)).unwrap();
    assert!(done.complete);
}

#[test]
fn range_rejected_withdraws_the_partial_bytes() {
    assert!(!undr::remote::range_accepted(200));
    let p = undr::remote::range_rejected_progress(&PathId("d/x.br".to_owned()), 3);
    assert_eq!((p.initial_bytes, p.current_bytes, p.final_bytes), (-3, -3, -3));
    assert!(!p.complete);
    let mut transfer = Transfer::new(true, true);
    assert_eq!(transfer.absorb(b"abcd"), None);
    assert!(undr::remote::finish_download(&PathId("d/x.br".to_owned()), transfer, Some(sha3_224(b"abcd")), Some(4)).is_ok());
}

#[test]
fn hash_mismatch_fails_the_download() {
    let mut transfer = Transfer::new(true, true);
    transfer.absorb(b"abcd");
    match undr::remote::finish_download(&PathId("d/x.br".to_owned()), transfer, Some(hash_of(H)), Some(4)) {
        Err(DownloadError::Hash { path_id, expected, downloaded }) => {
            assert_eq!(path_id.0, "d/x.br");
            assert!(expected.same(&hash_of(H)));
            assert!(downloaded.same(&sha3_224(b"abcd")));
        }
        other => panic!("expected a hash error, got {:?}", other),
    }
}

#[test]
fn size_mismatch_fails_the_download() {
    let mut transfer = Transfer::new(false, true);
    transfer.absorb(b"abc");
    match undr::remote::finish_download(&PathId("d/x".to_owned()), transfer, None, Some(4)) {
        Err(DownloadError::Size { expected, downloaded, .. }) => {
            assert_eq!(expected, 4);
            assert_eq!(downloaded, 3);
        }
        other => panic!("expected a size error, got {:?}", other),
    }
}

#[test]
fn index_download_checks_nothing() {
    let mut transfer = Transfer::new(false, false);
    transfer.absorb(b"{}");
    assert!(undr::remote::finish_download(&PathId("d/-index.json".to_owned()), transfer, None, None).is_ok());
}

#[test]
fn zero_length_file_completes() {
    let transfer = Transfer::new(true, true);
    let done = undr::remote::finish_download(&PathId("d/empty".to_owned()), transfer, Some(hash_of(H2)), Some(0)).unwrap();
    assert!(done.complete);
    assert_eq!(done.path_id.0, "d/empty");
    let mut decoded = Transfer::new(true, true);
    assert_eq!(decoded.flush(), None);
    let done = undr::decode::finish_decode(&PathId("d/empty".to_owned()), decoded, 0, hash_of(H2)).unwrap();
    assert!(done.complete);
}

#[test]
fn sha3_of_known_inputs() {
    let mut t = Transfer::new(true, true);
    t.absorb(b"abc");
    assert!(undr::transfer::check_integrity(Some(sha3_224(b"abc")), Some(hash_of("e642824c3f8cf24ad09234ee7d3c766fc9a3a5168d0c94ad73b46fdf")), None, None).is_ok());
    assert!(t.check(Some(hash_of("e642824c3f8cf24ad09234ee7d3c766fc9a3a5168d0c94ad73b46fdf")), Some(3)).is_ok());
}

#[test]
fn progress_is_reported_by_threshold() {
    let mut t = Transfer::new(false, false);
    let chunk = vec![0u8; 65536];
    assert_eq!(t.absorb(&chunk), None);
    assert_eq!(t.absorb(&chunk), Some(131072));
    assert_eq!(t.absorb(&chunk[0..10]), None);
    assert_eq!(t.flush(), Some(10));
    assert_eq!(t.flush(), None);
    assert!(t.fits(10));
    let p = undr::remote::remote_chunk_progress(&PathId("d/x".to_owned()), 131072);
    assert_eq!((p.initial_bytes, p.current_bytes, p.final_bytes, p.complete), (0, 131072, 131072, false));
}

#[test]
fn integrity_checks_digest_then_size() {
    match undr::transfer::check_integrity(Some(hash_of(H)), Some(hash_of(H2)), Some(1), Some(2)) {
        Err(undr::transfer::Mismatch::Hash { .. }) => {}
        other => panic!("expected a hash mismatch, got {:?}", other),
    }
    match undr::transfer::check_integrity(Some(hash_of(H)), Some(hash_of(H)), Some(1), Some(2)) {
        Err(undr::transfer::Mismatch::Size { expected: 2, computed: 1 }) => {}
        other => panic!("expected a size mismatch, got {:?}", other),
    }
    assert!(undr::transfer::check_integrity(None, Some(hash_of(H)), None, Some(2)).is_ok());
}

#[test]
fn cancelled_decode_is_interrupted() {
    let mut t = Transfer::new(true, true);
    let p = PathId("d/x".to_owned());
    assert!(matches!(undr::decode::decode_step(&p, &mut t, false, b"abc"), Err(DecompressError::Interrupted)));
    assert!(matches!(undr::decode::decode_step(&p, &mut t, true, b"abc"), Ok(None)));
    assert!(undr::decode::finish_decode(&p, t, 3, sha3_224(b"abc")).is_ok());
}

#[test]
fn decode_mismatches() {
    let p = PathId("d/x".to_owned());
    let mut t = Transfer::new(true, true);
    undr::decode::decode_step(&p, &mut t, true, b"abc").unwrap();
    assert!(matches!(undr::decode::finish_decode(&p, t, 3, hash_of(H)), Err(DecompressError::Hash { .. })));
    let mut t = Transfer::new(true, true);
    undr::decode::decode_step(&p, &mut t, true, b"abc").unwrap();
    assert!(matches!(undr::decode::finish_decode(&p, t, 4, sha3_224(b"abc")), Err(DecompressError::Size { expected: 4, downloaded: 3, .. })));
    assert!(undr::decode::skip_decode(Force(false), true));
    assert!(!undr::decode::skip_decode(Force(true), true));
    assert!(!undr::decode::skip_decode(Force(false), false));
    let progress = undr::decode::decode_chunk_progress(&p, 5);
    assert_eq!((progress.current_bytes, progress.final_bytes, progress.complete), (5, 5, false));
}
