use std::io::Read;
use testdata_gen::archive::{build_archive, level_value, mode_from_flag, CompressionMode};
use testdata_gen::json::build_blob;
use testdata_gen::parse::parse_record;
use testdata_gen::runner::{build_output, gen_filepath, plan_workers, worker_outputs, OutputKind};

#[test]
fn blob_has_one_line_per_record() {
    let s = build_blob(5);
    let lines: Vec<&str> = s.split('\n').collect();
    assert_eq!(lines.len(), 6);
    assert_eq!(lines[5], "");
    for line in &lines[..5] {
        assert!(!line.is_empty());
        let r = parse_record(line).unwrap();
        assert_eq!(r.data, "testdata");
        let v: serde_json::Value = serde_json::from_str(line).unwrap();
        assert_eq!(v["data"].as_str().unwrap(), "testdata");
    }
}

#[test]
fn blob_of_zero_records_is_empty() {
    assert_eq!(build_blob(0), "");
}

#[test]
fn compression_flag_mapping() {
    assert_eq!(level_value(mode_from_flag(0)), 0);
    assert_eq!(level_value(mode_from_flag(1)), 1);
    assert_eq!(level_value(mode_from_flag(2)), 9);
    assert_eq!(level_value(mode_from_flag(255)), 9);
}

fn check_archive(bytes: &[u8], expected_entries: usize) {
    let decoder = flate2::read::ZlibDecoder::new(bytes);
    let mut archive = tar::Archive::new(decoder);
    let mut seen = 0;
    for entry in archive.entries().unwrap() {
        let mut entry = entry.unwrap();
        let declared = entry.header().size().unwrap();
        let name = entry.path().unwrap().to_str().unwrap().to_string();
        let mut content = Vec::new();
        entry.read_to_end(&mut content).unwrap();
        assert_eq!(declared as usize, content.len());
        // the name is <identifier>_<timestamp>.json
        let stem = name.strip_suffix(".json").unwrap();
        let (id_part, ts_part) = stem.split_once('_').unwrap();
        let id: u64 = id_part.parse().unwrap();
        let ts: u64 = ts_part.parse().unwrap();
        assert!(id < 100000000);
        assert!((15000000000..19000000000).contains(&ts));
        // the payload is the serialized record the name was derived from
        let text = String::from_utf8(content).unwrap();
        let rec = parse_record(&text).unwrap();
        assert_eq!(rec.ts, ts);
        assert_eq!(rec.user_id, id_part);
        seen += 1;
    }
    assert_eq!(seen, expected_entries);
}

#[test]
fn archive_round_trips_at_every_level() {
    for mode in [
        CompressionMode::Plain,
        CompressionMode::Fast,
        CompressionMode::Best,
    ] {
        let bytes = build_archive(5, mode);
        assert!(!bytes.is_empty());
        check_archive(&bytes, 5);
    }
}

#[test]
fn archive_of_zero_records_is_valid_and_empty() {
    let bytes = build_archive(0, CompressionMode::Best);
    check_archive(&bytes, 0);
}

#[test]
fn output_of_each_kind_holds_the_records() {
    let blob = build_output(OutputKind::Blob, CompressionMode::Best, 3);
    let text = String::from_utf8(blob).unwrap();
    assert_eq!(text.split('\n').filter(|l| !l.is_empty()).count(), 3);
    let arch = build_output(OutputKind::Archive, CompressionMode::Fast, 3);
    check_archive(&arch, 3);
}

#[test]
fn plan_lays_out_threads_per_path() {
    let paths = vec!["A".to_string(), "B".to_string()];
    let plan = plan_workers(&paths, 3);
    assert_eq!(plan, vec!["A", "A", "A", "B", "B", "B"]);
}

#[test]
fn plan_with_zero_threads_is_empty() {
    let paths = vec!["A".to_string()];
    assert!(plan_workers(&paths, 0).is_empty());
}

#[test]
fn worker_produces_exactly_its_files() {
    let outs = worker_outputs(2, 4, OutputKind::Blob, CompressionMode::Plain);
    assert_eq!(outs.len(), 2);
    for out in &outs {
        let text = String::from_utf8(out.clone()).unwrap();
        assert_eq!(text.split('\n').filter(|l| !l.is_empty()).count(), 4);
    }
}

#[test]
fn full_run_produces_all_output_files() {
    // two paths, three threads per path, two files per thread: 12 outputs,
    // none of them empty
    let paths = vec!["A".to_string(), "B".to_string()];
    let plan = plan_workers(&paths, 3);
    assert_eq!(plan.len(), 6);
    let mut total = 0;
    for _slot in &plan {
        let outs = worker_outputs(2, 1, OutputKind::Archive, CompressionMode::Best);
        assert_eq!(outs.len(), 2);
        for out in &outs {
            assert!(!out.is_empty());
            total += 1;
        }
    }
    assert_eq!(total, 12);
}

#[test]
fn generated_paths_are_fresh_and_under_the_directory() {
    let p = gen_filepath("dir");
    assert_eq!(p.len(), "dir".len() + 37);
    assert!(p.starts_with("dir/"));
    let token = &p["dir/".len()..];
    assert_eq!(token.len(), 36);
    assert!(token
        .chars()
        .all(|c| c == '-' || c.is_ascii_digit() || ('a'..='f').contains(&c)));
    assert_ne!(gen_filepath("dir"), gen_filepath("dir"));
}

#[test]
fn generated_paths_join_like_the_filesystem() {
    // a directory already ending in a separator gets no second one
    let slashed = gen_filepath("dir/");
    assert_eq!(slashed.len(), "dir/".len() + 36);
    assert!(slashed.starts_with("dir/"));
    assert!(!slashed.contains("//"));
    let token = &slashed["dir/".len()..];
    assert_eq!(
        std::path::Path::new("dir/").join(token).to_str().unwrap(),
        slashed
    );
    // an empty directory yields a bare relative file name
    let bare = gen_filepath("");
    assert_eq!(bare.len(), 36);
    assert!(!bare.starts_with('/'));
    assert_eq!(std::path::Path::new("").join(&bare).to_str().unwrap(), bare);
    // an ordinary directory gets exactly one separator
    let plain = gen_filepath("dir");
    let plain_token = &plain["dir/".len()..];
    assert_eq!(
        std::path::Path::new("dir").join(plain_token).to_str().unwrap(),
        plain
    );
}
