//! Shard naming, recovery planning and replay concatenation.

use finality_aleph::backup::{
    concat_segments, parse_shard_file_name, plan_recovery, shard_file_name, sort_indices,
    BackupLoadError,
};

fn parse(name: &str) -> Option<usize> {
    parse_shard_file_name(&name.as_bytes().to_vec())
}

#[test]
fn shard_names_round_trip() {
    for index in [0usize, 1, 7, 9, 10, 11, 99, 100, 12345, usize::MAX] {
        let name = shard_file_name(index);
        assert_eq!(parse_shard_file_name(&name), Some(index));
    }
    assert_eq!(shard_file_name(0), b"0.abfts".to_vec());
    assert_eq!(shard_file_name(18723), b"18723.abfts".to_vec());
}

#[test]
fn shard_names_parse() {
    assert_eq!(parse("0.abfts"), Some(0));
    assert_eq!(parse("10.abfts"), Some(10));
    // Leading zeros are accepted, as any decimal reading would.
    assert_eq!(parse("007.abfts"), Some(7));
}

#[test]
fn non_shard_names_are_ignored() {
    assert_eq!(parse(""), None);
    assert_eq!(parse("abfts"), None);
    assert_eq!(parse(".abfts"), None);
    assert_eq!(parse("1.abft"), None);
    assert_eq!(parse("1.abftsx"), None);
    assert_eq!(parse("x1.abfts"), None);
    assert_eq!(parse("1x.abfts"), None);
    assert_eq!(parse("1.1.abfts"), None);
    // A value too large for the index type is not a shard name.
    assert_eq!(parse("99999999999999999999999999.abfts"), None);
}

#[test]
fn sorting_indices() {
    let sorted = sort_indices(&vec![4, 0, 2, 2, 1]);
    assert_eq!(sorted, vec![0, 1, 2, 2, 4]);
    assert_eq!(sort_indices(&Vec::new()), Vec::<usize>::new());
}

#[test]
fn complete_shard_sets_are_planned() {
    let plan = plan_recovery(&vec![2, 0, 1]).unwrap();
    assert_eq!(plan.segment_count, 3);
    let plan = plan_recovery(&Vec::new()).unwrap();
    assert_eq!(plan.segment_count, 0);
}

#[test]
fn gapped_shard_sets_are_rejected() {
    assert_eq!(
        plan_recovery(&vec![0, 2]),
        Err(BackupLoadError::BackupIncomplete(vec![0, 2]))
    );
    assert_eq!(
        plan_recovery(&vec![2, 1]),
        Err(BackupLoadError::BackupIncomplete(vec![1, 2]))
    );
    assert_eq!(
        plan_recovery(&vec![0, 0, 1]),
        Err(BackupLoadError::BackupIncomplete(vec![0, 0, 1]))
    );
}

#[test]
fn concatenation_reproduces_the_bytes() {
    let runs = vec![b"alpha".to_vec(), b"beta".to_vec(), b"gamma".to_vec()];
    assert_eq!(concat_segments(&runs), b"alphabetagamma".to_vec());
    assert_eq!(concat_segments(&Vec::new()), Vec::<u8>::new());
    let with_empty = vec![Vec::new(), b"x".to_vec(), Vec::new()];
    assert_eq!(concat_segments(&with_empty), b"x".to_vec());
}

/// Three successive runs each leave one shard; the next start finds indices
/// `{0, 1, 2}`, reads them in order and reproduces exactly the bytes written.
/// With a gap at index 1, recovery fails before any replay is attempted.
#[test]
fn recovery_replays_three_runs_exactly() {
    let written: Vec<(String, Vec<u8>)> = vec![
        ("0.abfts".to_string(), b"first run".to_vec()),
        ("2.abfts".to_string(), b"third run".to_vec()),
        ("notes.txt".to_string(), b"not a shard".to_vec()),
        ("1.abfts".to_string(), b"second run".to_vec()),
    ];
    let mut indices = Vec::new();
    for (name, _) in &written {
        if let Some(index) = parse_shard_file_name(&name.as_bytes().to_vec()) {
            indices.push(index);
        }
    }
    let plan = plan_recovery(&indices).unwrap();
    assert_eq!(plan.segment_count, 3);
    let mut segments = Vec::new();
    for index in 0..plan.segment_count {
        let name = shard_file_name(index);
        let bytes = written
            .iter()
            .find(|(n, _)| n.as_bytes() == name.as_slice())
            .map(|(_, b)| b.clone())
            .unwrap();
        segments.push(bytes);
    }
    assert_eq!(concat_segments(&segments), b"first runsecond runthird run".to_vec());

    // A gap at index 1 refuses recovery with the sorted indices found.
    let gapped = vec![2, 0];
    assert_eq!(
        plan_recovery(&gapped),
        Err(BackupLoadError::BackupIncomplete(vec![0, 2]))
    );
}
