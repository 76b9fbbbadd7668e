//! Finding recorded snapshots by the transactions they belong to.
use miden_debug::snapshots::{
    looks_like_transaction_id, resolve_snapshot_ref, resolve_snapshot_ref_in,
    snapshot_search_dirs, split_name, SnapshotDir, SnapshotFile,
};

fn setup(dir: &str, names: &[&str]) -> SnapshotDir {
    SnapshotDir {
        path: dir.into(),
        files: Some(
            names
                .iter()
                .map(|name| SnapshotFile { name: (*name).into(), path: format!("{dir}/{name}") })
                .collect(),
        ),
    }
}

#[test]
fn resolves_ids_and_prefixes() {
    let dir = "miden-snapshot-resolver/snaps";
    let dirs = vec![setup(dir, &["0xabc123.mdsnap", "0xabd999.mdsnap", "notes.txt"])];

    // An existing file path wins outright.
    let literal = format!("{dir}/0xabc123.mdsnap");
    assert_eq!(resolve_snapshot_ref_in(&literal, true, &dirs).unwrap(), literal);

    // Full ID and unique prefix resolve; case is ignored.
    assert_eq!(
        resolve_snapshot_ref_in("0xabc123", false, &dirs).unwrap(),
        format!("{dir}/0xabc123.mdsnap")
    );
    assert_eq!(
        resolve_snapshot_ref_in("0xAbC1", false, &dirs).unwrap(),
        format!("{dir}/0xabc123.mdsnap")
    );

    // An ambiguous prefix is rejected.
    let err = resolve_snapshot_ref_in("0xab", false, &dirs).unwrap_err();
    assert!(err.contains("ambiguous"), "unexpected error: {err}");

    // Unknown IDs and non-ID missing paths get distinct errors.
    let err = resolve_snapshot_ref_in("0x999999", false, &dirs).unwrap_err();
    assert!(err.contains("no recorded snapshot"), "unexpected error: {err}");
    let err = resolve_snapshot_ref_in("missing.mdsnap", false, &dirs).unwrap_err();
    assert!(err.contains("snapshot file not found"), "unexpected error: {err}");
}

#[test]
fn the_first_directory_with_a_match_counts() {
    let dirs = vec![
        SnapshotDir { path: "gone".into(), files: None },
        setup("first", &["0xabc.mdsnap"]),
        setup("second", &["0xabc.mdsnap", "0xabd.mdsnap"]),
    ];
    assert_eq!(resolve_snapshot_ref("0xab", false, &dirs).unwrap(), "first/0xabc.mdsnap");
    let err = resolve_snapshot_ref("0xabd1", false, &dirs).unwrap_err();
    assert_eq!(
        err,
        "no recorded snapshot found for transaction '0xabd1' (searched: gone, first, second). \
         Record one with `miden-client ... --record`."
    );
}

#[test]
fn ambiguous_prefixes_name_all_matches_in_order() {
    let dirs = vec![setup("d", &["0xb2.mdsnap", "0xb1.MDSNAP"])];
    let err = resolve_snapshot_ref_in("0xb", false, &dirs).unwrap_err();
    assert_eq!(
        err,
        "transaction ID prefix '0xb' is ambiguous; it matches: d/0xb1.MDSNAP, d/0xb2.mdsnap"
    );
}

#[test]
fn transactions_are_known_by_hexadecimal_digits() {
    assert!(looks_like_transaction_id("0xabc123"));
    assert!(looks_like_transaction_id("0xABCDEF"));
    assert!(!looks_like_transaction_id("0x"));
    assert!(!looks_like_transaction_id("abc123"));
    assert!(!looks_like_transaction_id("0xabg"));
}

#[test]
fn names_are_split_at_their_last_dot() {
    assert_eq!(split_name("a.b.c"), ("a.b".into(), Some("c".into())));
    assert_eq!(split_name("plain"), ("plain".into(), None));
    assert_eq!(split_name(".hidden"), (".hidden".into(), None));
    assert_eq!(split_name("end."), ("end".into(), Some("".into())));
}

#[test]
fn the_named_directory_is_searched_first() {
    let dirs = snapshot_search_dirs(Some("mine".into()), Some("home".into()));
    assert_eq!(
        dirs,
        vec![
            vec![String::from("mine")],
            vec![String::from(".miden"), String::from("debug-snapshots")],
            vec![String::from("home"), String::from(".miden"), String::from("debug-snapshots")],
        ]
    );
    let without = snapshot_search_dirs(None, None);
    assert_eq!(without, vec![vec![String::from(".miden"), String::from("debug-snapshots")]]);
}
