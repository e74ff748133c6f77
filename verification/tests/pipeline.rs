use pythonbuild::classify::{classify, ClassifyError, Classification, RejectReason};
use pythonbuild::digest::digest_hex;
use pythonbuild::fetch::{artifact_excluded, find_run_for_commit, workflow_allowed};
use pythonbuild::manifest::{check_round_trip, IntegrityError, Manifest};
use pythonbuild::registry::{resolve_triple, wanted_suffixes, Registry, ReleaseTarget};
use pythonbuild::retry::{
    asset_already_present, classify_outcome, should_retry, simulate_upload, AttemptOutcome,
    BackoffPolicy, OutcomeClass, RetryDecision, UploadResult,
};
use pythonbuild::upload::{
    collect_version_entries, compute_missing, filter_local, strip_placeholder_suffix,
    wanted_assets,
};
use pythonbuild::version::{default_window, release_at_least};

fn linux_target() -> ReleaseTarget {
    ReleaseTarget {
        triple: b"x86_64-unknown-linux-gnu".to_vec(),
        accepted_suffixes: vec![b"pgo".to_vec()],
        install_only_suffix: b"install_only".to_vec(),
        version_min: None,
    }
}

fn linux_registry() -> Registry {
    Registry { targets: vec![linux_target()] }
}

#[test]
fn longest_triple_wins_over_substring() {
    let reg = Registry {
        targets: vec![
            ReleaseTarget {
                triple: b"armv7-unknown-linux-gnueabi".to_vec(),
                accepted_suffixes: vec![b"noopt".to_vec()],
                install_only_suffix: b"install_only".to_vec(),
                version_min: None,
            },
            ReleaseTarget {
                triple: b"armv7-unknown-linux-gnueabihf".to_vec(),
                accepted_suffixes: vec![b"noopt".to_vec()],
                install_only_suffix: b"install_only".to_vec(),
                version_min: None,
            },
        ],
    };
    let name = b"cpython-3.11.4-armv7-unknown-linux-gnueabihf-noopt-20240101T0000.tar.zst"
        .to_vec();
    assert_eq!(resolve_triple(&reg, &name), Some(1));
    let reg_reversed = Registry {
        targets: vec![
            ReleaseTarget {
                triple: b"armv7-unknown-linux-gnueabihf".to_vec(),
                accepted_suffixes: vec![b"noopt".to_vec()],
                install_only_suffix: b"install_only".to_vec(),
                version_min: None,
            },
            ReleaseTarget {
                triple: b"armv7-unknown-linux-gnueabi".to_vec(),
                accepted_suffixes: vec![b"noopt".to_vec()],
                install_only_suffix: b"install_only".to_vec(),
                version_min: None,
            },
        ],
    };
    assert_eq!(resolve_triple(&reg_reversed, &name), Some(0));
    let short_name = b"cpython-3.11.4-armv7-unknown-linux-gnueabi-noopt-20240101T0000.tar.zst"
        .to_vec();
    assert_eq!(resolve_triple(&reg, &short_name), Some(0));
}

#[test]
fn classify_accepts_full_artifact() {
    let reg = linux_registry();
    let window = default_window();
    let name = b"cpython-3.11.4-x86_64-unknown-linux-gnu-pgo-20240101T0000.tar.zst".to_vec();
    match classify(&reg, &name, &window) {
        Ok(Classification::Accepted(d)) => {
            assert_eq!(d.version_token, b"3.11.4".to_vec());
            assert_eq!(d.release, vec![3u64, 11, 4]);
            assert_eq!(d.target_index, 0);
            assert_eq!(d.triple, b"x86_64-unknown-linux-gnu".to_vec());
            assert_eq!(d.build_suffix, b"pgo".to_vec());
            assert_eq!(d.timestamp, b"20240101T0000".to_vec());
            assert!(!d.install_only_candidate);
        },
        other => panic!("expected acceptance, got {:?}", other),
    }
}

#[test]
fn classify_marks_install_only_candidate() {
    let reg = Registry {
        targets: vec![ReleaseTarget {
            triple: b"x86_64-unknown-linux-gnu".to_vec(),
            accepted_suffixes: vec![b"pgo".to_vec(), b"install_only".to_vec()],
            install_only_suffix: b"install_only".to_vec(),
            version_min: None,
        }],
    };
    let window = default_window();
    let name = b"cpython-3.11.4-x86_64-unknown-linux-gnu-install_only-20240101T0000.tar.zst"
        .to_vec();
    match classify(&reg, &name, &window) {
        Ok(Classification::Accepted(d)) => {
            assert_eq!(d.build_suffix, b"install_only".to_vec());
            assert!(d.install_only_candidate);
        },
        other => panic!("expected acceptance, got {:?}", other),
    }
}

#[test]
fn classify_rejection_reasons() {
    let reg = linux_registry();
    let window = default_window();
    let cases: Vec<(&[u8], RejectReason)> = vec![
        (
            b"rustpython-3.11.4-x86_64-unknown-linux-gnu-pgo-20240101T0000.tar.zst",
            RejectReason::NotThisProject,
        ),
        (
            b"cpython-3.8.1-x86_64-unknown-linux-gnu-pgo-20240101T0000.tar.zst",
            RejectReason::VersionTooOld,
        ),
        (
            b"cpython-3.11.4-sparc64-sun-solaris-pgo-20240101T0000.tar.zst",
            RejectReason::NoTripleMatch,
        ),
        (
            b"cpython-3.11.4-x86_64-unknown-linux-gnu-pgo-20240101T0000.tar.gz",
            RejectReason::WrongExtension,
        ),
        (
            b"cpython-3.11.4-x86_64-unknown-linux-gnu-debug-20240101T0000.tar.zst",
            RejectReason::SuffixNotAccepted,
        ),
    ];
    for (name, expected) in cases {
        match classify(&reg, &name.to_vec(), &window) {
            Ok(Classification::Rejected(why)) => assert_eq!(why, expected),
            other => panic!("expected rejection {:?}, got {:?}", expected, other),
        }
    }
}

#[test]
fn classify_rejects_missing_timestamp() {
    let reg = Registry {
        targets: vec![ReleaseTarget {
            triple: b"x".to_vec(),
            accepted_suffixes: vec![b"pgo".to_vec()],
            install_only_suffix: b"install_only".to_vec(),
            version_min: None,
        }],
    };
    let window = default_window();
    let name = b"cpython-3.9-x.tar.zst".to_vec();
    match classify(&reg, &name, &window) {
        Ok(Classification::Rejected(why)) => assert_eq!(why, RejectReason::TimestampMissing),
        other => panic!("expected a timestamp rejection, got {:?}", other),
    }
}

#[test]
fn classify_raises_defect_when_triple_vanishes() {
    // The triple matches only inside the timestamp region, so it is gone
    // once the fixed-width timestamp is stripped: a defect signal.
    let reg = Registry {
        targets: vec![ReleaseTarget {
            triple: b"0101T".to_vec(),
            accepted_suffixes: vec![b"pgo".to_vec()],
            install_only_suffix: b"install_only".to_vec(),
            version_min: None,
        }],
    };
    let window = default_window();
    let name = b"cpython-3.9-aaa-pgo-20240101T0000.tar.zst".to_vec();
    match classify(&reg, &name, &window) {
        Err(e) => assert_eq!(e, ClassifyError::TripleLost),
        other => panic!("expected a defect signal, got {:?}", other),
    }
}

#[test]
fn classify_version_parse_failure_is_fatal() {
    let reg = linux_registry();
    let window = default_window();
    let name = b"cpython-notaversion-x86_64-unknown-linux-gnu-pgo-20240101T0000.tar.zst"
        .to_vec();
    match classify(&reg, &name, &window) {
        Err(e) => assert_eq!(e, ClassifyError::VersionUnparsable),
        other => panic!("expected a fatal error, got {:?}", other),
    }
}

#[test]
fn classify_is_deterministic() {
    let reg = linux_registry();
    let window = default_window();
    let names: Vec<&[u8]> = vec![
        b"cpython-3.11.4-x86_64-unknown-linux-gnu-pgo-20240101T0000.tar.zst",
        b"cpython-3.8.1-x86_64-unknown-linux-gnu-pgo-20240101T0000.tar.zst",
        b"other-artifact.tar.zst",
    ];
    for name in names {
        let r1 = classify(&reg, &name.to_vec(), &window);
        let r2 = classify(&reg, &name.to_vec(), &window);
        match (r1, r2) {
            (Ok(Classification::Accepted(d1)), Ok(Classification::Accepted(d2))) => {
                assert_eq!(d1.version_token, d2.version_token);
                assert_eq!(d1.release, d2.release);
                assert_eq!(d1.target_index, d2.target_index);
                assert_eq!(d1.triple, d2.triple);
                assert_eq!(d1.build_suffix, d2.build_suffix);
                assert_eq!(d1.timestamp, d2.timestamp);
                assert_eq!(d1.install_only_candidate, d2.install_only_candidate);
            },
            (Ok(Classification::Rejected(w1)), Ok(Classification::Rejected(w2))) => {
                assert_eq!(w1, w2)
            },
            (Err(e1), Err(e2)) => assert_eq!(e1, e2),
            other => panic!("results disagree: {:?}", other),
        }
    }
}

#[test]
fn wanted_suffixes_respect_version_constraint() {
    let t = ReleaseTarget {
        triple: b"x86_64-unknown-linux-gnu".to_vec(),
        accepted_suffixes: vec![b"pgo".to_vec(), b"lto".to_vec()],
        install_only_suffix: b"install_only".to_vec(),
        version_min: Some(vec![3u64, 13]),
    };
    let old_version = vec![3u64, 11, 4];
    let new_version = vec![3u64, 13, 0];
    assert!(wanted_suffixes(&t, Some(&old_version)).is_empty());
    assert_eq!(
        wanted_suffixes(&t, Some(&new_version)),
        vec![b"pgo".to_vec(), b"lto".to_vec()]
    );
    assert_eq!(
        wanted_suffixes(&t, None),
        vec![b"pgo".to_vec(), b"lto".to_vec()]
    );
}

fn scenario_files() -> Vec<Vec<u8>> {
    vec![
        b"cpython-3.11.4-x86_64-unknown-linux-gnu-pgo-202401010000.tar.zst".to_vec(),
        b"cpython-3.11.4-x86_64-unknown-linux-gnu-install_only-202401010000.tar.gz".to_vec(),
    ]
}

#[test]
fn end_to_end_wanted_mapping() {
    let reg = linux_registry();
    let dt = b"202401010000".to_vec();
    let tag = b"20240101".to_vec();
    let present = filter_local(&scenario_files(), &dt);
    assert_eq!(present.len(), 2);
    let versions = collect_version_entries(&present).expect("versions should parse");
    assert_eq!(versions.len(), 1);
    assert_eq!(versions[0].token, b"3.11.4".to_vec());
    assert_eq!(versions[0].release, vec![3u64, 11, 4]);
    let wanted = wanted_assets(&versions, &reg, &tag, &dt);
    let sources: Vec<Vec<u8>> = wanted.iter().map(|w| w.source.clone()).collect();
    let dests: Vec<Vec<u8>> = wanted.iter().map(|w| w.dest.clone()).collect();
    assert!(sources.contains(
        &b"cpython-3.11.4-x86_64-unknown-linux-gnu-pgo-202401010000.tar.zst".to_vec()
    ));
    assert!(dests.contains(
        &b"cpython-3.11.4+20240101-x86_64-unknown-linux-gnu-pgo-full.tar.zst".to_vec()
    ));
    assert!(dests.contains(
        &b"cpython-3.11.4+20240101-x86_64-unknown-linux-gnu-install_only.tar.gz".to_vec()
    ));
    // The two scenario files are both marked present.
    let missing = compute_missing(&wanted, &present);
    assert!(!missing.contains(
        &b"cpython-3.11.4-x86_64-unknown-linux-gnu-pgo-202401010000.tar.zst".to_vec()
    ));
    assert!(!missing.contains(
        &b"cpython-3.11.4-x86_64-unknown-linux-gnu-install_only-202401010000.tar.gz".to_vec()
    ));
    // Only the locally derived stripped variant is not yet on disk here.
    assert_eq!(
        missing,
        vec![
            b"cpython-3.11.4-x86_64-unknown-linux-gnu-install_only_stripped-202401010000.tar.gz"
                .to_vec()
        ]
    );
}

#[test]
fn end_to_end_zero_missing_with_derived_variant() {
    let reg = linux_registry();
    let dt = b"202401010000".to_vec();
    let tag = b"20240101".to_vec();
    let mut files = scenario_files();
    files.push(
        b"cpython-3.11.4-x86_64-unknown-linux-gnu-install_only_stripped-202401010000.tar.gz"
            .to_vec(),
    );
    let present = filter_local(&files, &dt);
    let versions = collect_version_entries(&present).expect("versions should parse");
    let wanted = wanted_assets(&versions, &reg, &tag, &dt);
    assert_eq!(wanted.len(), 3);
    let missing = compute_missing(&wanted, &present);
    assert!(missing.is_empty());
}

#[test]
fn wanted_generation_is_pure() {
    let reg = linux_registry();
    let dt = b"202401010000".to_vec();
    let tag = b"20240101".to_vec();
    let present = filter_local(&scenario_files(), &dt);
    let versions = collect_version_entries(&present).expect("versions should parse");
    let w1 = wanted_assets(&versions, &reg, &tag, &dt);
    let w2 = wanted_assets(&versions, &reg, &tag, &dt);
    assert_eq!(w1.len(), w2.len());
    for (a, b) in w1.iter().zip(w2.iter()) {
        assert_eq!(a.source, b.source);
        assert_eq!(a.dest, b.dest);
    }
}

#[test]
fn filter_local_keeps_only_this_run() {
    let files = vec![
        b"cpython-3.11.4-x86_64-unknown-linux-gnu-pgo-202401010000.tar.zst".to_vec(),
        b"cpython-3.11.4-x86_64-unknown-linux-gnu-pgo-209912312359.tar.zst".to_vec(),
        b"SHA256SUMS".to_vec(),
        b"notes.txt".to_vec(),
    ];
    let dt = b"202401010000".to_vec();
    let present = filter_local(&files, &dt);
    assert_eq!(present.len(), 1);
    assert_eq!(present[0], files[0]);
}

#[test]
fn upload_skips_existing_asset() {
    let existing = vec![
        b"cpython-3.11.4+20240101-x86_64-unknown-linux-gnu-pgo-full.tar.zst".to_vec(),
    ];
    let dest = existing[0].clone();
    assert!(asset_already_present(&existing, &dest));
    let policy = BackoffPolicy { max_retries: 5, base_delay_ms: 100 };
    let outcomes = vec![AttemptOutcome::Status(201); 6];
    let r = simulate_upload(&existing, &dest, &outcomes, &policy, false);
    assert_eq!(r, UploadResult::AlreadyPresent);
}

#[test]
fn upload_dry_run_sends_nothing() {
    let existing: Vec<Vec<u8>> = vec![];
    let dest = b"cpython-3.11.4+20240101-x86_64-unknown-linux-gnu-pgo-full.tar.zst".to_vec();
    let policy = BackoffPolicy { max_retries: 5, base_delay_ms: 100 };
    let outcomes = vec![AttemptOutcome::Status(201); 6];
    let r = simulate_upload(&existing, &dest, &outcomes, &policy, true);
    assert_eq!(r, UploadResult::DryRun);
}

#[test]
fn upload_retries_exactly_to_the_bound() {
    let existing: Vec<Vec<u8>> = vec![];
    let dest = b"asset.tar.zst".to_vec();
    let policy = BackoffPolicy { max_retries: 5, base_delay_ms: 100 };
    let outcomes = vec![AttemptOutcome::Status(403); 6];
    let r = simulate_upload(&existing, &dest, &outcomes, &policy, false);
    assert_eq!(r, UploadResult::Failed { attempts: 6 });
}

#[test]
fn upload_succeeds_after_k_attempts() {
    let existing: Vec<Vec<u8>> = vec![];
    let dest = b"asset.tar.zst".to_vec();
    let policy = BackoffPolicy { max_retries: 5, base_delay_ms: 100 };
    let outcomes = vec![
        AttemptOutcome::Transport { retryable: true },
        AttemptOutcome::Status(403),
        AttemptOutcome::Status(201),
        AttemptOutcome::Status(201),
        AttemptOutcome::Status(201),
        AttemptOutcome::Status(201),
    ];
    let r = simulate_upload(&existing, &dest, &outcomes, &policy, false);
    assert_eq!(r, UploadResult::Uploaded { attempts: 3 });
}

#[test]
fn upload_stops_on_terminal_status() {
    let existing: Vec<Vec<u8>> = vec![];
    let dest = b"asset.tar.zst".to_vec();
    let policy = BackoffPolicy { max_retries: 5, base_delay_ms: 100 };
    let outcomes = vec![
        AttemptOutcome::Status(403),
        AttemptOutcome::Status(500),
        AttemptOutcome::Status(201),
        AttemptOutcome::Status(201),
        AttemptOutcome::Status(201),
        AttemptOutcome::Status(201),
    ];
    let r = simulate_upload(&existing, &dest, &outcomes, &policy, false);
    assert_eq!(r, UploadResult::Failed { attempts: 2 });
}

#[test]
fn outcome_classification_rules() {
    assert_eq!(classify_outcome(&AttemptOutcome::Status(403)), OutcomeClass::Transient);
    assert_eq!(classify_outcome(&AttemptOutcome::Status(200)), OutcomeClass::Success);
    assert_eq!(classify_outcome(&AttemptOutcome::Status(299)), OutcomeClass::Success);
    assert_eq!(classify_outcome(&AttemptOutcome::Status(404)), OutcomeClass::Terminal);
    assert_eq!(classify_outcome(&AttemptOutcome::Status(500)), OutcomeClass::Terminal);
    assert_eq!(
        classify_outcome(&AttemptOutcome::Transport { retryable: true }),
        OutcomeClass::Transient
    );
    assert_eq!(
        classify_outcome(&AttemptOutcome::Transport { retryable: false }),
        OutcomeClass::Terminal
    );
}

#[test]
fn backoff_doubles_and_stops() {
    let policy = BackoffPolicy { max_retries: 5, base_delay_ms: 100 };
    assert_eq!(should_retry(&policy, 0), RetryDecision::Retry { delay_ms: 100 });
    assert_eq!(should_retry(&policy, 3), RetryDecision::Retry { delay_ms: 800 });
    assert_eq!(should_retry(&policy, 4), RetryDecision::Retry { delay_ms: 1600 });
    assert_eq!(should_retry(&policy, 5), RetryDecision::Stop);
    assert_eq!(should_retry(&policy, 6), RetryDecision::Stop);
}

#[test]
fn digest_hex_known_values() {
    assert_eq!(
        digest_hex(&b"abc".to_vec()),
        b"ba7816bf8f01cfea414140de5dae2223b00361a396177a9cb410ff61f20015ad".to_vec()
    );
    assert_eq!(
        digest_hex(&Vec::new()),
        b"e3b0c44298fc1c149afbf4c8996fb92427ae41e4649b934ca495991b7852b855".to_vec()
    );
}

#[test]
fn manifest_renders_sorted_lines() {
    let mut m = Manifest::new();
    m.insert(b"b.tar.zst".to_vec(), digest_hex(&b"bbb".to_vec()));
    m.insert(b"a.tar.gz".to_vec(), digest_hex(&b"aaa".to_vec()));
    let text = m.render();
    let expected = [
        format!(
            "{}  a.tar.gz\n",
            String::from_utf8(digest_hex(&b"aaa".to_vec())).unwrap()
        ),
        format!(
            "{}  b.tar.zst\n",
            String::from_utf8(digest_hex(&b"bbb".to_vec())).unwrap()
        ),
    ]
    .concat();
    assert_eq!(String::from_utf8(text).unwrap(), expected);
}

#[test]
fn manifest_insert_replaces_same_name() {
    let mut m = Manifest::new();
    m.insert(b"a.tar.gz".to_vec(), digest_hex(&b"old".to_vec()));
    m.insert(b"a.tar.gz".to_vec(), digest_hex(&b"new".to_vec()));
    let text = m.render();
    let expected = format!(
        "{}  a.tar.gz\n",
        String::from_utf8(digest_hex(&b"new".to_vec())).unwrap()
    );
    assert_eq!(String::from_utf8(text).unwrap(), expected);
}

#[test]
fn manifest_round_trip_and_corruption() {
    let mut m = Manifest::new();
    for (name, data) in [
        (b"cpython-3.11.4+20240101-x86_64-unknown-linux-gnu-pgo-full.tar.zst".to_vec(), b"full".to_vec()),
        (b"cpython-3.11.4+20240101-x86_64-unknown-linux-gnu-install_only.tar.gz".to_vec(), b"io".to_vec()),
    ] {
        m.insert(name, digest_hex(&data));
    }
    let local = m.render();
    // A faithful mock of the hosting side: store the bytes, stream them back.
    let stored: Vec<u8> = local.clone();
    assert_eq!(check_round_trip(&local, &stored), Ok(()));
    let mut corrupted = stored.clone();
    corrupted[0] ^= 1;
    assert_eq!(
        check_round_trip(&local, &corrupted),
        Err(IntegrityError::ManifestMismatch)
    );
}

#[test]
fn fetch_decisions() {
    assert!(workflow_allowed(&b".github/workflows/linux.yml".to_vec()));
    assert!(!workflow_allowed(&b".github/workflows/macos.yml".to_vec()));
    assert!(artifact_excluded(&b"pythonbuild".to_vec()));
    assert!(artifact_excluded(&b"toolchain".to_vec()));
    assert!(artifact_excluded(&b"cpython-3.11.4-install-only".to_vec()));
    assert!(!artifact_excluded(&b"cpython-3.11.4-x86_64-unknown-linux-gnu".to_vec()));
    let shas = vec![b"aaa111".to_vec(), b"bbb222".to_vec()];
    assert_eq!(find_run_for_commit(&shas, &b"bbb222".to_vec()), Some(1));
    assert_eq!(find_run_for_commit(&shas, &b"ccc333".to_vec()), None);
}

#[test]
fn upload_url_path_placeholder_is_stripped() {
    let path = b"/repos/o/r/releases/1/assets%7B".to_vec();
    assert_eq!(
        strip_placeholder_suffix(&path),
        b"/repos/o/r/releases/1/assets".to_vec()
    );
    let plain = b"/repos/o/r/releases/1/assets".to_vec();
    assert_eq!(strip_placeholder_suffix(&plain), plain);
}

#[test]
fn version_window_comparisons() {
    let window = default_window();
    assert!(release_at_least(&vec![3u64, 11, 4], &window));
    assert!(release_at_least(&vec![3u64, 9], &window));
    assert!(release_at_least(&vec![4u64], &window));
    assert!(!release_at_least(&vec![3u64, 8, 1], &window));
    assert!(!release_at_least(&vec![3u64], &window));
}

#[test]
fn unparsable_version_token_aborts_collection() {
    let present = vec![b"cpython-notaversion-x86_64-unknown-linux-gnu-pgo-202401010000.tar.zst"
        .to_vec()];
    assert!(collect_version_entries(&present).is_none());
}
