use sd_core::allocator::LastFilePathIdManager;
use sd_core::cas::generate_cas_id;
use sd_core::cas::to_hex_lower;
use sd_core::cas::u64_to_dec;
use sd_core::catalog::Catalog;
use sd_core::catalog::CatalogError;
use sd_core::catalog::FilePathRow;
use sd_core::catalog::ObjectRow;
use sd_core::codec::decode_indexer_state;
use sd_core::codec::encode_indexer_state;
use sd_core::events::invalidate_stream_decide;
use sd_core::events::CoreEvent;
use sd_core::events::DebounceState;
use sd_core::events::InvalidateOperationEvent;
use sd_core::identifier::kind_from_extension;
use sd_core::identifier::LocationData;
use sd_core::identifier::ObjectKind;
use sd_core::indexer::group_rules;
use sd_core::indexer::IndexerError;
use sd_core::indexer::IndexerJobData;
use sd_core::indexer::IndexerJobStep;
use sd_core::indexer::IndexerJobStepEntry;
use sd_core::indexer::IndexerRule;
use sd_core::indexer::LocationWithRules;
use sd_core::indexer::RuleKind;
use sd_core::indexer::ShallowIndexerJob;
use sd_core::indexer::ShallowIndexerJobInit;
use sd_core::indexer::WalkedEntry;
use sd_core::path::extract_extension;
use sd_core::path::MaterializedPath;
use sd_core::sync::CrdtOperation;
use sd_core::thumbnailer::process_step;
use sd_core::thumbnailer::FilePathJustMaterializedPathCasId;
use sd_core::thumbnailer::ThumbnailerJob;
use sd_core::thumbnailer::ThumbnailerJobInit;
use sd_core::thumbnailer::ThumbnailerJobReport;
use sd_core::thumbnailer::ThumbnailerJobStep;
use sd_core::thumbnailer::ThumbnailerJobStepKind;
use sd_core::thumbnailer::ThumbnailStepDecision;

#[test]
fn cas_id_matches_blake3() {
    // The content address is blake3 over length-little-endian plus the
    // leading bytes, first 16 digest bytes in lowercase hex.
    let content = b"hello world";
    let cas = generate_cas_id(content.len() as u64, content);
    let mut input: Vec<u8> = (content.len() as u64).to_le_bytes().to_vec();
    input.extend_from_slice(content);
    let digest = blake3::hash(&input);
    let expected: String = digest.as_bytes()[..16]
        .iter()
        .map(|b| format!("{b:02x}"))
        .collect();
    assert_eq!(cas, expected);
    assert_eq!(cas.len(), 32);
}

#[test]
fn cas_id_empty_file_hashes_empty_input() {
    let cas = generate_cas_id(0, &[]);
    let digest = blake3::hash(&[]);
    let expected: String = digest.as_bytes()[..16]
        .iter()
        .map(|b| format!("{b:02x}"))
        .collect();
    assert_eq!(cas, expected);
}

#[test]
fn cas_id_deterministic_and_content_sensitive() {
    let a = generate_cas_id(3, b"abc");
    let b = generate_cas_id(3, b"abc");
    let c = generate_cas_id(3, b"abd");
    assert_eq!(a, b);
    assert_ne!(a, c);
}

#[test]
fn hex_and_decimal_rendering() {
    assert_eq!(to_hex_lower(&[0x00, 0xff, 0x1a]), "00ff1a");
    assert_eq!(to_hex_lower(&[]), "");
    assert_eq!(u64_to_dec(0), "0");
    assert_eq!(u64_to_dec(1234567), "1234567");
    assert_eq!(u64_to_dec(u64::MAX), "18446744073709551615");
}

#[test]
fn materialized_path_forms() {
    let root = MaterializedPath::new(1, "/tmp/lib", "/tmp/lib", true).expect("root");
    assert_eq!(root.as_str(), "/");
    assert!(root.is_dir());

    let file = MaterializedPath::new(1, "/tmp/lib", "/tmp/lib/a/b.txt", false).expect("file");
    assert_eq!(file.as_str(), "/a/b.txt");
    assert!(!file.is_dir());

    let dir = MaterializedPath::new(1, "/tmp/lib", "/tmp/lib/a", true).expect("dir");
    assert_eq!(dir.as_str(), "/a/");

    assert!(MaterializedPath::new(1, "/tmp/lib", "/elsewhere/x", false).is_err());
    assert!(MaterializedPath::new(1, "/tmp/lib", "/tmp/lib//x", false).is_err());
    assert!(MaterializedPath::new(1, "/tmp/lib", "/tmp/lib/a\u{0}b", false).is_err());
    // A file flag against a trailing separator is refused.
    assert!(MaterializedPath::new(1, "/tmp/lib", "/tmp/lib/a/", false).is_err());
}

#[test]
fn extension_extraction() {
    assert_eq!(extract_extension("/a/photo.JPG"), "jpg");
    assert_eq!(extract_extension("/a/archive.tar.gz"), "gz");
    assert_eq!(extract_extension("/a/noext"), "");
    assert_eq!(extract_extension("/a.b/noext"), "");
}

#[test]
fn kind_resolution() {
    assert_eq!(kind_from_extension("png"), ObjectKind::Image);
    assert_eq!(kind_from_extension("mp4"), ObjectKind::Video);
    assert_eq!(kind_from_extension("txt"), ObjectKind::Text);
    assert_eq!(kind_from_extension("weird"), ObjectKind::Unknown);
}

#[test]
fn init_hash_stable_for_equal_inputs() {
    let a = ShallowIndexerJobInit {
        location: LocationWithRules {
            id: 3,
            pub_id: 9,
            path: String::from("/data"),
            indexer_rules: Vec::new(),
        },
        sub_path: String::from("/docs"),
    };
    let b = ShallowIndexerJobInit {
        location: LocationWithRules {
            id: 3,
            pub_id: 1,
            path: String::from("/other"),
            indexer_rules: Vec::new(),
        },
        sub_path: String::from("/docs"),
    };
    // The digest depends on the location id and the sub path alone.
    assert_eq!(a.hash(), b.hash());
    let c = ShallowIndexerJobInit {
        location: LocationWithRules {
            id: 3,
            pub_id: 9,
            path: String::from("/data"),
            indexer_rules: Vec::new(),
        },
        sub_path: String::from("/pics"),
    };
    assert_ne!(a.hash(), c.hash());
}

#[test]
fn indexer_init_error_variants() {
    let mut catalog = Catalog::new();
    let root = FilePathRow {
        location_id: 1,
        id: 1,
        materialized_path: String::from("/"),
        is_dir: true,
        extension: String::new(),
        date_created: 0,
        parent_id: None,
        cas_id: None,
        object_pub_id: None,
    };
    catalog
        .insert_file_paths_batch(vec![root], Vec::new())
        .expect("root");
    let job = ShallowIndexerJob;
    let mut idm = LastFilePathIdManager::new();
    let location = LocationWithRules {
        id: 1,
        pub_id: 7,
        path: String::from("/tmp/lib"),
        indexer_rules: Vec::new(),
    };

    // A sub path with an empty component does not materialize.
    let bad = ShallowIndexerJobInit {
        location: LocationWithRules {
            id: 1,
            pub_id: 7,
            path: String::from("/tmp/lib"),
            indexer_rules: Vec::new(),
        },
        sub_path: String::from("//oops"),
    };
    match job.init(&bad, true, &Vec::new(), &catalog, &mut idm, 0, 0) {
        Err(IndexerError::SubPathNotInLocation(p)) => assert_eq!(p, "/tmp/lib//oops"),
        other => panic!("expected SubPathNotInLocation, got {other:?}"),
    }

    // A sub path that is not a directory is refused.
    let sub = ShallowIndexerJobInit {
        location: LocationWithRules {
            id: 1,
            pub_id: 7,
            path: String::from("/tmp/lib"),
            indexer_rules: Vec::new(),
        },
        sub_path: String::from("/file.txt"),
    };
    match job.init(&sub, false, &Vec::new(), &catalog, &mut idm, 0, 0) {
        Err(IndexerError::SubPathNotDirectory(p)) => assert_eq!(p, "/tmp/lib/file.txt"),
        other => panic!("expected SubPathNotDirectory, got {other:?}"),
    }

    // A location whose id space is spent cannot accept new entries.
    idm.set_max_file_path_id(1, i32::MAX);
    let init = ShallowIndexerJobInit { location, sub_path: String::new() };
    let walked = vec![WalkedEntry {
        path: String::from("/tmp/lib/a.txt"),
        is_dir: false,
        created_at: 0,
    }];
    match job.init(&init, true, &walked, &catalog, &mut idm, 0, 0) {
        Err(IndexerError::IdSpaceExhausted) => {},
        other => panic!("expected IdSpaceExhausted, got {other:?}"),
    }
}

#[test]
fn catalog_insert_collisions_fail_whole_batch() {
    let mut catalog = Catalog::new();
    let row = |id: i32, path: &str| FilePathRow {
        location_id: 1,
        id,
        materialized_path: String::from(path),
        is_dir: true,
        extension: String::new(),
        date_created: 0,
        parent_id: None,
        cas_id: None,
        object_pub_id: None,
    };
    catalog
        .insert_file_paths_batch(vec![row(1, "/")], Vec::new())
        .expect("first");
    let r = catalog.insert_file_paths_batch(vec![row(1, "/x/")], Vec::new());
    assert_eq!(r.unwrap_err(), CatalogError::FilePathKeyCollision);
    // Nothing was written.
    assert_eq!(catalog.file_paths.len(), 1);

    let obj = |pub_id: u128| ObjectRow {
        pub_id,
        kind: 0,
        date_created: 0,
        size_in_bytes: String::from("0"),
    };
    catalog
        .insert_objects_batch(vec![obj(5)], Vec::new())
        .expect("object");
    let r2 = catalog.insert_objects_batch(vec![obj(5)], Vec::new());
    assert_eq!(r2.unwrap_err(), CatalogError::ObjectPubIdCollision);
    assert_eq!(catalog.objects.len(), 1);
}

#[test]
fn catalog_query_by_materialized_paths() {
    let mut catalog = Catalog::new();
    let row = |id: i32, path: &str| FilePathRow {
        location_id: 1,
        id,
        materialized_path: String::from(path),
        is_dir: true,
        extension: String::new(),
        date_created: 0,
        parent_id: None,
        cas_id: None,
        object_pub_id: None,
    };
    catalog
        .insert_file_paths_batch(vec![row(1, "/"), row(2, "/a/")], Vec::new())
        .expect("insert");
    let candidates = vec![
        String::from("/a/"),
        String::from("/b/"),
    ];
    let existing = catalog.find_many_file_paths_by_materialized_paths(1, &candidates);
    assert_eq!(existing, vec![String::from("/a/")]);
}

#[test]
fn allocator_ranges_disjoint() {
    let mut idm = LastFilePathIdManager::new();
    let catalog = Catalog::new();
    let cur = idm.get_max_file_path_id(9, &catalog);
    assert_eq!(cur, 0);
    let first = idm.reserve(9, 5).expect("reserve");
    assert_eq!(first, 1);
    let second = idm.reserve(9, 3).expect("reserve");
    // The second range starts past the whole first range.
    assert_eq!(second, 6);
    assert_eq!(idm.get_max_file_path_id(9, &catalog), 8);
    // Another location is untouched.
    assert_eq!(idm.get_max_file_path_id(10, &catalog), 0);
}

#[test]
fn rules_grouped_by_kind() {
    let rule = |kind: RuleKind, name: &str| IndexerRule {
        kind,
        name: String::from(name),
        pattern: String::from("*"),
    };
    let rules = vec![
        rule(RuleKind::RejectFilesByGlob, "no-hidden"),
        rule(RuleKind::AcceptFilesByGlob, "images"),
        rule(RuleKind::RejectFilesByGlob, "no-tmp"),
        rule(RuleKind::AcceptIfChildrenDirectoriesArePresent, "git"),
    ];
    let grouped = group_rules(&rules);
    assert_eq!(grouped.accept_files.len(), 1);
    assert_eq!(grouped.accept_files[0].name, "images");
    assert_eq!(grouped.reject_files.len(), 2);
    assert_eq!(grouped.reject_files[0].name, "no-hidden");
    assert_eq!(grouped.reject_files[1].name, "no-tmp");
    assert_eq!(grouped.accept_if_children.len(), 1);
    assert_eq!(grouped.reject_if_children.len(), 0);
}

#[test]
fn debounced_invalidations_coalesce() {
    let mut state = DebounceState { last_emit_ms: 0 };
    let op = |key: &str| InvalidateOperationEvent { key: String::from(key) };
    // Plain invalidations always pass.
    let r = invalidate_stream_decide(&mut state, CoreEvent::InvalidateOperation(op("a")), 1);
    assert_eq!(r.unwrap().key, "a");
    // The first debounced event after the window passes and restarts it.
    let r = invalidate_stream_decide(
        &mut state,
        CoreEvent::InvalidateOperationDebounced(op("b")),
        150,
    );
    assert_eq!(r.unwrap().key, "b");
    assert_eq!(state.last_emit_ms, 150);
    // A second one inside the window is dropped.
    let r = invalidate_stream_decide(
        &mut state,
        CoreEvent::InvalidateOperationDebounced(op("c")),
        200,
    );
    assert!(r.is_none());
    assert_eq!(state.last_emit_ms, 150);
    // Thumbnail events are not part of the invalidation stream.
    let r = invalidate_stream_decide(
        &mut state,
        CoreEvent::NewThumbnail { cas_id: String::from("ab") },
        400,
    );
    assert!(r.is_none());
}

#[test]
fn thumbnailer_skips_existing_thumbnail() {
    let mut report = ThumbnailerJobReport {
        location_id: 1,
        materialized_path: String::from("/"),
        thumbnails_created: 0,
        thumbnails_reused: 0,
    };
    let step = ThumbnailerJobStep {
        file_path: FilePathJustMaterializedPathCasId {
            materialized_path: String::from("/c.png"),
            cas_id: Some(String::from("abcd1234abcd1234abcd1234abcd1234")),
        },
        kind: ThumbnailerJobStepKind::Image,
    };
    // Already on disk: reuse, no encoder, no event.
    let decision = process_step(&mut report, &step, true);
    assert!(matches!(decision, ThumbnailStepDecision::Reuse));
    assert_eq!(report.thumbnails_reused, 1);
    assert_eq!(report.thumbnails_created, 0);
    // Missing: the encoder must run for the sharded target path.
    let decision = process_step(&mut report, &step, false);
    match decision {
        ThumbnailStepDecision::Encode { target_rel_path } => {
            assert_eq!(target_rel_path, "ab/abcd1234abcd1234abcd1234abcd1234.webp");
        },
        other => panic!("expected Encode, got {other:?}"),
    }
    assert_eq!(report.thumbnails_created, 0);
}

#[test]
fn thumbnailer_init_queries_eligible_images() {
    let mut catalog = Catalog::new();
    let mut rows: Vec<FilePathRow> = Vec::new();
    rows.push(FilePathRow {
        location_id: 1,
        id: 1,
        materialized_path: String::from("/"),
        is_dir: true,
        extension: String::new(),
        date_created: 0,
        parent_id: None,
        cas_id: None,
        object_pub_id: None,
    });
    let file = |id: i32, path: &str, ext: &str, cas: Option<&str>| FilePathRow {
        location_id: 1,
        id,
        materialized_path: String::from(path),
        is_dir: false,
        extension: String::from(ext),
        date_created: 0,
        parent_id: Some(1),
        cas_id: cas.map(String::from),
        object_pub_id: None,
    };
    rows.push(file(2, "/a.png", "png", Some("cas-a")));
    rows.push(file(3, "/b.txt", "txt", Some("cas-b")));
    rows.push(file(4, "/c.png", "png", None));
    catalog.insert_file_paths_batch(rows, Vec::new()).expect("insert");

    let job = ThumbnailerJob {};
    let init = ThumbnailerJobInit {
        location: LocationData { id: 1, pub_id: 7, path: String::from("/tmp/lib") },
        sub_path: None,
        background: false,
    };
    let (state, steps) = job.init(&init, true, &catalog, "/data").expect("init");
    assert_eq!(state.thumbnail_dir, "/data/thumbnails");
    assert_eq!(state.report.materialized_path, "/");
    // Only the image with a content address qualifies.
    assert_eq!(steps.len(), 1);
    assert_eq!(steps[0].file_path.materialized_path, "/a.png");
    assert_eq!(steps[0].file_path.cas_id.as_deref(), Some("cas-a"));
}

#[test]
fn job_state_round_trips_through_bytes() {
    let data = IndexerJobData {
        db_write_start: -12345,
        scan_read_time: 42,
        total_paths: 7,
        indexed_paths: 3,
    };
    let entry = IndexerJobStepEntry {
        full_path: String::from("/tmp/lib/ä.txt"),
        materialized_path: MaterializedPath::new(5, "/tmp/lib", "/tmp/lib/ä.txt", false)
            .expect("mpath"),
        created_at: -9,
        file_id: 12,
        parent_id: Some(1),
    };
    let steps = vec![IndexerJobStep { entries: vec![entry] }];
    let bytes = encode_indexer_state(&data, &steps);
    let (data2, steps2) = decode_indexer_state(&bytes).expect("decode");
    assert_eq!(data2, data);
    assert_eq!(steps2.len(), 1);
    assert_eq!(steps2[0].entries.len(), 1);
    let e = &steps2[0].entries[0];
    assert_eq!(e.full_path, "/tmp/lib/ä.txt");
    assert_eq!(e.materialized_path.as_str(), "/ä.txt");
    assert!(!e.materialized_path.is_dir());
    assert_eq!(e.materialized_path.location_id(), 5);
    assert_eq!(e.created_at, -9);
    assert_eq!(e.file_id, 12);
    assert_eq!(e.parent_id, Some(1));
    // Truncated bytes are rejected rather than misread.
    let cut = bytes[..bytes.len() - 1].to_vec();
    assert!(decode_indexer_state(&cut).is_none());
}

#[test]
fn job_names_are_stable() {
    assert_eq!(ShallowIndexerJob.name(), "shallow_indexer");
    assert_eq!(ThumbnailerJob {}.name(), "thumbnailer");
}

#[test]
fn crdt_log_grows_with_writes() {
    let mut catalog = Catalog::new();
    let row = FilePathRow {
        location_id: 1,
        id: 1,
        materialized_path: String::from("/"),
        is_dir: true,
        extension: String::new(),
        date_created: 0,
        parent_id: None,
        cas_id: None,
        object_pub_id: None,
    };
    let op = CrdtOperation::SharedCreate {
        id: sd_core::sync::SyncId::Object { pub_id: 1 },
    };
    catalog.insert_file_paths_batch(vec![row], vec![op]).expect("insert");
    assert_eq!(catalog.ops.len(), 1);
}
