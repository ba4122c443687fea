use sd_core::allocator::LastFilePathIdManager;
use sd_core::catalog::catalog_delete_file_path;
use sd_core::catalog::Catalog;
use sd_core::catalog::FilePathRow;
use sd_core::identifier::identifier_job_step;
use sd_core::identifier::FileMetadata;
use sd_core::identifier::FilePathToIdentify;
use sd_core::identifier::LocationData;
use sd_core::indexer::IndexerJobStep;
use sd_core::indexer::IndexerRule;
use sd_core::indexer::LocationWithRules;
use sd_core::indexer::ShallowIndexerJob;
use sd_core::indexer::ShallowIndexerJobInit;
use sd_core::indexer::WalkedEntry;
use sd_core::job::job_transition;
use sd_core::job::should_reject_submission;
use sd_core::job::JobSignal;
use sd_core::job::JobStatus;
use sd_core::sync::CrdtOperation;
use sd_core::sync::SyncId;

fn location(id: i32) -> LocationWithRules {
    LocationWithRules {
        id,
        pub_id: 7,
        path: String::from("/tmp/lib"),
        indexer_rules: Vec::<IndexerRule>::new(),
    }
}

fn root_row(location_id: i32) -> FilePathRow {
    FilePathRow {
        location_id,
        id: 1,
        materialized_path: String::from("/"),
        is_dir: true,
        extension: String::new(),
        date_created: 0,
        parent_id: None,
        cas_id: None,
        object_pub_id: None,
    }
}

fn register_location(catalog: &mut Catalog, location_id: i32) {
    let op = CrdtOperation::OwnedCreate {
        id: SyncId::FilePath { id: 1, location_pub_id: 7 },
        fields: Vec::new(),
    };
    let r = catalog.insert_file_paths_batch(vec![root_row(location_id)], vec![op]);
    assert!(r.is_ok());
}

fn walked_file(path: &str) -> WalkedEntry {
    WalkedEntry { path: String::from(path), is_dir: false, created_at: 10 }
}

fn run_shallow(
    catalog: &mut Catalog,
    id_manager: &mut LastFilePathIdManager,
    init: &ShallowIndexerJobInit,
    walked: &Vec<WalkedEntry>,
) -> (u64, Vec<IndexerJobStep>) {
    let job = ShallowIndexerJob;
    let (data, steps) = job
        .init(init, true, walked, catalog, id_manager, 0, 0)
        .expect("init should succeed");
    (data.total_paths, steps)
}

fn meta_for(content: &[u8], extension: &str) -> FileMetadata {
    FileMetadata::new(content.len() as u64, content, extension)
}

#[test]
fn empty_location() {
    let mut catalog = Catalog::new();
    register_location(&mut catalog, 1);
    assert_eq!(catalog.file_paths.len(), 1);
    assert!(catalog.file_paths[0].is_dir);
    assert_eq!(catalog.file_paths[0].materialized_path, "/");
    assert!(catalog.file_paths[0].parent_id.is_none());

    let mut idm = LastFilePathIdManager::new();
    let init = ShallowIndexerJobInit { location: location(1), sub_path: String::new() };
    let walked: Vec<WalkedEntry> = Vec::new();
    let (total, steps) = run_shallow(&mut catalog, &mut idm, &init, &walked);
    assert_eq!(total, 0);
    assert!(steps.is_empty());
    // No identifier or thumbnail work.
    assert_eq!(catalog.objects.len(), 0);
    assert_eq!(catalog.file_paths.len(), 1);
}

#[test]
fn three_files_two_duplicates() {
    let mut catalog = Catalog::new();
    register_location(&mut catalog, 1);
    let mut idm = LastFilePathIdManager::new();
    let init = ShallowIndexerJobInit { location: location(1), sub_path: String::new() };
    let walked = vec![
        walked_file("/tmp/lib/a.txt"),
        walked_file("/tmp/lib/b.txt"),
        walked_file("/tmp/lib/c.png"),
    ];
    let job = ShallowIndexerJob;
    let (mut data, steps) = job
        .init(&init, true, &walked, &catalog, &mut idm, 0, 0)
        .expect("init");
    assert_eq!(data.total_paths, 3);
    assert_eq!(steps.len(), 1);
    for step in &steps {
        job.execute_step(&init, step, &mut catalog, &mut data).expect("step");
    }
    // Root and three files are persisted.
    assert_eq!(catalog.file_paths.len(), 4);
    assert_eq!(catalog.file_paths[1].materialized_path, "/a.txt");
    assert_eq!(catalog.file_paths[1].extension, "txt");
    assert_eq!(catalog.file_paths[1].parent_id, Some(1));
    assert_eq!(catalog.file_paths[3].materialized_path, "/c.png");
    assert_eq!(catalog.file_paths[3].extension, "png");

    // Identify: a and b share content, c differs.
    let shared = b"same bytes";
    let loc = LocationData { id: 1, pub_id: 7, path: String::from("/tmp/lib") };
    let items = vec![
        FilePathToIdentify { file_path_id: 2, date_created: 10, meta: meta_for(shared, "txt") },
        FilePathToIdentify { file_path_id: 3, date_created: 10, meta: meta_for(shared, "txt") },
        FilePathToIdentify {
            file_path_id: 4,
            date_created: 10,
            meta: meta_for(b"other bytes", "png"),
        },
    ];
    let ops_before = catalog.ops.len();
    let pub_ids: Vec<u128> = vec![1001, 1002, 1003];
    let (created, linked) = identifier_job_step(&loc, &items, &pub_ids, &mut catalog);
    // One object per distinct new address: a creates, b links to a's
    // object, c creates.
    assert_eq!(created, 2);
    assert_eq!(linked, 1);
    assert_eq!(catalog.objects.len(), 2);
    // The objects carry the supplied ids in creation order.
    assert_eq!(catalog.objects[0].pub_id, 1001);
    assert_eq!(catalog.objects[1].pub_id, 1002);
    // The log: three address writes, three connections, and four object
    // records per created object.
    assert_eq!(catalog.ops.len(), ops_before + 3 + 3 + 4 * 2);
    assert!(matches!(
        catalog.ops[ops_before],
        CrdtOperation::OwnedUpdate { id: SyncId::FilePath { id: 2, location_pub_id: 7 }, .. }
    ));
    assert!(matches!(
        catalog.ops[ops_before + 3],
        CrdtOperation::SharedCreate { id: SyncId::Object { pub_id: 1001 } }
    ));
    let a_obj = catalog.file_paths[1].object_pub_id.expect("a linked");
    let b_obj = catalog.file_paths[2].object_pub_id.expect("b linked");
    let c_obj = catalog.file_paths[3].object_pub_id.expect("c linked");
    assert_eq!(a_obj, b_obj);
    assert_ne!(a_obj, c_obj);
    // The stored size is the decimal byte length.
    assert_eq!(catalog.objects[0].size_in_bytes, "10");
}

#[test]
fn identifier_disjoint_sub_paths() {
    let mut catalog = Catalog::new();
    register_location(&mut catalog, 1);
    let mut idm = LastFilePathIdManager::new();
    let init = ShallowIndexerJobInit { location: location(1), sub_path: String::new() };
    let walked = vec![
        WalkedEntry { path: String::from("/tmp/lib/dir1"), is_dir: true, created_at: 1 },
        WalkedEntry { path: String::from("/tmp/lib/dir2"), is_dir: true, created_at: 1 },
        walked_file("/tmp/lib/dir1/x.txt"),
        walked_file("/tmp/lib/dir2/y.txt"),
    ];
    let job = ShallowIndexerJob;
    let (mut data, steps) = job
        .init(&init, true, &walked, &catalog, &mut idm, 0, 0)
        .expect("init");
    for step in &steps {
        job.execute_step(&init, step, &mut catalog, &mut data).expect("step");
    }
    // Two identifier chunks over disjoint sub paths, interleaved runs.
    let loc = LocationData { id: 1, pub_id: 7, path: String::from("/tmp/lib") };
    let chunk1 = vec![FilePathToIdentify {
        file_path_id: 4,
        date_created: 10,
        meta: meta_for(b"one", "txt"),
    }];
    let chunk2 = vec![FilePathToIdentify {
        file_path_id: 5,
        date_created: 10,
        meta: meta_for(b"one", "txt"),
    }];
    let (c1, l1) = identifier_job_step(&loc, &chunk1, &vec![2001], &mut catalog);
    let (c2, l2) = identifier_job_step(&loc, &chunk2, &vec![2002], &mut catalog);
    assert_eq!((c1, l1), (1, 0));
    // The second run finds the object the first created.
    assert_eq!((c2, l2), (0, 1));
    // Every identified file path is linked to exactly one object, and no
    // content address is served by two objects.
    let x = catalog.file_paths[3].object_pub_id.expect("x linked");
    let y = catalog.file_paths[4].object_pub_id.expect("y linked");
    assert_eq!(x, y);
    assert_eq!(catalog.objects.len(), 1);
}

#[test]
fn reindex_after_deletion_keeps_object() {
    let mut catalog = Catalog::new();
    register_location(&mut catalog, 1);
    let mut idm = LastFilePathIdManager::new();
    let init = ShallowIndexerJobInit { location: location(1), sub_path: String::new() };
    let walked = vec![walked_file("/tmp/lib/c.png")];
    let job = ShallowIndexerJob;
    let (mut data, steps) = job
        .init(&init, true, &walked, &catalog, &mut idm, 0, 0)
        .expect("init");
    for step in &steps {
        job.execute_step(&init, step, &mut catalog, &mut data).expect("step");
    }
    let loc = LocationData { id: 1, pub_id: 7, path: String::from("/tmp/lib") };
    let items = vec![FilePathToIdentify {
        file_path_id: 2,
        date_created: 10,
        meta: meta_for(b"pixels", "png"),
    }];
    identifier_job_step(&loc, &items, &vec![3001], &mut catalog);
    assert_eq!(catalog.objects.len(), 1);

    // The file vanishes; the reconciling scan deletes its row and records
    // the deletion.
    let ops_before = catalog.ops.len();
    let removed = catalog_delete_file_path(
        &mut catalog,
        1,
        2,
        CrdtOperation::OwnedDelete { id: SyncId::FilePath { id: 2, location_pub_id: 7 } },
    );
    assert!(removed);
    assert_eq!(catalog.ops.len(), ops_before + 1);
    assert_eq!(catalog.file_paths.len(), 1);
    // The object remains, now with zero linked file paths.
    assert_eq!(catalog.objects.len(), 1);
    let orphan = catalog.objects[0].pub_id;
    assert!(catalog
        .file_paths
        .iter()
        .all(|row| row.object_pub_id != Some(orphan)));
    // A second full run re-inserts the path only if it is back on disk;
    // with it gone, reconciliation finds nothing new.
    let walked_now: Vec<WalkedEntry> = Vec::new();
    let (total, _steps) = run_shallow(&mut catalog, &mut idm, &init, &walked_now);
    assert_eq!(total, 0);
}

#[test]
fn shallow_indexer_idempotent() {
    let mut catalog = Catalog::new();
    register_location(&mut catalog, 1);
    let mut idm = LastFilePathIdManager::new();
    let init = ShallowIndexerJobInit { location: location(1), sub_path: String::new() };
    let walked = vec![walked_file("/tmp/lib/a.txt"), walked_file("/tmp/lib/b.txt")];
    let job = ShallowIndexerJob;
    let (mut data, steps) = job
        .init(&init, true, &walked, &catalog, &mut idm, 0, 0)
        .expect("first init");
    assert_eq!(data.total_paths, 2);
    for step in &steps {
        job.execute_step(&init, step, &mut catalog, &mut data).expect("step");
    }
    assert_eq!(data.indexed_paths, 2);
    // The same directory again: zero inserts.
    let (total2, steps2) = run_shallow(&mut catalog, &mut idm, &init, &walked);
    assert_eq!(total2, 0);
    assert!(steps2.is_empty());
    assert_eq!(catalog.file_paths.len(), 3);
}

#[test]
fn cancellation_after_three_batches() {
    let mut catalog = Catalog::new();
    register_location(&mut catalog, 1);
    let mut idm = LastFilePathIdManager::new();
    let location_id = 1;
    let mut walked: Vec<WalkedEntry> = Vec::new();
    for i in 0..10 {
        walked.push(walked_file(&format!("/tmp/lib/f{i}.txt")));
    }
    // Ten batches of one entry each.
    let root = sd_core::path::MaterializedPath::new(location_id, "/tmp/lib", "/tmp/lib", true)
        .expect("root");
    let cur = idm.get_max_file_path_id(location_id, &catalog);
    let (steps, total) = sd_core::indexer::build_indexer_steps(
        location_id,
        "/tmp/lib",
        &root,
        1,
        &walked,
        &catalog,
        cur + 1,
        1,
    );
    idm.set_max_file_path_id(location_id, cur + total as i32);
    assert_eq!(steps.len(), 10);

    let init = ShallowIndexerJobInit { location: location(1), sub_path: String::new() };
    let live_hashes = vec![init.hash()];
    let mut status = JobStatus::Queued;
    status = job_transition(status, JobSignal::Pickup).expect("pickup");
    assert_eq!(status, JobStatus::Running);
    let job = ShallowIndexerJob;
    let mut data = sd_core::indexer::IndexerJobData {
        db_write_start: 0,
        scan_read_time: 0,
        total_paths: total,
        indexed_paths: 0,
    };
    // The cancel signal is observed at the step boundary after batch 3.
    for step in steps.iter().take(3) {
        job.execute_step(&init, step, &mut catalog, &mut data).expect("step");
    }
    status = job_transition(status, JobSignal::Cancel).expect("cancel");
    assert_eq!(status, JobStatus::Canceled);
    // Terminal: no signal moves a canceled job.
    assert!(job_transition(status, JobSignal::Resume).is_none());
    // The catalog reflects exactly three batches of inserts.
    assert_eq!(catalog.file_paths.len(), 1 + 3);

    // Resubmitting the same init without force is rejected while the hash
    // is live; with force it runs, and reconciliation skips the three
    // already-inserted paths.
    assert!(should_reject_submission(&live_hashes, init.hash(), false));
    assert!(!should_reject_submission(&live_hashes, init.hash(), true));
    let (mut data2, steps2) = job
        .init(&init, true, &walked, &catalog, &mut idm, 0, 0)
        .expect("second init");
    assert_eq!(data2.total_paths, 7);
    for step in &steps2 {
        job.execute_step(&init, step, &mut catalog, &mut data2).expect("step");
    }
    assert_eq!(catalog.file_paths.len(), 1 + 10);
}
