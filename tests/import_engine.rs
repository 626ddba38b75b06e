use stalwart_cli::folders::{folder_label, folder_path, plan_folders, sources_for, split_text};
use stalwart_cli::import::{ImportFailure, ImportRun, UploadJob};
use stalwart_cli::message::{keywords, read_mbox, received_at, Flag, SourceMessage};
use stalwart_cli::provision::{create_batch, pending_is_wf, settle, CreateEntry, CreateParent};
use stalwart_cli::remote::{locate, RemoteMailbox};
use stalwart_cli::resolve::{find_inbox, resolve_folders, ParentRef, PendingMailbox, ResolveError};

fn s(t: &str) -> String {
    t.to_string()
}

fn path(parts: &[&str]) -> Vec<String> {
    parts.iter().map(|p| p.to_string()).collect()
}

fn inbox() -> RemoteMailbox {
    RemoteMailbox::new(s("in1"), Some(s("Inbox")), None, true)
}

fn message(id: &str, flags: Vec<Flag>, received: u64) -> SourceMessage {
    SourceMessage { identifier: s(id), flags, received, contents: id.as_bytes().to_vec() }
}

/// Feeds the items of one folder to the run, uploading each batch with the
/// given outcome, and returns every job handed out.
fn run_folder(
    run: &mut ImportRun,
    items: Vec<Result<SourceMessage, String>>,
    outcome: &dyn Fn(&UploadJob) -> Result<(), String>,
) -> Vec<Vec<UploadJob>> {
    let mut batches = Vec::new();
    for item in items {
        if let Some(batch) = run.accept(item) {
            for job in &batch {
                run.record(job, outcome(job));
            }
            batches.push(batch);
        }
    }
    if let Some(batch) = run.end_folder() {
        for job in &batch {
            run.record(job, outcome(job));
        }
        batches.push(batch);
    }
    batches
}

const MBOX: &str = "From alice@example.com Sat Jan  3 01:05:34 1996\n\
Subject: one\n\
\n\
first\n\
From bob@example.com Tue Jul 23 19:39:23 2002\n\
Subject: two\n\
\n\
second\n\
From carol@example.com Tue Aug  6 13:34:34 2002\n\
Subject: three\n\
\n\
third\n";

#[test]
fn mbox_three_messages_into_existing_inbox() {
    let items = read_mbox(MBOX.as_bytes().to_vec());
    assert_eq!(items.len(), 3);
    let plan = plan_folders(&vec![None], '/');
    assert_eq!(plan.paths, vec![Vec::<String>::new()]);
    let nodes = vec![inbox()];
    let pending = resolve_folders(&nodes, &plan).unwrap();
    assert_eq!(pending, vec![PendingMailbox::ExistingId(s("in1"))]);
    assert!(create_batch(&pending).is_empty());
    let targets = settle(&pending, &Vec::new());
    let mut run = ImportRun::new(1, targets);
    let batches = run_folder(&mut run, items, &|_| Ok(()));
    assert!(run.is_done());
    assert_eq!(batches.len(), 3);
    let jobs: Vec<&UploadJob> = batches.iter().flatten().collect();
    assert!(jobs.iter().all(|j| j.mailbox_id == "in1"));
    assert_eq!(jobs.iter().map(|j| j.sequence).collect::<Vec<_>>(), vec![1, 2, 3]);
    assert_eq!(
        jobs.iter().map(|j| j.identifier.as_str()).collect::<Vec<_>>(),
        vec!["alice@example.com", "bob@example.com", "carol@example.com"]
    );
    assert!(String::from_utf8_lossy(&jobs[1].contents).contains("second"));
    assert_eq!(jobs[0].keywords, None);
    assert_eq!(run.imported, 3);
    assert!(run.failures.is_empty());
    assert_eq!(run.imported + run.failures.len() as u64, run.produced);
}

#[test]
fn maildir_child_created_under_new_parent() {
    let names = vec![Some(s("Work")), Some(s("Work.2024"))];
    let plan = plan_folders(&names, '.');
    assert_eq!(plan.paths, vec![path(&["Work"]), path(&["Work", "2024"])]);
    assert_eq!(plan.folder_of, vec![0, 1]);
    let pending = resolve_folders(&vec![inbox()], &plan).unwrap();
    assert_eq!(
        pending,
        vec![
            PendingMailbox::ToCreate { name: s("Work"), parent: ParentRef::TopLevel },
            PendingMailbox::ToCreate { name: s("2024"), parent: ParentRef::Pending(0) },
        ]
    );
    let batch = create_batch(&pending);
    assert_eq!(
        batch,
        vec![
            CreateEntry { folder: 0, name: s("Work"), parent: CreateParent::TopLevel },
            CreateEntry { folder: 1, name: s("2024"), parent: CreateParent::Earlier(0) },
        ]
    );
    let settled = settle(&pending, &vec![Some(s("id-work")), Some(s("id-2024"))]);
    assert_eq!(
        settled,
        vec![PendingMailbox::ExistingId(s("id-work")), PendingMailbox::ExistingId(s("id-2024"))]
    );
}

#[test]
fn child_listed_before_parent_still_gets_its_own_folder() {
    let names = vec![Some(s("Work.2024")), Some(s("Work"))];
    let plan = plan_folders(&names, '.');
    assert_eq!(plan.paths, vec![path(&["Work"]), path(&["Work", "2024"])]);
    assert_eq!(plan.folder_of, vec![1, 0]);
}

#[test]
fn corrupt_message_is_one_failure_among_five() {
    let plan = plan_folders(&vec![Some(s("Work"))], '.');
    let nodes = vec![inbox(), RemoteMailbox::new(s("w1"), Some(s("Work")), None, false)];
    let pending = resolve_folders(&nodes, &plan).unwrap();
    let targets = settle(&pending, &Vec::new());
    let mut run = ImportRun::new(2, targets);
    let items = vec![
        Ok(message("1.host:2,S", vec![Flag::Seen], 100)),
        Ok(message("2.host:2,", vec![], 0)),
        Err(s("cannot read 3.host:2,ZZ")),
        Ok(message("4.host:2,F", vec![Flag::Flagged], 400)),
        Ok(message("5.host:2,", vec![], 500)),
    ];
    let batches = run_folder(&mut run, items, &|_| Ok(()));
    assert!(run.is_done());
    assert_eq!(batches.iter().map(|b| b.len()).collect::<Vec<_>>(), vec![2, 2]);
    assert_eq!(run.imported, 4);
    assert_eq!(
        run.failures,
        vec![ImportFailure::Unreadable { folder: 0, reason: s("cannot read 3.host:2,ZZ") }]
    );
    assert_eq!(run.produced, 5);
    let first = &batches[0][0];
    assert_eq!(first.mailbox_id, "w1");
    assert_eq!(first.keywords, Some(vec![s("$seen")]));
    assert_eq!(first.received_at, Some(100));
    assert_eq!(batches[0][1].received_at, None);
}

#[test]
fn rejected_uploads_are_counted_once() {
    let plan = plan_folders(&vec![None], '/');
    let pending = resolve_folders(&vec![inbox()], &plan).unwrap();
    let mut run = ImportRun::new(3, settle(&pending, &Vec::new()));
    let items = (1..=7).map(|n| Ok(message(&format!("m{}", n), vec![], 0))).collect();
    run_folder(&mut run, items, &|job| {
        if job.sequence % 3 == 0 {
            Err(s("quota exceeded"))
        } else {
            Ok(())
        }
    });
    assert!(run.is_done());
    assert_eq!(run.imported, 5);
    assert_eq!(run.failures.len(), 2);
    assert_eq!(
        run.failures[0],
        ImportFailure::Rejected {
            folder: 0,
            sequence: 3,
            identifier: s("m3"),
            reason: s("quota exceeded")
        }
    );
    assert_eq!(run.imported + run.failures.len() as u64, run.produced);
}

#[test]
fn failed_parent_creation_fails_subtree() {
    let names = vec![Some(s("A")), Some(s("A.B")), Some(s("C"))];
    let plan = plan_folders(&names, '.');
    let pending = resolve_folders(&vec![inbox()], &plan).unwrap();
    assert_eq!(create_batch(&pending).len(), 3);
    let settled = settle(&pending, &vec![None, Some(s("b")), Some(s("c"))]);
    assert_eq!(
        settled,
        vec![
            PendingMailbox::Unresolved,
            PendingMailbox::Unresolved,
            PendingMailbox::ExistingId(s("c"))
        ]
    );
    let mut run = ImportRun::new(4, settled);
    run_folder(&mut run, vec![Ok(message("x", vec![], 0))], &|_| Ok(()));
    run_folder(&mut run, vec![Ok(message("y", vec![], 0))], &|_| Ok(()));
    let batches = run_folder(&mut run, vec![Ok(message("z", vec![], 0))], &|_| Ok(()));
    assert!(run.is_done());
    assert_eq!(batches[0][0].mailbox_id, "c");
    assert_eq!(run.imported, 1);
    assert_eq!(
        run.failures,
        vec![
            ImportFailure::NoMailbox { folder: 0, sequence: 1, identifier: s("x") },
            ImportFailure::NoMailbox { folder: 1, sequence: 2, identifier: s("y") },
        ]
    );
}

#[test]
fn existing_projects_mailbox_is_reused() {
    let nodes = vec![inbox(), RemoteMailbox::new(s("p1"), Some(s("Projects")), None, false)];
    let names = vec![Some(s("Projects")), Some(s("Projects.Q1")), Some(s("Projects.Q1.Notes"))];
    let plan = plan_folders(&names, '.');
    let pending = resolve_folders(&nodes, &plan).unwrap();
    assert_eq!(pending[0], PendingMailbox::ExistingId(s("p1")));
    assert_eq!(
        pending[1],
        PendingMailbox::ToCreate { name: s("Q1"), parent: ParentRef::Existing(s("p1")) }
    );
    let batch = create_batch(&pending);
    assert_eq!(batch.len(), 2);
    assert!(batch.iter().all(|e| e.folder != 0));
    assert_eq!(batch[0].parent, CreateParent::Existing(s("p1")));
    assert_eq!(batch[1].parent, CreateParent::Earlier(0));
}

#[test]
fn resolving_twice_gives_the_same_assignment() {
    let nodes = vec![
        inbox(),
        RemoteMailbox::new(s("a"), Some(s("Archive")), None, false),
        RemoteMailbox::new(s("a2"), Some(s("2020")), Some(s("a")), false),
    ];
    let names = vec![None, Some(s("Archive.2020")), Some(s("Archive.2021")), Some(s("Drafts"))];
    let plan = plan_folders(&names, '.');
    let first = resolve_folders(&nodes, &plan).unwrap();
    let second = resolve_folders(&nodes, &plan).unwrap();
    assert_eq!(first, second);
    assert_eq!(first[0], PendingMailbox::ExistingId(s("in1")));
    assert_eq!(first[2], PendingMailbox::ExistingId(s("a2")));
}

#[test]
fn missing_inbox_is_fatal() {
    let plan = plan_folders(&vec![None], '/');
    let nodes = vec![RemoteMailbox::new(s("x"), Some(s("Sent")), None, false)];
    assert_eq!(resolve_folders(&nodes, &plan), Err(ResolveError::MissingInbox));
    assert_eq!(find_inbox(&nodes), None);
}

#[test]
fn locate_walks_nested_names() {
    let nodes = vec![
        RemoteMailbox::new(s("id2"), Some(s("b")), Some(s("id1")), false),
        RemoteMailbox::new(s("id1"), Some(s("a")), None, false),
        RemoteMailbox::new(s("id3"), Some(s("b")), None, false),
        RemoteMailbox::new(s("id4"), None, None, true),
    ];
    assert_eq!(locate(&nodes, &path(&["a", "b"])), Some(0));
    assert_eq!(locate(&nodes, &path(&["b"])), Some(2));
    assert_eq!(locate(&nodes, &path(&["a", "c"])), None);
    assert_eq!(locate(&nodes, &path(&["Untitled"])), Some(3));
    assert_eq!(locate(&nodes, &Vec::new()), None);
    assert_eq!(find_inbox(&nodes), Some(3));
}

#[test]
fn folder_names_are_split_and_trimmed() {
    assert_eq!(folder_path(" Sent . . Old", '.'), path(&["Sent", ".", "Old"]));
    assert_eq!(folder_path("a/b", '/'), path(&["a", "b"]));
    assert_eq!(folder_path("", '.'), path(&["."]));
    assert_eq!(split_text("x..y", '.'), path(&["x", "", "y"]));
}

#[test]
fn folder_labels() {
    assert_eq!(folder_label(&Vec::new()), "Inbox");
    assert_eq!(folder_label(&path(&["Work", "2024"])), "Work/2024");
    assert_eq!(folder_label(&path(&["Work"])), "Work");
}

#[test]
fn upload_keywords_and_dates() {
    assert_eq!(keywords(&vec![]), None);
    assert_eq!(
        keywords(&vec![Flag::Passed, Flag::Replied, Flag::Trashed, Flag::Draft]),
        Some(path(&["$passed", "$answered", "$deleted", "$draft"]))
    );
    assert_eq!(received_at(0), None);
    assert_eq!(received_at(1_000), Some(1_000));
    assert_eq!(received_at(u64::MAX), None);
}

#[test]
fn mbox_sender_and_date_are_kept() {
    let items = read_mbox(MBOX.as_bytes().to_vec());
    let first = items[0].as_ref().unwrap();
    assert_eq!(first.identifier, "alice@example.com");
    assert!(first.flags.is_empty());
    assert!(first.received > 0);
    assert!(read_mbox(Vec::new()).is_empty());
}

#[test]
fn pending_references_must_point_back() {
    let plan = plan_folders(&vec![Some(s("A.B"))], '.');
    let pending = resolve_folders(&vec![inbox()], &plan).unwrap();
    assert!(pending_is_wf(&pending));
    let forward = vec![
        PendingMailbox::ToCreate { name: s("B"), parent: ParentRef::Pending(1) },
        PendingMailbox::ToCreate { name: s("A"), parent: ParentRef::TopLevel },
    ];
    assert!(!pending_is_wf(&forward));
    let onto_existing = vec![
        PendingMailbox::ExistingId(s("a")),
        PendingMailbox::ToCreate { name: s("B"), parent: ParentRef::Pending(0) },
    ];
    assert!(!pending_is_wf(&onto_existing));
}

#[test]
fn folders_grouped_by_path() {
    let names = vec![Some(s("X.Y")), Some(s("X")), Some(s(" X ")), None];
    let plan = plan_folders(&names, '.');
    assert_eq!(plan.paths, vec![path(&["X"]), path(&["X", "Y"]), Vec::new()]);
    assert_eq!(sources_for(&plan, 0), vec![1, 2]);
    assert_eq!(sources_for(&plan, 1), vec![0]);
    assert_eq!(sources_for(&plan, 2), vec![3]);
}

#[test]
fn zero_pool_size_means_one() {
    let run = ImportRun::new(0, vec![PendingMailbox::ExistingId(s("in1"))]);
    assert_eq!(run.pool_size, 1);
    assert!(run.ready());
    assert!(!run.is_done());
}
