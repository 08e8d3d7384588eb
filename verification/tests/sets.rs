use minimap_core::{MemoryWorkspace, Record, Remote, SetOperation, Workspace};

fn create_test_workspace() -> MemoryWorkspace {
    MemoryWorkspace::new("Max Mustermann", "max@example.com")
}

#[test]
fn test_set_walk() {
    let mut workspace = Workspace::open(create_test_workspace());

    workspace.remote.set_add_unchecked("coll", "test").unwrap();
    workspace.remote.set_del_unchecked("coll", "test").unwrap();
    workspace.remote.set_add_unchecked("coll", "test2").unwrap();
    workspace.remote.set_add_unchecked("coll", "test3").unwrap();
    workspace.remote.set_add_unchecked("coll", "test4").unwrap();
    workspace.remote.set_add_unchecked("coll", "test5").unwrap();
    workspace.remote.set_del_unchecked("coll", "test4").unwrap();

    let records = workspace
        .remote()
        .walk_set("coll")
        .unwrap()
        .into_iter()
        .map(|(record, op)| (Record::message(&record), op))
        .collect::<Vec<_>>();
    assert_eq!(records.len(), 7);
    assert_eq!(records[6], ("test".to_string(), SetOperation::Add));
    assert_eq!(records[5], ("test".to_string(), SetOperation::Del));
    assert_eq!(records[4], ("test2".to_string(), SetOperation::Add));
    assert_eq!(records[3], ("test3".to_string(), SetOperation::Add));
    assert_eq!(records[2], ("test4".to_string(), SetOperation::Add));
    assert_eq!(records[1], ("test5".to_string(), SetOperation::Add));
    assert_eq!(records[0], ("test4".to_string(), SetOperation::Del));
}

#[test]
fn test_set() {
    let mut workspace = Workspace::open(create_test_workspace());

    let commit = workspace.remote.set_add_unchecked("coll", "test").unwrap();
    assert_eq!(Record::message(&commit), "test");

    let commit = workspace.remote().set_find("coll", "test").unwrap().unwrap();
    assert_eq!(Record::message(&commit), "test");

    let commit = workspace.remote.set_del_unchecked("coll", "test").unwrap();
    assert_eq!(Record::message(&commit), "test");

    let commit = workspace
        .remote()
        .set_find("coll", "test")
        .unwrap()
        .unwrap_err()
        .unwrap();
    assert_eq!(Record::message(&commit), "test");

    let commit = workspace
        .remote()
        .set_find("coll", "test2")
        .unwrap()
        .unwrap_err();
    assert!(commit.is_none());

    let commit = workspace.remote.set_add_unchecked("coll", "test2").unwrap();
    assert_eq!(Record::message(&commit), "test2");

    let commit = workspace.remote().set_find("coll", "test2").unwrap().unwrap();
    assert_eq!(Record::message(&commit), "test2");

    let commit = workspace.remote.set_add_unchecked("coll", "test3").unwrap();
    assert_eq!(Record::message(&commit), "test3");
    let commit = workspace.remote.set_add_unchecked("coll", "test4").unwrap();
    assert_eq!(Record::message(&commit), "test4");
    let commit = workspace.remote.set_add_unchecked("coll", "test5").unwrap();
    assert_eq!(Record::message(&commit), "test5");

    let commit = workspace.remote().set_find("coll", "test4").unwrap().unwrap();
    assert_eq!(Record::message(&commit), "test4");
    let commit = workspace.remote().set_find("coll", "test5").unwrap().unwrap();
    assert_eq!(Record::message(&commit), "test5");
    let commit = workspace.remote().set_find("coll", "test3").unwrap().unwrap();
    assert_eq!(Record::message(&commit), "test3");

    let commit = workspace.remote.set_del_unchecked("coll", "test4").unwrap();
    assert_eq!(Record::message(&commit), "test4");
    let commit = workspace
        .remote()
        .set_find("coll", "test4")
        .unwrap()
        .unwrap_err()
        .unwrap();
    assert_eq!(Record::message(&commit), "test4");

    let commit = workspace.remote().set_find("coll", "test3").unwrap().unwrap();
    assert_eq!(Record::message(&commit), "test3");
    let commit = workspace.remote().set_find("coll", "test5").unwrap().unwrap();
    assert_eq!(Record::message(&commit), "test5");

    // now collect all of the operations we just did into a vector and make sure it's correct
    let records = workspace
        .remote()
        .walk_set("coll")
        .unwrap()
        .into_iter()
        .map(|(record, op)| (Record::message(&record), op))
        .collect::<Vec<_>>();
    assert_eq!(records.len(), 7);
    assert_eq!(records[6], ("test".to_string(), SetOperation::Add));
    assert_eq!(records[5], ("test".to_string(), SetOperation::Del));
    assert_eq!(records[4], ("test2".to_string(), SetOperation::Add));
    assert_eq!(records[3], ("test3".to_string(), SetOperation::Add));
    assert_eq!(records[2], ("test4".to_string(), SetOperation::Add));
    assert_eq!(records[1], ("test5".to_string(), SetOperation::Add));
    assert_eq!(records[0], ("test4".to_string(), SetOperation::Del));
}

#[test]
fn test_set_get_all() {
    let mut workspace = Workspace::open(create_test_workspace());

    let commit = workspace.remote.set_add_unchecked("coll", "test").unwrap();
    assert_eq!(Record::message(&commit), "test");

    let commit = workspace.remote.set_add_unchecked("coll", "test2").unwrap();
    assert_eq!(Record::message(&commit), "test2");

    let commit = workspace.remote.set_add_unchecked("coll", "test3").unwrap();
    assert_eq!(Record::message(&commit), "test3");

    let commit = workspace.remote.set_add_unchecked("coll", "test4").unwrap();
    assert_eq!(Record::message(&commit), "test4");

    let commit = workspace.remote.set_add_unchecked("coll", "test5").unwrap();
    assert_eq!(Record::message(&commit), "test5");

    let commit = workspace.remote.set_del_unchecked("coll", "test4").unwrap();
    assert_eq!(Record::message(&commit), "test4");

    let commit = workspace.remote.set_del_unchecked("coll", "test3").unwrap();
    assert_eq!(Record::message(&commit), "test3");

    let commit = workspace.remote.set_add_unchecked("coll", "test6").unwrap();
    assert_eq!(Record::message(&commit), "test6");

    let commit = workspace.remote.set_add_unchecked("coll", "test3").unwrap();
    assert_eq!(Record::message(&commit), "test3");

    let records = workspace.remote().set_get_all("coll").unwrap();
    assert_eq!(records.len(), 5);
    assert_eq!(records[0].message(), "test");
    assert_eq!(records[1].message(), "test2");
    assert_eq!(records[2].message(), "test5");
    assert_eq!(records[3].message(), "test6");
    assert_eq!(records[4].message(), "test3");

    let records = workspace.remote().set_get_all_reverse("coll").unwrap();
    assert_eq!(records.len(), 5);
    assert_eq!(records[0].message(), "test3");
    assert_eq!(records[1].message(), "test6");
    assert_eq!(records[2].message(), "test5");
    assert_eq!(records[3].message(), "test2");
    assert_eq!(records[4].message(), "test");
}

#[test]
fn test_set_checked() {
    let mut workspace = Workspace::open(create_test_workspace());

    let commit = workspace.remote.set_add("coll", "test").unwrap().unwrap();
    assert_eq!(Record::message(&commit.0), "test");
    assert_eq!(commit.1, None);
    assert_eq!(workspace.remote().walk_set("coll").unwrap().len(), 1);

    let commit = workspace.remote.set_add("coll", "test").unwrap().unwrap_err();
    assert_eq!(Record::message(&commit), "test");
    assert_eq!(workspace.remote().walk_set("coll").unwrap().len(), 1);

    let commit = workspace.remote.set_add("coll", "test").unwrap().unwrap_err();
    assert_eq!(Record::message(&commit), "test");
    assert_eq!(workspace.remote().walk_set("coll").unwrap().len(), 1);

    let commit = workspace.remote.set_add_unchecked("coll", "test").unwrap();
    assert_eq!(Record::message(&commit), "test");
    assert_eq!(workspace.remote().walk_set("coll").unwrap().len(), 2);

    let commit = workspace.remote.set_add("coll", "test").unwrap().unwrap_err();
    assert_eq!(Record::message(&commit), "test");
    assert_eq!(workspace.remote().walk_set("coll").unwrap().len(), 2);
}

fn present(workspace: &Workspace<MemoryWorkspace>, collection: &str) -> Vec<String> {
    let mut members = workspace.remote().walk_set_present(collection).unwrap();
    let mut ids = Vec::new();
    while let Some(record) = members.next() {
        ids.push(record.id());
    }
    assert!(members.next().is_none());
    ids
}

fn messages(workspace: &Workspace<MemoryWorkspace>, collection: &str) -> Vec<String> {
    workspace
        .remote()
        .set_get_all(collection)
        .unwrap()
        .into_iter()
        .map(|r| r.message())
        .collect()
}

#[test]
fn add_twice_returns_the_first_record() {
    let mut workspace = Workspace::open(create_test_workspace());
    let (first, tombstone) = workspace.remote.set_add("coll", "x").unwrap().unwrap();
    assert!(tombstone.is_none());
    let existing = workspace.remote.set_add("coll", "x").unwrap().unwrap_err();
    assert_eq!(existing.id(), first.id());
    assert_eq!(messages(&workspace, "coll"), vec!["x".to_string()]);
    assert_eq!(present(&workspace, "coll"), vec![first.id()]);
}

#[test]
fn delete_then_add_restores_membership() {
    let mut workspace = Workspace::open(create_test_workspace());
    workspace.remote.set_add("coll", "a").unwrap().unwrap();
    workspace.remote.set_add("coll", "b").unwrap().unwrap();
    let before = messages(&workspace, "coll");
    let (deleted, added) = workspace.remote.set_del("coll", "a").unwrap().unwrap();
    assert_eq!(deleted.message(), "a");
    assert_eq!(added.message(), "a");
    assert_eq!(messages(&workspace, "coll"), vec!["b".to_string()]);
    let (readded, tombstone) = workspace.remote.set_add("coll", "a").unwrap().unwrap();
    assert_eq!(tombstone.unwrap().id(), deleted.id());
    assert_eq!(readded.message(), "a");
    let mut after = messages(&workspace, "coll");
    after.sort();
    assert_eq!(after, before);
    // the re-added item is the newest addition
    assert_eq!(messages(&workspace, "coll"), vec!["b".to_string(), "a".to_string()]);
}

#[test]
fn lone_delete_leaves_a_tombstone() {
    let mut workspace = Workspace::open(create_test_workspace());
    let deleted = workspace.remote.set_del_unchecked("coll", "ghost").unwrap();
    let found = workspace
        .remote()
        .set_find("coll", "ghost")
        .unwrap()
        .unwrap_err()
        .unwrap();
    assert_eq!(found.id(), deleted.id());
    assert!(workspace.remote().set_get_all("coll").unwrap().is_empty());
    assert!(workspace.remote().set_get_all_reverse("coll").unwrap().is_empty());
    // a checked delete of what is absent changes nothing and hands the tombstone back
    let again = workspace.remote.set_del("coll", "ghost").unwrap().unwrap_err();
    assert_eq!(again.unwrap().id(), deleted.id());
    assert_eq!(workspace.remote().walk_set("coll").unwrap().len(), 1);
    let never = workspace.remote.set_del("coll", "other").unwrap().unwrap_err();
    assert!(never.is_none());
}

#[test]
fn newest_observation_wins() {
    let mut workspace = Workspace::open(create_test_workspace());
    workspace.remote.set_add_unchecked("coll", "k").unwrap();
    workspace.remote.set_del_unchecked("coll", "k").unwrap();
    let newest = workspace.remote.set_add_unchecked("coll", "k").unwrap();
    let found = workspace.remote().set_find("coll", "k").unwrap().unwrap();
    assert_eq!(found.id(), newest.id());
    let all = workspace.remote().set_get_all("coll").unwrap();
    assert_eq!(all.len(), 1);
    assert_eq!(all[0].id(), newest.id());
    assert_eq!(present(&workspace, "coll"), vec![newest.id()]);
}

#[test]
fn replay_keeps_insertion_order_when_a_tombstone_is_cleared() {
    // oldest to newest: add a, add c, add b, del a
    let mut workspace = Workspace::open(create_test_workspace());
    workspace.remote.set_add_unchecked("coll", "a").unwrap();
    workspace.remote.set_add_unchecked("coll", "c").unwrap();
    workspace.remote.set_add_unchecked("coll", "b").unwrap();
    workspace.remote.set_del_unchecked("coll", "a").unwrap();
    assert_eq!(
        messages(&workspace, "coll"),
        vec!["c".to_string(), "b".to_string()]
    );
}

#[test]
fn replay_of_a_double_add_under_a_delete() {
    // oldest to newest: add x, add x, del x. The replay clears the tombstone at the
    // newer add and then takes the older add for the first.
    let mut workspace = Workspace::open(create_test_workspace());
    let oldest = workspace.remote.set_add_unchecked("coll", "x").unwrap();
    workspace.remote.set_add_unchecked("coll", "x").unwrap();
    workspace.remote.set_del_unchecked("coll", "x").unwrap();
    let all = workspace.remote().set_get_all("coll").unwrap();
    assert_eq!(all.len(), 1);
    assert_eq!(all[0].id(), oldest.id());
    assert!(workspace.remote().set_find("coll", "x").unwrap().is_err());
    assert!(present(&workspace, "coll").is_empty());
}

#[test]
fn members_are_walked_newest_first_and_once() {
    let mut workspace = Workspace::open(create_test_workspace());
    let a = workspace.remote.set_add_unchecked("coll", "a").unwrap();
    workspace.remote.set_add_unchecked("coll", "b").unwrap();
    let c1 = workspace.remote.set_add_unchecked("coll", "c").unwrap();
    workspace.remote.set_del_unchecked("coll", "b").unwrap();
    let c2 = workspace.remote.set_add_unchecked("coll", "c").unwrap();
    assert_ne!(c1.id(), c2.id());
    assert_eq!(present(&workspace, "coll"), vec![c2.id(), a.id()]);
    let reverse: Vec<String> = workspace
        .remote()
        .set_get_all_reverse("coll")
        .unwrap()
        .into_iter()
        .map(|r| r.id())
        .collect();
    assert_eq!(reverse, vec![c2.id(), a.id()]);
    assert!(present(&workspace, "nothing").is_empty());
}
