use minimap_core::{
    MemoryRecordBuilder, MemoryWorkspace, Record, RecordBuilder, Remote, SetOperation, Workspace,
};

fn create_test_workspace() -> MemoryWorkspace {
    MemoryWorkspace::new("Max Mustermann", "max@example.com")
}

#[test]
fn test_commit() {
    let mut workspace = Workspace::open(create_test_workspace());

    let builder = workspace.remote().record_builder("coll");
    let commit = workspace.remote.commit(builder, "test").unwrap();
    assert_eq!(Record::message(&commit), "test");

    let commit = workspace
        .remote()
        .get_record(&Record::id(&commit))
        .unwrap()
        .unwrap();
    assert_eq!(Record::message(&commit), "test");
}

#[test]
fn test_walk() {
    let mut workspace = Workspace::open(create_test_workspace());

    let builder = workspace.remote().record_builder("coll");
    let first = workspace.remote.commit(builder, "test").unwrap();
    let builder = workspace.remote().record_builder("coll");
    let second = workspace.remote.commit(builder, "test2").unwrap();

    let mut iter = workspace.remote().walk("coll").unwrap().into_iter();
    let commit = iter.next().unwrap();
    assert_eq!(Record::message(&commit), "test2");
    assert_eq!(Record::id(&commit), second.id().to_string());
    let commit = iter.next().unwrap();
    assert_eq!(Record::message(&commit), "test");
    assert_eq!(Record::id(&commit), first.id().to_string());
    assert!(iter.next().is_none());
}

#[test]
fn walk_by_iterator_follows_parents() {
    let mut workspace = Workspace::open(create_test_workspace());
    let builder = workspace.remote().record_builder("coll");
    let first = workspace.remote.commit(builder, "one").unwrap();
    let builder = workspace.remote().record_builder("coll");
    let second = workspace.remote.commit(builder, "two").unwrap();
    let builder = workspace.remote().record_builder("other");
    workspace.remote.commit(builder, "elsewhere").unwrap();

    let mut iter = workspace.remote().iter("coll");
    let newer = iter.next(workspace.remote()).unwrap().unwrap();
    let older = iter.next(workspace.remote()).unwrap().unwrap();
    assert!(iter.next(workspace.remote()).is_none());
    assert!(iter.next(workspace.remote()).is_none());
    assert_eq!(newer.id(), second.id());
    assert_eq!(older.id(), first.id());
    assert_eq!(newer, second);
    assert_ne!(newer, older);
    assert_eq!(newer.parent(), Some(older.id()));
    assert_eq!(older.parent(), None);
    assert_eq!(newer.op(), None);
}

#[test]
fn every_walk_is_a_chain_of_parents() {
    let mut workspace = Workspace::open(create_test_workspace());
    for i in 0..5 {
        let builder = workspace.remote().record_builder("plain");
        workspace.remote.commit(builder, &format!("p{}", i)).unwrap();
        workspace.remote.set_add_unchecked("set", &format!("s{}", i)).unwrap();
        workspace.remote.set_del_unchecked("set", &format!("s{}", i)).unwrap();
    }
    for collection in ["plain", "set"] {
        let walk = workspace.remote().walk(collection).unwrap();
        assert_eq!(walk.len(), if collection == "plain" { 5 } else { 10 });
        for pair in walk.windows(2) {
            assert_eq!(pair[0].parent(), Some(pair[1].id()));
        }
        assert_eq!(walk.last().unwrap().parent(), None);
    }
    let set = workspace.remote().walk("set").unwrap();
    assert_eq!(set[0].op(), Some(SetOperation::Del));
    assert_eq!(set[1].op(), Some(SetOperation::Add));
}

#[test]
fn empty_collection_has_no_records() {
    let workspace = Workspace::open(create_test_workspace());
    assert!(workspace.remote().walk("coll").unwrap().is_empty());
    assert!(workspace.remote().latest("coll").unwrap().is_none());
    assert!(workspace.remote().walk_set("coll").unwrap().is_empty());
    assert!(workspace.remote().set_get_all("coll").unwrap().is_empty());
    assert!(workspace.remote().get_record("nothing").unwrap().is_none());
}

#[test]
fn record_carries_author_and_time() {
    let mut workspace = Workspace::open(create_test_workspace());
    let builder = workspace.remote().record_builder("coll");
    let commit = workspace.remote.commit_at(builder, "test", 1234);
    assert_eq!(commit.author(), "Max Mustermann");
    assert_eq!(commit.email(), "max@example.com");
    assert_eq!(commit.timestamp(), 1234);
    let found = workspace
        .remote()
        .get_record(&commit.id())
        .unwrap()
        .unwrap();
    assert_eq!(found.id(), commit.id());
    assert_eq!(found.message(), "test");
    assert_eq!(found.author(), "Max Mustermann");
    assert_eq!(found.email(), "max@example.com");
    assert_eq!(found.timestamp(), 1234);
}

#[test]
fn record_ids_are_digests_of_the_running_number() {
    let mut workspace = Workspace::open(create_test_workspace());
    let builder = workspace.remote().record_builder("coll");
    let first = workspace.remote.commit(builder, "a").unwrap();
    let builder = workspace.remote().record_builder("coll");
    let second = workspace.remote.commit(builder, "a").unwrap();
    // SHA-256 of "MINIMAPINMEMORY::1::MINIMAPINMEMORY" and of the same with 2.
    assert_eq!(
        first.id(),
        "8c8b65fb1b10bc0f6d341b2d8db6edab08c7fbce3df9934c30d03ff570d05e2d"
    );
    assert_eq!(
        second.id(),
        "6a2347723832f3b6c758a26af6c06f61c2529fde0c02980b2c6ba3c7b45978fe"
    );
    assert!(first.timestamp() >= 0);
    for _ in 2..9 {
        let builder = workspace.remote().record_builder("other");
        workspace.remote.commit(builder, "a").unwrap();
    }
    // the running number is written in hexadecimal: the tenth record has the number a
    let builder = workspace.remote().record_builder("coll");
    let tenth = workspace.remote.commit(builder, "a").unwrap();
    assert_eq!(
        tenth.id(),
        "f47e6e79b186ef5ea860c79adc66c3f817e447b719cdff4c782ce7ea297ae69c"
    );
}

#[test]
fn attachments_follow_the_builder() {
    let mut workspace = Workspace::open(create_test_workspace());
    let builder = workspace
        .remote()
        .record_builder("coll")
        .upsert_attachment("a", b"first")
        .unwrap()
        .upsert_attachment("b", b"second")
        .unwrap()
        .upsert_attachment("a", b"third")
        .unwrap();
    let one = workspace.remote.commit(builder, "one").unwrap();
    assert_eq!(
        workspace.remote().attachment(&one, "a").unwrap().unwrap(),
        b"third"
    );
    assert_eq!(
        workspace.remote().attachment(&one, "b").unwrap().unwrap(),
        b"second"
    );
    assert!(workspace.remote().attachment(&one, "c").unwrap().is_none());

    let builder = workspace
        .remote()
        .record_builder("coll")
        .remove_attachment("b")
        .unwrap();
    let two = workspace.remote.commit(builder, "two").unwrap();
    assert!(workspace.remote().attachment(&two, "b").unwrap().is_none());
    assert_eq!(
        workspace.remote().attachment(&two, "a").unwrap().unwrap(),
        b"third"
    );
    // the older record still has what it had
    assert_eq!(
        workspace.remote().attachment(&one, "b").unwrap().unwrap(),
        b"second"
    );
}

#[test]
fn walking_a_plain_collection_as_a_set_fails() {
    let mut workspace = Workspace::open(create_test_workspace());
    workspace.remote.set_add_unchecked("coll", "a").unwrap();
    let builder = workspace.remote().record_builder("coll");
    workspace.remote.commit(builder, "plain").unwrap();
    assert!(matches!(
        workspace.remote().walk_set("coll"),
        Err(minimap_core::Error::Malformed(_))
    ));
    assert!(workspace.remote().set_find("coll", "a").is_err());
    let mut it = workspace.remote().iter_set("coll");
    assert!(it.next(workspace.remote()).unwrap().is_err());
    let (record, op) = it.next(workspace.remote()).unwrap().unwrap();
    assert_eq!(record.message(), "a");
    assert_eq!(op, SetOperation::Add);
    assert!(it.next(workspace.remote()).is_none());
}

#[test]
fn builder_carries_the_set_operation() {
    let mut workspace = Workspace::open(create_test_workspace());
    let builder = MemoryRecordBuilder::new("coll".to_string()).op(SetOperation::Del);
    let deleted = workspace.remote.commit(builder, "x").unwrap();
    assert_eq!(deleted.op(), Some(SetOperation::Del));
    let builder = MemoryRecordBuilder::new("coll".to_string())
        .op(SetOperation::Del)
        .op(SetOperation::Add);
    let added = workspace.remote.commit(builder, "x").unwrap();
    assert_eq!(added.op(), Some(SetOperation::Add));
    let walk = workspace.remote().walk_set("coll").unwrap();
    assert_eq!(walk.len(), 2);
    assert_eq!(walk[0].1, SetOperation::Add);
    assert_eq!(walk[1].1, SetOperation::Del);
    let copy = added.clone();
    assert_eq!(copy, added);
    assert_eq!(copy.message(), "x");
    assert_eq!(copy.parent(), Some(deleted.id()));
}
