use minimap_core::{Error, MemoryWorkspace, Record, Remote, TicketState, Workspace};

fn create_test_workspace() -> MemoryWorkspace {
    MemoryWorkspace::new("Max Mustermann", "max@example.com")
}

#[test]
fn test_workspace() {
    let mut workspace = Workspace::open(create_test_workspace());

    assert_eq!(workspace.name().unwrap(), None);
    assert_eq!(workspace.description().unwrap(), None);
    workspace.set_name("test").unwrap();
    assert_eq!(workspace.name().unwrap().unwrap().message(), "test");
    workspace.set_description("test").unwrap();
    assert_eq!(workspace.description().unwrap().unwrap().message(), "test");
}

#[test]
fn test_project() {
    let mut workspace = Workspace::open(create_test_workspace());

    let project = workspace.create_project("test").unwrap().unwrap();
    assert_eq!(project.name(&workspace).unwrap(), None);
    assert_eq!(project.description(&workspace).unwrap(), None);

    assert!(workspace.create_project("test").unwrap().is_err());

    let record = project.set_name(&mut workspace, "test").unwrap();
    assert_eq!(record.message(), "test");
    let record = project
        .set_description(&mut workspace, "test description")
        .unwrap();
    assert_eq!(record.message(), "test description");

    workspace.delete_project("test").unwrap().unwrap();
    workspace.delete_project("test").unwrap().unwrap_err();

    workspace.create_project("test").unwrap().unwrap();
    assert!(workspace.create_project("test").unwrap().is_err());
}

#[test]
fn test_ticket() {
    let mut workspace = Workspace::open(create_test_workspace());

    let project = workspace.create_project("test").unwrap().unwrap();
    let ticket = project.create_ticket(&mut workspace).unwrap();
    assert_eq!(ticket.id(), 1);
    assert_eq!(ticket.slug(), "test-1");
    assert_eq!(ticket.title(&workspace).unwrap(), None);

    ticket.set_title(&mut workspace, "test title").unwrap();
    assert_eq!(
        ticket.title(&workspace).unwrap().unwrap().message(),
        "test title"
    );

    let ticket2 = project.create_ticket(&mut workspace).unwrap();
    assert_eq!(ticket2.id(), 2);
    assert_eq!(ticket2.slug(), "test-2");
    assert_eq!(ticket2.title(&workspace).unwrap(), None);

    let ticket3 = project.create_ticket(&mut workspace).unwrap();
    assert_eq!(ticket3.id(), 3);
    assert_eq!(ticket3.slug(), "test-3");
    assert_eq!(ticket3.title(&workspace).unwrap(), None);

    ticket3.set_title(&mut workspace, "test title 3").unwrap();
    assert_eq!(
        ticket3.title(&workspace).unwrap().unwrap().message(),
        "test title 3"
    );

    // make sure that we didn't overwrite ticket 1 or something
    assert_eq!(
        ticket.title(&workspace).unwrap().unwrap().message(),
        "test title"
    );
}

#[test]
fn test_ticket_slug() {
    let mut workspace = Workspace::open(create_test_workspace());

    let project = workspace.create_project("test").unwrap().unwrap();
    let ticket = project.create_ticket(&mut workspace).unwrap();
    assert_eq!(ticket.id(), 1);
    assert_eq!(ticket.slug(), "test-1");
    assert_eq!(ticket.title(&workspace).unwrap(), None);

    ticket.set_title(&mut workspace, "test title").unwrap();
    assert_eq!(
        ticket.title(&workspace).unwrap().unwrap().message(),
        "test title"
    );

    // now try to fetch that ticket from the project
    let ticket2 = project.ticket(&workspace, 1).unwrap();
    assert_eq!(ticket2.id(), 1);
    assert_eq!(ticket2.slug(), "test-1");
    assert_eq!(
        ticket2.title(&workspace).unwrap().unwrap().message(),
        "test title"
    );

    // and now try to fetch it from the workspace
    let ticket3 = workspace.ticket("test-1").unwrap();
    assert_eq!(ticket3.id(), 1);
    assert_eq!(ticket3.slug(), "test-1");
    assert_eq!(
        ticket3.title(&workspace).unwrap().unwrap().message(),
        "test title"
    );
}

#[test]
fn test_ticket_comment() {
    let mut workspace = Workspace::open(create_test_workspace());

    let project = workspace.create_project("test").unwrap().unwrap();
    let ticket = project.create_ticket(&mut workspace).unwrap();
    assert_eq!(ticket.id(), 1);
    assert_eq!(ticket.slug(), "test-1");
    assert_eq!(ticket.title(&workspace).unwrap(), None);

    let comment = ticket.add_comment(&mut workspace, "test comment").unwrap();
    assert_eq!(comment.message(), "test comment");

    let comment2 = ticket
        .add_comment(&mut workspace, "test comment 2")
        .unwrap();
    assert_eq!(comment2.message(), "test comment 2");

    // now iterate over the comments and make sure they're in the right order
    let comments = ticket.comments(&workspace).unwrap();
    assert_eq!(comments.len(), 2);
    assert_eq!(comments[0].message(), "test comment 2");
    assert_eq!(comments[1].message(), "test comment");
}

#[test]
fn test_ticket_comment_attachment() {
    let mut workspace = Workspace::open(create_test_workspace());

    let project = workspace.create_project("test").unwrap().unwrap();
    let ticket = project.create_ticket(&mut workspace).unwrap();
    assert_eq!(ticket.id(), 1);

    assert!(ticket.attachment(&workspace, "test").unwrap().is_none());

    ticket
        .upsert_attachment(&mut workspace, "test", b"test attachment")
        .unwrap();

    let attachment = ticket.attachment(&workspace, "test").unwrap().unwrap();
    assert_eq!(attachment, b"test attachment");
}

#[test]
fn test_ticket_state() {
    let mut workspace = Workspace::open(create_test_workspace());

    let project = workspace.create_project("test").unwrap().unwrap();
    let ticket = project.create_ticket(&mut workspace).unwrap();
    assert_eq!(ticket.id(), 1);
    assert_eq!(ticket.slug(), "test-1");
    assert_eq!(ticket.title(&workspace).unwrap(), None);

    let (state, maybe_record) = ticket.state(&workspace).unwrap();
    assert_eq!(state, TicketState::Open);
    assert!(maybe_record.is_none());
    assert!(ticket.is_open(&workspace).unwrap());
    assert!(!ticket.is_closed(&workspace).unwrap());

    let record = ticket.set_state(&mut workspace, TicketState::Closed).unwrap();
    let (state, maybe_record) = ticket.state(&workspace).unwrap();
    assert_eq!(state, TicketState::Closed);
    assert_eq!(maybe_record.unwrap().id(), record.id());
    assert!(!ticket.is_open(&workspace).unwrap());
    assert!(ticket.is_closed(&workspace).unwrap());

    let record = ticket.set_state(&mut workspace, TicketState::Open).unwrap();
    let (state, maybe_record) = ticket.state(&workspace).unwrap();
    assert_eq!(state, TicketState::Open);
    assert_eq!(maybe_record.unwrap().id(), record.id());
    assert!(ticket.is_open(&workspace).unwrap());
    assert!(!ticket.is_closed(&workspace).unwrap());

    // create a second ticket and make sure its state changes
    // don't affect the first ticket's.
    let ticket2 = project.create_ticket(&mut workspace).unwrap();
    assert_eq!(ticket2.id(), 2);
    assert_eq!(ticket2.slug(), "test-2");
    assert!(ticket2.is_open(&workspace).unwrap());

    ticket2.set_state(&mut workspace, TicketState::Closed).unwrap();
    assert!(ticket2.is_closed(&workspace).unwrap());
    assert!(ticket.is_open(&workspace).unwrap());

    ticket2.set_state(&mut workspace, TicketState::Open).unwrap();
    assert!(ticket2.is_open(&workspace).unwrap());
    assert!(ticket.is_open(&workspace).unwrap());

    ticket.set_state(&mut workspace, TicketState::Closed).unwrap();
    assert!(ticket2.is_open(&workspace).unwrap());
    assert!(ticket.is_closed(&workspace).unwrap());
}

#[test]
fn test_ticket_dependency() {
    let mut workspace = Workspace::open(create_test_workspace());

    let project = workspace.create_project("test").unwrap().unwrap();
    let ticket = project.create_ticket(&mut workspace).unwrap();

    let record1 = ticket.add_dependency(&mut workspace, "_", "foo-1").unwrap();
    let record2 = ticket.add_dependency(&mut workspace, "ext", "foo-1").unwrap();

    assert_ne!(record1.id(), record2.id());

    let record3 = ticket.add_dependency(&mut workspace, "_", "foo-1").unwrap();
    let record4 = ticket.add_dependency(&mut workspace, "_", "foo-2").unwrap();

    assert_eq!(record3.id(), record1.id());
    assert_ne!(record4.id(), record1.id());

    let record5 = ticket.add_dependency(&mut workspace, "ext", "foo-1").unwrap();
    let record6 = ticket.add_dependency(&mut workspace, "ext", "foo-2").unwrap();
    assert_eq!(record5.id(), record2.id());
    assert_ne!(record6.id(), record2.id());

    let record7 = ticket
        .add_dependency(&mut workspace, "invalid@foo", "baz")
        .unwrap_err();
    match record7 {
        Error::MalformedOrigin(m) => assert_eq!(m, "invalid@foo".to_string()),
        _ => panic!("unexpected error: {:?}", record7),
    }

    let record8 = ticket
        .remove_dependency(&mut workspace, "_", "foo-2")
        .unwrap();
    assert!(record8.is_some());

    let record9 = ticket
        .remove_dependency(&mut workspace, "_", "foo-none")
        .unwrap();
    assert!(record9.is_none());

    let record10 = ticket
        .remove_dependency(&mut workspace, "ext", "foo-2")
        .unwrap();
    assert!(record10.is_some());

    // now go through the dependencies and make sure all the ones we didn't remove
    // are still there.
    let deps = ticket.dependencies(&workspace).unwrap();
    assert_eq!(deps.len(), 2);
    assert!(deps.contains(&("_".to_string(), "foo-1".to_string())));
    assert!(deps.contains(&("ext".to_string(), "foo-1".to_string())));
}

#[test]
fn test_subprojects() {
    let mut workspace = Workspace::open(create_test_workspace());

    let project = workspace.create_project("test").unwrap().unwrap();
    let subproject = project
        .create_project(&mut workspace, "sub")
        .unwrap()
        .unwrap();
    let ticket = project.create_ticket(&mut workspace).unwrap();
    let subticket = subproject.create_ticket(&mut workspace).unwrap();

    assert_eq!(ticket.id(), 1);
    assert_eq!(subticket.id(), 1);

    assert!(project.parent(&workspace).unwrap().is_none());
    assert!(subproject.parent(&workspace).unwrap().is_some());
    assert_eq!(
        subproject.parent(&workspace).unwrap().unwrap().slug(),
        "test"
    );

    assert_eq!(subproject.slug(), "sub");

    assert_eq!(workspace.ticket("sub-1").unwrap().slug(), "sub-1");
}

#[test]
fn project_lifecycle() {
    let mut workspace = Workspace::open(create_test_workspace());
    assert!(workspace.create_project("TEST").unwrap().is_ok());
    let existing = workspace.create_project("TEST").unwrap().err().unwrap();
    assert_eq!(existing.message(), "TEST");
    let deleted = workspace.delete_project("TEST").unwrap().unwrap();
    assert_eq!(deleted.message(), "TEST");
    assert!(matches!(workspace.project("TEST"), Err(Error::NotFound(k, s)) if k == "meta/projects" && s == "TEST"));
    assert!(workspace.create_project("TEST").unwrap().is_ok());
    assert_eq!(workspace.project("TEST").unwrap().slug(), "TEST");
}

#[test]
fn deleted_project_keeps_its_tickets() {
    let mut workspace = Workspace::open(create_test_workspace());
    let project = workspace.create_project("TEST").unwrap().unwrap();
    let ticket = project.create_ticket(&mut workspace).unwrap();
    ticket.set_title(&mut workspace, "kept").unwrap();
    workspace.delete_project("TEST").unwrap().unwrap();
    assert!(workspace.ticket("TEST-1").is_err());
    let project = workspace.create_project("TEST").unwrap().unwrap();
    let again = workspace.ticket("TEST-1").unwrap();
    assert_eq!(again.title(&workspace).unwrap().unwrap().message(), "kept");
    assert_eq!(project.create_ticket(&mut workspace).unwrap().id(), 2);
}

#[test]
fn three_tickets_and_their_titles() {
    let mut workspace = Workspace::open(create_test_workspace());
    let project = workspace.create_project("TEST").unwrap().unwrap();
    let one = project.create_ticket(&mut workspace).unwrap();
    let two = project.create_ticket(&mut workspace).unwrap();
    let three = project.create_ticket(&mut workspace).unwrap();
    assert_eq!(one.slug(), "TEST-1");
    assert_eq!(two.slug(), "TEST-2");
    assert_eq!(three.slug(), "TEST-3");
    two.set_title(&mut workspace, "hello").unwrap();
    assert!(one.title(&workspace).unwrap().is_none());
    assert_eq!(two.title(&workspace).unwrap().unwrap().message(), "hello");
}

#[test]
fn malformed_project_slugs_are_refused() {
    let mut workspace = Workspace::open(create_test_workspace());
    for slug in ["a/b", "a b", "tab\there", "line\nbreak", "/", " ", "nb\u{a0}sp"] {
        match workspace.create_project(slug) {
            Err(Error::MalformedProjectSlug(s)) => assert_eq!(s, slug),
            _ => panic!("slug accepted: {:?}", slug),
        }
        assert!(minimap_core::validate_project_slug(slug).is_err());
    }
    assert!(workspace.remote().latest("meta/projects").unwrap().is_none());
    assert!(minimap_core::validate_project_slug("lower-case_ok").is_ok());
    assert!(workspace.create_project("").unwrap().is_ok());
}

#[test]
fn setting_the_name_twice_commits_twice() {
    let mut workspace = Workspace::open(create_test_workspace());
    let first = workspace.set_name("x").unwrap();
    let second = workspace.set_name("x").unwrap();
    assert_ne!(first.id(), second.id());
    assert_eq!(first.message(), "x");
    assert_eq!(second.message(), "x");
    assert_eq!(workspace.name().unwrap().unwrap().id(), second.id());
    assert_eq!(workspace.remote().walk("meta/workspace/name").unwrap().len(), 2);
}

#[test]
fn comments_come_newest_first() {
    let mut workspace = Workspace::open(create_test_workspace());
    let project = workspace.create_project("TEST").unwrap().unwrap();
    let ticket = project.create_ticket(&mut workspace).unwrap();
    ticket.add_comment(&mut workspace, "a").unwrap();
    ticket.add_comment(&mut workspace, "b").unwrap();
    let comments = ticket.comments(&workspace).unwrap();
    let messages: Vec<String> = comments.iter().map(|c| c.message()).collect();
    assert_eq!(messages, vec!["b".to_string(), "a".to_string()]);
}

#[test]
fn attachment_upsert_and_remove() {
    let mut workspace = Workspace::open(create_test_workspace());
    let project = workspace.create_project("TEST").unwrap().unwrap();
    let ticket = project.create_ticket(&mut workspace).unwrap();
    let added = ticket
        .upsert_attachment(&mut workspace, "file", &[0x74, 0x65, 0x73, 0x74])
        .unwrap();
    assert_eq!(added.message(), "+file");
    assert_eq!(
        ticket.attachment(&workspace, "file").unwrap().unwrap(),
        vec![0x74, 0x65, 0x73, 0x74]
    );
    let removed = ticket.remote_attachment(&mut workspace, "file").unwrap();
    assert_eq!(removed.message(), "-file");
    assert!(ticket.attachment(&workspace, "file").unwrap().is_none());
    assert_eq!(
        workspace.remote().attachment(&added, "file").unwrap().unwrap(),
        vec![0x74, 0x65, 0x73, 0x74]
    );
}

#[test]
fn ticket_lookup_errors() {
    let mut workspace = Workspace::open(create_test_workspace());
    let project = workspace.create_project("TEST").unwrap().unwrap();
    project.create_ticket(&mut workspace).unwrap();
    assert!(matches!(workspace.ticket("nodash"), Err(Error::Malformed(s)) if s == "nodash"));
    assert!(matches!(workspace.ticket("TEST-x"), Err(Error::Malformed(s)) if s == "TEST-x"));
    assert!(matches!(workspace.ticket("TEST-"), Err(Error::Malformed(s)) if s == "TEST-"));
    assert!(matches!(workspace.ticket("NOPE-1"), Err(Error::NotFound(k, s)) if k == "meta/projects" && s == "NOPE"));
    // the project is looked up before the number is read
    assert!(matches!(workspace.ticket("NOPE-x"), Err(Error::NotFound(_, s)) if s == "NOPE"));
    assert!(matches!(workspace.ticket("TEST-2"), Err(Error::NotFound(k, s)) if k == "project/TEST/tickets" && s == "2"));
    assert!(matches!(project.ticket(&workspace, 7), Err(Error::NotFound(k, s)) if k == "project/TEST/tickets" && s == "7"));
    // the slug is split at its last dash, and the number is read as such
    let dashed = workspace.create_project("a-b").unwrap().unwrap();
    dashed.create_ticket(&mut workspace).unwrap();
    assert_eq!(workspace.ticket("a-b-1").unwrap().slug(), "a-b-1");
    assert_eq!(workspace.ticket("a-b-01").unwrap().slug(), "a-b-1");
    assert_eq!(workspace.ticket("a-b-+1").unwrap().id(), 1);
    assert!(workspace.ticket("TEST-18446744073709551616").is_err());
}

#[test]
fn malformed_state_is_reported() {
    let mut workspace = Workspace::open(create_test_workspace());
    let project = workspace.create_project("TEST").unwrap().unwrap();
    let ticket = project.create_ticket(&mut workspace).unwrap();
    let builder = workspace.remote().record_builder("project/TEST/ticket/1/state");
    workspace.remote.commit(builder, "half-open").unwrap();
    assert!(matches!(ticket.state(&workspace), Err(Error::Malformed(s)) if s == "project/TEST/ticket/1/state"));
    assert!(ticket.is_open(&workspace).is_err());
    assert!(matches!(TicketState::try_from("Open"), Err(Error::Malformed(s)) if s == "Open"));
    assert_eq!(TicketState::try_from("open").unwrap(), TicketState::Open);
    assert_eq!(TicketState::try_from("closed").unwrap(), TicketState::Closed);
}

#[test]
fn ticket_counter_protocol() {
    let mut workspace = Workspace::open(create_test_workspace());
    let project = workspace.create_project("TEST").unwrap().unwrap();
    assert_eq!(project.create_ticket(&mut workspace).unwrap().id(), 1);
    // a counter that ran ahead: the numbers between are skipped for good
    let builder = workspace.remote().record_builder("meta/project/TEST/ticket_counter");
    workspace.remote.commit(builder, "41").unwrap();
    assert_eq!(project.create_ticket(&mut workspace).unwrap().id(), 42);
    assert!(project.ticket(&workspace, 2).is_err());
    // a number that is in the set already: the counter went backwards
    let builder = workspace.remote().record_builder("meta/project/TEST/ticket_counter");
    workspace.remote.commit(builder, "0").unwrap();
    assert!(matches!(project.create_ticket(&mut workspace), Err(Error::Malformed(s)) if s == "project/TEST/tickets"));
    assert_eq!(
        workspace.remote().latest("meta/project/TEST/ticket_counter").unwrap().unwrap().message(),
        "1"
    );
    assert_eq!(project.create_ticket(&mut workspace).unwrap().id(), 2);
    // a counter that is no number
    let builder = workspace.remote().record_builder("meta/project/TEST/ticket_counter");
    workspace.remote.commit(builder, "many").unwrap();
    assert!(matches!(project.create_ticket(&mut workspace), Err(Error::Malformed(s)) if s == "meta/project/TEST/ticket_counter"));
    // a counter at its end
    let builder = workspace.remote().record_builder("meta/project/TEST/ticket_counter");
    workspace.remote.commit(builder, "18446744073709551615").unwrap();
    assert!(matches!(project.create_ticket(&mut workspace), Err(Error::Malformed(s)) if s == "meta/project/TEST/ticket_counter"));
    assert_eq!(
        workspace.remote().latest("meta/project/TEST/ticket_counter").unwrap().unwrap().message(),
        "18446744073709551615"
    );
}

#[test]
fn bad_origin_is_refused() {
    let mut workspace = Workspace::open(create_test_workspace());
    let project = workspace.create_project("TEST").unwrap().unwrap();
    let ticket = project.create_ticket(&mut workspace).unwrap();
    match ticket.add_dependency(&mut workspace, "bad@origin", "x") {
        Err(Error::MalformedOrigin(origin)) => assert_eq!(origin, "bad@origin"),
        _ => panic!("a dependency on a malformed origin was added"),
    }
    match ticket.remove_dependency(&mut workspace, "bad@origin", "x") {
        Err(Error::MalformedOrigin(origin)) => assert_eq!(origin, "bad@origin"),
        _ => panic!("a dependency on a malformed origin was removed"),
    }
    assert!(ticket.dependencies(&workspace).unwrap().is_empty());
    assert!(workspace
        .remote()
        .walk("project/TEST/ticket/1/dependencies")
        .unwrap()
        .is_empty());
}

#[test]
fn ticket_numbers_only_grow() {
    let mut workspace = Workspace::open(create_test_workspace());
    let project = workspace.create_project("TEST").unwrap().unwrap();
    let other = workspace.create_project("OTHER").unwrap().unwrap();
    let mut last = 0;
    for round in 0..12 {
        if round % 4 == 3 {
            // a number that is spent: the set of tickets has it already
            workspace
                .remote
                .set_add_unchecked("project/TEST/tickets", &(last + 1).to_string())
                .unwrap();
            assert!(project.create_ticket(&mut workspace).is_err());
            last += 1;
        } else {
            let id = project.create_ticket(&mut workspace).unwrap().id();
            assert!(id > last);
            if round == 0 {
                assert_eq!(id, 1);
            }
            last = id;
        }
    }
    assert_eq!(last, 12);
    assert_eq!(other.create_ticket(&mut workspace).unwrap().id(), 1);
}
