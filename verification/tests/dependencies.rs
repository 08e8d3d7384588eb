use minimap_core::{
    DependencyOrigin, DependencyRegistry, DependencyStatus, MemoryWorkspace, TicketState,
    Workspace,
};

fn create_test_workspace() -> MemoryWorkspace {
    MemoryWorkspace::new("Max Mustermann", "max@example.com")
}

/// An origin that knows nothing: every lookup fails.
struct NoOrigin(&'static str);

impl DependencyOrigin for NoOrigin {
    fn slug(&self) -> &str {
        self.0
    }

    fn status(&self, endpoint: &str) -> Result<DependencyStatus, String> {
        Err(format!("no such endpoint: {}", endpoint))
    }
}

#[test]
fn test_self_dependencies() {
    let mut workspace = Workspace::open(create_test_workspace());

    let project = workspace.create_project("test").unwrap().unwrap();
    let ticket = project.create_ticket(&mut workspace).unwrap();
    let ticket2 = project.create_ticket(&mut workspace).unwrap();
    assert_eq!(ticket.id(), 1);
    assert_eq!(ticket2.id(), 2);

    ticket.add_dependency(&mut workspace, "_", "test-2").unwrap();

    let deps = ticket.dependencies(&workspace).unwrap();
    assert_eq!(deps.len(), 1);
    assert!(deps.contains(&("_".to_string(), "test-2".to_string())));

    let deps = ticket2.dependencies(&workspace).unwrap();
    assert_eq!(deps.len(), 0);

    let registry = DependencyRegistry::new(NoOrigin("minimap"));
    let mut found = false;
    let mut it = ticket.resolve_dependencies(&workspace).unwrap();
    while let Some(item) = it.next(&workspace, &registry) {
        let (origin, endpoint, status) = item.unwrap();
        assert!(!found);
        found = true;
        assert_eq!(origin, "_");
        assert_eq!(endpoint, "test-2");
        assert_eq!(status, DependencyStatus::Pending);
    }
    assert!(found);

    ticket2.set_state(&mut workspace, TicketState::Closed).unwrap();

    let mut found = false;
    let mut it = ticket.resolve_dependencies(&workspace).unwrap();
    while let Some(item) = it.next(&workspace, &registry) {
        let (origin, endpoint, status) = item.unwrap();
        assert!(!found);
        found = true;
        assert_eq!(origin, "_");
        assert_eq!(endpoint, "test-2");
        assert_eq!(status, DependencyStatus::Complete);
    }
    assert!(found);
}
