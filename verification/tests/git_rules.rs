use minimap_core::git::{
    branch_ref, classify_commit, clone_dir_name, commit_parents, needs_push, note_push_update,
    push_outcome, push_refspec, reflog_message, sentinel_tag, tag_ref, walk_set_commits,
    Bootstrap, BootstrapAction, CommitAction, CommitInfo, CommitProgress, SetCommit, TagState,
};
use minimap_core::{Error, SetOperation};

const ADD: &str = "1111111111111111111111111111111111111111";
const DEL: &str = "2222222222222222222222222222222222222222";
const HEAD: &str = "3333333333333333333333333333333333333333";
const SELF: &str = "4444444444444444444444444444444444444444";

fn ids(v: &[&str]) -> Vec<String> {
    v.iter().map(|s| s.to_string()).collect()
}

#[test]
fn refs_are_named_after_collections_and_tags() {
    assert_eq!(
        branch_ref("project/FOO/ticket/3/comment"),
        "refs/heads/project/FOO/ticket/3/comment"
    );
    assert_eq!(tag_ref("meta/+"), "refs/tags/meta/+");
    assert_eq!(tag_ref(sentinel_tag(SetOperation::Del)), "refs/tags/meta/-");
    assert_eq!(sentinel_tag(SetOperation::Add), "meta/+");
    assert_eq!(
        push_refspec(SELF, "refs/heads/coll"),
        "4444444444444444444444444444444444444444:refs/heads/coll"
    );
    assert_eq!(
        reflog_message(SELF),
        "commit: 4444444444444444444444444444444444444444"
    );
}

#[test]
fn clone_directory_is_the_digest_of_the_address() {
    assert_eq!(
        clone_dir_name("file:///tmp/minimap-test/remote"),
        "cc8abf9eb61ab0225fa05b0e520a61a91a1f428a90ef689361b5861a9a9b8dfb"
    );
    assert_eq!(
        clone_dir_name(""),
        "e3b0c44298fc1c149afbf4c8996fb92427ae41e4649b934ca495991b7852b855"
    );
}

#[test]
fn sentinels_are_pushed_when_one_was_created() {
    assert!(!needs_push(false, false));
    assert!(needs_push(true, false));
    assert!(needs_push(false, true));
    assert!(needs_push(true, true));
}

#[test]
fn parents_are_head_then_sentinel() {
    assert_eq!(commit_parents(None, None, ADD, DEL), Vec::<String>::new());
    assert_eq!(
        commit_parents(Some(HEAD.to_string()), None, ADD, DEL),
        ids(&[HEAD])
    );
    assert_eq!(
        commit_parents(None, Some(SetOperation::Add), ADD, DEL),
        ids(&[ADD])
    );
    assert_eq!(
        commit_parents(Some(HEAD.to_string()), Some(SetOperation::Add), ADD, DEL),
        ids(&[HEAD, ADD])
    );
    assert_eq!(
        commit_parents(Some(HEAD.to_string()), Some(SetOperation::Del), ADD, DEL),
        ids(&[HEAD, DEL])
    );
}

#[test]
fn commits_of_a_set_are_classified() {
    assert_eq!(
        classify_commit(ADD, &ids(&[]), ADD, DEL).unwrap(),
        SetCommit::Sentinel
    );
    assert_eq!(
        classify_commit(DEL, &ids(&[HEAD, HEAD, HEAD]), ADD, DEL).unwrap(),
        SetCommit::Sentinel
    );
    assert_eq!(
        classify_commit(SELF, &ids(&[HEAD, ADD]), ADD, DEL).unwrap(),
        SetCommit::Entry(SetOperation::Add)
    );
    assert_eq!(
        classify_commit(SELF, &ids(&[HEAD, DEL]), ADD, DEL).unwrap(),
        SetCommit::Entry(SetOperation::Del)
    );
    assert_eq!(
        classify_commit(SELF, &ids(&[DEL]), ADD, DEL).unwrap(),
        SetCommit::Entry(SetOperation::Del)
    );
    // the first sentinel among the parents decides
    assert_eq!(
        classify_commit(SELF, &ids(&[DEL, ADD]), ADD, DEL).unwrap(),
        SetCommit::Entry(SetOperation::Del)
    );
    match classify_commit(SELF, &ids(&[]), ADD, DEL) {
        Err(Error::Malformed(what)) => assert_eq!(
            what,
            "commit 4444444444444444444444444444444444444444 has 0 parents, expected 2"
        ),
        _ => panic!("a commit without parents was taken for a record"),
    }
    match classify_commit(SELF, &ids(&[HEAD, ADD, DEL]), ADD, DEL) {
        Err(Error::Malformed(what)) => assert_eq!(
            what,
            "commit 4444444444444444444444444444444444444444 has 3 parents, expected 2"
        ),
        _ => panic!("a commit with three parents was taken for a record"),
    }
    match classify_commit(SELF, &ids(&[HEAD]), ADD, DEL) {
        Err(Error::Malformed(what)) => assert_eq!(
            what,
            "commit 4444444444444444444444444444444444444444 is missing an operator tag parent"
        ),
        _ => panic!("a plain commit was taken for a record of a set"),
    }
}

#[test]
fn push_reports_decide_the_outcome() {
    let target = "refs/heads/coll";
    match push_outcome("coll", None) {
        Err(Error::NotPushed(b)) => assert_eq!(b, "coll"),
        _ => panic!("a push without a report was taken for done"),
    }
    let seen = note_push_update(None, "refs/heads/other", target, None);
    assert_eq!(seen, None);
    let seen = note_push_update(seen, target, target, Some("non-fast-forward"));
    assert_eq!(seen, Some(Some("non-fast-forward".to_string())));
    match push_outcome("coll", seen.clone()) {
        Err(Error::PushFailed(b, why)) => {
            assert_eq!(b, "coll");
            assert_eq!(why, "non-fast-forward");
        }
        _ => panic!("a refused push was taken for done"),
    }
    let seen = note_push_update(seen, "refs/heads/other", target, None);
    assert_eq!(seen, Some(Some("non-fast-forward".to_string())));
    let seen = note_push_update(seen, target, target, None);
    assert_eq!(seen, Some(None));
    assert!(push_outcome("coll", seen).is_ok());
}

fn info(id: &str, parents: &[&str]) -> CommitInfo {
    CommitInfo {
        id: id.to_string(),
        parents: ids(parents),
    }
}

#[test]
fn walk_of_a_set_passes_over_sentinels() {
    let commits = vec![
        info("c3", &["c2", DEL]),
        info("c2", &["c1", ADD]),
        info("c1", &[ADD]),
        info(ADD, &[]),
    ];
    assert_eq!(
        walk_set_commits(&commits, ADD, DEL).unwrap(),
        vec![
            (0, SetOperation::Del),
            (1, SetOperation::Add),
            (2, SetOperation::Add)
        ]
    );
    assert_eq!(walk_set_commits(&Vec::new(), ADD, DEL).unwrap(), vec![]);
    let broken = vec![
        info("c3", &["c2", DEL]),
        info("c2", &["c1"]),
        info("c1", &[]),
    ];
    match walk_set_commits(&broken, ADD, DEL) {
        Err(Error::Malformed(what)) => {
            assert_eq!(what, "commit c2 is missing an operator tag parent")
        }
        _ => panic!("a plain commit was walked as a record of a set"),
    }
}

#[test]
fn sentinels_are_looked_up_created_and_pushed() {
    let mut state = Bootstrap::new();
    match state.next() {
        BootstrapAction::Lookup(op, name) => {
            assert_eq!(op, SetOperation::Add);
            assert_eq!(name, "refs/tags/meta/+");
        }
        _ => panic!("the first tag was not looked up first"),
    }
    state.add = TagState::Missing;
    match state.next() {
        BootstrapAction::Create(op, name) => {
            assert_eq!(op, SetOperation::Add);
            assert_eq!(name, "meta/+");
        }
        _ => panic!("a missing tag was not created"),
    }
    state.add = TagState::Known(ADD.to_string(), true);
    match state.next() {
        BootstrapAction::Lookup(op, name) => {
            assert_eq!(op, SetOperation::Del);
            assert_eq!(name, "refs/tags/meta/-");
        }
        _ => panic!("the second tag was not looked up"),
    }
    state.del = TagState::Missing;
    match state.next() {
        BootstrapAction::Create(op, name) => {
            assert_eq!(op, SetOperation::Del);
            assert_eq!(name, "meta/-");
        }
        _ => panic!("a missing tag was not created"),
    }
    state.del = TagState::Known(DEL.to_string(), false);
    match state.next() {
        BootstrapAction::Push(add, del) => {
            assert_eq!(add, "refs/tags/meta/+");
            assert_eq!(del, "refs/tags/meta/-");
        }
        _ => panic!("created tags were not pushed"),
    }
    state.pushed = true;
    match state.next() {
        BootstrapAction::Ready(add, del) => {
            assert_eq!(add, ADD);
            assert_eq!(del, DEL);
        }
        _ => panic!("the sentinels were not ready after the push"),
    }
    // tags that were there are not pushed
    let found = Bootstrap {
        add: TagState::Known(ADD.to_string(), false),
        del: TagState::Known(DEL.to_string(), false),
        pushed: false,
    };
    assert!(matches!(found.next(), BootstrapAction::Ready(_, _)));
}

#[test]
fn commit_moves_the_branch_only_after_the_push_was_taken() {
    let mut progress = CommitProgress::new("coll", Some(SetOperation::Add), ADD, DEL);
    match progress.next().unwrap() {
        CommitAction::ResolveHead(target) => assert_eq!(target, "refs/heads/coll"),
        _ => panic!("the head was not resolved first"),
    }
    progress.head = Some(Some(HEAD.to_string()));
    match progress.next().unwrap() {
        CommitAction::BuildTree(base) => assert_eq!(base, Some(HEAD.to_string())),
        _ => panic!("the tree was not built on the head"),
    }
    progress.tree = Some("tree".to_string());
    match progress.next().unwrap() {
        CommitAction::CreateCommit(tree, parents) => {
            assert_eq!(tree, "tree");
            assert_eq!(parents, ids(&[HEAD, ADD]));
        }
        _ => panic!("the commit was not created"),
    }
    progress.commit = Some(SELF.to_string());
    match progress.next().unwrap() {
        CommitAction::Push(refspec, target) => {
            assert_eq!(
                refspec,
                "4444444444444444444444444444444444444444:refs/heads/coll"
            );
            assert_eq!(target, "refs/heads/coll");
        }
        _ => panic!("the commit was not pushed"),
    }
    progress.pushed = true;
    match progress.next() {
        Err(Error::NotPushed(branch)) => assert_eq!(branch, "coll"),
        _ => panic!("a push without a report moved on"),
    }
    progress.report = Some(Some("rejected".to_string()));
    match progress.next() {
        Err(Error::PushFailed(branch, why)) => {
            assert_eq!(branch, "coll");
            assert_eq!(why, "rejected");
        }
        _ => panic!("a refused push moved on"),
    }
    progress.report = Some(None);
    match progress.next().unwrap() {
        CommitAction::MoveBranch(target, commit, message) => {
            assert_eq!(target, "refs/heads/coll");
            assert_eq!(commit, SELF);
            assert_eq!(
                message,
                "commit: 4444444444444444444444444444444444444444"
            );
        }
        _ => panic!("the branch was not moved after the push"),
    }
    progress.moved = true;
    match progress.next().unwrap() {
        CommitAction::Finish(commit) => assert_eq!(commit, SELF),
        _ => panic!("the commit did not finish"),
    }
    // the first commit of a plain collection has no parents
    let mut first = CommitProgress::new("coll", None, ADD, DEL);
    first.head = Some(None);
    assert!(matches!(first.next().unwrap(), CommitAction::BuildTree(None)));
    first.tree = Some("tree".to_string());
    match first.next().unwrap() {
        CommitAction::CreateCommit(_, parents) => assert!(parents.is_empty()),
        _ => panic!("the commit was not created"),
    }
}
