use flotilla_core::ordered::OrderedMap;
use flotilla_core::terminals::{
    managed_terminal_changes, owner_of_directory, refresh_managed_terminals, terminals_of_repository, FoundTerminal, ManagedTerminal, OwnedRoot, PaneExitAttention, TerminalChange, TerminalOp, TerminalStatus,
};

fn only(key: &str, terminal: ManagedTerminal) -> OrderedMap<ManagedTerminal> {
    let mut map = OrderedMap::new();
    map.insert(key.to_string(), terminal);
    map
}

fn server() -> ManagedTerminal {
    ManagedTerminal {
        set_id: "set-1".to_string(),
        role: "server".to_string(),
        command: "npm start".to_string(),
        working_directory: "/work/flotilla".to_string(),
        status: TerminalStatus::Running,
        attention: None,
    }
}

fn root(repo: usize, parts: &[&str]) -> OwnedRoot {
    OwnedRoot { repo, parts: parts.iter().map(|part| part.to_string()).collect() }
}

fn path(parts: &[&str]) -> Vec<String> {
    parts.iter().map(|part| part.to_string()).collect()
}

#[test]
fn managed_terminal_changes_are_field_scoped_and_deduplicated() {
    let id = "pane-1".to_string();
    let running = server();
    let current = Some(only("pane-1", running.copy()));
    assert!(matches!(
        managed_terminal_changes(&None, current.as_ref().expect("map")).as_slice(),
        [TerminalChange { key, op: TerminalOp::Added(terminal) }] if key == &id && terminal == &running
    ));
    assert!(managed_terminal_changes(&current, current.as_ref().expect("map")).is_empty());

    let mut exited = running;
    exited.status = TerminalStatus::Exited(7);
    exited.attention = Some(PaneExitAttention { exit_code: 7 });
    let updated = Some(only("pane-1", exited.copy()));
    assert!(matches!(
        managed_terminal_changes(&current, updated.as_ref().expect("map")).as_slice(),
        [TerminalChange { key, op: TerminalOp::Updated(terminal) }] if key == &id && terminal == &exited
    ));
    assert!(matches!(
        managed_terminal_changes(&updated, &OrderedMap::new()).as_slice(),
        [TerminalChange { key, op: TerminalOp::Removed }] if key == &id
    ));
}

#[test]
fn changes_lead_from_one_set_of_terminals_to_the_next() {
    let mut before = only("gone", server());
    before.insert("kept".to_string(), server());
    let mut after = only("kept", server());
    after.insert("new".to_string(), server());
    let changes = managed_terminal_changes(&Some(before), &after);
    assert_eq!(
        changes,
        vec![
            TerminalChange { key: "new".to_string(), op: TerminalOp::Added(server()) },
            TerminalChange { key: "gone".to_string(), op: TerminalOp::Removed },
        ]
    );
}

#[test]
fn the_deepest_root_owns_a_directory() {
    let roots = vec![root(0, &["/", "work"]), root(1, &["/", "work", "app"]), root(2, &["/", "else"])];
    assert_eq!(owner_of_directory(&roots, &path(&["/", "work", "app", "src"])), Some(1));
    assert_eq!(owner_of_directory(&roots, &path(&["/", "work", "apple"])), Some(0));
    assert_eq!(owner_of_directory(&roots, &path(&["/", "home"])), None);
}

#[test]
fn a_terminal_is_shown_by_the_repository_it_lies_in() {
    let roots = vec![root(0, &["work"]), root(1, &["work", "app"])];
    let found = vec![
        FoundTerminal { id: "outer".to_string(), directory: path(&["work", "docs"]), terminal: server() },
        FoundTerminal { id: "inner".to_string(), directory: path(&["work", "app", "src"]), terminal: server() },
        FoundTerminal { id: "nowhere".to_string(), directory: path(&["tmp"]), terminal: server() },
    ];
    assert!(terminals_of_repository(&found, &roots, 0).get("outer").is_some());
    assert!(terminals_of_repository(&found, &roots, 0).get("inner").is_none());
    let (first, changes) = refresh_managed_terminals(&None, &found, &roots, 1);
    assert_eq!(first.len(), 1);
    assert!(matches!(changes.as_slice(), [TerminalChange { key, op: TerminalOp::Added(_) }] if key == "inner"));
    let (_, again) = refresh_managed_terminals(&Some(first), &found, &roots, 1);
    assert!(again.is_empty());
}
