use std::hash::{Hash, Hasher};

use mdv::bus::{active_commands, reload_step, should_publish_reload, BusEvent, RemoteCommand, SubscriberStep};
use mdv::page::{workspace_list, workspace_view_url};
use mdv::workspace::{generate_workspace_id, workspace_id_with_hash, workspace_name, SyncError, WorkspaceRegistry};

fn expected_id(name: &str, root: &str) -> String {
    let mut h = std::collections::hash_map::DefaultHasher::new();
    std::path::Path::new(root).hash(&mut h);
    format!("{}-{:x}", name, h.finish() & 0xFFFF)
}

#[test]
fn workspace_id_is_name_dash_short_hash() {
    assert_eq!(generate_workspace_id("/tmp/docs"), expected_id("docs", "/tmp/docs"));
    assert_eq!(generate_workspace_id("/"), expected_id("workspace", "/"));
    assert_eq!(generate_workspace_id("/tmp/docs"), generate_workspace_id("/tmp/docs"));
    assert_eq!(workspace_name("/home/me/notes"), "notes");
    assert_eq!(workspace_name("/"), "workspace");
}

#[test]
fn register_twice_starts_one_watcher() {
    let mut reg: WorkspaceRegistry<u32> = WorkspaceRegistry::new();
    let mut starts = 0;
    let first = reg
        .register(Some("/tmp/docs".to_string()), true, |_, _| {
            starts += 1;
            41
        })
        .unwrap();
    let second = reg
        .register(Some("/tmp/docs".to_string()), true, |_, _| {
            starts += 1;
            42
        })
        .unwrap();
    assert_eq!(starts, 1);
    assert!(first.started);
    assert!(!second.started);
    assert_eq!(first.descriptor.id, second.descriptor.id);
    assert_eq!(reg.len(), 1);
    let removed = reg.unregister(&first.descriptor.id).unwrap();
    assert_eq!(removed.watch_handle, 41);
    assert!(reg.unregister(&first.descriptor.id).is_none());
}

#[test]
fn register_scenario_descriptor() {
    let mut reg: WorkspaceRegistry<()> = WorkspaceRegistry::new();
    let r = reg.register(Some("/tmp/docs".to_string()), true, |_, _| ()).unwrap();
    let id = r.descriptor.id.clone();
    assert!(id.starts_with("docs-"));
    assert_eq!(id, expected_id("docs", "/tmp/docs"));
    assert_eq!(r.descriptor.name, "docs");
    assert_eq!(r.descriptor.root_dir, "/tmp/docs");
    assert_eq!(format!("/view/{}", id), format!("/view/docs-{}", &id[5..]));
}

#[test]
fn register_rejects_invalid_paths() {
    let mut reg: WorkspaceRegistry<()> = WorkspaceRegistry::new();
    assert_eq!(reg.register(None, true, |_, _| ()).err(), Some(SyncError::InvalidPath));
    assert_eq!(
        reg.register(Some("/tmp/docs/a.md".to_string()), false, |_, _| ()).err(),
        Some(SyncError::InvalidPath)
    );
    assert_eq!(reg.len(), 0);
}

#[test]
fn unregister_unknown_changes_nothing() {
    let mut reg: WorkspaceRegistry<u8> = WorkspaceRegistry::new();
    reg.register(Some("/tmp/docs".to_string()), true, |_, _| 1).unwrap();
    let before: Vec<String> = reg.list().into_iter().map(|d| d.id).collect();
    assert!(reg.unregister("nope-0").is_none());
    let after: Vec<String> = reg.list().into_iter().map(|d| d.id).collect();
    assert_eq!(before, after);
}

#[test]
fn lookup_and_list() {
    let mut reg: WorkspaceRegistry<()> = WorkspaceRegistry::new();
    let a = reg.register(Some("/tmp/docs".to_string()), true, |_, _| ()).unwrap();
    let b = reg.register(Some("/srv/wiki".to_string()), true, |_, _| ()).unwrap();
    let list = reg.list();
    assert_eq!(list.len(), 2);
    assert_eq!(list[0].id, a.descriptor.id);
    assert_eq!(list[1].id, b.descriptor.id);
    assert_eq!(list[1].root_dir, "/srv/wiki");
    let found = reg.lookup(&b.descriptor.id).unwrap();
    assert_eq!(found.name, "wiki");
    assert!(reg.lookup("missing-1").is_none());
}

#[test]
fn active_file_scenario() {
    let mut reg: WorkspaceRegistry<()> = WorkspaceRegistry::new();
    let id = reg.register(Some("/tmp/docs".to_string()), true, |_, _| ()).unwrap().descriptor.id;
    let a = reg.resolve_active("/tmp/docs/sub/b.md").unwrap();
    assert_eq!(a.url, format!("/view/{}/sub/b.md", id));
    assert_eq!(a.workspace_id, id);
    assert_eq!(a.file_path, "sub/b.md");
    let cmds = active_commands(&a);
    assert_eq!(cmds.len(), 2);
    match &cmds[0] {
        RemoteCommand::Focus { workspace_id, file_path } => {
            assert_eq!(workspace_id, &id);
            assert_eq!(file_path, "sub/b.md");
        }
        other => panic!("expected focus first, got {:?}", other),
    }
    match &cmds[1] {
        RemoteCommand::Navigate { url } => assert_eq!(url, &format!("/view/{}/sub/b.md", id)),
        other => panic!("expected navigate second, got {:?}", other),
    }
}

#[test]
fn active_file_outside_workspaces() {
    let mut reg: WorkspaceRegistry<()> = WorkspaceRegistry::new();
    reg.register(Some("/tmp/docs".to_string()), true, |_, _| ()).unwrap();
    assert_eq!(reg.resolve_active("/tmp/other/a.md").err(), Some(SyncError::NotInAnyWorkspace));
    assert_eq!(reg.resolve_active("/tmp/docsx/a.md").err(), Some(SyncError::NotInAnyWorkspace));
}

#[test]
fn active_file_prefers_deepest_root() {
    let mut reg: WorkspaceRegistry<()> = WorkspaceRegistry::new();
    let outer = reg.register(Some("/tmp/docs".to_string()), true, |_, _| ()).unwrap().descriptor.id;
    let inner = reg.register(Some("/tmp/docs/sub".to_string()), true, |_, _| ()).unwrap().descriptor.id;
    let a = reg.resolve_active("/tmp/docs/sub/b.md").unwrap();
    assert_eq!(a.workspace_id, inner);
    assert_eq!(a.file_path, "b.md");
    let b = reg.resolve_active("/tmp/docs/a.md").unwrap();
    assert_eq!(b.workspace_id, outer);
    let root = reg.resolve_active("/tmp/docs").unwrap();
    assert_eq!(root.file_path, "");
    assert_eq!(root.url, format!("/view/{}/", outer));
}

#[test]
fn register_scenario_url_and_reload() {
    let mut reg: WorkspaceRegistry<()> = WorkspaceRegistry::new();
    let d = reg.register(Some("/tmp/docs".to_string()), true, |_, _| ()).unwrap().descriptor;
    assert_eq!(workspace_view_url(&d.id), format!("/view/{}", expected_id("docs", "/tmp/docs")));
    let md = vec!["/tmp/docs/sub/b.md".to_string()];
    let txt = vec!["/tmp/docs/notes.txt".to_string()];
    assert!(should_publish_reload(false, &md));
    assert!(!should_publish_reload(false, &txt));
    assert!(matches!(reload_step(&d.id, BusEvent::Message(d.id.clone())), SubscriberStep::Deliver(())));
}

#[test]
fn front_page_workspace_list() {
    let mut reg: WorkspaceRegistry<()> = WorkspaceRegistry::new();
    assert_eq!(workspace_list(&reg.list()), "<p style=\"color:#8b949e;\">No workspaces registered yet.</p>");
    reg.register(Some("/tmp/docs".to_string()), true, |_, _| ()).unwrap();
    reg.register(Some("/srv/wiki".to_string()), true, |_, _| ()).unwrap();
    let items: Vec<String> = reg
        .list()
        .iter()
        .map(|ws| {
            format!(
                r#"<li><a href="/view/{}" style="color:#58a6ff;">{}</a> <span style="color:#8b949e;">- {}</span></li>"#,
                ws.id, ws.name, ws.root_dir
            )
        })
        .collect();
    assert_eq!(workspace_list(&reg.list()), format!("<ul>{}</ul>", items.join("\n")));
}

#[test]
fn workspace_id_from_given_hash() {
    assert_eq!(workspace_id_with_hash("/tmp/docs", 0x1234_5678_9abc_def0), "docs-def0");
    assert_eq!(workspace_id_with_hash("/tmp/docs", 0x10000), "docs-0");
    assert_eq!(workspace_id_with_hash("/", 0xff), "workspace-ff");
}
