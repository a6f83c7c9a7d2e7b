use mdv::bus::{command_step, reload_step, scroll_command, should_publish_reload, BusEvent, RemoteCommand, SubscriberStep};

#[test]
fn reload_for_other_workspace_is_not_delivered() {
    assert!(matches!(reload_step("docs-1a2b", BusEvent::Message("docs-1a2b".to_string())), SubscriberStep::Deliver(())));
    assert!(matches!(reload_step("docs-1a2b", BusEvent::Message("wiki-9f".to_string())), SubscriberStep::Skip));
}

#[test]
fn lagging_subscriber_catches_up() {
    assert!(matches!(reload_step("docs-1a2b", BusEvent::Lagged(12)), SubscriberStep::Skip));
    assert!(matches!(command_step(BusEvent::Lagged(3)), SubscriberStep::Skip));
}

#[test]
fn closed_bus_ends_streams() {
    assert!(matches!(reload_step("docs-1a2b", BusEvent::Closed), SubscriberStep::Stop));
    assert!(matches!(command_step(BusEvent::Closed), SubscriberStep::Stop));
}

#[test]
fn commands_are_forwarded_in_order() {
    let sent = vec![
        RemoteCommand::Focus { workspace_id: "docs-1".to_string(), file_path: "a.md".to_string() },
        RemoteCommand::Navigate { url: "/view/docs-1/a.md".to_string() },
    ];
    let mut seen = Vec::new();
    for c in sent.clone() {
        if let SubscriberStep::Deliver(c) = command_step(BusEvent::Message(c)) {
            seen.push(format!("{:?}", c));
        }
    }
    let expected: Vec<String> = sent.iter().map(|c| format!("{:?}", c)).collect();
    assert_eq!(seen, expected);
}

#[test]
fn scroll_is_capped_at_full_page() {
    assert!(matches!(scroll_command(40), RemoteCommand::Scroll { percent: 40 }));
    assert!(matches!(scroll_command(100), RemoteCommand::Scroll { percent: 100 }));
    assert!(matches!(scroll_command(250), RemoteCommand::Scroll { percent: 100 }));
}

#[test]
fn watcher_publishes_only_markdown_changes() {
    assert!(should_publish_reload(false, &vec!["/tmp/docs/sub/b.md".to_string()]));
    assert!(!should_publish_reload(false, &vec!["/tmp/docs/notes.txt".to_string()]));
    assert!(should_publish_reload(false, &vec!["/tmp/docs/notes.txt".to_string(), "/tmp/docs/a.md".to_string()]));
    assert!(!should_publish_reload(false, &vec![]));
}

#[test]
fn stopped_watcher_publishes_nothing() {
    assert!(!should_publish_reload(true, &vec!["/tmp/docs/sub/b.md".to_string()]));
}
