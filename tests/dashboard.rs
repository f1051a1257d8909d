use node_metrics::config::Parameters;
use node_metrics::dashboard::{node_label, popup_text, App, Control, Key};
use node_metrics::metrics::Service;
use node_metrics::nodes::StatefulList;

fn params(servers: &[&str], secs: u64) -> Parameters {
    Parameters {
        name: "test".to_string(),
        description: "nodes".to_string(),
        log_level: "info".to_string(),
        scrape_duration: secs,
        servers: servers.iter().map(|s| s.to_string()).collect(),
    }
}

#[test]
fn selection_wraps_around() {
    let mut l = StatefulList::with_items(vec!["a", "b", "c"]);
    assert_eq!(l.selected(), Some(0));
    l.previous();
    assert_eq!(l.selected(), Some(2));
    l.next();
    assert_eq!(l.selected(), Some(0));
    l.next();
    assert_eq!(l.selected(), Some(1));
}

#[test]
fn empty_list_has_no_selection() {
    let mut l: StatefulList<String> = StatefulList::with_items(vec![]);
    l.next();
    l.previous();
    assert_eq!(l.selected(), None);
    assert!(l.selected_item().is_none());
}

#[test]
fn app_starts_titled_with_first_node() {
    let app = App::new("node metrics".to_string(), params(&["http://a:9100", "http://b:9100"], 5), 0);
    assert_eq!(app.name, "[ node metrics ]");
    assert_eq!(app.selected_node(), Some(&"http://a:9100".to_string()));
    assert!(!app.show_popup);
    assert!(!app.refresh_due(1000));
    assert!(app.refresh_due(5000));
    assert_eq!(app.poll_timeout_ms(1200), 3800);
    assert_eq!(app.poll_timeout_ms(9000), 0);
}

#[test]
fn navigation_refreshes_at_once() {
    let mut app = App::new("n".to_string(), params(&["http://a", "http://b", "http://c"], 60), 1000);
    app.show_popup = true;
    assert!(!app.refresh_due(2000));
    assert_eq!(app.handle_key(Key::Down), Control::Continue);
    assert!(!app.show_popup);
    assert!(app.refresh_due(2000));
    assert_eq!(app.selected_node(), Some(&"http://b".to_string()));
    let mut svc = Service::new();
    app.apply_scrape(&mut svc, None, 2000);
    assert!(!app.refresh_due(2000));
    assert!(!app.refresh_due(61_999));
    assert!(app.refresh_due(62_000));
}

#[test]
fn keys_quit_toggle_and_ignore() {
    let mut app = App::new("n".to_string(), params(&["http://a"], 1), 0);
    assert_eq!(app.handle_key(Key::TogglePopup), Control::Continue);
    assert!(app.show_popup);
    assert_eq!(app.handle_key(Key::Other), Control::Continue);
    assert!(app.show_popup);
    assert!(!app.refresh_due(10));
    assert_eq!(app.handle_key(Key::Up), Control::Continue);
    assert_eq!(app.selected_node(), Some(&"http://a".to_string()));
    assert_eq!(app.handle_key(Key::Quit), Control::Exit);
}

#[test]
fn failed_scrape_keeps_snapshot() {
    let mut app = App::new("n".to_string(), params(&["http://a"], 1), 0);
    let mut svc = Service::new();
    app.apply_scrape(
        &mut svc,
        Some(vec!["node_memory_MemTotal_bytes 100\nnode_memory_MemAvailable_bytes 50".to_string()]),
        10,
    );
    assert_eq!(app.memory.len(), 3);
    let before = app.memory.clone();
    app.apply_scrape(&mut svc, None, 20);
    assert_eq!(app.memory, before);
    app.apply_scrape(&mut svc, Some(vec!["node_memory_MemTotal_bytes 1..".to_string()]), 30);
    assert_eq!(app.memory, before);
    assert!(!app.refresh_due(30));
}

#[test]
fn node_label_strips_scheme() {
    assert_eq!(node_label(&"http://10.0.0.1:9100".to_string()), "10.0.0.1:9100");
    assert_eq!(node_label(&"localhost:9100".to_string()), "error");
    assert_eq!(node_label(&"a://b://c".to_string()), "b");
}

#[test]
fn popup_text_rows() {
    let info = vec!["node_uname_info{sysname=\"Linux\"".to_string(), "machine=\"x86_64\"} 1".to_string()];
    assert_eq!(popup_text(&info), "\nnode_uname_info sysname=\"Linux\"\nmachine=\"x86_64\" 1");
    assert_eq!(popup_text(&vec![]), "\n");
}
