use mdbook_frntmtr::error::FrontmatterError;
use mdbook_frntmtr::watch::{is_markdown, WatchAction, WatchEvent, WatchState};

fn paths(ps: &[&str]) -> Vec<String> {
    ps.iter().map(|p| p.to_string()).collect()
}

fn injected(a: WatchAction) -> Option<String> {
    match a {
        WatchAction::Inject(p) => Some(p),
        WatchAction::Wait => None,
    }
}

#[test]
fn markdown_by_extension() {
    assert!(is_markdown("book/src/intro.md"));
    assert!(!is_markdown("book/src/intro.txt"));
    assert!(!is_markdown("book/.md"));
    assert!(!is_markdown("README"));
}

#[test]
fn watch_failure_does_not_stop_later_files() {
    let mut w = WatchState::new();
    let a = w.step(WatchEvent::Changed(paths(&["a.md", "b.txt", "c.md"])));
    assert_eq!(injected(a), Some("a.md".to_string()));
    let a = w.step(WatchEvent::Finished(Err(FrontmatterError::Io("busy".to_string()))));
    assert_eq!(injected(a), Some("c.md".to_string()));
    let a = w.step(WatchEvent::Finished(Err(FrontmatterError::TemplateRender("bad".to_string()))));
    assert_eq!(injected(a), None);
    let a = w.step(WatchEvent::Changed(paths(&["d.md"])));
    assert_eq!(injected(a), Some("d.md".to_string()));
    let a = w.step(WatchEvent::Finished(Ok(())));
    assert_eq!(injected(a), None);
}

#[test]
fn watch_idle_waits() {
    let mut w = WatchState::new();
    assert_eq!(injected(w.step(WatchEvent::Idle)), None);
    assert_eq!(injected(w.step(WatchEvent::Changed(paths(&["x.rs"])))), None);
}
