use mdbook_frntmtr::error::FrontmatterError;
use mdbook_frntmtr::inject::{inject_rendered, injection_title, process_content};
use mdbook_frntmtr::template::TemplateEngine;

#[test]
fn inject_hello() {
    let r = inject_rendered("# Hello\n\nBody text", "---\ntitle: Hello\n---");
    assert_eq!(r, Some("---\ntitle: Hello\n---\n\nBody text".to_string()));
}

#[test]
fn inject_skips_dashes_heading() {
    assert_eq!(inject_rendered("\n  \n---\ntitle: x\n---\nbody", "X"), None);
    assert_eq!(injection_title("---\ntitle: x\n---"), None);
}

#[test]
fn inject_skips_blank_document() {
    assert_eq!(inject_rendered("", "X"), None);
    assert_eq!(inject_rendered(" \n\t\n", "X"), None);
    assert_eq!(injection_title("\n\n"), None);
}

#[test]
fn inject_drops_lines_before_heading() {
    let r = inject_rendered("\n\n## Title\r\nline one\r\nline two\n", "FM");
    assert_eq!(r, Some("FM\nline one\nline two".to_string()));
}

#[test]
fn inject_heading_only() {
    assert_eq!(inject_rendered("# Only", "FM"), Some("FM\n".to_string()));
}

#[test]
fn title_strips_hashes_and_whitespace() {
    assert_eq!(injection_title("  ### My Title  \nrest"), Some("My Title".to_string()));
    assert_eq!(injection_title("Plain line"), Some("Plain line".to_string()));
}

#[test]
fn engine_splits_template_path() {
    let e = TemplateEngine::new("templates/fm.j2").unwrap();
    assert_eq!(e.template_dir(), "templates");
    assert_eq!(e.template_name(), "fm.j2");
}

#[test]
fn engine_path_without_parent() {
    assert!(matches!(TemplateEngine::new(""), Err(FrontmatterError::NoParentDir)));
    assert!(matches!(TemplateEngine::new("/"), Err(FrontmatterError::NoParentDir)));
}

#[test]
fn engine_path_without_file_name() {
    assert!(matches!(TemplateEngine::new("dir/.."), Err(FrontmatterError::NoFileName)));
}

#[test]
fn engine_missing_template_fails_to_load() {
    let e = TemplateEngine::new("no_such_directory_here/fm.j2").unwrap();
    assert!(matches!(e.render("T"), Err(FrontmatterError::TemplateLoad(_))));
    assert!(matches!(process_content("# T\nbody", &e), Err(FrontmatterError::TemplateLoad(_))));
}

#[test]
fn process_content_without_title_needs_no_template() {
    let e = TemplateEngine::new("no_such_directory_here/fm.j2").unwrap();
    assert_eq!(process_content("   \n", &e), Ok(None));
    assert_eq!(process_content("---\n", &e), Ok(None));
}

#[test]
fn error_messages() {
    assert_eq!(FrontmatterError::NoParentDir.message(), "Template path has no parent directory");
    assert_eq!(FrontmatterError::TemplateLoad("x".to_string()).message(), "Template load error: x");
}
