use order_in_yaml_frontmatter::app::Status;
use order_in_yaml_frontmatter::cli::{Cli, Visit};
use order_in_yaml_frontmatter::key_bind;
use order_in_yaml_frontmatter::page::{PageError, SourceFile};

fn cli(recursive: bool) -> Cli {
    Cli { key: "weight".to_string(), target_dir: ".".to_string(), recursive }
}

#[test]
fn pages_are_files_with_the_extension_html_or_md() {
    let cli = cli(false);
    assert_eq!(cli.visit(true, false, Some("md")), Visit::Load);
    assert_eq!(cli.visit(true, false, Some("html")), Visit::Load);
    assert_eq!(cli.visit(true, false, Some("MD")), Visit::Skip);
    assert_eq!(cli.visit(true, false, Some("htm")), Visit::Skip);
    assert_eq!(cli.visit(true, false, Some("")), Visit::Skip);
    assert_eq!(cli.visit(true, false, Some("markdown")), Visit::Skip);
    assert_eq!(cli.visit(true, false, None), Visit::Skip);
    assert_eq!(cli.visit(false, false, Some("md")), Visit::Skip);
}

#[test]
fn directories_are_gone_through_only_on_request() {
    assert_eq!(cli(false).visit(false, true, None), Visit::Skip);
    assert_eq!(cli(true).visit(false, true, None), Visit::Descend);
    assert_eq!(cli(true).visit(false, true, Some("md")), Visit::Descend);
    assert_eq!(cli(true).visit(true, true, Some("md")), Visit::Load);
    assert_eq!(cli(true).visit(true, false, Some("txt")), Visit::Skip);
    assert_eq!(cli(true).visit(false, false, None), Visit::Skip);
}

#[test]
fn run_begins_a_session_on_the_files() {
    let files = vec![
        SourceFile {
            path: "./b.md".to_string(),
            file_name: "b.md".to_string(),
            directory: ".".to_string(),
            text: "---\ntitle: B\n---\n".to_string(),
        },
        SourceFile {
            path: "./a.md".to_string(),
            file_name: "a.md".to_string(),
            directory: ".".to_string(),
            text: "---\ntitle: A\nweight: 4\n---\n".to_string(),
        },
    ];
    let app = cli(false).run(&files).unwrap();
    assert_eq!(app.current_status(), Status::Unpicked);
    assert_eq!(app.previous_status(), Status::Unpicked);
    assert_eq!(app.selected_idx(), 0);
    let list = app.page_list();
    assert_eq!(list.key(), "weight");
    assert_eq!(list.len(), 2);
    assert_eq!(list.get(0).unwrap().path(), "./a.md");
    assert_eq!(list.get(0).unwrap().value(), Some(0));
    assert_eq!(list.get(1).unwrap().path(), "./b.md");
    assert_eq!(list.get(1).unwrap().value(), None);
}

#[test]
fn run_fails_where_a_key_is_no_integer() {
    let files = vec![SourceFile {
        path: "./a.md".to_string(),
        file_name: "a.md".to_string(),
        directory: ".".to_string(),
        text: "---\nweight: first\n---\n".to_string(),
    }];
    assert_eq!(
        cli(true).run(&files).unwrap_err(),
        PageError::NoIntegerKey("./a.md".to_string())
    );
}

#[test]
fn keys_are_bound_to_letters() {
    assert_eq!(key_bind::UP, 'i');
    assert_eq!(key_bind::DOWN, 'k');
    assert_eq!(key_bind::PICK_TOGGLE, 'p');
    assert_eq!(key_bind::INCLUDE_TOGGLE, 'x');
    assert_eq!(key_bind::QUIT, 'q');
    assert_eq!(key_bind::SAVE, 's');
    assert_eq!(key_bind::CONFIRM, 'Y');
}
