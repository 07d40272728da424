use std::cell::Cell;
use std::cmp::Ordering;

use ignoreit::commands::PullOpts;
use ignoreit::config::Config;
use ignoreit::github::{parse_template_list, GitignoreFile};
use ignoreit::matching::{compare_text, rank_matches};
use ignoreit::names::{has_extension, has_template_extension, stem_of};
use ignoreit::once::UnsafeOnce;
use ignoreit::progress::CounterProgress;
use ignoreit::templates::{EmbeddedDir, EmbeddedFile, Template, Templates};

#[test]
fn pull_options_follow_the_flags() {
    assert_eq!(PullOpts::get_opt(&true, &false, &false), Some(PullOpts::Append));
    assert_eq!(PullOpts::get_opt(&false, &true, &false), Some(PullOpts::Overwrite));
    assert_eq!(PullOpts::get_opt(&false, &false, &true), Some(PullOpts::NoOverwrite));
    assert_eq!(PullOpts::get_opt(&false, &false, &false), None);
}

#[test]
fn once_cell_is_set_once() {
    let mut cell: UnsafeOnce<u32> = UnsafeOnce::new();
    assert!(cell.get().is_none());
    assert_eq!(cell.set(4), Ok(()));
    assert_eq!(cell.set(5), Err(5));
    assert_eq!(cell.get(), Some(&4));
    assert_eq!(*cell.get_unchecked(), 4);
    *cell.get_mut().unwrap() = 6;
    assert_eq!(cell.get(), Some(&6));
    let empty: UnsafeOnce<u32> = UnsafeOnce::default();
    assert!(empty.get().is_none());
}

#[test]
fn progress_reports_each_step() {
    let seen = Cell::new((0, 0));
    let mut p = CounterProgress::new(3, |c, t| seen.set((c, t)));
    p.tick();
    assert_eq!(seen.get(), (1, 3));
    p.tick();
    assert_eq!(seen.get(), (2, 3));
}

#[test]
fn default_config_is_first_run() {
    let c = Config::default();
    assert_eq!(c.last_update, 0);
    assert!(c.first_run);
}

#[test]
fn gitignore_file_joins_its_name_to_the_base() {
    let f = GitignoreFile::new("rust".to_string(), b"target/\n".to_vec());
    assert_eq!(
        f.path(&vec!["out".to_string()]),
        vec!["out".to_string(), "rust".to_string()]
    );
    assert_eq!(f.bytes(), b"target/\n");
}

#[test]
fn template_list_splits_on_commas() {
    assert_eq!(parse_template_list("go,rust,node"), vec!["go", "rust", "node"]);
    assert_eq!(parse_template_list(""), vec![""]);
    assert_eq!(parse_template_list("a,,b,"), vec!["a", "", "b", ""]);
}

#[test]
fn file_name_rules() {
    assert_eq!(stem_of("Go.gitignore"), "Go");
    assert_eq!(stem_of("a.b.c"), "a.b");
    assert_eq!(stem_of(".gitignore"), ".gitignore");
    assert_eq!(stem_of("plain"), "plain");
    assert!(has_template_extension("Go.gitignore"));
    assert!(!has_template_extension(".gitignore"));
    assert!(!has_template_extension("Go.gitignore.bak"));
    assert!(has_extension("x.patch", "patch"));
}

#[test]
fn text_order_is_by_character() {
    assert_eq!(compare_text("go", "node"), Ordering::Less);
    assert_eq!(compare_text("rust", "node"), Ordering::Greater);
    assert_eq!(compare_text("go", "go"), Ordering::Equal);
    assert_eq!(compare_text("go", "gom"), Ordering::Less);
}

#[test]
fn ranking_orders_by_score_then_name_then_position() {
    let scores = vec![Some(10), None, Some(30), Some(10), Some(10)];
    let keys: Vec<String> = ["b", "a", "z", "a", "b"].iter().map(|s| s.to_string()).collect();
    assert_eq!(rank_matches(&scores, &keys), vec![2, 3, 0, 4]);
    assert_eq!(rank_matches(&vec![None, None], &keys), Vec::<usize>::new());
}

fn file(path: &str, contents: &str) -> EmbeddedFile {
    EmbeddedFile { path: path.to_string(), contents: contents.as_bytes().to_vec() }
}

#[test]
fn test_parsing_templates() {
    let dir = EmbeddedDir {
        files: vec![
            file("Rust.gitignore", "target/\n"),
            file("Rust.patch", "Cargo.lock\n"),
            file("Go.gitignore", "bin/\n"),
            file("Orphan.patch", "x\n"),
            file("README.md", "docs\n"),
        ],
    };
    let templates = Templates::from_dir(&dir);
    let listed = templates.list_templates();
    assert_eq!(listed.len(), 3);
    assert_eq!(listed, Template::from_dir(&dir).as_slice());
    assert_eq!(listed[0].file().path, "Rust.gitignore");
    assert!(listed[0].patch().is_none());
    assert_eq!(listed[1].file().path, "Rust.gitignore");
    assert_eq!(listed[1].patch().unwrap().contents, b"Cargo.lock\n".to_vec());
    assert_eq!(listed[2].file().path, "Go.gitignore");
}

#[test]
fn flat_index_maps_lowercase_names() {
    let names: Vec<String> = ["Rust.gitignore", "README.md", "Go.gitignore", "go.old.gitignore", "x.gitignore.bak"]
        .iter()
        .map(|s| s.to_string())
        .collect();
    let index = ignoreit::index::get_templates(&names);
    assert_eq!(
        index,
        vec![
            ("rust".to_string(), "Rust".to_string()),
            ("go".to_string(), "go".to_string()),
        ]
    );
    assert!(ignoreit::index::get_templates(&vec![]).is_empty());
}
