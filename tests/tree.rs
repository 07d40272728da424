use ignoreit::template::Template;
use ignoreit::tree::{Cache, DirListing, Folder};

fn listing(name: &str, files: &[&str], dirs: Vec<DirListing>) -> DirListing {
    DirListing {
        name: name.to_string(),
        files: files.iter().map(|f| f.to_string()).collect(),
        dirs,
    }
}

fn mirror() -> Folder {
    Folder::load_path(&listing(
        "templates",
        &["Go.gitignore", "README.md", "Rust.gitignore", ".gitignore"],
        vec![
            listing(
                "Global",
                &["Windows.gitignore", "macOS.gitignore"],
                vec![listing("Empty", &["notes.txt"], vec![])],
            ),
            listing(".github", &["workflow.yml"], vec![listing("deeper", &[], vec![])]),
            listing("community", &[], vec![listing("Lang", &["Zig.gitignore"], vec![])]),
        ],
    ))
}

fn names(ts: &[Template]) -> Vec<String> {
    ts.iter().map(|t| t.name().to_string()).collect()
}

#[test]
fn loading_keeps_only_template_files() {
    let root = mirror();
    assert_eq!(root.name, "templates");
    assert_eq!(names(root.list_templates()), vec!["Go", "Rust"]);
}

#[test]
fn cleanup_removes_dead_ends_at_every_depth() {
    let root = mirror();
    let folder_names: Vec<&str> = root.folders.iter().map(|f| f.name.as_str()).collect();
    assert_eq!(folder_names, vec!["Global", "community"]);
    assert!(root.folders[0].folders.is_empty());
    assert_eq!(root.folders[1].folders.len(), 1);
    fn check(f: &Folder) {
        for sub in &f.folders {
            assert!(!sub.is_empty());
            assert!(sub.files.len() + sub.folders.len() > 0);
            check(sub);
        }
    }
    check(&root);
}

#[test]
fn cleanup_keeps_every_template() {
    let raw = Folder {
        name: "top".to_string(),
        files: vec![],
        folders: vec![
            Folder { name: "empty".to_string(), files: vec![], folders: vec![] },
            Folder {
                name: "a".to_string(),
                files: vec![Template::new(vec!["a".to_string(), "X.gitignore".to_string()])],
                folders: vec![Folder { name: "b".to_string(), files: vec![], folders: vec![] }],
            },
        ],
    };
    assert!(!raw.is_empty());
    let before = names(&raw.list_templates_recursively());
    let cleaned = raw.cleanup();
    assert_eq!(cleaned.folders.len(), 1);
    assert_eq!(cleaned.folders[0].name, "a");
    assert!(cleaned.folders[0].folders.is_empty());
    assert_eq!(names(&cleaned.list_templates_recursively()), before);
}

#[test]
fn empty_mirror_is_empty() {
    let root = Folder::load_path(&listing("templates", &[], vec![listing("x", &[], vec![])]));
    assert!(root.is_empty());
    assert!(root.folders.is_empty());
}

#[test]
fn recursive_listing_is_depth_first() {
    let cache = Cache::new(mirror());
    assert_eq!(
        names(&cache.list_templates()),
        vec!["Go", "Rust", "Windows", "macOS", "Zig"]
    );
}

#[test]
fn find_template_ignores_case() {
    let cache = Cache::new(mirror());
    let t = cache.find_template("windows").expect("found");
    assert_eq!(t.name(), "Windows");
    assert_eq!(t.path(), &vec!["Global".to_string(), "Windows.gitignore".to_string()]);
    assert_eq!(cache.find_template("MACOS").unwrap().name(), "macOS");
    assert_eq!(cache.find_template("zig").unwrap().category().to_string(), "community/Lang/");
    assert!(cache.find_template("python").is_none());
}

#[test]
fn template_new_names_and_categorises() {
    let t = Template::new(vec!["Go.gitignore".to_string()]);
    assert_eq!(t.name(), "Go");
    assert!(t.category().is_root());
    assert_eq!(t.to_string(), "Go");
    let u = Template::new(vec!["a".to_string(), "b".to_string(), "x.y.gitignore".to_string()]);
    assert_eq!(u.name(), "x.y");
    assert_eq!(u.category().to_string(), "a/b/");
    assert_eq!(u.relative_path(), Some(u.path().clone()));
    assert_eq!(
        u.given_relative_path(&vec!["a".to_string()]),
        Some(vec!["b".to_string(), "x.y.gitignore".to_string()])
    );
    assert_eq!(u.given_relative_path(&vec!["b".to_string()]), None);
    let hidden = Template::new(vec![".gitignore".to_string()]);
    assert_eq!(hidden.name(), ".gitignore");
}

#[test]
fn items_list_folders_then_templates() {
    let root = mirror();
    let items: Vec<(bool, String)> = root
        .list_items()
        .iter()
        .map(|i| (i.is_folder(), i.name().to_string()))
        .collect();
    assert_eq!(
        items,
        vec![
            (true, "Global".to_string()),
            (true, "community".to_string()),
            (false, "Go".to_string()),
            (false, "Rust".to_string()),
        ]
    );
}

#[test]
fn listing_order_ignores_case() {
    let names: Vec<String> = ["rust", "Go", "node", "go"].iter().map(|s| s.to_string()).collect();
    assert_eq!(ignoreit::tree::listing_order(&names), vec![1, 3, 2, 0]);
    assert!(ignoreit::tree::is_repository_metadata(".git"));
    assert!(!ignoreit::tree::is_repository_metadata(".github"));
}

#[test]
fn root_templates_have_the_root_category() {
    let t = Template::new(vec!["Rust.gitignore".to_string()]);
    assert_eq!(t.name(), "Rust");
    assert_eq!(t.category(), &ignoreit::template::Category::Root);
    let w = Template::new(vec!["Global".to_string(), "Windows.gitignore".to_string()]);
    assert_eq!(
        w.category(),
        &ignoreit::template::Category::Subfolder(vec!["Global".to_string()].into_iter().collect())
    );
}
