use cmdx::fs::dir::Dir;
use cmdx::fs::file::File;
use cmdx::ls::display_dirs;
use cmdx::ls::display_files;
use cmdx::ls::run;
use cmdx::ls::Resolution;

fn plain(name: &str) -> File {
    File::new(name.to_string(), false)
}

fn dir_entry(name: &str) -> File {
    File::new(name.to_string(), true)
}

#[test]
fn run_single_file() {
    let r = run(vec![Resolution::Plain(plain("fileA.txt"))]);
    assert_eq!("fileA.txt\n", r.output);
    assert!(r.errors.is_empty());
}

#[test]
fn run_single_directory_without_header() {
    let children = vec![plain("b.txt"), plain("a.txt"), plain(".secret")];
    let r = run(vec![Resolution::Directory(dir_entry("dirX"), Ok(children))]);
    assert_eq!("a.txt b.txt \n", r.output);
    assert!(r.errors.is_empty());
}

#[test]
fn run_file_and_directory_with_header() {
    let children = vec![plain("z"), plain("y")];
    let r = run(vec![
        Resolution::Plain(plain("f1")),
        Resolution::Directory(dir_entry("dirX"), Ok(children)),
    ]);
    assert_eq!("f1\n\ndirX: \ny z \n", r.output);
    assert!(r.errors.is_empty());
}

#[test]
fn run_missing_path_reports_error() {
    let r = run(vec![Resolution::Failed {
        path: "missing-path".to_string(),
        message: "No such file or directory".to_string(),
    }]);
    assert_eq!("\n", r.output);
    assert_eq!(1, r.errors.len());
    assert_eq!("missing-path", r.errors[0].path);
    assert_eq!("No such file or directory", r.errors[0].message);
}

#[test]
fn run_without_paths_prints_one_newline() {
    let r = run(Vec::new());
    assert_eq!("\n", r.output);
    assert!(r.errors.is_empty());
}

#[test]
fn run_two_directories_show_headers() {
    let r = run(vec![
        Resolution::Directory(dir_entry("d1"), Ok(vec![plain("a")])),
        Resolution::Directory(dir_entry("d2"), Ok(vec![plain("b")])),
    ]);
    assert_eq!("d1: \na \n\nd2: \nb \n", r.output);
    assert!(r.errors.is_empty());
}

#[test]
fn run_unreadable_directory_is_skipped_and_reported() {
    let r = run(vec![
        Resolution::Plain(plain("f1")),
        Resolution::Directory(dir_entry("locked"), Err("Permission denied".to_string())),
    ]);
    assert_eq!("f1\n", r.output);
    assert_eq!(1, r.errors.len());
    assert_eq!("locked", r.errors[0].path);
    assert_eq!("Permission denied", r.errors[0].message);
}

#[test]
fn run_records_errors_in_processing_order() {
    let r = run(vec![
        Resolution::Failed { path: "gone".to_string(), message: "not found".to_string() },
        Resolution::Plain(plain("ok.txt")),
        Resolution::Directory(dir_entry("d"), Err("unreadable".to_string())),
    ]);
    assert_eq!("ok.txt\n", r.output);
    assert_eq!(2, r.errors.len());
    assert_eq!("gone", r.errors[0].path);
    assert_eq!("not found", r.errors[0].message);
    assert_eq!("d", r.errors[1].path);
    assert_eq!("unreadable", r.errors[1].message);
}

#[test]
fn directory_contents_are_sorted_with_duplicates_kept() {
    let children = vec![
        plain("pear"),
        plain("apple"),
        plain("apple"),
        dir_entry("zoo"),
        plain("fig"),
    ];
    let d = Dir::new(dir_entry("basket"), children);
    assert_eq!("basket", d.name);
    let names: Vec<&str> = d.contents.iter().map(|f| f.name.as_str()).collect();
    assert_eq!(vec!["apple", "apple", "fig", "pear", "zoo"], names);
}

#[test]
fn dotfiles_are_never_rendered() {
    let children = vec![plain(".hidden"), plain("shown")];
    let r = run(vec![Resolution::Directory(dir_entry("d"), Ok(children))]);
    assert!(!r.output.contains(".hidden"));
    assert_eq!("shown \n", r.output);
}

#[test]
fn rendering_is_deterministic() {
    let files = vec![plain("a"), plain("b")];
    let dirs = vec![Dir::new(dir_entry("d"), vec![plain("x"), plain("w")])];
    let first = format!("{}{}", display_files(&files), display_dirs(&dirs, true));
    let files_again = vec![plain("a"), plain("b")];
    let dirs_again = vec![Dir::new(dir_entry("d"), vec![plain("x"), plain("w")])];
    let second = format!(
        "{}{}",
        display_files(&files_again),
        display_dirs(&dirs_again, true),
    );
    assert_eq!(first, second);
    assert_eq!("a \nb\n\nd: \nw x \n", first);
}
