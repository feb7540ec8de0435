use cmdx::fs::file::File;

#[test]
fn test_filename() {
    assert_eq!(".", File::filename("."));
    assert_eq!("..", File::filename(".."));
    assert_eq!("/", File::filename("/"));
    assert_eq!("abcd", File::filename("abcd"));
    assert_eq!(".zshrc", File::filename(".zshrc"));
    assert_eq!("abcd.efg", File::filename("abcd.efg"));
    assert_eq!("abcd.efg", File::filename("/var/tmp/abcd.efg"));
    assert_eq!("abcd.efg", File::filename("one/two/abcd.efg"));
}

#[test]
fn test_extension() {
    assert_eq!(None, File::extension("."));
    assert_eq!(None, File::extension(".."));
    assert_eq!(None, File::extension("/"));
    assert_eq!(None, File::extension("abcd"));
    assert_eq!(Some("zshrc".to_string()), File::extension(".zshrc"));
    assert_eq!(Some("efg".to_string()), File::extension("abcd.efg"));
    assert_eq!(Some("efg".to_string()), File::extension("/var/tmp/abcd.efg"));
    assert_eq!(Some("efg".to_string()), File::extension("one/two/abcd.efg"));
}

#[test]
fn filename_ignores_trailing_slashes() {
    assert_eq!("tmp", File::filename("/var/tmp/"));
    assert_eq!("var", File::filename("var///"));
}

#[test]
fn extension_of_name_ending_in_dot_is_empty() {
    assert_eq!(Some("".to_string()), File::extension("abcd."));
}

#[test]
fn extension_is_lowercased() {
    assert_eq!(Some("txt".to_string()), File::extension("REPORT.TXT"));
    assert_eq!(Some("gz".to_string()), File::extension("a.tar.gz"));
}

#[test]
fn new_fills_every_field() {
    let f = File::new("/var/tmp/Notes.TXT".to_string(), false);
    assert_eq!("Notes.TXT", f.name);
    assert_eq!(Some("txt".to_string()), f.extension);
    assert_eq!("/var/tmp/Notes.TXT", f.path);
    assert!(!f.is_dir());
    assert!(!f.is_dotfile());
}

#[test]
fn dotfiles_are_recognised() {
    assert!(File::new(".zshrc".to_string(), false).is_dotfile());
    assert!(!File::new("zshrc".to_string(), false).is_dotfile());
    let d = File::new("/etc".to_string(), true);
    assert!(d.is_dir());
    assert!(!d.is_dotfile());
}
