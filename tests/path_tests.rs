use ludusavi::path::{parse_dots, render, split_posix_drive, split_windows_drive, Os, StrictPath};

fn repo() -> String {
    std::path::Path::new(".").canonicalize().unwrap().to_string_lossy().into_owned()
}

/// A regular file that every Linux process can see.
fn known_file() -> String {
    "/proc/self/status".to_owned()
}

fn home() -> String {
    dirs::home_dir().unwrap().to_string_lossy().into_owned()
}

#[test]
fn expands_relative_paths_from_working_dir_by_default() {
    let sp = StrictPath::new("README.md".to_owned());
    assert_eq!(format!("{}/README.md", repo()), sp.interpret());
}

#[test]
fn expands_relative_paths_from_specified_basis_dir() {
    let sp = StrictPath::relative("README.md".to_owned(), Some("/tmp".to_string()));
    assert_eq!("/tmp/README.md", sp.interpret());
}

#[test]
fn converts_single_dot_at_start_of_real_path() {
    assert_eq!(
        format!("{}/Cargo.toml", repo()).replace("\\", "/"),
        StrictPath::new("./Cargo.toml".to_owned()).render(),
    );
}

#[test]
fn converts_single_dots_at_start_of_real_path() {
    assert_eq!(
        format!("{}/Cargo.toml", repo()).replace("\\", "/"),
        StrictPath::new("./././Cargo.toml".to_owned()).render(),
    );
}

#[test]
fn converts_single_dot_at_start_of_fake_path() {
    assert_eq!(
        format!("{}/fake/README.md", repo()).replace("\\", "/"),
        StrictPath::relative("./README.md".to_owned(), Some(format!("{}/fake", repo()))).render(),
    );
}

#[test]
fn converts_single_dot_within_real_path() {
    assert_eq!(
        format!("{}/Cargo.toml", repo()).replace("\\", "/"),
        StrictPath::new(format!("{}/./Cargo.toml", repo())).render(),
    );
}

#[test]
fn converts_single_dots_within_real_path() {
    assert_eq!(
        format!("{}/Cargo.toml", repo()).replace("\\", "/"),
        StrictPath::new(format!("{}/./././Cargo.toml", repo())).render(),
    );
}

#[test]
fn converts_single_dot_within_fake_path() {
    assert_eq!(
        format!("{}/fake/README.md", repo()).replace("\\", "/"),
        StrictPath::new(format!("{}/fake/./README.md", repo())).render(),
    );
}

#[test]
fn converts_double_dots_at_start_of_real_path() {
    assert_eq!(
        format!("{}/Cargo.toml", repo()).replace("\\", "/"),
        StrictPath::relative("../Cargo.toml".to_owned(), Some(format!("{}/src", repo()))).render(),
    );
}

#[test]
fn converts_double_dots_at_start_of_fake_path() {
    assert_eq!(
        format!("{}/fake.md", repo()).replace("\\", "/"),
        StrictPath::relative("../fake.md".to_owned(), Some(format!("{}/fake", repo()))).render(),
    );
}

#[test]
fn converts_double_dots_within_real_path() {
    assert_eq!(
        format!("{}/Cargo.toml", repo()).replace("\\", "/"),
        StrictPath::new(format!("{}/src/../Cargo.toml", repo())).render(),
    );
}

#[test]
fn converts_double_dots_within_fake_path() {
    assert_eq!(
        format!("{}/fake.md", repo()).replace("\\", "/"),
        StrictPath::new(format!("{}/fake/../fake.md", repo())).render(),
    );
}

#[test]
fn treats_absolute_paths_as_such() {
    let sp = StrictPath::new("/tmp/README.md".to_owned());
    assert_eq!("/tmp/README.md", sp.interpret());
}

#[test]
fn converts_tilde_in_isolation() {
    let sp = StrictPath::new("~".to_owned());
    assert_eq!(home(), sp.interpret());
    assert_eq!(home(), sp.render());
}

#[test]
fn converts_tilde_before_forward_slash() {
    let sp = StrictPath::new("~/~".to_owned());
    assert_eq!(format!("{}/~", home()), sp.interpret());
    assert_eq!(format!("{}/~", home()), sp.render());
}

#[test]
fn converts_tilde_before_backslash() {
    let sp = StrictPath::new("~\\~".to_owned());
    assert_eq!(format!("{}/~", home()), sp.interpret());
    assert_eq!(format!("{}/~", home()), sp.render());
}

#[test]
fn does_not_convert_tilde_before_a_nonslash_character() {
    let sp = StrictPath::new("~a".to_owned());
    assert_eq!(format!("{}/~a", repo()), sp.interpret());
}

#[test]
fn can_check_if_it_is_a_file() {
    assert!(StrictPath::new(known_file()).is_file());
    assert!(!StrictPath::new(repo()).is_file());
}

#[test]
fn can_check_if_it_is_a_directory() {
    assert!(StrictPath::new(repo()).is_dir());
    assert!(!StrictPath::new(known_file()).is_dir());
}

#[test]
fn can_check_if_it_exists() {
    assert!(StrictPath::new(repo()).path_exists());
    assert!(StrictPath::new(known_file()).path_exists());
    assert!(!StrictPath::new(format!("{}/fake", repo())).path_exists());
}

#[test]
fn tilde_and_dots_resolve_like_the_plain_home_path() {
    let a = StrictPath::new("~/a/../b".to_owned()).interpret();
    let b = StrictPath::new(format!("{}/b", home())).interpret();
    assert_eq!(a, b);
}

#[test]
fn dot_against_basis_resolves_below_it() {
    let sp = StrictPath::relative("./x".to_owned(), Some("/tmp".to_owned()));
    assert_eq!("/tmp/x", sp.interpret());
}

#[test]
fn parse_dots_resolves_below_the_root() {
    assert_eq!("/a/c", parse_dots("/a/./b/../c", Os::Linux));
    assert_eq!("/", parse_dots("/..", Os::Linux));
    assert_eq!("/x", parse_dots("//x//", Os::Linux));
    assert_eq!("C:\\a\\c", parse_dots("C:\\a\\b\\..\\c", Os::Windows));
    assert_eq!("\\\\?\\C:\\c", parse_dots("\\\\?\\C:\\a\\..\\c", Os::Windows));
}

#[test]
fn render_drops_the_long_path_marker() {
    assert_eq!("C:/foo/bar", render("\\\\?\\C:\\foo\\bar"));
    assert_eq!("/plain/path", render("/plain/path"));
}

#[test]
fn splits_drives_on_windows() {
    assert_eq!(
        ("C:".to_owned(), "foo/bar".to_owned()),
        split_windows_drive("\\\\?\\C:\\foo\\bar", "C:/foo/bar")
    );
    assert_eq!(
        ("\\\\remote".to_owned(), "foo/bar".to_owned()),
        split_windows_drive("\\\\remote\\foo\\bar", "\\\\remote\\foo\\bar")
    );
    assert_eq!(("".to_owned(), "x/y".to_owned()), split_windows_drive("other", "x\\y"));
}

#[test]
fn splits_drives_elsewhere() {
    assert_eq!(("".to_owned(), "foo/bar".to_owned()), split_posix_drive("/foo/bar"));
    assert_eq!(("".to_owned(), "foo".to_owned()), split_posix_drive("foo"));
    let (d, p) = StrictPath::new("/foo/bar".to_owned()).split_drive();
    assert_eq!(("".to_owned(), "foo/bar".to_owned()), (d, p));
}

#[test]
fn reset_replaces_the_text() {
    let mut sp = StrictPath::relative("a".to_owned(), Some("/tmp".to_owned()));
    sp.reset("b".to_owned());
    assert_eq!("b", sp.raw());
    assert_eq!("/tmp/b", sp.interpret());
}

#[test]
fn joined_appends_after_a_slash() {
    let sp = StrictPath::new("/tmp/fake-base".to_owned()).joined("x");
    assert_eq!("/tmp/fake-base/x", sp.raw());
}
