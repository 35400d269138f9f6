use ludusavi::layout::{BackupLayout, IndividualMapping, OverallMapping, WalkEntry};
use ludusavi::prelude::ScannedFile;
use ludusavi::path::StrictPath;

fn repo() -> String {
    std::path::Path::new(".").canonicalize().unwrap().to_string_lossy().into_owned()
}

fn layout() -> BackupLayout {
    let mut mapping = OverallMapping::new();
    let mut game1 = IndividualMapping::new("game1".to_owned());
    game1.drive_folder_name("X:");
    mapping.add(game1, StrictPath::new(format!("{}/game1", repo())));
    mapping.add(IndividualMapping::new("game3".to_owned()), StrictPath::new(format!("{}/game3-renamed", repo())));
    BackupLayout::new(StrictPath::new(repo()), mapping)
}

#[test]
fn can_find_game_folder_with_matching_name() {
    assert_eq!(StrictPath::new(format!("{}/game1", repo())), layout().game_folder("game1"));
}

#[test]
fn can_find_game_folder_with_rename() {
    assert_eq!(StrictPath::new(format!("{}/game3-renamed", repo())), layout().game_folder("game3"));
}

#[test]
fn can_find_game_folder_that_does_not_exist() {
    assert_eq!(StrictPath::new(format!("{}/nonexistent", repo())), layout().game_folder("nonexistent"));
}

#[test]
fn escapes_unsafe_characters() {
    assert_eq!("a_b_c_d", BackupLayout::escape_folder_name("a/b:c*d"));
    assert_eq!("_", BackupLayout::escape_folder_name("."));
    assert_eq!("__", BackupLayout::escape_folder_name(".."));
    assert_eq!("...", BackupLayout::escape_folder_name("..."));
    assert_eq!("__________", BackupLayout::escape_folder_name("\\/:*?\"<>|\0"));
}

#[test]
fn unreadable_names_get_a_made_up_folder() {
    let folder = layout().game_folder("???");
    let raw = folder.raw();
    let name = raw.rsplit('/').next().unwrap().to_owned();
    assert!(name.starts_with("ludusavi-renamed-"));
    assert!(name.chars().any(|c| c != '_'));
}

#[test]
fn known_game_folder_is_stable() {
    let l = layout();
    assert_eq!(l.game_folder("game3"), l.game_folder("game3"));
}

#[test]
fn drive_tokens_are_stable_and_distinct() {
    let mut m = IndividualMapping::new("g".to_owned());
    assert_eq!("drive-1", m.drive_folder_name("C:"));
    assert_eq!("drive-2", m.drive_folder_name("D:"));
    assert_eq!("drive-1", m.drive_folder_name("C:"));
    assert_eq!("drive-3", m.drive_folder_name(""));
    assert_eq!(3, m.drives.len());
}

#[test]
fn drive_tokens_fill_the_lowest_gap() {
    let mut m = IndividualMapping::new("g".to_owned());
    m.drives.push(("drive-1".to_owned(), "A:".to_owned()));
    m.drives.push(("drive-3".to_owned(), "B:".to_owned()));
    assert_eq!("drive-2", m.drive_folder_name("C:"));
    assert_eq!("drive-4", m.drive_folder_name("D:"));
    assert_eq!("drive-10", {
        for d in ["E:", "F:", "G:", "H:", "I:"] {
            m.drive_folder_name(d);
        }
        m.drive_folder_name("J:")
    });
}

#[test]
fn places_files_under_the_drive_token() {
    let l = layout();
    let mut m = IndividualMapping::new("g".to_owned());
    let folder = StrictPath::new("/tmp/fake-backup/g".to_owned());
    let placed = l.game_file(&folder, &StrictPath::new("/home/u/save.dat".to_owned()), &mut m);
    assert_eq!("drive-1/home/u/save.dat", placed.raw());
    assert_eq!("/tmp/fake-backup/g/drive-1/home/u/save.dat", placed.interpret());
    assert_eq!(vec![("drive-1".to_owned(), "".to_owned())], m.drives);
}

#[test]
fn restores_the_original_path() {
    let original = BackupLayout::original_path_of("/b/g/drive-1/home/u/save.dat", "/b/g/drive-1", "");
    assert_eq!("/home/u/save.dat", original.raw());
    let original = BackupLayout::original_path_of("/b/g/drive-2/x.txt", "/b/g/drive-2", "X:");
    assert_eq!("X:/x.txt", original.raw());
}

#[test]
fn looks_up_drives_of_known_games() {
    let l = layout();
    assert_eq!(Some("X:".to_owned()), l.drive_of_folder("game1", "drive-1"));
    assert_eq!(None, l.drive_of_folder("game1", "drive-2"));
    assert_eq!(None, l.drive_of_folder("nope", "drive-1"));
}

#[test]
fn mapping_and_registry_files_sit_in_the_game_folder() {
    let l = layout();
    let folder = StrictPath::new("/tmp/fake-backup/g".to_owned());
    assert_eq!("/tmp/fake-backup/g/mapping.yaml", l.game_mapping_file(&folder).raw());
    assert_eq!("/tmp/fake-backup/g/registry.yaml", l.game_registry_file(&folder).raw());
}

fn entry(path: &str, name: &str, is_file: bool, size: u64) -> WalkEntry {
    WalkEntry { path: path.to_owned(), name: name.to_owned(), is_file, size }
}

#[test]
fn restorable_files_come_from_recorded_drive_folders() {
    let mut mapping = OverallMapping::new();
    let mut game1 = IndividualMapping::new("game1".to_owned());
    game1.drive_folder_name("X:");
    mapping.add(game1, StrictPath::new("/b/game1".to_owned()));
    let l = BackupLayout::new(StrictPath::new("/b".to_owned()), mapping);
    let dirs = vec![
        entry("/b/game1", "game1", false, 0),
        entry("/b/game1/drive-1", "drive-1", false, 0),
        entry("/b/game1/stray", "stray", false, 0),
        entry("/b/game1/mapping.yaml", "mapping.yaml", true, 30),
    ];
    let contents = vec![
        vec![],
        vec![
            entry("/b/game1/drive-1", "drive-1", false, 0),
            entry("/b/game1/drive-1/file1.txt", "file1.txt", true, 1),
            entry("/b/game1/drive-1/file2.txt", "file2.txt", true, 2),
        ],
        vec![entry("/b/game1/stray/x", "x", true, 5)],
        vec![],
    ];
    let files = l.restorable_from_entries("game1", &dirs, &contents);
    assert_eq!(
        vec![
            ScannedFile {
                path: StrictPath::new("/b/game1/drive-1/file1.txt".to_owned()),
                size: 1,
                original_path: Some(StrictPath::new("X:/file1.txt".to_owned())),
            },
            ScannedFile {
                path: StrictPath::new("/b/game1/drive-1/file2.txt".to_owned()),
                size: 2,
                original_path: Some(StrictPath::new("X:/file2.txt".to_owned())),
            },
        ],
        files
    );
}

#[test]
fn the_first_free_made_up_name_is_kept() {
    let draws = vec![
        ("ludusavi-renamed-1".to_owned(), true),
        ("ludusavi-renamed-2".to_owned(), false),
    ];
    assert_eq!("ludusavi-renamed-2", BackupLayout::keep_drawn(&draws));
    let all_taken = vec![("ludusavi-renamed-1".to_owned(), true)];
    assert_eq!("ludusavi-renamed-collision", BackupLayout::keep_drawn(&all_taken));
}
