use ludusavi::layout::{BackupLayout, OverallMapping, WalkEntry};
use ludusavi::prelude::{
    backup_outcome, backup_patterns, found_from_matches, game_file_restoration_target,
    restore_outcome, saves_mapping, GlobMatch, redirect_rendered, scan_game_for_backup,
    scan_game_for_restoration, substitute, BackupInfo, Error, Game, OperationStatus,
    OperationStepDecision, Os, RedirectConfig, restore_retry, RootsConfig, ScanInfo, ScannedFile, StrictPath,
    Store, Substitutions, TemplateEnv,
};

fn file(path: &str, size: u64) -> ScannedFile {
    ScannedFile { path: StrictPath::new(path.to_owned()), size, original_path: None }
}

fn scan(files: Vec<ScannedFile>) -> ScanInfo {
    ScanInfo { game_name: "g".to_owned(), found_files: files, found_registry_keys: vec![], registry_file: None }
}

#[test]
fn sums_bytes_less_failures() {
    let info = scan(vec![file("/a", 3), file("/b", 5)]);
    assert_eq!(8, info.sum_bytes(&None));
    let failed = BackupInfo { failed_files: vec![file("/b", 5)], failed_registry: vec![] };
    assert_eq!(3, info.sum_bytes(&Some(failed)));
}

#[test]
fn tracks_progress() {
    let info = scan(vec![file("/a", 3), file("/b", 5)]);
    let mut status = OperationStatus::default();
    status.add_game(&info, &None, true);
    assert!(status.completed());
    let failed = BackupInfo { failed_files: vec![file("/b", 5)], failed_registry: vec![] };
    status.add_game(&info, &Some(failed), true);
    assert_eq!(2, status.total_games);
    assert_eq!(16, status.total_bytes);
    assert_eq!(11, status.processed_bytes);
    assert!(!status.completed());
    status.add_game(&info, &None, false);
    assert_eq!(2, status.processed_games);
    status.clear();
    assert_eq!(0, status.total_games);
    assert!(status.completed());
}

#[test]
fn found_anything_and_success() {
    assert!(!scan(vec![]).found_anything());
    assert!(scan(vec![file("/a", 1)]).found_anything());
    assert!(BackupInfo::default().successful());
    assert!(!BackupInfo { failed_files: vec![], failed_registry: vec!["k".to_owned()] }.successful());
}

#[test]
fn one_failed_copy_fails_one_file() {
    let info = scan(vec![file("/a", 1), file("/b", 2)]);
    let outcome = backup_outcome(&info, true, &vec![true, false]);
    assert_eq!(vec![file("/b", 2)], outcome.failed_files);
    let outcome = backup_outcome(&info, false, &vec![true, true]);
    assert_eq!(2, outcome.failed_files.len());
}

#[test]
fn redirects_apply_to_matching_prefixes() {
    let redirects = vec![("/old".to_owned(), "/new".to_owned())];
    assert_eq!("/new/save.dat", redirect_rendered("/old/save.dat", &redirects));
    assert_eq!("/other/save.dat", redirect_rendered("/other/save.dat", &redirects));
    let empty = vec![("".to_owned(), "/new".to_owned())];
    assert_eq!("/old/save.dat", redirect_rendered("/old/save.dat", &empty));
}

#[test]
fn restoration_target_follows_redirects() {
    let redirects = vec![RedirectConfig {
        source: StrictPath::new("/old".to_owned()),
        target: StrictPath::new("/new".to_owned()),
    }];
    let (target, original) =
        game_file_restoration_target(&StrictPath::new("/old/save.dat".to_owned()), &redirects);
    assert_eq!("/new/save.dat", target.render());
    assert_eq!(Some(StrictPath::new("/old/save.dat".to_owned())), original);
    let (target, original) =
        game_file_restoration_target(&StrictPath::new("/elsewhere/save.dat".to_owned()), &redirects);
    assert_eq!(StrictPath::new("/elsewhere/save.dat".to_owned()), target);
    assert_eq!(None, original);
}

#[test]
fn template_resolves_root_and_game() {
    let env = TemplateEnv::current(Os::Linux);
    let s = Substitutions::native("/R", Store::Other, "G", &env);
    assert_eq!("/R/G/save.dat", substitute("<root>/<game>/save.dat", &s));
    assert_eq!("/R/G/x", substitute("<base>/x", &s));
    let steam = Substitutions::native("/R", Store::Steam, "G", &env);
    assert_eq!("/R/steamapps/common/G/[0-9]*", substitute("<base>/<storeUserId>", &steam));
}

#[test]
fn windows_placeholder_is_skipped_elsewhere() {
    let env = TemplateEnv::current(Os::Linux);
    let s = Substitutions::native("/R", Store::Other, "G", &env);
    assert!(substitute("<winAppData>", &s).contains("<skip>"));
    assert!(substitute("<regHkcu>/x", &s).contains("<skip>"));
}

#[test]
fn proton_prefix_stands_in_for_windows_folders() {
    let env = TemplateEnv::current(Os::Linux);
    let s = Substitutions::proton("/R", "G", 42, &env);
    assert_eq!(
        "/R/steamapps/compatdata/42/pfx/drive_c/users/steamuser/My Documents/x",
        substitute("<winDocuments>/x", &s)
    );
}

#[test]
fn scanning_a_missing_game_finds_nothing() {
    let game = Game {
        files: Some(vec!["/tmp/fake-root-for-scan/<game>/save.dat".to_owned()]),
        install_dir: None,
        registry: None,
    };
    let roots = vec![RootsConfig { path: StrictPath::new("/tmp/fake-root-for-scan".to_owned()), store: Store::Other }];
    let info = scan_game_for_backup(&game, "g", &roots, &StrictPath::new("/tmp".to_owned()), &None);
    assert_eq!("g", info.game_name);
    assert!(info.found_files.is_empty());
    let layout = BackupLayout::new(StrictPath::new("/tmp/fake-backup-root".to_owned()), OverallMapping::new());
    let restored = scan_game_for_restoration("g", &layout);
    assert!(restored.found_files.is_empty());
}

#[test]
fn errors_have_messages() {
    assert_eq!("Some entries failed", Error::SomeEntriesFailed.message());
    assert_eq!(
        "The config file is invalid: \"bad\"",
        Error::ConfigInvalid { why: "bad".to_owned() }.message()
    );
    assert_eq!(
        format!("The manifest file is invalid: {:?}", "a\"b\\c\nd"),
        Error::ManifestInvalid { why: "a\"b\\c\nd".to_owned() }.message()
    );
    assert_eq!(OperationStepDecision::Processed, OperationStepDecision::default());
}

#[test]
fn can_scan_game_for_restoration_with_registry() {
    let repo = StrictPath::new(".".to_owned()).interpret();
    assert_eq!(
        ScanInfo {
            game_name: "game3".to_owned(),
            ..Default::default()
        },
        scan_game_for_restoration(
            "game3",
            &BackupLayout::new(StrictPath::new(format!("{}/tests/backup", repo)), OverallMapping::new())
        ),
    );
}

#[test]
fn restore_retries_wait_longer_each_time() {
    assert_eq!(Some(0), restore_retry(0, 5));
    assert_eq!(Some(15), restore_retry(3, 5));
    assert_eq!(Some(97 * 5), restore_retry(97, 5));
    assert_eq!(None, restore_retry(98, 5));
    assert_eq!(Some(u64::MAX), restore_retry(2, u64::MAX));
}

#[test]
fn found_files_come_from_matches_and_walked_folders() {
    let matches = vec![
        GlobMatch { path: "/r/root2/game1/file1.txt".to_owned(), is_file: true, is_dir: false, size: 1, children: vec![] },
        GlobMatch {
            path: "/r/root1/game1/subdir".to_owned(),
            is_file: false,
            is_dir: true,
            size: 0,
            children: vec![
                WalkEntry { path: "/r/root1/game1/subdir".to_owned(), name: "subdir".to_owned(), is_file: false, size: 0 },
                WalkEntry { path: "/r/root1/game1/subdir\\file2.txt".to_owned(), name: "file2.txt".to_owned(), is_file: true, size: 2 },
            ],
        },
        GlobMatch { path: "/r/root2/game1/file1.txt".to_owned(), is_file: true, is_dir: false, size: 1, children: vec![] },
        GlobMatch { path: "/r/missing".to_owned(), is_file: false, is_dir: false, size: 0, children: vec![] },
    ];
    assert_eq!(
        vec![file("/r/root2/game1/file1.txt", 1), file("/r/root1/game1/subdir/file2.txt", 2)],
        found_from_matches(&matches)
    );
}

#[test]
fn patterns_skip_what_means_nothing_here() {
    let game = Game {
        files: Some(vec!["<winAppData>/x".to_owned(), "  ".to_owned(), "<root>/<game>/save.dat".to_owned()]),
        install_dir: None,
        registry: None,
    };
    let roots = vec![RootsConfig { path: StrictPath::new("/tmp/fake-root".to_owned()), store: Store::Other }];
    let patterns = backup_patterns(&game, "g", &roots, &StrictPath::new("/tmp".to_owned()), &None);
    let raws: Vec<String> = patterns.iter().map(|p| p.raw()).collect();
    assert!(raws.iter().all(|r| !r.contains("<skip>")));
    assert!(raws.contains(&"/tmp/fake-root/g/save.dat".to_owned()));
    let none = Game { files: None, install_dir: None, registry: None };
    assert!(backup_patterns(&none, "g", &roots, &StrictPath::new("/tmp".to_owned()), &None).is_empty());
}

#[test]
fn restore_outcome_counts_failed_copies() {
    let mut restored = file("/b/g/drive-1/a", 1);
    restored.original_path = Some(StrictPath::new("/a".to_owned()));
    let info = scan(vec![restored.clone(), file("/b/g/drive-1/b", 2)]);
    let outcome = restore_outcome(&info, &vec![false, false]);
    assert_eq!(vec![restored], outcome.failed_files);
    assert!(restore_outcome(&info, &vec![true, false]).successful());
    assert!(saves_mapping(&info, true));
    assert!(!saves_mapping(&info, false));
    assert!(!saves_mapping(&scan(vec![]), true));
}

#[test]
fn steam_titles_get_the_compatibility_prefix_candidate() {
    let roots = RootsConfig { path: StrictPath::new("/tmp/steam-root".to_owned()), store: Store::Steam };
    let paths = ludusavi::prelude::parse_paths("<winDocuments>/x", &roots, &vec!["G".to_owned()], &Some(7), &StrictPath::new("/tmp".to_owned()));
    let raws: Vec<String> = paths.iter().map(|p| p.raw()).collect();
    assert!(raws.contains(&"/tmp/steam-root/steamapps/compatdata/7/pfx/drive_c/users/steamuser/My Documents/x".to_owned()));
    assert!(raws.contains(&"<skip>/x".to_owned()));
}

#[test]
fn windows_only_templates_find_nothing_elsewhere() {
    let game = Game {
        files: Some(vec!["<winDocuments>/save".to_owned(), "<regHkcu>/x".to_owned(), " ".to_owned()]),
        install_dir: None,
        registry: None,
    };
    let roots = vec![RootsConfig { path: StrictPath::new("/tmp".to_owned()), store: Store::Other }];
    let info = ludusavi::prelude::scan_game_for_backup_on(&game, "g", &roots, &StrictPath::new("/tmp".to_owned()), &None, Os::Linux);
    assert!(info.found_files.is_empty());
    assert!(ludusavi::prelude::backup_patterns_on(&game, "g", &roots, &StrictPath::new("/tmp".to_owned()), &None, Os::Linux).is_empty());
}

#[test]
fn candidates_are_not_repeated() {
    let root = RootsConfig { path: StrictPath::new("/r".to_owned()), store: Store::Other };
    let paths = ludusavi::prelude::parse_paths_on("<root>/<game>/save.dat", &root, &vec!["g".to_owned(), "g".to_owned()], &None, &StrictPath::new("/m".to_owned()), Os::Linux);
    assert_eq!(vec![StrictPath::relative("/r/g/save.dat".to_owned(), Some("/m".to_owned()))], paths);
}
