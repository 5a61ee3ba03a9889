use rhiza::filter::{
    exclusion_list, extension_list, is_executable, is_pruned, is_user_friendly, kind_of,
    kind_of_extension, Kind,
};

fn strings(v: &[&str]) -> Vec<String> {
    v.iter().map(|s| s.to_string()).collect()
}

#[test]
fn default_lists_are_as_documented() {
    assert_eq!(extension_list(), strings(&["exe", "lnk", "url"]));
    let ex = exclusion_list();
    assert_eq!(ex.len(), 17);
    assert_eq!(ex[0], "Windows Kits");
    assert_eq!(ex[12], "Microsoft Edge");
    assert_eq!(ex[16], "rhiza");
}

#[test]
fn pruning_is_a_case_sensitive_substring_match() {
    let ex = exclusion_list();
    assert!(is_pruned("C:\\Users\\me\\Start Menu\\Git\\Git Bash.lnk", &ex));
    assert!(is_pruned("C:\\ProgramData\\Windows Kits\\x.lnk", &ex));
    assert!(is_pruned("C:\\Tools\\cmake\\bin\\cmake.exe", &ex));
    assert!(!is_pruned("C:\\Users\\me\\git\\tool.exe", &ex));
    assert!(!is_pruned("C:\\Apps\\Firefox.lnk", &ex));
    assert!(!is_pruned("anything", &vec![]));
    assert!(is_pruned("anything", &strings(&[""])));
    assert!(is_pruned("abc", &strings(&["zz", "bc"])));
    assert!(!is_pruned("abc", &strings(&["abcd"])));
}

#[test]
fn executables_are_files_with_a_wanted_extension() {
    let exts = extension_list();
    assert!(is_executable(false, "C:\\Apps\\a.exe", &exts));
    assert!(is_executable(false, "C:\\Apps\\a.EXE", &exts));
    assert!(is_executable(false, "C:\\Apps\\Google Chrome.Lnk", &exts));
    assert!(is_executable(false, "C:/Apps/site.url", &exts));
    assert!(is_executable(false, "a.tar.exe", &exts));
    assert!(!is_executable(true, "C:\\Apps\\a.exe", &exts));
    assert!(!is_executable(false, "C:\\Apps\\a.txt", &exts));
    assert!(!is_executable(false, "C:\\Apps\\exe", &exts));
    assert!(!is_executable(false, "C:\\Apps\\.exe", &exts));
    assert!(!is_executable(false, "C:\\Apps.exe\\readme", &exts));
    assert!(!is_executable(false, "", &exts));
    assert!(!is_executable(false, "C:\\Apps\\a.exe", &vec![]));
    assert!(is_executable(false, "run.ps1", &strings(&["ps1", "exe"])));
}

#[test]
fn kinds_follow_the_extension() {
    assert_eq!(kind_of("C:\\a\\b.exe"), Some(Kind::Exe));
    assert_eq!(kind_of("C:\\a\\b.LNK"), Some(Kind::Lnk));
    assert_eq!(kind_of("C:\\a\\b.Url"), Some(Kind::Url));
    assert_eq!(kind_of("C:\\a\\b.txt"), None);
    assert_eq!(kind_of("C:\\a\\b"), None);
    assert_eq!(kind_of_extension("exe"), Some(Kind::Exe));
    assert_eq!(kind_of_extension("EXE"), None);
    assert_eq!(kind_of_extension(""), None);
}

#[test]
fn build_directories_are_noise() {
    assert!(!is_user_friendly("C:\\proj\\target\\debug\\app.exe"));
    assert!(!is_user_friendly("C:\\proj\\target\\Release\\app.exe"));
    assert!(!is_user_friendly("C:\\Tools\\BIN\\app.exe"));
    assert!(!is_user_friendly("C:/web/node_modules/x/cli.exe"));
    assert!(!is_user_friendly("C:\\Users\\me\\Temp\\app.exe"));
    assert!(!is_user_friendly("obj\\app.exe"));
    assert!(!is_user_friendly("C:\\build"));
    // only a whole component counts
    assert!(is_user_friendly("C:\\proj\\builder\\app.exe"));
    assert!(is_user_friendly("C:\\proj\\binary\\app.exe"));
    assert!(is_user_friendly("C:\\templates\\app.exe"));
}

#[test]
fn installer_and_test_names_are_noise() {
    assert!(!is_user_friendly("C:\\Apps\\Setup.exe"));
    assert!(!is_user_friendly("C:\\Apps\\vlc-uninstall.exe"));
    assert!(!is_user_friendly("C:\\Apps\\Install Helper.lnk"));
    assert!(!is_user_friendly("C:\\Apps\\contest.exe"));
    assert!(!is_user_friendly("C:\\Apps\\MySample.exe"));
    assert!(!is_user_friendly("C:\\Apps\\examples.lnk"));
    assert!(!is_user_friendly("C:\\Apps\\app_debug.exe"));
    // the word must stand in the stem, not in the extension
    assert!(is_user_friendly("C:\\Apps\\tool.setup"));
    assert!(is_user_friendly("C:\\Apps\\Firefox.lnk"));
    assert!(is_user_friendly("Firefox.lnk"));
    assert!(is_user_friendly(""));
}

#[test]
fn the_file_name_is_the_last_component_even_before_separators() {
    let exts = extension_list();
    assert!(is_executable(false, "C:\\Apps\\a.exe\\", &exts));
    assert!(is_executable(false, "C:/Apps/a.LNK//", &exts));
    assert!(!is_executable(false, "C:\\Apps.exe\\readme\\", &exts));
    assert!(!is_executable(false, "\\", &exts));
    assert_eq!(kind_of("C:\\Apps\\a.url\\"), Some(Kind::Url));
    assert!(!is_user_friendly("C:\\Apps\\Setup.exe\\"));
    assert!(is_user_friendly("C:\\Apps\\Tool.exe\\"));
}
