use iw4m_log_server::path::{checked_path, is_valid_path, normalize_path};

#[test]
fn drive_prefix_and_backslashes_are_normalised() {
    assert_eq!(normalize_path("C:\\games\\logs\\server.log"), "/games/logs/server.log");
    assert_eq!(normalize_path("C:\\\\games\\\\\\logs\\server.log"), "/games/logs/server.log");
    assert_eq!(normalize_path("/var/games/logs/server.log"), "/var/games/logs/server.log");
    assert_eq!(normalize_path("c:\\x"), "c:/x");
    assert_eq!(normalize_path(""), "");
}

#[test]
fn traversal_is_rejected_regardless_of_extension() {
    assert!(!is_valid_path("a/../../etc/passwd"));
    assert!(!is_valid_path("a/../../etc/passwd.log"));
    assert!(!is_valid_path("/srv/games/../secret/x.log"));
    assert!(!is_valid_path("C:\\games\\..\\secret\\x.log"));
    assert!(!is_valid_path("../games/logs/x.log"));
    assert_eq!(checked_path("/srv/games/../secret/x.log"), None);
}

#[test]
fn paths_without_the_log_shape_are_rejected() {
    assert!(!is_valid_path("C:\\logs\\server.txt"));
    assert!(!is_valid_path("server.log"));
    assert!(!is_valid_path("logs/server.log"));
    assert!(!is_valid_path("/logs/server.log"));
    assert!(!is_valid_path("/srv//server.log"));
    assert!(!is_valid_path("/srv/logs/.log"));
    assert!(!is_valid_path("/srv/logs/server.logx"));
    assert!(!is_valid_path(""));
}

#[test]
fn log_files_inside_a_named_directory_are_accepted() {
    assert!(is_valid_path("/srv/logs/server.log"));
    assert!(is_valid_path("C:\\games\\logs\\server.log"));
    assert!(is_valid_path("a/b/c.log"));
    assert!(is_valid_path("/srv/games/..hidden/x.log"));
    assert_eq!(
        checked_path("D:\\iw4x\\userraw\\logs\\games_mp.log"),
        Some(String::from("/iw4x/userraw/logs/games_mp.log"))
    );
}
