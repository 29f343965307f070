use fas_rs::focus::{focused_packages, select_game};

const DUMP: &str = "WINDOW MANAGER WINDOWS\n  Window #1 Window{a u0 com.home}:\n    mOwnerUid=1 showForAllUsers=false package=com.home appop=NONE\n    isVisible=true canReceiveKeys()=false\n  Window #2 Window{b u0 com.game}:\n    mOwnerUid=2 showForAllUsers=false package=com.game appop=NONE\n    isVisible=true canReceiveKeys()=true\n";

#[test]
fn focused_packages_pairs_lines() {
    let pkgs = focused_packages(DUMP).unwrap();
    assert_eq!(pkgs, vec!["com.game".to_string()]);
}

#[test]
fn focused_packages_empty_dump() {
    assert_eq!(focused_packages(""), Some(vec![]));
}

#[test]
fn focused_packages_malformed_package_line() {
    let dump = "x package=\ncanReceiveKeys()=true\n";
    assert_eq!(focused_packages(dump), None);
}

#[test]
fn select_game_first_listed() {
    let pkgs = vec!["com.other".to_string(), "com.game".to_string(), "com.two".to_string()];
    let games = vec![
        ("com.two".to_string(), vec![30, 60]),
        ("com.game".to_string(), vec![60, 120]),
    ];
    assert_eq!(select_game(&pkgs, &games), Some(("com.game".to_string(), [60, 120])));
}

#[test]
fn select_game_unlisted_or_bad_bounds() {
    let pkgs = vec!["com.other".to_string()];
    let games = vec![("com.game".to_string(), vec![60, 120])];
    assert_eq!(select_game(&pkgs, &games), None);
    let pkgs = vec!["com.game".to_string()];
    let bad = vec![("com.game".to_string(), vec![60])];
    assert_eq!(select_game(&pkgs, &bad), None);
    let negative = vec![("com.game".to_string(), vec![-1, 60])];
    assert_eq!(select_game(&pkgs, &negative), None);
}
