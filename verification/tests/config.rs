use kbs::config::{active_path, get_config_path, Output};
use kbs::Error;

#[test]
fn test_get_config_dir_with_xdg_config_home() {
    assert_eq!(
        "/xdg/config/home/kbs",
        get_config_path(Some("/xdg/config/home"), None).unwrap()
    );
}

#[test]
fn config_dir_falls_back_to_home() {
    assert_eq!(
        "/home/user/.config/kbs",
        get_config_path(None, Some("/home/user")).unwrap()
    );
    assert_eq!(
        "/xdg/kbs",
        get_config_path(Some("/xdg"), Some("/home/user")).unwrap()
    );
}

#[test]
fn config_dir_needs_a_home() {
    let r = get_config_path(None, None);
    assert!(matches!(r, Err(Error::NotFound(_))));
    assert_eq!(
        r.unwrap_err().message(),
        "could not determine home directory"
    );
}

#[test]
fn output_is_known_by_its_name() {
    assert_eq!(Output::from_name("name"), Some(Output::Name));
    assert_eq!(Output::from_name("table"), Some(Output::Table));
    assert_eq!(Output::from_name("json"), None);
    assert_eq!(Output::Name.name(), "name");
    assert_eq!(Output::Table.name(), "table");
}

#[test]
fn active_file_lies_in_the_config_dir() {
    assert_eq!(active_path("/cfg/kbs"), "/cfg/kbs/active");
}
