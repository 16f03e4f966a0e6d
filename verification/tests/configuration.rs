use http_server::config::ServerConfig;

fn arguments(list: &[&str]) -> Vec<String> {
    list.iter().map(|argument| argument.to_string()).collect()
}

#[test]
fn the_directory_follows_its_flag() {
    let config = ServerConfig::from_args(&arguments(&["server", "--directory", "/tmp/data"]));
    assert_eq!(config.storage_directory(), "/tmp/data");
}

#[test]
fn without_the_flag_the_directory_is_empty() {
    assert_eq!(ServerConfig::from_args(&arguments(&["server"])).storage_directory(), "");
    assert_eq!(ServerConfig::from_args(&arguments(&[])).storage_directory(), "");
    assert_eq!(
        ServerConfig::from_args(&arguments(&["server", "--verbose", "/tmp"])).storage_directory(),
        ""
    );
}

#[test]
fn a_flag_at_the_end_names_nothing() {
    let config = ServerConfig::from_args(&arguments(&["server", "--directory"]));
    assert_eq!(config.storage_directory(), "");
}

#[test]
fn the_first_flag_decides() {
    let config = ServerConfig::from_args(&arguments(&[
        "server",
        "--directory",
        "one",
        "--directory",
        "two",
    ]));
    assert_eq!(config.storage_directory(), "one");
}

#[test]
fn a_repeated_flag_is_passed_over() {
    let config =
        ServerConfig::from_args(&arguments(&["server", "--directory", "--directory", "data"]));
    assert_eq!(config.storage_directory(), "data");
}

#[test]
fn the_flag_may_stand_first() {
    let config = ServerConfig::from_args(&arguments(&["--directory", "data"]));
    assert_eq!(config.storage_directory(), "data");
}

#[test]
fn new_keeps_the_directory() {
    assert_eq!(ServerConfig::new("files".to_string()).storage_directory(), "files");
}
