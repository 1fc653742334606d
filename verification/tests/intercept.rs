use std::path::PathBuf;

use bear::intercept::{exit_code, InterceptEnvironment, KEY_DESTINATION, KEY_PRELOAD_PATH};

#[test]
fn path_entry_goes_in_front() {
    let result = InterceptEnvironment::insert_to_path("/usr/bin:/bin", "/tmp/bear-x".to_string());
    assert_eq!("/tmp/bear-x:/usr/bin:/bin", result);
}

#[test]
fn path_entry_is_moved_not_repeated() {
    let result = InterceptEnvironment::insert_to_path("/bin:/tmp/w:/usr/bin:/tmp/w", "/tmp/w".to_string());
    assert_eq!("/tmp/w:/bin:/usr/bin", result);
}

#[test]
fn empty_value_keeps_its_empty_entry() {
    let result = InterceptEnvironment::insert_to_path("", "/lib/preload.so".to_string());
    assert_eq!("/lib/preload.so:", result);
}

#[test]
fn inserting_twice_is_inserting_once() {
    let once = InterceptEnvironment::insert_to_path("a::b:c", "c".to_string());
    let twice = InterceptEnvironment::insert_to_path(&once, "c".to_string());
    assert_eq!("c:a::b", once);
    assert_eq!(once, twice);
}

#[test]
fn wrapper_environment() {
    let environment = InterceptEnvironment::Wrapper {
        bin_dir: PathBuf::from("/tmp/bear-abc"),
        address: "127.0.0.1:4321".to_string(),
    };
    assert_eq!("PATH", environment.updated_variable());
    assert_eq!(
        vec![
            ("PATH".to_string(), "/tmp/bear-abc:/usr/bin:/bin".to_string()),
            (KEY_DESTINATION.to_string(), "127.0.0.1:4321".to_string()),
        ],
        environment.environment("/usr/bin:/bin")
    );
}

#[test]
fn preload_environment() {
    let environment = InterceptEnvironment::Preload {
        path: PathBuf::from("/usr/lib/bear/libexec.so"),
        address: "127.0.0.1:1".to_string(),
    };
    assert_eq!(KEY_PRELOAD_PATH, environment.updated_variable());
    assert_eq!(
        vec![
            (KEY_PRELOAD_PATH.to_string(), "/usr/lib/bear/libexec.so:".to_string()),
            (KEY_DESTINATION.to_string(), "127.0.0.1:1".to_string()),
        ],
        environment.environment("")
    );
}

#[test]
fn path_is_written_as_its_text() {
    assert_eq!("/opt/x", InterceptEnvironment::path_to_string(&PathBuf::from("/opt/x")));
}

#[test]
fn exit_code_is_the_low_byte_of_the_status() {
    assert_eq!(Some(0), exit_code(Some(0)));
    assert_eq!(Some(2), exit_code(Some(2)));
    assert_eq!(Some(0), exit_code(Some(256)));
    assert_eq!(Some(255), exit_code(Some(-1)));
    assert_eq!(None, exit_code(None));
}
