use snail_os::compilation_mode::{unexpected, CompilationMode};
use snail_os::errors::OsError;
use snail_os::table::Table;
use snail_os::term::translate_input;

#[test]
fn test_compilation_mode_names() {
    assert_eq!(CompilationMode::Debug.name(), "debug");
    assert_eq!(CompilationMode::FastBuild.name(), "fastbuild");
    assert_eq!(CompilationMode::Optimised.name(), "opt");
}

#[test]
fn test_unexpected_always_fails() {
    let r: Result<u32, OsError> = unexpected("state: initialising");
    assert_eq!(r, Err(OsError::Unexpected));
}

#[test]
fn test_error_messages() {
    assert_eq!(OsError::ResolveFailed.message(), "failed to resolve path");
    assert_eq!(OsError::ChannelClosed.message(), "stream closed");
    assert_eq!(OsError::ChannelBusy.message(), "channel busy");
    assert_eq!(OsError::AlreadyOpen.message(), "already open");
    assert_eq!(OsError::NotOpen.message(), "not open");
    assert_eq!(OsError::NoSuchProcess.message(), "no such process");
    assert_eq!(OsError::Zombie.message(), "zombie process");
    assert_eq!(OsError::Unexpected.message(), "unexpected state");
}

#[test]
fn test_translate_input_carriage_return_becomes_newline() {
    assert_eq!(translate_input("\r"), "\n");
}

#[test]
fn test_translate_input_keeps_everything_else() {
    assert_eq!(translate_input("a"), "a");
    assert_eq!(translate_input("ls -l"), "ls -l");
    assert_eq!(translate_input("\r\n"), "\r\n");
    assert_eq!(translate_input(""), "");
}

#[test]
fn test_table_insert_take() {
    let mut t: Table<Vec<u8>> = Table::new();
    assert!(!t.contains(7));
    t.insert(7, vec![1, 2]);
    assert!(t.contains(7));
    assert_eq!(t.keys(), vec![7]);
    assert_eq!(t.take(7), Some(vec![1, 2]));
    assert_eq!(t.take(7), None);
    assert!(!t.contains(7));
}
