use umux::session_store::{corrupt_candidate_name, corrupt_file_name, temp_save_file_name, SessionStoreError};
use umux::snapshot::SessionError;

#[test]
fn temp_save_path_uses_same_directory_target_name_process_and_time() {
    assert_eq!(temp_save_file_name(Some("session.json"), 123, 456), "session.json.tmp.123.456");
    assert_eq!(
        temp_save_file_name(None, u32::MAX, u128::MAX),
        format!("session.json.tmp.{}.{}", u32::MAX, u128::MAX)
    );
}

#[test]
fn corrupt_session_names_carry_time_and_attempt() {
    let name = corrupt_file_name(Some("state.json"), 1_700_000_000);

    assert_eq!(name, "state.json.corrupt.1700000000");
    assert!(corrupt_file_name(None, 0).starts_with("session.json.corrupt."));
    assert_eq!(corrupt_candidate_name(&name, 0), name);
    assert_eq!(corrupt_candidate_name(&name, 12), "state.json.corrupt.1700000000.12");
}

#[test]
fn store_errors_wrap_io_and_session_errors() {
    let io: SessionStoreError = std::io::Error::new(std::io::ErrorKind::NotFound, "gone").into();
    let session: SessionStoreError = SessionError::MissingSelectedPane.into();

    assert!(matches!(io, SessionStoreError::Io(ref e) if e.kind() == std::io::ErrorKind::NotFound));
    assert!(matches!(session, SessionStoreError::Session(SessionError::MissingSelectedPane)));
}
