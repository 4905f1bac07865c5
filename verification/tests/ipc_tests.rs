use umux::ipc::ResponseFrame;

#[test]
fn response_error_is_structured() {
    let frame = ResponseFrame::error(2, "unknown_method", "method is not supported");

    let error = frame.error_frame().expect("error frame should be present");
    assert_eq!(error.code, "unknown_method");
}
