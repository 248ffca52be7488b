use stickyboard::ipc::{check_response_line, frame_message, invalid_request_response, request_line_is_present, FrameError, IpcResponse};

#[test]
fn framing() {
    assert_eq!(frame_message("{\"type\":\"ShowAll\"}"), "{\"type\":\"ShowAll\"}\n");
    assert_eq!(check_response_line(""), Err(FrameError::EmptyResponse));
    assert_eq!(check_response_line("{}\n"), Ok(()));
    assert_eq!(FrameError::EmptyResponse.message(), "Received empty response from daemon.");
    assert!(!request_line_is_present(""));
    assert!(request_line_is_present("\n"));
    match invalid_request_response("expected value") {
        IpcResponse::Error { message } => assert_eq!(message, "Invalid JSON request: expected value"),
        _ => panic!(),
    }
}
