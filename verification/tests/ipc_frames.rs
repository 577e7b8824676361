use cgraph::frames::{check_frame, check_request, FrameCheck, MAX_FRAME_BYTES};
use cgraph::protocol::{IpcRequest, PROTOCOL_VERSION};
use cgraph::state::HierarchyKind;

fn focus() -> IpcRequest {
    IpcRequest::FocusSymbol { hierarchy: HierarchyKind::Call, symbol: "main".to_owned(), location: None }
}

#[test]
fn frames_are_lines_of_at_most_a_mebibyte() {
    assert!(matches!(check_frame(&Vec::new(), 0), FrameCheck::Closed));
    assert!(matches!(check_frame(&b"{}\n".to_vec(), 3), FrameCheck::Payload(ref p) if p == b"{}"));
    assert!(matches!(check_frame(&b"{}\r\n".to_vec(), 4), FrameCheck::Payload(ref p) if p == b"{}"));
    assert!(matches!(check_frame(&b"\n".to_vec(), 1), FrameCheck::Payload(ref p) if p.is_empty()));
    assert!(matches!(check_frame(&b"{}".to_vec(), 2), FrameCheck::Refused(ref m) if m == "IPC frame must end with a newline"));
    let long = vec![b'a'; MAX_FRAME_BYTES + 1];
    assert!(matches!(check_frame(&long, long.len()), FrameCheck::Refused(ref m) if m == "IPC frame exceeds 1 MiB"));
}

#[test]
fn requests_need_the_current_version_and_a_request_id() {
    assert_eq!(check_request(PROTOCOL_VERSION, Some(7), Ok(focus())), Ok((7, focus())));
    assert_eq!(
        check_request(2, Some(7), Ok(focus())),
        Err((Some(7), "unsupported IPC protocol version 2; expected 1".to_owned()))
    );
    assert_eq!(
        check_request(PROTOCOL_VERSION, None, Ok(focus())),
        Err((None, "IPC requests require a request_id".to_owned()))
    );
    assert_eq!(
        check_request(PROTOCOL_VERSION, Some(3), Err("unknown variant".to_owned())),
        Err((Some(3), "invalid IPC request: unknown variant".to_owned()))
    );
}
