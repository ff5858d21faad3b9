use ir_bridge::command::{process_command_if_complete, CommandBuffer};

#[test]
fn single_fragment_extracts_command() {
    let mut buffer = CommandBuffer::new();
    buffer.append("<dummycmd>nec:99</dummycmd>");
    let cmd = process_command_if_complete(&mut buffer).expect("command should be extracted");
    assert_eq!(cmd.protocol.as_str(), "nec");
    assert_eq!(cmd.scancode.as_str(), "99");
    assert_eq!(buffer.contents(), "");
}

#[test]
fn fragmented_delivery_matches_single_delivery() {
    let fragments = ["<dum", "mycmd>sony_12", ":0x1f</dummy", "cmd>"];

    let mut whole = CommandBuffer::new();
    let mut all_at_once = String::new();
    for f in &fragments {
        all_at_once.push_str(f);
    }
    whole.append(&all_at_once);
    let expected = process_command_if_complete(&mut whole).expect("single delivery extracts");

    let mut buffer = CommandBuffer::new();
    let mut extracted = None;
    for f in &fragments {
        buffer.append(f);
        if let Some(cmd) = process_command_if_complete(&mut buffer) {
            assert!(extracted.is_none(), "command extracted once only");
            extracted = Some(cmd);
        }
    }
    let got = extracted.expect("fragmented delivery extracts");
    assert_eq!(got.protocol, expected.protocol);
    assert_eq!(got.scancode, expected.scancode);
    assert_eq!(got.protocol.as_str(), "sony_12");
    assert_eq!(got.scancode.as_str(), "0x1f");
}

#[test]
fn opening_marker_only_keeps_buffer() {
    let mut buffer = CommandBuffer::new();
    buffer.append("abc<dummycmd>nec:9");
    assert!(process_command_if_complete(&mut buffer).is_none());
    assert_eq!(buffer.contents(), "abc<dummycmd>nec:9");
}

#[test]
fn trailing_bytes_discarded_after_extraction() {
    let mut buffer = CommandBuffer::new();
    buffer.append("<dummycmd>a:b</dummycmd>TRAILING<dummycmd>x");
    let cmd = process_command_if_complete(&mut buffer).expect("command should be extracted");
    assert_eq!(cmd.protocol.as_str(), "a");
    assert_eq!(cmd.scancode.as_str(), "b");
    assert_eq!(buffer.contents(), "");
}

#[test]
fn missing_colon_clears_buffer_without_command() {
    let mut buffer = CommandBuffer::new();
    buffer.append("<dummycmd>nec99</dummycmd>");
    assert!(process_command_if_complete(&mut buffer).is_none());
    assert_eq!(buffer.contents(), "");
}

#[test]
fn second_command_in_same_delivery_is_lost() {
    let mut buffer = CommandBuffer::new();
    buffer.append("<dummycmd>a:1</dummycmd><dummycmd>b:2</dummycmd>");
    let cmd = process_command_if_complete(&mut buffer).expect("first command extracted");
    assert_eq!(cmd.protocol.as_str(), "a");
    assert_eq!(cmd.scancode.as_str(), "1");
    assert!(process_command_if_complete(&mut buffer).is_none());
    assert_eq!(buffer.contents(), "");
}

#[test]
fn most_recent_opening_marker_wins() {
    let mut buffer = CommandBuffer::new();
    buffer.append("<dummycmd>junk<dummycmd>nec:7</dummycmd>");
    let cmd = process_command_if_complete(&mut buffer).expect("command should be extracted");
    assert_eq!(cmd.protocol.as_str(), "nec");
    assert_eq!(cmd.scancode.as_str(), "7");
}

#[test]
fn closing_marker_without_opening_clears_buffer() {
    let mut buffer = CommandBuffer::new();
    buffer.append("xyz</dummycmd>rest");
    assert!(process_command_if_complete(&mut buffer).is_none());
    assert_eq!(buffer.contents(), "");
}
