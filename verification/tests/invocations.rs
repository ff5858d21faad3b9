use ir_bridge::command::{process_command_if_complete, CommandBuffer, ParsedCommand};
use ir_bridge::invocation::build_transmit_invocation;

#[test]
fn sony_invocation_arguments() {
    let cmd = ParsedCommand {
        protocol: String::from("sony_one"),
        scancode: String::from("12345"),
    };
    let inv = build_transmit_invocation(&cmd);
    assert_eq!(inv.program.as_str(), "ir-ctl");
    let args: Vec<&str> = inv.args.iter().map(|a| a.as_str()).collect();
    assert_eq!(
        args,
        vec![
            "-v",
            "-d",
            "/dev/lirc-tx",
            "-g",
            "600",
            "-S",
            "sony_one:12345",
            "-S",
            "sony_one:12345",
            "-S",
            "sony_one:12345",
        ]
    );
    let sends = args.iter().filter(|a| **a == "-S").count();
    assert_eq!(sends, 3);
    let gaps = args.iter().filter(|a| **a == "-g").count();
    assert_eq!(gaps, 1);
}

#[test]
fn nec_invocation_arguments() {
    let cmd = ParsedCommand {
        protocol: String::from("nec"),
        scancode: String::from("99"),
    };
    let inv = build_transmit_invocation(&cmd);
    assert_eq!(inv.program.as_str(), "ir-ctl");
    let args: Vec<&str> = inv.args.iter().map(|a| a.as_str()).collect();
    assert_eq!(args, vec!["-v", "-d", "/dev/lirc-tx", "-S", "nec:99"]);
}

#[test]
fn send_argument_round_trips_through_framer() {
    let cmd = ParsedCommand {
        protocol: String::from("nec"),
        scancode: String::from("0x1f"),
    };
    let inv = build_transmit_invocation(&cmd);
    let send_value = inv.args.last().expect("send argument present").clone();
    assert_eq!(send_value.as_str(), "nec:0x1f");

    let mut buffer = CommandBuffer::new();
    buffer.append("<dummycmd>");
    buffer.append(send_value.as_str());
    buffer.append("</dummycmd>");
    let reparsed = process_command_if_complete(&mut buffer).expect("round trip parses");
    assert_eq!(reparsed.protocol, cmd.protocol);
    assert_eq!(reparsed.scancode, cmd.scancode);
}
