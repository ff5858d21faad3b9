use ir_bridge::gate::{
    evaluate_probe_output, missing_binary_message, no_device_message, required_binaries,
};
use ir_bridge::probe::parse_ir_keytable_output;

#[test]
fn second_section_only_qualifies() {
    let text = "Found /sys/devices/rc0 with:\n\
                \tDriver one, table rc-empty\n\
                Found /sys/devices/rc1 with:\n\
                \tLIRC device: /dev/lirc0\n";
    let sections = parse_ir_keytable_output(text);
    assert_eq!(sections.len(), 1);
    let section = &sections[0];
    assert_eq!(
        section.get("__sysdev__").expect("device path kept").as_str(),
        "/sys/devices/rc1"
    );
    assert_eq!(
        section.get("LIRC device").expect("marker key kept").as_str(),
        "/dev/lirc0"
    );
}

#[test]
fn no_header_yields_empty_result() {
    let text = "Driver: foo, table: bar\nsomething: else\n";
    let sections = parse_ir_keytable_output(text);
    assert!(sections.is_empty());
}

#[test]
fn headerless_lirc_fragment_yields_empty_result() {
    let sections = parse_ir_keytable_output("LIRC device: /dev/lirc0\n");
    assert!(sections.is_empty());
}

#[test]
fn fragments_before_first_header_form_no_section() {
    let text = "LIRC junk: x\nFound rc0 with:\nDriver: d\n";
    let sections = parse_ir_keytable_output(text);
    assert!(sections.is_empty());
}

#[test]
fn header_line_fragment_is_also_parsed() {
    let text = "Found rc0 with:\nLIRC: yes\n";
    let sections = parse_ir_keytable_output(text);
    assert_eq!(sections.len(), 1);
    let section = &sections[0];
    assert_eq!(section.get("__sysdev__").unwrap().as_str(), "rc0");
    assert_eq!(section.get("Found rc0 with").unwrap().as_str(), "");
    assert_eq!(section.get("LIRC").unwrap().as_str(), "yes");
}

#[test]
fn later_value_overwrites_earlier_one() {
    let text = "Found rc0 with:\nLIRC: a\nLIRC: b\n";
    let sections = parse_ir_keytable_output(text);
    assert_eq!(sections.len(), 1);
    assert_eq!(sections[0].get("LIRC").unwrap().as_str(), "b");
}

#[test]
fn carriage_returns_and_padding_are_trimmed() {
    let text = "Found rc0 with:\r\n  LIRC device : /dev/lirc0  \r\n";
    let sections = parse_ir_keytable_output(text);
    assert_eq!(sections.len(), 1);
    assert_eq!(
        sections[0].get("LIRC device").unwrap().as_str(),
        "/dev/lirc0"
    );
}

#[test]
fn non_qualifying_section_is_dropped() {
    let text = "Found rc0 with:\nDriver: gpio-ir, table: rc-empty\n";
    let sections = parse_ir_keytable_output(text);
    assert!(sections.is_empty());
}

#[test]
fn fragments_on_one_line_all_recorded() {
    let text = "Found rc0 with:\nDriver: d, LIRC: x\n";
    let sections = parse_ir_keytable_output(text);
    assert_eq!(sections.len(), 1);
    assert_eq!(sections[0].get("Driver").unwrap().as_str(), "d");
    assert_eq!(sections[0].get("LIRC").unwrap().as_str(), "x");
}

#[test]
fn empty_probe_output_blocks_startup() {
    assert!(evaluate_probe_output("").is_none());
}

#[test]
fn nonempty_probe_output_is_parsed() {
    let sections = evaluate_probe_output("Found rc0 with:\nLIRC: x\n")
        .expect("non-empty output proceeds");
    assert_eq!(sections.len(), 1);
}

#[test]
fn required_binaries_list() {
    let bins = required_binaries();
    let names: Vec<&str> = bins.iter().map(|b| b.as_str()).collect();
    assert_eq!(names, vec!["ir-keytable", "ir-ctl"]);
}

#[test]
fn missing_binary_message_text() {
    assert_eq!(
        missing_binary_message("ir-ctl").as_str(),
        "ir-ctl is not installed. Please install ir-ctl (e.g., sudo apt install v4l-utils)."
    );
}

#[test]
fn no_device_message_text() {
    assert_eq!(
        no_device_message().as_str(),
        "We cannot find any infrared device."
    );
}
