use btmenu::batch::{action_args, action_tokens, batch_report, failure_line};
use btmenu::device::Device;

fn dev(alias: &str, mac: &str) -> Device {
    Device { alias: String::from(alias), mac_address: String::from(mac) }
}

#[test]
fn action_token_set_is_fixed() {
    let tokens = action_tokens();
    assert_eq!(
        tokens,
        vec![
            "connect",
            "disconnect",
            "pair",
            "trust",
            "untrust",
            "block",
            "unblock",
            "remove",
        ]
    );
}

#[test]
fn args_are_action_then_address() {
    let d = dev("Phone", "AA:BB:CC:DD:EE:FF");
    let args = action_args("pair", &d);
    assert_eq!(args, vec!["pair", "AA:BB:CC:DD:EE:FF"]);
}

#[test]
fn failure_line_names_action_and_alias() {
    assert_eq!(failure_line("connect", "Speaker"), "Failed to connect Speaker");
}

#[test]
fn second_device_failure_is_isolated() {
    let selection = vec![dev("Phone", "AA:BB"), dev("Speaker", "CC:DD")];
    let outcomes = vec![Some(String::from("Connection successful")), None];
    let report = batch_report("connect", &selection, &outcomes);
    assert_eq!(report.len(), 2);
    assert_eq!(report[0], "Connection successful");
    assert_eq!(report[1], "Failed to connect Speaker");
}

#[test]
fn all_failures_still_visit_every_device() {
    let selection = vec![dev("One", "11"), dev("Two", "22"), dev("Three", "33")];
    let outcomes: Vec<Option<String>> = vec![None, None, None];
    let report = batch_report("trust", &selection, &outcomes);
    assert_eq!(report.len(), 3);
    assert_eq!(report[0], "Failed to trust One");
    assert_eq!(report[1], "Failed to trust Two");
    assert_eq!(report[2], "Failed to trust Three");
}

#[test]
fn all_successes_report_tool_output() {
    let selection = vec![dev("One", "11"), dev("Two", "22")];
    let outcomes = vec![Some(String::from("ok one")), Some(String::from("ok two"))];
    let report = batch_report("remove", &selection, &outcomes);
    assert_eq!(report, vec!["ok one", "ok two"]);
}

#[test]
fn empty_selection_yields_empty_report() {
    let selection: Vec<Device> = Vec::new();
    let outcomes: Vec<Option<String>> = Vec::new();
    let report = batch_report("block", &selection, &outcomes);
    assert!(report.is_empty());
}

#[test]
fn report_keeps_selection_order_across_mixed_outcomes() {
    let selection = vec![dev("A", "01"), dev("B", "02"), dev("C", "03"), dev("D", "04")];
    let outcomes = vec![None, Some(String::from("done B")), None, Some(String::from("done D"))];
    let report = batch_report("unblock", &selection, &outcomes);
    assert_eq!(report.len(), 4);
    assert_eq!(report[0], "Failed to unblock A");
    assert_eq!(report[1], "done B");
    assert_eq!(report[2], "Failed to unblock C");
    assert_eq!(report[3], "done D");
}
