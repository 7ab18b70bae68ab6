use btmenu::device::Device;
use btmenu::stage::{Controller, Stage};

fn phone() -> Device {
    Device { alias: String::from("Phone"), mac_address: String::from("AA:BB") }
}

fn speaker() -> Device {
    Device { alias: String::from("Speaker"), mac_address: String::from("CC:DD") }
}

#[test]
fn stage_labels() {
    assert_eq!(Stage::StageSelection.label(), "Choose what to do next");
    assert_eq!(Stage::DeviceSelection.label(), "Select device(s)");
    assert_eq!(Stage::AvailableDeviceSelection.label(), "Find available device(s)");
    assert_eq!(Stage::ActionSelection.label(), "Perform actions on selected device(s)");
    assert_eq!(Stage::Exit.label(), "Exit");
}

#[test]
fn options_without_selection_exclude_action_stage() {
    let ctl = Controller::new();
    let opts = ctl.offered_stages();
    assert_eq!(
        opts,
        vec![Stage::DeviceSelection, Stage::AvailableDeviceSelection, Stage::Exit]
    );
}

#[test]
fn options_with_selection_include_action_stage() {
    let mut ctl = Controller::new();
    ctl.choose_stage(Stage::DeviceSelection);
    let found = vec![phone()];
    assert!(ctl.record_discovery(&found));
    ctl.record_selection(found);
    let opts = ctl.offered_stages();
    assert_eq!(
        opts,
        vec![
            Stage::DeviceSelection,
            Stage::AvailableDeviceSelection,
            Stage::ActionSelection,
            Stage::Exit,
        ]
    );
}

#[test]
fn empty_discovery_skips_prompt_and_clears_selection() {
    let mut ctl = Controller::new();
    ctl.choose_stage(Stage::DeviceSelection);
    let found = vec![phone()];
    assert!(ctl.record_discovery(&found));
    ctl.record_selection(found);
    assert_eq!(ctl.selection.len(), 1);
    ctl.choose_stage(Stage::AvailableDeviceSelection);
    let nothing: Vec<Device> = Vec::new();
    assert!(!ctl.record_discovery(&nothing));
    assert_eq!(ctl.stage, Stage::StageSelection);
    assert_eq!(ctl.selection.len(), 0);
}

#[test]
fn action_stage_keeps_selection() {
    let mut ctl = Controller::new();
    ctl.choose_stage(Stage::DeviceSelection);
    let found = vec![phone(), speaker()];
    assert!(ctl.record_discovery(&found));
    ctl.record_selection(found);
    ctl.choose_stage(Stage::ActionSelection);
    ctl.finish_action();
    assert_eq!(ctl.stage, Stage::StageSelection);
    assert_eq!(ctl.selection.len(), 2);
    assert_eq!(ctl.selection[0].alias, "Phone");
    assert_eq!(ctl.selection[1].alias, "Speaker");
}

#[test]
fn exit_is_terminal() {
    let mut ctl = Controller::new();
    assert!(!ctl.finished());
    ctl.choose_stage(Stage::Exit);
    assert!(ctl.finished());
}

#[test]
fn fresh_controller_awaits_choice() {
    let ctl = Controller::new();
    assert_eq!(ctl.stage, Stage::StageSelection);
    assert!(ctl.selection.is_empty());
}
