//! The stage controller: the finite state machine that sequences discovery,
//! selection and action phases, and owns the current selection.

use vstd::prelude::*;
use vstd::string::StringExecFns;

use crate::device::Device;

verus! {

/// The phases the tool moves through. `StageSelection` asks what to do next;
/// `Exit` is terminal.
#[derive(Clone, Copy, Debug, PartialEq, Eq, Structural)]
pub enum Stage {
    StageSelection,
    DeviceSelection,
    AvailableDeviceSelection,
    ActionSelection,
    Exit,
}

/// The human-readable label of a stage, kept apart from the stage itself.
pub open spec fn spec_stage_label(s: Stage) -> Seq<char> {
    match s {
        Stage::StageSelection => "Choose what to do next"@,
        Stage::DeviceSelection => "Select device(s)"@,
        Stage::AvailableDeviceSelection => "Find available device(s)"@,
        Stage::ActionSelection => "Perform actions on selected device(s)"@,
        Stage::Exit => "Exit"@,
    }
}

impl Stage {
    /// The on-screen label of this stage.
    pub fn label(&self) -> (r: String)
        ensures
            r@ == spec_stage_label(*self),
    {
        match self {
            Stage::StageSelection => String::from_str("Choose what to do next"),
            Stage::DeviceSelection => String::from_str("Select device(s)"),
            Stage::AvailableDeviceSelection => String::from_str("Find available device(s)"),
            Stage::ActionSelection => String::from_str("Perform actions on selected device(s)"),
            Stage::Exit => String::from_str("Exit"),
        }
    }
}

/// The stages offered from the choice stage: both discovery stages and exit
/// always, the action stage only when something is selected.
pub open spec fn spec_next_options(selected: nat) -> Seq<Stage> {
    if selected > 0 {
        seq![
            Stage::DeviceSelection,
            Stage::AvailableDeviceSelection,
            Stage::ActionSelection,
            Stage::Exit,
        ]
    } else {
        seq![Stage::DeviceSelection, Stage::AvailableDeviceSelection, Stage::Exit]
    }
}

/// From the choice stage the only reachable next stages are the discovery
/// stages and exit, plus the action stage exactly when the selection is
/// non-empty.
pub proof fn lemma_choice_stage_safety(selected: nat, s: Stage)
    ensures
        spec_next_options(selected).contains(s) <==> (s is DeviceSelection
            || s is AvailableDeviceSelection || s is Exit || (selected > 0
            && s is ActionSelection)),
{
    let opts = spec_next_options(selected);
    if opts.contains(s) {
        let i = choose|i: int| 0 <= i < opts.len() && opts[i] == s;
        if selected > 0 {
            assert(i == 0 || i == 1 || i == 2 || i == 3);
        } else {
            assert(i == 0 || i == 1 || i == 2);
        }
    }
    if s is DeviceSelection {
        assert(opts[0] == s);
        assert(opts.contains(s));
    }
    if s is AvailableDeviceSelection {
        assert(opts[1] == s);
        assert(opts.contains(s));
    }
    if s is Exit {
        if selected > 0 {
            assert(opts[3] == s);
        } else {
            assert(opts[2] == s);
        }
        assert(opts.contains(s));
    }
    if selected > 0 && s is ActionSelection {
        assert(opts[2] == s);
        assert(opts.contains(s));
    }
}

/// The control loop's state: the current stage, and the current selection —
/// replaced wholesale by each completed discovery-and-selection pass and
/// read-only during the action stage.
pub struct Controller {
    pub stage: Stage,
    pub selection: Vec<Device>,
}

impl Controller {
    /// A fresh run: at the choice stage with nothing selected.
    pub fn new() -> (r: Controller)
        ensures
            r.stage is StageSelection,
            r.selection@ == Seq::<Device>::empty(),
    {
        Controller { stage: Stage::StageSelection, selection: Vec::new() }
    }

    /// The stages offered to the user at the choice stage.
    pub fn offered_stages(&self) -> (r: Vec<Stage>)
        requires
            self.stage is StageSelection,
        ensures
            r@ == spec_next_options(self.selection@.len()),
    {
        let mut r: Vec<Stage> = Vec::new();
        r.push(Stage::DeviceSelection);
        r.push(Stage::AvailableDeviceSelection);
        if self.selection.len() > 0 {
            r.push(Stage::ActionSelection);
        }
        r.push(Stage::Exit);
        proof {
            assert(r@ =~= spec_next_options(self.selection@.len()));
        }
        r
    }

    /// Moves to the stage the user picked from the offered set.
    pub fn choose_stage(&mut self, choice: Stage)
        requires
            old(self).stage is StageSelection,
            spec_next_options(old(self).selection@.len()).contains(choice),
        ensures
            final(self).stage == choice,
            final(self).selection == old(self).selection,
    {
        self.stage = choice;
    }

    /// Records what a discovery pass found. An empty result empties the
    /// selection and returns straight to the choice stage — prompting for a
    /// non-empty subset of nothing would be a contradiction; otherwise the
    /// controller stays in the discovery stage awaiting the user's subset,
    /// and answers that a prompt is due.
    pub fn record_discovery(&mut self, found: &Vec<Device>) -> (prompt: bool)
        requires
            old(self).stage is DeviceSelection || old(self).stage is AvailableDeviceSelection,
        ensures
            prompt == (found@.len() > 0),
            !prompt ==> final(self).stage is StageSelection && final(self).selection@.len() == 0,
            prompt ==> *final(self) == *old(self),
    {
        if found.len() == 0 {
            self.selection = Vec::new();
            self.stage = Stage::StageSelection;
            false
        } else {
            true
        }
    }

    /// Replaces the selection with the user's non-empty subset and returns
    /// to the choice stage.
    pub fn record_selection(&mut self, chosen: Vec<Device>)
        requires
            old(self).stage is DeviceSelection || old(self).stage is AvailableDeviceSelection,
            chosen@.len() > 0,
        ensures
            final(self).stage is StageSelection,
            final(self).selection == chosen,
    {
        self.selection = chosen;
        self.stage = Stage::StageSelection;
    }

    /// The action stage is done: back to the choice stage, the selection
    /// untouched — changing targets takes a new discovery pass.
    pub fn finish_action(&mut self)
        requires
            old(self).stage is ActionSelection,
        ensures
            final(self).stage is StageSelection,
            final(self).selection == old(self).selection,
    {
        self.stage = Stage::StageSelection;
    }

    /// Whether the run has reached the terminal stage.
    pub fn finished(&self) -> (r: bool)
        ensures
            r == (self.stage is Exit),
    {
        matches!(self.stage, Stage::Exit)
    }
}

} // verus!
