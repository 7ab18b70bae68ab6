//! The device record: the one shape both discovery sources converge on.

use vstd::prelude::*;
use vstd::string::StringExecFns;

use crate::text::{is_ws_char, lemma_split_ws_tail, split_ws};

verus! {

/// In-memory record of one wireless peripheral: a human-readable alias and
/// the device's link-layer hardware address, kept as an opaque token.
#[derive(Debug, Clone)]
pub struct Device {
    pub alias: String,
    pub mac_address: String,
}

/// Mathematical model of a `Device`: both fields as character sequences.
pub ghost struct DeviceView {
    pub alias: Seq<char>,
    pub mac_address: Seq<char>,
}

impl DeviceView {
    /// A well-formed record never has an empty field: a source line that
    /// cannot fill both fields is dropped rather than turned into a partial
    /// record.
    pub open spec fn wf(self) -> bool {
        self.alias.len() > 0 && self.mac_address.len() > 0
    }
}

impl View for Device {
    type V = DeviceView;

    open spec fn view(&self) -> DeviceView {
        DeviceView { alias: self.alias@, mac_address: self.mac_address@ }
    }
}

impl DeepView for Device {
    type V = DeviceView;

    open spec fn deep_view(&self) -> DeviceView {
        self@
    }
}

/// How a record reads on screen: the alias, one space, and the hardware
/// address in angle brackets.
pub open spec fn spec_render(d: DeviceView) -> Seq<char> {
    d.alias + " <"@ + d.mac_address + ">"@
}

impl Device {
    /// Renders the record for display.
    pub fn render(&self) -> (r: String)
        ensures
            r@ == spec_render(self@),
    {
        let mut r = String::new();
        r.append(self.alias.as_str());
        r.append(" <");
        r.append(self.mac_address.as_str());
        r.append(">");
        proof {
            assert(r@ =~= spec_render(self@));
        }
        r
    }
}

/// Round trip: splitting a rendered record back on whitespace always yields
/// at least one token, and the last token is exactly the hardware address in
/// its angle brackets — so the address survives rendering as one contiguous
/// token, whatever the alias holds.
pub proof fn lemma_render_round_trip(d: DeviceView)
    requires
        d.mac_address.len() > 0,
        forall|i: int| 0 <= i < d.mac_address.len() ==> !is_ws_char(d.mac_address[i]),
    ensures
        split_ws(spec_render(d)).len() >= 1,
        split_ws(spec_render(d)).last() == seq!['<'] + d.mac_address + seq!['>'],
{
    reveal_strlit(" <");
    reveal_strlit(">");
    let t = seq!['<'] + d.mac_address + seq!['>'];
    assert(spec_render(d) =~= d.alias + seq![' '] + t);
    assert forall|i: int| 0 <= i < t.len() implies !is_ws_char(t[i]) by {
        if 0 < i < t.len() - 1 {
            assert(t[i] == d.mac_address[i - 1]);
        }
    }
    lemma_split_ws_tail(d.alias, t);
}

} // verus!
