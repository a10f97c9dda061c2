//! The state rules of the interface: the left panel's toggle button, the
//! view dropdown, and the units shown beside input fields.
use vstd::prelude::*;

verus! {

/// A unit of length shown beside an input field.
#[derive(Clone, Copy, Debug, PartialEq, Eq, Structural)]
pub enum Unit {
    Unitless,
    Millimeter,
    Meter,
}

/// The symbol of a unit.
pub open spec fn spec_unit_name(u: Unit) -> Seq<char> {
    match u {
        Unit::Unitless => ""@,
        Unit::Millimeter => "mm"@,
        Unit::Meter => "m"@,
    }
}

impl Default for Unit {
    fn default() -> (u: Self)
        ensures
            u == Unit::Unitless,
    {
        Unit::Unitless
    }
}

impl Unit {
    /// The symbol of the unit.
    pub fn name(&self) -> (s: String)
        ensures
            s@ == spec_unit_name(*self),
    {
        match self {
            Unit::Unitless => String::from_str(""),
            Unit::Millimeter => String::from_str("mm"),
            Unit::Meter => String::from_str("m"),
        }
    }
}

/// What pressing the left panel's toggle button asks for.
#[derive(Clone, Copy, Debug, PartialEq, Eq, Structural)]
pub enum PanelEvent {
    ShowLeftPanel,
    HideLeftPanel,
}

/// The left panel's toggle button, showing whether the panel is visible.
#[derive(Clone, Copy, Debug, PartialEq, Eq, Structural)]
pub enum ToggleLeftPanelButton {
    Visible,
    Hidden,
}

impl Default for ToggleLeftPanelButton {
    fn default() -> (b: Self)
        ensures
            b == ToggleLeftPanelButton::Visible,
    {
        ToggleLeftPanelButton::Visible
    }
}

/// The button state after a press.
pub open spec fn spec_toggled(b: ToggleLeftPanelButton) -> ToggleLeftPanelButton {
    match b {
        ToggleLeftPanelButton::Visible => ToggleLeftPanelButton::Hidden,
        ToggleLeftPanelButton::Hidden => ToggleLeftPanelButton::Visible,
    }
}

impl ToggleLeftPanelButton {
    /// A press: a visible panel gets hidden, a hidden one shown.
    pub fn press(&mut self) -> (e: PanelEvent)
        ensures
            *final(self) == spec_toggled(*old(self)),
            e == (if *old(self) == ToggleLeftPanelButton::Visible {
                PanelEvent::HideLeftPanel
            } else {
                PanelEvent::ShowLeftPanel
            }),
    {
        match *self {
            ToggleLeftPanelButton::Visible => {
                *self = ToggleLeftPanelButton::Hidden;
                PanelEvent::HideLeftPanel
            },
            ToggleLeftPanelButton::Hidden => {
                *self = ToggleLeftPanelButton::Visible;
                PanelEvent::ShowLeftPanel
            },
        }
    }
}

/// Pressing the toggle button twice leaves it as it was, and the two
/// presses ask for opposite things.
pub proof fn lemma_toggle_twice(b: ToggleLeftPanelButton)
    ensures
        spec_toggled(spec_toggled(b)) == b,
        spec_toggled(b) != b,
{
}

/// Whether the view dropdown lists the other views.
#[derive(Clone, Copy, Debug, PartialEq, Eq, Structural)]
pub enum Dropdown {
    Collapsed,
    Expanded,
}

impl Default for Dropdown {
    fn default() -> (d: Self)
        ensures
            d == Dropdown::Collapsed,
    {
        Dropdown::Collapsed
    }
}

/// The dropdown state after its header is pressed.
pub open spec fn spec_dropdown_toggled(d: Dropdown) -> Dropdown {
    match d {
        Dropdown::Collapsed => Dropdown::Expanded,
        Dropdown::Expanded => Dropdown::Collapsed,
    }
}

/// Pressing the dropdown header twice leaves it as it was.
pub proof fn lemma_dropdown_twice(d: Dropdown)
    ensures
        spec_dropdown_toggled(spec_dropdown_toggled(d)) == d,
        spec_dropdown_toggled(d) != d,
{
}

impl Dropdown {
    /// The state after the header is pressed: collapsed expands, expanded
    /// collapses.
    pub fn toggled(&self) -> (d: Dropdown)
        ensures
            d == spec_dropdown_toggled(*self),
    {
        match self {
            Dropdown::Collapsed => Dropdown::Expanded,
            Dropdown::Expanded => Dropdown::Collapsed,
        }
    }
}

} // verus!
