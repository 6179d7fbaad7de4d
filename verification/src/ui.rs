//! Plain design-system vocabulary shared by the sender, receiver and
//! launcher windows.
use vstd::prelude::*;

verus! {

/// Weight is a first-class part of a text role, not an afterthought applied
/// by colour.
#[derive(Clone, Copy, Debug, PartialEq, Eq, Structural)]
pub enum Weight {
    Regular,
    Semibold,
}

/// The material a surface is made of.
#[derive(Clone, Copy, Debug, PartialEq, Eq, Structural)]
pub enum Layer {
    /// Structural chrome framing the window: top bar, bottom dock.
    Chrome,
    /// A content card or panel.
    Surface,
    /// A raised interactive surface inside a `Surface`.
    Raised,
    /// A sheet or popover above everything.
    Overlay,
}

/// How a sheet may be dismissed, which is really a question about
/// consequences.
#[derive(Clone, Copy, Debug, PartialEq, Eq, Structural)]
pub enum Dismiss {
    /// Escape or a click outside closes it: slips should be cheap.
    Casual,
    /// Only the sheet's own buttons close it, for a decision that cuts a live
    /// stream or replaces the running program.
    Deliberate,
}

/// The system-tray notification area entry of the application.
pub struct TrayNotifier;

} // verus!
