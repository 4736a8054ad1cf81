//! What can be clicked.

use vstd::prelude::*;

use crate::path::{FilePath, PathForm};
use crate::ui::geometry;
use crate::ui::geometry::Rect;

verus! {

/// What a click on a received file does.
#[derive(Clone, Copy, Debug, PartialEq, Eq, Structural)]
pub enum ReceivedClickAction {
    Open,
    RevealInFolder,
}

/// A button of a received file.
#[derive(Debug)]
pub struct ReceivedClickTarget {
    pub area: Rect,
    pub path: FilePath,
    pub action: ReceivedClickAction,
}

/// What a button does.
#[derive(Clone, Copy, Debug, PartialEq, Eq, Structural)]
pub enum ButtonAction {
    ConnectPeer,
    ProbePeer,
    SelectIpv4,
    SelectIpv6,
    ToggleMouseMode,
    CopyLocalIp,
    CopyPublicEndpoint,
    PastePeerIp,
    AddFiles,
    SendFiles,
    CancelTransfers,
    Quit,
}

/// A button.
#[derive(Debug)]
pub struct Button {
    pub label: String,
    pub area: Rect,
    pub action: ButtonAction,
}

/// A button as a value of mathematics.
pub struct ButtonForm {
    pub label: Seq<char>,
    pub area: Rect,
    pub action: ButtonAction,
}

impl View for Button {
    type V = ButtonForm;

    open spec fn view(&self) -> ButtonForm {
        ButtonForm { label: self.label@, area: self.area, action: self.action }
    }
}

/// A button of a received file as a value of mathematics.
pub struct TargetForm {
    pub area: Rect,
    pub path: PathForm,
    pub action: ReceivedClickAction,
}

impl View for ReceivedClickTarget {
    type V = TargetForm;

    open spec fn view(&self) -> TargetForm {
        TargetForm { area: self.area, path: self.path@, action: self.action }
    }
}

/// The buttons of a list.
pub open spec fn button_forms(v: Seq<Button>) -> Seq<ButtonForm> {
    v.map_values(|b: Button| b@)
}

/// The buttons of received files of a list.
pub open spec fn target_forms(v: Seq<ReceivedClickTarget>) -> Seq<TargetForm> {
    v.map_values(|t: ReceivedClickTarget| t@)
}

/// Something with a place on the screen that can be clicked.
pub trait ClickTarget {
    /// Its place.
    spec fn place(&self) -> Rect;

    /// Its place.
    fn area(&self) -> (r: Rect)
        ensures
            r == self.place(),
    ;

    /// Whether a click at this cell hits it.
    fn contains(&self, x: u16, y: u16) -> (r: bool)
        ensures
            r == self.place().has(x, y),
    ;
}

impl ClickTarget for Button {
    open spec fn place(&self) -> Rect {
        self.area
    }

    fn area(&self) -> (r: Rect) {
        self.area
    }

    fn contains(&self, x: u16, y: u16) -> (r: bool) {
        geometry::point_in_rect(x, y, self.area)
    }
}

impl ClickTarget for ReceivedClickTarget {
    open spec fn place(&self) -> Rect {
        self.area
    }

    fn area(&self) -> (r: Rect) {
        self.area
    }

    fn contains(&self, x: u16, y: u16) -> (r: bool) {
        geometry::point_in_rect(x, y, self.area)
    }
}

/// Whether `i` is the first target that a click at a cell hits.
pub open spec fn first_hit<T: ClickTarget>(targets: Seq<T>, x: u16, y: u16, i: int) -> bool {
    &&& 0 <= i < targets.len()
    &&& targets[i].place().has(x, y)
    &&& forall|k: int| 0 <= k < i ==> !(#[trigger] targets[k]).place().has(x, y)
}

/// The first target that a click at a cell hits.
pub fn hit_target<T: ClickTarget>(targets: &Vec<T>, x: u16, y: u16) -> (r: Option<usize>)
    ensures
        match r {
            Some(i) => first_hit(targets@, x, y, i as int),
            None => forall|k: int|
                0 <= k < targets@.len() ==> !(#[trigger] targets@[k]).place().has(x, y),
        },
{
    let mut i: usize = 0;
    while i < targets.len()
        invariant
            i <= targets@.len(),
            forall|k: int| 0 <= k < i ==> !(#[trigger] targets@[k]).place().has(x, y),
        decreases targets@.len() - i,
    {
        if targets[i].contains(x, y) {
            return Some(i);
        }
        i += 1;
    }
    None
}

// ---------------------------------------------------------------- laws

/// A button is hit within its area, and of those that a click hits the first is.
pub proof fn law_first_button_is_hit(buttons: Seq<Button>, x: u16, y: u16, i: int)
    ensures
        ({
            let inside = |b: Button|
                b.area.x <= x && x < b.area.x + b.area.width && b.area.y <= y && y < b.area.y
                    + b.area.height;
            first_hit(buttons, x, y, i) <==> 0 <= i < buttons.len() && inside(buttons[i]) && (
            forall|k: int| 0 <= k < i ==> !inside(#[trigger] buttons[k]))
        }),
{
    let inside = |b: Button|
        b.area.x <= x && x < b.area.x + b.area.width && b.area.y <= y && y < b.area.y
            + b.area.height;
    assert forall|k: int| 0 <= k < buttons.len() implies (#[trigger] buttons[k]).place().has(x, y)
        == inside(buttons[k]) by {}
    if first_hit(buttons, x, y, i) {
        assert forall|k: int| 0 <= k < i implies !inside(#[trigger] buttons[k]) by {
            assert(!buttons[k].place().has(x, y));
        }
    }
    if 0 <= i < buttons.len() && inside(buttons[i]) && (forall|k: int|
        0 <= k < i ==> !inside(#[trigger] buttons[k])) {
        assert forall|k: int| 0 <= k < i implies !(#[trigger] buttons[k]).place().has(x, y) by {
            assert(!inside(buttons[k]));
        }
    }
}

/// A button of a received file is hit within its area.
pub proof fn law_button_of_a_file_is_hit(t: ReceivedClickTarget, x: u16, y: u16)
    ensures
        t.place().has(x, y) <==> t.area.x <= x && x < t.area.x + t.area.width && t.area.y <= y && y
            < t.area.y + t.area.height,
{
}

} // verus!
