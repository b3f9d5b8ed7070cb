//! What the manager does on each event: how the rings change, and which
//! commands go out to the window system.

use crate::focus::{focus_move, labels_view, FocusMove, FocusTarget};
use crate::manager::{lemma_rings_removed, Rings, RingsModel};
use crate::ring::WindowId;
use crate::sync::{hidden_label, hidden_tag};
use vstd::prelude::*;

verus! {

/// A command to the window system.
#[derive(Debug, Clone, PartialEq, Eq)]
pub enum Command {
    /// Put this window on the tag with this label.
    Relocate { id: WindowId, tag: String },
    /// Bring every tag in line with what the rings display.
    Rebuild,
    /// Give this window the input focus.
    Focus(WindowId),
    /// Give the tag with this label the focus.
    FocusTag(String),
    /// Go to the next screen and focus the window at the left or the right
    /// edge of its tag, if it has one.
    NextScreen { left_edge: bool },
    /// Lay the windows out anew.
    Refresh,
}

/// What a [`Command`] stands for.
pub enum CommandModel {
    Relocate { id: WindowId, tag: Seq<char> },
    Rebuild,
    Focus(WindowId),
    FocusTag(Seq<char>),
    NextScreen { left_edge: bool },
    Refresh,
}

impl View for Command {
    type V = CommandModel;

    open spec fn view(&self) -> CommandModel {
        match self {
            Command::Relocate { id, tag } => CommandModel::Relocate { id: *id, tag: tag@ },
            Command::Rebuild => CommandModel::Rebuild,
            Command::Focus(id) => CommandModel::Focus(*id),
            Command::FocusTag(label) => CommandModel::FocusTag(label@),
            Command::NextScreen { left_edge } => CommandModel::NextScreen { left_edge: *left_edge },
            Command::Refresh => CommandModel::Refresh,
        }
    }
}

/// The views of a list of commands.
pub open spec fn commands_view(commands: Seq<Command>) -> Seq<CommandModel> {
    commands.map_values(|c: Command| c@)
}

/// An event of the window system that the rings take note of.
#[derive(Clone, Copy, Debug, PartialEq, Eq)]
pub enum RingEvent {
    /// The window is gone.
    Destroy(WindowId),
    /// The window reports whether it is fullscreen.
    PropertyChange { id: WindowId, is_fullscreen: bool },
}

/// The rings after a new window was taken in. A window that is a member
/// already changes nothing.
pub open spec fn managed(m: RingsModel, id: WindowId, label: Seq<char>) -> RingsModel {
    if m.contains(id) {
        m
    } else {
        RingsModel { last_focus: Some(id), ..m.inserted(id, m.last_focus, label) }
    }
}

/// The commands that follow the arrival of a window.
pub open spec fn manage_commands(m: RingsModel, id: WindowId) -> Seq<CommandModel> {
    if m.contains(id) {
        Seq::empty()
    } else {
        seq![CommandModel::Rebuild, CommandModel::Focus(id)]
    }
}

/// A focus command for the window, if there is one.
pub open spec fn focus_on(target: Option<WindowId>) -> Seq<CommandModel> {
    match target {
        Some(id) => seq![CommandModel::Focus(id)],
        None => Seq::empty(),
    }
}

/// The commands that follow the loss of a window: none unless it was a member.
pub open spec fn destroy_commands(m: RingsModel, id: WindowId) -> Seq<CommandModel> {
    if m.contains(id) {
        seq![CommandModel::Rebuild] + focus_on(m.focus_after_removal(id)) + seq![
            CommandModel::Refresh,
        ]
    } else {
        Seq::empty()
    }
}

/// The commands that follow a report of a window's fullscreen state: none
/// unless the state changed.
pub open spec fn property_commands(m: RingsModel, id: WindowId, is_fullscreen: bool) -> Seq<
    CommandModel,
> {
    if m.fullscreen.contains(id) != is_fullscreen {
        seq![CommandModel::Rebuild, CommandModel::Focus(id), CommandModel::Refresh]
    } else {
        Seq::empty()
    }
}

/// The rings after an event.
pub open spec fn event_taken(m: RingsModel, event: RingEvent) -> RingsModel {
    match event {
        RingEvent::Destroy(id) => m.destroyed(id),
        RingEvent::PropertyChange { id, is_fullscreen } => m.with_fullscreen(id, is_fullscreen),
    }
}

/// The commands that follow an event.
pub open spec fn event_commands(m: RingsModel, event: RingEvent) -> Seq<CommandModel> {
    match event {
        RingEvent::Destroy(id) => destroy_commands(m, id),
        RingEvent::PropertyChange { id, is_fullscreen } => property_commands(m, id, is_fullscreen),
    }
}

/// The rings after the user asked to rotate the focused column. When the
/// focused window is the scratchpad, it is taken out of its ring instead.
pub open spec fn rotation_taken(
    m: RingsModel,
    focused: Option<WindowId>,
    label: Seq<char>,
    forward: bool,
) -> RingsModel {
    match focused {
        None => m,
        Some(fid) => if m.scratchpad == Some(fid) {
            m.removed(fid)
        } else {
            m.rotated(fid, label, forward)
        },
    }
}

/// The window that has the focus after a rotation.
pub open spec fn rotation_focus(
    m: RingsModel,
    fid: WindowId,
    label: Seq<char>,
    forward: bool,
) -> WindowId {
    let next = if m.scratchpad == Some(fid) {
        m.focus_after_removal(fid)
    } else {
        m.rotation_target(fid, label, forward)
    };
    match next {
        Some(id) => id,
        None => fid,
    }
}

/// The commands that follow a rotation: none without a focused window.
pub open spec fn rotation_commands(
    m: RingsModel,
    focused: Option<WindowId>,
    label: Seq<char>,
    forward: bool,
) -> Seq<CommandModel> {
    match focused {
        None => Seq::empty(),
        Some(fid) => seq![
            CommandModel::Rebuild,
            CommandModel::Focus(rotation_focus(m, fid, label, forward)),
            CommandModel::Refresh,
        ],
    }
}

/// The commands that follow an exchange of columns: none unless both had members.
pub open spec fn swap_columns_commands(
    m: RingsModel,
    focused: Option<WindowId>,
    label: Seq<char>,
) -> Seq<CommandModel> {
    if m.can_swap_columns(label) {
        seq![CommandModel::Rebuild] + focus_on(focused) + seq![CommandModel::Refresh]
    } else {
        Seq::empty()
    }
}

/// The rings after the scratchpad was toggled: taken out of its ring if a
/// column shows it, put into the given tag if not.
pub open spec fn scratchpad_toggled(
    m: RingsModel,
    focused: Option<WindowId>,
    label: Seq<char>,
) -> RingsModel {
    match m.scratchpad {
        None => m,
        Some(sid) => if m.shows(sid) {
            if focused == Some(sid) && m.focus_after_removal(sid) is Some {
                RingsModel { last_focus: m.focus_after_removal(sid), ..m.removed(sid) }
            } else {
                m.removed(sid)
            }
        } else {
            RingsModel { last_focus: Some(sid), ..m.removed(sid).inserted(sid, focused, label) }
        },
    }
}

/// The commands that follow a toggle of the scratchpad.
pub open spec fn toggle_commands(m: RingsModel, focused: Option<WindowId>) -> Seq<CommandModel> {
    match m.scratchpad {
        None => Seq::empty(),
        Some(sid) => if m.shows(sid) {
            if focused == Some(sid) {
                seq![CommandModel::Rebuild] + focus_on(m.focus_after_removal(sid)) + seq![
                    CommandModel::Refresh,
                ]
            } else {
                seq![CommandModel::Rebuild, CommandModel::Refresh]
            }
        } else {
            seq![CommandModel::Rebuild, CommandModel::Focus(sid), CommandModel::Refresh]
        },
    }
}

/// The rings after the window last focused was popped out of them.
pub open spec fn popped(m: RingsModel) -> RingsModel {
    match m.last_focus {
        Some(id) => m.removed(id),
        None => m,
    }
}

/// The commands that pop the window last focused: it is parked, and
/// where its removal moves the focus, the tags are rebuilt.
pub open spec fn pop_commands(m: RingsModel) -> Seq<CommandModel> {
    match m.last_focus {
        Some(id) => {
            let park = seq![CommandModel::Relocate { id, tag: hidden_label() }];
            match m.focus_after_removal(id) {
                Some(next) => park + seq![
                    CommandModel::Rebuild,
                    CommandModel::Focus(next),
                    CommandModel::Refresh,
                ],
                None => park,
            }
        },
        None => Seq::empty(),
    }
}

/// The commands that move the focus one column to the left or the right.
/// A focused window without a place in the cycle of the tags on screen, and
/// no focused window at all, send the focus to the next screen.
pub open spec fn move_focus_commands(
    m: RingsModel,
    left: bool,
    focused: Option<WindowId>,
    labels: Seq<Seq<char>>,
) -> Seq<CommandModel> {
    let target = match focused {
        Some(fid) => focus_move(m, left, fid, labels),
        None => None,
    };
    match target {
        Some(FocusTarget::Window(id)) => seq![CommandModel::Focus(id), CommandModel::Refresh],
        Some(FocusTarget::Tag(label)) => seq![CommandModel::FocusTag(label), CommandModel::Refresh],
        None => seq![CommandModel::NextScreen { left_edge: !left }, CommandModel::Refresh],
    }
}

/// A list of commands: the first, a focus command if there is a target, the last.
fn framed(first: Command, target: Option<WindowId>, last: Command) -> (r: Vec<Command>)
    ensures
        commands_view(r@) == seq![first@] + focus_on(target) + seq![last@],
{
    let mut v: Vec<Command> = Vec::new();
    v.push(first);
    if let Some(id) = target {
        v.push(Command::Focus(id));
    }
    v.push(last);
    proof {
        assert(commands_view(v@) =~= seq![first@] + focus_on(target) + seq![last@]);
    }
    v
}

fn none() -> (r: Vec<Command>)
    ensures
        commands_view(r@) == Seq::<CommandModel>::empty(),
{
    let v: Vec<Command> = Vec::new();
    proof {
        assert(commands_view(v@) =~= Seq::<CommandModel>::empty());
    }
    v
}

fn triple(a: Command, b: Command, c: Command) -> (r: Vec<Command>)
    ensures
        commands_view(r@) == seq![a@, b@, c@],
{
    let mut v: Vec<Command> = Vec::new();
    v.push(a);
    v.push(b);
    v.push(c);
    proof {
        assert(commands_view(v@) =~= seq![a@, b@, c@]);
    }
    v
}

fn pair(a: Command, b: Command) -> (r: Vec<Command>)
    ensures
        commands_view(r@) == seq![a@, b@],
{
    let mut v: Vec<Command> = Vec::new();
    v.push(a);
    v.push(b);
    proof {
        assert(commands_view(v@) =~= seq![a@, b@]);
    }
    v
}

/// A new window arrives on the tag `ws_label`: it goes into a column of
/// that tag, next to the window last focused, and gets the focus. A window
/// that is a member of a ring already is left where it is.
pub fn manage(rings: &mut Rings, id: WindowId, ws_label: &str) -> (commands: Vec<Command>)
    requires
        old(rings).wf(),
    ensures
        final(rings).wf(),
        final(rings)@ == managed(old(rings)@, id, ws_label@),
        commands_view(commands@) == manage_commands(old(rings)@, id),
{
    if rings.contains(id) {
        return none();
    }
    let focused = rings.last_focus();
    rings.insert(id, focused, ws_label);
    rings.set_last_focus(Some(id));
    pair(Command::Rebuild, Command::Focus(id))
}

/// The window system reports which window has the focus.
pub fn refresh(rings: &mut Rings, focus: Option<WindowId>)
    requires
        old(rings).wf(),
    ensures
        final(rings).wf(),
        final(rings)@ == (RingsModel { last_focus: focus, ..old(rings)@ }),
{
    rings.set_last_focus(focus);
}

/// A window is gone: it leaves its ring and the overlays. If it was a
/// member, the tags are rebuilt, and the focus moves where the removal
/// asks for it.
pub fn destroy(rings: &mut Rings, id: WindowId) -> (commands: Vec<Command>)
    requires
        old(rings).wf(),
    ensures
        final(rings).wf(),
        final(rings)@ == old(rings)@.destroyed(id),
        commands_view(commands@) == destroy_commands(old(rings)@, id),
{
    let member = rings.contains(id);
    let next = rings.destroy(id);
    if member {
        framed(Command::Rebuild, next, Command::Refresh)
    } else {
        none()
    }
}

/// A window reports whether it is fullscreen. Only a change counts: then
/// the tags are rebuilt and the window gets the focus.
pub fn property_change(rings: &mut Rings, id: WindowId, is_fullscreen: bool) -> (commands: Vec<
    Command,
>)
    requires
        old(rings).wf(),
    ensures
        final(rings).wf(),
        final(rings)@ == old(rings)@.with_fullscreen(id, is_fullscreen),
        commands_view(commands@) == property_commands(old(rings)@, id, is_fullscreen),
{
    if rings.set_fullscreen(id, is_fullscreen) {
        triple(Command::Rebuild, Command::Focus(id), Command::Refresh)
    } else {
        none()
    }
}

/// Takes note of an event of the window system.
pub fn event(rings: &mut Rings, ev: RingEvent) -> (commands: Vec<Command>)
    requires
        old(rings).wf(),
    ensures
        final(rings).wf(),
        final(rings)@ == event_taken(old(rings)@, ev),
        commands_view(commands@) == event_commands(old(rings)@, ev),
{
    match ev {
        RingEvent::Destroy(id) => destroy(rings, id),
        RingEvent::PropertyChange { id, is_fullscreen } => {
            property_change(rings, id, is_fullscreen)
        },
    }
}

/// The user rotates the column that shows the focused window. The window
/// that the column then shows gets the focus; the focused window keeps it
/// when nothing rotates. A focused scratchpad is taken out of its ring
/// instead, and the focus goes where the removal asks for it. Without a
/// focused window nothing happens.
pub fn rotate(
    rings: &mut Rings,
    focused: Option<WindowId>,
    ws_label: &str,
    right: bool,
) -> (commands: Vec<Command>)
    requires
        old(rings).wf(),
    ensures
        final(rings).wf(),
        final(rings)@ == rotation_taken(old(rings)@, focused, ws_label@, right),
        commands_view(commands@) == rotation_commands(old(rings)@, focused, ws_label@, right),
{
    match focused {
        None => none(),
        Some(fid) => {
            let next = if rings.scratchpad() == Some(fid) {
                rings.delete(fid)
            } else {
                rings.rotate(fid, ws_label, right)
            };
            let target = match next {
                Some(id) => id,
                None => fid,
            };
            triple(Command::Rebuild, Command::Focus(target), Command::Refresh)
        },
    }
}

/// The user exchanges the two columns of a tag. If both have members, the
/// tags are rebuilt and the focused window keeps the focus.
pub fn swap_columns(rings: &mut Rings, focused: Option<WindowId>, ws_label: &str) -> (commands: Vec<
    Command,
>)
    requires
        old(rings).wf(),
    ensures
        final(rings).wf(),
        final(rings)@ == old(rings)@.columns_swapped(ws_label@),
        commands_view(commands@) == swap_columns_commands(old(rings)@, focused, ws_label@),
{
    if rings.swap_cols(ws_label) {
        framed(Command::Rebuild, focused, Command::Refresh)
    } else {
        none()
    }
}

/// The user toggles the scratchpad. If a column shows it, it leaves its
/// ring, and if it had the focus, the focus goes where the removal asks for
/// it. If no column shows it, it goes into the tag `ws_label`, leaving the
/// ring that held it out of sight, and gets the focus. Without a scratchpad
/// nothing happens.
pub fn toggle_scratchpad(
    rings: &mut Rings,
    focused: Option<WindowId>,
    ws_label: &str,
) -> (commands: Vec<Command>)
    requires
        old(rings).wf(),
    ensures
        final(rings).wf(),
        final(rings)@ == scratchpad_toggled(old(rings)@, focused, ws_label@),
        commands_view(commands@) == toggle_commands(old(rings)@, focused),
{
    let sid = match rings.scratchpad() {
        Some(sid) => sid,
        None => {
            return none();
        },
    };
    proof {
        lemma_rings_removed(rings@, sid);
    }
    if rings.is_focused_in_a_ring(sid) {
        let next = rings.delete(sid);
        if focused == Some(sid) {
            if next.is_some() {
                rings.set_last_focus(next);
            }
            framed(Command::Rebuild, next, Command::Refresh)
        } else {
            pair(Command::Rebuild, Command::Refresh)
        }
    } else {
        rings.delete(sid);
        rings.insert(sid, focused, ws_label);
        rings.set_last_focus(Some(sid));
        triple(Command::Rebuild, Command::Focus(sid), Command::Refresh)
    }
}

/// The user pops the window last focused out of the rings: it goes to the
/// hidden tag and leaves its ring. Where the removal asks for a new focus,
/// the tags are rebuilt and that window gets it.
pub fn pop_last_focused(rings: &mut Rings) -> (commands: Vec<Command>)
    requires
        old(rings).wf(),
    ensures
        final(rings).wf(),
        final(rings)@ == popped(old(rings)@),
        commands_view(commands@) == pop_commands(old(rings)@),
{
    let mut commands: Vec<Command> = Vec::new();
    if let Some(id) = rings.last_focus() {
        commands.push(Command::Relocate { id, tag: hidden_tag() });
        if let Some(next) = rings.delete(id) {
            commands.push(Command::Rebuild);
            commands.push(Command::Focus(next));
            commands.push(Command::Refresh);
        }
    }
    proof {
        assert(commands_view(commands@) =~= pop_commands(old(rings)@));
    }
    commands
}

/// The commands that move the focus one column to the left or the right
/// across the tags on screen.
pub fn move_focus(
    rings: &Rings,
    left: bool,
    focused: Option<WindowId>,
    ws_labels: &Vec<String>,
) -> (commands: Vec<Command>)
    requires
        rings.wf(),
    ensures
        commands_view(commands@) == move_focus_commands(
            rings@,
            left,
            focused,
            labels_view(ws_labels@),
        ),
{
    let target = match focused {
        Some(fid) => rings.move_focus(left, fid, ws_labels),
        None => FocusMove::Noop,
    };
    match target {
        FocusMove::Id(id) => pair(Command::Focus(id), Command::Refresh),
        FocusMove::Tag(label) => pair(Command::FocusTag(label), Command::Refresh),
        FocusMove::Noop => pair(Command::NextScreen { left_edge: !left }, Command::Refresh),
    }
}

} // verus!
