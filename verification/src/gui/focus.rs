//! What keeps the popup from taking the focus under X11.

use vstd::prelude::*;

verus! {

/// The names under which an X11 server knows properties and their values. A name that it did
/// not give a number to is missing.
#[derive(Clone, Copy, Debug, PartialEq, Eq)]
pub struct FocusAtoms {
    /// Zero where it is missing.
    pub user_time: u32,
    pub window_type: Option<u32>,
    pub tooltip: Option<u32>,
    pub state: Option<u32>,
    pub skip_taskbar: Option<u32>,
    pub skip_pager: Option<u32>,
    pub above: Option<u32>,
    pub wm_protocols: Option<u32>,
    pub wm_delete_window: Option<u32>,
}

/// Whether `atom` is the answer that `intern` gave for a name.
pub open spec fn interned<F: Fn(&'static str) -> Option<u32>>(
    intern: F,
    name: Seq<char>,
    atom: Option<u32>,
) -> bool {
    exists|n: &'static str| n@ == name && #[trigger] call_ensures(intern, (n,), atom)
}

/// What a property holds.
#[derive(Clone, Copy, Debug, PartialEq, Eq, Structural)]
pub enum PropertyKind {
    Atom,
    Cardinal,
    WmHints,
}

/// Which property is meant.
#[derive(Clone, Copy, Debug, PartialEq, Eq, Structural)]
pub enum Property {
    WmHints,
    Named(u32),
}

/// A request to the X11 server.
#[derive(Debug)]
pub enum FocusCommand {
    /// Replaces a property.
    Replace { property: Property, kind: PropertyKind, values: Vec<u32> },
    /// Takes the window out of the hands of the window manager.
    OverrideRedirect,
    /// Puts the window above the others.
    RaiseAbove,
    /// Sends what was requested.
    Flush,
}

/// The contents of a `FocusCommand`.
#[verifier::ext_equal]
pub enum FocusCommandView {
    Replace { property: Property, kind: PropertyKind, values: Seq<u32> },
    OverrideRedirect,
    RaiseAbove,
    Flush,
}

impl View for FocusCommand {
    type V = FocusCommandView;

    open spec fn view(&self) -> FocusCommandView {
        match *self {
            FocusCommand::Replace { property, kind, values } => FocusCommandView::Replace {
                property,
                kind,
                values: values@,
            },
            FocusCommand::OverrideRedirect => FocusCommandView::OverrideRedirect,
            FocusCommand::RaiseAbove => FocusCommandView::RaiseAbove,
            FocusCommand::Flush => FocusCommandView::Flush,
        }
    }
}

/// The contents of commands.
pub open spec fn command_views(commands: Seq<FocusCommand>) -> Seq<FocusCommandView> {
    commands.map_values(|command: FocusCommand| command@)
}

/// A list with one command, or none.
pub open spec fn command_if(condition: bool, command: FocusCommandView) -> Seq<FocusCommandView> {
    if condition {
        seq![command]
    } else {
        Seq::empty()
    }
}

/// The window is a tooltip.
pub open spec fn type_command(atoms: FocusAtoms) -> Seq<FocusCommandView> {
    command_if(
        atoms.window_type is Some && atoms.tooltip is Some,
        FocusCommandView::Replace {
            property: Property::Named(atoms.window_type->0),
            kind: PropertyKind::Atom,
            values: seq![atoms.tooltip->0],
        },
    )
}

/// The window takes no input.
pub open spec fn hints_command() -> FocusCommandView {
    FocusCommandView::Replace {
        property: Property::WmHints,
        kind: PropertyKind::WmHints,
        values: seq![1u32, 0u32, 0u32, 0u32, 0u32, 0u32, 0u32, 0u32, 0u32],
    }
}

/// The window is told only that it is to close.
pub open spec fn protocols_command(atoms: FocusAtoms) -> Seq<FocusCommandView> {
    command_if(
        atoms.wm_protocols is Some && atoms.wm_delete_window is Some,
        FocusCommandView::Replace {
            property: Property::Named(atoms.wm_protocols->0),
            kind: PropertyKind::Atom,
            values: seq![atoms.wm_delete_window->0],
        },
    )
}

/// The window is in no list of windows, and above the others.
pub open spec fn state_command(atoms: FocusAtoms) -> Seq<FocusCommandView> {
    command_if(
        atoms.state is Some && atoms.skip_taskbar is Some && atoms.skip_pager is Some
            && atoms.above is Some,
        FocusCommandView::Replace {
            property: Property::Named(atoms.state->0),
            kind: PropertyKind::Atom,
            values: seq![atoms.skip_taskbar->0, atoms.skip_pager->0, atoms.above->0],
        },
    )
}

/// The window was not opened by the user.
pub open spec fn user_time_command(atoms: FocusAtoms) -> Seq<FocusCommandView> {
    command_if(
        atoms.user_time != 0,
        FocusCommandView::Replace {
            property: Property::Named(atoms.user_time),
            kind: PropertyKind::Cardinal,
            values: seq![0u32],
        },
    )
}

/// All that keeps the popup from taking the focus.
pub open spec fn configuration(atoms: FocusAtoms) -> Seq<FocusCommandView> {
    type_command(atoms) + seq![hints_command()] + protocols_command(atoms) + state_command(atoms)
        + seq![FocusCommandView::OverrideRedirect] + user_time_command(atoms) + seq![
        FocusCommandView::Flush,
    ]
}

/// What goes before the popup is shown, besides the configuration.
pub open spec fn preparation(atoms: FocusAtoms) -> Seq<FocusCommandView> {
    seq![FocusCommandView::OverrideRedirect] + user_time_command(atoms) + seq![
        FocusCommandView::RaiseAbove,
        FocusCommandView::Flush,
    ]
}

fn push_command(commands: &mut Vec<FocusCommand>, command: FocusCommand)
    ensures
        command_views(final(commands)@) == command_views(old(commands)@).push(command@),
{
    let ghost before = commands@;
    commands.push(command);
    assert(command_views(commands@) =~= command_views(before).push(command@));
}

fn push_replace(
    commands: &mut Vec<FocusCommand>,
    property: Property,
    kind: PropertyKind,
    values: Vec<u32>,
)
    ensures
        command_views(final(commands)@) == command_views(old(commands)@).push(
            FocusCommandView::Replace { property, kind, values: values@ },
        ),
{
    push_command(commands, FocusCommand::Replace { property, kind, values });
}

fn push_user_time(commands: &mut Vec<FocusCommand>, atoms: &FocusAtoms)
    ensures
        command_views(final(commands)@) == command_views(old(commands)@) + user_time_command(
            *atoms,
        ),
{
    if atoms.user_time != 0 {
        let mut values: Vec<u32> = Vec::new();
        values.push(0);
        assert(values@ =~= seq![0u32]);
        push_replace(
            commands,
            Property::Named(atoms.user_time),
            PropertyKind::Cardinal,
            values,
        );
    }
    assert(command_views(commands@) =~= command_views(old(commands)@) + user_time_command(*atoms));
}

/// The popup's window, and the names that the server knows.
#[derive(Debug)]
pub struct PopupFocusControl {
    /// Missing where there is no X11 server.
    pub atoms: Option<FocusAtoms>,
    pub window_id: Option<u32>,
    pub configured: bool,
}

impl PopupFocusControl {
    /// Asks for the names. `intern` asks an X11 server for one; it is missing where there is no
    /// server.
    pub fn new<F: Fn(&'static str) -> Option<u32>>(intern: Option<&F>) -> (r: Self)
        requires
            intern is Some ==> forall|name: &'static str| #[trigger]
                call_requires(*intern->0, (name,)),
        ensures
            r.window_id is None,
            !r.configured,
            match intern {
                None => r.atoms is None,
                Some(intern) => {
                    &&& r.atoms is Some
                    &&& exists|user_time: Option<u32>|
                        {
                            &&& #[trigger] interned(*intern, "_NET_WM_USER_TIME"@, user_time)
                            &&& r.atoms->0.user_time == (match user_time {
                                Some(atom) => atom,
                                None => 0,
                            })
                        }
                    &&& interned(*intern, "_NET_WM_WINDOW_TYPE"@, r.atoms->0.window_type)
                    &&& interned(*intern, "_NET_WM_WINDOW_TYPE_TOOLTIP"@, r.atoms->0.tooltip)
                    &&& interned(*intern, "_NET_WM_STATE"@, r.atoms->0.state)
                    &&& interned(*intern, "_NET_WM_STATE_SKIP_TASKBAR"@, r.atoms->0.skip_taskbar)
                    &&& interned(*intern, "_NET_WM_STATE_SKIP_PAGER"@, r.atoms->0.skip_pager)
                    &&& interned(*intern, "_NET_WM_STATE_ABOVE"@, r.atoms->0.above)
                    &&& interned(*intern, "WM_PROTOCOLS"@, r.atoms->0.wm_protocols)
                    &&& interned(*intern, "WM_DELETE_WINDOW"@, r.atoms->0.wm_delete_window)
                },
            },
    {
        let intern = match intern {
            Some(intern) => intern,
            None => return PopupFocusControl { atoms: None, window_id: None, configured: false },
        };
        let user_time = intern("_NET_WM_USER_TIME");
        assert(interned(*intern, "_NET_WM_USER_TIME"@, user_time));
        let window_type = intern("_NET_WM_WINDOW_TYPE");
        let tooltip = intern("_NET_WM_WINDOW_TYPE_TOOLTIP");
        let state = intern("_NET_WM_STATE");
        let skip_taskbar = intern("_NET_WM_STATE_SKIP_TASKBAR");
        let skip_pager = intern("_NET_WM_STATE_SKIP_PAGER");
        let above = intern("_NET_WM_STATE_ABOVE");
        let wm_protocols = intern("WM_PROTOCOLS");
        let wm_delete_window = intern("WM_DELETE_WINDOW");
        let user_time: u32 = match user_time {
            Some(atom) => atom,
            None => 0,
        };
        PopupFocusControl {
            atoms: Some(
                FocusAtoms {
                    user_time,
                    window_type,
                    tooltip,
                    state,
                    skip_taskbar,
                    skip_pager,
                    above,
                    wm_protocols,
                    wm_delete_window,
                },
            ),
            window_id: None,
            configured: false,
        }
    }

    /// What is to be requested for the popup's window, once it is known: `found` is its number,
    /// where it can be had now.
    pub fn ensure_configured(&mut self, found: Option<u32>) -> (r: Vec<FocusCommand>)
        ensures
            final(self).atoms == old(self).atoms,
            if old(self).atoms is None {
                command_views(r@) == Seq::<FocusCommandView>::empty() && *final(self) == *old(self)
            } else {
                &&& final(self).window_id == (if old(self).window_id is Some {
                    old(self).window_id
                } else {
                    found
                })
                &&& if final(self).window_id is Some {
                    command_views(r@) == configuration(old(self).atoms->0) && final(self).configured
                } else {
                    command_views(r@) == Seq::<FocusCommandView>::empty() && final(self).configured
                        == old(self).configured
                }
            },
    {
        let mut commands: Vec<FocusCommand> = Vec::new();
        assert(command_views(commands@) =~= Seq::<FocusCommandView>::empty());
        let atoms = match self.atoms {
            Some(atoms) => atoms,
            None => return commands,
        };
        if self.window_id.is_none() {
            self.window_id = found;
        }
        if self.window_id.is_none() {
            return commands;
        }
        if let (Some(window_type), Some(tooltip)) = (atoms.window_type, atoms.tooltip) {
            let mut values: Vec<u32> = Vec::new();
            values.push(tooltip);
            assert(values@ =~= seq![tooltip]);
            push_replace(
                &mut commands,
                Property::Named(window_type),
                PropertyKind::Atom,
                values,
            );
        }
        let ghost done = type_command(atoms);
        assert(command_views(commands@) =~= done);
        let mut hints: Vec<u32> = Vec::new();
        hints.push(1);
        let mut i: usize = 0;
        while i < 8
            invariant
                i <= 8,
                hints@.len() == i + 1,
                hints@[0] == 1,
                forall|j: int| 1 <= j < hints@.len() ==> hints@[j] == 0,
            decreases 8 - i,
        {
            hints.push(0);
            i += 1;
        }
        assert(hints@ =~= seq![1u32, 0u32, 0u32, 0u32, 0u32, 0u32, 0u32, 0u32, 0u32]);
        push_replace(&mut commands, Property::WmHints, PropertyKind::WmHints, hints);
        let ghost done = done + seq![hints_command()];
        assert(command_views(commands@) =~= done);
        if let (Some(protocols), Some(delete)) = (atoms.wm_protocols, atoms.wm_delete_window) {
            let mut values: Vec<u32> = Vec::new();
            values.push(delete);
            assert(values@ =~= seq![delete]);
            push_replace(&mut commands, Property::Named(protocols), PropertyKind::Atom, values);
        }
        let ghost done = done + protocols_command(atoms);
        assert(command_views(commands@) =~= done);
        if let (Some(state), Some(skip_taskbar), Some(skip_pager), Some(above)) = (
            atoms.state,
            atoms.skip_taskbar,
            atoms.skip_pager,
            atoms.above,
        ) {
            let mut values: Vec<u32> = Vec::new();
            values.push(skip_taskbar);
            values.push(skip_pager);
            values.push(above);
            assert(values@ =~= seq![skip_taskbar, skip_pager, above]);
            push_replace(&mut commands, Property::Named(state), PropertyKind::Atom, values);
        }
        let ghost done = done + state_command(atoms);
        assert(command_views(commands@) =~= done);
        push_command(&mut commands, FocusCommand::OverrideRedirect);
        let ghost done = done + seq![FocusCommandView::OverrideRedirect];
        assert(command_views(commands@) =~= done);
        push_user_time(&mut commands, &atoms);
        push_command(&mut commands, FocusCommand::Flush);
        assert(command_views(commands@) =~= configuration(atoms));
        self.configured = true;
        commands
    }

    /// What is to be requested before the popup is shown.
    pub fn prepare_show(&mut self, found: Option<u32>) -> (r: Vec<FocusCommand>)
        ensures
            final(self).atoms == old(self).atoms,
            ({
                let window = if old(self).window_id is Some {
                    old(self).window_id
                } else {
                    found
                };
                if old(self).atoms is None {
                    command_views(r@) == Seq::<FocusCommandView>::empty() && *final(self) == *old(
                        self,
                    )
                } else {
                    &&& final(self).window_id == window
                    &&& final(self).configured == (window is Some || old(self).configured)
                    &&& command_views(r@) == (if window is Some {
                        configuration(old(self).atoms->0) + preparation(old(self).atoms->0)
                    } else {
                        Seq::<FocusCommandView>::empty()
                    })
                }
            }),
    {
        let mut commands = self.ensure_configured(found);
        let ghost done = command_views(commands@);
        if let Some(atoms) = self.atoms {
            if self.window_id.is_some() {
                push_command(&mut commands, FocusCommand::OverrideRedirect);
                push_user_time(&mut commands, &atoms);
                push_command(&mut commands, FocusCommand::RaiseAbove);
                push_command(&mut commands, FocusCommand::Flush);
                assert(command_views(commands@) =~= done + preparation(atoms));
            }
        }
        commands
    }
}

/// However few names the server knows, the popup takes no input and is out of the hands of the
/// window manager.
pub proof fn law_popup_never_takes_the_focus(atoms: FocusAtoms)
    ensures
        configuration(atoms).contains(hints_command()),
        configuration(atoms).contains(FocusCommandView::OverrideRedirect),
        configuration(atoms).last() == FocusCommandView::Flush,
{
    let first = type_command(atoms);
    let all = configuration(atoms);
    assert(all[first.len() as int] == hints_command());
    let before = first.len() + 1 + protocols_command(atoms).len() + state_command(atoms).len();
    assert(all[before as int] == FocusCommandView::OverrideRedirect);
}

/// With all names known, the window becomes a tooltip without input that is told only of being
/// closed, is in no list and above the others, is out of the hands of the window manager, and was
/// not opened by the user.
pub proof fn law_all_names_are_used(atoms: FocusAtoms)
    requires
        atoms.window_type is Some && atoms.tooltip is Some,
        atoms.wm_protocols is Some && atoms.wm_delete_window is Some,
        atoms.state is Some && atoms.skip_taskbar is Some && atoms.skip_pager is Some
            && atoms.above is Some,
        atoms.user_time != 0,
    ensures
        configuration(atoms) == seq![
            FocusCommandView::Replace {
                property: Property::Named(atoms.window_type->0),
                kind: PropertyKind::Atom,
                values: seq![atoms.tooltip->0],
            },
            FocusCommandView::Replace {
                property: Property::WmHints,
                kind: PropertyKind::WmHints,
                values: seq![1u32, 0u32, 0u32, 0u32, 0u32, 0u32, 0u32, 0u32, 0u32],
            },
            FocusCommandView::Replace {
                property: Property::Named(atoms.wm_protocols->0),
                kind: PropertyKind::Atom,
                values: seq![atoms.wm_delete_window->0],
            },
            FocusCommandView::Replace {
                property: Property::Named(atoms.state->0),
                kind: PropertyKind::Atom,
                values: seq![atoms.skip_taskbar->0, atoms.skip_pager->0, atoms.above->0],
            },
            FocusCommandView::OverrideRedirect,
            FocusCommandView::Replace {
                property: Property::Named(atoms.user_time),
                kind: PropertyKind::Cardinal,
                values: seq![0u32],
            },
            FocusCommandView::Flush,
        ],
        preparation(atoms) == seq![
            FocusCommandView::OverrideRedirect,
            FocusCommandView::Replace {
                property: Property::Named(atoms.user_time),
                kind: PropertyKind::Cardinal,
                values: seq![0u32],
            },
            FocusCommandView::RaiseAbove,
            FocusCommandView::Flush,
        ],
{
    assert(configuration(atoms) =~= seq![
        type_command(atoms)[0],
        hints_command(),
        protocols_command(atoms)[0],
        state_command(atoms)[0],
        FocusCommandView::OverrideRedirect,
        user_time_command(atoms)[0],
        FocusCommandView::Flush,
    ]);
    assert(preparation(atoms) =~= seq![
        FocusCommandView::OverrideRedirect,
        user_time_command(atoms)[0],
        FocusCommandView::RaiseAbove,
        FocusCommandView::Flush,
    ]);
}

/// What needs a name that is missing is left out, and nothing else.
pub proof fn law_missing_names_are_left_out(atoms: FocusAtoms)
    ensures
        ({
            let has_type = atoms.window_type is Some && atoms.tooltip is Some;
            let has_protocols = atoms.wm_protocols is Some && atoms.wm_delete_window is Some;
            let has_state = atoms.state is Some && atoms.skip_taskbar is Some
                && atoms.skip_pager is Some && atoms.above is Some;
            let has_time = atoms.user_time != 0;
            let count = |present: bool|
                if present {
                    1int
                } else {
                    0int
                };
            &&& configuration(atoms).len() == 3 + count(has_type) + count(has_protocols) + count(
                has_state,
            ) + count(has_time)
            &&& preparation(atoms).len() == 3 + count(has_time)
            &&& (type_command(atoms).len() == 0 <==> !has_type)
            &&& (protocols_command(atoms).len() == 0 <==> !has_protocols)
            &&& (state_command(atoms).len() == 0 <==> !has_state)
            &&& (user_time_command(atoms).len() == 0 <==> !has_time)
        }),
{
}

} // verus!
