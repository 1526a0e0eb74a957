//! The interactive controller: the current screen, the add-wizard
//! buffers, the cyclic selector over the registry's names, and the
//! dispatch of one input event to one transition, given by the
//! transition function `step`.

use vstd::prelude::*;
use crate::registry::{
    Manager, ManagerV, Instance, InstanceV, has_key, entry_at, upsert_entries, remove_entries,
    new_default_name, default_name,
};
use crate::strutil::{push_char, pop_char};

verus! {

/// The screen the controller shows; exactly one is active.
#[derive(Clone, Copy, PartialEq, Eq, Structural, Debug)]
pub enum CurrentScreen {
    Main,
    Add,
    Remove,
    Exit,
}

/// The field of the add-wizard that has focus.
#[derive(Clone, Copy, PartialEq, Eq, Structural, Debug)]
pub enum CurrentlyAdding {
    Name,
    FolderName,
    SmapiPath,
}

/// One discrete input event, as the controller sees it.
#[derive(Clone, Copy, PartialEq, Eq, Structural, Debug)]
pub enum Key {
    Up,
    Down,
    Enter,
    Backspace,
    Esc,
    Tab,
    Char(char),
    Other,
}

/// What the surrounding program must do after a transition.
pub enum Effect {
    /// Nothing.
    NoOp,
    /// Launch the instance: run the launcher at `path` on the mods
    /// folder `folder` and wait for it.
    Launch { path: String, folder: String },
    /// Try to delete the mods folder `folder` of the instance named
    /// `name`, then report the outcome through `finish_remove`.
    DeleteFolder { name: String, folder: String },
    /// Terminate the program.
    Quit,
}

/// The abstract value of an `Effect`.
#[verifier::ext_equal]
pub enum EffectV {
    NoOp,
    Launch { path: Seq<char>, folder: Seq<char> },
    DeleteFolder { name: Seq<char>, folder: Seq<char> },
    Quit,
}

impl View for Effect {
    type V = EffectV;

    open spec fn view(&self) -> EffectV {
        match self {
            Effect::NoOp => EffectV::NoOp,
            Effect::Launch { path, folder } => EffectV::Launch {
                path: path@,
                folder: folder@,
            },
            Effect::DeleteFolder { name, folder } => EffectV::DeleteFolder {
                name: name@,
                folder: folder@,
            },
            Effect::Quit => EffectV::Quit,
        }
    }
}

/// The controller state.
pub struct App {
    pub manager: Manager,
    pub screen: CurrentScreen,
    pub adding: Option<CurrentlyAdding>,
    pub name_input: String,
    pub folder_name_input: String,
    pub smapi_path_input: String,
    pub current_instance: String,
    pub pending_remove: Option<String>,
}

/// The abstract value of an `App`.
#[verifier::ext_equal]
pub struct AppV {
    pub manager: ManagerV,
    pub screen: CurrentScreen,
    pub adding: Option<CurrentlyAdding>,
    pub name_input: Seq<char>,
    pub folder_name_input: Seq<char>,
    pub smapi_path_input: Seq<char>,
    pub current_instance: Seq<char>,
    pub pending_remove: Option<Seq<char>>,
}

impl View for App {
    type V = AppV;

    open spec fn view(&self) -> AppV {
        AppV {
            manager: self.manager@,
            screen: self.screen,
            adding: self.adding,
            name_input: self.name_input@,
            folder_name_input: self.folder_name_input@,
            smapi_path_input: self.smapi_path_input@,
            current_instance: self.current_instance@,
            pending_remove: match &self.pending_remove {
                Some(t) => Some(t@),
                None => None,
            },
        }
    }
}

impl AppV {
    /// Well-formedness: the registry is sorted and never empty.
    pub open spec fn wf(self) -> bool {
        self.manager.wf() && self.manager.entries.len() >= 1
    }
}

/// The position of a name in the entry list, or -1 if absent.
pub open spec fn key_position(es: Seq<(Seq<char>, InstanceV)>, cur: Seq<char>) -> int
    decreases es.len(),
{
    if es.len() == 0 {
        -1
    } else if es[0].0 == cur {
        0
    } else {
        let r = key_position(es.drop_first(), cur);
        if r == -1 {
            -1
        } else {
            r + 1
        }
    }
}

/// The name after `cur` in cyclic order; an absent `cur` normalizes
/// to the first name, which already satisfies the request.
pub open spec fn next_key(es: Seq<(Seq<char>, InstanceV)>, cur: Seq<char>) -> Seq<char> {
    let i = key_position(es, cur);
    if i == -1 {
        es[0].0
    } else if i + 1 == es.len() {
        es[0].0
    } else {
        es[i + 1].0
    }
}

/// The name before `cur` in cyclic order, with the same
/// normalization.
pub open spec fn prev_key(es: Seq<(Seq<char>, InstanceV)>, cur: Seq<char>) -> Seq<char> {
    let i = key_position(es, cur);
    if i == -1 {
        es[0].0
    } else if i == 0 {
        es[es.len() - 1].0
    } else {
        es[i - 1].0
    }
}

/// The buffer after a backspace.
pub open spec fn popped(s: Seq<char>) -> Seq<char> {
    if s.len() == 0 {
        s
    } else {
        s.drop_last()
    }
}

/// The wizard focus after a `next field` request.
pub open spec fn toggled(o: Option<CurrentlyAdding>) -> Option<CurrentlyAdding> {
    match o {
        None => Some(CurrentlyAdding::Name),
        Some(CurrentlyAdding::Name) => Some(CurrentlyAdding::FolderName),
        Some(CurrentlyAdding::FolderName) => Some(CurrentlyAdding::SmapiPath),
        Some(CurrentlyAdding::SmapiPath) => Some(CurrentlyAdding::Name),
    }
}

/// The instance the wizard commits: the folder buffer, and the path
/// buffer as override unless it is empty.
pub open spec fn committed_instance(a: AppV) -> InstanceV {
    InstanceV {
        folder_name: a.folder_name_input,
        smapi_path: if a.smapi_path_input.len() == 0 {
            None
        } else {
            Some(a.smapi_path_input)
        },
    }
}

/// The transition function: one input event, dispatched by the
/// current screen, gives the next state and the effect to perform.
pub open spec fn step(a: AppV, key: Key) -> (AppV, EffectV) {
    match a.screen {
        CurrentScreen::Main => match key {
            Key::Up => (
                AppV { current_instance: prev_key(a.manager.entries, a.current_instance), ..a },
                EffectV::NoOp,
            ),
            Key::Down => (
                AppV { current_instance: next_key(a.manager.entries, a.current_instance), ..a },
                EffectV::NoOp,
            ),
            Key::Enter => if has_key(a.manager.entries, a.current_instance) {
                let inst = entry_at(a.manager.entries, a.current_instance);
                (
                    a,
                    EffectV::Launch {
                        path: match inst.smapi_path {
                            Some(p) => p,
                            None => a.manager.smapi_path,
                        },
                        folder: inst.folder_name,
                    },
                )
            } else {
                (a, EffectV::NoOp)
            },
            Key::Char(c) => if c == 'a' {
                (
                    AppV {
                        screen: CurrentScreen::Add,
                        adding: Some(CurrentlyAdding::Name),
                        name_input: Seq::empty(),
                        folder_name_input: Seq::empty(),
                        smapi_path_input: Seq::empty(),
                        ..a
                    },
                    EffectV::NoOp,
                )
            } else if c == 'r' {
                (AppV { screen: CurrentScreen::Remove, ..a }, EffectV::NoOp)
            } else if c == 'q' {
                (AppV { screen: CurrentScreen::Exit, ..a }, EffectV::NoOp)
            } else {
                (a, EffectV::NoOp)
            },
            _ => (a, EffectV::NoOp),
        },
        CurrentScreen::Add => match key {
            Key::Enter => match a.adding {
                Some(CurrentlyAdding::Name) => if a.name_input.len() == 0 || has_key(
                    a.manager.entries,
                    a.name_input,
                ) {
                    (a, EffectV::NoOp)
                } else {
                    (AppV { adding: Some(CurrentlyAdding::FolderName), ..a }, EffectV::NoOp)
                },
                Some(CurrentlyAdding::FolderName) => (
                    AppV { adding: Some(CurrentlyAdding::SmapiPath), ..a },
                    EffectV::NoOp,
                ),
                Some(CurrentlyAdding::SmapiPath) => (
                    AppV {
                        manager: ManagerV {
                            entries: upsert_entries(
                                a.manager.entries,
                                a.name_input,
                                committed_instance(a),
                            ),
                            smapi_path: a.manager.smapi_path,
                        },
                        screen: CurrentScreen::Main,
                        adding: None,
                        name_input: Seq::empty(),
                        folder_name_input: Seq::empty(),
                        smapi_path_input: Seq::empty(),
                        ..a
                    },
                    EffectV::NoOp,
                ),
                None => (a, EffectV::NoOp),
            },
            Key::Backspace => match a.adding {
                Some(CurrentlyAdding::Name) => (
                    AppV { name_input: popped(a.name_input), ..a },
                    EffectV::NoOp,
                ),
                Some(CurrentlyAdding::FolderName) => (
                    AppV { folder_name_input: popped(a.folder_name_input), ..a },
                    EffectV::NoOp,
                ),
                Some(CurrentlyAdding::SmapiPath) => (
                    AppV { smapi_path_input: popped(a.smapi_path_input), ..a },
                    EffectV::NoOp,
                ),
                None => (a, EffectV::NoOp),
            },
            Key::Esc => (
                AppV {
                    screen: CurrentScreen::Main,
                    adding: None,
                    name_input: Seq::empty(),
                    folder_name_input: Seq::empty(),
                    smapi_path_input: Seq::empty(),
                    ..a
                },
                EffectV::NoOp,
            ),
            Key::Tab => (AppV { adding: toggled(a.adding), ..a }, EffectV::NoOp),
            Key::Char(c) => match a.adding {
                Some(CurrentlyAdding::Name) => (
                    AppV { name_input: a.name_input.push(c), ..a },
                    EffectV::NoOp,
                ),
                Some(CurrentlyAdding::FolderName) => (
                    AppV { folder_name_input: a.folder_name_input.push(c), ..a },
                    EffectV::NoOp,
                ),
                Some(CurrentlyAdding::SmapiPath) => (
                    AppV { smapi_path_input: a.smapi_path_input.push(c), ..a },
                    EffectV::NoOp,
                ),
                None => (a, EffectV::NoOp),
            },
            _ => (a, EffectV::NoOp),
        },
        CurrentScreen::Exit => match key {
            Key::Char(c) => if c == 'y' || c == 'q' {
                (a, EffectV::Quit)
            } else if c == 'n' {
                (AppV { screen: CurrentScreen::Main, ..a }, EffectV::NoOp)
            } else {
                (a, EffectV::NoOp)
            },
            _ => (a, EffectV::NoOp),
        },
        CurrentScreen::Remove => match key {
            Key::Char(c) => if c == 'n' {
                (AppV { screen: CurrentScreen::Main, ..a }, EffectV::NoOp)
            } else if c == 'y' {
                let target = a.current_instance;
                let moved = next_key(a.manager.entries, target);
                if has_key(a.manager.entries, target) && a.manager.entries.len() >= 2 {
                    (
                        AppV {
                            manager: ManagerV {
                                entries: remove_entries(a.manager.entries, target),
                                smapi_path: a.manager.smapi_path,
                            },
                            screen: CurrentScreen::Main,
                            current_instance: moved,
                            ..a
                        },
                        EffectV::NoOp,
                    )
                } else {
                    (
                        AppV { screen: CurrentScreen::Main, current_instance: moved, ..a },
                        EffectV::NoOp,
                    )
                }
            } else if c == 'a' {
                if has_key(a.manager.entries, a.current_instance) && a.manager.entries.len()
                    >= 2 {
                    let target = a.current_instance;
                    let inst = entry_at(a.manager.entries, target);
                    (
                        AppV {
                            screen: CurrentScreen::Main,
                            current_instance: next_key(a.manager.entries, target),
                            pending_remove: Some(target),
                            ..a
                        },
                        EffectV::DeleteFolder { name: target, folder: inst.folder_name },
                    )
                } else {
                    (AppV { screen: CurrentScreen::Main, ..a }, EffectV::NoOp)
                }
            } else {
                (a, EffectV::NoOp)
            },
            _ => (a, EffectV::NoOp),
        },
    }
}

/// The state after the reported outcome of a requested folder
/// deletion: the pending entry leaves the registry exactly when the
/// deletion succeeded (and removal is still possible).
pub open spec fn step_finish(a: AppV, deleted: bool) -> AppV {
    match a.pending_remove {
        Some(target) => if deleted && has_key(a.manager.entries, target) && a.manager.entries.len()
            >= 2 {
            AppV {
                manager: ManagerV {
                    entries: remove_entries(a.manager.entries, target),
                    smapi_path: a.manager.smapi_path,
                },
                pending_remove: None,
                ..a
            }
        } else {
            AppV { pending_remove: None, ..a }
        },
        None => a,
    }
}

} // verus!

verus! {

/// The position spec finds the (unique) index of a present name.
proof fn lemma_key_position_found(es: Seq<(Seq<char>, InstanceV)>, cur: Seq<char>, j: int)
    requires
        0 <= j < es.len(),
        es[j].0 == cur,
        forall|k: int| 0 <= k < j ==> (#[trigger] es[k].0) != cur,
    ensures
        key_position(es, cur) == j,
    decreases j,
{
    if j > 0 {
        let tail = es.drop_first();
        assert(tail[j - 1].0 == cur);
        assert(forall|k: int| 0 <= k < j - 1 ==> (#[trigger] tail[k].0) != cur);
        lemma_key_position_found(tail, cur, j - 1);
    }
}

/// The position spec reports -1 exactly for an absent name.
proof fn lemma_key_position_absent(es: Seq<(Seq<char>, InstanceV)>, cur: Seq<char>)
    requires
        forall|k: int| 0 <= k < es.len() ==> (#[trigger] es[k].0) != cur,
    ensures
        key_position(es, cur) == -1,
    decreases es.len(),
{
    if es.len() > 0 {
        let tail = es.drop_first();
        assert(forall|k: int| 0 <= k < tail.len() ==> (#[trigger] tail[k].0) != cur);
        lemma_key_position_absent(tail, cur);
    }
}

impl App {
    /// A controller over a loaded or freshly seeded registry, on the
    /// main screen with no wizard and the seed name selected.
    pub fn new(manager: Manager) -> (r: App)
        requires
            manager@.wf(),
            manager@.entries.len() >= 1,
        ensures
            r@ == (AppV {
                manager: manager@,
                screen: CurrentScreen::Main,
                adding: None,
                name_input: Seq::empty(),
                folder_name_input: Seq::empty(),
                smapi_path_input: Seq::empty(),
                current_instance: default_name(),
                pending_remove: None,
            }),
            r@.wf(),
    {
        let r = App {
            manager,
            screen: CurrentScreen::Main,
            adding: None,
            name_input: String::new(),
            folder_name_input: String::new(),
            smapi_path_input: String::new(),
            current_instance: new_default_name(),
            pending_remove: None,
        };
        proof {
            assert(r@ =~= (AppV {
                manager: r.manager@,
                screen: CurrentScreen::Main,
                adding: None,
                name_input: Seq::empty(),
                folder_name_input: Seq::empty(),
                smapi_path_input: Seq::empty(),
                current_instance: default_name(),
                pending_remove: None,
            }));
        }
        r
    }

    /// The index of the selected name in the registry, if present.
    fn find_current(&self) -> (r: Option<usize>)
        ensures
            match r {
                Some(j) => j < self.manager@.entries.len() && key_position(
                    self.manager@.entries,
                    self.current_instance@,
                ) == j as int,
                None => key_position(self.manager@.entries, self.current_instance@) == -1,
            },
    {
        let ghost es = self.manager@.entries;
        let mut j: usize = 0;
        while j < self.manager.instances.len()
            invariant
                j <= es.len(),
                es == self.manager@.entries,
                es.len() == self.manager.instances@.len(),
                forall|k: int| 0 <= k < j ==> (#[trigger] es[k].0) != self.current_instance@,
            decreases es.len() - j,
        {
            if self.manager.instances[j].0 == self.current_instance {
                proof {
                    assert(es[j as int].0 == self.manager.instances@[j as int].0@);
                    lemma_key_position_found(es, self.current_instance@, j as int);
                }
                return Some(j);
            }
            proof {
                assert(es[j as int].0 == self.manager.instances@[j as int].0@);
            }
            j += 1;
        }
        proof {
            lemma_key_position_absent(es, self.current_instance@);
        }
        None
    }

    /// Moves the selection to the next name in cyclic order.
    pub fn select_next(&mut self)
        requires
            old(self)@.wf(),
        ensures
            final(self)@ == (AppV {
                current_instance: next_key(old(self)@.manager.entries, old(self)@.current_instance),
                ..old(self)@
            }),
            final(self)@.wf(),
    {
        let n = self.manager.instances.len();
        let ni: usize = match self.find_current() {
            Some(j) => if j + 1 == n {
                0
            } else {
                j + 1
            },
            None => 0,
        };
        self.current_instance = self.manager.instances[ni].0.clone();
        proof {
            assert(self.current_instance@ == self.manager@.entries[ni as int].0);
            assert(self@ =~= (AppV {
                current_instance: next_key(old(self)@.manager.entries, old(self)@.current_instance),
                ..old(self)@
            }));
        }
    }

    /// Moves the selection to the previous name in cyclic order.
    pub fn select_prev(&mut self)
        requires
            old(self)@.wf(),
        ensures
            final(self)@ == (AppV {
                current_instance: prev_key(old(self)@.manager.entries, old(self)@.current_instance),
                ..old(self)@
            }),
            final(self)@.wf(),
    {
        let n = self.manager.instances.len();
        let pi: usize = match self.find_current() {
            Some(j) => if j == 0 {
                n - 1
            } else {
                j - 1
            },
            None => 0,
        };
        self.current_instance = self.manager.instances[pi].0.clone();
        proof {
            assert(self.current_instance@ == self.manager@.entries[pi as int].0);
            assert(self@ =~= (AppV {
                current_instance: prev_key(old(self)@.manager.entries, old(self)@.current_instance),
                ..old(self)@
            }));
        }
    }

    /// Cycles the wizard focus, or opens the wizard at its first
    /// field.
    pub fn toggle_adding(&mut self)
        ensures
            final(self)@ == (AppV { adding: toggled(old(self)@.adding), ..old(self)@ }),
    {
        match self.adding {
            Some(CurrentlyAdding::Name) => {
                self.adding = Some(CurrentlyAdding::FolderName);
            },
            Some(CurrentlyAdding::FolderName) => {
                self.adding = Some(CurrentlyAdding::SmapiPath);
            },
            Some(CurrentlyAdding::SmapiPath) => {
                self.adding = Some(CurrentlyAdding::Name);
            },
            None => {
                self.adding = Some(CurrentlyAdding::Name);
            },
        }
        proof {
            assert(self@ =~= (AppV { adding: toggled(old(self)@.adding), ..old(self)@ }));
        }
    }

    /// Commits the wizard buffers as an instance under the name
    /// buffer (inserting or overwriting) and clears all buffers.
    pub fn save_instance(&mut self)
        requires
            old(self)@.wf(),
        ensures
            final(self)@ == (AppV {
                manager: ManagerV {
                    entries: upsert_entries(
                        old(self)@.manager.entries,
                        old(self)@.name_input,
                        committed_instance(old(self)@),
                    ),
                    smapi_path: old(self)@.manager.smapi_path,
                },
                name_input: Seq::empty(),
                folder_name_input: Seq::empty(),
                smapi_path_input: Seq::empty(),
                ..old(self)@
            }),
            final(self)@.wf(),
    {
        let inst = if self.smapi_path_input.as_str().is_empty() {
            Instance::new(self.folder_name_input.clone(), None)
        } else {
            Instance::new(self.folder_name_input.clone(), Some(self.smapi_path_input.clone()))
        };
        let name = self.name_input.clone();
        self.manager.add_instance(inst, name);
        self.name_input = String::new();
        self.folder_name_input = String::new();
        self.smapi_path_input = String::new();
        proof {
            assert(self@ =~= (AppV {
                manager: ManagerV {
                    entries: upsert_entries(
                        old(self)@.manager.entries,
                        old(self)@.name_input,
                        committed_instance(old(self)@),
                    ),
                    smapi_path: old(self)@.manager.smapi_path,
                },
                name_input: Seq::empty(),
                folder_name_input: Seq::empty(),
                smapi_path_input: Seq::empty(),
                ..old(self)@
            }));
        }
    }

    /// Applies the reported outcome of a requested folder deletion:
    /// on success the pending entry is removed, otherwise it stays;
    /// either way nothing stays pending.
    pub fn finish_remove(&mut self, deleted: bool)
        requires
            old(self)@.wf(),
        ensures
            final(self)@ == step_finish(old(self)@, deleted),
            final(self)@.wf(),
    {
        let target: Option<String> = match &self.pending_remove {
            Some(t) => Some(t.clone()),
            None => None,
        };
        self.pending_remove = None;
        match target {
            Some(t) => {
                if deleted {
                    let _ = self.manager.remove_instance(&t, Some(true));
                    proof {
                        assert(self@ =~= step_finish(old(self)@, deleted));
                    }
                } else {
                    proof {
                        assert(self@ =~= step_finish(old(self)@, deleted));
                    }
                }
            },
            None => {
                proof {
                    assert(self@ =~= step_finish(old(self)@, deleted));
                }
            },
        }
    }
}

} // verus!

verus! {

impl App {
    /// Dispatches one input event: exactly the transition `step`
    /// fires, and the returned effect is the one it prescribes.
    pub fn handle_key(&mut self, key: Key) -> (eff: Effect)
        requires
            old(self)@.wf(),
        ensures
            final(self)@ == step(old(self)@, key).0,
            eff@ == step(old(self)@, key).1,
            final(self)@.wf(),
    {
        let screen = self.screen;
        match screen {
            CurrentScreen::Main => match key {
                Key::Up => {
                    self.select_prev();
                    Effect::NoOp
                },
                Key::Down => {
                    self.select_next();
                    Effect::NoOp
                },
                Key::Enter => {
                    match self.manager.lookup(&self.current_instance) {
                        Some(inst) => {
                            let path = match &inst.smapi_path {
                                Some(p) => p.clone(),
                                None => self.manager.smapi_path.clone(),
                            };
                            let folder = inst.folder_name.clone();
                            let eff = Effect::Launch { path, folder };
                            proof {
                                assert(eff@ =~= step(old(self)@, key).1);
                            }
                            eff
                        },
                        None => Effect::NoOp,
                    }
                },
                Key::Char(c) => {
                    if c == 'a' {
                        self.screen = CurrentScreen::Add;
                        self.adding = Some(CurrentlyAdding::Name);
                        self.name_input = String::new();
                        self.folder_name_input = String::new();
                        self.smapi_path_input = String::new();
                        proof {
                            assert(self@ =~= step(old(self)@, key).0);
                        }
                    } else if c == 'r' {
                        self.screen = CurrentScreen::Remove;
                        proof {
                            assert(self@ =~= step(old(self)@, key).0);
                        }
                    } else if c == 'q' {
                        self.screen = CurrentScreen::Exit;
                        proof {
                            assert(self@ =~= step(old(self)@, key).0);
                        }
                    }
                    Effect::NoOp
                },
                _ => Effect::NoOp,
            },
            CurrentScreen::Add => match key {
                Key::Enter => {
                    let adding = self.adding;
                    match adding {
                        Some(CurrentlyAdding::Name) => {
                            if self.name_input.as_str().is_empty() {
                                Effect::NoOp
                            } else if self.manager.contains_name(&self.name_input) {
                                Effect::NoOp
                            } else {
                                self.adding = Some(CurrentlyAdding::FolderName);
                                proof {
                                    assert(self@ =~= step(old(self)@, key).0);
                                }
                                Effect::NoOp
                            }
                        },
                        Some(CurrentlyAdding::FolderName) => {
                            self.adding = Some(CurrentlyAdding::SmapiPath);
                            proof {
                                assert(self@ =~= step(old(self)@, key).0);
                            }
                            Effect::NoOp
                        },
                        Some(CurrentlyAdding::SmapiPath) => {
                            self.save_instance();
                            self.screen = CurrentScreen::Main;
                            self.adding = None;
                            proof {
                                assert(self@ =~= step(old(self)@, key).0);
                            }
                            Effect::NoOp
                        },
                        None => Effect::NoOp,
                    }
                },
                Key::Backspace => {
                    let adding = self.adding;
                    match adding {
                        Some(CurrentlyAdding::Name) => {
                            let _ = pop_char(&mut self.name_input);
                        },
                        Some(CurrentlyAdding::FolderName) => {
                            let _ = pop_char(&mut self.folder_name_input);
                        },
                        Some(CurrentlyAdding::SmapiPath) => {
                            let _ = pop_char(&mut self.smapi_path_input);
                        },
                        None => {},
                    }
                    proof {
                        assert(self@ =~= step(old(self)@, key).0);
                    }
                    Effect::NoOp
                },
                Key::Esc => {
                    self.screen = CurrentScreen::Main;
                    self.adding = None;
                    self.name_input = String::new();
                    self.folder_name_input = String::new();
                    self.smapi_path_input = String::new();
                    proof {
                        assert(self@ =~= step(old(self)@, key).0);
                    }
                    Effect::NoOp
                },
                Key::Tab => {
                    self.toggle_adding();
                    Effect::NoOp
                },
                Key::Char(c) => {
                    let adding = self.adding;
                    match adding {
                        Some(CurrentlyAdding::Name) => {
                            push_char(&mut self.name_input, c);
                        },
                        Some(CurrentlyAdding::FolderName) => {
                            push_char(&mut self.folder_name_input, c);
                        },
                        Some(CurrentlyAdding::SmapiPath) => {
                            push_char(&mut self.smapi_path_input, c);
                        },
                        None => {},
                    }
                    proof {
                        assert(self@ =~= step(old(self)@, key).0);
                    }
                    Effect::NoOp
                },
                _ => Effect::NoOp,
            },
            CurrentScreen::Exit => match key {
                Key::Char(c) => {
                    if c == 'y' || c == 'q' {
                        Effect::Quit
                    } else if c == 'n' {
                        self.screen = CurrentScreen::Main;
                        proof {
                            assert(self@ =~= step(old(self)@, key).0);
                        }
                        Effect::NoOp
                    } else {
                        Effect::NoOp
                    }
                },
                _ => Effect::NoOp,
            },
            CurrentScreen::Remove => match key {
                Key::Char(c) => {
                    if c == 'n' {
                        self.screen = CurrentScreen::Main;
                        proof {
                            assert(self@ =~= step(old(self)@, key).0);
                        }
                        Effect::NoOp
                    } else if c == 'y' {
                        let target = self.current_instance.clone();
                        self.select_next();
                        let _ = self.manager.remove_instance(&target, None);
                        self.screen = CurrentScreen::Main;
                        proof {
                            assert(self@ =~= step(old(self)@, key).0);
                        }
                        Effect::NoOp
                    } else if c == 'a' {
                        if self.manager.instances.len() < 2 {
                            self.screen = CurrentScreen::Main;
                            proof {
                                assert(self@ =~= step(old(self)@, key).0);
                            }
                            return Effect::NoOp;
                        }
                        let looked: Option<String> = match self.manager.lookup(
                            &self.current_instance,
                        ) {
                            Some(inst) => Some(inst.folder_name.clone()),
                            None => None,
                        };
                        match looked {
                            Some(folder) => {
                                let target = self.current_instance.clone();
                                self.select_next();
                                self.pending_remove = Some(target.clone());
                                self.screen = CurrentScreen::Main;
                                let eff = Effect::DeleteFolder { name: target, folder };
                                proof {
                                    assert(self@ =~= step(old(self)@, key).0);
                                    assert(eff@ =~= step(old(self)@, key).1);
                                }
                                eff
                            },
                            None => {
                                self.screen = CurrentScreen::Main;
                                proof {
                                    assert(self@ =~= step(old(self)@, key).0);
                                }
                                Effect::NoOp
                            },
                        }
                    } else {
                        Effect::NoOp
                    }
                },
                _ => Effect::NoOp,
            },
        }
    }
}

} // verus!

verus! {

/// The selection after `n` forward steps.
pub open spec fn iter_next(es: Seq<(Seq<char>, InstanceV)>, cur: Seq<char>, n: nat) -> Seq<char>
    decreases n,
{
    if n == 0 {
        cur
    } else {
        iter_next(es, next_key(es, cur), (n - 1) as nat)
    }
}

/// The selection after `n` backward steps.
pub open spec fn iter_prev(es: Seq<(Seq<char>, InstanceV)>, cur: Seq<char>, n: nat) -> Seq<char>
    decreases n,
{
    if n == 0 {
        cur
    } else {
        iter_prev(es, prev_key(es, cur), (n - 1) as nat)
    }
}

/// In a sorted entry list the position of the name at `i` is `i`.
proof fn lemma_position_of_index(es: Seq<(Seq<char>, InstanceV)>, i: int)
    requires
        crate::registry::sorted_entries(es),
        0 <= i < es.len(),
    ensures
        key_position(es, es[i].0) == i,
{
    assert forall|k: int| 0 <= k < i implies (#[trigger] es[k].0) != es[i].0 by {
        assert(crate::lex::lex_lt(es[k].0, es[i].0));
        crate::lex::lemma_lex_irrefl(es[i].0);
    }
    lemma_key_position_found(es, es[i].0, i);
}

/// `n` forward steps from position `i` land at position `(i + n)`
/// modulo the number of entries.
proof fn lemma_iter_next_index(es: Seq<(Seq<char>, InstanceV)>, i: int, n: nat)
    requires
        crate::registry::sorted_entries(es),
        0 <= i < es.len(),
    ensures
        iter_next(es, es[i].0, n) == es[(i + n) % (es.len() as int)].0,
    decreases n,
{
    let len = es.len() as int;
    if n == 0 {
        vstd::arithmetic::div_mod::lemma_small_mod(i as nat, es.len());
    } else {
        lemma_position_of_index(es, i);
        let j: int = if i + 1 == len {
            0
        } else {
            i + 1
        };
        assert(next_key(es, es[i].0) == es[j].0);
        lemma_iter_next_index(es, j, (n - 1) as nat);
        if i + 1 == len {
            vstd::arithmetic::div_mod::lemma_mod_multiples_vanish(1, n - 1, len);
            assert((len * 1 + (n - 1)) % len == (n - 1) % len);
            assert(j + (n - 1) == n - 1);
            assert(i + n == len + (n - 1));
        } else {
            assert(j + (n - 1) == i + n);
        }
    }
}

/// `n` backward steps from position `i` land at position `(i - n)`
/// modulo the number of entries.
proof fn lemma_iter_prev_index(es: Seq<(Seq<char>, InstanceV)>, i: int, n: nat)
    requires
        crate::registry::sorted_entries(es),
        0 <= i < es.len(),
    ensures
        iter_prev(es, es[i].0, n) == es[(i - n) % (es.len() as int)].0,
    decreases n,
{
    let len = es.len() as int;
    if n == 0 {
        vstd::arithmetic::div_mod::lemma_small_mod(i as nat, es.len());
    } else {
        lemma_position_of_index(es, i);
        let j: int = if i == 0 {
            len - 1
        } else {
            i - 1
        };
        assert(prev_key(es, es[i].0) == es[j].0);
        lemma_iter_prev_index(es, j, (n - 1) as nat);
        if i == 0 {
            vstd::arithmetic::div_mod::lemma_mod_multiples_vanish(1, 0 - n, len);
            assert((len * 1 + (0 - n)) % len == (0 - n) % len);
            assert(j - (n - 1) == len - n);
        } else {
            assert(j - (n - 1) == i - n);
        }
    }
}

/// The forward selector cycle: from any present name, as many
/// forward steps as there are entries lead back to that name.
pub proof fn lemma_next_full_cycle(es: Seq<(Seq<char>, InstanceV)>, cur: Seq<char>)
    requires
        crate::registry::sorted_entries(es),
        es.len() >= 1,
        has_key(es, cur),
    ensures
        iter_next(es, cur, es.len()) == cur,
{
    let i = choose|i: int| 0 <= i < es.len() && es[i].0 == cur;
    lemma_iter_next_index(es, i, es.len());
    let len = es.len() as int;
    vstd::arithmetic::div_mod::lemma_mod_multiples_vanish(1, i, len);
    assert((len * 1 + i) % len == i % len);
    vstd::arithmetic::div_mod::lemma_small_mod(i as nat, es.len());
}

/// The backward selector cycle: from any present name, as many
/// backward steps as there are entries lead back to that name.
pub proof fn lemma_prev_full_cycle(es: Seq<(Seq<char>, InstanceV)>, cur: Seq<char>)
    requires
        crate::registry::sorted_entries(es),
        es.len() >= 1,
        has_key(es, cur),
    ensures
        iter_prev(es, cur, es.len()) == cur,
{
    let i = choose|i: int| 0 <= i < es.len() && es[i].0 == cur;
    lemma_iter_prev_index(es, i, es.len());
    let len = es.len() as int;
    vstd::arithmetic::div_mod::lemma_mod_multiples_vanish(1, i - len, len);
    assert((len * 1 + (i - len)) % len == (i - len) % len);
    vstd::arithmetic::div_mod::lemma_small_mod(i as nat, es.len());
    assert((i - len) + len == i);
}

/// Selector identity: one step forward then one step back is
/// the identity on any present name.
pub proof fn lemma_prev_of_next(es: Seq<(Seq<char>, InstanceV)>, cur: Seq<char>)
    requires
        crate::registry::sorted_entries(es),
        es.len() >= 1,
        has_key(es, cur),
    ensures
        prev_key(es, next_key(es, cur)) == cur,
{
    let i = choose|i: int| 0 <= i < es.len() && es[i].0 == cur;
    lemma_position_of_index(es, i);
    let len = es.len() as int;
    let j: int = if i + 1 == len {
        0
    } else {
        i + 1
    };
    assert(next_key(es, cur) == es[j].0);
    lemma_position_of_index(es, j);
}

/// Duplicate names are refused: confirming the wizard at the name field
/// with a name the registry already holds (or an empty name) changes
/// nothing; the wizard stays at the name field.
pub proof fn lemma_duplicate_add_rejected(a: AppV)
    requires
        a.screen == CurrentScreen::Add,
        a.adding == Some(CurrentlyAdding::Name),
        a.name_input.len() == 0 || has_key(a.manager.entries, a.name_input),
    ensures
        step(a, Key::Enter) == (a, EffectV::NoOp),
{
}

} // verus!

verus! {

/// The arguments of the launch: the original hands the terminal
/// emulator `-e steam-run <launcher> --mods-path <folder>`.
pub open spec fn launch_argv(path: Seq<char>, folder: Seq<char>) -> Seq<Seq<char>> {
    seq![
        seq!['-', 'e'],
        seq!['s', 't', 'e', 'a', 'm', '-', 'r', 'u', 'n'],
        path,
        seq!['-', '-', 'm', 'o', 'd', 's', '-', 'p', 'a', 't', 'h'],
        folder,
    ]
}

/// Assembles the argument list a launch effect asks the surrounding
/// program to spawn.
pub fn launch_args(path: String, folder: String) -> (r: Vec<String>)
    ensures
        r@.len() == 5,
        r@.map_values(|s: String| s@) == launch_argv(path@, folder@),
{
    let mut r: Vec<String> = Vec::new();
    let a0 = "-e".to_owned();
    let a1 = "steam-run".to_owned();
    let a3 = "--mods-path".to_owned();
    proof {
        reveal_strlit("-e");
        reveal_strlit("steam-run");
        reveal_strlit("--mods-path");
        assert(a0@ =~= seq!['-', 'e']);
        assert(a1@ =~= seq!['s', 't', 'e', 'a', 'm', '-', 'r', 'u', 'n']);
        assert(a3@ =~= seq!['-', '-', 'm', 'o', 'd', 's', '-', 'p', 'a', 't', 'h']);
    }
    r.push(a0);
    r.push(a1);
    r.push(path);
    r.push(a3);
    r.push(folder);
    proof {
        assert(r@.map_values(|s: String| s@) =~= launch_argv(r@[2]@, r@[4]@));
    }
    r
}

} // verus!
