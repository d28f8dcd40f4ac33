//! What keys do.

use crate::app::commands;
use crate::app::commands::Outcome;
use crate::app::view;
use crate::app::view::{App, AppEffect, AppView, DirtyState, EffectView};
use crate::command_menu;
use crate::command_menu::CommandMenu;
use crate::input;
use crate::notifications::NOTIFICATION_TTL;
use vstd::prelude::*;

verus! {

pub const PAGE_SCROLL_ROWS: i32 = 6;

#[derive(Clone, Copy, Debug, PartialEq, Eq, Structural)]
pub enum KeyCode {
    Char(char),
    Enter,
    Backspace,
    Left,
    Right,
    Up,
    Down,
    PageUp,
    PageDown,
    Home,
    End,
    Tab,
    Esc,
    Other,
}

/// A key, and what was held with it.
#[derive(Clone, Copy, Debug, PartialEq, Eq, Structural)]
pub struct KeyPress {
    pub code: KeyCode,
    pub control: bool,
    pub alt: bool,
    /// Shift, or another key that changes what a key means.
    pub other_modifier: bool,
    pub released: bool,
}

impl KeyPress {
    pub open spec fn spec_plain(self) -> bool {
        !self.control && !self.alt && !self.other_modifier
    }

    /// Whether nothing was held with the key.
    pub fn is_plain(self) -> (plain: bool)
        ensures
            plain == self.spec_plain(),
    {
        !self.control && !self.alt && !self.other_modifier
    }

    /// A key with nothing held.
    pub fn plain(code: KeyCode) -> (key: KeyPress)
        ensures
            key == (KeyPress {
                code,
                control: false,
                alt: false,
                other_modifier: false,
                released: false,
            }),
    {
        KeyPress { code, control: false, alt: false, other_modifier: false, released: false }
    }
}

/// What something leads to, and what has to be drawn again for it.
pub struct Handled {
    pub outcome: Outcome,
    pub dirty: DirtyState,
}

pub open spec fn redraws(app: AppView, dirty: DirtyState) -> Handled {
    Handled { outcome: commands::quietly(app), dirty }
}

/// What scrolling leads to: the conversation is drawn again where it moved.
pub open spec fn scrolling(before: AppView, after: AppView) -> Handled {
    redraws(
        after,
        if after.scroll != before.scroll {
            DirtyState::spec_conversation()
        } else {
            DirtyState::spec_none()
        },
    )
}

/// The menu with a command of its list selected.
pub open spec fn with_clamped_menu(app: AppView) -> AppView {
    AppView {
        menu: CommandMenu {
            selected: command_menu::clamped(
                app.menu.selected,
                command_menu::matches(app.commands, app.input.text).len(),
            ),
            ..app.menu
        },
        ..app
    }
}

/// The selected command of the menu in place of the input.
pub open spec fn with_menu_command(app: AppView, submit: bool) -> AppView {
    let listed = command_menu::matches(app.commands, app.input.text);
    let clamped = with_clamped_menu(app);
    let name = listed[clamped.menu.selected->0 as int].spec.name@;
    let text = if submit {
        "/"@ + name
    } else {
        "/"@ + name + " "@
    };
    let emptied = if input::is_blank(app.input.text) {
        clamped
    } else {
        AppView { input: input::empty_editor(), ..clamped }
    };
    let typed = emptied.restored(text);
    AppView { menu: CommandMenu { dismissed: false, ..typed.menu }, ..typed }
}

/// Whether the menu takes keys.
pub open spec fn menu_takes(app: AppView, key: KeyPress) -> bool {
    app.menu.spec_is_open(app.input.text) && key.spec_plain()
}

/// What a key does that the menu takes. Enter without a command to accept is no key of the menu.
pub open spec fn menu_key(app: AppView, code: KeyCode, now: int) -> Option<Handled> {
    let count = command_menu::matches(app.commands, app.input.text).len();
    match code {
        KeyCode::Up => Some(
            redraws(
                AppView {
                    menu: CommandMenu {
                        selected: command_menu::prev_selected(app.menu.selected, count),
                        ..app.menu
                    },
                    ..app
                },
                DirtyState::spec_frame(),
            ),
        ),
        KeyCode::Down => Some(
            redraws(
                AppView {
                    menu: CommandMenu {
                        selected: command_menu::next_selected(app.menu.selected, count),
                        ..app.menu
                    },
                    ..app
                },
                DirtyState::spec_frame(),
            ),
        ),
        KeyCode::Esc => Some(
            redraws(
                AppView {
                    menu: CommandMenu { dismissed: true, overlay_rect: None, ..app.menu },
                    ..app
                },
                DirtyState::spec_frame(),
            ),
        ),
        KeyCode::Tab => Some(
            redraws(
                if count > 0 {
                    with_menu_command(app, false)
                } else {
                    with_clamped_menu(app)
                },
                DirtyState::spec_frame(),
            ),
        ),
        KeyCode::Enter => if count > 0 {
            Some(
                Handled {
                    outcome: commands::submitted(with_menu_command(app, true), now),
                    dirty: DirtyState::spec_conversation(),
                },
            )
        } else {
            None
        },
        _ => None,
    }
}

/// What a key does that the menu does not take.
pub open spec fn plain_key(app: AppView, key: KeyPress, width: usize, now: int) -> Handled {
    let frame = DirtyState::spec_frame();
    let undismissed = CommandMenu { dismissed: false, ..app.menu };
    match key.code {
        KeyCode::Char(c) => if key.control && (c == 'c' || c == 'C') {
            redraws(AppView { quit: true, ..app }, DirtyState::spec_none())
        } else if key.control && (c == 'o' || c == 'O') {
            redraws(
                AppView { state: app.state.with_folds_toggled(), ..app },
                DirtyState::spec_conversation(),
            )
        } else if key.control && (c == 'j' || c == 'J') {
            redraws(AppView { input: app.input.typed('\n'), ..app }, frame)
        } else if !key.control && !key.alt {
            redraws(AppView { input: app.input.typed(c), menu: undismissed, ..app }, frame)
        } else {
            redraws(app, DirtyState::spec_none())
        },
        KeyCode::PageUp => scrolling(app, app.scrolled_by(PAGE_SCROLL_ROWS as int)),
        KeyCode::PageDown => scrolling(app, app.scrolled_by(-PAGE_SCROLL_ROWS as int)),
        KeyCode::Home => if key.control {
            scrolling(app, app.scrolled_to(u32::MAX))
        } else {
            redraws(app, DirtyState::spec_none())
        },
        KeyCode::End => if key.control {
            scrolling(app, app.scrolled_to(0))
        } else {
            redraws(app, DirtyState::spec_none())
        },
        KeyCode::Enter => if key.alt {
            redraws(AppView { input: app.input.typed('\n'), ..app }, frame)
        } else if key.spec_plain() {
            Handled {
                outcome: commands::submitted(app, now),
                dirty: DirtyState::spec_conversation(),
            }
        } else {
            redraws(app, DirtyState::spec_none())
        },
        KeyCode::Backspace => redraws(
            AppView { input: app.input.backspaced(), menu: undismissed, ..app },
            frame,
        ),
        KeyCode::Left => redraws(AppView { input: app.input.moved_left(), ..app }, frame),
        KeyCode::Right => redraws(AppView { input: app.input.moved_right(), ..app }, frame),
        KeyCode::Up => redraws(AppView { input: app.input.moved_rows(width, -1), ..app }, frame),
        KeyCode::Down => redraws(AppView { input: app.input.moved_rows(width, 1), ..app }, frame),
        _ => redraws(app, DirtyState::spec_none()),
    }
}

/// What a key does: the menu is asked first.
pub open spec fn pressed(app: AppView, key: KeyPress, width: usize, now: int) -> Handled {
    if key.released {
        redraws(app, DirtyState::spec_none())
    } else if menu_takes(app, key) {
        match menu_key(app, key.code, now) {
            Some(handled) => handled,
            None => plain_key(
                if key.code == KeyCode::Enter {
                    with_clamped_menu(app)
                } else {
                    app
                },
                key,
                width,
                now,
            ),
        }
    } else {
        plain_key(app, key, width, now)
    }
}

fn no_effects() -> (effects: Vec<AppEffect>)
    ensures
        view::effect_views(effects@) == Seq::<EffectView>::empty(),
{
    let effects: Vec<AppEffect> = Vec::new();
    assert(view::effect_views(effects@) =~= Seq::<EffectView>::empty());
    effects
}

impl App {
    /// Puts the selected command of the menu in place of the input, if there is one.
    fn accept_selected_menu_command(&mut self, submit: bool) -> (accepted: bool)
        ensures
            accepted == (command_menu::matches(old(self)@.commands, old(self)@.input.text).len()
                > 0),
            final(self)@ == (if accepted {
                with_menu_command(old(self)@, submit)
            } else {
                with_clamped_menu(old(self)@)
            }),
    {
        let command = match self.command_menu.selected_command(
            self.input.text(),
            &self.slash_commands,
        ) {
            Some(command) => command,
            None => {
                return false;
            },
        };
        let mut replacement: String = "/".to_owned();
        replacement.append(command.spec.name);
        if !submit {
            replacement.append(" ");
        }
        let _ = self.input.take_submission();
        self.restore_input(replacement.as_str());
        self.command_menu.input_changed();
        true
    }

    /// Hands a key to the menu, which may take it.
    fn handle_command_menu_key(&mut self, key: KeyPress, now: u64) -> (handled: Option<
        (DirtyState, Vec<AppEffect>),
    >)
        requires
            commands::has_room(old(self)@, 3),
            now + NOTIFICATION_TTL <= u64::MAX,
            old(self)@.menu.selected != Some(usize::MAX),
        ensures
            match handled {
                Some((dirty, effects)) => {
                    &&& menu_takes(old(self)@, key)
                    &&& menu_key(old(self)@, key.code, now as int) matches Some(wanted) && {
                        &&& final(self)@ == wanted.outcome.app
                        &&& view::effect_views(effects@) == wanted.outcome.effects
                        &&& dirty == wanted.dirty
                    }
                },
                None => {
                    &&& menu_takes(old(self)@, key) ==> menu_key(
                        old(self)@,
                        key.code,
                        now as int,
                    ) is None
                    &&& final(self)@ == (if menu_takes(old(self)@, key) && key.code
                        == KeyCode::Enter {
                        with_clamped_menu(old(self)@)
                    } else {
                        old(self)@
                    })
                },
            },
    {
        if !self.command_menu.is_open(self.input.text()) || !key.is_plain() {
            return None;
        }
        match key.code {
            KeyCode::Up => {
                self.command_menu.select_prev(self.input.text(), &self.slash_commands);
                Some((DirtyState::frame(), no_effects()))
            },
            KeyCode::Down => {
                self.command_menu.select_next(self.input.text(), &self.slash_commands);
                Some((DirtyState::frame(), no_effects()))
            },
            KeyCode::Esc => {
                self.command_menu.dismiss();
                Some((DirtyState::frame(), no_effects()))
            },
            KeyCode::Tab => {
                self.accept_selected_menu_command(false);
                Some((DirtyState::frame(), no_effects()))
            },
            KeyCode::Enter => {
                if self.accept_selected_menu_command(true) {
                    let effects = self.submit_input(now);
                    Some((DirtyState::conversation(), effects))
                } else {
                    None
                }
            },
            _ => None,
        }
    }

    fn scroll_dirty(changed: bool) -> (dirty: DirtyState)
        ensures
            dirty == (if changed {
                DirtyState::spec_conversation()
            } else {
                DirtyState::spec_none()
            }),
    {
        if changed {
            DirtyState::conversation()
        } else {
            DirtyState::none()
        }
    }

    fn handle_char_key(&mut self, key: KeyPress, c: char) -> (dirty: DirtyState)
        requires
            key.code == KeyCode::Char(c),
        ensures
            forall|width: usize, now: int|
                {
                    let wanted = #[trigger] plain_key(old(self)@, key, width, now);
                    &&& final(self)@ == wanted.outcome.app
                    &&& dirty == wanted.dirty
                    &&& wanted.outcome.effects == Seq::<EffectView>::empty()
                },
    {
        if key.control && (c == 'c' || c == 'C') {
            self.quit = true;
            DirtyState::none()
        } else if key.control && (c == 'o' || c == 'O') {
            self.state.toggle_all_folds();
            DirtyState::conversation()
        } else if key.control && (c == 'j' || c == 'J') {
            self.input.insert_newline();
            DirtyState::frame()
        } else if !key.control && !key.alt {
            self.input.insert_char(c);
            self.command_menu.input_changed();
            DirtyState::frame()
        } else {
            DirtyState::none()
        }
    }

    /// Handles a key. The input is `input_width` columns wide.
    pub fn handle_key(&mut self, key: KeyPress, input_width: usize, now: u64) -> (handled: (
        DirtyState,
        Vec<AppEffect>,
    ))
        requires
            commands::has_room(old(self)@, 3),
            now + NOTIFICATION_TTL <= u64::MAX,
            old(self)@.menu.selected != Some(usize::MAX),
        ensures
            ({
                let wanted = pressed(old(self)@, key, input_width, now as int);
                &&& final(self)@ == wanted.outcome.app.dirtied(wanted.dirty)
                &&& handled.0 == wanted.dirty
                &&& view::effect_views(handled.1@) == wanted.outcome.effects
            }),
    {
        let ghost before = self@;
        let ghost wanted = pressed(before, key, input_width, now as int);
        if key.released {
            let dirty = DirtyState::none();
            self.mark_dirty(dirty);
            return (dirty, no_effects());
        }
        if let Some((dirty, effects)) = self.handle_command_menu_key(key, now) {
            self.mark_dirty(dirty);
            return (dirty, effects);
        }
        let ghost asked = self@;
        assert(wanted == plain_key(asked, key, input_width, now as int));
        let mut effects = no_effects();
        let dirty = match key.code {
            KeyCode::Char(c) => self.handle_char_key(key, c),
            KeyCode::PageUp => App::scroll_dirty(self.scroll_conversation(PAGE_SCROLL_ROWS)),
            KeyCode::PageDown => App::scroll_dirty(self.scroll_conversation(-PAGE_SCROLL_ROWS)),
            KeyCode::Home => if key.control {
                App::scroll_dirty(self.set_conversation_scroll_from_bottom(u32::MAX))
            } else {
                DirtyState::none()
            },
            KeyCode::End => if key.control {
                App::scroll_dirty(self.set_conversation_scroll_from_bottom(0))
            } else {
                DirtyState::none()
            },
            KeyCode::Enter => if key.alt {
                self.input.insert_newline();
                DirtyState::frame()
            } else if key.is_plain() {
                effects = self.submit_input(now);
                DirtyState::conversation()
            } else {
                DirtyState::none()
            },
            KeyCode::Backspace => {
                self.input.backspace();
                self.command_menu.input_changed();
                DirtyState::frame()
            },
            KeyCode::Left => {
                self.input.move_left();
                DirtyState::frame()
            },
            KeyCode::Right => {
                self.input.move_right();
                DirtyState::frame()
            },
            KeyCode::Up => {
                self.input.move_up(input_width);
                DirtyState::frame()
            },
            KeyCode::Down => {
                self.input.move_down(input_width);
                DirtyState::frame()
            },
            _ => DirtyState::none(),
        };
        self.mark_dirty(dirty);
        (dirty, effects)
    }
}

} // verus!
