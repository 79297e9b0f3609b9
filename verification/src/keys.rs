//! What a key does: the key maps of the four screens, of the confirm dialog
//! and of the help, and how the text overlays (the entry form, the settings,
//! the break split, the project picker, the name box) answer to a key. The
//! text in their fields is edited by the field widgets; what is decided here
//! is everything around that: focus, the picker's highlight, save, cancel and
//! quit.
use crate::forms::{parse_share, share_text, values_view};
use crate::minutes::Minutes;
use crate::periods::RangeKind;
use crate::screen::{Model, Msg, Screen};
use crate::text::{trim, trimmed};
use crate::types::DayKind;
use vstd::prelude::*;

verus! {

/// A key as the terminal reports it.
#[derive(Clone, Copy, Debug, PartialEq, Eq, Structural)]
pub enum Key {
    Char(char),
    Up,
    Down,
    Left,
    Right,
    Enter,
    Esc,
    Tab,
    BackTab,
    Backspace,
    Delete,
    Home,
    End,
    PageUp,
    PageDown,
    /// Any key none of the maps has a use for.
    Other,
}

/// A key and the modifiers held down with it.
#[derive(Clone, Copy, Debug, PartialEq, Eq, Structural)]
pub struct KeyPress {
    pub code: Key,
    pub ctrl: bool,
    pub alt: bool,
    pub shift: bool,
}

impl KeyPress {
    /// `code` with no modifier held.
    pub fn plain(code: Key) -> (r: KeyPress)
        ensures
            r == (KeyPress { code, ctrl: false, alt: false, shift: false }),
    {
        KeyPress { code, ctrl: false, alt: false, shift: false }
    }

    /// Ctrl and `c`, nothing else held.
    pub fn ctrl(c: char) -> (r: KeyPress)
        ensures
            r == (KeyPress { code: Key::Char(c), ctrl: true, alt: false, shift: false }),
    {
        KeyPress { code: Key::Char(c), ctrl: true, alt: false, shift: false }
    }
}

/// Ctrl+C with no other modifier: quit, from any screen.
pub open spec fn is_ctrl_c(k: KeyPress) -> bool {
    k.code == Key::Char('c') && k.ctrl && !k.alt && !k.shift
}

/// The month screen's keys.
pub open spec fn month_msg(k: KeyPress) -> Option<Msg> {
    if is_ctrl_c(k) {
        Some(Msg::Quit)
    } else {
        match k.code {
            Key::Char('q') => Some(Msg::Quit),
            Key::Up | Key::Char('k') => Some(Msg::SelectDay(-1i32)),
            Key::Down | Key::Char('j') => Some(Msg::SelectDay(1)),
            Key::Char('[') | Key::PageUp => Some(Msg::SelectMonth(-1i32)),
            Key::Char(']') | Key::PageDown => Some(Msg::SelectMonth(1)),
            Key::Char('t') => Some(Msg::GoToday),
            Key::Enter => Some(Msg::OpenDay),
            Key::Char('s') => Some(Msg::OpenStats),
            Key::Char('c') => Some(Msg::OpenSettings),
            Key::Char('P') => Some(Msg::OpenProjects),
            Key::Char('i') => Some(Msg::OpenClockPicker),
            Key::Char('o') => Some(Msg::ClockOut),
            Key::Char('b') => Some(Msg::TakeBreak),
            Key::Char('v') => Some(Msg::SetKind(DayKind::Vacation)),
            Key::Char('f') => Some(Msg::SetKind(DayKind::Flex)),
            Key::Char('x') => Some(Msg::SetKind(DayKind::Sick)),
            Key::Char('p') => Some(Msg::SetKind(DayKind::Holiday)),
            Key::Char('w') => Some(Msg::SetKind(DayKind::Work)),
            Key::Char('V') => Some(Msg::ToggleAnchor),
            Key::Char('u') => Some(Msg::ToggleHours),
            Key::Char('B') => Some(Msg::Backup),
            Key::Char('?') => Some(Msg::ToggleHelp),
            Key::Esc => Some(Msg::Back),
            _ => None,
        }
    }
}

/// What `k` does on the month screen.
pub fn month_key(k: KeyPress) -> (r: Option<Msg>)
    ensures
        r == month_msg(k),
{
    if k.code == Key::Char('c') && k.ctrl && !k.alt && !k.shift {
        return Some(Msg::Quit);
    }
    match k.code {
        Key::Char('q') => Some(Msg::Quit),
        Key::Up | Key::Char('k') => Some(Msg::SelectDay(-1i32)),
        Key::Down | Key::Char('j') => Some(Msg::SelectDay(1)),
        Key::Char('[') | Key::PageUp => Some(Msg::SelectMonth(-1i32)),
        Key::Char(']') | Key::PageDown => Some(Msg::SelectMonth(1)),
        Key::Char('t') => Some(Msg::GoToday),
        Key::Enter => Some(Msg::OpenDay),
        Key::Char('s') => Some(Msg::OpenStats),
        Key::Char('c') => Some(Msg::OpenSettings),
        Key::Char('P') => Some(Msg::OpenProjects),
        Key::Char('i') => Some(Msg::OpenClockPicker),
        Key::Char('o') => Some(Msg::ClockOut),
        Key::Char('b') => Some(Msg::TakeBreak),
        Key::Char('v') => Some(Msg::SetKind(DayKind::Vacation)),
        Key::Char('f') => Some(Msg::SetKind(DayKind::Flex)),
        Key::Char('x') => Some(Msg::SetKind(DayKind::Sick)),
        Key::Char('p') => Some(Msg::SetKind(DayKind::Holiday)),
        Key::Char('w') => Some(Msg::SetKind(DayKind::Work)),
        Key::Char('V') => Some(Msg::ToggleAnchor),
        Key::Char('u') => Some(Msg::ToggleHours),
        Key::Char('B') => Some(Msg::Backup),
        Key::Char('?') => Some(Msg::ToggleHelp),
        Key::Esc => Some(Msg::Back),
        _ => None,
    }
}

/// The day editor's keys.
pub open spec fn day_msg(k: KeyPress) -> Option<Msg> {
    if is_ctrl_c(k) {
        Some(Msg::Quit)
    } else {
        match k.code {
            Key::Up | Key::Char('k') => Some(Msg::DaySelect(-1i32)),
            Key::Down | Key::Char('j') => Some(Msg::DaySelect(1)),
            Key::Char('a') => Some(Msg::DayAdd),
            Key::Char('e') | Key::Enter => Some(Msg::DayEdit),
            Key::Char('d') | Key::Delete => Some(Msg::DayDelete),
            Key::Char('b') => Some(Msg::DayBreakSplit),
            Key::Left | Key::Char('h') => Some(Msg::DayKindPrev),
            Key::Right | Key::Char('l') => Some(Msg::DayKindNext),
            Key::Char('u') => Some(Msg::ToggleHours),
            Key::Char('?') => Some(Msg::ToggleHelp),
            Key::Esc | Key::Char('q') => Some(Msg::Back),
            _ => None,
        }
    }
}

/// What `k` does in the day editor.
pub fn day_key(k: KeyPress) -> (r: Option<Msg>)
    ensures
        r == day_msg(k),
{
    if k.code == Key::Char('c') && k.ctrl && !k.alt && !k.shift {
        return Some(Msg::Quit);
    }
    match k.code {
        Key::Up | Key::Char('k') => Some(Msg::DaySelect(-1i32)),
        Key::Down | Key::Char('j') => Some(Msg::DaySelect(1)),
        Key::Char('a') => Some(Msg::DayAdd),
        Key::Char('e') | Key::Enter => Some(Msg::DayEdit),
        Key::Char('d') | Key::Delete => Some(Msg::DayDelete),
        Key::Char('b') => Some(Msg::DayBreakSplit),
        Key::Left | Key::Char('h') => Some(Msg::DayKindPrev),
        Key::Right | Key::Char('l') => Some(Msg::DayKindNext),
        Key::Char('u') => Some(Msg::ToggleHours),
        Key::Char('?') => Some(Msg::ToggleHelp),
        Key::Esc | Key::Char('q') => Some(Msg::Back),
        _ => None,
    }
}

/// The statistics screen's keys.
pub open spec fn stats_msg(k: KeyPress) -> Option<Msg> {
    if is_ctrl_c(k) {
        Some(Msg::Quit)
    } else {
        match k.code {
            Key::Char('1') => Some(Msg::StatsRange(RangeKind::Week)),
            Key::Char('2') => Some(Msg::StatsRange(RangeKind::Month)),
            Key::Char('3') => Some(Msg::StatsRange(RangeKind::Quarter)),
            Key::Char('4') => Some(Msg::StatsRange(RangeKind::Year)),
            Key::Char('[') | Key::PageUp => Some(Msg::StatsShift(-1i32)),
            Key::Char(']') | Key::PageDown => Some(Msg::StatsShift(1)),
            Key::Char('t') => Some(Msg::StatsToday),
            Key::Char('r') => Some(Msg::ToggleChartMode),
            Key::Char('u') => Some(Msg::ToggleHours),
            Key::Char('?') => Some(Msg::ToggleHelp),
            Key::Esc | Key::Char('q') => Some(Msg::Back),
            _ => None,
        }
    }
}

/// What `k` does on the statistics screen.
pub fn stats_key(k: KeyPress) -> (r: Option<Msg>)
    ensures
        r == stats_msg(k),
{
    if k.code == Key::Char('c') && k.ctrl && !k.alt && !k.shift {
        return Some(Msg::Quit);
    }
    match k.code {
        Key::Char('1') => Some(Msg::StatsRange(RangeKind::Week)),
        Key::Char('2') => Some(Msg::StatsRange(RangeKind::Month)),
        Key::Char('3') => Some(Msg::StatsRange(RangeKind::Quarter)),
        Key::Char('4') => Some(Msg::StatsRange(RangeKind::Year)),
        Key::Char('[') | Key::PageUp => Some(Msg::StatsShift(-1i32)),
        Key::Char(']') | Key::PageDown => Some(Msg::StatsShift(1)),
        Key::Char('t') => Some(Msg::StatsToday),
        Key::Char('r') => Some(Msg::ToggleChartMode),
        Key::Char('u') => Some(Msg::ToggleHours),
        Key::Char('?') => Some(Msg::ToggleHelp),
        Key::Esc | Key::Char('q') => Some(Msg::Back),
        _ => None,
    }
}

/// The projects screen's keys.
pub open spec fn projects_msg(k: KeyPress) -> Option<Msg> {
    if is_ctrl_c(k) {
        Some(Msg::Quit)
    } else {
        match k.code {
            Key::Up | Key::Char('k') => Some(Msg::ProjectsSelect(-1i32)),
            Key::Down | Key::Char('j') => Some(Msg::ProjectsSelect(1)),
            Key::Char('a') => Some(Msg::ProjectsToggleArchive),
            Key::Char('r') => Some(Msg::ProjectsRename),
            Key::Char('n') => Some(Msg::ProjectsAdd),
            Key::Char('u') => Some(Msg::ToggleHours),
            Key::Char('?') => Some(Msg::ToggleHelp),
            Key::Esc | Key::Char('q') => Some(Msg::Back),
            _ => None,
        }
    }
}

/// What `k` does on the projects screen.
pub fn projects_key(k: KeyPress) -> (r: Option<Msg>)
    ensures
        r == projects_msg(k),
{
    if k.code == Key::Char('c') && k.ctrl && !k.alt && !k.shift {
        return Some(Msg::Quit);
    }
    match k.code {
        Key::Up | Key::Char('k') => Some(Msg::ProjectsSelect(-1i32)),
        Key::Down | Key::Char('j') => Some(Msg::ProjectsSelect(1)),
        Key::Char('a') => Some(Msg::ProjectsToggleArchive),
        Key::Char('r') => Some(Msg::ProjectsRename),
        Key::Char('n') => Some(Msg::ProjectsAdd),
        Key::Char('u') => Some(Msg::ToggleHours),
        Key::Char('?') => Some(Msg::ToggleHelp),
        Key::Esc | Key::Char('q') => Some(Msg::Back),
        _ => None,
    }
}

/// The confirm dialog's keys: `y` or Enter confirms, `n`, Esc or `q`
/// cancels.
pub open spec fn confirm_msg(k: KeyPress) -> Option<Msg> {
    if is_ctrl_c(k) {
        Some(Msg::Quit)
    } else {
        match k.code {
            Key::Char('y') | Key::Enter => Some(Msg::ConfirmYes),
            Key::Char('n') | Key::Esc | Key::Char('q') => Some(Msg::ConfirmNo),
            _ => None,
        }
    }
}

/// What `k` does to the confirm dialog.
pub fn confirm_key(k: KeyPress) -> (r: Option<Msg>)
    ensures
        r == confirm_msg(k),
{
    if k.code == Key::Char('c') && k.ctrl && !k.alt && !k.shift {
        return Some(Msg::Quit);
    }
    match k.code {
        Key::Char('y') | Key::Enter => Some(Msg::ConfirmYes),
        Key::Char('n') | Key::Esc | Key::Char('q') => Some(Msg::ConfirmNo),
        _ => None,
    }
}

/// Which part of the screen has the keyboard.
#[derive(Clone, Copy, Debug, PartialEq, Eq, Structural)]
pub enum Focus {
    EntryForm,
    Settings,
    BreakSplit,
    ClockPicker,
    NameBox,
    Confirm,
    Help,
    Screen(Screen),
}

/// The overlay on top has the keyboard; with none open, the screen on show.
pub open spec fn focus_of(m: Model) -> Focus {
    if m.form is Some {
        Focus::EntryForm
    } else if m.settings is Some {
        Focus::Settings
    } else if m.break_split is Some {
        Focus::BreakSplit
    } else if m.clock_picker is Some {
        Focus::ClockPicker
    } else if m.prompt is Some {
        Focus::NameBox
    } else if m.confirm is Some {
        Focus::Confirm
    } else if m.help {
        Focus::Help
    } else {
        Focus::Screen(m.screen)
    }
}

/// What has the keyboard in `m`.
pub fn focus(m: &Model) -> (r: Focus)
    ensures
        r == focus_of(*m),
{
    if m.form.is_some() {
        Focus::EntryForm
    } else if m.settings.is_some() {
        Focus::Settings
    } else if m.break_split.is_some() {
        Focus::BreakSplit
    } else if m.clock_picker.is_some() {
        Focus::ClockPicker
    } else if m.prompt.is_some() {
        Focus::NameBox
    } else if m.confirm.is_some() {
        Focus::Confirm
    } else if m.help {
        Focus::Help
    } else {
        Focus::Screen(m.screen)
    }
}

/// What `k` means where `f` has the keyboard: the help closes on any key
/// but Ctrl+C, which quits;
/// the confirm dialog and each screen go by their own map. The text
/// overlays answer through [`form_key`] and the pickers instead.
pub open spec fn key_msg_at(f: Focus, k: KeyPress) -> Option<Msg> {
    match f {
        Focus::Help => if is_ctrl_c(k) {
            Some(Msg::Quit)
        } else {
            Some(Msg::ToggleHelp)
        },
        Focus::Confirm => confirm_msg(k),
        Focus::Screen(Screen::Month) => month_msg(k),
        Focus::Screen(Screen::Day) => day_msg(k),
        Focus::Screen(Screen::Stats) => stats_msg(k),
        Focus::Screen(Screen::Projects) => projects_msg(k),
        _ => None,
    }
}

/// What `k` means to `m` while no text overlay is open.
pub fn screen_key(m: &Model, k: KeyPress) -> (r: Option<Msg>)
    ensures
        r == key_msg_at(focus_of(*m), k),
{
    match focus(m) {
        Focus::Help => if k.code == Key::Char('c') && k.ctrl && !k.alt && !k.shift {
            Some(Msg::Quit)
        } else {
            Some(Msg::ToggleHelp)
        },
        Focus::Confirm => confirm_key(k),
        Focus::Screen(Screen::Month) => month_key(k),
        Focus::Screen(Screen::Day) => day_key(k),
        Focus::Screen(Screen::Stats) => stats_key(k),
        Focus::Screen(Screen::Projects) => projects_key(k),
        _ => None,
    }
}

/// An editing key, for the focused field to carry out.
#[derive(Clone, Copy, Debug, PartialEq, Eq, Structural)]
pub enum Edit {
    /// Insert the character at the cursor.
    Type(char),
    /// Delete the character before the cursor.
    Backspace,
    /// Delete the character under the cursor.
    Delete,
    Left,
    Right,
    Home,
    End,
}

/// What a key does to a form of labelled fields.
#[derive(Clone, Copy, Debug, PartialEq, Eq, Structural)]
pub enum FormKey {
    /// Ctrl+C: quit the application, overlay or not.
    Quit,
    Submit,
    Cancel,
    /// Move the focus to this field.
    Focus(usize),
    /// Hand the key to the focused field.
    Edit(Edit),
    /// Not a key of the form's; any other Ctrl chord is swallowed here too,
    /// so that it is not typed into a field.
    Ignored,
}

/// The editing keys.
pub open spec fn edit_of(code: Key) -> Option<Edit> {
    match code {
        Key::Char(c) => Some(Edit::Type(c)),
        Key::Backspace => Some(Edit::Backspace),
        Key::Delete => Some(Edit::Delete),
        Key::Left => Some(Edit::Left),
        Key::Right => Some(Edit::Right),
        Key::Home => Some(Edit::Home),
        Key::End => Some(Edit::End),
        _ => None,
    }
}

/// A form of `len` fields with `focus` on one: Tab and Down walk forward,
/// Shift+Tab and Up walk back, both round the ring; Enter walks forward and
/// saves on the last field; Ctrl+S saves from anywhere, Ctrl+C quits, Esc
/// cancels.
pub open spec fn form_step(k: KeyPress, focus: int, len: int) -> FormKey {
    if k.ctrl {
        match k.code {
            Key::Char('c') => FormKey::Quit,
            Key::Char('s') => FormKey::Submit,
            _ => FormKey::Ignored,
        }
    } else {
        match k.code {
            Key::Esc => FormKey::Cancel,
            Key::Tab | Key::Down => FormKey::Focus(((focus + 1) % len) as usize),
            Key::BackTab | Key::Up => FormKey::Focus(((focus + len - 1) % len) as usize),
            Key::Enter => if focus == len - 1 {
                FormKey::Submit
            } else {
                FormKey::Focus((focus + 1) as usize)
            },
            _ => match edit_of(k.code) {
                Some(e) => FormKey::Edit(e),
                None => FormKey::Ignored,
            },
        }
    }
}

/// What `k` does to a form of `len` fields whose field `focus` has the
/// caret.
pub fn form_key(k: KeyPress, focus: usize, len: usize) -> (r: FormKey)
    requires
        focus < len,
    ensures
        r == form_step(k, focus as int, len as int),
        r matches FormKey::Focus(f) ==> f < len,
{
    if k.ctrl {
        return match k.code {
            Key::Char('c') => FormKey::Quit,
            Key::Char('s') => FormKey::Submit,
            _ => FormKey::Ignored,
        };
    }
    match k.code {
        Key::Esc => FormKey::Cancel,
        Key::Tab | Key::Down => {
            let next = if focus + 1 == len {
                0
            } else {
                focus + 1
            };
            proof {
                if focus + 1 == len {
                    vstd::arithmetic::div_mod::lemma_mod_self_0(len as int);
                } else {
                    vstd::arithmetic::div_mod::lemma_small_mod((focus + 1) as nat, len as nat);
                }
            }
            FormKey::Focus(next)
        },
        Key::BackTab | Key::Up => {
            let prev = if focus == 0 {
                len - 1
            } else {
                focus - 1
            };
            proof {
                if focus == 0 {
                    vstd::arithmetic::div_mod::lemma_small_mod((len - 1) as nat, len as nat);
                } else {
                    vstd::arithmetic::div_mod::lemma_mod_adds(focus - 1, len as int, len as int);
                    vstd::arithmetic::div_mod::lemma_small_mod((focus - 1) as nat, len as nat);
                    vstd::arithmetic::div_mod::lemma_mod_self_0(len as int);
                }
            }
            FormKey::Focus(prev)
        },
        Key::Enter => if focus == len - 1 {
            FormKey::Submit
        } else {
            FormKey::Focus(focus + 1)
        },
        Key::Char(c) => FormKey::Edit(Edit::Type(c)),
        Key::Backspace => FormKey::Edit(Edit::Backspace),
        Key::Delete => FormKey::Edit(Edit::Delete),
        Key::Left => FormKey::Edit(Edit::Left),
        Key::Right => FormKey::Edit(Edit::Right),
        Key::Home => FormKey::Edit(Edit::Home),
        Key::End => FormKey::Edit(Edit::End),
        _ => FormKey::Ignored,
    }
}

/// The entry form's fields: start, end, project and comment.
pub const ENTRY_FIELDS: usize = 4;

/// The entry form's project field, the one with a picker under it.
pub const PROJECT_FIELD: usize = 2;

/// What a key does to a form with a project picker.
#[derive(Clone, Copy, Debug, PartialEq, Eq, Structural)]
pub enum PickKey {
    /// Move the highlight to this match.
    Highlight(usize),
    /// Take the highlighted match, or the typed name when nothing matches.
    Take,
    /// What the form's own keys make of it, and where the highlight is to go
    /// if the form reports a change.
    Form(FormKey, usize),
}

/// The match below `idx` among `n`, staying on the last.
pub open spec fn down_from(idx: int, n: int) -> int {
    let last = if n > 0 {
        n - 1
    } else {
        0
    };
    if idx + 1 < last {
        idx + 1
    } else {
        last
    }
}

/// The match above `idx`, staying on the first.
pub open spec fn up_from(idx: int) -> int {
    if idx > 0 {
        idx - 1
    } else {
        0
    }
}

/// Where the highlight goes once the entry form reports a change: back to the
/// first match whenever the project field has the caret afterwards, for the
/// filter has moved or the caret has just arrived.
pub open spec fn highlight_after(f: FormKey, focus: int, idx: int) -> int {
    let at = match f {
        FormKey::Focus(g) => g as int,
        _ => focus,
    };
    if at == PROJECT_FIELD {
        0
    } else {
        idx
    }
}

/// The entry form with field `focus` on the caret and match `idx` of `n`
/// highlighted: in the project field the arrows move the highlight, and Tab
/// or Enter take it along to the comment; everywhere else, and for any other
/// key, the form's own keys.
pub open spec fn entry_form_step(k: KeyPress, focus: int, idx: int, n: int) -> PickKey {
    if !k.ctrl && focus == PROJECT_FIELD && k.code == Key::Down {
        PickKey::Highlight(down_from(idx, n) as usize)
    } else if !k.ctrl && focus == PROJECT_FIELD && k.code == Key::Up {
        PickKey::Highlight(up_from(idx) as usize)
    } else if !k.ctrl && focus == PROJECT_FIELD && (k.code == Key::Tab || k.code == Key::Enter) {
        PickKey::Take
    } else {
        let f = form_step(k, focus, ENTRY_FIELDS as int);
        PickKey::Form(f, highlight_after(f, focus, idx) as usize)
    }
}

/// What `k` does to the entry form.
pub fn entry_form_key(k: KeyPress, focus: usize, idx: usize, n: usize) -> (r: PickKey)
    requires
        focus < ENTRY_FIELDS,
    ensures
        r == entry_form_step(k, focus as int, idx as int, n as int),
        r matches PickKey::Form(FormKey::Focus(f), _) ==> f < ENTRY_FIELDS,
{
    if !k.ctrl && focus == PROJECT_FIELD {
        match k.code {
            Key::Down => {
                let last = if n > 0 {
                    n - 1
                } else {
                    0
                };
                return PickKey::Highlight(
                    if idx < last {
                        idx + 1
                    } else {
                        last
                    },
                );
            },
            Key::Up => {
                return PickKey::Highlight(
                    if idx > 0 {
                        idx - 1
                    } else {
                        0
                    },
                );
            },
            Key::Tab | Key::Enter => {
                return PickKey::Take;
            },
            _ => {},
        }
    }
    let f = form_key(k, focus, ENTRY_FIELDS);
    let at = match f {
        FormKey::Focus(g) => g,
        _ => focus,
    };
    PickKey::Form(
        f,
        if at == PROJECT_FIELD {
            0
        } else {
            idx
        },
    )
}

/// The project picker of a clock-in or a switch, with match `idx` of `n`
/// highlighted: the arrows move the highlight, Tab or Enter (or Ctrl+S) take
/// it; any change to the typed filter starts again at the first match.
pub open spec fn clock_picker_step(k: KeyPress, idx: int, n: int) -> PickKey {
    if !k.ctrl && k.code == Key::Down {
        PickKey::Highlight(down_from(idx, n) as usize)
    } else if !k.ctrl && k.code == Key::Up {
        PickKey::Highlight(up_from(idx) as usize)
    } else if !k.ctrl && k.code == Key::Tab {
        PickKey::Take
    } else {
        match form_step(k, 0, 1) {
            FormKey::Submit => PickKey::Take,
            f => PickKey::Form(f, 0),
        }
    }
}

/// What `k` does to the project picker.
pub fn clock_picker_key(k: KeyPress, idx: usize, n: usize) -> (r: PickKey)
    ensures
        r == clock_picker_step(k, idx as int, n as int),
{
    if !k.ctrl {
        match k.code {
            Key::Down => {
                let last = if n > 0 {
                    n - 1
                } else {
                    0
                };
                return PickKey::Highlight(
                    if idx < last {
                        idx + 1
                    } else {
                        last
                    },
                );
            },
            Key::Up => {
                return PickKey::Highlight(
                    if idx > 0 {
                        idx - 1
                    } else {
                        0
                    },
                );
            },
            Key::Tab => {
                return PickKey::Take;
            },
            _ => {},
        }
    }
    match form_key(k, 0, 1) {
        FormKey::Submit => PickKey::Take,
        f => PickKey::Form(f, 0),
    }
}

/// What taking from a picker gives: match `idx` when there is one, else the
/// typed text, trimmed, which the store makes a new project of.
pub fn picked(matches: &[String], idx: usize, typed: &str) -> (r: String)
    ensures
        idx < matches@.len() ==> r@ == matches@[idx as int]@,
        idx >= matches@.len() ==> r@ == trim(typed@),
{
    if idx < matches.len() {
        matches[idx].clone()
    } else {
        trimmed(typed)
    }
}

/// Whether every field of a break-split box reads as a share.
pub open spec fn all_shares(vs: Seq<Seq<char>>) -> bool {
    forall|i: int| 0 <= i < vs.len() ==> #[trigger] share_text(vs[i]) is Ok
}

/// A share as minutes, if one is set.
pub open spec fn share_value(o: Option<Minutes>) -> Option<int> {
    match o {
        Some(m) => Some(m.0 as int),
        None => None,
    }
}

/// Saving the break-split box whose rows are about the entries `ids` and hold
/// `values`: the shares by entry when every field reads as one, else the
/// fields as a change, so that the footer says what is wrong and the box
/// stays open.
pub fn split_submit(ids: &[i64], values: &[String]) -> (r: Msg)
    requires
        ids@.len() == values@.len(),
    ensures
        all_shares(values_view(values@)) ==> (r matches Msg::BreakSplitSubmit(v) && v@.len() == ids@.len()
            && forall|i: int|
            0 <= i < ids@.len() ==> v@[i].0 == ids@[i] && share_value(#[trigger] v@[i].1) == share_text(
                values@[i]@,
            )->Ok_0),
        !all_shares(values_view(values@)) ==> (r matches Msg::BreakSplitChanged(v) && values_view(v@)
            == values_view(values@)),
{
    let mut shares: Vec<(i64, Option<Minutes>)> = Vec::new();
    let mut i: usize = 0;
    while i < values.len()
        invariant
            i <= values@.len(),
            ids@.len() == values@.len(),
            shares@.len() == i,
            forall|j: int| 0 <= j < i ==> #[trigger] share_text(values@[j]@) is Ok,
            forall|j: int|
                0 <= j < i ==> shares@[j].0 == ids@[j] && share_value(#[trigger] shares@[j].1) == share_text(
                    values@[j]@,
                )->Ok_0,
        decreases values.len() - i,
    {
        match parse_share(values[i].as_str()) {
            Ok(s) => {
                shares.push((ids[i], s));
            },
            Err(_) => {
                let mut copy: Vec<String> = Vec::new();
                let mut j: usize = 0;
                while j < values.len()
                    invariant
                        j <= values@.len(),
                        values_view(copy@) == values_view(values@.take(j as int)),
                    decreases values.len() - j,
                {
                    let ghost before = copy@;
                    let v = values[j].clone();
                    copy.push(v);
                    proof {
                        assert(copy@ == before.push(v));
                        assert(values_view(copy@) =~= values_view(values@.take(j as int)).push(values@[j as int]@));
                        assert(values_view(copy@) =~= values_view(values@.take(j + 1)));
                    }
                    j += 1;
                }
                proof {
                    assert(values@.take(values@.len() as int) =~= values@);
                    assert(!all_shares(values_view(values@))) by {
                        assert(values_view(values@)[i as int] == values@[i as int]@);
                    }
                }
                return Msg::BreakSplitChanged(copy);
            },
        }
        i += 1;
    }
    proof {
        assert forall|j: int| 0 <= j < values_view(values@).len() implies #[trigger] share_text(
            values_view(values@)[j],
        ) is Ok by {
            assert(values_view(values@)[j] == values@[j]@);
        }
    }
    Msg::BreakSplitSubmit(shares)
}

/// Ctrl+C quits from anywhere: from each screen, the confirm dialog and the
/// help, and from every form and picker, whatever field has the caret.
pub proof fn ctrl_c_quits_everywhere(k: KeyPress, f: Focus, focus: int, len: int, idx: int, n: int)
    requires
        is_ctrl_c(k),
        !(f is EntryForm || f is Settings || f is BreakSplit || f is ClockPicker || f is NameBox),
    ensures
        key_msg_at(f, k) == Some(Msg::Quit),
        form_step(k, focus, len) == FormKey::Quit,
        entry_form_step(k, focus, idx, n) matches PickKey::Form(FormKey::Quit, _),
        clock_picker_step(k, idx, n) matches PickKey::Form(FormKey::Quit, _),
{
}

/// `?` opens the help and `u` switches the hours format on every screen.
pub proof fn help_and_hours_on_every_screen(s: Screen)
    ensures
        key_msg_at(Focus::Screen(s), KeyPress { code: Key::Char('?'), ctrl: false, alt: false, shift: false })
            == Some(Msg::ToggleHelp),
        key_msg_at(Focus::Screen(s), KeyPress { code: Key::Char('u'), ctrl: false, alt: false, shift: false })
            == Some(Msg::ToggleHours),
{
}

/// The help closes on any key but Ctrl+C.
pub proof fn any_key_closes_the_help(k: KeyPress)
    requires
        !is_ctrl_c(k),
    ensures
        key_msg_at(Focus::Help, k) == Some(Msg::ToggleHelp),
{
}

/// Tab and Shift+Tab undo each other: from any field of a form, Tab and then
/// Shift+Tab, or Shift+Tab and then Tab, land on that field again.
pub proof fn tab_and_back_tab_undo_each_other(focus: int, len: int)
    requires
        0 <= focus < len <= usize::MAX,
    ensures
        form_step(KeyPress { code: Key::Tab, ctrl: false, alt: false, shift: false }, focus, len) matches FormKey::Focus(
            g,
        ) && form_step(KeyPress { code: Key::BackTab, ctrl: false, alt: false, shift: true }, g as int, len)
            == FormKey::Focus(focus as usize),
        form_step(KeyPress { code: Key::BackTab, ctrl: false, alt: false, shift: true }, focus, len) matches FormKey::Focus(
            g,
        ) && form_step(KeyPress { code: Key::Tab, ctrl: false, alt: false, shift: false }, g as int, len)
            == FormKey::Focus(focus as usize),
{
    if focus + 1 == len {
        vstd::arithmetic::div_mod::lemma_mod_self_0(len);
        vstd::arithmetic::div_mod::lemma_small_mod((len - 1) as nat, len as nat);
    } else {
        vstd::arithmetic::div_mod::lemma_small_mod((focus + 1) as nat, len as nat);
        vstd::arithmetic::div_mod::lemma_mod_adds(focus, len, len);
        vstd::arithmetic::div_mod::lemma_small_mod(focus as nat, len as nat);
        vstd::arithmetic::div_mod::lemma_mod_self_0(len);
    }
    if focus == 0 {
        vstd::arithmetic::div_mod::lemma_small_mod((len - 1) as nat, len as nat);
        vstd::arithmetic::div_mod::lemma_mod_self_0(len);
    } else {
        vstd::arithmetic::div_mod::lemma_mod_adds(focus - 1, len, len);
        vstd::arithmetic::div_mod::lemma_small_mod((focus - 1) as nat, len as nat);
        vstd::arithmetic::div_mod::lemma_mod_self_0(len);
        vstd::arithmetic::div_mod::lemma_small_mod(focus as nat, len as nat);
    }
}

} // verus!
