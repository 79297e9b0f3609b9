//! What the interactive screens decide: which screen and day are on show,
//! what a key does to them, and what has to be asked of the store or said in
//! the status line as a result.
use crate::balance::{is_working_day, working_day, Rules};
use crate::booking::{
    SplitField, SplitPlan, SplitRefusal, boxes_match, break_split_plan, entry_session, field_view, session_loss,
    split_field, split_is_worth_offering, split_worth,
};
use crate::clock::Session;
use crate::date::{Date, DateTime, Time};
use crate::forms::{
    push_int, FormData, SettingsData, assigned_of, assigned_total, assigned_view, break_split_footer, form_fits, form_result,
    lemma_assigned_nonneg, lemma_assigned_view, lemma_shares_total, others, over_assigned, settings_footer,
    settings_line, settings_result, shares_view, split_problem, validate_break_split, validate_form,
    validate_settings,
    values_view, gross_ints, split_fits, lemma_problem_capped, lemma_assigned_mono,
};
use crate::breaks::BreakTier;
use crate::config::ConfigPatch;
use crate::minutes::{abs, hhmm_text, signed_text, unsigned_text};
use crate::report::{clock_string, clock_text, int_decimal, push_i32};
use crate::booking::weekdays_between;
use crate::balance::{elapsed, running_minutes};
use crate::date::iso_date_text;
use crate::types::kind_display;
use crate::ui::{lowercase, lowercase_text, month_name, month_text};
use crate::text::{chars_of, decimal, decimal_string, push_decimal};
use crate::minutes::{HoursFormat, Minutes};
use crate::month::MonthData;
use crate::stats::StatsData;
use crate::import::strings_view;
use crate::periods::{
    RangeKind, months_later, months_later_exists, period, period_exists, range_for, shift_anchor,
    shift_exists, add_months,
};
use crate::stats::{month_abbr, month_short, weekday_abbr, weekday_short};
use crate::text::{pad2, push_char, push_pad2, push_str, trim, trimmed};
use crate::types::{Day, DayKind, Entry, Project};
use crate::ui::ChartMode;
use vstd::prelude::*;

verus! {

/// The screens.
#[derive(Clone, Copy, Debug, PartialEq, Eq, Structural)]
pub enum Screen {
    Month,
    Day,
    Stats,
    Projects,
}

/// A question waiting for yes or no.
#[derive(Debug, PartialEq, Eq)]
pub enum Confirm {
    DeleteEntry(i64),
    SetKind(Date, DayKind),
    /// Mark every weekday of `from..=to` as `kind`.
    SetKindRange { from: Date, to: Date, kind: DayKind },
}

/// What submitting the project picker does.
#[derive(Clone, Copy, Debug, PartialEq, Eq, Structural)]
pub enum ClockAction {
    /// Nothing is running: open the first session.
    In,
    /// A session is running: book it and open the next one.
    Switch,
    /// A break is on: go back to work.
    Resume,
}

/// What the one-field name box is for.
#[derive(Debug, PartialEq, Eq)]
pub enum PromptKind {
    RenameProject { old: String },
    AddProject,
}

/// What is asked of the store.
#[derive(Debug, PartialEq, Eq)]
pub enum StoreCmd {
    LoadMonth { year: i32, month: u32 },
    LoadDay(Date),
    /// The days `from..=to`, and the vacation budget of `year`.
    LoadStats { from: Date, to: Date, year: i32 },
    AddEntry { date: Date, start: Time, end: Time, project: String, comment: String },
    UpdateEntry { id: i64, start: Time, end: Time, project: String, comment: String },
    DeleteEntry(i64),
    SetKind(Date, DayKind),
    SetKindRange { from: Date, to: Date, kind: DayKind },
    /// Set (or clear, with `None`) the break shares of a session's entries.
    SetBreakShares(Vec<(i64, Option<Minutes>)>),
    ClockIn(Date, Time, String),
    /// Book the running session, on its own project and without a comment.
    ClockOut,
    /// Book the running session and clock in on `project` instead.
    Switch { project: String },
    /// Book the work so far and pause the clock.
    Break,
    /// Go back to work from a break, on `project` or the remembered one.
    Resume { project: Option<String> },
    Backup,
    LoadProjects,
    ArchiveProject { name: String, archived: bool },
    RenameProject { old: String, new: String },
    AddProject(String),
}

/// A line for the status bar.
#[derive(Clone, Copy, Debug, PartialEq, Eq)]
pub enum Notice {
    RangeCleared,
    PickProjectFirst,
    NotClockedIn,
    AlreadyOnBreak,
    DayHasEntries,
    WeekendsNeedNoType,
    NameEmpty,
    SplitHint,
    NoEntryToSplit,
    SettingsSaved,
    /// Why the break-split box did not open.
    Refused(SplitRefusal),
    /// Durations are now written in this format.
    HoursShown(HoursFormat),
    /// A range was begun on this day.
    RangeFrom(Date),
}

/// `Tue 15 Sep`: the weekday, the day of the month and the month, short.
pub open spec fn short_date(d: Date) -> Seq<char> {
    weekday_abbr(crate::date::weekday_of(d.num())) + " "@ + pad2(d@.2 as nat) + " "@ + month_abbr(d@.1)
}

pub open spec fn notice_text(n: Notice) -> Seq<char> {
    match n {
        Notice::RangeCleared => "Range cleared"@,
        Notice::PickProjectFirst => "Pick a project first"@,
        Notice::NotClockedIn => "Not clocked in"@,
        Notice::AlreadyOnBreak => "Already on break"@,
        Notice::DayHasEntries => "Day has entries; delete them first"@,
        Notice::WeekendsNeedNoType => "Weekends need no day type"@,
        Notice::NameEmpty => "Name must not be empty"@,
        Notice::SplitHint => "break on last project · press b to split"@,
        Notice::NoEntryToSplit => "No entry to split"@,
        Notice::SettingsSaved => "Settings saved"@,
        Notice::Refused(SplitRefusal::Gone) => "That entry is not on screen any more"@,
        Notice::Refused(SplitRefusal::TooShort) => "This session is too short to lose a break"@,
        Notice::Refused(SplitRefusal::Single) => "One entry in this session: the whole break is on it"@,
        Notice::HoursShown(HoursFormat::Hm) => "Hours shown as h:mm"@,
        Notice::HoursShown(HoursFormat::Decimal) => "Hours shown as decimal"@,
        Notice::RangeFrom(d) => "Range from "@ + short_date(d)
            + ": v f x p w mark every weekday up to the cursor, V or Esc clears"@,
    }
}

impl Notice {
    /// The line's text, and whether it reports an error.
    pub fn text(&self) -> (r: (String, bool))
        ensures
            r.0@ == notice_text(*self),
            r.1 == !(*self is RangeCleared || *self is RangeFrom || *self is SplitHint || *self is SettingsSaved
                || *self is HoursShown || *self == Notice::Refused(SplitRefusal::TooShort) || *self
                == Notice::Refused(SplitRefusal::Single)),
    {
        match self {
            Notice::RangeCleared => (String::from_str("Range cleared"), false),
            Notice::PickProjectFirst => (String::from_str("Pick a project first"), true),
            Notice::NotClockedIn => (String::from_str("Not clocked in"), true),
            Notice::AlreadyOnBreak => (String::from_str("Already on break"), true),
            Notice::DayHasEntries => (String::from_str("Day has entries; delete them first"), true),
            Notice::WeekendsNeedNoType => (String::from_str("Weekends need no day type"), true),
            Notice::NameEmpty => (String::from_str("Name must not be empty"), true),
            Notice::SplitHint => (String::from_str("break on last project · press b to split"), false),
            Notice::NoEntryToSplit => (String::from_str("No entry to split"), true),
            Notice::SettingsSaved => (String::from_str("Settings saved"), false),
            Notice::Refused(r) => {
                let (t, e) = r.message();
                (String::from_str(t), e)
            },
            Notice::HoursShown(HoursFormat::Hm) => (String::from_str("Hours shown as h:mm"), false),
            Notice::HoursShown(HoursFormat::Decimal) => (String::from_str("Hours shown as decimal"), false),
            Notice::RangeFrom(d) => {
                let d = *d;
                d.valid();
                let mut s = String::from_str("Range from ");
                push_str(&mut s, weekday_short(d.weekday()));
                push_char(&mut s, ' ');
                push_pad2(&mut s, d.day() as u64);
                push_char(&mut s, ' ');
                push_str(&mut s, month_short(d.month()));
                push_str(&mut s, ": v f x p w mark every weekday up to the cursor, V or Esc clears");
                proof {
                    reveal_strlit("Range from ");
                    reveal_strlit(" ");
                    assert(s@ =~= notice_text(*self));
                }
                (s, false)
            },
        }
    }
}

/// `names` without every name equal to `x`, in their order.
pub open spec fn without(names: Seq<Seq<char>>, x: Seq<char>) -> Seq<Seq<char>>
    decreases names.len(),
{
    if names.len() == 0 {
        names
    } else if names.last() == x {
        without(names.drop_last(), x)
    } else {
        without(names.drop_last(), x).push(names.last())
    }
}

/// The projects the picker offers: every known one but `current`, with the
/// last used one in front where it is not `current`.
pub open spec fn picker_list(names: Seq<Seq<char>>, last: Option<Seq<char>>, current: Option<Seq<char>>) -> Seq<
    Seq<char>,
> {
    let rest = match current {
        Some(c) => without(names, c),
        None => names,
    };
    match last {
        Some(l) => if Some(l) == current {
            rest
        } else {
            seq![l] + without(rest, l)
        },
        None => rest,
    }
}

/// The projects the resume picker offers: the remembered one first, then
/// every other the picker would offer.
pub open spec fn resume_list(names: Seq<Seq<char>>, last: Option<Seq<char>>, remembered: Option<Seq<char>>) -> Seq<
    Seq<char>,
> {
    let base = picker_list(names, last, None);
    match remembered {
        Some(p) => seq![p] + without(base, p),
        None => base,
    }
}

pub open spec fn opt_view(o: Option<String>) -> Option<Seq<char>> {
    match o {
        Some(s) => Some(s@),
        None => None,
    }
}

fn drop_name(names: &Vec<String>, x: &String) -> (r: Vec<String>)
    ensures
        strings_view(r@) == without(strings_view(names@), x@),
{
    let mut out: Vec<String> = Vec::new();
    let mut i: usize = 0;
    while i < names.len()
        invariant
            i <= names@.len(),
            strings_view(out@) == without(strings_view(names@).take(i as int), x@),
        decreases names.len() - i,
    {
        proof {
            assert(strings_view(names@).take(i + 1).drop_last() =~= strings_view(names@).take(i as int));
        }
        if names[i] != *x {
            let ghost ov = out@;
            out.push(names[i].clone());
            proof {
                assert(strings_view(out@) =~= strings_view(ov).push(names@[i as int]@));
            }
        }
        i += 1;
    }
    proof {
        assert(strings_view(names@).take(names@.len() as int) =~= strings_view(names@));
    }
    out
}

fn copy_names(names: &Vec<String>) -> (r: Vec<String>)
    ensures
        strings_view(r@) == strings_view(names@),
{
    let mut out: Vec<String> = Vec::new();
    let mut i: usize = 0;
    while i < names.len()
        invariant
            i <= names@.len(),
            strings_view(out@) == strings_view(names@).take(i as int),
        decreases names.len() - i,
    {
        let ghost ov = out@;
        let n = names[i].clone();
        out.push(n);
        proof {
            assert(out@ == ov.push(names@[i as int]));
            assert(strings_view(out@) =~= strings_view(ov).push(names@[i as int]@));
            assert(strings_view(names@).take(i + 1) =~= strings_view(names@).take(i as int).push(
                names@[i as int]@,
            ));
            assert(strings_view(out@) =~= strings_view(names@).take(i + 1));
        }
        i += 1;
    }
    proof {
        assert(strings_view(names@).take(names@.len() as int) =~= strings_view(names@));
    }
    out
}

fn put_first(x: &String, rest: Vec<String>) -> (r: Vec<String>)
    ensures
        strings_view(r@) == seq![x@] + without(strings_view(rest@), x@),
{
    let others = drop_name(&rest, x);
    let mut out: Vec<String> = Vec::new();
    out.push(x.clone());
    let mut i: usize = 0;
    while i < others.len()
        invariant
            i <= others@.len(),
            strings_view(out@) == seq![x@] + strings_view(others@).take(i as int),
        decreases others.len() - i,
    {
        let ghost ov = out@;
        let n = others[i].clone();
        out.push(n);
        proof {
            assert(out@ == ov.push(others@[i as int]));
            assert(strings_view(out@) =~= strings_view(ov).push(others@[i as int]@));
            assert(strings_view(others@).take(i + 1) =~= strings_view(others@).take(i as int).push(
                others@[i as int]@,
            ));
            assert(strings_view(out@) =~= seq![x@] + strings_view(others@).take(i + 1));
        }
        i += 1;
    }
    proof {
        assert(strings_view(others@).take(others@.len() as int) =~= strings_view(others@));
    }
    out
}

/// The projects the clock-in picker offers, from the known `names`.
fn offer_names(names: &Vec<String>, last_used: &Option<String>, current: &Option<String>) -> (r: Vec<
    String,
>)
    ensures
        strings_view(r@) == picker_list(strings_view(names@), opt_view(*last_used), opt_view(*current)),
{
    let rest = match current {
        Some(c) => drop_name(names, c),
        None => copy_names(names),
    };
    match last_used {
        Some(l) => {
            let same = match current {
                Some(c) => *c == *l,
                None => false,
            };
            if same {
                rest
            } else {
                put_first(l, rest)
            }
        },
        None => rest,
    }
}

/// The projects the resume picker offers, from the known `names`.
fn resume_names(names: &Vec<String>, last_used: &Option<String>, remembered: &Option<String>) -> (r: Vec<
    String,
>)
    ensures
        strings_view(r@) == resume_list(strings_view(names@), opt_view(*last_used), opt_view(*remembered)),
{
    let base = offer_names(names, last_used, &None);
    match remembered {
        Some(p) => put_first(p, base),
        None => base,
    }
}

/// What the picker does for the session on the clock: resume a break,
/// switch a running session, or clock in.
pub open spec fn action_for(s: Option<Session>) -> ClockAction {
    match s {
        Some(x) => if x.state is Break {
            ClockAction::Resume
        } else {
            ClockAction::Switch
        },
        None => ClockAction::In,
    }
}

/// The picker's title.
pub open spec fn picker_title(a: ClockAction, current: Option<Seq<char>>) -> Seq<char> {
    match a {
        ClockAction::Resume => match current {
            Some(p) => "Resume — currently "@ + p,
            None => "Resume — project"@,
        },
        ClockAction::Switch => match current {
            Some(p) => "Switch project — currently "@ + p,
            None => "Switch project"@,
        },
        ClockAction::In => "Clock in — project"@,
    }
}

pub fn clock_title(a: ClockAction, current: &Option<String>) -> (r: String)
    ensures
        r@ == picker_title(a, opt_view(*current)),
{
    match a {
        ClockAction::Resume => match current {
            Some(p) => {
                let mut s = String::from_str("Resume — currently ");
                push_str(&mut s, p.as_str());
                proof {
                    reveal_strlit("Resume — currently ");
                }
                s
            },
            None => String::from_str("Resume — project"),
        },
        ClockAction::Switch => match current {
            Some(p) => {
                let mut s = String::from_str("Switch project — currently ");
                push_str(&mut s, p.as_str());
                proof {
                    reveal_strlit("Switch project — currently ");
                }
                s
            },
            None => String::from_str("Switch project"),
        },
        ClockAction::In => String::from_str("Clock in — project"),
    }
}

/// What the day editor shows: the day and the known projects.
#[derive(Debug, PartialEq, Eq)]
pub struct DayData {
    pub day: Day,
    pub projects: Vec<Project>,
}

/// What the projects screen shows: every project, archived ones included,
/// and the net minutes worked on each, by name in name order.
#[derive(Debug, PartialEq, Eq)]
pub struct ProjectsData {
    pub projects: Vec<Project>,
    pub net_by_project: Vec<(String, Minutes)>,
}

/// What the store answers.
pub enum StoreReply {
    Month(MonthData),
    Day(DayData),
    Stats(StatsData),
    /// A write went through; the text is empty when there is nothing to say.
    Changed(String),
    /// A clock-out or a break booked entry `entry_id` on `date`: a `Changed`
    /// that also tells how many projects that entry's session spans and what
    /// the session loses to the break.
    Booked { entry_id: i64, date: Date, session_projects: usize, deduction: Minutes, message: String },
    Failed(String),
    Projects(ProjectsData),
}

/// What to do about the break split once the store has answered.
#[derive(Clone, Copy, Debug, PartialEq, Eq, Structural)]
pub enum SplitFollowup {
    /// Open the split box on the session of this entry, once its day is in.
    Open { date: Date, entry_id: i64 },
    /// Only say where the break went and which key changes it.
    Hint,
}

/// The overlays whose footer line the model writes.
#[derive(Clone, Copy, Debug, PartialEq, Eq, Structural)]
pub enum Overlay {
    Form,
    Settings,
    BreakSplit,
}

/// The open entry form: the fields as typed, and what checking them gave:
/// what is wrong, or the entry's gross, the day's break and the day's net.
#[derive(Debug, PartialEq, Eq)]
pub struct FormState {
    pub data: FormData,
    pub error: Option<String>,
    pub preview: Option<(Minutes, Minutes, Minutes)>,
}

/// The open settings overlay: the fields as typed, and what is wrong with
/// them once they have been touched.
#[derive(Debug, PartialEq, Eq)]
pub struct SettingsState {
    pub data: SettingsData,
    pub error: Option<String>,
}

/// The open break-split box: the session it is about, in clock order, and
/// the fields as typed.
#[derive(Debug, PartialEq, Eq)]
pub struct BreakSplitState {
    pub date: Date,
    pub session_entry_ids: Vec<i64>,
    pub deduction: Minutes,
    pub grosses: Vec<Minutes>,
    /// What each row is called, so an error can name its entry.
    pub labels: Vec<String>,
    pub values: Vec<String>,
    pub error: Option<String>,
}

/// The state of the open project picker.
#[derive(Clone, Copy, Debug, PartialEq, Eq, Structural)]
pub struct ClockPickerState {
    pub action: ClockAction,
}

/// What a key or a reply makes happen besides the change of state.
#[derive(Debug, PartialEq, Eq)]
pub enum Effect {
    Send(StoreCmd),
    Say(Notice),
    /// A status line with a text of the store's or the caller's.
    SayText(String, bool),
    /// Open the project picker with this title over these names.
    OpenClockPicker { title: String, projects: Vec<String> },
    /// Open the name box with this title, prefilled with `initial`.
    OpenPrompt { title: String, initial: String },
    /// Open the entry form on these fields.
    OpenForm(FormData),
    /// The footer line of an overlay, and whether it reports an error.
    Footer(Overlay, String, bool),
    /// Open the break-split box with this title over these fields.
    OpenSplitBox { title: String, fields: Vec<SplitField> },
    /// Open the settings overlay on these fields.
    OpenSettings(SettingsData),
    /// Write this patch into the configuration file, and answer with
    /// [`Msg::SettingsSaved`].
    SaveSettings(ConfigPatch),
    /// Write this hours format into the configuration file, and answer with
    /// [`Msg::HoursSaved`].
    SaveHours(HoursFormat),
    /// Open the break-split box on the session of this entry: hand
    /// [`Msg::OpenBreakSplit`] back to the model.
    OpenBreakSplit { date: Date, entry_id: i64 },
}

/// The keys, what the overlays hand back, the clock and the store's replies.
pub enum Msg {
    Quit,
    /// The clock, read now.
    Tick(DateTime),
    Store(StoreReply),
    Error(String),
    Info(String),
    /// Move the selection by this many days.
    SelectDay(i32),
    /// Move the selection by this many months.
    SelectMonth(i32),
    GoToday,
    Back,
    OpenClockPicker,
    ClockPickerSubmit(String),
    ClockPickerCancel,
    ClockOut,
    TakeBreak,
    SetKind(DayKind),
    AskConfirm(Confirm),
    ConfirmYes,
    ConfirmNo,
    ToggleHelp,
    /// Flip how durations are written.
    ToggleHours,
    /// The hours format was written, or why not.
    HoursSaved(Result<(), String>),
    OpenSettings,
    /// A settings field changed; carries every field as typed.
    SettingsChanged(SettingsData),
    SettingsSubmit(SettingsData),
    SettingsCancel,
    /// The settings were written, giving the rules and the vacation
    /// allowance they now make; or why not.
    SettingsSaved(Result<(Rules, u32), String>),
    OpenStats,
    StatsRange(RangeKind),
    /// Move the statistics anchor by this many whole periods.
    StatsShift(i32),
    StatsToday,
    ToggleChartMode,
    OpenDay,
    DaySelect(i32),
    DayAdd,
    DayEdit,
    FormSubmit(FormData),
    FormCancel,
    /// A field of the entry form changed; carries every field as typed.
    FormChanged(FormData),
    DayDelete,
    DayKindNext,
    DayKindPrev,
    OpenBreakSplit { date: Date, entry_id: i64 },
    DayBreakSplit,
    /// A field of the break-split box changed; carries every field as typed.
    BreakSplitChanged(Vec<String>),
    /// The shares to save, one per entry of the session.
    BreakSplitSubmit(Vec<(i64, Option<Minutes>)>),
    BreakSplitCancel,
    Backup,
    ToggleAnchor,
    OpenProjects,
    ProjectsSelect(i32),
    ProjectsToggleArchive,
    ProjectsRename,
    ProjectsAdd,
    PromptSubmit(String),
    PromptCancel,
}

/// What the screens know and show. The overlays' own fields stay with the
/// widgets that draw them.
pub struct Model {
    pub rules: Rules,
    pub vacation_allowance: u32,
    pub hours: HoursFormat,
    pub screen: Screen,
    pub selected: Date,
    pub today: Date,
    /// The clock, for a clock-in and the running session.
    pub now: Time,
    pub month: Option<MonthData>,
    pub day: Option<DayData>,
    pub stats: Option<StatsData>,
    pub day_cursor: usize,
    pub form: Option<FormState>,
    pub settings: Option<SettingsState>,
    pub break_split: Option<BreakSplitState>,
    pub confirm: Option<Confirm>,
    pub help: bool,
    pub quit: bool,
    pub stats_range: RangeKind,
    pub clock_picker: Option<ClockPickerState>,
    /// The day whose period the statistics show.
    pub stats_anchor: Date,
    pub chart_mode: ChartMode,
    pub split_followup: Option<SplitFollowup>,
    /// The far end of the day range the day-type keys work on.
    pub anchor: Option<Date>,
    pub projects: Option<ProjectsData>,
    pub projects_cursor: usize,
    /// What the open name box is for.
    pub prompt: Option<PromptKind>,
}

/// Whether `e` asks for the month that holds `d`.
pub open spec fn loads_month(e: Effect, d: Date) -> bool {
    e matches Effect::Send(StoreCmd::LoadMonth { year, month }) && year == d@.0 && month == d@.1
}

/// Whether `e` asks for the `kind` period around `anchor`.
pub open spec fn loads_stats(e: Effect, kind: RangeKind, anchor: Date) -> bool {
    e matches Effect::Send(StoreCmd::LoadStats { from, to, year }) && from.num() == period(kind, anchor).0
        && to.num() == period(kind, anchor).1 && year == anchor@.0
}

/// Whether `r` is where `anchor` lands moved `steps` periods of `kind`.
pub open spec fn shifts_to(kind: RangeKind, anchor: Date, steps: int, r: Date) -> bool {
    match kind {
        RangeKind::Week => r.num() == anchor.num() + 7 * steps,
        RangeKind::Month => r@ == months_later(anchor@, steps),
        RangeKind::Quarter => r@ == months_later(anchor@, 3 * steps),
        RangeKind::Year => r@ == months_later(anchor@, 12 * steps),
    }
}

/// The entries of the first of `days` dated `d`; none if there is none.
pub open spec fn day_entries(days: Seq<Day>, d: Date) -> Seq<Entry>
    decreases days.len(),
{
    if days.len() == 0 {
        Seq::empty()
    } else if days[0].date == d {
        days[0].entries@
    } else {
        day_entries(days.drop_first(), d)
    }
}

/// Whether some day of `days` is dated `d`.
pub open spec fn has_day(days: Seq<Day>, d: Date) -> bool {
    exists|i: int| 0 <= i < days.len() && #[trigger] days[i].date == d
}

/// The entries of `d` as the model last saw them: the day editor's own day
/// when it is that one, otherwise the month's.
pub open spec fn entries_on(m: Model, d: Date) -> Seq<Entry> {
    if m.day is Some && m.day->0.day.date == d {
        m.day->0.day.entries@
    } else {
        match m.month {
            Some(x) => day_entries(x.days@, d),
            None => Seq::empty(),
        }
    }
}

/// Whether some entry of `e` has the id `id`.
pub open spec fn holds_id(e: Seq<Entry>, id: i64) -> bool {
    exists|k: int| 0 <= k < e.len() && #[trigger] e[k].id == id
}

/// The names of `ps`.
pub open spec fn project_names(ps: Seq<Project>) -> Seq<Seq<char>> {
    Seq::new(ps.len(), |i: int| ps[i].name@)
}

/// Whether a waiting split box can open now: the entry it is about is in the
/// entries the model holds for its day.
pub open spec fn split_ready(m: Model) -> bool {
    m.split_followup matches Some(SplitFollowup::Open { date, entry_id }) && holds_id(
        entries_on(m, date),
        entry_id,
    )
}

/// `out` and the effects from `k` on are `m` after a waiting split box has
/// opened, if it can.
pub open spec fn settled(m: Model, fx: Seq<Effect>, k: int, out: Model) -> bool {
    if split_ready(m) {
        &&& out == (Model { split_followup: None, ..m })
        &&& fx.len() == k + 1
        &&& fx[k] == Effect::OpenBreakSplit {
            date: m.split_followup->0->Open_date,
            entry_id: m.split_followup->0->Open_entry_id,
        }
    } else {
        out == m && fx.len() == k
    }
}

/// How many requests a write's reload makes.
pub open spec fn reload_len(m: Model) -> int {
    if m.screen == Screen::Day || m.screen == Screen::Projects {
        2
    } else {
        1
    }
}

/// Whether the effects from `k` on start with the reload of what a write
/// changed: the month always, the day editor's day or the projects list when
/// that is the screen.
pub open spec fn reloads_at(fx: Seq<Effect>, k: int, m: Model) -> bool {
    &&& loads_month(fx[k], m.selected)
    &&& m.screen == Screen::Day ==> fx[k + 1] == Effect::Send(StoreCmd::LoadDay(m.selected))
    &&& m.screen == Screen::Projects ==> fx[k + 1] == Effect::Send(StoreCmd::LoadProjects)
}

/// Whether the first of `days` dated `d` has entries.
pub open spec fn has_entries_on(days: Seq<Day>, d: Date) -> bool {
    day_entries(days, d).len() > 0
}

/// The kind at place `i` of the cycle the day editor steps through; an
/// absence is labelled `absence`.
pub open spec fn kind_at_view(i: int) -> (int, Seq<char>) {
    (i, if i == 5 {
        "absence"@
    } else {
        Seq::empty()
    })
}

/// `n` lowered by one, but not below zero.
pub open spec fn sat_pred(n: int) -> int {
    if n > 0 {
        n - 1
    } else {
        0
    }
}

fn kind_at(i: usize) -> (k: DayKind)
    requires
        i < 6,
    ensures
        k@ == kind_at_view(i as int),
{
    if i == 0 {
        DayKind::Work
    } else if i == 1 {
        DayKind::Vacation
    } else if i == 2 {
        DayKind::Flex
    } else if i == 3 {
        DayKind::Holiday
    } else if i == 4 {
        DayKind::Sick
    } else {
        DayKind::Absence { label: String::from_str("absence") }
    }
}

fn month_cmd(d: Date) -> (e: Effect)
    ensures
        loads_month(e, d),
{
    Effect::Send(StoreCmd::LoadMonth { year: d.year(), month: d.month() })
}

fn stats_cmd(kind: RangeKind, anchor: Date) -> (e: Effect)
    requires
        period_exists(kind, anchor),
    ensures
        loads_stats(e, kind, anchor),
{
    let (from, to) = range_for(kind, anchor);
    Effect::Send(StoreCmd::LoadStats { from, to, year: anchor.year() })
}

/// The entries of the first of `days` dated `d`.
fn entries_of_day(days: &Vec<Day>, d: Date) -> (r: Vec<Entry>)
    ensures
        r@ == day_entries(days@, d),
{
    let mut i: usize = 0;
    proof {
        assert(days@.skip(0) =~= days@);
    }
    while i < days.len()
        invariant
            i <= days@.len(),
            day_entries(days@, d) == day_entries(days@.skip(i as int), d),
        decreases days.len() - i,
    {
        proof {
            assert(days@.skip(i as int)[0] == days@[i as int]);
            assert(days@.skip(i as int).drop_first() =~= days@.skip(i + 1));
        }
        if days[i].date.same(&d) {
            return days[i].entries.clone();
        }
        i += 1;
    }
    proof {
        assert(days@.skip(i as int).len() == 0);
    }
    Vec::new()
}

fn has_day_on(days: &Vec<Day>, d: Date) -> (r: bool)
    ensures
        r == has_day(days@, d),
{
    let mut i: usize = 0;
    while i < days.len()
        invariant
            i <= days@.len(),
            forall|j: int| 0 <= j < i ==> days@[j].date != d,
        decreases days.len() - i,
    {
        if days[i].date.same(&d) {
            return true;
        }
        i += 1;
    }
    false
}

fn names_of(ps: &Vec<Project>) -> (r: Vec<String>)
    ensures
        strings_view(r@) == project_names(ps@),
{
    let mut out: Vec<String> = Vec::new();
    let mut i: usize = 0;
    while i < ps.len()
        invariant
            i <= ps@.len(),
            strings_view(out@) == project_names(ps@).take(i as int),
        decreases ps.len() - i,
    {
        let ghost ov = out@;
        let n = ps[i].name.clone();
        out.push(n);
        proof {
            assert(out@ == ov.push(ps@[i as int].name));
            assert(strings_view(out@) =~= strings_view(ov).push(ps@[i as int].name@));
            assert(project_names(ps@).take(i + 1) =~= project_names(ps@).take(i as int).push(
                ps@[i as int].name@,
            ));
        }
        i += 1;
    }
    proof {
        assert(project_names(ps@).take(ps@.len() as int) =~= project_names(ps@));
    }
    out
}

fn holds(e: &Vec<Entry>, id: i64) -> (r: bool)
    ensures
        r == holds_id(e@, id),
{
    let mut i: usize = 0;
    while i < e.len()
        invariant
            i <= e@.len(),
            forall|k: int| 0 <= k < i ==> e@[k].id != id,
        decreases e.len() - i,
    {
        if e[i].id == id {
            return true;
        }
        i += 1;
    }
    false
}

/// What stepping the day editor's kind by `step` places of the cycle asks.
fn day_kind_fx(day: &Option<DayData>, step: usize) -> (fx: Vec<Effect>)
    requires
        step == 1 || step == 5,
    ensures
        match *day {
            None => fx@.len() == 0,
            Some(d) => if d.day.entries@.len() > 0 {
                fx@ == seq![Effect::Say(Notice::DayHasEntries)]
            } else if !working_day(d.day.date.num()) {
                fx@ == seq![Effect::Say(Notice::WeekendsNeedNoType)]
            } else {
                &&& fx@.len() == 1
                &&& fx@[0] matches Effect::Send(StoreCmd::SetKind(dd, k)) && dd == d.day.date && k@
                    == kind_at_view((d.day.kind@.0 + step) % 6)
            },
        },
{
    let mut fx: Vec<Effect> = Vec::new();
    if let Some(d) = day {
        if d.day.entries.len() > 0 {
            fx.push(Effect::Say(Notice::DayHasEntries));
        } else if !is_working_day(d.day.date) {
            fx.push(Effect::Say(Notice::WeekendsNeedNoType));
        } else {
            let cur = d.day.kind.tag() as usize;
            let k = kind_at((cur + step) % 6);
            fx.push(Effect::Send(StoreCmd::SetKind(d.day.date, k)));
        }
    }
    fx
}

/// What a reply of the store does: `m` takes it in and becomes `out`,
/// asking `fx` of the store and the status line.
pub open spec fn stored(m: Model, reply: StoreReply, out: Model, fx: Seq<Effect>) -> bool {
    match reply {
        StoreReply::Month(x) => {
                    let keep = match m.split_followup {
                        Some(SplitFollowup::Open { date, entry_id }) => m.selected == date || has_day(
                            x.days@,
                            date,
                        ),
                        _ => true,
                    };
                    settled(
                        Model {
                            month: Some(x),
                            split_followup: if keep {
                                m.split_followup
                            } else {
                                None
                            },
                            ..m
                        },
                        fx,
                        0,
                        out,
                    )
                },
        StoreReply::Day(x) => settled(
                    Model {
                        day_cursor: if m.day_cursor < sat_pred(x.day.entries@.len() as int) {
                            m.day_cursor
                        } else {
                            sat_pred(x.day.entries@.len() as int) as usize
                        },
                        day: Some(x),
                        ..m
                    },
                    fx,
                    0,
                    out,
                ),
        StoreReply::Stats(x) => settled(Model { stats: Some(x), ..m }, fx, 0, out),
        StoreReply::Changed(text) => {
                    let hint = m.split_followup == Some(SplitFollowup::Hint);
                    let said = if text@.len() > 0 {
                        seq![Effect::SayText(text, false)]
                    } else {
                        Seq::empty()
                    } + if hint {
                        seq![Effect::Say(Notice::SplitHint)]
                    } else {
                        Seq::empty()
                    };
                    let mid = if hint {
                        Model { split_followup: None, ..m }
                    } else {
                        m
                    };
                    &&& fx.take(said.len() as int) == said
                    &&& reloads_at(fx, said.len() as int, mid)
                    &&& settled(mid, fx, said.len() + reload_len(mid), out)
                },
        StoreReply::Booked { entry_id, date, session_projects, deduction, message } => {
                    let mid = if session_projects > 1 && deduction.0 > 0 {
                        Model { split_followup: Some(SplitFollowup::Open { date, entry_id }), ..m }
                    } else {
                        m
                    };
                    &&& fx[0] == Effect::SayText(message, false)
                    &&& reloads_at(fx, 1, mid)
                    &&& settled(mid, fx, 1 + reload_len(mid), out)
                },
        StoreReply::Failed(e) => fx[0] == Effect::SayText(e, true) && settled(
                    m,
                    fx,
                    1,
                    out,
                ),
        StoreReply::Projects(x) => settled(
                    Model {
                        projects_cursor: if m.projects_cursor < sat_pred(x.projects@.len() as int) {
                            m.projects_cursor
                        } else {
                            sat_pred(x.projects@.len() as int) as usize
                        },
                        projects: Some(x),
                        ..m
                    },
                    fx,
                    0,
                    out,
                ),
    }
}

/// The session on the clock, as the month on show has it.
pub open spec fn month_session(m: Model) -> Option<Session> {
    match m.month {
        Some(x) => x.session,
        None => None,
    }
}

/// The names of the known projects, as the month on show has them.
pub open spec fn month_names(m: Model) -> Seq<Seq<char>> {
    match m.month {
        Some(x) => project_names(x.projects@),
        None => Seq::empty(),
    }
}

/// The last used project, as the month on show has it.
pub open spec fn month_last_used(m: Model) -> Option<Seq<char>> {
    match m.month {
        Some(x) => opt_view(x.last_used_project),
        None => None,
    }
}

/// The days of the month on show.
pub open spec fn month_days(m: Model) -> Seq<Day> {
    match m.month {
        Some(x) => x.days@,
        None => Seq::empty(),
    }
}

/// The projects on the projects screen.
pub open spec fn project_list(m: Model) -> Seq<Project> {
    match m.projects {
        Some(x) => x.projects@,
        None => Seq::empty(),
    }
}

/// The pairs of a hint row, as characters.
pub open spec fn pairs_view(v: Seq<(&str, &str)>) -> Seq<(Seq<char>, Seq<char>)> {
    Seq::new(v.len(), |i: int| (v[i].0@, v[i].1@))
}

/// The key hints under each screen.
pub open spec fn hints_of(s: Screen) -> Seq<(Seq<char>, Seq<char>)> {
    match s {
        Screen::Month => seq![
            ("↑↓"@, "day"@),
            ("[ ]"@, "month"@),
            ("⏎"@, "edit"@),
            ("i/o"@, "clock"@),
            ("s"@, "stats"@),
            ("c"@, "settings"@),
            ("v f x p"@, "day type"@),
            ("?"@, "help"@),
            ("q"@, "quit"@),
        ],
        Screen::Day => seq![
            ("↑↓"@, "entry"@),
            ("a"@, "add"@),
            ("e"@, "edit"@),
            ("d"@, "delete"@),
            ("b"@, "break"@),
            ("←→"@, "day type"@),
            ("u"@, "units"@),
            ("Esc"@, "back"@),
        ],
        Screen::Stats => seq![
            ("1-4"@, "range"@),
            ("[ ]"@, "shift"@),
            ("t"@, "today"@),
            ("r"@, "running"@),
            ("u"@, "units"@),
            ("Esc"@, "back"@),
        ],
        Screen::Projects => seq![
            ("↑↓"@, "project"@),
            ("a"@, "archive"@),
            ("r"@, "rename"@),
            ("n"@, "new"@),
            ("u"@, "units"@),
            ("?"@, "help"@),
            ("Esc"@, "back"@),
        ],
    }
}

/// The keys the help overlay lists for each screen.
pub open spec fn help_of(s: Screen) -> Seq<(Seq<char>, Seq<char>)> {
    match s {
        Screen::Month => seq![
            ("↑ ↓ j k"@, "move by day"@),
            ("[ ]"@, "previous / next month"@),
            ("t"@, "jump to today"@),
            ("Enter"@, "open day editor"@),
            ("s"@, "statistics"@),
            ("c"@, "settings"@),
            ("P"@, "projects: archive, rename, add"@),
            ("i"@, "clock in / switch project / resume"@),
            ("o"@, "clock out"@),
            ("b"@, "take a break (books work so far)"@),
            ("v"@, "vacation"@),
            ("f"@, "flex day"@),
            ("x"@, "sick"@),
            ("p"@, "public holiday"@),
            ("w"@, "reset to work day"@),
            ("V"@, "start / clear a range for the day-type keys"@),
            ("u"@, "toggle h:mm / decimal hours"@),
            ("B"@, "back up the database"@),
            ("q"@, "quit"@),
        ],
        Screen::Day => seq![
            ("↑ ↓"@, "select entry"@),
            ("a"@, "add entry"@),
            ("e"@, "edit entry"@),
            ("d"@, "delete entry"@),
            ("b"@, "split this session's break"@),
            ("← →"@, "change day type"@),
            ("u"@, "toggle h:mm / decimal hours"@),
            ("Esc"@, "back"@),
        ],
        Screen::Stats => seq![
            ("1"@, "week (Monday … Sunday)"@),
            ("2"@, "calendar month"@),
            ("3"@, "calendar quarter"@),
            ("4"@, "calendar year"@),
            ("[ ]"@, "previous / next period"@),
            ("PgUp PgDn"@, "previous / next period"@),
            ("t"@, "back to today"@),
            ("r"@, "toggle per-period / running balance"@),
            ("u"@, "toggle h:mm / decimal hours"@),
            ("Esc"@, "back"@),
        ],
        Screen::Projects => seq![
            ("↑ ↓ j k"@, "select project"@),
            ("a"@, "archive / unarchive"@),
            ("r"@, "rename"@),
            ("n"@, "new project"@),
            ("u"@, "toggle h:mm / decimal hours"@),
            ("Esc"@, "back"@),
        ],
    }
}

/// The month screen's hints without the day-type keys, for a narrow terminal.
/// The columns a hint row takes: a leading space, each key and its text
/// with a space between, and two spaces between hints.
pub open spec fn row_width(h: Seq<(Seq<char>, Seq<char>)>) -> int
    decreases h.len(),
{
    if h.len() == 0 {
        1
    } else if h.len() == 1 {
        1 + h[0].0.len() as int + 1 + h[0].1.len() as int
    } else {
        row_width(h.drop_last()) + 2 + h.last().0.len() + 1 + h.last().1.len()
    }
}

/// Every screen's key hints fit the terminal from the 80 columns the screens
/// need on: the month screen drops its day-type keys below 92 columns, and
/// the others fit as they are.
pub proof fn key_hints_fit_the_width(s: Screen, width: int)
    requires
        width >= 80,
    ensures
        row_width(
            if s == Screen::Month && width < 92 {
                narrow_month_hints()
            } else {
                hints_of(s)
            },
        ) <= width,
{
    reveal_strlit("↑↓");
    reveal_strlit("day");
    reveal_strlit("[ ]");
    reveal_strlit("month");
    reveal_strlit("⏎");
    reveal_strlit("edit");
    reveal_strlit("i/o");
    reveal_strlit("clock");
    reveal_strlit("s");
    reveal_strlit("stats");
    reveal_strlit("c");
    reveal_strlit("settings");
    reveal_strlit("v f x p");
    reveal_strlit("day type");
    reveal_strlit("?");
    reveal_strlit("help");
    reveal_strlit("q");
    reveal_strlit("quit");
    reveal_strlit("entry");
    reveal_strlit("a");
    reveal_strlit("add");
    reveal_strlit("e");
    reveal_strlit("d");
    reveal_strlit("delete");
    reveal_strlit("b");
    reveal_strlit("break");
    reveal_strlit("←→");
    reveal_strlit("u");
    reveal_strlit("units");
    reveal_strlit("Esc");
    reveal_strlit("back");
    reveal_strlit("1-4");
    reveal_strlit("range");
    reveal_strlit("shift");
    reveal_strlit("t");
    reveal_strlit("today");
    reveal_strlit("r");
    reveal_strlit("running");
    reveal_strlit("project");
    reveal_strlit("archive");
    reveal_strlit("rename");
    reveal_strlit("n");
    reveal_strlit("new");
    reveal_with_fuel(row_width, 10);
    assert(row_width(narrow_month_hints()) == 74);
    assert(row_width(hints_of(Screen::Month)) == 92);
    assert(row_width(hints_of(Screen::Day)) == 75);
    assert(row_width(hints_of(Screen::Stats)) == 60);
    assert(row_width(hints_of(Screen::Projects)) == 66);
}

pub open spec fn narrow_month_hints() -> Seq<(Seq<char>, Seq<char>)> {
    seq![
        ("↑↓"@, "day"@),
        ("[ ]"@, "month"@),
        ("⏎"@, "edit"@),
        ("i/o"@, "clock"@),
        ("s"@, "stats"@),
        ("c"@, "settings"@),
        ("?"@, "help"@),
        ("q"@, "quit"@),
    ]
}

/// What the title bar shows of the running session: its project, when it
/// began (`HH:MM`), the minutes since, and whether it is a break.
#[derive(Debug, PartialEq, Eq)]
pub struct ClockInfo {
    pub project: String,
    pub since: String,
    pub running: Minutes,
    pub on_break: bool,
}

/// What the title bar shows.
#[derive(Debug, PartialEq, Eq)]
pub struct TitleInfo {
    pub title: String,
    pub balance: Minutes,
    pub clock: Option<ClockInfo>,
    /// Vacation days used this year, and the allowance.
    pub vacation: Option<(u32, u32)>,
}

pub open spec fn upper_char(c: char) -> char {
    if 'a' <= c <= 'z' {
        ((c as int) - 32) as char
    } else {
        c
    }
}

/// A text with its ASCII small letters made capitals.
pub open spec fn ascii_upper(s: Seq<char>) -> Seq<char> {
    Seq::new(s.len(), |i: int| upper_char(s[i]))
}

/// The question a confirmation asks.
pub open spec fn confirm_question(c: Confirm) -> Seq<char> {
    match c {
        Confirm::DeleteEntry(_) => "Delete this entry?"@,
        Confirm::SetKind(d, k) => "Set "@ + iso_date_text(d@) + " to "@ + lowercase_text(kind_display(k@))
            + "?"@,
        Confirm::SetKindRange { from, to, kind } => "Set "@ + decimal(
            weekdays_between(from.num(), to.num()).len(),
        ) + " weekdays, "@ + iso_date_text(from@) + " to "@ + iso_date_text(to@) + ", to "@
            + lowercase_text(kind_display(kind@)) + "?"@,
    }
}

fn to_upper(c: char) -> (r: char)
    ensures
        r == upper_char(c),
{
    if 'a' <= c && c <= 'z' {
        ((c as u8) - 32) as char
    } else {
        c
    }
}

fn upper(s: &str) -> (r: String)
    ensures
        r@ == ascii_upper(s@),
{
    let cs = chars_of(s);
    let mut r = String::new();
    let mut i: usize = 0;
    while i < cs.len()
        invariant
            i <= cs@.len(),
            cs@ == s@,
            r@ == ascii_upper(s@).take(i as int),
        decreases cs.len() - i,
    {
        push_char(&mut r, to_upper(cs[i]));
        proof {
            assert(r@ =~= ascii_upper(s@).take(i + 1));
        }
        i += 1;
    }
    proof {
        assert(ascii_upper(s@).take(cs@.len() as int) =~= ascii_upper(s@));
    }
    r
}

/// How many weekdays `from..=to` holds.
fn count_weekdays(from: Date, to: Date) -> (n: u64)
    ensures
        n == weekdays_between(from.num(), to.num()).len(),
{
    let mut d = from;
    let mut n: u64 = 0;
    let mut more = from.not_after(&to);
    from.valid();
    to.valid();
    proof {
        assert(weekdays_between(from.num(), from.num() - 1) =~= Seq::<int>::empty());
        crate::stats::lemma_date_in_range(from);
        crate::stats::lemma_date_in_range(to);
        assert(crate::date::last_day_number() - crate::date::first_day_number() < 1_000_000_000) by {
            reveal(crate::date::days_before_year);
        }
        if !more {
            assert(weekdays_between(from.num(), to.num()) =~= Seq::<int>::empty());
        }
    }
    while more
        invariant
            more ==> d.num() <= to.num(),
            more ==> n == weekdays_between(from.num(), d.num() - 1).len(),
            !more ==> n == weekdays_between(from.num(), to.num()).len(),
            from.num() <= d.num(),
            n <= d.num() - from.num() + 1,
            crate::date::in_range(from.num()),
            crate::date::in_range(to.num()),
            crate::date::last_day_number() - crate::date::first_day_number() < 1_000_000_000,
        decreases to.num() - d.num() + (if more { 1int } else { 0int }),
    {
        d.valid();
        proof {
            crate::stats::lemma_date_in_range(d);
            assert(weekdays_between(from.num(), d.num()) == if working_day(d.num()) {
                weekdays_between(from.num(), d.num() - 1).push(d.num())
            } else {
                weekdays_between(from.num(), d.num() - 1)
            });
            assert(weekdays_between(from.num(), d.num() - 1).len() <= d.num() - from.num()) by {
                lemma_weekdays_len(from.num(), d.num() - 1);
            }
        }
        if is_working_day(d) {
            n = n + 1;
        }
        if d.same(&to) {
            more = false;
        } else {
            d.valid();
            to.valid();
            d = d.succ_opt().unwrap();
        }
    }
    n
}

proof fn lemma_weekdays_len(from: int, to: int)
    ensures
        weekdays_between(from, to).len() <= if to < from {
            0
        } else {
            to - from + 1
        },
    decreases to - from + 1,
{
    if to >= from {
        lemma_weekdays_len(from, to - 1);
    }
}

/// The entries the entry form is checked against: the day editor's day.
pub open spec fn form_entries(m: Model) -> Seq<Entry> {
    match m.day {
        Some(d) => d.day.entries@,
        None => Seq::empty(),
    }
}

/// The footer of an entry form that checks out.
pub open spec fn form_preview_text(gross: int, brk: int, net: int, f: HoursFormat) -> Seq<char> {
    "gross +"@ + unsigned_text(abs(gross) as nat, f) + " · break -"@ + unsigned_text(abs(brk) as nat, f)
        + " · net +"@ + unsigned_text(abs(net) as nat, f)
}

/// Whether `out` and the footer `e` are `m` with its entry form checked
/// again, the error shown only where `show` says so.
pub open spec fn form_refreshed(m: Model, show: bool, out: Model, e: Option<Effect>) -> bool {
    match m.form {
        None => out == m && e is None,
        Some(f) => {
            &&& out == (Model { form: out.form, ..m })
            &&& out.form matches Some(g) && g.data == f.data
            &&& e matches Some(Effect::Footer(o, t, b)) && o == Overlay::Form && match form_result(
                f.data,
                form_entries(m),
                m.rules.tiers@,
            ) {
                Err(msg) => out.form->0.preview is None && if show {
                    out.form->0.error matches Some(x) && x@ == msg && t@ == msg && b
                } else {
                    out.form->0.error is None && t@.len() == 0 && !b
                },
                Ok(v) => out.form->0.error is None && out.form->0.preview == Some(
                    (Minutes(v.2 as i32), Minutes(v.3 as i32), Minutes(v.4 as i32)),
                ) && t@ == form_preview_text(v.2, v.3, v.4, m.hours) && !b,
            }
        },
    }
}

/// What submitting the entry form with fields `d` does on a working day:
/// where the fields do not check out, the form stays open with the error
/// shown; where they do, the entry is added or updated, the form closes,
/// and a break that would land on a session of several projects is to be
/// pointed out once the store has written it.
pub open spec fn form_submitted(m: Model, d: FormData, out: Model, fx: Seq<Effect>) -> bool {
    match form_result(d, form_entries(m), m.rules.tiers@) {
        Err(_) => match m.form {
            Some(f) => fx.len() == 1 && form_refreshed(
                Model { form: Some(FormState { data: d, ..f }), ..m },
                true,
                out,
                Some(fx[0]),
            ),
            None => out == m && fx.len() == 0,
        },
        Ok(v) => {
            &&& fx.len() == 1
            &&& match d.id {
                None => fx[0] matches Effect::Send(StoreCmd::AddEntry { date, start, end, project, comment })
                    && date == m.day->0.day.date && (start@.0, start@.1) == v.0 && (end@.0, end@.1) == v.1
                    && project@ == trim(d.project@) && comment@ == trim(d.comment@) && out == (Model {
                    form: None,
                    split_followup: if split_worth(
                        others(form_entries(m), d.id).push(
                            Entry { id: i64::MIN, date, start, end, project, comment, break_share: None },
                        ),
                        i64::MIN,
                        m.rules.tiers@,
                    ) {
                        Some(SplitFollowup::Hint)
                    } else {
                        None
                    },
                    ..m
                }),
                Some(id) => fx[0] matches Effect::Send(StoreCmd::UpdateEntry { id: i, start, end, project, comment })
                    && i == id && (start@.0, start@.1) == v.0 && (end@.0, end@.1) == v.1 && project@ == trim(
                    d.project@,
                ) && comment@ == trim(d.comment@) && out == (Model {
                    form: None,
                    split_followup: if split_worth(
                        others(form_entries(m), d.id).push(
                            Entry {
                                id,
                                date: m.day->0.day.date,
                                start,
                                end,
                                project,
                                comment,
                                break_share: None,
                            },
                        ),
                        id,
                        m.rules.tiers@,
                    ) {
                        Some(SplitFollowup::Hint)
                    } else {
                        None
                    },
                    ..m
                }),
            }
        },
    }
}

/// The entries of `e` but the one with id `id`, then `this`.
fn keep_others_then(e: &Vec<Entry>, id: Option<i64>, this: Entry) -> (r: Vec<Entry>)
    ensures
        r@ == others(e@, id).push(this),
{
    let mut out: Vec<Entry> = Vec::new();
    let mut i: usize = 0;
    while i < e.len()
        invariant
            i <= e@.len(),
            out@ == others(e@.take(i as int), id),
        decreases e.len() - i,
    {
        proof {
            assert(e@.take(i + 1).drop_last() =~= e@.take(i as int));
            assert(e@.take(i + 1).last() == e@[i as int]);
        }
        let skip = match id {
            Some(x) => x == e[i].id,
            None => false,
        };
        if !skip {
            out.push(e[i].clone());
        }
        i += 1;
    }
    proof {
        assert(e@.take(e@.len() as int) =~= e@);
    }
    out.push(this);
    out
}

/// Whether `p` is the patch the settings overlay makes of the checked
/// values `v`: start day, balance, target and vacation days.
pub open spec fn patch_of(p: ConfigPatch, v: (int, int, int, int)) -> bool {
    &&& p.start_date matches Some(s) && s.num() == v.0
    &&& p.initial_balance_minutes == Some(v.1 as i32)
    &&& p.daily_target_minutes == Some(v.2 as i32)
    &&& p.vacation_days_per_year == Some(v.3 as u32)
    &&& p.hours_format is None
}

/// Whether `out` and the footer `e` are `m` with its settings overlay
/// checked again, the error shown only where `show` says so.
pub open spec fn settings_refreshed(m: Model, show: bool, out: Model, e: Option<Effect>) -> bool {
    match m.settings {
        None => out == m && e is None,
        Some(st) => {
            &&& out == (Model { settings: out.settings, ..m })
            &&& out.settings matches Some(g) && g.data == st.data
            &&& e matches Some(Effect::Footer(o, t, b)) && o == Overlay::Settings && match settings_result(
                st.data,
                m.today.num(),
            ) {
                Err(msg) => if show {
                    out.settings->0.error matches Some(x) && x@ == msg && t@ == msg && b
                } else {
                    out.settings->0.error is None && t@.len() == 0 && !b
                },
                Ok(v) => out.settings->0.error is None && t@ == settings_line(
                    (v.1 as i32) as int,
                    (v.2 as i32) as int,
                    (v.3 as u32) as nat,
                    m.hours,
                ) && !b,
            }
        },
    }
}

/// The fields the settings overlay opens on: the rules in force.
pub open spec fn settings_fields_of(m: Model, d: SettingsData) -> bool {
    &&& d.start@ == iso_date_text(m.rules.start_date@)
    &&& d.balance@ == signed_text(m.rules.initial_balance.0 as int, HoursFormat::Hm)
    &&& d.target@ == hhmm_text(abs(m.rules.daily_target.0 as int) as nat)
    &&& d.vacation@ == decimal(m.vacation_allowance as nat)
}

/// The grosses of the entries of the session of entry `id`, in clock order.
pub open spec fn session_grosses(e: Seq<Entry>, id: i64) -> Seq<int> {
    let g = entry_session(e, id);
    Seq::new(g.len(), |k: int| e[g[k] as int].len())
}

/// What checking the fields of the break-split box `st` gives: what is
/// wrong, or the minutes handed out by hand.
pub open spec fn split_verdict(st: BreakSplitState, f: HoursFormat) -> Result<int, Seq<char>> {
    match split_problem(st.values@, st.labels@, st.grosses@, st.values@.len() as int) {
        Some(p) => Err(p),
        None => {
            let a = assigned_of(st.values@, st.values@.len() as int);
            if a > st.deduction.0 {
                Err(over_assigned(a, st.deduction.0 as int, f))
            } else {
                Ok(a)
            }
        },
    }
}

/// Whether `out` and the footer `e` are `m` with its break-split box
/// checked again, the error shown only where `show` says so.
pub open spec fn split_refreshed(m: Model, show: bool, out: Model, e: Option<Effect>) -> bool {
    match m.break_split {
        None => out == m && e is None,
        Some(st) => {
            &&& out == (Model { break_split: out.break_split, ..m })
            &&& out.break_split matches Some(g) && g == (BreakSplitState { error: g.error, ..st })
            &&& e matches Some(Effect::Footer(o, t, b)) && o == Overlay::BreakSplit && match split_verdict(
                st,
                m.hours,
            ) {
                Err(msg) => if show {
                    out.break_split->0.error matches Some(x) && x@ == msg && t@ == msg && b
                } else {
                    out.break_split->0.error is None && t@.len() == 0 && !b
                },
                Ok(a) => out.break_split->0.error is None && t@ == "assigned "@ + unsigned_text(abs(a) as nat, m.hours)
                    + " / "@ + unsigned_text(abs(st.deduction.0 as int) as nat, m.hours) && !b,
            }
        },
    }
}

/// Why the break-split box would not open on the session of entry `id` of
/// the entries `e`, if it would not.
pub open spec fn split_refusal(e: Seq<Entry>, id: i64, t: Seq<BreakTier>) -> Option<SplitRefusal> {
    if entry_session(e, id).len() == 0 {
        Some(SplitRefusal::Gone)
    } else if session_loss(e, id, t) == 0 {
        Some(SplitRefusal::TooShort)
    } else if entry_session(e, id).len() == 1 {
        Some(SplitRefusal::Single)
    } else {
        None
    }
}

/// The shares stored on the entries of the session of entry `id`, as the
/// box shows them.
pub open spec fn stored_values(e: Seq<Entry>, id: i64) -> Seq<Seq<char>> {
    let g = entry_session(e, id);
    Seq::new(
        g.len(),
        |k: int|
            match e[g[k] as int].break_share {
                Some(m) => int_decimal(m.0 as int),
                None => Seq::empty(),
            },
    )
}

/// The shares about to be saved, as the box reads them back.
pub open spec fn shares_text(s: Seq<(i64, Option<Minutes>)>) -> Seq<Seq<char>> {
    Seq::new(
        s.len(),
        |i: int|
            match s[i].1 {
                Some(m) => int_decimal(m.0 as int),
                None => Seq::empty(),
            },
    )
}

/// Whether `st` is the box opened on the session of entry `id` of the
/// entries `e` on `date`.
pub open spec fn split_state_of(st: BreakSplitState, date: Date, e: Seq<Entry>, id: i64, t: Seq<BreakTier>, f: HoursFormat) -> bool {
    let g = entry_session(e, id);
    &&& st.date == date
    &&& st.session_entry_ids@ == Seq::new(g.len(), |k: int| e[g[k] as int].id)
    &&& st.deduction.0 == session_loss(e, id, t)
    &&& st.grosses@.len() == g.len()
    &&& forall|k: int| 0 <= k < g.len() ==> (#[trigger] st.grosses@[k]).0 == e[g[k] as int].len()
    &&& values_view(st.labels@) == Seq::new(g.len(), |k: int| split_field(e, g, k, t, f).1)
    &&& values_view(st.values@) == Seq::new(g.len(), |k: int| split_field(e, g, k, t, f).2)
    &&& st.error is None
}

/// What opening the break-split box on the session of entry `entry_id` on
/// `date` does: it says why not where it would not open; otherwise it opens
/// on that session's entries, their labels and the shares they carry.
pub open spec fn split_opened(m: Model, date: Date, entry_id: i64, out: Model, fx: Seq<Effect>) -> bool {
                let e = entries_on(m, date);
                let t = m.rules.tiers@;
                let g = entry_session(e, entry_id);
                match split_refusal(e, entry_id, t) {
                    Some(r) => out == m && fx == seq![Effect::Say(Notice::Refused(r))],
                    None => {
                        &&& fx.len() == 2
                        &&& fx[0] matches Effect::OpenSplitBox { title, fields } && title@ == "Break split — "@
                            + iso_date_text(date@) && fields@.len() == g.len() && forall|k: int|
                            0 <= k < g.len() ==> field_view(#[trigger] fields@[k]) == split_field(e, g, k, t, m.hours)
                        &&& exists|st: BreakSplitState|
                            #![trigger split_state_of(st, date, e, entry_id, t, m.hours)]
                            split_state_of(st, date, e, entry_id, t, m.hours) && split_refreshed(
                                Model { break_split: Some(st), ..m },
                                false,
                                out,
                                Some(fx[1]),
                            )
                    },
                }
            }

impl Model {
    fn close_overlay(&mut self)
        ensures
            *final(self) == (Model { confirm: None, help: false, ..*old(self) }),
    {
        self.confirm = None;
        self.help = false;
    }

    /// The entries of `date` as the model last saw them.
    pub fn entries_on(&self, date: Date) -> (r: Vec<Entry>)
        ensures
            r@ == entries_on(*self, date),
    {
        if let Some(d) = &self.day {
            if d.day.date.same(&date) {
                return d.day.entries.clone();
            }
        }
        match &self.month {
            Some(m) => entries_of_day(&m.days, date),
            None => Vec::new(),
        }
    }

    /// The break split of the session of entry `entry_id` on `date`, from
    /// the entries the model holds for that day, or why it is not offered.
    pub fn open_break_split(&self, date: Date, entry_id: i64) -> (r: Result<SplitPlan, SplitRefusal>)
        ensures
            ({
                let e = entries_on(*self, date);
                let t = self.rules.tiers@;
                &&& r == Err::<SplitPlan, SplitRefusal>(SplitRefusal::Gone) <==> entry_session(e, entry_id).len() == 0
                &&& r == Err::<SplitPlan, SplitRefusal>(SplitRefusal::TooShort) <==> entry_session(e, entry_id).len() > 0
                    && session_loss(e, entry_id, t) == 0
                &&& r == Err::<SplitPlan, SplitRefusal>(SplitRefusal::Single) <==> entry_session(e, entry_id).len() == 1
                    && session_loss(e, entry_id, t) != 0
                &&& r is Ok <==> entry_session(e, entry_id).len() >= 2 && session_loss(e, entry_id, t) != 0
                &&& r matches Ok(p) ==> p.deduction.0 == session_loss(e, entry_id, t) && p.fields@.len()
                    == entry_session(e, entry_id).len() && p.grosses@.len() == entry_session(e, entry_id).len()
                &&& r matches Ok(p) ==> boxes_match(p, e, entry_id, t, self.hours)
            }),
    {
        let entries = self.entries_on(date);
        break_split_plan(entries.as_slice(), entry_id, self.rules.tiers.as_slice(), self.hours)
    }

    /// Reload what a write changed.
    fn reload_after_write(&self, fx: &mut Vec<Effect>)
        ensures
            final(fx)@.len() == old(fx)@.len() + reload_len(*self),
            forall|i: int| 0 <= i < old(fx)@.len() ==> final(fx)@[i] == old(fx)@[i],
            reloads_at(final(fx)@, old(fx)@.len() as int, *self),
    {
        fx.push(month_cmd(self.selected));
        if self.screen == Screen::Day {
            fx.push(Effect::Send(StoreCmd::LoadDay(self.selected)));
        }
        if self.screen == Screen::Projects {
            fx.push(Effect::Send(StoreCmd::LoadProjects));
        }
    }

    /// Opens a waiting split box once the entry it is about is in hand.
    fn settle(&mut self, fx: &mut Vec<Effect>)
        ensures
            forall|i: int| 0 <= i < old(fx)@.len() ==> final(fx)@[i] == old(fx)@[i],
            settled(*old(self), final(fx)@, old(fx)@.len() as int, *final(self)),
    {
        if let Some(SplitFollowup::Open { date, entry_id }) = self.split_followup {
            let e = self.entries_on(date);
            if holds(&e, entry_id) {
                self.split_followup = None;
                fx.push(Effect::OpenBreakSplit { date, entry_id });
            }
        }
    }

    /// What a reply of the store does: it is taken in, the screens that a
    /// write changed are asked for again, and a split box waiting for its day
    /// opens once that day is in hand.
    #[verifier::rlimit(40)]
    #[verifier::spinoff_prover]
    pub fn on_store(&mut self, reply: StoreReply) -> (fx: Vec<Effect>)
        ensures
            stored(*old(self), reply, *final(self), fx@),
    {
        let mut fx: Vec<Effect> = Vec::new();
        match reply {
            StoreReply::Month(x) => {
                let ghost gx = x;
                let ghost keep = match old(self).split_followup {
                    Some(SplitFollowup::Open { date, entry_id }) => old(self).selected == date || has_day(
                        x.days@,
                        date,
                    ),
                    _ => true,
                };
                let drop = match self.split_followup {
                    Some(SplitFollowup::Open { date, entry_id: _ }) => !self.selected.same(&date) && !has_day_on(
                        &x.days,
                        date,
                    ),
                    _ => false,
                };
                if drop {
                    self.split_followup = None;
                }
                self.month = Some(x);
                proof {
                    assert(keep == !drop);
                    assert(*self == (Model {
                        month: Some(gx),
                        split_followup: if keep {
                            old(self).split_followup
                        } else {
                            None
                        },
                        ..*old(self)
                    }));
                }
            },
            StoreReply::Day(x) => {
                let len = x.day.entries.len();
                let top: usize = if len > 0 {
                    len - 1
                } else {
                    0
                };
                if self.day_cursor >= top {
                    self.day_cursor = top;
                }
                self.day = Some(x);
            },
            StoreReply::Stats(x) => {
                self.stats = Some(x);
            },
            StoreReply::Changed(text) => {
                let ghost gt = text;
                let ghost hint = old(self).split_followup == Some(SplitFollowup::Hint);
                if !text.as_str().is_empty() {
                    fx.push(Effect::SayText(text, false));
                }
                if self.split_followup == Some(SplitFollowup::Hint) {
                    self.split_followup = None;
                    fx.push(Effect::Say(Notice::SplitHint));
                }
                let ghost said = fx@;
                proof {
                    assert(said =~= (if gt@.len() > 0 {
                        seq![Effect::SayText(gt, false)]
                    } else {
                        Seq::empty()
                    } + if hint {
                        seq![Effect::Say(Notice::SplitHint)]
                    } else {
                        Seq::empty()
                    }));
                }
                let ghost mid = *self;
                self.reload_after_write(&mut fx);
                let ghost pre = fx@;
                self.settle(&mut fx);
                proof {
                    assert(fx@.take(said.len() as int) =~= said);
                    assert(fx@[said.len() as int] == pre[said.len() as int]);
                    if reload_len(mid) == 2 {
                        assert(fx@[said.len() + 1int] == pre[said.len() + 1int]);
                    }
                }
                return fx;
            },
            StoreReply::Booked { entry_id, date, session_projects, deduction, message } => {
                fx.push(Effect::SayText(message, false));
                if session_projects > 1 && deduction.0 > 0 {
                    self.split_followup = Some(SplitFollowup::Open { date, entry_id });
                }
                let ghost mid = *self;
                self.reload_after_write(&mut fx);
                let ghost pre = fx@;
                self.settle(&mut fx);
                proof {
                    assert(fx@[0] == pre[0]);
                    assert(fx@[1] == pre[1]);
                    if reload_len(mid) == 2 {
                        assert(fx@[2] == pre[2]);
                    }
                }
                return fx;
            },
            StoreReply::Failed(e) => {
                fx.push(Effect::SayText(e, true));
                let ghost pre = fx@;
                self.settle(&mut fx);
                proof {
                    assert(fx@[0] == pre[0]);
                }
                return fx;
            },
            StoreReply::Projects(x) => {
                let len = x.projects.len();
                let top: usize = if len > 0 {
                    len - 1
                } else {
                    0
                };
                if self.projects_cursor >= top {
                    self.projects_cursor = top;
                }
                self.projects = Some(x);
            },
        }
        self.settle(&mut fx);
        fx
    }

    /// Whether the first day of the month on show dated `d` has entries.
    fn month_has_entries(&self, d: Date) -> (r: bool)
        ensures
            r == has_entries_on(month_days(*self), d),
    {
        match &self.month {
            Some(m) => entries_of_day(&m.days, d).len() > 0,
            None => false,
        }
    }

    /// The key hints of the screen on show.
    pub fn key_hints(&self) -> (r: Vec<(&'static str, &'static str)>)
        ensures
            pairs_view(r@) == hints_of(self.screen),
    {
        let mut r: Vec<(&'static str, &'static str)> = Vec::new();
        match self.screen {
            Screen::Month => {
                r.push(("↑↓", "day"));
                r.push(("[ ]", "month"));
                r.push(("⏎", "edit"));
                r.push(("i/o", "clock"));
                r.push(("s", "stats"));
                r.push(("c", "settings"));
                r.push(("v f x p", "day type"));
                r.push(("?", "help"));
                r.push(("q", "quit"));
            },
            Screen::Day => {
                r.push(("↑↓", "entry"));
                r.push(("a", "add"));
                r.push(("e", "edit"));
                r.push(("d", "delete"));
                r.push(("b", "break"));
                r.push(("←→", "day type"));
                r.push(("u", "units"));
                r.push(("Esc", "back"));
            },
            Screen::Stats => {
                r.push(("1-4", "range"));
                r.push(("[ ]", "shift"));
                r.push(("t", "today"));
                r.push(("r", "running"));
                r.push(("u", "units"));
                r.push(("Esc", "back"));
            },
            Screen::Projects => {
                r.push(("↑↓", "project"));
                r.push(("a", "archive"));
                r.push(("r", "rename"));
                r.push(("n", "new"));
                r.push(("u", "units"));
                r.push(("?", "help"));
                r.push(("Esc", "back"));
            },
        }
        proof {
            assert(pairs_view(r@) =~= hints_of(self.screen));
        }
        r
    }

    /// The keys the help overlay lists for the screen on show.
    pub fn help_keys(&self) -> (r: Vec<(&'static str, &'static str)>)
        ensures
            pairs_view(r@) == help_of(self.screen),
    {
        let mut r: Vec<(&'static str, &'static str)> = Vec::new();
        match self.screen {
            Screen::Month => {
                r.push(("↑ ↓ j k", "move by day"));
                r.push(("[ ]", "previous / next month"));
                r.push(("t", "jump to today"));
                r.push(("Enter", "open day editor"));
                r.push(("s", "statistics"));
                r.push(("c", "settings"));
                r.push(("P", "projects: archive, rename, add"));
                r.push(("i", "clock in / switch project / resume"));
                r.push(("o", "clock out"));
                r.push(("b", "take a break (books work so far)"));
                r.push(("v", "vacation"));
                r.push(("f", "flex day"));
                r.push(("x", "sick"));
                r.push(("p", "public holiday"));
                r.push(("w", "reset to work day"));
                r.push(("V", "start / clear a range for the day-type keys"));
                r.push(("u", "toggle h:mm / decimal hours"));
                r.push(("B", "back up the database"));
                r.push(("q", "quit"));
            },
            Screen::Day => {
                r.push(("↑ ↓", "select entry"));
                r.push(("a", "add entry"));
                r.push(("e", "edit entry"));
                r.push(("d", "delete entry"));
                r.push(("b", "split this session's break"));
                r.push(("← →", "change day type"));
                r.push(("u", "toggle h:mm / decimal hours"));
                r.push(("Esc", "back"));
            },
            Screen::Stats => {
                r.push(("1", "week (Monday … Sunday)"));
                r.push(("2", "calendar month"));
                r.push(("3", "calendar quarter"));
                r.push(("4", "calendar year"));
                r.push(("[ ]", "previous / next period"));
                r.push(("PgUp PgDn", "previous / next period"));
                r.push(("t", "back to today"));
                r.push(("r", "toggle per-period / running balance"));
                r.push(("u", "toggle h:mm / decimal hours"));
                r.push(("Esc", "back"));
            },
            Screen::Projects => {
                r.push(("↑ ↓ j k", "select project"));
                r.push(("a", "archive / unarchive"));
                r.push(("r", "rename"));
                r.push(("n", "new project"));
                r.push(("u", "toggle h:mm / decimal hours"));
                r.push(("Esc", "back"));
            },
        }
        proof {
            assert(pairs_view(r@) =~= help_of(self.screen));
        }
        r
    }

    /// The hints that fit into `width` columns: under the month screen, the
    /// set without the day-type keys where the full one is wider.
    pub fn key_hints_for(&self, width: u16) -> (r: Vec<(&'static str, &'static str)>)
        ensures
            pairs_view(r@) == if self.screen == Screen::Month && width < 92 {
                narrow_month_hints()
            } else {
                hints_of(self.screen)
            },
    {
        let full = self.key_hints();
        if self.screen != Screen::Month {
            return full;
        }
        proof {
            reveal_strlit("?");
            reveal_strlit("[ ]");
            reveal_strlit("c");
            reveal_strlit("clock");
            reveal_strlit("day");
            reveal_strlit("day type");
            reveal_strlit("edit");
            reveal_strlit("help");
            reveal_strlit("i/o");
            reveal_strlit("month");
            reveal_strlit("q");
            reveal_strlit("quit");
            reveal_strlit("s");
            reveal_strlit("settings");
            reveal_strlit("stats");
            reveal_strlit("v f x p");
            reveal_strlit("↑↓");
            reveal_strlit("⏎");
            reveal_with_fuel(crate::ui::pairs_width, 10);
            assert(pairs_view(full@) == hints_of(Screen::Month));
            assert(hints_of(Screen::Month).len() == 9);
            assert(pairs_view(full@).len() == full@.len());
            assert(full@.len() == 9);
            assert(pairs_view(full@)[0] == ("↑↓"@, "day"@));
            assert(pairs_view(full@)[1] == ("[ ]"@, "month"@));
            assert(pairs_view(full@)[2] == ("⏎"@, "edit"@));
            assert(pairs_view(full@)[3] == ("i/o"@, "clock"@));
            assert(pairs_view(full@)[4] == ("s"@, "stats"@));
            assert(pairs_view(full@)[5] == ("c"@, "settings"@));
            assert(pairs_view(full@)[6] == ("v f x p"@, "day type"@));
            assert(pairs_view(full@)[7] == ("?"@, "help"@));
            assert(pairs_view(full@)[8] == ("q"@, "quit"@));
            assert(crate::ui::hints_text_width(full@) == 92);
        }
        if crate::ui::hints_width(full.as_slice()) <= width {
            full
        } else {
            let mut r: Vec<(&'static str, &'static str)> = Vec::new();
            r.push(("↑↓", "day"));
            r.push(("[ ]", "month"));
            r.push(("⏎", "edit"));
            r.push(("i/o", "clock"));
            r.push(("s", "stats"));
            r.push(("c", "settings"));
            r.push(("?", "help"));
            r.push(("q", "quit"));
            proof {
                assert(pairs_view(r@) =~= narrow_month_hints());
            }
            r
        }
    }

    /// The question the open confirmation asks.
    pub fn confirm_text(&self, c: &Confirm) -> (r: String)
        ensures
            r@ == confirm_question(*c),
    {
        match c {
            Confirm::DeleteEntry(_) => String::from_str("Delete this entry?"),
            Confirm::SetKind(d, k) => {
                let mut s = String::from_str("Set ");
                let dt = d.to_text();
                push_str(&mut s, dt.as_str());
                push_str(&mut s, " to ");
                let name = k.display_name();
                let low = lowercase(name.as_str());
                push_str(&mut s, low.as_str());
                push_char(&mut s, '?');
                proof {
                    reveal_strlit("Set ");
                    reveal_strlit(" to ");
                    reveal_strlit("?");
                    assert(s@ =~= confirm_question(*c));
                }
                s
            },
            Confirm::SetKindRange { from, to, kind } => {
                let n = count_weekdays(*from, *to);
                let mut s = String::from_str("Set ");
                push_decimal(&mut s, n);
                push_str(&mut s, " weekdays, ");
                let a = from.to_text();
                push_str(&mut s, a.as_str());
                push_str(&mut s, " to ");
                let b = to.to_text();
                push_str(&mut s, b.as_str());
                push_str(&mut s, ", to ");
                let name = kind.display_name();
                let low = lowercase(name.as_str());
                push_str(&mut s, low.as_str());
                push_char(&mut s, '?');
                proof {
                    reveal_strlit("Set ");
                    reveal_strlit(" weekdays, ");
                    reveal_strlit(" to ");
                    reveal_strlit(", to ");
                    reveal_strlit("?");
                    assert(s@ =~= confirm_question(*c));
                }
                s
            },
        }
    }

    /// What the title bar shows: the month on show in capitals and its year,
    /// the balance through today, the running session and the vacation used.
    pub fn title_info(&self) -> (r: TitleInfo)
        ensures
            r.title@ == ascii_upper(month_text(self.selected@.1)) + " "@ + int_decimal(self.selected@.0),
            r.balance == match self.month {
                Some(m) => m.balance_total,
                None => Minutes(0),
            },
            r.vacation == match self.month {
                Some(m) => Some((m.vacation_used_this_year, self.vacation_allowance)),
                None => None,
            },
            match month_session(*self) {
                None => r.clock is None,
                Some(s) => r.clock matches Some(c) && c.project@ == match s.project {
                    Some(p) => p@,
                    None => Seq::empty(),
                } && c.since@ == clock_text(s.start) && c.running.0 == elapsed(
                    DateTime { date: s.date, time: s.start },
                    DateTime { date: self.today, time: self.now },
                ) && c.on_break == (s.state is Break),
            },
    {
        let mut title = upper(month_name(self.selected.month()));
        push_char(&mut title, ' ');
        push_i32(&mut title, self.selected.year());
        proof {
            reveal_strlit(" ");
            assert(title@ =~= ascii_upper(month_text(self.selected@.1)) + " "@ + int_decimal(self.selected@.0));
        }
        match &self.month {
            Some(m) => {
                let clock = match &m.session {
                    Some(s) => {
                        let project = match &s.project {
                            Some(p) => p.clone(),
                            None => String::new(),
                        };
                        let running = running_minutes(DateTime::new(s.date, s.start), DateTime::new(self.today, self.now));
                        Some(ClockInfo { project, since: clock_string(s.start), running, on_break: s.state.is_break() })
                    },
                    None => None,
                };
                TitleInfo {
                    title,
                    balance: m.balance_total,
                    clock,
                    vacation: Some((m.vacation_used_this_year, self.vacation_allowance)),
                }
            },
            None => TitleInfo { title, balance: Minutes(0), clock: None, vacation: None },
        }
    }

    /// Checks the open entry form again and gives its footer line.
    fn refresh_form(&mut self, show_error: bool) -> (e: Option<Effect>)
        requires
            old(self).form matches Some(f) ==> form_fits(form_entries(*old(self)), f.data.id, old(self).rules.tiers@),
        ensures
            form_refreshed(*old(self), show_error, *final(self), e),
    {
        let ghost m = *self;
        let res = match &self.form {
            None => {
                return None;
            },
            Some(form) => {
                let empty: Vec<Entry> = Vec::new();
                let entries: &Vec<Entry> = match &self.day {
                    Some(d) => &d.day.entries,
                    None => &empty,
                };
                validate_form(&form.data, entries.as_slice(), &self.rules)
            },
        };
        let (error, preview): (Option<String>, Option<(Minutes, Minutes, Minutes)>) = match res {
            Ok((_, _, g, d, n)) => (None, Some((g, d, n))),
            Err(e) => (Some(e), None),
        };
        let error = if show_error {
            error
        } else {
            None
        };
        let (text, is_error): (String, bool) = match &error {
            Some(e) => (e.clone(), true),
            None => match preview {
                Some((g, d, n)) => {
                    let mut t = String::from_str("gross +");
                    push_str(&mut t, g.fmt_unsigned(self.hours).as_str());
                    push_str(&mut t, " · break -");
                    push_str(&mut t, d.fmt_unsigned(self.hours).as_str());
                    push_str(&mut t, " · net +");
                    push_str(&mut t, n.fmt_unsigned(self.hours).as_str());
                    proof {
                        reveal_strlit("gross +");
                        reveal_strlit(" · break -");
                        reveal_strlit(" · net +");
                    }
                    (t, false)
                },
                None => (String::new(), false),
            },
        };
        let data = match self.form.take() {
            Some(f) => f.data,
            None => FormData {
                id: None,
                start: String::new(),
                end: String::new(),
                project: String::new(),
                comment: String::new(),
            },
        };
        self.form = Some(FormState { data, error, preview });
        Some(Effect::Footer(Overlay::Form, text, is_error))
    }

    /// Opens the entry form on `data` and gives what that shows.
    fn open_form(&mut self, data: FormData) -> (fx: Vec<Effect>)
        requires
            form_fits(form_entries(*old(self)), data.id, old(self).rules.tiers@),
        ensures
            fx@.len() == 2,
            fx@[0] == Effect::OpenForm(data),
            form_refreshed(
                Model { form: Some(FormState { data, error: None, preview: None }), ..*old(self) },
                false,
                *final(self),
                Some(fx@[1]),
            ),
    {
        let mut fx: Vec<Effect> = Vec::new();
        let d2 = data.clone();
        fx.push(Effect::OpenForm(d2));
        self.form = Some(FormState { data, error: None, preview: None });
        let e = self.refresh_form(false);
        if let Some(e) = e {
            fx.push(e);
        }
        fx
    }

    /// What submitting the entry form with fields `d` does.
    #[verifier::rlimit(40)]
    fn submit_form(&mut self, d: FormData) -> (fx: Vec<Effect>)
        requires
            form_fits(form_entries(*old(self)), d.id, old(self).rules.tiers@),
        ensures
            match old(self).day {
                None => *final(self) == *old(self) && fx@.len() == 0,
                Some(x) => if x.day.kind@.0 != 0 {
                    &&& *final(self) == *old(self)
                    &&& fx@.len() == 1
                    &&& fx@[0] matches Effect::SayText(t, true) && t@ == kind_display(x.day.kind@)
                        + " day: change the day type to work first"@
                } else {
                    form_submitted(*old(self), d, *final(self), fx@)
                },
            },
    {
        let mut fx: Vec<Effect> = Vec::new();
        let (date, blocked): (Date, Option<String>) = match &self.day {
            None => {
                return fx;
            },
            Some(x) => (
                x.day.date,
                if !x.day.kind.allows_entries() {
                    let mut t = x.day.kind.display_name();
                    push_str(&mut t, " day: change the day type to work first");
                    Some(t)
                } else {
                    None
                },
            ),
        };
        if let Some(t) = blocked {
            fx.push(Effect::SayText(t, true));
            return fx;
        }
        let res = match &self.day {
            Some(x) => validate_form(&d, x.day.entries.as_slice(), &self.rules),
            None => {
                return fx;
            },
        };
        match res {
            Err(_) => {
                if let Some(form) = &mut self.form {
                    form.data = d;
                    if let Some(e) = self.refresh_form(true) {
                        fx.push(e);
                    }
                }
            },
            Ok((start, end, _, _, _)) => {
                let project = trimmed(d.project.as_str());
                let comment = trimmed(d.comment.as_str());
                let this = Entry {
                    id: match d.id {
                        Some(i) => i,
                        None => i64::MIN,
                    },
                    date,
                    start,
                    end,
                    project: project.clone(),
                    comment: comment.clone(),
                    break_share: None,
                };
                let this_id = this.id;
                let saved = match &self.day {
                    Some(x) => keep_others_then(&x.day.entries, d.id, this),
                    None => Vec::new(),
                };
                let worth = split_is_worth_offering(saved.as_slice(), this_id, self.rules.tiers.as_slice());
                self.split_followup = if worth {
                    Some(SplitFollowup::Hint)
                } else {
                    None
                };
                match d.id {
                    None => fx.push(Effect::Send(StoreCmd::AddEntry { date, start, end, project, comment })),
                    Some(id) => fx.push(Effect::Send(StoreCmd::UpdateEntry { id, start, end, project, comment })),
                }
                self.form = None;
            },
        }
        fx
    }

    /// Checks the open settings overlay again and gives its footer line.
    fn refresh_settings(&mut self, show_error: bool) -> (e: Option<Effect>)
        ensures
            settings_refreshed(*old(self), show_error, *final(self), e),
    {
        let res = match &self.settings {
            None => {
                return None;
            },
            Some(st) => validate_settings(&st.data, self.today),
        };
        let (error, preview): (Option<String>, Option<String>) = match res {
            Ok(p) => (None, Some(settings_footer(&p, self.hours))),
            Err(e) => (Some(e), None),
        };
        let error = if show_error {
            error
        } else {
            None
        };
        let (text, is_error): (String, bool) = match &error {
            Some(e) => (e.clone(), true),
            None => match preview {
                Some(p) => (p, false),
                None => (String::new(), false),
            },
        };
        let data = match self.settings.take() {
            Some(st) => st.data,
            None => SettingsData {
                start: String::new(),
                balance: String::new(),
                target: String::new(),
                vacation: String::new(),
            },
        };
        self.settings = Some(SettingsState { data, error });
        Some(Effect::Footer(Overlay::Settings, text, is_error))
    }

    /// Opens the settings overlay on the rules in force.
    fn open_settings(&mut self) -> (fx: Vec<Effect>)
        ensures
            fx@.len() == 2,
            fx@[0] matches Effect::OpenSettings(d) && settings_fields_of(*old(self), d) && settings_refreshed(
                Model { settings: Some(SettingsState { data: d, error: None }), ..*old(self) },
                false,
                *final(self),
                Some(fx@[1]),
            ),
    {
        let data = SettingsData {
            start: self.rules.start_date.to_text(),
            balance: self.rules.initial_balance.to_string(),
            target: self.rules.daily_target.hhmm(),
            vacation: decimal_string(self.vacation_allowance as u64),
        };
        let mut fx: Vec<Effect> = Vec::new();
        fx.push(Effect::OpenSettings(data.clone()));
        self.settings = Some(SettingsState { data, error: None });
        if let Some(e) = self.refresh_settings(false) {
            fx.push(e);
        }
        fx
    }

    /// Checks the open break-split box again and gives its footer line.
    fn refresh_break_split(&mut self, show_error: bool) -> (e: Option<Effect>)
        requires
            old(self).break_split matches Some(st) ==> split_fits(values_view(st.values@), gross_ints(st.grosses@)),
        ensures
            split_refreshed(*old(self), show_error, *final(self), e),
    {
        let ghost m = *self;
        let res = match &self.break_split {
            None => {
                return None;
            },
            Some(st) => {
                let r = validate_break_split(
                    st.values.as_slice(),
                    st.labels.as_slice(),
                    st.grosses.as_slice(),
                    st.deduction,
                    self.hours,
                );
                match r {
                    Ok(shares) => {
                        proof {
                            assert(shares@.len() == shares_view(shares@).len());
                            lemma_problem_capped(st.values@, st.labels@, st.grosses@, st.values@.len() as int);
                            assert forall|n: int| 0 <= n <= shares@.len() implies i32::MIN <= #[trigger] assigned_total(
                                shares@.take(n),
                            ) <= i32::MAX by {
                                lemma_shares_total(shares@, st.values@, st.labels@, st.grosses@, n);
                                lemma_assigned_view(st.values@, n);
                                lemma_assigned_nonneg(values_view(st.values@), n);
                                lemma_assigned_mono(values_view(st.values@), n, st.values@.len() as int);
                            }
                            assert(shares@.take(shares@.len() as int) =~= shares@);
                            lemma_shares_total(shares@, st.values@, st.labels@, st.grosses@, st.values@.len() as int);
                        }
                        Ok(break_split_footer(shares.as_slice(), st.deduction, self.hours))
                    },
                    Err(e) => Err(e),
                }
            },
        };
        let (text, is_error, error): (String, bool, Option<String>) = match res {
            Ok(t) => (t, false, None),
            Err(e) => if show_error {
                (e.clone(), true, Some(e))
            } else {
                (String::new(), false, None)
            },
        };
        if let Some(st) = &mut self.break_split {
            st.error = error;
        }
        Some(Effect::Footer(Overlay::BreakSplit, text, is_error))
    }

    /// Opens the break-split box on the session of entry `entry_id` on
    /// `date`, or says why it does not open.
    fn open_split(&mut self, date: Date, entry_id: i64) -> (fx: Vec<Effect>)
        requires
            split_fits(
                stored_values(entries_on(*old(self), date), entry_id),
                session_grosses(entries_on(*old(self), date), entry_id),
            ),
        ensures
            split_opened(*old(self), date, entry_id, *final(self), fx@),
    {
        let ghost e = entries_on(*self, date);
        let ghost t = self.rules.tiers@;
        let mut fx: Vec<Effect> = Vec::new();
        match self.open_break_split(date, entry_id) {
            Err(r) => {
                fx.push(Effect::Say(Notice::Refused(r)));
            },
            Ok(p) => {
                let ghost g = entry_session(e, entry_id);
                let mut ids: Vec<i64> = Vec::new();
                let mut labels: Vec<String> = Vec::new();
                let mut values: Vec<String> = Vec::new();
                let mut k: usize = 0;
                while k < p.fields.len()
                    invariant
                        k <= p.fields@.len() == g.len(),
                        boxes_match(p, e, entry_id, t, self.hours),
                        g == entry_session(e, entry_id),
                        ids@ == Seq::new(k as nat, |j: int| e[g[j] as int].id),
                        values_view(labels@) == Seq::new(k as nat, |j: int| split_field(e, g, j, t, self.hours).1),
                        values_view(values@) == Seq::new(k as nat, |j: int| split_field(e, g, j, t, self.hours).2),
                    decreases p.fields.len() - k,
                {
                    let f = &p.fields[k];
                    proof {
                        assert(field_view(p.fields@[k as int]) == split_field(e, g, k as int, t, self.hours));
                    }
                    ids.push(f.entry_id);
                    let ghost lv = labels@;
                    let ghost vv = values@;
                    let l = f.label.clone();
                    let v = f.value.clone();
                    labels.push(l);
                    values.push(v);
                    proof {
                        assert(labels@ == lv.push(p.fields@[k as int].label));
                        assert(values@ == vv.push(p.fields@[k as int].value));
                        assert(p.fields@[k as int].label@ == split_field(e, g, k as int, t, self.hours).1);
                        assert(p.fields@[k as int].value@ == split_field(e, g, k as int, t, self.hours).2);
                        assert(values_view(labels@) =~= values_view(lv).push(p.fields@[k as int].label@));
                        assert(values_view(values@) =~= values_view(vv).push(p.fields@[k as int].value@));
                        assert(ids@ =~= Seq::new((k + 1) as nat, |j: int| e[g[j] as int].id));
                        assert(values_view(labels@) =~= Seq::new(
                            (k + 1) as nat,
                            |j: int| split_field(e, g, j, t, self.hours).1,
                        ));
                        assert(values_view(values@) =~= Seq::new(
                            (k + 1) as nat,
                            |j: int| split_field(e, g, j, t, self.hours).2,
                        ));
                    }
                    k += 1;
                }
                let mut title = String::from_str("Break split — ");
                let dt = date.to_text();
                push_str(&mut title, dt.as_str());
                proof {
                    reveal_strlit("Break split — ");
                }
                let st = BreakSplitState {
                    date,
                    session_entry_ids: ids,
                    deduction: p.deduction,
                    grosses: p.grosses,
                    labels,
                    values,
                    error: None,
                };
                let ghost gst = st;
                proof {
                    assert forall|j: int| 0 <= j < g.len() implies (#[trigger] gst.grosses@[j]).0 == e[g[j] as int].len() by {
                        assert(field_view(p.fields@[j]) == split_field(e, g, j, t, self.hours));
                    }
                    assert(values_view(st.values@) =~= stored_values(e, entry_id));
                    assert(split_state_of(gst, date, e, entry_id, t, self.hours));
                    assert(gross_ints(gst.grosses@) =~= session_grosses(e, entry_id));
                }
                fx.push(Effect::OpenSplitBox { title, fields: p.fields });
                self.break_split = Some(st);
                if let Some(f) = self.refresh_break_split(false) {
                    fx.push(f);
                }
            },
        }
        fx
    }

    /// What saving the shares `v` of the open break-split box does: they are
    /// read back into its fields and checked; the box stays open with the
    /// error where they do not check out, and they are written otherwise.
    fn submit_split(&mut self, v: Vec<(i64, Option<Minutes>)>) -> (fx: Vec<Effect>)
        requires
            old(self).break_split matches Some(st) ==> split_fits(shares_text(v@), gross_ints(st.grosses@)),
        ensures
            match old(self).break_split {
                None => *final(self) == *old(self) && fx@.len() == 0,
                Some(st) => exists|st1: BreakSplitState|
                    #![trigger split_verdict(st1, old(self).hours)]
                    st1 == (BreakSplitState { values: st1.values, ..st }) && values_view(st1.values@) == shares_text(v@)
                        && match split_verdict(st1, old(self).hours) {
                        Err(_) => fx@.len() == 1 && split_refreshed(
                            Model { break_split: Some(st1), ..*old(self) },
                            true,
                            *final(self),
                            Some(fx@[0]),
                        ),
                        Ok(_) => *final(self) == (Model { break_split: None, ..*old(self) }) && fx@ == seq![
                            Effect::Send(StoreCmd::SetBreakShares(v)),
                        ],
                    },
            },
    {
        let mut fx: Vec<Effect> = Vec::new();
        if self.break_split.is_none() {
            return fx;
        }
        let mut texts: Vec<String> = Vec::new();
        let mut i: usize = 0;
        while i < v.len()
            invariant
                i <= v@.len(),
                values_view(texts@) == shares_text(v@).take(i as int),
            decreases v.len() - i,
        {
            let mut t = String::new();
            if let Some(m) = v[i].1 {
                push_int(&mut t, m.0);
            }
            let ghost tv = texts@;
            proof {
                assert(t@ == shares_text(v@)[i as int]);
            }
            texts.push(t);
            proof {
                assert(values_view(texts@) =~= values_view(tv).push(shares_text(v@)[i as int]));
                assert(values_view(texts@) =~= shares_text(v@).take(i + 1));
            }
            i += 1;
        }
        proof {
            assert(shares_text(v@).take(v@.len() as int) =~= shares_text(v@));
        }
        let ok = match &mut self.break_split {
            Some(st) => {
                st.values = texts;
                validate_break_split(
                    st.values.as_slice(),
                    st.labels.as_slice(),
                    st.grosses.as_slice(),
                    st.deduction,
                    self.hours,
                ).is_ok()
            },
            None => false,
        };
        let ghost st1 = self.break_split->0;
        if ok {
            fx.push(Effect::Send(StoreCmd::SetBreakShares(v)));
            self.break_split = None;
        } else {
            if let Some(e) = self.refresh_break_split(true) {
                fx.push(e);
            }
        }
        proof {
            let _ = split_verdict(st1, old(self).hours);
        }
        fx
    }

    /// The projects the clock-in picker offers: the last used one first, so
    /// it is what Enter takes, and, when switching, without `current`.
    pub fn picker_projects(&self, current: Option<&str>) -> (r: Vec<String>)
        ensures
            strings_view(r@) == picker_list(
                month_names(*self),
                month_last_used(*self),
                match current {
                    Some(c) => Some(c@),
                    None => None,
                },
            ),
    {
        let cur: Option<String> = match current {
            Some(c) => Some(String::from_str(c)),
            None => None,
        };
        match &self.month {
            Some(m) => {
                let names = names_of(&m.projects);
                offer_names(&names, &m.last_used_project, &cur)
            },
            None => {
                let names: Vec<String> = Vec::new();
                let r = offer_names(&names, &None, &cur);
                proof {
                    assert(strings_view(names@) =~= Seq::<Seq<char>>::empty());
                }
                r
            },
        }
    }

    /// The projects the resume picker offers: `remembered` first, so Enter
    /// comes back to it, and every other known project after it.
    pub fn resume_projects(&self, remembered: Option<&str>) -> (r: Vec<String>)
        ensures
            strings_view(r@) == resume_list(
                month_names(*self),
                month_last_used(*self),
                match remembered {
                    Some(c) => Some(c@),
                    None => None,
                },
            ),
    {
        let rem: Option<String> = match remembered {
            Some(c) => Some(String::from_str(c)),
            None => None,
        };
        match &self.month {
            Some(m) => {
                let names = names_of(&m.projects);
                resume_names(&names, &m.last_used_project, &rem)
            },
            None => {
                let names: Vec<String> = Vec::new();
                let r = resume_names(&names, &None, &rem);
                proof {
                    assert(strings_view(names@) =~= Seq::<Seq<char>>::empty());
                }
                r
            },
        }
    }

    /// What the project picker is for and how it opens, for the session on
    /// the clock.
    fn picker_effect(&self) -> (r: (ClockAction, Effect))
        ensures
            ({
                let a = action_for(month_session(*self));
                let cur = match month_session(*self) {
                    Some(x) => opt_view(x.project),
                    None => None,
                };
                &&& r.0 == a
                &&& r.1 matches Effect::OpenClockPicker { title, projects } && title@ == picker_title(a, cur)
                    && strings_view(projects@) == if a == ClockAction::Resume {
                    resume_list(month_names(*self), month_last_used(*self), cur)
                } else {
                    picker_list(month_names(*self), month_last_used(*self), cur)
                }
            }),
    {
        match &self.month {
            Some(m) => {
                let (a, cur): (ClockAction, Option<String>) = match &m.session {
                    Some(x) => (
                        if x.state.is_break() {
                            ClockAction::Resume
                        } else {
                            ClockAction::Switch
                        },
                        x.project.clone(),
                    ),
                    None => (ClockAction::In, None),
                };
                let title = clock_title(a, &cur);
                let names = names_of(&m.projects);
                let projects = if a == ClockAction::Resume {
                    resume_names(&names, &m.last_used_project, &cur)
                } else {
                    offer_names(&names, &m.last_used_project, &cur)
                };
                (a, Effect::OpenClockPicker { title, projects })
            },
            None => {
                let names: Vec<String> = Vec::new();
                let title = clock_title(ClockAction::In, &None);
                let projects = offer_names(&names, &None, &None);
                proof {
                    assert(project_names(Seq::<Project>::empty()) =~= strings_view(names@));
                }
                (ClockAction::In, Effect::OpenClockPicker { title, projects })
            },
        }
    }

    /// What `msg` does to the screens, given what the store has sent: the new
    /// state, and what to ask of the store or say, in order.
    #[verifier::rlimit(60)]
    #[verifier::spinoff_prover]
    pub fn update(&mut self, msg: Msg) -> (fx: Vec<Effect>)
        requires
            msg matches Msg::SelectMonth(n) ==> months_later_exists(old(self).selected@, n as int),
            msg is OpenStats || msg is StatsToday ==> period_exists(old(self).stats_range, old(self).today),
            msg matches Msg::StatsRange(r) ==> period_exists(r, old(self).stats_anchor),
            msg matches Msg::StatsShift(n) ==> shift_exists(old(self).stats_range, old(self).stats_anchor, n as int)
                && forall|a: Date|
                #[trigger] shifts_to(old(self).stats_range, old(self).stats_anchor, n as int, a) ==> period_exists(
                    old(self).stats_range,
                    a,
                ),
            msg matches Msg::DaySelect(n) ==> i32::MIN <= old(self).day_cursor + n <= i32::MAX,
            msg is DaySelect ==> (old(self).day matches Some(d) ==> d.day.entries@.len() <= i32::MAX),
            msg matches Msg::ProjectsSelect(n) ==> i32::MIN <= old(self).projects_cursor + n <= i32::MAX,
            msg is ProjectsSelect ==> project_list(*old(self)).len() <= i32::MAX,
            msg is DayAdd ==> form_fits(form_entries(*old(self)), None, old(self).rules.tiers@),
            msg is DayEdit ==> match old(self).day {
                Some(d) => old(self).day_cursor < d.day.entries@.len() ==> form_fits(
                    d.day.entries@,
                    Some(d.day.entries@[old(self).day_cursor as int].id),
                    old(self).rules.tiers@,
                ),
                None => true,
            },
            msg matches Msg::FormChanged(d) ==> (old(self).form is Some ==> form_fits(
                form_entries(*old(self)),
                d.id,
                old(self).rules.tiers@,
            )),
            msg matches Msg::FormSubmit(d) ==> form_fits(form_entries(*old(self)), d.id, old(self).rules.tiers@),
            msg matches Msg::OpenBreakSplit { date, entry_id } ==> split_fits(
                stored_values(entries_on(*old(self), date), entry_id),
                session_grosses(entries_on(*old(self), date), entry_id),
            ),
            msg matches Msg::BreakSplitChanged(v) ==> (old(self).break_split matches Some(st) ==> split_fits(
                values_view(v@),
                gross_ints(st.grosses@),
            )),
            msg matches Msg::BreakSplitSubmit(v) ==> (old(self).break_split matches Some(st) ==> split_fits(
                shares_text(v@),
                gross_ints(st.grosses@),
            )),
        ensures
            msg is Quit ==> *final(self) == (Model { quit: true, ..*old(self) }) && fx@.len() == 0,
            msg matches Msg::SelectDay(n) ==> if crate::date::in_range(old(self).selected.num() + n) {
                &&& final(self).selected.num() == old(self).selected.num() + n
                &&& *final(self) == (Model { selected: final(self).selected, ..*old(self) })
                &&& if final(self).selected@.0 == old(self).selected@.0 && final(self).selected@.1
                    == old(self).selected@.1 {
                    fx@.len() == 0
                } else {
                    fx@.len() == 1 && loads_month(fx@[0], final(self).selected)
                }
            } else {
                *final(self) == *old(self) && fx@.len() == 0
            },
            msg matches Msg::SelectMonth(n) ==> {
                &&& final(self).selected@ == months_later(old(self).selected@, n as int)
                &&& *final(self) == (Model { selected: final(self).selected, ..*old(self) })
                &&& fx@.len() == 1 && loads_month(fx@[0], final(self).selected)
            },
            msg is GoToday ==> *final(self) == (Model { selected: old(self).today, ..*old(self) }) && fx@.len()
                == 1 && loads_month(fx@[0], old(self).today),
            msg is Back ==> if old(self).help || old(self).confirm is Some {
                *final(self) == (Model { confirm: None, help: false, ..*old(self) }) && fx@.len() == 0
            } else if old(self).screen == Screen::Month && old(self).anchor is Some {
                *final(self) == (Model { anchor: None, ..*old(self) }) && fx@ == seq![
                    Effect::Say(Notice::RangeCleared),
                ]
            } else {
                &&& *final(self) == (Model { screen: Screen::Month, ..*old(self) })
                &&& if old(self).screen == Screen::Day || old(self).screen == Screen::Projects {
                    fx@.len() == 1 && loads_month(fx@[0], old(self).selected)
                } else {
                    fx@.len() == 0
                }
            },
            msg is OpenClockPicker ==> {
                let a = action_for(month_session(*old(self)));
                let cur = match month_session(*old(self)) {
                    Some(x) => opt_view(x.project),
                    None => None,
                };
                &&& *final(self) == (Model { clock_picker: Some(ClockPickerState { action: a }), ..*old(self) })
                &&& fx@.len() == 1
                &&& fx@[0] matches Effect::OpenClockPicker { title, projects } && title@ == picker_title(a, cur)
                    && strings_view(projects@) == if a == ClockAction::Resume {
                    resume_list(month_names(*old(self)), month_last_used(*old(self)), cur)
                } else {
                    picker_list(month_names(*old(self)), month_last_used(*old(self)), cur)
                }
            },
            msg matches Msg::ClockPickerSubmit(name) ==> match old(self).clock_picker {
                None => *final(self) == *old(self) && fx@.len() == 0,
                Some(ClockPickerState { action: a }) => {
                    &&& *final(self) == (Model { clock_picker: None, ..*old(self) })
                    &&& if trim(name@).len() == 0 {
                        fx@ == seq![Effect::Say(Notice::PickProjectFirst)]
                    } else {
                        &&& fx@.len() == 1
                        &&& match a {
                            ClockAction::Switch => fx@[0] matches Effect::Send(StoreCmd::Switch { project })
                                && project@ == trim(name@),
                            ClockAction::Resume => fx@[0] matches Effect::Send(StoreCmd::Resume { project })
                                && project matches Some(p) && p@ == trim(name@),
                            ClockAction::In => fx@[0] matches Effect::Send(StoreCmd::ClockIn(d, t, p)) && d
                                == old(self).today && t@ == (old(self).now@.0, old(self).now@.1, 0int)
                                && p@ == trim(name@),
                        }
                    }
                },
            },
            msg is ClockPickerCancel ==> *final(self) == (Model { clock_picker: None, ..*old(self) })
                && fx@.len() == 0,
            msg is ClockOut ==> *final(self) == *old(self) && fx@ == if month_session(*old(self)) is None {
                seq![Effect::Say(Notice::NotClockedIn)]
            } else {
                seq![Effect::Send(StoreCmd::ClockOut)]
            },
            msg is TakeBreak ==> *final(self) == *old(self) && fx@ == match month_session(*old(self)) {
                None => seq![Effect::Say(Notice::NotClockedIn)],
                Some(x) => if x.state is Break {
                    seq![Effect::Say(Notice::AlreadyOnBreak)]
                } else {
                    seq![Effect::Send(StoreCmd::Break)]
                },
            },
            msg matches Msg::SetKind(k) ==> match old(self).anchor {
                Some(a) => fx@.len() == 0 && *final(self) == (Model {
                    confirm: Some(
                        Confirm::SetKindRange {
                            from: if old(self).selected.num() < a.num() {
                                old(self).selected
                            } else {
                                a
                            },
                            to: if a.num() < old(self).selected.num() {
                                old(self).selected
                            } else {
                                a
                            },
                            kind: k,
                        },
                    ),
                    ..*old(self)
                }),
                None => if k@.0 != 0 && has_entries_on(month_days(*old(self)), old(self).selected) {
                    *final(self) == *old(self) && fx@ == seq![Effect::Say(Notice::DayHasEntries)]
                } else if k@.0 != 0 && !working_day(old(self).selected.num()) {
                    *final(self) == *old(self) && fx@ == seq![Effect::Say(Notice::WeekendsNeedNoType)]
                } else {
                    fx@.len() == 0 && *final(self) == (Model {
                        confirm: Some(Confirm::SetKind(old(self).selected, k)),
                        ..*old(self)
                    })
                },
            },
            msg is ConfirmYes ==> match old(self).confirm {
                None => *final(self) == *old(self) && fx@.len() == 0,
                Some(Confirm::DeleteEntry(id)) => *final(self) == (Model {
                    confirm: None,
                    help: false,
                    ..*old(self)
                }) && fx@ == seq![Effect::Send(StoreCmd::DeleteEntry(id))],
                Some(Confirm::SetKind(d, k)) => *final(self) == (Model {
                    confirm: None,
                    help: false,
                    ..*old(self)
                }) && fx@ == seq![Effect::Send(StoreCmd::SetKind(d, k))],
                Some(Confirm::SetKindRange { from, to, kind }) => *final(self) == (Model {
                    confirm: None,
                    help: false,
                    anchor: None,
                    ..*old(self)
                }) && fx@ == seq![Effect::Send(StoreCmd::SetKindRange { from, to, kind })],
            },
            msg matches Msg::AskConfirm(c) ==> *final(self) == (Model { confirm: Some(c), ..*old(self) })
                && fx@.len() == 0,
            msg is ConfirmNo ==> *final(self) == (Model { confirm: None, help: false, ..*old(self) })
                && fx@.len() == 0,
            msg is ToggleHelp ==> *final(self) == (Model { help: !old(self).help, ..*old(self) }) && fx@.len()
                == 0,
            msg is OpenStats ==> {
                &&& *final(self) == (Model {
                    screen: Screen::Stats,
                    stats: None,
                    stats_anchor: old(self).today,
                    ..*old(self)
                })
                &&& fx@.len() == 1 && loads_stats(
                    fx@[0],
                    old(self).stats_range,
                    old(self).today,
                )
            },
            msg matches Msg::StatsRange(r) ==> {
                &&& *final(self) == (Model { stats_range: r, stats: None, ..*old(self) })
                &&& fx@.len() == 1 && loads_stats(
                    fx@[0],
                    r,
                    old(self).stats_anchor,
                )
            },
            msg matches Msg::StatsShift(n) ==> {
                &&& shifts_to(old(self).stats_range, old(self).stats_anchor, n as int, final(self).stats_anchor)
                &&& *final(self) == (Model { stats_anchor: final(self).stats_anchor, stats: None, ..*old(self) })
                &&& fx@.len() == 1 && loads_stats(
                    fx@[0],
                    old(self).stats_range,
                    final(self).stats_anchor,
                )
            },
            msg is StatsToday ==> {
                &&& *final(self) == (Model { stats_anchor: old(self).today, stats: None, ..*old(self) })
                &&& fx@.len() == 1 && loads_stats(
                    fx@[0],
                    old(self).stats_range,
                    old(self).today,
                )
            },
            msg is ToggleHours ==> {
                &&& *final(self) == (Model {
                    hours: if old(self).hours == HoursFormat::Hm {
                        HoursFormat::Decimal
                    } else {
                        HoursFormat::Hm
                    },
                    ..*old(self)
                })
                &&& fx@ == seq![Effect::SaveHours(final(self).hours)]
            },
            msg matches Msg::HoursSaved(r) ==> *final(self) == *old(self) && match r {
                Ok(_) => fx@ == seq![Effect::Say(Notice::HoursShown(old(self).hours))],
                Err(e) => fx@.len() == 1 && (fx@[0] matches Effect::SayText(t, true) && t@ == "hours format not saved: "@
                    + e@),
            },
            msg is OpenSettings ==> {
                &&& fx@.len() == 2
                &&& fx@[0] matches Effect::OpenSettings(d) && settings_fields_of(*old(self), d) && settings_refreshed(
                    Model { settings: Some(SettingsState { data: d, error: None }), ..*old(self) },
                    false,
                    *final(self),
                    Some(fx@[1]),
                )
            },
            msg matches Msg::SettingsChanged(d) ==> match old(self).settings {
                Some(st) => fx@.len() == 1 && settings_refreshed(
                    Model { settings: Some(SettingsState { data: d, ..st }), ..*old(self) },
                    true,
                    *final(self),
                    Some(fx@[0]),
                ),
                None => *final(self) == *old(self) && fx@.len() == 0,
            },
            msg is SettingsCancel ==> *final(self) == (Model { settings: None, ..*old(self) }) && fx@.len() == 0,
            msg matches Msg::SettingsSubmit(d) ==> {
                let m1 = match old(self).settings {
                    Some(st) => Model { settings: Some(SettingsState { data: d, ..st }), ..*old(self) },
                    None => *old(self),
                };
                match settings_result(d, old(self).today.num()) {
                    Err(_) => if m1.settings is Some {
                        fx@.len() == 1 && settings_refreshed(m1, true, *final(self), Some(fx@[0]))
                    } else {
                        *final(self) == m1 && fx@.len() == 0
                    },
                    Ok(v) => *final(self) == m1 && fx@.len() == 1 && (fx@[0] matches Effect::SaveSettings(p)
                        && patch_of(p, v)),
                }
            },
            msg matches Msg::SettingsSaved(r) ==> match r {
                Ok((rules, allowance)) => {
                    &&& *final(self) == (Model {
                        rules,
                        vacation_allowance: allowance,
                        settings: None,
                        ..*old(self)
                    })
                    &&& fx@.len() == 2 && loads_month(fx@[0], old(self).selected) && fx@[1] == Effect::Say(
                        Notice::SettingsSaved,
                    )
                },
                Err(t) => {
                    &&& *final(self) == match old(self).settings {
                        Some(st) => Model {
                            settings: Some(SettingsState { error: Some(t), ..st }),
                            ..*old(self)
                        },
                        None => *old(self),
                    }
                    &&& fx@ == seq![Effect::Footer(Overlay::Settings, t, true)]
                },
            },
            msg is ToggleChartMode ==> fx@.len() == 0 && *final(self) == (Model {
                chart_mode: if old(self).chart_mode == ChartMode::PerPeriod {
                    ChartMode::Running
                } else {
                    ChartMode::PerPeriod
                },
                ..*old(self)
            }),
            msg is OpenDay ==> *final(self) == (Model {
                screen: Screen::Day,
                day: None,
                day_cursor: 0,
                ..*old(self)
            }) && fx@ == seq![Effect::Send(StoreCmd::LoadDay(old(self).selected))],
            msg matches Msg::DaySelect(n) ==> fx@.len() == 0 && match old(self).day {
                Some(d) => if d.day.entries@.len() > 0 {
                    *final(self) == (Model {
                        day_cursor: ((old(self).day_cursor + n) % (d.day.entries@.len() as int)) as usize,
                        ..*old(self)
                    })
                } else {
                    *final(self) == *old(self)
                },
                None => *final(self) == *old(self),
            },
            msg is DayDelete ==> fx@.len() == 0 && match old(self).day {
                Some(d) => if old(self).day_cursor < d.day.entries@.len() {
                    *final(self) == (Model {
                        confirm: Some(Confirm::DeleteEntry(d.day.entries@[old(self).day_cursor as int].id)),
                        ..*old(self)
                    })
                } else {
                    *final(self) == *old(self)
                },
                None => *final(self) == *old(self),
            },
            msg is DayKindNext || msg is DayKindPrev ==> *final(self) == *old(self) && match old(self).day {
                None => fx@.len() == 0,
                Some(d) => if d.day.entries@.len() > 0 {
                    fx@ == seq![Effect::Say(Notice::DayHasEntries)]
                } else if !working_day(d.day.date.num()) {
                    fx@ == seq![Effect::Say(Notice::WeekendsNeedNoType)]
                } else {
                    &&& fx@.len() == 1
                    &&& fx@[0] matches Effect::Send(StoreCmd::SetKind(dd, k)) && dd == d.day.date && k@
                        == kind_at_view(
                        (d.day.kind@.0 + if msg is DayKindNext {
                            1int
                        } else {
                            5int
                        }) % 6,
                    )
                },
            },
            msg is Backup ==> *final(self) == *old(self) && fx@ == seq![Effect::Send(StoreCmd::Backup)],
            msg is ToggleAnchor ==> if old(self).anchor is Some {
                *final(self) == (Model { anchor: None, ..*old(self) }) && fx@ == seq![
                    Effect::Say(Notice::RangeCleared),
                ]
            } else {
                *final(self) == (Model { anchor: Some(old(self).selected), ..*old(self) }) && fx@ == seq![
                    Effect::Say(Notice::RangeFrom(old(self).selected)),
                ]
            },
            msg is OpenProjects ==> *final(self) == (Model {
                screen: Screen::Projects,
                projects: None,
                projects_cursor: 0,
                ..*old(self)
            }) && fx@ == seq![Effect::Send(StoreCmd::LoadProjects)],
            msg matches Msg::ProjectsSelect(n) ==> fx@.len() == 0 && if project_list(*old(self)).len() > 0 {
                *final(self) == (Model {
                    projects_cursor: (if old(self).projects_cursor + n < 0 {
                        0
                    } else if old(self).projects_cursor + n > project_list(*old(self)).len() - 1 {
                        project_list(*old(self)).len() - 1
                    } else {
                        old(self).projects_cursor + n
                    }) as usize,
                    ..*old(self)
                })
            } else {
                *final(self) == *old(self)
            },
            msg is ProjectsToggleArchive ==> *final(self) == *old(self) && if old(self).projects_cursor
                < project_list(*old(self)).len() {
                let p = project_list(*old(self))[old(self).projects_cursor as int];
                &&& fx@.len() == 1
                &&& fx@[0] matches Effect::Send(StoreCmd::ArchiveProject { name, archived }) && name@
                    == p.name@ && archived == !p.archived
            } else {
                fx@.len() == 0
            },
            msg is ProjectsRename ==> if old(self).projects_cursor < project_list(*old(self)).len() {
                let p = project_list(*old(self))[old(self).projects_cursor as int];
                &&& *final(self) == (Model {
                    prompt: Some(PromptKind::RenameProject { old: p.name }),
                    ..*old(self)
                })
                &&& fx@.len() == 1
                &&& fx@[0] matches Effect::OpenPrompt { title, initial } && title@
                    == "Rename project"@ && initial@ == p.name@
            } else {
                *final(self) == *old(self) && fx@.len() == 0
            },
            msg is ProjectsAdd ==> {
                &&& *final(self) == (Model { prompt: Some(PromptKind::AddProject), ..*old(self) })
                &&& fx@.len() == 1
                &&& fx@[0] matches Effect::OpenPrompt { title, initial } && title@
                    == "New project"@ && initial@.len() == 0
            },
            msg matches Msg::PromptSubmit(text) ==> if trim(text@).len() == 0 {
                *final(self) == *old(self) && fx@ == seq![Effect::Say(Notice::NameEmpty)]
            } else {
                match old(self).prompt {
                    None => *final(self) == *old(self) && fx@.len() == 0,
                    Some(PromptKind::RenameProject { old: o }) => {
                        &&& *final(self) == (Model { prompt: None, ..*old(self) })
                        &&& if o@ == trim(text@) {
                            fx@.len() == 0
                        } else {
                            &&& fx@.len() == 1
                            &&& fx@[0] matches Effect::Send(StoreCmd::RenameProject { old, new })
                                && old@ == o@ && new@ == trim(text@)
                        }
                    },
                    Some(PromptKind::AddProject) => {
                        &&& *final(self) == (Model { prompt: None, ..*old(self) })
                        &&& fx@.len() == 1
                        &&& fx@[0] matches Effect::Send(StoreCmd::AddProject(n)) && n@ == trim(
                            text@,
                        )
                    },
                }
            },
            msg is PromptCancel ==> *final(self) == (Model { prompt: None, ..*old(self) }) && fx@.len() == 0,
            msg matches Msg::Tick(t) ==> if t.date != old(self).today {
                &&& *final(self) == (Model { today: t.date, now: t.time, ..*old(self) })
                &&& fx@.len() == 1 && loads_month(fx@[0], old(self).selected)
            } else {
                *final(self) == (Model { now: t.time, ..*old(self) }) && fx@.len() == 0
            },
            msg matches Msg::Store(reply) ==> stored(*old(self), reply, *final(self), fx@),
            msg matches Msg::Error(e) ==> *final(self) == *old(self) && fx@ == seq![Effect::SayText(e, true)],
            msg matches Msg::Info(i) ==> *final(self) == *old(self) && fx@ == seq![Effect::SayText(i, false)],
            msg is DayAdd ==> {
                &&& fx@.len() == 2
                &&& fx@[0] matches Effect::OpenForm(d) && d.id is None && d.start@.len() == 0 && d.end@.len() == 0
                    && d.project@.len() == 0 && d.comment@.len() == 0 && form_refreshed(
                    Model { form: Some(FormState { data: d, error: None, preview: None }), ..*old(self) },
                    false,
                    *final(self),
                    Some(fx@[1]),
                )
            },
            msg is DayEdit ==> match old(self).day {
                Some(x) => if old(self).day_cursor < x.day.entries@.len() {
                    let e = x.day.entries@[old(self).day_cursor as int];
                    &&& fx@.len() == 2
                    &&& fx@[0] matches Effect::OpenForm(f) && f.id == Some(e.id) && f.start@ == clock_text(e.start)
                        && f.end@ == clock_text(e.end) && f.project@ == e.project@ && f.comment@ == e.comment@
                        && form_refreshed(
                        Model { form: Some(FormState { data: f, error: None, preview: None }), ..*old(self) },
                        false,
                        *final(self),
                        Some(fx@[1]),
                    )
                } else {
                    *final(self) == *old(self) && fx@.len() == 0
                },
                None => *final(self) == *old(self) && fx@.len() == 0,
            },
            msg is FormCancel ==> *final(self) == (Model { form: None, ..*old(self) }) && fx@.len() == 0,
            msg matches Msg::FormChanged(d) ==> match old(self).form {
                Some(f) => fx@.len() == 1 && form_refreshed(
                    Model { form: Some(FormState { data: d, ..f }), ..*old(self) },
                    true,
                    *final(self),
                    Some(fx@[0]),
                ),
                None => *final(self) == *old(self) && fx@.len() == 0,
            },
            msg matches Msg::FormSubmit(d) ==> match old(self).day {
                None => *final(self) == *old(self) && fx@.len() == 0,
                Some(x) => if x.day.kind@.0 != 0 {
                    &&& *final(self) == *old(self)
                    &&& fx@.len() == 1
                    &&& fx@[0] matches Effect::SayText(t, true) && t@ == kind_display(x.day.kind@)
                        + " day: change the day type to work first"@
                } else {
                    form_submitted(*old(self), d, *final(self), fx@)
                },
            },
            msg matches Msg::OpenBreakSplit { date, entry_id } ==> split_opened(
                *old(self),
                date,
                entry_id,
                *final(self),
                fx@,
            ),
            msg matches Msg::BreakSplitChanged(v) ==> match old(self).break_split {
                Some(st) => fx@.len() == 1 && split_refreshed(
                    Model { break_split: Some(BreakSplitState { values: v, ..st }), ..*old(self) },
                    true,
                    *final(self),
                    Some(fx@[0]),
                ),
                None => *final(self) == *old(self) && fx@.len() == 0,
            },
            msg is BreakSplitCancel ==> *final(self) == (Model { break_split: None, ..*old(self) }) && fx@.len() == 0,
            msg matches Msg::BreakSplitSubmit(v) ==> match old(self).break_split {
                None => *final(self) == *old(self) && fx@.len() == 0,
                Some(st) => exists|st1: BreakSplitState|
                    #![trigger split_verdict(st1, old(self).hours)]
                    st1 == (BreakSplitState { values: st1.values, ..st }) && values_view(st1.values@) == shares_text(v@)
                        && match split_verdict(st1, old(self).hours) {
                        Err(_) => fx@.len() == 1 && split_refreshed(
                            Model { break_split: Some(st1), ..*old(self) },
                            true,
                            *final(self),
                            Some(fx@[0]),
                        ),
                        Ok(_) => *final(self) == (Model { break_split: None, ..*old(self) }) && fx@ == seq![
                            Effect::Send(StoreCmd::SetBreakShares(v)),
                        ],
                    },
            },
            msg is DayBreakSplit ==> *final(self) == *old(self) && match old(self).day {
                Some(d) => if old(self).day_cursor < d.day.entries@.len() {
                    fx@ == seq![
                        Effect::OpenBreakSplit {
                            date: d.day.date,
                            entry_id: d.day.entries@[old(self).day_cursor as int].id,
                        },
                    ]
                } else {
                    fx@ == seq![Effect::Say(Notice::NoEntryToSplit)]
                },
                None => fx@.len() == 0,
            },
    {
        let mut fx: Vec<Effect> = Vec::new();
        match msg {
            Msg::Tick(t) => {
                if !t.date.same(&self.today) {
                    self.today = t.date;
                    fx.push(month_cmd(self.selected));
                }
                self.now = t.time;
            },
            Msg::Store(reply) => {
                fx = self.on_store(reply);
            },
            Msg::Error(e) => {
                fx.push(Effect::SayText(e, true));
            },
            Msg::Info(i) => {
                fx.push(Effect::SayText(i, false));
            },
            Msg::DayAdd => {
                fx = self.open_form(
                    FormData {
                        id: None,
                        start: String::new(),
                        end: String::new(),
                        project: String::new(),
                        comment: String::new(),
                    },
                );
            },
            Msg::DayEdit => {
                let data = match &self.day {
                    Some(d) => if self.day_cursor < d.day.entries.len() {
                        let e = &d.day.entries[self.day_cursor];
                        Some(
                            FormData {
                                id: Some(e.id),
                                start: clock_string(e.start),
                                end: clock_string(e.end),
                                project: e.project.clone(),
                                comment: e.comment.clone(),
                            },
                        )
                    } else {
                        None
                    },
                    None => None,
                };
                if let Some(data) = data {
                    fx = self.open_form(data);
                }
            },
            Msg::FormCancel => {
                self.form = None;
            },
            Msg::FormChanged(d) => {
                if let Some(form) = &mut self.form {
                    form.data = d;
                    if let Some(e) = self.refresh_form(true) {
                        fx.push(e);
                    }
                }
            },
            Msg::FormSubmit(d) => {
                fx = self.submit_form(d);
            },
            Msg::OpenBreakSplit { date, entry_id } => {
                fx = self.open_split(date, entry_id);
            },
            Msg::BreakSplitChanged(v) => {
                if let Some(st) = &mut self.break_split {
                    st.values = v;
                    if let Some(e) = self.refresh_break_split(true) {
                        fx.push(e);
                    }
                }
            },
            Msg::BreakSplitCancel => {
                self.break_split = None;
            },
            Msg::BreakSplitSubmit(v) => {
                fx = self.submit_split(v);
            },
            Msg::DayBreakSplit => {
                if let Some(d) = &self.day {
                    if self.day_cursor < d.day.entries.len() {
                        fx.push(
                            Effect::OpenBreakSplit { date: d.day.date, entry_id: d.day.entries[self.day_cursor].id },
                        );
                    } else {
                        fx.push(Effect::Say(Notice::NoEntryToSplit));
                    }
                }
            },
            Msg::Quit => {
                self.quit = true;
            },
            Msg::SelectDay(n) => {
                let d = if n >= 0 {
                    self.selected.checked_add_days(n as u64)
                } else {
                    let back: i64 = 0 - (n as i64);
                    self.selected.checked_sub_days(back as u64)
                };
                if let Some(d) = d {
                    let changed = d.year() != self.selected.year() || d.month() != self.selected.month();
                    self.selected = d;
                    if changed {
                        fx.push(month_cmd(d));
                    }
                }
            },
            Msg::SelectMonth(n) => {
                self.selected = add_months(self.selected, n);
                fx.push(month_cmd(self.selected));
            },
            Msg::GoToday => {
                self.selected = self.today;
                fx.push(month_cmd(self.today));
            },
            Msg::Back => {
                if self.help || self.confirm.is_some() {
                    self.close_overlay();
                } else if self.screen == Screen::Month && self.anchor.is_some() {
                    self.anchor = None;
                    fx.push(Effect::Say(Notice::RangeCleared));
                } else {
                    let reload = self.screen == Screen::Day || self.screen == Screen::Projects;
                    self.screen = Screen::Month;
                    if reload {
                        fx.push(month_cmd(self.selected));
                    }
                }
            },
            Msg::OpenClockPicker => {
                let (a, e) = self.picker_effect();
                self.clock_picker = Some(ClockPickerState { action: a });
                fx.push(e);
            },
            Msg::ClockPickerSubmit(name) => {
                if let Some(ClockPickerState { action: a }) = self.clock_picker {
                    self.clock_picker = None;
                    let name = trimmed(name.as_str());
                    if name.as_str().is_empty() {
                        fx.push(Effect::Say(Notice::PickProjectFirst));
                    } else {
                        match a {
                            ClockAction::Switch => fx.push(Effect::Send(StoreCmd::Switch { project: name })),
                            ClockAction::Resume => fx.push(Effect::Send(StoreCmd::Resume { project: Some(name) })),
                            ClockAction::In => fx.push(
                                Effect::Send(StoreCmd::ClockIn(self.today, self.now.to_minute(), name)),
                            ),
                        }
                    }
                }
            },
            Msg::ClockPickerCancel => {
                self.clock_picker = None;
            },
            Msg::ClockOut => {
                let none = match &self.month {
                    Some(m) => m.session.is_none(),
                    None => true,
                };
                if none {
                    fx.push(Effect::Say(Notice::NotClockedIn));
                } else {
                    fx.push(Effect::Send(StoreCmd::ClockOut));
                }
            },
            Msg::TakeBreak => {
                let state = match &self.month {
                    Some(m) => match &m.session {
                        Some(x) => Some(x.state),
                        None => None,
                    },
                    None => None,
                };
                match state {
                    None => fx.push(Effect::Say(Notice::NotClockedIn)),
                    Some(st) => if st.is_break() {
                        fx.push(Effect::Say(Notice::AlreadyOnBreak));
                    } else {
                        fx.push(Effect::Send(StoreCmd::Break));
                    },
                }
            },
            Msg::SetKind(k) => {
                if let Some(a) = self.anchor {
                    let from = a.min(self.selected);
                    let to = a.max(self.selected);
                    self.confirm = Some(Confirm::SetKindRange { from, to, kind: k });
                } else if k.tag() != 0 && self.month_has_entries(self.selected) {
                    fx.push(Effect::Say(Notice::DayHasEntries));
                } else if k.tag() != 0 && !is_working_day(self.selected) {
                    fx.push(Effect::Say(Notice::WeekendsNeedNoType));
                } else {
                    self.confirm = Some(Confirm::SetKind(self.selected, k));
                }
            },
            Msg::ConfirmYes => {
                let c = self.confirm.take();
                if let Some(c) = c {
                    self.help = false;
                    match c {
                        Confirm::DeleteEntry(id) => fx.push(Effect::Send(StoreCmd::DeleteEntry(id))),
                        Confirm::SetKind(d, k) => fx.push(Effect::Send(StoreCmd::SetKind(d, k))),
                        Confirm::SetKindRange { from, to, kind } => {
                            self.anchor = None;
                            fx.push(Effect::Send(StoreCmd::SetKindRange { from, to, kind }));
                        },
                    }
                }
            },
            Msg::AskConfirm(c) => {
                self.confirm = Some(c);
            },
            Msg::ConfirmNo => {
                self.close_overlay();
            },
            Msg::ToggleHelp => {
                self.help = !self.help;
            },
            Msg::OpenStats => {
                self.screen = Screen::Stats;
                self.stats_anchor = self.today;
                self.stats = None;
                fx.push(stats_cmd(self.stats_range, self.stats_anchor));
            },
            Msg::StatsRange(r) => {
                self.stats_range = r;
                self.stats = None;
                fx.push(stats_cmd(self.stats_range, self.stats_anchor));
            },
            Msg::StatsShift(n) => {
                let a = shift_anchor(self.stats_range, self.stats_anchor, n);
                proof {
                    assert(shifts_to(old(self).stats_range, old(self).stats_anchor, n as int, a));
                }
                self.stats_anchor = a;
                self.stats = None;
                fx.push(stats_cmd(self.stats_range, self.stats_anchor));
            },
            Msg::StatsToday => {
                self.stats_anchor = self.today;
                self.stats = None;
                fx.push(stats_cmd(self.stats_range, self.stats_anchor));
            },
            Msg::ToggleHours => {
                self.hours = self.hours.toggled();
                fx.push(Effect::SaveHours(self.hours));
            },
            Msg::HoursSaved(r) => {
                match r {
                    Ok(_) => fx.push(Effect::Say(Notice::HoursShown(self.hours))),
                    Err(e) => {
                        let mut t = String::from_str("hours format not saved: ");
                        push_str(&mut t, e.as_str());
                        proof {
                            reveal_strlit("hours format not saved: ");
                        }
                        fx.push(Effect::SayText(t, true));
                    },
                }
            },
            Msg::OpenSettings => {
                fx = self.open_settings();
            },
            Msg::SettingsChanged(d) => {
                if let Some(st) = &mut self.settings {
                    st.data = d;
                    if let Some(e) = self.refresh_settings(true) {
                        fx.push(e);
                    }
                }
            },
            Msg::SettingsCancel => {
                self.settings = None;
            },
            Msg::SettingsSubmit(d) => {
                if let Some(st) = &mut self.settings {
                    st.data = d.clone();
                }
                match validate_settings(&d, self.today) {
                    Err(_) => {
                        if let Some(e) = self.refresh_settings(true) {
                            fx.push(e);
                        }
                    },
                    Ok(p) => {
                        fx.push(Effect::SaveSettings(p));
                    },
                }
            },
            Msg::SettingsSaved(r) => {
                match r {
                    Ok((rules, allowance)) => {
                        self.rules = rules;
                        self.vacation_allowance = allowance;
                        fx.push(month_cmd(self.selected));
                        fx.push(Effect::Say(Notice::SettingsSaved));
                        self.settings = None;
                    },
                    Err(t) => {
                        if let Some(st) = &mut self.settings {
                            st.error = Some(t.clone());
                        }
                        fx.push(Effect::Footer(Overlay::Settings, t, true));
                    },
                }
            },
            Msg::ToggleChartMode => {
                self.chart_mode = match self.chart_mode {
                    ChartMode::PerPeriod => ChartMode::Running,
                    ChartMode::Running => ChartMode::PerPeriod,
                };
            },
            Msg::OpenDay => {
                self.screen = Screen::Day;
                self.day_cursor = 0;
                self.day = None;
                fx.push(Effect::Send(StoreCmd::LoadDay(self.selected)));
            },
            Msg::DaySelect(n) => {
                if let Some(d) = &self.day {
                    let len = d.day.entries.len();
                    if len > 0 {
                        let l: i64 = len as i64;
                        let v: i64 = self.day_cursor as i64 + n as i64;
                        let m: i64 = if v >= 0 {
                            v % l
                        } else {
                            let r = (0 - v) % l;
                            if r == 0 {
                                0
                            } else {
                                l - r
                            }
                        };
                        proof {
                            let vi: int = v as int;
                            let li: int = l as int;
                            let ri: int = (0 - vi) % li;
                            if vi < 0 {
                                let p: int = 0 - vi;
                                let q: int = p / li;
                                vstd::arithmetic::div_mod::lemma_fundamental_div_mod(p, li);
                                assert(p == li * q + ri);
                                if ri == 0 {
                                    assert(vi == (0 - q) * li + 0) by (nonlinear_arith)
                                        requires
                                            p == li * q + ri,
                                            ri == 0,
                                            vi == 0 - p,
                                    ;
                                    vstd::arithmetic::div_mod::lemma_fundamental_div_mod_converse_mod(
                                        vi,
                                        li,
                                        0 - q,
                                        0,
                                    );
                                } else {
                                    assert(vi == (0 - q - 1) * li + (li - ri)) by (nonlinear_arith)
                                        requires
                                            p == li * q + ri,
                                            vi == 0 - p,
                                    ;
                                    vstd::arithmetic::div_mod::lemma_fundamental_div_mod_converse_mod(
                                        vi,
                                        li,
                                        0 - q - 1,
                                        li - ri,
                                    );
                                }
                            }
                        }
                        self.day_cursor = m as usize;
                    }
                }
            },
            Msg::DayDelete => {
                if let Some(d) = &self.day {
                    if self.day_cursor < d.day.entries.len() {
                        self.confirm = Some(Confirm::DeleteEntry(d.day.entries[self.day_cursor].id));
                    }
                }
            },
            Msg::DayKindNext => {
                fx = day_kind_fx(&self.day, 1);
            },
            Msg::DayKindPrev => {
                fx = day_kind_fx(&self.day, 5);
            },
            Msg::Backup => {
                fx.push(Effect::Send(StoreCmd::Backup));
            },
            Msg::ToggleAnchor => {
                if self.anchor.is_some() {
                    self.anchor = None;
                    fx.push(Effect::Say(Notice::RangeCleared));
                } else {
                    self.anchor = Some(self.selected);
                    fx.push(Effect::Say(Notice::RangeFrom(self.selected)));
                }
            },
            Msg::OpenProjects => {
                self.screen = Screen::Projects;
                self.projects_cursor = 0;
                self.projects = None;
                fx.push(Effect::Send(StoreCmd::LoadProjects));
            },
            Msg::ProjectsSelect(n) => {
                let len = match &self.projects {
                    Some(p) => p.projects.len(),
                    None => 0,
                };
                if len > 0 {
                    let v: i64 = self.projects_cursor as i64 + n as i64;
                    let top: i64 = len as i64 - 1;
                    let c: i64 = if v < 0 {
                        0
                    } else if v > top {
                        top
                    } else {
                        v
                    };
                    self.projects_cursor = c as usize;
                }
            },
            Msg::ProjectsToggleArchive => {
                if let Some(ps) = &self.projects {
                    if self.projects_cursor < ps.projects.len() {
                        let p = &ps.projects[self.projects_cursor];
                        fx.push(
                            Effect::Send(StoreCmd::ArchiveProject { name: p.name.clone(), archived: !p.archived }),
                        );
                    }
                }
            },
            Msg::ProjectsRename => {
                let name: Option<String> = match &self.projects {
                    Some(ps) => if self.projects_cursor < ps.projects.len() {
                        Some(ps.projects[self.projects_cursor].name.clone())
                    } else {
                        None
                    },
                    None => None,
                };
                if let Some(name) = name {
                    let initial = name.clone();
                    self.prompt = Some(PromptKind::RenameProject { old: name });
                    fx.push(Effect::OpenPrompt { title: String::from_str("Rename project"), initial });
                }
            },
            Msg::ProjectsAdd => {
                self.prompt = Some(PromptKind::AddProject);
                fx.push(Effect::OpenPrompt { title: String::from_str("New project"), initial: String::new() });
            },
            Msg::PromptSubmit(text) => {
                let name = trimmed(text.as_str());
                if name.as_str().is_empty() {
                    fx.push(Effect::Say(Notice::NameEmpty));
                } else {
                    let kind = self.prompt.take();
                    match kind {
                        None => {},
                        Some(PromptKind::RenameProject { old }) => {
                            if old != name {
                                fx.push(Effect::Send(StoreCmd::RenameProject { old, new: name }));
                            }
                        },
                        Some(PromptKind::AddProject) => {
                            fx.push(Effect::Send(StoreCmd::AddProject(name)));
                        },
                    }
                }
            },
            Msg::PromptCancel => {
                self.prompt = None;
            },
        }
        fx
    }
}

} // verus!
