//! The settings in `config.toml`: their defaults, what makes them valid, and
//! the rules and holiday calendar they give.
use crate::balance::Rules;
use crate::breaks::BreakTier;
use crate::date::Date;
use crate::holidays::HolidayCalendar;
use crate::minutes::{HoursFormat, Minutes, hours_format_text};
use crate::text::push_str;
use vstd::prelude::*;

verus! {

/// The file written on first run.
pub const DEFAULT_TOML: &'static str = "# tk configuration — edit and restart tk
start_date = \"2026-01-01\"          # balance is computed from this date
initial_balance_minutes = 0        # carried-over balance at start_date
daily_target_minutes = 468         # 7:48
vacation_days_per_year = 30
week_starts_on = \"monday\"          # display only
theme = \"dark\"                     # \"dark\" | \"light\" | \"purple\"
hours_format = \"hm\"                # \"hm\" (07:48) | \"decimal\" (7.80h)
extra_holidays = []                # e.g. [\"2026-12-24\", \"2026-12-31\"]

[[break_tiers]]                    # ascending; last matching tier applies
after_minutes = 180
deduct_minutes = 18

[[break_tiers]]
after_minutes = 360
deduct_minutes = 48

[theme_overrides]                  # optional; any role may be set to \"#rrggbb\" or a named color
# positive = \"#a6e3a1\"
";

/// One break tier as the file spells it.
#[derive(Clone, Copy, Debug, PartialEq, Eq, Structural)]
pub struct BreakTierCfg {
    pub after_minutes: i32,
    pub deduct_minutes: i32,
}

/// Why a configuration is refused.
#[derive(Debug, PartialEq, Eq)]
pub enum ConfigError {
    /// The file could not be read, with the reason.
    Io(String),
    /// The file is not TOML of the expected shape, with the reason.
    Parse(String),
    /// A field holds a value that is not allowed.
    Validation { field: String, reason: String },
}

impl ConfigError {
    /// The message the error is shown with.
    pub fn message(&self) -> (r: String)
        ensures
            r@ == match self {
                ConfigError::Io(s) => "config io error: "@ + s@,
                ConfigError::Parse(s) => "config parse error: "@ + s@,
                ConfigError::Validation { field, reason } => "config field `"@ + field@ + "`: "@
                    + reason@,
            },
    {
        match self {
            ConfigError::Io(s) => {
                let mut r = String::from_str("config io error: ");
                push_str(&mut r, s.as_str());
                r
            },
            ConfigError::Parse(s) => {
                let mut r = String::from_str("config parse error: ");
                push_str(&mut r, s.as_str());
                r
            },
            ConfigError::Validation { field, reason } => {
                let mut r = String::from_str("config field `");
                push_str(&mut r, field.as_str());
                push_str(&mut r, "`: ");
                push_str(&mut r, reason.as_str());
                r
            },
        }
    }
}

/// A validation error naming `field`.
pub fn invalid(field: &str, reason: &str) -> (r: ConfigError)
    ensures
        r matches ConfigError::Validation { field: f, reason: w } && f@ == field@ && w@ == reason@,
{
    ConfigError::Validation { field: String::from_str(field), reason: String::from_str(reason) }
}

/// Thirty days of vacation a year.
pub fn default_vacation() -> (r: u32)
    ensures
        r == 30,
{
    30
}

/// Weeks start on Monday.
pub fn default_week_start() -> (r: String)
    ensures
        r@ == "monday"@,
{
    String::from_str("monday")
}

/// The dark theme.
pub fn default_theme() -> (r: String)
    ensures
        r@ == "dark"@,
{
    String::from_str("dark")
}

/// The settings.
#[derive(Debug, PartialEq, Eq)]
pub struct Config {
    pub start_date: Date,
    pub initial_balance_minutes: i32,
    pub daily_target_minutes: i32,
    pub vacation_days_per_year: u32,
    pub week_starts_on: String,
    pub theme: String,
    pub hours_format: String,
    pub break_tiers: Vec<BreakTierCfg>,
    pub extra_holidays: Vec<Date>,
    /// Colour overrides by role, in the file's order.
    pub theme_overrides: Vec<(String, String)>,
}

/// The first rule a configuration breaks, as field and reason, if any.
pub open spec fn config_problem(
    target: int,
    theme: Seq<char>,
    week: Seq<char>,
    hours: Seq<char>,
    tiers: Seq<BreakTierCfg>,
) -> Option<(Seq<char>, Seq<char>)> {
    if target <= 0 {
        Some(("daily_target_minutes"@, "must be greater than 0"@))
    } else if !(theme == "dark"@ || theme == "light"@ || theme == "purple"@) {
        Some(("theme"@, "must be \"dark\", \"light\" or \"purple\""@))
    } else if !(week == "monday"@ || week == "sunday"@) {
        Some(("week_starts_on"@, "must be \"monday\" or \"sunday\""@))
    } else if hours_format_text(hours) is None {
        Some(("hours_format"@, "must be \"hm\" or \"decimal\""@))
    } else {
        tier_problem(tiers, tiers.len() as int)
    }
}

/// The first break tier, among the first `n`, with a negative value or an
/// `after` not above the one before it.
pub open spec fn tier_problem(t: Seq<BreakTierCfg>, n: int) -> Option<(Seq<char>, Seq<char>)>
    decreases n,
{
    if n <= 0 {
        None
    } else {
        match tier_problem(t, n - 1) {
            Some(p) => Some(p),
            None => {
                let x = t[n - 1];
                if x.after_minutes < 0 || x.deduct_minutes < 0 {
                    Some(("break_tiers"@, "values must be non-negative"@))
                } else if n >= 2 && x.after_minutes <= t[n - 2].after_minutes {
                    Some(("break_tiers"@, "after_minutes must be strictly ascending"@))
                } else {
                    None
                }
            },
        }
    }
}

/// Once a tier has a problem, it is the problem of any longer list.
proof fn lemma_tier_problem_stable(t: Seq<BreakTierCfg>, i: int, n: int)
    requires
        0 <= i <= n,
        tier_problem(t, i) is Some,
    ensures
        tier_problem(t, n) == tier_problem(t, i),
    decreases n - i,
{
    if n > i {
        lemma_tier_problem_stable(t, i, n - 1);
    }
}

/// Whether `s` is `lit`.
fn is_text(s: &String, lit: &str) -> (r: bool)
    ensures
        r == (s@ == lit@),
{
    let l = String::from_str(lit);
    *s == l
}

impl Config {
    /// The first rule the settings break: the target must be above zero, the
    /// theme, week start and hours format one of their names, and the break
    /// tiers non-negative with `after_minutes` strictly ascending.
    pub fn validate(&self) -> (r: Result<(), ConfigError>)
        ensures
            match config_problem(
                self.daily_target_minutes as int,
                self.theme@,
                self.week_starts_on@,
                self.hours_format@,
                self.break_tiers@,
            ) {
                None => r is Ok,
                Some(p) => r matches Err(ConfigError::Validation { field, reason }) && field@ == p.0
                    && reason@ == p.1,
            },
    {
        if self.daily_target_minutes <= 0 {
            return Err(invalid("daily_target_minutes", "must be greater than 0"));
        }
        if !(is_text(&self.theme, "dark") || is_text(&self.theme, "light") || is_text(
            &self.theme,
            "purple",
        )) {
            return Err(invalid("theme", "must be \"dark\", \"light\" or \"purple\""));
        }
        if !(is_text(&self.week_starts_on, "monday") || is_text(&self.week_starts_on, "sunday")) {
            return Err(invalid("week_starts_on", "must be \"monday\" or \"sunday\""));
        }
        if HoursFormat::parse(self.hours_format.as_str()).is_none() {
            return Err(invalid("hours_format", "must be \"hm\" or \"decimal\""));
        }
        let t = &self.break_tiers;
        let ghost whole = config_problem(
            self.daily_target_minutes as int,
            self.theme@,
            self.week_starts_on@,
            self.hours_format@,
            self.break_tiers@,
        );
        let mut i: usize = 0;
        while i < t.len()
            invariant
                i <= t@.len(),
                t@ == self.break_tiers@,
                whole == tier_problem(t@, t@.len() as int),
                whole == config_problem(
                    self.daily_target_minutes as int,
                    self.theme@,
                    self.week_starts_on@,
                    self.hours_format@,
                    self.break_tiers@,
                ),
                tier_problem(t@, i as int) is None,
            decreases t.len() - i,
        {
            let x = t[i];
            if x.after_minutes < 0 || x.deduct_minutes < 0 {
                proof {
                    lemma_tier_problem_stable(t@, i + 1, t@.len() as int);
                }
                return Err(invalid("break_tiers", "values must be non-negative"));
            }
            if i >= 1 && x.after_minutes <= t[i - 1].after_minutes {
                proof {
                    lemma_tier_problem_stable(t@, i + 1, t@.len() as int);
                }
                return Err(invalid("break_tiers", "after_minutes must be strictly ascending"));
            }
            i += 1;
        }
        Ok(())
    }

    /// How durations are written; `hm` unless the file says `decimal`.
    pub fn hours_format(&self) -> (r: HoursFormat)
        ensures
            r == match hours_format_text(self.hours_format@) {
                Some(f) => f,
                None => HoursFormat::Hm,
            },
    {
        match HoursFormat::parse(self.hours_format.as_str()) {
            Some(f) => f,
            None => HoursFormat::Hm,
        }
    }

    /// The rules days are measured by.
    pub fn rules(&self) -> (r: Rules)
        ensures
            r.daily_target.0 == self.daily_target_minutes,
            r.start_date == self.start_date,
            r.initial_balance.0 == self.initial_balance_minutes,
            r.tiers@.len() == self.break_tiers@.len(),
            forall|i: int|
                0 <= i < r.tiers@.len() ==> (#[trigger] r.tiers@[i]).after.0
                    == self.break_tiers@[i].after_minutes && r.tiers@[i].deduct.0
                    == self.break_tiers@[i].deduct_minutes,
    {
        let mut tiers: Vec<BreakTier> = Vec::new();
        let mut i: usize = 0;
        while i < self.break_tiers.len()
            invariant
                i <= self.break_tiers@.len(),
                tiers@.len() == i,
                forall|k: int|
                    0 <= k < i ==> (#[trigger] tiers@[k]).after.0 == self.break_tiers@[k].after_minutes
                        && tiers@[k].deduct.0 == self.break_tiers@[k].deduct_minutes,
            decreases self.break_tiers.len() - i,
        {
            let t = self.break_tiers[i];
            tiers.push(BreakTier { after: Minutes(t.after_minutes), deduct: Minutes(t.deduct_minutes) });
            i += 1;
        }
        Rules {
            daily_target: Minutes(self.daily_target_minutes),
            tiers,
            start_date: self.start_date,
            initial_balance: Minutes(self.initial_balance_minutes),
        }
    }

    /// The holiday calendar with the extra holidays of the file.
    pub fn calendar(&self) -> (r: HolidayCalendar)
        ensures
            r.extra() == self.extra_holidays@,
    {
        let mut extra: Vec<Date> = Vec::new();
        let mut i: usize = 0;
        while i < self.extra_holidays.len()
            invariant
                i <= self.extra_holidays@.len(),
                extra@ == self.extra_holidays@.take(i as int),
            decreases self.extra_holidays.len() - i,
        {
            extra.push(self.extra_holidays[i]);
            i += 1;
            proof {
                assert(extra@ =~= self.extra_holidays@.take(i as int));
            }
        }
        proof {
            assert(self.extra_holidays@.take(self.extra_holidays@.len() as int) =~= self.extra_holidays@);
        }
        HolidayCalendar::new(extra)
    }
}

/// The settings `tk config` and the settings overlay change; `None` leaves a
/// setting as it is.
#[derive(Clone, Copy, Debug, Default, PartialEq, Eq, Structural)]
pub struct ConfigPatch {
    pub start_date: Option<Date>,
    pub initial_balance_minutes: Option<i32>,
    pub daily_target_minutes: Option<i32>,
    pub vacation_days_per_year: Option<u32>,
    pub hours_format: Option<HoursFormat>,
}

impl ConfigPatch {
    /// Whether the patch changes nothing.
    pub fn is_empty(&self) -> (r: bool)
        ensures
            r == (self.start_date is None && self.initial_balance_minutes is None
                && self.daily_target_minutes is None && self.vacation_days_per_year is None
                && self.hours_format is None),
    {
        self.start_date.is_none() && self.initial_balance_minutes.is_none()
            && self.daily_target_minutes.is_none() && self.vacation_days_per_year.is_none()
            && self.hours_format.is_none()
    }
}

} // verus!
