//! Facts about the running system that the command-line programs compute:
//! where to look for the loaded policy, calendar dates, the policy type
//! named by the SELinux configuration, and result limits.
use vstd::prelude::*;
use crate::text::{push_str, push_char, owned, chars_of, string_of};
use crate::scan::{decimal_text, push_count, is_space, space};

verus! {

/// A program of the tool suite.
#[derive(PartialEq, Eq, Structural, Clone, Copy, Debug)]
pub enum Tool {
    /// Policy rule search.
    Sesearch,
    /// Policy component information.
    Seinfo,
    /// Semantic policy difference.
    Sediff,
    /// Domain-transition analysis.
    Sedta,
    /// Information-flow analysis.
    Seinfoflow,
    /// Automated policy checks.
    Sechecker,
}

/// The installed name of a program.
pub open spec fn tool_name(tool: Tool) -> Seq<char> {
    match tool {
        Tool::Sesearch => "sesearch"@,
        Tool::Seinfo => "seinfo"@,
        Tool::Sediff => "sediff"@,
        Tool::Sedta => "sedta"@,
        Tool::Seinfoflow => "seinfoflow"@,
        Tool::Sechecker => "sechecker"@,
    }
}

impl Tool {
    /// Returns the installed name of the program.
    pub fn name(self) -> (result: &'static str)
        ensures
            result@ == tool_name(self),
    {
        match self {
            Tool::Sesearch => "sesearch",
            Tool::Seinfo => "seinfo",
            Tool::Sediff => "sediff",
            Tool::Sedta => "sedta",
            Tool::Seinfoflow => "seinfoflow",
            Tool::Sechecker => "sechecker",
        }
    }

    /// Returns the installed name of the program as an owned string.
    pub fn to_string(self) -> (result: String)
        ensures
            result@ == tool_name(self),
    {
        owned(self.name())
    }
}

/// A policy path followed by a dot and a version number.
pub open spec fn versioned_path(base: Seq<char>, version: int) -> Seq<char> {
    base + seq!['.'] + decimal_text(version)
}

/// The versioned paths from `high` down to `low`.
pub open spec fn versions_down(base: Seq<char>, low: int, high: int) -> Seq<Seq<char>>
    decreases high - low + 1,
{
    if high < low {
        Seq::empty()
    } else {
        seq![versioned_path(base, high)] + versions_down(base, low, high - 1)
    }
}

/// Appends a dot and a version number to a policy path.
pub fn versioned_policy_path(base: &str, version: u32) -> (result: String)
    ensures
        result@ == versioned_path(base@, version as int),
{
    let mut path = owned(base);
    push_char(&mut path, '.');
    push_count(&mut path, version as usize);
    assert(path@ =~= versioned_path(base@, version as int));
    path
}

/// What is known of the running system's policy.
#[derive(Debug)]
pub struct RunningPolicyInfo {
    /// Whether the kernel offers selinuxfs.
    pub selinuxfs_exists: bool,
    /// The lowest policy version to look for.
    pub minimum_version: u32,
    /// The highest policy version to look for.
    pub maximum_version: u32,
    /// The policy the kernel has loaded, if it can be read.
    pub current_policy_path: Option<String>,
    /// The installed policy path, without its version suffix.
    pub binary_policy_path: Option<String>,
}

/// The places to look for the running policy: the loaded policy first, then
/// the installed policy at each version from the highest down.
pub open spec fn candidate_paths(info: RunningPolicyInfo) -> Seq<Seq<char>> {
    (match info.current_policy_path {
        Some(path) => seq![path@],
        None => Seq::empty(),
    }) + (match info.binary_policy_path {
        Some(base) => versions_down(base@, info.minimum_version as int, info.maximum_version as int),
        None => Seq::empty(),
    })
}

impl RunningPolicyInfo {
    /// Returns the places to look for the running policy, in order.
    pub fn candidates(&self) -> (result: Vec<String>)
        ensures
            crate::text::texts(result@) == candidate_paths(*self),
    {
        let mut candidates: Vec<String> = Vec::new();
        match &self.current_policy_path {
            Some(path) => {
                candidates.push(owned(path.as_str()));
            },
            None => {},
        }
        let ghost first = crate::text::texts(candidates@);
        proof {
            if self.current_policy_path is Some {
                assert(first =~= seq![self.current_policy_path->0@]);
            } else {
                assert(first =~= Seq::<Seq<char>>::empty());
            }
        }
        match &self.binary_policy_path {
            Some(base) => {
                let low = self.minimum_version as i64;
                let mut version = self.maximum_version as i64;
                assert(first + versions_down(base@, low as int, version as int).take(0) =~= first);
                while version >= low
                    invariant
                        low == self.minimum_version as int,
                        version <= self.maximum_version,
                        version >= low - 1 || version == self.maximum_version,
                        first + versions_down(base@, low as int, self.maximum_version as int)
                            == crate::text::texts(candidates@) + versions_down(base@, low as int, version as int),
                    decreases version - low + 1,
                {
                    let path = versioned_policy_path(base.as_str(), version as u32);
                    let ghost before = crate::text::texts(candidates@);
                    candidates.push(path);
                    proof {
                        assert(crate::text::texts(candidates@) =~= before.push(path@));
                        assert(versions_down(base@, low as int, version as int)
                            == seq![versioned_path(base@, version as int)] + versions_down(base@, low as int, version - 1));
                        assert(before + versions_down(base@, low as int, version as int)
                            =~= before.push(path@) + versions_down(base@, low as int, version - 1));
                    }
                    version = version - 1;
                }
                assert(versions_down(base@, low as int, version as int) =~= Seq::<Seq<char>>::empty());
                assert(crate::text::texts(candidates@) + Seq::<Seq<char>>::empty() =~= crate::text::texts(candidates@));
            },
            None => {
                assert(first + Seq::<Seq<char>>::empty() =~= first);
            },
        }
        candidates
    }
}

/// How many results to show: all when the limit is zero, otherwise no more
/// than the limit read as an unsigned size.
pub open spec fn result_limit(available: usize, limit: i32) -> usize {
    if limit == 0 {
        available
    } else if available <= (limit as usize) {
        available
    } else {
        limit as usize
    }
}

/// Applies a result limit.
pub fn limited_result_count(available: usize, limit: i32) -> (result: usize)
    ensures
        result == result_limit(available, limit),
{
    if limit == 0 {
        available
    } else {
        let bound = limit as usize;
        if available <= bound { available } else { bound }
    }
}

/// The civil date `days` after 1970-01-01, by the era arithmetic of the
/// proleptic Gregorian calendar: year, month and day.
pub open spec fn civil_of(days: int) -> (int, int, int) {
    let shifted = days + 719_468;
    let era = shifted / 146_097;
    let day_of_era = shifted - era * 146_097;
    let year_of_era = (day_of_era - day_of_era / 1_460 + day_of_era / 36_524 - day_of_era / 146_096) / 365;
    let day_of_year = day_of_era - (365 * year_of_era + year_of_era / 4 - year_of_era / 100);
    let month_prime = (5 * day_of_year + 2) / 153;
    let day = day_of_year - (153 * month_prime + 2) / 5 + 1;
    let month = month_prime + if month_prime < 10 { 3 } else { -9 };
    let year = year_of_era + era * 400 + if month <= 2 { 1int } else { 0int };
    (year, month, day)
}

/// The civil date `days` after 1970-01-01.
pub fn civil_from_days(days_since_epoch: i64) -> (result: (i64, u64, u64))
    requires
        days_since_epoch <= i64::MAX - 719_468,
    ensures
        (result.0 as int, result.1 as int, result.2 as int) == civil_of(days_since_epoch as int),
        1 <= result.1 <= 12,
        1 <= result.2 <= 31,
        days_from_civil(result.0 as int, result.1 as int, result.2 as int) == days_since_epoch,
{
    proof {
        lemma_civil_round_trip(days_since_epoch as int);
    }
    let shifted: i64 = days_since_epoch + 719_468;
    let era: i64 = if shifted >= 0 {
        shifted / 146_097
    } else {
        let magnitude: i64 = -shifted;
        -((magnitude + 146_096) / 146_097)
    };
    assert(era == (shifted as int) / 146_097) by (nonlinear_arith)
        requires
            shifted < 0 ==> era == -((-(shifted as int) + 146_096) / 146_097),
            shifted >= 0 ==> era == (shifted as int) / 146_097,
    ;
    let day_of_era: i64 = shifted - era * 146_097;
    assert(0 <= day_of_era < 146_097) by (nonlinear_arith)
        requires
            era == (shifted as int) / 146_097,
            day_of_era == shifted - era * 146_097,
    ;
    let doe = day_of_era as u64;
    let year_of_era: u64 = (doe - doe / 1_460 + doe / 36_524 - doe / 146_096) / 365;
    let day_of_year: u64 = doe - (365 * year_of_era + year_of_era / 4 - year_of_era / 100);
    let month_prime: u64 = (5 * day_of_year + 2) / 153;
    let day: u64 = day_of_year - (153 * month_prime + 2) / 5 + 1;
    let month: u64 = if month_prime < 10 { month_prime + 3 } else { month_prime - 9 };
    let year: i64 = year_of_era as i64 + era * 400 + if month <= 2 { 1i64 } else { 0i64 };
    (year, month, day)
}

/// The day of a 400-year era falls in a year of the era whose day count
/// leaves a day of the year below 366.
proof fn lemma_day_of_year(doe: int)
    requires
        0 <= doe < 146_097,
    ensures
        ({
            let yoe = (doe - doe / 1_460 + doe / 36_524 - doe / 146_096) / 365;
            let doy = doe - (365 * yoe + yoe / 4 - yoe / 100);
            0 <= yoe < 400 && 0 <= doy < 366
        }),
{
    let yoe = (doe - doe / 1_460 + doe / 36_524 - doe / 146_096) / 365;
    let doy = doe - (365 * yoe + yoe / 4 - yoe / 100);
    assert(0 <= yoe < 400 && 0 <= doy < 366) by (nonlinear_arith)
        requires
            0 <= doe < 146_097,
            yoe == (doe - doe / 1_460 + doe / 36_524 - doe / 146_096) / 365,
            doy == doe - (365 * yoe + yoe / 4 - yoe / 100),
    ;
}

/// The days from 1970-01-01 to a civil date, by the era arithmetic of the
/// proleptic Gregorian calendar (months counted from March).
pub open spec fn days_from_civil(year: int, month: int, day: int) -> int {
    let y = if month <= 2 { year - 1 } else { year };
    let era = y / 400;
    let year_of_era = y - era * 400;
    let month_prime = if month > 2 { month - 3 } else { month + 9 };
    let day_of_year = (153 * month_prime + 2) / 5 + day - 1;
    let day_of_era = year_of_era * 365 + year_of_era / 4 - year_of_era / 100 + day_of_year;
    era * 146_097 + day_of_era - 719_468
}

/// Every day count names a date with a month from 1 to 12 and a day from
/// 1 to 31, and counting the days to that date gives the count back.
pub proof fn lemma_civil_round_trip(days: int)
    ensures
        1 <= civil_of(days).1 <= 12,
        1 <= civil_of(days).2 <= 31,
        days_from_civil(civil_of(days).0, civil_of(days).1, civil_of(days).2) == days,
{
    let shifted = days + 719_468;
    let era = shifted / 146_097;
    let doe = shifted - era * 146_097;
    assert(0 <= doe < 146_097) by (nonlinear_arith)
        requires
            era == shifted / 146_097,
            doe == shifted - era * 146_097,
    ;
    lemma_day_of_year(doe);
    let yoe = (doe - doe / 1_460 + doe / 36_524 - doe / 146_096) / 365;
    let doy = doe - (365 * yoe + yoe / 4 - yoe / 100);
    let mp = (5 * doy + 2) / 153;
    let day = doy - (153 * mp + 2) / 5 + 1;
    assert(0 <= mp <= 11 && 1 <= day <= 31) by (nonlinear_arith)
        requires
            0 <= doy < 366,
            mp == (5 * doy + 2) / 153,
            day == doy - (153 * mp + 2) / 5 + 1,
    ;
    let month = mp + if mp < 10 { 3int } else { -9int };
    let year = yoe + era * 400 + if month <= 2 { 1int } else { 0int };
    assert(civil_of(days) == (year, month, day));
    let y = if month <= 2 { year - 1 } else { year };
    assert(y == yoe + era * 400);
    assert(y / 400 == era) by (nonlinear_arith)
        requires
            y == yoe + era * 400,
            0 <= yoe < 400,
    ;
}

/// The civil date `days` after 1970-01-01, with a 32-bit month and day.
pub fn civil_date(days_since_epoch: i64) -> (result: (i64, u32, u32))
    requires
        days_since_epoch <= i64::MAX - 719_468,
    ensures
        (result.0 as int, result.1 as int, result.2 as int) == civil_of(days_since_epoch as int),
        1 <= result.1 <= 12,
        1 <= result.2 <= 31,
{
    let (year, month, day) = civil_from_days(days_since_epoch);
    (year, month as u32, day as u32)
}

} // verus!
