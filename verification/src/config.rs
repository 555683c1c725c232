//! Report configuration: named report layouts and the default report
//! choice.  The configuration value is built once from already-parsed
//! entries and passed to whoever needs it.

use vstd::prelude::*;

verus! {

/// One report layout: the filter words it applies and the columns it shows.
#[derive(Debug, PartialEq, Clone)]
pub struct ReportConfig {
    pub filters: Vec<String>,
    pub columns: Vec<String>,
    pub column_names: Vec<String>,
    pub default: bool,
}

impl Default for ReportConfig {
    /// The built-in report: pending tasks with the usual columns.
    fn default() -> (r: Self)
        ensures
            r.default == true,
            r.filters@.len() == 1 && r.filters@[0]@ == "status:pending"@,
            r.columns@.len() == 5 && r.columns@[0]@ == "id"@ && r.columns@[1]@ == "uuid"@
                && r.columns@[2]@ == "date_created"@ && r.columns@[3]@ == "summary"@
                && r.columns@[4]@ == "tags"@,
            r.column_names@.len() == 5 && r.column_names@[0]@ == "ID"@ && r.column_names@[1]@
                == "UUID"@ && r.column_names@[2]@ == "Date Created"@ && r.column_names@[3]@
                == "Summary"@ && r.column_names@[4]@ == "Tags"@,
    {
        let mut filters: Vec<String> = Vec::new();
        filters.push("status:pending".to_owned());
        let mut columns: Vec<String> = Vec::new();
        columns.push("id".to_owned());
        columns.push("uuid".to_owned());
        columns.push("date_created".to_owned());
        columns.push("summary".to_owned());
        columns.push("tags".to_owned());
        let mut column_names: Vec<String> = Vec::new();
        column_names.push("ID".to_owned());
        column_names.push("UUID".to_owned());
        column_names.push("Date Created".to_owned());
        column_names.push("Summary".to_owned());
        column_names.push("Tags".to_owned());
        ReportConfig { filters, columns, column_names, default: true }
    }
}

/// The name of the default report: the last entry marked default wins, and
/// with no such entry the name is empty.
pub open spec fn spec_default_report(s: Seq<(String, ReportConfig)>) -> Seq<char>
    decreases s.len(),
{
    if s.len() == 0 {
        Seq::empty()
    } else if s.last().1.default {
        s.last().0@
    } else {
        spec_default_report(s.drop_last())
    }
}

/// The configuration: the report map and the name of the default report.
pub struct Config {
    pub default_report: String,
    pub report_map: Vec<(String, ReportConfig)>,
}

impl Config {
    /// The report entries, in order.
    pub open spec fn reports(&self) -> Seq<(String, ReportConfig)> {
        self.report_map@
    }

    /// Builds a configuration from report entries, choosing the default
    /// report name as `spec_default_report` states.
    #[verifier::loop_isolation(false)]
    pub fn from_reports(reports: Vec<(String, ReportConfig)>) -> (r: Config)
        ensures
            r.reports() == reports@,
            r.default_report@ == spec_default_report(reports@),
    {
        let mut default_report: String = String::new();
        let mut i: usize = 0;
        while i < reports.len()
            invariant
                i <= reports.len(),
                default_report@ == spec_default_report(reports@.take(i as int)),
            decreases reports.len() - i,
        {
            proof {
                assert(reports@.take(i + 1).drop_last() =~= reports@.take(i as int));
                assert(reports@.take(i + 1).last() == reports@[i as int]);
            }
            if reports[i].1.default {
                default_report = reports[i].0.clone();
            }
            i = i + 1;
        }
        proof {
            assert(reports@.take(reports@.len() as int) =~= reports@);
        }
        Config { default_report, report_map: reports }
    }

    /// The first report entry with this name, if any.
    #[verifier::loop_isolation(false)]
    pub fn get_report(&self, name: &str) -> (r: Option<&ReportConfig>)
        ensures
            match r {
                Some(rc) => exists|i: int|
                    0 <= i < self.reports().len() && (#[trigger] self.reports()[i]).0@ == name@
                        && *rc == self.reports()[i].1,
                None => forall|i: int|
                    0 <= i < self.reports().len() ==> (#[trigger] self.reports()[i]).0@ != name@,
            },
    {
        let mut i: usize = 0;
        while i < self.report_map.len()
            invariant
                i <= self.report_map.len(),
                forall|j: int| 0 <= j < i ==> (#[trigger] self.reports()[j]).0@ != name@,
            decreases self.report_map.len() - i,
        {
            if crate::textops::str_eq(self.report_map[i].0.as_str(), name) {
                proof {
                    assert(self.reports()[i as int].0@ == name@);
                }
                return Some(&self.report_map[i].1);
            }
            i = i + 1;
        }
        None
    }
}

/// The configuration files tried, in order: a local file, one under the
/// configuration home (which defaults to `.config` under the home
/// directory), one in the home configuration tree, and a dot-file in the
/// home directory.
#[verifier::loop_isolation(false)]
pub fn config_file_candidates(home: &str, xdg_config_home: Option<&str>) -> (r: Vec<String>)
    ensures
        r@.len() == 4,
        r@[0]@ == "rusk.toml"@,
        r@[1]@ == (match xdg_config_home {
            Some(x) => x@,
            None => home@ + "/.config"@,
        }) + "/rusk/config.toml"@,
        r@[2]@ == home@ + "/.config/rusk/config.toml"@,
        r@[3]@ == home@ + "/.rusk.toml"@,
{
    let xdg: String = match xdg_config_home {
        Some(x) => x.to_owned(),
        None => {
            let mut s = home.to_owned();
            s.append("/.config");
            s
        },
    };
    let mut second = xdg;
    second.append("/rusk/config.toml");
    let mut third = home.to_owned();
    third.append("/.config/rusk/config.toml");
    let mut fourth = home.to_owned();
    fourth.append("/.rusk.toml");
    let mut r: Vec<String> = Vec::new();
    r.push("rusk.toml".to_owned());
    r.push(second);
    r.push(third);
    r.push(fourth);
    r
}

} // verus!
