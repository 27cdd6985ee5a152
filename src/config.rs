//! Configuration values that the compiler reads.
use vstd::prelude::*;
use vstd::string::*;

verus! {

pub const QUALIFIER: &'static str = "dev";

pub const APP_NAME: &'static str = "Calar";

pub const ORG_NAME: &'static str = "calar";

/// Service configuration.
#[derive(Clone, Debug)]
pub struct Config {
    pub app_name: String,
    pub addr: String,
    pub port: u16,
    pub tracto_prefix: String,
    /// Marker that a lesson name holds when the lesson belongs to the translator section.
    pub translator_substr: String,
    pub semester: Semester,
}

/// The current academic term, as (month, day) pairs of the current year.
#[derive(Clone, Copy, Debug)]
pub struct Semester {
    pub end_md: (u32, u32),
    pub start_md: (u32, u32),
}

impl Default for Config {
    fn default() -> (r: Self)
        ensures
            r.app_name@ == APP_NAME@,
            r.addr@ == "0.0.0.0"@,
            r.port == 1414,
            r.tracto_prefix@ == "https://scribaproject.space/api/v1.0"@,
            r.translator_substr@ == "(перевод.)"@,
            r.semester == (Semester { start_md: (2, 6), end_md: (5, 31) }),
    {
        Config {
            app_name: String::from_str(APP_NAME),
            addr: String::from_str("0.0.0.0"),
            port: 1414,
            tracto_prefix: String::from_str("https://scribaproject.space/api/v1.0"),
            translator_substr: String::from_str("(перевод.)"),
            semester: Semester { start_md: (2, 6), end_md: (5, 31) },
        }
    }
}

} // verus!
