//! Severity levels, fix kinds and output formats shared by the command-line
//! surface and the linter.

use vstd::prelude::*;

verus! {

/// What to do with a rule or category: suppress it, report it as a warning,
/// or report it as an error.
#[derive(Clone, Copy, Debug, PartialEq, Eq, Structural)]
pub enum AllowWarnDeny {
    Allow,
    Warn,
    Deny,
}

impl AllowWarnDeny {
    /// True for the severities that surface a report at all.
    pub fn is_warn_deny(self) -> (r: bool)
        ensures
            r == (self != AllowWarnDeny::Allow),
    {
        !matches!(self, AllowWarnDeny::Allow)
    }

    /// The severity's command-line spelling, as it appears in messages.
    pub fn as_str(self) -> (r: &'static str)
        ensures
            self is Allow ==> r@ == "allow"@,
            self is Warn ==> r@ == "warn"@,
            self is Deny ==> r@ == "deny"@,
    {
        match self {
            AllowWarnDeny::Allow => "allow",
            AllowWarnDeny::Warn => "warn",
            AllowWarnDeny::Deny => "deny",
        }
    }
}

/// The severity a command-line word names, if any: `allow`, `warn`, and
/// `deny` or `error`.
pub open spec fn spec_severity_of_word(w: Seq<char>) -> Option<AllowWarnDeny> {
    if w == "allow"@ {
        Some(AllowWarnDeny::Allow)
    } else if w == "warn"@ {
        Some(AllowWarnDeny::Warn)
    } else if w == "deny"@ || w == "error"@ {
        Some(AllowWarnDeny::Deny)
    } else {
        None
    }
}

/// Parses a severity word from the command line.
pub fn severity_of_word(w: &String) -> (r: Option<AllowWarnDeny>)
    ensures
        r == spec_severity_of_word(w@),
{
    if *w == "allow".to_owned() {
        Some(AllowWarnDeny::Allow)
    } else if *w == "warn".to_owned() {
        Some(AllowWarnDeny::Warn)
    } else if *w == "deny".to_owned() || *w == "error".to_owned() {
        Some(AllowWarnDeny::Deny)
    } else {
        None
    }
}

/// Which kinds of automatic fixes may be applied.
#[derive(Clone, Copy, Debug, PartialEq, Eq, Structural)]
pub struct FixKind {
    /// Apply plain fixes, which never change program behaviour.
    pub fix: bool,
    /// Apply suggestions, which may change program behaviour.
    pub suggestion: bool,
    /// Also apply fixes and suggestions marked dangerous.
    pub dangerous: bool,
}

impl FixKind {
    /// No fixing at all.
    pub fn none() -> (k: FixKind)
        ensures
            k.is_none_spec(),
    {
        FixKind { fix: false, suggestion: false, dangerous: false }
    }

    pub open spec fn is_none_spec(self) -> bool {
        !self.fix && !self.suggestion && !self.dangerous
    }

    /// True when no kind of fix is enabled.
    pub fn is_none(self) -> (r: bool)
        ensures
            r == self.is_none_spec(),
    {
        !self.fix && !self.suggestion && !self.dangerous
    }

    /// True when some kind of fix is enabled.
    pub fn is_some(self) -> (r: bool)
        ensures
            r == !self.is_none_spec(),
    {
        self.fix || self.suggestion || self.dangerous
    }
}

/// Options the linter itself consumes: the fix kinds to apply and whether
/// unused disable directives are reported, and at which severity.
#[derive(Clone, Copy, Debug, PartialEq, Eq, Structural)]
pub struct LintOptions {
    pub fix: FixKind,
    pub report_unused_directive: Option<AllowWarnDeny>,
}

impl LintOptions {
    /// The default options: no fixing, no unused-directive reports.
    pub fn new() -> (o: LintOptions)
        ensures
            o.fix.is_none_spec(),
            o.report_unused_directive is None,
    {
        LintOptions { fix: FixKind::none(), report_unused_directive: None }
    }
}

/// The output format selected with the format option.
#[derive(Clone, Copy, Debug, PartialEq, Eq, Structural)]
pub enum OutputFormat {
    Default,
    Json,
    Checkstyle,
    Github,
    Gitlab,
    Unix,
    Stylish,
    Junit,
}

/// The output format a command-line word names, if any.
pub open spec fn spec_format_of_word(w: Seq<char>) -> Option<OutputFormat> {
    if w == "default"@ {
        Some(OutputFormat::Default)
    } else if w == "json"@ {
        Some(OutputFormat::Json)
    } else if w == "checkstyle"@ {
        Some(OutputFormat::Checkstyle)
    } else if w == "github"@ {
        Some(OutputFormat::Github)
    } else if w == "gitlab"@ {
        Some(OutputFormat::Gitlab)
    } else if w == "unix"@ {
        Some(OutputFormat::Unix)
    } else if w == "stylish"@ {
        Some(OutputFormat::Stylish)
    } else if w == "junit"@ {
        Some(OutputFormat::Junit)
    } else {
        None
    }
}

/// Parses a format word from the command line.
pub fn format_of_word(w: &String) -> (r: Option<OutputFormat>)
    ensures
        r == spec_format_of_word(w@),
{
    if *w == "default".to_owned() {
        Some(OutputFormat::Default)
    } else if *w == "json".to_owned() {
        Some(OutputFormat::Json)
    } else if *w == "checkstyle".to_owned() {
        Some(OutputFormat::Checkstyle)
    } else if *w == "github".to_owned() {
        Some(OutputFormat::Github)
    } else if *w == "gitlab".to_owned() {
        Some(OutputFormat::Gitlab)
    } else if *w == "unix".to_owned() {
        Some(OutputFormat::Unix)
    } else if *w == "stylish".to_owned() {
        Some(OutputFormat::Stylish)
    } else if *w == "junit".to_owned() {
        Some(OutputFormat::Junit)
    } else {
        None
    }
}

} // verus!
