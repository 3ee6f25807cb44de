//! The settings of a scan, their validation and their report.

use crate::text::{decimal, push_decimal, push_str, to_text};
use vstd::prelude::*;

verus! {

/// The settings of a scan.
#[derive(Debug)]
pub struct ScanConfig {
    /// Path of the list of domains, one to a line.
    pub input_file: String,
    /// Path of the rules file.
    pub rules_file: String,
    /// How many domains are scanned at a time.
    pub concurrency: usize,
    /// 0 = error, 1 = warn, 2 = info, 3 = debug, 4 = trace.
    pub verbosity: u8,
    /// Whether the work is handed out to workers.
    pub distributed: bool,
    /// Path of the output file.
    pub output_file: Option<String>,
    /// Path of the findings database.
    pub db_path: String,
    /// DNS timeout in seconds.
    pub dns_timeout: u64,
    /// HTTP timeout in seconds.
    pub http_timeout: u64,
    /// TCP connect timeout in seconds.
    pub connect_timeout: u64,
    /// Size of the DNS cache.
    pub dns_cache_size: usize,
    /// Minimal output.
    pub quiet: bool,
    /// Resolve only, send no HTTP requests.
    pub dns_only: bool,
    /// Verbose output.
    pub verbose: bool,
}

/// The settings of a scan as plain values.
pub struct ScanConfigView {
    pub input_file: Seq<char>,
    pub rules_file: Seq<char>,
    pub concurrency: nat,
    pub verbosity: nat,
    pub distributed: bool,
    pub output_file: Option<Seq<char>>,
    pub db_path: Seq<char>,
    pub dns_timeout: nat,
    pub http_timeout: nat,
    pub connect_timeout: nat,
    pub dns_cache_size: nat,
    pub quiet: bool,
    pub dns_only: bool,
    pub verbose: bool,
}

impl View for ScanConfig {
    type V = ScanConfigView;

    open spec fn view(&self) -> ScanConfigView {
        ScanConfigView {
            input_file: self.input_file@,
            rules_file: self.rules_file@,
            concurrency: self.concurrency as nat,
            verbosity: self.verbosity as nat,
            distributed: self.distributed,
            output_file: match self.output_file {
                Some(p) => Some(p@),
                None => None,
            },
            db_path: self.db_path@,
            dns_timeout: self.dns_timeout as nat,
            http_timeout: self.http_timeout as nat,
            connect_timeout: self.connect_timeout as nat,
            dns_cache_size: self.dns_cache_size as nat,
            quiet: self.quiet,
            dns_only: self.dns_only,
            verbose: self.verbose,
        }
    }
}

impl Clone for ScanConfig {
    fn clone(&self) -> (r: Self)
        ensures
            r == *self,
    {
        ScanConfig {
            input_file: self.input_file.clone(),
            rules_file: self.rules_file.clone(),
            concurrency: self.concurrency,
            verbosity: self.verbosity,
            distributed: self.distributed,
            output_file: match &self.output_file {
                Some(p) => Some(p.clone()),
                None => None,
            },
            db_path: self.db_path.clone(),
            dns_timeout: self.dns_timeout,
            http_timeout: self.http_timeout,
            connect_timeout: self.connect_timeout,
            dns_cache_size: self.dns_cache_size,
            quiet: self.quiet,
            dns_only: self.dns_only,
            verbose: self.verbose,
        }
    }
}

impl Default for ScanConfig {
    fn default() -> (c: Self)
        ensures
            c@ == (ScanConfigView {
                input_file: "domains.txt"@,
                rules_file: "rules.yaml"@,
                concurrency: 10,
                verbosity: 0,
                distributed: false,
                output_file: Some("output.txt"@),
                db_path: "results.sqlite"@,
                dns_timeout: 5,
                http_timeout: 10,
                connect_timeout: 5,
                dns_cache_size: 10000,
                quiet: false,
                dns_only: false,
                verbose: false,
            }),
    {
        ScanConfig {
            input_file: "domains.txt".to_owned(),
            rules_file: "rules.yaml".to_owned(),
            concurrency: 10,
            verbosity: 0,
            distributed: false,
            output_file: Some("output.txt".to_owned()),
            db_path: "results.sqlite".to_owned(),
            dns_timeout: 5,
            http_timeout: 10,
            connect_timeout: 5,
            dns_cache_size: 10000,
            quiet: false,
            dns_only: false,
            verbose: false,
        }
    }
}

/// Why a configuration cannot be used.
#[derive(Debug)]
pub enum ConfigError {
    /// The list of domains does not exist.
    InputFileMissing { path: String },
    /// The rules file does not exist.
    RulesFileMissing { path: String },
    /// No domain could be scanned at a time.
    ZeroConcurrency,
}

/// An error of validation as plain values.
pub enum ConfigErrorView {
    InputFileMissing { path: Seq<char> },
    RulesFileMissing { path: Seq<char> },
    ZeroConcurrency,
}

impl View for ConfigError {
    type V = ConfigErrorView;

    open spec fn view(&self) -> ConfigErrorView {
        match self {
            ConfigError::InputFileMissing { path } => ConfigErrorView::InputFileMissing {
                path: path@,
            },
            ConfigError::RulesFileMissing { path } => ConfigErrorView::RulesFileMissing {
                path: path@,
            },
            ConfigError::ZeroConcurrency => ConfigErrorView::ZeroConcurrency,
        }
    }
}

impl ConfigErrorView {
    /// The text that describes the error.
    pub open spec fn message(self) -> Seq<char> {
        match self {
            ConfigErrorView::InputFileMissing { path } => "input file does not exist: "@ + path,
            ConfigErrorView::RulesFileMissing { path } => "Rules file does not exist: "@ + path,
            ConfigErrorView::ZeroConcurrency => "Invalid concurrency value: must be greater than 0"@,
        }
    }
}

impl ConfigError {
    /// The text that describes the error.
    pub fn message(&self) -> (s: String)
        ensures
            s@ == self@.message(),
    {
        let mut out: Vec<char> = Vec::new();
        match self {
            ConfigError::InputFileMissing { path } => {
                push_str(&mut out, "input file does not exist: ");
                push_str(&mut out, path.as_str());
            },
            ConfigError::RulesFileMissing { path } => {
                push_str(&mut out, "Rules file does not exist: ");
                push_str(&mut out, path.as_str());
            },
            ConfigError::ZeroConcurrency => {
                push_str(&mut out, "Invalid concurrency value: must be greater than 0");
            },
        }
        to_text(&out)
    }
}

/// What validation answers for a configuration, given whether its two
/// files exist: the first fault in the order input file, rules file,
/// concurrency.
pub open spec fn validation(c: ScanConfigView, input_exists: bool, rules_exists: bool) -> Result<
    (),
    ConfigErrorView,
> {
    if !input_exists {
        Err(ConfigErrorView::InputFileMissing { path: c.input_file })
    } else if !rules_exists {
        Err(ConfigErrorView::RulesFileMissing { path: c.rules_file })
    } else if c.concurrency == 0 {
        Err(ConfigErrorView::ZeroConcurrency)
    } else {
        Ok(())
    }
}

/// How important a line of the log is.
#[derive(Debug, Clone, Copy, PartialEq, Eq, Structural)]
pub enum LogLevel {
    Error,
    Warn,
    Info,
    Debug,
    Trace,
}

/// One line for the log.
#[derive(Debug)]
pub struct LogLine {
    pub level: LogLevel,
    pub message: String,
}

/// The text `true` or `false`.
pub open spec fn bool_text(b: bool) -> Seq<char> {
    if b {
        "true"@
    } else {
        "false"@
    }
}

/// The text that the `Debug` form of `str` gives for a text: the text in
/// double quotes, with escapes.
pub uninterp spec fn quoted(s: Seq<char>) -> Seq<char>;

/// `<str as Debug>::fmt`, through `format!`: the text in double quotes,
/// with the characters that need it escaped. The escapes are not spelled
/// out here; the result carries the name `quoted`.
#[verifier::external_body]
fn quote(s: &str) -> (r: String)
    ensures
        r@ == quoted(s@),
{
    format!("{:?}", s)
}

/// The `Debug` form of an optional text.
pub open spec fn option_text(o: Option<Seq<char>>) -> Seq<char> {
    match o {
        Some(s) => "Some("@ + quoted(s) + ")"@,
        None => "None"@,
    }
}

/// The messages that report a configuration, in order.
pub open spec fn config_messages(c: ScanConfigView) -> Seq<Seq<char>> {
    seq![
        "Configuration:"@,
        "  input file: "@ + c.input_file,
        "  rules file: "@ + c.rules_file,
        "  concurrency: "@ + decimal(c.concurrency),
        "  DNS timeout: "@ + decimal(c.dns_timeout) + "s"@,
        "  HTTP timeout: "@ + decimal(c.http_timeout) + "s"@,
        "  connect timeout: "@ + decimal(c.connect_timeout) + "s"@,
        "  verbosity: "@ + decimal(c.verbosity),
        "  distributed: "@ + bool_text(c.distributed),
        "  output file: "@ + option_text(c.output_file),
        "  database: "@ + c.db_path,
        "  DNS cache size: "@ + decimal(c.dns_cache_size),
        "  quiet mode: "@ + bool_text(c.quiet),
        "  DNS only: "@ + bool_text(c.dns_only),
        "  verbose: "@ + bool_text(c.verbose),
        "Configuration validated successfully"@,
    ]
}

fn text_line(label: &str, value: &str, level: LogLevel) -> (l: LogLine)
    ensures
        l.level == level,
        l.message@ == label@ + value@,
{
    let mut out: Vec<char> = Vec::new();
    push_str(&mut out, label);
    push_str(&mut out, value);
    LogLine { level, message: to_text(&out) }
}

fn number_line(label: &str, value: u64, unit: &str) -> (l: LogLine)
    ensures
        l.level == LogLevel::Info,
        l.message@ == label@ + decimal(value as nat) + unit@,
{
    let mut out: Vec<char> = Vec::new();
    push_str(&mut out, label);
    push_decimal(&mut out, value);
    push_str(&mut out, unit);
    LogLine { level: LogLevel::Info, message: to_text(&out) }
}

fn bool_line(label: &str, value: bool) -> (l: LogLine)
    ensures
        l.level == LogLevel::Info,
        l.message@ == label@ + bool_text(value),
{
    text_line(
        label,
        if value {
            "true"
        } else {
            "false"
        },
        LogLevel::Info,
    )
}

fn option_line(label: &str, value: &Option<String>) -> (l: LogLine)
    ensures
        l.level == LogLevel::Info,
        l.message@ == label@ + option_text(
            match value {
                Some(s) => Some(s@),
                None => None,
            },
        ),
{
    let mut out: Vec<char> = Vec::new();
    push_str(&mut out, label);
    match value {
        Some(s) => {
            let q = quote(s.as_str());
            push_str(&mut out, "Some(");
            push_str(&mut out, q.as_str());
            push_str(&mut out, ")");
            assert(out@ == label@ + ("Some("@ + quoted(s@) + ")"@));
        },
        None => {
            push_str(&mut out, "None");
        },
    }
    LogLine { level: LogLevel::Info, message: to_text(&out) }
}

impl ScanConfig {
    /// The settings for a scan of `input_file` with the rules of
    /// `rules_file`, the others at their usual values.
    pub fn new(input_file: String, rules_file: String) -> (c: Self)
        ensures
            c@ == (ScanConfigView {
                input_file: input_file@,
                rules_file: rules_file@,
                concurrency: 50,
                verbosity: 2,
                distributed: false,
                output_file: None,
                db_path: "data/fatt.db"@,
                dns_timeout: 5,
                http_timeout: 10,
                connect_timeout: 5,
                dns_cache_size: 10000,
                quiet: false,
                dns_only: false,
                verbose: false,
            }),
    {
        ScanConfig {
            input_file,
            rules_file,
            concurrency: 50,
            verbosity: 2,
            distributed: false,
            output_file: None,
            db_path: "data/fatt.db".to_owned(),
            dns_timeout: 5,
            http_timeout: 10,
            connect_timeout: 5,
            dns_cache_size: 10000,
            quiet: false,
            dns_only: false,
            verbose: false,
        }
    }

    /// Checks the settings before a scan, given whether the list of
    /// domains and the rules file exist. The first fault found is
    /// returned: a missing list, a missing rules file, a concurrency of
    /// zero.
    pub fn validate(&self, input_exists: bool, rules_exists: bool) -> (r: Result<(), ConfigError>)
        ensures
            match r {
                Ok(()) => validation(self@, input_exists, rules_exists) == Ok::<(), ConfigErrorView>(()),
                Err(e) => validation(self@, input_exists, rules_exists) == Err::<(), ConfigErrorView>(
                    e@,
                ),
            },
    {
        if !input_exists {
            return Err(ConfigError::InputFileMissing { path: self.input_file.clone() });
        }
        if !rules_exists {
            return Err(ConfigError::RulesFileMissing { path: self.rules_file.clone() });
        }
        if self.concurrency == 0 {
            return Err(ConfigError::ZeroConcurrency);
        }
        Ok(())
    }

    /// The lines that report the settings: one for each at the level of
    /// information, and a closing line at the level of debugging.
    pub fn log_config(&self) -> (lines: Vec<LogLine>)
        ensures
            lines@.map_values(|l: LogLine| l.message@) == config_messages(self@),
            forall|i: int| 0 <= i < 15 ==> (#[trigger] lines@[i]).level == LogLevel::Info,
            lines@[15].level == LogLevel::Debug,
    {
        let mut lines: Vec<LogLine> = Vec::new();
        lines.push(text_line("Configuration:", "", LogLevel::Info));
        lines.push(text_line("  input file: ", self.input_file.as_str(), LogLevel::Info));
        lines.push(text_line("  rules file: ", self.rules_file.as_str(), LogLevel::Info));
        lines.push(number_line("  concurrency: ", self.concurrency as u64, ""));
        lines.push(number_line("  DNS timeout: ", self.dns_timeout, "s"));
        lines.push(number_line("  HTTP timeout: ", self.http_timeout, "s"));
        lines.push(number_line("  connect timeout: ", self.connect_timeout, "s"));
        lines.push(number_line("  verbosity: ", self.verbosity as u64, ""));
        lines.push(bool_line("  distributed: ", self.distributed));
        lines.push(option_line("  output file: ", &self.output_file));
        lines.push(text_line("  database: ", self.db_path.as_str(), LogLevel::Info));
        lines.push(number_line("  DNS cache size: ", self.dns_cache_size as u64, ""));
        lines.push(bool_line("  quiet mode: ", self.quiet));
        lines.push(bool_line("  DNS only: ", self.dns_only));
        lines.push(bool_line("  verbose: ", self.verbose));
        lines.push(text_line("Configuration validated successfully", "", LogLevel::Debug));
        proof {
            reveal_strlit("");
            let got = lines@.map_values(|l: LogLine| l.message@);
            let want = config_messages(self@);
            assert(got.len() == want.len());
            assert forall|i: int| 0 <= i < 16 implies got[i] =~= want[i] by {}
            assert(got =~= want);
        }
        lines
    }
}

} // verus!
