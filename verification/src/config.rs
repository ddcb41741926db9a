//! The parameters of a run, resolved from what the command line gave.

use crate::text::{decimal, decimal_text};
use vstd::prelude::*;
use vstd::string::*;

verus! {

/// The number of units that run at once where the command line names none.
pub const DEFAULT_THREADS: usize = 512;

/// The port of the store where the command line names none.
pub const DEFAULT_MONGO_PORT: u16 = 27017;

/// What the command line gave: each option that may be left out is absent
/// where it was.
#[derive(Clone, Debug, PartialEq, Eq)]
pub struct CliArgs {
    pub csv_files_path: Option<String>,
    pub mongo_host: Option<String>,
    pub mongo_port: Option<u16>,
    pub mongo_db: Option<String>,
    pub mongo_collection: Option<String>,
    pub mongo_user: Option<String>,
    pub mongo_password: Option<String>,
    pub debug: bool,
    pub daily: bool,
    pub download_code: Option<String>,
    pub threads: Option<usize>,
    pub strict: bool,
}

/// The parameters of a run.
#[derive(Clone, Debug, PartialEq, Eq)]
pub struct CliOpts {
    /// The path to the CSV files.
    pub csv_files_path: String,
    /// MongoDB host.
    pub mongo_host: String,
    /// MongoDB port.
    pub mongo_port: u16,
    /// MongoDB database.
    pub mongo_db: String,
    /// MongoDB collection.
    pub mongo_collection: String,
    /// MongoDB user.
    pub mongo_user: String,
    /// MongoDB password.
    pub mongo_password: String,
    /// Whether debug messages are logged.
    pub debug: bool,
    /// Whether the daily update is downloaded instead of reading a directory.
    pub daily: bool,
    /// The code that names the daily update.
    pub download_code: String,
    /// The number of units that may run at once.
    pub threads: usize,
    /// Whether any failure of a file or a batch fails the run.
    pub strict: bool,
}

/// What a [`CliOpts`] holds, as mathematical values.
pub struct OptsView {
    pub csv_files_path: Seq<char>,
    pub mongo_host: Seq<char>,
    pub mongo_port: u16,
    pub mongo_db: Seq<char>,
    pub mongo_collection: Seq<char>,
    pub mongo_user: Seq<char>,
    pub mongo_password: Seq<char>,
    pub debug: bool,
    pub daily: bool,
    pub download_code: Seq<char>,
    pub threads: usize,
    pub strict: bool,
}

impl View for CliOpts {
    type V = OptsView;

    open spec fn view(&self) -> OptsView {
        OptsView {
            csv_files_path: self.csv_files_path@,
            mongo_host: self.mongo_host@,
            mongo_port: self.mongo_port,
            mongo_db: self.mongo_db@,
            mongo_collection: self.mongo_collection@,
            mongo_user: self.mongo_user@,
            mongo_password: self.mongo_password@,
            debug: self.debug,
            daily: self.daily,
            download_code: self.download_code@,
            threads: self.threads,
            strict: self.strict,
        }
    }
}

/// Why the command line does not make the parameters of a run.
#[derive(Clone, Copy, Debug, PartialEq, Eq, Structural)]
pub enum ConfigError {
    /// The daily update is asked for without the code that names it.
    MissingDownloadCode,
    /// No unit at all may run at once.
    NoThreads,
}

/// The text that was given, or the default.
pub open spec fn text_or(given: Option<String>, default: Seq<char>) -> Seq<char> {
    match given {
        Some(text) => text@,
        None => default,
    }
}

/// What is wrong with the command line, if anything.
pub open spec fn args_fault(args: CliArgs) -> Option<ConfigError> {
    if args.daily && text_or(args.download_code, Seq::empty()).len() == 0 {
        Some(ConfigError::MissingDownloadCode)
    } else if args.threads == Some(0usize) {
        Some(ConfigError::NoThreads)
    } else {
        None
    }
}

/// The parameters that the command line makes, with the default in the
/// place of each option that was left out.
pub open spec fn resolved(args: CliArgs) -> OptsView {
    OptsView {
        csv_files_path: text_or(args.csv_files_path, "./data"@),
        mongo_host: text_or(args.mongo_host, "localhost"@),
        mongo_port: match args.mongo_port {
            Some(port) => port,
            None => DEFAULT_MONGO_PORT,
        },
        mongo_db: text_or(args.mongo_db, "whois"@),
        mongo_collection: text_or(args.mongo_collection, "feeds"@),
        mongo_user: text_or(args.mongo_user, Seq::empty()),
        mongo_password: text_or(args.mongo_password, Seq::empty()),
        debug: args.debug,
        daily: args.daily,
        download_code: text_or(args.download_code, Seq::empty()),
        threads: match args.threads {
            Some(threads) => threads,
            None => DEFAULT_THREADS,
        },
        strict: args.strict,
    }
}

/// The address of the store.
pub open spec fn url_text(opts: OptsView) -> Seq<char> {
    if opts.mongo_user.len() == 0 && opts.mongo_password.len() == 0 {
        "mongodb://"@ + opts.mongo_host + ":"@ + decimal_text(opts.mongo_port as nat)
    } else {
        "mongodb://"@ + opts.mongo_user + ":"@ + opts.mongo_password + "@"@ + opts.mongo_host + ":"@
            + decimal_text(opts.mongo_port as nat)
    }
}

/// The text that was given, or the default.
fn given_or(given: Option<String>, default: &str) -> (text: String)
    ensures
        text@ == text_or(given, default@),
{
    match given {
        Some(text) => text,
        None => default.to_owned(),
    }
}

impl CliOpts {
    /// Resolves the parameters of a run from what the command line gave.
    ///
    /// The daily update needs its download code, and at least one unit must
    /// be allowed to run at a time; the first of the two that fails is the
    /// error. Every option that was left out takes its default.
    pub fn parse_cli(args: CliArgs) -> (result: Result<CliOpts, ConfigError>)
        ensures
            match result {
                Ok(opts) => args_fault(args) is None && opts@ == resolved(args),
                Err(e) => args_fault(args) == Some(e),
            },
    {
        let download_code = given_or(args.download_code, "");
        proof {
            reveal_strlit("");
            assert(""@ =~= Seq::<char>::empty());
        }
        if args.daily && download_code.as_str().is_empty() {
            return Err(ConfigError::MissingDownloadCode);
        }
        let threads = match args.threads {
            Some(threads) => threads,
            None => DEFAULT_THREADS,
        };
        if threads == 0 {
            return Err(ConfigError::NoThreads);
        }
        Ok(
            CliOpts {
                csv_files_path: given_or(args.csv_files_path, "./data"),
                mongo_host: given_or(args.mongo_host, "localhost"),
                mongo_port: match args.mongo_port {
                    Some(port) => port,
                    None => DEFAULT_MONGO_PORT,
                },
                mongo_db: given_or(args.mongo_db, "whois"),
                mongo_collection: given_or(args.mongo_collection, "feeds"),
                mongo_user: given_or(args.mongo_user, ""),
                mongo_password: given_or(args.mongo_password, ""),
                debug: args.debug,
                daily: args.daily,
                download_code,
                threads,
                strict: args.strict,
            },
        )
    }

    /// The address of the store: host and port, with the user and the
    /// password before them where either is given.
    pub fn mongodb_url(&self) -> (url: String)
        ensures
            url@ == url_text(self@),
    {
        let mut url = "mongodb://".to_owned();
        if !(self.mongo_user.as_str().is_empty() && self.mongo_password.as_str().is_empty()) {
            url.append(self.mongo_user.as_str());
            url.append(":");
            url.append(self.mongo_password.as_str());
            url.append("@");
        }
        url.append(self.mongo_host.as_str());
        url.append(":");
        url.append(decimal(self.mongo_port as u32).as_str());
        url
    }
}

} // verus!
