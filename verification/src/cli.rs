//! Command-line contract of the worker process: one required script path,
//! then optional `--redis-url` and `--function-id` flags, each taking a value.

use vstd::prelude::*;
use vstd::string::StringExecFns;

verus! {

/// Parsed command-line arguments of the worker process.
pub struct CliArgs {
    /// Path of the script file to execute.
    pub file_path: String,
    /// Transport endpoint for the log-streaming sidecar, if given.
    pub redis_url: Option<String>,
    /// Invocation identifier used to name the streaming channel, if given.
    pub function_id: Option<String>,
}

/// A malformed command line, reported before any execution environment is
/// created; always fatal to the process.
#[derive(Debug)]
pub enum UsageError {
    /// The required script path argument is missing.
    MissingScriptPath,
    /// `--redis-url` appeared as the last argument, with no value after it.
    RedisUrlNeedsValue,
    /// `--function-id` appeared as the last argument, with no value after it.
    FunctionIdNeedsValue,
    /// An argument that is not a recognized flag.
    UnknownArgument(String),
}

/// The diagnostic line each usage error is reported with.
pub open spec fn usage_message_of(e: UsageError) -> Seq<char> {
    match e {
        UsageError::MissingScriptPath => "Usage: <program> <path-to-script-file> [--redis-url <url>] [--function-id <id>]"@,
        UsageError::RedisUrlNeedsValue => "--redis-url requires a value"@,
        UsageError::FunctionIdNeedsValue => "--function-id requires a value"@,
        UsageError::UnknownArgument(a) => "Unknown argument: "@ + a@,
    }
}

impl UsageError {
    /// The single human-readable line this error is reported with.
    pub fn message(&self) -> (r: String)
        ensures
            r@ == usage_message_of(*self),
    {
        match self {
            UsageError::MissingScriptPath => String::from_str(
                "Usage: <program> <path-to-script-file> [--redis-url <url>] [--function-id <id>]",
            ),
            UsageError::RedisUrlNeedsValue => String::from_str("--redis-url requires a value"),
            UsageError::FunctionIdNeedsValue => String::from_str("--function-id requires a value"),
            UsageError::UnknownArgument(a) => {
                let mut out = String::from_str("Unknown argument: ");
                out.append(a.as_str());
                out
            },
        }
    }
}

/// The abstract outcome of parsing an argument list.
pub enum CliOutcome {
    Accepted { path: Seq<char>, redis_url: Option<Seq<char>>, function_id: Option<Seq<char>> },
    MissingPath,
    NeedsValue { flag: Seq<char> },
    Unknown { argument: Seq<char> },
}

pub open spec fn redis_url_flag() -> Seq<char> {
    "--redis-url"@
}

pub open spec fn function_id_flag() -> Seq<char> {
    "--function-id"@
}

/// Folds the flag arguments from index `i` on, with the values accepted so
/// far; a later occurrence of a flag overwrites an earlier one.
pub open spec fn fold_flags(
    args: Seq<Seq<char>>,
    i: int,
    redis_url: Option<Seq<char>>,
    function_id: Option<Seq<char>>,
) -> CliOutcome
    decreases args.len() - i,
{
    if i >= args.len() {
        CliOutcome::Accepted { path: args[1], redis_url, function_id }
    } else if args[i] == redis_url_flag() {
        if i + 1 < args.len() {
            fold_flags(args, i + 2, Some(args[i + 1]), function_id)
        } else {
            CliOutcome::NeedsValue { flag: args[i] }
        }
    } else if args[i] == function_id_flag() {
        if i + 1 < args.len() {
            fold_flags(args, i + 2, redis_url, Some(args[i + 1]))
        } else {
            CliOutcome::NeedsValue { flag: args[i] }
        }
    } else {
        CliOutcome::Unknown { argument: args[i] }
    }
}

/// What parsing an argument list (program name included, at index 0) yields.
pub open spec fn parse_args_spec(args: Seq<Seq<char>>) -> CliOutcome {
    if args.len() < 2 {
        CliOutcome::MissingPath
    } else {
        fold_flags(args, 2, None, None)
    }
}

/// Parse the argument list handed to the process: `args[0]` is the program
/// name, `args[1]` the script path, and the rest optional flags. Exactly the
/// malformed shapes named by `UsageError` are rejected.
pub fn parse_args(args: &Vec<String>) -> (r: Result<CliArgs, UsageError>)
    ensures
        parse_args_spec(args.deep_view()) matches CliOutcome::Accepted {
            path,
            redis_url,
            function_id,
        } ==> (r matches Ok(c) && c.file_path@ == path && c.redis_url.deep_view() == redis_url
            && c.function_id.deep_view() == function_id),
        parse_args_spec(args.deep_view()) is MissingPath ==> r matches Err(
            UsageError::MissingScriptPath,
        ),
        parse_args_spec(args.deep_view()) matches CliOutcome::NeedsValue { flag } ==> (if flag
            == redis_url_flag() {
            r matches Err(UsageError::RedisUrlNeedsValue)
        } else {
            r matches Err(UsageError::FunctionIdNeedsValue)
        }),
        parse_args_spec(args.deep_view()) matches CliOutcome::Unknown { argument } ==> (r matches Err(
            UsageError::UnknownArgument(a),
        ) && a@ == argument),
{
    if args.len() < 2 {
        return Err(UsageError::MissingScriptPath);
    }
    let file_path = args[1].clone();
    let mut redis_url: Option<String> = None;
    let mut function_id: Option<String> = None;
    let ru_flag = String::from_str("--redis-url");
    let fid_flag = String::from_str("--function-id");

    let mut i: usize = 2;
    while i < args.len()
        invariant
            2 <= i <= args.len(),
            args.len() >= 2,
            ru_flag@ == redis_url_flag(),
            fid_flag@ == function_id_flag(),
            fold_flags(args.deep_view(), i as int, redis_url.deep_view(), function_id.deep_view())
                == parse_args_spec(args.deep_view()),
            file_path@ == args.deep_view()[1],
        decreases args.len() - i,
    {
        if args[i].eq(&ru_flag) {
            if i + 1 < args.len() {
                redis_url = Some(args[i + 1].clone());
                i = i + 2;
            } else {
                return Err(UsageError::RedisUrlNeedsValue);
            }
        } else if args[i].eq(&fid_flag) {
            if i + 1 < args.len() {
                function_id = Some(args[i + 1].clone());
                i = i + 2;
            } else {
                return Err(UsageError::FunctionIdNeedsValue);
            }
        } else {
            return Err(UsageError::UnknownArgument(args[i].clone()));
        }
    }
    Ok(CliArgs { file_path, redis_url, function_id })
}

} // verus!
