//! The command line: what the user asks for, read from the arguments.

use vstd::prelude::*;
use crate::text::{
    after_prefix, chars_of, parse_unsigned, parse_usize, push_str, starts_with, str_eq, string_of,
    strs,
};

verus! {

/// The version of the program.
pub const VERSION: &'static str = "0.1.0";

/// What stands before the version in the general help.
pub const HELP_TOP_HEAD: &'static str = "git-insights v";

/// What stands after the version in the general help.
pub const HELP_TOP_BODY: &'static str = "\n\nA CLI tool to generate Git repo stats and insights (no dependencies).\n\nUSAGE:\n  git-insights <COMMAND> [OPTIONS]\n\nCOMMANDS:\n  stats           Show repository stats (surviving LOC, commits, files)\n  json            Export stats to git-insights.json\n  user <name>     Show insights for a specific user\n  help            Show this help\n  version         Show version information\n\nGLOBAL OPTIONS:\n  -h, --help      Show help\n  -v, --version   Show version\n\nEXAMPLES:\n  git-insights stats\n  git-insights stats --by-email\n  git-insights json\n  git-insights user alice\n\nSee 'git-insights <COMMAND> --help' for command-specific options.";

/// The help for `stats`.
pub const HELP_STATS: &'static str = "git-insights stats\n\nCompute repository stats using a gitfame-like method:\n- Surviving LOC via git blame --line-porcelain HEAD\n- Commits via git shortlog -s -e HEAD\n- Only text files considered (git grep -I --name-only . HEAD AND ls-files)\n- Clean git commands (no pager), no dependencies\n\nUSAGE:\n  git-insights stats [OPTIONS]\n\nOPTIONS:\n  -e, --by-email  Group by \"Name <email>\" (default groups by name only)\n  -h, --help      Show this help\n\nEXAMPLES:\n  git-insights stats\n  git-insights stats --by-email";

/// The help for `json`.
pub const HELP_JSON: &'static str = "git-insights json\n\nExport stats to a JSON file (git-insights.json) mapping:\n  author -> { loc, commits, files[] }\n\nUSAGE:\n  git-insights json\n\nEXAMPLES:\n  git-insights json";

/// The help for `user`.
pub const HELP_USER: &'static str = "git-insights user\n\nShow insights for a specific user.\n\nDefault behavior:\n- Merged pull request count (via commit message heuristics)\n- Tags where the user authored commits\n\nOwnership mode (per-file \"ownership\" list):\n- Computes surviving LOC per file attributed to this user at HEAD via blame\n- Shows file path, user LOC, file LOC, and ownership percentage\n\nUSAGE:\n  git-insights user <username> [--ownership] [--by-email|-e] [--top N] [--sort loc|pct]\n\nOPTIONS:\n  --ownership       Show per-file ownership table for this user\n  -e, --by-email    Match by email (author-mail) instead of author name\n  --top N           Limit to top N rows (default: 10)\n  --sort loc|pct    Sort by user LOC (loc, default) or percentage (pct)\n  -h, --help        Show this help\n\nEXAMPLES:\n  git-insights user alice\n  git-insights user alice --ownership\n  git-insights user \"alice@example.com\" --ownership --by-email --top 5 --sort pct";

/// What is said where `user` comes without a name.
pub const USER_USAGE: &'static str = "Usage: git-insights user <username> [--ownership] [--by-email|-e] [--top N] [--sort loc|pct]";

/// What a help text is about.
#[derive(Debug, Clone, Copy)]
pub enum HelpTopic {
    Top,
    Stats,
    Json,
    User,
}

/// The help text for `topic`.
pub open spec fn help_text(topic: HelpTopic) -> Seq<char> {
    match topic {
        HelpTopic::Top => HELP_TOP_HEAD@ + VERSION@ + HELP_TOP_BODY@,
        HelpTopic::Stats => HELP_STATS@,
        HelpTopic::Json => HELP_JSON@,
        HelpTopic::User => HELP_USER@,
    }
}

/// The version of the program.
pub fn version_string() -> (v: &'static str)
    ensures
        v@ == VERSION@,
{
    VERSION
}

/// The help text for `topic`.
pub fn render_help(topic: HelpTopic) -> (text: String)
    ensures
        text@ == help_text(topic),
{
    match topic {
        HelpTopic::Top => {
            let mut out: Vec<char> = Vec::new();
            push_str(&mut out, HELP_TOP_HEAD);
            push_str(&mut out, version_string());
            push_str(&mut out, HELP_TOP_BODY);
            string_of(&out)
        },
        HelpTopic::Stats => HELP_STATS.to_owned(),
        HelpTopic::Json => HELP_JSON.to_owned(),
        HelpTopic::User => HELP_USER.to_owned(),
    }
}

/// What the user asks for.
#[derive(Debug)]
pub enum Commands {
    /// Statistics of the repository; authors are told apart by name alone
    /// where `by_name` holds, by name and address where not.
    Stats { by_name: bool },
    /// The statistics as a file.
    Json,
    /// What is known of one user; with `ownership` the files they own, at
    /// most `top` of them, ranked as `sort` says.
    User {
        username: String,
        ownership: bool,
        by_email: bool,
        top: Option<usize>,
        sort: Option<String>,
    },
    /// A help text.
    Help { topic: HelpTopic },
    /// The version.
    Version,
}

/// A command as text.
pub enum CommandsView {
    Stats { by_name: bool },
    Json,
    User {
        username: Seq<char>,
        ownership: bool,
        by_email: bool,
        top: Option<usize>,
        sort: Option<Seq<char>>,
    },
    Help { topic: HelpTopic },
    Version,
}

impl View for Commands {
    type V = CommandsView;

    open spec fn view(&self) -> CommandsView {
        match *self {
            Commands::Stats { by_name } => CommandsView::Stats { by_name },
            Commands::Json => CommandsView::Json,
            Commands::User { username, ownership, by_email, top, sort } => CommandsView::User {
                username: username@,
                ownership,
                by_email,
                top,
                sort: match sort {
                    Some(s) => Some(s@),
                    None => None,
                },
            },
            Commands::Help { topic } => CommandsView::Help { topic },
            Commands::Version => CommandsView::Version,
        }
    }
}

/// The command line, read.
#[derive(Debug)]
pub struct Cli {
    pub command: Commands,
}

impl View for Cli {
    type V = CommandsView;

    open spec fn view(&self) -> CommandsView {
        self.command@
    }
}

/// Whether one of `args` is `needle`.
pub open spec fn has_flag_spec(args: Seq<Seq<char>>, needle: Seq<char>) -> bool {
    exists|i: int| 0 <= i < args.len() && #[trigger] args[i] == needle
}

/// Whether one of the arguments from place `from` on is `needle`.
pub fn has_flag(args: &Vec<String>, from: usize, needle: &str) -> (found: bool)
    requires
        from <= args.len(),
    ensures
        found == has_flag_spec(strs(args@).skip(from as int), needle@),
{
    let ghost rest = strs(args@).skip(from as int);
    let mut i: usize = from;
    while i < args.len()
        invariant
            from <= i <= args.len(),
            rest == strs(args@).skip(from as int),
            forall|j: int| 0 <= j < i - from ==> #[trigger] rest[j] != needle@,
        decreases args.len() - i,
    {
        if str_eq(args[i].as_str(), needle) {
            assert(rest[i - from] == needle@);
            return true;
        }
        i += 1;
    }
    false
}

/// Whether the arguments ask for help.
pub open spec fn wants_help(rest: Seq<Seq<char>>) -> bool {
    has_flag_spec(rest, "-h"@) || has_flag_spec(rest, "--help"@)
}

/// The options of `user`.
pub struct UserOptions {
    pub ownership: bool,
    pub by_email: bool,
    pub top: Option<usize>,
    pub sort: Option<Seq<char>>,
}

/// The options before any argument is read.
pub open spec fn no_options() -> UserOptions {
    UserOptions { ownership: false, by_email: false, top: None, sort: None }
}

/// The number that `s` writes, where it writes one that fits `usize`.
pub open spec fn top_of(s: Seq<char>) -> Option<usize> {
    match parse_unsigned(s, usize::MAX as nat) {
        Some(v) => Some(v as usize),
        None => None,
    }
}

/// `acc` with the limit that `s` writes, where it writes one.
pub open spec fn with_top(acc: UserOptions, s: Seq<char>) -> UserOptions {
    match top_of(s) {
        Some(v) => UserOptions {
            ownership: acc.ownership,
            by_email: acc.by_email,
            top: Some(v),
            sort: acc.sort,
        },
        None => acc,
    }
}

/// `acc` with the ranking `s`.
pub open spec fn with_sort(acc: UserOptions, s: Seq<char>) -> UserOptions {
    UserOptions { ownership: acc.ownership, by_email: acc.by_email, top: acc.top, sort: Some(s) }
}

/// The options that the arguments `rest` give from place `i` on, `acc`
/// being what those before `i` gave. A flag sets its option; `--top` and
/// `--sort` take their value from the next argument, where there is one, or
/// from behind `=`; a later value replaces an earlier one; a limit that is no
/// number, and any other argument, is passed over.
pub open spec fn read_options(rest: Seq<Seq<char>>, i: int, acc: UserOptions) -> UserOptions
    decreases rest.len() - i,
{
    if i < 0 || i >= rest.len() {
        acc
    } else {
        let a = rest[i];
        if a == "--ownership"@ {
            read_options(
                rest,
                i + 1,
                UserOptions {
                    ownership: true,
                    by_email: acc.by_email,
                    top: acc.top,
                    sort: acc.sort,
                },
            )
        } else if a == "--by-email"@ || a == "-e"@ {
            read_options(
                rest,
                i + 1,
                UserOptions {
                    ownership: acc.ownership,
                    by_email: true,
                    top: acc.top,
                    sort: acc.sort,
                },
            )
        } else if a == "--top"@ {
            if i + 1 < rest.len() {
                read_options(rest, i + 2, with_top(acc, rest[i + 1]))
            } else {
                read_options(rest, i + 1, acc)
            }
        } else if starts_with(a, "--top="@) {
            read_options(rest, i + 1, with_top(acc, a.skip("--top="@.len() as int)))
        } else if a == "--sort"@ {
            if i + 1 < rest.len() {
                read_options(rest, i + 2, with_sort(acc, rest[i + 1]))
            } else {
                read_options(rest, i + 1, acc)
            }
        } else if starts_with(a, "--sort="@) {
            read_options(rest, i + 1, with_sort(acc, a.skip("--sort="@.len() as int)))
        } else {
            read_options(rest, i + 1, acc)
        }
    }
}

/// What the arguments `args` ask for, the ranking as it was written.
/// `args[0]` is the program's name. Without a command, and with `-h` or
/// `--help` in its place, the general help is asked for; with `-v` or
/// `--version` the version. A command followed by `-h` or `--help` asks for
/// its help. `user` needs a name. An unknown command is an error that
/// carries the general help.
pub open spec fn parse_spec(args: Seq<Seq<char>>) -> Result<CommandsView, Seq<char>> {
    if args.len() < 2 {
        Ok(CommandsView::Help { topic: HelpTopic::Top })
    } else {
        let c = args[1];
        let rest = args.skip(2);
        if c == "-h"@ || c == "--help"@ {
            Ok(CommandsView::Help { topic: HelpTopic::Top })
        } else if c == "-v"@ || c == "--version"@ {
            Ok(CommandsView::Version)
        } else if c == "stats"@ {
            if wants_help(rest) {
                Ok(CommandsView::Help { topic: HelpTopic::Stats })
            } else {
                Ok(
                    CommandsView::Stats {
                        by_name: !(has_flag_spec(rest, "--by-email"@) || has_flag_spec(
                            rest,
                            "-e"@,
                        )),
                    },
                )
            }
        } else if c == "json"@ {
            if wants_help(rest) {
                Ok(CommandsView::Help { topic: HelpTopic::Json })
            } else {
                Ok(CommandsView::Json)
            }
        } else if c == "user"@ {
            if wants_help(rest) {
                Ok(CommandsView::Help { topic: HelpTopic::User })
            } else if args.len() < 3 {
                Err(USER_USAGE@)
            } else {
                let o = read_options(args.skip(3), 0, no_options());
                Ok(
                    CommandsView::User {
                        username: args[2],
                        ownership: o.ownership,
                        by_email: o.by_email,
                        top: o.top,
                        sort: o.sort,
                    },
                )
            }
        } else {
            Err("Unknown command: "@ + c + "\n"@ + help_text(HelpTopic::Top))
        }
    }
}

/// The view of what a reading of the arguments gave.
pub open spec fn outcome_view(r: Result<Cli, String>) -> Result<CommandsView, Seq<char>> {
    match r {
        Ok(cli) => Ok(cli@),
        Err(e) => Err(e@),
    }
}

/// The limit that `s` writes, where it writes one.
fn read_top(s: &Vec<char>) -> (r: Option<usize>)
    ensures
        r == top_of(s@),
{
    parse_usize(s)
}

/// The options of `user`, read from the arguments from place 3 on.
fn read_user_options(args: &Vec<String>) -> (r: (bool, bool, Option<usize>, Option<String>))
    requires
        args.len() >= 3,
    ensures
        ({
            let o = read_options(strs(args@).skip(3), 0, no_options());
            &&& r.0 == o.ownership
            &&& r.1 == o.by_email
            &&& r.2 == o.top
            &&& match r.3 {
                Some(s) => o.sort == Some(s@),
                None => o.sort is None,
            }
        }),
{
    let ghost rest = strs(args@).skip(3);
    let n = args.len() - 3;
    let mut ownership = false;
    let mut by_email = false;
    let mut top: Option<usize> = None;
    let mut sort: Option<String> = None;
    let mut i: usize = 0;
    while i < n
        invariant
            i <= n,
            n == args.len() - 3,
            rest == strs(args@).skip(3),
            read_options(rest, 0, no_options()) == read_options(
                rest,
                i as int,
                UserOptions {
                    ownership,
                    by_email,
                    top,
                    sort: match sort {
                        Some(s) => Some(s@),
                        None => None,
                    },
                },
            ),
        decreases n - i,
    {
        let a = args[3 + i].as_str();
        assert(rest[i as int] == a@);
        if str_eq(a, "--ownership") {
            ownership = true;
            i += 1;
        } else if str_eq(a, "--by-email") || str_eq(a, "-e") {
            by_email = true;
            i += 1;
        } else if str_eq(a, "--top") {
            if i + 1 < n {
                assert(rest[i + 1] == args@[3 + i + 1]@);
                match read_top(&chars_of(args[3 + i + 1].as_str())) {
                    Some(v) => {
                        top = Some(v);
                    },
                    None => {},
                }
                i += 2;
            } else {
                i += 1;
            }
        } else {
            let chars = chars_of(a);
            match after_prefix(&chars, "--top=") {
                Some(value) => {
                    match read_top(&value) {
                        Some(v) => {
                            top = Some(v);
                        },
                        None => {},
                    }
                    i += 1;
                },
                None => {
                    if str_eq(a, "--sort") {
                        if i + 1 < n {
                            assert(rest[i + 1] == args@[3 + i + 1]@);
                            sort = Some(args[3 + i + 1].clone());
                            i += 2;
                        } else {
                            i += 1;
                        }
                    } else {
                        match after_prefix(&chars, "--sort=") {
                            Some(value) => {
                                sort = Some(string_of(&value));
                                i += 1;
                            },
                            None => {
                                i += 1;
                            },
                        }
                    }
                },
            }
        }
    }
    (ownership, by_email, top, sort)
}

/// What the arguments ask for, the ranking as it was written.
pub fn parse_raw(args: &Vec<String>) -> (r: Result<Cli, String>)
    ensures
        outcome_view(r) == parse_spec(strs(args@)),
{
    let ghost all = strs(args@);
    if args.len() < 2 {
        return Ok(Cli { command: Commands::Help { topic: HelpTopic::Top } });
    }
    let c = args[1].as_str();
    assert(all[1] == c@);
    if str_eq(c, "-h") || str_eq(c, "--help") {
        return Ok(Cli { command: Commands::Help { topic: HelpTopic::Top } });
    }
    if str_eq(c, "-v") || str_eq(c, "--version") {
        return Ok(Cli { command: Commands::Version });
    }
    if str_eq(c, "stats") {
        if has_flag(args, 2, "-h") || has_flag(args, 2, "--help") {
            Ok(Cli { command: Commands::Help { topic: HelpTopic::Stats } })
        } else {
            let by_email = has_flag(args, 2, "--by-email") || has_flag(args, 2, "-e");
            Ok(Cli { command: Commands::Stats { by_name: !by_email } })
        }
    } else if str_eq(c, "json") {
        if has_flag(args, 2, "-h") || has_flag(args, 2, "--help") {
            Ok(Cli { command: Commands::Help { topic: HelpTopic::Json } })
        } else {
            Ok(Cli { command: Commands::Json })
        }
    } else if str_eq(c, "user") {
        if has_flag(args, 2, "-h") || has_flag(args, 2, "--help") {
            Ok(Cli { command: Commands::Help { topic: HelpTopic::User } })
        } else if args.len() < 3 {
            Err(USER_USAGE.to_owned())
        } else {
            let username = args[2].clone();
            assert(all[2] == username@);
            let (ownership, by_email, top, sort) = read_user_options(args);
            Ok(Cli { command: Commands::User { username, ownership, by_email, top, sort } })
        }
    } else {
        let mut out: Vec<char> = Vec::new();
        push_str(&mut out, "Unknown command: ");
        push_str(&mut out, c);
        push_str(&mut out, "\n");
        let help = render_help(HelpTopic::Top);
        push_str(&mut out, help.as_str());
        Err(string_of(&out))
    }
}

/// The lower-case form of `s` as Unicode defines it.
pub uninterp spec fn lowercase_of(s: Seq<char>) -> Seq<char>;

/// `str::to_lowercase` of the standard library: the lower-case form of the
/// string as Unicode defines it, which depends on the string alone.
#[verifier::external_body]
fn to_lowercase(s: &str) -> (r: String)
    ensures
        r@ == lowercase_of(s@),
{
    s.to_lowercase()
}

/// `c` with its ranking, where it has one, in the lower-case form `lowered`.
pub open spec fn with_lowered_sort(c: CommandsView) -> CommandsView {
    match c {
        CommandsView::User { username, ownership, by_email, top, sort } => CommandsView::User {
            username,
            ownership,
            by_email,
            top,
            sort: match sort {
                Some(s) => Some(lowercase_of(s)),
                None => None,
            },
        },
        other => other,
    }
}

/// What is read from `args` once the ranking is in lower case.
pub open spec fn lowered_outcome(r: Result<CommandsView, Seq<char>>) -> Result<
    CommandsView,
    Seq<char>,
> {
    match r {
        Ok(c) => Ok(with_lowered_sort(c)),
        Err(e) => Err(e),
    }
}

impl Cli {
    /// What the arguments `args` ask for: as `parse_spec` says, with the
    /// ranking in lower case.
    pub fn parse_from_args(args: Vec<String>) -> (r: Result<Cli, String>)
        ensures
            outcome_view(r) == lowered_outcome(parse_spec(strs(args@))),
    {
        match parse_raw(&args) {
            Ok(cli) => match cli.command {
                Commands::User { username, ownership, by_email, top, sort } => {
                    let lowered = match sort {
                        Some(s) => Some(to_lowercase(s.as_str())),
                        None => None,
                    };
                    Ok(
                        Cli {
                            command: Commands::User {
                                username,
                                ownership,
                                by_email,
                                top,
                                sort: lowered,
                            },
                        },
                    )
                },
                other => Ok(Cli { command: other }),
            },
            Err(e) => Err(e),
        }
    }
}

} // verus!
