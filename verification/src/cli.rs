//! The command-line grammar: global connection options followed by one
//! subcommand, numeric identifiers as positional arguments.
//!
//! The grammar itself is stated by [`spec_parse`]; the executable parser is
//! proved to return exactly what the grammar says, token for token.

use vstd::prelude::*;
use vstd::string::StrSliceExecFns;

use crate::strutil::str_eq;

verus! {

/// A parsed invocation: the connection options and the command.
#[derive(Debug)]
pub struct Cli {
    pub base_url: Option<String>,
    pub access_token: Option<String>,
    pub command: Commands,
}

/// The subcommands the tool offers.
#[derive(Debug)]
pub enum Commands {
    /// List all courses.
    Courses,
    /// Show course details.
    Course(CourseArgs),
    /// List a course's assignments.
    Assignments(CourseArgs),
    /// Show assignment details and submit work.
    Assignment(AssignmentArgs),
    /// List course announcements.
    Announcements(CourseArgs),
    /// Show grades for a course.
    Grades(CourseArgs),
    /// List upcoming todos.
    Todos,
    /// List course modules.
    Modules(CourseArgs),
    /// Show module items.
    ModuleItems(ModuleArgs),
    /// List course discussions.
    Discussions(CourseArgs),
    /// Show discussion entries.
    DiscussionEntries(DiscussionArgs),
    /// Post to a discussion.
    PostDiscussion(PostDiscussionArgs),
    /// Synchronize remote data into the local store.
    Sync,
}

/// A command that takes one course.
#[derive(Debug)]
pub struct CourseArgs {
    pub course_id: u64,
}

/// A command that takes an assignment, with an optional file to submit.
#[derive(Debug)]
pub struct AssignmentArgs {
    pub course_id: u64,
    pub assignment_id: u64,
    pub file_path: Option<String>,
}

/// A command that takes a module of a course.
#[derive(Debug)]
pub struct ModuleArgs {
    pub course_id: u64,
    pub module_id: u64,
}

/// A command that takes a discussion topic of a course.
#[derive(Debug)]
pub struct DiscussionArgs {
    pub course_id: u64,
    pub topic_id: u64,
}

/// A command that posts a message to a discussion topic.
#[derive(Debug)]
pub struct PostDiscussionArgs {
    pub course_id: u64,
    pub topic_id: u64,
    pub message: String,
}

/// Why an invocation was rejected.
#[derive(Clone, Copy, Debug, PartialEq, Eq, Structural)]
pub enum CliError {
    /// No subcommand was given.
    MissingCommand,
    /// The subcommand word is not one of the grammar's.
    UnknownCommand,
    /// An option that the grammar does not know.
    UnknownOption,
    /// An option stood last, with no value after it.
    MissingValue,
    /// A required positional argument was not given.
    MissingArgument,
    /// A positional argument that should be a number is not one.
    InvalidNumber,
    /// More arguments than the subcommand takes.
    UnexpectedArgument,
}

/// The text of a parsed invocation.
pub ghost struct CliSpec {
    pub base_url: Option<Seq<char>>,
    pub access_token: Option<Seq<char>>,
    pub command: CommandSpec,
}

/// The text of a parsed subcommand.
pub ghost enum CommandSpec {
    Courses,
    Course { course_id: u64 },
    Assignments { course_id: u64 },
    Assignment { course_id: u64, assignment_id: u64, file_path: Option<Seq<char>> },
    Announcements { course_id: u64 },
    Grades { course_id: u64 },
    Todos,
    Modules { course_id: u64 },
    ModuleItems { course_id: u64, module_id: u64 },
    Discussions { course_id: u64 },
    DiscussionEntries { course_id: u64, topic_id: u64 },
    PostDiscussion { course_id: u64, topic_id: u64, message: Seq<char> },
    Sync,
}

impl View for Commands {
    type V = CommandSpec;

    open spec fn view(&self) -> CommandSpec {
        match self {
            Commands::Courses => CommandSpec::Courses,
            Commands::Course(a) => CommandSpec::Course { course_id: a.course_id },
            Commands::Assignments(a) => CommandSpec::Assignments { course_id: a.course_id },
            Commands::Assignment(a) => CommandSpec::Assignment {
                course_id: a.course_id,
                assignment_id: a.assignment_id,
                file_path: crate::models::opt_view(a.file_path),
            },
            Commands::Announcements(a) => CommandSpec::Announcements { course_id: a.course_id },
            Commands::Grades(a) => CommandSpec::Grades { course_id: a.course_id },
            Commands::Todos => CommandSpec::Todos,
            Commands::Modules(a) => CommandSpec::Modules { course_id: a.course_id },
            Commands::ModuleItems(a) => CommandSpec::ModuleItems {
                course_id: a.course_id,
                module_id: a.module_id,
            },
            Commands::Discussions(a) => CommandSpec::Discussions { course_id: a.course_id },
            Commands::DiscussionEntries(a) => CommandSpec::DiscussionEntries {
                course_id: a.course_id,
                topic_id: a.topic_id,
            },
            Commands::PostDiscussion(a) => CommandSpec::PostDiscussion {
                course_id: a.course_id,
                topic_id: a.topic_id,
                message: a.message@,
            },
            Commands::Sync => CommandSpec::Sync,
        }
    }
}

impl View for Cli {
    type V = CliSpec;

    open spec fn view(&self) -> CliSpec {
        CliSpec {
            base_url: crate::models::opt_view(self.base_url),
            access_token: crate::models::opt_view(self.access_token),
            command: self.command@,
        }
    }
}

/// A decimal digit.
pub open spec fn is_digit(c: char) -> bool {
    48 <= c as u32 <= 57
}

/// The value of a decimal digit.
pub open spec fn digit_val(c: char) -> int {
    c as u32 - 48
}

/// Non-empty decimal text.
pub open spec fn is_digits(s: Seq<char>) -> bool {
    s.len() > 0 && forall|i: int| 0 <= i < s.len() ==> is_digit(#[trigger] s[i])
}

/// The number decimal text denotes.
pub open spec fn digits_val(s: Seq<char>) -> int
    decreases s.len(),
{
    if s.len() == 0 {
        0
    } else {
        digits_val(s.drop_last()) * 10 + digit_val(s.last())
    }
}

/// Text that denotes a `u64`: non-empty, all digits, in range.
pub open spec fn parses_u64(s: Seq<char>) -> bool {
    is_digits(s) && digits_val(s) <= u64::MAX
}

proof fn lemma_digits_val_nonneg(s: Seq<char>)
    requires
        forall|i: int| 0 <= i < s.len() ==> is_digit(#[trigger] s[i]),
    ensures
        digits_val(s) >= 0,
    decreases s.len(),
{
    if s.len() > 0 {
        assert forall|i: int| 0 <= i < s.drop_last().len() implies is_digit(
            #[trigger] s.drop_last()[i],
        ) by {
            assert(s.drop_last()[i] == s[i]);
        }
        lemma_digits_val_nonneg(s.drop_last());
    }
}

/// A prefix of digit text never denotes more than the whole.
proof fn lemma_digits_val_prefix_le(s: Seq<char>, i: int)
    requires
        0 <= i <= s.len(),
        forall|j: int| 0 <= j < s.len() ==> is_digit(#[trigger] s[j]),
    ensures
        digits_val(s.take(i)) <= digits_val(s),
    decreases s.len() - i,
{
    if i < s.len() {
        let t = s.take(i + 1);
        assert(t.drop_last() =~= s.take(i));
        assert(t.last() == s[i]);
        assert forall|j: int| 0 <= j < t.len() implies is_digit(#[trigger] t[j]) by {
            assert(t[j] == s[j]);
        }
        lemma_digits_val_nonneg(s.take(i));
        assert(digits_val(s.take(i)) <= digits_val(t));
        lemma_digits_val_prefix_le(s, i + 1);
    } else {
        assert(s.take(i) =~= s);
    }
}

/// Parse decimal text as a `u64`: succeeds exactly on text that denotes one.
pub fn parse_u64(s: &str) -> (r: Result<u64, CliError>)
    ensures
        r is Ok <==> parses_u64(s@),
        r matches Ok(n) ==> n == digits_val(s@),
        r is Err ==> r == Err::<u64, CliError>(CliError::InvalidNumber),
{
    let n = s.unicode_len();
    if n == 0 {
        return Err(CliError::InvalidNumber);
    }
    let mut val: u128 = 0;
    let max64: u128 = 0xffff_ffff_ffff_ffff;
    assert(s@.take(0) =~= Seq::<char>::empty());
    for i in 0..n
        invariant
            n == s@.len(),
            max64 == u64::MAX,
            forall|p: int| 0 <= p < i ==> is_digit(#[trigger] s@[p]),
            val == digits_val(s@.take(i as int)),
            val <= u64::MAX,
    {
        let c = s.get_char(i);
        let u = c as u32;
        if u < 48 || u > 57 {
            assert(!is_digit(s@[i as int]));
            return Err(CliError::InvalidNumber);
        }
        let d: u128 = (u - 48) as u128;
        let nv: u128 = val * 10 + d;
        proof {
            let pre = s@.take(i as int);
            let post = s@.take(i as int + 1);
            assert(post.drop_last() =~= pre);
            assert(post.last() == s@[i as int]);
            assert(nv == digits_val(post));
        }
        if nv > max64 {
            proof {
                if parses_u64(s@) {
                    lemma_digits_val_prefix_le(s@, i as int + 1);
                }
            }
            return Err(CliError::InvalidNumber);
        }
        val = nv;
    }
    proof {
        assert(s@.take(n as int) =~= s@);
    }
    Ok(val as u64)
}

/// What the grammar makes of a token list: the tail of option/value pairs
/// and the subcommand after them. `i` is the next unread token.
pub open spec fn spec_parse_from(
    toks: Seq<Seq<char>>,
    i: int,
    base_url: Option<Seq<char>>,
    access_token: Option<Seq<char>>,
) -> Result<CliSpec, CliError>
    decreases toks.len() - i,
{
    if i >= toks.len() {
        Err(CliError::MissingCommand)
    } else if toks[i] == "--base-url"@ || toks[i] == "-b"@ {
        if i + 1 < toks.len() {
            spec_parse_from(toks, i + 2, Some(toks[i + 1]), access_token)
        } else {
            Err(CliError::MissingValue)
        }
    } else if toks[i] == "--access-token"@ || toks[i] == "-a"@ {
        if i + 1 < toks.len() {
            spec_parse_from(toks, i + 2, base_url, Some(toks[i + 1]))
        } else {
            Err(CliError::MissingValue)
        }
    } else {
        match spec_parse_command(toks, i) {
            Ok(c) => Ok(CliSpec { base_url, access_token, command: c }),
            Err(e) => Err(e),
        }
    }
}

/// What the grammar makes of the subcommand starting at token `i`.
pub open spec fn spec_parse_command(toks: Seq<Seq<char>>, i: int) -> Result<
    CommandSpec,
    CliError,
> {
    let w = toks[i];
    let rest = toks.len() - i - 1;
    if w == "courses"@ {
        if rest == 0 {
            Ok(CommandSpec::Courses)
        } else {
            Err(CliError::UnexpectedArgument)
        }
    } else if w == "todos"@ {
        if rest == 0 {
            Ok(CommandSpec::Todos)
        } else {
            Err(CliError::UnexpectedArgument)
        }
    } else if w == "sync"@ {
        if rest == 0 {
            Ok(CommandSpec::Sync)
        } else {
            Err(CliError::UnexpectedArgument)
        }
    } else if w == "course"@ {
        match spec_one_id(toks, i) {
            Ok(id) => Ok(CommandSpec::Course { course_id: id }),
            Err(e) => Err(e),
        }
    } else if w == "assignments"@ {
        match spec_one_id(toks, i) {
            Ok(id) => Ok(CommandSpec::Assignments { course_id: id }),
            Err(e) => Err(e),
        }
    } else if w == "announcements"@ {
        match spec_one_id(toks, i) {
            Ok(id) => Ok(CommandSpec::Announcements { course_id: id }),
            Err(e) => Err(e),
        }
    } else if w == "grades"@ {
        match spec_one_id(toks, i) {
            Ok(id) => Ok(CommandSpec::Grades { course_id: id }),
            Err(e) => Err(e),
        }
    } else if w == "modules"@ {
        match spec_one_id(toks, i) {
            Ok(id) => Ok(CommandSpec::Modules { course_id: id }),
            Err(e) => Err(e),
        }
    } else if w == "discussions"@ {
        match spec_one_id(toks, i) {
            Ok(id) => Ok(CommandSpec::Discussions { course_id: id }),
            Err(e) => Err(e),
        }
    } else if w == "module-items"@ {
        match spec_two_ids(toks, i) {
            Ok((a, b)) => Ok(CommandSpec::ModuleItems { course_id: a, module_id: b }),
            Err(e) => Err(e),
        }
    } else if w == "discussion-entries"@ {
        match spec_two_ids(toks, i) {
            Ok((a, b)) => Ok(CommandSpec::DiscussionEntries { course_id: a, topic_id: b }),
            Err(e) => Err(e),
        }
    } else if w == "post-discussion"@ {
        if toks.len() - i - 1 < 3 {
            Err(CliError::MissingArgument)
        } else if toks.len() - i - 1 > 3 {
            Err(CliError::UnexpectedArgument)
        } else if !parses_u64(toks[i + 1]) || !parses_u64(toks[i + 2]) {
            Err(CliError::InvalidNumber)
        } else {
            Ok(
                CommandSpec::PostDiscussion {
                    course_id: digits_val(toks[i + 1]) as u64,
                    topic_id: digits_val(toks[i + 2]) as u64,
                    message: toks[i + 3],
                },
            )
        }
    } else if w == "assignment"@ {
        spec_parse_assignment(toks, i)
    } else {
        Err(CliError::UnknownCommand)
    }
}

/// A subcommand that takes exactly one numeric identifier.
pub open spec fn spec_one_id(toks: Seq<Seq<char>>, i: int) -> Result<u64, CliError> {
    let rest = toks.len() - i - 1;
    if rest < 1 {
        Err(CliError::MissingArgument)
    } else if rest > 1 {
        Err(CliError::UnexpectedArgument)
    } else if !parses_u64(toks[i + 1]) {
        Err(CliError::InvalidNumber)
    } else {
        Ok(digits_val(toks[i + 1]) as u64)
    }
}

/// A subcommand that takes exactly two numeric identifiers.
pub open spec fn spec_two_ids(toks: Seq<Seq<char>>, i: int) -> Result<(u64, u64), CliError> {
    let rest = toks.len() - i - 1;
    if rest < 2 {
        Err(CliError::MissingArgument)
    } else if rest > 2 {
        Err(CliError::UnexpectedArgument)
    } else if !parses_u64(toks[i + 1]) || !parses_u64(toks[i + 2]) {
        Err(CliError::InvalidNumber)
    } else {
        Ok((digits_val(toks[i + 1]) as u64, digits_val(toks[i + 2]) as u64))
    }
}

/// The assignment subcommand: two identifiers, then optionally
/// `--file-path` with a value.
pub open spec fn spec_parse_assignment(toks: Seq<Seq<char>>, i: int) -> Result<
    CommandSpec,
    CliError,
> {
    let rest = toks.len() - i - 1;
    if rest < 2 {
        Err(CliError::MissingArgument)
    } else if !parses_u64(toks[i + 1]) || !parses_u64(toks[i + 2]) {
        Err(CliError::InvalidNumber)
    } else if rest == 2 {
        Ok(
            CommandSpec::Assignment {
                course_id: digits_val(toks[i + 1]) as u64,
                assignment_id: digits_val(toks[i + 2]) as u64,
                file_path: None,
            },
        )
    } else if toks[i + 3] != "--file-path"@ {
        Err(CliError::UnknownOption)
    } else if rest == 3 {
        Err(CliError::MissingValue)
    } else if rest > 4 {
        Err(CliError::UnexpectedArgument)
    } else {
        Ok(
            CommandSpec::Assignment {
                course_id: digits_val(toks[i + 1]) as u64,
                assignment_id: digits_val(toks[i + 2]) as u64,
                file_path: Some(toks[i + 4]),
            },
        )
    }
}

/// What the grammar makes of a whole invocation: the leading token is the
/// program's own name, then options, then one subcommand.
pub open spec fn spec_parse(toks: Seq<Seq<char>>) -> Result<CliSpec, CliError> {
    if toks.len() < 1 {
        Err(CliError::MissingCommand)
    } else {
        spec_parse_from(toks, 1, None, None)
    }
}

/// The views of a token list.
pub open spec fn views_of(args: Seq<String>) -> Seq<Seq<char>> {
    args.map_values(|a: String| a@)
}

impl Cli {
    /// Parse an invocation. Returns exactly what the grammar
    /// ([`spec_parse`]) says of the tokens: the same command and values on
    /// success, the same error otherwise.
    pub fn parse_args(args: &Vec<String>) -> (r: Result<Cli, CliError>)
        ensures
            match r {
                Ok(cli) => spec_parse(views_of(args@)) == Ok::<CliSpec, CliError>(cli@),
                Err(e) => spec_parse(views_of(args@)) == Err::<CliSpec, CliError>(e),
            },
    {
        let ghost toks = views_of(args@);
        let n = args.len();
        if n < 1 {
            return Err(CliError::MissingCommand);
        }
        let mut i: usize = 1;
        let mut base_url: Option<String> = None;
        let mut access_token: Option<String> = None;
        loop
            invariant
                n == args.len(),
                toks == views_of(args@),
                1 <= i,
                spec_parse(toks) == spec_parse_from(
                    toks,
                    i as int,
                    crate::models::opt_view(base_url),
                    crate::models::opt_view(access_token),
                ),
            decreases n - i,
        {
            if i >= n {
                return Err(CliError::MissingCommand);
            }
            let w = &args[i];
            if str_eq(w.as_str(), "--base-url") || str_eq(w.as_str(), "-b") {
                if i + 1 < n {
                    base_url = Some(args[i + 1].clone());
                    i = i + 2;
                } else {
                    return Err(CliError::MissingValue);
                }
            } else if str_eq(w.as_str(), "--access-token") || str_eq(w.as_str(), "-a") {
                if i + 1 < n {
                    access_token = Some(args[i + 1].clone());
                    i = i + 2;
                } else {
                    return Err(CliError::MissingValue);
                }
            } else {
                let command = match Self::parse_command(args, i) {
                    Ok(c) => c,
                    Err(e) => {
                        return Err(e);
                    },
                };
                return Ok(Cli { base_url, access_token, command });
            }
        }
    }

    /// Parse the subcommand starting at token `i`.
    #[verifier::rlimit(60)]
    fn parse_command(args: &Vec<String>, i: usize) -> (r: Result<Commands, CliError>)
        requires
            i < args@.len(),
        ensures
            match r {
                Ok(c) => spec_parse_command(views_of(args@), i as int) == Ok::<
                    CommandSpec,
                    CliError,
                >(c@),
                Err(e) => spec_parse_command(views_of(args@), i as int) == Err::<
                    CommandSpec,
                    CliError,
                >(e),
            },
    {
        let w = &args[i];
        let rest = args.len() - i - 1;
        if str_eq(w.as_str(), "courses") {
            if rest == 0 {
                Ok(Commands::Courses)
            } else {
                Err(CliError::UnexpectedArgument)
            }
        } else if str_eq(w.as_str(), "todos") {
            if rest == 0 {
                Ok(Commands::Todos)
            } else {
                Err(CliError::UnexpectedArgument)
            }
        } else if str_eq(w.as_str(), "sync") {
            if rest == 0 {
                Ok(Commands::Sync)
            } else {
                Err(CliError::UnexpectedArgument)
            }
        } else if str_eq(w.as_str(), "course") {
            match Self::parse_one_id(args, i) {
                Ok(id) => Ok(Commands::Course(CourseArgs { course_id: id })),
                Err(e) => Err(e),
            }
        } else if str_eq(w.as_str(), "assignments") {
            match Self::parse_one_id(args, i) {
                Ok(id) => Ok(Commands::Assignments(CourseArgs { course_id: id })),
                Err(e) => Err(e),
            }
        } else if str_eq(w.as_str(), "announcements") {
            match Self::parse_one_id(args, i) {
                Ok(id) => Ok(Commands::Announcements(CourseArgs { course_id: id })),
                Err(e) => Err(e),
            }
        } else if str_eq(w.as_str(), "grades") {
            match Self::parse_one_id(args, i) {
                Ok(id) => Ok(Commands::Grades(CourseArgs { course_id: id })),
                Err(e) => Err(e),
            }
        } else if str_eq(w.as_str(), "modules") {
            match Self::parse_one_id(args, i) {
                Ok(id) => Ok(Commands::Modules(CourseArgs { course_id: id })),
                Err(e) => Err(e),
            }
        } else if str_eq(w.as_str(), "discussions") {
            match Self::parse_one_id(args, i) {
                Ok(id) => Ok(Commands::Discussions(CourseArgs { course_id: id })),
                Err(e) => Err(e),
            }
        } else if str_eq(w.as_str(), "module-items") {
            match Self::parse_two_ids(args, i) {
                Ok((a, b)) => Ok(Commands::ModuleItems(ModuleArgs { course_id: a, module_id: b })),
                Err(e) => Err(e),
            }
        } else if str_eq(w.as_str(), "discussion-entries") {
            match Self::parse_two_ids(args, i) {
                Ok((a, b)) => Ok(
                    Commands::DiscussionEntries(DiscussionArgs { course_id: a, topic_id: b }),
                ),
                Err(e) => Err(e),
            }
        } else if str_eq(w.as_str(), "post-discussion") {
            if rest < 3 {
                Err(CliError::MissingArgument)
            } else if rest > 3 {
                Err(CliError::UnexpectedArgument)
            } else {
                let a = match parse_u64(args[i + 1].as_str()) {
                    Ok(v) => v,
                    Err(e) => {
                        return Err(e);
                    },
                };
                let b = match parse_u64(args[i + 2].as_str()) {
                    Ok(v) => v,
                    Err(e) => {
                        return Err(e);
                    },
                };
                Ok(
                    Commands::PostDiscussion(
                        PostDiscussionArgs {
                            course_id: a,
                            topic_id: b,
                            message: args[i + 3].clone(),
                        },
                    ),
                )
            }
        } else if str_eq(w.as_str(), "assignment") {
            if rest < 2 {
                Err(CliError::MissingArgument)
            } else {
                let a = match parse_u64(args[i + 1].as_str()) {
                    Ok(v) => v,
                    Err(e) => {
                        return Err(e);
                    },
                };
                let b = match parse_u64(args[i + 2].as_str()) {
                    Ok(v) => v,
                    Err(e) => {
                        return Err(e);
                    },
                };
                if rest == 2 {
                    Ok(
                        Commands::Assignment(
                            AssignmentArgs { course_id: a, assignment_id: b, file_path: None },
                        ),
                    )
                } else if !str_eq(args[i + 3].as_str(), "--file-path") {
                    Err(CliError::UnknownOption)
                } else if rest == 3 {
                    Err(CliError::MissingValue)
                } else if rest > 4 {
                    Err(CliError::UnexpectedArgument)
                } else {
                    Ok(
                        Commands::Assignment(
                            AssignmentArgs {
                                course_id: a,
                                assignment_id: b,
                                file_path: Some(args[i + 4].clone()),
                            },
                        ),
                    )
                }
            }
        } else {
            Err(CliError::UnknownCommand)
        }
    }

    /// Parse a subcommand's single identifier argument.
    fn parse_one_id(args: &Vec<String>, i: usize) -> (r: Result<u64, CliError>)
        requires
            i < args@.len(),
        ensures
            r == spec_one_id(views_of(args@), i as int),
    {
        let rest = args.len() - i - 1;
        if rest < 1 {
            Err(CliError::MissingArgument)
        } else if rest > 1 {
            Err(CliError::UnexpectedArgument)
        } else {
            match parse_u64(args[i + 1].as_str()) {
                Ok(v) => Ok(v),
                Err(e) => Err(e),
            }
        }
    }

    /// Parse a subcommand's two identifier arguments.
    fn parse_two_ids(args: &Vec<String>, i: usize) -> (r: Result<(u64, u64), CliError>)
        requires
            i < args@.len(),
        ensures
            r == spec_two_ids(views_of(args@), i as int),
    {
        let rest = args.len() - i - 1;
        if rest < 2 {
            Err(CliError::MissingArgument)
        } else if rest > 2 {
            Err(CliError::UnexpectedArgument)
        } else {
            let a = match parse_u64(args[i + 1].as_str()) {
                Ok(v) => v,
                Err(e) => {
                    return Err(e);
                },
            };
            let b = match parse_u64(args[i + 2].as_str()) {
                Ok(v) => v,
                Err(e) => {
                    return Err(e);
                },
            };
            Ok((a, b))
        }
    }
}

} // verus!
