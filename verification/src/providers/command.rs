//! Bounded subprocess execution for provider probes, scans, revalidation, and
//! native cleanup: which commands may run, with which arguments, and what is
//! kept of their output. Providers declare static command policies; callers
//! cannot pass a shell command or bypass argument validation.

use crate::paths;
use crate::seqs::{group_views, view_of, views};
use crate::text;
use crate::text::same;
use vstd::prelude::*;

verus! {

broadcast use group_views;

pub const MAX_STDOUT_BYTES: usize = 0x10_0000;

pub const MAX_STDERR_BYTES: usize = 0x4_0000;

pub const MAX_LINE_BYTES: usize = 0x1_0000;

pub const MAX_PARSED_ITEMS: usize = 20_000;

#[derive(Debug, Clone, Copy, PartialEq, Eq, Structural)]
pub enum CommandMode {
    ReadOnly,
    Mutation,
}

/// What may stand at one place of a command line.
#[derive(Debug, Clone, Copy)]
pub enum Arg {
    /// This word.
    Is(&'static str),
    /// A name that cannot be mistaken for an option.
    Token,
    /// Such a name that is an absolute path.
    AbsolutePath,
    /// Decimal digits.
    Digits,
    /// `until=` and a value on one line.
    Until,
}

/// Which argument lists a policy accepts.
#[derive(Debug, Clone, Copy)]
pub enum ArgRule {
    /// One argument for each place.
    Form(&'static [Arg]),
    /// One argument for each place, then any number of names.
    OpenEnded(&'static [Arg]),
    /// A simulator runtime deletion that is only previewed.
    RuntimePreview,
}

/// A command that a provider may run.
#[derive(Debug, Clone, Copy)]
pub struct CommandPolicy {
    pub id: &'static str,
    pub executables: &'static [&'static str],
    pub mutating: bool,
    pub network: bool,
    pub args: ArgRule,
}

/// Which argument lists a policy accepts, place by place.
#[verifier::ext_equal]
pub enum ArgRuleModel {
    Form(Seq<Arg>),
    OpenEnded(Seq<Arg>),
    RuntimePreview,
}

impl View for ArgRule {
    type V = ArgRuleModel;

    open spec fn view(&self) -> ArgRuleModel {
        match *self {
            ArgRule::Form(form) => ArgRuleModel::Form(form@),
            ArgRule::OpenEnded(form) => ArgRuleModel::OpenEnded(form@),
            ArgRule::RuntimePreview => ArgRuleModel::RuntimePreview,
        }
    }
}

#[verifier::ext_equal]
pub struct PolicyModel {
    pub id: Seq<char>,
    pub executables: Seq<&'static str>,
    pub mutating: bool,
    pub network: bool,
    pub args: ArgRuleModel,
}

impl View for CommandPolicy {
    type V = PolicyModel;

    open spec fn view(&self) -> PolicyModel {
        PolicyModel {
            id: self.id@,
            executables: self.executables@,
            mutating: self.mutating,
            network: self.network,
            args: self.args@,
        }
    }
}

/// Whether a policy has this id and these traits, and accepts one form.
pub open spec fn is_policy(
    p: CommandPolicy,
    id: Seq<char>,
    executables: Seq<&'static str>,
    mutating: bool,
    network: bool,
    form: Seq<Arg>,
) -> bool {
    p@ == PolicyModel { id, executables, mutating, network, args: ArgRuleModel::Form(form) }
}

// ---- arguments ----

/// A name that can be handed to a tool: not empty, not over-long, on one line,
/// no option and no dot directory.
pub open spec fn is_token(s: Seq<char>) -> bool {
    &&& s.len() > 0
    &&& text::byte_len(s) <= 1024
    &&& !s.contains('\0')
    &&& !s.contains('\n')
    &&& !s.contains('\r')
    &&& s[0] != '-'
    &&& s != seq!['.']
    &&& s != seq!['.', '.']
}

/// Whether a value can be handed to a tool as a name.
pub fn safe_token(value: &str) -> (r: bool)
    ensures
        r == is_token(value@),
{
    let v = text::chars_of(value);
    if v.len() == 0 || v[0] == '-' {
        return false;
    }
    let (_, fits) = text::cut_bytes(value, 1024);
    if !fits {
        return false;
    }
    if text::has_char(value, '\0') || text::has_char(value, '\n') || text::has_char(value, '\r') {
        return false;
    }
    if v.len() == 1 && v[0] == '.' {
        assert(value@ =~= seq!['.']);
        return false;
    }
    if v.len() == 2 && v[0] == '.' && v[1] == '.' {
        assert(value@ =~= seq!['.', '.']);
        return false;
    }
    true
}

/// Whether a value can be handed to a tool as an absolute path.
pub fn safe_absolute_path(value: &str) -> (r: bool)
    ensures
        r == (is_token(value@) && paths::absolute(value@)),
{
    safe_token(value) && paths::is_absolute(value)
}

/// The value of an `until=` filter, where it is one.
pub open spec fn is_until(s: Seq<char>) -> bool {
    match text::without_prefix(s, "until="@) {
        Some(v) => v.len() > 0 && !v.contains('\n') && !v.contains('\r') && !v.contains('\0'),
        None => false,
    }
}

/// Whether an argument may stand at a place.
pub open spec fn fits(a: Arg, s: Seq<char>) -> bool {
    match a {
        Arg::Is(word) => s == word@,
        Arg::Token => is_token(s),
        Arg::AbsolutePath => is_token(s) && paths::absolute(s),
        Arg::Digits => text::all_digits(s),
        Arg::Until => is_until(s),
    }
}

fn only_digits(value: &str) -> (r: bool)
    ensures
        r == text::all_digits(value@),
{
    let v = text::chars_of(value);
    let mut i: usize = 0;
    while i < v.len()
        invariant
            i <= v@.len(),
            v@ == value@,
            forall|j: int| 0 <= j < i ==> text::is_digit(#[trigger] v@[j]),
        decreases v@.len() - i,
    {
        if v[i] < '0' || v[i] > '9' {
            assert(!text::is_digit(v@[i as int]));
            return false;
        }
        i += 1;
    }
    true
}

fn arg_fits(a: Arg, value: &str) -> (r: bool)
    ensures
        r == fits(a, value@),
{
    match a {
        Arg::Is(word) => same(value, word),
        Arg::Token => safe_token(value),
        Arg::AbsolutePath => safe_absolute_path(value),
        Arg::Digits => only_digits(value),
        Arg::Until => match text::strip_prefix(value, "until=") {
            Some(v) => !v.as_str().is_empty() && !text::has_char(v.as_str(), '\n')
                && !text::has_char(v.as_str(), '\r') && !text::has_char(v.as_str(), '\0'),
            None => false,
        },
    }
}

/// Whether the first arguments fit their places.
pub open spec fn leading_fit(form: Seq<Arg>, args: Seq<Seq<char>>) -> bool {
    &&& form.len() <= args.len()
    &&& forall|i: int| 0 <= i < form.len() ==> fits(form[i], #[trigger] args[i])
}

/// The previews that the simulator runtime policy admits.
pub open spec fn is_runtime_preview(args: Seq<Seq<char>>) -> bool {
    &&& args.len() >= 5
    &&& args[0] == "simctl"@
    &&& args[1] == "runtime"@
    &&& args[2] == "delete"@
    &&& args.last() == "--dry-run"@
    &&& {
        ||| (args[3] == "--outdated"@ || args[3] == "--unusable"@) && args.len() == 5
        ||| args[3] == "--notUsedSinceDays"@ && args[3] != "--outdated"@ && args[3]
            != "--unusable"@ && args.len() == 6 && text::all_digits(args[4])
    }
}

/// Whether a policy accepts an argument list.
pub open spec fn admits(rule: ArgRuleModel, args: Seq<Seq<char>>) -> bool {
    match rule {
        ArgRuleModel::Form(form) => args.len() == form.len() && leading_fit(form, args),
        ArgRuleModel::OpenEnded(form) => leading_fit(form, args) && forall|i: int|
            form.len() <= i < args.len() ==> is_token(#[trigger] args[i]),
        ArgRuleModel::RuntimePreview => is_runtime_preview(args),
    }
}

fn leading_args_fit(form: &[Arg], args: &Vec<String>) -> (r: bool)
    ensures
        r == leading_fit(form@, views(args@)),
{
    if form.len() > args.len() {
        return false;
    }
    let mut i: usize = 0;
    while i < form.len()
        invariant
            i <= form@.len() <= args@.len(),
            forall|j: int| 0 <= j < i ==> fits(form@[j], #[trigger] views(args@)[j]),
        decreases form@.len() - i,
    {
        if !arg_fits(form[i], args[i].as_str()) {
            assert(!fits(form@[i as int], views(args@)[i as int]));
            return false;
        }
        i += 1;
    }
    true
}

impl CommandPolicy {
    /// Whether the policy accepts an argument list.
    pub fn accepts(&self, args: &Vec<String>) -> (r: bool)
        ensures
            r == admits(self.args@, views(args@)),
    {
        match self.args {
            ArgRule::Form(form) => args.len() == form.len() && leading_args_fit(form, args),
            ArgRule::OpenEnded(form) => {
                if !leading_args_fit(form, args) {
                    return false;
                }
                let mut i: usize = form.len();
                while i < args.len()
                    invariant
                        self.args == ArgRule::OpenEnded(form),
                        form@.len() <= i <= args@.len(),
                        forall|j: int|
                            form@.len() <= j < i ==> is_token(#[trigger] views(args@)[j]),
                    decreases args@.len() - i,
                {
                    if !safe_token(args[i].as_str()) {
                        assert(!is_token(views(args@)[i as int]));
                        return false;
                    }
                    i += 1;
                }
                true
            },
            ArgRule::RuntimePreview => {
                let n: usize = args.len();
                if n < 5 {
                    return false;
                }
                let ghost a = views(args@);
                assert(a[0] == args@[0]@ && a[1] == args@[1]@ && a[2] == args@[2]@ && a[3]
                    == args@[3]@ && a[4] == args@[4]@ && a.last() == args@[n - 1]@);
                if !same(args[0].as_str(), "simctl") || !same(args[1].as_str(), "runtime") || !same(
                    args[2].as_str(),
                    "delete",
                ) || !same(args[n - 1].as_str(), "--dry-run") {
                    return false;
                }
                let selector = args[3].as_str();
                if same(selector, "--outdated") || same(selector, "--unusable") {
                    proof {
                        lemma_selectors_differ();
                    }
                    n == 5
                } else if same(selector, "--notUsedSinceDays") {
                    n == 6 && only_digits(args[4].as_str())
                } else {
                    false
                }
            },
        }
    }
}

proof fn lemma_selectors_differ()
    ensures
        "--notUsedSinceDays"@ != "--outdated"@,
        "--notUsedSinceDays"@ != "--unusable"@,
{
    reveal_strlit("--notUsedSinceDays");
    reveal_strlit("--outdated");
    reveal_strlit("--unusable");
    assert("--notUsedSinceDays"@.len() == 18);
    assert("--outdated"@.len() == 10);
    assert("--unusable"@.len() == 10);
}

// ---- admission ----

/// Why a command is not started.
#[derive(Debug, Clone, Copy, PartialEq, Eq, Structural)]
pub enum RunRefusal {
    /// The policy changes things, and this is discovery.
    MutatingInDiscovery,
    /// The policy changes nothing, and this is an action.
    NotAnAction,
    /// The arguments are not those of the policy.
    Arguments,
    /// The work was cancelled before the start.
    Cancelled,
}

/// What a refused command is answered.
pub open spec fn refusal_message(why: RunRefusal, id: Seq<char>) -> Seq<char> {
    match why {
        RunRefusal::MutatingInDiscovery => "command policy "@ + id
            + " is mutating and cannot run during discovery"@,
        RunRefusal::NotAnAction => "command policy "@ + id + " is not an action"@,
        RunRefusal::Arguments => "arguments rejected by command policy "@ + id,
        RunRefusal::Cancelled => "command cancelled before launch"@,
    }
}

impl RunRefusal {
    /// What a refused command is answered.
    pub fn message(self, policy: &CommandPolicy) -> (r: String)
        ensures
            r@ == refusal_message(self, policy.id@),
    {
        match self {
            RunRefusal::MutatingInDiscovery => "command policy ".to_owned().concat(
                policy.id,
            ).concat(" is mutating and cannot run during discovery"),
            RunRefusal::NotAnAction => "command policy ".to_owned().concat(policy.id).concat(
                " is not an action",
            ),
            RunRefusal::Arguments => "arguments rejected by command policy ".to_owned().concat(
                policy.id,
            ),
            RunRefusal::Cancelled => "command cancelled before launch".to_owned(),
        }
    }
}

/// Why a command is not started, the first of the four reasons that holds.
pub open spec fn refused(
    policy: CommandPolicy,
    args: Seq<Seq<char>>,
    mode: CommandMode,
    cancelled: bool,
) -> Option<RunRefusal> {
    if policy.mutating && mode != CommandMode::Mutation {
        Some(RunRefusal::MutatingInDiscovery)
    } else if !policy.mutating && mode == CommandMode::Mutation {
        Some(RunRefusal::NotAnAction)
    } else if !admits(policy.args@, args) {
        Some(RunRefusal::Arguments)
    } else if cancelled {
        Some(RunRefusal::Cancelled)
    } else {
        None
    }
}

/// Decides whether a command may start.
pub fn check_command(policy: &CommandPolicy, args: &Vec<String>, mode: CommandMode, cancelled: bool) -> (r:
    Result<(), RunRefusal>)
    ensures
        match r {
            Ok(_) => refused(*policy, views(args@), mode, cancelled) is None,
            Err(why) => refused(*policy, views(args@), mode, cancelled) == Some(why),
        },
{
    if policy.mutating && mode != CommandMode::Mutation {
        return Err(RunRefusal::MutatingInDiscovery);
    }
    if !policy.mutating && mode == CommandMode::Mutation {
        return Err(RunRefusal::NotAnAction);
    }
    if !policy.accepts(args) {
        return Err(RunRefusal::Arguments);
    }
    if cancelled {
        return Err(RunRefusal::Cancelled);
    }
    Ok(())
}

/// Nothing that changes the system runs during discovery, whatever the
/// arguments; and no policy runs with arguments that it does not accept.
pub proof fn law_discovery_never_mutates(
    policy: CommandPolicy,
    args: Seq<Seq<char>>,
    mode: CommandMode,
    cancelled: bool,
)
    ensures
        refused(policy, args, mode, cancelled) is None ==> (policy.mutating <==> mode
            == CommandMode::Mutation) && admits(policy.args@, args) && !cancelled,
        policy.mutating ==> refused(policy, args, CommandMode::ReadOnly, cancelled) is Some,
{
}

/// A variable argument never reads as an option and never spans lines.
pub proof fn law_tokens_are_not_options(s: Seq<char>)
    requires
        is_token(s),
    ensures
        s.len() > 0 && s[0] != '-',
        !s.contains('\n') && !s.contains('\0'),
        text::byte_len(s) <= 1024,
{
}

// ---- environment ----

/// The variables that every command gets, with their values.
pub open spec fn fixed_variables() -> Seq<(Seq<char>, Seq<char>)> {
    seq![
        ("LANG"@, "C.UTF-8"@),
        ("LC_ALL"@, "C.UTF-8"@),
        ("NO_COLOR"@, "1"@),
        ("TERM"@, "dumb"@),
        ("HOMEBREW_NO_AUTO_UPDATE"@, "1"@),
        ("HOMEBREW_NO_ANALYTICS"@, "1"@),
        ("HOMEBREW_NO_ENV_HINTS"@, "1"@),
        ("GIT_TERMINAL_PROMPT"@, "0"@),
    ]
}

/// The variables that every command gets, with their values; the environment
/// of the caller is not handed on otherwise.
pub fn fixed_environment() -> (r: Vec<(String, String)>)
    ensures
        r@.len() == fixed_variables().len(),
        forall|i: int|
            0 <= i < r@.len() ==> (#[trigger] r@[i]).0@ == fixed_variables()[i].0 && r@[i].1@
                == fixed_variables()[i].1,
{
    vec![
        ("LANG".to_owned(), "C.UTF-8".to_owned()),
        ("LC_ALL".to_owned(), "C.UTF-8".to_owned()),
        ("NO_COLOR".to_owned(), "1".to_owned()),
        ("TERM".to_owned(), "dumb".to_owned()),
        ("HOMEBREW_NO_AUTO_UPDATE".to_owned(), "1".to_owned()),
        ("HOMEBREW_NO_ANALYTICS".to_owned(), "1".to_owned()),
        ("HOMEBREW_NO_ENV_HINTS".to_owned(), "1".to_owned()),
        ("GIT_TERMINAL_PROMPT".to_owned(), "0".to_owned()),
    ]
}

/// The variables of the caller that a command gets where it may use the
/// network.
pub open spec fn network_variables() -> Seq<Seq<char>> {
    seq!["SSH_AUTH_SOCK"@, "HTTPS_PROXY"@, "HTTP_PROXY"@, "ALL_PROXY"@, "NO_PROXY"@]
}

impl CommandPolicy {
    /// The variables of the caller that are handed on, where they are set.
    pub fn inherited_variables(&self) -> (r: Vec<String>)
        ensures
            views(r@) == seq!["TMPDIR"@] + if self.network {
                network_variables()
            } else {
                Seq::empty()
            },
    {
        let r = if self.network {
            text::texts6(
                "TMPDIR",
                "SSH_AUTH_SOCK",
                "HTTPS_PROXY",
                "HTTP_PROXY",
                "ALL_PROXY",
                "NO_PROXY",
            )
        } else {
            text::texts1("TMPDIR")
        };
        assert(views(r@) =~= seq!["TMPDIR"@] + if self.network {
            network_variables()
        } else {
            Seq::empty()
        });
        r
    }
}

/// The directories below the home directory that are searched for tools after
/// the search path.
pub open spec fn home_tool_dirs() -> Seq<Seq<char>> {
    seq![
        "Library/Android/sdk/cmdline-tools/latest/bin"@,
        "Library/Android/sdk/platform-tools"@,
        ".local/bin"@,
        ".cargo/bin"@,
        ".pyenv/bin"@,
        ".local/share/mise/shims"@,
    ]
}

/// The files that may be the executable `candidate`, in the order in which
/// they are tried: the candidate itself where it is absolute, else in each
/// directory of the search path, then below the home directory.
pub open spec fn executable_places(
    candidate: Seq<char>,
    search: Seq<Seq<char>>,
    home: Option<Seq<char>>,
) -> Seq<Seq<char>> {
    if paths::absolute(candidate) {
        seq![candidate]
    } else {
        search.map_values(|d: Seq<char>| paths::below(d, candidate)) + match home {
            Some(h) => home_tool_dirs().map_values(
                |d: Seq<char>| paths::below(paths::below(h, d), candidate),
            ),
            None => Seq::empty(),
        }
    }
}

/// The files that may be the executable `candidate`, in the order in which
/// they are tried.
pub fn resolve_candidate(candidate: &str, search: &Vec<String>, home: Option<&str>) -> (r: Vec<
    String,
>)
    ensures
        views(r@) == executable_places(
            candidate@,
            views(search@),
            match home {
                Some(h) => Some(h@),
                None => None,
            },
        ),
{
    if paths::is_absolute(candidate) {
        return text::texts1(candidate);
    }
    let ghost place = |d: Seq<char>| paths::below(d, candidate@);
    let ghost s = views(search@);
    let mut r: Vec<String> = Vec::new();
    let mut i: usize = 0;
    assert(views(r@) =~= s.take(0).map_values(place));
    while i < search.len()
        invariant
            i <= search@.len(),
            s == views(search@),
            place == (|d: Seq<char>| paths::below(d, candidate@)),
            views(r@) == s.take(i as int).map_values(place),
        decreases search@.len() - i,
    {
        r.push(paths::join(search[i].as_str(), candidate));
        assert(s.take(i + 1).map_values(place) =~= s.take(i as int).map_values(place).push(
            paths::below(s[i as int], candidate@),
        ));
        i += 1;
    }
    assert(s.take(s.len() as int) =~= s);
    if let Some(h) = home {
        let dirs = text::texts6(
            "Library/Android/sdk/cmdline-tools/latest/bin",
            "Library/Android/sdk/platform-tools",
            ".local/bin",
            ".cargo/bin",
            ".pyenv/bin",
            ".local/share/mise/shims",
        );
        let ghost start = views(r@);
        let ghost t = home_tool_dirs();
        let ghost under_home = |d: Seq<char>| paths::below(paths::below(h@, d), candidate@);
        let mut k: usize = 0;
        assert(views(r@) =~= start + t.take(0).map_values(under_home));
        while k < dirs.len()
            invariant
                k <= dirs@.len(),
                t == views(dirs@),
                under_home == (|d: Seq<char>| paths::below(paths::below(h@, d), candidate@)),
                views(r@) == start + t.take(k as int).map_values(under_home),
            decreases dirs@.len() - k,
        {
            let dir = paths::join(h, dirs[k].as_str());
            r.push(paths::join(dir.as_str(), candidate));
            assert(start + t.take(k + 1).map_values(under_home) =~= (start + t.take(
                k as int,
            ).map_values(under_home)).push(
                paths::below(paths::below(h@, t[k as int]), candidate@),
            ));
            k += 1;
        }
        assert(t.take(t.len() as int) =~= t);
    } else {
        assert(views(r@) =~= s.map_values(place) + Seq::<Seq<char>>::empty());
    }
    r
}

// ---- waiting ----

/// What is done while a child runs.
#[derive(Debug, Clone, Copy, PartialEq, Eq, Structural)]
pub enum Poll {
    /// It has ended.
    Finished,
    /// It is ended because the work was cancelled.
    StopCancelled,
    /// It is ended because its time is over.
    StopTimedOut,
    /// It goes on.
    Wait,
}

/// An ended child counts before a cancellation, and that before the deadline.
pub open spec fn poll_of(exited: bool, cancelled: bool, past_deadline: bool) -> Poll {
    if exited {
        Poll::Finished
    } else if cancelled {
        Poll::StopCancelled
    } else if past_deadline {
        Poll::StopTimedOut
    } else {
        Poll::Wait
    }
}

/// Decides what is done with a child that was looked at.
pub fn poll_step(exited: bool, cancelled: bool, past_deadline: bool) -> (r: Poll)
    ensures
        r == poll_of(exited, cancelled, past_deadline),
{
    if exited {
        Poll::Finished
    } else if cancelled {
        Poll::StopCancelled
    } else if past_deadline {
        Poll::StopTimedOut
    } else {
        Poll::Wait
    }
}

/// What is answered where a child was ended.
pub fn stop_message(policy: &CommandPolicy, poll: Poll, allowed_ms: u64) -> (r: Option<String>)
    ensures
        view_of(r) == match poll {
            Poll::StopCancelled => Some("command "@ + policy.id@ + " cancelled"@),
            Poll::StopTimedOut => Some(
                "command "@ + policy.id@ + " timed out after "@ + text::digits(allowed_ms as nat)
                    + " ms"@,
            ),
            _ => None,
        },
{
    match poll {
        Poll::StopCancelled => Some(
            "command ".to_owned().concat(policy.id).concat(" cancelled"),
        ),
        Poll::StopTimedOut => Some(
            "command ".to_owned().concat(policy.id).concat(" timed out after ").concat(
                text::decimal(allowed_ms).as_str(),
            ).concat(" ms"),
        ),
        _ => None,
    }
}

/// The first line of a text, or a stand-in where there is none.
pub open spec fn first_line_or(s: Seq<char>, other: Seq<char>) -> Seq<char> {
    let l = text::lines_of(s);
    if l.len() > 0 {
        l[0]
    } else {
        other
    }
}

/// The first line of a text, or a stand-in where there is none.
pub fn first_line(s: &str, other: &str) -> (r: String)
    ensures
        r@ == first_line_or(s@, other@),
{
    let l = text::lines(s);
    if l.len() > 0 {
        assert(views(l@)[0] == l@[0]@);
        l[0].clone()
    } else {
        other.to_owned()
    }
}

/// What a command that ended with an error is answered.
pub fn failure_message(policy: &CommandPolicy, stderr: &str) -> (r: String)
    ensures
        r@ == policy.id@ + " failed: "@ + first_line_or(stderr@, "unknown error"@),
{
    policy.id.to_owned().concat(" failed: ").concat(first_line(stderr, "unknown error").as_str())
}

// ---- output ----

/// Output of a child, kept up to a limit.
pub struct BoundedOutput {
    pub bytes: Vec<u8>,
    pub truncated: bool,
}

/// The first `cap` bytes of a stream.
pub open spec fn kept(stream: Seq<u8>, cap: nat) -> Seq<u8> {
    if stream.len() > cap {
        stream.take(cap as int)
    } else {
        stream
    }
}

impl BoundedOutput {
    /// Whether this is what is kept of a stream.
    pub open spec fn holds(&self, stream: Seq<u8>, cap: nat) -> bool {
        self.bytes@ == kept(stream, cap) && self.truncated == (stream.len() > cap)
    }

    /// Nothing read yet.
    pub fn new() -> (r: Self)
        ensures
            forall|cap: nat| #[trigger] r.holds(Seq::empty(), cap),
    {
        let r = BoundedOutput { bytes: Vec::new(), truncated: false };
        assert forall|cap: nat| #[trigger] r.holds(Seq::empty(), cap) by {
            assert(r.bytes@ =~= kept(Seq::<u8>::empty(), cap));
        }
        r
    }

    /// Reads one more chunk: what exceeds the limit is dropped.
    pub fn read_bounded(&mut self, chunk: &[u8], cap: usize)
        requires
            old(self).bytes@.len() <= cap,
        ensures
            final(self).bytes@ == kept(old(self).bytes@ + chunk@, cap as nat),
            final(self).truncated == (old(self).truncated || old(self).bytes@.len() + chunk@.len()
                > cap),
            forall|stream: Seq<u8>|
                old(self).holds(stream, cap as nat) ==> #[trigger] final(self).holds(
                    stream + chunk@,
                    cap as nat,
                ),
    {
        let ghost before = self.bytes@;
        let remaining: usize = cap - self.bytes.len();
        let take: usize = if chunk.len() < remaining {
            chunk.len()
        } else {
            remaining
        };
        let mut i: usize = 0;
        assert(self.bytes@ =~= before + chunk@.take(0));
        while i < take
            invariant
                i <= take <= chunk@.len(),
                self.bytes@ == before + chunk@.take(i as int),
                self.truncated == old(self).truncated,
            decreases take - i,
        {
            self.bytes.push(chunk[i]);
            assert(before + chunk@.take(i + 1) =~= (before + chunk@.take(i as int)).push(
                chunk@[i as int],
            ));
            i += 1;
        }
        if chunk.len() > remaining {
            self.truncated = true;
        }
        assert(self.bytes@ =~= kept(before + chunk@, cap as nat));
        assert forall|stream: Seq<u8>| old(self).holds(stream, cap as nat) implies #[trigger] self.holds(
            stream + chunk@,
            cap as nat,
        ) by {
            assert(self.bytes@ =~= kept(stream + chunk@, cap as nat));
        }
    }
}

/// A line of output, cut to the limit and marked where it was cut.
pub open spec fn bounded_line(line: Seq<char>) -> Seq<char> {
    if text::byte_len(line) > MAX_LINE_BYTES {
        text::byte_cut(line, MAX_LINE_BYTES as int) + "...[line truncated]"@
    } else {
        line
    }
}

/// The lines of a text, each cut to the limit and ended by a line feed.
pub open spec fn bounded_lines(lines: Seq<Seq<char>>) -> Seq<char>
    decreases lines.len(),
{
    if lines.len() == 0 {
        Seq::empty()
    } else {
        (bounded_lines(lines.drop_last()) + bounded_line(lines.last())).push('\n')
    }
}

/// The text of an output: each line cut to the limit and ended by a line feed.
pub fn bound_lines(s: &str) -> (r: String)
    ensures
        r@ == bounded_lines(text::lines_of(s@)),
{
    let l = text::lines(s);
    let ghost all = text::lines_of(s@);
    let mut r = String::new();
    let mut i: usize = 0;
    while i < l.len()
        invariant
            i <= l@.len(),
            all == views(l@),
            r@ == bounded_lines(all.take(i as int)),
        decreases l@.len() - i,
    {
        assert(all.take(i + 1).drop_last() =~= all.take(i as int));
        assert(all[i as int] == l@[i as int]@);
        let (start, whole) = text::cut_bytes(l[i].as_str(), MAX_LINE_BYTES as u64);
        if whole {
            r.append(l[i].as_str());
        } else {
            r.append(start.as_str());
            r.append("...[line truncated]");
            assert(bounded_lines(all.take(i as int)) + start@ + "...[line truncated]"@
                =~= bounded_lines(all.take(i as int)) + (start@ + "...[line truncated]"@));
        }
        r.push('\n');
        i += 1;
    }
    assert(all.take(all.len() as int) =~= all);
    r
}

/// The text of the bytes that a child wrote.
pub fn normalize_output(bytes: &[u8]) -> (r: String)
    ensures
        r@ == bounded_lines(text::lines_of(text::lossy_text(bytes@))),
{
    let t = text::from_utf8_lossy(bytes);
    bound_lines(t.as_str())
}

/// No line of the output is longer than the limit and the mark.
pub proof fn law_lines_are_bounded(line: Seq<char>)
    ensures
        text::byte_len(bounded_line(line)) <= MAX_LINE_BYTES + 19,
{
    if text::byte_len(line) > MAX_LINE_BYTES {
        let cut = text::byte_cut(line, MAX_LINE_BYTES as int);
        text::lemma_cut_fits(line, MAX_LINE_BYTES as int);
        text::lemma_byte_len_concat(cut, "...[line truncated]"@);
        reveal_strlit("...[line truncated]");
        assert("...[line truncated]"@.len() == 19);
        text::lemma_ascii_bytes("...[line truncated]"@);
    }
}

/// What is kept of a stream never exceeds the limit.
pub proof fn law_output_is_bounded(stream: Seq<u8>, cap: nat)
    ensures
        kept(stream, cap).len() <= cap,
        stream.len() <= cap ==> kept(stream, cap) == stream,
{
}

/// A command runs exactly where it changes things in an action and only there, its
/// arguments are those of its policy, and nothing was cancelled.
pub proof fn law_commands_run(
    policy: CommandPolicy,
    args: Seq<Seq<char>>,
    mode: CommandMode,
    cancelled: bool,
)
    ensures
        refused(policy, args, mode, cancelled) is None <==> policy.mutating == (mode == CommandMode::Mutation)
            && admits(policy.args@, args) && !cancelled,
        refused(policy, args, mode, cancelled) == Some(RunRefusal::MutatingInDiscovery) <==> policy.mutating
            && mode == CommandMode::ReadOnly,
        refused(policy, args, mode, cancelled) == Some(RunRefusal::NotAnAction) <==> !policy.mutating && mode
            == CommandMode::Mutation,
{
}

/// A name that can be handed to a tool is not empty, holds no control character that
/// ends it, is no option, neither here nor above, and short.
pub proof fn law_names_for_tools(s: Seq<char>)
    ensures
        is_token(s) <==> s.len() > 0 && s[0] != '-' && s != seq!['.'] && s != seq!['.', '.']
            && text::byte_len(s) <= 1024 && forall|i: int|
        0 <= i < s.len() ==> #[trigger] s[i] != '\0' && s[i] != '\n' && s[i] != '\r',
{
    if is_token(s) {
        assert forall|i: int| 0 <= i < s.len() implies #[trigger] s[i] != '\0' && s[i] != '\n' && s[i]
            != '\r' by {
            assert(s.contains(s[i]));
        }
    }
}

/// A form admits as many arguments as it has places, each of which fits its own.
pub proof fn law_forms_fit_place_by_place(form: Seq<Arg>, args: Seq<Seq<char>>)
    ensures
        admits(ArgRuleModel::Form(form), args) <==> args.len() == form.len() && forall|i: int|
        0 <= i < form.len() ==> fits(form[i], #[trigger] args[i]),
        admits(ArgRuleModel::OpenEnded(form), args) <==> args.len() >= form.len() && (forall|i: int|
            0 <= i < form.len() ==> fits(form[i], #[trigger] args[i])) && forall|i: int|
        form.len() <= i < args.len() ==> is_token(#[trigger] args[i]),
{
}

/// What an argument must be at each kind of place.
pub proof fn law_places_say_what_fits(word: &'static str, s: Seq<char>)
    ensures
        fits(Arg::Is(word), s) <==> s == word@,
        fits(Arg::Token, s) <==> is_token(s),
        fits(Arg::AbsolutePath, s) <==> is_token(s) && s[0] == '/',
        fits(Arg::Digits, s) <==> forall|i: int| 0 <= i < s.len() ==> '0' <= #[trigger] s[i] && s[i] <= '9',
{
    if forall|i: int| 0 <= i < s.len() ==> '0' <= #[trigger] s[i] && s[i] <= '9' {
        assert forall|i: int| 0 <= i < s.len() implies text::is_digit(#[trigger] s[i]) by {}
    }
    if text::all_digits(s) {
        assert forall|i: int| 0 <= i < s.len() implies '0' <= #[trigger] s[i] && s[i] <= '9' by {
            assert(text::is_digit(s[i]));
        }
    }
}

/// A command that has ended is finished whatever else holds; one that was cancelled or
/// whose time is over is stopped; any other goes on.
pub proof fn law_commands_end(exited: bool, cancelled: bool, late: bool)
    ensures
        poll_of(exited, cancelled, late) == Poll::Finished <==> exited,
        poll_of(exited, cancelled, late) == Poll::StopCancelled <==> !exited && cancelled,
        poll_of(exited, cancelled, late) == Poll::StopTimedOut <==> !exited && !cancelled && late,
        poll_of(exited, cancelled, late) == Poll::Wait <==> !exited && !cancelled && !late,
{
}

/// Of a stream as much is kept as there is room for, from its beginning.
pub proof fn law_streams_are_cut_at_the_end(stream: Seq<u8>, cap: nat)
    ensures
        kept(stream, cap).len() <= cap,
        kept(stream, cap).is_prefix_of(stream),
        stream.len() <= cap ==> kept(stream, cap) == stream,
        stream.len() > cap ==> kept(stream, cap).len() == cap,
{
}

/// A tool is looked for in the search path before the home directory; a full path is
/// taken as it is.
pub proof fn law_tools_are_looked_for(candidate: Seq<char>, search: Seq<Seq<char>>, home: Option<Seq<char>>, i: int)
    ensures
        candidate.len() > 0 && candidate[0] == '/' ==> executable_places(candidate, search, home).len() == 1
            && executable_places(candidate, search, home)[0] == candidate,
        !(candidate.len() > 0 && candidate[0] == '/') && 0 <= i < search.len() ==> executable_places(
            candidate,
            search,
            home,
        )[i] == paths::below(search[i], candidate),
{
}

/// Each line of an output is kept within its bound and ended.
pub proof fn law_lines_are_ended(lines: Seq<Seq<char>>, line: Seq<char>)
    ensures
        bounded_lines(Seq::empty()).len() == 0,
        bounded_lines(lines.push(line)) == bounded_lines(lines) + bounded_line(line) + seq!['\n'],
        text::byte_len(line) <= MAX_LINE_BYTES ==> bounded_lines(seq![line]) == line + seq!['\n'],
{
    assert(lines.push(line).drop_last() =~= lines);
    assert(bounded_lines(lines.push(line)) =~= bounded_lines(lines) + bounded_line(line) + seq!['\n']);
    assert(seq![line].drop_last() =~= Seq::<Seq<char>>::empty());
    reveal_with_fuel(bounded_lines, 2);
    assert(bounded_lines(seq![line]) =~= bounded_line(line) + seq!['\n']);
}

} // verus!
