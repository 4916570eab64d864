//! Shell requests: who must agree to them and how they run.
use vstd::prelude::*;
use vstd::string::StringExecFns;
use crate::paths::{is_absolute, is_absolute_path, is_skipped_piece};
use crate::records::pairs;
use crate::sources::copy_texts;
use crate::text::{concat2, concat3, contains_text, lossy, lossy_text, opt_text, split, split_text, str_eq, texts, to_chars};

verus! {

/// Who must agree to a request.
#[derive(Clone, Copy, Debug, PartialEq, Eq, Structural)]
pub enum ApprovalMode {
    /// A human, each time.
    Ask,
    /// Nobody, for listed programs.
    Allowlist,
    /// Nobody.
    Never,
}

impl Default for ApprovalMode {
    fn default() -> (r: ApprovalMode)
        ensures
            r == ApprovalMode::Ask,
    {
        ApprovalMode::Ask
    }
}

/// What confines a program.
#[derive(Clone, Copy, Debug, PartialEq, Eq, Structural)]
pub enum SandboxMode {
    /// A profile that denies the network and writing outside the workspace.
    Seatbelt,
    /// A container.
    Container,
    /// Nothing.
    Unrestricted,
}

impl Default for SandboxMode {
    fn default() -> (r: SandboxMode)
        ensures
            r == SandboxMode::Seatbelt,
    {
        SandboxMode::Seatbelt
    }
}

/// A request to run a program.
#[derive(Debug)]
pub struct ShellRequest {
    program: String,
    arguments: Vec<String>,
    shell_command: Option<String>,
    workspace: String,
    approval: ApprovalMode,
    sandbox: SandboxMode,
    allowlist: Vec<String>,
    trusted_unrestricted: bool,
    time_limit_millis: u64,
    output_limit: usize,
}

/// A request by the views of its fields.
pub struct ShellModel {
    pub program: Seq<char>,
    pub arguments: Seq<Seq<char>>,
    pub shell_command: Option<Seq<char>>,
    pub workspace: Seq<char>,
    pub approval: ApprovalMode,
    pub sandbox: SandboxMode,
    pub allowlist: Seq<Seq<char>>,
    pub trusted_unrestricted: bool,
    pub time_limit_millis: u64,
    pub output_limit: usize,
}

impl View for ShellRequest {
    type V = ShellModel;

    closed spec fn view(&self) -> ShellModel {
        ShellModel {
            program: self.program@,
            arguments: texts(self.arguments@),
            shell_command: opt_text(self.shell_command),
            workspace: self.workspace@,
            approval: self.approval,
            sandbox: self.sandbox,
            allowlist: texts(self.allowlist@),
            trusted_unrestricted: self.trusted_unrestricted,
            time_limit_millis: self.time_limit_millis,
            output_limit: self.output_limit,
        }
    }
}

/// A request that asks a human, runs confined in the current directory, and stops after thirty
/// seconds or a mebibyte of output.
pub open spec fn default_request(program: Seq<char>) -> ShellModel {
    ShellModel {
        program: program,
        arguments: Seq::empty(),
        shell_command: None,
        workspace: "."@,
        approval: ApprovalMode::Ask,
        sandbox: SandboxMode::Seatbelt,
        allowlist: Seq::empty(),
        trusted_unrestricted: false,
        time_limit_millis: 30_000,
        output_limit: 1_048_576,
    }
}

impl ShellRequest {
    /// Builds a request to run a program.
    pub fn program(program: String) -> (r: ShellRequest)
        ensures
            r@ == default_request(program@),
    {
        let request = ShellRequest {
            program,
            arguments: Vec::new(),
            shell_command: None,
            workspace: ".".to_owned(),
            approval: ApprovalMode::Ask,
            sandbox: SandboxMode::Seatbelt,
            allowlist: Vec::new(),
            trusted_unrestricted: false,
            time_limit_millis: 30_000,
            output_limit: 1_048_576,
        };
        assert(request@.arguments =~= Seq::empty());
        assert(request@.allowlist =~= Seq::empty());
        request
    }

    /// Builds a request to run a command of a shell.
    pub fn shell(command: String) -> (r: ShellRequest)
        ensures
            r@ == (ShellModel {
                shell_command: Some(command@),
                ..default_request("/bin/zsh"@)
            }),
    {
        let mut request = ShellRequest::program("/bin/zsh".to_owned());
        request.shell_command = Some(command);
        request
    }

    /// Adds an argument.
    pub fn arg(self, argument: String) -> (r: ShellRequest)
        ensures
            r@ == (ShellModel { arguments: self@.arguments.push(argument@), ..self@ }),
    {
        let mut request = self;
        let ghost before = texts(request.arguments@);
        let ghost item = argument@;
        request.arguments.push(argument);
        assert(texts(request.arguments@) =~= before.push(item));
        request
    }

    /// Sets the workspace.
    pub fn in_workspace(self, workspace: String) -> (r: ShellRequest)
        ensures
            r@ == (ShellModel { workspace: workspace@, ..self@ }),
    {
        let mut request = self;
        request.workspace = workspace;
        request
    }

    /// Sets who must agree.
    pub fn with_approval(self, approval: ApprovalMode) -> (r: ShellRequest)
        ensures
            r@ == (ShellModel { approval: approval, ..self@ }),
    {
        let mut request = self;
        request.approval = approval;
        request
    }

    /// Sets what confines the program.
    pub fn with_sandbox(self, sandbox: SandboxMode) -> (r: ShellRequest)
        ensures
            r@ == (ShellModel { sandbox: sandbox, ..self@ }),
    {
        let mut request = self;
        request.sandbox = sandbox;
        request
    }

    /// Lists a program that needs no consent.
    pub fn allow_executable(self, executable: String) -> (r: ShellRequest)
        ensures
            r@ == (ShellModel { allowlist: self@.allowlist.push(executable@), ..self@ }),
    {
        let mut request = self;
        let ghost before = texts(request.allowlist@);
        let ghost item = executable@;
        request.allowlist.push(executable);
        assert(texts(request.allowlist@) =~= before.push(item));
        request
    }

    /// Lets the program run without being confined.
    pub fn trusted_unrestricted(self) -> (r: ShellRequest)
        ensures
            r@ == (ShellModel { trusted_unrestricted: true, ..self@ }),
    {
        let mut request = self;
        request.trusted_unrestricted = true;
        request
    }

    /// Sets how long the program may run.
    pub fn with_time_limit(self, millis: u64) -> (r: ShellRequest)
        ensures
            r@ == (ShellModel { time_limit_millis: millis, ..self@ }),
    {
        let mut request = self;
        request.time_limit_millis = millis;
        request
    }

    /// Sets how much the program may write.
    pub fn with_output_limit(self, output_limit: usize) -> (r: ShellRequest)
        ensures
            r@ == (ShellModel { output_limit: output_limit, ..self@ }),
    {
        let mut request = self;
        request.output_limit = output_limit;
        request
    }

    /// Returns the workspace.
    pub fn workspace(&self) -> (r: &str)
        ensures
            r@ == self@.workspace,
    {
        self.workspace.as_str()
    }

    /// Returns the listed programs.
    pub fn allowlist(&self) -> (r: &[String])
        ensures
            texts(r@) == self@.allowlist,
    {
        self.allowlist.as_slice()
    }

    /// Returns how long the program may run, in milliseconds.
    pub fn time_limit_millis(&self) -> (r: u64)
        ensures
            r == self@.time_limit_millis,
    {
        self.time_limit_millis
    }
}

/// What a program wrote and how it ended.
#[derive(Debug, PartialEq, Eq)]
pub struct ShellOutcome {
    /// Standard output.
    pub stdout: String,
    /// Standard error.
    pub stderr: String,
    /// Exit code, where the program ended by itself.
    pub exit_code: Option<i32>,
}

/// Why a human must choose.
#[derive(Clone, Copy, Debug, PartialEq, Eq, Structural)]
pub enum ChoiceReason {
    Approval,
    Allowlist,
    SandboxUnavailable,
    ContainerUnavailable,
    UntrustedUnrestricted,
}

/// Why a program did not run.
#[derive(Debug)]
pub enum ShellError {
    /// A human must choose.
    ChoiceRequired { reason: ChoiceReason, executable: Option<String> },
    /// The request makes no sense.
    Invalid(String),
    /// Running the program failed.
    Execution(String),
}

/// Why a program did not run, by views.
pub enum ShellRefusal {
    ChoiceRequired(ChoiceReason, Option<Seq<char>>),
    Invalid(Seq<char>),
    Execution(Seq<char>),
}

impl View for ShellError {
    type V = ShellRefusal;

    open spec fn view(&self) -> ShellRefusal {
        match self {
            ShellError::ChoiceRequired { reason, executable } => ShellRefusal::ChoiceRequired(
                *reason,
                opt_text(*executable),
            ),
            ShellError::Invalid(text) => ShellRefusal::Invalid(text@),
            ShellError::Execution(text) => ShellRefusal::Execution(text@),
        }
    }
}

/// The name of a reason.
pub open spec fn reason_name(reason: ChoiceReason) -> Seq<char> {
    match reason {
        ChoiceReason::Approval => "Approval"@,
        ChoiceReason::Allowlist => "Allowlist"@,
        ChoiceReason::SandboxUnavailable => "SandboxUnavailable"@,
        ChoiceReason::ContainerUnavailable => "ContainerUnavailable"@,
        ChoiceReason::UntrustedUnrestricted => "UntrustedUnrestricted"@,
    }
}

impl ShellError {
    /// Returns the message.
    pub fn to_text(&self) -> (r: String)
        ensures
            match self@ {
                ShellRefusal::ChoiceRequired(reason, _) => r@ == "user choice required: "@
                    + reason_name(reason),
                ShellRefusal::Invalid(text) => r@ == "invalid shell request: "@ + text,
                ShellRefusal::Execution(text) => r@ == "shell execution failed: "@ + text,
            },
    {
        match self {
            ShellError::ChoiceRequired { reason, .. } => {
                let name = match reason {
                    ChoiceReason::Approval => "Approval",
                    ChoiceReason::Allowlist => "Allowlist",
                    ChoiceReason::SandboxUnavailable => "SandboxUnavailable",
                    ChoiceReason::ContainerUnavailable => "ContainerUnavailable",
                    ChoiceReason::UntrustedUnrestricted => "UntrustedUnrestricted",
                };
                concat2("user choice required: ", name)
            },
            ShellError::Invalid(text) => concat2("invalid shell request: ", text.as_str()),
            ShellError::Execution(text) => concat2("shell execution failed: ", text.as_str()),
        }
    }
}

/// The components of a path, for the first pieces between slashes.
pub open spec fn component_count(pieces: Seq<Seq<char>>, n: int) -> nat
    decreases n,
{
    if n <= 0 {
        0
    } else {
        component_count(pieces, n - 1) + (if is_skipped_piece(pieces[n - 1], n - 1) {
            0nat
        } else {
            1nat
        })
    }
}

/// Where a program is looked for: where its path says, or on the safe path for a bare name.
pub open spec fn candidates(program: Seq<char>) -> Seq<Seq<char>> {
    let pieces = split(program, '/');
    if is_absolute_path(program) || component_count(pieces, pieces.len() as int) > 1 {
        seq![program]
    } else {
        seq![
            "/usr/bin/"@ + program,
            "/bin/"@ + program,
            "/usr/sbin/"@ + program,
            "/sbin/"@ + program,
        ]
    }
}

impl ShellRequest {
    /// Returns where the program is looked for, in order.
    pub fn executable_candidates(&self) -> (r: Vec<String>)
        ensures
            texts(r@) == candidates(self@.program),
    {
        let program = self.program.as_str();
        let pieces = split_text(program, '/');
        let ghost all = split(program@, '/');
        let n: usize = pieces.len();
        let mut count: usize = 0;
        let mut i: usize = 0;
        assert(all == texts(pieces@));
        while i < n
            invariant
                i <= n,
                n == pieces@.len(),
                all == texts(pieces@),
                count == component_count(all, i as int),
                count <= i,
            decreases n - i,
        {
            assert(all[i as int] == pieces@[i as int]@);
            let piece = pieces[i].as_str();
            if !(piece.is_empty() || (str_eq(piece, ".") && i > 0)) {
                count = count + 1;
            }
            i += 1;
        }
        let mut out: Vec<String> = Vec::new();
        if is_absolute(program) || count > 1 {
            out.push(program.to_owned());
        } else {
            out.push(concat2("/usr/bin/", program));
            out.push(concat2("/bin/", program));
            out.push(concat2("/usr/sbin/", program));
            out.push(concat2("/sbin/", program));
        }
        assert(texts(out@) =~= candidates(program@));
        out
    }

    /// Returns the error for a program that is on no safe path.
    pub fn unknown_executable(&self) -> (r: ShellError)
        ensures
            r@ == ShellRefusal::Invalid(
                "executable "@ + self@.program + " is not on the safe PATH"@,
            ),
    {
        ShellError::Invalid(
            concat3("executable ", self.program.as_str(), " is not on the safe PATH"),
        )
    }
}

/// The profile that confines a program to a workspace.
pub open spec fn profile_text(workspace: Seq<char>) -> Seq<char> {
    "(version 1) (deny default) (import \"system.sb\") (allow process*) (allow process-exec) (allow file-read* (subpath \"/usr\") (subpath \"/bin\") (subpath \"/sbin\") (subpath \"/System\") (subpath \""@
        + workspace + "\")) (allow file-write* (subpath \""@ + workspace
        + "\")) (deny file-write* (subpath \""@ + workspace + "/.git\")) (deny network*)"@
}

/// Returns the profile that confines a program to a workspace.
pub fn seatbelt_profile(workspace: &str) -> (r: Result<String, ShellError>)
    ensures
        if workspace@.contains('"') {
            r is Err && r->Err_0@ == ShellRefusal::Invalid(
                "workspace contains unsupported quote"@,
            )
        } else {
            r is Ok && r->Ok_0@ == profile_text(workspace@)
        },
{
    let chars = to_chars(workspace);
    let mut i: usize = 0;
    while i < chars.len()
        invariant
            i <= chars@.len(),
            chars@ == workspace@,
            forall|k: int| 0 <= k < i ==> #[trigger] workspace@[k] != '"',
        decreases chars@.len() - i,
    {
        if chars[i] == '"' {
            assert(workspace@[i as int] == '"');
            return Err(ShellError::Invalid("workspace contains unsupported quote".to_owned()));
        }
        i += 1;
    }
    let mut out = concat3(
        "(version 1) (deny default) (import \"system.sb\") (allow process*) (allow process-exec) (allow file-read* (subpath \"/usr\") (subpath \"/bin\") (subpath \"/sbin\") (subpath \"/System\") (subpath \"",
        workspace,
        "\")) (allow file-write* (subpath \"",
    );
    out.append(workspace);
    out.append("\")) (deny file-write* (subpath \"");
    out.append(workspace);
    out.append("/.git\")) (deny network*)");
    Ok(out)
}

/// What is known about the world when a request is decided.
#[derive(Debug)]
pub struct ShellFacts {
    /// Resolved workspace.
    pub workspace: String,
    /// Whether the workspace is a directory.
    pub workspace_is_directory: bool,
    /// Resolved program.
    pub executable: String,
    /// Whether the program is a regular file.
    pub executable_is_file: bool,
    /// Resolved programs of the list.
    pub allowlist: Vec<String>,
    /// Whether the program that confines others is there.
    pub seatbelt_available: bool,
}

/// A program with its arguments.
#[derive(Debug)]
pub struct ShellPlan {
    /// Program that is started.
    pub program: String,
    /// Its arguments.
    pub arguments: Vec<String>,
    /// Its directory.
    pub workspace: String,
    /// Its whole environment.
    pub environment: Vec<(String, String)>,
    /// Time it may run, in milliseconds.
    pub time_limit_millis: u64,
    /// Bytes it may write.
    pub output_limit: usize,
}

/// A program with its arguments, by views.
pub struct PlanModel {
    pub program: Seq<char>,
    pub arguments: Seq<Seq<char>>,
    pub workspace: Seq<char>,
    pub environment: Seq<(Seq<char>, Seq<char>)>,
    pub time_limit_millis: u64,
    pub output_limit: usize,
}

impl View for ShellPlan {
    type V = PlanModel;

    open spec fn view(&self) -> PlanModel {
        PlanModel {
            program: self.program@,
            arguments: texts(self.arguments@),
            workspace: self.workspace@,
            environment: pairs(self.environment@),
            time_limit_millis: self.time_limit_millis,
            output_limit: self.output_limit,
        }
    }
}

/// The environment of a program that is started: nothing is inherited.
pub open spec fn child_environment() -> Seq<(Seq<char>, Seq<char>)> {
    seq![
        ("PATH"@, "/usr/bin:/bin:/usr/sbin:/sbin"@),
        ("LC_ALL"@, "C"@),
        ("LANG"@, "C"@),
    ]
}

fn make_environment() -> (r: Vec<(String, String)>)
    ensures
        pairs(r@) == child_environment(),
{
    let mut out: Vec<(String, String)> = Vec::new();
    out.push(("PATH".to_owned(), "/usr/bin:/bin:/usr/sbin:/sbin".to_owned()));
    out.push(("LC_ALL".to_owned(), "C".to_owned()));
    out.push(("LANG".to_owned(), "C".to_owned()));
    assert(pairs(out@) =~= child_environment());
    out
}

/// The arguments of a request.
pub open spec fn request_arguments(request: ShellModel) -> Seq<Seq<char>> {
    match request.shell_command {
        Some(command) => seq!["-lc"@, command],
        None => request.arguments,
    }
}

/// Why a human must choose before a request runs.
pub open spec fn choice_needed(request: ShellModel, facts: ShellFacts) -> Option<ChoiceReason> {
    if request.approval == ApprovalMode::Ask {
        Some(ChoiceReason::Approval)
    } else if request.approval == ApprovalMode::Allowlist && !texts(facts.allowlist@).contains(
        facts.executable@,
    ) {
        Some(ChoiceReason::Allowlist)
    } else if request.sandbox == SandboxMode::Unrestricted && !request.trusted_unrestricted {
        Some(ChoiceReason::UntrustedUnrestricted)
    } else if request.sandbox == SandboxMode::Container {
        Some(ChoiceReason::ContainerUnavailable)
    } else if request.sandbox == SandboxMode::Seatbelt && !facts.seatbelt_available {
        Some(ChoiceReason::SandboxUnavailable)
    } else {
        None
    }
}

/// How a request runs, or why it does not.
pub open spec fn shell_plan(request: ShellModel, facts: ShellFacts) -> Result<
    PlanModel,
    ShellRefusal,
> {
    if !facts.workspace_is_directory {
        Err(ShellRefusal::Invalid("workspace must be a directory"@))
    } else if !facts.executable_is_file {
        Err(ShellRefusal::Invalid("executable must be a regular file"@))
    } else {
        match choice_needed(request, facts) {
            Some(reason) => Err(
                ShellRefusal::ChoiceRequired(reason, Some(facts.executable@)),
            ),
            None => if request.sandbox == SandboxMode::Seatbelt {
                if facts.workspace@.contains('"') {
                    Err(ShellRefusal::Invalid("workspace contains unsupported quote"@))
                } else {
                    Ok(
                        PlanModel {
                            program: "/usr/bin/sandbox-exec"@,
                            arguments: seq![
                                "-p"@,
                                profile_text(facts.workspace@),
                                facts.executable@,
                            ] + request_arguments(request),
                            workspace: facts.workspace@,
                            environment: child_environment(),
                            time_limit_millis: request.time_limit_millis,
                            output_limit: request.output_limit,
                        },
                    )
                }
            } else {
                Ok(
                    PlanModel {
                        program: facts.executable@,
                        arguments: request_arguments(request),
                        workspace: facts.workspace@,
                        environment: child_environment(),
                        time_limit_millis: request.time_limit_millis,
                        output_limit: request.output_limit,
                    },
                )
            },
        }
    }
}

impl ShellRequest {
    fn own_arguments(&self) -> (r: Vec<String>)
        ensures
            texts(r@) == request_arguments(self@),
    {
        match &self.shell_command {
            Some(command) => {
                let mut out: Vec<String> = Vec::new();
                out.push("-lc".to_owned());
                out.push(command.clone());
                assert(texts(out@) =~= seq!["-lc"@, command@]);
                out
            },
            None => copy_texts(self.arguments.as_slice()),
        }
    }

    fn check_choice(&self, facts: &ShellFacts) -> (r: Option<ChoiceReason>)
        ensures
            r == choice_needed(self@, *facts),
    {
        match self.approval {
            ApprovalMode::Ask => {
                return Some(ChoiceReason::Approval);
            },
            ApprovalMode::Allowlist => {
                proof {
                    crate::text::lemma_has_text(facts.allowlist@, facts.executable@);
                }
                if !contains_text(facts.allowlist.as_slice(), facts.executable.as_str()) {
                    return Some(ChoiceReason::Allowlist);
                }
            },
            ApprovalMode::Never => {},
        }
        match self.sandbox {
            SandboxMode::Unrestricted => {
                if self.trusted_unrestricted {
                    None
                } else {
                    Some(ChoiceReason::UntrustedUnrestricted)
                }
            },
            SandboxMode::Container => Some(ChoiceReason::ContainerUnavailable),
            SandboxMode::Seatbelt => {
                if facts.seatbelt_available {
                    None
                } else {
                    Some(ChoiceReason::SandboxUnavailable)
                }
            },
        }
    }
}

/// Decides how a request runs.
pub fn run_shell(request: &ShellRequest, facts: &ShellFacts) -> (r: Result<ShellPlan, ShellError>)
    ensures
        match shell_plan(request@, *facts) {
            Ok(plan) => r is Ok && r->Ok_0@ == plan,
            Err(refusal) => r is Err && r->Err_0@ == refusal,
        },
{
    if !facts.workspace_is_directory {
        return Err(ShellError::Invalid("workspace must be a directory".to_owned()));
    }
    if !facts.executable_is_file {
        return Err(ShellError::Invalid("executable must be a regular file".to_owned()));
    }
    match request.check_choice(facts) {
        Some(reason) => {
            return Err(
                ShellError::ChoiceRequired { reason, executable: Some(facts.executable.clone()) },
            );
        },
        None => {},
    }
    let mut own = request.own_arguments();
    let ghost given = texts(own@);
    if request.sandbox == SandboxMode::Seatbelt {
        let profile = match seatbelt_profile(facts.workspace.as_str()) {
            Err(error) => {
                return Err(error);
            },
            Ok(profile) => profile,
        };
        let mut arguments: Vec<String> = Vec::new();
        arguments.push("-p".to_owned());
        arguments.push(profile);
        arguments.push(facts.executable.clone());
        let ghost head = texts(arguments@);
        assert(head =~= seq!["-p"@, profile_text(facts.workspace@), facts.executable@]);
        arguments.append(&mut own);
        assert(texts(arguments@) =~= head + given);
        return Ok(
            ShellPlan {
                program: "/usr/bin/sandbox-exec".to_owned(),
                arguments,
                workspace: facts.workspace.clone(),
                environment: make_environment(),
                time_limit_millis: request.time_limit_millis,
                output_limit: request.output_limit,
            },
        );
    }
    Ok(
        ShellPlan {
            program: facts.executable.clone(),
            arguments: own,
            workspace: facts.workspace.clone(),
            environment: make_environment(),
            time_limit_millis: request.time_limit_millis,
            output_limit: request.output_limit,
        },
    )
}

/// What a program has written so far.
#[derive(Debug)]
pub struct ShellCapture {
    stdout: Vec<u8>,
    stderr: Vec<u8>,
    output_limit: usize,
}

/// What a program has written so far, and its limit.
pub type Captured = (Seq<u8>, Seq<u8>, usize);

impl View for ShellCapture {
    type V = Captured;

    closed spec fn view(&self) -> Captured {
        (self.stdout@, self.stderr@, self.output_limit)
    }
}

/// Whether a program has written more than it may.
pub open spec fn over_limit(captured: Captured) -> bool {
    captured.0.len() + captured.1.len() > captured.2
}

impl ShellCapture {
    /// Starts with nothing.
    pub fn new(output_limit: usize) -> (r: ShellCapture)
        ensures
            r@ == (Seq::<u8>::empty(), Seq::<u8>::empty(), output_limit),
    {
        let capture = ShellCapture { stdout: Vec::new(), stderr: Vec::new(), output_limit };
        assert(capture.stdout@ =~= Seq::<u8>::empty());
        assert(capture.stderr@ =~= Seq::<u8>::empty());
        capture
    }

    /// Takes in what the program wrote, and stops it where it has written more than it may.
    pub fn push(&mut self, stdout: &[u8], stderr: &[u8]) -> (r: Result<(), ShellError>)
        ensures
            final(self)@ == (old(self)@.0 + stdout@, old(self)@.1 + stderr@, old(self)@.2),
            if over_limit(final(self)@) {
                r is Err && r->Err_0@ == ShellRefusal::Invalid("shell output limit exceeded"@)
            } else {
                r is Ok
            },
    {
        self.stdout.extend_from_slice(stdout);
        self.stderr.extend_from_slice(stderr);
        assert(self.stdout@ =~= old(self).stdout@ + stdout@);
        assert(self.stderr@ =~= old(self).stderr@ + stderr@);
        let a: usize = self.stdout.len();
        let b: usize = self.stderr.len();
        if a > self.output_limit || b > self.output_limit - a {
            return Err(ShellError::Invalid("shell output limit exceeded".to_owned()));
        }
        Ok(())
    }

    /// Returns what the program wrote and how it ended.
    pub fn finish(self, exit_code: Option<i32>) -> (r: ShellOutcome)
        ensures
            r.stdout@ == lossy(self@.0),
            r.stderr@ == lossy(self@.1),
            r.exit_code == exit_code,
    {
        ShellOutcome {
            stdout: lossy_text(self.stdout.as_slice()),
            stderr: lossy_text(self.stderr.as_slice()),
            exit_code,
        }
    }
}

/// Returns the error for a program that ran too long.
pub fn time_limit_exceeded() -> (r: ShellError)
    ensures
        r@ == ShellRefusal::Invalid("shell time limit exceeded"@),
{
    ShellError::Invalid("shell time limit exceeded".to_owned())
}

/// Nothing runs that nobody agreed to, and nothing runs unconfined without trust.
pub proof fn only_agreed_requests_run(request: ShellModel, facts: ShellFacts)
    requires
        shell_plan(request, facts) is Ok,
    ensures
        request.approval != ApprovalMode::Ask,
        request.approval == ApprovalMode::Allowlist ==> texts(facts.allowlist@).contains(
            facts.executable@,
        ),
        request.sandbox == SandboxMode::Seatbelt || (request.sandbox == SandboxMode::Unrestricted
            && request.trusted_unrestricted),
        request.sandbox == SandboxMode::Seatbelt ==> shell_plan(request, facts)->Ok_0.program
            == "/usr/bin/sandbox-exec"@,
{
}

/// Whatever runs, runs in the same environment, which nothing but the library sets.
pub proof fn environment_is_not_inherited(request: ShellModel, facts: ShellFacts)
    requires
        shell_plan(request, facts) is Ok,
    ensures
        shell_plan(request, facts)->Ok_0.environment == child_environment(),
{
}

} // verus!
