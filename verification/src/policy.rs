//! Opt-in policy evaluation for supported change proposals.
//!
//! Nothing here runs a command or changes a proposed patch.

pub mod bash;
pub mod change_laws;
pub mod glob;
pub mod laws;
pub mod patch;

use vstd::prelude::*;
use crate::digest;
use crate::json;
use crate::order;
use crate::path;
use crate::text;

verus! {

broadcast use vstd::string::group_string_axioms;

pub const POLICY_RELATIVE_PATH: &'static str = ".cabal/policy/change_policy.json";

pub const MAX_POLICY_BYTES: usize = 65_536;

pub const MAX_PATCH_BYTES: usize = 1_048_576;

pub const MAX_PATCH_FILES: usize = 256;

pub const MAX_PATCH_LINE_CHANGES: usize = 200_000;

pub const MAX_COMMAND_BYTES: usize = 4_096;

pub const MAX_COMMAND_ARGS: usize = 32;

pub const MAX_COMMAND_ARG_BYTES: usize = 256;

pub const MAX_REASON_BYTES: usize = 256;

pub const MAX_CODE_BYTES: usize = 64;

pub const MAX_PATTERNS_PER_CLASS: usize = 64;

pub const MAX_COMMANDS_PER_CLASS: usize = 64;

pub const MAX_RECEIPTS: usize = 1_024;

#[derive(Clone, Copy, Debug, PartialEq, Eq, Structural)]
pub enum PolicyState {
    Disabled,
    Active,
}

#[derive(Clone, Copy, Debug, PartialEq, Eq, Structural)]
pub enum Decision {
    Allow,
    Ask,
    Deny,
}

#[derive(Clone, Copy, Debug, PartialEq, Eq, Structural)]
pub enum ReceiptKind {
    ApplyPatch,
    Bash,
}

#[derive(Clone, Debug, PartialEq, Eq)]
pub struct Evaluation {
    pub state: PolicyState,
    pub decision: Option<Decision>,
    pub code: String,
    pub reason: String,
    pub policy_digest: Option<String>,
}

/// What a `Evaluation` says.
pub struct EvaluationModel {
    pub state: PolicyState,
    pub decision: Option<Decision>,
    pub code: Seq<char>,
    pub reason: Seq<char>,
    pub policy_digest: Option<Seq<char>>,
}

impl DeepView for Evaluation {
    type V = EvaluationModel;

    open spec fn deep_view(&self) -> EvaluationModel {
        EvaluationModel {
            state: self.state,
            decision: self.decision,
            code: self.code@,
            reason: self.reason@,
            policy_digest: self.policy_digest.deep_view(),
        }
    }
}

/// What may be done to which paths.
#[derive(Clone, Debug, PartialEq, Eq)]
pub struct PathRules {
    pub allow: Vec<String>,
    pub deny: Vec<String>,
    pub internal: Vec<String>,
    pub generated: Vec<String>,
    pub internal_action: Decision,
    pub generated_action: Decision,
}

/// What a `PathRules` says.
pub struct PathRulesModel {
    pub allow: Seq<Seq<char>>,
    pub deny: Seq<Seq<char>>,
    pub internal: Seq<Seq<char>>,
    pub generated: Seq<Seq<char>>,
    pub internal_action: Decision,
    pub generated_action: Decision,
}

impl DeepView for PathRules {
    type V = PathRulesModel;

    open spec fn deep_view(&self) -> PathRulesModel {
        PathRulesModel {
            allow: self.allow.deep_view(),
            deny: self.deny.deep_view(),
            internal: self.internal.deep_view(),
            generated: self.generated.deep_view(),
            internal_action: self.internal_action,
            generated_action: self.generated_action,
        }
    }
}

#[derive(Clone, Copy, Debug, PartialEq, Eq, Structural)]
pub struct Limits {
    pub max_patch_bytes: usize,
    pub max_files: usize,
    pub max_line_changes: usize,
}

/// What may be done by which commands.
#[derive(Clone, Debug, PartialEq, Eq)]
pub struct CommandRules {
    pub ask: Vec<Vec<String>>,
    pub deny: Vec<Vec<String>>,
    pub destructive: Vec<Vec<String>>,
}

/// What a `CommandRules` says.
pub struct CommandRulesModel {
    pub ask: Seq<Seq<Seq<char>>>,
    pub deny: Seq<Seq<Seq<char>>>,
    pub destructive: Seq<Seq<Seq<char>>>,
}

impl DeepView for CommandRules {
    type V = CommandRulesModel;

    open spec fn deep_view(&self) -> CommandRulesModel {
        CommandRulesModel {
            ask: self.ask.deep_view(),
            deny: self.deny.deep_view(),
            destructive: self.destructive.deep_view(),
        }
    }
}

#[derive(Clone, Debug, PartialEq, Eq)]
pub struct ChangePolicy {
    pub digest: String,
    pub paths: PathRules,
    pub limits: Limits,
    pub commands: CommandRules,
}

/// What a `ChangePolicy` says.
pub struct ChangePolicyModel {
    pub digest: Seq<char>,
    pub paths: PathRulesModel,
    pub limits: Limits,
    pub commands: CommandRulesModel,
}

impl DeepView for ChangePolicy {
    type V = ChangePolicyModel;

    open spec fn deep_view(&self) -> ChangePolicyModel {
        ChangePolicyModel {
            digest: self.digest@,
            paths: self.paths.deep_view(),
            limits: self.limits,
            commands: self.commands.deep_view(),
        }
    }
}

#[derive(Clone, Debug, PartialEq, Eq)]
pub struct Receipt {
    pub policy_digest: String,
    pub input_kind: ReceiptKind,
    pub decision: Option<Decision>,
    pub code: String,
    pub input_digest: String,
    pub created_unix_ms: u128,
}

/// What a `Receipt` says.
pub struct ReceiptModel {
    pub policy_digest: Seq<char>,
    pub input_kind: ReceiptKind,
    pub decision: Option<Decision>,
    pub code: Seq<char>,
    pub input_digest: Seq<char>,
    pub created_unix_ms: u128,
}

impl DeepView for Receipt {
    type V = ReceiptModel;

    open spec fn deep_view(&self) -> ReceiptModel {
        ReceiptModel {
            policy_digest: self.policy_digest@,
            input_kind: self.input_kind,
            decision: self.decision,
            code: self.code@,
            input_digest: self.input_digest@,
            created_unix_ms: self.created_unix_ms,
        }
    }
}

/// The `paths` of a policy file.
#[derive(Clone, Debug, PartialEq, Eq)]
pub struct WirePaths {
    pub allow: Vec<String>,
    pub deny: Vec<String>,
    pub internal: Vec<String>,
    pub generated: Vec<String>,
}

/// What a `WirePaths` says.
pub struct WirePathsModel {
    pub allow: Seq<Seq<char>>,
    pub deny: Seq<Seq<char>>,
    pub internal: Seq<Seq<char>>,
    pub generated: Seq<Seq<char>>,
}

impl DeepView for WirePaths {
    type V = WirePathsModel;

    open spec fn deep_view(&self) -> WirePathsModel {
        WirePathsModel {
            allow: self.allow.deep_view(),
            deny: self.deny.deep_view(),
            internal: self.internal.deep_view(),
            generated: self.generated.deep_view(),
        }
    }
}

/// The `rules` of a policy file.
#[derive(Clone, Copy, Debug, PartialEq, Eq)]
pub struct WireRules {
    pub internal: Option<Decision>,
    pub generated: Option<Decision>,
}

/// The `limits` of a policy file.
#[derive(Clone, Copy, Debug, PartialEq, Eq)]
pub struct WireLimits {
    pub max_patch_bytes: Option<usize>,
    pub max_files: Option<usize>,
    pub max_line_changes: Option<usize>,
}

/// The `commands` of a policy file.
#[derive(Clone, Debug, PartialEq, Eq)]
pub struct WireCommands {
    pub allow: Vec<Vec<String>>,
    pub ask: Vec<Vec<String>>,
    pub deny: Vec<Vec<String>>,
    pub destructive: Vec<Vec<String>>,
}

/// What a `WireCommands` says.
pub struct WireCommandsModel {
    pub allow: Seq<Seq<Seq<char>>>,
    pub ask: Seq<Seq<Seq<char>>>,
    pub deny: Seq<Seq<Seq<char>>>,
    pub destructive: Seq<Seq<Seq<char>>>,
}

impl DeepView for WireCommands {
    type V = WireCommandsModel;

    open spec fn deep_view(&self) -> WireCommandsModel {
        WireCommandsModel {
            allow: self.allow.deep_view(),
            ask: self.ask.deep_view(),
            deny: self.deny.deep_view(),
            destructive: self.destructive.deep_view(),
        }
    }
}

/// A policy file as it is written.
#[derive(Clone, Debug, PartialEq, Eq)]
pub struct WirePolicy {
    pub version: u32,
    pub paths: Option<WirePaths>,
    pub rules: Option<WireRules>,
    pub limits: Option<WireLimits>,
    pub commands: Option<WireCommands>,
}

/// What a `WirePolicy` says.
pub struct WirePolicyModel {
    pub version: u32,
    pub paths: Option<WirePathsModel>,
    pub rules: Option<WireRules>,
    pub limits: Option<WireLimits>,
    pub commands: Option<WireCommandsModel>,
}

impl DeepView for WirePolicy {
    type V = WirePolicyModel;

    open spec fn deep_view(&self) -> WirePolicyModel {
        WirePolicyModel {
            version: self.version,
            paths: self.paths.deep_view(),
            rules: self.rules,
            limits: self.limits,
            commands: self.commands.deep_view(),
        }
    }
}

/// Why a proposal is refused: a code for a program and a reason for a person.
#[derive(Clone, Copy, Debug)]
pub struct Refusal {
    pub code: &'static str,
    pub reason: &'static str,
}

pub struct RefusalModel {
    pub code: Seq<char>,
    pub reason: Seq<char>,
}

impl DeepView for Refusal {
    type V = RefusalModel;

    open spec fn deep_view(&self) -> RefusalModel {
        RefusalModel { code: self.code@, reason: self.reason@ }
    }
}

#[derive(Clone, Debug, PartialEq, Eq)]
pub enum PolicyLoad {
    Disabled,
    Active(Box<ChangePolicy>),
}

#[derive(Clone, Copy, Debug, PartialEq, Eq)]
pub enum ToolInput<'a> {
    ApplyPatch(&'a str),
    Bash(&'a str),
}

#[derive(Clone, Debug, PartialEq, Eq)]
pub enum PolicyError {
    Io(String),
    Json(String),
    PolicyOutsideWorkspace,
    PolicyTooLarge,
    MalformedPolicy(String),
    UnsupportedPolicy(String),
    StateOutsideWorkspace,
    InvalidPath(String),
    OutsideWorkspace(String),
}

pub enum PolicyErrorModel {
    Io(Seq<char>),
    Json(Seq<char>),
    PolicyOutsideWorkspace,
    PolicyTooLarge,
    MalformedPolicy(Seq<char>),
    UnsupportedPolicy(Seq<char>),
    StateOutsideWorkspace,
    InvalidPath(Seq<char>),
    OutsideWorkspace(Seq<char>),
}

impl DeepView for PolicyError {
    type V = PolicyErrorModel;

    open spec fn deep_view(&self) -> PolicyErrorModel {
        match self {
            PolicyError::Io(e) => PolicyErrorModel::Io(e@),
            PolicyError::Json(e) => PolicyErrorModel::Json(e@),
            PolicyError::PolicyOutsideWorkspace => PolicyErrorModel::PolicyOutsideWorkspace,
            PolicyError::PolicyTooLarge => PolicyErrorModel::PolicyTooLarge,
            PolicyError::MalformedPolicy(e) => PolicyErrorModel::MalformedPolicy(e@),
            PolicyError::UnsupportedPolicy(e) => PolicyErrorModel::UnsupportedPolicy(e@),
            PolicyError::StateOutsideWorkspace => PolicyErrorModel::StateOutsideWorkspace,
            PolicyError::InvalidPath(e) => PolicyErrorModel::InvalidPath(e@),
            PolicyError::OutsideWorkspace(e) => PolicyErrorModel::OutsideWorkspace(e@),
        }
    }
}

impl PolicyErrorModel {
    pub open spec fn message(self) -> Seq<char> {
        match self {
            PolicyErrorModel::Io(e) => "change policy I/O: "@ + e,
            PolicyErrorModel::Json(e) => "change policy JSON: "@ + e,
            PolicyErrorModel::PolicyOutsideWorkspace => "policy is outside the workspace"@,
            PolicyErrorModel::PolicyTooLarge => "policy exceeds its byte limit"@,
            PolicyErrorModel::MalformedPolicy(e) => "malformed change policy: "@ + e,
            PolicyErrorModel::UnsupportedPolicy(e) => "unsupported change policy: "@ + e,
            PolicyErrorModel::StateOutsideWorkspace => "receipt state is outside .cabal"@,
            PolicyErrorModel::InvalidPath(e) => "invalid policy path: "@ + e,
            PolicyErrorModel::OutsideWorkspace(e) => "path escapes workspace: "@ + e,
        }
    }
}

impl PolicyError {
    /// The error as a sentence for a person.
    pub fn message(&self) -> (r: String)
        ensures
            r@ == self.deep_view().message(),
    {
        match self {
            PolicyError::Io(e) => text::concat("change policy I/O: ", e.as_str()),
            PolicyError::Json(e) => text::concat("change policy JSON: ", e.as_str()),
            PolicyError::PolicyOutsideWorkspace => text::copy("policy is outside the workspace"),
            PolicyError::PolicyTooLarge => text::copy("policy exceeds its byte limit"),
            PolicyError::MalformedPolicy(e) => text::concat(
                "malformed change policy: ",
                e.as_str(),
            ),
            PolicyError::UnsupportedPolicy(e) => text::concat(
                "unsupported change policy: ",
                e.as_str(),
            ),
            PolicyError::StateOutsideWorkspace => text::copy("receipt state is outside .cabal"),
            PolicyError::InvalidPath(e) => text::concat("invalid policy path: ", e.as_str()),
            PolicyError::OutsideWorkspace(e) => text::concat(
                "path escapes workspace: ",
                e.as_str(),
            ),
        }
    }
}

pub open spec fn malformed_policy(reason: Seq<char>) -> PolicyErrorModel {
    PolicyErrorModel::MalformedPolicy(reason)
}

fn malformed(reason: &str) -> (r: PolicyError)
    ensures
        r.deep_view() == malformed_policy(reason@),
{
    PolicyError::MalformedPolicy(text::copy(reason))
}

/// A path pattern of a policy.
pub open spec fn valid_pattern(pattern: Seq<char>) -> bool {
    patch::valid_relative(pattern, 512)
}

/// What is wrong with the patterns of a class.
pub open spec fn patterns_fault(patterns: Seq<Seq<char>>) -> Option<PolicyErrorModel> {
    if patterns.len() > MAX_PATTERNS_PER_CLASS {
        Some(malformed_policy("too many path patterns"@))
    } else if exists|i: int| 0 <= i < patterns.len() && !valid_pattern(#[trigger] patterns[i]) {
        Some(malformed_policy("invalid path pattern"@))
    } else {
        None
    }
}

/// What is wrong with the patterns of a policy: the first fault of its classes.
pub open spec fn paths_fault(paths: WirePathsModel) -> Option<PolicyErrorModel> {
    match patterns_fault(paths.allow) {
        Some(fault) => Some(fault),
        None => match patterns_fault(paths.deny) {
            Some(fault) => Some(fault),
            None => match patterns_fault(paths.internal) {
                Some(fault) => Some(fault),
                None => patterns_fault(paths.generated),
            },
        },
    }
}

/// What is wrong with the commands of a class.
pub open spec fn commands_class_fault(commands: Seq<Seq<Seq<char>>>) -> Option<PolicyErrorModel> {
    if commands.len() > MAX_COMMANDS_PER_CLASS {
        Some(malformed_policy("too many command rules"@))
    } else if exists|i: int|
        0 <= i < commands.len() && !bash::valid_argv(#[trigger] commands[i]) {
        Some(malformed_policy("invalid bounded command rule"@))
    } else {
        None
    }
}

/// What is wrong with the commands of a policy: the first fault of its classes.
pub open spec fn commands_fault(commands: WireCommandsModel) -> Option<PolicyErrorModel> {
    match commands_class_fault(commands.allow) {
        Some(fault) => Some(fault),
        None => match commands_class_fault(commands.ask) {
            Some(fault) => Some(fault),
            None => match commands_class_fault(commands.deny) {
                Some(fault) => Some(fault),
                None => commands_class_fault(commands.destructive),
            },
        },
    }
}

pub open spec fn or_default(value: Option<usize>, default: usize) -> usize {
    match value {
        Some(value) => value,
        None => default,
    }
}

/// The limits that a policy asks for, with what holds where it is silent.
pub open spec fn wanted_limits(wire: WireLimits) -> Limits {
    Limits {
        max_patch_bytes: or_default(wire.max_patch_bytes, 65_536),
        max_files: or_default(wire.max_files, 32),
        max_line_changes: or_default(wire.max_line_changes, 2_000),
    }
}

/// Limits that a policy may set.
pub open spec fn valid_limits(limits: Limits) -> bool {
    &&& 0 < limits.max_patch_bytes <= MAX_PATCH_BYTES
    &&& 0 < limits.max_files <= MAX_PATCH_FILES
    &&& 0 < limits.max_line_changes <= MAX_PATCH_LINE_CHANGES
}

pub open spec fn no_paths() -> WirePathsModel {
    WirePathsModel { allow: seq![], deny: seq![], internal: seq![], generated: seq![] }
}

pub open spec fn no_commands() -> WireCommandsModel {
    WireCommandsModel { allow: seq![], ask: seq![], deny: seq![], destructive: seq![] }
}

/// The policy that a file states, or the first fault in it.
pub open spec fn policy_of(wire: WirePolicyModel, digest: Seq<char>) -> Result<
    ChangePolicyModel,
    PolicyErrorModel,
> {
    let paths = match wire.paths {
        Some(paths) => paths,
        None => no_paths(),
    };
    let commands = match wire.commands {
        Some(commands) => commands,
        None => no_commands(),
    };
    let limits = wanted_limits(
        match wire.limits {
            Some(limits) => limits,
            None => WireLimits { max_patch_bytes: None, max_files: None, max_line_changes: None },
        },
    );
    if paths_fault(paths) is Some {
        Err(paths_fault(paths)->0)
    } else if !valid_limits(limits) {
        Err(malformed_policy("invalid policy limits"@))
    } else if commands_fault(commands) is Some {
        Err(commands_fault(commands)->0)
    } else {
        Ok(
            ChangePolicyModel {
                digest,
                paths: PathRulesModel {
                    allow: paths.allow,
                    deny: paths.deny,
                    internal: paths.internal,
                    generated: paths.generated,
                    internal_action: match wire.rules {
                        Some(WireRules { internal: Some(action), .. }) => action,
                        _ => Decision::Ask,
                    },
                    generated_action: match wire.rules {
                        Some(WireRules { generated: Some(action), .. }) => action,
                        _ => Decision::Deny,
                    },
                },
                limits,
                commands: CommandRulesModel {
                    ask: commands.ask,
                    deny: commands.deny,
                    destructive: commands.destructive,
                },
            },
        )
    }
}

fn check_patterns(patterns: &Vec<String>) -> (r: Option<PolicyError>)
    ensures
        r.deep_view() == patterns_fault(patterns.deep_view()),
{
    let ghost all = patterns.deep_view();
    if patterns.len() > MAX_PATTERNS_PER_CLASS {
        return Some(malformed("too many path patterns"));
    }
    let mut i: usize = 0;
    while i < patterns.len()
        invariant
            i <= patterns@.len(),
            patterns@.len() <= MAX_PATTERNS_PER_CLASS,
            all == patterns.deep_view(),
            forall|k: int| 0 <= k < i ==> valid_pattern(#[trigger] all[k]),
        decreases patterns@.len() - i,
    {
        assert(all[i as int] == patterns@[i as int]@);
        if !patch::is_valid_relative(patterns[i].as_str(), 512) {
            assert(!valid_pattern(all[i as int]));
            return Some(malformed("invalid path pattern"));
        }
        i += 1;
    }
    None
}

fn check_paths(paths: &WirePaths) -> (r: Option<PolicyError>)
    ensures
        r.deep_view() == paths_fault(paths.deep_view()),
{
    match check_patterns(&paths.allow) {
        Some(fault) => Some(fault),
        None => match check_patterns(&paths.deny) {
            Some(fault) => Some(fault),
            None => match check_patterns(&paths.internal) {
                Some(fault) => Some(fault),
                None => check_patterns(&paths.generated),
            },
        },
    }
}

fn check_commands_class(commands: &Vec<Vec<String>>) -> (r: Option<PolicyError>)
    ensures
        r.deep_view() == commands_class_fault(commands.deep_view()),
{
    let ghost all = commands.deep_view();
    if commands.len() > MAX_COMMANDS_PER_CLASS {
        return Some(malformed("too many command rules"));
    }
    let mut i: usize = 0;
    while i < commands.len()
        invariant
            i <= commands@.len(),
            commands@.len() <= MAX_COMMANDS_PER_CLASS,
            all == commands.deep_view(),
            forall|k: int| 0 <= k < i ==> bash::valid_argv(#[trigger] all[k]),
        decreases commands@.len() - i,
    {
        assert(all[i as int] == commands@[i as int].deep_view());
        if !bash::validate_argv(&commands[i]) {
            assert(!bash::valid_argv(all[i as int]));
            return Some(malformed("invalid bounded command rule"));
        }
        i += 1;
    }
    None
}

fn check_commands(commands: &WireCommands) -> (r: Option<PolicyError>)
    ensures
        r.deep_view() == commands_fault(commands.deep_view()),
{
    match check_commands_class(&commands.allow) {
        Some(fault) => Some(fault),
        None => match check_commands_class(&commands.ask) {
            Some(fault) => Some(fault),
            None => match check_commands_class(&commands.deny) {
                Some(fault) => Some(fault),
                None => check_commands_class(&commands.destructive),
            },
        },
    }
}

impl Limits {
    fn new(wire: WireLimits) -> (r: Result<Limits, PolicyError>)
        ensures
            match r {
                Ok(limits) => limits == wanted_limits(wire) && valid_limits(limits),
                Err(error) => !valid_limits(wanted_limits(wire)) && error.deep_view()
                    == malformed_policy("invalid policy limits"@),
            },
    {
        let limits = Limits {
            max_patch_bytes: wire.max_patch_bytes.unwrap_or(65_536),
            max_files: wire.max_files.unwrap_or(32),
            max_line_changes: wire.max_line_changes.unwrap_or(2_000),
        };
        if limits.max_patch_bytes == 0 || limits.max_patch_bytes > MAX_PATCH_BYTES
            || limits.max_files == 0 || limits.max_files > MAX_PATCH_FILES
            || limits.max_line_changes == 0 || limits.max_line_changes > MAX_PATCH_LINE_CHANGES {
            return Err(malformed("invalid policy limits"));
        }
        Ok(limits)
    }
}

impl ChangePolicy {
    pub fn digest(&self) -> (r: &str)
        ensures
            r@ == self.deep_view().digest,
    {
        self.digest.as_str()
    }

    /// The policy that a file states, under the digest of the file.
    pub fn from_wire(wire: WirePolicy, digest: String) -> (r: Result<ChangePolicy, PolicyError>)
        ensures
            match (r, policy_of(wire.deep_view(), digest@)) {
                (Ok(policy), Ok(p)) => policy.deep_view() == p,
                (Err(error), Err(e)) => error.deep_view() == e,
                _ => false,
            },
    {
        let paths = match wire.paths {
            Some(paths) => paths,
            None => {
                let none = WirePaths {
                    allow: Vec::new(),
                    deny: Vec::new(),
                    internal: Vec::new(),
                    generated: Vec::new(),
                };
                assert(none.allow.deep_view() =~= Seq::empty());
                none
            },
        };
        let commands = match wire.commands {
            Some(commands) => commands,
            None => {
                let none = WireCommands {
                    allow: Vec::new(),
                    ask: Vec::new(),
                    deny: Vec::new(),
                    destructive: Vec::new(),
                };
                assert(none.allow.deep_view() =~= Seq::empty());
                none
            },
        };
        let wanted = match wire.limits {
            Some(limits) => limits,
            None => WireLimits { max_patch_bytes: None, max_files: None, max_line_changes: None },
        };
        match check_paths(&paths) {
            Some(fault) => {
                return Err(fault);
            },
            None => {},
        }
        let limits = match Limits::new(wanted) {
            Ok(limits) => limits,
            Err(fault) => {
                return Err(fault);
            },
        };
        match check_commands(&commands) {
            Some(fault) => {
                return Err(fault);
            },
            None => {},
        }
        let internal_action = match wire.rules {
            Some(rules) => match rules.internal {
                Some(action) => action,
                None => Decision::Ask,
            },
            None => Decision::Ask,
        };
        let generated_action = match wire.rules {
            Some(rules) => match rules.generated {
                Some(action) => action,
                None => Decision::Deny,
            },
            None => Decision::Deny,
        };
        Ok(
            ChangePolicy {
                digest,
                paths: PathRules {
                    allow: paths.allow,
                    deny: paths.deny,
                    internal: paths.internal,
                    generated: paths.generated,
                    internal_action,
                    generated_action,
                },
                limits,
                commands: CommandRules {
                    ask: commands.ask,
                    deny: commands.deny,
                    destructive: commands.destructive,
                },
            },
        )
    }
}

pub enum PolicyLoadModel {
    Disabled,
    Active(ChangePolicyModel),
}

impl DeepView for PolicyLoad {
    type V = PolicyLoadModel;

    open spec fn deep_view(&self) -> PolicyLoadModel {
        match self {
            PolicyLoad::Disabled => PolicyLoadModel::Disabled,
            PolicyLoad::Active(policy) => PolicyLoadModel::Active(policy.deep_view()),
        }
    }
}

/// The file as its typed form, or why it has none.
pub open spec fn wire_of(wire: Result<WirePolicy, String>) -> Result<WirePolicyModel, Seq<char>> {
    match wire {
        Ok(wire) => Ok(wire.deep_view()),
        Err(message) => Err(message@),
    }
}

/// What a policy file comes to: its size is checked first, then its form, its
/// version and its rules.
pub open spec fn load_of(raw: Option<Seq<u8>>, wire: Result<WirePolicyModel, Seq<char>>) -> Result<
    PolicyLoadModel,
    PolicyErrorModel,
> {
    match raw {
        None => Ok(PolicyLoadModel::Disabled),
        Some(raw) => if raw.len() > MAX_POLICY_BYTES {
            Err(PolicyErrorModel::PolicyTooLarge)
        } else {
            match wire {
                Err(message) => Err(PolicyErrorModel::MalformedPolicy(message)),
                Ok(wire) => if wire.version != 1 {
                    Err(
                        PolicyErrorModel::UnsupportedPolicy(
                            "version "@ + text::decimal(wire.version as nat),
                        ),
                    )
                } else {
                    match policy_of(wire, digest::sha256_hex(raw)) {
                        Ok(policy) => Ok(PolicyLoadModel::Active(policy)),
                        Err(error) => Err(error),
                    }
                },
            }
        },
    }
}

/// Loads a policy from its file. `raw` is what the file holds, `None` where there is
/// no file; `wire` is the file in its typed form, or why it has none.
pub fn load_policy(raw: Option<&[u8]>, wire: Result<WirePolicy, String>) -> (r: Result<
    PolicyLoad,
    PolicyError,
>)
    ensures
        match (
            r,
            load_of(
                match raw {
                    Some(raw) => Some(raw@),
                    None => None,
                },
                wire_of(wire),
            ),
        ) {
            (Ok(load), Ok(l)) => load.deep_view() == l,
            (Err(error), Err(e)) => error.deep_view() == e,
            _ => false,
        },
{
    let raw = match raw {
        Some(raw) => raw,
        None => {
            return Ok(PolicyLoad::Disabled);
        },
    };
    if raw.len() > MAX_POLICY_BYTES {
        return Err(PolicyError::PolicyTooLarge);
    }
    let wire = match wire {
        Ok(wire) => wire,
        Err(message) => {
            return Err(PolicyError::MalformedPolicy(message));
        },
    };
    if wire.version != 1 {
        let version = text::to_text(text::format_number(wire.version as u64).as_slice());
        return Err(PolicyError::UnsupportedPolicy(text::concat("version ", version.as_str())));
    }
    match ChangePolicy::from_wire(wire, digest::sha256_text(raw)) {
        Ok(policy) => Ok(PolicyLoad::Active(Box::new(policy))),
        Err(error) => Err(error),
    }
}

/// The stricter of two decisions.
pub open spec fn combined(left: Decision, right: Decision) -> Decision {
    if left == Decision::Deny || right == Decision::Deny {
        Decision::Deny
    } else if left == Decision::Ask || right == Decision::Ask {
        Decision::Ask
    } else {
        Decision::Allow
    }
}

pub open spec fn code_of(decision: Decision) -> Seq<char> {
    match decision {
        Decision::Allow => "allowed"@,
        Decision::Ask => "approval_required"@,
        Decision::Deny => "denied_by_policy"@,
    }
}

pub open spec fn reason_of(decision: Decision) -> Seq<char> {
    match decision {
        Decision::Allow => "policy allows this change"@,
        Decision::Ask => "policy requires approval for this change"@,
        Decision::Deny => "policy denies this change"@,
    }
}

impl PathRulesModel {
    /// What the rules say of a path: a denied path and one outside an allow list are
    /// refused, and internal and generated paths have an action of their own.
    pub open spec fn decision_for(self, path: Seq<char>) -> Result<Decision, RefusalModel> {
        if glob::any_match(self.deny, path) {
            Err(RefusalModel { code: "path_denied"@, reason: "patch changes a denied path"@ })
        } else if self.allow.len() > 0 && !glob::any_match(self.allow, path) {
            Err(
                RefusalModel {
                    code: "path_not_allowed"@,
                    reason: "patch path is not in the allow list"@,
                },
            )
        } else {
            let internal = if glob::any_match(self.internal, path) {
                self.internal_action
            } else {
                Decision::Allow
            };
            let generated = if glob::any_match(self.generated, path) {
                self.generated_action
            } else {
                Decision::Allow
            };
            Ok(combined(internal, generated))
        }
    }
}

/// Some rule from `i` on is exactly the given words.
pub open spec fn has_rule_from(rules: Seq<Seq<Seq<char>>>, argv: Seq<Seq<char>>, i: int) -> bool
    decreases rules.len() - i,
{
    if i < 0 || i >= rules.len() {
        false
    } else {
        rules[i] == argv || has_rule_from(rules, argv, i + 1)
    }
}

impl CommandRulesModel {
    /// What the rules say of a command. One that no rule names is allowed.
    pub open spec fn decision_for(self, argv: Seq<Seq<char>>) -> Decision {
        if bash::destructive_argv(argv) || has_rule_from(self.destructive, argv, 0)
            || has_rule_from(self.deny, argv, 0) {
            Decision::Deny
        } else if has_rule_from(self.ask, argv, 0) {
            Decision::Ask
        } else {
            Decision::Allow
        }
    }
}

/// The decision on the paths from `i` on. The paths in `escaping` leave the workspace
/// through a link.
pub open spec fn paths_decision_from(
    rules: PathRulesModel,
    paths: Seq<Seq<char>>,
    escaping: Seq<Seq<char>>,
    i: int,
    decision: Decision,
) -> Result<Decision, RefusalModel>
    decreases paths.len() - i,
{
    if i < 0 || i >= paths.len() {
        Ok(decision)
    } else if !patch::valid_path(paths[i]) {
        Err(RefusalModel { code: "invalid_path"@, reason: "patch contains an invalid path"@ })
    } else if escaping.contains(paths[i]) {
        Err(
            RefusalModel {
                code: "path_outside_workspace"@,
                reason: "patch path escapes the workspace"@,
            },
        )
    } else {
        match rules.decision_for(paths[i]) {
            Ok(next) => paths_decision_from(
                rules,
                paths,
                escaping,
                i + 1,
                combined(decision, next),
            ),
            Err(refusal) => Err(refusal),
        }
    }
}

impl ChangePolicyModel {
    /// The decision on a patch: its size, its form, its limits, then each path in
    /// order.
    pub open spec fn patch_decision(self, patch: Seq<char>, escaping: Seq<Seq<char>>) -> Result<
        Decision,
        RefusalModel,
    > {
        if text::byte_len(patch) > self.limits.max_patch_bytes {
            Err(
                RefusalModel {
                    code: "patch_too_large"@,
                    reason: "patch exceeds the configured byte limit"@,
                },
            )
        } else {
            match patch::parsed_patch(patch) {
                Err(refusal) => Err(refusal),
                Ok(parsed) => if parsed.paths.len() > self.limits.max_files {
                    Err(
                        RefusalModel {
                            code: "too_many_files"@,
                            reason: "patch exceeds the configured file limit"@,
                        },
                    )
                } else if parsed.line_changes > self.limits.max_line_changes {
                    Err(
                        RefusalModel {
                            code: "too_many_line_changes"@,
                            reason: "patch exceeds the configured line-change limit"@,
                        },
                    )
                } else {
                    paths_decision_from(self.paths, parsed.paths, escaping, 0, Decision::Allow)
                },
            }
        }
    }

    /// The decision on a command; none where it is outside the grammar.
    pub open spec fn bash_decision(self, command: Seq<char>) -> Option<Decision> {
        if bash::destructive(command) {
            Some(Decision::Deny)
        } else {
            match bash::argv_of(command) {
                Ok(argv) => Some(self.commands.decision_for(argv)),
                Err(_) => None,
            }
        }
    }
}

pub open spec fn decided(decision: Decision, digest: Seq<char>) -> EvaluationModel {
    EvaluationModel {
        state: PolicyState::Active,
        decision: Some(decision),
        code: code_of(decision),
        reason: reason_of(decision),
        policy_digest: Some(digest),
    }
}

pub open spec fn refused(refusal: RefusalModel, digest: Option<Seq<char>>) -> EvaluationModel {
    EvaluationModel {
        state: PolicyState::Active,
        decision: Some(Decision::Deny),
        code: refusal.code,
        reason: refusal.reason,
        policy_digest: digest,
    }
}

pub open spec fn open_question(code: Seq<char>, digest: Option<Seq<char>>) -> EvaluationModel {
    EvaluationModel {
        state: PolicyState::Active,
        decision: None,
        code,
        reason: "change policy made no decision"@,
        policy_digest: digest,
    }
}

pub open spec fn without_policy() -> EvaluationModel {
    EvaluationModel {
        state: PolicyState::Disabled,
        decision: None,
        code: "policy_disabled"@,
        reason: "no change policy is configured"@,
        policy_digest: None,
    }
}

/// A proposal by what it says.
pub enum ToolInputModel {
    ApplyPatch(Seq<char>),
    Bash(Seq<char>),
}

impl<'a> DeepView for ToolInput<'a> {
    type V = ToolInputModel;

    open spec fn deep_view(&self) -> ToolInputModel {
        match self {
            ToolInput::ApplyPatch(patch) => ToolInputModel::ApplyPatch(patch@),
            ToolInput::Bash(command) => ToolInputModel::Bash(command@),
        }
    }
}

impl ChangePolicyModel {
    /// What the policy says of a proposal.
    pub open spec fn evaluation(
        self,
        input: ToolInputModel,
        escaping: Seq<Seq<char>>,
    ) -> EvaluationModel {
        match input {
            ToolInputModel::ApplyPatch(patch) => match self.patch_decision(patch, escaping) {
                Ok(decision) => decided(decision, self.digest),
                Err(refusal) => refused(refusal, Some(self.digest)),
            },
            ToolInputModel::Bash(command) => match self.bash_decision(command) {
                Some(decision) => decided(decision, self.digest),
                None => open_question("unsupported_command"@, Some(self.digest)),
            },
        }
    }
}

/// What is said of a proposal where the policy is there but cannot be used: a patch
/// and a destructive command are denied, and any other command is left open.
pub open spec fn evaluation_without_rules(input: ToolInputModel) -> EvaluationModel {
    let denied = refused(
        RefusalModel { code: "invalid_policy"@, reason: "active change policy is invalid"@ },
        None,
    );
    match input {
        ToolInputModel::ApplyPatch(_) => denied,
        ToolInputModel::Bash(command) => if bash::destructive(command) {
            denied
        } else {
            open_question("invalid_policy"@, None)
        },
    }
}

/// What is said of a proposal for a loaded policy.
pub open spec fn evaluation_for(
    load: Result<PolicyLoadModel, PolicyErrorModel>,
    input: ToolInputModel,
    escaping: Seq<Seq<char>>,
) -> EvaluationModel {
    match load {
        Ok(PolicyLoadModel::Disabled) => without_policy(),
        Ok(PolicyLoadModel::Active(policy)) => policy.evaluation(input, escaping),
        Err(_) => evaluation_without_rules(input),
    }
}

fn combine(left: Decision, right: Decision) -> (r: Decision)
    ensures
        r == combined(left, right),
{
    if left == Decision::Deny || right == Decision::Deny {
        Decision::Deny
    } else if left == Decision::Ask || right == Decision::Ask {
        Decision::Ask
    } else {
        Decision::Allow
    }
}

fn decision_code(decision: Decision) -> (r: &'static str)
    ensures
        r@ == code_of(decision),
        text::byte_len(r@) <= MAX_CODE_BYTES,
{
    proof {
        let max = MAX_CODE_BYTES as nat;
        reveal_strlit("allowed");
        reveal_strlit("approval_required");
        reveal_strlit("denied_by_policy");
        text::short_ascii_is_kept("allowed"@, max);
        text::short_ascii_is_kept("approval_required"@, max);
        text::short_ascii_is_kept("denied_by_policy"@, max);
    }
    match decision {
        Decision::Allow => "allowed",
        Decision::Ask => "approval_required",
        Decision::Deny => "denied_by_policy",
    }
}

fn decision_reason(decision: Decision) -> (r: &'static str)
    ensures
        r@ == reason_of(decision),
        text::byte_len(r@) <= MAX_REASON_BYTES,
{
    proof {
        let max = MAX_REASON_BYTES as nat;
        reveal_strlit("policy allows this change");
        reveal_strlit("policy requires approval for this change");
        reveal_strlit("policy denies this change");
        text::short_ascii_is_kept("policy allows this change"@, max);
        text::short_ascii_is_kept("policy requires approval for this change"@, max);
        text::short_ascii_is_kept("policy denies this change"@, max);
    }
    match decision {
        Decision::Allow => "policy allows this change",
        Decision::Ask => "policy requires approval for this change",
        Decision::Deny => "policy denies this change",
    }
}

fn evaluation(decision: Decision, digest: &str) -> (r: Evaluation)
    ensures
        r.deep_view() == decided(decision, digest@),
{
    Evaluation {
        state: PolicyState::Active,
        decision: Some(decision),
        code: text::bound(decision_code(decision), MAX_CODE_BYTES),
        reason: text::bound(decision_reason(decision), MAX_REASON_BYTES),
        policy_digest: Some(text::copy(digest)),
    }
}

fn denied(refusal: Refusal, digest: Option<&str>) -> (r: Evaluation)
    requires
        patch::short(refusal.deep_view()),
    ensures
        r.deep_view() == refused(
            refusal.deep_view(),
            match digest {
                Some(digest) => Some(digest@),
                None => None,
            },
        ),
{
    Evaluation {
        state: PolicyState::Active,
        decision: Some(Decision::Deny),
        code: text::bound(refusal.code, MAX_CODE_BYTES),
        reason: text::bound(refusal.reason, MAX_REASON_BYTES),
        policy_digest: match digest {
            Some(digest) => Some(text::copy(digest)),
            None => None,
        },
    }
}

fn disabled_evaluation() -> (r: Evaluation)
    ensures
        r.deep_view() == without_policy(),
{
    Evaluation {
        state: PolicyState::Disabled,
        decision: None,
        code: text::copy("policy_disabled"),
        reason: text::copy("no change policy is configured"),
        policy_digest: None,
    }
}

fn undecided(code: &str, digest: Option<&str>) -> (r: Evaluation)
    requires
        text::byte_len(code@) <= MAX_CODE_BYTES,
    ensures
        r.deep_view() == open_question(
            code@,
            match digest {
                Some(digest) => Some(digest@),
                None => None,
            },
        ),
{
    Evaluation {
        state: PolicyState::Active,
        decision: None,
        code: text::bound(code, MAX_CODE_BYTES),
        reason: text::copy("change policy made no decision"),
        policy_digest: match digest {
            Some(digest) => Some(text::copy(digest)),
            None => None,
        },
    }
}

proof fn literal_refusal_is_short(refusal: RefusalModel)
    requires
        vstd::utf8::is_ascii_chars(refusal.code),
        refusal.code.len() <= MAX_CODE_BYTES,
        vstd::utf8::is_ascii_chars(refusal.reason),
        refusal.reason.len() <= MAX_REASON_BYTES,
    ensures
        patch::short(refusal),
{
    text::short_ascii_is_kept(refusal.code, MAX_CODE_BYTES as nat);
    text::short_ascii_is_kept(refusal.reason, MAX_REASON_BYTES as nat);
}

impl PathRules {
    /// What the rules say of a path.
    pub fn decision_for(&self, path: &str) -> (r: Result<Decision, Refusal>)
        ensures
            match (r, self.deep_view().decision_for(path@)) {
                (Ok(decision), Ok(d)) => decision == d,
                (Err(refusal), Err(e)) => refusal.deep_view() == e && patch::short(e),
                _ => false,
            },
    {
        if glob::matches_any(&self.deny, path) {
            let refusal = Refusal { code: "path_denied", reason: "patch changes a denied path" };
            proof {
                reveal_strlit("path_denied");
                reveal_strlit("patch changes a denied path");
                literal_refusal_is_short(refusal.deep_view());
            }
            return Err(refusal);
        }
        if self.allow.len() > 0 && !glob::matches_any(&self.allow, path) {
            let refusal = Refusal {
                code: "path_not_allowed",
                reason: "patch path is not in the allow list",
            };
            proof {
                reveal_strlit("path_not_allowed");
                reveal_strlit("patch path is not in the allow list");
                literal_refusal_is_short(refusal.deep_view());
            }
            return Err(refusal);
        }
        let internal = if glob::matches_any(&self.internal, path) {
            self.internal_action
        } else {
            Decision::Allow
        };
        let generated = if glob::matches_any(&self.generated, path) {
            self.generated_action
        } else {
            Decision::Allow
        };
        Ok(combine(internal, generated))
    }
}

fn has_rule(rules: &Vec<Vec<String>>, argv: &Vec<String>) -> (r: bool)
    ensures
        r == has_rule_from(rules.deep_view(), argv.deep_view(), 0),
{
    let ghost all = rules.deep_view();
    let ghost words = argv.deep_view();
    let mut i: usize = 0;
    while i < rules.len()
        invariant
            i <= rules@.len(),
            all == rules.deep_view(),
            words == argv.deep_view(),
            has_rule_from(all, words, 0) == has_rule_from(all, words, i as int),
        decreases rules@.len() - i,
    {
        assert(all[i as int] == rules@[i as int].deep_view());
        if text::same_list(&rules[i], argv) {
            return true;
        }
        i += 1;
    }
    false
}

impl CommandRules {
    /// What the rules say of a command.
    pub fn decision_for(&self, argv: &Vec<String>) -> (r: Decision)
        ensures
            r == self.deep_view().decision_for(argv.deep_view()),
    {
        if bash::is_builtin_destructive_argv(argv) || has_rule(&self.destructive, argv)
            || has_rule(&self.deny, argv) {
            Decision::Deny
        } else if has_rule(&self.ask, argv) {
            Decision::Ask
        } else {
            Decision::Allow
        }
    }
}

fn is_listed(list: &Vec<String>, item: &str) -> (r: bool)
    ensures
        r == list.deep_view().contains(item@),
{
    let ghost all = list.deep_view();
    let mut i: usize = 0;
    while i < list.len()
        invariant
            i <= list@.len(),
            all == list.deep_view(),
            forall|k: int| 0 <= k < i ==> all[k] != item@,
        decreases list@.len() - i,
    {
        assert(all[i as int] == list@[i as int]@);
        if text::same_text(list[i].as_str(), item) {
            return true;
        }
        i += 1;
    }
    false
}

impl ChangePolicy {
    fn paths_decision(&self, paths: &Vec<String>, escaping: &Vec<String>) -> (r: Result<
        Decision,
        Refusal,
    >)
        ensures
            match (
                r,
                paths_decision_from(
                    self.deep_view().paths,
                    paths.deep_view(),
                    escaping.deep_view(),
                    0,
                    Decision::Allow,
                ),
            ) {
                (Ok(decision), Ok(d)) => decision == d,
                (Err(refusal), Err(e)) => refusal.deep_view() == e && patch::short(e),
                _ => false,
            },
    {
        let ghost rules = self.deep_view().paths;
        let ghost all = paths.deep_view();
        let mut decision = Decision::Allow;
        let mut i: usize = 0;
        while i < paths.len()
            invariant
                i <= paths@.len(),
                rules == self.deep_view().paths,
                all == paths.deep_view(),
                paths_decision_from(rules, all, escaping.deep_view(), 0, Decision::Allow)
                    == paths_decision_from(
                    rules,
                    all,
                    escaping.deep_view(),
                    i as int,
                    decision,
                ),
            decreases paths@.len() - i,
        {
            assert(all[i as int] == paths@[i as int]@);
            let path = paths[i].as_str();
            if !patch::validate_lexical_path(path) {
                let refusal = Refusal {
                    code: "invalid_path",
                    reason: "patch contains an invalid path",
                };
                proof {
                    reveal_strlit("invalid_path");
                    reveal_strlit("patch contains an invalid path");
                    literal_refusal_is_short(refusal.deep_view());
                }
                return Err(refusal);
            }
            if is_listed(escaping, path) {
                let refusal = Refusal {
                    code: "path_outside_workspace",
                    reason: "patch path escapes the workspace",
                };
                proof {
                    reveal_strlit("path_outside_workspace");
                    reveal_strlit("patch path escapes the workspace");
                    literal_refusal_is_short(refusal.deep_view());
                }
                return Err(refusal);
            }
            match self.paths.decision_for(path) {
                Ok(next) => {
                    decision = combine(decision, next);
                },
                Err(refusal) => {
                    return Err(refusal);
                },
            }
            i += 1;
        }
        Ok(decision)
    }

    fn evaluate_patch(&self, patch: &str, escaping: &Vec<String>) -> (r: Result<Decision, Refusal>)
        ensures
            match (r, self.deep_view().patch_decision(patch@, escaping.deep_view())) {
                (Ok(decision), Ok(d)) => decision == d,
                (Err(refusal), Err(e)) => refusal.deep_view() == e && patch::short(e),
                _ => false,
            },
    {
        if text::count_bytes(patch) > self.limits.max_patch_bytes {
            let refusal = Refusal {
                code: "patch_too_large",
                reason: "patch exceeds the configured byte limit",
            };
            proof {
                reveal_strlit("patch_too_large");
                reveal_strlit("patch exceeds the configured byte limit");
                literal_refusal_is_short(refusal.deep_view());
            }
            return Err(refusal);
        }
        let change = match patch::parse_patch(patch) {
            Ok(change) => change,
            Err(refusal) => {
                proof {
                    patch::refusals_are_short(patch@);
                }
                return Err(refusal);
            },
        };
        if change.paths.len() > self.limits.max_files {
            let refusal = Refusal {
                code: "too_many_files",
                reason: "patch exceeds the configured file limit",
            };
            proof {
                reveal_strlit("too_many_files");
                reveal_strlit("patch exceeds the configured file limit");
                literal_refusal_is_short(refusal.deep_view());
            }
            return Err(refusal);
        }
        if change.line_changes > self.limits.max_line_changes {
            let refusal = Refusal {
                code: "too_many_line_changes",
                reason: "patch exceeds the configured line-change limit",
            };
            proof {
                reveal_strlit("too_many_line_changes");
                reveal_strlit("patch exceeds the configured line-change limit");
                literal_refusal_is_short(refusal.deep_view());
            }
            return Err(refusal);
        }
        self.paths_decision(&change.paths, escaping)
    }

    fn evaluate_bash(&self, command: &str) -> (r: Option<Decision>)
        ensures
            r == self.deep_view().bash_decision(command@),
    {
        if bash::is_builtin_destructive_command(command) {
            return Some(Decision::Deny);
        }
        match bash::parse_bash(command) {
            Ok(argv) => Some(self.commands.decision_for(&argv)),
            Err(_) => None,
        }
    }

    /// What the policy says of a proposal. `escaping` lists those of the patch's paths
    /// whose nearest existing ancestor lies outside the workspace.
    pub fn evaluate(&self, input: ToolInput<'_>, escaping: &Vec<String>) -> (r: Evaluation)
        ensures
            r.deep_view() == self.deep_view().evaluation(input.deep_view(), escaping.deep_view()),
    {
        match input {
            ToolInput::ApplyPatch(patch) => match self.evaluate_patch(patch, escaping) {
                Ok(decision) => evaluation(decision, self.digest.as_str()),
                Err(refusal) => denied(refusal, Some(self.digest.as_str())),
            },
            ToolInput::Bash(command) => match self.evaluate_bash(command) {
                Some(decision) => evaluation(decision, self.digest.as_str()),
                None => {
                    proof {
                        reveal_strlit("unsupported_command");
                        text::short_ascii_is_kept(
                            "unsupported_command"@,
                            MAX_CODE_BYTES as nat,
                        );
                    }
                    undecided("unsupported_command", Some(self.digest.as_str()))
                },
            },
        }
    }
}

/// What is said of a proposal for a loaded policy. A policy that is there but cannot
/// be used fails closed.
pub fn evaluate(
    load: &Result<PolicyLoad, PolicyError>,
    input: ToolInput<'_>,
    escaping: &Vec<String>,
) -> (r: Evaluation)
    ensures
        r.deep_view() == evaluation_for(
            match load {
                Ok(load) => Ok(load.deep_view()),
                Err(error) => Err(error.deep_view()),
            },
            input.deep_view(),
            escaping.deep_view(),
        ),
{
    match load {
        Ok(PolicyLoad::Disabled) => disabled_evaluation(),
        Ok(PolicyLoad::Active(policy)) => policy.evaluate(input, escaping),
        Err(_) => {
            let refusal = Refusal {
                code: "invalid_policy",
                reason: "active change policy is invalid",
            };
            proof {
                reveal_strlit("invalid_policy");
                reveal_strlit("active change policy is invalid");
                literal_refusal_is_short(refusal.deep_view());
            }
            match input {
                ToolInput::ApplyPatch(_) => denied(refusal, None),
                ToolInput::Bash(command) => if bash::is_builtin_destructive_command(command) {
                    denied(refusal, None)
                } else {
                    undecided("invalid_policy", None)
                },
            }
        },
    }
}

/// What exists nearest to a path, given without links, lies in the workspace.
pub open spec fn contained(ancestor: Option<Seq<char>>, workspace: Seq<char>) -> bool {
    match ancestor {
        Some(ancestor) => path::within(ancestor, workspace),
        None => false,
    }
}

fn is_contained(ancestor: Option<&str>, workspace: &str) -> (r: bool)
    ensures
        r == contained(json::text_of(ancestor), workspace@),
{
    match ancestor {
        Some(ancestor) => path::is_within(ancestor, workspace),
        None => false,
    }
}

/// Checks where a policy lies. `ancestor` is what exists nearest to its path, without links.
pub fn check_policy_location(ancestor: Option<&str>, workspace: &str) -> (r: Result<
    (),
    PolicyError,
>)
    ensures
        match r {
            Ok(_) => contained(json::text_of(ancestor), workspace@),
            Err(error) => !contained(json::text_of(ancestor), workspace@) && error.deep_view()
                == PolicyErrorModel::PolicyOutsideWorkspace,
        },
{
    if is_contained(ancestor, workspace) {
        Ok(())
    } else {
        Err(PolicyError::PolicyOutsideWorkspace)
    }
}

/// Checks where a path of a patch leads. `ancestor` is what exists nearest to it, without
/// links.
pub fn ensure_contained_path(relative: &str, ancestor: Option<&str>, workspace: &str) -> (r: Result<
    (),
    PolicyError,
>)
    ensures
        match r {
            Ok(_) => contained(json::text_of(ancestor), workspace@),
            Err(error) => !contained(json::text_of(ancestor), workspace@) && error.deep_view()
                == PolicyErrorModel::OutsideWorkspace(relative@),
        },
{
    if is_contained(ancestor, workspace) {
        Ok(())
    } else {
        Err(PolicyError::OutsideWorkspace(text::copy(relative)))
    }
}

/// Checks where a directory for receipts lies: both are given without links.
pub fn check_state_location(directory: &str, parent: &str) -> (r: Result<(), PolicyError>)
    ensures
        match r {
            Ok(_) => path::within(directory@, parent@),
            Err(error) => !path::within(directory@, parent@) && error.deep_view()
                == PolicyErrorModel::StateOutsideWorkspace,
        },
{
    if path::is_within(directory, parent) {
        Ok(())
    } else {
        Err(PolicyError::StateOutsideWorkspace)
    }
}

/// The paths of a patch that are to be looked up in the workspace before the patch is
/// evaluated; none where the patch cannot be read.
pub fn paths_to_contain(patch: &str) -> (r: Vec<String>)
    ensures
        r.deep_view() == (match patch::parsed_patch(patch@) {
            Ok(parsed) => parsed.paths,
            Err(_) => seq![],
        }),
{
    match patch::parse_patch(patch) {
        Ok(parsed) => parsed.paths,
        Err(_) => {
            let none: Vec<String> = Vec::new();
            assert(none.deep_view() =~= Seq::empty());
            none
        },
    }
}

pub open spec fn input_text(input: ToolInputModel) -> Seq<char> {
    match input {
        ToolInputModel::ApplyPatch(patch) => patch,
        ToolInputModel::Bash(command) => command,
    }
}

/// The receipt of an evaluation that decided under a policy.
pub open spec fn receipt_of(
    evaluation: EvaluationModel,
    input: ToolInputModel,
    now_ms: u128,
) -> Option<ReceiptModel> {
    match (evaluation.decision, evaluation.policy_digest) {
        (Some(decision), Some(policy_digest)) => Some(
            ReceiptModel {
                policy_digest,
                input_kind: match input {
                    ToolInputModel::ApplyPatch(_) => ReceiptKind::ApplyPatch,
                    ToolInputModel::Bash(_) => ReceiptKind::Bash,
                },
                decision: Some(decision),
                code: evaluation.code,
                input_digest: digest::sha256_hex(vstd::utf8::encode_utf8(input_text(input))),
                created_unix_ms: now_ms,
            },
        ),
        _ => None,
    }
}

/// Creates a bounded receipt from an evaluation, at the given time.
pub fn receipt_for(evaluation: &Evaluation, input: ToolInput<'_>, now_ms: u128) -> (r: Option<
    Receipt,
>)
    ensures
        r.deep_view() == receipt_of(evaluation.deep_view(), input.deep_view(), now_ms),
{
    let decision = match evaluation.decision {
        Some(decision) => decision,
        None => {
            return None;
        },
    };
    let policy_digest = match &evaluation.policy_digest {
        Some(digest) => text::copy(digest.as_str()),
        None => {
            return None;
        },
    };
    let (input_kind, content) = match input {
        ToolInput::ApplyPatch(patch) => (ReceiptKind::ApplyPatch, patch),
        ToolInput::Bash(command) => (ReceiptKind::Bash, command),
    };
    Some(
        Receipt {
            policy_digest,
            input_kind,
            decision: Some(decision),
            code: text::copy(evaluation.code.as_str()),
            input_digest: digest::sha256_text(content.as_bytes()),
            created_unix_ms: now_ms,
        },
    )
}

/// The name of the file for a receipt: a digest of what it is about and of a number
/// that no other receipt has.
pub open spec fn receipt_name(receipt: ReceiptModel, nonce: nat) -> Seq<char> {
    digest::sha256_hex(
        vstd::utf8::encode_utf8(
            receipt.policy_digest + seq!['\0'] + receipt.input_digest + seq!['\0'] + receipt.code
                + seq!['\0'] + text::decimal(nonce),
        ),
    ) + ".json"@
}

/// The name of the file for a receipt.
pub fn receipt_file_name(receipt: &Receipt, nonce: u128) -> (r: String)
    ensures
        r@ == receipt_name(receipt.deep_view(), nonce as nat),
{
    let mut key = text::to_chars(receipt.policy_digest.as_str());
    key.push('\0');
    text::append(&mut key, text::to_chars(receipt.input_digest.as_str()).as_slice());
    key.push('\0');
    text::append(&mut key, text::to_chars(receipt.code.as_str()).as_slice());
    key.push('\0');
    text::append(&mut key, text::format_wide(nonce).as_slice());
    assert(key@ =~= receipt.policy_digest@ + seq!['\0'] + receipt.input_digest@ + seq!['\0']
        + receipt.code@ + seq!['\0'] + text::decimal(nonce as nat));
    let key = text::to_text(key.as_slice());
    let hash = digest::sha256_text(key.as_str().as_bytes());
    text::concat(hash.as_str(), ".json")
}

/// Which receipts are removed so that no more than the limit are left: the oldest, in
/// the order of their times.
pub open spec fn surplus(times: Seq<u128>) -> Seq<int> {
    if times.len() <= MAX_RECEIPTS {
        seq![]
    } else {
        order::ordered(times).take(times.len() - MAX_RECEIPTS)
    }
}

/// Which receipts are removed so that no more than the limit are left.
pub fn receipts_to_remove(times: &Vec<u128>) -> (r: Vec<usize>)
    ensures
        order::positions(r@) == surplus(times@),
        forall|i: int| 0 <= i < r@.len() ==> (#[trigger] r@[i]) < times@.len(),
{
    if times.len() <= MAX_RECEIPTS {
        let none: Vec<usize> = Vec::new();
        assert(order::positions(none@) =~= Seq::empty());
        return none;
    }
    let mut out = order::order(times);
    let ghost all = order::positions(out@);
    out.truncate(times.len() - MAX_RECEIPTS);
    assert(order::positions(out@) =~= all.take(times@.len() - MAX_RECEIPTS));
    assert forall|i: int| 0 <= i < out@.len() implies (#[trigger] out@[i]) < times@.len() by {
        assert(all[i] == out@[i]);
    }
    out
}

/// The paths from `i` on are all within the rules: none leaves the workspace, none is
/// denied, and each is in the allow list where there is one.
pub open spec fn permitted_from(
    rules: PathRulesModel,
    paths: Seq<Seq<char>>,
    escaping: Seq<Seq<char>>,
    i: int,
) -> bool {
    forall|k: int| i <= k < paths.len() ==> {
        &&& !escaping.contains(#[trigger] paths[k])
        &&& !glob::any_match(rules.deny, paths[k])
        &&& rules.allow.len() > 0 ==> glob::any_match(rules.allow, paths[k])
    }
}

proof fn decided_paths_are_permitted_from(
    rules: PathRulesModel,
    paths: Seq<Seq<char>>,
    escaping: Seq<Seq<char>>,
    i: int,
    decision: Decision,
)
    requires
        0 <= i,
    ensures
        paths_decision_from(rules, paths, escaping, i, decision) is Ok ==> permitted_from(
            rules,
            paths,
            escaping,
            i,
        ),
    decreases paths.len() - i,
{
    if i < paths.len() {
        match rules.decision_for(paths[i]) {
            Ok(next) => {
                decided_paths_are_permitted_from(
                    rules,
                    paths,
                    escaping,
                    i + 1,
                    combined(decision, next),
                );
            },
            Err(_) => {},
        }
    }
}

/// A patch that a policy allows, or allows after approval, is within its limits and
/// touches only paths that stay in the workspace, are not denied, and are in the
/// allow list where there is one.
pub proof fn accepted_patches_are_permitted(
    policy: ChangePolicyModel,
    patch: Seq<char>,
    escaping: Seq<Seq<char>>,
)
    ensures
        ({
            let decision = policy.evaluation(
                ToolInputModel::ApplyPatch(patch),
                escaping,
            ).decision;
            decision != Some(Decision::Deny) ==> {
                &&& text::byte_len(patch) <= policy.limits.max_patch_bytes
                &&& patch::parsed_patch(patch) matches Ok(parsed)
                &&& parsed.paths.len() <= policy.limits.max_files
                &&& parsed.line_changes <= policy.limits.max_line_changes
                &&& permitted_from(policy.paths, parsed.paths, escaping, 0)
            }
        }),
{
    match patch::parsed_patch(patch) {
        Ok(parsed) => {
            decided_paths_are_permitted_from(
                policy.paths,
                parsed.paths,
                escaping,
                0,
                Decision::Allow,
            );
        },
        Err(_) => {},
    }
}

/// A destructive command is denied by every policy that is there, one that cannot be
/// used too, and without a policy nothing is decided.
pub proof fn destructive_commands_are_denied(
    load: Result<PolicyLoadModel, PolicyErrorModel>,
    command: Seq<char>,
    escaping: Seq<Seq<char>>,
)
    requires
        bash::destructive(command),
    ensures
        ({
            let evaluation = evaluation_for(load, ToolInputModel::Bash(command), escaping);
            if load matches Ok(PolicyLoadModel::Disabled) {
                evaluation.decision is None && evaluation.state == PolicyState::Disabled
            } else {
                evaluation.decision == Some(Decision::Deny)
            }
        }),
{
}

/// On a command that is not destructive and cannot be read, nothing is decided, whatever the
/// policy.
pub proof fn unreadable_commands_are_undecided(
    load: Result<PolicyLoadModel, PolicyErrorModel>,
    command: Seq<char>,
    escaping: Seq<Seq<char>>,
)
    requires
        !bash::destructive(command),
        bash::argv_of(command) is Err,
    ensures
        evaluation_for(load, ToolInputModel::Bash(command), escaping).decision is None,
{
}

/// A policy that is there but cannot be used lets no patch pass.
pub proof fn unusable_policies_fail_closed(
    error: PolicyErrorModel,
    patch: Seq<char>,
    escaping: Seq<Seq<char>>,
)
    ensures
        evaluation_for(Err(error), ToolInputModel::ApplyPatch(patch), escaping).decision == Some(
            Decision::Deny,
        ),
{
}

proof fn path_refusals_are_short_from(
    rules: PathRulesModel,
    paths: Seq<Seq<char>>,
    escaping: Seq<Seq<char>>,
    i: int,
    decision: Decision,
)
    ensures
        paths_decision_from(rules, paths, escaping, i, decision) matches Err(refusal)
            ==> patch::short(refusal),
    decreases paths.len() - i,
{
    reveal_strlit("invalid_path");
    reveal_strlit("patch contains an invalid path");
    literal_refusal_is_short(
        RefusalModel { code: "invalid_path"@, reason: "patch contains an invalid path"@ },
    );
    reveal_strlit("path_outside_workspace");
    reveal_strlit("patch path escapes the workspace");
    literal_refusal_is_short(
        RefusalModel {
            code: "path_outside_workspace"@,
            reason: "patch path escapes the workspace"@,
        },
    );
    reveal_strlit("path_denied");
    reveal_strlit("patch changes a denied path");
    literal_refusal_is_short(
        RefusalModel { code: "path_denied"@, reason: "patch changes a denied path"@ },
    );
    reveal_strlit("path_not_allowed");
    reveal_strlit("patch path is not in the allow list");
    literal_refusal_is_short(
        RefusalModel {
            code: "path_not_allowed"@,
            reason: "patch path is not in the allow list"@,
        },
    );
    if 0 <= i < paths.len() {
        match rules.decision_for(paths[i]) {
            Ok(next) => {
                path_refusals_are_short_from(
                    rules,
                    paths,
                    escaping,
                    i + 1,
                    combined(decision, next),
                );
            },
            Err(_) => {},
        }
    }
}

proof fn patch_refusals_are_short(
    policy: ChangePolicyModel,
    patch: Seq<char>,
    escaping: Seq<Seq<char>>,
)
    ensures
        policy.patch_decision(patch, escaping) matches Err(refusal) ==> patch::short(refusal),
{
    reveal_strlit("patch_too_large");
    reveal_strlit("patch exceeds the configured byte limit");
    literal_refusal_is_short(
        RefusalModel {
            code: "patch_too_large"@,
            reason: "patch exceeds the configured byte limit"@,
        },
    );
    reveal_strlit("too_many_files");
    reveal_strlit("patch exceeds the configured file limit");
    literal_refusal_is_short(
        RefusalModel {
            code: "too_many_files"@,
            reason: "patch exceeds the configured file limit"@,
        },
    );
    reveal_strlit("too_many_line_changes");
    reveal_strlit("patch exceeds the configured line-change limit");
    literal_refusal_is_short(
        RefusalModel {
            code: "too_many_line_changes"@,
            reason: "patch exceeds the configured line-change limit"@,
        },
    );
    patch::refusals_are_short(patch);
    match patch::parsed_patch(patch) {
        Ok(parsed) => {
            path_refusals_are_short_from(
                policy.paths,
                parsed.paths,
                escaping,
                0,
                Decision::Allow,
            );
        },
        Err(_) => {},
    }
}

proof fn fixed_words_are_short()
    ensures
        forall|decision: Decision| text::byte_len(#[trigger] code_of(decision)) <= MAX_CODE_BYTES,
        forall|decision: Decision|
            text::byte_len(#[trigger] reason_of(decision)) <= MAX_REASON_BYTES,
        text::byte_len("change policy made no decision"@) <= MAX_REASON_BYTES,
        text::byte_len("unsupported_command"@) <= MAX_CODE_BYTES,
        patch::short(without_policy_words()),
        patch::short(
            RefusalModel { code: "invalid_policy"@, reason: "active change policy is invalid"@ },
        ),
{
    reveal_strlit("allowed");
    reveal_strlit("approval_required");
    reveal_strlit("denied_by_policy");
    reveal_strlit("unsupported_command");
    reveal_strlit("policy allows this change");
    reveal_strlit("policy requires approval for this change");
    reveal_strlit("policy denies this change");
    reveal_strlit("change policy made no decision");
    reveal_strlit("policy_disabled");
    reveal_strlit("no change policy is configured");
    reveal_strlit("invalid_policy");
    reveal_strlit("active change policy is invalid");
    text::short_ascii_is_kept("allowed"@, MAX_CODE_BYTES as nat);
    text::short_ascii_is_kept("approval_required"@, MAX_CODE_BYTES as nat);
    text::short_ascii_is_kept("denied_by_policy"@, MAX_CODE_BYTES as nat);
    text::short_ascii_is_kept("unsupported_command"@, MAX_CODE_BYTES as nat);
    text::short_ascii_is_kept("policy allows this change"@, MAX_REASON_BYTES as nat);
    text::short_ascii_is_kept("policy requires approval for this change"@, MAX_REASON_BYTES as nat);
    text::short_ascii_is_kept("policy denies this change"@, MAX_REASON_BYTES as nat);
    text::short_ascii_is_kept("change policy made no decision"@, MAX_REASON_BYTES as nat);
    literal_refusal_is_short(without_policy_words());
    literal_refusal_is_short(
        RefusalModel { code: "invalid_policy"@, reason: "active change policy is invalid"@ },
    );
}

/// The words of an evaluation without a policy.
pub open spec fn without_policy_words() -> RefusalModel {
    RefusalModel { code: "policy_disabled"@, reason: "no change policy is configured"@ }
}

/// Whatever is proposed and whatever the policy, the code and the reason of an
/// evaluation are within their bounds.
pub proof fn evaluations_are_bounded(
    load: Result<PolicyLoadModel, PolicyErrorModel>,
    input: ToolInputModel,
    escaping: Seq<Seq<char>>,
)
    ensures
        ({
            let evaluation = evaluation_for(load, input, escaping);
            &&& text::byte_len(evaluation.code) <= MAX_CODE_BYTES
            &&& text::byte_len(evaluation.reason) <= MAX_REASON_BYTES
        }),
{
    fixed_words_are_short();
    match (load, input) {
        (Ok(PolicyLoadModel::Active(policy)), ToolInputModel::ApplyPatch(patch)) => {
            patch_refusals_are_short(policy, patch, escaping);
            match policy.patch_decision(patch, escaping) {
                Ok(decision) => {
                    assert(text::byte_len(code_of(decision)) <= MAX_CODE_BYTES);
                    assert(text::byte_len(reason_of(decision)) <= MAX_REASON_BYTES);
                },
                Err(_) => {},
            }
        },
        (Ok(PolicyLoadModel::Active(policy)), ToolInputModel::Bash(command)) => {
            match policy.bash_decision(command) {
                Some(decision) => {
                    assert(text::byte_len(code_of(decision)) <= MAX_CODE_BYTES);
                    assert(text::byte_len(reason_of(decision)) <= MAX_REASON_BYTES);
                },
                None => {},
            }
        },
        _ => {},
    }
}

/// Removing the surplus leaves exactly as many receipts as the limit, and none of
/// those removed is newer than one that is kept.
pub proof fn oldest_receipts_are_removed(times: Seq<u128>)
    requires
        times.len() > MAX_RECEIPTS,
    ensures
        ({
            let removed = surplus(times);
            let all = order::ordered(times);
            &&& all.len() == times.len()
            &&& removed.len() + MAX_RECEIPTS == times.len()
            &&& forall|a: int, b: int|
                0 <= a < removed.len() <= b < all.len() ==> removed[a] == all[a] && times[#[trigger]
                removed[a]] <= times[#[trigger] all[b]]
        }),
{
    order::ordered_is_stable(times);
}

} // verus!
