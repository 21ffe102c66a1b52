//! Opt-in evidence checks for the end of a task.
//!
//! There is no hook or transcript here. The caller decides whether an end is a
//! recursive one, and translates an [`Evaluation`] into the answer of its host.

pub mod laws;

use vstd::prelude::*;
use crate::digest;
use crate::json;
use crate::list;
use crate::path;
use crate::path::Platform;
use crate::text;

verus! {

broadcast use vstd::string::group_string_axioms;

pub const MAX_CONTRACT_BYTES: u64 = 65_536;

pub const MAX_CRITERIA: usize = 64;

pub const MAX_CRITERION_ID_BYTES: usize = 128;

pub const MAX_REASON_BYTES: usize = 2_048;

pub const MAX_PATH_BYTES: usize = 4_096;

pub const MAX_INPUT_PATHS_PER_RECEIPT: usize = 64;

pub const MAX_INPUT_FILES_TOTAL: usize = 4_096;

pub const READ_ATTEMPTS: u64 = 3;

#[derive(Clone, Copy, Debug, PartialEq, Eq, Structural)]
pub enum CargoOutcome {
    Succeeded,
    Failed,
}

#[derive(Clone, Copy, Debug, PartialEq, Eq, Structural)]
pub enum GateStatus {
    Pass,
    Block,
    InvalidContract,
    EvidenceUnavailable,
}

#[derive(Clone, Copy, Debug, PartialEq, Eq, Structural)]
pub enum CriterionStatus {
    Satisfied,
    Missing,
    Failed,
    Stale,
}

/// A command that a native Cargo execution ran.
#[derive(Clone, Debug, PartialEq, Eq)]
pub struct CargoCommand {
    pub program: String,
    pub args: Vec<String>,
}

/// What a `CargoCommand` says.
pub struct CargoCommandModel {
    pub program: Seq<char>,
    pub args: Seq<Seq<char>>,
}

impl DeepView for CargoCommand {
    type V = CargoCommandModel;

    open spec fn deep_view(&self) -> CargoCommandModel {
        CargoCommandModel {
            program: self.program@,
            args: self.args.deep_view(),
        }
    }
}

#[derive(Clone, Debug, PartialEq, Eq)]
pub struct CriterionResult {
    pub id: String,
    pub status: CriterionStatus,
}

/// What a `CriterionResult` says.
pub struct CriterionResultModel {
    pub id: Seq<char>,
    pub status: CriterionStatus,
}

impl DeepView for CriterionResult {
    type V = CriterionResultModel;

    open spec fn deep_view(&self) -> CriterionResultModel {
        CriterionResultModel {
            id: self.id@,
            status: self.status,
        }
    }
}

/// The result that a host adapter translates into its own answer.
#[derive(Clone, Debug, PartialEq, Eq)]
pub struct Evaluation {
    pub status: GateStatus,
    pub missing_ids: Vec<String>,
    pub reason: String,
    pub criteria: Vec<CriterionResult>,
}

/// What a `Evaluation` says.
pub struct EvaluationModel {
    pub status: GateStatus,
    pub missing_ids: Seq<Seq<char>>,
    pub reason: Seq<char>,
    pub criteria: Seq<CriterionResultModel>,
}

impl DeepView for Evaluation {
    type V = EvaluationModel;

    open spec fn deep_view(&self) -> EvaluationModel {
        EvaluationModel {
            status: self.status,
            missing_ids: self.missing_ids.deep_view(),
            reason: self.reason@,
            criteria: self.criteria.deep_view(),
        }
    }
}

/// The record of a command that succeeded.
#[derive(Clone, Debug, PartialEq, Eq)]
pub struct Receipt {
    pub contract_digest: String,
    pub criterion_id: String,
    pub program: String,
    pub args: Vec<String>,
    pub input_digest: String,
}

/// What a `Receipt` says.
pub struct ReceiptModel {
    pub contract_digest: Seq<char>,
    pub criterion_id: Seq<char>,
    pub program: Seq<char>,
    pub args: Seq<Seq<char>>,
    pub input_digest: Seq<char>,
}

impl DeepView for Receipt {
    type V = ReceiptModel;

    open spec fn deep_view(&self) -> ReceiptModel {
        ReceiptModel {
            contract_digest: self.contract_digest@,
            criterion_id: self.criterion_id@,
            program: self.program@,
            args: self.args.deep_view(),
            input_digest: self.input_digest@,
        }
    }
}

/// A `command_receipt` criterion as it is written.
#[derive(Clone, Debug, PartialEq, Eq)]
pub struct CommandReceiptCriterion {
    pub id: String,
    pub program: String,
    pub args: Vec<String>,
    pub input_paths: Vec<String>,
}

/// What a `CommandReceiptCriterion` says.
pub struct CommandReceiptCriterionModel {
    pub id: Seq<char>,
    pub program: Seq<char>,
    pub args: Seq<Seq<char>>,
    pub input_paths: Seq<Seq<char>>,
}

impl DeepView for CommandReceiptCriterion {
    type V = CommandReceiptCriterionModel;

    open spec fn deep_view(&self) -> CommandReceiptCriterionModel {
        CommandReceiptCriterionModel {
            id: self.id@,
            program: self.program@,
            args: self.args.deep_view(),
            input_paths: self.input_paths.deep_view(),
        }
    }
}

/// A `file_exists` or `file_absent` criterion as it is written.
#[derive(Clone, Debug, PartialEq, Eq)]
pub struct FileCriterion {
    pub id: String,
    pub path: String,
}

/// What a `FileCriterion` says.
pub struct FileCriterionModel {
    pub id: Seq<char>,
    pub path: Seq<char>,
}

impl DeepView for FileCriterion {
    type V = FileCriterionModel;

    open spec fn deep_view(&self) -> FileCriterionModel {
        FileCriterionModel {
            id: self.id@,
            path: self.path@,
        }
    }
}

/// A `file_sha256` criterion as it is written.
#[derive(Clone, Debug, PartialEq, Eq)]
pub struct HashCriterion {
    pub id: String,
    pub path: String,
    pub sha256: String,
}

/// What a `HashCriterion` says.
pub struct HashCriterionModel {
    pub id: Seq<char>,
    pub path: Seq<char>,
    pub sha256: Seq<char>,
}

impl DeepView for HashCriterion {
    type V = HashCriterionModel;

    open spec fn deep_view(&self) -> HashCriterionModel {
        HashCriterionModel {
            id: self.id@,
            path: self.path@,
            sha256: self.sha256@,
        }
    }
}

/// A criterion as it is written: its type, where it has one, and what it is when
/// read as each of the forms, or why it cannot be.
#[derive(Debug, PartialEq, Eq)]
pub struct WireCriterion {
    pub kind: Option<String>,
    pub command: Result<CommandReceiptCriterion, String>,
    pub file: Result<FileCriterion, String>,
    pub hash: Result<HashCriterion, String>,
}

pub struct WireCriterionModel {
    pub kind: Option<Seq<char>>,
    pub command: Result<CommandReceiptCriterionModel, Seq<char>>,
    pub file: Result<FileCriterionModel, Seq<char>>,
    pub hash: Result<HashCriterionModel, Seq<char>>,
}

/// A reading, or why there is none.
pub open spec fn reading<T: DeepView>(value: Result<T, String>) -> Result<T::V, Seq<char>> {
    match value {
        Ok(value) => Ok(value.deep_view()),
        Err(message) => Err(message@),
    }
}

impl DeepView for WireCriterion {
    type V = WireCriterionModel;

    open spec fn deep_view(&self) -> WireCriterionModel {
        WireCriterionModel {
            kind: self.kind.deep_view(),
            command: reading(self.command),
            file: reading(self.file),
            hash: reading(self.hash),
        }
    }
}

/// A contract file as it is written.
#[derive(Debug, PartialEq, Eq)]
pub struct WireContract {
    pub version: u64,
    pub criteria: Vec<WireCriterion>,
}

pub struct WireContractModel {
    pub version: u64,
    pub criteria: Seq<WireCriterionModel>,
}

impl DeepView for WireContract {
    type V = WireContractModel;

    open spec fn deep_view(&self) -> WireContractModel {
        WireContractModel { version: self.version, criteria: self.criteria.deep_view() }
    }
}

#[derive(Clone, Debug, PartialEq, Eq)]
pub enum Criterion {
    CommandReceipt { id: String, program: String, args: Vec<String>, input_paths: Vec<String> },
    FileExists { id: String, path: String },
    FileAbsent { id: String, path: String },
    FileSha256 { id: String, path: String, sha256: String },
}

pub enum CriterionModel {
    CommandReceipt {
        id: Seq<char>,
        program: Seq<char>,
        args: Seq<Seq<char>>,
        input_paths: Seq<Seq<char>>,
    },
    FileExists { id: Seq<char>, path: Seq<char> },
    FileAbsent { id: Seq<char>, path: Seq<char> },
    FileSha256 { id: Seq<char>, path: Seq<char>, sha256: Seq<char> },
}

impl DeepView for Criterion {
    type V = CriterionModel;

    open spec fn deep_view(&self) -> CriterionModel {
        match self {
            Criterion::CommandReceipt {
                id,
                program,
                args,
                input_paths,
            } => CriterionModel::CommandReceipt {
                id: id@,
                program: program@,
                args: args.deep_view(),
                input_paths: input_paths.deep_view(),
            },
            Criterion::FileExists { id, path } => CriterionModel::FileExists {
                id: id@,
                path: path@,
            },
            Criterion::FileAbsent { id, path } => CriterionModel::FileAbsent {
                id: id@,
                path: path@,
            },
            Criterion::FileSha256 { id, path, sha256 } => CriterionModel::FileSha256 {
                id: id@,
                path: path@,
                sha256: sha256@,
            },
        }
    }
}

impl CriterionModel {
    pub open spec fn id(self) -> Seq<char> {
        match self {
            CriterionModel::CommandReceipt { id, .. } => id,
            CriterionModel::FileExists { id, .. } => id,
            CriterionModel::FileAbsent { id, .. } => id,
            CriterionModel::FileSha256 { id, .. } => id,
        }
    }
}

impl Criterion {
    pub fn id(&self) -> (r: &str)
        ensures
            r@ == self.deep_view().id(),
    {
        match self {
            Criterion::CommandReceipt { id, .. } => id.as_str(),
            Criterion::FileExists { id, .. } => id.as_str(),
            Criterion::FileAbsent { id, .. } => id.as_str(),
            Criterion::FileSha256 { id, .. } => id.as_str(),
        }
    }
}

#[derive(Clone, Debug, PartialEq, Eq)]
pub struct CompletionContract {
    pub digest: String,
    pub criteria: Vec<Criterion>,
}

pub struct CompletionContractModel {
    pub digest: Seq<char>,
    pub criteria: Seq<CriterionModel>,
}

impl DeepView for CompletionContract {
    type V = CompletionContractModel;

    open spec fn deep_view(&self) -> CompletionContractModel {
        CompletionContractModel { digest: self.digest@, criteria: self.criteria.deep_view() }
    }
}

#[derive(Clone, Debug, PartialEq, Eq)]
pub enum ContractLoad {
    Absent,
    Active(CompletionContract),
}

pub enum ContractLoadModel {
    Absent,
    Active(CompletionContractModel),
}

impl DeepView for ContractLoad {
    type V = ContractLoadModel;

    open spec fn deep_view(&self) -> ContractLoadModel {
        match self {
            ContractLoad::Absent => ContractLoadModel::Absent,
            ContractLoad::Active(contract) => ContractLoadModel::Active(contract.deep_view()),
        }
    }
}

#[derive(Clone, Debug, PartialEq, Eq)]
pub enum GateError {
    Io(String),
    Json(String),
    ContractOutsideWorkspace,
    ContractTooLarge,
    MalformedContract(String),
    UnsupportedContract(String),
    OutsideWorkspace(String),
    InvalidPath(String),
    PathTooLong,
    TooManyFiles,
    UnsupportedProgram(String),
    NoMatchingCriterion,
}

pub enum GateErrorModel {
    Io(Seq<char>),
    Json(Seq<char>),
    ContractOutsideWorkspace,
    ContractTooLarge,
    MalformedContract(Seq<char>),
    UnsupportedContract(Seq<char>),
    OutsideWorkspace(Seq<char>),
    InvalidPath(Seq<char>),
    PathTooLong,
    TooManyFiles,
    UnsupportedProgram(Seq<char>),
    NoMatchingCriterion,
}

impl DeepView for GateError {
    type V = GateErrorModel;

    open spec fn deep_view(&self) -> GateErrorModel {
        match self {
            GateError::Io(e) => GateErrorModel::Io(e@),
            GateError::Json(e) => GateErrorModel::Json(e@),
            GateError::ContractOutsideWorkspace => GateErrorModel::ContractOutsideWorkspace,
            GateError::ContractTooLarge => GateErrorModel::ContractTooLarge,
            GateError::MalformedContract(e) => GateErrorModel::MalformedContract(e@),
            GateError::UnsupportedContract(e) => GateErrorModel::UnsupportedContract(e@),
            GateError::OutsideWorkspace(e) => GateErrorModel::OutsideWorkspace(e@),
            GateError::InvalidPath(e) => GateErrorModel::InvalidPath(e@),
            GateError::PathTooLong => GateErrorModel::PathTooLong,
            GateError::TooManyFiles => GateErrorModel::TooManyFiles,
            GateError::UnsupportedProgram(e) => GateErrorModel::UnsupportedProgram(e@),
            GateError::NoMatchingCriterion => GateErrorModel::NoMatchingCriterion,
        }
    }
}

impl GateErrorModel {
    pub open spec fn message(self) -> Seq<char> {
        match self {
            GateErrorModel::Io(e) => "completion gate I/O: "@ + e,
            GateErrorModel::Json(e) => "completion gate JSON: "@ + e,
            GateErrorModel::ContractOutsideWorkspace => "contract is outside the workspace"@,
            GateErrorModel::ContractTooLarge => "contract exceeds its byte limit"@,
            GateErrorModel::MalformedContract(e) => "malformed completion contract: "@ + e,
            GateErrorModel::UnsupportedContract(e) => "unsupported completion contract: "@ + e,
            GateErrorModel::OutsideWorkspace(e) => "path escapes the workspace: "@ + e,
            GateErrorModel::InvalidPath(e) => "invalid workspace-relative path: "@ + e,
            GateErrorModel::PathTooLong => "path exceeds its byte limit"@,
            GateErrorModel::TooManyFiles => "declared input paths expand to too many files"@,
            GateErrorModel::UnsupportedProgram(e) => "unsupported command program: "@ + e,
            GateErrorModel::NoMatchingCriterion => "command does not match an active receipt criterion"@,
        }
    }
}

impl GateError {
    /// The error as a sentence for a person.
    pub fn message(&self) -> (r: String)
        ensures
            r@ == self.deep_view().message(),
    {
        match self {
            GateError::Io(e) => text::concat("completion gate I/O: ", e.as_str()),
            GateError::Json(e) => text::concat("completion gate JSON: ", e.as_str()),
            GateError::ContractOutsideWorkspace => text::copy("contract is outside the workspace"),
            GateError::ContractTooLarge => text::copy("contract exceeds its byte limit"),
            GateError::MalformedContract(e) => text::concat(
                "malformed completion contract: ",
                e.as_str(),
            ),
            GateError::UnsupportedContract(e) => text::concat(
                "unsupported completion contract: ",
                e.as_str(),
            ),
            GateError::OutsideWorkspace(e) => text::concat(
                "path escapes the workspace: ",
                e.as_str(),
            ),
            GateError::InvalidPath(e) => text::concat(
                "invalid workspace-relative path: ",
                e.as_str(),
            ),
            GateError::PathTooLong => text::copy("path exceeds its byte limit"),
            GateError::TooManyFiles => text::copy("declared input paths expand to too many files"),
            GateError::UnsupportedProgram(e) => text::concat(
                "unsupported command program: ",
                e.as_str(),
            ),
            GateError::NoMatchingCriterion => text::copy(
                "command does not match an active receipt criterion",
            ),
        }
    }

    /// A copy that says the same.
    pub fn copy(&self) -> (r: GateError)
        ensures
            r.deep_view() == self.deep_view(),
    {
        match self {
            GateError::Io(e) => GateError::Io(text::copy(e.as_str())),
            GateError::Json(e) => GateError::Json(text::copy(e.as_str())),
            GateError::ContractOutsideWorkspace => GateError::ContractOutsideWorkspace,
            GateError::ContractTooLarge => GateError::ContractTooLarge,
            GateError::MalformedContract(e) => GateError::MalformedContract(text::copy(e.as_str())),
            GateError::UnsupportedContract(e) => GateError::UnsupportedContract(
                text::copy(e.as_str()),
            ),
            GateError::OutsideWorkspace(e) => GateError::OutsideWorkspace(text::copy(e.as_str())),
            GateError::InvalidPath(e) => GateError::InvalidPath(text::copy(e.as_str())),
            GateError::PathTooLong => GateError::PathTooLong,
            GateError::TooManyFiles => GateError::TooManyFiles,
            GateError::UnsupportedProgram(e) => GateError::UnsupportedProgram(
                text::copy(e.as_str()),
            ),
            GateError::NoMatchingCriterion => GateError::NoMatchingCriterion,
        }
    }
}

impl CargoCommand {
    pub fn new(args: Vec<String>) -> (r: CargoCommand)
        ensures
            r.deep_view() == (CargoCommandModel { program: "cargo"@, args: args.deep_view() }),
    {
        CargoCommand { program: text::copy("cargo"), args }
    }
}

pub open spec fn malformed(reason: Seq<char>) -> GateErrorModel {
    GateErrorModel::MalformedContract(reason)
}

fn malformed_error(reason: &str) -> (r: GateError)
    ensures
        r.deep_view() == malformed(reason@),
{
    GateError::MalformedContract(text::copy(reason))
}

/// A character that a criterion's name may hold.
pub open spec fn id_char(c: char) -> bool {
    text::ascii_alphanumeric(c) || c == '.' || c == '_' || c == ':' || c == '-'
}

/// A criterion's name: a few plain ASCII characters, so that it can stand in a message.
pub open spec fn valid_id(id: Seq<char>) -> bool {
    0 < id.len() <= MAX_CRITERION_ID_BYTES && forall|i: int|
        0 <= i < id.len() ==> id_char(#[trigger] id[i])
}

/// What is wrong with a path below the workspace, as far as its text shows.
pub open spec fn path_fault(path: Seq<char>, platform: Platform) -> Option<GateErrorModel> {
    if path.len() == 0 || text::byte_len(path) > MAX_PATH_BYTES {
        Some(GateErrorModel::PathTooLong)
    } else if !path::descends(path, platform) {
        Some(GateErrorModel::InvalidPath(path))
    } else {
        None
    }
}

/// What is wrong with a path of a contract.
pub open spec fn contract_path_fault(path: Seq<char>, platform: Platform) -> Option<
    GateErrorModel,
> {
    match path_fault(path, platform) {
        Some(fault) => Some(malformed(fault.message())),
        None => None,
    }
}

/// What is wrong with the paths of a contract from `i` on: the first fault.
pub open spec fn paths_fault_from(
    paths: Seq<Seq<char>>,
    i: int,
    platform: Platform,
) -> Option<GateErrorModel>
    decreases paths.len() - i,
{
    if i < 0 || i >= paths.len() {
        None
    } else {
        match contract_path_fault(paths[i], platform) {
            Some(fault) => Some(fault),
            None => paths_fault_from(paths, i + 1, platform),
        }
    }
}

pub open spec fn hash_char(c: char) -> bool {
    text::ascii_digit(c) || 'a' <= c <= 'f'
}

/// A SHA-256 digest in lower-case hexadecimal.
pub open spec fn valid_sha256(value: Seq<char>) -> bool {
    value.len() == 64 && forall|i: int| 0 <= i < value.len() ==> hash_char(#[trigger] value[i])
}

pub open spec fn command_of(wire: CommandReceiptCriterionModel, platform: Platform) -> Result<
    CriterionModel,
    GateErrorModel,
> {
    if wire.program != "cargo"@ {
        Err(GateErrorModel::UnsupportedContract("program "@ + wire.program))
    } else if wire.input_paths.len() > MAX_INPUT_PATHS_PER_RECEIPT {
        Err(malformed("too many input paths"@))
    } else if !valid_id(wire.id) {
        Err(malformed("invalid criterion id"@))
    } else {
        match paths_fault_from(wire.input_paths, 0, platform) {
            Some(fault) => Err(fault),
            None => Ok(
                CriterionModel::CommandReceipt {
                    id: wire.id,
                    program: wire.program,
                    args: wire.args,
                    input_paths: wire.input_paths,
                },
            ),
        }
    }
}

/// What is wrong with the name and the path of a criterion.
pub open spec fn file_fault(id: Seq<char>, path: Seq<char>, platform: Platform) -> Option<
    GateErrorModel,
> {
    if !valid_id(id) {
        Some(malformed("invalid criterion id"@))
    } else {
        contract_path_fault(path, platform)
    }
}

pub open spec fn hash_of(wire: HashCriterionModel, platform: Platform) -> Result<
    CriterionModel,
    GateErrorModel,
> {
    match file_fault(wire.id, wire.path, platform) {
        Some(fault) => Err(fault),
        None => if !valid_sha256(wire.sha256) {
            Err(malformed("invalid sha256"@))
        } else {
            Ok(
                CriterionModel::FileSha256 { id: wire.id, path: wire.path, sha256: wire.sha256 },
            )
        },
    }
}

/// The criterion that is written, or the first fault in it.
pub open spec fn criterion_of(wire: WireCriterionModel, platform: Platform) -> Result<
    CriterionModel,
    GateErrorModel,
> {
    match wire.kind {
        None => Err(malformed("criterion has no string type"@)),
        Some(kind) => if kind == "command_receipt"@ {
            match wire.command {
                Ok(command) => command_of(command, platform),
                Err(message) => Err(malformed(message)),
            }
        } else if kind == "file_exists"@ {
            match wire.file {
                Ok(file) => match file_fault(file.id, file.path, platform) {
                    Some(fault) => Err(fault),
                    None => Ok(CriterionModel::FileExists { id: file.id, path: file.path }),
                },
                Err(message) => Err(malformed(message)),
            }
        } else if kind == "file_absent"@ {
            match wire.file {
                Ok(file) => match file_fault(file.id, file.path, platform) {
                    Some(fault) => Err(fault),
                    None => Ok(CriterionModel::FileAbsent { id: file.id, path: file.path }),
                },
                Err(message) => Err(malformed(message)),
            }
        } else if kind == "file_sha256"@ {
            match wire.hash {
                Ok(hash) => hash_of(hash, platform),
                Err(message) => Err(malformed(message)),
            }
        } else {
            Err(GateErrorModel::UnsupportedContract("criterion type "@ + kind))
        },
    }
}

/// Some criterion has the given name.
pub open spec fn named(criteria: Seq<CriterionModel>, id: Seq<char>) -> bool {
    exists|i: int| 0 <= i < criteria.len() && (#[trigger] criteria[i]).id() == id
}

/// The criteria from `i` on, behind those already read.
pub open spec fn criteria_from(
    wires: Seq<WireCriterionModel>,
    i: int,
    criteria: Seq<CriterionModel>,
    platform: Platform,
) -> Result<Seq<CriterionModel>, GateErrorModel>
    decreases wires.len() - i,
{
    if i < 0 || i >= wires.len() {
        Ok(criteria)
    } else {
        match criterion_of(wires[i], platform) {
            Ok(criterion) => if named(criteria, criterion.id()) {
                Err(malformed("duplicate criterion id"@))
            } else {
                criteria_from(wires, i + 1, criteria.push(criterion), platform)
            },
            Err(error) => Err(error),
        }
    }
}

/// The criteria of a contract.
pub open spec fn criteria_of(wires: Seq<WireCriterionModel>, platform: Platform) -> Result<
    Seq<CriterionModel>,
    GateErrorModel,
> {
    if wires.len() > MAX_CRITERIA {
        Err(malformed("too many criteria"@))
    } else {
        criteria_from(wires, 0, seq![], platform)
    }
}

fn validate_id(id: &str) -> (r: bool)
    ensures
        r == valid_id(id@),
{
    let chars = text::to_chars(id);
    if chars.len() == 0 || chars.len() > MAX_CRITERION_ID_BYTES {
        return false;
    }
    let mut i: usize = 0;
    while i < chars.len()
        invariant
            i <= chars@.len(),
            chars@ == id@,
            0 < chars@.len() <= MAX_CRITERION_ID_BYTES,
            forall|k: int| 0 <= k < i ==> id_char(#[trigger] id@[k]),
        decreases chars@.len() - i,
    {
        let c = chars[i];
        if !text::is_alphanumeric(c) && c != '.' && c != '_' && c != ':' && c != '-' {
            assert(!id_char(id@[i as int]));
            return false;
        }
        i += 1;
    }
    true
}

fn is_sha256(value: &str) -> (r: bool)
    ensures
        r == valid_sha256(value@),
{
    let chars = text::to_chars(value);
    if chars.len() != 64 {
        return false;
    }
    let mut i: usize = 0;
    while i < chars.len()
        invariant
            i <= chars@.len(),
            chars@ == value@,
            chars@.len() == 64,
            forall|k: int| 0 <= k < i ==> hash_char(#[trigger] value@[k]),
        decreases chars@.len() - i,
    {
        let c = chars[i];
        if !text::is_digit(c) && !('a' <= c && c <= 'f') {
            assert(!hash_char(value@[i as int]));
            return false;
        }
        i += 1;
    }
    true
}

/// What is wrong with a path below the workspace, as far as its text shows.
pub fn validate_relative_path(path: &str, platform: Platform) -> (r: Option<GateError>)
    ensures
        r.deep_view() == path_fault(path@, platform),
{
    let chars = text::to_chars(path);
    if chars.len() == 0 || text::count_bytes(path) > MAX_PATH_BYTES {
        return Some(GateError::PathTooLong);
    }
    if !path::is_descending(path, platform) {
        return Some(GateError::InvalidPath(text::copy(path)));
    }
    None
}

/// Where a contract is looked for: at its path where that is absolute, and otherwise below the
/// workspace.
pub open spec fn contract_place(contract: Seq<char>, workspace: Seq<char>) -> Result<
    Seq<char>,
    GateErrorModel,
> {
    if path::absolute(contract, path::platform(workspace)) {
        Ok(contract)
    } else {
        match path_fault(contract, path::platform(workspace)) {
            Some(fault) => Err(fault),
            None => Ok(path::joined(workspace, contract)),
        }
    }
}

/// Where a contract is looked for.
pub fn locate_contract(contract: &str, workspace: &str) -> (r: Result<String, GateError>)
    ensures
        match (r, contract_place(contract@, workspace@)) {
            (Ok(place), Ok(p)) => place@ == p,
            (Err(error), Err(e)) => error.deep_view() == e,
            _ => false,
        },
{
    let platform = path::platform_of(workspace);
    if path::is_absolute(contract, platform) {
        return Ok(text::copy(contract));
    }
    match validate_relative_path(contract, platform) {
        Some(fault) => Err(fault),
        None => Ok(path::join(workspace, contract)),
    }
}

/// Checks where a contract lies. `ancestor` is what exists nearest to its path, without links;
/// that is the contract itself where it exists.
pub fn check_contract_location(ancestor: Option<&str>, workspace: &str) -> (r: Result<
    (),
    GateError,
>)
    ensures
        match r {
            Ok(_) => json::text_of(ancestor) matches Some(found) && path::within(found, workspace@),
            Err(error) => !(json::text_of(ancestor) matches Some(found) && path::within(
                found,
                workspace@,
            )) && error.deep_view() == GateErrorModel::ContractOutsideWorkspace,
        },
{
    match ancestor {
        Some(ancestor) => {
            if path::is_within(ancestor, workspace) {
                return Ok(());
            }
        },
        None => {},
    }
    Err(GateError::ContractOutsideWorkspace)
}

/// Checks where a path of a criterion leads, for what exists there, without links.
pub fn check_candidate(given: &str, canonical: &str, workspace: &str) -> (r: Result<(), GateError>)
    ensures
        match r {
            Ok(_) => path::within(canonical@, workspace@),
            Err(error) => !path::within(canonical@, workspace@) && error.deep_view()
                == GateErrorModel::OutsideWorkspace(given@),
        },
{
    if path::is_within(canonical, workspace) {
        Ok(())
    } else {
        Err(GateError::OutsideWorkspace(text::copy(given)))
    }
}

fn validate_contract_path(path: &str, platform: Platform) -> (r: Option<GateError>)
    ensures
        r.deep_view() == contract_path_fault(path@, platform),
{
    match validate_relative_path(path, platform) {
        Some(fault) => Some(GateError::MalformedContract(fault.message())),
        None => None,
    }
}

fn validate_contract_paths(paths: &Vec<String>, platform: Platform) -> (r: Option<GateError>)
    ensures
        r.deep_view() == paths_fault_from(paths.deep_view(), 0, platform),
{
    let ghost all = paths.deep_view();
    let mut i: usize = 0;
    while i < paths.len()
        invariant
            i <= paths@.len(),
            all == paths.deep_view(),
            paths_fault_from(all, 0, platform) == paths_fault_from(all, i as int, platform),
        decreases paths@.len() - i,
    {
        assert(all[i as int] == paths@[i as int]@);
        match validate_contract_path(paths[i].as_str(), platform) {
            Some(fault) => {
                return Some(fault);
            },
            None => {},
        }
        i += 1;
    }
    None
}

fn validate_file(id: &str, path: &str, platform: Platform) -> (r: Option<GateError>)
    ensures
        r.deep_view() == file_fault(id@, path@, platform),
{
    if !validate_id(id) {
        return Some(malformed_error("invalid criterion id"));
    }
    validate_contract_path(path, platform)
}

fn read_command(wire: CommandReceiptCriterion, platform: Platform) -> (r: Result<
    Criterion,
    GateError,
>)
    ensures
        match (r, command_of(wire.deep_view(), platform)) {
            (Ok(criterion), Ok(c)) => criterion.deep_view() == c,
            (Err(error), Err(e)) => error.deep_view() == e,
            _ => false,
        },
{
    if !text::same_text(wire.program.as_str(), "cargo") {
        return Err(
            GateError::UnsupportedContract(text::concat("program ", wire.program.as_str())),
        );
    }
    if wire.input_paths.len() > MAX_INPUT_PATHS_PER_RECEIPT {
        return Err(malformed_error("too many input paths"));
    }
    if !validate_id(wire.id.as_str()) {
        return Err(malformed_error("invalid criterion id"));
    }
    match validate_contract_paths(&wire.input_paths, platform) {
        Some(fault) => Err(fault),
        None => Ok(
            Criterion::CommandReceipt {
                id: wire.id,
                program: wire.program,
                args: wire.args,
                input_paths: wire.input_paths,
            },
        ),
    }
}

fn read_hash(wire: HashCriterion, platform: Platform) -> (r: Result<Criterion, GateError>)
    ensures
        match (r, hash_of(wire.deep_view(), platform)) {
            (Ok(criterion), Ok(c)) => criterion.deep_view() == c,
            (Err(error), Err(e)) => error.deep_view() == e,
            _ => false,
        },
{
    match validate_file(wire.id.as_str(), wire.path.as_str(), platform) {
        Some(fault) => {
            return Err(fault);
        },
        None => {},
    }
    if !is_sha256(wire.sha256.as_str()) {
        return Err(malformed_error("invalid sha256"));
    }
    Ok(Criterion::FileSha256 { id: wire.id, path: wire.path, sha256: wire.sha256 })
}

/// Reads one criterion.
pub fn read_criterion(wire: WireCriterion, platform: Platform) -> (r: Result<Criterion, GateError>)
    ensures
        match (r, criterion_of(wire.deep_view(), platform)) {
            (Ok(criterion), Ok(c)) => criterion.deep_view() == c,
            (Err(error), Err(e)) => error.deep_view() == e,
            _ => false,
        },
{
    let kind = match &wire.kind {
        Some(kind) => text::to_chars(kind.as_str()),
        None => {
            return Err(malformed_error("criterion has no string type"));
        },
    };
    if text::is(kind.as_slice(), "command_receipt") {
        match wire.command {
            Ok(command) => read_command(command, platform),
            Err(message) => Err(GateError::MalformedContract(message)),
        }
    } else if text::is(kind.as_slice(), "file_exists") {
        match wire.file {
            Ok(file) => match validate_file(file.id.as_str(), file.path.as_str(), platform) {
                Some(fault) => Err(fault),
                None => Ok(Criterion::FileExists { id: file.id, path: file.path }),
            },
            Err(message) => Err(GateError::MalformedContract(message)),
        }
    } else if text::is(kind.as_slice(), "file_absent") {
        match wire.file {
            Ok(file) => match validate_file(file.id.as_str(), file.path.as_str(), platform) {
                Some(fault) => Err(fault),
                None => Ok(Criterion::FileAbsent { id: file.id, path: file.path }),
            },
            Err(message) => Err(GateError::MalformedContract(message)),
        }
    } else if text::is(kind.as_slice(), "file_sha256") {
        match wire.hash {
            Ok(hash) => read_hash(hash, platform),
            Err(message) => Err(GateError::MalformedContract(message)),
        }
    } else {
        let kind = text::to_text(kind.as_slice());
        Err(GateError::UnsupportedContract(text::concat("criterion type ", kind.as_str())))
    }
}

fn is_named(criteria: &Vec<Criterion>, id: &str) -> (r: bool)
    ensures
        r == named(criteria.deep_view(), id@),
{
    let ghost all = criteria.deep_view();
    let mut i: usize = 0;
    while i < criteria.len()
        invariant
            i <= criteria@.len(),
            all == criteria.deep_view(),
            forall|k: int| 0 <= k < i ==> (#[trigger] all[k]).id() != id@,
        decreases criteria@.len() - i,
    {
        assert(all[i as int] == criteria@[i as int].deep_view());
        if text::same_text(criteria[i].id(), id) {
            assert(all[i as int].id() == id@);
            return true;
        }
        i += 1;
    }
    false
}

/// The criteria of a contract.
pub fn parse_criteria(wires: Vec<WireCriterion>, platform: Platform) -> (r: Result<
    Vec<Criterion>,
    GateError,
>)
    ensures
        match (r, criteria_of(wires.deep_view(), platform)) {
            (Ok(criteria), Ok(c)) => criteria.deep_view() == c,
            (Err(error), Err(e)) => error.deep_view() == e,
            _ => false,
        },
{
    let ghost all = wires.deep_view();
    if wires.len() > MAX_CRITERIA {
        return Err(malformed_error("too many criteria"));
    }
    let mut rest = wires;
    let mut criteria: Vec<Criterion> = Vec::new();
    assert(criteria.deep_view() =~= Seq::empty());
    let ghost mut i: int = 0;
    assert(all.skip(0) =~= all);
    while rest.len() > 0
        invariant
            0 <= i <= all.len(),
            all.len() <= MAX_CRITERIA,
            all == wires.deep_view(),
            rest@.len() == all.len() - i,
            forall|k: int| 0 <= k < rest@.len() ==> (#[trigger] rest@[k]).deep_view() == all[i + k],
            criteria_from(all, 0, seq![], platform) == criteria_from(
                all,
                i,
                criteria.deep_view(),
                platform,
            ),
        decreases rest@.len(),
    {
        let ghost before = rest@;
        let wire = rest.remove(0);
        assert(wire.deep_view() == all[i]);
        assert forall|k: int| 0 <= k < rest@.len() implies (#[trigger] rest@[k]).deep_view()
            == all[i + 1 + k] by {
            assert(rest@[k] == before[k + 1]);
        }
        let criterion = match read_criterion(wire, platform) {
            Ok(criterion) => criterion,
            Err(error) => {
                return Err(error);
            },
        };
        if is_named(&criteria, criterion.id()) {
            return Err(malformed_error("duplicate criterion id"));
        }
        list::push(&mut criteria, criterion);
        proof {
            i = i + 1;
        }
    }
    Ok(criteria)
}

/// What a contract file comes to: its size is checked first, then its form, its version
/// and its criteria.
pub open spec fn load_of(
    raw: Option<Seq<u8>>,
    wire: Result<WireContractModel, Seq<char>>,
    platform: Platform,
) -> Result<ContractLoadModel, GateErrorModel> {
    match raw {
        None => Ok(ContractLoadModel::Absent),
        Some(raw) => if raw.len() > MAX_CONTRACT_BYTES {
            Err(GateErrorModel::ContractTooLarge)
        } else {
            match wire {
                Err(message) => Err(malformed(message)),
                Ok(wire) => if wire.version != 1 {
                    Err(
                        GateErrorModel::UnsupportedContract(
                            "version "@ + text::decimal(wire.version as nat),
                        ),
                    )
                } else {
                    match criteria_of(wire.criteria, platform) {
                        Ok(criteria) => Ok(
                            ContractLoadModel::Active(
                                CompletionContractModel {
                                    digest: digest::sha256_hex(raw),
                                    criteria,
                                },
                            ),
                        ),
                        Err(error) => Err(error),
                    }
                },
            }
        },
    }
}

/// Loads a contract from its file. `raw` is what the file holds, `None` where there is no
/// file; `wire` is the file in its typed form, or why it has none. Its paths are paths of
/// `platform`.
pub fn load_contract(
    raw: Option<&[u8]>,
    wire: Result<WireContract, String>,
    platform: Platform,
) -> (r: Result<ContractLoad, GateError>)
    ensures
        match (
            r,
            load_of(
                match raw {
                    Some(raw) => Some(raw@),
                    None => None,
                },
                reading(wire),
                platform,
            ),
        ) {
            (Ok(load), Ok(l)) => load.deep_view() == l,
            (Err(error), Err(e)) => error.deep_view() == e,
            _ => false,
        },
{
    let raw = match raw {
        Some(raw) => raw,
        None => {
            return Ok(ContractLoad::Absent);
        },
    };
    if raw.len() as u64 > MAX_CONTRACT_BYTES {
        return Err(GateError::ContractTooLarge);
    }
    let wire = match wire {
        Ok(wire) => wire,
        Err(message) => {
            return Err(GateError::MalformedContract(message));
        },
    };
    if wire.version != 1 {
        let version = text::to_text(text::format_number(wire.version).as_slice());
        return Err(GateError::UnsupportedContract(text::concat("version ", version.as_str())));
    }
    match parse_criteria(wire.criteria, platform) {
        Ok(criteria) => Ok(
            ContractLoad::Active(
                CompletionContract { digest: digest::sha256_text(raw), criteria },
            ),
        ),
        Err(error) => Err(error),
    }
}

/// The receipt that a command leaves for a criterion is kept under a name that holds the
/// contract, the criterion and the command.
pub open spec fn receipt_key(
    contract_digest: Seq<char>,
    id: Seq<char>,
    command: CargoCommandModel,
) -> Seq<char> {
    contract_digest + seq!['\0'] + id + seq!['\0'] + command.program + seq!['\0']
        + terminated_from(command.args, 0)
}

/// The words from `i` on, each with a null character behind it.
pub open spec fn terminated_from(args: Seq<Seq<char>>, i: int) -> Seq<char>
    decreases args.len() - i,
{
    if i < 0 || i >= args.len() {
        seq![]
    } else {
        args[i] + seq!['\0'] + terminated_from(args, i + 1)
    }
}

/// The name of the file of a receipt.
pub open spec fn receipt_name(
    contract_digest: Seq<char>,
    id: Seq<char>,
    command: CargoCommandModel,
) -> Seq<char> {
    digest::sha256_hex(vstd::utf8::encode_utf8(receipt_key(contract_digest, id, command)))
        + ".json"@
}

/// The name of the file of a receipt.
pub fn receipt_filename(contract_digest: &str, id: &str, command: &CargoCommand) -> (r: String)
    ensures
        r@ == receipt_name(contract_digest@, id@, command.deep_view()),
{
    let ghost args = command.args.deep_view();
    let mut key = text::to_chars(contract_digest);
    key.push('\0');
    text::append(&mut key, text::to_chars(id).as_slice());
    key.push('\0');
    text::append(&mut key, text::to_chars(command.program.as_str()).as_slice());
    key.push('\0');
    let mut i: usize = 0;
    while i < command.args.len()
        invariant
            i <= command.args@.len(),
            args == command.args.deep_view(),
            receipt_key(contract_digest@, id@, command.deep_view()) =~= key@ + terminated_from(
                args,
                i as int,
            ),
        decreases command.args@.len() - i,
    {
        assert(args[i as int] == command.args@[i as int]@);
        text::append(&mut key, text::to_chars(command.args[i].as_str()).as_slice());
        key.push('\0');
        i += 1;
    }
    assert(key@ =~= receipt_key(contract_digest@, id@, command.deep_view()));
    let key = text::to_text(key.as_slice());
    let hash = digest::sha256_text(key.as_str().as_bytes());
    text::concat(hash.as_str(), ".json")
}

/// A file that a receipt depends on: its path below the workspace, and what it holds.
#[derive(Debug, PartialEq, Eq)]
pub struct InputFile {
    pub relative: String,
    pub raw: Vec<u8>,
}

pub struct InputFileModel {
    pub relative: Seq<char>,
    pub raw: Seq<u8>,
}

impl DeepView for InputFile {
    type V = InputFileModel;

    open spec fn deep_view(&self) -> InputFileModel {
        InputFileModel { relative: self.relative@, raw: self.raw@ }
    }
}

/// The files from `i` on, each as its path and its contents.
pub open spec fn framed_from(files: Seq<InputFileModel>, i: int) -> Seq<u8>
    decreases files.len() - i,
{
    if i < 0 || i >= files.len() {
        seq![]
    } else {
        vstd::utf8::encode_utf8(
            "file"@ + seq!['\0'] + text::slashed(files[i].relative) + seq!['\0'],
        ) + files[i].raw + framed_from(files, i + 1)
    }
}

/// The digest of the files that a receipt depends on.
pub open spec fn inputs_digest(files: Seq<InputFileModel>) -> Seq<char> {
    digest::sha256_hex(framed_from(files, 0))
}

fn append_bytes(out: &mut Vec<u8>, more: &[u8])
    ensures
        final(out)@ == old(out)@ + more@,
{
    let mut i: usize = 0;
    while i < more.len()
        invariant
            i <= more@.len(),
            out@ =~= old(out)@ + more@.take(i as int),
        decreases more@.len() - i,
    {
        out.push(more[i]);
        i += 1;
        assert(more@.take(i as int) =~= more@.take(i - 1).push(more@[i - 1]));
    }
    assert(more@.take(i as int) =~= more@);
}

/// Whether two reads of a file in a row agree. `attempts` counts the pairs of reads so far: a
/// file on which the last of them disagree is given up.
pub fn judge_reads(attempts: u64, first: &[u8], second: &[u8]) -> (r: Result<bool, GateError>)
    ensures
        match r {
            Ok(agree) => agree == (first@ == second@) && (agree || attempts < READ_ATTEMPTS),
            Err(error) => first@ != second@ && attempts >= READ_ATTEMPTS && error.deep_view()
                == GateErrorModel::Io("file changed during digest"@),
        },
{
    if list::same_bytes(first, second) {
        return Ok(true);
    }
    if attempts < READ_ATTEMPTS {
        Ok(false)
    } else {
        Err(GateError::Io(text::copy("file changed during digest")))
    }
}

/// The digest of the files that a receipt depends on, in their order.
pub fn digest_inputs(files: &Vec<InputFile>) -> (r: String)
    ensures
        r@ == inputs_digest(files.deep_view()),
{
    let ghost all = files.deep_view();
    let mut framed: Vec<u8> = Vec::new();
    let mut i: usize = 0;
    while i < files.len()
        invariant
            i <= files@.len(),
            all == files.deep_view(),
            framed_from(all, 0) =~= framed@ + framed_from(all, i as int),
        decreases files@.len() - i,
    {
        assert(all[i as int] == files@[i as int].deep_view());
        let mut head = text::to_chars("file");
        head.push('\0');
        let relative = text::to_slashes(text::to_chars(files[i].relative.as_str()).as_slice());
        text::append(&mut head, relative.as_slice());
        head.push('\0');
        assert(head@ =~= "file"@ + seq!['\0'] + text::slashed(all[i as int].relative) + seq!['\0']);
        let head = text::to_text(head.as_slice());
        append_bytes(&mut framed, head.as_str().as_bytes());
        append_bytes(&mut framed, files[i].raw.as_slice());
        i += 1;
    }
    assert(framed@ =~= framed_from(all, 0));
    digest::sha256_text(framed.as_slice())
}

/// What stands at a path.
#[derive(Clone, Copy, Debug, PartialEq, Eq, Structural)]
pub enum EntryKind {
    File,
    Directory,
    Other,
}

/// The files and directories that declared inputs have led to, in the order of paths.
#[derive(Debug, PartialEq, Eq)]
pub struct InputCollection {
    pub files: Vec<String>,
    pub directories: Vec<String>,
}

pub struct InputCollectionModel {
    pub files: Seq<Seq<char>>,
    pub directories: Seq<Seq<char>>,
}

impl DeepView for InputCollection {
    type V = InputCollectionModel;

    open spec fn deep_view(&self) -> InputCollectionModel {
        InputCollectionModel {
            files: self.files.deep_view(),
            directories: self.directories.deep_view(),
        }
    }
}

impl InputCollectionModel {
    pub open spec fn with_file(self, canonical: Seq<char>) -> InputCollectionModel {
        InputCollectionModel {
            files: path::inserted_from(self.files, canonical, 0),
            ..self
        }
    }

    pub open spec fn with_directory(self, canonical: Seq<char>) -> InputCollectionModel {
        InputCollectionModel {
            directories: path::inserted_from(self.directories, canonical, 0),
            ..self
        }
    }

    /// After one more path, where `canonical` is the path without links. Says whether the
    /// entries of the path are to be visited too.
    pub open spec fn visited(
        self,
        workspace: Seq<char>,
        path: Seq<char>,
        canonical: Seq<char>,
        kind: EntryKind,
    ) -> Result<(InputCollectionModel, bool), GateErrorModel> {
        if !path::within(canonical, workspace) {
            Err(GateErrorModel::OutsideWorkspace(path))
        } else {
            match kind {
                EntryKind::File => {
                    let next = self.with_file(canonical);
                    if next.files.len() > MAX_INPUT_FILES_TOTAL {
                        Err(GateErrorModel::TooManyFiles)
                    } else {
                        Ok((next, false))
                    }
                },
                EntryKind::Other => Err(GateErrorModel::InvalidPath(path)),
                EntryKind::Directory => {
                    let next = self.with_directory(canonical);
                    if next.directories.len() == self.directories.len() {
                        Ok((self, false))
                    } else if next.directories.len() > MAX_INPUT_FILES_TOTAL {
                        Err(GateErrorModel::TooManyFiles)
                    } else {
                        Ok((next, true))
                    }
                },
            }
        }
    }
}

proof fn same_length_is_unchanged(list: Seq<Seq<char>>, item: Seq<char>, i: int)
    ensures
        path::inserted_from(list, item, i).len() == list.len() ==> path::inserted_from(
            list,
            item,
            i,
        ) == list,
    decreases list.len() - i,
{
    if 0 <= i < list.len() {
        same_length_is_unchanged(list, item, i + 1);
    }
}

impl InputCollection {
    pub fn new() -> (r: InputCollection)
        ensures
            r.deep_view() == (InputCollectionModel { files: seq![], directories: seq![] }),
    {
        let r = InputCollection { files: Vec::new(), directories: Vec::new() };
        assert(r.deep_view().files =~= Seq::empty());
        assert(r.deep_view().directories =~= Seq::empty());
        r
    }

    /// Takes one more path. Says whether the entries of the path are to be visited too.
    pub fn visit(&mut self, workspace: &str, path: &str, canonical: &str, kind: EntryKind) -> (r:
        Result<bool, GateError>)
        ensures
            match (r, old(self).deep_view().visited(workspace@, path@, canonical@, kind)) {
                (Ok(descend), Ok((next, d))) => descend == d && final(self).deep_view() == next,
                (Err(error), Err(e)) => error.deep_view() == e,
                _ => false,
            },
    {
        if !path::is_within(canonical, workspace) {
            return Err(GateError::OutsideWorkspace(text::copy(path)));
        }
        match kind {
            EntryKind::File => {
                let _ = path::insert(&mut self.files, text::copy(canonical));
                if self.files.len() > MAX_INPUT_FILES_TOTAL {
                    return Err(GateError::TooManyFiles);
                }
                Ok(false)
            },
            EntryKind::Other => Err(GateError::InvalidPath(text::copy(path))),
            EntryKind::Directory => {
                proof {
                    same_length_is_unchanged(self.directories.deep_view(), canonical@, 0);
                }
                if !path::insert(&mut self.directories, text::copy(canonical)) {
                    return Ok(false);
                }
                if self.directories.len() > MAX_INPUT_FILES_TOTAL {
                    return Err(GateError::TooManyFiles);
                }
                Ok(true)
            },
        }
    }
}

/// What was found for a criterion.
#[derive(Debug, PartialEq, Eq)]
pub enum Evidence {
    /// The receipt of the command, where there is one, and the digest of its inputs as they
    /// are now.
    Receipt { receipt: Result<Option<Receipt>, GateError>, inputs: Result<String, GateError> },
    /// Whether the path is a file, where something stands there, and what it holds.
    File { is_file: Result<Option<bool>, GateError>, content: Result<Vec<u8>, GateError> },
    /// Whether anything stands at the path.
    Presence(Result<bool, GateError>),
}

pub enum EvidenceModel {
    Receipt {
        receipt: Result<Option<ReceiptModel>, GateErrorModel>,
        inputs: Result<Seq<char>, GateErrorModel>,
    },
    File {
        is_file: Result<Option<bool>, GateErrorModel>,
        content: Result<Seq<u8>, GateErrorModel>,
    },
    Presence(Result<bool, GateErrorModel>),
}

/// What was found, or why nothing could be.
pub open spec fn found<T: DeepView>(value: Result<T, GateError>) -> Result<T::V, GateErrorModel> {
    match value {
        Ok(value) => Ok(value.deep_view()),
        Err(error) => Err(error.deep_view()),
    }
}

impl DeepView for Evidence {
    type V = EvidenceModel;

    open spec fn deep_view(&self) -> EvidenceModel {
        match self {
            Evidence::Receipt { receipt, inputs } => EvidenceModel::Receipt {
                receipt: found(*receipt),
                inputs: found(*inputs),
            },
            Evidence::File { is_file, content } => EvidenceModel::File {
                is_file: match is_file {
                    Ok(is_file) => Ok(*is_file),
                    Err(error) => Err(error.deep_view()),
                },
                content: match content {
                    Ok(content) => Ok(content@),
                    Err(error) => Err(error.deep_view()),
                },
            },
            Evidence::Presence(present) => EvidenceModel::Presence(
                match present {
                    Ok(present) => Ok(*present),
                    Err(error) => Err(error.deep_view()),
                },
            ),
        }
    }
}

/// The evidence is of the kind that the criterion asks for.
pub open spec fn suits(criterion: CriterionModel, evidence: EvidenceModel) -> bool {
    match criterion {
        CriterionModel::CommandReceipt { .. } => evidence is Receipt,
        CriterionModel::FileExists { .. } => evidence is File,
        CriterionModel::FileAbsent { .. } => evidence is Presence,
        CriterionModel::FileSha256 { .. } => evidence is File,
    }
}

/// The status of a command criterion. A receipt counts only where it is for the same
/// contract, criterion and command, and is stale where the inputs have changed since.
pub open spec fn receipt_status(
    contract_digest: Seq<char>,
    id: Seq<char>,
    program: Seq<char>,
    args: Seq<Seq<char>>,
    receipt: Result<Option<ReceiptModel>, GateErrorModel>,
    inputs: Result<Seq<char>, GateErrorModel>,
) -> Result<CriterionStatus, GateErrorModel> {
    match receipt {
        Err(error) => Err(error),
        Ok(None) => Ok(CriterionStatus::Missing),
        Ok(Some(receipt)) => if receipt.contract_digest != contract_digest || receipt.criterion_id
            != id || receipt.program != program || receipt.args != args {
            Ok(CriterionStatus::Missing)
        } else {
            match inputs {
                Err(error) => Err(error),
                Ok(digest) => if receipt.input_digest == digest {
                    Ok(CriterionStatus::Satisfied)
                } else {
                    Ok(CriterionStatus::Stale)
                },
            }
        },
    }
}

/// The status of a criterion.
pub open spec fn status_of(
    criterion: CriterionModel,
    contract_digest: Seq<char>,
    evidence: EvidenceModel,
) -> Result<CriterionStatus, GateErrorModel> {
    match (criterion, evidence) {
        (
            CriterionModel::CommandReceipt { id, program, args, .. },
            EvidenceModel::Receipt { receipt, inputs },
        ) => receipt_status(contract_digest, id, program, args, receipt, inputs),
        (CriterionModel::FileExists { .. }, EvidenceModel::File { is_file, .. }) => match is_file {
            Err(error) => Err(error),
            Ok(is_file) => if is_file == Some(true) {
                Ok(CriterionStatus::Satisfied)
            } else {
                Ok(CriterionStatus::Failed)
            },
        },
        (CriterionModel::FileAbsent { .. }, EvidenceModel::Presence(present)) => match present {
            Err(error) => Err(error),
            Ok(present) => if present {
                Ok(CriterionStatus::Failed)
            } else {
                Ok(CriterionStatus::Satisfied)
            },
        },
        (
            CriterionModel::FileSha256 { sha256, .. },
            EvidenceModel::File { is_file, content },
        ) => match is_file {
            Err(error) => Err(error),
            Ok(is_file) => if is_file == Some(true) {
                match content {
                    Err(error) => Err(error),
                    Ok(content) => if digest::sha256_hex(content) == sha256 {
                        Ok(CriterionStatus::Satisfied)
                    } else {
                        Ok(CriterionStatus::Failed)
                    },
                }
            } else {
                Ok(CriterionStatus::Failed)
            },
        },
        _ => Err(GateErrorModel::NoMatchingCriterion),
    }
}

/// The status of a criterion, by the evidence for it.
pub fn evaluate_criterion(criterion: &Criterion, contract_digest: &str, evidence: &Evidence) -> (r:
    Result<CriterionResult, GateError>)
    requires
        suits(criterion.deep_view(), evidence.deep_view()),
    ensures
        match (r, status_of(criterion.deep_view(), contract_digest@, evidence.deep_view())) {
            (Ok(result), Ok(status)) => result.deep_view() == (CriterionResultModel {
                id: criterion.deep_view().id(),
                status,
            }),
            (Err(error), Err(e)) => error.deep_view() == e,
            _ => false,
        },
{
    let status = match (criterion, evidence) {
        (
            Criterion::CommandReceipt { id, program, args, .. },
            Evidence::Receipt { receipt, inputs },
        ) => match receipt {
            Err(error) => {
                return Err(error.copy());
            },
            Ok(None) => CriterionStatus::Missing,
            Ok(Some(receipt)) => {
                if !text::same_text(receipt.contract_digest.as_str(), contract_digest)
                    || !text::same_text(receipt.criterion_id.as_str(), id.as_str())
                    || !text::same_text(receipt.program.as_str(), program.as_str()) || !text::same_list(
                    &receipt.args,
                    args,
                ) {
                    CriterionStatus::Missing
                } else {
                    match inputs {
                        Err(error) => {
                            return Err(error.copy());
                        },
                        Ok(digest) => if text::same_text(
                            receipt.input_digest.as_str(),
                            digest.as_str(),
                        ) {
                            CriterionStatus::Satisfied
                        } else {
                            CriterionStatus::Stale
                        },
                    }
                }
            },
        },
        (Criterion::FileExists { .. }, Evidence::File { is_file, .. }) => match is_file {
            Err(error) => {
                return Err(error.copy());
            },
            Ok(Some(true)) => CriterionStatus::Satisfied,
            Ok(_) => CriterionStatus::Failed,
        },
        (Criterion::FileAbsent { .. }, Evidence::Presence(present)) => match present {
            Err(error) => {
                return Err(error.copy());
            },
            Ok(present) => if *present {
                CriterionStatus::Failed
            } else {
                CriterionStatus::Satisfied
            },
        },
        (Criterion::FileSha256 { sha256, .. }, Evidence::File { is_file, content }) => match is_file {
            Err(error) => {
                return Err(error.copy());
            },
            Ok(Some(true)) => match content {
                Err(error) => {
                    return Err(error.copy());
                },
                Ok(content) => {
                    let hash = digest::sha256_text(content.as_slice());
                    if text::same_text(hash.as_str(), sha256.as_str()) {
                        CriterionStatus::Satisfied
                    } else {
                        CriterionStatus::Failed
                    }
                },
            },
            Ok(_) => CriterionStatus::Failed,
        },
        _ => {
            return Err(GateError::NoMatchingCriterion);
        },
    };
    Ok(CriterionResult { id: text::copy(criterion.id()), status })
}

/// The results with one more, before the first one from `i` on that comes behind it by
/// name.
pub open spec fn placed_from(
    results: Seq<CriterionResultModel>,
    result: CriterionResultModel,
    i: int,
) -> Seq<CriterionResultModel>
    decreases results.len() - i,
{
    if i < 0 || i >= results.len() {
        results.push(result)
    } else if text::before(result.id, results[i].id) {
        results.insert(i, result)
    } else {
        placed_from(results, result, i + 1)
    }
}

/// The results of the criteria from `i` on, in the order of their names.
pub open spec fn results_from(
    criteria: Seq<CriterionModel>,
    contract_digest: Seq<char>,
    evidence: Seq<EvidenceModel>,
    i: int,
    results: Seq<CriterionResultModel>,
) -> Result<Seq<CriterionResultModel>, GateErrorModel>
    decreases criteria.len() - i,
{
    if i < 0 || i >= criteria.len() {
        Ok(results)
    } else {
        match status_of(criteria[i], contract_digest, evidence[i]) {
            Ok(status) => results_from(
                criteria,
                contract_digest,
                evidence,
                i + 1,
                placed_from(results, CriterionResultModel { id: criteria[i].id(), status }, 0),
            ),
            Err(error) => Err(error),
        }
    }
}

/// The names of the results from `i` on that are not satisfied.
pub open spec fn missing_from(results: Seq<CriterionResultModel>, i: int) -> Seq<Seq<char>>
    decreases results.len() - i,
{
    if i < 0 || i >= results.len() {
        seq![]
    } else if results[i].status == CriterionStatus::Satisfied {
        missing_from(results, i + 1)
    } else {
        seq![results[i].id] + missing_from(results, i + 1)
    }
}

/// A text within the bound on reasons; one that is longer is cut and marked.
pub open spec fn bounded_reason(reason: Seq<char>) -> Seq<char> {
    if text::byte_len(reason) <= MAX_REASON_BYTES {
        reason
    } else {
        text::bounded(reason, (MAX_REASON_BYTES - 3) as nat) + "..."@
    }
}

/// The evaluation of results.
pub open spec fn evaluation_of(results: Seq<CriterionResultModel>) -> EvaluationModel {
    let missing = missing_from(results, 0);
    if missing.len() == 0 {
        EvaluationModel {
            status: GateStatus::Pass,
            missing_ids: missing,
            reason: seq![],
            criteria: results,
        }
    } else {
        EvaluationModel {
            status: GateStatus::Block,
            missing_ids: missing,
            reason: bounded_reason("missing: "@ + text::joined(missing, ","@)),
            criteria: results,
        }
    }
}

pub open spec fn without_criteria(status: GateStatus, reason: Seq<char>) -> EvaluationModel {
    EvaluationModel { status, missing_ids: seq![], reason, criteria: seq![] }
}

/// The evaluation that stands for an error: a contract that cannot be used is invalid, and
/// any other error leaves the evidence unavailable.
pub open spec fn evaluation_of_error(error: GateErrorModel) -> EvaluationModel {
    if error is MalformedContract || error is UnsupportedContract {
        without_criteria(
            GateStatus::InvalidContract,
            bounded_reason("invalid_contract: "@ + error.message()),
        )
    } else {
        without_criteria(
            GateStatus::EvidenceUnavailable,
            bounded_reason("evidence_unavailable: "@ + error.message()),
        )
    }
}

/// The evaluation of a loaded contract. Without a contract it passes.
pub open spec fn evaluation_for(
    load: Result<ContractLoadModel, GateErrorModel>,
    evidence: Seq<EvidenceModel>,
) -> EvaluationModel {
    match load {
        Err(error) => evaluation_of_error(error),
        Ok(ContractLoadModel::Absent) => without_criteria(GateStatus::Pass, seq![]),
        Ok(ContractLoadModel::Active(contract)) => match results_from(
            contract.criteria,
            contract.digest,
            evidence,
            0,
            seq![],
        ) {
            Ok(results) => evaluation_of(results),
            Err(error) => evaluation_of_error(error),
        },
    }
}

/// The evidence is of the kind that each criterion asks for.
pub open spec fn all_suit(criteria: Seq<CriterionModel>, evidence: Seq<EvidenceModel>) -> bool {
    &&& evidence.len() == criteria.len()
    &&& forall|i: int|
        0 <= i < criteria.len() ==> suits(#[trigger] criteria[i], #[trigger] evidence[i])
}

fn bounded_text(reason: &str) -> (r: String)
    ensures
        r@ == bounded_reason(reason@),
{
    if text::count_bytes(reason) <= MAX_REASON_BYTES {
        return text::copy(reason);
    }
    let start = text::bound(reason, MAX_REASON_BYTES - 3);
    text::concat(start.as_str(), "...")
}

fn place(results: &mut Vec<CriterionResult>, result: CriterionResult)
    ensures
        final(results).deep_view() == placed_from(
            old(results).deep_view(),
            result.deep_view(),
            0,
        ),
{
    let ghost all = results.deep_view();
    let ghost item = result.deep_view();
    let id = text::to_chars(result.id.as_str());
    let mut i: usize = 0;
    while i < results.len()
        invariant
            i <= results@.len(),
            *results == *old(results),
            all == results.deep_view(),
            item == result.deep_view(),
            id@ == item.id,
            placed_from(all, item, 0) == placed_from(all, item, i as int),
        decreases results@.len() - i,
    {
        assert(all[i as int] == results@[i as int].deep_view());
        let other = text::to_chars(results[i].id.as_str());
        if text::comes_before(id.as_slice(), other.as_slice()) {
            results.insert(i, result);
            assert(results.deep_view() =~= all.insert(i as int, item));
            return;
        }
        i += 1;
    }
    results.push(result);
    assert(results.deep_view() =~= all.push(item));
}

fn missing_ids(results: &Vec<CriterionResult>) -> (r: Vec<String>)
    ensures
        r.deep_view() == missing_from(results.deep_view(), 0),
{
    let ghost all = results.deep_view();
    let mut out: Vec<String> = Vec::new();
    let mut i: usize = 0;
    while i < results.len()
        invariant
            i <= results@.len(),
            all == results.deep_view(),
            missing_from(all, 0) =~= out.deep_view() + missing_from(all, i as int),
        decreases results@.len() - i,
    {
        assert(all[i as int] == results@[i as int].deep_view());
        if results[i].status != CriterionStatus::Satisfied {
            list::push(&mut out, text::copy(results[i].id.as_str()));
        }
        i += 1;
    }
    assert(out.deep_view() =~= missing_from(all, 0));
    out
}

fn evaluation_without_criteria(status: GateStatus, reason: String) -> (r: Evaluation)
    ensures
        r.deep_view() == without_criteria(status, reason@),
{
    let r = Evaluation { status, missing_ids: Vec::new(), reason, criteria: Vec::new() };
    assert(r.deep_view().missing_ids =~= Seq::empty());
    assert(r.deep_view().criteria =~= Seq::empty());
    r
}

fn error_evaluation(error: &GateError) -> (r: Evaluation)
    ensures
        r.deep_view() == evaluation_of_error(error.deep_view()),
{
    let message = error.message();
    let invalid = match error {
        GateError::MalformedContract(_) => true,
        GateError::UnsupportedContract(_) => true,
        _ => false,
    };
    if invalid {
        let reason = text::concat("invalid_contract: ", message.as_str());
        evaluation_without_criteria(GateStatus::InvalidContract, bounded_text(reason.as_str()))
    } else {
        let reason = text::concat("evidence_unavailable: ", message.as_str());
        evaluation_without_criteria(GateStatus::EvidenceUnavailable, bounded_text(reason.as_str()))
    }
}

fn evaluate_active(contract: &CompletionContract, evidence: &Vec<Evidence>) -> (r: Result<
    Evaluation,
    GateError,
>)
    requires
        all_suit(contract.deep_view().criteria, evidence.deep_view()),
    ensures
        match (
            r,
            results_from(
                contract.deep_view().criteria,
                contract.digest@,
                evidence.deep_view(),
                0,
                seq![],
            ),
        ) {
            (Ok(evaluation), Ok(results)) => evaluation.deep_view() == evaluation_of(results),
            (Err(error), Err(e)) => error.deep_view() == e,
            _ => false,
        },
{
    let ghost all = contract.deep_view().criteria;
    let ghost proofs = evidence.deep_view();
    let mut results: Vec<CriterionResult> = Vec::new();
    assert(results.deep_view() =~= Seq::empty());
    let mut i: usize = 0;
    while i < contract.criteria.len()
        invariant
            i <= contract.criteria@.len(),
            all == contract.criteria.deep_view(),
            proofs == evidence.deep_view(),
            all_suit(all, proofs),
            results_from(all, contract.digest@, proofs, 0, seq![]) == results_from(
                all,
                contract.digest@,
                proofs,
                i as int,
                results.deep_view(),
            ),
        decreases contract.criteria@.len() - i,
    {
        assert(all[i as int] == contract.criteria@[i as int].deep_view());
        assert(proofs[i as int] == evidence@[i as int].deep_view());
        match evaluate_criterion(&contract.criteria[i], contract.digest.as_str(), &evidence[i]) {
            Ok(result) => place(&mut results, result),
            Err(error) => {
                return Err(error);
            },
        }
        i += 1;
    }
    let missing = missing_ids(&results);
    if missing.len() == 0 {
        let reason = String::new();
        assert(reason@ =~= Seq::empty());
        return Ok(
            Evaluation {
                status: GateStatus::Pass,
                missing_ids: missing,
                reason,
                criteria: results,
            },
        );
    }
    let list = text::join_texts(&missing, ",");
    let reason = text::concat("missing: ", list.as_str());
    Ok(
        Evaluation {
            status: GateStatus::Block,
            reason: bounded_text(reason.as_str()),
            missing_ids: missing,
            criteria: results,
        },
    )
}

/// Evaluates a loaded contract by the evidence for its criteria.
pub fn evaluate(load: &Result<ContractLoad, GateError>, evidence: &Vec<Evidence>) -> (r: Evaluation)
    requires
        load matches Ok(ContractLoad::Active(contract)) ==> all_suit(
            contract.deep_view().criteria,
            evidence.deep_view(),
        ),
    ensures
        r.deep_view() == evaluation_for(
            match load {
                Ok(load) => Ok(load.deep_view()),
                Err(error) => Err(error.deep_view()),
            },
            evidence.deep_view(),
        ),
{
    match load {
        Ok(ContractLoad::Absent) => {
            let reason = String::new();
            assert(reason@ =~= Seq::empty());
            evaluation_without_criteria(GateStatus::Pass, reason)
        },
        Ok(ContractLoad::Active(contract)) => match evaluate_active(contract, evidence) {
            Ok(evaluation) => evaluation,
            Err(error) => error_evaluation(&error),
        },
        Err(error) => error_evaluation(error),
    }
}

/// The criterion asks for a receipt of exactly the given command.
pub open spec fn asks_for(criterion: CriterionModel, command: CargoCommandModel) -> bool {
    criterion matches CriterionModel::CommandReceipt { program, args, .. } && program
        == command.program && args == command.args
}

/// The positions from `i` on of the criteria that ask for a receipt of a command.
pub open spec fn matching_from(
    criteria: Seq<CriterionModel>,
    command: CargoCommandModel,
    i: int,
) -> Seq<int>
    decreases criteria.len() - i,
{
    if i < 0 || i >= criteria.len() {
        seq![]
    } else if asks_for(criteria[i], command) {
        seq![i] + matching_from(criteria, command, i + 1)
    } else {
        matching_from(criteria, command, i + 1)
    }
}

/// What is to be done about the file of a receipt: it is written, or removed where
/// `receipt` is `None`.
#[derive(Debug, PartialEq, Eq)]
pub struct ReceiptAction {
    pub file_name: String,
    pub receipt: Option<Receipt>,
}

pub struct ReceiptActionModel {
    pub file_name: Seq<char>,
    pub receipt: Option<ReceiptModel>,
}

impl DeepView for ReceiptAction {
    type V = ReceiptActionModel;

    open spec fn deep_view(&self) -> ReceiptActionModel {
        ReceiptActionModel { file_name: self.file_name@, receipt: self.receipt.deep_view() }
    }
}

/// The receipt that a successful command leaves for a criterion.
pub open spec fn receipt_of(
    contract_digest: Seq<char>,
    id: Seq<char>,
    command: CargoCommandModel,
    input_digest: Seq<char>,
) -> ReceiptModel {
    ReceiptModel {
        contract_digest,
        criterion_id: id,
        program: command.program,
        args: command.args,
        input_digest,
    }
}

/// What is to be done for the matching criteria from `i` on. The digests of the inputs of
/// the matching criteria are given in the same order; a failed command needs none.
pub open spec fn actions_from(
    contract: CompletionContractModel,
    command: CargoCommandModel,
    outcome: CargoOutcome,
    matching: Seq<int>,
    digests: Seq<Result<Seq<char>, GateErrorModel>>,
    i: int,
    actions: Seq<ReceiptActionModel>,
) -> Result<Seq<ReceiptActionModel>, GateErrorModel>
    decreases matching.len() - i,
{
    if i < 0 || i >= matching.len() {
        Ok(actions)
    } else {
        let id = contract.criteria[matching[i]].id();
        let file_name = receipt_name(contract.digest, id, command);
        match outcome {
            CargoOutcome::Succeeded => match digests[i] {
                Ok(input_digest) => actions_from(
                    contract,
                    command,
                    outcome,
                    matching,
                    digests,
                    i + 1,
                    actions.push(
                        ReceiptActionModel {
                            file_name,
                            receipt: Some(
                                receipt_of(contract.digest, id, command, input_digest),
                            ),
                        },
                    ),
                ),
                Err(error) => Err(error),
            },
            CargoOutcome::Failed => actions_from(
                contract,
                command,
                outcome,
                matching,
                digests,
                i + 1,
                actions.push(ReceiptActionModel { file_name, receipt: None }),
            ),
        }
    }
}

/// What is to be done about receipts when a command has ended. Nothing is done where an
/// input of a successful command cannot be read.
pub open spec fn outcome_actions(
    load: Result<ContractLoadModel, GateErrorModel>,
    command: CargoCommandModel,
    outcome: CargoOutcome,
    digests: Seq<Result<Seq<char>, GateErrorModel>>,
) -> Result<Seq<ReceiptActionModel>, GateErrorModel> {
    if command.program != "cargo"@ {
        Err(GateErrorModel::UnsupportedProgram(command.program))
    } else {
        match load {
            Err(error) => Err(error),
            Ok(ContractLoadModel::Absent) => Err(GateErrorModel::NoMatchingCriterion),
            Ok(ContractLoadModel::Active(contract)) => {
                let matching = matching_from(contract.criteria, command, 0);
                if matching.len() == 0 {
                    Err(GateErrorModel::NoMatchingCriterion)
                } else {
                    actions_from(contract, command, outcome, matching, digests, 0, seq![])
                }
            },
        }
    }
}

fn is_asked_for(criterion: &Criterion, command: &CargoCommand) -> (r: bool)
    ensures
        r == asks_for(criterion.deep_view(), command.deep_view()),
{
    match criterion {
        Criterion::CommandReceipt { program, args, .. } => text::same_text(
            program.as_str(),
            command.program.as_str(),
        ) && text::same_list(args, &command.args),
        _ => false,
    }
}

/// A list of positions as mathematical integers.
pub open spec fn positions(list: Seq<usize>) -> Seq<int> {
    Seq::new(list.len(), |i: int| list[i] as int)
}

/// The positions of the criteria that ask for a receipt of a command.
pub fn matching_criteria(contract: &CompletionContract, command: &CargoCommand) -> (r: Vec<usize>)
    ensures
        positions(r@) == matching_from(contract.deep_view().criteria, command.deep_view(), 0),
        forall|i: int| 0 <= i < r@.len() ==> (#[trigger] r@[i]) < contract.criteria@.len(),
{
    let ghost all = contract.deep_view().criteria;
    let ghost wanted = command.deep_view();
    let mut out: Vec<usize> = Vec::new();
    let mut i: usize = 0;
    while i < contract.criteria.len()
        invariant
            i <= contract.criteria@.len(),
            all == contract.criteria.deep_view(),
            wanted == command.deep_view(),
            forall|k: int| 0 <= k < out@.len() ==> (#[trigger] out@[k]) < contract.criteria@.len(),
            matching_from(all, wanted, 0) =~= positions(out@) + matching_from(
                all,
                wanted,
                i as int,
            ),
        decreases contract.criteria@.len() - i,
    {
        assert(all[i as int] == contract.criteria@[i as int].deep_view());
        if is_asked_for(&contract.criteria[i], command) {
            let ghost before = out@;
            out.push(i);
            assert(positions(out@) =~= positions(before).push(i as int));
        }
        i += 1;
    }
    assert(positions(out@) =~= matching_from(all, wanted, 0));
    out
}

/// Digests, or why there are none.
pub open spec fn digests_of(digests: Seq<Result<String, GateError>>) -> Seq<
    Result<Seq<char>, GateErrorModel>,
> {
    Seq::new(digests.len(), |i: int| found(digests[i]))
}

fn matching_actions(
    contract: &CompletionContract,
    command: &CargoCommand,
    outcome: CargoOutcome,
    matching: &Vec<usize>,
    digests: &Vec<Result<String, GateError>>,
) -> (r: Result<Vec<ReceiptAction>, GateError>)
    requires
        forall|i: int|
            0 <= i < matching@.len() ==> (#[trigger] matching@[i]) < contract.criteria@.len(),
        outcome == CargoOutcome::Succeeded ==> digests@.len() == matching@.len(),
    ensures
        match (
            r,
            actions_from(
                contract.deep_view(),
                command.deep_view(),
                outcome,
                positions(matching@),
                digests_of(digests@),
                0,
                seq![],
            ),
        ) {
            (Ok(actions), Ok(a)) => actions.deep_view() == a,
            (Err(error), Err(e)) => error.deep_view() == e,
            _ => false,
        },
{
    let ghost model = contract.deep_view();
    let ghost wanted = command.deep_view();
    let ghost all = positions(matching@);
    let ghost given = digests_of(digests@);
    let mut actions: Vec<ReceiptAction> = Vec::new();
    assert(actions.deep_view() =~= Seq::empty());
    let mut i: usize = 0;
    while i < matching.len()
        invariant
            i <= matching@.len(),
            model == contract.deep_view(),
            wanted == command.deep_view(),
            all == positions(matching@),
            given == digests_of(digests@),
            forall|k: int|
                0 <= k < matching@.len() ==> (#[trigger] matching@[k]) < contract.criteria@.len(),
            outcome == CargoOutcome::Succeeded ==> digests@.len() == matching@.len(),
            actions_from(model, wanted, outcome, all, given, 0, seq![]) == actions_from(
                model,
                wanted,
                outcome,
                all,
                given,
                i as int,
                actions.deep_view(),
            ),
        decreases matching@.len() - i,
    {
        let position: usize = matching[i];
        assert(all[i as int] == position);
        assert(model.criteria[position as int] == contract.criteria@[position as int].deep_view());
        let id = contract.criteria[position].id();
        let file_name = receipt_filename(contract.digest.as_str(), id, command);
        let receipt = match outcome {
            CargoOutcome::Succeeded => match &digests[i] {
                Ok(input_digest) => Some(
                    Receipt {
                        contract_digest: text::copy(contract.digest.as_str()),
                        criterion_id: text::copy(id),
                        program: text::copy(command.program.as_str()),
                        args: text::copy_list(&command.args),
                        input_digest: text::copy(input_digest.as_str()),
                    },
                ),
                Err(error) => {
                    return Err(error.copy());
                },
            },
            CargoOutcome::Failed => None,
        };
        list::push(&mut actions, ReceiptAction { file_name, receipt });
        i += 1;
    }
    Ok(actions)
}

/// What is to be done about receipts when a command has ended. The digests are those of the
/// inputs of the criteria that match the command, in their order; where the command failed
/// none are needed.
pub fn record_cargo_outcome(
    load: &Result<ContractLoad, GateError>,
    command: &CargoCommand,
    outcome: CargoOutcome,
    digests: &Vec<Result<String, GateError>>,
) -> (r: Result<Vec<ReceiptAction>, GateError>)
    requires
        (load matches Ok(ContractLoad::Active(contract)) && outcome == CargoOutcome::Succeeded)
            ==> digests@.len() == matching_from(
            load->Ok_0->Active_0.deep_view().criteria,
            command.deep_view(),
            0,
        ).len(),
    ensures
        match (
            r,
            outcome_actions(
                match load {
                    Ok(load) => Ok(load.deep_view()),
                    Err(error) => Err(error.deep_view()),
                },
                command.deep_view(),
                outcome,
                digests_of(digests@),
            ),
        ) {
            (Ok(actions), Ok(a)) => actions.deep_view() == a,
            (Err(error), Err(e)) => error.deep_view() == e,
            _ => false,
        },
{
    if !text::same_text(command.program.as_str(), "cargo") {
        return Err(GateError::UnsupportedProgram(text::copy(command.program.as_str())));
    }
    match load {
        Err(error) => Err(error.copy()),
        Ok(ContractLoad::Absent) => Err(GateError::NoMatchingCriterion),
        Ok(ContractLoad::Active(contract)) => {
            let matching = matching_criteria(contract, command);
            assert(positions(matching@).len() == matching@.len());
            if matching.len() == 0 {
                return Err(GateError::NoMatchingCriterion);
            }
            matching_actions(contract, command, outcome, &matching, digests)
        },
    }
}

/// A receipt that a successful command leaves satisfies its criterion as long as the inputs
/// have the digest that they had, and is stale once they have another.
pub proof fn receipts_hold_until_inputs_change(
    contract_digest: Seq<char>,
    id: Seq<char>,
    command: CargoCommandModel,
    input_paths: Seq<Seq<char>>,
    recorded: Seq<char>,
    current: Seq<char>,
)
    ensures
        ({
            let criterion = CriterionModel::CommandReceipt {
                id,
                program: command.program,
                args: command.args,
                input_paths,
            };
            let evidence = EvidenceModel::Receipt {
                receipt: Ok(Some(receipt_of(contract_digest, id, command, recorded))),
                inputs: Ok(current),
            };
            status_of(criterion, contract_digest, evidence) == Ok::<
                CriterionStatus,
                GateErrorModel,
            >(
                if recorded == current {
                    CriterionStatus::Satisfied
                } else {
                    CriterionStatus::Stale
                },
            )
        }),
{
}

proof fn failed_command_removes_from(
    contract: CompletionContractModel,
    command: CargoCommandModel,
    matching: Seq<int>,
    digests: Seq<Result<Seq<char>, GateErrorModel>>,
    i: int,
    actions: Seq<ReceiptActionModel>,
)
    requires
        0 <= i <= matching.len(),
        actions.len() == i,
        forall|k: int|
            0 <= k < i ==> #[trigger] actions[k] == (ReceiptActionModel {
                file_name: receipt_name(
                    contract.digest,
                    contract.criteria[matching[k]].id(),
                    command,
                ),
                receipt: None,
            }),
    ensures
        ({
            let r = actions_from(
                contract,
                command,
                CargoOutcome::Failed,
                matching,
                digests,
                i,
                actions,
            );
            &&& r matches Ok(end)
            &&& end.len() == matching.len()
            &&& forall|k: int|
                0 <= k < matching.len() ==> #[trigger] end[k] == (ReceiptActionModel {
                    file_name: receipt_name(
                        contract.digest,
                        contract.criteria[matching[k]].id(),
                        command,
                    ),
                    receipt: None,
                })
        }),
    decreases matching.len() - i,
{
    if i < matching.len() {
        let file_name = receipt_name(
            contract.digest,
            contract.criteria[matching[i]].id(),
            command,
        );
        failed_command_removes_from(
            contract,
            command,
            matching,
            digests,
            i + 1,
            actions.push(ReceiptActionModel { file_name, receipt: None }),
        );
    }
}

/// A command that failed removes the receipt of every criterion that asks for it, whatever
/// its inputs are and whether or not they can be read.
pub proof fn failed_commands_remove_receipts(
    contract: CompletionContractModel,
    command: CargoCommandModel,
    digests: Seq<Result<Seq<char>, GateErrorModel>>,
)
    requires
        command.program == "cargo"@,
        matching_from(contract.criteria, command, 0).len() > 0,
    ensures
        ({
            let matching = matching_from(contract.criteria, command, 0);
            let r = outcome_actions(
                Ok(ContractLoadModel::Active(contract)),
                command,
                CargoOutcome::Failed,
                digests,
            );
            &&& r matches Ok(actions)
            &&& actions.len() == matching.len()
            &&& forall|k: int|
                0 <= k < matching.len() ==> #[trigger] actions[k] == (ReceiptActionModel {
                    file_name: receipt_name(
                        contract.digest,
                        contract.criteria[matching[k]].id(),
                        command,
                    ),
                    receipt: None,
                })
        }),
{
    failed_command_removes_from(
        contract,
        command,
        matching_from(contract.criteria, command, 0),
        digests,
        0,
        seq![],
    );
}

/// The receipts that are kept, by the names of their files, once the actions from `i` on have
/// been carried out.
pub open spec fn kept_after(
    kept: Map<Seq<char>, ReceiptModel>,
    actions: Seq<ReceiptActionModel>,
    i: int,
) -> Map<Seq<char>, ReceiptModel>
    decreases actions.len() - i,
{
    if i < 0 || i >= actions.len() {
        kept
    } else {
        let next = match actions[i].receipt {
            Some(receipt) => kept.insert(actions[i].file_name, receipt),
            None => kept.remove(actions[i].file_name),
        };
        kept_after(next, actions, i + 1)
    }
}

/// The receipts that are kept once a command has ended; they stay as they are where nothing
/// is to be done.
pub open spec fn recorded(
    kept: Map<Seq<char>, ReceiptModel>,
    contract: CompletionContractModel,
    command: CargoCommandModel,
    outcome: CargoOutcome,
    digests: Seq<Result<Seq<char>, GateErrorModel>>,
) -> Map<Seq<char>, ReceiptModel> {
    match outcome_actions(Ok(ContractLoadModel::Active(contract)), command, outcome, digests) {
        Ok(actions) => kept_after(kept, actions, 0),
        Err(_) => kept,
    }
}

/// The evidence that the kept receipts and the input files as they are now give for a
/// criterion on a command.
pub open spec fn kept_evidence(
    kept: Map<Seq<char>, ReceiptModel>,
    contract_digest: Seq<char>,
    id: Seq<char>,
    command: CargoCommandModel,
    files: Seq<InputFileModel>,
) -> EvidenceModel {
    let name = receipt_name(contract_digest, id, command);
    EvidenceModel::Receipt {
        receipt: Ok(
            if kept.contains_key(name) {
                Some(kept[name])
            } else {
                None
            },
        ),
        inputs: Ok(inputs_digest(files)),
    }
}

/// A contract whose only criterion asks for a cargo command passes once that command has
/// succeeded, as long as the input files hold the bytes that they held. It blocks with a stale
/// criterion once their digest is another, and with a missing one once the command has failed,
/// whatever was kept before.
pub proof fn recorded_outcomes_decide(
    kept: Map<Seq<char>, ReceiptModel>,
    contract: CompletionContractModel,
    id: Seq<char>,
    command: CargoCommandModel,
    input_paths: Seq<Seq<char>>,
    at_record: Seq<InputFileModel>,
    at_evaluation: Seq<InputFileModel>,
    digests: Seq<Result<Seq<char>, GateErrorModel>>,
)
    requires
        command.program == "cargo"@,
        contract.criteria == seq![
            CriterionModel::CommandReceipt {
                id,
                program: command.program,
                args: command.args,
                input_paths,
            },
        ],
    ensures
        ({
            let after_success = recorded(
                kept,
                contract,
                command,
                CargoOutcome::Succeeded,
                seq![Ok(inputs_digest(at_record))],
            );
            let evaluation = evaluation_for(
                Ok(ContractLoadModel::Active(contract)),
                seq![kept_evidence(after_success, contract.digest, id, command, at_evaluation)],
            );
            &&& at_evaluation == at_record ==> evaluation.status == GateStatus::Pass
                && evaluation.missing_ids.len() == 0 && evaluation.criteria == seq![
                CriterionResultModel { id, status: CriterionStatus::Satisfied },
            ]
            &&& inputs_digest(at_evaluation) != inputs_digest(at_record) ==> evaluation.status
                == GateStatus::Block && evaluation.missing_ids == seq![id] && evaluation.criteria
                == seq![CriterionResultModel { id, status: CriterionStatus::Stale }]
        }),
        ({
            let after_failure = recorded(kept, contract, command, CargoOutcome::Failed, digests);
            let evaluation = evaluation_for(
                Ok(ContractLoadModel::Active(contract)),
                seq![kept_evidence(after_failure, contract.digest, id, command, at_evaluation)],
            );
            &&& evaluation.status == GateStatus::Block
            &&& evaluation.missing_ids == seq![id]
            &&& evaluation.criteria == seq![
                CriterionResultModel { id, status: CriterionStatus::Missing },
            ]
        }),
{
    reveal_with_fuel(matching_from, 2);
    reveal_with_fuel(actions_from, 2);
    reveal_with_fuel(kept_after, 2);
    reveal_with_fuel(results_from, 2);
    reveal_with_fuel(missing_from, 2);
    assert(matching_from(contract.criteria, command, 0) =~= seq![0int]);
    let none: Seq<CriterionResultModel> = seq![];
    let satisfied = CriterionResultModel { id, status: CriterionStatus::Satisfied };
    let stale = CriterionResultModel { id, status: CriterionStatus::Stale };
    let missing = CriterionResultModel { id, status: CriterionStatus::Missing };
    assert(placed_from(none, satisfied, 0) =~= seq![satisfied]);
    assert(placed_from(none, stale, 0) =~= seq![stale]);
    assert(placed_from(none, missing, 0) =~= seq![missing]);
    assert(missing_from(seq![satisfied], 0) =~= seq![]);
    assert(missing_from(seq![stale], 0) =~= seq![id]);
    assert(missing_from(seq![missing], 0) =~= seq![id]);
}

/// Every result is satisfied.
pub open spec fn all_satisfied(results: Seq<CriterionResultModel>) -> bool {
    forall|i: int|
        0 <= i < results.len() ==> (#[trigger] results[i]).status == CriterionStatus::Satisfied
}

proof fn placed_satisfaction(
    results: Seq<CriterionResultModel>,
    result: CriterionResultModel,
    i: int,
)
    requires
        0 <= i,
    ensures
        all_satisfied(placed_from(results, result, i)) == (all_satisfied(results) && result.status
            == CriterionStatus::Satisfied),
    decreases results.len() - i,
{
    let next = placed_from(results, result, i);
    if i < results.len() && !text::before(result.id, results[i].id) {
        placed_satisfaction(results, result, i + 1);
    } else {
        let at = if i < results.len() {
            i
        } else {
            results.len() as int
        };
        assert(next[at] == result);
        if all_satisfied(next) {
            assert forall|k: int| 0 <= k < results.len() implies (#[trigger] results[k]).status
                == CriterionStatus::Satisfied by {
                let n = if k < at {
                    k
                } else {
                    k + 1
                };
                assert(next[n] == results[k]);
            }
        }
        if all_satisfied(results) && result.status == CriterionStatus::Satisfied {
            assert forall|n: int| 0 <= n < next.len() implies (#[trigger] next[n]).status
                == CriterionStatus::Satisfied by {
                if n < at {
                    assert(next[n] == results[n]);
                } else if n > at {
                    assert(next[n] == results[n - 1]);
                }
            }
        }
    }
}

proof fn missing_means_unsatisfied(results: Seq<CriterionResultModel>, i: int)
    requires
        0 <= i,
    ensures
        (missing_from(results, i).len() == 0) == (forall|k: int|
            i <= k < results.len() ==> (#[trigger] results[k]).status
                == CriterionStatus::Satisfied),
    decreases results.len() - i,
{
    if i < results.len() {
        missing_means_unsatisfied(results, i + 1);
    }
}

proof fn results_satisfaction(
    criteria: Seq<CriterionModel>,
    contract_digest: Seq<char>,
    evidence: Seq<EvidenceModel>,
    i: int,
    results: Seq<CriterionResultModel>,
)
    requires
        0 <= i,
    ensures
        results_from(criteria, contract_digest, evidence, i, results) matches Ok(end) ==> (
        all_satisfied(end) == (all_satisfied(results) && forall|k: int|
            i <= k < criteria.len() ==> #[trigger] status_of(
                criteria[k],
                contract_digest,
                evidence[k],
            ) == Ok::<CriterionStatus, GateErrorModel>(CriterionStatus::Satisfied))),
        (forall|k: int|
            i <= k < criteria.len() ==> #[trigger] status_of(
                criteria[k],
                contract_digest,
                evidence[k],
            ) == Ok::<CriterionStatus, GateErrorModel>(CriterionStatus::Satisfied)) ==> results_from(
            criteria,
            contract_digest,
            evidence,
            i,
            results,
        ) is Ok,
    decreases criteria.len() - i,
{
    if i < criteria.len() {
        match status_of(criteria[i], contract_digest, evidence[i]) {
            Ok(status) => {
                let result = CriterionResultModel { id: criteria[i].id(), status };
                placed_satisfaction(results, result, 0);
                results_satisfaction(
                    criteria,
                    contract_digest,
                    evidence,
                    i + 1,
                    placed_from(results, result, 0),
                );
            },
            Err(_) => {},
        }
    }
}

/// A contract passes exactly where every one of its criteria is satisfied, and a missing
/// contract always does.
pub proof fn only_satisfied_contracts_pass(
    contract: CompletionContractModel,
    evidence: Seq<EvidenceModel>,
)
    ensures
        (evaluation_for(Ok(ContractLoadModel::Active(contract)), evidence).status
            == GateStatus::Pass) == (forall|k: int|
            0 <= k < contract.criteria.len() ==> #[trigger] status_of(
                contract.criteria[k],
                contract.digest,
                evidence[k],
            ) == Ok::<CriterionStatus, GateErrorModel>(CriterionStatus::Satisfied)),
        evaluation_for(Ok(ContractLoadModel::Absent), evidence).status == GateStatus::Pass,
{
    results_satisfaction(contract.criteria, contract.digest, evidence, 0, seq![]);
    match results_from(contract.criteria, contract.digest, evidence, 0, seq![]) {
        Ok(results) => {
            missing_means_unsatisfied(results, 0);
        },
        Err(_) => {},
    }
}

proof fn bounded_reason_is_within(reason: Seq<char>)
    ensures
        text::byte_len(bounded_reason(reason)) <= MAX_REASON_BYTES,
{
    if text::byte_len(reason) > MAX_REASON_BYTES {
        let start = text::bounded(reason, (MAX_REASON_BYTES - 3) as nat);
        text::bounded_is_within(reason, (MAX_REASON_BYTES - 3) as nat);
        reveal_strlit("...");
        text::short_ascii_is_kept("..."@, 3);
        text::bytes_of_joined_texts(start, "..."@);
    }
}

/// Whatever the contract and the evidence, the reason of an evaluation is within its bound.
pub proof fn reasons_are_bounded(
    load: Result<ContractLoadModel, GateErrorModel>,
    evidence: Seq<EvidenceModel>,
)
    ensures
        text::byte_len(evaluation_for(load, evidence).reason) <= MAX_REASON_BYTES,
{
    match load {
        Err(error) => {
            bounded_reason_is_within("invalid_contract: "@ + error.message());
            bounded_reason_is_within("evidence_unavailable: "@ + error.message());
        },
        Ok(ContractLoadModel::Absent) => {},
        Ok(ContractLoadModel::Active(contract)) => {
            match results_from(contract.criteria, contract.digest, evidence, 0, seq![]) {
                Ok(results) => {
                    bounded_reason_is_within(
                        "missing: "@ + text::joined(missing_from(results, 0), ","@),
                    );
                },
                Err(error) => {
                    bounded_reason_is_within("invalid_contract: "@ + error.message());
                    bounded_reason_is_within("evidence_unavailable: "@ + error.message());
                },
            }
        },
    }
}

proof fn criteria_have_plain_names_from(
    wires: Seq<WireCriterionModel>,
    i: int,
    criteria: Seq<CriterionModel>,
    platform: Platform,
)
    requires
        forall|k: int| 0 <= k < criteria.len() ==> valid_id((#[trigger] criteria[k]).id()),
        forall|a: int, b: int|
            0 <= a < b < criteria.len() ==> (#[trigger] criteria[a]).id() != (
            #[trigger] criteria[b]).id(),
    ensures
        criteria_from(wires, i, criteria, platform) matches Ok(end) ==> {
            &&& forall|k: int| 0 <= k < end.len() ==> valid_id((#[trigger] end[k]).id())
            &&& forall|a: int, b: int|
                0 <= a < b < end.len() ==> (#[trigger] end[a]).id() != (#[trigger] end[b]).id()
        },
    decreases wires.len() - i,
{
    if 0 <= i < wires.len() {
        match criterion_of(wires[i], platform) {
            Ok(criterion) => {
                if !named(criteria, criterion.id()) {
                    let next = criteria.push(criterion);
                    assert forall|a: int, b: int| 0 <= a < b < next.len() implies (
                    #[trigger] next[a]).id() != (#[trigger] next[b]).id() by {
                        assert(next[a] == criteria[a]);
                    }
                    criteria_have_plain_names_from(wires, i + 1, next, platform);
                }
            },
            Err(_) => {},
        }
    }
}

/// The criteria of every contract that loads have names of plain characters, each a
/// different one, so that a message can hold them as they are.
pub proof fn loaded_criteria_have_plain_names(
    raw: Option<Seq<u8>>,
    wire: Result<WireContractModel, Seq<char>>,
    platform: Platform,
)
    ensures
        load_of(raw, wire, platform) matches Ok(ContractLoadModel::Active(contract)) ==> {
            &&& contract.criteria.len() <= MAX_CRITERIA
            &&& forall|k: int|
                0 <= k < contract.criteria.len() ==> valid_id((#[trigger] contract.criteria[k]).id())
            &&& forall|a: int, b: int|
                0 <= a < b < contract.criteria.len() ==> (#[trigger] contract.criteria[a]).id() != (
                #[trigger] contract.criteria[b]).id()
        },
{
    match wire {
        Ok(wire) => {
            criteria_have_plain_names_from(wire.criteria, 0, seq![], platform);
            criteria_are_as_many(wire.criteria, 0, seq![], platform);
        },
        Err(_) => {},
    }
}

proof fn criteria_are_as_many(
    wires: Seq<WireCriterionModel>,
    i: int,
    criteria: Seq<CriterionModel>,
    platform: Platform,
)
    requires
        0 <= i <= wires.len(),
        criteria.len() == i,
    ensures
        criteria_from(wires, i, criteria, platform) matches Ok(end) ==> end.len() == wires.len(),
    decreases wires.len() - i,
{
    if i < wires.len() {
        match criterion_of(wires[i], platform) {
            Ok(criterion) => {
                criteria_are_as_many(wires, i + 1, criteria.push(criterion), platform);
            },
            Err(_) => {},
        }
    }
}

} // verus!
