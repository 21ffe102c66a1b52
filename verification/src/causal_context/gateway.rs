//! The steps from a command to its projection.

use vstd::prelude::*;
use crate::causal_context::capture;
use crate::causal_context::capture::{capture_replay_reason, Capture, CaptureModel, ReplayReason};
use crate::causal_context::lifecycle;
use crate::causal_context::lifecycle::{
    digest_id, ensure_state_capacity, is_request_token, new_frame, new_request,
    CausalContextRequest, CausalContextRequestModel, GatewayError, GatewayErrorModel, GitHead,
    GitHeadModel, ObserverFrameLite, ObserverFrameLiteModel, FRAME_VERSION,
    MAX_OBSERVER_FRAME_BYTES, MAX_PRIVATE_REQUEST_BYTES, MAX_STATE_BYTES, REQUEST_VERSION,
};
use crate::causal_context::records;
use crate::causal_context::records::{
    parse_raw_records, render_projection, InternalContextPacketV1, ProjectionError,
    MAX_MODEL_PROJECTION_BYTES,
};
use crate::causal_context::search;
use crate::causal_context::search::{is_identifier, parse_exact_search, ExactSearch};
use crate::json;
use crate::json::ToJson;
use crate::list::Duplicate;
use crate::path;
use crate::path::Platform;
use crate::repository_map::state;
use crate::text;

verus! {

broadcast use vstd::string::group_string_axioms;

/// Where state lies below the directory of Git.
pub const STATE_DIRECTORY: &'static str = "cabal-runtime/causal-context";

/// A workspace, its directory of Git, and where its state lies.
#[derive(Clone, Debug)]
pub struct Gateway {
    pub workspace: String,
    pub git_service_root: String,
    pub state_root: String,
}

/// What a `Gateway` says.
pub struct GatewayModel {
    pub workspace: Seq<char>,
    pub git_service_root: Seq<char>,
    pub state_root: Seq<char>,
}

impl DeepView for Gateway {
    type V = GatewayModel;

    open spec fn deep_view(&self) -> GatewayModel {
        GatewayModel {
            workspace: self.workspace@,
            git_service_root: self.git_service_root@,
            state_root: self.state_root@,
        }
    }
}

/// A path without links, and whether a directory lies there.
#[derive(Debug, PartialEq, Eq)]
pub struct ResolvedPath {
    pub path: String,
    pub is_directory: bool,
}

/// What a `ResolvedPath` says.
pub struct ResolvedPathModel {
    pub path: Seq<char>,
    pub is_directory: bool,
}

impl DeepView for ResolvedPath {
    type V = ResolvedPathModel;

    open spec fn deep_view(&self) -> ResolvedPathModel {
        ResolvedPathModel { path: self.path@, is_directory: self.is_directory }
    }
}

/// The name of a request, and the search that it is for.
#[derive(Clone, Debug, PartialEq, Eq)]
pub struct PreparedRequest {
    pub token: String,
    pub search: ExactSearch,
}

impl PreparedRequest {
    /// The random name of the request.
    pub fn token(&self) -> (r: &str)
        ensures
            r@ == self.token@,
    {
        self.token.as_str()
    }

    /// The search as it was asked for.
    pub fn search(&self) -> (r: &ExactSearch)
        ensures
            *r == self.search,
    {
        &self.search
    }
}

/// Why a request cannot be answered at all.
#[derive(Clone, Copy, Debug, PartialEq, Eq, Structural)]
pub enum RequestRejection {
    InvalidToken,
    Missing,
    Oversized,
    Malformed,
    Incompatible,
    StateUnavailable,
}

/// What comes of a request.
#[derive(Clone, Debug, PartialEq, Eq)]
pub enum Outcome {
    Projection { text: String, exit_code: i32 },
    /// The search is to be run as it was written.
    RawReplay { search: ExactSearch, reason: ReplayReason, captured_exit_code: Option<i32> },
    Rejected { reason: RequestRejection },
}

/// What an `Outcome` says.
pub enum OutcomeModel {
    Projection { text: Seq<char>, exit_code: i32 },
    RawReplay { identifier: Seq<char>, reason: ReplayReason, captured_exit_code: Option<i32> },
    Rejected { reason: RequestRejection },
}

impl DeepView for Outcome {
    type V = OutcomeModel;

    open spec fn deep_view(&self) -> OutcomeModel {
        match self {
            Outcome::Projection { text, exit_code } => OutcomeModel::Projection {
                text: text@,
                exit_code: *exit_code,
            },
            Outcome::RawReplay { search, reason, captured_exit_code } => OutcomeModel::RawReplay {
                identifier: search.identifier@,
                reason: *reason,
                captured_exit_code: *captured_exit_code,
            },
            Outcome::Rejected { reason } => OutcomeModel::Rejected { reason: *reason },
        }
    }
}

/// A request that was taken out of the state, or why there is none.
#[derive(Debug, PartialEq, Eq)]
pub enum ConsumedRequest {
    Request(CausalContextRequest),
    Rejected(RequestRejection),
}

/// What a `ConsumedRequest` says.
pub enum ConsumedRequestModel {
    Request(CausalContextRequestModel),
    Rejected(RequestRejection),
}

impl DeepView for ConsumedRequest {
    type V = ConsumedRequestModel;

    open spec fn deep_view(&self) -> ConsumedRequestModel {
        match self {
            ConsumedRequest::Request(request) => ConsumedRequestModel::Request(request.deep_view()),
            ConsumedRequest::Rejected(reason) => ConsumedRequestModel::Rejected(*reason),
        }
    }
}

/// What lies at a path.
#[derive(Clone, Copy, Debug, PartialEq, Eq, Structural)]
pub struct FoundFile {
    pub is_symlink: bool,
    pub is_file: bool,
    pub bytes: u64,
}

/// What is to be done with a file of the state.
#[derive(Clone, Copy, Debug, PartialEq, Eq, Structural)]
pub enum Inspection {
    Missing,
    /// The file is not one of the state and is to be removed.
    Remove,
    Read,
}

/// What is to be done with what lies at the place of a file with at most `max_bytes` bytes.
pub open spec fn inspected(found: Option<FoundFile>, max_bytes: nat) -> Inspection {
    match found {
        None => Inspection::Missing,
        Some(found) => if found.is_symlink || !found.is_file || found.bytes > max_bytes {
            Inspection::Remove
        } else {
            Inspection::Read
        },
    }
}

/// What can be taken away from the state: a file or a link.
pub open spec fn removable(found: FoundFile) -> bool {
    found.is_symlink || found.is_file
}

/// What lies at a place once what was found there was taken away, as far as it can be.
pub open spec fn left_over(found: Option<FoundFile>) -> Option<FoundFile> {
    match found {
        Some(found) => if removable(found) {
            None
        } else {
            Some(found)
        },
        None => None,
    }
}

/// Whether what lies at a place in the state can be taken away.
pub fn can_remove(found: FoundFile) -> (r: bool)
    ensures
        r == removable(found),
{
    found.is_symlink || found.is_file
}

fn inspect(found: Option<FoundFile>, max_bytes: usize) -> (r: Inspection)
    ensures
        r == inspected(found, max_bytes as nat),
{
    match found {
        None => Inspection::Missing,
        Some(found) => if found.is_symlink || !found.is_file || found.bytes > max_bytes as u64 {
            Inspection::Remove
        } else {
            Inspection::Read
        },
    }
}

/// What is to be done with what lies at the place of a request.
pub fn inspect_request(found: Option<FoundFile>) -> (r: Inspection)
    ensures
        r == inspected(found, MAX_PRIVATE_REQUEST_BYTES as nat),
{
    inspect(found, MAX_PRIVATE_REQUEST_BYTES)
}

/// What is to be done with what lies at the place of a frame.
pub fn inspect_frame(found: Option<FoundFile>) -> (r: Inspection)
    ensures
        r == inspected(found, MAX_OBSERVER_FRAME_BYTES as nat),
{
    inspect(found, MAX_OBSERVER_FRAME_BYTES)
}

/// The request that lay in the state, for what was to be done with it, for how many bytes
/// were read, and for the request in them, where there is one.
pub open spec fn consumed(
    inspection: Inspection,
    bytes: nat,
    request: Option<CausalContextRequestModel>,
) -> ConsumedRequestModel {
    match inspection {
        Inspection::Missing => ConsumedRequestModel::Rejected(RequestRejection::Missing),
        Inspection::Remove => ConsumedRequestModel::Rejected(RequestRejection::Oversized),
        Inspection::Read => if bytes > MAX_PRIVATE_REQUEST_BYTES {
            ConsumedRequestModel::Rejected(RequestRejection::Oversized)
        } else {
            match request {
                Some(request) => ConsumedRequestModel::Request(request),
                None => ConsumedRequestModel::Rejected(RequestRejection::Malformed),
            }
        },
    }
}

/// Takes a request out of the state.
pub fn consume_request(
    inspection: Inspection,
    bytes: usize,
    request: Option<CausalContextRequest>,
) -> (r: ConsumedRequest)
    ensures
        r.deep_view() == consumed(inspection, bytes as nat, request.deep_view()),
{
    match inspection {
        Inspection::Missing => ConsumedRequest::Rejected(RequestRejection::Missing),
        Inspection::Remove => ConsumedRequest::Rejected(RequestRejection::Oversized),
        Inspection::Read => {
            if bytes > MAX_PRIVATE_REQUEST_BYTES {
                return ConsumedRequest::Rejected(RequestRejection::Oversized);
            }
            match request {
                Some(request) => ConsumedRequest::Request(request),
                None => ConsumedRequest::Rejected(RequestRejection::Malformed),
            }
        },
    }
}

/// The gateway of a workspace, or why there is none.
pub open spec fn opened(
    workspace: Option<ResolvedPathModel>,
    discovered: Option<Seq<char>>,
    supplied: Option<ResolvedPathModel>,
) -> Result<GatewayModel, GatewayErrorModel> {
    match (workspace, discovered, supplied) {
        (Some(workspace), Some(discovered), Some(supplied)) => if !workspace.is_directory {
            Err(GatewayErrorModel::InvalidWorkspace)
        } else if !path::alike(discovered, supplied.path) || !supplied.is_directory {
            Err(GatewayErrorModel::GitServiceMismatch)
        } else {
            Ok(
                GatewayModel {
                    workspace: workspace.path,
                    git_service_root: supplied.path,
                    state_root: path::joined(supplied.path, STATE_DIRECTORY@),
                },
            )
        },
        (Some(workspace), Some(_), None) => if workspace.is_directory {
            Err(GatewayErrorModel::GitServiceMismatch)
        } else {
            Err(GatewayErrorModel::InvalidWorkspace)
        },
        _ => Err(GatewayErrorModel::InvalidWorkspace),
    }
}

/// A frame that is to be written.
#[derive(Debug, PartialEq, Eq)]
pub struct FrameWrite {
    pub path: String,
    pub raw: String,
}

/// What a `FrameWrite` says.
pub struct FrameWriteModel {
    pub path: Seq<char>,
    pub raw: Seq<char>,
}

impl DeepView for FrameWrite {
    type V = FrameWriteModel;

    open spec fn deep_view(&self) -> FrameWriteModel {
        FrameWriteModel { path: self.path@, raw: self.raw@ }
    }
}

/// What comes of a command that may be searched for.
#[derive(Debug, PartialEq, Eq)]
pub enum Preparation {
    /// The command is not changed.
    Pass,
    Refused { error: GatewayError, remove_frame: bool },
    Create { raw: String, search: ExactSearch },
}

/// What a `Preparation` says.
pub enum PreparationModel {
    Pass,
    Refused { error: GatewayErrorModel, remove_frame: bool },
    Create { raw: Seq<char>, identifier: Seq<char> },
}

impl DeepView for Preparation {
    type V = PreparationModel;

    open spec fn deep_view(&self) -> PreparationModel {
        match self {
            Preparation::Pass => PreparationModel::Pass,
            Preparation::Refused { error, remove_frame } => PreparationModel::Refused {
                error: error.deep_view(),
                remove_frame: *remove_frame,
            },
            Preparation::Create { raw, search } => PreparationModel::Create {
                raw: raw@,
                identifier: search.identifier@,
            },
        }
    }
}

/// A search of a session that may be prepared.
#[derive(Debug, PartialEq, Eq)]
pub struct AcceptedSearch {
    pub search: ExactSearch,
    pub session_digest: String,
}

/// What an `AcceptedSearch` says.
pub struct AcceptedSearchModel {
    pub identifier: Seq<char>,
    pub session_digest: Seq<char>,
}

impl DeepView for AcceptedSearch {
    type V = AcceptedSearchModel;

    open spec fn deep_view(&self) -> AcceptedSearchModel {
        AcceptedSearchModel {
            identifier: self.search.identifier@,
            session_digest: self.session_digest@,
        }
    }
}

/// An error that names what is wrong with the input.
pub open spec fn refused(message: Seq<char>, remove_frame: bool) -> PreparationModel {
    PreparationModel::Refused { error: GatewayErrorModel::InvalidInput(message), remove_frame }
}

/// What comes of an accepted search under the frame of its session.
pub open spec fn prepared(
    accepted: AcceptedSearchModel,
    frame: Option<ObserverFrameLiteModel>,
    git_head: GitHeadModel,
    now: u64,
    usage: Result<u64, GatewayErrorModel>,
) -> PreparationModel {
    match frame {
        None => refused("active observer frame is missing"@, false),
        Some(frame) => if !lifecycle::frame_is_live(frame, now) {
            refused("active observer frame is stale"@, true)
        } else if git_head != frame.git_head {
            refused("Git revision changed after frame registration"@, false)
        } else {
            let request = CausalContextRequest::json(
                lifecycle::request_under(frame, accepted.session_digest, accepted.identifier, now),
            );
            if lifecycle::json_bytes(request) > MAX_PRIVATE_REQUEST_BYTES {
                refused("causal context request exceeds its bound"@, false)
            } else {
                match usage {
                    Err(error) => PreparationModel::Refused { error, remove_frame: false },
                    Ok(usage) => if usage + lifecycle::json_bytes(request) > MAX_STATE_BYTES {
                        PreparationModel::Refused {
                            error: GatewayErrorModel::StateLimit,
                            remove_frame: false,
                        }
                    } else {
                        PreparationModel::Create {
                            raw: json::written(request),
                            identifier: accepted.identifier,
                        }
                    },
                }
            }
        },
    }
}

/// Says that a search is to be run as it was written.
pub open spec fn replayed(
    identifier: Seq<char>,
    reason: ReplayReason,
    captured_exit_code: Option<i32>,
) -> OutcomeModel {
    OutcomeModel::RawReplay { identifier, reason, captured_exit_code }
}

fn replay(search: ExactSearch, reason: ReplayReason, captured_exit_code: Option<i32>) -> (r: Outcome)
    ensures
        r.deep_view() == replayed(search.identifier@, reason, captured_exit_code),
{
    Outcome::RawReplay { search, reason, captured_exit_code }
}

/// The request that a name stands for, or what comes of it without being run. Nothing was
/// consumed where the state could not be used, and there is no time where the clock could not
/// be read.
pub open spec fn accepted_request(
    token: Seq<char>,
    now: Option<u64>,
    request: Option<ConsumedRequestModel>,
) -> Result<CausalContextRequestModel, OutcomeModel> {
    if !lifecycle::request_token(token) {
        Err(OutcomeModel::Rejected { reason: RequestRejection::InvalidToken })
    } else {
        match (now, request) {
            (Some(now), Some(ConsumedRequestModel::Request(request))) => if !search::identifier(
                request.identifier,
            ) {
                Err(OutcomeModel::Rejected { reason: RequestRejection::Incompatible })
            } else if request.expires_at <= now {
                Err(replayed(request.identifier, ReplayReason::RequestExpired, None))
            } else if request.version != REQUEST_VERSION {
                Err(OutcomeModel::Rejected { reason: RequestRejection::Incompatible })
            } else {
                Ok(request)
            },
            (Some(_), Some(ConsumedRequestModel::Rejected(reason))) => Err(
                OutcomeModel::Rejected { reason },
            ),
            _ => Err(OutcomeModel::Rejected { reason: RequestRejection::StateUnavailable }),
        }
    }
}

/// What comes of a request that is not current, for whether its frame is, where that could be
/// found out, and for what the workspace is at.
pub open spec fn stale_outcome(
    request: CausalContextRequestModel,
    frame_is_current: Option<bool>,
    git_head: GitHeadModel,
) -> Option<OutcomeModel> {
    match frame_is_current {
        None => Some(replayed(request.identifier, ReplayReason::ExecutionError, None)),
        Some(current) => if !current {
            Some(replayed(request.identifier, ReplayReason::SessionStale, None))
        } else if git_head != request.git_head {
            Some(replayed(request.identifier, ReplayReason::RevisionStale, None))
        } else {
            None
        },
    }
}

/// What comes of a run of the search, for the files that lie in the workspace.
pub open spec fn captured_outcome(
    identifier: Seq<char>,
    capture: Option<CaptureModel>,
    present: Seq<Seq<char>>,
) -> OutcomeModel {
    match capture {
        None => replayed(identifier, ReplayReason::ExecutionError, None),
        Some(capture) => match capture::replay_reason(capture) {
            Some(reason) => replayed(identifier, reason, capture.exit_code),
            None => match records::records_of(capture.stdout, present) {
                None => replayed(identifier, ReplayReason::RawParse, capture.exit_code),
                Some(found) => match records::projection_of(
                    identifier,
                    found,
                    capture.stdout.len(),
                ) {
                    Err(ProjectionError::TooLarge) => replayed(
                        identifier,
                        ReplayReason::ProjectionTooLarge,
                        capture.exit_code,
                    ),
                    Err(ProjectionError::Invalid) => replayed(
                        identifier,
                        ReplayReason::Integrity,
                        capture.exit_code,
                    ),
                    Ok(shown) => if text::byte_len(shown) >= capture.stdout.len() {
                        replayed(
                            identifier,
                            ReplayReason::ProjectionNotSmaller,
                            capture.exit_code,
                        )
                    } else {
                        OutcomeModel::Projection { text: shown, exit_code: 0 }
                    },
                },
            },
        },
    }
}

/// What comes of a request, for everything that is found out on the way.
pub open spec fn executed(
    token: Seq<char>,
    now: Option<u64>,
    request: Option<ConsumedRequestModel>,
    frame_is_current: Option<bool>,
    git_head: GitHeadModel,
    capture: Option<CaptureModel>,
    present: Seq<Seq<char>>,
) -> OutcomeModel {
    match accepted_request(token, now, request) {
        Err(outcome) => outcome,
        Ok(request) => match stale_outcome(request, frame_is_current, git_head) {
            Some(outcome) => outcome,
            None => captured_outcome(request.identifier, capture, present),
        },
    }
}

/// The request that a name stands for, or what comes of it without being run.
pub fn accept_request(token: &str, now: Option<u64>, request: Option<ConsumedRequest>) -> (r:
    Result<CausalContextRequest, Outcome>)
    ensures
        match (r, accepted_request(token@, now, request.deep_view())) {
            (Ok(request), Ok(m)) => request.deep_view() == m,
            (Err(outcome), Err(m)) => outcome.deep_view() == m,
            _ => false,
        },
{
    if !is_request_token(token) {
        return Err(Outcome::Rejected { reason: RequestRejection::InvalidToken });
    }
    let now = match now {
        Some(now) => now,
        None => {
            return Err(Outcome::Rejected { reason: RequestRejection::StateUnavailable });
        },
    };
    match request {
        Some(ConsumedRequest::Request(request)) => {
            if !is_identifier(request.identifier.as_str()) {
                return Err(Outcome::Rejected { reason: RequestRejection::Incompatible });
            }
            if request.expires_at <= now {
                let search = ExactSearch { identifier: request.identifier };
                return Err(replay(search, ReplayReason::RequestExpired, None));
            }
            if request.version != REQUEST_VERSION {
                return Err(Outcome::Rejected { reason: RequestRejection::Incompatible });
            }
            Ok(request)
        },
        Some(ConsumedRequest::Rejected(reason)) => Err(Outcome::Rejected { reason }),
        None => Err(Outcome::Rejected { reason: RequestRejection::StateUnavailable }),
    }
}

/// What comes of a request that is not current.
pub fn check_request(
    request: &CausalContextRequest,
    frame_is_current: Option<bool>,
    git_head: &GitHead,
) -> (r: Option<Outcome>)
    ensures
        r.deep_view() == stale_outcome(request.deep_view(), frame_is_current, git_head.deep_view()),
{
    let search = ExactSearch { identifier: text::copy(request.identifier.as_str()) };
    match frame_is_current {
        None => Some(replay(search, ReplayReason::ExecutionError, None)),
        Some(current) => {
            if !current {
                return Some(replay(search, ReplayReason::SessionStale, None));
            }
            if !git_head.same(&request.git_head) {
                return Some(replay(search, ReplayReason::RevisionStale, None));
            }
            None
        },
    }
}

/// What comes of a run of the search. `present` are the paths at which a file lies in the
/// workspace, among those that are to be looked up.
pub fn project_capture(search: ExactSearch, capture: &Option<Capture>, present: &Vec<String>) -> (r:
    Outcome)
    ensures
        r.deep_view() == captured_outcome(
            search.identifier@,
            capture.deep_view(),
            present.deep_view(),
        ),
{
    let capture = match capture {
        Some(capture) => capture,
        None => {
            return replay(search, ReplayReason::ExecutionError, None);
        },
    };
    let exit_code = capture.exit_code;
    if let Some(reason) = capture_replay_reason(capture) {
        return replay(search, reason, exit_code);
    }
    let records = match parse_raw_records(capture.stdout.as_slice(), present) {
        Some(records) => records,
        None => {
            return replay(search, ReplayReason::RawParse, exit_code);
        },
    };
    let packet = InternalContextPacketV1 {
        query: text::copy(search.identifier.as_str()),
        records,
        raw_bytes: capture.stdout.len(),
    };
    match render_projection(&packet) {
        Ok(shown) => {
            if text::count_bytes(shown.as_str()) >= capture.stdout.len() {
                return replay(search, ReplayReason::ProjectionNotSmaller, exit_code);
            }
            Outcome::Projection { text: shown, exit_code: 0 }
        },
        Err(ProjectionError::TooLarge) => replay(
            search,
            ReplayReason::ProjectionTooLarge,
            exit_code,
        ),
        Err(ProjectionError::Invalid) => replay(search, ReplayReason::Integrity, exit_code),
    }
}

impl Gateway {
    /// The gateway of a workspace. `workspace` and `supplied` are the given paths without
    /// links, and `discovered` is the directory of Git that the workspace has.
    pub fn open(
        workspace: &Option<ResolvedPath>,
        discovered: &Option<String>,
        supplied: &Option<ResolvedPath>,
    ) -> (r: Result<Gateway, GatewayError>)
        ensures
            match (
                r,
                opened(workspace.deep_view(), discovered.deep_view(), supplied.deep_view()),
            ) {
                (Ok(gateway), Ok(m)) => gateway.deep_view() == m,
                (Err(error), Err(e)) => error.deep_view() == e,
                _ => false,
            },
    {
        let workspace = match workspace {
            Some(workspace) => workspace,
            None => {
                return Err(GatewayError::InvalidWorkspace);
            },
        };
        if !workspace.is_directory {
            return Err(GatewayError::InvalidWorkspace);
        }
        let discovered = match discovered {
            Some(discovered) => discovered,
            None => {
                return Err(GatewayError::InvalidWorkspace);
            },
        };
        let supplied = match supplied {
            Some(supplied) => supplied,
            None => {
                return Err(GatewayError::GitServiceMismatch);
            },
        };
        if !path::are_alike(discovered.as_str(), supplied.path.as_str()) || !supplied.is_directory {
            return Err(GatewayError::GitServiceMismatch);
        }
        Ok(
            Gateway {
                workspace: text::copy(workspace.path.as_str()),
                git_service_root: text::copy(supplied.path.as_str()),
                state_root: path::join(supplied.path.as_str(), STATE_DIRECTORY),
            },
        )
    }

    /// The root of the workspace.
    pub fn workspace(&self) -> (r: &str)
        ensures
            r@ == self.deep_view().workspace,
    {
        self.workspace.as_str()
    }

    /// The directory of Git.
    pub fn git_service_root(&self) -> (r: &str)
        ensures
            r@ == self.deep_view().git_service_root,
    {
        self.git_service_root.as_str()
    }

    /// Where the state lies.
    pub fn state_root(&self) -> (r: &str)
        ensures
            r@ == self.deep_view().state_root,
    {
        self.state_root.as_str()
    }

    fn state_file(&self, directory: &str, name: &str) -> (r: String)
        ensures
            r@ == state_file_path(self.deep_view(), directory@, name@),
    {
        let directory = path::join(self.state_root.as_str(), directory);
        let file = text::concat(name, ".json");
        path::join(directory.as_str(), file.as_str())
    }

    /// Where the frame of a session lies.
    pub fn frame_path(&self, session_digest: &str) -> (r: String)
        ensures
            r@ == state_file_path(self.deep_view(), "frames"@, session_digest@),
    {
        self.state_file("frames", session_digest)
    }

    /// Where a request lies.
    pub fn request_path(&self, token: &str) -> (r: String)
        ensures
            r@ == state_file_path(self.deep_view(), "requests"@, token@),
    {
        self.state_file("requests", token)
    }

    /// The frame of a turn, as it is to be written. `usage` is how many bytes of state there
    /// are, or why that could not be found out.
    pub fn register_frame(
        &self,
        session_id: &str,
        turn_id: Option<&str>,
        git_head: GitHead,
        now: u64,
        usage: &Result<u64, GatewayError>,
    ) -> (r: Result<FrameWrite, GatewayError>)
        ensures
            match (
                r,
                registered(
                    self.deep_view(),
                    session_id@,
                    json::text_of(turn_id),
                    git_head.deep_view(),
                    now,
                    usage_of(*usage),
                ),
            ) {
                (Ok(write), Ok(w)) => write.deep_view() == w,
                (Err(error), Err(e)) => error.deep_view() == e,
                _ => false,
            },
    {
        let frame = match new_frame(session_id, turn_id, git_head, now) {
            Ok(frame) => frame,
            Err(error) => {
                return Err(error);
            },
        };
        let raw = frame.to_json().to_text();
        let bytes: usize = text::count_bytes(raw.as_str());
        if bytes > MAX_OBSERVER_FRAME_BYTES {
            return Err(GatewayError::InvalidInput(text::copy("observer frame exceeds its bound")));
        }
        match usage {
            Ok(usage) => match ensure_state_capacity(*usage, bytes as u64) {
                Ok(_) => {},
                Err(error) => {
                    return Err(error);
                },
            },
            Err(error) => {
                return Err(error.duplicate());
            },
        }
        Ok(FrameWrite { path: self.frame_path(frame.session_digest.as_str()), raw })
    }

    /// The search of a session that a command is, where it is recognised and is run at the
    /// root of the workspace. `cwd` is where it is run, without links.
    pub fn accept_search(&self, session_id: &str, cwd: Option<&str>, command: &str) -> (r: Result<
        Option<AcceptedSearch>,
        GatewayError,
    >)
        ensures
            match (
                r,
                accepted_search(self.deep_view(), session_id@, json::text_of(cwd), command@),
            ) {
                (Ok(accepted), Ok(a)) => accepted.deep_view() == a,
                (Err(error), Err(e)) => error.deep_view() == e,
                _ => false,
            },
    {
        let search = match parse_exact_search(command) {
            Some(search) => search,
            None => {
                return Ok(None);
            },
        };
        match cwd {
            Some(cwd) => {
                if !path::are_alike(cwd, self.workspace.as_str()) {
                    return Ok(None);
                }
            },
            None => {
                return Err(GatewayError::InvalidWorkspace);
            },
        }
        match digest_id(session_id) {
            Ok(session_digest) => Ok(Some(AcceptedSearch { search, session_digest })),
            Err(error) => Err(error),
        }
    }

    /// What comes of a command: nothing where it is not the recognised search at the root of
    /// the workspace, and otherwise a request that is to be written, or why there is none.
    /// `frame` is the frame of the session, and `usage` how many bytes of state there are.
    pub fn prepare_request(
        &self,
        session_id: &str,
        cwd: Option<&str>,
        command: &str,
        frame: &Option<ObserverFrameLite>,
        git_head: &GitHead,
        now: u64,
        usage: &Result<u64, GatewayError>,
    ) -> (r: Preparation)
        ensures
            r.deep_view() == prepared_command(
                self.deep_view(),
                session_id@,
                json::text_of(cwd),
                command@,
                frame.deep_view(),
                git_head.deep_view(),
                now,
                usage_of(*usage),
            ),
    {
        match self.accept_search(session_id, cwd, command) {
            Ok(Some(accepted)) => prepare_accepted(accepted, frame, git_head, now, usage),
            Ok(None) => Preparation::Pass,
            Err(error) => Preparation::Refused { error, remove_frame: false },
        }
    }

    /// What comes of a request, for everything that is found out on the way.
    pub fn execute_request(
        &self,
        token: &str,
        now: Option<u64>,
        request: Option<ConsumedRequest>,
        frame_is_current: Option<bool>,
        git_head: &GitHead,
        capture: &Option<Capture>,
        present: &Vec<String>,
    ) -> (r: Outcome)
        ensures
            r.deep_view() == executed(
                token@,
                now,
                request.deep_view(),
                frame_is_current,
                git_head.deep_view(),
                capture.deep_view(),
                present.deep_view(),
            ),
    {
        match accept_request(token, now, request) {
            Err(outcome) => outcome,
            Ok(request) => match check_request(&request, frame_is_current, git_head) {
                Some(outcome) => outcome,
                None => project_capture(
                    ExactSearch { identifier: request.identifier },
                    capture,
                    present,
                ),
            },
        }
    }
}

/// Where a file of the state lies.
pub open spec fn state_file_path(
    gateway: GatewayModel,
    directory: Seq<char>,
    name: Seq<char>,
) -> Seq<char> {
    path::joined(path::joined(gateway.state_root, directory), name + ".json"@)
}

/// How many bytes of state there are, or why that could not be found out.
pub open spec fn usage_of(usage: Result<u64, GatewayError>) -> Result<u64, GatewayErrorModel> {
    match usage {
        Ok(usage) => Ok(usage),
        Err(error) => Err(error.deep_view()),
    }
}

/// The frame of a turn, as it is to be written.
pub open spec fn registered(
    gateway: GatewayModel,
    session_id: Seq<char>,
    turn_id: Option<Seq<char>>,
    git_head: GitHeadModel,
    now: u64,
    usage: Result<u64, GatewayErrorModel>,
) -> Result<FrameWriteModel, GatewayErrorModel> {
    match lifecycle::frame_of(session_id, turn_id, git_head, now) {
        Err(error) => Err(error),
        Ok(frame) => {
            let written = ObserverFrameLite::json(frame);
            if lifecycle::json_bytes(written) > MAX_OBSERVER_FRAME_BYTES {
                Err(GatewayErrorModel::InvalidInput("observer frame exceeds its bound"@))
            } else {
                match usage {
                    Err(error) => Err(error),
                    Ok(usage) => if usage + lifecycle::json_bytes(written) > MAX_STATE_BYTES {
                        Err(GatewayErrorModel::StateLimit)
                    } else {
                        Ok(
                            FrameWriteModel {
                                path: state_file_path(gateway, "frames"@, frame.session_digest),
                                raw: json::written(written),
                            },
                        )
                    },
                }
            }
        },
    }
}

/// The search of a session that a command is.
pub open spec fn accepted_search(
    gateway: GatewayModel,
    session_id: Seq<char>,
    cwd: Option<Seq<char>>,
    command: Seq<char>,
) -> Result<Option<AcceptedSearchModel>, GatewayErrorModel> {
    match (search::searched(command), cwd) {
        (None, _) => Ok(None),
        (Some(_), None) => Err(GatewayErrorModel::InvalidWorkspace),
        (Some(identifier), Some(cwd)) => if !path::alike(cwd, gateway.workspace) {
            Ok(None)
        } else {
            match lifecycle::id_digest(session_id) {
                Ok(session_digest) => Ok(Some(AcceptedSearchModel { identifier, session_digest })),
                Err(error) => Err(error),
            }
        },
    }
}

/// What comes of a command.
pub open spec fn prepared_command(
    gateway: GatewayModel,
    session_id: Seq<char>,
    cwd: Option<Seq<char>>,
    command: Seq<char>,
    frame: Option<ObserverFrameLiteModel>,
    git_head: GitHeadModel,
    now: u64,
    usage: Result<u64, GatewayErrorModel>,
) -> PreparationModel {
    match accepted_search(gateway, session_id, cwd, command) {
        Ok(Some(accepted)) => prepared(accepted, frame, git_head, now, usage),
        Ok(None) => PreparationModel::Pass,
        Err(error) => PreparationModel::Refused { error, remove_frame: false },
    }
}

fn refuse(message: &str, remove_frame: bool) -> (r: Preparation)
    ensures
        r.deep_view() == refused(message@, remove_frame),
{
    Preparation::Refused { error: GatewayError::InvalidInput(text::copy(message)), remove_frame }
}

/// What comes of an accepted search under the frame of its session.
pub fn prepare_accepted(
    accepted: AcceptedSearch,
    frame: &Option<ObserverFrameLite>,
    git_head: &GitHead,
    now: u64,
    usage: &Result<u64, GatewayError>,
) -> (r: Preparation)
    ensures
        r.deep_view() == prepared(
            accepted.deep_view(),
            frame.deep_view(),
            git_head.deep_view(),
            now,
            usage_of(*usage),
        ),
{
    let frame = match frame {
        Some(frame) => frame,
        None => {
            return refuse("active observer frame is missing", false);
        },
    };
    if frame.expires_at <= now || frame.version != FRAME_VERSION {
        return refuse("active observer frame is stale", true);
    }
    if !git_head.same(&frame.git_head) {
        return refuse("Git revision changed after frame registration", false);
    }
    let request = new_request(
        frame,
        accepted.session_digest.as_str(),
        accepted.search.identifier.as_str(),
        now,
    );
    let raw = request.to_json().to_text();
    let bytes: usize = text::count_bytes(raw.as_str());
    if bytes > MAX_PRIVATE_REQUEST_BYTES {
        return refuse("causal context request exceeds its bound", false);
    }
    match usage {
        Ok(usage) => match ensure_state_capacity(*usage, bytes as u64) {
            Ok(_) => Preparation::Create { raw, search: accepted.search },
            Err(error) => Preparation::Refused { error, remove_frame: false },
        },
        Err(error) => Preparation::Refused { error: error.duplicate(), remove_frame: false },
    }
}

/// A path of the state that is not empty and goes down by names alone.
pub fn ensure_relative_path(relative: &str, platform: Platform) -> (r: Result<(), GatewayError>)
    ensures
        match r {
            Ok(_) => state::plain_path(relative@, platform),
            Err(error) => !state::plain_path(relative@, platform) && error.deep_view()
                == GatewayErrorModel::UnsafeStatePath,
        },
{
    if state::is_plain_path(relative, platform) {
        Ok(())
    } else {
        Err(GatewayError::UnsafeStatePath)
    }
}

/// Checks a directory of the state: what lies at its path is a directory, and that path is
/// the one without links.
pub fn check_state_directory(
    path: &str,
    is_symlink: bool,
    is_directory: bool,
    canonical: &str,
    root: &str,
) -> (r: Result<(), GatewayError>)
    ensures
        match r {
            Ok(_) => !is_symlink && is_directory && path::within(canonical@, root@) && path::alike(
                canonical@,
                path@,
            ),
            Err(error) => !(!is_symlink && is_directory && path::within(canonical@, root@)
                && path::alike(canonical@, path@)) && error.deep_view()
                == GatewayErrorModel::UnsafeStatePath,
        },
{
    if is_symlink || !is_directory || !path::is_within(canonical, root) || !path::are_alike(
        canonical,
        path,
    ) {
        Err(GatewayError::UnsafeStatePath)
    } else {
        Ok(())
    }
}

/// A projection stands in place of what the search writes only where it is smaller than that
/// and within its bound, and it is the projection of every record that the search gave.
pub proof fn projections_are_smaller(
    token: Seq<char>,
    now: Option<u64>,
    request: Option<ConsumedRequestModel>,
    frame_is_current: Option<bool>,
    git_head: GitHeadModel,
    capture: Option<CaptureModel>,
    present: Seq<Seq<char>>,
)
    ensures
        executed(token, now, request, frame_is_current, git_head, capture, present) matches
            OutcomeModel::Projection { text: shown, exit_code } ==> {
            &&& exit_code == 0
            &&& capture matches Some(run) && text::byte_len(shown) < run.stdout.len()
                && run.exit_code == Some(0i32) && records::records_of(run.stdout, present) is Some
            &&& text::byte_len(shown) <= MAX_MODEL_PROJECTION_BYTES
            &&& request matches Some(ConsumedRequestModel::Request(asked)) && shown
                == records::projected(
                asked.identifier,
                records::records_of(capture->0.stdout, present)->0,
            )
        },
{
}

/// A request for the recognised search that is not answered with a projection is answered
/// with that very search, to be run as it was written; one that has expired is, whatever its
/// version. No other request is answered with a search: what is to be run is always the
/// recognised search of an identifier.
pub proof fn other_requests_are_replayed(
    token: Seq<char>,
    now: u64,
    request: CausalContextRequestModel,
    frame_is_current: Option<bool>,
    git_head: GitHeadModel,
    capture: Option<CaptureModel>,
    present: Seq<Seq<char>>,
)
    ensures
        ({
            let outcome = executed(
                token,
                Some(now),
                Some(ConsumedRequestModel::Request(request)),
                frame_is_current,
                git_head,
                capture,
                present,
            );
            let recognised = lifecycle::request_token(token) && search::identifier(
                request.identifier,
            ) && (request.expires_at <= now || request.version == REQUEST_VERSION);
            &&& recognised ==> outcome is Projection || outcome is RawReplay
            &&& !recognised ==> outcome is Rejected
            &&& outcome matches OutcomeModel::RawReplay { identifier, .. } ==> identifier
                == request.identifier && search::identifier(identifier)
        }),
{
}

/// A request is run once: where it was answered with a projection or with a search, and what
/// lay at its place was taken away, it is missing when it is asked for again.
pub proof fn requests_are_run_once(
    token: Seq<char>,
    now: Option<u64>,
    found: Option<FoundFile>,
    bytes: nat,
    request: Option<CausalContextRequestModel>,
    frame_is_current: Option<bool>,
    git_head: GitHeadModel,
    capture: Option<CaptureModel>,
    present: Seq<Seq<char>>,
    later: u64,
    later_bytes: nat,
    later_request: Option<CausalContextRequestModel>,
    later_frame_is_current: Option<bool>,
    later_git_head: GitHeadModel,
    later_capture: Option<CaptureModel>,
    later_present: Seq<Seq<char>>,
)
    ensures
        ({
            let max_bytes = MAX_PRIVATE_REQUEST_BYTES as nat;
            let first = executed(
                token,
                now,
                Some(consumed(inspected(found, max_bytes), bytes, request)),
                frame_is_current,
                git_head,
                capture,
                present,
            );
            let second = executed(
                token,
                Some(later),
                Some(consumed(inspected(left_over(found), max_bytes), later_bytes, later_request)),
                later_frame_is_current,
                later_git_head,
                later_capture,
                later_present,
            );
            first is Projection || first is RawReplay ==> second == (OutcomeModel::Rejected {
                reason: RequestRejection::Missing,
            })
        }),
{
}

/// A request is not run where the workspace is at another revision than when it was made,
/// where its frame is not current, or where it is too old.
pub proof fn stale_requests_are_not_run(
    token: Seq<char>,
    now: u64,
    request: CausalContextRequestModel,
    frame_is_current: Option<bool>,
    git_head: GitHeadModel,
    capture: Option<CaptureModel>,
    present: Seq<Seq<char>>,
)
    requires
        request.expires_at <= now || frame_is_current != Some(true) || git_head
            != request.git_head,
    ensures
        ({
            let outcome = executed(
                token,
                Some(now),
                Some(ConsumedRequestModel::Request(request)),
                frame_is_current,
                git_head,
                capture,
                present,
            );
            &&& !(outcome is Projection)
            &&& outcome == executed(
                token,
                Some(now),
                Some(ConsumedRequestModel::Request(request)),
                frame_is_current,
                git_head,
                None,
                present,
            )
        }),
{
}

/// A request that is written is for the recognised search, asked for at the root of the
/// workspace, under a frame that lives, at the revision of that frame.
pub proof fn requests_are_for_the_search(
    gateway: GatewayModel,
    session_id: Seq<char>,
    cwd: Option<Seq<char>>,
    command: Seq<char>,
    frame: Option<ObserverFrameLiteModel>,
    git_head: GitHeadModel,
    now: u64,
    usage: Result<u64, GatewayErrorModel>,
)
    ensures
        prepared_command(gateway, session_id, cwd, command, frame, git_head, now, usage) matches
            PreparationModel::Create { identifier, .. } ==> {
            &&& search::searched(command) == Some(identifier)
            &&& cwd matches Some(cwd) && path::alike(cwd, gateway.workspace)
            &&& frame matches Some(live) && lifecycle::frame_is_live(live, now) && live.git_head
                == git_head
        },
{
}

} // verus!
