//! Frames and requests: what ties a search to a session, a turn and a revision.

use vstd::prelude::*;
use crate::digest;
use crate::json;
use crate::json::{Json, JsonMember, JsonModel, ToJson};
use crate::list::Duplicate;
use crate::path;
use crate::repository_map::state;
use crate::text;

verus! {

broadcast use vstd::string::group_string_axioms;

/// The most bytes of a frame that is kept.
pub const MAX_OBSERVER_FRAME_BYTES: usize = 4_096;

/// The most bytes of a request that is kept.
pub const MAX_PRIVATE_REQUEST_BYTES: usize = 16_384;

/// How long a frame lives.
pub const FRAME_TTL_SECONDS: u64 = 86_400;

/// How long a request lives.
pub const REQUEST_TTL_SECONDS: u64 = 60;

/// The most bytes of all state that is kept.
pub const MAX_STATE_BYTES: u64 = 67_108_864;

pub const REQUEST_VERSION: u32 = 1;

pub const FRAME_VERSION: u32 = 1;

/// The most bytes of the name of a session or a turn.
pub const MAX_ID_INPUT_BYTES: usize = 4_096;

/// How often a name for a request is looked for that is not taken.
pub const REQUEST_ATTEMPTS: usize = 4;

/// What the workspace is at.
#[derive(Clone, Debug, PartialEq, Eq)]
pub enum GitHead {
    Commit { value: String },
    Unborn,
    Unavailable,
}

/// What a `GitHead` says.
pub enum GitHeadModel {
    Commit { value: Seq<char> },
    Unborn,
    Unavailable,
}

impl DeepView for GitHead {
    type V = GitHeadModel;

    open spec fn deep_view(&self) -> GitHeadModel {
        match self {
            GitHead::Commit { value } => GitHeadModel::Commit { value: value@ },
            GitHead::Unborn => GitHeadModel::Unborn,
            GitHead::Unavailable => GitHeadModel::Unavailable,
        }
    }
}

impl Duplicate for GitHead {
    fn duplicate(&self) -> (r: GitHead) {
        match self {
            GitHead::Commit { value } => GitHead::Commit { value: text::copy(value.as_str()) },
            GitHead::Unborn => GitHead::Unborn,
            GitHead::Unavailable => GitHead::Unavailable,
        }
    }
}

impl GitHead {
    /// Two heads are the same.
    pub fn same(&self, other: &GitHead) -> (r: bool)
        ensures
            r == (self.deep_view() == other.deep_view()),
    {
        match (self, other) {
            (GitHead::Commit { value: a }, GitHead::Commit { value: b }) => text::same_text(
                a.as_str(),
                b.as_str(),
            ),
            (GitHead::Unborn, GitHead::Unborn) => true,
            (GitHead::Unavailable, GitHead::Unavailable) => true,
            _ => false,
        }
    }
}

impl ToJson for GitHead {
    open spec fn json(value: GitHeadModel) -> JsonModel {
        JsonModel::Object(
            match value {
                GitHeadModel::Commit { value } => seq![
                    ("status"@, JsonModel::Text("commit"@)),
                    ("value"@, JsonModel::Text(value)),
                ],
                GitHeadModel::Unborn => seq![("status"@, JsonModel::Text("unborn"@))],
                GitHeadModel::Unavailable => seq![("status"@, JsonModel::Text("unavailable"@))],
            },
        )
    }

    fn to_json(&self) -> (r: Json) {
        let mut members: Vec<JsonMember> = Vec::new();
        assert(json::member_models(members@) =~= Seq::empty());
        match self {
            GitHead::Commit { value } => {
                json::put(&mut members, "status", json::of_text("commit"));
                json::put(&mut members, "value", json::of_text(value.as_str()));
            },
            GitHead::Unborn => {
                json::put(&mut members, "status", json::of_text("unborn"));
            },
            GitHead::Unavailable => {
                json::put(&mut members, "status", json::of_text("unavailable"));
            },
        }
        assert(json::member_models(members@) =~= Self::json(self.deep_view())->Object_0);
        json::of_members(members)
    }
}

/// What is kept of a turn: digests of its names, the revision, and when it ends.
#[derive(Clone, Debug, PartialEq, Eq)]
pub struct ObserverFrameLite {
    pub version: u32,
    pub session_digest: String,
    pub turn_digest: Option<String>,
    pub git_head: GitHead,
    pub registered_at: u64,
    pub expires_at: u64,
}

/// What a `ObserverFrameLite` says.
pub struct ObserverFrameLiteModel {
    pub version: u32,
    pub session_digest: Seq<char>,
    pub turn_digest: Option<Seq<char>>,
    pub git_head: GitHeadModel,
    pub registered_at: u64,
    pub expires_at: u64,
}

impl DeepView for ObserverFrameLite {
    type V = ObserverFrameLiteModel;

    open spec fn deep_view(&self) -> ObserverFrameLiteModel {
        ObserverFrameLiteModel {
            version: self.version,
            session_digest: self.session_digest@,
            turn_digest: self.turn_digest.deep_view(),
            git_head: self.git_head.deep_view(),
            registered_at: self.registered_at,
            expires_at: self.expires_at,
        }
    }
}

impl Duplicate for ObserverFrameLite {
    fn duplicate(&self) -> (r: ObserverFrameLite) {
        ObserverFrameLite {
            version: self.version,
            session_digest: text::copy(self.session_digest.as_str()),
            turn_digest: text::copy_option(&self.turn_digest),
            git_head: self.git_head.duplicate(),
            registered_at: self.registered_at,
            expires_at: self.expires_at,
        }
    }
}

impl ToJson for ObserverFrameLite {
    open spec fn json(value: ObserverFrameLiteModel) -> JsonModel {
        JsonModel::Object(
            seq![
                ("version"@, json::count_model(value.version as nat)),
                ("session_digest"@, JsonModel::Text(value.session_digest)),
            ] + (match value.turn_digest {
                Some(turn_digest) => seq![("turn_digest"@, JsonModel::Text(turn_digest))],
                None => seq![],
            }) + seq![
                ("git_head"@, GitHead::json(value.git_head)),
                ("registered_at"@, json::count_model(value.registered_at as nat)),
                ("expires_at"@, json::count_model(value.expires_at as nat)),
            ],
        )
    }

    fn to_json(&self) -> (r: Json) {
        let mut members: Vec<JsonMember> = Vec::new();
        assert(json::member_models(members@) =~= Seq::empty());
        json::put(&mut members, "version", json::of_count(self.version as u64));
        json::put(&mut members, "session_digest", json::of_text(self.session_digest.as_str()));
        if let Some(turn_digest) = &self.turn_digest {
            json::put(&mut members, "turn_digest", json::of_text(turn_digest.as_str()));
        }
        json::put(&mut members, "git_head", self.git_head.to_json());
        json::put(&mut members, "registered_at", json::of_count(self.registered_at));
        json::put(&mut members, "expires_at", json::of_count(self.expires_at));
        assert(json::member_models(members@) =~= Self::json(self.deep_view())->Object_0);
        json::of_members(members)
    }
}

/// A search that was asked for, and the frame that it belongs to.
#[derive(Clone, Debug, PartialEq, Eq)]
pub struct CausalContextRequest {
    pub version: u32,
    pub session_digest: String,
    pub turn_digest: Option<String>,
    pub frame_registered_at: u64,
    pub git_head: GitHead,
    pub identifier: String,
    pub created_at: u64,
    pub expires_at: u64,
}

/// What a `CausalContextRequest` says.
pub struct CausalContextRequestModel {
    pub version: u32,
    pub session_digest: Seq<char>,
    pub turn_digest: Option<Seq<char>>,
    pub frame_registered_at: u64,
    pub git_head: GitHeadModel,
    pub identifier: Seq<char>,
    pub created_at: u64,
    pub expires_at: u64,
}

impl DeepView for CausalContextRequest {
    type V = CausalContextRequestModel;

    open spec fn deep_view(&self) -> CausalContextRequestModel {
        CausalContextRequestModel {
            version: self.version,
            session_digest: self.session_digest@,
            turn_digest: self.turn_digest.deep_view(),
            frame_registered_at: self.frame_registered_at,
            git_head: self.git_head.deep_view(),
            identifier: self.identifier@,
            created_at: self.created_at,
            expires_at: self.expires_at,
        }
    }
}

impl Duplicate for CausalContextRequest {
    fn duplicate(&self) -> (r: CausalContextRequest) {
        CausalContextRequest {
            version: self.version,
            session_digest: text::copy(self.session_digest.as_str()),
            turn_digest: text::copy_option(&self.turn_digest),
            frame_registered_at: self.frame_registered_at,
            git_head: self.git_head.duplicate(),
            identifier: text::copy(self.identifier.as_str()),
            created_at: self.created_at,
            expires_at: self.expires_at,
        }
    }
}

impl ToJson for CausalContextRequest {
    open spec fn json(value: CausalContextRequestModel) -> JsonModel {
        JsonModel::Object(
            seq![
                ("version"@, json::count_model(value.version as nat)),
                ("session_digest"@, JsonModel::Text(value.session_digest)),
            ] + (match value.turn_digest {
                Some(turn_digest) => seq![("turn_digest"@, JsonModel::Text(turn_digest))],
                None => seq![],
            }) + seq![
                ("frame_registered_at"@, json::count_model(value.frame_registered_at as nat)),
                ("git_head"@, GitHead::json(value.git_head)),
                ("identifier"@, JsonModel::Text(value.identifier)),
                ("created_at"@, json::count_model(value.created_at as nat)),
                ("expires_at"@, json::count_model(value.expires_at as nat)),
            ],
        )
    }

    fn to_json(&self) -> (r: Json) {
        let mut members: Vec<JsonMember> = Vec::new();
        assert(json::member_models(members@) =~= Seq::empty());
        json::put(&mut members, "version", json::of_count(self.version as u64));
        json::put(&mut members, "session_digest", json::of_text(self.session_digest.as_str()));
        if let Some(turn_digest) = &self.turn_digest {
            json::put(&mut members, "turn_digest", json::of_text(turn_digest.as_str()));
        }
        json::put(&mut members, "frame_registered_at", json::of_count(self.frame_registered_at));
        json::put(&mut members, "git_head", self.git_head.to_json());
        json::put(&mut members, "identifier", json::of_text(self.identifier.as_str()));
        json::put(&mut members, "created_at", json::of_count(self.created_at));
        json::put(&mut members, "expires_at", json::of_count(self.expires_at));
        assert(json::member_models(members@) =~= Self::json(self.deep_view())->Object_0);
        json::of_members(members)
    }
}

#[derive(Clone, Debug, PartialEq, Eq)]
pub enum GatewayError {
    Io(String),
    Json(String),
    InvalidWorkspace,
    GitServiceMismatch,
    UnsafeStatePath,
    InvalidInput(String),
    Clock,
    StateLimit,
    Randomness,
}

/// What a `GatewayError` says.
pub enum GatewayErrorModel {
    Io(Seq<char>),
    Json(Seq<char>),
    InvalidWorkspace,
    GitServiceMismatch,
    UnsafeStatePath,
    InvalidInput(Seq<char>),
    Clock,
    StateLimit,
    Randomness,
}

impl DeepView for GatewayError {
    type V = GatewayErrorModel;

    open spec fn deep_view(&self) -> GatewayErrorModel {
        match self {
            GatewayError::Io(e) => GatewayErrorModel::Io(e@),
            GatewayError::Json(e) => GatewayErrorModel::Json(e@),
            GatewayError::InvalidWorkspace => GatewayErrorModel::InvalidWorkspace,
            GatewayError::GitServiceMismatch => GatewayErrorModel::GitServiceMismatch,
            GatewayError::UnsafeStatePath => GatewayErrorModel::UnsafeStatePath,
            GatewayError::InvalidInput(e) => GatewayErrorModel::InvalidInput(e@),
            GatewayError::Clock => GatewayErrorModel::Clock,
            GatewayError::StateLimit => GatewayErrorModel::StateLimit,
            GatewayError::Randomness => GatewayErrorModel::Randomness,
        }
    }
}

impl GatewayErrorModel {
    pub open spec fn message(self) -> Seq<char> {
        match self {
            GatewayErrorModel::Io(e) => "causal context I/O: "@ + e,
            GatewayErrorModel::Json(e) => "causal context JSON: "@ + e,
            GatewayErrorModel::InvalidWorkspace => "workspace is not a Git worktree root"@,
            GatewayErrorModel::GitServiceMismatch => "Git service root does not match workspace"@,
            GatewayErrorModel::UnsafeStatePath => "private state path is unsafe"@,
            GatewayErrorModel::InvalidInput(e) => "invalid causal context input: "@ + e,
            GatewayErrorModel::Clock => "system clock is unavailable"@,
            GatewayErrorModel::StateLimit => "private state exceeds its byte bound"@,
            GatewayErrorModel::Randomness => "CSPRNG request token generation failed"@,
        }
    }
}

impl GatewayError {
    /// The error as a sentence for a person.
    pub fn message(&self) -> (r: String)
        ensures
            r@ == self.deep_view().message(),
    {
        match self {
            GatewayError::Io(e) => text::concat("causal context I/O: ", e.as_str()),
            GatewayError::Json(e) => text::concat("causal context JSON: ", e.as_str()),
            GatewayError::InvalidWorkspace => text::copy("workspace is not a Git worktree root"),
            GatewayError::GitServiceMismatch => text::copy("Git service root does not match workspace"),
            GatewayError::UnsafeStatePath => text::copy("private state path is unsafe"),
            GatewayError::InvalidInput(e) => text::concat("invalid causal context input: ", e.as_str()),
            GatewayError::Clock => text::copy("system clock is unavailable"),
            GatewayError::StateLimit => text::copy("private state exceeds its byte bound"),
            GatewayError::Randomness => text::copy("CSPRNG request token generation failed"),
        }
    }

    /// An error that says the same.
    pub fn duplicate(&self) -> (r: GatewayError)
        ensures
            r.deep_view() == self.deep_view(),
    {
        match self {
            GatewayError::Io(e) => GatewayError::Io(text::copy(e.as_str())),
            GatewayError::Json(e) => GatewayError::Json(text::copy(e.as_str())),
            GatewayError::InvalidWorkspace => GatewayError::InvalidWorkspace,
            GatewayError::GitServiceMismatch => GatewayError::GitServiceMismatch,
            GatewayError::UnsafeStatePath => GatewayError::UnsafeStatePath,
            GatewayError::InvalidInput(e) => GatewayError::InvalidInput(text::copy(e.as_str())),
            GatewayError::Clock => GatewayError::Clock,
            GatewayError::StateLimit => GatewayError::StateLimit,
            GatewayError::Randomness => GatewayError::Randomness,
        }
    }
}

/// The digest of the name of a session or a turn, where it is neither empty nor too long.
pub open spec fn id_digest(value: Seq<char>) -> Result<Seq<char>, GatewayErrorModel> {
    if value.len() == 0 || text::byte_len(value) > MAX_ID_INPUT_BYTES {
        Err(
            GatewayErrorModel::InvalidInput("session or turn identifier is out of bounds"@),
        )
    } else {
        Ok(digest::sha256_hex(vstd::utf8::encode_utf8(value)))
    }
}

/// The digest of the name of a session or a turn.
pub fn digest_id(value: &str) -> (r: Result<String, GatewayError>)
    ensures
        match (r, id_digest(value@)) {
            (Ok(digest), Ok(d)) => digest@ == d,
            (Err(error), Err(e)) => error.deep_view() == e,
            _ => false,
        },
{
    let chars = text::to_chars(value);
    if chars.len() == 0 || text::count_bytes(value) > MAX_ID_INPUT_BYTES {
        return Err(
            GatewayError::InvalidInput(text::copy("session or turn identifier is out of bounds")),
        );
    }
    Ok(digest::sha256_text(value.as_bytes()))
}

/// The name of a request: sixty-four hexadecimal digits without capitals.
pub open spec fn request_token(token: Seq<char>) -> bool {
    token.len() == 64 && forall|i: int| 0 <= i < token.len() ==> state::lower_hex(#[trigger] token[i])
}

/// The name of a request.
pub fn is_request_token(token: &str) -> (r: bool)
    ensures
        r == request_token(token@),
{
    let chars = text::to_chars(token);
    if chars.len() != 64 {
        return false;
    }
    let mut i: usize = 0;
    while i < chars.len()
        invariant
            i <= chars@.len(),
            chars@ == token@,
            forall|k: int| 0 <= k < i ==> state::lower_hex(#[trigger] chars@[k]),
        decreases chars@.len() - i,
    {
        let c = chars[i];
        if !(text::is_digit(c) || ('a' <= c && c <= 'f')) {
            assert(!state::lower_hex(token@[i as int]));
            return false;
        }
        i += 1;
    }
    true
}

/// `getrandom::fill`: fills a buffer of the given length with random bytes, or gives nothing
/// where the system has none. Which bytes come is left open, as they are random.
#[verifier::external_body]
fn random_bytes(count: usize) -> (r: Option<Vec<u8>>)
    requires
        count <= isize::MAX,
    ensures
        r matches Some(bytes) ==> bytes@.len() == count,
{
    let mut bytes = vec![0u8; count];
    match getrandom::fill(&mut bytes) {
        Ok(()) => Some(bytes),
        Err(_) => None,
    }
}

/// The name that random bytes give a request.
pub fn token_of(bytes: &Vec<u8>) -> (r: String)
    requires
        bytes@.len() == 32,
    ensures
        r@ == digest::hex(bytes@),
        request_token(r@),
{
    proof {
        digest::hex_holds_digits(bytes@);
    }
    digest::to_hex(bytes.as_slice())
}

/// A random name for a request.
pub fn random_token() -> (r: Result<String, GatewayError>)
    ensures
        match r {
            Ok(token) => request_token(token@),
            Err(error) => error.deep_view() == GatewayErrorModel::Randomness,
        },
{
    match random_bytes(32) {
        Some(bytes) => Ok(token_of(&bytes)),
        None => Err(GatewayError::Randomness),
    }
}

pub open spec fn hexadecimal(c: char) -> bool {
    text::ascii_digit(c) || ('a' <= c && c <= 'f') || ('A' <= c && c <= 'F')
}

/// The text of a commit: forty to one hundred and twenty-eight hexadecimal digits.
pub open spec fn commit_text(s: Seq<char>) -> bool {
    40 <= s.len() <= 128 && forall|i: int| 0 <= i < s.len() ==> hexadecimal(#[trigger] s[i])
}

/// What the workspace is at, for the text that Git gives.
pub open spec fn commit_of(value: Option<Seq<char>>) -> GitHeadModel {
    match value {
        Some(value) => if commit_text(text::trimmed(value)) {
            GitHeadModel::Commit { value: text::lowered(text::trimmed(value)) }
        } else {
            GitHeadModel::Unavailable
        },
        None => GitHeadModel::Unavailable,
    }
}

/// What the workspace is at, for the text that Git gives.
pub fn parse_commit(value: Option<&str>) -> (r: GitHead)
    ensures
        r.deep_view() == commit_of(json::text_of(value)),
{
    let given = match value {
        Some(given) => given,
        None => {
            return GitHead::Unavailable;
        },
    };
    let chars = text::to_chars(given);
    let commit = text::trim(chars.as_slice());
    if commit.len() < 40 || commit.len() > 128 {
        return GitHead::Unavailable;
    }
    let mut i: usize = 0;
    while i < commit.len()
        invariant
            i <= commit@.len(),
            commit@ == text::trimmed(given@),
            json::text_of(value) == Some(given@),
            forall|k: int| 0 <= k < i ==> hexadecimal(#[trigger] commit@[k]),
        decreases commit@.len() - i,
    {
        let c = commit[i];
        if !(text::is_digit(c) || ('a' <= c && c <= 'f') || ('A' <= c && c <= 'F')) {
            assert(!hexadecimal(commit@[i as int]));
            return GitHead::Unavailable;
        }
        i += 1;
    }
    GitHead::Commit { value: text::to_text(text::to_lower(commit).as_slice()) }
}

/// What `git rev-parse --verify HEAD` gave: whether it succeeded, and what it wrote.
#[derive(Debug, PartialEq, Eq)]
pub struct GitAnswer {
    pub success: bool,
    pub stdout: Vec<u8>,
}

/// A branch that has no commit yet.
pub open spec fn names_a_branch(head: Seq<char>) -> bool {
    text::begins(text::trimmed(head), "ref: refs/"@)
}

/// What the workspace is at. `head_file` is what the file `HEAD` holds, where it can be read.
pub open spec fn head_of(
    answer: Option<(bool, Seq<u8>)>,
    head_file: Option<Seq<char>>,
) -> GitHeadModel {
    match answer {
        Some((success, stdout)) => if success && stdout.len() <= 256 {
            if vstd::utf8::valid_utf8(stdout) {
                commit_of(Some(vstd::utf8::decode_utf8(stdout)))
            } else {
                GitHeadModel::Unavailable
            }
        } else {
            match head_file {
                Some(head) => if names_a_branch(head) {
                    GitHeadModel::Unborn
                } else {
                    GitHeadModel::Unavailable
                },
                None => GitHeadModel::Unavailable,
            }
        },
        None => GitHeadModel::Unavailable,
    }
}

/// What the workspace is at. There is no answer where Git could not be run, and no text of
/// the file `HEAD` where it could not be read.
pub fn read_git_head(answer: &Option<GitAnswer>, head_file: Option<&str>) -> (r: GitHead)
    ensures
        r.deep_view() == head_of(
            match answer {
                Some(answer) => Some((answer.success, answer.stdout@)),
                None => None,
            },
            json::text_of(head_file),
        ),
{
    match answer {
        Some(answer) => {
            if answer.success && answer.stdout.len() <= 256 {
                match text::decode(answer.stdout.as_slice()) {
                    Ok(commit) => parse_commit(Some(commit.as_str())),
                    Err(_) => GitHead::Unavailable,
                }
            } else {
                match head_file {
                    Some(head) => {
                        let chars = text::to_chars(head);
                        if text::starts_with(text::trim(chars.as_slice()), "ref: refs/") {
                            GitHead::Unborn
                        } else {
                            GitHead::Unavailable
                        }
                    },
                    None => GitHead::Unavailable,
                }
            }
        },
        None => GitHead::Unavailable,
    }
}

/// The directory that the `.git` file of a linked worktree names.
pub open spec fn git_service_named(content: Seq<char>, workspace: Seq<char>) -> Option<Seq<char>> {
    match text::after_prefix(content, "gitdir: "@) {
        Some(location) => Some(path::joined(workspace, text::trimmed(location))),
        None => None,
    }
}

/// The directory that the `.git` file of a linked worktree names.
pub fn git_service_in_file(content: &str, workspace: &str) -> (r: Option<String>)
    ensures
        r.deep_view() == git_service_named(content@, workspace@),
{
    let chars = text::to_chars(content);
    match text::strip_prefix(chars.as_slice(), "gitdir: ") {
        Some(location) => {
            let location = text::to_text(text::trim(location));
            Some(path::join(workspace, location.as_str()))
        },
        None => None,
    }
}

/// The sum of two times, or the largest time.
pub open spec fn later_by(now: u64, seconds: u64) -> u64 {
    if now + seconds > u64::MAX {
        u64::MAX
    } else {
        (now + seconds) as u64
    }
}

fn add_seconds(now: u64, seconds: u64) -> (r: u64)
    ensures
        r == later_by(now, seconds),
{
    match now.checked_add(seconds) {
        Some(later) => later,
        None => u64::MAX,
    }
}

/// The bytes of a value as JSON.
pub open spec fn json_bytes(value: JsonModel) -> nat {
    text::byte_len(json::written(value))
}

/// The frame of a turn.
pub open spec fn frame_of(
    session_id: Seq<char>,
    turn_id: Option<Seq<char>>,
    git_head: GitHeadModel,
    now: u64,
) -> Result<ObserverFrameLiteModel, GatewayErrorModel> {
    match id_digest(session_id) {
        Err(error) => Err(error),
        Ok(session_digest) => {
            let frame = ObserverFrameLiteModel {
                version: FRAME_VERSION,
                session_digest,
                turn_digest: None,
                git_head,
                registered_at: now,
                expires_at: later_by(now, FRAME_TTL_SECONDS),
            };
            match turn_id {
                None => Ok(frame),
                Some(turn_id) => match id_digest(turn_id) {
                    Err(error) => Err(error),
                    Ok(digest) => Ok(
                        ObserverFrameLiteModel { turn_digest: Some(digest), ..frame },
                    ),
                },
            }
        },
    }
}

/// The frame of a turn.
pub fn new_frame(session_id: &str, turn_id: Option<&str>, git_head: GitHead, now: u64) -> (r:
    Result<ObserverFrameLite, GatewayError>)
    ensures
        match (r, frame_of(session_id@, json::text_of(turn_id), git_head.deep_view(), now)) {
            (Ok(frame), Ok(f)) => frame.deep_view() == f,
            (Err(error), Err(e)) => error.deep_view() == e,
            _ => false,
        },
{
    let session_digest = match digest_id(session_id) {
        Ok(digest) => digest,
        Err(error) => {
            return Err(error);
        },
    };
    let turn_digest = match turn_id {
        Some(turn_id) => match digest_id(turn_id) {
            Ok(digest) => Some(digest),
            Err(error) => {
                return Err(error);
            },
        },
        None => None,
    };
    Ok(
        ObserverFrameLite {
            version: FRAME_VERSION,
            session_digest,
            turn_digest,
            git_head,
            registered_at: now,
            expires_at: add_seconds(now, FRAME_TTL_SECONDS),
        },
    )
}

/// A frame that a search can be asked for under.
pub open spec fn frame_is_live(frame: ObserverFrameLiteModel, now: u64) -> bool {
    frame.version == FRAME_VERSION && frame.expires_at > now
}

/// The request for a search under a frame.
pub open spec fn request_under(
    frame: ObserverFrameLiteModel,
    session_digest: Seq<char>,
    identifier: Seq<char>,
    now: u64,
) -> CausalContextRequestModel {
    CausalContextRequestModel {
        version: REQUEST_VERSION,
        session_digest,
        turn_digest: frame.turn_digest,
        frame_registered_at: frame.registered_at,
        git_head: frame.git_head,
        identifier,
        created_at: now,
        expires_at: later_by(now, REQUEST_TTL_SECONDS),
    }
}

/// The request for a search under a frame.
pub fn new_request(
    frame: &ObserverFrameLite,
    session_digest: &str,
    identifier: &str,
    now: u64,
) -> (r: CausalContextRequest)
    ensures
        r.deep_view() == request_under(frame.deep_view(), session_digest@, identifier@, now),
{
    CausalContextRequest {
        version: REQUEST_VERSION,
        session_digest: text::copy(session_digest),
        turn_digest: text::copy_option(&frame.turn_digest),
        frame_registered_at: frame.registered_at,
        git_head: frame.git_head.duplicate(),
        identifier: text::copy(identifier),
        created_at: now,
        expires_at: add_seconds(now, REQUEST_TTL_SECONDS),
    }
}

/// The frame is still the one that a request was made under.
pub open spec fn frame_matches(
    request: CausalContextRequestModel,
    frame: Option<ObserverFrameLiteModel>,
    now: u64,
) -> bool {
    match frame {
        Some(frame) => frame_is_live(frame, now) && frame.registered_at
            == request.frame_registered_at && frame.turn_digest == request.turn_digest
            && frame.git_head == request.git_head,
        None => false,
    }
}

/// The frame is still the one that a request was made under.
pub fn frame_is_current(
    request: &CausalContextRequest,
    frame: &Option<ObserverFrameLite>,
    now: u64,
) -> (r: bool)
    ensures
        r == frame_matches(request.deep_view(), frame.deep_view(), now),
{
    match frame {
        Some(frame) => frame.version == FRAME_VERSION && frame.expires_at > now
            && frame.registered_at == request.frame_registered_at && text::same_option(
            &frame.turn_digest,
            &request.turn_digest,
        ) && frame.git_head.same(&request.git_head),
        None => false,
    }
}

/// Room for more bytes of state.
pub fn ensure_state_capacity(usage: u64, additional: u64) -> (r: Result<(), GatewayError>)
    ensures
        match r {
            Ok(_) => usage + additional <= MAX_STATE_BYTES,
            Err(error) => usage + additional > MAX_STATE_BYTES && error.deep_view()
                == GatewayErrorModel::StateLimit,
        },
{
    match usage.checked_add(additional) {
        Some(sum) => if sum > MAX_STATE_BYTES {
            Err(GatewayError::StateLimit)
        } else {
            Ok(())
        },
        None => Err(GatewayError::StateLimit),
    }
}

/// A request that is made under a frame belongs to that frame, as long as the frame lives.
pub proof fn requests_belong_to_their_frame(
    frame: ObserverFrameLiteModel,
    session_digest: Seq<char>,
    identifier: Seq<char>,
    now: u64,
    later: u64,
)
    requires
        frame_is_live(frame, later),
    ensures
        frame_matches(request_under(frame, session_digest, identifier, now), Some(frame), later),
{
}

} // verus!
