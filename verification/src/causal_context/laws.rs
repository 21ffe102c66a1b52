//! What frames, requests and captures promise over their lives.

use vstd::prelude::*;
use crate::causal_context::capture::{kept_from, replay_reason, CaptureModel, ReplayReason};
use crate::causal_context::gateway::{
    accepted_request, consumed, executed, inspected, left_over, opened, prepared,
    registered,
    AcceptedSearchModel, ConsumedRequestModel, FoundFile, GatewayModel, Inspection, OutcomeModel,
    PreparationModel, RequestRejection, ResolvedPathModel,
};
use crate::causal_context::lifecycle::{
    self, frame_is_live, frame_matches, frame_of, head_of, request_token, request_under,
    CausalContextRequest, CausalContextRequestModel, GatewayErrorModel, GitHeadModel,
    ObserverFrameLite, ObserverFrameLiteModel,
};
use crate::causal_context::records::{self, ProjectionError};
use crate::causal_context::search;
use crate::causal_context::upkeep::{
    is_orphan, swept, swept_from, usage_from, verdict_on, RawEntry, SerializedEntryModel, Stamped,
    StateEntry, SweepModel, Verdict,
};
use crate::digest;
use crate::json::{self, ToJson};
use crate::path;
use crate::text;

verus! {

broadcast use vstd::string::group_string_axioms;

/// A frame is for the session and the turn that it was registered for, at the revision and the
/// time that were given. It lives for one day, and no longer.
pub proof fn frames_live_for_a_day(
    session: Seq<char>,
    turn: Option<Seq<char>>,
    head: GitHeadModel,
    now: u64,
    later: u64,
)
    requires
        now + 86_400 <= u64::MAX,
    ensures
        ({
            let good = 0 < session.len() && text::byte_len(session) <= 4_096 && (turn is None || (0
                < turn->0.len() && text::byte_len(turn->0) <= 4_096));
            &&& frame_of(session, turn, head, now) is Ok <==> good
            &&& frame_of(session, turn, head, now) matches Ok(frame) ==> {
                &&& frame.session_digest == digest::sha256_hex(vstd::utf8::encode_utf8(session))
                &&& turn is None ==> frame.turn_digest is None
                &&& turn matches Some(turn) ==> frame.turn_digest == Some(
                    digest::sha256_hex(vstd::utf8::encode_utf8(turn)),
                )
                &&& frame.git_head == head
                &&& frame.registered_at == now
                &&& frame_is_live(frame, later) <==> later < now + 86_400
            }
        }),
{
}

/// A request that is made under a frame is for the identifier that was asked for, at the
/// revision of the frame. It is accepted for one minute, and to be run as a plain search from
/// then on, as long as its token is one.
pub proof fn requests_live_for_a_minute(
    frame: ObserverFrameLiteModel,
    session_digest: Seq<char>,
    identifier: Seq<char>,
    now: u64,
    later: u64,
    token: Seq<char>,
)
    requires
        now + 60 <= u64::MAX,
        search::identifier(identifier),
    ensures
        ({
            let request = request_under(frame, session_digest, identifier, now);
            let accepted = accepted_request(
                token,
                Some(later),
                Some(ConsumedRequestModel::Request(request)),
            );
            let good = token.len() == 64 && forall|k: int| #![trigger token[k]]
                0 <= k < 64 ==> '0' <= token[k] <= '9' || 'a' <= token[k] <= 'f';
            &&& request.identifier == identifier && request.git_head == frame.git_head
                && request.turn_digest == frame.turn_digest && request.frame_registered_at
                == frame.registered_at && request.session_digest == session_digest
                && request.created_at == now
            &&& good && later < now + 60 ==> accepted == Ok::<CausalContextRequestModel, OutcomeModel>(
                request,
            )
            &&& good && later >= now + 60 ==> accepted == Err::<
                CausalContextRequestModel,
                OutcomeModel,
            >(
                OutcomeModel::RawReplay {
                    identifier,
                    reason: ReplayReason::RequestExpired,
                    captured_exit_code: None,
                },
            )
            &&& !good ==> accepted == Err::<CausalContextRequestModel, OutcomeModel>(
                OutcomeModel::Rejected { reason: RequestRejection::InvalidToken },
            )
        }),
{
    if request_token(token) {
        assert forall|k: int| #![trigger token[k]] 0 <= k < 64 implies '0' <= token[k] <= '9'
            || 'a' <= token[k] <= 'f' by {
            assert(crate::repository_map::state::lower_hex(token[k]));
        }
    }
}

/// A request belongs to a frame exactly where the frame lives and was registered at the same
/// time, for the same turn and at the same revision.
pub proof fn frames_match_their_requests(
    request: CausalContextRequestModel,
    frame: ObserverFrameLiteModel,
    now: u64,
)
    ensures
        frame_matches(request, Some(frame), now) <==> frame.version == 1 && now < frame.expires_at
            && frame.registered_at == request.frame_registered_at && frame.turn_digest
            == request.turn_digest && frame.git_head == request.git_head,
        !frame_matches(request, None, now),
{
}

/// A revision that Git names in 40 or more hexadecimal digits is that commit, in small letters;
/// where Git names none and the head is a branch, nothing was committed yet; and in every other
/// case the revision is unknown.
pub proof fn revisions_are_read(digits: Seq<char>, branch: Seq<char>, stdout: Seq<u8>)
    requires
        40 <= digits.len() <= 128,
        forall|k: int| #![trigger digits[k]]
            0 <= k < digits.len() ==> '0' <= digits[k] <= '9' || 'a' <= digits[k] <= 'f' || 'A'
                <= digits[k] <= 'F',
        branch.len() > 0,
        !text::white_space(branch.last()),
    ensures
        vstd::utf8::encode_utf8(digits + seq!['\n']).len() <= 256 ==> head_of(
            Some((true, vstd::utf8::encode_utf8(digits + seq!['\n']))),
            None,
        ) == (GitHeadModel::Commit { value: text::lowered(digits) }),
        head_of(Some((false, stdout)), Some("ref: refs/"@ + branch + seq!['\n']))
            == GitHeadModel::Unborn,
        head_of(Some((false, stdout)), None) == GitHeadModel::Unavailable,
        head_of(None, Some("ref: refs/"@ + branch)) == GitHeadModel::Unavailable,
{
    let told = digits + seq!['\n'];
    vstd::utf8::encode_utf8_valid_utf8(told);
    vstd::utf8::encode_utf8_decode_utf8(told);
    assert(!text::white_space(digits[0]));
    assert(!text::white_space(digits[digits.len() - 1]));
    text::laws::surrounding_space_is_trimmed(seq![], digits, seq!['\n']);
    assert(seq![] + digits + seq!['\n'] =~= told);
    assert forall|k: int| 0 <= k < digits.len() implies lifecycle::hexadecimal(
        #[trigger] digits[k],
    ) by {}
    reveal_strlit("ref: refs/");
    let head = "ref: refs/"@ + branch;
    assert(head[0] == 'r' && head.last() == branch.last());
    text::laws::surrounding_space_is_trimmed(seq![], head, seq!['\n']);
    assert(seq![] + head + seq!['\n'] =~= head + seq!['\n']);
    assert(head.subrange(0, 10) =~= "ref: refs/"@);
}

/// A capture is used exactly where nothing overflowed, the search ended in time and well, and
/// wrote no errors; otherwise the search is to be run as it was written, for that reason.
pub proof fn captures_are_judged(capture: CaptureModel)
    ensures
        replay_reason(capture) is None <==> !capture.overflowed && !capture.timed_out
            && capture.stderr.len() == 0 && capture.exit_code == Some(0i32),
        capture.overflowed ==> replay_reason(capture) == Some(ReplayReason::CaptureOverflow),
        !capture.overflowed && capture.timed_out ==> replay_reason(capture) == Some(
            ReplayReason::CaptureTimedOut,
        ),
        !capture.overflowed && !capture.timed_out && capture.stderr.len() > 0 ==> replay_reason(
            capture,
        ) == Some(ReplayReason::RipgrepError),
        !capture.overflowed && !capture.timed_out && capture.stderr.len() == 0 && capture.exit_code
            != Some(0i32) ==> replay_reason(capture) == Some(ReplayReason::RipgrepExit),
{
}

/// The bytes of all the reads from one on.
pub open spec fn read_in_all(reads: Seq<nat>, i: int) -> nat
    decreases reads.len() - i,
{
    if i < 0 || i >= reads.len() {
        0
    } else {
        reads[i] + read_in_all(reads, i + 1)
    }
}

proof fn first_bytes_are_kept_from(reads: Seq<nat>, i: int, prior: nat)
    requires
        0 <= i,
    ensures
        prior >= 8_388_608 ==> kept_from(reads, i, prior) == 0,
        prior < 8_388_608 ==> kept_from(reads, i, prior) == if prior + read_in_all(reads, i)
            <= 8_388_608 {
            read_in_all(reads, i)
        } else {
            (8_388_608 - prior) as nat
        },
    decreases reads.len() - i,
{
    if i < reads.len() {
        first_bytes_are_kept_from(reads, i + 1, prior + reads[i]);
    }
}

/// Of all that is read the first 8388608 bytes are kept, in whatever pieces they come.
pub proof fn first_bytes_are_kept(reads: Seq<nat>)
    ensures
        kept_from(reads, 0, 0) == if read_in_all(reads, 0) <= 8_388_608 {
            read_in_all(reads, 0)
        } else {
            8_388_608
        },
{
    first_bytes_are_kept_from(reads, 0, 0);
}

/// The answer to a request that can be accepted: where the frame or the revision is no longer
/// the same, or the search did not go well, it is the search, with the reason why; where the
/// search went well, gave records that can be shown, and showing them is shorter than what the
/// search wrote, it is the projection.
pub proof fn requests_are_answered(
    token: Seq<char>,
    now: u64,
    request: CausalContextRequestModel,
    current: Option<bool>,
    head: GitHeadModel,
    capture: Option<CaptureModel>,
    present: Seq<Seq<char>>,
)
    requires
        request_token(token),
        search::identifier(request.identifier),
        request.expires_at > now,
        request.version == 1,
    ensures
        ({
            let outcome = executed(
                token,
                Some(now),
                Some(ConsumedRequestModel::Request(request)),
                current,
                head,
                capture,
                present,
            );
            let fresh = current == Some(true) && head == request.git_head;
            let well = capture is Some && replay_reason(capture->0) is None;
            let found = records::records_of(capture->0.stdout, present);
            let shown = records::projection_of(
                request.identifier,
                found->0,
                capture->0.stdout.len(),
            );
            let code = capture->0.exit_code;
            &&& current == Some(false) ==> outcome == (OutcomeModel::RawReplay {
                identifier: request.identifier,
                reason: ReplayReason::SessionStale,
                captured_exit_code: None,
            })
            &&& current == Some(true) && head != request.git_head ==> outcome == (
            OutcomeModel::RawReplay {
                identifier: request.identifier,
                reason: ReplayReason::RevisionStale,
                captured_exit_code: None,
            })
            &&& current is None || (fresh && capture is None) ==> outcome == (
            OutcomeModel::RawReplay {
                identifier: request.identifier,
                reason: ReplayReason::ExecutionError,
                captured_exit_code: None,
            })
            &&& fresh && capture is Some && !well ==> outcome == (OutcomeModel::RawReplay {
                identifier: request.identifier,
                reason: replay_reason(capture->0)->0,
                captured_exit_code: code,
            })
            &&& fresh && well && found is None ==> outcome == (OutcomeModel::RawReplay {
                identifier: request.identifier,
                reason: ReplayReason::RawParse,
                captured_exit_code: code,
            })
            &&& fresh && well && found is Some && shown == Err::<Seq<char>, ProjectionError>(
                ProjectionError::TooLarge,
            ) ==> outcome == (OutcomeModel::RawReplay {
                identifier: request.identifier,
                reason: ReplayReason::ProjectionTooLarge,
                captured_exit_code: code,
            })
            &&& fresh && well && found is Some && shown is Ok && text::byte_len(shown->Ok_0)
                >= capture->0.stdout.len() ==> outcome == (OutcomeModel::RawReplay {
                identifier: request.identifier,
                reason: ReplayReason::ProjectionNotSmaller,
                captured_exit_code: code,
            })
            &&& fresh && well && found is Some && shown is Ok && text::byte_len(shown->Ok_0)
                < capture->0.stdout.len() ==> outcome == (OutcomeModel::Projection {
                text: shown->Ok_0,
                exit_code: 0,
            })
        }),
{
}

/// A request is written exactly where a live frame is there, at the same revision, and there is
/// room for it; it is then the request under that frame. A frame that no longer lives is taken
/// away, and no other is.
pub proof fn requests_need_a_live_frame(
    accepted: AcceptedSearchModel,
    frame: Option<ObserverFrameLiteModel>,
    head: GitHeadModel,
    now: u64,
    usage: u64,
)
    ensures
        ({
            let answer = prepared(accepted, frame, head, now, Ok(usage));
            let live = frame is Some && frame->0.version == 1 && frame->0.expires_at > now;
            let request = CausalContextRequest::json(
                request_under(frame->0, accepted.session_digest, accepted.identifier, now),
            );
            let size = text::byte_len(json::written(request));
            &&& answer is Create <==> live && head == frame->0.git_head && size <= 16_384 && usage
                + size <= 67_108_864
            &&& answer is Create ==> answer == (PreparationModel::Create {
                raw: json::written(request),
                identifier: accepted.identifier,
            })
            &&& answer matches PreparationModel::Refused { remove_frame, .. } ==> (remove_frame
                <==> frame is Some && !live)
            &&& !(answer is Pass)
        }),
{
}

/// What lies at the place of a request is read where it is a plain file within the bound, and
/// missing where there is nothing; it is taken away unless it is a directory. What was read is
/// a request only where it can be read as one and is not too long.
pub proof fn requests_are_taken(
    found: Option<FoundFile>,
    max_bytes: nat,
    bytes: nat,
    request: Option<CausalContextRequestModel>,
)
    ensures
        inspected(found, max_bytes) == Inspection::Missing <==> found is None,
        inspected(found, max_bytes) == Inspection::Read <==> found is Some && !found->0.is_symlink
            && found->0.is_file && found->0.bytes <= max_bytes,
        left_over(found) is Some <==> found is Some && !found->0.is_symlink && !found->0.is_file,
        consumed(Inspection::Missing, bytes, request) == ConsumedRequestModel::Rejected(
            RequestRejection::Missing,
        ),
        bytes <= 16_384 && request is Some ==> consumed(Inspection::Read, bytes, request)
            == ConsumedRequestModel::Request(request->0),
        bytes <= 16_384 && request is None ==> consumed(Inspection::Read, bytes, request)
            == ConsumedRequestModel::Rejected(RequestRejection::Malformed),
        bytes > 16_384 ==> consumed(Inspection::Read, bytes, request)
            == ConsumedRequestModel::Rejected(RequestRejection::Oversized),
{
}

/// A gateway opens exactly on a workspace that is a directory, with the Git directory that is
/// found for it; it keeps its state below that directory.
pub proof fn gateways_open_on_their_workspace(
    workspace: ResolvedPathModel,
    discovered: Seq<char>,
    supplied: ResolvedPathModel,
)
    ensures
        opened(Some(workspace), Some(discovered), Some(supplied)) is Ok <==> workspace.is_directory
            && supplied.is_directory && path::alike(discovered, supplied.path),
        opened(Some(workspace), Some(discovered), Some(supplied)) matches Ok(gateway) ==> gateway
            == (GatewayModel {
            workspace: workspace.path,
            git_service_root: supplied.path,
            state_root: path::joined(supplied.path, "cabal-runtime/causal-context"@),
        }),
        opened(None, Some(discovered), Some(supplied)) == Err::<GatewayModel, GatewayErrorModel>(
            GatewayErrorModel::InvalidWorkspace,
        ),
{
}

/// A kept file with the name of a token stays where it is a plain file within the bound whose
/// version is the present one and whose end is still to come. One that can be read and has
/// ended has expired; any other is malformed.
pub proof fn kept_files_are_judged(
    token: Seq<char>,
    found: FoundFile,
    stamp: Option<Stamped>,
    raw: Seq<u8>,
    max_bytes: nat,
    version: u32,
    now: u64,
)
    requires
        request_token(token),
    ensures
        ({
            let entry = SerializedEntryModel { name: Some(token + ".json"@), found, stamp, raw };
            let verdict = verdict_on(entry, max_bytes, version, now, None);
            let plain = found.is_file && !found.is_symlink && found.bytes <= max_bytes;
            let lives = stamp is Some && stamp->0.version == version && now < stamp->0.expires_at;
            &&& verdict == Verdict::Keep <==> plain && lives
            &&& verdict == Verdict::Malformed <==> !plain
            &&& plain && !lives ==> verdict == (Verdict::Expired {
                malformed: json::json_document(raw) is Err,
            })
            &&& verdict_on(entry, max_bytes, version, now, Some(token + ".json"@)) == Verdict::Keep
        }),
{
    let name = token + ".json"@;
    assert(name.subrange(name.len() - ".json"@.len(), name.len() as int) =~= ".json"@);
    assert(name.subrange(0, name.len() - ".json"@.len()) =~= token);
}

proof fn sweeps_count_from(
    entries: Seq<SerializedEntryModel>,
    max_bytes: nat,
    version: u32,
    now: u64,
    excluded: Option<Seq<char>>,
    i: int,
    sweep: SweepModel,
)
    requires
        0 <= i <= entries.len(),
        sweep.expired == entries.take(i).filter(
            |e: SerializedEntryModel| verdict_on(e, max_bytes, version, now, excluded) is Expired,
        ).len(),
        sweep.malformed == entries.take(i).filter(
            |e: SerializedEntryModel| is_malformed(verdict_on(e, max_bytes, version, now, excluded)),
        ).len(),
    ensures
        ({
            let end = swept_from(entries, max_bytes, version, now, excluded, i, sweep);
            &&& end.expired == entries.filter(
                |e: SerializedEntryModel|
                    verdict_on(e, max_bytes, version, now, excluded) is Expired,
            ).len()
            &&& end.malformed == entries.filter(
                |e: SerializedEntryModel|
                    is_malformed(verdict_on(e, max_bytes, version, now, excluded)),
            ).len()
        }),
    decreases entries.len() - i,
{
    if i < entries.len() {
        reveal(Seq::filter);
        assert(entries.take(i + 1).drop_last() =~= entries.take(i));
        assert(entries.take(i + 1).last() == entries[i]);
        let removed = sweep.removals.push(i as usize);
        let next = match verdict_on(entries[i], max_bytes, version, now, excluded) {
            Verdict::Keep => sweep,
            Verdict::Malformed => SweepModel {
                removals: removed,
                malformed: sweep.malformed + 1,
                ..sweep
            },
            Verdict::Expired { malformed } => SweepModel {
                removals: removed,
                expired: sweep.expired + 1,
                malformed: sweep.malformed + if malformed {
                    1nat
                } else {
                    0
                },
            },
        };
        sweeps_count_from(entries, max_bytes, version, now, excluded, i + 1, next);
    } else {
        assert(entries.take(i) =~= entries);
    }
}

/// A file that could not be read as what it should be.
pub open spec fn is_malformed(verdict: Verdict) -> bool {
    verdict == Verdict::Malformed || verdict == (Verdict::Expired { malformed: true })
}

/// A sweep counts the files that have expired, and those that could not be read.
pub proof fn sweeps_count_what_they_remove(
    entries: Seq<SerializedEntryModel>,
    max_bytes: nat,
    version: u32,
    now: u64,
    excluded: Option<Seq<char>>,
)
    ensures
        swept(entries, max_bytes, version, now, excluded).expired == entries.filter(
            |e: SerializedEntryModel| verdict_on(e, max_bytes, version, now, excluded) is Expired,
        ).len(),
        swept(entries, max_bytes, version, now, excluded).malformed == entries.filter(
            |e: SerializedEntryModel| is_malformed(verdict_on(e, max_bytes, version, now, excluded)),
        ).len(),
{
    let none = entries.take(0);
    assert(none.filter(
        |e: SerializedEntryModel| verdict_on(e, max_bytes, version, now, excluded) is Expired,
    ) =~= seq![] && none.filter(
        |e: SerializedEntryModel| is_malformed(verdict_on(e, max_bytes, version, now, excluded)),
    ) =~= seq![]) by {
        reveal(Seq::filter);
    }
    sweeps_count_from(
        entries,
        max_bytes,
        version,
        now,
        excluded,
        0,
        SweepModel { removals: seq![], expired: 0, malformed: 0 },
    );
}

/// A captured output is left alone for ten minutes, as long as it is a plain file.
pub proof fn captures_are_orphans_after_a_while(entry: RawEntry, now: u64)
    requires
        entry.is_file,
        !entry.is_symlink,
        entry.modified is Some,
    ensures
        is_orphan(entry, now) <==> now >= entry.modified->0 + 600,
{
}

/// The bytes of the files from one on.
pub open spec fn held_from(entries: Seq<StateEntry>, i: int) -> nat
    decreases entries.len() - i,
{
    if i < 0 || i >= entries.len() {
        0
    } else {
        (match entries[i] {
            StateEntry::File { bytes } => bytes as nat,
            _ => 0,
        }) + held_from(entries, i + 1)
    }
}

proof fn usage_is_held_from(entries: Seq<StateEntry>, i: int, total: nat)
    requires
        0 <= i,
        total <= 67_108_864,
        forall|k: int|
            0 <= k < entries.len() ==> (#[trigger] entries[k]) is File || entries[k] is Directory,
    ensures
        usage_from(entries, i, total) is Ok,
        total + held_from(entries, i) <= 67_108_864 ==> usage_from(entries, i, total) == Ok::<
            nat,
            GatewayErrorModel,
        >(total + held_from(entries, i)),
        total + held_from(entries, i) > 67_108_864 ==> usage_from(entries, i, total)->Ok_0
            > 67_108_864,
    decreases entries.len() - i,
{
    if i < entries.len() {
        assert(entries[i] is File || entries[i] is Directory);
        match entries[i] {
            StateEntry::File { bytes } => {
                if total + bytes <= 67_108_864 {
                    usage_is_held_from(entries, i + 1, total + bytes as nat);
                }
            },
            _ => {
                usage_is_held_from(entries, i + 1, total);
            },
        }
    }
}

/// The use of the private state is the sum of its files where that is within the bound, and
/// above the bound where it is not.
pub proof fn usage_is_the_sum_of_files(entries: Seq<StateEntry>)
    requires
        forall|k: int|
            0 <= k < entries.len() ==> (#[trigger] entries[k]) is File || entries[k] is Directory,
    ensures
        held_from(entries, 0) <= 67_108_864 ==> usage_from(entries, 0, 0) == Ok::<
            nat,
            GatewayErrorModel,
        >(held_from(entries, 0)),
        held_from(entries, 0) > 67_108_864 ==> usage_from(entries, 0, 0) is Ok && usage_from(
            entries,
            0,
            0,
        )->Ok_0 > 67_108_864,
{
    usage_is_held_from(entries, 0, 0);
}

/// A frame is written where its session and its turn can be told and there is room for it: at
/// the place that the digest of its session names, as it is.
pub proof fn frames_are_written_at_their_place(
    gateway: GatewayModel,
    session: Seq<char>,
    turn: Option<Seq<char>>,
    head: GitHeadModel,
    now: u64,
    usage: u64,
)
    ensures
        ({
            let frame = frame_of(session, turn, head, now);
            let raw = json::written(ObserverFrameLite::json(frame->Ok_0));
            let answer = registered(gateway, session, turn, head, now, Ok(usage));
            &&& answer is Ok <==> frame is Ok && text::byte_len(raw) <= 4_096 && usage
                + text::byte_len(raw) <= 67_108_864
            &&& answer matches Ok(write) ==> write.raw == raw && write.path == path::joined(
                path::joined(gateway.state_root, "frames"@),
                digest::sha256_hex(vstd::utf8::encode_utf8(session)) + ".json"@,
            )
        }),
{
}

} // verus!
