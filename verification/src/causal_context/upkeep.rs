//! Keeping the state small: what is removed from it, and how large it is.

use vstd::prelude::*;
use crate::causal_context::gateway::{FoundFile, Gateway};
use crate::causal_context::lifecycle;
use crate::causal_context::lifecycle::{
    is_request_token, GatewayError, GatewayErrorModel, FRAME_VERSION, MAX_OBSERVER_FRAME_BYTES,
    MAX_PRIVATE_REQUEST_BYTES, MAX_STATE_BYTES, REQUEST_VERSION,
};
use crate::json;
use crate::path;
use crate::text;

verus! {

broadcast use vstd::string::group_string_axioms;

/// How long what was captured may lie in the state.
pub const ORPHAN_RAW_TTL_SECONDS: u64 = 600;

/// How many files of the state were removed, by reason.
#[derive(Clone, Copy, Debug, PartialEq, Eq, Structural)]
pub struct CleanupReport {
    pub expired_frames: u64,
    pub expired_requests: u64,
    pub orphan_raw_files: u64,
    pub orphan_verification_entries: u64,
    pub malformed_files: u64,
}

/// When a frame or a request that could be read was written, and until when it counts.
#[derive(Clone, Copy, Debug, PartialEq, Eq, Structural)]
pub struct Stamped {
    pub version: u32,
    pub expires_at: u64,
}

/// A file among the frames or the requests: its name, where that is text; what lies there; the
/// frame or the request in it, where there is one; and its bytes, where it was to be read.
#[derive(Clone, Debug)]
pub struct SerializedEntry {
    pub name: Option<String>,
    pub found: FoundFile,
    pub stamp: Option<Stamped>,
    pub raw: Vec<u8>,
}

/// What a `SerializedEntry` says.
pub struct SerializedEntryModel {
    pub name: Option<Seq<char>>,
    pub found: FoundFile,
    pub stamp: Option<Stamped>,
    pub raw: Seq<u8>,
}

impl DeepView for SerializedEntry {
    type V = SerializedEntryModel;

    open spec fn deep_view(&self) -> SerializedEntryModel {
        SerializedEntryModel {
            name: self.name.deep_view(),
            found: self.found,
            stamp: self.stamp,
            raw: self.raw@,
        }
    }
}

/// What is to be done with a file among the frames or the requests.
#[derive(Clone, Copy, Debug, PartialEq, Eq, Structural)]
pub enum Verdict {
    Keep,
    /// The file is none of the state.
    Malformed,
    /// The file counts no longer.
    Expired { malformed: bool },
}

/// The name of a file among the frames or the requests.
pub open spec fn valid_name(name: Option<Seq<char>>) -> bool {
    match name {
        Some(name) => match text::before_suffix(name, ".json"@) {
            Some(token) => lifecycle::request_token(token),
            None => false,
        },
        None => false,
    }
}

/// A file can be read as a frame or a request.
pub open spec fn readable(name: Option<Seq<char>>, found: FoundFile, max_bytes: nat) -> bool {
    valid_name(name) && !found.is_symlink && found.is_file && found.bytes <= max_bytes
}

/// A frame or a request that counts.
pub open spec fn counts(stamp: Option<Stamped>, version: u32, now: u64) -> bool {
    stamp matches Some(stamp) && stamp.version == version && stamp.expires_at > now
}

/// What is to be done with a file among the frames or the requests.
pub open spec fn verdict_on(
    entry: SerializedEntryModel,
    max_bytes: nat,
    version: u32,
    now: u64,
    excluded: Option<Seq<char>>,
) -> Verdict {
    if excluded is Some && entry.name == excluded {
        Verdict::Keep
    } else if !readable(entry.name, entry.found, max_bytes) {
        Verdict::Malformed
    } else if counts(entry.stamp, version, now) {
        Verdict::Keep
    } else {
        Verdict::Expired { malformed: json::json_document(entry.raw) is Err }
    }
}

/// What a sweep through the frames or the requests removes: the places of the files, how many
/// counted no longer, and how many were malformed.
#[derive(Debug, PartialEq, Eq)]
pub struct Sweep {
    pub removals: Vec<usize>,
    pub expired: u64,
    pub malformed: u64,
}

/// What a `Sweep` says.
pub struct SweepModel {
    pub removals: Seq<usize>,
    pub expired: nat,
    pub malformed: nat,
}

impl DeepView for Sweep {
    type V = SweepModel;

    open spec fn deep_view(&self) -> SweepModel {
        SweepModel {
            removals: self.removals@,
            expired: self.expired as nat,
            malformed: self.malformed as nat,
        }
    }
}

/// The sweep with the files from `i` on.
pub open spec fn swept_from(
    entries: Seq<SerializedEntryModel>,
    max_bytes: nat,
    version: u32,
    now: u64,
    excluded: Option<Seq<char>>,
    i: int,
    sweep: SweepModel,
) -> SweepModel
    decreases entries.len() - i,
{
    if i < 0 || i >= entries.len() {
        sweep
    } else {
        let removed = sweep.removals.push(i as usize);
        let next = match verdict_on(entries[i], max_bytes, version, now, excluded) {
            Verdict::Keep => sweep,
            Verdict::Malformed => SweepModel {
                removals: removed,
                malformed: sweep.malformed + 1,
                ..sweep
            },
            Verdict::Expired { malformed } => SweepModel {
                removals: removed,
                expired: sweep.expired + 1,
                malformed: sweep.malformed + if malformed {
                    1nat
                } else {
                    0
                },
            },
        };
        swept_from(entries, max_bytes, version, now, excluded, i + 1, next)
    }
}

/// What a sweep through the frames or the requests removes.
pub open spec fn swept(
    entries: Seq<SerializedEntryModel>,
    max_bytes: nat,
    version: u32,
    now: u64,
    excluded: Option<Seq<char>>,
) -> SweepModel {
    swept_from(
        entries,
        max_bytes,
        version,
        now,
        excluded,
        0,
        SweepModel { removals: seq![], expired: 0, malformed: 0 },
    )
}

fn is_valid_name(name: &Option<String>) -> (r: bool)
    ensures
        r == valid_name(name.deep_view()),
{
    match name {
        Some(name) => {
            let chars = text::to_chars(name.as_str());
            match text::strip_suffix(chars.as_slice(), ".json") {
                Some(token) => is_request_token(text::to_text(token).as_str()),
                None => false,
            }
        },
        None => false,
    }
}

/// A file among the frames or the requests is to be read to decide on it.
pub fn needs_content(name: &Option<String>, found: FoundFile, max_bytes: usize) -> (r: bool)
    ensures
        r == readable(name.deep_view(), found, max_bytes as nat),
{
    is_valid_name(name) && !found.is_symlink && found.is_file && found.bytes <= max_bytes as u64
}

/// What is to be done with a file among the frames or the requests.
pub fn judge(
    entry: &SerializedEntry,
    max_bytes: usize,
    version: u32,
    now: u64,
    excluded: &Option<String>,
) -> (r: Verdict)
    ensures
        r == verdict_on(entry.deep_view(), max_bytes as nat, version, now, excluded.deep_view()),
{
    if excluded.is_some() && text::same_option(&entry.name, excluded) {
        return Verdict::Keep;
    }
    if !needs_content(&entry.name, entry.found, max_bytes) {
        return Verdict::Malformed;
    }
    if let Some(stamp) = entry.stamp {
        if stamp.version == version && stamp.expires_at > now {
            return Verdict::Keep;
        }
    }
    Verdict::Expired { malformed: json::parse(entry.raw.as_slice()).is_err() }
}

/// Sweeps through the frames or the requests.
pub fn cleanup_serialized_directory(
    entries: &Vec<SerializedEntry>,
    max_bytes: usize,
    version: u32,
    now: u64,
    excluded: &Option<String>,
) -> (r: Sweep)
    ensures
        r.deep_view() == swept(
            entries.deep_view(),
            max_bytes as nat,
            version,
            now,
            excluded.deep_view(),
        ),
        r.malformed <= entries@.len(),
{
    let ghost all = entries.deep_view();
    let count: usize = entries.len();
    let mut sweep = Sweep { removals: Vec::new(), expired: 0, malformed: 0 };
    assert(sweep.removals@ =~= Seq::empty());
    let mut i: usize = 0;
    while i < count
        invariant
            i <= count,
            count == entries@.len(),
            all == entries.deep_view(),
            sweep.expired <= i,
            sweep.malformed <= i,
            swept(all, max_bytes as nat, version, now, excluded.deep_view()) == swept_from(
                all,
                max_bytes as nat,
                version,
                now,
                excluded.deep_view(),
                i as int,
                sweep.deep_view(),
            ),
        decreases count - i,
    {
        assert(all[i as int] == entries@[i as int].deep_view());
        match judge(&entries[i], max_bytes, version, now, excluded) {
            Verdict::Keep => {},
            Verdict::Malformed => {
                sweep.removals.push(i);
                sweep.malformed += 1;
            },
            Verdict::Expired { malformed } => {
                sweep.removals.push(i);
                sweep.expired += 1;
                if malformed {
                    sweep.malformed += 1;
                }
            },
        }
        i += 1;
    }
    sweep
}

/// What was captured: what lies there, and when it was last changed, where that is known.
#[derive(Clone, Copy, Debug, PartialEq, Eq, Structural)]
pub struct RawEntry {
    pub is_symlink: bool,
    pub is_file: bool,
    pub modified: Option<u64>,
}

/// What was captured has lain in the state for too long.
pub open spec fn is_orphan(entry: RawEntry, now: u64) -> bool {
    entry.is_symlink || !entry.is_file || match entry.modified {
        Some(modified) => now >= modified && now - modified >= ORPHAN_RAW_TTL_SECONDS,
        None => true,
    }
}

/// The places of the orphans among the entries from `i` on.
pub open spec fn orphans_from(entries: Seq<RawEntry>, now: u64, i: int) -> Seq<usize>
    decreases entries.len() - i,
{
    if i < 0 || i >= entries.len() {
        seq![]
    } else if is_orphan(entries[i], now) {
        seq![i as usize] + orphans_from(entries, now, i + 1)
    } else {
        orphans_from(entries, now, i + 1)
    }
}

/// The places of what was captured and has lain in the state for too long.
pub fn find_orphans(entries: &Vec<RawEntry>, now: u64) -> (r: Vec<usize>)
    ensures
        r@ == orphans_from(entries@, now, 0),
        r@.len() <= entries@.len(),
{
    let mut orphans: Vec<usize> = Vec::new();
    let mut i: usize = 0;
    while i < entries.len()
        invariant
            i <= entries@.len(),
            orphans@.len() <= i,
            orphans_from(entries@, now, 0) =~= orphans@ + orphans_from(entries@, now, i as int),
        decreases entries@.len() - i,
    {
        let entry = entries[i];
        let orphan = entry.is_symlink || !entry.is_file || match entry.modified {
            Some(modified) => now >= modified && now - modified >= ORPHAN_RAW_TTL_SECONDS,
            None => true,
        };
        if orphan {
            orphans.push(i);
        }
        i += 1;
    }
    assert(orphans@ =~= orphans_from(entries@, now, 0));
    orphans
}

/// What lies among the verifications. A directory is given by its path without links.
#[derive(Debug, PartialEq, Eq)]
pub enum VerifyEntry {
    Symlink,
    Directory { canonical: String },
    File,
    Other,
}

/// What a `VerifyEntry` says.
pub enum VerifyEntryModel {
    Symlink,
    Directory { canonical: Seq<char> },
    File,
    Other,
}

impl DeepView for VerifyEntry {
    type V = VerifyEntryModel;

    open spec fn deep_view(&self) -> VerifyEntryModel {
        match self {
            VerifyEntry::Symlink => VerifyEntryModel::Symlink,
            VerifyEntry::Directory { canonical } => VerifyEntryModel::Directory {
                canonical: canonical@,
            },
            VerifyEntry::File => VerifyEntryModel::File,
            VerifyEntry::Other => VerifyEntryModel::Other,
        }
    }
}

/// An entry among the verifications that may be removed: a file, or a directory that lies
/// there.
pub open spec fn is_removable(entry: VerifyEntryModel, directory: Seq<char>) -> bool {
    match entry {
        VerifyEntryModel::File => true,
        VerifyEntryModel::Directory { canonical } => path::within(canonical, directory),
        _ => false,
    }
}

/// How many entries from `i` on may be removed before one that may not.
pub open spec fn removable_from(entries: Seq<VerifyEntryModel>, directory: Seq<char>, i: int) -> nat
    decreases entries.len() - i,
{
    if i < 0 || i >= entries.len() || !is_removable(entries[i], directory) {
        0
    } else {
        1 + removable_from(entries, directory, i + 1)
    }
}

fn count_removable(entries: &Vec<VerifyEntry>, directory: &str) -> (r: usize)
    ensures
        r == removable_from(entries.deep_view(), directory@, 0),
        r <= entries@.len(),
{
    let ghost all = entries.deep_view();
    let mut i: usize = 0;
    while i < entries.len()
        invariant
            i <= entries@.len(),
            all == entries.deep_view(),
            removable_from(all, directory@, 0) == i + removable_from(all, directory@, i as int),
        decreases entries@.len() - i,
    {
        assert(all[i as int] == entries@[i as int].deep_view());
        let removable = match &entries[i] {
            VerifyEntry::File => true,
            VerifyEntry::Directory { canonical } => path::is_within(canonical.as_str(), directory),
            _ => false,
        };
        if !removable {
            return i;
        }
        i += 1;
    }
    i
}

/// What a cleanup removes: the places of the frames, the requests and the captures, how many
/// of the first verifications, and what is reported where nothing else stands against it.
#[derive(Debug, PartialEq, Eq)]
pub struct CleanupPlan {
    pub frames: Vec<usize>,
    pub requests: Vec<usize>,
    pub raw: Vec<usize>,
    pub verifications: usize,
    pub report: Result<CleanupReport, GatewayError>,
}

/// What a `CleanupPlan` says.
pub struct CleanupPlanModel {
    pub frames: Seq<usize>,
    pub requests: Seq<usize>,
    pub raw: Seq<usize>,
    pub verifications: nat,
    pub report: Result<CleanupReport, GatewayErrorModel>,
}

impl DeepView for CleanupPlan {
    type V = CleanupPlanModel;

    open spec fn deep_view(&self) -> CleanupPlanModel {
        CleanupPlanModel {
            frames: self.frames@,
            requests: self.requests@,
            raw: self.raw@,
            verifications: self.verifications as nat,
            report: match self.report {
                Ok(report) => Ok(report),
                Err(error) => Err(error.deep_view()),
            },
        }
    }
}

/// The file of the request that is not to be removed.
pub open spec fn excluded_file(excluded: Option<Seq<char>>) -> Option<Seq<char>> {
    match excluded {
        Some(token) => Some(token + ".json"@),
        None => None,
    }
}

/// What a cleanup removes. The request `excluded` stays.
pub open spec fn cleaned(
    frames: Seq<SerializedEntryModel>,
    requests: Seq<SerializedEntryModel>,
    raw: Seq<RawEntry>,
    verifications: Seq<VerifyEntryModel>,
    verify_directory: Seq<char>,
    now: u64,
    excluded: Option<Seq<char>>,
) -> CleanupPlanModel {
    let old_frames = swept(frames, MAX_OBSERVER_FRAME_BYTES as nat, FRAME_VERSION, now, None);
    let old_requests = swept(
        requests,
        MAX_PRIVATE_REQUEST_BYTES as nat,
        REQUEST_VERSION,
        now,
        excluded_file(excluded),
    );
    let orphans = orphans_from(raw, now, 0);
    let removable = removable_from(verifications, verify_directory, 0);
    CleanupPlanModel {
        frames: old_frames.removals,
        requests: old_requests.removals,
        raw: orphans,
        verifications: removable,
        report: if removable < verifications.len() {
            Err(GatewayErrorModel::UnsafeStatePath)
        } else {
            Ok(
                CleanupReport {
                    expired_frames: old_frames.expired as u64,
                    expired_requests: old_requests.expired as u64,
                    orphan_raw_files: orphans.len() as u64,
                    orphan_verification_entries: verifications.len() as u64,
                    malformed_files: (old_frames.malformed + old_requests.malformed) as u64,
                },
            )
        },
    }
}

impl Gateway {
    /// What a cleanup removes from the state, for what lies in it. The request `excluded`
    /// stays.
    pub fn cleanup(
        &self,
        frames: &Vec<SerializedEntry>,
        requests: &Vec<SerializedEntry>,
        raw: &Vec<RawEntry>,
        verifications: &Vec<VerifyEntry>,
        now: u64,
        excluded: &Option<String>,
    ) -> (r: CleanupPlan)
        requires
            frames@.len() + requests@.len() <= u64::MAX,
        ensures
            r.deep_view() == cleaned(
                frames.deep_view(),
                requests.deep_view(),
                raw@,
                verifications.deep_view(),
                path::joined(self.deep_view().state_root, "verify"@),
                now,
                excluded.deep_view(),
            ),
    {
        let excluded_name = match excluded {
            Some(token) => Some(text::concat(token.as_str(), ".json")),
            None => None,
        };
        let none: Option<String> = None;
        let old_frames = cleanup_serialized_directory(
            frames,
            MAX_OBSERVER_FRAME_BYTES,
            FRAME_VERSION,
            now,
            &none,
        );
        let old_requests = cleanup_serialized_directory(
            requests,
            MAX_PRIVATE_REQUEST_BYTES,
            REQUEST_VERSION,
            now,
            &excluded_name,
        );
        let orphans = find_orphans(raw, now);
        let directory = path::join(self.state_root.as_str(), "verify");
        let removable: usize = count_removable(verifications, directory.as_str());
        assert(verifications.deep_view().len() == verifications@.len());
        let report = if removable < verifications.len() {
            Err(GatewayError::UnsafeStatePath)
        } else {
            Ok(
                CleanupReport {
                    expired_frames: old_frames.expired,
                    expired_requests: old_requests.expired,
                    orphan_raw_files: orphans.len() as u64,
                    orphan_verification_entries: verifications.len() as u64,
                    malformed_files: old_frames.malformed + old_requests.malformed,
                },
            )
        };
        CleanupPlan {
            frames: old_frames.removals,
            requests: old_requests.removals,
            raw: orphans,
            verifications: removable,
            report,
        }
    }
}

/// What comes of a cleanup, for how many bytes of state are left.
pub fn check_usage(report: CleanupReport, usage: u64) -> (r: Result<CleanupReport, GatewayError>)
    ensures
        match r {
            Ok(kept) => usage <= MAX_STATE_BYTES && kept == report,
            Err(error) => usage > MAX_STATE_BYTES && error.deep_view()
                == GatewayErrorModel::StateLimit,
        },
{
    if usage > MAX_STATE_BYTES {
        Err(GatewayError::StateLimit)
    } else {
        Ok(report)
    }
}

/// What lies in the state.
#[derive(Clone, Copy, Debug, PartialEq, Eq, Structural)]
pub enum StateEntry {
    Symlink,
    Directory,
    File { bytes: u64 },
    Other,
}

/// How many bytes of state there are, with the entries from `i` on; it is not counted further
/// than beyond the bound.
pub open spec fn usage_from(entries: Seq<StateEntry>, i: int, total: nat) -> Result<
    nat,
    GatewayErrorModel,
>
    decreases entries.len() - i,
{
    if i < 0 || i >= entries.len() {
        Ok(total)
    } else {
        match entries[i] {
            StateEntry::Directory => usage_from(entries, i + 1, total),
            StateEntry::File { bytes } => {
                let next = if total + bytes > u64::MAX {
                    u64::MAX as nat
                } else {
                    total + bytes as nat
                };
                if next > MAX_STATE_BYTES {
                    Ok(next)
                } else {
                    usage_from(entries, i + 1, next)
                }
            },
            _ => Err(GatewayErrorModel::UnsafeStatePath),
        }
    }
}

/// How many bytes of state there are, for what lies in it, in the order in which it is found.
pub fn state_usage(entries: &Vec<StateEntry>) -> (r: Result<u64, GatewayError>)
    ensures
        match (r, usage_from(entries@, 0, 0)) {
            (Ok(usage), Ok(u)) => usage == u,
            (Err(error), Err(e)) => error.deep_view() == e,
            _ => false,
        },
{
    let mut total: u64 = 0;
    let mut i: usize = 0;
    while i < entries.len()
        invariant
            i <= entries@.len(),
            usage_from(entries@, 0, 0) == usage_from(entries@, i as int, total as nat),
        decreases entries@.len() - i,
    {
        match entries[i] {
            StateEntry::Directory => {},
            StateEntry::File { bytes } => {
                total = match total.checked_add(bytes) {
                    Some(sum) => sum,
                    None => u64::MAX,
                };
                if total > MAX_STATE_BYTES {
                    return Ok(total);
                }
            },
            _ => {
                return Err(GatewayError::UnsafeStatePath);
            },
        }
        i += 1;
    }
    Ok(total)
}

proof fn sweep_keeps(
    entries: Seq<SerializedEntryModel>,
    max_bytes: nat,
    version: u32,
    now: u64,
    excluded: Option<Seq<char>>,
    i: int,
    sweep: SweepModel,
)
    requires
        0 <= i <= entries.len(),
        entries.len() <= usize::MAX,
        forall|k: int|
            0 <= k < i ==> (sweep.removals.contains(k as usize) <==> verdict_on(
                #[trigger] entries[k],
                max_bytes,
                version,
                now,
                excluded,
            ) != Verdict::Keep),
        forall|j: int| 0 <= j < sweep.removals.len() ==> #[trigger] sweep.removals[j] < i,
    ensures
        ({
            let done = swept_from(entries, max_bytes, version, now, excluded, i, sweep);
            &&& forall|k: int|
                0 <= k < entries.len() ==> (done.removals.contains(k as usize) <==> verdict_on(
                    #[trigger] entries[k],
                    max_bytes,
                    version,
                    now,
                    excluded,
                ) != Verdict::Keep)
            &&& forall|j: int|
                0 <= j < done.removals.len() ==> #[trigger] done.removals[j] < entries.len()
        }),
    decreases entries.len() - i,
{
    if i < entries.len() {
        let verdict = verdict_on(entries[i], max_bytes, version, now, excluded);
        let removed = sweep.removals.push(i as usize);
        let next = match verdict {
            Verdict::Keep => sweep,
            Verdict::Malformed => SweepModel {
                removals: removed,
                malformed: sweep.malformed + 1,
                ..sweep
            },
            Verdict::Expired { malformed } => SweepModel {
                removals: removed,
                expired: sweep.expired + 1,
                malformed: sweep.malformed + if malformed {
                    1nat
                } else {
                    0
                },
            },
        };
        assert forall|k: int| 0 <= k < i + 1 implies (next.removals.contains(k as usize)
            <==> verdict_on(#[trigger] entries[k], max_bytes, version, now, excluded)
            != Verdict::Keep) by {
            if k < i {
                if sweep.removals.contains(k as usize) {
                    let j = sweep.removals.index_of(k as usize);
                    assert(next.removals[j] == k as usize);
                } else if next.removals.contains(k as usize) {
                    let j = next.removals.index_of(k as usize);
                    if j < sweep.removals.len() {
                        assert(sweep.removals[j] == k as usize);
                    }
                }
            } else {
                if verdict != Verdict::Keep {
                    assert(next.removals[sweep.removals.len() as int] == i as usize);
                } else if next.removals.contains(i as usize) {
                    let j = sweep.removals.index_of(i as usize);
                    assert(sweep.removals[j] < i);
                }
            }
        }
        assert forall|j: int| 0 <= j < next.removals.len() implies #[trigger] next.removals[j] < i
            + 1 by {
            if j < sweep.removals.len() {
                assert(next.removals[j] == sweep.removals[j]);
            }
        }
        sweep_keeps(entries, max_bytes, version, now, excluded, i + 1, next);
    }
}

/// A sweep removes exactly the files that do not count: a frame or a request that can be read
/// and has not ended stays, and so does the one that is excluded; every other file goes.
pub proof fn only_what_counts_stays(
    entries: Seq<SerializedEntryModel>,
    max_bytes: nat,
    version: u32,
    now: u64,
    excluded: Option<Seq<char>>,
    k: int,
)
    requires
        0 <= k < entries.len() <= usize::MAX,
    ensures
        swept(entries, max_bytes, version, now, excluded).removals.contains(k as usize) <==> !((
        excluded is Some && entries[k].name == excluded) || (readable(entries[k].name, entries[k].found, max_bytes)
            && counts(entries[k].stamp, version, now))),
{
    sweep_keeps(
        entries,
        max_bytes,
        version,
        now,
        excluded,
        0,
        SweepModel { removals: seq![], expired: 0, malformed: 0 },
    );
    assert(entries[k] == entries[k]);
}

/// What a sweep leaves.
pub open spec fn left_by_sweep(
    entries: Seq<SerializedEntryModel>,
    max_bytes: nat,
    version: u32,
    now: u64,
    excluded: Option<Seq<char>>,
) -> Seq<SerializedEntryModel> {
    entries.filter(
        |entry: SerializedEntryModel|
            verdict_on(entry, max_bytes, version, now, excluded) == Verdict::Keep,
    )
}

proof fn kept_files_stay(
    entries: Seq<SerializedEntryModel>,
    max_bytes: nat,
    version: u32,
    now: u64,
    excluded: Option<Seq<char>>,
    i: int,
    sweep: SweepModel,
)
    requires
        0 <= i <= entries.len(),
        forall|k: int|
            0 <= k < entries.len() ==> verdict_on(
                #[trigger] entries[k],
                max_bytes,
                version,
                now,
                excluded,
            ) == Verdict::Keep,
    ensures
        swept_from(entries, max_bytes, version, now, excluded, i, sweep) == sweep,
    decreases entries.len() - i,
{
    if i < entries.len() {
        assert(verdict_on(entries[i], max_bytes, version, now, excluded) == Verdict::Keep);
        kept_files_stay(entries, max_bytes, version, now, excluded, i + 1, sweep);
    }
}

proof fn nothing_is_left_to_sweep(
    entries: Seq<SerializedEntryModel>,
    max_bytes: nat,
    version: u32,
    now: u64,
    excluded: Option<Seq<char>>,
)
    ensures
        swept(
            left_by_sweep(entries, max_bytes, version, now, excluded),
            max_bytes,
            version,
            now,
            excluded,
        ) == (SweepModel { removals: seq![], expired: 0, malformed: 0 }),
{
    let keeps = |entry: SerializedEntryModel|
        verdict_on(entry, max_bytes, version, now, excluded) == Verdict::Keep;
    let left = left_by_sweep(entries, max_bytes, version, now, excluded);
    assert(left == entries.filter(keeps));
    assert forall|k: int| 0 <= k < left.len() implies verdict_on(
        #[trigger] left[k],
        max_bytes,
        version,
        now,
        excluded,
    ) == Verdict::Keep by {
        entries.lemma_filter_pred(keeps, k);
    }
    kept_files_stay(
        left,
        max_bytes,
        version,
        now,
        excluded,
        0,
        SweepModel { removals: seq![], expired: 0, malformed: 0 },
    );
}

/// What was captured and is left by a cleanup.
pub open spec fn left_captures(entries: Seq<RawEntry>, now: u64) -> Seq<RawEntry> {
    entries.filter(|entry: RawEntry| !is_orphan(entry, now))
}

proof fn no_orphans(entries: Seq<RawEntry>, now: u64, i: int)
    requires
        0 <= i <= entries.len(),
        forall|k: int| 0 <= k < entries.len() ==> !is_orphan(#[trigger] entries[k], now),
    ensures
        orphans_from(entries, now, i) == Seq::<usize>::empty(),
    decreases entries.len() - i,
{
    if i < entries.len() {
        no_orphans(entries, now, i + 1);
    }
}

/// A cleanup at the same time over what a cleanup left removes nothing and reports nothing.
pub proof fn cleaning_again_removes_nothing(
    frames: Seq<SerializedEntryModel>,
    requests: Seq<SerializedEntryModel>,
    raw: Seq<RawEntry>,
    verify_directory: Seq<char>,
    now: u64,
    excluded: Option<Seq<char>>,
)
    ensures
        cleaned(
            left_by_sweep(frames, MAX_OBSERVER_FRAME_BYTES as nat, FRAME_VERSION, now, None),
            left_by_sweep(
                requests,
                MAX_PRIVATE_REQUEST_BYTES as nat,
                REQUEST_VERSION,
                now,
                excluded_file(excluded),
            ),
            left_captures(raw, now),
            seq![],
            verify_directory,
            now,
            excluded,
        ) == (CleanupPlanModel {
            frames: seq![],
            requests: seq![],
            raw: seq![],
            verifications: 0,
            report: Ok(
                CleanupReport {
                    expired_frames: 0,
                    expired_requests: 0,
                    orphan_raw_files: 0,
                    orphan_verification_entries: 0,
                    malformed_files: 0,
                },
            ),
        }),
{
    nothing_is_left_to_sweep(
        frames,
        MAX_OBSERVER_FRAME_BYTES as nat,
        FRAME_VERSION,
        now,
        None,
    );
    nothing_is_left_to_sweep(
        requests,
        MAX_PRIVATE_REQUEST_BYTES as nat,
        REQUEST_VERSION,
        now,
        excluded_file(excluded),
    );
    let stays = |entry: RawEntry| !is_orphan(entry, now);
    let left = left_captures(raw, now);
    assert(left == raw.filter(stays));
    assert forall|k: int| 0 <= k < left.len() implies !is_orphan(#[trigger] left[k], now) by {
        raw.lemma_filter_pred(stays, k);
    }
    no_orphans(left, now, 0);
}

} // verus!
