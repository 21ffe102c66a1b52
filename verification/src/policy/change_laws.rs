//! What a policy promises of patches, and of the paths that its rules name.

use vstd::prelude::*;
use crate::digest;
use crate::policy::bash;
use crate::policy::glob::{
    any_match_from, glob_match, parts_match, segment_match, segment_patterns_are_wildcards, wild,
};
use crate::policy::patch::{
    self, apply_patch_from, diff_path, parsed_patch, unified_from, valid_path, DiffScanModel,
    PatchScanModel,
};
use crate::policy::{
    evaluation_for, load_of, paths_decision_from, receipt_of, ChangePolicyModel, Decision,
    EvaluationModel, PathRulesModel, PolicyLoadModel, PolicyState, ReceiptKind, RefusalModel,
    ToolInputModel, WirePolicyModel, WireRules,
};
use crate::sorted;
use crate::text;

verus! {

broadcast use vstd::string::group_string_axioms;

/// One of the patterns matches the path.
pub open spec fn matched(patterns: Seq<Seq<char>>, path: Seq<char>) -> bool {
    exists|k: int|
        0 <= k < patterns.len() && glob_match(text::slashed(#[trigger] patterns[k]), path)
}

proof fn matches_are_found(patterns: Seq<Seq<char>>, path: Seq<char>, i: int)
    requires
        0 <= i,
    ensures
        any_match_from(patterns, path, i) <==> exists|k: int|
            i <= k < patterns.len() && glob_match(text::slashed(#[trigger] patterns[k]), path),
    decreases patterns.len() - i,
{
    if i < patterns.len() {
        matches_are_found(patterns, path, i + 1);
        if exists|k: int|
            i <= k < patterns.len() && glob_match(text::slashed(#[trigger] patterns[k]), path) {
            let k = choose|k: int|
                i <= k < patterns.len() && glob_match(text::slashed(#[trigger] patterns[k]), path);
            if k > i {
                assert(i + 1 <= k);
            }
        }
    }
}

/// A path that a patch may touch at all.
pub open spec fn may_change(
    rules: PathRulesModel,
    path: Seq<char>,
    escaping: Seq<Seq<char>>,
) -> bool {
    &&& valid_path(path)
    &&& !escaping.contains(path)
    &&& !matched(rules.deny, path)
    &&& rules.allow.len() == 0 || matched(rules.allow, path)
}

/// What the rules on internal and on generated files ask for a path.
pub open spec fn calls_for(rules: PathRulesModel, path: Seq<char>, decision: Decision) -> bool {
    ||| matched(rules.internal, path) && rules.internal_action == decision
    ||| matched(rules.generated, path) && rules.generated_action == decision
}

proof fn paths_decide_from(
    rules: PathRulesModel,
    paths: Seq<Seq<char>>,
    escaping: Seq<Seq<char>>,
    i: int,
    decision: Decision,
)
    requires
        0 <= i <= paths.len(),
    ensures
        match paths_decision_from(rules, paths, escaping, i, decision) {
            Ok(decided) => {
                &&& forall|k: int|
                    i <= k < paths.len() ==> may_change(rules, #[trigger] paths[k], escaping)
                &&& decided == Decision::Deny <==> decision == Decision::Deny || exists|k: int|
                    i <= k < paths.len() && calls_for(rules, #[trigger] paths[k], Decision::Deny)
                &&& decided == Decision::Allow <==> decision == Decision::Allow && forall|k: int|
                    i <= k < paths.len() ==> !calls_for(rules, #[trigger] paths[k], Decision::Deny)
                        && !calls_for(rules, paths[k], Decision::Ask)
            },
            Err(_) => exists|k: int|
                i <= k < paths.len() && !may_change(rules, #[trigger] paths[k], escaping),
        },
    decreases paths.len() - i,
{
    if i < paths.len() {
        let path = paths[i];
        matches_are_found(rules.deny, path, 0);
        matches_are_found(rules.allow, path, 0);
        matches_are_found(rules.internal, path, 0);
        matches_are_found(rules.generated, path, 0);
        if rules.decision_for(path) is Ok {
            let next = crate::policy::combined(decision, rules.decision_for(path)->Ok_0);
            paths_decide_from(rules, paths, escaping, i + 1, next);
            if exists|k: int|
                i <= k < paths.len() && calls_for(rules, #[trigger] paths[k], Decision::Deny) {
                let k = choose|k: int|
                    i <= k < paths.len() && calls_for(rules, #[trigger] paths[k], Decision::Deny);
                if k > i {
                    assert(i + 1 <= k);
                }
            }
        } else {
            assert(!may_change(rules, path, escaping));
        }
        if may_change(rules, path, escaping) {
            assert(rules.decision_for(path) is Ok);
        } else {
            assert(!may_change(rules, paths[i], escaping));
        }
    }
}

/// A patch is denied where it is too large, cannot be read, touches too many files, changes too
/// many lines, or touches one path that it may not change; otherwise it is denied, asked about
/// or allowed by what the rules on internal and on generated files call for, the strictest of
/// them first.
pub proof fn patches_are_decided(
    policy: ChangePolicyModel,
    patch: Seq<char>,
    escaping: Seq<Seq<char>>,
)
    ensures
        ({
            let evaluation = evaluation_for(
                Ok(PolicyLoadModel::Active(policy)),
                ToolInputModel::ApplyPatch(patch),
                escaping,
            );
            let parsed = parsed_patch(patch)->Ok_0;
            let within = text::byte_len(patch) <= policy.limits.max_patch_bytes && parsed_patch(
                patch,
            ) is Ok && parsed.paths.len() <= policy.limits.max_files && parsed.line_changes
                <= policy.limits.max_line_changes;
            let free = forall|k: int|
                0 <= k < parsed.paths.len() ==> may_change(
                    policy.paths,
                    #[trigger] parsed.paths[k],
                    escaping,
                );
            let denied = exists|k: int|
                0 <= k < parsed.paths.len() && calls_for(
                    policy.paths,
                    #[trigger] parsed.paths[k],
                    Decision::Deny,
                );
            let asked = exists|k: int|
                0 <= k < parsed.paths.len() && calls_for(
                    policy.paths,
                    #[trigger] parsed.paths[k],
                    Decision::Ask,
                );
            &&& evaluation.state == PolicyState::Active
            &&& evaluation.policy_digest == Some(policy.digest)
            &&& evaluation.decision == Some(
                if !within || !free || denied {
                    Decision::Deny
                } else if asked {
                    Decision::Ask
                } else {
                    Decision::Allow
                },
            )
            &&& text::byte_len(patch) > policy.limits.max_patch_bytes ==> evaluation.code
                == "patch_too_large"@
            &&& within && free && denied ==> evaluation.code == "denied_by_policy"@
            &&& within && free && !denied && asked ==> evaluation.code == "approval_required"@
            &&& within && free && !denied && !asked ==> evaluation.code == "allowed"@
        }),
{
    let parsed = parsed_patch(patch)->Ok_0;
    paths_decide_from(policy.paths, parsed.paths, escaping, 0, Decision::Allow);
}

/// The patterns of a policy file are no more than 64, and each is a path below the workspace.
pub open spec fn good_patterns(patterns: Seq<Seq<char>>) -> bool {
    patterns.len() <= 64 && forall|k: int|
        0 <= k < patterns.len() ==> patch::valid_relative(#[trigger] patterns[k], 512)
}

/// The commands of a policy file are no more than 64 in each list, and each has words.
pub open spec fn good_commands(commands: Seq<Seq<Seq<char>>>) -> bool {
    commands.len() <= 64 && forall|k: int|
        0 <= k < commands.len() ==> bash::valid_argv(#[trigger] commands[k])
}

/// A policy file that is active has the rules that it declares, list by list, the limits that it
/// declares or else 65536 bytes, 32 files and 2000 lines, and the digest of its own bytes.
/// Internal files are asked about and generated ones denied where nothing else is declared.
/// A file of another version, one that is too large and one with a bad rule is refused.
pub proof fn declared_rules_are_loaded(raw: Seq<u8>, wire: WirePolicyModel)
    ensures
        ({
            let load = load_of(Some(raw), Ok(wire));
            &&& load is Ok ==> {
                let policy = load->Ok_0->Active_0;
                &&& load->Ok_0 is Active
                &&& raw.len() <= 65_536
                &&& wire.version == 1
                &&& policy.digest == digest::sha256_hex(raw)
                &&& wire.paths matches Some(paths) ==> {
                    &&& policy.paths.allow == paths.allow && good_patterns(paths.allow)
                    &&& policy.paths.deny == paths.deny && good_patterns(paths.deny)
                    &&& policy.paths.internal == paths.internal && good_patterns(paths.internal)
                    &&& policy.paths.generated == paths.generated && good_patterns(paths.generated)
                }
                &&& wire.paths is None ==> policy.paths.allow.len() == 0 && policy.paths.deny.len()
                    == 0 && policy.paths.internal.len() == 0 && policy.paths.generated.len() == 0
                &&& wire.commands matches Some(commands) ==> {
                    &&& policy.commands.ask == commands.ask && good_commands(commands.ask)
                    &&& policy.commands.deny == commands.deny && good_commands(commands.deny)
                    &&& policy.commands.destructive == commands.destructive && good_commands(
                        commands.destructive,
                    )
                }
                &&& wire.commands is None ==> policy.commands.ask.len() == 0
                    && policy.commands.deny.len() == 0 && policy.commands.destructive.len() == 0
                &&& wire.rules is None ==> policy.paths.internal_action == Decision::Ask
                    && policy.paths.generated_action == Decision::Deny
                &&& wire.rules matches Some(WireRules { internal, generated }) ==> {
                    &&& policy.paths.internal_action == if internal is Some {
                        internal->0
                    } else {
                        Decision::Ask
                    }
                    &&& policy.paths.generated_action == if generated is Some {
                        generated->0
                    } else {
                        Decision::Deny
                    }
                }
                &&& wire.limits is None ==> policy.limits.max_patch_bytes == 65_536
                    && policy.limits.max_files == 32 && policy.limits.max_line_changes == 2_000
                &&& wire.limits matches Some(limits) ==> {
                    &&& policy.limits.max_patch_bytes == if limits.max_patch_bytes is Some {
                        limits.max_patch_bytes->0
                    } else {
                        65_536
                    }
                    &&& policy.limits.max_files == if limits.max_files is Some {
                        limits.max_files->0
                    } else {
                        32
                    }
                    &&& policy.limits.max_line_changes == if limits.max_line_changes is Some {
                        limits.max_line_changes->0
                    } else {
                        2_000
                    }
                }
                &&& 0 < policy.limits.max_patch_bytes <= 1_048_576
                &&& 0 < policy.limits.max_files <= 256
                &&& 0 < policy.limits.max_line_changes <= 200_000
            }
            &&& raw.len() <= 65_536 && wire.version == 1 && wire.limits is None && (wire.paths
                is None || (good_patterns(wire.paths->0.allow) && good_patterns(wire.paths->0.deny)
                && good_patterns(wire.paths->0.internal) && good_patterns(
                wire.paths->0.generated,
            ))) && (wire.commands is None || (good_commands(wire.commands->0.allow)
                && good_commands(wire.commands->0.ask) && good_commands(wire.commands->0.deny)
                && good_commands(wire.commands->0.destructive))) ==> load is Ok
        }),
{
}

/// A path that leads up, that begins at a root or that names a drive is no path of a patch; a
/// path of plain parts is one, within its bound.
pub proof fn paths_that_lead_elsewhere_are_refused(front: Seq<char>, back: Seq<char>, letter: char)
    ensures
        !valid_path(front + "/../"@ + back),
        !valid_path("../"@ + back),
        !valid_path("/"@ + back),
        !valid_path(seq![letter, ':'] + back),
        !valid_path(seq![]),
        ({
            let parts = text::pieces(text::slashed(front), '/');
            (forall|k: int| #![trigger parts[k]]
                0 <= k < parts.len() ==> parts[k].len() > 0 && parts[k] != "."@ && parts[k] != ".."@
                    && !parts[k].contains(':')) && front.len() > 0 && !front.contains('\0')
                && text::byte_len(front) <= 4_096 ==> valid_path(front)
        }),
{
    reveal_strlit("/../");
    reveal_strlit("../");
    reveal_strlit("/");
    reveal_strlit("..");
    let up = seq!['.', '.'];
    assert(".."@ =~= up);
    assert(!up.contains('/'));
    let a = text::slashed(front);
    let b = text::slashed(back);
    let s = front + "/../"@ + back;
    assert(text::slashed(s) =~= a + seq!['/'] + (up + seq!['/'] + b));
    text::laws::pieces_of_two(a, up + seq!['/'] + b, '/');
    text::laws::pieces_of_two(up, b, '/');
    let parts = text::pieces(text::slashed(s), '/');
    let n = text::pieces(a, '/').len() as int;
    assert(parts[n] == up);
    assert(!patch::valid_part(parts[n]));
    let t = "../"@ + back;
    assert(text::slashed(t) =~= up + seq!['/'] + b);
    assert(!patch::valid_part(text::pieces(text::slashed(t), '/')[0]));
    let r = "/"@ + back;
    assert(text::slashed(r) =~= seq![] + seq!['/'] + b);
    text::laws::pieces_of_two(seq![], b, '/');
    assert(!patch::valid_part(text::pieces(text::slashed(r), '/')[0]));
    let d = seq![letter, ':'] + back;
    drives_are_refused(d);
    if forall|k: int|
        0 <= k < text::pieces(a, '/').len() ==> text::pieces(a, '/')[k].len() > 0 && #[trigger] text::pieces(a, '/')[k] != "."@
            && text::pieces(a, '/')[k] != ".."@ && !text::pieces(a, '/')[k].contains(':') {
        assert forall|k: int| 0 <= k < text::pieces(a, '/').len() implies patch::valid_part(
            #[trigger] text::pieces(a, '/')[k],
        ) by {}
    }
}

proof fn drives_are_refused(path: Seq<char>)
    requires
        path.len() >= 2,
        path[1] == ':',
    ensures
        !valid_path(path),
{
    let s = text::slashed(path);
    let parts = text::pieces(s, '/');
    text::laws::pieces_can_be_joined(s, '/');
    assert(s[1] == ':');
    if valid_path(path) {
        assert forall|k: int| 0 <= k < parts.len() implies !(#[trigger] parts[k]).contains(':') by {
            assert(patch::valid_part(parts[k]));
        }
        joined_without(parts, ':');
        assert(text::joined(parts, seq!['/']).contains(s[1]));
    }
}

proof fn joined_without(parts: Seq<Seq<char>>, c: char)
    requires
        forall|k: int| 0 <= k < parts.len() ==> !(#[trigger] parts[k]).contains(c),
        c != '/',
    ensures
        !text::joined(parts, seq!['/']).contains(c),
    decreases parts.len(),
{
    if parts.len() == 0 {
        assert(parts =~= seq![]);
        text::laws::joined_behind(seq![], seq![], seq!['/']);
    } else {
        let rest = parts.skip(1);
        assert(parts =~= seq![parts[0]] + rest);
        text::laws::joined_in_front(parts[0], rest, seq!['/']);
        assert forall|k: int| 0 <= k < rest.len() implies !(#[trigger] rest[k]).contains(c) by {
            assert(rest[k] == parts[k + 1]);
        }
        joined_without(rest, c);
        let all = text::joined(parts, seq!['/']);
        let later = text::joined(rest, seq!['/']);
        if all.contains(c) {
            let k = all.index_of(c);
            let m = parts[0].len() as int;
            if k < m {
                assert(parts[0][k] == c);
                assert(parts[0].contains(c));
            } else if k > m {
                assert(later[k - m - 1] == c);
                assert(later.contains(c));
            }
        }
    }
}

/// A receipt says what was decided of an input, under which policy and when; where nothing was
/// decided, there is none.
pub proof fn decisions_are_recorded(
    evaluation: EvaluationModel,
    input: ToolInputModel,
    now_ms: u128,
)
    ensures
        match receipt_of(evaluation, input, now_ms) {
            Some(receipt) => {
                &&& evaluation.decision is Some && receipt.decision == evaluation.decision
                &&& evaluation.policy_digest == Some(receipt.policy_digest)
                &&& receipt.code == evaluation.code
                &&& receipt.created_unix_ms == now_ms
                &&& input matches ToolInputModel::ApplyPatch(patch) ==> receipt.input_kind
                    == ReceiptKind::ApplyPatch && receipt.input_digest == digest::sha256_hex(
                    vstd::utf8::encode_utf8(patch),
                )
                &&& input matches ToolInputModel::Bash(command) ==> receipt.input_kind
                    == ReceiptKind::Bash && receipt.input_digest == digest::sha256_hex(
                    vstd::utf8::encode_utf8(command),
                )
            },
            None => evaluation.decision is None || evaluation.policy_digest is None,
        },
{
}

proof fn plain_bytes_match(p: Seq<u8>, t: Seq<u8>, i: int, j: int)
    requires
        0 <= i <= p.len(),
        0 <= j <= t.len(),
        forall|k: int| i <= k < p.len() ==> #[trigger] p[k] != 42,
    ensures
        wild(p, t, i, j) <==> p.skip(i) == t.skip(j),
    decreases p.len() - i,
{
    let a = p.skip(i);
    let b = t.skip(j);
    if i < p.len() {
        assert(p[i] != 42);
        if j < t.len() {
            plain_bytes_match(p, t, i + 1, j + 1);
            if a == b {
                assert(a[0] == b[0]);
                assert(p.skip(i + 1) =~= a.skip(1));
                assert(t.skip(j + 1) =~= b.skip(1));
            }
            if wild(p, t, i, j) {
                assert(p.skip(i + 1) == t.skip(j + 1));
                assert(a =~= seq![p[i]] + p.skip(i + 1));
                assert(b =~= seq![t[j]] + t.skip(j + 1));
            }
        } else {
            assert(a.len() != b.len());
        }
    } else if j < t.len() {
        assert(a.len() != b.len());
    } else {
        assert(a =~= b);
    }
}

proof fn a_star_skips(p: Seq<u8>, t: Seq<u8>, i: int, j: int)
    requires
        0 <= i < p.len(),
        0 <= j <= t.len(),
        p[i] == 42,
    ensures
        wild(p, t, i, j) <==> exists|k: int| j <= k <= t.len() && #[trigger] wild(p, t, i + 1, k),
    decreases t.len() - j,
{
    if j < t.len() {
        a_star_skips(p, t, i, j + 1);
        if exists|k: int| j <= k <= t.len() && #[trigger] wild(p, t, i + 1, k) {
            let k = choose|k: int| j <= k <= t.len() && #[trigger] wild(p, t, i + 1, k);
            if k > j {
                assert(j + 1 <= k);
                assert(wild(p, t, i, j + 1));
            }
        }
        if wild(p, t, i, j) {
            assert(wild(p, t, i + 1, j) || wild(p, t, i, j + 1));
        }
    } else {
        assert(wild(p, t, i, j) == wild(p, t, i + 1, j));
    }
}

proof fn plain_front_matches(p: Seq<u8>, t: Seq<u8>, n: int, i: int, j: int)
    requires
        0 <= i <= n <= p.len(),
        0 <= j <= t.len(),
        forall|k: int| i <= k < n ==> #[trigger] p[k] != 42,
    ensures
        wild(p, t, i, j) <==> j + (n - i) <= t.len() && p.subrange(i, n) == t.subrange(
            j,
            j + (n - i),
        ) && wild(p, t, n, j + (n - i)),
    decreases n - i,
{
    let a = p.subrange(i, n);
    let b = t.subrange(j, j + (n - i));
    if i < n {
        assert(p[i] != 42);
        if j < t.len() {
            plain_front_matches(p, t, n, i + 1, j + 1);
            if j + (n - i) <= t.len() {
                if a == b {
                    assert(a[0] == b[0]);
                    assert(p.subrange(i + 1, n) =~= a.skip(1));
                    assert(t.subrange(j + 1, j + (n - i)) =~= b.skip(1));
                }
                if p[i] == t[j] && p.subrange(i + 1, n) == t.subrange(j + 1, j + (n - i)) {
                    assert(a =~= seq![p[i]] + p.subrange(i + 1, n));
                    assert(b =~= seq![t[j]] + t.subrange(j + 1, j + (n - i)));
                }
            }
        }
    } else {
        assert(a =~= b);
    }
}

/// On names without a star in them, a part of a pattern without a star matches only itself, and a
/// star in it stands for any bytes: a part with one star matches exactly what begins and ends as the part does, without these
/// two overlapping.
pub proof fn stars_stand_for_any_bytes(front: Seq<u8>, back: Seq<u8>, t: Seq<u8>)
    requires
        !front.contains(42u8),
        !back.contains(42u8),
        !t.contains(42u8),
    ensures
        segment_match(front, t) <==> front == t,
        segment_match(front.push(42) + back, t) <==> front.len() + back.len() <= t.len()
            && t.take(front.len() as int) == front && t.skip(t.len() - back.len()) == back,
{
    let p = front.push(42) + back;
    let n = front.len() as int;
    assert forall|k: int| 0 <= k < t.len() implies t[k] != 42 by {
        assert(t.contains(t[k]));
    }
    segment_patterns_are_wildcards(front, t);
    segment_patterns_are_wildcards(p, t);
    assert forall|k: int| 0 <= k < front.len() implies #[trigger] front[k] != 42 by {
        assert(front.contains(front[k]));
    }
    plain_bytes_match(front, t, 0, 0);
    assert(front.skip(0) =~= front);
    assert(t.skip(0) =~= t);
    assert forall|k: int| 0 <= k < n implies #[trigger] p[k] != 42 by {
        assert(p[k] == front[k]);
    }
    plain_front_matches(p, t, n, 0, 0);
    assert(p.subrange(0, n) =~= front);
    assert(p[n] == 42);
    assert forall|k: int| n + 1 <= k < p.len() implies #[trigger] p[k] != 42 by {
        assert(p[k] == back[k - n - 1]);
        assert(back.contains(back[k - n - 1]));
    }
    assert(p.skip(n + 1) =~= back);
    if n <= t.len() {
        a_star_skips(p, t, n, n);
        assert forall|k: int| n <= k <= t.len() implies (#[trigger] wild(p, t, n + 1, k) <==> t.skip(
            k,
        ) == back) by {
            plain_bytes_match(p, t, n + 1, k);
        }
        assert(t.take(n) =~= t.subrange(0, n));
        if wild(p, t, 0, 0) {
            let k = choose|k: int| n <= k <= t.len() && #[trigger] wild(p, t, n + 1, k);
            assert(t.skip(k) == back);
            assert(k == t.len() - back.len());
        }
        if n + back.len() <= t.len() && t.take(n) == front && t.skip(t.len() - back.len()) == back {
            assert(wild(p, t, n + 1, t.len() - back.len()));
        }
    }
}

/// The part of a pattern at `i` matches that of a path at `j`.
pub open spec fn parts_agree(pattern: Seq<Seq<char>>, path: Seq<Seq<char>>, i: int, j: int) -> bool {
    segment_match(vstd::utf8::encode_utf8(pattern[i]), vstd::utf8::encode_utf8(path[j]))
}

proof fn plain_parts_match(pattern: Seq<Seq<char>>, path: Seq<Seq<char>>, n: int, i: int, j: int)
    requires
        0 <= i <= n <= pattern.len(),
        0 <= j <= path.len(),
        forall|k: int| i <= k < n ==> #[trigger] pattern[k] != "**"@,
    ensures
        parts_match(pattern, path, i, j) <==> j + (n - i) <= path.len() && (forall|k: int|
            i <= k < n ==> #[trigger] parts_agree(pattern, path, k, j + (k - i))) && parts_match(
            pattern,
            path,
            n,
            j + (n - i),
        ),
    decreases n - i,
{
    if i < n {
        assert(pattern[i] != "**"@);
        if j < path.len() {
            plain_parts_match(pattern, path, n, i + 1, j + 1);
            if parts_match(pattern, path, i, j) {
                assert forall|k: int| i <= k < n implies #[trigger] parts_agree(
                    pattern,
                    path,
                    k,
                    j + (k - i),
                ) by {
                    if k > i {
                        assert(parts_agree(pattern, path, k, j + 1 + (k - (i + 1))));
                    }
                }
            }
            if (forall|k: int|
                i <= k < n ==> #[trigger] parts_agree(pattern, path, k, j + (k - i))) {
                assert(parts_agree(pattern, path, i, j + (i - i)));
                assert forall|k: int| i + 1 <= k < n implies #[trigger] parts_agree(
                    pattern,
                    path,
                    k,
                    j + 1 + (k - (i + 1)),
                ) by {
                    assert(parts_agree(pattern, path, k, j + (k - i)));
                }
            }
        }
    }
}

proof fn two_stars_skip(pattern: Seq<Seq<char>>, path: Seq<Seq<char>>, i: int, j: int)
    requires
        0 <= i < pattern.len(),
        0 <= j <= path.len(),
        pattern[i] == "**"@,
    ensures
        parts_match(pattern, path, i, j) <==> exists|k: int|
            j <= k <= path.len() && #[trigger] parts_match(pattern, path, i + 1, k),
    decreases path.len() - j,
{
    if j < path.len() {
        two_stars_skip(pattern, path, i, j + 1);
        if exists|k: int| j <= k <= path.len() && #[trigger] parts_match(pattern, path, i + 1, k) {
            let k = choose|k: int|
                j <= k <= path.len() && #[trigger] parts_match(pattern, path, i + 1, k);
            if k > j {
                assert(j + 1 <= k);
                assert(parts_match(pattern, path, i, j + 1));
            }
        }
        if parts_match(pattern, path, i, j) {
            assert(parts_match(pattern, path, i + 1, j) || parts_match(pattern, path, i, j + 1));
        }
    } else {
        assert(parts_match(pattern, path, i, j) == parts_match(pattern, path, i + 1, j));
    }
}

/// A pattern without two stars as a part matches the paths with as many parts, each of which its
/// own part matches. Two stars as a part stand for any number of parts, also for none: what is
/// in front of them matches the first parts of the path, and what is behind them the last.
pub proof fn two_stars_stand_for_any_parts(pattern: Seq<char>, path: Seq<char>, n: int)
    requires
        0 <= n <= text::pieces(pattern, '/').len(),
        forall|k: int|
            0 <= k < text::pieces(pattern, '/').len() && k != n ==> #[trigger] text::pieces(
                pattern,
                '/',
            )[k] != "**"@,
        n < text::pieces(pattern, '/').len() ==> text::pieces(pattern, '/')[n] == "**"@,
    ensures
        ({
            let p = text::pieces(pattern, '/');
            let t = text::pieces(path, '/');
            let m = t.len() - p.len();
            &&& n == p.len() ==> (glob_match(pattern, path) <==> p.len() == t.len() && forall|
                k: int,
            |
                0 <= k < n ==> #[trigger] parts_agree(p, t, k, k))
            &&& n < p.len() ==> (glob_match(pattern, path) <==> p.len() <= t.len() + 1 && (forall|
                k: int,
            |
                0 <= k < n ==> #[trigger] parts_agree(p, t, k, k)) && (forall|k: int|
                n < k < p.len() ==> #[trigger] parts_agree(p, t, k, m + k)))
        }),
{
    let p = text::pieces(pattern, '/');
    let t = text::pieces(path, '/');
    let m = t.len() - p.len();
    plain_parts_match(p, t, n, 0, 0);
    assert((forall|k: int| 0 <= k < n ==> #[trigger] parts_agree(p, t, k, k)) == (forall|k: int|
        0 <= k < n ==> #[trigger] parts_agree(p, t, k, 0 + (k - 0)))) by {
        if forall|k: int| 0 <= k < n ==> #[trigger] parts_agree(p, t, k, k) {
            assert forall|k: int| 0 <= k < n implies #[trigger] parts_agree(
                p,
                t,
                k,
                0 + (k - 0),
            ) by {
                assert(parts_agree(p, t, k, k));
            }
        }
        if forall|k: int| 0 <= k < n ==> #[trigger] parts_agree(p, t, k, 0 + (k - 0)) {
            assert forall|k: int| 0 <= k < n implies #[trigger] parts_agree(p, t, k, k) by {
                assert(parts_agree(p, t, k, 0 + (k - 0)));
            }
        }
    }
    if n < p.len() && n <= t.len() {
        two_stars_skip(p, t, n, n);
        let end = p.len() as int;
        let last = m + n + 1;
        assert forall|k: int| n <= k <= t.len() implies (#[trigger] parts_match(p, t, n + 1, k)
            ==> k == last) by {
            plain_parts_match(p, t, end, n + 1, k);
        }
        if n <= last <= t.len() {
            plain_parts_match(p, t, end, n + 1, last);
            if parts_match(p, t, n + 1, last) {
                assert forall|k: int| n < k < end implies #[trigger] parts_agree(p, t, k, m + k) by {
                    assert(parts_agree(p, t, k, last + (k - (n + 1))));
                }
            }
            if forall|k: int| n < k < p.len() ==> #[trigger] parts_agree(p, t, k, m + k) {
                assert forall|k: int| n + 1 <= k < end implies #[trigger] parts_agree(
                    p,
                    t,
                    k,
                    last + (k - (n + 1)),
                ) by {
                    assert(parts_agree(p, t, k, m + k));
                }
                assert(parts_match(p, t, n + 1, last));
            }
        }
    }
}

proof fn begins_there(front: Seq<char>, rest: Seq<char>)
    ensures
        text::begins(front + rest, front),
        text::after_prefix(front + rest, front) == Some(rest),
{
    let s = front + rest;
    assert(s.subrange(0, front.len() as int) =~= front);
    assert(s.subrange(front.len() as int, s.len() as int) =~= rest);
}

proof fn begins_otherwise(s: Seq<char>, p: Seq<char>, k: int)
    requires
        0 <= k < p.len(),
        s.len() <= k || s[k] != p[k],
    ensures
        !text::begins(s, p),
        s != p,
{
    if text::begins(s, p) {
        assert(s.subrange(0, p.len() as int)[k] == s[k]);
    }
}

proof fn untrimmed(s: Seq<char>)
    requires
        s.len() > 0,
        !text::white_space(s[0]),
        !text::white_space(s.last()),
    ensures
        text::trimmed(s) == s,
        text::trimmed_end(s) == s,
{
    text::laws::surrounding_space_is_trimmed(seq![], s, seq![]);
    assert(seq![] + s + seq![] =~= s);
    assert(seq![] + s =~= s);
}

/// A line of a patch between its two boundaries.
pub enum PatchLine {
    Update(Seq<char>),
    Addition(Seq<char>),
    Deletion(Seq<char>),
    Move(Seq<char>),
    Content(Seq<char>),
}

impl PatchLine {
    pub open spec fn written(self) -> Seq<char> {
        match self {
            PatchLine::Update(path) => "*** Update File: "@ + path,
            PatchLine::Addition(path) => "*** Add File: "@ + path,
            PatchLine::Deletion(path) => "*** Delete File: "@ + path,
            PatchLine::Move(path) => "*** Move to: "@ + path,
            PatchLine::Content(line) => line,
        }
    }

    /// The path that the line names.
    pub open spec fn path(self) -> Option<Seq<char>> {
        match self {
            PatchLine::Update(path) => Some(path),
            PatchLine::Addition(path) => Some(path),
            PatchLine::Deletion(path) => Some(path),
            PatchLine::Move(path) => Some(path),
            PatchLine::Content(_) => None,
        }
    }

    /// A path that may stand there, or a line that is no directive.
    pub open spec fn good(self) -> bool {
        match self {
            PatchLine::Content(line) => !text::begins(text::trimmed(line), "*** "@)
                && !text::begins(text::trimmed_end(line), "*** "@),
            _ => {
                let path = self.path()->0;
                valid_path(path) && !text::white_space(path.last())
            },
        }
    }

    /// A line that is put in or taken out.
    pub open spec fn changes(self) -> bool {
        self matches PatchLine::Content(line) && line.len() > 0 && (line[0] == '+' || line[0] == '-')
            && !text::begins(line, "+++ "@) && !text::begins(line, "--- "@)
    }
}

spec fn named(lines: Seq<PatchLine>, x: Seq<char>) -> bool {
    exists|k: int|
        0 <= k < lines.len() && (#[trigger] lines[k]).path() is Some && text::slashed(
            lines[k].path()->0,
        ) == x
}

spec fn inside_patch(scan: PatchScanModel, lines: Seq<PatchLine>) -> bool {
    &&& scan.current
    &&& !scan.ended
    &&& lines.len() > 0 ==> scan.file_header_seen
    &&& scan.parsed.line_changes == lines.filter(|line: PatchLine| line.changes()).len()
    &&& sorted::increasing(scan.parsed.paths)
    &&& forall|x: Seq<char>| #[trigger] scan.parsed.paths.contains(x) <==> named(lines, x)
}

proof fn changing_lines(line: Seq<char>)
    ensures
        (text::begins(line, "+"@) || text::begins(line, "-"@)) <==> line.len() > 0 && (line[0]
            == '+' || line[0] == '-'),
{
    reveal_strlit("+");
    reveal_strlit("-");
    if line.len() > 0 {
        assert(line.subrange(0, 1)[0] == line[0]);
        if line[0] == '+' {
            assert(line.subrange(0, 1) =~= "+"@);
        }
        if line[0] == '-' {
            assert(line.subrange(0, 1) =~= "-"@);
        }
    }
}

proof fn headers_are_read(scan: PatchScanModel, line: PatchLine, last: bool)
    requires
        scan.current,
        !scan.ended,
        line.good(),
        !(line is Content),
        line is Move ==> scan.file_header_seen,
    ensures
        scan.after(line.written(), last) matches Ok(next) && next.current && !next.ended
            && next.file_header_seen && next.parsed == scan.parsed.with_path(
            text::slashed(line.path()->0),
        ),
{
    reveal_strlit("*** Update File: ");
    reveal_strlit("*** Add File: ");
    reveal_strlit("*** Delete File: ");
    reveal_strlit("*** Move to: ");
    reveal_strlit("*** Begin Patch");
    reveal_strlit("*** End Patch");
    reveal_strlit("*** Environment ID: ");
    let path = line.path()->0;
    let s = line.written();
    assert(s[0] == '*');
    assert(s.last() == path.last());
    untrimmed(s);
    begins_otherwise(s, "*** Begin Patch"@, 4);
    begins_otherwise(s, "*** End Patch"@, 4);
    begins_otherwise(s, "*** Environment ID: "@, 4);
    match line {
        PatchLine::Update(path) => {
            begins_there("*** Update File: "@, path);
        },
        PatchLine::Addition(path) => {
            begins_otherwise(s, "*** Update File: "@, 4);
            begins_there("*** Add File: "@, path);
        },
        PatchLine::Deletion(path) => {
            begins_otherwise(s, "*** Update File: "@, 4);
            begins_otherwise(s, "*** Add File: "@, 4);
            begins_there("*** Delete File: "@, path);
        },
        PatchLine::Move(path) => {
            begins_otherwise(s, "*** Update File: "@, 4);
            begins_otherwise(s, "*** Add File: "@, 4);
            begins_otherwise(s, "*** Delete File: "@, 4);
            begins_there("*** Move to: "@, path);
        },
        _ => {},
    }
}

proof fn no_directive(s: Seq<char>)
    requires
        !text::begins(s, "*** "@),
    ensures
        s != "*** Begin Patch"@,
        s != "*** End Patch"@,
        !text::begins(s, "*** Environment ID: "@),
        patch::header_path(s) is None,
        !text::begins(s, "*** Move to: "@),
{
    reveal_strlit("*** ");
    reveal_strlit("*** Update File: ");
    reveal_strlit("*** Add File: ");
    reveal_strlit("*** Delete File: ");
    reveal_strlit("*** Move to: ");
    reveal_strlit("*** Begin Patch");
    reveal_strlit("*** End Patch");
    reveal_strlit("*** Environment ID: ");
    let k: int = if s.len() <= 0 || s[0] != '*' {
        0
    } else if s.len() <= 1 || s[1] != '*' {
        1
    } else if s.len() <= 2 || s[2] != '*' {
        2
    } else {
        3
    };
    if s.len() > 3 && s[0] == '*' && s[1] == '*' && s[2] == '*' && s[3] == ' ' {
        assert(s.subrange(0, 4) =~= "*** "@);
    }
    begins_otherwise(s, "*** Begin Patch"@, k);
    begins_otherwise(s, "*** End Patch"@, k);
    begins_otherwise(s, "*** Environment ID: "@, k);
    begins_otherwise(s, "*** Update File: "@, k);
    begins_otherwise(s, "*** Add File: "@, k);
    begins_otherwise(s, "*** Delete File: "@, k);
    begins_otherwise(s, "*** Move to: "@, k);
}

proof fn contents_are_read(scan: PatchScanModel, line: Seq<char>, last: bool)
    requires
        scan.current,
        !scan.ended,
        PatchLine::Content(line).good(),
    ensures
        scan.after(line, last) == Ok::<PatchScanModel, RefusalModel>(
            if PatchLine::Content(line).changes() {
                PatchScanModel { parsed: scan.parsed.with_change(), ..scan }
            } else {
                scan
            },
        ),
{
    no_directive(text::trimmed(line));
    no_directive(text::trimmed_end(line));
    changing_lines(line);
}

proof fn one_patch_line_is_read(scan: PatchScanModel, lines: Seq<PatchLine>, i: int)
    requires
        0 <= i < lines.len(),
        lines[i].good(),
        i == 0 ==> !(lines[0] is Content) && !(lines[0] is Move),
        inside_patch(scan, lines.take(i)),
    ensures
        scan.after(lines[i].written(), false) matches Ok(next) && inside_patch(
            next,
            lines.take(i + 1),
        ),
{
    let line = lines[i];
    let before = lines.take(i);
    let after = lines.take(i + 1);
    reveal(Seq::filter);
    assert(after.drop_last() =~= before);
    assert(after.last() == line);
    if line is Content {
        contents_are_read(scan, line->Content_0, false);
        let next = scan.after(line.written(), false)->Ok_0;
        assert forall|x: Seq<char>| #[trigger] next.parsed.paths.contains(x) <==> named(after, x) by {
            assert(scan.parsed.paths.contains(x) <==> named(before, x));
            if named(before, x) {
                let k = choose|k: int|
                    0 <= k < before.len() && (#[trigger] before[k]).path() is Some && text::slashed(
                        before[k].path()->0,
                    ) == x;
                assert(after[k] == before[k]);
            }
            if named(after, x) {
                let k = choose|k: int|
                    0 <= k < after.len() && (#[trigger] after[k]).path() is Some && text::slashed(
                        after[k].path()->0,
                    ) == x;
                assert(k < i);
                assert(before[k] == after[k]);
            }
        }
    } else {
        headers_are_read(scan, line, false);
        let next = scan.after(line.written(), false)->Ok_0;
        let path = text::slashed(line.path()->0);
        sorted::insertion_keeps_order(scan.parsed.paths, path);
        assert forall|x: Seq<char>| #[trigger] next.parsed.paths.contains(x) <==> named(after, x) by {
            assert(scan.parsed.paths.contains(x) <==> named(before, x));
            if named(before, x) {
                let k = choose|k: int|
                    0 <= k < before.len() && (#[trigger] before[k]).path() is Some && text::slashed(
                        before[k].path()->0,
                    ) == x;
                assert(after[k] == before[k]);
            }
            assert(after[i] == line);
            if named(after, x) {
                let k = choose|k: int|
                    0 <= k < after.len() && (#[trigger] after[k]).path() is Some && text::slashed(
                        after[k].path()->0,
                    ) == x;
                if k < i {
                    assert(before[k] == after[k]);
                }
            }
        }
    }
}

/// The lines of a patch with its two boundaries.
pub open spec fn patch_lines(lines: Seq<PatchLine>) -> Seq<Seq<char>> {
    seq!["*** Begin Patch"@] + lines.map_values(|line: PatchLine| line.written()) + seq![
        "*** End Patch"@,
    ]
}

proof fn patch_lines_are_read_from(lines: Seq<PatchLine>, i: int, scan: PatchScanModel)
    requires
        0 <= i <= lines.len(),
        lines.len() > 0,
        !(lines[0] is Content) && !(lines[0] is Move),
        forall|k: int| 0 <= k < lines.len() ==> (#[trigger] lines[k]).good(),
        inside_patch(scan, lines.take(i)),
    ensures
        apply_patch_from(patch_lines(lines), i + 1, scan) matches Ok(parsed) && {
            &&& parsed.line_changes == lines.filter(|line: PatchLine| line.changes()).len()
            &&& forall|x: Seq<char>| #[trigger] parsed.paths.contains(x) <==> named(lines, x)
        },
    decreases lines.len() - i,
{
    let all = patch_lines(lines);
    if i < lines.len() {
        one_patch_line_is_read(scan, lines, i);
        assert(all[i + 1] == lines[i].written());
        let next = scan.after(lines[i].written(), false)->Ok_0;
        patch_lines_are_read_from(lines, i + 1, next);
    } else {
        reveal_strlit("*** End Patch");
        reveal_strlit("*** Begin Patch");
        assert(lines.take(i) =~= lines);
        assert(all[i + 1] == "*** End Patch"@);
        assert("*** End Patch"@.last() == 'h');
        untrimmed("*** End Patch"@);
        begins_otherwise("*** End Patch"@, "*** Begin Patch"@, 4);
        assert(named(lines, text::slashed(lines[0].path()->0)));
        assert(scan.parsed.paths.contains(text::slashed(lines[0].path()->0)));
        reveal_with_fuel(apply_patch_from, 2);
    }
}

/// A patch that is written file by file is read as what it changes: its paths are exactly those
/// that its headers and its moves name, and its changes are the lines that are put in or taken
/// out.
pub proof fn written_patches_are_read(patch: Seq<char>, lines: Seq<PatchLine>)
    requires
        text::lines_of(patch) == patch_lines(lines),
        lines.len() > 0,
        !(lines[0] is Content) && !(lines[0] is Move),
        forall|k: int| 0 <= k < lines.len() ==> (#[trigger] lines[k]).good(),
    ensures
        parsed_patch(patch) matches Ok(parsed) && {
            &&& parsed.line_changes == lines.filter(|line: PatchLine| line.changes()).len()
            &&& forall|x: Seq<char>| #[trigger]
                parsed.paths.contains(x) <==> exists|k: int|
                    0 <= k < lines.len() && (#[trigger] lines[k]).path() is Some && text::slashed(
                        lines[k].path()->0,
                    ) == x
        },
{
    let all = patch_lines(lines);
    reveal_strlit("*** Begin Patch");
    assert(all[0] == "*** Begin Patch"@);
    assert("*** Begin Patch"@.last() == 'h');
    untrimmed("*** Begin Patch"@);
    let begin = PatchScanModel::begin();
    let scan = PatchScanModel { current: true, ..begin };
    assert(begin.after(all[0], false) == Ok::<PatchScanModel, RefusalModel>(scan));
    assert(lines.take(0) =~= seq![]);
    assert(lines.take(0).filter(|line: PatchLine| line.changes()) =~= seq![]) by {
        reveal(Seq::filter);
    }
    patch_lines_are_read_from(lines, 0, scan);
    assert(apply_patch_from(all, 0, begin) == apply_patch_from(all, 1, scan));
    let parsed = parsed_patch(patch)->Ok_0;
    assert forall|x: Seq<char>| #[trigger] parsed.paths.contains(x) <==> exists|k: int|
        0 <= k < lines.len() && (#[trigger] lines[k]).path() is Some && text::slashed(
            lines[k].path()->0,
        ) == x by {
        assert(named(lines, x) <==> exists|k: int|
            0 <= k < lines.len() && (#[trigger] lines[k]).path() is Some && text::slashed(
                lines[k].path()->0,
            ) == x);
    }
}

/// The path in a header of a unified diff is read without the letter of its side and without
/// what stands behind a tab; the null device stands for no file.
pub proof fn diff_headers_are_read(path: Seq<char>, behind: Seq<char>)
    requires
        valid_path(path),
        !path.contains('\t'),
    ensures
        diff_path("a/"@ + path) == Ok::<Seq<char>, RefusalModel>(text::slashed(path)),
        diff_path("b/"@ + path) == Ok::<Seq<char>, RefusalModel>(text::slashed(path)),
        diff_path("a/"@ + path + seq!['\t'] + behind) == Ok::<Seq<char>, RefusalModel>(
            text::slashed(path),
        ),
        diff_path("/dev/null"@) == Ok::<Seq<char>, RefusalModel>("/dev/null"@),
{
    reveal_strlit("a/");
    reveal_strlit("b/");
    reveal_strlit("/dev/null");
    let old = "a/"@ + path;
    let new = "b/"@ + path;
    assert(!old.contains('\t')) by {
        if old.contains('\t') {
            let k = old.index_of('\t');
            if k >= 2 {
                assert(path[k - 2] == '\t');
                assert(path.contains('\t'));
            }
        }
    }
    assert(!new.contains('\t')) by {
        if new.contains('\t') {
            let k = new.index_of('\t');
            if k >= 2 {
                assert(path[k - 2] == '\t');
                assert(path.contains('\t'));
            }
        }
    }
    text::laws::pieces_of_two(old, behind, '\t');
    text::laws::pieces_of_two(new, behind, '\t');
    text::laws::pieces_of_two("/dev/null"@, behind, '\t');
    begins_there("a/"@, path);
    begins_there("b/"@, path);
    begins_otherwise(new, "a/"@, 0);
    assert(old[0] == 'a' && new[0] == 'b' && "/dev/null"@[0] == '/');
}

/// A line of a unified diff: the two headers of a file, the head of a hunk, or a line of one.
pub enum DiffLine {
    Old(Seq<char>),
    New(Seq<char>),
    Hunk(Seq<char>),
    Content(Seq<char>),
}

impl DiffLine {
    pub open spec fn written(self) -> Seq<char> {
        match self {
            DiffLine::Old(value) => "--- "@ + value,
            DiffLine::New(value) => "+++ "@ + value,
            DiffLine::Hunk(rest) => "@@ "@ + rest,
            DiffLine::Content(line) => line,
        }
    }

    /// A header whose path can be read, or a line that is no header.
    pub open spec fn good(self) -> bool {
        match self {
            DiffLine::Old(value) => diff_path(value) is Ok,
            DiffLine::New(value) => diff_path(value) is Ok,
            DiffLine::Hunk(_) => true,
            DiffLine::Content(line) => !text::begins(line, "--- "@) && !text::begins(line, "+++ "@)
                && !text::begins(line, "@@ "@),
        }
    }

    pub open spec fn changes(self) -> bool {
        self matches DiffLine::Content(line) && line.len() > 0 && (line[0] == '+' || line[0] == '-')
    }

    /// The path of a file that the header names.
    pub open spec fn path(self) -> Option<Seq<char>> {
        let value = match self {
            DiffLine::Old(value) => Some(value),
            DiffLine::New(value) => Some(value),
            _ => None,
        };
        match value {
            Some(value) => match diff_path(value) {
                Ok(path) => if path == "/dev/null"@ {
                    None
                } else {
                    Some(path)
                },
                Err(_) => None,
            },
            None => None,
        }
    }
}

/// Headers stand in pairs, and no line of a hunk stands in front of the first head of one.
pub open spec fn well_paired(lines: Seq<DiffLine>) -> bool {
    &&& forall|k: int|
        0 <= k < lines.len() && (#[trigger] lines[k]) is Old ==> k + 1 < lines.len() && lines[k + 1]
            is New
    &&& forall|k: int|
        0 <= k < lines.len() && (#[trigger] lines[k]) is New ==> k > 0 && lines[k - 1] is Old
    &&& lines.len() > 2 && lines[0] is Old && lines[2] is Hunk
}

spec fn diff_names(lines: Seq<DiffLine>, x: Seq<char>) -> bool {
    exists|k: int| 0 <= k < lines.len() && (#[trigger] lines[k]).path() == Some(x)
}

spec fn inside_diff(scan: DiffScanModel, lines: Seq<DiffLine>, i: int) -> bool {
    let met = lines.take(i);
    &&& scan.parsed.line_changes == met.filter(|line: DiffLine| line.changes()).len()
    &&& sorted::increasing(scan.parsed.paths)
    &&& scan.seen_hunk == (i > 2)
    &&& if i > 0 && lines[i - 1] is Old {
        &&& scan.old == Some(diff_path(lines[i - 1]->Old_0)->Ok_0)
        &&& forall|x: Seq<char>| #[trigger]
            scan.parsed.paths.contains(x) <==> diff_names(lines.take(i - 1), x)
    } else {
        &&& scan.old is None
        &&& forall|x: Seq<char>| #[trigger]
            scan.parsed.paths.contains(x) <==> diff_names(met, x)
    }
}

proof fn one_more_name(lines: Seq<DiffLine>, i: int, x: Seq<char>)
    requires
        0 <= i < lines.len(),
    ensures
        diff_names(lines.take(i + 1), x) <==> diff_names(lines.take(i), x) || lines[i].path()
            == Some(x),
{
    let before = lines.take(i);
    let after = lines.take(i + 1);
    if diff_names(before, x) {
        let k = choose|k: int| 0 <= k < before.len() && (#[trigger] before[k]).path() == Some(x);
        assert(after[k] == before[k]);
    }
    assert(after[i] == lines[i]);
    if diff_names(after, x) {
        let k = choose|k: int| 0 <= k < after.len() && (#[trigger] after[k]).path() == Some(x);
        if k < i {
            assert(before[k] == after[k]);
        }
    }
}

proof fn one_diff_line_is_read(scan: DiffScanModel, lines: Seq<DiffLine>, i: int)
    requires
        0 <= i < lines.len(),
        forall|k: int| 0 <= k < lines.len() ==> (#[trigger] lines[k]).good(),
        well_paired(lines),
        inside_diff(scan, lines, i),
    ensures
        scan.after(lines[i].written()) matches Ok(next) && inside_diff(next, lines, i + 1),
{
    reveal_strlit("--- ");
    reveal_strlit("+++ ");
    reveal_strlit("@@ ");
    let line = lines[i];
    let s = line.written();
    assert(line.good());
    reveal(Seq::filter);
    assert(lines.take(i + 1).drop_last() =~= lines.take(i));
    assert(lines.take(i + 1).last() == line);
    assert forall|x: Seq<char>| #[trigger] diff_names(lines.take(i + 1), x) <==> diff_names(
        lines.take(i),
        x,
    ) || line.path() == Some(x) by {
        one_more_name(lines, i, x);
    }
    match line {
        DiffLine::Old(value) => {
            begins_there("--- "@, value);
            if i > 0 && lines[i - 1] is Old {
                assert(lines[i - 1 + 1] is New);
            }
            assert(i != 2);
            if i == 1 {
                assert(lines[1] is New);
            }
            assert(lines.take(i + 1 - 1) =~= lines.take(i));
        },
        DiffLine::New(value) => {
            assert(lines[i - 1] is Old);
            begins_there("+++ "@, value);
            begins_otherwise(s, "--- "@, 0);
            let old = diff_path(lines[i - 1]->Old_0)->Ok_0;
            let new = diff_path(value)->Ok_0;
            assert(lines[i - 1].good());
            assert forall|x: Seq<char>| #[trigger] diff_names(lines.take(i), x) <==> diff_names(
                lines.take(i - 1),
                x,
            ) || lines[i - 1].path() == Some(x) by {
                one_more_name(lines, i - 1, x);
            }
            sorted::insertion_keeps_order(scan.parsed.paths, old);
            let first = if old == "/dev/null"@ {
                scan.parsed
            } else {
                scan.parsed.with_path(old)
            };
            sorted::insertion_keeps_order(first.paths, new);
            let next = scan.after(s)->Ok_0;
            assert forall|x: Seq<char>| #[trigger] next.parsed.paths.contains(x)
                <==> diff_names(lines.take(i + 1), x) by {
                assert(scan.parsed.paths.contains(x) <==> diff_names(lines.take(i - 1), x));
                assert(diff_names(lines.take(i), x) <==> diff_names(lines.take(i - 1), x)
                    || lines[i - 1].path() == Some(x));
                assert(first.paths.contains(x) <==> diff_names(lines.take(i), x));
            }
        },
        DiffLine::Hunk(rest) => {
            begins_there("@@ "@, rest);
            begins_otherwise(s, "--- "@, 0);
            begins_otherwise(s, "+++ "@, 0);
            if i > 0 && lines[i - 1] is Old {
                assert(lines[i - 1 + 1] is New);
            }
            if i == 1 {
                assert(lines[1] is New);
            }
        },
        DiffLine::Content(content) => {
            changing_lines(content);
            if i > 0 && lines[i - 1] is Old {
                assert(lines[i - 1 + 1] is New);
            }
            if i == 1 {
                assert(lines[1] is New);
            }
        },
    }
}

proof fn diff_lines_are_read_from(lines: Seq<DiffLine>, i: int, scan: DiffScanModel)
    requires
        0 <= i <= lines.len(),
        forall|k: int| 0 <= k < lines.len() ==> (#[trigger] lines[k]).good(),
        well_paired(lines),
        inside_diff(scan, lines, i),
        exists|k: int| 0 <= k < lines.len() && (#[trigger] lines[k]).path() is Some,
    ensures
        unified_from(lines.map_values(|line: DiffLine| line.written()), i, scan) matches Ok(parsed)
            && {
            &&& parsed.line_changes == lines.filter(|line: DiffLine| line.changes()).len()
            &&& forall|x: Seq<char>| #[trigger] parsed.paths.contains(x) <==> diff_names(lines, x)
        },
    decreases lines.len() - i,
{
    let all = lines.map_values(|line: DiffLine| line.written());
    if i < lines.len() {
        one_diff_line_is_read(scan, lines, i);
        assert(all[i] == lines[i].written());
        diff_lines_are_read_from(lines, i + 1, scan.after(lines[i].written())->Ok_0);
    } else {
        assert(lines.take(i) =~= lines);
        assert(!(lines[i - 1] is Old));
        let k = choose|k: int| 0 <= k < lines.len() && (#[trigger] lines[k]).path() is Some;
        let x = lines[k].path()->0;
        assert(diff_names(lines, x));
        assert(scan.parsed.paths.contains(x));
    }
}

/// A unified diff is read as what it changes: its paths are exactly those that the headers of
/// its files name, but for the null device, and its changes are the lines that are put in or
/// taken out.
pub proof fn written_diffs_are_read(patch: Seq<char>, lines: Seq<DiffLine>)
    requires
        text::lines_of(patch) == lines.map_values(|line: DiffLine| line.written()),
        forall|k: int| 0 <= k < lines.len() ==> (#[trigger] lines[k]).good(),
        well_paired(lines),
        exists|k: int| 0 <= k < lines.len() && (#[trigger] lines[k]).path() is Some,
        text::trimmed(lines[0].written()) != "*** Begin Patch"@,
    ensures
        parsed_patch(patch) matches Ok(parsed) && {
            &&& parsed.line_changes == lines.filter(|line: DiffLine| line.changes()).len()
            &&& forall|x: Seq<char>| #[trigger]
                parsed.paths.contains(x) <==> exists|k: int|
                    0 <= k < lines.len() && (#[trigger] lines[k]).path() == Some(x)
        },
{
    let begin = DiffScanModel::begin();
    assert(lines.take(0) =~= seq![]);
    assert(lines.take(0).filter(|line: DiffLine| line.changes()) =~= seq![]) by {
        reveal(Seq::filter);
    }
    diff_lines_are_read_from(lines, 0, begin);
    assert(text::lines_of(patch)[0] == lines[0].written());
    let parsed = parsed_patch(patch)->Ok_0;
    assert forall|x: Seq<char>| #[trigger] parsed.paths.contains(x) <==> exists|k: int|
        0 <= k < lines.len() && (#[trigger] lines[k]).path() == Some(x) by {
        assert(diff_names(lines, x) <==> exists|k: int|
            0 <= k < lines.len() && (#[trigger] lines[k]).path() == Some(x));
    }
}

} // verus!
