//! What a delta promises of the diff or the status that it was read from.

use vstd::prelude::*;
use crate::delta::{
    classification_of, delta_of, diff_from, entries_from, entries_in, files_in, hunk_in, marked_path,
    range_in, record_of, status_from, status_summary, summary_from, summary_of,
    ChangeKind, DeltaSummaryModel, DiffScanModel, FileBuilderModel, FileClassification,
    FileDeltaModel, Hunk, RecordModel, StatusEntryModel, StatusKind, StatusSummaryModel,
};
use crate::text;

verus! {

broadcast use vstd::string::group_string_axioms;

proof fn begins_there(front: Seq<char>, rest: Seq<char>)
    ensures
        text::begins(front + rest, front),
        text::after_prefix(front + rest, front) == Some(rest),
{
    let s = front + rest;
    assert(s.subrange(0, front.len() as int) =~= front);
    assert(s.subrange(front.len() as int, s.len() as int) =~= rest);
}

proof fn begins_otherwise(s: Seq<char>, p: Seq<char>, k: int)
    requires
        0 <= k < p.len(),
        s.len() <= k || s[k] != p[k],
    ensures
        !text::begins(s, p),
{
    if text::begins(s, p) {
        assert(s.subrange(0, p.len() as int)[k] == s[k]);
    }
}

proof fn one_more_kept<A>(items: Seq<A>, i: int, keep: spec_fn(A) -> bool)
    requires
        0 <= i < items.len(),
    ensures
        items.take(i + 1).filter(keep) == if keep(items[i]) {
            items.take(i).filter(keep).push(items[i])
        } else {
            items.take(i).filter(keep)
        },
{
    reveal(Seq::filter);
    assert(items.take(i + 1).drop_last() =~= items.take(i));
}

/// A line that begins a file.
pub open spec fn heads_file(line: Seq<char>) -> bool {
    text::begins(line, "diff --git "@)
}

/// A line that is put in.
pub open spec fn puts_in(line: Seq<char>) -> bool {
    text::begins(line, "+"@) && !text::begins(line, "+++"@)
}

/// A line that is taken out.
pub open spec fn takes_out(line: Seq<char>) -> bool {
    text::begins(line, "-"@) && !text::begins(line, "---"@)
}

spec fn counted(scan: DiffScanModel, lines: Seq<Seq<char>>) -> bool {
    let files = scan.all_files();
    &&& files.len() == lines.filter(|line: Seq<char>| heads_file(line)).len()
    &&& additions(files) == lines.filter(|line: Seq<char>| puts_in(line)).len()
    &&& deletions(files) == lines.filter(|line: Seq<char>| takes_out(line)).len()
    &&& lines.len() > 0 ==> scan.current is Some
}

/// The lines that are put in, in all the files.
pub open spec fn additions(files: Seq<FileDeltaModel>) -> nat
    decreases files.len(),
{
    if files.len() == 0 {
        0
    } else {
        additions(files.drop_last()) + files.last().additions
    }
}

/// The lines that are taken out, in all the files.
pub open spec fn deletions(files: Seq<FileDeltaModel>) -> nat
    decreases files.len(),
{
    if files.len() == 0 {
        0
    } else {
        deletions(files.drop_last()) + files.last().deletions
    }
}

proof fn lines_are_told_apart(line: Seq<char>)
    ensures
        puts_in(line) ==> line.len() > 0 && line[0] == '+' && !text::begins(line, "+++ "@),
        takes_out(line) ==> line.len() > 0 && line[0] == '-' && !text::begins(line, "--- "@),
        text::begins(line, "new file mode "@) ==> line.len() > 0 && line[0] == 'n',
        text::begins(line, "deleted file mode "@) ==> line.len() > 1 && line[0] == 'd' && line[1]
            == 'e',
        text::begins(line, "rename from "@) ==> line.len() > 7 && line[0] == 'r' && line[7] == 'f',
        text::begins(line, "rename to "@) ==> line.len() > 7 && line[0] == 'r' && line[7] == 't',
        text::begins(line, "Binary files "@) ==> line.len() > 0 && line[0] == 'B',
        text::begins(line, "GIT binary patch"@) ==> line.len() > 0 && line[0] == 'G',
        text::begins(line, "--- "@) ==> line.len() > 0 && line[0] == '-' && text::begins(
            line,
            "---"@,
        ),
        text::begins(line, "+++ "@) ==> line.len() > 0 && line[0] == '+' && text::begins(
            line,
            "+++"@,
        ),
        text::begins(line, "@@ "@) ==> line.len() > 0 && line[0] == '@',
        heads_file(line) ==> line.len() > 1 && line[0] == 'd' && line[1] == 'i',
{
    reveal_strlit("new file mode ");
    reveal_strlit("deleted file mode ");
    reveal_strlit("rename from ");
    reveal_strlit("rename to ");
    reveal_strlit("Binary files ");
    reveal_strlit("GIT binary patch");
    reveal_strlit("--- ");
    reveal_strlit("+++ ");
    reveal_strlit("---");
    reveal_strlit("+++");
    reveal_strlit("-");
    reveal_strlit("+");
    reveal_strlit("@@ ");
    reveal_strlit("diff --git ");
    if text::begins(line, "--- "@) {
        assert(line.subrange(0, 3) =~= line.subrange(0, 4).subrange(0, 3));
        assert("--- "@.subrange(0, 3) =~= "---"@);
        assert(line.subrange(0, 4)[0] == line[0]);
    }
    if text::begins(line, "+++ "@) {
        assert(line.subrange(0, 3) =~= line.subrange(0, 4).subrange(0, 3));
        assert("+++ "@.subrange(0, 3) =~= "+++"@);
        assert(line.subrange(0, 4)[0] == line[0]);
    }
    if text::begins(line, "+"@) {
        assert(line.subrange(0, 1)[0] == line[0]);
    }
    if text::begins(line, "-"@) {
        assert(line.subrange(0, 1)[0] == line[0]);
    }
    if text::begins(line, "new file mode "@) {
        assert(line.subrange(0, 14)[0] == line[0]);
    }
    if text::begins(line, "deleted file mode "@) {
        assert(line.subrange(0, 18)[0] == line[0]);
        assert(line.subrange(0, 18)[1] == line[1]);
    }
    if text::begins(line, "rename from "@) {
        assert(line.subrange(0, 12)[0] == line[0]);
        assert(line.subrange(0, 12)[7] == line[7]);
    }
    if text::begins(line, "rename to "@) {
        assert(line.subrange(0, 10)[0] == line[0]);
        assert(line.subrange(0, 10)[7] == line[7]);
    }
    if text::begins(line, "Binary files "@) {
        assert(line.subrange(0, 13)[0] == line[0]);
    }
    if text::begins(line, "GIT binary patch"@) {
        assert(line.subrange(0, 16)[0] == line[0]);
    }
    if text::begins(line, "@@ "@) {
        assert(line.subrange(0, 3)[0] == line[0]);
    }
    if heads_file(line) {
        assert(line.subrange(0, 11)[0] == line[0]);
        assert(line.subrange(0, 11)[1] == line[1]);
    }
}

proof fn one_line_counts(builder: FileBuilderModel, line: Seq<char>)
    requires
        !heads_file(line),
    ensures
        builder.after(line) matches Ok(next) ==> {
            &&& next.additions == builder.additions + if puts_in(line) {
                1nat
            } else {
                0nat
            }
            &&& next.deletions == builder.deletions + if takes_out(line) {
                1nat
            } else {
                0nat
            }
        },
{
    lines_are_told_apart(line);
}

proof fn lines_count_from(lines: Seq<Seq<char>>, i: int, scan: DiffScanModel)
    requires
        0 <= i <= lines.len(),
        i == 0 ==> lines.len() == 0 || heads_file(lines[0]),
        counted(scan, lines.take(i)),
    ensures
        diff_from(lines, i, scan) matches Ok(files) ==> {
            &&& files.len() == lines.filter(|line: Seq<char>| heads_file(line)).len()
            &&& additions(files) == lines.filter(|line: Seq<char>| puts_in(line)).len()
            &&& deletions(files) == lines.filter(|line: Seq<char>| takes_out(line)).len()
        },
    decreases lines.len() - i,
{
    if i < lines.len() {
        let line = lines[i];
        one_more_kept(lines, i, |line: Seq<char>| heads_file(line));
        one_more_kept(lines, i, |line: Seq<char>| puts_in(line));
        one_more_kept(lines, i, |line: Seq<char>| takes_out(line));
        lines_are_told_apart(line);
        if scan.after(line) is Ok {
            let next = scan.after(line)->Ok_0;
            let before = scan.all_files();
            let after = next.all_files();
            if heads_file(line) {
                assert(after.drop_last() =~= before);
            } else {
                one_line_counts(scan.current->0, line);
                assert(after.drop_last() =~= before.drop_last());
            }
            lines_count_from(lines, i + 1, next);
        }
    } else {
        assert(lines.take(i) =~= lines);
    }
}

proof fn sums_are_those_from(files: Seq<FileDeltaModel>, i: int, summary: DeltaSummaryModel)
    requires
        0 <= i <= files.len(),
        summary == summed(files.take(i)),
    ensures
        summary_from(files, i, summary) == summed(files),
    decreases files.len() - i,
{
    if i < files.len() {
        one_more_kept(files, i, |file: FileDeltaModel| file.change_kind == ChangeKind::Added);
        one_more_kept(files, i, |file: FileDeltaModel| file.change_kind == ChangeKind::Deleted);
        one_more_kept(files, i, |file: FileDeltaModel| file.change_kind == ChangeKind::Renamed);
        one_more_kept(files, i, |file: FileDeltaModel| file.is_binary);
        assert(files.take(i + 1).drop_last() =~= files.take(i));
        sums_are_those_from(files, i + 1, summary.with(files[i]));
    } else {
        assert(files.take(i) =~= files);
    }
}

/// The summary of files: how many there are, and how many of each sort.
pub open spec fn summed(files: Seq<FileDeltaModel>) -> DeltaSummaryModel {
    DeltaSummaryModel {
        files_changed: files.len(),
        files_added: files.filter(
            |file: FileDeltaModel| file.change_kind == ChangeKind::Added,
        ).len(),
        files_deleted: files.filter(
            |file: FileDeltaModel| file.change_kind == ChangeKind::Deleted,
        ).len(),
        files_renamed: files.filter(
            |file: FileDeltaModel| file.change_kind == ChangeKind::Renamed,
        ).len(),
        binary_files: files.filter(|file: FileDeltaModel| file.is_binary).len(),
        additions: additions(files),
        deletions: deletions(files),
    }
}

/// A summary counts the files, those of each sort, and the lines that are put in and taken out.
pub proof fn summaries_count_files(files: Seq<FileDeltaModel>)
    ensures
        summary_of(files) == summed(files),
{
    let none = files.take(0);
    assert(none =~= seq![]);
    assert(none.filter(|file: FileDeltaModel| file.change_kind == ChangeKind::Added) =~= seq![]
        && none.filter(|file: FileDeltaModel| file.change_kind == ChangeKind::Deleted) =~= seq![]
        && none.filter(|file: FileDeltaModel| file.change_kind == ChangeKind::Renamed) =~= seq![]
        && none.filter(|file: FileDeltaModel| file.is_binary) =~= seq![]) by {
        reveal(Seq::filter);
    }
    sums_are_those_from(files, 0, DeltaSummaryModel::zero());
}

/// Of a diff that begins with the head of a file, every head is a file, every line that is put
/// in is counted as one, and so is every line that is taken out.
pub proof fn diff_lines_are_counted(raw: Seq<u8>)
    requires
        ({
            let lines = text::lines_of(vstd::utf8::decode_utf8(raw));
            lines.len() > 0 && heads_file(lines[0])
        }),
    ensures
        delta_of(raw) matches Ok(pack) ==> {
            let lines = text::lines_of(vstd::utf8::decode_utf8(raw));
            &&& pack.summary.files_changed == lines.filter(
                |line: Seq<char>| heads_file(line),
            ).len()
            &&& pack.summary.additions == lines.filter(|line: Seq<char>| puts_in(line)).len()
            &&& pack.summary.deletions == lines.filter(|line: Seq<char>| takes_out(line)).len()
        },
{
    let lines = text::lines_of(vstd::utf8::decode_utf8(raw));
    let none = lines.take(0);
    assert(none.filter(|line: Seq<char>| heads_file(line)) =~= seq![] && none.filter(
        |line: Seq<char>| puts_in(line),
    ) =~= seq![] && none.filter(|line: Seq<char>| takes_out(line)) =~= seq![]) by {
        reveal(Seq::filter);
    }
    lines_count_from(lines, 0, DiffScanModel::begin());
    if delta_of(raw) is Ok {
        summaries_count_files(files_in(vstd::utf8::decode_utf8(raw))->Ok_0);
    }
}

/// A line that says what has become of the file.
pub open spec fn tells_kind(line: Seq<char>) -> bool {
    kind_told(line) is Some
}

/// What has become of a file by a line: it is new, it is gone, or it has another name.
pub open spec fn kind_told(line: Seq<char>) -> Option<ChangeKind> {
    if text::begins(line, "new file mode "@) || (text::begins(line, "--- "@) && marked_path(
        line.skip(4),
    ) is None) {
        Some(ChangeKind::Added)
    } else if text::begins(line, "deleted file mode "@) || (text::begins(line, "+++ "@)
        && marked_path(line.skip(4)) is None) {
        Some(ChangeKind::Deleted)
    } else if text::begins(line, "rename from "@) || text::begins(line, "rename to "@) {
        Some(ChangeKind::Renamed)
    } else {
        None
    }
}

pub open spec fn tells_binary(line: Seq<char>) -> bool {
    text::begins(line, "Binary files "@) || text::begins(line, "GIT binary patch"@)
}

pub open spec fn tells_old(line: Seq<char>) -> bool {
    text::begins(line, "rename from "@) || text::begins(line, "--- "@)
}

pub open spec fn tells_new(line: Seq<char>) -> bool {
    text::begins(line, "rename to "@) || text::begins(line, "+++ "@)
}

pub open spec fn old_told(line: Seq<char>) -> Option<Seq<char>> {
    if text::begins(line, "--- "@) {
        marked_path(line.skip(4))
    } else {
        Some(line.skip(12))
    }
}

pub open spec fn new_told(line: Seq<char>) -> Option<Seq<char>> {
    if text::begins(line, "+++ "@) {
        marked_path(line.skip(4))
    } else {
        Some(line.skip(10))
    }
}

/// A file of a diff as its lines tell: the last word on each thing counts.
pub open spec fn told(old: Seq<char>, new: Seq<char>, lines: Seq<Seq<char>>) -> FileBuilderModel {
    let kinds = lines.filter(|line: Seq<char>| tells_kind(line));
    let olds = lines.filter(|line: Seq<char>| tells_old(line));
    let news = lines.filter(|line: Seq<char>| tells_new(line));
    FileBuilderModel {
        old_path: if olds.len() == 0 {
            Some(old)
        } else {
            old_told(olds.last())
        },
        new_path: if news.len() == 0 {
            Some(new)
        } else {
            new_told(news.last())
        },
        change_kind: if kinds.len() == 0 {
            ChangeKind::Modified
        } else {
            kind_told(kinds.last())->0
        },
        is_binary: lines.filter(|line: Seq<char>| tells_binary(line)).len() > 0,
        hunks: lines.filter(|line: Seq<char>| text::begins(line, "@@ "@)).map_values(
            |line: Seq<char>| hunk_in(line)->0,
        ),
        additions: lines.filter(|line: Seq<char>| puts_in(line)).len(),
        deletions: lines.filter(|line: Seq<char>| takes_out(line)).len(),
    }
}

#[verifier::rlimit(60)]
proof fn one_line_tells(old: Seq<char>, new: Seq<char>, lines: Seq<Seq<char>>, i: int)
    requires
        0 <= i < lines.len(),
        !heads_file(lines[i]),
    ensures
        told(old, new, lines.take(i)).after(lines[i]) matches Ok(next) ==> next == told(
            old,
            new,
            lines.take(i + 1),
        ),
{
    let line = lines[i];
    let before = told(old, new, lines.take(i));
    let after = told(old, new, lines.take(i + 1));
    lines_are_told_apart(line);
    reveal_strlit("rename from ");
    reveal_strlit("rename to ");
    reveal_strlit("--- ");
    reveal_strlit("+++ ");
    one_more_kept(lines, i, |line: Seq<char>| tells_kind(line));
    one_more_kept(lines, i, |line: Seq<char>| tells_old(line));
    one_more_kept(lines, i, |line: Seq<char>| tells_new(line));
    one_more_kept(lines, i, |line: Seq<char>| tells_binary(line));
    one_more_kept(lines, i, |line: Seq<char>| text::begins(line, "@@ "@));
    one_more_kept(lines, i, |line: Seq<char>| puts_in(line));
    one_more_kept(lines, i, |line: Seq<char>| takes_out(line));
    if before.after(line) is Ok {
        let next = before.after(line)->Ok_0;
        if text::begins(line, "@@ "@) {
            assert(after.hunks =~= before.hunks.push(hunk_in(line)->0));
        } else {
            assert(after.hunks =~= before.hunks);
        }
        if text::begins(line, "rename from "@) {
            assert(line.subrange(12, line.len() as int) =~= line.skip(12));
        }
        if text::begins(line, "rename to "@) {
            assert(line.subrange(10, line.len() as int) =~= line.skip(10));
        }
        if text::begins(line, "--- "@) || text::begins(line, "+++ "@) {
            assert(line.subrange(4, line.len() as int) =~= line.skip(4));
        }
        assert(next.additions == after.additions);
        assert(next.deletions == after.deletions);
        assert(next.is_binary == after.is_binary);
        assert(next.old_path == after.old_path);
        assert(next.new_path == after.new_path);
        assert(next.change_kind == after.change_kind);
        assert(next.hunks == after.hunks);
    }
}

proof fn lines_tell_from(
    all: Seq<Seq<char>>,
    old: Seq<char>,
    new: Seq<char>,
    lines: Seq<Seq<char>>,
    i: int,
)
    requires
        0 <= i <= lines.len(),
        all.skip(1) == lines,
        all.len() == lines.len() + 1,
        forall|k: int| 0 <= k < lines.len() ==> !heads_file(#[trigger] lines[k]),
    ensures
        diff_from(
            all,
            i + 1,
            DiffScanModel { files: seq![], current: Some(told(old, new, lines.take(i))) },
        ) matches Ok(files) ==> files == seq![told(old, new, lines).finished()],
    decreases lines.len() - i,
{
    let builder = told(old, new, lines.take(i));
    let scan = DiffScanModel { files: seq![], current: Some(builder) };
    if i < lines.len() {
        one_line_tells(old, new, lines, i);
        assert(all[i + 1] == all.skip(1)[i]);
        assert(!heads_file(lines[i]));
        lines_tell_from(all, old, new, lines, i + 1);
    } else {
        assert(lines.take(i) =~= lines);
        assert(scan.all_files() =~= seq![builder.finished()]);
    }
}

/// A diff of one file is read as its lines tell. The paths are those of the head, or the last
/// that a line gives; the file is new, gone or renamed where a line says so, binary where one
/// does; and it has the hunks and the lines put in and taken out that it shows.
pub proof fn files_are_as_told(
    diff: Seq<char>,
    old: Seq<char>,
    new: Seq<char>,
    lines: Seq<Seq<char>>,
)
    requires
        text::lines_of(diff) == seq!["diff --git a/"@ + old + " b/"@ + new] + lines,
        old.len() > 0,
        new.len() > 0,
        !old.contains('"') && !new.contains('"'),
        text::found("a/"@ + old + " b/"@ + new, " b/"@) == Some(old.len() + 2int),
        forall|k: int| 0 <= k < lines.len() ==> !heads_file(#[trigger] lines[k]),
    ensures
        files_in(diff) matches Ok(files) ==> files == seq![told(old, new, lines).finished()],
{
    let all = text::lines_of(diff);
    let head = "diff --git a/"@ + old + " b/"@ + new;
    reveal_strlit("diff --git ");
    reveal_strlit("diff --git a/");
    reveal_strlit("a/");
    reveal_strlit(" b/");
    reveal_strlit("\"");
    let paths = "a/"@ + old + " b/"@ + new;
    assert(head =~= "diff --git "@ + paths);
    begins_there("diff --git "@, paths);
    assert(!text::has(paths, "\""@)) by {
        text::laws::parts_are_found(paths, "\""@);
        if text::has(paths, "\""@) {
            let k = text::found(paths, "\""@)->0;
            assert(paths.subrange(k, k + 1)[0] == paths[k]);
            assert(paths[k] == '"');
            let m = old.len() as int;
            if 2 <= k < m + 2 {
                assert(old[k - 2] == '"');
                assert(old.contains('"'));
            } else if k >= m + 5 {
                assert(new[k - m - 5] == '"');
                assert(new.contains('"'));
            }
        }
    }
    let m = old.len() + 2int;
    assert(paths.subrange(0, m) =~= "a/"@ + old);
    assert(paths.subrange(m + 3, paths.len() as int) =~= new);
    begins_there("a/"@, old);
    let none = lines.take(0);
    let begin = told(old, new, none);
    assert(none.filter(|line: Seq<char>| tells_kind(line)) =~= seq![] && none.filter(
        |line: Seq<char>| tells_old(line),
    ) =~= seq![] && none.filter(|line: Seq<char>| tells_new(line)) =~= seq![] && none.filter(
        |line: Seq<char>| tells_binary(line),
    ) =~= seq![] && none.filter(|line: Seq<char>| text::begins(line, "@@ "@)) =~= seq![]
        && none.filter(|line: Seq<char>| puts_in(line)) =~= seq![] && none.filter(
        |line: Seq<char>| takes_out(line),
    ) =~= seq![]) by {
        reveal(Seq::filter);
    }
    assert(begin.hunks =~= seq![]);
    assert(all[0] == head);
    assert(FileBuilderModel::opened(head) == Ok::<FileBuilderModel, crate::delta::DeltaErrorModel>(
        begin,
    ));
    assert(all.skip(1) =~= lines);
    assert(DiffScanModel::begin().all_files() =~= seq![]);
    lines_tell_from(all, old, new, lines, 0);
}

proof fn files_before_stay(
    before: Seq<FileDeltaModel>,
    lines: Seq<Seq<char>>,
    i: int,
    scan: DiffScanModel,
)
    requires
        0 <= i <= lines.len(),
    ensures
        diff_from(lines, i, DiffScanModel { files: before + scan.files, ..scan }) == match diff_from(
            lines,
            i,
            scan,
        ) {
            Ok(files) => Ok(before + files),
            Err(error) => Err(error),
        },
    decreases lines.len() - i,
{
    let other = DiffScanModel { files: before + scan.files, ..scan };
    assert(other.all_files() =~= before + scan.all_files());
    if i < lines.len() && scan.after(lines[i]) is Ok {
        let next = scan.after(lines[i])->Ok_0;
        files_before_stay(before, lines, i + 1, next);
        assert(other.after(lines[i])->Ok_0 == (DiffScanModel {
            files: before + next.files,
            ..next
        }));
    }
}

proof fn lines_one_later(front: Seq<Seq<char>>, lines: Seq<Seq<char>>, i: int, scan: DiffScanModel)
    requires
        0 <= i <= lines.len(),
    ensures
        diff_from(front + lines, front.len() + i, scan) == diff_from(lines, i, scan),
    decreases lines.len() - i,
{
    if i < lines.len() {
        assert((front + lines)[front.len() + i] == lines[i]);
        if scan.after(lines[i]) is Ok {
            lines_one_later(front, lines, i + 1, scan.after(lines[i])->Ok_0);
        }
    }
}

proof fn diffs_follow_from(a: Seq<Seq<char>>, b: Seq<Seq<char>>, i: int, scan: DiffScanModel)
    requires
        0 <= i <= a.len(),
        b.len() > 0,
        heads_file(b[0]),
    ensures
        diff_from(a, i, scan) is Ok && diff_from(b, 0, DiffScanModel::begin()) is Ok ==> diff_from(
            a + b,
            i,
            scan,
        ) == Ok::<Seq<FileDeltaModel>, crate::delta::DeltaErrorModel>(
            diff_from(a, i, scan)->Ok_0 + diff_from(b, 0, DiffScanModel::begin())->Ok_0,
        ),
    decreases a.len() - i,
{
    if i < a.len() {
        assert((a + b)[i] == a[i]);
        if scan.after(a[i]) is Ok {
            diffs_follow_from(a, b, i + 1, scan.after(a[i])->Ok_0);
        }
    } else if diff_from(b, 0, DiffScanModel::begin()) is Ok {
        lines_one_later(a, b, 0, scan);
        let files = scan.all_files();
        let begin = DiffScanModel::begin();
        let first = begin.after(b[0])->Ok_0;
        assert(begin.all_files() =~= seq![]);
        assert(first.files =~= seq![]);
        files_before_stay(files, b, 1, first);
        assert(files + first.files =~= files);
        assert(scan.after(b[0])->Ok_0 == (DiffScanModel { files: files + first.files, ..first }));
    }
}

/// A diff of several files is read as the diffs of the files, one behind the other: what is said
/// of one file has no effect on another.
pub proof fn diffs_follow_each_other(a: Seq<Seq<char>>, b: Seq<Seq<char>>)
    requires
        b.len() > 0,
        heads_file(b[0]),
        diff_from(a, 0, DiffScanModel::begin()) is Ok,
        diff_from(b, 0, DiffScanModel::begin()) is Ok,
    ensures
        diff_from(a + b, 0, DiffScanModel::begin()) == Ok::<
            Seq<FileDeltaModel>,
            crate::delta::DeltaErrorModel,
        >(
            diff_from(a, 0, DiffScanModel::begin())->Ok_0 + diff_from(
                b,
                0,
                DiffScanModel::begin(),
            )->Ok_0,
        ),
{
    diffs_follow_from(a, b, 0, DiffScanModel::begin());
}

/// A range of lines: where it starts and how many there are.
pub open spec fn range(start: u64, count: u64) -> Seq<char> {
    text::decimal(start as nat) + seq![','] + text::decimal(count as nat)
}

proof fn ranges_are_read(mark: Seq<char>, start: u64, count: u64)
    ensures
        range_in(mark + range(start, count), mark) == Some((start, count)),
        range_in(mark + text::decimal(start as nat), mark) == Some((start, 1u64)),
{
    reveal_strlit(",");
    let s = text::decimal(start as nat);
    let c = text::decimal(count as nat);
    text::laws::written_numbers_are_read(start as nat);
    text::laws::written_numbers_are_read(count as nat);
    assert(!s.contains(',')) by {
        if s.contains(',') {
            assert(text::ascii_digit(s[s.index_of(',')]));
        }
    }
    begins_there(mark, range(start, count));
    begins_there(mark, s);
    assert(","@ =~= seq![',']);
    text::laws::first_pieces_are_cut(s, c, ',');
    text::laws::parts_are_found(s, ","@);
    if text::has(s, ","@) {
        let k = text::found(s, ","@)->0;
        assert(s.subrange(k, k + 1)[0] == s[k]);
        assert(s.contains(','));
    }
}

proof fn range_is_one_word(mark: char, start: u64, count: u64)
    requires
        mark == '-' || mark == '+',
    ensures
        forall|k: int|
            0 <= k < (seq![mark] + range(start, count)).len() ==> !text::white_space(
                #[trigger] (seq![mark] + range(start, count))[k],
            ) && (seq![mark] + range(start, count))[k] != '@',
{
    let s = text::decimal(start as nat);
    let c = text::decimal(count as nat);
    text::laws::written_numbers_are_read(start as nat);
    text::laws::written_numbers_are_read(count as nat);
    let word = seq![mark] + range(start, count);
    assert forall|k: int| 0 <= k < word.len() implies !text::white_space(#[trigger] word[k])
        && word[k] != '@' by {
        if k == 0 {
        } else if k <= s.len() {
            assert(word[k] == s[k - 1]);
            assert(text::ascii_digit(s[k - 1]));
        } else if k > s.len() + 1 {
            assert(word[k] == c[k - s.len() - 2]);
            assert(text::ascii_digit(c[k - s.len() - 2]));
        }
    }
}

/// The head of a hunk is read as the two ranges that it gives.
pub proof fn hunks_are_read(hunk: Hunk, rest: Seq<char>)
    ensures
        hunk_in(
            "@@ -"@ + range(hunk.old_start, hunk.old_lines) + " +"@ + range(
                hunk.new_start,
                hunk.new_lines,
            ) + " @@"@ + rest,
        ) == Some(hunk),
{
    reveal_strlit("@@ -");
    reveal_strlit("@@ ");
    reveal_strlit(" +");
    reveal_strlit(" @@");
    reveal_strlit("-");
    reveal_strlit("+");
    let a = seq!['-'] + range(hunk.old_start, hunk.old_lines);
    let b = seq!['+'] + range(hunk.new_start, hunk.new_lines);
    let line = "@@ -"@ + range(hunk.old_start, hunk.old_lines) + " +"@ + range(
        hunk.new_start,
        hunk.new_lines,
    ) + " @@"@ + rest;
    let ranges = a + seq![' '] + b;
    let inner = ranges + " @@"@ + rest;
    assert(line =~= "@@ "@ + inner);
    begins_there("@@ "@, inner);
    range_is_one_word('-', hunk.old_start, hunk.old_lines);
    range_is_one_word('+', hunk.new_start, hunk.new_lines);
    let n = ranges.len() as int;
    text::laws::parts_are_found(inner, " @@"@);
    assert(inner.subrange(n, n + 3) =~= " @@"@);
    assert(text::occurs_at(inner, " @@"@, n));
    assert forall|j: int| 0 <= j < n implies !text::occurs_at(inner, " @@"@, j) by {
        if text::occurs_at(inner, " @@"@, j) {
            assert(inner.subrange(j, j + 3)[0] == inner[j]);
            assert(inner.subrange(j, j + 3)[1] == inner[j + 1]);
            if j < a.len() {
                assert(inner[j] == a[j]);
            } else if j == a.len() {
                assert(inner[j + 1] == b[0]);
            } else {
                assert(inner[j] == b[j - a.len() - 1]);
            }
        }
    }
    assert(text::found(inner, " @@"@) == Some(n));
    assert(inner.subrange(0, n) =~= ranges);
    text::laws::words_are_read(a, ' ', b);
    text::laws::words_are_read(b, ' ', b);
    assert(text::words_of(ranges) =~= seq![a, b]);
    assert("-"@ =~= seq!['-']);
    assert("+"@ =~= seq!['+']);
    ranges_are_read("-"@, hunk.old_start, hunk.old_lines);
    ranges_are_read("+"@, hunk.new_start, hunk.new_lines);
}

/// What a letter of a status means.
pub open spec fn meaning(code: char, kind: Option<StatusKind>) -> bool {
    &&& code == '.' ==> kind is None
    &&& code == 'A' ==> kind == Some(StatusKind::Added)
    &&& code == 'M' ==> kind == Some(StatusKind::Modified)
    &&& code == 'D' ==> kind == Some(StatusKind::Deleted)
    &&& code == 'R' ==> kind == Some(StatusKind::Renamed)
    &&& code == 'C' ==> kind == Some(StatusKind::Copied)
    &&& code == 'T' ==> kind == Some(StatusKind::TypeChanged)
    &&& code == 'U' ==> kind == Some(StatusKind::Unmerged)
}

/// A record of a changed file gives its path and what its two letters mean: the first of the
/// index and the second of the worktree. One of a renamed file gives the old path too, and takes
/// the record behind it; one of a conflict is unmerged on both sides; and one of a file that is
/// not tracked gives its path.
pub proof fn status_records_are_read(
    fields: Seq<Seq<char>>,
    x: char,
    y: char,
    path: Seq<char>,
    original: Seq<char>,
    following: Option<Seq<char>>,
)
    requires
        forall|k: int| 0 <= k < fields.len() ==> !(#[trigger] fields[k]).contains(' '),
        x != ' ' && y != ' ',
        original.len() > 0,
    ensures
        fields.len() == 6 ==> (record_of(
            text::joined(seq!["1"@, seq![x, y]] + fields + seq![path], seq![' ']),
            following,
        ) matches RecordModel::Entry(entry, taken) && taken == 1 && entry.path == path
            && entry.original_path is None && meaning(x, entry.index_status) && meaning(
            y,
            entry.worktree_status,
        ) && !entry.untracked && entry.classification == classification_of(path)),
        fields.len() == 7 ==> (record_of(
            text::joined(seq!["2"@, seq![x, y]] + fields + seq![path], seq![' ']),
            Some(original),
        ) matches RecordModel::Entry(entry, taken) && taken == 2 && entry.path == path
            && entry.original_path == Some(original) && meaning(x, entry.index_status) && meaning(
            y,
            entry.worktree_status,
        ) && !entry.untracked),
        fields.len() == 8 ==> (record_of(
            text::joined(seq!["u"@, seq![x, y]] + fields + seq![path], seq![' ']),
            following,
        ) matches RecordModel::Entry(entry, taken) && taken == 1 && entry.path == path
            && entry.index_status == Some(StatusKind::Unmerged) && entry.worktree_status == Some(
            StatusKind::Unmerged,
        ) && !entry.untracked),
        record_of("? "@ + path, following) matches RecordModel::Entry(entry, taken) && taken == 1
            && entry.path == path && entry.untracked && entry.index_status is None
            && entry.worktree_status is None,
{
    reveal_strlit("1");
    reveal_strlit("2");
    reveal_strlit("u");
    reveal_strlit("? ");
    begins_there("? "@, path);
    if fields.len() == 6 {
        status_fields_are_read("1"@, fields, x, y, path);
    }
    if fields.len() == 7 {
        status_fields_are_read("2"@, fields, x, y, path);
    }
    if fields.len() == 8 {
        status_fields_are_read("u"@, fields, x, y, path);
    }
}

proof fn status_fields_are_read(
    first: Seq<char>,
    fields: Seq<Seq<char>>,
    x: char,
    y: char,
    path: Seq<char>,
)
    requires
        first.len() == 1,
        first[0] == '1' || first[0] == '2' || first[0] == 'u',
        forall|k: int| 0 <= k < fields.len() ==> !(#[trigger] fields[k]).contains(' '),
        x != ' ' && y != ' ',
    ensures
        ({
            let all = seq![first, seq![x, y]] + fields + seq![path];
            let record = text::joined(all, seq![' ']);
            &&& text::pieces_upto(record, ' ', fields.len() + 3int) == all
            &&& record.len() > 0
            &&& text::begins(record, "1 "@) == (first[0] == '1')
            &&& text::begins(record, "2 "@) == (first[0] == '2')
            &&& text::begins(record, "u "@) == (first[0] == 'u')
            &&& !text::begins(record, "? "@)
        }),
{
    reveal_strlit("1 ");
    reveal_strlit("2 ");
    reveal_strlit("u ");
    reveal_strlit("? ");
    let all = seq![first, seq![x, y]] + fields + seq![path];
    let record = text::joined(all, seq![' ']);
    assert forall|k: int| 0 <= k < all.len() - 1 implies !(#[trigger] all[k]).contains(' ') by {
        if k >= 2 {
            assert(all[k] == fields[k - 2]);
        }
    }
    text::laws::fields_are_read(all, ' ');
    let rest = all.skip(1);
    assert(all =~= seq![first] + rest);
    text::laws::joined_in_front(first, rest, seq![' ']);
    assert(record[0] == first[0]);
    assert(record[1] == ' ');
    begins_otherwise(record, "? "@, 0);
    if first[0] == '1' {
        assert(record.subrange(0, 2) =~= "1 "@);
    } else {
        begins_otherwise(record, "1 "@, 0);
    }
    if first[0] == '2' {
        assert(record.subrange(0, 2) =~= "2 "@);
    } else {
        begins_otherwise(record, "2 "@, 0);
    }
    if first[0] == 'u' {
        assert(record.subrange(0, 2) =~= "u "@);
    } else {
        begins_otherwise(record, "u "@, 0);
    }
}

/// A file in the records of a status: one record, or two where it was renamed.
pub enum StatusRecord {
    Plain(Seq<char>),
    Renamed(Seq<char>, Seq<char>),
}

pub open spec fn record_texts(records: Seq<StatusRecord>, i: int) -> Seq<Seq<char>>
    decreases records.len() - i,
{
    if i < 0 || i >= records.len() {
        seq![]
    } else {
        (match records[i] {
            StatusRecord::Plain(record) => seq![record],
            StatusRecord::Renamed(record, original) => seq![record, original],
        }) + record_texts(records, i + 1)
    }
}

/// The entry of a file: what its record means, with the old path where it was renamed.
pub open spec fn entry_at(record: StatusRecord, entry: StatusEntryModel) -> bool {
    match record {
        StatusRecord::Plain(record) => forall|following: Option<Seq<char>>|
            #[trigger] record_of(record, following) == RecordModel::Entry(entry, 1),
        StatusRecord::Renamed(record, original) => record_of(record, Some(original))
            == RecordModel::Entry(entry, 2),
    }
}

proof fn entries_are_read_from(
    texts: Seq<Seq<char>>,
    p: int,
    records: Seq<StatusRecord>,
    entries: Seq<StatusEntryModel>,
    i: int,
)
    requires
        0 <= i <= records.len(),
        entries.len() == records.len(),
        0 <= p <= texts.len(),
        texts.skip(p) == record_texts(records, i),
        forall|k: int| 0 <= k < records.len() ==> entry_at(records[k], #[trigger] entries[k]),
    ensures
        entries_from(texts, p, entries.take(i)) == Ok::<
            Seq<StatusEntryModel>,
            crate::delta::DeltaErrorModel,
        >(entries),
    decreases records.len() - i,
{
    let left = texts.skip(p);
    assert forall|k: int| 0 <= k < left.len() implies #[trigger] left[k] == texts[p + k] by {}
    if i < records.len() {
        assert(entry_at(records[i], entries[i]));
        assert(entries.take(i).push(entries[i]) =~= entries.take(i + 1));
        match records[i] {
            StatusRecord::Plain(record) => {
                assert(left[0] == record);
                assert(texts[p] == record);
                let following = crate::delta::following_of(texts, p);
                assert(record_of(record, following) == RecordModel::Entry(entries[i], 1));
                assert(texts.skip(p + 1) =~= left.skip(1));
                assert(left.skip(1) =~= record_texts(records, i + 1));
                entries_are_read_from(texts, p + 1, records, entries, i + 1);
            },
            StatusRecord::Renamed(record, original) => {
                assert(left[0] == record && left[1] == original);
                assert(texts[p] == record && texts[p + 1] == original);
                assert(texts.skip(p + 2) =~= left.skip(2));
                assert(left.skip(2) =~= record_texts(records, i + 1));
                entries_are_read_from(texts, p + 2, records, entries, i + 1);
            },
        }
    } else {
        assert(left.len() == 0);
        assert(entries.take(i) =~= entries);
    }
}

/// A status is read record by record: each file is one entry, in their order, and a file that
/// was renamed takes its old path from the record behind its own.
pub proof fn statuses_are_read_in_order(
    status: Seq<char>,
    records: Seq<StatusRecord>,
    entries: Seq<StatusEntryModel>,
)
    requires
        text::pieces(status, '\0') == record_texts(records, 0),
        entries.len() == records.len(),
        forall|k: int| 0 <= k < records.len() ==> entry_at(records[k], #[trigger] entries[k]),
    ensures
        entries_in(status) == Ok::<Seq<StatusEntryModel>, crate::delta::DeltaErrorModel>(entries),
{
    let texts = text::pieces(status, '\0');
    assert(texts.skip(0) =~= texts);
    assert(entries.take(0) =~= seq![]);
    entries_are_read_from(texts, 0, records, entries, 0);
}

/// The summary of the entries of a status: how many there are, and how many of each sort.
pub open spec fn status_summed(entries: Seq<StatusEntryModel>) -> StatusSummaryModel {
    StatusSummaryModel {
        files_changed: entries.len(),
        staged: entries.filter(|entry: StatusEntryModel| entry.index_status is Some).len(),
        unstaged: entries.filter(|entry: StatusEntryModel| entry.worktree_status is Some).len(),
        untracked: entries.filter(|entry: StatusEntryModel| entry.untracked).len(),
        conflicts: entries.filter(
            |entry: StatusEntryModel|
                entry.index_status == Some(StatusKind::Unmerged) || entry.worktree_status == Some(
                    StatusKind::Unmerged,
                ),
        ).len(),
    }
}

proof fn status_sums_from(entries: Seq<StatusEntryModel>, i: int, summary: StatusSummaryModel)
    requires
        0 <= i <= entries.len(),
        summary == status_summed(entries.take(i)),
    ensures
        status_from(entries, i, summary) == status_summed(entries),
    decreases entries.len() - i,
{
    if i < entries.len() {
        one_more_kept(entries, i, |entry: StatusEntryModel| entry.index_status is Some);
        one_more_kept(entries, i, |entry: StatusEntryModel| entry.worktree_status is Some);
        one_more_kept(entries, i, |entry: StatusEntryModel| entry.untracked);
        one_more_kept(
            entries,
            i,
            |entry: StatusEntryModel|
                entry.index_status == Some(StatusKind::Unmerged) || entry.worktree_status == Some(
                    StatusKind::Unmerged,
                ),
        );
        status_sums_from(entries, i + 1, summary.with(entries[i]));
    } else {
        assert(entries.take(i) =~= entries);
    }
}

/// The summary of a status counts the entries that are staged, those that are not, those that
/// are not tracked and those in conflict.
pub proof fn summaries_count_entries(entries: Seq<StatusEntryModel>)
    ensures
        status_summary(entries) == status_summed(entries),
{
    let none = entries.take(0);
    assert(none.filter(|entry: StatusEntryModel| entry.index_status is Some) =~= seq![]
        && none.filter(|entry: StatusEntryModel| entry.worktree_status is Some) =~= seq![]
        && none.filter(|entry: StatusEntryModel| entry.untracked) =~= seq![] && none.filter(
        |entry: StatusEntryModel|
            entry.index_status == Some(StatusKind::Unmerged) || entry.worktree_status == Some(
                StatusKind::Unmerged,
            ),
    ) =~= seq![]) by {
        reveal(Seq::filter);
    }
    status_sums_from(entries, 0, StatusSummaryModel::zero());
}

proof fn names_are_behind_directories(directory: Seq<char>, name: Seq<char>)
    requires
        !name.contains('/') && !name.contains('\\'),
    ensures
        text::base_name(text::lowered(text::slashed(directory + seq!['/'] + name)))
            == text::lowered(name),
{
    let path = directory + seq!['/'] + name;
    let lower = text::lowered(text::slashed(path));
    let base = text::lowered(name);
    let front = text::lowered(text::slashed(directory));
    assert forall|k: int| 0 <= k < name.len() implies name[k] != '\\' && name[k] != '/' by {
        assert(name.contains(name[k]));
    }
    assert(!base.contains('/')) by {
        if base.contains('/') {
            let k = base.index_of('/');
            text::laws::capitals_are_lowered(name, k);
        }
    }
    assert(lower =~= front + seq!['/'] + base);
    text::laws::last_pieces_are_cut(front, base, '/');
}

/// A file that is known by its name alone: a manifest or a lockfile.
pub open spec fn known_name(base: Seq<char>) -> Option<FileClassification> {
    if base == "cargo.toml"@ || base == "package.json"@ || base == "pyproject.toml"@ || base
        == "go.mod"@ || base == "build.gradle"@ || base == "pom.xml"@ {
        Some(FileClassification::Manifest)
    } else if text::finishes(base, ".lock"@) || base == "package-lock.json"@ {
        Some(FileClassification::Lockfile)
    } else {
        None
    }
}

/// A place in which files are made.
pub open spec fn made_place(lower: Seq<char>) -> bool {
    text::has(lower, "/generated/"@) || text::begins(lower, "generated/"@) || text::has(
        lower,
        "/target/"@,
    ) || text::has(lower, "/dist/"@)
}

/// A place or a name of tests.
pub open spec fn test_place(lower: Seq<char>, base: Seq<char>) -> bool {
    text::has(lower, "/tests/"@) || text::begins(lower, "tests/"@) || text::finishes(
        base,
        "_test.rs"@,
    ) || text::finishes(base, ".test.ts"@) || text::finishes(base, ".spec.ts"@)
}

/// A file below a directory is classified by its name first: manifests, then lockfiles. Then
/// the place counts: files that are made, then tests.
pub proof fn files_are_classified(directory: Seq<char>, name: Seq<char>)
    requires
        !name.contains('/') && !name.contains('\\'),
    ensures
        ({
            let path = directory + seq!['/'] + name;
            let lower = text::lowered(text::slashed(path));
            let base = text::lowered(name);
            let class = classification_of(path);
            &&& known_name(base) is Some ==> class == known_name(base)->0
            &&& known_name(base) is None && made_place(lower) ==> class
                == FileClassification::Generated
            &&& known_name(base) is None && !made_place(lower) && test_place(lower, base) ==> class
                == FileClassification::Test
        }),
{
    reveal_strlit("cargo.lock");
    reveal_strlit(".lock");
    names_are_behind_directories(directory, name);
    let base = text::lowered(name);
    if base == "cargo.lock"@ {
        assert(base.subrange(base.len() - 5, base.len() as int) =~= ".lock"@);
    }
}

/// Of the other files, the end of the name tells sources and documents from the rest.
pub proof fn files_are_classified_by_their_ends(
    directory: Seq<char>,
    name: Seq<char>,
    stem: Seq<char>,
    end: Seq<char>,
)
    requires
        !name.contains('/') && !name.contains('\\'),
        text::lowered(name) == stem + seq!['.'] + end,
        !end.contains('.'),
        known_name(text::lowered(name)) is None,
        !made_place(text::lowered(text::slashed(directory + seq!['/'] + name))),
        !test_place(
            text::lowered(text::slashed(directory + seq!['/'] + name)),
            text::lowered(name),
        ),
    ensures
        ({
            let class = classification_of(directory + seq!['/'] + name);
            let source = end == "rs"@ || end == "go"@ || end == "py"@ || end == "js"@ || end == "ts"@
                || end == "tsx"@ || end == "java"@ || end == "kt"@ || end == "c"@ || end == "cc"@
                || end == "cpp"@ || end == "h"@ || end == "hpp"@;
            let document = end == "md"@ || end == "rst"@ || end == "txt"@ || end == "adoc"@;
            &&& source ==> class == FileClassification::Source
            &&& !source && document ==> class == FileClassification::Documentation
            &&& !source && !document ==> class == FileClassification::Other
        }),
{
    reveal_strlit("cargo.lock");
    reveal_strlit(".lock");
    reveal_strlit(".");
    names_are_behind_directories(directory, name);
    let base = text::lowered(name);
    if base == "cargo.lock"@ {
        assert(base.subrange(base.len() - 5, base.len() as int) =~= ".lock"@);
    }
    assert("."@ =~= seq!['.']);
    text::laws::last_pieces_are_cut(stem, end, '.');
}

} // verus!
