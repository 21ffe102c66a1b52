//! Questions to an index.

pub mod laws;

use vstd::prelude::*;
use crate::list;
use crate::list::Duplicate;
use crate::repository_map::{
    FileFact, FileFactModel, ImportMatch, ImportMatchModel, ReferenceMatch, ReferenceMatchModel,
    RepositoryMapIndex, RustFileFacts, RustFileFactsModel, RustParseStatus, RustParseStatusModel,
    SymbolMatch, SymbolMatchModel, TestFact, TestFactModel, TestMatch, TestMatchModel,
};
use crate::text;

verus! {

broadcast use vstd::string::group_string_axioms;

/// The facts of a file that was read as Rust.
pub open spec fn facts_in(status: RustParseStatusModel) -> Option<RustFileFactsModel> {
    match status {
        RustParseStatusModel::Parsed { facts } => Some(facts),
        _ => None,
    }
}

/// The last name of a path of names.
pub open spec fn last_name(path: Seq<char>) -> Seq<char> {
    match text::cut_last(path, "::"@) {
        Some((_, name)) => name,
        None => path,
    }
}

/// Some reference from `i` on is the symbol, or ends with the symbol's last name.
pub open spec fn refers_from(references: Seq<Seq<char>>, symbol: Seq<char>, i: int) -> bool
    decreases references.len() - i,
{
    if i < 0 || i >= references.len() {
        false
    } else {
        references[i] == symbol || last_name(references[i]) == last_name(symbol) || refers_from(
            references,
            symbol,
            i + 1,
        )
    }
}

/// The test refers to the symbol.
pub open spec fn refers(test: TestFactModel, symbol: Seq<char>) -> bool {
    refers_from(test.references, symbol, 0)
}

fn parsed(status: &RustParseStatus) -> (r: Option<&RustFileFacts>)
    ensures
        match r {
            Some(facts) => facts_in(status.deep_view()) == Some(facts.deep_view()),
            None => facts_in(status.deep_view()) is None,
        },
{
    match status {
        RustParseStatus::Parsed { facts } => Some(facts),
        _ => None,
    }
}

fn last_name_of(path: &str) -> (r: Vec<char>)
    ensures
        r@ == last_name(path@),
{
    let chars = text::to_chars(path);
    match text::split_once_last(chars.as_slice(), "::") {
        Some((_, name)) => {
            let name = text::to_text(name);
            text::to_chars(name.as_str())
        },
        None => chars,
    }
}

fn is_about(test: &TestFact, symbol: &str) -> (r: bool)
    ensures
        r == refers(test.deep_view(), symbol@),
{
    let ghost all = test.references.deep_view();
    let wanted = last_name_of(symbol);
    let mut i: usize = 0;
    while i < test.references.len()
        invariant
            i <= test.references@.len(),
            all == test.references.deep_view(),
            wanted@ == last_name(symbol@),
            refers_from(all, symbol@, 0) == refers_from(all, symbol@, i as int),
        decreases test.references@.len() - i,
    {
        assert(all[i as int] == test.references@[i as int]@);
        let reference = test.references[i].as_str();
        if text::same_text(reference, symbol) || text::same(
            last_name_of(reference).as_slice(),
            wanted.as_slice(),
        ) {
            return true;
        }
        i += 1;
    }
    false
}

/// The definitions from `i` on in the facts of a file that have the given name.
pub open spec fn symbols_in(
    file: Seq<char>,
    facts: RustFileFactsModel,
    name: Seq<char>,
    i: int,
) -> Seq<SymbolMatchModel>
    decreases facts.definitions.len() - i,
{
    if i < 0 || i >= facts.definitions.len() {
        seq![]
    } else if facts.definitions[i].name == name {
        seq![SymbolMatchModel { file, definition: facts.definitions[i] }] + symbols_in(file, facts, name, i + 1)
    } else {
        symbols_in(file, facts, name, i + 1)
    }
}

/// The definitions in the files from `i` on that have the given name.
pub open spec fn symbols_from(files: Seq<FileFactModel>, name: Seq<char>, i: int) -> Seq<SymbolMatchModel>
    decreases files.len() - i,
{
    if i < 0 || i >= files.len() {
        seq![]
    } else {
        (match facts_in(files[i].rust) {
            Some(facts) => symbols_in(files[i].path, facts, name, 0),
            None => seq![],
        }) + symbols_from(files, name, i + 1)
    }
}

fn symbols_of_file(file: &FileFact, facts: &RustFileFacts, name: &str, out: &mut Vec<SymbolMatch>)
    ensures
        final(out).deep_view() == old(out).deep_view() + symbols_in(
            file.path@,
            facts.deep_view(),
            name@,
            0,
        ),
{
    let ghost before = out.deep_view();
    let ghost all = facts.deep_view();
    let mut i: usize = 0;
    while i < facts.definitions.len()
        invariant
            i <= facts.definitions@.len(),
            all == facts.deep_view(),
            before + symbols_in(file.path@, all, name@, 0) =~= out.deep_view() + symbols_in(
                file.path@,
                all,
                name@,
                i as int,
            ),
        decreases facts.definitions@.len() - i,
    {
        assert(all.definitions[i as int] == facts.definitions@[i as int].deep_view());
        if text::same_text(facts.definitions[i].name.as_str(), name) {
            list::push(
                out,
                SymbolMatch { file: text::copy(file.path.as_str()), definition: facts.definitions[i].duplicate() },
            );
        }
        i += 1;
    }
}

/// The definitions that have the given name, in the order of the files.
pub fn find_symbols(index: &RepositoryMapIndex, name: &str) -> (r: Vec<SymbolMatch>)
    ensures
        r.deep_view() == symbols_from(index.deep_view().files, name@, 0),
{
    let ghost all = index.files.deep_view();
    let mut out: Vec<SymbolMatch> = Vec::new();
    let mut i: usize = 0;
    while i < index.files.len()
        invariant
            i <= index.files@.len(),
            all == index.files.deep_view(),
            symbols_from(all, name@, 0) =~= out.deep_view() + symbols_from(all, name@, i as int),
        decreases index.files@.len() - i,
    {
        assert(all[i as int] == index.files@[i as int].deep_view());
        if let Some(facts) = parsed(&index.files[i].rust) {
            symbols_of_file(&index.files[i], facts, name, &mut out);
        }
        i += 1;
    }
    assert(out.deep_view() =~= symbols_from(all, name@, 0));
    out
}

/// The imports from `i` on in the facts of a file that have the given path.
pub open spec fn imports_in(
    file: Seq<char>,
    facts: RustFileFactsModel,
    path: Seq<char>,
    i: int,
) -> Seq<ImportMatchModel>
    decreases facts.imports.len() - i,
{
    if i < 0 || i >= facts.imports.len() {
        seq![]
    } else if facts.imports[i].path == path {
        seq![ImportMatchModel { file, import: facts.imports[i] }] + imports_in(file, facts, path, i + 1)
    } else {
        imports_in(file, facts, path, i + 1)
    }
}

/// The imports in the files from `i` on that have the given path.
pub open spec fn imports_from(files: Seq<FileFactModel>, path: Seq<char>, i: int) -> Seq<ImportMatchModel>
    decreases files.len() - i,
{
    if i < 0 || i >= files.len() {
        seq![]
    } else {
        (match facts_in(files[i].rust) {
            Some(facts) => imports_in(files[i].path, facts, path, 0),
            None => seq![],
        }) + imports_from(files, path, i + 1)
    }
}

fn imports_of_file(file: &FileFact, facts: &RustFileFacts, path: &str, out: &mut Vec<ImportMatch>)
    ensures
        final(out).deep_view() == old(out).deep_view() + imports_in(
            file.path@,
            facts.deep_view(),
            path@,
            0,
        ),
{
    let ghost before = out.deep_view();
    let ghost all = facts.deep_view();
    let mut i: usize = 0;
    while i < facts.imports.len()
        invariant
            i <= facts.imports@.len(),
            all == facts.deep_view(),
            before + imports_in(file.path@, all, path@, 0) =~= out.deep_view() + imports_in(
                file.path@,
                all,
                path@,
                i as int,
            ),
        decreases facts.imports@.len() - i,
    {
        assert(all.imports[i as int] == facts.imports@[i as int].deep_view());
        if text::same_text(facts.imports[i].path.as_str(), path) {
            list::push(
                out,
                ImportMatch { file: text::copy(file.path.as_str()), import: facts.imports[i].duplicate() },
            );
        }
        i += 1;
    }
}

/// The imports that have the given path, in the order of the files.
pub fn find_imports(index: &RepositoryMapIndex, path: &str) -> (r: Vec<ImportMatch>)
    ensures
        r.deep_view() == imports_from(index.deep_view().files, path@, 0),
{
    let ghost all = index.files.deep_view();
    let mut out: Vec<ImportMatch> = Vec::new();
    let mut i: usize = 0;
    while i < index.files.len()
        invariant
            i <= index.files@.len(),
            all == index.files.deep_view(),
            imports_from(all, path@, 0) =~= out.deep_view() + imports_from(all, path@, i as int),
        decreases index.files@.len() - i,
    {
        assert(all[i as int] == index.files@[i as int].deep_view());
        if let Some(facts) = parsed(&index.files[i].rust) {
            imports_of_file(&index.files[i], facts, path, &mut out);
        }
        i += 1;
    }
    assert(out.deep_view() =~= imports_from(all, path@, 0));
    out
}

/// The references from `i` on in the facts of a file that have the given path.
pub open spec fn references_in(
    file: Seq<char>,
    facts: RustFileFactsModel,
    path: Seq<char>,
    i: int,
) -> Seq<ReferenceMatchModel>
    decreases facts.references.len() - i,
{
    if i < 0 || i >= facts.references.len() {
        seq![]
    } else if facts.references[i].path == path {
        seq![ReferenceMatchModel { file, reference: facts.references[i] }] + references_in(file, facts, path, i + 1)
    } else {
        references_in(file, facts, path, i + 1)
    }
}

/// The references in the files from `i` on that have the given path.
pub open spec fn references_from(files: Seq<FileFactModel>, path: Seq<char>, i: int) -> Seq<ReferenceMatchModel>
    decreases files.len() - i,
{
    if i < 0 || i >= files.len() {
        seq![]
    } else {
        (match facts_in(files[i].rust) {
            Some(facts) => references_in(files[i].path, facts, path, 0),
            None => seq![],
        }) + references_from(files, path, i + 1)
    }
}

fn references_of_file(file: &FileFact, facts: &RustFileFacts, path: &str, out: &mut Vec<ReferenceMatch>)
    ensures
        final(out).deep_view() == old(out).deep_view() + references_in(
            file.path@,
            facts.deep_view(),
            path@,
            0,
        ),
{
    let ghost before = out.deep_view();
    let ghost all = facts.deep_view();
    let mut i: usize = 0;
    while i < facts.references.len()
        invariant
            i <= facts.references@.len(),
            all == facts.deep_view(),
            before + references_in(file.path@, all, path@, 0) =~= out.deep_view() + references_in(
                file.path@,
                all,
                path@,
                i as int,
            ),
        decreases facts.references@.len() - i,
    {
        assert(all.references[i as int] == facts.references@[i as int].deep_view());
        if text::same_text(facts.references[i].path.as_str(), path) {
            list::push(
                out,
                ReferenceMatch { file: text::copy(file.path.as_str()), reference: facts.references[i].duplicate() },
            );
        }
        i += 1;
    }
}

/// The references that have the given path, in the order of the files.
pub fn find_references(index: &RepositoryMapIndex, path: &str) -> (r: Vec<ReferenceMatch>)
    ensures
        r.deep_view() == references_from(index.deep_view().files, path@, 0),
{
    let ghost all = index.files.deep_view();
    let mut out: Vec<ReferenceMatch> = Vec::new();
    let mut i: usize = 0;
    while i < index.files.len()
        invariant
            i <= index.files@.len(),
            all == index.files.deep_view(),
            references_from(all, path@, 0) =~= out.deep_view() + references_from(all, path@, i as int),
        decreases index.files@.len() - i,
    {
        assert(all[i as int] == index.files@[i as int].deep_view());
        if let Some(facts) = parsed(&index.files[i].rust) {
            references_of_file(&index.files[i], facts, path, &mut out);
        }
        i += 1;
    }
    assert(out.deep_view() =~= references_from(all, path@, 0));
    out
}

/// The tests from `i` on in the facts of a file that have the given name.
pub open spec fn tests_in(
    file: Seq<char>,
    facts: RustFileFactsModel,
    name: Seq<char>,
    i: int,
) -> Seq<TestMatchModel>
    decreases facts.tests.len() - i,
{
    if i < 0 || i >= facts.tests.len() {
        seq![]
    } else if facts.tests[i].name == name {
        seq![TestMatchModel { file, test: facts.tests[i] }] + tests_in(file, facts, name, i + 1)
    } else {
        tests_in(file, facts, name, i + 1)
    }
}

/// The tests in the files from `i` on that have the given name.
pub open spec fn tests_from(files: Seq<FileFactModel>, name: Seq<char>, i: int) -> Seq<TestMatchModel>
    decreases files.len() - i,
{
    if i < 0 || i >= files.len() {
        seq![]
    } else {
        (match facts_in(files[i].rust) {
            Some(facts) => tests_in(files[i].path, facts, name, 0),
            None => seq![],
        }) + tests_from(files, name, i + 1)
    }
}

fn tests_of_file(file: &FileFact, facts: &RustFileFacts, name: &str, out: &mut Vec<TestMatch>)
    ensures
        final(out).deep_view() == old(out).deep_view() + tests_in(
            file.path@,
            facts.deep_view(),
            name@,
            0,
        ),
{
    let ghost before = out.deep_view();
    let ghost all = facts.deep_view();
    let mut i: usize = 0;
    while i < facts.tests.len()
        invariant
            i <= facts.tests@.len(),
            all == facts.deep_view(),
            before + tests_in(file.path@, all, name@, 0) =~= out.deep_view() + tests_in(
                file.path@,
                all,
                name@,
                i as int,
            ),
        decreases facts.tests@.len() - i,
    {
        assert(all.tests[i as int] == facts.tests@[i as int].deep_view());
        if text::same_text(facts.tests[i].name.as_str(), name) {
            list::push(
                out,
                TestMatch { file: text::copy(file.path.as_str()), test: facts.tests[i].duplicate() },
            );
        }
        i += 1;
    }
}

/// The tests that have the given name, in the order of the files.
pub fn find_tests(index: &RepositoryMapIndex, name: &str) -> (r: Vec<TestMatch>)
    ensures
        r.deep_view() == tests_from(index.deep_view().files, name@, 0),
{
    let ghost all = index.files.deep_view();
    let mut out: Vec<TestMatch> = Vec::new();
    let mut i: usize = 0;
    while i < index.files.len()
        invariant
            i <= index.files@.len(),
            all == index.files.deep_view(),
            tests_from(all, name@, 0) =~= out.deep_view() + tests_from(all, name@, i as int),
        decreases index.files@.len() - i,
    {
        assert(all[i as int] == index.files@[i as int].deep_view());
        if let Some(facts) = parsed(&index.files[i].rust) {
            tests_of_file(&index.files[i], facts, name, &mut out);
        }
        i += 1;
    }
    assert(out.deep_view() =~= tests_from(all, name@, 0));
    out
}

/// The tests from `i` on in the facts of a file that refer to the given symbol.
pub open spec fn associated_tests_in(
    file: Seq<char>,
    facts: RustFileFactsModel,
    symbol: Seq<char>,
    i: int,
) -> Seq<TestMatchModel>
    decreases facts.tests.len() - i,
{
    if i < 0 || i >= facts.tests.len() {
        seq![]
    } else if refers(facts.tests[i], symbol) {
        seq![TestMatchModel { file, test: facts.tests[i] }] + associated_tests_in(file, facts, symbol, i + 1)
    } else {
        associated_tests_in(file, facts, symbol, i + 1)
    }
}

/// The tests in the files from `i` on that refer to the given symbol.
pub open spec fn associated_tests_from(files: Seq<FileFactModel>, symbol: Seq<char>, i: int) -> Seq<TestMatchModel>
    decreases files.len() - i,
{
    if i < 0 || i >= files.len() {
        seq![]
    } else {
        (match facts_in(files[i].rust) {
            Some(facts) => associated_tests_in(files[i].path, facts, symbol, 0),
            None => seq![],
        }) + associated_tests_from(files, symbol, i + 1)
    }
}

fn associated_tests_of_file(file: &FileFact, facts: &RustFileFacts, symbol: &str, out: &mut Vec<TestMatch>)
    ensures
        final(out).deep_view() == old(out).deep_view() + associated_tests_in(
            file.path@,
            facts.deep_view(),
            symbol@,
            0,
        ),
{
    let ghost before = out.deep_view();
    let ghost all = facts.deep_view();
    let mut i: usize = 0;
    while i < facts.tests.len()
        invariant
            i <= facts.tests@.len(),
            all == facts.deep_view(),
            before + associated_tests_in(file.path@, all, symbol@, 0) =~= out.deep_view() + associated_tests_in(
                file.path@,
                all,
                symbol@,
                i as int,
            ),
        decreases facts.tests@.len() - i,
    {
        assert(all.tests[i as int] == facts.tests@[i as int].deep_view());
        if is_about(&facts.tests[i], symbol) {
            list::push(
                out,
                TestMatch { file: text::copy(file.path.as_str()), test: facts.tests[i].duplicate() },
            );
        }
        i += 1;
    }
}

/// The tests that refer to the given symbol, in the order of the files.
pub fn find_associated_tests(index: &RepositoryMapIndex, symbol: &str) -> (r: Vec<TestMatch>)
    ensures
        r.deep_view() == associated_tests_from(index.deep_view().files, symbol@, 0),
{
    let ghost all = index.files.deep_view();
    let mut out: Vec<TestMatch> = Vec::new();
    let mut i: usize = 0;
    while i < index.files.len()
        invariant
            i <= index.files@.len(),
            all == index.files.deep_view(),
            associated_tests_from(all, symbol@, 0) =~= out.deep_view() + associated_tests_from(all, symbol@, i as int),
        decreases index.files@.len() - i,
    {
        assert(all[i as int] == index.files@[i as int].deep_view());
        if let Some(facts) = parsed(&index.files[i].rust) {
            associated_tests_of_file(&index.files[i], facts, symbol, &mut out);
        }
        i += 1;
    }
    assert(out.deep_view() =~= associated_tests_from(all, symbol@, 0));
    out
}

proof fn refers_by_last_name(references: Seq<Seq<char>>, symbol: Seq<char>, i: int)
    requires
        0 <= i,
    ensures
        refers_from(references, symbol, i) <==> exists|k: int|
            i <= k < references.len() && last_name(#[trigger] references[k]) == last_name(symbol),
    decreases references.len() - i,
{
    if i < references.len() {
        refers_by_last_name(references, symbol, i + 1);
        if last_name(references[i]) == last_name(symbol) {
            assert(refers_from(references, symbol, i));
        }
    }
}

proof fn file_goes_by_last_name(
    file: Seq<char>,
    facts: RustFileFactsModel,
    a: Seq<char>,
    b: Seq<char>,
    i: int,
)
    requires
        0 <= i,
        last_name(a) == last_name(b),
    ensures
        associated_tests_in(file, facts, a, i) == associated_tests_in(file, facts, b, i),
    decreases facts.tests.len() - i,
{
    if i < facts.tests.len() {
        file_goes_by_last_name(file, facts, a, b, i + 1);
        refers_by_last_name(facts.tests[i].references, a, 0);
        refers_by_last_name(facts.tests[i].references, b, 0);
    }
}

proof fn files_go_by_last_name(files: Seq<FileFactModel>, a: Seq<char>, b: Seq<char>, i: int)
    requires
        0 <= i,
        last_name(a) == last_name(b),
    ensures
        associated_tests_from(files, a, i) == associated_tests_from(files, b, i),
    decreases files.len() - i,
{
    if i < files.len() {
        files_go_by_last_name(files, a, b, i + 1);
        if let Some(facts) = facts_in(files[i].rust) {
            file_goes_by_last_name(files[i].path, facts, a, b, 0);
        }
    }
}

proof fn nothing_found(s: Seq<char>, p: Seq<char>, n: int, i: int)
    requires
        0 <= i <= n,
        text::last_found_to(s, p, n) is None,
    ensures
        !text::occurs_at(s, p, i),
    decreases n - i,
{
    if i < n {
        nothing_found(s, p, n - 1, i);
    }
}

proof fn last_is_found(s: Seq<char>, p: Seq<char>, n: int, at: int)
    requires
        0 <= at <= n,
        text::occurs_at(s, p, at),
        forall|k: int| at < k <= n ==> !#[trigger] text::occurs_at(s, p, k),
    ensures
        text::last_found_to(s, p, n) == Some(at),
    decreases n - at,
{
    if at < n {
        assert(!text::occurs_at(s, p, n));
        last_is_found(s, p, n - 1, at);
    }
}

proof fn last_name_follows(prefix: Seq<char>, name: Seq<char>)
    requires
        text::last_found(name, "::"@) is None,
        name.len() > 0 ==> name[0] != ':',
    ensures
        last_name(prefix + "::"@ + name) == name,
        last_name(name) == name,
{
    reveal_strlit("::");
    let colons = "::"@;
    let symbol = prefix + colons + name;
    let at = prefix.len() as int;
    assert(symbol.subrange(at, at + 2) =~= colons);
    assert forall|k: int| at < k <= symbol.len() - 2 implies !#[trigger] text::occurs_at(
        symbol,
        colons,
        k,
    ) by {
        if text::occurs_at(symbol, colons, k) {
            assert(symbol.subrange(k, k + 2)[1] == symbol[k + 1]);
            if k == at + 1 {
                assert(symbol[k + 1] == name[0]);
            } else {
                let j = k - at - 2;
                assert(name.subrange(j, j + 2) =~= symbol.subrange(k, k + 2));
                nothing_found(name, colons, name.len() - 2, j);
            }
        }
    }
    last_is_found(symbol, colons, symbol.len() - 2, at);
    assert(symbol.subrange(at + 2, symbol.len() as int) =~= name);
}

/// A test is about a symbol exactly if the last name of one of its references is the last name
/// of the symbol: what stands before that name does not matter. A name that begins with a colon
/// is left out, since that colon belongs to what stands before it.
pub proof fn only_the_last_name_matters(
    files: Seq<FileFactModel>,
    test: TestFactModel,
    prefix: Seq<char>,
    name: Seq<char>,
)
    requires
        text::last_found(name, "::"@) is None,
        name.len() > 0 ==> name[0] != ':',
    ensures
        associated_tests_from(files, prefix + "::"@ + name, 0) == associated_tests_from(
            files,
            name,
            0,
        ),
        refers(test, name) <==> exists|k: int|
            0 <= k < test.references.len() && last_name(#[trigger] test.references[k]) == name,
{
    last_name_follows(prefix, name);
    files_go_by_last_name(files, prefix + "::"@ + name, name, 0);
    refers_by_last_name(test.references, name, 0);
}

} // verus!
