//! What a search of the index promises of the facts that it is asked for.

use vstd::prelude::*;
use crate::repository_map::search::{
    associated_tests_from, associated_tests_in, facts_in, imports_from, imports_in,
    references_from, references_in, refers, symbols_from, symbols_in, tests_from, tests_in,
};
use crate::repository_map::{
    FileFactModel, ImportMatchModel, ReferenceMatchModel, RustFileFactsModel,
    RustParseStatusModel, SymbolMatchModel, TestMatchModel,
};

verus! {

proof fn symbols_hold(file: Seq<char>, facts: RustFileFactsModel, wanted: Seq<char>, i: int)
    requires
        0 <= i,
    ensures
        forall|m: SymbolMatchModel| #[trigger]
            symbols_in(file, facts, wanted, i).contains(m) <==> m.file == file && exists|k: int|
                i <= k < facts.definitions.len() && #[trigger] facts.definitions[k] == m.definition && m.definition.name == wanted,
    decreases facts.definitions.len() - i,
{
    if i < facts.definitions.len() {
        symbols_hold(file, facts, wanted, i + 1);
        let item = facts.definitions[i];
        let rest = symbols_in(file, facts, wanted, i + 1);
        let all = symbols_in(file, facts, wanted, i);
        let first = SymbolMatchModel { file, definition: item };
        assert forall|m: SymbolMatchModel| #[trigger] all.contains(m) <==> m.file == file && exists|k: int|
            i <= k < facts.definitions.len() && #[trigger] facts.definitions[k] == m.definition && m.definition.name == wanted by {
            assert(rest.contains(m) <==> m.file == file && exists|k: int|
                i + 1 <= k < facts.definitions.len() && #[trigger] facts.definitions[k] == m.definition && m.definition.name == wanted);
            if item.name == wanted {
                assert(all == seq![first] + rest);
                assert(all[0] == first);
                if all.contains(m) {
                    let n = all.index_of(m);
                    if n > 0 {
                        assert(rest[n - 1] == m);
                    }
                }
                if rest.contains(m) {
                    let n = rest.index_of(m);
                    assert(all[n + 1] == m);
                }
            }
            if m.file == file && exists|k: int|
                i <= k < facts.definitions.len() && #[trigger] facts.definitions[k] == m.definition && m.definition.name == wanted {
                let k = choose|k: int|
                    i <= k < facts.definitions.len() && #[trigger] facts.definitions[k] == m.definition && m.definition.name == wanted;
                if k > i {
                    assert(i + 1 <= k);
                }
            }
        }
    }
}

proof fn all_symbols_hold(files: Seq<FileFactModel>, wanted: Seq<char>, i: int)
    requires
        0 <= i,
    ensures
        forall|m: SymbolMatchModel| #[trigger]
            symbols_from(files, wanted, i).contains(m) <==> m.definition.name == wanted && exists|n: int|
                i <= n < files.len() && #[trigger] files[n].path == m.file && (files[n].rust matches RustParseStatusModel::Parsed {
                    facts,
                } && facts.definitions.contains(m.definition)),
    decreases files.len() - i,
{
    if i < files.len() {
        all_symbols_hold(files, wanted, i + 1);
        let rest = symbols_from(files, wanted, i + 1);
        let all = symbols_from(files, wanted, i);
        let own = match facts_in(files[i].rust) {
            Some(facts) => symbols_in(files[i].path, facts, wanted, 0),
            None => seq![],
        };
        if facts_in(files[i].rust) is Some {
            symbols_hold(files[i].path, facts_in(files[i].rust)->0, wanted, 0);
        }
        assert(all == own + rest);
        assert forall|m: SymbolMatchModel| #[trigger] all.contains(m) <==> m.definition.name == wanted && exists|n: int|
            i <= n < files.len() && #[trigger] files[n].path == m.file && (files[n].rust matches RustParseStatusModel::Parsed {
                facts,
            } && facts.definitions.contains(m.definition)) by {
            assert(all.contains(m) <==> own.contains(m) || rest.contains(m)) by {
                if all.contains(m) {
                    let k = all.index_of(m);
                    if k < own.len() {
                        assert(own[k] == m);
                    } else {
                        assert(rest[k - own.len()] == m);
                    }
                }
                if own.contains(m) {
                    assert(all[own.index_of(m)] == m);
                }
                if rest.contains(m) {
                    assert(all[own.len() + rest.index_of(m)] == m);
                }
            }
            if facts_in(files[i].rust) is Some {
                let facts = facts_in(files[i].rust)->0;
                if own.contains(m) {
                    assert(facts.definitions.contains(m.definition));
                    assert(files[i].path == m.file);
                }
                if facts.definitions.contains(m.definition) && files[i].path == m.file && m.definition.name == wanted {
                    let k = facts.definitions.index_of(m.definition);
                    assert(facts.definitions[k] == m.definition);
                    assert(own.contains(m));
                }
            }
            if exists|n: int|
                i <= n < files.len() && #[trigger] files[n].path == m.file && (files[n].rust matches RustParseStatusModel::Parsed {
                    facts,
                } && facts.definitions.contains(m.definition)) {
                let n = choose|n: int|
                    i <= n < files.len() && #[trigger] files[n].path == m.file && (files[n].rust matches RustParseStatusModel::Parsed {
                        facts,
                    } && facts.definitions.contains(m.definition));
                if n > i {
                    assert(i + 1 <= n);
                }
            }
        }
    }
}

/// A search for a name finds exactly the definitions of that name in the files that were parsed,
/// each with the path of its file.
pub proof fn symbols_are_found(files: Seq<FileFactModel>, wanted: Seq<char>, m: SymbolMatchModel)
    ensures
        symbols_from(files, wanted, 0).contains(m) <==> m.definition.name == wanted && exists|n: int|
            0 <= n < files.len() && #[trigger] files[n].path == m.file && (files[n].rust matches RustParseStatusModel::Parsed {
                facts,
            } && facts.definitions.contains(m.definition)),
{
    all_symbols_hold(files, wanted, 0);
}

proof fn imports_hold(file: Seq<char>, facts: RustFileFactsModel, wanted: Seq<char>, i: int)
    requires
        0 <= i,
    ensures
        forall|m: ImportMatchModel| #[trigger]
            imports_in(file, facts, wanted, i).contains(m) <==> m.file == file && exists|k: int|
                i <= k < facts.imports.len() && #[trigger] facts.imports[k] == m.import && m.import.path == wanted,
    decreases facts.imports.len() - i,
{
    if i < facts.imports.len() {
        imports_hold(file, facts, wanted, i + 1);
        let item = facts.imports[i];
        let rest = imports_in(file, facts, wanted, i + 1);
        let all = imports_in(file, facts, wanted, i);
        let first = ImportMatchModel { file, import: item };
        assert forall|m: ImportMatchModel| #[trigger] all.contains(m) <==> m.file == file && exists|k: int|
            i <= k < facts.imports.len() && #[trigger] facts.imports[k] == m.import && m.import.path == wanted by {
            assert(rest.contains(m) <==> m.file == file && exists|k: int|
                i + 1 <= k < facts.imports.len() && #[trigger] facts.imports[k] == m.import && m.import.path == wanted);
            if item.path == wanted {
                assert(all == seq![first] + rest);
                assert(all[0] == first);
                if all.contains(m) {
                    let n = all.index_of(m);
                    if n > 0 {
                        assert(rest[n - 1] == m);
                    }
                }
                if rest.contains(m) {
                    let n = rest.index_of(m);
                    assert(all[n + 1] == m);
                }
            }
            if m.file == file && exists|k: int|
                i <= k < facts.imports.len() && #[trigger] facts.imports[k] == m.import && m.import.path == wanted {
                let k = choose|k: int|
                    i <= k < facts.imports.len() && #[trigger] facts.imports[k] == m.import && m.import.path == wanted;
                if k > i {
                    assert(i + 1 <= k);
                }
            }
        }
    }
}

proof fn all_imports_hold(files: Seq<FileFactModel>, wanted: Seq<char>, i: int)
    requires
        0 <= i,
    ensures
        forall|m: ImportMatchModel| #[trigger]
            imports_from(files, wanted, i).contains(m) <==> m.import.path == wanted && exists|n: int|
                i <= n < files.len() && #[trigger] files[n].path == m.file && (files[n].rust matches RustParseStatusModel::Parsed {
                    facts,
                } && facts.imports.contains(m.import)),
    decreases files.len() - i,
{
    if i < files.len() {
        all_imports_hold(files, wanted, i + 1);
        let rest = imports_from(files, wanted, i + 1);
        let all = imports_from(files, wanted, i);
        let own = match facts_in(files[i].rust) {
            Some(facts) => imports_in(files[i].path, facts, wanted, 0),
            None => seq![],
        };
        if facts_in(files[i].rust) is Some {
            imports_hold(files[i].path, facts_in(files[i].rust)->0, wanted, 0);
        }
        assert(all == own + rest);
        assert forall|m: ImportMatchModel| #[trigger] all.contains(m) <==> m.import.path == wanted && exists|n: int|
            i <= n < files.len() && #[trigger] files[n].path == m.file && (files[n].rust matches RustParseStatusModel::Parsed {
                facts,
            } && facts.imports.contains(m.import)) by {
            assert(all.contains(m) <==> own.contains(m) || rest.contains(m)) by {
                if all.contains(m) {
                    let k = all.index_of(m);
                    if k < own.len() {
                        assert(own[k] == m);
                    } else {
                        assert(rest[k - own.len()] == m);
                    }
                }
                if own.contains(m) {
                    assert(all[own.index_of(m)] == m);
                }
                if rest.contains(m) {
                    assert(all[own.len() + rest.index_of(m)] == m);
                }
            }
            if facts_in(files[i].rust) is Some {
                let facts = facts_in(files[i].rust)->0;
                if own.contains(m) {
                    assert(facts.imports.contains(m.import));
                    assert(files[i].path == m.file);
                }
                if facts.imports.contains(m.import) && files[i].path == m.file && m.import.path == wanted {
                    let k = facts.imports.index_of(m.import);
                    assert(facts.imports[k] == m.import);
                    assert(own.contains(m));
                }
            }
            if exists|n: int|
                i <= n < files.len() && #[trigger] files[n].path == m.file && (files[n].rust matches RustParseStatusModel::Parsed {
                    facts,
                } && facts.imports.contains(m.import)) {
                let n = choose|n: int|
                    i <= n < files.len() && #[trigger] files[n].path == m.file && (files[n].rust matches RustParseStatusModel::Parsed {
                        facts,
                    } && facts.imports.contains(m.import));
                if n > i {
                    assert(i + 1 <= n);
                }
            }
        }
    }
}

/// A search for a path finds exactly the imports of that path, each with the path of its file.
pub proof fn imports_are_found(files: Seq<FileFactModel>, wanted: Seq<char>, m: ImportMatchModel)
    ensures
        imports_from(files, wanted, 0).contains(m) <==> m.import.path == wanted && exists|n: int|
            0 <= n < files.len() && #[trigger] files[n].path == m.file && (files[n].rust matches RustParseStatusModel::Parsed {
                facts,
            } && facts.imports.contains(m.import)),
{
    all_imports_hold(files, wanted, 0);
}

proof fn references_hold(file: Seq<char>, facts: RustFileFactsModel, wanted: Seq<char>, i: int)
    requires
        0 <= i,
    ensures
        forall|m: ReferenceMatchModel| #[trigger]
            references_in(file, facts, wanted, i).contains(m) <==> m.file == file && exists|k: int|
                i <= k < facts.references.len() && #[trigger] facts.references[k] == m.reference && m.reference.path == wanted,
    decreases facts.references.len() - i,
{
    if i < facts.references.len() {
        references_hold(file, facts, wanted, i + 1);
        let item = facts.references[i];
        let rest = references_in(file, facts, wanted, i + 1);
        let all = references_in(file, facts, wanted, i);
        let first = ReferenceMatchModel { file, reference: item };
        assert forall|m: ReferenceMatchModel| #[trigger] all.contains(m) <==> m.file == file && exists|k: int|
            i <= k < facts.references.len() && #[trigger] facts.references[k] == m.reference && m.reference.path == wanted by {
            assert(rest.contains(m) <==> m.file == file && exists|k: int|
                i + 1 <= k < facts.references.len() && #[trigger] facts.references[k] == m.reference && m.reference.path == wanted);
            if item.path == wanted {
                assert(all == seq![first] + rest);
                assert(all[0] == first);
                if all.contains(m) {
                    let n = all.index_of(m);
                    if n > 0 {
                        assert(rest[n - 1] == m);
                    }
                }
                if rest.contains(m) {
                    let n = rest.index_of(m);
                    assert(all[n + 1] == m);
                }
            }
            if m.file == file && exists|k: int|
                i <= k < facts.references.len() && #[trigger] facts.references[k] == m.reference && m.reference.path == wanted {
                let k = choose|k: int|
                    i <= k < facts.references.len() && #[trigger] facts.references[k] == m.reference && m.reference.path == wanted;
                if k > i {
                    assert(i + 1 <= k);
                }
            }
        }
    }
}

proof fn all_references_hold(files: Seq<FileFactModel>, wanted: Seq<char>, i: int)
    requires
        0 <= i,
    ensures
        forall|m: ReferenceMatchModel| #[trigger]
            references_from(files, wanted, i).contains(m) <==> m.reference.path == wanted && exists|n: int|
                i <= n < files.len() && #[trigger] files[n].path == m.file && (files[n].rust matches RustParseStatusModel::Parsed {
                    facts,
                } && facts.references.contains(m.reference)),
    decreases files.len() - i,
{
    if i < files.len() {
        all_references_hold(files, wanted, i + 1);
        let rest = references_from(files, wanted, i + 1);
        let all = references_from(files, wanted, i);
        let own = match facts_in(files[i].rust) {
            Some(facts) => references_in(files[i].path, facts, wanted, 0),
            None => seq![],
        };
        if facts_in(files[i].rust) is Some {
            references_hold(files[i].path, facts_in(files[i].rust)->0, wanted, 0);
        }
        assert(all == own + rest);
        assert forall|m: ReferenceMatchModel| #[trigger] all.contains(m) <==> m.reference.path == wanted && exists|n: int|
            i <= n < files.len() && #[trigger] files[n].path == m.file && (files[n].rust matches RustParseStatusModel::Parsed {
                facts,
            } && facts.references.contains(m.reference)) by {
            assert(all.contains(m) <==> own.contains(m) || rest.contains(m)) by {
                if all.contains(m) {
                    let k = all.index_of(m);
                    if k < own.len() {
                        assert(own[k] == m);
                    } else {
                        assert(rest[k - own.len()] == m);
                    }
                }
                if own.contains(m) {
                    assert(all[own.index_of(m)] == m);
                }
                if rest.contains(m) {
                    assert(all[own.len() + rest.index_of(m)] == m);
                }
            }
            if facts_in(files[i].rust) is Some {
                let facts = facts_in(files[i].rust)->0;
                if own.contains(m) {
                    assert(facts.references.contains(m.reference));
                    assert(files[i].path == m.file);
                }
                if facts.references.contains(m.reference) && files[i].path == m.file && m.reference.path == wanted {
                    let k = facts.references.index_of(m.reference);
                    assert(facts.references[k] == m.reference);
                    assert(own.contains(m));
                }
            }
            if exists|n: int|
                i <= n < files.len() && #[trigger] files[n].path == m.file && (files[n].rust matches RustParseStatusModel::Parsed {
                    facts,
                } && facts.references.contains(m.reference)) {
                let n = choose|n: int|
                    i <= n < files.len() && #[trigger] files[n].path == m.file && (files[n].rust matches RustParseStatusModel::Parsed {
                        facts,
                    } && facts.references.contains(m.reference));
                if n > i {
                    assert(i + 1 <= n);
                }
            }
        }
    }
}

/// A search for a path finds exactly the references to that path, each with the path of its file.
pub proof fn references_are_found(files: Seq<FileFactModel>, wanted: Seq<char>, m: ReferenceMatchModel)
    ensures
        references_from(files, wanted, 0).contains(m) <==> m.reference.path == wanted && exists|n: int|
            0 <= n < files.len() && #[trigger] files[n].path == m.file && (files[n].rust matches RustParseStatusModel::Parsed {
                facts,
            } && facts.references.contains(m.reference)),
{
    all_references_hold(files, wanted, 0);
}

proof fn tests_hold(file: Seq<char>, facts: RustFileFactsModel, wanted: Seq<char>, i: int)
    requires
        0 <= i,
    ensures
        forall|m: TestMatchModel| #[trigger]
            tests_in(file, facts, wanted, i).contains(m) <==> m.file == file && exists|k: int|
                i <= k < facts.tests.len() && #[trigger] facts.tests[k] == m.test && m.test.name == wanted,
    decreases facts.tests.len() - i,
{
    if i < facts.tests.len() {
        tests_hold(file, facts, wanted, i + 1);
        let item = facts.tests[i];
        let rest = tests_in(file, facts, wanted, i + 1);
        let all = tests_in(file, facts, wanted, i);
        let first = TestMatchModel { file, test: item };
        assert forall|m: TestMatchModel| #[trigger] all.contains(m) <==> m.file == file && exists|k: int|
            i <= k < facts.tests.len() && #[trigger] facts.tests[k] == m.test && m.test.name == wanted by {
            assert(rest.contains(m) <==> m.file == file && exists|k: int|
                i + 1 <= k < facts.tests.len() && #[trigger] facts.tests[k] == m.test && m.test.name == wanted);
            if item.name == wanted {
                assert(all == seq![first] + rest);
                assert(all[0] == first);
                if all.contains(m) {
                    let n = all.index_of(m);
                    if n > 0 {
                        assert(rest[n - 1] == m);
                    }
                }
                if rest.contains(m) {
                    let n = rest.index_of(m);
                    assert(all[n + 1] == m);
                }
            }
            if m.file == file && exists|k: int|
                i <= k < facts.tests.len() && #[trigger] facts.tests[k] == m.test && m.test.name == wanted {
                let k = choose|k: int|
                    i <= k < facts.tests.len() && #[trigger] facts.tests[k] == m.test && m.test.name == wanted;
                if k > i {
                    assert(i + 1 <= k);
                }
            }
        }
    }
}

proof fn all_tests_hold(files: Seq<FileFactModel>, wanted: Seq<char>, i: int)
    requires
        0 <= i,
    ensures
        forall|m: TestMatchModel| #[trigger]
            tests_from(files, wanted, i).contains(m) <==> m.test.name == wanted && exists|n: int|
                i <= n < files.len() && #[trigger] files[n].path == m.file && (files[n].rust matches RustParseStatusModel::Parsed {
                    facts,
                } && facts.tests.contains(m.test)),
    decreases files.len() - i,
{
    if i < files.len() {
        all_tests_hold(files, wanted, i + 1);
        let rest = tests_from(files, wanted, i + 1);
        let all = tests_from(files, wanted, i);
        let own = match facts_in(files[i].rust) {
            Some(facts) => tests_in(files[i].path, facts, wanted, 0),
            None => seq![],
        };
        if facts_in(files[i].rust) is Some {
            tests_hold(files[i].path, facts_in(files[i].rust)->0, wanted, 0);
        }
        assert(all == own + rest);
        assert forall|m: TestMatchModel| #[trigger] all.contains(m) <==> m.test.name == wanted && exists|n: int|
            i <= n < files.len() && #[trigger] files[n].path == m.file && (files[n].rust matches RustParseStatusModel::Parsed {
                facts,
            } && facts.tests.contains(m.test)) by {
            assert(all.contains(m) <==> own.contains(m) || rest.contains(m)) by {
                if all.contains(m) {
                    let k = all.index_of(m);
                    if k < own.len() {
                        assert(own[k] == m);
                    } else {
                        assert(rest[k - own.len()] == m);
                    }
                }
                if own.contains(m) {
                    assert(all[own.index_of(m)] == m);
                }
                if rest.contains(m) {
                    assert(all[own.len() + rest.index_of(m)] == m);
                }
            }
            if facts_in(files[i].rust) is Some {
                let facts = facts_in(files[i].rust)->0;
                if own.contains(m) {
                    assert(facts.tests.contains(m.test));
                    assert(files[i].path == m.file);
                }
                if facts.tests.contains(m.test) && files[i].path == m.file && m.test.name == wanted {
                    let k = facts.tests.index_of(m.test);
                    assert(facts.tests[k] == m.test);
                    assert(own.contains(m));
                }
            }
            if exists|n: int|
                i <= n < files.len() && #[trigger] files[n].path == m.file && (files[n].rust matches RustParseStatusModel::Parsed {
                    facts,
                } && facts.tests.contains(m.test)) {
                let n = choose|n: int|
                    i <= n < files.len() && #[trigger] files[n].path == m.file && (files[n].rust matches RustParseStatusModel::Parsed {
                        facts,
                    } && facts.tests.contains(m.test));
                if n > i {
                    assert(i + 1 <= n);
                }
            }
        }
    }
}

/// A search for a test finds exactly the tests of that name, each with the path of its file.
pub proof fn tests_are_found(files: Seq<FileFactModel>, wanted: Seq<char>, m: TestMatchModel)
    ensures
        tests_from(files, wanted, 0).contains(m) <==> m.test.name == wanted && exists|n: int|
            0 <= n < files.len() && #[trigger] files[n].path == m.file && (files[n].rust matches RustParseStatusModel::Parsed {
                facts,
            } && facts.tests.contains(m.test)),
{
    all_tests_hold(files, wanted, 0);
}

proof fn associated_tests_hold(file: Seq<char>, facts: RustFileFactsModel, wanted: Seq<char>, i: int)
    requires
        0 <= i,
    ensures
        forall|m: TestMatchModel| #[trigger]
            associated_tests_in(file, facts, wanted, i).contains(m) <==> m.file == file && exists|k: int|
                i <= k < facts.tests.len() && #[trigger] facts.tests[k] == m.test && refers(m.test, wanted),
    decreases facts.tests.len() - i,
{
    if i < facts.tests.len() {
        associated_tests_hold(file, facts, wanted, i + 1);
        let item = facts.tests[i];
        let rest = associated_tests_in(file, facts, wanted, i + 1);
        let all = associated_tests_in(file, facts, wanted, i);
        let first = TestMatchModel { file, test: item };
        assert forall|m: TestMatchModel| #[trigger] all.contains(m) <==> m.file == file && exists|k: int|
            i <= k < facts.tests.len() && #[trigger] facts.tests[k] == m.test && refers(m.test, wanted) by {
            assert(rest.contains(m) <==> m.file == file && exists|k: int|
                i + 1 <= k < facts.tests.len() && #[trigger] facts.tests[k] == m.test && refers(m.test, wanted));
            if refers(item, wanted) {
                assert(all == seq![first] + rest);
                assert(all[0] == first);
                if all.contains(m) {
                    let n = all.index_of(m);
                    if n > 0 {
                        assert(rest[n - 1] == m);
                    }
                }
                if rest.contains(m) {
                    let n = rest.index_of(m);
                    assert(all[n + 1] == m);
                }
            }
            if m.file == file && exists|k: int|
                i <= k < facts.tests.len() && #[trigger] facts.tests[k] == m.test && refers(m.test, wanted) {
                let k = choose|k: int|
                    i <= k < facts.tests.len() && #[trigger] facts.tests[k] == m.test && refers(m.test, wanted);
                if k > i {
                    assert(i + 1 <= k);
                }
            }
        }
    }
}

proof fn all_associated_tests_hold(files: Seq<FileFactModel>, wanted: Seq<char>, i: int)
    requires
        0 <= i,
    ensures
        forall|m: TestMatchModel| #[trigger]
            associated_tests_from(files, wanted, i).contains(m) <==> refers(m.test, wanted) && exists|n: int|
                i <= n < files.len() && #[trigger] files[n].path == m.file && (files[n].rust matches RustParseStatusModel::Parsed {
                    facts,
                } && facts.tests.contains(m.test)),
    decreases files.len() - i,
{
    if i < files.len() {
        all_associated_tests_hold(files, wanted, i + 1);
        let rest = associated_tests_from(files, wanted, i + 1);
        let all = associated_tests_from(files, wanted, i);
        let own = match facts_in(files[i].rust) {
            Some(facts) => associated_tests_in(files[i].path, facts, wanted, 0),
            None => seq![],
        };
        if facts_in(files[i].rust) is Some {
            associated_tests_hold(files[i].path, facts_in(files[i].rust)->0, wanted, 0);
        }
        assert(all == own + rest);
        assert forall|m: TestMatchModel| #[trigger] all.contains(m) <==> refers(m.test, wanted) && exists|n: int|
            i <= n < files.len() && #[trigger] files[n].path == m.file && (files[n].rust matches RustParseStatusModel::Parsed {
                facts,
            } && facts.tests.contains(m.test)) by {
            assert(all.contains(m) <==> own.contains(m) || rest.contains(m)) by {
                if all.contains(m) {
                    let k = all.index_of(m);
                    if k < own.len() {
                        assert(own[k] == m);
                    } else {
                        assert(rest[k - own.len()] == m);
                    }
                }
                if own.contains(m) {
                    assert(all[own.index_of(m)] == m);
                }
                if rest.contains(m) {
                    assert(all[own.len() + rest.index_of(m)] == m);
                }
            }
            if facts_in(files[i].rust) is Some {
                let facts = facts_in(files[i].rust)->0;
                if own.contains(m) {
                    assert(facts.tests.contains(m.test));
                    assert(files[i].path == m.file);
                }
                if facts.tests.contains(m.test) && files[i].path == m.file && refers(m.test, wanted) {
                    let k = facts.tests.index_of(m.test);
                    assert(facts.tests[k] == m.test);
                    assert(own.contains(m));
                }
            }
            if exists|n: int|
                i <= n < files.len() && #[trigger] files[n].path == m.file && (files[n].rust matches RustParseStatusModel::Parsed {
                    facts,
                } && facts.tests.contains(m.test)) {
                let n = choose|n: int|
                    i <= n < files.len() && #[trigger] files[n].path == m.file && (files[n].rust matches RustParseStatusModel::Parsed {
                        facts,
                    } && facts.tests.contains(m.test));
                if n > i {
                    assert(i + 1 <= n);
                }
            }
        }
    }
}

/// A search for the tests of a symbol finds exactly the tests that refer to it, each with the path
/// of its file.
pub proof fn associated_tests_are_found(files: Seq<FileFactModel>, wanted: Seq<char>, m: TestMatchModel)
    ensures
        associated_tests_from(files, wanted, 0).contains(m) <==> refers(m.test, wanted) && exists|n: int|
            0 <= n < files.len() && #[trigger] files[n].path == m.file && (files[n].rust matches RustParseStatusModel::Parsed {
                facts,
            } && facts.tests.contains(m.test)),
{
    all_associated_tests_hold(files, wanted, 0);
}

} // verus!
