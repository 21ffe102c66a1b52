//! What the facts of a Rust file promise of the items that were met in it.

use vstd::prelude::*;
use crate::ranked;
use crate::repository_map::syntax::{
    edges_from, facts_of, first_of, imports_of, imports_of_all, marks_test, marks_test_from,
    tidied, visited_from, RustFactVisitorModel,
    SourceAttributeModel, SourceVisibilityModel, SyntaxEventModel, UseTreeModel,
};
use crate::repository_map::{
    DefinitionFact, DefinitionFactModel, DefinitionKind, ImportFact, ImportFactModel, ModuleFact,
    ModuleFactModel, ReferenceFact, ReferenceFactModel, TestFact, TestFactModel, VisibilityModel,
};
use crate::sorted;
use crate::text;

verus! {

broadcast use vstd::string::group_string_axioms;

/// How a use tree ends: in a name, in a name with another name for it, or in everything.
pub enum LeafKind {
    Plain,
    Renamed(Seq<char>),
    Everything,
}

/// An end of a use tree: all the names on the way from the root to it, and the line it is on.
pub struct UseLeaf {
    pub names: Seq<Seq<char>>,
    pub kind: LeafKind,
    pub line: u32,
}

/// The ends of a use tree that stands below names.
pub open spec fn leaves(tree: UseTreeModel, above: Seq<Seq<char>>, line: u32) -> Seq<UseLeaf>
    decreases tree, 0int,
{
    match tree {
        UseTreeModel::Path { name, line, tree } => leaves(*tree, above.push(name), line),
        UseTreeModel::Name { name, line: own } => seq![
            UseLeaf {
                names: above.push(name),
                kind: LeafKind::Plain,
                line: if own > line { own } else { line },
            },
        ],
        UseTreeModel::Rename { name, alias, line: own } => seq![
            UseLeaf {
                names: above.push(name),
                kind: LeafKind::Renamed(alias),
                line: if own > line { own } else { line },
            },
        ],
        UseTreeModel::Glob => seq![UseLeaf { names: above, kind: LeafKind::Everything, line }],
        UseTreeModel::Group { trees } => leaves_of_all(trees, 0, above, line),
    }
}

pub open spec fn leaves_of_all(
    trees: Seq<UseTreeModel>,
    i: int,
    above: Seq<Seq<char>>,
    line: u32,
) -> Seq<UseLeaf>
    decreases trees, trees.len() - i,
{
    if i < 0 || i >= trees.len() {
        seq![]
    } else {
        leaves(trees[i], above, line) + leaves_of_all(trees, i + 1, above, line)
    }
}

/// The import that an end of a use tree means.
pub open spec fn import_at(leaf: UseLeaf) -> ImportFactModel {
    ImportFactModel {
        path: text::joined(leaf.names, "::"@),
        alias: match leaf.kind {
            LeafKind::Renamed(alias) => Some(alias),
            _ => None,
        },
        glob: leaf.kind is Everything,
        line: leaf.line,
    }
}

pub open spec fn imports_at(leaves: Seq<UseLeaf>) -> Seq<ImportFactModel> {
    leaves.map_values(|leaf: UseLeaf| import_at(leaf))
}

/// Every name in the tree is one.
pub open spec fn well_named(tree: UseTreeModel) -> bool
    decreases tree, 0int,
{
    match tree {
        UseTreeModel::Path { name, tree, .. } => name.len() > 0 && well_named(*tree),
        UseTreeModel::Name { name, .. } => name.len() > 0,
        UseTreeModel::Rename { name, .. } => name.len() > 0,
        UseTreeModel::Glob => true,
        UseTreeModel::Group { trees } => all_well_named(trees, 0),
    }
}

pub open spec fn all_well_named(trees: Seq<UseTreeModel>, i: int) -> bool
    decreases trees, trees.len() - i,
{
    if i < 0 || i >= trees.len() {
        true
    } else {
        well_named(trees[i]) && all_well_named(trees, i + 1)
    }
}

proof fn imports_are_leaves(tree: UseTreeModel, above: Seq<Seq<char>>, line: u32)
    requires
        well_named(tree),
        above.len() > 0 ==> above[0].len() > 0,
    ensures
        imports_of(tree, text::joined(above, "::"@), line) == imports_at(
            leaves(tree, above, line),
        ),
    decreases tree, 0int,
{
    let prefix = text::joined(above, "::"@);
    if above.len() > 0 {
        text::laws::joined_is_some(above, "::"@);
    } else {
        assert(above =~= seq![]);
        text::laws::joined_behind(above, seq![], "::"@);
    }
    match tree {
        UseTreeModel::Path { name, line, tree } => {
            text::laws::joined_behind(above, name, "::"@);
            imports_are_leaves(*tree, above.push(name), line);
        },
        UseTreeModel::Name { name, line: own } => {
            text::laws::joined_behind(above, name, "::"@);
            assert(imports_of(tree, prefix, line) =~= imports_at(leaves(tree, above, line)));
        },
        UseTreeModel::Rename { name, alias, line: own } => {
            text::laws::joined_behind(above, name, "::"@);
            assert(imports_of(tree, prefix, line) =~= imports_at(leaves(tree, above, line)));
        },
        UseTreeModel::Glob => {
            assert(imports_of(tree, prefix, line) =~= imports_at(leaves(tree, above, line)));
        },
        UseTreeModel::Group { trees } => {
            all_imports_are_leaves(trees, 0, above, line);
        },
    }
}

proof fn all_imports_are_leaves(
    trees: Seq<UseTreeModel>,
    i: int,
    above: Seq<Seq<char>>,
    line: u32,
)
    requires
        0 <= i,
        all_well_named(trees, i),
        above.len() > 0 ==> above[0].len() > 0,
    ensures
        imports_of_all(trees, i, text::joined(above, "::"@), line) == imports_at(
            leaves_of_all(trees, i, above, line),
        ),
    decreases trees, trees.len() - i,
{
    if i < trees.len() {
        imports_are_leaves(trees[i], above, line);
        all_imports_are_leaves(trees, i + 1, above, line);
        assert(imports_at(leaves_of_all(trees, i, above, line)) =~= imports_at(
            leaves(trees[i], above, line),
        ) + imports_at(leaves_of_all(trees, i + 1, above, line)));
    } else {
        assert(imports_at(leaves_of_all(trees, i, above, line)) =~= seq![]);
    }
}

/// Each end of a use tree gives exactly one import, in the order of the ends. Its path is all
/// the names on the way from the root to the end, joined with `::`; it has the other name where
/// the end has one, and takes in everything where the end does.
pub proof fn every_leaf_is_imported(tree: UseTreeModel)
    requires
        well_named(tree),
    ensures
        imports_of(tree, seq![], 0) == imports_at(leaves(tree, seq![], 0)),
{
    text::laws::joined_behind(seq![], seq![], "::"@);
    imports_are_leaves(tree, seq![], 0);
}

/// The tree of a plain use of names, one below the other.
pub open spec fn chain(names: Seq<Seq<char>>, line: u32) -> UseTreeModel
    decreases names.len(),
{
    if names.len() <= 1 {
        UseTreeModel::Name { name: names[0], line }
    } else {
        UseTreeModel::Path { name: names[0], line, tree: Box::new(chain(names.skip(1), line)) }
    }
}

proof fn chain_has_one_leaf(names: Seq<Seq<char>>, line: u32, above: Seq<Seq<char>>, from: u32)
    requires
        names.len() > 0,
        from <= line,
    ensures
        leaves(chain(names, line), above, from) == seq![
            UseLeaf { names: above + names, kind: LeafKind::Plain, line },
        ],
        (forall|k: int| 0 <= k < names.len() ==> (#[trigger] names[k]).len() > 0) ==> well_named(
            chain(names, line),
        ),
    decreases names.len(),
{
    if names.len() > 1 {
        chain_has_one_leaf(names.skip(1), line, above.push(names[0]), line);
        assert(above.push(names[0]) + names.skip(1) =~= above + names);
        assert forall|k: int| 0 <= k < names.len() - 1 implies #[trigger] names.skip(1)[k]
            == names[k + 1] by {}
    } else {
        assert(above.push(names[0]) =~= above + names);
    }
}

/// A plain use of names imports the path that they spell, such as `a::b` for a name `b` below a
/// name `a`, and nothing else.
pub proof fn plain_uses_import_their_path(names: Seq<Seq<char>>, line: u32)
    requires
        names.len() > 0,
        forall|k: int| 0 <= k < names.len() ==> (#[trigger] names[k]).len() > 0,
    ensures
        imports_of(chain(names, line), seq![], 0) == seq![
            ImportFactModel { path: text::joined(names, "::"@), alias: None, glob: false, line },
        ],
        names.len() == 2 ==> imports_of(chain(names, line), seq![], 0)[0].path == names[0] + "::"@
            + names[1],
{
    chain_has_one_leaf(names, line, seq![], 0);
    assert(Seq::<Seq<char>>::empty() + names =~= names);
    every_leaf_is_imported(chain(names, line));
    let leaf = UseLeaf { names, kind: LeafKind::Plain, line };
    assert(imports_at(seq![leaf]) =~= seq![import_at(leaf)]);
    if names.len() == 2 {
        text::laws::joined_behind(seq![names[0]], names[1], "::"@);
        text::laws::joined_behind(seq![], names[0], "::"@);
        assert(seq![names[0]].push(names[1]) =~= names);
    }
}

spec fn begins_with<V>(all: Seq<V>, front: Seq<V>) -> bool {
    front.len() <= all.len() && forall|k: int| 0 <= k < front.len() ==> all[k] == #[trigger] front[k]
}

spec fn extends(end: RustFactVisitorModel, visitor: RustFactVisitorModel) -> bool {
    &&& begins_with(end.modules, visitor.modules)
    &&& begins_with(end.definitions, visitor.definitions)
    &&& begins_with(end.imports, visitor.imports)
    &&& begins_with(end.references, visitor.references)
    &&& visitor.tests.len() <= end.tests.len()
    &&& forall|k: int| #![trigger visitor.tests[k]] #![trigger end.tests[k]]
        0 <= k < visitor.tests.len() ==> end.tests[k].name == visitor.tests[k].name
            && end.tests[k].line == visitor.tests[k].line && begins_with(
            end.tests[k].references,
            visitor.tests[k].references,
        )
}

proof fn one_step_extends(visitor: RustFactVisitorModel, event: SyntaxEventModel)
    requires
        visitor.is_valid(),
        visitor.tests.len() < usize::MAX,
    ensures
        extends(visitor.after(event), visitor),
        visitor.after(event).is_valid(),
        visitor.after(event).tests.len() <= visitor.tests.len() + 1,
{
    let next = visitor.after(event);
    assert forall|i: int| 0 <= i < next.outer_tests.len() implies ((#[trigger] next.outer_tests[i])
        matches Some(test) ==> test < next.tests.len()) by {
        if i < visitor.outer_tests.len() {
            assert(next.outer_tests[i] == visitor.outer_tests[i]);
        }
    }
}

proof fn extending_goes_on(
    a: RustFactVisitorModel,
    b: RustFactVisitorModel,
    c: RustFactVisitorModel,
)
    requires
        extends(c, b),
        extends(b, a),
    ensures
        extends(c, a),
{
    assert forall|k: int| 0 <= k < a.modules.len() implies c.modules[k] == #[trigger] a.modules[k] by {
        assert(c.modules[k] == b.modules[k]);
    }
    assert forall|k: int| 0 <= k < a.definitions.len() implies c.definitions[k]
        == #[trigger] a.definitions[k] by {
        assert(c.definitions[k] == b.definitions[k]);
    }
    assert forall|k: int| 0 <= k < a.imports.len() implies c.imports[k] == #[trigger] a.imports[k] by {
        assert(c.imports[k] == b.imports[k]);
    }
    assert forall|k: int| 0 <= k < a.references.len() implies c.references[k]
        == #[trigger] a.references[k] by {
        assert(c.references[k] == b.references[k]);
    }
    assert forall|k: int|
        #![trigger a.tests[k]]
        #![trigger c.tests[k]]
        0 <= k < a.tests.len() implies c.tests[k].name == a.tests[k].name && c.tests[k].line
        == a.tests[k].line && begins_with(c.tests[k].references, a.tests[k].references) by {
        assert(b.tests[k].name == a.tests[k].name);
        assert(c.tests[k].name == b.tests[k].name);
        assert forall|n: int| 0 <= n < a.tests[k].references.len() implies c.tests[k].references[n]
            == #[trigger] a.tests[k].references[n] by {
            assert(b.tests[k].references[n] == a.tests[k].references[n]);
            assert(c.tests[k].references[n] == b.tests[k].references[n]);
        }
    }
}

proof fn visits_extend(events: Seq<SyntaxEventModel>, i: int, visitor: RustFactVisitorModel)
    requires
        visitor.is_valid(),
        0 <= i <= events.len(),
        visitor.tests.len() + (events.len() - i) <= usize::MAX,
    ensures
        extends(visited_from(events, i, visitor), visitor),
    decreases events.len() - i,
{
    if 0 <= i < events.len() {
        let next = visitor.after(events[i]);
        one_step_extends(visitor, events[i]);
        visits_extend(events, i + 1, next);
        extending_goes_on(visitor, next, visited_from(events, i, visitor));
    }
}

/// The state in which an event is met.
spec fn at(events: Seq<SyntaxEventModel>, k: int) -> RustFactVisitorModel
    decreases k,
{
    if k <= 0 {
        RustFactVisitorModel::new()
    } else {
        at(events, k - 1).after(events[k - 1])
    }
}

proof fn visits_go_on(events: Seq<SyntaxEventModel>, k: int)
    requires
        0 <= k <= events.len() <= usize::MAX,
    ensures
        at(events, k).is_valid(),
        at(events, k).tests.len() <= k,
        visited_from(events, 0, RustFactVisitorModel::new()) == visited_from(
            events,
            k,
            at(events, k),
        ),
    decreases k,
{
    if k > 0 {
        visits_go_on(events, k - 1);
        one_step_extends(at(events, k - 1), events[k - 1]);
    }
}

proof fn all_are_kept(events: Seq<SyntaxEventModel>)
    ensures
        ({
            let met = visited_from(events, 0, RustFactVisitorModel::new());
            let facts = facts_of(events);
            &&& forall|k: int|
                0 <= k < met.modules.len() ==> facts.modules.contains(#[trigger] met.modules[k])
            &&& forall|k: int|
                0 <= k < met.definitions.len() && facts.omissions.symbols == 0
                    ==> facts.definitions.contains(#[trigger] met.definitions[k])
            &&& forall|k: int|
                0 <= k < met.imports.len() && facts.omissions.imports == 0
                    ==> facts.imports.contains(#[trigger] met.imports[k])
            &&& forall|k: int|
                0 <= k < met.references.len() && facts.omissions.references == 0
                    ==> facts.references.contains(#[trigger] met.references[k])
                    && facts.reference_edges.contains(met.references[k].path)
            &&& forall|d: DefinitionFactModel| #[trigger] facts.definitions.contains(d)
                ==> met.definitions.contains(d)
            &&& forall|d: ImportFactModel| #[trigger] facts.imports.contains(d)
                ==> met.imports.contains(d)
            &&& forall|d: ReferenceFactModel| #[trigger] facts.references.contains(d)
                ==> met.references.contains(d)
        }),
{
    let met = visited_from(events, 0, RustFactVisitorModel::new());
    let facts = facts_of(events);
    let definitions = first_of(met.definitions, 2048);
    let imports = first_of(met.imports, 2048);
    let references = first_of(met.references, 2048);
    ranked::tidying_keeps_items::<ModuleFact>(met.modules);
    ranked::tidying_keeps_items::<DefinitionFact>(definitions);
    ranked::tidying_keeps_items::<ImportFact>(imports);
    ranked::tidying_keeps_items::<ReferenceFact>(references);
    edges_hold_paths(facts.references, 0, seq![]);
    assert forall|k: int| 0 <= k < met.modules.len() implies facts.modules.contains(
        #[trigger] met.modules[k],
    ) by {
        assert(met.modules.contains(met.modules[k]));
    }
    assert forall|k: int|
        0 <= k < met.definitions.len() && facts.omissions.symbols == 0 implies facts.definitions.contains(
        #[trigger] met.definitions[k],
    ) by {
        assert(definitions.contains(met.definitions[k]));
    }
    assert forall|k: int|
        0 <= k < met.imports.len() && facts.omissions.imports == 0 implies facts.imports.contains(
        #[trigger] met.imports[k],
    ) by {
        assert(imports.contains(met.imports[k]));
    }
    assert forall|k: int|
        0 <= k < met.references.len() && facts.omissions.references == 0 implies facts.references.contains(
        #[trigger] met.references[k],
    ) && facts.reference_edges.contains(met.references[k].path) by {
        assert(references.contains(met.references[k]));
        let n = facts.references.index_of(met.references[k]);
        assert(facts.references[n] == met.references[k]);
    }
    assert forall|d: DefinitionFactModel| #[trigger] facts.definitions.contains(d) implies met.definitions.contains(
        d,
    ) by {
        assert(definitions.contains(d));
        assert(met.definitions[definitions.index_of(d)] == d);
    }
    assert forall|d: ImportFactModel| #[trigger] facts.imports.contains(d) implies met.imports.contains(
        d,
    ) by {
        assert(imports.contains(d));
        assert(met.imports[imports.index_of(d)] == d);
    }
    assert forall|d: ReferenceFactModel| #[trigger] facts.references.contains(d) implies met.references.contains(
        d,
    ) by {
        assert(references.contains(d));
        assert(met.references[references.index_of(d)] == d);
    }
}

proof fn edges_hold_paths(references: Seq<ReferenceFactModel>, i: int, edges: Seq<Seq<char>>)
    requires
        0 <= i,
        sorted::increasing(edges),
    ensures
        forall|k: int|
            i <= k < references.len() ==> edges_from(references, i, edges).contains(
                (#[trigger] references[k]).path,
            ),
        forall|k: int|
            0 <= k < edges.len() ==> edges_from(references, i, edges).contains(#[trigger] edges[k]),
    decreases references.len() - i,
{
    if i < references.len() {
        let next = sorted::inserted(edges, references[i].path);
        sorted::insertion_keeps_order(edges, references[i].path);
        edges_hold_paths(references, i + 1, next);
        let all = edges_from(references, i, edges);
        assert forall|k: int| 0 <= k < edges.len() implies all.contains(#[trigger] edges[k]) by {
            assert(edges.contains(edges[k]));
            assert(next.contains(edges[k]));
            let n = next.index_of(edges[k]);
            assert(next[n] == edges[k]);
        }
        assert(next.contains(references[i].path));
        let n = next.index_of(references[i].path);
        assert(next[n] == references[i].path);
        assert forall|k: int| i <= k < references.len() implies all.contains(
            (#[trigger] references[k]).path,
        ) by {}
    } else {
        assert forall|k: int| 0 <= k < edges.len() implies edges.contains(#[trigger] edges[k]) by {}
    }
}

/// The visibility that a fact has for what is written in the source.
pub open spec fn shown_visibility(value: SourceVisibilityModel) -> VisibilityModel {
    match value {
        SourceVisibilityModel::Inherited => VisibilityModel::Private,
        SourceVisibilityModel::Public => VisibilityModel::Public,
        SourceVisibilityModel::Restricted { segments } => VisibilityModel::Restricted {
            scope: text::joined(segments, "::"@),
        },
    }
}

/// Whatever is met in a file is among its facts, as long as there was room: a definition and a
/// module with their names, kinds and lines, a reference with the path that its segments spell,
/// and every import of a use tree.
pub proof fn met_items_are_facts(events: Seq<SyntaxEventModel>, k: int)
    requires
        0 <= k < events.len() <= usize::MAX,
    ensures
        ({
            let facts = facts_of(events);
            match events[k] {
                SyntaxEventModel::Definition { name, kind, visibility, line } =>
                    facts.omissions.symbols == 0 ==> facts.definitions.contains(
                        DefinitionFactModel {
                            name,
                            kind,
                            visibility: shown_visibility(visibility),
                            line,
                        },
                    ),
                SyntaxEventModel::Module { name, visibility, line, inline } =>
                    facts.modules.contains(
                        ModuleFactModel {
                            name,
                            visibility: shown_visibility(visibility),
                            line,
                            inline,
                        },
                    ),
                SyntaxEventModel::Use { tree } => facts.omissions.imports == 0 && well_named(tree)
                    ==> forall|n: int|
                    0 <= n < leaves(tree, seq![], 0).len() ==> facts.imports.contains(
                        import_at(#[trigger] leaves(tree, seq![], 0)[n]),
                    ),
                SyntaxEventModel::Reference { segments, line } => segments.len() > 0
                    && segments[0].len() > 0 && facts.omissions.references == 0 ==> {
                    let path = text::joined(segments, "::"@);
                    facts.references.contains(ReferenceFactModel { path, line })
                        && facts.reference_edges.contains(path)
                },
                _ => true,
            }
        }),
{
    let met = visited_from(events, 0, RustFactVisitorModel::new());
    let visitor = at(events, k);
    let next = visitor.after(events[k]);
    visits_go_on(events, k);
    one_step_extends(visitor, events[k]);
    visits_extend(events, k + 1, next);
    all_are_kept(events);
    assert(met == visited_from(events, k + 1, next));
    match events[k] {
        SyntaxEventModel::Definition { name, kind, visibility, line } => {
            let n = visitor.definitions.len() as int;
            assert(met.definitions[n] == next.definitions[n]);
        },
        SyntaxEventModel::Module { name, visibility, line, inline } => {
            let n = visitor.modules.len() as int;
            assert(met.modules[n] == next.modules[n]);
        },
        SyntaxEventModel::Use { tree } => {
            if well_named(tree) {
                every_leaf_is_imported(tree);
                let ends = leaves(tree, seq![], 0);
                let m = visitor.imports.len() as int;
                assert forall|n: int|
                    0 <= n < ends.len() && facts_of(events).omissions.imports
                        == 0 implies facts_of(events).imports.contains(
                    import_at(#[trigger] ends[n]),
                ) by {
                    assert(next.imports[m + n] == imports_at(ends)[n]);
                    assert(met.imports[m + n] == next.imports[m + n]);
                }
            }
        },
        SyntaxEventModel::Reference { segments, line } => {
            if segments.len() > 0 && segments[0].len() > 0 {
                text::laws::joined_is_some(segments, "::"@);
                let n = visitor.references.len() as int;
                assert(met.references[n] == next.references[n]);
            }
        },
        _ => {},
    }
}

/// A function that is met is a definition: under its own name where nothing owns it, and below
/// the type or the trait that was entered last. A method right behind the head of an
/// implementation is defined below the type that it is for.
pub proof fn functions_are_defined(events: Seq<SyntaxEventModel>, k: int)
    requires
        0 <= k < events.len() <= usize::MAX,
        facts_of(events).omissions.symbols == 0,
    ensures
        ({
            let facts = facts_of(events);
            match events[k] {
                SyntaxEventModel::EnterFunction { name, visibility, line, .. } => {
                    &&& (forall|j: int|
                        0 <= j < k ==> !((#[trigger] events[j]) is EnterImplementation)
                            && !(events[j] is EnterTrait)) ==> facts.definitions.contains(
                        DefinitionFactModel {
                            name,
                            kind: DefinitionKind::Function,
                            visibility: shown_visibility(visibility),
                            line,
                        },
                    )
                },
                SyntaxEventModel::Method { name, visibility, line } => {
                    &&& k > 0 && events[k - 1] is EnterTrait ==> facts.definitions.contains(
                        DefinitionFactModel {
                            name: events[k - 1]->EnterTrait_name + "::"@ + name,
                            kind: DefinitionKind::Function,
                            visibility: shown_visibility(visibility),
                            line,
                        },
                    )
                    &&& k > 0 && (events[k - 1] matches SyntaxEventModel::EnterImplementation {
                        segments,
                    } && segments.len() > 0 && segments[0].len() > 0)
                        ==> facts.definitions.contains(
                        DefinitionFactModel {
                            name: text::joined(
                                events[k - 1]->EnterImplementation_segments,
                                "::"@,
                            ) + "::"@ + name,
                            kind: DefinitionKind::Function,
                            visibility: shown_visibility(visibility),
                            line,
                        },
                    )
                },
                _ => true,
            }
        }),
{
    let met = visited_from(events, 0, RustFactVisitorModel::new());
    let visitor = at(events, k);
    let next = visitor.after(events[k]);
    visits_go_on(events, k);
    one_step_extends(visitor, events[k]);
    visits_extend(events, k + 1, next);
    all_are_kept(events);
    assert(met == visited_from(events, k + 1, next));
    let n = visitor.definitions.len() as int;
    if events[k] is EnterFunction {
        if forall|j: int|
            0 <= j < k ==> !((#[trigger] events[j]) is EnterImplementation)
                && !(events[j] is EnterTrait) {
            nothing_owns(events, k);
        }
        assert(met.definitions[n] == next.definitions[n]);
    }
    if events[k] is Method {
        assert(met.definitions[n] == next.definitions[n]);
        if k > 0 && events[k - 1] is EnterTrait {
            assert(visitor.owner_stack.last() == events[k - 1]->EnterTrait_name);
        }
        if k > 0 && events[k - 1] is EnterImplementation {
            let segments = events[k - 1]->EnterImplementation_segments;
            if segments.len() > 0 && segments[0].len() > 0 {
                text::laws::joined_is_some(segments, "::"@);
                assert(visitor.owner_stack.last() == text::joined(segments, "::"@));
            }
        }
    }
}

proof fn nothing_owns(events: Seq<SyntaxEventModel>, k: int)
    requires
        0 <= k <= events.len(),
        forall|j: int|
            0 <= j < k ==> !((#[trigger] events[j]) is EnterImplementation) && !(
            events[j] is EnterTrait),
    ensures
        at(events, k).owner_stack.len() == 0,
    decreases k,
{
    if k > 0 {
        nothing_owns(events, k - 1);
        assert(!(events[k - 1] is EnterImplementation) && !(events[k - 1] is EnterTrait));
    }
}

proof fn tests_are_marked_from(attributes: Seq<SourceAttributeModel>, i: int)
    requires
        0 <= i,
    ensures
        marks_test_from(attributes, i) <==> exists|k: int|
            i <= k < attributes.len() && marks_test(#[trigger] attributes[k]),
    decreases attributes.len() - i,
{
    if i < attributes.len() {
        tests_are_marked_from(attributes, i + 1);
        if exists|k: int| i <= k < attributes.len() && marks_test(#[trigger] attributes[k]) {
            let k = choose|k: int| i <= k < attributes.len() && marks_test(#[trigger] attributes[k]);
            if k > i {
                assert(i + 1 <= k);
            }
        }
    }
}

/// A function is a test exactly where one of its attributes is `test`, or is `cfg` and speaks of
/// tests.
pub open spec fn is_test(attributes: Seq<SourceAttributeModel>) -> bool {
    exists|k: int|
        0 <= k < attributes.len() && ((#[trigger] attributes[k]).name == Some("test"@) || (
        attributes[k].name == Some("cfg"@) && text::has(attributes[k].tokens, "test"@)))
}

/// A function that is a test is among the tests of its file, with its line, and with the
/// reference right behind its head.
pub proof fn test_functions_are_tests(events: Seq<SyntaxEventModel>, k: int)
    requires
        0 <= k < events.len() <= usize::MAX,
        events[k] matches SyntaxEventModel::EnterFunction { attributes, .. } && is_test(attributes),
        forall|j: int|
            0 <= j < k ==> !((#[trigger] events[j]) is EnterImplementation) && !(
            events[j] is EnterTrait),
    ensures
        ({
            let tests = facts_of(events).tests;
            &&& exists|n: int|
                0 <= n < tests.len() && (#[trigger] tests[n]).name
                    == events[k]->EnterFunction_name && tests[n].line
                    == events[k]->EnterFunction_line && (k + 1 < events.len() && (events[k + 1]
                    matches SyntaxEventModel::Reference { segments, .. } && segments.len() > 0
                    && segments[0].len() > 0) && facts_of(events).omissions.references == 0
                    ==> tests[n].references.contains(
                    text::joined(events[k + 1]->Reference_segments, "::"@),
                ))
        }),
{
    let met = visited_from(events, 0, RustFactVisitorModel::new());
    let visitor = at(events, k);
    let next = visitor.after(events[k]);
    let attributes = events[k]->EnterFunction_attributes;
    visits_go_on(events, k);
    one_step_extends(visitor, events[k]);
    visits_extend(events, k + 1, next);
    nothing_owns(events, k);
    tests_are_marked_from(attributes, 0);
    let a = choose|a: int|
        0 <= a < attributes.len() && ((#[trigger] attributes[a]).name == Some("test"@) || (
        attributes[a].name == Some("cfg"@) && text::has(attributes[a].tokens, "test"@)));
    assert(marks_test(attributes[a]));
    let n = visitor.tests.len() as int;
    assert(met == visited_from(events, k + 1, next));
    assert(met.tests[n].name == next.tests[n].name);
    let referring = k + 1 < events.len() && (events[k + 1] matches SyntaxEventModel::Reference {
        segments,
        ..
    } && segments.len() > 0 && segments[0].len() > 0) && facts_of(events).omissions.references
        == 0;
    let path = text::joined(events[k + 1]->Reference_segments, "::"@);
    if referring {
        text::laws::joined_is_some(events[k + 1]->Reference_segments, "::"@);
        let later = next.after(events[k + 1]);
        one_step_extends(next, events[k + 1]);
        visits_extend(events, k + 2, later);
        assert(met == visited_from(events, k + 2, later));
        assert(later.references.len() <= met.references.len());
        assert(later.tests[n].references.last() == path);
        let m = later.tests[n].references.len() - 1;
        assert(met.tests[n].references[m] == later.tests[n].references[m]);
        assert(met.tests[n].references.contains(path));
    }
    tests_are_kept(met.tests, n, path);
    let kept = facts_of(events).tests;
    let m = choose|m: int|
        0 <= m < kept.len() && (#[trigger] kept[m]).name == met.tests[n].name && kept[m].line
            == met.tests[n].line && (met.tests[n].references.contains(path)
            ==> kept[m].references.contains(path));
    assert(next.tests[n].name == events[k]->EnterFunction_name);
    assert(kept[m].name == events[k]->EnterFunction_name);
    assert(kept[m].line == events[k]->EnterFunction_line);
    assert(referring ==> kept[m].references.contains(path));
}

proof fn tests_are_kept(tests: Seq<TestFactModel>, n: int, path: Seq<char>)
    requires
        0 <= n < tests.len(),
    ensures
        ({
            let kept = ranked::distinct(tidied(ranked::ordered::<TestFact>(tests)));
            exists|m: int|
                0 <= m < kept.len() && (#[trigger] kept[m]).name == tests[n].name && kept[m].line
                    == tests[n].line && (tests[n].references.contains(path)
                    ==> kept[m].references.contains(path))
        }),
{
    broadcast use vstd::seq_lib::group_to_multiset_ensures;

    let list = ranked::ordered::<TestFact>(tests);
    ranked::ordered_is_in_order::<TestFact>(tests);
    assert(tests.contains(tests[n]));
    assert(tests.to_multiset().count(tests[n]) > 0);
    assert(list.contains(tests[n]));
    let k = list.index_of(tests[n]);
    let tidy = tidied(list);
    assert(tidy[k].name == tests[n].name);
    ranked::tidying_keeps_items::<String>(tests[n].references);
    ranked::distinct_keeps_items(tidy);
    let kept = ranked::distinct(tidy);
    assert(tidy.contains(tidy[k]));
    assert(kept.contains(tidy[k]));
    let m = kept.index_of(tidy[k]);
    assert(kept[m] == tidy[k]);
}

} // verus!
