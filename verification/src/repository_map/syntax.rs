//! What the syntax of a Rust file shows, as facts in order and within bounds.

pub mod laws;

use vstd::prelude::*;
use crate::list;
use crate::list::Duplicate;
use crate::ranked;
use crate::ranked::Ranked;
use crate::repository_map::{
    DefinitionFact, DefinitionFactModel, DefinitionKind, ImportFact, ImportFactModel, ModuleFact,
    ModuleFactModel, ReferenceFact, ReferenceFactModel, RustFileFacts, RustFileFactsModel,
    RustOmissions, RustOmissionsModel, TestFact, TestFactModel, Visibility, VisibilityModel,
    MAX_IMPORTS_PER_FILE, MAX_INDEXED_FILE_BYTES, MAX_RUST_REFERENCES_PER_FILE,
    MAX_RUST_SYMBOLS_PER_FILE,
};
use crate::sorted;
use crate::text;

verus! {

broadcast use vstd::string::group_string_axioms;

/// `syn::File`, which is only handed on.
#[verifier::external_type_specification]
#[verifier::external_body]
pub struct ExFile(syn::File);

/// Whether `syn` takes a text for the source of a Rust file.
pub uninterp spec fn rust_parses(source: Seq<char>) -> bool;

/// `syn::parse_file`: the syntax of a Rust file, or nothing where the text is no such file.
/// Whether there is a file is a function of the text, named `rust_parses`; nothing is stated
/// of what the file holds, since the type is opaque. Places in a text are kept in 32 bits, so
/// the text is one that can be indexed. A text that nests deeper than the stack of the machine
/// allows ends the program; where that is cannot be told from the text.
#[verifier::external_body]
fn read_syntax(source: &str) -> (r: Option<syn::File>)
    requires
        text::byte_len(source@) <= MAX_INDEXED_FILE_BYTES,
    ensures
        r is Some == rust_parses(source@),
{
    syn::parse_file(source).ok()
}

/// Bytes are text, and the text is the source of a Rust file.
pub open spec fn source_parses(raw: Seq<u8>) -> bool {
    vstd::utf8::valid_utf8(raw) && rust_parses(vstd::utf8::decode_utf8(raw))
}

/// The syntax of a Rust file, where the bytes are text and the text is such a file.
pub fn parse_source(raw: &[u8]) -> (r: Option<syn::File>)
    requires
        raw@.len() <= MAX_INDEXED_FILE_BYTES,
    ensures
        r is Some == source_parses(raw@),
{
    match text::decode(raw) {
        Ok(source) => {
            proof {
                vstd::utf8::decode_utf8_encode_utf8(raw@);
            }
            read_syntax(source.as_str())
        },
        Err(_) => None,
    }
}

/// The tree of a `use` item.
#[derive(Debug, PartialEq, Eq)]
pub enum UseTree {
    Path { name: String, line: u32, tree: Box<UseTree> },
    Name { name: String, line: u32 },
    Rename { name: String, alias: String, line: u32 },
    Glob,
    Group { trees: Vec<UseTree> },
}

/// What a `UseTree` says.
pub enum UseTreeModel {
    Path { name: Seq<char>, line: u32, tree: Box<UseTreeModel> },
    Name { name: Seq<char>, line: u32 },
    Rename { name: Seq<char>, alias: Seq<char>, line: u32 },
    Glob,
    Group { trees: Seq<UseTreeModel> },
}

impl UseTree {
    pub open spec fn model(self) -> UseTreeModel
        decreases self,
    {
        match self {
            UseTree::Path { name, line, tree } => UseTreeModel::Path {
                name: name@,
                line,
                tree: Box::new((*tree).model()),
            },
            UseTree::Name { name, line } => UseTreeModel::Name { name: name@, line },
            UseTree::Rename { name, alias, line } => UseTreeModel::Rename {
                name: name@,
                alias: alias@,
                line,
            },
            UseTree::Glob => UseTreeModel::Glob,
            UseTree::Group { trees } => UseTreeModel::Group {
                trees: Seq::new(
                    trees@.len(),
                    |i: int|
                        if 0 <= i < trees@.len() {
                            trees@[i].model()
                        } else {
                            UseTreeModel::Glob
                        },
                ),
            },
        }
    }
}

/// The trees of a list.
pub open spec fn tree_models(trees: Seq<UseTree>) -> Seq<UseTreeModel> {
    Seq::new(trees.len(), |i: int| trees[i].model())
}

/// A name below a path of names.
pub open spec fn name_below(prefix: Seq<char>, name: Seq<char>) -> Seq<char> {
    if prefix.len() == 0 {
        name
    } else {
        prefix + "::"@ + name
    }
}

pub open spec fn larger(a: u32, b: u32) -> u32 {
    if a > b {
        a
    } else {
        b
    }
}

/// The imports that a tree stands for, below `prefix` and met on `line`.
pub open spec fn imports_of(tree: UseTreeModel, prefix: Seq<char>, line: u32) -> Seq<
    ImportFactModel,
>
    decreases tree, 0int,
{
    match tree {
        UseTreeModel::Path { name, line, tree } => imports_of(
            *tree,
            name_below(prefix, name),
            line,
        ),
        UseTreeModel::Name { name, line: own } => seq![
            ImportFactModel {
                path: name_below(prefix, name),
                alias: None,
                glob: false,
                line: larger(line, own),
            },
        ],
        UseTreeModel::Rename { name, alias, line: own } => seq![
            ImportFactModel {
                path: name_below(prefix, name),
                alias: Some(alias),
                glob: false,
                line: larger(line, own),
            },
        ],
        UseTreeModel::Glob => seq![ImportFactModel { path: prefix, alias: None, glob: true, line }],
        UseTreeModel::Group { trees } => imports_of_all(trees, 0, prefix, line),
    }
}

/// The imports that the trees from `i` on stand for.
pub open spec fn imports_of_all(
    trees: Seq<UseTreeModel>,
    i: int,
    prefix: Seq<char>,
    line: u32,
) -> Seq<ImportFactModel>
    decreases trees, trees.len() - i,
{
    if i < 0 || i >= trees.len() {
        seq![]
    } else {
        imports_of(trees[i], prefix, line) + imports_of_all(trees, i + 1, prefix, line)
    }
}

/// A name below a path of names.
pub fn join_path(prefix: &str, name: &str) -> (r: String)
    ensures
        r@ == name_below(prefix@, name@),
{
    let chars = text::to_chars(prefix);
    if chars.len() == 0 {
        text::copy(name)
    } else {
        let front = text::concat(prefix, "::");
        text::concat(front.as_str(), name)
    }
}

fn larger_of(a: u32, b: u32) -> (r: u32)
    ensures
        r == larger(a, b),
{
    if a > b {
        a
    } else {
        b
    }
}

/// Adds the imports that a tree stands for.
pub fn collect_use(tree: &UseTree, prefix: &str, line: u32, out: &mut Vec<ImportFact>)
    ensures
        final(out).deep_view() == old(out).deep_view() + imports_of(tree.model(), prefix@, line),
    decreases tree,
{
    let ghost before = out.deep_view();
    match tree {
        UseTree::Path { name, line, tree: inner } => {
            let next = join_path(prefix, name.as_str());
            assert(decreases_to!(tree => tree->Path_tree));
            collect_use(inner, next.as_str(), *line, out);
        },
        UseTree::Name { name, line: own } => {
            list::push(
                out,
                ImportFact {
                    path: join_path(prefix, name.as_str()),
                    alias: None,
                    glob: false,
                    line: larger_of(line, *own),
                },
            );
            assert(out.deep_view() =~= before + imports_of(tree.model(), prefix@, line));
        },
        UseTree::Rename { name, alias, line: own } => {
            list::push(
                out,
                ImportFact {
                    path: join_path(prefix, name.as_str()),
                    alias: Some(text::copy(alias.as_str())),
                    glob: false,
                    line: larger_of(line, *own),
                },
            );
            assert(out.deep_view() =~= before + imports_of(tree.model(), prefix@, line));
        },
        UseTree::Glob => {
            list::push(out, ImportFact { path: text::copy(prefix), alias: None, glob: true, line });
            assert(out.deep_view() =~= before + imports_of(tree.model(), prefix@, line));
        },
        UseTree::Group { trees } => {
            let ghost all = tree_models(trees@);
            assert(tree.model() == UseTreeModel::Group { trees: all }) by {
                assert(all =~= tree.model()->trees);
            }
            let mut i: usize = 0;
            while i < trees.len()
                invariant
                    i <= trees@.len(),
                    all == tree_models(trees@),
                    *tree == (UseTree::Group { trees: *trees }),
                    before + imports_of_all(all, 0, prefix@, line) =~= out.deep_view()
                        + imports_of_all(all, i as int, prefix@, line),
                decreases trees@.len() - i,
            {
                assert(decreases_to!(tree => tree->trees));
                assert(decreases_to!(tree->trees => trees@));
                assert(decreases_to!(trees@ => trees@[i as int]));
                collect_use(&trees[i], prefix, line, out);
                i += 1;
            }
        },
    }
}

/// A visibility as it is written.
#[derive(Debug, PartialEq, Eq)]
pub enum SourceVisibility {
    Inherited,
    Public,
    Restricted { segments: Vec<String> },
}

/// What a `SourceVisibility` says.
pub enum SourceVisibilityModel {
    Inherited,
    Public,
    Restricted { segments: Seq<Seq<char>> },
}

impl DeepView for SourceVisibility {
    type V = SourceVisibilityModel;

    open spec fn deep_view(&self) -> SourceVisibilityModel {
        match self {
            SourceVisibility::Inherited => SourceVisibilityModel::Inherited,
            SourceVisibility::Public => SourceVisibilityModel::Public,
            SourceVisibility::Restricted { segments } => SourceVisibilityModel::Restricted {
                segments: segments.deep_view(),
            },
        }
    }
}

/// The visibility that a written one stands for.
pub open spec fn visibility_of(value: SourceVisibilityModel) -> VisibilityModel {
    match value {
        SourceVisibilityModel::Inherited => VisibilityModel::Private,
        SourceVisibilityModel::Public => VisibilityModel::Public,
        SourceVisibilityModel::Restricted { segments } => VisibilityModel::Restricted {
            scope: text::joined(segments, "::"@),
        },
    }
}

fn visibility_for(value: &SourceVisibility) -> (r: Visibility)
    ensures
        r.deep_view() == visibility_of(value.deep_view()),
{
    match value {
        SourceVisibility::Inherited => Visibility::Private,
        SourceVisibility::Public => Visibility::Public,
        SourceVisibility::Restricted { segments } => Visibility::Restricted {
            scope: text::join_texts(segments, "::"),
        },
    }
}

/// An attribute: its name, where its path is one name, and its tokens as text.
#[derive(Debug, PartialEq, Eq)]
pub struct SourceAttribute {
    pub name: Option<String>,
    pub tokens: String,
}

/// What a `SourceAttribute` says.
pub struct SourceAttributeModel {
    pub name: Option<Seq<char>>,
    pub tokens: Seq<char>,
}

impl DeepView for SourceAttribute {
    type V = SourceAttributeModel;

    open spec fn deep_view(&self) -> SourceAttributeModel {
        SourceAttributeModel { name: self.name.deep_view(), tokens: self.tokens@ }
    }
}

/// The attribute marks a test.
pub open spec fn marks_test(attribute: SourceAttributeModel) -> bool {
    match attribute.name {
        Some(name) => name == "test"@ || (name == "cfg"@ && text::has(attribute.tokens, "test"@)),
        None => false,
    }
}

/// Some attribute from `i` on marks a test.
pub open spec fn marks_test_from(attributes: Seq<SourceAttributeModel>, i: int) -> bool
    decreases attributes.len() - i,
{
    if i < 0 || i >= attributes.len() {
        false
    } else {
        marks_test(attributes[i]) || marks_test_from(attributes, i + 1)
    }
}

fn is_test(attributes: &Vec<SourceAttribute>) -> (r: bool)
    ensures
        r == marks_test_from(attributes.deep_view(), 0),
{
    let ghost all = attributes.deep_view();
    let mut i: usize = 0;
    while i < attributes.len()
        invariant
            i <= attributes@.len(),
            all == attributes.deep_view(),
            marks_test_from(all, 0) == marks_test_from(all, i as int),
        decreases attributes@.len() - i,
    {
        assert(all[i as int] == attributes@[i as int].deep_view());
        let attribute = &attributes[i];
        if let Some(name) = &attribute.name {
            if text::same_text(name.as_str(), "test") {
                return true;
            }
            if text::same_text(name.as_str(), "cfg") {
                let tokens = text::to_chars(attribute.tokens.as_str());
                if text::contains(tokens.as_slice(), "test") {
                    return true;
                }
            }
        }
        i += 1;
    }
    false
}

/// What is met on a walk through the syntax of a file, from the front to the back.
#[derive(Debug, PartialEq, Eq)]
pub enum SyntaxEvent {
    /// An item that defines a name, other than a function.
    Definition { name: String, kind: DefinitionKind, visibility: SourceVisibility, line: u32 },
    Module { name: String, visibility: SourceVisibility, line: u32, inline: bool },
    Use { tree: UseTree },
    /// A function that is an item; what stands in it comes next, then `LeaveFunction`.
    EnterFunction {
        name: String,
        visibility: SourceVisibility,
        line: u32,
        attributes: Vec<SourceAttribute>,
    },
    LeaveFunction,
    /// An implementation for the type with the given path; what stands in it comes next,
    /// then `LeaveOwner`.
    EnterImplementation { segments: Vec<String> },
    EnterTrait { name: String },
    LeaveOwner,
    /// A function of an implementation or of a trait.
    Method { name: String, visibility: SourceVisibility, line: u32 },
    Reference { segments: Vec<String>, line: u32 },
}

/// What a `SyntaxEvent` says.
pub enum SyntaxEventModel {
    Definition {
        name: Seq<char>,
        kind: DefinitionKind,
        visibility: SourceVisibilityModel,
        line: u32,
    },
    Module { name: Seq<char>, visibility: SourceVisibilityModel, line: u32, inline: bool },
    Use { tree: UseTreeModel },
    EnterFunction {
        name: Seq<char>,
        visibility: SourceVisibilityModel,
        line: u32,
        attributes: Seq<SourceAttributeModel>,
    },
    LeaveFunction,
    EnterImplementation { segments: Seq<Seq<char>> },
    EnterTrait { name: Seq<char> },
    LeaveOwner,
    Method { name: Seq<char>, visibility: SourceVisibilityModel, line: u32 },
    Reference { segments: Seq<Seq<char>>, line: u32 },
}

impl DeepView for SyntaxEvent {
    type V = SyntaxEventModel;

    open spec fn deep_view(&self) -> SyntaxEventModel {
        match self {
            SyntaxEvent::Definition { name, kind, visibility, line } => {
                SyntaxEventModel::Definition {
                    name: name@,
                    kind: *kind,
                    visibility: visibility.deep_view(),
                    line: *line,
                }
            },
            SyntaxEvent::Module { name, visibility, line, inline } => SyntaxEventModel::Module {
                name: name@,
                visibility: visibility.deep_view(),
                line: *line,
                inline: *inline,
            },
            SyntaxEvent::Use { tree } => SyntaxEventModel::Use { tree: tree.model() },
            SyntaxEvent::EnterFunction { name, visibility, line, attributes } => {
                SyntaxEventModel::EnterFunction {
                    name: name@,
                    visibility: visibility.deep_view(),
                    line: *line,
                    attributes: attributes.deep_view(),
                }
            },
            SyntaxEvent::LeaveFunction => SyntaxEventModel::LeaveFunction,
            SyntaxEvent::EnterImplementation { segments } => {
                SyntaxEventModel::EnterImplementation { segments: segments.deep_view() }
            },
            SyntaxEvent::EnterTrait { name } => SyntaxEventModel::EnterTrait { name: name@ },
            SyntaxEvent::LeaveOwner => SyntaxEventModel::LeaveOwner,
            SyntaxEvent::Method { name, visibility, line } => SyntaxEventModel::Method {
                name: name@,
                visibility: visibility.deep_view(),
                line: *line,
            },
            SyntaxEvent::Reference { segments, line } => SyntaxEventModel::Reference {
                segments: segments.deep_view(),
                line: *line,
            },
        }
    }
}

/// What has been met so far: all facts in the order in which they were met, the owners
/// of what comes next, the test that is open, and the tests that were open before the
/// functions that are.
#[derive(Debug, PartialEq, Eq)]
pub struct RustFactVisitor {
    pub modules: Vec<ModuleFact>,
    pub definitions: Vec<DefinitionFact>,
    pub imports: Vec<ImportFact>,
    pub references: Vec<ReferenceFact>,
    pub tests: Vec<TestFact>,
    pub owner_stack: Vec<String>,
    pub active_test: Option<usize>,
    pub outer_tests: Vec<Option<usize>>,
}

/// What a `RustFactVisitor` says.
pub struct RustFactVisitorModel {
    pub modules: Seq<ModuleFactModel>,
    pub definitions: Seq<DefinitionFactModel>,
    pub imports: Seq<ImportFactModel>,
    pub references: Seq<ReferenceFactModel>,
    pub tests: Seq<TestFactModel>,
    pub owner_stack: Seq<Seq<char>>,
    pub active_test: Option<usize>,
    pub outer_tests: Seq<Option<usize>>,
}

impl DeepView for RustFactVisitor {
    type V = RustFactVisitorModel;

    open spec fn deep_view(&self) -> RustFactVisitorModel {
        RustFactVisitorModel {
            modules: self.modules.deep_view(),
            definitions: self.definitions.deep_view(),
            imports: self.imports.deep_view(),
            references: self.references.deep_view(),
            tests: self.tests.deep_view(),
            owner_stack: self.owner_stack.deep_view(),
            active_test: self.active_test,
            outer_tests: self.outer_tests@,
        }
    }
}

/// The name of a function below the innermost owner.
pub open spec fn qualified(owners: Seq<Seq<char>>, name: Seq<char>) -> Seq<char> {
    if owners.len() == 0 {
        name
    } else {
        owners.last() + "::"@ + name
    }
}

/// The name of the owner that an implementation is.
pub open spec fn owner_of(segments: Seq<Seq<char>>) -> Seq<char> {
    let owner = text::joined(segments, "::"@);
    if owner.len() == 0 {
        "<impl>"@
    } else {
        owner
    }
}

impl RustFactVisitorModel {
    /// Nothing has been met.
    pub open spec fn new() -> RustFactVisitorModel {
        RustFactVisitorModel {
            modules: seq![],
            definitions: seq![],
            imports: seq![],
            references: seq![],
            tests: seq![],
            owner_stack: seq![],
            active_test: None,
            outer_tests: seq![],
        }
    }

    /// The tests that are or were open are among those met.
    pub open spec fn is_valid(self) -> bool {
        &&& self.active_test matches Some(test) ==> test < self.tests.len()
        &&& forall|i: int|
            0 <= i < self.outer_tests.len() ==> ((#[trigger] self.outer_tests[i]) matches Some(test)
                ==> test < self.tests.len())
    }

    pub open spec fn with_definition(
        self,
        name: Seq<char>,
        kind: DefinitionKind,
        visibility: SourceVisibilityModel,
        line: u32,
    ) -> RustFactVisitorModel {
        RustFactVisitorModel {
            definitions: self.definitions.push(
                DefinitionFactModel { name, kind, visibility: visibility_of(visibility), line },
            ),
            ..self
        }
    }

    /// A reference counts for the open test as long as there is room for it in the facts.
    pub open spec fn with_reference(self, path: Seq<char>, line: u32) -> RustFactVisitorModel {
        if path.len() == 0 {
            self
        } else {
            RustFactVisitorModel {
                references: self.references.push(ReferenceFactModel { path, line }),
                tests: match self.active_test {
                    Some(test) => if self.references.len() < MAX_RUST_REFERENCES_PER_FILE {
                        self.tests.update(
                            test as int,
                            TestFactModel {
                                references: self.tests[test as int].references.push(path),
                                ..self.tests[test as int]
                            },
                        )
                    } else {
                        self.tests
                    },
                    None => self.tests,
                },
                ..self
            }
        }
    }

    /// What has been met with one event more.
    pub open spec fn after(self, event: SyntaxEventModel) -> RustFactVisitorModel {
        match event {
            SyntaxEventModel::Definition { name, kind, visibility, line } => self.with_definition(
                name,
                kind,
                visibility,
                line,
            ),
            SyntaxEventModel::Module { name, visibility, line, inline } => RustFactVisitorModel {
                modules: self.modules.push(
                    ModuleFactModel { name, visibility: visibility_of(visibility), line, inline },
                ),
                ..self
            },
            SyntaxEventModel::Use { tree } => RustFactVisitorModel {
                imports: self.imports + imports_of(tree, seq![], 0),
                ..self
            },
            SyntaxEventModel::EnterFunction { name, visibility, line, attributes } => {
                let name = qualified(self.owner_stack, name);
                let defined = self.with_definition(
                    name,
                    DefinitionKind::Function,
                    visibility,
                    line,
                );
                let outer_tests = self.outer_tests.push(self.active_test);
                if marks_test_from(attributes, 0) {
                    RustFactVisitorModel {
                        tests: self.tests.push(TestFactModel { name, line, references: seq![] }),
                        active_test: Some(self.tests.len() as usize),
                        outer_tests,
                        ..defined
                    }
                } else {
                    RustFactVisitorModel { outer_tests, ..defined }
                }
            },
            SyntaxEventModel::LeaveFunction => if self.outer_tests.len() == 0 {
                RustFactVisitorModel { active_test: None, ..self }
            } else {
                RustFactVisitorModel {
                    active_test: self.outer_tests.last(),
                    outer_tests: self.outer_tests.drop_last(),
                    ..self
                }
            },
            SyntaxEventModel::EnterImplementation { segments } => RustFactVisitorModel {
                owner_stack: self.owner_stack.push(owner_of(segments)),
                ..self
            },
            SyntaxEventModel::EnterTrait { name } => RustFactVisitorModel {
                owner_stack: self.owner_stack.push(name),
                ..self
            },
            SyntaxEventModel::LeaveOwner => if self.owner_stack.len() == 0 {
                self
            } else {
                RustFactVisitorModel { owner_stack: self.owner_stack.drop_last(), ..self }
            },
            SyntaxEventModel::Method { name, visibility, line } => self.with_definition(
                qualified(self.owner_stack, name),
                DefinitionKind::Function,
                visibility,
                line,
            ),
            SyntaxEventModel::Reference { segments, line } => self.with_reference(
                text::joined(segments, "::"@),
                line,
            ),
        }
    }

    /// The facts in order, each once, and no more of each sort than there is room for.
    pub open spec fn finish(self) -> RustFileFactsModel {
        let references = ranked::distinct(
            ranked::ordered::<ReferenceFact>(
                first_of(self.references, MAX_RUST_REFERENCES_PER_FILE as int),
            ),
        );
        RustFileFactsModel {
            modules: ranked::distinct(ranked::ordered::<ModuleFact>(self.modules)),
            definitions: ranked::distinct(
                ranked::ordered::<DefinitionFact>(
                    first_of(self.definitions, MAX_RUST_SYMBOLS_PER_FILE as int),
                ),
            ),
            imports: ranked::distinct(
                ranked::ordered::<ImportFact>(
                    first_of(self.imports, MAX_IMPORTS_PER_FILE as int),
                ),
            ),
            references,
            reference_edges: edges_from(references, 0, seq![]),
            tests: ranked::distinct(tidied(ranked::ordered::<TestFact>(self.tests))),
            omissions: RustOmissionsModel {
                symbols: beyond(self.definitions.len(), MAX_RUST_SYMBOLS_PER_FILE as nat),
                imports: beyond(self.imports.len(), MAX_IMPORTS_PER_FILE as nat),
                references: beyond(self.references.len(), MAX_RUST_REFERENCES_PER_FILE as nat),
            },
        }
    }
}

/// The first `n` items of a list, or all where there are fewer.
pub open spec fn first_of<V>(items: Seq<V>, n: int) -> Seq<V> {
    if items.len() > n {
        items.take(n)
    } else {
        items
    }
}

/// By how much a number exceeds a bound.
pub open spec fn beyond(n: nat, bound: nat) -> nat {
    if n > bound {
        (n - bound) as nat
    } else {
        0
    }
}

/// A test with its references in order, each once.
pub open spec fn tidy_test(test: TestFactModel) -> TestFactModel {
    TestFactModel {
        references: ranked::distinct(ranked::ordered::<String>(test.references)),
        ..test
    }
}

pub open spec fn tidied(tests: Seq<TestFactModel>) -> Seq<TestFactModel> {
    Seq::new(tests.len(), |i: int| tidy_test(tests[i]))
}

/// The paths of the references from `i` on, in order and each once, with those in `edges`.
pub open spec fn edges_from(
    references: Seq<ReferenceFactModel>,
    i: int,
    edges: Seq<Seq<char>>,
) -> Seq<Seq<char>>
    decreases references.len() - i,
{
    if i < 0 || i >= references.len() {
        edges
    } else {
        edges_from(references, i + 1, sorted::inserted(edges, references[i].path))
    }
}

/// The visitor behind the events from `i` on.
pub open spec fn visited_from(
    events: Seq<SyntaxEventModel>,
    i: int,
    visitor: RustFactVisitorModel,
) -> RustFactVisitorModel
    decreases events.len() - i,
{
    if i < 0 || i >= events.len() {
        visitor
    } else {
        visited_from(events, i + 1, visitor.after(events[i]))
    }
}

/// The facts that a walk through a file gives.
pub open spec fn facts_of(events: Seq<SyntaxEventModel>) -> RustFileFactsModel {
    visited_from(events, 0, RustFactVisitorModel::new()).finish()
}

impl Ranked for String {
    open spec fn before(a: Seq<char>, b: Seq<char>) -> bool {
        text::before(a, b)
    }

    fn comes_before(&self, other: &String) -> (r: bool) {
        text::precedes(self.as_str(), other.as_str())
    }

    fn is_same(&self, other: &String) -> (r: bool) {
        text::same_text(self.as_str(), other.as_str())
    }

    proof fn before_is_an_order(a: Seq<char>, b: Seq<char>, c: Seq<char>) {
        text::three_are_ordered(a, b, c);
    }
}

impl Ranked for ModuleFact {
    open spec fn before(a: ModuleFactModel, b: ModuleFactModel) -> bool {
        text::before(a.name, b.name) || (a.name == b.name && (a.line < b.line || (a.line == b.line
            && !a.inline && b.inline)))
    }

    fn comes_before(&self, other: &ModuleFact) -> (r: bool) {
        text::precedes(self.name.as_str(), other.name.as_str()) || (text::same_text(
            self.name.as_str(),
            other.name.as_str(),
        ) && (self.line < other.line || (self.line == other.line && !self.inline
            && other.inline)))
    }

    fn is_same(&self, other: &ModuleFact) -> (r: bool) {
        text::same_text(self.name.as_str(), other.name.as_str()) && self.visibility.same(
            &other.visibility,
        ) && self.line == other.line && self.inline == other.inline
    }

    proof fn before_is_an_order(a: ModuleFactModel, b: ModuleFactModel, c: ModuleFactModel) {
        text::three_are_ordered(a.name, b.name, c.name);
    }
}

/// The place of a kind in the order of kinds.
pub open spec fn kind_rank(kind: DefinitionKind) -> int {
    match kind {
        DefinitionKind::Function => 0,
        DefinitionKind::Struct => 1,
        DefinitionKind::Enum => 2,
        DefinitionKind::Trait => 3,
        DefinitionKind::Type => 4,
        DefinitionKind::Const => 5,
        DefinitionKind::Static => 6,
        DefinitionKind::Union => 7,
        DefinitionKind::Macro => 8,
    }
}

fn rank_of(kind: DefinitionKind) -> (r: u8)
    ensures
        r == kind_rank(kind),
{
    match kind {
        DefinitionKind::Function => 0,
        DefinitionKind::Struct => 1,
        DefinitionKind::Enum => 2,
        DefinitionKind::Trait => 3,
        DefinitionKind::Type => 4,
        DefinitionKind::Const => 5,
        DefinitionKind::Static => 6,
        DefinitionKind::Union => 7,
        DefinitionKind::Macro => 8,
    }
}

impl Ranked for DefinitionFact {
    open spec fn before(a: DefinitionFactModel, b: DefinitionFactModel) -> bool {
        text::before(a.name, b.name) || (a.name == b.name && (kind_rank(a.kind) < kind_rank(b.kind)
            || (kind_rank(a.kind) == kind_rank(b.kind) && a.line < b.line)))
    }

    fn comes_before(&self, other: &DefinitionFact) -> (r: bool) {
        let mine: u8 = rank_of(self.kind);
        let others: u8 = rank_of(other.kind);
        text::precedes(self.name.as_str(), other.name.as_str()) || (text::same_text(
            self.name.as_str(),
            other.name.as_str(),
        ) && (mine < others || (mine == others && self.line < other.line)))
    }

    fn is_same(&self, other: &DefinitionFact) -> (r: bool) {
        text::same_text(self.name.as_str(), other.name.as_str()) && self.kind == other.kind
            && self.visibility.same(&other.visibility) && self.line == other.line
    }

    proof fn before_is_an_order(
        a: DefinitionFactModel,
        b: DefinitionFactModel,
        c: DefinitionFactModel,
    ) {
        text::three_are_ordered(a.name, b.name, c.name);
    }
}

/// No text comes before every text.
pub open spec fn option_before(a: Option<Seq<char>>, b: Option<Seq<char>>) -> bool {
    match (a, b) {
        (None, Some(_)) => true,
        (Some(a), Some(b)) => text::before(a, b),
        _ => false,
    }
}

fn option_precedes(a: &Option<String>, b: &Option<String>) -> (r: bool)
    ensures
        r == option_before(a.deep_view(), b.deep_view()),
{
    match (a, b) {
        (None, Some(_)) => true,
        (Some(a), Some(b)) => text::precedes(a.as_str(), b.as_str()),
        _ => false,
    }
}

proof fn three_options_are_ordered(
    a: Option<Seq<char>>,
    b: Option<Seq<char>>,
    c: Option<Seq<char>>,
)
    ensures
        !(option_before(a, b) && option_before(b, a)),
        a == b || option_before(a, b) || option_before(b, a),
        b == c || option_before(b, c) || option_before(c, b),
        !option_before(a, a),
        !option_before(b, b),
        !option_before(a, b) && !option_before(b, c) ==> !option_before(a, c),
{
    let x = match a {
        Some(a) => a,
        None => seq![],
    };
    let y = match b {
        Some(b) => b,
        None => seq![],
    };
    let z = match c {
        Some(c) => c,
        None => seq![],
    };
    text::three_are_ordered(x, y, z);
}

impl Ranked for ImportFact {
    open spec fn before(a: ImportFactModel, b: ImportFactModel) -> bool {
        text::before(a.path, b.path) || (a.path == b.path && (option_before(a.alias, b.alias) || (
        a.alias == b.alias && ((!a.glob && b.glob) || (a.glob == b.glob && a.line < b.line)))))
    }

    fn comes_before(&self, other: &ImportFact) -> (r: bool) {
        text::precedes(self.path.as_str(), other.path.as_str()) || (text::same_text(
            self.path.as_str(),
            other.path.as_str(),
        ) && (option_precedes(&self.alias, &other.alias) || (text::same_option(
            &self.alias,
            &other.alias,
        ) && ((!self.glob && other.glob) || (self.glob == other.glob && self.line < other.line)))))
    }

    fn is_same(&self, other: &ImportFact) -> (r: bool) {
        text::same_text(self.path.as_str(), other.path.as_str()) && text::same_option(
            &self.alias,
            &other.alias,
        ) && self.glob == other.glob && self.line == other.line
    }

    proof fn before_is_an_order(a: ImportFactModel, b: ImportFactModel, c: ImportFactModel) {
        text::three_are_ordered(a.path, b.path, c.path);
        three_options_are_ordered(a.alias, b.alias, c.alias);
    }
}

impl Ranked for ReferenceFact {
    open spec fn before(a: ReferenceFactModel, b: ReferenceFactModel) -> bool {
        text::before(a.path, b.path) || (a.path == b.path && a.line < b.line)
    }

    fn comes_before(&self, other: &ReferenceFact) -> (r: bool) {
        text::precedes(self.path.as_str(), other.path.as_str()) || (text::same_text(
            self.path.as_str(),
            other.path.as_str(),
        ) && self.line < other.line)
    }

    fn is_same(&self, other: &ReferenceFact) -> (r: bool) {
        text::same_text(self.path.as_str(), other.path.as_str()) && self.line == other.line
    }

    proof fn before_is_an_order(
        a: ReferenceFactModel,
        b: ReferenceFactModel,
        c: ReferenceFactModel,
    ) {
        text::three_are_ordered(a.path, b.path, c.path);
    }
}

impl Ranked for TestFact {
    open spec fn before(a: TestFactModel, b: TestFactModel) -> bool {
        text::before(a.name, b.name) || (a.name == b.name && a.line < b.line)
    }

    fn comes_before(&self, other: &TestFact) -> (r: bool) {
        text::precedes(self.name.as_str(), other.name.as_str()) || (text::same_text(
            self.name.as_str(),
            other.name.as_str(),
        ) && self.line < other.line)
    }

    fn is_same(&self, other: &TestFact) -> (r: bool) {
        text::same_text(self.name.as_str(), other.name.as_str()) && self.line == other.line
            && text::same_list(&self.references, &other.references)
    }

    proof fn before_is_an_order(a: TestFactModel, b: TestFactModel, c: TestFactModel) {
        text::three_are_ordered(a.name, b.name, c.name);
    }
}

fn qualified_name(owners: &Vec<String>, name: &str) -> (r: String)
    ensures
        r@ == qualified(owners.deep_view(), name@),
{
    let count: usize = owners.len();
    if count == 0 {
        text::copy(name)
    } else {
        assert(owners.deep_view().last() == owners@[count - 1]@);
        let front = text::concat(owners[count - 1].as_str(), "::");
        text::concat(front.as_str(), name)
    }
}

fn impl_owner(segments: &Vec<String>) -> (r: String)
    ensures
        r@ == owner_of(segments.deep_view()),
{
    let owner = text::join_texts(segments, "::");
    let chars = text::to_chars(owner.as_str());
    if chars.len() == 0 {
        text::copy("<impl>")
    } else {
        owner
    }
}

impl RustFactVisitor {
    /// Nothing has been met.
    pub fn new() -> (r: RustFactVisitor)
        ensures
            r.deep_view() == RustFactVisitorModel::new(),
            r.deep_view().is_valid(),
    {
        let r = RustFactVisitor {
            modules: Vec::new(),
            definitions: Vec::new(),
            imports: Vec::new(),
            references: Vec::new(),
            tests: Vec::new(),
            owner_stack: Vec::new(),
            active_test: None,
            outer_tests: Vec::new(),
        };
        assert(r.modules.deep_view() =~= Seq::empty());
        assert(r.definitions.deep_view() =~= Seq::empty());
        assert(r.imports.deep_view() =~= Seq::empty());
        assert(r.references.deep_view() =~= Seq::empty());
        assert(r.tests.deep_view() =~= Seq::empty());
        assert(r.owner_stack.deep_view() =~= Seq::empty());
        assert(r.outer_tests@ =~= Seq::empty());
        r
    }

    fn definition(
        &mut self,
        name: String,
        kind: DefinitionKind,
        visibility: &SourceVisibility,
        line: u32,
    )
        ensures
            final(self).deep_view() == old(self).deep_view().with_definition(
                name@,
                kind,
                visibility.deep_view(),
                line,
            ),
    {
        list::push(
            &mut self.definitions,
            DefinitionFact { name, kind, visibility: visibility_for(visibility), line },
        );
    }

    fn reference(&mut self, path: String, line: u32)
        requires
            old(self).deep_view().is_valid(),
        ensures
            final(self).deep_view() == old(self).deep_view().with_reference(path@, line),
    {
        let chars = text::to_chars(path.as_str());
        if chars.len() == 0 {
            return;
        }
        let room = self.references.len() < MAX_RUST_REFERENCES_PER_FILE;
        list::push(
            &mut self.references,
            ReferenceFact { path: text::copy(path.as_str()), line },
        );
        if let Some(index) = self.active_test {
            if room {
                let ghost tests = self.tests.deep_view();
                assert(tests[index as int] == self.tests@[index as int].deep_view());
                let mut test = self.tests[index].duplicate();
                list::push(&mut test.references, path);
                self.tests.set(index, test);
                assert(self.tests.deep_view() =~= tests.update(index as int, test.deep_view()));
            }
        }
    }

    fn enter_function(
        &mut self,
        name: &str,
        visibility: &SourceVisibility,
        line: u32,
        attributes: &Vec<SourceAttribute>,
    )
        ensures
            final(self).deep_view() == old(self).deep_view().after(
                SyntaxEventModel::EnterFunction {
                    name: name@,
                    visibility: visibility.deep_view(),
                    line,
                    attributes: attributes.deep_view(),
                },
            ),
    {
        let name = qualified_name(&self.owner_stack, name);
        let copy = text::copy(name.as_str());
        self.definition(copy, DefinitionKind::Function, visibility, line);
        self.outer_tests.push(self.active_test);
        if is_test(attributes) {
            let place: usize = self.tests.len();
            let none: Vec<String> = Vec::new();
            assert(none.deep_view() =~= Seq::empty());
            list::push(&mut self.tests, TestFact { name, line, references: none });
            self.active_test = Some(place);
        }
    }

    fn leave_function(&mut self)
        ensures
            final(self).deep_view() == old(self).deep_view().after(SyntaxEventModel::LeaveFunction),
    {
        match self.outer_tests.pop() {
            Some(outer) => {
                self.active_test = outer;
            },
            None => {
                self.active_test = None;
            },
        }
    }

    fn leave_owner(&mut self)
        ensures
            final(self).deep_view() == old(self).deep_view().after(SyntaxEventModel::LeaveOwner),
    {
        let ghost owners = self.owner_stack.deep_view();
        let count: usize = self.owner_stack.len();
        if count > 0 {
            let _ = self.owner_stack.pop();
            assert(self.owner_stack.deep_view() =~= owners.drop_last());
        }
    }

    /// Takes in one event.
    pub fn visit(&mut self, event: &SyntaxEvent)
        requires
            old(self).deep_view().is_valid(),
        ensures
            final(self).deep_view() == old(self).deep_view().after(event.deep_view()),
            final(self).deep_view().is_valid(),
    {
        match event {
            SyntaxEvent::Definition { name, kind, visibility, line } => {
                self.definition(text::copy(name.as_str()), *kind, visibility, *line);
            },
            SyntaxEvent::Module { name, visibility, line, inline } => {
                list::push(
                    &mut self.modules,
                    ModuleFact {
                        name: text::copy(name.as_str()),
                        visibility: visibility_for(visibility),
                        line: *line,
                        inline: *inline,
                    },
                );
            },
            SyntaxEvent::Use { tree } => {
                proof {
                    reveal_strlit("");
                    assert(""@ =~= Seq::empty());
                }
                collect_use(tree, "", 0, &mut self.imports);
            },
            SyntaxEvent::EnterFunction { name, visibility, line, attributes } => {
                self.enter_function(name.as_str(), visibility, *line, attributes);
            },
            SyntaxEvent::LeaveFunction => {
                self.leave_function();
            },
            SyntaxEvent::EnterImplementation { segments } => {
                list::push(&mut self.owner_stack, impl_owner(segments));
            },
            SyntaxEvent::EnterTrait { name } => {
                list::push(&mut self.owner_stack, text::copy(name.as_str()));
            },
            SyntaxEvent::LeaveOwner => {
                self.leave_owner();
            },
            SyntaxEvent::Method { name, visibility, line } => {
                let name = qualified_name(&self.owner_stack, name.as_str());
                self.definition(name, DefinitionKind::Function, visibility, *line);
            },
            SyntaxEvent::Reference { segments, line } => {
                self.reference(text::join_texts(segments, "::"), *line);
            },
        }
    }

    /// The facts in order, each once, and no more of each sort than there is room for.
    pub fn finish(self) -> (r: RustFileFacts)
        ensures
            r.deep_view() == self.deep_view().finish(),
    {
        let mut modules = self.modules;
        let mut definitions = self.definitions;
        let mut imports = self.imports;
        let mut references = self.references;
        let mut tests = self.tests;
        let symbols: u64 = keep_first(&mut definitions, MAX_RUST_SYMBOLS_PER_FILE);
        let omitted_imports: u64 = keep_first(&mut imports, MAX_IMPORTS_PER_FILE);
        let omitted_references: u64 = keep_first(&mut references, MAX_RUST_REFERENCES_PER_FILE);
        ranked::sort(&mut modules);
        ranked::sort(&mut definitions);
        ranked::sort(&mut imports);
        ranked::sort(&mut references);
        ranked::sort(&mut tests);
        tidy_tests(&mut tests);
        ranked::dedup(&mut modules);
        ranked::dedup(&mut definitions);
        ranked::dedup(&mut imports);
        ranked::dedup(&mut references);
        ranked::dedup(&mut tests);
        let reference_edges = edges_of(&references);
        RustFileFacts {
            modules,
            definitions,
            imports,
            references,
            reference_edges,
            tests,
            omissions: RustOmissions {
                symbols,
                imports: omitted_imports,
                references: omitted_references,
            },
        }
    }
}

fn keep_first<T: DeepView>(items: &mut Vec<T>, n: usize) -> (r: u64)
    ensures
        final(items).deep_view() == first_of(old(items).deep_view(), n as int),
        r == beyond(old(items)@.len(), n as nat),
{
    let ghost all = items.deep_view();
    let count: usize = items.len();
    if count > n {
        items.truncate(n);
        assert(items.deep_view() =~= all.take(n as int));
        (count - n) as u64
    } else {
        0
    }
}

fn tidy_tests(tests: &mut Vec<TestFact>)
    ensures
        final(tests).deep_view() == tidied(old(tests).deep_view()),
{
    let ghost all = tests.deep_view();
    let count: usize = tests.len();
    let mut i: usize = 0;
    while i < count
        invariant
            i <= count,
            count == tests@.len(),
            count == all.len(),
            forall|k: int| 0 <= k < i ==> (#[trigger] tests@[k]).deep_view() == tidy_test(all[k]),
            forall|k: int| i <= k < count ==> (#[trigger] tests@[k]).deep_view() == all[k],
        decreases count - i,
    {
        let mut test = tests[i].duplicate();
        ranked::sort(&mut test.references);
        ranked::dedup(&mut test.references);
        tests.set(i, test);
        i += 1;
    }
    assert(tests.deep_view() =~= tidied(all));
}

fn edges_of(references: &Vec<ReferenceFact>) -> (r: Vec<String>)
    ensures
        r.deep_view() == edges_from(references.deep_view(), 0, seq![]),
{
    let ghost all = references.deep_view();
    let mut edges: Vec<String> = Vec::new();
    assert(edges.deep_view() =~= Seq::empty());
    let mut i: usize = 0;
    while i < references.len()
        invariant
            i <= references@.len(),
            all == references.deep_view(),
            edges_from(all, 0, seq![]) == edges_from(all, i as int, edges.deep_view()),
        decreases references@.len() - i,
    {
        assert(all[i as int] == references@[i as int].deep_view());
        sorted::insert(&mut edges, text::copy(references[i].path.as_str()));
        i += 1;
    }
    edges
}

/// The facts that a walk through a file gives.
pub fn extract_rust_facts(events: &Vec<SyntaxEvent>) -> (r: RustFileFacts)
    ensures
        r.deep_view() == facts_of(events.deep_view()),
{
    let ghost all = events.deep_view();
    let mut visitor = RustFactVisitor::new();
    let mut i: usize = 0;
    while i < events.len()
        invariant
            i <= events@.len(),
            all == events.deep_view(),
            visitor.deep_view().is_valid(),
            visited_from(all, 0, RustFactVisitorModel::new()) == visited_from(
                all,
                i as int,
                visitor.deep_view(),
            ),
        decreases events@.len() - i,
    {
        assert(all[i as int] == events@[i as int].deep_view());
        visitor.visit(&events[i]);
        i += 1;
    }
    visitor.finish()
}

proof fn edges_increase(references: Seq<ReferenceFactModel>, i: int, edges: Seq<Seq<char>>)
    requires
        sorted::increasing(edges),
    ensures
        sorted::increasing(edges_from(references, i, edges)),
    decreases references.len() - i,
{
    if 0 <= i < references.len() {
        sorted::insertion_keeps_order(edges, references[i].path);
        edges_increase(references, i + 1, sorted::inserted(edges, references[i].path));
    }
}

/// Of no sort of facts are there more than there is room for, and what was met beyond that
/// is counted.
pub proof fn facts_are_bounded(events: Seq<SyntaxEventModel>)
    ensures
        facts_of(events).definitions.len() <= MAX_RUST_SYMBOLS_PER_FILE,
        facts_of(events).imports.len() <= MAX_IMPORTS_PER_FILE,
        facts_of(events).references.len() <= MAX_RUST_REFERENCES_PER_FILE,
        ({
            let met = visited_from(events, 0, RustFactVisitorModel::new());
            let facts = facts_of(events);
            &&& facts.omissions.symbols > 0 <==> met.definitions.len() > MAX_RUST_SYMBOLS_PER_FILE
            &&& facts.omissions.imports > 0 <==> met.imports.len() > MAX_IMPORTS_PER_FILE
            &&& facts.omissions.references > 0 <==> met.references.len()
                > MAX_RUST_REFERENCES_PER_FILE
        }),
{
    let met = visited_from(events, 0, RustFactVisitorModel::new());
    ranked::tidying_orders_and_bounds::<DefinitionFact>(
        first_of(met.definitions, MAX_RUST_SYMBOLS_PER_FILE as int),
    );
    ranked::tidying_orders_and_bounds::<ImportFact>(
        first_of(met.imports, MAX_IMPORTS_PER_FILE as int),
    );
    ranked::tidying_orders_and_bounds::<ReferenceFact>(
        first_of(met.references, MAX_RUST_REFERENCES_PER_FILE as int),
    );
}

/// The facts of a file are in order, whatever the order in which they were met; the paths
/// of the references are there once each.
pub proof fn facts_are_in_order(events: Seq<SyntaxEventModel>)
    ensures
        ranked::in_order::<ModuleFact>(facts_of(events).modules),
        ranked::in_order::<DefinitionFact>(facts_of(events).definitions),
        ranked::in_order::<ImportFact>(facts_of(events).imports),
        ranked::in_order::<ReferenceFact>(facts_of(events).references),
        sorted::increasing(facts_of(events).reference_edges),
{
    let met = visited_from(events, 0, RustFactVisitorModel::new());
    ranked::tidying_orders_and_bounds::<ModuleFact>(met.modules);
    ranked::tidying_orders_and_bounds::<DefinitionFact>(
        first_of(met.definitions, MAX_RUST_SYMBOLS_PER_FILE as int),
    );
    ranked::tidying_orders_and_bounds::<ImportFact>(
        first_of(met.imports, MAX_IMPORTS_PER_FILE as int),
    );
    ranked::tidying_orders_and_bounds::<ReferenceFact>(
        first_of(met.references, MAX_RUST_REFERENCES_PER_FILE as int),
    );
    edges_increase(facts_of(events).references, 0, seq![]);
}

} // verus!
