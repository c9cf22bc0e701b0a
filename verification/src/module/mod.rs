//! Modules: their exports and imports, the manager that registers and checks
//! them, and the dependency graph.
use vstd::prelude::*;
use crate::error::{IoError, ErrorKind};
use crate::error::handler::{strings_view, copy_strings};
use crate::text::{push_str, to_owned_string, str_eq};

pub mod graph;

pub use graph::DependencyGraph;
use graph::{is_cycle, acyclic, is_ranking, lemma_cycle_not_acyclic};
use crate::compiler::{parse_source, parsed_source};

verus! {

/// A function's parameters as (name, type) pairs, its return type, and whether
/// it is asynchronous.
#[derive(Debug, Clone)]
pub struct FunctionSignature {
    pub params: Vec<(String, String)>,
    pub return_type: Option<String>,
    pub is_async: bool,
}

/// A type's fields as (name, type) pairs and its methods.
#[derive(Debug, Clone)]
pub struct TypeInfo {
    pub fields: Vec<(String, String)>,
    pub methods: Vec<FunctionSignature>,
}

/// A value's type and whether it is a constant.
#[derive(Debug, Clone)]
pub struct ValueInfo {
    pub value_type: String,
    pub is_constant: bool,
}

/// A symbol named in an import, with the name it is bound to, if another.
#[derive(Debug, Clone)]
pub struct ImportedSymbol {
    pub name: String,
    pub alias: Option<String>,
}

/// Who may see an export: anyone, the module alone, or the listed modules.
#[derive(Debug, Clone)]
pub enum Visibility {
    Public,
    Private,
    Protected(Vec<String>),
}

/// Who may use a module: anyone, no one outside, or the listed modules.
#[derive(Debug, Clone)]
pub enum ModuleVisibility {
    Public,
    Private,
    Internal(Vec<String>),
}

/// A reference to a module: its name, its version if pinned, its path.
#[derive(Debug, Clone)]
pub struct ModuleRef {
    pub name: String,
    pub version: Option<String>,
    pub path: String,
}

/// What an export is.
#[derive(Debug, Clone)]
pub enum ExportKind {
    Function(FunctionSignature),
    Type(TypeInfo),
    Value(ValueInfo),
    Module(ModuleRef),
}

/// A name a module exports.
#[derive(Debug, Clone)]
pub struct Export {
    pub name: String,
    pub kind: ExportKind,
    pub visibility: Visibility,
    pub documentation: Option<String>,
}

/// An import of symbols, or of everything, from the module at a path.
#[derive(Debug, Clone)]
pub struct Import {
    pub source_module: String,
    pub symbols: Vec<ImportedSymbol>,
    pub is_wildcard: bool,
    pub alias: Option<String>,
}

/// A module: its name, path, exports, imports, the modules it depends on and
/// who may use it.
#[derive(Debug, Clone)]
pub struct Module {
    pub name: String,
    pub path: String,
    pub exports: Vec<Export>,
    pub imports: Vec<Import>,
    pub dependencies: Vec<ModuleRef>,
    pub visibility: ModuleVisibility,
}

/// Counts about a module, whether a dependency cycle runs through what it
/// reaches, and its visibility.
#[derive(Debug)]
pub struct ModuleMetrics {
    pub export_count: usize,
    pub import_count: usize,
    pub dependency_count: usize,
    pub is_cyclic: bool,
    pub visibility: ModuleVisibility,
}

/// Whether a module of this name is among `ms`.
pub open spec fn has_module(ms: Seq<Module>, name: Seq<char>) -> bool {
    exists|i: int| 0 <= i < ms.len() && (#[trigger] ms[i]).name@ == name
}

/// The index of the first module of this name from `i` on, or the length.
pub open spec fn module_index_from(ms: Seq<Module>, name: Seq<char>, i: nat) -> nat
    decreases ms.len() - i,
{
    if i >= ms.len() {
        ms.len()
    } else if ms[i as int].name@ == name {
        i
    } else {
        module_index_from(ms, name, i + 1)
    }
}

/// The index of the first module of this name, or the length.
pub open spec fn module_index(ms: Seq<Module>, name: Seq<char>) -> nat {
    module_index_from(ms, name, 0)
}

/// The names of the modules a module depends on.
pub open spec fn dependency_names(m: Module) -> Seq<Seq<char>> {
    m.dependencies@.map_values(|d: ModuleRef| d.name@)
}

/// Module `a` is among `ms` and depends on `b`.
pub open spec fn depends(ms: Seq<Module>, a: Seq<char>, b: Seq<char>) -> bool {
    exists|i: int| 0 <= i < ms.len() && (#[trigger] ms[i]).name@ == a && dependency_names(ms[i]).contains(b)
}

/// The "depends on" edges between the names of `ms` and the names they depend on.
pub open spec fn module_edges(ms: Seq<Module>) -> Set<(Seq<char>, Seq<char>)> {
    Set::new(|e: (Seq<char>, Seq<char>)| depends(ms, e.0, e.1))
}

/// How many of the modules have a name not yet visited.
pub open spec fn unvisited(ms: Seq<Module>, visited: Seq<Seq<char>>) -> nat
    decreases ms.len(),
{
    if ms.len() == 0 {
        0
    } else {
        unvisited(ms.drop_last(), visited) + if visited.contains(ms.last().name@) {
            0nat
        } else {
            1nat
        }
    }
}

/// Visiting more names leaves no more modules unvisited.
proof fn lemma_unvisited_mono(ms: Seq<Module>, v1: Seq<Seq<char>>, v2: Seq<Seq<char>>)
    requires
        forall|x: Seq<char>| v1.contains(x) ==> v2.contains(x),
    ensures
        unvisited(ms, v2) <= unvisited(ms, v1),
    decreases ms.len(),
{
    if ms.len() > 0 {
        lemma_unvisited_mono(ms.drop_last(), v1, v2);
    }
}

/// Visiting the name of a module not visited before leaves fewer unvisited.
proof fn lemma_unvisited_drop(ms: Seq<Module>, v1: Seq<Seq<char>>, v2: Seq<Seq<char>>, name: Seq<char>)
    requires
        forall|x: Seq<char>| v1.contains(x) ==> v2.contains(x),
        v2.contains(name),
        !v1.contains(name),
        has_module(ms, name),
    ensures
        unvisited(ms, v2) < unvisited(ms, v1),
    decreases ms.len(),
{
    let k = choose|k: int| 0 <= k < ms.len() && (#[trigger] ms[k]).name@ == name;
    if k == ms.len() - 1 {
        lemma_unvisited_mono(ms.drop_last(), v1, v2);
    } else {
        assert(ms.drop_last()[k] == ms[k]);
        lemma_unvisited_drop(ms.drop_last(), v1, v2, name);
    }
}

/// The names joined by " -> ".
pub open spec fn arrow_join(v: Seq<Seq<char>>) -> Seq<char>
    decreases v.len(),
{
    if v.len() == 0 {
        Seq::empty()
    } else if v.len() == 1 {
        v[0]
    } else {
        arrow_join(v.drop_last()) + " -> "@ + v.last()
    }
}

/// The message for a dependency cycle.
pub open spec fn cycle_message(c: Seq<Seq<char>>) -> Seq<char> {
    "Circular dependency detected: "@ + arrow_join(c)
}

/// The first dependency of `m`, from the `i`-th on, that is not among `ms`.
pub open spec fn first_missing_dependency(ms: Seq<Module>, m: Module, i: nat) -> Option<Seq<char>>
    decreases m.dependencies@.len() - i,
{
    if i >= m.dependencies@.len() {
        None
    } else if !has_module(ms, m.dependencies@[i as int].name@) {
        Some(m.dependencies@[i as int].name@)
    } else {
        first_missing_dependency(ms, m, i + 1)
    }
}

/// The message for a dependency that is not registered.
pub open spec fn missing_dependency_message(dep: Seq<char>, module: Seq<char>) -> Seq<char> {
    "Dependency "@ + dep + " not found for module "@ + module
}

/// Whether a path lies within a root: a root with no component holds every
/// path; otherwise the path is the root or goes on from it after a separator.
pub open spec fn path_within(root: Seq<char>, path: Seq<char>) -> bool {
    ||| root.len() == 0
    ||| path == root
    ||| (root.len() < path.len() && path.subrange(0, root.len() as int) == root && (root.last() == '/'
        || path[root.len() as int] == '/'))
}

/// Pushing keeps what a sequence holds and adds the new element.
proof fn lemma_push_contains(s: Seq<Seq<char>>, a: Seq<char>)
    ensures
        forall|x: Seq<char>| s.contains(x) ==> #[trigger] s.push(a).contains(x),
        s.push(a).contains(a),
{
    assert(s.push(a)[s.len() as int] == a);
    assert forall|x: Seq<char>| s.contains(x) implies #[trigger] s.push(a).contains(x) by {
        let k = choose|k: int| 0 <= k < s.len() && s[k] == x;
        assert(s.push(a)[k] == x);
    }
}

/// Dropping the last string drops the last view.
proof fn lemma_strings_view_drop_last(a: Seq<String>)
    requires
        a.len() > 0,
    ensures
        strings_view(a.drop_last()) == strings_view(a).drop_last(),
{
    assert forall|i: int| 0 <= i < a.len() - 1 implies strings_view(a.drop_last())[i] == strings_view(a).drop_last()[i] by {
        assert(a.drop_last()[i] == a[i]);
    }
    assert(strings_view(a.drop_last()) =~= strings_view(a).drop_last());
}

/// Strings with equal views agree in length and at each index.
proof fn lemma_strings_view_eq(a: Seq<String>, b: Seq<String>)
    requires
        strings_view(a) == strings_view(b),
    ensures
        a.len() == b.len(),
        forall|i: int| 0 <= i < a.len() ==> (#[trigger] a[i])@ == b[i]@,
{
    assert(strings_view(a).len() == a.len());
    assert(strings_view(b).len() == b.len());
    assert forall|i: int| 0 <= i < a.len() implies (#[trigger] a[i])@ == b[i]@ by {
        assert(strings_view(a)[i] == a[i]@);
        assert(strings_view(b)[i] == b[i]@);
    }
}


/// Whether an export of this name is among `ex`.
pub open spec fn exports_name(ex: Seq<Export>, name: Seq<char>) -> bool {
    exists|k: int| 0 <= k < ex.len() && (#[trigger] ex[k]).name@ == name
}

/// The first symbol of an import, from the `k`-th on, that the imported module
/// does not export, as its message.
pub open spec fn symbol_error(ms: Seq<Module>, imp: Import, k: nat) -> Option<Seq<char>>
    decreases imp.symbols@.len() - k,
{
    if k >= imp.symbols@.len() {
        None
    } else if !exports_name(ms[module_index(ms, imp.source_module@) as int].exports@, imp.symbols@[k as int].name@) {
        Some("Symbol "@ + imp.symbols@[k as int].name@ + " not found in module "@ + imp.source_module@)
    } else {
        symbol_error(ms, imp, k + 1)
    }
}

/// What is wrong with an import of module `m`, if anything: the module it
/// names is not registered, or (for an import of named symbols) one of them is
/// not exported there.
pub open spec fn import_error(ms: Seq<Module>, m: Module, imp: Import) -> Option<Seq<char>> {
    if !has_module(ms, imp.source_module@) {
        Some("Module "@ + m.name@ + " imports from non-existent module "@ + imp.source_module@)
    } else if imp.is_wildcard {
        None
    } else {
        symbol_error(ms, imp, 0)
    }
}

/// The first wrong import of module `m`, from the `j`-th on.
pub open spec fn imports_error(ms: Seq<Module>, m: Module, j: nat) -> Option<Seq<char>>
    decreases m.imports@.len() - j,
{
    if j >= m.imports@.len() {
        None
    } else {
        match import_error(ms, m, m.imports@[j as int]) {
            Some(e) => Some(e),
            None => imports_error(ms, m, j + 1),
        }
    }
}

/// The first wrong import of the modules from the `i`-th on.
pub open spec fn integrity_error(ms: Seq<Module>, i: nat) -> Option<Seq<char>>
    decreases ms.len() - i,
{
    if i >= ms.len() {
        None
    } else {
        match imports_error(ms, ms[i as int], 0) {
            Some(e) => Some(e),
            None => integrity_error(ms, i + 1),
        }
    }
}

/// The names of the first `n` modules.
pub open spec fn names_upto(ms: Seq<Module>, n: int) -> Set<Seq<char>> {
    Set::new(|x: Seq<char>| exists|i: int| 0 <= i < n && (#[trigger] ms[i]).name@ == x)
}

/// Some module depends on a name that is not among the modules up to it: as
/// the graph is built in order, that edge has no node to end at.
pub open spec fn late_dependency(ms: Seq<Module>) -> bool {
    exists|i: int, j: int|
        0 <= i < ms.len() && 0 <= j < ms[i].dependencies@.len() && !names_upto(ms, i + 1).contains(
            (#[trigger] ms[i].dependencies@[j]).name@,
        )
}


/// The edges contributed by the modules before the `i`-th, and by the first `j`
/// dependencies of the `i`-th.
pub open spec fn edges_before(ms: Seq<Module>, i: int, j: int) -> Set<(Seq<char>, Seq<char>)> {
    Set::new(
        |e: (Seq<char>, Seq<char>)|
            (exists|k: int| 0 <= k < i && (#[trigger] ms[k]).name@ == e.0 && dependency_names(ms[k]).contains(e.1))
                || (0 <= i < ms.len() && ms[i].name@ == e.0 && dependency_names(ms[i]).subrange(0, j).contains(e.1)),
    )
}

/// Two visibilities say the same.
pub open spec fn same_visibility(a: ModuleVisibility, b: ModuleVisibility) -> bool {
    match (a, b) {
        (ModuleVisibility::Public, ModuleVisibility::Public) => true,
        (ModuleVisibility::Private, ModuleVisibility::Private) => true,
        (ModuleVisibility::Internal(x), ModuleVisibility::Internal(y)) => strings_view(x@) == strings_view(y@),
        _ => false,
    }
}

impl ModuleVisibility {
    /// A copy of the visibility.
    pub fn duplicate(&self) -> (r: Self)
        ensures
            same_visibility(*self, r),
    {
        match self {
            ModuleVisibility::Public => ModuleVisibility::Public,
            ModuleVisibility::Private => ModuleVisibility::Private,
            ModuleVisibility::Internal(v) => ModuleVisibility::Internal(copy_strings(v)),
        }
    }
}

/// Whether a source text lexes and parses as a program.
pub open spec fn source_parses(src: Seq<char>) -> bool {
    parsed_source(src) is Ok
}

fn arrow_join_strings(v: &Vec<String>) -> (r: String)
    ensures
        r@ == arrow_join(strings_view(v@)),
{
    let mut out = String::new();
    let mut i: usize = 0;
    proof {
        assert(strings_view(v@).subrange(0, 0) =~= Seq::<Seq<char>>::empty());
    }
    while i < v.len()
        invariant
            i <= v@.len(),
            out@ == arrow_join(strings_view(v@).subrange(0, i as int)),
        decreases v.len() - i,
    {
        let ghost pre = strings_view(v@).subrange(0, i as int);
        let ghost next = strings_view(v@).subrange(0, i + 1);
        proof {
            assert(next.drop_last() =~= pre);
        }
        if i > 0 {
            push_str(&mut out, " -> ");
        } else {
            assert(pre.len() == 0);
            assert(out@ == Seq::<char>::empty());
        }
        push_str(&mut out, v[i].as_str());
        proof {
            if i == 0 {
                assert(out@ =~= next[0]);
            }
        }
        i = i + 1;
    }
    proof {
        assert(strings_view(v@).subrange(0, v@.len() as int) =~= strings_view(v@));
    }
    out
}

fn contains_name(v: &Vec<String>, s: &String) -> (r: Option<usize>)
    ensures
        match r {
            Some(k) => k < v@.len() && v@[k as int]@ == s@ && forall|j: int| 0 <= j < k ==> v@[j]@ != s@,
            None => !strings_view(v@).contains(s@),
        },
{
    let mut i: usize = 0;
    while i < v.len()
        invariant
            i <= v@.len(),
            forall|j: int| 0 <= j < i ==> v@[j]@ != s@,
        decreases v.len() - i,
    {
        if str_eq(v[i].as_str(), s.as_str()) {
            return Some(i);
        }
        i = i + 1;
    }
    proof {
        if strings_view(v@).contains(s@) {
            let k = choose|k: int| 0 <= k < strings_view(v@).len() && strings_view(v@)[k] == s@;
            assert(v@[k]@ == s@);
        }
    }
    None
}

/// Every module depends only on modules registered before it.
pub open spec fn deps_earlier(ms: Seq<Module>) -> bool {
    forall|i: int, k: int|
        #![trigger ms[i].dependencies@[k]]
        0 <= i < ms.len() && 0 <= k < ms[i].dependencies@.len() ==> exists|j: int|
            0 <= j < i && (#[trigger] ms[j]).name@ == ms[i].dependencies@[k].name@
}

/// No two of the modules share a name.
pub open spec fn names_unique(ms: Seq<Module>) -> bool {
    forall|i: int, j: int| 0 <= i < j < ms.len() ==> (#[trigger] ms[i]).name@ != (#[trigger] ms[j]).name@
}

/// Among modules of distinct names, a module's name finds it.
proof fn lemma_module_index_at(ms: Seq<Module>, i: int, t: nat)
    requires
        names_unique(ms),
        0 <= t <= i < ms.len(),
    ensures
        module_index_from(ms, ms[i].name@, t) == i,
    decreases i - t,
{
    if t < i {
        assert(ms[t as int].name@ != ms[i].name@);
        lemma_module_index_at(ms, i, t + 1);
    }
}

/// With no dependency missing from the `i`-th on, each of those dependencies is
/// registered.
proof fn lemma_no_missing_dependency(ms: Seq<Module>, m: Module, i: nat, k: int)
    requires
        first_missing_dependency(ms, m, i) is None,
        i <= k < m.dependencies@.len(),
    ensures
        has_module(ms, m.dependencies@[k].name@),
    decreases k - i,
{
    if i < k {
        lemma_no_missing_dependency(ms, m, i + 1, k);
    }
}

/// When every module depends only on modules registered before it, no module
/// depends on a name not registered up to it.
proof fn lemma_no_late_dependency(ms: Seq<Module>)
    requires
        deps_earlier(ms),
    ensures
        !late_dependency(ms),
{
    assert forall|i: int, j: int|
        0 <= i < ms.len() && 0 <= j < ms[i].dependencies@.len() implies names_upto(ms, i + 1).contains(
        (#[trigger] ms[i].dependencies@[j]).name@,
    ) by {
        let t = choose|t: int| 0 <= t < i && (#[trigger] ms[t]).name@ == ms[i].dependencies@[j].name@;
        assert(0 <= t < i + 1 && ms[t].name@ == ms[i].dependencies@[j].name@);
    }
}

/// Modules registered in order, each depending only on modules registered
/// before it, never depend on one another in a cycle: ranking each module by
/// the reverse of its place of registration, every dependency goes up.
pub proof fn law_registered_modules_are_acyclic(ms: Seq<Module>)
    requires
        names_unique(ms),
        deps_earlier(ms),
    ensures
        acyclic(module_edges(ms)),
{
    let edges = module_edges(ms);
    let rank = |x: Seq<char>| -(module_index(ms, x) as int);
    assert forall|a: Seq<char>, b: Seq<char>| #[trigger] edges.contains((a, b)) implies rank(a) < rank(b) by {
        let i = choose|i: int| 0 <= i < ms.len() && (#[trigger] ms[i]).name@ == a && dependency_names(ms[i]).contains(b);
        let k = choose|k: int| 0 <= k < dependency_names(ms[i]).len() && dependency_names(ms[i])[k] == b;
        assert(dependency_names(ms[i])[k] == ms[i].dependencies@[k].name@);
        let j = choose|j: int| 0 <= j < i && (#[trigger] ms[j]).name@ == ms[i].dependencies@[k].name@;
        lemma_module_index_at(ms, i, 0);
        lemma_module_index_at(ms, j, 0);
    }
    assert(is_ranking(edges, rank));
}

/// The registered modules, the references cached for them, and the root their
/// paths lie within.
#[derive(Debug)]
pub struct ModuleManager {
    modules: Vec<Module>,
    module_cache: Vec<(String, ModuleRef)>,
    root_path: String,
}

impl ModuleManager {
    /// The registered modules, in the order of registration.
    pub closed spec fn spec_modules(&self) -> Seq<Module> {
        self.modules@
    }

    /// The cached references, name and reference, in the order of registration.
    pub closed spec fn spec_cache(&self) -> Seq<(String, ModuleRef)> {
        self.module_cache@
    }

    /// The root the module paths lie within.
    pub closed spec fn spec_root(&self) -> Seq<char> {
        self.root_path@
    }

    /// No two registered modules share a name, and each depends only on
    /// modules registered before it.
    pub open spec fn wf(&self) -> bool {
        &&& forall|i: int, j: int|
            0 <= i < j < self.spec_modules().len() ==> (#[trigger] self.spec_modules()[i]).name@
                != (#[trigger] self.spec_modules()[j]).name@
        &&& deps_earlier(self.spec_modules())
    }

    /// A manager of no module under the given root.
    pub fn new(root_path: &str) -> (r: Self)
        ensures
            r.wf(),
            r.spec_modules().len() == 0,
            r.spec_cache().len() == 0,
            r.spec_root() == root_path@,
    {
        ModuleManager { modules: Vec::new(), module_cache: Vec::new(), root_path: to_owned_string(root_path) }
    }

    /// The index of the first registered module of this name, if any.
    fn find(&self, name: &String) -> (r: Option<usize>)
        ensures
            match r {
                Some(i) => i < self.spec_modules().len() && self.spec_modules()[i as int].name@ == name@ && i
                    == module_index(self.spec_modules(), name@),
                None => !has_module(self.spec_modules(), name@) && module_index(self.spec_modules(), name@)
                    == self.spec_modules().len(),
            },
    {
        let ghost ms = self.spec_modules();
        let mut i: usize = 0;
        while i < self.modules.len()
            invariant
                ms == self.spec_modules(),
                i <= ms.len(),
                forall|j: int| 0 <= j < i ==> ms[j].name@ != name@,
                module_index_from(ms, name@, i as nat) == module_index(ms, name@),
            decreases self.modules.len() - i,
        {
            if str_eq(self.modules[i].name.as_str(), name.as_str()) {
                return Some(i);
            }
            i = i + 1;
        }
        None
    }

    /// Whether a module of this name is registered.
    pub fn module_exists(&self, name: &str) -> (r: bool)
        ensures
            r == has_module(self.spec_modules(), name@),
    {
        let n = to_owned_string(name);
        self.find(&n).is_some()
    }

    /// The registered module of this name, or "Module {name} not found".
    pub fn resolve_module(&self, name: &str) -> (r: Result<&Module, IoError>)
        ensures
            has_module(self.spec_modules(), name@) ==> (r matches Ok(m) && *m == self.spec_modules()[module_index(
                self.spec_modules(),
                name@,
            ) as int]),
            !has_module(self.spec_modules(), name@) ==> (r matches Err(e) && e.spec_kind() == ErrorKind::RuntimeError
                && e.spec_message() == "Module "@ + name@ + " not found"@),
    {
        let n = to_owned_string(name);
        match self.find(&n) {
            Some(i) => Ok(&self.modules[i]),
            None => {
                let mut m = to_owned_string("Module ");
                push_str(&mut m, name);
                push_str(&mut m, " not found");
                Err(IoError::runtime_error(m.as_str()))
            },
        }
    }

    /// The exports of the registered module of this name, or "Module {name} not
    /// found".
    pub fn get_module_exports(&self, name: &str) -> (r: Result<&Vec<Export>, IoError>)
        ensures
            has_module(self.spec_modules(), name@) ==> (r matches Ok(x) && *x == self.spec_modules()[module_index(
                self.spec_modules(),
                name@,
            ) as int].exports),
            !has_module(self.spec_modules(), name@) ==> (r matches Err(e) && e.spec_kind() == ErrorKind::RuntimeError
                && e.spec_message() == "Module "@ + name@ + " not found"@),
    {
        match self.resolve_module(name) {
            Ok(m) => Ok(&m.exports),
            Err(e) => Err(e),
        }
    }


    /// Looks for a dependency cycle through `module_name`, with the names in
    /// `visited` already searched and `path` the chain that leads to it. The
    /// names searched are added to `visited`, `module_name` among them.
    fn check_circular_dependencies(&self, module_name: &String, visited: &mut Vec<String>, path: &Vec<String>) -> (r:
        Result<(), IoError>)
        requires
            self.wf(),
            forall|i: int|
                0 <= i < path@.len() - 1 ==> depends(self.spec_modules(), #[trigger] path@[i]@, path@[i + 1]@),
            path@.len() > 0 ==> depends(self.spec_modules(), path@.last()@, module_name@),
        ensures
            r is Ok,
            forall|x: Seq<char>|
                strings_view(old(visited)@).contains(x) ==> strings_view(final(visited)@).contains(x),
            strings_view(final(visited)@).contains(module_name@),
    {
        let mut p = copy_strings(path);
        proof {
            lemma_strings_view_eq(p@, path@);
        }
        match self.find_cycle(module_name, visited, &mut p) {
            Some(c) => {
                proof {
                    law_registered_modules_are_acyclic(self.spec_modules());
                    lemma_cycle_not_acyclic(module_edges(self.spec_modules()), strings_view(c@));
                }
                let mut m = to_owned_string("Circular dependency detected: ");
                let j = arrow_join_strings(&c);
                push_str(&mut m, j.as_str());
                let e = IoError::validation_error(m.as_str());
                assert(e.spec_message() == cycle_message(strings_view(c@)));
                Err(e)
            },
            None => Ok(()),
        }
    }

    /// Checks a module against the registered ones: no dependency cycle runs
    /// through it (as the registered modules form none, this search always
    /// passes), and every module it depends on is registered.
    pub fn validate_dependencies(&self, module: &Module) -> (r: Result<(), IoError>)
        requires
            self.wf(),
        ensures
            match first_missing_dependency(self.spec_modules(), *module, 0) {
                Some(d) => r matches Err(e) && e.spec_kind() == ErrorKind::ValidationError && e.spec_message()
                    == missing_dependency_message(d, module.name@),
                None => r is Ok,
            },
    {
        let mut visited: Vec<String> = Vec::new();
        let path: Vec<String> = Vec::new();
        match self.check_circular_dependencies(&module.name, &mut visited, &path) {
            Err(e) => {
                return Err(e);
            },
            Ok(()) => {},
        }
        let ghost ms = self.spec_modules();
        let mut i: usize = 0;
        while i < module.dependencies.len()
            invariant
                ms == self.spec_modules(),
                i <= module.dependencies@.len(),
                first_missing_dependency(ms, *module, i as nat) == first_missing_dependency(ms, *module, 0),
            decreases module.dependencies.len() - i,
        {
            if !self.module_exists(module.dependencies[i].name.as_str()) {
                let mut m = to_owned_string("Dependency ");
                push_str(&mut m, module.dependencies[i].name.as_str());
                push_str(&mut m, " not found for module ");
                push_str(&mut m, module.name.as_str());
                return Err(IoError::validation_error(m.as_str()));
            }
            i = i + 1;
        }
        Ok(())
    }

    /// Whether a path lies within the root, as [`path_within`] says.
    fn within_root(&self, path: &String) -> (r: bool)
        ensures
            r == path_within(self.spec_root(), path@),
    {
        let root = crate::text::str_to_chars(self.root_path.as_str());
        let p = crate::text::str_to_chars(path.as_str());
        if root.len() == 0 {
            return true;
        }
        if crate::text::chars_eq(&root, &p) {
            return true;
        }
        if root.len() >= p.len() {
            return false;
        }
        let mut k: usize = 0;
        while k < root.len()
            invariant
                root@ == self.spec_root(),
                p@ == path@,
                root@.len() < p@.len(),
                k <= root@.len(),
                forall|j: int| 0 <= j < k ==> root@[j] == p@[j],
            decreases root.len() - k,
        {
            if root[k] != p[k] {
                proof {
                    assert(p@.subrange(0, root@.len() as int)[k as int] != root@[k as int]);
                }
                return false;
            }
            k = k + 1;
        }
        proof {
            assert(p@.subrange(0, root@.len() as int) =~= root@);
        }
        root[root.len() - 1] == '/' || p[root.len()] == '/'
    }

    /// Registers a module. It fails with "Module {name} already exists" for a
    /// name already registered, with "Module path must be within root path:
    /// {root}" for a path outside the root, and as
    /// [`validate_dependencies`](Self::validate_dependencies) does for a
    /// dependency not registered; otherwise the module is added and a reference
    /// to it cached.
    pub fn register_module(&mut self, module: Module) -> (r: Result<(), IoError>)
        requires
            old(self).wf(),
        ensures
            final(self).wf(),
            final(self).spec_root() == old(self).spec_root(),
            ({
                let ms = old(self).spec_modules();
                if has_module(ms, module.name@) {
                    &&& r matches Err(e)
                    &&& e.spec_kind() == ErrorKind::ValidationError
                    &&& e.spec_message() == "Module "@ + module.name@ + " already exists"@
                    &&& final(self).spec_modules() == ms
                    &&& final(self).spec_cache() == old(self).spec_cache()
                } else if !path_within(old(self).spec_root(), module.path@) {
                    &&& r matches Err(e)
                    &&& e.spec_kind() == ErrorKind::ValidationError
                    &&& e.spec_message() == "Module path must be within root path: "@ + old(self).spec_root()
                    &&& final(self).spec_modules() == ms
                    &&& final(self).spec_cache() == old(self).spec_cache()
                } else if let Some(d) = first_missing_dependency(ms, module, 0) {
                    &&& r matches Err(e)
                    &&& e.spec_kind() == ErrorKind::ValidationError
                    &&& e.spec_message() == missing_dependency_message(d, module.name@)
                    &&& final(self).spec_modules() == ms
                    &&& final(self).spec_cache() == old(self).spec_cache()
                } else {
                    &&& r is Ok
                    &&& final(self).spec_modules() == ms.push(module)
                    &&& final(self).spec_cache().len() == old(self).spec_cache().len() + 1
                    &&& final(self).spec_cache().drop_last() == old(self).spec_cache()
                    &&& final(self).spec_cache().last().0@ == module.name@
                    &&& final(self).spec_cache().last().1.name@ == module.name@
                    &&& final(self).spec_cache().last().1.version is None
                    &&& final(self).spec_cache().last().1.path@ == module.path@
                }
            }),
    {
        if self.module_exists(module.name.as_str()) {
            let mut m = to_owned_string("Module ");
            push_str(&mut m, module.name.as_str());
            push_str(&mut m, " already exists");
            return Err(IoError::validation_error(m.as_str()));
        }
        if !self.within_root(&module.path) {
            let mut m = to_owned_string("Module path must be within root path: ");
            push_str(&mut m, self.root_path.as_str());
            return Err(IoError::validation_error(m.as_str()));
        }
        match self.validate_dependencies(&module) {
            Err(e) => {
                return Err(e);
            },
            Ok(()) => {},
        }
        let entry = ModuleRef { name: module.name.clone(), version: None, path: module.path.clone() };
        self.module_cache.push((module.name.clone(), entry));
        let ghost ms = self.spec_modules();
        let ghost nm = module.name@;
        self.modules.push(module);
        proof {
            let ns = self.spec_modules();
            assert forall|i: int, j: int|
                0 <= i < j < ns.len() implies (#[trigger] ns[i]).name@ != (#[trigger] ns[j]).name@ by {
                if j == ms.len() {
                    assert(ns[i] == ms[i]);
                    if ms[i].name@ == nm {
                        assert(has_module(ms, nm));
                    }
                } else {
                    assert(ns[i] == ms[i]);
                    assert(ns[j] == ms[j]);
                }
            }
            assert forall|i: int, k: int|
                #![trigger ns[i].dependencies@[k]]
                0 <= i < ns.len() && 0 <= k < ns[i].dependencies@.len() implies exists|j: int|
                    0 <= j < i && (#[trigger] ns[j]).name@ == ns[i].dependencies@[k].name@ by {
                if i < ms.len() {
                    assert(ns[i] == ms[i]);
                    let j = choose|j: int| 0 <= j < i && (#[trigger] ms[j]).name@ == ms[i].dependencies@[k].name@;
                    assert(ns[j] == ms[j]);
                } else {
                    lemma_no_missing_dependency(ms, ns[i], 0, k);
                    let j = choose|j: int| 0 <= j < ms.len() && (#[trigger] ms[j]).name@ == ns[i].dependencies@[k].name@;
                    assert(ns[j] == ms[j]);
                }
            }
        }
        Ok(())
    }

    /// Whether the exports of the module at index `mi` name `name`.
    fn exports_symbol(&self, mi: usize, name: &String) -> (r: bool)
        requires
            mi < self.spec_modules().len(),
        ensures
            r == exports_name(self.spec_modules()[mi as int].exports@, name@),
    {
        let ex = &self.modules[mi].exports;
        let mut k: usize = 0;
        while k < ex.len()
            invariant
                ex@ == self.spec_modules()[mi as int].exports@,
                k <= ex@.len(),
                forall|t: int| 0 <= t < k ==> ex@[t].name@ != name@,
            decreases ex.len() - k,
        {
            if str_eq(ex[k].name.as_str(), name.as_str()) {
                return true;
            }
            k = k + 1;
        }
        false
    }

    /// What is wrong with one import of a module, if anything.
    fn check_import(&self, m: &Module, imp: &Import) -> (r: Option<String>)
        ensures
            match import_error(self.spec_modules(), *m, *imp) {
                Some(e) => r matches Some(x) && x@ == e,
                None => r is None,
            },
    {
        let ghost ms = self.spec_modules();
        match self.find(&imp.source_module) {
            None => {
                let mut msg = to_owned_string("Module ");
                push_str(&mut msg, m.name.as_str());
                push_str(&mut msg, " imports from non-existent module ");
                push_str(&mut msg, imp.source_module.as_str());
                Some(msg)
            },
            Some(mi) => {
                if imp.is_wildcard {
                    return None;
                }
                let mut k: usize = 0;
                while k < imp.symbols.len()
                    invariant
                        ms == self.spec_modules(),
                        mi == module_index(ms, imp.source_module@),
                        mi < ms.len(),
                        has_module(ms, imp.source_module@),
                        !imp.is_wildcard,
                        k <= imp.symbols@.len(),
                        symbol_error(ms, *imp, k as nat) == import_error(ms, *m, *imp),
                    decreases imp.symbols.len() - k,
                {
                    if !self.exports_symbol(mi, &imp.symbols[k].name) {
                        let mut msg = to_owned_string("Symbol ");
                        push_str(&mut msg, imp.symbols[k].name.as_str());
                        push_str(&mut msg, " not found in module ");
                        push_str(&mut msg, imp.source_module.as_str());
                        return Some(msg);
                    }
                    k = k + 1;
                }
                None
            },
        }
    }

    /// Checks every import of every module, in order of registration: the
    /// first wrong one fails, as [`integrity_error`] says.
    pub fn verify_module_integrity(&self) -> (r: Result<(), IoError>)
        ensures
            match integrity_error(self.spec_modules(), 0) {
                Some(m) => r matches Err(e) && e.spec_kind() == ErrorKind::ValidationError && e.spec_message() == m,
                None => r is Ok,
            },
    {
        let ghost ms = self.spec_modules();
        let mut i: usize = 0;
        while i < self.modules.len()
            invariant
                ms == self.spec_modules(),
                i <= ms.len(),
                integrity_error(ms, i as nat) == integrity_error(ms, 0),
            decreases self.modules.len() - i,
        {
            let m = &self.modules[i];
            let mut j: usize = 0;
            while j < m.imports.len()
                invariant
                    ms == self.spec_modules(),
                    i < ms.len(),
                    *m == ms[i as int],
                    j <= m.imports@.len(),
                    imports_error(ms, *m, j as nat) == imports_error(ms, *m, 0),
                    integrity_error(ms, i as nat) == integrity_error(ms, 0),
                decreases m.imports.len() - j,
            {
                match self.check_import(m, &m.imports[j]) {
                    Some(msg) => {
                        return Err(IoError::validation_error(msg.as_str()));
                    },
                    None => {},
                }
                j = j + 1;
            }
            i = i + 1;
        }
        Ok(())
    }


    /// The graph of the registered modules and their dependencies, built in
    /// order of registration: a dependency on a module not registered before or
    /// with the module fails with "Node not found"; a graph with a cycle fails
    /// as [`DependencyGraph::validate`] does.
    pub fn get_dependency_graph(&self) -> (r: Result<DependencyGraph, IoError>)
        requires
            self.wf(),
        ensures
            r matches Ok(g) && g.wf() && g.spec_nodes() == names_upto(self.spec_modules(), self.spec_modules().len() as int)
                && g.spec_edges() == module_edges(self.spec_modules()) && acyclic(module_edges(self.spec_modules())),
    {
        let ghost ms = self.spec_modules();
        proof {
            law_registered_modules_are_acyclic(ms);
            lemma_no_late_dependency(ms);
        }
        let mut graph = DependencyGraph::new();
        proof {
            assert(graph.spec_nodes() =~= names_upto(ms, 0));
            assert(graph.spec_edges() =~= edges_before(ms, 0, 0));
        }
        let mut i: usize = 0;
        while i < self.modules.len()
            invariant
                ms == self.spec_modules(),
                !late_dependency(ms),
                acyclic(module_edges(ms)),
                i <= ms.len(),
                graph.wf(),
                graph.spec_nodes() == names_upto(ms, i as int),
                graph.spec_edges() == edges_before(ms, i as int, 0),
                forall|k: int, t: int|
                    0 <= k < i && 0 <= t < ms[k].dependencies@.len() ==> names_upto(ms, k + 1).contains(
                        (#[trigger] ms[k].dependencies@[t]).name@,
                    ),
            decreases self.modules.len() - i,
        {
            let m = &self.modules[i];
            graph.add_node(m.name.clone());
            proof {
                assert forall|x: Seq<char>| graph.spec_nodes().contains(x) == names_upto(ms, i + 1).contains(x) by {
                    if x == ms[i as int].name@ {
                        assert(names_upto(ms, i + 1).contains(x));
                    }
                    if names_upto(ms, i + 1).contains(x) {
                        let k = choose|k: int| 0 <= k < i + 1 && (#[trigger] ms[k]).name@ == x;
                        if k < i {
                            assert(names_upto(ms, i as int).contains(x));
                        }
                    }
                }
                assert(graph.spec_nodes() =~= names_upto(ms, i + 1));
                assert(dependency_names(ms[i as int]).subrange(0, 0) =~= Seq::<Seq<char>>::empty());
                assert(graph.spec_edges() =~= edges_before(ms, i as int, 0));
            }
            let mut j: usize = 0;
            while j < m.dependencies.len()
                invariant
                    ms == self.spec_modules(),
                    !late_dependency(ms),
                    i < ms.len(),
                    *m == ms[i as int],
                    j <= m.dependencies@.len(),
                    graph.wf(),
                    graph.spec_nodes() == names_upto(ms, i + 1),
                    graph.spec_edges() == edges_before(ms, i as int, j as int),
                    forall|k: int, t: int|
                        0 <= k < i && 0 <= t < ms[k].dependencies@.len() ==> names_upto(ms, k + 1).contains(
                            (#[trigger] ms[k].dependencies@[t]).name@,
                        ),
                    forall|t: int| 0 <= t < j ==> names_upto(ms, i + 1).contains((#[trigger] ms[i as int].dependencies@[t]).name@),
                decreases m.dependencies.len() - j,
            {
                let ghost before = graph.spec_edges();
                assert(names_upto(ms, i + 1).contains(m.name@)) by {
                    assert(ms[i as int].name@ == m.name@);
                }
                match graph.add_edge(m.name.clone(), m.dependencies[j].name.clone()) {
                    Err(e) => {
                        proof {
                            assert(!names_upto(ms, i + 1).contains(ms[i as int].dependencies@[j as int].name@));
                            assert(late_dependency(ms));
                        }
                        return Err(e);
                    },
                    Ok(()) => {},
                }
                proof {
                    let dn = dependency_names(ms[i as int]);
                    assert(dn[j as int] == m.dependencies@[j as int].name@);
                    assert forall|e: (Seq<char>, Seq<char>)| graph.spec_edges().contains(e) == edges_before(ms, i as int, j + 1).contains(e) by {
                        if dn.subrange(0, j + 1).contains(e.1) {
                            let t = choose|t: int| 0 <= t < j + 1 && #[trigger] dn.subrange(0, j + 1)[t] == e.1;
                            if t < j {
                                assert(dn.subrange(0, j as int)[t] == e.1);
                            }
                        }
                        if dn.subrange(0, j as int).contains(e.1) {
                            let t = choose|t: int| 0 <= t < j && #[trigger] dn.subrange(0, j as int)[t] == e.1;
                            assert(dn.subrange(0, j + 1)[t] == e.1);
                        }
                        assert(dn.subrange(0, j + 1)[j as int] == dn[j as int]);
                    }
                    assert(graph.spec_edges() =~= edges_before(ms, i as int, j + 1));
                }
                j = j + 1;
            }
            proof {
                let dn = dependency_names(ms[i as int]);
                assert(dn.subrange(0, dn.len() as int) =~= dn);
                assert forall|e: (Seq<char>, Seq<char>)| edges_before(ms, i as int, j as int).contains(e) == edges_before(ms, i + 1, 0).contains(e) by {
                    if exists|k: int| 0 <= k < i + 1 && (#[trigger] ms[k]).name@ == e.0 && dependency_names(ms[k]).contains(e.1) {
                        let k = choose|k: int| 0 <= k < i + 1 && (#[trigger] ms[k]).name@ == e.0 && dependency_names(ms[k]).contains(e.1);
                        if k < i {
                            assert(exists|k2: int| 0 <= k2 < i && (#[trigger] ms[k2]).name@ == e.0 && dependency_names(ms[k2]).contains(e.1));
                        }
                    }
                    if edges_before(ms, i as int, j as int).contains(e) && !(exists|k: int| 0 <= k < i && (#[trigger] ms[k]).name@ == e.0 && dependency_names(ms[k]).contains(e.1)) {
                        assert(ms[i as int].name@ == e.0 && dn.contains(e.1));
                    }
                }
                assert(graph.spec_edges() =~= edges_before(ms, i + 1, 0));
            }
            i = i + 1;
        }
        proof {
            assert forall|e: (Seq<char>, Seq<char>)| graph.spec_edges().contains(e) == module_edges(ms).contains(e) by {
                if module_edges(ms).contains(e) {
                    let k = choose|k: int| 0 <= k < ms.len() && (#[trigger] ms[k]).name@ == e.0 && dependency_names(ms[k]).contains(e.1);
                    assert(edges_before(ms, ms.len() as int, 0).contains(e));
                }
            }
            assert(graph.spec_edges() =~= module_edges(ms));
            assert(!late_dependency(ms));
        }
        match graph.validate() {
            Ok(()) => Ok(graph),
            Err(e) => Err(e),
        }
    }

    /// Whether the depth-first search from `start` finds a dependency cycle; as
    /// the registered modules form none, it never does.
    fn has_cyclic_dependencies(&self, start: &String) -> (r: bool)
        requires
            self.wf(),
        ensures
            !r,
    {
        let mut visited: Vec<String> = Vec::new();
        let mut path: Vec<String> = Vec::new();
        match self.find_cycle(start, &mut visited, &mut path) {
            Some(c) => {
                proof {
                    law_registered_modules_are_acyclic(self.spec_modules());
                    lemma_cycle_not_acyclic(module_edges(self.spec_modules()), strings_view(c@));
                }
                true
            },
            None => false,
        }
    }

    /// The counts of the module of this name, whether the search from it finds
    /// a dependency cycle (it never does), and its visibility; "Module not
    /// found" if there is no such module.
    pub fn analyze_module_metrics(&self, name: &str) -> (r: Result<ModuleMetrics, IoError>)
        requires
            self.wf(),
        ensures
            !has_module(self.spec_modules(), name@) ==> (r matches Err(e) && e.spec_kind() == ErrorKind::RuntimeError
                && e.spec_message() == "Module not found"@),
            has_module(self.spec_modules(), name@) ==> (r matches Ok(mm) && {
                let m = self.spec_modules()[module_index(self.spec_modules(), name@) as int];
                &&& mm.export_count == m.exports@.len()
                &&& mm.import_count == m.imports@.len()
                &&& mm.dependency_count == m.dependencies@.len()
                &&& !mm.is_cyclic
                &&& same_visibility(m.visibility, mm.visibility)
            }),
    {
        let n = to_owned_string(name);
        match self.find(&n) {
            None => Err(IoError::runtime_error("Module not found")),
            Some(i) => {
                let m = &self.modules[i];
                Ok(
                    ModuleMetrics {
                        export_count: m.exports.len(),
                        import_count: m.imports.len(),
                        dependency_count: m.dependencies.len(),
                        is_cyclic: self.has_cyclic_dependencies(&n),
                        visibility: m.visibility.duplicate(),
                    },
                )
            },
        }
    }

    /// Reloads a module from new source: the source must lex and parse, and the
    /// module must be registered ("Module not found" otherwise); the search from
    /// it must find no dependency cycle. The module is then replaced by one of
    /// the same name and path with no exports, imports or dependencies, private.
    pub fn hot_reload(&mut self, module_name: &str, new_source: &str) -> (r: Result<(), IoError>)
        requires
            old(self).wf(),
        ensures
            final(self).wf(),
            final(self).spec_root() == old(self).spec_root(),
            final(self).spec_cache() == old(self).spec_cache(),
            !source_parses(new_source@) ==> r is Err && final(self).spec_modules() == old(self).spec_modules(),
            source_parses(new_source@) && !has_module(old(self).spec_modules(), module_name@) ==> (r matches Err(e)
                && e.spec_kind() == ErrorKind::RuntimeError && e.spec_message() == "Module not found"@
                && final(self).spec_modules() == old(self).spec_modules()),
            source_parses(new_source@) && has_module(old(self).spec_modules(), module_name@) ==> {
                let ms = old(self).spec_modules();
                let k = module_index(ms, module_name@) as int;
                &&& r is Ok
                &&& final(self).spec_modules().len() == ms.len() && (forall|t: int|
                    0 <= t < ms.len() && t != k ==> final(self).spec_modules()[t] == ms[t]) && {
                    let nm = final(self).spec_modules()[k];
                    &&& nm.name@ == module_name@
                    &&& nm.path@ == ms[k].path@
                    &&& nm.exports@.len() == 0
                    &&& nm.imports@.len() == 0
                    &&& nm.dependencies@.len() == 0
                    &&& nm.visibility is Private
                }
            },
    {
        match parse_source(new_source) {
            Ok(_) => {},
            Err(e) => {
                return Err(e);
            },
        }
        let n = to_owned_string(module_name);
        let idx = match self.find(&n) {
            Some(i) => i,
            None => {
                return Err(IoError::runtime_error("Module not found"));
            },
        };
        let temp = Module {
            name: to_owned_string(module_name),
            path: self.modules[idx].path.clone(),
            exports: Vec::new(),
            imports: Vec::new(),
            dependencies: Vec::new(),
            visibility: ModuleVisibility::Private,
        };
        match self.validate_dependencies(&temp) {
            Err(e) => {
                proof {
                    assert(first_missing_dependency(self.spec_modules(), temp, 0) is None);
                }
                return Err(e);
            },
            Ok(()) => {},
        }
        let ghost ms = self.spec_modules();
        self.modules.set(idx, temp);
        proof {
            let ns = self.spec_modules();
            assert forall|i: int, j: int|
                0 <= i < j < ns.len() implies (#[trigger] ns[i]).name@ != (#[trigger] ns[j]).name@ by {
                assert(ns[i].name@ == ms[i].name@);
                assert(ns[j].name@ == ms[j].name@);
            }
            assert forall|i: int, k: int|
                #![trigger ns[i].dependencies@[k]]
                0 <= i < ns.len() && 0 <= k < ns[i].dependencies@.len() implies exists|j: int|
                    0 <= j < i && (#[trigger] ns[j]).name@ == ns[i].dependencies@[k].name@ by {
                assert(i != idx);
                assert(ns[i] == ms[i]);
                let j = choose|j: int| 0 <= j < i && (#[trigger] ms[j]).name@ == ms[i].dependencies@[k].name@;
                assert(ns[j].name@ == ms[j].name@);
            }
        }
        Ok(())
    }

    /// Searches depth first from `name` for a dependency cycle. `visited` holds
    /// the names seen so far and grows; `path` holds the chain being followed and
    /// is left as it was. A name met again while still on the chain closes a
    /// cycle, which is returned from that name round to it again.
    fn find_cycle(&self, name: &String, visited: &mut Vec<String>, path: &mut Vec<String>) -> (r: Option<
        Vec<String>,
    >)
        requires
            forall|i: int|
                0 <= i < old(path)@.len() - 1 ==> depends(
                    self.spec_modules(),
                    #[trigger] old(path)@[i]@,
                    old(path)@[i + 1]@,
                ),
            old(path)@.len() > 0 ==> depends(self.spec_modules(), old(path)@.last()@, name@),
        ensures
            strings_view(final(path)@) == strings_view(old(path)@),
            forall|x: Seq<char>|
                strings_view(old(visited)@).contains(x) ==> strings_view(final(visited)@).contains(x),
            strings_view(final(visited)@).contains(name@),
            r matches Some(c) ==> is_cycle(module_edges(self.spec_modules()), strings_view(c@)),
            !has_module(self.spec_modules(), name@) ==> r is None,
        decreases unvisited(self.spec_modules(), strings_view(old(visited)@)),
    {
        let ghost ms = self.spec_modules();
        let ghost edges = module_edges(ms);
        let ghost p0 = strings_view(path@);
        if let Some(vk) = contains_name(visited, name) {
            assert(strings_view(visited@)[vk as int] == name@);
            match contains_name(path, name) {
                Some(k) => {
                    let mut c: Vec<String> = Vec::new();
                    let mut j = k;
                    while j < path.len()
                        invariant
                            k <= j <= path@.len(),
                            k < path@.len(),
                            c@.len() == j - k,
                            forall|t: int| 0 <= t < c@.len() ==> (#[trigger] c@[t])@ == path@[k + t]@,
                        decreases path.len() - j,
                    {
                        c.push(path[j].clone());
                        j = j + 1;
                    }
                    c.push(name.clone());
                    proof {
                        let cv = strings_view(c@);
                        assert(cv.len() >= 2);
                        assert(cv[0] == name@);
                        assert forall|t: int| 0 <= t < cv.len() - 1 implies #[trigger] edges.contains(
                            (cv[t], cv[t + 1]),
                        ) by {
                            if t < cv.len() - 2 {
                                assert(cv[t] == path@[k + t]@);
                                assert(cv[t + 1] == path@[k + t + 1]@);
                                assert(depends(ms, path@[k + t]@, path@[k + t + 1]@));
                            } else {
                                assert(cv[t] == path@[path@.len() - 1]@);
                                assert(depends(ms, path@.last()@, name@));
                            }
                        }
                    }
                    return Some(c);
                },
                None => {
                    return None;
                },
            }
        }
        let ghost v0 = strings_view(visited@);
        visited.push(name.clone());
        proof {
            assert(strings_view(visited@) =~= v0.push(name@));
            lemma_push_contains(v0, name@);
        }
        let idx = self.find(name);
        match idx {
            None => {
                return None;
            },
            Some(mi) => {
                path.push(name.clone());
                proof {
                    assert(strings_view(path@) =~= p0.push(name@));
                }
                let nd = self.modules[mi].dependencies.len();
                let mut d: usize = 0;
                while d < nd
                    invariant
                        ms == self.spec_modules(),
                        edges == module_edges(ms),
                        mi < ms.len(),
                        ms[mi as int].name@ == name@,
                        nd == ms[mi as int].dependencies@.len(),
                        d <= nd,
                        strings_view(path@) == p0.push(name@),
                        p0 == strings_view(old(path)@),
                        v0 == strings_view(old(visited)@),
                        path@.len() == p0.len() + 1,
                        forall|i: int|
                            0 <= i < path@.len() - 1 ==> depends(ms, #[trigger] path@[i]@, path@[i + 1]@),
                        path@.last()@ == name@,
                        forall|x: Seq<char>| v0.contains(x) ==> strings_view(visited@).contains(x),
                        strings_view(visited@).contains(name@),
                        !v0.contains(name@),
                        has_module(ms, name@),
                        unvisited(ms, v0) == unvisited(self.spec_modules(), strings_view(old(visited)@)),
                    decreases nd - d,
                {
                    let dep = &self.modules[mi].dependencies[d];
                    proof {
                        assert(dependency_names(ms[mi as int])[d as int] == dep.name@);
                        assert(depends(ms, name@, dep.name@));
                        lemma_unvisited_drop(ms, v0, strings_view(visited@), name@);
                    }
                    let ghost before_call = path@;
                    let found = self.find_cycle(&dep.name, visited, path);
                    proof {
                        lemma_strings_view_eq(path@, before_call);
                    }
                    if found.is_some() {
                        let ghost pre = path@;
                        path.pop();
                        proof {
                            lemma_strings_view_drop_last(pre);
                            assert(strings_view(path@) =~= p0);
                        }
                        return found;
                    }
                    d = d + 1;
                }
                let ghost pre = path@;
                path.pop();
                proof {
                    lemma_strings_view_drop_last(pre);
                    assert(strings_view(path@) =~= p0);
                }
                None
            },
        }
    }
}


/// A module that registered is known to the manager, and no module was lost.
pub proof fn law_registered_module_exists(before: Seq<Module>, after: Seq<Module>, m: Module, other: Seq<char>)
    requires
        after == before.push(m),
    ensures
        has_module(after, m.name@),
        has_module(before, other) ==> has_module(after, other),
{
    assert(after[before.len() as int] == m);
    if has_module(before, other) {
        let i = choose|i: int| 0 <= i < before.len() && (#[trigger] before[i]).name@ == other;
        assert(after[i] == before[i]);
    }
}

} // verus!
