//! The library model and the emission pipeline: the six by-name item
//! tables, the path resolver, the dependency walker, the
//! specialization engine, and the build step that turns the model
//! into an ordered list of emittable items plus a function list.

use vstd::multiset::Multiset;
use vstd::prelude::*;

use crate::config::Config;
use crate::ir::names_view;
use crate::ir::Enum;
use crate::ir::EnumView;
use crate::ir::Function;
use crate::ir::FunctionView;
use crate::ir::OpaqueStruct;
use crate::ir::OpaqueStructView;
use crate::ir::Specialization;
use crate::ir::SpecializationView;
use crate::ir::Struct;
use crate::ir::StructView;
use crate::ir::Type;
use crate::ir::TypeView;
use crate::ir::Typedef;
use crate::ir::TypedefView;
use crate::text::string_eq;

verus! {

broadcast use vstd::std_specs::vec::axiom_vec_index_decreases;

/// A reference to an item by its unqualified name.
pub type PathRef = String;

/// What a `PathRef` may resolve to: one of the five item forms.
#[derive(Debug, PartialEq)]
pub enum PathValue {
    Enum(Enum),
    Struct(Struct),
    OpaqueStruct(OpaqueStruct),
    Typedef(Typedef),
    Specialization(Specialization),
}

/// The mathematical shape of a `PathValue`.
#[verifier::ext_equal]
pub enum PathValueView {
    Enum(EnumView),
    Struct(StructView),
    OpaqueStruct(OpaqueStructView),
    Typedef(TypedefView),
    Specialization(SpecializationView),
}

impl PathValueView {
    /// The name of the item, whichever form it has.
    pub open spec fn name(self) -> Seq<char> {
        match self {
            PathValueView::Enum(x) => x.name,
            PathValueView::Struct(x) => x.name,
            PathValueView::OpaqueStruct(x) => x.name,
            PathValueView::Typedef(x) => x.name,
            PathValueView::Specialization(x) => x.name,
        }
    }
}

impl View for PathValue {
    type V = PathValueView;

    open spec fn view(&self) -> PathValueView {
        match self {
            PathValue::Enum(x) => PathValueView::Enum(x@),
            PathValue::Struct(x) => PathValueView::Struct(x@),
            PathValue::OpaqueStruct(x) => PathValueView::OpaqueStruct(x@),
            PathValue::Typedef(x) => PathValueView::Typedef(x@),
            PathValue::Specialization(x) => PathValueView::Specialization(x@),
        }
    }
}

impl PathValue {
    /// The name of the item, whichever form it has.
    pub fn name(&self) -> (r: &String)
        ensures
            r@ == self@.name(),
    {
        match self {
            PathValue::Enum(x) => &x.name,
            PathValue::Struct(x) => &x.name,
            PathValue::OpaqueStruct(x) => &x.name,
            PathValue::Typedef(x) => &x.name,
            PathValue::Specialization(x) => &x.name,
        }
    }

    /// A copy, equal in view.
    pub fn duplicate(&self) -> (r: PathValue)
        ensures
            r@ == self@,
    {
        match self {
            PathValue::Enum(x) => PathValue::Enum(x.duplicate()),
            PathValue::Struct(x) => PathValue::Struct(x.duplicate()),
            PathValue::OpaqueStruct(x) => PathValue::OpaqueStruct(x.duplicate()),
            PathValue::Typedef(x) => PathValue::Typedef(x.duplicate()),
            PathValue::Specialization(x) => PathValue::Specialization(x.duplicate()),
        }
    }
}

impl Clone for PathValue {
    fn clone(&self) -> (r: Self)
        ensures
            r@ == self@,
    {
        self.duplicate()
    }
}

/// The working state of the dependency walk: the emission order built
/// so far, and the names already visited.
#[derive(Debug)]
pub struct DependencyGraph {
    pub order: Vec<PathValue>,
    pub items: Vec<PathRef>,
}

/// The mathematical shape of a `DependencyGraph`.
#[verifier::ext_equal]
pub struct DependencyGraphView {
    pub order: Seq<PathValueView>,
    pub items: Seq<Seq<char>>,
}

impl View for DependencyGraph {
    type V = DependencyGraphView;

    open spec fn view(&self) -> DependencyGraphView {
        DependencyGraphView {
            order: Seq::new(self.order@.len(), |i: int| self.order@[i]@),
            items: Seq::new(self.items@.len(), |i: int| self.items@[i]@),
        }
    }
}

impl DependencyGraph {
    /// An empty graph.
    pub fn new() -> (r: DependencyGraph)
        ensures
            r@.order.len() == 0,
            r@.items.len() == 0,
    {
        DependencyGraph { order: Vec::new(), items: Vec::new() }
    }
}

/// A library: the six disjoint by-name tables filled by intake, plus
/// the name of the crate whose exports are being bound and the
/// configuration the run uses.  Within each table names are unique.
#[derive(Debug)]
pub struct Library {
    pub bindings_crate_name: String,
    pub config: Config,
    pub enums: Vec<Enum>,
    pub structs: Vec<Struct>,
    pub opaque_structs: Vec<OpaqueStruct>,
    pub typedefs: Vec<Typedef>,
    pub specializations: Vec<Specialization>,
    pub functions: Vec<Function>,
}

/// The mathematical shape of a `Library`.
#[verifier::ext_equal]
pub struct LibraryView {
    pub bindings_crate_name: Seq<char>,
    pub config: crate::config::ConfigView,
    pub enums: Seq<EnumView>,
    pub structs: Seq<StructView>,
    pub opaque_structs: Seq<OpaqueStructView>,
    pub typedefs: Seq<TypedefView>,
    pub specializations: Seq<SpecializationView>,
    pub functions: Seq<FunctionView>,
}

impl View for Library {
    type V = LibraryView;

    open spec fn view(&self) -> LibraryView {
        LibraryView {
            bindings_crate_name: self.bindings_crate_name@,
            config: self.config@,
            enums: Seq::new(self.enums@.len(), |i: int| self.enums@[i]@),
            structs: Seq::new(self.structs@.len(), |i: int| self.structs@[i]@),
            opaque_structs: Seq::new(self.opaque_structs@.len(), |i: int| self.opaque_structs@[i]@),
            typedefs: Seq::new(self.typedefs@.len(), |i: int| self.typedefs@[i]@),
            specializations: Seq::new(
                self.specializations@.len(),
                |i: int| self.specializations@[i]@,
            ),
            functions: Seq::new(self.functions@.len(), |i: int| self.functions@[i]@),
        }
    }
}

/// The first enumeration of that name, probing front to back.
pub open spec fn find_enum(s: Seq<EnumView>, n: Seq<char>) -> Option<EnumView>
    decreases s.len(),
{
    if s.len() == 0 {
        None
    } else if s[0].name == n {
        Some(s[0])
    } else {
        find_enum(s.drop_first(), n)
    }
}

/// The first aggregate of that name, probing front to back.
pub open spec fn find_struct(s: Seq<StructView>, n: Seq<char>) -> Option<StructView>
    decreases s.len(),
{
    if s.len() == 0 {
        None
    } else if s[0].name == n {
        Some(s[0])
    } else {
        find_struct(s.drop_first(), n)
    }
}

/// The first opaque aggregate of that name, probing front to back.
pub open spec fn find_opaque(s: Seq<OpaqueStructView>, n: Seq<char>) -> Option<OpaqueStructView>
    decreases s.len(),
{
    if s.len() == 0 {
        None
    } else if s[0].name == n {
        Some(s[0])
    } else {
        find_opaque(s.drop_first(), n)
    }
}

/// The first type alias of that name, probing front to back.
pub open spec fn find_typedef(s: Seq<TypedefView>, n: Seq<char>) -> Option<TypedefView>
    decreases s.len(),
{
    if s.len() == 0 {
        None
    } else if s[0].name == n {
        Some(s[0])
    } else {
        find_typedef(s.drop_first(), n)
    }
}

/// The first specialization of that name, probing front to back.
pub open spec fn find_specialization(s: Seq<SpecializationView>, n: Seq<char>) -> Option<
    SpecializationView,
>
    decreases s.len(),
{
    if s.len() == 0 {
        None
    } else if s[0].name == n {
        Some(s[0])
    } else {
        find_specialization(s.drop_first(), n)
    }
}

/// What `resolve_path` returns: the five tables probed in a fixed
/// order — enumerations, aggregates, opaque aggregates, type aliases,
/// specializations — and the first hit taken.
pub open spec fn resolve_spec(lib: LibraryView, n: Seq<char>) -> Option<PathValueView> {
    if find_enum(lib.enums, n) is Some {
        Some(PathValueView::Enum(find_enum(lib.enums, n)->0))
    } else if find_struct(lib.structs, n) is Some {
        Some(PathValueView::Struct(find_struct(lib.structs, n)->0))
    } else if find_opaque(lib.opaque_structs, n) is Some {
        Some(PathValueView::OpaqueStruct(find_opaque(lib.opaque_structs, n)->0))
    } else if find_typedef(lib.typedefs, n) is Some {
        Some(PathValueView::Typedef(find_typedef(lib.typedefs, n)->0))
    } else if find_specialization(lib.specializations, n) is Some {
        Some(PathValueView::Specialization(find_specialization(lib.specializations, n)->0))
    } else {
        None
    }
}

/// A resolved item bears the name it was looked up under.
pub proof fn lemma_find_names(lib: LibraryView, n: Seq<char>)
    ensures
        match resolve_spec(lib, n) {
            Some(v) => v.name() == n,
            None => true,
        },
{
    lemma_find_enum_name(lib.enums, n);
    lemma_find_struct_name(lib.structs, n);
    lemma_find_opaque_name(lib.opaque_structs, n);
    lemma_find_typedef_name(lib.typedefs, n);
    lemma_find_specialization_name(lib.specializations, n);
}

proof fn lemma_find_enum_name(s: Seq<EnumView>, n: Seq<char>)
    ensures
        find_enum(s, n) is Some ==> find_enum(s, n)->0.name == n,
    decreases s.len(),
{
    if s.len() > 0 && s[0].name != n {
        lemma_find_enum_name(s.drop_first(), n);
    }
}

proof fn lemma_find_struct_name(s: Seq<StructView>, n: Seq<char>)
    ensures
        find_struct(s, n) is Some ==> find_struct(s, n)->0.name == n,
    decreases s.len(),
{
    if s.len() > 0 && s[0].name != n {
        lemma_find_struct_name(s.drop_first(), n);
    }
}

proof fn lemma_find_opaque_name(s: Seq<OpaqueStructView>, n: Seq<char>)
    ensures
        find_opaque(s, n) is Some ==> find_opaque(s, n)->0.name == n,
    decreases s.len(),
{
    if s.len() > 0 && s[0].name != n {
        lemma_find_opaque_name(s.drop_first(), n);
    }
}

proof fn lemma_find_typedef_name(s: Seq<TypedefView>, n: Seq<char>)
    ensures
        find_typedef(s, n) is Some ==> find_typedef(s, n)->0.name == n,
    decreases s.len(),
{
    if s.len() > 0 && s[0].name != n {
        lemma_find_typedef_name(s.drop_first(), n);
    }
}

proof fn lemma_find_specialization_name(s: Seq<SpecializationView>, n: Seq<char>)
    ensures
        find_specialization(s, n) is Some ==> find_specialization(s, n)->0.name == n,
    decreases s.len(),
{
    if s.len() > 0 && s[0].name != n {
        lemma_find_specialization_name(s.drop_first(), n);
    }
}

/// Path resolution is a function of the library and the name: for a
/// given well-formed library a name resolves to exactly one item, of
/// exactly one kind; two resolutions of the same name agree.
pub proof fn lemma_resolve_path_unique(
    lib: LibraryView,
    n: Seq<char>,
    v1: PathValueView,
    v2: PathValueView,
)
    requires
        resolve_spec(lib, n) == Some(v1),
        resolve_spec(lib, n) == Some(v2),
    ensures
        v1 == v2,
{
}

impl Library {
    /// An empty library for the given binding crate, under the given
    /// configuration.
    pub fn blank(bindings_crate_name: &str, config: Config) -> (r: Library)
        ensures
            r@.bindings_crate_name == bindings_crate_name@,
            r@.config == config@,
            r@.enums.len() == 0,
            r@.structs.len() == 0,
            r@.opaque_structs.len() == 0,
            r@.typedefs.len() == 0,
            r@.specializations.len() == 0,
            r@.functions.len() == 0,
    {
        Library {
            bindings_crate_name: String::from_str(bindings_crate_name),
            config,
            enums: Vec::new(),
            structs: Vec::new(),
            opaque_structs: Vec::new(),
            typedefs: Vec::new(),
            specializations: Vec::new(),
            functions: Vec::new(),
        }
    }

    /// Looks a name up across the five item tables, in the fixed
    /// probing order, and returns a copy of the first match.
    pub fn resolve_path(&self, p: &PathRef) -> (r: Option<PathValue>)
        ensures
            match r {
                Some(v) => resolve_spec(self@, p@) == Some(v@),
                None => resolve_spec(self@, p@) is None,
            },
    {
        let mut i: usize = 0;
        proof {
            assert(self@.enums.skip(0) =~= self@.enums);
        }
        while i < self.enums.len()
            invariant
                i <= self.enums.len(),
                find_enum(self@.enums, p@) == find_enum(self@.enums.skip(i as int), p@),
            decreases self.enums.len() - i,
        {
            proof {
                assert(self@.enums.skip(i as int).drop_first() =~= self@.enums.skip(i as int + 1));
            }
            if string_eq(&self.enums[i].name, p) {
                return Some(PathValue::Enum(self.enums[i].duplicate()));
            }
            i += 1;
        }
        proof {
            assert(self@.enums.skip(self.enums@.len() as int) =~= Seq::<EnumView>::empty());
        }
        let mut i: usize = 0;
        proof {
            assert(self@.structs.skip(0) =~= self@.structs);
        }
        while i < self.structs.len()
            invariant
                i <= self.structs.len(),
                find_enum(self@.enums, p@) is None,
                find_struct(self@.structs, p@) == find_struct(self@.structs.skip(i as int), p@),
            decreases self.structs.len() - i,
        {
            proof {
                assert(self@.structs.skip(i as int).drop_first() =~= self@.structs.skip(
                    i as int + 1,
                ));
            }
            if string_eq(&self.structs[i].name, p) {
                return Some(PathValue::Struct(self.structs[i].duplicate()));
            }
            i += 1;
        }
        proof {
            assert(self@.structs.skip(self.structs@.len() as int) =~= Seq::<StructView>::empty());
        }
        let mut i: usize = 0;
        proof {
            assert(self@.opaque_structs.skip(0) =~= self@.opaque_structs);
        }
        while i < self.opaque_structs.len()
            invariant
                i <= self.opaque_structs.len(),
                find_enum(self@.enums, p@) is None,
                find_struct(self@.structs, p@) is None,
                find_opaque(self@.opaque_structs, p@) == find_opaque(
                    self@.opaque_structs.skip(i as int),
                    p@,
                ),
            decreases self.opaque_structs.len() - i,
        {
            proof {
                assert(self@.opaque_structs.skip(i as int).drop_first() =~= self@.opaque_structs
                    .skip(i as int + 1));
            }
            if string_eq(&self.opaque_structs[i].name, p) {
                return Some(PathValue::OpaqueStruct(self.opaque_structs[i].duplicate()));
            }
            i += 1;
        }
        proof {
            assert(self@.opaque_structs.skip(self.opaque_structs@.len() as int) =~= Seq::<
                OpaqueStructView,
            >::empty());
        }
        let mut i: usize = 0;
        proof {
            assert(self@.typedefs.skip(0) =~= self@.typedefs);
        }
        while i < self.typedefs.len()
            invariant
                i <= self.typedefs.len(),
                find_enum(self@.enums, p@) is None,
                find_struct(self@.structs, p@) is None,
                find_opaque(self@.opaque_structs, p@) is None,
                find_typedef(self@.typedefs, p@) == find_typedef(
                    self@.typedefs.skip(i as int),
                    p@,
                ),
            decreases self.typedefs.len() - i,
        {
            proof {
                assert(self@.typedefs.skip(i as int).drop_first() =~= self@.typedefs.skip(
                    i as int + 1,
                ));
            }
            if string_eq(&self.typedefs[i].name, p) {
                return Some(PathValue::Typedef(self.typedefs[i].duplicate()));
            }
            i += 1;
        }
        proof {
            assert(self@.typedefs.skip(self.typedefs@.len() as int) =~= Seq::<
                TypedefView,
            >::empty());
        }
        let mut i: usize = 0;
        proof {
            assert(self@.specializations.skip(0) =~= self@.specializations);
        }
        while i < self.specializations.len()
            invariant
                i <= self.specializations.len(),
                find_enum(self@.enums, p@) is None,
                find_struct(self@.structs, p@) is None,
                find_opaque(self@.opaque_structs, p@) is None,
                find_typedef(self@.typedefs, p@) is None,
                find_specialization(self@.specializations, p@) == find_specialization(
                    self@.specializations.skip(i as int),
                    p@,
                ),
            decreases self.specializations.len() - i,
        {
            proof {
                assert(self@.specializations.skip(i as int).drop_first() =~= self@.specializations
                    .skip(i as int + 1));
            }
            if string_eq(&self.specializations[i].name, p) {
                return Some(PathValue::Specialization(self.specializations[i].duplicate()));
            }
            i += 1;
        }
        proof {
            assert(self@.specializations.skip(self.specializations@.len() as int) =~= Seq::<
                SpecializationView,
            >::empty());
        }
        None
    }
}

/// The names of the items of an emission order, in order.
pub open spec fn view_names(s: Seq<PathValueView>) -> Seq<Seq<char>> {
    Seq::new(s.len(), |i: int| s[i].name())
}

/// Well-formedness of a dependency graph with respect to a library:
/// the ordered items bear pairwise distinct names, every ordered item
/// is recorded as visited, and every ordered item is exactly what its
/// name resolves to.
pub open spec fn graph_wf(g: DependencyGraphView, lib: LibraryView) -> bool {
    &&& forall|i: int, j: int|
        0 <= i < j < g.order.len() ==> #[trigger] g.order[i].name() != #[trigger] g.order[j].name()
    &&& forall|i: int| 0 <= i < g.order.len() ==> g.items.contains(#[trigger] g.order[i].name())
    &&& forall|i: int|
        0 <= i < g.order.len() ==> resolve_spec(lib, g.order[i].name()) == Some(
            #[trigger] g.order[i],
        )
}

/// One pending step of the dependency walk.
enum WalkTask {
    /// Visit the name: resolve it, walk its dependencies, then emit it.
    FullPath(PathRef),
    /// Walk the dependencies of the name without emitting the item.
    DepsOnlyPath(PathRef),
    /// Append the already-resolved item to the order.
    Emit(PathValue),
}

/// The ghost shape of one pending walk step.
pub enum WalkTaskView {
    FullPath(Seq<char>),
    DepsOnlyPath(Seq<char>),
    Emit(PathValueView),
}

/// The view of one walk task.
spec fn task_view(t: WalkTask) -> WalkTaskView {
    match t {
        WalkTask::FullPath(p) => WalkTaskView::FullPath(p@),
        WalkTask::DepsOnlyPath(p) => WalkTaskView::DepsOnlyPath(p@),
        WalkTask::Emit(v) => WalkTaskView::Emit(v@),
    }
}

/// The views of a task stack.
spec fn tasks_view(v: Vec<WalkTask>) -> Seq<WalkTaskView> {
    Seq::new(v@.len(), |i: int| task_view(v@[i]))
}

/// The named references inside a type, in source order: the head of a
/// named reference unless it is an enclosing generic parameter, then
/// the references inside its generic arguments; pointer targets,
/// array elements, and function-pointer parameter and return types
/// are descended.
pub open spec fn type_refs(t: TypeView, params: Seq<Seq<char>>) -> Seq<Seq<char>>
    decreases t,
{
    match t {
        TypeView::Primitive(_) => Seq::empty(),
        TypeView::ConstPtr(b) => type_refs(*b, params),
        TypeView::Ptr(b) => type_refs(*b, params),
        TypeView::Array(b, _) => type_refs(*b, params),
        TypeView::Path(p, args) => (if params.contains(p) {
            Seq::<Seq<char>>::empty()
        } else {
            seq![p]
        }) + types_refs(args, params),
        TypeView::FuncPtr(r, args) => type_refs(*r, params) + types_refs(args, params),
    }
}

/// The named references inside a list of types, concatenated.
pub open spec fn types_refs(ts: Seq<TypeView>, params: Seq<Seq<char>>) -> Seq<Seq<char>>
    decreases ts,
{
    if ts.len() == 0 {
        Seq::empty()
    } else {
        type_refs(ts[0], params) + types_refs(ts.drop_first(), params)
    }
}

/// The named references inside a list of named fields, concatenated.
pub open spec fn fields_refs(fs: Seq<(Seq<char>, TypeView)>, params: Seq<Seq<char>>) -> Seq<
    Seq<char>,
>
    decreases fs,
{
    if fs.len() == 0 {
        Seq::empty()
    } else {
        type_refs(fs[0].1, params) + fields_refs(fs.drop_first(), params)
    }
}

/// The named references of a function's signature: every argument
/// type in order, then the return type.
pub open spec fn fn_refs(f: FunctionView) -> Seq<Seq<char>> {
    fields_refs(f.args, Seq::empty()) + type_refs(f.ret, Seq::empty())
}

/// Visit tasks for a list of names, in stack order: the task for the
/// first name is processed first, so it stands last.
pub open spec fn rev_fullpaths(names: Seq<Seq<char>>) -> Seq<WalkTaskView> {
    Seq::new(names.len(), |k: int| WalkTaskView::FullPath(names[names.len() - 1 - k]))
}

/// The dependency tasks of one item, in stack order.  An enumeration
/// or an opaque aggregate contributes nothing; an aggregate walks its
/// field types in source order, skipping its own generic parameters;
/// a type alias walks its aliased type; a specialization first walks
/// the dependencies of its body's target without emitting it, then
/// visits every named reference of its generic arguments.
pub open spec fn dep_tasks_stack(v: PathValueView) -> Seq<WalkTaskView> {
    match v {
        PathValueView::Enum(_) => Seq::empty(),
        PathValueView::OpaqueStruct(_) => Seq::empty(),
        PathValueView::Struct(st) => rev_fullpaths(fields_refs(st.fields, st.generic_params)),
        PathValueView::Typedef(t) => rev_fullpaths(type_refs(t.aliased, Seq::empty())),
        PathValueView::Specialization(sp) => rev_fullpaths(
            types_refs(sp.generic_values, Seq::empty()),
        ) + seq![WalkTaskView::DepsOnlyPath(sp.aliased_name)],
    }
}

/// The dependency tasks of a function's signature, in stack order.
pub open spec fn fn_dep_stack(f: FunctionView) -> Seq<WalkTaskView> {
    rev_fullpaths(fn_refs(f))
}

/// A list of names with every occurrence of one name removed.
pub open spec fn remove_all(s: Seq<Seq<char>>, n: Seq<char>) -> Seq<Seq<char>>
    decreases s.len(),
{
    if s.len() == 0 {
        s
    } else if s[0] == n {
        remove_all(s.drop_first(), n)
    } else {
        seq![s[0]] + remove_all(s.drop_first(), n)
    }
}

/// Removal never lengthens the list, and strictly shortens it when
/// the name occurs.
proof fn lemma_remove_all_len(s: Seq<Seq<char>>, n: Seq<char>)
    ensures
        remove_all(s, n).len() <= s.len(),
        s.contains(n) ==> remove_all(s, n).len() < s.len(),
    decreases s.len(),
{
    if s.len() > 0 {
        lemma_remove_all_len(s.drop_first(), n);
        if s[0] != n && s.contains(n) {
            let j = choose|j: int| 0 <= j < s.len() && s[j] == n;
            assert(s.drop_first()[j - 1] == n);
            assert(s.drop_first().contains(n));
        }
    }
}

/// The names of every item of every table, in table order.
pub open spec fn table_names(lib: LibraryView) -> Seq<Seq<char>> {
    Seq::new(lib.enums.len(), |i: int| lib.enums[i].name) + Seq::new(
        lib.structs.len(),
        |i: int| lib.structs[i].name,
    ) + Seq::new(lib.opaque_structs.len(), |i: int| lib.opaque_structs[i].name) + Seq::new(
        lib.typedefs.len(),
        |i: int| lib.typedefs[i].name,
    ) + Seq::new(lib.specializations.len(), |i: int| lib.specializations[i].name)
}

/// The dependency walk itself, task by task from the top of the
/// stack.  A visit of an unvisited name that resolves marks it
/// visited, schedules its emission, and stacks its dependency tasks
/// on top; the visited set breaks cycles, and the second name list
/// keeps a dependencies-only walk from revisiting one target.  The
/// two name lists start as the full table contents, so the branch for
/// an exhausted list is never reached from the executable walker.
pub open spec fn walk_spec(
    lib: LibraryView,
    g: DependencyGraphView,
    tasks: Seq<WalkTaskView>,
    u1: Seq<Seq<char>>,
    u2: Seq<Seq<char>>,
) -> DependencyGraphView
    decreases u1.len() + u2.len(), tasks.len(),
    via walk_spec_termination
{
    if tasks.len() == 0 {
        g
    } else {
        let rest = tasks.drop_last();
        match tasks.last() {
            WalkTaskView::FullPath(p) => {
                if g.items.contains(p) {
                    walk_spec(lib, g, rest, u1, u2)
                } else {
                    match resolve_spec(lib, p) {
                        Some(v) => {
                            if u1.contains(p) {
                                walk_spec(
                                    lib,
                                    DependencyGraphView { order: g.order, items: g.items.push(p) },
                                    rest + seq![WalkTaskView::Emit(v)] + dep_tasks_stack(v),
                                    remove_all(u1, p),
                                    u2,
                                )
                            } else {
                                g
                            }
                        },
                        None => walk_spec(lib, g, rest, u1, u2),
                    }
                }
            },
            WalkTaskView::DepsOnlyPath(p) => {
                if u2.contains(p) {
                    match resolve_spec(lib, p) {
                        Some(v) => walk_spec(
                            lib,
                            g,
                            rest + dep_tasks_stack(v),
                            u1,
                            remove_all(u2, p),
                        ),
                        None => walk_spec(lib, g, rest, u1, u2),
                    }
                } else {
                    walk_spec(lib, g, rest, u1, u2)
                }
            },
            WalkTaskView::Emit(v) => walk_spec(
                lib,
                DependencyGraphView { order: g.order.push(v), items: g.items },
                rest,
                u1,
                u2,
            ),
        }
    }
}

#[via_fn]
proof fn walk_spec_termination(
    lib: LibraryView,
    g: DependencyGraphView,
    tasks: Seq<WalkTaskView>,
    u1: Seq<Seq<char>>,
    u2: Seq<Seq<char>>,
) {
    if tasks.len() > 0 {
        match tasks.last() {
            WalkTaskView::FullPath(p) => {
                lemma_remove_all_len(u1, p);
            },
            WalkTaskView::DepsOnlyPath(p) => {
                lemma_remove_all_len(u2, p);
            },
            WalkTaskView::Emit(_) => {},
        }
    }
}

/// What visiting one name does to the graph: nothing when the name
/// does not resolve or was already visited; otherwise the name is
/// marked visited, its dependencies are walked, and the resolved item
/// is appended to the order after them.
pub open spec fn add_path_spec(lib: LibraryView, p: Seq<char>, g: DependencyGraphView) -> DependencyGraphView {
    match resolve_spec(lib, p) {
        None => g,
        Some(v) => {
            if g.items.contains(p) {
                g
            } else {
                let mid = walk_spec(
                    lib,
                    DependencyGraphView { order: g.order, items: g.items.push(p) },
                    dep_tasks_stack(v),
                    table_names(lib),
                    table_names(lib),
                );
                DependencyGraphView { order: mid.order.push(v), items: mid.items }
            }
        },
    }
}

/// What a dependencies-only walk of one name does to the graph:
/// nothing when the name does not resolve; otherwise the resolved
/// item's dependencies are walked without appending the item itself.
pub open spec fn add_path_deps_spec(
    lib: LibraryView,
    p: Seq<char>,
    g: DependencyGraphView,
) -> DependencyGraphView {
    match resolve_spec(lib, p) {
        None => g,
        Some(v) => walk_spec(lib, g, dep_tasks_stack(v), table_names(lib), table_names(lib)),
    }
}

/// Whether a list of names contains the given name.
fn contains_name(v: &Vec<String>, s: &String) -> (r: bool)
    ensures
        r == crate::ir::names_view(*v).contains(s@),
{
    let mut i: usize = 0;
    while i < v.len()
        invariant
            i <= v.len(),
            forall|j: int| 0 <= j < i ==> v@[j]@ != s@,
        decreases v.len() - i,
    {
        if string_eq(&v[i], s) {
            proof {
                assert(crate::ir::names_view(*v)[i as int] == s@);
            }
            return true;
        }
        i += 1;
    }
    proof {
        assert forall|k: int|
            0 <= k < crate::ir::names_view(*v).len() implies crate::ir::names_view(*v)[k]
            != s@ by {}
    }
    false
}

/// Removes every occurrence of a name from a list of names.
fn remove_name(v: &mut Vec<String>, s: &String)
    ensures
        final(v)@.len() <= old(v)@.len(),
        crate::ir::names_view(*old(v)).contains(s@) ==> final(v)@.len() < old(v)@.len(),
        forall|n: Seq<char>|
            n != s@ && crate::ir::names_view(*old(v)).contains(n)
                ==> crate::ir::names_view(*final(v)).contains(n),
        crate::ir::names_view(*final(v)) == remove_all(crate::ir::names_view(*old(v)), s@),
{
    let ghost orig_names = crate::ir::names_view(*v);
    let ghost orig = v@;
    let mut out: Vec<String> = Vec::new();
    let mut i: usize = 0;
    let mut removed = false;
    proof {
        assert(orig_names.skip(0) =~= orig_names);
        assert(crate::ir::names_view(out) =~= Seq::<Seq<char>>::empty());
        assert(Seq::<Seq<char>>::empty() + remove_all(orig_names, s@) =~= remove_all(
            orig_names,
            s@,
        ));
    }
    while i < v.len()
        invariant
            v@ == orig,
            i <= v.len(),
            out@.len() <= i,
            removed ==> out@.len() < i,
            !removed ==> out@.len() == i,
            forall|j: int|
                0 <= j < i && #[trigger] v@[j]@ != s@ ==> exists|k: int|
                    0 <= k < out@.len() && #[trigger] out@[k]@ == v@[j]@,
            removed <==> (exists|j: int| 0 <= j < i && #[trigger] v@[j]@ == s@),
            orig_names == crate::ir::names_view(*v),
            orig_names.len() == v@.len(),
            remove_all(orig_names, s@) == crate::ir::names_view(out) + remove_all(
                orig_names.skip(i as int),
                s@,
            ),
        decreases v.len() - i,
    {
        proof {
            assert(orig_names.skip(i as int)[0] == v@[i as int]@);
            assert(orig_names.skip(i as int).drop_first() =~= orig_names.skip(i as int + 1));
        }
        if string_eq(&v[i], s) {
            removed = true;
        } else {
            let ghost pre = out@;
            let ghost pre_names = crate::ir::names_view(out);
            out.push(v[i].clone());
            proof {
                assert forall|j: int|
                    0 <= j < i + 1 && #[trigger] v@[j]@ != s@ implies exists|k: int|
                    0 <= k < out@.len() && #[trigger] out@[k]@ == v@[j]@ by {
                    if j < i {
                        let k0 = choose|k: int| 0 <= k < pre.len() && #[trigger] pre[k]@ == v@[j]@;
                        assert(out@[k0]@ == v@[j]@);
                    } else {
                        assert(out@[pre.len() as int]@ == v@[j]@);
                    }
                }
                assert(crate::ir::names_view(out) =~= pre_names.push(v@[i as int]@));
                assert(pre_names + (seq![v@[i as int]@] + remove_all(
                    orig_names.skip(i as int + 1),
                    s@,
                )) =~= pre_names.push(v@[i as int]@) + remove_all(orig_names.skip(i as int + 1), s@));
            }
        }
        i += 1;
    }
    proof {
        assert forall|n: Seq<char>|
            n != s@ && crate::ir::names_view(*v).contains(n) implies (exists|k: int|
            0 <= k < out@.len() && #[trigger] out@[k]@ == n) by {
            let j = choose|j: int|
                0 <= j < crate::ir::names_view(*v).len() && crate::ir::names_view(*v)[j] == n;
            assert(v@[j]@ == n);
            assert(v@[j]@ != s@);
        }
        if crate::ir::names_view(*v).contains(s@) {
            let j = choose|j: int|
                0 <= j < crate::ir::names_view(*v).len() && crate::ir::names_view(*v)[j] == s@;
            assert(v@[j]@ == s@);
        }
    }
    proof {
        assert(orig_names.skip(orig_names.len() as int) =~= Seq::<Seq<char>>::empty());
        assert(crate::ir::names_view(out) + Seq::<Seq<char>>::empty() =~= crate::ir::names_view(
            out,
        ));
    }
    let ghost outv = out@;
    let ghost out_names = crate::ir::names_view(out);
    *v = out;
    proof {
        assert(crate::ir::names_view(*v) =~= out_names);
        assert forall|n: Seq<char>|
            n != s@ && crate::ir::names_view(*old(v)).contains(n) implies crate::ir::names_view(
            *v,
        ).contains(n) by {
            let k0 = choose|k: int| 0 <= k < outv.len() && #[trigger] outv[k]@ == n;
            assert(crate::ir::names_view(*v)[k0] == n);
        }
    }
}

/// Membership survives appending to a list of names.
proof fn lemma_push_keeps(s: Seq<Seq<char>>, e: Seq<char>, x: Seq<char>)
    requires
        s.contains(x) || x == e,
    ensures
        s.push(e).contains(x),
{
    if s.contains(x) {
        let k = choose|k: int| 0 <= k < s.len() && s[k] == x;
        assert(s.push(e)[k] == x);
    } else {
        assert(s.push(e)[s.len() as int] == x);
    }
}

/// An enumeration that resolves occurs in the table.
proof fn lemma_find_enum_index(s: Seq<EnumView>, n: Seq<char>)
    ensures
        find_enum(s, n) is Some ==> exists|i: int| 0 <= i < s.len() && #[trigger] s[i].name == n,
    decreases s.len(),
{
    if s.len() > 0 {
        if s[0].name == n {
            assert(s[0].name == n);
        } else {
            lemma_find_enum_index(s.drop_first(), n);
            if find_enum(s.drop_first(), n) is Some {
                let i = choose|i: int|
                    0 <= i < s.drop_first().len() && #[trigger] s.drop_first()[i].name == n;
                assert(s[i + 1].name == n);
            }
        }
    }
}

/// An aggregate that resolves occurs in the table.
proof fn lemma_find_struct_index(s: Seq<StructView>, n: Seq<char>)
    ensures
        find_struct(s, n) is Some ==> exists|i: int| 0 <= i < s.len() && #[trigger] s[i].name == n,
    decreases s.len(),
{
    if s.len() > 0 {
        if s[0].name == n {
            assert(s[0].name == n);
        } else {
            lemma_find_struct_index(s.drop_first(), n);
            if find_struct(s.drop_first(), n) is Some {
                let i = choose|i: int|
                    0 <= i < s.drop_first().len() && #[trigger] s.drop_first()[i].name == n;
                assert(s[i + 1].name == n);
            }
        }
    }
}

/// An opaque aggregate that resolves occurs in the table.
proof fn lemma_find_opaque_index(s: Seq<OpaqueStructView>, n: Seq<char>)
    ensures
        find_opaque(s, n) is Some ==> exists|i: int| 0 <= i < s.len() && #[trigger] s[i].name == n,
    decreases s.len(),
{
    if s.len() > 0 {
        if s[0].name == n {
            assert(s[0].name == n);
        } else {
            lemma_find_opaque_index(s.drop_first(), n);
            if find_opaque(s.drop_first(), n) is Some {
                let i = choose|i: int|
                    0 <= i < s.drop_first().len() && #[trigger] s.drop_first()[i].name == n;
                assert(s[i + 1].name == n);
            }
        }
    }
}

/// A type alias that resolves occurs in the table.
proof fn lemma_find_typedef_index(s: Seq<TypedefView>, n: Seq<char>)
    ensures
        find_typedef(s, n) is Some ==> exists|i: int| 0 <= i < s.len() && #[trigger] s[i].name
            == n,
    decreases s.len(),
{
    if s.len() > 0 {
        if s[0].name == n {
            assert(s[0].name == n);
        } else {
            lemma_find_typedef_index(s.drop_first(), n);
            if find_typedef(s.drop_first(), n) is Some {
                let i = choose|i: int|
                    0 <= i < s.drop_first().len() && #[trigger] s.drop_first()[i].name == n;
                assert(s[i + 1].name == n);
            }
        }
    }
}

/// A specialization that resolves occurs in the table.
proof fn lemma_find_specialization_index(s: Seq<SpecializationView>, n: Seq<char>)
    ensures
        find_specialization(s, n) is Some ==> exists|i: int|
            0 <= i < s.len() && #[trigger] s[i].name == n,
    decreases s.len(),
{
    if s.len() > 0 {
        if s[0].name == n {
            assert(s[0].name == n);
        } else {
            lemma_find_specialization_index(s.drop_first(), n);
            if find_specialization(s.drop_first(), n) is Some {
                let i = choose|i: int|
                    0 <= i < s.drop_first().len() && #[trigger] s.drop_first()[i].name == n;
                assert(s[i + 1].name == n);
            }
        }
    }
}

/// Removing the first entry of a name is removal at its first index.
proof fn lemma_remove_struct_at(s: Seq<StructView>, n: Seq<char>, j: int)
    requires
        0 <= j < s.len(),
        forall|k: int| 0 <= k < j ==> s[k].name != n,
        s[j].name == n,
    ensures
        remove_struct_named(s, n) =~= s.remove(j),
    decreases j,
{
    if j == 0 {
        assert(s.remove(0) =~= s.drop_first());
    } else {
        assert forall|k: int| 0 <= k < j - 1 implies s.drop_first()[k].name != n by {
            assert(s.drop_first()[k] == s[k + 1]);
        }
        assert(s.drop_first()[j - 1] == s[j]);
        lemma_remove_struct_at(s.drop_first(), n, j - 1);
        assert(seq![s[0]] + s.drop_first().remove(j - 1) =~= s.remove(j));
    }
}

/// The names of every item of every table, concatenated; every name
/// that resolves occurs in the list.
fn all_table_names(library: &Library) -> (r: Vec<String>)
    ensures
        forall|n: Seq<char>|
            #[trigger] resolve_spec(library@, n) is Some ==> names_view(r).contains(n),
        names_view(r) == table_names(library@),
{
    let mut r: Vec<String> = Vec::new();
    let mut i: usize = 0;
    while i < library.enums.len()
        invariant
            i <= library.enums.len(),
            r@.len() == i,
            forall|j: int| 0 <= j < i ==> r@[j]@ == library@.enums[j].name,
        decreases library.enums.len() - i,
    {
        r.push(library.enums[i].name.clone());
        i += 1;
    }
    let e = r.len();
    let mut i: usize = 0;
    while i < library.structs.len()
        invariant
            i <= library.structs.len(),
            e == library@.enums.len(),
            r@.len() == e + i,
            forall|j: int| 0 <= j < e ==> r@[j]@ == library@.enums[j].name,
            forall|j: int| 0 <= j < i ==> r@[e + j]@ == library@.structs[j].name,
        decreases library.structs.len() - i,
    {
        r.push(library.structs[i].name.clone());
        i += 1;
    }
    let o = r.len();
    let mut i: usize = 0;
    while i < library.opaque_structs.len()
        invariant
            i <= library.opaque_structs.len(),
            e == library@.enums.len(),
            o == e + library@.structs.len(),
            r@.len() == o + i,
            forall|j: int| 0 <= j < e ==> r@[j]@ == library@.enums[j].name,
            forall|j: int| 0 <= j < library@.structs.len() ==> r@[e + j]@ == library@.structs[j].name,
            forall|j: int| 0 <= j < i ==> r@[o + j]@ == library@.opaque_structs[j].name,
        decreases library.opaque_structs.len() - i,
    {
        r.push(library.opaque_structs[i].name.clone());
        i += 1;
    }
    let t = r.len();
    let mut i: usize = 0;
    while i < library.typedefs.len()
        invariant
            i <= library.typedefs.len(),
            e == library@.enums.len(),
            o == e + library@.structs.len(),
            t == o + library@.opaque_structs.len(),
            r@.len() == t + i,
            forall|j: int| 0 <= j < e ==> r@[j]@ == library@.enums[j].name,
            forall|j: int| 0 <= j < library@.structs.len() ==> r@[e + j]@ == library@.structs[j].name,
            forall|j: int|
                0 <= j < library@.opaque_structs.len() ==> r@[o + j]@
                    == library@.opaque_structs[j].name,
            forall|j: int| 0 <= j < i ==> r@[t + j]@ == library@.typedefs[j].name,
        decreases library.typedefs.len() - i,
    {
        r.push(library.typedefs[i].name.clone());
        i += 1;
    }
    let sp = r.len();
    let mut i: usize = 0;
    while i < library.specializations.len()
        invariant
            i <= library.specializations.len(),
            e == library@.enums.len(),
            o == e + library@.structs.len(),
            t == o + library@.opaque_structs.len(),
            sp == t + library@.typedefs.len(),
            r@.len() == sp + i,
            forall|j: int| 0 <= j < e ==> r@[j]@ == library@.enums[j].name,
            forall|j: int| 0 <= j < library@.structs.len() ==> r@[e + j]@ == library@.structs[j].name,
            forall|j: int|
                0 <= j < library@.opaque_structs.len() ==> r@[o + j]@
                    == library@.opaque_structs[j].name,
            forall|j: int|
                0 <= j < library@.typedefs.len() ==> r@[t + j]@ == library@.typedefs[j].name,
            forall|j: int| 0 <= j < i ==> r@[sp + j]@ == library@.specializations[j].name,
        decreases library.specializations.len() - i,
    {
        r.push(library.specializations[i].name.clone());
        i += 1;
    }
    proof {
        assert forall|n: Seq<char>|
            #[trigger] resolve_spec(library@, n) is Some implies names_view(r).contains(n) by {
            if find_enum(library@.enums, n) is Some {
                lemma_find_enum_index(library@.enums, n);
                let j = choose|j: int|
                    0 <= j < library@.enums.len() && #[trigger] library@.enums[j].name == n;
                assert(names_view(r)[j] == n);
            } else if find_struct(library@.structs, n) is Some {
                lemma_find_struct_index(library@.structs, n);
                let j = choose|j: int|
                    0 <= j < library@.structs.len() && #[trigger] library@.structs[j].name == n;
                assert(names_view(r)[e + j] == n);
            } else if find_opaque(library@.opaque_structs, n) is Some {
                lemma_find_opaque_index(library@.opaque_structs, n);
                let j = choose|j: int|
                    0 <= j < library@.opaque_structs.len() && #[trigger] library@.opaque_structs[j].name
                        == n;
                assert(names_view(r)[o + j] == n);
            } else if find_typedef(library@.typedefs, n) is Some {
                lemma_find_typedef_index(library@.typedefs, n);
                let j = choose|j: int|
                    0 <= j < library@.typedefs.len() && #[trigger] library@.typedefs[j].name == n;
                assert(names_view(r)[t + j] == n);
            } else {
                lemma_find_specialization_index(library@.specializations, n);
                let j = choose|j: int|
                    0 <= j < library@.specializations.len()
                        && #[trigger] library@.specializations[j].name == n;
                assert(names_view(r)[sp + j] == n);
            }
        }
        assert(names_view(r) =~= table_names(library@));
    }
    r
}

/// Collects, in source order, every named reference inside a type,
/// skipping references whose head is one of the enclosing generic
/// parameters; pointer targets, array elements, generic arguments and
/// function-pointer parameter and return types are all descended.
#[verifier::loop_isolation(false)]
fn collect_refs_into(t: &Type, params: &Vec<String>, out: &mut Vec<String>)
    ensures
        names_view(*final(out)) == names_view(*old(out)) + type_refs(t@, names_view(*params)),
    decreases *t,
{
    let ghost pv = names_view(*params);
    let ghost base = names_view(*out);
    match t {
        Type::Primitive(_) => {
            proof {
                assert(names_view(*out) =~= base + type_refs(t@, pv));
            }
        },
        Type::ConstPtr(b) => {
            collect_refs_into(b, params, out);
        },
        Type::Ptr(b) => {
            collect_refs_into(b, params, out);
        },
        Type::Array(b, _) => {
            collect_refs_into(b, params, out);
        },
        Type::Path(p, vals) => {
            let ghost args_v = crate::ir::types_view(*vals);
            if !contains_name(params, p) {
                let ghost pre = names_view(*out);
                out.push(p.clone());
                proof {
                    assert(names_view(*out) =~= pre.push(p@));
                    assert(pre.push(p@) =~= base + seq![p@]);
                }
            }
            let ghost head = names_view(*out);
            proof {
                assert(args_v.skip(0) =~= args_v);
                assert(head + Seq::<Seq<char>>::empty() =~= head);
            }
            let mut i: usize = 0;
            while i < vals.len()
                invariant
                    i <= vals@.len(),
                    args_v.len() == vals@.len(),
                    names_view(*out) + types_refs(args_v.skip(i as int), pv) == head + types_refs(
                        args_v,
                        pv,
                    ),
                decreases vals.len() - i,
            {
                proof {
                    assert(decreases_to!(*vals => vals@[i as int]));
                    assert(args_v.skip(i as int)[0] == args_v[i as int]);
                    assert(args_v.skip(i as int).drop_first() =~= args_v.skip(i as int + 1));
                }
                let ghost pre = names_view(*out);
                collect_refs_into(&vals[i], params, out);
                proof {
                    assert(pre + type_refs(args_v[i as int], pv) + types_refs(
                        args_v.skip(i as int + 1),
                        pv,
                    ) =~= pre + (type_refs(args_v[i as int], pv) + types_refs(
                        args_v.skip(i as int + 1),
                        pv,
                    )));
                }
                i += 1;
            }
            proof {
                assert(args_v.skip(vals@.len() as int) =~= Seq::<TypeView>::empty());
                assert(names_view(*out) + Seq::<Seq<char>>::empty() =~= names_view(*out));
                assert(t@ == TypeView::Path(p@, args_v));
                if pv.contains(p@) {
                    assert(base + (Seq::<Seq<char>>::empty() + types_refs(args_v, pv)) =~= base
                        + types_refs(args_v, pv));
                } else {
                    assert(base + (seq![p@] + types_refs(args_v, pv)) =~= (base + seq![p@])
                        + types_refs(args_v, pv));
                }
            }
        },
        Type::FuncPtr(ret, vals) => {
            let ghost args_v = crate::ir::types_view(*vals);
            collect_refs_into(ret, params, out);
            let ghost head = names_view(*out);
            proof {
                assert(args_v.skip(0) =~= args_v);
                assert(head + Seq::<Seq<char>>::empty() =~= head);
            }
            let mut i: usize = 0;
            while i < vals.len()
                invariant
                    i <= vals@.len(),
                    args_v.len() == vals@.len(),
                    names_view(*out) + types_refs(args_v.skip(i as int), pv) == head + types_refs(
                        args_v,
                        pv,
                    ),
                decreases vals.len() - i,
            {
                proof {
                    assert(decreases_to!(*vals => vals@[i as int]));
                    assert(args_v.skip(i as int)[0] == args_v[i as int]);
                    assert(args_v.skip(i as int).drop_first() =~= args_v.skip(i as int + 1));
                }
                let ghost pre = names_view(*out);
                collect_refs_into(&vals[i], params, out);
                proof {
                    assert(pre + type_refs(args_v[i as int], pv) + types_refs(
                        args_v.skip(i as int + 1),
                        pv,
                    ) =~= pre + (type_refs(args_v[i as int], pv) + types_refs(
                        args_v.skip(i as int + 1),
                        pv,
                    )));
                }
                i += 1;
            }
            proof {
                assert(args_v.skip(vals@.len() as int) =~= Seq::<TypeView>::empty());
                assert(names_view(*out) + Seq::<Seq<char>>::empty() =~= names_view(*out));
                assert(t@ == TypeView::FuncPtr(Box::new(crate::ir::type_view(*(*ret))), args_v));
                assert(base + (type_refs(crate::ir::type_view(*(*ret)), pv) + types_refs(args_v, pv)) =~= (
                base + type_refs(crate::ir::type_view(*(*ret)), pv)) + types_refs(args_v, pv));
            }
        },
    }
}

/// Pushes the walk tasks for the dependencies of an item, in stack
/// order: the task to run first is pushed last.
#[verifier::loop_isolation(false)]
fn push_dep_tasks(value: &PathValue, tasks: &mut Vec<WalkTask>)
    ensures
        final(tasks)@.len() >= old(tasks)@.len(),
        final(tasks)@.take(old(tasks)@.len() as int) == old(tasks)@,
        forall|k: int|
            old(tasks)@.len() <= k < final(tasks)@.len() ==> !(#[trigger] final(tasks)@[k]
                is Emit),
        tasks_view(*final(tasks)) == tasks_view(*old(tasks)) + dep_tasks_stack(value@),
{
    let ghost tv0 = tasks_view(*tasks);
    let ghost t0 = tasks@;
    let mut names: Vec<String> = Vec::new();
    let empty_params: Vec<String> = Vec::new();
    let mut deps_only: Option<String> = None;
    proof {
        assert(names_view(empty_params) =~= Seq::<Seq<char>>::empty());
    }
    match value {
        PathValue::Enum(_) => {},
        PathValue::OpaqueStruct(_) => {},
        PathValue::Struct(x) => {
            let ghost fv = x@.fields;
            let ghost gp = names_view(x.generic_params);
            proof {
                assert(fv.skip(0) =~= fv);
                assert(names_view(names) =~= Seq::<Seq<char>>::empty());
                assert(Seq::<Seq<char>>::empty() + fields_refs(fv, gp) =~= fields_refs(fv, gp));
            }
            let mut i: usize = 0;
            while i < x.fields.len()
                invariant
                    i <= x.fields@.len(),
                    fv.len() == x.fields@.len(),
                    names_view(names) + fields_refs(fv.skip(i as int), gp) == fields_refs(fv, gp),
                decreases x.fields.len() - i,
            {
                proof {
                    assert(fv.skip(i as int)[0] == fv[i as int]);
                    assert(fv.skip(i as int).drop_first() =~= fv.skip(i as int + 1));
                }
                let ghost pre = names_view(names);
                collect_refs_into(&x.fields[i].1, &x.generic_params, &mut names);
                proof {
                    assert(pre + type_refs(fv[i as int].1, gp) + fields_refs(
                        fv.skip(i as int + 1),
                        gp,
                    ) =~= pre + (type_refs(fv[i as int].1, gp) + fields_refs(
                        fv.skip(i as int + 1),
                        gp,
                    )));
                }
                i += 1;
            }
            proof {
                assert(fv.skip(x.fields@.len() as int) =~= Seq::<(Seq<char>, TypeView)>::empty());
                assert(names_view(names) + Seq::<Seq<char>>::empty() =~= names_view(names));
            }
        },
        PathValue::Typedef(x) => {
            proof {
                assert(names_view(names) =~= Seq::<Seq<char>>::empty());
                assert(Seq::<Seq<char>>::empty() + type_refs(
                    crate::ir::type_view(x.aliased),
                    Seq::empty(),
                ) =~= type_refs(crate::ir::type_view(x.aliased), Seq::empty()));
            }
            collect_refs_into(&x.aliased, &empty_params, &mut names);
        },
        PathValue::Specialization(x) => {
            deps_only = Some(x.aliased_name.clone());
            let ghost args_v = crate::ir::types_view(x.generic_values);
            proof {
                assert(args_v.skip(0) =~= args_v);
                assert(names_view(names) =~= Seq::<Seq<char>>::empty());
                assert(Seq::<Seq<char>>::empty() + types_refs(args_v, Seq::empty())
                    =~= types_refs(args_v, Seq::empty()));
            }
            let mut i: usize = 0;
            while i < x.generic_values.len()
                invariant
                    i <= x.generic_values@.len(),
                    args_v.len() == x.generic_values@.len(),
                    names_view(names) + types_refs(args_v.skip(i as int), Seq::empty())
                        == types_refs(args_v, Seq::empty()),
                decreases x.generic_values.len() - i,
            {
                proof {
                    assert(args_v.skip(i as int)[0] == args_v[i as int]);
                    assert(args_v.skip(i as int).drop_first() =~= args_v.skip(i as int + 1));
                }
                let ghost pre = names_view(names);
                collect_refs_into(&x.generic_values[i], &empty_params, &mut names);
                proof {
                    assert(pre + type_refs(args_v[i as int], Seq::empty()) + types_refs(
                        args_v.skip(i as int + 1),
                        Seq::empty(),
                    ) =~= pre + (type_refs(args_v[i as int], Seq::empty()) + types_refs(
                        args_v.skip(i as int + 1),
                        Seq::empty(),
                    )));
                }
                i += 1;
            }
            proof {
                assert(args_v.skip(x.generic_values@.len() as int) =~= Seq::<TypeView>::empty());
                assert(names_view(names) + Seq::<Seq<char>>::empty() =~= names_view(names));
            }
        },
    }
    let ghost nv = names_view(names);
    let mut i = names.len();
    proof {
        assert(tasks_view(*tasks) + Seq::new(
            (nv.len() - i as int) as nat,
            |k: int| WalkTaskView::FullPath(nv[nv.len() - 1 - k]),
        ) =~= tv0);
    }
    while i > 0
        invariant
            i <= names.len(),
            nv == names_view(names),
            nv.len() == names@.len(),
            tasks@.len() >= t0.len(),
            tasks@.take(t0.len() as int) == t0,
            forall|k: int| t0.len() <= k < tasks@.len() ==> !(#[trigger] tasks@[k] is Emit),
            tasks_view(*tasks) == tv0 + Seq::new(
                (nv.len() - i as int) as nat,
                |k: int| WalkTaskView::FullPath(nv[nv.len() - 1 - k]),
            ),
        decreases i,
    {
        i -= 1;
        let nm = names[i].clone();
        let ghost pre = tasks@;
        let ghost pre_v = tasks_view(*tasks);
        tasks.push(WalkTask::FullPath(nm));
        proof {
            assert(tasks@.take(t0.len() as int) =~= t0);
            assert(tasks_view(*tasks) =~= pre_v.push(WalkTaskView::FullPath(nv[i as int])));
            assert(pre_v.push(WalkTaskView::FullPath(nv[i as int])) =~= tv0 + Seq::new(
                (nv.len() - i as int) as nat,
                |k: int| WalkTaskView::FullPath(nv[nv.len() - 1 - k]),
            ));
        }
    }
    proof {
        assert(tasks_view(*tasks) =~= tv0 + rev_fullpaths(nv));
    }
    if let Some(nm) = deps_only {
        let ghost pre = tasks@;
        let ghost pre_v = tasks_view(*tasks);
        let ghost nmv = nm@;
        tasks.push(WalkTask::DepsOnlyPath(nm));
        proof {
            assert(tasks@.take(t0.len() as int) =~= t0);
            assert(tasks_view(*tasks) =~= pre_v.push(WalkTaskView::DepsOnlyPath(nmv)));
            assert(tasks_view(*tasks) =~= tv0 + (rev_fullpaths(nv) + seq![
                WalkTaskView::DepsOnlyPath(nmv),
            ]));
        }
    }
    proof {
        assert(tasks_view(*tasks) =~= tasks_view(*old(tasks)) + dep_tasks_stack(value@));
    }
}

/// Runs pending walk tasks to exhaustion.  The visited set breaks
/// cycles among items; repeated dependencies-only walks of one name
/// are skipped, which adds nothing to the order and keeps a cyclic
/// chain of specializations from walking forever.
fn run_walk(library: &Library, out: &mut DependencyGraph, tasks: Vec<WalkTask>)
    requires
        graph_wf(old(out)@, library@),
        forall|k: int| 0 <= k < tasks@.len() ==> !(#[trigger] tasks@[k] is Emit),
    ensures
        graph_wf(final(out)@, library@),
        final(out)@.order.take(old(out)@.order.len() as int) == old(out)@.order,
        final(out)@.order.len() >= old(out)@.order.len(),
        forall|n: Seq<char>| old(out)@.items.contains(n) ==> final(out)@.items.contains(n),
        forall|i: int|
            old(out)@.order.len() <= i < final(out)@.order.len() ==> !old(out)@.items.contains(
                #[trigger] final(out)@.order[i].name(),
            ),
        final(out)@ == walk_spec(
            library@,
            old(out)@,
            tasks_view(tasks),
            table_names(library@),
            table_names(library@),
        ),
{
    let ghost tv0 = tasks_view(tasks);
    let ghost g0 = out@;
    let ghost tn = table_names(library@);
    let mut tasks = tasks;
    let mut unvisited = all_table_names(library);
    let mut unvisited2 = all_table_names(library);
    let ghost items0 = out@.items;
    let ghost order0 = out@.order;
    while tasks.len() > 0
        invariant
            graph_wf(out@, library@),
            out@.order.take(order0.len() as int) == order0,
            out@.order.len() >= order0.len(),
            forall|n: Seq<char>| items0.contains(n) ==> out@.items.contains(n),
            forall|i: int|
                order0.len() <= i < out@.order.len() ==> !items0.contains(
                    #[trigger] out@.order[i].name(),
                ),
            forall|k: int|
                0 <= k < tasks@.len() ==> ((#[trigger] tasks@[k]) matches WalkTask::Emit(v) ==> {
                    &&& resolve_spec(library@, v@.name()) == Some(v@)
                    &&& out@.items.contains(v@.name())
                    &&& !view_names(out@.order).contains(v@.name())
                    &&& !items0.contains(v@.name())
                }),
            forall|k1: int, k2: int|
                0 <= k1 < k2 < tasks@.len() ==> ((#[trigger] tasks@[k1]) matches WalkTask::Emit(
                    v1,
                ) ==> ((#[trigger] tasks@[k2]) matches WalkTask::Emit(v2) ==> v1@.name()
                    != v2@.name())),
            forall|n: Seq<char>|
                #[trigger] resolve_spec(library@, n) is Some && !out@.items.contains(n)
                    ==> names_view(unvisited).contains(n),
            walk_spec(library@, g0, tv0, tn, tn) == walk_spec(
                library@,
                out@,
                tasks_view(tasks),
                names_view(unvisited),
                names_view(unvisited2),
            ),
        decreases unvisited.len() + unvisited2.len(), tasks.len(),
    {
        let ghost tv_pre = tasks_view(tasks);
        let ghost g_pre = out@;
        let ghost u1_pre = names_view(unvisited);
        let ghost u2_pre = names_view(unvisited2);
        let task = tasks.pop().unwrap();
        proof {
            assert(tasks_view(tasks) =~= tv_pre.drop_last());
            assert(task_view(task) == tv_pre.last());
        }
        match task {
            WalkTask::FullPath(p) => {
                proof {
                    assert(names_view(out.items) =~= out@.items);
                }
                if !contains_name(&out.items, &p) {
                    match library.resolve_path(&p) {
                        Some(value) => {
                            proof {
                                assert(u1_pre.contains(p@));
                            }
                            proof {
                                lemma_find_names(library@, p@);
                            }
                            let ghost pre_items = out@.items;
                            out.items.push(p.clone());
                            proof {
                                assert(out@.items =~= pre_items.push(p@));
                                assert forall|n: Seq<char>| pre_items.contains(n) implies out@
                                    .items.contains(n) by {
                                    lemma_push_keeps(pre_items, p@, n);
                                }
                                lemma_push_keeps(pre_items, p@, p@);
                            }
                            remove_name(&mut unvisited, &p);
                            let e = value.duplicate();
                            let ghost tasks1 = tasks@;
                            tasks.push(WalkTask::Emit(e));
                            let ghost tasks2 = tasks@;
                            push_dep_tasks(&value, &mut tasks);
                            proof {
                                assert(tasks2 == tasks1.push(WalkTask::Emit(e)));
                                assert(tasks@.take(tasks2.len() as int) == tasks2);
                                assert forall|k: int|
                                    0 <= k < tasks@.len() implies ((#[trigger] tasks@[k]) matches
                                WalkTask::Emit(v) ==> {
                                    &&& resolve_spec(library@, v@.name()) == Some(v@)
                                    &&& out@.items.contains(v@.name())
                                    &&& !view_names(out@.order).contains(v@.name())
                                    &&& !items0.contains(v@.name())
                                }) by {
                                    if k < tasks1.len() {
                                        assert(tasks@[k] == tasks2[k]);
                                        assert(tasks2[k] == tasks1[k]);
                                    } else if k == tasks1.len() {
                                        assert(tasks@[k] == tasks2[k]);
                                        assert(tasks2[k] == WalkTask::Emit(e));
                                        assert(e@ == value@);
                                        assert(e@.name() == p@);
                                    }
                                }
                                assert forall|k1: int, k2: int|
                                    0 <= k1 < k2 < tasks@.len() implies ((#[trigger] tasks@[k1]) matches
                                WalkTask::Emit(v1) ==> ((#[trigger] tasks@[k2]) matches
                                WalkTask::Emit(v2) ==> v1@.name() != v2@.name())) by {
                                    if k2 < tasks1.len() {
                                        assert(tasks@[k1] == tasks2[k1]);
                                        assert(tasks@[k2] == tasks2[k2]);
                                        assert(tasks2[k1] == tasks1[k1]);
                                        assert(tasks2[k2] == tasks1[k2]);
                                    } else if k2 == tasks1.len() {
                                        assert(tasks@[k1] == tasks2[k1]);
                                        assert(tasks2[k1] == tasks1[k1]);
                                        assert(tasks@[k2] == tasks2[k2]);
                                        assert(tasks2[k2] == WalkTask::Emit(e));
                                    } else {
                                        assert(!(tasks@[k2] is Emit));
                                    }
                                }
                                assert(out@ =~= (DependencyGraphView {
                                    order: g_pre.order,
                                    items: g_pre.items.push(p@),
                                }));
                                assert(tasks_view(tasks) =~= (tv_pre.drop_last() + seq![
                                    WalkTaskView::Emit(value@),
                                ]) + dep_tasks_stack(value@));
                                assert(names_view(unvisited) == remove_all(u1_pre, p@));
                                assert(walk_spec(library@, g_pre, tv_pre, u1_pre, u2_pre)
                                    == walk_spec(
                                    library@,
                                    out@,
                                    tasks_view(tasks),
                                    names_view(unvisited),
                                    names_view(unvisited2),
                                ));
                            }
                        },
                        None => {
                            proof {
                                assert(walk_spec(library@, g_pre, tv_pre, u1_pre, u2_pre)
                                    == walk_spec(
                                    library@,
                                    out@,
                                    tasks_view(tasks),
                                    names_view(unvisited),
                                    names_view(unvisited2),
                                ));
                            }
                        },
                    }
                } else {
                    proof {
                        assert(g_pre.items.contains(p@));
                        assert(walk_spec(library@, g_pre, tv_pre, u1_pre, u2_pre) == walk_spec(
                            library@,
                            out@,
                            tasks_view(tasks),
                            names_view(unvisited),
                            names_view(unvisited2),
                        ));
                    }
                }
            },
            WalkTask::DepsOnlyPath(p) => {
                if contains_name(&unvisited2, &p) {
                    match library.resolve_path(&p) {
                        Some(value) => {
                            remove_name(&mut unvisited2, &p);
                            let ghost tasks1 = tasks@;
                            push_dep_tasks(&value, &mut tasks);
                            proof {
                                assert(tasks@.take(tasks1.len() as int) == tasks1);
                                assert forall|k: int|
                                    0 <= k < tasks@.len() && (#[trigger] tasks@[k]) is Emit implies
                                    k < tasks1.len() && tasks@[k] == tasks1[k] by {
                                    assert(tasks@[k] == tasks@.take(tasks1.len() as int)[k] || k
                                        >= tasks1.len());
                                }
                                assert(u2_pre.contains(p@));
                                assert(tasks_view(tasks) =~= tv_pre.drop_last()
                                    + dep_tasks_stack(value@));
                                assert(names_view(unvisited2) == remove_all(u2_pre, p@));
                                assert(walk_spec(library@, g_pre, tv_pre, u1_pre, u2_pre)
                                    == walk_spec(
                                    library@,
                                    out@,
                                    tasks_view(tasks),
                                    names_view(unvisited),
                                    names_view(unvisited2),
                                ));
                            }
                        },
                        None => {
                            proof {
                                assert(u2_pre.contains(p@));
                                assert(walk_spec(library@, g_pre, tv_pre, u1_pre, u2_pre)
                                    == walk_spec(
                                    library@,
                                    out@,
                                    tasks_view(tasks),
                                    names_view(unvisited),
                                    names_view(unvisited2),
                                ));
                            }
                        },
                    }
                } else {
                    proof {
                        assert(!u2_pre.contains(p@));
                        assert(walk_spec(library@, g_pre, tv_pre, u1_pre, u2_pre) == walk_spec(
                            library@,
                            out@,
                            tasks_view(tasks),
                            names_view(unvisited),
                            names_view(unvisited2),
                        ));
                    }
                }
            },
            WalkTask::Emit(v) => {
                let ghost pre_order = out@.order;
                let ghost pre_items = out@.items;
                let ghost pre_tasks = tasks@;
                let ghost vn = v@.name();
                out.order.push(v);
                proof {
                    assert(out@.order =~= pre_order.push(v@));
                    assert(view_names(out@.order) =~= view_names(pre_order).push(vn));
                    assert forall|k: int|
                        0 <= k < tasks@.len() implies ((#[trigger] tasks@[k]) matches
                    WalkTask::Emit(v2) ==> !view_names(out@.order).contains(v2@.name())) by {
                        if tasks@[k] is Emit {
                            let v2 = tasks@[k]->Emit_0;
                            assert(v2@.name() != vn);
                            assert(!view_names(pre_order).contains(v2@.name()));
                            assert forall|m: int|
                                0 <= m < view_names(out@.order).len() implies view_names(
                                out@.order,
                            )[m] != v2@.name() by {
                                if m < pre_order.len() {
                                    assert(view_names(pre_order)[m] == view_names(out@.order)[m]);
                                }
                            }
                        }
                    }
                    assert(out@.order.take(order0.len() as int) =~= order0);
                    assert forall|i: int|
                        0 <= i < out@.order.len() implies out@.items.contains(
                        #[trigger] out@.order[i].name()) by {
                        if i < pre_order.len() {
                            assert(out@.order[i] == pre_order[i]);
                        }
                    }
                    assert forall|i: int, j: int|
                        0 <= i < j < out@.order.len() implies #[trigger] out@.order[i].name()
                        != #[trigger] out@.order[j].name() by {
                        if j == pre_order.len() as int {
                            assert(!view_names(pre_order).contains(v@.name()));
                            assert(view_names(pre_order)[i] == out@.order[i].name());
                        }
                    }
                    assert(out@ =~= (DependencyGraphView {
                        order: g_pre.order.push(tv_pre.last()->Emit_0),
                        items: g_pre.items,
                    }));
                    assert(walk_spec(library@, g_pre, tv_pre, u1_pre, u2_pre) == walk_spec(
                        library@,
                        out@,
                        tasks_view(tasks),
                        names_view(unvisited),
                        names_view(unvisited2),
                    ));
                }
            },
        }
    }
    proof {
        assert(tasks_view(tasks) =~= Seq::<WalkTaskView>::empty());
    }
}

impl PathValue {
    /// Walks the dependencies of this item, appending every
    /// transitively reachable item to the graph in post-order.
    pub fn add_deps(&self, library: &Library, out: &mut DependencyGraph)
        requires
            graph_wf(old(out)@, library@),
        ensures
            graph_wf(final(out)@, library@),
            final(out)@.order.take(old(out)@.order.len() as int) == old(out)@.order,
            final(out)@.order.len() >= old(out)@.order.len(),
            forall|n: Seq<char>| old(out)@.items.contains(n) ==> final(out)@.items.contains(n),
            forall|i: int|
                old(out)@.order.len() <= i < final(out)@.order.len() ==> !old(
                    out,
                )@.items.contains(#[trigger] final(out)@.order[i].name()),
            final(out)@ == walk_spec(
                library@,
                old(out)@,
                dep_tasks_stack(self@),
                table_names(library@),
                table_names(library@),
            ),
    {
        let mut tasks: Vec<WalkTask> = Vec::new();
        proof {
            assert(tasks_view(tasks) =~= Seq::<WalkTaskView>::empty());
        }
        push_dep_tasks(self, &mut tasks);
        proof {
            assert(tasks_view(tasks) =~= dep_tasks_stack(self@));
        }
        run_walk(library, out, tasks);
    }
}

impl Function {
    /// Walks the dependencies of this function's signature: every
    /// argument type in order, then the return type.
    #[verifier::loop_isolation(false)]
    pub fn add_deps(&self, library: &Library, out: &mut DependencyGraph)
        requires
            graph_wf(old(out)@, library@),
        ensures
            graph_wf(final(out)@, library@),
            final(out)@.order.take(old(out)@.order.len() as int) == old(out)@.order,
            final(out)@.order.len() >= old(out)@.order.len(),
            forall|n: Seq<char>| old(out)@.items.contains(n) ==> final(out)@.items.contains(n),
            forall|i: int|
                old(out)@.order.len() <= i < final(out)@.order.len() ==> !old(
                    out,
                )@.items.contains(#[trigger] final(out)@.order[i].name()),
            final(out)@ == walk_spec(
                library@,
                old(out)@,
                fn_dep_stack(self@),
                table_names(library@),
                table_names(library@),
            ),
    {
        let empty_params: Vec<String> = Vec::new();
        let mut names: Vec<String> = Vec::new();
        let ghost av = self@.args;
        proof {
            assert(names_view(empty_params) =~= Seq::<Seq<char>>::empty());
            assert(av.skip(0) =~= av);
            assert(names_view(names) =~= Seq::<Seq<char>>::empty());
            assert(Seq::<Seq<char>>::empty() + fields_refs(av, Seq::empty()) =~= fields_refs(
                av,
                Seq::empty(),
            ));
        }
        let mut i: usize = 0;
        while i < self.args.len()
            invariant
                i <= self.args@.len(),
                av.len() == self.args@.len(),
                names_view(names) + fields_refs(av.skip(i as int), Seq::empty()) == fields_refs(
                    av,
                    Seq::empty(),
                ),
            decreases self.args.len() - i,
        {
            proof {
                assert(av.skip(i as int)[0] == av[i as int]);
                assert(av.skip(i as int).drop_first() =~= av.skip(i as int + 1));
            }
            let ghost pre = names_view(names);
            collect_refs_into(&self.args[i].1, &empty_params, &mut names);
            proof {
                assert(pre + type_refs(av[i as int].1, Seq::empty()) + fields_refs(
                    av.skip(i as int + 1),
                    Seq::empty(),
                ) =~= pre + (type_refs(av[i as int].1, Seq::empty()) + fields_refs(
                    av.skip(i as int + 1),
                    Seq::empty(),
                )));
            }
            i += 1;
        }
        proof {
            assert(av.skip(self.args@.len() as int) =~= Seq::<(Seq<char>, TypeView)>::empty());
            assert(names_view(names) + Seq::<Seq<char>>::empty() =~= names_view(names));
        }
        collect_refs_into(&self.ret, &empty_params, &mut names);
        proof {
            assert(names_view(names) =~= fn_refs(self@));
        }
        let ghost nv = names_view(names);
        let mut tasks: Vec<WalkTask> = Vec::new();
        let mut j = names.len();
        proof {
            assert(tasks_view(tasks) =~= Seq::new(
                (nv.len() - j as int) as nat,
                |k: int| WalkTaskView::FullPath(nv[nv.len() - 1 - k]),
            ));
        }
        while j > 0
            invariant
                j <= names.len(),
                nv == names_view(names),
                nv.len() == names@.len(),
                forall|k: int| 0 <= k < tasks@.len() ==> !(#[trigger] tasks@[k] is Emit),
                tasks_view(tasks) == Seq::new(
                    (nv.len() - j as int) as nat,
                    |k: int| WalkTaskView::FullPath(nv[nv.len() - 1 - k]),
                ),
            decreases j,
        {
            j -= 1;
            let ghost pre_v = tasks_view(tasks);
            tasks.push(WalkTask::FullPath(names[j].clone()));
            proof {
                assert(tasks_view(tasks) =~= pre_v.push(WalkTaskView::FullPath(nv[j as int])));
                assert(pre_v.push(WalkTaskView::FullPath(nv[j as int])) =~= Seq::new(
                    (nv.len() - j as int) as nat,
                    |k: int| WalkTaskView::FullPath(nv[nv.len() - 1 - k]),
                ));
            }
        }
        proof {
            assert(tasks_view(tasks) =~= fn_dep_stack(self@));
        }
        run_walk(library, out, tasks);
    }
}

impl Library {
    /// Visits the named item if it has not been visited: resolves it,
    /// walks its dependencies, and appends it to the order after them.
    pub fn add_deps_for_path(&self, p: &PathRef, out: &mut DependencyGraph)
        requires
            graph_wf(old(out)@, self@),
        ensures
            graph_wf(final(out)@, self@),
            final(out)@.order.take(old(out)@.order.len() as int) == old(out)@.order,
            final(out)@.order.len() >= old(out)@.order.len(),
            forall|n: Seq<char>| old(out)@.items.contains(n) ==> final(out)@.items.contains(n),
            resolve_spec(self@, p@) is Some ==> final(out)@.items.contains(p@),
            final(out)@ == add_path_spec(self@, p@, old(out)@),
    {
        let ghost g0 = out@;
        match self.resolve_path(p) {
            Some(value) => {
                proof {
                    assert(names_view(out.items) =~= out@.items);
                }
                if !contains_name(&out.items, p) {
                    proof {
                        lemma_find_names(self@, p@);
                    }
                    let ghost pre_items = out@.items;
                    out.items.push(p.clone());
                    proof {
                        assert(out@.items =~= pre_items.push(p@));
                        assert forall|n: Seq<char>| pre_items.contains(n) implies out@
                            .items.contains(n) by {
                            lemma_push_keeps(pre_items, p@, n);
                        }
                        lemma_push_keeps(pre_items, p@, p@);
                    }
                    proof {
                        assert(out@ =~= (DependencyGraphView {
                            order: g0.order,
                            items: g0.items.push(p@),
                        }));
                    }
                    let ghost mid_items = out@.items;
                    let ghost mid_order = out@.order;
                    value.add_deps(self, out);
                    let ghost pre_order = out@.order;
                    out.order.push(value);
                    proof {
                        assert(out@.order =~= pre_order.push(value@));
                        assert(out@.order.take(mid_order.len() as int) =~= mid_order);
                        assert forall|i: int|
                            0 <= i < out@.order.len() implies out@.items.contains(
                            #[trigger] out@.order[i].name()) by {
                            if i < pre_order.len() {
                                assert(out@.order[i] == pre_order[i]);
                            } else {
                                assert(out@.order[i].name() == p@);
                            }
                        }
                        assert forall|i: int, j: int|
                            0 <= i < j < out@.order.len() implies #[trigger] out@.order[i].name()
                            != #[trigger] out@.order[j].name() by {
                            if j == pre_order.len() as int {
                                if i < mid_order.len() {
                                    assert(pre_order[i] == mid_order[i]);
                                    assert(pre_items.contains(mid_order[i].name()));
                                    assert(!pre_items.contains(p@));
                                } else {
                                    assert(!mid_items.contains(pre_order[i].name()));
                                    assert(mid_items.contains(p@));
                                }
                            }
                        }
                        assert(out@ =~= add_path_spec(self@, p@, g0));
                    }
                } else {
                    proof {
                        assert(g0.items.contains(p@));
                    }
                }
            },
            None => {},
        }
    }

    /// Walks the dependencies of the named item without appending the
    /// item itself; used for specializations, whose wrapper name is
    /// consumed by the specialization engine rather than emitted.
    pub fn add_deps_for_path_deps(&self, p: &PathRef, out: &mut DependencyGraph)
        requires
            graph_wf(old(out)@, self@),
        ensures
            graph_wf(final(out)@, self@),
            final(out)@.order.take(old(out)@.order.len() as int) == old(out)@.order,
            final(out)@.order.len() >= old(out)@.order.len(),
            forall|n: Seq<char>| old(out)@.items.contains(n) ==> final(out)@.items.contains(n),
            final(out)@ == add_path_deps_spec(self@, p@, old(out)@),
    {
        match self.resolve_path(p) {
            Some(value) => {
                value.add_deps(self, out);
            },
            None => {},
        }
    }
}

/// The position of the first occurrence of a name in a parameter
/// list; meaningful only when the list contains the name.
pub open spec fn name_index(params: Seq<Seq<char>>, n: Seq<char>) -> int
    decreases params.len(),
{
    if params.len() == 0 {
        0
    } else if params[0] == n {
        0
    } else {
        1 + name_index(params.drop_first(), n)
    }
}

/// The first occurrence really is the first: nothing before it
/// matches, and it lies inside the list.
proof fn lemma_name_index_first(s: Seq<Seq<char>>, n: Seq<char>, i: int)
    requires
        0 <= i < s.len(),
        forall|j: int| 0 <= j < i ==> s[j] != n,
        s[i] == n,
    ensures
        s.contains(n),
        name_index(s, n) == i,
    decreases i,
{
    assert(s[i] == n);
    if i == 0 {
    } else {
        assert(s.drop_first()[i - 1] == s[i]);
        assert forall|j: int| 0 <= j < i - 1 implies s.drop_first()[j] != n by {
            assert(s.drop_first()[j] == s[j + 1]);
        }
        lemma_name_index_first(s.drop_first(), n, i - 1);
    }
}

/// The generic substitution: every bare named reference whose head is
/// a generic parameter is replaced by the corresponding argument;
/// pointers, arrays, generic arguments and function pointers are
/// descended.
pub open spec fn subst_type(t: TypeView, params: Seq<Seq<char>>, args: Seq<TypeView>) -> TypeView
    decreases t,
{
    match t {
        TypeView::Primitive(p) => TypeView::Primitive(p),
        TypeView::ConstPtr(b) => TypeView::ConstPtr(Box::new(subst_type(*b, params, args))),
        TypeView::Ptr(b) => TypeView::Ptr(Box::new(subst_type(*b, params, args))),
        TypeView::Array(b, n) => TypeView::Array(Box::new(subst_type(*b, params, args)), n),
        TypeView::Path(p, vals) => {
            if vals.len() == 0 && params.contains(p) && name_index(params, p) < args.len() {
                args[name_index(params, p)]
            } else {
                TypeView::Path(p, subst_types(vals, params, args))
            }
        },
        TypeView::FuncPtr(r, vals) => TypeView::FuncPtr(
            Box::new(subst_type(*r, params, args)),
            subst_types(vals, params, args),
        ),
    }
}

/// The substitution applied to a list of types.
pub open spec fn subst_types(ts: Seq<TypeView>, params: Seq<Seq<char>>, args: Seq<TypeView>) -> Seq<
    TypeView,
>
    decreases ts,
{
    Seq::new(
        ts.len(),
        |i: int|
            if 0 <= i < ts.len() {
                subst_type(ts[i], params, args)
            } else {
                TypeView::Primitive(crate::ir::PrimitiveType::Void)
            },
    )
}

/// Looks a name up in a list of generic parameters.
fn find_param(params: &Vec<String>, n: &String) -> (r: Option<usize>)
    ensures
        match r {
            Some(i) => names_view(*params).contains(n@) && i == name_index(names_view(*params), n@)
                && i < params@.len(),
            None => !names_view(*params).contains(n@),
        },
{
    let mut i: usize = 0;
    while i < params.len()
        invariant
            i <= params.len(),
            forall|j: int| 0 <= j < i ==> names_view(*params)[j] != n@,
        decreases params.len() - i,
    {
        if string_eq(&params[i], n) {
            proof {
                assert(names_view(*params)[i as int] == n@);
                lemma_name_index_first(names_view(*params), n@, i as int);
            }
            return Some(i);
        }
        i += 1;
    }
    proof {
        assert forall|k: int|
            0 <= k < names_view(*params).len() implies names_view(*params)[k] != n@ by {}
    }
    None
}

impl Type {
    /// Substitutes concrete argument types for the generic parameters
    /// throughout this type.
    pub fn specialize(&self, params: &Vec<String>, args: &Vec<Type>) -> (r: Type)
        ensures
            r@ == subst_type(self@, names_view(*params), crate::ir::types_view(*args)),
        decreases *self,
    {
        match self {
            Type::Primitive(p) => Type::Primitive(*p),
            Type::ConstPtr(b) => Type::ConstPtr(Box::new((**b).specialize(params, args))),
            Type::Ptr(b) => Type::Ptr(Box::new((**b).specialize(params, args))),
            Type::Array(b, n) => Type::Array(Box::new((**b).specialize(params, args)), *n),
            Type::Path(p, vals) => {
                if vals.len() == 0 {
                    match find_param(params, p) {
                        Some(i) => {
                            if i < args.len() {
                                let r = args[i].duplicate();
                                proof {
                                    assert(r@ == crate::ir::types_view(*args)[i as int]);
                                    assert(self@ == TypeView::Path(
                                        p@,
                                        crate::ir::types_view(*vals),
                                    ));
                                    assert(crate::ir::types_view(*vals).len() == 0);
                                }
                                return r;
                            }
                        },
                        None => {},
                    }
                }
                let r = Type::Path(p.clone(), specialize_types(vals, params, args));
                proof {
                    assert(r@ =~= subst_type(
                        self@,
                        names_view(*params),
                        crate::ir::types_view(*args),
                    ));
                }
                r
            },
            Type::FuncPtr(ret, vals) => {
                let r = Type::FuncPtr(
                    Box::new((**ret).specialize(params, args)),
                    specialize_types(vals, params, args),
                );
                proof {
                    assert(r@ =~= subst_type(
                        self@,
                        names_view(*params),
                        crate::ir::types_view(*args),
                    ));
                }
                r
            },
        }
    }
}

/// The substitution applied to each type of a list.
fn specialize_types(v: &Vec<Type>, params: &Vec<String>, args: &Vec<Type>) -> (r: Vec<Type>)
    ensures
        crate::ir::types_view(r) == subst_types(
            crate::ir::types_view(*v),
            names_view(*params),
            crate::ir::types_view(*args),
        ),
    decreases v@,
{
    let mut out: Vec<Type> = Vec::new();
    let mut i: usize = 0;
    while i < v.len()
        invariant
            i <= v.len(),
            out@.len() == i,
            forall|j: int|
                0 <= j < i ==> crate::ir::type_view(out@[j]) == subst_type(
                    crate::ir::type_view(v@[j]),
                    names_view(*params),
                    crate::ir::types_view(*args),
                ),
        decreases v.len() - i,
    {
        proof {
            assert(decreases_to!(*v => v@[i as int]));
        }
        let e = v[i].specialize(params, args);
        out.push(e);
        i += 1;
    }
    proof {
        assert(crate::ir::types_view(out) =~= subst_types(
            crate::ir::types_view(*v),
            names_view(*params),
            crate::ir::types_view(*args),
        ));
    }
    out
}

/// The monomorphized aggregate a specialization produces from a
/// concrete parameterized target: it takes the specialization's name
/// and annotations, the target's fields with the target's generic
/// parameters replaced by the specialization's argument types, and an
/// empty generic-parameter list.
pub open spec fn monomorphized(sv: SpecializationView, target: StructView) -> StructView {
    StructView {
        name: sv.name,
        annotations: sv.annotations,
        fields: Seq::new(
            target.fields.len(),
            |i: int|
                (target.fields[i].0, subst_type(
                    target.fields[i].1,
                    target.generic_params,
                    sv.generic_values,
                )),
        ),
        generic_params: Seq::empty(),
    }
}

/// Specialization equivalence: the monomorphized instance is
/// structurally the target with the arguments substituted by hand —
/// field for field, name for name — with no parameters left.
pub proof fn lemma_specialization_equivalence(sv: SpecializationView, target: StructView)
    ensures
        monomorphized(sv, target).name == sv.name,
        monomorphized(sv, target).generic_params.len() == 0,
        monomorphized(sv, target).fields.len() == target.fields.len(),
        forall|i: int|
            0 <= i < target.fields.len() ==> #[trigger] monomorphized(sv, target).fields[i] == (
                target.fields[i].0,
                subst_type(target.fields[i].1, target.generic_params, sv.generic_values),
            ),
{
}

/// What resolving a parameterized alias yields, chasing aliased
/// specializations with the arguments substituted through, under a
/// fuel bound on the chain length: a monomorphized aggregate, nothing
/// when the alias is transparent, or failure (a miss, an argument
/// count mismatch, or an exhausted chain).
pub open spec fn specialize_spec(
    lib: LibraryView,
    current: SpecializationView,
    fuel: nat,
) -> Result<Option<PathValueView>, ()>
    decreases fuel,
{
    match resolve_spec(lib, current.aliased_name) {
        None => Err(()),
        Some(target) => match target {
            PathValueView::Struct(t) => {
                if t.generic_params.len() == current.generic_values.len() {
                    Ok(Some(PathValueView::Struct(monomorphized(current, t))))
                } else {
                    Err(())
                }
            },
            PathValueView::Specialization(t2) => {
                if fuel == 0 {
                    Err(())
                } else if t2.generic_params.len() != current.generic_values.len() {
                    Err(())
                } else {
                    specialize_spec(
                        lib,
                        SpecializationView {
                            name: current.name,
                            annotations: current.annotations,
                            generic_params: current.generic_params,
                            aliased_name: t2.aliased_name,
                            generic_values: subst_types(
                                t2.generic_values,
                                t2.generic_params,
                                current.generic_values,
                            ),
                        },
                        (fuel - 1) as nat,
                    )
                }
            },
            _ => {
                if current.generic_values.len() == 0 {
                    Ok(None)
                } else {
                    Err(())
                }
            },
        },
    }
}

impl Specialization {
    /// Resolves this parameterized alias against the library: a
    /// monomorphized aggregate to emit in its place, nothing when the
    /// alias is transparent, or a diagnostic.
    pub fn specialize(&self, library: &Library) -> (r: Result<Option<PathValue>, String>)
        ensures
            (r matches Ok(Some(v)) ==> (v@ matches PathValueView::Struct(st)
                && st.generic_params.len() == 0)),
            ({
                let sr = specialize_spec(
                    library@,
                    self@,
                    library@.specializations.len() as nat,
                );
                match r {
                    Ok(Some(v)) => sr == Ok::<Option<PathValueView>, ()>(Some(v@)),
                    Ok(None) => sr == Ok::<Option<PathValueView>, ()>(None),
                    Err(_) => sr is Err,
                }
            }),
            ({
                let tgt = resolve_spec(library@, self@.aliased_name);
                &&& (tgt is None ==> r is Err)
                &&& (tgt matches Some(PathValueView::Struct(t)) ==> {
                    if t.generic_params.len() == self@.generic_values.len() {
                        r matches Ok(Some(v)) && v@ == PathValueView::Struct(
                            monomorphized(self@, t),
                        )
                    } else {
                        r is Err
                    }
                })
                &&& (tgt matches Some(PathValueView::Enum(t)) ==> if self@.generic_values.len()
                    == 0 {
                    r == Result::<Option<PathValue>, String>::Ok(None)
                } else {
                    r is Err
                })
                &&& (tgt matches Some(PathValueView::OpaqueStruct(t))
                    ==> if self@.generic_values.len() == 0 {
                    r == Result::<Option<PathValue>, String>::Ok(None)
                } else {
                    r is Err
                })
                &&& (tgt matches Some(PathValueView::Typedef(t)) ==> if self@.generic_values.len()
                    == 0 {
                    r == Result::<Option<PathValue>, String>::Ok(None)
                } else {
                    r is Err
                })
            }),
    {
        let mut current = self.duplicate();
        let mut fuel = library.specializations.len();
        loop
            invariant
                fuel <= library.specializations.len(),
                resolve_spec(library@, self@.aliased_name) matches Some(
                    PathValueView::Specialization(_),
                ) || current@ == self@,
                specialize_spec(library@, self@, library@.specializations.len() as nat)
                    == specialize_spec(library@, current@, fuel as nat),
            decreases fuel,
        {
            match library.resolve_path(&current.aliased_name) {
                Some(PathValue::Struct(target)) => {
                    if target.generic_params.len() != current.generic_values.len() {
                        return Err(
                            String::from_str("incorrect number of generic values for ").concat(
                                current.name.as_str(),
                            ),
                        );
                    }
                    let mut fields: Vec<(String, Type)> = Vec::new();
                    let mut i: usize = 0;
                    while i < target.fields.len()
                        invariant
                            i <= target.fields.len(),
                            fields@.len() == i,
                            forall|j: int|
                                0 <= j < i ==> fields@[j].0@ == target@.fields[j].0 && crate::ir::type_view(
                                    fields@[j].1,
                                ) == subst_type(
                                    target@.fields[j].1,
                                    target@.generic_params,
                                    current@.generic_values,
                                ),
                        decreases target.fields.len() - i,
                    {
                        let fname = target.fields[i].0.clone();
                        let fty = target.fields[i].1.specialize(
                            &target.generic_params,
                            &current.generic_values,
                        );
                        fields.push((fname, fty));
                        i += 1;
                    }
                    let result = Struct {
                        name: current.name.clone(),
                        annotations: current.annotations.duplicate(),
                        fields,
                        generic_params: Vec::new(),
                    };
                    proof {
                        assert(result@ =~= monomorphized(current@, target@));
                    }
                    return Ok(Some(PathValue::Struct(result)));
                },
                Some(PathValue::Specialization(target)) => {
                    if fuel == 0 {
                        return Err(
                            String::from_str("specialization chain is too deep for ").concat(
                                current.name.as_str(),
                            ),
                        );
                    }
                    fuel = fuel - 1;
                    if target.generic_params.len() != current.generic_values.len() {
                        return Err(
                            String::from_str("incorrect number of generic values for ").concat(
                                current.name.as_str(),
                            ),
                        );
                    }
                    let next = Specialization {
                        name: current.name.clone(),
                        annotations: current.annotations.duplicate(),
                        generic_params: crate::ir::duplicate_names(&current.generic_params),
                        aliased_name: target.aliased_name.clone(),
                        generic_values: specialize_types(
                            &target.generic_values,
                            &target.generic_params,
                            &current.generic_values,
                        ),
                    };
                    proof {
                        assert(next@ =~= (SpecializationView {
                            name: current@.name,
                            annotations: current@.annotations,
                            generic_params: current@.generic_params,
                            aliased_name: target@.aliased_name,
                            generic_values: subst_types(
                                target@.generic_values,
                                target@.generic_params,
                                current@.generic_values,
                            ),
                        }));
                    }
                    current = next;
                },
                Some(PathValue::Enum(_)) | Some(PathValue::OpaqueStruct(_)) | Some(
                    PathValue::Typedef(_),
                ) => {
                    if current.generic_values.len() == 0 {
                        return Ok(None);
                    }
                    return Err(
                        String::from_str("incorrect number of generic values for ").concat(
                            current.name.as_str(),
                        ),
                    );
                },
                None => {
                    return Err(
                        String::from_str("can't find ").concat(current.aliased_name.as_str()),
                    );
                },
            }
        }
    }
}

/// Lexicographic order on names, by Unicode scalar value.
pub open spec fn lex_le(a: Seq<char>, b: Seq<char>) -> bool
    decreases a.len(),
{
    if a.len() == 0 {
        true
    } else if b.len() == 0 {
        false
    } else if (a[0] as u32) < (b[0] as u32) {
        true
    } else if (a[0] as u32) > (b[0] as u32) {
        false
    } else {
        lex_le(a.drop_first(), b.drop_first())
    }
}

/// The lexicographic order is total.
proof fn lemma_lex_total(a: Seq<char>, b: Seq<char>)
    ensures
        lex_le(a, b) || lex_le(b, a),
    decreases a.len(),
{
    if a.len() > 0 && b.len() > 0 && a[0] as u32 == b[0] as u32 {
        lemma_lex_total(a.drop_first(), b.drop_first());
    }
}

/// The lexicographic order is transitive.
proof fn lemma_lex_trans(a: Seq<char>, b: Seq<char>, c: Seq<char>)
    requires
        lex_le(a, b),
        lex_le(b, c),
    ensures
        lex_le(a, c),
    decreases a.len(),
{
    if a.len() > 0 && b.len() > 0 && c.len() > 0 && a[0] as u32 == b[0] as u32 && b[0] as u32 == c[0]
        as u32 {
        lemma_lex_trans(a.drop_first(), b.drop_first(), c.drop_first());
    }
}

/// Whether `a` orders at or before `b`, character by character.
fn str_le(a: &str, b: &str) -> (r: bool)
    ensures
        r == lex_le(a@, b@),
{
    let an = a.unicode_len();
    let bn = b.unicode_len();
    let mut i: usize = 0;
    proof {
        assert(a@.skip(0) =~= a@);
        assert(b@.skip(0) =~= b@);
    }
    loop
        invariant
            an == a@.len(),
            bn == b@.len(),
            i <= an,
            i <= bn,
            lex_le(a@, b@) == lex_le(a@.skip(i as int), b@.skip(i as int)),
        decreases an - i,
    {
        proof {
            if i < an {
                crate::text::lemma_skip_step(a@, i as int);
            }
            if i < bn {
                crate::text::lemma_skip_step(b@, i as int);
            }
            assert(a@.skip(an as int) =~= Seq::<char>::empty());
            assert(b@.skip(bn as int) =~= Seq::<char>::empty());
        }
        if i == an {
            return true;
        }
        if i == bn {
            return false;
        }
        let ca = a.get_char(i) as u32;
        let cb = b.get_char(i) as u32;
        if ca < cb {
            return true;
        }
        if ca > cb {
            return false;
        }
        i += 1;
    }
}

/// The views of a list of items.
pub open spec fn path_values_view(v: Vec<PathValue>) -> Seq<PathValueView> {
    Seq::new(v@.len(), |i: int| v@[i]@)
}

/// The views of a list of functions.
pub open spec fn functions_view(v: Vec<Function>) -> Seq<FunctionView> {
    Seq::new(v@.len(), |i: int| v@[i]@)
}

/// Sorts items by name, ascending; the result is a permutation of the
/// input.
fn sort_items_by_name(v: Vec<PathValue>) -> (r: Vec<PathValue>)
    ensures
        r@.len() == v@.len(),
        path_values_view(r).to_multiset() == path_values_view(v).to_multiset(),
        forall|i: int, j: int|
            0 <= i < j < r@.len() ==> lex_le(
                #[trigger] path_values_view(r)[i].name(),
                #[trigger] path_values_view(r)[j].name(),
            ),
{
    broadcast use vstd::seq_lib::group_to_multiset_ensures;
    broadcast use vstd::multiset::group_multiset_axioms;

    let ghost orig = path_values_view(v);
    let mut src = v;
    let mut out: Vec<PathValue> = Vec::new();
    proof {
        assert(path_values_view(src) =~= orig);
    }
    while src.len() > 0
        invariant
            out@.len() + src@.len() == orig.len(),
            path_values_view(out).to_multiset().add(path_values_view(src).to_multiset())
                =~= orig.to_multiset(),
            forall|i: int, j: int|
                0 <= i < j < out@.len() ==> lex_le(
                    #[trigger] path_values_view(out)[i].name(),
                    #[trigger] path_values_view(out)[j].name(),
                ),
            forall|i: int, j: int|
                0 <= i < out@.len() && 0 <= j < src@.len() ==> lex_le(
                    #[trigger] path_values_view(out)[i].name(),
                    #[trigger] path_values_view(src)[j].name(),
                ),
        decreases src.len(),
    {
        let mut m: usize = 0;
        let mut k: usize = 1;
        proof {
            lemma_lex_total(path_values_view(src)[0].name(), path_values_view(src)[0].name());
        }
        while k < src.len()
            invariant
                m < k,
                k <= src@.len(),
                src@.len() > 0,
                forall|j: int|
                    0 <= j < k ==> lex_le(
                        path_values_view(src)[m as int].name(),
                        #[trigger] path_values_view(src)[j].name(),
                    ),
            decreases src.len() - k,
        {
            let less = str_le(src[k].name().as_str(), src[m].name().as_str());
            proof {
                lemma_lex_total(
                    path_values_view(src)[k as int].name(),
                    path_values_view(src)[m as int].name(),
                );
                if less {
                    assert forall|j: int| 0 <= j < k + 1 implies lex_le(
                        path_values_view(src)[k as int].name(),
                        #[trigger] path_values_view(src)[j].name(),
                    ) by {
                        if j < k {
                            lemma_lex_trans(
                                path_values_view(src)[k as int].name(),
                                path_values_view(src)[m as int].name(),
                                path_values_view(src)[j].name(),
                            );
                        } else {
                            lemma_lex_total(path_values_view(src)[k as int].name(), path_values_view(src)[k as int].name());
                        }
                    }
                }
            }
            if less {
                m = k;
            }
            k += 1;
        }
        let ghost pre_src = path_values_view(src);
        let ghost pre_out = path_values_view(out);
        let picked = src.remove(m);
        out.push(picked);
        proof {
            assert(path_values_view(src) =~= pre_src.remove(m as int));
            assert(path_values_view(out) =~= pre_out.push(pre_src[m as int]));
            vstd::seq_lib::to_multiset_remove(pre_src, m as int);
            vstd::seq_lib::to_multiset_build(pre_out, pre_src[m as int]);
            assert(pre_src.contains(pre_src[m as int]));
            vstd::seq_lib::to_multiset_contains(pre_src, pre_src[m as int]);
            assert(pre_src.to_multiset().count(pre_src[m as int]) > 0);
            assert(path_values_view(out).to_multiset().add(
                path_values_view(src).to_multiset(),
            ) =~= orig.to_multiset());
            assert forall|i: int, j: int|
                0 <= i < out@.len() && 0 <= j < src@.len() implies lex_le(
                #[trigger] path_values_view(out)[i].name(),
                #[trigger] path_values_view(src)[j].name(),
            ) by {
                if i < pre_out.len() {
                    if j < m {
                        assert(path_values_view(src)[j] == pre_src[j]);
                    } else {
                        assert(path_values_view(src)[j] == pre_src[j + 1]);
                    }
                } else {
                    if j < m {
                        assert(path_values_view(src)[j] == pre_src[j]);
                    } else {
                        assert(path_values_view(src)[j] == pre_src[j + 1]);
                    }
                }
            }
        }
    }
    proof {
        assert(path_values_view(src).to_multiset() =~= Multiset::<PathValueView>::empty());
        assert(path_values_view(out).to_multiset() =~= orig.to_multiset());
    }
    out
}

/// Sorts functions by name, ascending; the result is a permutation of
/// the input.
fn sort_functions_by_name(v: Vec<Function>) -> (r: Vec<Function>)
    ensures
        r@.len() == v@.len(),
        functions_view(r).to_multiset() == functions_view(v).to_multiset(),
        forall|i: int, j: int|
            0 <= i < j < r@.len() ==> lex_le(
                #[trigger] functions_view(r)[i].name,
                #[trigger] functions_view(r)[j].name,
            ),
{
    broadcast use vstd::seq_lib::group_to_multiset_ensures;
    broadcast use vstd::multiset::group_multiset_axioms;

    let ghost orig = functions_view(v);
    let mut src = v;
    let mut out: Vec<Function> = Vec::new();
    proof {
        assert(functions_view(src) =~= orig);
    }
    while src.len() > 0
        invariant
            out@.len() + src@.len() == orig.len(),
            functions_view(out).to_multiset().add(functions_view(src).to_multiset())
                =~= orig.to_multiset(),
            forall|i: int, j: int|
                0 <= i < j < out@.len() ==> lex_le(
                    #[trigger] functions_view(out)[i].name,
                    #[trigger] functions_view(out)[j].name,
                ),
            forall|i: int, j: int|
                0 <= i < out@.len() && 0 <= j < src@.len() ==> lex_le(
                    #[trigger] functions_view(out)[i].name,
                    #[trigger] functions_view(src)[j].name,
                ),
        decreases src.len(),
    {
        let mut m: usize = 0;
        let mut k: usize = 1;
        proof {
            lemma_lex_total(functions_view(src)[0].name, functions_view(src)[0].name);
        }
        while k < src.len()
            invariant
                m < k,
                k <= src@.len(),
                src@.len() > 0,
                forall|j: int|
                    0 <= j < k ==> lex_le(
                        functions_view(src)[m as int].name,
                        #[trigger] functions_view(src)[j].name,
                    ),
            decreases src.len() - k,
        {
            let less = str_le(src[k].name.as_str(), src[m].name.as_str());
            proof {
                lemma_lex_total(
                    functions_view(src)[k as int].name,
                    functions_view(src)[m as int].name,
                );
                if less {
                    assert forall|j: int| 0 <= j < k + 1 implies lex_le(
                        functions_view(src)[k as int].name,
                        #[trigger] functions_view(src)[j].name,
                    ) by {
                        if j < k {
                            lemma_lex_trans(
                                functions_view(src)[k as int].name,
                                functions_view(src)[m as int].name,
                                functions_view(src)[j].name,
                            );
                        } else {
                            lemma_lex_total(functions_view(src)[k as int].name, functions_view(src)[k as int].name);
                        }
                    }
                }
            }
            if less {
                m = k;
            }
            k += 1;
        }
        let ghost pre_src = functions_view(src);
        let ghost pre_out = functions_view(out);
        let picked = src.remove(m);
        out.push(picked);
        proof {
            assert(functions_view(src) =~= pre_src.remove(m as int));
            assert(functions_view(out) =~= pre_out.push(pre_src[m as int]));
            vstd::seq_lib::to_multiset_remove(pre_src, m as int);
            vstd::seq_lib::to_multiset_build(pre_out, pre_src[m as int]);
            assert(pre_src.contains(pre_src[m as int]));
            vstd::seq_lib::to_multiset_contains(pre_src, pre_src[m as int]);
            assert(pre_src.to_multiset().count(pre_src[m as int]) > 0);
            assert(functions_view(out).to_multiset().add(functions_view(src).to_multiset())
                =~= orig.to_multiset());
            assert forall|i: int, j: int|
                0 <= i < out@.len() && 0 <= j < src@.len() implies lex_le(
                #[trigger] functions_view(out)[i].name,
                #[trigger] functions_view(src)[j].name,
            ) by {
                if j < m {
                    assert(functions_view(src)[j] == pre_src[j]);
                } else {
                    assert(functions_view(src)[j] == pre_src[j + 1]);
                }
            }
        }
    }
    proof {
        assert(functions_view(src).to_multiset() =~= Multiset::<FunctionView>::empty());
        assert(functions_view(out).to_multiset() =~= orig.to_multiset());
    }
    out
}

/// An enumeration with its variant names renamed per the configured
/// variant rule; variants arrive in PascalCase.
pub open spec fn enum_renamed(e: EnumView, c: crate::config::ConfigView) -> EnumView {
    EnumView {
        values: Seq::new(
            e.values.len(),
            |i: int|
                (
                    crate::rename::pascal_case_applied(
                        c.variant_rename_rule,
                        e.values[i].0,
                        crate::rename::IdentifierType::EnumVariant,
                    ),
                    e.values[i].1,
                ),
        ),
        ..e
    }
}

/// An aggregate with its field names renamed per the configured field
/// rule; fields arrive in snake_case.
pub open spec fn struct_renamed(st: StructView, c: crate::config::ConfigView) -> StructView {
    StructView {
        fields: Seq::new(
            st.fields.len(),
            |i: int|
                (
                    crate::rename::snake_case_applied(
                        c.field_rename_rule,
                        st.fields[i].0,
                        crate::rename::IdentifierType::StructMember,
                    ),
                    st.fields[i].1,
                ),
        ),
        ..st
    }
}

/// A function with its argument names renamed per the configured
/// argument rule; arguments arrive in snake_case.
pub open spec fn function_renamed(f: FunctionView, c: crate::config::ConfigView) -> FunctionView {
    FunctionView {
        args: Seq::new(
            f.args.len(),
            |i: int|
                (
                    crate::rename::snake_case_applied(
                        c.arg_rename_rule,
                        f.args[i].0,
                        crate::rename::IdentifierType::FunctionArg,
                    ),
                    f.args[i].1,
                ),
        ),
        ..f
    }
}

/// Renaming applied to an item: enumerations and aggregates are
/// renamed, the other forms pass through.
pub open spec fn path_value_renamed(v: PathValueView, c: crate::config::ConfigView) -> PathValueView {
    match v {
        PathValueView::Enum(x) => PathValueView::Enum(enum_renamed(x, c)),
        PathValueView::Struct(x) => PathValueView::Struct(struct_renamed(x, c)),
        _ => v,
    }
}

/// Renaming changes neither an item's name, nor its kind, nor an
/// aggregate's generic parameters.
proof fn lemma_renamed_keeps(v: PathValueView, c: crate::config::ConfigView)
    ensures
        path_value_renamed(v, c).name() == v.name(),
        path_value_renamed(v, c) is Enum <==> v is Enum,
        path_value_renamed(v, c) is OpaqueStruct <==> v is OpaqueStruct,
        path_value_renamed(v, c) is Specialization <==> v is Specialization,
        path_value_renamed(v, c) is Struct <==> v is Struct,
        v matches PathValueView::Struct(st) ==> path_value_renamed(v, c)->Struct_0.generic_params
            == st.generic_params,
{
}

impl Enum {
    /// Renames every variant per the configured variant rule.
    pub fn apply_renaming(&mut self, config: &Config)
        ensures
            final(self)@ == enum_renamed(old(self)@, config@),
    {
        let mut values: Vec<(String, u64)> = Vec::new();
        let mut i: usize = 0;
        while i < self.values.len()
            invariant
                i <= self.values.len(),
                values@.len() == i,
                self == old(self),
                forall|j: int|
                    0 <= j < i ==> #[trigger] values@[j].0@ == crate::rename::pascal_case_applied(
                        config@.variant_rename_rule,
                        old(self)@.values[j].0,
                        crate::rename::IdentifierType::EnumVariant,
                    ) && values@[j].1 == old(self)@.values[j].1,
            decreases self.values.len() - i,
        {
            let renamed = config.variant_rename_rule.apply_to_pascal_case(
                self.values[i].0.as_str(),
                crate::rename::IdentifierType::EnumVariant,
            );
            values.push((renamed, self.values[i].1));
            i += 1;
        }
        self.values = values;
        proof {
            assert(self@ =~= enum_renamed(old(self)@, config@));
        }
    }
}

impl Struct {
    /// Renames every field per the configured field rule.
    pub fn apply_renaming(&mut self, config: &Config)
        ensures
            final(self)@ == struct_renamed(old(self)@, config@),
    {
        let mut fields: Vec<(String, Type)> = Vec::new();
        let mut i: usize = 0;
        while i < self.fields.len()
            invariant
                i <= self.fields.len(),
                fields@.len() == i,
                self == old(self),
                forall|j: int|
                    0 <= j < i ==> #[trigger] fields@[j].0@ == crate::rename::snake_case_applied(
                        config@.field_rename_rule,
                        old(self)@.fields[j].0,
                        crate::rename::IdentifierType::StructMember,
                    ) && crate::ir::type_view(fields@[j].1) == old(self)@.fields[j].1,
            decreases self.fields.len() - i,
        {
            let renamed = config.field_rename_rule.apply_to_snake_case(
                self.fields[i].0.as_str(),
                crate::rename::IdentifierType::StructMember,
            );
            let ty = self.fields[i].1.duplicate();
            fields.push((renamed, ty));
            i += 1;
        }
        self.fields = fields;
        proof {
            assert(self@ =~= struct_renamed(old(self)@, config@));
        }
    }
}

impl Function {
    /// Renames every argument per the configured argument rule.
    pub fn apply_renaming(&mut self, config: &Config)
        ensures
            final(self)@ == function_renamed(old(self)@, config@),
    {
        let mut args: Vec<(String, Type)> = Vec::new();
        let mut i: usize = 0;
        while i < self.args.len()
            invariant
                i <= self.args.len(),
                args@.len() == i,
                self == old(self),
                forall|j: int|
                    0 <= j < i ==> #[trigger] args@[j].0@ == crate::rename::snake_case_applied(
                        config@.arg_rename_rule,
                        old(self)@.args[j].0,
                        crate::rename::IdentifierType::FunctionArg,
                    ) && crate::ir::type_view(args@[j].1) == old(self)@.args[j].1,
            decreases self.args.len() - i,
        {
            let renamed = config.arg_rename_rule.apply_to_snake_case(
                self.args[i].0.as_str(),
                crate::rename::IdentifierType::FunctionArg,
            );
            let ty = self.args[i].1.duplicate();
            args.push((renamed, ty));
            i += 1;
        }
        self.args = args;
        proof {
            assert(self@ =~= function_renamed(old(self)@, config@));
        }
    }
}

impl PathValue {
    /// Renames the identifiers inside the item, per the configured
    /// rules: enumeration variants and aggregate fields.
    pub fn apply_renaming(&mut self, config: &Config)
        ensures
            final(self)@ == path_value_renamed(old(self)@, config@),
    {
        match self {
            PathValue::Enum(x) => {
                x.apply_renaming(config);
            },
            PathValue::Struct(x) => {
                x.apply_renaming(config);
            },
            _ => {},
        }
    }
}

/// A completed set of bindings, ready to be rendered: the ordered
/// concrete items and the functions, under the configuration the run
/// used.  No specialization and no parameterized aggregate survives
/// here.
#[derive(Debug)]
pub struct BuiltBindings {
    pub config: Config,
    pub items: Vec<PathValue>,
    pub functions: Vec<Function>,
}

/// The mathematical shape of a `BuiltBindings`.
#[verifier::ext_equal]
pub struct BuiltBindingsView {
    pub config: crate::config::ConfigView,
    pub items: Seq<PathValueView>,
    pub functions: Seq<FunctionView>,
}

impl View for BuiltBindings {
    type V = BuiltBindingsView;

    open spec fn view(&self) -> BuiltBindingsView {
        BuiltBindingsView {
            config: self.config@,
            items: path_values_view(self.items),
            functions: functions_view(self.functions),
        }
    }
}

impl BuiltBindings {
    /// Empty bindings under the given configuration.
    pub fn blank(config: Config) -> (r: BuiltBindings)
        ensures
            r@.config == config@,
            r@.items.len() == 0,
            r@.functions.len() == 0,
    {
        BuiltBindings { config, items: Vec::new(), functions: Vec::new() }
    }
}

/// The empty dependency graph.
pub open spec fn empty_graph() -> DependencyGraphView {
    DependencyGraphView { order: Seq::empty(), items: Seq::empty() }
}

/// The dependency walk of every exported function, in table order.
pub open spec fn funcs_walk(lib: LibraryView, g: DependencyGraphView, i: int) -> DependencyGraphView
    decreases lib.functions.len() - i,
{
    if i < 0 || i >= lib.functions.len() {
        g
    } else {
        funcs_walk(
            lib,
            walk_spec(lib, g, fn_dep_stack(lib.functions[i]), table_names(lib), table_names(lib)),
            i + 1,
        )
    }
}

/// The graph the emission driver gathers: the dependencies of every
/// function, walked from an empty graph.
pub open spec fn library_deps(lib: LibraryView) -> DependencyGraphView {
    funcs_walk(lib, empty_graph(), 0)
}

/// The items kept from the walk order: a parameterized aggregate is
/// dropped, a specialization is replaced by what it specializes to —
/// or dropped when it is transparent or fails — and everything else
/// is kept as-is.
pub open spec fn kept_items(lib: LibraryView, order: Seq<PathValueView>, i: int) -> Seq<
    PathValueView,
>
    decreases order.len() - i,
{
    if i < 0 || i >= order.len() {
        Seq::empty()
    } else {
        let head = match order[i] {
            PathValueView::Struct(st) => {
                if st.generic_params.len() > 0 {
                    Seq::<PathValueView>::empty()
                } else {
                    seq![order[i]]
                }
            },
            PathValueView::Specialization(sp) => {
                match specialize_spec(lib, sp, lib.specializations.len() as nat) {
                    Ok(Some(v)) => seq![v],
                    _ => Seq::<PathValueView>::empty(),
                }
            },
            _ => seq![order[i]],
        };
        head + kept_items(lib, order, i + 1)
    }
}

/// The kept walk output with the configured renaming applied.
pub open spec fn kept_renamed(lib: LibraryView) -> Seq<PathValueView> {
    let k = kept_items(lib, library_deps(lib).order, 0);
    Seq::new(k.len(), |i: int| path_value_renamed(k[i], lib.config))
}

/// The enumerations of a list, in order.
pub open spec fn enums_of(s: Seq<PathValueView>) -> Seq<PathValueView>
    decreases s,
{
    if s.len() == 0 {
        Seq::empty()
    } else {
        (if s[0] is Enum {
            seq![s[0]]
        } else {
            Seq::<PathValueView>::empty()
        }) + enums_of(s.drop_first())
    }
}

/// The opaque aggregates of a list, in order.
pub open spec fn opaques_of(s: Seq<PathValueView>) -> Seq<PathValueView>
    decreases s,
{
    if s.len() == 0 {
        Seq::empty()
    } else {
        (if s[0] is OpaqueStruct {
            seq![s[0]]
        } else {
            Seq::<PathValueView>::empty()
        }) + opaques_of(s.drop_first())
    }
}

/// Everything that is neither an enumeration nor an opaque aggregate,
/// in order.
pub open spec fn others_of(s: Seq<PathValueView>) -> Seq<PathValueView>
    decreases s,
{
    if s.len() == 0 {
        Seq::empty()
    } else {
        (if !(s[0] is Enum) && !(s[0] is OpaqueStruct) {
            seq![s[0]]
        } else {
            Seq::<PathValueView>::empty()
        }) + others_of(s.drop_first())
    }
}

/// Appending one item extends the enumeration group by that item or
/// not at all.
proof fn lemma_enums_of_snoc(s: Seq<PathValueView>, x: PathValueView)
    ensures
        enums_of(s.push(x)) == enums_of(s) + (if x is Enum {
            seq![x]
        } else {
            Seq::<PathValueView>::empty()
        }),
    decreases s.len(),
{
    if s.len() == 0 {
        assert(s.push(x).drop_first() =~= Seq::<PathValueView>::empty());
        assert(s.push(x)[0] == x);
        assert(s.push(x).len() == 1);
        assert(others_of(Seq::<PathValueView>::empty()) =~= Seq::<PathValueView>::empty());
        assert(others_of(s.push(x).drop_first()) == others_of(Seq::<PathValueView>::empty()));
        assert(opaques_of(Seq::<PathValueView>::empty()) =~= Seq::<PathValueView>::empty());
        assert(opaques_of(s.push(x).drop_first()) == opaques_of(Seq::<PathValueView>::empty()));
        assert(enums_of(Seq::<PathValueView>::empty()) =~= Seq::<PathValueView>::empty());
        assert(enums_of(s.push(x).drop_first()) == enums_of(Seq::<PathValueView>::empty()));
        assert(enums_of(s.push(x)) =~= enums_of(s) + (if x is Enum {
            seq![x]
        } else {
            Seq::<PathValueView>::empty()
        }));
    } else {
        assert(s.push(x).drop_first() =~= s.drop_first().push(x));
        lemma_enums_of_snoc(s.drop_first(), x);
        assert(s.push(x)[0] == s[0]);
        assert(enums_of(s.push(x)) == (if s[0] is Enum {
            seq![s[0]]
        } else {
            Seq::<PathValueView>::empty()
        }) + enums_of(s.drop_first().push(x)));
        assert(enums_of(s.push(x)) =~= enums_of(s) + (if x is Enum {
            seq![x]
        } else {
            Seq::<PathValueView>::empty()
        }));
    }
}

/// Appending one item extends the opaque group by that item or not at
/// all.
proof fn lemma_opaques_of_snoc(s: Seq<PathValueView>, x: PathValueView)
    ensures
        opaques_of(s.push(x)) == opaques_of(s) + (if x is OpaqueStruct {
            seq![x]
        } else {
            Seq::<PathValueView>::empty()
        }),
    decreases s.len(),
{
    if s.len() == 0 {
        assert(s.push(x).drop_first() =~= Seq::<PathValueView>::empty());
        assert(s.push(x)[0] == x);
        assert(s.push(x).len() == 1);
        assert(others_of(Seq::<PathValueView>::empty()) =~= Seq::<PathValueView>::empty());
        assert(others_of(s.push(x).drop_first()) == others_of(Seq::<PathValueView>::empty()));
        assert(opaques_of(Seq::<PathValueView>::empty()) =~= Seq::<PathValueView>::empty());
        assert(opaques_of(s.push(x).drop_first()) == opaques_of(Seq::<PathValueView>::empty()));
        assert(enums_of(Seq::<PathValueView>::empty()) =~= Seq::<PathValueView>::empty());
        assert(enums_of(s.push(x).drop_first()) == enums_of(Seq::<PathValueView>::empty()));
        assert(opaques_of(s.push(x)) =~= opaques_of(s) + (if x is OpaqueStruct {
            seq![x]
        } else {
            Seq::<PathValueView>::empty()
        }));
    } else {
        assert(s.push(x).drop_first() =~= s.drop_first().push(x));
        lemma_opaques_of_snoc(s.drop_first(), x);
        assert(s.push(x)[0] == s[0]);
        assert(opaques_of(s.push(x)) == (if s[0] is OpaqueStruct {
            seq![s[0]]
        } else {
            Seq::<PathValueView>::empty()
        }) + opaques_of(s.drop_first().push(x)));
        assert(opaques_of(s.push(x)) =~= opaques_of(s) + (if x is OpaqueStruct {
            seq![x]
        } else {
            Seq::<PathValueView>::empty()
        }));
    }
}

/// Appending one item extends the remainder group by that item or not
/// at all.
proof fn lemma_others_of_snoc(s: Seq<PathValueView>, x: PathValueView)
    ensures
        others_of(s.push(x)) == others_of(s) + (if !(x is Enum) && !(x is OpaqueStruct) {
            seq![x]
        } else {
            Seq::<PathValueView>::empty()
        }),
    decreases s.len(),
{
    if s.len() == 0 {
        assert(s.push(x).drop_first() =~= Seq::<PathValueView>::empty());
        assert(s.push(x)[0] == x);
        assert(s.push(x).len() == 1);
        assert(others_of(Seq::<PathValueView>::empty()) =~= Seq::<PathValueView>::empty());
        assert(others_of(s.push(x).drop_first()) == others_of(Seq::<PathValueView>::empty()));
        assert(opaques_of(Seq::<PathValueView>::empty()) =~= Seq::<PathValueView>::empty());
        assert(opaques_of(s.push(x).drop_first()) == opaques_of(Seq::<PathValueView>::empty()));
        assert(enums_of(Seq::<PathValueView>::empty()) =~= Seq::<PathValueView>::empty());
        assert(enums_of(s.push(x).drop_first()) == enums_of(Seq::<PathValueView>::empty()));
        assert(others_of(s.push(x)) =~= others_of(s) + (if !(x is Enum) && !(x is OpaqueStruct) {
            seq![x]
        } else {
            Seq::<PathValueView>::empty()
        }));
    } else {
        assert(s.push(x).drop_first() =~= s.drop_first().push(x));
        lemma_others_of_snoc(s.drop_first(), x);
        assert(s.push(x)[0] == s[0]);
        assert(others_of(s.push(x)) == (if !(s[0] is Enum) && !(s[0] is OpaqueStruct) {
            seq![s[0]]
        } else {
            Seq::<PathValueView>::empty()
        }) + others_of(s.drop_first().push(x)));
        assert(others_of(s.push(x)) =~= others_of(s) + (if !(x is Enum) && !(x is OpaqueStruct) {
            seq![x]
        } else {
            Seq::<PathValueView>::empty()
        }));
    }
}

impl Library {
    /// The build step: walks the dependencies of every exported
    /// function, monomorphizes the specializations met on the way,
    /// sorts enumerations first and opaque aggregates second — each
    /// group by name — keeps everything else in dependency order,
    /// copies the functions in lexicographic name order, and applies
    /// the configured renaming throughout.
    pub fn generate(self) -> (r: Result<BuiltBindings, String>)
        ensures
            r is Ok,
            r matches Ok(b) ==> {
                &&& b@.config == self@.config
                &&& forall|i: int| 0 <= i < b@.items.len() ==> !((#[trigger] b@.items[i]) is Specialization)
                &&& forall|i: int|
                    0 <= i < b@.items.len() ==> ((#[trigger] b@.items[i]) matches PathValueView::Struct(st)
                        ==> st.generic_params.len() == 0)
                &&& forall|i: int, j: int|
                    0 <= i < j < b@.items.len() && (#[trigger] b@.items[j]) is Enum ==> (
                    #[trigger] b@.items[i]) is Enum
                &&& forall|i: int, j: int|
                    0 <= i < j < b@.items.len() && (#[trigger] b@.items[j]) is OpaqueStruct ==> ((
                    #[trigger] b@.items[i]) is Enum || b@.items[i] is OpaqueStruct)
                &&& forall|i: int, j: int|
                    0 <= i < j < b@.items.len() && (#[trigger] b@.items[i]) is Enum && (
                    #[trigger] b@.items[j]) is Enum ==> lex_le(
                        b@.items[i].name(),
                        b@.items[j].name(),
                    )
                &&& forall|i: int, j: int|
                    0 <= i < j < b@.items.len() && (#[trigger] b@.items[i]) is OpaqueStruct && (
                    #[trigger] b@.items[j]) is OpaqueStruct ==> lex_le(
                        b@.items[i].name(),
                        b@.items[j].name(),
                    )
                &&& forall|i: int, j: int|
                    0 <= i < j < b@.functions.len() ==> lex_le(
                        (#[trigger] b@.functions[i]).name,
                        (#[trigger] b@.functions[j]).name,
                    )
                &&& b@.functions.to_multiset() == Seq::new(
                    self@.functions.len(),
                    |i: int| function_renamed(self@.functions[i], self@.config),
                ).to_multiset()
                &&& ({
                    let kr = kept_renamed(self@);
                    exists|el: int, ol: int|
                        {
                            &&& 0 <= el
                            &&& 0 <= ol
                            &&& el + ol + others_of(kr).len() == b@.items.len()
                            &&& b@.items.len() == kr.len()
                            &&& #[trigger] b@.items.skip(el + ol) == others_of(kr)
                            &&& b@.items.take(el).to_multiset() == enums_of(kr).to_multiset()
                            &&& b@.items.subrange(el, el + ol).to_multiset() == opaques_of(
                                kr,
                            ).to_multiset()
                        }
                })
            },
    {
        let mut deps = DependencyGraph::new();
        proof {
            assert(deps@ =~= empty_graph());
        }
        let mut i: usize = 0;
        while i < self.functions.len()
            invariant
                graph_wf(deps@, self@),
                i <= self.functions.len(),
                library_deps(self@) == funcs_walk(self@, deps@, i as int),
            decreases self.functions.len() - i,
        {
            self.functions[i].add_deps(&self, &mut deps);
            proof {
                assert(self@.functions[i as int] == self.functions@[i as int]@);
            }
            i += 1;
        }
        proof {
            assert(library_deps(self@) == deps@);
        }
        let mut picked: Vec<PathValue> = Vec::new();
        let ghost ov = deps@.order;
        proof {
            assert(path_values_view(picked) =~= Seq::<PathValueView>::empty());
            assert(Seq::<PathValueView>::empty() + kept_items(self@, ov, 0) =~= kept_items(
                self@,
                ov,
                0,
            ));
        }
        let mut i: usize = 0;
        while i < deps.order.len()
            invariant
                i <= deps.order.len(),
                ov == deps@.order,
                ov.len() == deps.order@.len(),
                forall|j: int|
                    0 <= j < picked@.len() ==> !((#[trigger] path_values_view(picked)[j])
                        is Specialization),
                forall|j: int|
                    0 <= j < picked@.len() ==> ((#[trigger] path_values_view(picked)[j]) matches PathValueView::Struct(
                        st,
                    ) ==> st.generic_params.len() == 0),
                kept_items(self@, ov, 0) == path_values_view(picked) + kept_items(
                    self@,
                    ov,
                    i as int,
                ),
            decreases deps.order.len() - i,
        {
            proof {
                assert(ov[i as int] == deps.order@[i as int]@);
            }
            let ghost pre = path_values_view(picked);
            let mut to_push: Option<PathValue> = None;
            match &deps.order[i] {
                PathValue::Struct(st) => {
                    if st.generic_params.len() == 0 {
                        to_push = Some(deps.order[i].duplicate());
                    }
                },
                PathValue::Specialization(sp) => {
                    match sp.specialize(&self) {
                        Ok(Some(value)) => {
                            to_push = Some(value);
                        },
                        Ok(None) => {},
                        Err(_) => {},
                    }
                },
                _ => {
                    to_push = Some(deps.order[i].duplicate());
                },
            }
            match to_push {
                Some(v) => {
                    let ghost xv = v@;
                    proof {
                        assert(!(xv is Specialization));
                        assert(xv matches PathValueView::Struct(st2) ==> st2.generic_params.len()
                            == 0);
                        assert(kept_items(self@, ov, i as int) == seq![xv] + kept_items(
                            self@,
                            ov,
                            i as int + 1,
                        ));
                    }
                    picked.push(v);
                    proof {
                        assert(path_values_view(picked) =~= pre.push(xv));
                        assert(pre.push(xv) =~= pre + seq![xv]);
                        assert(pre + (seq![xv] + kept_items(self@, ov, i as int + 1)) =~= (pre
                            + seq![xv]) + kept_items(self@, ov, i as int + 1));
                        assert forall|j: int|
                            0 <= j < path_values_view(picked).len() implies {
                            let w = #[trigger] path_values_view(picked)[j];
                            &&& !(w is Specialization)
                            &&& (w matches PathValueView::Struct(st3) ==> st3.generic_params.len()
                                == 0)
                        } by {
                            if j < pre.len() {
                                assert(path_values_view(picked)[j] == pre[j]);
                            } else {
                                assert(path_values_view(picked)[j] == xv);
                            }
                        }
                    }
                },
                None => {
                    proof {
                        assert(kept_items(self@, ov, i as int) =~= kept_items(
                            self@,
                            ov,
                            i as int + 1,
                        ));
                    }
                },
            }
            i += 1;
        }
        proof {
            assert(kept_items(self@, ov, deps.order@.len() as int) =~= Seq::<
                PathValueView,
            >::empty());
            assert(path_values_view(picked) + Seq::<PathValueView>::empty() =~= path_values_view(
                picked,
            ));
            assert(path_values_view(picked) == kept_items(self@, library_deps(self@).order, 0));
        }
        let mut enums_grp: Vec<PathValue> = Vec::new();
        let mut opaques_grp: Vec<PathValue> = Vec::new();
        let mut rest: Vec<PathValue> = Vec::new();
        let ghost kv = path_values_view(picked);
        let ghost kr = Seq::new(kv.len(), |j: int| path_value_renamed(kv[j], self@.config));
        proof {
            assert(kr.take(0) =~= Seq::<PathValueView>::empty());
            assert(path_values_view(enums_grp) =~= enums_of(kr.take(0)));
            assert(path_values_view(opaques_grp) =~= opaques_of(kr.take(0)));
            assert(path_values_view(rest) =~= others_of(kr.take(0)));
        }
        let mut i: usize = 0;
        while i < picked.len()
            invariant
                i <= picked.len(),
                kv == path_values_view(picked),
                kr == Seq::new(kv.len(), |j: int| path_value_renamed(kv[j], self@.config)),
                kr.len() == picked@.len(),
                forall|j: int|
                    0 <= j < picked@.len() ==> !((#[trigger] path_values_view(picked)[j])
                        is Specialization),
                forall|j: int|
                    0 <= j < picked@.len() ==> ((#[trigger] path_values_view(picked)[j]) matches PathValueView::Struct(
                        st,
                    ) ==> st.generic_params.len() == 0),
                forall|j: int|
                    0 <= j < enums_grp@.len() ==> (#[trigger] path_values_view(enums_grp)[j])
                        is Enum,
                forall|j: int|
                    0 <= j < opaques_grp@.len() ==> (#[trigger] path_values_view(opaques_grp)[j])
                        is OpaqueStruct,
                forall|j: int|
                    0 <= j < rest@.len() ==> {
                        let v = #[trigger] path_values_view(rest)[j];
                        &&& !(v is Specialization)
                        &&& !(v is Enum)
                        &&& !(v is OpaqueStruct)
                        &&& (v matches PathValueView::Struct(st) ==> st.generic_params.len() == 0)
                    },
                path_values_view(enums_grp) == enums_of(kr.take(i as int)),
                path_values_view(opaques_grp) == opaques_of(kr.take(i as int)),
                path_values_view(rest) == others_of(kr.take(i as int)),
                enums_grp@.len() + opaques_grp@.len() + rest@.len() == i,
            decreases picked.len() - i,
        {
            let mut item = picked[i].duplicate();
            item.apply_renaming(&self.config);
            proof {
                lemma_renamed_keeps(path_values_view(picked)[i as int], self@.config);
            }
            let ghost itv = item@;
            let ghost pre_e = path_values_view(enums_grp);
            let ghost pre_o = path_values_view(opaques_grp);
            let ghost pre_r = path_values_view(rest);
            proof {
                assert(itv == kr[i as int]);
                assert(kr.take(i as int + 1) =~= kr.take(i as int).push(kr[i as int]));
                lemma_enums_of_snoc(kr.take(i as int), kr[i as int]);
                lemma_opaques_of_snoc(kr.take(i as int), kr[i as int]);
                lemma_others_of_snoc(kr.take(i as int), kr[i as int]);
            }
            match &item {
                PathValue::Enum(_) => {
                    enums_grp.push(item);
                    proof {
                        assert(path_values_view(enums_grp) =~= pre_e.push(itv));
                        assert(pre_e.push(itv) =~= pre_e + seq![itv]);
                        assert(path_values_view(opaques_grp) =~= opaques_of(kr.take(i as int + 1)));
                        assert(path_values_view(rest) =~= others_of(kr.take(i as int + 1)));
                    }
                },
                PathValue::OpaqueStruct(_) => {
                    opaques_grp.push(item);
                    proof {
                        assert(path_values_view(opaques_grp) =~= pre_o.push(itv));
                        assert(pre_o.push(itv) =~= pre_o + seq![itv]);
                        assert(path_values_view(enums_grp) =~= enums_of(kr.take(i as int + 1)));
                        assert(path_values_view(rest) =~= others_of(kr.take(i as int + 1)));
                    }
                },
                _ => {
                    rest.push(item);
                    proof {
                        assert(path_values_view(rest) =~= pre_r.push(itv));
                        assert(pre_r.push(itv) =~= pre_r + seq![itv]);
                        assert(path_values_view(enums_grp) =~= enums_of(kr.take(i as int + 1)));
                        assert(path_values_view(opaques_grp) =~= opaques_of(kr.take(i as int + 1)));
                    }
                },
            }
            i += 1;
        }
        let enums_sorted = sort_items_by_name(enums_grp);
        let opaques_sorted = sort_items_by_name(opaques_grp);
        proof {
            broadcast use vstd::seq_lib::group_to_multiset_ensures;

            assert forall|j: int|
                0 <= j < enums_sorted@.len() implies (#[trigger] path_values_view(enums_sorted)[j])
                is Enum by {
                let x = path_values_view(enums_sorted)[j];
                assert(path_values_view(enums_sorted).contains(x));
                vstd::seq_lib::to_multiset_contains(path_values_view(enums_sorted), x);
                vstd::seq_lib::to_multiset_contains(path_values_view(enums_grp), x);
                let k = choose|k: int|
                    0 <= k < path_values_view(enums_grp).len() && path_values_view(enums_grp)[k]
                        == x;
            }
            assert forall|j: int|
                0 <= j < opaques_sorted@.len() implies (#[trigger] path_values_view(
                opaques_sorted,
            )[j]) is OpaqueStruct by {
                let x = path_values_view(opaques_sorted)[j];
                assert(path_values_view(opaques_sorted).contains(x));
                vstd::seq_lib::to_multiset_contains(path_values_view(opaques_sorted), x);
                vstd::seq_lib::to_multiset_contains(path_values_view(opaques_grp), x);
                let k = choose|k: int|
                    0 <= k < path_values_view(opaques_grp).len() && path_values_view(
                        opaques_grp,
                    )[k] == x;
            }
        }
        let ghost ev = path_values_view(enums_sorted);
        let ghost ov = path_values_view(opaques_sorted);
        let ghost rv = path_values_view(rest);
        let mut items: Vec<PathValue> = enums_sorted;
        proof {
            assert(path_values_view(items) =~= ev);
        }
        let ghost e_len = ev.len();
        let ghost o_len = ov.len();
        let mut i: usize = 0;
        while i < opaques_sorted.len()
            invariant
                i <= opaques_sorted@.len(),
                ov.len() == opaques_sorted@.len(),
                ov == path_values_view(opaques_sorted),
                items@.len() == e_len + i,
                forall|j: int| 0 <= j < e_len ==> #[trigger] path_values_view(items)[j] == ev[j],
                forall|j: int|
                    0 <= j < i ==> #[trigger] path_values_view(items)[e_len + j] == ov[j],
            decreases opaques_sorted.len() - i,
        {
            let ghost pre = path_values_view(items);
            items.push(opaques_sorted[i].duplicate());
            proof {
                assert(path_values_view(items) =~= pre.push(ov[i as int]));
            }
            i += 1;
        }
        let mut i: usize = 0;
        while i < rest.len()
            invariant
                i <= rest@.len(),
                rv.len() == rest@.len(),
                rv == path_values_view(rest),
                items@.len() == e_len + o_len + i,
                forall|j: int| 0 <= j < e_len ==> #[trigger] path_values_view(items)[j] == ev[j],
                forall|j: int|
                    0 <= j < o_len ==> #[trigger] path_values_view(items)[e_len + j] == ov[j],
                forall|j: int|
                    0 <= j < i ==> #[trigger] path_values_view(items)[e_len + o_len + j] == rv[j],
            decreases rest.len() - i,
        {
            let ghost pre = path_values_view(items);
            items.push(rest[i].duplicate());
            proof {
                assert(path_values_view(items) =~= pre.push(rv[i as int]));
            }
            i += 1;
        }
        proof {
            assert forall|j: int|
                0 <= j < path_values_view(items).len() implies {
                let v = #[trigger] path_values_view(items)[j];
                &&& !(v is Specialization)
                &&& (v matches PathValueView::Struct(st) ==> st.generic_params.len() == 0)
                &&& (v is Enum <==> j < e_len)
                &&& (v is OpaqueStruct <==> e_len <= j < e_len + o_len)
            } by {
                if j < e_len {
                    assert(path_values_view(items)[j] == ev[j]);
                } else if j < e_len + o_len {
                    let k = j - e_len;
                    assert(path_values_view(items)[e_len + k] == ov[k]);
                } else {
                    let k = j - e_len - o_len;
                    assert(path_values_view(items)[e_len + o_len + k] == rv[k]);
                }
            }
        }
        let mut table: Vec<Function> = Vec::new();

        let mut i: usize = 0;
        while i < self.functions.len()
            invariant
                i <= self.functions.len(),
                table@.len() == i,
                forall|j: int|
                    0 <= j < i ==> #[trigger] functions_view(table)[j] == function_renamed(
                        self@.functions[j],
                        self@.config,
                    ),
            decreases self.functions.len() - i,
        {
            let mut f = self.functions[i].duplicate();
            f.apply_renaming(&self.config);
            let ghost pre_t = functions_view(table);
            let ghost fv = f@;
            table.push(f);
            proof {
                assert(functions_view(table) =~= pre_t.push(fv));
            }
            i += 1;
        }
        proof {
            assert(functions_view(table) =~= Seq::new(
                self@.functions.len(),
                |i: int| function_renamed(self@.functions[i], self@.config),
            ));
        }
        let functions = sort_functions_by_name(table);
        let ghost iv = path_values_view(items);
        proof {
            assert forall|i: int, j: int|
                0 <= i < j < iv.len() && (#[trigger] iv[j]) is Enum implies (#[trigger] iv[i])
                is Enum by {}
            assert forall|i: int, j: int|
                0 <= i < j < iv.len() && (#[trigger] iv[j]) is OpaqueStruct implies ((
            #[trigger] iv[i]) is Enum || iv[i] is OpaqueStruct) by {}
            assert forall|i: int, j: int|
                0 <= i < j < iv.len() && (#[trigger] iv[i]) is Enum && (#[trigger] iv[j])
                    is Enum implies lex_le(iv[i].name(), iv[j].name()) by {
                assert(iv[i] == ev[i]);
                assert(iv[j] == ev[j]);
            }
            assert forall|i: int, j: int|
                0 <= i < j < iv.len() && (#[trigger] iv[i]) is OpaqueStruct && (#[trigger] iv[j])
                    is OpaqueStruct implies lex_le(iv[i].name(), iv[j].name()) by {
                let a = i - e_len;
                let b = j - e_len;
                assert(iv[e_len + a] == ov[a]);
                assert(iv[e_len + b] == ov[b]);
            }
        }
        proof {
            assert(kr.take(kr.len() as int) =~= kr);
            assert(kr =~= kept_renamed(self@));
            let krn = kept_renamed(self@);
            assert forall|k: int|
                0 <= k < rv.len() implies iv.skip(e_len as int + o_len as int)[k] == rv[k] by {
                assert(path_values_view(items)[e_len + o_len + k] == rv[k]);
            }
            assert(iv.skip(e_len as int + o_len as int) =~= rv);
            assert(rv == others_of(krn));
            assert(iv.take(e_len as int) =~= ev);
            assert forall|k: int|
                0 <= k < o_len implies iv.subrange(e_len as int, e_len as int + o_len as int)[k]
                    == ov[k] by {
                assert(path_values_view(items)[e_len + k] == ov[k]);
            }
            assert(iv.subrange(e_len as int, e_len as int + o_len as int) =~= ov);
            assert(ev.to_multiset() == enums_of(krn).to_multiset());
            assert(ov.to_multiset() == opaques_of(krn).to_multiset());
            assert(e_len + o_len + others_of(krn).len() == iv.len());
            assert(iv.len() == krn.len());
        }
        let result = BuiltBindings { config: self.config.duplicate(), items, functions };
        proof {
            assert(result@.items == iv);
        }
        Ok(result)
    }
}

/// The first function of that name, probing front to back.
pub open spec fn find_function(s: Seq<FunctionView>, n: Seq<char>) -> Option<FunctionView>
    decreases s.len(),
{
    if s.len() == 0 {
        None
    } else if s[0].name == n {
        Some(s[0])
    } else {
        find_function(s.drop_first(), n)
    }
}

/// Whether any of the five item tables holds the name; the tables are
/// kept disjoint so that resolution has exactly one candidate.
pub open spec fn item_name_taken(lib: LibraryView, n: Seq<char>) -> bool {
    ||| find_enum(lib.enums, n) is Some
    ||| find_struct(lib.structs, n) is Some
    ||| find_opaque(lib.opaque_structs, n) is Some
    ||| find_typedef(lib.typedefs, n) is Some
    ||| find_specialization(lib.specializations, n) is Some
}

/// The table with its first entry of that name removed.
pub open spec fn remove_struct_named(s: Seq<StructView>, n: Seq<char>) -> Seq<StructView>
    decreases s.len(),
{
    if s.len() == 0 {
        s
    } else if s[0].name == n {
        s.drop_first()
    } else {
        seq![s[0]] + remove_struct_named(s.drop_first(), n)
    }
}

/// Adds an enumeration unless an item already holds the name; the
/// first insertion wins.
pub open spec fn with_enum(lib: LibraryView, e: EnumView) -> LibraryView {
    if item_name_taken(lib, e.name) {
        lib
    } else {
        LibraryView { enums: lib.enums.push(e), ..lib }
    }
}

/// Adds an aggregate unless an item already holds the name.
pub open spec fn with_struct(lib: LibraryView, st: StructView) -> LibraryView {
    if item_name_taken(lib, st.name) {
        lib
    } else {
        LibraryView { structs: lib.structs.push(st), ..lib }
    }
}

/// Adds an opaque aggregate.  When a concrete aggregate already holds
/// the name — a later declaration under the same name failed
/// conversion — the promotion is authoritative: the concrete entry is
/// replaced by the opaque one.  Otherwise the first insertion wins.
pub open spec fn with_opaque(lib: LibraryView, o: OpaqueStructView) -> LibraryView {
    if find_struct(lib.structs, o.name) is Some {
        LibraryView {
            structs: remove_struct_named(lib.structs, o.name),
            opaque_structs: lib.opaque_structs.push(o),
            ..lib
        }
    } else if item_name_taken(lib, o.name) {
        lib
    } else {
        LibraryView { opaque_structs: lib.opaque_structs.push(o), ..lib }
    }
}

/// Adds a type alias unless an item already holds the name.
pub open spec fn with_typedef(lib: LibraryView, t: TypedefView) -> LibraryView {
    if item_name_taken(lib, t.name) {
        lib
    } else {
        LibraryView { typedefs: lib.typedefs.push(t), ..lib }
    }
}

/// Adds a specialization unless an item already holds the name.
pub open spec fn with_specialization(lib: LibraryView, sp: SpecializationView) -> LibraryView {
    if item_name_taken(lib, sp.name) {
        lib
    } else {
        LibraryView { specializations: lib.specializations.push(sp), ..lib }
    }
}

/// Adds a function unless the table already holds the name.
pub open spec fn with_function(lib: LibraryView, f: FunctionView) -> LibraryView {
    if find_function(lib.functions, f.name) is Some {
        lib
    } else {
        LibraryView { functions: lib.functions.push(f), ..lib }
    }
}

/// What one C-ABI function declaration does to the library: skipped
/// when it comes from a crate other than the binding crate or when a
/// type in its signature is unsupported; otherwise inserted, with the
/// annotations its documentation carries.
pub open spec fn intake_function(
    lib: LibraryView,
    cn: Seq<char>,
    f: crate::parse::ParsedFunctionView,
    extern_decl: bool,
) -> LibraryView {
    if cn != lib.bindings_crate_name {
        lib
    } else if crate::parse::convert_args_spec(f.args) is Some && crate::parse::convert_type_spec(
        f.ret,
    ) is Some {
        with_function(
            lib,
            FunctionView {
                name: f.name,
                annotations: crate::parse::annotations_or_empty(f.doc),
                ret: crate::parse::convert_type_spec(f.ret)->0,
                args: crate::parse::convert_args_spec(f.args)->0,
                extern_decl,
            },
        )
    } else {
        lib
    }
}

/// The functions of an extern block, taken in order.
pub open spec fn intake_foreign_from(
    lib: LibraryView,
    cn: Seq<char>,
    fns: Seq<crate::parse::ParsedFunctionView>,
    i: int,
) -> LibraryView
    decreases fns.len() - i,
{
    if i < 0 || i >= fns.len() {
        lib
    } else {
        intake_foreign_from(intake_function(lib, cn, fns[i], true), cn, fns, i + 1)
    }
}

/// What one declaration does to the library: the per-kind intake
/// policy.
pub open spec fn intake_item(
    lib: LibraryView,
    cn: Seq<char>,
    item: crate::parse::ParsedItemView,
) -> LibraryView {
    match item {
        crate::parse::ParsedItemView::ExternBlock { abi_is_c, fns } => {
            if !abi_is_c {
                lib
            } else {
                intake_foreign_from(lib, cn, fns, 0)
            }
        },
        crate::parse::ParsedItemView::FreeFunction { func, no_mangle, abi_is_c } => {
            if cn != lib.bindings_crate_name {
                lib
            } else if no_mangle && abi_is_c {
                intake_function(lib, cn, func, false)
            } else {
                lib
            }
        },
        crate::parse::ParsedItemView::StructDecl {
            name,
            doc,
            repr_c,
            generic_params,
            named_fields,
            fields,
        } => {
            let anns = crate::parse::annotations_or_empty(doc);
            if repr_c && named_fields && crate::parse::convert_args_spec(fields) is Some {
                with_struct(
                    lib,
                    StructView {
                        name,
                        annotations: anns,
                        fields: crate::parse::convert_args_spec(fields)->0,
                        generic_params,
                    },
                )
            } else {
                with_opaque(lib, OpaqueStructView { name, annotations: anns })
            }
        },
        crate::parse::ParsedItemView::EnumDecl {
            name,
            doc,
            repr,
            has_generics,
            has_lifetimes,
            has_where,
            variants,
        } => {
            let anns = crate::parse::annotations_or_empty(doc);
            if has_generics || has_lifetimes || has_where {
                with_opaque(lib, OpaqueStructView { name, annotations: anns })
            } else {
                if crate::parse::enum_converts(variants) {
                    with_enum(
                        lib,
                        EnumView {
                            name,
                            repr,
                            annotations: anns,
                            values: Seq::new(
                                variants.len(),
                                |i: int|
                                    (
                                        variants[i].name,
                                        crate::parse::variant_value(variants, i) as u64,
                                    ),
                            ),
                        },
                    )
                } else {
                    with_opaque(lib, OpaqueStructView { name, annotations: anns })
                }
            }
        },
        crate::parse::ParsedItemView::AliasDecl { name, doc, generic_params, has_lifetimes, ty } => {
            let anns = crate::parse::annotations_or_empty(doc);
            if crate::parse::specializes(generic_params, has_lifetimes, ty) {
                with_specialization(
                    lib,
                    SpecializationView {
                        name,
                        annotations: anns,
                        generic_params,
                        aliased_name: ty->Path_0,
                        generic_values: crate::parse::convert_types_spec(ty->Path_1)->0,
                    },
                )
            } else if generic_params.len() > 0 || has_lifetimes {
                lib
            } else if crate::parse::convert_type_spec(ty) is Some {
                with_typedef(
                    lib,
                    TypedefView {
                        name,
                        annotations: anns,
                        aliased: crate::parse::convert_type_spec(ty)->0,
                    },
                )
            } else {
                lib
            }
        },
        crate::parse::ParsedItemView::Other => lib,
    }
}

/// The declarations of one module, taken in order.
pub open spec fn intake_from(
    lib: LibraryView,
    cn: Seq<char>,
    items: Seq<crate::parse::ParsedItemView>,
    i: int,
) -> LibraryView
    decreases items.len() - i,
{
    if i < 0 || i >= items.len() {
        lib
    } else {
        intake_from(intake_item(lib, cn, items[i]), cn, items, i + 1)
    }
}

/// The modules of a parse, taken in order.
pub open spec fn intake_modules_from(
    lib: LibraryView,
    mods: Seq<crate::parse::ParsedModuleView>,
    i: int,
) -> LibraryView
    decreases mods.len() - i,
{
    if i < 0 || i >= mods.len() {
        lib
    } else {
        intake_modules_from(intake_from(lib, mods[i].crate_name, mods[i].items, 0), mods, i + 1)
    }
}

impl Library {
    fn has_enum(&self, n: &String) -> (r: bool)
        ensures
            r == (find_enum(self@.enums, n@) is Some),
    {
        let mut i: usize = 0;
        proof {
            assert(self@.enums.skip(0) =~= self@.enums);
        }
        while i < self.enums.len()
            invariant
                i <= self.enums.len(),
                find_enum(self@.enums, n@) == find_enum(self@.enums.skip(i as int), n@),
            decreases self.enums.len() - i,
        {
            proof {
                assert(self@.enums.skip(i as int).drop_first() =~= self@.enums.skip(i as int + 1));
            }
            if string_eq(&self.enums[i].name, n) {
                return true;
            }
            i += 1;
        }
        proof {
            assert(self@.enums.skip(self.enums@.len() as int) =~= Seq::<EnumView>::empty());
        }
        false
    }

    fn has_struct(&self, n: &String) -> (r: bool)
        ensures
            r == (find_struct(self@.structs, n@) is Some),
    {
        let mut i: usize = 0;
        proof {
            assert(self@.structs.skip(0) =~= self@.structs);
        }
        while i < self.structs.len()
            invariant
                i <= self.structs.len(),
                find_struct(self@.structs, n@) == find_struct(self@.structs.skip(i as int), n@),
            decreases self.structs.len() - i,
        {
            proof {
                assert(self@.structs.skip(i as int).drop_first() =~= self@.structs.skip(
                    i as int + 1,
                ));
            }
            if string_eq(&self.structs[i].name, n) {
                return true;
            }
            i += 1;
        }
        proof {
            assert(self@.structs.skip(self.structs@.len() as int) =~= Seq::<StructView>::empty());
        }
        false
    }

    fn has_opaque(&self, n: &String) -> (r: bool)
        ensures
            r == (find_opaque(self@.opaque_structs, n@) is Some),
    {
        let mut i: usize = 0;
        proof {
            assert(self@.opaque_structs.skip(0) =~= self@.opaque_structs);
        }
        while i < self.opaque_structs.len()
            invariant
                i <= self.opaque_structs.len(),
                find_opaque(self@.opaque_structs, n@) == find_opaque(
                    self@.opaque_structs.skip(i as int),
                    n@,
                ),
            decreases self.opaque_structs.len() - i,
        {
            proof {
                assert(self@.opaque_structs.skip(i as int).drop_first() =~= self@.opaque_structs
                    .skip(i as int + 1));
            }
            if string_eq(&self.opaque_structs[i].name, n) {
                return true;
            }
            i += 1;
        }
        proof {
            assert(self@.opaque_structs.skip(self.opaque_structs@.len() as int) =~= Seq::<
                OpaqueStructView,
            >::empty());
        }
        false
    }

    fn has_typedef(&self, n: &String) -> (r: bool)
        ensures
            r == (find_typedef(self@.typedefs, n@) is Some),
    {
        let mut i: usize = 0;
        proof {
            assert(self@.typedefs.skip(0) =~= self@.typedefs);
        }
        while i < self.typedefs.len()
            invariant
                i <= self.typedefs.len(),
                find_typedef(self@.typedefs, n@) == find_typedef(
                    self@.typedefs.skip(i as int),
                    n@,
                ),
            decreases self.typedefs.len() - i,
        {
            proof {
                assert(self@.typedefs.skip(i as int).drop_first() =~= self@.typedefs.skip(
                    i as int + 1,
                ));
            }
            if string_eq(&self.typedefs[i].name, n) {
                return true;
            }
            i += 1;
        }
        proof {
            assert(self@.typedefs.skip(self.typedefs@.len() as int) =~= Seq::<
                TypedefView,
            >::empty());
        }
        false
    }

    fn has_specialization(&self, n: &String) -> (r: bool)
        ensures
            r == (find_specialization(self@.specializations, n@) is Some),
    {
        let mut i: usize = 0;
        proof {
            assert(self@.specializations.skip(0) =~= self@.specializations);
        }
        while i < self.specializations.len()
            invariant
                i <= self.specializations.len(),
                find_specialization(self@.specializations, n@) == find_specialization(
                    self@.specializations.skip(i as int),
                    n@,
                ),
            decreases self.specializations.len() - i,
        {
            proof {
                assert(self@.specializations.skip(i as int).drop_first() =~= self@.specializations
                    .skip(i as int + 1));
            }
            if string_eq(&self.specializations[i].name, n) {
                return true;
            }
            i += 1;
        }
        proof {
            assert(self@.specializations.skip(self.specializations@.len() as int) =~= Seq::<
                SpecializationView,
            >::empty());
        }
        false
    }

    fn has_function(&self, n: &String) -> (r: bool)
        ensures
            r == (find_function(self@.functions, n@) is Some),
    {
        let mut i: usize = 0;
        proof {
            assert(self@.functions.skip(0) =~= self@.functions);
        }
        while i < self.functions.len()
            invariant
                i <= self.functions.len(),
                find_function(self@.functions, n@) == find_function(
                    self@.functions.skip(i as int),
                    n@,
                ),
            decreases self.functions.len() - i,
        {
            proof {
                assert(self@.functions.skip(i as int).drop_first() =~= self@.functions.skip(
                    i as int + 1,
                ));
            }
            if string_eq(&self.functions[i].name, n) {
                return true;
            }
            i += 1;
        }
        proof {
            assert(self@.functions.skip(self.functions@.len() as int) =~= Seq::<
                FunctionView,
            >::empty());
        }
        false
    }

    /// Whether any item table holds the name.
    fn name_taken(&self, n: &String) -> (r: bool)
        ensures
            r == item_name_taken(self@, n@),
    {
        self.has_enum(n) || self.has_struct(n) || self.has_opaque(n) || self.has_typedef(n)
            || self.has_specialization(n)
    }

    /// The position of the first concrete aggregate of that name.
    fn struct_index(&self, n: &String) -> (r: usize)
        requires
            find_struct(self@.structs, n@) is Some,
        ensures
            r < self@.structs.len(),
            self@.structs[r as int].name == n@,
            forall|k: int| 0 <= k < r ==> self@.structs[k].name != n@,
    {
        let mut j: usize = 0;
        while j < self.structs.len()
            invariant
                j <= self.structs@.len(),
                find_struct(self@.structs, n@) is Some,
                forall|k: int| 0 <= k < j ==> self@.structs[k].name != n@,
            decreases self.structs.len() - j,
        {
            if string_eq(&self.structs[j].name, n) {
                return j;
            }
            j += 1;
        }
        proof {
            lemma_find_struct_index(self@.structs, n@);
            let w = choose|w: int|
                0 <= w < self@.structs.len() && #[trigger] self@.structs[w].name == n@;
            assert(false);
        }
        0
    }

    /// Inserts an opaque aggregate: replaces a same-name concrete
    /// aggregate (the promotion is authoritative), otherwise the
    /// first insertion wins.
    fn insert_opaque(&mut self, o: OpaqueStruct)
        ensures
            final(self)@ == with_opaque(old(self)@, o@),
    {
        if self.has_struct(&o.name) {
            let ghost pre = self@;
            let j = self.struct_index(&o.name);
            let ghost pre_structs = self@.structs;
            self.structs.remove(j);
            proof {
                assert(self@.structs =~= pre_structs.remove(j as int));
                lemma_remove_struct_at(pre_structs, o@.name, j as int);
            }
            let ghost ov = o@;
            let ghost pre_opaques = self@.opaque_structs;
            self.opaque_structs.push(o);
            proof {
                assert(self@.opaque_structs =~= pre_opaques.push(ov));
                assert(self@ =~= with_opaque(pre, ov));
            }
        } else if self.name_taken(&o.name) {
        } else {
            let ghost pre = self@;
            let ghost ov = o@;
            self.opaque_structs.push(o);
            proof {
                assert(self@ =~= (LibraryView {
                    opaque_structs: pre.opaque_structs.push(ov),
                    ..pre
                }));
            }
        }
    }

    /// Takes one C-ABI function in, applying the binding-crate filter
    /// and the first-insertion-wins policy.
    fn intake_fn(&mut self, crate_name: &str, pf: &crate::parse::ParsedFunction, extern_decl: bool)
        ensures
            final(self)@ == intake_function(old(self)@, crate_name@, pf@, extern_decl),
    {
        if !crate::text::str_eq_str(crate_name, self.bindings_crate_name.as_str()) {
            return ;
        }
        let annotations = match crate::ir::AnnotationSet::parse(&pf.doc) {
            Ok(a) => a,
            Err(_) => crate::ir::AnnotationSet::new(),
        };
        match Function::convert(pf.name.clone(), annotations, &pf.args, &pf.ret, extern_decl) {
            Ok(func) => {
                if !self.has_function(&func.name) {
                    let ghost pre = self@;
                    self.functions.push(func);
                    proof {
                        assert(self@ =~= (LibraryView {
                            functions: pre.functions.push(
                                intake_function(
                                    pre,
                                    crate_name@,
                                    pf@,
                                    extern_decl,
                                ).functions.last(),
                            ),
                            ..pre
                        }));
                        assert(self@ =~= intake_function(pre, crate_name@, pf@, extern_decl));
                    }
                }
            },
            Err(_) => {},
        }
    }

    /// Consumes the declarations of one module, in the order the
    /// parser delivered them, applying the per-kind intake policy.
    pub fn parse_crate_mod(&mut self, crate_name: &str, items: &Vec<crate::parse::ParsedItem>)
        ensures
            final(self)@ == intake_from(
                old(self)@,
                crate_name@,
                crate::parse::parsed_items_view(*items),
                0,
            ),
    {
        let ghost itemsv = crate::parse::parsed_items_view(*items);
        let mut i: usize = 0;
        while i < items.len()
            invariant
                i <= items@.len(),
                itemsv == crate::parse::parsed_items_view(*items),
                itemsv.len() == items@.len(),
                intake_from(old(self)@, crate_name@, itemsv, 0) == intake_from(
                    self@,
                    crate_name@,
                    itemsv,
                    i as int,
                ),
            decreases items.len() - i,
        {
            self.intake_one(crate_name, &items[i]);
            i += 1;
        }
    }

    /// Takes one declaration in.
    #[verifier::rlimit(60)]
    fn intake_one(&mut self, crate_name: &str, item: &crate::parse::ParsedItem)
        ensures
            final(self)@ == intake_item(old(self)@, crate_name@, item@),
    {
        match item {
            crate::parse::ParsedItem::ExternBlock { abi_is_c, fns } => {
                if !*abi_is_c {
                    return ;
                }
                let ghost fnsv = item@->ExternBlock_fns;
                let mut i: usize = 0;
                while i < fns.len()
                    invariant
                        i <= fns@.len(),
                        fnsv == Seq::new(fns@.len(), |k: int| fns@[k]@),
                        fnsv.len() == fns@.len(),
                        intake_foreign_from(old(self)@, crate_name@, fnsv, 0)
                            == intake_foreign_from(self@, crate_name@, fnsv, i as int),
                    decreases fns.len() - i,
                {
                    self.intake_fn(crate_name, &fns[i], true);
                    i += 1;
                }
            },
            crate::parse::ParsedItem::FreeFunction { func, no_mangle, abi_is_c } => {
                if !crate::text::str_eq_str(crate_name, self.bindings_crate_name.as_str()) {
                    return ;
                }
                if *no_mangle && *abi_is_c {
                    self.intake_fn(crate_name, func, false);
                }
            },
            crate::parse::ParsedItem::StructDecl {
                name,
                doc,
                repr_c,
                generic_params,
                named_fields,
                fields,
            } => {
                let annotations = match crate::ir::AnnotationSet::parse(doc) {
                    Ok(a) => a,
                    Err(_) => crate::ir::AnnotationSet::new(),
                };
                let mut fell_back = true;
                if *repr_c {
                    match Struct::convert(
                        name.clone(),
                        annotations.duplicate(),
                        crate::ir::duplicate_names(generic_params),
                        *named_fields,
                        fields,
                    ) {
                        Ok(st) => {
                            fell_back = false;
                            if !self.name_taken(&st.name) {
                                let ghost pre = self@;
                                let ghost stv = st@;
                                self.structs.push(st);
                                proof {
                                    assert(self@ =~= (LibraryView {
                                        structs: pre.structs.push(stv),
                                        ..pre
                                    }));
                                }
                            }
                        },
                        Err(_) => {},
                    }
                }
                if fell_back {
                    let o = OpaqueStruct::new(name.clone(), annotations);
                    self.insert_opaque(o);
                }
            },
            crate::parse::ParsedItem::EnumDecl {
                name,
                doc,
                repr,
                has_generics,
                has_lifetimes,
                has_where,
                variants,
            } => {
                let annotations = match crate::ir::AnnotationSet::parse(doc) {
                    Ok(a) => a,
                    Err(_) => crate::ir::AnnotationSet::new(),
                };
                if *has_generics || *has_lifetimes || *has_where {
                    let o = OpaqueStruct::new(name.clone(), annotations);
                    self.insert_opaque(o);
                    return ;
                }
                match Enum::convert(name.clone(), *repr, annotations.duplicate(), variants) {
                    Ok(e) => {
                        if !self.name_taken(&e.name) {
                            let ghost pre = self@;
                            let ghost ev = e@;
                            self.enums.push(e);
                            proof {
                                assert(self@ =~= (LibraryView { enums: pre.enums.push(ev), ..pre }));
                                assert(ev =~= (EnumView {
                                    name: name@,
                                    repr: *repr,
                                    annotations: annotations@,
                                    values: Seq::new(
                                        crate::parse::variants_view(*variants).len(),
                                        |i: int|
                                            (
                                                crate::parse::variants_view(*variants)[i].name,
                                                crate::parse::variant_value(
                                                    crate::parse::variants_view(*variants),
                                                    i,
                                                ) as u64,
                                            ),
                                    ),
                                }));
                            }
                        }
                    },
                    Err(_) => {
                        let o = OpaqueStruct::new(name.clone(), annotations);
                        self.insert_opaque(o);
                    },
                }
            },
            crate::parse::ParsedItem::AliasDecl { name, doc, generic_params, has_lifetimes, ty } => {
                let annotations = match crate::ir::AnnotationSet::parse(doc) {
                    Ok(a) => a,
                    Err(_) => crate::ir::AnnotationSet::new(),
                };
                match Specialization::convert(
                    name.clone(),
                    annotations.duplicate(),
                    crate::ir::duplicate_names(generic_params),
                    *has_lifetimes,
                    ty,
                ) {
                    Ok(sp) => {
                        if !self.name_taken(&sp.name) {
                            let ghost pre = self@;
                            let ghost spv = sp@;
                            self.specializations.push(sp);
                            proof {
                                assert(self@ =~= (LibraryView {
                                    specializations: pre.specializations.push(spv),
                                    ..pre
                                }));
                            }
                        }
                        return ;
                    },
                    Err(_) => {},
                }
                if generic_params.len() > 0 || *has_lifetimes {
                    return ;
                }
                match Typedef::convert(name.clone(), annotations, ty) {
                    Ok(t) => {
                        if !self.name_taken(&t.name) {
                            let ghost pre = self@;
                            let ghost tv = t@;
                            self.typedefs.push(t);
                            proof {
                                assert(self@ =~= (LibraryView {
                                    typedefs: pre.typedefs.push(tv),
                                    ..pre
                                }));
                            }
                        }
                    },
                    Err(_) => {},
                }
            },
            crate::parse::ParsedItem::Other => {},
        }
    }

    /// Parses a single source file's declaration stream and loads the
    /// C-representable types and exports for binding generation; the
    /// binding crate name is empty for plain source input.
    pub fn load_src(modules: &Vec<crate::parse::ParsedModule>, config: Config) -> (r: Result<
        Library,
        String,
    >)
        ensures
            r matches Ok(lib) ==> lib@ == intake_modules_from(
                Library::blank_view(""@, config@),
                crate::parse::modules_view(*modules),
                0,
            ),
            r is Ok,
    {
        let ghost cv = config@;
        let mut library = Library::blank("", config);
        proof {
            assert(library@ =~= Library::blank_view(""@, cv));
        }
        library.load_modules(modules);
        Ok(library)
    }

    /// Parses a crate's declaration stream and loads the
    /// C-representable types and the binding crate's exports.
    pub fn load_crate(
        modules: &Vec<crate::parse::ParsedModule>,
        bindings_crate_name: &str,
        config: Config,
    ) -> (r: Result<Library, String>)
        ensures
            r matches Ok(lib) ==> lib@ == intake_modules_from(
                Library::blank_view(bindings_crate_name@, config@),
                crate::parse::modules_view(*modules),
                0,
            ),
            r is Ok,
    {
        let ghost cv = config@;
        let mut library = Library::blank(bindings_crate_name, config);
        proof {
            assert(library@ =~= Library::blank_view(bindings_crate_name@, cv));
        }
        library.load_modules(modules);
        Ok(library)
    }

    /// The view of a blank library.
    pub open spec fn blank_view(
        bindings_crate_name: Seq<char>,
        config: crate::config::ConfigView,
    ) -> LibraryView {
        LibraryView {
            bindings_crate_name,
            config,
            enums: Seq::empty(),
            structs: Seq::empty(),
            opaque_structs: Seq::empty(),
            typedefs: Seq::empty(),
            specializations: Seq::empty(),
            functions: Seq::empty(),
        }
    }

    /// Consumes every module of a parse, in order.
    fn load_modules(&mut self, modules: &Vec<crate::parse::ParsedModule>)
        ensures
            final(self)@ == intake_modules_from(
                old(self)@,
                crate::parse::modules_view(*modules),
                0,
            ),
    {
        let ghost mv = crate::parse::modules_view(*modules);
        let mut i: usize = 0;
        while i < modules.len()
            invariant
                i <= modules@.len(),
                mv == crate::parse::modules_view(*modules),
                mv.len() == modules@.len(),
                intake_modules_from(old(self)@, mv, 0) == intake_modules_from(
                    self@,
                    mv,
                    i as int,
                ),
            decreases modules.len() - i,
        {
            self.parse_crate_mod(modules[i].crate_name.as_str(), &modules[i].items);
            i += 1;
        }
    }
}

} // verus!
