//! The declaration model: the type algebra and the in-memory entities
//! (enumerations, aggregates, opaque aggregates, type aliases,
//! parameterized specializations and functions) that intake fills and
//! emission consumes.  Each entity carries a mathematical view used by
//! the contracts of the pipeline.

use vstd::prelude::*;

verus! {

broadcast use vstd::std_specs::vec::axiom_vec_index_decreases;

/// The layout hint attached to an aggregate or an enumeration; only a
/// C-compatible hint makes an aggregate concrete.
#[derive(Debug, Clone, Copy, PartialEq, Eq, Structural)]
pub enum Repr {
    Absent,
    C,
    U8,
    U16,
    U32,
}

/// The fixed-layout scalar types of the C surface.
#[derive(Debug, Clone, Copy, PartialEq, Eq, Structural)]
pub enum PrimitiveType {
    Void,
    Bool,
    Char,
    UInt8,
    UInt16,
    UInt32,
    UInt64,
    USize,
    Int8,
    Int16,
    Int32,
    Int64,
    ISize,
    Float,
    Double,
}

/// The type algebra the core manipulates.  A named reference carries
/// the referenced name and its generic arguments; it must resolve in
/// the library for the item to be emittable.  A function pointer
/// carries its return type and its parameter types.
#[derive(Debug, PartialEq)]
pub enum Type {
    Primitive(PrimitiveType),
    ConstPtr(Box<Type>),
    Ptr(Box<Type>),
    Array(Box<Type>, u64),
    Path(String, Vec<Type>),
    FuncPtr(Box<Type>, Vec<Type>),
}

/// The mathematical shape of a `Type`.
#[verifier::ext_equal]
pub enum TypeView {
    Primitive(PrimitiveType),
    ConstPtr(Box<TypeView>),
    Ptr(Box<TypeView>),
    Array(Box<TypeView>, u64),
    Path(Seq<char>, Seq<TypeView>),
    FuncPtr(Box<TypeView>, Seq<TypeView>),
}

/// The view of a type.
pub open spec fn type_view(t: Type) -> TypeView
    decreases t,
{
    match t {
        Type::Primitive(p) => TypeView::Primitive(p),
        Type::ConstPtr(b) => TypeView::ConstPtr(Box::new(type_view(*b))),
        Type::Ptr(b) => TypeView::Ptr(Box::new(type_view(*b))),
        Type::Array(b, n) => TypeView::Array(Box::new(type_view(*b)), n),
        Type::Path(p, vs) => TypeView::Path(p@, types_view(vs)),
        Type::FuncPtr(r, vs) => TypeView::FuncPtr(Box::new(type_view(*r)), types_view(vs)),
    }
}

/// The views of a list of types.
pub open spec fn types_view(vs: Vec<Type>) -> Seq<TypeView>
    decreases vs,
{
    Seq::new(
        vs@.len(),
        |i: int|
            if 0 <= i < vs@.len() {
                type_view(vs@[i])
            } else {
                TypeView::Primitive(PrimitiveType::Void)
            },
    )
}

impl View for Type {
    type V = TypeView;

    open spec fn view(&self) -> TypeView {
        type_view(*self)
    }
}

/// The views of named fields or arguments: each name paired with the
/// view of its type.
pub open spec fn named_types_view(v: Vec<(String, Type)>) -> Seq<(Seq<char>, TypeView)> {
    Seq::new(v@.len(), |i: int| (v@[i].0@, type_view(v@[i].1)))
}

/// The views of a list of names.
pub open spec fn names_view(v: Vec<String>) -> Seq<Seq<char>> {
    Seq::new(v@.len(), |i: int| v@[i]@)
}

impl Type {
    /// A structurally equal copy.
    pub fn duplicate(&self) -> (r: Type)
        ensures
            r@ == self@,
        decreases *self,
    {
        match self {
            Type::Primitive(p) => Type::Primitive(*p),
            Type::ConstPtr(b) => Type::ConstPtr(Box::new((**b).duplicate())),
            Type::Ptr(b) => Type::Ptr(Box::new((**b).duplicate())),
            Type::Array(b, n) => Type::Array(Box::new((**b).duplicate()), *n),
            Type::Path(p, args) => {
                let r = Type::Path(p.clone(), duplicate_types(args));
                proof {
                    assert(r@ =~= self@);
                }
                r
            },
            Type::FuncPtr(ret, args) => {
                let r = Type::FuncPtr(Box::new((**ret).duplicate()), duplicate_types(args));
                proof {
                    assert(r@ =~= self@);
                }
                r
            },
        }
    }
}

/// A copy of a list of types, equal in view.
pub fn duplicate_types(v: &Vec<Type>) -> (r: Vec<Type>)
    ensures
        types_view(r) == types_view(*v),
    decreases v@,
{
    let mut out: Vec<Type> = Vec::new();
    let mut i: usize = 0;
    while i < v.len()
        invariant
            i <= v.len(),
            out@.len() == i,
            forall|j: int| 0 <= j < i ==> type_view(out@[j]) == type_view(v@[j]),
        decreases v.len() - i,
    {
        let e = v[i].duplicate();
        out.push(e);
        i += 1;
    }
    proof {
        assert(types_view(out) =~= types_view(*v));
    }
    out
}

impl Clone for Type {
    fn clone(&self) -> (r: Self)
        ensures
            r@ == self@,
    {
        self.duplicate()
    }
}

/// A copy of a list of names.
pub fn duplicate_names(v: &Vec<String>) -> (r: Vec<String>)
    ensures
        r@ == v@,
{
    let mut out: Vec<String> = Vec::new();
    let mut i: usize = 0;
    while i < v.len()
        invariant
            i <= v.len(),
            out@ =~= v@.take(i as int),
        decreases v.len() - i,
    {
        out.push(v[i].clone());
        proof {
            assert(out@ =~= v@.take(i as int + 1));
        }
        i += 1;
    }
    proof {
        assert(v@.take(v@.len() as int) =~= v@);
    }
    out
}

/// A copy of named fields or arguments, equal in view.
pub fn duplicate_named_types(v: &Vec<(String, Type)>) -> (r: Vec<(String, Type)>)
    ensures
        named_types_view(r) == named_types_view(*v),
{
    let mut out: Vec<(String, Type)> = Vec::new();
    let mut i: usize = 0;
    while i < v.len()
        invariant
            i <= v.len(),
            out@.len() == i,
            forall|j: int|
                0 <= j < i ==> out@[j].0@ == v@[j].0@ && type_view(out@[j].1) == type_view(v@[j].1),
        decreases v.len() - i,
    {
        let name = v[i].0.clone();
        let ty = v[i].1.duplicate();
        out.push((name, ty));
        i += 1;
    }
    proof {
        assert(named_types_view(out) =~= named_types_view(*v));
    }
    out
}

/// The value of one annotation: a flag or a string.
#[derive(Debug, PartialEq)]
pub enum AnnotationValue {
    Bool(bool),
    Str(String),
}

/// The mathematical shape of an annotation value.
pub enum AnnotationValueView {
    Bool(bool),
    Str(Seq<char>),
}

impl View for AnnotationValue {
    type V = AnnotationValueView;

    open spec fn view(&self) -> AnnotationValueView {
        match self {
            AnnotationValue::Bool(b) => AnnotationValueView::Bool(*b),
            AnnotationValue::Str(s) => AnnotationValueView::Str(s@),
        }
    }
}

/// Per-item overrides parsed from the documentation comment attached
/// to a declaration: lowercase keys mapped to string or boolean
/// values, in the order they were written.
#[derive(Debug, PartialEq)]
pub struct AnnotationSet {
    pub entries: Vec<(String, AnnotationValue)>,
}

impl View for AnnotationSet {
    type V = Seq<(Seq<char>, AnnotationValueView)>;

    open spec fn view(&self) -> Seq<(Seq<char>, AnnotationValueView)> {
        Seq::new(self.entries@.len(), |i: int| (self.entries@[i].0@, self.entries@[i].1@))
    }
}

impl AnnotationSet {
    /// The empty annotation set.
    pub fn new() -> (r: AnnotationSet)
        ensures
            r@ == Seq::<(Seq<char>, AnnotationValueView)>::empty(),
    {
        let r = AnnotationSet { entries: Vec::new() };
        proof {
            assert(r@ =~= Seq::<(Seq<char>, AnnotationValueView)>::empty());
        }
        r
    }

    /// A copy, equal in view.
    pub fn duplicate(&self) -> (r: AnnotationSet)
        ensures
            r@ == self@,
    {
        let mut out: Vec<(String, AnnotationValue)> = Vec::new();
        let mut i: usize = 0;
        while i < self.entries.len()
            invariant
                i <= self.entries.len(),
                out@.len() == i,
                forall|j: int|
                    0 <= j < i ==> out@[j].0@ == self.entries@[j].0@ && out@[j].1@
                        == self.entries@[j].1@,
            decreases self.entries.len() - i,
        {
            let key = self.entries[i].0.clone();
            let value = match &self.entries[i].1 {
                AnnotationValue::Bool(b) => AnnotationValue::Bool(*b),
                AnnotationValue::Str(s) => AnnotationValue::Str(s.clone()),
            };
            out.push((key, value));
            i += 1;
        }
        let r = AnnotationSet { entries: out };
        proof {
            assert(r@ =~= self@);
        }
        r
    }
}

impl Clone for AnnotationSet {
    fn clone(&self) -> (r: Self)
        ensures
            r@ == self@,
    {
        self.duplicate()
    }
}

/// An enumeration: a name, a layout hint, and named variants each
/// carrying its computed discriminant value.
#[derive(Debug, PartialEq)]
pub struct Enum {
    pub name: String,
    pub repr: Repr,
    pub annotations: AnnotationSet,
    pub values: Vec<(String, u64)>,
}

/// The mathematical shape of an `Enum`.
#[verifier::ext_equal]
pub struct EnumView {
    pub name: Seq<char>,
    pub repr: Repr,
    pub annotations: Seq<(Seq<char>, AnnotationValueView)>,
    pub values: Seq<(Seq<char>, u64)>,
}

impl View for Enum {
    type V = EnumView;

    open spec fn view(&self) -> EnumView {
        EnumView {
            name: self.name@,
            repr: self.repr,
            annotations: self.annotations@,
            values: Seq::new(self.values@.len(), |i: int| (self.values@[i].0@, self.values@[i].1)),
        }
    }
}

impl Enum {
    /// A copy, equal in view.
    pub fn duplicate(&self) -> (r: Enum)
        ensures
            r@ == self@,
    {
        let mut values: Vec<(String, u64)> = Vec::new();
        let mut i: usize = 0;
        while i < self.values.len()
            invariant
                i <= self.values.len(),
                values@.len() == i,
                forall|j: int|
                    0 <= j < i ==> values@[j].0@ == self.values@[j].0@ && values@[j].1
                        == self.values@[j].1,
            decreases self.values.len() - i,
        {
            values.push((self.values[i].0.clone(), self.values[i].1));
            i += 1;
        }
        let r = Enum {
            name: self.name.clone(),
            repr: self.repr,
            annotations: self.annotations.duplicate(),
            values,
        };
        proof {
            assert(r@ =~= self@);
        }
        r
    }
}

impl Clone for Enum {
    fn clone(&self) -> (r: Self)
        ensures
            r@ == self@,
    {
        self.duplicate()
    }
}

/// An aggregate: a name, named fields, and generic parameter names; a
/// non-empty parameter list marks a template of which only
/// monomorphized instances are emittable.
#[derive(Debug, PartialEq)]
pub struct Struct {
    pub name: String,
    pub annotations: AnnotationSet,
    pub fields: Vec<(String, Type)>,
    pub generic_params: Vec<String>,
}

/// The mathematical shape of a `Struct`.
#[verifier::ext_equal]
pub struct StructView {
    pub name: Seq<char>,
    pub annotations: Seq<(Seq<char>, AnnotationValueView)>,
    pub fields: Seq<(Seq<char>, TypeView)>,
    pub generic_params: Seq<Seq<char>>,
}

impl View for Struct {
    type V = StructView;

    open spec fn view(&self) -> StructView {
        StructView {
            name: self.name@,
            annotations: self.annotations@,
            fields: named_types_view(self.fields),
            generic_params: names_view(self.generic_params),
        }
    }
}

impl Struct {
    /// A copy, equal in view.
    pub fn duplicate(&self) -> (r: Struct)
        ensures
            r@ == self@,
    {
        let fields = duplicate_named_types(&self.fields);
        let generic_params = duplicate_names(&self.generic_params);
        proof {
            assert(names_view(generic_params) =~= names_view(self.generic_params));
        }
        let r = Struct {
            name: self.name.clone(),
            annotations: self.annotations.duplicate(),
            fields,
            generic_params,
        };
        proof {
            assert(r@ =~= self@);
        }
        r
    }
}

impl Clone for Struct {
    fn clone(&self) -> (r: Self)
        ensures
            r@ == self@,
    {
        self.duplicate()
    }
}

/// An aggregate whose layout stays hidden; emitted as a forward
/// declaration and referenced only through pointers.
#[derive(Debug, PartialEq)]
pub struct OpaqueStruct {
    pub name: String,
    pub annotations: AnnotationSet,
}

/// The mathematical shape of an `OpaqueStruct`.
#[verifier::ext_equal]
pub struct OpaqueStructView {
    pub name: Seq<char>,
    pub annotations: Seq<(Seq<char>, AnnotationValueView)>,
}

impl View for OpaqueStruct {
    type V = OpaqueStructView;

    open spec fn view(&self) -> OpaqueStructView {
        OpaqueStructView { name: self.name@, annotations: self.annotations@ }
    }
}

impl OpaqueStruct {
    /// A fresh opaque aggregate.
    pub fn new(name: String, annotations: AnnotationSet) -> (r: OpaqueStruct)
        ensures
            r@.name == name@,
            r@.annotations == annotations@,
    {
        OpaqueStruct { name, annotations }
    }

    /// A copy, equal in view.
    pub fn duplicate(&self) -> (r: OpaqueStruct)
        ensures
            r@ == self@,
    {
        let r = OpaqueStruct { name: self.name.clone(), annotations: self.annotations.duplicate() };
        proof {
            assert(r@ =~= self@);
        }
        r
    }
}

impl Clone for OpaqueStruct {
    fn clone(&self) -> (r: Self)
        ensures
            r@ == self@,
    {
        self.duplicate()
    }
}

/// A plain type alias: a name for one aliased type, with no generics.
#[derive(Debug, PartialEq)]
pub struct Typedef {
    pub name: String,
    pub annotations: AnnotationSet,
    pub aliased: Type,
}

/// The mathematical shape of a `Typedef`.
#[verifier::ext_equal]
pub struct TypedefView {
    pub name: Seq<char>,
    pub annotations: Seq<(Seq<char>, AnnotationValueView)>,
    pub aliased: TypeView,
}

impl View for Typedef {
    type V = TypedefView;

    open spec fn view(&self) -> TypedefView {
        TypedefView {
            name: self.name@,
            annotations: self.annotations@,
            aliased: type_view(self.aliased),
        }
    }
}

impl Typedef {
    /// A copy, equal in view.
    pub fn duplicate(&self) -> (r: Typedef)
        ensures
            r@ == self@,
    {
        let r = Typedef {
            name: self.name.clone(),
            annotations: self.annotations.duplicate(),
            aliased: self.aliased.duplicate(),
        };
        proof {
            assert(r@ =~= self@);
        }
        r
    }
}

impl Clone for Typedef {
    fn clone(&self) -> (r: Self)
        ensures
            r@ == self@,
    {
        self.duplicate()
    }
}

/// A parameterized type alias: its body is always a named reference,
/// resolved at emission time against concrete argument types.
#[derive(Debug, PartialEq)]
pub struct Specialization {
    pub name: String,
    pub annotations: AnnotationSet,
    pub generic_params: Vec<String>,
    pub aliased_name: String,
    pub generic_values: Vec<Type>,
}

/// The mathematical shape of a `Specialization`.
#[verifier::ext_equal]
pub struct SpecializationView {
    pub name: Seq<char>,
    pub annotations: Seq<(Seq<char>, AnnotationValueView)>,
    pub generic_params: Seq<Seq<char>>,
    pub aliased_name: Seq<char>,
    pub generic_values: Seq<TypeView>,
}

impl View for Specialization {
    type V = SpecializationView;

    open spec fn view(&self) -> SpecializationView {
        SpecializationView {
            name: self.name@,
            annotations: self.annotations@,
            generic_params: names_view(self.generic_params),
            aliased_name: self.aliased_name@,
            generic_values: types_view(self.generic_values),
        }
    }
}

impl Specialization {
    /// A copy, equal in view.
    pub fn duplicate(&self) -> (r: Specialization)
        ensures
            r@ == self@,
    {
        let generic_params = duplicate_names(&self.generic_params);
        proof {
            assert(names_view(generic_params) =~= names_view(self.generic_params));
        }
        let r = Specialization {
            name: self.name.clone(),
            annotations: self.annotations.duplicate(),
            generic_params,
            aliased_name: self.aliased_name.clone(),
            generic_values: duplicate_types(&self.generic_values),
        };
        proof {
            assert(r@ =~= self@);
        }
        r
    }
}

impl Clone for Specialization {
    fn clone(&self) -> (r: Self)
        ensures
            r@ == self@,
    {
        self.duplicate()
    }
}

/// A C-ABI function: its name, return type and named arguments.  An
/// `extern_decl` function was declared through an extern block; it is
/// walked for dependencies but not emitted as a prototype.
#[derive(Debug, PartialEq)]
pub struct Function {
    pub name: String,
    pub annotations: AnnotationSet,
    pub ret: Type,
    pub args: Vec<(String, Type)>,
    pub extern_decl: bool,
}

/// The mathematical shape of a `Function`.
#[verifier::ext_equal]
pub struct FunctionView {
    pub name: Seq<char>,
    pub annotations: Seq<(Seq<char>, AnnotationValueView)>,
    pub ret: TypeView,
    pub args: Seq<(Seq<char>, TypeView)>,
    pub extern_decl: bool,
}

impl View for Function {
    type V = FunctionView;

    open spec fn view(&self) -> FunctionView {
        FunctionView {
            name: self.name@,
            annotations: self.annotations@,
            ret: type_view(self.ret),
            args: named_types_view(self.args),
            extern_decl: self.extern_decl,
        }
    }
}

impl Function {
    /// A copy, equal in view.
    pub fn duplicate(&self) -> (r: Function)
        ensures
            r@ == self@,
    {
        let r = Function {
            name: self.name.clone(),
            annotations: self.annotations.duplicate(),
            ret: self.ret.duplicate(),
            args: duplicate_named_types(&self.args),
            extern_decl: self.extern_decl,
        };
        proof {
            assert(r@ =~= self@);
        }
        r
    }
}

impl Clone for Function {
    fn clone(&self) -> (r: Self)
        ensures
            r@ == self@,
    {
        self.duplicate()
    }
}

} // verus!
