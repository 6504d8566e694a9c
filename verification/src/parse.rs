//! The declaration stream the source parser delivers, and the
//! conversions that turn it into model entities.  The surrounding
//! program walks the source tree and hands each declaration over in
//! this plain form, with attributes, documentation lines, generics
//! and ABI markers intact; every acceptance decision is made here.

use vstd::prelude::*;

use crate::ir::AnnotationSet;
use crate::ir::AnnotationValue;
use crate::ir::AnnotationValueView;
use crate::ir::Enum;
use crate::ir::Function;
use crate::ir::PrimitiveType;
use crate::ir::Repr;
use crate::ir::Specialization;
use crate::ir::Struct;
use crate::ir::Type;
use crate::ir::TypeView;
use crate::ir::Typedef;
use crate::text::lowered;
use crate::text::str_eq_str;

verus! {

broadcast use vstd::std_specs::vec::axiom_vec_index_decreases;

/// A type as the parser saw it.  Anything the C surface cannot carry
/// arrives as `Unsupported`, with a description for the diagnostic.
#[derive(Debug, PartialEq)]
pub enum ParsedType {
    Path(String, Vec<ParsedType>),
    ConstPtr(Box<ParsedType>),
    MutPtr(Box<ParsedType>),
    Array(Box<ParsedType>, u64),
    BareFn(Vec<ParsedType>, Box<ParsedType>),
    Unit,
    Unsupported(String),
}

/// The mathematical shape of a `ParsedType`.
#[verifier::ext_equal]
pub enum ParsedTypeView {
    Path(Seq<char>, Seq<ParsedTypeView>),
    ConstPtr(Box<ParsedTypeView>),
    MutPtr(Box<ParsedTypeView>),
    Array(Box<ParsedTypeView>, u64),
    BareFn(Seq<ParsedTypeView>, Box<ParsedTypeView>),
    Unit,
    Unsupported(Seq<char>),
}

/// The view of a parsed type.
pub open spec fn parsed_type_view(t: ParsedType) -> ParsedTypeView
    decreases t,
{
    match t {
        ParsedType::Path(p, vs) => ParsedTypeView::Path(p@, parsed_types_view(vs)),
        ParsedType::ConstPtr(b) => ParsedTypeView::ConstPtr(Box::new(parsed_type_view(*b))),
        ParsedType::MutPtr(b) => ParsedTypeView::MutPtr(Box::new(parsed_type_view(*b))),
        ParsedType::Array(b, n) => ParsedTypeView::Array(Box::new(parsed_type_view(*b)), n),
        ParsedType::BareFn(ps, r) => ParsedTypeView::BareFn(
            parsed_types_view(ps),
            Box::new(parsed_type_view(*r)),
        ),
        ParsedType::Unit => ParsedTypeView::Unit,
        ParsedType::Unsupported(d) => ParsedTypeView::Unsupported(d@),
    }
}

/// The views of a list of parsed types.
pub open spec fn parsed_types_view(vs: Vec<ParsedType>) -> Seq<ParsedTypeView>
    decreases vs,
{
    Seq::new(
        vs@.len(),
        |i: int|
            if 0 <= i < vs@.len() {
                parsed_type_view(vs@[i])
            } else {
                ParsedTypeView::Unit
            },
    )
}

impl View for ParsedType {
    type V = ParsedTypeView;

    open spec fn view(&self) -> ParsedTypeView {
        parsed_type_view(*self)
    }
}

/// The scalar type a Rust type name denotes, if any.
pub open spec fn prim_of_name(n: Seq<char>) -> Option<PrimitiveType> {
    if n == "bool"@ {
        Some(PrimitiveType::Bool)
    } else if n == "char"@ || n == "c_char"@ {
        Some(PrimitiveType::Char)
    } else if n == "u8"@ {
        Some(PrimitiveType::UInt8)
    } else if n == "u16"@ {
        Some(PrimitiveType::UInt16)
    } else if n == "u32"@ {
        Some(PrimitiveType::UInt32)
    } else if n == "u64"@ {
        Some(PrimitiveType::UInt64)
    } else if n == "usize"@ {
        Some(PrimitiveType::USize)
    } else if n == "i8"@ {
        Some(PrimitiveType::Int8)
    } else if n == "i16"@ {
        Some(PrimitiveType::Int16)
    } else if n == "i32"@ {
        Some(PrimitiveType::Int32)
    } else if n == "i64"@ {
        Some(PrimitiveType::Int64)
    } else if n == "isize"@ {
        Some(PrimitiveType::ISize)
    } else if n == "f32"@ {
        Some(PrimitiveType::Float)
    } else if n == "f64"@ {
        Some(PrimitiveType::Double)
    } else if n == "c_void"@ {
        Some(PrimitiveType::Void)
    } else {
        None
    }
}

fn prim_for_name(n: &String) -> (r: Option<PrimitiveType>)
    ensures
        r == prim_of_name(n@),
{
    let s = n.as_str();
    if str_eq_str(s, "bool") {
        Some(PrimitiveType::Bool)
    } else if str_eq_str(s, "char") || str_eq_str(s, "c_char") {
        Some(PrimitiveType::Char)
    } else if str_eq_str(s, "u8") {
        Some(PrimitiveType::UInt8)
    } else if str_eq_str(s, "u16") {
        Some(PrimitiveType::UInt16)
    } else if str_eq_str(s, "u32") {
        Some(PrimitiveType::UInt32)
    } else if str_eq_str(s, "u64") {
        Some(PrimitiveType::UInt64)
    } else if str_eq_str(s, "usize") {
        Some(PrimitiveType::USize)
    } else if str_eq_str(s, "i8") {
        Some(PrimitiveType::Int8)
    } else if str_eq_str(s, "i16") {
        Some(PrimitiveType::Int16)
    } else if str_eq_str(s, "i32") {
        Some(PrimitiveType::Int32)
    } else if str_eq_str(s, "i64") {
        Some(PrimitiveType::Int64)
    } else if str_eq_str(s, "isize") {
        Some(PrimitiveType::ISize)
    } else if str_eq_str(s, "f32") {
        Some(PrimitiveType::Float)
    } else if str_eq_str(s, "f64") {
        Some(PrimitiveType::Double)
    } else if str_eq_str(s, "c_void") {
        Some(PrimitiveType::Void)
    } else {
        None
    }
}

/// What a parsed type converts to: a bare primitive name becomes the
/// scalar, the unit type becomes `void`, pointers, arrays and bare
/// function types are descended, any other path becomes a named
/// reference, and an unsupported shape fails.
pub open spec fn convert_type_spec(t: ParsedTypeView) -> Option<TypeView>
    decreases t,
{
    match t {
        ParsedTypeView::Path(p, args) => {
            if args.len() == 0 && prim_of_name(p) is Some {
                Some(TypeView::Primitive(prim_of_name(p)->0))
            } else {
                match convert_types_spec(args) {
                    Some(converted) => Some(TypeView::Path(p, converted)),
                    None => None,
                }
            }
        },
        ParsedTypeView::ConstPtr(b) => match convert_type_spec(*b) {
            Some(i) => Some(TypeView::ConstPtr(Box::new(i))),
            None => None,
        },
        ParsedTypeView::MutPtr(b) => match convert_type_spec(*b) {
            Some(i) => Some(TypeView::Ptr(Box::new(i))),
            None => None,
        },
        ParsedTypeView::Array(b, n) => match convert_type_spec(*b) {
            Some(i) => Some(TypeView::Array(Box::new(i), n)),
            None => None,
        },
        ParsedTypeView::BareFn(ps, r) => match (convert_types_spec(ps), convert_type_spec(*r)) {
            (Some(cps), Some(cr)) => Some(TypeView::FuncPtr(Box::new(cr), cps)),
            _ => None,
        },
        ParsedTypeView::Unit => Some(TypeView::Primitive(PrimitiveType::Void)),
        ParsedTypeView::Unsupported(_) => None,
    }
}

/// A list of parsed types converts exactly when every element does.
pub open spec fn convert_types_spec(ts: Seq<ParsedTypeView>) -> Option<Seq<TypeView>>
    decreases ts,
{
    if forall|i: int| 0 <= i < ts.len() ==> convert_type_spec(#[trigger] ts[i]) is Some {
        Some(
            Seq::new(
                ts.len(),
                |i: int|
                    if 0 <= i < ts.len() {
                        convert_type_spec(ts[i])->0
                    } else {
                        TypeView::Primitive(PrimitiveType::Void)
                    },
            ),
        )
    } else {
        None
    }
}

/// Converts one parsed type.
pub fn convert_type(t: &ParsedType) -> (r: Result<Type, String>)
    ensures
        match r {
            Ok(c) => convert_type_spec(t@) == Some(c@),
            Err(_) => convert_type_spec(t@) is None,
        },
    decreases *t,
{
    match t {
        ParsedType::Path(p, args) => {
            if args.len() == 0 {
                match prim_for_name(p) {
                    Some(prim) => {
                        proof {
                            assert(parsed_types_view(*args).len() == 0);
                            assert(convert_type_spec(t@) == Some(TypeView::Primitive(prim)));
                        }
                        return Ok(Type::Primitive(prim));
                    },
                    None => {},
                }
            }
            match convert_types(args) {
                Ok(converted) => {
                    let r = Type::Path(p.clone(), converted);
                    proof {
                        if prim_of_name(p@) is None || t@->Path_1.len() > 0 {
                            assert(convert_type_spec(t@) == Some(r@));
                        }
                    }
                    Ok(r)
                },
                Err(m) => Err(m),
            }
        },
        ParsedType::ConstPtr(b) => match convert_type(b) {
            Ok(i) => Ok(Type::ConstPtr(Box::new(i))),
            Err(m) => Err(m),
        },
        ParsedType::MutPtr(b) => match convert_type(b) {
            Ok(i) => Ok(Type::Ptr(Box::new(i))),
            Err(m) => Err(m),
        },
        ParsedType::Array(b, n) => match convert_type(b) {
            Ok(i) => Ok(Type::Array(Box::new(i), *n)),
            Err(m) => Err(m),
        },
        ParsedType::BareFn(ps, ret) => {
            match convert_types(ps) {
                Ok(cps) => match convert_type(ret) {
                    Ok(cr) => Ok(Type::FuncPtr(Box::new(cr), cps)),
                    Err(m) => Err(m),
                },
                Err(m) => Err(m),
            }
        },
        ParsedType::Unit => Ok(Type::Primitive(PrimitiveType::Void)),
        ParsedType::Unsupported(d) => Err(
            String::from_str("unsupported type: ").concat(d.as_str()),
        ),
    }
}

/// Converts a list of parsed types; the first failure wins.
fn convert_types(ts: &Vec<ParsedType>) -> (r: Result<Vec<Type>, String>)
    ensures
        match r {
            Ok(c) => convert_types_spec(parsed_types_view(*ts)) == Some(crate::ir::types_view(c)),
            Err(_) => convert_types_spec(parsed_types_view(*ts)) is None,
        },
    decreases *ts,
{
    let ghost tsv = parsed_types_view(*ts);
    let mut out: Vec<Type> = Vec::new();
    let mut i: usize = 0;
    while i < ts.len()
        invariant
            i <= ts@.len(),
            tsv == parsed_types_view(*ts),
            tsv.len() == ts@.len(),
            out@.len() == i,
            forall|j: int|
                0 <= j < i ==> convert_type_spec(#[trigger] tsv[j]) == Some(
                    crate::ir::type_view(out@[j]),
                ),
        decreases ts.len() - i,
    {
        proof {
            assert(decreases_to!(*ts => ts@[i as int]));
        }
        match convert_type(&ts[i]) {
            Ok(c) => {
                out.push(c);
            },
            Err(m) => {
                proof {
                    assert(convert_type_spec(tsv[i as int]) is None);
                }
                return Err(m);
            },
        }
        i += 1;
    }
    proof {
        assert(convert_types_spec(tsv) == Some(crate::ir::types_view(out))) by {
            assert(forall|j: int|
                0 <= j < tsv.len() ==> convert_type_spec(#[trigger] tsv[j]) is Some);
            assert(convert_types_spec(tsv)->0 =~= crate::ir::types_view(out));
        }
    }
    Ok(out)
}

/// One enumeration variant as parsed: its name, an optional explicit
/// discriminant, and whether it carries data.
#[derive(Debug, PartialEq)]
pub struct ParsedVariant {
    pub name: String,
    pub discriminant: Option<u64>,
    pub has_data: bool,
}

/// The mathematical shape of a `ParsedVariant`.
#[verifier::ext_equal]
pub struct ParsedVariantView {
    pub name: Seq<char>,
    pub discriminant: Option<u64>,
    pub has_data: bool,
}

impl View for ParsedVariant {
    type V = ParsedVariantView;

    open spec fn view(&self) -> ParsedVariantView {
        ParsedVariantView {
            name: self.name@,
            discriminant: self.discriminant,
            has_data: self.has_data,
        }
    }
}

/// The views of the variants.
pub open spec fn variants_view(vs: Vec<ParsedVariant>) -> Seq<ParsedVariantView> {
    Seq::new(vs@.len(), |i: int| vs@[i]@)
}

/// The discriminant value of a variant: the explicit value when one
/// is written, otherwise zero for the first variant and one more than
/// its predecessor for the rest.
pub open spec fn variant_value(vs: Seq<ParsedVariantView>, i: int) -> int
    decreases i,
{
    if vs[i].discriminant is Some {
        vs[i].discriminant->0 as int
    } else if i <= 0 {
        0
    } else {
        variant_value(vs, i - 1) + 1
    }
}

/// Whether the enumeration converts: no variant carries data and no
/// computed discriminant overflows.
pub open spec fn enum_converts(vs: Seq<ParsedVariantView>) -> bool {
    &&& forall|i: int| 0 <= i < vs.len() ==> !(#[trigger] vs[i]).has_data
    &&& forall|i: int| 0 <= i < vs.len() ==> variant_value(vs, i) <= u64::MAX
}

/// The views of parsed named arguments or fields.
pub open spec fn parsed_args_view(v: Vec<(String, ParsedType)>) -> Seq<(Seq<char>, ParsedTypeView)> {
    Seq::new(v@.len(), |i: int| (v@[i].0@, parsed_type_view(v@[i].1)))
}

/// A list of named parsed types converts exactly when every type
/// does; the names are kept.
pub open spec fn convert_args_spec(s: Seq<(Seq<char>, ParsedTypeView)>) -> Option<
    Seq<(Seq<char>, TypeView)>,
> {
    if forall|i: int| 0 <= i < s.len() ==> convert_type_spec((#[trigger] s[i]).1) is Some {
        Some(
            Seq::new(
                s.len(),
                |i: int|
                    if 0 <= i < s.len() {
                        (s[i].0, convert_type_spec(s[i].1)->0)
                    } else {
                        (Seq::<char>::empty(), TypeView::Primitive(PrimitiveType::Void))
                    },
            ),
        )
    } else {
        None
    }
}

/// Converts named arguments or fields; the first failure wins.
fn convert_args(v: &Vec<(String, ParsedType)>) -> (r: Result<Vec<(String, Type)>, String>)
    ensures
        match r {
            Ok(c) => convert_args_spec(parsed_args_view(*v)) == Some(crate::ir::named_types_view(c)),
            Err(_) => convert_args_spec(parsed_args_view(*v)) is None,
        },
{
    let ghost sv = parsed_args_view(*v);
    let mut out: Vec<(String, Type)> = Vec::new();
    let mut i: usize = 0;
    while i < v.len()
        invariant
            i <= v@.len(),
            sv == parsed_args_view(*v),
            sv.len() == v@.len(),
            out@.len() == i,
            forall|j: int|
                0 <= j < i ==> out@[j].0@ == (#[trigger] sv[j]).0 && convert_type_spec(sv[j].1)
                    == Some(crate::ir::type_view(out@[j].1)),
        decreases v.len() - i,
    {
        match convert_type(&v[i].1) {
            Ok(c) => {
                out.push((v[i].0.clone(), c));
            },
            Err(m) => {
                proof {
                    assert(convert_type_spec(sv[i as int].1) is None);
                }
                return Err(m);
            },
        }
        i += 1;
    }
    proof {
        assert(convert_args_spec(sv) == Some(crate::ir::named_types_view(out))) by {
            assert(forall|j: int|
                0 <= j < sv.len() ==> convert_type_spec((#[trigger] sv[j]).1) is Some);
            assert(convert_args_spec(sv)->0 =~= crate::ir::named_types_view(out));
        }
    }
    Ok(out)
}

impl Function {
    /// Converts a parsed signature; every argument type and the
    /// return type must be expressible.
    pub fn convert(
        name: String,
        annotations: AnnotationSet,
        args: &Vec<(String, ParsedType)>,
        ret: &ParsedType,
        extern_decl: bool,
    ) -> (r: Result<Function, String>)
        ensures
            match r {
                Ok(f) => convert_args_spec(parsed_args_view(*args)) is Some && convert_type_spec(
                    ret@,
                ) is Some && f@ == (crate::ir::FunctionView {
                    name: name@,
                    annotations: annotations@,
                    ret: convert_type_spec(ret@)->0,
                    args: convert_args_spec(parsed_args_view(*args))->0,
                    extern_decl,
                }),
                Err(_) => convert_args_spec(parsed_args_view(*args)) is None || convert_type_spec(
                    ret@,
                ) is None,
            },
    {
        let cargs = match convert_args(args) {
            Ok(c) => c,
            Err(m) => {
                return Err(m);
            },
        };
        let cret = match convert_type(ret) {
            Ok(c) => c,
            Err(m) => {
                return Err(m);
            },
        };
        let f = Function { name, annotations, ret: cret, args: cargs, extern_decl };
        proof {
            assert(f@ =~= (crate::ir::FunctionView {
                name: f.name@,
                annotations: f.annotations@,
                ret: convert_type_spec(ret@)->0,
                args: convert_args_spec(parsed_args_view(*args))->0,
                extern_decl,
            }));
        }
        Ok(f)
    }
}

impl Struct {
    /// Converts a parsed aggregate; it must have named fields and
    /// every field type must be expressible.  The generic parameter
    /// list is kept.
    pub fn convert(
        name: String,
        annotations: AnnotationSet,
        generic_params: Vec<String>,
        named_fields: bool,
        fields: &Vec<(String, ParsedType)>,
    ) -> (r: Result<Struct, String>)
        ensures
            match r {
                Ok(st) => named_fields && convert_args_spec(parsed_args_view(*fields)) is Some
                    && st@ == (crate::ir::StructView {
                    name: name@,
                    annotations: annotations@,
                    fields: convert_args_spec(parsed_args_view(*fields))->0,
                    generic_params: crate::ir::names_view(generic_params),
                }),
                Err(_) => !named_fields || convert_args_spec(parsed_args_view(*fields)) is None,
            },
    {
        if !named_fields {
            return Err(String::from_str("struct is not a simple named-field struct"));
        }
        let cfields = match convert_args(fields) {
            Ok(c) => c,
            Err(m) => {
                return Err(m);
            },
        };
        let st = Struct { name, annotations, fields: cfields, generic_params };
        proof {
            assert(st@ =~= (crate::ir::StructView {
                name: st.name@,
                annotations: st.annotations@,
                fields: convert_args_spec(parsed_args_view(*fields))->0,
                generic_params: crate::ir::names_view(st.generic_params),
            }));
        }
        Ok(st)
    }
}

impl Enum {
    /// Converts a parsed enumeration; no variant may carry data, and
    /// each variant takes its explicit discriminant or one more than
    /// its predecessor, starting at zero.
    pub fn convert(
        name: String,
        repr: Repr,
        annotations: AnnotationSet,
        variants: &Vec<ParsedVariant>,
    ) -> (r: Result<Enum, String>)
        ensures
            match r {
                Ok(e) => enum_converts(variants_view(*variants)) && e@.name == name@ && e@.repr
                    == repr && e@.annotations == annotations@ && e@.values.len()
                    == variants_view(*variants).len() && forall|i: int|
                    0 <= i < e@.values.len() ==> (#[trigger] e@.values[i]) == (
                    variants_view(*variants)[i].name,
                    variant_value(variants_view(*variants), i) as u64,
                ),
                Err(_) => !enum_converts(variants_view(*variants)),
            },
    {
        let ghost vs = variants_view(*variants);
        let mut values: Vec<(String, u64)> = Vec::new();
        let mut i: usize = 0;
        while i < variants.len()
            invariant
                i <= variants@.len(),
                vs == variants_view(*variants),
                vs.len() == variants@.len(),
                values@.len() == i,
                forall|j: int| 0 <= j < i ==> !(#[trigger] vs[j]).has_data,
                forall|j: int| 0 <= j < i ==> 0 <= #[trigger] variant_value(vs, j) <= u64::MAX,
                forall|j: int| 0 <= j < i ==> (#[trigger] values@[j]).0@ == vs[j].name,
                forall|j: int| 0 <= j < i ==> (#[trigger] values@[j]).1 == variant_value(vs, j),
            decreases variants.len() - i,
        {
            if variants[i].has_data {
                proof {
                    assert(vs[i as int].has_data);
                    assert(!enum_converts(vs));
                }
                return Err(String::from_str("enum variants with data are not supported"));
            }
            let value: u64 = match variants[i].discriminant {
                Some(d) => d,
                None => {
                    if i == 0 {
                        0
                    } else {
                        let prev = values[i - 1].1;
                        if prev == u64::MAX {
                            proof {
                                assert(values@[i - 1].0@ == vs[i - 1].name);
                                assert(variant_value(vs, i as int) == u64::MAX + 1);
                                assert(!enum_converts(vs));
                            }
                            return Err(String::from_str("enum discriminant overflows"));
                        }
                        prev + 1
                    }
                },
            };
            proof {
                if vs[i as int].discriminant is None && i > 0 {
                    assert(values@[i as int - 1].0@ == vs[i as int - 1].name);
                    assert(values@[i as int - 1].1 == variant_value(vs, i as int - 1));
                }
                assert(value == variant_value(vs, i as int));
            }
            let ghost prev_values = values@;
            values.push((variants[i].name.clone(), value));
            proof {
                assert forall|j: int| 0 <= j < i + 1 implies (0 <= variant_value(vs, j)
                    <= u64::MAX && (#[trigger] values@[j]).0@ == vs[j].name && values@[j].1
                    == variant_value(vs, j)) by {
                    if j == i as int {
                        assert(values@[j].1 == value);
                        assert(values@[j].0@ == vs[j].name);
                    } else {
                        assert(values@[j] == prev_values[j]);
                        assert((prev_values[j]).0@ == vs[j].name);
                        assert(prev_values[j].1 == variant_value(vs, j));
                    }
                }
            }
            i += 1;
        }
        let e = Enum { name, repr, annotations, values };
        proof {
            assert forall|j: int| 0 <= j < vs.len() implies variant_value(vs, j) <= u64::MAX by {
                assert(values@[j].0@ == vs[j].name);
            }
            assert forall|j: int|
                0 <= j < e@.values.len() implies (#[trigger] e@.values[j]) == (
                vs[j].name,
                variant_value(vs, j) as u64,
            ) by {}
        }
        Ok(e)
    }
}

impl Typedef {
    /// Converts a parsed plain alias.
    pub fn convert(name: String, annotations: AnnotationSet, ty: &ParsedType) -> (r: Result<
        Typedef,
        String,
    >)
        ensures
            match r {
                Ok(t) => convert_type_spec(ty@) is Some && t@ == (crate::ir::TypedefView {
                    name: name@,
                    annotations: annotations@,
                    aliased: convert_type_spec(ty@)->0,
                }),
                Err(_) => convert_type_spec(ty@) is None,
            },
    {
        match convert_type(ty) {
            Ok(c) => {
                let t = Typedef { name, annotations, aliased: c };
                proof {
                    assert(t@ =~= (crate::ir::TypedefView {
                        name: t.name@,
                        annotations: t.annotations@,
                        aliased: convert_type_spec(ty@)->0,
                    }));
                }
                Ok(t)
            },
            Err(m) => Err(m),
        }
    }
}

/// Whether an alias declaration is a parameterized specialization:
/// its body is a named non-primitive reference, it has no lifetimes,
/// and either the alias or its body carries generic arguments.
pub open spec fn specializes(
    generic_params: Seq<Seq<char>>,
    has_lifetimes: bool,
    ty: ParsedTypeView,
) -> bool {
    &&& ty is Path
    &&& prim_of_name(ty->Path_0) is None
    &&& !has_lifetimes
    &&& (generic_params.len() > 0 || ty->Path_1.len() > 0)
    &&& convert_types_spec(ty->Path_1) is Some
}

impl Specialization {
    /// Converts a parsed alias into a parameterized specialization,
    /// when it is one.
    pub fn convert(
        name: String,
        annotations: AnnotationSet,
        generic_params: Vec<String>,
        has_lifetimes: bool,
        ty: &ParsedType,
    ) -> (r: Result<Specialization, String>)
        ensures
            match r {
                Ok(sp) => specializes(crate::ir::names_view(generic_params), has_lifetimes, ty@)
                    && sp@ == (crate::ir::SpecializationView {
                    name: name@,
                    annotations: annotations@,
                    generic_params: crate::ir::names_view(generic_params),
                    aliased_name: ty@->Path_0,
                    generic_values: convert_types_spec(ty@->Path_1)->0,
                }),
                Err(_) => !specializes(crate::ir::names_view(generic_params), has_lifetimes, ty@),
            },
    {
        if has_lifetimes {
            return Err(String::from_str("aliases with lifetimes cannot be specialized"));
        }
        match ty {
            ParsedType::Path(p, args) => {
                match prim_for_name(p) {
                    Some(_) => Err(String::from_str("a primitive type cannot be specialized")),
                    None => {
                        if generic_params.len() == 0 && args.len() == 0 {
                            proof {
                                assert(ty@ == ParsedTypeView::Path(
                                    p@,
                                    parsed_types_view(*args),
                                ));
                                assert(ty@->Path_1.len() == 0);
                                assert(crate::ir::names_view(generic_params).len() == 0);
                            }
                            return Err(
                                String::from_str("the alias is not parameterized"),
                            );
                        }
                        match convert_types(args) {
                            Ok(values) => {
                                let sp = Specialization {
                                    name,
                                    annotations,
                                    generic_params,
                                    aliased_name: p.clone(),
                                    generic_values: values,
                                };
                                proof {
                                    assert(sp@ =~= (crate::ir::SpecializationView {
                                        name: sp.name@,
                                        annotations: sp.annotations@,
                                        generic_params: crate::ir::names_view(sp.generic_params),
                                        aliased_name: ty@->Path_0,
                                        generic_values: convert_types_spec(ty@->Path_1)->0,
                                    }));
                                }
                                Ok(sp)
                            },
                            Err(m) => Err(m),
                        }
                    },
                }
            },
            _ => Err(String::from_str("the alias body is not a named reference")),
        }
    }
}

/// The position of the first equals sign, if any.
pub open spec fn eq_pos(s: Seq<char>) -> Option<int>
    decreases s.len(),
{
    if s.len() == 0 {
        None
    } else if s[0] == '=' {
        Some(0)
    } else {
        match eq_pos(s.drop_first()) {
            Some(k) => Some(k + 1),
            None => None,
        }
    }
}

/// What one documentation line contributes: nothing when it is not a
/// directive, a key-value entry, or a malformed directive.
pub open spec fn line_entry(line: Seq<char>) -> Option<Option<(Seq<char>, AnnotationValueView)>> {
    if line.len() < 9 || line.take(9) != "cbindgen:"@ {
        Some(None)
    } else {
        let rest = line.skip(9);
        match eq_pos(rest) {
            None => {
                if rest.len() == 0 {
                    None
                } else {
                    Some(Some((lowered(rest), AnnotationValueView::Bool(true))))
                }
            },
            Some(k) => {
                if k == 0 {
                    None
                } else {
                    let key = lowered(rest.take(k));
                    let val = rest.skip(k + 1);
                    if val == "true"@ {
                        Some(Some((key, AnnotationValueView::Bool(true))))
                    } else if val == "false"@ {
                        Some(Some((key, AnnotationValueView::Bool(false))))
                    } else {
                        Some(Some((key, AnnotationValueView::Str(val))))
                    }
                }
            },
        }
    }
}

/// The annotations of a documentation block, line by line; a
/// malformed directive fails the whole block.
pub open spec fn annotations_spec(lines: Seq<Seq<char>>) -> Option<
    Seq<(Seq<char>, AnnotationValueView)>,
>
    decreases lines.len(),
{
    if lines.len() == 0 {
        Some(Seq::empty())
    } else {
        match line_entry(lines[0]) {
            None => None,
            Some(head) => match annotations_spec(lines.drop_first()) {
                None => None,
                Some(rest) => match head {
                    Some(kv) => Some(seq![kv] + rest),
                    None => Some(rest),
                },
            },
        }
    }
}

/// The annotations a documentation block yields at intake: the parsed
/// set, or the empty set when the block is malformed.
pub open spec fn annotations_or_empty(lines: Seq<Seq<char>>) -> Seq<
    (Seq<char>, AnnotationValueView),
> {
    match annotations_spec(lines) {
        Some(s) => s,
        None => Seq::empty(),
    }
}

/// A found equals sign lies inside the text.
proof fn lemma_eq_pos_range(s: Seq<char>)
    ensures
        eq_pos(s) matches Some(k) ==> 0 <= k < s.len(),
    decreases s.len(),
{
    if s.len() > 0 && s[0] != '=' {
        lemma_eq_pos_range(s.drop_first());
    }
}

/// Finds the first equals sign of a line's remainder.
fn find_eq(s: &str) -> (r: Option<usize>)
    ensures
        match r {
            Some(k) => eq_pos(s@) == Some(k as int),
            None => eq_pos(s@) is None,
        },
{
    let n = s.unicode_len();
    let mut i: usize = 0;
    proof {
        assert(s@.skip(0) =~= s@);
    }
    while i < n
        invariant
            n == s@.len(),
            i <= n,
            eq_pos(s@) == (match eq_pos(s@.skip(i as int)) {
                Some(k) => Some(k + i as int),
                None => None,
            }),
        decreases n - i,
    {
        proof {
            assert(s@.skip(i as int)[0] == s@[i as int]);
            assert(s@.skip(i as int).drop_first() =~= s@.skip(i as int + 1));
        }
        if s.get_char(i) == '=' {
            return Some(i);
        }
        i += 1;
    }
    proof {
        assert(s@.skip(n as int) =~= Seq::<char>::empty());
    }
    None
}

impl AnnotationSet {
    /// Parses the documentation lines attached to a declaration.  A
    /// directive line reads `cbindgen:key` or `cbindgen:key=value`;
    /// keys are lowercased, `true` and `false` read as flags, and a
    /// directive without a key makes the block malformed.
    pub fn parse(lines: &Vec<String>) -> (r: Result<AnnotationSet, String>)
        ensures
            match r {
                Ok(a) => annotations_spec(crate::ir::names_view(*lines)) == Some(a@),
                Err(_) => annotations_spec(crate::ir::names_view(*lines)) is None,
            },
    {
        let ghost lv = crate::ir::names_view(*lines);
        let mut entries: Vec<(String, AnnotationValue)> = Vec::new();
        let mut i: usize = 0;
        proof {
            assert(lv.skip(0) =~= lv);
        }
        while i < lines.len()
            invariant
                i <= lines@.len(),
                lv == crate::ir::names_view(*lines),
                lv.len() == lines@.len(),
                annotations_spec(lv) == (match annotations_spec(lv.skip(i as int)) {
                    Some(rest) => Some(
                        Seq::new(
                            entries@.len(),
                            |j: int| (entries@[j].0@, entries@[j].1@),
                        ) + rest,
                    ),
                    None => None::<Seq<(Seq<char>, AnnotationValueView)>>,
                }),
            decreases lines.len() - i,
        {
            proof {
                assert(lv.skip(i as int)[0] == lv[i as int]);
                assert(lv.skip(i as int).drop_first() =~= lv.skip(i as int + 1));
            }
            let ghost pre = Seq::new(entries@.len(), |j: int| (entries@[j].0@, entries@[j].1@));
            let line = &lines[i];
            let n = line.as_str().unicode_len();
            if n < 9 {
                i += 1;
                continue ;
            }
            let head = line.as_str().substring_char(0, 9);
            proof {
                assert(head@ =~= lv[i as int].take(9));
            }
            if !str_eq_str(head, "cbindgen:") {
                i += 1;
                continue ;
            }
            let rest = line.as_str().substring_char(9, n);
            proof {
                assert(rest@ =~= lv[i as int].skip(9));
            }
            match find_eq(rest) {
                None => {
                    if rest.unicode_len() == 0 {
                        return Err(String::from_str("malformed annotation: missing key"));
                    }
                    let key = crate::rename::RenameRule::LowerCase.apply_to_snake_case(
                        rest,
                        crate::rename::IdentifierType::StructMember,
                    );
                    proof {
                        assert(key@ == lowered(rest@));
                    }
                    entries.push((key, AnnotationValue::Bool(true)));
                    proof {
                        assert(Seq::new(
                            entries@.len(),
                            |j: int| (entries@[j].0@, entries@[j].1@),
                        ) =~= pre.push((lowered(rest@), AnnotationValueView::Bool(true))));
                        assert(pre.push((lowered(rest@), AnnotationValueView::Bool(true)))
                            + annotations_spec(lv.skip(i as int + 1))->0 =~= pre + (seq![
                            (lowered(rest@), AnnotationValueView::Bool(true)),
                        ] + annotations_spec(lv.skip(i as int + 1))->0));
                    }
                },
                Some(k) => {
                    if k == 0 {
                        return Err(String::from_str("malformed annotation: missing key"));
                    }
                    proof {
                        lemma_eq_pos_range(rest@);
                    }
                    let rn = rest.unicode_len();
                    let key_raw = rest.substring_char(0, k);
                    let val = rest.substring_char(k + 1, rn);
                    proof {
                        assert(key_raw@ =~= rest@.take(k as int));
                        assert(val@ =~= rest@.skip(k as int + 1));
                    }
                    let key = crate::rename::RenameRule::LowerCase.apply_to_snake_case(
                        key_raw,
                        crate::rename::IdentifierType::StructMember,
                    );
                    proof {
                        assert(key@ == lowered(key_raw@));
                    }
                    let value = if str_eq_str(val, "true") {
                        AnnotationValue::Bool(true)
                    } else if str_eq_str(val, "false") {
                        AnnotationValue::Bool(false)
                    } else {
                        AnnotationValue::Str(String::from_str(val))
                    };
                    let ghost vv = value@;
                    entries.push((key, value));
                    proof {
                        assert(Seq::new(
                            entries@.len(),
                            |j: int| (entries@[j].0@, entries@[j].1@),
                        ) =~= pre.push((lowered(rest@.take(k as int)), vv)));
                        assert(pre.push((lowered(rest@.take(k as int)), vv)) + annotations_spec(
                            lv.skip(i as int + 1),
                        )->0 =~= pre + (seq![(lowered(rest@.take(k as int)), vv)]
                            + annotations_spec(lv.skip(i as int + 1))->0));
                    }
                },
            }
            i += 1;
        }
        proof {
            assert(lv.skip(lines@.len() as int) =~= Seq::<Seq<char>>::empty());
        }
        let a = AnnotationSet { entries };
        proof {
            assert(a@ =~= Seq::new(a.entries@.len(), |j: int| (a.entries@[j].0@, a.entries@[j].1@)));
            assert(a@ + Seq::<(Seq<char>, AnnotationValueView)>::empty() =~= a@);
        }
        Ok(a)
    }
}

/// A C-ABI function as parsed: name, documentation lines, named
/// arguments and return type.
#[derive(Debug, PartialEq)]
pub struct ParsedFunction {
    pub name: String,
    pub doc: Vec<String>,
    pub args: Vec<(String, ParsedType)>,
    pub ret: ParsedType,
}

/// The mathematical shape of a `ParsedFunction`.
#[verifier::ext_equal]
pub struct ParsedFunctionView {
    pub name: Seq<char>,
    pub doc: Seq<Seq<char>>,
    pub args: Seq<(Seq<char>, ParsedTypeView)>,
    pub ret: ParsedTypeView,
}

impl View for ParsedFunction {
    type V = ParsedFunctionView;

    open spec fn view(&self) -> ParsedFunctionView {
        ParsedFunctionView {
            name: self.name@,
            doc: crate::ir::names_view(self.doc),
            args: parsed_args_view(self.args),
            ret: parsed_type_view(self.ret),
        }
    }
}

/// One declaration the parser delivered, with its attributes,
/// documentation and generics.
#[derive(Debug, PartialEq)]
pub enum ParsedItem {
    /// An `extern` block and the functions declared inside it.
    ExternBlock { abi_is_c: bool, fns: Vec<ParsedFunction> },
    /// A free function, with its mangling and ABI markers.
    FreeFunction { func: ParsedFunction, no_mangle: bool, abi_is_c: bool },
    /// A struct declaration.
    StructDecl {
        name: String,
        doc: Vec<String>,
        repr_c: bool,
        generic_params: Vec<String>,
        named_fields: bool,
        fields: Vec<(String, ParsedType)>,
    },
    /// An enum declaration.
    EnumDecl {
        name: String,
        doc: Vec<String>,
        repr: Repr,
        has_generics: bool,
        has_lifetimes: bool,
        has_where: bool,
        variants: Vec<ParsedVariant>,
    },
    /// A type alias declaration.
    AliasDecl {
        name: String,
        doc: Vec<String>,
        generic_params: Vec<String>,
        has_lifetimes: bool,
        ty: ParsedType,
    },
    /// Anything else; ignored silently.
    Other,
}

/// The mathematical shape of a `ParsedItem`.
#[verifier::ext_equal]
pub enum ParsedItemView {
    ExternBlock { abi_is_c: bool, fns: Seq<ParsedFunctionView> },
    FreeFunction { func: ParsedFunctionView, no_mangle: bool, abi_is_c: bool },
    StructDecl {
        name: Seq<char>,
        doc: Seq<Seq<char>>,
        repr_c: bool,
        generic_params: Seq<Seq<char>>,
        named_fields: bool,
        fields: Seq<(Seq<char>, ParsedTypeView)>,
    },
    EnumDecl {
        name: Seq<char>,
        doc: Seq<Seq<char>>,
        repr: Repr,
        has_generics: bool,
        has_lifetimes: bool,
        has_where: bool,
        variants: Seq<ParsedVariantView>,
    },
    AliasDecl {
        name: Seq<char>,
        doc: Seq<Seq<char>>,
        generic_params: Seq<Seq<char>>,
        has_lifetimes: bool,
        ty: ParsedTypeView,
    },
    Other,
}

impl View for ParsedItem {
    type V = ParsedItemView;

    open spec fn view(&self) -> ParsedItemView {
        match self {
            ParsedItem::ExternBlock { abi_is_c, fns } => ParsedItemView::ExternBlock {
                abi_is_c: *abi_is_c,
                fns: Seq::new(fns@.len(), |i: int| fns@[i]@),
            },
            ParsedItem::FreeFunction { func, no_mangle, abi_is_c } => ParsedItemView::FreeFunction {
                func: func@,
                no_mangle: *no_mangle,
                abi_is_c: *abi_is_c,
            },
            ParsedItem::StructDecl { name, doc, repr_c, generic_params, named_fields, fields } => ParsedItemView::StructDecl {
                name: name@,
                doc: crate::ir::names_view(*doc),
                repr_c: *repr_c,
                generic_params: crate::ir::names_view(*generic_params),
                named_fields: *named_fields,
                fields: parsed_args_view(*fields),
            },
            ParsedItem::EnumDecl {
                name,
                doc,
                repr,
                has_generics,
                has_lifetimes,
                has_where,
                variants,
            } => ParsedItemView::EnumDecl {
                name: name@,
                doc: crate::ir::names_view(*doc),
                repr: *repr,
                has_generics: *has_generics,
                has_lifetimes: *has_lifetimes,
                has_where: *has_where,
                variants: variants_view(*variants),
            },
            ParsedItem::AliasDecl { name, doc, generic_params, has_lifetimes, ty } => ParsedItemView::AliasDecl {
                name: name@,
                doc: crate::ir::names_view(*doc),
                generic_params: crate::ir::names_view(*generic_params),
                has_lifetimes: *has_lifetimes,
                ty: parsed_type_view(*ty),
            },
            ParsedItem::Other => ParsedItemView::Other,
        }
    }
}

/// The views of the declarations of one module.
pub open spec fn parsed_items_view(v: Vec<ParsedItem>) -> Seq<ParsedItemView> {
    Seq::new(v@.len(), |i: int| v@[i]@)
}

/// One module the parser visited: the crate it belongs to and its
/// declarations in source order.
#[derive(Debug, PartialEq)]
pub struct ParsedModule {
    pub crate_name: String,
    pub items: Vec<ParsedItem>,
}

/// The mathematical shape of a `ParsedModule`.
#[verifier::ext_equal]
pub struct ParsedModuleView {
    pub crate_name: Seq<char>,
    pub items: Seq<ParsedItemView>,
}

impl View for ParsedModule {
    type V = ParsedModuleView;

    open spec fn view(&self) -> ParsedModuleView {
        ParsedModuleView { crate_name: self.crate_name@, items: parsed_items_view(self.items) }
    }
}

/// The views of a list of modules.
pub open spec fn modules_view(v: Vec<ParsedModule>) -> Seq<ParsedModuleView> {
    Seq::new(v@.len(), |i: int| v@[i]@)
}

} // verus!
