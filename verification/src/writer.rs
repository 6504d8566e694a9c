//! Rendering of built bindings as header text.  The emitted layout,
//! in blocks separated by one blank line: optional preamble, optional
//! include guard, optional version comment, optional warning, the
//! `#include` lines, the `extern "C"` opener in C++ mode, one block
//! per item, the warning again, one block per exported prototype, the
//! `extern "C"` closer, the warning once more, the guard's `#endif`,
//! and the optional trailer.

use vstd::prelude::*;

use crate::config::Language;
use crate::ir::Function;
use crate::ir::FunctionView;
use crate::ir::PrimitiveType;
use crate::ir::TypeView;
use crate::library::BuiltBindings;
use crate::library::PathValue;
use crate::library::PathValueView;
use crate::text::push_char;

verus! {

broadcast use vstd::std_specs::vec::axiom_vec_index_decreases;

/// The decimal digit character for one value below ten.
pub open spec fn digit_char(d: nat) -> char {
    ((48 + d) as char)
}

/// The decimal text of a number, most significant digit first.
pub open spec fn dec_text(n: nat) -> Seq<char>
    decreases n,
{
    if n < 10 {
        seq![digit_char(n)]
    } else {
        dec_text(n / 10).push(digit_char(n % 10))
    }
}

/// Writes a number in decimal.
pub fn u64_to_dec(n: u64) -> (r: String)
    ensures
        r@ == dec_text(n as nat),
    decreases n,
{
    if n < 10 {
        let mut s = String::new();
        push_char(&mut s, ((48 + n) as u8) as char);
        proof {
            vstd::utf8::char_u32_cast(((48 + n) as u8) as char, (48 + n) as u32);
            assert(s@ =~= seq![digit_char(n as nat)]);
        }
        s
    } else {
        let mut s = u64_to_dec(n / 10);
        push_char(&mut s, ((48 + n % 10) as u8) as char);
        proof {
            vstd::utf8::char_u32_cast(((48 + n % 10) as u8) as char, (48 + n % 10) as u32);
        }
        s
    }
}

/// The C name of a scalar type.
pub open spec fn primitive_text(p: PrimitiveType) -> Seq<char> {
    match p {
        PrimitiveType::Void => "void"@,
        PrimitiveType::Bool => "bool"@,
        PrimitiveType::Char => "char"@,
        PrimitiveType::UInt8 => "uint8_t"@,
        PrimitiveType::UInt16 => "uint16_t"@,
        PrimitiveType::UInt32 => "uint32_t"@,
        PrimitiveType::UInt64 => "uint64_t"@,
        PrimitiveType::USize => "uintptr_t"@,
        PrimitiveType::Int8 => "int8_t"@,
        PrimitiveType::Int16 => "int16_t"@,
        PrimitiveType::Int32 => "int32_t"@,
        PrimitiveType::Int64 => "int64_t"@,
        PrimitiveType::ISize => "intptr_t"@,
        PrimitiveType::Float => "float"@,
        PrimitiveType::Double => "double"@,
    }
}

fn write_primitive(p: PrimitiveType, out: &mut String)
    ensures
        final(out)@ == old(out)@ + primitive_text(p),
{
    match p {
        PrimitiveType::Void => out.append("void"),
        PrimitiveType::Bool => out.append("bool"),
        PrimitiveType::Char => out.append("char"),
        PrimitiveType::UInt8 => out.append("uint8_t"),
        PrimitiveType::UInt16 => out.append("uint16_t"),
        PrimitiveType::UInt32 => out.append("uint32_t"),
        PrimitiveType::UInt64 => out.append("uint64_t"),
        PrimitiveType::USize => out.append("uintptr_t"),
        PrimitiveType::Int8 => out.append("int8_t"),
        PrimitiveType::Int16 => out.append("int16_t"),
        PrimitiveType::Int32 => out.append("int32_t"),
        PrimitiveType::Int64 => out.append("int64_t"),
        PrimitiveType::ISize => out.append("intptr_t"),
        PrimitiveType::Float => out.append("float"),
        PrimitiveType::Double => out.append("double"),
    }
}

/// The C text of a type in a bare position: named references by
/// their name, pointers with a trailing star, arrays with a bracketed
/// length, and function pointers in anonymous form.
pub open spec fn type_text(t: TypeView) -> Seq<char>
    decreases t,
{
    match t {
        TypeView::Primitive(p) => primitive_text(p),
        TypeView::ConstPtr(b) => "const "@ + type_text(*b) + "*"@,
        TypeView::Ptr(b) => type_text(*b) + "*"@,
        TypeView::Array(b, n) => type_text(*b) + "["@ + dec_text(n as nat) + "]"@,
        TypeView::Path(p, _) => p,
        TypeView::FuncPtr(r, args) => type_text(*r) + " (*)("@ + comma_types_text(args) + ")"@,
    }
}

/// Comma-separated type texts.
pub open spec fn comma_types_text(ts: Seq<TypeView>) -> Seq<char>
    decreases ts,
{
    if ts.len() == 0 {
        Seq::<char>::empty()
    } else {
        type_text(ts[0]) + comma_types_tail(ts.drop_first())
    }
}

/// The remaining types, each preceded by a comma.
pub open spec fn comma_types_tail(ts: Seq<TypeView>) -> Seq<char>
    decreases ts,
{
    if ts.len() == 0 {
        Seq::<char>::empty()
    } else {
        ", "@ + type_text(ts[0]) + comma_types_tail(ts.drop_first())
    }
}

/// The C declarator of one named value: `type name`, with the name
/// woven inside for arrays and function pointers.
pub open spec fn declarator_text(name: Seq<char>, t: TypeView) -> Seq<char> {
    match t {
        TypeView::Array(b, n) => type_text(*b) + " "@ + name + "["@ + dec_text(n as nat) + "]"@,
        TypeView::FuncPtr(r, args) => type_text(*r) + " (*"@ + name + ")("@ + comma_types_text(
            args,
        ) + ")"@,
        _ => type_text(t) + " "@ + name,
    }
}

fn write_type(t: &crate::ir::Type, out: &mut String)
    ensures
        final(out)@ == old(out)@ + type_text(t@),
    decreases *t,
{
    match t {
        crate::ir::Type::Primitive(p) => write_primitive(*p, out),
        crate::ir::Type::ConstPtr(b) => {
            out.append("const ");
            write_type(b, out);
            out.append("*");
        },
        crate::ir::Type::Ptr(b) => {
            write_type(b, out);
            out.append("*");
        },
        crate::ir::Type::Array(b, n) => {
            write_type(b, out);
            out.append("[");
            let d = u64_to_dec(*n);
            out.append(d.as_str());
            out.append("]");
        },
        crate::ir::Type::Path(p, _) => {
            out.append(p.as_str());
        },
        crate::ir::Type::FuncPtr(r, args) => {
            write_type(r, out);
            out.append(" (*)(");
            write_comma_types(args, out);
            out.append(")");
        },
    }
}

fn write_comma_types(ts: &Vec<crate::ir::Type>, out: &mut String)
    ensures
        final(out)@ == old(out)@ + comma_types_text(crate::ir::types_view(*ts)),
    decreases *ts,
{
    let ghost tv = crate::ir::types_view(*ts);
    if ts.len() == 0 {
        proof {
            assert(out@ =~= old(out)@ + comma_types_text(tv));
        }
        return ;
    }
    proof {
        assert(decreases_to!(*ts => ts@[0]));
        assert(tv.drop_first() =~= tv.skip(1));
    }
    write_type(&ts[0], out);
    let mut i: usize = 1;
    while i < ts.len()
        invariant
            1 <= i <= ts@.len(),
            tv == crate::ir::types_view(*ts),
            tv.len() == ts@.len(),
            out@ + comma_types_tail(tv.skip(i as int)) == old(out)@ + comma_types_text(tv),
        decreases ts.len() - i,
    {
        proof {
            assert(decreases_to!(*ts => ts@[i as int]));
            assert(tv.skip(i as int)[0] == tv[i as int]);
            assert(tv.skip(i as int).drop_first() =~= tv.skip(i as int + 1));
        }
        let ghost pre = out@;
        out.append(", ");
        write_type(&ts[i], out);
        proof {
            assert(out@ =~= pre + (", "@ + type_text(tv[i as int])));
            assert(comma_types_tail(tv.skip(i as int)) == ", "@ + type_text(tv[i as int])
                + comma_types_tail(tv.skip(i as int + 1)));
            assert(pre + (", "@ + type_text(tv[i as int])) + comma_types_tail(
                tv.skip(i as int + 1),
            ) =~= pre + comma_types_tail(tv.skip(i as int)));
        }
        i += 1;
    }
    proof {
        assert(tv.skip(ts@.len() as int) =~= Seq::<TypeView>::empty());
        assert(out@ + comma_types_tail(tv.skip(ts@.len() as int)) =~= out@);
    }
}

fn write_declarator(name: &String, t: &crate::ir::Type, out: &mut String)
    ensures
        final(out)@ == old(out)@ + declarator_text(name@, t@),
{
    match t {
        crate::ir::Type::Array(b, n) => {
            write_type(b, out);
            out.append(" ");
            out.append(name.as_str());
            out.append("[");
            let d = u64_to_dec(*n);
            out.append(d.as_str());
            out.append("]");
        },
        crate::ir::Type::FuncPtr(r, args) => {
            write_type(r, out);
            out.append(" (*");
            out.append(name.as_str());
            out.append(")(");
            write_comma_types(args, out);
            out.append(")");
        },
        _ => {
            write_type(t, out);
            out.append(" ");
            out.append(name.as_str());
        },
    }
}

/// One enumeration variant line: two spaces, the name, its value and
/// a trailing comma.
pub open spec fn enum_values_text(vs: Seq<(Seq<char>, u64)>) -> Seq<char>
    decreases vs,
{
    if vs.len() == 0 {
        Seq::<char>::empty()
    } else {
        "  "@ + vs[0].0 + " = "@ + dec_text(vs[0].1 as nat) + ",\n"@ + enum_values_text(
            vs.drop_first(),
        )
    }
}

/// One aggregate field line: two spaces, the declarator and a
/// semicolon.
pub open spec fn fields_text(fs: Seq<(Seq<char>, TypeView)>) -> Seq<char>
    decreases fs,
{
    if fs.len() == 0 {
        Seq::<char>::empty()
    } else {
        "  "@ + declarator_text(fs[0].0, fs[0].1) + ";\n"@ + fields_text(fs.drop_first())
    }
}

/// The text of one emitted item.  A specialization never reaches the
/// writer; its text is empty.
pub open spec fn item_text(v: PathValueView) -> Seq<char> {
    match v {
        PathValueView::Enum(e) => "typedef enum {\n"@ + enum_values_text(e.values) + "} "@ + e.name
            + ";"@,
        PathValueView::Struct(st) => "typedef struct {\n"@ + fields_text(st.fields) + "} "@
            + st.name + ";"@,
        PathValueView::OpaqueStruct(o) => "typedef struct "@ + o.name + " "@ + o.name + ";"@,
        PathValueView::Typedef(t) => "typedef "@ + declarator_text(t.name, t.aliased) + ";"@,
        PathValueView::Specialization(_) => Seq::<char>::empty(),
    }
}

/// The parameter list of a prototype; an empty list reads `void`.
pub open spec fn params_text(args: Seq<(Seq<char>, TypeView)>) -> Seq<char> {
    if args.len() == 0 {
        "void"@
    } else {
        declarator_text(args[0].0, args[0].1) + params_tail(args.drop_first())
    }
}

/// The remaining parameters, each preceded by a comma.
pub open spec fn params_tail(args: Seq<(Seq<char>, TypeView)>) -> Seq<char>
    decreases args,
{
    if args.len() == 0 {
        Seq::<char>::empty()
    } else {
        ", "@ + declarator_text(args[0].0, args[0].1) + params_tail(args.drop_first())
    }
}

/// The prototype of one exported function.
pub open spec fn proto_text(f: FunctionView) -> Seq<char> {
    type_text(f.ret) + " "@ + f.name + "("@ + params_text(f.args) + ");"@
}

/// Appends one block: a separating newline when text is already
/// present, the content, and a closing newline.
pub open spec fn block_append(acc: Seq<char>, content: Seq<char>) -> Seq<char> {
    (if acc.len() > 0 {
        acc + "\n"@
    } else {
        acc
    }) + content + "\n"@
}

/// The item blocks, appended in order.
pub open spec fn items_text_from(acc: Seq<char>, items: Seq<PathValueView>) -> Seq<char>
    decreases items,
{
    if items.len() == 0 {
        acc
    } else {
        items_text_from(block_append(acc, item_text(items[0])), items.drop_first())
    }
}

/// The prototype blocks, appended in order; functions declared
/// through an extern block are skipped.
pub open spec fn protos_text_from(acc: Seq<char>, fs: Seq<FunctionView>) -> Seq<char>
    decreases fs,
{
    if fs.len() == 0 {
        acc
    } else if fs[0].extern_decl {
        protos_text_from(acc, fs.drop_first())
    } else {
        protos_text_from(block_append(acc, proto_text(fs[0])), fs.drop_first())
    }
}

/// The whole emitted header, block by block.
pub open spec fn file_text(b: crate::library::BuiltBindingsView) -> Seq<char> {
    let c = b.config;
    let s0 = Seq::<char>::empty();
    let s1 = if c.header is Some {
        block_append(s0, c.header->0)
    } else {
        s0
    };
    let s2 = if c.include_guard is Some {
        block_append(s1, "#ifndef "@ + c.include_guard->0 + "\n#define "@ + c.include_guard->0)
    } else {
        s1
    };
    let s3 = if c.include_version {
        block_append(s2, "/* Generated with cbindgen:0.1.0 */"@)
    } else {
        s2
    };
    let s4 = if c.autogen_warning is Some {
        block_append(s3, c.autogen_warning->0)
    } else {
        s3
    };
    let s5 = block_append(
        s4,
        "#include <stdint.h>"@ + (if c.language == Language::C {
            "\n#include <stdbool.h>"@
        } else {
            Seq::<char>::empty()
        }),
    );
    let s6 = if c.language == Language::Cxx {
        block_append(s5, "extern \"C\" {"@)
    } else {
        s5
    };
    let s7 = items_text_from(s6, b.items);
    let s8 = if c.autogen_warning is Some {
        block_append(s7, c.autogen_warning->0)
    } else {
        s7
    };
    let s9 = protos_text_from(s8, b.functions);
    let s10 = if c.language == Language::Cxx {
        block_append(s9, "} // extern \"C\""@)
    } else {
        s9
    };
    let s11 = if c.autogen_warning is Some {
        block_append(s10, c.autogen_warning->0)
    } else {
        s10
    };
    let s12 = if c.include_guard is Some {
        block_append(s11, "#endif // "@ + c.include_guard->0)
    } else {
        s11
    };
    let s13 = if c.trailer is Some {
        block_append(s12, c.trailer->0)
    } else {
        s12
    };
    s13
}

/// Appends one block of content to the output.
fn emit_block(out: &mut String, content: &str)
    ensures
        final(out)@ == block_append(old(out)@, content@),
{
    proof {
        reveal_strlit("\n");
    }
    let n = out.as_str().unicode_len();
    if n > 0 {
        push_char(out, '\n');
        proof {
            assert(out@ =~= old(out)@ + "\n"@);
        }
    }
    out.append(content);
    push_char(out, '\n');
    proof {
        assert(out@ =~= block_append(old(out)@, content@));
    }
}

/// The text of one item.
fn build_item_text(v: &PathValue) -> (r: String)
    ensures
        r@ == item_text(v@),
{
    let mut out = String::new();
    match v {
        PathValue::Enum(e) => {
            out.append("typedef enum {\n");
            let ghost vals = e@.values;
            proof {
                assert(out@ =~= "typedef enum {\n"@);
                assert(vals.skip(0) =~= vals);
            }
            let mut i: usize = 0;
            while i < e.values.len()
                invariant
                    i <= e.values@.len(),
                    vals == e@.values,
                    vals.len() == e.values@.len(),
                    out@ + enum_values_text(vals.skip(i as int)) == "typedef enum {\n"@
                        + enum_values_text(vals),
                decreases e.values.len() - i,
            {
                proof {
                    assert(vals.skip(i as int)[0] == vals[i as int]);
                    assert(vals.skip(i as int).drop_first() =~= vals.skip(i as int + 1));
                }
                let ghost pre = out@;
                out.append("  ");
                out.append(e.values[i].0.as_str());
                out.append(" = ");
                let d = u64_to_dec(e.values[i].1);
                out.append(d.as_str());
                out.append(",\n");
                proof {
                    assert(out@ =~= pre + ("  "@ + vals[i as int].0 + " = "@ + dec_text(
                        vals[i as int].1 as nat,
                    ) + ",\n"@));
                    assert(pre + ("  "@ + vals[i as int].0 + " = "@ + dec_text(
                        vals[i as int].1 as nat,
                    ) + ",\n"@) + enum_values_text(vals.skip(i as int + 1)) =~= pre
                        + enum_values_text(vals.skip(i as int)));
                }
                i += 1;
            }
            proof {
                assert(vals.skip(vals.len() as int) =~= Seq::<(Seq<char>, u64)>::empty());
                assert(out@ + enum_values_text(vals.skip(vals.len() as int)) =~= out@);
                assert(vals.skip(0) =~= vals);
            }
            out.append("} ");
            out.append(e.name.as_str());
            out.append(";");
        },
        PathValue::Struct(st) => {
            out.append("typedef struct {\n");
            let ghost fs = st@.fields;
            proof {
                assert(out@ =~= "typedef struct {\n"@);
                assert(fs.skip(0) =~= fs);
            }
            let mut i: usize = 0;
            while i < st.fields.len()
                invariant
                    i <= st.fields@.len(),
                    fs == st@.fields,
                    fs.len() == st.fields@.len(),
                    out@ + fields_text(fs.skip(i as int)) == "typedef struct {\n"@ + fields_text(
                        fs,
                    ),
                decreases st.fields.len() - i,
            {
                proof {
                    assert(fs.skip(i as int)[0] == fs[i as int]);
                    assert(fs.skip(i as int).drop_first() =~= fs.skip(i as int + 1));
                }
                let ghost pre = out@;
                out.append("  ");
                write_declarator(&st.fields[i].0, &st.fields[i].1, &mut out);
                out.append(";\n");
                proof {
                    assert(out@ =~= pre + ("  "@ + declarator_text(
                        fs[i as int].0,
                        fs[i as int].1,
                    ) + ";\n"@));
                    assert(pre + ("  "@ + declarator_text(fs[i as int].0, fs[i as int].1) + ";\n"@)
                        + fields_text(fs.skip(i as int + 1)) =~= pre + fields_text(
                        fs.skip(i as int),
                    ));
                }
                i += 1;
            }
            proof {
                assert(fs.skip(fs.len() as int) =~= Seq::<(Seq<char>, TypeView)>::empty());
                assert(out@ + fields_text(fs.skip(fs.len() as int)) =~= out@);
                assert(fs.skip(0) =~= fs);
            }
            out.append("} ");
            out.append(st.name.as_str());
            out.append(";");
        },
        PathValue::OpaqueStruct(o) => {
            out.append("typedef struct ");
            out.append(o.name.as_str());
            out.append(" ");
            out.append(o.name.as_str());
            out.append(";");
        },
        PathValue::Typedef(t) => {
            out.append("typedef ");
            write_declarator(&t.name, &t.aliased, &mut out);
            out.append(";");
        },
        PathValue::Specialization(_) => {},
    }
    proof {
        assert(out@ =~= item_text(v@));
    }
    out
}

/// The prototype text of one function.
fn build_proto_text(f: &Function) -> (r: String)
    ensures
        r@ == proto_text(f@),
{
    let mut out = String::new();
    write_type(&f.ret, &mut out);
    out.append(" ");
    out.append(f.name.as_str());
    out.append("(");
    if f.args.len() == 0 {
        out.append("void");
    } else {
        let ghost args = f@.args;
        proof {
            assert(args.drop_first() =~= args.skip(1));
        }
        write_declarator(&f.args[0].0, &f.args[0].1, &mut out);
        let mut i: usize = 1;
        while i < f.args.len()
            invariant
                1 <= i <= f.args@.len(),
                args == f@.args,
                args.len() == f.args@.len(),
                out@ + params_tail(args.skip(i as int)) == type_text(f@.ret) + " "@ + f@.name
                    + "("@ + params_text(args),
            decreases f.args.len() - i,
        {
            proof {
                assert(args.skip(i as int)[0] == args[i as int]);
                assert(args.skip(i as int).drop_first() =~= args.skip(i as int + 1));
            }
            let ghost pre = out@;
            out.append(", ");
            write_declarator(&f.args[i].0, &f.args[i].1, &mut out);
            proof {
                assert(out@ =~= pre + (", "@ + declarator_text(args[i as int].0, args[i as int].1)));
                assert(pre + (", "@ + declarator_text(args[i as int].0, args[i as int].1))
                    + params_tail(args.skip(i as int + 1)) =~= pre + params_tail(
                    args.skip(i as int),
                ));
            }
            i += 1;
        }
        proof {
            assert(args.skip(args.len() as int) =~= Seq::<(Seq<char>, TypeView)>::empty());
            assert(out@ + params_tail(args.skip(args.len() as int)) =~= out@);
            assert(args.drop_first() =~= args.skip(1));
        }
    }
    out.append(");");
    proof {
        assert(out@ =~= proto_text(f@));
    }
    out
}

impl BuiltBindings {
    /// Renders the bindings as header text, in the strict block order
    /// of the emitted layout.  No specialization may remain among the
    /// items.
    pub fn write(&self) -> (r: String)
        requires
            forall|i: int| 0 <= i < self@.items.len() ==> !((#[trigger] self@.items[i])
                is Specialization),
        ensures
            r@ == file_text(self@),
    {
        let mut out = String::new();
        match &self.config.header {
            Some(h) => emit_block(&mut out, h.as_str()),
            None => {},
        }
        match &self.config.include_guard {
            Some(g) => {
                let mut content = String::from_str("#ifndef ");
                content.append(g.as_str());
                content.append("\n#define ");
                content.append(g.as_str());
                emit_block(&mut out, content.as_str());
            },
            None => {},
        }
        if self.config.include_version {
            emit_block(&mut out, "/* Generated with cbindgen:0.1.0 */");
        }
        match &self.config.autogen_warning {
            Some(w) => emit_block(&mut out, w.as_str()),
            None => {},
        }
        let mut includes = String::from_str("#include <stdint.h>");
        if matches!(self.config.language, Language::C) {
            includes.append("\n#include <stdbool.h>");
        }
        proof {
            if self@.config.language != Language::C {
                assert(includes@ =~= "#include <stdint.h>"@ + Seq::<char>::empty());
            }
        }
        emit_block(&mut out, includes.as_str());
        if matches!(self.config.language, Language::Cxx) {
            emit_block(&mut out, "extern \"C\" {");
        }
        let ghost items_v = self@.items;
        let ghost s6 = out@;
        proof {
            assert(items_v.skip(0) =~= items_v);
        }
        let mut i: usize = 0;
        while i < self.items.len()
            invariant
                i <= self.items@.len(),
                items_v == self@.items,
                items_v.len() == self.items@.len(),
                items_text_from(out@, items_v.skip(i as int)) == items_text_from(s6, items_v),
            decreases self.items.len() - i,
        {
            proof {
                assert(items_v.skip(i as int)[0] == items_v[i as int]);
                assert(items_v.skip(i as int).drop_first() =~= items_v.skip(i as int + 1));
            }
            let t = build_item_text(&self.items[i]);
            emit_block(&mut out, t.as_str());
            i += 1;
        }
        proof {
            assert(items_v.skip(items_v.len() as int) =~= Seq::<PathValueView>::empty());
            assert(items_v.skip(0) =~= items_v);
        }
        match &self.config.autogen_warning {
            Some(w) => emit_block(&mut out, w.as_str()),
            None => {},
        }
        let ghost funcs_v = self@.functions;
        let ghost s8 = out@;
        proof {
            assert(funcs_v.skip(0) =~= funcs_v);
        }
        let mut i: usize = 0;
        while i < self.functions.len()
            invariant
                i <= self.functions@.len(),
                funcs_v == self@.functions,
                funcs_v.len() == self.functions@.len(),
                protos_text_from(out@, funcs_v.skip(i as int)) == protos_text_from(s8, funcs_v),
            decreases self.functions.len() - i,
        {
            proof {
                assert(funcs_v.skip(i as int)[0] == funcs_v[i as int]);
                assert(funcs_v.skip(i as int).drop_first() =~= funcs_v.skip(i as int + 1));
            }
            if !self.functions[i].extern_decl {
                let t = build_proto_text(&self.functions[i]);
                emit_block(&mut out, t.as_str());
            }
            i += 1;
        }
        proof {
            assert(funcs_v.skip(funcs_v.len() as int) =~= Seq::<FunctionView>::empty());
            assert(funcs_v.skip(0) =~= funcs_v);
        }
        if matches!(self.config.language, Language::Cxx) {
            emit_block(&mut out, "} // extern \"C\"");
        }
        match &self.config.autogen_warning {
            Some(w) => emit_block(&mut out, w.as_str()),
            None => {},
        }
        match &self.config.include_guard {
            Some(g) => {
                let mut content = String::from_str("#endif // ");
                content.append(g.as_str());
                emit_block(&mut out, content.as_str());
            },
            None => {},
        }
        match &self.config.trailer {
            Some(t) => emit_block(&mut out, t.as_str()),
            None => {},
        }
        proof {
            assert(out@ =~= file_text(self@));
        }
        out
    }
}

/// Emission is a pure function of the built bindings: two renderings
/// of equal bindings are byte-identical.
pub proof fn lemma_emission_deterministic(
    b1: crate::library::BuiltBindingsView,
    b2: crate::library::BuiltBindingsView,
)
    requires
        b1 == b2,
    ensures
        file_text(b1) == file_text(b2),
{
}

} // verus!
