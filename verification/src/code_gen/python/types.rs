//! The code that each value type becomes in the Python bindings: how a
//! value is serialized, deserialized and checked, and its type annotation.
use vstd::prelude::*;
use vstd::string::*;

use crate::code_gen::python::code::{
    append_lines, cat, cat3, glue, glue_blocks, indent_block, indented, inline_block, inlined,
    one_line,
};
use crate::code_gen::python::imports::{
    item_model, lemma_pushed_all_concat, lemma_pushed_all_one, pushed_all, ImportItem,
    ImportRegistry, Package,
};
use crate::code_gen::utils::{
    obj_identifier, snake_case, to_snake_case, without_crate, ContainerIdentifierBuilder,
};
use crate::code_gen::variable_path::{
    access_text, decimal, decimal_string, path_code, VariableAccess, VariablePath,
};
use crate::path::{spec_path_parts, PathBuf};
use crate::text::{join_seq, join_strings, views};
use crate::type_info::{
    ArrayMeta, BoolMeta, MapMeta, NumberMeta, ObjectMeta, OptionalMeta, RangeMeta, StringMeta,
    TupleMeta, ValueType,
};

verus! {

broadcast use vstd::seq_lib::group_seq_properties;

/// Python's spelling of a boolean.
pub open spec fn python_bool(value: bool) -> Seq<char> {
    if value {
        "True"@
    } else {
        "False"@
    }
}

/// Python's spelling of a boolean.
pub fn bool_to_python_bool(value: bool) -> (r: &'static str)
    ensures
        r@ == python_bool(value),
{
    if value {
        "True"
    } else {
        "False"
    }
}

/// The decimal representation of `n`.
pub fn decimal_string_wide(n: u128) -> (r: String)
    ensures
        r@ == decimal(n as nat),
    decreases n,
{
    let digits = "0123456789";
    proof {
        reveal_strlit("0123456789");
    }
    let d = (n % 10) as usize;
    let digit = digits.substring_char(d, d + 1);
    assert(digit@ =~= seq![crate::code_gen::variable_path::digit_char(d as nat)]);
    if n < 10 {
        digit.to_owned()
    } else {
        let mut r = decimal_string_wide(n / 10);
        r.append(digit);
        r
    }
}

/// The name of the runtime constant for a number of `bytes` bytes, such as
/// `U32_BYTES`.
pub open spec fn byte_const(bytes: usize) -> Seq<char> {
    "U"@ + decimal(8 * bytes as nat) + "_BYTES"@
}

/// The name of the runtime constant for the width of a number.
pub fn as_byte_string(bytes: usize) -> (r: String)
    ensures
        r@ == byte_const(bytes),
{
    let bits = decimal_string_wide((bytes as u128) * 8);
    cat3("U", bits.as_str(), "_BYTES")
}

/// A length in decimal, or `None`.
pub open spec fn opt_num(n: Option<usize>) -> Seq<char> {
    match n {
        Some(k) => decimal(k as nat),
        None => "None"@,
    }
}

fn opt_num_string(n: Option<usize>) -> (r: String)
    ensures
        r@ == opt_num(n),
{
    match n {
        Some(k) => decimal_string(k),
        None => String::from_str("None"),
    }
}

/// The identifier of the container that an object type refers to.
pub open spec fn object_ident(m: ObjectMeta) -> Seq<char> {
    join_seq(without_crate(spec_path_parts(m.path@)).push(obj_identifier(m.name@)), "_"@)
}

/// A path to a value as generated code uses it: the variable, the code of
/// the path, and the texts of its steps.
pub type AccessPath = (Seq<char>, Seq<char>, Seq<Seq<char>>);

/// The model of a variable path.
pub open spec fn access_path(p: VariablePath) -> AccessPath {
    (p.start(), path_code(p.start(), p.steps()), p.steps().map_values(|a: VariableAccess| access_text(a)))
}

/// The path of a variable alone.
pub open spec fn var_path(name: Seq<char>) -> AccessPath {
    (name, name, Seq::empty())
}

/// The path one field further.
pub open spec fn field_step(p: AccessPath, field: Seq<char>) -> AccessPath {
    (p.0, p.1 + "."@ + field, p.2.push(field))
}

/// The path one index further.
pub open spec fn index_step(p: AccessPath, index: nat) -> AccessPath {
    (p.0, p.1 + "["@ + decimal(index) + "]"@, p.2.push(decimal(index)))
}

/// The name that a path gives to a generated helper: the variable and the
/// steps, each after `_`.
pub open spec fn path_ident(p: AccessPath) -> Seq<char> {
    p.0 + "_"@ + join_seq(p.2, "_"@)
}

/// Whether every tuple type in `v` has items: the code of an empty tuple
/// cannot be generated.
pub closed spec fn tuples_nonempty(v: ValueType) -> bool
    decreases v,
{
    match v {
        ValueType::Array(m) => tuples_nonempty(*m.items_type),
        ValueType::Optional(m) => tuples_nonempty(*m.inner),
        ValueType::Range(m) => tuples_nonempty(*m.bounds_type),
        ValueType::Mapping(m) => tuples_nonempty(*m.key_type) && tuples_nonempty(*m.value_type),
        ValueType::Tuple(t) => t.items_types@.len() > 0 && forall|i: int|
            0 <= i < t.items_types@.len() ==> tuples_nonempty(#[trigger] t.items_types@[i]),
        _ => true,
    }
}

/// The lines that serialize the value at path `p` of type `v`, with the
/// serializer `s`.
pub closed spec fn ser_lines(v: ValueType, p: AccessPath) -> Seq<Seq<char>>
    decreases v,
{
    match v {
        ValueType::Number(NumberMeta::Integer { bytes, signed, .. }) => seq![
            "s.serialize_number("@ + byte_const(bytes) + ", "@ + python_bool(signed) + ", "@ + p.1
                + ")"@,
        ],
        ValueType::Number(NumberMeta::FloatingPoint { bytes }) => seq![
            "s.serialize_number_float("@ + byte_const(bytes) + ", "@ + p.1 + ")"@,
        ],
        ValueType::Bool(_) => seq!["s.serialize_bool("@ + p.1 + ")"@],
        ValueType::String(_) => seq!["s.serialize_string("@ + p.1 + ")"@],
        ValueType::Object(m) => seq!["serialize_"@ + object_ident(m) + "(s, "@ + p.1 + ")"@],
        ValueType::Array(m) => inlined(
            "s.serialize_array(lambda s, v: "@,
            ser_lines(*m.items_type, var_path("v"@)),
            ", "@ + p.1 + ", "@ + opt_num(m.length) + ")"@,
        ),
        ValueType::Mapping(m) => glue(
            inlined("s.serialize_map(lambda s, k, v: ("@, ser_lines(*m.key_type, var_path("k"@)), ", "@),
            inlined(""@, ser_lines(*m.value_type, var_path("v"@)), "), "@ + p.1 + ")"@),
        ),
        ValueType::Optional(m) => seq!["if "@ + p.1 + " is not None:"@] + indented(
            seq!["s.serialize_number(U32_BYTES, False, 1)"@] + ser_lines(*m.inner, p),
        ) + seq!["else:"@] + indented(seq!["s.serialize_number(U32_BYTES, False, 0)"@]),
        ValueType::Range(m) => ser_lines(*m.bounds_type, field_step(p, "start"@)) + ser_lines(
            *m.bounds_type,
            field_step(p, "stop"@),
        ),
        ValueType::Tuple(t) => ser_blocks(t.items_types@, p).flatten(),
    }
}

/// The lines that serialize each item of a tuple at path `p`.
pub closed spec fn ser_blocks(items: Seq<ValueType>, p: AccessPath) -> Seq<Seq<Seq<char>>>
    decreases items,
{
    Seq::new(
        items.len(),
        |i: int|
            if 0 <= i < items.len() {
                ser_lines(items[i], index_step(p, i as nat))
            } else {
                Seq::empty()
            },
    )
}

/// The path after a field step.
proof fn lemma_field_step(p: VariablePath, f: String, q: VariablePath)
    requires
        q.start() == p.start(),
        q.steps() == p.steps().push(VariableAccess::Field(f)),
    ensures
        access_path(q) == field_step(access_path(p), f@),
{
    assert(q.steps().drop_last() =~= p.steps());
    assert(q.steps().map_values(|a: VariableAccess| access_text(a)) =~= p.steps().map_values(
        |a: VariableAccess| access_text(a),
    ).push(f@));
}

/// The path after an index step.
proof fn lemma_index_step(p: VariablePath, i: usize, q: VariablePath)
    requires
        q.start() == p.start(),
        q.steps() == p.steps().push(VariableAccess::Indexed(i)),
    ensures
        access_path(q) == index_step(access_path(p), i as nat),
{
    assert(q.steps().drop_last() =~= p.steps());
    assert(q.steps().map_values(|a: VariableAccess| access_text(a)) =~= p.steps().map_values(
        |a: VariableAccess| access_text(a),
    ).push(decimal(i as nat)));
}

/// The code of a path, such as `v.a[0]`.
fn path_code_string(p: &VariablePath) -> (r: String)
    ensures
        r@ == access_path(*p).1,
{
    p.to_code()
}

/// The name a path gives to a generated helper.
fn path_ident_string(p: &VariablePath) -> (r: String)
    ensures
        r@ == path_ident(access_path(*p)),
{
    p.duplicate().into_string("_")
}

/// The path one field further.
pub(crate) fn with_field(p: &VariablePath, field: &str) -> (r: VariablePath)
    ensures
        access_path(r) == field_step(access_path(*p), field@),
{
    let f = String::from_str(field);
    let r = p.duplicate().modify_push(VariableAccess::Field(f));
    proof {
        lemma_field_step(*p, f, r);
    }
    r
}

/// The path one index further.
pub(crate) fn with_index(p: &VariablePath, index: usize) -> (r: VariablePath)
    ensures
        access_path(r) == index_step(access_path(*p), index as nat),
{
    let r = p.duplicate().modify_push(VariableAccess::Indexed(index));
    proof {
        lemma_index_step(*p, index, r);
    }
    r
}

/// The path of a variable alone.
pub(crate) fn variable(name: &str) -> (r: VariablePath)
    ensures
        access_path(r) == var_path(name@),
{
    let r = VariablePath::new(String::from_str(name));
    assert(access_path(r).2 =~= Seq::<Seq<char>>::empty());
    r
}

/// The lines that serialize the value at path `p` of type `v`.
pub fn gen_ser_accessor(v: &ValueType, p: VariablePath) -> (r: Vec<String>)
    requires
        tuples_nonempty(*v),
    ensures
        views(r@) == ser_lines(*v, access_path(p)),
    decreases v,
{
    let code = path_code_string(&p);
    match v {
        ValueType::Number(NumberMeta::Integer { bytes, signed, .. }) => {
            let b = as_byte_string(*bytes);
            let line = cat3(
                cat3("s.serialize_number(", b.as_str(), ", ").as_str(),
                cat3(bool_to_python_bool(*signed), ", ", code.as_str()).as_str(),
                ")",
            );
            assert(line@ =~= "s.serialize_number("@ + byte_const(*bytes) + ", "@ + python_bool(*signed)
                + ", "@ + code@ + ")"@);
            one_line(line)
        },
        ValueType::Number(NumberMeta::FloatingPoint { bytes }) => {
            let b = as_byte_string(*bytes);
            let line = cat3(
                cat3("s.serialize_number_float(", b.as_str(), ", ").as_str(),
                code.as_str(),
                ")",
            );
            assert(line@ =~= "s.serialize_number_float("@ + byte_const(*bytes) + ", "@ + code@ + ")"@);
            one_line(line)
        },
        ValueType::Bool(_) => one_line(cat3("s.serialize_bool(", code.as_str(), ")")),
        ValueType::String(_) => one_line(cat3("s.serialize_string(", code.as_str(), ")")),
        ValueType::Object(m) => {
            let ident = ContainerIdentifierBuilder::from_object(m).build();
            let line = cat3(cat3("serialize_", ident.as_str(), "(s, ").as_str(), code.as_str(), ")");
            assert(line@ =~= "serialize_"@ + object_ident(*m) + "(s, "@ + code@ + ")"@);
            one_line(line)
        },
        ValueType::Array(m) => {
            let inner = gen_ser_accessor(&m.items_type, variable("v"));
            let len = opt_num_string(m.length);
            let suffix = cat3(cat3(", ", code.as_str(), ", ").as_str(), len.as_str(), ")");
            assert(suffix@ =~= ", "@ + code@ + ", "@ + opt_num(m.length) + ")"@);
            inline_block("s.serialize_array(lambda s, v: ", inner, suffix.as_str())
        },
        ValueType::Mapping(m) => {
            let key = gen_ser_accessor(&m.key_type, variable("k"));
            let value = gen_ser_accessor(&m.value_type, variable("v"));
            let suffix = cat3("), ", code.as_str(), ")");
            glue_blocks(
                inline_block("s.serialize_map(lambda s, k, v: (", key, ", "),
                inline_block("", value, suffix.as_str()),
            )
        },
        ValueType::Optional(m) => {
            let mut r = one_line(cat3("if ", code.as_str(), " is not None:"));
            let mut body = one_line(String::from_str("s.serialize_number(U32_BYTES, False, 1)"));
            append_lines(&mut body, gen_ser_accessor(&m.inner, p));
            append_lines(&mut r, indent_block(body));
            append_lines(&mut r, one_line(String::from_str("else:")));
            append_lines(
                &mut r,
                indent_block(one_line(String::from_str("s.serialize_number(U32_BYTES, False, 0)"))),
            );
            r
        },
        ValueType::Range(m) => {
            let mut r = gen_ser_accessor(&m.bounds_type, with_field(&p, "start"));
            append_lines(&mut r, gen_ser_accessor(&m.bounds_type, with_field(&p, "stop")));
            r
        },
        ValueType::Tuple(t) => {
            let ghost ap = access_path(p);
            let ghost blocks = ser_blocks(t.items_types@, ap);
            let n = t.items_types.len();
            let mut r: Vec<String> = Vec::new();
            let mut i: usize = 0;
            while i < n
                invariant
                    n == t.items_types@.len(),
                    *v is Tuple,
                    v->Tuple_0 == *t,
                    tuples_nonempty(*v),
                    i <= n,
                    ap == access_path(p),
                    blocks == ser_blocks(t.items_types@, ap),
                    views(r@) == blocks.take(i as int).flatten(),
                decreases n - i,
            {
                proof {
                    let ghost items = t.items_types;
                    assert(decreases_to!(*v => *t));
                    assert(decreases_to!(*t => items));
                    assert(decreases_to!(items => items@));
                    assert(decreases_to!(items@ => items@[i as int]));
                    assert(tuples_nonempty(items@[i as int]));
                }
                let b = gen_ser_accessor(&t.items_types[i], with_index(&p, i));
                let ghost before = views(r@);
                append_lines(&mut r, b);
                proof {
                    assert(blocks[i as int] == views(b@));
                    assert(blocks.take(i + 1) =~= blocks.take(i as int).push(blocks[i as int]));
                    blocks.take(i as int).lemma_flatten_push(blocks[i as int]);
                }
                i = i + 1;
            }
            assert(blocks.take(n as int) =~= blocks);
            r
        },
    }
}

/// How a deserialized value is used: as an item of a list, as an argument
/// by position, or as an argument by the name of a field.
pub enum FieldAccessor<'a> {
    Array,
    Plain,
    Object(&'a str),
}

/// The text before a deserialized value: `name = ` for a named argument.
pub open spec fn accessor_text(fa: FieldAccessor) -> Seq<char> {
    match fa {
        FieldAccessor::Object(name) => name@ + " = "@,
        _ => Seq::empty(),
    }
}

/// The expression that deserializes a value of type `v` from the
/// deserializer `d`, after the text `fa`.
pub closed spec fn des_text(v: ValueType, fa: Seq<char>) -> Seq<char>
    decreases v,
{
    match v {
        ValueType::Number(NumberMeta::Integer { bytes, signed, .. }) => fa + "d.deserialize_number("@
            + byte_const(bytes) + ", "@ + python_bool(signed) + ")"@,
        ValueType::Number(NumberMeta::FloatingPoint { bytes }) => fa + "d.deserialize_number_float("@
            + byte_const(bytes) + ")"@,
        ValueType::Bool(_) => fa + "d.deserialize_bool()"@,
        ValueType::String(_) => fa + "d.deserialize_string()"@,
        ValueType::Object(m) => fa + "deserialize_"@ + object_ident(m) + "(d)"@,
        ValueType::Array(m) => fa + "d.deserialize_array(lambda d: "@ + des_text(*m.items_type, Seq::<char>::empty())
            + ", "@ + opt_num(m.length) + ")"@,
        ValueType::Mapping(m) => fa + "d.deserialize_map((lambda d: ("@ + des_text(*m.key_type, Seq::<char>::empty())
            + ", "@ + des_text(*m.value_type, Seq::<char>::empty()) + ")))"@,
        ValueType::Optional(m) => fa + "None if d.deserialize_number(U32_BYTES, False) == 0 else "@
            + des_text(*m.inner, Seq::<char>::empty()),
        ValueType::Range(m) => fa + "range("@ + des_text(*m.bounds_type, Seq::<char>::empty()) + ", "@ + des_text(
            *m.bounds_type,
            Seq::<char>::empty(),
        ) + ")"@,
        ValueType::Tuple(t) => fa + "("@ + join_seq(des_items(t.items_types@), ", "@) + ")"@,
    }
}

/// The expressions that deserialize each item of a tuple.
pub closed spec fn des_items(items: Seq<ValueType>) -> Seq<Seq<char>>
    decreases items,
{
    Seq::new(
        items.len(),
        |i: int|
            if 0 <= i < items.len() {
                des_text(items[i], Seq::<char>::empty())
            } else {
                Seq::empty()
            },
    )
}

/// The text before a deserialized value.
fn accessor_string(fa: &FieldAccessor) -> (r: String)
    ensures
        r@ == accessor_text(*fa),
{
    match fa {
        FieldAccessor::Object(name) => cat(name, " = "),
        _ => String::new(),
    }
}

/// The expression that deserializes a value of type `v`, after the text of
/// `fa`.
pub fn gen_des_accessor(v: &ValueType, fa: FieldAccessor) -> (r: String)
    ensures
        r@ == des_text(*v, accessor_text(fa)),
    decreases v,
{
    let pre = accessor_string(&fa);
    match v {
        ValueType::Number(NumberMeta::Integer { bytes, signed, .. }) => {
            let b = as_byte_string(*bytes);
            let r = cat3(
                cat3(pre.as_str(), "d.deserialize_number(", b.as_str()).as_str(),
                cat(", ", bool_to_python_bool(*signed)).as_str(),
                ")",
            );
            assert(r@ =~= pre@ + "d.deserialize_number("@ + byte_const(*bytes) + ", "@ + python_bool(
                *signed,
            ) + ")"@);
            r
        },
        ValueType::Number(NumberMeta::FloatingPoint { bytes }) => {
            let b = as_byte_string(*bytes);
            let r = cat3(pre.as_str(), cat("d.deserialize_number_float(", b.as_str()).as_str(), ")");
            assert(r@ =~= pre@ + "d.deserialize_number_float("@ + byte_const(*bytes) + ")"@);
            r
        },
        ValueType::Bool(_) => cat(pre.as_str(), "d.deserialize_bool()"),
        ValueType::String(_) => cat(pre.as_str(), "d.deserialize_string()"),
        ValueType::Object(m) => {
            let ident = ContainerIdentifierBuilder::from_object(m).build();
            let r = cat3(pre.as_str(), cat("deserialize_", ident.as_str()).as_str(), "(d)");
            assert(r@ =~= pre@ + "deserialize_"@ + object_ident(*m) + "(d)"@);
            r
        },
        ValueType::Array(m) => {
            let inner = gen_des_accessor(&m.items_type, FieldAccessor::Array);
            let len = opt_num_string(m.length);
            let r = cat3(
                cat3(pre.as_str(), "d.deserialize_array(lambda d: ", inner.as_str()).as_str(),
                cat(", ", len.as_str()).as_str(),
                ")",
            );
            assert(r@ =~= pre@ + "d.deserialize_array(lambda d: "@ + des_text(*m.items_type, Seq::<char>::empty())
                + ", "@ + opt_num(m.length) + ")"@);
            r
        },
        ValueType::Mapping(m) => {
            let key = gen_des_accessor(&m.key_type, FieldAccessor::Plain);
            let value = gen_des_accessor(&m.value_type, FieldAccessor::Plain);
            let r = cat3(
                cat3(pre.as_str(), "d.deserialize_map((lambda d: (", key.as_str()).as_str(),
                cat(", ", value.as_str()).as_str(),
                ")))",
            );
            assert(r@ =~= pre@ + "d.deserialize_map((lambda d: ("@ + des_text(*m.key_type, Seq::<char>::empty())
                + ", "@ + des_text(*m.value_type, Seq::<char>::empty()) + ")))"@);
            r
        },
        ValueType::Optional(m) => {
            let inner = gen_des_accessor(&m.inner, FieldAccessor::Plain);
            let r = cat3(
                pre.as_str(),
                "None if d.deserialize_number(U32_BYTES, False) == 0 else ",
                inner.as_str(),
            );
            r
        },
        ValueType::Range(m) => {
            let bound = gen_des_accessor(&m.bounds_type, FieldAccessor::Plain);
            let r = cat3(
                cat3(pre.as_str(), "range(", bound.as_str()).as_str(),
                cat(", ", bound.as_str()).as_str(),
                ")",
            );
            assert(r@ =~= pre@ + "range("@ + des_text(*m.bounds_type, Seq::<char>::empty()) + ", "@ + des_text(
                *m.bounds_type,
                Seq::<char>::empty(),
            ) + ")"@);
            r
        },
        ValueType::Tuple(t) => {
            let ghost items = des_items(t.items_types@);
            let n = t.items_types.len();
            let mut parts: Vec<String> = Vec::new();
            let mut i: usize = 0;
            while i < n
                invariant
                    n == t.items_types@.len(),
                    *v is Tuple,
                    v->Tuple_0 == *t,
                    i <= n,
                    items == des_items(t.items_types@),
                    views(parts@) == items.take(i as int),
                decreases n - i,
            {
                proof {
                    let ghost its = t.items_types;
                    assert(decreases_to!(*v => *t));
                    assert(decreases_to!(*t => its));
                    assert(decreases_to!(its => its@));
                    assert(decreases_to!(its@ => its@[i as int]));
                }
                let d = gen_des_accessor(&t.items_types[i], FieldAccessor::Plain);
                let ghost before = parts@;
                parts.push(d);
                assert(views(parts@) =~= views(before).push(d@));
                assert(items.take(i + 1) =~= items.take(i as int).push(items[i as int]));
                i = i + 1;
            }
            assert(items.take(n as int) =~= items);
            let joined = join_strings(&parts, ", ");
            let r = cat3(pre.as_str(), cat("(", joined.as_str()).as_str(), ")");
            assert(r@ =~= pre@ + "("@ + join_seq(items, ", "@) + ")"@);
            r
        },
    }
}

/// The assertion that the value with code `c` is an instance of `ty`, which
/// the message describes as `what`.
pub open spec fn isinstance_line(c: Seq<char>, ty: Seq<char>, what: Seq<char>) -> Seq<char> {
    "assert isinstance("@ + c + ", "@ + ty + "), \"{} is not "@ + what + "\".format("@ + c + ")"@
}

/// The assertion that the value with code `c` is an instance of `ty`.
pub fn isinstance_check(c: &str, ty: &str, what: &str) -> (r: String)
    ensures
        r@ == isinstance_line(c@, ty@, what@),
{
    let r = cat3(
        cat3("assert isinstance(", c, ", ").as_str(),
        cat3(ty, "), \"{} is not ", what).as_str(),
        cat3("\".format(", c, ")").as_str(),
    );
    assert(r@ =~= isinstance_line(c@, ty@, what@));
    r
}

/// The assertion that the length of the value with code `c` relates to `n`
/// by `op`, with the message `message`.
pub open spec fn len_line(c: Seq<char>, op: Seq<char>, n: nat, message: Seq<char>) -> Seq<char> {
    "assert len("@ + c + ") "@ + op + " "@ + decimal(n) + ", \""@ + message + "\".format("@ + c + ", "@
        + decimal(n) + ")"@
}

/// The lines that check that the value at path `p` is of type `v`.
pub closed spec fn check_lines(v: ValueType, p: AccessPath) -> Seq<Seq<char>>
    decreases v,
{
    let c = p.1;
    match v {
        ValueType::Number(NumberMeta::Integer { bytes, signed, .. }) => seq![
            isinstance_line(c, "int"@, "an int"@),
            "assert check_bounds("@ + byte_const(bytes) + ", "@ + python_bool(signed) + ", "@ + c
                + "), \"{} does not fit into an {}\".format("@ + c + ", "@ + byte_const(bytes) + ")"@,
        ],
        ValueType::Number(NumberMeta::FloatingPoint { .. }) => seq![
            isinstance_line(c, "float"@, "a float"@),
        ],
        ValueType::Bool(_) => seq![isinstance_line(c, "bool"@, "a bool"@)],
        ValueType::String(m) => seq![isinstance_line(c, "str"@, "a string"@)] + match m.max_length {
            Some(n) => seq![len_line(c, "<="@, n as nat, "{} has a length greater than {}"@)],
            None => Seq::empty(),
        },
        ValueType::Object(m) => seq!["assert_"@ + object_ident(m) + "("@ + c + ")"@],
        ValueType::Array(m) => seq![isinstance_line(c, "list"@, "a list"@)] + match m.length {
            Some(n) => seq![len_line(c, "=="@, n as nat, "{} has not a length of {}"@)],
            None => Seq::empty(),
        } + seq!["def assert_"@ + path_ident(p) + "(v):"@] + indented(
            check_lines(*m.items_type, var_path("v"@)),
        ) + seq!["[assert_"@ + path_ident(p) + "(v) for v in "@ + c + "]"@],
        ValueType::Mapping(m) => seq![
            isinstance_line(c, "dict"@, "a dict"@),
            "def assert_"@ + path_ident(p) + "(key, value):"@,
        ] + indented(
            check_lines(*m.key_type, var_path("key"@)) + check_lines(*m.value_type, var_path("value"@)),
        ) + seq![
            "[assert_"@ + path_ident(p) + "(key, value) for key, value in "@ + c + ".items()]"@,
        ],
        ValueType::Optional(m) => seq!["def assert_"@ + path_ident(p) + "(v):"@] + indented(
            check_lines(*m.inner, var_path("v"@)),
        ) + seq!["if "@ + c + " is not None:"@] + indented(
            seq!["assert_"@ + path_ident(p) + "("@ + c + ")"@],
        ),
        ValueType::Range(m) => seq![isinstance_line(c, "range"@, "a range"@)] + check_lines(
            *m.bounds_type,
            field_step(p, "start"@),
        ) + check_lines(*m.bounds_type, field_step(p, "stop"@)),
        ValueType::Tuple(t) => seq![
            isinstance_line(c, "tuple"@, "a tuple"@),
            len_line(c, "=="@, t.items_types@.len(), "{} is not of length {}"@),
        ] + check_blocks(t.items_types@, p).flatten(),
    }
}

/// The lines that check each item of a tuple at path `p`.
pub closed spec fn check_blocks(items: Seq<ValueType>, p: AccessPath) -> Seq<Seq<Seq<char>>>
    decreases items,
{
    Seq::new(
        items.len(),
        |i: int|
            if 0 <= i < items.len() {
                check_lines(items[i], index_step(p, i as nat))
            } else {
                Seq::empty()
            },
    )
}

/// The assertion that a value's length, with code `c`, relates to `n` by
/// `op`, with the message `message`.
fn len_check(c: &str, op: &str, n: usize, message: &str) -> (r: String)
    ensures
        r@ == len_line(c@, op@, n as nat, message@),
{
    let num = decimal_string(n);
    let r = cat3(
        cat3("assert len(", c, ") ").as_str(),
        cat3(op, " ", num.as_str()).as_str(),
        cat3(
            cat3(", \"", message, "\".format(").as_str(),
            cat3(c, ", ", num.as_str()).as_str(),
            ")",
        ).as_str(),
    );
    assert(r@ =~= "assert len("@ + c@ + ") "@ + op@ + " "@ + decimal(n as nat) + ", \""@ + message@
        + "\".format("@ + c@ + ", "@ + decimal(n as nat) + ")"@);
    r
}

/// The check of an integer of `bytes` bytes and sign `signed`, at code `c`.
fn integer_check(c: &str, bytes: usize, signed: bool) -> (r: Vec<String>)
    ensures
        views(r@) == seq![
            isinstance_line(c@, "int"@, "an int"@),
            "assert check_bounds("@ + byte_const(bytes) + ", "@ + python_bool(signed) + ", "@ + c@
                + "), \"{} does not fit into an {}\".format("@ + c@ + ", "@ + byte_const(bytes) + ")"@,
        ],
{
    let b = as_byte_string(bytes);
    let mut r = one_line(isinstance_check(c, "int", "an int"));
    let line = cat3(
        cat3(
            cat3("assert check_bounds(", b.as_str(), ", ").as_str(),
            bool_to_python_bool(signed),
            ", ",
        ).as_str(),
        cat3(c, "), \"{} does not fit into an {}\".format(", c).as_str(),
        cat3(", ", b.as_str(), ")").as_str(),
    );
    assert(line@ =~= "assert check_bounds("@ + byte_const(bytes) + ", "@ + python_bool(signed) + ", "@
        + c@ + "), \"{} does not fit into an {}\".format("@ + c@ + ", "@ + byte_const(bytes) + ")"@);
    append_lines(&mut r, one_line(line));
    r
}

/// The lines around the check of the items of a list at code `c`, whose
/// helper is named after `ident`.
fn array_check(c: &str, ident: &str, length: Option<usize>, items: Vec<String>) -> (r: Vec<String>)
    ensures
        views(r@) == seq![isinstance_line(c@, "list"@, "a list"@)] + match length {
            Some(n) => seq![len_line(c@, "=="@, n as nat, "{} has not a length of {}"@)],
            None => Seq::empty(),
        } + seq!["def assert_"@ + ident@ + "(v):"@] + indented(views(items@)) + seq![
            "[assert_"@ + ident@ + "(v) for v in "@ + c@ + "]"@,
        ],
{
    let mut r = one_line(isinstance_check(c, "list", "a list"));
    match length {
        Some(n) => {
            append_lines(&mut r, one_line(len_check(c, "==", n, "{} has not a length of {}")));
        },
        None => {},
    }
    append_lines(&mut r, one_line(cat3("def assert_", ident, "(v):")));
    append_lines(&mut r, indent_block(items));
    let last = cat3(cat3("[assert_", ident, "(v) for v in ").as_str(), c, "]");
    assert(last@ =~= "[assert_"@ + ident@ + "(v) for v in "@ + c@ + "]"@);
    append_lines(&mut r, one_line(last));
    r
}

/// The lines around the checks of the keys and values of a dict at code
/// `c`, whose helper is named after `ident`.
fn map_check(c: &str, ident: &str, key: Vec<String>, value: Vec<String>) -> (r: Vec<String>)
    ensures
        views(r@) == seq![
            isinstance_line(c@, "dict"@, "a dict"@),
            "def assert_"@ + ident@ + "(key, value):"@,
        ] + indented(views(key@) + views(value@)) + seq![
            "[assert_"@ + ident@ + "(key, value) for key, value in "@ + c@ + ".items()]"@,
        ],
{
    let mut r = one_line(isinstance_check(c, "dict", "a dict"));
    append_lines(&mut r, one_line(cat3("def assert_", ident, "(key, value):")));
    let mut body = key;
    append_lines(&mut body, value);
    append_lines(&mut r, indent_block(body));
    let last = cat3(
        cat3("[assert_", ident, "(key, value) for key, value in ").as_str(),
        c,
        ".items()]",
    );
    assert(last@ =~= "[assert_"@ + ident@ + "(key, value) for key, value in "@ + c@ + ".items()]"@);
    append_lines(&mut r, one_line(last));
    r
}

/// The lines around the check of an optional value at code `c`, whose
/// helper is named after `ident`.
fn optional_check(c: &str, ident: &str, inner: Vec<String>) -> (r: Vec<String>)
    ensures
        views(r@) == seq!["def assert_"@ + ident@ + "(v):"@] + indented(views(inner@)) + seq![
            "if "@ + c@ + " is not None:"@,
        ] + indented(seq!["assert_"@ + ident@ + "("@ + c@ + ")"@]),
{
    let mut r = one_line(cat3("def assert_", ident, "(v):"));
    append_lines(&mut r, indent_block(inner));
    append_lines(&mut r, one_line(cat3("if ", c, " is not None:")));
    let call = cat3(cat3("assert_", ident, "(").as_str(), c, ")");
    assert(call@ =~= "assert_"@ + ident@ + "("@ + c@ + ")"@);
    append_lines(&mut r, indent_block(one_line(call)));
    r
}

/// The lines that check that the value at path `p` is of type `v`.
pub fn gen_ty_check(v: &ValueType, p: VariablePath) -> (r: Vec<String>)
    requires
        tuples_nonempty(*v),
    ensures
        views(r@) == check_lines(*v, access_path(p)),
    decreases v,
{
    let c = path_code_string(&p);
    match v {
        ValueType::Number(NumberMeta::Integer { bytes, signed, .. }) => {
            integer_check(c.as_str(), *bytes, *signed)
        },
        ValueType::Number(NumberMeta::FloatingPoint { .. }) => one_line(
            isinstance_check(c.as_str(), "float", "a float"),
        ),
        ValueType::Bool(_) => one_line(isinstance_check(c.as_str(), "bool", "a bool")),
        ValueType::String(m) => {
            let mut r = one_line(isinstance_check(c.as_str(), "str", "a string"));
            match m.max_length {
                Some(n) => {
                    let line = len_check(c.as_str(), "<=", n, "{} has a length greater than {}");
                    append_lines(&mut r, one_line(line));
                },
                None => {},
            }
            r
        },
        ValueType::Object(m) => {
            let ident = ContainerIdentifierBuilder::from_object(m).build();
            let line = cat3(cat3("assert_", ident.as_str(), "(").as_str(), c.as_str(), ")");
            assert(line@ =~= "assert_"@ + object_ident(*m) + "("@ + c@ + ")"@);
            one_line(line)
        },
        ValueType::Array(m) => {
            let ident = path_ident_string(&p);
            let items = gen_ty_check(&m.items_type, variable("v"));
            array_check(c.as_str(), ident.as_str(), m.length, items)
        },
        ValueType::Mapping(m) => {
            let ident = path_ident_string(&p);
            let key = gen_ty_check(&m.key_type, variable("key"));
            let value = gen_ty_check(&m.value_type, variable("value"));
            map_check(c.as_str(), ident.as_str(), key, value)
        },
        ValueType::Optional(m) => {
            let ident = path_ident_string(&p);
            let inner = gen_ty_check(&m.inner, variable("v"));
            optional_check(c.as_str(), ident.as_str(), inner)
        },
        ValueType::Range(m) => {
            let mut r = one_line(isinstance_check(c.as_str(), "range", "a range"));
            append_lines(&mut r, gen_ty_check(&m.bounds_type, with_field(&p, "start")));
            append_lines(&mut r, gen_ty_check(&m.bounds_type, with_field(&p, "stop")));
            r
        },
        ValueType::Tuple(t) => {
            let ghost ap = access_path(p);
            let ghost blocks = check_blocks(t.items_types@, ap);
            let n = t.items_types.len();
            let mut r = one_line(isinstance_check(c.as_str(), "tuple", "a tuple"));
            append_lines(&mut r, one_line(len_check(c.as_str(), "==", n, "{} is not of length {}")));
            let ghost head = views(r@);
            let mut i: usize = 0;
            while i < n
                invariant
                    n == t.items_types@.len(),
                    *v is Tuple,
                    v->Tuple_0 == *t,
                    tuples_nonempty(*v),
                    i <= n,
                    ap == access_path(p),
                    blocks == check_blocks(t.items_types@, ap),
                    views(r@) == head + blocks.take(i as int).flatten(),
                decreases n - i,
            {
                proof {
                    let ghost items = t.items_types;
                    assert(decreases_to!(*v => *t));
                    assert(decreases_to!(*t => items));
                    assert(decreases_to!(items => items@));
                    assert(decreases_to!(items@ => items@[i as int]));
                    assert(tuples_nonempty(items@[i as int]));
                }
                let b = gen_ty_check(&t.items_types[i], with_index(&p, i));
                append_lines(&mut r, b);
                proof {
                    assert(blocks[i as int] == views(b@));
                    assert(blocks.take(i + 1) =~= blocks.take(i as int).push(blocks[i as int]));
                    blocks.take(i as int).lemma_flatten_push(blocks[i as int]);
                }
                i = i + 1;
            }
            assert(blocks.take(n as int) =~= blocks);
            assert(views(r@) =~= head + blocks.flatten());
            r
        },
    }
}

/// The number of bits of an integer of `bytes` bytes, for the widths that
/// have a type annotation.
pub open spec fn int_bits(bytes: usize) -> Seq<char> {
    if bytes == 1 {
        "8"@
    } else if bytes == 2 {
        "16"@
    } else if bytes == 4 {
        "32"@
    } else if bytes == 8 {
        "64"@
    } else {
        Seq::empty()
    }
}

/// Whether every integer type in `v` has a width of 1, 2, 4 or 8 bytes: only
/// these have a type annotation.
pub closed spec fn ints_annotated(v: ValueType) -> bool
    decreases v,
{
    match v {
        ValueType::Number(NumberMeta::Integer { bytes, .. }) => bytes == 1 || bytes == 2 || bytes
            == 4 || bytes == 8,
        ValueType::Array(m) => ints_annotated(*m.items_type),
        ValueType::Optional(m) => ints_annotated(*m.inner),
        ValueType::Range(m) => ints_annotated(*m.bounds_type),
        ValueType::Mapping(m) => ints_annotated(*m.key_type) && ints_annotated(*m.value_type),
        ValueType::Tuple(t) => forall|i: int|
            0 <= i < t.items_types@.len() ==> ints_annotated(#[trigger] t.items_types@[i]),
        _ => true,
    }
}

/// The module path of the container that an object type refers to, without
/// the crate's name.
pub open spec fn object_module(m: ObjectMeta) -> Seq<Seq<char>> {
    without_crate(spec_path_parts(m.path@))
}

/// The name under which the type of an object is imported: `_`, then its
/// module path and name joined by `_`.
pub open spec fn object_alias(m: ObjectMeta) -> Seq<char> {
    "_"@ + join_seq(object_module(m).push(m.name@), "_"@)
}

/// The module of the generated package that holds the type of an object:
/// `types`, its module path, and its name in snake case after `_`.
pub open spec fn object_import_path(m: ObjectMeta) -> Seq<Seq<char>> {
    seq!["types"@] + object_module(m).push("_"@ + snake_case(m.name@))
}

/// The type annotation of a value of type `v`.
pub closed spec fn typing_text(v: ValueType) -> Seq<char>
    decreases v,
{
    match v {
        ValueType::Number(NumberMeta::Integer { bytes, signed, .. }) => (if signed {
            "i"@
        } else {
            "u"@
        }) + int_bits(bytes),
        ValueType::Number(NumberMeta::FloatingPoint { .. }) => "float"@,
        ValueType::Bool(_) => "bool"@,
        ValueType::String(_) => "str"@,
        ValueType::Range(_) => "range"@,
        ValueType::Object(m) => object_alias(m),
        ValueType::Array(m) => "list["@ + typing_text(*m.items_type) + "]"@,
        ValueType::Mapping(m) => "dict["@ + typing_text(*m.key_type) + ", "@ + typing_text(
            *m.value_type,
        ) + "]"@,
        ValueType::Optional(m) => "Optional["@ + typing_text(*m.inner) + "]"@,
        ValueType::Tuple(t) => "Tuple["@ + join_seq(typing_items(t.items_types@), ", "@) + "]"@,
    }
}

/// The type annotations of the items of a tuple.
pub closed spec fn typing_items(items: Seq<ValueType>) -> Seq<Seq<char>>
    decreases items,
{
    Seq::new(
        items.len(),
        |i: int|
            if 0 <= i < items.len() {
                typing_text(items[i])
            } else {
                Seq::empty()
            },
    )
}

/// What the type annotation of a value of type `v` imports, in order, in
/// a file of the package `package`: the package of each import and the
/// item.
pub closed spec fn typing_imports(v: ValueType, package: Seq<char>) -> Seq<
    (Seq<char>, Option<Seq<char>>),
>
    decreases v,
{
    match v {
        ValueType::Object(m) => seq![
            (
                join_seq(seq![package] + object_import_path(m), "."@),
                Some(m.name@ + " as "@ + object_alias(m)),
            ),
        ],
        ValueType::Array(m) => typing_imports(*m.items_type, package),
        ValueType::Mapping(m) => typing_imports(*m.key_type, package) + typing_imports(
            *m.value_type,
            package,
        ),
        ValueType::Optional(m) => seq![("typing"@, Some("Optional"@))] + typing_imports(
            *m.inner,
            package,
        ),
        ValueType::Tuple(t) => typing_import_items(t.items_types@, package).flatten() + seq![
            ("typing"@, Some("Tuple"@)),
        ],
        _ => Seq::empty(),
    }
}

/// What the type annotations of the items of a tuple import.
pub closed spec fn typing_import_items(items: Seq<ValueType>, package: Seq<char>) -> Seq<
    Seq<(Seq<char>, Option<Seq<char>>)>,
>
    decreases items,
{
    Seq::new(
        items.len(),
        |i: int|
            if 0 <= i < items.len() {
                typing_imports(items[i], package)
            } else {
                Seq::empty()
            },
    )
}

/// Imports a single item of the package `typing`.
fn import_from_typing(reg: &mut ImportRegistry, item: &str)
    ensures
        final(reg).package_name() == old(reg).package_name(),
        final(reg).entries() == pushed_all(old(reg).entries(), seq![("typing"@, Some(item@))]),
{
    let name = String::from_str(item);
    reg.push(Package::Extern(String::from_str("typing")), ImportItem::Single(name));
    proof {
        lemma_pushed_all_one(old(reg).entries(), ("typing"@, Some(item@)));
    }
}

/// The type annotation of the object type `m`, importing its type.
fn object_typing(m: &ObjectMeta, reg: &mut ImportRegistry) -> (r: String)
    ensures
        r@ == object_alias(*m),
        final(reg).package_name() == old(reg).package_name(),
        final(reg).entries() == pushed_all(
            old(reg).entries(),
            seq![
                (
                    join_seq(seq![old(reg).package_name()] + object_import_path(*m), "."@),
                    Some(m.name@ + " as "@ + object_alias(*m)),
                ),
            ],
        ),
{
    let mut module = m.path.duplicate().into_buf();
    module.pop_front();
    assert(module@ == object_module(*m));
    let mut import_path = module.duplicate();
    let snake = to_snake_case(m.name);
    import_path.push(cat("_", snake.as_str()).as_str());
    import_path.push_front("types");
    assert(import_path@ =~= object_import_path(*m));
    let mut full = module;
    full.push(m.name);
    let joined = full.into_path("_").to_string();
    let alias = cat("_", joined.as_str());
    let item = ImportItem::Aliased { item_name: String::from_str(m.name), alias: alias.clone() };
    assert(item_model(item) == Some(m.name@ + " as "@ + object_alias(*m)));
    reg.push(Package::Intern(import_path), item);
    proof {
        lemma_pushed_all_one(
            old(reg).entries(),
            (
                join_seq(seq![old(reg).package_name()] + object_import_path(*m), "."@),
                Some(m.name@ + " as "@ + object_alias(*m)),
            ),
        );
    }
    alias
}

/// The annotation of an integer of `bytes` bytes: `u` or `i` by the sign,
/// then the number of bits.
fn rust_int_to_python_type(bytes: usize, signed: bool) -> (r: String)
    requires
        bytes == 1 || bytes == 2 || bytes == 4 || bytes == 8,
    ensures
        r@ == (if signed {
            "i"@
        } else {
            "u"@
        }) + int_bits(bytes),
{
    let sign = if signed {
        "i"
    } else {
        "u"
    };
    let bits = if bytes == 1 {
        "8"
    } else if bytes == 2 {
        "16"
    } else if bytes == 4 {
        "32"
    } else {
        "64"
    };
    cat(sign, bits)
}

/// The type annotation of a value of type `v`; the imports it needs are
/// added to `reg`.
pub fn gen_typings(v: &ValueType, reg: &mut ImportRegistry) -> (r: String)
    requires
        ints_annotated(*v),
    ensures
        r@ == typing_text(*v),
        final(reg).package_name() == old(reg).package_name(),
        final(reg).entries() == pushed_all(
            old(reg).entries(),
            typing_imports(*v, old(reg).package_name()),
        ),
    decreases v,
{
    let ghost pkg = reg.package_name();
    let ghost start = reg.entries();
    match v {
        ValueType::Number(NumberMeta::Integer { bytes, signed, .. }) => rust_int_to_python_type(
            *bytes,
            *signed,
        ),
        ValueType::Number(NumberMeta::FloatingPoint { .. }) => String::from_str("float"),
        ValueType::Bool(_) => String::from_str("bool"),
        ValueType::String(_) => String::from_str("str"),
        ValueType::Range(_) => String::from_str("range"),
        ValueType::Object(m) => object_typing(m, reg),
        ValueType::Array(m) => {
            let inner = gen_typings(&m.items_type, reg);
            cat3("list[", inner.as_str(), "]")
        },
        ValueType::Mapping(m) => {
            let key = gen_typings(&m.key_type, reg);
            let ghost mid = reg.entries();
            let value = gen_typings(&m.value_type, reg);
            proof {
                lemma_pushed_all_concat(
                    start,
                    typing_imports(*m.key_type, pkg),
                    typing_imports(*m.value_type, pkg),
                );
            }
            let r = cat3(cat3("dict[", key.as_str(), ", ").as_str(), value.as_str(), "]");
            assert(r@ =~= "dict["@ + typing_text(*m.key_type) + ", "@ + typing_text(*m.value_type)
                + "]"@);
            r
        },
        ValueType::Optional(m) => {
            import_from_typing(reg, "Optional");
            let inner = gen_typings(&m.inner, reg);
            proof {
                lemma_pushed_all_concat(
                    start,
                    seq![("typing"@, Some("Optional"@))],
                    typing_imports(*m.inner, pkg),
                );
            }
            cat3("Optional[", inner.as_str(), "]")
        },
        ValueType::Tuple(t) => {
            let ghost texts = typing_items(t.items_types@);
            let ghost imports = typing_import_items(t.items_types@, pkg);
            let n = t.items_types.len();
            let mut parts: Vec<String> = Vec::new();
            let mut i: usize = 0;
            while i < n
                invariant
                    n == t.items_types@.len(),
                    *v is Tuple,
                    v->Tuple_0 == *t,
                    ints_annotated(*v),
                    i <= n,
                    texts == typing_items(t.items_types@),
                    imports == typing_import_items(t.items_types@, pkg),
                    views(parts@) == texts.take(i as int),
                    reg.package_name() == pkg,
                    reg.entries() == pushed_all(start, imports.take(i as int).flatten()),
                decreases n - i,
            {
                proof {
                    let ghost its = t.items_types;
                    assert(decreases_to!(*v => *t));
                    assert(decreases_to!(*t => its));
                    assert(decreases_to!(its => its@));
                    assert(decreases_to!(its@ => its@[i as int]));
                    assert(ints_annotated(its@[i as int]));
                }
                let ghost before_reg = reg.entries();
                let text = gen_typings(&t.items_types[i], reg);
                let ghost before = parts@;
                parts.push(text);
                proof {
                    assert(views(parts@) =~= views(before).push(text@));
                    assert(texts.take(i + 1) =~= texts.take(i as int).push(texts[i as int]));
                    assert(imports.take(i + 1) =~= imports.take(i as int).push(imports[i as int]));
                    imports.take(i as int).lemma_flatten_push(imports[i as int]);
                    lemma_pushed_all_concat(start, imports.take(i as int).flatten(), imports[i as int]);
                }
                i = i + 1;
            }
            assert(texts.take(n as int) =~= texts);
            assert(imports.take(n as int) =~= imports);
            import_from_typing(reg, "Tuple");
            proof {
                lemma_pushed_all_concat(start, imports.flatten(), seq![("typing"@, Some("Tuple"@))]);
            }
            let joined = join_strings(&parts, ", ");
            cat3("Tuple[", joined.as_str(), "]")
        },
    }
}

/// The lines of each item of a tuple are those of the item at its index.
pub proof fn lemma_ser_blocks(items: Seq<ValueType>, p: AccessPath)
    ensures
        ser_blocks(items, p).len() == items.len(),
        forall|i: int|
            0 <= i < items.len() ==> #[trigger] ser_blocks(items, p)[i] == ser_lines(
                items[i],
                index_step(p, i as nat),
            ),
{
}

/// The checks of each item of a tuple are those of the item at its index.
pub proof fn lemma_check_blocks(items: Seq<ValueType>, p: AccessPath)
    ensures
        check_blocks(items, p).len() == items.len(),
        forall|i: int|
            0 <= i < items.len() ==> #[trigger] check_blocks(items, p)[i] == check_lines(
                items[i],
                index_step(p, i as nat),
            ),
{
}

/// The expressions of each item of a tuple are those of the item.
pub proof fn lemma_des_items(items: Seq<ValueType>)
    ensures
        des_items(items).len() == items.len(),
        forall|i: int|
            0 <= i < items.len() ==> #[trigger] des_items(items)[i] == des_text(
                items[i],
                Seq::<char>::empty(),
            ),
{
}

/// The annotations of each item of a tuple are those of the item.
pub proof fn lemma_typing_items(items: Seq<ValueType>, package: Seq<char>)
    ensures
        typing_items(items).len() == items.len(),
        typing_import_items(items, package).len() == items.len(),
        forall|i: int|
            0 <= i < items.len() ==> #[trigger] typing_items(items)[i] == typing_text(items[i]),
        forall|i: int|
            0 <= i < items.len() ==> #[trigger] typing_import_items(items, package)[i]
                == typing_imports(items[i], package),
{
}

/// For an integer type, the line that serializes a value, the expression
/// that deserializes one and the bounds check all pass the same width
/// constant and the same sign flag; the width constant names the bits of
/// the type, eight for each byte, and the sign flag is Python's `True`
/// exactly when the type is signed.
pub proof fn law_integer_code_agrees(
    bytes: usize,
    signed: bool,
    zero_able: bool,
    p: AccessPath,
    fa: Seq<char>,
)
    ensures
        ({
            let v = ValueType::Number(NumberMeta::Integer { bytes, signed, zero_able });
            let w = "U"@ + decimal(8 * bytes as nat) + "_BYTES"@;
            let sg = if signed {
                "True"@
            } else {
                "False"@
            };
            &&& ser_lines(v, p) == seq!["s.serialize_number("@ + w + ", "@ + sg + ", "@ + p.1 + ")"@]
            &&& des_text(v, fa) == fa + "d.deserialize_number("@ + w + ", "@ + sg + ")"@
            &&& check_lines(v, p).len() == 2
            &&& check_lines(v, p)[1] == "assert check_bounds("@ + w + ", "@ + sg + ", "@ + p.1
                + "), \"{} does not fit into an {}\".format("@ + p.1 + ", "@ + w + ")"@
        }),
{
}

/// A range is serialized bound by bound, its start before its stop, and
/// checked in the same order; it is deserialized as `range(a, b)`, whose
/// first argument Python takes as the start and whose second as the stop,
/// so the bound read first becomes the start.
pub proof fn law_range_bounds_in_order(m: RangeMeta, p: AccessPath, fa: Seq<char>)
    ensures
        ser_lines(ValueType::Range(m), p) == ser_lines(*m.bounds_type, field_step(p, "start"@))
            + ser_lines(*m.bounds_type, field_step(p, "stop"@)),
        check_lines(ValueType::Range(m), p) == seq![isinstance_line(p.1, "range"@, "a range"@)]
            + check_lines(*m.bounds_type, field_step(p, "start"@)) + check_lines(
            *m.bounds_type,
            field_step(p, "stop"@),
        ),
        des_text(ValueType::Range(m), fa) == fa + "range("@ + des_text(
            *m.bounds_type,
            Seq::<char>::empty(),
        ) + ", "@ + des_text(*m.bounds_type, Seq::<char>::empty()) + ")"@,
{
}

/// An optional value is written as a tag, one tag followed by the inner
/// value where the value is present and another tag alone where it is
/// absent; it is read back as `None` exactly when the tag read equals the
/// tag written for an absent value, and as the inner value otherwise.
pub proof fn law_optional_tags(m: OptionalMeta, p: AccessPath, fa: Seq<char>)
    ensures
        ({
            let v = ValueType::Optional(m);
            let write_tag = "s.serialize_number(U32_BYTES, False, "@;
            let read_tag = "d.deserialize_number(U32_BYTES, False)"@;
            let some_tag = "1"@;
            let none_tag = "0"@;
            &&& some_tag != none_tag
            &&& ser_lines(v, p) == seq!["if "@ + p.1 + " is not None:"@] + indented(
                seq![write_tag + some_tag + ")"@] + ser_lines(*m.inner, p),
            ) + seq!["else:"@] + indented(seq![write_tag + none_tag + ")"@])
            &&& des_text(v, fa) == fa + "None if "@ + read_tag + " == "@ + none_tag + " else "@
                + des_text(*m.inner, Seq::<char>::empty())
        }),
{
    reveal_strlit("s.serialize_number(U32_BYTES, False, ");
    reveal_strlit("s.serialize_number(U32_BYTES, False, 1)");
    reveal_strlit("s.serialize_number(U32_BYTES, False, 0)");
    reveal_strlit("d.deserialize_number(U32_BYTES, False)");
    reveal_strlit("None if d.deserialize_number(U32_BYTES, False) == 0 else ");
    reveal_strlit("None if ");
    reveal_strlit(" == ");
    reveal_strlit(" else ");
    reveal_strlit("1");
    reveal_strlit("0");
    reveal_strlit(")");
    let write_tag = "s.serialize_number(U32_BYTES, False, "@;
    let read_tag = "d.deserialize_number(U32_BYTES, False)"@;
    assert("1"@ != "0"@) by {
        assert("1"@[0] != "0"@[0]);
    }
    assert(write_tag + "1"@ + ")"@ =~= "s.serialize_number(U32_BYTES, False, 1)"@);
    assert(write_tag + "0"@ + ")"@ =~= "s.serialize_number(U32_BYTES, False, 0)"@);
    assert("None if "@ + read_tag + " == "@ + "0"@ + " else "@
        =~= "None if d.deserialize_number(U32_BYTES, False) == 0 else "@);
    let inner_des = des_text(*m.inner, Seq::<char>::empty());
    assert(fa + "None if "@ + read_tag + " == "@ + "0"@ + " else "@ + inner_des =~= fa + (
    "None if "@ + read_tag + " == "@ + "0"@ + " else "@) + inner_des);
}

/// A floating point number is written and read with the same width
/// constant, eight bits for each byte, and checked to be a float.
pub proof fn law_float_code_agrees(bytes: usize, p: AccessPath, fa: Seq<char>)
    ensures
        ({
            let v = ValueType::Number(NumberMeta::FloatingPoint { bytes });
            let w = "U"@ + decimal(8 * bytes as nat) + "_BYTES"@;
            &&& ser_lines(v, p) == seq!["s.serialize_number_float("@ + w + ", "@ + p.1 + ")"@]
            &&& des_text(v, fa) == fa + "d.deserialize_number_float("@ + w + ")"@
            &&& check_lines(v, p) == seq![isinstance_line(p.1, "float"@, "a float"@)]
        }),
{
}

/// A boolean and a string are each written and read by the operation of
/// their own kind and checked to be of the Python type of that kind; a
/// string of bounded length is checked against that bound.
pub proof fn law_bool_string_code_agrees(b: BoolMeta, m: StringMeta, p: AccessPath, fa: Seq<char>)
    ensures
        ser_lines(ValueType::Bool(b), p) == seq!["s.serialize_bool("@ + p.1 + ")"@],
        des_text(ValueType::Bool(b), fa) == fa + "d.deserialize_bool()"@,
        check_lines(ValueType::Bool(b), p) == seq![isinstance_line(p.1, "bool"@, "a bool"@)],
        ser_lines(ValueType::String(m), p) == seq!["s.serialize_string("@ + p.1 + ")"@],
        des_text(ValueType::String(m), fa) == fa + "d.deserialize_string()"@,
        check_lines(ValueType::String(m), p)[0] == isinstance_line(p.1, "str"@, "a string"@),
        check_lines(ValueType::String(m), p).len() == if m.max_length is Some { 2int } else { 1int },
        m.max_length matches Some(n) ==> check_lines(ValueType::String(m), p)[1] == len_line(
            p.1,
            "<="@,
            n as nat,
            "{} has a length greater than {}"@,
        ),
{
}

/// A reference to a container is written, read and checked by the
/// functions generated for that container, all three named by the same
/// identifier.
pub proof fn law_object_code_agrees(m: ObjectMeta, p: AccessPath, fa: Seq<char>)
    ensures
        ({
            let id = object_ident(m);
            &&& ser_lines(ValueType::Object(m), p) == seq!["serialize_"@ + id + "(s, "@ + p.1 + ")"@]
            &&& des_text(ValueType::Object(m), fa) == fa + "deserialize_"@ + id + "(d)"@
            &&& check_lines(ValueType::Object(m), p) == seq!["assert_"@ + id + "("@ + p.1 + ")"@]
        }),
{
}

/// An array is written with the lines of its item type applied to each
/// item, and read with the expression of its item type, both with the
/// same fixed length, if any; a fixed length is also checked.
pub proof fn law_array_code_agrees(m: ArrayMeta, p: AccessPath, fa: Seq<char>)
    ensures
        ser_lines(ValueType::Array(m), p) == inlined(
            "s.serialize_array(lambda s, v: "@,
            ser_lines(*m.items_type, var_path("v"@)),
            ", "@ + p.1 + ", "@ + opt_num(m.length) + ")"@,
        ),
        des_text(ValueType::Array(m), fa) == fa + "d.deserialize_array(lambda d: "@ + des_text(
            *m.items_type,
            Seq::<char>::empty(),
        ) + ", "@ + opt_num(m.length) + ")"@,
        check_lines(ValueType::Array(m), p)[0] == isinstance_line(p.1, "list"@, "a list"@),
        m.length matches Some(n) ==> check_lines(ValueType::Array(m), p)[1] == len_line(
            p.1,
            "=="@,
            n as nat,
            "{} has not a length of {}"@,
        ),
{
}

/// A map is written entry by entry, the key before the value, and read
/// back the same way, the key's expression before the value's.
pub proof fn law_map_key_before_value(m: MapMeta, p: AccessPath, fa: Seq<char>)
    ensures
        ser_lines(ValueType::Mapping(m), p) == glue(
            inlined(
                "s.serialize_map(lambda s, k, v: ("@,
                ser_lines(*m.key_type, var_path("k"@)),
                ", "@,
            ),
            inlined(""@, ser_lines(*m.value_type, var_path("v"@)), "), "@ + p.1 + ")"@),
        ),
        des_text(ValueType::Mapping(m), fa) == fa + "d.deserialize_map((lambda d: ("@ + des_text(
            *m.key_type,
            Seq::<char>::empty(),
        ) + ", "@ + des_text(*m.value_type, Seq::<char>::empty()) + ")))"@,
{
}

/// A tuple is written item by item in the order of its items, item `i` at
/// the index `i` of the value, read by a tuple of expressions whose `i`-th
/// reads item `i`, and checked item by item in the same order after its
/// length is checked.
pub proof fn law_tuple_items_in_order(t: TupleMeta, p: AccessPath, fa: Seq<char>)
    ensures
        ({
            let f = t.items_types@;
            let ser = Seq::new(f.len(), |i: int| ser_lines(f[i], index_step(p, i as nat)));
            let des = Seq::new(f.len(), |i: int| des_text(f[i], Seq::<char>::empty()));
            let chk = Seq::new(f.len(), |i: int| check_lines(f[i], index_step(p, i as nat)));
            &&& ser_lines(ValueType::Tuple(t), p) == ser.flatten()
            &&& des_text(ValueType::Tuple(t), fa) == fa + "("@ + join_seq(des, ", "@) + ")"@
            &&& check_lines(ValueType::Tuple(t), p) == seq![
                isinstance_line(p.1, "tuple"@, "a tuple"@),
                len_line(p.1, "=="@, f.len(), "{} is not of length {}"@),
            ] + chk.flatten()
        }),
{
    let f = t.items_types@;
    lemma_ser_blocks(f, p);
    lemma_des_items(f);
    lemma_check_blocks(f, p);
    assert(ser_blocks(f, p) =~= Seq::new(f.len(), |i: int| ser_lines(f[i], index_step(p, i as nat))));
    assert(des_items(f) =~= Seq::new(f.len(), |i: int| des_text(f[i], Seq::<char>::empty())));
    assert(check_blocks(f, p) =~= Seq::new(
        f.len(),
        |i: int| check_lines(f[i], index_step(p, i as nat)),
    ));
}

/// The annotation of an integer of 1, 2, 4 or 8 bytes is `i` for a signed
/// type or `u` for an unsigned one, followed by the same number of bits as
/// the width constant with which it is written and read.
pub proof fn law_integer_annotation(bytes: usize, signed: bool, zero_able: bool)
    requires
        bytes == 1 || bytes == 2 || bytes == 4 || bytes == 8,
    ensures
        ({
            let t = typing_text(ValueType::Number(NumberMeta::Integer { bytes, signed, zero_able }));
            &&& t.len() >= 2
            &&& t[0] == if signed {
                'i'
            } else {
                'u'
            }
            &&& t.drop_first() == decimal(8 * bytes as nat)
        }),
{
    reveal_strlit("i");
    reveal_strlit("u");
    reveal_strlit("8");
    reveal_strlit("16");
    reveal_strlit("32");
    reveal_strlit("64");
    let d = decimal(8 * bytes as nat);
    if bytes == 1 {
        assert(d =~= "8"@);
    } else if bytes == 2 {
        assert(decimal(1) =~= seq!['1']);
        assert(d =~= "16"@);
    } else if bytes == 4 {
        assert(decimal(3) =~= seq!['3']);
        assert(d =~= "32"@);
    } else {
        assert(decimal(6) =~= seq!['6']);
        assert(d =~= "64"@);
    }
    let t = typing_text(ValueType::Number(NumberMeta::Integer { bytes, signed, zero_able }));
    let sg = if signed {
        "i"@
    } else {
        "u"@
    };
    assert(t == sg + int_bits(bytes));
    assert(t.drop_first() =~= int_bits(bytes));
}

/// The annotation of a sequence, a map or an optional value is built from
/// the annotations of its item, key and value, or present value; a range
/// and a tuple are annotated as such.
pub proof fn law_nested_annotations(v: ValueType)
    ensures
        match v {
            ValueType::Array(m) => typing_text(v) == "list["@ + typing_text(*m.items_type) + "]"@,
            ValueType::Mapping(m) => typing_text(v) == "dict["@ + typing_text(*m.key_type) + ", "@
                + typing_text(*m.value_type) + "]"@,
            ValueType::Optional(m) => typing_text(v) == "Optional["@ + typing_text(*m.inner) + "]"@,
            ValueType::Range(_) => typing_text(v) == "range"@,
            ValueType::Tuple(t) => typing_text(v) == "Tuple["@ + join_seq(
                Seq::new(t.items_types@.len(), |i: int| typing_text(t.items_types@[i])),
                ", "@,
            ) + "]"@,
            _ => true,
        },
{
    if let ValueType::Tuple(t) = v {
        lemma_typing_items(t.items_types@, Seq::<char>::empty());
        assert(typing_items(t.items_types@) =~= Seq::new(
            t.items_types@.len(),
            |i: int| typing_text(t.items_types@[i]),
        ));
    }
}

} // verus!
