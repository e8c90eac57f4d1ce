//! The bodies of the generated functions and classes of each container.
use vstd::prelude::*;
use vstd::string::*;

use crate::code_gen::python::code::{
    append_lines, blank_joined, cat, cat3, indent_block, indented, one_line,
};
use crate::code_gen::python::imports::{
    lemma_pushed_all_concat, lemma_pushed_all_one, pushed_all, ImportItem, ImportRegistry, Package,
};
use crate::code_gen::python::types::{
    gen_typings, ints_annotated, lemma_typing_items, typing_import_items, typing_imports,
    typing_items, typing_text,
    lemma_check_blocks, lemma_des_items, lemma_ser_blocks, des_items, index_step,
    check_blocks, check_lines, des_text, field_step, gen_des_accessor, gen_ser_accessor,
    gen_ty_check, ser_blocks, ser_lines, tuples_nonempty, var_path, variable, with_field,
    with_index, AccessPath, FieldAccessor,
};
use crate::code_gen::utils::{without_crate, ContainerFullQualifiedTypeBuilder};
use crate::code_gen::variable_path::{
    decimal, decimal_string, lemma_decimal_injective, VariableAccess, VariablePath,
};
use crate::path::spec_path_parts;
use crate::registry::{
    indices_in_order, BindingType, ContainerInfo, EnumType, EnumVariant, EnumVariantType,
    StructField, StructType, TupleStructType,
};
use crate::text::{join_seq, join_strings, views};
use crate::type_info::ValueType;

verus! {

broadcast use vstd::seq_lib::group_seq_properties;

/// The qualified name of a container in the generated package: its module
/// path without the crate's name and its name, joined by `.`.
pub open spec fn qualified(info: ContainerInfo) -> Seq<char> {
    join_seq(without_crate(spec_path_parts(info.path@)).push(info.name@), "."@)
}

/// The qualified name of a container.
fn qualified_string(info: &ContainerInfo) -> (r: String)
    ensures
        r@ == qualified(*info),
{
    ContainerFullQualifiedTypeBuilder::from_info(info).build()
}

/// One branch of a chain of `if`s: the header with its condition, then the
/// body, indented.
pub open spec fn branch(first: bool, condition: Seq<char>, body: Seq<Seq<char>>) -> Seq<Seq<char>> {
    seq![(if first {
        "if "@
    } else {
        "elif "@
    }) + condition + ":"@] + indented(body)
}

/// A chain of `if` and `elif` over the cases, each a condition and a body,
/// ending in `else` with the fallback; without cases the fallback stands
/// under a bare `if:`.
pub open spec fn branched(cases: Seq<(Seq<char>, Seq<Seq<char>>)>, fallback: Seq<Seq<char>>) -> Seq<
    Seq<char>,
> {
    Seq::new(cases.len(), |i: int| branch(i == 0, cases[i].0, cases[i].1)).flatten() + seq![
        if cases.len() == 0 {
            "if:"@
        } else {
            "else:"@
        },
    ] + indented(fallback)
}

/// The chain of `if`s over the conditions and bodies, with the fallback.
pub(crate) fn if_branched(conditions: Vec<String>, bodies: Vec<Vec<String>>, fallback: Vec<String>) -> (r: Vec<
    String,
>)
    requires
        conditions@.len() == bodies@.len(),
    ensures
        views(r@) == branched(
            Seq::new(
                conditions@.len(),
                |i: int| (conditions@[i]@, views(bodies@[i]@)),
            ),
            views(fallback@),
        ),
{
    let ghost cases = Seq::new(
        conditions@.len(),
        |i: int| (conditions@[i]@, views(bodies@[i]@)),
    );
    let ghost blocks = Seq::new(cases.len(), |i: int| branch(i == 0, cases[i].0, cases[i].1));
    let n = conditions.len();
    let mut r: Vec<String> = Vec::new();
    let mut i: usize = 0;
    while i < n
        invariant
            n == conditions@.len(),
            n == bodies@.len(),
            cases == Seq::new(n as nat, |i: int| (conditions@[i]@, views(bodies@[i]@))),
            blocks == Seq::new(cases.len(), |i: int| branch(i == 0, cases[i].0, cases[i].1)),
            i <= n,
            views(r@) == blocks.take(i as int).flatten(),
        decreases n - i,
    {
        let keyword = if i == 0 {
            "if "
        } else {
            "elif "
        };
        let mut b = one_line(cat3(keyword, conditions[i].as_str(), ":"));
        let body = bodies[i].clone();
        assert(views(body@) == views(bodies@[i as int]@)) by {
            assert(body@ == bodies@[i as int]@);
        }
        append_lines(&mut b, indent_block(body));
        assert(views(b@) == blocks[i as int]);
        append_lines(&mut r, b);
        proof {
            assert(blocks.take(i + 1) =~= blocks.take(i as int).push(blocks[i as int]));
            blocks.take(i as int).lemma_flatten_push(blocks[i as int]);
        }
        i = i + 1;
    }
    assert(blocks.take(n as int) =~= blocks);
    let last = if n == 0 {
        "if:"
    } else {
        "else:"
    };
    append_lines(&mut r, one_line(String::from_str(last)));
    append_lines(&mut r, indent_block(fallback));
    r
}

/// The lines that serialize each named field of `v`, with the serializer
/// `s`.
pub open spec fn field_ser_blocks(fields: Seq<StructField>) -> Seq<Seq<Seq<char>>> {
    Seq::new(
        fields.len(),
        |i: int| ser_lines(fields[i].v_type, field_step(var_path("v"@), fields[i].name@)),
    )
}

/// Whether every value type of the named fields has no empty tuple.
pub open spec fn fields_ready(fields: Seq<StructField>) -> bool {
    forall|i: int| 0 <= i < fields.len() ==> tuples_nonempty(#[trigger] fields[i].v_type)
}

/// Whether every value type of the unnamed fields has no empty tuple.
pub open spec fn values_ready(fields: Seq<ValueType>) -> bool {
    forall|i: int| 0 <= i < fields.len() ==> tuples_nonempty(#[trigger] fields[i])
}

/// The lines that serialize each named field.
fn gen_field_ser(fields: &Vec<StructField>) -> (r: Vec<String>)
    requires
        fields_ready(fields@),
    ensures
        views(r@) == field_ser_blocks(fields@).flatten(),
{
    let ghost blocks = field_ser_blocks(fields@);
    let n = fields.len();
    let mut r: Vec<String> = Vec::new();
    let mut i: usize = 0;
    while i < n
        invariant
            n == fields@.len(),
            fields_ready(fields@),
            blocks == field_ser_blocks(fields@),
            i <= n,
            views(r@) == blocks.take(i as int).flatten(),
        decreases n - i,
    {
        let f = &fields[i];
        let p = with_field(&variable("v"), f.name);
        let b = gen_ser_accessor(&f.v_type, p);
        append_lines(&mut r, b);
        proof {
            assert(blocks.take(i + 1) =~= blocks.take(i as int).push(blocks[i as int]));
            blocks.take(i as int).lemma_flatten_push(blocks[i as int]);
        }
        i = i + 1;
    }
    assert(blocks.take(n as int) =~= blocks);
    r
}

/// The lines that serialize each unnamed field of `v`.
fn gen_values_ser(fields: &Vec<ValueType>) -> (r: Vec<String>)
    requires
        values_ready(fields@),
    ensures
        views(r@) == ser_blocks(fields@, var_path("v"@)).flatten(),
{
    let ghost blocks = ser_blocks(fields@, var_path("v"@));
    proof {
        lemma_ser_blocks(fields@, var_path("v"@));
    }
    let n = fields.len();
    let mut r: Vec<String> = Vec::new();
    let mut i: usize = 0;
    while i < n
        invariant
            n == fields@.len(),
            values_ready(fields@),
            blocks == ser_blocks(fields@, var_path("v"@)),
            blocks.len() == n,
            forall|k: int|
                0 <= k < n ==> #[trigger] blocks[k] == ser_lines(
                    fields@[k],
                    index_step(var_path("v"@), k as nat),
                ),
            i <= n,
            views(r@) == blocks.take(i as int).flatten(),
        decreases n - i,
    {
        let b = gen_ser_accessor(&fields[i], with_index(&variable("v"), i));
        append_lines(&mut r, b);
        proof {
            assert(blocks.take(i + 1) =~= blocks.take(i as int).push(blocks[i as int]));
            blocks.take(i as int).lemma_flatten_push(blocks[i as int]);
        }
        i = i + 1;
    }
    assert(blocks.take(n as int) =~= blocks);
    r
}

/// Whether the fields of an enum variant can be generated: a variant with
/// fields has at least one, and no empty tuple.
pub open spec fn variant_ready(v: EnumVariant) -> bool {
    match v.inner_type {
        EnumVariantType::Empty => true,
        EnumVariantType::Tuple(f) => f@.len() > 0 && values_ready(f@),
        EnumVariantType::NewType(f) => f@.len() > 0 && fields_ready(f@),
    }
}

/// Whether the serialization code of a container can be generated: a
/// struct or tuple struct has at least one field, each variant of an enum
/// with fields has at least one, and no value type holds an empty tuple.
pub open spec fn ser_ready(ty: BindingType) -> bool {
    match ty {
        BindingType::Struct(s) => s.fields@.len() > 0 && fields_ready(s.fields@),
        BindingType::TupleStruct(t) => t.fields@.len() > 0 && values_ready(t.fields@),
        BindingType::UnitStruct(_) => true,
        BindingType::Enum(e) => forall|i: int|
            0 <= i < e.variants@.len() ==> variant_ready(#[trigger] e.variants@[i]),
    }
}

/// The condition that the value `v` is of the variant `var` of the enum
/// with the qualified name `q`.
pub open spec fn variant_condition(q: Seq<char>, var: EnumVariant) -> Seq<char> {
    "isinstance(v, "@ + q + "_"@ + var.name@ + ")"@
}

/// The lines that serialize a variant: its index, then its fields.
pub open spec fn variant_ser(var: EnumVariant) -> Seq<Seq<char>> {
    seq!["s.serialize_number(U32_BYTES, False, "@ + decimal(var.index as nat) + ")"@]
        + match var.inner_type {
        EnumVariantType::Empty => Seq::empty(),
        EnumVariantType::NewType(f) => field_ser_blocks(f@).flatten(),
        EnumVariantType::Tuple(f) => ser_blocks(f@, var_path("v"@)).flatten(),
    }
}

/// The body of the function that serializes the value `v` of a container
/// of kind `ty`, with the serializer `s`.
pub open spec fn ser_body(ty: BindingType, q: Seq<char>) -> Seq<Seq<char>> {
    match ty {
        BindingType::Struct(st) => field_ser_blocks(st.fields@).flatten(),
        BindingType::TupleStruct(t) => ser_blocks(t.fields@, var_path("v"@)).flatten(),
        BindingType::UnitStruct(_) => seq!["pass"@],
        BindingType::Enum(e) => branched(
            Seq::new(
                e.variants@.len(),
                |i: int|
                    (variant_condition(q, e.variants@[i]), variant_ser(e.variants@[i])),
            ),
            seq!["raise TypeError(\"variant {} not exists\".format(v))"@],
        ),
    }
}

/// The lines that serialize a variant.
fn gen_variant_ser(var: &EnumVariant) -> (r: Vec<String>)
    requires
        variant_ready(*var),
    ensures
        views(r@) == variant_ser(*var),
{
    let index = decimal_string(var.index);
    let mut r = one_line(cat3("s.serialize_number(U32_BYTES, False, ", index.as_str(), ")"));
    match &var.inner_type {
        EnumVariantType::Empty => {},
        EnumVariantType::NewType(f) => append_lines(&mut r, gen_field_ser(f)),
        EnumVariantType::Tuple(f) => append_lines(&mut r, gen_values_ser(f)),
    }
    r
}

/// The body of the function that serializes a value of an enum.
fn gen_enum_ser(e: &EnumType, info: &ContainerInfo) -> (r: Vec<String>)
    requires
        forall|i: int| 0 <= i < e.variants@.len() ==> variant_ready(#[trigger] e.variants@[i]),
    ensures
        views(r@) == ser_body(BindingType::Enum(*e), qualified(*info)),
{
    let q = qualified_string(info);
    let n = e.variants.len();
    let mut conditions: Vec<String> = Vec::new();
    let mut bodies: Vec<Vec<String>> = Vec::new();
    let mut i: usize = 0;
    while i < n
        invariant
            n == e.variants@.len(),
            forall|i: int| 0 <= i < e.variants@.len() ==> variant_ready(#[trigger] e.variants@[i]),
            q@ == qualified(*info),
            i <= n,
            conditions@.len() == i,
            bodies@.len() == i,
            forall|k: int|
                0 <= k < i ==> #[trigger] conditions@[k]@ == variant_condition(
                    qualified(*info),
                    e.variants@[k],
                ) && views(bodies@[k]@) == variant_ser(e.variants@[k]),
        decreases n - i,
    {
        let var = &e.variants[i];
        assert(variant_ready(e.variants@[i as int]));
        let c = cat3(cat3("isinstance(v, ", q.as_str(), "_").as_str(), var.name, ")");
        assert(c@ =~= variant_condition(qualified(*info), e.variants@[i as int]));
        conditions.push(c);
        bodies.push(gen_variant_ser(var));
        i = i + 1;
    }
    let fallback = one_line(String::from_str("raise TypeError(\"variant {} not exists\".format(v))"));
    let r = if_branched(conditions, bodies, fallback);
    proof {
        let cases = Seq::new(
            conditions@.len(),
            |i: int| (conditions@[i]@, views(bodies@[i]@)),
        );
        assert(cases =~= Seq::new(
            e.variants@.len(),
            |i: int|
                (variant_condition(qualified(*info), e.variants@[i]), variant_ser(e.variants@[i])),
        ));
    }
    r
}

/// The body of the function that serializes the value `v` of a container
/// of kind `ty`.
pub fn gen_ser_body(ty: &BindingType, info: &ContainerInfo) -> (r: Vec<String>)
    requires
        ser_ready(*ty),
    ensures
        views(r@) == ser_body(*ty, qualified(*info)),
{
    match ty {
        BindingType::Struct(st) => gen_field_ser(&st.fields),
        BindingType::TupleStruct(t) => gen_values_ser(&t.fields),
        BindingType::UnitStruct(_) => one_line(String::from_str("pass")),
        BindingType::Enum(e) => gen_enum_ser(e, info),
    }
}

/// The expressions that deserialize each named field, as arguments by name.
pub open spec fn named_des(fields: Seq<StructField>) -> Seq<Seq<char>> {
    Seq::new(fields.len(), |i: int| des_text(fields[i].v_type, fields[i].name@ + " = "@))
}

/// The arguments of the constructor of a variant.
pub open spec fn variant_args(var: EnumVariant) -> Seq<char> {
    match var.inner_type {
        EnumVariantType::Empty => Seq::empty(),
        EnumVariantType::NewType(f) => join_seq(named_des(f@), ", "@),
        EnumVariantType::Tuple(f) => join_seq(des_items(f@), ", "@),
    }
}

/// The condition and the body of the case of a variant in the function that
/// deserializes a value of the enum with the qualified name `q`.
pub open spec fn des_case(q: Seq<char>, var: EnumVariant) -> (Seq<char>, Seq<Seq<char>>) {
    (
        "variant_index == "@ + decimal(var.index as nat),
        seq!["return "@ + q + "_"@ + var.name@ + "("@ + variant_args(var) + ")"@],
    )
}

/// The body of the function that deserializes a value of a container of
/// kind `ty` from the deserializer `d`.
pub open spec fn des_body(ty: BindingType, q: Seq<char>) -> Seq<Seq<char>> {
    match ty {
        BindingType::Struct(st) => seq![
            "return "@ + q + "("@ + join_seq(named_des(st.fields@), ", "@) + ")"@,
        ],
        BindingType::TupleStruct(t) => seq![
            "return "@ + q + "("@ + join_seq(des_items(t.fields@), ", "@) + ")"@,
        ],
        BindingType::UnitStruct(_) => seq!["return "@ + q + "()"@],
        BindingType::Enum(e) => seq!["variant_index = d.deserialize_number(U32_BYTES, False)"@]
            + branched(
            Seq::new(e.variants@.len(), |i: int| des_case(q, e.variants@[i])),
            seq!["raise TypeError(\"variant index {} not exists\".format(variant_index))"@],
        ),
    }
}

/// The arguments that deserialize each named field, joined by `, `.
fn gen_named_des(fields: &Vec<StructField>) -> (r: String)
    ensures
        r@ == join_seq(named_des(fields@), ", "@),
{
    let ghost texts = named_des(fields@);
    let n = fields.len();
    let mut parts: Vec<String> = Vec::new();
    let mut i: usize = 0;
    while i < n
        invariant
            n == fields@.len(),
            texts == named_des(fields@),
            i <= n,
            views(parts@) == texts.take(i as int),
        decreases n - i,
    {
        let f = &fields[i];
        let d = gen_des_accessor(&f.v_type, FieldAccessor::Object(f.name));
        let ghost before = parts@;
        parts.push(d);
        assert(views(parts@) =~= views(before).push(d@));
        assert(texts.take(i + 1) =~= texts.take(i as int).push(texts[i as int]));
        i = i + 1;
    }
    assert(texts.take(n as int) =~= texts);
    join_strings(&parts, ", ")
}

/// The arguments that deserialize each unnamed field, joined by `, `.
fn gen_values_des(fields: &Vec<ValueType>) -> (r: String)
    ensures
        r@ == join_seq(des_items(fields@), ", "@),
{
    let ghost texts = des_items(fields@);
    proof {
        lemma_des_items(fields@);
    }
    let n = fields.len();
    let mut parts: Vec<String> = Vec::new();
    let mut i: usize = 0;
    while i < n
        invariant
            n == fields@.len(),
            texts == des_items(fields@),
            texts.len() == n,
            forall|k: int|
                0 <= k < n ==> #[trigger] texts[k] == des_text(fields@[k], Seq::<char>::empty()),
            i <= n,
            views(parts@) == texts.take(i as int),
        decreases n - i,
    {
        let d = gen_des_accessor(&fields[i], FieldAccessor::Plain);
        let ghost before = parts@;
        parts.push(d);
        assert(views(parts@) =~= views(before).push(d@));
        assert(texts.take(i + 1) =~= texts.take(i as int).push(texts[i as int]));
        i = i + 1;
    }
    assert(texts.take(n as int) =~= texts);
    join_strings(&parts, ", ")
}

/// The arguments of the constructor of a variant.
fn gen_variant_args(var: &EnumVariant) -> (r: String)
    ensures
        r@ == variant_args(*var),
{
    match &var.inner_type {
        EnumVariantType::Empty => String::new(),
        EnumVariantType::NewType(f) => gen_named_des(f),
        EnumVariantType::Tuple(f) => gen_values_des(f),
    }
}

/// The condition and the body of the case of a variant in the function that
/// deserializes a value of the enum with the qualified name `q`.
fn gen_des_case(q: &str, var: &EnumVariant) -> (r: (String, Vec<String>))
    ensures
        (r.0@, views(r.1@)) == des_case(q@, *var),
{
    let c = cat("variant_index == ", decimal_string(var.index).as_str());
    let args = gen_variant_args(var);
    let line = cat3(
        cat3("return ", q, "_").as_str(),
        cat(var.name, "(").as_str(),
        cat(args.as_str(), ")").as_str(),
    );
    assert(line@ =~= "return "@ + q@ + "_"@ + var.name@ + "("@ + variant_args(*var) + ")"@);
    (c, one_line(line))
}

/// The body of the function that deserializes a value of an enum.
fn gen_enum_des(e: &EnumType, info: &ContainerInfo) -> (r: Vec<String>)
    ensures
        views(r@) == des_body(BindingType::Enum(*e), qualified(*info)),
{
    let q = qualified_string(info);
    let n = e.variants.len();
    let mut conditions: Vec<String> = Vec::new();
    let mut bodies: Vec<Vec<String>> = Vec::new();
    let mut i: usize = 0;
    while i < n
        invariant
            n == e.variants@.len(),
            q@ == qualified(*info),
            i <= n,
            conditions@.len() == i,
            bodies@.len() == i,
            forall|k: int|
                0 <= k < i ==> (#[trigger] conditions@[k]@, views(bodies@[k]@)) == des_case(
                    qualified(*info),
                    e.variants@[k],
                ),
        decreases n - i,
    {
        let (c, b) = gen_des_case(q.as_str(), &e.variants[i]);
        let ghost before_c = conditions@;
        let ghost before_b = bodies@;
        conditions.push(c);
        bodies.push(b);
        assert forall|k: int| 0 <= k < i + 1 implies (
            #[trigger] conditions@[k]@,
            views(bodies@[k]@),
        ) == des_case(qualified(*info), e.variants@[k]) by {
            if k < i {
                assert(conditions@[k] == before_c[k] && bodies@[k] == before_b[k]);
            }
        }
        i = i + 1;
    }
    let fallback = one_line(
        String::from_str("raise TypeError(\"variant index {} not exists\".format(variant_index))"),
    );
    let mut r = one_line(String::from_str("variant_index = d.deserialize_number(U32_BYTES, False)"));
    let chain = if_branched(conditions, bodies, fallback);
    proof {
        let cases = Seq::new(
            conditions@.len(),
            |i: int| (conditions@[i]@, views(bodies@[i]@)),
        );
        assert(cases =~= Seq::new(
            e.variants@.len(),
            |i: int| des_case(qualified(*info), e.variants@[i]),
        ));
    }
    append_lines(&mut r, chain);
    r
}

/// The body of the function that deserializes a value of a container of
/// kind `ty`.
pub fn gen_des_body(ty: &BindingType, info: &ContainerInfo) -> (r: Vec<String>)
    ensures
        views(r@) == des_body(*ty, qualified(*info)),
{
    let q = qualified_string(info);
    match ty {
        BindingType::Struct(st) => {
            let args = gen_named_des(&st.fields);
            let line = cat3(cat3("return ", q.as_str(), "(").as_str(), args.as_str(), ")");
            assert(line@ =~= "return "@ + qualified(*info) + "("@ + join_seq(named_des(st.fields@), ", "@)
                + ")"@);
            one_line(line)
        },
        BindingType::TupleStruct(t) => {
            let args = gen_values_des(&t.fields);
            let line = cat3(cat3("return ", q.as_str(), "(").as_str(), args.as_str(), ")");
            assert(line@ =~= "return "@ + qualified(*info) + "("@ + join_seq(des_items(t.fields@), ", "@)
                + ")"@);
            one_line(line)
        },
        BindingType::UnitStruct(_) => one_line(cat3("return ", q.as_str(), "()")),
        BindingType::Enum(e) => gen_enum_des(e, info),
    }
}

/// Whether the type checks of a container can be generated: as for its
/// serialization, and an enum has at least one variant.
pub open spec fn check_ready(ty: BindingType) -> bool {
    ser_ready(ty) && match ty {
        BindingType::Enum(e) => e.variants@.len() > 0,
        _ => true,
    }
}

/// The checks of each named field of `v`.
pub open spec fn field_check_blocks(fields: Seq<StructField>) -> Seq<Seq<Seq<char>>> {
    Seq::new(
        fields.len(),
        |i: int| check_lines(fields[i].v_type, field_step(var_path("v"@), fields[i].name@)),
    )
}

/// The helper that checks the fields of a variant.
pub open spec fn variant_check_fn(var: EnumVariant) -> Seq<Seq<char>> {
    seq!["def assert_"@ + var.name@ + "(v):"@] + indented(
        match var.inner_type {
            EnumVariantType::Empty => seq!["pass"@],
            EnumVariantType::NewType(f) => field_check_blocks(f@).flatten(),
            EnumVariantType::Tuple(f) => check_blocks(f@, var_path("v"@)).flatten(),
        },
    )
}

/// The body of the function that checks that the value `v` is of a
/// container of kind `ty`.
pub open spec fn check_body(ty: BindingType, q: Seq<char>) -> Seq<Seq<char>> {
    match ty {
        BindingType::Struct(st) => seq![
            "assert isinstance(v, "@ + q + "), \"{} is not of type {}\".format(v, "@ + q + ")"@,
        ] + field_check_blocks(st.fields@).flatten(),
        BindingType::TupleStruct(t) => seq![
            "assert isinstance(v, tuple), \"{} is not a tuple\".format("@ + q + ")"@,
            "assert len(v) == "@ + decimal(t.fields@.len()) + ", \"{} is not of length {}\".format("@
                + q + ", "@ + decimal(t.fields@.len()) + ")"@,
        ] + check_blocks(t.fields@, var_path("v"@)).flatten(),
        BindingType::UnitStruct(_) => seq!["assert isinstance(v, "@ + q + ")"@],
        BindingType::Enum(e) => Seq::new(
            e.variants@.len(),
            |i: int| variant_check_fn(e.variants@[i]),
        ).flatten() + seq![Seq::<char>::empty()] + branched(
            Seq::new(
                e.variants@.len(),
                |i: int|
                    (
                        variant_condition(q, e.variants@[i]),
                        seq!["assert_"@ + e.variants@[i].name@ + "(v)"@],
                    ),
            ),
            seq!["raise TypeError(\"variant {} not exists\".format(v))"@],
        ),
    }
}

/// The checks of each named field.
fn gen_field_checks(fields: &Vec<StructField>) -> (r: Vec<String>)
    requires
        fields_ready(fields@),
    ensures
        views(r@) == field_check_blocks(fields@).flatten(),
{
    let ghost blocks = field_check_blocks(fields@);
    let n = fields.len();
    let mut r: Vec<String> = Vec::new();
    let mut i: usize = 0;
    while i < n
        invariant
            n == fields@.len(),
            fields_ready(fields@),
            blocks == field_check_blocks(fields@),
            i <= n,
            views(r@) == blocks.take(i as int).flatten(),
        decreases n - i,
    {
        let f = &fields[i];
        let b = gen_ty_check(&f.v_type, with_field(&variable("v"), f.name));
        append_lines(&mut r, b);
        proof {
            assert(blocks.take(i + 1) =~= blocks.take(i as int).push(blocks[i as int]));
            blocks.take(i as int).lemma_flatten_push(blocks[i as int]);
        }
        i = i + 1;
    }
    assert(blocks.take(n as int) =~= blocks);
    r
}

/// The checks of each unnamed field.
fn gen_values_checks(fields: &Vec<ValueType>) -> (r: Vec<String>)
    requires
        values_ready(fields@),
    ensures
        views(r@) == check_blocks(fields@, var_path("v"@)).flatten(),
{
    let ghost blocks = check_blocks(fields@, var_path("v"@));
    proof {
        lemma_check_blocks(fields@, var_path("v"@));
    }
    let n = fields.len();
    let mut r: Vec<String> = Vec::new();
    let mut i: usize = 0;
    while i < n
        invariant
            n == fields@.len(),
            values_ready(fields@),
            blocks == check_blocks(fields@, var_path("v"@)),
            blocks.len() == n,
            forall|k: int|
                0 <= k < n ==> #[trigger] blocks[k] == check_lines(
                    fields@[k],
                    index_step(var_path("v"@), k as nat),
                ),
            i <= n,
            views(r@) == blocks.take(i as int).flatten(),
        decreases n - i,
    {
        let b = gen_ty_check(&fields[i], with_index(&variable("v"), i));
        append_lines(&mut r, b);
        proof {
            assert(blocks.take(i + 1) =~= blocks.take(i as int).push(blocks[i as int]));
            blocks.take(i as int).lemma_flatten_push(blocks[i as int]);
        }
        i = i + 1;
    }
    assert(blocks.take(n as int) =~= blocks);
    r
}

/// The helper that checks the fields of a variant.
fn gen_variant_check_fn(var: &EnumVariant) -> (r: Vec<String>)
    requires
        variant_ready(*var),
    ensures
        views(r@) == variant_check_fn(*var),
{
    let mut r = one_line(cat3("def assert_", var.name, "(v):"));
    let body = match &var.inner_type {
        EnumVariantType::Empty => one_line(String::from_str("pass")),
        EnumVariantType::NewType(f) => gen_field_checks(f),
        EnumVariantType::Tuple(f) => gen_values_checks(f),
    };
    append_lines(&mut r, indent_block(body));
    r
}

/// The body of the function that checks a value of an enum.
fn gen_enum_check(e: &EnumType, info: &ContainerInfo) -> (r: Vec<String>)
    requires
        forall|i: int| 0 <= i < e.variants@.len() ==> variant_ready(#[trigger] e.variants@[i]),
    ensures
        views(r@) == check_body(BindingType::Enum(*e), qualified(*info)),
{
    let q = qualified_string(info);
    let ghost fns = Seq::new(e.variants@.len(), |i: int| variant_check_fn(e.variants@[i]));
    let n = e.variants.len();
    let mut r: Vec<String> = Vec::new();
    let mut conditions: Vec<String> = Vec::new();
    let mut bodies: Vec<Vec<String>> = Vec::new();
    let mut i: usize = 0;
    while i < n
        invariant
            n == e.variants@.len(),
            forall|i: int| 0 <= i < e.variants@.len() ==> variant_ready(#[trigger] e.variants@[i]),
            fns == Seq::new(e.variants@.len(), |i: int| variant_check_fn(e.variants@[i])),
            q@ == qualified(*info),
            i <= n,
            views(r@) == fns.take(i as int).flatten(),
            conditions@.len() == i,
            bodies@.len() == i,
            forall|k: int|
                0 <= k < i ==> #[trigger] conditions@[k]@ == variant_condition(
                    qualified(*info),
                    e.variants@[k],
                ) && views(bodies@[k]@) == seq!["assert_"@ + e.variants@[k].name@ + "(v)"@],
        decreases n - i,
    {
        let var = &e.variants[i];
        assert(variant_ready(e.variants@[i as int]));
        let f = gen_variant_check_fn(var);
        append_lines(&mut r, f);
        proof {
            assert(fns.take(i + 1) =~= fns.take(i as int).push(fns[i as int]));
            fns.take(i as int).lemma_flatten_push(fns[i as int]);
        }
        let c = cat3(cat3("isinstance(v, ", q.as_str(), "_").as_str(), var.name, ")");
        assert(c@ =~= variant_condition(qualified(*info), e.variants@[i as int]));
        let b = one_line(cat3("assert_", var.name, "(v)"));
        let ghost before_c = conditions@;
        let ghost before_b = bodies@;
        conditions.push(c);
        bodies.push(b);
        assert(conditions@[i as int] == c);
        assert(bodies@[i as int] == b);
        assert forall|k: int| 0 <= k < i implies conditions@[k] == before_c[k] && bodies@[k]
            == before_b[k] by {}
        i = i + 1;
    }
    assert(fns.take(n as int) =~= fns);
    append_lines(&mut r, one_line(String::new()));
    let fallback = one_line(String::from_str("raise TypeError(\"variant {} not exists\".format(v))"));
    let chain = if_branched(conditions, bodies, fallback);
    proof {
        let cases = Seq::new(
            conditions@.len(),
            |i: int| (conditions@[i]@, views(bodies@[i]@)),
        );
        assert(cases =~= Seq::new(
            e.variants@.len(),
            |i: int|
                (
                    variant_condition(qualified(*info), e.variants@[i]),
                    seq!["assert_"@ + e.variants@[i].name@ + "(v)"@],
                ),
        ));
    }
    append_lines(&mut r, chain);
    r
}

/// The body of the function that checks that the value `v` is of a
/// container of kind `ty`.
pub fn gen_ty_check_body(ty: &BindingType, info: &ContainerInfo) -> (r: Vec<String>)
    requires
        check_ready(*ty),
    ensures
        views(r@) == check_body(*ty, qualified(*info)),
{
    let q = qualified_string(info);
    match ty {
        BindingType::Struct(st) => {
            let head = cat3(
                cat3("assert isinstance(v, ", q.as_str(), "), \"{} is not of type {}\".format(v, ").as_str(),
                q.as_str(),
                ")",
            );
            assert(head@ =~= "assert isinstance(v, "@ + qualified(*info)
                + "), \"{} is not of type {}\".format(v, "@ + qualified(*info) + ")"@);
            let mut r = one_line(head);
            append_lines(&mut r, gen_field_checks(&st.fields));
            r
        },
        BindingType::TupleStruct(t) => {
            let n = decimal_string(t.fields.len());
            let mut r = one_line(
                cat3("assert isinstance(v, tuple), \"{} is not a tuple\".format(", q.as_str(), ")"),
            );
            let second = cat3(
                cat3("assert len(v) == ", n.as_str(), ", \"{} is not of length {}\".format(").as_str(),
                q.as_str(),
                cat3(", ", n.as_str(), ")").as_str(),
            );
            assert(second@ =~= "assert len(v) == "@ + decimal(t.fields@.len())
                + ", \"{} is not of length {}\".format("@ + qualified(*info) + ", "@ + decimal(
                t.fields@.len(),
            ) + ")"@);
            append_lines(&mut r, one_line(second));
            append_lines(&mut r, gen_values_checks(&t.fields));
            r
        },
        BindingType::UnitStruct(_) => one_line(cat3("assert isinstance(v, ", q.as_str(), ")")),
        BindingType::Enum(e) => gen_enum_check(e, info),
    }
}

/// Whether the type annotations of the fields have a width each.
pub open spec fn fields_annotated(fields: Seq<StructField>) -> bool {
    forall|i: int| 0 <= i < fields.len() ==> ints_annotated(#[trigger] fields[i].v_type)
}

/// Whether the type annotations of the unnamed fields have a width each.
pub open spec fn values_annotated(fields: Seq<ValueType>) -> bool {
    forall|i: int| 0 <= i < fields.len() ==> ints_annotated(#[trigger] fields[i])
}

/// Whether the classes of a variant can be generated.
pub open spec fn variant_typed(v: EnumVariant) -> bool {
    match v.inner_type {
        EnumVariantType::Empty => true,
        EnumVariantType::Tuple(f) => f@.len() > 0 && values_annotated(f@),
        EnumVariantType::NewType(f) => f@.len() > 0 && fields_annotated(f@),
    }
}

/// Whether the classes of a container can be generated: a struct or tuple
/// struct has at least one field, an enum at least one variant and each
/// of its variants with fields at least one, and every integer type has a
/// width of 1, 2, 4 or 8 bytes.
pub open spec fn typings_ready(ty: BindingType) -> bool {
    match ty {
        BindingType::Struct(s) => s.fields@.len() > 0 && fields_annotated(s.fields@),
        BindingType::TupleStruct(t) => t.fields@.len() > 0 && values_annotated(t.fields@),
        BindingType::UnitStruct(_) => true,
        BindingType::Enum(e) => e.variants@.len() > 0 && forall|i: int|
            0 <= i < e.variants@.len() ==> variant_typed(#[trigger] e.variants@[i]),
    }
}

/// The import of the decorator of data classes.
pub open spec fn dataclass_import() -> (Seq<char>, Option<Seq<char>>) {
    ("dataclasses"@, Some("dataclass"@))
}

/// The annotated attribute of each named field.
pub open spec fn field_typing_lines(fields: Seq<StructField>) -> Seq<Seq<char>> {
    Seq::new(fields.len(), |i: int| fields[i].name@ + ": "@ + typing_text(fields[i].v_type))
}

/// What the annotations of the named fields import, in order.
pub open spec fn field_typing_imports(fields: Seq<StructField>, package: Seq<char>) -> Seq<
    (Seq<char>, Option<Seq<char>>),
> {
    Seq::new(fields.len(), |i: int| typing_imports(fields[i].v_type, package)).flatten()
}

/// The parameters `_0: T0, _1: T1, ...` for the types.
pub open spec fn tuple_params(types: Seq<Seq<char>>) -> Seq<char> {
    join_seq(Seq::new(types.len(), |i: int| "_"@ + decimal(i as nat) + ": "@ + types[i]), ", "@)
}

/// The arguments `_0, _1, ...` that make a tuple of `n` items; one item is
/// followed by a comma.
pub open spec fn tuple_args(n: nat) -> Seq<char> {
    if n == 1 {
        "_0,"@
    } else {
        join_seq(Seq::new(n, |i: int| "_"@ + decimal(i as nat)), ", "@)
    }
}

/// The class of a tuple named `name` with items of the types, deriving from
/// `bases` and a tuple of them.
pub open spec fn tuple_class(name: Seq<char>, bases: Seq<char>, types: Seq<Seq<char>>) -> Seq<
    Seq<char>,
> {
    seq![
        "class "@ + name + "("@ + bases + "tuple["@ + join_seq(types, ", "@) + "]):"@,
        Seq::empty(),
        "    def __new__(cls, "@ + tuple_params(types) + "):"@,
        "        return super("@ + name + ", cls).__new__(cls, ("@ + tuple_args(types.len())
            + "))"@,
        Seq::empty(),
        "    def __init__(self, "@ + tuple_params(types) + "):"@,
        "        pass"@,
        Seq::empty(),
        "    def __str__(self) -> str:"@,
        "        return \"{}{}\".format(\""@ + name + "\", super().__str__())"@,
        Seq::empty(),
        "    def __format__(self, format_spec: str) -> str:"@,
        "        return super().__format__(format_spec)"@,
        Seq::empty(),
        "    def __repr__(self) -> str:"@,
        "        return super().__repr__()"@,
    ]
}

/// The class of a variant of the enum `enum_name`.
pub open spec fn variant_typing(enum_name: Seq<char>, var: EnumVariant) -> Seq<Seq<char>> {
    let name = enum_name + "_"@ + var.name@;
    match var.inner_type {
        EnumVariantType::Empty => seq!["class "@ + name + "("@ + enum_name + "):"@, "    pass"@],
        EnumVariantType::NewType(f) => seq!["@dataclass"@, "class "@ + name + "("@ + enum_name + "):"@]
            + indented(field_typing_lines(f@)),
        EnumVariantType::Tuple(f) => tuple_class(name, enum_name + ", "@, typing_items(f@)),
    }
}

/// What the class of a variant imports, in order.
pub open spec fn variant_imports(var: EnumVariant, package: Seq<char>) -> Seq<
    (Seq<char>, Option<Seq<char>>),
> {
    match var.inner_type {
        EnumVariantType::Empty => Seq::empty(),
        EnumVariantType::NewType(f) => field_typing_imports(f@, package).push(dataclass_import()),
        EnumVariantType::Tuple(f) => typing_import_items(f@, package).flatten(),
    }
}

/// The classes of a container of kind `ty` named `name`.
pub open spec fn typings_body(ty: BindingType, name: Seq<char>) -> Seq<Seq<char>> {
    match ty {
        BindingType::Struct(st) => seq!["@dataclass"@, "class "@ + name + ":"@] + indented(
            field_typing_lines(st.fields@),
        ),
        BindingType::TupleStruct(t) => tuple_class(name, ""@, typing_items(t.fields@)),
        BindingType::UnitStruct(_) => seq!["@dataclass"@, "class "@ + name + ":"@, "    pass"@],
        BindingType::Enum(e) => seq!["class "@ + name + ":"@, "    pass"@, Seq::empty()]
            + blank_joined(Seq::new(e.variants@.len(), |i: int| variant_typing(name, e.variants@[i]))),
    }
}

/// What the classes of a container of kind `ty` import, in order, in a file
/// of the package `package`.
pub open spec fn typings_imports(ty: BindingType, package: Seq<char>) -> Seq<
    (Seq<char>, Option<Seq<char>>),
> {
    match ty {
        BindingType::Struct(st) => field_typing_imports(st.fields@, package).push(dataclass_import()),
        BindingType::TupleStruct(t) => typing_import_items(t.fields@, package).flatten(),
        BindingType::UnitStruct(_) => seq![dataclass_import()],
        BindingType::Enum(e) => Seq::new(
            e.variants@.len(),
            |i: int| variant_imports(e.variants@[i], package),
        ).flatten(),
    }
}

/// Imports the decorator of data classes.
fn import_dataclass(reg: &mut ImportRegistry)
    ensures
        final(reg).package_name() == old(reg).package_name(),
        final(reg).entries() == pushed_all(old(reg).entries(), seq![dataclass_import()]),
{
    reg.push(
        Package::Extern(String::from_str("dataclasses")),
        ImportItem::Single(String::from_str("dataclass")),
    );
    proof {
        lemma_pushed_all_one(old(reg).entries(), dataclass_import());
    }
}

/// The annotated attributes of the named fields; what they need is
/// imported.
fn gen_field_typings(fields: &Vec<StructField>, reg: &mut ImportRegistry) -> (r: Vec<String>)
    requires
        fields_annotated(fields@),
    ensures
        views(r@) == field_typing_lines(fields@),
        final(reg).package_name() == old(reg).package_name(),
        final(reg).entries() == pushed_all(
            old(reg).entries(),
            field_typing_imports(fields@, old(reg).package_name()),
        ),
{
    let ghost pkg = reg.package_name();
    let ghost start = reg.entries();
    let ghost lines = field_typing_lines(fields@);
    let ghost imports = Seq::new(
        fields@.len(),
        |i: int| typing_imports(fields@[i].v_type, pkg),
    );
    let n = fields.len();
    let mut r: Vec<String> = Vec::new();
    let mut i: usize = 0;
    while i < n
        invariant
            n == fields@.len(),
            fields_annotated(fields@),
            lines == field_typing_lines(fields@),
            imports == Seq::new(fields@.len(), |i: int| typing_imports(fields@[i].v_type, pkg)),
            i <= n,
            views(r@) == lines.take(i as int),
            reg.package_name() == pkg,
            reg.entries() == pushed_all(start, imports.take(i as int).flatten()),
        decreases n - i,
    {
        let f = &fields[i];
        let t = gen_typings(&f.v_type, reg);
        let line = cat3(f.name, ": ", t.as_str());
        let ghost before = r@;
        r.push(line);
        proof {
            assert(views(r@) =~= views(before).push(line@));
            assert(lines.take(i + 1) =~= lines.take(i as int).push(lines[i as int]));
            assert(imports.take(i + 1) =~= imports.take(i as int).push(imports[i as int]));
            imports.take(i as int).lemma_flatten_push(imports[i as int]);
            lemma_pushed_all_concat(start, imports.take(i as int).flatten(), imports[i as int]);
        }
        i = i + 1;
    }
    assert(lines.take(n as int) =~= lines);
    assert(imports.take(n as int) =~= imports);
    r
}

/// The type annotations of the unnamed fields; what they need is imported.
fn gen_values_typings(fields: &Vec<ValueType>, reg: &mut ImportRegistry) -> (r: Vec<String>)
    requires
        values_annotated(fields@),
    ensures
        views(r@) == typing_items(fields@),
        final(reg).package_name() == old(reg).package_name(),
        final(reg).entries() == pushed_all(
            old(reg).entries(),
            typing_import_items(fields@, old(reg).package_name()).flatten(),
        ),
{
    let ghost pkg = reg.package_name();
    let ghost start = reg.entries();
    let ghost texts = typing_items(fields@);
    let ghost imports = typing_import_items(fields@, pkg);
    proof {
        lemma_typing_items(fields@, pkg);
    }
    let n = fields.len();
    let mut r: Vec<String> = Vec::new();
    let mut i: usize = 0;
    while i < n
        invariant
            n == fields@.len(),
            values_annotated(fields@),
            texts == typing_items(fields@),
            imports == typing_import_items(fields@, pkg),
            texts.len() == n,
            imports.len() == n,
            forall|k: int| 0 <= k < n ==> #[trigger] texts[k] == typing_text(fields@[k]),
            forall|k: int| 0 <= k < n ==> #[trigger] imports[k] == typing_imports(fields@[k], pkg),
            i <= n,
            views(r@) == texts.take(i as int),
            reg.package_name() == pkg,
            reg.entries() == pushed_all(start, imports.take(i as int).flatten()),
        decreases n - i,
    {
        let t = gen_typings(&fields[i], reg);
        let ghost before = r@;
        r.push(t);
        proof {
            assert(views(r@) =~= views(before).push(t@));
            assert(texts.take(i + 1) =~= texts.take(i as int).push(texts[i as int]));
            assert(imports.take(i + 1) =~= imports.take(i as int).push(imports[i as int]));
            imports.take(i as int).lemma_flatten_push(imports[i as int]);
            lemma_pushed_all_concat(start, imports.take(i as int).flatten(), imports[i as int]);
        }
        i = i + 1;
    }
    assert(texts.take(n as int) =~= texts);
    assert(imports.take(n as int) =~= imports);
    r
}

/// The parameters `_0: T0, _1: T1, ...`.
fn gen_tuple_params(types: &Vec<String>) -> (r: String)
    ensures
        r@ == tuple_params(views(types@)),
{
    let ghost ps = Seq::new(
        types@.len(),
        |i: int| "_"@ + decimal(i as nat) + ": "@ + views(types@)[i],
    );
    let n = types.len();
    let mut parts: Vec<String> = Vec::new();
    let mut i: usize = 0;
    while i < n
        invariant
            n == types@.len(),
            ps == Seq::new(types@.len(), |i: int| "_"@ + decimal(i as nat) + ": "@ + views(types@)[i]),
            i <= n,
            views(parts@) == ps.take(i as int),
        decreases n - i,
    {
        let p = cat3(cat("_", decimal_string(i).as_str()).as_str(), ": ", types[i].as_str());
        let ghost before = parts@;
        parts.push(p);
        assert(views(parts@) =~= views(before).push(p@));
        assert(ps.take(i + 1) =~= ps.take(i as int).push(ps[i as int]));
        i = i + 1;
    }
    assert(ps.take(n as int) =~= ps);
    join_strings(&parts, ", ")
}

/// The arguments that make a tuple of `n` items.
fn gen_tuple_args(n: usize) -> (r: String)
    ensures
        r@ == tuple_args(n as nat),
{
    if n == 1 {
        return String::from_str("_0,");
    }
    let ghost ps = Seq::new(n as nat, |i: int| "_"@ + decimal(i as nat));
    let mut parts: Vec<String> = Vec::new();
    let mut i: usize = 0;
    while i < n
        invariant
            ps == Seq::new(n as nat, |i: int| "_"@ + decimal(i as nat)),
            i <= n,
            views(parts@) == ps.take(i as int),
        decreases n - i,
    {
        let p = cat("_", decimal_string(i).as_str());
        let ghost before = parts@;
        parts.push(p);
        assert(views(parts@) =~= views(before).push(p@));
        assert(ps.take(i + 1) =~= ps.take(i as int).push(ps[i as int]));
        i = i + 1;
    }
    assert(ps.take(n as int) =~= ps);
    join_strings(&parts, ", ")
}

/// The class of a tuple.
fn gen_tuple_class(name: &str, bases: &str, types: &Vec<String>) -> (r: Vec<String>)
    ensures
        views(r@) == tuple_class(name@, bases@, views(types@)),
{
    let joined = join_strings(types, ", ");
    let params = gen_tuple_params(types);
    let args = gen_tuple_args(types.len());
    let mut r: Vec<String> = Vec::new();
    let l0 = cat3(cat3("class ", name, "(").as_str(), cat3(bases, "tuple[", joined.as_str()).as_str(), "]):");
    r.push(l0);
    r.push(String::new());
    let l2 = cat3("    def __new__(cls, ", params.as_str(), "):");
    r.push(l2);
    let l3 = cat3(
        cat3("        return super(", name, ", cls).__new__(cls, (").as_str(),
        args.as_str(),
        "))",
    );
    r.push(l3);
    r.push(String::new());
    let l5 = cat3("    def __init__(self, ", params.as_str(), "):");
    r.push(l5);
    r.push(String::from_str("        pass"));
    r.push(String::new());
    r.push(String::from_str("    def __str__(self) -> str:"));
    let l9 = cat3("        return \"{}{}\".format(\"", name, "\", super().__str__())");
    r.push(l9);
    r.push(String::new());
    r.push(String::from_str("    def __format__(self, format_spec: str) -> str:"));
    r.push(String::from_str("        return super().__format__(format_spec)"));
    r.push(String::new());
    r.push(String::from_str("    def __repr__(self) -> str:"));
    r.push(String::from_str("        return super().__repr__()"));
    proof {
        assert(l0@ =~= "class "@ + name@ + "("@ + bases@ + "tuple["@ + join_seq(views(types@), ", "@)
            + "]):"@);
        assert(l3@ =~= "        return super("@ + name@ + ", cls).__new__(cls, ("@ + tuple_args(
            views(types@).len(),
        ) + "))"@);
        assert(views(r@) =~= tuple_class(name@, bases@, views(types@)));
    }
    r
}

/// The class of a variant of the enum `enum_name`; what it needs is
/// imported.
fn gen_variant_typings(enum_name: &str, var: &EnumVariant, reg: &mut ImportRegistry) -> (r: Vec<
    String,
>)
    requires
        variant_typed(*var),
    ensures
        views(r@) == variant_typing(enum_name@, *var),
        final(reg).package_name() == old(reg).package_name(),
        final(reg).entries() == pushed_all(
            old(reg).entries(),
            variant_imports(*var, old(reg).package_name()),
        ),
{
    let ghost pkg = reg.package_name();
    let ghost start = reg.entries();
    let name = cat3(enum_name, "_", var.name);
    match &var.inner_type {
        EnumVariantType::Empty => {
            let header = cat3(cat3("class ", name.as_str(), "(").as_str(), enum_name, "):");
            let mut r = one_line(header);
            append_lines(&mut r, one_line(String::from_str("    pass")));
            assert(pushed_all(start, Seq::empty()) == start);
            assert(views(r@) =~= seq![header@, "    pass"@]);
            r
        },
        EnumVariantType::NewType(f) => {
            let attrs = gen_field_typings(f, reg);
            import_dataclass(reg);
            proof {
                lemma_pushed_all_concat(start, field_typing_imports(f@, pkg), seq![dataclass_import()]);
                assert(field_typing_imports(f@, pkg).push(dataclass_import()) =~= field_typing_imports(
                    f@,
                    pkg,
                ) + seq![dataclass_import()]);
            }
            let mut r = one_line(String::from_str("@dataclass"));
            let header = cat3(cat3("class ", name.as_str(), "(").as_str(), enum_name, "):");
            append_lines(&mut r, one_line(header));
            let ghost head = views(r@);
            append_lines(&mut r, indent_block(attrs));
            assert(views(r@) =~= seq!["@dataclass"@, header@] + indented(field_typing_lines(f@)));
            r
        },
        EnumVariantType::Tuple(f) => {
            let types = gen_values_typings(f, reg);
            gen_tuple_class(name.as_str(), cat(enum_name, ", ").as_str(), &types)
        },
    }
}

/// The classes of the variants of the enum `name`, with an empty line
/// between each two; what they need is imported.
fn gen_all_variant_typings(name: &str, e: &EnumType, reg: &mut ImportRegistry) -> (r: Vec<String>)
    requires
        forall|i: int| 0 <= i < e.variants@.len() ==> variant_typed(#[trigger] e.variants@[i]),
    ensures
        views(r@) == blank_joined(
            Seq::new(e.variants@.len(), |i: int| variant_typing(name@, e.variants@[i])),
        ),
        final(reg).package_name() == old(reg).package_name(),
        final(reg).entries() == pushed_all(
            old(reg).entries(),
            Seq::new(
                e.variants@.len(),
                |i: int| variant_imports(e.variants@[i], old(reg).package_name()),
            ).flatten(),
        ),
{
    let ghost pkg = reg.package_name();
    let ghost start = reg.entries();
    let ghost classes = Seq::new(e.variants@.len(), |i: int| variant_typing(name@, e.variants@[i]));
    let ghost imports = Seq::new(e.variants@.len(), |i: int| variant_imports(e.variants@[i], pkg));
    let n = e.variants.len();
    let mut r: Vec<String> = Vec::new();
    let mut i: usize = 0;
    while i < n
        invariant
            n == e.variants@.len(),
            forall|i: int| 0 <= i < e.variants@.len() ==> variant_typed(#[trigger] e.variants@[i]),
            classes == Seq::new(e.variants@.len(), |i: int| variant_typing(name@, e.variants@[i])),
            imports == Seq::new(e.variants@.len(), |i: int| variant_imports(e.variants@[i], pkg)),
            i <= n,
            views(r@) == blank_joined(classes.take(i as int)),
            reg.package_name() == pkg,
            reg.entries() == pushed_all(start, imports.take(i as int).flatten()),
        decreases n - i,
    {
        let var = &e.variants[i];
        assert(variant_typed(e.variants@[i as int]));
        let c = gen_variant_typings(name, var, reg);
        if i > 0 {
            append_lines(&mut r, one_line(String::new()));
        }
        append_lines(&mut r, c);
        proof {
            let t = classes.take(i + 1);
            assert(t.drop_last() =~= classes.take(i as int));
            assert(t.last() == classes[i as int]);
            if i == 0 {
                assert(t.len() == 1);
            }
            assert(imports.take(i + 1) =~= imports.take(i as int).push(imports[i as int]));
            imports.take(i as int).lemma_flatten_push(imports[i as int]);
            lemma_pushed_all_concat(start, imports.take(i as int).flatten(), imports[i as int]);
        }
        i = i + 1;
    }
    assert(classes.take(n as int) =~= classes);
    assert(imports.take(n as int) =~= imports);
    r
}

/// The classes of a container of kind `ty` named `name`; what they need is
/// imported into `reg`.
pub fn gen_typings_body(ty: &BindingType, name: &str, reg: &mut ImportRegistry) -> (r: Vec<String>)
    requires
        typings_ready(*ty),
    ensures
        views(r@) == typings_body(*ty, name@),
        final(reg).package_name() == old(reg).package_name(),
        final(reg).entries() == pushed_all(
            old(reg).entries(),
            typings_imports(*ty, old(reg).package_name()),
        ),
{
    let ghost pkg = reg.package_name();
    let ghost start = reg.entries();
    match ty {
        BindingType::Struct(st) => {
            let attrs = gen_field_typings(&st.fields, reg);
            import_dataclass(reg);
            proof {
                lemma_pushed_all_concat(
                    start,
                    field_typing_imports(st.fields@, pkg),
                    seq![dataclass_import()],
                );
                assert(field_typing_imports(st.fields@, pkg).push(dataclass_import())
                    =~= field_typing_imports(st.fields@, pkg) + seq![dataclass_import()]);
            }
            let header = cat3("class ", name, ":");
            let mut r = one_line(String::from_str("@dataclass"));
            append_lines(&mut r, one_line(header));
            append_lines(&mut r, indent_block(attrs));
            assert(views(r@) =~= seq!["@dataclass"@, header@] + indented(field_typing_lines(st.fields@)));
            r
        },
        BindingType::TupleStruct(t) => {
            let types = gen_values_typings(&t.fields, reg);
            gen_tuple_class(name, "", &types)
        },
        BindingType::UnitStruct(_) => {
            import_dataclass(reg);
            let header = cat3("class ", name, ":");
            let mut r = one_line(String::from_str("@dataclass"));
            append_lines(&mut r, one_line(header));
            append_lines(&mut r, one_line(String::from_str("    pass")));
            assert(views(r@) =~= seq!["@dataclass"@, header@, "    pass"@]);
            r
        },
        BindingType::Enum(e) => {
            let header = cat3("class ", name, ":");
            let mut r = one_line(header);
            append_lines(&mut r, one_line(String::from_str("    pass")));
            append_lines(&mut r, one_line(String::new()));
            let ghost head = views(r@);
            assert(head =~= seq![header@, "    pass"@, Seq::<char>::empty()]);
            append_lines(&mut r, gen_all_variant_typings(name, e, reg));
            assert(header@ == "class "@ + name@ + ":"@);
            r
        },
    }
}

/// The deserializer of an enum decodes the variant that the serializer
/// writes: the serializer of the variant at position `i` first writes the
/// number `i` as a `u32`; the deserializer first reads a `u32` and the one
/// case that tests for `i` builds that variant, from its fields.
pub proof fn law_enum_index_round_trip(e: EnumType, q: Seq<char>, i: int)
    requires
        indices_in_order(e.variants@),
        0 <= i < e.variants@.len(),
    ensures
        variant_ser(e.variants@[i])[0] == "s.serialize_number(U32_BYTES, False, "@ + decimal(
            i as nat,
        ) + ")"@,
        des_body(BindingType::Enum(e), q)[0] == "variant_index = d.deserialize_number(U32_BYTES, False)"@,
        des_case(q, e.variants@[i]).0 == "variant_index == "@ + decimal(i as nat),
        des_case(q, e.variants@[i]).1 == seq![
            "return "@ + q + "_"@ + e.variants@[i].name@ + "("@ + variant_args(e.variants@[i])
                + ")"@,
        ],
        forall|j: int|
            0 <= j < e.variants@.len() && j != i ==> #[trigger] des_case(q, e.variants@[j]).0
                != des_case(q, e.variants@[i]).0,
{
    assert(e.variants@[i].index == i);
    assert forall|j: int|
        0 <= j < e.variants@.len() && j != i implies #[trigger] des_case(q, e.variants@[j]).0
        != des_case(q, e.variants@[i]).0 by {
        assert(e.variants@[j].index == j);
        let pre = "variant_index == "@;
        if des_case(q, e.variants@[j]).0 == des_case(q, e.variants@[i]).0 {
            let dj = decimal(j as nat);
            let di = decimal(i as nat);
            assert((pre + dj).subrange(pre.len() as int, (pre + dj).len() as int) =~= dj);
            assert((pre + di).subrange(pre.len() as int, (pre + di).len() as int) =~= di);
            lemma_decimal_injective(j as nat, i as nat);
        }
    }
}

/// A struct is serialized field by field in the order of its fields, and
/// deserialized by a constructor call whose arguments read the fields in
/// that same order: the `i`-th block of the serializer's lines serializes
/// the field `i` of `v`, and the `i`-th argument of the constructor reads
/// the value of the field `i` and passes it by its name.
pub proof fn law_struct_fields_in_order(st: StructType, q: Seq<char>)
    ensures
        ({
            let f = st.fields@;
            let blocks = Seq::new(
                f.len(),
                |i: int| ser_lines(f[i].v_type, field_step(var_path("v"@), f[i].name@)),
            );
            let args = Seq::new(f.len(), |i: int| des_text(f[i].v_type, f[i].name@ + " = "@));
            &&& ser_body(BindingType::Struct(st), q) == blocks.flatten()
            &&& des_body(BindingType::Struct(st), q) == seq![
                "return "@ + q + "("@ + join_seq(args, ", "@) + ")"@,
            ]
        }),
{
    let f = st.fields@;
    assert(field_ser_blocks(f) =~= Seq::new(
        f.len(),
        |i: int| ser_lines(f[i].v_type, field_step(var_path("v"@), f[i].name@)),
    ));
    assert(named_des(f) =~= Seq::new(f.len(), |i: int| des_text(f[i].v_type, f[i].name@ + " = "@)));
}

/// A tuple struct is serialized item by item in the order of its fields,
/// item `i` at the index `i` of `v`, and deserialized by a constructor call
/// whose `i`-th argument reads item `i`.
pub proof fn law_tuple_struct_items_in_order(t: TupleStructType, q: Seq<char>)
    ensures
        ({
            let f = t.fields@;
            let blocks = Seq::new(f.len(), |i: int| ser_lines(f[i], index_step(var_path("v"@), i as nat)));
            let args = Seq::new(f.len(), |i: int| des_text(f[i], Seq::<char>::empty()));
            &&& ser_body(BindingType::TupleStruct(t), q) == blocks.flatten()
            &&& des_body(BindingType::TupleStruct(t), q) == seq![
                "return "@ + q + "("@ + join_seq(args, ", "@) + ")"@,
            ]
        }),
{
    let f = t.fields@;
    lemma_ser_blocks(f, var_path("v"@));
    lemma_des_items(f);
    assert(ser_blocks(f, var_path("v"@)) =~= Seq::new(
        f.len(),
        |i: int| ser_lines(f[i], index_step(var_path("v"@), i as nat)),
    ));
    assert(des_items(f) =~= Seq::new(f.len(), |i: int| des_text(f[i], Seq::<char>::empty())));
}

/// A variant is serialized as its index followed by its fields in their
/// order, and the case that deserializes it builds the very class whose
/// instances the serializer recognizes as that variant, with arguments that
/// read the fields in the same order.
pub proof fn law_variant_fields_in_order(var: EnumVariant, q: Seq<char>)
    ensures
        ({
            let class = q + "_"@ + var.name@;
            let tag = "s.serialize_number(U32_BYTES, False, "@ + decimal(var.index as nat) + ")"@;
            &&& variant_condition(q, var) == "isinstance(v, "@ + class + ")"@
            &&& des_case(q, var).1 == seq!["return "@ + class + "("@ + variant_args(var) + ")"@]
            &&& match var.inner_type {
                EnumVariantType::Empty => variant_ser(var) == seq![tag] && variant_args(var)
                    == Seq::<char>::empty(),
                EnumVariantType::NewType(f) => variant_ser(var) == seq![tag] + Seq::new(
                    f@.len(),
                    |i: int| ser_lines(f@[i].v_type, field_step(var_path("v"@), f@[i].name@)),
                ).flatten() && variant_args(var) == join_seq(
                    Seq::new(f@.len(), |i: int| des_text(f@[i].v_type, f@[i].name@ + " = "@)),
                    ", "@,
                ),
                EnumVariantType::Tuple(f) => variant_ser(var) == seq![tag] + Seq::new(
                    f@.len(),
                    |i: int| ser_lines(f@[i], index_step(var_path("v"@), i as nat)),
                ).flatten() && variant_args(var) == join_seq(
                    Seq::new(f@.len(), |i: int| des_text(f@[i], Seq::<char>::empty())),
                    ", "@,
                ),
            }
        }),
{
    let class = q + "_"@ + var.name@;
    assert(variant_condition(q, var) =~= "isinstance(v, "@ + class + ")"@);
    assert(des_case(q, var).1[0] =~= "return "@ + class + "("@ + variant_args(var) + ")"@);
    assert(des_case(q, var).1 =~= seq!["return "@ + class + "("@ + variant_args(var) + ")"@]);
    match var.inner_type {
        EnumVariantType::Empty => {},
        EnumVariantType::NewType(f) => {
            assert(field_ser_blocks(f@) =~= Seq::new(
                f@.len(),
                |i: int| ser_lines(f@[i].v_type, field_step(var_path("v"@), f@[i].name@)),
            ));
            assert(named_des(f@) =~= Seq::new(
                f@.len(),
                |i: int| des_text(f@[i].v_type, f@[i].name@ + " = "@),
            ));
        },
        EnumVariantType::Tuple(f) => {
            lemma_ser_blocks(f@, var_path("v"@));
            lemma_des_items(f@);
            assert(ser_blocks(f@, var_path("v"@)) =~= Seq::new(
                f@.len(),
                |i: int| ser_lines(f@[i], index_step(var_path("v"@), i as nat)),
            ));
            assert(des_items(f@) =~= Seq::new(f@.len(), |i: int| des_text(f@[i], Seq::<char>::empty())));
        },
    }
}

} // verus!
