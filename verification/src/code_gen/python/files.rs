//! The files of the generated Python package.
use vstd::prelude::*;
use vstd::string::*;

use crate::code_gen::python::code::{
    append_lines, blank_joined, cat, cat3, file_text, indent_block, indented, one_line, to_file_text,
};
use crate::code_gen::python::container::{
    branched, check_body, check_ready, des_body, gen_des_body, gen_ser_body, gen_ty_check_body,
    gen_typings_body, if_branched, qualified, ser_body, ser_ready, typings_body, typings_imports,
    typings_ready,
};
use crate::code_gen::python::imports::{
    import_line, lemma_pushed_all_concat, lemma_pushed_all_one, pushed_all, ImportItem, ImportRegistry,
    Package,
};
use crate::code_gen::python::runtime::{
    gen_deserializer_code, gen_serializer_code, gen_util, DESERIALIZER_CODE, SERIALIZER_CODE,
    UTIL_CODE,
};
use crate::code_gen::python::GenerationSettings;
use crate::code_gen::utils::{
    obj_identifier, snake_case, to_snake_case, without_crate, ContainerFullQualifiedTypeBuilder,
    ContainerIdentifierBuilder,
};
use crate::code_gen::python::types::{
    check_lines, des_text, law_object_code_agrees, object_ident, ser_lines, AccessPath,
};
use crate::path::spec_path_parts;
use crate::type_info::{ObjectMeta, ValueType};
use crate::registry::{BindingType, Container, ContainerCollection, ContainerInfo, Module};
use crate::{file_model, first_of, ExportFile, Exports};
use crate::text::{join_seq, join_strings, split_seq, split_str, views};

verus! {

broadcast use vstd::seq_lib::group_seq_properties;

/// The identifier of a container in generated code.
pub open spec fn container_ident(c: Container) -> Seq<char> {
    join_seq(without_crate(spec_path_parts(c.path@)).push(obj_identifier(c.name@)), "_"@)
}

/// The qualified name of a container in the generated package.
pub open spec fn container_qualified(c: Container) -> Seq<char> {
    join_seq(without_crate(spec_path_parts(c.path@)).push(c.name@), "."@)
}

/// The containers behind the references.
pub open spec fn derefs(cs: Seq<&Container>) -> Seq<Container> {
    cs.map_values(|c: &Container| *c)
}

/// The identifier and the qualified name of a container, and the name and
/// path of it.
fn names_of(c: &Container) -> (r: (String, String, ContainerInfo))
    ensures
        r.0@ == container_ident(*c),
        r.1@ == container_qualified(*c),
        qualified(r.2) == container_qualified(*c),
{
    let ident = ContainerIdentifierBuilder::from_container(c).build();
    let q = ContainerFullQualifiedTypeBuilder::from_container(c).build();
    let info = ContainerInfo::from_container(c);
    (ident, q, info)
}

/// The function that serializes a value of the container `c`.
pub open spec fn ser_function(c: Container) -> Seq<Seq<char>> {
    seq!["def serialize_"@ + container_ident(c) + "(s, v):"@] + indented(
        ser_body(c.ty, container_qualified(c)),
    )
}

/// The functions that serialize the containers, with an empty line between
/// each two.
pub open spec fn ser_functions(cs: Seq<Container>) -> Seq<Seq<char>> {
    blank_joined(Seq::new(cs.len(), |i: int| ser_function(cs[i])))
}

/// The function that deserializes a value of the container `c`.
pub open spec fn des_function(c: Container) -> Seq<Seq<char>> {
    seq!["def deserialize_"@ + container_ident(c) + "(d) -> "@ + container_qualified(c) + ":"@]
        + indented(des_body(c.ty, container_qualified(c)))
}

/// The functions that deserialize the containers, with an empty line
/// between each two.
pub open spec fn des_functions(cs: Seq<Container>) -> Seq<Seq<char>> {
    blank_joined(Seq::new(cs.len(), |i: int| des_function(cs[i])))
}

/// The function that checks that a value is of the container `c`.
pub open spec fn check_function(c: Container) -> Seq<Seq<char>> {
    seq!["def assert_"@ + container_ident(c) + "(v):"@] + indented(
        check_body(c.ty, container_qualified(c)),
    )
}

/// The functions that check values of the containers, with an empty line
/// between each two.
pub open spec fn check_functions(cs: Seq<Container>) -> Seq<Seq<char>> {
    blank_joined(Seq::new(cs.len(), |i: int| check_function(cs[i])))
}

/// The functions that serialize values of the containers.
pub fn gen_ser_functions(cs: &Vec<&Container>) -> (r: Vec<String>)
    requires
        forall|i: int| 0 <= i < cs@.len() ==> ser_ready((#[trigger] cs@[i]).ty),
    ensures
        views(r@) == ser_functions(derefs(cs@)),
{
    let ghost fns = Seq::new(cs@.len(), |i: int| ser_function(*cs@[i]));
    let n = cs.len();
    let mut r: Vec<String> = Vec::new();
    let mut i: usize = 0;
    while i < n
        invariant
            n == cs@.len(),
            forall|i: int| 0 <= i < cs@.len() ==> ser_ready((#[trigger] cs@[i]).ty),
            fns == Seq::new(cs@.len(), |i: int| ser_function(*cs@[i])),
            i <= n,
            views(r@) == blank_joined(fns.take(i as int)),
        decreases n - i,
    {
        let c: &Container = cs[i];
        let (ident, q, info) = names_of(c);
        assert(ser_ready(c.ty));
        let mut f = one_line(cat3("def serialize_", ident.as_str(), "(s, v):"));
        append_lines(&mut f, indent_block(gen_ser_body(&c.ty, &info)));
        assert(views(f@) == fns[i as int]);
        if i > 0 {
            append_lines(&mut r, one_line(String::new()));
        }
        append_lines(&mut r, f);
        proof {
            let t = fns.take(i + 1);
            assert(t.drop_last() =~= fns.take(i as int));
            assert(t.last() == fns[i as int]);
            if i == 0 {
                assert(t.len() == 1);
            }
        }
        i = i + 1;
    }
    assert(fns.take(n as int) =~= fns);
    assert(fns =~= Seq::new(derefs(cs@).len(), |i: int| ser_function(derefs(cs@)[i])));
    r
}

/// The functions that deserialize values of the containers.
pub fn gen_des_functions(cs: &Vec<&Container>) -> (r: Vec<String>)
    ensures
        views(r@) == des_functions(derefs(cs@)),
{
    let ghost fns = Seq::new(cs@.len(), |i: int| des_function(*cs@[i]));
    let n = cs.len();
    let mut r: Vec<String> = Vec::new();
    let mut i: usize = 0;
    while i < n
        invariant
            n == cs@.len(),
            fns == Seq::new(cs@.len(), |i: int| des_function(*cs@[i])),
            i <= n,
            views(r@) == blank_joined(fns.take(i as int)),
        decreases n - i,
    {
        let c: &Container = cs[i];
        let (ident, q, info) = names_of(c);
        let head = cat3(cat3("def deserialize_", ident.as_str(), "(d) -> ").as_str(), q.as_str(), ":");
        assert(head@ =~= "def deserialize_"@ + container_ident(*c) + "(d) -> "@ + container_qualified(*c)
            + ":"@);
        let mut f = one_line(head);
        append_lines(&mut f, indent_block(gen_des_body(&c.ty, &info)));
        assert(views(f@) == fns[i as int]);
        if i > 0 {
            append_lines(&mut r, one_line(String::new()));
        }
        append_lines(&mut r, f);
        proof {
            let t = fns.take(i + 1);
            assert(t.drop_last() =~= fns.take(i as int));
            assert(t.last() == fns[i as int]);
            if i == 0 {
                assert(t.len() == 1);
            }
        }
        i = i + 1;
    }
    assert(fns.take(n as int) =~= fns);
    assert(fns =~= Seq::new(derefs(cs@).len(), |i: int| des_function(derefs(cs@)[i])));
    r
}

/// The functions that check values of the containers.
pub fn gen_type_checks(cs: &Vec<&Container>) -> (r: Vec<String>)
    requires
        forall|i: int| 0 <= i < cs@.len() ==> check_ready((#[trigger] cs@[i]).ty),
    ensures
        views(r@) == check_functions(derefs(cs@)),
{
    let ghost fns = Seq::new(cs@.len(), |i: int| check_function(*cs@[i]));
    let n = cs.len();
    let mut r: Vec<String> = Vec::new();
    let mut i: usize = 0;
    while i < n
        invariant
            n == cs@.len(),
            forall|i: int| 0 <= i < cs@.len() ==> check_ready((#[trigger] cs@[i]).ty),
            fns == Seq::new(cs@.len(), |i: int| check_function(*cs@[i])),
            i <= n,
            views(r@) == blank_joined(fns.take(i as int)),
        decreases n - i,
    {
        let c: &Container = cs[i];
        let (ident, q, info) = names_of(c);
        assert(check_ready(c.ty));
        let mut f = one_line(cat3("def assert_", ident.as_str(), "(v):"));
        append_lines(&mut f, indent_block(gen_ty_check_body(&c.ty, &info)));
        assert(views(f@) == fns[i as int]);
        if i > 0 {
            append_lines(&mut r, one_line(String::new()));
        }
        append_lines(&mut r, f);
        proof {
            let t = fns.take(i + 1);
            assert(t.drop_last() =~= fns.take(i as int));
            assert(t.last() == fns[i as int]);
            if i == 0 {
                assert(t.len() == 1);
            }
        }
        i = i + 1;
    }
    assert(fns.take(n as int) =~= fns);
    assert(fns =~= Seq::new(derefs(cs@).len(), |i: int| check_function(derefs(cs@)[i])));
    r
}

/// The annotation of the value that the serialize function takes: the name
/// of the one container, else the union of their qualified names.
pub open spec fn ser_annotation(cs: Seq<Container>) -> Seq<char> {
    if cs.len() == 1 {
        cs[0].name@
    } else {
        "Union["@ + join_seq(Seq::new(cs.len(), |i: int| container_qualified(cs[i])), ", "@) + "]"@
    }
}

/// The case of the container `c` in the serialize function: its check, if
/// checks are generated, and the call of its serializer.
pub open spec fn ser_case(c: Container, checks: bool) -> (Seq<char>, Seq<Seq<char>>) {
    (
        "isinstance(value, "@ + container_qualified(c) + ")"@,
        (if checks {
            seq!["assert_"@ + container_ident(c) + "(value)"@]
        } else {
            Seq::empty()
        }) + seq!["serialize_"@ + container_ident(c) + "(s, value)"@],
    )
}

/// The function that serializes a value of any of the containers.
pub open spec fn serialize_func(cs: Seq<Container>, checks: bool) -> Seq<Seq<char>> {
    (if checks {
        seq!["from .runtime_checks import *"@]
    } else {
        Seq::empty()
    }) + seq!["def serialize(value: "@ + ser_annotation(cs) + ") -> bytes:"@] + indented(
        seq!["s = Serializer()"@, Seq::empty()] + branched(
            Seq::new(cs.len(), |i: int| ser_case(cs[i], checks)),
            seq!["raise TypeError(\"{} not serializable\".format(type(value)))"@],
        ) + seq![Seq::empty(), "return s.finish()"@],
    )
}

/// The function that serializes a value of any of the containers.
pub fn gen_serialize_func(cs: &Vec<&Container>, checks: bool) -> (r: Vec<String>)
    ensures
        views(r@) == serialize_func(derefs(cs@), checks),
{
    let ghost d = derefs(cs@);
    let n = cs.len();
    let mut quals: Vec<String> = Vec::new();
    let mut conditions: Vec<String> = Vec::new();
    let mut bodies: Vec<Vec<String>> = Vec::new();
    let mut i: usize = 0;
    while i < n
        invariant
            n == cs@.len(),
            d == derefs(cs@),
            i <= n,
            views(quals@) == Seq::new(i as nat, |k: int| container_qualified(d[k])),
            conditions@.len() == i,
            bodies@.len() == i,
            forall|k: int|
                0 <= k < i ==> (#[trigger] conditions@[k]@, views(bodies@[k]@)) == ser_case(
                    d[k],
                    checks,
                ),
        decreases n - i,
    {
        let c: &Container = cs[i];
        let (ident, q, _info) = names_of(c);
        let cond = cat3("isinstance(value, ", q.as_str(), ")");
        let mut body: Vec<String> = Vec::new();
        if checks {
            body = one_line(cat3("assert_", ident.as_str(), "(value)"));
        }
        assert(views(body@) == (if checks {
            seq!["assert_"@ + container_ident(*c) + "(value)"@]
        } else {
            Seq::<Seq<char>>::empty()
        }));
        append_lines(&mut body, one_line(cat3("serialize_", ident.as_str(), "(s, value)")));
        let ghost before_q = quals@;
        let ghost before_c = conditions@;
        let ghost before_b = bodies@;
        quals.push(q);
        conditions.push(cond);
        bodies.push(body);
        proof {
            assert(views(quals@) =~= views(before_q).push(container_qualified(d[i as int])));
            assert(Seq::new((i + 1) as nat, |k: int| container_qualified(d[k])) =~= Seq::new(
                i as nat,
                |k: int| container_qualified(d[k]),
            ).push(container_qualified(d[i as int])));
            assert forall|k: int| 0 <= k < i + 1 implies (
                #[trigger] conditions@[k]@,
                views(bodies@[k]@),
            ) == ser_case(d[k], checks) by {
                if k < i {
                    assert(conditions@[k] == before_c[k] && bodies@[k] == before_b[k]);
                }
            }
        }
        i = i + 1;
    }
    let annotation = if n == 1 {
        String::from_str(cs[0].name)
    } else {
        cat3("Union[", join_strings(&quals, ", ").as_str(), "]")
    };
    let mut r: Vec<String> = Vec::new();
    if checks {
        r = one_line(String::from_str("from .runtime_checks import *"));
    }
    let ghost head = views(r@);
    append_lines(&mut r, one_line(cat3("def serialize(value: ", annotation.as_str(), ") -> bytes:")));
    let mut body = one_line(String::from_str("s = Serializer()"));
    append_lines(&mut body, one_line(String::new()));
    let fallback = one_line(
        String::from_str("raise TypeError(\"{} not serializable\".format(type(value)))"),
    );
    let chain = if_branched(conditions, bodies, fallback);
    proof {
        let cases = Seq::new(
            conditions@.len(),
            |i: int| (conditions@[i]@, views(bodies@[i]@)),
        );
        assert(cases =~= Seq::new(d.len(), |i: int| ser_case(d[i], checks)));
    }
    append_lines(&mut body, chain);
    append_lines(&mut body, one_line(String::new()));
    append_lines(&mut body, one_line(String::from_str("return s.finish()")));
    append_lines(&mut r, indent_block(body));
    r
}

/// The first line of the deserialize function's module part: the type
/// variable of the containers.
pub open spec fn type_var_line(cs: Seq<Container>) -> Seq<char> {
    if cs.len() == 1 {
        "T = "@ + container_qualified(cs[0])
    } else {
        "T = TypeVar(\"T\", "@ + join_seq(Seq::new(cs.len(), |i: int| container_qualified(cs[i])), ", "@)
            + ")"@
    }
}

/// The case of the container `c` in the deserialize function.
pub open spec fn des_case_of(c: Container) -> (Seq<char>, Seq<Seq<char>>) {
    (
        "obj_type is "@ + container_qualified(c),
        seq!["result_value = cast(T, deserialize_"@ + container_ident(c) + "(d))"@],
    )
}

/// The documentation of the deserialize function.
pub const DESERIALIZE_DOC: &'static str = "\"\"\"
Deserialize a value from an array of bytes.

Args:
    obj_type: The type of the value to deserialize.
    bytes: The byte array to deserialize from.

Returns:
    The deserialized value and the remaining bytes.
\"\"\"";

/// The function that deserializes a value of any of the containers, after
/// its type variable.
pub open spec fn deserialize_func(cs: Seq<Container>) -> Seq<Seq<char>> {
    seq![
        type_var_line(cs),
        "def deserialize(obj_type: Type[T], bytes: bytes) -> Tuple[T, bytes]:"@,
    ] + indented(
        split_seq(DESERIALIZE_DOC@, "\n"@) + seq![
            "d = Deserializer(bytes)"@,
            "result_value = None"@,
            Seq::empty(),
        ] + branched(
            Seq::new(cs.len(), |i: int| des_case_of(cs[i])),
            seq!["raise TypeError(\"{} not deserializable\".format(obj_type))"@],
        ) + seq![Seq::empty(), "return (result_value, d.release_bytes())"@],
    )
}

/// The function that deserializes a value of any of the containers.
pub fn gen_deserialize_func(cs: &Vec<&Container>) -> (r: Vec<String>)
    ensures
        views(r@) == deserialize_func(derefs(cs@)),
{
    let ghost d = derefs(cs@);
    let n = cs.len();
    let mut quals: Vec<String> = Vec::new();
    let mut conditions: Vec<String> = Vec::new();
    let mut bodies: Vec<Vec<String>> = Vec::new();
    let mut i: usize = 0;
    while i < n
        invariant
            n == cs@.len(),
            d == derefs(cs@),
            i <= n,
            views(quals@) == Seq::new(i as nat, |k: int| container_qualified(d[k])),
            conditions@.len() == i,
            bodies@.len() == i,
            forall|k: int|
                0 <= k < i ==> (#[trigger] conditions@[k]@, views(bodies@[k]@)) == des_case_of(d[k]),
        decreases n - i,
    {
        let c: &Container = cs[i];
        let (ident, q, _info) = names_of(c);
        let cond = cat("obj_type is ", q.as_str());
        let body = one_line(cat3("result_value = cast(T, deserialize_", ident.as_str(), "(d))"));
        let ghost before_q = quals@;
        let ghost before_c = conditions@;
        let ghost before_b = bodies@;
        quals.push(q);
        conditions.push(cond);
        bodies.push(body);
        proof {
            assert(views(quals@) =~= views(before_q).push(container_qualified(d[i as int])));
            assert(Seq::new((i + 1) as nat, |k: int| container_qualified(d[k])) =~= Seq::new(
                i as nat,
                |k: int| container_qualified(d[k]),
            ).push(container_qualified(d[i as int])));
            assert forall|k: int| 0 <= k < i + 1 implies (
                #[trigger] conditions@[k]@,
                views(bodies@[k]@),
            ) == des_case_of(d[k]) by {
                if k < i {
                    assert(conditions@[k] == before_c[k] && bodies@[k] == before_b[k]);
                }
            }
        }
        i = i + 1;
    }
    let type_var = if n == 1 {
        assert(views(quals@)[0] == quals@[0]@);
        cat("T = ", quals[0].as_str())
    } else {
        cat3("T = TypeVar(\"T\", ", join_strings(&quals, ", ").as_str(), ")")
    };
    assert(Seq::new(n as nat, |k: int| container_qualified(d[k])) =~= Seq::new(
        d.len(),
        |i: int| container_qualified(d[i]),
    ));
    assert(type_var@ == type_var_line(d));
    let mut r = one_line(type_var);
    append_lines(
        &mut r,
        one_line(
            String::from_str("def deserialize(obj_type: Type[T], bytes: bytes) -> Tuple[T, bytes]:"),
        ),
    );
    let mut body = split_str(DESERIALIZE_DOC, "\n");
    append_lines(&mut body, one_line(String::from_str("d = Deserializer(bytes)")));
    append_lines(&mut body, one_line(String::from_str("result_value = None")));
    append_lines(&mut body, one_line(String::new()));
    let fallback = one_line(
        String::from_str("raise TypeError(\"{} not deserializable\".format(obj_type))"),
    );
    let chain = if_branched(conditions, bodies, fallback);
    proof {
        let cases = Seq::new(
            conditions@.len(),
            |i: int| (conditions@[i]@, views(bodies@[i]@)),
        );
        assert(cases =~= Seq::new(d.len(), |i: int| des_case_of(d[i])));
    }
    append_lines(&mut body, chain);
    append_lines(&mut body, one_line(String::new()));
    append_lines(&mut body, one_line(String::from_str("return (result_value, d.release_bytes())")));
    append_lines(&mut r, indent_block(body));
    r
}

/// The imports at the top of the serialization module.
pub const SER_HEADER: &'static str = "from typing import Union

from .types import *
from .util import *
from .serializer import Serializer
";

/// The imports at the top of the deserialization module.
pub const DES_HEADER: &'static str = "from typing import TypeVar, Type, cast

from .types import *
from .util import *
from .deserializer import Deserializer
";

/// The imports at the top of the module of type checks.
pub const CHECKS_HEADER: &'static str = "from .util import *
from .types import *
";

/// The serialization module.
pub open spec fn ser_file(cs: Seq<Container>, checks: bool) -> Seq<Seq<char>> {
    split_seq(SER_HEADER@, "\n"@) + ser_functions(cs) + seq![Seq::<char>::empty()] + serialize_func(
        cs,
        checks,
    )
}

/// The deserialization module.
pub open spec fn des_file(cs: Seq<Container>) -> Seq<Seq<char>> {
    split_seq(DES_HEADER@, "\n"@) + des_functions(cs) + seq![Seq::<char>::empty()] + deserialize_func(
        cs,
    )
}

/// The module of type checks.
pub open spec fn checks_file(cs: Seq<Container>) -> Seq<Seq<char>> {
    split_seq(CHECKS_HEADER@, "\n"@) + check_functions(cs)
}

/// The serialization module.
pub fn gen_ser_file(cs: &Vec<&Container>, checks: bool) -> (r: Vec<String>)
    requires
        forall|i: int| 0 <= i < cs@.len() ==> ser_ready((#[trigger] cs@[i]).ty),
    ensures
        views(r@) == ser_file(derefs(cs@), checks),
{
    let mut r = split_str(SER_HEADER, "\n");
    append_lines(&mut r, gen_ser_functions(cs));
    append_lines(&mut r, one_line(String::new()));
    append_lines(&mut r, gen_serialize_func(cs, checks));
    r
}

/// The deserialization module.
pub fn gen_des_file(cs: &Vec<&Container>) -> (r: Vec<String>)
    ensures
        views(r@) == des_file(derefs(cs@)),
{
    let mut r = split_str(DES_HEADER, "\n");
    append_lines(&mut r, gen_des_functions(cs));
    append_lines(&mut r, one_line(String::new()));
    append_lines(&mut r, gen_deserialize_func(cs));
    r
}

/// The module of type checks.
pub fn gen_checks_file(cs: &Vec<&Container>) -> (r: Vec<String>)
    requires
        forall|i: int| 0 <= i < cs@.len() ==> check_ready((#[trigger] cs@[i]).ty),
    ensures
        views(r@) == checks_file(derefs(cs@)),
{
    let mut r = split_str(CHECKS_HEADER, "\n");
    append_lines(&mut r, gen_type_checks(cs));
    r
}

/// The directory of the type files of the package at `package_path`.
pub open spec fn types_dir(package_path: Seq<char>) -> Seq<char> {
    if package_path.len() == 0 {
        "types/"@
    } else {
        "types/"@ + package_path + "/"@
    }
}

/// The names that a container's type file exports: the container's, and
/// for an enum the classes of its variants.
pub open spec fn container_exports(c: Container) -> Seq<Seq<char>> {
    seq![c.name@] + match c.ty {
        BindingType::Enum(e) => Seq::new(
            e.variants@.len(),
            |i: int| c.name@ + "_"@ + e.variants@[i].name@,
        ),
        _ => Seq::empty(),
    }
}

/// A name in double quotes.
pub open spec fn quoted(s: Seq<char>) -> Seq<char> {
    "\""@ + s + "\""@
}

/// The names that the package of the containers `cs` and the modules
/// `mods` exports.
pub open spec fn all_exports(cs: Seq<Container>, mods: Seq<Seq<char>>) -> Seq<Seq<char>> {
    Seq::new(cs.len(), |i: int| container_exports(cs[i])).flatten() + mods
}

/// The `__init__` file of a package of the types, with the containers `cs`
/// and the modules `mods`: the names it exports, then the imports of the
/// containers' classes, then those of the modules, the three apart by an
/// empty line.
pub open spec fn init_lines(cs: Seq<Container>, mods: Seq<Seq<char>>) -> Seq<Seq<char>> {
    let header = seq!["__all__ = ["@] + indented(
        seq![join_seq(all_exports(cs, mods).map_values(|e: Seq<char>| quoted(e)), ", "@)],
    ) + seq!["]"@];
    let imports = Seq::new(
        cs.len(),
        |i: int|
            "from ._"@ + snake_case(cs[i].name@) + " import "@ + join_seq(
                container_exports(cs[i]),
                ", "@,
            ),
    );
    let mod_imports = mods.map_values(|m: Seq<char>| "from . import "@ + m);
    blank_joined(
        seq![header] + (if cs.len() > 0 {
            seq![imports]
        } else {
            Seq::empty()
        }) + (if mods.len() > 0 {
            seq![mod_imports]
        } else {
            Seq::empty()
        }),
    )
}

/// The type file of the container `c` in a package named `package`: its
/// imports, an empty line, and its classes.
pub open spec fn class_file(c: Container, package: Seq<char>) -> Seq<Seq<char>> {
    let imports = pushed_all(Seq::empty(), typings_imports(c.ty, package)).map_values(
        |e: (Seq<char>, bool, Seq<Seq<char>>)| import_line(e),
    );
    if imports.len() > 0 {
        imports + seq![Seq::<char>::empty()] + typings_body(c.ty, c.name@)
    } else {
        typings_body(c.ty, c.name@)
    }
}

/// The type files of one package: its `__init__` and one per container.
pub open spec fn module_files(
    package_path: Seq<char>,
    cs: Seq<Container>,
    mods: Seq<Seq<char>>,
    package: Seq<char>,
) -> Seq<(Seq<char>, Seq<Seq<char>>)> {
    seq![(types_dir(package_path) + "__init__"@, init_lines(cs, mods))] + Seq::new(
        cs.len(),
        |i: int| (types_dir(package_path) + "_"@ + snake_case(cs[i].name@), class_file(cs[i], package)),
    )
}

/// The path of the package of the module `id`: the path above it and its
/// name, joined by `/`.
pub open spec fn sub_path(c: ContainerCollection, id: u128) -> Seq<char> {
    if c.path_at(id).len() == 0 {
        c.name_at(id)
    } else {
        c.path_at(id) + "/"@ + c.name_at(id)
    }
}

/// The names of the modules `ms` of the collection.
pub open spec fn module_names(c: ContainerCollection, ms: Seq<u128>) -> Seq<Seq<char>> {
    ms.map_values(|m: u128| c.name_at(m))
}

/// The type files of the module `id` of the collection, whose package is at
/// `package_path`, and those of the modules below it, each module's after
/// the one above.
pub open spec fn typing_files(
    c: ContainerCollection,
    package: Seq<char>,
    package_path: Seq<char>,
    id: u128,
) -> Seq<(Seq<char>, Seq<Seq<char>>)>
    decreases c.depth_at(id), 1int,
{
    module_files(
        package_path,
        c.containers_at(id),
        module_names(c, c.modules_at(id)),
        package,
    ) + sub_files(c, package, id).flatten()
}

/// The type files of each module directly below the module `id`.
pub open spec fn sub_files(c: ContainerCollection, package: Seq<char>, id: u128) -> Seq<
    Seq<(Seq<char>, Seq<Seq<char>>)>,
>
    decreases c.depth_at(id), 0int,
{
    let mods = c.modules_at(id);
    Seq::new(
        mods.len(),
        |i: int|
            if 0 <= c.depth_at(mods[i]) < c.depth_at(id) {
                typing_files(c, package, sub_path(c, mods[i]), mods[i])
            } else {
                Seq::empty()
            },
    )
}

/// Whether the classes of every container of the collection can be
/// generated.
pub open spec fn collection_typed(c: ContainerCollection) -> bool {
    forall|id: u128, i: int|
        c.module_at(id) && 0 <= i < c.containers_at(id).len() ==> typings_ready(
            (#[trigger] c.containers_at(id)[i]).ty,
        )
}

/// Whether the classes of every registered container can be generated.
pub open spec fn registered_typed(c: ContainerCollection) -> bool {
    forall|i: int|
        0 <= i < c.registered().len() ==> typings_ready((#[trigger] c.registered()[i]).0.ty)
}

/// Where the registered containers are ready for typings, so are the
/// containers of every module, since those are registered ones.
proof fn lemma_collection_typed(c: ContainerCollection)
    requires
        c.inv(),
        registered_typed(c),
    ensures
        collection_typed(c),
{
    assert forall|id: u128, i: int|
        c.module_at(id) && 0 <= i < c.containers_at(id).len() implies typings_ready(
        (#[trigger] c.containers_at(id)[i]).ty,
    ) by {
        let x = c.containers_at(id)[i];
        c.lemma_held_registered(id, x);
        let k = choose|k: int| 0 <= k < c.registered().len() && #[trigger] c.registered()[k].0 == x;
        assert(typings_ready(c.registered()[k].0.ty));
    }
}

/// Files as the bindings hold them: each by its kind and its text.
pub open spec fn file_models(fs: Seq<(Seq<char>, Seq<Seq<char>>)>) -> Seq<(Seq<char>, Seq<char>)> {
    fs.map_values(|f: (Seq<char>, Seq<Seq<char>>)| (f.0, file_text(f.1)))
}

/// The models of the files.
pub open spec fn models_of(fs: Seq<ExportFile>) -> Seq<(Seq<char>, Seq<char>)> {
    fs.map_values(|f: ExportFile| file_model(f))
}

/// Appends a file of the kind `content_type` made of the lines.
fn push_file(files: &mut Vec<ExportFile>, content_type: String, lines: &Vec<String>)
    ensures
        models_of(final(files)@) == models_of(old(files)@).push(
            (content_type@, file_text(views(lines@))),
        ),
{
    let f = ExportFile { content_type, content: to_file_text(lines) };
    files.push(f);
    assert(models_of(files@) =~= models_of(old(files)@).push(file_model(f)));
}

/// The names that a container's type file exports.
fn gen_container_exports(c: &Container) -> (r: Vec<String>)
    ensures
        views(r@) == container_exports(*c),
{
    let mut r = one_line(String::from_str(c.name));
    match &c.ty {
        BindingType::Enum(e) => {
            let ghost names = Seq::new(
                e.variants@.len(),
                |i: int| c.name@ + "_"@ + e.variants@[i].name@,
            );
            let n = e.variants.len();
            let mut i: usize = 0;
            while i < n
                invariant
                    n == e.variants@.len(),
                    names == Seq::new(e.variants@.len(), |i: int| c.name@ + "_"@ + e.variants@[i].name@),
                    i <= n,
                    views(r@) == seq![c.name@] + names.take(i as int),
                decreases n - i,
            {
                let v = cat3(c.name, "_", e.variants[i].name);
                let ghost before = r@;
                r.push(v);
                assert(views(r@) =~= views(before).push(v@));
                assert(names.take(i + 1) =~= names.take(i as int).push(names[i as int]));
                i = i + 1;
            }
            assert(names.take(n as int) =~= names);
        },
        _ => {
            assert(views(r@) =~= seq![c.name@] + Seq::<Seq<char>>::empty());
        },
    }
    r
}

/// The `__init__` file of a package of the types.
fn gen_init_lines(cs: &Vec<&Container>, mods: &Vec<String>) -> (r: Vec<String>)
    ensures
        views(r@) == init_lines(derefs(cs@), views(mods@)),
{
    let ghost d = derefs(cs@);
    let ghost ex = Seq::new(d.len(), |i: int| container_exports(d[i]));
    let ghost imps = Seq::new(
        d.len(),
        |i: int|
            "from ._"@ + snake_case(d[i].name@) + " import "@ + join_seq(container_exports(d[i]), ", "@),
    );
    let n = cs.len();
    let mut exports: Vec<String> = Vec::new();
    let mut imports: Vec<String> = Vec::new();
    let mut i: usize = 0;
    while i < n
        invariant
            n == cs@.len(),
            d == derefs(cs@),
            ex == Seq::new(d.len(), |i: int| container_exports(d[i])),
            imps == Seq::new(
                d.len(),
                |i: int|
                    "from ._"@ + snake_case(d[i].name@) + " import "@ + join_seq(
                        container_exports(d[i]),
                        ", "@,
                    ),
            ),
            i <= n,
            views(exports@) == ex.take(i as int).flatten(),
            views(imports@) == imps.take(i as int),
        decreases n - i,
    {
        let c: &Container = cs[i];
        let names = gen_container_exports(c);
        let snake = to_snake_case(c.name);
        let line = cat3(
            cat("from ._", snake.as_str()).as_str(),
            " import ",
            join_strings(&names, ", ").as_str(),
        );
        let ghost before = imports@;
        imports.push(line);
        proof {
            assert(views(imports@) =~= views(before).push(line@));
            assert(imps.take(i + 1) =~= imps.take(i as int).push(imps[i as int]));
            assert(ex.take(i + 1) =~= ex.take(i as int).push(ex[i as int]));
            ex.take(i as int).lemma_flatten_push(ex[i as int]);
        }
        append_lines(&mut exports, names);
        i = i + 1;
    }
    assert(ex.take(n as int) =~= ex);
    assert(imps.take(n as int) =~= imps);
    let mut mod_imports: Vec<String> = Vec::new();
    let m = mods.len();
    let mut j: usize = 0;
    while j < m
        invariant
            m == mods@.len(),
            j <= m,
            views(mod_imports@) == views(mods@).take(j as int).map_values(
                |x: Seq<char>| "from . import "@ + x,
            ),
        decreases m - j,
    {
        let line = cat("from . import ", mods[j].as_str());
        let ghost before = mod_imports@;
        mod_imports.push(line);
        assert(views(mod_imports@) =~= views(before).push(line@));
        assert(views(mods@).take(j + 1) =~= views(mods@).take(j as int).push(mods@[j as int]@));
        j = j + 1;
    }
    assert(views(mods@).take(m as int) =~= views(mods@));
    append_lines(&mut exports, mods.clone());
    let ghost all = all_exports(d, views(mods@));
    assert(views(exports@) == all);
    let mut quoted_names: Vec<String> = Vec::new();
    let k = exports.len();
    let mut x: usize = 0;
    while x < k
        invariant
            k == exports@.len(),
            views(exports@) == all,
            x <= k,
            views(quoted_names@) == all.take(x as int).map_values(|e: Seq<char>| quoted(e)),
        decreases k - x,
    {
        let q = cat3("\"", exports[x].as_str(), "\"");
        let ghost before = quoted_names@;
        quoted_names.push(q);
        assert(views(quoted_names@) =~= views(before).push(q@));
        assert(all.take(x + 1) =~= all.take(x as int).push(all[x as int]));
        x = x + 1;
    }
    assert(all.take(k as int) =~= all);
    let mut header = one_line(String::from_str("__all__ = ["));
    append_lines(&mut header, indent_block(one_line(join_strings(&quoted_names, ", "))));
    append_lines(&mut header, one_line(String::from_str("]")));
    let mut r = header;
    let ghost sections0 = seq![views(r@)];
    let ghost mut sections = sections0;
    assert(blank_joined(sections0) == sections0[0]);
    if n > 0 {
        let ghost h = views(r@);
        append_lines(&mut r, one_line(String::new()));
        append_lines(&mut r, imports);
        proof {
            sections = sections.push(imps);
            assert(sections.drop_last() =~= sections0);
            assert(sections.last() == imps);
            assert(views(r@) =~= h + seq![Seq::<char>::empty()] + imps);
        }
    }
    assert(views(r@) == blank_joined(sections));
    let ghost before_mods = sections;
    if m > 0 {
        let ghost h = views(r@);
        append_lines(&mut r, one_line(String::new()));
        append_lines(&mut r, mod_imports);
        proof {
            let mi = views(mods@).map_values(|x: Seq<char>| "from . import "@ + x);
            sections = sections.push(mi);
            assert(sections.drop_last() =~= before_mods);
            assert(sections.last() == mi);
            assert(sections.len() >= 2);
            assert(views(r@) =~= h + seq![Seq::<char>::empty()] + mi);
        }
    }
    assert(views(r@) == blank_joined(sections));
    proof {
        let expected = seq![sections0[0]] + (if d.len() > 0 {
            seq![imps]
        } else {
            Seq::<Seq<Seq<char>>>::empty()
        }) + (if views(mods@).len() > 0 {
            seq![views(mods@).map_values(|x: Seq<char>| "from . import "@ + x)]
        } else {
            Seq::<Seq<Seq<char>>>::empty()
        });
        assert(sections =~= expected);
    }
    r
}

/// The type file of a container in the package `package`.
fn gen_class_file(c: &Container, package: &str) -> (r: Vec<String>)
    requires
        typings_ready(c.ty),
    ensures
        views(r@) == class_file(*c, package@),
{
    let mut reg = ImportRegistry::new(String::from_str(package));
    let body = gen_typings_body(&c.ty, c.name, &mut reg);
    let imports = reg.lines();
    assert(pushed_all(Seq::empty(), typings_imports(c.ty, package@)) == reg.entries());
    if imports.len() > 0 {
        let mut r = imports;
        append_lines(&mut r, one_line(String::new()));
        append_lines(&mut r, body);
        r
    } else {
        body
    }
}

/// Appends the type files of one package.
fn push_module_files(
    package_path: &str,
    cs: &Vec<&Container>,
    mods: &Vec<String>,
    package: &str,
    files: &mut Vec<ExportFile>,
)
    requires
        forall|i: int| 0 <= i < cs@.len() ==> typings_ready((#[trigger] cs@[i]).ty),
    ensures
        models_of(final(files)@) == models_of(old(files)@) + file_models(
            module_files(package_path@, derefs(cs@), views(mods@), package@),
        ),
{
    let dir = if package_path.unicode_len() == 0 {
        String::from_str("types/")
    } else {
        cat3("types/", package_path, "/")
    };
    assert(dir@ == types_dir(package_path@));
    let ghost d = derefs(cs@);
    let ghost fs = module_files(package_path@, d, views(mods@), package@);
    let init = gen_init_lines(cs, mods);
    push_file(files, cat(dir.as_str(), "__init__"), &init);
    proof {
        assert(models_of(files@) =~= models_of(old(files)@) + file_models(fs).take(1));
    }
    let n = cs.len();
    let mut i: usize = 0;
    while i < n
        invariant
            n == cs@.len(),
            d == derefs(cs@),
            forall|i: int| 0 <= i < cs@.len() ==> typings_ready((#[trigger] cs@[i]).ty),
            dir@ == types_dir(package_path@),
            fs == module_files(package_path@, d, views(mods@), package@),
            fs.len() == n + 1,
            i <= n,
            models_of(files@) == models_of(old(files)@) + file_models(fs).take(i + 1),
        decreases n - i,
    {
        let c: &Container = cs[i];
        let lines = gen_class_file(c, package);
        let snake = to_snake_case(c.name);
        let name = cat3(dir.as_str(), "_", snake.as_str());
        let ghost before = models_of(files@);
        push_file(files, name, &lines);
        proof {
            assert(fs[i + 1] == (types_dir(package_path@) + "_"@ + snake_case(d[i as int].name@), class_file(
                d[i as int],
                package@,
            )));
            assert(file_models(fs).take(i + 2) =~= file_models(fs).take(i + 1).push(
                file_models(fs)[i + 1],
            ));
        }
        i = i + 1;
    }
    assert(file_models(fs).take(n + 1) =~= file_models(fs));
}

/// The models of files one after the other are those of each part.
proof fn lemma_file_models_concat(
    a: Seq<(Seq<char>, Seq<Seq<char>>)>,
    b: Seq<(Seq<char>, Seq<Seq<char>>)>,
)
    ensures
        file_models(a + b) == file_models(a) + file_models(b),
{
    assert(file_models(a + b) =~= file_models(a) + file_models(b));
}

/// Appends the type files of the module `id`, whose containers and modules
/// are given, and those of the modules below it.
fn generate_typings_for_mod(
    c: &ContainerCollection,
    package_path: &str,
    containers: &Vec<&Container>,
    mods: &Vec<Module>,
    files: &mut Vec<ExportFile>,
    package: &str,
    Ghost(id): Ghost<u128>,
)
    requires
        collection_typed(*c),
        c.module_at(id),
        derefs(containers@) == c.containers_at(id),
        mods@.len() == c.modules_at(id).len(),
        forall|i: int|
            0 <= i < mods@.len() ==> (#[trigger] mods@[i]).id() == c.modules_at(id)[i] && mods@[i].of(
                *c,
            ) && c.module_at(mods@[i].id()) && 0 <= c.depth_at(mods@[i].id()) < c.depth_at(id),
    ensures
        models_of(final(files)@) == models_of(old(files)@) + file_models(
            typing_files(*c, package@, package_path@, id),
        ),
    decreases c.depth_at(id),
{
    let ghost ms = c.modules_at(id);
    let n = mods.len();
    let mut names: Vec<String> = Vec::new();
    let mut i: usize = 0;
    while i < n
        invariant
            n == mods@.len(),
            ms == c.modules_at(id),
            n == ms.len(),
            forall|i: int| 0 <= i < mods@.len() ==> (#[trigger] mods@[i]).id() == ms[i] && mods@[i].of(*c),
            i <= n,
            views(names@) == module_names(*c, ms.take(i as int)),
        decreases n - i,
    {
        let name = mods[i].name();
        let owned = String::from_str(name);
        let ghost before = names@;
        names.push(owned);
        proof {
            assert(mods@[i as int].of(*c));
            assert(views(names@) =~= views(before).push(owned@));
            assert(ms.take(i + 1) =~= ms.take(i as int).push(ms[i as int]));
        }
        i = i + 1;
    }
    assert(ms.take(n as int) =~= ms);
    proof {
        assert forall|i: int| 0 <= i < containers@.len() implies typings_ready(
            (#[trigger] containers@[i]).ty,
        ) by {
            assert(derefs(containers@)[i] == *containers@[i]);
            assert(c.containers_at(id)[i] == *containers@[i]);
        }
    }
    push_module_files(package_path, containers, &names, package, files);
    let ghost own = module_files(package_path@, c.containers_at(id), module_names(*c, ms), package@);
    let ghost blocks = sub_files(*c, package@, id);
    let ghost start = models_of(old(files)@);
    let mut j: usize = 0;
    while j < n
        invariant
            n == mods@.len(),
            ms == c.modules_at(id),
            n == ms.len(),
            collection_typed(*c),
            forall|i: int|
                0 <= i < mods@.len() ==> (#[trigger] mods@[i]).id() == ms[i] && mods@[i].of(*c)
                    && c.module_at(mods@[i].id()) && 0 <= c.depth_at(mods@[i].id()) < c.depth_at(id),
            blocks == sub_files(*c, package@, id),
            blocks.len() == n,
            j <= n,
            models_of(files@) == start + file_models(own + blocks.take(j as int).flatten()),
        decreases n - j,
    {
        let m = &mods[j];
        let (cs2, mods2) = m.entries();
        let path = m.path();
        let name = m.name();
        let sub = if path.unicode_len() == 0 {
            String::from_str(name)
        } else {
            cat3(path.as_str(), "/", name)
        };
        proof {
            assert(m.of(*c));
            assert(sub@ == sub_path(*c, ms[j as int]));
            assert(derefs(cs2@) =~= c.containers_at(m.id()));
        }
        let ghost before = models_of(files@);
        generate_typings_for_mod(c, sub.as_str(), &cs2, &mods2, files, package, Ghost(m.id()));
        proof {
            assert(blocks[j as int] == typing_files(*c, package@, sub@, ms[j as int]));
            assert(blocks.take(j + 1) =~= blocks.take(j as int).push(blocks[j as int]));
            blocks.take(j as int).lemma_flatten_push(blocks[j as int]);
            lemma_file_models_concat(own + blocks.take(j as int).flatten(), blocks[j as int]);
            assert(own + blocks.take(j + 1).flatten() =~= own + blocks.take(j as int).flatten()
                + blocks[j as int]);
        }
        j = j + 1;
    }
    proof {
        assert(blocks.take(n as int) =~= blocks);
        assert(typing_files(*c, package@, package_path@, id) == own + blocks.flatten());
    }
}

/// The type files of the collection, in a package named `package`: those
/// of the top, then those of each module after the module above it.
pub fn gen_typings(c: &ContainerCollection, package: &str) -> (r: Vec<ExportFile>)
    requires
        registered_typed(*c),
    ensures
        models_of(r@) == file_models(typing_files(*c, package@, ""@, 0)),
{
    proof {
        use_type_invariant(c);
        lemma_collection_typed(*c);
    }
    let (cs, mods) = c.containers_per_module();
    let mut files: Vec<ExportFile> = Vec::new();
    assert(derefs(cs@) =~= c.containers_at(0));
    generate_typings_for_mod(c, "", &cs, &mods, &mut files, package, Ghost(0u128));
    assert(models_of(Seq::<ExportFile>::empty()) =~= Seq::<(Seq<char>, Seq<char>)>::empty());
    files
}

/// What the `__init__` module of the package imports: every type, and the
/// deserialize and serialize functions where they are generated.
pub open spec fn init_imports(s: GenerationSettings) -> Seq<(Seq<char>, Option<Seq<char>>)> {
    seq![(".types"@, None::<Seq<char>>)] + (if s.deserializes() {
        seq![(".des"@, Some("deserialize"@))]
    } else {
        Seq::empty()
    }) + (if s.serializes() {
        seq![(".ser"@, Some("serialize"@))]
    } else {
        Seq::empty()
    })
}

/// The `__init__` module of the package.
pub open spec fn init_file(s: GenerationSettings) -> Seq<Seq<char>> {
    pushed_all(Seq::empty(), init_imports(s)).map_values(
        |e: (Seq<char>, bool, Seq<Seq<char>>)| import_line(e),
    )
}

/// The `__init__` module of the package.
fn gen_init_file(s: &GenerationSettings) -> (r: Vec<String>)
    ensures
        views(r@) == init_file(*s),
{
    let mut reg = ImportRegistry::new(String::new());
    reg.push(Package::Extern(String::from_str(".types")), ImportItem::All);
    let ghost imports = seq![(".types"@, None::<Seq<char>>)];
    proof {
        lemma_pushed_all_one(Seq::empty(), (".types"@, None::<Seq<char>>));
    }
    if s.des {
        let ghost before = reg.entries();
        reg.push(
            Package::Extern(String::from_str(".des")),
            ImportItem::Single(String::from_str("deserialize")),
        );
        proof {
            lemma_pushed_all_one(before, (".des"@, Some("deserialize"@)));
            lemma_pushed_all_concat(Seq::empty(), imports, seq![(".des"@, Some("deserialize"@))]);
            imports = imports + seq![(".des"@, Some("deserialize"@))];
        }
    }
    if s.ser {
        let ghost before = reg.entries();
        reg.push(
            Package::Extern(String::from_str(".ser")),
            ImportItem::Single(String::from_str("serialize")),
        );
        proof {
            lemma_pushed_all_one(before, (".ser"@, Some("serialize"@)));
            lemma_pushed_all_concat(Seq::empty(), imports, seq![(".ser"@, Some("serialize"@))]);
            imports = imports + seq![(".ser"@, Some("serialize"@))];
        }
    }
    assert(imports =~= init_imports(*s));
    reg.lines()
}

/// The files of the generated package, each by its kind and the lines of
/// its text: the helpers, the types, the type checks where they are on,
/// the serializer where serialization is on, the deserializer where
/// deserialization is on, and the `__init__` module.
pub open spec fn generated_files(c: ContainerCollection, s: GenerationSettings, package: Seq<char>) -> Seq<
    (Seq<char>, Seq<Seq<char>>),
> {
    let cs = c.registered().map_values(|x: (Container, Seq<Seq<char>>)| x.0);
    seq![("util"@, split_seq(UTIL_CODE@, "\n"@))] + typing_files(c, package, ""@, 0) + (if s.checks_types() {
        seq![("runtime_checks"@, checks_file(cs))]
    } else {
        Seq::empty()
    }) + (if s.serializes() {
        seq![
            ("serializer"@, split_seq(SERIALIZER_CODE@, "\n"@)),
            ("ser"@, ser_file(cs, s.checks_types())),
        ]
    } else {
        Seq::empty()
    }) + (if s.deserializes() {
        seq![
            ("deserializer"@, split_seq(DESERIALIZER_CODE@, "\n"@)),
            ("des"@, des_file(cs)),
        ]
    } else {
        Seq::empty()
    }) + seq![("__init__"@, init_file(s))]
}

/// Appends the helpers and the type files.
fn push_base_files(c: &ContainerCollection, package: &str, files: &mut Vec<ExportFile>)
    requires
        registered_typed(*c),
    ensures
        models_of(final(files)@) == models_of(old(files)@) + file_models(
            seq![("util"@, split_seq(UTIL_CODE@, "\n"@))] + typing_files(*c, package@, ""@, 0),
        ),
{
    let util = gen_util();
    push_file(files, String::from_str("util"), &util);
    let mut types = gen_typings(c, package);
    let ghost before = files@;
    let ghost t = types@;
    files.append(&mut types);
    proof {
        assert(files@ == before + t);
        assert(models_of(files@) =~= models_of(before) + models_of(t));
        lemma_file_models_concat(
            seq![("util"@, split_seq(UTIL_CODE@, "\n"@))],
            typing_files(*c, package@, ""@, 0),
        );
        assert(file_models(seq![("util"@, split_seq(UTIL_CODE@, "\n"@))]) =~= seq![
            ("util"@, file_text(split_seq(UTIL_CODE@, "\n"@))),
        ]);
    }
}

/// Appends the serializer and the serialization module.
fn push_ser_files(cs: &Vec<&Container>, checks: bool, files: &mut Vec<ExportFile>)
    requires
        forall|i: int| 0 <= i < cs@.len() ==> ser_ready((#[trigger] cs@[i]).ty),
    ensures
        models_of(final(files)@) == models_of(old(files)@) + file_models(
            seq![
                ("serializer"@, split_seq(SERIALIZER_CODE@, "\n"@)),
                ("ser"@, ser_file(derefs(cs@), checks)),
            ],
        ),
{
    let serializer = gen_serializer_code();
    push_file(files, String::from_str("serializer"), &serializer);
    let ser = gen_ser_file(cs, checks);
    push_file(files, String::from_str("ser"), &ser);
    assert(file_models(
        seq![
            ("serializer"@, split_seq(SERIALIZER_CODE@, "\n"@)),
            ("ser"@, ser_file(derefs(cs@), checks)),
        ],
    ) =~= seq![
        ("serializer"@, file_text(split_seq(SERIALIZER_CODE@, "\n"@))),
        ("ser"@, file_text(ser_file(derefs(cs@), checks))),
    ]);
}

/// Appends the deserializer and the deserialization module.
fn push_des_files(cs: &Vec<&Container>, files: &mut Vec<ExportFile>)
    ensures
        models_of(final(files)@) == models_of(old(files)@) + file_models(
            seq![
                ("deserializer"@, split_seq(DESERIALIZER_CODE@, "\n"@)),
                ("des"@, des_file(derefs(cs@))),
            ],
        ),
{
    let deserializer = gen_deserializer_code();
    push_file(files, String::from_str("deserializer"), &deserializer);
    let des = gen_des_file(cs);
    push_file(files, String::from_str("des"), &des);
    assert(file_models(
        seq![
            ("deserializer"@, split_seq(DESERIALIZER_CODE@, "\n"@)),
            ("des"@, des_file(derefs(cs@))),
        ],
    ) =~= seq![
        ("deserializer"@, file_text(split_seq(DESERIALIZER_CODE@, "\n"@))),
        ("des"@, file_text(des_file(derefs(cs@)))),
    ]);
}

/// Generates the Python package of the bindings of the collection, with the
/// settings, for a package named `package`.
pub fn generate(c: &ContainerCollection, settings: &GenerationSettings, package: &str) -> (r: Exports)
    requires
        registered_typed(*c),
        settings.serializes() ==> forall|i: int|
            0 <= i < c.registered().len() ==> ser_ready((#[trigger] c.registered()[i]).0.ty),
        settings.checks_types() ==> forall|i: int|
            0 <= i < c.registered().len() ==> check_ready((#[trigger] c.registered()[i]).0.ty),
        settings.serializes() || settings.deserializes() || settings.checks_types() ==> c.registered().len()
            > 0,
    ensures
        r.models() == file_models(generated_files(*c, *settings, package@)),
{
    proof {
        use_type_invariant(c);
        lemma_collection_typed(*c);
    }
    let cs = c.all_containers();
    let ghost regs = c.registered().map_values(|x: (Container, Seq<Seq<char>>)| x.0);
    assert(derefs(cs@) =~= regs);
    let mut files: Vec<ExportFile> = Vec::new();
    push_base_files(c, package, &mut files);
    let ghost mut parts = seq![("util"@, split_seq(UTIL_CODE@, "\n"@))] + typing_files(
        *c,
        package@,
        ""@,
        0,
    );
    assert(models_of(files@) =~= file_models(parts));
    if settings.runtime_type_checks {
        assert forall|i: int| 0 <= i < cs@.len() implies check_ready((#[trigger] cs@[i]).ty) by {
            assert(*cs@[i] == c.registered()[i].0);
        }
        let checks = gen_checks_file(&cs);
        push_file(&mut files, String::from_str("runtime_checks"), &checks);
        proof {
            lemma_file_models_concat(parts, seq![("runtime_checks"@, checks_file(regs))]);
            parts = parts + seq![("runtime_checks"@, checks_file(regs))];
            assert(models_of(files@) =~= file_models(parts));
        }
    }
    if settings.ser {
        assert forall|i: int| 0 <= i < cs@.len() implies ser_ready((#[trigger] cs@[i]).ty) by {
            assert(*cs@[i] == c.registered()[i].0);
        }
        push_ser_files(&cs, settings.runtime_type_checks, &mut files);
        proof {
            let more = seq![
                ("serializer"@, split_seq(SERIALIZER_CODE@, "\n"@)),
                ("ser"@, ser_file(regs, settings.checks_types())),
            ];
            lemma_file_models_concat(parts, more);
            parts = parts + more;
        }
    }
    if settings.des {
        push_des_files(&cs, &mut files);
        proof {
            let more = seq![
                ("deserializer"@, split_seq(DESERIALIZER_CODE@, "\n"@)),
                ("des"@, des_file(regs)),
            ];
            lemma_file_models_concat(parts, more);
            parts = parts + more;
        }
    }
    let init = gen_init_file(settings);
    push_file(&mut files, String::from_str("__init__"), &init);
    proof {
        lemma_file_models_concat(parts, seq![("__init__"@, init_file(*settings))]);
        parts = parts + seq![("__init__"@, init_file(*settings))];
        assert(parts =~= generated_files(*c, *settings, package@));
    }
    Exports { files }
}

/// Whether the lines `block` stand, one after the other, somewhere in
/// `lines`.
pub open spec fn holds_block(lines: Seq<Seq<char>>, block: Seq<Seq<char>>) -> bool {
    exists|k: int|
        0 <= k && k + block.len() <= lines.len() && #[trigger] lines.subrange(k, k + block.len())
            == block
}

/// The lines `block` standing at `k` in `lines` stand in `lines`.
proof fn lemma_holds_at(lines: Seq<Seq<char>>, block: Seq<Seq<char>>, k: int)
    requires
        0 <= k && k + block.len() <= lines.len(),
        lines.subrange(k, k + block.len()) == block,
    ensures
        holds_block(lines, block),
{
}

/// Lines that stand in `a` still stand in `a` with lines before and after
/// it.
proof fn lemma_block_in_middle(
    before: Seq<Seq<char>>,
    a: Seq<Seq<char>>,
    after: Seq<Seq<char>>,
    block: Seq<Seq<char>>,
)
    requires
        holds_block(a, block),
    ensures
        holds_block(before + a + after, block),
{
    let k = choose|k: int|
        0 <= k && k + block.len() <= a.len() && #[trigger] a.subrange(k, k + block.len()) == block;
    let all = before + a + after;
    let k2 = before.len() + k;
    assert(all.subrange(k2, k2 + block.len()) =~= a.subrange(k, k + block.len()));
    lemma_holds_at(all, block, k2);
}

/// Each of the blocks stands in the blocks joined by empty lines.
proof fn lemma_blank_joined_holds(bs: Seq<Seq<Seq<char>>>, i: int)
    requires
        0 <= i < bs.len(),
    ensures
        holds_block(blank_joined(bs), bs[i]),
    decreases bs.len(),
{
    let b = bs[i];
    if bs.len() == 1 {
        assert(blank_joined(bs) == b);
        assert(blank_joined(bs).subrange(0, 0int + b.len()) =~= b);
        lemma_holds_at(blank_joined(bs), b, 0);
    } else {
        let front = blank_joined(bs.drop_last());
        assert(blank_joined(bs) == front + seq![Seq::<char>::empty()] + bs.last());
        if i == bs.len() - 1 {
            let k = front.len() + 1int;
            assert(blank_joined(bs).subrange(k, k + b.len()) =~= b);
            lemma_holds_at(blank_joined(bs), b, k);
        } else {
            lemma_blank_joined_holds(bs.drop_last(), i);
            assert(bs.drop_last()[i] == b);
            lemma_block_in_middle(
                Seq::<Seq<char>>::empty(),
                front,
                seq![Seq::<char>::empty()] + bs.last(),
                b,
            );
            assert(Seq::<Seq<char>>::empty() + front + (seq![Seq::<char>::empty()] + bs.last())
                =~= blank_joined(bs));
        }
    }
}

/// The check function of each container stands in the module of checks.
proof fn lemma_check_function_held(cs: Seq<Container>, i: int)
    requires
        0 <= i < cs.len(),
    ensures
        holds_block(checks_file(cs), check_function(cs[i])),
{
    lemma_blank_joined_holds(Seq::new(cs.len(), |k: int| check_function(cs[k])), i);
    assert(Seq::new(cs.len(), |k: int| check_function(cs[k]))[i] == check_function(cs[i]));
    lemma_block_in_middle(
        split_seq(CHECKS_HEADER@, "\n"@),
        check_functions(cs),
        Seq::empty(),
        check_function(cs[i]),
    );
    assert(split_seq(CHECKS_HEADER@, "\n"@) + check_functions(cs) + Seq::<Seq<char>>::empty()
        =~= checks_file(cs));
}

/// The serializer of each container stands in the serialization module.
proof fn lemma_ser_function_held(cs: Seq<Container>, checks: bool, i: int)
    requires
        0 <= i < cs.len(),
    ensures
        holds_block(ser_file(cs, checks), ser_function(cs[i])),
{
    lemma_blank_joined_holds(Seq::new(cs.len(), |k: int| ser_function(cs[k])), i);
    assert(Seq::new(cs.len(), |k: int| ser_function(cs[k]))[i] == ser_function(cs[i]));
    lemma_block_in_middle(
        split_seq(SER_HEADER@, "\n"@),
        ser_functions(cs),
        seq![Seq::<char>::empty()] + serialize_func(cs, checks),
        ser_function(cs[i]),
    );
    assert(split_seq(SER_HEADER@, "\n"@) + ser_functions(cs) + (seq![Seq::<char>::empty()]
        + serialize_func(cs, checks)) =~= ser_file(cs, checks));
}

/// The deserializer of each container stands in the deserialization
/// module.
proof fn lemma_des_function_held(cs: Seq<Container>, i: int)
    requires
        0 <= i < cs.len(),
    ensures
        holds_block(des_file(cs), des_function(cs[i])),
{
    lemma_blank_joined_holds(Seq::new(cs.len(), |k: int| des_function(cs[k])), i);
    assert(Seq::new(cs.len(), |k: int| des_function(cs[k]))[i] == des_function(cs[i]));
    lemma_block_in_middle(
        split_seq(DES_HEADER@, "\n"@),
        des_functions(cs),
        seq![Seq::<char>::empty()] + deserialize_func(cs),
        des_function(cs[i]),
    );
    assert(split_seq(DES_HEADER@, "\n"@) + des_functions(cs) + (seq![Seq::<char>::empty()]
        + deserialize_func(cs)) =~= des_file(cs));
}

/// Every registered container gets its functions in the generated package:
/// its serializer in the `ser` module where serialization is on, its
/// deserializer in the `des` module where deserialization is on, and its
/// type check in the `runtime_checks` module where type checks are on.
#[verifier::rlimit(30)]
pub proof fn law_every_container_generated(
    c: ContainerCollection,
    s: GenerationSettings,
    package: Seq<char>,
    i: int,
)
    requires
        0 <= i < c.registered().len(),
    ensures
        s.serializes() ==> exists|j: int|
            0 <= j < generated_files(c, s, package).len() && generated_files(c, s, package)[j].0
                == "ser"@ && holds_block(
                #[trigger] generated_files(c, s, package)[j].1,
                ser_function(c.registered()[i].0),
            ),
        s.deserializes() ==> exists|j: int|
            0 <= j < generated_files(c, s, package).len() && generated_files(c, s, package)[j].0
                == "des"@ && holds_block(
                #[trigger] generated_files(c, s, package)[j].1,
                des_function(c.registered()[i].0),
            ),
        s.checks_types() ==> exists|j: int|
            0 <= j < generated_files(c, s, package).len() && generated_files(c, s, package)[j].0
                == "runtime_checks"@ && holds_block(
                #[trigger] generated_files(c, s, package)[j].1,
                check_function(c.registered()[i].0),
            ),
{
    let cs = c.registered().map_values(|x: (Container, Seq<Seq<char>>)| x.0);
    let x = c.registered()[i].0;
    assert(cs[i] == x);
    let files = generated_files(c, s, package);
    let base = seq![("util"@, split_seq(UTIL_CODE@, "\n"@))] + typing_files(c, package, ""@, 0);
    let checks: Seq<(Seq<char>, Seq<Seq<char>>)> = if s.checks_types() {
        seq![("runtime_checks"@, checks_file(cs))]
    } else {
        Seq::empty()
    };
    let ser: Seq<(Seq<char>, Seq<Seq<char>>)> = if s.serializes() {
        seq![
            ("serializer"@, split_seq(SERIALIZER_CODE@, "\n"@)),
            ("ser"@, ser_file(cs, s.checks_types())),
        ]
    } else {
        Seq::empty()
    };
    let des: Seq<(Seq<char>, Seq<Seq<char>>)> = if s.deserializes() {
        seq![
            ("deserializer"@, split_seq(DESERIALIZER_CODE@, "\n"@)),
            ("des"@, des_file(cs)),
        ]
    } else {
        Seq::empty()
    };
    assert(files == base + checks + ser + des + seq![("__init__"@, init_file(s))]);
    if s.checks_types() {
        let j = base.len() as int;
        assert(files[j] == ("runtime_checks"@, checks_file(cs)));
        lemma_check_function_held(cs, i);
        assert(holds_block(generated_files(c, s, package)[j].1, check_function(x)));
    }
    if s.serializes() {
        let j = base.len() + checks.len() + 1int;
        assert(files[j] == ("ser"@, ser_file(cs, s.checks_types())));
        lemma_ser_function_held(cs, s.checks_types(), i);
        assert(holds_block(generated_files(c, s, package)[j].1, ser_function(x)));
    }
    if s.deserializes() {
        let j = base.len() + checks.len() + ser.len() + 1int;
        assert(files[j] == ("des"@, des_file(cs)));
        lemma_des_function_held(cs, i);
        assert(holds_block(generated_files(c, s, package)[j].1, des_function(x)));
    }
}

/// Whether one of the files `fs` is of the kind `kind`.
pub open spec fn has_file(fs: Seq<(Seq<char>, Seq<Seq<char>>)>, kind: Seq<char>) -> bool {
    exists|j: int| 0 <= j < fs.len() && #[trigger] fs[j].0 == kind
}

/// Whether the kind of every file of `fs` starts with `t`, as those of the
/// type files do.
spec fn kinds_of_types(fs: Seq<(Seq<char>, Seq<Seq<char>>)>) -> bool {
    forall|j: int| 0 <= j < fs.len() ==> (#[trigger] fs[j].0).len() > 0 && fs[j].0[0] == 't'
}

proof fn lemma_flatten_kinds(ss: Seq<Seq<(Seq<char>, Seq<Seq<char>>)>>)
    requires
        forall|i: int| 0 <= i < ss.len() ==> kinds_of_types(#[trigger] ss[i]),
    ensures
        kinds_of_types(ss.flatten()),
    decreases ss.len(),
{
    if ss.len() > 0 {
        lemma_flatten_kinds(ss.drop_first());
        assert(kinds_of_types(ss[0]));
        let f = ss.flatten();
        assert(f == ss.first() + ss.drop_first().flatten());
        assert forall|j: int| 0 <= j < f.len() implies (#[trigger] f[j].0).len() > 0 && f[j].0[0]
            == 't' by {
            if j < ss[0].len() {
                assert(f[j] == ss[0][j]);
            } else {
                assert(f[j] == ss.drop_first().flatten()[j - ss[0].len()]);
            }
        }
    }
}

/// The kinds of the type files all start with `t`.
proof fn lemma_typing_kinds(c: ContainerCollection, package: Seq<char>, path: Seq<char>, id: u128)
    ensures
        kinds_of_types(typing_files(c, package, path, id)),
    decreases c.depth_at(id), 1int,
{
    reveal_strlit("types/");
    let cs = c.containers_at(id);
    let m = module_files(path, cs, module_names(c, c.modules_at(id)), package);
    assert forall|j: int| 0 <= j < m.len() implies (#[trigger] m[j].0).len() > 0 && m[j].0[0]
        == 't' by {
        if j == 0 {
            assert(m[j].0 == types_dir(path) + "__init__"@);
        } else {
            assert(m[j].0 == types_dir(path) + "_"@ + snake_case(cs[j - 1].name@));
        }
        assert(types_dir(path)[0] == 't');
    }
    lemma_sub_kinds(c, package, id);
    lemma_flatten_kinds(sub_files(c, package, id));
    let f = typing_files(c, package, path, id);
    let rest = sub_files(c, package, id).flatten();
    assert(f == m + rest);
    assert forall|j: int| 0 <= j < f.len() implies (#[trigger] f[j].0).len() > 0 && f[j].0[0]
        == 't' by {
        if j < m.len() {
            assert(f[j] == m[j]);
        } else {
            assert(f[j] == rest[j - m.len()]);
        }
    }
}

/// The kinds of the type files of the modules below `id` all start with
/// `t`.
proof fn lemma_sub_kinds(c: ContainerCollection, package: Seq<char>, id: u128)
    ensures
        forall|i: int|
            0 <= i < sub_files(c, package, id).len() ==> kinds_of_types(
                #[trigger] sub_files(c, package, id)[i],
            ),
    decreases c.depth_at(id), 0int,
{
    let mods = c.modules_at(id);
    assert forall|i: int| 0 <= i < sub_files(c, package, id).len() implies kinds_of_types(
        #[trigger] sub_files(c, package, id)[i],
    ) by {
        if 0 <= c.depth_at(mods[i]) < c.depth_at(id) {
            lemma_typing_kinds(c, package, sub_path(c, mods[i]), mods[i]);
        }
    }
}

/// The generated package has the helpers, the `__init__` of the types and
/// the `__init__` of the package whatever the settings; the module of type
/// checks exactly where type checks are on; the serializer and the
/// serialization module exactly where serialization is on; and the
/// deserializer and the deserialization module exactly where
/// deserialization is on.
#[verifier::rlimit(30)]
pub proof fn law_files_follow_settings(c: ContainerCollection, s: GenerationSettings, package: Seq<char>)
    ensures
        has_file(generated_files(c, s, package), "util"@),
        has_file(generated_files(c, s, package), "types/__init__"@),
        has_file(generated_files(c, s, package), "__init__"@),
        has_file(generated_files(c, s, package), "runtime_checks"@) == s.checks_types(),
        has_file(generated_files(c, s, package), "serializer"@) == s.serializes(),
        has_file(generated_files(c, s, package), "ser"@) == s.serializes(),
        has_file(generated_files(c, s, package), "deserializer"@) == s.deserializes(),
        has_file(generated_files(c, s, package), "des"@) == s.deserializes(),
{
    reveal_strlit("");
    reveal_strlit("util");
    reveal_strlit("types/");
    reveal_strlit("__init__");
    reveal_strlit("types/__init__");
    reveal_strlit("runtime_checks");
    reveal_strlit("serializer");
    reveal_strlit("ser");
    reveal_strlit("deserializer");
    reveal_strlit("des");
    let cs = c.registered().map_values(|x: (Container, Seq<Seq<char>>)| x.0);
    let files = generated_files(c, s, package);
    let t = typing_files(c, package, ""@, 0);
    let base = seq![("util"@, split_seq(UTIL_CODE@, "\n"@))] + t;
    let checks: Seq<(Seq<char>, Seq<Seq<char>>)> = if s.checks_types() {
        seq![("runtime_checks"@, checks_file(cs))]
    } else {
        Seq::empty()
    };
    let ser: Seq<(Seq<char>, Seq<Seq<char>>)> = if s.serializes() {
        seq![
            ("serializer"@, split_seq(SERIALIZER_CODE@, "\n"@)),
            ("ser"@, ser_file(cs, s.checks_types())),
        ]
    } else {
        Seq::empty()
    };
    let des: Seq<(Seq<char>, Seq<Seq<char>>)> = if s.deserializes() {
        seq![
            ("deserializer"@, split_seq(DESERIALIZER_CODE@, "\n"@)),
            ("des"@, des_file(cs)),
        ]
    } else {
        Seq::empty()
    };
    let tail = seq![("__init__"@, init_file(s))];
    assert(files == base + checks + ser + des + tail);
    let nb = base.len() as int;
    let nc = nb + checks.len();
    let ns = nc + ser.len();
    let nd = ns + des.len();
    assert(files[0].0 == "util"@);
    assert(files[nd].0 == "__init__"@);
    lemma_typing_kinds(c, package, ""@, 0);
    assert(t[0].0 == types_dir(""@) + "__init__"@);
    assert(types_dir(""@) + "__init__"@ =~= "types/__init__"@);
    assert(files[1].0 == "types/__init__"@);
    assert(forall|j: int| 1 <= j < nb ==> files[j] == t[j - 1]);
    assert(forall|j: int| nb <= j < nc ==> files[j] == checks[j - nb]);
    assert(forall|j: int| nc <= j < ns ==> files[j] == ser[j - nc]);
    assert(forall|j: int| ns <= j < nd ==> files[j] == des[j - ns]);
    // the kinds of the type files start with `t`, those of the others do not
    assert forall|j: int| 1 <= j < nb implies (#[trigger] files[j].0)[0] == 't' by {
        assert(files[j] == t[j - 1]);
    }
    if s.checks_types() {
        assert(files[nb].0 == "runtime_checks"@);
    }
    if s.serializes() {
        assert(files[nc].0 == "serializer"@);
        assert(files[nc + 1].0 == "ser"@);
    }
    if s.deserializes() {
        assert(files[ns].0 == "deserializer"@);
        assert(files[ns + 1].0 == "des"@);
    }
    assert(files[0].0[0] == 'u');
    assert(files[nd].0[0] == '_');
    assert forall|j: int| nb <= j < nd implies (#[trigger] files[j].0)[0] == 'r' && s.checks_types()
        && j == nb || files[j].0[0] == 's' && s.serializes() || files[j].0[0] == 'd'
        && s.deserializes() by {
        if j < nc {
            assert(files[j] == checks[j - nb]);
        } else if j < ns {
            assert(files[j] == ser[j - nc]);
        } else {
            assert(files[j] == des[j - ns]);
        }
    }
    assert forall|j: int| 0 <= j < files.len() && files[j].0 == "runtime_checks"@ implies s.checks_types() by {
        assert(files[j].0[0] == 'r');
    }
    assert forall|j: int| 0 <= j < files.len() && (files[j].0 == "ser"@ || files[j].0 == "serializer"@) implies s.serializes() by {
        assert(files[j].0[0] == 's');
    }
    assert forall|j: int| 0 <= j < files.len() && (files[j].0 == "des"@ || files[j].0 == "deserializer"@) implies s.deserializes() by {
        assert(files[j].0[0] == 'd');
    }
}

/// `Exports::file` finds a file of a kind exactly where the generated files
/// hold one of that kind.
pub proof fn law_file_found(fs: Seq<(Seq<char>, Seq<Seq<char>>)>, kind: Seq<char>)
    ensures
        (first_of(file_models(fs), kind) is Some) == has_file(fs, kind),
    decreases fs.len(),
{
    if fs.len() > 0 {
        law_file_found(fs.drop_first(), kind);
        assert(file_models(fs).drop_first() =~= file_models(fs.drop_first()));
        assert(file_models(fs)[0].0 == fs[0].0);
        if has_file(fs.drop_first(), kind) {
            let j = choose|j: int| 0 <= j < fs.drop_first().len() && #[trigger] fs.drop_first()[j].0 == kind;
            assert(fs[j + 1].0 == kind);
        }
        if has_file(fs, kind) && fs[0].0 != kind {
            let j = choose|j: int| 0 <= j < fs.len() && #[trigger] fs[j].0 == kind;
            assert(fs.drop_first()[j - 1].0 == kind);
        }
    } else {
        assert(file_models(fs).len() == 0);
    }
}

/// What one of the sequences holds, the sequences one after the other
/// hold.
proof fn lemma_flatten_contains<A>(ss: Seq<Seq<A>>, i: int, x: A)
    requires
        0 <= i < ss.len(),
        ss[i].contains(x),
    ensures
        ss.flatten().contains(x),
    decreases ss.len(),
{
    let f = ss.flatten();
    assert(f == ss.first() + ss.drop_first().flatten());
    if i == 0 {
        let w = choose|w: int| 0 <= w < ss[0].len() && ss[0][w] == x;
        assert(f[w] == x);
    } else {
        assert(ss.drop_first()[i - 1] == ss[i]);
        lemma_flatten_contains(ss.drop_first(), i - 1, x);
        let w = choose|w: int|
            0 <= w < ss.drop_first().flatten().len() && ss.drop_first().flatten()[w] == x;
        assert(f[ss.first().len() + w] == x);
    }
}

/// The path of the package of the module `id`: empty for the root.
pub open spec fn package_path_of(c: ContainerCollection, id: u128) -> Seq<char> {
    if id == 0 {
        ""@
    } else {
        sub_path(c, id)
    }
}

/// The type files of a module directly below the module `q` are among
/// those of `q`.
#[verifier::rlimit(40)]
proof fn lemma_sub_included(
    c: ContainerCollection,
    package: Seq<char>,
    path: Seq<char>,
    q: u128,
    m: u128,
    x: (Seq<char>, Seq<Seq<char>>),
)
    requires
        c.modules_at(q).contains(m),
        0 <= c.depth_at(m) < c.depth_at(q),
        typing_files(c, package, sub_path(c, m), m).contains(x),
    ensures
        typing_files(c, package, path, q).contains(x),
{
    let mods = c.modules_at(q);
    let w = choose|w: int| 0 <= w < mods.len() && mods[w] == m;
    let subs = sub_files(c, package, q);
    assert(subs[w] == typing_files(c, package, sub_path(c, m), m));
    lemma_flatten_contains(subs, w, x);
    let mf = module_files(path, c.containers_at(q), module_names(c, c.modules_at(q)), package);
    let t = typing_files(c, package, path, q);
    assert(t == mf + subs.flatten());
    let v = choose|v: int| 0 <= v < subs.flatten().len() && subs.flatten()[v] == x;
    assert(t[mf.len() + v] == x);
}

/// The type files of a module reached from the root are among those of
/// the root.
proof fn lemma_reached_included(
    c: ContainerCollection,
    package: Seq<char>,
    id: u128,
    k: nat,
    x: (Seq<char>, Seq<Seq<char>>),
)
    requires
        c.reaches(id, k),
        typing_files(c, package, package_path_of(c, id), id).contains(x),
    ensures
        typing_files(c, package, ""@, 0).contains(x),
    decreases k,
{
    if id != 0 {
        let p = choose|p: u128|
            c.module_at(p) && #[trigger] c.modules_at(p).contains(id) && 0 <= c.depth_at(id)
                < c.depth_at(p) && c.reaches(p, (k - 1) as nat);
        lemma_sub_included(c, package, package_path_of(c, p), p, id, x);
        lemma_reached_included(c, package, p, (k - 1) as nat, x);
    }
}

/// Every registered container gets its type file in the generated package:
/// a file of the types package, named after the container in snake case,
/// that holds the container's classes.
#[verifier::rlimit(40)]
pub proof fn law_every_container_typed(
    c: ContainerCollection,
    s: GenerationSettings,
    package: Seq<char>,
    i: int,
)
    requires
        c.inv(),
        0 <= i < c.registered().len(),
    ensures
        exists|j: int, p: Seq<char>|
            #![trigger generated_files(c, s, package)[j], types_dir(p)]
            0 <= j < generated_files(c, s, package).len() && generated_files(c, s, package)[j] == (
                types_dir(p) + "_"@ + snake_case(c.registered()[i].0.name@),
                class_file(c.registered()[i].0, package),
            ),
{
    let x = c.registered()[i].0;
    c.lemma_registered_held(i);
    let id = choose|id: u128|
        c.module_at(id) && #[trigger] c.containers_at(id).contains(x) && c.names_to(id)
            == c.registered()[i].1;
    let cs = c.containers_at(id);
    let w = choose|w: int| 0 <= w < cs.len() && cs[w] == x;
    c.lemma_holder_reached(id);
    let path = package_path_of(c, id);
    let mf = module_files(path, cs, module_names(c, c.modules_at(id)), package);
    let file = (types_dir(path) + "_"@ + snake_case(x.name@), class_file(x, package));
    assert(mf[w + 1] == file);
    let t = typing_files(c, package, path, id);
    assert(t == mf + sub_files(c, package, id).flatten());
    assert(t[w + 1] == file);
    lemma_reached_included(c, package, id, id as nat, file);
    let t0 = typing_files(c, package, ""@, 0);
    let v = choose|v: int| 0 <= v < t0.len() && t0[v] == file;
    let gf = generated_files(c, s, package);
    let base = seq![("util"@, split_seq(UTIL_CODE@, "\n"@))] + t0;
    assert(gf.subrange(0, base.len() as int) == base);
    assert(gf[v + 1] == base[v + 1]);
    assert(gf[v + 1] == file);
}

/// A value that refers to a container, by the container's name and path,
/// is written, read and checked by calls of the very functions that the
/// package defines for that container.
pub proof fn law_references_call_container_functions(
    c: Container,
    m: ObjectMeta,
    p: AccessPath,
)
    requires
        m.name@ == c.name@,
        m.path@ == c.path@,
    ensures
        ({
            let id = container_ident(c);
            &&& ser_function(c)[0] == "def serialize_"@ + id + "(s, v):"@
            &&& ser_lines(ValueType::Object(m), p) == seq!["serialize_"@ + id + "(s, "@ + p.1 + ")"@]
            &&& des_function(c)[0] == "def deserialize_"@ + id + "(d) -> "@ + container_qualified(c)
                + ":"@
            &&& des_text(ValueType::Object(m), Seq::<char>::empty()) == "deserialize_"@ + id + "(d)"@
            &&& check_function(c)[0] == "def assert_"@ + id + "(v):"@
            &&& check_lines(ValueType::Object(m), p) == seq!["assert_"@ + id + "("@ + p.1 + ")"@]
        }),
{
    law_object_code_agrees(m, p, Seq::<char>::empty());
    assert(object_ident(m) == container_ident(c));
    assert(Seq::<char>::empty() + "deserialize_"@ + object_ident(m) + "(d)"@ =~= "deserialize_"@
        + object_ident(m) + "(d)"@);
}

} // verus!
