use postcard_bindgen_core::code_gen::python::runtime::{gen_deserializer_code, gen_serializer_code};
use std::collections::HashMap;

use postcard_bindgen_core::code_gen::python::imports::{ImportItem, ImportRegistry, Package};
use postcard_bindgen_core::code_gen::python::types::{
    as_byte_string, bool_to_python_bool, gen_des_accessor, gen_ser_accessor, gen_ty_check,
    gen_typings, FieldAccessor,
};
use postcard_bindgen_core::code_gen::variable_path::{decimal_string, VariableAccess, VariablePath};
use postcard_bindgen_core::path::PathBuf;
use postcard_bindgen_core::type_info::GenBinding;
use postcard_bindgen_core::ArchPointerLen;

#[test]
fn variable_path_into_string() {
    let path = VariablePath::new("v".to_string())
        .modify_push(VariableAccess::Field("a".into()))
        .modify_push(VariableAccess::Indexed(12));
    assert_eq!(path.duplicate().into_string("_"), "v_a_12");
    assert_eq!(path.to_code(), "v.a[12]");
}

#[test]
fn variable_path_push_then_pop() {
    let mut path = VariablePath::default();
    path.push(VariableAccess::Field("x".into()));
    assert_eq!(path.to_code(), "v.x");
    path.push(VariableAccess::Indexed(0));
    let popped = path.pop();
    assert_eq!(popped.map(|a| a.into_string()), Some("0".to_string()));
    assert_eq!(path.to_code(), "v.x");

    let (path, popped) = path.modify_pop();
    assert_eq!(popped.map(|a| a.into_string()), Some("x".to_string()));
    let (path, popped) = path.modify_pop();
    assert!(popped.is_none());
    assert_eq!(path.into_string("."), "v.");
}

#[test]
fn decimals() {
    assert_eq!(decimal_string(0), "0");
    assert_eq!(decimal_string(7), "7");
    assert_eq!(decimal_string(1234567), "1234567");
    assert_eq!(decimal_string(usize::MAX), format!("{}", usize::MAX));
}

#[test]
fn pointer_widths() {
    assert_eq!(ArchPointerLen::U32.into_bytes(), 4);
    assert_eq!(ArchPointerLen::U64.into_bytes(), 8);
}

#[test]
fn python_literals() {
    assert_eq!(bool_to_python_bool(true), "True");
    assert_eq!(bool_to_python_bool(false), "False");
    assert_eq!(as_byte_string(1), "U8_BYTES");
    assert_eq!(as_byte_string(4), "U32_BYTES");
    assert_eq!(as_byte_string(16), "U128_BYTES");
}

#[test]
fn imports_are_sorted_by_package_and_merged() {
    let mut reg = ImportRegistry::new("test".to_string());
    reg.push(Package::Extern("typing".into()), ImportItem::Single("Union".into()));
    reg.push(
        Package::Intern(PathBuf::from_parts(vec!["types".into()])),
        ImportItem::All,
    );
    reg.push(Package::Extern("typing".into()), ImportItem::Single("Tuple".into()));
    reg.push(
        Package::Extern("dataclasses".into()),
        ImportItem::Aliased { item_name: "dataclass".into(), alias: "dc".into() },
    );
    assert_eq!(
        reg.lines(),
        vec![
            "from dataclasses import dataclass as dc".to_string(),
            "from test.types import *".into(),
            "from typing import Union, Tuple".into(),
        ]
    );
}

#[test]
fn importing_twice_changes_nothing() {
    let mut reg = ImportRegistry::new("pkg".to_string());
    reg.push(Package::Extern("typing".into()), ImportItem::Single("Optional".into()));
    let once = reg.lines();
    reg.push(Package::Extern("typing".into()), ImportItem::Single("Optional".into()));
    assert_eq!(reg.lines(), once);
    assert_eq!(once, vec!["from typing import Optional".to_string()]);
}

#[test]
fn ser_accessors() {
    let v = <u8 as GenBinding>::get_type();
    assert_eq!(
        gen_ser_accessor(&v, VariablePath::default()),
        vec!["s.serialize_number(U8_BYTES, False, v)".to_string()]
    );
    let v = <Vec<i16> as GenBinding>::get_type();
    let p = VariablePath::default().modify_push(VariableAccess::Field("xs".into()));
    assert_eq!(
        gen_ser_accessor(&v, p),
        vec!["s.serialize_array(lambda s, v: s.serialize_number(U16_BYTES, True, v), v.xs, None)"
            .to_string()]
    );
    let v = <Option<bool> as GenBinding>::get_type();
    let p = VariablePath::default().modify_push(VariableAccess::Field("o".into()));
    assert_eq!(
        gen_ser_accessor(&v, p),
        vec![
            "if v.o is not None:".to_string(),
            "    s.serialize_number(U32_BYTES, False, 1)".into(),
            "    s.serialize_bool(v.o)".into(),
            "else:".into(),
            "    s.serialize_number(U32_BYTES, False, 0)".into(),
        ]
    );
}

#[test]
fn des_accessors() {
    let v = <u8 as GenBinding>::get_type();
    assert_eq!(
        gen_des_accessor(&v, FieldAccessor::Object("a")),
        "a = d.deserialize_number(U8_BYTES, False)"
    );
    let v = <HashMap<String, u32> as GenBinding>::get_type();
    assert_eq!(
        gen_des_accessor(&v, FieldAccessor::Plain),
        "d.deserialize_map((lambda d: (d.deserialize_string(), d.deserialize_number(U32_BYTES, False))))"
    );
    let v = <[bool; 2] as GenBinding>::get_type();
    assert_eq!(
        gen_des_accessor(&v, FieldAccessor::Array),
        "d.deserialize_array(lambda d: d.deserialize_bool(), 2)"
    );
}

#[test]
fn type_checks() {
    let v = <bool as GenBinding>::get_type();
    assert_eq!(
        gen_ty_check(&v, VariablePath::default()),
        vec!["assert isinstance(v, bool), \"{} is not a bool\".format(v)".to_string()]
    );
}

#[test]
fn typings() {
    let mut reg = ImportRegistry::new("pkg".to_string());
    let v = <Option<Vec<u64>> as GenBinding>::get_type();
    assert_eq!(gen_typings(&v, &mut reg), "Optional[list[u64]]");
    let v = <(u8, String) as GenBinding>::get_type();
    assert_eq!(gen_typings(&v, &mut reg), "Tuple[u8, str]");
    let lines = reg.lines();
    assert!(lines.iter().any(|l| l.starts_with("from typing import")));
}

#[test]
fn serializer_writes_postcard_bytes() {
    let ser = gen_serializer_code();
    assert!(ser.contains(&"            self.bytes.append(int(value) & 0xFF)".to_string()));
    assert!(ser.contains(&"        encoded = s.encode(\"utf-8\")".to_string()));
    let des = gen_deserializer_code();
    assert!(des.contains(&"        return bytes(str_bytes).decode(\"utf-8\")".to_string()));
}
