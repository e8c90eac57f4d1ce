use std::collections::HashMap;

use postcard_bindgen_core::code_gen::python::files::generate;
use postcard_bindgen_core::code_gen::python::GenerationSettings;
use postcard_bindgen_core::path::Path;
use postcard_bindgen_core::registry::{
    BindingsRegistry, EnumType, StructFields, StructType, TupleFields, TupleStructType,
    UnitStructType,
};
use postcard_bindgen_core::type_info::{GenBinding, ObjectMeta, ValueType};

struct DummyStructType;

impl GenBinding for DummyStructType {
    fn describes(v: ValueType) -> bool {
        matches!(v, ValueType::Object(ref m) if m.name == "StructType")
    }

    fn get_type() -> ValueType {
        ValueType::Object(ObjectMeta { name: "StructType", path: Path::new("main_crate", "::") })
    }
}

fn init_registry() -> BindingsRegistry {
    let mut registry = BindingsRegistry::default();

    let mut struct_type = StructType::new();
    struct_type.register_field::<u32>("field_1");
    struct_type.register_field::<String>("field_2");
    struct_type.register_field::<Vec<u32>>("field_3");
    struct_type.register_field::<Vec<DummyStructType>>("field_4");
    struct_type.register_field::<core::ops::Range<u32>>("field_5");
    struct_type.register_field::<HashMap<String, u32>>("field_6");
    struct_type.register_field::<HashMap<u32, u32>>("field_7");
    struct_type.register_field::<Option<u32>>("field_8");
    struct_type.register_field::<bool>("field_9");
    struct_type.register_field::<(u32, String)>("field_10");
    struct_type.register_field::<[String; 3]>("field_11");
    struct_type.register_field::<&[u32]>("field_12");

    registry.register_struct_binding("StructType", "main_crate", struct_type);

    let struct_type = UnitStructType::new();
    registry.register_unit_struct_binding("UnitStructType", "main_crate", struct_type);

    let mut struct_type = TupleStructType::new();
    struct_type.register_field::<u32>();
    struct_type.register_field::<String>();
    registry.register_tuple_struct_binding("TupleStructType", "main_crate", struct_type);

    let mut enum_type = EnumType::new();
    enum_type.register_variant("AVariant");

    let mut fields = TupleFields::default();
    fields.register_field::<u32>();
    fields.register_field::<String>();
    enum_type.register_variant_tuple("BVariant", fields);

    let mut fields = StructFields::default();
    fields.register_field::<u32>("field_1");
    fields.register_field::<String>("field_2");

    fields.register_field::<DummyStructType>("struct_type");
    enum_type.register_unnamed_struct("CVariant", fields);

    registry.register_enum_binding("EnumType", "main_crate", enum_type);

    registry
}

fn kinds(settings: &GenerationSettings) -> Vec<String> {
    let containers = init_registry().into_entries();
    let exports = generate(&containers, settings, "test");
    exports.files.iter().map(|f| f.content_type.clone()).collect()
}

#[test]
fn python_test_runtime_checks() {
    let containers = init_registry().into_entries();

    let gen_settings = GenerationSettings::enable_all();
    let exports = generate(&containers, &gen_settings, "test");

    let runtime_checks_file = exports.file("runtime_checks").unwrap();
    assert!(runtime_checks_file.starts_with("from .util import *\n"));
    assert!(runtime_checks_file.contains(
        "    assert isinstance(v.field_9, bool), \"{} is not a bool\".format(v.field_9)\n"
    ));
    assert!(runtime_checks_file.contains(
        "    assert len(v.field_10) == 2, \"{} is not of length {}\".format(v.field_10, 2)\n"
    ));
    assert!(runtime_checks_file.contains(
        "def assert_ENUM_TYPE(v):\n    def assert_AVariant(v):\n        pass\n"
    ));
    assert!(runtime_checks_file.contains(
        "    if isinstance(v, EnumType_AVariant):\n        assert_AVariant(v)\n    elif isinstance(v, EnumType_BVariant):\n        assert_BVariant(v)\n    elif isinstance(v, EnumType_CVariant):\n        assert_CVariant(v)\n    else:\n        raise TypeError(\"variant {} not exists\".format(v))\n"
    ));
    assert!(runtime_checks_file.contains("        assert_STRUCT_TYPE(v.struct_type)\n"));
}

#[test]
fn python_test_ser_with_runtime_checks() {
    let containers = init_registry().into_entries();

    let gen_settings = GenerationSettings::enable_all();
    let exports = generate(&containers, &gen_settings, "test");

    let ser_file = exports.file("ser").unwrap();
    assert!(ser_file.contains(
        "def serialize_UNIT_STRUCT_TYPE(s, v):\n    pass\n\ndef serialize_TUPLE_STRUCT_TYPE(s, v):\n    s.serialize_number(U32_BYTES, False, v[0])\n    s.serialize_string(v[1])\n"
    ));
    assert!(ser_file.contains(
        "    s.serialize_array(lambda s, v: s.serialize_string(v), v.field_11, 3)\n"
    ));
    assert!(ser_file.contains(
        "    elif isinstance(v, EnumType_CVariant):\n        s.serialize_number(U32_BYTES, False, 2)\n        s.serialize_number(U32_BYTES, False, v.field_1)\n        s.serialize_string(v.field_2)\n        serialize_STRUCT_TYPE(s, v.struct_type)\n"
    ));
    assert!(ser_file.contains("from .runtime_checks import *\n"));
    assert!(ser_file.contains("        assert_STRUCT_TYPE(value)\n        serialize_STRUCT_TYPE(s, value)\n"));
}

#[test]
fn python_test_ser_without_runtime_checks() {
    let containers = init_registry().into_entries();

    let gen_settings = GenerationSettings::enable_all().runtime_type_checks(false);
    let exports = generate(&containers, &gen_settings, "test");

    let ser_file = exports.file("ser").unwrap();
    assert!(ser_file.contains(
        "def serialize_UNIT_STRUCT_TYPE(s, v):\n    pass\n\ndef serialize_TUPLE_STRUCT_TYPE(s, v):\n    s.serialize_number(U32_BYTES, False, v[0])\n    s.serialize_string(v[1])\n"
    ));
    assert!(!ser_file.contains("runtime_checks"));
    assert!(!ser_file.contains("assert_"));
    assert!(ser_file.contains("    if isinstance(value, StructType):\n        serialize_STRUCT_TYPE(s, value)\n"));
    assert!(exports.file("runtime_checks").is_none());
}

#[test]
fn python_test_des() {
    let containers = init_registry().into_entries();

    let gen_settings = GenerationSettings::enable_all();
    let exports = generate(&containers, &gen_settings, "test");

    let des_file = exports.file("des").unwrap();
    assert!(des_file.contains(
        "T = TypeVar(\"T\", StructType, UnitStructType, TupleStructType, EnumType)\ndef deserialize(obj_type: Type[T], bytes: bytes) -> Tuple[T, bytes]:\n"
    ));
    assert!(des_file.contains(
        "    if obj_type is StructType:\n        result_value = cast(T, deserialize_STRUCT_TYPE(d))\n    elif obj_type is UnitStructType:\n"
    ));
    assert!(des_file.contains(
        "    else:\n        raise TypeError(\"{} not deserializable\".format(obj_type))\n\n    return (result_value, d.release_bytes())"
    ));
    assert!(des_file.contains("struct_type = deserialize_STRUCT_TYPE(d))"));
}

#[test]
fn all_settings_give_every_file() {
    assert_eq!(
        kinds(&GenerationSettings::enable_all()),
        vec![
            "util",
            "types/__init__",
            "types/_struct_type",
            "types/_unit_struct_type",
            "types/_tuple_struct_type",
            "types/_enum_type",
            "runtime_checks",
            "serializer",
            "ser",
            "deserializer",
            "des",
            "__init__",
        ]
    );
}

#[test]
fn default_settings_give_deserialization_only() {
    assert_eq!(
        kinds(&GenerationSettings::default()),
        vec![
            "util",
            "types/__init__",
            "types/_struct_type",
            "types/_unit_struct_type",
            "types/_tuple_struct_type",
            "types/_enum_type",
            "deserializer",
            "des",
            "__init__",
        ]
    );
}

#[test]
fn package_init_imports_what_is_generated() {
    let containers = init_registry().into_entries();
    let exports = generate(&containers, &GenerationSettings::enable_all(), "test");
    assert_eq!(
        exports.file("__init__").unwrap(),
        "from .des import deserialize\nfrom .ser import serialize\nfrom .types import *\n"
    );

    let settings = GenerationSettings::default().deserialization(false);
    let exports = generate(&containers, &settings, "test");
    assert_eq!(exports.file("__init__").unwrap(), "from .types import *\n");
    assert!(exports.file("des").is_none());
    assert!(exports.file("ser").is_none());
}

#[test]
fn types_package_lists_every_class() {
    let containers = init_registry().into_entries();
    let exports = generate(&containers, &GenerationSettings::default(), "test");
    let init = exports.file("types/__init__").unwrap();
    assert!(init.starts_with("__all__ = [\n    \"StructType\", \"UnitStructType\", \"TupleStructType\", \"EnumType\", \"EnumType_AVariant\", \"EnumType_BVariant\", \"EnumType_CVariant\"\n]\n"));
    assert!(init.contains("from ._enum_type import EnumType, EnumType_AVariant, EnumType_BVariant, EnumType_CVariant"));

    let enum_file = exports.file("types/_enum_type").unwrap();
    assert!(enum_file.starts_with("from dataclasses import dataclass\nfrom test.types._struct_type import StructType as _StructType\n"));
    assert!(enum_file.contains("@dataclass\nclass EnumType_CVariant(EnumType):\n    field_1: u32\n    field_2: str\n    struct_type: _StructType"));
}

#[test]
fn pop_file_takes_the_file_out() {
    let containers = init_registry().into_entries();
    let mut exports = generate(&containers, &GenerationSettings::default(), "test");
    let n = exports.files.len();
    let des = exports.file("des").unwrap().clone();
    assert_eq!(exports.pop_file("des"), Some(des));
    assert_eq!(exports.files.len(), n - 1);
    assert!(exports.file("des").is_none());
    assert_eq!(exports.pop_file("des"), None);
}

#[test]
fn every_container_gets_its_functions() {
    let containers = init_registry().into_entries();
    let exports = generate(&containers, &GenerationSettings::enable_all(), "test");
    let ser = exports.file("ser").unwrap();
    let des = exports.file("des").unwrap();
    let checks = exports.file("runtime_checks").unwrap();
    for ident in ["STRUCT_TYPE", "UNIT_STRUCT_TYPE", "TUPLE_STRUCT_TYPE", "ENUM_TYPE"] {
        assert!(ser.contains(&format!("def serialize_{}(s, v):\n", ident)));
        assert!(des.contains(&format!("def deserialize_{}(d) -> ", ident)));
        assert!(checks.contains(&format!("def assert_{}(v):\n", ident)));
    }
}

#[test]
fn no_option_gives_the_base_files_only() {
    let settings = GenerationSettings::enable_all()
        .serialization(false)
        .deserialization(false)
        .runtime_type_checks(false);
    let ks = kinds(&settings);
    assert_eq!(ks.first().map(|k| k.as_str()), Some("util"));
    assert_eq!(ks.last().map(|k| k.as_str()), Some("__init__"));
    assert!(ks[1..ks.len() - 1].iter().all(|k| k.starts_with("types/")));
}
