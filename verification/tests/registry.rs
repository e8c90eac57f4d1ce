use postcard_bindgen_core::path::Path;
use postcard_bindgen_core::registry::{
    BindingType, BindingsRegistry, Container, NodeType, EnumType, EnumVariantType, JsBindings, StructFields,
    StructType, TupleFields, TupleStructType, UnitStructType,
};
use postcard_bindgen_core::type_info::{GenBinding, ValueType};

#[allow(unused)]
struct TestStruct {
    a: u8,
    b: u16,
    c: &'static str,
}

impl JsBindings for TestStruct {
    fn create_bindings(registry: &mut BindingsRegistry) {
        let mut ty = StructType::new();

        ty.register_field::<u8>("a");
        ty.register_field::<u16>("b");
        ty.register_field::<&str>("c");

        registry.register_struct_binding("Test", "", ty);
    }
}

#[allow(dead_code)]
struct TestTuple(u8, &'static str, &'static [u8]);

impl JsBindings for TestTuple {
    fn create_bindings(registry: &mut BindingsRegistry) {
        let mut ty = TupleStructType::new();

        ty.register_field::<u8>();
        ty.register_field::<&str>();
        ty.register_field::<&[u8]>();

        registry.register_tuple_struct_binding("Test", "", ty);
    }
}

#[allow(unused)]
enum TestEnum {
    A,
    B(u8),
    C { a: &'static str, b: u16 },
}

impl JsBindings for TestEnum {
    fn create_bindings(registry: &mut BindingsRegistry) {
        let mut ty = EnumType::new();

        ty.register_variant("A");

        let mut fields = TupleFields::default();
        fields.register_field::<u8>();
        ty.register_variant_tuple("B", fields);

        let mut fields = StructFields::default();
        fields.register_field::<&str>("a");
        fields.register_field::<u16>("b");
        ty.register_unnamed_struct("C", fields);

        registry.register_enum_binding("Test", "", ty);
    }
}

#[test]
fn test_registry_struct() {
    let mut registry = BindingsRegistry::default();
    TestStruct::create_bindings(&mut registry);

    let entries = registry.into_entries();
    let all = entries.all_containers();
    assert_eq!(all.len(), 1);
    assert_eq!(all[0].name, "Test");
    match &all[0].ty {
        BindingType::Struct(s) => {
            let names: Vec<&str> = s.fields.iter().map(|f| f.name).collect();
            assert_eq!(names, vec!["a", "b", "c"]);
            assert_eq!(s.fields[0].v_type, <u8 as GenBinding>::get_type());
            assert_eq!(s.fields[1].v_type, <u16 as GenBinding>::get_type());
            assert_eq!(s.fields[2].v_type, <&str as GenBinding>::get_type());
            assert_ne!(s.fields[0].v_type, s.fields[1].v_type);
        }
        _ => panic!("a struct was registered"),
    }
}

#[test]
fn test_registry_tuple_struct() {
    let mut registry = BindingsRegistry::default();
    TestTuple::create_bindings(&mut registry);

    let entries = registry.into_entries();
    let all = entries.all_containers();
    assert_eq!(all.len(), 1);
    match &all[0].ty {
        BindingType::TupleStruct(t) => {
            assert_eq!(t.fields.len(), 3);
            assert!(matches!(t.fields[0], ValueType::Number(_)));
            assert!(matches!(t.fields[1], ValueType::String(_)));
            assert!(matches!(t.fields[2], ValueType::Array(_)));
            assert_eq!(t.fields[2], <&[u8] as GenBinding>::get_type());
        }
        _ => panic!("a tuple struct was registered"),
    }
}

#[test]
fn test_registry_enum() {
    let mut registry = BindingsRegistry::default();
    TestEnum::create_bindings(&mut registry);

    let entries = registry.into_entries();
    let all = entries.all_containers();
    assert_eq!(all.len(), 1);
    match &all[0].ty {
        BindingType::Enum(e) => {
            assert_eq!(e.variants.len(), 3);
            for (i, v) in e.variants.iter().enumerate() {
                assert_eq!(v.index, i);
            }
            assert_eq!(e.variants[0].name, "A");
            assert!(matches!(e.variants[0].inner_type, EnumVariantType::Empty));
            assert!(matches!(e.variants[1].inner_type, EnumVariantType::Tuple(ref f) if f.len() == 1));
            assert!(matches!(e.variants[2].inner_type, EnumVariantType::NewType(ref f) if f.len() == 2));
        }
        _ => panic!("an enum was registered"),
    }
}

#[test]
fn registration_order_is_kept() {
    let mut registry = BindingsRegistry::default();
    registry.register_unit_struct_binding("First", "krate::a", UnitStructType::new());
    registry.register_unit_struct_binding("Second", "krate", UnitStructType::new());
    registry.register_unit_struct_binding("Third", "krate::a::b", UnitStructType::new());
    let entries = registry.into_entries();
    let names: Vec<&str> = entries.all_containers().iter().map(|c| c.name).collect();
    assert_eq!(names, vec!["First", "Second", "Third"]);
}

#[test]
fn modules_hold_their_containers() {
    let mut registry = BindingsRegistry::default();
    registry.register_unit_struct_binding("Top", "krate", UnitStructType::new());
    registry.register_unit_struct_binding("Inner", "krate::a", UnitStructType::new());
    registry.register_unit_struct_binding("Deeper", "krate::a::b", UnitStructType::new());
    let entries = registry.into_entries();

    let (top, modules) = entries.containers_per_module();
    let top: Vec<&str> = top.iter().map(|c| c.name).collect();
    assert_eq!(top, vec!["Top"]);
    assert_eq!(modules.len(), 1);
    assert_eq!(modules[0].name(), "a");
    assert_eq!(modules[0].path(), "");

    let (inner, below) = modules[0].entries();
    let inner: Vec<&str> = inner.iter().map(|c| c.name).collect();
    assert_eq!(inner, vec!["Inner"]);
    assert_eq!(below.len(), 1);
    assert_eq!(below[0].name(), "b");
    assert_eq!(below[0].path(), "a");

    let (deeper, none) = below[0].entries();
    assert_eq!(deeper.len(), 1);
    assert_eq!(deeper[0].name, "Deeper");
    assert!(none.is_empty());
}

#[test]
fn flatten_moves_every_container_to_the_top() {
    let mut registry = BindingsRegistry::default();
    registry.register_unit_struct_binding("Top", "krate", UnitStructType::new());
    registry.register_unit_struct_binding("Inner", "krate::a", UnitStructType::new());
    registry.register_unit_struct_binding("Deeper", "krate::a::b", UnitStructType::new());
    let mut entries = registry.into_entries();
    entries.flatten();

    let (top, modules) = entries.containers_per_module();
    let top: Vec<&str> = top.iter().map(|c| c.name).collect();
    assert_eq!(top, vec!["Top", "Inner", "Deeper"]);
    assert!(modules.is_empty());

    for c in entries.all_containers() {
        assert_eq!(c.path.to_string(), "");
        assert!(c.path.is_empty());
    }
}

#[test]
fn empty_registry_has_no_containers() {
    let entries = BindingsRegistry::default().into_entries();
    assert!(entries.all_containers().is_empty());
    let (top, modules) = entries.containers_per_module();
    assert!(top.is_empty());
    assert!(modules.is_empty());
}

#[test]
fn node_types() {
    let mut node = NodeType::Container(Container {
        path: Path::new("krate::a", "::"),
        name: "A",
        ty: BindingType::UnitStruct(UnitStructType::new()),
    });
    assert!(node.is_container());
    assert!(!node.is_module());
    assert_eq!(node.to_string(), "Container(A, krate::a)");
    if let Some(c) = node.container_mut() {
        c.name = "B";
    }
    assert_eq!(node.container().map(|c| c.name), Some("B"));

    let mut module = NodeType::Module("m".to_string());
    assert!(module.is_module());
    assert!(module.container().is_none());
    assert!(module.container_mut().is_none());
    assert_eq!(module.to_string(), "Module(m)");
}

#[test]
fn one_struct_two_modules_deep() {
    let mut registry = BindingsRegistry::default();
    registry.register_struct_binding("A", "crate::a::b", StructType::new());
    let entries = registry.into_entries();

    let (top, modules) = entries.containers_per_module();
    assert!(top.is_empty());
    assert_eq!(modules.len(), 1);
    assert_eq!(modules[0].name(), "a");

    let (inner, below) = modules[0].entries();
    assert!(inner.is_empty());
    assert_eq!(below.len(), 1);
    assert_eq!(below[0].name(), "b");

    let (deeper, none) = below[0].entries();
    let expected = Container {
        path: Path::new("crate::a::b", "::"),
        name: "A",
        ty: BindingType::Struct(StructType::new()),
    };
    assert_eq!(deeper, vec![&expected]);
    assert!(none.is_empty());
}

#[test]
fn modules_on_a_shared_path_are_reused() {
    let mut registry = BindingsRegistry::default();
    registry.register_unit_struct_binding("B", "crate::a::b", UnitStructType::new());
    registry.register_unit_struct_binding("C", "crate::a::c", UnitStructType::new());
    registry.register_unit_struct_binding("D", "crate::a::b", UnitStructType::new());
    let entries = registry.into_entries();

    let (top, modules) = entries.containers_per_module();
    assert!(top.is_empty());
    assert_eq!(modules.len(), 1);
    assert_eq!(modules[0].name(), "a");

    let (inner, below) = modules[0].entries();
    assert!(inner.is_empty());
    let mut names: Vec<&str> = below.iter().map(|m| m.name()).collect();
    names.sort();
    assert_eq!(names, vec!["b", "c"]);
    for m in below.iter() {
        let (cs, none) = m.entries();
        let cs: Vec<&str> = cs.iter().map(|c| c.name).collect();
        if m.name() == "b" {
            assert_eq!(cs, vec!["B", "D"]);
        } else {
            assert_eq!(cs, vec!["C"]);
        }
        assert!(none.is_empty());
    }
}

#[test]
fn containers_and_types_clone_to_equal_values() {
    let c = Container {
        path: Path::new("crate::a", "::"),
        name: "A",
        ty: BindingType::Struct(StructType::new()),
    };
    assert_eq!(c.clone(), c);
    let t = <(u8, Option<Vec<u16>>, std::collections::HashMap<u32, bool>) as GenBinding>::get_type();
    let copy = t.clone();
    assert_eq!(copy, t);
    assert!(matches!(copy, ValueType::Tuple(_)));
}
