use postcard_bindgen_core::code_gen::utils::{
    number_type_to_const_js_type, ContainerFullQualifiedTypeBuilder, ContainerIdentifierBuilder,
    StrExt,
};
use postcard_bindgen_core::path::{Path, PathBuf};
use postcard_bindgen_core::registry::ContainerInfo;
use postcard_bindgen_core::type_info::ObjectMeta;
use postcard_bindgen_core::utils::ContainerPath;

#[test]
fn test_container_identifier_builder() {
    let container = ContainerInfo {
        name: "Test".into(),
        path: PathBuf::new().into_path("::"),
    };

    let builder =
        ContainerIdentifierBuilder::new(container.path.into_buf(), container.name.as_str());

    assert_eq!(builder.build(), "TEST".to_string());

    let container = ContainerInfo {
        name: "Test".into(),
        path: PathBuf::from_parts(vec!["crate".into(), "submodule".into()]).into_path("::"),
    };

    let builder =
        ContainerIdentifierBuilder::new(container.path.into_buf(), container.name.as_str());

    assert_eq!(builder.build(), "submodule_TEST".to_string());
}

#[test]
fn test_container_full_qualified_type_builder() {
    let container = ContainerInfo {
        name: "Test".into(),
        path: PathBuf::new().into_path("::"),
    };

    let builder = ContainerFullQualifiedTypeBuilder::from_info(&container);

    assert_eq!(builder.build(), "Test".to_string());

    let container = ContainerInfo {
        name: "Test".into(),
        path: PathBuf::from_parts(vec!["crate".into(), "submodule".into()]).into_path("::"),
    };

    let builder = ContainerFullQualifiedTypeBuilder::from_info(&container);

    assert_eq!(builder.build(), "submodule.Test".to_string());
}

#[test]
fn obj_identifier_is_upper_snake_case() {
    assert_eq!("MyStruct".to_obj_identifier(), "MY_STRUCT");
    assert_eq!("HTTPRequest".to_obj_identifier(), "HTTP_REQUEST");
    assert_eq!("a".to_obj_identifier(), "A");
}

#[test]
fn identifier_drops_only_the_crate_name() {
    let path = PathBuf::from_parts(vec!["my_crate".into(), "a".into(), "b".into()]);
    let builder = ContainerIdentifierBuilder::new(path, "SomeType");
    assert_eq!(builder.build(), "a_b_SOME_TYPE");

    let path = PathBuf::from_parts(vec!["my_crate".into(), "a".into(), "b".into()]);
    let builder = ContainerFullQualifiedTypeBuilder::new(path, "SomeType");
    assert_eq!(builder.build(), "a.b.SomeType");
}

#[test]
fn builders_from_object_meta() {
    let meta = ObjectMeta {
        name: "Inner",
        path: Path::new("krate::sub", "::"),
    };
    assert_eq!(ContainerIdentifierBuilder::from_object(&meta).build(), "sub_INNER");
    assert_eq!(ContainerFullQualifiedTypeBuilder::from_object(&meta).build(), "sub.Inner");
}

#[test]
fn number_widths_name_runtime_constants() {
    assert_eq!(number_type_to_const_js_type("8"), "U8_BYTES");
    assert_eq!(number_type_to_const_js_type("16"), "U16_BYTES");
    assert_eq!(number_type_to_const_js_type("32"), "U32_BYTES");
    assert_eq!(number_type_to_const_js_type("64"), "U64_BYTES");
    assert_eq!(number_type_to_const_js_type("128"), "U128_BYTES");
    assert_eq!(number_type_to_const_js_type("SIZE"), "USIZE_BYTES");
}

#[test]
fn container_path_parts() {
    let p = ContainerPath::new("crate::a::b");
    assert_eq!(p.parts(), vec!["crate".to_string(), "a".into(), "b".into()]);
    let p = ContainerPath::new("single");
    assert_eq!(p.parts(), vec!["single".to_string()]);
    let p = ContainerPath::new("");
    assert_eq!(p.parts(), vec!["".to_string()]);
}
