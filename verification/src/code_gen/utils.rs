//! Identifiers and qualified type names of containers in generated code.
use vstd::prelude::*;
use vstd::string::*;

use convert_case::{Case, Casing};

use crate::path::{spec_path_parts, PathBuf};
use crate::registry::{Container, ContainerInfo};
use crate::text::join_seq;
use crate::code_gen::python::imports::str_eq;
use crate::type_info::ObjectMeta;

verus! {

/// What `convert_case` makes of a string converted to snake case: the
/// words of the string, in lower case, joined by underscores.
pub uninterp spec fn snake_case(s: Seq<char>) -> Seq<char>;

/// What `str::to_uppercase` makes of a string.
pub uninterp spec fn uppercase(s: Seq<char>) -> Seq<char>;

/// Whether `c` is an ASCII character.
pub open spec fn is_ascii_char(c: char) -> bool {
    (c as u32) < 128
}

/// The ASCII upper case of `c`, for an ASCII character.
pub open spec fn ascii_upper(c: char) -> char {
    if 'a' <= c <= 'z' {
        ((c as u32) - 32) as char
    } else {
        c
    }
}

/// The string `s` converted to snake case: `Casing::to_case` of
/// `convert_case` with `Case::Snake`.
#[verifier::external_body]
pub(crate) fn to_snake_case(s: &str) -> (r: String)
    ensures
        r@ == snake_case(s@),
{
    s.to_case(Case::Snake)
}

/// The string `s` in upper case: `str::to_uppercase`. For a string of ASCII
/// characters only, each letter is replaced by its upper case.
#[verifier::external_body]
fn to_uppercase(s: &str) -> (r: String)
    ensures
        r@ == uppercase(s@),
        (forall|i: int| 0 <= i < s@.len() ==> is_ascii_char(#[trigger] s@[i])) ==> r@
            == s@.map_values(|c: char| ascii_upper(c)),
{
    s.to_uppercase()
}

/// The identifier that a container's name becomes in generated code: the
/// name in snake case, upper-cased.
pub open spec fn obj_identifier(name: Seq<char>) -> Seq<char> {
    uppercase(snake_case(name))
}

/// Turning a container's name into an identifier.
pub trait StrExt {
    fn to_obj_identifier(&self) -> String;
}

impl StrExt for &str {
    /// The name in snake case, upper-cased.
    fn to_obj_identifier(&self) -> (r: String)
        ensures
            r@ == obj_identifier(self@),
    {
        let snake = to_snake_case(self);
        to_uppercase(snake.as_str())
    }
}

/// The parts of a path without the first one, the crate's name.
pub open spec fn without_crate(parts: Seq<Seq<char>>) -> Seq<Seq<char>> {
    if parts.len() == 0 {
        parts
    } else {
        parts.drop_first()
    }
}

/// Builds the identifier of a container: its module path without the
/// crate's name and its name as an identifier, joined by `_`.
pub struct ContainerIdentifierBuilder<'a> {
    path: PathBuf,
    name: &'a str,
}

impl<'a> ContainerIdentifierBuilder<'a> {
    /// A builder for the container `name` in the module path `path`.
    pub fn new(path: PathBuf, name: &'a str) -> (r: Self)
        ensures
            r.parts() == path@,
            r.name() == name@,
    {
        ContainerIdentifierBuilder { path, name }
    }

    /// The module path of the container.
    pub closed spec fn parts(&self) -> Seq<Seq<char>> {
        self.path@
    }

    /// The name of the container.
    pub closed spec fn name(&self) -> Seq<char> {
        self.name@
    }

    /// The identifier.
    pub fn build(self) -> (r: String)
        ensures
            r@ == join_seq(without_crate(self.parts()).push(obj_identifier(self.name())), "_"@),
    {
        let mut path = self.path;
        path.pop_front();
        let ident = self.name.to_obj_identifier();
        path.push(ident.as_str());
        path.into_path("_").to_string()
    }

    /// A builder for a container.
    pub fn from_container(container: &'a Container) -> (r: Self)
        ensures
            r.parts() == spec_path_parts(container.path@),
            r.name() == container.name@,
    {
        Self::new(container.path.duplicate().into_buf(), container.name)
    }

    /// A builder for the container that an object type refers to.
    pub fn from_object(meta: &'a ObjectMeta) -> (r: Self)
        ensures
            r.parts() == spec_path_parts(meta.path@),
            r.name() == meta.name@,
    {
        Self::new(meta.path.duplicate().into_buf(), meta.name)
    }
}

/// Builds the qualified type name of a container: its module path without
/// the crate's name and its name, joined by `.`.
pub struct ContainerFullQualifiedTypeBuilder<'a> {
    path: PathBuf,
    name: &'a str,
}

impl<'a> ContainerFullQualifiedTypeBuilder<'a> {
    /// A builder for the container `name` in the module path `path`.
    pub fn new(path: PathBuf, name: &'a str) -> (r: Self)
        ensures
            r.parts() == path@,
            r.name() == name@,
    {
        ContainerFullQualifiedTypeBuilder { path, name }
    }

    /// The module path of the container.
    pub closed spec fn parts(&self) -> Seq<Seq<char>> {
        self.path@
    }

    /// The name of the container.
    pub closed spec fn name(&self) -> Seq<char> {
        self.name@
    }

    /// The qualified type name.
    pub fn build(self) -> (r: String)
        ensures
            r@ == join_seq(without_crate(self.parts()).push(self.name()), "."@),
    {
        let mut path = self.path;
        path.pop_front();
        path.push(self.name);
        path.into_path(".").to_string()
    }

    /// A builder for a container given by its name and path.
    pub fn from_info(info: &'a ContainerInfo) -> (r: Self)
        ensures
            r.parts() == spec_path_parts(info.path@),
            r.name() == info.name@,
    {
        Self::new(info.path.duplicate().into_buf(), info.name.as_str())
    }

    /// A builder for a container.
    pub fn from_container(container: &'a Container) -> (r: Self)
        ensures
            r.parts() == spec_path_parts(container.path@),
            r.name() == container.name@,
    {
        Self::new(container.path.duplicate().into_buf(), container.name)
    }

    /// A builder for the container that an object type refers to.
    pub fn from_object(meta: &'a ObjectMeta) -> (r: Self)
        ensures
            r.parts() == spec_path_parts(meta.path@),
            r.name() == meta.name@,
    {
        Self::new(meta.path.duplicate().into_buf(), meta.name)
    }
}

/// The name of the runtime constant for a number width written as in the
/// name of a Rust integer type: `8`, `16`, `32`, `64`, `128` or `SIZE`.
pub open spec fn number_width_const(c: Seq<char>) -> Seq<char> {
    if c == "8"@ {
        "U8_BYTES"@
    } else if c == "16"@ {
        "U16_BYTES"@
    } else if c == "32"@ {
        "U32_BYTES"@
    } else if c == "64"@ {
        "U64_BYTES"@
    } else if c == "128"@ {
        "U128_BYTES"@
    } else {
        "USIZE_BYTES"@
    }
}

/// The name of the runtime constant for a number width, such as `U32_BYTES`
/// for `32`.
pub fn number_type_to_const_js_type(c: &str) -> (r: &'static str)
    requires
        c@ == "8"@ || c@ == "16"@ || c@ == "32"@ || c@ == "64"@ || c@ == "128"@ || c@ == "SIZE"@,
    ensures
        r@ == number_width_const(c@),
{
    if str_eq(c, "8") {
        "U8_BYTES"
    } else if str_eq(c, "16") {
        "U16_BYTES"
    } else if str_eq(c, "32") {
        "U32_BYTES"
    } else if str_eq(c, "64") {
        "U64_BYTES"
    } else if str_eq(c, "128") {
        "U128_BYTES"
    } else {
        "USIZE_BYTES"
    }
}

} // verus!
