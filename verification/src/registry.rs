//! The containers (structs, tuple structs, unit structs and enums) that
//! bindings are generated for, and the registry that sorts them into
//! modules.
use vstd::prelude::*;

use crate::path::{spec_path_parts, spec_path_string, Path};
use crate::text::{split_seq, views};
use crate::order::{lemma_sorted_desc_contains, lemma_sorted_desc_from, sort_desc_stable, sorted_desc};
use crate::text::join_strings;
use crate::tree::{
    add_node, attach_child, children_after, children_found, detach_child, index_from, index_of,
    lemma_index_from_bounds, new_tree, node_children, remove_node, with_parent,
    node_height, node_ids, node_parent, root_from, root_index, node_height_of, tree_nodes,
    with_children, TreeNode,
};
use crate::type_info::{paths_flattened, GenBinding, ValueType};
use tree_ds::prelude::Tree;

verus! {

/// A container type together with the module path it is declared in.
#[derive(Debug, Clone, PartialEq, Eq)]
pub struct Container {
    pub path: Path,
    pub name: &'static str,
    pub ty: BindingType,
}

/// Whether `new` is `old` with its own path and the paths of all object
/// types that its fields mention flattened.
pub open spec fn container_flattened(old: Container, new: Container) -> bool {
    &&& new.name == old.name
    &&& new.path@ == (None::<Seq<char>>, old.path@.1)
    &&& binding_flattened(old.ty, new.ty)
}

/// Whether `new` is `old` with the paths of all object types that its
/// fields mention flattened.
pub open spec fn binding_flattened(old: BindingType, new: BindingType) -> bool {
    match (old, new) {
        (BindingType::Struct(a), BindingType::Struct(b)) => fields_flattened(a.fields@, b.fields@),
        (BindingType::TupleStruct(a), BindingType::TupleStruct(b)) => types_flattened(
            a.fields@,
            b.fields@,
        ),
        (BindingType::UnitStruct(_), BindingType::UnitStruct(_)) => true,
        (BindingType::Enum(a), BindingType::Enum(b)) => variants_flattened(a.variants@, b.variants@),
        _ => false,
    }
}

/// Whether the types `new` are the types `old` with their paths flattened.
pub open spec fn types_flattened(old: Seq<ValueType>, new: Seq<ValueType>) -> bool {
    &&& old.len() == new.len()
    &&& forall|i: int| 0 <= i < old.len() ==> paths_flattened(#[trigger] old[i], new[i])
}

/// Whether the fields `new` are the fields `old` with the paths of their
/// types flattened.
pub open spec fn fields_flattened(old: Seq<StructField>, new: Seq<StructField>) -> bool {
    &&& old.len() == new.len()
    &&& forall|i: int|
        0 <= i < old.len() ==> (#[trigger] old[i]).name == new[i].name && paths_flattened(
            old[i].v_type,
            new[i].v_type,
        )
}

/// Whether the variants `new` are the variants `old` with the paths of the
/// types of their fields flattened.
pub open spec fn variants_flattened(old: Seq<EnumVariant>, new: Seq<EnumVariant>) -> bool {
    &&& old.len() == new.len()
    &&& forall|i: int|
        0 <= i < old.len() ==> (#[trigger] old[i]).index == new[i].index && old[i].name
            == new[i].name && match (old[i].inner_type, new[i].inner_type) {
            (EnumVariantType::Empty, EnumVariantType::Empty) => true,
            (EnumVariantType::Tuple(a), EnumVariantType::Tuple(b)) => types_flattened(a@, b@),
            (EnumVariantType::NewType(a), EnumVariantType::NewType(b)) => fields_flattened(
                a@,
                b@,
            ),
            _ => false,
        }
}

fn flatten_types(types: &mut Vec<ValueType>)
    ensures
        types_flattened(old(types)@, final(types)@),
{
    let n = types.len();
    let mut i: usize = 0;
    while i < n
        invariant
            n == types@.len(),
            n == old(types)@.len(),
            i <= n,
            forall|k: int| 0 <= k < i ==> paths_flattened(#[trigger] old(types)@[k], types@[k]),
            forall|k: int| i <= k < n ==> types@[k] == old(types)@[k],
        decreases n - i,
    {
        types[i].flatten_paths();
        i = i + 1;
    }
}

fn flatten_fields(fields: &mut Vec<StructField>)
    ensures
        fields_flattened(old(fields)@, final(fields)@),
{
    let n = fields.len();
    let mut i: usize = 0;
    while i < n
        invariant
            n == fields@.len(),
            n == old(fields)@.len(),
            i <= n,
            forall|k: int|
                0 <= k < i ==> (#[trigger] old(fields)@[k]).name == fields@[k].name
                    && paths_flattened(old(fields)@[k].v_type, fields@[k].v_type),
            forall|k: int| i <= k < n ==> fields@[k] == old(fields)@[k],
        decreases n - i,
    {
        fields[i].v_type.flatten_paths();
        i = i + 1;
    }
}

impl Container {
    /// Flattens the path of the container and the paths of all object
    /// types that its fields mention.
    pub fn flatten_paths(&mut self)
        ensures
            container_flattened(*old(self), *final(self)),
    {
        self.path.flatten();
        match &mut self.ty {
            BindingType::Struct(ty) => ty.flatten_paths(),
            BindingType::Enum(ty) => ty.flatten_paths(),
            BindingType::TupleStruct(ty) => ty.flatten_paths(),
            _ => (),
        }
    }
}

/// The name and path of a container.
#[derive(Debug, Clone, PartialEq, Eq)]
pub struct ContainerInfo {
    pub name: String,
    pub path: Path,
}

impl ContainerInfo {
    /// The name and path of `container`.
    pub fn from_container(container: &Container) -> (r: ContainerInfo)
        ensures
            r.name@ == container.name@,
            r.path@ == container.path@,
    {
        ContainerInfo { name: container.name.to_owned(), path: container.path.duplicate() }
    }
}

impl Default for EnumType {
    /// An enum without variants.
    fn default() -> (r: Self)
        ensures
            r.variants@.len() == 0,
    {
        EnumType::new()
    }
}

impl Default for StructType {
    /// A struct without fields.
    fn default() -> (r: Self)
        ensures
            r.fields@.len() == 0,
    {
        StructType::new()
    }
}

impl Default for TupleStructType {
    /// A tuple struct without fields.
    fn default() -> (r: Self)
        ensures
            r.fields@.len() == 0,
    {
        TupleStructType::new()
    }
}

impl Default for UnitStructType {
    /// A unit struct.
    fn default() -> (r: Self) {
        UnitStructType::new()
    }
}

impl Default for StructFields {
    /// No fields.
    fn default() -> (r: Self)
        ensures
            r@.len() == 0,
    {
        StructFields::new()
    }
}

impl Default for TupleFields {
    /// No fields.
    fn default() -> (r: Self)
        ensures
            r@.len() == 0,
    {
        TupleFields::new()
    }
}

/// The kind of a container, with its fields or variants.
#[derive(Debug, Clone, PartialEq, Eq)]
pub enum BindingType {
    Struct(StructType),
    TupleStruct(TupleStructType),
    UnitStruct(UnitStructType),
    Enum(EnumType),
}

/// An enum, encoded as the index of its variant followed by the fields of
/// that variant.
#[derive(Debug, Clone, PartialEq, Eq)]
pub struct EnumType {
    pub variants: Vec<EnumVariant>,
}

/// Whether the index of every variant is its position.
pub open spec fn indices_in_order(variants: Seq<EnumVariant>) -> bool {
    forall|i: int| 0 <= i < variants.len() ==> (#[trigger] variants[i]).index == i
}

/// Whether the variants are those registered with the names `names`, one
/// by one: the variant at each position has that position as its index and
/// the name given there.
pub open spec fn registered_in_order(variants: Seq<EnumVariant>, names: Seq<&'static str>) -> bool {
    &&& variants.len() == names.len()
    &&& forall|i: int|
        0 <= i < variants.len() ==> (#[trigger] variants[i]).index == i && variants[i].name
            == names[i]
}

impl EnumType {
    /// An enum without variants.
    pub fn new() -> (r: Self)
        ensures
            r.variants@.len() == 0,
            registered_in_order(r.variants@, Seq::empty()),
    {
        EnumType { variants: Vec::new() }
    }

    /// Registers a variant without fields; its index is the number of
    /// variants registered before it.
    pub fn register_variant(&mut self, name: &'static str)
        ensures
            final(self).variants@ == old(self).variants@.push(
                EnumVariant {
                    index: old(self).variants@.len() as usize,
                    name,
                    inner_type: EnumVariantType::Empty,
                },
            ),
            forall|names: Seq<&'static str>|
                registered_in_order(old(self).variants@, names) ==> #[trigger] registered_in_order(
                    final(self).variants@,
                    names.push(name),
                ),
    {
        let index = self.variants.len();
        self.variants.push(EnumVariant { index, name, inner_type: EnumVariantType::Empty });
    }

    /// Registers a variant with unnamed fields; its index is the number of
    /// variants registered before it.
    pub fn register_variant_tuple(&mut self, name: &'static str, fields: TupleFields)
        ensures
            final(self).variants@.len() == old(self).variants@.len() + 1,
            final(self).variants@.drop_last() == old(self).variants@,
            final(self).variants@.last().index == old(self).variants@.len(),
            final(self).variants@.last().name == name,
            final(self).variants@.last().inner_type matches EnumVariantType::Tuple(v) && v@
                == fields@,
            forall|names: Seq<&'static str>|
                registered_in_order(old(self).variants@, names) ==> #[trigger] registered_in_order(
                    final(self).variants@,
                    names.push(name),
                ),
    {
        let index = self.variants.len();
        self.variants.push(
            EnumVariant { index, name, inner_type: EnumVariantType::Tuple(fields.into_inner()) },
        );
        assert(self.variants@.drop_last() =~= old(self).variants@);
    }

    /// Registers a variant with named fields; its index is the number of
    /// variants registered before it.
    pub fn register_unnamed_struct(&mut self, name: &'static str, fields: StructFields)
        ensures
            final(self).variants@.len() == old(self).variants@.len() + 1,
            final(self).variants@.drop_last() == old(self).variants@,
            final(self).variants@.last().index == old(self).variants@.len(),
            final(self).variants@.last().name == name,
            final(self).variants@.last().inner_type matches EnumVariantType::NewType(v) && v@
                == fields@,
            forall|names: Seq<&'static str>|
                registered_in_order(old(self).variants@, names) ==> #[trigger] registered_in_order(
                    final(self).variants@,
                    names.push(name),
                ),
    {
        let index = self.variants.len();
        self.variants.push(
            EnumVariant { index, name, inner_type: EnumVariantType::NewType(fields.into_inner()) },
        );
        assert(self.variants@.drop_last() =~= old(self).variants@);
    }

    /// Flattens the paths of all object types that the fields of the
    /// variants mention.
    pub fn flatten_paths(&mut self)
        ensures
            variants_flattened(old(self).variants@, final(self).variants@),
    {
        let n = self.variants.len();
        let mut i: usize = 0;
        while i < n
            invariant
                n == self.variants@.len(),
                n == old(self).variants@.len(),
                i <= n,
                variants_flattened(
                    old(self).variants@.take(i as int),
                    self.variants@.take(i as int),
                ),
                forall|k: int| i <= k < n ==> self.variants@[k] == old(self).variants@[k],
            decreases n - i,
        {
            match &mut self.variants[i].inner_type {
                EnumVariantType::NewType(fields) => flatten_fields(fields),
                EnumVariantType::Tuple(fields) => flatten_types(fields),
                _ => {},
            }
            assert(variants_flattened(
                old(self).variants@.take(i + 1),
                self.variants@.take(i + 1),
            )) by {
                assert forall|k: int| 0 <= k < i + 1 implies {
                    let o = #[trigger] old(self).variants@.take(i + 1)[k];
                    let v = self.variants@.take(i + 1)[k];
                    o.index == v.index && o.name == v.name
                } by {
                    if k < i {
                        assert(old(self).variants@.take(i + 1)[k] == old(self).variants@.take(
                            i as int,
                        )[k]);
                    }
                }
            }
            i = i + 1;
        }
        assert(old(self).variants@.take(n as int) =~= old(self).variants@);
        assert(self.variants@.take(n as int) =~= self.variants@);
    }
}

/// A variant of an enum.
#[derive(Debug, Clone, PartialEq, Eq)]
pub struct EnumVariant {
    pub index: usize,
    pub name: &'static str,
    pub inner_type: EnumVariantType,
}

/// The fields of an enum variant.
#[derive(Debug, Clone, PartialEq, Eq)]
pub enum EnumVariantType {
    Empty,
    Tuple(Vec<ValueType>),
    NewType(Vec<StructField>),
}

/// A struct with named fields.
#[derive(Debug, Clone, PartialEq, Eq)]
pub struct StructType {
    pub fields: Vec<StructField>,
}

/// Whether the field is named `name` and has the type `T`.
pub open spec fn field_of<T: GenBinding + ?Sized>(field: StructField, name: &'static str) -> bool {
    field.name == name && T::describes(field.v_type)
}

impl StructType {
    /// A struct without fields.
    pub fn new() -> (r: Self)
        ensures
            r.fields@.len() == 0,
    {
        StructType { fields: Vec::new() }
    }

    /// Registers a field of type `T` after the fields registered before.
    pub fn register_field<T: GenBinding + ?Sized>(&mut self, name: &'static str)
        ensures
            final(self).fields@.len() == old(self).fields@.len() + 1,
            final(self).fields@.drop_last() == old(self).fields@,
            field_of::<T>(final(self).fields@.last(), name),
    {
        self.fields.push(StructField { name, v_type: T::get_type() });
        assert(self.fields@.drop_last() =~= old(self).fields@);
    }

    /// Flattens the paths of all object types that the fields mention.
    pub fn flatten_paths(&mut self)
        ensures
            fields_flattened(old(self).fields@, final(self).fields@),
    {
        flatten_fields(&mut self.fields);
    }
}

/// A struct with unnamed fields.
#[derive(Debug, Clone, PartialEq, Eq)]
pub struct TupleStructType {
    pub fields: Vec<ValueType>,
}

impl TupleStructType {
    /// A tuple struct without fields.
    pub fn new() -> (r: Self)
        ensures
            r.fields@.len() == 0,
    {
        TupleStructType { fields: Vec::new() }
    }

    /// Registers a field of type `T` after the fields registered before.
    pub fn register_field<T: GenBinding + ?Sized>(&mut self)
        ensures
            final(self).fields@.len() == old(self).fields@.len() + 1,
            final(self).fields@.drop_last() == old(self).fields@,
            T::describes(final(self).fields@.last()),
    {
        self.fields.push(T::get_type());
        assert(self.fields@.drop_last() =~= old(self).fields@);
    }

    /// Flattens the paths of all object types that the fields mention.
    pub fn flatten_paths(&mut self)
        ensures
            types_flattened(old(self).fields@, final(self).fields@),
    {
        flatten_types(&mut self.fields);
    }
}

/// A struct without fields.
#[derive(Debug, Clone, PartialEq, Eq)]
pub struct UnitStructType;

impl UnitStructType {
    /// The unit struct.
    pub fn new() -> (r: Self) {
        UnitStructType
    }
}

/// A named field of a struct.
#[derive(Debug, Clone, PartialEq, Eq)]
pub struct StructField {
    pub name: &'static str,
    pub v_type: ValueType,
}

/// The named fields of an enum variant, collected one by one.
#[derive(Debug)]
pub struct StructFields(pub(crate) Vec<StructField>);

impl View for StructFields {
    type V = Seq<StructField>;

    /// The fields, in the order of registration.
    closed spec fn view(&self) -> Seq<StructField> {
        self.0@
    }
}

impl StructFields {
    /// No fields.
    pub fn new() -> (r: Self)
        ensures
            r@.len() == 0,
    {
        StructFields(Vec::new())
    }

    /// Registers a field of type `T` after the fields registered before.
    pub fn register_field<T: GenBinding + ?Sized>(&mut self, name: &'static str)
        ensures
            final(self)@.len() == old(self)@.len() + 1,
            final(self)@.drop_last() == old(self)@,
            field_of::<T>(final(self)@.last(), name),
    {
        self.0.push(StructField { name, v_type: T::get_type() });
        assert(self@.drop_last() =~= old(self)@);
    }

    /// The fields, in the order of registration.
    pub fn into_inner(self) -> (r: Vec<StructField>)
        ensures
            r@ == self@,
    {
        self.0
    }
}

/// The unnamed fields of an enum variant, collected one by one.
#[derive(Debug)]
pub struct TupleFields(pub(crate) Vec<ValueType>);

impl View for TupleFields {
    type V = Seq<ValueType>;

    /// The fields, in the order of registration.
    closed spec fn view(&self) -> Seq<ValueType> {
        self.0@
    }
}

impl TupleFields {
    /// No fields.
    pub fn new() -> (r: Self)
        ensures
            r@.len() == 0,
    {
        TupleFields(Vec::new())
    }

    /// Registers a field of type `T` after the fields registered before.
    pub fn register_field<T: GenBinding + ?Sized>(&mut self)
        ensures
            final(self)@.len() == old(self)@.len() + 1,
            final(self)@.drop_last() == old(self)@,
            T::describes(final(self)@.last()),
    {
        self.0.push(T::get_type());
        assert(self@.drop_last() =~= old(self)@);
    }

    /// The fields, in the order of registration.
    pub fn into_inner(self) -> (r: Vec<ValueType>)
        ensures
            r@ == self@,
    {
        self.0
    }
}

/// Registering variants keeps the index of every variant equal to its
/// position: after registering a variant of any kind into an enum whose
/// indices are in order, they are still in order.
pub proof fn law_register_keeps_indices(
    variants: Seq<EnumVariant>,
    name: &'static str,
    inner: EnumVariantType,
)
    requires
        indices_in_order(variants),
        variants.len() < usize::MAX,
    ensures
        indices_in_order(
            variants.push(
                EnumVariant { index: variants.len() as usize, name, inner_type: inner },
            ),
        ),
{
}

/// A node of the module tree: a container or a module with its name.
pub enum NodeType {
    Container(Container),
    Module(String),
}

impl NodeType {
    /// The container of a container node.
    pub fn container(&self) -> (r: Option<&Container>)
        ensures
            match self {
                NodeType::Container(c) => r == Some(c),
                NodeType::Module(_) => r is None,
            },
    {
        match self {
            NodeType::Container(c) => Some(c),
            _ => None,
        }
    }

    /// The container of a container node, to change it in place.
    pub fn container_mut(&mut self) -> (r: Option<&mut Container>)
        ensures
            match *old(self) {
                NodeType::Container(c) => r matches Some(rc) && *rc == c && *final(self)
                    == NodeType::Container(*final(rc)),
                NodeType::Module(_) => r is None && *final(self) == *old(self),
            },
    {
        match self {
            NodeType::Container(c) => Some(c),
            _ => None,
        }
    }

    /// The node as text: `Container(name, path)` or `Module(name)`.
    pub fn to_string(&self) -> (r: String)
        ensures
            r@ == match self {
                NodeType::Container(c) => "Container("@ + c.name@ + ", "@ + spec_path_string(c.path@)
                    + ")"@,
                NodeType::Module(m) => "Module("@ + m@ + ")"@,
            },
    {
        match self {
            NodeType::Container(c) => {
                let mut r = String::from_str("Container(");
                r.append(c.name);
                r.append(", ");
                r.append(c.path.to_string().as_str());
                r.append(")");
                r
            },
            NodeType::Module(m) => {
                let mut r = String::from_str("Module(");
                r.append(m.as_str());
                r.append(")");
                r
            },
        }
    }

    /// Whether this is a module node.
    pub fn is_module(&self) -> (r: bool)
        ensures
            r == (self is Module),
    {
        match self {
            NodeType::Module(_) => true,
            _ => false,
        }
    }

    /// Whether this is a container node.
    pub fn is_container(&self) -> (r: bool)
        ensures
            r == (self is Container),
    {
        match self {
            NodeType::Container(_) => true,
            _ => false,
        }
    }
}

/// The name of a module node; empty for a container node.
pub open spec fn module_name(x: NodeType) -> Seq<char> {
    match x {
        NodeType::Module(s) => s@,
        NodeType::Container(_) => Seq::<char>::empty(),
    }
}

/// Whether the entry at `c` is a module named `name`.
pub open spec fn named_module(e: Seq<NodeType>, c: u128, name: Seq<char>) -> bool {
    c < e.len() && e[c as int] is Module && module_name(e[c as int]) == name
}

/// The entry of the node at position `j`: the node's id is the position of
/// its entry.
pub open spec fn entry_at(n: Seq<TreeNode>, e: Seq<NodeType>, j: int) -> NodeType {
    e[n[j].0 as int]
}

/// The names of the modules above the node at position `j`, from the top
/// down, without the root.
pub open spec fn path_above(n: Seq<TreeNode>, e: Seq<NodeType>, j: int) -> Seq<Seq<char>>
    decreases j,
{
    if j <= 0 || j >= n.len() {
        Seq::<Seq<char>>::empty()
    } else {
        match n[j].1 {
            None => Seq::<Seq<char>>::empty(),
            Some(p) => match index_of(n, p) {
                Some(k) => if 0 < k < j {
                    path_above(n, e, k).push(module_name(entry_at(n, e, k)))
                } else {
                    Seq::<Seq<char>>::empty()
                },
                None => Seq::<Seq<char>>::empty(),
            },
        }
    }
}

/// The names of the modules from the top down to the node at position `j`,
/// itself included, without the root.
pub open spec fn path_to(n: Seq<TreeNode>, e: Seq<NodeType>, j: int) -> Seq<Seq<char>> {
    if j == 0 {
        Seq::<Seq<char>>::empty()
    } else {
        path_above(n, e, j).push(module_name(entry_at(n, e, j)))
    }
}

/// The containers among the first `k` nodes, in node order, each with the
/// names of the modules above it.
pub open spec fn registered_upto(n: Seq<TreeNode>, e: Seq<NodeType>, k: int) -> Seq<
    (Container, Seq<Seq<char>>),
>
    decreases k,
{
    if k <= 0 || k > n.len() {
        Seq::<(Container, Seq<Seq<char>>)>::empty()
    } else {
        registered_upto(n, e, k - 1) + match entry_at(n, e, k - 1) {
            NodeType::Container(c) => seq![(c, path_above(n, e, k - 1))],
            NodeType::Module(_) => Seq::<(Container, Seq<Seq<char>>)>::empty(),
        }
    }
}

/// Whether the names `names` are the first names under which some container
/// of `regs` was registered.
pub open spec fn leads_to(names: Seq<Seq<char>>, regs: Seq<(Container, Seq<Seq<char>>)>) -> bool {
    exists|i: int|
        0 <= i < regs.len() && names.len() <= (#[trigger] regs[i]).1.len() && regs[i].1.take(
            names.len() as int,
        ) == names
}

/// How many of the module names `names` already stand as a chain of modules
/// below the node `node`, each below the one before.
spec fn chain_len(n: Seq<TreeNode>, e: Seq<NodeType>, node: u128, names: Seq<Seq<char>>) -> nat
    decreases names.len(),
{
    if names.len() == 0 {
        0
    } else if exists|c: u128| n[node as int].2.contains(c) && named_module(e, c, names[0]) {
        1 + chain_len(
            n,
            e,
            choose|c: u128| n[node as int].2.contains(c) && named_module(e, c, names[0]),
            names.drop_first(),
        )
    } else {
        0
    }
}

/// The module tree of a registry: a `tree_ds` tree whose nodes are
/// numbered by the positions of their entries.
struct ModuleTree {
    tree: Tree<u128, usize>,
    entries: Vec<NodeType>,
}

impl ModuleTree {
    closed spec fn nodes(&self) -> Seq<TreeNode> {
        tree_nodes(self.tree)
    }

    /// The shape of a tree that has only grown: the node at each position
    /// has that position as its id and as its value, its parent comes
    /// before it and is a module, it is among the children of its parent,
    /// and the children of a node are found after it and have it as parent.
    closed spec fn grown(&self) -> bool {
        let n = self.nodes();
        let e = self.entries@;
        &&& n.len() >= 1
        &&& n.len() == e.len()
        &&& n[0].1 is None
        &&& e[0] is Module
        &&& forall|j: int| 0 <= j < n.len() ==> #[trigger] n[j].0 == j && n[j].3 == Some(j as usize)
        &&& forall|j: int|
            0 < j < n.len() ==> ((#[trigger] n[j].1) matches Some(p) && p < j && e[p as int] is Module)
        &&& forall|j: int, c: int|
            0 <= j < n.len() && 0 <= c < n[j].2.len() ==> j < #[trigger] n[j].2[c] < n.len()
                && n[n[j].2[c] as int].1 == Some(j as u128)
        &&& forall|j: int, a: int, b: int|
            0 <= j < n.len() && 0 <= a < b < n[j].2.len() ==> #[trigger] n[j].2[a]
                < #[trigger] n[j].2[b]
        &&& forall|j: int|
            0 < j < n.len() ==> #[trigger] n[n[j].1->0 as int].2.contains(j as u128)
    }

    closed spec fn registered(&self) -> Seq<(Container, Seq<Seq<char>>)> {
        registered_upto(self.nodes(), self.entries@, self.nodes().len() as int)
    }

    /// Whether `id` is the id of a module node.
    closed spec fn module_at(&self, id: u128) -> bool {
        &&& index_of(self.nodes(), id) is Some
        &&& id < self.entries@.len()
        &&& self.entries@[id as int] is Module
    }

    /// The number of nodes from the node `id` on, a measure that the
    /// children of a node lower.
    closed spec fn depth(&self, id: u128) -> int {
        self.nodes().len() - index_of(self.nodes(), id)->0
    }

    /// The children of the node `id`.
    closed spec fn kids(&self, id: u128) -> Seq<u128> {
        self.nodes()[index_of(self.nodes(), id)->0].2
    }

    /// The names of the modules from the top down to the node `id`, itself
    /// included, without the root.
    closed spec fn names_to(&self, id: u128) -> Seq<Seq<char>> {
        path_to(self.nodes(), self.entries@, index_of(self.nodes(), id)->0)
    }

    /// Every module but the root leads to a registered container: its
    /// names are the first names under which one was registered.
    closed spec fn modules_lead(&self) -> bool {
        let n = self.nodes();
        let e = self.entries@;
        forall|p: int|
            0 < p < n.len() && e[p] is Module ==> leads_to(
                #[trigger] path_to(n, e, p),
                self.registered(),
            )
    }

    /// No node has two module children of the same name.
    closed spec fn names_apart(&self) -> bool {
        let n = self.nodes();
        let e = self.entries@;
        forall|j: int, a: int, b: int|
            0 <= j < n.len() && 0 <= a < b < n[j].2.len() && e[#[trigger] n[j].2[a] as int] is Module
                && e[#[trigger] n[j].2[b] as int] is Module ==> module_name(e[n[j].2[a] as int])
                != module_name(e[n[j].2[b] as int])
    }
}

proof fn lemma_index_of_position(n: Seq<TreeNode>, id: int)
    requires
        forall|j: int| 0 <= j < n.len() ==> #[trigger] n[j].0 == j,
        0 <= id < n.len(),
    ensures
        index_of(n, id as u128) == Some(id),
{
    lemma_index_from_position(n, id, 0);
}

proof fn lemma_index_from_position(n: Seq<TreeNode>, id: int, i: int)
    requires
        forall|j: int| 0 <= j < n.len() ==> #[trigger] n[j].0 == j,
        0 <= i <= id < n.len(),
    ensures
        index_from(n, id as u128, i) == Some(id),
    decreases id - i,
{
    assert(n[i].0 == i);
    assert(n[id].0 == id);
    if i < id {
        lemma_index_from_position(n, id, i + 1);
    }
}

/// Frame: the paths above the first `m` nodes only depend on the ids,
/// parents and entries of those nodes.
proof fn lemma_path_above_frame(
    n1: Seq<TreeNode>,
    e1: Seq<NodeType>,
    n2: Seq<TreeNode>,
    e2: Seq<NodeType>,
    m: int,
    j: int,
)
    requires
        0 <= j < m <= n1.len(),
        m <= n2.len(),
        forall|k: int| 0 <= k < n1.len() ==> #[trigger] n1[k].0 == k,
        forall|k: int| 0 <= k < n2.len() ==> #[trigger] n2[k].0 == k,
        forall|k: int| 0 <= k < m ==> #[trigger] n1[k].1 == n2[k].1,
        forall|k: int| 0 <= k < m ==> #[trigger] e1[k] == e2[k],
    ensures
        path_above(n1, e1, j) == path_above(n2, e2, j),
    decreases j,
{
    if 0 < j {
        assert(n1[j].1 == n2[j].1);
        if let Some(p) = n1[j].1 {
            if p < j {
                lemma_index_of_position(n1, p as int);
                lemma_index_of_position(n2, p as int);
                lemma_path_above_frame(n1, e1, n2, e2, m, p as int);
                assert(n1[p as int].0 == p);
                assert(n2[p as int].0 == p);
                assert(e1[p as int] == e2[p as int]);
            } else if p < n1.len() {
                lemma_index_of_position(n1, p as int);
                if p < n2.len() {
                    lemma_index_of_position(n2, p as int);
                } else {
                    lemma_index_absent(n2, p);
                }
            } else {
                lemma_index_absent(n1, p);
                if p < n2.len() {
                    lemma_index_of_position(n2, p as int);
                } else {
                    lemma_index_absent(n2, p);
                }
            }
        }
    }
}

proof fn lemma_index_absent(n: Seq<TreeNode>, id: u128)
    requires
        forall|j: int| 0 <= j < n.len() ==> #[trigger] n[j].0 == j,
        id >= n.len(),
    ensures
        index_of(n, id) is None,
{
    lemma_index_from_absent(n, id, 0);
}

proof fn lemma_index_from_absent(n: Seq<TreeNode>, id: u128, i: int)
    requires
        forall|j: int| 0 <= j < n.len() ==> #[trigger] n[j].0 == j,
        id >= n.len(),
        0 <= i,
    ensures
        index_from(n, id, i) is None,
    decreases n.len() - i,
{
    if i < n.len() {
        assert(n[i].0 == i);
        lemma_index_from_absent(n, id, i + 1);
    }
}

proof fn lemma_registered_frame(
    n1: Seq<TreeNode>,
    e1: Seq<NodeType>,
    n2: Seq<TreeNode>,
    e2: Seq<NodeType>,
    m: int,
    k: int,
)
    requires
        0 <= k <= m <= n1.len(),
        m <= n2.len(),
        forall|x: int| 0 <= x < n1.len() ==> #[trigger] n1[x].0 == x,
        forall|x: int| 0 <= x < n2.len() ==> #[trigger] n2[x].0 == x,
        forall|x: int| 0 <= x < m ==> #[trigger] n1[x].1 == n2[x].1,
        forall|x: int| 0 <= x < m ==> #[trigger] e1[x] == e2[x],
    ensures
        registered_upto(n1, e1, k) == registered_upto(n2, e2, k),
    decreases k,
{
    if k > 0 {
        lemma_registered_frame(n1, e1, n2, e2, m, k - 1);
        lemma_path_above_frame(n1, e1, n2, e2, m, k - 1);
        assert(n1[k - 1].0 == k - 1);
        assert(n2[k - 1].0 == k - 1);
    }
}

impl ModuleTree {
    fn new() -> (r: ModuleTree)
        ensures
            r.grown(),
            r.names_apart(),
            r.modules_lead(),
            r.registered() == Seq::<(Container, Seq<Seq<char>>)>::empty(),
    {
        let mut tree = new_tree();
        let mut entries: Vec<NodeType> = Vec::new();
        entries.push(NodeType::Module("::".to_owned()));
        let ok = add_node(&mut tree, 0, 0, None);
        proof {
            assert(root_from(Seq::<TreeNode>::empty(), 0) is None);
        }
        let r = ModuleTree { tree, entries };
        assert(r.nodes().len() == 1);
        assert(r.registered() =~= Seq::<(Container, Seq<Seq<char>>)>::empty()) by {
            assert(registered_upto(r.nodes(), r.entries@, 0) =~= Seq::<
                (Container, Seq<Seq<char>>),
            >::empty());
        }
        r
    }

    /// Adds a node with the entry `entry` under the node `parent`; its id
    /// is the position of its entry.
    fn add_entry(&mut self, entry: NodeType, parent: u128) -> (id: u128)
        requires
            old(self).grown(),
            parent < old(self).nodes().len(),
            old(self).entries@[parent as int] is Module,
        ensures
            final(self).grown(),
            id == old(self).nodes().len(),
            final(self).entries@ == old(self).entries@.push(entry),
            final(self).nodes().len() == old(self).nodes().len() + 1,
            final(self).nodes()[id as int].1 == Some(parent),
            forall|x: int|
                0 <= x < old(self).nodes().len() ==> #[trigger] final(self).nodes()[x].1
                    == old(self).nodes()[x].1,
            final(self).nodes()[parent as int].2 == old(self).nodes()[parent as int].2.push(id),
            forall|x: int|
                0 <= x < old(self).nodes().len() && x != parent ==> #[trigger] final(self).nodes()[x].2
                    == old(self).nodes()[x].2,
    {
        let len = self.entries.len();
        let id = len as u128;
        self.entries.push(entry);
        proof {
            lemma_index_of_position(self.nodes(), parent as int);
        }
        let ok = add_node(&mut self.tree, id, len, Some(parent));
        let ghost n0 = tree_nodes(old(self).tree);
        let ghost n = self.nodes();
        assert(n == with_children(n0, parent as int, n0[parent as int].2.push(id)).push(
            (id, Some(parent), Seq::<u128>::empty(), Some(len)),
        ));
        assert forall|j: int, c: int|
            0 <= j < n.len() && 0 <= c < n[j].2.len() implies j < #[trigger] n[j].2[c] < n.len()
            && n[n[j].2[c] as int].1 == Some(j as u128) by {
            if j == parent as int && c == n0[j].2.len() {
            } else {
                assert(n[j].2[c] == n0[j].2[c]);
            }
        }
        assert forall|j: int| 0 <= j < n.len() implies #[trigger] n[j].0 == j && n[j].3 == Some(
            j as usize,
        ) by {
            if j < n0.len() {
                assert(n[j].0 == n0[j].0);
            }
        }
        assert forall|j: int, a: int, b: int|
            0 <= j < n.len() && 0 <= a < b < n[j].2.len() implies #[trigger] n[j].2[a]
            < #[trigger] n[j].2[b] by {
            if j == parent as int && b == n0[j].2.len() {
                assert(n0[j].2[a] < n0.len());
            }
        }
        assert forall|j: int| 0 < j < n.len() implies #[trigger] n[n[j].1->0 as int].2.contains(
            j as u128,
        ) by {
            if j < n0.len() {
                let p = n0[j].1->0 as int;
                assert(n0[p].2.contains(j as u128));
                let w = choose|w: int| 0 <= w < n0[p].2.len() && n0[p].2[w] == j as u128;
                assert(n[p].2[w] == j as u128);
            } else {
                assert(n[parent as int].2[n0[parent as int].2.len() as int] == id);
            }
        }
        id
    }

    /// The first child of the node `node` that is a module named `name`;
    /// `None` where no child is.
    fn find_module_child(&self, node: u128, name: &String) -> (r: Option<u128>)
        requires
            self.grown(),
            node < self.nodes().len(),
        ensures
            r matches Some(c) ==> (c < self.nodes().len() && self.nodes()[c as int].1 == Some(node)
                && self.entries@[c as int] is Module && module_name(self.entries@[c as int])
                == name@),
            match r {
                Some(c) => exists|k: int|
                    0 <= k < self.nodes()[node as int].2.len() && #[trigger] self.nodes()[node as int].2[k]
                        == c && named_module(self.entries@, c, name@) && forall|k2: int|
                        0 <= k2 < k ==> !named_module(
                            self.entries@,
                            #[trigger] self.nodes()[node as int].2[k2],
                            name@,
                        ),
                None => forall|k: int|
                    0 <= k < self.nodes()[node as int].2.len() ==> !named_module(
                        self.entries@,
                        #[trigger] self.nodes()[node as int].2[k],
                        name@,
                    ),
            },
    {
        proof {
            lemma_index_of_position(self.nodes(), node as int);
        }
        let children = node_children(&self.tree, node);
        match children {
            None => None,
            Some(ids) => {
                let mut k: usize = 0;
                while k < ids.len()
                    invariant
                        self.grown(),
                        node < self.nodes().len(),
                        ids@ == self.nodes()[node as int].2,
                        k <= ids@.len(),
                        forall|k2: int|
                            0 <= k2 < k ==> !named_module(self.entries@, #[trigger] ids@[k2], name@),
                    decreases ids@.len() - k,
                {
                    let c = ids[k];
                    assert(self.nodes()[node as int].2[k as int] == c);
                    assert(node < c < self.nodes().len() && self.nodes()[c as int].1 == Some(
                        node,
                    ));
                    let el = self.entries.len();
                    assert(c < el);
                    let ci = c as usize;
                    assert(ci as int == c as int);
                    let is_match = match &self.entries[ci] {
                        NodeType::Module(m) => {
                            let b = m.eq(name);
                            assert(b == (module_name(self.entries@[c as int]) == name@));
                            b
                        },
                        NodeType::Container(_) => false,
                    };
                    assert(is_match == named_module(self.entries@, c, name@));
                    if is_match {
                        assert(self.entries@[c as int] is Module);
                        assert(self.nodes()[node as int].2[k as int] == c);
                        return Some(c);
                    }
                    k = k + 1;
                }
                None
            },
        }
    }
}

/// The module names in a path after its first part, the crate's name.
pub open spec fn module_parts(parts: Seq<Seq<char>>) -> Seq<Seq<char>> {
    if parts.len() <= 1 {
        Seq::<Seq<char>>::empty()
    } else {
        parts.skip(1)
    }
}

impl ModuleTree {
    proof fn lemma_path_above_parent(&self, j: int, p: int)
        requires
            self.grown(),
            0 <= p < j < self.nodes().len(),
            self.nodes()[j].1 == Some(p as u128),
        ensures
            path_above(self.nodes(), self.entries@, j) == path_to(self.nodes(), self.entries@, p),
    {
        let n = self.nodes();
        assert(n[j].1 matches Some(q) && q < j);
        lemma_index_of_position(n, p);
    }

    /// Adding a node under `parent` keeps the names of sibling modules apart
    /// where a new module's name is not among the modules below `parent`.
    proof fn lemma_names_apart_grow(old_t: &ModuleTree, new_t: &ModuleTree, parent: u128, entry: NodeType)
        requires
            old_t.grown(),
            new_t.grown(),
            old_t.names_apart(),
            parent < old_t.nodes().len(),
            new_t.nodes().len() == old_t.nodes().len() + 1,
            new_t.entries@ == old_t.entries@.push(entry),
            new_t.nodes()[parent as int].2 == old_t.nodes()[parent as int].2.push(
                old_t.nodes().len() as u128,
            ),
            forall|x: int|
                0 <= x < old_t.nodes().len() && x != parent ==> #[trigger] new_t.nodes()[x].2
                    == old_t.nodes()[x].2,
            entry is Module ==> forall|k: int|
                0 <= k < old_t.nodes()[parent as int].2.len() ==> !named_module(
                    old_t.entries@,
                    #[trigger] old_t.nodes()[parent as int].2[k],
                    module_name(entry),
                ),
        ensures
            new_t.names_apart(),
    {
        let n0 = old_t.nodes();
        let e0 = old_t.entries@;
        let n = new_t.nodes();
        let e = new_t.entries@;
        let m = n0.len() as int;
        assert(n[m].0 == m);
        assert(m as u128 == m);
        assert forall|j: int, a: int, b: int|
            0 <= j < n.len() && 0 <= a < b < n[j].2.len() && e[#[trigger] n[j].2[a] as int] is Module
                && e[#[trigger] n[j].2[b] as int] is Module implies module_name(e[n[j].2[a] as int])
                != module_name(e[n[j].2[b] as int]) by {
            if j == m {
                assert(j < n[j].2[a] < n.len());
            } else if j == parent as int && b == n0[j].2.len() {
                assert(n[j].2[a] == n0[j].2[a]);
                assert(n0[j].2[a] < m);
                assert(e[n0[j].2[a] as int] == e0[n0[j].2[a] as int]);
                assert(n[j].2[b] == m);
                assert(e[m] == entry);
                assert(!named_module(e0, n0[j].2[a], module_name(entry)));
            } else {
                assert(n[j].2[a] == n0[j].2[a]);
                assert(n[j].2[b] == n0[j].2[b]);
                assert(n0[j].2[a] < m && n0[j].2[b] < m);
                assert(e[n0[j].2[a] as int] == e0[n0[j].2[a] as int]);
                assert(e[n0[j].2[b] as int] == e0[n0[j].2[b] as int]);
            }
        }
    }

    proof fn lemma_grow_frame(old_t: &ModuleTree, new_t: &ModuleTree)
        requires
            old_t.grown(),
            new_t.grown(),
            new_t.nodes().len() == old_t.nodes().len() + 1,
            new_t.entries@.drop_last() == old_t.entries@,
            forall|x: int|
                0 <= x < old_t.nodes().len() ==> #[trigger] new_t.nodes()[x].1 == old_t.nodes()[x].1,
        ensures
            forall|x: int|
                0 <= x < old_t.nodes().len() ==> #[trigger] path_to(new_t.nodes(), new_t.entries@, x)
                    == path_to(old_t.nodes(), old_t.entries@, x),
            registered_upto(new_t.nodes(), new_t.entries@, old_t.nodes().len() as int)
                == old_t.registered(),
    {
        let m = old_t.nodes().len() as int;
        assert forall|x: int| 0 <= x < m implies #[trigger] new_t.entries@[x] == old_t.entries@[x] by {
            assert(new_t.entries@.drop_last()[x] == new_t.entries@[x]);
        }
        assert forall|x: int| 0 <= x < m implies #[trigger] path_to(
            new_t.nodes(),
            new_t.entries@,
            x,
        ) == path_to(old_t.nodes(), old_t.entries@, x) by {
            lemma_path_above_frame(
                old_t.nodes(),
                old_t.entries@,
                new_t.nodes(),
                new_t.entries@,
                m,
                x,
            );
            assert(old_t.nodes()[x].0 == x);
            assert(new_t.nodes()[x].0 == x);
        }
        lemma_registered_frame(
            old_t.nodes(),
            old_t.entries@,
            new_t.nodes(),
            new_t.entries@,
            m,
            m,
        );
    }

    /// Inserts a container under the modules named by its path after the
    /// first part, reusing the modules that exist and adding those that do
    /// not.
    fn insert_container(&mut self, container: Container)
        requires
            old(self).grown(),
            old(self).names_apart(),
            old(self).modules_lead(),
        ensures
            final(self).grown(),
            final(self).names_apart(),
            final(self).modules_lead(),
            final(self).registered() == old(self).registered().push(
                (container, module_parts(spec_path_parts(container.path@))),
            ),
            chain_len(
                old(self).nodes(),
                old(self).entries@,
                0,
                module_parts(spec_path_parts(container.path@)),
            ) <= module_parts(spec_path_parts(container.path@)).len(),
            final(self).nodes().len() == old(self).nodes().len() + (module_parts(
                spec_path_parts(container.path@),
            ).len() - chain_len(
                old(self).nodes(),
                old(self).entries@,
                0,
                module_parts(spec_path_parts(container.path@)),
            )) + 1,
    {
        let parts = container.path.parts();
        let ghost mp = module_parts(views(parts@));
        let mut node: u128 = 0;
        let mut i: usize = 1;
        let ghost start = *self;
        proof {
            assert(self.nodes()[0].0 == 0);
            assert(mp.skip(0) =~= mp);
            if parts@.len() > 1 {
                assert(mp.len() == parts@.len() - 1);
            } else {
                assert(mp.len() == 0);
            }
        }
        while i < parts.len()
            invariant_except_break
                1 <= i <= parts@.len() || parts@.len() == 0 && i == 1,
                self.grown(),
                self.names_apart(),
                node < self.nodes().len(),
                self.entries@[node as int] is Module,
                path_to(self.nodes(), self.entries@, node as int) == mp.take(i - 1),
                mp == module_parts(views(parts@)),
                parts@.len() > 1 ==> mp.len() == parts@.len() - 1,
                parts@.len() <= 1 ==> mp.len() == 0,
                *self == start,
                chain_len(start.nodes(), start.entries@, 0, mp) == (i - 1) + chain_len(
                    self.nodes(),
                    self.entries@,
                    node,
                    mp.skip(i - 1),
                ),
            ensures
                1 <= i <= parts@.len() || parts@.len() == 0 && i == 1,
                self.grown(),
                self.names_apart(),
                node < self.nodes().len(),
                self.entries@[node as int] is Module,
                path_to(self.nodes(), self.entries@, node as int) == mp.take(i - 1),
                *self == start,
                chain_len(start.nodes(), start.entries@, 0, mp) == i - 1,
                i < parts@.len() ==> forall|k: int|
                    0 <= k < self.nodes()[node as int].2.len() ==> !named_module(
                        self.entries@,
                        #[trigger] self.nodes()[node as int].2[k],
                        views(parts@)[i as int],
                    ),
            decreases parts@.len() - i,
        {
            let found = self.find_module_child(node, &parts[i]);
            let ghost rest = mp.skip(i - 1);
            proof {
                assert(rest.len() > 0);
                assert(rest[0] == views(parts@)[i as int]);
            }
            match found {
                Some(c) => {
                    proof {
                        let n = self.nodes();
                        let e = self.entries@;
                        assert(n[c as int].1 matches Some(q) && q < c);
                        self.lemma_path_above_parent(c as int, node as int);
                        assert(mp.take(i as int) =~= mp.take(i - 1).push(views(parts@)[i as int]));
                        let kids = n[node as int].2;
                        let ka = choose|k: int| 0 <= k < kids.len() && #[trigger] kids[k] == c
                            && named_module(e, c, views(parts@)[i as int]) && forall|k2: int|
                            0 <= k2 < k ==> !named_module(e, #[trigger] kids[k2], views(parts@)[i as int]);
                        assert(kids.contains(c));
                        let c2 = choose|c2: u128| kids.contains(c2) && named_module(e, c2, rest[0]);
                        if c2 != c {
                            let kb = choose|k: int| 0 <= k < kids.len() && kids[k] == c2;
                            assert(kb != ka);
                            if ka < kb {
                                assert(module_name(e[kids[ka] as int]) != module_name(e[kids[kb] as int]));
                            } else {
                                assert(module_name(e[kids[kb] as int]) != module_name(e[kids[ka] as int]));
                            }
                        }
                        assert(rest.drop_first() =~= mp.skip(i as int));
                        assert(chain_len(n, e, node, rest) == 1 + chain_len(n, e, c, mp.skip(i as int)));
                    }
                    node = c;
                    i = i + 1;
                },
                None => {
                    proof {
                        let n = self.nodes();
                        let e = self.entries@;
                        let kids = n[node as int].2;
                        if exists|c: u128| kids.contains(c) && named_module(e, c, rest[0]) {
                            let c = choose|c: u128| kids.contains(c) && named_module(e, c, rest[0]);
                            let k = choose|k: int| 0 <= k < kids.len() && kids[k] == c;
                            assert(!named_module(e, kids[k], views(parts@)[i as int]));
                        }
                        assert(chain_len(n, e, node, rest) == 0);
                    }
                    break ;
                },
            }
        }
        proof {
            if i >= parts@.len() {
                assert(mp.skip(i - 1).len() == 0);
            }
        }
        let ghost before = *self;
        let ghost i0 = i;
        proof {
            assert forall|p: int|
                0 < p < self.nodes().len() && self.entries@[p] is Module implies leads_to(
                #[trigger] path_to(self.nodes(), self.entries@, p),
                before.registered(),
            ) by {
                assert(start.modules_lead());
            }
        }
        while i < parts.len()
            invariant
                1 <= i <= parts@.len() || parts@.len() == 0 && i == 1,
                i0 <= i,
                self.grown(),
                self.names_apart(),
                node < self.nodes().len(),
                self.entries@[node as int] is Module,
                path_to(self.nodes(), self.entries@, node as int) == mp.take(i - 1),
                mp == module_parts(views(parts@)),
                self.registered() == before.registered(),
                self.nodes().len() == before.nodes().len() + (i - i0),
                forall|p: int|
                    0 < p < self.nodes().len() && self.entries@[p] is Module ==> leads_to(
                        #[trigger] path_to(self.nodes(), self.entries@, p),
                        before.registered(),
                    ) || (path_to(self.nodes(), self.entries@, p).len() <= mp.len() && mp.take(
                        path_to(self.nodes(), self.entries@, p).len() as int,
                    ) == path_to(self.nodes(), self.entries@, p)),
                i < parts@.len() ==> forall|k: int|
                    0 <= k < self.nodes()[node as int].2.len() ==> !named_module(
                        self.entries@,
                        #[trigger] self.nodes()[node as int].2[k],
                        views(parts@)[i as int],
                    ),
            decreases parts@.len() - i,
        {
            let ghost prev = *self;
            let name = parts[i].clone();
            let id = self.add_entry(NodeType::Module(name), node);
            proof {
                assert(self.entries@.drop_last() =~= prev.entries@);
                ModuleTree::lemma_grow_frame(&prev, self);
                ModuleTree::lemma_names_apart_grow(&prev, self, node, NodeType::Module(name));
                self.lemma_path_above_parent(id as int, node as int);
                assert(self.entries@[id as int] == NodeType::Module(name));
                assert(mp.take(i as int) =~= mp.take(i - 1).push(views(parts@)[i as int]));
                let n1 = self.nodes();
                let e1 = self.entries@;
                assert forall|p: int| 0 < p < n1.len() && e1[p] is Module implies leads_to(
                    #[trigger] path_to(n1, e1, p),
                    before.registered(),
                ) || (path_to(n1, e1, p).len() <= mp.len() && mp.take(
                    path_to(n1, e1, p).len() as int,
                ) == path_to(n1, e1, p)) by {
                    if p < prev.nodes().len() {
                        assert(e1[p] == prev.entries@[p]);
                        assert(path_to(n1, e1, p) == path_to(prev.nodes(), prev.entries@, p));
                    } else {
                        assert(p == id as int);
                        assert(path_to(n1, e1, p) == mp.take(i as int));
                        assert(mp.take(i as int).take(i as int) =~= mp.take(i as int));
                    }
                }
                let n = self.nodes();
                assert(registered_upto(n, self.entries@, n.len() as int) =~= registered_upto(
                    n,
                    self.entries@,
                    n.len() - 1,
                ));
                if n[id as int].2.len() > 0 {
                    assert(id < n[id as int].2[0] < n.len());
                }
                assert(n[id as int].2.len() == 0);
            }
            node = id;
            i = i + 1;
        }
        let ghost prev = *self;
        let id = self.add_entry(NodeType::Container(container), node);
        proof {
            assert(self.entries@.drop_last() =~= prev.entries@);
            ModuleTree::lemma_grow_frame(&prev, self);
            ModuleTree::lemma_names_apart_grow(&prev, self, node, NodeType::Container(container));
            self.lemma_path_above_parent(id as int, node as int);
            if parts@.len() > 0 {
                assert(mp.take(i - 1) =~= mp);
            } else {
                assert(mp =~= Seq::<Seq<char>>::empty());
            }
            assert(self.entries@[id as int] == NodeType::Container(container));
            let n1 = self.nodes();
            let e1 = self.entries@;
            let regs = self.registered();
            assert(regs == before.registered().push((container, mp)));
            assert forall|p: int| 0 < p < n1.len() && e1[p] is Module implies leads_to(
                #[trigger] path_to(n1, e1, p),
                regs,
            ) by {
                assert(p < prev.nodes().len());
                assert(e1[p] == prev.entries@[p]);
                assert(path_to(n1, e1, p) == path_to(prev.nodes(), prev.entries@, p));
                let t = path_to(n1, e1, p);
                if leads_to(t, before.registered()) {
                    let w = choose|w: int|
                        0 <= w < before.registered().len() && t.len() <= (
                        #[trigger] before.registered()[w]).1.len() && before.registered()[w].1.take(
                            t.len() as int,
                        ) == t;
                    assert(regs[w] == before.registered()[w]);
                } else {
                    let last = before.registered().len() as int;
                    assert(regs[last] == (container, mp));
                }
            }
        }
    }
}

/// The registry of the containers that bindings are generated for, sorted
/// into a tree of the modules that they are declared in.
pub struct BindingsRegistry {
    tree: ModuleTree,
}

impl BindingsRegistry {
    #[verifier::type_invariant]
    closed spec fn inv(self) -> bool {
        self.tree.grown() && self.tree.names_apart() && self.tree.modules_lead()
    }

    /// The registered containers, in the order of registration, each with
    /// the names of the modules that it was sorted under.
    pub closed spec fn registered(&self) -> Seq<(Container, Seq<Seq<char>>)> {
        self.tree.registered()
    }

    /// The number of nodes of the module tree: the root, the modules and
    /// the containers.
    pub closed spec fn node_count(&self) -> nat {
        self.tree.nodes().len()
    }

    /// How many of the module names `names` already stand as a chain of
    /// modules below the root, each below the one before.
    pub closed spec fn existing_chain(&self, names: Seq<Seq<char>>) -> nat {
        chain_len(self.tree.nodes(), self.tree.entries@, 0, names)
    }

    fn insert(&mut self, container: Container)
        ensures
            final(self).registered() == old(self).registered().push(
                (container, module_parts(spec_path_parts(container.path@))),
            ),
            old(self).existing_chain(module_parts(spec_path_parts(container.path@)))
                <= module_parts(spec_path_parts(container.path@)).len(),
            final(self).node_count() == old(self).node_count() + (module_parts(
                spec_path_parts(container.path@),
            ).len() - old(self).existing_chain(module_parts(spec_path_parts(container.path@))))
                + 1,
    {
        proof {
            use_type_invariant(&*self);
        }
        let mut tree = ModuleTree::new();
        std::mem::swap(&mut tree, &mut self.tree);
        tree.insert_container(container);
        self.tree = tree;
    }

    /// Registers a struct declared in the module `path` (its parts joined
    /// by `::`, the crate's name first).
    pub fn register_struct_binding(&mut self, name: &'static str, path: &str, value: StructType)
        ensures
            final(self).registered().drop_last() == old(self).registered(),
            registered_last(final(self).registered(), name, path@),
            final(self).registered().last().0.ty == BindingType::Struct(value),
            old(self).existing_chain(module_parts(split_seq(path@, "::"@))) <= module_parts(
                split_seq(path@, "::"@),
            ).len(),
            final(self).node_count() == old(self).node_count() + (module_parts(
                split_seq(path@, "::"@),
            ).len() - old(self).existing_chain(module_parts(split_seq(path@, "::"@)))) + 1,
    {
        self.insert(Container { path: Path::new(path, "::"), name, ty: BindingType::Struct(value) });
    }

    /// Registers a tuple struct declared in the module `path`.
    pub fn register_tuple_struct_binding(
        &mut self,
        name: &'static str,
        path: &str,
        value: TupleStructType,
    )
        ensures
            final(self).registered().drop_last() == old(self).registered(),
            registered_last(final(self).registered(), name, path@),
            final(self).registered().last().0.ty == BindingType::TupleStruct(value),
            old(self).existing_chain(module_parts(split_seq(path@, "::"@))) <= module_parts(
                split_seq(path@, "::"@),
            ).len(),
            final(self).node_count() == old(self).node_count() + (module_parts(
                split_seq(path@, "::"@),
            ).len() - old(self).existing_chain(module_parts(split_seq(path@, "::"@)))) + 1,
    {
        self.insert(
            Container { path: Path::new(path, "::"), name, ty: BindingType::TupleStruct(value) },
        );
    }

    /// Registers a unit struct declared in the module `path`.
    pub fn register_unit_struct_binding(
        &mut self,
        name: &'static str,
        path: &str,
        value: UnitStructType,
    )
        ensures
            final(self).registered().drop_last() == old(self).registered(),
            registered_last(final(self).registered(), name, path@),
            final(self).registered().last().0.ty == BindingType::UnitStruct(value),
            old(self).existing_chain(module_parts(split_seq(path@, "::"@))) <= module_parts(
                split_seq(path@, "::"@),
            ).len(),
            final(self).node_count() == old(self).node_count() + (module_parts(
                split_seq(path@, "::"@),
            ).len() - old(self).existing_chain(module_parts(split_seq(path@, "::"@)))) + 1,
    {
        self.insert(
            Container { path: Path::new(path, "::"), name, ty: BindingType::UnitStruct(value) },
        );
    }

    /// Registers an enum declared in the module `path`.
    pub fn register_enum_binding(&mut self, name: &'static str, path: &str, value: EnumType)
        ensures
            final(self).registered().drop_last() == old(self).registered(),
            registered_last(final(self).registered(), name, path@),
            final(self).registered().last().0.ty == BindingType::Enum(value),
            old(self).existing_chain(module_parts(split_seq(path@, "::"@))) <= module_parts(
                split_seq(path@, "::"@),
            ).len(),
            final(self).node_count() == old(self).node_count() + (module_parts(
                split_seq(path@, "::"@),
            ).len() - old(self).existing_chain(module_parts(split_seq(path@, "::"@)))) + 1,
    {
        self.insert(Container { path: Path::new(path, "::"), name, ty: BindingType::Enum(value) });
    }
}

/// Whether the last of the registered containers is named `name`, has the
/// path `path` joined by `::`, and was sorted under the modules that the
/// parts of that path after the first one name.
pub open spec fn registered_last(
    registered: Seq<(Container, Seq<Seq<char>>)>,
    name: &'static str,
    path: Seq<char>,
) -> bool {
    &&& registered.len() >= 1
    &&& registered.last().0.name == name
    &&& registered.last().0.path@ == (Some(path), "::"@)
    &&& registered.last().1 == module_parts(split_seq(path, "::"@))
}

impl Default for BindingsRegistry {
    /// A registry without containers.
    fn default() -> (r: Self)
        ensures
            r.registered() == Seq::<(Container, Seq<Seq<char>>)>::empty(),
    {
        BindingsRegistry { tree: ModuleTree::new() }
    }
}

proof fn lemma_index_unique(n: Seq<TreeNode>, j: int)
    requires
        forall|a: int, b: int| 0 <= a < b < n.len() ==> #[trigger] n[a].0 != #[trigger] n[b].0,
        0 <= j < n.len(),
    ensures
        index_of(n, n[j].0) == Some(j),
{
    lemma_index_from_unique(n, j, 0);
}

proof fn lemma_index_from_unique(n: Seq<TreeNode>, j: int, i: int)
    requires
        forall|a: int, b: int| 0 <= a < b < n.len() ==> #[trigger] n[a].0 != #[trigger] n[b].0,
        0 <= i <= j < n.len(),
    ensures
        index_from(n, n[j].0, i) == Some(j),
    decreases j - i,
{
    if i < j {
        assert(n[i].0 != n[j].0);
        lemma_index_from_unique(n, j, i + 1);
    }
}

impl ModuleTree {
    /// The shape after flattening: every container hangs directly below
    /// the root, and no other node has children.
    closed spec fn flat(&self) -> bool {
        let n = self.nodes();
        let e = self.entries@;
        &&& n.len() >= 1
        &&& n[0].0 == 0 && n[0].1 is None && e.len() >= 1 && e[0] is Module
        &&& forall|a: int, b: int| 0 <= a < b < n.len() ==> #[trigger] n[a].0 != #[trigger] n[b].0
        &&& forall|j: int|
            0 <= j < n.len() ==> #[trigger] n[j].0 < e.len() && n[j].3 == Some(n[j].0 as usize)
        &&& forall|j: int| 0 < j < n.len() ==> (#[trigger] n[j].1 is None || n[j].1 == Some(0u128))
        &&& forall|j: int| 0 < j < n.len() ==> (#[trigger] n[j].2).len() == 0
        &&& forall|c: int|
            0 <= c < n[0].2.len() ==> (index_of(n, #[trigger] n[0].2[c]) matches Some(k) && 0 < k
                && e[n[0].2[c] as int] is Container)
        &&& forall|a: int, b: int| 0 <= a < b < n[0].2.len() ==> n[0].2[a] != n[0].2[b]
        &&& forall|j: int|
            0 <= j < n.len() && e[n[j].0 as int] is Container ==> n[0].2.contains(#[trigger] n[j].0)
    }

    /// The shapes that a registry and its collection take.
    closed spec fn sound(&self) -> bool {
        self.grown() || self.flat()
    }

    proof fn lemma_sound(&self)
        requires
            self.sound(),
        ensures
            self.nodes().len() >= 1,
            self.nodes()[0].0 == 0,
            self.nodes()[0].1 is None,
            self.entries@[0] is Module,
            forall|a: int, b: int|
                0 <= a < b < self.nodes().len() ==> #[trigger] self.nodes()[a].0
                    != #[trigger] self.nodes()[b].0,
            forall|j: int|
                0 <= j < self.nodes().len() ==> #[trigger] self.nodes()[j].0 < self.entries@.len(),
            children_after(self.nodes()),
            children_found(self.nodes()),
            forall|j: int, c: int|
                0 <= j < self.nodes().len() && 0 <= c < self.nodes()[j].2.len() ==> (#[trigger] self.nodes()[j].2[c]) < self.entries@.len(),
            forall|j: int|
                0 < j < self.nodes().len() ==> match #[trigger] self.nodes()[j].1 {
                    Some(p) => p != 0 ==> (index_of(self.nodes(), p) matches Some(k) && 0 < k < j),
                    None => true,
                },
    {
        let n = self.nodes();
        if self.grown() {
            assert(n[0].0 == 0);
            assert forall|j: int, c: int|
                0 <= j < n.len() && 0 <= c < n[j].2.len() implies match index_of(
                    n,
                    #[trigger] n[j].2[c],
                ) {
                    Some(k) => k > j,
                    None => true,
                } by {
                lemma_index_of_position(n, n[j].2[c] as int);
            }
            assert forall|j: int, c: int|
                0 <= j < n.len() && 0 <= c < n[j].2.len() implies index_of(
                    n,
                    #[trigger] n[j].2[c],
                ) is Some by {
                lemma_index_of_position(n, n[j].2[c] as int);
            }
            assert forall|j: int|
                0 < j < n.len() implies match #[trigger] n[j].1 {
                    Some(p) => p != 0 ==> (index_of(n, p) matches Some(k) && 0 < k < j),
                    None => true,
                } by {
                assert(n[j].1 matches Some(p) && p < j);
                lemma_index_of_position(n, n[j].1->0 as int);
            }
            assert forall|a: int, b: int| 0 <= a < b < n.len() implies #[trigger] n[a].0
                != #[trigger] n[b].0 by {
                assert(n[a].0 == a && n[b].0 == b);
            }
        } else {
            assert forall|j: int, c: int|
                0 <= j < n.len() && 0 <= c < n[j].2.len() implies match index_of(
                    n,
                    #[trigger] n[j].2[c],
                ) {
                    Some(k) => k > j,
                    None => true,
                } by {
                if j > 0 {
                    assert(n[j].2.len() == 0);
                }
            }
            assert forall|j: int, c: int|
                0 <= j < n.len() && 0 <= c < n[j].2.len() implies index_of(
                    n,
                    #[trigger] n[j].2[c],
                ) is Some by {
                if j > 0 {
                    assert(n[j].2.len() == 0);
                }
            }
            assert forall|j: int, c: int|
                0 <= j < n.len() && 0 <= c < n[j].2.len() implies (#[trigger] n[j].2[c])
                < self.entries@.len() by {
                if j > 0 {
                    assert(n[j].2.len() == 0);
                } else {
                    let k = index_of(n, n[0].2[c])->0;
                    lemma_index_from_bounds(n, n[0].2[c], 0);
                    assert(n[k].0 == n[0].2[c]);
                }
            }
        }
    }

    /// The entry of the node `id`.
    fn entry(&self, id: u128) -> (r: &NodeType)
        requires
            self.sound(),
            id < self.entries@.len(),
        ensures
            *r == self.entries@[id as int],
    {
        let el = self.entries.len();
        let i = id as usize;
        assert(i as int == id as int);
        &self.entries[i]
    }

    /// The containers directly below the node `id`, in the order of its
    /// children, and its module children ordered by height from the highest
    /// down, modules of equal height in the order of the children.
    fn children_split(&self, id: u128) -> (r: (Vec<&Container>, Vec<u128>))
        requires
            self.sound(),
            index_of(self.nodes(), id) is Some,
        ensures
            ({
                let kids = self.nodes()[index_of(self.nodes(), id)->0].2;
                let e = self.entries@;
                &&& r.0@.len() == child_containers(kids, e).len()
                &&& forall|i: int| 0 <= i < r.0@.len() ==> *r.0@[i] == child_containers(kids, e)[i]
                &&& r.1@ == sorted_by_height(self.nodes(), child_modules(kids, e))
                &&& forall|x: int|
                    0 <= x < r.1@.len() ==> index_of(self.nodes(), #[trigger] r.1@[x]) is Some
                        && r.1@[x] < e.len() && e[r.1@[x] as int] is Module
                        && index_of(self.nodes(), r.1@[x])->0 > index_of(self.nodes(), id)->0
            }),
    {
        proof {
            self.lemma_sound();
        }
        let ghost k = index_of(self.nodes(), id)->0;
        proof {
            lemma_index_from_bounds(self.nodes(), id, 0);
        }
        let kids = match node_children(&self.tree, id) {
            Some(v) => v,
            None => Vec::new(),
        };
        let ghost e = self.entries@;
        let mut containers: Vec<&Container> = Vec::new();
        let mut mods: Vec<(u128, i32)> = Vec::new();
        let mut i: usize = 0;
        while i < kids.len()
            invariant
                self.sound(),
                e == self.entries@,
                0 <= k < self.nodes().len(),
                kids@ == self.nodes()[k].2,
                children_after(self.nodes()),
                children_found(self.nodes()),
                forall|c: int| 0 <= c < kids@.len() ==> (#[trigger] kids@[c]) < e.len(),
                forall|c: int| 0 <= c < kids@.len() ==> index_of(self.nodes(), #[trigger] kids@[c]) is Some,
                i <= kids@.len(),
                containers@.len() == child_containers(kids@.take(i as int), e).len(),
                forall|x: int|
                    0 <= x < containers@.len() ==> *containers@[x] == child_containers(
                        kids@.take(i as int),
                        e,
                    )[x],
                mods@ == height_pairs(self.nodes(), child_modules(kids@.take(i as int), e)),
            decreases kids@.len() - i,
        {
            let c = kids[i];
            assert(kids@[i as int] == c);
            assert(kids@.take(i + 1) =~= kids@.take(i as int).push(c));
            match self.entry(c) {
                NodeType::Container(ct) => {
                    containers.push(ct);
                    proof {
                        lemma_child_push(kids@.take(i as int), c, e);
                    }
                },
                NodeType::Module(_) => {
                    let h = match node_height(&self.tree, c) {
                        Some(h) => h,
                        None => 0,
                    };
                    mods.push((c, h));
                    proof {
                        lemma_child_push(kids@.take(i as int), c, e);
                        let ms = child_modules(kids@.take(i as int), e);
                        assert(height_pairs(self.nodes(), ms.push(c)) =~= height_pairs(
                            self.nodes(),
                            ms,
                        ).push((c, h)));
                    }
                },
            }
            i = i + 1;
        }
        assert(kids@.take(kids@.len() as int) =~= kids@);
        let sorted = sort_desc_stable(&mods);
        let mut ids: Vec<u128> = Vec::new();
        let mut j: usize = 0;
        while j < sorted.len()
            invariant
                j <= sorted@.len(),
                ids@ == sorted@.take(j as int).map_values(|x: (u128, i32)| x.0),
            decreases sorted@.len() - j,
        {
            ids.push(sorted[j].0);
            j = j + 1;
            assert(ids@ =~= sorted@.take(j as int).map_values(|x: (u128, i32)| x.0));
        }
        assert(sorted@.take(sorted@.len() as int) =~= sorted@);
        assert(ids@ =~= sorted_by_height(self.nodes(), child_modules(kids@, e)));
        proof {
            let ms = child_modules(kids@, e);
            lemma_child_modules_members(kids@, e);
            let perm = choose|perm: Seq<int>| crate::order::stable_desc(mods@, sorted@, perm);
            assert forall|x: int| 0 <= x < ids@.len() implies index_of(
                self.nodes(),
                #[trigger] ids@[x],
            ) is Some && ids@[x] < e.len() && e[ids@[x] as int] is Module && index_of(
                self.nodes(),
                ids@[x],
            )->0 > k by {
                assert(ids@[x] == sorted@[x].0);
                assert(sorted@[x] == mods@[perm[x]]);
                assert(mods@[perm[x]].0 == ms[perm[x]]);
                let w = choose|w: int| 0 <= w < kids@.len() && kids@[w] == ms[perm[x]];
                assert(kids@[w] < e.len());
                assert(self.nodes()[k].2[w] == kids@[w]);
            }
        }
        (containers, ids)
    }
}

/// The containers among the children `kids`, in their order.
pub open spec fn child_containers(kids: Seq<u128>, e: Seq<NodeType>) -> Seq<Container>
    decreases kids.len(),
{
    if kids.len() == 0 {
        Seq::<Container>::empty()
    } else {
        child_containers(kids.drop_last(), e) + match e[kids.last() as int] {
            NodeType::Container(c) => seq![c],
            NodeType::Module(_) => Seq::<Container>::empty(),
        }
    }
}

/// The modules among the children `kids`, in their order.
pub open spec fn child_modules(kids: Seq<u128>, e: Seq<NodeType>) -> Seq<u128>
    decreases kids.len(),
{
    if kids.len() == 0 {
        Seq::<u128>::empty()
    } else {
        child_modules(kids.drop_last(), e) + match e[kids.last() as int] {
            NodeType::Container(_) => Seq::<u128>::empty(),
            NodeType::Module(_) => seq![kids.last()],
        }
    }
}

/// The nodes `ids` each with its height; a node whose height is not found
/// counts as of height zero.
pub open spec fn height_pairs(n: Seq<TreeNode>, ids: Seq<u128>) -> Seq<(u128, i32)> {
    ids.map_values(
        |id: u128|
            (
                id,
                match node_height_of(n, id) {
                    Some(h) => h,
                    None => 0i32,
                },
            ),
    )
}

/// The nodes `ids` ordered by their height from the highest down, nodes of
/// equal height in the order of `ids`.
pub open spec fn sorted_by_height(n: Seq<TreeNode>, ids: Seq<u128>) -> Seq<u128> {
    sorted_desc(height_pairs(n, ids)).map_values(|x: (u128, i32)| x.0)
}

proof fn lemma_child_modules_members(kids: Seq<u128>, e: Seq<NodeType>)
    ensures
        forall|i: int|
            0 <= i < child_modules(kids, e).len() ==> kids.contains(
                #[trigger] child_modules(kids, e)[i],
            ) && e[child_modules(kids, e)[i] as int] is Module,
    decreases kids.len(),
{
    if kids.len() > 0 {
        let rest = kids.drop_last();
        lemma_child_modules_members(rest, e);
        assert forall|i: int|
            0 <= i < child_modules(kids, e).len() implies kids.contains(
            #[trigger] child_modules(kids, e)[i],
        ) && e[child_modules(kids, e)[i] as int] is Module by {
            if i < child_modules(rest, e).len() {
                let w = choose|w: int| 0 <= w < rest.len() && rest[w] == child_modules(rest, e)[i];
                assert(kids[w] == rest[w]);
            } else {
                assert(kids[kids.len() - 1] == kids.last());
            }
        }
    }
}

proof fn lemma_child_push(kids: Seq<u128>, c: u128, e: Seq<NodeType>)
    ensures
        child_containers(kids.push(c), e) == child_containers(kids, e) + match e[c as int] {
            NodeType::Container(ct) => seq![ct],
            NodeType::Module(_) => Seq::<Container>::empty(),
        },
        child_modules(kids.push(c), e) == child_modules(kids, e) + match e[c as int] {
            NodeType::Container(_) => Seq::<u128>::empty(),
            NodeType::Module(_) => seq![c],
        },
{
    assert(kids.push(c).drop_last() =~= kids);
}

/// A type that registers the bindings of itself: the derive of the
/// bindings implements it.
pub trait JsBindings {
    /// Registers the type's container in `registry`.
    fn create_bindings(registry: &mut BindingsRegistry);
}

/// The containers of a registry, in the tree of their modules, ready for
/// generating bindings.
pub struct ContainerCollection {
    tree: ModuleTree,
}

impl BindingsRegistry {
    /// The collection of the registered containers.
    pub fn into_entries(self) -> (r: ContainerCollection)
        ensures
            r.registered() == self.registered(),
            r.modules_named_apart(),
            forall|id: u128|
                r.module_at(id) ==> #[trigger] r.containers_at(id) == registered_under(
                    r.registered(),
                    r.names_to(id),
                ),
            forall|id: u128, m: u128|
                r.module_at(id) && #[trigger] r.modules_at(id).contains(m) ==> r.module_at(m)
                    && r.names_to(m) == r.names_to(id).push(r.name_at(m)),
            forall|i: int, k: int|
                0 <= i < r.registered().len() && 0 <= k <= r.registered()[i].1.len()
                    ==> r.names_a_module(#[trigger] r.registered()[i].1.take(k)),
            r.module_at(0),
            r.names_to(0) == Seq::<Seq<char>>::empty(),
            forall|id: u128|
                r.module_at(id) && r.names_to(id).len() > 0 ==> leads_to(
                    #[trigger] r.names_to(id),
                    r.registered(),
                ),
            forall|a: u128, b: u128|
                r.module_at(a) && r.module_at(b) && #[trigger] r.names_to(a) == #[trigger] r.names_to(
                    b,
                ) ==> a == b,
            forall|q: u128|
                r.module_at(q) && #[trigger] r.names_to(q).len() > 0 ==> exists|p: u128|
                    r.module_at(p) && #[trigger] r.modules_at(p).contains(q),
    {
        proof {
            use_type_invariant(&self);
        }
        let r = ContainerCollection { tree: self.tree };
        proof {
            r.lemma_named_apart();
            assert forall|id: u128| r.module_at(id) implies #[trigger] r.containers_at(id)
                == registered_under(r.registered(), r.names_to(id)) by {
                let n = r.tree.nodes();
                lemma_index_from_bounds(n, id, 0);
                let k = index_of(n, id)->0;
                assert(n[k].0 == k);
                assert(k == id as int);
                r.tree.lemma_containers_registered_under(k);
                assert(r.registered() == r.tree.registered());
            }
            assert forall|id: u128, m: u128|
                r.module_at(id) && #[trigger] r.modules_at(id).contains(m) implies r.module_at(m)
                && r.names_to(m) == r.names_to(id).push(r.name_at(m)) by {
                r.lemma_grown_modules_below(id, m);
            }
            assert forall|i: int, k: int|
                0 <= i < r.registered().len() && 0 <= k <= r.registered()[i].1.len()
                implies r.names_a_module(#[trigger] r.registered()[i].1.take(k)) by {
                let n = r.tree.nodes();
                let e = r.tree.entries@;
                assert(r.registered() == r.tree.registered());
                lemma_registered_node(n, e, n.len() as int, i);
                let j = choose|j: int|
                    0 <= j < n.len() && j < n.len() && #[trigger] entry_at(n, e, j) == NodeType::Container(
                        r.registered()[i].0,
                    ) && r.registered()[i].1 == path_above(n, e, j);
                assert(n[j].0 == j);
                assert(j != 0);
                let p = n[j].1->0;
                assert(n[j].1 matches Some(x) && x < j && e[x as int] is Module);
                r.tree.lemma_path_above_parent(j, p as int);
                r.tree.lemma_prefix_module(p as int, k);
                let q = choose|q: int|
                    0 <= q < n.len() && e[q] is Module && #[trigger] path_to(n, e, q) == path_to(
                        n,
                        e,
                        p as int,
                    ).take(k);
                assert(n[q].0 == q);
                lemma_index_of_position(n, q);
                assert(r.module_at(q as u128));
                assert(r.names_to(q as u128) == r.registered()[i].1.take(k));
            }
            let n = r.tree.nodes();
            let e = r.tree.entries@;
            assert(n[0].0 == 0);
            lemma_index_of_position(n, 0);
            assert(r.module_at(0));
            assert forall|id: u128|
                r.module_at(id) && r.names_to(id).len() > 0 implies leads_to(
                #[trigger] r.names_to(id),
                r.registered(),
            ) by {
                lemma_index_from_bounds(n, id, 0);
                let k = index_of(n, id)->0;
                assert(n[k].0 == k);
                assert(k == id as int);
                assert(k != 0);
                assert(r.registered() == r.tree.registered());
            }
            assert forall|a: u128, b: u128|
                r.module_at(a) && r.module_at(b) && #[trigger] r.names_to(a) == #[trigger] r.names_to(
                    b,
                ) implies a == b by {
                lemma_index_from_bounds(n, a, 0);
                lemma_index_from_bounds(n, b, 0);
                let ka = index_of(n, a)->0;
                let kb = index_of(n, b)->0;
                assert(n[ka].0 == ka);
                assert(n[kb].0 == kb);
                r.tree.lemma_path_injective(ka, kb);
            }
            assert forall|q: u128|
                r.module_at(q) && #[trigger] r.names_to(q).len() > 0 implies exists|p: u128|
                    r.module_at(p) && #[trigger] r.modules_at(p).contains(q) by {
                r.lemma_grown_parent(q);
            }
        }
        r
    }
}

/// Each registered container stands at some node of the tree.
proof fn lemma_registered_node(n: Seq<TreeNode>, e: Seq<NodeType>, k: int, i: int)
    requires
        0 <= i < registered_upto(n, e, k).len(),
    ensures
        exists|j: int|
            0 <= j < k && j < n.len() && #[trigger] entry_at(n, e, j) == NodeType::Container(
                registered_upto(n, e, k)[i].0,
            ) && registered_upto(n, e, k)[i].1 == path_above(n, e, j),
    decreases k,
{
    if 0 < k <= n.len() {
        let front = registered_upto(n, e, k - 1);
        if i < front.len() {
            lemma_registered_node(n, e, k - 1, i);
            let j = choose|j: int|
                0 <= j < k - 1 && j < n.len() && #[trigger] entry_at(n, e, j) == NodeType::Container(
                    front[i].0,
                ) && front[i].1 == path_above(n, e, j);
            assert(registered_upto(n, e, k)[i] == front[i]);
            assert(entry_at(n, e, j) == NodeType::Container(registered_upto(n, e, k)[i].0));
        } else {
            assert(entry_at(n, e, k - 1) is Container);
            assert(entry_at(n, e, k - 1) == NodeType::Container(registered_upto(n, e, k)[i].0));
            assert(registered_upto(n, e, k)[i].1 == path_above(n, e, k - 1));
        }
    }
}

/// A container among the children stands among their containers.
proof fn lemma_child_containers_contains(kids: Seq<u128>, e: Seq<NodeType>, x: u128, c: Container)
    requires
        kids.contains(x),
        e[x as int] == NodeType::Container(c),
    ensures
        child_containers(kids, e).contains(c),
    decreases kids.len(),
{
    let front = child_containers(kids.drop_last(), e);
    if kids.last() == x {
        assert(child_containers(kids, e) == front + seq![c]);
        assert(child_containers(kids, e)[front.len() as int] == c);
    } else {
        let w = choose|w: int| 0 <= w < kids.len() && kids[w] == x;
        assert(kids.drop_last()[w] == x);
        lemma_child_containers_contains(kids.drop_last(), e, x, c);
        let v = choose|v: int| 0 <= v < front.len() && front[v] == c;
        assert(child_containers(kids, e)[v] == c);
    }
}

/// A container among the containers of the children is that of one of
/// the children.
proof fn lemma_child_containers_from(kids: Seq<u128>, e: Seq<NodeType>, c: Container)
    requires
        child_containers(kids, e).contains(c),
    ensures
        exists|w: int| 0 <= w < kids.len() && e[#[trigger] kids[w] as int] == NodeType::Container(c),
    decreases kids.len(),
{
    let front = child_containers(kids.drop_last(), e);
    let v = choose|v: int| 0 <= v < child_containers(kids, e).len() && child_containers(kids, e)[v] == c;
    if v < front.len() {
        assert(front[v] == c);
        lemma_child_containers_from(kids.drop_last(), e, c);
        let w = choose|w: int|
            0 <= w < kids.drop_last().len() && e[#[trigger] kids.drop_last()[w] as int]
                == NodeType::Container(c);
        assert(kids[w] == kids.drop_last()[w]);
    } else {
        assert(e[kids.last() as int] is Container);
        assert(e[kids[kids.len() - 1] as int] == NodeType::Container(c));
    }
}

/// The container at a node before `k` is among the containers registered
/// up to `k`.
proof fn lemma_node_registered(n: Seq<TreeNode>, e: Seq<NodeType>, k: int, j: int, c: Container)
    requires
        0 <= j < k <= n.len(),
        entry_at(n, e, j) == NodeType::Container(c),
    ensures
        exists|i: int|
            0 <= i < registered_upto(n, e, k).len() && #[trigger] registered_upto(n, e, k)[i].0 == c,
    decreases k,
{
    let front = registered_upto(n, e, k - 1);
    if j < k - 1 {
        lemma_node_registered(n, e, k - 1, j, c);
        let i = choose|i: int| 0 <= i < front.len() && #[trigger] front[i].0 == c;
        assert(registered_upto(n, e, k)[i] == front[i]);
    } else {
        assert(registered_upto(n, e, k)[front.len() as int].0 == c);
    }
}

impl ModuleTree {
    /// Each container of a module is registered.
    proof fn lemma_module_container_registered(&self, id: u128, c: Container)
        requires
            self.sound(),
            self.module_at(id),
            child_containers(self.kids(id), self.entries@).contains(c),
        ensures
            exists|i: int| 0 <= i < self.registered().len() && #[trigger] self.registered()[i].0 == c,
    {
        let n = self.nodes();
        let e = self.entries@;
        let k = index_of(n, id)->0;
        lemma_index_from_bounds(n, id, 0);
        lemma_child_containers_from(self.kids(id), e, c);
        let w = choose|w: int|
            0 <= w < self.kids(id).len() && e[#[trigger] self.kids(id)[w] as int] == NodeType::Container(c);
        let x = self.kids(id)[w];
        if self.grown() {
            assert(n[k].2[w] == x);
            assert(k < x < n.len());
            assert(n[x as int].0 == x);
            lemma_node_registered(n, e, n.len() as int, x as int, c);
        } else {
            assert(self.flat());
            if k > 0 {
                assert(n[k].2.len() == 0);
            }
            assert(k == 0);
            let kx = index_of(n, n[0].2[w])->0;
            assert(index_of(n, n[0].2[w]) matches Some(q) && 0 < q);
            lemma_index_from_bounds(n, x, 0);
            assert(n[kx].0 == x);
            assert(entry_at(n, e, kx) == NodeType::Container(c));
            lemma_node_registered(n, e, n.len() as int, kx, c);
        }
        let r = registered_upto(n, e, n.len() as int);
        assert(r == self.registered());
        let i = choose|i: int| 0 <= i < r.len() && #[trigger] r[i].0 == c;
        assert(self.registered()[i].0 == c);
    }

    /// Each registered container stands among the containers of a module.
    proof fn lemma_registered_in_module(&self, i: int)
        requires
            self.sound(),
            0 <= i < self.registered().len(),
        ensures
            exists|id: u128|
                self.module_at(id) && #[trigger] child_containers(self.kids(id), self.entries@).contains(
                    self.registered()[i].0,
                ) && self.names_to(id) == self.registered()[i].1,
    {
        let n = self.nodes();
        let e = self.entries@;
        let c = self.registered()[i].0;
        lemma_registered_node(n, e, n.len() as int, i);
        let j = choose|j: int|
            0 <= j < n.len() && j < n.len() && #[trigger] entry_at(n, e, j) == NodeType::Container(c)
                && self.registered()[i].1 == path_above(n, e, j);
        if self.grown() {
            assert(n[j].0 == j);
            assert(j != 0);
            let p = n[j].1->0;
            assert(n[j].1 matches Some(q) && q < j && e[q as int] is Module);
            lemma_index_of_position(n, p as int);
            assert(n[p as int].2.contains(j as u128));
            assert(self.kids(p) == n[p as int].2);
            lemma_child_containers_contains(n[p as int].2, e, j as u128, c);
            assert(self.module_at(p));
            assert(child_containers(self.kids(p), e).contains(c));
            self.lemma_path_above_parent(j, p as int);
            assert(self.names_to(p) == self.registered()[i].1);
        } else {
            assert(self.flat());
            let x = n[j].0;
            assert(n[0].2.contains(x));
            assert(index_of(n, 0) == Some(0int));
            assert(self.kids(0) == n[0].2);
            lemma_child_containers_contains(n[0].2, e, x, c);
            assert(self.module_at(0));
            assert(child_containers(self.kids(0), e).contains(c));
            assert(path_above(n, e, j) == Seq::<Seq<char>>::empty()) by {
                if 0 < j {
                    if let Some(p) = n[j].1 {
                        assert(p == 0);
                    }
                }
            }
            assert(self.names_to(0) == self.registered()[i].1);
        }
    }
}

impl ContainerCollection {
    /// The shape that the module tree of a collection keeps.
    #[verifier::type_invariant]
    pub closed spec fn inv(self) -> bool {
        self.tree.sound() && self.tree.names_apart()
    }

    /// The containers, in the order of registration, each with the names of
    /// the modules that it is sorted under.
    pub closed spec fn registered(&self) -> Seq<(Container, Seq<Seq<char>>)> {
        registered_upto(self.tree.nodes(), self.tree.entries@, self.tree.nodes().len() as int)
    }

    /// The containers directly below the root, in the order of its
    /// children.
    pub closed spec fn top_containers(&self) -> Seq<Container> {
        child_containers(self.tree.nodes()[0].2, self.tree.entries@)
    }

    /// The ids of the modules directly below the root, ordered by height
    /// from the highest down, modules of equal height in the order of the
    /// children of the root.
    pub closed spec fn top_modules(&self) -> Seq<u128> {
        sorted_by_height(
            self.tree.nodes(),
            child_modules(self.tree.nodes()[0].2, self.tree.entries@),
        )
    }

    /// Whether `id` is the id of a module of the collection.
    pub closed spec fn module_at(&self, id: u128) -> bool {
        self.tree.module_at(id)
    }

    /// The containers directly in the module `id`, in the order of its
    /// children.
    pub closed spec fn containers_at(&self, id: u128) -> Seq<Container> {
        child_containers(self.tree.kids(id), self.tree.entries@)
    }

    /// The ids of the modules directly below the module `id`, ordered by
    /// height from the highest down, modules of equal height in the order
    /// of the children.
    pub closed spec fn modules_at(&self, id: u128) -> Seq<u128> {
        sorted_by_height(self.tree.nodes(), child_modules(self.tree.kids(id), self.tree.entries@))
    }

    /// The name of the module `id`.
    pub closed spec fn name_at(&self, id: u128) -> Seq<char> {
        module_name(self.tree.entries@[id as int])
    }

    /// The names of the modules above the module `id`, from the nearest up
    /// to the top, without the root, joined by `/`.
    pub closed spec fn path_at(&self, id: u128) -> Seq<char> {
        crate::text::join_seq(
            path_above(self.tree.nodes(), self.tree.entries@, index_of(self.tree.nodes(), id)->0).reverse(),
            "/"@,
        )
    }

    /// A measure of the module `id` that the modules below it have lower.
    pub closed spec fn depth_at(&self, id: u128) -> int {
        self.tree.depth(id)
    }

    /// The names of the modules from the top down to the module `id`,
    /// itself included, without the root.
    pub closed spec fn names_to(&self, id: u128) -> Seq<Seq<char>> {
        self.tree.names_to(id)
    }

    /// Whether the container `c` stands among the containers of a module
    /// of the collection whose names from the top down are `path`.
    pub open spec fn holds_container(&self, c: Container, path: Seq<Seq<char>>) -> bool {
        exists|id: u128|
            self.module_at(id) && #[trigger] self.containers_at(id).contains(c) && self.names_to(id)
                == path
    }

    /// All containers, in the order of registration.
    ///
    /// Each of them stands among the containers of a module of the
    /// collection.
    pub fn all_containers(&self) -> (r: Vec<&Container>)
        ensures
            r@.len() == self.registered().len(),
            forall|i: int| 0 <= i < r@.len() ==> *r@[i] == self.registered()[i].0,
            forall|i: int|
                0 <= i < r@.len() ==> self.holds_container(#[trigger] *r@[i], self.registered()[i].1),
            forall|id: u128, c: Container|
                self.module_at(id) && #[trigger] self.containers_at(id).contains(c) ==> exists|i: int|
                    0 <= i < r@.len() && *r@[i] == c,
    {
        proof {
            use_type_invariant(self);
            self.tree.lemma_sound();
        }
        let ids = node_ids(&self.tree.tree);
        let ghost n = self.tree.nodes();
        let ghost e = self.tree.entries@;
        let mut r: Vec<&Container> = Vec::new();
        let mut i: usize = 0;
        while i < ids.len()
            invariant
                self.tree.sound(),
                n == self.tree.nodes(),
                e == self.tree.entries@,
                ids@.len() == n.len(),
                forall|x: int| 0 <= x < ids@.len() ==> ids@[x] == #[trigger] n[x].0,
                forall|x: int| 0 <= x < n.len() ==> #[trigger] n[x].0 < e.len(),
                i <= ids@.len(),
                r@.len() == registered_upto(n, e, i as int).len(),
                forall|x: int|
                    0 <= x < r@.len() ==> *r@[x] == registered_upto(n, e, i as int)[x].0,
            decreases ids@.len() - i,
        {
            let id = ids[i];
            assert(id == n[i as int].0);
            match self.tree.entry(id) {
                NodeType::Container(c) => {
                    r.push(c);
                },
                NodeType::Module(_) => {},
            }
            i = i + 1;
        }
        proof {
            assert(registered_upto(n, e, i as int) == self.registered());
            assert forall|k: int| 0 <= k < r@.len() implies self.holds_container(
                #[trigger] *r@[k],
                self.registered()[k].1,
            ) by {
                assert(*r@[k] == self.registered()[k].0);
                self.tree.lemma_registered_in_module(k);
                let id = choose|id: u128|
                    self.tree.module_at(id) && #[trigger] child_containers(
                        self.tree.kids(id),
                        self.tree.entries@,
                    ).contains(self.registered()[k].0) && self.tree.names_to(id)
                        == self.registered()[k].1;
                assert(self.module_at(id) && self.containers_at(id).contains(*r@[k])
                    && self.names_to(id) == self.registered()[k].1);
            }
            assert forall|id: u128, c: Container|
                self.module_at(id) && #[trigger] self.containers_at(id).contains(c) implies exists|i: int|
                    0 <= i < r@.len() && *r@[i] == c by {
                self.tree.lemma_module_container_registered(id, c);
                let i = choose|i: int|
                    0 <= i < self.registered().len() && #[trigger] self.registered()[i].0 == c;
                assert(*r@[i] == c);
            }
        }
        r
    }

    /// The containers directly below the root and the modules directly
    /// below it.
    pub fn containers_per_module(&self) -> (r: (Vec<&Container>, Vec<Module<'_>>))
        ensures
            r.0@.len() == self.top_containers().len(),
            forall|i: int| 0 <= i < r.0@.len() ==> *r.0@[i] == self.top_containers()[i],
            r.1@.len() == self.top_modules().len(),
            forall|i: int| 0 <= i < r.1@.len() ==> r.1@[i].id() == self.top_modules()[i],
            self.module_at(0),
            self.containers_at(0) == self.top_containers(),
            self.modules_at(0) == self.top_modules(),
            forall|i: int|
                0 <= i < r.1@.len() ==> (#[trigger] r.1@[i]).of(*self) && self.module_at(
                    r.1@[i].id(),
                ) && 0 <= self.depth_at(r.1@[i].id()) < self.depth_at(0),
    {
        proof {
            use_type_invariant(self);
            self.tree.lemma_sound();
            lemma_index_unique(self.tree.nodes(), 0);
        }
        let r = container_and_modules_per_mod(&self.tree, 0);
        proof {
            assert forall|i: int| 0 <= i < r.1@.len() implies 0 <= self.depth_at(
                #[trigger] r.1@[i].id(),
            ) by {
                lemma_index_from_bounds(self.tree.nodes(), r.1@[i].id(), 0);
            }
        }
        r
    }
}

/// A module of the collection.
pub struct Module<'a> {
    tree: &'a ModuleTree,
    node_id: u128,
    name: String,
    cached_path: Option<String>,
}

impl<'a> Module<'a> {
    #[verifier::type_invariant]
    closed spec fn inv(self) -> bool {
        &&& self.tree.sound()
        &&& index_of(self.tree.nodes(), self.node_id) is Some
        &&& self.node_id < self.tree.entries@.len()
        &&& self.tree.entries@[self.node_id as int] is Module
        &&& self.name@ == module_name(self.tree.entries@[self.node_id as int])
        &&& self.cached_path is None
    }

    /// The id of the module's node.
    pub closed spec fn id(&self) -> u128 {
        self.node_id
    }

    /// Whether the module is one of the collection `c`.
    pub closed spec fn of(&self, c: ContainerCollection) -> bool {
        *self.tree == c.tree
    }
}

fn container_and_modules_per_mod<'a>(tree: &'a ModuleTree, id: u128) -> (r: (
    Vec<&'a Container>,
    Vec<Module<'a>>,
))
    requires
        tree.sound(),
        index_of(tree.nodes(), id) is Some,
    ensures
        ({
            let kids = tree.nodes()[index_of(tree.nodes(), id)->0].2;
            let e = tree.entries@;
            &&& r.0@.len() == child_containers(kids, e).len()
            &&& forall|i: int| 0 <= i < r.0@.len() ==> *r.0@[i] == child_containers(kids, e)[i]
            &&& r.1@.len() == sorted_by_height(tree.nodes(), child_modules(kids, e)).len()
            &&& forall|i: int|
                0 <= i < r.1@.len() ==> r.1@[i].id() == sorted_by_height(
                    tree.nodes(),
                    child_modules(kids, e),
                )[i]
            &&& forall|i: int|
                0 <= i < r.1@.len() ==> *(#[trigger] r.1@[i]).tree == *tree && tree.module_at(
                    r.1@[i].id(),
                ) && tree.depth(r.1@[i].id()) < tree.depth(id)
        }),
{
    let (containers, ids) = tree.children_split(id);
    let mut mods: Vec<Module<'a>> = Vec::new();
    let mut i: usize = 0;
    while i < ids.len()
        invariant
            tree.sound(),
            i <= ids@.len(),
            mods@.len() == i,
            forall|x: int| 0 <= x < i ==> (#[trigger] mods@[x]).id() == ids@[x],
            forall|x: int| 0 <= x < i ==> *(#[trigger] mods@[x]).tree == *tree,
            forall|x: int|
                0 <= x < ids@.len() ==> index_of(tree.nodes(), #[trigger] ids@[x]) is Some
                    && ids@[x] < tree.entries@.len() && tree.entries@[ids@[x] as int] is Module
                    && index_of(tree.nodes(), ids@[x])->0 > index_of(tree.nodes(), id)->0,
        decreases ids@.len() - i,
    {
        let m = ids[i];
        assert(ids@[i as int] == m);
        let name = match tree.entry(m) {
            NodeType::Module(s) => s.clone(),
            NodeType::Container(_) => String::new(),
        };
        mods.push(Module { tree, node_id: m, name, cached_path: None });
        i = i + 1;
    }
    (containers, mods)
}

impl<'a> Module<'a> {
    /// The position of the module's node.
    closed spec fn position(&self) -> int {
        index_of(self.tree.nodes(), self.node_id)->0
    }

    /// The names of the modules above this one, from the nearest up to the
    /// top, without the root.
    pub closed spec fn ancestors(&self) -> Seq<Seq<char>> {
        path_above(self.tree.nodes(), self.tree.entries@, self.position()).reverse()
    }

    /// The containers directly in this module, in the order of its
    /// children.
    pub closed spec fn inner_containers(&self) -> Seq<Container> {
        child_containers(self.tree.nodes()[self.position()].2, self.tree.entries@)
    }

    /// The ids of the modules directly below this one, ordered by height from
    /// the highest down, modules of equal height in the order of the
    /// children.
    pub closed spec fn inner_modules(&self) -> Seq<u128> {
        sorted_by_height(
            self.tree.nodes(),
            child_modules(self.tree.nodes()[self.position()].2, self.tree.entries@),
        )
    }

    /// The module's name.
    pub closed spec fn spec_name(&self) -> Seq<char> {
        self.name@
    }

    /// The names of the modules above this one, from the nearest up to the
    /// top, joined by `/`.
    pub fn path(&self) -> (r: String)
        ensures
            r@ == crate::text::join_seq(self.ancestors(), "/"@),
            forall|c: ContainerCollection| self.of(c) ==> r@ == c.path_at(self.id()),
    {
        proof {
            use_type_invariant(self);
            self.tree.lemma_sound();
            lemma_index_from_bounds(self.tree.nodes(), self.node_id, 0);
        }
        match &self.cached_path {
            Some(p) => {
                return p.clone();
            },
            None => {},
        }
        let ghost n = self.tree.nodes();
        let ghost e = self.tree.entries@;
        let ghost pos = self.position();
        let mut names: Vec<String> = Vec::new();
        let mut cur: u128 = self.node_id;
        let ghost mut cur_pos: int = pos;
        loop
            invariant
                self.tree.sound(),
                n == self.tree.nodes(),
                e == self.tree.entries@,
                0 <= cur_pos < n.len(),
                n[cur_pos].0 == cur,
                index_of(n, cur) == Some(cur_pos),
                forall|a: int, b: int| 0 <= a < b < n.len() ==> #[trigger] n[a].0 != #[trigger] n[b].0,
                forall|j: int| 0 <= j < n.len() ==> #[trigger] n[j].0 < e.len(),
                forall|j: int|
                    0 < j < n.len() ==> match #[trigger] n[j].1 {
                        Some(p) => p != 0 ==> (index_of(n, p) matches Some(k) && 0 < k < j),
                        None => true,
                    },
                n[0].0 == 0,
                views(names@) + path_above(n, e, cur_pos).reverse() == path_above(n, e, pos).reverse(),
            ensures
                views(names@) + path_above(n, e, cur_pos).reverse() == path_above(n, e, pos).reverse(),
                path_above(n, e, cur_pos) == Seq::<Seq<char>>::empty(),
            decreases cur_pos,
        {
            let parent = node_parent(&self.tree.tree, cur);
            match parent {
                Some(Some(p)) => {
                    if p == 0 {
                        proof {
                            lemma_index_unique(n, 0);
                            assert(path_above(n, e, cur_pos) =~= Seq::<Seq<char>>::empty());
                        }
                        break ;
                    }
                    let ghost k = index_of(n, p)->0;
                    proof {
                        lemma_index_from_bounds(n, p, 0);
                    }
                    let name = match self.tree.entry(p) {
                        NodeType::Module(s) => s.clone(),
                        NodeType::Container(_) => String::new(),
                    };
                    proof {
                        assert(path_above(n, e, cur_pos) == path_above(n, e, k).push(
                            module_name(entry_at(n, e, k)),
                        ));
                        assert(entry_at(n, e, k) == e[p as int]);
                    }
                    let ghost old_names = names@;
                    names.push(name);
                    proof {
                        let a = path_above(n, e, k);
                        let nm = module_name(entry_at(n, e, k));
                        assert(a.push(nm).reverse() =~= seq![nm] + a.reverse());
                        assert(views(names@) =~= views(old_names).push(name@));
                        assert(name@ == nm);
                        assert(views(names@) + a.reverse() =~= views(old_names) + a.push(
                            nm,
                        ).reverse());
                    }
                    cur = p;
                    proof {
                        cur_pos = k;
                    }
                },
                _ => {
                    proof {
                        assert(path_above(n, e, cur_pos) =~= Seq::<Seq<char>>::empty());
                    }
                    break ;
                },
            }
        }
        proof {
            assert(path_above(n, e, cur_pos).reverse() =~= Seq::<Seq<char>>::empty());
            assert(views(names@) =~= path_above(n, e, pos).reverse());
        }
        join_strings(&names, "/")
    }

    /// The module's name.
    pub fn name(&self) -> (r: &str)
        ensures
            r@ == self.spec_name(),
            forall|c: ContainerCollection| self.of(c) ==> r@ == c.name_at(self.id()),
    {
        proof {
            use_type_invariant(self);
        }
        self.name.as_str()
    }

    /// The containers directly in this module and the modules directly
    /// below it.
    pub fn entries(&self) -> (r: (Vec<&'a Container>, Vec<Module<'a>>))
        ensures
            r.0@.len() == self.inner_containers().len(),
            forall|i: int| 0 <= i < r.0@.len() ==> *r.0@[i] == self.inner_containers()[i],
            r.1@.len() == self.inner_modules().len(),
            forall|i: int| 0 <= i < r.1@.len() ==> r.1@[i].id() == self.inner_modules()[i],
            forall|c: ContainerCollection|
                self.of(c) ==> c.module_at(self.id()) && c.containers_at(self.id())
                    == self.inner_containers() && c.modules_at(self.id()) == self.inner_modules()
                    && forall|i: int|
                    0 <= i < r.1@.len() ==> (#[trigger] r.1@[i]).of(c) && c.module_at(r.1@[i].id())
                        && 0 <= c.depth_at(r.1@[i].id()) < c.depth_at(self.id()),
    {
        proof {
            use_type_invariant(self);
        }
        let r = container_and_modules_per_mod(self.tree, self.node_id);
        proof {
            assert forall|i: int| 0 <= i < r.1@.len() implies 0 <= self.tree.depth(
                #[trigger] r.1@[i].id(),
            ) by {
                lemma_index_from_bounds(self.tree.nodes(), r.1@[i].id(), 0);
            }
        }
        r
    }
}


/// Whether the id and the value of every node are its position.
spec fn positions_ok(n: Seq<TreeNode>) -> bool {
    forall|j: int| 0 <= j < n.len() ==> #[trigger] n[j].0 == j && n[j].3 == Some(j as usize)
}

/// The links of a tree whose node ids are positions, while its modules are
/// taken apart: children come after their parent and point back to it, a
/// node with a parent is among its children and the parent is a module,
/// no node holds a child twice, and every container but the root has a
/// parent.
spec fn links_ok(n: Seq<TreeNode>, e: Seq<NodeType>) -> bool {
    &&& n.len() >= 1
    &&& n.len() <= usize::MAX
    &&& n.len() == e.len()
    &&& n[0].1 is None
    &&& e[0] is Module
    &&& forall|j: int, c: int|
        0 <= j < n.len() && 0 <= c < n[j].2.len() ==> j < #[trigger] n[j].2[c] < n.len()
            && n[n[j].2[c] as int].1 == Some(j as u128)
    &&& forall|j: int|
        0 < j < n.len() ==> (#[trigger] n[j].1 matches Some(p) ==> p < j && n[p as int].2.contains(
            j as u128,
        ) && e[p as int] is Module)
    &&& forall|j: int| 0 <= j < n.len() ==> (#[trigger] n[j].2).no_duplicates()
    &&& forall|j: int| 0 < j < n.len() && e[j] is Container ==> (#[trigger] n[j].1) is Some
}

/// Whether the node at `j` still has children.
spec fn pending(n: Seq<TreeNode>, j: int) -> bool {
    n[j].2.len() > 0
}

/// Whether every node below the root that still has children is to be
/// visited, or has a parent other than the root that still has children.
spec fn covered(n: Seq<TreeNode>, todo: Seq<u128>) -> bool {
    forall|j: int|
        0 < j < n.len() && #[trigger] pending(n, j) ==> todo.contains(j as u128) || (
        n[j].1 matches Some(p) && p != 0 && pending(n, p as int))
}

/// Whether the modules among the children of the root are among `mods`.
spec fn root_modules_within(n: Seq<TreeNode>, e: Seq<NodeType>, mods: Seq<u128>) -> bool {
    forall|c: int| 0 <= c < n[0].2.len() && e[n[0].2[c] as int] is Module ==> mods.contains(#[trigger] n[0].2[c])
}

/// Where every node that still has children has a parent other than the
/// root that still has children, no node below the root has children.
proof fn lemma_none_pending(n: Seq<TreeNode>, j: int)
    requires
        0 < j < n.len(),
        forall|k: int|
            0 < k < n.len() && #[trigger] pending(n, k) ==> (n[k].1 matches Some(p) && 0 < p < k
                && pending(n, p as int)),
    ensures
        !pending(n, j),
    decreases j,
{
    if pending(n, j) {
        let p = n[j].1->0;
        lemma_none_pending(n, p as int);
    }
}

/// Without its first element, which it holds once, a sequence is itself
/// without that element.
proof fn lemma_filter_first(s: Seq<u128>, x: u128)
    requires
        s.no_duplicates(),
        s.len() > 0,
        s[0] == x,
    ensures
        s.filter(|y: u128| y != x) == s.drop_first(),
    decreases s.len(),
{
    reveal(Seq::filter);
    if s.len() == 1 {
        assert(s.drop_last().len() == 0);
        assert(s.drop_last().filter(|y: u128| y != x) =~= Seq::<u128>::empty());
        assert(s.drop_first() =~= Seq::<u128>::empty());
    } else {
        let d = s.drop_last();
        assert(d.no_duplicates());
        lemma_filter_first(d, x);
        assert(s.last() != x);
        assert(s.filter(|y: u128| y != x) == d.filter(|y: u128| y != x).push(s.last()));
        assert(d.drop_first().push(s.last()) =~= s.drop_first());
    }
}

impl ModuleTree {
    /// Takes the first child `c` out of the module `m`: a container goes to
    /// the end of the children of the root, a module to the end of `next`.
    fn move_child(
        &mut self,
        m: u128,
        c: u128,
        next: &mut Vec<u128>,
        Ghost(todo): Ghost<Seq<u128>>,
        Ghost(mods): Ghost<Seq<u128>>,
    )
        requires
            positions_ok(old(self).nodes()),
            links_ok(old(self).nodes(), old(self).entries@),
            0 < m < old(self).nodes().len(),
            pending(old(self).nodes(), m as int),
            old(self).nodes()[m as int].2[0] == c,
            covered(old(self).nodes(), todo + old(next)@),
            todo.contains(m),
            root_modules_within(old(self).nodes(), old(self).entries@, mods),
        ensures
            positions_ok(final(self).nodes()),
            links_ok(final(self).nodes(), final(self).entries@),
            final(self).entries@ == old(self).entries@,
            final(self).nodes().len() == old(self).nodes().len(),
            final(self).nodes()[m as int].2 == old(self).nodes()[m as int].2.drop_first(),
            old(self).entries@[c as int] is Container ==> final(next)@ == old(next)@,
            old(self).entries@[c as int] is Module ==> final(next)@ == old(next)@.push(c),
            covered(final(self).nodes(), todo + final(next)@),
            root_modules_within(final(self).nodes(), final(self).entries@, mods),
            m < c,
            old(self).nodes()[c as int].1 == Some(m),
            forall|j: int|
                0 <= j < old(self).nodes().len() && j != c ==> #[trigger] final(self).nodes()[j].1
                    == old(self).nodes()[j].1,
            old(self).nodes()[0].2.is_prefix_of(final(self).nodes()[0].2),
    {
        let ghost n = self.nodes();
        let ghost e = self.entries@;
        let el = self.entries.len();
        assert(el == n.len());
        proof {
            lemma_index_of_position(n, m as int);
            lemma_index_of_position(n, c as int);
            assert(m < c < n.len());
            assert(n[c as int].1 == Some(m));
        }
        let ok = detach_child(&mut self.tree, m, c);
        let ghost n1 = self.nodes();
        proof {
            lemma_filter_first(n[m as int].2, c);
            assert(n1 == with_parent(with_children(n, m as int, n[m as int].2.drop_first()), c as int, None));
        }
        let ci = c as usize;
        assert(ci as int == c as int);
        let is_container = match &self.entries[ci] {
            NodeType::Container(_) => true,
            NodeType::Module(_) => false,
        };
        if is_container {
            proof {
                lemma_index_of_position(n1, 0);
                lemma_index_of_position(n1, c as int);
            }
            let ok2 = attach_child(&mut self.tree, 0, c);
            proof {
                let n2 = self.nodes();
                assert(n2 == with_parent(with_children(n1, 0, n1[0].2.push(c)), c as int, Some(0u128)));
                lemma_moved_container(n, n1, n2, e, m, c, todo, next@, mods);
                assert(n1[0].2 == n[0].2);
                assert(n2[0].2 == n[0].2.push(c));
                assert(n[0].2 =~= n2[0].2.subrange(0, n[0].2.len() as int));
            }
        } else {
            let ghost before = next@;
            next.push(c);
            proof {
                lemma_moved_module(n, n1, e, m, c, todo, before, next@, mods);
                assert(n1[0].2 == n[0].2);
                assert(n[0].2 =~= n1[0].2.subrange(0, n[0].2.len() as int));
            }
        }
    }
}

/// Moving a container child `c` of `m` to the root keeps the links and the
/// coverage.
#[verifier::spinoff_prover]
#[verifier::rlimit(40)]
proof fn lemma_moved_container(
    n: Seq<TreeNode>,
    n1: Seq<TreeNode>,
    n2: Seq<TreeNode>,
    e: Seq<NodeType>,
    m: u128,
    c: u128,
    todo: Seq<u128>,
    next: Seq<u128>,
    mods: Seq<u128>,
)
    requires
        positions_ok(n),
        links_ok(n, e),
        0 < m < c < n.len(),
        n[c as int].1 == Some(m),
        n[m as int].2.len() > 0,
        n[m as int].2[0] == c,
        e[c as int] is Container,
        n1 == with_parent(with_children(n, m as int, n[m as int].2.drop_first()), c as int, None),
        n2 == with_parent(with_children(n1, 0, n1[0].2.push(c)), c as int, Some(0u128)),
        covered(n, todo + next),
        todo.contains(m),
        root_modules_within(n, e, mods),
    ensures
        positions_ok(n2),
        links_ok(n2, e),
        n2.len() == n.len(),
        n2[m as int].2 == n[m as int].2.drop_first(),
        covered(n2, todo + next),
        root_modules_within(n2, e, mods),
        forall|j: int| 0 <= j < n.len() && j != c ==> #[trigger] n2[j].1 == n[j].1,
{
    let ghost todo_next = todo + next;
    assert(n2[m as int].2 =~= n[m as int].2.drop_first());
    {
                assert(!n[0].2.contains(c)) by {
                    if n[0].2.contains(c) {
                        let w = choose|w: int| 0 <= w < n[0].2.len() && n[0].2[w] == c;
                        assert(n[c as int].1 == Some(0u128));
                    }
                }
                assert(n1[0].2 == n[0].2);
                assert forall|j: int| 0 <= j < n2.len() implies #[trigger] n2[j].0 == j && n2[j].3 == Some(j as usize) by {
                    assert(n2[j].0 == n[j].0 && n2[j].3 == n[j].3);
                }
                assert forall|j: int, k: int| 0 <= j < n2.len() && 0 <= k < n2[j].2.len() implies j < #[trigger] n2[j].2[k] < n2.len()
                    && n2[n2[j].2[k] as int].1 == Some(j as u128) by {
                    if j == 0 {
                        if k < n[0].2.len() {
                            assert(n2[0].2[k] == n[0].2[k]);
                            assert(n[0].2[k] != c);
                        }
                    } else if j == m {
                        assert(n2[j].2[k] == n[j].2[k + 1]);
                        assert(n[j].2[k + 1] != c);
                    } else {
                        assert(n2[j].2[k] == n[j].2[k]);
                        if n[j].2[k] == c {
                            assert(n[c as int].1 == Some(j as u128));
                        }
                    }
                }
                assert forall|j: int| 0 < j < n2.len() implies (#[trigger] n2[j].1 matches Some(p) ==> p < j && n2[p as int].2.contains(
                    j as u128,
                ) && e[p as int] is Module) by {
                    if j == c {
                        assert(n2[0].2[n1[0].2.len() as int] == c);
                    } else if let Some(p) = n2[j].1 {
                        assert(n[j].1 == Some(p));
                        assert(n[m as int].2[0] == c);
                        let w = choose|w: int| 0 <= w < n[p as int].2.len() && n[p as int].2[w] == j as u128;
                        assert(n[p as int].2[w] == j as u128);
                        if p == 0 {
                            assert(n2[0].2[w] == j as u128);
                        } else if p == m {
                            assert(w != 0);
                            assert(n2[p as int].2[w - 1] == j as u128);
                        } else {
                            assert(n2[p as int].2[w] == j as u128);
                        }
                    }
                }
                assert forall|j: int| 0 <= j < n2.len() implies (#[trigger] n2[j].2).no_duplicates() by {
                    if j == 0 {
                        assert forall|a: int, b: int| 0 <= a < b < n2[0].2.len() implies n2[0].2[a] != n2[0].2[b] by {
                            if b == n[0].2.len() {
                                assert(n2[0].2[a] == n[0].2[a]);
                            }
                        }
                    } else if j == m {
                        assert forall|a: int, b: int| 0 <= a < b < n2[j].2.len() implies n2[j].2[a] != n2[j].2[b] by {
                            assert(n2[j].2[a] == n[j].2[a + 1]);
                            assert(n2[j].2[b] == n[j].2[b + 1]);
                        }
                    }
                }
                assert forall|j: int| 0 < j < n2.len() && e[j] is Container implies (#[trigger] n2[j].1) is Some by {
                    if j != c {
                        assert(n2[j].1 == n[j].1);
                    }
                }
                assert forall|j: int| 0 < j < n2.len() && #[trigger] pending(n2, j) implies (todo + next).contains(j as u128) || (
                    n2[j].1 matches Some(p) && p != 0 && pending(n2, p as int)) by {
                    assert(j != c) by {
                        assert(n[c as int].2.len() == 0) by {
                            if n[c as int].2.len() > 0 {
                                let d = n[c as int].2[0];
                                assert(c < d < n.len());
                                assert(n[d as int].1 == Some(c));
                                assert(e[c as int] is Module);
                            }
                        }
                    }
                    if j == m {
                        let w = choose|w: int| 0 <= w < todo.len() && todo[w] == m;
                        assert((todo + next)[w] == m);
                    } else {
                        assert(n2[j].2 == n[j].2);
                        assert(pending(n, j));
                        if !(todo + next).contains(j as u128) {
                            let p = n[j].1->0;
                            assert(n2[j].1 == n[j].1);
                            if p == m {
                                let w = choose|w: int| 0 <= w < n[p as int].2.len() && n[p as int].2[w] == j as u128;
                                assert(w != 0);
                                assert(n2[p as int].2[w - 1] == j as u128);
                            } else {
                                assert(n2[p as int].2 == n[p as int].2);
                            }
                        }
                    }
                }
                assert forall|k: int| 0 <= k < n2[0].2.len() && e[n2[0].2[k] as int] is Module implies mods.contains(#[trigger] n2[0].2[k]) by {
                    if k < n[0].2.len() {
                        assert(n2[0].2[k] == n[0].2[k]);
                    }
                }
            }
}

/// Moving a module child `c` of `m` to the next level keeps the links and
/// the coverage.
#[verifier::spinoff_prover]
#[verifier::rlimit(40)]
proof fn lemma_moved_module(
    n: Seq<TreeNode>,
    n1: Seq<TreeNode>,
    e: Seq<NodeType>,
    m: u128,
    c: u128,
    todo: Seq<u128>,
    before: Seq<u128>,
    next: Seq<u128>,
    mods: Seq<u128>,
)
    requires
        positions_ok(n),
        links_ok(n, e),
        0 < m < c < n.len(),
        n[c as int].1 == Some(m),
        n[m as int].2.len() > 0,
        n[m as int].2[0] == c,
        e[c as int] is Module,
        n1 == with_parent(with_children(n, m as int, n[m as int].2.drop_first()), c as int, None),
        next == before.push(c),
        covered(n, todo + before),
        todo.contains(m),
        root_modules_within(n, e, mods),
    ensures
        positions_ok(n1),
        links_ok(n1, e),
        n1.len() == n.len(),
        n1[m as int].2 == n[m as int].2.drop_first(),
        covered(n1, todo + next),
        root_modules_within(n1, e, mods),
        forall|j: int| 0 <= j < n.len() && j != c ==> #[trigger] n1[j].1 == n[j].1,
    {
        assert(n[c as int].1 == Some(m));
        assert(n1[m as int].2 =~= n[m as int].2.drop_first());
                assert(!n[0].2.contains(c)) by {
                    if n[0].2.contains(c) {
                        let w = choose|w: int| 0 <= w < n[0].2.len() && n[0].2[w] == c;
                        assert(n[c as int].1 == Some(0u128));
                    }
                }
                assert forall|j: int, k: int| 0 <= j < n1.len() && 0 <= k < n1[j].2.len() implies j < #[trigger] n1[j].2[k] < n1.len()
                    && n1[n1[j].2[k] as int].1 == Some(j as u128) by {
                    if j == m {
                        assert(n1[j].2[k] == n[j].2[k + 1]);
                        assert(n[j].2[k + 1] != c);
                    } else {
                        assert(n1[j].2[k] == n[j].2[k]);
                        if n[j].2[k] == c {
                            assert(n[c as int].1 == Some(j as u128));
                        }
                    }
                }
                assert forall|j: int| 0 < j < n1.len() implies (#[trigger] n1[j].1 matches Some(p) ==> p < j && n1[p as int].2.contains(
                    j as u128,
                ) && e[p as int] is Module) by {
                    if j != c {
                        if let Some(p) = n1[j].1 {
                            assert(n[j].1 == Some(p));
                            let w = choose|w: int| 0 <= w < n[p as int].2.len() && n[p as int].2[w] == j as u128;
                            if p == m {
                                assert(w != 0);
                                assert(n1[p as int].2[w - 1] == j as u128);
                            } else {
                                assert(n1[p as int].2[w] == j as u128);
                            }
                        }
                    }
                }
                assert forall|j: int| 0 <= j < n1.len() implies (#[trigger] n1[j].2).no_duplicates() by {
                    if j == m {
                        assert forall|a: int, b: int| 0 <= a < b < n1[j].2.len() implies n1[j].2[a] != n1[j].2[b] by {
                            assert(n1[j].2[a] == n[j].2[a + 1]);
                            assert(n1[j].2[b] == n[j].2[b + 1]);
                        }
                    }
                }
                assert forall|j: int| 0 <= j < n1.len() implies #[trigger] n1[j].0 == j && n1[j].3 == Some(j as usize) by {
                    assert(n1[j].0 == n[j].0 && n1[j].3 == n[j].3);
                }
                assert forall|j: int| 0 < j < n1.len() && e[j] is Container implies (#[trigger] n1[j].1) is Some by {
                    assert(n1[j].1 == n[j].1);
                }
                assert forall|j: int| 0 < j < n1.len() && #[trigger] pending(n1, j) implies (todo + next).contains(j as u128) || (
                    n1[j].1 matches Some(p) && p != 0 && pending(n1, p as int)) by {
                    if j == c {
                        assert((todo + next)[(todo.len() + before.len()) as int] == c);
                    } else if j == m {
                        assert((todo + next).contains(m)) by {
                            let w = choose|w: int| 0 <= w < todo.len() && todo[w] == m;
                            assert((todo + next)[w] == m);
                        }
                    } else {
                        assert(n1[j].2 == n[j].2);
                        assert(pending(n, j));
                        if (todo + before).contains(j as u128) {
                            let w = choose|w: int| 0 <= w < (todo + before).len() && (todo + before)[w] == j as u128;
                            assert((todo + next)[w] == j as u128);
                        } else {
                            let p = n[j].1->0;
                            assert(n1[j].1 == n[j].1);
                            if p == m {
                                let w = choose|w: int| 0 <= w < n[p as int].2.len() && n[p as int].2[w] == j as u128;
                                assert(w != 0);
                                assert(n1[p as int].2[w - 1] == j as u128);
                            } else if p == c {
                                assert(n1[p as int].2 == n[p as int].2);
                            } else {
                                assert(n1[p as int].2 == n[p as int].2);
                            }
                        }
                    }
                }
                assert forall|k: int| 0 <= k < n1[0].2.len() && e[n1[0].2[k] as int] is Module implies mods.contains(#[trigger] n1[0].2[k]) by {
                    assert(n1[0].2[k] == n[0].2[k]);
                }
            }

/// Once the module `m`, first of the modules to visit, has no children left,
/// the rest of them still cover what has children.
proof fn lemma_module_done(n: Seq<TreeNode>, level: Seq<u128>, i: int, next: Seq<u128>, m: u128)
    requires
        n.len() <= usize::MAX,
        0 <= i < level.len(),
        level[i] == m,
        0 < m < n.len(),
        !pending(n, m as int),
        covered(n, level.skip(i) + next),
    ensures
        covered(n, level.skip(i + 1) + next),
{
    let todo = level.skip(i);
    assert((todo + next).drop_first() =~= level.skip(i + 1) + next);
    assert forall|j: int| 0 < j < n.len() && #[trigger] pending(n, j) implies (level.skip(i + 1)
        + next).contains(j as u128) || (n[j].1 matches Some(p) && p != 0 && pending(n, p as int)) by {
        if (todo + next).contains(j as u128) && !(n[j].1 matches Some(p) && p != 0 && pending(
            n,
            p as int,
        )) {
            let w = choose|w: int| 0 <= w < (todo + next).len() && (todo + next)[w] == j as u128;
            if w == 0 {
                assert(todo[0] == m);
                assert(j == m);
            } else {
                assert((level.skip(i + 1) + next)[w - 1] == j as u128);
            }
        }
    }
}

impl ModuleTree {
    /// Takes every module below the modules `mods` of the root apart, level
    /// by level: the modules of a level in order, the children of each in
    /// order; a container goes to the end of the children of the root, a
    /// module to the next level.
    fn detach_levels(&mut self, mods: &Vec<u128>)
        requires
            positions_ok(old(self).nodes()),
            links_ok(old(self).nodes(), old(self).entries@),
            forall|x: int|
                0 <= x < mods@.len() ==> 0 < #[trigger] mods@[x] < old(self).nodes().len()
                    && old(self).entries@[mods@[x] as int] is Module && old(self).nodes()[mods@[x] as int].1
                    == Some(0u128),
            covered(old(self).nodes(), mods@),
            root_modules_within(old(self).nodes(), old(self).entries@, mods@),
        ensures
            positions_ok(final(self).nodes()),
            links_ok(final(self).nodes(), final(self).entries@),
            final(self).entries@ == old(self).entries@,
            final(self).nodes().len() == old(self).nodes().len(),
            forall|j: int| 0 < j < final(self).nodes().len() ==> !#[trigger] pending(final(self).nodes(), j),
            root_modules_within(final(self).nodes(), final(self).entries@, mods@),
            forall|x: int| 0 <= x < mods@.len() ==> final(self).nodes()[#[trigger] mods@[x] as int].1 == Some(0u128),
            old(self).nodes()[0].2.is_prefix_of(final(self).nodes()[0].2),
    {
        let ghost e = self.entries@;
        let ghost len = self.nodes().len();
        let ghost r0 = self.nodes()[0].2;
        assert(r0 =~= r0.subrange(0, r0.len() as int));
        let mut level: Vec<u128> = mods.clone();
        let mut depth: u128 = 1;
        while level.len() > 0
            invariant
                positions_ok(self.nodes()),
                links_ok(self.nodes(), self.entries@),
                self.entries@ == e,
                self.nodes().len() == len,
                forall|x: int|
                    0 <= x < level@.len() ==> depth <= #[trigger] level@[x] < len && e[level@[x] as int] is Module,
                1 <= depth,
                covered(self.nodes(), level@),
                root_modules_within(self.nodes(), e, mods@),
                r0.is_prefix_of(self.nodes()[0].2),
                forall|x: int|
                    0 <= x < mods@.len() ==> 0 < #[trigger] mods@[x] < len && self.nodes()[mods@[x] as int].1
                        == Some(0u128),
            decreases len - depth,
        {
            assert(depth <= level@[0] < len);
            let mut next: Vec<u128> = Vec::new();
            let mut i: usize = 0;
            assert(level@.skip(0) + next@ =~= level@);
            while i < level.len()
                invariant
                    positions_ok(self.nodes()),
                    links_ok(self.nodes(), self.entries@),
                    self.entries@ == e,
                    self.nodes().len() == len,
                    forall|x: int|
                        0 <= x < level@.len() ==> depth <= #[trigger] level@[x] < len && e[level@[x] as int] is Module,
                    forall|x: int|
                        0 <= x < next@.len() ==> depth + 1 <= #[trigger] next@[x] < len && e[next@[x] as int] is Module,
                    1 <= depth < len,
                    i <= level@.len(),
                    covered(self.nodes(), level@.skip(i as int) + next@),
                    root_modules_within(self.nodes(), e, mods@),
                r0.is_prefix_of(self.nodes()[0].2),
                    forall|x: int|
                        0 <= x < mods@.len() ==> 0 < #[trigger] mods@[x] < len && self.nodes()[mods@[x] as int].1
                            == Some(0u128),
                decreases level@.len() - i,
            {
                let m = level[i];
                assert(level@.skip(i as int)[0] == m);
                proof {
                    lemma_index_of_position(self.nodes(), m as int);
                }
                let kids = match node_children(&self.tree, m) {
                    Some(v) => v,
                    None => Vec::new(),
                };
                let ghost todo = level@.skip(i as int);
                let mut k: usize = 0;
                assert(kids@.skip(0) =~= kids@);
                while k < kids.len()
                    invariant
                        positions_ok(self.nodes()),
                        links_ok(self.nodes(), self.entries@),
                        self.entries@ == e,
                        self.nodes().len() == len,
                        0 < depth <= m < len,
                        e[m as int] is Module,
                        todo == level@.skip(i as int),
                        todo.contains(m),
                        forall|x: int|
                            0 <= x < next@.len() ==> depth + 1 <= #[trigger] next@[x] < len && e[next@[x] as int] is Module,
                        k <= kids@.len(),
                        self.nodes()[m as int].2 == kids@.skip(k as int),
                        covered(self.nodes(), todo + next@),
                        root_modules_within(self.nodes(), e, mods@),
                r0.is_prefix_of(self.nodes()[0].2),
                        forall|x: int|
                            0 <= x < mods@.len() ==> 0 < #[trigger] mods@[x] < len && self.nodes()[mods@[x] as int].1
                                == Some(0u128),
                    decreases kids@.len() - k,
                {
                    let c = kids[k];
                    assert(kids@.skip(k as int)[0] == c);
                    let ghost before = self.nodes();
                    let ghost before_next = next@;
                    self.move_child(m, c, &mut next, Ghost(todo), Ghost(mods@));
                    proof {
                        lemma_prefix_trans(r0, before[0].2, self.nodes()[0].2);
                        assert(kids@.skip(k as int).drop_first() =~= kids@.skip(k + 1));
                        assert forall|x: int| 0 <= x < mods@.len() implies 0 < #[trigger] mods@[x] < len && self.nodes()[mods@[x] as int].1
                            == Some(0u128) by {
                            assert(mods@[x] != c) by {
                                if mods@[x] == c {
                                    assert(before[c as int].1 == Some(m));
                                }
                            }
                        }
                        if e[c as int] is Module {
                            assert(next@.last() == c);
                        }
                    }
                    k = k + 1;
                }
                proof {
                    lemma_module_done(self.nodes(), level@, i as int, next@, m);
                }
                i = i + 1;
            }
            proof {
                assert(level@.skip(level@.len() as int) + next@ =~= next@);
            }
            level = next;
            depth = depth + 1;
        }
        proof {
            let n = self.nodes();
            assert forall|k: int|
                0 < k < n.len() && #[trigger] pending(n, k) implies (n[k].1 matches Some(p) && 0 < p < k
                    && pending(n, p as int)) by {
                assert(!level@.contains(k as u128));
            }
            assert forall|j: int| 0 < j < n.len() implies !#[trigger] pending(n, j) by {
                lemma_none_pending(n, j);
            }
        }
    }
}


/// The nodes without those of the id `r`.
spec fn without(s: Seq<TreeNode>, r: u128) -> Seq<TreeNode> {
    s.filter(other_than(r))
}

/// Whether a node has an id other than `r`.
spec fn other_than(r: u128) -> spec_fn(TreeNode) -> bool {
    |x: TreeNode| x.0 != r
}

/// The containers of the nodes, in node order.
spec fn node_containers(n: Seq<TreeNode>, e: Seq<NodeType>) -> Seq<Container>
    decreases n.len(),
{
    if n.len() == 0 {
        Seq::empty()
    } else {
        node_containers(n.drop_last(), e) + match e[n.last().0 as int] {
            NodeType::Container(c) => seq![c],
            NodeType::Module(_) => Seq::empty(),
        }
    }
}

/// Whether the node ids are pairwise different.
spec fn ids_distinct(n: Seq<TreeNode>) -> bool {
    forall|a: int, b: int| 0 <= a < b < n.len() ==> #[trigger] n[a].0 != #[trigger] n[b].0
}

/// The shape of a tree while the modules below the root are removed: the
/// root first, no node but the root with children or a parent other than
/// the root, the children of the root found after it and each a container
/// or one of the modules `rest` still to remove, which hang below the root;
/// every container is a child of the root, and the containers in node
/// order are `c0`.
spec fn removing(n: Seq<TreeNode>, e: Seq<NodeType>, rest: Seq<u128>, c0: Seq<Container>) -> bool {
    &&& n.len() >= 1
    &&& n[0].0 == 0 && n[0].1 is None && n[0].3 == Some(0usize)
    &&& e.len() >= 1 && e[0] is Module
    &&& ids_distinct(n)
    &&& forall|j: int| 0 <= j < n.len() ==> #[trigger] n[j].0 < e.len() && n[j].3 == Some(n[j].0 as usize)
    &&& forall|j: int|
        0 < j < n.len() ==> ((#[trigger] n[j]).1 is None || n[j].1 == Some(0u128)) && n[j].2.len() == 0
    &&& n[0].2.no_duplicates()
    &&& forall|c: int|
        0 <= c < n[0].2.len() ==> (index_of(n, #[trigger] n[0].2[c]) matches Some(k) && 0 < k) && (
        e[n[0].2[c] as int] is Container || rest.contains(n[0].2[c]))
    &&& rest.no_duplicates()
    &&& forall|x: int|
        0 <= x < rest.len() ==> (index_of(n, #[trigger] rest[x]) matches Some(k) && 0 < k && n[k].1
            == Some(0u128)) && e[rest[x] as int] is Module
    &&& node_containers(n, e) == c0
    &&& forall|j: int| 0 <= j < n.len() && e[n[j].0 as int] is Container ==> n[0].2.contains(#[trigger] n[j].0)
}

/// A sequence without the nodes of one id keeps its first node where that
/// one has another id.
proof fn lemma_filter_keeps_first(s: Seq<TreeNode>, r: u128)
    requires
        s.len() > 0,
        s[0].0 != r,
    ensures
        without(s, r).len() > 0,
        without(s, r)[0] == s[0],
    decreases s.len(),
{
    reveal(Seq::filter);
    if s.len() > 1 {
        lemma_filter_keeps_first(s.drop_last(), r);
    }
}

/// The nodes left by a filter come from the sequence and have other ids.
proof fn lemma_filter_nodes(s: Seq<TreeNode>, r: u128)
    ensures
        forall|i: int|
            0 <= i < without(s, r).len() ==> (#[trigger] without(s, r)[i]).0
                != r && s.contains(without(s, r)[i]),
        forall|i: int|
            0 <= i < s.len() && s[i].0 != r ==> #[trigger] without(s, r).contains(s[i]),
{
    let f = without(s, r);
    assert forall|i: int| 0 <= i < f.len() implies (#[trigger] f[i]).0 != r && s.contains(f[i]) by {
        s.lemma_filter_pred(other_than(r), i);
        s.lemma_filter_contains_rev(other_than(r), f[i]);
    }
    assert forall|i: int| 0 <= i < s.len() && s[i].0 != r implies #[trigger] f.contains(s[i]) by {
        s.lemma_filter_contains(other_than(r), i);
    }
}

/// Filtering keeps ids distinct.
proof fn lemma_filter_distinct(s: Seq<TreeNode>, r: u128)
    requires
        ids_distinct(s),
    ensures
        ids_distinct(without(s, r)),
    decreases s.len(),
{
    reveal(Seq::filter);
    if s.len() > 0 {
        let d = s.drop_last();
        assert(ids_distinct(d));
        lemma_filter_distinct(d, r);
        let fd = without(d, r);
        if s.last().0 != r {
            let f = fd.push(s.last());
            lemma_filter_nodes(d, r);
            assert forall|a: int, b: int| 0 <= a < b < f.len() implies #[trigger] f[a].0 != #[trigger] f[b].0 by {
                if b == f.len() - 1 {
                    assert(d.contains(fd[a]));
                    let w = choose|w: int| 0 <= w < d.len() && d[w] == fd[a];
                    assert(s[w] == d[w]);
                    assert(s[s.len() - 1] == s.last());
                }
            }
        }
    }
}

/// Removing nodes of a module keeps the containers in node order.
proof fn lemma_node_containers_filter(s: Seq<TreeNode>, e: Seq<NodeType>, r: u128)
    requires
        e[r as int] is Module,
    ensures
        node_containers(without(s, r), e) == node_containers(s, e),
    decreases s.len(),
{
    reveal(Seq::filter);
    if s.len() > 0 {
        let d = s.drop_last();
        lemma_node_containers_filter(d, e, r);
        let fd = without(d, r);
        if s.last().0 != r {
            assert(fd.push(s.last()).drop_last() =~= fd);
        }
    }
}

/// The containers in node order depend on the ids of the nodes only.
proof fn lemma_node_containers_frame(s1: Seq<TreeNode>, s2: Seq<TreeNode>, e: Seq<NodeType>)
    requires
        s1.len() == s2.len(),
        forall|j: int| 0 <= j < s1.len() ==> #[trigger] s1[j].0 == s2[j].0,
    ensures
        node_containers(s1, e) == node_containers(s2, e),
    decreases s1.len(),
{
    if s1.len() > 0 {
        lemma_node_containers_frame(s1.drop_last(), s2.drop_last(), e);
        assert(s1.last().0 == s2.last().0);
    }
}

/// An id present in a sequence of distinct ids, other than `r`, is found
/// after filtering `r` out, at a node equal to the one before.
proof fn lemma_index_after_filter(s: Seq<TreeNode>, r: u128, x: u128)
    requires
        ids_distinct(s),
        index_of(s, x) is Some,
        x != r,
    ensures
        index_of(without(s, r), x) matches Some(k) && without(s, r)[k]
            == s[index_of(s, x)->0],
{
    let k = index_of(s, x)->0;
    lemma_index_from_bounds(s, x, 0);
    let f = without(s, r);
    lemma_filter_nodes(s, r);
    lemma_filter_distinct(s, r);
    assert(f.contains(s[k]));
    let w = choose|w: int| 0 <= w < f.len() && f[w] == s[k];
    lemma_index_unique(f, w);
}


/// Whether an id is other than `r`.
spec fn not_id(r: u128) -> spec_fn(u128) -> bool {
    |x: u128| x != r
}

/// Filtering keeps a sequence without duplicates.
proof fn lemma_filter_no_dups(s: Seq<u128>, r: u128)
    requires
        s.no_duplicates(),
    ensures
        s.filter(not_id(r)).no_duplicates(),
        forall|i: int| 0 <= i < s.filter(not_id(r)).len() ==> #[trigger] s.filter(not_id(r))[i] != r
            && s.contains(s.filter(not_id(r))[i]),
        forall|i: int| 0 <= i < s.len() && s[i] != r ==> #[trigger] s.filter(not_id(r)).contains(s[i]),
    decreases s.len(),
{
    reveal(Seq::filter);
    let f = s.filter(not_id(r));
    assert forall|i: int| 0 <= i < f.len() implies #[trigger] f[i] != r && s.contains(f[i]) by {
        s.lemma_filter_pred(not_id(r), i);
        s.lemma_filter_contains_rev(not_id(r), f[i]);
    }
    assert forall|i: int| 0 <= i < s.len() && s[i] != r implies #[trigger] f.contains(s[i]) by {
        s.lemma_filter_contains(not_id(r), i);
    }
    if s.len() > 0 {
        let d = s.drop_last();
        assert(d.no_duplicates());
        lemma_filter_no_dups(d, r);
        let fd = d.filter(not_id(r));
        if s.last() != r {
            assert(f == fd.push(s.last()));
            assert forall|a: int, b: int| 0 <= a < b < f.len() implies f[a] != f[b] by {
                if b == f.len() - 1 {
                    assert(d.contains(fd[a]));
                    let w = choose|w: int| 0 <= w < d.len() && d[w] == fd[a];
                    assert(s[w] == d[w]);
                    assert(s[s.len() - 1] == s.last());
                }
            }
        }
    }
}

/// Lookups depend on the ids of the nodes only.
proof fn lemma_index_frame(s1: Seq<TreeNode>, s2: Seq<TreeNode>, x: u128, i: int)
    requires
        s1.len() == s2.len(),
        forall|j: int| 0 <= j < s1.len() ==> #[trigger] s1[j].0 == s2[j].0,
        0 <= i,
    ensures
        index_from(s1, x, i) == index_from(s2, x, i),
    decreases s1.len() - i,
{
    if i < s1.len() {
        lemma_index_frame(s1, s2, x, i + 1);
    }
}

/// After the modules below the root have been taken apart, the tree has the
/// shape of one whose modules below the root are to be removed.
proof fn lemma_removal_start(n: Seq<TreeNode>, e: Seq<NodeType>, mods: Seq<u128>)
    requires
        positions_ok(n),
        links_ok(n, e),
        forall|j: int| 0 < j < n.len() ==> !#[trigger] pending(n, j),
        root_modules_within(n, e, mods),
        mods.no_duplicates(),
        forall|x: int|
            0 <= x < mods.len() ==> 0 < #[trigger] mods[x] < n.len() && e[mods[x] as int] is Module
                && n[mods[x] as int].1 == Some(0u128),
    ensures
        removing(n, e, mods, node_containers(n, e)),
{
    assert(n[0].0 == 0 && n[0].3 == Some(0usize));
    assert forall|j: int| 0 < j < n.len() implies ((#[trigger] n[j]).1 is None || n[j].1 == Some(0u128))
        && n[j].2.len() == 0 by {
        assert(!pending(n, j));
        if let Some(p) = n[j].1 {
            if p != 0 {
                assert(n[p as int].2.contains(j as u128));
                assert(!pending(n, p as int));
            }
        }
    }
    assert forall|c: int| 0 <= c < n[0].2.len() implies (index_of(n, #[trigger] n[0].2[c]) matches Some(
        k,
    ) && 0 < k) && (e[n[0].2[c] as int] is Container || mods.contains(n[0].2[c])) by {
        let x = n[0].2[c];
        assert(0 < x < n.len());
        lemma_index_of_position(n, x as int);
    }
    assert forall|x: int|
        0 <= x < mods.len() implies (index_of(n, #[trigger] mods[x]) matches Some(k) && 0 < k && n[k].1
        == Some(0u128)) && e[mods[x] as int] is Module by {
        lemma_index_of_position(n, mods[x] as int);
    }
    assert forall|j: int| 0 <= j < n.len() && e[n[j].0 as int] is Container implies n[0].2.contains(
        #[trigger] n[j].0,
    ) by {
        assert(n[j].0 == j);
        assert(j != 0);
        assert(n[j].1 is Some);
        assert(!pending(n, j));
        let p = n[j].1->0;
        assert(n[p as int].2.contains(j as u128));
        if p != 0 {
            assert(!pending(n, p as int));
        }
    }
}

/// Removing the first of the modules still to remove keeps the shape.
proof fn lemma_removal_step(
    n: Seq<TreeNode>,
    e: Seq<NodeType>,
    rest: Seq<u128>,
    c0: Seq<Container>,
    n2: Seq<TreeNode>,
)
    requires
        removing(n, e, rest, c0),
        rest.len() > 0,
        n2 == without(with_children(n, 0, n[0].2.filter(not_id(rest[0]))), rest[0]),
    ensures
        removing(n2, e, rest.drop_first(), c0),
{
    let r = rest[0];
    let kr = index_of(n, r)->0;
    lemma_index_from_bounds(n, r, 0);
    assert(r != 0) by {
        assert(n[kr].0 == r);
        assert(n[0].0 != n[kr].0);
    }
    let kids1 = n[0].2.filter(not_id(r));
    let n1 = with_children(n, 0, kids1);
    assert forall|j: int| 0 <= j < n1.len() implies #[trigger] n1[j].0 == n[j].0 by {}
    assert(ids_distinct(n1));
    lemma_filter_keeps_first(n1, r);
    lemma_filter_nodes(n1, r);
    lemma_filter_distinct(n1, r);
    lemma_filter_no_dups(n[0].2, r);
    assert(n2[0] == n1[0]);
    assert forall|j: int| 0 <= j < n2.len() implies #[trigger] n2[j].0 < e.len() && n2[j].3 == Some(
        n2[j].0 as usize,
    ) by {
        assert(n1.contains(n2[j]));
        let w = choose|w: int| 0 <= w < n1.len() && n1[w] == n2[j];
        assert(n1[w].0 == n[w].0 && n1[w].3 == n[w].3);
    }
    assert forall|j: int| 0 < j < n2.len() implies ((#[trigger] n2[j]).1 is None || n2[j].1 == Some(0u128))
        && n2[j].2.len() == 0 by {
        assert(n1.contains(n2[j]));
        let w = choose|w: int| 0 <= w < n1.len() && n1[w] == n2[j];
        assert(n2[0].0 != n2[j].0);
        assert(w != 0);
        assert(n1[w] == n[w]);
    }
    assert forall|c: int| 0 <= c < n2[0].2.len() implies (index_of(n2, #[trigger] n2[0].2[c]) matches Some(
        k,
    ) && 0 < k) && (e[n2[0].2[c] as int] is Container || rest.drop_first().contains(n2[0].2[c])) by {
        let x = n2[0].2[c];
        assert(x == kids1[c]);
        assert(x != r && n[0].2.contains(x));
        let w = choose|w: int| 0 <= w < n[0].2.len() && n[0].2[w] == x;
        let k1 = index_of(n, x)->0;
        lemma_index_from_bounds(n, x, 0);
        lemma_index_frame(n, n1, x, 0);
        lemma_index_after_filter(n1, r, x);
        lemma_index_from_bounds(n2, x, 0);
        let k2 = index_of(n2, x)->0;
        assert(n2[k2] == n1[k1]);
        assert(n1[k1].0 == x);
        assert(k2 != 0) by {
            assert(n[0].0 != n[k1].0);
        }
        if !(e[x as int] is Container) {
            assert(rest.contains(x));
            let v = choose|v: int| 0 <= v < rest.len() && rest[v] == x;
            assert(v != 0);
            assert(rest.drop_first()[v - 1] == x);
        }
    }
    assert forall|x: int|
        0 <= x < rest.drop_first().len() implies (index_of(n2, #[trigger] rest.drop_first()[x]) matches Some(
        k,
    ) && 0 < k && n2[k].1 == Some(0u128)) && e[rest.drop_first()[x] as int] is Module by {
        let y = rest.drop_first()[x];
        assert(y == rest[x + 1]);
        assert(y != r);
        let k1 = index_of(n, y)->0;
        lemma_index_from_bounds(n, y, 0);
        lemma_index_frame(n, n1, y, 0);
        lemma_index_after_filter(n1, r, y);
        lemma_index_from_bounds(n2, y, 0);
        let k2 = index_of(n2, y)->0;
        assert(n2[k2] == n1[k1]);
        assert(k1 != 0);
        assert(n1[k1] == n[k1]);
        assert(k2 != 0) by {
            assert(n[0].0 != n[k1].0);
        }
    }
    lemma_node_containers_filter(n1, e, r);
    lemma_node_containers_frame(n1, n, e);
    assert forall|j: int| 0 <= j < n2.len() && e[n2[j].0 as int] is Container implies n2[0].2.contains(
        #[trigger] n2[j].0,
    ) by {
        assert(n1.contains(n2[j]));
        let w = choose|w: int| 0 <= w < n1.len() && n1[w] == n2[j];
        assert(n1[w].0 == n[w].0);
        assert(n[0].2.contains(n[w].0));
        let v = choose|v: int| 0 <= v < n[0].2.len() && n[0].2[v] == n[w].0;
        assert(n[w].0 != r);
        assert(kids1.contains(n[0].2[v]));
    }
    assert(rest.drop_first().no_duplicates());
}


/// Whether the entry `b` is the container `a` with its paths flattened.
spec fn entry_flattened(a: NodeType, b: NodeType) -> bool {
    match (a, b) {
        (NodeType::Container(x), NodeType::Container(y)) => container_flattened(x, y),
        _ => false,
    }
}

/// The containers of the registered entries are those of the nodes.
proof fn lemma_registered_containers(n: Seq<TreeNode>, e: Seq<NodeType>, k: int)
    requires
        0 <= k <= n.len(),
    ensures
        registered_upto(n, e, k).map_values(|x: (Container, Seq<Seq<char>>)| x.0) == node_containers(
            n.take(k),
            e,
        ),
    decreases k,
{
    if k > 0 {
        lemma_registered_containers(n, e, k - 1);
        assert(n.take(k).drop_last() =~= n.take(k - 1));
        assert(n.take(k).last() == n[k - 1]);
        assert(registered_upto(n, e, k).map_values(|x: (Container, Seq<Seq<char>>)| x.0)
            =~= registered_upto(n, e, k - 1).map_values(|x: (Container, Seq<Seq<char>>)| x.0)
            + node_containers(n.take(k), e).skip(node_containers(n.take(k - 1), e).len() as int));
    } else {
        assert(n.take(0).len() == 0);
        assert(registered_upto(n, e, 0).map_values(|x: (Container, Seq<Seq<char>>)| x.0) =~= Seq::<
            Container,
        >::empty());
    }
}

/// In a tree where every node hangs below the root or nowhere, no
/// container has modules above it.
proof fn lemma_registered_flat(n: Seq<TreeNode>, e: Seq<NodeType>, k: int)
    requires
        0 <= k <= n.len(),
        n.len() >= 1,
        n[0].0 == 0,
        forall|j: int| 0 < j < n.len() ==> ((#[trigger] n[j]).1 is None || n[j].1 == Some(0u128)),
    ensures
        forall|i: int|
            0 <= i < registered_upto(n, e, k).len() ==> (#[trigger] registered_upto(n, e, k)[i]).1
                == Seq::<Seq<char>>::empty(),
    decreases k,
{
    if k > 0 {
        lemma_registered_flat(n, e, k - 1);
        let j = k - 1;
        assert(path_above(n, e, j) == Seq::<Seq<char>>::empty()) by {
            if 0 < j {
                if n[j].1 == Some(0u128) {
                    assert(index_of(n, 0) == Some(0int));
                }
            }
        }
        let prev = registered_upto(n, e, k - 1);
        let all = registered_upto(n, e, k);
        assert forall|i: int| 0 <= i < all.len() implies (#[trigger] all[i]).1 == Seq::<Seq<char>>::empty() by {
            if i < prev.len() {
                assert(all[i] == prev[i]);
            }
        }
    }
}

/// Entries that are the same where a node has a module, and flattened where
/// it has a container, give the containers flattened one by one.
proof fn lemma_node_containers_flattened(s: Seq<TreeNode>, e: Seq<NodeType>, e2: Seq<NodeType>)
    requires
        forall|j: int|
            0 <= j < s.len() ==> match e[(#[trigger] s[j]).0 as int] {
                NodeType::Container(_) => entry_flattened(e[s[j].0 as int], e2[s[j].0 as int]),
                NodeType::Module(_) => e2[s[j].0 as int] == e[s[j].0 as int],
            },
    ensures
        node_containers(s, e2).len() == node_containers(s, e).len(),
        forall|i: int|
            0 <= i < node_containers(s, e).len() ==> container_flattened(
                #[trigger] node_containers(s, e)[i],
                node_containers(s, e2)[i],
            ),
    decreases s.len(),
{
    if s.len() > 0 {
        let d = s.drop_last();
        assert forall|j: int| 0 <= j < d.len() implies match e[(#[trigger] d[j]).0 as int] {
            NodeType::Container(_) => entry_flattened(e[d[j].0 as int], e2[d[j].0 as int]),
            NodeType::Module(_) => e2[d[j].0 as int] == e[d[j].0 as int],
        } by {
            assert(d[j] == s[j]);
        }
        lemma_node_containers_flattened(d, e, e2);
        assert(s.last() == s[s.len() - 1]);
    }
}

/// A grown tree, in the terms of its taking apart.
proof fn lemma_grown_links(t: &ModuleTree, mods: Seq<u128>)
    requires
        t.grown(),
        root_modules_within(t.nodes(), t.entries@, mods),
        t.entries@.len() <= usize::MAX,
    ensures
        positions_ok(t.nodes()),
        links_ok(t.nodes(), t.entries@),
        covered(t.nodes(), mods),
{
    let n = t.nodes();
    let e = t.entries@;
    assert forall|j: int| 0 <= j < n.len() implies (#[trigger] n[j].2).no_duplicates() by {
        assert forall|a: int, b: int| 0 <= a < b < n[j].2.len() implies n[j].2[a] != n[j].2[b] by {
            assert(n[j].2[a] < n[j].2[b]);
        }
    }
    assert forall|j: int| 0 < j < n.len() implies (#[trigger] n[j].1 matches Some(p) ==> p < j
        && n[p as int].2.contains(j as u128) && e[p as int] is Module) by {
        assert(n[n[j].1->0 as int].2.contains(j as u128));
    }
    assert forall|j: int| 0 < j < n.len() && #[trigger] pending(n, j) implies mods.contains(j as u128) || (
    n[j].1 matches Some(p) && p != 0 && pending(n, p as int)) by {
        let p = n[j].1->0;
        assert(n[p as int].2.contains(j as u128));
        if p == 0 {
            let w = choose|w: int| 0 <= w < n[0].2.len() && n[0].2[w] == j as u128;
            let d = n[j].2[0];
            assert(n[d as int].1 == Some(j as u128));
            assert(e[j] is Module);
        }
    }
}

/// A sequence that begins another begins every sequence that the other
/// begins.
proof fn lemma_prefix_trans(a: Seq<u128>, b: Seq<u128>, c: Seq<u128>)
    requires
        a.is_prefix_of(b),
        b.is_prefix_of(c),
    ensures
        a.is_prefix_of(c),
{
    assert forall|i: int| 0 <= i < a.len() implies a[i] == c.subrange(0, a.len() as int)[i] by {
        assert(a[i] == b.subrange(0, a.len() as int)[i]);
        assert(b[i] == c.subrange(0, b.len() as int)[i]);
    }
    assert(a =~= c.subrange(0, a.len() as int));
}

/// Taking a module out of a list of children keeps its containers.
proof fn lemma_child_containers_without_module(s: Seq<u128>, r: u128, e: Seq<NodeType>)
    requires
        e[r as int] is Module,
    ensures
        child_containers(s.filter(not_id(r)), e) == child_containers(s, e),
    decreases s.len(),
{
    reveal(Seq::filter);
    if s.len() > 0 {
        let f = s.drop_last();
        lemma_child_containers_without_module(f, r, e);
        if s.last() != r {
            let g = f.filter(not_id(r)).push(s.last());
            assert(g.drop_last() =~= f.filter(not_id(r)));
        }
    }
}

/// The containers of a list of children that begins another begin the
/// containers of the other.
proof fn lemma_child_containers_prefix(a: Seq<u128>, b: Seq<u128>, e: Seq<NodeType>)
    requires
        a.is_prefix_of(b),
    ensures
        child_containers(a, e).len() <= child_containers(b, e).len(),
        forall|i: int|
            0 <= i < child_containers(a, e).len() ==> #[trigger] child_containers(a, e)[i]
                == child_containers(b, e)[i],
    decreases b.len(),
{
    if a.len() == b.len() {
        assert(a =~= b);
    } else {
        let f = b.drop_last();
        assert(a =~= f.subrange(0, a.len() as int));
        lemma_child_containers_prefix(a, f, e);
    }
}

/// With every entry of a list of children flattened, its containers are
/// flattened one by one.
proof fn lemma_child_containers_flattened(s: Seq<u128>, e: Seq<NodeType>, e2: Seq<NodeType>)
    requires
        forall|i: int| 0 <= i < s.len() ==> entry_flattened(e[#[trigger] s[i] as int], e2[s[i] as int]),
    ensures
        child_containers(s, e2).len() == child_containers(s, e).len(),
        forall|i: int|
            0 <= i < child_containers(s, e).len() ==> container_flattened(
                #[trigger] child_containers(s, e)[i],
                child_containers(s, e2)[i],
            ),
    decreases s.len(),
{
    if s.len() > 0 {
        let f = s.drop_last();
        assert forall|i: int| 0 <= i < f.len() implies entry_flattened(e[#[trigger] f[i] as int], e2[f[i] as int]) by {
            assert(f[i] == s[i]);
        }
        lemma_child_containers_flattened(f, e, e2);
        assert(entry_flattened(e[s[s.len() - 1] as int], e2[s[s.len() - 1] as int]));
    }
}

impl ModuleTree {
    /// Moves every container directly below the root, in the order in which
    /// the modules are visited level by level, removes the modules directly
    /// below the root, which leaves the others without parent, and flattens
    /// the paths of the root's children.
    fn flatten(&mut self)
        requires
            old(self).sound(),
        ensures
            final(self).flat(),
            final(self).registered().len() == old(self).registered().len(),
            forall|i: int|
                0 <= i < old(self).registered().len() ==> container_flattened(
                    #[trigger] old(self).registered()[i].0,
                    final(self).registered()[i].0,
                ) && final(self).registered()[i].1 == Seq::<Seq<char>>::empty(),
            forall|i: int|
                0 <= i < child_containers(old(self).nodes()[0].2, old(self).entries@).len() ==> i
                    < child_containers(final(self).nodes()[0].2, final(self).entries@).len()
                    && container_flattened(
                    #[trigger] child_containers(old(self).nodes()[0].2, old(self).entries@)[i],
                    child_containers(final(self).nodes()[0].2, final(self).entries@)[i],
                ),
    {
        proof {
            self.lemma_sound();
            lemma_index_unique(self.nodes(), 0);
        }
        let ghost n0 = self.nodes();
        let ghost e0 = self.entries@;
        let el = self.entries.len();
        assert(el == e0.len());
        let kids = match node_children(&self.tree, 0) {
            Some(v) => v,
            None => Vec::new(),
        };
        assert(kids@ == n0[0].2);
        let mut mods: Vec<u128> = Vec::new();
        let mut k: usize = 0;
        while k < kids.len()
            invariant
                self.sound(),
                self.nodes() == n0,
                self.entries@ == e0,
                kids@ == n0[0].2,
                kids@.no_duplicates() || !self.grown(),
                k <= kids@.len(),
                forall|w: int| 0 <= w < k && e0[kids@[w] as int] is Module ==> mods@.contains(#[trigger] kids@[w]),
                forall|x: int| 0 <= x < mods@.len() ==> kids@.take(k as int).contains(#[trigger] mods@[x]) && e0[mods@[x] as int] is Module,
                mods@.no_duplicates(),
                forall|c: int| 0 <= c < kids@.len() ==> (#[trigger] kids@[c]) < e0.len(),
            decreases kids@.len() - k,
        {
            let c = kids[k];
            let is_module = match self.entry(c) {
                NodeType::Module(_) => true,
                NodeType::Container(_) => false,
            };
            let ghost before = mods@;
            if is_module {
                proof {
                    if self.grown() {
                        assert(!before.contains(c)) by {
                            if before.contains(c) {
                                let v = choose|v: int| 0 <= v < before.len() && before[v] == c;
                                assert(kids@.take(k as int).contains(c));
                                let w = choose|w: int| 0 <= w < k && #[trigger] kids@.take(k as int)[w] == c;
                                assert(kids@[w] == kids@[k as int]);
                            }
                        }
                    } else {
                        assert(self.flat());
                        assert(e0[c as int] is Container);
                    }
                }
                mods.push(c);
            }
            proof {
                assert(kids@.take(k + 1) =~= kids@.take(k as int).push(c));
                assert forall|x: int| 0 <= x < mods@.len() implies kids@.take(k + 1).contains(#[trigger] mods@[x]) && e0[mods@[x] as int] is Module by {
                    if x < before.len() {
                        let w = choose|w: int| 0 <= w < k && #[trigger] kids@.take(k as int)[w] == mods@[x];
                        assert(kids@.take(k + 1)[w] == mods@[x]);
                    } else {
                        assert(kids@.take(k + 1)[k as int] == c);
                    }
                }
                assert forall|w: int| 0 <= w < k + 1 && e0[kids@[w] as int] is Module implies mods@.contains(#[trigger] kids@[w]) by {
                    if w == k {
                        assert(mods@.last() == c);
                    } else {
                        let v = choose|v: int| 0 <= v < before.len() && before[v] == kids@[w];
                        assert(mods@[v] == kids@[w]);
                    }
                }
            }
            k = k + 1;
        }
        proof {
            assert(kids@.take(kids@.len() as int) =~= kids@);
        }
        let ghost c0 = node_containers(n0, e0);
        if mods.len() > 0 {
            proof {
                if !self.grown() {
                    assert(self.flat());
                    assert(kids@.contains(mods@[0]));
                }
                lemma_grown_links(self, mods@);
                assert forall|x: int| 0 <= x < mods@.len() implies 0 < #[trigger] mods@[x] < n0.len()
                    && e0[mods@[x] as int] is Module && n0[mods@[x] as int].1 == Some(0u128) by {
                    let w = choose|w: int| 0 <= w < kids@.len() && #[trigger] kids@.take(kids@.len() as int)[w] == mods@[x];
                    assert(n0[0].2[w] == mods@[x]);
                }
                assert(root_modules_within(n0, e0, mods@));
            }
            self.detach_levels(&mods);
            proof {
                let n = self.nodes();
                assert forall|j: int| 0 <= j < n.len() implies #[trigger] n[j].0 == n0[j].0 by {}
                lemma_node_containers_frame(n, n0, e0);
                lemma_removal_start(n, e0, mods@);
            }
        } else {
            proof {
                let n = self.nodes();
                if self.grown() {
                    lemma_grown_links(self, mods@);
                    assert forall|j: int| 0 < j < n.len() implies !#[trigger] pending(n, j) by {
                        assert forall|q: int|
                            0 < q < n.len() && #[trigger] pending(n, q) implies (n[q].1 matches Some(p) && 0 < p < q
                                && pending(n, p as int)) by {
                            assert(!mods@.contains(q as u128));
                        }
                        lemma_none_pending(n, j);
                    }
                    assert(root_modules_within(n, e0, mods@));
                    lemma_removal_start(n, e0, mods@);
                } else {
                    assert(self.flat());
                    assert forall|c: int| 0 <= c < n[0].2.len() implies (index_of(n, #[trigger] n[0].2[c]) matches Some(
                        k,
                    ) && 0 < k) && (e0[n[0].2[c] as int] is Container || mods@.contains(n[0].2[c])) by {}
                    assert(n[0].2.no_duplicates());
                    assert(removing(n, e0, mods@, c0));
                }
            }
        }
        let ghost n1 = self.nodes();
        proof {
            if mods@.len() == 0 {
                assert(n1 == n0);
                assert(n0[0].2 =~= n1[0].2.subrange(0, n0[0].2.len() as int));
            }
            assert(n0[0].2.is_prefix_of(n1[0].2));
        }
        let mut t: usize = 0;
        assert(mods@.skip(0) =~= mods@);
        while t < mods.len()
            invariant
                self.entries@ == e0,
                t <= mods@.len(),
                removing(self.nodes(), e0, mods@.skip(t as int), c0),
                child_containers(self.nodes()[0].2, e0) == child_containers(n1[0].2, e0),
            decreases mods@.len() - t,
        {
            let r = mods[t];
            let ghost n = self.nodes();
            let ghost rest = mods@.skip(t as int);
            assert(rest[0] == r);
            proof {
                lemma_index_from_bounds(n, r, 0);
                assert(index_of(n, 0) == Some(0int));
            }
            let ok = remove_node(&mut self.tree, r);
            proof {
                let n2 = self.nodes();
                assert((|x: u128| x != r) =~= not_id(r));
                assert((|x: TreeNode| x.0 != r) =~= other_than(r));
                assert(n2 == without(with_children(n, 0, n[0].2.filter(not_id(r))), r));
                lemma_removal_step(n, e0, rest, c0, n2);
                assert(rest.drop_first() =~= mods@.skip(t + 1));
                let kr = index_of(n, r)->0;
                assert(n[kr].0 == r);
                assert(n[0].0 != n[kr].0);
                lemma_filter_keeps_first(with_children(n, 0, n[0].2.filter(not_id(r))), r);
                assert(n2[0].2 == n[0].2.filter(not_id(r)));
                assert(e0[rest[0] as int] is Module);
                lemma_child_containers_without_module(n[0].2, r, e0);
            }
            t = t + 1;
        }
        let ghost n2 = self.nodes();
        assert(mods@.skip(mods@.len() as int) =~= Seq::<u128>::empty());
        proof {
            assert(index_of(n2, 0) == Some(0int));
        }
        let roots = match node_children(&self.tree, 0) {
            Some(v) => v,
            None => Vec::new(),
        };
        assert(roots@ == n2[0].2);
        let mut q: usize = 0;
        while q < roots.len()
            invariant
                self.nodes() == n2,
                roots@ == n2[0].2,
                removing(n2, e0, Seq::<u128>::empty(), c0),
                q <= roots@.len(),
                self.entries@.len() == e0.len(),
                forall|x: int|
                    0 <= x < e0.len() ==> if roots@.take(q as int).contains(x as u128) {
                        entry_flattened(e0[x], #[trigger] self.entries@[x])
                    } else {
                        self.entries@[x] == e0[x]
                    },
                el == e0.len(),
            decreases roots@.len() - q,
        {
            let c = roots[q];
            proof {
                lemma_index_from_bounds(n2, c, 0);
            }
            let ci = c as usize;
            assert(ci as int == c as int);
            assert(!roots@.take(q as int).contains(c)) by {
                if roots@.take(q as int).contains(c) {
                    let w = choose|w: int| 0 <= w < q && #[trigger] roots@.take(q as int)[w] == c;
                    assert(roots@[w] == roots@[q as int]);
                }
            }
            let ghost before = self.entries@;
            match &mut self.entries[ci] {
                NodeType::Container(ct) => {
                    ct.flatten_paths();
                },
                NodeType::Module(_) => {},
            }
            proof {
                assert(roots@.take(q + 1) =~= roots@.take(q as int).push(c));
                assert(e0[ci as int] is Container);
                assert forall|x: int| 0 <= x < e0.len() implies if roots@.take(q + 1).contains(x as u128) {
                    entry_flattened(e0[x], #[trigger] self.entries@[x])
                } else {
                    self.entries@[x] == e0[x]
                } by {
                    if x != ci as int {
                        assert(self.entries@[x] == before[x]);
                        if roots@.take(q + 1).contains(x as u128) {
                            let w = choose|w: int| 0 <= w < q + 1 && #[trigger] roots@.take(q + 1)[w] == x as u128;
                            assert(w != q);
                            assert(roots@.take(q as int)[w] == x as u128);
                        } else {
                            if roots@.take(q as int).contains(x as u128) {
                                let w = choose|w: int| 0 <= w < q && #[trigger] roots@.take(q as int)[w] == x as u128;
                                assert(roots@.take(q + 1)[w] == x as u128);
                            }
                        }
                    } else {
                        assert(roots@.take(q + 1)[q as int] == c);
                    }
                }
            }
            q = q + 1;
        }
        proof {
            let e2 = self.entries@;
            assert(roots@.take(roots@.len() as int) =~= roots@);
            let n = n2;
            assert forall|j: int|
                0 <= j < n.len() implies match e0[(#[trigger] n[j]).0 as int] {
                    NodeType::Container(_) => entry_flattened(e0[n[j].0 as int], e2[n[j].0 as int]),
                    NodeType::Module(_) => e2[n[j].0 as int] == e0[n[j].0 as int],
                } by {
                if e0[n[j].0 as int] is Container {
                    assert(n[0].2.contains(n[j].0));
                } else {
                    if roots@.contains(n[j].0) {
                        let w = choose|w: int| 0 <= w < roots@.len() && roots@[w] == n[j].0;
                        assert(e0[n[0].2[w] as int] is Container);
                    }
                }
            }
            lemma_node_containers_flattened(n, e0, e2);
            assert(!roots@.contains(0u128)) by {
                if roots@.contains(0u128) {
                    let w = choose|w: int| 0 <= w < roots@.len() && roots@[w] == 0u128;
                    lemma_index_from_bounds(n, 0, 0);
                }
            }
            assert(e2[0] == e0[0]);
            assert forall|c: int| 0 <= c < n[0].2.len() implies (index_of(n, #[trigger] n[0].2[c]) matches Some(
                k,
            ) && 0 < k && e2[n[0].2[c] as int] is Container) by {
                let x = n[0].2[c];
                lemma_index_from_bounds(n, x, 0);
                assert(roots@.contains(x));
            }
            assert forall|j: int| 0 <= j < n.len() && e2[n[j].0 as int] is Container implies n[0].2.contains(
                #[trigger] n[j].0,
            ) by {
                if roots@.contains(n[j].0) {
                } else {
                    assert(e2[n[j].0 as int] == e0[n[j].0 as int]);
                }
            }
            assert(self.flat());
            lemma_registered_containers(n0, e0, n0.len() as int);
            assert(n0.take(n0.len() as int) =~= n0);
            lemma_registered_containers(n, e2, n.len() as int);
            assert(n.take(n.len() as int) =~= n);
            lemma_registered_flat(n, e2, n.len() as int);
            let old_r = registered_upto(n0, e0, n0.len() as int);
            let new_r = registered_upto(n, e2, n.len() as int);
            assert(old_r.map_values(|x: (Container, Seq<Seq<char>>)| x.0) == c0);
            assert(new_r.map_values(|x: (Container, Seq<Seq<char>>)| x.0) == node_containers(n, e2));
            assert forall|i: int| 0 <= i < old_r.len() implies container_flattened(
                #[trigger] old_r[i].0,
                new_r[i].0,
            ) && new_r[i].1 == Seq::<Seq<char>>::empty() by {
                assert(old_r.map_values(|x: (Container, Seq<Seq<char>>)| x.0)[i] == old_r[i].0);
                assert(new_r.map_values(|x: (Container, Seq<Seq<char>>)| x.0)[i] == new_r[i].0);
            }
            assert forall|i: int| 0 <= i < n[0].2.len() implies entry_flattened(
                e0[#[trigger] n[0].2[i] as int],
                e2[n[0].2[i] as int],
            ) by {
                let y = n[0].2[i];
                lemma_index_from_bounds(n, y, 0);
                assert(roots@.contains(y));
                assert(y < e0.len());
                assert(roots@.take(roots@.len() as int).contains(y));
                assert(entry_flattened(e0[y as int], self.entries@[y as int]));
            }
            lemma_child_containers_flattened(n[0].2, e0, e2);
            lemma_child_containers_prefix(n0[0].2, n1[0].2, e0);
        }
    }
}


/// Children that are all containers hold no module.
proof fn lemma_child_modules_none(kids: Seq<u128>, e: Seq<NodeType>)
    requires
        forall|c: int| 0 <= c < kids.len() ==> e[#[trigger] kids[c] as int] is Container,
    ensures
        child_modules(kids, e) == Seq::<u128>::empty(),
    decreases kids.len(),
{
    if kids.len() > 0 {
        lemma_child_modules_none(kids.drop_last(), e);
        assert(kids.last() == kids[kids.len() - 1]);
    }
}

impl ContainerCollection {
    /// Flattens the collection: every container comes to hang directly
    /// below the root, after the containers that were there, in the order
    /// in which the modules are visited level by level; the modules
    /// directly below the root leave the collection; and the paths of the
    /// containers and of the types that they mention are flattened.
    pub fn flatten(&mut self)
        ensures
            final(self).registered().len() == old(self).registered().len(),
            forall|i: int|
                0 <= i < old(self).registered().len() ==> container_flattened(
                    #[trigger] old(self).registered()[i].0,
                    final(self).registered()[i].0,
                ) && final(self).registered()[i].1 == Seq::<Seq<char>>::empty(),
            final(self).top_modules() == Seq::<u128>::empty(),
            reorders(final(self).top_containers(), final(self).registered()),
            final(self).modules_named_apart(),
            old(self).top_containers().len() <= final(self).top_containers().len(),
            forall|i: int|
                0 <= i < old(self).top_containers().len() ==> i < final(self).top_containers().len()
                    && container_flattened(
                    #[trigger] old(self).top_containers()[i],
                    final(self).top_containers()[i],
                ),
    {
        proof {
            use_type_invariant(&*self);
        }
        let ghost start = *self;
        let mut t = ModuleTree::new();
        std::mem::swap(&mut t, &mut self.tree);
        let ghost before = t;
        assert(start.top_containers() == child_containers(before.nodes()[0].2, before.entries@));
        t.flatten();
        proof {
            t.lemma_flat_top();
            t.lemma_flat_names_apart();
            let n = t.nodes();
            assert forall|c: int| 0 <= c < n[0].2.len() implies t.entries@[#[trigger] n[0].2[c] as int] is Container by {}
            lemma_child_modules_none(n[0].2, t.entries@);
            assert(sorted_desc(height_pairs(n, Seq::<u128>::empty())) == Seq::<(u128, i32)>::empty()) by {
                assert(height_pairs(n, Seq::<u128>::empty()) =~= Seq::<(u128, i32)>::empty());
            }
        }
        self.tree = t;
        assert(self.top_modules() =~= Seq::<u128>::empty());
        proof {
            self.lemma_named_apart();
            assert(self.top_containers() == child_containers(t.nodes()[0].2, t.entries@));
            let c0 = child_containers(before.nodes()[0].2, before.entries@);
            if c0.len() > 0 {
                assert(c0[c0.len() - 1] == start.top_containers()[c0.len() - 1]);
            }
            assert forall|i: int| 0 <= i < start.top_containers().len() implies i
                < self.top_containers().len() && container_flattened(
                #[trigger] start.top_containers()[i],
                self.top_containers()[i],
            ) by {
                assert(c0[i] == start.top_containers()[i]);
            }
        }
    }
}

/// Whether `top` holds the containers of `registered`, each once, in some
/// order: `top[k]` is the container registered at `perm[k]`, and no two
/// positions of `top` come from one registration.
pub open spec fn reorders(top: Seq<Container>, registered: Seq<(Container, Seq<Seq<char>>)>) -> bool {
    &&& top.len() == registered.len()
    &&& exists|perm: Seq<int>|
        #![trigger perm.len()]
        perm.len() == top.len() && (forall|k: int|
            0 <= k < top.len() ==> 0 <= #[trigger] perm[k] < registered.len() && top[k]
                == registered[perm[k]].0) && (forall|a: int, b: int|
            0 <= a < b < top.len() ==> #[trigger] perm[a] != #[trigger] perm[b])
}

/// The containers registered up to `k1` come first among those up to `k2`.
proof fn lemma_registered_prefix(n: Seq<TreeNode>, e: Seq<NodeType>, k1: int, k2: int)
    requires
        0 <= k1 <= k2 <= n.len(),
    ensures
        registered_upto(n, e, k1).len() <= registered_upto(n, e, k2).len(),
        registered_upto(n, e, k2).subrange(0, registered_upto(n, e, k1).len() as int)
            == registered_upto(n, e, k1),
    decreases k2,
{
    if k1 < k2 {
        lemma_registered_prefix(n, e, k1, k2 - 1);
        let a = registered_upto(n, e, k1);
        let b = registered_upto(n, e, k2 - 1);
        let c = registered_upto(n, e, k2);
        assert(c.subrange(0, b.len() as int) =~= b);
        assert(c.subrange(0, a.len() as int) =~= b.subrange(0, a.len() as int));
    } else {
        assert(registered_upto(n, e, k2).subrange(0, registered_upto(n, e, k1).len() as int)
            =~= registered_upto(n, e, k1));
    }
}

/// A container at position `j` is registered at the number of containers
/// before it.
proof fn lemma_registered_at(n: Seq<TreeNode>, e: Seq<NodeType>, j: int, c: Container)
    requires
        0 <= j < n.len(),
        entry_at(n, e, j) == NodeType::Container(c),
    ensures
        registered_upto(n, e, j + 1).len() == registered_upto(n, e, j).len() + 1,
        registered_upto(n, e, j).len() < registered_upto(n, e, n.len() as int).len(),
        registered_upto(n, e, n.len() as int)[registered_upto(n, e, j).len() as int].0 == c,
{
    let r1 = registered_upto(n, e, j + 1);
    assert(r1 == registered_upto(n, e, j) + seq![(c, path_above(n, e, j))]);
    lemma_registered_prefix(n, e, j + 1, n.len() as int);
    let all = registered_upto(n, e, n.len() as int);
    assert(all.subrange(0, r1.len() as int)[registered_upto(n, e, j).len() as int]
        == all[registered_upto(n, e, j).len() as int]);
}

/// Every registration up to `k` comes from a container before `k`.
proof fn lemma_registration_source(n: Seq<TreeNode>, e: Seq<NodeType>, k: int, r: int)
    requires
        0 <= k <= n.len(),
        0 <= r < registered_upto(n, e, k).len(),
    ensures
        exists|j: int|
            0 <= j < k && #[trigger] entry_at(n, e, j) is Container && registered_upto(n, e, j).len()
                == r,
    decreases k,
{
    if k > 0 {
        let front = registered_upto(n, e, k - 1);
        if r < front.len() {
            lemma_registration_source(n, e, k - 1, r);
        } else {
            assert(entry_at(n, e, k - 1) is Container);
        }
    }
}

/// Where every child is a container, the containers of the children are
/// those of the children one by one.
proof fn lemma_child_containers_all(kids: Seq<u128>, e: Seq<NodeType>)
    requires
        forall|k: int| 0 <= k < kids.len() ==> e[#[trigger] kids[k] as int] is Container,
    ensures
        child_containers(kids, e).len() == kids.len(),
        forall|k: int|
            0 <= k < kids.len() ==> e[kids[k] as int] == NodeType::Container(
                #[trigger] child_containers(kids, e)[k],
            ),
    decreases kids.len(),
{
    if kids.len() > 0 {
        let front = kids.drop_last();
        assert forall|k: int| 0 <= k < front.len() implies e[#[trigger] front[k] as int] is Container by {
            assert(front[k] == kids[k]);
        }
        lemma_child_containers_all(front, e);
        assert(e[kids[kids.len() - 1] as int] is Container);
        assert forall|k: int| 0 <= k < kids.len() implies e[kids[k] as int] == NodeType::Container(
            #[trigger] child_containers(kids, e)[k],
        ) by {
            if k < front.len() {
                assert(front[k] == kids[k]);
                assert(child_containers(kids, e)[k] == child_containers(front, e)[k]);
            }
        }
    }
}

impl ModuleTree {
    /// In a flat tree the containers below the root are the registered ones,
    /// each once.
    proof fn lemma_flat_top(&self)
        requires
            self.flat(),
        ensures
            reorders(child_containers(self.nodes()[0].2, self.entries@), self.registered()),
    {
        let n = self.nodes();
        let e = self.entries@;
        let kids = n[0].2;
        let nn = n.len() as int;
        let regs = self.registered();
        assert forall|k: int| 0 <= k < kids.len() implies e[#[trigger] kids[k] as int] is Container by {}
        lemma_child_containers_all(kids, e);
        let top = child_containers(kids, e);
        let pos = |k: int| index_of(n, kids[k])->0;
        let cnt = |j: int| registered_upto(n, e, j).len() as int;
        let perm = Seq::new(kids.len(), |k: int| cnt(pos(k)));
        assert forall|k: int| 0 <= k < kids.len() implies 0 < pos(k) < nn && n[pos(k)].0 == kids[k]
            && entry_at(n, e, pos(k)) == NodeType::Container(top[k]) by {
            lemma_index_from_bounds(n, kids[k], 0);
            assert(index_of(n, kids[k]) matches Some(q) && 0 < q);
        }
        assert forall|k: int| 0 <= k < top.len() implies 0 <= #[trigger] perm[k] < regs.len()
            && top[k] == regs[perm[k]].0 by {
            lemma_registered_at(n, e, pos(k), top[k]);
        }
        assert forall|a: int, b: int| 0 <= a < b < top.len() implies #[trigger] perm[a]
            != #[trigger] perm[b] by {
            assert(kids[a] != kids[b]);
            assert(pos(a) != pos(b));
            if pos(a) < pos(b) {
                lemma_registered_at(n, e, pos(a), top[a]);
                lemma_registered_prefix(n, e, pos(a) + 1, pos(b));
            } else {
                lemma_registered_at(n, e, pos(b), top[b]);
                lemma_registered_prefix(n, e, pos(b) + 1, pos(a));
            }
        }
        // every registration stands below the root
        assert forall|r: int| #![trigger regs[r]] 0 <= r < regs.len() implies exists|k: int|
            0 <= k < top.len() && #[trigger] perm[k] == r by {
            lemma_registration_source(n, e, nn, r);
            let j = choose|j: int|
                0 <= j < nn && #[trigger] entry_at(n, e, j) is Container && registered_upto(n, e, j).len() == r;
            assert(kids.contains(n[j].0));
            let k = choose|k: int| 0 <= k < kids.len() && kids[k] == n[j].0;
            assert(n[pos(k)].0 == n[j].0);
            if pos(k) != j {
                assert(n[pos(k)].0 != n[j].0);
            }
            assert(perm[k] == r);
        }
        // the positions of `top` and the registrations are as many
        let dom = vstd::set_lib::set_int_range(0, top.len() as int);
        let img = vstd::set_lib::set_int_range(0, regs.len() as int);
        let f = |k: int| perm[k];
        vstd::set_lib::lemma_int_range(0, top.len() as int);
        vstd::set_lib::lemma_int_range(0, regs.len() as int);
        assert(vstd::relations::injective_on(f, dom)) by {
            assert forall|a: int, b: int| dom.contains(a) && dom.contains(b) && #[trigger] f(a)
                == #[trigger] f(b) implies a == b by {
                if a < b {
                    assert(perm[a] != perm[b]);
                } else if b < a {
                    assert(perm[b] != perm[a]);
                }
            }
        }
        assert(dom.map(f) =~= img) by {
            assert forall|r: int| img.contains(r) implies dom.map(f).contains(r) by {
                assert(0 <= r < regs.len());
                let _ = regs[r];
                let k = choose|k: int| 0 <= k < top.len() && #[trigger] perm[k] == r;
                assert(dom.contains(k) && f(k) == r);
            }
            assert forall|r: int| dom.map(f).contains(r) implies img.contains(r) by {
                let k = choose|k: int| dom.contains(k) && f(k) == r;
                assert(0 <= perm[k] < regs.len());
            }
        }
        vstd::set_lib::lemma_map_size(dom, img, f);
        assert(perm.len() == top.len());
    }
}

/// A module among the children stands among their modules.
proof fn lemma_child_modules_contains(kids: Seq<u128>, e: Seq<NodeType>, x: u128)
    requires
        kids.contains(x),
        e[x as int] is Module,
    ensures
        child_modules(kids, e).contains(x),
    decreases kids.len(),
{
    let front = child_modules(kids.drop_last(), e);
    if kids.last() == x {
        assert(child_modules(kids, e) == front + seq![x]);
        assert(child_modules(kids, e)[front.len() as int] == x);
    } else {
        let w = choose|w: int| 0 <= w < kids.len() && kids[w] == x;
        assert(kids.drop_last()[w] == x);
        lemma_child_modules_contains(kids.drop_last(), e, x);
        let v = choose|v: int| 0 <= v < front.len() && front[v] == x;
        assert(child_modules(kids, e)[v] == x);
    }
}

impl ContainerCollection {
    /// Whether the module `id` is the root, or is reached from the root in
    /// at most `k` steps, each from a module to one of the modules directly
    /// below it that the module has lower.
    pub open spec fn reaches(&self, id: u128, k: nat) -> bool
        decreases k,
    {
        id == 0 || (k > 0 && exists|p: u128|
            self.module_at(p) && #[trigger] self.modules_at(p).contains(id) && 0 <= self.depth_at(
                id,
            ) < self.depth_at(p) && self.reaches(p, (k - 1) as nat))
    }

    /// More steps reach what fewer steps reach.
    pub proof fn lemma_reaches_more(&self, id: u128, k: nat, k2: nat)
        requires
            self.reaches(id, k),
            k <= k2,
        ensures
            self.reaches(id, k2),
        decreases k,
    {
        if id != 0 {
            let p = choose|p: u128|
                self.module_at(p) && #[trigger] self.modules_at(p).contains(id) && 0
                    <= self.depth_at(id) < self.depth_at(p) && self.reaches(p, (k - 1) as nat);
            self.lemma_reaches_more(p, (k - 1) as nat, (k2 - 1) as nat);
        }
    }

    /// In a collection that has only grown, every module is reached from
    /// the root.
    proof fn lemma_grown_reaches(&self, id: u128)
        requires
            self.tree.grown(),
            self.module_at(id),
        ensures
            self.reaches(id, id as nat),
        decreases id,
    {
        let n = self.tree.nodes();
        let e = self.tree.entries@;
        if id != 0 {
            lemma_index_from_bounds(n, id, 0);
            let kid = index_of(n, id)->0;
            assert(n[kid].0 == kid);
            assert(kid == id);
            let q = n[id as int].1->0;
            assert(n[id as int].1 matches Some(x) && x < id && e[x as int] is Module);
            lemma_index_of_position(n, q as int);
            lemma_index_of_position(n, id as int);
            assert(self.module_at(q));
            assert(n[q as int].2.contains(id));
            assert(self.tree.kids(q) == n[q as int].2);
            lemma_child_modules_contains(n[q as int].2, e, id);
            let cm = child_modules(n[q as int].2, e);
            let v = choose|v: int| 0 <= v < cm.len() && cm[v] == id;
            let hp = height_pairs(n, cm);
            assert(hp[v].0 == id);
            lemma_sorted_desc_contains(hp, hp[v]);
            let sd = sorted_desc(hp);
            let u = choose|u: int| 0 <= u < sd.len() && sd[u] == hp[v];
            assert(self.modules_at(q)[u] == id);
            assert(self.modules_at(q).contains(id));
            assert(self.depth_at(id) == n.len() - id);
            assert(self.depth_at(q) == n.len() - q);
            self.lemma_grown_reaches(q);
            self.lemma_reaches_more(q, q as nat, (id - 1) as nat);
        }
    }

    /// Every module of a collection that holds a container is reached from
    /// the root.
    pub proof fn lemma_holder_reached(&self, id: u128)
        requires
            self.inv(),
            self.module_at(id),
            self.containers_at(id).len() > 0,
        ensures
            self.reaches(id, id as nat),
    {
        if self.tree.grown() {
            self.lemma_grown_reaches(id);
        } else {
            let n = self.tree.nodes();
            lemma_index_from_bounds(n, id, 0);
            let k = index_of(n, id)->0;
            if k > 0 {
                assert(n[k].2.len() == 0);
                assert(self.containers_at(id) == Seq::<Container>::empty());
            }
            assert(n[0].0 == 0);
        }
    }

    /// Every container of a module of the collection is a registered one.
    pub proof fn lemma_held_registered(&self, id: u128, x: Container)
        requires
            self.inv(),
            self.module_at(id),
            self.containers_at(id).contains(x),
        ensures
            exists|k: int| 0 <= k < self.registered().len() && #[trigger] self.registered()[k].0 == x,
    {
        self.tree.lemma_module_container_registered(id, x);
        let k = choose|k: int|
            0 <= k < self.tree.registered().len() && #[trigger] self.tree.registered()[k].0 == x;
        assert(self.registered() == self.tree.registered());
        assert(self.registered()[k].0 == x);
    }

    /// Every registered container stands among the containers of a module
    /// whose names from the top down are those it was sorted under.
    pub proof fn lemma_registered_held(&self, i: int)
        requires
            self.inv(),
            0 <= i < self.registered().len(),
        ensures
            self.holds_container(self.registered()[i].0, self.registered()[i].1),
    {
        self.tree.lemma_registered_in_module(i);
        let id = choose|id: u128|
            self.tree.module_at(id) && #[trigger] child_containers(
                self.tree.kids(id),
                self.tree.entries@,
            ).contains(self.registered()[i].0) && self.tree.names_to(id) == self.registered()[i].1;
        assert(self.module_at(id) && self.containers_at(id).contains(self.registered()[i].0)
            && self.names_to(id) == self.registered()[i].1);
    }
}

/// The modules among children that are all different are all different.
proof fn lemma_child_modules_no_dup(kids: Seq<u128>, e: Seq<NodeType>)
    requires
        kids.no_duplicates(),
    ensures
        child_modules(kids, e).no_duplicates(),
    decreases kids.len(),
{
    if kids.len() > 0 {
        let front = kids.drop_last();
        assert(front.no_duplicates()) by {
            assert forall|a: int, b: int| 0 <= a < front.len() && 0 <= b < front.len() && a != b
                implies front[a] != front[b] by {
                assert(front[a] == kids[a] && front[b] == kids[b]);
            }
        }
        lemma_child_modules_no_dup(front, e);
        lemma_child_modules_members(front, e);
        let cm = child_modules(front, e);
        let r = child_modules(kids, e);
        if e[kids.last() as int] is Module {
            assert(r == cm + seq![kids.last()]);
            assert forall|a: int, b: int| 0 <= a < r.len() && 0 <= b < r.len() && a != b implies r[a]
                != r[b] by {
                if a < cm.len() && b < cm.len() {
                } else if a < cm.len() {
                    assert(front.contains(cm[a]));
                    let w = choose|w: int| 0 <= w < front.len() && front[w] == cm[a];
                    assert(kids[w] == cm[a]);
                    assert(kids[kids.len() - 1] == kids.last());
                } else if b < cm.len() {
                    assert(front.contains(cm[b]));
                    let w = choose|w: int| 0 <= w < front.len() && front[w] == cm[b];
                    assert(kids[w] == cm[b]);
                    assert(kids[kids.len() - 1] == kids.last());
                }
            }
        } else {
            assert(r == cm + Seq::<u128>::empty());
            assert(r =~= cm);
        }
    }
}

impl ModuleTree {
    /// A flat tree keeps the names of sibling modules apart: only the root
    /// has children, and they are containers.
    proof fn lemma_flat_names_apart(&self)
        requires
            self.flat(),
        ensures
            self.names_apart(),
    {
        let n = self.nodes();
        let e = self.entries@;
        assert forall|j: int, a: int, b: int|
            0 <= j < n.len() && 0 <= a < b < n[j].2.len() && e[#[trigger] n[j].2[a] as int] is Module
                && e[#[trigger] n[j].2[b] as int] is Module implies module_name(e[n[j].2[a] as int])
                != module_name(e[n[j].2[b] as int]) by {
            if j > 0 {
                assert(n[j].2.len() == 0);
            } else {
                assert(e[n[0].2[a] as int] is Container);
            }
        }
    }
}

impl ContainerCollection {
    /// Whether the modules directly below each module have names all
    /// different from each other.
    pub open spec fn modules_named_apart(&self) -> bool {
        forall|id: u128, a: int, b: int|
            self.module_at(id) && 0 <= a < b < self.modules_at(id).len() ==> self.name_at(
                #[trigger] self.modules_at(id)[a],
            ) != self.name_at(#[trigger] self.modules_at(id)[b])
    }

    /// The invariant of a collection keeps the names of sibling modules
    /// apart.
    proof fn lemma_named_apart(&self)
        requires
            self.tree.sound(),
            self.tree.names_apart(),
        ensures
            self.modules_named_apart(),
    {
        self.tree.lemma_sound();
        let n = self.tree.nodes();
        let e = self.tree.entries@;
        assert forall|id: u128, a: int, b: int|
            self.module_at(id) && 0 <= a < b < self.modules_at(id).len() implies self.name_at(
            #[trigger] self.modules_at(id)[a],
        ) != self.name_at(#[trigger] self.modules_at(id)[b]) by {
            lemma_index_from_bounds(n, id, 0);
            let p = index_of(n, id)->0;
            let kids = n[p].2;
            assert(self.tree.kids(id) == kids);
            assert(kids.no_duplicates()) by {
                if self.tree.grown() {
                    assert forall|x: int, y: int| 0 <= x < kids.len() && 0 <= y < kids.len() && x != y
                        implies kids[x] != kids[y] by {
                        if x < y {
                            assert(kids[x] < kids[y]);
                        } else {
                            assert(kids[y] < kids[x]);
                        }
                    }
                } else {
                    if p > 0 {
                        assert(kids.len() == 0);
                    }
                }
            }
            let cm = child_modules(kids, e);
            lemma_child_modules_no_dup(kids, e);
            lemma_child_modules_members(kids, e);
            let hp = height_pairs(n, cm);
            assert(hp.no_duplicates()) by {
                assert forall|x: int, y: int| 0 <= x < hp.len() && 0 <= y < hp.len() && x != y
                    implies hp[x] != hp[y] by {
                    assert(hp[x].0 == cm[x] && hp[y].0 == cm[y]);
                }
            }
            lemma_sorted_desc_from(hp);
            let sd = sorted_desc(hp);
            let ms = self.modules_at(id);
            assert(ms[a] == sd[a].0 && ms[b] == sd[b].0);
            assert(sd[a] != sd[b]);
            // both come from the pairs, whose first items are different modules
            let wa = choose|w: int| 0 <= w < hp.len() && hp[w] == sd[a];
            let wb = choose|w: int| 0 <= w < hp.len() && hp[w] == sd[b];
            assert(wa != wb);
            assert(cm[wa] != cm[wb]);
            assert(kids.contains(cm[wa]) && e[cm[wa] as int] is Module);
            assert(kids.contains(cm[wb]) && e[cm[wb] as int] is Module);
            let ka = choose|k: int| 0 <= k < kids.len() && kids[k] == cm[wa];
            let kb = choose|k: int| 0 <= k < kids.len() && kids[k] == cm[wb];
            assert(ka != kb);
            if ka < kb {
                assert(module_name(e[kids[ka] as int]) != module_name(e[kids[kb] as int]));
            } else {
                assert(module_name(e[kids[kb] as int]) != module_name(e[kids[ka] as int]));
            }
            assert(ms[a] == cm[wa] && ms[b] == cm[wb]);
        }
    }
}

/// The containers of `regs` registered under the module names `names`, in
/// the order of registration.
pub open spec fn registered_under(regs: Seq<(Container, Seq<Seq<char>>)>, names: Seq<Seq<char>>) -> Seq<
    Container,
>
    decreases regs.len(),
{
    if regs.len() == 0 {
        Seq::empty()
    } else {
        registered_under(regs.drop_last(), names) + if regs.last().1 == names {
            seq![regs.last().0]
        } else {
            Seq::<Container>::empty()
        }
    }
}

impl ModuleTree {
    /// Two modules with the same names from the top down are the same
    /// module.
    proof fn lemma_path_injective(&self, p: int, q: int)
        requires
            self.grown(),
            self.names_apart(),
            0 <= p < self.nodes().len(),
            0 <= q < self.nodes().len(),
            self.entries@[p] is Module,
            self.entries@[q] is Module,
            path_to(self.nodes(), self.entries@, p) == path_to(self.nodes(), self.entries@, q),
        ensures
            p == q,
        decreases p + q,
    {
        let n = self.nodes();
        let e = self.entries@;
        if p > 0 && q > 0 {
            let pp = n[p].1->0;
            let qq = n[q].1->0;
            assert(n[p].1 matches Some(x) && x < p && e[x as int] is Module);
            assert(n[q].1 matches Some(x) && x < q && e[x as int] is Module);
            self.lemma_path_above_parent(p, pp as int);
            self.lemma_path_above_parent(q, qq as int);
            assert(n[p].0 == p && n[q].0 == q);
            let tp = path_to(n, e, p);
            assert(tp == path_above(n, e, p).push(module_name(e[p])));
            assert(path_to(n, e, q) == path_above(n, e, q).push(module_name(e[q])));
            assert(path_above(n, e, p) =~= tp.drop_last());
            assert(path_above(n, e, q) =~= path_to(n, e, q).drop_last());
            assert(tp.last() == module_name(e[p]));
            assert(path_to(n, e, q).last() == module_name(e[q]));
            assert(module_name(e[p]) == module_name(e[q]));
            self.lemma_path_injective(pp as int, qq as int);
            if p != q {
                let kids = n[pp as int].2;
                assert(n[n[p].1->0 as int].2.contains(p as u128));
                assert(n[n[q].1->0 as int].2.contains(q as u128));
                assert(kids.contains(p as u128));
                assert(kids.contains(q as u128));
                let a = choose|a: int| 0 <= a < kids.len() && kids[a] == p as u128;
                let b = choose|b: int| 0 <= b < kids.len() && kids[b] == q as u128;
                assert(kids[a] as int == p && kids[b] as int == q);
                assert(a != b);
                if a < b {
                    assert(module_name(e[kids[a] as int]) != module_name(e[kids[b] as int]));
                } else {
                    assert(module_name(e[kids[b] as int]) != module_name(e[kids[a] as int]));
                }
            }
        } else if p > 0 {
            assert(n[p].0 == p);
            assert(path_to(n, e, p).len() > 0);
        } else if q > 0 {
            assert(n[q].0 == q);
            assert(path_to(n, e, q).len() > 0);
        }
    }

    /// Nodes from `a` up to `b` that are not containers below the module
    /// `id` leave the containers registered under its names as they are.
    proof fn lemma_under_skip(&self, id: int, a: int, b: int)
        requires
            self.grown(),
            self.names_apart(),
            0 <= id < self.nodes().len(),
            self.entries@[id] is Module,
            0 <= a <= b <= self.nodes().len(),
            forall|j: int|
                a <= j < b ==> !(self.entries@[j] is Container && #[trigger] self.nodes()[j].1 == Some(
                    id as u128,
                )),
        ensures
            registered_under(
                registered_upto(self.nodes(), self.entries@, b),
                path_to(self.nodes(), self.entries@, id),
            ) == registered_under(
                registered_upto(self.nodes(), self.entries@, a),
                path_to(self.nodes(), self.entries@, id),
            ),
        decreases b - a,
    {
        let n = self.nodes();
        let e = self.entries@;
        let pid = path_to(n, e, id);
        if a < b {
            self.lemma_under_skip(id, a, b - 1);
            let j = b - 1;
            let front = registered_upto(n, e, j);
            assert(n[j].0 == j);
            if e[j] is Container {
                let c = e[j]->Container_0;
                assert(entry_at(n, e, j) == e[j]);
                let r = registered_upto(n, e, b);
                assert(r == front + seq![(c, path_above(n, e, j))]);
                assert(r.drop_last() =~= front);
                if j > 0 {
                    let p = n[j].1->0;
                    assert(n[j].1 matches Some(x) && x < j && e[x as int] is Module);
                    self.lemma_path_above_parent(j, p as int);
                    if path_above(n, e, j) == pid {
                        self.lemma_path_injective(p as int, id);
                    }
                } else {
                    assert(e[0] is Module);
                }
            } else {
                assert(entry_at(n, e, j) == e[j]);
                assert(registered_upto(n, e, b) =~= front);
            }
        }
    }

    /// The containers of the first `m` children of the module `id` are
    /// those registered under its names up to the next child.
    proof fn lemma_children_taken(&self, id: int, m: int)
        requires
            self.grown(),
            self.names_apart(),
            0 <= id < self.nodes().len(),
            self.entries@[id] is Module,
            0 <= m <= self.nodes()[id].2.len(),
        ensures
            child_containers(self.nodes()[id].2.take(m), self.entries@) == registered_under(
                registered_upto(
                    self.nodes(),
                    self.entries@,
                    if m < self.nodes()[id].2.len() {
                        self.nodes()[id].2[m] as int
                    } else {
                        self.nodes().len() as int
                    },
                ),
                path_to(self.nodes(), self.entries@, id),
            ),
        decreases m,
    {
        let n = self.nodes();
        let e = self.entries@;
        let kids = n[id].2;
        let nn = n.len() as int;
        let pid = path_to(n, e, id);
        let bound = if m < kids.len() { kids[m] as int } else { nn };
        if m == 0 {
            assert forall|j: int| 0 <= j < bound implies !(e[j] is Container
                && #[trigger] n[j].1 == Some(id as u128)) by {
                if e[j] is Container && n[j].1 == Some(id as u128) {
                    assert(n[j].0 == j);
                    assert(j > 0);
                    assert(n[n[j].1->0 as int].2.contains(j as u128));
                    let w = choose|w: int| 0 <= w < kids.len() && kids[w] == j as u128;
                    if w > 0 {
                        assert(kids[0] < kids[w]);
                    }
                }
            }
            if kids.len() > 0 {
                assert(kids[0] < nn);
            }
            self.lemma_under_skip(id, 0, bound);
            assert(registered_upto(n, e, 0) =~= Seq::<(Container, Seq<Seq<char>>)>::empty());
            assert(registered_under(registered_upto(n, e, 0), pid) =~= Seq::<Container>::empty());
            assert(child_containers(kids.take(0), e) =~= Seq::<Container>::empty());
        } else {
            self.lemma_children_taken(id, m - 1);
            let k = kids[m - 1] as int;
            assert(id < k < nn);
            assert(n[k].1 == Some(id as u128));
            assert(n[k].0 == k);
            if m < kids.len() {
                assert(kids[m - 1] < kids[m]);
            }
            assert(kids.take(m).drop_last() =~= kids.take(m - 1));
            assert(kids.take(m).last() == kids[m - 1]);
            let front = registered_upto(n, e, k);
            let r1 = registered_upto(n, e, k + 1);
            assert(entry_at(n, e, k) == e[k]);
            if e[k] is Container {
                let c = e[k]->Container_0;
                assert(r1 == front + seq![(c, path_above(n, e, k))]);
                self.lemma_path_above_parent(k, id);
                assert(r1.drop_last() =~= front);
                assert(registered_under(r1, pid) == registered_under(front, pid) + seq![c]);
                assert(child_containers(kids.take(m), e) == child_containers(kids.take(m - 1), e)
                    + seq![c]);
            } else {
                assert(r1 =~= front);
                assert(child_containers(kids.take(m), e) =~= child_containers(kids.take(m - 1), e));
            }
            assert forall|j: int| k + 1 <= j < bound implies !(e[j] is Container
                && #[trigger] n[j].1 == Some(id as u128)) by {
                if e[j] is Container && n[j].1 == Some(id as u128) {
                    assert(n[j].0 == j);
                    assert(n[n[j].1->0 as int].2.contains(j as u128));
                    let w = choose|w: int| 0 <= w < kids.len() && kids[w] == j as u128;
                    if w < m - 1 {
                        assert(kids[w] < kids[m - 1]);
                    } else if w > m {
                        assert(kids[m] < kids[w]);
                    }
                }
            }
            self.lemma_under_skip(id, k + 1, bound);
        }
    }

    /// The containers of a module are those registered under its names, in
    /// the order of registration.
    proof fn lemma_containers_registered_under(&self, id: int)
        requires
            self.grown(),
            self.names_apart(),
            0 <= id < self.nodes().len(),
            self.entries@[id] is Module,
        ensures
            child_containers(self.nodes()[id].2, self.entries@) == registered_under(
                self.registered(),
                path_to(self.nodes(), self.entries@, id),
            ),
    {
        let kids = self.nodes()[id].2;
        self.lemma_children_taken(id, kids.len() as int);
        assert(kids.take(kids.len() as int) =~= kids);
    }
}

impl ModuleTree {
    /// Each shorter part of the names of a module names a module above it.
    proof fn lemma_prefix_module(&self, p: int, k: int)
        requires
            self.grown(),
            0 <= p < self.nodes().len(),
            self.entries@[p] is Module,
            0 <= k <= path_to(self.nodes(), self.entries@, p).len(),
        ensures
            exists|q: int|
                0 <= q < self.nodes().len() && self.entries@[q] is Module && #[trigger] path_to(
                    self.nodes(),
                    self.entries@,
                    q,
                ) == path_to(self.nodes(), self.entries@, p).take(k),
        decreases p,
    {
        let n = self.nodes();
        let e = self.entries@;
        let tp = path_to(n, e, p);
        if k == tp.len() {
            assert(tp.take(k) =~= tp);
        } else {
            assert(p != 0);
            let pp = n[p].1->0;
            assert(n[p].1 matches Some(x) && x < p && e[x as int] is Module);
            self.lemma_path_above_parent(p, pp as int);
            assert(n[p].0 == p);
            assert(tp == path_to(n, e, pp as int).push(module_name(e[p])));
            self.lemma_prefix_module(pp as int, k);
            let q = choose|q: int|
                0 <= q < n.len() && e[q] is Module && #[trigger] path_to(n, e, q) == path_to(
                    n,
                    e,
                    pp as int,
                ).take(k);
            assert(path_to(n, e, pp as int).take(k) =~= tp.take(k));
            assert(path_to(n, e, q) == tp.take(k));
        }
    }
}

impl ContainerCollection {
    /// Whether a module of the collection has the names `names` from the
    /// top down.
    pub open spec fn names_a_module(&self, names: Seq<Seq<char>>) -> bool {
        exists|id: u128| self.module_at(id) && #[trigger] self.names_to(id) == names
    }

    /// Each module directly below a module of a collection fresh from its
    /// registry has the names of that module and its own name after them.
    proof fn lemma_grown_modules_below(&self, id: u128, m: u128)
        requires
            self.tree.grown(),
            self.module_at(id),
            self.modules_at(id).contains(m),
        ensures
            self.module_at(m),
            self.names_to(m) == self.names_to(id).push(self.name_at(m)),
    {
        let n = self.tree.nodes();
        let e = self.tree.entries@;
        lemma_index_from_bounds(n, id, 0);
        let k = index_of(n, id)->0;
        assert(n[k].0 == k);
        let kids = n[k].2;
        assert(self.tree.kids(id) == kids);
        let cm = child_modules(kids, e);
        lemma_child_modules_members(kids, e);
        let hp = height_pairs(n, cm);
        lemma_sorted_desc_from(hp);
        let sd = sorted_desc(hp);
        let ms = self.modules_at(id);
        let a = choose|a: int| 0 <= a < ms.len() && ms[a] == m;
        assert(ms[a] == sd[a].0);
        let w = choose|w: int| 0 <= w < hp.len() && hp[w] == sd[a];
        assert(hp[w].0 == cm[w]);
        assert(kids.contains(cm[w]) && e[cm[w] as int] is Module);
        let b = choose|b: int| 0 <= b < kids.len() && kids[b] == m;
        assert(k < m < n.len());
        assert(n[m as int].1 == Some(k as u128));
        assert(n[m as int].0 == m);
        lemma_index_of_position(n, m as int);
        self.tree.lemma_path_above_parent(m as int, k);
        assert(m < e.len());
    }

    /// Each module but the root of a collection fresh from its registry
    /// stands directly below some module.
    proof fn lemma_grown_parent(&self, q: u128)
        requires
            self.tree.grown(),
            self.module_at(q),
            self.names_to(q).len() > 0,
        ensures
            exists|p: u128| self.module_at(p) && #[trigger] self.modules_at(p).contains(q),
    {
        let n = self.tree.nodes();
        let e = self.tree.entries@;
        lemma_index_from_bounds(n, q, 0);
        let k = index_of(n, q)->0;
        assert(n[k].0 == k);
        assert(k == q as int);
        assert(k != 0);
        assert(n[k].1 matches Some(x) && x < k && e[x as int] is Module);
        let p = n[k].1->0;
        assert(n[n[k].1->0 as int].2.contains(k as u128));
        assert(n[p as int].2.contains(q));
        assert(n[p as int].0 == p);
        lemma_index_of_position(n, p as int);
        assert(self.tree.kids(p) == n[p as int].2);
        lemma_child_modules_contains(n[p as int].2, e, q);
        let cm = child_modules(n[p as int].2, e);
        let hp = height_pairs(n, cm);
        let j = choose|j: int| 0 <= j < cm.len() && cm[j] == q;
        assert(hp[j].0 == q);
        assert(hp.contains(hp[j]));
        lemma_sorted_desc_contains(hp, hp[j]);
        let sd = sorted_desc(hp);
        let a = choose|a: int| 0 <= a < sd.len() && sd[a] == hp[j];
        let ms = self.modules_at(p);
        assert(ms[a] == q);
        assert(ms.contains(q));
        assert(self.module_at(p));
    }
}

} // verus!
