//! Descriptions of the value types that bindings are generated for.
use vstd::prelude::*;

use crate::path::Path;

verus! {

/// The description of a value type.
#[derive(Debug, PartialEq, Eq)]
pub enum ValueType {
    Number(NumberMeta),
    Array(ArrayMeta),
    String(StringMeta),
    Object(ObjectMeta),
    Optional(OptionalMeta),
    Range(RangeMeta),
    Mapping(MapMeta),
    Tuple(TupleMeta),
    Bool(BoolMeta),
}

/// A map from keys of one type to values of another.
#[derive(Debug, Clone, PartialEq, Eq)]
pub struct MapMeta {
    pub key_type: Box<ValueType>,
    pub value_type: Box<ValueType>,
    pub max_length: Option<usize>,
}

/// A range with bounds of one type.
#[derive(Debug, Clone, PartialEq, Eq)]
pub struct RangeMeta {
    pub bounds_type: Box<ValueType>,
}

/// A value that may be absent.
#[derive(Debug, Clone, PartialEq, Eq)]
pub struct OptionalMeta {
    pub inner: Box<ValueType>,
}

/// A number: an integer of some width and sign, or a floating point
/// number of some width.
#[derive(Debug, Clone, Copy, PartialEq, Eq, Structural)]
pub enum NumberMeta {
    Integer { bytes: usize, signed: bool, zero_able: bool },
    FloatingPoint { bytes: usize },
}

/// A sequence of items of one type, of a fixed length or a bounded one
/// where the type says so.
#[derive(Debug, Clone, PartialEq, Eq)]
pub struct ArrayMeta {
    pub items_type: Box<ValueType>,
    pub length: Option<usize>,
    pub max_length: Option<usize>,
}

/// A string, maybe of bounded length.
#[derive(Debug, Clone, Copy, PartialEq, Eq, Structural)]
pub struct StringMeta {
    pub max_length: Option<usize>,
}

/// A reference to a container type for which bindings are generated.
#[derive(Debug, Clone, PartialEq, Eq)]
pub struct ObjectMeta {
    pub name: &'static str,
    pub path: Path,
}

/// A tuple of values of the given types.
#[derive(Debug, Clone, PartialEq, Eq)]
pub struct TupleMeta {
    pub items_types: Vec<ValueType>,
}

/// A boolean.
#[derive(Debug, Clone, Copy, PartialEq, Eq, Structural)]
pub struct BoolMeta;

/// Whether `new` is `old` with the paths of all object types it mentions
/// flattened. The bounds of a range are left as they are.
pub open spec fn paths_flattened(old: ValueType, new: ValueType) -> bool
    decreases old,
{
    match (old, new) {
        (ValueType::Number(a), ValueType::Number(b)) => a == b,
        (ValueType::String(a), ValueType::String(b)) => a == b,
        (ValueType::Bool(_), ValueType::Bool(_)) => true,
        (ValueType::Range(a), ValueType::Range(b)) => a == b,
        (ValueType::Object(a), ValueType::Object(b)) => a.name == b.name && b.path@ == (
            None::<Seq<char>>,
            a.path@.1,
        ),
        (ValueType::Array(a), ValueType::Array(b)) => a.length == b.length && a.max_length
            == b.max_length && paths_flattened(*a.items_type, *b.items_type),
        (ValueType::Optional(a), ValueType::Optional(b)) => paths_flattened(*a.inner, *b.inner),
        (ValueType::Mapping(a), ValueType::Mapping(b)) => a.max_length == b.max_length && paths_flattened(
            *a.key_type,
            *b.key_type,
        ) && paths_flattened(*a.value_type, *b.value_type),
        (ValueType::Tuple(a), ValueType::Tuple(b)) => a.items_types@.len() == b.items_types@.len()
            && forall|i: int|
            0 <= i < a.items_types@.len() ==> paths_flattened(
                #[trigger] a.items_types@[i],
                b.items_types@[i],
            ),
        _ => false,
    }
}

/// Whether `b` describes the same type as `a`: the same shape, the same
/// numbers, names and bounds, and paths with the same parts and joiner.
pub open spec fn same_type(a: ValueType, b: ValueType) -> bool
    decreases a,
{
    match (a, b) {
        (ValueType::Number(x), ValueType::Number(y)) => x == y,
        (ValueType::String(x), ValueType::String(y)) => x == y,
        (ValueType::Bool(_), ValueType::Bool(_)) => true,
        (ValueType::Range(x), ValueType::Range(y)) => same_type(*x.bounds_type, *y.bounds_type),
        (ValueType::Object(x), ValueType::Object(y)) => x.name == y.name && x.path@ == y.path@,
        (ValueType::Array(x), ValueType::Array(y)) => x.length == y.length && x.max_length
            == y.max_length && same_type(*x.items_type, *y.items_type),
        (ValueType::Optional(x), ValueType::Optional(y)) => same_type(*x.inner, *y.inner),
        (ValueType::Mapping(x), ValueType::Mapping(y)) => x.max_length == y.max_length && same_type(
            *x.key_type,
            *y.key_type,
        ) && same_type(*x.value_type, *y.value_type),
        (ValueType::Tuple(x), ValueType::Tuple(y)) => x.items_types@.len() == y.items_types@.len()
            && forall|i: int|
            0 <= i < x.items_types@.len() ==> same_type(
                #[trigger] x.items_types@[i],
                y.items_types@[i],
            ),
        _ => false,
    }
}

impl ValueType {
    /// A copy of this type description.
    pub fn duplicate(&self) -> (r: ValueType)
        ensures
            same_type(*self, r),
        decreases *self,
    {
        match self {
            ValueType::Number(meta) => ValueType::Number(*meta),
            ValueType::String(meta) => ValueType::String(*meta),
            ValueType::Bool(meta) => ValueType::Bool(*meta),
            ValueType::Object(meta) => ValueType::Object(
                ObjectMeta { name: meta.name, path: meta.path.duplicate() },
            ),
            ValueType::Range(meta) => ValueType::Range(
                RangeMeta { bounds_type: Box::new(meta.bounds_type.duplicate()) },
            ),
            ValueType::Optional(meta) => ValueType::Optional(
                OptionalMeta { inner: Box::new(meta.inner.duplicate()) },
            ),
            ValueType::Array(meta) => ValueType::Array(
                ArrayMeta {
                    items_type: Box::new(meta.items_type.duplicate()),
                    length: meta.length,
                    max_length: meta.max_length,
                },
            ),
            ValueType::Mapping(meta) => ValueType::Mapping(
                MapMeta {
                    key_type: Box::new(meta.key_type.duplicate()),
                    value_type: Box::new(meta.value_type.duplicate()),
                    max_length: meta.max_length,
                },
            ),
            ValueType::Tuple(meta) => {
                let n = meta.items_types.len();
                let mut items: Vec<ValueType> = Vec::new();
                let mut i: usize = 0;
                while i < n
                    invariant
                        n == meta.items_types@.len(),
                        *self is Tuple,
                        self->Tuple_0 == *meta,
                        i <= n,
                        items@.len() == i,
                        forall|k: int| 0 <= k < i ==> same_type(
                            #[trigger] meta.items_types@[k],
                            items@[k],
                        ),
                    decreases n - i,
                {
                    proof {
                        let ghost items0 = meta.items_types;
                        assert(decreases_to!(*self => *meta));
                        assert(decreases_to!(*meta => items0));
                        assert(decreases_to!(items0 => items0@));
                        assert(decreases_to!(items0@ => items0@[i as int]));
                    }
                    let item = meta.items_types[i].duplicate();
                    items.push(item);
                    i = i + 1;
                }
                ValueType::Tuple(TupleMeta { items_types: items })
            },
        }
    }
}

impl Clone for ValueType {
    /// A copy of this type description.
    fn clone(&self) -> (r: ValueType)
        ensures
            same_type(*self, r),
    {
        self.duplicate()
    }
}

impl ValueType {
    /// Flattens the paths of all object types that this type mentions.
    pub fn flatten_paths(&mut self)
        ensures
            paths_flattened(*old(self), *final(self)),
        decreases *old(self),
    {
        match self {
            ValueType::Object(meta) => {
                meta.path.flatten();
            },
            ValueType::Array(meta) => {
                meta.items_type.flatten_paths();
            },
            ValueType::Optional(meta) => {
                meta.inner.flatten_paths();
            },
            ValueType::Mapping(meta) => {
                meta.key_type.flatten_paths();
                meta.value_type.flatten_paths();
            },
            ValueType::Tuple(meta) => {
                let n = meta.items_types.len();
                let mut i: usize = 0;
                while i < n
                    invariant
                        n == meta.items_types@.len(),
                        *old(self) is Tuple,
                        old(self)->Tuple_0.items_types@.len() == n,
                        i <= n,
                        forall|k: int| 0 <= k < i ==> paths_flattened(
                            #[trigger] old(self)->Tuple_0.items_types@[k],
                            meta.items_types@[k],
                        ),
                        forall|k: int| i <= k < n ==> meta.items_types@[k] == old(
                            self,
                        )->Tuple_0.items_types@[k],
                    decreases n - i,
                {
                    proof {
                        let ghost tm = old(self)->Tuple_0;
                        let ghost items = tm.items_types;
                        assert(decreases_to!(*old(self) => tm));
                        assert(decreases_to!(tm => items));
                        assert(decreases_to!(items => items@));
                        assert(decreases_to!(items@ => items@[i as int]));
                    }
                    meta.items_types[i].flatten_paths();
                    i = i + 1;
                }
            },
            _ => {},
        }
    }
}

/// A type whose description can be generated bindings for.
///
/// Implementations exist for the primitive types, the collections of
/// `std` and `heapless` and tuples of up to fifteen items; the derive of the
/// bindings implements it for the user's own containers.
pub trait GenBinding {
    /// Whether `v` is the description of this type.
    spec fn describes(v: ValueType) -> bool;

    /// The description of this type.
    fn get_type() -> (r: ValueType)
        ensures
            Self::describes(r),
    ;
}

/// Whether `v` describes an integer of the given width and sign.
pub open spec fn is_integer(v: ValueType, bytes: usize, signed: bool, zero_able: bool) -> bool {
    v == ValueType::Number(NumberMeta::Integer { bytes, signed, zero_able })
}

/// Whether `v` describes a sequence of items that `item` describes.
pub open spec fn is_array(
    v: ValueType,
    item: spec_fn(ValueType) -> bool,
    length: Option<usize>,
    max_length: Option<usize>,
) -> bool {
    &&& v is Array
    &&& item(*v->Array_0.items_type)
    &&& v->Array_0.length == length
    &&& v->Array_0.max_length == max_length
}

/// Whether `v` describes a map with keys and values that `key` and `value`
/// describe.
pub open spec fn is_map(
    v: ValueType,
    key: spec_fn(ValueType) -> bool,
    value: spec_fn(ValueType) -> bool,
    max_length: Option<usize>,
) -> bool {
    &&& v is Mapping
    &&& key(*v->Mapping_0.key_type)
    &&& value(*v->Mapping_0.value_type)
    &&& v->Mapping_0.max_length == max_length
}

/// Whether `v` describes a tuple whose items `items` describe, one by one.
pub open spec fn is_tuple(v: ValueType, items: Seq<spec_fn(ValueType) -> bool>) -> bool {
    &&& v is Tuple
    &&& v->Tuple_0.items_types@.len() == items.len()
    &&& forall|i: int|
        0 <= i < items.len() ==> #[trigger] items[i](v->Tuple_0.items_types@[i])
}

fn array_of(items_type: ValueType, length: Option<usize>, max_length: Option<usize>) -> (r:
    ValueType)
    ensures
        r is Array,
        *r->Array_0.items_type == items_type,
        r->Array_0.length == length,
        r->Array_0.max_length == max_length,
{
    ValueType::Array(ArrayMeta { items_type: Box::new(items_type), length, max_length })
}

fn map_of(key_type: ValueType, value_type: ValueType, max_length: Option<usize>) -> (r: ValueType)
    ensures
        r is Mapping,
        *r->Mapping_0.key_type == key_type,
        *r->Mapping_0.value_type == value_type,
        r->Mapping_0.max_length == max_length,
{
    ValueType::Mapping(
        MapMeta { key_type: Box::new(key_type), value_type: Box::new(value_type), max_length },
    )
}

impl GenBinding for u8 {
    open spec fn describes(v: ValueType) -> bool {
        is_integer(v, 1, false, true)
    }

    fn get_type() -> (r: ValueType) {
        ValueType::Number(NumberMeta::Integer { bytes: 1, signed: false, zero_able: true })
    }
}

impl GenBinding for u16 {
    open spec fn describes(v: ValueType) -> bool {
        is_integer(v, 2, false, true)
    }

    fn get_type() -> (r: ValueType) {
        ValueType::Number(NumberMeta::Integer { bytes: 2, signed: false, zero_able: true })
    }
}

impl GenBinding for u32 {
    open spec fn describes(v: ValueType) -> bool {
        is_integer(v, 4, false, true)
    }

    fn get_type() -> (r: ValueType) {
        ValueType::Number(NumberMeta::Integer { bytes: 4, signed: false, zero_able: true })
    }
}

impl GenBinding for u64 {
    open spec fn describes(v: ValueType) -> bool {
        is_integer(v, 8, false, true)
    }

    fn get_type() -> (r: ValueType) {
        ValueType::Number(NumberMeta::Integer { bytes: 8, signed: false, zero_able: true })
    }
}

impl GenBinding for u128 {
    open spec fn describes(v: ValueType) -> bool {
        is_integer(v, 1, false, true)
    }

    fn get_type() -> (r: ValueType) {
        ValueType::Number(NumberMeta::Integer { bytes: 1, signed: false, zero_able: true })
    }
}

impl GenBinding for i8 {
    open spec fn describes(v: ValueType) -> bool {
        is_integer(v, 1, true, true)
    }

    fn get_type() -> (r: ValueType) {
        ValueType::Number(NumberMeta::Integer { bytes: 1, signed: true, zero_able: true })
    }
}

impl GenBinding for i16 {
    open spec fn describes(v: ValueType) -> bool {
        is_integer(v, 2, true, true)
    }

    fn get_type() -> (r: ValueType) {
        ValueType::Number(NumberMeta::Integer { bytes: 2, signed: true, zero_able: true })
    }
}

impl GenBinding for i32 {
    open spec fn describes(v: ValueType) -> bool {
        is_integer(v, 4, true, true)
    }

    fn get_type() -> (r: ValueType) {
        ValueType::Number(NumberMeta::Integer { bytes: 4, signed: true, zero_able: true })
    }
}

impl GenBinding for i64 {
    open spec fn describes(v: ValueType) -> bool {
        is_integer(v, 8, true, true)
    }

    fn get_type() -> (r: ValueType) {
        ValueType::Number(NumberMeta::Integer { bytes: 8, signed: true, zero_able: true })
    }
}

impl GenBinding for i128 {
    open spec fn describes(v: ValueType) -> bool {
        is_integer(v, 16, true, true)
    }

    fn get_type() -> (r: ValueType) {
        ValueType::Number(NumberMeta::Integer { bytes: 16, signed: true, zero_able: true })
    }
}

impl GenBinding for usize {
    open spec fn describes(v: ValueType) -> bool {
        is_integer(v, 4, false, true)
    }

    fn get_type() -> (r: ValueType) {
        ValueType::Number(NumberMeta::Integer { bytes: 4, signed: false, zero_able: true })
    }
}

impl GenBinding for isize {
    open spec fn describes(v: ValueType) -> bool {
        is_integer(v, 4, true, true)
    }

    fn get_type() -> (r: ValueType) {
        ValueType::Number(NumberMeta::Integer { bytes: 4, signed: true, zero_able: true })
    }
}

impl<T: GenBinding> GenBinding for &mut T {
    open spec fn describes(v: ValueType) -> bool {
        T::describes(v)
    }

    fn get_type() -> (r: ValueType) {
        T::get_type()
    }
}

impl<T: GenBinding> GenBinding for Option<T> {
    open spec fn describes(v: ValueType) -> bool {
        v is Optional && T::describes(*v->Optional_0.inner)
    }

    fn get_type() -> (r: ValueType) {
        ValueType::Optional(OptionalMeta { inner: Box::new(T::get_type()) })
    }
}

impl<T: GenBinding> GenBinding for &[T] {
    open spec fn describes(v: ValueType) -> bool {
        is_array(v, |x: ValueType| T::describes(x), None, None)
    }

    fn get_type() -> (r: ValueType) {
        array_of(T::get_type(), None, None)
    }
}

impl<T: GenBinding> GenBinding for [T] {
    open spec fn describes(v: ValueType) -> bool {
        is_array(v, |x: ValueType| T::describes(x), None, None)
    }

    fn get_type() -> (r: ValueType) {
        array_of(T::get_type(), None, None)
    }
}

impl<T: GenBinding, const S: usize> GenBinding for [T; S] {
    open spec fn describes(v: ValueType) -> bool {
        is_array(v, |x: ValueType| T::describes(x), Some(S), Some(S))
    }

    fn get_type() -> (r: ValueType) {
        array_of(T::get_type(), Some(S), Some(S))
    }
}

impl GenBinding for &str {
    open spec fn describes(v: ValueType) -> bool {
        v == ValueType::String(StringMeta { max_length: None })
    }

    fn get_type() -> (r: ValueType) {
        ValueType::String(StringMeta { max_length: None })
    }
}

impl<T: GenBinding> GenBinding for core::ops::Range<T> {
    open spec fn describes(v: ValueType) -> bool {
        v is Range && T::describes(*v->Range_0.bounds_type)
    }

    fn get_type() -> (r: ValueType) {
        ValueType::Range(RangeMeta { bounds_type: Box::new(T::get_type()) })
    }
}

impl GenBinding for bool {
    open spec fn describes(v: ValueType) -> bool {
        v == ValueType::Bool(BoolMeta)
    }

    fn get_type() -> (r: ValueType) {
        ValueType::Bool(BoolMeta)
    }
}

impl<K: GenBinding, V: GenBinding> GenBinding for std::collections::BTreeMap<K, V> {
    open spec fn describes(v: ValueType) -> bool {
        is_map(v, |x: ValueType| K::describes(x), |x: ValueType| V::describes(x), None)
    }

    fn get_type() -> (r: ValueType) {
        map_of(K::get_type(), V::get_type(), None)
    }
}

impl GenBinding for String {
    open spec fn describes(v: ValueType) -> bool {
        v == ValueType::String(StringMeta { max_length: None })
    }

    fn get_type() -> (r: ValueType) {
        ValueType::String(StringMeta { max_length: None })
    }
}

impl<T: GenBinding> GenBinding for Vec<T> {
    open spec fn describes(v: ValueType) -> bool {
        is_array(v, |x: ValueType| T::describes(x), None, None)
    }

    fn get_type() -> (r: ValueType) {
        array_of(T::get_type(), None, None)
    }
}

impl<T: GenBinding> GenBinding for std::rc::Rc<T> {
    open spec fn describes(v: ValueType) -> bool {
        T::describes(v)
    }

    fn get_type() -> (r: ValueType) {
        T::get_type()
    }
}

impl<T: GenBinding> GenBinding for std::sync::Arc<T> {
    open spec fn describes(v: ValueType) -> bool {
        T::describes(v)
    }

    fn get_type() -> (r: ValueType) {
        T::get_type()
    }
}

impl<K: GenBinding, V: GenBinding> GenBinding for std::collections::HashMap<K, V> {
    open spec fn describes(v: ValueType) -> bool {
        is_map(v, |x: ValueType| K::describes(x), |x: ValueType| V::describes(x), None)
    }

    fn get_type() -> (r: ValueType) {
        map_of(K::get_type(), V::get_type(), None)
    }
}

impl<T0: GenBinding> GenBinding for (T0,) {
    open spec fn describes(v: ValueType) -> bool {
        is_tuple(v, seq![|x: ValueType| T0::describes(x)])
    }

    fn get_type() -> (r: ValueType) {
        let mut items: Vec<ValueType> = Vec::new();
        items.push(T0::get_type());
        let r = ValueType::Tuple(TupleMeta { items_types: items });
        assert(is_tuple(r, seq![|x: ValueType| T0::describes(x)]));
        r
    }
}

impl<T0: GenBinding, T1: GenBinding> GenBinding for (T0, T1) {
    open spec fn describes(v: ValueType) -> bool {
        is_tuple(v, seq![|x: ValueType| T0::describes(x), |x: ValueType| T1::describes(x)])
    }

    fn get_type() -> (r: ValueType) {
        let mut items: Vec<ValueType> = Vec::new();
        items.push(T0::get_type());
        items.push(T1::get_type());
        let r = ValueType::Tuple(TupleMeta { items_types: items });
        assert(is_tuple(r, seq![|x: ValueType| T0::describes(x), |x: ValueType| T1::describes(x)]));
        r
    }
}

impl<T0: GenBinding, T1: GenBinding, T2: GenBinding> GenBinding for (T0, T1, T2) {
    open spec fn describes(v: ValueType) -> bool {
        is_tuple(v, seq![|x: ValueType| T0::describes(x), |x: ValueType| T1::describes(x), |x: ValueType| T2::describes(x)])
    }

    fn get_type() -> (r: ValueType) {
        let mut items: Vec<ValueType> = Vec::new();
        items.push(T0::get_type());
        items.push(T1::get_type());
        items.push(T2::get_type());
        let r = ValueType::Tuple(TupleMeta { items_types: items });
        assert(is_tuple(r, seq![|x: ValueType| T0::describes(x), |x: ValueType| T1::describes(x), |x: ValueType| T2::describes(x)]));
        r
    }
}

impl<T0: GenBinding, T1: GenBinding, T2: GenBinding, T3: GenBinding> GenBinding for (T0, T1, T2, T3) {
    open spec fn describes(v: ValueType) -> bool {
        is_tuple(v, seq![|x: ValueType| T0::describes(x), |x: ValueType| T1::describes(x), |x: ValueType| T2::describes(x), |x: ValueType| T3::describes(x)])
    }

    fn get_type() -> (r: ValueType) {
        let mut items: Vec<ValueType> = Vec::new();
        items.push(T0::get_type());
        items.push(T1::get_type());
        items.push(T2::get_type());
        items.push(T3::get_type());
        let r = ValueType::Tuple(TupleMeta { items_types: items });
        assert(is_tuple(r, seq![|x: ValueType| T0::describes(x), |x: ValueType| T1::describes(x), |x: ValueType| T2::describes(x), |x: ValueType| T3::describes(x)]));
        r
    }
}

impl<T0: GenBinding, T1: GenBinding, T2: GenBinding, T3: GenBinding, T4: GenBinding> GenBinding for (T0, T1, T2, T3, T4) {
    open spec fn describes(v: ValueType) -> bool {
        is_tuple(v, seq![|x: ValueType| T0::describes(x), |x: ValueType| T1::describes(x), |x: ValueType| T2::describes(x), |x: ValueType| T3::describes(x), |x: ValueType| T4::describes(x)])
    }

    fn get_type() -> (r: ValueType) {
        let mut items: Vec<ValueType> = Vec::new();
        items.push(T0::get_type());
        items.push(T1::get_type());
        items.push(T2::get_type());
        items.push(T3::get_type());
        items.push(T4::get_type());
        let r = ValueType::Tuple(TupleMeta { items_types: items });
        assert(is_tuple(r, seq![|x: ValueType| T0::describes(x), |x: ValueType| T1::describes(x), |x: ValueType| T2::describes(x), |x: ValueType| T3::describes(x), |x: ValueType| T4::describes(x)]));
        r
    }
}

impl<T0: GenBinding, T1: GenBinding, T2: GenBinding, T3: GenBinding, T4: GenBinding, T5: GenBinding> GenBinding for (T0, T1, T2, T3, T4, T5) {
    open spec fn describes(v: ValueType) -> bool {
        is_tuple(v, seq![|x: ValueType| T0::describes(x), |x: ValueType| T1::describes(x), |x: ValueType| T2::describes(x), |x: ValueType| T3::describes(x), |x: ValueType| T4::describes(x), |x: ValueType| T5::describes(x)])
    }

    fn get_type() -> (r: ValueType) {
        let mut items: Vec<ValueType> = Vec::new();
        items.push(T0::get_type());
        items.push(T1::get_type());
        items.push(T2::get_type());
        items.push(T3::get_type());
        items.push(T4::get_type());
        items.push(T5::get_type());
        let r = ValueType::Tuple(TupleMeta { items_types: items });
        assert(is_tuple(r, seq![|x: ValueType| T0::describes(x), |x: ValueType| T1::describes(x), |x: ValueType| T2::describes(x), |x: ValueType| T3::describes(x), |x: ValueType| T4::describes(x), |x: ValueType| T5::describes(x)]));
        r
    }
}

impl<T0: GenBinding, T1: GenBinding, T2: GenBinding, T3: GenBinding, T4: GenBinding, T5: GenBinding, T6: GenBinding> GenBinding for (T0, T1, T2, T3, T4, T5, T6) {
    open spec fn describes(v: ValueType) -> bool {
        is_tuple(v, seq![|x: ValueType| T0::describes(x), |x: ValueType| T1::describes(x), |x: ValueType| T2::describes(x), |x: ValueType| T3::describes(x), |x: ValueType| T4::describes(x), |x: ValueType| T5::describes(x), |x: ValueType| T6::describes(x)])
    }

    fn get_type() -> (r: ValueType) {
        let mut items: Vec<ValueType> = Vec::new();
        items.push(T0::get_type());
        items.push(T1::get_type());
        items.push(T2::get_type());
        items.push(T3::get_type());
        items.push(T4::get_type());
        items.push(T5::get_type());
        items.push(T6::get_type());
        let r = ValueType::Tuple(TupleMeta { items_types: items });
        assert(is_tuple(r, seq![|x: ValueType| T0::describes(x), |x: ValueType| T1::describes(x), |x: ValueType| T2::describes(x), |x: ValueType| T3::describes(x), |x: ValueType| T4::describes(x), |x: ValueType| T5::describes(x), |x: ValueType| T6::describes(x)]));
        r
    }
}

impl<T0: GenBinding, T1: GenBinding, T2: GenBinding, T3: GenBinding, T4: GenBinding, T5: GenBinding, T6: GenBinding, T7: GenBinding> GenBinding for (T0, T1, T2, T3, T4, T5, T6, T7) {
    open spec fn describes(v: ValueType) -> bool {
        is_tuple(v, seq![|x: ValueType| T0::describes(x), |x: ValueType| T1::describes(x), |x: ValueType| T2::describes(x), |x: ValueType| T3::describes(x), |x: ValueType| T4::describes(x), |x: ValueType| T5::describes(x), |x: ValueType| T6::describes(x), |x: ValueType| T7::describes(x)])
    }

    fn get_type() -> (r: ValueType) {
        let mut items: Vec<ValueType> = Vec::new();
        items.push(T0::get_type());
        items.push(T1::get_type());
        items.push(T2::get_type());
        items.push(T3::get_type());
        items.push(T4::get_type());
        items.push(T5::get_type());
        items.push(T6::get_type());
        items.push(T7::get_type());
        let r = ValueType::Tuple(TupleMeta { items_types: items });
        assert(is_tuple(r, seq![|x: ValueType| T0::describes(x), |x: ValueType| T1::describes(x), |x: ValueType| T2::describes(x), |x: ValueType| T3::describes(x), |x: ValueType| T4::describes(x), |x: ValueType| T5::describes(x), |x: ValueType| T6::describes(x), |x: ValueType| T7::describes(x)]));
        r
    }
}

impl<T0: GenBinding, T1: GenBinding, T2: GenBinding, T3: GenBinding, T4: GenBinding, T5: GenBinding, T6: GenBinding, T7: GenBinding, T8: GenBinding> GenBinding for (T0, T1, T2, T3, T4, T5, T6, T7, T8) {
    open spec fn describes(v: ValueType) -> bool {
        is_tuple(v, seq![|x: ValueType| T0::describes(x), |x: ValueType| T1::describes(x), |x: ValueType| T2::describes(x), |x: ValueType| T3::describes(x), |x: ValueType| T4::describes(x), |x: ValueType| T5::describes(x), |x: ValueType| T6::describes(x), |x: ValueType| T7::describes(x), |x: ValueType| T8::describes(x)])
    }

    fn get_type() -> (r: ValueType) {
        let mut items: Vec<ValueType> = Vec::new();
        items.push(T0::get_type());
        items.push(T1::get_type());
        items.push(T2::get_type());
        items.push(T3::get_type());
        items.push(T4::get_type());
        items.push(T5::get_type());
        items.push(T6::get_type());
        items.push(T7::get_type());
        items.push(T8::get_type());
        let r = ValueType::Tuple(TupleMeta { items_types: items });
        assert(is_tuple(r, seq![|x: ValueType| T0::describes(x), |x: ValueType| T1::describes(x), |x: ValueType| T2::describes(x), |x: ValueType| T3::describes(x), |x: ValueType| T4::describes(x), |x: ValueType| T5::describes(x), |x: ValueType| T6::describes(x), |x: ValueType| T7::describes(x), |x: ValueType| T8::describes(x)]));
        r
    }
}

impl<T0: GenBinding, T1: GenBinding, T2: GenBinding, T3: GenBinding, T4: GenBinding, T5: GenBinding, T6: GenBinding, T7: GenBinding, T8: GenBinding, T9: GenBinding> GenBinding for (T0, T1, T2, T3, T4, T5, T6, T7, T8, T9) {
    open spec fn describes(v: ValueType) -> bool {
        is_tuple(v, seq![|x: ValueType| T0::describes(x), |x: ValueType| T1::describes(x), |x: ValueType| T2::describes(x), |x: ValueType| T3::describes(x), |x: ValueType| T4::describes(x), |x: ValueType| T5::describes(x), |x: ValueType| T6::describes(x), |x: ValueType| T7::describes(x), |x: ValueType| T8::describes(x), |x: ValueType| T9::describes(x)])
    }

    fn get_type() -> (r: ValueType) {
        let mut items: Vec<ValueType> = Vec::new();
        items.push(T0::get_type());
        items.push(T1::get_type());
        items.push(T2::get_type());
        items.push(T3::get_type());
        items.push(T4::get_type());
        items.push(T5::get_type());
        items.push(T6::get_type());
        items.push(T7::get_type());
        items.push(T8::get_type());
        items.push(T9::get_type());
        let r = ValueType::Tuple(TupleMeta { items_types: items });
        assert(is_tuple(r, seq![|x: ValueType| T0::describes(x), |x: ValueType| T1::describes(x), |x: ValueType| T2::describes(x), |x: ValueType| T3::describes(x), |x: ValueType| T4::describes(x), |x: ValueType| T5::describes(x), |x: ValueType| T6::describes(x), |x: ValueType| T7::describes(x), |x: ValueType| T8::describes(x), |x: ValueType| T9::describes(x)]));
        r
    }
}

impl<T0: GenBinding, T1: GenBinding, T2: GenBinding, T3: GenBinding, T4: GenBinding, T5: GenBinding, T6: GenBinding, T7: GenBinding, T8: GenBinding, T9: GenBinding, T10: GenBinding> GenBinding for (T0, T1, T2, T3, T4, T5, T6, T7, T8, T9, T10) {
    open spec fn describes(v: ValueType) -> bool {
        is_tuple(v, seq![|x: ValueType| T0::describes(x), |x: ValueType| T1::describes(x), |x: ValueType| T2::describes(x), |x: ValueType| T3::describes(x), |x: ValueType| T4::describes(x), |x: ValueType| T5::describes(x), |x: ValueType| T6::describes(x), |x: ValueType| T7::describes(x), |x: ValueType| T8::describes(x), |x: ValueType| T9::describes(x), |x: ValueType| T10::describes(x)])
    }

    fn get_type() -> (r: ValueType) {
        let mut items: Vec<ValueType> = Vec::new();
        items.push(T0::get_type());
        items.push(T1::get_type());
        items.push(T2::get_type());
        items.push(T3::get_type());
        items.push(T4::get_type());
        items.push(T5::get_type());
        items.push(T6::get_type());
        items.push(T7::get_type());
        items.push(T8::get_type());
        items.push(T9::get_type());
        items.push(T10::get_type());
        let r = ValueType::Tuple(TupleMeta { items_types: items });
        assert(is_tuple(r, seq![|x: ValueType| T0::describes(x), |x: ValueType| T1::describes(x), |x: ValueType| T2::describes(x), |x: ValueType| T3::describes(x), |x: ValueType| T4::describes(x), |x: ValueType| T5::describes(x), |x: ValueType| T6::describes(x), |x: ValueType| T7::describes(x), |x: ValueType| T8::describes(x), |x: ValueType| T9::describes(x), |x: ValueType| T10::describes(x)]));
        r
    }
}

impl<T0: GenBinding, T1: GenBinding, T2: GenBinding, T3: GenBinding, T4: GenBinding, T5: GenBinding, T6: GenBinding, T7: GenBinding, T8: GenBinding, T9: GenBinding, T10: GenBinding, T11: GenBinding> GenBinding for (T0, T1, T2, T3, T4, T5, T6, T7, T8, T9, T10, T11) {
    open spec fn describes(v: ValueType) -> bool {
        is_tuple(v, seq![|x: ValueType| T0::describes(x), |x: ValueType| T1::describes(x), |x: ValueType| T2::describes(x), |x: ValueType| T3::describes(x), |x: ValueType| T4::describes(x), |x: ValueType| T5::describes(x), |x: ValueType| T6::describes(x), |x: ValueType| T7::describes(x), |x: ValueType| T8::describes(x), |x: ValueType| T9::describes(x), |x: ValueType| T10::describes(x), |x: ValueType| T11::describes(x)])
    }

    fn get_type() -> (r: ValueType) {
        let mut items: Vec<ValueType> = Vec::new();
        items.push(T0::get_type());
        items.push(T1::get_type());
        items.push(T2::get_type());
        items.push(T3::get_type());
        items.push(T4::get_type());
        items.push(T5::get_type());
        items.push(T6::get_type());
        items.push(T7::get_type());
        items.push(T8::get_type());
        items.push(T9::get_type());
        items.push(T10::get_type());
        items.push(T11::get_type());
        let r = ValueType::Tuple(TupleMeta { items_types: items });
        assert(is_tuple(r, seq![|x: ValueType| T0::describes(x), |x: ValueType| T1::describes(x), |x: ValueType| T2::describes(x), |x: ValueType| T3::describes(x), |x: ValueType| T4::describes(x), |x: ValueType| T5::describes(x), |x: ValueType| T6::describes(x), |x: ValueType| T7::describes(x), |x: ValueType| T8::describes(x), |x: ValueType| T9::describes(x), |x: ValueType| T10::describes(x), |x: ValueType| T11::describes(x)]));
        r
    }
}

impl<T0: GenBinding, T1: GenBinding, T2: GenBinding, T3: GenBinding, T4: GenBinding, T5: GenBinding, T6: GenBinding, T7: GenBinding, T8: GenBinding, T9: GenBinding, T10: GenBinding, T11: GenBinding, T12: GenBinding> GenBinding for (T0, T1, T2, T3, T4, T5, T6, T7, T8, T9, T10, T11, T12) {
    open spec fn describes(v: ValueType) -> bool {
        is_tuple(v, seq![|x: ValueType| T0::describes(x), |x: ValueType| T1::describes(x), |x: ValueType| T2::describes(x), |x: ValueType| T3::describes(x), |x: ValueType| T4::describes(x), |x: ValueType| T5::describes(x), |x: ValueType| T6::describes(x), |x: ValueType| T7::describes(x), |x: ValueType| T8::describes(x), |x: ValueType| T9::describes(x), |x: ValueType| T10::describes(x), |x: ValueType| T11::describes(x), |x: ValueType| T12::describes(x)])
    }

    fn get_type() -> (r: ValueType) {
        let mut items: Vec<ValueType> = Vec::new();
        items.push(T0::get_type());
        items.push(T1::get_type());
        items.push(T2::get_type());
        items.push(T3::get_type());
        items.push(T4::get_type());
        items.push(T5::get_type());
        items.push(T6::get_type());
        items.push(T7::get_type());
        items.push(T8::get_type());
        items.push(T9::get_type());
        items.push(T10::get_type());
        items.push(T11::get_type());
        items.push(T12::get_type());
        let r = ValueType::Tuple(TupleMeta { items_types: items });
        assert(is_tuple(r, seq![|x: ValueType| T0::describes(x), |x: ValueType| T1::describes(x), |x: ValueType| T2::describes(x), |x: ValueType| T3::describes(x), |x: ValueType| T4::describes(x), |x: ValueType| T5::describes(x), |x: ValueType| T6::describes(x), |x: ValueType| T7::describes(x), |x: ValueType| T8::describes(x), |x: ValueType| T9::describes(x), |x: ValueType| T10::describes(x), |x: ValueType| T11::describes(x), |x: ValueType| T12::describes(x)]));
        r
    }
}

impl<T0: GenBinding, T1: GenBinding, T2: GenBinding, T3: GenBinding, T4: GenBinding, T5: GenBinding, T6: GenBinding, T7: GenBinding, T8: GenBinding, T9: GenBinding, T10: GenBinding, T11: GenBinding, T12: GenBinding, T13: GenBinding> GenBinding for (T0, T1, T2, T3, T4, T5, T6, T7, T8, T9, T10, T11, T12, T13) {
    open spec fn describes(v: ValueType) -> bool {
        is_tuple(v, seq![|x: ValueType| T0::describes(x), |x: ValueType| T1::describes(x), |x: ValueType| T2::describes(x), |x: ValueType| T3::describes(x), |x: ValueType| T4::describes(x), |x: ValueType| T5::describes(x), |x: ValueType| T6::describes(x), |x: ValueType| T7::describes(x), |x: ValueType| T8::describes(x), |x: ValueType| T9::describes(x), |x: ValueType| T10::describes(x), |x: ValueType| T11::describes(x), |x: ValueType| T12::describes(x), |x: ValueType| T13::describes(x)])
    }

    fn get_type() -> (r: ValueType) {
        let mut items: Vec<ValueType> = Vec::new();
        items.push(T0::get_type());
        items.push(T1::get_type());
        items.push(T2::get_type());
        items.push(T3::get_type());
        items.push(T4::get_type());
        items.push(T5::get_type());
        items.push(T6::get_type());
        items.push(T7::get_type());
        items.push(T8::get_type());
        items.push(T9::get_type());
        items.push(T10::get_type());
        items.push(T11::get_type());
        items.push(T12::get_type());
        items.push(T13::get_type());
        let r = ValueType::Tuple(TupleMeta { items_types: items });
        assert(is_tuple(r, seq![|x: ValueType| T0::describes(x), |x: ValueType| T1::describes(x), |x: ValueType| T2::describes(x), |x: ValueType| T3::describes(x), |x: ValueType| T4::describes(x), |x: ValueType| T5::describes(x), |x: ValueType| T6::describes(x), |x: ValueType| T7::describes(x), |x: ValueType| T8::describes(x), |x: ValueType| T9::describes(x), |x: ValueType| T10::describes(x), |x: ValueType| T11::describes(x), |x: ValueType| T12::describes(x), |x: ValueType| T13::describes(x)]));
        r
    }
}

impl<T0: GenBinding, T1: GenBinding, T2: GenBinding, T3: GenBinding, T4: GenBinding, T5: GenBinding, T6: GenBinding, T7: GenBinding, T8: GenBinding, T9: GenBinding, T10: GenBinding, T11: GenBinding, T12: GenBinding, T13: GenBinding, T14: GenBinding> GenBinding for (T0, T1, T2, T3, T4, T5, T6, T7, T8, T9, T10, T11, T12, T13, T14) {
    open spec fn describes(v: ValueType) -> bool {
        is_tuple(v, seq![|x: ValueType| T0::describes(x), |x: ValueType| T1::describes(x), |x: ValueType| T2::describes(x), |x: ValueType| T3::describes(x), |x: ValueType| T4::describes(x), |x: ValueType| T5::describes(x), |x: ValueType| T6::describes(x), |x: ValueType| T7::describes(x), |x: ValueType| T8::describes(x), |x: ValueType| T9::describes(x), |x: ValueType| T10::describes(x), |x: ValueType| T11::describes(x), |x: ValueType| T12::describes(x), |x: ValueType| T13::describes(x), |x: ValueType| T14::describes(x)])
    }

    fn get_type() -> (r: ValueType) {
        let mut items: Vec<ValueType> = Vec::new();
        items.push(T0::get_type());
        items.push(T1::get_type());
        items.push(T2::get_type());
        items.push(T3::get_type());
        items.push(T4::get_type());
        items.push(T5::get_type());
        items.push(T6::get_type());
        items.push(T7::get_type());
        items.push(T8::get_type());
        items.push(T9::get_type());
        items.push(T10::get_type());
        items.push(T11::get_type());
        items.push(T12::get_type());
        items.push(T13::get_type());
        items.push(T14::get_type());
        let r = ValueType::Tuple(TupleMeta { items_types: items });
        assert(is_tuple(r, seq![|x: ValueType| T0::describes(x), |x: ValueType| T1::describes(x), |x: ValueType| T2::describes(x), |x: ValueType| T3::describes(x), |x: ValueType| T4::describes(x), |x: ValueType| T5::describes(x), |x: ValueType| T6::describes(x), |x: ValueType| T7::describes(x), |x: ValueType| T8::describes(x), |x: ValueType| T9::describes(x), |x: ValueType| T10::describes(x), |x: ValueType| T11::describes(x), |x: ValueType| T12::describes(x), |x: ValueType| T13::describes(x), |x: ValueType| T14::describes(x)]));
        r
    }
}

/// `std::sync::RwLock`, carried as an opaque type.
#[verifier::external_type_specification]
#[verifier::external_body]
#[verifier::reject_recursive_types(T)]
pub struct ExRwLock<T: ?Sized>(std::sync::RwLock<T>);

/// `heapless::Vec`, carried as an opaque type.
#[verifier::external_type_specification]
#[verifier::external_body]
#[verifier::reject_recursive_types(T)]
pub struct ExHeaplessVec<T, const N: usize>(heapless::Vec<T, N>);

/// `heapless::String`, carried as an opaque type.
#[verifier::external_type_specification]
#[verifier::external_body]
pub struct ExHeaplessString<const N: usize>(heapless::String<N>);

/// `heapless::LinearMap`, carried as an opaque type.
#[verifier::external_type_specification]
#[verifier::external_body]
#[verifier::reject_recursive_types(K)]
#[verifier::reject_recursive_types(V)]
pub struct ExHeaplessLinearMap<K, V, const N: usize>(heapless::LinearMap<K, V, N>);

impl<T: GenBinding> GenBinding for std::sync::RwLock<T> {
    open spec fn describes(v: ValueType) -> bool {
        T::describes(v)
    }

    fn get_type() -> (r: ValueType) {
        T::get_type()
    }
}

impl<T: GenBinding, const N: usize> GenBinding for heapless::Vec<T, N> {
    open spec fn describes(v: ValueType) -> bool {
        is_array(v, |x: ValueType| T::describes(x), None, Some(N))
    }

    fn get_type() -> (r: ValueType) {
        array_of(T::get_type(), None, Some(N))
    }
}

impl<const N: usize> GenBinding for heapless::String<N> {
    open spec fn describes(v: ValueType) -> bool {
        v == ValueType::String(StringMeta { max_length: Some(N) })
    }

    fn get_type() -> (r: ValueType) {
        ValueType::String(StringMeta { max_length: Some(N) })
    }
}

impl<K: GenBinding, V: GenBinding, const N: usize> GenBinding for heapless::LinearMap<K, V, N> {
    open spec fn describes(v: ValueType) -> bool {
        is_map(v, |x: ValueType| K::describes(x), |x: ValueType| V::describes(x), Some(N))
    }

    fn get_type() -> (r: ValueType) {
        map_of(K::get_type(), V::get_type(), Some(N))
    }
}

/// Whether `v` describes an integer that takes `size` bytes, that is
/// signed exactly when `has_negatives`, and that may be zero.
pub open spec fn integer_of(v: ValueType, size: nat, has_negatives: bool) -> bool {
    match v {
        ValueType::Number(NumberMeta::Integer { bytes, signed, zero_able }) => bytes as nat == size
            && signed == has_negatives && zero_able,
        _ => false,
    }
}

/// Each Rust integer type is described as an integer whose width is the
/// type's size in bytes and which is signed exactly when the type has
/// negative values. For `u128` the description keeps a width of one byte,
/// and for `usize` and `isize`, whose size depends on the machine, a width
/// of four bytes; their sign follows the same rule.
pub proof fn law_integer_descriptions(v: ValueType)
    ensures
        <u8 as GenBinding>::describes(v) ==> integer_of(v, vstd::layout::size_of::<u8>(), u8::MIN < 0),
        <u16 as GenBinding>::describes(v) ==> integer_of(v, vstd::layout::size_of::<u16>(), u16::MIN < 0),
        <u32 as GenBinding>::describes(v) ==> integer_of(v, vstd::layout::size_of::<u32>(), u32::MIN < 0),
        <u64 as GenBinding>::describes(v) ==> integer_of(v, vstd::layout::size_of::<u64>(), u64::MIN < 0),
        <i8 as GenBinding>::describes(v) ==> integer_of(v, vstd::layout::size_of::<i8>(), i8::MIN < 0),
        <i16 as GenBinding>::describes(v) ==> integer_of(v, vstd::layout::size_of::<i16>(), i16::MIN < 0),
        <i32 as GenBinding>::describes(v) ==> integer_of(v, vstd::layout::size_of::<i32>(), i32::MIN < 0),
        <i64 as GenBinding>::describes(v) ==> integer_of(v, vstd::layout::size_of::<i64>(), i64::MIN < 0),
        <i128 as GenBinding>::describes(v) ==> integer_of(v, vstd::layout::size_of::<i128>(), i128::MIN < 0),
        <u128 as GenBinding>::describes(v) ==> integer_of(v, 1, u128::MIN < 0),
        <usize as GenBinding>::describes(v) ==> integer_of(v, 4, usize::MIN < 0),
        <isize as GenBinding>::describes(v) ==> integer_of(v, 4, isize::MIN < 0),
{
    broadcast use vstd::layout::layout_of_primitives;
}

/// The descriptions of the collections: a string of any length for
/// `String` and `&str`, and one bounded by `N` for a `heapless` string; a
/// sequence of unbounded length whose items `T` describes for `Vec<T>`,
/// `&[T]` and `[T]`, one of exactly `S` items for `[T; S]` and one of at
/// most `N` items for a `heapless` vector; a map whose keys `K` and values
/// `V` describe, unbounded for the maps of `std` and bounded by `N` for a
/// `heapless` map; a value that may be absent, whose present value `T`
/// describes, for `Option<T>`; and for `Range<T>`, bounds that `T`
/// describes. A reference, `Rc` or `Arc` is described as what it points to.
pub proof fn law_collection_descriptions<T: GenBinding, K: GenBinding, V: GenBinding, const S: usize, const N: usize>(
    v: ValueType,
)
    ensures
        <String as GenBinding>::describes(v) <==> (v is String && v->String_0.max_length is None),
        <&str as GenBinding>::describes(v) <==> <String as GenBinding>::describes(v),
        <heapless::String<N> as GenBinding>::describes(v) <==> (v is String
            && v->String_0.max_length == Some(N)),
        <Vec<T> as GenBinding>::describes(v) <==> (v is Array && T::describes(*v->Array_0.items_type)
            && v->Array_0.length is None && v->Array_0.max_length is None),
        <&[T] as GenBinding>::describes(v) <==> <Vec<T> as GenBinding>::describes(v),
        <[T] as GenBinding>::describes(v) <==> <Vec<T> as GenBinding>::describes(v),
        <[T; S] as GenBinding>::describes(v) <==> (v is Array && T::describes(*v->Array_0.items_type)
            && v->Array_0.length == Some(S) && v->Array_0.max_length == Some(S)),
        <heapless::Vec<T, N> as GenBinding>::describes(v) <==> (v is Array && T::describes(
            *v->Array_0.items_type,
        ) && v->Array_0.length is None && v->Array_0.max_length == Some(N)),
        <std::collections::HashMap<K, V> as GenBinding>::describes(v) <==> (v is Mapping
            && K::describes(*v->Mapping_0.key_type) && V::describes(*v->Mapping_0.value_type)
            && v->Mapping_0.max_length is None),
        <std::collections::BTreeMap<K, V> as GenBinding>::describes(v) <==> <std::collections::HashMap<
            K,
            V,
        > as GenBinding>::describes(v),
        <heapless::LinearMap<K, V, N> as GenBinding>::describes(v) <==> (v is Mapping
            && K::describes(*v->Mapping_0.key_type) && V::describes(*v->Mapping_0.value_type)
            && v->Mapping_0.max_length == Some(N)),
        <Option<T> as GenBinding>::describes(v) <==> (v is Optional && T::describes(
            *v->Optional_0.inner,
        )),
        <core::ops::Range<T> as GenBinding>::describes(v) <==> (v is Range && T::describes(
            *v->Range_0.bounds_type,
        )),
        <std::rc::Rc<T> as GenBinding>::describes(v) <==> T::describes(v),
        <std::sync::Arc<T> as GenBinding>::describes(v) <==> T::describes(v),
        <&mut T as GenBinding>::describes(v) <==> T::describes(v),
{
}

/// A pair, like every tuple, is described as a tuple of as many items,
/// item `i` described by the `i`-th type.
pub proof fn law_pair_description<T0: GenBinding, T1: GenBinding>(v: ValueType)
    ensures
        <(T0, T1) as GenBinding>::describes(v) <==> (v is Tuple && v->Tuple_0.items_types@.len() == 2
            && T0::describes(v->Tuple_0.items_types@[0]) && T1::describes(v->Tuple_0.items_types@[1])),
{
    let items = seq![|x: ValueType| T0::describes(x), |x: ValueType| T1::describes(x)];
    if v is Tuple && v->Tuple_0.items_types@.len() == 2 {
        assert(items[0](v->Tuple_0.items_types@[0]) == T0::describes(v->Tuple_0.items_types@[0]));
        assert(items[1](v->Tuple_0.items_types@[1]) == T1::describes(v->Tuple_0.items_types@[1]));
    }
}

} // verus!
