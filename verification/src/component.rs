use vstd::layout::{align_of, size_of};
use vstd::prelude::*;

verus! {

/// Describes one field type: its identity, the size and alignment of its
/// values in bytes, and whether a value needs cleanup before its storage is
/// released. Descriptors with the same identity describe the same type.
#[derive(Clone, Copy, Debug, PartialEq, Eq, Structural)]
pub struct ComponentMeta {
    /// The identity of the field type. Field types are told apart by it.
    pub id: u64,
    /// The number of bytes of one value.
    pub size: usize,
    /// The alignment of a value in memory. A column holds its values as
    /// bytes, one value after the other, so this is kept for whoever turns
    /// the bytes back into values.
    pub align: usize,
    /// Whether a value is handed out for cleanup when its archetype is torn
    /// down.
    pub destructor: bool,
}

/// One value of a row with its type erased: the identity of its field type
/// and the bytes of the value.
#[derive(Debug)]
pub struct FieldValue {
    /// The identity of the field type of the value.
    pub id: u64,
    /// The bytes of the value.
    pub bytes: Vec<u8>,
}

/// A field type. Its implementor picks the identity, which no other field
/// type may share and which is the same at every call, and says how a value
/// is laid out in bytes. Nothing is taken on trust from an implementor: what
/// the library does with a value is decided on the identity and the bytes
/// that come back.
pub trait Component: Sized + 'static {
    /// The identity of this field type.
    fn type_identity() -> u64;

    /// The bytes of the value, as many as the size of the type in memory.
    /// The bytes stand for the value from here on: where the type has a
    /// destructor, it runs on them when the archetype is torn down.
    fn into_bytes(self) -> Vec<u8>;
}

/// `meta` is a descriptor of the field type `C`: its identity is one that `C`
/// names, its size and alignment are those of `C` in memory.
pub open spec fn describes<C: Component>(meta: ComponentMeta) -> bool {
    &&& call_ensures(C::type_identity, (), meta.id)
    &&& meta.size == size_of::<C>()
    &&& meta.align == align_of::<C>()
}

/// `value` is `component` with its type erased: its identity is one that `C`
/// names, its bytes are what `component` gives for itself.
pub open spec fn erases<C: Component>(component: C, value: FieldValue) -> bool {
    &&& call_ensures(C::type_identity, (), value.id)
    &&& call_ensures(C::into_bytes, (component,), value.bytes)
}

/// `std::mem::needs_drop`: whether dropping a value of `C` may run code.
/// Nothing is claimed of the answer.
#[verifier::external_body]
fn needs_destructor<C>() -> bool {
    std::mem::needs_drop::<C>()
}

impl ComponentMeta {
    /// The descriptor with the given parts.
    pub fn new(id: u64, size: usize, align: usize, destructor: bool) -> (meta: ComponentMeta)
        ensures
            meta == (ComponentMeta { id, size, align, destructor }),
    {
        ComponentMeta { id, size, align, destructor }
    }

    /// The descriptor of the field type `C`: size and alignment are those of
    /// `C` in memory, the identity is the one `C` names, and a destructor is
    /// present where `std::mem::needs_drop` says so for `C`.
    pub fn of<C: Component>() -> (meta: ComponentMeta)
        ensures
            describes::<C>(meta),
    {
        ComponentMeta {
            id: C::type_identity(),
            size: core::mem::size_of::<C>(),
            align: core::mem::align_of::<C>(),
            destructor: needs_destructor::<C>(),
        }
    }
}

impl FieldValue {
    /// The value of the field type `id` whose bytes are `bytes`.
    pub fn new(id: u64, bytes: Vec<u8>) -> (value: FieldValue)
        ensures
            value.id == id,
            value.bytes == bytes,
    {
        FieldValue { id, bytes }
    }

    /// The value `component` with its type erased.
    pub fn of<C: Component>(component: C) -> (value: FieldValue)
        ensures
            erases(component, value),
    {
        FieldValue { id: C::type_identity(), bytes: component.into_bytes() }
    }
}

} // verus!
