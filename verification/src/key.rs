//! Dependency identification keys.
//!
//! A [`DependencyKey`] names a dependency by the identity of its type and an
//! optional discriminator, so that several instances of one type can be told
//! apart. The display name travels with the key for diagnostics only.

use crate::text::debug_quoted;
use crate::text::push_text;
use crate::text::quoted;
use std::any::TypeId;
use std::hash::Hash;
use std::hash::Hasher;
use vstd::prelude::*;
use vstd::std_specs::cmp::PartialEqSpecImpl;

verus! {

/// The type identity that std hands out for each `'static` type.
#[verifier::external_type_specification]
#[verifier::external_body]
pub struct ExTypeId(TypeId);

/// What makes two keys the same key: the type identity and the discriminator.
pub struct KeyId {
    pub type_id: TypeId,
    pub name: Option<Seq<char>>,
}

/// Uniquely identifies a dependency in the container.
#[derive(Clone, Copy, Debug)]
pub struct DependencyKey {
    type_id: TypeId,
    display_name: &'static str,
    name: Option<&'static str>,
}

impl View for DependencyKey {
    type V = KeyId;

    closed spec fn view(&self) -> KeyId {
        KeyId {
            type_id: self.type_id,
            name: match self.name {
                Some(n) => Some(n@),
                None => None,
            },
        }
    }
}

/// `TypeId::of`: the identity of the type `T`. Nothing is claimed of the value.
#[verifier::external_body]
fn type_id_of<T: ?Sized + 'static>() -> (id: TypeId) {
    TypeId::of::<T>()
}

/// `==` on `TypeId`: two identities compare equal exactly when they are the
/// same identity.
#[verifier::external_body]
fn type_id_eq(a: &TypeId, b: &TypeId) -> (r: bool)
    ensures
        r == (*a == *b),
{
    a == b
}

/// Whether two string slices hold the same characters.
fn str_eq(a: &str, b: &str) -> (r: bool)
    ensures
        r == (a@ == b@),
{
    let left = a.to_owned();
    let right = b.to_owned();
    left == right
}

impl DependencyKey {
    /// The display name carried for diagnostics; it takes no part in equality.
    pub closed spec fn spec_display_name(&self) -> Seq<char> {
        self.display_name@
    }

    /// Creates a key for type `T`, shown in messages as `display_name`.
    pub fn of<T: ?Sized + 'static>(display_name: &'static str) -> (key: Self)
        ensures
            key@.name is None,
            key.spec_display_name() == display_name@,
    {
        DependencyKey { type_id: type_id_of::<T>(), display_name, name: None }
    }

    /// Creates a named key for type `T`, shown in messages as `display_name`.
    pub fn named<T: ?Sized + 'static>(display_name: &'static str, name: &'static str) -> (key: Self)
        ensures
            key@.name == Some(name@),
            key.spec_display_name() == display_name@,
    {
        DependencyKey { type_id: type_id_of::<T>(), display_name, name: Some(name) }
    }

    /// Creates an unnamed key from a type identity and a display name.
    pub fn from_raw(type_id: TypeId, display_name: &'static str) -> (key: Self)
        ensures
            key@ == (KeyId { type_id, name: None }),
            key.spec_display_name() == display_name@,
    {
        DependencyKey { type_id, display_name, name: None }
    }

    /// Returns the type identity of this dependency.
    pub fn type_id(&self) -> (id: TypeId)
        ensures
            id == self@.type_id,
    {
        self.type_id
    }

    /// Returns the display name used in messages.
    pub fn display_name(&self) -> (s: &'static str)
        ensures
            s@ == self.spec_display_name(),
    {
        self.display_name
    }

    /// Returns the optional name for named bindings.
    pub fn name(&self) -> (n: Option<&'static str>)
        ensures
            n is Some == self@.name is Some,
            n matches Some(s) ==> self@.name == Some(s@),
    {
        self.name
    }

    /// The key as messages show it: the display name, followed by the
    /// discriminator in quotes if there is one.
    pub open spec fn text(&self) -> Seq<char> {
        match self@.name {
            Some(name) => self.spec_display_name() + " (name="@ + quoted(name) + ")"@,
            None => self.spec_display_name(),
        }
    }

    /// Appends the key, as messages show it, to a text.
    pub fn write_to(&self, message: &mut String)
        ensures
            final(message)@ == old(message)@ + self.text(),
    {
        push_text(message, self.display_name);
        match self.name {
            Some(name) => {
                let shown = debug_quoted(name);
                push_text(message, " (name=");
                push_text(message, shown.as_str());
                push_text(message, ")");
            },
            None => {},
        }
    }

    /// The key as messages show it.
    pub fn to_text(&self) -> (shown: String)
        ensures
            shown@ == self.text(),
    {
        let mut shown = String::new();
        self.write_to(&mut shown);
        shown
    }

    /// Whether two keys name the same dependency.
    pub fn same(&self, other: &DependencyKey) -> (r: bool)
        ensures
            r == (self@ == other@),
    {
        if !type_id_eq(&self.type_id, &other.type_id) {
            return false;
        }
        match (self.name, other.name) {
            (None, None) => true,
            (Some(a), Some(b)) => str_eq(a, b),
            _ => false,
        }
    }
}

impl PartialEq for DependencyKey {
    fn eq(&self, other: &Self) -> (r: bool) {
        self.same(other)
    }
}

impl PartialEqSpecImpl for DependencyKey {
    open spec fn obeys_eq_spec() -> bool {
        true
    }

    open spec fn eq_spec(&self, other: &Self) -> bool {
        self@ == other@
    }
}

impl Eq for DependencyKey {}

impl Hash for DependencyKey {
    /// `Hash::hash` of a pair: feeds the type identity and the discriminator
    /// to the hasher, and not the display name, so that keys that are equal
    /// hash alike.
    #[verifier::external_body]
    fn hash<H: Hasher>(&self, state: &mut H) {
        (self.type_id, self.name).hash(state)
    }
}

} // verus!
