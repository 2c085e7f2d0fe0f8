//! The tagged handle type the generated code operates on.  A handle
//! carries the untyped foreign value — modeled here as its machine-word
//! bit pattern — together with a phantom tag that records what the
//! value is known to be.  Conversions between tags never touch the
//! carried value.

use vstd::prelude::*;

use core::marker::PhantomData;

verus! {

/// A tag a handle can carry.
pub trait TypeSpec {
}

/// A tag for handles known to hold numbers.
pub trait Numeric: TypeSpec {
}

/// The tag of handles whose contents are not yet known.
#[derive(Clone, Copy, Debug)]
pub struct UnspecifiedSpec;

impl TypeSpec for UnspecifiedSpec {

}

/// The tag of boolean handles.
#[derive(Clone, Copy, Debug)]
pub struct BoolSpec;

impl TypeSpec for BoolSpec {

}

/// The tag of numbers of unknown numeric kind, the result of numeric
/// operations.
#[derive(Clone, Copy, Debug)]
pub struct NumericSpec;

impl TypeSpec for NumericSpec {

}

impl Numeric for NumericSpec {

}

/// The tag of exact integers.
#[derive(Clone, Copy, Debug)]
pub struct IntSpec;

impl TypeSpec for IntSpec {

}

impl Numeric for IntSpec {

}

/// The tag of rationals.
#[derive(Clone, Copy, Debug)]
pub struct RationalSpec;

impl TypeSpec for RationalSpec {

}

impl Numeric for RationalSpec {

}

/// The tag of reals.
#[derive(Clone, Copy, Debug)]
pub struct RealSpec;

impl TypeSpec for RealSpec {

}

impl Numeric for RealSpec {

}

/// The tag of complex numbers.
#[derive(Clone, Copy, Debug)]
pub struct ComplexSpec;

impl TypeSpec for ComplexSpec {

}

impl Numeric for ComplexSpec {

}

/// The tag of strings.
#[derive(Clone, Copy, Debug)]
pub struct StringSpec;

impl TypeSpec for StringSpec {

}

/// The tag of symbols.
#[derive(Clone, Copy, Debug)]
pub struct SymbolSpec;

impl TypeSpec for SymbolSpec {

}

/// The tag of pairs.
#[derive(Clone, Copy, Debug)]
pub struct PairSpec;

impl TypeSpec for PairSpec {

}

/// The tag of lists.
#[derive(Clone, Copy, Debug)]
pub struct ListSpec;

impl TypeSpec for ListSpec {

}

/// The tag of hash tables under structural equality.
#[derive(Clone, Copy, Debug)]
pub struct HashTableSpec;

impl TypeSpec for HashTableSpec {

}

/// The tag of hash tables under identity.
#[derive(Clone, Copy, Debug)]
pub struct HashQTableSpec;

impl TypeSpec for HashQTableSpec {

}

/// The tag of hash tables under equivalence.
#[derive(Clone, Copy, Debug)]
pub struct HashVTableSpec;

impl TypeSpec for HashVTableSpec {

}

/// The tag of hash tables under a custom predicate.
#[derive(Clone, Copy, Debug)]
pub struct HashXTableSpec;

impl TypeSpec for HashXTableSpec {

}

/// The tag of foreign object types.
#[derive(Clone, Copy, Debug)]
pub struct ForeignTypeSpec;

impl TypeSpec for ForeignTypeSpec {

}

/// A tagged handle: the raw foreign value and its phantom tag.
#[derive(Debug)]
pub struct Scm<TS: TypeSpec> {
    data: u64,
    tag: PhantomData<TS>,
}

impl<TS: TypeSpec> Clone for Scm<TS> {
    /// A copy carries the same raw value.
    fn clone(&self) -> (r: Self)
        ensures
            r.bits() == self.bits(),
    {
        Scm { data: self.data, tag: PhantomData }
    }
}

impl<TS: TypeSpec> Scm<TS> {
    /// The raw value this handle carries.
    pub closed spec fn bits(&self) -> u64 {
        self.data
    }

    /// Wraps a raw value under this tag, with no check: callers
    /// establish what the tag claims.
    pub(crate) fn _from_raw(data: u64) -> (r: Scm<TS>)
        ensures
            r.bits() == data,
    {
        Scm { data, tag: PhantomData }
    }

    /// Wraps a raw value as a handle of unknown contents.
    pub fn from_raw(data: u64) -> (r: Scm<UnspecifiedSpec>)
        ensures
            r.bits() == data,
    {
        Scm::<UnspecifiedSpec>::_from_raw(data)
    }

    /// Retags the handle.  Callers check the contents first.
    fn into_type<S: TypeSpec>(self) -> (r: Scm<S>)
        ensures
            r.bits() == self.bits(),
    {
        Scm::<S>::_from_raw(self.data)
    }

    /// Forgets what is known of the contents.
    pub fn into_unspecified(self) -> (r: Scm<UnspecifiedSpec>)
        ensures
            r.bits() == self.bits(),
    {
        self.into_type()
    }

    /// The raw value as bits.
    pub fn as_bits(&self) -> (r: u64)
        ensures
            r == self.bits(),
    {
        self.data
    }
}

/// The ability to read a handle's contents as a plain value of type
/// `T`, where reading can fail with `E`.
pub trait TryAs<T, E> {
    /// Attempts to read `self` as a value of type `T`.
    fn try_as(&self) -> Result<T, E>;
}

/// A compile-time list element standing for the type at its position.
#[derive(Debug)]
pub struct TypeItem<T>(pub PhantomData<T>);

impl<T> Clone for TypeItem<T> {
    fn clone(&self) -> (r: Self) {
        TypeItem(PhantomData)
    }
}

/// The end of a compile-time type list.
#[derive(Clone, Copy, Debug)]
pub struct Nil {
}

impl Nil {
    /// The empty list holds no element.
    pub fn len(&self) -> (r: usize)
        ensures
            r == 0,
    {
        0
    }
}

/// A foreign object type a user of the crate registers: its backing
/// structure, its registered type handle, and access to the carried
/// structure.  The crate itself registers none; implementations live
/// with the foreign library's users.
pub trait ForeignType {
    type Struct;

    /// The registered type handle.
    fn get_type<'a>() -> &'a Scm<ForeignTypeSpec>;

    /// The carried structure.
    fn as_struct<'a>() -> &'a Self::Struct;

    /// The carried structure, for writing.
    fn as_struct_mut<'a>() -> &'a mut Self::Struct;
}

/// The tag of foreign objects of a registered type.
#[derive(Debug)]
pub struct ForeignObjectSpec<FT: ForeignType> {
    tag: PhantomData<FT>,
}

impl<FT: ForeignType> TypeSpec for ForeignObjectSpec<FT> {

}

impl<FT: ForeignType> Scm<ForeignObjectSpec<FT>> {
    /// The registered type handle of this object's type.
    pub fn get_type<'a>() -> &'a Scm<ForeignTypeSpec> {
        FT::get_type()
    }

    /// The carried structure.
    pub fn as_struct<'a>() -> &'a FT::Struct {
        FT::as_struct()
    }

    /// The carried structure, for writing.
    pub fn as_struct_mut<'a>() -> &'a mut FT::Struct {
        FT::as_struct_mut()
    }
}

} // verus!
