//! Canonical type descriptors.
//!
//! A descriptor is the static dynamic-type identity a native type presents
//! as when crossing into the dynamic world. The mapping from native types to
//! descriptors is many-to-one: every native integer width presents as the
//! single canonical `int` descriptor, so the type layer never distinguishes
//! machine width.

use vstd::prelude::*;

verus! {

/// A static description of what dynamic type a native type presents as.
#[derive(Clone, Copy, Debug, PartialEq, Eq, Structural)]
pub enum Ty {
    NoneType,
    Bool,
    Int,
    Str,
    List,
    Dict,
    Struct,
}

/// The display name of a descriptor, as the parameter-binding layer prints it.
pub open spec fn ty_name(t: Ty) -> Seq<char> {
    match t {
        Ty::NoneType => "NoneType"@,
        Ty::Bool => "bool"@,
        Ty::Int => "int"@,
        Ty::Str => "string"@,
        Ty::List => "list"@,
        Ty::Dict => "dict"@,
        Ty::Struct => "struct"@,
    }
}

impl Ty {
    /// The descriptor's display name.
    pub fn name(&self) -> (r: &'static str)
        ensures
            r@ == ty_name(*self),
    {
        match self {
            Ty::NoneType => "NoneType",
            Ty::Bool => "bool",
            Ty::Int => "int",
            Ty::Str => "string",
            Ty::List => "list",
            Ty::Dict => "dict",
            Ty::Struct => "struct",
        }
    }
}

} // verus!
