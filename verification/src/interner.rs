//! Interned identifier names, backed by the `string_cache` crate.
//!
//! An atom is a cheaply comparable handle for an interned string. The handle
//! itself is opaque to the verifier; `atom_bytes` names the text it stands
//! for, and the trusted wrappers below relate each call into `string_cache`
//! to that name.

use string_cache::DefaultAtom;
use vstd::prelude::*;

verus! {

/// Declares `string_cache::Atom` so that atoms can stand in token and AST
/// fields. Values of the type are opaque to the verifier.
#[verifier::external_type_specification]
#[verifier::external_body]
#[verifier::reject_recursive_types(Static)]
pub struct ExAtom<Static>(string_cache::Atom<Static>);

/// Declares the empty static set that `DefaultAtom` is parameterized by.
#[verifier::external_type_specification]
#[verifier::external_body]
pub struct ExEmptyStaticAtomSet(string_cache::EmptyStaticAtomSet);

/// The bytes of the interned text that an atom stands for.
pub uninterp spec fn atom_bytes(a: DefaultAtom) -> Seq<u8>;

/// Relies on `Atom::from(&str)` of string_cache: the atom holds exactly the
/// interned text, which `Deref`/`AsRef` hand back unchanged. The input is
/// required to be ASCII, so its bytes are its UTF-8 encoding and the
/// conversion through `str` cannot fail.
#[verifier::external_body]
pub fn intern_ascii(bytes: &[u8]) -> (a: DefaultAtom)
    requires
        forall|i: int| 0 <= i < bytes@.len() ==> bytes@[i] < 128,
    ensures
        atom_bytes(a) == bytes@,
{
    DefaultAtom::from(core::str::from_utf8(bytes).unwrap())
}

/// Relies on `AsRef<str>` for `Atom` of string_cache: an atom dereferences
/// to the interned text it was made from.
#[verifier::external_body]
pub fn atom_to_bytes(a: &DefaultAtom) -> (r: Vec<u8>)
    ensures
        r@ == atom_bytes(*a),
{
    <DefaultAtom as AsRef<str>>::as_ref(a).as_bytes().to_vec()
}

/// Relies on `Clone` for `Atom` of string_cache: a clone is a handle for the
/// same interned text.
#[verifier::external_body]
pub fn atom_clone(a: &DefaultAtom) -> (r: DefaultAtom)
    ensures
        atom_bytes(r) == atom_bytes(*a),
{
    a.clone()
}

} // verus!
