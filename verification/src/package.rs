use vstd::prelude::*;

verus! {

/// What identifies a package: its name and its exact version. Two versions of
/// one name are two packages.
pub type PackageKey = (Seq<char>, Seq<char>);

/// The package that a pair of a name and a version names.
pub open spec fn key_of(pair: (String, String)) -> PackageKey {
    (pair.0@, pair.1@)
}

/// The packages that a list of pairs names, in its order.
pub open spec fn keys_of(pairs: Seq<(String, String)>) -> Seq<PackageKey> {
    Seq::new(pairs.len(), |k: int| key_of(pairs[k]))
}

} // verus!
