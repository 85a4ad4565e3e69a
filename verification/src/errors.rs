use vstd::prelude::*;

verus! {

/// Unified failure kinds across parsing, sharing, arithmetic and the
/// symmetric layer.
#[derive(Clone, Copy, Debug, PartialEq, Eq, Structural)]
pub enum RabeError {
    /// Bad policy syntax; carries the character offset at which parsing stopped.
    PolicyParse(usize),
    /// Well-parsed but structurally invalid policy (gate with fewer than two
    /// children, or an `and` gate with other than two children at the LSSS
    /// compiler).
    PolicyShape,
    /// Ciphertext attributes do not satisfy the secret-key policy.
    PolicyMismatch,
    /// An attribute mentioned in a policy or ciphertext is absent from the
    /// relevant key.
    UnknownAttribute,
    /// Empty attribute set or empty plaintext handed to `encrypt`.
    EmptyInput,
    /// Attempt to invert zero in the scalar field.
    FieldInverse,
    /// Sealing or opening of the symmetric envelope failed.
    SymmetricFailure,
    /// A public value was requested where a private one is stored, or the
    /// other way round.
    TypeConfusion,
}

} // verus!
