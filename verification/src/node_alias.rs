//! Aliases: stable 64-bit names a node can register besides its
//! identifier.

use vstd::prelude::*;

verus! {

/// The service identifier of the alias service.
pub const NODE_ALIAS_SERVICE_ID: u8 = 7;

/// The decimal digit characters of `v`, most significant first.
pub open spec fn dec_digits(v: nat) -> Seq<char>
    decreases v,
{
    if v < 10 {
        seq![(48 + v) as char]
    } else {
        dec_digits(v / 10).push((48 + v % 10) as char)
    }
}

/// The rendering of an alias: the word `Alias` around the decimal
/// value.
pub open spec fn alias_chars(v: u64) -> Seq<char> {
    seq!['A', 'l', 'i', 'a', 's', '('] + dec_digits(v as nat) + seq![')']
}

/// One registered alias.
#[derive(Debug, Clone, Copy, PartialEq, Eq, Structural, Hash)]
pub struct NodeAliasId(pub u64);

impl NodeAliasId {
    /// The alias value itself.
    pub fn value(&self) -> (r: u64)
        ensures
            r == self.0,
    {
        self.0
    }

    /// Relies on `format!` over u64's `Display`, which renders the
    /// value in decimal with no padding; the frame around it is
    /// literal.
    #[verifier::external_body]
    pub fn to_string(&self) -> (r: String)
        ensures
            r@ == alias_chars(self.0),
    {
        format!("Alias({})", self.0)
    }
}

impl From<u64> for NodeAliasId {
    /// An alias from its raw value.
    fn from(value: u64) -> (r: Self) {
        NodeAliasId(value)
    }
}

impl vstd::std_specs::convert::FromSpecImpl<u64> for NodeAliasId {
    open spec fn obeys_from_spec() -> bool {
        true
    }

    open spec fn from_spec(value: u64) -> Self {
        NodeAliasId(value)
    }
}

} // verus!
