//! Node and target identifiers.

use vstd::prelude::*;
use vstd::std_specs::cmp::PartialEqSpec;

verus! {

/// A 160-bit identifier of a node, an info hash or a stored value.
#[derive(Clone, Copy, Debug)]
pub struct Id {
    pub bytes: [u8; 20],
}

/// Whether two byte arrays hold the same bytes.
pub fn bytes_eq<const N: usize>(a: &[u8; N], b: &[u8; N]) -> (same: bool)
    ensures
        same == (*a == *b),
{
    let mut i: usize = 0;
    while i < N
        invariant
            i <= N,
            forall|j: int| 0 <= j < i ==> a[j] == b[j],
        decreases N - i,
    {
        if a[i] != b[i] {
            return false;
        }
        i = i + 1;
    }
    assert(*a =~= *b);
    true
}

impl PartialEq for Id {
    fn eq(&self, other: &Id) -> (same: bool) {
        bytes_eq(&self.bytes, &other.bytes)
    }
}

impl Eq for Id {

}

impl vstd::std_specs::cmp::PartialEqSpecImpl for Id {
    open spec fn obeys_eq_spec() -> bool {
        true
    }

    open spec fn eq_spec(&self, other: &Id) -> bool {
        *self == *other
    }
}

/// Ids are equal exactly if all twenty bytes are.
pub proof fn law_ids_are_equal_by_their_bytes(a: Id, b: Id)
    ensures
        a.eq_spec(&b) <==> (forall|i: int| 0 <= i < 20 ==> a.bytes[i] == b.bytes[i]),
        a == b <==> a.bytes == b.bytes,
{
    if forall|i: int| 0 <= i < 20 ==> a.bytes[i] == b.bytes[i] {
        assert(a.bytes =~= b.bytes);
    }
}

} // verus!
