use bytes::Bytes;
use vstd::prelude::*;

verus! {

/// `bytes::Bytes`, the immutable byte buffer that carries proposed values.
#[verifier::external_type_specification]
#[verifier::external_body]
pub struct ExBytes(Bytes);

/// The bytes that a buffer holds.
pub uninterp spec fn bytes_of(b: Bytes) -> Seq<u8>;

/// Relies on `Bytes::new`: a buffer that holds no bytes.
pub assume_specification[ Bytes::new ]() -> (r: Bytes)
    ensures
        bytes_of(r).len() == 0,
;

/// Relies on `Bytes::len`: the number of bytes held.
pub assume_specification[ Bytes::len ](b: &Bytes) -> (r: usize)
    ensures
        r == bytes_of(*b).len(),
;

/// Relies on `Bytes::clone`: a handle on the same bytes.
pub assume_specification[ <Bytes as Clone>::clone ](b: &Bytes) -> (r: Bytes)
    ensures
        bytes_of(r) == bytes_of(*b),
;

/// The no-op value: the empty byte string.
pub fn noop() -> (r: Bytes)
    ensures
        bytes_of(r) == Seq::<u8>::empty(),
{
    let r = Bytes::new();
    assert(bytes_of(r) =~= Seq::<u8>::empty());
    r
}

/// A value is a no-op when it holds no bytes.
pub fn is_noop(v: &Bytes) -> (r: bool)
    ensures
        r == (bytes_of(*v).len() == 0),
{
    v.len() == 0
}

/// What a ballot-value pair is in the model: the ballot and the bytes.
pub open spec fn pair_view(p: (crate::ballot::Ballot, Bytes)) -> (crate::ballot::Ballot, Seq<u8>) {
    (p.0, bytes_of(p.1))
}

pub open spec fn opt_pair_view(p: Option<(crate::ballot::Ballot, Bytes)>) -> Option<(crate::ballot::Ballot, Seq<u8>)> {
    match p {
        None => None,
        Some(q) => Some(pair_view(q)),
    }
}

pub fn clone_pair(p: &(crate::ballot::Ballot, Bytes)) -> (r: (crate::ballot::Ballot, Bytes))
    ensures
        pair_view(r) == pair_view(*p),
{
    (p.0, p.1.clone())
}

} // verus!
