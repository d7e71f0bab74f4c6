use vstd::prelude::*;

use ssz_types::typenum::U1024;
use ssz_types::VariableList;

verus! {

/// `ssz_types::VariableList`, declared so that lists of roots can stand in fields.
#[verifier::external_type_specification]
#[verifier::external_body]
#[verifier::reject_recursive_types(T)]
#[verifier::reject_recursive_types(N)]
pub struct ExVariableList<T, N>(VariableList<T, N>);

/// The most roots that one request or response carries.
pub const MAX_REQUEST_ROOTS: usize = 1024;

/// The roots that a list of at most 1024 roots holds, in order.
pub uninterp spec fn root_list_items(list: VariableList<[u8; 32], U1024>) -> Seq<[u8; 32]>;

/// `VariableList::new`: the list of `roots` where there are at most 1024 of them,
/// else `None`.
#[verifier::external_body]
fn root_list_new(roots: Vec<[u8; 32]>) -> (r: Option<VariableList<[u8; 32], U1024>>)
    ensures
        r is Some <==> roots@.len() <= MAX_REQUEST_ROOTS,
        r matches Some(list) ==> root_list_items(list) == roots@,
{
    VariableList::new(roots).ok()
}

/// `VariableList::to_vec` (through its slice): the roots of `list`, in order.
#[verifier::external_body]
fn root_list_to_vec(list: &VariableList<[u8; 32], U1024>) -> (r: Vec<[u8; 32]>)
    ensures
        r@ == root_list_items(*list),
{
    list.to_vec()
}

/// A request for the lean blocks of `count` slots from `start_slot` on.
#[derive(Clone, Copy, Debug, Default, PartialEq, Eq, Structural)]
pub struct LeanBlocksByRangeV1Request {
    pub start_slot: u64,
    pub count: u64,
}

impl LeanBlocksByRangeV1Request {
    pub fn new(start_slot: u64, count: u64) -> (r: Self)
        ensures
            r.start_slot == start_slot,
            r.count == count,
    {
        Self { start_slot, count }
    }
}

/// A request for the lean blocks with the given roots.
#[derive(Debug)]
pub struct LeanBlocksByRootV1Request {
    pub inner: VariableList<[u8; 32], U1024>,
}

impl LeanBlocksByRootV1Request {
    /// The request for `roots`; there may be at most 1024 of them.
    pub fn new(roots: Vec<[u8; 32]>) -> (r: Self)
        requires
            roots@.len() <= MAX_REQUEST_ROOTS,
        ensures
            root_list_items(r.inner) == roots@,
    {
        let inner = root_list_new(roots).unwrap();
        Self { inner }
    }

    /// The requested roots, in order.
    pub fn roots(&self) -> (r: Vec<[u8; 32]>)
        ensures
            r@ == root_list_items(self.inner),
    {
        root_list_to_vec(&self.inner)
    }
}

/// The status of a lean node: its finalized and head checkpoints.
#[derive(Clone, Copy, Debug, Default, PartialEq, Eq)]
pub struct LeanStatus {
    pub finalized_root: [u8; 32],
    pub finalized_slot: u64,
    pub head_root: [u8; 32],
    pub head_slot: u64,
}

impl LeanStatus {
    pub fn new(finalized_root: [u8; 32], finalized_slot: u64, head_root: [u8; 32], head_slot: u64) -> (r: Self)
        ensures
            r.finalized_root == finalized_root,
            r.finalized_slot == finalized_slot,
            r.head_root == head_root,
            r.head_slot == head_slot,
    {
        Self { finalized_root, finalized_slot, head_root, head_slot }
    }
}

/// A request for the attestations of a subnet over a range of slots.
#[derive(Clone, Copy, Debug, Default, PartialEq, Eq, Structural)]
pub struct AttestationSubnetRequest {
    pub subnet_id: u64,
    pub start_slot: u64,
    pub end_slot: u64,
    pub needs_aggregator: bool,
}

impl AttestationSubnetRequest {
    pub fn new(subnet_id: u64, start_slot: u64, end_slot: u64, needs_aggregator: bool) -> (r: Self)
        ensures
            r.subnet_id == subnet_id,
            r.start_slot == start_slot,
            r.end_slot == end_slot,
            r.needs_aggregator == needs_aggregator,
    {
        Self { subnet_id, start_slot, end_slot, needs_aggregator }
    }
}

/// The roots answered to an attestation subnet request.
#[derive(Debug)]
pub struct AttestationSubnetResponse {
    pub inner: VariableList<[u8; 32], U1024>,
}

impl AttestationSubnetResponse {
    /// The response carrying `roots`; there may be at most 1024 of them.
    pub fn new(roots: Vec<[u8; 32]>) -> (r: Self)
        requires
            roots@.len() <= MAX_REQUEST_ROOTS,
        ensures
            root_list_items(r.inner) == roots@,
    {
        let inner = root_list_new(roots).unwrap();
        Self { inner }
    }

    /// The roots of the response, in order.
    pub fn roots(&self) -> (r: Vec<[u8; 32]>)
        ensures
            r@ == root_list_items(self.inner),
    {
        root_list_to_vec(&self.inner)
    }
}

} // verus!
