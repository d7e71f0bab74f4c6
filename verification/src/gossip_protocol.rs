use vstd::prelude::*;

verus! {

/// The name of a protocol that the gossip layer speaks.
#[derive(Clone, Debug)]
pub struct ProtocolId {
    pub protocol_id: String,
}

impl ProtocolId {
    /// The protocol's name.
    pub fn as_str(&self) -> (r: &str)
        ensures
            r@ == self.protocol_id@,
    {
        self.protocol_id.as_str()
    }
}

/// The protocols offered when a gossip stream is negotiated.
#[derive(Debug)]
pub struct GossipsubProtocol {
    pub protocol_ids: Vec<ProtocolId>,
}

impl GossipsubProtocol {
    /// The protocols to offer, in order.
    pub fn protocol_info(&self) -> (r: Vec<ProtocolId>)
        ensures
            r@.len() == self.protocol_ids@.len(),
            forall|i: int|
                0 <= i < r@.len() ==> #[trigger] r@[i].protocol_id@
                    == self.protocol_ids@[i].protocol_id@,
    {
        let mut out: Vec<ProtocolId> = Vec::new();
        let mut i: usize = 0;
        while i < self.protocol_ids.len()
            invariant
                i <= self.protocol_ids@.len(),
                out@.len() == i,
                forall|j: int|
                    0 <= j < i ==> #[trigger] out@[j].protocol_id@
                        == self.protocol_ids@[j].protocol_id@,
            decreases self.protocol_ids@.len() - i,
        {
            let id = ProtocolId { protocol_id: self.protocol_ids[i].protocol_id.clone() };
            out.push(id);
            i = i + 1;
        }
        out
    }
}

/// The transform of gossip payloads, bounded by the size of one message.
#[derive(Debug)]
pub struct SnappyTransform {
    max_size_per_message: usize,
}

impl SnappyTransform {
    pub fn new(max_size_per_message: usize) -> (r: Self)
        ensures
            r.max_size_per_message() == max_size_per_message,
    {
        SnappyTransform { max_size_per_message }
    }

    pub closed spec fn max_size_per_message(&self) -> usize {
        self.max_size_per_message
    }
}

} // verus!
