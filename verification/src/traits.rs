//! A wire trait tells us that the object can be encoded to and decoded
//! from the network.

use std::sync::Arc;

use vstd::prelude::*;
use vstd::pervasive::unreached;

use crate::codec;
use crate::msg::WrapperMsg;
use crate::sync::SyncMsg;

verus! {

/// A value that can go on the wire. `wire` names the value's canonical
/// encoding; decoding those bytes gives the value back.
pub trait WireReady: Send + Sync + Clone + Sized {
    /// The canonical byte encoding of the value.
    spec fn wire(&self) -> Seq<u8>;

    /// Whether the value fits the wire format's count fields.
    spec fn wire_wf(&self) -> bool;

    /// How to encode self to bytes.
    fn to_bytes(&self) -> (r: Vec<u8>)
        requires
            self.wire_wf(),
        ensures
            r@ == self.wire(),
    ;

    /// How to decode from bytes. The bytes must hold the encoding of some
    /// value; the result is the value they encode.
    fn from_bytes(data: &[u8]) -> (r: Self)
        requires
            exists|m: Self| m.wire_wf() && #[trigger] m.wire() == data@,
        ensures
            r.wire_wf(),
            r.wire() == data@,
    ;

    /// How to initialize self.
    fn init(self) -> (r: Self)
        ensures
            r == self,
    ;
}

impl WireReady for WrapperMsg {
    open spec fn wire(&self) -> Seq<u8> {
        codec::enc_wrapper(self@)
    }

    open spec fn wire_wf(&self) -> bool {
        codec::wrapper_view_wf(self@)
    }

    fn to_bytes(&self) -> (r: Vec<u8>) {
        codec::encode_wrapper_msg(self)
    }

    fn from_bytes(data: &[u8]) -> (r: Self) {
        proof {
            let w = choose|m: WrapperMsg| m.wire_wf() && #[trigger] m.wire() == data@;
            codec::lemma_wrapper_round_trip(w@);
        }
        match codec::decode_wrapper_msg(data) {
            Some(m) => m,
            None => unreached(),
        }
    }

    fn init(self) -> (r: Self) {
        self
    }
}

impl<A: WireReady> WireReady for Arc<A> {
    open spec fn wire(&self) -> Seq<u8> {
        (**self).wire()
    }

    open spec fn wire_wf(&self) -> bool {
        (**self).wire_wf()
    }

    fn to_bytes(&self) -> (r: Vec<u8>) {
        (**self).to_bytes()
    }

    fn from_bytes(data: &[u8]) -> (r: Self) {
        proof {
            let m = choose|m: Arc<A>| m.wire_wf() && #[trigger] m.wire() == data@;
            assert((*m).wire_wf() && (*m).wire() == data@);
        }
        let a = A::from_bytes(data);
        Arc::new(a)
    }

    fn init(self) -> (r: Self) {
        self
    }
}

impl WireReady for SyncMsg {
    open spec fn wire(&self) -> Seq<u8> {
        codec::enc_sync(self@)
    }

    open spec fn wire_wf(&self) -> bool {
        codec::sync_view_wf(self@)
    }

    fn to_bytes(&self) -> (r: Vec<u8>) {
        codec::encode_sync_msg(self)
    }

    fn from_bytes(data: &[u8]) -> (r: Self) {
        proof {
            let w = choose|m: SyncMsg| m.wire_wf() && #[trigger] m.wire() == data@;
            codec::lemma_sync_round_trip(w@);
        }
        match codec::decode_sync_msg(data) {
            Some(m) => m,
            None => unreached(),
        }
    }

    fn init(self) -> (r: Self) {
        self
    }
}

} // verus!
