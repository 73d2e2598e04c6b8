//! The consensus wire message model: a protocol payload, and the
//! authenticated envelope that carries it between replicas.

use vstd::prelude::*;

use crate::codec;
use crate::crypto;

verus! {

/// One participant in the fixed replica set, identified by a small integer
/// in `[0, num_nodes)`; the synchronizer uses `num_nodes` as its own id.
pub type Replica = usize;

/// A vector of collected scalar values together with the replica where the
/// vector originated.
#[derive(Clone, Debug, PartialEq, Eq)]
pub struct Msg {
    pub content: Vec<u64>,
    pub origin: Replica,
}

/// Mathematical model of a [`Msg`].
pub ghost struct MsgView {
    pub content: Seq<u64>,
    pub origin: Replica,
}

impl View for Msg {
    type V = MsgView;

    open spec fn view(&self) -> MsgView {
        MsgView { content: self.content@, origin: self.origin }
    }
}

/// The protocol payload: one tagged case per message kind of the two
/// protocol variants (quorum agreement and liveness ping). The engine
/// dispatches on the variant exhaustively.
#[derive(Clone, Debug, PartialEq, Eq)]
pub enum ProtMsg {
    /// A replica's scalar input, collected by the leader.
    Init(u64),
    /// The leader's collected value vector, opening the echo stage.
    Prepare(Msg),
    /// A node's echo of a value vector.
    Echo(Msg),
    /// A liveness ping carrying a message and the sender replica.
    Ping(Msg, Replica),
}

/// Mathematical model of a [`ProtMsg`].
pub ghost enum ProtMsgView {
    Init(u64),
    Prepare(MsgView),
    Echo(MsgView),
    Ping(MsgView, Replica),
}

impl View for ProtMsg {
    type V = ProtMsgView;

    open spec fn view(&self) -> ProtMsgView {
        match self {
            ProtMsg::Init(x) => ProtMsgView::Init(*x),
            ProtMsg::Prepare(m) => ProtMsgView::Prepare(m@),
            ProtMsg::Echo(m) => ProtMsgView::Echo(m@),
            ProtMsg::Ping(m, r) => ProtMsgView::Ping(m@, *r),
        }
    }
}

/// The authenticated envelope: a protocol payload, the sender's replica id,
/// and the HMAC tag over the encoded payload under the key shared between
/// sender and receiver.
#[derive(Clone, Debug, PartialEq, Eq)]
pub struct WrapperMsg {
    pub protmsg: ProtMsg,
    pub sender: Replica,
    pub mac: crate::crypto::Hash,
}

/// Mathematical model of a [`WrapperMsg`].
pub ghost struct WrapperMsgView {
    pub protmsg: ProtMsgView,
    pub sender: Replica,
    pub mac: Seq<u8>,
}

impl View for WrapperMsg {
    type V = WrapperMsgView;

    open spec fn view(&self) -> WrapperMsgView {
        WrapperMsgView { protmsg: self.protmsg@, sender: self.sender, mac: self.mac@ }
    }
}

impl WrapperMsgView {
    /// The envelope's tag is the HMAC of the encoded payload under `key`.
    pub open spec fn mac_valid(self, key: Seq<u8>) -> bool {
        self.mac == crypto::hmac_sha256_of(key, codec::enc_prot(self.protmsg))
    }
}

impl WrapperMsg {
    /// Builds the envelope for `msg` as sent by `sender`: the payload, the
    /// sender id, and the HMAC tag of the encoded payload under `sk`.
    pub fn new(msg: ProtMsg, sender: Replica, sk: &[u8]) -> (r: WrapperMsg)
        ensures
            r@.protmsg == msg@,
            r@.sender == sender,
            r@.mac_valid(sk@),
    {
        let bytes = codec::encode_prot_msg(&msg);
        let mac = crypto::do_mac(bytes.as_slice(), sk);
        WrapperMsg { protmsg: msg, mac, sender }
    }
}

} // verus!
