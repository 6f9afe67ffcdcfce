//! A remote peer.

use crate::bitfield::Bitfield;
use crate::extension::Extension;
use crate::torrent::TorrentCtx;
use crate::tracker::TrackerCtx;
use std::sync::Arc;
use vstd::prelude::*;
use vstd::std_specs::convert::FromSpecImpl;

verus! {

/// The host part of an address.
#[derive(Debug, Clone, Copy, PartialEq, Eq)]
pub enum PeerIp {
    V4([u8; 4]),
    V6 { octets: [u8; 16], flowinfo: u32, scope_id: u32 },
}

/// The address that a peer listens on.
#[derive(Debug, Clone, Copy, PartialEq, Eq)]
pub struct PeerAddr {
    pub ip: PeerIp,
    pub port: u16,
}

/// Data about the remote peer that the client is connected to.
#[derive(Debug)]
pub struct Peer {
    /// If this client is choking this peer.
    pub am_choking: bool,
    /// If this client is interested in this peer.
    pub am_interested: bool,
    /// If this peer is choking the client.
    pub peer_choking: bool,
    /// If this peer is interested in the client.
    pub peer_interested: bool,
    /// The pieces that this peer has, and has not.
    pub pieces: Bitfield,
    /// The TCP address that this peer is listening on.
    pub addr: PeerAddr,
    pub extension: Extension,
    /// Updated when the peer sends its id, in the handshake.
    pub id: Option<[u8; 20]>,
    pub torrent_ctx: Option<Arc<TorrentCtx>>,
    pub tracker_ctx: Arc<TrackerCtx>,
    /// If the disk can be asked.
    pub has_disk: bool,
}

#[verifier::ext_equal]
pub struct PeerView {
    pub am_choking: bool,
    pub am_interested: bool,
    pub peer_choking: bool,
    pub peer_interested: bool,
    pub pieces: Seq<bool>,
    pub addr: PeerAddr,
    pub extension: Extension,
    pub id: Option<[u8; 20]>,
    pub torrent_ctx: Option<Arc<TorrentCtx>>,
    /// The id under which this client is known to its tracker.
    pub own_id: Seq<u8>,
    pub has_disk: bool,
}

impl View for Peer {
    type V = PeerView;

    open spec fn view(&self) -> PeerView {
        PeerView {
            am_choking: self.am_choking,
            am_interested: self.am_interested,
            peer_choking: self.peer_choking,
            peer_interested: self.peer_interested,
            pieces: self.pieces@,
            addr: self.addr,
            extension: self.extension,
            id: self.id,
            torrent_ctx: self.torrent_ctx,
            own_id: self.tracker_ctx.peer_id@,
            has_disk: self.has_disk,
        }
    }
}

/// A peer that nothing is known of but its address: it chokes and is choked, and nobody is
/// interested.
pub open spec fn stranger(addr: PeerAddr) -> PeerView {
    PeerView {
        am_choking: true,
        am_interested: false,
        peer_choking: true,
        peer_interested: false,
        pieces: Seq::empty(),
        addr,
        extension: crate::extension::no_extension(),
        id: None,
        torrent_ctx: None,
        own_id: Seq::new(20, |i: int| 0u8),
        has_disk: false,
    }
}

/// Whether this is the address of no host, with port 0.
pub open spec fn unspecified(addr: PeerAddr) -> bool {
    &&& addr.ip matches PeerIp::V4(octets)
    &&& octets@ == seq![0u8, 0, 0, 0]
    &&& addr.port == 0
}

impl Default for Peer {
    fn default() -> (peer: Peer)
        ensures
            unspecified(peer@.addr),
            peer@ == stranger(peer@.addr),
    {
        let octets: [u8; 4] = [0, 0, 0, 0];
        assert(octets@ =~= seq![0u8, 0, 0, 0]);
        Peer {
            am_choking: true,
            am_interested: false,
            peer_choking: true,
            peer_interested: false,
            pieces: Bitfield::default(),
            addr: PeerAddr { ip: PeerIp::V4(octets), port: 0 },
            extension: Extension::default(),
            id: None,
            torrent_ctx: None,
            tracker_ctx: Arc::new(TrackerCtx::default()),
            has_disk: false,
        }
    }
}

/// A peer from its address, as a tracker announces it.
impl From<PeerAddr> for Peer {
    fn from(addr: PeerAddr) -> (peer: Peer)
        ensures
            peer@ == stranger(addr),
    {
        Peer { addr, ..Default::default() }
    }
}

impl FromSpecImpl<PeerAddr> for Peer {
    open spec fn obeys_from_spec() -> bool {
        false
    }

    open spec fn from_spec(addr: PeerAddr) -> Peer {
        arbitrary()
    }
}

impl Peer {
    /// A peer of a torrent.
    pub fn new(torrent_ctx: Arc<TorrentCtx>) -> (peer: Peer)
        ensures
            unspecified(peer@.addr),
            peer@ == (PeerView { torrent_ctx: Some(torrent_ctx), ..stranger(peer@.addr) }),
    {
        Peer { torrent_ctx: Some(torrent_ctx), ..Default::default() }
    }

    /// The peer with another address.
    pub fn addr(self, addr: PeerAddr) -> (peer: Peer)
        ensures
            peer@ == (PeerView { addr, ..self@ }),
    {
        let mut peer = self;
        peer.addr = addr;
        peer
    }

    /// The peer with another torrent.
    pub fn torrent_ctx(self, ctx: Arc<TorrentCtx>) -> (peer: Peer)
        ensures
            peer@ == (PeerView { torrent_ctx: Some(ctx), ..self@ }),
    {
        let mut peer = self;
        peer.torrent_ctx = Some(ctx);
        peer
    }

    /// The peer with another id.
    pub fn id(self, id: [u8; 20]) -> (peer: Peer)
        ensures
            peer@ == (PeerView { id: Some(id), ..self@ }),
    {
        let mut peer = self;
        peer.id = Some(id);
        peer
    }
}

impl Clone for Peer {
    fn clone(&self) -> (copy: Peer)
        ensures
            copy@ == self@,
    {
        Peer {
            am_choking: self.am_choking,
            am_interested: self.am_interested,
            peer_choking: self.peer_choking,
            peer_interested: self.peer_interested,
            pieces: self.pieces.clone(),
            addr: self.addr,
            extension: self.extension,
            id: self.id,
            torrent_ctx: match &self.torrent_ctx {
                Some(ctx) => Some(Arc::clone(ctx)),
                None => None,
            },
            tracker_ctx: Arc::clone(&self.tracker_ctx),
            has_disk: self.has_disk,
        }
    }
}

} // verus!
