//! The control channels that are open, by service and by session key.

use vstd::prelude::*;

use crate::key_map::DigestMap;
use crate::protocol::Digest;

verus! {

/// The open channels. A channel is known by the digest of its service and by its session key;
/// its handle is a number.
pub struct ChannelsView {
    /// The session key and the handle of the channel of a service.
    pub by_service: Map<Seq<u8>, (Seq<u8>, u64)>,
    /// The service and the handle of the channel with a session key.
    pub by_session: Map<Seq<u8>, (Seq<u8>, u64)>,
}

impl ChannelsView {
    /// No channels.
    pub open spec fn empty() -> ChannelsView {
        ChannelsView { by_service: Map::empty(), by_session: Map::empty() }
    }

    /// Whether both sides speak of the same channels.
    pub open spec fn wf(self) -> bool {
        &&& forall|s: Seq<u8>| #[trigger]
            self.by_service.dom().contains(s) ==> self.by_session.dom().contains(
                self.by_service[s].0,
            ) && self.by_session[self.by_service[s].0] == (s, self.by_service[s].1)
        &&& forall|k: Seq<u8>| #[trigger]
            self.by_session.dom().contains(k) ==> self.by_service.dom().contains(
                self.by_session[k].0,
            ) && self.by_service[self.by_session[k].0] == (k, self.by_session[k].1)
    }

    /// Whether a channel can be added: neither its service nor its session key is in use.
    pub open spec fn is_free(self, service: Seq<u8>, session: Seq<u8>) -> bool {
        !self.by_service.dom().contains(service) && !self.by_session.dom().contains(session)
    }

    /// The channels with one more.
    pub open spec fn with(self, service: Seq<u8>, session: Seq<u8>, handle: u64) -> ChannelsView {
        ChannelsView {
            by_service: self.by_service.insert(service, (session, handle)),
            by_session: self.by_session.insert(session, (service, handle)),
        }
    }

    /// The channels without that of a service.
    pub open spec fn without(self, service: Seq<u8>) -> ChannelsView {
        if self.by_service.dom().contains(service) {
            ChannelsView {
                by_service: self.by_service.remove(service),
                by_session: self.by_session.remove(self.by_service[service].0),
            }
        } else {
            self
        }
    }

    /// The handle of the channel of a service.
    pub open spec fn of_service(self, service: Seq<u8>) -> Option<u64> {
        if self.by_service.dom().contains(service) {
            Some(self.by_service[service].1)
        } else {
            None
        }
    }

    /// The handle of the channel with a session key.
    pub open spec fn of_session(self, session: Seq<u8>) -> Option<u64> {
        if self.by_session.dom().contains(session) {
            Some(self.by_session[session].1)
        } else {
            None
        }
    }
}

/// The open control channels.
pub struct ChannelTable {
    by_service: DigestMap<(Digest, u64)>,
    by_session: DigestMap<(Digest, u64)>,
}

impl View for ChannelTable {
    type V = ChannelsView;

    closed spec fn view(&self) -> ChannelsView {
        ChannelsView {
            by_service: self.by_service@.map_values(|c: (Digest, u64)| (c.0@, c.1)),
            by_session: self.by_session@.map_values(|c: (Digest, u64)| (c.0@, c.1)),
        }
    }
}

impl ChannelTable {
    /// Makes a table without channels.
    pub fn new() -> (r: Self)
        ensures
            r@ == ChannelsView::empty(),
            r@.wf(),
    {
        let r = ChannelTable { by_service: DigestMap::new(), by_session: DigestMap::new() };
        assert(r@.by_service =~= Map::<Seq<u8>, (Seq<u8>, u64)>::empty());
        assert(r@.by_session =~= Map::<Seq<u8>, (Seq<u8>, u64)>::empty());
        r
    }

    /// The handle of the channel of a service.
    pub fn get1(&self, service: &Digest) -> (r: Option<u64>)
        ensures
            r == self@.of_service(service@),
    {
        match self.by_service.get(service) {
            Some(c) => Some(c.1),
            None => None,
        }
    }

    /// The handle of the channel with a session key.
    pub fn get2(&self, session: &Digest) -> (r: Option<u64>)
        ensures
            r == self@.of_session(session@),
    {
        match self.by_session.get(session) {
            Some(c) => Some(c.1),
            None => None,
        }
    }

    /// Adds a channel, unless its service or its session key is in use.
    pub fn insert(&mut self, service: Digest, session: Digest, handle: u64) -> (r: bool)
        ensures
            r == old(self)@.is_free(service@, session@),
            final(self)@ == (if r {
                old(self)@.with(service@, session@, handle)
            } else {
                old(self)@
            }),
            old(self)@.wf() ==> final(self)@.wf(),
    {
        if self.by_service.get(&service).is_some() || self.by_session.get(&session).is_some() {
            return false;
        }
        self.by_service.insert(service, (session, handle));
        self.by_session.insert(session, (service, handle));
        proof {
            let after = old(self)@.with(service@, session@, handle);
            assert(self@.by_service =~= after.by_service);
            assert(self@.by_session =~= after.by_session);
            if old(self)@.wf() {
                adding_keeps_wf(old(self)@, service@, session@, handle);
            }
        }
        true
    }

    /// Takes the channel of a service out and gives back its handle.
    pub fn remove1(&mut self, service: &Digest) -> (r: Option<u64>)
        ensures
            r == old(self)@.of_service(service@),
            final(self)@ == old(self)@.without(service@),
            old(self)@.wf() ==> final(self)@.wf(),
    {
        let found = match self.by_service.get(service) {
            Some(c) => Some((c.0, c.1)),
            None => None,
        };
        match found {
            Some((session, handle)) => {
                self.by_service.remove(service);
                self.by_session.remove(&session);
                proof {
                    let after = old(self)@.without(service@);
                    assert(self@.by_service =~= after.by_service);
                    assert(self@.by_session =~= after.by_session);
                    if old(self)@.wf() {
                        removed_channel_is_gone(old(self)@, service@);
                    }
                }
                Some(handle)
            },
            None => None,
        }
    }
}

// ---------- what follows ----------

/// A channel that was added is found by its service and by its session key.
pub proof fn added_channel_is_found(
    channels: ChannelsView,
    service: Seq<u8>,
    session: Seq<u8>,
    handle: u64,
)
    ensures
        channels.with(service, session, handle).of_service(service) == Some(handle),
        channels.with(service, session, handle).of_session(session) == Some(handle),
{
}

/// A channel is free where no channel has its service or its session key. Adding or taking out
/// a channel changes nothing of the channels of other services.
pub proof fn other_channels_stay(
    channels: ChannelsView,
    service: Seq<u8>,
    session: Seq<u8>,
    handle: u64,
    other: Seq<u8>,
    key: Seq<u8>,
)
    requires
        channels.wf(),
    ensures
        channels.is_free(service, session) <==> channels.of_service(service) is None
            && channels.of_session(session) is None,
        other != service ==> channels.with(service, session, handle).of_service(other)
            == channels.of_service(other),
        key != session ==> channels.with(service, session, handle).of_session(key)
            == channels.of_session(key),
        other != service ==> channels.without(service).of_service(other) == channels.of_service(
            other,
        ),
        channels.by_service.dom().contains(other) && other != service ==> channels.without(
            service,
        ).of_session(channels.by_service[other].0) == Some(channels.by_service[other].1),
        ChannelsView::empty().of_service(service) is None,
        ChannelsView::empty().of_session(session) is None,
{
    if channels.by_service.dom().contains(other) && other != service {
        let k = channels.by_service[other].0;
        assert(channels.by_session[k].0 == other);
        if channels.by_service.dom().contains(service) {
            assert(channels.by_session[channels.by_service[service].0].0 == service);
        }
    }
}

/// Adding a free channel keeps both sides in agreement.
pub proof fn adding_keeps_wf(
    channels: ChannelsView,
    service: Seq<u8>,
    session: Seq<u8>,
    handle: u64,
)
    requires
        channels.wf(),
        channels.is_free(service, session),
    ensures
        channels.with(service, session, handle).wf(),
{
    let after = channels.with(service, session, handle);
    assert forall|s: Seq<u8>| #[trigger]
        after.by_service.dom().contains(s) implies after.by_session.dom().contains(
        after.by_service[s].0,
    ) && after.by_session[after.by_service[s].0] == (s, after.by_service[s].1) by {
        if s != service {
            assert(channels.by_service.dom().contains(s));
        }
    }
    assert forall|k: Seq<u8>| #[trigger]
        after.by_session.dom().contains(k) implies after.by_service.dom().contains(
        after.by_session[k].0,
    ) && after.by_service[after.by_session[k].0] == (k, after.by_session[k].1) by {
        if k != session {
            assert(channels.by_session.dom().contains(k));
        }
    }
}

/// Taking out the channel of a service keeps both sides in agreement, and leaves nothing of
/// the channel: neither its service nor its session key leads to it.
pub proof fn removed_channel_is_gone(channels: ChannelsView, service: Seq<u8>)
    requires
        channels.wf(),
    ensures
        channels.without(service).wf(),
        channels.without(service).of_service(service) is None,
        channels.by_service.dom().contains(service) ==> channels.without(service).of_session(
            channels.by_service[service].0,
        ) is None,
{
    let after = channels.without(service);
    if channels.by_service.dom().contains(service) {
        let session = channels.by_service[service].0;
        assert(channels.by_session[session].0 == service);
        assert forall|s: Seq<u8>| #[trigger]
            after.by_service.dom().contains(s) implies after.by_session.dom().contains(
            after.by_service[s].0,
        ) && after.by_session[after.by_service[s].0] == (s, after.by_service[s].1) by {
            assert(channels.by_service.dom().contains(s));
        }
        assert forall|k: Seq<u8>| #[trigger]
            after.by_session.dom().contains(k) implies after.by_service.dom().contains(
            after.by_session[k].0,
        ) && after.by_service[after.by_session[k].0] == (k, after.by_session[k].1) by {
            assert(channels.by_session.dom().contains(k));
        }
    }
}

} // verus!
