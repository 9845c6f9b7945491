//! Device and user identity, peer advertisements, and the choice of a
//! connection path to a peer.
use crate::model::DeviceId;
use crate::time::{TimeSpan, Timestamp};
use vstd::prelude::*;

verus! {

/// Identifier of a user.
pub type UserId = u128;

/// Identifier of a discovery session.
pub type SessionId = u128;

/// A socket address: an IPv4 address as its 32-bit value, or an IPv6
/// address as its 128-bit value with flow information and scope id, and a
/// port.
#[derive(Clone, Copy, Debug, PartialEq, Eq, Structural, Hash)]
pub enum SocketAddress {
    V4 { ip: u32, port: u16 },
    V6 { ip: u128, port: u16, flowinfo: u32, scope_id: u32 },
}

/// A device authenticated by its public key.
#[derive(Clone, Debug, PartialEq, Eq)]
pub struct DeviceIdentity {
    pub device_id: DeviceId,
    pub user_id: UserId,
    /// Public key bytes, such as an Ed25519 key.
    pub device_public_key: Vec<u8>,
    pub attested_at: Timestamp,
}

/// A user authentication token: an opaque bearer value or a signed proof.
#[derive(Clone, Debug, PartialEq, Eq)]
pub struct UserAuthToken {
    pub user_id: UserId,
    pub issued_at: Timestamp,
    pub expires_at: Timestamp,
    pub token: Vec<u8>,
}

/// What a peer advertises for discovery and connection attempts.
#[derive(Clone, Debug, PartialEq, Eq)]
pub struct PeerAdvertisement {
    pub device_id: DeviceId,
    pub user_id: UserId,
    pub session_id: SessionId,
    /// Direct peer-to-peer addresses, preferred.
    pub addresses: Vec<SocketAddress>,
    /// Relays to fall back on.
    pub relays: Vec<RelayHint>,
    pub advertised_at: Timestamp,
}

#[derive(Clone, Debug, PartialEq, Eq)]
pub struct RelayHint {
    pub relay_id: u128,
    pub url: String,
}

impl RelayHint {
    /// A field-by-field copy.
    pub fn duplicate(&self) -> (r: RelayHint)
        ensures
            r == *self,
    {
        RelayHint { relay_id: self.relay_id, url: self.url.clone() }
    }
}

/// A way to reach a peer: directly, or through a relay.
#[derive(Clone, Debug, PartialEq, Eq)]
pub enum ConnectionPath {
    PeerToPeer(SocketAddress),
    Relay { relay: RelayHint, via: SocketAddress },
}

/// The outcome of choosing a path to a peer.
#[derive(Clone, Debug, PartialEq, Eq)]
pub struct PathSelection {
    pub target: DeviceId,
    pub chosen: Option<ConnectionPath>,
    pub attempted: Vec<ConnectionPath>,
}

/// Discovery preferences; the durations are carried for the caller.
#[derive(Clone, Copy, Debug, PartialEq, Eq, Structural)]
pub struct DiscoveryConfig {
    pub prefer_p2p: bool,
    pub relay_timeout: TimeSpan,
    pub max_advert_age: TimeSpan,
}

#[derive(Clone, Copy, Debug, PartialEq, Eq, Structural)]
pub enum IdentityError {
    /// The token has expired.
    AuthExpired,
    /// The advertisement offers no way to reach the peer.
    NoPath,
}

impl UserAuthToken {
    /// The token is valid strictly before its expiry.
    pub fn is_valid(&self, now: Timestamp) -> (r: Result<(), IdentityError>)
        ensures
            r == if self.expires_at.spec_le(now) {
                Err(IdentityError::AuthExpired)
            } else {
                Ok(())
            },
    {
        if self.expires_at.le(&now) {
            return Err(IdentityError::AuthExpired);
        }
        Ok(())
    }
}

/// The unspecified IPv4 address with port zero, through which a relay is
/// reached when the peer advertises no address.
pub open spec fn unspecified_v4() -> SocketAddress {
    SocketAddress::V4 { ip: 0, port: 0 }
}

/// The path chosen for an advertisement: its first direct address when
/// direct paths are preferred and there is one; else its first relay, via
/// its first address or the unspecified one; else none.
pub open spec fn chosen_path(advert: PeerAdvertisement, config: DiscoveryConfig) -> Option<ConnectionPath> {
    if config.prefer_p2p && advert.addresses@.len() > 0 {
        Some(ConnectionPath::PeerToPeer(advert.addresses@[0]))
    } else if advert.relays@.len() > 0 {
        Some(
            ConnectionPath::Relay {
                relay: advert.relays@[0],
                via: if advert.addresses@.len() > 0 {
                    advert.addresses@[0]
                } else {
                    unspecified_v4()
                },
            },
        )
    } else {
        None
    }
}

/// Chooses a connection path to the advertised peer: a direct address
/// first when preferred, else a relay. The selection records the one path
/// attempted.
pub fn choose_path(advert: &PeerAdvertisement, config: &DiscoveryConfig) -> (r: Result<
    PathSelection,
    IdentityError,
>)
    ensures
        match chosen_path(*advert, *config) {
            Some(p) => r matches Ok(sel) && sel.target == advert.device_id && sel.chosen == Some(p)
                && sel.attempted@ == seq![p],
            None => r == Err::<PathSelection, IdentityError>(IdentityError::NoPath),
        },
{
    if config.prefer_p2p && advert.addresses.len() > 0 {
        let addr = advert.addresses[0];
        let mut attempted: Vec<ConnectionPath> = Vec::new();
        attempted.push(ConnectionPath::PeerToPeer(addr));
        assert(attempted@ =~= seq![ConnectionPath::PeerToPeer(addr)]);
        return Ok(
            PathSelection {
                target: advert.device_id,
                chosen: Some(ConnectionPath::PeerToPeer(addr)),
                attempted,
            },
        );
    }
    if advert.relays.len() > 0 {
        let via = if advert.addresses.len() > 0 {
            advert.addresses[0]
        } else {
            SocketAddress::V4 { ip: 0, port: 0 }
        };
        let mut attempted: Vec<ConnectionPath> = Vec::new();
        attempted.push(ConnectionPath::Relay { relay: advert.relays[0].duplicate(), via });
        assert(attempted@ =~= seq![ConnectionPath::Relay { relay: advert.relays@[0], via }]);
        return Ok(
            PathSelection {
                target: advert.device_id,
                chosen: Some(ConnectionPath::Relay { relay: advert.relays[0].duplicate(), via }),
                attempted,
            },
        );
    }
    Err(IdentityError::NoPath)
}

} // verus!
