//! Who a stream is addressed to (or, coming from the server, who sent it).
use crate::reader::ByteReader;
use vstd::prelude::*;

verus! {

/// Why a scope could not be read.
#[derive(Debug, PartialEq, Eq, Structural)]
pub enum ScopeError {
    /// The kind byte names no scope.
    InvalidScope { kind: u8, extra: u8 },
    /// The input ended before both scope bytes were read.
    UnexpectedEof,
}

// u16
// byte 0: scope_id: u8,
// byte 1: scope_extra: u8,
#[derive(Debug, Clone, Copy, PartialEq, Eq, Structural)]
pub enum Scope {
    /// a single player
    Player(PlayerScope),
    /// all players in my map
    InMap(MapScope),
    /// all players in my server
    Server(ServerScope),
}

/// a single player
#[derive(Debug, Clone, Copy, PartialEq, Eq, Structural)]
pub struct PlayerScope {
    /// target player id if from client
    ///
    /// sender player id if from server
    pub player_id: u8,
}

/// all players in my map
#[derive(Debug, Default, Clone, Copy, PartialEq, Eq, Structural)]
pub struct MapScope {
    /// only send to those that have the same plugin that uses the same channel
    /// this was sent from (mask 1000_0000 of the extra byte)
    pub have_plugin: bool,
}

/// all players in my server
#[derive(Debug, Default, Clone, Copy, PartialEq, Eq, Structural)]
pub struct ServerScope {
    /// only send to those that have the same plugin that uses the same channel
    /// this was sent from (mask 1000_0000 of the extra byte)
    pub have_plugin: bool,
}

/// The extra byte of a map or server scope: bit 7 set when only peers that
/// have the plugin are addressed.
pub open spec fn have_plugin_byte(have_plugin: bool) -> u8 {
    if have_plugin {
        0x80u8
    } else {
        0u8
    }
}

/// The scope that a kind byte and an extra byte encode.
pub open spec fn scope_from_bytes(kind: u8, extra: u8) -> Result<Scope, ScopeError> {
    if kind == 0 {
        Ok(Scope::Player(PlayerScope { player_id: extra }))
    } else if kind == 1 {
        Ok(Scope::InMap(MapScope { have_plugin: (extra & 0x80u8) != 0u8 }))
    } else if kind == 2 {
        Ok(Scope::Server(ServerScope { have_plugin: (extra & 0x80u8) != 0u8 }))
    } else {
        Err(ScopeError::InvalidScope { kind, extra })
    }
}

/// What decoding a scope from the front of `s` gives; on success two bytes
/// are consumed.
pub open spec fn parse_scope(s: Seq<u8>) -> Result<Scope, ScopeError> {
    if s.len() < 2 {
        Err(ScopeError::UnexpectedEof)
    } else {
        scope_from_bytes(s[0], s[1])
    }
}

impl Scope {
    /// The number that identifies the kind of scope on the wire.
    pub open spec fn spec_kind(self) -> u8 {
        match self {
            Scope::Player(_) => 0,
            Scope::InMap(_) => 1,
            Scope::Server(_) => 2,
        }
    }

    /// The byte that follows the kind on the wire.
    pub open spec fn spec_extra(self) -> u8 {
        match self {
            Scope::Player(p) => p.player_id,
            Scope::InMap(m) => have_plugin_byte(m.have_plugin),
            Scope::Server(s) => have_plugin_byte(s.have_plugin),
        }
    }

    /// The two-byte encoding of this scope.
    pub open spec fn spec_encode(self) -> Seq<u8> {
        seq![self.spec_kind(), self.spec_extra()]
    }

    /// The number that identifies the kind of scope on the wire.
    pub fn kind(&self) -> (r: u8)
        ensures
            r == self.spec_kind(),
            self is Player ==> r == 0,
            self is InMap ==> r == 1,
            self is Server ==> r == 2,
    {
        match self {
            Scope::Player(_) => 0,
            Scope::InMap(_) => 1,
            Scope::Server(_) => 2,
        }
    }

    /// Encodes the scope as its kind byte and extra byte. Writing into a
    /// fresh buffer cannot fail, so the result is always `Ok`.
    pub fn encode(&self) -> (r: Result<Vec<u8>, ScopeError>)
        ensures
            r matches Ok(v) && v@ == self.spec_encode(),
    {
        let mut data: Vec<u8> = Vec::with_capacity(2);
        data.push(self.kind());
        match self {
            Scope::Player(PlayerScope { player_id }) => {
                data.push(*player_id);
            },
            Scope::InMap(MapScope { have_plugin }) => {
                data.push(
                    if *have_plugin {
                        0b1000_0000
                    } else {
                        0
                    },
                );
            },
            Scope::Server(ServerScope { have_plugin }) => {
                data.push(
                    if *have_plugin {
                        0b1000_0000
                    } else {
                        0
                    },
                );
            },
        }
        Ok(data)
    }

    /// Decodes a scope from the front of `data_stream`: the kind byte, then
    /// the extra byte.
    pub fn decode(data_stream: &mut ByteReader) -> (r: Result<Scope, ScopeError>)
        ensures
            final(data_stream).data() == old(data_stream).data(),
            r == parse_scope(old(data_stream).rest()),
            r is Ok ==> final(data_stream).rest() == old(data_stream).rest().skip(2),
            old(data_stream).pos() <= final(data_stream).pos(),
    {
        let kind = match data_stream.read_u8() {
            Some(b) => b,
            None => {
                return Err(ScopeError::UnexpectedEof);
            },
        };
        let extra = match data_stream.read_u8() {
            Some(b) => b,
            None => {
                return Err(ScopeError::UnexpectedEof);
            },
        };
        if kind == 0 {
            Ok(Scope::Player(PlayerScope { player_id: extra }))
        } else if kind == 1 {
            let have_plugin = (extra & 0b1000_0000) != 0;
            Ok(Scope::InMap(MapScope { have_plugin }))
        } else if kind == 2 {
            let have_plugin = (extra & 0b1000_0000) != 0;
            Ok(Scope::Server(ServerScope { have_plugin }))
        } else {
            Err(ScopeError::InvalidScope { kind, extra })
        }
    }
}

impl From<PlayerScope> for Scope {
    fn from(scope: PlayerScope) -> (r: Self)
        ensures
            r == Scope::Player(scope),
    {
        Self::Player(scope)
    }
}

impl vstd::std_specs::convert::FromSpecImpl<PlayerScope> for Scope {
    open spec fn obeys_from_spec() -> bool {
        true
    }

    open spec fn from_spec(scope: PlayerScope) -> Self {
        Scope::Player(scope)
    }
}

impl From<MapScope> for Scope {
    fn from(scope: MapScope) -> (r: Self)
        ensures
            r == Scope::InMap(scope),
    {
        Self::InMap(scope)
    }
}

impl vstd::std_specs::convert::FromSpecImpl<MapScope> for Scope {
    open spec fn obeys_from_spec() -> bool {
        true
    }

    open spec fn from_spec(scope: MapScope) -> Self {
        Scope::InMap(scope)
    }
}

impl From<ServerScope> for Scope {
    fn from(scope: ServerScope) -> (r: Self)
        ensures
            r == Scope::Server(scope),
    {
        Self::Server(scope)
    }
}

impl vstd::std_specs::convert::FromSpecImpl<ServerScope> for Scope {
    open spec fn obeys_from_spec() -> bool {
        true
    }

    open spec fn from_spec(scope: ServerScope) -> Self {
        Scope::Server(scope)
    }
}

impl PlayerScope {
    pub fn new(player_id: u8) -> (r: Self)
        ensures
            r.player_id == player_id,
    {
        Self { player_id }
    }
}

/// The scope's two bytes: the kind (0 for a player, 1 for a map, 2 for a
/// server), then the player's id, or for a map or a server 128 when only
/// peers with the plugin are addressed and 0 otherwise; decoding reads the
/// same places, taking only the top bit of the extra byte for a map or a
/// server, and refuses any other kind.
pub proof fn lemma_scope_layout(s: Scope, kind: u8, extra: u8)
    ensures
        s.spec_encode().len() == 2,
        s.spec_encode()[0] == match s {
            Scope::Player(_) => 0u8,
            Scope::InMap(_) => 1u8,
            Scope::Server(_) => 2u8,
        },
        s.spec_encode()[1] == match s {
            Scope::Player(p) => p.player_id,
            Scope::InMap(m) => if m.have_plugin {
                128u8
            } else {
                0u8
            },
            Scope::Server(v) => if v.have_plugin {
                128u8
            } else {
                0u8
            },
        },
        kind == 0 ==> scope_from_bytes(kind, extra) == Ok::<Scope, ScopeError>(
            Scope::Player(PlayerScope { player_id: extra }),
        ),
        kind == 1 ==> scope_from_bytes(kind, extra) == Ok::<Scope, ScopeError>(
            Scope::InMap(MapScope { have_plugin: extra >= 128 }),
        ),
        kind == 2 ==> scope_from_bytes(kind, extra) == Ok::<Scope, ScopeError>(
            Scope::Server(ServerScope { have_plugin: extra >= 128 }),
        ),
        kind > 2 ==> scope_from_bytes(kind, extra) == Err::<Scope, ScopeError>(
            ScopeError::InvalidScope { kind, extra },
        ),
{
    assert((extra & 0x80u8 != 0u8) == (extra >= 128)) by (bit_vector);
}

/// Decoding the encoding of any scope gives the scope back, whatever follows
/// it.
pub proof fn lemma_scope_decode_encode(s: Scope, tail: Seq<u8>)
    ensures
        parse_scope(s.spec_encode() + tail) == Ok::<Scope, ScopeError>(s),
{
    assert(0x80u8 & 0x80u8 != 0u8) by (bit_vector);
    assert(0u8 & 0x80u8 == 0u8) by (bit_vector);
}

} // verus!
