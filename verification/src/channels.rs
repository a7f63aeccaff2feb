use vstd::prelude::*;

verus! {

/// The channel of a player's key commands, from client to server.
pub struct PlayerCommandChannel;

/// The channel of a player's moves, from client to server.
pub struct PlayerActionChannel;

/// The channel of the game's state, from server to clients.
pub struct GameSystemChannel;

/// The channel that tells a client which entity it owns.
pub struct EntityAssignmentChannel;

/// The set of channels of the game protocol.
pub struct ChannelsPlugin;

} // verus!
