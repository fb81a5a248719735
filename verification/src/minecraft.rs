//! The Minecraft Java protocol: the `VarInt` codec and the offline proxy's logic.

pub mod varint;
pub mod java;
