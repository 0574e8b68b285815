//! Plain values of the rows that the subscription and ignore stores hold.
//!
//! Discord identifiers are unsigned 64-bit numbers, while the database column
//! type is a signed 64-bit integer; `SqlU64` carries the bits across.
use vstd::prelude::*;

verus! {

/// The signed value with the same 64 bits as `v`.
pub open spec fn signed_bits(v: u64) -> i64 {
    if v <= i64::MAX {
        v as i64
    } else {
        (v - 0x1_0000_0000_0000_0000) as i64
    }
}

/// The unsigned value with the same 64 bits as `v`.
pub open spec fn unsigned_bits(v: i64) -> u64 {
    if v >= 0 {
        v as u64
    } else {
        (v + 0x1_0000_0000_0000_0000) as u64
    }
}

/// An unsigned identifier stored in a signed 64-bit database column.
#[derive(Clone, Copy, Debug, PartialEq, Eq, Structural)]
pub struct SqlU64(pub u64);

impl SqlU64 {
    pub fn new(num: u64) -> (r: Self)
        ensures
            r.0 == num,
    {
        SqlU64(num)
    }

    /// The identifier read back from its column value.
    pub fn from_db(num: i64) -> (r: Self)
        ensures
            r.0 == unsigned_bits(num),
    {
        if num >= 0 {
            SqlU64(num as u64)
        } else {
            let low: i64 = num + i64::MAX + 1;
            SqlU64(low as u64 + 0x8000_0000_0000_0000u64)
        }
    }

    /// The column value that stores the identifier.
    pub fn to_db(&self) -> (r: i64)
        ensures
            r == signed_bits(self.0),
    {
        if self.0 <= i64::MAX as u64 {
            self.0 as i64
        } else {
            let low: u64 = self.0 - 0x8000_0000_0000_0000u64;
            low as i64 - i64::MAX - 1
        }
    }

    pub fn get(&self) -> (r: u64)
        ensures
            r == self.0,
    {
        self.0
    }
}

impl From<u64> for SqlU64 {
    fn from(value: u64) -> (r: Self) {
        SqlU64(value)
    }
}

impl vstd::std_specs::convert::FromSpecImpl<u64> for SqlU64 {
    open spec fn obeys_from_spec() -> bool {
        true
    }

    open spec fn from_spec(value: u64) -> Self {
        SqlU64(value)
    }
}

/// Storing an identifier and reading it back gives the identifier, and the
/// other way round.
pub proof fn lemma_db_round_trip(v: u64, c: i64)
    ensures
        unsigned_bits(signed_bits(v)) == v,
        signed_bits(unsigned_bits(c)) == c,
{
}

/// A channel that announces joins, in the guild it belongs to.
#[derive(Clone, Copy, Debug, PartialEq, Eq, Structural)]
pub struct PlayerJoinServerChannel {
    pub guild_id: SqlU64,
    pub channel_id: SqlU64,
}

impl PlayerJoinServerChannel {
    pub fn new(guild_id: u64, channel_id: u64) -> (r: Self)
        ensures
            r.guild_id.0 == guild_id,
            r.channel_id.0 == channel_id,
    {
        PlayerJoinServerChannel { guild_id: SqlU64(guild_id), channel_id: SqlU64(channel_id) }
    }
}

/// A user's wish that joins of a player name go unannounced.
#[derive(Clone, Debug)]
pub struct PlayerJoinIgnore {
    discord_id: SqlU64,
    player_name: String,
}

impl PlayerJoinIgnore {
    pub closed spec fn spec_discord_id(&self) -> u64 {
        self.discord_id.0
    }

    pub closed spec fn spec_player_name(&self) -> Seq<char> {
        self.player_name@
    }

    pub fn new(discord_id: u64, player_name: String) -> (r: Self)
        ensures
            r.spec_discord_id() == discord_id,
            r.spec_player_name() == player_name@,
    {
        PlayerJoinIgnore { discord_id: SqlU64(discord_id), player_name }
    }

    pub fn discord_id(&self) -> (r: SqlU64)
        ensures
            r.0 == self.spec_discord_id(),
    {
        self.discord_id
    }

    pub fn player_name(&self) -> (r: &String)
        ensures
            r@ == self.spec_player_name(),
    {
        &self.player_name
    }
}

} // verus!
