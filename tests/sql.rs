use mc_snitch::sql::{PlayerJoinIgnore, PlayerJoinServerChannel, SqlU64};

#[test]
fn small_ids_store_unchanged() {
    assert_eq!(SqlU64::new(42).to_db(), 42);
    assert_eq!(SqlU64::from_db(42).get(), 42);
}

#[test]
fn large_ids_wrap_into_negative_columns() {
    assert_eq!(SqlU64::new(u64::MAX).to_db(), -1);
    assert_eq!(SqlU64::new(1 << 63).to_db(), i64::MIN);
    assert_eq!(SqlU64::from_db(-1).get(), u64::MAX);
    assert_eq!(SqlU64::from_db(i64::MIN).get(), 1 << 63);
}

#[test]
fn ids_round_trip_through_columns() {
    for v in [0u64, 1, 1 << 62, (1 << 63) - 1, 1 << 63, u64::MAX - 5, u64::MAX] {
        assert_eq!(SqlU64::from_db(SqlU64::new(v).to_db()).get(), v);
    }
    assert_eq!(SqlU64::from(7u64), SqlU64::new(7));
}

#[test]
fn rows_keep_their_values() {
    let c = PlayerJoinServerChannel::new(1, 2);
    assert_eq!(c.guild_id.get(), 1);
    assert_eq!(c.channel_id.get(), 2);
    let i = PlayerJoinIgnore::new(99, "Bob".to_string());
    assert_eq!(i.discord_id().get(), 99);
    assert_eq!(i.player_name(), "Bob");
}
