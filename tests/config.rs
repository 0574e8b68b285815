use mc_snitch::config::BotConfig;

#[test]
fn guild_ids_parse_as_decimal() {
    assert_eq!(BotConfig::parse_guild_id("0"), Some(0));
    assert_eq!(BotConfig::parse_guild_id("1234567890123"), Some(1234567890123));
    assert_eq!(BotConfig::parse_guild_id("+42"), Some(42));
    assert_eq!(BotConfig::parse_guild_id("007"), Some(7));
    assert_eq!(BotConfig::parse_guild_id("18446744073709551615"), Some(u64::MAX));
}

#[test]
fn bad_guild_ids_are_refused() {
    assert_eq!(BotConfig::parse_guild_id(""), None);
    assert_eq!(BotConfig::parse_guild_id("+"), None);
    assert_eq!(BotConfig::parse_guild_id("-1"), None);
    assert_eq!(BotConfig::parse_guild_id("12a"), None);
    assert_eq!(BotConfig::parse_guild_id(" 12"), None);
    assert_eq!(BotConfig::parse_guild_id("18446744073709551616"), None);
    assert_eq!(BotConfig::parse_guild_id("99999999999999999999"), None);
}

#[test]
fn guild_ids_agree_with_std() {
    for s in ["0", "+9", "12345", "18446744073709551615", "18446744073709551616", "x", "", "++1"] {
        assert_eq!(BotConfig::parse_guild_id(s), s.parse::<u64>().ok());
    }
}

#[test]
fn config_keeps_its_values() {
    let c = BotConfig::new("mc".to_string(), Some(5));
    assert_eq!(c.container_name, "mc");
    assert_eq!(c.guild_id, Some(5));
}
