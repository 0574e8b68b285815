use mc_snitch::classify::player_joined_catch;

#[test]
fn should_match() {
    // Normal name
    let s = "[20:41:25 INFO]: sally joined the game";
    assert_eq!(player_joined_catch(s), Some("sally"));

    // normal with caps
    let s = "[20:41:25 INFO]: Sally joined the game";
    assert_eq!(player_joined_catch(s), Some("Sally"));

    // Multi word name
    let s = "[20:41:25 INFO]: Sally Whiller joined the game";
    assert_eq!(player_joined_catch(s), Some("Sally Whiller"));

    // Single character name
    let s = "[20:41:25 INFO]: a joined the game";
    assert_eq!(player_joined_catch(s), Some("a"));

    // just a space
    let s = "[20:41:25 INFO]:   joined the game";
    assert_eq!(player_joined_catch(s), Some(" "));
}

#[test]
fn no_match() {
    // chat messages
    assert_eq!(
        player_joined_catch("[13:18:57 INFO]: <BalloonsAndPeople> Wiliam joined the game"),
        None
    );
    assert_eq!(
        player_joined_catch("[13:18:57 INFO]: <John> someone joined the game"),
        None
    );
    assert_eq!(
        player_joined_catch("[13:18:57 INFO]: <Alice> I joined the game yesterday"),
        None
    );
}

#[test]
fn empty_name_is_a_join() {
    assert_eq!(player_joined_catch("[ts INFO]:  joined the game"), Some(""));
}

#[test]
fn blank_names_are_kept_untrimmed() {
    let line = format!("[ts INFO]: {}{}", "    ", " joined the game");
    assert_eq!(player_joined_catch(&line), Some("    "));
    assert_eq!(player_joined_catch("[ts INFO]:  Bob  joined the game"), Some(" Bob "));
}

#[test]
fn chat_marker_wins_over_suffix() {
    assert_eq!(player_joined_catch("[10:00:00 INFO]: <Carl> Bob joined the game"), None);
    assert_eq!(player_joined_catch("]: <"), None);
}

#[test]
fn missing_suffix_or_header_is_no_join() {
    assert_eq!(player_joined_catch(""), None);
    assert_eq!(player_joined_catch("[10:00:00 INFO]: Bob left the game"), None);
    assert_eq!(player_joined_catch("[10:00:00 INFO]: Bob joined the gam"), None);
    assert_eq!(player_joined_catch("Bob joined the game"), None);
    assert_eq!(player_joined_catch(" joined the game"), None);
}

#[test]
fn name_starts_after_first_header_marker() {
    assert_eq!(
        player_joined_catch("[10:00:00 INFO]: [x]: Bob joined the game"),
        Some("[x]: Bob")
    );
}

#[test]
fn non_ascii_names_are_kept_whole() {
    assert_eq!(player_joined_catch("[10:00:00 INFO]: Zoë joined the game"), Some("Zoë"));
    assert_eq!(player_joined_catch("[10:00:00 INFO]: 名前 joined the game"), Some("名前"));
}
