use mc_snitch::snitch::{
    announcement, Action, DeliveryError, FanoutReport, LookupError, StreamPump,
    PLAYER_ANNOUNCE_COOLDOWN,
};
use mc_snitch::sql::PlayerJoinServerChannel;

/// Drives one line through the pump the way a caller does, answering the
/// ignore check with `ignored`, the channel list with `targets`, and failing
/// the deliveries to the channels in `failing`. Returns the messages sent
/// and the fan-out report, if the pass reached one.
fn drive(
    pump: &mut StreamPump,
    line: &str,
    now: u64,
    ignored: Result<bool, LookupError>,
    targets: Result<Vec<PlayerJoinServerChannel>, LookupError>,
    failing: &[PlayerJoinServerChannel],
) -> (Vec<(PlayerJoinServerChannel, String)>, Option<FanoutReport>) {
    let mut sent = Vec::new();
    let mut ignored = Some(ignored);
    let mut targets = Some(targets);
    let mut action = pump.on_line(line, now);
    loop {
        action = match action {
            Action::Await => return (sent, None),
            Action::Done(report) => return (sent, Some(report)),
            Action::CheckIgnore(_) => pump.on_ignore_lookup(ignored.take().unwrap()),
            Action::FetchTargets => pump.on_targets(targets.take().unwrap()),
            Action::Deliver(target, text) => {
                let outcome = if failing.contains(&target) {
                    Err(DeliveryError { message: "unreachable".to_string() })
                } else {
                    sent.push((target, text));
                    Ok(())
                };
                pump.on_delivery(outcome)
            }
        };
    }
}

fn channel(n: u64) -> PlayerJoinServerChannel {
    PlayerJoinServerChannel::new(1, n)
}

#[test]
fn announcement_text() {
    assert_eq!(announcement("Bob"), "Bob just joined the server!");
    assert_eq!(announcement(""), " just joined the server!");
}

#[test]
fn fanout_survives_one_failing_channel() {
    let (a, b, c) = (channel(10), channel(20), channel(30));
    let mut pump = StreamPump::new(PLAYER_ANNOUNCE_COOLDOWN);
    let (sent, report) = drive(
        &mut pump,
        "[10:00:00 INFO]: Bob joined the game",
        0,
        Ok(false),
        Ok(vec![a, b, c]),
        &[b],
    );
    let text = "Bob just joined the server!".to_string();
    assert_eq!(sent, vec![(a, text.clone()), (c, text)]);
    let report = report.unwrap();
    assert_eq!(report.deliveries.len(), 3);
    assert_eq!(report.failed_targets(), vec![b]);
    assert_eq!(report.succeeded_targets(), vec![a, c]);
}

#[test]
fn join_announced_once_per_cooldown() {
    let target = channel(7);
    let line = "[10:00:00 INFO]: Bob joined the game";
    let mut pump = StreamPump::new(600);

    let (sent, report) = drive(&mut pump, line, 1000, Ok(false), Ok(vec![target]), &[]);
    assert_eq!(sent, vec![(target, "Bob just joined the server!".to_string())]);
    assert!(report.unwrap().failed_targets().is_empty());

    let (sent, report) = drive(&mut pump, line, 1001, Ok(false), Ok(vec![target]), &[]);
    assert!(sent.is_empty());
    assert!(report.is_none());

    let (sent, _) = drive(&mut pump, line, 1600, Ok(false), Ok(vec![target]), &[]);
    assert_eq!(sent, vec![(target, "Bob just joined the server!".to_string())]);
}

#[test]
fn chat_line_changes_nothing() {
    let mut pump = StreamPump::new(600);
    let (sent, report) = drive(
        &mut pump,
        "[10:00:00 INFO]: <Carl> Bob joined the game yesterday",
        1000,
        Ok(false),
        Ok(vec![channel(1)]),
        &[],
    );
    assert!(sent.is_empty());
    assert!(report.is_none());
    assert_eq!(pump.presence_len(), 0);
}

#[test]
fn ignored_player_is_not_announced_but_cools_down() {
    let line = "[10:00:00 INFO]: Bob joined the game";
    let mut pump = StreamPump::new(600);
    let (sent, report) = drive(&mut pump, line, 0, Ok(true), Ok(vec![channel(1)]), &[]);
    assert!(sent.is_empty());
    assert!(report.is_none());
    assert_eq!(pump.presence_len(), 1);
    assert!(matches!(pump.on_line(line, 1), Action::Await));
}

#[test]
fn ignore_lookup_failure_fails_closed() {
    let mut pump = StreamPump::new(600);
    let (sent, report) = drive(
        &mut pump,
        "[10:00:00 INFO]: Bob joined the game",
        0,
        Err(LookupError { message: "db down".to_string() }),
        Ok(vec![channel(1)]),
        &[],
    );
    assert!(sent.is_empty());
    assert!(report.is_none());
}

#[test]
fn target_lookup_failure_skips_the_pass() {
    let mut pump = StreamPump::new(600);
    let (sent, report) = drive(
        &mut pump,
        "[10:00:00 INFO]: Bob joined the game",
        0,
        Ok(false),
        Err(LookupError { message: "db down".to_string() }),
        &[],
    );
    assert!(sent.is_empty());
    assert!(report.is_none());
    // the pump is idle again and takes the next line
    assert!(matches!(
        pump.on_line("[10:00:01 INFO]: Alice joined the game", 1),
        Action::CheckIgnore(name) if name == "Alice"
    ));
}

#[test]
fn no_subscribers_is_an_empty_report() {
    let mut pump = StreamPump::new(600);
    let (sent, report) = drive(
        &mut pump,
        "[10:00:00 INFO]: Bob joined the game",
        0,
        Ok(false),
        Ok(vec![]),
        &[],
    );
    assert!(sent.is_empty());
    assert!(report.unwrap().deliveries.is_empty());
}

#[test]
fn events_out_of_turn_are_ignored() {
    let mut pump = StreamPump::new(600);
    assert!(matches!(pump.on_ignore_lookup(Ok(false)), Action::Await));
    assert!(matches!(pump.on_targets(Ok(vec![channel(1)])), Action::Await));
    assert!(matches!(pump.on_delivery(Ok(())), Action::Await));
    assert!(matches!(
        pump.on_line("[10:00:00 INFO]: Bob joined the game", 0),
        Action::CheckIgnore(_)
    ));
    // while waiting on the ignore list, further lines are not taken
    assert!(matches!(
        pump.on_line("[10:00:00 INFO]: Eve joined the game", 0),
        Action::Await
    ));
    assert_eq!(pump.presence_len(), 1);
}
