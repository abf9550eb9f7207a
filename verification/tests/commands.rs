use veldspar::commands::{parse_command, time_usage, tp_usage, Command};

/// The value `/time set` gives the time of day, when it reads as one between 0 and 1.
fn time_value(command: &Command) -> Option<f32> {
    match command {
        Command::TimeSet(text) => match text.parse::<f32>() {
            Ok(v) if (0.0..=1.0).contains(&v) => Some(v),
            _ => None,
        },
        _ => None,
    }
}

/// The coordinates `/tp` moves a player to, when all three read as numbers.
fn teleport_target(command: &Command) -> Option<(String, f32, f32, f32)> {
    match command {
        Command::Teleport { player, x, y, z } => match (x.parse::<f32>(), y.parse::<f32>(), z.parse::<f32>()) {
            (Ok(x), Ok(y), Ok(z)) => Some((player.clone(), x, y, z)),
            _ => None,
        },
        _ => None,
    }
}

#[test]
fn parses_required_commands() {
    assert_eq!(parse_command("/stop"), Command::Stop);
    assert_eq!(parse_command("list"), Command::List);
    assert_eq!(parse_command("/help"), Command::Help);
    assert_eq!(parse_command("/say hello world"), Command::Say("hello world".to_string()));
    assert_eq!(parse_command("/time set 0.25"), Command::TimeSet("0.25".to_string()));
    assert_eq!(time_value(&parse_command("/time set 0.25")), Some(0.25));
    assert_eq!(parse_command("/kick Player2"), Command::Kick("Player2".into()));
}

#[test]
fn parses_tp_and_reports_usage_errors() {
    assert_eq!(
        teleport_target(&parse_command("/tp Player1 10 64 -2")),
        Some(("Player1".to_string(), 10.0, 64.0, -2.0))
    );
    assert_eq!(
        parse_command("/time set 2.0"),
        Command::InvalidUsage(
            "Usage: /time set <value>, where value is between 0.0 and 1.0".to_string()
        )
    );
    assert_eq!(
        parse_command("/kick"),
        Command::InvalidUsage("Usage: /kick <player|id>".to_string())
    );
}

#[test]
fn blank_lines_and_a_lone_slash_do_nothing() {
    assert_eq!(parse_command(""), Command::Noop);
    assert_eq!(parse_command("   \t "), Command::Noop);
    assert_eq!(parse_command("/"), Command::Noop);
    assert_eq!(parse_command("  /  "), Command::Noop);
}

#[test]
fn command_names_ignore_case_and_surrounding_space() {
    assert_eq!(parse_command("  /STOP  "), Command::Stop);
    assert_eq!(parse_command("LiSt"), Command::List);
    assert_eq!(parse_command("/Say   spaced   out  "), Command::Say("spaced   out".to_string()));
    assert_eq!(parse_command("/time SET 0.5"), Command::TimeSet("0.5".to_string()));
}

#[test]
fn unknown_commands_keep_their_text() {
    assert_eq!(parse_command("/Dance now"), Command::Unknown("Dance now".to_string()));
    assert_eq!(parse_command("//stop"), Command::Unknown("/stop".to_string()));
}

#[test]
fn usage_errors_for_missing_or_extra_arguments() {
    assert_eq!(parse_command("/say"), Command::InvalidUsage("Usage: /say <message>".to_string()));
    assert_eq!(parse_command("/time"), Command::InvalidUsage(time_usage()));
    assert_eq!(parse_command("/time set"), Command::InvalidUsage(time_usage()));
    assert_eq!(parse_command("/time set 1 2"), Command::InvalidUsage(time_usage()));
    assert_eq!(parse_command("/time get 1"), Command::InvalidUsage(time_usage()));
    assert_eq!(parse_command("/time set -0.5"), Command::InvalidUsage(time_usage()));
    assert_eq!(parse_command("/time set noon"), Command::InvalidUsage(time_usage()));
    assert_eq!(parse_command("/time set NaN"), Command::InvalidUsage(time_usage()));
    assert_eq!(parse_command("/time set 1"), Command::TimeSet("1".to_string()));
    assert_eq!(parse_command("/time set -0"), Command::TimeSet("-0".to_string()));
    assert_eq!(parse_command("/tp a 1 2"), Command::InvalidUsage(tp_usage()));
    assert_eq!(parse_command("/tp a 1 2 3 4"), Command::InvalidUsage(tp_usage()));
    assert_eq!(tp_usage(), "Usage: /tp <player|id> <x> <y> <z>".to_string());
}

#[test]
fn teleport_keeps_its_arguments_as_typed() {
    assert_eq!(
        parse_command("/tp  Steve\t1.5  -2 3e1"),
        Command::Teleport {
            player: "Steve".to_string(),
            x: "1.5".to_string(),
            y: "-2".to_string(),
            z: "3e1".to_string(),
        }
    );
    assert_eq!(parse_command("/tp Steve a 2 3"), Command::InvalidUsage(tp_usage()));
    assert_eq!(parse_command("/tp Steve 1 2 3."), Command::Teleport {
        player: "Steve".to_string(),
        x: "1".to_string(),
        y: "2".to_string(),
        z: "3.".to_string(),
    });
    assert_eq!(parse_command("/tp Steve inf -NaN 1E-3"), Command::Teleport {
        player: "Steve".to_string(),
        x: "inf".to_string(),
        y: "-NaN".to_string(),
        z: "1E-3".to_string(),
    });
}

#[test]
fn a_leading_slash_is_optional() {
    for line in ["stop", "say hi there", "time set 0.5", "tp p 1 2 3", "kick 12", "frobnicate"] {
        assert_eq!(parse_command(&format!("/{line}")), parse_command(line));
    }
}

#[test]
fn unicode_whitespace_separates_words() {
    assert_eq!(parse_command("\u{3000}/say\u{2003}hi\u{a0}"), Command::Say("hi".to_string()));
}

#[test]
fn trimming_and_the_case_of_the_command_word_change_nothing() {
    for line in ["  /say  hi  ", "\ttp a 1 2 3 ", " KICK Bob", "/Time Set 0.5  ", "  frob  "] {
        assert_eq!(parse_command(line), parse_command(line.trim()));
    }
    assert_eq!(parse_command(" /STOP "), Command::Stop);
    assert_eq!(parse_command("Say hello"), parse_command("sAY hello"));
    assert_eq!(parse_command("HeLp"), Command::Help);
}
