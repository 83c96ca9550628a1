use optix::ipc::{
    client_command, client_line, client_response, execute, exit_code, socket_path, IpcCommand,
    IpcEffect, IpcRequest,
};
use optix::magic::{parse, Magic, NAMES};
use optix::session::{theme_feedback, themes_feedback};

#[test]
fn theme_with_name_sets_that_theme() {
    assert_eq!(parse("theme ayu"), Some(Magic::ThemeSet("ayu".into())));
    assert_eq!(parse("theme tokyonight"), Some(Magic::ThemeSet("tokyonight".into())));
}

#[test]
fn theme_alone_lists_themes() {
    assert_eq!(parse("theme"), Some(Magic::ThemeList));
    assert_eq!(parse("theme   "), Some(Magic::ThemeList));
    assert_eq!(parse("theme help"), Some(Magic::ThemeList));
    assert_eq!(parse("theme --help"), Some(Magic::ThemeList));
    assert_eq!(parse("theme -h"), Some(Magic::ThemeList));
}

#[test]
fn command_word_is_case_insensitive() {
    assert_eq!(parse("THEME ayu"), Some(Magic::ThemeSet("ayu".into())));
    assert_eq!(parse("Theme Ayu"), Some(Magic::ThemeSet("Ayu".into())));
}

#[test]
fn extra_whitespace_is_fine() {
    assert_eq!(parse("  theme   ayu  "), Some(Magic::ThemeSet("ayu".into())));
}

#[test]
fn non_magic_lines_pass_through() {
    assert_eq!(parse(""), None);
    assert_eq!(parse("ls -la"), None);
    assert_eq!(parse("themes ayu"), None);
    assert_eq!(parse("theme ayu extra"), None);
    assert_eq!(parse("echo theme ayu"), None);
}

#[test]
fn magic_lines_and_shell_lines_round_trip() {
    // The pure detection: "theme ayu" is magic, other lines are not.
    assert!(matches!(parse("theme ayu"), Some(Magic::ThemeSet(_))));
    assert!(parse("ls -la").is_none());
    assert!(parse("theme ayu extra").is_none());
}

#[test]
fn magic_names_are_listed() {
    assert_eq!(NAMES.to_vec(), vec!["theme"]);
}

#[test]
fn parse_known_commands() {
    assert_eq!(IpcCommand::parse("ping"), IpcCommand::Ping);
    assert_eq!(IpcCommand::parse("quit"), IpcCommand::Quit);
    assert_eq!(IpcCommand::parse("themes"), IpcCommand::Themes);
    assert_eq!(IpcCommand::parse("theme"), IpcCommand::Themes);
    assert_eq!(IpcCommand::parse("theme help"), IpcCommand::Themes);
    assert_eq!(IpcCommand::parse("theme -h"), IpcCommand::Themes);
    assert_eq!(IpcCommand::parse("theme ayu"), IpcCommand::ThemeSet("ayu".into()));
}

#[test]
fn parse_is_case_insensitive_and_trims() {
    assert_eq!(IpcCommand::parse("  THEME  AYU  "), IpcCommand::ThemeSet("AYU".into()));
    assert_eq!(IpcCommand::parse("Ping"), IpcCommand::Ping);
    assert_eq!(IpcCommand::parse("  theme  "), IpcCommand::Themes);
}

#[test]
fn parse_rejects_unknown_and_malformed() {
    assert!(matches!(IpcCommand::parse("ls"), IpcCommand::Unknown(_)));
    assert!(matches!(IpcCommand::parse("theme ayu extra"), IpcCommand::Unknown(_)));
    assert!(matches!(IpcCommand::parse("ping now"), IpcCommand::Unknown(_)));
    assert!(matches!(IpcCommand::parse(""), IpcCommand::Unknown(_)));
    assert!(matches!(IpcCommand::parse("   "), IpcCommand::Unknown(_)));
}

#[test]
fn unknown_commands_keep_their_line() {
    assert_eq!(IpcCommand::parse("  ls  -l "), IpcCommand::Unknown("ls  -l".into()));
    let kept = IpcCommand::Unknown("theme help extra".into());
    assert_eq!(IpcCommand::parse(" theme help extra"), kept);
    assert_eq!(IpcCommand::parse("theme --help x"), IpcCommand::Unknown("theme --help x".into()));
}

#[test]
fn socket_path_is_deterministic_and_inside_runtime_dir() {
    let runtime = Some("/run/user/1000".to_string());
    let a = socket_path(&runtime, "/tmp", &None);
    let b = socket_path(&runtime, "/tmp", &None);
    assert_eq!(a, b);
    assert!(a.ends_with("optix/ipc.sock"));
    assert!(a.contains("optix"));
    assert_eq!(a, "/run/user/1000/optix/ipc.sock");
}

#[test]
fn socket_path_without_runtime_dir() {
    let uid = Some("1000".to_string());
    let path = socket_path(&None, "/tmp", &uid);
    assert_eq!(path, "/tmp/optix-1000/ipc.sock");
    assert_eq!(socket_path(&Some(String::new()), "/tmp", &uid), path);
    assert_eq!(socket_path(&None, "/tmp/", &None), "/tmp/optix-user/ipc.sock");
}

#[test]
fn commands_are_answered() {
    assert_eq!(execute("ping"), IpcEffect::Respond("pong".into()));
    assert_eq!(execute("themes"), IpcEffect::ListThemes);
    assert_eq!(execute("theme nord"), IpcEffect::SetTheme("nord".into()));
    assert_eq!(execute("quit"), IpcEffect::Quit("ok: quitting".into()));
    let unknown = "error: unknown command `ls` (try `theme <name>`, `themes`, `ping`, `quit`)";
    assert_eq!(execute("ls"), IpcEffect::Respond(unknown.into()));
}

#[test]
fn magic_lines_do_the_same_over_the_socket() {
    assert_eq!(execute("theme   ayu"), IpcEffect::SetTheme("ayu".into()));
    assert_eq!(execute("Theme --help"), IpcEffect::ListThemes);
}

#[test]
fn client_exchange() {
    let args = vec!["theme".to_string(), "ayu".to_string()];
    assert_eq!(client_line(&args), Some("theme ayu\n".to_string()));
    assert_eq!(client_line(&Vec::new()), None);
    assert_eq!(client_command(" theme ayu \n"), Some("theme ayu".to_string()));
    assert_eq!(client_command(" \n"), None);
    assert_eq!(client_response(&Some("pong".to_string())), b"pong\n");
    let timeout = client_response(&None);
    assert_eq!(timeout, b"error: no response from optix (is it still running?)\n");
    assert_eq!(exit_code("pong\n"), 0);
    assert_eq!(exit_code("  error: unknown theme `x`\n"), 1);
    let request = IpcRequest { command: "ping".to_string(), reply: 7 };
    assert_eq!((request.command.as_str(), request.reply), ("ping", 7));
}

#[test]
fn arguments_reach_the_terminal() {
    let args = vec!["theme".to_string(), "tokyonight".to_string()];
    let line = client_line(&args).unwrap();
    let command = client_command(&line).unwrap();
    assert_eq!(execute(&command), execute(&line));
    assert_eq!(execute(&command), IpcEffect::SetTheme("tokyonight".into()));
}

#[test]
fn exit_codes_tell_failures() {
    let code = |response: &str| {
        exit_code(&String::from_utf8(client_response(&Some(response.to_string()))).unwrap())
    };
    let respond = |line: &str| match execute(line) {
        IpcEffect::Respond(text) | IpcEffect::Quit(text) => text,
        other => panic!("{other:?}"),
    };
    assert_eq!(code(&respond("ping")), 0);
    assert_eq!(code(&respond("quit")), 0);
    assert_eq!(code(&respond("ls")), 1);
    assert_eq!(code(&respond("")), 1);
    assert_eq!(code(&theme_feedback("nord", true)), 0);
    assert_eq!(code(&theme_feedback("nope", false)), 1);
    assert_eq!(code(&themes_feedback(&vec!["nord".to_string()])), 0);
    assert_eq!(exit_code(&String::from_utf8(client_response(&None)).unwrap()), 1);
}
