use typhon::commands::{help_text, parse, tools_text, unknown_text, Command};

#[test]
fn parses_local_commands_without_case_sensitivity() {
    assert_eq!(parse(" /HELP "), Command::Help);
    assert_eq!(parse("/?"), Command::Help);
    assert_eq!(parse("/quit"), Command::Exit);
}

#[test]
fn preserves_regular_messages() {
    assert_eq!(
        parse("explica este código"),
        Command::Message("explica este código".into())
    );
    assert_eq!(parse("//literal"), Command::Message("/literal".into()));
}

#[test]
fn rejects_arguments_for_v1_commands() {
    assert_eq!(
        parse("/status ahora"),
        Command::Unknown("/status ahora".into())
    );
    assert_eq!(
        parse("/config otra-cosa"),
        Command::Unknown("/config otra-cosa".into())
    );
}

#[test]
fn parses_interactive_and_read_only_config_commands() {
    assert_eq!(parse("/config"), Command::Config);
    assert_eq!(parse("/CONFIG SHOW"), Command::ConfigShow);
    assert_eq!(
        parse("/config show ahora"),
        Command::Unknown("/config show ahora".into())
    );
}

#[test]
fn reports_unknown_commands() {
    assert_eq!(parse("/wat"), Command::Unknown("/wat".into()));
}

#[test]
fn plain_lines_are_trimmed_messages() {
    assert_eq!(parse("  hola  "), Command::Message("hola".into()));
}

#[test]
fn every_command_name_parses() {
    assert_eq!(parse("/status"), Command::Status);
    assert_eq!(parse("/tools"), Command::Tools);
    assert_eq!(parse("/clear"), Command::Clear);
    assert_eq!(parse("/new"), Command::New);
    assert_eq!(parse("/exit"), Command::Exit);
}

#[test]
fn unknown_command_text_names_the_command() {
    assert_eq!(
        unknown_text("/wat"),
        "Comando desconocido: '/wat'. Escribe /help para ver los comandos disponibles."
    );
}

#[test]
fn help_and_tools_texts_list_their_entries() {
    assert!(help_text().starts_with("Comandos de Typhon:"));
    assert!(help_text().contains("/help"));
    assert!(tools_text().contains("crear_archivo"));
    assert!(tools_text().contains("leer_archivo"));
    assert!(tools_text().contains("listar_directorio"));
}
