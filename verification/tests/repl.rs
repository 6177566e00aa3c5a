use vardadb::repl::{command_text_of, repl_command, split_words, switch_database, ReplCommand};

fn cmd(line: &str) -> ReplCommand {
    repl_command(line)
}

#[test]
fn blank_lines_are_empty() {
    assert_eq!(cmd(""), ReplCommand::Empty);
    assert_eq!(cmd(" \t  \n"), ReplCommand::Empty);
}

#[test]
fn exit_quit_and_help_ignore_case_and_semicolon() {
    assert_eq!(cmd("exit"), ReplCommand::Exit);
    assert_eq!(cmd("  QUIT ;"), ReplCommand::Exit);
    assert_eq!(cmd("Exit;"), ReplCommand::Exit);
    assert_eq!(cmd("HeLp"), ReplCommand::Help);
    assert_eq!(cmd("help me"), ReplCommand::Unknown("help me".to_string()));
}

#[test]
fn use_takes_exactly_one_name() {
    assert_eq!(cmd("use shop"), ReplCommand::Use("shop".to_string()));
    assert_eq!(cmd("use   shop ;"), ReplCommand::Use("shop".to_string()));
    assert_eq!(cmd("use a b"), ReplCommand::UseUsage);
    // The `use ` prefix is matched with its case.
    assert_eq!(cmd("USE shop"), ReplCommand::Unknown("USE shop".to_string()));
    assert_eq!(cmd("use"), ReplCommand::Unknown("use".to_string()));
}

#[test]
fn show_databases_ignores_case() {
    assert_eq!(cmd("show databases"), ReplCommand::ShowDatabases);
    assert_eq!(cmd("SHOW Databases;"), ReplCommand::ShowDatabases);
    assert_eq!(cmd("show  databases"), ReplCommand::Unknown("show  databases".to_string()));
}

#[test]
fn create_and_drop_take_one_name() {
    assert_eq!(cmd("create database shop"), ReplCommand::CreateDatabase("shop".to_string()));
    assert_eq!(cmd("CREATE DATABASE Shop;"), ReplCommand::CreateDatabase("Shop".to_string()));
    assert_eq!(cmd("create database a b"), ReplCommand::CreateUsage);
    assert_eq!(cmd("create database "), ReplCommand::Unknown("create database".to_string()));
    assert_eq!(cmd("drop database shop"), ReplCommand::DropDatabase("shop".to_string()));
    assert_eq!(cmd("Drop Database  x  y"), ReplCommand::DropUsage);
}

#[test]
fn graphql_documents_are_queries() {
    assert_eq!(cmd("{ users { id } };"), ReplCommand::Query("{ users { id } }".to_string()));
    assert_eq!(cmd("query Q { a }"), ReplCommand::Query("query Q { a }".to_string()));
    assert_eq!(cmd("Mutation { add }"), ReplCommand::Query("Mutation { add }".to_string()));
    assert_eq!(cmd("subscription { s }"), ReplCommand::Query("subscription { s }".to_string()));
}

#[test]
fn anything_else_is_unknown() {
    assert_eq!(cmd("select 1"), ReplCommand::Unknown("select 1".to_string()));
    assert_eq!(cmd(";"), ReplCommand::Unknown(String::new()));
    assert_eq!(cmd("a;;"), ReplCommand::Unknown("a;".to_string()));
}

#[test]
fn command_text_trims_and_drops_one_semicolon() {
    assert_eq!(command_text_of("  x ; "), "x");
    assert_eq!(command_text_of("x;;"), "x;");
    assert_eq!(command_text_of("  "), "");
}

#[test]
fn split_words_drops_runs_of_white_space() {
    assert_eq!(split_words("  a  bc\td "), vec!["a".to_string(), "bc".to_string(), "d".to_string()]);
    assert_eq!(split_words(""), Vec::<String>::new());
    assert_eq!(split_words(" \u{3000} "), Vec::<String>::new());
}

#[test]
fn switch_database_needs_a_known_name() {
    let known = vec!["default".to_string(), "shop".to_string()];
    assert_eq!(switch_database("default", "shop", &known), "shop");
    assert_eq!(switch_database("default", "nope", &known), "default");
    assert_eq!(switch_database("shop", "default", &known), "default");
    assert_eq!(switch_database("shop", "x", &Vec::new()), "shop");
}
