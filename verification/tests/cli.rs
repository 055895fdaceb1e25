use floral_notepaper::cli::{create_request, map_err, parse_cli, CliCommand};
use floral_notepaper::error::AppError;

fn args(v: &[&str]) -> Vec<String> {
    v.iter().map(|s| s.to_string()).collect()
}

#[test]
fn parses_each_subcommand() {
    assert!(matches!(parse_cli("list", &args(&[])).unwrap(), CliCommand::List));
    assert!(matches!(parse_cli("daily", &args(&["ignored"])).unwrap(), CliCommand::Daily));
    match parse_cli("get", &args(&["abc123"])).unwrap() {
        CliCommand::Get { id } => assert_eq!(id, "abc123"),
        other => panic!("unexpected {other:?}"),
    }
    match parse_cli("search", &args(&["齿轮强度"])).unwrap() {
        CliCommand::Search { query } => assert_eq!(query, "齿轮强度"),
        other => panic!("unexpected {other:?}"),
    }
    match parse_cli("export", &args(&["abc123"])).unwrap() {
        CliCommand::Export { id } => assert_eq!(id, "abc123"),
        other => panic!("unexpected {other:?}"),
    }
    assert!(matches!(parse_cli("--help", &args(&[])).unwrap(), CliCommand::Help));
    assert!(matches!(parse_cli("-h", &args(&[])).unwrap(), CliCommand::Help));
}

#[test]
fn missing_or_help_argument_prints_usage() {
    let e = parse_cli("get", &args(&[])).unwrap_err();
    assert_eq!(e.message, "用法: floral-notepaper --cli get <note-id>");
    assert!(!e.show_help);
    let e = parse_cli("search", &args(&["--help"])).unwrap_err();
    assert_eq!(e.message, "用法: floral-notepaper --cli search <关键词>");
    let e = parse_cli("export", &args(&[""])).unwrap_err();
    assert_eq!(e.message, "用法: floral-notepaper --cli export <note-id>");
}

#[test]
fn unknown_subcommand_shows_help() {
    let e = parse_cli("frobnicate", &args(&[])).unwrap_err();
    assert_eq!(e.message, "未知子命令: frobnicate");
    assert!(e.show_help);
}

#[test]
fn create_reads_its_options() {
    match parse_cli("create", &args(&["--title", "新笔记", "--content", "# Hello"])).unwrap() {
        CliCommand::Create { title, content, use_stdin } => {
            assert_eq!(title, "新笔记");
            assert_eq!(content, "# Hello");
            assert!(!use_stdin);
        }
        other => panic!("unexpected {other:?}"),
    }
    match parse_cli("create", &args(&["--stdin", "--title", "管道笔记", "--title"])).unwrap() {
        CliCommand::Create { title, content, use_stdin } => {
            assert_eq!(title, "");
            assert_eq!(content, "");
            assert!(use_stdin);
        }
        other => panic!("unexpected {other:?}"),
    }
}

#[test]
fn create_refuses_unknown_options() {
    let e = parse_cli("create", &args(&["--title", "x", "--bogus"])).unwrap_err();
    assert_eq!(
        e.message,
        "未知参数: --bogus\n用法: floral-notepaper --cli create --title <标题> [--content <内容> | --stdin]"
    );
    assert!(!e.show_help);
}

#[test]
fn create_request_needs_a_title_and_prefers_stdin() {
    let e = create_request(String::new(), "x".into(), None).unwrap_err();
    assert_eq!(e.message, "错误: 必须提供 --title");
    let r = create_request("t".into(), "from flag".into(), Some("from stdin".into())).unwrap();
    assert_eq!(r.title, "t");
    assert_eq!(r.content, "from stdin");
    assert_eq!(r.category, "");
    assert!(r.tags.is_empty());
    assert!(!r.pinned);
    let r = create_request("t".into(), "from flag".into(), None).unwrap();
    assert_eq!(r.content, "from flag");
}

#[test]
fn errors_are_reported_with_code_and_message() {
    let e = AppError::new("noteNotFound".into(), "Note x was not found".into());
    assert_eq!(map_err(e), "noteNotFound: Note x was not found");
}
