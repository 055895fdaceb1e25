//! The command-line interface: which subcommand the arguments ask for, and
//! what is printed when they are refused.
//!
//! Usage: `floral-notepaper --cli <subcommand> [arguments]`, with the
//! subcommands `list`, `get <id>`, `search <query>`, `daily`,
//! `create --title <t> [--content <c> | --stdin]` and `export <id>`.

use vstd::prelude::*;

use crate::error::AppError;
use crate::notes::{strings_view, SaveNoteRequest};
use crate::text::{append_str, str_eq, string_from_chars};

verus! {

/// A subcommand with its arguments.
#[derive(Debug)]
pub enum CliCommand {
    List,
    Get { id: String },
    Search { query: String },
    Daily,
    /// `title` may still be empty here: it is checked once the content has
    /// been read, which may come from standard input.
    Create { title: String, content: String, use_stdin: bool },
    Export { id: String },
    Help,
}

/// A subcommand as plain values.
pub enum CliCommandView {
    List,
    Get(Seq<char>),
    Search(Seq<char>),
    Daily,
    Create(Seq<char>, Seq<char>, bool),
    Export(Seq<char>),
    Help,
}

impl View for CliCommand {
    type V = CliCommandView;

    open spec fn view(&self) -> CliCommandView {
        match self {
            CliCommand::List => CliCommandView::List,
            CliCommand::Get { id } => CliCommandView::Get(id@),
            CliCommand::Search { query } => CliCommandView::Search(query@),
            CliCommand::Daily => CliCommandView::Daily,
            CliCommand::Create { title, content, use_stdin } => CliCommandView::Create(
                title@,
                content@,
                *use_stdin,
            ),
            CliCommand::Export { id } => CliCommandView::Export(id@),
            CliCommand::Help => CliCommandView::Help,
        }
    }
}

/// Arguments that were refused: the message to print on standard error,
/// and whether the help text follows it. The process then exits with
/// status 1.
#[derive(Debug)]
pub struct CliRefusal {
    pub message: String,
    pub show_help: bool,
}

/// The first argument, or the empty text when there is none.
pub open spec fn first_arg(args: Seq<Seq<char>>) -> Seq<char> {
    if args.len() > 0 {
        args[0]
    } else {
        seq![]
    }
}

/// The argument after the first, or the empty text when there is none.
pub open spec fn second_arg(args: Seq<Seq<char>>) -> Seq<char> {
    if args.len() > 1 {
        args[1]
    } else {
        seq![]
    }
}

/// The arguments after the first two.
pub open spec fn after_two(args: Seq<Seq<char>>) -> Seq<Seq<char>> {
    if args.len() >= 2 {
        args.skip(2)
    } else {
        seq![]
    }
}

/// The options of `create`, read from left to right: `--title` and
/// `--content` take the next argument (empty when there is none), a later
/// one replacing an earlier; `--stdin` asks for the content from standard
/// input; anything else is refused, and named.
pub open spec fn create_options(
    args: Seq<Seq<char>>,
    title: Seq<char>,
    content: Seq<char>,
    stdin: bool,
) -> Result<(Seq<char>, Seq<char>, bool), Seq<char>>
    decreases args.len(),
{
    if args.len() == 0 {
        Ok((title, content, stdin))
    } else if args[0] == "--title"@ {
        create_options(after_two(args), second_arg(args), content, stdin)
    } else if args[0] == "--content"@ {
        create_options(after_two(args), title, second_arg(args), stdin)
    } else if args[0] == "--stdin"@ {
        create_options(args.skip(1), title, content, true)
    } else {
        Err(args[0])
    }
}

/// The usage line of `create`.
pub open spec fn create_usage() -> Seq<char> {
    "用法: floral-notepaper --cli create --title <标题> [--content <内容> | --stdin]"@
}

/// A subcommand that takes one argument: refused with its usage line when
/// the argument is missing, empty or `--help`.
pub open spec fn one_arg(args: Seq<Seq<char>>, usage: Seq<char>) -> Result<Seq<char>, (Seq<char>, bool)> {
    let a = first_arg(args);
    if a.len() == 0 || a == "--help"@ {
        Err((usage, false))
    } else {
        Ok(a)
    }
}

/// What the command line `cmd args...` asks for, or why it is refused.
pub open spec fn parse_command(cmd: Seq<char>, args: Seq<Seq<char>>) -> Result<
    CliCommandView,
    (Seq<char>, bool),
> {
    if cmd == "list"@ {
        Ok(CliCommandView::List)
    } else if cmd == "get"@ {
        match one_arg(args, "用法: floral-notepaper --cli get <note-id>"@) {
            Ok(a) => Ok(CliCommandView::Get(a)),
            Err(e) => Err(e),
        }
    } else if cmd == "search"@ {
        match one_arg(args, "用法: floral-notepaper --cli search <关键词>"@) {
            Ok(a) => Ok(CliCommandView::Search(a)),
            Err(e) => Err(e),
        }
    } else if cmd == "daily"@ {
        Ok(CliCommandView::Daily)
    } else if cmd == "create"@ {
        match create_options(args, seq![], seq![], false) {
            Ok((t, c, s)) => Ok(CliCommandView::Create(t, c, s)),
            Err(a) => Err(("未知参数: "@ + a + "\n"@ + create_usage(), false)),
        }
    } else if cmd == "export"@ {
        match one_arg(args, "用法: floral-notepaper --cli export <note-id>"@) {
            Ok(a) => Ok(CliCommandView::Export(a)),
            Err(e) => Err(e),
        }
    } else if cmd == "--help"@ || cmd == "-h"@ {
        Ok(CliCommandView::Help)
    } else {
        Err(("未知子命令: "@ + cmd, true))
    }
}

fn refusal(message: Vec<char>, show_help: bool) -> (r: CliRefusal)
    ensures
        r.message@ == message@,
        r.show_help == show_help,
{
    CliRefusal { message: string_from_chars(message.as_slice()), show_help }
}

fn single_arg(args: &Vec<String>, usage: &str) -> (r: Result<String, CliRefusal>)
    ensures
        match (r, one_arg(strings_view(args@), usage@)) {
            (Ok(a), Ok(b)) => a@ == b,
            (Err(e), Err((m, h))) => e.message@ == m && e.show_help == h,
            _ => false,
        },
{
    let a = if args.len() > 0 {
        args[0].clone()
    } else {
        String::new()
    };
    if a.as_str().is_empty() || str_eq(a.as_str(), "--help") {
        let mut m: Vec<char> = Vec::new();
        append_str(&mut m, usage);
        return Err(refusal(m, false));
    }
    Ok(a)
}

fn read_create_options(args: &Vec<String>) -> (r: Result<(String, String, bool), String>)
    ensures
        match (r, create_options(strings_view(args@), seq![], seq![], false)) {
            (Ok((t, c, s)), Ok((t2, c2, s2))) => t@ == t2 && c@ == c2 && s == s2,
            (Err(a), Err(b)) => a@ == b,
            _ => false,
        },
{
    let ghost all = strings_view(args@);
    let mut title = String::new();
    let mut content = String::new();
    let mut use_stdin = false;
    let mut i: usize = 0;
    assert(all.skip(0) == all);
    while i < args.len()
        invariant
            i <= args@.len(),
            all == strings_view(args@),
            create_options(all, seq![], seq![], false) == create_options(
                all.skip(i as int),
                title@,
                content@,
                use_stdin,
            ),
        decreases args@.len() - i,
    {
        let ghost rest = all.skip(i as int);
        assert(rest[0] == args@[i as int]@);
        if str_eq(args[i].as_str(), "--title") || str_eq(args[i].as_str(), "--content") {
            let value = if i + 1 < args.len() {
                args[i + 1].clone()
            } else {
                String::new()
            };
            assert(value@ == second_arg(rest));
            if str_eq(args[i].as_str(), "--title") {
                title = value;
            } else {
                content = value;
            }
            if i + 1 < args.len() {
                assert(after_two(rest) == all.skip(i + 2));
                i = i + 2;
            } else {
                assert(after_two(rest) == all.skip(args@.len() as int));
                i = args.len();
            }
        } else if str_eq(args[i].as_str(), "--stdin") {
            use_stdin = true;
            assert(rest.skip(1) == all.skip(i + 1));
            i = i + 1;
        } else {
            return Err(args[i].clone());
        }
    }
    assert(all.skip(args@.len() as int) == Seq::<Seq<char>>::empty());
    Ok((title, content, use_stdin))
}

/// Reads the command line `cmd args...`: the subcommand asked for, or the
/// refusal to print, exactly as `parse_command` says.
pub fn parse_cli(cmd: &str, args: &Vec<String>) -> (r: Result<CliCommand, CliRefusal>)
    ensures
        match (r, parse_command(cmd@, strings_view(args@))) {
            (Ok(c), Ok(v)) => c@ == v,
            (Err(e), Err((m, h))) => e.message@ == m && e.show_help == h,
            _ => false,
        },
{
    if str_eq(cmd, "list") {
        Ok(CliCommand::List)
    } else if str_eq(cmd, "get") {
        match single_arg(args, "用法: floral-notepaper --cli get <note-id>") {
            Ok(id) => Ok(CliCommand::Get { id }),
            Err(e) => Err(e),
        }
    } else if str_eq(cmd, "search") {
        match single_arg(args, "用法: floral-notepaper --cli search <关键词>") {
            Ok(query) => Ok(CliCommand::Search { query }),
            Err(e) => Err(e),
        }
    } else if str_eq(cmd, "daily") {
        Ok(CliCommand::Daily)
    } else if str_eq(cmd, "create") {
        match read_create_options(args) {
            Ok((title, content, use_stdin)) => Ok(CliCommand::Create { title, content, use_stdin }),
            Err(a) => {
                let mut m: Vec<char> = Vec::new();
                append_str(&mut m, "未知参数: ");
                append_str(&mut m, a.as_str());
                append_str(&mut m, "\n");
                append_str(
                    &mut m,
                    "用法: floral-notepaper --cli create --title <标题> [--content <内容> | --stdin]",
                );
                Err(refusal(m, false))
            },
        }
    } else if str_eq(cmd, "export") {
        match single_arg(args, "用法: floral-notepaper --cli export <note-id>") {
            Ok(id) => Ok(CliCommand::Export { id }),
            Err(e) => Err(e),
        }
    } else if str_eq(cmd, "--help") || str_eq(cmd, "-h") {
        Ok(CliCommand::Help)
    } else {
        let mut m: Vec<char> = Vec::new();
        append_str(&mut m, "未知子命令: ");
        append_str(&mut m, cmd);
        Err(refusal(m, true))
    }
}

/// The note that `create` asks for, once the content is known: the content
/// read from standard input replaces the `--content` value when given. A
/// missing title is refused; the note is uncategorized, untagged and not
/// pinned.
pub fn create_request(title: String, content: String, stdin: Option<String>) -> (r: Result<
    SaveNoteRequest,
    CliRefusal,
>)
    ensures
        title@.len() == 0 ==> (r matches Err(e) && e.message@ == "错误: 必须提供 --title"@
            && !e.show_help),
        title@.len() > 0 ==> (r matches Ok(q) && q.title@ == title@ && q.content@ == (match stdin {
            Some(s) => s@,
            None => content@,
        }) && q.category@.len() == 0 && q.tags@.len() == 0 && !q.pinned),
{
    let content = match stdin {
        Some(s) => s,
        None => content,
    };
    if title.as_str().is_empty() {
        let mut m: Vec<char> = Vec::new();
        append_str(&mut m, "错误: 必须提供 --title");
        return Err(refusal(m, false));
    }
    Ok(SaveNoteRequest { title, content, category: String::new(), tags: Vec::new(), pinned: false })
}

/// The text that an error is reported with on the command line.
pub fn map_err(e: AppError) -> (r: String)
    ensures
        r@ == e.code@ + ": "@ + e.message@,
{
    e.to_display_string()
}

} // verus!
