//! The interactive shell's command language: which command a typed line
//! is, and which database a `use` switches to. Reading lines, the HTTP
//! calls and printing stay with the caller, which feeds each line here
//! and acts on the command that comes back.
use vstd::prelude::*;
use crate::engine::tokenizer::{lowercase, texts, to_lower};
use crate::query_planner::function::builtins::{is_white_space, trim_text, trimmed, white_space};
use crate::launch::has_prefix;
use crate::render::{push_char, same_text};

verus! {

/// A command of the shell.
#[derive(Debug, Clone, PartialEq, Eq)]
pub enum ReplCommand {
    /// A blank line: nothing to do.
    Empty,
    /// `exit` or `quit`.
    Exit,
    /// `help`.
    Help,
    /// `use <dbname>`: switch the active database.
    Use(String),
    /// `use` with other than one name.
    UseUsage,
    /// `show databases`.
    ShowDatabases,
    /// `create database <name>`.
    CreateDatabase(String),
    /// `create database` with other than one name.
    CreateUsage,
    /// `drop database <name>`.
    DropDatabase(String),
    /// `drop database` with other than one name.
    DropUsage,
    /// A GraphQL document to execute against the active database.
    Query(String),
    /// Anything else; holds the line as it was read.
    Unknown(String),
}

/// [`ReplCommand`] with its texts as character sequences.
pub enum ReplCommandView {
    Empty,
    Exit,
    Help,
    Use(Seq<char>),
    UseUsage,
    ShowDatabases,
    CreateDatabase(Seq<char>),
    CreateUsage,
    DropDatabase(Seq<char>),
    DropUsage,
    Query(Seq<char>),
    Unknown(Seq<char>),
}

pub open spec fn command_view(c: ReplCommand) -> ReplCommandView {
    match c {
        ReplCommand::Empty => ReplCommandView::Empty,
        ReplCommand::Exit => ReplCommandView::Exit,
        ReplCommand::Help => ReplCommandView::Help,
        ReplCommand::Use(s) => ReplCommandView::Use(s@),
        ReplCommand::UseUsage => ReplCommandView::UseUsage,
        ReplCommand::ShowDatabases => ReplCommandView::ShowDatabases,
        ReplCommand::CreateDatabase(s) => ReplCommandView::CreateDatabase(s@),
        ReplCommand::CreateUsage => ReplCommandView::CreateUsage,
        ReplCommand::DropDatabase(s) => ReplCommandView::DropDatabase(s@),
        ReplCommand::DropUsage => ReplCommandView::DropUsage,
        ReplCommand::Query(s) => ReplCommandView::Query(s@),
        ReplCommand::Unknown(s) => ReplCommandView::Unknown(s@),
    }
}

/// The code of `c` with ASCII capitals mapped to small letters.
pub open spec fn ascii_folded(c: char) -> u32 {
    let u = c as u32;
    if 65 <= u <= 90 { (u + 32) as u32 } else { u }
}

/// `a` and `b` are equal when ASCII letters are compared without case.
pub open spec fn equal_ignoring_ascii_case(a: Seq<char>, b: Seq<char>) -> bool {
    a.len() == b.len() && forall|i: int| 0 <= i < a.len() ==> ascii_folded(#[trigger] a[i]) == ascii_folded(b[i])
}

/// The words of `rest` that follow the partial word `cur`: maximal runs
/// of characters that are not white space, in order.
pub open spec fn words_after(cur: Seq<char>, rest: Seq<char>) -> Seq<Seq<char>>
    decreases rest.len(),
{
    if rest.len() == 0 {
        if cur.len() > 0 { seq![cur] } else { Seq::empty() }
    } else if is_white_space(rest[0]) {
        (if cur.len() > 0 { seq![cur] } else { Seq::<Seq<char>>::empty() }) + words_after(Seq::empty(), rest.drop_first())
    } else {
        words_after(cur.push(rest[0]), rest.drop_first())
    }
}

/// The white-space separated words of `s`.
pub open spec fn words(s: Seq<char>) -> Seq<Seq<char>> {
    words_after(Seq::empty(), s)
}

/// The line the shell acts on: the trimmed line, and once more trimmed
/// after one trailing `;` is dropped.
pub open spec fn command_text(line: Seq<char>) -> Seq<char> {
    let t = trimmed(line);
    if t.len() > 0 && t.last() == ';' { trimmed(t.drop_last()) } else { t }
}

/// The command for the line `text` (already trimmed and without its `;`)
/// whose lower-casing is `lowered`: the checks run in this order, the
/// first that holds decides.
pub open spec fn command_for(text: Seq<char>, lowered: Seq<char>) -> ReplCommandView {
    if equal_ignoring_ascii_case(text, "exit"@) || equal_ignoring_ascii_case(text, "quit"@) {
        ReplCommandView::Exit
    } else if equal_ignoring_ascii_case(text, "help"@) {
        ReplCommandView::Help
    } else if "use "@.is_prefix_of(text) {
        if words(text).len() == 2 { ReplCommandView::Use(words(text)[1]) } else { ReplCommandView::UseUsage }
    } else if equal_ignoring_ascii_case(text, "show databases"@) {
        ReplCommandView::ShowDatabases
    } else if "create database "@.is_prefix_of(lowered) {
        if words(text).len() == 3 { ReplCommandView::CreateDatabase(words(text)[2]) } else { ReplCommandView::CreateUsage }
    } else if "drop database "@.is_prefix_of(lowered) {
        if words(text).len() == 3 { ReplCommandView::DropDatabase(words(text)[2]) } else { ReplCommandView::DropUsage }
    } else if "query"@.is_prefix_of(lowered) || "mutation"@.is_prefix_of(lowered) || "subscription"@.is_prefix_of(lowered)
        || "{"@.is_prefix_of(text) {
        ReplCommandView::Query(text)
    } else {
        ReplCommandView::Unknown(text)
    }
}

/// The command a typed line stands for: a blank line is `Empty`; otherwise
/// [`command_for`] on the [`command_text`] and its lower-casing.
pub open spec fn spec_repl_command(line: Seq<char>) -> ReplCommandView {
    if trimmed(line).len() == 0 {
        ReplCommandView::Empty
    } else {
        command_for(command_text(line), lowercase(command_text(line)))
    }
}

/// The characters of `s` from `from` up to `to`.
fn text_between(s: &str, from: usize, to: usize) -> (r: String)
    requires
        from <= to <= s@.len(),
    ensures
        r@ == s@.subrange(from as int, to as int),
{
    let mut r = String::new();
    let mut i = from;
    while i < to
        invariant
            from <= i <= to <= s@.len(),
            r@ == s@.subrange(from as int, i as int),
        decreases to - i,
    {
        push_char(&mut r, s.get_char(i));
        proof {
            assert(s@.subrange(from as int, i + 1) =~= s@.subrange(from as int, i as int).push(s@[i as int]));
        }
        i = i + 1;
    }
    r
}

/// `str::eq_ignore_ascii_case`.
fn same_ignoring_ascii_case(a: &str, b: &str) -> (r: bool)
    ensures
        r == equal_ignoring_ascii_case(a@, b@),
{
    let n = a.unicode_len();
    if n != b.unicode_len() {
        return false;
    }
    let mut i: usize = 0;
    while i < n
        invariant
            n == a@.len(),
            n == b@.len(),
            i <= n,
            forall|j: int| 0 <= j < i ==> ascii_folded(#[trigger] a@[j]) == ascii_folded(b@[j]),
        decreases n - i,
    {
        let x = a.get_char(i) as u32;
        let y = b.get_char(i) as u32;
        let fx: u32 = if 65 <= x && x <= 90 { x + 32 } else { x };
        let fy: u32 = if 65 <= y && y <= 90 { y + 32 } else { y };
        if fx != fy {
            assert(ascii_folded(a@[i as int]) != ascii_folded(b@[i as int]));
            return false;
        }
        i = i + 1;
    }
    true
}

/// Splits `s` into its white-space separated words (`str::split_whitespace`).
pub fn split_words(s: &str) -> (r: Vec<String>)
    ensures
        texts(r@) == words(s@),
{
    let n = s.unicode_len();
    let mut out: Vec<String> = Vec::new();
    let mut cur = String::new();
    let mut i: usize = 0;
    proof {
        assert(s@.skip(0) =~= s@);
        assert(texts(out@) =~= Seq::<Seq<char>>::empty());
        assert(Seq::<Seq<char>>::empty() + words(s@) =~= words(s@));
    }
    while i < n
        invariant
            n == s@.len(),
            i <= n,
            words(s@) == texts(out@) + words_after(cur@, s@.skip(i as int)),
        decreases n - i,
    {
        let c = s.get_char(i);
        let ghost rest = s@.skip(i as int);
        let ghost old_cur = cur@;
        proof {
            assert(rest[0] == c);
            assert(rest.drop_first() =~= s@.skip(i + 1));
            assert(rest.len() > 0);
            if is_white_space(c) {
                assert(words_after(old_cur, rest) == (if old_cur.len() > 0 { seq![old_cur] } else { Seq::<Seq<char>>::empty() })
                    + words_after(Seq::empty(), s@.skip(i + 1)));
            } else {
                assert(words_after(old_cur, rest) == words_after(old_cur.push(c), s@.skip(i + 1)));
            }
        }
        if white_space(c) {
            if cur.unicode_len() > 0 {
                let ghost before = texts(out@);
                let ghost w = cur@;
                out.push(cur);
                cur = String::new();
                proof {
                    assert(texts(out@) =~= before.push(w));
                    assert(before + (seq![w] + words_after(Seq::empty(), s@.skip(i + 1)))
                        =~= before.push(w) + words_after(Seq::empty(), s@.skip(i + 1)));
                }
            } else {
                proof {
                    assert(cur@ =~= Seq::<char>::empty());
                    assert(Seq::<Seq<char>>::empty() + words_after(Seq::empty(), s@.skip(i + 1))
                        =~= words_after(Seq::empty(), s@.skip(i + 1)));
                }
            }
        } else {
            push_char(&mut cur, c);
        }
        i = i + 1;
    }
    proof {
        assert(s@.skip(n as int) =~= Seq::<char>::empty());
    }
    if cur.unicode_len() > 0 {
        let ghost before = texts(out@);
        let ghost w = cur@;
        out.push(cur);
        proof {
            assert(texts(out@) =~= before.push(w));
            assert(before + seq![w] =~= before.push(w));
        }
    } else {
        proof {
            assert(cur@ =~= Seq::<char>::empty());
            assert(texts(out@) + Seq::<Seq<char>>::empty() =~= texts(out@));
        }
    }
    out
}

/// The line the shell acts on (see [`command_text`]).
pub fn command_text_of(line: &str) -> (r: String)
    ensures
        r@ == command_text(line@),
{
    let t = trim_text(line);
    let n = t.unicode_len();
    if n > 0 && t.get_char(n - 1) == ';' {
        let inner = text_between(t.as_str(), 0, n - 1);
        proof {
            assert(inner@ =~= t@.drop_last());
        }
        trim_text(inner.as_str())
    } else {
        t
    }
}

/// The command for `text`, a line already reduced by [`command_text_of`],
/// given its lower-casing `lowered`.
pub fn command_for_text(text: &str, lowered: &str) -> (c: ReplCommand)
    ensures
        command_view(c) == command_for(text@, lowered@),
{
    proof {
        reveal_strlit("exit");
        reveal_strlit("quit");
        reveal_strlit("help");
        reveal_strlit("use ");
        reveal_strlit("show databases");
        reveal_strlit("create database ");
        reveal_strlit("drop database ");
        reveal_strlit("query");
        reveal_strlit("mutation");
        reveal_strlit("subscription");
        reveal_strlit("{");
    }
    if same_ignoring_ascii_case(text, "exit") || same_ignoring_ascii_case(text, "quit") {
        ReplCommand::Exit
    } else if same_ignoring_ascii_case(text, "help") {
        ReplCommand::Help
    } else if has_prefix(text, "use ") {
        let parts = split_words(text);
        proof {
            assert(texts(parts@).len() == parts@.len());
        }
        if parts.len() == 2 {
            proof {
                assert(texts(parts@)[1] == parts@[1]@);
            }
            ReplCommand::Use(parts[1].clone())
        } else {
            ReplCommand::UseUsage
        }
    } else if same_ignoring_ascii_case(text, "show databases") {
        ReplCommand::ShowDatabases
    } else if has_prefix(lowered, "create database ") {
        let parts = split_words(text);
        proof {
            assert(texts(parts@).len() == parts@.len());
        }
        if parts.len() == 3 {
            proof {
                assert(texts(parts@)[2] == parts@[2]@);
            }
            ReplCommand::CreateDatabase(parts[2].clone())
        } else {
            ReplCommand::CreateUsage
        }
    } else if has_prefix(lowered, "drop database ") {
        let parts = split_words(text);
        proof {
            assert(texts(parts@).len() == parts@.len());
        }
        if parts.len() == 3 {
            proof {
                assert(texts(parts@)[2] == parts@[2]@);
            }
            ReplCommand::DropDatabase(parts[2].clone())
        } else {
            ReplCommand::DropUsage
        }
    } else if has_prefix(lowered, "query") || has_prefix(lowered, "mutation") || has_prefix(lowered, "subscription")
        || has_prefix(text, "{") {
        ReplCommand::Query(text.to_owned())
    } else {
        ReplCommand::Unknown(text.to_owned())
    }
}

/// The command a typed line stands for.
pub fn repl_command(line: &str) -> (c: ReplCommand)
    ensures
        command_view(c) == spec_repl_command(line@),
{
    let t = trim_text(line);
    if t.unicode_len() == 0 {
        return ReplCommand::Empty;
    }
    let text = command_text_of(line);
    let lowered = to_lower(text.as_str());
    command_for_text(text.as_str(), lowered.as_str())
}

/// The database after `use requested`: `requested` when it is one of the
/// `known` databases, else `current` unchanged.
pub fn switch_database(current: &str, requested: &str, known: &Vec<String>) -> (next: String)
    ensures
        next@ == if texts(known@).contains(requested@) { requested@ } else { current@ },
{
    let mut i: usize = 0;
    while i < known.len()
        invariant
            i <= known@.len(),
            forall|j: int| 0 <= j < i ==> known@[j]@ != requested@,
        decreases known@.len() - i,
    {
        if same_text(known[i].as_str(), requested) {
            proof {
                assert(texts(known@)[i as int] == requested@);
            }
            return requested.to_owned();
        }
        i = i + 1;
    }
    proof {
        if texts(known@).contains(requested@) {
            let k = choose|k: int| 0 <= k < texts(known@).len() && texts(known@)[k] == requested@;
            assert(known@[k]@ == requested@);
        }
    }
    current.to_owned()
}

} // verus!
