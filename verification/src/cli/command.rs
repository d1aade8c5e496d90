use vstd::prelude::*;

use crate::cli::cli_error::CliError;
use crate::number::{decimal, lemma_parse_decimal, parse_i64, parse_i64_spec};
use crate::text::{join, join_strings, str_eq, trim, trim_str};

verus! {

/// Which entries `delete` removes.
#[derive(Debug, Clone, Copy, PartialEq, Eq, Structural)]
pub enum DeleteSpec {
    /// The last N entries; `1` is the last entry.
    CountFromEnd(usize),
    /// The Nth entry from the end; `1` is the last entry, `2` the one before it.
    IndexFromEnd(usize),
}

/// Which entries `read` shows.
#[derive(Debug, Clone, Copy, PartialEq, Eq, Structural)]
pub enum ReadSpec {
    /// The last N entries; `1` is the last entry.
    CountFromEnd(usize),
    /// The Nth entry from the end; `1` is the last entry, `2` the one before it.
    IndexFromEnd(usize),
}

/// A command given on the command line.
#[allow(non_camel_case_types)]
#[allow(inconsistent_fields)]
#[derive(Debug)]
pub enum Command {
    /// Shows the help message.
    HELP,
    /// Creates a new `.bif` log (and optionally a local config) and tracks it.
    INIT { name_of_new_log: Option<String>, config_path: Option<String> },
    /// Tracks an existing `.bif` file of the working directory.
    TRACK { name_of_log: String },
    /// Adds an entry.
    NEW { body: String },
    /// Deletes entries (by default the last one).
    DELETE { spec: Option<DeleteSpec> },
    /// Reads the tracked log (by default all of it).
    READ { spec: Option<ReadSpec>, pretty: bool },
    /// Shows where the active configuration comes from.
    CONFIG_SHOW,
    /// Tracks a local configuration file for this directory.
    CONFIG_SET_LOCAL { path: String },
}

#[allow(non_camel_case_types)]
#[allow(inconsistent_fields)]
pub enum CommandView {
    HELP,
    INIT { name_of_new_log: Option<Seq<char>>, config_path: Option<Seq<char>> },
    TRACK { name_of_log: Seq<char> },
    NEW { body: Seq<char> },
    DELETE { spec: Option<DeleteSpec> },
    READ { spec: Option<ReadSpec>, pretty: bool },
    CONFIG_SHOW,
    CONFIG_SET_LOCAL { path: Seq<char> },
}

pub open spec fn opt_str_view(o: Option<String>) -> Option<Seq<char>> {
    match o {
        Some(s) => Some(s@),
        None => None,
    }
}

impl View for Command {
    type V = CommandView;

    open spec fn view(&self) -> CommandView {
        match self {
            Command::HELP => CommandView::HELP,
            Command::INIT { name_of_new_log, config_path } => CommandView::INIT {
                name_of_new_log: opt_str_view(*name_of_new_log),
                config_path: opt_str_view(*config_path),
            },
            Command::TRACK { name_of_log } => CommandView::TRACK { name_of_log: name_of_log@ },
            Command::NEW { body } => CommandView::NEW { body: body@ },
            Command::DELETE { spec } => CommandView::DELETE { spec: *spec },
            Command::READ { spec, pretty } => CommandView::READ { spec: *spec, pretty: *pretty },
            Command::CONFIG_SHOW => CommandView::CONFIG_SHOW,
            Command::CONFIG_SET_LOCAL { path } => CommandView::CONFIG_SET_LOCAL { path: path@ },
        }
    }
}

pub open spec fn command_option_view(c: Option<Command>) -> Option<CommandView> {
    match c {
        Some(c) => Some(c@),
        None => None,
    }
}

/// A signed entry count or position: `n > 0` is `(true, n)`, `n < 0` is `(false, -n)`;
/// the text must be a non-zero `i64` once trimmed. Values are kept in a `usize`, so the
/// magnitude wraps where it does not fit.
pub open spec fn signed_count(arg: Seq<char>) -> Option<(bool, usize)> {
    let raw = trim(arg);
    if raw.len() == 0 {
        None
    } else {
        match parse_i64_spec(raw) {
            Err(_) => None,
            Ok(n) => if n == 0 {
                None
            } else if n > 0 {
                Some((true, n as usize))
            } else {
                Some((false, (-n) as usize))
            },
        }
    }
}

pub open spec fn delete_spec_of(c: (bool, usize)) -> DeleteSpec {
    if c.0 { DeleteSpec::CountFromEnd(c.1) } else { DeleteSpec::IndexFromEnd(c.1) }
}

pub open spec fn read_spec_of(c: (bool, usize)) -> ReadSpec {
    if c.0 { ReadSpec::CountFromEnd(c.1) } else { ReadSpec::IndexFromEnd(c.1) }
}

/// The arguments other than `--pretty`, in order.
pub open spec fn without_pretty(args: Seq<Seq<char>>) -> Seq<Seq<char>>
    decreases args.len(),
{
    if args.len() == 0 {
        Seq::empty()
    } else if args.last() == "--pretty"@ {
        without_pretty(args.drop_last())
    } else {
        without_pretty(args.drop_last()).push(args.last())
    }
}

pub open spec fn parse_init(a: Seq<Seq<char>>) -> Option<CommandView> {
    if a.len() == 1 {
        Some(CommandView::INIT { name_of_new_log: None, config_path: None })
    } else if a.len() == 2 {
        Some(CommandView::INIT { name_of_new_log: Some(a[1]), config_path: None })
    } else if a.len() == 3 && a[1] == "--config"@ {
        Some(CommandView::INIT { name_of_new_log: None, config_path: Some(a[2]) })
    } else if a.len() == 4 && a[2] == "--config"@ {
        Some(CommandView::INIT { name_of_new_log: Some(a[1]), config_path: Some(a[3]) })
    } else {
        None
    }
}

pub open spec fn parse_delete(a: Seq<Seq<char>>) -> Option<CommandView> {
    if a.len() == 1 {
        Some(CommandView::DELETE { spec: None })
    } else if a.len() == 2 {
        match signed_count(a[1]) {
            Some(c) => Some(CommandView::DELETE { spec: Some(delete_spec_of(c)) }),
            None => None,
        }
    } else {
        None
    }
}

pub open spec fn parse_read(a: Seq<Seq<char>>) -> Option<CommandView> {
    let rest = a.skip(1);
    let pretty = rest.contains("--pretty"@);
    let args = without_pretty(rest);
    if args.len() == 0 {
        Some(CommandView::READ { spec: None, pretty })
    } else if args.len() == 1 {
        match signed_count(args[0]) {
            Some(c) => Some(CommandView::READ { spec: Some(read_spec_of(c)), pretty }),
            None => None,
        }
    } else {
        None
    }
}

pub open spec fn parse_config(a: Seq<Seq<char>>) -> Option<CommandView> {
    if a.len() == 2 && a[1] == "show"@ {
        Some(CommandView::CONFIG_SHOW)
    } else if a.len() == 4 && a[1] == "set"@ && a[3] == "--local"@ {
        Some(CommandView::CONFIG_SET_LOCAL { path: a[2] })
    } else if a.len() == 4 && a[1] == "set"@ && a[2] == "--local"@ {
        Some(CommandView::CONFIG_SET_LOCAL { path: a[3] })
    } else {
        None
    }
}

/// What `Command::parse` makes of the arguments. No arguments is `help`; an unknown first
/// word makes the whole input the body of a new entry.
pub open spec fn parse_command(a: Seq<Seq<char>>) -> Option<CommandView> {
    if a.len() == 0 {
        Some(CommandView::HELP)
    } else if a[0] == "help"@ {
        Some(CommandView::HELP)
    } else if a[0] == "init"@ {
        parse_init(a)
    } else if a[0] == "track"@ {
        if a.len() == 2 { Some(CommandView::TRACK { name_of_log: a[1] }) } else { None }
    } else if a[0] == "new"@ {
        if a.len() < 2 { None } else { Some(CommandView::NEW { body: join(a.skip(1), " "@) }) }
    } else if a[0] == "delete"@ {
        parse_delete(a)
    } else if a[0] == "read"@ {
        parse_read(a)
    } else if a[0] == "config"@ {
        parse_config(a)
    } else {
        Some(CommandView::NEW { body: join(a, " "@) })
    }
}

pub open spec fn args_view(v: Seq<String>) -> Seq<Seq<char>> {
    v.map_values(|s: String| s@)
}

fn parse_signed_count(arg: &str) -> (r: Option<(bool, usize)>)
    ensures
        r == signed_count(arg@),
{
    let raw = trim_str(arg);
    if raw.as_str().is_empty() {
        return None;
    }
    let n: i64 = match parse_i64(raw.as_str()) {
        Ok(n) => n,
        Err(_) => {
            return None;
        },
    };
    if n == 0 {
        None
    } else if n > 0 {
        Some((true, n as usize))
    } else {
        let magnitude: i128 = -(n as i128);
        Some((false, magnitude as usize))
    }
}

fn clone_from(input: &Vec<String>, start: usize) -> (out: Vec<String>)
    requires
        start <= input.len(),
    ensures
        args_view(out@) == args_view(input@).skip(start as int),
{
    let mut out: Vec<String> = Vec::new();
    let mut i = start;
    while i < input.len()
        invariant
            start <= i <= input.len(),
            args_view(out@) == args_view(input@).subrange(start as int, i as int),
        decreases input.len() - i,
    {
        let ghost before = out@;
        out.push(input[i].clone());
        assert(args_view(out@) == args_view(before).push(input@[i as int]@));
        i = i + 1;
    }
    out
}

impl Command {
    /// Parses the command-line arguments (without the program name) into a command.
    pub fn parse(input: &Vec<String>) -> (r: Option<Command>)
        ensures
            command_option_view(r) == parse_command(args_view(input@)),
    {
        let ghost a = args_view(input@);
        if input.len() == 0 {
            return Some(Command::HELP);
        }
        let head = input[0].as_str();
        assert(a[0] == head@);
        if str_eq(head, "help") {
            return Some(Command::HELP);
        }
        if str_eq(head, "init") {
            if input.len() == 1 {
                return Some(Command::INIT { name_of_new_log: None, config_path: None });
            } else if input.len() == 2 {
                assert(a[1] == input@[1]@);
                return Some(Command::INIT { name_of_new_log: Some(input[1].clone()), config_path: None });
            } else if input.len() == 3 && str_eq(input[1].as_str(), "--config") {
                assert(a[2] == input@[2]@);
                return Some(Command::INIT { name_of_new_log: None, config_path: Some(input[2].clone()) });
            } else if input.len() == 4 && str_eq(input[2].as_str(), "--config") {
                assert(a[1] == input@[1]@);
                assert(a[3] == input@[3]@);
                return Some(Command::INIT {
                    name_of_new_log: Some(input[1].clone()),
                    config_path: Some(input[3].clone()),
                });
            } else {
                proof {
                    if input.len() == 3 {
                        assert(a[1] == input@[1]@);
                    }
                    if input.len() == 4 {
                        assert(a[2] == input@[2]@);
                    }
                }
                return None;
            }
        }
        if str_eq(head, "track") {
            if input.len() == 2 {
                assert(a[1] == input@[1]@);
                return Some(Command::TRACK { name_of_log: input[1].clone() });
            }
            return None;
        }
        if str_eq(head, "new") {
            if input.len() < 2 {
                return None;
            }
            let rest = clone_from(input, 1);
            return Some(Command::NEW { body: join_strings(&rest, " ") });
        }
        if str_eq(head, "delete") {
            if input.len() == 1 {
                return Some(Command::DELETE { spec: None });
            } else if input.len() == 2 {
                assert(a[1] == input@[1]@);
                return match parse_signed_count(input[1].as_str()) {
                    Some((true, n)) => Some(Command::DELETE { spec: Some(DeleteSpec::CountFromEnd(n)) }),
                    Some((false, n)) => Some(Command::DELETE { spec: Some(DeleteSpec::IndexFromEnd(n)) }),
                    None => None,
                };
            } else {
                return None;
            }
        }
        if str_eq(head, "read") {
            let mut pretty = false;
            let mut args: Vec<String> = Vec::new();
            let mut i: usize = 1;
            let ghost rest = a.skip(1);
            while i < input.len()
                invariant
                    1 <= i <= input.len(),
                    a == args_view(input@),
                    rest == a.skip(1),
                    pretty == rest.take(i - 1).contains("--pretty"@),
                    args_view(args@) == without_pretty(rest.take(i - 1)),
                decreases input.len() - i,
            {
                let ghost before = args@;
                let ghost p = rest.take(i - 1);
                let ghost q = rest.take(i as int);
                assert(q == p.push(input@[i as int]@));
                assert(q.drop_last() == p);
                if str_eq(input[i].as_str(), "--pretty") {
                    pretty = true;
                    assert(q[i - 1] == "--pretty"@);
                } else {
                    args.push(input[i].clone());
                    assert(args_view(args@) == args_view(before).push(input@[i as int]@));
                    proof {
                        if q.contains("--pretty"@) {
                            let k = choose|k: int| 0 <= k < q.len() && #[trigger] q[k] == "--pretty"@;
                            assert(k < i - 1);
                            assert(p[k] == "--pretty"@);
                        }
                    }
                }
                proof {
                    if p.contains("--pretty"@) {
                        let k = choose|k: int| 0 <= k < p.len() && #[trigger] p[k] == "--pretty"@;
                        assert(q[k] == "--pretty"@);
                    }
                }
                i = i + 1;
            }
            assert(rest.take(input.len() - 1) == rest);
            if args.len() == 0 {
                return Some(Command::READ { spec: None, pretty });
            } else if args.len() == 1 {
                return match parse_signed_count(args[0].as_str()) {
                    Some((true, n)) => Some(Command::READ { spec: Some(ReadSpec::CountFromEnd(n)), pretty }),
                    Some((false, n)) => Some(Command::READ { spec: Some(ReadSpec::IndexFromEnd(n)), pretty }),
                    None => None,
                };
            } else {
                return None;
            }
        }
        if str_eq(head, "config") {
            if input.len() == 2 && str_eq(input[1].as_str(), "show") {
                assert(a[1] == input@[1]@);
                return Some(Command::CONFIG_SHOW);
            }
            if input.len() == 4 && str_eq(input[1].as_str(), "set") && str_eq(input[3].as_str(), "--local") {
                assert(a[1] == input@[1]@);
                assert(a[2] == input@[2]@);
                assert(a[3] == input@[3]@);
                return Some(Command::CONFIG_SET_LOCAL { path: input[2].clone() });
            }
            if input.len() == 4 && str_eq(input[1].as_str(), "set") && str_eq(input[2].as_str(), "--local") {
                assert(a[1] == input@[1]@);
                assert(a[2] == input@[2]@);
                assert(a[3] == input@[3]@);
                return Some(Command::CONFIG_SET_LOCAL { path: input[3].clone() });
            }
            proof {
                if input.len() == 2 {
                    assert(a[1] == input@[1]@);
                }
                if input.len() == 4 {
                    assert(a[1] == input@[1]@);
                    assert(a[2] == input@[2]@);
                    assert(a[3] == input@[3]@);
                }
            }
            return None;
        }
        let all = clone_from(input, 0);
        assert(a.skip(0) == a);
        Some(Command::NEW { body: join_strings(&all, " ") })
    }
}

/// What `run` does before executing: parse the arguments, refusing them as an unknown
/// command (named by the first argument, or empty) when they do not parse.
pub fn resolve_command(args: &Vec<String>) -> (r: Result<Command, CliError>)
    ensures
        r is Ok <==> parse_command(args_view(args@)) is Some,
        r is Ok ==> Some(r->Ok_0@) == parse_command(args_view(args@)),
        r is Err ==> (r->Err_0 matches CliError::UnknownCommand { got } && got@ == if args@.len() > 0 {
            args@[0]@
        } else {
            Seq::<char>::empty()
        }),
{
    match Command::parse(args) {
        Some(c) => Ok(c),
        None => {
            let got = if args.len() > 0 { args[0].clone() } else { String::new() };
            Err(CliError::UnknownCommand { got })
        },
    }
}

/// `delete k` and `read k` (for `k >= 1`) ask for the last `k` entries; `delete -k` and
/// `read -k` ask for the `k`th entry from the end (`-1` the last one, `-2` the one before).
pub proof fn lemma_parse_counts(k: nat)
    requires
        1 <= k <= i64::MAX,
    ensures
        parse_command(seq!["delete"@, decimal(k)])
            == Some(CommandView::DELETE { spec: Some(DeleteSpec::CountFromEnd(k as usize)) }),
        parse_command(seq!["delete"@, seq!['-'] + decimal(k)])
            == Some(CommandView::DELETE { spec: Some(DeleteSpec::IndexFromEnd(k as usize)) }),
        parse_command(seq!["read"@, decimal(k)])
            == Some(CommandView::READ { spec: Some(ReadSpec::CountFromEnd(k as usize)), pretty: false }),
        parse_command(seq!["read"@, seq!['-'] + decimal(k)])
            == Some(CommandView::READ { spec: Some(ReadSpec::IndexFromEnd(k as usize)), pretty: false }),
{
    lemma_parse_decimal(k);
    let p = decimal(k);
    let m = seq!['-'] + p;
    assert(m[0] == '-' && m[1] == p[0] && m.last() == p.last());
    assert(trim(p) == p);
    assert(trim(m) == m);
    reveal_strlit("delete");
    reveal_strlit("read");
    reveal_strlit("help");
    reveal_strlit("init");
    reveal_strlit("track");
    reveal_strlit("new");
    reveal_strlit("--pretty");
    assert("delete"@ != "help"@ && "delete"@ != "init"@ && "delete"@ != "track"@ && "delete"@ != "new"@) by {
        assert("delete"@.len() == 6);
    }
    assert("read"@ != "help"@ && "read"@ != "init"@ && "read"@ != "track"@ && "read"@ != "new"@
        && "read"@ != "delete"@) by {
        assert("read"@[0] == 'r');
    }
    assert(p != "--pretty"@) by {
        assert("--pretty"@[0] == '-');
    }
    assert(m != "--pretty"@) by {
        assert("--pretty"@[1] == '-');
    }
    reveal_with_fuel(without_pretty, 2);
    let ap = seq!["read"@, p];
    let am = seq!["read"@, m];
    assert(ap.skip(1) =~= seq![p]);
    assert(am.skip(1) =~= seq![m]);
    assert(seq![p].drop_last() =~= Seq::<Seq<char>>::empty());
    assert(seq![m].drop_last() =~= Seq::<Seq<char>>::empty());
    assert(without_pretty(seq![p]) =~= seq![p]);
    assert(without_pretty(seq![m]) =~= seq![m]);
    assert(!seq![p].contains("--pretty"@));
    assert(!seq![m].contains("--pretty"@));
}

} // verus!
