//! The command line: `prmn [subcommand] [flags]`, the flags `-o`/`--out`
//! and `-n`/`--no-last`, and the subcommands `last` (`l`), `find` (`f`)
//! and `help` (`?`).

use vstd::prelude::*;
use crate::text::{starts_with_char, str_eq, str_starts_with_char, strs};

verus! {

/// The usage text.
pub const HELP: &'static str = "usage: prmn [subcommand]
    ==========FLAGS==========
    -h | --help | -?: displays this message
    -o | --out: outputs the project dir into stdout instead of opening the editor
    -n | --no-last: prevents prmn from saving the last opened project
    =======SUB COMMANDS======
    [none]: shows the menu
    help | ?: shows this message
    l | last: opens the last project opened
    f | find: opens the search menu";

/// The flags of an invocation.
pub struct Commands {
    /// Print the chosen project's path instead of opening the editor.
    pub out: bool,
    /// Do not remember the chosen project as the last one.
    pub no_last: bool,
}

/// What to show.
#[derive(PartialEq, Eq, Structural)]
pub enum Subcommand {
    /// The category menu.
    Menu,
    /// The last opened project.
    Last,
    /// The search over every project.
    Find,
}

/// A command line that cannot be run (the process exits with status 101).
pub enum ArgError {
    /// A word that is neither a flag nor the subcommand.
    TooManyArguments,
    /// An unknown flag, given without its leading dashes.
    InvalidFlag(String),
}

/// The outcome of reading the flags.
pub enum FlagsOutcome {
    /// A help flag was given: print the usage and exit with status 0.
    Help,
    Parsed(Commands),
    Failed(ArgError),
}

/// The outcome of reading a whole command line.
pub enum Invocation {
    /// The subcommand `help` or `?`: print the usage on standard output and
    /// exit with status 0.
    Help,
    /// A help flag: print the usage on standard error and exit with status 0.
    FlagHelp,
    Run { sub: Subcommand, cmd: Commands },
    Fail(ArgError),
}

/// The meaning of a command line, over character sequences.
pub enum ArgsSpec {
    Help,
    FlagHelp,
    Run(Subcommand, bool, bool),
    TooMany,
    Invalid(Seq<char>),
}

/// The flags that ask for the usage text.
pub open spec fn is_help_flag(a: Seq<char>) -> bool {
    ||| a == "-h"@
    ||| a == "-help"@
    ||| a == "--help"@
    ||| a == "-?"@
    ||| a == "--?"@
}

/// A flag without its one or two leading dashes.
pub open spec fn flag_name(a: Seq<char>) -> Seq<char> {
    let b = a.skip(1);
    if starts_with_char(b, '-') {
        b.skip(1)
    } else {
        b
    }
}

/// The flags from position `i` on, with the switches read so far.
pub open spec fn flags_from(args: Seq<Seq<char>>, i: int, out: bool, no_last: bool) -> ArgsSpec
    decreases args.len() - i,
{
    if i < 0 || i >= args.len() {
        ArgsSpec::Run(Subcommand::Menu, out, no_last)
    } else if !starts_with_char(args[i], '-') {
        ArgsSpec::TooMany
    } else {
        let ch = flag_name(args[i]);
        if ch == "o"@ || ch == "out"@ {
            flags_from(args, i + 1, true, no_last)
        } else if ch == "n"@ || ch == "no-last"@ {
            flags_from(args, i + 1, out, true)
        } else if ch == "-"@ {
            ArgsSpec::Run(Subcommand::Menu, out, no_last)
        } else {
            ArgsSpec::Invalid(ch)
        }
    }
}

/// The meaning of the flags `args` (the subcommand field is `Menu`).
pub open spec fn flags_spec(args: Seq<Seq<char>>) -> ArgsSpec {
    if exists|i: int| 0 <= i < args.len() && is_help_flag(#[trigger] args[i]) {
        ArgsSpec::FlagHelp
    } else {
        flags_from(args, 0, false, false)
    }
}

/// The position of the subcommand: the first word that is not a flag, or
/// the word after the first `--`.
pub open spec fn command_index_from(args: Seq<Seq<char>>, i: int, after_sep: bool) -> Option<int>
    decreases args.len() - i,
{
    if i < 0 || i >= args.len() {
        None
    } else if after_sep {
        Some(i)
    } else if args[i] == "--"@ {
        command_index_from(args, i + 1, true)
    } else if starts_with_char(args[i], '-') {
        command_index_from(args, i + 1, false)
    } else {
        Some(i)
    }
}

/// Runs `flags` for the subcommand `sub`.
pub open spec fn with_sub(r: ArgsSpec, sub: Subcommand) -> ArgsSpec {
    match r {
        ArgsSpec::Run(_, o, n) => ArgsSpec::Run(sub, o, n),
        other => other,
    }
}

/// The meaning of a whole command line.
pub open spec fn invocation_spec(args: Seq<Seq<char>>) -> ArgsSpec {
    match command_index_from(args, 0, false) {
        None => flags_spec(args),
        Some(k) => {
            let c = args[k];
            let rest = args.remove(k);
            if c == "help"@ || c == "?"@ {
                ArgsSpec::Help
            } else if c == "l"@ || c == "last"@ {
                with_sub(flags_spec(rest), Subcommand::Last)
            } else if c == "f"@ || c == "find"@ {
                with_sub(flags_spec(rest), Subcommand::Find)
            } else {
                flags_spec(rest.insert(0, c))
            }
        },
    }
}

/// The meaning of a flags outcome.
pub open spec fn flags_view(r: FlagsOutcome) -> ArgsSpec {
    match r {
        FlagsOutcome::Help => ArgsSpec::FlagHelp,
        FlagsOutcome::Parsed(c) => ArgsSpec::Run(Subcommand::Menu, c.out, c.no_last),
        FlagsOutcome::Failed(ArgError::TooManyArguments) => ArgsSpec::TooMany,
        FlagsOutcome::Failed(ArgError::InvalidFlag(s)) => ArgsSpec::Invalid(s@),
    }
}

/// The meaning of an invocation.
pub open spec fn invocation_view(r: Invocation) -> ArgsSpec {
    match r {
        Invocation::Help => ArgsSpec::Help,
        Invocation::FlagHelp => ArgsSpec::FlagHelp,
        Invocation::Run { sub, cmd } => ArgsSpec::Run(sub, cmd.out, cmd.no_last),
        Invocation::Fail(ArgError::TooManyArguments) => ArgsSpec::TooMany,
        Invocation::Fail(ArgError::InvalidFlag(s)) => ArgsSpec::Invalid(s@),
    }
}

proof fn lemma_command_is_a_word(args: Seq<Seq<char>>, i: int, k: int)
    requires
        0 <= i,
        forall|j: int| 0 <= j < args.len() ==> #[trigger] args[j] != "--"@,
        command_index_from(args, i, false) == Some(k),
    ensures
        i <= k < args.len(),
        !starts_with_char(args[k], '-'),
    decreases args.len() - i,
{
    if i < args.len() && starts_with_char(args[i], '-') {
        lemma_command_is_a_word(args, i + 1, k);
    }
}

proof fn lemma_help_flag_is_a_flag(a: Seq<char>)
    requires
        is_help_flag(a),
    ensures
        starts_with_char(a, '-'),
{
    reveal_strlit("-h");
    reveal_strlit("-help");
    reveal_strlit("--help");
    reveal_strlit("-?");
    reveal_strlit("--?");
}

/// A help flag shows the usage wherever it stands among the words, unless a
/// `--` makes the words after it literal.
pub proof fn lemma_help_flag_wins(args: Seq<Seq<char>>, i: int)
    requires
        0 <= i < args.len(),
        is_help_flag(args[i]),
        forall|j: int| 0 <= j < args.len() ==> #[trigger] args[j] != "--"@,
    ensures
        invocation_spec(args) is Help || invocation_spec(args) is FlagHelp,
{
    match command_index_from(args, 0, false) {
        None => {
            assert(is_help_flag(args[i]));
        },
        Some(k) => {
            lemma_command_is_a_word(args, 0, k);
            lemma_help_flag_is_a_flag(args[i]);
            assert(k != i);
            let c = args[k];
            let rest = args.remove(k);
            let j = if i < k { i } else { i - 1 };
            assert(rest[j] == args[i]);
            assert(is_help_flag(rest[j]));
            assert(flags_spec(rest) == ArgsSpec::FlagHelp);
            let ins = rest.insert(0, c);
            assert(ins[j + 1] == args[i]);
            assert(is_help_flag(ins[j + 1]));
            assert(flags_spec(ins) == ArgsSpec::FlagHelp);
        },
    }
}

/// The words of the `-o`/`--out` flag.
pub open spec fn is_out_word(w: Seq<char>) -> bool {
    w == "-o"@ || w == "--o"@ || w == "-out"@ || w == "--out"@
}

/// The words of the `-n`/`--no-last` flag.
pub open spec fn is_no_last_word(w: Seq<char>) -> bool {
    w == "-n"@ || w == "--n"@ || w == "-no-last"@ || w == "--no-last"@
}

/// Some word from position `i` on is `-o`/`--out`, before any `---`.
pub open spec fn out_given_from(args: Seq<Seq<char>>, i: int) -> bool {
    exists|j: int|
        i <= j < args.len() && is_out_word(#[trigger] args[j]) && forall|k: int| i <= k < j ==> args[k] != "---"@
}

/// Some word from position `i` on is `-n`/`--no-last`, before any `---`.
pub open spec fn no_last_given_from(args: Seq<Seq<char>>, i: int) -> bool {
    exists|j: int|
        i <= j < args.len() && is_no_last_word(#[trigger] args[j]) && forall|k: int| i <= k < j ==> args[k]
            != "---"@
}

proof fn lemma_flag_name_is(w: Seq<char>, c: Seq<char>)
    requires
        starts_with_char(w, '-'),
        c.len() > 0,
        c[0] != '-',
    ensures
        flag_name(w) == c <==> (w == seq!['-'] + c || w == seq!['-', '-'] + c),
{
    let b = w.skip(1);
    assert(w =~= seq!['-'] + b);
    if starts_with_char(b, '-') {
        assert(b =~= seq!['-'] + b.skip(1));
        assert(w =~= seq!['-', '-'] + b.skip(1));
        if w == seq!['-'] + c {
            assert(b =~= c);
        }
        if w == seq!['-', '-'] + c {
            assert(b.skip(1) =~= c);
        }
    } else {
        if w == seq!['-', '-'] + c {
            assert(b[0] == '-');
        }
        if w == seq!['-'] + c {
            assert(b =~= c);
        }
    }
}

proof fn lemma_flag_name_stop(w: Seq<char>)
    requires
        starts_with_char(w, '-'),
    ensures
        flag_name(w) == "-"@ <==> w == "---"@,
{
    reveal_strlit("-");
    reveal_strlit("---");
    let b = w.skip(1);
    assert(w =~= seq!['-'] + b);
    if starts_with_char(b, '-') {
        assert(b =~= seq!['-'] + b.skip(1));
        if flag_name(w) == "-"@ {
            assert(w =~= "---"@);
        }
        if w == "---"@ {
            assert(b.skip(1) =~= "-"@);
        }
    } else {
        if w == "---"@ {
            assert(b[0] == '-');
        }
        if flag_name(w) == "-"@ {
            assert(b[0] == '-');
        }
    }
}

proof fn lemma_flag_words()
    ensures
        forall|w: Seq<char>| #[trigger] starts_with_char(w, '-') ==> (is_out_word(w) <==> (flag_name(w) == "o"@
            || flag_name(w) == "out"@)),
        forall|w: Seq<char>| #[trigger] starts_with_char(w, '-') ==> (is_no_last_word(w) <==> (flag_name(w)
            == "n"@ || flag_name(w) == "no-last"@)),
        forall|w: Seq<char>| #[trigger] starts_with_char(w, '-') ==> (flag_name(w) == "-"@ <==> w == "---"@),
        !is_out_word("---"@),
        !is_no_last_word("---"@),
        forall|w: Seq<char>| is_out_word(w) ==> !is_no_last_word(w) && w != "---"@,
        forall|w: Seq<char>| is_no_last_word(w) ==> w != "---"@,
{
    reveal_strlit("o");
    reveal_strlit("out");
    reveal_strlit("n");
    reveal_strlit("no-last");
    reveal_strlit("-o");
    reveal_strlit("--o");
    reveal_strlit("-out");
    reveal_strlit("--out");
    reveal_strlit("-n");
    reveal_strlit("--n");
    reveal_strlit("-no-last");
    reveal_strlit("--no-last");
    reveal_strlit("---");
    assert("-o"@ =~= seq!['-'] + "o"@);
    assert("--o"@ =~= seq!['-', '-'] + "o"@);
    assert("-out"@ =~= seq!['-'] + "out"@);
    assert("--out"@ =~= seq!['-', '-'] + "out"@);
    assert("-n"@ =~= seq!['-'] + "n"@);
    assert("--n"@ =~= seq!['-', '-'] + "n"@);
    assert("-no-last"@ =~= seq!['-'] + "no-last"@);
    assert("--no-last"@ =~= seq!['-', '-'] + "no-last"@);
    assert forall|w: Seq<char>| #[trigger] starts_with_char(w, '-') implies (is_out_word(w) <==> (flag_name(w)
        == "o"@ || flag_name(w) == "out"@)) && (is_no_last_word(w) <==> (flag_name(w) == "n"@ || flag_name(w)
        == "no-last"@)) && (flag_name(w) == "-"@ <==> w == "---"@) by {
        lemma_flag_name_is(w, "o"@);
        lemma_flag_name_is(w, "out"@);
        lemma_flag_name_is(w, "n"@);
        lemma_flag_name_is(w, "no-last"@);
        lemma_flag_name_stop(w);
    }
    assert forall|w: Seq<char>| is_out_word(w) implies !is_no_last_word(w) && w != "---"@ by {
        if w == "-o"@ || w == "--o"@ {
            assert(w[w.len() - 1] == 'o');
            assert("-n"@[1] != 'o' && "--n"@[2] != 'o' && "-no-last"@[7] != 'o' && "--no-last"@[8] != 'o'
                && "---"@[2] != 'o');
        } else {
            assert(w[w.len() - 1] == 't');
            assert("-n"@[1] != 't' && "--n"@[2] != 't' && "---"@[2] != 't');
            assert("-no-last"@.len() != w.len() && "--no-last"@.len() != w.len());
        }
    }
    assert forall|w: Seq<char>| is_no_last_word(w) implies w != "---"@ by {
        assert(w[w.len() - 1] != '-');
    }
}

proof fn lemma_flags_from_switches(args: Seq<Seq<char>>, i: int, o0: bool, n0: bool)
    requires
        0 <= i <= args.len(),
    ensures
        flags_from(args, i, o0, n0) matches ArgsSpec::Run(_, o, n) ==> o == (o0 || out_given_from(args, i)) && n
            == (n0 || no_last_given_from(args, i)),
    decreases args.len() - i,
{
    lemma_flag_words();
    if i < args.len() && starts_with_char(args[i], '-') {
        let w = args[i];
        let ch = flag_name(w);
        lemma_flags_from_switches(args, i + 1, true, n0);
        lemma_flags_from_switches(args, i + 1, o0, true);
        if ch == "o"@ || ch == "out"@ {
            assert(is_out_word(w));
            assert(out_given_from(args, i)) by {
                assert(is_out_word(args[i]));
            }
            if no_last_given_from(args, i + 1) {
                let j = choose|j: int|
                    i + 1 <= j < args.len() && is_no_last_word(#[trigger] args[j]) && forall|k: int|
                        i + 1 <= k < j ==> args[k] != "---"@;
                assert(is_no_last_word(args[j]));
            }
            if no_last_given_from(args, i) {
                let j = choose|j: int|
                    i <= j < args.len() && is_no_last_word(#[trigger] args[j]) && forall|k: int| i <= k < j
                        ==> args[k] != "---"@;
                assert(j != i);
                assert(is_no_last_word(args[j]));
            }
        } else if ch == "n"@ || ch == "no-last"@ {
            assert(is_no_last_word(w));
            assert(no_last_given_from(args, i)) by {
                assert(is_no_last_word(args[i]));
            }
            if out_given_from(args, i + 1) {
                let j = choose|j: int|
                    i + 1 <= j < args.len() && is_out_word(#[trigger] args[j]) && forall|k: int| i + 1 <= k < j
                        ==> args[k] != "---"@;
                assert(is_out_word(args[j]));
            }
            if out_given_from(args, i) {
                let j = choose|j: int|
                    i <= j < args.len() && is_out_word(#[trigger] args[j]) && forall|k: int| i <= k < j ==> args[k]
                        != "---"@;
                assert(j != i);
                assert(is_out_word(args[j]));
            }
        } else if ch == "-"@ {
            assert(w == "---"@);
            if out_given_from(args, i) {
                let j = choose|j: int|
                    i <= j < args.len() && is_out_word(#[trigger] args[j]) && forall|k: int| i <= k < j ==> args[k]
                        != "---"@;
                assert(j == i);
            }
            if no_last_given_from(args, i) {
                let j = choose|j: int|
                    i <= j < args.len() && is_no_last_word(#[trigger] args[j]) && forall|k: int| i <= k < j
                        ==> args[k] != "---"@;
                assert(j == i);
            }
        }
    }
}

/// Each flag sets only its own switch, in any order: when the flags are
/// read, `out` is set exactly when some word before the first `---` is
/// `-o`/`--out`, and `no_last` exactly when some such word is
/// `-n`/`--no-last`.
pub proof fn lemma_flags_set_own_switch(args: Seq<Seq<char>>)
    ensures
        flags_spec(args) matches ArgsSpec::Run(_, o, n) ==> o == out_given_from(args, 0) && n
            == no_last_given_from(args, 0),
{
    lemma_flags_from_switches(args, 0, false, false);
}

fn is_help_arg(a: &str) -> (r: bool)
    ensures
        r == is_help_flag(a@),
{
    str_eq(a, "-h") || str_eq(a, "-help") || str_eq(a, "--help") || str_eq(a, "-?") || str_eq(a, "--?")
}

impl Commands {
    /// Reads the flags of a command line (after its subcommand was taken out).
    pub fn from_args(args: &Vec<String>) -> (r: FlagsOutcome)
        ensures
            flags_view(r) == flags_spec(strs(args@)),
    {
        let ghost sa = strs(args@);
        let n = args.len();
        let mut i: usize = 0;
        while i < n
            invariant
                n == args@.len(),
                sa == strs(args@),
                i <= n,
                forall|k: int| 0 <= k < i ==> !is_help_flag(#[trigger] sa[k]),
            decreases n - i,
        {
            if is_help_arg(args[i].as_str()) {
                assert(is_help_flag(sa[i as int]));
                return FlagsOutcome::Help;
            }
            i = i + 1;
        }
        let mut out = false;
        let mut no_last = false;
        let mut i: usize = 0;
        while i < n
            invariant
                n == args@.len(),
                sa == strs(args@),
                i <= n,
                forall|k: int| 0 <= k < n ==> !is_help_flag(#[trigger] sa[k]),
                flags_spec(sa) == flags_from(sa, i as int, out, no_last),
            decreases n - i,
        {
            let a = args[i].as_str();
            if !str_starts_with_char(a, '-') {
                return FlagsOutcome::Failed(ArgError::TooManyArguments);
            }
            let len = a.unicode_len();
            let b = a.substring_char(1, len);
            let blen = b.unicode_len();
            let ch = if str_starts_with_char(b, '-') {
                b.substring_char(1, blen)
            } else {
                b
            };
            proof {
                assert(b@ =~= sa[i as int].skip(1));
                if starts_with_char(b@, '-') {
                    assert(ch@ =~= b@.skip(1));
                }
                assert(ch@ == flag_name(sa[i as int]));
            }
            if str_eq(ch, "o") || str_eq(ch, "out") {
                out = true;
            } else if str_eq(ch, "n") || str_eq(ch, "no-last") {
                no_last = true;
            } else if str_eq(ch, "-") {
                return FlagsOutcome::Parsed(Commands { out, no_last });
            } else {
                return FlagsOutcome::Failed(ArgError::InvalidFlag(ch.to_owned()));
            }
            i = i + 1;
        }
        FlagsOutcome::Parsed(Commands { out, no_last })
    }
}

/// Reads a whole command line (without the program name): finds the
/// subcommand, then reads the remaining words as flags.
pub fn parse_invocation(args: &Vec<String>) -> (r: Invocation)
    ensures
        invocation_view(r) == invocation_spec(strs(args@)),
{
    let ghost sa = strs(args@);
    let n = args.len();
    let mut after_sep = false;
    let mut i: usize = 0;
    let mut found: Option<usize> = None;
    while i < n
        invariant_except_break
            found is None,
            command_index_from(sa, 0, false) == command_index_from(sa, i as int, after_sep),
        invariant
            n == args@.len(),
            sa == strs(args@),
            i <= n,
        ensures
            match found {
                Some(k) => k < n && command_index_from(sa, 0, false) == Some(k as int),
                None => command_index_from(sa, 0, false) is None,
            },
        decreases n - i,
    {
        let a = args[i].as_str();
        if after_sep {
            found = Some(i);
            break;
        }
        if str_eq(a, "--") {
            after_sep = true;
        } else if str_starts_with_char(a, '-') {
        } else {
            found = Some(i);
            break;
        }
        i = i + 1;
    }
    match found {
        None => {
            let f = Commands::from_args(args);
            match f {
                FlagsOutcome::Help => Invocation::FlagHelp,
                FlagsOutcome::Parsed(c) => Invocation::Run { sub: Subcommand::Menu, cmd: c },
                FlagsOutcome::Failed(e) => Invocation::Fail(e),
            }
        },
        Some(k) => {
            let c = args[k].as_str();
            let mut rest = args.clone();
            let cmd = rest.remove(k);
            proof {
                assert(strs(rest@) =~= sa.remove(k as int));
            }
            if str_eq(c, "help") || str_eq(c, "?") {
                Invocation::Help
            } else {
                let sub = if str_eq(c, "l") || str_eq(c, "last") {
                    Subcommand::Last
                } else if str_eq(c, "f") || str_eq(c, "find") {
                    Subcommand::Find
                } else {
                    Subcommand::Menu
                };
                if sub == Subcommand::Menu {
                    let ghost r0 = rest@;
                    rest.insert(0, cmd);
                    proof {
                        assert(strs(rest@) =~= sa.remove(k as int).insert(0, sa[k as int]));
                    }
                }
                let f = Commands::from_args(&rest);
                match f {
                    FlagsOutcome::Help => Invocation::FlagHelp,
                    FlagsOutcome::Parsed(cm) => Invocation::Run { sub, cmd: cm },
                    FlagsOutcome::Failed(e) => Invocation::Fail(e),
                }
            }
        },
    }
}

/// Whether to print instead of opening the editor: asked for, or standard
/// output is not a terminal.
pub fn effective_out(out: bool, stdout_is_terminal: bool) -> (r: bool)
    ensures
        r == (out || !stdout_is_terminal),
{
    out || !stdout_is_terminal
}

/// The project `last` opens directly: the remembered one, if it is still a
/// directory; otherwise the menu is shown.
pub fn last_target(last: &Option<String>, is_dir: bool) -> (r: Option<String>)
    ensures
        match r {
            Some(p) => is_dir && (last matches Some(l) && p@ == l@),
            None => last is None || !is_dir,
        },
{
    match last {
        Some(l) => if is_dir { Some(l.clone()) } else { None },
        None => None,
    }
}

} // verus!
