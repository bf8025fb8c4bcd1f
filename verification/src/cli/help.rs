//! What `--help` prints, built from the same table the parser reads, so
//! that a command the program takes and a command the help lists cannot
//! drift apart.

use vstd::prelude::*;
use crate::cli::request::{noun_of, Spec};
use crate::cli::table::{command_table, commands};
use crate::text::{append_all, append_str, chars_of, string_of};

verus! {

/// The lines that open the program's own help.
pub const OPENING: &'static str = "\
jobsdone, a keyboard-first daily task manager for the terminal

    jobsdone                          open the app
    jobsdone COMMAND [ARGUMENTS]      one operation, without the app
    jobsdone help [COMMAND]           what a command takes
";

/// The options every command takes, wherever they are written.
pub const GLOBAL: &'static str = "\
Options, anywhere on the line:
    --json                    the machine response instead of a reading of it
    --format text|json        the same choice, written out
    --input FILE              a JSON body for the command; - is standard input
    --data-dir DIR            a database somewhere else, ahead of JOBSDONE_DATA_DIR
    -h, --help                this, or a command's own
    -V, --version
    --skill                   the agent guide bundled with this binary
";

/// The closing lines: the little that is worth saying once rather than
/// under every command.
pub const CLOSING: &'static str = "\
Dates are 2026-09-07, today, yesterday, tomorrow or next-work-day. Today is
the working day, which begins at the hour the settings name rather than at
midnight; every response carries the one it used.

Reading changes nothing: no recurring copy is made and the morning review's
once-a-day gate is not spent. `jobsdone refresh` makes the copies that are
due and `jobsdone review start` opens the review.

Everything a change is meant to do belongs in one invocation: it commits at
once, and one `jobsdone undo apply` takes the whole of it back.

Answers go to standard output and failures to standard error. The exit code
is 0, or 2 for a command line or a request that could not be read, 3 for
something that is not there, 4 for a change the rules refused, 5 for a clash
with another window, and 1 for anything else.
";

/// A command's own help: its form, the rest of what it takes, and the
/// operation it sends.
pub open spec fn command_help(spec: Spec) -> Seq<char> {
    let head = spec.usage@ + "\n"@;
    let body = if spec.detail@.len() > 0 { head + "\n"@ + spec.detail@ + "\n"@ } else { head };
    if spec.op@.len() == 0 {
        body
    } else {
        body + "\nSends the "@ + spec.op@ + " operation. `jobsdone "@ + spec.name@
            + " --json` gives the response\nthe fields above go into.\n"@
    }
}

/// A name with spaces after it to the width of the command list's first
/// column.
pub open spec fn padded(name: Seq<char>, width: int) -> Seq<char> {
    if name.len() >= width {
        name
    } else {
        name + Seq::new((width - name.len()) as nat, |i: int| ' ')
    }
}

/// The command list from the `i`th command on, after a group named
/// `group`: one line a command, and a blank line between two groups.
pub open spec fn listing(table: Seq<Spec>, i: int, group: Seq<char>) -> Seq<char>
    decreases table.len() - i,
{
    if i < 0 || i >= table.len() {
        Seq::empty()
    } else {
        let noun = noun_of(table[i].name@);
        let gap = if noun != group && group.len() > 0 { "\n"@ } else { Seq::empty() };
        gap + "    "@ + padded(table[i].name@, 20) + "  "@ + table[i].summary@ + "\n"@
            + listing(table, i + 1, noun)
    }
}

/// The whole program's help: the command list, grouped by its first word
/// in the order the table has them.
pub open spec fn program_help() -> Seq<char> {
    OPENING@ + "\n"@ + listing(command_table(), 0, Seq::empty()) + "\n"@ + GLOBAL@ + "\n"@ + CLOSING@
}

/// Help for one command, or for the program where there is none.
pub open spec fn help_of(spec: Option<Spec>) -> Seq<char> {
    match spec {
        Some(s) => if s.name@ == "help"@ { program_help() } else { command_help(s) },
        None => program_help(),
    }
}

/// Help for one command, or for the program where there is none.
pub fn for_command(spec: Option<&'static Spec>) -> (text: String)
    ensures
        text@ == help_of(match spec { Some(s) => Some(*s), None => None }),
{
    let chosen = match spec {
        Some(s) => if crate::text::is(chars_of(s.name).as_slice(), "help") { None } else { Some(s) },
        None => None,
    };
    match chosen {
        None => program(),
        Some(s) => {
            let mut out = chars_of(s.usage);
            append_str(&mut out, "\n");
            if chars_of(s.detail).len() > 0 {
                append_str(&mut out, "\n");
                append_str(&mut out, s.detail);
                append_str(&mut out, "\n");
            }
            if chars_of(s.op).len() == 0 {
                return string_of(out.as_slice());
            }
            append_str(&mut out, "\nSends the ");
            append_str(&mut out, s.op);
            append_str(&mut out, " operation. `jobsdone ");
            append_str(&mut out, s.name);
            append_str(&mut out, " --json` gives the response\nthe fields above go into.\n");
            string_of(out.as_slice())
        },
    }
}

/// A name padded with spaces to a width.
fn pad(name: &str, width: usize) -> (r: Vec<char>)
    ensures
        r@ == padded(name@, width as int),
{
    let mut r = chars_of(name);
    let n = r.len();
    if n >= width {
        return r;
    }
    let mut k: usize = n;
    while k < width
        invariant
            n == name@.len(),
            n <= k <= width,
            r@ == name@ + Seq::new((k - n) as nat, |i: int| ' '),
        decreases width - k,
    {
        r.push(' ');
        k = k + 1;
        assert(r@ =~= name@ + Seq::new((k - n) as nat, |i: int| ' '));
    }
    r
}

/// The whole program's help.
fn program() -> (text: String)
    ensures
        text@ == program_help(),
{
    let table = commands();
    let mut out = chars_of(OPENING);
    append_str(&mut out, "\n");
    let ghost start = out@;
    let mut group: Vec<char> = Vec::new();
    let mut i: usize = 0;
    while i < table.len()
        invariant
            table@ == command_table(),
            i <= table@.len(),
            start == OPENING@ + "\n"@,
            out@ + listing(table@, i as int, group@) == start + listing(table@, 0, Seq::empty()),
        decreases table@.len() - i,
    {
        let noun = crate::cli::request::first_word(table[i].name);
        let ghost before = out@;
        let fresh = !crate::text::same(noun.as_slice(), group.as_slice()) && group.len() > 0;
        if fresh {
            append_str(&mut out, "\n");
        }
        append_str(&mut out, "    ");
        append_all(&mut out, pad(table[i].name, 20).as_slice());
        append_str(&mut out, "  ");
        append_str(&mut out, table[i].summary);
        append_str(&mut out, "\n");
        proof {
            let gap = if noun@ != group@ && group@.len() > 0 { "\n"@ } else { Seq::<char>::empty() };
            let line = gap + "    "@ + padded(table@[i as int].name@, 20) + "  "@ + table@[i as int].summary@ + "\n"@;
            assert(out@ =~= before + line);
            assert(listing(table@, i as int, group@) == line + listing(table@, i + 1, noun@));
            assert(out@ + listing(table@, i + 1, noun@) =~= before + listing(table@, i as int, group@));
        }
        group = noun;
        i = i + 1;
    }
    append_str(&mut out, "\n");
    append_str(&mut out, GLOBAL);
    append_str(&mut out, "\n");
    append_str(&mut out, CLOSING);
    string_of(out.as_slice())
}

} // verus!
