//! The grammar: arguments in, a `Parsed` out. Nothing here reads a file, a
//! clock or the database, so every form of the command line is a function
//! of the words on it.

use vstd::prelude::*;
use crate::cli::{Failure, Format, Operation, Parsed, Plan, Then};
use crate::cli::json::{fields_view, insert, text, Json, JsonView};
use crate::cli::render;
use crate::cli::request::{
    command_named, command_named_of, fields, fields_of, halves, rule_of, split_once, whole_of,
    Body, Fields, Source, SourceView, Spec, body_view,
};
use crate::cli::table::{command_table, commands};
use crate::cli::help::{for_command, help_of};
use crate::text::{
    append_all, append_str, chars_of, find_char, is, slice_of, starts_with, string_of, trim,
    trimmed, views,
};

verus! {

/// The words of a list of strings.
pub open spec fn words(v: Seq<String>) -> Seq<Seq<char>> {
    v.map_values(|s: String| s@)
}

/// The options the program takes wherever they appear, and whether each
/// one is followed by a value.
pub open spec fn global_table() -> Seq<(&'static str, bool)> {
    seq![
        ("--json", false),
        ("--format", true),
        ("--data-dir", true),
        ("--input", true),
        ("--help", false),
        ("-h", false),
        ("--version", false),
        ("-V", false),
        ("--skill", false),
    ]
}

/// The options the program takes wherever they appear.
pub fn global_options() -> (table: &'static [(&'static str, bool)])
    ensures
        table@ == global_table(),
{
    &[
        ("--json", false),
        ("--format", true),
        ("--data-dir", true),
        ("--input", true),
        ("--help", false),
        ("-h", false),
        ("--version", false),
        ("-V", false),
        ("--skill", false),
    ]
}

/// `--name=value` split into its two halves; anything else is the token
/// and nothing. Only the first `=` splits, and only where what is before
/// it is an option.
pub open spec fn split_of(token: Seq<char>) -> (Seq<char>, Option<Seq<char>>) {
    if token.contains('=') {
        let at = choose|at: int| crate::text::first_at(token, '=', at);
        let name = token.subrange(0, at);
        if name.len() > 0 && name[0] == '-' {
            (name, Some(token.subrange(at + 1, token.len() as int)))
        } else {
            (token, None)
        }
    } else {
        (token, None)
    }
}

pub fn split(token: &[char]) -> (halves: (Vec<char>, Option<Vec<char>>))
    ensures
        halves.0@ == split_of(token@).0,
        halves.1 matches Some(v) ==> split_of(token@).1 == Some(v@),
        halves.1 is None ==> split_of(token@).1 is None,
{
    match find_char(token, '=') {
        Some(at) => {
            proof {
                assert(token@.contains('='));
                let chosen = choose|k: int| crate::text::first_at(token@, '=', k);
                crate::text::lemma_first_at_unique(token@, '=', at as int, chosen);
            }
            if at > 0 && token[0] == '-' {
                (slice_of(token, 0, at), Some(slice_of(token, at + 1, token.len())))
            } else {
                (slice_of(token, 0, token.len()), None)
            }
        },
        None => {
            let whole = slice_of(token, 0, token.len());
            assert(token@.subrange(0, token@.len() as int) =~= token@);
            (whole, None)
        },
    }
}

/// The format a command line asks for, read from its option tokens up to
/// `--`, `i` tokens in, having asked for `format` so far.
pub open spec fn hint_from(arguments: Seq<Seq<char>>, i: int, format: Format) -> Format
    decreases arguments.len() - i,
{
    if i < 0 || i >= arguments.len() || arguments[i] == "--"@ {
        format
    } else {
        let (name, attached) = split_of(arguments[i]);
        if name == "--json"@ {
            hint_from(arguments, i + 1, Format::Json)
        } else if name == "--format"@ {
            let (value, next) = match attached {
                Some(value) => (Some(value), i + 1),
                None => if i + 1 < arguments.len() {
                    (Some(arguments[i + 1]), i + 2)
                } else {
                    (None, i + 1)
                },
            };
            let now = if value == Some("json"@) { Format::Json } else { format };
            hint_from(arguments, next, now)
        } else {
            hint_from(arguments, i + 1, format)
        }
    }
}

/// The format a command line asks for, read on its own so that a command
/// line which cannot be parsed is still answered in the shape it asked
/// for.
///
/// It reads only option tokens and stops at `--`, so the one thing it can
/// get wrong is a positional that is spelt exactly `--json`, which is a
/// title nobody types.
pub fn format_hint(arguments: &[String]) -> (format: Format)
    ensures
        format == hint_from(words(arguments@), 0, Format::Text),
{
    let ghost all = words(arguments@);
    let mut format = Format::Text;
    let mut i: usize = 0;
    while i < arguments.len()
        invariant
            all == words(arguments@),
            i <= arguments@.len() + 1,
            hint_from(all, 0, Format::Text) == hint_from(all, i as int, format),
        decreases arguments@.len() + 1 - i,
    {
        let token = chars_of(arguments[i].as_str());
        assert(token@ == all[i as int]);
        if is(token.as_slice(), "--") {
            return format;
        }
        let (name, attached) = split(token.as_slice());
        if is(name.as_slice(), "--json") {
            format = Format::Json;
            i = i + 1;
        } else if is(name.as_slice(), "--format") {
            let value: Option<Vec<char>> = match attached {
                Some(v) => {
                    i = i + 1;
                    Some(v)
                },
                None => if i + 1 < arguments.len() {
                    let next = chars_of(arguments[i + 1].as_str());
                    assert(next@ == all[i + 1]);
                    i = i + 2;
                    Some(next)
                } else {
                    i = i + 1;
                    None
                },
            };
            match value {
                Some(v) => if is(v.as_slice(), "json") {
                    format = Format::Json;
                },
                None => {},
            }
        } else {
            i = i + 1;
        }
    }
    format
}

/// One option as it was given. The parser owns the type, so nothing else
/// can make one up; the request builder only ever reads them through
/// `single` and `present`.
#[derive(Debug)]
pub struct Given {
    name: String,
    value: Option<String>,
}

impl Given {
    /// The option's name, as it was written.
    pub closed spec fn name_view(&self) -> Seq<char> {
        self.name@
    }

    /// The value written after it, where it takes one.
    pub closed spec fn value_view(&self) -> Option<Seq<char>> {
        match self.value {
            Some(v) => Some(v@),
            None => None,
        }
    }

    fn make(name: Vec<char>, value: Option<Vec<char>>) -> (given: Given)
        ensures
            given.name_view() == name@,
            value matches Some(v) ==> given.value_view() == Some(v@),
            value is None ==> given.value_view() is None,
    {
        Given {
            name: string_of(name.as_slice()),
            value: match value {
                Some(v) => Some(string_of(v.as_slice())),
                None => None,
            },
        }
    }

    fn name_chars(&self) -> (name: Vec<char>)
        ensures
            name@ == self.name_view(),
    {
        chars_of(self.name.as_str())
    }

    fn value_chars(&self) -> (value: Vec<char>)
        ensures
            value@ == match self.value_view() {
                Some(v) => v,
                None => Seq::<char>::empty(),
            },
    {
        match &self.value {
            Some(v) => chars_of(v.as_str()),
            None => Vec::new(),
        }
    }
}

/// The options as they were given: each one's name, and the value
/// written after it where it takes one.
pub type Opts = Seq<(Seq<char>, Option<Seq<char>>)>;

/// The options, as they were given.
pub open spec fn opts(options: Seq<Given>) -> Opts {
    options.map_values(|g: Given| (g.name_view(), g.value_view()))
}

/// Whether an option was given.
pub open spec fn given(options: Opts, name: Seq<char>) -> bool {
    exists|i: int| 0 <= i < options.len() && #[trigger] options[i].0 == name
}

/// One occurrence of an option that takes a value, read from `i` on,
/// having found `found` so far: the same option twice with the same value
/// is nobody contradicting themselves, and twice with two values is
/// refused.
pub open spec fn single_from(options: Opts, name: Seq<char>, i: int, found: Option<Seq<char>>) -> Result<Option<Seq<char>>, Seq<char>>
    decreases options.len() - i,
{
    if i < 0 || i >= options.len() {
        Ok(found)
    } else if options[i].0 != name {
        single_from(options, name, i + 1, found)
    } else {
        let value = match options[i].1 {
            Some(v) => v,
            None => Seq::<char>::empty(),
        };
        match found {
            Some(first) => if first != value {
                Err(name + " is given twice, as "@ + first + " and as "@ + value)
            } else {
                single_from(options, name, i + 1, Some(value))
            },
            None => single_from(options, name, i + 1, Some(value)),
        }
    }
}

/// One occurrence of an option that takes a value.
pub open spec fn single_of(options: Opts, name: Seq<char>) -> Result<Option<Seq<char>>, Seq<char>> {
    single_from(options, name, 0, None)
}

/// One occurrence of an option that takes a value. The same option twice
/// with the same value is nobody contradicting themselves; twice with two
/// values is, and is refused rather than silently resolved.
pub fn single(options: &[Given], name: &str) -> (value: Result<Option<String>, Failure>)
    ensures
        value matches Ok(Some(v)) ==> single_of(opts(options@), name@) == Ok::<Option<Seq<char>>, Seq<char>>(Some(v@)),
        value matches Ok(None) ==> single_of(opts(options@), name@) == Ok::<Option<Seq<char>>, Seq<char>>(None),
        value matches Err(failure) ==> single_of(opts(options@), name@) == Err::<Option<Seq<char>>, Seq<char>>(failure.message@),
{
    let wanted = chars_of(name);
    let mut found: Option<Vec<char>> = None;
    let mut i: usize = 0;
    while i < options.len()
        invariant
            wanted@ == name@,
            i <= options@.len(),
            single_of(opts(options@), name@) == single_from(opts(options@), name@, i as int, match found {
                Some(f) => Some(f@),
                None => None,
            }),
        decreases options@.len() - i,
    {
        let option_name = options[i].name_chars();
        assert(opts(options@)[i as int] == (options@[i as int].name_view(), options@[i as int].value_view()));
        if crate::text::same(option_name.as_slice(), wanted.as_slice()) {
            let value = options[i].value_chars();
            match &found {
                Some(first) => {
                    if !crate::text::same(first.as_slice(), value.as_slice()) {
                        let mut message = chars_of(name);
                        crate::text::append_str(&mut message, " is given twice, as ");
                        crate::text::append_all(&mut message, first.as_slice());
                        crate::text::append_str(&mut message, " and as ");
                        crate::text::append_all(&mut message, value.as_slice());
                        return Err(Failure::usage(string_of(message.as_slice())));
                    }
                },
                None => {},
            }
            found = Some(value);
        }
        i = i + 1;
    }
    match found {
        Some(f) => Ok(Some(string_of(f.as_slice()))),
        None => Ok(None),
    }
}

/// Whether an option was given.
pub fn present(options: &[Given], name: &str) -> (here: bool)
    ensures
        here == given(opts(options@), name@),
{
    let mut i: usize = 0;
    while i < options.len()
        invariant
            i <= options@.len(),
            forall|k: int| 0 <= k < i ==> #[trigger] opts(options@)[k].0 != name@,
        decreases options@.len() - i,
    {
        let option_name = options[i].name_chars();
        if is(option_name.as_slice(), name) {
            assert(opts(options@)[i as int].0 == name@);
            return true;
        }
        i = i + 1;
    }
    false
}

/// Where an option is in a table of options, or the table's length.
pub open spec fn option_at(table: Seq<(&'static str, bool)>, name: Seq<char>) -> int
    decreases table.len(),
{
    if table.len() == 0 {
        0
    } else if table[0].0@ == name {
        0
    } else {
        1 + option_at(table.drop_first(), name)
    }
}

proof fn lemma_option_at(table: Seq<(&'static str, bool)>, name: Seq<char>)
    ensures
        0 <= option_at(table, name) <= table.len(),
        option_at(table, name) < table.len() ==> table[option_at(table, name)].0@ == name,
    decreases table.len(),
{
    if table.len() > 0 && table[0].0@ != name {
        lemma_option_at(table.drop_first(), name);
    }
}

/// Whether an option is followed by a value, or nothing if no such option
/// exists here: the global options first, then the command's own.
pub open spec fn arity_of(name: Seq<char>, allowed: Seq<(&'static str, bool)>) -> Option<bool> {
    let table = global_table() + allowed;
    let at = option_at(table, name);
    if at < table.len() {
        Some(table[at].1)
    } else {
        None
    }
}

fn find_option(table: &[(&'static str, bool)], name: &[char]) -> (at: usize)
    ensures
        at == option_at(table@, name@),
{
    let mut i: usize = 0;
    assert(table@.subrange(0, table@.len() as int) =~= table@);
    while i < table.len()
        invariant
            i <= table@.len(),
            option_at(table@, name@) == i + option_at(table@.subrange(i as int, table@.len() as int), name@),
        decreases table@.len() - i,
    {
        let ghost rest = table@.subrange(i as int, table@.len() as int);
        assert(rest[0] == table@[i as int]);
        assert(rest.drop_first() =~= table@.subrange(i + 1, table@.len() as int));
        if is(name, table[i].0) {
            return i;
        }
        i = i + 1;
    }
    i
}

proof fn lemma_option_at_append(a: Seq<(&'static str, bool)>, b: Seq<(&'static str, bool)>, name: Seq<char>)
    ensures
        option_at(a + b, name) == if option_at(a, name) < a.len() { option_at(a, name) } else { a.len() + option_at(b, name) },
    decreases a.len(),
{
    if a.len() == 0 {
        assert(a + b =~= b);
    } else {
        assert((a + b).drop_first() =~= a.drop_first() + b);
        assert((a + b)[0] == a[0]);
        if a[0].0@ != name {
            lemma_option_at_append(a.drop_first(), b, name);
        }
    }
}

/// Whether an option is followed by a value, or `None` if no such option
/// exists here.
pub fn arity(name: &[char], allowed: &[(&'static str, bool)]) -> (takes: Option<bool>)
    ensures
        takes == arity_of(name@, allowed@),
{
    let global = global_options();
    proof {
        lemma_option_at_append(global_table(), allowed@, name@);
        lemma_option_at(global_table(), name@);
        lemma_option_at(allowed@, name@);
        lemma_option_at(global_table() + allowed@, name@);
    }
    let at = find_option(global, name);
    if at < global.len() {
        return Some(global[at].1);
    }
    let own = find_option(allowed, name);
    if own < allowed.len() {
        assert((global_table() + allowed@)[global_table().len() + own] == allowed@[own as int]);
        return Some(allowed[own].1);
    }
    None
}

// ---- the leading words ----------------------------------------------

/// The words that name a command, the tokens read so far, and where the
/// reading stopped, from the `i`th argument on.
pub open spec fn lead(arguments: Seq<Seq<char>>, i: int, named: Seq<Seq<char>>, tokens: Seq<Seq<char>>) -> (Seq<Seq<char>>, Seq<Seq<char>>, int)
    decreases arguments.len() - i,
{
    if named.len() >= 2 || i < 0 || i >= arguments.len() || arguments[i] == "--"@ {
        (named, tokens, i)
    } else if arguments[i].len() > 0 && arguments[i][0] == '-' && arguments[i] != "-"@ {
        let (name, attached) = split_of(arguments[i]);
        let at = option_at(global_table(), name);
        if at >= global_table().len() {
            (named, tokens, i)
        } else if global_table()[at].1 && attached is None && i + 1 < arguments.len() {
            lead(arguments, i + 2, named, tokens.push(arguments[i]).push(arguments[i + 1]))
        } else {
            lead(arguments, i + 1, named, tokens.push(arguments[i]))
        }
    } else {
        lead(arguments, i + 1, named.push(arguments[i]), tokens)
    }
}

/// The leading words that name a command, and everything else.
///
/// A command is one or two bare words at the front of the line. A global
/// option may stand between them, because a global option may stand
/// anywhere; the first option that is not one ends the command's name.
/// Two words are tried before one, and a second word that turns out not
/// to belong to the name goes back to the front of the arguments.
pub open spec fn words_and_tokens_of(arguments: Seq<Seq<char>>) -> (Seq<Seq<char>>, Seq<Seq<char>>) {
    let (named, tokens, i) = lead(arguments, 0, Seq::empty(), Seq::empty());
    let rest = arguments.subrange(i, arguments.len() as int);
    if named.len() == 2 && command_named_of(named) is Err && command_named_of(seq![named[0]]) is Ok {
        (seq![named[0]], tokens.push(named[1]) + rest)
    } else {
        (named, tokens + rest)
    }
}

proof fn lemma_lead_bounds(arguments: Seq<Seq<char>>, i: int, named: Seq<Seq<char>>, tokens: Seq<Seq<char>>)
    requires
        0 <= i <= arguments.len(),
    ensures
        i <= lead(arguments, i, named, tokens).2 <= arguments.len(),
    decreases arguments.len() - i,
{
    if !(named.len() >= 2 || i >= arguments.len() || arguments[i] == "--"@) {
        if arguments[i].len() > 0 && arguments[i][0] == '-' && arguments[i] != "-"@ {
            let (name, attached) = split_of(arguments[i]);
            let at = option_at(global_table(), name);
            if at < global_table().len() {
                if global_table()[at].1 && attached is None && i + 1 < arguments.len() {
                    lemma_lead_bounds(arguments, i + 2, named, tokens.push(arguments[i]).push(arguments[i + 1]));
                } else {
                    lemma_lead_bounds(arguments, i + 1, named, tokens.push(arguments[i]));
                }
            }
        } else {
            lemma_lead_bounds(arguments, i + 1, named.push(arguments[i]), tokens);
        }
    }
}

fn copy_string(s: &String) -> (r: String)
    ensures
        r@ == s@,
{
    string_of(chars_of(s.as_str()).as_slice())
}

fn words_and_tokens(arguments: &[String]) -> (r: (Vec<String>, Vec<String>))
    ensures
        (words(r.0@), words(r.1@)) == words_and_tokens_of(words(arguments@)),
{
    let ghost all = words(arguments@);
    let global = global_options();
    let mut named: Vec<String> = Vec::new();
    let mut tokens: Vec<String> = Vec::new();
    let mut i: usize = 0;
    assert(words(named@) =~= Seq::<Seq<char>>::empty());
    assert(words(tokens@) =~= Seq::<Seq<char>>::empty());
    while named.len() < 2 && i < arguments.len()
        invariant
            all == words(arguments@),
            global@ == global_table(),
            i <= arguments@.len(),
            lead(all, 0, Seq::empty(), Seq::empty()) == lead(all, i as int, words(named@), words(tokens@)),
        ensures
            i <= arguments@.len(),
            lead(all, 0, Seq::empty(), Seq::empty()) == lead(all, i as int, words(named@), words(tokens@)),
            lead(all, i as int, words(named@), words(tokens@)) == (words(named@), words(tokens@), i as int),
        decreases arguments@.len() - i,
    {
        let argument = chars_of(arguments[i].as_str());
        assert(argument@ == all[i as int]);
        if is(argument.as_slice(), "--") {
            break;
        }
        let lone_dash = is(argument.as_slice(), "-");
        if argument.len() > 0 && argument[0] == '-' && !lone_dash {
            let (name, attached) = split(argument.as_slice());
            proof {
                lemma_option_at(global_table(), name@);
            }
            let at = find_option(global, name.as_slice());
            if at >= global.len() {
                break;
            }
            let ghost was = tokens@;
            tokens.push(copy_string(&arguments[i]));
            assert(words(tokens@) =~= words(was).push(all[i as int]));
            i = i + 1;
            if global[at].1 && attached.is_none() && i < arguments.len() {
                let ghost was2 = tokens@;
                tokens.push(copy_string(&arguments[i]));
                assert(words(tokens@) =~= words(was2).push(all[i as int]));
                i = i + 1;
            }
        } else {
            let ghost was = named@;
            named.push(copy_string(&arguments[i]));
            assert(words(named@) =~= words(was).push(all[i as int]));
            i = i + 1;
        }
    }
    proof {
        lemma_lead_bounds(all, 0, Seq::empty(), Seq::empty());
    }
    let ghost stop = i;
    assert(lead(all, 0, Seq::empty(), Seq::empty()) == (words(named@), words(tokens@), i as int));
    if named.len() == 2 {
        let whole = command_named(named.as_slice());
        if whole.is_err() {
            let second = named.pop().unwrap();
            assert(words(named@) =~= seq![words(named@.push(second))[0]]);
            let alone = command_named(named.as_slice());
            if alone.is_ok() {
                let ghost was = tokens@;
                tokens.push(second);
                assert(words(tokens@) =~= words(was).push(second@));
            } else {
                named.push(second);
            }
        }
    }
    let ghost before_rest = words(tokens@);
    let mut k: usize = i;
    while k < arguments.len()
        invariant
            all == words(arguments@),
            stop <= k <= arguments@.len(),
            words(tokens@) == before_rest + all.subrange(stop as int, k as int),
        decreases arguments@.len() - k,
    {
        let ghost was = tokens@;
        tokens.push(copy_string(&arguments[k]));
        assert(words(tokens@) =~= words(was).push(all[k as int]));
        assert(words(tokens@) =~= before_rest + all.subrange(stop as int, k + 1));
        k = k + 1;
    }
    (named, tokens)
}

// ---- what the command line is ---------------------------------------

/// What the program is to do, as a mathematical value.
pub enum PlanView {
    Run,
    Help(Seq<char>),
    Version,
    Skill,
    Desktop { floating: Option<bool>, size: Option<(int, int)> },
    Operate {
        request: JsonView,
        view: render::View,
        afterwards: Then,
        body: Option<(Seq<char>, SourceView)>,
        input: Option<SourceView>,
    },
}

/// A command line read, as a mathematical value: what to do, in which
/// format, and on which database.
pub struct ParsedView {
    pub plan: PlanView,
    pub format: Format,
    pub data_dir: Option<Seq<char>>,
}

impl Plan {
    pub open spec fn view_of(&self) -> PlanView {
        match self {
            Plan::Run => PlanView::Run,
            Plan::Help(text) => PlanView::Help(text@),
            Plan::Version => PlanView::Version,
            Plan::Skill => PlanView::Skill,
            Plan::Desktop { floating, size } => PlanView::Desktop {
                floating: *floating,
                size: match size { Some((w, h)) => Some((*w as int, *h as int)), None => None },
            },
            Plan::Operate(op) => PlanView::Operate {
                request: op.request@,
                view: op.view,
                afterwards: op.after,
                body: body_view(op.body),
                input: match op.input { Some(src) => Some(src.view_of()), None => None },
            },
        }
    }
}

impl Parsed {
    pub open spec fn view_of(&self) -> ParsedView {
        ParsedView {
            plan: self.plan.view_of(),
            format: self.format,
            data_dir: match self.data_dir { Some(d) => Some(d@), None => None },
        }
    }
}

/// `--json` and `--format`, which must agree.
pub open spec fn format_of(options: Opts) -> Result<Format, Seq<char>> {
    match single_of(options, "--format"@) {
        Err(m) => Err(m),
        Ok(named) => {
            let named: Result<Option<Format>, Seq<char>> = match named {
                None => Ok(None),
                Some(n) => if n == "text"@ {
                    Ok(Some(Format::Text))
                } else if n == "json"@ {
                    Ok(Some(Format::Json))
                } else if n == "toon"@ {
                    Err("toon is not a format this program writes; the formats are text and json"@)
                } else {
                    Err(n + " is not a format; the formats are text and json"@)
                },
            };
            match named {
                Err(m) => Err(m),
                Ok(named) => {
                    let flagged = given(options, "--json"@);
                    match named {
                        Some(n) => if flagged && n != Format::Json {
                            Err("--json and --format text ask for different formats"@)
                        } else {
                            Ok(n)
                        },
                        None => if flagged { Ok(Format::Json) } else { Ok(Format::Text) },
                    }
                },
            }
        },
    }
}

fn format_in(options: &[Given]) -> (r: Result<Format, Failure>)
    ensures
        r matches Ok(f) ==> format_of(opts(options@)) == Ok::<Format, Seq<char>>(f),
        r matches Err(e) ==> format_of(opts(options@)) == Err::<Format, Seq<char>>(e.message@),
{
    let named = match single(options, "--format") {
        Err(f) => return Err(f),
        Ok(None) => None,
        Ok(Some(n)) => {
            let n = chars_of(n.as_str());
            if is(n.as_slice(), "text") {
                Some(Format::Text)
            } else if is(n.as_slice(), "json") {
                Some(Format::Json)
            } else if is(n.as_slice(), "toon") {
                return Err(Failure::usage(string_of(chars_of("toon is not a format this program writes; the formats are text and json").as_slice())));
            } else {
                let mut message = n;
                append_str(&mut message, " is not a format; the formats are text and json");
                return Err(Failure::usage(string_of(message.as_slice())));
            }
        },
    };
    let flagged = present(options, "--json");
    match named {
        Some(n) => if flagged && n != Format::Json {
            Err(Failure::usage(string_of(chars_of("--json and --format text ask for different formats").as_slice())))
        } else {
            Ok(n)
        },
        None => if flagged { Ok(Format::Json) } else { Ok(Format::Text) },
    }
}

/// `--input FILE`, or `-` for standard input.
pub open spec fn input_of(options: Opts) -> Result<Option<SourceView>, Seq<char>> {
    match single_of(options, "--input"@) {
        Err(m) => Err(m),
        Ok(None) => Ok(None),
        Ok(Some(v)) => Ok(Some(if v == "-"@ { SourceView::Stdin } else { SourceView::File(v) })),
    }
}

fn input_source(options: &[Given]) -> (r: Result<Option<Source>, Failure>)
    ensures
        r matches Ok(Some(src)) ==> input_of(opts(options@)) == Ok::<Option<SourceView>, Seq<char>>(Some(src.view_of())),
        r matches Ok(None) ==> input_of(opts(options@)) == Ok::<Option<SourceView>, Seq<char>>(None),
        r matches Err(e) ==> input_of(opts(options@)) == Err::<Option<SourceView>, Seq<char>>(e.message@),
{
    match single(options, "--input") {
        Err(f) => Err(f),
        Ok(None) => Ok(None),
        Ok(Some(v)) => if is(chars_of(v.as_str()).as_slice(), "-") {
            Ok(Some(Source::Stdin))
        } else {
            Ok(Some(Source::File(v)))
        },
    }
}

/// `870x650` in logical pixels. A number outside what a window may be is
/// held to the range where the size is made, which is where that range
/// is.
pub open spec fn pixels_of(text: Seq<char>) -> Option<(int, int)> {
    match halves(text, 'x') {
        None => None,
        Some((width, height)) => match (whole_of(trimmed(width)), whole_of(trimmed(height))) {
            (Some(w), Some(h)) => Some((w, h)),
            _ => None,
        },
    }
}

fn pixels(text: &[char]) -> (r: Option<(i64, i64)>)
    ensures
        r matches Some((w, h)) ==> pixels_of(text@) == Some((w as int, h as int)),
        r is None ==> pixels_of(text@) is None,
{
    match split_once(text, 'x') {
        None => None,
        Some((width, height)) => {
            let w = crate::text::parse_i64(trim(width.as_slice()).as_slice());
            let h = crate::text::parse_i64(trim(height.as_slice()).as_slice());
            match (w, h) {
                (Some(w), Some(h)) => Some((w, h)),
                _ => None,
            }
        },
    }
}

/// The flags of `jobsdone desktop`, kept exactly as they were.
pub open spec fn desktop_of(options: Opts, positionals: Seq<Seq<char>>) -> Result<PlanView, Seq<char>> {
    if positionals.len() > 0 {
        Err(positionals[0] + " is not an argument of the desktop command"@)
    } else if given(options, "--floating"@) && given(options, "--tiled"@) {
        Err("--floating and --tiled ask for different windows"@)
    } else {
        let size = match single_of(options, "--size"@) {
            Err(m) => Err(m),
            Ok(None) => Ok(None),
            Ok(Some(text)) => match pixels_of(text) {
                Some(p) => Ok(Some(p)),
                None => Err(text + " is not a size, as in --size 870x650"@),
            },
        };
        match size {
            Err(m) => Err(m),
            Ok(size) => Ok(PlanView::Desktop {
                floating: if given(options, "--floating"@) {
                    Some(true)
                } else if given(options, "--tiled"@) {
                    Some(false)
                } else {
                    None
                },
                size,
            }),
        }
    }
}

fn desktop(options: &[Given], positionals: &[String]) -> (r: Result<Plan, Failure>)
    ensures
        r matches Ok(plan) ==> desktop_of(opts(options@), words(positionals@)) == Ok::<PlanView, Seq<char>>(plan.view_of()),
        r matches Err(e) ==> desktop_of(opts(options@), words(positionals@)) == Err::<PlanView, Seq<char>>(e.message@),
{
    if positionals.len() > 0 {
        let mut message = chars_of(positionals[0].as_str());
        append_str(&mut message, " is not an argument of the desktop command");
        return Err(Failure::usage(string_of(message.as_slice())));
    }
    let floats = present(options, "--floating");
    let tiles = present(options, "--tiled");
    if floats && tiles {
        return Err(Failure::usage(string_of(chars_of("--floating and --tiled ask for different windows").as_slice())));
    }
    let size = match single(options, "--size") {
        Err(f) => return Err(f),
        Ok(None) => None,
        Ok(Some(text)) => match pixels(chars_of(text.as_str()).as_slice()) {
            Some(p) => Some(p),
            None => {
                let mut message = chars_of(text.as_str());
                append_str(&mut message, " is not a size, as in --size 870x650");
                return Err(Failure::usage(string_of(message.as_slice())));
            },
        },
    };
    Ok(Plan::Desktop {
        floating: if floats {
            Some(true)
        } else if tiles {
            Some(false)
        } else {
            None
        },
        size,
    })
}

/// An option no command here takes, named against the command it was
/// written on where there is one.
pub open spec fn unknown_of(name: Seq<char>, command: Option<Seq<char>>) -> Seq<char> {
    match command {
        Some(c) => name + " is not an option of `"@ + c + "`"@,
        None => name + " is not an option"@,
    }
}

fn unknown_option(name: &[char], spec: Option<&'static Spec>) -> (f: Failure)
    ensures
        f.message@ == unknown_of(name@, match spec { Some(s) => Some(s.name@), None => None }),
{
    let mut message = slice_of(name, 0, name.len());
    assert(name@.subrange(0, name@.len() as int) =~= name@);
    match spec {
        Some(s) => {
            append_str(&mut message, " is not an option of `");
            append_str(&mut message, s.name);
            append_str(&mut message, "`");
        },
        None => append_str(&mut message, " is not an option"),
    }
    Failure::usage(string_of(message.as_slice()))
}

/// The tokens after the command's name, read from the `j`th on into the
/// options given and the positional words; after `--` every token is a
/// word.
pub open spec fn scan(tokens: Seq<Seq<char>>, j: int, only: bool, options: Opts, positionals: Seq<Seq<char>>, allowed: Seq<(&'static str, bool)>, command: Option<Seq<char>>) -> Result<(Opts, Seq<Seq<char>>), Seq<char>>
    decreases tokens.len() - j,
{
    if j < 0 || j >= tokens.len() {
        Ok((options, positionals))
    } else {
        let t = tokens[j];
        if only {
            scan(tokens, j + 1, only, options, positionals.push(t), allowed, command)
        } else if t == "--"@ {
            scan(tokens, j + 1, true, options, positionals, allowed, command)
        } else if !(t.len() > 0 && t[0] == '-') || t == "-"@ {
            scan(tokens, j + 1, only, options, positionals.push(t), allowed, command)
        } else {
            let (name, attached) = split_of(t);
            match arity_of(name, allowed) {
                None => Err(unknown_of(name, command)),
                Some(false) => match attached {
                    Some(_) => Err(name + " takes no value"@),
                    None => scan(tokens, j + 1, only, options.push((name, None)), positionals, allowed, command),
                },
                Some(true) => match attached {
                    Some(v) => scan(tokens, j + 1, only, options.push((name, Some(v))), positionals, allowed, command),
                    None => if j + 1 < tokens.len() {
                        scan(tokens, j + 2, only, options.push((name, Some(tokens[j + 1]))), positionals, allowed, command)
                    } else {
                        Err(name + " wants a value after it"@)
                    },
                },
            }
        }
    }
}

/// The first option that is not `--data-dir`, from the `i`th on.
pub open spec fn stray_of(options: Opts, i: int) -> Option<Seq<char>>
    decreases options.len() - i,
{
    if i < 0 || i >= options.len() {
        None
    } else if options[i].0 != "--data-dir"@ {
        Some(options[i].0)
    } else {
        stray_of(options, i + 1)
    }
}

/// What the options and words come to.
#[verifier::opaque]
pub open spec fn build_of(spec: Option<Spec>, options: Opts, positionals: Seq<Seq<char>>) -> Result<ParsedView, Seq<char>> {
    match format_of(options) {
        Err(m) => Err(m),
        Ok(format) => match single_of(options, "--data-dir"@) {
            Err(m) => Err(m),
            Ok(data_dir) => {
                let plan: Result<PlanView, Seq<char>> = if given(options, "--skill"@) {
                    Ok(PlanView::Skill)
                } else if given(options, "--help"@) || given(options, "-h"@) {
                    Ok(PlanView::Help(help_of(spec)))
                } else if given(options, "--version"@) || given(options, "-V"@) {
                    Ok(PlanView::Version)
                } else {
                    match spec {
                        None => if positionals.len() > 0 {
                            Err(positionals[0] + " is not a command"@)
                        } else {
                            match stray_of(options, 0) {
                                Some(stray) => Err(stray + " is about a command, and there is no command here"@),
                                None => Ok(PlanView::Run),
                            }
                        },
                        Some(spec) => if spec.name@ == "help"@ {
                            let asked = match command_named_of(positionals) {
                                Ok(k) => Some(command_table()[k]),
                                Err(_) => None,
                            };
                            Ok(PlanView::Help(help_of(asked)))
                        } else if spec.name@ == "desktop"@ {
                            desktop_of(options, positionals)
                        } else {
                            match input_of(options) {
                                Err(m) => Err(m),
                                Ok(input) => match fields_of(
                                    spec.name@,
                                    options,
                                    positionals,
                                    input is Some,
                                    seq![("op"@, JsonView::Text(spec.op@))],
                                ) {
                                    Err(m) => Err(m),
                                    Ok((fields, body)) => Ok(PlanView::Operate {
                                        request: JsonView::Object(fields),
                                        view: spec.view,
                                        afterwards: spec.after,
                                        body,
                                        input,
                                    }),
                                },
                            }
                        },
                    }
                };
                match plan {
                    Err(m) => Err(m),
                    Ok(plan) => Ok(ParsedView { plan, format, data_dir }),
                }
            },
        },
    }
}

/// A command line, read: the words that name a command, the command they
/// name, its options and words, and what they come to.
pub open spec fn parse_of(arguments: Seq<Seq<char>>) -> Result<ParsedView, Seq<char>> {
    let (named, tokens) = words_and_tokens_of(arguments);
    let spec: Result<Option<Spec>, Seq<char>> = if named.len() == 0 {
        Ok(None)
    } else {
        match command_named_of(named) {
            Ok(k) => Ok(Some(command_table()[k])),
            Err(m) => Err(m),
        }
    };
    match spec {
        Err(m) => Err(m),
        Ok(spec) => {
            let allowed = match spec { Some(s) => s.options@, None => Seq::empty() };
            let command = match spec { Some(s) => Some(s.name@), None => None };
            match scan(tokens, 0, false, Seq::empty(), Seq::empty(), allowed, command) {
                Err(m) => Err(m),
                Ok((options, positionals)) => build_of(spec, options, positionals),
            }
        },
    }
}

/// The first option that is not `--data-dir`.
fn first_stray(options: &[Given]) -> (stray: Option<Vec<char>>)
    ensures
        stray matches Some(n) ==> stray_of(opts(options@), 0) == Some(n@),
        stray is None ==> stray_of(opts(options@), 0) is None,
{
    let mut i: usize = 0;
    while i < options.len()
        invariant
            i <= options@.len(),
            stray_of(opts(options@), 0) == stray_of(opts(options@), i as int),
        decreases options@.len() - i,
    {
        let name = options[i].name_chars();
        assert(opts(options@)[i as int].0 == name@);
        let data_dir_option = is(name.as_slice(), "--data-dir");
        if !data_dir_option {
            return Some(name);
        }
        i = i + 1;
    }
    None
}

fn build(spec: Option<&'static Spec>, options: &[Given], positionals: &[String]) -> (r: Result<Parsed, Failure>)
    ensures
        r matches Ok(p) ==> build_of(match spec { Some(s) => Some(*s), None => None }, opts(options@), words(positionals@))
            == Ok::<ParsedView, Seq<char>>(p.view_of()),
        r matches Err(e) ==> build_of(match spec { Some(s) => Some(*s), None => None }, opts(options@), words(positionals@))
            == Err::<ParsedView, Seq<char>>(e.message@),
{
    reveal(build_of);
    let format = match format_in(options) {
        Err(f) => return Err(f),
        Ok(f) => f,
    };
    let data_dir = match single(options, "--data-dir") {
        Err(f) => return Err(f),
        Ok(d) => d,
    };
    // Help, version and the skill are answered before anything else, so
    // that they need no database and no command line that makes sense.
    if present(options, "--skill") {
        return Ok(Parsed { plan: Plan::Skill, format, data_dir });
    }
    if present(options, "--help") || present(options, "-h") {
        return Ok(Parsed { plan: Plan::Help(for_command(spec)), format, data_dir });
    }
    if present(options, "--version") || present(options, "-V") {
        return Ok(Parsed { plan: Plan::Version, format, data_dir });
    }
    let spec = match spec {
        None => {
            if positionals.len() > 0 {
                let mut message = chars_of(positionals[0].as_str());
                append_str(&mut message, " is not a command");
                return Err(Failure::usage(string_of(message.as_slice())));
            }
            // Nothing on the command line opens the app. `--data-dir`
            // chooses the database whatever runs against it, so it opens
            // the app too; the rest are about an operation, and an
            // operation nobody named is a command line to answer rather
            // than a window to open.
            match first_stray(options) {
                Some(name) => {
                    let mut message = name;
                    append_str(&mut message, " is about a command, and there is no command here");
                    return Err(Failure::usage(string_of(message.as_slice())));
                },
                None => {},
            }
            return Ok(Parsed { plan: Plan::Run, format, data_dir });
        },
        Some(spec) => spec,
    };
    let name = chars_of(spec.name);
    if is(name.as_slice(), "help") {
        let asked = match command_named(positionals) {
            Ok(s) => Some(s),
            Err(_) => None,
        };
        return Ok(Parsed { plan: Plan::Help(for_command(asked)), format, data_dir });
    }
    if is(name.as_slice(), "desktop") {
        return match desktop(options, positionals) {
            Err(f) => Err(f),
            Ok(plan) => Ok(Parsed { plan, format, data_dir }),
        };
    }
    let input = match input_source(options) {
        Err(f) => return Err(f),
        Ok(i) => i,
    };
    let mut out: Vec<(String, Json)> = Vec::new();
    proof {
        crate::cli::json::lemma_fields_view(out@);
        crate::cli::json::lemma_key_at(fields_view(out@), "op"@);
    }
    insert(&mut out, "op", text(spec.op));
    assert(fields_view(out@) =~= seq![("op"@, JsonView::Text(spec.op@))]);
    let extras = match fields(spec, options, positionals, input.is_some(), &mut out) {
        Err(f) => return Err(f),
        Ok(e) => e,
    };
    Ok(Parsed {
        plan: Plan::Operate(Operation {
            request: Json::Object(out),
            view: spec.view,
            after: spec.after,
            body: extras.body,
            input,
        }),
        format,
        data_dir,
    })
}

/// The options and words of the tokens after a command's name.
#[verifier::rlimit(40)]
fn scan_tokens(tokens: &Vec<String>, allowed: &'static [(&'static str, bool)], spec: Option<&'static Spec>) -> (r: Result<(Vec<Given>, Vec<String>), Failure>)
    requires
        spec matches Some(s) ==> s.options@ == allowed@,
    ensures
        r matches Ok((o, p)) ==> scan(words(tokens@), 0, false, Seq::empty(), Seq::empty(), allowed@, match spec { Some(s) => Some(s.name@), None => None })
            == Ok::<(Opts, Seq<Seq<char>>), Seq<char>>((opts(o@), words(p@))),
        r matches Err(e) ==> scan(words(tokens@), 0, false, Seq::empty(), Seq::empty(), allowed@, match spec { Some(s) => Some(s.name@), None => None })
            == Err::<(Opts, Seq<Seq<char>>), Seq<char>>(e.message@),
{
    let ghost command = match spec { Some(s) => Some(s.name@), None => None::<Seq<char>> };
    let ghost all = words(tokens@);
    let mut options: Vec<Given> = Vec::new();
    let mut positionals: Vec<String> = Vec::new();
    let mut only = false;
    let mut j: usize = 0;
    assert(opts(options@) =~= Seq::<(Seq<char>, Option<Seq<char>>)>::empty());
    assert(words(positionals@) =~= Seq::<Seq<char>>::empty());
    while j < tokens.len()
        invariant
            all == words(tokens@),
            command == match spec { Some(s) => Some(s.name@), None => None::<Seq<char>> },
            j <= tokens@.len(),
            scan(all, 0, false, Seq::empty(), Seq::empty(), allowed@, command)
                == scan(all, j as int, only, opts(options@), words(positionals@), allowed@, command),
        decreases tokens@.len() - j,
    {
        let token = chars_of(tokens[j].as_str());
        assert(token@ == all[j as int]);
        if only {
            let ghost was = positionals@;
            positionals.push(copy_string(&tokens[j]));
            assert(words(positionals@) =~= words(was).push(all[j as int]));
            j = j + 1;
            continue;
        }
        if is(token.as_slice(), "--") {
            only = true;
            j = j + 1;
            continue;
        }
        let lone_dash = is(token.as_slice(), "-");
        if !(token.len() > 0 && token[0] == '-') || lone_dash {
            let ghost was = positionals@;
            positionals.push(copy_string(&tokens[j]));
            assert(words(positionals@) =~= words(was).push(all[j as int]));
            j = j + 1;
            continue;
        }
        let (name, attached) = split(token.as_slice());
        let takes = match arity(name.as_slice(), allowed) {
            None => return Err(unknown_option(name.as_slice(), spec)),
            Some(t) => t,
        };
        let ghost was = options@;
        if !takes {
            if attached.is_some() {
                let mut message = name;
                append_str(&mut message, " takes no value");
                return Err(Failure::usage(string_of(message.as_slice())));
            }
            options.push(Given::make(name, None));
            j = j + 1;
        } else {
            match attached {
                Some(v) => {
                    options.push(Given::make(name, Some(v)));
                    j = j + 1;
                },
                None => {
                    if j + 1 < tokens.len() {
                        let value = chars_of(tokens[j + 1].as_str());
                        assert(value@ == all[j + 1]);
                        options.push(Given::make(name, Some(value)));
                        j = j + 2;
                    } else {
                        let mut message = name;
                        append_str(&mut message, " wants a value after it");
                        return Err(Failure::usage(string_of(message.as_slice())));
                    }
                },
            }
        }
        assert(opts(options@) =~= opts(was).push(opts(options@).last()));
    }
    Ok((options, positionals))
}

/// A command line, read.
pub fn parse(arguments: &[String]) -> (r: Result<Parsed, Failure>)
    ensures
        r matches Ok(p) ==> parse_of(words(arguments@)) == Ok::<ParsedView, Seq<char>>(p.view_of()),
        r matches Err(e) ==> parse_of(words(arguments@)) == Err::<ParsedView, Seq<char>>(e.message@),
{
    let (named, tokens) = words_and_tokens(arguments);
    let spec: Option<&'static Spec> = if named.len() == 0 {
        None
    } else {
        match command_named(named.as_slice()) {
            Err(f) => return Err(f),
            Ok(s) => Some(s),
        }
    };
    let allowed: &'static [(&'static str, bool)] = match spec {
        Some(s) => s.options,
        None => &[],
    };
    let ghost spec_v = match spec { Some(s) => Some(*s), None => None::<Spec> };
    proof {
        if spec is None {
            assert(allowed@ =~= Seq::<(&'static str, bool)>::empty());
        }
        assert(allowed@ == match spec_v { Some(s) => s.options@, None => Seq::<(&'static str, bool)>::empty() });
        let (n, t) = words_and_tokens_of(words(arguments@));
        assert(n == words(named@));
        assert(t == words(tokens@));
    }
    let (options, positionals) = match scan_tokens(&tokens, allowed, spec) {
        Err(f) => return Err(f),
        Ok(p) => p,
    };
    build(spec, options.as_slice(), positionals.as_slice())
}

/// Every command the program takes, for the help text, in the order it
/// is listed there.
pub fn all_commands() -> (specs: &'static [Spec])
    ensures
        specs@ == command_table(),
{
    commands()
}

} // verus!
