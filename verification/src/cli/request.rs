//! Every command the program takes, and the service request each one is.

use vstd::prelude::*;
use crate::cli::{Failure, Then};
use crate::cli::json::{insert, field_of, fields_view, list_view, put, text, Json, JsonView};
use crate::cli::parse::{given, opts, present, single, single_of, words, Given, Opts};
use crate::cli::render;
use crate::cli::table::{command_table, commands};
use crate::domain::dictionary::{lowercase, lowercase_of};
use crate::text::{
    append_all, append_str, chars_of, decimal, decimal_of, find_char, first_at, integer_of, is,
    join, joined, parse_i64, parse_u64, pieces, same, slice_of, split_on, starts_with, string_of, trim,
    trimmed, views,
};

verus! {

/// Where text the request needs is read from, which is the one thing the
/// parser cannot settle: a file may not exist and standard input may not
/// be there. The program's edge reads it and puts it in.
#[derive(Debug)]
pub enum Source {
    Stdin,
    /// A file, by the path written on the command line.
    File(String),
}

/// Text a request wants, and the field it belongs in.
#[derive(Debug)]
pub struct Body {
    pub field: &'static str,
    pub source: Source,
}

/// What building a request left for somebody who can read a file.
#[derive(Debug)]
pub struct Extras {
    pub body: Option<Body>,
}

/// One command.
#[derive(Debug)]
pub struct Spec {
    /// The words that name it, as they are written.
    pub name: &'static str,
    /// The `op` it sends. Empty for the commands that send none.
    pub op: &'static str,
    /// Its own options, beside the global ones, and whether each takes a
    /// value.
    pub options: &'static [(&'static str, bool)],
    pub view: render::View,
    pub after: Then,
    /// The one line the command list gives it.
    pub summary: &'static str,
    /// The form, for its own help.
    pub usage: &'static str,
    /// The rest of its help, including the JSON fields it sends.
    pub detail: &'static str,
}

/// What a written command is called in the table. The left side is only
/// ever an alias; a canonical name never appears here.
pub open spec fn alias_table() -> Seq<(&'static str, &'static str)> {
    seq![
        ("tasks", "task"),
        ("notes", "note"),
        ("dict", "dictionary"),
        ("dictionaries", "dictionary"),
        ("schedules", "schedule"),
        ("days", "day"),
        ("setting", "settings"),
        ("history", "history list"),
        ("task show", "task get"),
        ("task create", "task add"),
        ("task new", "task add"),
        ("task edit", "task update"),
        ("task set", "task update"),
        ("task ls", "task list"),
        ("task mv", "task move"),
        ("task rm", "task delete"),
        ("task del", "task delete"),
        ("task done", "task close"),
        ("task repeat", "schedule create"),
        ("day show", "day get"),
        ("day view", "day get"),
        ("day list", "history list"),
        ("backlog show", "backlog get"),
        ("backlog list", "backlog get"),
        ("history ls", "history list"),
        ("history get", "history list"),
        ("review show", "review get"),
        ("schedule show", "schedule get"),
        ("schedule new", "schedule create"),
        ("schedule add", "schedule create"),
        ("schedule edit", "schedule update"),
        ("schedule ls", "schedule list"),
        ("note show", "note get"),
        ("note add", "note create"),
        ("note new", "note create"),
        ("note edit", "note update"),
        ("note set", "note update"),
        ("note rm", "note delete"),
        ("note del", "note delete"),
        ("note ls", "note list"),
        ("settings show", "settings get"),
        ("settings list", "settings get"),
        ("dictionary ls", "dictionary list"),
        ("dictionary edit", "dictionary update"),
        ("dictionary remove", "dictionary delete"),
        ("dictionary rm", "dictionary delete"),
        ("undo show", "undo get"),
        ("undo list", "undo get"),
        ("undo apply --entry", "undo apply"),
    ]
}

fn aliases() -> (table: &'static [(&'static str, &'static str)])
    ensures
        table@ == alias_table(),
{
    &[
        ("tasks", "task"),
        ("notes", "note"),
        ("dict", "dictionary"),
        ("dictionaries", "dictionary"),
        ("schedules", "schedule"),
        ("days", "day"),
        ("setting", "settings"),
        ("history", "history list"),
        ("task show", "task get"),
        ("task create", "task add"),
        ("task new", "task add"),
        ("task edit", "task update"),
        ("task set", "task update"),
        ("task ls", "task list"),
        ("task mv", "task move"),
        ("task rm", "task delete"),
        ("task del", "task delete"),
        ("task done", "task close"),
        ("task repeat", "schedule create"),
        ("day show", "day get"),
        ("day view", "day get"),
        ("day list", "history list"),
        ("backlog show", "backlog get"),
        ("backlog list", "backlog get"),
        ("history ls", "history list"),
        ("history get", "history list"),
        ("review show", "review get"),
        ("schedule show", "schedule get"),
        ("schedule new", "schedule create"),
        ("schedule add", "schedule create"),
        ("schedule edit", "schedule update"),
        ("schedule ls", "schedule list"),
        ("note show", "note get"),
        ("note add", "note create"),
        ("note new", "note create"),
        ("note edit", "note update"),
        ("note set", "note update"),
        ("note rm", "note delete"),
        ("note del", "note delete"),
        ("note ls", "note list"),
        ("settings show", "settings get"),
        ("settings list", "settings get"),
        ("dictionary ls", "dictionary list"),
        ("dictionary edit", "dictionary update"),
        ("dictionary remove", "dictionary delete"),
        ("dictionary rm", "dictionary delete"),
        ("undo show", "undo get"),
        ("undo list", "undo get"),
        ("undo apply --entry", "undo apply"),
    ]
}

/// Where the first alias written `from` is, or the number of aliases.
pub open spec fn alias_at(table: Seq<(&'static str, &'static str)>, from: Seq<char>) -> int
    decreases table.len(),
{
    if table.len() == 0 {
        0
    } else if table[0].0@ == from {
        0
    } else {
        1 + alias_at(table.drop_first(), from)
    }
}

/// What an alias stands for, if the words are one.
pub open spec fn alias_of(from: Seq<char>) -> Option<Seq<char>> {
    let at = alias_at(alias_table(), from);
    if at < alias_table().len() {
        Some(alias_table()[at].1@)
    } else {
        None
    }
}

/// Where the first alias written `from` that stands for one word is.
pub open spec fn noun_alias_at(table: Seq<(&'static str, &'static str)>, from: Seq<char>) -> int
    decreases table.len(),
{
    if table.len() == 0 {
        0
    } else if table[0].0@ == from && !table[0].1@.contains(' ') {
        0
    } else {
        1 + noun_alias_at(table.drop_first(), from)
    }
}

proof fn lemma_alias_at_bounds(table: Seq<(&'static str, &'static str)>, from: Seq<char>)
    ensures
        0 <= alias_at(table, from) <= table.len(),
        alias_at(table, from) < table.len() ==> table[alias_at(table, from)].0@ == from,
        forall|k: int| 0 <= k < alias_at(table, from) ==> table[k].0@ != from,
    decreases table.len(),
{
    if table.len() > 0 && table[0].0@ != from {
        lemma_alias_at_bounds(table.drop_first(), from);
        assert forall|k: int| 0 <= k < alias_at(table, from) implies table[k].0@ != from by {
            if k > 0 {
                assert(table[k] == table.drop_first()[k - 1]);
            }
        }
    }
}

proof fn lemma_noun_alias_at_bounds(table: Seq<(&'static str, &'static str)>, from: Seq<char>)
    ensures
        0 <= noun_alias_at(table, from) <= table.len(),
        noun_alias_at(table, from) < table.len() ==> table[noun_alias_at(table, from)].0@ == from
            && !table[noun_alias_at(table, from)].1@.contains(' '),
    decreases table.len(),
{
    if table.len() > 0 && !(table[0].0@ == from && !table[0].1@.contains(' ')) {
        lemma_noun_alias_at_bounds(table.drop_first(), from);
    }
}

/// The alias written `from`, found in the table from `i` on.
fn find_alias(from: &[char], nouns_only: bool) -> (at: usize)
    ensures
        !nouns_only ==> at == alias_at(alias_table(), from@),
        nouns_only ==> at == noun_alias_at(alias_table(), from@),
{
    let table = aliases();
    let mut i: usize = 0;
    assert(table@.subrange(0, table@.len() as int) =~= table@);
    while i < table.len()
        invariant
            table@ == alias_table(),
            i <= table@.len(),
            !nouns_only ==> alias_at(table@, from@) == i + alias_at(table@.subrange(i as int, table@.len() as int), from@),
            nouns_only ==> noun_alias_at(table@, from@) == i + noun_alias_at(table@.subrange(i as int, table@.len() as int), from@),
        decreases table@.len() - i,
    {
        let (name, to) = table[i];
        let ghost rest = table@.subrange(i as int, table@.len() as int);
        assert(rest[0] == table@[i as int]);
        assert(rest.drop_first() =~= table@.subrange(i + 1, table@.len() as int));
        if is(from, name) {
            if !nouns_only {
                return i;
            }
            let target = chars_of(to);
            if find_char(target.as_slice(), ' ').is_none() {
                return i;
            }
        }
        i = i + 1;
    }
    i
}

/// A written command with its aliases replaced, noun first and then the
/// pair, so that `dict rm` reaches `dictionary delete`.
pub open spec fn resolved(written: Seq<char>) -> Seq<char> {
    match alias_of(written) {
        Some(to) => to,
        None => if !written.contains(' ') {
            written
        } else {
            let at = choose|at: int| first_at(written, ' ', at);
            let noun = written.subrange(0, at);
            let verb = written.subrange(at + 1, written.len() as int);
            // Only a noun that is another noun stands in for one here:
            // `history` is an alias for a whole command, which the direct
            // lookup above answers.
            let k = noun_alias_at(alias_table(), noun);
            let noun = if k < alias_table().len() { alias_table()[k].1@ } else { noun };
            let pair = noun + seq![' '] + verb;
            match alias_of(pair) {
                Some(to) => to,
                None => pair,
            }
        },
    }
}

fn resolve(written: &[char]) -> (r: Vec<char>)
    ensures
        r@ == resolved(written@),
{
    let table = aliases();
    proof {
        lemma_alias_at_bounds(alias_table(), written@);
    }
    let direct = find_alias(written, false);
    if direct < table.len() {
        return chars_of(table[direct].1);
    }
    let space = find_char(written, ' ');
    match space {
        None => {
            assert(written@.subrange(0, written@.len() as int) =~= written@);
            assert(alias_of(written@) is None);
            assert(!written@.contains(' '));
            assert(resolved(written@) == written@);
            let whole = slice_of(written, 0, written.len());
            assert(whole@ == resolved(written@));
            whole
        },
        Some(at) => {
            proof {
                assert(written@.contains(' '));
                let chosen = choose|k: int| first_at(written@, ' ', k);
                crate::text::lemma_first_at_unique(written@, ' ', at as int, chosen);
            }
            assert(at < written.len());
            let noun = slice_of(written, 0, at);
            let verb = slice_of(written, at + 1, written.len());
            proof {
                lemma_noun_alias_at_bounds(alias_table(), noun@);
            }
            let k = find_alias(noun.as_slice(), true);
            let ghost spoken = if k < table.len() { alias_table()[k as int].1@ } else { noun@ };
            let mut pair: Vec<char> = if k < table.len() {
                chars_of(table[k].1)
            } else {
                noun
            };
            assert(pair@ == spoken);
            pair.push(' ');
            append_all(&mut pair, verb.as_slice());
            assert(pair@ =~= spoken + seq![' '] + verb@);
            proof {
                lemma_alias_at_bounds(alias_table(), pair@);
            }
            let again = find_alias(pair.as_slice(), false);
            if again < table.len() {
                chars_of(table[again].1)
            } else {
                pair
            }
        },
    }
}

/// Where the first command named `name` is in a table, or its length.
pub open spec fn named_at(table: Seq<Spec>, name: Seq<char>) -> int
    decreases table.len(),
{
    if table.len() == 0 {
        0
    } else if table[0].name@ == name {
        0
    } else {
        1 + named_at(table.drop_first(), name)
    }
}

proof fn lemma_named_at_bounds(table: Seq<Spec>, name: Seq<char>)
    ensures
        0 <= named_at(table, name) <= table.len(),
        named_at(table, name) < table.len() ==> table[named_at(table, name)].name@ == name,
    decreases table.len(),
{
    if table.len() > 0 && table[0].name@ != name {
        lemma_named_at_bounds(table.drop_first(), name);
    }
}

/// The first word of a command's name.
pub open spec fn noun_of(name: Seq<char>) -> Seq<char> {
    crate::text::pieces(name, ' ')[0]
}

/// Whether a word is the first word of a command, or an alias.
pub open spec fn known_noun(noun: Seq<char>) -> bool {
    (exists|k: int| 0 <= k < command_table().len() && noun_of(#[trigger] command_table()[k].name@) == noun)
        || (exists|a: int| 0 <= a < alias_table().len() && #[trigger] alias_table()[a].0@ == noun)
}

/// The verbs a noun takes: the rest of every command's name that begins
/// with the noun and a space, in table order.
pub open spec fn verbs_of(table: Seq<Spec>, noun: Seq<char>) -> Seq<Seq<char>>
    decreases table.len(),
{
    if table.len() == 0 {
        Seq::empty()
    } else {
        let prefix = noun + seq![' '];
        let name = table.last().name@;
        let rest = verbs_of(table.drop_last(), noun);
        if starts_with(name, prefix) {
            rest.push(name.subrange(prefix.len() as int, name.len() as int))
        } else {
            rest
        }
    }
}

/// The command the words name, as its place in the table, or why they
/// name none.
pub open spec fn command_named_of(words: Seq<Seq<char>>) -> Result<int, Seq<char>> {
    if words.len() == 0 {
        Err("there is no command here"@)
    } else {
        let written = lowercase_of(joined(words, seq![' ']));
        let k = named_at(command_table(), resolved(written));
        if k < command_table().len() {
            Ok(k)
        } else {
            let noun = lowercase_of(words[0]);
            if words.len() == 1 && known_noun(noun) {
                Err(noun + " wants one of: "@ + joined(verbs_of(command_table(), noun), ", "@))
            } else if !known_noun(noun) {
                Err(noun + " is not a command"@)
            } else {
                Err(written + " is not a command; try `jobsdone help "@ + noun + "`"@)
            }
        }
    }
}

/// The first word of a name.
pub(crate) fn first_word(name: &str) -> (word: Vec<char>)
    ensures
        word@ == noun_of(name@),
{
    let all = chars_of(name);
    let pieces = crate::text::split_on(all.as_slice(), ' ');
    proof {
        crate::text::lemma_pieces_nonempty(all@, ' ');
    }
    let first = &pieces[0];
    let word = slice_of(first.as_slice(), 0, first.len());
    assert(first@.subrange(0, first@.len() as int) =~= first@);
    word
}

/// Whether a noun is a command's first word or an alias.
fn is_known(noun: &[char]) -> (known: bool)
    ensures
        known == known_noun(noun@),
{
    let table = commands();
    let mut i: usize = 0;
    while i < table.len()
        invariant
            table@ == command_table(),
            i <= table@.len(),
            forall|k: int| 0 <= k < i ==> noun_of(#[trigger] command_table()[k].name@) != noun@,
        decreases table@.len() - i,
    {
        let word = first_word(table[i].name);
        if crate::text::same(word.as_slice(), noun) {
            return true;
        }
        i = i + 1;
    }
    let names = aliases();
    let mut a: usize = 0;
    while a < names.len()
        invariant
            names@ == alias_table(),
            a <= names@.len(),
            forall|k: int| 0 <= k < command_table().len() ==> noun_of(#[trigger] command_table()[k].name@) != noun@,
            forall|k: int| 0 <= k < a ==> #[trigger] alias_table()[k].0@ != noun@,
        decreases names@.len() - a,
    {
        if is(noun, names[a].0) {
            return true;
        }
        a = a + 1;
    }
    false
}

/// The verbs a noun takes.
fn verbs(noun: &[char]) -> (found: Vec<Vec<char>>)
    ensures
        views(found@) == verbs_of(command_table(), noun@),
{
    let table = commands();
    let mut prefix: Vec<char> = slice_of(noun, 0, noun.len());
    assert(noun@.subrange(0, noun@.len() as int) =~= noun@);
    prefix.push(' ');
    let mut found: Vec<Vec<char>> = Vec::new();
    let mut i: usize = 0;
    while i < table.len()
        invariant
            table@ == command_table(),
            prefix@ == noun@ + seq![' '],
            i <= table@.len(),
            views(found@) == verbs_of(table@.subrange(0, i as int), noun@),
        decreases table@.len() - i,
    {
        let name = chars_of(table[i].name);
        let ghost done = table@.subrange(0, i + 1);
        assert(done.drop_last() =~= table@.subrange(0, i as int));
        assert(done.last() == table@[i as int]);
        if crate::text::begins_with_run(name.as_slice(), prefix.as_slice()) {
            let verb = slice_of(name.as_slice(), prefix.len(), name.len());
            let ghost was = found@;
            found.push(verb);
            proof {
                crate::text::lemma_views_push(was, found@.last());
            }
        }
        i = i + 1;
    }
    assert(table@.subrange(0, table@.len() as int) =~= table@);
    found
}

/// The command those words name.
pub fn command_named(words: &[String]) -> (named: Result<&'static Spec, Failure>)
    ensures
        named matches Ok(spec) ==> command_named_of(crate::cli::parse::words(words@)) matches Ok(k)
            && *spec == command_table()[k],
        named matches Err(failure) ==> command_named_of(crate::cli::parse::words(words@)) == Err::<int, Seq<char>>(failure.message@),
{
    let ghost all = crate::cli::parse::words(words@);
    if words.len() == 0 {
        return Err(Failure::usage(string_of(chars_of("there is no command here").as_slice())));
    }
    let mut parts: Vec<Vec<char>> = Vec::new();
    let mut i: usize = 0;
    while i < words.len()
        invariant
            all == crate::cli::parse::words(words@),
            i <= words@.len(),
            views(parts@) == all.subrange(0, i as int),
        decreases words@.len() - i,
    {
        let ghost was = parts@;
        parts.push(chars_of(words[i].as_str()));
        proof {
            crate::text::lemma_views_push(was, parts@.last());
        }
        assert(views(parts@) =~= all.subrange(0, i + 1));
        i = i + 1;
    }
    assert(all.subrange(0, words@.len() as int) =~= all);
    let line = join(parts.as_slice(), ' ');
    let line_text = string_of(line.as_slice());
    let written_text = lowercase(line_text.as_str());
    let written = chars_of(written_text.as_str());
    let canonical = resolve(written.as_slice());
    let table = commands();
    proof {
        lemma_named_at_bounds(command_table(), canonical@);
    }
    let mut k: usize = 0;
    assert(table@.subrange(0, table@.len() as int) =~= table@);
    while k < table.len()
        invariant
            table@ == command_table(),
            k <= table@.len(),
            all == crate::cli::parse::words(words@),
            all.len() > 0,
            written@ == lowercase_of(joined(all, seq![' '])),
            canonical@ == resolved(written@),
            named_at(table@, canonical@) == k + named_at(table@.subrange(k as int, table@.len() as int), canonical@),
        decreases table@.len() - k,
    {
        let ghost rest = table@.subrange(k as int, table@.len() as int);
        assert(rest[0] == table@[k as int]);
        assert(rest.drop_first() =~= table@.subrange(k + 1, table@.len() as int));
        if is(canonical.as_slice(), table[k].name) {
            assert(named_at(rest, canonical@) == 0);
            assert(all.len() > 0);
            assert(written@ == lowercase_of(joined(all, seq![' '])));
            assert(command_named_of(all) == Ok::<int, Seq<char>>(k as int));
            return Ok(&table[k]);
        }
        k = k + 1;
    }
    assert(table@.subrange(k as int, table@.len() as int) =~= Seq::<Spec>::empty());
    let noun_text = lowercase(words[0].as_str());
    let noun = chars_of(noun_text.as_str());
    let known = is_known(noun.as_slice());
    if words.len() == 1 && known {
        let verbs = verbs(noun.as_slice());
        let mut message = slice_of(noun.as_slice(), 0, noun.len());
        assert(noun@.subrange(0, noun@.len() as int) =~= noun@);
        append_str(&mut message, " wants one of: ");
        let mut listed: Vec<char> = Vec::new();
        let mut v: usize = 0;
        while v < verbs.len()
            invariant
                v <= verbs@.len(),
                listed@ == joined(views(verbs@).subrange(0, v as int), ", "@),
            decreases verbs@.len() - v,
        {
            if v > 0 {
                append_str(&mut listed, ", ");
            }
            append_all(&mut listed, verbs[v].as_slice());
            proof {
                let done = views(verbs@).subrange(0, v as int);
                assert(views(verbs@).subrange(0, v + 1) =~= done.push(views(verbs@)[v as int]));
                if v > 0 {
                    crate::text::lemma_joined_push(done, ", "@, views(verbs@)[v as int]);
                } else {
                    assert(done.push(views(verbs@)[v as int]) =~= seq![views(verbs@)[v as int]]);
                }
            }
            v = v + 1;
        }
        assert(views(verbs@).subrange(0, verbs@.len() as int) =~= views(verbs@));
        append_all(&mut message, listed.as_slice());
        return Err(Failure::usage(string_of(message.as_slice())));
    }
    if !known {
        let mut message = slice_of(noun.as_slice(), 0, noun.len());
        assert(noun@.subrange(0, noun@.len() as int) =~= noun@);
        append_str(&mut message, " is not a command");
        return Err(Failure::usage(string_of(message.as_slice())));
    }
    let mut message = slice_of(written.as_slice(), 0, written.len());
    assert(written@.subrange(0, written@.len() as int) =~= written@);
    append_str(&mut message, " is not a command; try `jobsdone help ");
    append_all(&mut message, noun.as_slice());
    append_str(&mut message, "`");
    Err(Failure::usage(string_of(message.as_slice())))
}

// ---- positionals ----------------------------------------------------

/// A message made of a word of the command line and a sentence after it.
fn said(first: &[char], rest: &str) -> (message: Vec<char>)
    ensures
        message@ == first@ + rest@,
{
    let mut message = slice_of(first, 0, first.len());
    assert(first@.subrange(0, first@.len() as int) =~= first@);
    append_str(&mut message, rest);
    message
}

pub open spec fn no_positionals_of(command: Seq<char>, positionals: Seq<Seq<char>>) -> Result<(), Seq<char>> {
    if positionals.len() == 0 {
        Ok(())
    } else {
        Err(command + " takes no arguments, and "@ + positionals[0] + " is one"@)
    }
}

fn no_positionals(command: &str, positionals: &[String]) -> (r: Result<(), Failure>)
    ensures
        r matches Ok(_) ==> no_positionals_of(command@, words(positionals@)) is Ok,
        r matches Err(f) ==> no_positionals_of(command@, words(positionals@)) == Err::<(), Seq<char>>(f.message@),
{
    if positionals.len() == 0 {
        return Ok(());
    }
    let mut message = said(chars_of(command).as_slice(), " takes no arguments, and ");
    append_all(&mut message, chars_of(positionals[0].as_str()).as_slice());
    append_str(&mut message, " is one");
    Err(Failure::usage(string_of(message.as_slice())))
}

/// The one argument the command takes, where it was given.
pub open spec fn one_of(command: Seq<char>, positionals: Seq<Seq<char>>) -> Result<Option<Seq<char>>, Seq<char>> {
    if positionals.len() == 0 {
        Ok(None)
    } else if positionals.len() == 1 {
        Ok(Some(positionals[0]))
    } else {
        Err(command + " takes one argument, and "@ + positionals[1] + " is a second"@)
    }
}

fn one(command: &str, positionals: &[String]) -> (r: Result<Option<Vec<char>>, Failure>)
    ensures
        r matches Ok(Some(v)) ==> one_of(command@, words(positionals@)) == Ok::<Option<Seq<char>>, Seq<char>>(Some(v@)),
        r matches Ok(None) ==> one_of(command@, words(positionals@)) == Ok::<Option<Seq<char>>, Seq<char>>(None),
        r matches Err(f) ==> one_of(command@, words(positionals@)) == Err::<Option<Seq<char>>, Seq<char>>(f.message@),
{
    if positionals.len() == 0 {
        return Ok(None);
    }
    if positionals.len() == 1 {
        return Ok(Some(chars_of(positionals[0].as_str())));
    }
    let mut message = said(chars_of(command).as_slice(), " takes one argument, and ");
    append_all(&mut message, chars_of(positionals[1].as_str()).as_slice());
    append_str(&mut message, " is a second");
    Err(Failure::usage(string_of(message.as_slice())))
}

/// The words between spaces, as one line.
fn line_of(positionals: &[String], from: usize) -> (line: Vec<char>)
    requires
        from <= positionals@.len(),
    ensures
        line@ == joined(words(positionals@).subrange(from as int, positionals@.len() as int), seq![' ']),
{
    let ghost all = words(positionals@).subrange(from as int, positionals@.len() as int);
    let mut parts: Vec<Vec<char>> = Vec::new();
    let mut i: usize = from;
    while i < positionals.len()
        invariant
            from <= i <= positionals@.len(),
            all == words(positionals@).subrange(from as int, positionals@.len() as int),
            views(parts@) == all.subrange(0, i - from),
        decreases positionals@.len() - i,
    {
        let ghost was = parts@;
        parts.push(chars_of(positionals[i].as_str()));
        proof {
            crate::text::lemma_views_push(was, parts@.last());
        }
        assert(views(parts@) =~= all.subrange(0, i + 1 - from));
        i = i + 1;
    }
    assert(all.subrange(0, all.len() as int) =~= all);
    join(parts.as_slice(), ' ')
}

/// The first argument and everything after it as one line, which is how
/// a title typed without quotes still arrives as a title.
pub open spec fn at_least_two_of(positionals: Seq<Seq<char>>) -> Option<(Seq<char>, Seq<char>)> {
    if positionals.len() < 2 {
        None
    } else {
        Some((positionals[0], joined(positionals.subrange(1, positionals.len() as int), seq![' '])))
    }
}

fn at_least_two(positionals: &[String]) -> (r: Option<(Vec<char>, Vec<char>)>)
    ensures
        r matches Some(p) ==> at_least_two_of(words(positionals@)) == Some((p.0@, p.1@)),
        r is None ==> at_least_two_of(words(positionals@)) is None,
{
    if positionals.len() < 2 {
        return None;
    }
    Some((chars_of(positionals[0].as_str()), line_of(positionals, 1)))
}

/// Every argument as one line, where there is any.
pub open spec fn all_of(positionals: Seq<Seq<char>>) -> Option<Seq<char>> {
    if positionals.len() == 0 {
        None
    } else {
        Some(joined(positionals, seq![' ']))
    }
}

fn all_words(positionals: &[String]) -> (r: Option<Vec<char>>)
    ensures
        r matches Some(v) ==> all_of(words(positionals@)) == Some(v@),
        r is None ==> all_of(words(positionals@)) is None,
{
    if positionals.len() == 0 {
        return None;
    }
    assert(words(positionals@).subrange(0, positionals@.len() as int) =~= words(positionals@));
    Some(line_of(positionals, 0))
}

/// A whole number of one or more, as an id or a position is written.
pub open spec fn count_of(text: Seq<char>) -> Option<int> {
    let t = trimmed(text);
    match integer_of(t) {
        Some(v) => if t[0] != '-' && 1 <= v <= u64::MAX {
            Some(v)
        } else {
            None
        },
        None => None,
    }
}

fn count(text: &[char]) -> (n: Option<u64>)
    ensures
        n matches Some(v) ==> count_of(text@) == Some(v as int),
        n is None ==> count_of(text@) is None,
{
    let t = trim(text);
    match parse_u64(t.as_slice()) {
        Some(v) => if v >= 1 {
            Some(v)
        } else {
            None
        },
        None => None,
    }
}

/// An id as the command line writes it.
pub open spec fn number_of(text: Seq<char>) -> Result<int, Seq<char>> {
    match count_of(text) {
        Some(v) => Ok(v),
        None => Err(text + " is not an id"@),
    }
}

fn number(text: &[char]) -> (r: Result<u64, Failure>)
    ensures
        r matches Ok(v) ==> number_of(text@) == Ok::<int, Seq<char>>(v as int),
        r matches Err(f) ==> number_of(text@) == Err::<int, Seq<char>>(f.message@),
{
    match count(text) {
        Some(v) => Ok(v),
        None => Err(Failure::usage(string_of(said(text, " is not an id").as_slice()))),
    }
}

/// An id, as the number the request carries.
pub open spec fn id_of(text: Seq<char>) -> Result<JsonView, Seq<char>> {
    match number_of(text) {
        Ok(v) => Ok(JsonView::Number(v)),
        Err(m) => Err(m),
    }
}

fn id(text: &[char]) -> (r: Result<Json, Failure>)
    ensures
        r matches Ok(v) ==> id_of(text@) == Ok::<JsonView, Seq<char>>(v@),
        r matches Err(f) ==> id_of(text@) == Err::<JsonView, Seq<char>>(f.message@),
{
    match number(text) {
        Ok(v) => Ok(Json::Number(v as i128)),
        Err(f) => Err(f),
    }
}

/// A position, counted from one.
pub open spec fn position_of(text: Seq<char>) -> Result<JsonView, Seq<char>> {
    match count_of(text) {
        Some(v) => Ok(JsonView::Number(v)),
        None => Err(text + " is not a position; positions start at 1"@),
    }
}

fn position(text: &[char]) -> (r: Result<Json, Failure>)
    ensures
        r matches Ok(v) ==> position_of(text@) == Ok::<JsonView, Seq<char>>(v@),
        r matches Err(f) ==> position_of(text@) == Err::<JsonView, Seq<char>>(f.message@),
{
    match count(text) {
        Some(v) => Ok(Json::Number(v as i128)),
        None => Err(Failure::usage(string_of(said(text, " is not a position; positions start at 1").as_slice()))),
    }
}

/// Pieces of text, trimmed, with the empty ones left out.
pub open spec fn kept(ps: Seq<Seq<char>>) -> Seq<Seq<char>>
    decreases ps.len(),
{
    if ps.len() == 0 {
        Seq::empty()
    } else if trimmed(ps.last()).len() > 0 {
        kept(ps.drop_last()).push(trimmed(ps.last()))
    } else {
        kept(ps.drop_last())
    }
}

/// The parts of a text between commas, trimmed, with the empty ones
/// left out.
pub open spec fn comma_parts(text: Seq<char>) -> Seq<Seq<char>> {
    kept(pieces(text, ','))
}

/// The parts of every argument, in order.
pub open spec fn all_parts(args: Seq<Seq<char>>) -> Seq<Seq<char>>
    decreases args.len(),
{
    if args.len() == 0 {
        Seq::empty()
    } else {
        all_parts(args.drop_last()) + comma_parts(args.last())
    }
}

fn parts_of(text: &[char], found: &mut Vec<Vec<char>>)
    ensures
        views(final(found)@) == views(old(found)@) + comma_parts(text@),
{
    let pieces = split_on(text, ',');
    let ghost all = crate::text::pieces(text@, ',');
    let ghost start = views(found@);
    let mut i: usize = 0;
    while i < pieces.len()
        invariant
            views(pieces@) == all,
            i <= pieces@.len(),
            views(found@) == start + kept(all.subrange(0, i as int)),
        decreases pieces@.len() - i,
    {
        let part = trim(pieces[i].as_slice());
        proof {
            assert(all.subrange(0, i + 1).drop_last() =~= all.subrange(0, i as int));
            assert(all.subrange(0, i + 1).last() == pieces@[i as int]@);
        }
        if part.len() > 0 {
            let ghost was = found@;
            found.push(part);
            proof {
                crate::text::lemma_views_push(was, found@.last());
                assert(views(found@) =~= start + kept(all.subrange(0, i + 1)));
            }
        }
        i = i + 1;
    }
    assert(all.subrange(0, pieces@.len() as int) =~= all);
}

/// The distinct ids of some parts, read from `i` on, after `seen`.
pub open spec fn distinct_from(parts: Seq<Seq<char>>, i: int, seen: Seq<int>) -> Result<Seq<int>, Seq<char>>
    decreases parts.len() - i,
{
    if i < 0 || i >= parts.len() {
        Ok(seen)
    } else {
        match number_of(parts[i]) {
            Err(m) => Err(m),
            Ok(n) => if seen.contains(n) {
                Err(decimal(n as nat) + " is given twice"@)
            } else {
                distinct_from(parts, i + 1, seen.push(n))
            },
        }
    }
}

/// Numbers as a JSON list.
pub open spec fn numbers(ns: Seq<int>) -> JsonView {
    JsonView::List(ns.map_values(|n: int| JsonView::Number(n)))
}

/// The distinct ids of some parts, as a list, or why they are not.
fn distinct(parts: &Vec<Vec<char>>) -> (r: Result<Vec<Json>, Failure>)
    ensures
        r matches Ok(found) ==> distinct_from(views(parts@), 0, Seq::empty()) matches Ok(ns)
            && list_view(found@) == ns.map_values(|n: int| JsonView::Number(n)),
        r matches Err(f) ==> distinct_from(views(parts@), 0, Seq::empty()) == Err::<Seq<int>, Seq<char>>(f.message@),
{
    let ghost all = views(parts@);
    let mut found: Vec<Json> = Vec::new();
    let mut seen: Vec<u64> = Vec::new();
    let mut i: usize = 0;
    assert(seen@.map_values(|n: u64| n as int) =~= Seq::<int>::empty());
    proof {
        crate::cli::json::lemma_list_view(found@);
        assert(list_view(found@) =~= seen@.map_values(|n: u64| n as int).map_values(|n: int| JsonView::Number(n)));
    }
    while i < parts.len()
        invariant
            all == views(parts@),
            i <= parts@.len(),
            seen@.len() == found@.len(),
            list_view(found@) == seen@.map_values(|n: u64| n as int).map_values(|n: int| JsonView::Number(n)),
            distinct_from(all, 0, Seq::empty()) == distinct_from(all, i as int, seen@.map_values(|n: u64| n as int)),
        decreases parts@.len() - i,
    {
        let ghost before = seen@.map_values(|n: u64| n as int);
        let n = match number(parts[i].as_slice()) {
            Ok(n) => n,
            Err(f) => {
                return Err(f);
            },
        };
        let mut k: usize = 0;
        while k < seen.len()
            invariant
                k <= seen@.len(),
                all == views(parts@),
                i < parts@.len(),
                number_of(all[i as int]) == Ok::<int, Seq<char>>(n as int),
                distinct_from(all, 0, Seq::empty()) == distinct_from(all, i as int, before),
                before == seen@.map_values(|n: u64| n as int),
                forall|j: int| 0 <= j < k ==> seen@[j] != n,
            decreases seen@.len() - k,
        {
            if seen[k] == n {
                proof {
                    assert(before[k as int] == n as int);
                    assert(before.contains(n as int));
                }
                let mut message = decimal_of(n);
                append_str(&mut message, " is given twice");
                return Err(Failure::usage(string_of(message.as_slice())));
            }
            k = k + 1;
        }
        proof {
            if before.contains(n as int) {
                let j = choose|j: int| 0 <= j < before.len() && before[j] == n as int;
                assert(seen@[j] == n);
            }
        }
        let ghost was = found@;
        seen.push(n);
        found.push(Json::Number(n as i128));
        proof {
            crate::cli::json::lemma_list_view_push(was, found@.last());
            assert(seen@.map_values(|n: u64| n as int) =~= before.push(n as int));
            assert(list_view(found@) =~= seen@.map_values(|n: u64| n as int).map_values(|n: int| JsonView::Number(n)));
        }
        i = i + 1;
    }
    Ok(found)
}

/// Every id the arguments name, by space or by comma, distinct.
pub open spec fn ids_of(args: Seq<Seq<char>>) -> Result<Option<JsonView>, Seq<char>> {
    match distinct_from(all_parts(args), 0, Seq::empty()) {
        Err(m) => Err(m),
        Ok(ns) => Ok(if ns.len() == 0 { None } else { Some(numbers(ns)) }),
    }
}

fn ids(positionals: &[String]) -> (r: Result<Option<Json>, Failure>)
    ensures
        r matches Ok(Some(v)) ==> ids_of(words(positionals@)) == Ok::<Option<JsonView>, Seq<char>>(Some(v@)),
        r matches Ok(None) ==> ids_of(words(positionals@)) == Ok::<Option<JsonView>, Seq<char>>(None),
        r matches Err(f) ==> ids_of(words(positionals@)) == Err::<Option<JsonView>, Seq<char>>(f.message@),
{
    let ghost args = words(positionals@);
    let mut parts: Vec<Vec<char>> = Vec::new();
    let mut i: usize = 0;
    while i < positionals.len()
        invariant
            args == words(positionals@),
            i <= positionals@.len(),
            views(parts@) == all_parts(args.subrange(0, i as int)),
        decreases positionals@.len() - i,
    {
        let text = chars_of(positionals[i].as_str());
        parts_of(text.as_slice(), &mut parts);
        proof {
            assert(args.subrange(0, i + 1).drop_last() =~= args.subrange(0, i as int));
        }
        i = i + 1;
    }
    assert(args.subrange(0, positionals@.len() as int) =~= args);
    match distinct(&parts) {
        Err(f) => Err(f),
        Ok(found) => {
            proof {
                crate::cli::json::lemma_list_view(found@);
            }
            if found.len() == 0 {
                Ok(None)
            } else {
                Ok(Some(Json::List(found)))
            }
        },
    }
}

// ---- the pieces a request is made of --------------------------------

/// `{"kind": "backlog"}`.
pub open spec fn backlog_place() -> JsonView {
    JsonView::Object(seq![("kind"@, JsonView::Text("backlog"@))])
}

/// `{"kind": "day", "day": ...}`.
pub open spec fn day_place(day: Seq<char>) -> JsonView {
    JsonView::Object(seq![("kind"@, JsonView::Text("day"@)), ("day"@, JsonView::Text(day))])
}

fn backlog() -> (v: Json)
    ensures
        v@ == backlog_place(),
{
    let mut fields: Vec<(String, Json)> = Vec::new();
    insert(&mut fields, "kind", text("backlog"));
    proof {
        crate::cli::json::lemma_fields_view(Seq::<(String, Json)>::empty());
        assert(put(Seq::empty(), "kind"@, JsonView::Text("backlog"@)) =~= seq![("kind"@, JsonView::Text("backlog"@))]);
    }
    Json::Object(fields)
}

fn day(date: &[char]) -> (v: Json)
    ensures
        v@ == day_place(date@),
{
    let mut fields: Vec<(String, Json)> = Vec::new();
    insert(&mut fields, "kind", text("day"));
    proof {
        crate::cli::json::lemma_fields_view(Seq::<(String, Json)>::empty());
        assert(put(Seq::empty(), "kind"@, JsonView::Text("day"@)) =~= seq![("kind"@, JsonView::Text("day"@))]);
    }
    let ghost one = fields_view(fields@);
    assert(one == seq![("kind"@, JsonView::Text("day"@))]);
    insert(&mut fields, "day", Json::Text(string_of(date)));
    proof {
        reveal_strlit("kind");
        reveal_strlit("day");
        assert(one[0].0.len() != "day"@.len());
        assert(one[0].0 != "day"@);
        crate::cli::json::lemma_key_at(one, "day"@);
        assert(fields_view(fields@) =~= seq![("kind"@, JsonView::Text("day"@)), ("day"@, JsonView::Text(date@))]);
    }
    Json::Object(fields)
}

/// The words that clear a date.
pub open spec fn clears(text: Seq<char>) -> bool {
    let t = lowercase_of(text);
    t == "none"@ || t == "clear"@ || t == "-"@ || t == "never"@
}

/// A date, or `null` for the words that clear one.
pub open spec fn date_value(text: Seq<char>) -> JsonView {
    if clears(text) {
        JsonView::Null
    } else {
        JsonView::Text(text)
    }
}

fn a_date(date: &[char]) -> (v: Json)
    ensures
        v@ == date_value(date@),
{
    let written = string_of(date);
    let lower_text = lowercase(written.as_str());
    let lower = chars_of(lower_text.as_str());
    if is(lower.as_slice(), "none") || is(lower.as_slice(), "clear") || is(lower.as_slice(), "-")
        || is(lower.as_slice(), "never") {
        Json::Null
    } else {
        Json::Text(written)
    }
}

/// A character as ASCII lowercases it.
pub open spec fn ascii_lower(c: char) -> char {
    if 'A' <= c <= 'Z' {
        ((c as u32) + 32) as char
    } else {
        c
    }
}

/// Whether two texts are the same once ASCII letters are lowercased, as
/// `str::eq_ignore_ascii_case` answers.
pub open spec fn same_ignoring_ascii_case(a: Seq<char>, b: Seq<char>) -> bool {
    a.len() == b.len() && forall|i: int| 0 <= i < a.len() ==> ascii_lower(#[trigger] a[i]) == ascii_lower(b[i])
}

fn lower_ascii(c: char) -> (l: char)
    ensures
        l == ascii_lower(c),
{
    if 'A' <= c && c <= 'Z' {
        ((c as u8) + 32) as char
    } else {
        c
    }
}

fn eq_ignore_ascii_case(a: &[char], b: &str) -> (same: bool)
    ensures
        same == same_ignoring_ascii_case(a@, b@),
{
    let other = chars_of(b);
    if a.len() != other.len() {
        return false;
    }
    let mut i: usize = 0;
    while i < a.len()
        invariant
            other@ == b@,
            a@.len() == other@.len(),
            i <= a@.len(),
            forall|j: int| 0 <= j < i ==> ascii_lower(#[trigger] a@[j]) == ascii_lower(other@[j]),
        decreases a@.len() - i,
    {
        if lower_ascii(a[i]) != lower_ascii(other[i]) {
            return false;
        }
        i = i + 1;
    }
    true
}

/// `backlog`, or a day. The one word that is not a date is the backlog.
pub open spec fn written_place(text: Seq<char>) -> JsonView {
    if same_ignoring_ascii_case(text, "backlog"@) {
        backlog_place()
    } else {
        day_place(text)
    }
}

/// The backlog, or a day.
pub open spec fn place_json(backlog: bool, day: Seq<char>) -> JsonView {
    if backlog {
        backlog_place()
    } else {
        day_place(day)
    }
}

proof fn lemma_place_json_eq(b1: bool, d1: Seq<char>, b2: bool, d2: Seq<char>)
    ensures
        (place_json(b1, d1) == place_json(b2, d2)) <==> (b1 == b2 && (b1 || d1 == d2)),
{
    if b1 != b2 {
        let (x, y) = if b1 { (place_json(b1, d1), place_json(b2, d2)) } else { (place_json(b2, d2), place_json(b1, d1)) };
        match (x, y) {
            (JsonView::Object(a), JsonView::Object(b)) => {
                assert(a.len() != b.len());
            },
            _ => {},
        }
    } else if !b1 && place_json(b1, d1) == place_json(b2, d2) {
        match (place_json(b1, d1), place_json(b2, d2)) {
            (JsonView::Object(a), JsonView::Object(b)) => {
                assert(a[1] == b[1]);
            },
            _ => {},
        }
    }
}

/// A place as the options write it: its option, and the backlog or a day.
struct Asked {
    option: &'static str,
    backlog: bool,
    day: Vec<char>,
}

fn place_value(in_backlog: bool, date: &[char]) -> (v: Json)
    ensures
        v@ == place_json(in_backlog, date@),
{
    if in_backlog {
        backlog()
    } else {
        day(date)
    }
}

/// The place a written word names.
fn written(text: &[char]) -> (asked: (bool, Vec<char>))
    ensures
        place_json(asked.0, asked.1@) == written_place(text@),
{
    if eq_ignore_ascii_case(text, "backlog") {
        (true, Vec::new())
    } else {
        assert(text@.subrange(0, text@.len() as int) =~= text@);
        (false, slice_of(text, 0, text.len()))
    }
}

/// The option and place of one of the options that name a place, where
/// it is given.
pub open spec fn entry(option: Seq<char>, place: Option<JsonView>) -> Seq<(Seq<char>, JsonView)> {
    match place {
        Some(p) => seq![(option, p)],
        None => Seq::empty(),
    }
}

pub open spec fn flag_entry(options: Opts, option: Seq<char>, place: JsonView) -> Seq<(Seq<char>, JsonView)> {
    if given(options, option) {
        seq![(option, place)]
    } else {
        Seq::empty()
    }
}

pub open spec fn written_entry(option: Seq<char>, text: Option<Seq<char>>) -> Seq<(Seq<char>, JsonView)> {
    match text {
        Some(t) => seq![(option, written_place(t))],
        None => Seq::empty(),
    }
}

/// Every place the options name, in the order they are read: `--place`,
/// `--day`, `--to`, `--today`, `--tomorrow`, `--backlog`.
pub open spec fn places_named(options: Opts) -> Result<Seq<(Seq<char>, JsonView)>, Seq<char>> {
    match single_of(options, "--place"@) {
        Err(m) => Err(m),
        Ok(p) => match single_of(options, "--day"@) {
            Err(m) => Err(m),
            Ok(d) => match single_of(options, "--to"@) {
                Err(m) => Err(m),
                Ok(t) => Ok(
                    written_entry("--place"@, p)
                        + entry("--day"@, match d { Some(d) => Some(day_place(d)), None => None })
                        + written_entry("--to"@, t)
                        + flag_entry(options, "--today"@, day_place("today"@))
                        + flag_entry(options, "--tomorrow"@, day_place("tomorrow"@))
                        + flag_entry(options, "--backlog"@, backlog_place())
                ),
            },
        },
    }
}

/// Where the first place from `i` on that is not `place` is, or the
/// number of places.
pub open spec fn other_place_at(asked: Seq<(Seq<char>, JsonView)>, i: int, place: JsonView) -> int
    decreases asked.len() - i,
{
    if i < 0 || i >= asked.len() {
        asked.len() as int
    } else if asked[i].1 != place {
        i
    } else {
        other_place_at(asked, i + 1, place)
    }
}

/// The place the options name, from whichever of the ways was used; two
/// ways naming two places is refused rather than resolved.
pub open spec fn place_of(options: Opts, command: Seq<char>) -> Result<Option<JsonView>, Seq<char>> {
    match places_named(options) {
        Err(m) => Err(m),
        Ok(asked) => if asked.len() == 0 {
            Ok(None)
        } else {
            let k = other_place_at(asked, 1, asked[0].1);
            if k < asked.len() {
                Err(asked[0].0 + " and "@ + asked[k].0 + " name different places for "@ + command)
            } else {
                Ok(Some(asked[0].1))
            }
        },
    }
}

spec fn asked_view(a: Seq<Asked>) -> Seq<(Seq<char>, JsonView)> {
    a.map_values(|x: Asked| (x.option@, place_json(x.backlog, x.day@)))
}

fn push_asked(asked: &mut Vec<Asked>, option: &'static str, backlog: bool, date: Vec<char>)
    ensures
        asked_view(final(asked)@) == asked_view(old(asked)@) + seq![(option@, place_json(backlog, date@))],
{
    asked.push(Asked { option, backlog, day: date });
    assert(asked_view(asked@) =~= asked_view(old(asked)@) + seq![(option@, place_json(backlog, date@))]);
}

fn place_asked(options: &[Given], command: &str) -> (r: Result<Option<Json>, Failure>)
    ensures
        r matches Ok(Some(v)) ==> place_of(opts(options@), command@) == Ok::<Option<JsonView>, Seq<char>>(Some(v@)),
        r matches Ok(None) ==> place_of(opts(options@), command@) == Ok::<Option<JsonView>, Seq<char>>(None),
        r matches Err(f) ==> place_of(opts(options@), command@) == Err::<Option<JsonView>, Seq<char>>(f.message@),
{
    let mut asked: Vec<Asked> = Vec::new();
    let place = match single(options, "--place") {
        Err(f) => return Err(f),
        Ok(p) => p,
    };
    let on_day = match single(options, "--day") {
        Err(f) => return Err(f),
        Ok(d) => d,
    };
    let to = match single(options, "--to") {
        Err(f) => return Err(f),
        Ok(t) => t,
    };
    let ghost start = asked_view(asked@);
    assert(start =~= Seq::<(Seq<char>, JsonView)>::empty());
    match &place {
        Some(text) => {
            let (b, d) = written(chars_of(text.as_str()).as_slice());
            push_asked(&mut asked, "--place", b, d);
        },
        None => {},
    }
    let ghost after_place = asked_view(asked@);
    match &on_day {
        Some(text) => push_asked(&mut asked, "--day", false, chars_of(text.as_str())),
        None => {},
    }
    let ghost after_day = asked_view(asked@);
    match &to {
        Some(text) => {
            let (b, d) = written(chars_of(text.as_str()).as_slice());
            push_asked(&mut asked, "--to", b, d);
        },
        None => {},
    }
    let ghost after_to = asked_view(asked@);
    if present(options, "--today") {
        push_asked(&mut asked, "--today", false, chars_of("today"));
    }
    let ghost after_today = asked_view(asked@);
    if present(options, "--tomorrow") {
        push_asked(&mut asked, "--tomorrow", false, chars_of("tomorrow"));
    }
    let ghost after_tomorrow = asked_view(asked@);
    if present(options, "--backlog") {
        push_asked(&mut asked, "--backlog", true, Vec::new());
    }
    let ghost all = asked_view(asked@);
    proof {
        let p = match place { Some(t) => Some(t@), None => None::<Seq<char>> };
        let d = match on_day { Some(t) => Some(t@), None => None::<Seq<char>> };
        let t = match to { Some(t) => Some(t@), None => None::<Seq<char>> };
        assert(after_place =~= written_entry("--place"@, p));
        assert(after_day =~= after_place + entry("--day"@, match d { Some(d) => Some(day_place(d)), None => None }));
        assert(after_to =~= after_day + written_entry("--to"@, t));
        assert(after_today =~= after_to + flag_entry(opts(options@), "--today"@, day_place("today"@)));
        assert(after_tomorrow =~= after_today + flag_entry(opts(options@), "--tomorrow"@, day_place("tomorrow"@)));
        assert(all =~= after_tomorrow + flag_entry(opts(options@), "--backlog"@, backlog_place()));
        assert(places_named(opts(options@)) == Ok::<Seq<(Seq<char>, JsonView)>, Seq<char>>(all));
    }
    if asked.len() == 0 {
        return Ok(None);
    }
    let mut i: usize = 1;
    while i < asked.len()
        invariant
            all == asked_view(asked@),
            places_named(opts(options@)) == Ok::<Seq<(Seq<char>, JsonView)>, Seq<char>>(all),
            asked@.len() > 0,
            1 <= i <= asked@.len(),
            other_place_at(all, 1, all[0].1) == other_place_at(all, i as int, all[0].1),
        decreases asked@.len() - i,
    {
        let first = &asked[0];
        let other = &asked[i];
        let same_place = first.backlog == other.backlog
            && (first.backlog || same(first.day.as_slice(), other.day.as_slice()));
        proof {
            lemma_place_json_eq(first.backlog, first.day@, other.backlog, other.day@);
        }
        if !same_place {
            assert(all[i as int].1 != all[0].1);
            assert(other_place_at(all, 1, all[0].1) == i);
            let mut message = chars_of(first.option);
            append_str(&mut message, " and ");
            append_str(&mut message, other.option);
            append_str(&mut message, " name different places for ");
            append_str(&mut message, command);
            return Err(Failure::usage(string_of(message.as_slice())));
        }
        i = i + 1;
    }
    Ok(Some(place_value(asked[0].backlog, asked[0].day.as_slice())))
}

/// A list with each run of the same value cut to one.
pub open spec fn dedup(s: Seq<Seq<char>>) -> Seq<Seq<char>>
    decreases s.len(),
{
    if s.len() == 0 {
        s
    } else {
        let rest = dedup(s.drop_last());
        if rest.len() > 0 && rest.last() == s.last() {
            rest
        } else {
            rest.push(s.last())
        }
    }
}

/// Whether a state is one the tasks can be asked in.
pub open spec fn a_state(state: Seq<char>) -> bool {
    state == "open"@ || state == "closed"@ || state == "all"@
}

pub open spec fn flag_word(options: Opts, option: Seq<char>, word: Seq<char>) -> Seq<Seq<char>> {
    if given(options, option) {
        seq![word]
    } else {
        Seq::empty()
    }
}

/// The state the tasks are asked in: `--state`, `--open`, `--closed` or
/// `--all`, which must agree.
pub open spec fn state_of(options: Opts) -> Result<Option<Seq<char>>, Seq<char>> {
    match single_of(options, "--state"@) {
        Err(m) => Err(m),
        Ok(state) => {
            let named = match state {
                Some(s) => if a_state(s) { Ok(seq![s]) } else {
                    Err(s + " is not a state; the states are open, closed and all"@)
                },
                None => Ok(Seq::<Seq<char>>::empty()),
            };
            match named {
                Err(m) => Err(m),
                Ok(named) => {
                    let asked = dedup(
                        named + flag_word(options, "--open"@, "open"@) + flag_word(options, "--closed"@, "closed"@)
                            + flag_word(options, "--all"@, "all"@),
                    );
                    if asked.len() == 0 {
                        Ok(None)
                    } else if asked.len() == 1 {
                        Ok(Some(asked[0]))
                    } else {
                        Err(joined(asked, " and "@) + " ask for different tasks"@)
                    }
                },
            }
        },
    }
}

fn push_word(asked: &mut Vec<Vec<char>>, word: Vec<char>)
    ensures
        dedup(views(final(asked)@)) == dedup(views(old(asked)@).push(word@)),
        views(final(asked)@) == views(old(asked)@).push(word@),
{
    let ghost was = asked@;
    asked.push(word);
    proof {
        crate::text::lemma_views_push(was, asked@.last());
    }
}

/// Cuts runs of the same word to one, keeping the first.
fn dedup_words(words: &Vec<Vec<char>>) -> (out: Vec<Vec<char>>)
    ensures
        views(out@) == dedup(views(words@)),
{
    let ghost all = views(words@);
    let mut out: Vec<Vec<char>> = Vec::new();
    let mut i: usize = 0;
    while i < words.len()
        invariant
            all == views(words@),
            i <= words@.len(),
            views(out@) == dedup(all.subrange(0, i as int)),
        decreases words@.len() - i,
    {
        let ghost upto = all.subrange(0, i + 1);
        assert(upto.drop_last() =~= all.subrange(0, i as int));
        assert(upto.last() == words@[i as int]@);
        let n = out.len();
        let repeat = n > 0 && same(out[n - 1].as_slice(), words[i].as_slice());
        if !repeat {
            let ghost was = out@;
            out.push(slice_of(words[i].as_slice(), 0, words[i].len()));
            proof {
                assert(words@[i as int]@.subrange(0, words@[i as int]@.len() as int) =~= words@[i as int]@);
                crate::text::lemma_views_push(was, out@.last());
            }
        }
        i = i + 1;
    }
    assert(all.subrange(0, words@.len() as int) =~= all);
    out
}

fn state_asked(options: &[Given]) -> (r: Result<Option<Vec<char>>, Failure>)
    ensures
        r matches Ok(Some(v)) ==> state_of(opts(options@)) == Ok::<Option<Seq<char>>, Seq<char>>(Some(v@)),
        r matches Ok(None) ==> state_of(opts(options@)) == Ok::<Option<Seq<char>>, Seq<char>>(None),
        r matches Err(f) ==> state_of(opts(options@)) == Err::<Option<Seq<char>>, Seq<char>>(f.message@),
{
    let mut asked: Vec<Vec<char>> = Vec::new();
    let ghost named: Seq<Seq<char>>;
    match single(options, "--state") {
        Err(f) => return Err(f),
        Ok(Some(state)) => {
            let word = chars_of(state.as_str());
            if is(word.as_slice(), "open") || is(word.as_slice(), "closed") || is(word.as_slice(), "all") {
                push_word(&mut asked, word);
                proof {
                    named = seq![state@];
                    assert(views(asked@) =~= named);
                }
            } else {
                let mut message = word;
                append_str(&mut message, " is not a state; the states are open, closed and all");
                return Err(Failure::usage(string_of(message.as_slice())));
            }
        },
        Ok(None) => {
            proof {
                named = Seq::empty();
                assert(views(asked@) =~= named);
            }
        },
    }
    let ghost after_named = views(asked@);
    if present(options, "--open") {
        push_word(&mut asked, chars_of("open"));
    }
    let ghost after_open = views(asked@);
    if present(options, "--closed") {
        push_word(&mut asked, chars_of("closed"));
    }
    let ghost after_closed = views(asked@);
    if present(options, "--all") {
        push_word(&mut asked, chars_of("all"));
    }
    proof {
        assert(after_open =~= after_named + flag_word(opts(options@), "--open"@, "open"@));
        assert(after_closed =~= after_open + flag_word(opts(options@), "--closed"@, "closed"@));
        assert(views(asked@) =~= after_closed + flag_word(opts(options@), "--all"@, "all"@));
    }
    let kept = dedup_words(&asked);
    if kept.len() == 0 {
        return Ok(None);
    }
    if kept.len() == 1 {
        let only = slice_of(kept[0].as_slice(), 0, kept[0].len());
        assert(kept@[0]@.subrange(0, kept@[0]@.len() as int) =~= kept@[0]@);
        return Ok(Some(only));
    }
    let mut message = join_with(&kept, " and ");
    append_str(&mut message, " ask for different tasks");
    Err(Failure::usage(string_of(message.as_slice())))
}

/// The runs with a string between each two of them.
fn join_with(parts: &Vec<Vec<char>>, sep: &str) -> (r: Vec<char>)
    ensures
        r@ == joined(views(parts@), sep@),
{
    let ghost all = views(parts@);
    let mut out: Vec<char> = Vec::new();
    let mut i: usize = 0;
    while i < parts.len()
        invariant
            i <= parts@.len(),
            all == views(parts@),
            out@ == joined(all.subrange(0, i as int), sep@),
        decreases parts@.len() - i,
    {
        if i > 0 {
            append_str(&mut out, sep);
        }
        append_all(&mut out, parts[i].as_slice());
        proof {
            let done = all.subrange(0, i as int);
            assert(all.subrange(0, i + 1) =~= done.push(all[i as int]));
            if i > 0 {
                crate::text::lemma_joined_push(done, sep@, all[i as int]);
            } else {
                assert(done.push(all[i as int]) =~= seq![all[i as int]]);
            }
        }
        i = i + 1;
    }
    assert(all.subrange(0, parts@.len() as int) =~= all);
    out
}

/// Whether a rename is for this copy or its future copies too.
pub open spec fn scope_of(options: Opts) -> Result<Option<Seq<char>>, Seq<char>> {
    match single_of(options, "--scope"@) {
        Err(m) => Err(m),
        Ok(None) => Ok(None),
        Ok(Some(s)) => if s == "this"@ || s == "future"@ {
            Ok(Some(s))
        } else {
            Err(s + " is not a scope; the scopes are this and future"@)
        },
    }
}

fn scope_asked(options: &[Given]) -> (r: Result<Option<Vec<char>>, Failure>)
    ensures
        r matches Ok(Some(v)) ==> scope_of(opts(options@)) == Ok::<Option<Seq<char>>, Seq<char>>(Some(v@)),
        r matches Ok(None) ==> scope_of(opts(options@)) == Ok::<Option<Seq<char>>, Seq<char>>(None),
        r matches Err(f) ==> scope_of(opts(options@)) == Err::<Option<Seq<char>>, Seq<char>>(f.message@),
{
    match single(options, "--scope") {
        Err(f) => Err(f),
        Ok(None) => Ok(None),
        Ok(Some(scope)) => {
            let word = chars_of(scope.as_str());
            if is(word.as_slice(), "this") || is(word.as_slice(), "future") {
                Ok(Some(word))
            } else {
                let mut message = word;
                append_str(&mut message, " is not a scope; the scopes are this and future");
                Err(Failure::usage(string_of(message.as_slice())))
            }
        },
    }
}

/// An object's fields after one of `on` and `off`, which cannot both be
/// asked for.
pub open spec fn two_ways_of(options: Opts, on: Seq<char>, off: Seq<char>, field: Seq<char>, out: Seq<(Seq<char>, JsonView)>) -> Result<Seq<(Seq<char>, JsonView)>, Seq<char>> {
    if given(options, on) && given(options, off) {
        Err(on + " and "@ + off + " ask for opposites"@)
    } else if given(options, on) {
        Ok(put(out, field, JsonView::Bool(true)))
    } else if given(options, off) {
        Ok(put(out, field, JsonView::Bool(false)))
    } else {
        Ok(out)
    }
}

fn two_ways(options: &[Given], on: &str, off: &str, field: &str, out: &mut Vec<(String, Json)>) -> (r: Result<(), Failure>)
    ensures
        r matches Ok(_) ==> two_ways_of(opts(options@), on@, off@, field@, fields_view(old(out)@)) == Ok::<Seq<(Seq<char>, JsonView)>, Seq<char>>(fields_view(final(out)@)),
        r matches Err(f) ==> two_ways_of(opts(options@), on@, off@, field@, fields_view(old(out)@)) == Err::<Seq<(Seq<char>, JsonView)>, Seq<char>>(f.message@),
{
    let yes = present(options, on);
    let no = present(options, off);
    if yes && no {
        let mut message = chars_of(on);
        append_str(&mut message, " and ");
        append_str(&mut message, off);
        append_str(&mut message, " ask for opposites");
        return Err(Failure::usage(string_of(message.as_slice())));
    }
    if yes {
        insert(out, field, Json::Bool(true));
    } else if no {
        insert(out, field, Json::Bool(false));
    }
    Ok(())
}

/// An object's fields after a date option, where it was given.
pub open spec fn date_option_of(options: Opts, name: Seq<char>, field: Seq<char>, out: Seq<(Seq<char>, JsonView)>) -> Result<Seq<(Seq<char>, JsonView)>, Seq<char>> {
    match single_of(options, name) {
        Err(m) => Err(m),
        Ok(Some(text)) => Ok(put(out, field, date_value(text))),
        Ok(None) => Ok(out),
    }
}

fn date_option(options: &[Given], name: &str, field: &str, out: &mut Vec<(String, Json)>) -> (r: Result<(), Failure>)
    ensures
        r matches Ok(_) ==> date_option_of(opts(options@), name@, field@, fields_view(old(out)@)) == Ok::<Seq<(Seq<char>, JsonView)>, Seq<char>>(fields_view(final(out)@)),
        r matches Err(f) ==> date_option_of(opts(options@), name@, field@, fields_view(old(out)@)) == Err::<Seq<(Seq<char>, JsonView)>, Seq<char>>(f.message@),
{
    match single(options, name) {
        Err(f) => Err(f),
        Ok(Some(text)) => {
            insert(out, field, a_date(chars_of(text.as_str()).as_slice()));
            Ok(())
        },
        Ok(None) => Ok(()),
    }
}

/// An object's fields after a date or its clearing, which cannot both be
/// asked for: cleared is `null`, left alone is absent.
pub open spec fn date_or_cleared_of(options: Opts, set: Seq<char>, clear: Seq<char>, field: Seq<char>, out: Seq<(Seq<char>, JsonView)>) -> Result<Seq<(Seq<char>, JsonView)>, Seq<char>> {
    match single_of(options, set) {
        Err(m) => Err(m),
        Ok(given_date) => {
            let cleared = given(options, clear);
            if given_date is Some && cleared {
                Err(set + " and "@ + clear + " ask for opposites"@)
            } else if cleared {
                Ok(put(out, field, JsonView::Null))
            } else {
                match given_date {
                    Some(text) => Ok(put(out, field, date_value(text))),
                    None => Ok(out),
                }
            }
        },
    }
}

fn date_or_cleared(options: &[Given], set: &str, clear: &str, field: &str, out: &mut Vec<(String, Json)>) -> (r: Result<(), Failure>)
    ensures
        r matches Ok(_) ==> date_or_cleared_of(opts(options@), set@, clear@, field@, fields_view(old(out)@)) == Ok::<Seq<(Seq<char>, JsonView)>, Seq<char>>(fields_view(final(out)@)),
        r matches Err(f) ==> date_or_cleared_of(opts(options@), set@, clear@, field@, fields_view(old(out)@)) == Err::<Seq<(Seq<char>, JsonView)>, Seq<char>>(f.message@),
{
    let given_date = match single(options, set) {
        Err(f) => return Err(f),
        Ok(g) => g,
    };
    let cleared = present(options, clear);
    if given_date.is_some() && cleared {
        let mut message = chars_of(set);
        append_str(&mut message, " and ");
        append_str(&mut message, clear);
        append_str(&mut message, " ask for opposites");
        return Err(Failure::usage(string_of(message.as_slice())));
    }
    if cleared {
        insert(out, field, Json::Null);
    } else {
        match given_date {
            Some(text) => insert(out, field, a_date(chars_of(text.as_str()).as_slice())),
            None => {},
        }
    }
    Ok(())
}

/// `--position`, `--top`, `--before` and `--after`, in the order they are
/// read, each as the field and value it sends.
pub open spec fn where_asked(options: Opts) -> Result<Seq<(Seq<char>, JsonView)>, Seq<char>> {
    let position = match single_of(options, "--position"@) {
        Err(m) => Err(m),
        Ok(None) => Ok(Seq::<(Seq<char>, JsonView)>::empty()),
        Ok(Some(t)) => match position_of(t) {
            Err(m) => Err(m),
            Ok(v) => Ok(seq![("position"@, v)]),
        },
    };
    match position {
        Err(m) => Err(m),
        Ok(position) => {
            let top = if given(options, "--top"@) {
                seq![("position"@, JsonView::Number(1))]
            } else {
                Seq::empty()
            };
            let before = match single_of(options, "--before"@) {
                Err(m) => Err(m),
                Ok(None) => Ok(Seq::<(Seq<char>, JsonView)>::empty()),
                Ok(Some(t)) => match id_of(t) {
                    Err(m) => Err(m),
                    Ok(v) => Ok(seq![("before"@, v)]),
                },
            };
            match before {
                Err(m) => Err(m),
                Ok(before) => {
                    let after = match single_of(options, "--after"@) {
                        Err(m) => Err(m),
                        Ok(None) => Ok(Seq::<(Seq<char>, JsonView)>::empty()),
                        Ok(Some(t)) => match id_of(t) {
                            Err(m) => Err(m),
                            Ok(v) => Ok(seq![("after"@, v)]),
                        },
                    };
                    match after {
                        Err(m) => Err(m),
                        Ok(after) => Ok(position + top + before + after),
                    }
                },
            }
        },
    }
}

/// An object's fields after `--position`, `--before`, `--after` or
/// `--top`, of which one at most, and whether any of them was given.
pub open spec fn where_of(options: Opts, out: Seq<(Seq<char>, JsonView)>) -> Result<(bool, Seq<(Seq<char>, JsonView)>), Seq<char>> {
    match where_asked(options) {
        Err(m) => Err(m),
        Ok(asked) => if asked.len() == 0 {
            Ok((false, out))
        } else if asked.len() == 1 {
            Ok((true, put(out, asked[0].0, asked[0].1)))
        } else {
            Err("--position, --before, --after and --top are four ways of saying one thing; use one"@)
        },
    }
}

fn where_in_place(options: &[Given], out: &mut Vec<(String, Json)>) -> (r: Result<bool, Failure>)
    ensures
        r matches Ok(any) ==> where_of(opts(options@), fields_view(old(out)@)) == Ok::<(bool, Seq<(Seq<char>, JsonView)>), Seq<char>>((any, fields_view(final(out)@))),
        r matches Err(f) ==> where_of(opts(options@), fields_view(old(out)@)) == Err::<(bool, Seq<(Seq<char>, JsonView)>), Seq<char>>(f.message@),
{
    let mut asked: Vec<(&'static str, Json)> = Vec::new();
    let ghost at_position: Seq<(Seq<char>, JsonView)>;
    match single(options, "--position") {
        Err(f) => return Err(f),
        Ok(None) => {
            proof { at_position = Seq::empty(); }
        },
        Ok(Some(t)) => match position(chars_of(t.as_str()).as_slice()) {
            Err(f) => return Err(f),
            Ok(v) => {
                proof { at_position = seq![("position"@, v@)]; }
                asked.push(("position", v));
            },
        },
    }
    let ghost top: Seq<(Seq<char>, JsonView)>;
    if present(options, "--top") {
        proof { top = seq![("position"@, JsonView::Number(1))]; }
        asked.push(("position", Json::Number(1)));
    } else {
        proof { top = Seq::empty(); }
    }
    let ghost before: Seq<(Seq<char>, JsonView)>;
    match single(options, "--before") {
        Err(f) => return Err(f),
        Ok(None) => {
            proof { before = Seq::empty(); }
        },
        Ok(Some(t)) => match id(chars_of(t.as_str()).as_slice()) {
            Err(f) => return Err(f),
            Ok(v) => {
                proof { before = seq![("before"@, v@)]; }
                asked.push(("before", v));
            },
        },
    }
    let ghost after: Seq<(Seq<char>, JsonView)>;
    match single(options, "--after") {
        Err(f) => return Err(f),
        Ok(None) => {
            proof { after = Seq::empty(); }
        },
        Ok(Some(t)) => match id(chars_of(t.as_str()).as_slice()) {
            Err(f) => return Err(f),
            Ok(v) => {
                proof { after = seq![("after"@, v@)]; }
                asked.push(("after", v));
            },
        },
    }
    proof {
        let all = at_position + top + before + after;
        assert(where_asked(opts(options@)) == Ok::<Seq<(Seq<char>, JsonView)>, Seq<char>>(all));
        assert(asked@.len() == all.len());
        assert forall|k: int| 0 <= k < all.len() implies (#[trigger] asked@[k]).0@ == all[k].0 && asked@[k].1@ == all[k].1 by {
        }
    }
    if asked.len() == 0 {
        return Ok(false);
    }
    if asked.len() == 1 {
        let (field, value) = asked.pop().unwrap();
        insert(out, field, value);
        return Ok(true);
    }
    Err(Failure::usage(string_of(chars_of("--position, --before, --after and --top are four ways of saying one thing; use one").as_slice())))
}

/// `--order`: the ids of the whole place, distinct, in order.
pub open spec fn order_of(options: Opts) -> Result<Option<JsonView>, Seq<char>> {
    match single_of(options, "--order"@) {
        Err(m) => Err(m),
        Ok(None) => Ok(None),
        Ok(Some(text)) => match distinct_from(comma_parts(text), 0, Seq::empty()) {
            Err(m) => Err(m),
            Ok(ns) => if ns.len() == 0 {
                Err("--order wants the task ids of the whole place"@)
            } else {
                Ok(Some(numbers(ns)))
            },
        },
    }
}

fn order_asked(options: &[Given]) -> (r: Result<Option<Json>, Failure>)
    ensures
        r matches Ok(Some(v)) ==> order_of(opts(options@)) == Ok::<Option<JsonView>, Seq<char>>(Some(v@)),
        r matches Ok(None) ==> order_of(opts(options@)) == Ok::<Option<JsonView>, Seq<char>>(None),
        r matches Err(f) ==> order_of(opts(options@)) == Err::<Option<JsonView>, Seq<char>>(f.message@),
{
    let text = match single(options, "--order") {
        Err(f) => return Err(f),
        Ok(None) => return Ok(None),
        Ok(Some(t)) => t,
    };
    let mut parts: Vec<Vec<char>> = Vec::new();
    parts_of(chars_of(text.as_str()).as_slice(), &mut parts);
    assert(views(parts@) =~= comma_parts(text@));
    match distinct(&parts) {
        Err(f) => Err(f),
        Ok(found) => {
            proof {
                crate::cli::json::lemma_list_view(found@);
            }
            if found.len() == 0 {
                Err(Failure::usage(string_of(chars_of("--order wants the task ids of the whole place").as_slice())))
            } else {
                Ok(Some(Json::List(found)))
            }
        },
    }
}

/// Where text the request needs is to be read from.
pub enum SourceView {
    Stdin,
    File(Seq<char>),
}

impl Source {
    pub open spec fn view_of(&self) -> SourceView {
        match self {
            Source::Stdin => SourceView::Stdin,
            Source::File(path) => SourceView::File(path@),
        }
    }
}

/// The text a request still wants, as the field and where from.
pub open spec fn body_view(body: Option<Body>) -> Option<(Seq<char>, SourceView)> {
    match body {
        Some(b) => Some((b.field@, b.source.view_of())),
        None => None,
    }
}

/// Where a note's text comes from: written, `--text`, standard input or a
/// file, of which one at most. Standard input and a file are left to be
/// read; the text is what was written or told.
pub open spec fn note_text_of(options: Opts, written: Option<Seq<char>>, field: Seq<char>) -> Result<(Option<Seq<char>>, Option<(Seq<char>, SourceView)>), Seq<char>> {
    let from_stdin = given(options, "--stdin"@);
    match single_of(options, "--file"@) {
        Err(m) => Err(m),
        Ok(from_file) => match single_of(options, "--text"@) {
            Err(m) => Err(m),
            Ok(told) => {
                let ways = (if written is Some { 1int } else { 0 }) + (if from_stdin { 1int } else { 0 })
                    + (if from_file is Some { 1int } else { 0 }) + (if told is Some { 1int } else { 0 });
                if ways > 1 {
                    Err("the text can come from one place: written out, --text, --stdin or --file"@)
                } else if from_stdin {
                    Ok((None, Some((field, SourceView::Stdin))))
                } else if from_file is Some {
                    Ok((None, Some((field, SourceView::File(from_file.unwrap())))))
                } else {
                    Ok((if written is Some { written } else { told }, None))
                }
            },
        },
    }
}

fn note_text(options: &[Given], written: Option<Vec<char>>, field: &'static str, extras: &mut Extras) -> (r: Result<Option<Vec<char>>, Failure>)
    requires
        old(extras).body is None,
    ensures
        r matches Ok(t) ==> note_text_of(opts(options@), match written { Some(w) => Some(w@), None => None }, field@)
            == Ok::<(Option<Seq<char>>, Option<(Seq<char>, SourceView)>), Seq<char>>((match t { Some(v) => Some(v@), None => None }, body_view(final(extras).body))),
        r matches Err(f) ==> note_text_of(opts(options@), match written { Some(w) => Some(w@), None => None }, field@)
            == Err::<(Option<Seq<char>>, Option<(Seq<char>, SourceView)>), Seq<char>>(f.message@),
{
    let from_stdin = present(options, "--stdin");
    let from_file = match single(options, "--file") {
        Err(f) => return Err(f),
        Ok(v) => v,
    };
    let told = match single(options, "--text") {
        Err(f) => return Err(f),
        Ok(v) => v,
    };
    let ways: u8 = (if written.is_some() { 1u8 } else { 0 }) + (if from_stdin { 1u8 } else { 0 })
        + (if from_file.is_some() { 1u8 } else { 0 }) + (if told.is_some() { 1u8 } else { 0 });
    if ways > 1 {
        return Err(Failure::usage(string_of(chars_of("the text can come from one place: written out, --text, --stdin or --file").as_slice())));
    }
    if from_stdin {
        extras.body = Some(Body { field, source: Source::Stdin });
        return Ok(None);
    }
    match from_file {
        Some(path) => {
            extras.body = Some(Body { field, source: Source::File(path) });
            return Ok(None);
        },
        None => {},
    }
    match written {
        Some(w) => Ok(Some(w)),
        None => match told {
            Some(t) => Ok(Some(chars_of(t.as_str()))),
            None => Ok(None),
        },
    }
}

// ---- settings -------------------------------------------------------

/// How a setting is written on the command line.
#[derive(Clone, Copy, Debug, PartialEq, Eq, Structural)]
pub enum Shape {
    Number,
    Flag,
    Word,
    /// A comma-separated list, which is only ever the work days.
    Words,
    /// `WxH`.
    Size,
}

/// How each setting is written on the command line and what it is in the
/// request. The service refuses a value outside its range; this only says
/// which of the five shapes the text is read as, because a key it does
/// not know is a key whose shape nobody can guess.
pub open spec fn setting_table() -> Seq<(&'static str, Shape)> {
    seq![
        ("day_starts_at", Shape::Number),
        ("week_starts_on", Shape::Word),
        ("work_days", Shape::Words),
        ("review_opens_itself", Shape::Flag),
        ("due_ahead_days", Shape::Number),
        ("backfill_days", Shape::Number),
        ("pile_horizon_days", Shape::Number),
        ("floating_window", Shape::Flag),
        ("window_size", Shape::Size),
        ("mouse", Shape::Flag),
        ("message_seconds", Shape::Number),
        ("date_style", Shape::Word),
        ("confirm_delete", Shape::Flag),
        ("spell_check_notes", Shape::Flag),
    ]
}

fn setting_shapes() -> (table: &'static [(&'static str, Shape)])
    ensures
        table@ == setting_table(),
{
    &[
        ("day_starts_at", Shape::Number),
        ("week_starts_on", Shape::Word),
        ("work_days", Shape::Words),
        ("review_opens_itself", Shape::Flag),
        ("due_ahead_days", Shape::Number),
        ("backfill_days", Shape::Number),
        ("pile_horizon_days", Shape::Number),
        ("floating_window", Shape::Flag),
        ("window_size", Shape::Size),
        ("mouse", Shape::Flag),
        ("message_seconds", Shape::Number),
        ("date_style", Shape::Word),
        ("confirm_delete", Shape::Flag),
        ("spell_check_notes", Shape::Flag),
    ]
}

/// A whole number as `str::parse::<i64>` reads one.
pub open spec fn whole_of(text: Seq<char>) -> Option<int> {
    match integer_of(text) {
        Some(v) => if i64::MIN <= v <= i64::MAX { Some(v) } else { None },
        None => None,
    }
}

/// The words of a list, lowercased, as JSON texts.
pub open spec fn lowered(parts: Seq<Seq<char>>) -> Seq<JsonView> {
    parts.map_values(|p: Seq<char>| JsonView::Text(lowercase_of(p)))
}

/// The text on either side of the first `x`, if it has one.
pub open spec fn halves(text: Seq<char>, at_char: char) -> Option<(Seq<char>, Seq<char>)> {
    if text.contains(at_char) {
        let at = choose|at: int| first_at(text, at_char, at);
        Some((text.subrange(0, at), text.subrange(at + 1, text.len() as int)))
    } else {
        None
    }
}

pub(crate) fn split_once(text: &[char], at_char: char) -> (r: Option<(Vec<char>, Vec<char>)>)
    ensures
        r matches Some(p) ==> halves(text@, at_char) == Some((p.0@, p.1@)),
        r is None ==> halves(text@, at_char) is None,
{
    match find_char(text, at_char) {
        None => None,
        Some(at) => {
            proof {
                assert(text@.contains(at_char));
                let chosen = choose|k: int| first_at(text@, at_char, k);
                crate::text::lemma_first_at_unique(text@, at_char, at as int, chosen);
            }
            assert(at < text.len());
            Some((slice_of(text, 0, at), slice_of(text, at + 1, text.len())))
        },
    }
}

/// One side of a size.
pub open spec fn size_side(key: Seq<char>, part: Seq<char>) -> Result<JsonView, Seq<char>> {
    match whole_of(trimmed(part)) {
        Some(v) => Ok(JsonView::Number(v)),
        None => Err(key + " wants a size, as in 870x650"@),
    }
}

/// A setting's value, read in its shape.
pub open spec fn setting_value_of(key: Seq<char>, text: Seq<char>, shape: Shape) -> Result<JsonView, Seq<char>> {
    match shape {
        Shape::Number => match whole_of(trimmed(text)) {
            Some(v) => Ok(JsonView::Number(v)),
            None => Err(key + " wants a whole number, not "@ + text),
        },
        Shape::Flag => {
            let word = lowercase_of(trimmed(text));
            if word == "true"@ || word == "on"@ || word == "yes"@ || word == "1"@ {
                Ok(JsonView::Bool(true))
            } else if word == "false"@ || word == "off"@ || word == "no"@ || word == "0"@ {
                Ok(JsonView::Bool(false))
            } else {
                Err(key + " wants on or off, not "@ + text)
            }
        },
        Shape::Word => Ok(JsonView::Text(lowercase_of(trimmed(text)))),
        Shape::Words => {
            let parts = comma_parts(text);
            if parts.len() == 0 {
                Err(key + " wants at least one day"@)
            } else {
                Ok(JsonView::List(lowered(parts)))
            }
        },
        Shape::Size => match halves(text, 'x') {
            None => Err(key + " wants a size, as in 870x650, not "@ + text),
            Some((width, height)) => match size_side(key, width) {
                Err(m) => Err(m),
                Ok(w) => match size_side(key, height) {
                    Err(m) => Err(m),
                    Ok(h) => Ok(JsonView::Object(seq![("width"@, w), ("height"@, h)])),
                },
            },
        },
    }
}

fn lower_chars(text: &[char]) -> (r: Vec<char>)
    ensures
        r@ == lowercase_of(text@),
{
    let s = string_of(text);
    let lower = lowercase(s.as_str());
    chars_of(lower.as_str())
}

fn whole(text: &[char]) -> (r: Option<i64>)
    ensures
        r matches Some(v) ==> whole_of(text@) == Some(v as int),
        r is None ==> whole_of(text@) is None,
{
    parse_i64(text)
}

fn side(key: &[char], part: &[char]) -> (r: Result<Json, Failure>)
    ensures
        r matches Ok(v) ==> size_side(key@, part@) == Ok::<JsonView, Seq<char>>(v@),
        r matches Err(f) ==> size_side(key@, part@) == Err::<JsonView, Seq<char>>(f.message@),
{
    match whole(trim(part).as_slice()) {
        Some(v) => Ok(Json::Number(v as i128)),
        None => Err(Failure::usage(string_of(said(key, " wants a size, as in 870x650").as_slice()))),
    }
}

pub(crate) fn setting_value(key: &[char], text: &[char], shape: Shape) -> (r: Result<Json, Failure>)
    ensures
        r matches Ok(v) ==> setting_value_of(key@, text@, shape) == Ok::<JsonView, Seq<char>>(v@),
        r matches Err(f) ==> setting_value_of(key@, text@, shape) == Err::<JsonView, Seq<char>>(f.message@),
{
    match shape {
        Shape::Number => match whole(trim(text).as_slice()) {
            Some(v) => Ok(Json::Number(v as i128)),
            None => {
                let mut message = said(key, " wants a whole number, not ");
                append_all(&mut message, text);
                Err(Failure::usage(string_of(message.as_slice())))
            },
        },
        Shape::Flag => {
            let word = lower_chars(trim(text).as_slice());
            let w = word.as_slice();
            if is(w, "true") || is(w, "on") || is(w, "yes") || is(w, "1") {
                Ok(Json::Bool(true))
            } else if is(w, "false") || is(w, "off") || is(w, "no") || is(w, "0") {
                Ok(Json::Bool(false))
            } else {
                let mut message = said(key, " wants on or off, not ");
                append_all(&mut message, text);
                Err(Failure::usage(string_of(message.as_slice())))
            }
        },
        Shape::Word => Ok(Json::Text(string_of(lower_chars(trim(text).as_slice()).as_slice()))),
        Shape::Words => {
            let mut parts: Vec<Vec<char>> = Vec::new();
            parts_of(text, &mut parts);
            assert(views(parts@) =~= comma_parts(text@));
            if parts.len() == 0 {
                return Err(Failure::usage(string_of(said(key, " wants at least one day").as_slice())));
            }
            let mut items: Vec<Json> = Vec::new();
            let mut i: usize = 0;
            proof {
                crate::cli::json::lemma_list_view(items@);
            }
            while i < parts.len()
                invariant
                    i <= parts@.len(),
                    views(parts@) == comma_parts(text@),
                    list_view(items@) == lowered(views(parts@).subrange(0, i as int)),
                decreases parts@.len() - i,
            {
                let ghost was = items@;
                items.push(Json::Text(string_of(lower_chars(parts[i].as_slice()).as_slice())));
                proof {
                    crate::cli::json::lemma_list_view_push(was, items@.last());
                    assert(lowered(views(parts@).subrange(0, i + 1)) =~= lowered(views(parts@).subrange(0, i as int)).push(JsonView::Text(lowercase_of(parts@[i as int]@))));
                }
                i = i + 1;
            }
            assert(views(parts@).subrange(0, parts@.len() as int) =~= views(parts@));
            Ok(Json::List(items))
        },
        Shape::Size => match split_once(text, 'x') {
            None => {
                let mut message = said(key, " wants a size, as in 870x650, not ");
                append_all(&mut message, text);
                Err(Failure::usage(string_of(message.as_slice())))
            },
            Some((width, height)) => {
                let w = match side(key, width.as_slice()) {
                    Err(f) => return Err(f),
                    Ok(w) => w,
                };
                let h = match side(key, height.as_slice()) {
                    Err(f) => return Err(f),
                    Ok(h) => h,
                };
                proof {
                    reveal_strlit("width");
                    reveal_strlit("height");
                    assert("width"@.len() != "height"@.len());
                }
                Ok(crate::cli::json::object2("width", w, "height", h))
            },
        },
    }
}

/// Where the setting named `key` is in the table, or its length.
pub open spec fn setting_at(table: Seq<(&'static str, Shape)>, key: Seq<char>) -> int
    decreases table.len(),
{
    if table.len() == 0 {
        0
    } else if table[0].0@ == key {
        0
    } else {
        1 + setting_at(table.drop_first(), key)
    }
}

proof fn lemma_setting_at(table: Seq<(&'static str, Shape)>, key: Seq<char>)
    ensures
        0 <= setting_at(table, key) <= table.len(),
        setting_at(table, key) < table.len() ==> table[setting_at(table, key)].0@ == key,
    decreases table.len(),
{
    if table.len() > 0 && table[0].0@ != key {
        lemma_setting_at(table.drop_first(), key);
    }
}

/// The names of the settings, in table order.
pub open spec fn setting_names() -> Seq<Seq<char>> {
    setting_table().map_values(|e: (&'static str, Shape)| e.0@)
}

/// The settings `KEY=VALUE` pairs set, read from `i` on into `out`.
pub open spec fn settings_from(pairs: Seq<Seq<char>>, i: int, out: Seq<(Seq<char>, JsonView)>) -> Result<Seq<(Seq<char>, JsonView)>, Seq<char>>
    decreases pairs.len() - i,
{
    if i < 0 || i >= pairs.len() {
        Ok(out)
    } else {
        match halves(pairs[i], '=') {
            None => Err(pairs[i] + " is not a KEY=VALUE"@),
            Some((key, text)) => {
                let at = setting_at(setting_table(), key);
                if at >= setting_table().len() {
                    Err(key + " is not a setting; the settings are "@ + joined(setting_names(), ", "@))
                } else if crate::cli::json::key_at(out, key) < out.len() {
                    Err(key + " is set twice"@)
                } else {
                    match setting_value_of(key, text, setting_table()[at].1) {
                        Err(m) => Err(m),
                        Ok(v) => settings_from(pairs, i + 1, put(out, key, v)),
                    }
                }
            },
        }
    }
}

/// The settings a command line sets, as one object, where it sets any.
pub open spec fn settings_of(pairs: Seq<Seq<char>>) -> Result<Option<JsonView>, Seq<char>> {
    if pairs.len() == 0 {
        Ok(None)
    } else {
        match settings_from(pairs, 0, Seq::empty()) {
            Err(m) => Err(m),
            Ok(fields) => Ok(Some(JsonView::Object(fields))),
        }
    }
}

fn settings_value(positionals: &[String]) -> (r: Result<Option<Json>, Failure>)
    ensures
        r matches Ok(Some(v)) ==> settings_of(words(positionals@)) == Ok::<Option<JsonView>, Seq<char>>(Some(v@)),
        r matches Ok(None) ==> settings_of(words(positionals@)) == Ok::<Option<JsonView>, Seq<char>>(None),
        r matches Err(f) ==> settings_of(words(positionals@)) == Err::<Option<JsonView>, Seq<char>>(f.message@),
{
    if positionals.len() == 0 {
        return Ok(None);
    }
    let ghost pairs = words(positionals@);
    let table = setting_shapes();
    let mut settings: Vec<(String, Json)> = Vec::new();
    proof {
        crate::cli::json::lemma_fields_view(settings@);
        assert(fields_view(settings@) =~= Seq::<(Seq<char>, JsonView)>::empty());
    }
    let mut i: usize = 0;
    while i < positionals.len()
        invariant
            pairs == words(positionals@),
            table@ == setting_table(),
            i <= positionals@.len(),
            settings_from(pairs, 0, Seq::empty()) == settings_from(pairs, i as int, fields_view(settings@)),
        decreases positionals@.len() - i,
    {
        let pair = chars_of(positionals[i].as_str());
        assert(pairs[i as int] == pair@);
        let (key, text) = match split_once(pair.as_slice(), '=') {
            None => {
                return Err(Failure::usage(string_of(said(pair.as_slice(), " is not a KEY=VALUE").as_slice())));
            },
            Some(halves) => halves,
        };
        proof {
            lemma_setting_at(setting_table(), key@);
        }
        let mut at: usize = 0;
        assert(table@.subrange(0, table@.len() as int) =~= table@);
        while at < table.len()
            invariant
                table@ == setting_table(),
                at <= table@.len(),
                setting_at(table@, key@) == at + setting_at(table@.subrange(at as int, table@.len() as int), key@),
            ensures
                at <= table@.len(),
                setting_at(table@, key@) == at + setting_at(table@.subrange(at as int, table@.len() as int), key@),
                at < table@.len() ==> table@[at as int].0@ == key@,
            decreases table@.len() - at,
        {
            let ghost rest = table@.subrange(at as int, table@.len() as int);
            assert(rest[0] == table@[at as int]);
            assert(rest.drop_first() =~= table@.subrange(at + 1, table@.len() as int));
            if is(key.as_slice(), table[at].0) {
                break;
            }
            at = at + 1;
        }
        if at >= table.len() {
            let mut names: Vec<Vec<char>> = Vec::new();
            let mut n: usize = 0;
            while n < table.len()
                invariant
                    table@ == setting_table(),
                    n <= table@.len(),
                    views(names@) == setting_names().subrange(0, n as int),
                decreases table@.len() - n,
            {
                let ghost was = names@;
                names.push(chars_of(table[n].0));
                proof {
                    crate::text::lemma_views_push(was, names@.last());
                    assert(views(names@) =~= setting_names().subrange(0, n + 1));
                }
                n = n + 1;
            }
            assert(setting_names().subrange(0, table@.len() as int) =~= setting_names());
            let mut message = said(key.as_slice(), " is not a setting; the settings are ");
            append_all(&mut message, join_with(&names, ", ").as_slice());
            return Err(Failure::usage(string_of(message.as_slice())));
        }
        proof {
            let rest = table@.subrange(at as int, table@.len() as int);
            assert(rest[0] == table@[at as int]);
        }
        assert(setting_at(setting_table(), key@) == at);
        let key_text = string_of(key.as_slice());
        if crate::cli::json::has_key(&settings, key.as_slice()) {
            let message = said(key.as_slice(), " is set twice");
            return Err(Failure::usage(string_of(message.as_slice())));
        }
        let value = match setting_value(key.as_slice(), text.as_slice(), table[at].1) {
            Err(f) => return Err(f),
            Ok(v) => v,
        };
        insert(&mut settings, key_text.as_str(), value);
        i = i + 1;
    }
    Ok(Some(Json::Object(settings)))
}

// ---- rules ----------------------------------------------------------

/// A text with every `w` and `W` at its end taken off.
pub open spec fn without_weeks(s: Seq<char>) -> Seq<char>
    decreases s.len(),
{
    if s.len() > 0 && (s.last() == 'w' || s.last() == 'W') {
        without_weeks(s.drop_last())
    } else {
        s
    }
}

fn strip_weeks(s: &[char]) -> (r: Vec<char>)
    ensures
        r@ == without_weeks(s@),
{
    let mut n = s.len();
    assert(s@.subrange(0, s@.len() as int) =~= s@);
    while n > 0 && (s[n - 1] == 'w' || s[n - 1] == 'W')
        invariant
            n <= s@.len(),
            without_weeks(s@) == without_weeks(s@.subrange(0, n as int)),
        decreases n,
    {
        assert(s@.subrange(0, n as int).drop_last() =~= s@.subrange(0, n - 1));
        n = n - 1;
    }
    slice_of(s, 0, n)
}

/// A repeat rule that cannot be read, with what is wrong with it.
pub open spec fn wrong_rule(text: Seq<char>, what: Seq<char>) -> Seq<char> {
    text + " is not a repeat rule: "@ + what
}

/// A repeat rule, written the short way a command line writes one.
pub open spec fn rule_of(written: Seq<char>) -> Result<JsonView, Seq<char>> {
    let text = trimmed(written);
    let (kind, rest) = match halves(text, ':') {
        Some((k, r)) => (lowercase_of(trimmed(k)), trimmed(r)),
        None => (lowercase_of(text), Seq::<char>::empty()),
    };
    if kind == "workdays"@ || kind == "work-days"@ || kind == "work_days"@ || kind == "weekdays"@ {
        Ok(JsonView::Object(seq![("kind"@, JsonView::Text("workdays"@))]))
    } else if kind == "daily"@ || kind == "every-day"@ || kind == "everyday"@ {
        Ok(JsonView::Object(seq![("kind"@, JsonView::Text("daily"@))]))
    } else if kind == "weekly"@ {
        let days = comma_parts(rest);
        if days.len() == 0 {
            Err(wrong_rule(text, "weekly wants weekdays, as in weekly:mon,thu"@))
        } else {
            Ok(JsonView::Object(seq![("kind"@, JsonView::Text("weekly"@)), ("weekdays"@, JsonView::List(lowered(days)))]))
        }
    } else if kind == "monthly"@ {
        if same_ignoring_ascii_case(rest, "last"@) {
            Ok(JsonView::Object(seq![("kind"@, JsonView::Text("monthly"@)), ("day"@, JsonView::Text("last"@))]))
        } else {
            match whole_of(rest) {
                None => Err(wrong_rule(text, "monthly wants a day of the month, as in monthly:15"@)),
                Some(day) => Ok(JsonView::Object(seq![("kind"@, JsonView::Text("monthly"@)), ("day"@, JsonView::Number(day))])),
            }
        }
    } else if kind == "every"@ {
        match halves(rest, ':') {
            None => Err(wrong_rule(text, "every wants weeks and a day to count from, as in every:2w:2026-09-15"@)),
            Some((weeks, from)) => match whole_of(without_weeks(trimmed(weeks))) {
                None => Err(wrong_rule(text, "every wants a number of weeks, as in every:2w:2026-09-15"@)),
                Some(n) => Ok(JsonView::Object(seq![
                    ("kind"@, JsonView::Text("every_n_weeks"@)),
                    ("n"@, JsonView::Number(n)),
                    ("from"@, JsonView::Text(trimmed(from))),
                ])),
            },
        }
    } else {
        Err(wrong_rule(text, "the rules are workdays, daily, weekly:mon,thu, monthly:15, monthly:last and every:2w:DATE"@))
    }
}

fn wrong(text: &[char], what: &str) -> (f: Failure)
    ensures
        f.message@ == wrong_rule(text@, what@),
{
    let mut message = said(text, " is not a repeat rule: ");
    append_str(&mut message, what);
    Failure::usage(string_of(message.as_slice()))
}

/// A repeat rule, written the short way a command line writes one.
pub fn rule_value(written: &str) -> (r: Result<Json, Failure>)
    ensures
        r matches Ok(v) ==> rule_of(written@) == Ok::<JsonView, Seq<char>>(v@),
        r matches Err(f) ==> rule_of(written@) == Err::<JsonView, Seq<char>>(f.message@),
{
    proof {
        reveal_strlit("kind");
        reveal_strlit("weekdays");
        reveal_strlit("day");
        reveal_strlit("n");
        reveal_strlit("from");
        assert("kind"@.len() != "weekdays"@.len());
        assert("kind"@.len() != "day"@.len());
        assert("kind"@[0] != "from"@[0]);
    }
    let line = trim(chars_of(written).as_slice());
    let (kind, rest) = match split_once(line.as_slice(), ':') {
        Some((k, r)) => (lower_chars(trim(k.as_slice()).as_slice()), trim(r.as_slice())),
        None => (lower_chars(line.as_slice()), Vec::new()),
    };
    let k = kind.as_slice();
    if is(k, "workdays") || is(k, "work-days") || is(k, "work_days") || is(k, "weekdays") {
        return Ok(crate::cli::json::object1("kind", text("workdays")));
    }
    if is(k, "daily") || is(k, "every-day") || is(k, "everyday") {
        return Ok(crate::cli::json::object1("kind", text("daily")));
    }
    if is(k, "weekly") {
        let mut days: Vec<Vec<char>> = Vec::new();
        parts_of(rest.as_slice(), &mut days);
        assert(views(days@) =~= comma_parts(rest@));
        if days.len() == 0 {
            return Err(wrong(line.as_slice(), "weekly wants weekdays, as in weekly:mon,thu"));
        }
        let mut items: Vec<Json> = Vec::new();
        let mut i: usize = 0;
        proof {
            crate::cli::json::lemma_list_view(items@);
        }
        while i < days.len()
            invariant
                i <= days@.len(),
                views(days@) == comma_parts(rest@),
                list_view(items@) == lowered(views(days@).subrange(0, i as int)),
            decreases days@.len() - i,
        {
            let ghost was = items@;
            items.push(Json::Text(string_of(lower_chars(days[i].as_slice()).as_slice())));
            proof {
                crate::cli::json::lemma_list_view_push(was, items@.last());
                assert(lowered(views(days@).subrange(0, i + 1)) =~= lowered(views(days@).subrange(0, i as int)).push(JsonView::Text(lowercase_of(days@[i as int]@))));
            }
            i = i + 1;
        }
        assert(views(days@).subrange(0, days@.len() as int) =~= views(days@));
        return Ok(crate::cli::json::object2("kind", text("weekly"), "weekdays", Json::List(items)));
    }
    if is(k, "monthly") {
        if eq_ignore_ascii_case(rest.as_slice(), "last") {
            return Ok(crate::cli::json::object2("kind", text("monthly"), "day", text("last")));
        }
        return match whole(rest.as_slice()) {
            None => Err(wrong(line.as_slice(), "monthly wants a day of the month, as in monthly:15")),
            Some(day) => Ok(crate::cli::json::object2("kind", text("monthly"), "day", Json::Number(day as i128))),
        };
    }
    if is(k, "every") {
        return match split_once(rest.as_slice(), ':') {
            None => Err(wrong(line.as_slice(), "every wants weeks and a day to count from, as in every:2w:2026-09-15")),
            Some((weeks, from)) => match whole(strip_weeks(trim(weeks.as_slice()).as_slice()).as_slice()) {
                None => Err(wrong(line.as_slice(), "every wants a number of weeks, as in every:2w:2026-09-15")),
                Some(n) => Ok(crate::cli::json::object3(
                    "kind",
                    text("every_n_weeks"),
                    "n",
                    Json::Number(n as i128),
                    "from",
                    Json::Text(string_of(trim(from.as_slice()).as_slice())),
                )),
            },
        };
    }
    Err(wrong(line.as_slice(), "the rules are workdays, daily, weekly:mon,thu, monthly:15, monthly:last and every:2w:DATE"))
}

// ---- from a command line to a request body --------------------------

/// The fields of an object, as the request is built.
pub type Fields = Seq<(Seq<char>, JsonView)>;

/// What a command wants that it was not given.
pub open spec fn want(name: Seq<char>, wanted: Seq<char>) -> Seq<char> {
    name + " wants "@ + wanted
}

fn wants(name: &str, wanted: &str) -> (f: Failure)
    ensures
        f.message@ == want(name@, wanted@),
{
    let mut message = chars_of(name);
    append_str(&mut message, " wants ");
    append_str(&mut message, wanted);
    Failure::usage(string_of(message.as_slice()))
}

/// A piece the command needs: here, coming in a `--input` body, or
/// missing and said so.
pub open spec fn needed_of<T>(got: Option<T>, input: bool, missing: Seq<char>) -> Result<Option<T>, Seq<char>> {
    match got {
        Some(v) => Ok(Some(v)),
        None => if input { Ok(None) } else { Err(missing) },
    }
}

/// An object's fields with a flag set where its option was given.
pub open spec fn flag_put(options: Opts, option: Seq<char>, field: Seq<char>, out: Fields) -> Fields {
    if given(options, option) {
        put(out, field, JsonView::Bool(true))
    } else {
        out
    }
}

fn put_flag(options: &[Given], option: &str, field: &str, out: &mut Vec<(String, Json)>)
    ensures
        fields_view(final(out)@) == flag_put(opts(options@), option@, field@, fields_view(old(out)@)),
{
    if present(options, option) {
        insert(out, field, Json::Bool(true));
    }
}

/// An object's fields with the one id a command takes, as `id`, where it
/// was given; missing is refused unless a body is coming.
pub open spec fn id_put(name: Seq<char>, positionals: Seq<Seq<char>>, input: bool, wanted: Seq<char>, out: Fields) -> Result<Fields, Seq<char>> {
    match one_of(name, positionals) {
        Err(m) => Err(m),
        Ok(only) => match needed_of(only, input, want(name, wanted)) {
            Err(m) => Err(m),
            Ok(None) => Ok(out),
            Ok(Some(text)) => match id_of(text) {
                Err(m) => Err(m),
                Ok(v) => Ok(put(out, "id"@, v)),
            },
        },
    }
}

fn put_id(name: &str, positionals: &[String], input: bool, wanted: &str, out: &mut Vec<(String, Json)>) -> (r: Result<(), Failure>)
    ensures
        r matches Ok(_) ==> id_put(name@, words(positionals@), input, wanted@, fields_view(old(out)@)) == Ok::<Fields, Seq<char>>(fields_view(final(out)@)),
        r matches Err(f) ==> id_put(name@, words(positionals@), input, wanted@, fields_view(old(out)@)) == Err::<Fields, Seq<char>>(f.message@),
{
    let only = match one(name, positionals) {
        Err(f) => return Err(f),
        Ok(o) => o,
    };
    match only {
        None => if input {
            Ok(())
        } else {
            Err(wants(name, wanted))
        },
        Some(text) => match id(text.as_slice()) {
            Err(f) => Err(f),
            Ok(v) => {
                insert(out, "id", v);
                Ok(())
            },
        },
    }
}

/// An object's fields with the place the options name, where they name
/// one.
pub open spec fn place_put(options: Opts, name: Seq<char>, out: Fields) -> Result<Fields, Seq<char>> {
    match place_of(options, name) {
        Err(m) => Err(m),
        Ok(Some(place)) => Ok(put(out, "place"@, place)),
        Ok(None) => Ok(out),
    }
}

fn put_place(options: &[Given], name: &str, out: &mut Vec<(String, Json)>) -> (r: Result<(), Failure>)
    ensures
        r matches Ok(_) ==> place_put(opts(options@), name@, fields_view(old(out)@)) == Ok::<Fields, Seq<char>>(fields_view(final(out)@)),
        r matches Err(f) ==> place_put(opts(options@), name@, fields_view(old(out)@)) == Err::<Fields, Seq<char>>(f.message@),
{
    match place_asked(options, name) {
        Err(f) => Err(f),
        Ok(Some(place)) => {
            insert(out, "place", place);
            Ok(())
        },
        Ok(None) => Ok(()),
    }
}

/// An object's fields with a text option's value, where it was given.
pub open spec fn text_put(options: Opts, option: Seq<char>, field: Seq<char>, out: Fields) -> Result<Fields, Seq<char>> {
    match single_of(options, option) {
        Err(m) => Err(m),
        Ok(Some(t)) => Ok(put(out, field, JsonView::Text(t))),
        Ok(None) => Ok(out),
    }
}

fn put_text(options: &[Given], option: &str, field: &str, out: &mut Vec<(String, Json)>) -> (r: Result<(), Failure>)
    ensures
        r matches Ok(_) ==> text_put(opts(options@), option@, field@, fields_view(old(out)@)) == Ok::<Fields, Seq<char>>(fields_view(final(out)@)),
        r matches Err(f) ==> text_put(opts(options@), option@, field@, fields_view(old(out)@)) == Err::<Fields, Seq<char>>(f.message@),
{
    match single(options, option) {
        Err(f) => Err(f),
        Ok(Some(t)) => {
            insert(out, field, Json::Text(t));
            Ok(())
        },
        Ok(None) => Ok(()),
    }
}

/// An object's fields with a position option's value, where it was given.
pub open spec fn position_put(options: Opts, option: Seq<char>, field: Seq<char>, out: Fields) -> Result<Fields, Seq<char>> {
    match single_of(options, option) {
        Err(m) => Err(m),
        Ok(Some(t)) => match position_of(t) {
            Err(m) => Err(m),
            Ok(v) => Ok(put(out, field, v)),
        },
        Ok(None) => Ok(out),
    }
}

fn put_position(options: &[Given], option: &str, field: &str, out: &mut Vec<(String, Json)>) -> (r: Result<(), Failure>)
    ensures
        r matches Ok(_) ==> position_put(opts(options@), option@, field@, fields_view(old(out)@)) == Ok::<Fields, Seq<char>>(fields_view(final(out)@)),
        r matches Err(f) ==> position_put(opts(options@), option@, field@, fields_view(old(out)@)) == Err::<Fields, Seq<char>>(f.message@),
{
    match single(options, option) {
        Err(f) => Err(f),
        Ok(Some(t)) => match position(chars_of(t.as_str()).as_slice()) {
            Err(f) => Err(f),
            Ok(v) => {
                insert(out, field, v);
                Ok(())
            },
        },
        Ok(None) => Ok(()),
    }
}

/// An object's fields with the ids the arguments name, where they name
/// any; none is refused unless a body is coming.
pub open spec fn ids_put(name: Seq<char>, positionals: Seq<Seq<char>>, input: bool, out: Fields) -> Result<Fields, Seq<char>> {
    match ids_of(positionals) {
        Err(m) => Err(m),
        Ok(found) => match needed_of(found, input, want(name, "at least one task id"@)) {
            Err(m) => Err(m),
            Ok(None) => Ok(out),
            Ok(Some(v)) => Ok(put(out, "ids"@, v)),
        },
    }
}

fn put_ids(name: &str, positionals: &[String], input: bool, out: &mut Vec<(String, Json)>) -> (r: Result<(), Failure>)
    ensures
        r matches Ok(_) ==> ids_put(name@, words(positionals@), input, fields_view(old(out)@)) == Ok::<Fields, Seq<char>>(fields_view(final(out)@)),
        r matches Err(f) ==> ids_put(name@, words(positionals@), input, fields_view(old(out)@)) == Err::<Fields, Seq<char>>(f.message@),
{
    match ids(positionals) {
        Err(f) => Err(f),
        Ok(Some(v)) => {
            insert(out, "ids", v);
            Ok(())
        },
        Ok(None) => if input {
            Ok(())
        } else {
            Err(wants(name, "at least one task id"))
        },
    }
}

/// `task list`: a place, a state, and whether only focus or waiting
/// tasks.
pub open spec fn task_list_of(name: Seq<char>, options: Opts, positionals: Seq<Seq<char>>, input: bool, out: Fields) -> Result<Fields, Seq<char>> {
    match no_positionals_of(name, positionals) {
        Err(m) => Err(m),
        Ok(_) => match place_put(options, name, out) {
            Err(m) => Err(m),
            Ok(out) => match state_of(options) {
                Err(m) => Err(m),
                Ok(state) => {
                    let out = match state {
                        Some(st) => put(out, "state"@, JsonView::Text(st)),
                        None => out,
                    };
                    Ok(flag_put(options, "--waiting"@, "waiting"@, flag_put(options, "--focus"@, "focus"@, out)))
                },
            },
        },
    }
}

fn task_list(name: &str, options: &[Given], positionals: &[String], input: bool, out: &mut Vec<(String, Json)>) -> (r: Result<(), Failure>)
    ensures
        r matches Ok(_) ==> task_list_of(name@, opts(options@), words(positionals@), input, fields_view(old(out)@)) == Ok::<Fields, Seq<char>>(fields_view(final(out)@)),
        r matches Err(e) ==> task_list_of(name@, opts(options@), words(positionals@), input, fields_view(old(out)@)) == Err::<Fields, Seq<char>>(e.message@),
{
    match no_positionals(name, positionals) {
        Err(f) => return Err(f),
        Ok(_) => {},
    }
    match put_place(options, name, out) {
        Err(f) => return Err(f),
        Ok(_) => {},
    }
    match state_asked(options) {
        Err(f) => return Err(f),
        Ok(Some(st)) => insert(out, "state", Json::Text(string_of(st.as_slice()))),
        Ok(None) => {},
    }
    put_flag(options, "--focus", "focus", out);
    put_flag(options, "--waiting", "waiting", out);
    Ok(())
}

/// The place a new task goes to: the one named, or the backlog where
/// none is and no body is coming to name one.
pub open spec fn new_place_put(options: Opts, name: Seq<char>, input: bool, out: Fields) -> Result<Fields, Seq<char>> {
    match place_of(options, name) {
        Err(m) => Err(m),
        Ok(Some(place)) => Ok(put(out, "place"@, place)),
        Ok(None) => if !input { Ok(put(out, "place"@, backlog_place())) } else { Ok(out) },
    }
}

/// `task add`: a title, and everything the task should start with.
pub open spec fn task_add_of(name: Seq<char>, options: Opts, positionals: Seq<Seq<char>>, input: bool, out: Fields) -> Result<Fields, Seq<char>> {
    let title = match needed_of(all_of(positionals), input, want(name, "a title"@)) {
        Err(m) => Err(m),
        Ok(Some(t)) => Ok(put(out, "title"@, JsonView::Text(t))),
        Ok(None) => Ok(out),
    };
    match title {
        Err(m) => Err(m),
        Ok(out) => match new_place_put(options, name, input, out) {
            Err(m) => Err(m),
            Ok(out) => {
                let out = flag_put(options, "--waiting"@, "waiting"@, flag_put(options, "--focus"@, "focus"@, out));
                match date_option_of(options, "--due"@, "due"@, out) {
                    Err(m) => Err(m),
                    Ok(out) => match date_option_of(options, "--remind"@, "remind"@, out) {
                        Err(m) => Err(m),
                        Ok(out) => {
                            let repeat = match single_of(options, "--repeat"@) {
                                Err(m) => Err(m),
                                Ok(None) => Ok(out),
                                Ok(Some(t)) => match rule_of(t) {
                                    Err(m) => Err(m),
                                    Ok(rule) => Ok(put(out, "repeat"@, rule)),
                                },
                            };
                            match repeat {
                                Err(m) => Err(m),
                                Ok(out) => match where_of(options, out) {
                                    Err(m) => Err(m),
                                    Ok((_, out)) => Ok(out),
                                },
                            }
                        },
                    },
                }
            },
        },
    }
}

fn task_add(name: &str, options: &[Given], positionals: &[String], input: bool, out: &mut Vec<(String, Json)>) -> (r: Result<(), Failure>)
    ensures
        r matches Ok(_) ==> task_add_of(name@, opts(options@), words(positionals@), input, fields_view(old(out)@)) == Ok::<Fields, Seq<char>>(fields_view(final(out)@)),
        r matches Err(e) ==> task_add_of(name@, opts(options@), words(positionals@), input, fields_view(old(out)@)) == Err::<Fields, Seq<char>>(e.message@),
{
    match all_words(positionals) {
        Some(t) => insert(out, "title", Json::Text(string_of(t.as_slice()))),
        None => if !input {
            return Err(wants(name, "a title"));
        },
    }
    match place_asked(options, name) {
        Err(f) => return Err(f),
        Ok(Some(place)) => insert(out, "place", place),
        Ok(None) => if !input {
            insert(out, "place", backlog());
        },
    }
    put_flag(options, "--focus", "focus", out);
    put_flag(options, "--waiting", "waiting", out);
    match date_option(options, "--due", "due", out) {
        Err(f) => return Err(f),
        Ok(_) => {},
    }
    match date_option(options, "--remind", "remind", out) {
        Err(f) => return Err(f),
        Ok(_) => {},
    }
    match single(options, "--repeat") {
        Err(f) => return Err(f),
        Ok(Some(t)) => match rule_value(t.as_str()) {
            Err(f) => return Err(f),
            Ok(rule) => insert(out, "repeat", rule),
        },
        Ok(None) => {},
    }
    match where_in_place(options, out) {
        Err(f) => Err(f),
        Ok(_) => Ok(()),
    }
}

/// `task update`: one task, any number of its properties.
pub open spec fn task_update_of(name: Seq<char>, options: Opts, positionals: Seq<Seq<char>>, input: bool, out: Fields) -> Result<Fields, Seq<char>> {
    match id_put(name, positionals, input, "a task id"@, out) {
        Err(m) => Err(m),
        Ok(out) => match text_put(options, "--title"@, "title"@, out) {
            Err(m) => Err(m),
            Ok(out) => match scope_of(options) {
                Err(m) => Err(m),
                Ok(scope) => {
                    let out = match scope {
                        Some(sc) => put(out, "title_scope"@, JsonView::Text(sc)),
                        None => out,
                    };
                    match place_put(options, name, out) {
                        Err(m) => Err(m),
                        Ok(out) => match two_ways_of(options, "--focus"@, "--no-focus"@, "focus"@, out) {
                            Err(m) => Err(m),
                            Ok(out) => match two_ways_of(options, "--waiting"@, "--no-waiting"@, "waiting"@, out) {
                                Err(m) => Err(m),
                                Ok(out) => match date_or_cleared_of(options, "--due"@, "--clear-due"@, "due"@, out) {
                                    Err(m) => Err(m),
                                    Ok(out) => match date_or_cleared_of(options, "--remind"@, "--clear-remind"@, "remind"@, out) {
                                        Err(m) => Err(m),
                                        Ok(out) => position_put(options, "--position"@, "position"@, out),
                                    },
                                },
                            },
                        },
                    }
                },
            },
        },
    }
}

fn task_update(name: &str, options: &[Given], positionals: &[String], input: bool, out: &mut Vec<(String, Json)>) -> (r: Result<(), Failure>)
    ensures
        r matches Ok(_) ==> task_update_of(name@, opts(options@), words(positionals@), input, fields_view(old(out)@)) == Ok::<Fields, Seq<char>>(fields_view(final(out)@)),
        r matches Err(e) ==> task_update_of(name@, opts(options@), words(positionals@), input, fields_view(old(out)@)) == Err::<Fields, Seq<char>>(e.message@),
{
    match put_id(name, positionals, input, "a task id", out) {
        Err(f) => return Err(f),
        Ok(_) => {},
    }
    match put_text(options, "--title", "title", out) {
        Err(f) => return Err(f),
        Ok(_) => {},
    }
    match scope_asked(options) {
        Err(f) => return Err(f),
        Ok(Some(sc)) => insert(out, "title_scope", Json::Text(string_of(sc.as_slice()))),
        Ok(None) => {},
    }
    match put_place(options, name, out) {
        Err(f) => return Err(f),
        Ok(_) => {},
    }
    match two_ways(options, "--focus", "--no-focus", "focus", out) {
        Err(f) => return Err(f),
        Ok(_) => {},
    }
    match two_ways(options, "--waiting", "--no-waiting", "waiting", out) {
        Err(f) => return Err(f),
        Ok(_) => {},
    }
    match date_or_cleared(options, "--due", "--clear-due", "due", out) {
        Err(f) => return Err(f),
        Ok(_) => {},
    }
    match date_or_cleared(options, "--remind", "--clear-remind", "remind", out) {
        Err(f) => return Err(f),
        Ok(_) => {},
    }
    put_position(options, "--position", "position", out)
}

/// `task rename`: an id and a title, and whether the rename is for the
/// future copies too.
pub open spec fn task_rename_of(name: Seq<char>, options: Opts, positionals: Seq<Seq<char>>, input: bool, out: Fields) -> Result<Fields, Seq<char>> {
    let named = match needed_of(at_least_two_of(positionals), input, want(name, "a task id and a title"@)) {
        Err(m) => Err(m),
        Ok(None) => Ok(out),
        Ok(Some((first, rest))) => match id_of(first) {
            Err(m) => Err(m),
            Ok(v) => Ok(put(put(out, "id"@, v), "title"@, JsonView::Text(rest))),
        },
    };
    match named {
        Err(m) => Err(m),
        Ok(out) => match scope_of(options) {
            Err(m) => Err(m),
            Ok(Some(sc)) => Ok(put(out, "title_scope"@, JsonView::Text(sc))),
            Ok(None) => Ok(out),
        },
    }
}

fn task_rename(name: &str, options: &[Given], positionals: &[String], input: bool, out: &mut Vec<(String, Json)>) -> (r: Result<(), Failure>)
    ensures
        r matches Ok(_) ==> task_rename_of(name@, opts(options@), words(positionals@), input, fields_view(old(out)@)) == Ok::<Fields, Seq<char>>(fields_view(final(out)@)),
        r matches Err(e) ==> task_rename_of(name@, opts(options@), words(positionals@), input, fields_view(old(out)@)) == Err::<Fields, Seq<char>>(e.message@),
{
    match at_least_two(positionals) {
        None => if !input {
            return Err(wants(name, "a task id and a title"));
        },
        Some((first, rest)) => match id(first.as_slice()) {
            Err(f) => return Err(f),
            Ok(v) => {
                insert(out, "id", v);
                insert(out, "title", Json::Text(string_of(rest.as_slice())));
            },
        },
    }
    match scope_asked(options) {
        Err(f) => Err(f),
        Ok(Some(sc)) => {
            insert(out, "title_scope", Json::Text(string_of(sc.as_slice())));
            Ok(())
        },
        Ok(None) => Ok(()),
    }
}

/// `task focus`, `task unfocus`, `task waiting` and `task unwait`: an id
/// and the flag they set.
pub open spec fn task_flag_of(name: Seq<char>, positionals: Seq<Seq<char>>, input: bool, field: Seq<char>, on: bool, out: Fields) -> Result<Fields, Seq<char>> {
    match id_put(name, positionals, input, "a task id"@, out) {
        Err(m) => Err(m),
        Ok(out) => Ok(put(out, field, JsonView::Bool(on))),
    }
}

fn task_flag(name: &str, positionals: &[String], input: bool, field: &str, on: bool, out: &mut Vec<(String, Json)>) -> (r: Result<(), Failure>)
    ensures
        r matches Ok(_) ==> task_flag_of(name@, words(positionals@), input, field@, on, fields_view(old(out)@)) == Ok::<Fields, Seq<char>>(fields_view(final(out)@)),
        r matches Err(e) ==> task_flag_of(name@, words(positionals@), input, field@, on, fields_view(old(out)@)) == Err::<Fields, Seq<char>>(e.message@),
{
    match put_id(name, positionals, input, "a task id", out) {
        Err(f) => return Err(f),
        Ok(_) => {},
    }
    insert(out, field, Json::Bool(on));
    Ok(())
}

/// `task due` and `task remind`: an id and a date, or a word that clears
/// it.
pub open spec fn task_date_of(name: Seq<char>, positionals: Seq<Seq<char>>, input: bool, field: Seq<char>, out: Fields) -> Result<Fields, Seq<char>> {
    match needed_of(at_least_two_of(positionals), input, want(name, "a task id and a date"@)) {
        Err(m) => Err(m),
        Ok(None) => Ok(out),
        Ok(Some((first, rest))) => match id_of(first) {
            Err(m) => Err(m),
            Ok(v) => Ok(put(put(out, "id"@, v), field, date_value(rest))),
        },
    }
}

fn task_date(name: &str, positionals: &[String], input: bool, field: &str, out: &mut Vec<(String, Json)>) -> (r: Result<(), Failure>)
    ensures
        r matches Ok(_) ==> task_date_of(name@, words(positionals@), input, field@, fields_view(old(out)@)) == Ok::<Fields, Seq<char>>(fields_view(final(out)@)),
        r matches Err(e) ==> task_date_of(name@, words(positionals@), input, field@, fields_view(old(out)@)) == Err::<Fields, Seq<char>>(e.message@),
{
    match at_least_two(positionals) {
        None => if !input {
            Err(wants(name, "a task id and a date"))
        } else {
            Ok(())
        },
        Some((first, rest)) => match id(first.as_slice()) {
            Err(f) => Err(f),
            Ok(v) => {
                insert(out, "id", v);
                insert(out, field, a_date(rest.as_slice()));
                Ok(())
            },
        },
    }
}

/// `task move`: the ids, and somewhere to move them to.
pub open spec fn task_move_of(name: Seq<char>, options: Opts, positionals: Seq<Seq<char>>, input: bool, out: Fields) -> Result<Fields, Seq<char>> {
    match ids_put(name, positionals, input, out) {
        Err(m) => Err(m),
        Ok(out) => match place_of(options, name) {
            Err(m) => Err(m),
            Ok(place) => match needed_of(place, input, want(name, "somewhere to move to, as in --to today"@)) {
                Err(m) => Err(m),
                Ok(None) => Ok(out),
                Ok(Some(p)) => Ok(put(out, "place"@, p)),
            },
        },
    }
}

fn task_move(name: &str, options: &[Given], positionals: &[String], input: bool, out: &mut Vec<(String, Json)>) -> (r: Result<(), Failure>)
    ensures
        r matches Ok(_) ==> task_move_of(name@, opts(options@), words(positionals@), input, fields_view(old(out)@)) == Ok::<Fields, Seq<char>>(fields_view(final(out)@)),
        r matches Err(e) ==> task_move_of(name@, opts(options@), words(positionals@), input, fields_view(old(out)@)) == Err::<Fields, Seq<char>>(e.message@),
{
    match put_ids(name, positionals, input, out) {
        Err(f) => return Err(f),
        Ok(_) => {},
    }
    match place_asked(options, name) {
        Err(f) => Err(f),
        Ok(Some(p)) => {
            insert(out, "place", p);
            Ok(())
        },
        Ok(None) => if input {
            Ok(())
        } else {
            Err(wants(name, "somewhere to move to, as in --to today"))
        },
    }
}

/// `task reorder`: an id, and one of the ways to say where.
pub open spec fn task_reorder_of(name: Seq<char>, options: Opts, positionals: Seq<Seq<char>>, input: bool, out: Fields) -> Result<Fields, Seq<char>> {
    match id_put(name, positionals, input, "a task id"@, out) {
        Err(m) => Err(m),
        Ok(out) => match where_of(options, out) {
            Err(m) => Err(m),
            Ok((any, out)) => if !any && !input {
                Err(want(name, "one of --position, --before, --after or --top"@))
            } else {
                Ok(out)
            },
        },
    }
}

fn task_reorder(name: &str, options: &[Given], positionals: &[String], input: bool, out: &mut Vec<(String, Json)>) -> (r: Result<(), Failure>)
    ensures
        r matches Ok(_) ==> task_reorder_of(name@, opts(options@), words(positionals@), input, fields_view(old(out)@)) == Ok::<Fields, Seq<char>>(fields_view(final(out)@)),
        r matches Err(e) ==> task_reorder_of(name@, opts(options@), words(positionals@), input, fields_view(old(out)@)) == Err::<Fields, Seq<char>>(e.message@),
{
    match put_id(name, positionals, input, "a task id", out) {
        Err(f) => return Err(f),
        Ok(_) => {},
    }
    match where_in_place(options, out) {
        Err(f) => Err(f),
        Ok(any) => if !any && !input {
            Err(wants(name, "one of --position, --before, --after or --top"))
        } else {
            Ok(())
        },
    }
}

/// `task delete`: the ids, and whether the deletion is confirmed here.
pub open spec fn task_delete_of(name: Seq<char>, options: Opts, positionals: Seq<Seq<char>>, input: bool, out: Fields) -> Result<Fields, Seq<char>> {
    match ids_put(name, positionals, input, out) {
        Err(m) => Err(m),
        Ok(out) => Ok(flag_put(options, "--yes"@, "confirm"@, out)),
    }
}

fn task_delete(name: &str, options: &[Given], positionals: &[String], input: bool, out: &mut Vec<(String, Json)>) -> (r: Result<(), Failure>)
    ensures
        r matches Ok(_) ==> task_delete_of(name@, opts(options@), words(positionals@), input, fields_view(old(out)@)) == Ok::<Fields, Seq<char>>(fields_view(final(out)@)),
        r matches Err(e) ==> task_delete_of(name@, opts(options@), words(positionals@), input, fields_view(old(out)@)) == Err::<Fields, Seq<char>>(e.message@),
{
    match put_ids(name, positionals, input, out) {
        Err(f) => return Err(f),
        Ok(_) => {},
    }
    put_flag(options, "--yes", "confirm", out);
    Ok(())
}

/// `day get`: the day, where one is written.
pub open spec fn day_get_of(name: Seq<char>, options: Opts, positionals: Seq<Seq<char>>, input: bool, out: Fields) -> Result<Fields, Seq<char>> {
    match one_of(name, positionals) {
        Err(m) => Err(m),
        Ok(Some(d)) => Ok(put(out, "day"@, JsonView::Text(d))),
        Ok(None) => Ok(out),
    }
}

fn day_get(name: &str, options: &[Given], positionals: &[String], input: bool, out: &mut Vec<(String, Json)>) -> (r: Result<(), Failure>)
    ensures
        r matches Ok(_) ==> day_get_of(name@, opts(options@), words(positionals@), input, fields_view(old(out)@)) == Ok::<Fields, Seq<char>>(fields_view(final(out)@)),
        r matches Err(e) ==> day_get_of(name@, opts(options@), words(positionals@), input, fields_view(old(out)@)) == Err::<Fields, Seq<char>>(e.message@),
{
    match one(name, positionals) {
        Err(f) => Err(f),
        Ok(Some(d)) => {
            insert(out, "day", Json::Text(string_of(d.as_slice())));
            Ok(())
        },
        Ok(None) => Ok(()),
    }
}

/// An object's fields with the whole order of a place, where it is given;
/// missing is refused unless a body is coming.
pub open spec fn order_put(options: Opts, name: Seq<char>, input: bool, out: Fields) -> Result<(bool, Fields), Seq<char>> {
    match order_of(options) {
        Err(m) => Err(m),
        Ok(order) => match needed_of(order, input, want(name, "the whole order, as in --order 3,1,2"@)) {
            Err(m) => Err(m),
            Ok(None) => Ok((false, out)),
            Ok(Some(v)) => Ok((true, put(out, "ids"@, v))),
        },
    }
}

fn put_order(options: &[Given], name: &str, input: bool, out: &mut Vec<(String, Json)>) -> (r: Result<bool, Failure>)
    ensures
        r matches Ok(any) ==> order_put(opts(options@), name@, input, fields_view(old(out)@)) == Ok::<(bool, Fields), Seq<char>>((any, fields_view(final(out)@))),
        r matches Err(e) ==> order_put(opts(options@), name@, input, fields_view(old(out)@)) == Err::<(bool, Fields), Seq<char>>(e.message@),
{
    match order_asked(options) {
        Err(f) => Err(f),
        Ok(Some(v)) => {
            insert(out, "ids", v);
            Ok(true)
        },
        Ok(None) => if input {
            Ok(false)
        } else {
            Err(wants(name, "the whole order, as in --order 3,1,2"))
        },
    }
}

/// `day reorder`: the day, today where none is written, and the whole
/// order.
pub open spec fn day_reorder_of(name: Seq<char>, options: Opts, positionals: Seq<Seq<char>>, input: bool, out: Fields) -> Result<Fields, Seq<char>> {
    match one_of(name, positionals) {
        Err(m) => Err(m),
        Ok(d) => {
            let out = match d {
                Some(d) => put(out, "place"@, day_place(d)),
                None => if !input { put(out, "place"@, day_place("today"@)) } else { out },
            };
            match order_put(options, name, input, out) {
                Err(m) => Err(m),
                Ok((_, out)) => Ok(out),
            }
        },
    }
}

fn day_reorder(name: &str, options: &[Given], positionals: &[String], input: bool, out: &mut Vec<(String, Json)>) -> (r: Result<(), Failure>)
    ensures
        r matches Ok(_) ==> day_reorder_of(name@, opts(options@), words(positionals@), input, fields_view(old(out)@)) == Ok::<Fields, Seq<char>>(fields_view(final(out)@)),
        r matches Err(e) ==> day_reorder_of(name@, opts(options@), words(positionals@), input, fields_view(old(out)@)) == Err::<Fields, Seq<char>>(e.message@),
{
    match one(name, positionals) {
        Err(f) => return Err(f),
        Ok(Some(d)) => insert(out, "place", day(d.as_slice())),
        Ok(None) => if !input {
            insert(out, "place", day(chars_of("today").as_slice()));
        },
    }
    match put_order(options, name, input, out) {
        Err(f) => Err(f),
        Ok(_) => Ok(()),
    }
}

/// The commands that take no arguments and send nothing but their `op`.
pub open spec fn bare_of(name: Seq<char>, options: Opts, positionals: Seq<Seq<char>>, input: bool, out: Fields) -> Result<Fields, Seq<char>> {
    match no_positionals_of(name, positionals) {
        Err(m) => Err(m),
        Ok(_) => Ok(out),
    }
}

fn bare(name: &str, options: &[Given], positionals: &[String], input: bool, out: &mut Vec<(String, Json)>) -> (r: Result<(), Failure>)
    ensures
        r matches Ok(_) ==> bare_of(name@, opts(options@), words(positionals@), input, fields_view(old(out)@)) == Ok::<Fields, Seq<char>>(fields_view(final(out)@)),
        r matches Err(e) ==> bare_of(name@, opts(options@), words(positionals@), input, fields_view(old(out)@)) == Err::<Fields, Seq<char>>(e.message@),
{
    no_positionals(name, positionals)
}

/// `backlog reorder`: the backlog, and its whole order.
pub open spec fn backlog_reorder_of(name: Seq<char>, options: Opts, positionals: Seq<Seq<char>>, input: bool, out: Fields) -> Result<Fields, Seq<char>> {
    match no_positionals_of(name, positionals) {
        Err(m) => Err(m),
        Ok(_) => {
            let out = if !input { put(out, "place"@, backlog_place()) } else { out };
            match order_put(options, name, input, out) {
                Err(m) => Err(m),
                Ok((given_order, out)) => if given_order {
                    Ok(put(out, "place"@, backlog_place()))
                } else {
                    Ok(out)
                },
            }
        },
    }
}

fn backlog_reorder(name: &str, options: &[Given], positionals: &[String], input: bool, out: &mut Vec<(String, Json)>) -> (r: Result<(), Failure>)
    ensures
        r matches Ok(_) ==> backlog_reorder_of(name@, opts(options@), words(positionals@), input, fields_view(old(out)@)) == Ok::<Fields, Seq<char>>(fields_view(final(out)@)),
        r matches Err(e) ==> backlog_reorder_of(name@, opts(options@), words(positionals@), input, fields_view(old(out)@)) == Err::<Fields, Seq<char>>(e.message@),
{
    match no_positionals(name, positionals) {
        Err(f) => return Err(f),
        Ok(_) => {},
    }
    if !input {
        insert(out, "place", backlog());
    }
    match put_order(options, name, input, out) {
        Err(f) => Err(f),
        Ok(given_order) => {
            if given_order {
                insert(out, "place", backlog());
            }
            Ok(())
        },
    }
}

/// `history list`: how many days, where a limit is given.
pub open spec fn history_list_of(name: Seq<char>, options: Opts, positionals: Seq<Seq<char>>, input: bool, out: Fields) -> Result<Fields, Seq<char>> {
    match no_positionals_of(name, positionals) {
        Err(m) => Err(m),
        Ok(_) => position_put(options, "--limit"@, "limit"@, out),
    }
}

fn history_list(name: &str, options: &[Given], positionals: &[String], input: bool, out: &mut Vec<(String, Json)>) -> (r: Result<(), Failure>)
    ensures
        r matches Ok(_) ==> history_list_of(name@, opts(options@), words(positionals@), input, fields_view(old(out)@)) == Ok::<Fields, Seq<char>>(fields_view(final(out)@)),
        r matches Err(e) ==> history_list_of(name@, opts(options@), words(positionals@), input, fields_view(old(out)@)) == Err::<Fields, Seq<char>>(e.message@),
{
    match no_positionals(name, positionals) {
        Err(f) => return Err(f),
        Ok(_) => {},
    }
    put_position(options, "--limit", "limit", out)
}

/// `search`: every word written, as one text to look for.
pub open spec fn search_of(name: Seq<char>, options: Opts, positionals: Seq<Seq<char>>, input: bool, out: Fields) -> Result<Fields, Seq<char>> {
    match needed_of(all_of(positionals), input, want(name, "something to look for"@)) {
        Err(m) => Err(m),
        Ok(Some(t)) => Ok(put(out, "text"@, JsonView::Text(t))),
        Ok(None) => Ok(out),
    }
}

fn search(name: &str, options: &[Given], positionals: &[String], input: bool, out: &mut Vec<(String, Json)>) -> (r: Result<(), Failure>)
    ensures
        r matches Ok(_) ==> search_of(name@, opts(options@), words(positionals@), input, fields_view(old(out)@)) == Ok::<Fields, Seq<char>>(fields_view(final(out)@)),
        r matches Err(e) ==> search_of(name@, opts(options@), words(positionals@), input, fields_view(old(out)@)) == Err::<Fields, Seq<char>>(e.message@),
{
    match all_words(positionals) {
        Some(t) => {
            insert(out, "text", Json::Text(string_of(t.as_slice())));
            Ok(())
        },
        None => if input {
            Ok(())
        } else {
            Err(wants(name, "something to look for"))
        },
    }
}

/// `schedule list`: whether the stopped ones too.
pub open spec fn schedule_list_of(name: Seq<char>, options: Opts, positionals: Seq<Seq<char>>, input: bool, out: Fields) -> Result<Fields, Seq<char>> {
    match no_positionals_of(name, positionals) {
        Err(m) => Err(m),
        Ok(_) => Ok(flag_put(options, "--all"@, "include_stopped"@, out)),
    }
}

fn schedule_list(name: &str, options: &[Given], positionals: &[String], input: bool, out: &mut Vec<(String, Json)>) -> (r: Result<(), Failure>)
    ensures
        r matches Ok(_) ==> schedule_list_of(name@, opts(options@), words(positionals@), input, fields_view(old(out)@)) == Ok::<Fields, Seq<char>>(fields_view(final(out)@)),
        r matches Err(e) ==> schedule_list_of(name@, opts(options@), words(positionals@), input, fields_view(old(out)@)) == Err::<Fields, Seq<char>>(e.message@),
{
    match no_positionals(name, positionals) {
        Err(f) => return Err(f),
        Ok(_) => {},
    }
    put_flag(options, "--all", "include_stopped", out);
    Ok(())
}

/// `schedule create`: a task and a rule, the rule written after the task
/// or as `--rule`.
pub open spec fn schedule_create_of(name: Seq<char>, options: Opts, positionals: Seq<Seq<char>>, input: bool, out: Fields) -> Result<Fields, Seq<char>> {
    let asked = match single_of(options, "--rule"@) {
        Err(m) => Err(m),
        Ok(Some(rule)) => match one_of(name, positionals) {
            Err(m) => Err(m),
            Ok(Some(task)) => Ok(Some((task, rule))),
            Ok(None) => Ok(None),
        },
        Ok(None) => Ok(at_least_two_of(positionals)),
    };
    match asked {
        Err(m) => Err(m),
        Ok(asked) => match needed_of(asked, input, want(name, "a task id and a rule"@)) {
            Err(m) => Err(m),
            Ok(None) => Ok(out),
            Ok(Some((task, rule))) => match id_of(task) {
                Err(m) => Err(m),
                Ok(t) => match rule_of(rule) {
                    Err(m) => Err(m),
                    Ok(r) => Ok(put(put(out, "task"@, t), "rule"@, r)),
                },
            },
        },
    }
}

fn schedule_create(name: &str, options: &[Given], positionals: &[String], input: bool, out: &mut Vec<(String, Json)>) -> (r: Result<(), Failure>)
    ensures
        r matches Ok(_) ==> schedule_create_of(name@, opts(options@), words(positionals@), input, fields_view(old(out)@)) == Ok::<Fields, Seq<char>>(fields_view(final(out)@)),
        r matches Err(e) ==> schedule_create_of(name@, opts(options@), words(positionals@), input, fields_view(old(out)@)) == Err::<Fields, Seq<char>>(e.message@),
{
    let asked: Option<(Vec<char>, Vec<char>)> = match single(options, "--rule") {
        Err(f) => return Err(f),
        Ok(Some(rule)) => match one(name, positionals) {
            Err(f) => return Err(f),
            Ok(Some(task)) => Some((task, chars_of(rule.as_str()))),
            Ok(None) => None,
        },
        Ok(None) => at_least_two(positionals),
    };
    match asked {
        None => if input {
            Ok(())
        } else {
            Err(wants(name, "a task id and a rule"))
        },
        Some((task, rule)) => {
            let t = match id(task.as_slice()) {
                Err(f) => return Err(f),
                Ok(t) => t,
            };
            let r = match rule_value(string_of(rule.as_slice()).as_str()) {
                Err(f) => return Err(f),
                Ok(r) => r,
            };
            insert(out, "task", t);
            insert(out, "rule", r);
            Ok(())
        },
    }
}

/// An object's fields with a rule option's value, where it was given.
pub open spec fn rule_put(options: Opts, option: Seq<char>, out: Fields) -> Result<Fields, Seq<char>> {
    match single_of(options, option) {
        Err(m) => Err(m),
        Ok(Some(t)) => match rule_of(t) {
            Err(m) => Err(m),
            Ok(r) => Ok(put(out, "rule"@, r)),
        },
        Ok(None) => Ok(out),
    }
}

fn put_rule(options: &[Given], option: &str, out: &mut Vec<(String, Json)>) -> (r: Result<(), Failure>)
    ensures
        r matches Ok(_) ==> rule_put(opts(options@), option@, fields_view(old(out)@)) == Ok::<Fields, Seq<char>>(fields_view(final(out)@)),
        r matches Err(e) ==> rule_put(opts(options@), option@, fields_view(old(out)@)) == Err::<Fields, Seq<char>>(e.message@),
{
    match single(options, option) {
        Err(f) => Err(f),
        Ok(Some(t)) => match rule_value(t.as_str()) {
            Err(f) => Err(f),
            Ok(r) => {
                insert(out, "rule", r);
                Ok(())
            },
        },
        Ok(None) => Ok(()),
    }
}

/// `schedule update`: a schedule, and its new rule or title.
pub open spec fn schedule_update_of(name: Seq<char>, options: Opts, positionals: Seq<Seq<char>>, input: bool, out: Fields) -> Result<Fields, Seq<char>> {
    match id_put(name, positionals, input, "a schedule id"@, out) {
        Err(m) => Err(m),
        Ok(out) => match rule_put(options, "--rule"@, out) {
            Err(m) => Err(m),
            Ok(out) => text_put(options, "--title"@, "title"@, out),
        },
    }
}

fn schedule_update(name: &str, options: &[Given], positionals: &[String], input: bool, out: &mut Vec<(String, Json)>) -> (r: Result<(), Failure>)
    ensures
        r matches Ok(_) ==> schedule_update_of(name@, opts(options@), words(positionals@), input, fields_view(old(out)@)) == Ok::<Fields, Seq<char>>(fields_view(final(out)@)),
        r matches Err(e) ==> schedule_update_of(name@, opts(options@), words(positionals@), input, fields_view(old(out)@)) == Err::<Fields, Seq<char>>(e.message@),
{
    match put_id(name, positionals, input, "a schedule id", out) {
        Err(f) => return Err(f),
        Ok(_) => {},
    }
    match put_rule(options, "--rule", out) {
        Err(f) => return Err(f),
        Ok(_) => {},
    }
    put_text(options, "--title", "title", out)
}

/// `schedule preview`: a rule or a schedule, not both, and from when and
/// how many.
pub open spec fn schedule_preview_of(name: Seq<char>, options: Opts, positionals: Seq<Seq<char>>, input: bool, out: Fields) -> Result<Fields, Seq<char>> {
    match single_of(options, "--schedule"@) {
        Err(m) => Err(m),
        Ok(named) => match single_of(options, "--rule"@) {
            Err(m) => Err(m),
            Ok(ruled) => match one_of(name, positionals) {
                Err(m) => Err(m),
                Ok(written) => {
                    let rule = if ruled is Some { ruled } else { written };
                    let chosen = if named is Some && rule is Some {
                        Err("schedule preview takes a rule or --schedule, not both"@)
                    } else if named is Some {
                        match id_of(named.unwrap()) {
                            Err(m) => Err(m),
                            Ok(v) => Ok(put(out, "schedule"@, v)),
                        }
                    } else if rule is Some {
                        match rule_of(rule.unwrap()) {
                            Err(m) => Err(m),
                            Ok(v) => Ok(put(out, "rule"@, v)),
                        }
                    } else if input {
                        Ok(out)
                    } else {
                        Err(want(name, "a rule, as in `jobsdone schedule preview weekly:mon`"@))
                    };
                    match chosen {
                        Err(m) => Err(m),
                        Ok(out) => match text_put(options, "--after"@, "after"@, out) {
                            Err(m) => Err(m),
                            Ok(out) => position_put(options, "--count"@, "count"@, out),
                        },
                    }
                },
            },
        },
    }
}

fn schedule_preview(name: &str, options: &[Given], positionals: &[String], input: bool, out: &mut Vec<(String, Json)>) -> (r: Result<(), Failure>)
    ensures
        r matches Ok(_) ==> schedule_preview_of(name@, opts(options@), words(positionals@), input, fields_view(old(out)@)) == Ok::<Fields, Seq<char>>(fields_view(final(out)@)),
        r matches Err(e) ==> schedule_preview_of(name@, opts(options@), words(positionals@), input, fields_view(old(out)@)) == Err::<Fields, Seq<char>>(e.message@),
{
    let named = match single(options, "--schedule") {
        Err(f) => return Err(f),
        Ok(n) => n,
    };
    let ruled = match single(options, "--rule") {
        Err(f) => return Err(f),
        Ok(r) => r,
    };
    let written = match one(name, positionals) {
        Err(f) => return Err(f),
        Ok(w) => w,
    };
    let rule: Option<Vec<char>> = match ruled {
        Some(r) => Some(chars_of(r.as_str())),
        None => written,
    };
    match (named, rule) {
        (Some(_), Some(_)) => {
            return Err(Failure::usage(string_of(chars_of("schedule preview takes a rule or --schedule, not both").as_slice())));
        },
        (Some(n), None) => match id(chars_of(n.as_str()).as_slice()) {
            Err(f) => return Err(f),
            Ok(v) => insert(out, "schedule", v),
        },
        (None, Some(r)) => match rule_value(string_of(r.as_slice()).as_str()) {
            Err(f) => return Err(f),
            Ok(v) => insert(out, "rule", v),
        },
        (None, None) => if !input {
            return Err(wants(name, "a rule, as in `jobsdone schedule preview weekly:mon`"));
        },
    }
    match put_text(options, "--after", "after", out) {
        Err(f) => return Err(f),
        Ok(_) => {},
    }
    put_position(options, "--count", "count", out)
}

/// `note list`: whether with bodies, and whether the archive.
pub open spec fn note_list_of(name: Seq<char>, options: Opts, positionals: Seq<Seq<char>>, input: bool, out: Fields) -> Result<Fields, Seq<char>> {
    match no_positionals_of(name, positionals) {
        Err(m) => Err(m),
        Ok(_) => Ok(flag_put(options, "--archived"@, "archived"@, flag_put(options, "--bodies"@, "include_body"@, out))),
    }
}

fn note_list(name: &str, options: &[Given], positionals: &[String], input: bool, out: &mut Vec<(String, Json)>) -> (r: Result<(), Failure>)
    ensures
        r matches Ok(_) ==> note_list_of(name@, opts(options@), words(positionals@), input, fields_view(old(out)@)) == Ok::<Fields, Seq<char>>(fields_view(final(out)@)),
        r matches Err(e) ==> note_list_of(name@, opts(options@), words(positionals@), input, fields_view(old(out)@)) == Err::<Fields, Seq<char>>(e.message@),
{
    match no_positionals(name, positionals) {
        Err(f) => return Err(f),
        Ok(_) => {},
    }
    put_flag(options, "--bodies", "include_body", out);
    put_flag(options, "--archived", "archived", out);
    Ok(())
}

/// `settings set`: the settings, as one object.
pub open spec fn settings_set_of(name: Seq<char>, options: Opts, positionals: Seq<Seq<char>>, input: bool, out: Fields) -> Result<Fields, Seq<char>> {
    match settings_of(positionals) {
        Err(m) => Err(m),
        Ok(asked) => match needed_of(asked, input, want(name, "at least one KEY=VALUE, as in `settings set day_starts_at=6`"@)) {
            Err(m) => Err(m),
            Ok(None) => Ok(out),
            Ok(Some(v)) => Ok(put(out, "settings"@, v)),
        },
    }
}

fn settings_set(name: &str, options: &[Given], positionals: &[String], input: bool, out: &mut Vec<(String, Json)>) -> (r: Result<(), Failure>)
    ensures
        r matches Ok(_) ==> settings_set_of(name@, opts(options@), words(positionals@), input, fields_view(old(out)@)) == Ok::<Fields, Seq<char>>(fields_view(final(out)@)),
        r matches Err(e) ==> settings_set_of(name@, opts(options@), words(positionals@), input, fields_view(old(out)@)) == Err::<Fields, Seq<char>>(e.message@),
{
    match settings_value(positionals) {
        Err(f) => Err(f),
        Ok(Some(v)) => {
            insert(out, "settings", v);
            Ok(())
        },
        Ok(None) => if input {
            Ok(())
        } else {
            Err(wants(name, "at least one KEY=VALUE, as in `settings set day_starts_at=6`"))
        },
    }
}

/// `dictionary add` and `dictionary delete`: one word, as the field
/// named.
pub open spec fn one_word_of(name: Seq<char>, positionals: Seq<Seq<char>>, input: bool, field: Seq<char>, out: Fields) -> Result<Fields, Seq<char>> {
    match one_of(name, positionals) {
        Err(m) => Err(m),
        Ok(w) => match needed_of(w, input, want(name, "a word"@)) {
            Err(m) => Err(m),
            Ok(None) => Ok(out),
            Ok(Some(w)) => Ok(put(out, field, JsonView::Text(w))),
        },
    }
}

fn one_word(name: &str, positionals: &[String], input: bool, field: &str, out: &mut Vec<(String, Json)>) -> (r: Result<(), Failure>)
    ensures
        r matches Ok(_) ==> one_word_of(name@, words(positionals@), input, field@, fields_view(old(out)@)) == Ok::<Fields, Seq<char>>(fields_view(final(out)@)),
        r matches Err(e) ==> one_word_of(name@, words(positionals@), input, field@, fields_view(old(out)@)) == Err::<Fields, Seq<char>>(e.message@),
{
    match one(name, positionals) {
        Err(f) => Err(f),
        Ok(Some(w)) => {
            insert(out, field, Json::Text(string_of(w.as_slice())));
            Ok(())
        },
        Ok(None) => if input {
            Ok(())
        } else {
            Err(wants(name, "a word"))
        },
    }
}

/// `dictionary update`: the word to change and its new form.
pub open spec fn dictionary_update_of(name: Seq<char>, options: Opts, positionals: Seq<Seq<char>>, input: bool, out: Fields) -> Result<Fields, Seq<char>> {
    match needed_of(at_least_two_of(positionals), input, want(name, "the word to change and its new form"@)) {
        Err(m) => Err(m),
        Ok(None) => Ok(out),
        Ok(Some((key, word))) => Ok(put(put(out, "key"@, JsonView::Text(key)), "word"@, JsonView::Text(word))),
    }
}

fn dictionary_update(name: &str, options: &[Given], positionals: &[String], input: bool, out: &mut Vec<(String, Json)>) -> (r: Result<(), Failure>)
    ensures
        r matches Ok(_) ==> dictionary_update_of(name@, opts(options@), words(positionals@), input, fields_view(old(out)@)) == Ok::<Fields, Seq<char>>(fields_view(final(out)@)),
        r matches Err(e) ==> dictionary_update_of(name@, opts(options@), words(positionals@), input, fields_view(old(out)@)) == Err::<Fields, Seq<char>>(e.message@),
{
    match at_least_two(positionals) {
        None => if input {
            Ok(())
        } else {
            Err(wants(name, "the word to change and its new form"))
        },
        Some((key, word)) => {
            insert(out, "key", Json::Text(string_of(key.as_slice())));
            insert(out, "word", Json::Text(string_of(word.as_slice())));
            Ok(())
        },
    }
}

/// `undo apply`: the entry expected on top, where it is named.
pub open spec fn undo_apply_of(name: Seq<char>, options: Opts, positionals: Seq<Seq<char>>, input: bool, out: Fields) -> Result<Fields, Seq<char>> {
    match no_positionals_of(name, positionals) {
        Err(m) => Err(m),
        Ok(_) => match single_of(options, "--entry"@) {
            Err(m) => Err(m),
            Ok(None) => Ok(out),
            Ok(Some(t)) => match id_of(t) {
                Err(m) => Err(m),
                Ok(v) => Ok(put(out, "expected_id"@, v)),
            },
        },
    }
}

fn undo_apply(name: &str, options: &[Given], positionals: &[String], input: bool, out: &mut Vec<(String, Json)>) -> (r: Result<(), Failure>)
    ensures
        r matches Ok(_) ==> undo_apply_of(name@, opts(options@), words(positionals@), input, fields_view(old(out)@)) == Ok::<Fields, Seq<char>>(fields_view(final(out)@)),
        r matches Err(e) ==> undo_apply_of(name@, opts(options@), words(positionals@), input, fields_view(old(out)@)) == Err::<Fields, Seq<char>>(e.message@),
{
    match no_positionals(name, positionals) {
        Err(f) => return Err(f),
        Ok(_) => {},
    }
    match single(options, "--entry") {
        Err(f) => Err(f),
        Ok(Some(t)) => match id(chars_of(t.as_str()).as_slice()) {
            Err(f) => Err(f),
            Ok(v) => {
                insert(out, "expected_id", v);
                Ok(())
            },
        },
        Ok(None) => Ok(()),
    }
}

/// `note create`: the body, written, told, or read from somewhere; an
/// empty note is a real thing to make.
pub open spec fn note_create_of(name: Seq<char>, options: Opts, positionals: Seq<Seq<char>>, input: bool, out: Fields) -> Result<(Fields, Option<(Seq<char>, SourceView)>), Seq<char>> {
    match one_of(name, positionals) {
        Err(m) => Err(m),
        Ok(written) => match note_text_of(options, written, "body"@) {
            Err(m) => Err(m),
            Ok((text, body)) => match text {
                Some(b) => Ok((put(out, "body"@, JsonView::Text(b)), body)),
                None => if body is None && !input {
                    Ok((put(out, "body"@, JsonView::Text(Seq::empty())), body))
                } else {
                    Ok((out, body))
                },
            },
        },
    }
}

fn note_create(name: &str, options: &[Given], positionals: &[String], input: bool, out: &mut Vec<(String, Json)>, extras: &mut Extras) -> (r: Result<(), Failure>)
    requires
        old(extras).body is None,
    ensures
        r matches Ok(_) ==> note_create_of(name@, opts(options@), words(positionals@), input, fields_view(old(out)@)) == Ok::<(Fields, Option<(Seq<char>, SourceView)>), Seq<char>>((fields_view(final(out)@), body_view(final(extras).body))),
        r matches Err(e) ==> note_create_of(name@, opts(options@), words(positionals@), input, fields_view(old(out)@)) == Err::<(Fields, Option<(Seq<char>, SourceView)>), Seq<char>>(e.message@),
{
    let written = match one(name, positionals) {
        Err(f) => return Err(f),
        Ok(w) => w,
    };
    match note_text(options, written, "body", extras) {
        Err(f) => Err(f),
        Ok(Some(b)) => {
            insert(out, "body", Json::Text(string_of(b.as_slice())));
            Ok(())
        },
        Ok(None) => {
            if extras.body.is_none() && !input {
                insert(out, "body", Json::Text(String::new()));
            }
            Ok(())
        },
    }
}

/// A note id and one thing more, as `note update` and `note
/// spell-check` take them; more than that is refused with `said`.
pub open spec fn id_and_one(positionals: Seq<Seq<char>>, said_more: Seq<char>) -> Result<(Option<Seq<char>>, Option<Seq<char>>), Seq<char>> {
    if positionals.len() == 0 {
        Ok((None, None))
    } else if positionals.len() == 1 {
        Ok((Some(positionals[0]), None))
    } else if positionals.len() == 2 {
        Ok((Some(positionals[0]), Some(positionals[1])))
    } else {
        Err(said_more)
    }
}

fn split_id_and_one(positionals: &[String], said_more: &str) -> (r: Result<(Option<Vec<char>>, Option<Vec<char>>), Failure>)
    ensures
        r matches Ok((a, b)) ==> id_and_one(words(positionals@), said_more@) == Ok::<(Option<Seq<char>>, Option<Seq<char>>), Seq<char>>((
            match a { Some(v) => Some(v@), None => None },
            match b { Some(v) => Some(v@), None => None },
        )),
        r matches Err(e) ==> id_and_one(words(positionals@), said_more@) == Err::<(Option<Seq<char>>, Option<Seq<char>>), Seq<char>>(e.message@),
{
    if positionals.len() == 0 {
        Ok((None, None))
    } else if positionals.len() == 1 {
        Ok((Some(chars_of(positionals[0].as_str())), None))
    } else if positionals.len() == 2 {
        Ok((Some(chars_of(positionals[0].as_str())), Some(chars_of(positionals[1].as_str()))))
    } else {
        Err(Failure::usage(string_of(chars_of(said_more).as_slice())))
    }
}

/// An object's fields with a note id, where it was given.
pub open spec fn note_id_put(name: Seq<char>, first: Option<Seq<char>>, input: bool, out: Fields) -> Result<Fields, Seq<char>> {
    match needed_of(first, input, want(name, "a note id"@)) {
        Err(m) => Err(m),
        Ok(None) => Ok(out),
        Ok(Some(t)) => match id_of(t) {
            Err(m) => Err(m),
            Ok(v) => Ok(put(out, "id"@, v)),
        },
    }
}

fn put_note_id(name: &str, first: Option<Vec<char>>, input: bool, out: &mut Vec<(String, Json)>) -> (r: Result<(), Failure>)
    ensures
        r matches Ok(_) ==> note_id_put(name@, match first { Some(v) => Some(v@), None => None }, input, fields_view(old(out)@)) == Ok::<Fields, Seq<char>>(fields_view(final(out)@)),
        r matches Err(e) ==> note_id_put(name@, match first { Some(v) => Some(v@), None => None }, input, fields_view(old(out)@)) == Err::<Fields, Seq<char>>(e.message@),
{
    match first {
        None => if input {
            Ok(())
        } else {
            Err(wants(name, "a note id"))
        },
        Some(t) => match id(t.as_slice()) {
            Err(f) => Err(f),
            Ok(v) => {
                insert(out, "id", v);
                Ok(())
            },
        },
    }
}

/// `note update`: the note, and its new body written or read from
/// somewhere.
pub open spec fn note_update_of(name: Seq<char>, options: Opts, positionals: Seq<Seq<char>>, input: bool, out: Fields) -> Result<(Fields, Option<(Seq<char>, SourceView)>), Seq<char>> {
    match id_and_one(positionals, "note update wants one body; quote it, or use --stdin or --file"@) {
        Err(m) => Err(m),
        Ok((first, written)) => match note_id_put(name, first, input, out) {
            Err(m) => Err(m),
            Ok(out) => match note_text_of(options, written, "body"@) {
                Err(m) => Err(m),
                Ok((text, body)) => match text {
                    Some(b) => Ok((put(out, "body"@, JsonView::Text(b)), body)),
                    None => if body is None && !input {
                        Err(want(name, "the new body, or --stdin, or --file"@))
                    } else {
                        Ok((out, body))
                    },
                },
            },
        },
    }
}

fn note_update(name: &str, options: &[Given], positionals: &[String], input: bool, out: &mut Vec<(String, Json)>, extras: &mut Extras) -> (r: Result<(), Failure>)
    requires
        old(extras).body is None,
    ensures
        r matches Ok(_) ==> note_update_of(name@, opts(options@), words(positionals@), input, fields_view(old(out)@)) == Ok::<(Fields, Option<(Seq<char>, SourceView)>), Seq<char>>((fields_view(final(out)@), body_view(final(extras).body))),
        r matches Err(e) ==> note_update_of(name@, opts(options@), words(positionals@), input, fields_view(old(out)@)) == Err::<(Fields, Option<(Seq<char>, SourceView)>), Seq<char>>(e.message@),
{
    let (first, written) = match split_id_and_one(positionals, "note update wants one body; quote it, or use --stdin or --file") {
        Err(f) => return Err(f),
        Ok(p) => p,
    };
    match put_note_id(name, first, input, out) {
        Err(f) => return Err(f),
        Ok(_) => {},
    }
    match note_text(options, written, "body", extras) {
        Err(f) => Err(f),
        Ok(Some(b)) => {
            insert(out, "body", Json::Text(string_of(b.as_slice())));
            Ok(())
        },
        Ok(None) => if extras.body.is_none() && !input {
            Err(wants(name, "the new body, or --stdin, or --file"))
        } else {
            Ok(())
        },
    }
}

/// `note spell-check`: the note, and on or off.
pub open spec fn note_spell_check_of(name: Seq<char>, options: Opts, positionals: Seq<Seq<char>>, input: bool, out: Fields) -> Result<(Fields, Option<(Seq<char>, SourceView)>), Seq<char>> {
    match id_and_one(positionals, "note spell-check wants a note id and on or off"@) {
        Err(m) => Err(m),
        Ok((first, state)) => match note_id_put(name, first, input, out) {
            Err(m) => Err(m),
            Ok(out) => match state {
                Some(st) => match setting_value_of("spell-check"@, st, Shape::Flag) {
                    Err(m) => Err(m),
                    Ok(v) => Ok((put(out, "check"@, v), None)),
                },
                None => if !input {
                    Err(want(name, "on or off"@))
                } else {
                    Ok((out, None))
                },
            },
        },
    }
}

fn note_spell_check(name: &str, options: &[Given], positionals: &[String], input: bool, out: &mut Vec<(String, Json)>, extras: &mut Extras) -> (r: Result<(), Failure>)
    requires
        old(extras).body is None,
    ensures
        r matches Ok(_) ==> note_spell_check_of(name@, opts(options@), words(positionals@), input, fields_view(old(out)@)) == Ok::<(Fields, Option<(Seq<char>, SourceView)>), Seq<char>>((fields_view(final(out)@), body_view(final(extras).body))),
        r matches Err(e) ==> note_spell_check_of(name@, opts(options@), words(positionals@), input, fields_view(old(out)@)) == Err::<(Fields, Option<(Seq<char>, SourceView)>), Seq<char>>(e.message@),
{
    let (first, state) = match split_id_and_one(positionals, "note spell-check wants a note id and on or off") {
        Err(f) => return Err(f),
        Ok(p) => p,
    };
    match put_note_id(name, first, input, out) {
        Err(f) => return Err(f),
        Ok(_) => {},
    }
    match state {
        Some(st) => match setting_value(chars_of("spell-check").as_slice(), st.as_slice(), Shape::Flag) {
            Err(f) => Err(f),
            Ok(v) => {
                insert(out, "check", v);
                Ok(())
            },
        },
        None => if !input {
            Err(wants(name, "on or off"))
        } else {
            Ok(())
        },
    }
}

/// `note check`: a note, or some text, not both.
pub open spec fn note_check_of(name: Seq<char>, options: Opts, positionals: Seq<Seq<char>>, input: bool, out: Fields) -> Result<(Fields, Option<(Seq<char>, SourceView)>), Seq<char>> {
    match one_of(name, positionals) {
        Err(m) => Err(m),
        Ok(written) => match note_text_of(options, None, "text"@) {
            Err(m) => Err(m),
            Ok((raw, body)) => {
                let checked = if written is Some && (raw is Some || body is Some) {
                    Err("note check takes a note id or some text, not both"@)
                } else if written is Some {
                    match id_of(written.unwrap()) {
                        Err(m) => Err(m),
                        Ok(v) => Ok(put(out, "note"@, v)),
                    }
                } else if raw is Some {
                    Ok(put(out, "text"@, JsonView::Text(raw.unwrap())))
                } else if body is Some || input {
                    Ok(out)
                } else {
                    Err(want(name, "a note id, --text, --stdin or --file"@))
                };
                match checked {
                    Err(m) => Err(m),
                    Ok(out) => Ok((flag_put(options, "--suggestions"@, "suggestions"@, out), body)),
                }
            },
        },
    }
}

fn note_check(name: &str, options: &[Given], positionals: &[String], input: bool, out: &mut Vec<(String, Json)>, extras: &mut Extras) -> (r: Result<(), Failure>)
    requires
        old(extras).body is None,
    ensures
        r matches Ok(_) ==> note_check_of(name@, opts(options@), words(positionals@), input, fields_view(old(out)@)) == Ok::<(Fields, Option<(Seq<char>, SourceView)>), Seq<char>>((fields_view(final(out)@), body_view(final(extras).body))),
        r matches Err(e) ==> note_check_of(name@, opts(options@), words(positionals@), input, fields_view(old(out)@)) == Err::<(Fields, Option<(Seq<char>, SourceView)>), Seq<char>>(e.message@),
{
    let written = match one(name, positionals) {
        Err(f) => return Err(f),
        Ok(w) => w,
    };
    let raw = match note_text(options, None, "text", extras) {
        Err(f) => return Err(f),
        Ok(r) => r,
    };
    let has_body = extras.body.is_some();
    match (written, raw) {
        (Some(_), Some(_)) => {
            return Err(Failure::usage(string_of(chars_of("note check takes a note id or some text, not both").as_slice())));
        },
        (Some(note), None) => {
            if has_body {
                return Err(Failure::usage(string_of(chars_of("note check takes a note id or some text, not both").as_slice())));
            }
            match id(note.as_slice()) {
                Err(f) => return Err(f),
                Ok(v) => insert(out, "note", v),
            }
        },
        (None, Some(text)) => insert(out, "text", Json::Text(string_of(text.as_slice()))),
        (None, None) => if !has_body && !input {
            return Err(wants(name, "a note id, --text, --stdin or --file"));
        },
    }
    put_flag(options, "--suggestions", "suggestions", out);
    Ok(())
}

/// The fields of the request a command sends, and whatever text it still
/// needs from a file or from standard input, or why the command line
/// cannot be sent.
pub open spec fn fields_of(name: Seq<char>, options: Opts, positionals: Seq<Seq<char>>, input: bool, out: Fields) -> Result<(Fields, Option<(Seq<char>, SourceView)>), Seq<char>> {
    if name == "task list"@ {
        match task_list_of(name, options, positionals, input, out) { Err(m) => Err(m), Ok(f) => Ok((f, None)) }
    } else if name == "task get"@ {
        match id_put(name, positionals, input, "a task id"@, out) { Err(m) => Err(m), Ok(f) => Ok((f, None)) }
    } else if name == "task add"@ {
        match task_add_of(name, options, positionals, input, out) { Err(m) => Err(m), Ok(f) => Ok((f, None)) }
    } else if name == "task update"@ {
        match task_update_of(name, options, positionals, input, out) { Err(m) => Err(m), Ok(f) => Ok((f, None)) }
    } else if name == "task rename"@ {
        match task_rename_of(name, options, positionals, input, out) { Err(m) => Err(m), Ok(f) => Ok((f, None)) }
    } else if name == "task focus"@ {
        match task_flag_of(name, positionals, input, "focus"@, true, out) { Err(m) => Err(m), Ok(f) => Ok((f, None)) }
    } else if name == "task unfocus"@ {
        match task_flag_of(name, positionals, input, "focus"@, false, out) { Err(m) => Err(m), Ok(f) => Ok((f, None)) }
    } else if name == "task waiting"@ {
        match task_flag_of(name, positionals, input, "waiting"@, true, out) { Err(m) => Err(m), Ok(f) => Ok((f, None)) }
    } else if name == "task unwait"@ {
        match task_flag_of(name, positionals, input, "waiting"@, false, out) { Err(m) => Err(m), Ok(f) => Ok((f, None)) }
    } else if name == "task due"@ {
        match task_date_of(name, positionals, input, "due"@, out) { Err(m) => Err(m), Ok(f) => Ok((f, None)) }
    } else if name == "task remind"@ {
        match task_date_of(name, positionals, input, "remind"@, out) { Err(m) => Err(m), Ok(f) => Ok((f, None)) }
    } else if name == "task close"@ || name == "task reopen"@ {
        match ids_put(name, positionals, input, out) { Err(m) => Err(m), Ok(f) => Ok((f, None)) }
    } else if name == "task move"@ {
        match task_move_of(name, options, positionals, input, out) { Err(m) => Err(m), Ok(f) => Ok((f, None)) }
    } else if name == "task delete"@ {
        match task_delete_of(name, options, positionals, input, out) { Err(m) => Err(m), Ok(f) => Ok((f, None)) }
    } else if name == "task reorder"@ {
        match task_reorder_of(name, options, positionals, input, out) { Err(m) => Err(m), Ok(f) => Ok((f, None)) }
    } else if name == "day get"@ {
        match day_get_of(name, options, positionals, input, out) { Err(m) => Err(m), Ok(f) => Ok((f, None)) }
    } else if name == "day reorder"@ {
        match day_reorder_of(name, options, positionals, input, out) { Err(m) => Err(m), Ok(f) => Ok((f, None)) }
    } else if name == "backlog get"@ || name == "review get"@ || name == "review start"@ || name == "refresh"@ || name == "settings get"@ || name == "dictionary list"@ || name == "undo get"@ {
        match bare_of(name, options, positionals, input, out) { Err(m) => Err(m), Ok(f) => Ok((f, None)) }
    } else if name == "backlog reorder"@ {
        match backlog_reorder_of(name, options, positionals, input, out) { Err(m) => Err(m), Ok(f) => Ok((f, None)) }
    } else if name == "history list"@ {
        match history_list_of(name, options, positionals, input, out) { Err(m) => Err(m), Ok(f) => Ok((f, None)) }
    } else if name == "search"@ {
        match search_of(name, options, positionals, input, out) { Err(m) => Err(m), Ok(f) => Ok((f, None)) }
    } else if name == "schedule list"@ {
        match schedule_list_of(name, options, positionals, input, out) { Err(m) => Err(m), Ok(f) => Ok((f, None)) }
    } else if name == "schedule get"@ || name == "schedule stop"@ {
        match id_put(name, positionals, input, "a schedule id"@, out) { Err(m) => Err(m), Ok(f) => Ok((f, None)) }
    } else if name == "schedule create"@ {
        match schedule_create_of(name, options, positionals, input, out) { Err(m) => Err(m), Ok(f) => Ok((f, None)) }
    } else if name == "schedule update"@ {
        match schedule_update_of(name, options, positionals, input, out) { Err(m) => Err(m), Ok(f) => Ok((f, None)) }
    } else if name == "schedule preview"@ {
        match schedule_preview_of(name, options, positionals, input, out) { Err(m) => Err(m), Ok(f) => Ok((f, None)) }
    } else if name == "note list"@ {
        match note_list_of(name, options, positionals, input, out) { Err(m) => Err(m), Ok(f) => Ok((f, None)) }
    } else if name == "note get"@ || name == "note copy"@ || name == "note archive"@ || name == "note unarchive"@ {
        match id_put(name, positionals, input, "a note id"@, out) { Err(m) => Err(m), Ok(f) => Ok((f, None)) }
    } else if name == "note create"@ {
        note_create_of(name, options, positionals, input, out)
    } else if name == "note update"@ {
        note_update_of(name, options, positionals, input, out)
    } else if name == "note spell-check"@ {
        note_spell_check_of(name, options, positionals, input, out)
    } else if name == "note delete"@ {
        match id_put(name, positionals, input, "a note id"@, out) { Err(m) => Err(m), Ok(f) => Ok((flag_put(options, "--yes"@, "confirm"@, f), None)) }
    } else if name == "note check"@ {
        note_check_of(name, options, positionals, input, out)
    } else if name == "settings set"@ {
        match settings_set_of(name, options, positionals, input, out) { Err(m) => Err(m), Ok(f) => Ok((f, None)) }
    } else if name == "dictionary add"@ {
        match one_word_of(name, positionals, input, "word"@, out) { Err(m) => Err(m), Ok(f) => Ok((f, None)) }
    } else if name == "dictionary update"@ {
        match dictionary_update_of(name, options, positionals, input, out) { Err(m) => Err(m), Ok(f) => Ok((f, None)) }
    } else if name == "dictionary delete"@ {
        match one_word_of(name, positionals, input, "key"@, out) { Err(m) => Err(m), Ok(f) => Ok((f, None)) }
    } else if name == "undo apply"@ {
        match undo_apply_of(name, options, positionals, input, out) { Err(m) => Err(m), Ok(f) => Ok((f, None)) }
    } else {
        Err(name + " has nothing to send"@)
    }
}

/// The fields of the request the command sends, and whatever text it
/// still needs from a file or from standard input.
///
/// `input` says whether a `--input` body is coming. A field that would
/// otherwise be required is then allowed to be missing here, because the
/// body is the other half of the same request and the service is the one
/// place that knows what a complete one looks like. A field that is
/// *written* and wrong is still wrong.
pub fn fields(
    spec: &'static Spec,
    options: &[Given],
    positionals: &[String],
    input: bool,
    out: &mut Vec<(String, Json)>,
) -> (r: Result<Extras, Failure>)
    ensures
        r matches Ok(extras) ==> fields_of(spec.name@, opts(options@), words(positionals@), input, fields_view(old(out)@))
            == Ok::<(Fields, Option<(Seq<char>, SourceView)>), Seq<char>>((fields_view(final(out)@), body_view(extras.body))),
        r matches Err(e) ==> fields_of(spec.name@, opts(options@), words(positionals@), input, fields_view(old(out)@))
            == Err::<(Fields, Option<(Seq<char>, SourceView)>), Seq<char>>(e.message@),
{
    let mut extras = Extras { body: None };
    let name = spec.name;
    let n_chars = chars_of(name);
    let n = n_chars.as_slice();
    if is(n, "task list") {
        match task_list(name, options, positionals, input, out) { Err(f) => return Err(f), Ok(_) => {}, }
    } else if is(n, "task get") {
        match put_id(name, positionals, input, "a task id", out) { Err(f) => return Err(f), Ok(_) => {}, }
    } else if is(n, "task add") {
        match task_add(name, options, positionals, input, out) { Err(f) => return Err(f), Ok(_) => {}, }
    } else if is(n, "task update") {
        match task_update(name, options, positionals, input, out) { Err(f) => return Err(f), Ok(_) => {}, }
    } else if is(n, "task rename") {
        match task_rename(name, options, positionals, input, out) { Err(f) => return Err(f), Ok(_) => {}, }
    } else if is(n, "task focus") {
        match task_flag(name, positionals, input, "focus", true, out) { Err(f) => return Err(f), Ok(_) => {}, }
    } else if is(n, "task unfocus") {
        match task_flag(name, positionals, input, "focus", false, out) { Err(f) => return Err(f), Ok(_) => {}, }
    } else if is(n, "task waiting") {
        match task_flag(name, positionals, input, "waiting", true, out) { Err(f) => return Err(f), Ok(_) => {}, }
    } else if is(n, "task unwait") {
        match task_flag(name, positionals, input, "waiting", false, out) { Err(f) => return Err(f), Ok(_) => {}, }
    } else if is(n, "task due") {
        match task_date(name, positionals, input, "due", out) { Err(f) => return Err(f), Ok(_) => {}, }
    } else if is(n, "task remind") {
        match task_date(name, positionals, input, "remind", out) { Err(f) => return Err(f), Ok(_) => {}, }
    } else if is(n, "task close") || is(n, "task reopen") {
        match put_ids(name, positionals, input, out) { Err(f) => return Err(f), Ok(_) => {}, }
    } else if is(n, "task move") {
        match task_move(name, options, positionals, input, out) { Err(f) => return Err(f), Ok(_) => {}, }
    } else if is(n, "task delete") {
        match task_delete(name, options, positionals, input, out) { Err(f) => return Err(f), Ok(_) => {}, }
    } else if is(n, "task reorder") {
        match task_reorder(name, options, positionals, input, out) { Err(f) => return Err(f), Ok(_) => {}, }
    } else if is(n, "day get") {
        match day_get(name, options, positionals, input, out) { Err(f) => return Err(f), Ok(_) => {}, }
    } else if is(n, "day reorder") {
        match day_reorder(name, options, positionals, input, out) { Err(f) => return Err(f), Ok(_) => {}, }
    } else if is(n, "backlog get") || is(n, "review get") || is(n, "review start") || is(n, "refresh") || is(n, "settings get") || is(n, "dictionary list") || is(n, "undo get") {
        match bare(name, options, positionals, input, out) { Err(f) => return Err(f), Ok(_) => {}, }
    } else if is(n, "backlog reorder") {
        match backlog_reorder(name, options, positionals, input, out) { Err(f) => return Err(f), Ok(_) => {}, }
    } else if is(n, "history list") {
        match history_list(name, options, positionals, input, out) { Err(f) => return Err(f), Ok(_) => {}, }
    } else if is(n, "search") {
        match search(name, options, positionals, input, out) { Err(f) => return Err(f), Ok(_) => {}, }
    } else if is(n, "schedule list") {
        match schedule_list(name, options, positionals, input, out) { Err(f) => return Err(f), Ok(_) => {}, }
    } else if is(n, "schedule get") || is(n, "schedule stop") {
        match put_id(name, positionals, input, "a schedule id", out) { Err(f) => return Err(f), Ok(_) => {}, }
    } else if is(n, "schedule create") {
        match schedule_create(name, options, positionals, input, out) { Err(f) => return Err(f), Ok(_) => {}, }
    } else if is(n, "schedule update") {
        match schedule_update(name, options, positionals, input, out) { Err(f) => return Err(f), Ok(_) => {}, }
    } else if is(n, "schedule preview") {
        match schedule_preview(name, options, positionals, input, out) { Err(f) => return Err(f), Ok(_) => {}, }
    } else if is(n, "note list") {
        match note_list(name, options, positionals, input, out) { Err(f) => return Err(f), Ok(_) => {}, }
    } else if is(n, "note get") || is(n, "note copy") || is(n, "note archive") || is(n, "note unarchive") {
        match put_id(name, positionals, input, "a note id", out) { Err(f) => return Err(f), Ok(_) => {}, }
    } else if is(n, "note create") {
        match note_create(name, options, positionals, input, out, &mut extras) { Err(f) => return Err(f), Ok(_) => {}, }
    } else if is(n, "note update") {
        match note_update(name, options, positionals, input, out, &mut extras) { Err(f) => return Err(f), Ok(_) => {}, }
    } else if is(n, "note spell-check") {
        match note_spell_check(name, options, positionals, input, out, &mut extras) { Err(f) => return Err(f), Ok(_) => {}, }
    } else if is(n, "note delete") {
        match put_id(name, positionals, input, "a note id", out) { Err(f) => return Err(f), Ok(_) => {}, }
        put_flag(options, "--yes", "confirm", out);
    } else if is(n, "note check") {
        match note_check(name, options, positionals, input, out, &mut extras) { Err(f) => return Err(f), Ok(_) => {}, }
    } else if is(n, "settings set") {
        match settings_set(name, options, positionals, input, out) { Err(f) => return Err(f), Ok(_) => {}, }
    } else if is(n, "dictionary add") {
        match one_word(name, positionals, input, "word", out) { Err(f) => return Err(f), Ok(_) => {}, }
    } else if is(n, "dictionary update") {
        match dictionary_update(name, options, positionals, input, out) { Err(f) => return Err(f), Ok(_) => {}, }
    } else if is(n, "dictionary delete") {
        match one_word(name, positionals, input, "key", out) { Err(f) => return Err(f), Ok(_) => {}, }
    } else if is(n, "undo apply") {
        match undo_apply(name, options, positionals, input, out) { Err(f) => return Err(f), Ok(_) => {}, }
    } else {
        let mut message = chars_of(spec.name);
        append_str(&mut message, " has nothing to send");
        return Err(Failure::usage(string_of(message.as_slice())));
    }
    Ok(extras)
}


/// Splitting a text at a separator where it joins two texts gives the
/// pieces of the one and then those of the other.
proof fn lemma_pieces_join(a: Seq<char>, b: Seq<char>)
    ensures
        pieces(a + seq![','] + b, ',') == pieces(a, ',') + pieces(b, ','),
    decreases a.len(),
{
    let s = a + seq![','] + b;
    if a.len() == 0 {
        assert(s =~= seq![','] + b);
        assert(s.drop_first() =~= b);
        assert(pieces(a, ',') == seq![Seq::<char>::empty()]);
    } else {
        assert(s.drop_first() =~= a.drop_first() + seq![','] + b);
        lemma_pieces_join(a.drop_first(), b);
        crate::text::lemma_pieces_nonempty(a.drop_first(), ',');
        crate::text::lemma_pieces_nonempty(b, ',');
        let rest = pieces(a.drop_first(), ',');
        if a[0] != ',' {
            assert(pieces(s.drop_first(), ',').update(0, seq![s[0]] + pieces(s.drop_first(), ',')[0]) =~= rest.update(
                0,
                seq![a[0]] + rest[0],
            ) + pieces(b, ','));
        } else {
            assert(seq![Seq::<char>::empty()] + (rest + pieces(b, ',')) =~= (seq![Seq::<char>::empty()] + rest) + pieces(b, ','));
        }
    }
}

/// Keeping the parts of two runs keeps those of each.
proof fn lemma_kept_concat(x: Seq<Seq<char>>, y: Seq<Seq<char>>)
    ensures
        kept(x + y) == kept(x) + kept(y),
    decreases y.len(),
{
    if y.len() == 0 {
        assert(x + y =~= x);
        assert(kept(x) + kept(y) =~= kept(x));
    } else {
        assert((x + y).drop_last() =~= x + y.drop_last());
        assert((x + y).last() == y.last());
        lemma_kept_concat(x, y.drop_last());
        if trimmed(y.last()).len() > 0 {
            assert(kept(x) + kept(y.drop_last()).push(trimmed(y.last())) =~= (kept(x) + kept(y.drop_last())).push(
                trimmed(y.last()),
            ));
        }
    }
}

/// The parts of several arguments are the parts of the one text they
/// make joined by commas.
proof fn lemma_all_parts_joined(args: Seq<Seq<char>>)
    ensures
        all_parts(args) == comma_parts(joined(args, seq![','])),
    decreases args.len(),
{
    if args.len() == 0 {
        let ps = seq![Seq::<char>::empty()];
        assert(joined(args, seq![',']) == Seq::<char>::empty());
        assert(pieces(Seq::<char>::empty(), ',') == ps);
        assert(ps.drop_last() =~= Seq::<Seq<char>>::empty());
        assert(ps.last() == Seq::<char>::empty());
        assert(trimmed(Seq::<char>::empty()) == Seq::<char>::empty());
        assert(kept(ps) == kept(ps.drop_last()));
        assert(kept(Seq::<Seq<char>>::empty()) == Seq::<Seq<char>>::empty());
        assert(comma_parts(joined(args, seq![','])) =~= Seq::<Seq<char>>::empty());
    } else if args.len() == 1 {
        assert(args.drop_last() =~= Seq::<Seq<char>>::empty());
        assert(all_parts(args.drop_last()) == Seq::<Seq<char>>::empty());
        assert(args.last() == args[0]);
        assert(joined(args, seq![',']) == args[0]);
        assert(all_parts(args) =~= comma_parts(args[0]));
    } else {
        let front = args.drop_last();
        lemma_all_parts_joined(front);
        assert(front.push(args.last()) =~= args);
        crate::text::lemma_joined_push(front, seq![','], args.last());
        lemma_pieces_join(joined(front, seq![',']), args.last());
        lemma_kept_concat(pieces(joined(front, seq![',']), ','), pieces(args.last(), ','));
    }
}

/// Ids written across several arguments, or joined by commas into one,
/// ask for the same tasks: `3 4 5` and `3,4,5` are one request.
pub proof fn lemma_ids_joined(args: Seq<Seq<char>>)
    ensures
        ids_of(args) == ids_of(seq![joined(args, seq![','])]),
{
    lemma_all_parts_joined(args);
    let one = seq![joined(args, seq![','])];
    assert(one.drop_last() =~= Seq::<Seq<char>>::empty());
    assert(all_parts(one.drop_last()) == Seq::<Seq<char>>::empty());
    assert(one.last() == joined(args, seq![',']));
    assert(all_parts(one) =~= comma_parts(joined(args, seq![','])));
}

/// For the commands that take task ids, the positionals joined by commas
/// into one make the same fields: each of them reads its positionals
/// only as ids.
pub proof fn lemma_fields_joined(name: Seq<char>, options: Opts, positionals: Seq<Seq<char>>, input: bool, out: Fields)
    requires
        name == "task close"@ || name == "task reopen"@ || name == "task move"@ || name == "task delete"@,
    ensures
        fields_of(name, options, positionals, input, out) == fields_of(name, options, seq![joined(positionals, seq![','])], input, out),
{
    lemma_ids_joined(positionals);
    let one = seq![joined(positionals, seq![','])];
    assert(ids_put(name, positionals, input, out) == ids_put(name, one, input, out));
    assert(task_move_of(name, options, positionals, input, out) == task_move_of(name, options, one, input, out));
    assert(task_delete_of(name, options, positionals, input, out) == task_delete_of(name, options, one, input, out));
    reveal_strlit("task list");
    reveal_strlit("task get");
    reveal_strlit("task add");
    reveal_strlit("task update");
    reveal_strlit("task rename");
    reveal_strlit("task focus");
    reveal_strlit("task unfocus");
    reveal_strlit("task waiting");
    reveal_strlit("task unwait");
    reveal_strlit("task due");
    reveal_strlit("task remind");
    reveal_strlit("task close");
    reveal_strlit("task reopen");
    reveal_strlit("task move");
    reveal_strlit("task delete");
    if name == "task close"@ {
        assert(name.len() != "task list"@.len());
        assert(name.len() != "task get"@.len());
        assert(name.len() != "task add"@.len());
        assert(name.len() != "task update"@.len());
        assert(name.len() != "task rename"@.len());
        assert(name[5] != "task focus"@[5]);
        assert(name.len() != "task unfocus"@.len());
        assert(name.len() != "task waiting"@.len());
        assert(name.len() != "task unwait"@.len());
        assert(name.len() != "task due"@.len());
        assert(name.len() != "task remind"@.len());
        assert(name.len() != "task move"@.len());
        assert(name.len() != "task delete"@.len());
    }
    if name == "task reopen"@ {
        assert(name.len() != "task list"@.len());
        assert(name.len() != "task get"@.len());
        assert(name.len() != "task add"@.len());
        assert(name[5] != "task update"@[5]);
        assert(name[7] != "task rename"@[7]);
        assert(name.len() != "task focus"@.len());
        assert(name.len() != "task unfocus"@.len());
        assert(name.len() != "task waiting"@.len());
        assert(name[5] != "task unwait"@[5]);
        assert(name.len() != "task due"@.len());
        assert(name[7] != "task remind"@[7]);
        assert(name.len() != "task move"@.len());
        assert(name[5] != "task delete"@[5]);
    }
    if name == "task move"@ {
        assert(name[5] != "task list"@[5]);
        assert(name.len() != "task get"@.len());
        assert(name.len() != "task add"@.len());
        assert(name.len() != "task update"@.len());
        assert(name.len() != "task rename"@.len());
        assert(name.len() != "task focus"@.len());
        assert(name.len() != "task unfocus"@.len());
        assert(name.len() != "task waiting"@.len());
        assert(name.len() != "task unwait"@.len());
        assert(name.len() != "task due"@.len());
        assert(name.len() != "task remind"@.len());
        assert(name.len() != "task close"@.len());
        assert(name.len() != "task reopen"@.len());
        assert(name.len() != "task delete"@.len());
    }
    if name == "task delete"@ {
        assert(name.len() != "task list"@.len());
        assert(name.len() != "task get"@.len());
        assert(name.len() != "task add"@.len());
        assert(name[5] != "task update"@[5]);
        assert(name[5] != "task rename"@[5]);
        assert(name.len() != "task focus"@.len());
        assert(name.len() != "task unfocus"@.len());
        assert(name.len() != "task waiting"@.len());
        assert(name[5] != "task unwait"@[5]);
        assert(name.len() != "task due"@.len());
        assert(name[5] != "task remind"@[5]);
        assert(name.len() != "task close"@.len());
        assert(name[5] != "task reopen"@[5]);
        assert(name.len() != "task move"@.len());
    }
}


// ---- what task add asks for ------------------------------------------------

/// Whether the flag a field stands for reads as given: `true` where the
/// option was given, and absent where it was not.
pub open spec fn flag_read(f: Fields, field: Seq<char>, options: Opts, option: Seq<char>) -> bool {
    field_of(f, field) == if given(options, option) {
        Some(JsonView::Bool(true))
    } else {
        None
    }
}

/// A field other than the two flags leaves them as they read.
proof fn lemma_put_keeps_flags(fields: Fields, key: Seq<char>, value: JsonView)
    requires
        key != "waiting"@,
        key != "focus"@,
    ensures
        field_of(put(fields, key, value), "waiting"@) == field_of(fields, "waiting"@),
        field_of(put(fields, key, value), "focus"@) == field_of(fields, "focus"@),
{
    crate::cli::json::lemma_field_put(fields, key, value, "waiting"@);
    crate::cli::json::lemma_field_put(fields, key, value, "focus"@);
}

/// The names of the fields `task add` sets besides its flags.
proof fn lemma_other_keys()
    ensures
        "title"@ != "waiting"@ && "title"@ != "focus"@,
        "place"@ != "waiting"@ && "place"@ != "focus"@,
        "due"@ != "waiting"@ && "due"@ != "focus"@,
        "remind"@ != "waiting"@ && "remind"@ != "focus"@,
        "repeat"@ != "waiting"@ && "repeat"@ != "focus"@,
        "position"@ != "waiting"@ && "position"@ != "focus"@,
        "before"@ != "waiting"@ && "before"@ != "focus"@,
        "after"@ != "waiting"@ && "after"@ != "focus"@,
        "waiting"@ != "focus"@,
{
    reveal_strlit("title");
    reveal_strlit("place");
    reveal_strlit("due");
    reveal_strlit("remind");
    reveal_strlit("repeat");
    reveal_strlit("position");
    reveal_strlit("before");
    reveal_strlit("after");
    reveal_strlit("waiting");
    reveal_strlit("focus");
    assert("due"@.len() != "waiting"@.len() && "due"@.len() != "focus"@.len());
    assert("remind"@.len() != "waiting"@.len() && "remind"@.len() != "focus"@.len());
    assert("repeat"@.len() != "waiting"@.len() && "repeat"@.len() != "focus"@.len());
    assert("title"@[0] != "focus"@[0]);
    assert("place"@[0] != "focus"@[0]);
    assert("after"@[0] != "focus"@[0]);
}

/// `--position`, `--before`, `--after` and `--top` set only the fields
/// of those names.
proof fn lemma_where_keys(options: Opts, out: Fields)
    ensures
        where_of(options, out) matches Ok((_, f)) ==> (field_of(f, "waiting"@) == field_of(out, "waiting"@) && field_of(
            f,
            "focus"@,
        ) == field_of(out, "focus"@)),
{
    lemma_other_keys();
    if let Ok(asked) = where_asked(options) {
        if asked.len() == 1 {
            let position = match single_of(options, "--position"@) {
                Ok(Some(t)) => match position_of(t) {
                    Ok(v) => seq![("position"@, v)],
                    Err(_) => Seq::empty(),
                },
                _ => Seq::<(Seq<char>, JsonView)>::empty(),
            };
            assert(asked[0].0 == "position"@ || asked[0].0 == "before"@ || asked[0].0 == "after"@);
            lemma_put_keeps_flags(out, asked[0].0, asked[0].1);
        }
    }
}

/// `task add` asks for a waiting task exactly when `--waiting` is given,
/// and for a task in focus exactly when `--focus` is: each flag is
/// `true` where its option was given and absent where it was not.
pub proof fn lemma_task_add_flags(options: Opts, positionals: Seq<Seq<char>>, input: bool, out: Fields)
    requires
        field_of(out, "waiting"@) is None,
        field_of(out, "focus"@) is None,
    ensures
        task_add_of("task add"@, options, positionals, input, out) matches Ok(f) ==> (flag_read(f, "waiting"@, options, "--waiting"@)
            && flag_read(f, "focus"@, options, "--focus"@)),
        fields_of("task add"@, options, positionals, input, out) matches Ok((f, _)) ==> (flag_read(
            f,
            "waiting"@,
            options,
            "--waiting"@,
        ) && flag_read(f, "focus"@, options, "--focus"@)),
{
    let name = "task add"@;
    lemma_other_keys();
    if let Ok(t) = needed_of(all_of(positionals), input, want(name, "a title"@)) {
        let o1 = match t {
            Some(tt) => put(out, "title"@, JsonView::Text(tt)),
            None => out,
        };
        if let Some(tt) = t {
            lemma_put_keeps_flags(out, "title"@, JsonView::Text(tt));
        }
        if let Ok(o2) = new_place_put(options, name, input, o1) {
            match place_of(options, name) {
                Ok(Some(p)) => lemma_put_keeps_flags(o1, "place"@, p),
                Ok(None) => if !input {
                    lemma_put_keeps_flags(o1, "place"@, backlog_place());
                },
                Err(_) => {},
            }
            let o3 = flag_put(options, "--focus"@, "focus"@, o2);
            let o4 = flag_put(options, "--waiting"@, "waiting"@, o3);
            crate::cli::json::lemma_field_put(o2, "focus"@, JsonView::Bool(true), "focus"@);
            crate::cli::json::lemma_field_put(o2, "focus"@, JsonView::Bool(true), "waiting"@);
            crate::cli::json::lemma_field_put(o3, "waiting"@, JsonView::Bool(true), "focus"@);
            crate::cli::json::lemma_field_put(o3, "waiting"@, JsonView::Bool(true), "waiting"@);
            assert(flag_read(o4, "waiting"@, options, "--waiting"@) && flag_read(o4, "focus"@, options, "--focus"@));
            if let Ok(o5) = date_option_of(options, "--due"@, "due"@, o4) {
                if let Ok(Some(text)) = single_of(options, "--due"@) {
                    lemma_put_keeps_flags(o4, "due"@, date_value(text));
                }
                if let Ok(o6) = date_option_of(options, "--remind"@, "remind"@, o5) {
                    if let Ok(Some(text)) = single_of(options, "--remind"@) {
                        lemma_put_keeps_flags(o5, "remind"@, date_value(text));
                    }
                    if let Ok(Some(text)) = single_of(options, "--repeat"@) {
                        if let Ok(rule) = rule_of(text) {
                            lemma_put_keeps_flags(o6, "repeat"@, rule);
                            lemma_where_keys(options, put(o6, "repeat"@, rule));
                        }
                    } else {
                        lemma_where_keys(options, o6);
                    }
                }
            }
        }
    }
    reveal_strlit("task add");
    reveal_strlit("task list");
    reveal_strlit("task get");
    assert(name.len() != "task list"@.len());
    assert(name[5] != "task get"@[5]);
}


/// A field other than the title and the two dates leaves them as they
/// read.
proof fn lemma_put_keeps_said(fields: Fields, key: Seq<char>, value: JsonView)
    requires
        key != "title"@,
        key != "due"@,
        key != "remind"@,
    ensures
        field_of(put(fields, key, value), "title"@) == field_of(fields, "title"@),
        field_of(put(fields, key, value), "due"@) == field_of(fields, "due"@),
        field_of(put(fields, key, value), "remind"@) == field_of(fields, "remind"@),
{
    crate::cli::json::lemma_field_put(fields, key, value, "title"@);
    crate::cli::json::lemma_field_put(fields, key, value, "due"@);
    crate::cli::json::lemma_field_put(fields, key, value, "remind"@);
}

/// The names `task add` sets besides the title and the two dates.
proof fn lemma_said_keys()
    ensures
        "place"@ != "title"@ && "place"@ != "due"@ && "place"@ != "remind"@,
        "focus"@ != "title"@ && "focus"@ != "due"@ && "focus"@ != "remind"@,
        "waiting"@ != "title"@ && "waiting"@ != "due"@ && "waiting"@ != "remind"@,
        "repeat"@ != "title"@ && "repeat"@ != "due"@ && "repeat"@ != "remind"@,
        "position"@ != "title"@ && "position"@ != "due"@ && "position"@ != "remind"@,
        "before"@ != "title"@ && "before"@ != "due"@ && "before"@ != "remind"@,
        "after"@ != "title"@ && "after"@ != "due"@ && "after"@ != "remind"@,
        "title"@ != "due"@ && "title"@ != "remind"@ && "due"@ != "remind"@,
{
    reveal_strlit("title");
    reveal_strlit("place");
    reveal_strlit("due");
    reveal_strlit("remind");
    reveal_strlit("repeat");
    reveal_strlit("position");
    reveal_strlit("before");
    reveal_strlit("after");
    reveal_strlit("waiting");
    reveal_strlit("focus");
    assert("place"@[0] != "title"@[0] && "place"@.len() != "due"@.len() && "place"@.len() != "remind"@.len());
    assert("focus"@[0] != "title"@[0] && "focus"@.len() != "due"@.len() && "focus"@.len() != "remind"@.len());
    assert("waiting"@.len() != "title"@.len() && "waiting"@.len() != "due"@.len() && "waiting"@.len() != "remind"@.len());
    assert("repeat"@.len() != "title"@.len() && "repeat"@.len() != "due"@.len() && "repeat"@[2] != "remind"@[2]);
    assert("position"@.len() != "title"@.len() && "position"@.len() != "due"@.len() && "position"@.len() != "remind"@.len());
    assert("before"@.len() != "title"@.len() && "before"@.len() != "due"@.len() && "before"@[0] != "remind"@[0]);
    assert("after"@[0] != "title"@[0] && "after"@.len() != "due"@.len() && "after"@.len() != "remind"@.len());
    assert("title"@.len() != "due"@.len() && "title"@.len() != "remind"@.len() && "due"@.len() != "remind"@.len());
}

/// `--position`, `--before`, `--after` and `--top` leave the title and
/// the two dates as they read.
proof fn lemma_where_keeps_said(options: Opts, out: Fields)
    ensures
        where_of(options, out) matches Ok((_, f)) ==> (field_of(f, "title"@) == field_of(out, "title"@) && field_of(f, "due"@)
            == field_of(out, "due"@) && field_of(f, "remind"@) == field_of(out, "remind"@)),
{
    lemma_said_keys();
    if let Ok(asked) = where_asked(options) {
        if asked.len() == 1 {
            assert(asked[0].0 == "position"@ || asked[0].0 == "before"@ || asked[0].0 == "after"@);
            lemma_put_keeps_said(out, asked[0].0, asked[0].1);
        }
    }
}

/// What a date option of `task add` asks for: the date written, where
/// the option was given once, and no such field where it was not.
pub open spec fn date_read(f: Fields, field: Seq<char>, options: Opts, option: Seq<char>) -> bool {
    match single_of(options, option) {
        Ok(Some(t)) => field_of(f, field) == Some(date_value(t)),
        Ok(None) => field_of(f, field) is None,
        Err(_) => true,
    }
}

/// `task add` asks for the title its words make, and for a due date and
/// a reminder exactly where `--due` and `--remind` are given.
pub proof fn lemma_task_add_said(options: Opts, positionals: Seq<Seq<char>>, input: bool, out: Fields)
    requires
        field_of(out, "title"@) is None,
        field_of(out, "due"@) is None,
        field_of(out, "remind"@) is None,
    ensures
        task_add_of("task add"@, options, positionals, input, out) matches Ok(f) ==> ((positionals.len() > 0 ==> field_of(
            f,
            "title"@,
        ) == Some(JsonView::Text(joined(positionals, seq![' '])))) && date_read(f, "due"@, options, "--due"@) && date_read(
            f,
            "remind"@,
            options,
            "--remind"@,
        )),
{
    let name = "task add"@;
    lemma_said_keys();
    if let Ok(t) = needed_of(all_of(positionals), input, want(name, "a title"@)) {
        let o1 = match t {
            Some(tt) => put(out, "title"@, JsonView::Text(tt)),
            None => out,
        };
        if let Some(tt) = t {
            crate::cli::json::lemma_field_put(out, "title"@, JsonView::Text(tt), "title"@);
            crate::cli::json::lemma_field_put(out, "title"@, JsonView::Text(tt), "due"@);
            crate::cli::json::lemma_field_put(out, "title"@, JsonView::Text(tt), "remind"@);
        }
        if let Ok(o2) = new_place_put(options, name, input, o1) {
            match place_of(options, name) {
                Ok(Some(p)) => lemma_put_keeps_said(o1, "place"@, p),
                Ok(None) => if !input {
                    lemma_put_keeps_said(o1, "place"@, backlog_place());
                },
                Err(_) => {},
            }
            let o3 = flag_put(options, "--focus"@, "focus"@, o2);
            let o4 = flag_put(options, "--waiting"@, "waiting"@, o3);
            lemma_put_keeps_said(o2, "focus"@, JsonView::Bool(true));
            lemma_put_keeps_said(o3, "waiting"@, JsonView::Bool(true));
            if let Ok(o5) = date_option_of(options, "--due"@, "due"@, o4) {
                if let Ok(Some(text)) = single_of(options, "--due"@) {
                    crate::cli::json::lemma_field_put(o4, "due"@, date_value(text), "title"@);
                    crate::cli::json::lemma_field_put(o4, "due"@, date_value(text), "due"@);
                    crate::cli::json::lemma_field_put(o4, "due"@, date_value(text), "remind"@);
                }
                if let Ok(o6) = date_option_of(options, "--remind"@, "remind"@, o5) {
                    if let Ok(Some(text)) = single_of(options, "--remind"@) {
                        crate::cli::json::lemma_field_put(o5, "remind"@, date_value(text), "title"@);
                        crate::cli::json::lemma_field_put(o5, "remind"@, date_value(text), "due"@);
                        crate::cli::json::lemma_field_put(o5, "remind"@, date_value(text), "remind"@);
                    }
                    if let Ok(Some(text)) = single_of(options, "--repeat"@) {
                        if let Ok(rule) = rule_of(text) {
                            lemma_put_keeps_said(o6, "repeat"@, rule);
                            lemma_where_keeps_said(options, put(o6, "repeat"@, rule));
                        }
                    } else {
                        lemma_where_keeps_said(options, o6);
                    }
                }
            }
        }
    }
}


/// A field set after the place leaves it as it reads.
proof fn lemma_put_keeps_place(fields: Fields, key: Seq<char>, value: JsonView)
    requires
        key != "place"@,
    ensures
        field_of(put(fields, key, value), "place"@) == field_of(fields, "place"@),
{
    crate::cli::json::lemma_field_put(fields, key, value, "place"@);
}

/// `task add` puts the task where `--to` says, and in the backlog where
/// nothing says where and no input is to follow.
pub proof fn lemma_task_add_place(options: Opts, positionals: Seq<Seq<char>>, input: bool, out: Fields)
    ensures
        task_add_of("task add"@, options, positionals, input, out) matches Ok(f) ==> (match place_of(options, "task add"@) {
            Ok(Some(p)) => field_of(f, "place"@) == Some(p),
            Ok(None) => !input ==> field_of(f, "place"@) == Some(backlog_place()),
            Err(_) => true,
        }),
{
    let name = "task add"@;
    reveal_strlit("place");
    reveal_strlit("focus");
    reveal_strlit("waiting");
    reveal_strlit("due");
    reveal_strlit("remind");
    reveal_strlit("repeat");
    reveal_strlit("position");
    reveal_strlit("before");
    reveal_strlit("after");
    assert("focus"@[0] != "place"@[0]);
    assert("waiting"@.len() != "place"@.len() && "due"@.len() != "place"@.len() && "remind"@.len() != "place"@.len());
    assert("repeat"@.len() != "place"@.len() && "position"@.len() != "place"@.len() && "before"@.len() != "place"@.len());
    assert("after"@[0] != "place"@[0]);
    if let Ok(t) = needed_of(all_of(positionals), input, want(name, "a title"@)) {
        let o1 = match t {
            Some(tt) => put(out, "title"@, JsonView::Text(tt)),
            None => out,
        };
        if let Ok(o2) = new_place_put(options, name, input, o1) {
            match place_of(options, name) {
                Ok(Some(p)) => crate::cli::json::lemma_field_put(o1, "place"@, p, "place"@),
                Ok(None) => if !input {
                    crate::cli::json::lemma_field_put(o1, "place"@, backlog_place(), "place"@);
                },
                Err(_) => {},
            }
            let o3 = flag_put(options, "--focus"@, "focus"@, o2);
            let o4 = flag_put(options, "--waiting"@, "waiting"@, o3);
            lemma_put_keeps_place(o2, "focus"@, JsonView::Bool(true));
            lemma_put_keeps_place(o3, "waiting"@, JsonView::Bool(true));
            if let Ok(o5) = date_option_of(options, "--due"@, "due"@, o4) {
                if let Ok(Some(text)) = single_of(options, "--due"@) {
                    lemma_put_keeps_place(o4, "due"@, date_value(text));
                }
                if let Ok(o6) = date_option_of(options, "--remind"@, "remind"@, o5) {
                    if let Ok(Some(text)) = single_of(options, "--remind"@) {
                        lemma_put_keeps_place(o5, "remind"@, date_value(text));
                    }
                    let o7 = match single_of(options, "--repeat"@) {
                        Ok(Some(text)) => match rule_of(text) {
                            Ok(rule) => put(o6, "repeat"@, rule),
                            Err(_) => o6,
                        },
                        _ => o6,
                    };
                    if let Ok(Some(text)) = single_of(options, "--repeat"@) {
                        if let Ok(rule) = rule_of(text) {
                            lemma_put_keeps_place(o6, "repeat"@, rule);
                        }
                    }
                    if let Ok(asked) = where_asked(options) {
                        if asked.len() == 1 {
                            assert(asked[0].0 == "position"@ || asked[0].0 == "before"@ || asked[0].0 == "after"@);
                            lemma_put_keeps_place(o7, asked[0].0, asked[0].1);
                        }
                    }
                }
            }
        }
    }
}

} // verus!
