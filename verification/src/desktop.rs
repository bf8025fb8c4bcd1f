//! The Hyprland window rule, which the program keeps for itself.
//!
//! Two settings are not the program's to obey: whether its window floats
//! and how big it is are the window manager's, and it is told about them
//! by a block in its own configuration. The block belongs to the program,
//! so the install script does not write it and the settings page can
//! change it without an install. Here is the text of that block, where it
//! goes in the file, and what Hyprland's answer to a reload means; the
//! reading and writing of the file is the program's edge.

use vstd::prelude::*;
use crate::domain::WindowSize;
use crate::text::{
    append_all, append_str, chars_of, contains_run, decimal, decimal_of, holds_run, join,
    pieces, slice_of, split_on, string_of, trim, trimmed, views,
};

verus! {

/// The line the block begins with. The two markers stay even when
/// nothing is between them, so that an uninstall still finds the block to
/// remove.
pub const BEGIN: &'static str = "-- jobsdone: window (begin)";

/// The line the block ends with.
pub const END: &'static str = "-- jobsdone: window (end)";

/// What is said when there is no Hyprland to tell. The setting is kept
/// either way: a database carried to a machine that has one is a machine
/// that gets the window it was asked for.
pub const ABSENT: &'static str = "Hyprland is not here; the setting is kept for when it is.";

/// A path as the contracts speak of it.
pub open spec fn path_view(path: Option<String>) -> Option<Seq<char>> {
    match path {
        Some(p) => Some(p@),
        None => None,
    }
}

/// Hyprland as this program talks to it: one file, whose path is found
/// at the edge from the XDG configuration directory, or nothing when
/// there is no home directory to find it under.
pub struct Hyprland {
    bindings: Option<String>,
}

impl Hyprland {
    /// The Hyprland whose bindings file is at the path given.
    pub fn at(bindings: Option<String>) -> (h: Hyprland)
        ensures
            h.bindings_view() == path_view(bindings),
    {
        Hyprland { bindings }
    }

    pub closed spec fn bindings_view(&self) -> Option<Seq<char>> {
        path_view(self.bindings)
    }

    /// The path of the bindings file.
    pub fn bindings(&self) -> (r: Option<&String>)
        ensures
            match r {
                Some(b) => self.bindings_view() == Some(b@),
                None => self.bindings_view() is None,
            },
    {
        self.bindings.as_ref()
    }

    /// Whether there is somewhere to write the rule: a configuration
    /// directory, or a Hyprland running to write it for. The directory
    /// alone counts, so that the rule can be put in place from a terminal
    /// on another compositor and be there at the next login.
    pub fn available(&self, directory_exists: bool, running: bool) -> (r: bool)
        ensures
            r == ((self.bindings_view() is Some && directory_exists) || running),
    {
        (self.bindings.is_some() && directory_exists) || running
    }
}

/// The rule that makes the window float, centred, at a size. What the
/// window says it is, `org.omarchy.jobsdone`, is what the rule matches on.
pub open spec fn window_rule(size: WindowSize) -> Seq<char> {
    "o.window(\"org.omarchy.jobsdone\", { float = true, center = true, size = { "@
        + decimal(size.width as nat) + ", "@ + decimal(size.height as nat) + " } })"@
}

/// The block as it is written, markers included. A tiled window is the
/// absence of a rule rather than a rule of its own.
pub open spec fn block_text(floating: bool, size: WindowSize) -> Seq<char> {
    if floating {
        BEGIN@ + "\n"@ + window_rule(size) + "\n"@ + END@
    } else {
        BEGIN@ + "\n"@ + END@
    }
}

/// The block as it is written, markers included.
pub fn block(floating: bool, size: WindowSize) -> (text: String)
    ensures
        text@ == block_text(floating, size),
{
    let mut out: Vec<char> = chars_of(BEGIN);
    append_str(&mut out, "\n");
    if floating {
        append_str(&mut out, "o.window(\"org.omarchy.jobsdone\", { float = true, center = true, size = { ");
        let width = decimal_of(size.width as u64);
        append_all(&mut out, width.as_slice());
        append_str(&mut out, ", ");
        let height = decimal_of(size.height as u64);
        append_all(&mut out, height.as_slice());
        append_str(&mut out, " } })");
        append_str(&mut out, "\n");
    }
    append_str(&mut out, END);
    string_of(out.as_slice())
}

/// A line without the carriage return of a `\r\n` ending.
pub open spec fn without_cr(line: Seq<char>) -> Seq<char> {
    if line.len() > 0 && line.last() == '\r' {
        line.drop_last()
    } else {
        line
    }
}

/// `str::lines`: the text split at each `\n`, a `\r` before it taken off
/// with it, and no empty line after a final line ending.
pub open spec fn lines_of(s: Seq<char>) -> Seq<Seq<char>> {
    let parts = pieces(s, '\n');
    let ended = Seq::new((parts.len() - 1) as nat, |i: int| without_cr(parts[i]));
    if parts.last().len() > 0 {
        ended.push(parts.last())
    } else {
        ended
    }
}

fn drop_cr(line: &Vec<char>) -> (r: Vec<char>)
    ensures
        r@ == without_cr(line@),
{
    let n = line.len();
    if n > 0 && line[n - 1] == '\r' {
        let mut r: Vec<char> = Vec::new();
        let mut i: usize = 0;
        while i < n - 1
            invariant
                n == line@.len(),
                n > 0,
                i <= n - 1,
                r@ == line@.subrange(0, i as int),
            decreases n - 1 - i,
        {
            r.push(line[i]);
            i = i + 1;
        }
        r
    } else {
        copied(line)
    }
}

/// A line of its own, the same as the one it was taken from.
fn copied(line: &Vec<char>) -> (r: Vec<char>)
    ensures
        r@ == line@,
{
    let r = slice_of(line.as_slice(), 0, line.len());
    assert(line@.subrange(0, line@.len() as int) =~= line@);
    r
}

/// The lines of a text.
fn lines(s: &[char]) -> (r: Vec<Vec<char>>)
    ensures
        views(r@) == lines_of(s@),
{
    let parts = split_on(s, '\n');
    proof {
        crate::text::lemma_pieces_nonempty(s@, '\n');
    }
    let ghost all = pieces(s@, '\n');
    let count = parts.len() - 1;
    let ghost ended = Seq::new(count as nat, |i: int| without_cr(all[i]));
    let mut out: Vec<Vec<char>> = Vec::new();
    let mut i: usize = 0;
    while i < count
        invariant
            views(parts@) == all,
            count == parts@.len() - 1,
            ended == Seq::new(count as nat, |i: int| without_cr(all[i])),
            i <= count,
            views(out@) == ended.subrange(0, i as int),
        decreases count - i,
    {
        let line = drop_cr(&parts[i]);
        let ghost was = out@;
        out.push(line);
        proof {
            crate::text::lemma_views_push(was, out@.last());
            assert(all[i as int] == parts@[i as int]@);
            assert(views(out@) =~= ended.subrange(0, i + 1));
        }
        i = i + 1;
    }
    assert(ended.subrange(0, count as int) =~= ended);
    assert(all.last() == parts@[count as int]@);
    if parts[count].len() > 0 {
        let ghost was = out@;
        out.push(copied(&parts[count]));
        proof { crate::text::lemma_views_push(was, out@.last()); }
        assert(views(out@) =~= ended.push(all.last()));
    }
    out
}

/// Where the first line that is `marker`, spaces around it aside, stands;
/// the number of lines when none is.
pub open spec fn first_marked(lines: Seq<Seq<char>>, marker: Seq<char>) -> int
    decreases lines.len(),
{
    if lines.len() == 0 {
        0
    } else if trimmed(lines[0]) == marker {
        0
    } else {
        1 + first_marked(lines.drop_first(), marker)
    }
}

proof fn lemma_first_marked_bounds(lines: Seq<Seq<char>>, marker: Seq<char>)
    ensures
        0 <= first_marked(lines, marker) <= lines.len(),
        first_marked(lines, marker) < lines.len() ==> trimmed(lines[first_marked(lines, marker)])
            == marker,
    decreases lines.len(),
{
    if lines.len() > 0 && trimmed(lines[0]) != marker {
        lemma_first_marked_bounds(lines.drop_first(), marker);
    }
}

fn find_marked(lines: &Vec<Vec<char>>, marker: &str) -> (at: usize)
    ensures
        at == first_marked(views(lines@), marker@),
{
    let ghost all = views(lines@);
    let mut i: usize = 0;
    assert(all.subrange(0, all.len() as int) =~= all);
    while i < lines.len()
        invariant
            all == views(lines@),
            i <= lines@.len(),
            first_marked(all, marker@) == i + first_marked(all.subrange(i as int, all.len() as int), marker@),
        decreases lines@.len() - i,
    {
        let ghost rest = all.subrange(i as int, all.len() as int);
        let t = trim(lines[i].as_slice());
        let m = chars_of(marker);
        if crate::text::same(t.as_slice(), m.as_slice()) {
            assert(rest[0] == lines@[i as int]@);
            return i;
        }
        assert(rest[0] == lines@[i as int]@);
        assert(rest.drop_first() =~= all.subrange(i + 1, all.len() as int));
        i = i + 1;
    }
    i
}

/// The lines with the blank ones at their end taken off.
pub open spec fn without_blank_tail(lines: Seq<Seq<char>>) -> Seq<Seq<char>>
    decreases lines.len(),
{
    if lines.len() > 0 && trimmed(lines.last()).len() == 0 {
        without_blank_tail(lines.drop_last())
    } else {
        lines
    }
}

/// The lines of the file with the block's lines in place: where the
/// block already was, so that rewriting it never moves anybody's own
/// lines, and at the end otherwise, after a blank line when anything is
/// above it.
pub open spec fn kept_lines(lines: Seq<Seq<char>>, block: Seq<Seq<char>>) -> Seq<Seq<char>> {
    let begin = first_marked(lines, BEGIN@);
    let end = first_marked(lines, END@);
    if begin < lines.len() && end < lines.len() && end >= begin {
        lines.subrange(0, begin) + block + lines.subrange(end + 1, lines.len() as int)
    } else {
        let above = without_blank_tail(lines);
        if above.len() > 0 {
            above.push(Seq::empty()) + block
        } else {
            above + block
        }
    }
}

/// The file with the block in it, ending in a line ending.
pub open spec fn with_block_text(text: Seq<char>, block: Seq<char>) -> Seq<char> {
    crate::text::joined(kept_lines(lines_of(text), lines_of(block)).push(Seq::empty()), "\n"@)
}

/// The file with the block in it: where the block already was, so that
/// rewriting it never moves anybody's own lines, and at the end
/// otherwise.
pub fn with_block(text: &str, block: &str) -> (now: String)
    ensures
        now@ == with_block_text(text@, block@),
{
    let all = chars_of(text);
    let file = lines(all.as_slice());
    let block_chars = chars_of(block);
    let block_lines = lines(block_chars.as_slice());
    let ghost ls = views(file@);
    let ghost bs = views(block_lines@);
    let begin = find_marked(&file, BEGIN);
    let end = find_marked(&file, END);
    proof {
        lemma_first_marked_bounds(ls, BEGIN@);
        lemma_first_marked_bounds(ls, END@);
    }
    let mut kept: Vec<Vec<char>> = Vec::new();
    if begin < file.len() && end < file.len() && end >= begin {
        let mut i: usize = 0;
        while i < begin
            invariant
                ls == views(file@),
                begin < file@.len(),
                i <= begin,
                views(kept@) == ls.subrange(0, i as int),
            decreases begin - i,
        {
            let ghost was = kept@;
            kept.push(copied(&file[i]));
            proof { crate::text::lemma_views_push(was, kept@.last()); }
            assert(views(kept@) =~= ls.subrange(0, i + 1));
            i = i + 1;
        }
        let mut j: usize = 0;
        while j < block_lines.len()
            invariant
                bs == views(block_lines@),
                j <= block_lines@.len(),
                views(kept@) == ls.subrange(0, begin as int) + bs.subrange(0, j as int),
            decreases block_lines@.len() - j,
        {
            let ghost was = kept@;
            kept.push(copied(&block_lines[j]));
            proof { crate::text::lemma_views_push(was, kept@.last()); }
            assert(views(kept@) =~= ls.subrange(0, begin as int) + bs.subrange(0, j + 1));
            j = j + 1;
        }
        assert(bs.subrange(0, bs.len() as int) =~= bs);
        let mut k: usize = end + 1;
        while k < file.len()
            invariant
                ls == views(file@),
                end < file@.len(),
                end + 1 <= k <= file@.len(),
                views(kept@) == ls.subrange(0, begin as int) + bs + ls.subrange(end + 1, k as int),
            decreases file@.len() - k,
        {
            let ghost was = kept@;
            kept.push(copied(&file[k]));
            proof { crate::text::lemma_views_push(was, kept@.last()); }
            assert(views(kept@) =~= ls.subrange(0, begin as int) + bs + ls.subrange(end + 1, k + 1));
            k = k + 1;
        }
    } else {
        let mut top: usize = file.len();
        assert(ls.subrange(0, ls.len() as int) =~= ls);
        while top > 0 && blank(&file[top - 1])
            invariant
                ls == views(file@),
                top <= file@.len(),
                without_blank_tail(ls) == without_blank_tail(ls.subrange(0, top as int)),
            decreases top,
        {
            proof {
                let upto = ls.subrange(0, top as int);
                assert(upto.drop_last() =~= ls.subrange(0, top - 1));
            }
            top = top - 1;
        }
        proof {
            let upto = ls.subrange(0, top as int);
            assert(ls.subrange(0, ls.len() as int) =~= ls);
            assert(without_blank_tail(upto) == upto);
        }
        let ghost above = ls.subrange(0, top as int);
        let mut i: usize = 0;
        while i < top
            invariant
                ls == views(file@),
                top <= file@.len(),
                above == ls.subrange(0, top as int),
                i <= top,
                views(kept@) == ls.subrange(0, i as int),
            decreases top - i,
        {
            let ghost was = kept@;
            kept.push(copied(&file[i]));
            proof { crate::text::lemma_views_push(was, kept@.last()); }
            assert(views(kept@) =~= ls.subrange(0, i + 1));
            i = i + 1;
        }
        if top > 0 {
            let ghost was = kept@;
            kept.push(Vec::new());
            proof { crate::text::lemma_views_push(was, kept@.last()); }
            assert(views(kept@) =~= above.push(Seq::empty()));
        }
        let ghost start = views(kept@);
        let mut j: usize = 0;
        while j < block_lines.len()
            invariant
                bs == views(block_lines@),
                j <= block_lines@.len(),
                views(kept@) == start + bs.subrange(0, j as int),
            decreases block_lines@.len() - j,
        {
            let ghost was = kept@;
            kept.push(copied(&block_lines[j]));
            proof { crate::text::lemma_views_push(was, kept@.last()); }
            assert(views(kept@) =~= start + bs.subrange(0, j + 1));
            j = j + 1;
        }
        assert(bs.subrange(0, bs.len() as int) =~= bs);
    }
    let ghost before = views(kept@);
    let ghost was = kept@;
    kept.push(Vec::new());
    proof { crate::text::lemma_views_push(was, kept@.last()); }
    assert(views(kept@) =~= before.push(Seq::empty()));
    proof {
        reveal_strlit("\n");
        assert("\n"@ =~= seq!['\n']);
        assert(ls == lines_of(text@));
        assert(bs == lines_of(block@));
        assert(views(kept@) == kept_lines(ls, bs).push(Seq::empty()));
    }
    let joined = join(kept.as_slice(), '\n');
    string_of(joined.as_slice())
}

/// Whether a line is blank, spaces aside.
fn blank(line: &Vec<char>) -> (r: bool)
    ensures
        r == (trimmed(line@).len() == 0),
{
    let t = trim(line.as_slice());
    t.len() == 0
}

/// The first line of what Hyprland says about its configuration that is
/// an error: not blank, and not its word that there are none.
pub open spec fn first_error(lines: Seq<Seq<char>>) -> Option<Seq<char>>
    decreases lines.len(),
{
    if lines.len() == 0 {
        None
    } else if trimmed(lines[0]).len() > 0 && !holds_run(trimmed(lines[0]), "no errors"@) {
        Some(trimmed(lines[0]))
    } else {
        first_error(lines.drop_first())
    }
}

/// What a reload comes to, from what Hyprland says about its
/// configuration afterwards: taken, or refused with the first error it
/// names.
pub open spec fn reload_outcome(errors: Seq<char>) -> Result<(), Seq<char>> {
    match first_error(lines_of(errors)) {
        Some(error) => Err("Hyprland did not take the rule: "@ + error),
        None => Ok(()),
    }
}

/// What a reload comes to, from what `hyprctl configerrors` printed.
pub fn reload_verdict(errors: &str) -> (verdict: Result<(), String>)
    ensures
        verdict matches Ok(()) ==> reload_outcome(errors@) == Ok::<(), Seq<char>>(()),
        verdict matches Err(said) ==> reload_outcome(errors@) == Err::<(), Seq<char>>(said@),
{
    let all = chars_of(errors);
    let said = lines(all.as_slice());
    let ghost ls = views(said@);
    let mut i: usize = 0;
    assert(ls.subrange(0, ls.len() as int) =~= ls);
    while i < said.len()
        invariant
            ls == views(said@),
            ls == lines_of(errors@),
            i <= said@.len(),
            first_error(ls) == first_error(ls.subrange(i as int, ls.len() as int)),
        decreases said@.len() - i,
    {
        let ghost rest = ls.subrange(i as int, ls.len() as int);
        let line = trim(said[i].as_slice());
        assert(rest[0] == said@[i as int]@);
        if line.len() > 0 && !contains_run(line.as_slice(), "no errors") {
            let mut message = chars_of("Hyprland did not take the rule: ");
            append_all(&mut message, line.as_slice());
            assert(first_error(rest) == Some(line@));
            assert(reload_outcome(errors@) == Err::<(), Seq<char>>(message@));
            return Err(string_of(message.as_slice()));
        }
        assert(rest.drop_first() =~= ls.subrange(i + 1, ls.len() as int));
        i = i + 1;
    }
    Ok(())
}

} // verus!
