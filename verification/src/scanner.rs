//! Which files of a project are indexed, and the symbols that they declare.

use vstd::prelude::*;

use crate::text::{
    ascii_alphanumeric, drop_leading, lines, lines_of, same_text, slice_text, strip_prefix, texts,
    to_chars, trim_start, trimmed_start, after_prefix,
};
use crate::types::{symbol_views, FileEntry, FileView, SymbolEntry, SymbolView};

verus! {

// ---------------------------------------------------------------------------
// Project names
// ---------------------------------------------------------------------------

/// Whether a character is an ASCII letter or digit.
pub fn is_ascii_alphanumeric(c: char) -> (answer: bool)
    ensures
        answer == ascii_alphanumeric(c),
{
    ('a' <= c && c <= 'z') || ('A' <= c && c <= 'Z') || ('0' <= c && c <= '9')
}

/// Whether a character can stand in a project name.
pub open spec fn name_char(c: char) -> bool {
    ascii_alphanumeric(c) || c == '_' || c == '-'
}

/// The name of the project at a path: the path without leading slashes, with a hyphen in the
/// place of each character that cannot stand in a name.
pub open spec fn project_name_of(path: Seq<char>) -> Seq<char> {
    drop_leading(path, |c: char| c == '/').map_values(
        |c: char|
            if name_char(c) {
                c
            } else {
                '-'
            },
    )
}

/// The name of the project at a path.
pub fn project_name(path: &str) -> (name: String)
    ensures
        name@ == project_name_of(path@),
{
    let chars = to_chars(path);
    let ghost slash = |c: char| c == '/';
    let mut start: usize = 0;
    assert(chars@.skip(0) =~= chars@);
    while start < chars.len() && chars[start] == '/'
        invariant
            start <= chars@.len(),
            slash == (|c: char| c == '/'),
            drop_leading(chars@.skip(start as int), slash) == drop_leading(chars@, slash),
        decreases chars.len() - start,
    {
        assert(chars@.skip(start as int).skip(1) =~= chars@.skip(start + 1));
        start = start + 1;
    }
    let ghost rest = chars@.skip(start as int);
    assert(rest == drop_leading(chars@, slash));
    let mut name = String::new();
    let mut i: usize = start;
    assert(project_name_of(path@).take(0) =~= Seq::empty());
    while i < chars.len()
        invariant
            start <= i <= chars@.len(),
            chars@ == path@,
            rest == chars@.skip(start as int),
            rest == drop_leading(path@, |c: char| c == '/'),
            name@ == project_name_of(path@).take(i - start),
        decreases chars.len() - i,
    {
        let c = chars[i];
        assert(rest[i - start] == c);
        if is_ascii_alphanumeric(c) || c == '_' || c == '-' {
            name.push(c);
        } else {
            name.push('-');
        }
        i = i + 1;
        assert(project_name_of(path@).take(i - start) =~= project_name_of(path@).take(
            i - 1 - start,
        ).push(project_name_of(path@)[i - 1 - start]));
    }
    assert(project_name_of(path@).take(i - start) =~= project_name_of(path@));
    name
}

/// A project name holds characters that can stand in one and nothing else, no slash among them.
pub proof fn project_name_is_plain(path: Seq<char>)
    ensures
        forall|i: int|
            0 <= i < project_name_of(path).len() ==> name_char(
                #[trigger] project_name_of(path)[i],
            ),
        !project_name_of(path).contains('/'),
{
}

/// Naming a project name again leaves it as it is.
pub proof fn project_name_is_stable(path: Seq<char>)
    ensures
        project_name_of(project_name_of(path)) == project_name_of(path),
{
    let name = project_name_of(path);
    assert(drop_leading(name, |c: char| c == '/') == name) by {
        if name.len() > 0 {
            assert(name_char(name[0]));
        }
    }
    assert(project_name_of(name) =~= name);
}

// ---------------------------------------------------------------------------
// Which entries are read
// ---------------------------------------------------------------------------

/// Whether a directory of that name is left out of an index.
pub open spec fn skipped_directory(name: Seq<char>) -> bool {
    name == ".git"@ || name == "target"@ || name == ".clab"@ || name == ".ai-bridge"@ || name
        == ".venv"@ || name == "node_modules"@ || name == "dist"@
}

/// The size in bytes above which a file is left out of an index.
pub const MAX_FILE_BYTES: u64 = 1_000_000;

/// What a directory entry is.
#[derive(Debug, Clone, Copy, PartialEq, Eq)]
pub enum EntryKind {
    Directory,
    File,
    Other,
}

/// What is done with a directory entry.
#[derive(Debug, Clone, Copy, PartialEq, Eq)]
pub enum ScanStep {
    /// Its entries are scanned.
    Descend,
    /// Its text is read.
    Read,
    /// It is left out.
    Skip,
}

/// What is done with a directory entry of that kind, name and size.
pub open spec fn scan_step_of(kind: EntryKind, name: Seq<char>, bytes: int) -> ScanStep {
    match kind {
        EntryKind::Directory => if skipped_directory(name) {
            ScanStep::Skip
        } else {
            ScanStep::Descend
        },
        EntryKind::File => if bytes <= MAX_FILE_BYTES {
            ScanStep::Read
        } else {
            ScanStep::Skip
        },
        EntryKind::Other => ScanStep::Skip,
    }
}

/// What is done with a directory entry of that kind, name and size.
pub fn scan_step(kind: EntryKind, name: &str, bytes: u64) -> (step: ScanStep)
    ensures
        step == scan_step_of(kind, name@, bytes as int),
{
    match kind {
        EntryKind::Directory => {
            if same_text(name, ".git") || same_text(name, "target") || same_text(name, ".clab")
                || same_text(name, ".ai-bridge") || same_text(name, ".venv") || same_text(
                name,
                "node_modules",
            ) || same_text(name, "dist") {
                ScanStep::Skip
            } else {
                ScanStep::Descend
            }
        },
        EntryKind::File => {
            if bytes <= MAX_FILE_BYTES {
                ScanStep::Read
            } else {
                ScanStep::Skip
            }
        },
        EntryKind::Other => ScanStep::Skip,
    }
}

/// A path with slashes in the place of backslashes.
pub open spec fn with_slashes(path: Seq<char>) -> Seq<char> {
    path.map_values(
        |c: char|
            if c == '\\' {
                '/'
            } else {
                c
            },
    )
}

/// The entry for a file that was read: `relative` is its path below the project's root.
pub fn scan_file(relative: &str, bytes: u64, text: String) -> (entry: FileEntry)
    ensures
        entry@ == (FileView {
            path: with_slashes(relative@),
            bytes: bytes as int,
            lines: lines_of(text@).len() as int,
            text: text@,
        }),
{
    let chars = to_chars(relative);
    let mut path = String::new();
    let mut i: usize = 0;
    assert(with_slashes(relative@).take(0) =~= Seq::empty());
    while i < chars.len()
        invariant
            i <= chars@.len(),
            chars@ == relative@,
            path@ == with_slashes(relative@).take(i as int),
        decreases chars.len() - i,
    {
        if chars[i] == '\\' {
            path.push('/');
        } else {
            path.push(chars[i]);
        }
        i = i + 1;
        assert(with_slashes(relative@).take(i as int) =~= with_slashes(relative@).take(
            i - 1,
        ).push(with_slashes(relative@)[i - 1]));
    }
    assert(with_slashes(relative@).take(i as int) =~= with_slashes(relative@));
    let split = lines(text.as_str());
    let count: usize = split.len();
    assert(texts(split@).len() == split@.len());
    FileEntry { path, bytes, lines: count, text }
}

// ---------------------------------------------------------------------------
// Symbols
// ---------------------------------------------------------------------------

/// Whether a character can stand in a symbol's name.
pub open spec fn symbol_char(c: char) -> bool {
    ascii_alphanumeric(c) || c == '_'
}

/// The longest beginning of a text that can be a symbol's name.
pub open spec fn leading_symbol(text: Seq<char>) -> Seq<char>
    decreases text.len(),
{
    if text.len() > 0 && symbol_char(text[0]) {
        seq![text[0]] + leading_symbol(text.skip(1))
    } else {
        Seq::empty()
    }
}

/// What a line declares: the label of the symbol and what follows the keywords.
pub open spec fn declared_in(line: Seq<char>) -> Option<(Seq<char>, Seq<char>)> {
    let text = trimmed_start(line);
    if let Some(rest) = after_prefix(text, "fn "@) {
        Some(("Function"@, rest))
    } else if let Some(rest) = after_prefix(text, "pub fn "@) {
        Some(("Function"@, rest))
    } else if let Some(rest) = after_prefix(text, "def "@) {
        Some(("Function"@, rest))
    } else if let Some(rest) = after_prefix(text, "class "@) {
        Some(("Class"@, rest))
    } else if let Some(rest) = after_prefix(text, "struct "@) {
        Some(("Class"@, rest))
    } else if let Some(rest) = after_prefix(text, "pub struct "@) {
        Some(("Class"@, rest))
    } else {
        None
    }
}

/// The symbol that a line of a file declares.
pub open spec fn symbol_in(file: Seq<char>, line: Seq<char>, number: int) -> Option<SymbolView> {
    match declared_in(line) {
        Some((label, rest)) => {
            let name = leading_symbol(rest);
            if name.len() == 0 {
                None
            } else {
                Some(SymbolView { name, label, file, line: number })
            }
        },
        None => None,
    }
}

/// The symbols that lines of a file declare, in their order. Lines are counted from one.
pub open spec fn symbols_in(file: Seq<char>, lines: Seq<Seq<char>>) -> Seq<SymbolView>
    decreases lines.len(),
{
    if lines.len() == 0 {
        Seq::empty()
    } else {
        let earlier = symbols_in(file, lines.drop_last());
        match symbol_in(file, lines.last(), lines.len() as int) {
            Some(symbol) => earlier.push(symbol),
            None => earlier,
        }
    }
}

fn symbol_name(text: &str) -> (name: String)
    ensures
        name@ == leading_symbol(text@),
{
    let chars = to_chars(text);
    let mut end: usize = 0;
    assert(chars@.skip(0) =~= chars@);
    assert(chars@.take(0) + leading_symbol(chars@) =~= leading_symbol(chars@));
    while end < chars.len() && (is_ascii_alphanumeric(chars[end]) || chars[end] == '_')
        invariant
            end <= chars@.len(),
            chars@.take(end as int) + leading_symbol(chars@.skip(end as int)) == leading_symbol(
                chars@,
            ),
        decreases chars.len() - end,
    {
        assert(chars@.skip(end as int)[0] == chars@[end as int]);
        assert(chars@.skip(end as int).skip(1) =~= chars@.skip(end + 1));
        assert(chars@.take(end + 1) + leading_symbol(chars@.skip(end + 1)) =~= chars@.take(
            end as int,
        ) + (seq![chars@[end as int]] + leading_symbol(chars@.skip(end + 1))));
        end = end + 1;
    }
    assert(end < chars@.len() ==> chars@.skip(end as int)[0] == chars@[end as int]);
    assert(chars@.take(end as int) + Seq::<char>::empty() =~= chars@.take(end as int));
    assert(chars@.take(end as int) =~= chars@.subrange(0, end as int));
    slice_text(&chars, 0, end)
}

/// What a line declares: the label of the symbol and what follows the keywords.
pub fn declaration(line: &str) -> (declared: Option<(&'static str, String)>)
    ensures
        match declared {
            Some((label, rest)) => declared_in(line@) == Some((label@, rest@)),
            None => declared_in(line@) is None,
        },
{
    let text = trim_start(line);
    if let Some(rest) = strip_prefix(text.as_str(), "fn ") {
        Some(("Function", rest))
    } else if let Some(rest) = strip_prefix(text.as_str(), "pub fn ") {
        Some(("Function", rest))
    } else if let Some(rest) = strip_prefix(text.as_str(), "def ") {
        Some(("Function", rest))
    } else if let Some(rest) = strip_prefix(text.as_str(), "class ") {
        Some(("Class", rest))
    } else if let Some(rest) = strip_prefix(text.as_str(), "struct ") {
        Some(("Class", rest))
    } else if let Some(rest) = strip_prefix(text.as_str(), "pub struct ") {
        Some(("Class", rest))
    } else {
        None
    }
}

/// The symbols that a file declares.
pub fn extract_symbols(file: &FileEntry) -> (symbols: Vec<SymbolEntry>)
    ensures
        symbol_views(symbols@) == symbols_in(file.path@, lines_of(file.text@)),
{
    let split = lines(file.text.as_str());
    let ghost all = lines_of(file.text@);
    let mut symbols: Vec<SymbolEntry> = Vec::new();
    let mut i: usize = 0;
    assert(symbol_views(symbols@) =~= symbols_in(file.path@, all.take(0)));
    while i < split.len()
        invariant
            i <= split@.len(),
            all == texts(split@),
            symbol_views(symbols@) == symbols_in(file.path@, all.take(i as int)),
        decreases split.len() - i,
    {
        let ghost done = symbols@;
        assert(all[i as int] == split@[i as int]@);
        assert(all.take(i + 1).drop_last() =~= all.take(i as int));
        assert(all.take(i + 1).last() == all[i as int]);
        if let Some((label, rest)) = declaration(split[i].as_str()) {
            let name = symbol_name(rest.as_str());
            if !name.as_str().is_empty() {
                symbols.push(
                    SymbolEntry {
                        name,
                        label: label.to_owned(),
                        file: file.path.clone(),
                        line: i + 1,
                    },
                );
                assert(symbol_views(symbols@) =~= symbol_views(done).push(symbols@.last()@));
            }
        }
        i = i + 1;
    }
    assert(all.take(i as int) =~= all);
    symbols
}

/// A file's symbols stand on its lines, in increasing order, each of them named.
pub proof fn symbols_follow_lines(file: Seq<char>, lines: Seq<Seq<char>>)
    ensures
        forall|i: int|
            0 <= i < symbols_in(file, lines).len() ==> {
                let symbol = #[trigger] symbols_in(file, lines)[i];
                1 <= symbol.line <= lines.len() && symbol.file == file && symbol.name.len() > 0
                    && symbol_in(file, lines[symbol.line - 1], symbol.line) == Some(symbol)
            },
        forall|i: int, j: int|
            0 <= i < j < symbols_in(file, lines).len() ==> (#[trigger] symbols_in(
                file,
                lines,
            )[i]).line < (#[trigger] symbols_in(file, lines)[j]).line,
    decreases lines.len(),
{
    if lines.len() > 0 {
        symbols_follow_lines(file, lines.drop_last());
        let earlier = symbols_in(file, lines.drop_last());
        assert forall|i: int| 0 <= i < symbols_in(file, lines).len() implies {
            let symbol = #[trigger] symbols_in(file, lines)[i];
            1 <= symbol.line <= lines.len() && symbol.file == file && symbol.name.len() > 0
                && symbol_in(file, lines[symbol.line - 1], symbol.line) == Some(symbol)
        } by {
            if i < earlier.len() {
                let symbol = earlier[i];
                assert(lines.drop_last()[symbol.line - 1] == lines[symbol.line - 1]);
            }
        }
        assert forall|i: int, j: int| 0 <= i < j < symbols_in(file, lines).len() implies (
        #[trigger] symbols_in(file, lines)[i]).line < (#[trigger] symbols_in(
            file,
            lines,
        )[j]).line by {
            if j < earlier.len() {
                assert(earlier[i].line < earlier[j].line);
            } else {
                assert(earlier[i].line <= lines.drop_last().len());
            }
        }
    }
}

/// A line that declares something gives a symbol, at the place among the symbols that is given
/// back.
pub proof fn a_declaration_becomes_a_symbol(
    file: Seq<char>,
    lines: Seq<Seq<char>>,
    n: int,
) -> (k: int)
    requires
        0 <= n < lines.len(),
        symbol_in(file, lines[n], n + 1) is Some,
    ensures
        0 <= k < symbols_in(file, lines).len(),
        symbol_in(file, lines[n], n + 1) == Some(symbols_in(file, lines)[k]),
    decreases lines.len(),
{
    let earlier = symbols_in(file, lines.drop_last());
    if n == lines.len() - 1 {
        earlier.len() as int
    } else {
        assert(lines.drop_last()[n] == lines[n]);
        a_declaration_becomes_a_symbol(file, lines.drop_last(), n)
    }
}

} // verus!
