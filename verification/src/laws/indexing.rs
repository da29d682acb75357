//! What an index holds of the files that it was made from.

use vstd::prelude::*;

use crate::json::JsonView;
use crate::laws::texts::{is_blank, leading_blanks_go, leading_blanks_of};
use crate::scanner::{
    a_declaration_becomes_a_symbol, declared_in, leading_symbol, project_name_of, scan_step_of,
    symbol_char, symbol_in, symbols_follow_lines, symbols_in, with_slashes, EntryKind, ScanStep,
};
use crate::store::{all_symbols, index_of, summaries};
use crate::text::{after_prefix, begins_with, drop_leading, lines_of, trimmed_start, white_space};
use crate::types::{FileView, GitView, IndexView, SymbolView};
use crate::util::{index_summary, total_size};

verus! {

// ---------------------------------------------------------------------------
// Declarations
// ---------------------------------------------------------------------------

/// Whether a keyword with the space after it declares something of that label.
pub open spec fn declares(keyword: Seq<char>, label: Seq<char>) -> bool {
    ||| label == "Function"@ && (keyword == "fn "@ || keyword == "pub fn "@ || keyword == "def "@)
    ||| label == "Class"@ && (keyword == "class "@ || keyword == "struct "@ || keyword
        == "pub struct "@)
}

/// Whether a character is an ASCII letter, a digit or an underscore.
pub open spec fn is_name_char(c: char) -> bool {
    'a' <= c <= 'z' || 'A' <= c <= 'Z' || '0' <= c <= '9' || c == '_'
}

/// Whether a text is a run of letters, digits and underscores that is not empty.
pub open spec fn is_name(text: Seq<char>) -> bool {
    text.len() > 0 && forall|i: int| 0 <= i < text.len() ==> is_name_char(#[trigger] text[i])
}

/// Whether a text does not go on with a name: it is empty or begins with another character.
pub open spec fn ends_name(rest: Seq<char>) -> bool {
    rest.len() == 0 || !is_name_char(rest[0])
}

/// Whether a line is white space, a keyword, a name and whatever follows the name.
pub open spec fn is_declaration(
    line: Seq<char>,
    blank: Seq<char>,
    keyword: Seq<char>,
    label: Seq<char>,
    name: Seq<char>,
    rest: Seq<char>,
) -> bool {
    &&& line == blank + keyword + name + rest
    &&& is_blank(blank)
    &&& declares(keyword, label)
    &&& is_name(name)
    &&& ends_name(rest)
}

proof fn lemma_keywords()
    ensures
        "fn "@ =~= seq!['f', 'n', ' '],
        "pub fn "@ =~= seq!['p', 'u', 'b', ' ', 'f', 'n', ' '],
        "def "@ =~= seq!['d', 'e', 'f', ' '],
        "class "@ =~= seq!['c', 'l', 'a', 's', 's', ' '],
        "struct "@ =~= seq!['s', 't', 'r', 'u', 'c', 't', ' '],
        "pub struct "@ =~= seq!['p', 'u', 'b', ' ', 's', 't', 'r', 'u', 'c', 't', ' '],
{
    reveal_strlit("fn ");
    reveal_strlit("pub fn ");
    reveal_strlit("def ");
    reveal_strlit("class ");
    reveal_strlit("struct ");
    reveal_strlit("pub struct ");
}

/// What begins with one text and what begins with another differ where these do.
proof fn lemma_other_beginning(text: Seq<char>, prefix: Seq<char>, at: int)
    requires
        0 <= at < prefix.len(),
        at < text.len() ==> text[at] != prefix[at],
    ensures
        after_prefix(text, prefix) is None,
{
    if begins_with(text, prefix) {
        assert(text.subrange(0, prefix.len() as int)[at] == text[at]);
    }
}

proof fn lemma_own_beginning(prefix: Seq<char>, rest: Seq<char>)
    ensures
        after_prefix(prefix + rest, prefix) == Some(rest),
{
    assert((prefix + rest).subrange(0, prefix.len() as int) =~= prefix);
    assert((prefix + rest).skip(prefix.len() as int) =~= rest);
}

proof fn lemma_keyword_is_read(keyword: Seq<char>, label: Seq<char>, rest: Seq<char>)
    requires
        declares(keyword, label),
    ensures
        keyword.len() > 0,
        !white_space(keyword[0]),
        trimmed_start(keyword + rest) == keyword + rest,
        declared_in(keyword + rest) == Some((label, rest)),
{
    lemma_keywords();
    let text = keyword + rest;
    lemma_own_beginning(keyword, rest);
    leading_blanks_go(Seq::empty(), text);
    assert(Seq::<char>::empty() + text =~= text);
    assert(text[0] == keyword[0]);
    if keyword != "fn "@ {
        lemma_other_beginning(text, "fn "@, 0);
        if keyword != "pub fn "@ {
            if keyword == "pub struct "@ {
                assert(text[4] == 's');
                lemma_other_beginning(text, "pub fn "@, 4);
            } else {
                lemma_other_beginning(text, "pub fn "@, 0);
            }
            if keyword != "def "@ {
                lemma_other_beginning(text, "def "@, 0);
                if keyword != "class "@ {
                    lemma_other_beginning(text, "class "@, 0);
                    if keyword != "struct "@ {
                        lemma_other_beginning(text, "struct "@, 0);
                    }
                }
            }
        }
    }
}

proof fn lemma_name_is_read(name: Seq<char>, rest: Seq<char>)
    requires
        forall|i: int| 0 <= i < name.len() ==> is_name_char(#[trigger] name[i]),
        ends_name(rest),
    ensures
        leading_symbol(name + rest) == name,
    decreases name.len(),
{
    let text = name + rest;
    if name.len() == 0 {
        assert(text =~= rest);
        assert(leading_symbol(text) =~= name);
    } else {
        assert(is_name_char(name[0]));
        assert(text.skip(1) =~= name.skip(1) + rest);
        lemma_name_is_read(name.skip(1), rest);
        assert(seq![name[0]] + name.skip(1) =~= name);
    }
}

/// A line that is white space, a keyword, a name and whatever follows declares a symbol of that
/// name, with the label of the keyword.
pub proof fn a_declaration_gives_its_symbol(
    file: Seq<char>,
    number: int,
    line: Seq<char>,
    blank: Seq<char>,
    keyword: Seq<char>,
    label: Seq<char>,
    name: Seq<char>,
    rest: Seq<char>,
)
    requires
        is_declaration(line, blank, keyword, label, name, rest),
    ensures
        symbol_in(file, line, number) == Some(SymbolView { name, label, file, line: number }),
{
    let text = keyword + (name + rest);
    lemma_keyword_is_read(keyword, label, name + rest);
    assert(line =~= blank + text);
    assert(text[0] == keyword[0]);
    leading_blanks_go(blank, text);
    assert(declared_in(line) == declared_in(text));
    lemma_name_is_read(name, rest);
}

proof fn lemma_symbol_prefix(text: Seq<char>) -> (rest: Seq<char>)
    ensures
        text == leading_symbol(text) + rest,
        ends_name(rest),
        forall|i: int|
            0 <= i < leading_symbol(text).len() ==> is_name_char(#[trigger] leading_symbol(text)[i]),
    decreases text.len(),
{
    if text.len() > 0 && symbol_char(text[0]) {
        let later = leading_symbol(text.skip(1));
        let rest = lemma_symbol_prefix(text.skip(1));
        assert(text =~= seq![text[0]] + text.skip(1));
        let name = leading_symbol(text);
        assert forall|i: int| 0 <= i < name.len() implies is_name_char(#[trigger] name[i]) by {
            if i > 0 {
                assert(name[i] == later[i - 1]);
            }
        }
        assert(text =~= name + rest);
        rest
    } else {
        assert(text =~= leading_symbol(text) + text);
        text
    }
}

/// A symbol comes from no other line: what declares one is white space, a keyword of its label,
/// its name and whatever follows.
pub proof fn a_symbol_has_its_declaration(file: Seq<char>, line: Seq<char>, number: int) -> (parts: (
    Seq<char>,
    Seq<char>,
    Seq<char>,
))
    requires
        symbol_in(file, line, number) is Some,
    ensures
        ({
            let symbol = symbol_in(file, line, number)->Some_0;
            &&& is_declaration(line, parts.0, parts.1, symbol.label, symbol.name, parts.2)
            &&& symbol.file == file
            &&& symbol.line == number
        }),
{
    let blank = leading_blanks_of(line);
    let text = trimmed_start(line);
    let (label, after) = declared_in(line)->Some_0;
    let keyword = if begins_with(text, "fn "@) {
        "fn "@
    } else if begins_with(text, "pub fn "@) {
        "pub fn "@
    } else if begins_with(text, "def "@) {
        "def "@
    } else if begins_with(text, "class "@) {
        "class "@
    } else if begins_with(text, "struct "@) {
        "struct "@
    } else {
        "pub struct "@
    };
    assert(declares(keyword, label));
    assert(text =~= keyword + after) by {
        assert(text =~= text.subrange(0, keyword.len() as int) + text.skip(keyword.len() as int));
    }
    let rest = lemma_symbol_prefix(after);
    let name = leading_symbol(after);
    assert(line =~= blank + keyword + name + rest);
    (blank, keyword, rest)
}

// ---------------------------------------------------------------------------
// Files
// ---------------------------------------------------------------------------

proof fn lemma_file_symbols(files: Seq<FileView>, f: int, k: int) -> (j: int)
    requires
        0 <= f < files.len(),
        0 <= k < symbols_in(files[f].path, lines_of(files[f].text)).len(),
    ensures
        0 <= j < all_symbols(files).len(),
        all_symbols(files)[j] == symbols_in(files[f].path, lines_of(files[f].text))[k],
    decreases files.len(),
{
    let earlier = all_symbols(files.drop_last());
    if f == files.len() - 1 {
        earlier.len() + k
    } else {
        assert(files.drop_last()[f] == files[f]);
        lemma_file_symbols(files.drop_last(), f, k)
    }
}

proof fn lemma_symbol_is_of_file(files: Seq<FileView>, j: int) -> (place: (int, int))
    requires
        0 <= j < all_symbols(files).len(),
    ensures
        0 <= place.0 < files.len(),
        0 <= place.1 < symbols_in(files[place.0].path, lines_of(files[place.0].text)).len(),
        all_symbols(files)[j] == symbols_in(
            files[place.0].path,
            lines_of(files[place.0].text),
        )[place.1],
    decreases files.len(),
{
    let fewer = files.drop_last();
    let earlier = all_symbols(fewer);
    if j < earlier.len() {
        let (f, k) = lemma_symbol_is_of_file(fewer, j);
        assert(fewer[f] == files[f]);
        (f, k)
    } else {
        (files.len() - 1, j - earlier.len())
    }
}

/// An index holds a symbol for every declaration in every file, with its name, its label, its
/// file and the number of its line, counted from one.
pub proof fn every_declaration_is_indexed(
    root: Seq<char>,
    files: Seq<FileView>,
    git: GitView,
    now: int,
    f: int,
    n: int,
    blank: Seq<char>,
    keyword: Seq<char>,
    label: Seq<char>,
    name: Seq<char>,
    rest: Seq<char>,
)
    requires
        0 <= f < files.len(),
        0 <= n < lines_of(files[f].text).len(),
        is_declaration(lines_of(files[f].text)[n], blank, keyword, label, name, rest),
    ensures
        index_of(root, files, git, now).symbols.contains(
            SymbolView { name, label, file: files[f].path, line: n + 1 },
        ),
{
    let lines = lines_of(files[f].text);
    a_declaration_gives_its_symbol(
        files[f].path,
        n + 1,
        lines[n],
        blank,
        keyword,
        label,
        name,
        rest,
    );
    let k = a_declaration_becomes_a_symbol(files[f].path, lines, n);
    let j = lemma_file_symbols(files, f, k);
    assert(index_of(root, files, git, now).symbols[j] == SymbolView {
        name,
        label,
        file: files[f].path,
        line: n + 1,
    });
}

/// An index holds no other symbols: each stands in one of the files, on a line that declares
/// it.
pub proof fn every_symbol_is_declared(
    root: Seq<char>,
    files: Seq<FileView>,
    git: GitView,
    now: int,
    j: int,
) -> (place: (int, Seq<char>, Seq<char>, Seq<char>))
    requires
        0 <= j < index_of(root, files, git, now).symbols.len(),
    ensures
        ({
            let symbol = index_of(root, files, git, now).symbols[j];
            let (f, blank, keyword, rest) = place;
            &&& 0 <= f < files.len()
            &&& symbol.file == files[f].path
            &&& 1 <= symbol.line <= lines_of(files[f].text).len()
            &&& is_declaration(
                lines_of(files[f].text)[symbol.line - 1],
                blank,
                keyword,
                symbol.label,
                symbol.name,
                rest,
            )
        }),
{
    let (f, k) = lemma_symbol_is_of_file(files, j);
    let lines = lines_of(files[f].text);
    symbols_follow_lines(files[f].path, lines);
    let symbol = symbols_in(files[f].path, lines)[k];
    let (blank, keyword, rest) = a_symbol_has_its_declaration(
        files[f].path,
        lines[symbol.line - 1],
        symbol.line,
    );
    (f, blank, keyword, rest)
}

/// The symbols of an index come file by file, and in a file line by line.
pub proof fn symbols_come_in_order(
    root: Seq<char>,
    files: Seq<FileView>,
    more: Seq<FileView>,
    git: GitView,
    now: int,
)
    ensures
        index_of(root, files + more, git, now).symbols == index_of(root, files, git, now).symbols
            + index_of(root, more, git, now).symbols,
        forall|i: int, j: int|
            files.len() == 1 && 0 <= i < j < index_of(root, files, git, now).symbols.len() ==> (
            #[trigger] index_of(root, files, git, now).symbols[i]).line < (#[trigger] index_of(
                root,
                files,
                git,
                now,
            ).symbols[j]).line,
    decreases more.len(),
{
    if more.len() == 0 {
        assert(files + more =~= files);
        assert(all_symbols(files) + all_symbols(more) =~= all_symbols(files));
    } else {
        symbols_come_in_order(root, files, more.drop_last(), git, now);
        assert((files + more).drop_last() =~= files + more.drop_last());
        assert(all_symbols(files + more) =~= all_symbols(files) + all_symbols(more));
    }
    if files.len() == 1 {
        assert(files.drop_last() =~= Seq::empty());
        reveal_with_fuel(all_symbols, 2);
        symbols_follow_lines(files[0].path, lines_of(files[0].text));
        assert(all_symbols(files) =~= symbols_in(files[0].path, lines_of(files[0].text)));
    }
}

/// An index holds the files that it was made from, where and when, and is marked as made.
pub proof fn an_index_holds_what_was_scanned(
    root: Seq<char>,
    files: Seq<FileView>,
    git: GitView,
    now: int,
)
    ensures
        index_of(root, files, git, now).files == files,
        index_of(root, files, git, now).root_path == root,
        index_of(root, files, git, now).project == project_name_of(root),
        index_of(root, files, git, now).status == "indexed"@,
        index_of(root, files, git, now).git == git,
        index_of(root, files, git, now).indexed_at == now,
{
}

// ---------------------------------------------------------------------------
// Names and entries
// ---------------------------------------------------------------------------

/// A project is named by its path without the slashes in front, character by character: ASCII
/// letters, digits, underscores and hyphens stay and everything else becomes a hyphen.
pub proof fn projects_are_named_by_their_path(path: Seq<char>)
    ensures
        project_name_of(seq!['/'] + path) == project_name_of(path),
        path.len() > 0 && path[0] != '/' ==> project_name_of(path).len() == path.len(),
        path.len() > 0 && path[0] != '/' ==> forall|i: int|
            0 <= i < path.len() ==> {
                let c = #[trigger] path[i];
                if 'a' <= c <= 'z' || 'A' <= c <= 'Z' || '0' <= c <= '9' || c == '_' || c == '-' {
                    project_name_of(path)[i] == c
                } else {
                    project_name_of(path)[i] == '-'
                }
            },
{
    let slash = |c: char| c == '/';
    let whole = seq!['/'] + path;
    assert(whole.skip(1) =~= path);
    assert(drop_leading(whole, slash) == drop_leading(path, slash));
}

/// A directory is entered unless it has one of seven names, a file is read unless it is larger
/// than a million bytes, and nothing else is looked at.
pub proof fn entries_are_scanned_by_name_and_size(name: Seq<char>, bytes: int)
    ensures
        scan_step_of(EntryKind::Directory, name, bytes) == ScanStep::Skip <==> name == ".git"@
            || name == "target"@ || name == ".clab"@ || name == ".ai-bridge"@ || name == ".venv"@
            || name == "node_modules"@ || name == "dist"@,
        scan_step_of(EntryKind::Directory, name, bytes) != ScanStep::Read,
        bytes <= 1_000_000 ==> scan_step_of(EntryKind::File, name, bytes) == ScanStep::Read,
        bytes > 1_000_000 ==> scan_step_of(EntryKind::File, name, bytes) == ScanStep::Skip,
        scan_step_of(EntryKind::Other, name, bytes) == ScanStep::Skip,
{
}

/// A path keeps its characters, with slashes for backslashes.
pub proof fn backslashes_become_slashes(path: Seq<char>)
    ensures
        with_slashes(path).len() == path.len(),
        forall|i: int|
            0 <= i < path.len() && #[trigger] path[i] == '\\' ==> with_slashes(path)[i] == '/',
        forall|i: int|
            0 <= i < path.len() && #[trigger] path[i] != '\\' ==> with_slashes(path)[i] == path[i],
{
}

// ---------------------------------------------------------------------------
// Summaries
// ---------------------------------------------------------------------------

/// The sizes of files are added up, each of them once.
pub proof fn sizes_are_added_up(files: Seq<FileView>, file: FileView)
    ensures
        total_size(Seq::empty()) == 0,
        total_size(files.push(file)) == total_size(files) + file.bytes,
{
    assert(files.push(file).drop_last() =~= files);
}

proof fn lemma_summary_names()
    ensures
        "project"@ =~= seq!['p', 'r', 'o', 'j', 'e', 'c', 't'],
        "root_path"@ =~= seq!['r', 'o', 'o', 't', '_', 'p', 'a', 't', 'h'],
        "status"@ =~= seq!['s', 't', 'a', 't', 'u', 's'],
        "files"@ =~= seq!['f', 'i', 'l', 'e', 's'],
        "symbols"@ =~= seq!['s', 'y', 'm', 'b', 'o', 'l', 's'],
        "bytes"@ =~= seq!['b', 'y', 't', 'e', 's'],
        "git"@ =~= seq!['g', 'i', 't'],
        "is_git"@ =~= seq!['i', 's', '_', 'g', 'i', 't'],
        "root_exists"@ =~= seq!['r', 'o', 'o', 't', '_', 'e', 'x', 'i', 's', 't', 's'],
        "branch"@ =~= seq!['b', 'r', 'a', 'n', 'c', 'h'],
        "head_sha"@ =~= seq!['h', 'e', 'a', 'd', '_', 's', 'h', 'a'],
{
    reveal_strlit("project");
    reveal_strlit("root_path");
    reveal_strlit("status");
    reveal_strlit("files");
    reveal_strlit("symbols");
    reveal_strlit("bytes");
    reveal_strlit("git");
    reveal_strlit("is_git");
    reveal_strlit("root_exists");
    reveal_strlit("branch");
    reveal_strlit("head_sha");
}

/// A summary names the project and its root, counts files, symbols and bytes, and says what git
/// says.
pub proof fn a_summary_describes_its_index(index: IndexView, status: Seq<char>)
    ensures
        ({
            let summary = index_summary(index, status);
            &&& summary.text_at("project"@) == Some(index.project)
            &&& summary.text_at("root_path"@) == Some(index.root_path)
            &&& summary.text_at("status"@) == Some(status)
            &&& summary.get("files"@) == Some(JsonView::Integer(index.files.len() as int))
            &&& summary.get("symbols"@) == Some(JsonView::Integer(index.symbols.len() as int))
            &&& summary.get("bytes"@) == Some(JsonView::Integer(total_size(index.files)))
            &&& summary.get("git"@) matches Some(git) && {
                &&& git.bool_at("is_git"@) == Some(index.git.is_git)
                &&& git.bool_at("root_exists"@) == Some(index.git.root_exists)
                &&& git.text_at("branch"@) == index.git.branch
                &&& git.text_at("head_sha"@) == index.git.head_sha
            }
        }),
{
    lemma_summary_names();
}

/// A listing has one summary for each index, in their order, with the status that the index has.
pub proof fn a_listing_has_every_project(indexes: Seq<IndexView>, i: int)
    requires
        0 <= i < indexes.len(),
    ensures
        summaries(indexes).len() == indexes.len(),
        summaries(indexes)[i].text_at("project"@) == Some(indexes[i].project),
        summaries(indexes)[i].text_at("status"@) == Some(indexes[i].status),
        summaries(indexes)[i] == index_summary(indexes[i], indexes[i].status),
{
    a_summary_describes_its_index(indexes[i], indexes[i].status);
}

} // verus!
