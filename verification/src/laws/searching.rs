//! Which call a tool makes, what it looks through, and what it finds.

use vstd::prelude::*;

use crate::json::{or_empty, JsonView};
use crate::laws::names::{hit_names, tool_names};
use crate::seqs::first_of;
use crate::store::{
    a_symbol_has_a_snippet, call_of, code_hits, file_at, file_hits, first_snippet, graph_hits,
    is_named, line_hit, line_hits, search_results, snippet_in, symbol_hit, symbol_hits, CallView,
    DEFAULT_SEARCH_LIMIT, DEFAULT_SNIPPET_RADIUS,
};
use crate::text::{
    ascii_lowered, decimal_text, has_text, is_ascii, joined, lines_of, lowercase,
};
use crate::types::{FileView, IndexView, SymbolView};
use crate::util::{window_lines, window_of, ToolErrorView};

verus! {

// ---------------------------------------------------------------------------
// Calls
// ---------------------------------------------------------------------------

/// Every tool that takes a project is called for exactly the project that its arguments name,
/// and for all of them where they name none.
pub proof fn a_call_is_for_the_project_named(args: JsonView)
    ensures
        call_of("search_graph"@, args) matches Ok(call) && call matches CallView::SearchGraph(
            search,
        ) && search.project == args.text_at("project"@),
        args.text_at("pattern"@) is Some ==> (call_of("search_code"@, args) matches Ok(call)
            && call matches CallView::SearchCode(search) && search.project == args.text_at(
            "project"@,
        )),
        call_of("get_code_snippet"@, args) matches Ok(call)
            && call matches CallView::GetCodeSnippet(snippet) && snippet.project == args.text_at(
            "project"@,
        ),
        args.text_at("project"@) matches Some(project) ==> (call_of(
            "index_status"@,
            args,
        ) matches Ok(call) && call == CallView::IndexStatus(project)),
        args.text_at("project"@) matches Some(project) ==> (call_of(
            "delete_project"@,
            args,
        ) matches Ok(call) && call == CallView::DeleteProject(project)),
{
    tool_names();
}

/// A search looks for what its arguments say, in lowercase, and gives as many results as they
/// say, or eight.
pub proof fn a_call_is_for_the_text_given(args: JsonView, limit: usize)
    ensures
        DEFAULT_SEARCH_LIMIT == 8,
        call_of("search_graph"@, args) matches Ok(call) && call matches CallView::SearchGraph(
            search,
        ) && {
            &&& args.text_at("query"@) matches Some(query) ==> search.pattern == lowercase(query)
            &&& args.get("limit"@) == Some(JsonView::Integer(limit as int)) ==> search.limit == limit
            &&& args.uint_at("limit"@) is None ==> search.limit == 8
        },
        args.text_at("pattern"@) matches Some(pattern) ==> (call_of(
            "search_code"@,
            args,
        ) matches Ok(call) && call matches CallView::SearchCode(search) && {
            &&& search.pattern == lowercase(pattern)
            &&& args.get("limit"@) == Some(JsonView::Integer(limit as int)) ==> search.limit == limit
            &&& args.uint_at("limit"@) is None ==> search.limit == 8
        }),
        call_of("get_code_snippet"@, args) matches Ok(call)
            && call matches CallView::GetCodeSnippet(snippet) && {
            &&& args.text_at("qualified_name"@) matches Some(name) ==> snippet.name == name
            &&& args.text_at("qualified_name"@) is None ==> snippet.name == or_empty(
                args.text_at("name"@),
            )
        },
{
    tool_names();
    assert(limit as u64 as usize == limit);
}

/// A query that is missing is the empty text, which every symbol matches.
pub proof fn a_missing_query_finds_everything(args: JsonView)
    requires
        args.text_at("query"@) is None,
    ensures
        call_of("search_graph"@, args) matches Ok(call) && call matches CallView::SearchGraph(
            search,
        ) && search.pattern.len() == 0,
{
    tool_names();
    reveal(lowercase);
    let none = Seq::<char>::empty();
    assert(is_ascii(none));
    assert(ascii_lowered(none) =~= none);
}

/// The other tools need no more than their name, but where a text must be given that is missing
/// the call is refused and the text is named.
pub proof fn calls_without_a_needed_text_are_refused(args: JsonView)
    ensures
        call_of("list_projects"@, args) == Ok::<CallView, ToolErrorView>(CallView::ListProjects),
        call_of("detect_changes"@, args) == Ok::<CallView, ToolErrorView>(CallView::DetectChanges),
        call_of("get_architecture"@, args) == Ok::<CallView, ToolErrorView>(
            CallView::GetArchitecture,
        ),
        args.text_at("repo_path"@) matches Some(path) ==> call_of("index_repository"@, args) == Ok::<
            CallView,
            ToolErrorView,
        >(CallView::IndexRepository(path)),
        args.text_at("repo_path"@) is None ==> call_of("index_repository"@, args) == Ok::<
            CallView,
            ToolErrorView,
        >(CallView::IndexRepository("."@)),
        args.text_at("project"@) is None ==> call_of("index_status"@, args) == Err::<
            CallView,
            ToolErrorView,
        >(ToolErrorView::Required("project"@)),
        args.text_at("project"@) is None ==> call_of("delete_project"@, args) == Err::<
            CallView,
            ToolErrorView,
        >(ToolErrorView::Required("project"@)),
        args.text_at("pattern"@) is None ==> call_of("search_code"@, args) == Err::<
            CallView,
            ToolErrorView,
        >(ToolErrorView::Required("pattern"@)),
{
    tool_names();
}

/// A tool of any other name is refused, and the name is given.
pub proof fn other_tools_are_unsupported(tool: Seq<char>, args: JsonView)
    requires
        tool != "index_repository"@,
        tool != "index_status"@,
        tool != "list_projects"@,
        tool != "delete_project"@,
        tool != "detect_changes"@,
        tool != "search_graph"@,
        tool != "search_code"@,
        tool != "get_code_snippet"@,
        tool != "get_architecture"@,
    ensures
        call_of(tool, args) == Err::<CallView, ToolErrorView>(ToolErrorView::Unsupported(tool)),
{
}

// ---------------------------------------------------------------------------
// Symbols
// ---------------------------------------------------------------------------

/// Whether a hit is of a symbol of a project, field by field.
pub open spec fn shows_symbol(hit: JsonView, project: Seq<char>, symbol: SymbolView) -> bool {
    &&& hit.text_at("project"@) == Some(project)
    &&& hit.text_at("name"@) == Some(symbol.name)
    &&& hit.text_at("label"@) == Some(symbol.label)
    &&& hit.text_at("file"@) == Some(symbol.file)
    &&& hit.get("line"@) == Some(JsonView::Integer(symbol.line))
    &&& hit.get("start_line"@) == Some(JsonView::Integer(symbol.line))
}

/// The symbols of an index are looked at one by one: one in whose name or path the query
/// stands, in lowercase, gives a hit that shows it, and any other gives none.
pub proof fn a_symbol_is_hit_where_the_query_stands(
    index: IndexView,
    symbol: SymbolView,
    rest: Seq<SymbolView>,
    query: Seq<char>,
)
    ensures
        ({
            let whole = graph_hits(
                seq![IndexView { symbols: seq![symbol] + rest, ..index }],
                query,
            );
            let others = graph_hits(seq![IndexView { symbols: rest, ..index }], query);
            let none = graph_hits(seq![IndexView { symbols: Seq::empty(), ..index }], query);
            let stands = query.len() == 0 || has_text(lowercase(symbol.name), query) || has_text(
                lowercase(symbol.file),
                query,
            );
            &&& none.len() == 0
            &&& !stands ==> whole == others
            &&& stands ==> whole.len() == others.len() + 1 && whole.skip(1) == others
                && shows_symbol(whole[0], index.project, symbol)
        }),
{
    hit_names();
    let more = seq![symbol] + rest;
    assert(more.skip(1) =~= rest);
    assert(more[0] == symbol);
    lemma_one_index(IndexView { symbols: more, ..index }, query);
    lemma_one_index(IndexView { symbols: rest, ..index }, query);
    lemma_one_index(IndexView { symbols: Seq::empty(), ..index }, query);
    let found = symbol_hits(index.project, rest, query);
    assert((seq![symbol_hit(index.project, symbol)] + found).skip(1) =~= found);
}

proof fn lemma_one_index(index: IndexView, query: Seq<char>)
    ensures
        graph_hits(seq![index], query) == symbol_hits(index.project, index.symbols, query),
        code_hits(seq![index], query) == file_hits(index.project, index.files, query),
{
    let one = seq![index];
    assert(one.skip(1) =~= Seq::empty());
    reveal_with_fuel(graph_hits, 2);
    reveal_with_fuel(code_hits, 2);
    assert(graph_hits(one, query) =~= symbol_hits(index.project, index.symbols, query));
    assert(code_hits(one, query) =~= file_hits(index.project, index.files, query));
}

/// The hits in indexes are those of the indexes one after the other.
pub proof fn indexes_are_searched_one_by_one(
    indexes: Seq<IndexView>,
    more: Seq<IndexView>,
    query: Seq<char>,
)
    ensures
        graph_hits(Seq::empty(), query).len() == 0,
        code_hits(Seq::empty(), query).len() == 0,
        graph_hits(indexes + more, query) == graph_hits(indexes, query) + graph_hits(more, query),
        code_hits(indexes + more, query) == code_hits(indexes, query) + code_hits(more, query),
    decreases indexes.len(),
{
    let all = indexes + more;
    if indexes.len() == 0 {
        assert(all =~= more);
        assert(graph_hits(all, query) =~= graph_hits(indexes, query) + graph_hits(more, query));
        assert(code_hits(all, query) =~= code_hits(indexes, query) + code_hits(more, query));
    } else {
        indexes_are_searched_one_by_one(indexes.skip(1), more, query);
        assert(all.skip(1) =~= indexes.skip(1) + more);
        assert(graph_hits(all, query) =~= graph_hits(indexes, query) + graph_hits(more, query));
        assert(code_hits(all, query) =~= code_hits(indexes, query) + code_hits(more, query));
    }
}

// ---------------------------------------------------------------------------
// Lines
// ---------------------------------------------------------------------------

/// Whether a hit is of a line of a file of a project, field by field.
pub open spec fn shows_line(
    hit: JsonView,
    project: Seq<char>,
    file: Seq<char>,
    number: int,
    line: Seq<char>,
) -> bool {
    &&& hit.text_at("project"@) == Some(project)
    &&& hit.text_at("file"@) == Some(file)
    &&& hit.get("line"@) == Some(JsonView::Integer(number))
    &&& hit.get("start_line"@) == Some(JsonView::Integer(number))
    &&& hit.text_at("snippet"@) == Some(line)
}

/// The lines that hold a pattern in lowercase, by their places counted from zero.
pub open spec fn places_of(lines: Seq<Seq<char>>, pattern: Seq<char>) -> Seq<int>
    decreases lines.len(),
{
    if lines.len() == 0 {
        Seq::empty()
    } else {
        let earlier = places_of(lines.drop_last(), pattern);
        if has_text(lowercase(lines.last()), pattern) {
            earlier.push(lines.len() - 1)
        } else {
            earlier
        }
    }
}

proof fn lemma_last_line(
    project: Seq<char>,
    file: Seq<char>,
    lines: Seq<Seq<char>>,
    from: int,
    pattern: Seq<char>,
)
    requires
        lines.len() > 0,
    ensures
        line_hits(project, file, lines, from, pattern) == line_hits(
            project,
            file,
            lines.drop_last(),
            from,
            pattern,
        ) + if has_text(lowercase(lines.last()), pattern) {
            seq![line_hit(project, file, from + lines.len() - 1, lines.last())]
        } else {
            Seq::empty()
        },
    decreases lines.len(),
{
    let front = lines.drop_last();
    let last = line_hit(project, file, from + lines.len() - 1, lines.last());
    let tail = if has_text(lowercase(lines.last()), pattern) {
        seq![last]
    } else {
        Seq::empty()
    };
    reveal_with_fuel(line_hits, 2);
    if lines.len() > 1 {
        lemma_last_line(project, file, lines.skip(1), from + 1, pattern);
        assert(lines.skip(1).drop_last() =~= front.skip(1));
    } else {
        assert(lines.skip(1) =~= Seq::empty());
    }
    assert(line_hits(project, file, lines, from, pattern) =~= line_hits(
        project,
        file,
        front,
        from,
        pattern,
    ) + tail);
}

proof fn lemma_line_hits(
    project: Seq<char>,
    file: Seq<char>,
    lines: Seq<Seq<char>>,
    pattern: Seq<char>,
)
    ensures
        ({
            let hits = line_hits(project, file, lines, 1, pattern);
            let places = places_of(lines, pattern);
            &&& hits.len() == places.len()
            &&& forall|k: int|
                0 <= k < hits.len() ==> 0 <= #[trigger] places[k] < lines.len() && shows_line(
                    hits[k],
                    project,
                    file,
                    places[k] + 1,
                    lines[places[k]],
                )
        }),
    decreases lines.len(),
{
    hit_names();
    if lines.len() > 0 {
        let front = lines.drop_last();
        lemma_line_hits(project, file, front, pattern);
        lemma_last_line(project, file, lines, 1, pattern);
        let hits = line_hits(project, file, lines, 1, pattern);
        let places = places_of(lines, pattern);
        let earlier = line_hits(project, file, front, 1, pattern);
        assert forall|k: int| 0 <= k < hits.len() implies 0 <= #[trigger] places[k] < lines.len()
            && shows_line(hits[k], project, file, places[k] + 1, lines[places[k]]) by {
            if k < earlier.len() {
                assert(hits[k] == earlier[k]);
                assert(places[k] == places_of(front, pattern)[k]);
                assert(front[places[k]] == lines[places[k]]);
            }
        }
    }
}

/// The files of an index are looked through one by one: a file gives a hit for each of its lines
/// that holds the pattern in lowercase, in their order, which shows the line and its number
/// counted from one.
pub proof fn a_line_is_hit_where_the_pattern_stands(
    index: IndexView,
    file: FileView,
    rest: Seq<FileView>,
    pattern: Seq<char>,
)
    ensures
        ({
            let whole = code_hits(seq![IndexView { files: seq![file] + rest, ..index }], pattern);
            let others = code_hits(seq![IndexView { files: rest, ..index }], pattern);
            let none = code_hits(seq![IndexView { files: Seq::empty(), ..index }], pattern);
            let lines = lines_of(file.text);
            let places = places_of(lines, pattern);
            &&& none.len() == 0
            &&& whole.len() == places.len() + others.len()
            &&& whole.skip(places.len() as int) == others
            &&& forall|k: int|
                0 <= k < places.len() ==> 0 <= #[trigger] places[k] < lines.len() && shows_line(
                    whole[k],
                    index.project,
                    file.path,
                    places[k] + 1,
                    lines[places[k]],
                )
        }),
{
    let more = seq![file] + rest;
    assert(more.skip(1) =~= rest);
    assert(more[0] == file);
    lemma_one_index(IndexView { files: more, ..index }, pattern);
    lemma_one_index(IndexView { files: rest, ..index }, pattern);
    lemma_one_index(IndexView { files: Seq::empty(), ..index }, pattern);
    lemma_line_hits(index.project, file.path, lines_of(file.text), pattern);
    let here = line_hits(index.project, file.path, lines_of(file.text), 1, pattern);
    let found = file_hits(index.project, rest, pattern);
    assert((here + found).skip(here.len() as int) =~= found);
}

/// The places of a pattern are exactly the lines that hold it, in their order.
pub proof fn places_are_those_of_the_pattern(lines: Seq<Seq<char>>, pattern: Seq<char>, n: int)
    requires
        0 <= n < lines.len(),
    ensures
        places_of(lines, pattern).contains(n) <==> has_text(lowercase(lines[n]), pattern),
        forall|i: int, j: int|
            0 <= i < j < places_of(lines, pattern).len() ==> #[trigger] places_of(lines, pattern)[i]
                < #[trigger] places_of(lines, pattern)[j],
        forall|i: int|
            0 <= i < places_of(lines, pattern).len() ==> 0 <= #[trigger] places_of(
                lines,
                pattern,
            )[i] < lines.len(),
    decreases lines.len(),
{
    let front = lines.drop_last();
    let earlier = places_of(front, pattern);
    let places = places_of(lines, pattern);
    if n < front.len() {
        places_are_those_of_the_pattern(front, pattern, n);
        assert(front[n] == lines[n]);
        if earlier.contains(n) {
            let k = earlier.index_of(n);
            assert(places[k] == n);
        }
        if places.contains(n) {
            let k = places.index_of(n);
            assert(k < earlier.len());
            assert(earlier[k] == n);
        }
    } else {
        if front.len() > 0 {
            places_are_those_of_the_pattern(front, pattern, 0);
        }
        if places.len() > earlier.len() {
            assert(places[earlier.len() as int] == n);
        } else if places.contains(n) {
            let k = places.index_of(n);
            assert(earlier[k] == n);
        }
    }
}

// ---------------------------------------------------------------------------
// Results
// ---------------------------------------------------------------------------

proof fn lemma_symbol_project(project: Seq<char>, symbols: Seq<SymbolView>, query: Seq<char>, k: int)
    requires
        0 <= k < symbol_hits(project, symbols, query).len(),
    ensures
        symbol_hits(project, symbols, query)[k].text_at("project"@) == Some(project),
    decreases symbols.len(),
{
    hit_names();
    let rest = symbol_hits(project, symbols.skip(1), query);
    let all = symbol_hits(project, symbols, query);
    if all.len() > rest.len() {
        if k > 0 {
            lemma_symbol_project(project, symbols.skip(1), query, k - 1);
        }
    } else {
        lemma_symbol_project(project, symbols.skip(1), query, k);
    }
}

proof fn lemma_line_project(project: Seq<char>, files: Seq<FileView>, pattern: Seq<char>, k: int)
    requires
        0 <= k < file_hits(project, files, pattern).len(),
    ensures
        file_hits(project, files, pattern)[k].text_at("project"@) == Some(project),
    decreases files.len(),
{
    let lines = lines_of(files[0].text);
    let here = line_hits(project, files[0].path, lines, 1, pattern);
    if k < here.len() {
        lemma_line_hits(project, files[0].path, lines, pattern);
        assert(places_of(lines, pattern)[k] < lines.len());
    } else {
        lemma_line_project(project, files.skip(1), pattern, k - here.len());
    }
}

/// Where only the indexes of one project are searched, every result is of that project.
pub proof fn results_are_of_the_project_searched(
    indexes: Seq<IndexView>,
    project: Seq<char>,
    query: Seq<char>,
    k: int,
)
    requires
        forall|i: int| 0 <= i < indexes.len() ==> (#[trigger] indexes[i]).project == project,
    ensures
        0 <= k < graph_hits(indexes, query).len() ==> graph_hits(indexes, query)[k].text_at(
            "project"@,
        ) == Some(project),
        0 <= k < code_hits(indexes, query).len() ==> code_hits(indexes, query)[k].text_at(
            "project"@,
        ) == Some(project),
    decreases indexes.len(),
{
    if indexes.len() > 0 {
        let index = indexes[0];
        let symbols = symbol_hits(index.project, index.symbols, query);
        let lines = file_hits(index.project, index.files, query);
        if 0 <= k < symbols.len() {
            lemma_symbol_project(index.project, index.symbols, query, k);
        }
        if 0 <= k < lines.len() {
            lemma_line_project(index.project, index.files, query, k);
        }
        results_are_of_the_project_searched(indexes.skip(1), project, query, k - symbols.len());
        results_are_of_the_project_searched(indexes.skip(1), project, query, k - lines.len());
    }
}

/// The answer to a search is its hits, as many as the limit allows, from the first one on.
pub proof fn an_answer_holds_the_first_hits(hits: Seq<JsonView>, limit: usize)
    ensures
        search_results(hits, limit).items_at("results"@) matches Some(results) && {
            &&& hits.len() <= limit ==> results == hits
            &&& hits.len() > limit ==> results == hits.take(limit as int)
        },
{
}

// ---------------------------------------------------------------------------
// Snippets
// ---------------------------------------------------------------------------

/// Whether a name ends with the name of a symbol.
pub open spec fn ends_with_name(name: Seq<char>, symbol: SymbolView) -> bool {
    name.len() >= symbol.name.len() && name.skip(name.len() - symbol.name.len()) == symbol.name
}

/// Whether a file stands at a path.
pub open spec fn has_file(files: Seq<FileView>, path: Seq<char>) -> bool {
    exists|f: int| 0 <= f < files.len() && (#[trigger] files[f]).path == path
}

/// Whether a name can mean a symbol of an index: it ends with the symbol's name, and the
/// symbol's file is there.
pub open spec fn can_mean(index: IndexView, j: int, name: Seq<char>) -> bool {
    &&& 0 <= j < index.symbols.len()
    &&& ends_with_name(name, index.symbols[j])
    &&& has_file(index.files, index.symbols[j].file)
}

proof fn lemma_meant(symbol: SymbolView, name: Seq<char>)
    ensures
        is_named(symbol, name) <==> ends_with_name(name, symbol),
{
    let cut = name.len() - symbol.name.len();
    if cut >= 0 {
        assert(name.subrange(cut, name.len() as int) =~= name.skip(cut));
    }
    if symbol.name == name {
        assert(name.skip(0) =~= name);
    }
}

proof fn lemma_first_file(files: Seq<FileView>, path: Seq<char>) -> (f: int)
    ensures
        file_at(files, path) is Some <==> has_file(files, path),
        file_at(files, path) matches Some(file) ==> 0 <= f < files.len() && files[f] == file
            && file.path == path && forall|g: int|
            0 <= g < f ==> (#[trigger] files[g]).path != path,
    decreases files.len(),
{
    if files.len() == 0 {
        0
    } else if files[0].path == path {
        0
    } else {
        let rest = files.skip(1);
        let f = lemma_first_file(rest, path);
        if has_file(files, path) {
            let g = choose|g: int| 0 <= g < files.len() && (#[trigger] files[g]).path == path;
            assert(rest[g - 1].path == path);
        }
        if has_file(rest, path) {
            let g = choose|g: int| 0 <= g < rest.len() && (#[trigger] rest[g]).path == path;
            assert(files[g + 1].path == path);
        }
        assert forall|g: int| file_at(files, path) is Some && 0 <= g < f + 1 implies (
        #[trigger] files[g]).path != path by {
            if g > 0 {
                assert(rest[g - 1].path != path);
            }
        }
        f + 1
    }
}

/// Whether a snippet is that of a symbol of an index: its project, its file, its line, and the
/// lines of the file around it.
pub open spec fn shows_snippet(
    snippet: JsonView,
    index: IndexView,
    symbol: SymbolView,
    file: FileView,
) -> bool {
    &&& snippet.text_at("project"@) == Some(index.project)
    &&& snippet.text_at("file"@) == Some(symbol.file)
    &&& snippet.get("start_line"@) == Some(JsonView::Integer(symbol.line))
    &&& snippet.text_at("snippet"@) == Some(window_of(file.text, symbol.line as nat, 6))
}

proof fn lemma_snippet_place(index: IndexView, symbols: Seq<SymbolView>, name: Seq<char>) -> (place: (
    int,
    int,
))
    ensures
        match snippet_in(index.project, symbols, index.files, name) {
            Some(snippet) => {
                let (j, f) = place;
                &&& 0 <= j < symbols.len()
                &&& ends_with_name(name, symbols[j])
                &&& 0 <= f < index.files.len()
                &&& index.files[f].path == symbols[j].file
                &&& shows_snippet(snippet, index, symbols[j], index.files[f])
                &&& forall|g: int| 0 <= g < f ==> (#[trigger] index.files[g]).path != symbols[j].file
                &&& forall|k: int|
                    0 <= k < j ==> !(ends_with_name(name, #[trigger] symbols[k]) && has_file(
                        index.files,
                        symbols[k].file,
                    ))
            },
            None => forall|k: int|
                0 <= k < symbols.len() ==> !(ends_with_name(name, #[trigger] symbols[k])
                    && has_file(index.files, symbols[k].file)),
        },
    decreases symbols.len(),
{
    hit_names();
    if symbols.len() == 0 {
        (0, 0)
    } else {
        let f = lemma_first_file(index.files, symbols[0].file);
        lemma_meant(symbols[0], name);
        if is_named(symbols[0], name) && file_at(index.files, symbols[0].file) is Some {
            (0, f)
        } else {
            let rest = symbols.skip(1);
            let (j, g) = lemma_snippet_place(index, rest, name);
            assert forall|k: int| 0 < k < symbols.len() && !(ends_with_name(name, rest[k - 1])
                && has_file(index.files, rest[k - 1].file)) implies !(ends_with_name(
                name,
                #[trigger] symbols[k],
            ) && has_file(index.files, symbols[k].file)) by {
                assert(rest[k - 1] == symbols[k]);
            }
            (j + 1, g)
        }
    }
}

/// A snippet is that of the first symbol that the name can mean: the name ends with that
/// symbol's, and no symbol before it, in its index or in one before, is passed over that the
/// name could mean too.
pub proof fn a_snippet_is_of_the_first_symbol_meant(indexes: Seq<IndexView>, name: Seq<char>) -> (
    place: (int, int, int))
    requires
        first_snippet(indexes, name) is Some,
    ensures
        ({
            let (i, j, f) = place;
            let index = indexes[i];
            &&& 0 <= i < indexes.len()
            &&& can_mean(index, j, name)
            &&& 0 <= f < index.files.len()
            &&& index.files[f].path == index.symbols[j].file
            &&& shows_snippet(
                first_snippet(indexes, name)->Some_0,
                index,
                index.symbols[j],
                index.files[f],
            )
            &&& forall|k: int| 0 <= k < j ==> !#[trigger] can_mean(index, k, name)
            &&& forall|h: int, k: int| 0 <= h < i ==> !#[trigger] can_mean(indexes[h], k, name)
        }),
    decreases indexes.len(),
{
    let index = indexes[0];
    let (j, f) = lemma_snippet_place(index, index.symbols, name);
    if snippet_in(index.project, index.symbols, index.files, name) is Some {
        assert(has_file(index.files, index.symbols[j].file));
        (0, j, f)
    } else {
        let rest = indexes.skip(1);
        let (i, k, g) = a_snippet_is_of_the_first_symbol_meant(rest, name);
        assert forall|h: int, m: int| 0 <= h < i + 1 implies !#[trigger] can_mean(
            indexes[h],
            m,
            name,
        ) by {
            if h > 0 {
                assert(indexes[h] == rest[h - 1]);
                assert(!can_mean(rest[h - 1], m, name));
            } else if can_mean(index, m, name) {
                assert(ends_with_name(name, index.symbols[m]));
            }
        }
        (i + 1, k, g)
    }
}

/// There is no snippet only where the name can mean no symbol.
pub proof fn a_meant_symbol_has_a_snippet(indexes: Seq<IndexView>, name: Seq<char>, i: int, j: int)
    requires
        0 <= i < indexes.len(),
        can_mean(indexes[i], j, name),
    ensures
        first_snippet(indexes, name) is Some,
{
    lemma_meant(indexes[i].symbols[j], name);
    let f = lemma_first_file(indexes[i].files, indexes[i].symbols[j].file);
    a_symbol_has_a_snippet(indexes, i, j, name);
}

/// The lines that are shown around a line are those no further from it than the radius, each
/// with its number in front, from the first to the last.
pub proof fn a_window_shows_the_lines_around(lines: Seq<Seq<char>>, line: nat, radius: nat)
    ensures
        ({
            let shown = window_lines(lines, line, radius);
            let first: int = if line > radius { line - radius } else { 1 };
            let last: int = if line + radius <= lines.len() {
                (line + radius) as int
            } else {
                lines.len() as int
            };
            &&& shown.len() == if first <= last { last - first + 1 } else { 0 }
            &&& forall|i: int|
                0 <= i < shown.len() ==> #[trigger] shown[i] == decimal_text((first + i) as nat)
                    + ":"@ + lines[first + i - 1]
        }),
        DEFAULT_SNIPPET_RADIUS == 6,
{
}

/// What is shown of a text is its lines around one, one to a line.
pub proof fn a_window_of_a_text_is_one_of_its_lines(text: Seq<char>, line: nat, radius: nat)
    ensures
        window_of(text, line, radius) == joined(window_lines(lines_of(text), line, radius), "\n"@),
        "\n"@ == seq!['\n'],
{
    reveal_strlit("\n");
    assert("\n"@ =~= seq!['\n']);
}

} // verus!
