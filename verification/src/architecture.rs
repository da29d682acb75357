//! The architecture of an indexed project: components, entry points and hot spots.

use vstd::prelude::*;
use vstd::string::StringExecFns;

use crate::json::{lemma_array_view, views, JsonObject, JsonValue, JsonView};
use crate::order::{
    arrange_values, arranged, arrangement, arrangement_exists, arranging_keeps_items, before,
    key_views, sort_distinct, sorted_set, KeyView, SortKey,
};
use crate::seqs::{first_of, lemma_filter_step};
use crate::text::{
    contains, decimal, decimal_text, has_text, join, joined, last_part, parts_of, rsplit_first,
    same_text, split, texts,
};
use crate::types::{
    file_views, symbol_views, ClabIndex, FileEntry, FileView, IndexView, SymbolEntry, SymbolView,
};
use crate::util::{text_array, text_array_view};
use crate::wire::{hundredths, hundredths_view};

verus! {

// ---------------------------------------------------------------------------
// Components
// ---------------------------------------------------------------------------

/// The component that a path belongs to, and of what kind it is: a crate under `crates`, a
/// module under `src`, or else the group that the first part of the path names.
pub open spec fn identity_of(path: Seq<char>) -> (Seq<char>, Seq<char>) {
    let parts = parts_of(path, '/');
    if parts.len() >= 2 && parts[0] == "crates"@ {
        (parts[0] + "/"@ + parts[1], "crate"@)
    } else if parts.len() >= 2 && parts[0] == "src"@ {
        (parts[0] + "/"@ + parts[1], "module"@)
    } else {
        (parts[0], "group"@)
    }
}

fn two_parts(first: &String, second: &String) -> (name: String)
    ensures
        name@ == first@ + "/"@ + second@,
{
    let mut name = first.clone();
    name.append("/");
    name.append(second.as_str());
    name
}

/// The component that a path belongs to, and of what kind it is.
pub fn component_identity(path: &str) -> (identity: (String, String))
    ensures
        (identity.0@, identity.1@) == identity_of(path@),
{
    let parts = split(path, '/');
    proof {
        crate::text::lemma_first_index(path@, '/');
        assert(parts_of(path@, '/').len() > 0);
        assert(texts(parts@).len() == parts@.len());
        assert(texts(parts@)[0] == parts@[0]@);
    }
    if parts.len() >= 2 && same_text(parts[0].as_str(), "crates") {
        assert(texts(parts@)[1] == parts@[1]@);
        return (two_parts(&parts[0], &parts[1]), "crate".to_owned());
    }
    if parts.len() >= 2 && same_text(parts[0].as_str(), "src") {
        assert(texts(parts@)[1] == parts@[1]@);
        return (two_parts(&parts[0], &parts[1]), "module".to_owned());
    }
    (parts[0].clone(), "group".to_owned())
}

/// What a component of that name is for.
pub open spec fn role_of(name: Seq<char>) -> Seq<char> {
    if has_text(name, "daemon"@) {
        "HTTP and MCP surface"@
    } else if has_text(name, "core"@) {
        "indexing and knowledge storage"@
    } else if has_text(name, "launchd"@) {
        "service bootstrap"@
    } else {
        "code component"@
    }
}

/// What a component of that name is for.
pub fn component_role_hint(name: &str) -> (role: String)
    ensures
        role@ == role_of(name@),
{
    if contains(name, "daemon") {
        "HTTP and MCP surface".to_owned()
    } else if contains(name, "core") {
        "indexing and knowledge storage".to_owned()
    } else if contains(name, "launchd") {
        "service bootstrap".to_owned()
    } else {
        "code component".to_owned()
    }
}

/// How often a text occurs.
pub open spec fn occurrences(all: Seq<Seq<char>>, text: Seq<char>) -> nat
    decreases all.len(),
{
    if all.len() == 0 {
        0
    } else if all.last() == text {
        occurrences(all.drop_last(), text) + 1
    } else {
        occurrences(all.drop_last(), text)
    }
}

fn count(all: &Vec<String>, text: &String) -> (n: usize)
    ensures
        n == occurrences(texts(all@), text@),
        n <= all@.len(),
{
    let ghost held = texts(all@);
    let mut n: usize = 0;
    let mut i: usize = 0;
    while i < all.len()
        invariant
            i <= all@.len(),
            held == texts(all@),
            n <= i,
            n == occurrences(held.take(i as int), text@),
        decreases all.len() - i,
    {
        assert(held.take(i + 1).drop_last() =~= held.take(i as int));
        assert(held.take(i + 1).last() == all@[i as int]@);
        if all[i] == *text {
            n = n + 1;
        }
        i = i + 1;
    }
    assert(held.take(i as int) =~= held);
    n
}

/// The components of files, one for each.
pub open spec fn file_components(files: Seq<FileView>) -> Seq<Seq<char>> {
    files.map_values(|f: FileView| identity_of(f.path).0)
}

/// The components of the files that symbols stand in, one for each symbol.
pub open spec fn symbol_components(symbols: Seq<SymbolView>) -> Seq<Seq<char>> {
    symbols.map_values(|s: SymbolView| identity_of(s.file).0)
}

/// The kind of a component: that of its first file.
pub open spec fn component_kind(files: Seq<FileView>, name: Seq<char>) -> Seq<char>
    decreases files.len(),
{
    if files.len() == 0 {
        Seq::empty()
    } else if identity_of(files[0].path).0 == name {
        identity_of(files[0].path).1
    } else {
        component_kind(files.skip(1), name)
    }
}

/// Whether a component is listed: it has more than one file, or a symbol.
pub open spec fn is_component(index: IndexView, name: Seq<char>) -> bool {
    occurrences(file_components(index.files), name) > 1 || occurrences(
        symbol_components(index.symbols),
        name,
    ) > 0
}

/// The names of the listed components, in order.
pub open spec fn component_names(index: IndexView) -> Seq<Seq<char>> {
    sorted_set(file_components(index.files)).filter(|n: Seq<char>| is_component(index, n))
}

/// A listed component.
pub open spec fn component_json(index: IndexView, name: Seq<char>) -> JsonView {
    JsonView::Object(
        map![
            "name"@ => JsonView::Text(name),
            "kind"@ => JsonView::Text(component_kind(index.files, name)),
            "files"@ => JsonView::Integer(
                occurrences(file_components(index.files), name) as int,
            ),
            "symbols"@ => JsonView::Integer(
                occurrences(symbol_components(index.symbols), name) as int,
            ),
            "role"@ => JsonView::Text(role_of(name)),
        ],
    )
}

/// By what a component is arranged: the number of its symbols.
pub open spec fn component_key(index: IndexView, name: Seq<char>) -> KeyView {
    KeyView {
        score: occurrences(symbol_components(index.symbols), name) as int,
        text: Seq::empty(),
    }
}

/// The components of a project, those with more symbols first and else in the order of their
/// names, at most `limit` of them.
pub open spec fn components_of(index: IndexView, limit: int) -> Seq<JsonView> {
    let names = component_names(index);
    first_of(
        arranged(
            names.map_values(|n: Seq<char>| component_json(index, n)),
            names.map_values(|n: Seq<char>| component_key(index, n)),
        ),
        limit,
    )
}

fn file_identities(files: &Vec<FileEntry>) -> (identities: (Vec<String>, Vec<String>))
    ensures
        texts(identities.0@) == file_components(file_views(files@)),
        identities.1@.len() == files@.len(),
        forall|i: int|
            0 <= i < files@.len() ==> (#[trigger] identities.1@[i])@ == identity_of(
                files@[i].path@,
            ).1,
{
    let mut names: Vec<String> = Vec::new();
    let mut kinds: Vec<String> = Vec::new();
    let mut i: usize = 0;
    while i < files.len()
        invariant
            i <= files@.len(),
            names@.len() == i,
            kinds@.len() == i,
            forall|k: int|
                0 <= k < i ==> (#[trigger] names@[k])@ == identity_of(files@[k].path@).0,
            forall|k: int|
                0 <= k < i ==> (#[trigger] kinds@[k])@ == identity_of(files@[k].path@).1,
        decreases files.len() - i,
    {
        let (name, kind) = component_identity(files[i].path.as_str());
        names.push(name);
        kinds.push(kind);
        i = i + 1;
    }
    assert(texts(names@) =~= file_components(file_views(files@)));
    (names, kinds)
}

fn symbol_identities(symbols: &Vec<SymbolEntry>) -> (names: Vec<String>)
    ensures
        texts(names@) == symbol_components(symbol_views(symbols@)),
{
    let mut names: Vec<String> = Vec::new();
    let mut i: usize = 0;
    while i < symbols.len()
        invariant
            i <= symbols@.len(),
            names@.len() == i,
            forall|k: int|
                0 <= k < i ==> (#[trigger] names@[k])@ == identity_of(symbols@[k].file@).0,
        decreases symbols.len() - i,
    {
        let (name, _kind) = component_identity(symbols[i].file.as_str());
        names.push(name);
        i = i + 1;
    }
    assert(texts(names@) =~= symbol_components(symbol_views(symbols@)));
    names
}

fn first_kind(
    files: &Vec<FileEntry>,
    names: &Vec<String>,
    kinds: &Vec<String>,
    name: &String,
) -> (kind: String)
    requires
        texts(names@) == file_components(file_views(files@)),
        kinds@.len() == files@.len(),
        forall|i: int|
            0 <= i < files@.len() ==> (#[trigger] kinds@[i])@ == identity_of(files@[i].path@).1,
    ensures
        kind@ == component_kind(file_views(files@), name@),
{
    let ghost held = file_views(files@);
    assert(texts(names@).len() == names@.len());
    let mut i: usize = 0;
    assert(held.skip(0) =~= held);
    while i < names.len()
        invariant
            i <= names@.len(),
            held == file_views(files@),
            texts(names@) == file_components(held),
            names@.len() == files@.len(),
            kinds@.len() == files@.len(),
            forall|k: int|
                0 <= k < files@.len() ==> (#[trigger] kinds@[k])@ == identity_of(
                    files@[k].path@,
                ).1,
            component_kind(held.skip(i as int), name@) == component_kind(held, name@),
        decreases names.len() - i,
    {
        assert(texts(names@)[i as int] == names@[i as int]@);
        assert(held.skip(i as int)[0] == held[i as int]);
        assert(kinds@[i as int]@ == identity_of(files@[i as int].path@).1);
        if names[i] == *name {
            return kinds[i].clone();
        }
        assert(held.skip(i as int).skip(1) =~= held.skip(i + 1));
        i = i + 1;
    }
    String::new()
}

/// The components of a project, at most `max_components` of them.
pub fn architecture_components(index: &ClabIndex, max_components: usize) -> (components: Vec<
    JsonValue,
>)
    ensures
        views(components@) == components_of(index@, max_components as int),
{
    let ghost held = index@;
    let (file_names, file_kinds) = file_identities(&index.files);
    let symbol_names = symbol_identities(&index.symbols);
    let names = sort_distinct(&file_names);
    let ghost all = texts(names@);
    let ghost keep = |n: Seq<char>| is_component(held, n);
    let ghost to_json = |n: Seq<char>| component_json(held, n);
    let ghost to_key = |n: Seq<char>| component_key(held, n);
    let mut values: Vec<JsonValue> = Vec::new();
    let mut keys: Vec<SortKey> = Vec::new();
    let mut i: usize = 0;
    proof {
        reveal(Seq::filter);
        assert(all.take(0).filter(keep) =~= Seq::empty());
        assert(views(values@) =~= all.take(0).filter(keep).map_values(to_json));
        assert(key_views(keys@) =~= all.take(0).filter(keep).map_values(to_key));
    }
    while i < names.len()
        invariant
            i <= names@.len(),
            held == index@,
            all == texts(names@),
            keep == (|n: Seq<char>| is_component(held, n)),
            to_json == (|n: Seq<char>| component_json(held, n)),
            to_key == (|n: Seq<char>| component_key(held, n)),
            texts(file_names@) == file_components(held.files),
            texts(symbol_names@) == symbol_components(held.symbols),
            file_kinds@.len() == index.files@.len(),
            forall|k: int|
                0 <= k < index.files@.len() ==> (#[trigger] file_kinds@[k])@ == identity_of(
                    index.files@[k].path@,
                ).1,
            views(values@) == all.take(i as int).filter(keep).map_values(to_json),
            key_views(keys@) == all.take(i as int).filter(keep).map_values(to_key),
        decreases names.len() - i,
    {
        let name = &names[i];
        let ghost done = all.take(i as int).filter(keep);
        let ghost values_done = values@;
        let ghost keys_done = keys@;
        assert(all[i as int] == name@);
        proof {
            lemma_filter_step(all, keep, i as int);
        }
        let files: usize = count(&file_names, name);
        let symbols: usize = count(&symbol_names, name);
        if files > 1 || symbols > 0 {
            let kind = first_kind(&index.files, &file_names, &file_kinds, name);
            let value = JsonObject::new().put("name", JsonValue::text(name.as_str())).put(
                "kind",
                JsonValue::Text(kind),
            ).put("files", JsonValue::Uint(files as u64)).put(
                "symbols",
                JsonValue::Uint(symbols as u64),
            ).put("role", JsonValue::Text(component_role_hint(name.as_str()))).value();
            assert(value@ == component_json(held, name@));
            values.push(value);
            let key = SortKey { score: symbols as i128, text: String::new() };
            assert(key@ == component_key(held, name@));
            keys.push(key);
            assert(views(values@) =~= views(values_done).push(to_json(name@)));
            assert(done.push(name@).map_values(to_json) =~= done.map_values(to_json).push(
                to_json(name@),
            ));
            assert(key_views(keys@) =~= key_views(keys_done).push(to_key(name@)));
            assert(done.push(name@).map_values(to_key) =~= done.map_values(to_key).push(
                to_key(name@),
            ));
        }
        i = i + 1;
    }
    assert(all.take(i as int) =~= all);
    assert(component_names(held) =~= all.filter(keep));
    assert(views(values@).len() == values@.len());
    assert(key_views(keys@).len() == keys@.len());
    let mut components = arrange_values(&values, &keys);
    let ghost sorted = components@;
    assert(views(sorted).len() == sorted.len());
    components.truncate(max_components);
    assert(views(components@) =~= first_of(views(sorted), max_components as int));
    assert(component_names(held).map_values(|n: Seq<char>| component_json(held, n))
        =~= views(values@));
    assert(component_names(held).map_values(|n: Seq<char>| component_key(held, n))
        =~= key_views(keys@));
    components
}

// ---------------------------------------------------------------------------
// Entry points, hot spots and important files
// ---------------------------------------------------------------------------

/// Whether a symbol is where a program in that file starts.
pub open spec fn starts_in(symbol: SymbolView, path: Seq<char>) -> bool {
    symbol.file == path && (symbol.name == "main"@ || symbol.name == "serve"@ || symbol.name
        == "run"@)
}

/// The first symbol where a program in that file starts.
pub open spec fn starting_symbol(symbols: Seq<SymbolView>, path: Seq<char>) -> Option<SymbolView>
    decreases symbols.len(),
{
    if symbols.len() == 0 {
        None
    } else if starts_in(symbols[0], path) {
        Some(symbols[0])
    } else {
        starting_symbol(symbols.skip(1), path)
    }
}

/// The entry point in a file: only a file named `main.rs` or `lib.rs` has one.
pub open spec fn entrypoint_in(file: FileView, symbols: Seq<SymbolView>) -> Option<JsonView> {
    let name = last_part(file.path, '/');
    if name == "main.rs"@ || name == "lib.rs"@ {
        match starting_symbol(symbols, file.path) {
            Some(symbol) => Some(
                JsonView::Object(
                    map![
                        "file"@ => JsonView::Text(file.path),
                        "symbol"@ => JsonView::Text(symbol.name),
                        "kind"@ => JsonView::Text(symbol.label),
                    ],
                ),
            ),
            None => None,
        }
    } else {
        None
    }
}

/// The entry points in files, in the order of the files.
pub open spec fn entrypoints_in(files: Seq<FileView>, symbols: Seq<SymbolView>) -> Seq<JsonView>
    decreases files.len(),
{
    if files.len() == 0 {
        Seq::empty()
    } else {
        match entrypoint_in(files.last(), symbols) {
            Some(entry) => entrypoints_in(files.drop_last(), symbols).push(entry),
            None => entrypoints_in(files.drop_last(), symbols),
        }
    }
}

fn find_starting_symbol(symbols: &Vec<SymbolEntry>, path: &String) -> (place: Option<usize>)
    ensures
        match place {
            Some(i) => i < symbols@.len() && starting_symbol(symbol_views(symbols@), path@)
                == Some(symbols@[i as int]@),
            None => starting_symbol(symbol_views(symbols@), path@) is None,
        },
{
    let ghost held = symbol_views(symbols@);
    let mut i: usize = 0;
    assert(held.skip(0) =~= held);
    while i < symbols.len()
        invariant
            i <= symbols@.len(),
            held == symbol_views(symbols@),
            starting_symbol(held.skip(i as int), path@) == starting_symbol(held, path@),
        decreases symbols.len() - i,
    {
        let symbol = &symbols[i];
        assert(held.skip(i as int)[0] == symbol@);
        if symbol.file == *path && (same_text(symbol.name.as_str(), "main") || same_text(
            symbol.name.as_str(),
            "serve",
        ) || same_text(symbol.name.as_str(), "run")) {
            return Some(i);
        }
        assert(held.skip(i as int).skip(1) =~= held.skip(i + 1));
        i = i + 1;
    }
    None
}

/// The entry points of a project.
pub fn architecture_entrypoints(index: &ClabIndex) -> (entrypoints: Vec<JsonValue>)
    ensures
        views(entrypoints@) == entrypoints_in(index@.files, index@.symbols),
{
    let ghost held = index@;
    let mut out: Vec<JsonValue> = Vec::new();
    let mut i: usize = 0;
    assert(views(out@) =~= entrypoints_in(held.files.take(0), held.symbols));
    while i < index.files.len()
        invariant
            i <= index.files@.len(),
            held == index@,
            views(out@) == entrypoints_in(held.files.take(i as int), held.symbols),
        decreases index.files.len() - i,
    {
        let ghost done = out@;
        let file = &index.files[i];
        assert(held.files.take(i + 1).drop_last() =~= held.files.take(i as int));
        assert(held.files.take(i + 1).last() == file@);
        let name = rsplit_first(file.path.as_str(), '/');
        if same_text(name.as_str(), "main.rs") || same_text(name.as_str(), "lib.rs") {
            if let Some(place) = find_starting_symbol(&index.symbols, &file.path) {
                let symbol = &index.symbols[place];
                out.push(
                    JsonObject::new().put("file", JsonValue::text(file.path.as_str())).put(
                        "symbol",
                        JsonValue::text(symbol.name.as_str()),
                    ).put("kind", JsonValue::text(symbol.label.as_str())).value(),
                );
                assert(views(out@) =~= views(done).push(out@.last()@));
            }
        }
        i = i + 1;
    }
    assert(held.files.take(i as int) =~= held.files);
    out
}

/// The files that symbols stand in, one for each symbol.
pub open spec fn symbol_files(symbols: Seq<SymbolView>) -> Seq<Seq<char>> {
    symbols.map_values(|s: SymbolView| s.file)
}

/// A file with the number of its symbols.
pub open spec fn hotspot_json(symbols: Seq<SymbolView>, file: Seq<char>) -> JsonView {
    JsonView::Object(
        map![
            "file"@ => JsonView::Text(file),
            "reason"@ => JsonView::Text("high symbol density"@),
            "symbols"@ => JsonView::Integer(occurrences(symbol_files(symbols), file) as int),
        ],
    )
}

/// By what a hot spot is arranged: the number of its symbols.
pub open spec fn hotspot_key(symbols: Seq<SymbolView>, file: Seq<char>) -> KeyView {
    KeyView { score: occurrences(symbol_files(symbols), file) as int, text: Seq::empty() }
}

/// The files with symbols, those with more of them first and else in the order of their paths,
/// at most `limit` of them.
pub open spec fn hotspots_of(symbols: Seq<SymbolView>, limit: int) -> Seq<JsonView> {
    let files = sorted_set(symbol_files(symbols));
    first_of(
        arranged(
            files.map_values(|f: Seq<char>| hotspot_json(symbols, f)),
            files.map_values(|f: Seq<char>| hotspot_key(symbols, f)),
        ),
        limit,
    )
}

/// The files with most symbols, at most `max_hotspots` of them.
pub fn architecture_hotspots(index: &ClabIndex, max_hotspots: usize) -> (hotspots: Vec<JsonValue>)
    ensures
        views(hotspots@) == hotspots_of(index@.symbols, max_hotspots as int),
{
    let ghost held = index@.symbols;
    let mut symbol_paths: Vec<String> = Vec::new();
    let mut n: usize = 0;
    while n < index.symbols.len()
        invariant
            n <= index.symbols@.len(),
            symbol_paths@.len() == n,
            forall|k: int|
                0 <= k < n ==> (#[trigger] symbol_paths@[k])@ == index.symbols@[k].file@,
        decreases index.symbols.len() - n,
    {
        symbol_paths.push(index.symbols[n].file.clone());
        n = n + 1;
    }
    assert(texts(symbol_paths@) =~= symbol_files(held));
    let files = sort_distinct(&symbol_paths);
    let ghost all = texts(files@);
    let mut values: Vec<JsonValue> = Vec::new();
    let mut keys: Vec<SortKey> = Vec::new();
    let mut i: usize = 0;
    while i < files.len()
        invariant
            i <= files@.len(),
            texts(symbol_paths@) == symbol_files(held),
            values@.len() == i,
            keys@.len() == i,
            forall|k: int|
                0 <= k < i ==> (#[trigger] values@[k])@ == hotspot_json(held, files@[k]@),
            forall|k: int| 0 <= k < i ==> (#[trigger] keys@[k])@ == hotspot_key(held, files@[k]@),
        decreases files.len() - i,
    {
        let symbols: usize = count(&symbol_paths, &files[i]);
        values.push(
            JsonObject::new().put("file", JsonValue::text(files[i].as_str())).put(
                "reason",
                JsonValue::text("high symbol density"),
            ).put("symbols", JsonValue::Uint(symbols as u64)).value(),
        );
        keys.push(SortKey { score: symbols as i128, text: String::new() });
        i = i + 1;
    }
    let mut hotspots = arrange_values(&values, &keys);
    let ghost sorted = hotspots@;
    assert(views(sorted).len() == sorted.len());
    hotspots.truncate(max_hotspots);
    assert(views(hotspots@) =~= first_of(views(sorted), max_hotspots as int));
    assert(all.map_values(|f: Seq<char>| hotspot_json(held, f)) =~= views(values@));
    assert(all.map_values(|f: Seq<char>| hotspot_key(held, f)) =~= key_views(keys@));
    hotspots
}

/// Whether a file is worth reading first, by its name.
pub open spec fn is_important(path: Seq<char>) -> bool {
    let name = last_part(path, '/');
    name == "lib.rs"@ || name == "main.rs"@ || name == "Cargo.toml"@ || name == "Makefile"@
}

/// The paths of files.
pub open spec fn paths_of(files: Seq<FileView>) -> Seq<Seq<char>> {
    files.map_values(|f: FileView| f.path)
}

/// The paths of the files worth reading first, in order and each once.
pub open spec fn important_files(files: Seq<FileView>) -> Seq<Seq<char>> {
    sorted_set(paths_of(files).filter(|p: Seq<char>| is_important(p)))
}

/// The paths of the files worth reading first.
pub fn architecture_important_files(index: &ClabIndex) -> (paths: Vec<String>)
    ensures
        texts(paths@) == important_files(index@.files),
{
    let ghost all = paths_of(index@.files);
    let ghost keep = |p: Seq<char>| is_important(p);
    let mut kept: Vec<String> = Vec::new();
    let mut i: usize = 0;
    proof {
        reveal(Seq::filter);
        assert(texts(kept@) =~= all.take(0).filter(keep));
    }
    while i < index.files.len()
        invariant
            i <= index.files@.len(),
            all == paths_of(index@.files),
            keep == (|p: Seq<char>| is_important(p)),
            texts(kept@) == all.take(i as int).filter(keep),
        decreases index.files.len() - i,
    {
        let ghost done = kept@;
        let path = &index.files[i].path;
        assert(all[i as int] == path@);
        proof {
            lemma_filter_step(all, keep, i as int);
        }
        let name = rsplit_first(path.as_str(), '/');
        if same_text(name.as_str(), "lib.rs") || same_text(name.as_str(), "main.rs")
            || same_text(name.as_str(), "Cargo.toml") || same_text(name.as_str(), "Makefile") {
            kept.push(path.clone());
            assert(texts(kept@) =~= texts(done).push(path@));
        }
        i = i + 1;
    }
    assert(all.take(i as int) =~= all);
    sort_distinct(&kept)
}

// ---------------------------------------------------------------------------
// Summary and map
// ---------------------------------------------------------------------------

/// The texts in the field `name` of values, of those that have one.
pub open spec fn names_in(values: Seq<JsonView>) -> Seq<Seq<char>>
    decreases values.len(),
{
    if values.len() == 0 {
        Seq::empty()
    } else {
        match values.last().text_at("name"@) {
            Some(name) => names_in(values.drop_last()).push(name),
            None => names_in(values.drop_last()),
        }
    }
}

/// The architecture in a sentence: the first two components and the counts.
pub open spec fn architecture_sentence(index: IndexView, components: Seq<JsonView>) -> Seq<char> {
    let top = names_in(first_of(components, 2));
    let counts = decimal_text(index.files.len()) + " files and "@ + decimal_text(
        index.symbols.len(),
    ) + " symbols."@;
    if top.len() == 0 {
        "Indexed project with "@ + counts
    } else {
        "Indexed project centered on "@ + joined(top, " and "@) + " with "@ + counts
    }
}

/// The architecture in a sentence.
pub fn architecture_summary(index: &ClabIndex, components: &Vec<JsonValue>) -> (summary: String)
    ensures
        summary@ == architecture_sentence(index@, views(components@)),
{
    let ghost held = first_of(views(components@), 2);
    assert(views(components@).len() == components@.len());
    let mut top: Vec<String> = Vec::new();
    let mut i: usize = 0;
    assert(texts(top@) =~= names_in(held.take(0)));
    while i < components.len() && i < 2
        invariant
            i <= components@.len(),
            i <= 2,
            held == first_of(views(components@), 2),
            held.len() == if components@.len() <= 2 { components@.len() } else { 2 },
            texts(top@) == names_in(held.take(i as int)),
        decreases 2 - i,
    {
        let ghost done = top@;
        assert(held[i as int] == components@[i as int]@);
        assert(held.take(i + 1).drop_last() =~= held.take(i as int));
        assert(held.take(i + 1).last() == held[i as int]);
        if let Some(name) = crate::util::opt_str(&components[i], "name") {
            top.push(name);
            assert(texts(top@) =~= texts(done).push(name@));
        }
        i = i + 1;
    }
    assert(held.take(i as int) =~= held);
    assert(texts(top@).len() == top@.len());
    let mut counts = decimal(index.files.len() as u64);
    counts.append(" files and ");
    counts.append(decimal(index.symbols.len() as u64).as_str());
    counts.append(" symbols.");
    if top.len() == 0 {
        let mut summary = "Indexed project with ".to_owned();
        summary.append(counts.as_str());
        summary
    } else {
        let mut summary = "Indexed project centered on ".to_owned();
        summary.append(join(&top, " and ").as_str());
        summary.append(" with ");
        summary.append(counts.as_str());
        summary
    }
}

/// How far an architecture map can be relied on, in hundredths.
pub open spec fn confidence_of(files: nat, symbols: nat) -> nat {
    if files == 0 {
        10
    } else if symbols == 0 {
        35
    } else if symbols < 25 {
        55
    } else {
        75
    }
}

/// How far an architecture map can be relied on, in hundredths.
pub fn architecture_confidence(index: &ClabIndex) -> (confidence: u32)
    ensures
        confidence == confidence_of(index@.files.len(), index@.symbols.len()),
{
    if index.files.len() == 0 {
        10
    } else if index.symbols.len() == 0 {
        35
    } else if index.symbols.len() < 25 {
        55
    } else {
        75
    }
}

/// The architecture of a project.
pub open spec fn architecture_of(
    index: IndexView,
    max_components: int,
    max_hotspots: int,
    include_summary: bool,
) -> JsonView {
    let components = components_of(index, max_components);
    JsonView::Object(
        map![
            "project"@ => JsonView::Text(index.project),
            "root_path"@ => JsonView::Text(index.root_path),
            "summary"@ => JsonView::Text(
                if include_summary {
                    architecture_sentence(index, components)
                } else {
                    Seq::empty()
                },
            ),
            "components"@ => JsonView::Array(components),
            "entrypoints"@ => JsonView::Array(entrypoints_in(index.files, index.symbols)),
            "hotspots"@ => JsonView::Array(hotspots_of(index.symbols, max_hotspots)),
            "important_files"@ => text_array_view(important_files(index.files)),
            "confidence"@ => hundredths_view(
                confidence_of(index.files.len(), index.symbols.len()),
            ),
            "derived_from"@ => JsonView::Object(
                map![
                    "indexed_files"@ => JsonView::Integer(index.files.len() as int),
                    "indexed_symbols"@ => JsonView::Integer(index.symbols.len() as int),
                ],
            ),
        ],
    )
}

/// The architecture of a project.
pub fn architecture_map(
    index: &ClabIndex,
    max_components: usize,
    max_hotspots: usize,
    include_summary: bool,
) -> (map: JsonValue)
    ensures
        map@ == architecture_of(
            index@,
            max_components as int,
            max_hotspots as int,
            include_summary,
        ),
{
    broadcast use lemma_array_view;

    let components = architecture_components(index, max_components);
    let entrypoints = architecture_entrypoints(index);
    let hotspots = architecture_hotspots(index, max_hotspots);
    let important = architecture_important_files(index);
    let summary = if include_summary {
        architecture_summary(index, &components)
    } else {
        String::new()
    };
    let derived = JsonObject::new().put(
        "indexed_files",
        JsonValue::Uint(index.files.len() as u64),
    ).put("indexed_symbols", JsonValue::Uint(index.symbols.len() as u64)).value();
    JsonObject::new().put("project", JsonValue::text(index.project.as_str())).put(
        "root_path",
        JsonValue::text(index.root_path.as_str()),
    ).put("summary", JsonValue::Text(summary)).put(
        "components",
        JsonValue::Array(components),
    ).put("entrypoints", JsonValue::Array(entrypoints)).put(
        "hotspots",
        JsonValue::Array(hotspots),
    ).put("important_files", text_array(&important)).put(
        "confidence",
        hundredths(architecture_confidence(index)),
    ).put("derived_from", derived).value()
}

/// An architecture map lists no more components and hot spots than it was asked for.
pub proof fn architecture_is_bounded(index: IndexView, max_components: nat, max_hotspots: nat)
    ensures
        components_of(index, max_components as int).len() <= max_components,
        hotspots_of(index.symbols, max_hotspots as int).len() <= max_hotspots,
{
}

/// How many symbols a component or a hot spot has.
pub open spec fn symbol_count(value: JsonView) -> int {
    match value.get("symbols"@) {
        Some(JsonView::Integer(n)) => n,
        _ => 0,
    }
}

/// Items that are arranged by a number, and by nothing else, stand with the higher number first.
proof fn lemma_higher_first(values: Seq<JsonView>, keys: Seq<KeyView>, i: int, j: int)
    requires
        values.len() == keys.len(),
        forall|k: int|
            0 <= k < values.len() ==> symbol_count(#[trigger] values[k]) == keys[k].score,
        0 <= i < j < values.len(),
    ensures
        symbol_count(arranged(values, keys)[i]) >= symbol_count(arranged(values, keys)[j]),
{
    arrangement_exists(keys);
    let order = arrangement(keys);
    assert(before(keys, order[i], order[j]));
    assert(arranged(values, keys)[i] == values[order[i]]);
    assert(arranged(values, keys)[j] == values[order[j]]);
}

/// The components and the hot spots with more symbols come first.
pub proof fn busier_parts_come_first(index: IndexView, limit: nat, i: int, j: int)
    requires
        0 <= i < j,
    ensures
        j < components_of(index, limit as int).len() ==> symbol_count(
            components_of(index, limit as int)[i],
        ) >= symbol_count(components_of(index, limit as int)[j]),
        j < hotspots_of(index.symbols, limit as int).len() ==> symbol_count(
            hotspots_of(index.symbols, limit as int)[i],
        ) >= symbol_count(hotspots_of(index.symbols, limit as int)[j]),
{
    reveal_strlit("symbols");
    reveal_strlit("role");
    assert("symbols"@.len() == 7);
    assert("role"@.len() == 4);
    let names = component_names(index);
    let components = names.map_values(|n: Seq<char>| component_json(index, n));
    let keys = names.map_values(|n: Seq<char>| component_key(index, n));
    arranging_keeps_items(components, keys);
    if j < components_of(index, limit as int).len() {
        lemma_higher_first(components, keys, i, j);
    }
    let files = sorted_set(symbol_files(index.symbols));
    let hotspots = files.map_values(|f: Seq<char>| hotspot_json(index.symbols, f));
    let hotspot_keys = files.map_values(|f: Seq<char>| hotspot_key(index.symbols, f));
    arranging_keeps_items(hotspots, hotspot_keys);
    if j < hotspots_of(index.symbols, limit as int).len() {
        lemma_higher_first(hotspots, hotspot_keys, i, j);
    }
}

} // verus!
