//! What an architecture map says of an index.

use vstd::prelude::*;

use crate::architecture::{
    architecture_of, architecture_sentence, component_json, component_key, component_kind,
    component_names, components_of, entrypoints_in, file_components, hotspot_json, hotspot_key,
    hotspots_of, identity_of, important_files, is_component, is_important, names_in, occurrences,
    paths_of, role_of, starting_symbol, symbol_components, symbol_files,
};
use crate::json::JsonView;
use crate::laws::names::map_names;
use crate::laws::results::items_are_arranged_by_score_and_text;
use crate::laws::texts::a_separator_ends_a_part;
use crate::order::{sorted_set, sorted_set_exists, text_less};
use crate::seqs::{first_of, lemma_filter_has, lemma_filter_keeps};
use crate::store::{architecture_answer, ArchitectureArgs};
use crate::text::{decimal_text, has_text, joined, parts_of};
use crate::types::{FileView, IndexView, SymbolView};
use crate::util::text_array_view;
use crate::wire::hundredths_view;

verus! {

// ---------------------------------------------------------------------------
// Components
// ---------------------------------------------------------------------------

/// What stands below `crates` is a crate of its own, what stands below `src` is a module, and
/// anything else belongs to the group that the first part of its path names.
pub proof fn paths_belong_to_components(part: Seq<char>, name: Seq<char>, rest: Seq<char>)
    requires
        !part.contains('/'),
        !name.contains('/'),
    ensures
        ({
            let short = part + seq!['/'] + name;
            let long = part + seq!['/'] + (name + seq!['/'] + rest);
            &&& part == "crates"@ ==> identity_of(short) == (short, "crate"@) && identity_of(long)
                == (short, "crate"@)
            &&& part == "src"@ ==> identity_of(short) == (short, "module"@) && identity_of(long) == (
                short,
                "module"@,
            )
            &&& part != "crates"@ && part != "src"@ ==> identity_of(short) == (part, "group"@)
                && identity_of(long) == (part, "group"@)
            &&& identity_of(part) == (part, "group"@)
        }),
{
    reveal_strlit("/");
    reveal_strlit("crates");
    reveal_strlit("src");
    assert("crates"@.len() == 6 && "src"@.len() == 3);
    assert("/"@ =~= seq!['/']);
    let later = name + seq!['/'] + rest;
    a_separator_ends_a_part(part, '/', name);
    a_separator_ends_a_part(part, '/', later);
    a_separator_ends_a_part(name, '/', rest);
    let short = parts_of(part + seq!['/'] + name, '/');
    let long = parts_of(part + seq!['/'] + later, '/');
    assert(short[0] == part && short[1] == name);
    assert(long[0] == part && long[1] == name);
    assert(part + "/"@ + name =~= part + seq!['/'] + name);
}

/// A component is for what its name says.
pub proof fn names_tell_the_role(name: Seq<char>)
    ensures
        has_text(name, "daemon"@) ==> role_of(name) == "HTTP and MCP surface"@,
        !has_text(name, "daemon"@) && has_text(name, "core"@) ==> role_of(name)
            == "indexing and knowledge storage"@,
        !has_text(name, "daemon"@) && !has_text(name, "core"@) && has_text(name, "launchd"@)
            ==> role_of(name) == "service bootstrap"@,
        !has_text(name, "daemon"@) && !has_text(name, "core"@) && !has_text(name, "launchd"@)
            ==> role_of(name) == "code component"@,
{
}

/// How many of some texts are the one given.
pub open spec fn count_of(all: Seq<Seq<char>>, text: Seq<char>) -> nat {
    all.filter(|t: Seq<char>| t == text).len()
}

/// How often a text occurs is how many of the texts are that one.
pub proof fn occurrences_are_counted(all: Seq<Seq<char>>, text: Seq<char>)
    ensures
        occurrences(all, text) == count_of(all, text),
    decreases all.len(),
{
    reveal(Seq::filter);
    if all.len() > 0 {
        occurrences_are_counted(all.drop_last(), text);
    }
}

/// How many files of an index belong to a component.
pub open spec fn files_of_component(index: IndexView, name: Seq<char>) -> nat {
    count_of(index.files.map_values(|f: FileView| identity_of(f.path).0), name)
}

/// How many symbols of an index belong to a component.
pub open spec fn symbols_of_component(index: IndexView, name: Seq<char>) -> nat {
    count_of(index.symbols.map_values(|s: SymbolView| identity_of(s.file).0), name)
}

proof fn lemma_component_counts(index: IndexView, name: Seq<char>)
    ensures
        occurrences(file_components(index.files), name) == files_of_component(index, name),
        occurrences(symbol_components(index.symbols), name) == symbols_of_component(index, name),
{
    occurrences_are_counted(file_components(index.files), name);
    occurrences_are_counted(symbol_components(index.symbols), name);
    assert(file_components(index.files) =~= index.files.map_values(
        |f: FileView| identity_of(f.path).0,
    ));
    assert(symbol_components(index.symbols) =~= index.symbols.map_values(
        |s: SymbolView| identity_of(s.file).0,
    ));
}

proof fn lemma_component_place(index: IndexView, limit: nat, i: int) -> (p: int)
    requires
        0 <= i < components_of(index, limit as int).len(),
    ensures
        0 <= p < component_names(index).len(),
        components_of(index, limit as int)[i] == component_json(index, component_names(index)[p]),
{
    let names = component_names(index);
    let items = names.map_values(|n: Seq<char>| component_json(index, n));
    let keys = names.map_values(|n: Seq<char>| component_key(index, n));
    let places = items_are_arranged_by_score_and_text(items, keys);
    assert(0 <= places[i] < items.len());
    places[i]
}

/// A map lists components with their names, their kinds, how many files and symbols they have,
/// and what they are for; only those with more than one file or with a symbol.
pub proof fn components_are_described(index: IndexView, limit: nat, i: int) -> (name: Seq<char>)
    requires
        0 <= i < components_of(index, limit as int).len(),
    ensures
        ({
            let component = components_of(index, limit as int)[i];
            &&& component.text_at("name"@) == Some(name)
            &&& component.text_at("kind"@) == Some(component_kind(index.files, name))
            &&& component.get("files"@) == Some(
                JsonView::Integer(files_of_component(index, name) as int),
            )
            &&& component.get("symbols"@) == Some(
                JsonView::Integer(symbols_of_component(index, name) as int),
            )
            &&& component.text_at("role"@) == Some(role_of(name))
            &&& files_of_component(index, name) > 1 || symbols_of_component(index, name) > 0
            &&& exists|f: int|
                0 <= f < index.files.len() && identity_of((#[trigger] index.files[f]).path).0 == name
        }),
{
    map_names();
    let p = lemma_component_place(index, limit, i);
    let name = component_names(index)[p];
    let all = file_components(index.files);
    lemma_component_counts(index, name);
    sorted_set_exists(all);
    lemma_filter_keeps(sorted_set(all), |n: Seq<char>| is_component(index, n));
    assert(sorted_set(all).contains(name));
    assert(all.contains(name));
    let f = all.index_of(name);
    assert(identity_of(index.files[f].path).0 == name);
    name
}

/// Every component with more than one file or with a symbol is listed where the limit allows it.
pub proof fn every_component_is_listed(index: IndexView, limit: nat, f: int) -> (i: int)
    requires
        0 <= f < index.files.len(),
        ({
            let name = identity_of(index.files[f].path).0;
            files_of_component(index, name) > 1 || symbols_of_component(index, name) > 0
        }),
        component_names(index).len() <= limit,
    ensures
        0 <= i < components_of(index, limit as int).len(),
        components_of(index, limit as int)[i].text_at("name"@) == Some(
            identity_of(index.files[f].path).0,
        ),
{
    map_names();
    let name = identity_of(index.files[f].path).0;
    let all = file_components(index.files);
    let names = component_names(index);
    let keep = |n: Seq<char>| is_component(index, n);
    lemma_component_counts(index, name);
    sorted_set_exists(all);
    assert(all[f] == name);
    assert(all.contains(name));
    assert(sorted_set(all).contains(name));
    let s = sorted_set(all).index_of(name);
    lemma_filter_has(sorted_set(all), keep, s);
    let p = names.index_of(name);
    let items = names.map_values(|n: Seq<char>| component_json(index, n));
    let keys = names.map_values(|n: Seq<char>| component_key(index, n));
    let places = items_are_arranged_by_score_and_text(items, keys);
    assert(places.contains(p));
    let i = places.index_of(p);
    assert(items[p] == component_json(index, name));
    assert(0 <= places[i] < items.len());
    i
}

/// Components with more symbols come first, and those with as many in the order of their names.
pub proof fn components_are_ordered(index: IndexView, limit: nat, i: int, j: int)
    requires
        0 <= i < j < components_of(index, limit as int).len(),
    ensures
        ({
            let (a, b) = (components_of(index, limit as int)[i], components_of(index, limit as int)[j]);
            &&& a.get("symbols"@) matches Some(JsonView::Integer(m)) && b.get(
                "symbols"@,
            ) matches Some(JsonView::Integer(n)) && (m > n || (m == n && text_less(
                a.text_at("name"@)->Some_0,
                b.text_at("name"@)->Some_0,
            )))
        }),
{
    map_names();
    let all = file_components(index.files);
    let names = component_names(index);
    let keep = |n: Seq<char>| is_component(index, n);
    let items = names.map_values(|n: Seq<char>| component_json(index, n));
    let keys = names.map_values(|n: Seq<char>| component_key(index, n));
    let places = items_are_arranged_by_score_and_text(items, keys);
    let (p, q) = (places[i], places[j]);
    assert(0 <= p < names.len() && 0 <= q < names.len());
    assert(keys[p].text.len() == 0 && keys[q].text.len() == 0);
    sorted_set_exists(all);
    if p < q {
        lemma_filter_is_sorted(sorted_set(all), keep, p, q);
    }
}

proof fn lemma_filter_is_sorted(
    sorted: Seq<Seq<char>>,
    keep: spec_fn(Seq<char>) -> bool,
    p: int,
    q: int,
)
    requires
        forall|i: int, j: int|
            0 <= i < j < sorted.len() ==> text_less(#[trigger] sorted[i], #[trigger] sorted[j]),
        0 <= p < q < sorted.filter(keep).len(),
    ensures
        text_less(sorted.filter(keep)[p], sorted.filter(keep)[q]),
    decreases sorted.len(),
{
    reveal(Seq::filter);
    let front = sorted.drop_last();
    let kept = front.filter(keep);
    if q < kept.len() {
        lemma_filter_is_sorted(front, keep, p, q);
    } else {
        lemma_filter_keeps(front, keep);
        assert(front.contains(kept[p]));
        let i = front.index_of(kept[p]);
        assert(text_less(sorted[i], sorted[sorted.len() - 1]));
    }
}

// ---------------------------------------------------------------------------
// Entry points
// ---------------------------------------------------------------------------

/// Files are looked at one by one for an entry point: one named `main.rs` or `lib.rs` has one
/// where a symbol named `main`, `serve` or `run` stands in it, of which the first counts.
pub proof fn entry_points_are_found_file_by_file(
    files: Seq<FileView>,
    directory: Seq<char>,
    name: Seq<char>,
    file: FileView,
    symbols: Seq<SymbolView>,
)
    requires
        !name.contains('/'),
        file.path == name || file.path == directory + seq!['/'] + name,
    ensures
        ({
            let earlier = entrypoints_in(files, symbols);
            let all = entrypoints_in(files.push(file), symbols);
            let start = starting_symbol(symbols, file.path);
            &&& entrypoints_in(Seq::empty(), symbols).len() == 0
            &&& (name == "main.rs"@ || name == "lib.rs"@) && start is Some ==> {
                &&& all.len() == earlier.len() + 1
                &&& all.drop_last() == earlier
                &&& all.last().text_at("file"@) == Some(file.path)
                &&& all.last().text_at("symbol"@) == Some(start->Some_0.name)
                &&& all.last().text_at("kind"@) == Some(start->Some_0.label)
            }
            &&& !((name == "main.rs"@ || name == "lib.rs"@) && start is Some) ==> all == earlier
        }),
{
    map_names();
    a_separator_ends_a_part(name, '/', directory);
    assert(files.push(file).drop_last() =~= files);
    let earlier = entrypoints_in(files, symbols);
    let all = entrypoints_in(files.push(file), symbols);
    if all.len() > earlier.len() {
        assert(all.drop_last() =~= earlier);
    }
}

/// A program starts at the first symbol of a file that is named `main`, `serve` or `run`.
pub proof fn programs_start_at_main_serve_or_run(
    symbol: SymbolView,
    symbols: Seq<SymbolView>,
    path: Seq<char>,
)
    ensures
        ({
            let starts = symbol.file == path && (symbol.name == "main"@ || symbol.name == "serve"@
                || symbol.name == "run"@);
            &&& starts ==> starting_symbol(seq![symbol] + symbols, path) == Some(symbol)
            &&& !starts ==> starting_symbol(seq![symbol] + symbols, path) == starting_symbol(
                symbols,
                path,
            )
            &&& starting_symbol(Seq::empty(), path) is None
        }),
{
    let all = seq![symbol] + symbols;
    assert(all[0] == symbol);
    assert(all.skip(1) =~= symbols);
}

// ---------------------------------------------------------------------------
// Hot spots and important files
// ---------------------------------------------------------------------------

proof fn lemma_hotspot_place(symbols: Seq<SymbolView>, limit: nat, i: int) -> (p: int)
    requires
        0 <= i < hotspots_of(symbols, limit as int).len(),
    ensures
        0 <= p < sorted_set(symbol_files(symbols)).len(),
        hotspots_of(symbols, limit as int)[i] == hotspot_json(
            symbols,
            sorted_set(symbol_files(symbols))[p],
        ),
{
    let files = sorted_set(symbol_files(symbols));
    let items = files.map_values(|f: Seq<char>| hotspot_json(symbols, f));
    let keys = files.map_values(|f: Seq<char>| hotspot_key(symbols, f));
    let places = items_are_arranged_by_score_and_text(items, keys);
    assert(0 <= places[i] < items.len());
    places[i]
}

/// A hot spot is a file with symbols: which one, how many symbols, and why it is listed.
pub proof fn hot_spots_are_described(symbols: Seq<SymbolView>, limit: nat, i: int) -> (file: Seq<
    char,
>)
    requires
        0 <= i < hotspots_of(symbols, limit as int).len(),
    ensures
        ({
            let spot = hotspots_of(symbols, limit as int)[i];
            &&& spot.text_at("file"@) == Some(file)
            &&& spot.text_at("reason"@) == Some("high symbol density"@)
            &&& spot.get("symbols"@) == Some(
                JsonView::Integer(
                    count_of(symbols.map_values(|s: SymbolView| s.file), file) as int,
                ),
            )
            &&& exists|k: int| 0 <= k < symbols.len() && (#[trigger] symbols[k]).file == file
        }),
{
    map_names();
    let all = symbol_files(symbols);
    let p = lemma_hotspot_place(symbols, limit, i);
    let file = sorted_set(all)[p];
    occurrences_are_counted(all, file);
    assert(all =~= symbols.map_values(|s: SymbolView| s.file));
    sorted_set_exists(all);
    assert(sorted_set(all).contains(file));
    assert(all.contains(file));
    let k = all.index_of(file);
    assert(symbols[k].file == file);
    file
}

/// Every file with a symbol is a hot spot where the limit allows it.
pub proof fn every_file_with_symbols_is_a_hot_spot(symbols: Seq<SymbolView>, limit: nat, k: int) -> (
    i: int)
    requires
        0 <= k < symbols.len(),
        sorted_set(symbol_files(symbols)).len() <= limit,
    ensures
        0 <= i < hotspots_of(symbols, limit as int).len(),
        hotspots_of(symbols, limit as int)[i].text_at("file"@) == Some(symbols[k].file),
{
    map_names();
    let all = symbol_files(symbols);
    let files = sorted_set(all);
    sorted_set_exists(all);
    assert(all[k] == symbols[k].file);
    assert(all.contains(all[k]));
    assert(files.contains(all[k]));
    let p = files.index_of(all[k]);
    let items = files.map_values(|f: Seq<char>| hotspot_json(symbols, f));
    let keys = files.map_values(|f: Seq<char>| hotspot_key(symbols, f));
    let places = items_are_arranged_by_score_and_text(items, keys);
    assert(places.contains(p));
    let i = places.index_of(p);
    assert(items[p] == hotspot_json(symbols, files[p]));
    assert(0 <= places[i] < items.len());
    i
}

/// Hot spots with more symbols come first, and those with as many in the order of their paths.
pub proof fn hot_spots_are_ordered(symbols: Seq<SymbolView>, limit: nat, i: int, j: int)
    requires
        0 <= i < j < hotspots_of(symbols, limit as int).len(),
    ensures
        ({
            let (a, b) = (hotspots_of(symbols, limit as int)[i], hotspots_of(symbols, limit as int)[j]);
            &&& a.get("symbols"@) matches Some(JsonView::Integer(m)) && b.get(
                "symbols"@,
            ) matches Some(JsonView::Integer(n)) && (m > n || (m == n && text_less(
                a.text_at("file"@)->Some_0,
                b.text_at("file"@)->Some_0,
            )))
        }),
{
    map_names();
    let all = symbol_files(symbols);
    let files = sorted_set(all);
    let items = files.map_values(|f: Seq<char>| hotspot_json(symbols, f));
    let keys = files.map_values(|f: Seq<char>| hotspot_key(symbols, f));
    let places = items_are_arranged_by_score_and_text(items, keys);
    let (p, q) = (places[i], places[j]);
    assert(0 <= p < files.len() && 0 <= q < files.len());
    assert(keys[p].text.len() == 0 && keys[q].text.len() == 0);
    sorted_set_exists(all);
}

/// The files worth reading first are those named `lib.rs`, `main.rs`, `Cargo.toml` or `Makefile`,
/// each once and in the order of their paths.
pub proof fn important_files_are_known_by_name(
    files: Seq<FileView>,
    f: int,
    directory: Seq<char>,
    name: Seq<char>,
)
    requires
        0 <= f < files.len(),
        !name.contains('/'),
        files[f].path == name || files[f].path == directory + seq!['/'] + name,
    ensures
        important_files(files).contains(files[f].path) <==> name == "lib.rs"@ || name == "main.rs"@
            || name == "Cargo.toml"@ || name == "Makefile"@,
        forall|i: int, j: int|
            0 <= i < j < important_files(files).len() ==> text_less(
                #[trigger] important_files(files)[i],
                #[trigger] important_files(files)[j],
            ),
        forall|i: int|
            0 <= i < important_files(files).len() ==> exists|g: int|
                0 <= g < files.len() && (#[trigger] files[g]).path == (#[trigger] important_files(
                    files,
                )[i]),
{
    let keep = |p: Seq<char>| is_important(p);
    let paths = paths_of(files);
    let kept = paths.filter(keep);
    a_separator_ends_a_part(name, '/', directory);
    sorted_set_exists(kept);
    lemma_filter_keeps(paths, keep);
    let listed = important_files(files);
    assert(paths[f] == files[f].path);
    if is_important(paths[f]) {
        lemma_filter_has(paths, keep, f);
        assert(kept.contains(paths[f]));
    } else if listed.contains(paths[f]) {
        assert(kept.contains(paths[f]));
        let i = kept.index_of(paths[f]);
        assert(keep(kept[i]));
    }
    assert forall|i: int| 0 <= i < listed.len() implies exists|g: int|
        0 <= g < files.len() && (#[trigger] files[g]).path == (#[trigger] listed[i]) by {
        assert(listed.contains(listed[i]));
        assert(kept.contains(listed[i]));
        let k = kept.index_of(listed[i]);
        assert(paths.contains(kept[k]));
        let g = paths.index_of(kept[k]);
        assert(files[g].path == listed[i]);
    }
}

/// A lower limit leaves out the last components and hot spots and none of the first.
pub proof fn lower_limits_leave_out_the_last(index: IndexView, limit: nat, higher: nat)
    requires
        limit <= higher,
    ensures
        components_of(index, limit as int).is_prefix_of(components_of(index, higher as int)),
        hotspots_of(index.symbols, limit as int).is_prefix_of(
            hotspots_of(index.symbols, higher as int),
        ),
        components_of(index, higher as int).len() > limit ==> components_of(
            index,
            limit as int,
        ).len() == limit,
        hotspots_of(index.symbols, higher as int).len() > limit ==> hotspots_of(
            index.symbols,
            limit as int,
        ).len() == limit,
{
}

// ---------------------------------------------------------------------------
// The map
// ---------------------------------------------------------------------------

/// A map says which project it is of and where, what it is made of, how far it can be relied on
/// and what it was made from.
pub proof fn a_map_describes_its_index(
    index: IndexView,
    max_components: int,
    max_hotspots: int,
    include_summary: bool,
)
    ensures
        ({
            let map = architecture_of(index, max_components, max_hotspots, include_summary);
            let components = components_of(index, max_components);
            &&& map.text_at("project"@) == Some(index.project)
            &&& map.text_at("root_path"@) == Some(index.root_path)
            &&& include_summary ==> map.text_at("summary"@) == Some(
                architecture_sentence(index, components),
            )
            &&& !include_summary ==> (map.text_at("summary"@) matches Some(text) && text.len() == 0)
            &&& map.items_at("components"@) == Some(components)
            &&& map.items_at("entrypoints"@) == Some(entrypoints_in(index.files, index.symbols))
            &&& map.items_at("hotspots"@) == Some(hotspots_of(index.symbols, max_hotspots))
            &&& map.get("important_files"@) == Some(text_array_view(important_files(index.files)))
            &&& map.get("confidence"@) == Some(
                hundredths_view(
                    if index.files.len() == 0 {
                        10
                    } else if index.symbols.len() == 0 {
                        35
                    } else if index.symbols.len() < 25 {
                        55
                    } else {
                        75
                    },
                ),
            )
            &&& map.get("derived_from"@) matches Some(from) && from.get("indexed_files"@) == Some(
                JsonView::Integer(index.files.len() as int),
            ) && from.get("indexed_symbols"@) == Some(JsonView::Integer(index.symbols.len() as int))
        }),
{
    map_names();
}

/// The summary names the first two components and counts files and symbols.
pub proof fn a_map_is_summed_up(
    index: IndexView,
    components: Seq<JsonView>,
    first: Seq<char>,
    second: Seq<char>,
)
    ensures
        ({
            let counts = decimal_text(index.files.len()) + " files and "@ + decimal_text(
                index.symbols.len(),
            ) + " symbols."@;
            &&& components.len() == 0 ==> architecture_sentence(index, components)
                == "Indexed project with "@ + counts
            &&& components.len() == 1 && components[0].text_at("name"@) == Some(first)
                ==> architecture_sentence(index, components) == "Indexed project centered on "@
                + first + " with "@ + counts
            &&& components.len() > 1 && components[0].text_at("name"@) == Some(first)
                && components[1].text_at("name"@) == Some(second) ==> architecture_sentence(
                index,
                components,
            ) == "Indexed project centered on "@ + (first + " and "@ + second) + " with "@ + counts
        }),
{
    let top = first_of(components, 2);
    reveal_with_fuel(names_in, 3);
    reveal_with_fuel(joined, 3);
    if components.len() == 0 {
        assert(names_in(top) =~= Seq::empty());
    } else if components.len() == 1 && components[0].text_at("name"@) == Some(first) {
        assert(top.drop_last() =~= Seq::empty());
        assert(names_in(top) =~= seq![first]);
    } else if components.len() > 1 && components[0].text_at("name"@) == Some(first)
        && components[1].text_at("name"@) == Some(second) {
        assert(top.len() == 2);
        assert(top.last() == components[1]);
        assert(top.drop_last().last() == components[0]);
        assert(top.drop_last().drop_last() =~= Seq::empty());
        assert(names_in(top) =~= seq![first, second]);
        assert(seq![first, second].drop_last() =~= seq![first]);
        assert(joined(seq![first, second], " and "@) =~= first + " and "@ + second);
    }
}

/// One index gives its map, and several give a list of theirs; eight components and five hot
/// spots are listed and the summary is given where a request does not say.
pub proof fn every_index_has_its_map(indexes: Seq<IndexView>, input: ArchitectureArgs, i: int)
    requires
        0 <= i < indexes.len(),
    ensures
        ({
            let components = match input.max_components {
                Some(n) => n as int,
                None => 8,
            };
            let hotspots = match input.max_hotspots {
                Some(n) => n as int,
                None => 5,
            };
            let summary = input.include_summary != Some(false);
            let map = architecture_of(indexes[i], components, hotspots, summary);
            let answer = architecture_answer(indexes, input);
            &&& indexes.len() == 1 ==> answer == map
            &&& indexes.len() > 1 ==> (answer.items_at("projects"@) matches Some(maps) && maps.len()
                == indexes.len() && maps[i] == map)
        }),
{
}

} // verus!
