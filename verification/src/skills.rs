//! Skills: notes with a summary, kept as files, and how they are searched, shown and stored.

use vstd::prelude::*;
use vstd::string::StringExecFns;

use crate::json::{
    lemma_array_view, or_empty, views, JsonObject, JsonValue, JsonView,
};
use crate::paths::{file_in, file_path, has_extension, is_extension, join_path, joined_path};
use crate::plan::field_or;
use crate::seqs::first_of;
use crate::text::{
    after_prefix, ascii_lower, ascii_lowered, begins_with, contains, drop_leading, drop_trailing,
    first_index, has_text, is_ascii, lemma_ascii_lowered, lemma_first_index, lemma_first_index_is,
    lines, lines_of, lowercase, optional_str, same_text, slice_text, stands_at, strip_prefix, texts,
    to_chars, trim, trimmed, trimmed_start, white_space, without_return,
};
use crate::util::{opt_bool, opt_usize, size_at, size_or, str_or_empty};
use crate::wire::{
    escaped_text, escaping_keeps_ascii, escaping_keeps_plain_words, is_unescaped, json_text, render,
};

verus! {

/// How many skills a search gives where it does not say.
pub const DEFAULT_SKILL_SEARCH_LIMIT: usize = 5;

// ---------------------------------------------------------------------------
// Files
// ---------------------------------------------------------------------------

/// Where skills are kept: the directory that is set, or one in the home directory, or one in
/// the current directory.
pub open spec fn skills_directory(set: Option<Seq<char>>, home: Option<Seq<char>>) -> Seq<char> {
    match set {
        Some(directory) => directory,
        None => match home {
            Some(h) => joined_path(h, ".clab/skills"@),
            None => ".clab/skills"@,
        },
    }
}

/// Where skills are kept.
pub fn skills_dir(set: Option<&str>, home: Option<&str>) -> (directory: String)
    ensures
        directory@ == skills_directory(optional_str(set), optional_str(home)),
{
    match set {
        Some(directory) => directory.to_owned(),
        None => match home {
            Some(h) => join_path(h, ".clab/skills"),
            None => ".clab/skills".to_owned(),
        },
    }
}

/// The file of a skill.
pub fn skill_path(directory: &str, name: &str) -> (path: String)
    ensures
        path@ == file_in(directory@, name@, ".md"@),
{
    file_path(directory, name, ".md")
}

/// The skill that a file name is of, where it is one of a skill.
pub open spec fn skill_named(file: Seq<char>) -> Option<Seq<char>> {
    if has_extension(file, "md"@) {
        Some(file.take(file.len() - 3))
    } else {
        None
    }
}

/// The skill that a file name is of, where it is one of a skill.
pub fn skill_name(file: &str) -> (name: Option<String>)
    ensures
        match name {
            Some(n) => skill_named(file@) == Some(n@),
            None => skill_named(file@) is None,
        },
{
    proof {
        reveal_strlit("md");
    }
    if !is_extension(file, "md") {
        return None;
    }
    let chars = to_chars(file);
    assert(chars@.take(chars@.len() - 3) =~= chars@.subrange(0, chars@.len() - 3));
    Some(slice_text(&chars, 0, chars.len() - 3))
}

/// The summary in the lines of a skill: what follows the first `summary:` at the start of a
/// line.
pub open spec fn summary_on(lines: Seq<Seq<char>>) -> Seq<char>
    decreases lines.len(),
{
    if lines.len() == 0 {
        Seq::empty()
    } else {
        match after_prefix(lines[0], "summary:"@) {
            Some(rest) => trimmed(rest),
            None => summary_on(lines.skip(1)),
        }
    }
}

fn read_summary(text: &str) -> (summary: String)
    ensures
        summary@ == summary_on(lines_of(text@)),
{
    let held = lines(text);
    let ghost all = lines_of(text@);
    let mut i: usize = 0;
    assert(all.skip(0) =~= all);
    while i < held.len()
        invariant
            i <= held@.len(),
            all == texts(held@),
            all == lines_of(text@),
            summary_on(all.skip(i as int)) == summary_on(all),
        decreases held.len() - i,
    {
        assert(all.skip(i as int)[0] == held@[i as int]@);
        if let Some(rest) = strip_prefix(held[i].as_str(), "summary:") {
            return trim(rest.as_str());
        }
        assert(all.skip(i as int).skip(1) =~= all.skip(i + 1));
        i = i + 1;
    }
    String::new()
}

/// A skill from its file.
pub open spec fn skill_json(name: Seq<char>, text: Seq<char>) -> JsonView {
    JsonView::Object(
        map![
            "name"@ => JsonView::Text(name),
            "summary"@ => JsonView::Text(summary_on(lines_of(text))),
            "tags"@ => JsonView::Array(Seq::empty()),
            "version"@ => JsonView::Integer(1),
            "body"@ => JsonView::Text(text),
        ],
    )
}

/// A skill from its file.
pub fn read_skill(name: &str, text: &str) -> (skill: JsonValue)
    ensures
        skill@ == skill_json(name@, text@),
{
    broadcast use lemma_array_view;

    let none: Vec<JsonValue> = Vec::new();
    assert(views(none@) =~= Seq::empty());
    JsonObject::new().put("name", JsonValue::text(name)).put(
        "summary",
        JsonValue::Text(read_summary(text)),
    ).put("tags", JsonValue::Array(none)).put("version", JsonValue::Uint(1)).put(
        "body",
        JsonValue::text(text),
    ).value()
}

// ---------------------------------------------------------------------------
// Search
// ---------------------------------------------------------------------------

/// What a search looks through of a skill: name, summary and body, each as JSON.
pub open spec fn skill_text_of(skill: JsonView) -> Seq<char> {
    json_text(field_or(skill, "name"@, JsonView::Null)) + " "@ + json_text(
        field_or(skill, "summary"@, JsonView::Null),
    ) + " "@ + json_text(field_or(skill, "body"@, JsonView::Null))
}

fn field_copy(value: &JsonValue, key: &str) -> (field: JsonValue)
    ensures
        field@ == field_or(value@, key@, JsonView::Null),
{
    match value.get(key) {
        Some(v) => v.clone(),
        None => JsonValue::Null,
    }
}

fn skill_haystack(skill: &JsonValue) -> (text: String)
    ensures
        text@ == lowercase(skill_text_of(skill@)),
{
    let mut text = render(&field_copy(skill, "name"));
    text.append(" ");
    text.append(render(&field_copy(skill, "summary")).as_str());
    text.append(" ");
    text.append(render(&field_copy(skill, "body")).as_str());
    text.as_str().to_lowercase()
}

/// A skill that was found.
pub open spec fn skill_hit(skill: JsonView, query: Seq<char>) -> JsonView {
    JsonView::Object(
        map![
            "name"@ => field_or(skill, "name"@, JsonView::Null),
            "summary"@ => field_or(skill, "summary"@, JsonView::Null),
            "tags"@ => field_or(skill, "tags"@, JsonView::Null),
            "version"@ => field_or(skill, "version"@, JsonView::Null),
            "score"@ => JsonView::Integer(
                if query.len() == 0 {
                    1
                } else {
                    3
                },
            ),
            "source"@ => JsonView::Text("skill"@),
        ],
    )
}

/// The skills whose text holds a query, in their order; an empty query stands in every text.
pub open spec fn skill_hits(
    skills: Seq<JsonView>,
    haystacks: Seq<Seq<char>>,
    query: Seq<char>,
) -> Seq<JsonView>
    decreases skills.len(),
{
    if skills.len() == 0 {
        Seq::empty()
    } else {
        let rest = skill_hits(skills.skip(1), haystacks.skip(1), query);
        if query.len() == 0 || has_text(haystacks[0], query) {
            seq![skill_hit(skills[0], query)] + rest
        } else {
            rest
        }
    }
}

/// The skills whose text holds a query, at most `limit` of them. All have one score, so that
/// they stay in their order.
pub fn select_skills(
    skills: &Vec<JsonValue>,
    haystacks: &Vec<String>,
    query: &str,
    limit: usize,
) -> (found: Vec<JsonValue>)
    requires
        haystacks@.len() == skills@.len(),
    ensures
        views(found@) == first_of(
            skill_hits(views(skills@), texts(haystacks@), query@),
            limit as int,
        ),
{
    let ghost held = views(skills@);
    let ghost words = texts(haystacks@);
    let ghost all = skill_hits(held, words, query@);
    let score: u64 = if query.is_empty() {
        1
    } else {
        3
    };
    let mut found: Vec<JsonValue> = Vec::new();
    let mut i: usize = 0;
    assert(held.skip(0) =~= held);
    assert(words.skip(0) =~= words);
    assert(views(found@) + all =~= all);
    while i < skills.len()
        invariant
            i <= skills@.len(),
            haystacks@.len() == skills@.len(),
            held == views(skills@),
            words == texts(haystacks@),
            score == if query@.len() == 0 { 1u64 } else { 3u64 },
            all == views(found@) + skill_hits(
                held.skip(i as int),
                words.skip(i as int),
                query@,
            ),
        decreases skills.len() - i,
    {
        let skill = &skills[i];
        let ghost done = views(found@);
        let ghost rest = skill_hits(held.skip(i + 1), words.skip(i + 1), query@);
        assert(held.skip(i as int)[0] == skill@);
        assert(words.skip(i as int)[0] == haystacks@[i as int]@);
        assert(held.skip(i as int).skip(1) =~= held.skip(i + 1));
        assert(words.skip(i as int).skip(1) =~= words.skip(i + 1));
        if query.is_empty() || contains(haystacks[i].as_str(), query) {
            let hit = JsonObject::new().put("name", field_copy(skill, "name")).put(
                "summary",
                field_copy(skill, "summary"),
            ).put("tags", field_copy(skill, "tags")).put(
                "version",
                field_copy(skill, "version"),
            ).put("score", JsonValue::Uint(score)).put("source", JsonValue::text("skill")).value();
            assert(hit@ == skill_hit(skill@, query@));
            found.push(hit);
            assert(views(found@) =~= done.push(hit@));
            assert(done + (seq![hit@] + rest) =~= views(found@) + rest);
        }
        i = i + 1;
    }
    assert(views(found@) + Seq::<JsonView>::empty() =~= views(found@));
    assert(views(found@).len() == found@.len());
    found.truncate(limit);
    assert(views(found@) =~= first_of(all, limit as int));
    found
}

/// What a search looks through of skills, in lowercase.
pub open spec fn haystacks_of(skills: Seq<JsonView>) -> Seq<Seq<char>> {
    skills.map_values(|s: JsonView| lowercase(skill_text_of(s)))
}

/// The skills that a search finds, where case does not count.
pub fn skill_search(args: &JsonValue, skills: &Vec<JsonValue>) -> (found: JsonValue)
    ensures
        found@ == JsonView::Array(
            first_of(
                skill_hits(
                    views(skills@),
                    haystacks_of(views(skills@)),
                    lowercase(or_empty(args@.text_at("query"@))),
                ),
                size_or(args@, "limit"@, DEFAULT_SKILL_SEARCH_LIMIT) as int,
            ),
        ),
{
    broadcast use lemma_array_view;

    let query = str_or_empty(args, "query").as_str().to_lowercase();
    let limit: usize = match opt_usize(args, "limit") {
        Some(n) => n,
        None => DEFAULT_SKILL_SEARCH_LIMIT,
    };
    let mut haystacks: Vec<String> = Vec::new();
    let mut i: usize = 0;
    while i < skills.len()
        invariant
            i <= skills@.len(),
            haystacks@.len() == i,
            forall|k: int|
                0 <= k < i ==> (#[trigger] haystacks@[k])@ == lowercase(
                    skill_text_of(skills@[k]@),
                ),
        decreases skills.len() - i,
    {
        haystacks.push(skill_haystack(&skills[i]));
        i = i + 1;
    }
    assert(texts(haystacks@) =~= haystacks_of(views(skills@)));
    JsonValue::Array(select_skills(skills, &haystacks, query.as_str(), limit))
}

/// A search gives no more skills than its limit.
pub proof fn skill_search_is_bounded(
    skills: Seq<JsonView>,
    haystacks: Seq<Seq<char>>,
    query: Seq<char>,
    limit: nat,
)
    ensures
        first_of(skill_hits(skills, haystacks, query), limit as int).len() <= limit,
{
}

proof fn lemma_skill_is_hit(
    skills: Seq<JsonView>,
    haystacks: Seq<Seq<char>>,
    query: Seq<char>,
    k: int,
)
    requires
        0 <= k < skills.len(),
        haystacks.len() == skills.len(),
        has_text(haystacks[k], query),
    ensures
        skill_hits(skills, haystacks, query).contains(skill_hit(skills[k], query)),
    decreases skills.len(),
{
    let hits = skill_hits(skills, haystacks, query);
    if k == 0 {
        assert(hits[0] == skill_hit(skills[0], query));
    } else {
        let rest = skill_hits(skills.skip(1), haystacks.skip(1), query);
        lemma_skill_is_hit(skills.skip(1), haystacks.skip(1), query, k - 1);
        let j = rest.index_of(skill_hit(skills[k], query));
        assert(rest[j] == skill_hit(skills[k], query));
        assert(hits[j + hits.len() - rest.len()] == rest[j]);
    }
}

proof fn lemma_hits_are_of_skills(
    skills: Seq<JsonView>,
    haystacks: Seq<Seq<char>>,
    query: Seq<char>,
)
    ensures
        skill_hits(skills, haystacks, query).len() <= skills.len(),
    decreases skills.len(),
{
    if skills.len() > 0 {
        lemma_hits_are_of_skills(skills.skip(1), haystacks.skip(1), query);
    }
}

/// The summary in ASCII lines is ASCII.
proof fn lemma_summary_is_ascii(lines: Seq<Seq<char>>)
    requires
        forall|k: int| 0 <= k < lines.len() ==> is_ascii(#[trigger] lines[k]),
    ensures
        is_ascii(summary_on(lines)),
    decreases lines.len(),
{
    if lines.len() > 0 {
        assert(is_ascii(lines[0]));
        match after_prefix(lines[0], "summary:"@) {
            Some(rest) => {
                assert(is_ascii(rest));
                lemma_drops_are_ascii(rest, |c: char| white_space(c));
                lemma_drops_are_ascii(trimmed_start(rest), |c: char| white_space(c));
            },
            None => {
                lemma_summary_is_ascii(lines.skip(1));
            },
        }
    }
}

proof fn lemma_drops_are_ascii(text: Seq<char>, kind: spec_fn(char) -> bool)
    requires
        is_ascii(text),
    ensures
        is_ascii(drop_leading(text, kind)),
        is_ascii(drop_trailing(text, kind)),
    decreases text.len(),
{
    if text.len() > 0 {
        lemma_drops_are_ascii(text.skip(1), kind);
        lemma_drops_are_ascii(text.drop_last(), kind);
    }
}

proof fn lemma_lines_are_ascii(text: Seq<char>)
    requires
        is_ascii(text),
    ensures
        forall|k: int| 0 <= k < lines_of(text).len() ==> is_ascii(#[trigger] lines_of(text)[k]),
    decreases text.len(),
{
    if text.len() > 0 {
        lemma_first_index(text, '\n');
        let end = first_index(text, '\n');
        if end < text.len() {
            let rest = text.skip(end + 1);
            lemma_lines_are_ascii(rest);
            assert forall|k: int| 0 <= k < lines_of(text).len() implies is_ascii(
                #[trigger] lines_of(text)[k],
            ) by {
                if k > 0 {
                    assert(lines_of(text)[k] == lines_of(rest)[k - 1]);
                }
            }
        }
    }
}

proof fn lemma_has_text_between(
    front: Seq<char>,
    text: Seq<char>,
    back: Seq<char>,
    pattern: Seq<char>,
)
    requires
        has_text(text, pattern),
    ensures
        has_text(front + text + back, pattern),
{
    let at = choose|at: int| stands_at(text, pattern, at);
    let whole = front + text + back;
    let from = front.len() + at;
    assert(whole.subrange(from, from + pattern.len()) =~= text.subrange(at, at + pattern.len()));
    assert(stands_at(whole, pattern, from));
}

/// The texts that a search looks through of a skill from its file.
proof fn lemma_skill_text(name: Seq<char>, text: Seq<char>)
    ensures
        skill_text_of(skill_json(name, text)) == json_text(JsonView::Text(name)) + " "@ + json_text(
            JsonView::Text(summary_on(lines_of(text))),
        ) + " "@ + json_text(JsonView::Text(text)),
{
    reveal_strlit("name");
    reveal_strlit("summary");
    reveal_strlit("tags");
    reveal_strlit("version");
    reveal_strlit("body");
    assert("tags"@[0] == 't' && "name"@[0] == 'n' && "body"@[0] == 'b');
    assert("summary"@[0] == 's' && "version"@[0] == 'v');
}

proof fn lemma_lowered_joined(front: Seq<char>, back: Seq<char>)
    ensures
        ascii_lowered(front + back) == ascii_lowered(front) + ascii_lowered(back),
        is_ascii(front) && is_ascii(back) ==> is_ascii(front + back),
{
    assert(ascii_lowered(front + back) =~= ascii_lowered(front) + ascii_lowered(back));
}

/// A word of an ASCII text stands in what a search looks through of it, whatever its case.
proof fn lemma_word_is_written(text: Seq<char>, word: Seq<char>)
    requires
        is_ascii(text),
    ensures
        is_ascii(json_text(JsonView::Text(text))),
        is_unescaped(word) && has_text(ascii_lowered(text), word) ==> has_text(
            ascii_lowered(json_text(JsonView::Text(text))),
            word,
        ),
{
    let (open, close) = (seq!['"'], seq!['"']);
    escaping_keeps_ascii(text);
    lemma_lowered_joined(open, escaped_text(text));
    lemma_lowered_joined(open + escaped_text(text), close);
    if is_unescaped(word) && has_text(ascii_lowered(text), word) {
        escaping_keeps_plain_words(ascii_lowered(text), word);
        lemma_has_text_between(
            ascii_lowered(open),
            escaped_text(ascii_lowered(text)),
            ascii_lowered(close),
            word,
        );
    }
}

/// A skill whose name or file holds a query, where case does not count, is found by it: for
/// ASCII texts, and for queries without quotes, backslashes and control characters, which are
/// written otherwise in what is searched.
pub proof fn a_skill_is_found_by_its_words(
    skills: Seq<JsonView>,
    k: int,
    name: Seq<char>,
    text: Seq<char>,
    query: Seq<char>,
    limit: nat,
)
    requires
        0 <= k < skills.len(),
        skills[k] == skill_json(name, text),
        is_ascii(name),
        is_ascii(text),
        is_ascii(query),
        is_unescaped(query),
        has_text(ascii_lowered(name), ascii_lowered(query)) || has_text(
            ascii_lowered(text),
            ascii_lowered(query),
        ),
    ensures
        ({
            let hits = skill_hits(skills, haystacks_of(skills), lowercase(query));
            let hit = skill_hit(skill_json(name, text), lowercase(query));
            &&& hits.contains(hit)
            &&& skills.len() <= limit ==> first_of(hits, limit as int).contains(hit)
        }),
{
    let word = ascii_lowered(query);
    let summary = summary_on(lines_of(text));
    let (a, b, c) = (
        json_text(JsonView::Text(name)),
        json_text(JsonView::Text(summary)),
        json_text(JsonView::Text(text)),
    );
    lemma_ascii_lowered(query);
    assert(is_unescaped(word)) by {
        assert forall|i: int| 0 <= i < word.len() implies #[trigger] word[i] > '\u{1f}' && word[i]
            != '"' && word[i] != '\\' by {
            assert(query[i] > '\u{1f}');
            assert(word[i] == ascii_lower(query[i]));
        }
    }
    lemma_lines_are_ascii(text);
    lemma_summary_is_ascii(lines_of(text));
    lemma_word_is_written(name, word);
    lemma_word_is_written(summary, word);
    lemma_word_is_written(text, word);
    lemma_skill_text(name, text);
    reveal_strlit(" ");
    let space = " "@;
    lemma_lowered_joined(a, space);
    lemma_lowered_joined(a + space, b);
    lemma_lowered_joined(a + space + b, space);
    lemma_lowered_joined(a + space + b + space, c);
    let whole = skill_text_of(skill_json(name, text));
    lemma_ascii_lowered(whole);
    let (x, y, z, gap) = (
        ascii_lowered(a),
        ascii_lowered(b),
        ascii_lowered(c),
        ascii_lowered(space),
    );
    assert(ascii_lowered(whole) == x + gap + y + gap + z);
    if has_text(ascii_lowered(name), word) {
        lemma_has_text_between(Seq::empty(), x, gap + y + gap + z, word);
        assert(Seq::empty() + x + (gap + y + gap + z) =~= ascii_lowered(whole));
    } else {
        lemma_has_text_between(x + gap + y + gap, z, Seq::empty(), word);
        assert(x + gap + y + gap + z + Seq::empty() =~= ascii_lowered(whole));
    }
    lemma_skill_is_hit(skills, haystacks_of(skills), word, k);
    lemma_hits_are_of_skills(skills, haystacks_of(skills), word);
}

/// A skill that was stored is found by what its body or its summary holds.
pub proof fn a_stored_skill_is_found_by_its_words(
    skills: Seq<JsonView>,
    k: int,
    name: Seq<char>,
    summary: Seq<char>,
    body: Seq<char>,
    query: Seq<char>,
)
    requires
        0 <= k < skills.len(),
        skills[k] == skill_json(name, skill_file(summary, body)),
        is_ascii(name),
        is_ascii(summary),
        is_ascii(body),
        is_ascii(query),
        is_unescaped(query),
        has_text(ascii_lowered(summary), ascii_lowered(query)) || has_text(
            ascii_lowered(body),
            ascii_lowered(query),
        ),
    ensures
        skill_hits(skills, haystacks_of(skills), lowercase(query)).contains(
            skill_hit(skills[k], lowercase(query)),
        ),
{
    reveal_strlit("---\nsummary: ");
    reveal_strlit("\nversion: 1\n---\n\n");
    reveal_strlit("\n");
    let (first, second, last) = ("---\nsummary: "@, "\nversion: 1\n---\n\n"@, "\n"@);
    assert(is_ascii(first) && is_ascii(second) && is_ascii(last));
    let text = skill_file(summary, body);
    lemma_lowered_joined(first, summary);
    lemma_lowered_joined(first + summary, second);
    lemma_lowered_joined(first + summary + second, body);
    lemma_lowered_joined(first + summary + second + body, last);
    let word = ascii_lowered(query);
    let (s, b) = (ascii_lowered(summary), ascii_lowered(body));
    let (x, y, z) = (ascii_lowered(first), ascii_lowered(second), ascii_lowered(last));
    assert(ascii_lowered(text) == x + s + y + b + z);
    if has_text(s, word) {
        lemma_has_text_between(x, s, y + b + z, word);
        assert(x + s + (y + b + z) =~= ascii_lowered(text));
    } else {
        lemma_has_text_between(x + s + y, b, z, word);
    }
    a_skill_is_found_by_its_words(skills, k, name, text, query, 0);
}

// ---------------------------------------------------------------------------
// One skill
// ---------------------------------------------------------------------------

/// The first characters of a text.
pub fn truncate_chars(text: &str, max_chars: usize) -> (short: String)
    ensures
        short@ == first_of(text@, max_chars as int),
{
    let chars = to_chars(text);
    if chars.len() <= max_chars {
        text.to_owned()
    } else {
        assert(chars@.subrange(0, max_chars as int) =~= chars@.take(max_chars as int));
        slice_text(&chars, 0, max_chars)
    }
}

/// A skill as it is shown: without its body, or with a shortened body and whether that was
/// shortened, or as it is.
pub open spec fn compacted(
    skill: JsonView,
    summary_only: bool,
    max_chars: Option<usize>,
) -> JsonView {
    if skill !is Object {
        skill
    } else if summary_only {
        skill.without("body"@)
    } else {
        match (max_chars, skill.text_at("body"@)) {
            (Some(max), Some(body)) => skill.with(
                "body"@,
                JsonView::Text(first_of(body, max as int)),
            ).with("truncated"@, JsonView::Bool(body.len() > max)),
            _ => skill,
        }
    }
}

/// A skill as it is shown.
pub fn compact_skill(skill: JsonValue, summary_only: bool, max_chars: Option<usize>) -> (shown:
    JsonValue)
    ensures
        shown@ == compacted(skill@, summary_only, max_chars),
{
    if summary_only {
        return skill.without("body");
    }
    let mut shorter: Option<(String, bool)> = None;
    if let Some(max) = max_chars {
        if let Some(found) = skill.get("body") {
            if let Some(body) = found.as_str() {
                shorter = Some((truncate_chars(body, max), to_chars(body).len() > max));
            }
        }
    }
    match shorter {
        Some((body, cut)) => skill.with("body", JsonValue::Text(body)).with(
            "truncated",
            JsonValue::Bool(cut),
        ),
        None => skill,
    }
}

/// A shortened text is the start of the text, no longer than asked for, and shortening it to
/// the same length again leaves it as it is.
pub proof fn truncation_is_stable(text: Seq<char>, max_chars: nat)
    ensures
        first_of(text, max_chars as int).is_prefix_of(text),
        first_of(text, max_chars as int).len() <= max_chars,
        first_of(first_of(text, max_chars as int), max_chars as int) == first_of(
            text,
            max_chars as int,
        ),
{
}

/// The first skill of a name, as it is shown, or an error.
pub open spec fn skill_answer(
    skills: Seq<JsonView>,
    name: Seq<char>,
    summary_only: bool,
    max_chars: Option<usize>,
) -> JsonView
    decreases skills.len(),
{
    if skills.len() == 0 {
        JsonView::Object(map!["error"@ => JsonView::Text("Skill not found: "@ + name)])
    } else if skills[0].text_at("name"@) == Some(name) {
        compacted(skills[0], summary_only, max_chars)
    } else {
        skill_answer(skills.skip(1), name, summary_only, max_chars)
    }
}

fn is_skill(skill: &JsonValue, name: &str) -> (answer: bool)
    ensures
        answer == (skill@.text_at("name"@) == Some(name@)),
{
    match skill.get("name") {
        Some(v) => match v.as_str() {
            Some(held) => same_text(held, name),
            None => false,
        },
        None => false,
    }
}

/// The skill that a request names, as it is to be shown, or an error.
pub fn skill_get(args: &JsonValue, skills: &Vec<JsonValue>) -> (skill: JsonValue)
    ensures
        skill@ == skill_answer(
            views(skills@),
            or_empty(args@.text_at("name"@)),
            args@.bool_at("summary_only"@) == Some(true),
            size_at(args@, "max_chars"@),
        ),
{
    let name = str_or_empty(args, "name");
    let summary_only = match opt_bool(args, "summary_only") {
        Some(b) => b,
        None => false,
    };
    let max_chars: Option<usize> = opt_usize(args, "max_chars");
    let ghost held = views(skills@);
    let mut i: usize = 0;
    assert(held.skip(0) =~= held);
    while i < skills.len()
        invariant
            i <= skills@.len(),
            held == views(skills@),
            name@ == or_empty(args@.text_at("name"@)),
            summary_only == (args@.bool_at("summary_only"@) == Some(true)),
            max_chars == size_at(args@, "max_chars"@),
            skill_answer(held.skip(i as int), name@, summary_only, max_chars) == skill_answer(
                held,
                name@,
                summary_only,
                max_chars,
            ),
        decreases skills.len() - i,
    {
        assert(held.skip(i as int)[0] == skills@[i as int]@);
        if is_skill(&skills[i], name.as_str()) {
            return compact_skill(skills[i].clone(), summary_only, max_chars);
        }
        assert(held.skip(i as int).skip(1) =~= held.skip(i + 1));
        i = i + 1;
    }
    let mut message = "Skill not found: ".to_owned();
    message.append(name.as_str());
    JsonObject::new().put("error", JsonValue::Text(message)).value()
}

// ---------------------------------------------------------------------------
// Storing
// ---------------------------------------------------------------------------

/// The file text of a skill.
pub open spec fn skill_file(summary: Seq<char>, body: Seq<char>) -> Seq<char> {
    "---\nsummary: "@ + summary + "\nversion: 1\n---\n\n"@ + body + "\n"@
}

/// What is written where to store a skill, and the reply to that.
pub struct SkillWrite {
    pub path: String,
    pub text: String,
    pub reply: JsonValue,
}

/// What is written where to store a skill in a directory, and the reply to that.
pub fn skill_upsert(directory: &str, args: &JsonValue) -> (write: SkillWrite)
    ensures
        write.path@ == file_in(directory@, or_empty(args@.text_at("name"@)), ".md"@),
        write.text@ == skill_file(
            match args@.get_either("summary"@, "description"@) {
                Some(v) => or_empty(v.as_text()),
                None => Seq::empty(),
            },
            or_empty(args@.text_at("body"@)),
        ),
        write.reply@ == JsonView::Object(
            map![
                "name"@ => JsonView::Text(or_empty(args@.text_at("name"@))),
                "version"@ => JsonView::Integer(1),
                "created"@ => JsonView::Bool(true),
            ],
        ),
{
    let name = str_or_empty(args, "name");
    let summary = match args.get_either("summary", "description") {
        Some(v) => match v.as_str() {
            Some(text) => text.to_owned(),
            None => String::new(),
        },
        None => String::new(),
    };
    let body = str_or_empty(args, "body");
    let mut text = "---\nsummary: ".to_owned();
    text.append(summary.as_str());
    text.append("\nversion: 1\n---\n\n");
    text.append(body.as_str());
    text.append("\n");
    let reply = JsonObject::new().put("name", JsonValue::text(name.as_str())).put(
        "version",
        JsonValue::Uint(1),
    ).put("created", JsonValue::Bool(true)).value();
    SkillWrite { path: skill_path(directory, name.as_str()), text, reply }
}

/// The reply to a request to delete a skill, from whether its file was there.
pub fn skill_delete(args: &JsonValue, existed: bool) -> (reply: JsonValue)
    ensures
        reply@ == JsonView::Object(
            map![
                "name"@ => JsonView::Text(or_empty(args@.text_at("name"@))),
                "deleted"@ => JsonView::Bool(existed),
            ],
        ),
{
    JsonObject::new().put("name", JsonValue::Text(str_or_empty(args, "name"))).put(
        "deleted",
        JsonValue::Bool(existed),
    ).value()
}

proof fn lemma_drop_leading_is(text: Seq<char>, kind: spec_fn(char) -> bool, n: int)
    requires
        0 <= n <= text.len(),
        forall|k: int| 0 <= k < n ==> kind(#[trigger] text[k]),
    ensures
        drop_leading(text, kind) == drop_leading(text.skip(n), kind),
    decreases n,
{
    if n > 0 {
        let rest = text.skip(1);
        assert forall|k: int| 0 <= k < n - 1 implies kind(#[trigger] rest[k]) by {
            assert(rest[k] == text[k + 1]);
        }
        lemma_drop_leading_is(rest, kind, n - 1);
        assert(rest.skip(n - 1) =~= text.skip(n));
    } else {
        assert(text.skip(0) =~= text);
    }
}

/// A character of the kind at the end goes with the rest, wherever the text is cut in front.
proof fn lemma_drop_last(text: Seq<char>, last: char, kind: spec_fn(char) -> bool)
    requires
        kind(last),
    ensures
        drop_trailing(drop_leading(text.push(last), kind), kind) == drop_trailing(
            drop_leading(text, kind),
            kind,
        ),
    decreases text.len(),
{
    let longer = text.push(last);
    if text.len() == 0 {
        assert(longer.skip(1) =~= text);
    } else if kind(text[0]) {
        assert(longer.skip(1) =~= text.skip(1).push(last));
        lemma_drop_last(text.skip(1), last, kind);
    } else {
        assert(longer[0] == text[0]);
        assert(longer.last() == last);
        assert(longer.drop_last() =~= text);
    }
}

/// The first line of a text with a line end, and what the other lines are.
proof fn lemma_first_line(line: Seq<char>, rest: Seq<char>)
    requires
        !line.contains('\n'),
    ensures
        lines_of(line + "\n"@ + rest) == seq![without_return(line)] + lines_of(rest),
{
    reveal_strlit("\n");
    let text = line + "\n"@ + rest;
    let at = line.len() as int;
    assert(text[at] == '\n');
    assert forall|k: int| 0 <= k < at implies text[k] != '\n' by {
        assert(text[k] == line[k]);
        assert(line.contains(line[k]));
    }
    lemma_first_index_is(text, '\n', at);
    assert(text.take(at) =~= line);
    assert(text.skip(at + 1) =~= rest);
}

/// A skill that was stored is read with its summary, without white space at its ends, where
/// that stands on one line.
pub proof fn a_stored_skill_keeps_its_summary(summary: Seq<char>, body: Seq<char>)
    requires
        !summary.contains('\n'),
    ensures
        summary_on(lines_of(skill_file(summary, body))) == trimmed(summary),
{
    reveal_strlit("---\nsummary: ");
    reveal_strlit("\nversion: 1\n---\n\n");
    reveal_strlit("\n");
    reveal_strlit("---");
    reveal_strlit("summary:");
    let marker = "---"@;
    let line = "summary:"@ + (seq![' '] + summary);
    let tail = "\nversion: 1\n---\n\n"@.skip(1) + body + "\n"@;
    let text = skill_file(summary, body);
    assert(text =~= marker + "\n"@ + (line + "\n"@ + tail));
    assert(!marker.contains('\n'));
    lemma_first_line(marker, line + "\n"@ + tail);
    assert(!line.contains('\n')) by {
        if line.contains('\n') {
            let k = choose|k: int| 0 <= k < line.len() && line[k] == '\n';
            if k >= 9 {
                assert(summary[k - 9] == '\n');
            }
        }
    }
    lemma_first_line(line, tail);
    let lines = lines_of(text);
    let shown = without_return(line);
    assert(without_return(marker) == marker);
    assert(lines[0] == marker);
    assert(lines.skip(1)[0] == shown);
    assert(after_prefix(marker, "summary:"@) is None);
    let kind = |c: char| white_space(c);
    let spaced = seq![' '] + summary;
    assert(begins_with(line, "summary:"@)) by {
        assert(line.subrange(0, 8) =~= "summary:"@);
    }
    assert(line.skip(8) =~= spaced);
    lemma_drop_leading_is(spaced, kind, 1);
    assert(spaced.skip(1) =~= summary);
    assert(trimmed(spaced) == trimmed(summary));
    if shown != line {
        let cut = spaced.drop_last();
        assert(spaced =~= cut.push('\r'));
        lemma_drop_last(cut, '\r', kind);
        assert(shown =~= "summary:"@ + cut);
        assert(shown.subrange(0, 8) =~= "summary:"@);
        assert(shown.skip(8) =~= cut);
        assert(trimmed(cut) == trimmed(spaced));
    }
    assert(after_prefix(shown, "summary:"@) == Some(shown.skip(8)));
    assert(summary_on(lines.skip(1)) == trimmed(shown.skip(8)));
}

/// The file of a skill names the skill.
pub proof fn a_stored_skill_keeps_its_name(name: Seq<char>)
    requires
        name.len() > 0,
    ensures
        skill_named(name + ".md"@) == Some(name),
{
    reveal_strlit(".md");
    reveal_strlit("md");
    let file = name + ".md"@;
    assert(file.subrange(file.len() - 3, file.len() as int) =~= seq!['.'] + "md"@);
    assert(file.take(file.len() - 3) =~= name);
}

/// A skill that is there can be got by its name, whole and as its file holds it.
pub proof fn a_stored_skill_is_found(
    earlier: Seq<JsonView>,
    name: Seq<char>,
    text: Seq<char>,
    later: Seq<JsonView>,
)
    requires
        forall|k: int|
            0 <= k < earlier.len() ==> (#[trigger] earlier[k]).text_at("name"@) != Some(name),
    ensures
        skill_answer(earlier + seq![skill_json(name, text)] + later, name, false, None)
            == skill_json(name, text),
    decreases earlier.len(),
{
    let all = earlier + seq![skill_json(name, text)] + later;
    if earlier.len() == 0 {
        assert(all[0] == skill_json(name, text));
        reveal_strlit("name");
        reveal_strlit("summary");
        reveal_strlit("tags");
        reveal_strlit("version");
        reveal_strlit("body");
        assert("name"@.len() == 4);
        assert("summary"@.len() == 7);
        assert("tags"@[0] != "name"@[0]);
        assert("version"@.len() == 7);
        assert("body"@[0] != "name"@[0]);
    } else {
        assert(all[0] == earlier[0]);
        let rest = earlier.skip(1);
        assert forall|k: int| 0 <= k < rest.len() implies (#[trigger] rest[k]).text_at("name"@)
            != Some(name) by {
            assert(rest[k] == earlier[k + 1]);
        }
        a_stored_skill_is_found(rest, name, text, later);
        assert(all.skip(1) =~= rest + seq![skill_json(name, text)] + later);
    }
}

} // verus!
