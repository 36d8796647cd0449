//! Display names used by the world inspector.

use crate::debugger::wire::{decimal, decimal_string};
use crate::text::{chars_of, concat, push_char};
use vstd::prelude::*;

verus! {

/// Where the last piece of `s` starts when `s` is split at `::` from left to
/// right, having scanned up to `i` with the current piece starting at `start`.
pub open spec fn piece_start(s: Seq<char>, i: int, start: int) -> int
    decreases s.len() - i,
{
    if i < 0 || i >= s.len() {
        start
    } else if i + 1 < s.len() && s[i] == ':' && s[i + 1] == ':' {
        piece_start(s, i + 2, i + 2)
    } else {
        piece_start(s, i + 1, start)
    }
}

/// The last piece of `s` split at `::`.
pub open spec fn last_piece(s: Seq<char>) -> Seq<char> {
    s.subrange(piece_start(s, 0, 0), s.len() as int)
}

/// `<`, `>` and `,` become `_`; other characters stay.
pub open spec fn underscore_generics(c: char) -> char {
    if c == '<' || c == '>' || c == ',' {
        '_'
    } else {
        c
    }
}

/// The display form of a type name: its last `::` piece, with `<`, `>` and `,` as `_`.
pub open spec fn pretty_name(raw: Seq<char>) -> Seq<char> {
    last_piece(raw).map_values(|c: char| underscore_generics(c))
}

proof fn lemma_piece_start_bounds(s: Seq<char>, i: int, start: int)
    requires
        0 <= start <= s.len(),
        start <= i || i >= s.len(),
        0 <= i,
    ensures
        0 <= piece_start(s, i, start) <= s.len(),
    decreases s.len() - i,
{
    if i >= s.len() {
    } else if i + 1 < s.len() && s[i] == ':' && s[i + 1] == ':' {
        lemma_piece_start_bounds(s, i + 2, i + 2);
    } else {
        lemma_piece_start_bounds(s, i + 1, start);
    }
}

/// The display form of the type name `raw` (as given by `std::any::type_name`):
/// its last `::` piece, with `<`, `>` and `,` as `_`.
pub fn pretty_type_name(raw: &str) -> (pretty: String)
    ensures
        pretty@ == pretty_name(raw@),
{
    let chars = chars_of(raw);
    let n = chars.len();
    let mut i: usize = 0;
    let mut start: usize = 0;
    while i < n
        invariant
            n == chars.len(),
            chars@ == raw@,
            start <= i <= n,
            piece_start(raw@, i as int, start as int) == piece_start(raw@, 0, 0),
        decreases n - i,
    {
        if i + 1 < n && chars[i] == ':' && chars[i + 1] == ':' {
            i = i + 2;
            start = i;
        } else {
            i = i + 1;
        }
    }
    let ghost piece = raw@.subrange(start as int, n as int);
    assert(last_piece(raw@) == piece);
    let mut pretty = String::new();
    let mut j: usize = start;
    while j < n
        invariant
            n == chars.len(),
            chars@ == raw@,
            start <= j <= n,
            piece == raw@.subrange(start as int, n as int),
            pretty@ == piece.subrange(0, j - start).map_values(|c: char| underscore_generics(c)),
        decreases n - j,
    {
        let c = chars[j];
        let shown = if c == '<' || c == '>' || c == ',' {
            '_'
        } else {
            c
        };
        push_char(&mut pretty, shown);
        assert(pretty@ =~= piece.subrange(0, j + 1 - start).map_values(
            |c: char| underscore_generics(c),
        ));
        j = j + 1;
    }
    assert(piece.subrange(0, n - start) =~= piece);
    pretty
}

/// The guessed name of an entity without a `Name`: `Entity`, then its index in
/// parentheses, such as `Entity (8)`.
pub fn guess_entity_name_from_components(index: u32) -> (name: String)
    ensures
        name@ == "Entity ("@ + decimal(index as nat) + ")"@,
{
    let mut name = concat("Entity (", decimal_string(index as u64).as_str());
    name.append(")");
    name
}

/// The guessed name of an entity that has a `Name`: the name, then its index in
/// parentheses, such as `Light (6)`.
pub fn guess_entity_name_with_name(name: &str, index: u32) -> (guess: String)
    ensures
        guess@ == name@ + " ("@ + decimal(index as nat) + ")"@,
{
    let mut guess = concat(name, " (");
    guess.append(decimal_string(index as u64).as_str());
    guess.append(")");
    guess
}

/// The name shown for an entity that does not exist: `Entity <index> (inexistent)`.
pub fn inexistent_entity_name(index: u32) -> (name: String)
    ensures
        name@ == "Entity "@ + decimal(index as nat) + " (inexistent)"@,
{
    let mut name = concat("Entity ", decimal_string(index as u64).as_str());
    name.append(" (inexistent)");
    name
}

/// `s` with every occurrence of `Component` taken out, scanning from the left
/// and never reusing a character of a removed occurrence.
pub open spec fn without_component(s: Seq<char>) -> Seq<char>
    decreases s.len(),
{
    if s.len() == 0 {
        s
    } else if s.len() >= 9 && s.subrange(0, 9) == "Component"@ {
        without_component(s.subrange(9, s.len() as int))
    } else {
        seq![s[0]] + without_component(s.subrange(1, s.len() as int))
    }
}

/// The short name of a component type shown in lists: the last `::` piece of
/// its type name, with every `Component` taken out.
pub fn simple_component_name(raw: &str) -> (name: String)
    ensures
        name@ == without_component(last_piece(raw@)),
{
    let chars = chars_of(raw);
    let n = chars.len();
    let mut i: usize = 0;
    let mut start: usize = 0;
    while i < n
        invariant
            n == chars.len(),
            chars@ == raw@,
            start <= i <= n,
            piece_start(raw@, i as int, start as int) == piece_start(raw@, 0, 0),
        decreases n - i,
    {
        if i + 1 < n && chars[i] == ':' && chars[i + 1] == ':' {
            i = i + 2;
            start = i;
        } else {
            i = i + 1;
        }
    }
    let ghost piece = raw@.subrange(start as int, n as int);
    assert(last_piece(raw@) == piece);
    let mut name = String::new();
    let mut j: usize = start;
    while j < n
        invariant
            n == chars.len(),
            chars@ == raw@,
            start <= j <= n,
            piece == raw@.subrange(start as int, n as int),
            name@ + without_component(raw@.subrange(j as int, n as int)) == without_component(piece),
        decreases n - j,
    {
        let ghost rest = raw@.subrange(j as int, n as int);
        proof {
            reveal_strlit("Component");
        }
        if n - j >= 9 && chars[j] == 'C' && chars[j + 1] == 'o' && chars[j + 2] == 'm'
            && chars[j + 3] == 'p' && chars[j + 4] == 'o' && chars[j + 5] == 'n'
            && chars[j + 6] == 'e' && chars[j + 7] == 'n' && chars[j + 8] == 't' {
            assert(rest.subrange(0, 9) =~= "Component"@);
            assert(rest.subrange(9, rest.len() as int) =~= raw@.subrange(j + 9, n as int));
            j = j + 9;
        } else {
            assert(rest.len() >= 9 ==> rest.subrange(0, 9) != "Component"@) by {
                if rest.len() >= 9 && rest.subrange(0, 9) == "Component"@ {
                    assert(rest.subrange(0, 9)[0] == 'C');
                    assert(rest.subrange(0, 9)[1] == 'o');
                    assert(rest.subrange(0, 9)[2] == 'm');
                    assert(rest.subrange(0, 9)[3] == 'p');
                    assert(rest.subrange(0, 9)[4] == 'o');
                    assert(rest.subrange(0, 9)[5] == 'n');
                    assert(rest.subrange(0, 9)[6] == 'e');
                    assert(rest.subrange(0, 9)[7] == 'n');
                    assert(rest.subrange(0, 9)[8] == 't');
                }
            }
            assert(rest.subrange(1, rest.len() as int) =~= raw@.subrange(j + 1, n as int));
            let ghost before = name@;
            push_char(&mut name, chars[j]);
            assert(name@ + without_component(raw@.subrange(j + 1, n as int)) =~= before + (seq![
                rest[0],
            ] + without_component(rest.subrange(1, rest.len() as int))));
            j = j + 1;
        }
    }
    assert(raw@.subrange(n as int, n as int) =~= Seq::<char>::empty());
    assert(name@ + Seq::<char>::empty() =~= name@);
    name
}

/// How many of the world's archetypes hold resources: those with no entities
/// and at least one component. Each archetype is given as its number of
/// entities and its number of components.
pub fn count_resources(archetypes: &Vec<(usize, usize)>) -> (count: usize)
    ensures
        count == archetypes@.filter(|a: (usize, usize)| a.0 == 0 && a.1 > 0).len(),
{
    let mut count: usize = 0;
    let mut i: usize = 0;
    while i < archetypes.len()
        invariant
            i <= archetypes.len(),
            count == archetypes@.subrange(0, i as int).filter(
                |a: (usize, usize)| a.0 == 0 && a.1 > 0,
            ).len(),
            count <= i,
        decreases archetypes.len() - i,
    {
        let ghost f = |a: (usize, usize)| a.0 == 0 && a.1 > 0;
        proof {
            archetypes@.subrange(0, i as int).lemma_filter_push(archetypes@[i as int], f);
            assert(archetypes@.subrange(0, i as int).push(archetypes@[i as int]) =~= archetypes@.subrange(0, i + 1));
        }
        let (entities, components) = archetypes[i];
        if entities == 0 && components > 0 {
            count = count + 1;
        }
        i = i + 1;
    }
    assert(archetypes@.subrange(0, i as int) =~= archetypes@);
    count
}

/// One line of the world inspector's outline, with the lines nested under it.
#[derive(Debug)]
pub struct OutlineItem {
    pub text: String,
    pub children: Vec<OutlineItem>,
}

/// An entity as the outline lists it: its display name, its number of
/// components, and the short names of its components.
#[derive(Debug)]
pub struct EntityRow {
    pub name: String,
    pub component_count: usize,
    pub components: Vec<String>,
}

/// `o` is a line with text `t` and nothing under it.
pub open spec fn leaf(o: OutlineItem, t: Seq<char>) -> bool {
    &&& o.text@ == t
    &&& o.children@.len() == 0
}

/// The smaller of two counts.
pub open spec fn at_most(n: int, limit: int) -> int {
    if n <= limit {
        n
    } else {
        limit
    }
}

/// How the outline shows an entity: `• <name> (<count> components)`, its first
/// five component names each as `└ <name>`, then how many more there are.
pub open spec fn entity_outline(o: OutlineItem, row: EntityRow) -> bool {
    let n = row.components@.len() as int;
    let shown = at_most(n, 5);
    &&& o.text@ == "• "@ + row.name@ + " ("@ + decimal(row.component_count as nat)
        + " components)"@
    &&& o.children@.len() == shown + if n > 5 {
        1int
    } else {
        0int
    }
    &&& forall|i: int| 0 <= i < shown ==> leaf(#[trigger] o.children@[i], "└ "@ + row.components@[i]@)
    &&& n > 5 ==> leaf(o.children@[5], "└ ... and "@ + decimal((n - 5) as nat) + " more components"@)
}

fn line(text: String) -> (o: OutlineItem)
    ensures
        leaf(o, text@),
{
    OutlineItem { text, children: Vec::new() }
}

fn count_line(before: &str, n: usize, after: &str) -> (o: OutlineItem)
    ensures
        leaf(o, before@ + decimal(n as nat) + after@),
{
    let mut text = concat(before, decimal_string(n as u64).as_str());
    text.append(after);
    line(text)
}

/// The outline line of an entity.
pub fn entity_item(row: &EntityRow) -> (o: OutlineItem)
    ensures
        entity_outline(o, *row),
{
    proof {
        reveal_strlit("• ");
        reveal_strlit(" (");
        reveal_strlit(" components)");
        reveal_strlit("└ ");
    }
    let mut text = concat("• ", row.name.as_str());
    text.append(" (");
    text.append(decimal_string(row.component_count as u64).as_str());
    text.append(" components)");
    let n = row.components.len();
    let shown = if n <= 5 {
        n
    } else {
        5
    };
    let mut children: Vec<OutlineItem> = Vec::new();
    let mut i: usize = 0;
    while i < shown
        invariant
            shown == at_most(n as int, 5),
            n == row.components@.len(),
            i <= shown,
            children@.len() == i,
            forall|j: int| 0 <= j < i ==> leaf(#[trigger] children@[j], "└ "@ + row.components@[j]@),
        decreases shown - i,
    {
        children.push(line(concat("└ ", row.components[i].as_str())));
        i = i + 1;
    }
    if n > 5 {
        children.push(count_line("└ ... and ", n - 5, " more components"));
    }
    OutlineItem { text, children }
}

/// How the outline's entity section reads: a header with the number of
/// entities, a note on the filter, the first fifteen entities, then how many
/// more there are.
pub open spec fn entities_outline(o: OutlineItem, rows: Seq<EntityRow>, entity_count: nat) -> bool {
    let shown = at_most(rows.len() as int, 15);
    &&& o.text@ == "📦 Entities ("@ + decimal(entity_count) + ")"@
    &&& o.children@.len() == 1 + shown + if entity_count > 15 {
        1int
    } else {
        0int
    }
    &&& leaf(o.children@[0], "🔍 Filter: [Simplified - showing first 15]"@)
    &&& forall|i: int| 0 <= i < shown ==> entity_outline(#[trigger] o.children@[1 + i], rows[i])
    &&& entity_count > 15 ==> leaf(
        o.children@[1 + shown],
        "... and "@ + decimal((entity_count - 15) as nat) + " more entities"@,
    )
}

/// The entity section of the outline, from the first entities of the world and
/// their total number.
pub fn entities_section(rows: &Vec<EntityRow>, entity_count: usize) -> (o: OutlineItem)
    ensures
        entities_outline(o, rows@, entity_count as nat),
{
    proof {
        reveal_strlit("📦 Entities (");
        reveal_strlit(")");
        reveal_strlit("🔍 Filter: [Simplified - showing first 15]");
    }
    let mut children: Vec<OutlineItem> = Vec::new();
    children.push(line("🔍 Filter: [Simplified - showing first 15]".to_owned()));
    let shown = if rows.len() <= 15 {
        rows.len()
    } else {
        15
    };
    let mut i: usize = 0;
    while i < shown
        invariant
            shown == at_most(rows@.len() as int, 15),
            i <= shown,
            children@.len() == 1 + i,
            leaf(children@[0], "🔍 Filter: [Simplified - showing first 15]"@),
            forall|j: int| 0 <= j < i ==> entity_outline(#[trigger] children@[1 + j], rows@[j]),
        decreases shown - i,
    {
        let item = entity_item(&rows[i]);
        let ghost before = children@;
        children.push(item);
        assert forall|j: int| 0 <= j < i + 1 implies entity_outline(
            #[trigger] children@[1 + j],
            rows@[j],
        ) by {
            if j < i {
                assert(children@[1 + j] == before[1 + j]);
            }
        }
        i = i + 1;
    }
    if entity_count > 15 {
        children.push(count_line("... and ", entity_count - 15, " more entities"));
    }
    let mut text = concat("📦 Entities (", decimal_string(entity_count as u64).as_str());
    text.append(")");
    OutlineItem { text, children }
}

/// How the outline's resource section reads: a header with the number of
/// resource archetypes; the time, when the world has it, with its elapsed and
/// delta seconds as given; the engine resource assets, when the world has them,
/// with their number; then the other resource archetypes, two fewer than all
/// (none when there are fewer), with two notes.
pub open spec fn resources_outline(
    o: OutlineItem,
    resource_count: nat,
    time: Option<(String, String)>,
    assets: Option<usize>,
) -> bool {
    let t = if time is Some {
        1int
    } else {
        0int
    };
    let a = if assets is Some {
        1int
    } else {
        0int
    };
    let others = if resource_count >= 2 {
        (resource_count - 2) as nat
    } else {
        0nat
    };
    &&& o.text@ == "🎛️ Resources ("@ + decimal(resource_count) + ")"@
    &&& o.children@.len() == t + a + 1
    &&& time matches Some((elapsed, delta)) ==> {
        &&& o.children@[0].text@ == "└ Time"@
        &&& o.children@[0].children@.len() == 2
        &&& leaf(o.children@[0].children@[0], "   elapsed_secs: "@ + elapsed@)
        &&& leaf(o.children@[0].children@[1], "   delta_secs: "@ + delta@)
    }
    &&& assets matches Some(n) ==> {
        &&& o.children@[t].text@ == "└ Assets<GodotResource>"@
        &&& o.children@[t].children@.len() == 2
        &&& leaf(o.children@[t].children@[0], "   len: "@ + decimal(n as nat))
        &&& leaf(o.children@[t].children@[1], "   capacity: "@ + decimal(n as nat))
    }
    &&& o.children@[t + a].text@ == "└ "@ + decimal(others) + " other resource archetypes"@
    &&& o.children@[t + a].children@.len() == 2
    &&& leaf(
        o.children@[t + a].children@[0],
        "   [Resources require reflection for full inspection]"@,
    )
    &&& leaf(
        o.children@[t + a].children@[1],
        "   [Consider implementing Debug display for your resources]"@,
    )
}

/// The resource section of the outline. `time` holds the elapsed and delta
/// seconds as text, `assets` the number of engine resource assets.
pub fn resources_section(
    resource_count: usize,
    time: Option<(String, String)>,
    assets: Option<usize>,
) -> (o: OutlineItem)
    ensures
        resources_outline(o, resource_count as nat, time, assets),
{
    proof {
        reveal_strlit("🎛️ Resources (");
        reveal_strlit(")");
        reveal_strlit("└ Time");
        reveal_strlit("   elapsed_secs: ");
        reveal_strlit("   delta_secs: ");
        reveal_strlit("└ Assets<GodotResource>");
        reveal_strlit("   len: ");
        reveal_strlit("   capacity: ");
        reveal_strlit("└ ");
        reveal_strlit(" other resource archetypes");
        reveal_strlit("   [Resources require reflection for full inspection]");
        reveal_strlit("   [Consider implementing Debug display for your resources]");
    }
    let ghost given_time = time;
    let mut children: Vec<OutlineItem> = Vec::new();
    match time {
        Some((elapsed, delta)) => {
            let mut lines: Vec<OutlineItem> = Vec::new();
            lines.push(line(concat("   elapsed_secs: ", elapsed.as_str())));
            lines.push(line(concat("   delta_secs: ", delta.as_str())));
            children.push(OutlineItem { text: "└ Time".to_owned(), children: lines });
        },
        None => {},
    }
    let ghost t: int = children@.len() as int;
    match assets {
        Some(n) => {
            let mut lines: Vec<OutlineItem> = Vec::new();
            lines.push(count_line("   len: ", n, ""));
            lines.push(count_line("   capacity: ", n, ""));
            proof {
                reveal_strlit("");
                assert("   len: "@ + decimal(n as nat) + ""@ =~= "   len: "@ + decimal(n as nat));
                assert("   capacity: "@ + decimal(n as nat) + ""@ =~= "   capacity: "@ + decimal(
                    n as nat,
                ));
            }
            children.push(OutlineItem { text: "└ Assets<GodotResource>".to_owned(), children: lines });
        },
        None => {},
    }
    let others = if resource_count >= 2 {
        resource_count - 2
    } else {
        0
    };
    let mut notes: Vec<OutlineItem> = Vec::new();
    notes.push(line("   [Resources require reflection for full inspection]".to_owned()));
    notes.push(line("   [Consider implementing Debug display for your resources]".to_owned()));
    let mut other_text = concat("└ ", decimal_string(others as u64).as_str());
    other_text.append(" other resource archetypes");
    children.push(OutlineItem { text: other_text, children: notes });
    let mut text = concat("🎛️ Resources (", decimal_string(resource_count as u64).as_str());
    text.append(")");
    OutlineItem { text, children }
}

/// How the outline's asset section reads: a header with the number of engine
/// resource assets, and under `└ GodotResource (<count>)` the first ten of
/// them as `Asset_<id>` and how many more there are, or a note that none is
/// loaded.
pub open spec fn assets_outline(o: OutlineItem, ids: Seq<String>, total: nat) -> bool {
    let shown = at_most(ids.len() as int, 10);
    &&& o.text@ == "🎨 Assets ("@ + decimal(total) + ")"@
    &&& o.children@.len() == 1
    &&& o.children@[0].text@ == "└ GodotResource ("@ + decimal(total) + ")"@
    &&& if total > 0 {
        &&& o.children@[0].children@.len() == shown + if total > 10 {
            1int
        } else {
            0int
        }
        &&& forall|i: int|
            0 <= i < shown ==> leaf(#[trigger] o.children@[0].children@[i], "   Asset_"@ + ids[i]@)
        &&& total > 10 ==> leaf(
            o.children@[0].children@[shown],
            "   ... and "@ + decimal((total - 10) as nat) + " more assets"@,
        )
    } else {
        &&& o.children@[0].children@.len() == 1
        &&& leaf(o.children@[0].children@[0], "   [No GodotResource assets loaded]"@)
    }
}

/// The asset section of the outline, from the ids of the first assets, as
/// text, and their total number.
pub fn assets_section(ids: &Vec<String>, total: usize) -> (o: OutlineItem)
    ensures
        assets_outline(o, ids@, total as nat),
{
    proof {
        reveal_strlit("🎨 Assets (");
        reveal_strlit(")");
        reveal_strlit("└ GodotResource (");
        reveal_strlit("   Asset_");
        reveal_strlit("   [No GodotResource assets loaded]");
    }
    let mut items: Vec<OutlineItem> = Vec::new();
    if total > 0 {
        let shown = if ids.len() <= 10 {
            ids.len()
        } else {
            10
        };
        let mut i: usize = 0;
        while i < shown
            invariant
                shown == at_most(ids@.len() as int, 10),
                i <= shown,
                items@.len() == i,
                forall|j: int| 0 <= j < i ==> leaf(#[trigger] items@[j], "   Asset_"@ + ids@[j]@),
            decreases shown - i,
        {
            items.push(line(concat("   Asset_", ids[i].as_str())));
            i = i + 1;
        }
        if total > 10 {
            items.push(count_line("   ... and ", total - 10, " more assets"));
        }
    } else {
        items.push(line("   [No GodotResource assets loaded]".to_owned()));
    }
    let mut kind_text = concat("└ GodotResource (", decimal_string(total as u64).as_str());
    kind_text.append(")");
    let mut children: Vec<OutlineItem> = Vec::new();
    children.push(OutlineItem { text: kind_text, children: items });
    let mut text = concat("🎨 Assets (", decimal_string(total as u64).as_str());
    text.append(")");
    OutlineItem { text, children }
}

/// The three sections of the world outline: entities, resources and assets.
/// The asset section counts the engine resource assets, none when the world
/// has no such collection.
pub fn world_outline(
    rows: &Vec<EntityRow>,
    entity_count: usize,
    resource_count: usize,
    time: Option<(String, String)>,
    assets: Option<usize>,
    asset_ids: &Vec<String>,
) -> (sections: Vec<OutlineItem>)
    ensures
        sections@.len() == 3,
        entities_outline(sections@[0], rows@, entity_count as nat),
        resources_outline(sections@[1], resource_count as nat, time, assets),
        assets_outline(
            sections@[2],
            asset_ids@,
            match assets {
                Some(n) => n as nat,
                None => 0nat,
            },
        ),
{
    let total = match assets {
        Some(n) => n,
        None => 0,
    };
    let mut sections: Vec<OutlineItem> = Vec::new();
    sections.push(entities_section(rows, entity_count));
    sections.push(resources_section(resource_count, time, assets));
    sections.push(assets_section(asset_ids, total));
    sections
}

/// How a sampled entity is logged: `<name> (<components>)`.
pub open spec fn sample_text(sample: (String, usize)) -> Seq<char> {
    sample.0@ + " ("@ + decimal(sample.1 as nat) + ")"@
}

/// The sampled entities, separated by `, `.
pub open spec fn joined_samples(samples: Seq<(String, usize)>) -> Seq<char>
    decreases samples.len(),
{
    if samples.len() == 0 {
        Seq::empty()
    } else if samples.len() == 1 {
        sample_text(samples[0])
    } else {
        joined_samples(samples.drop_last()) + ", "@ + sample_text(samples.last())
    }
}

/// The log line listing sampled entities, each with its number of components;
/// nothing when there is no sample.
pub fn sample_line(samples: &Vec<(String, usize)>) -> (text: Option<String>)
    ensures
        text is None <==> samples@.len() == 0,
        text matches Some(t) ==> t@ == "  Sample entities: "@ + joined_samples(samples@),
{
    if samples.len() == 0 {
        return None;
    }
    proof {
        reveal_strlit("  Sample entities: ");
        reveal_strlit(", ");
        reveal_strlit(" (");
        reveal_strlit(")");
    }
    let mut text = "  Sample entities: ".to_owned();
    let mut i: usize = 0;
    while i < samples.len()
        invariant
            i <= samples@.len(),
            text@ == "  Sample entities: "@ + joined_samples(samples@.subrange(0, i as int)),
        decreases samples.len() - i,
    {
        proof {
            reveal_strlit(", ");
            reveal_strlit(" (");
            reveal_strlit(")");
            assert(samples@.subrange(0, i + 1).drop_last() =~= samples@.subrange(0, i as int));
        }
        let ghost before = text@;
        if i > 0 {
            text.append(", ");
        }
        let (name, count) = &samples[i];
        text.append(name.as_str());
        text.append(" (");
        text.append(decimal_string(*count as u64).as_str());
        text.append(")");
        proof {
            let s = samples@.subrange(0, i + 1);
            assert(s.last() == samples@[i as int]);
            if i == 0 {
                assert(samples@.subrange(0, 0) =~= Seq::<(String, usize)>::empty());
                assert(text@ =~= "  Sample entities: "@ + sample_text(samples@[0]));
            } else {
                assert(text@ =~= before + ", "@ + sample_text(samples@[i as int]));
            }
        }
        i = i + 1;
    }
    assert(samples@.subrange(0, samples@.len() as int) =~= samples@);
    Some(text)
}

} // verus!
