//! Pack manifests and the event map merged from them.
use vstd::prelude::*;
use crate::category::{lookup, CategoryRule, CategoryTable, Event};
use crate::paths::{basename, file_name};

verus! {

/// One category of a pack manifest: its upstream identifier and the sound
/// files listed under it, in manifest order.
pub struct ManifestCategory {
    pub id: String,
    pub files: Vec<String>,
}

/// A pack manifest: its categories in manifest order.
pub struct PackManifest {
    pub categories: Vec<ManifestCategory>,
}

/// A pack name together with the manifest fetched for it.
pub struct FetchedPack {
    pub name: String,
    pub manifest: PackManifest,
}

/// One event and the sound references configured for it.
pub struct EventEntry {
    pub event: String,
    pub sounds: Vec<String>,
}

/// Event names and their sound references, qualified as `<pack>/<file>`.
pub struct EventMap {
    pub entries: Vec<EventEntry>,
}

/// The characters of each string.
pub open spec fn texts(v: Seq<String>) -> Seq<Seq<char>> {
    v.map_values(|s: String| s@)
}

/// The map that a sequence of entries describes; a later entry for a name
/// replaces an earlier one.
pub open spec fn entries_map(entries: Seq<EventEntry>) -> Map<Seq<char>, Seq<Seq<char>>>
    decreases entries.len(),
{
    if entries.len() == 0 {
        Map::empty()
    } else {
        entries_map(entries.drop_last()).insert(entries.last().event@, texts(entries.last().sounds@))
    }
}

impl View for EventMap {
    type V = Map<Seq<char>, Seq<Seq<char>>>;

    open spec fn view(&self) -> Self::V {
        entries_map(self.entries@)
    }
}

/// The reference `<pack>/<basename>` of a listed file, where it has a basename.
pub open spec fn qualified_ref(pack: Seq<char>, file: Seq<char>) -> Option<Seq<char>> {
    match file_name(file) {
        Some(b) => Some(pack + "/"@ + b),
        None => None,
    }
}

/// The references of a category's files, in order.
pub open spec fn file_refs(pack: Seq<char>, files: Seq<String>) -> Seq<Seq<char>>
    decreases files.len(),
{
    if files.len() == 0 {
        Seq::empty()
    } else {
        let head = file_refs(pack, files.drop_last());
        match qualified_ref(pack, files.last()@) {
            Some(q) => head.push(q),
            None => head,
        }
    }
}

/// The references that one pack's categories contribute to event `e`, in
/// manifest order.
pub open spec fn category_refs(
    rules: Seq<CategoryRule>,
    pack: Seq<char>,
    cats: Seq<ManifestCategory>,
    e: Event,
) -> Seq<Seq<char>>
    decreases cats.len(),
{
    if cats.len() == 0 {
        Seq::empty()
    } else {
        let head = category_refs(rules, pack, cats.drop_last(), e);
        if lookup(rules, cats.last().id@) == Some(e) {
            head + file_refs(pack, cats.last().files@)
        } else {
            head
        }
    }
}

/// Whether some category of a manifest translates to `e`.
pub open spec fn manifest_has_event(rules: Seq<CategoryRule>, cats: Seq<ManifestCategory>, e: Event) -> bool {
    exists|j: int| 0 <= j < cats.len() && lookup(rules, #[trigger] cats[j].id@) == Some(e)
}

/// The references of all packs for event `e`: pack order, then manifest order.
pub open spec fn event_refs(rules: Seq<CategoryRule>, packs: Seq<FetchedPack>, e: Event) -> Seq<
    Seq<char>,
>
    decreases packs.len(),
{
    if packs.len() == 0 {
        Seq::empty()
    } else {
        event_refs(rules, packs.drop_last(), e) + category_refs(
            rules,
            packs.last().name@,
            packs.last().manifest.categories@,
            e,
        )
    }
}

/// Whether some category of some pack translates to `e`.
pub open spec fn packs_have_event(rules: Seq<CategoryRule>, packs: Seq<FetchedPack>, e: Event) -> bool {
    exists|i: int|
        0 <= i < packs.len() && manifest_has_event(rules, #[trigger] packs[i].manifest.categories@, e)
}

/// `m` with the entry of event `e`, where some category translates to it.
pub open spec fn with_event(
    m: Map<Seq<char>, Seq<Seq<char>>>,
    rules: Seq<CategoryRule>,
    packs: Seq<FetchedPack>,
    e: Event,
) -> Map<Seq<char>, Seq<Seq<char>>> {
    if packs_have_event(rules, packs, e) {
        m.insert(e.spec_name(), event_refs(rules, packs, e))
    } else {
        m
    }
}

/// The event map merged from the packs, one entry per event that some
/// category translates to.
pub open spec fn merged_events(rules: Seq<CategoryRule>, packs: Seq<FetchedPack>) -> Map<
    Seq<char>,
    Seq<Seq<char>>,
> {
    let m0 = Map::<Seq<char>, Seq<Seq<char>>>::empty();
    let m1 = with_event(m0, rules, packs, Event::Start);
    let m2 = with_event(m1, rules, packs, Event::Stop);
    let m3 = with_event(m2, rules, packs, Event::Notify);
    let m4 = with_event(m3, rules, packs, Event::Permission);
    let m5 = with_event(m4, rules, packs, Event::Error);
    with_event(m5, rules, packs, Event::Unknown)
}

proof fn lemma_texts_push(v: Seq<String>, s: String)
    ensures
        texts(v.push(s)) == texts(v).push(s@),
{
    assert(texts(v.push(s)) =~= texts(v).push(s@));
}

/// Appends the references of a category's files to `out`.
fn append_file_refs(out: &mut Vec<String>, pack: &str, files: &Vec<String>)
    ensures
        texts(final(out)@) == texts(old(out)@) + file_refs(pack@, files@),
{
    let ghost start = texts(out@);
    let mut k: usize = 0;
    assert(files@.subrange(0, 0) =~= Seq::<String>::empty());
    assert(start + Seq::<Seq<char>>::empty() =~= start);
    while k < files.len()
        invariant
            k <= files@.len(),
            start == texts(old(out)@),
            texts(out@) == start + file_refs(pack@, files@.subrange(0, k as int)),
        decreases files@.len() - k,
    {
        let ghost pre = files@.subrange(0, k as int);
        assert(files@.subrange(0, k + 1).drop_last() =~= pre);
        assert(files@.subrange(0, k + 1).last() == files@[k as int]);
        match basename(files[k].as_str()) {
            Some(b) => {
                let mut q = String::from_str(pack);
                q.append("/");
                q.append(b.as_str());
                proof {
                    lemma_texts_push(out@, q);
                }
                out.push(q);
                assert(texts(out@) =~= start + file_refs(pack@, files@.subrange(0, k + 1)));
            },
            None => {},
        }
        k = k + 1;
    }
    assert(files@.subrange(0, k as int) =~= files@);
}

/// Appends the references that one pack contributes to event `e`; tells
/// whether some category of the pack translates to `e`.
fn append_category_refs(
    out: &mut Vec<String>,
    table: &CategoryTable,
    pack: &str,
    cats: &Vec<ManifestCategory>,
    e: Event,
) -> (found: bool)
    ensures
        found == manifest_has_event(table.rules@, cats@, e),
        texts(final(out)@) == texts(old(out)@) + category_refs(table.rules@, pack@, cats@, e),
{
    let ghost start = texts(out@);
    let mut found = false;
    let mut j: usize = 0;
    assert(start + Seq::<Seq<char>>::empty() =~= start);
    while j < cats.len()
        invariant
            j <= cats@.len(),
            start == texts(old(out)@),
            texts(out@) == start + category_refs(table.rules@, pack@, cats@.subrange(0, j as int), e),
            found == exists|m: int| 0 <= m < j && lookup(table.rules@, #[trigger] cats@[m].id@) == Some(e),
        decreases cats@.len() - j,
    {
        let ghost pre = cats@.subrange(0, j as int);
        assert(cats@.subrange(0, j + 1).drop_last() =~= pre);
        assert(cats@.subrange(0, j + 1).last() == cats@[j as int]);
        let ghost before = texts(out@);
        if table.translate(cats[j].id.as_str()) == Some(e) {
            append_file_refs(out, pack, &cats[j].files);
            found = true;
            assert(texts(out@) =~= start + category_refs(table.rules@, pack@, cats@.subrange(0, j + 1), e));
        } else {
            assert(category_refs(table.rules@, pack@, cats@.subrange(0, j + 1), e) == category_refs(table.rules@, pack@, pre, e));
        }
        j = j + 1;
    }
    assert(cats@.subrange(0, j as int) =~= cats@);
    found
}

/// The references of all packs for event `e`, and whether any category
/// translates to it.
fn collect_event(table: &CategoryTable, packs: &Vec<FetchedPack>, e: Event) -> (r: (bool, Vec<String>))
    ensures
        r.0 == packs_have_event(table.rules@, packs@, e),
        texts(r.1@) == event_refs(table.rules@, packs@, e),
{
    let mut out: Vec<String> = Vec::new();
    let mut found = false;
    let mut i: usize = 0;
    assert(texts(out@) =~= Seq::<Seq<char>>::empty());
    while i < packs.len()
        invariant
            i <= packs@.len(),
            texts(out@) == event_refs(table.rules@, packs@.subrange(0, i as int), e),
            found == exists|m: int|
                0 <= m < i && manifest_has_event(table.rules@, #[trigger] packs@[m].manifest.categories@, e),
        decreases packs@.len() - i,
    {
        let ghost pre = packs@.subrange(0, i as int);
        assert(packs@.subrange(0, i + 1).drop_last() =~= pre);
        assert(packs@.subrange(0, i + 1).last() == packs@[i as int]);
        let f = append_category_refs(
            &mut out,
            table,
            packs[i].name.as_str(),
            &packs[i].manifest.categories,
            e,
        );
        found = found || f;
        i = i + 1;
    }
    assert(packs@.subrange(0, i as int) =~= packs@);
    (found, out)
}

/// Adds the entry of event `e` where some category translates to it.
fn add_event(entries: &mut Vec<EventEntry>, table: &CategoryTable, packs: &Vec<FetchedPack>, e: Event)
    ensures
        entries_map(final(entries)@) == with_event(entries_map(old(entries)@), table.rules@, packs@, e),
{
    let (found, sounds) = collect_event(table, packs, e);
    if found {
        let entry = EventEntry { event: String::from_str(e.name()), sounds };
        let ghost before = entries@;
        entries.push(entry);
        assert(entries@.drop_last() =~= before);
    }
}

/// Merges the packs' manifests, in the given order, into one event map. Each
/// category that the table translates adds the references of its files to
/// its event, after those of earlier categories and earlier packs; nothing is
/// deduplicated, and categories outside the table add nothing.
pub fn build_event_map(table: &CategoryTable, packs: &Vec<FetchedPack>) -> (r: EventMap)
    ensures
        r@ == merged_events(table.rules@, packs@),
{
    let mut entries: Vec<EventEntry> = Vec::new();
    add_event(&mut entries, table, packs, Event::Start);
    add_event(&mut entries, table, packs, Event::Stop);
    add_event(&mut entries, table, packs, Event::Notify);
    add_event(&mut entries, table, packs, Event::Permission);
    add_event(&mut entries, table, packs, Event::Error);
    add_event(&mut entries, table, packs, Event::Unknown);
    EventMap { entries }
}

proof fn lemma_names_distinct(a: Event, b: Event)
    requires
        a != b,
    ensures
        a.spec_name() != b.spec_name(),
{
    reveal_strlit("start");
    reveal_strlit("stop");
    reveal_strlit("notify");
    reveal_strlit("permission");
    reveal_strlit("error");
    reveal_strlit("unknown");
    if a.spec_name().len() == b.spec_name().len() {
        assert(a.spec_name()[0] != b.spec_name()[0]);
    }
}

/// The entry of an event in the merged map is there exactly when some category
/// of some pack translates to that event, and then it holds the references of
/// all packs for it, in pack order; the map has entries for event names only.
pub proof fn merged_events_lookup(rules: Seq<CategoryRule>, packs: Seq<FetchedPack>, e: Event)
    ensures
        merged_events(rules, packs).contains_key(e.spec_name()) == packs_have_event(rules, packs, e),
        packs_have_event(rules, packs, e) ==> merged_events(rules, packs)[e.spec_name()]
            == event_refs(rules, packs, e),
        forall|k: Seq<char>| #[trigger]
            merged_events(rules, packs).contains_key(k) ==> exists|x: Event| x.spec_name() == k,
{
    assert forall|x: Event| x != e implies x.spec_name() != e.spec_name() by {
        lemma_names_distinct(x, e);
    }
    assert forall|k: Seq<char>| #[trigger]
        merged_events(rules, packs).contains_key(k) implies exists|x: Event| x.spec_name() == k by {
        if k == Event::Start.spec_name() {
        } else if k == Event::Stop.spec_name() {
        } else if k == Event::Notify.spec_name() {
        } else if k == Event::Permission.spec_name() {
        } else if k == Event::Error.spec_name() {
        } else {
            assert(k == Event::Unknown.spec_name());
        }
    }
}

} // verus!
