//! Sound directory resolution and the sounds configured for an event.
use rand::seq::SliceRandom;
use vstd::prelude::*;
use crate::text::same_text;
use crate::events::{entries_map, texts, EventEntry, EventMap};

verus! {

/// `rel` appended to `base` as `std::path::PathBuf::push` does it on
/// `/`-separated paths: an absolute `rel` replaces `base`, and a separator is
/// put between them where `base` is not empty and does not end in one.
pub open spec fn joined(base: Seq<char>, rel: Seq<char>) -> Seq<char> {
    if rel.len() > 0 && rel[0] == '/' {
        rel
    } else if base.len() == 0 {
        rel
    } else if base.last() == '/' {
        base + rel
    } else {
        base + "/"@ + rel
    }
}

pub fn join_path(base: &str, rel: &str) -> (r: String)
    ensures
        r@ == joined(base@, rel@),
{
    let nb = base.unicode_len();
    let nr = rel.unicode_len();
    if (nr > 0 && rel.get_char(0) == '/') || nb == 0 {
        return String::from_str(rel);
    }
    let mut r = String::from_str(base);
    if base.get_char(nb - 1) != '/' {
        r.append("/");
    }
    r.append(rel);
    r
}

/// A path with a leading `~/` read against the home directory, where one is
/// known; any other path as it is.
pub open spec fn expanded(path: Seq<char>, home: Option<Seq<char>>) -> Seq<char> {
    if path.len() >= 2 && path[0] == '~' && path[1] == '/' && home is Some {
        joined(home->Some_0, path.subrange(2, path.len() as int))
    } else {
        path
    }
}

pub fn expand_tilde(path: &str, home: Option<&str>) -> (r: String)
    ensures
        r@ == expanded(path@, match home {
            Some(h) => Some(h@),
            None => None,
        }),
{
    let n = path.unicode_len();
    if n >= 2 && path.get_char(0) == '~' && path.get_char(1) == '/' {
        match home {
            Some(h) => {
                return join_path(h, path.substring_char(2, n));
            },
            None => {},
        }
    }
    String::from_str(path)
}

/// The sounds directory: an override, where one is given, takes precedence
/// over the stored value; a leading `~/` is then expanded.
pub fn resolve_sounds_dir(override_dir: Option<&str>, stored: &str, home: Option<&str>) -> (r: String)
    ensures
        r@ == expanded(match override_dir {
            Some(o) => o@,
            None => stored@,
        }, match home {
            Some(h) => Some(h@),
            None => None,
        }),
{
    match override_dir {
        Some(o) => expand_tilde(o, home),
        None => expand_tilde(stored, home),
    }
}

/// The position of the entry that gives `key` its value in the map.
fn find_entry(entries: &Vec<EventEntry>, key: &str) -> (r: Option<usize>)
    ensures
        r is None <==> !entries_map(entries@).contains_key(key@),
        r is Some ==> r->Some_0 < entries@.len() && entries_map(entries@)[key@] == texts(
            entries@[r->Some_0 as int].sounds@,
        ),
{
    let mut i = entries.len();
    assert(entries@.subrange(0, i as int) =~= entries@);
    while i > 0
        invariant
            i <= entries@.len(),
            entries_map(entries@).contains_key(key@) == entries_map(
                entries@.subrange(0, i as int),
            ).contains_key(key@),
            entries_map(entries@).contains_key(key@) ==> entries_map(entries@)[key@]
                == entries_map(entries@.subrange(0, i as int))[key@],
        decreases i,
    {
        let ghost pre = entries@.subrange(0, i as int);
        assert(pre.drop_last() =~= entries@.subrange(0, i - 1));
        assert(pre.last() == entries@[i - 1]);
        if same_text(entries[i - 1].event.as_str(), key) {
            return Some(i - 1);
        }
        i = i - 1;
    }
    None
}

/// The references configured for `event`: its own entry, else the entry of
/// `unknown`, else none.
pub open spec fn event_sounds(m: Map<Seq<char>, Seq<Seq<char>>>, event: Seq<char>) -> Seq<Seq<char>> {
    let key = if m.contains_key(event) {
        event
    } else {
        "unknown"@
    };
    if m.contains_key(key) {
        m[key]
    } else {
        Seq::empty()
    }
}

impl EventMap {
    /// The paths of the sounds for `event` under `sounds_dir`. An event
    /// without an entry falls back to the entry of `unknown`; where that is
    /// missing too, there are none.
    pub fn sounds_for_event(&self, sounds_dir: &str, event: &str) -> (r: Vec<String>)
        ensures
            r@.len() == event_sounds(self@, event@).len(),
            forall|i: int|
                0 <= i < r@.len() ==> #[trigger] r@[i]@ == joined(sounds_dir@, event_sounds(self@, event@)[i]),
    {
        let found = match find_entry(&self.entries, event) {
            Some(i) => Some(i),
            None => find_entry(&self.entries, "unknown"),
        };
        let mut out: Vec<String> = Vec::new();
        match found {
            Some(i) => {
                let sounds = &self.entries[i].sounds;
                let mut k: usize = 0;
                while k < sounds.len()
                    invariant
                        k <= sounds@.len(),
                        out@.len() == k,
                        forall|m: int| 0 <= m < k ==> #[trigger] out@[m]@ == joined(sounds_dir@, sounds@[m]@),
                    decreases sounds@.len() - k,
                {
                    out.push(join_path(sounds_dir, sounds[k].as_str()));
                    k = k + 1;
                }
            },
            None => {},
        }
        out
    }

    /// The path of a sound to play for `event`: one of those that
    /// `sounds_for_event` gives, picked at random; none where it gives none.
    pub fn sound_to_play(&self, sounds_dir: &str, event: &str) -> (r: Option<String>)
        ensures
            r is None <==> event_sounds(self@, event@).len() == 0,
            r is Some ==> exists|i: int|
                0 <= i < event_sounds(self@, event@).len() && r->Some_0@ == joined(
                    sounds_dir@,
                    #[trigger] event_sounds(self@, event@)[i],
                ),
    {
        let paths = self.sounds_for_event(sounds_dir, event);
        match choose_one(paths.as_slice()) {
            Some(p) => {
                let ghost i = choose|i: int| 0 <= i < paths@.len() && paths@[i] == *p;
                assert(paths@[i]@ == joined(sounds_dir@, event_sounds(self@, event@)[i]));
                Some(p.clone())
            },
            None => None,
        }
    }
}

/// Relies on rand's `SliceRandom::choose` with the thread-local generator:
/// `None` for an empty slice, otherwise one of its elements.
#[verifier::external_body]
fn choose_one<'a>(items: &'a [String]) -> (r: Option<&'a String>)
    ensures
        r is None <==> items@.len() == 0,
        r is Some ==> items@.contains(*r->Some_0),
{
    items.choose(&mut rand::thread_rng())
}

} // verus!
