//! Translation of upstream sound categories into the player's event vocabulary.
use vstd::prelude::*;
use crate::text::same_text;

verus! {

/// The player's fixed event vocabulary.
#[derive(Clone, Copy, Debug, PartialEq, Eq, Structural)]
pub enum Event {
    Start,
    Stop,
    Notify,
    Permission,
    Error,
    Unknown,
}

impl Event {
    /// The name under which the event is stored and looked up.
    pub open spec fn spec_name(self) -> Seq<char> {
        match self {
            Event::Start => "start"@,
            Event::Stop => "stop"@,
            Event::Notify => "notify"@,
            Event::Permission => "permission"@,
            Event::Error => "error"@,
            Event::Unknown => "unknown"@,
        }
    }

    pub fn name(&self) -> (r: &'static str)
        ensures
            r@ == self.spec_name(),
    {
        match self {
            Event::Start => "start",
            Event::Stop => "stop",
            Event::Notify => "notify",
            Event::Permission => "permission",
            Event::Error => "error",
            Event::Unknown => "unknown",
        }
    }
}

/// One row of a translation table: a category identifier and its event.
pub struct CategoryRule {
    pub category: String,
    pub event: Event,
}

/// An ordered translation table; the first row whose category matches wins.
pub struct CategoryTable {
    pub rules: Vec<CategoryRule>,
}

/// The event of the first rule whose category is `c`, if any.
pub open spec fn lookup(rules: Seq<CategoryRule>, c: Seq<char>) -> Option<Event>
    decreases rules.len(),
{
    if rules.len() == 0 {
        None
    } else if rules[0].category@ == c {
        Some(rules[0].event)
    } else {
        lookup(rules.drop_first(), c)
    }
}

/// The standard translation of upstream category identifiers.
pub open spec fn standard_event(c: Seq<char>) -> Option<Event> {
    if c == "session.start"@ {
        Some(Event::Start)
    } else if c == "task.complete"@ {
        Some(Event::Stop)
    } else if c == "task.acknowledge"@ {
        Some(Event::Notify)
    } else if c == "input.required"@ || c == "resource.limit"@ {
        Some(Event::Permission)
    } else if c == "task.error"@ {
        Some(Event::Error)
    } else if c == "user.spam"@ {
        Some(Event::Unknown)
    } else {
        None
    }
}

fn rule(category: &str, event: Event) -> (r: CategoryRule)
    ensures
        r.category@ == category@,
        r.event == event,
{
    CategoryRule { category: String::from_str(category), event }
}

impl CategoryTable {
    /// The table holds exactly the standard translation.
    pub open spec fn is_standard(&self) -> bool {
        forall|c: Seq<char>| #[trigger] lookup(self.rules@, c) == standard_event(c)
    }

    /// The standard table of upstream category identifiers.
    pub fn standard() -> (t: CategoryTable)
        ensures
            t.is_standard(),
    {
        let mut rules: Vec<CategoryRule> = Vec::new();
        rules.push(rule("session.start", Event::Start));
        rules.push(rule("task.complete", Event::Stop));
        rules.push(rule("task.acknowledge", Event::Notify));
        rules.push(rule("input.required", Event::Permission));
        rules.push(rule("resource.limit", Event::Permission));
        rules.push(rule("task.error", Event::Error));
        rules.push(rule("user.spam", Event::Unknown));
        let t = CategoryTable { rules };
        assert forall|c: Seq<char>| #[trigger] lookup(t.rules@, c) == standard_event(c) by {
            let r = t.rules@;
            assert(r.drop_first().drop_first().drop_first().drop_first().drop_first().drop_first().drop_first().len() == 0);
            reveal_with_fuel(lookup, 8);
        }
        t
    }

    /// The event that category `c` translates to; `None` where no rule names it.
    pub fn translate(&self, c: &str) -> (r: Option<Event>)
        ensures
            r == lookup(self.rules@, c@),
    {
        let mut i: usize = 0;
        assert(self.rules@.skip(0) =~= self.rules@);
        while i < self.rules.len()
            invariant
                i <= self.rules@.len(),
                lookup(self.rules@, c@) == lookup(self.rules@.skip(i as int), c@),
            decreases self.rules@.len() - i,
        {
            assert(self.rules@.skip(i as int).drop_first() =~= self.rules@.skip(i + 1));
            if same_text(self.rules[i].category.as_str(), c) {
                return Some(self.rules[i].event);
            }
            i = i + 1;
        }
        None
    }
}

/// The name of the event that an upstream category translates to under the
/// standard table; `None` for a category outside it.
pub fn category_to_event(category: &str) -> (r: Option<&'static str>)
    ensures
        r.is_none() <==> standard_event(category@).is_none(),
        r.is_some() ==> r.unwrap()@ == standard_event(category@).unwrap().spec_name(),
{
    let table = CategoryTable::standard();
    match table.translate(category) {
        Some(e) => Some(e.name()),
        None => None,
    }
}

} // verus!
