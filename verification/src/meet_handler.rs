//! Meets and their events: a meet collects events by name, each holding
//! links to its prelims and finals pages.  The collection keeps one entry
//! per name, as a map would, with insertion order preserved.
use vstd::prelude::*;

use crate::splits::opt_string_view;

verus! {

/// Event with links to prelims and finals pages.
#[derive(Debug, Clone)]
pub struct Event {
    pub name: String,
    pub number: u32,
    pub prelims_link: Option<String>,
    pub finals_link: Option<String>,
}

/// Mathematical model of an event entry.
#[verifier::ext_equal]
pub struct EventModel {
    pub name: Seq<char>,
    pub number: u32,
    pub prelims_link: Option<Seq<char>>,
    pub finals_link: Option<Seq<char>>,
}

impl View for Event {
    type V = EventModel;

    open spec fn view(&self) -> EventModel {
        EventModel {
            name: self.name@,
            number: self.number,
            prelims_link: opt_string_view(self.prelims_link),
            finals_link: opt_string_view(self.finals_link),
        }
    }
}

impl Event {
    /// Creates a new Event with name and number.
    pub fn new(name: String, number: u32) -> (e: Event)
        ensures
            e@ == (EventModel { name: name@, number, prelims_link: None, finals_link: None }),
    {
        let e = Event { name, number, prelims_link: None, finals_link: None };
        proof {
            assert(e@ =~= EventModel {
                name: e.name@,
                number,
                prelims_link: None,
                finals_link: None,
            });
        }
        e
    }

    /// Sets the prelims or finals link based on session; any other session
    /// marker leaves the event unchanged.
    pub fn set_link(&mut self, link: String, session: char)
        ensures
            final(self)@ == (if session == 'P' {
                EventModel { prelims_link: Some(link@), ..old(self)@ }
            } else if session == 'F' {
                EventModel { finals_link: Some(link@), ..old(self)@ }
            } else {
                old(self)@
            }),
    {
        match session {
            'P' => {
                self.prelims_link = Some(link);
            },
            'F' => {
                self.finals_link = Some(link);
            },
            _ => {
            },
        }
    }
}

/// Meet containing all events, base URL, and meet title.
#[derive(Debug)]
pub struct Meet {
    pub events: Vec<(String, Event)>,
    pub base_url: String,
    pub title: Option<String>,
}

pub open spec fn entry_views(evs: Seq<(String, Event)>) -> Seq<(Seq<char>, EventModel)> {
    evs.map_values(|p: (String, Event)| (p.0@, p.1@))
}

/// First entry with key `name`, or nothing.
pub open spec fn key_idx(evs: Seq<(Seq<char>, EventModel)>, name: Seq<char>, from: int) -> Option<
    int,
>
    decreases evs.len() - from,
{
    if from < 0 || from >= evs.len() {
        None
    } else if evs[from].0 == name {
        Some(from)
    } else {
        key_idx(evs, name, from + 1)
    }
}

impl Meet {
    /// Each event name keyed at most once, as in a map.
    pub open spec fn wf(&self) -> bool {
        forall|i: int, j: int|
            0 <= i < j < self.events@.len() ==> (#[trigger] self.events@[i]).0@ != (
            #[trigger] self.events@[j]).0@
    }

    /// Creates a new Meet with the given base URL.
    pub fn new(base_url: String) -> (m: Meet)
        ensures
            m.events@.len() == 0,
            m.base_url@ == base_url@,
            m.title is None,
            m.wf(),
    {
        Meet { events: Vec::new(), base_url, title: None }
    }

    /// Sets the meet title.
    pub fn set_title(&mut self, title: String)
        ensures
            final(self).title matches Some(t) && t@ == title@,
            final(self).events == old(self).events,
            final(self).base_url == old(self).base_url,
            old(self).wf() ==> final(self).wf(),
    {
        self.title = Some(title);
    }

    /// Adds an event to the meet under `name`: an entry already keyed by
    /// that name is replaced in place, otherwise the event is appended.
    #[verifier::loop_isolation(false)]
    pub fn add_event(&mut self, name: String, event: Event)
        ensures
            (match key_idx(entry_views(old(self).events@), name@, 0) {
                Some(i) => entry_views(final(self).events@) == entry_views(
                    old(self).events@,
                ).update(i, (name@, event@)),
                None => entry_views(final(self).events@) == entry_views(old(self).events@).push(
                    (name@, event@),
                ),
            }),
            final(self).base_url == old(self).base_url,
            final(self).title == old(self).title,
            old(self).wf() ==> final(self).wf(),
    {
        let ghost ev0 = entry_views(self.events@);
        let n = self.events.len();
        let name_chars = crate::text::str_to_chars(name.as_str());
        let mut i: usize = 0;
        while i < n
            invariant
                *self == *old(self),
                i <= n == self.events@.len(),
                ev0 == entry_views(self.events@),
                name_chars@ == name@,
                key_idx(ev0, name@, 0) == key_idx(ev0, name@, i as int),
            decreases n - i,
        {
            if crate::text::chars_eq_str(&name_chars, self.events[i].0.as_str()) {
                let ghost old_entries = self.events@;
                proof {
                    assert(old_entries[i as int].0@ == name@);
                }
                self.events.set(i, (name, event));
                proof {
                    assert(entry_views(self.events@) =~= entry_views(old_entries).update(
                        i as int,
                        (name@, event@),
                    ));
                    if old(self).wf() {
                        assert forall|a: int, b: int|
                            0 <= a < b < self.events@.len() implies (#[trigger] self.events@[
                            a
                        ]).0@ != (#[trigger] self.events@[b]).0@ by {
                            assert(old_entries[a].0@ != old_entries[b].0@);
                            assert(self.events@[a] == if a == i as int {
                                old_entries.update(i as int, self.events@[i as int])[a]
                            } else {
                                old_entries[a]
                            });
                        }
                    }
                }
                return ;
            }
            i = i + 1;
        }
        let ghost old_entries = self.events@;
        self.events.push((name, event));
        proof {
            assert(entry_views(self.events@) =~= entry_views(old_entries).push((name@, event@)));
            if old(self).wf() {
                assert forall|a: int, b: int|
                    0 <= a < b < self.events@.len() implies (#[trigger] self.events@[a]).0@ != (
                    #[trigger] self.events@[b]).0@ by {
                    if b == self.events@.len() - 1 {
                        proof_key_idx_absent(ev0, name@, a);
                    }
                }
            }
        }
    }

    /// Returns a mutable reference to an event by name.
    #[verifier::loop_isolation(false)]
    pub fn get_event_mut(&mut self, name: &str) -> (r: Option<&mut Event>)
        ensures
            (match key_idx(entry_views(old(self).events@), name@, 0) {
                Some(i) => r matches Some(e) && *e == old(self).events@[i].1 && entry_views(
                    final(self).events@,
                ) == entry_views(old(self).events@).update(
                    i,
                    (old(self).events@[i].0@, (*final(e))@),
                ),
                None => r is None && *final(self) == *old(self),
            }),
            final(self).base_url == old(self).base_url,
            final(self).title == old(self).title,
            old(self).wf() ==> final(self).wf(),
    {
        let ghost ev0 = entry_views(self.events@);
        let n = self.events.len();
        let name_chars = crate::text::str_to_chars(name);
        let mut i: usize = 0;
        while i < n
            invariant
                *self == *old(self),
                i <= n == self.events@.len(),
                ev0 == entry_views(self.events@),
                name_chars@ == name@,
                key_idx(ev0, name@, 0) == key_idx(ev0, name@, i as int),
            decreases n - i,
        {
            if crate::text::chars_eq_str(&name_chars, self.events[i].0.as_str()) {
                let e = &mut self.events[i].1;
                return Some(e);
            }
            i = i + 1;
        }
        None
    }
}

/// A name absent from the whole entry list differs from every key.
proof fn proof_key_idx_absent(evs: Seq<(Seq<char>, EventModel)>, name: Seq<char>, a: int)
    requires
        key_idx(evs, name, 0) is None,
        0 <= a < evs.len(),
    ensures
        evs[a].0 != name,
{
    lemma_key_idx_none(evs, name, 0, a);
}

proof fn lemma_key_idx_none(evs: Seq<(Seq<char>, EventModel)>, name: Seq<char>, from: int, a: int)
    requires
        key_idx(evs, name, from) is None,
        0 <= from <= a < evs.len(),
    ensures
        evs[a].0 != name,
    decreases a - from,
{
    if from < a {
        lemma_key_idx_none(evs, name, from + 1, a);
    }
}

} // verus!
