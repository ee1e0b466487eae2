//! The names of event kinds and of server-defined player commands, as the
//! server lists them at start-up, and how the answers of the plugins to an
//! event become the event's result.
use vstd::prelude::*;
use crate::api::event::RESULT_DEFAULT;
use crate::registry::assoc_map::StrMap;

verus! {

/// The id of each event name: its position in the list, counted from 1; a
/// name listed twice keeps its last position.
pub open spec fn event_ids(names: Seq<String>) -> Map<Seq<char>, u32>
    decreases names.len(),
{
    if names.len() == 0 {
        Map::empty()
    } else {
        event_ids(names.drop_last()).insert(names.last()@, names.len() as u32)
    }
}

/// The id of each command name: its position in the list, counted from 0; a
/// name listed twice keeps its last position.
pub open spec fn command_ids(names: Seq<String>) -> Map<Seq<char>, i32>
    decreases names.len(),
{
    if names.len() == 0 {
        Map::empty()
    } else {
        command_ids(names.drop_last()).insert(names.last()@, (names.len() - 1) as i32)
    }
}

/// The ids of the event kinds, by name.
pub struct EventNames {
    ids: StrMap<u32>,
}

/// The ids of the server-defined player commands, by name.
pub struct CommandNames {
    ids: StrMap<i32>,
}

impl EventNames {
    pub closed spec fn view(&self) -> Map<Seq<char>, u32> {
        self.ids@
    }

    pub closed spec fn wf(&self) -> bool {
        self.ids.wf()
    }

    /// The table of the listed event names; the server lists at most
    /// `i32::MAX` of them (a Java array).
    pub fn new(names: &Vec<String>) -> (t: Self)
        requires
            names.len() <= i32::MAX,
        ensures
            t.wf(),
            t@ == event_ids(names@),
    {
        let mut ids: StrMap<u32> = StrMap::new();
        let mut i: usize = 0;
        while i < names.len()
            invariant
                names.len() <= i32::MAX,
                i <= names.len(),
                ids.wf(),
                ids@ == event_ids(names@.take(i as int)),
            decreases names.len() - i,
        {
            ids.insert(names[i].clone(), (i + 1) as u32);
            assert(names@.take(i + 1).drop_last() =~= names@.take(i as int));
            i = i + 1;
        }
        assert(names@.take(names.len() as int) =~= names@);
        EventNames { ids }
    }

    /// Whether an event kind has this name.
    pub fn contains(&self, name: &str) -> (b: bool)
        requires
            self.wf(),
        ensures
            b == self@.contains_key(name@),
    {
        let key = name.to_owned();
        match self.ids.get(&key) {
            Some(_) => true,
            None => false,
        }
    }

    /// The id of the event kind with this name; the name must be listed.
    pub fn get_event_id(&self, name: &str) -> (r: u32)
        requires
            self.wf(),
            self@.contains_key(name@),
        ensures
            r == self@[name@],
    {
        let key = name.to_owned();
        match self.ids.get(&key) {
            Some(id) => *id,
            None => vstd::pervasive::unreached(),
        }
    }
}

impl CommandNames {
    pub closed spec fn view(&self) -> Map<Seq<char>, i32> {
        self.ids@
    }

    pub closed spec fn wf(&self) -> bool {
        self.ids.wf()
    }

    /// The table of the listed command names; the server lists at most
    /// `i32::MAX` of them (a Java array).
    pub fn new(names: &Vec<String>) -> (t: Self)
        requires
            names.len() <= i32::MAX,
        ensures
            t.wf(),
            t@ == command_ids(names@),
    {
        let mut ids: StrMap<i32> = StrMap::new();
        let mut i: usize = 0;
        while i < names.len()
            invariant
                names.len() <= i32::MAX,
                i <= names.len(),
                ids.wf(),
                ids@ == command_ids(names@.take(i as int)),
            decreases names.len() - i,
        {
            ids.insert(names[i].clone(), i as i32);
            assert(names@.take(i + 1).drop_last() =~= names@.take(i as int));
            i = i + 1;
        }
        assert(names@.take(names.len() as int) =~= names@);
        CommandNames { ids }
    }

    /// The id of the command with this name, or -1 when there is none.
    pub fn get_custom_command_id(&self, name: &str) -> (r: i32)
        requires
            self.wf(),
        ensures
            r == (if self@.contains_key(name@) {
                self@[name@]
            } else {
                -1i32
            }),
    {
        let key = name.to_owned();
        match self.ids.get(&key) {
            Some(id) => *id,
            None => -1,
        }
    }
}

/// What the dispatch of an event does once a plugin has answered.
pub enum DispatchStep {
    /// The event's result is this answer; no later plugin is asked.
    Finish(i32),
    /// Ask the next plugin.
    Next,
    /// The plugin failed: report it and ask the next plugin.
    ReportAndNext,
}

/// The next step of a dispatch after a plugin's answer; `None` is a plugin
/// that failed to answer. A non-default answer ends the dispatch.
pub fn after_answer(answer: Option<i32>) -> (step: DispatchStep)
    ensures
        step == (match answer {
            Some(r) => if r != RESULT_DEFAULT {
                DispatchStep::Finish(r)
            } else {
                DispatchStep::Next
            },
            None => DispatchStep::ReportAndNext,
        }),
{
    match answer {
        Some(r) => if r != RESULT_DEFAULT {
            DispatchStep::Finish(r)
        } else {
            DispatchStep::Next
        },
        None => DispatchStep::ReportAndNext,
    }
}


/// An event name listed once, or last at position `i`, has the id `i + 1`;
/// a name not listed has no id.
pub proof fn lemma_event_id_position(names: Seq<String>, i: int)
    requires
        0 <= i < names.len(),
        names.len() <= i32::MAX,
        forall|j: int| i < j < names.len() ==> (#[trigger] names[j])@ != names[i]@,
    ensures
        event_ids(names).contains_key(names[i]@),
        event_ids(names)[names[i]@] == i + 1,
    decreases names.len(),
{
    if i < names.len() - 1 {
        assert forall|j: int| i < j < names.drop_last().len() implies (#[trigger] names.drop_last()[j])@
            != names.drop_last()[i]@ by {
            assert(names.drop_last()[j] == names[j]);
        }
        assert(names.drop_last()[i] == names[i]);
        lemma_event_id_position(names.drop_last(), i);
        assert(names.last() == names[names.len() - 1]);
    }
}

/// A command name listed once, or last at position `i`, has the id `i`.
pub proof fn lemma_command_id_position(names: Seq<String>, i: int)
    requires
        0 <= i < names.len(),
        names.len() <= i32::MAX,
        forall|j: int| i < j < names.len() ==> (#[trigger] names[j])@ != names[i]@,
    ensures
        command_ids(names).contains_key(names[i]@),
        command_ids(names)[names[i]@] == i,
    decreases names.len(),
{
    if i < names.len() - 1 {
        assert forall|j: int| i < j < names.drop_last().len() implies (#[trigger] names.drop_last()[j])@
            != names.drop_last()[i]@ by {
            assert(names.drop_last()[j] == names[j]);
        }
        assert(names.drop_last()[i] == names[i]);
        lemma_command_id_position(names.drop_last(), i);
        assert(names.last() == names[names.len() - 1]);
    }
}

/// Only listed names have ids.
pub proof fn lemma_unlisted_name(names: Seq<String>, k: Seq<char>)
    requires
        forall|j: int| 0 <= j < names.len() ==> (#[trigger] names[j])@ != k,
    ensures
        !event_ids(names).contains_key(k),
        !command_ids(names).contains_key(k),
    decreases names.len(),
{
    if names.len() > 0 {
        assert forall|j: int| 0 <= j < names.drop_last().len() implies (#[trigger] names.drop_last()[j])@ != k by {
            assert(names.drop_last()[j] == names[j]);
        }
        lemma_unlisted_name(names.drop_last(), k);
        assert(names.last() == names[names.len() - 1]);
    }
}

} // verus!
