//! Which topics are compacted.

use crate::keymap::{with_name, NameSet};
use crate::text::{contains_text, occurs_in, same_text};
use vstd::prelude::*;

verus! {

/// A setting of a resource.
#[derive(Debug)]
pub struct ConfigEntry {
    pub name: String,
    pub value: Option<String>,
}

/// The settings of a resource; only topics have a name here.
#[derive(Debug)]
pub struct ResourceConfig {
    pub topic: Option<String>,
    pub entries: Vec<ConfigEntry>,
}

/// Whether a setting says that a topic is compacted.
pub open spec fn says_compacted(entry: ConfigEntry) -> bool {
    &&& entry.name@ == "cleanup.policy"@
    &&& entry.value matches Some(value) && occurs_in(value@, "compact"@)
}

/// Whether the settings of a topic say that it is compacted.
pub open spec fn is_compacted(entries: Seq<ConfigEntry>) -> bool {
    exists|i: int| 0 <= i < entries.len() && says_compacted(#[trigger] entries[i])
}

/// The compacted topics, each once. Resources that are not topics, and those whose settings
/// could not be had, count for nothing.
pub open spec fn compacted_topics(resources: Seq<Option<ResourceConfig>>) -> Seq<Seq<char>>
    decreases resources.len(),
{
    if resources.len() == 0 {
        Seq::empty()
    } else {
        let before = compacted_topics(resources.drop_last());
        match resources.last() {
            Some(resource) => match resource.topic {
                Some(topic) if is_compacted(resource.entries@) => with_name(before, topic@),
                _ => before,
            },
            None => before,
        }
    }
}

/// Whether the settings of a topic say that it is compacted.
fn reads_compacted(entries: &Vec<ConfigEntry>) -> (compacted: bool)
    ensures
        compacted == is_compacted(entries@),
{
    let mut i: usize = 0;
    while i < entries.len()
        invariant
            i <= entries.len(),
            forall|k: int| 0 <= k < i ==> !says_compacted(#[trigger] entries@[k]),
        decreases entries.len() - i,
    {
        if same_text(entries[i].name.as_str(), "cleanup.policy") {
            if let Some(value) = &entries[i].value {
                if contains_text(value.as_str(), "compact") {
                    assert(says_compacted(entries@[i as int]));
                    return true;
                }
            }
        }
        i += 1;
    }
    false
}

/// Finds the compacted topics among described resources.
pub fn find_compacted_topics(resources: &Vec<Option<ResourceConfig>>) -> (topics: NameSet)
    ensures
        topics@ == compacted_topics(resources@),
{
    let mut topics = NameSet::new();
    let mut i: usize = 0;
    assert(resources@.take(0) =~= Seq::<Option<ResourceConfig>>::empty());
    while i < resources.len()
        invariant
            i <= resources.len(),
            topics@ == compacted_topics(resources@.take(i as int)),
        decreases resources.len() - i,
    {
        assert(resources@.take(i + 1).drop_last() =~= resources@.take(i as int));
        if let Some(resource) = &resources[i] {
            if let Some(topic) = &resource.topic {
                if reads_compacted(&resource.entries) {
                    topics.insert(topic.as_str());
                }
            }
        }
        i += 1;
    }
    assert(resources@.take(i as int) =~= resources@);
    topics
}

} // verus!
