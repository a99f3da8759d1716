//! `mycel guide`: the built-in guide for new users.
use vstd::prelude::*;
use crate::text::str_eq;

verus! {

/// The guide's topics.
#[derive(Clone, Copy, Debug, PartialEq, Eq, Structural)]
pub enum Topic {
    Start,
    Packages,
    Generations,
    Fessus,
    Overlays,
    Spore,
    Spread,
    Packaging,
}

/// What `mycel guide` shows.
#[derive(Clone, Copy, Debug, PartialEq, Eq, Structural)]
pub enum GuidePage {
    /// The list of topics.
    Index,
    Topic(Topic),
    /// A topic that does not exist: a hint to list them.
    Unknown,
}

/// The topics, by the name they are asked for with, and their summaries.
pub open spec fn topic_table() -> Seq<(Seq<char>, Seq<char>)> {
    seq![
        ("start"@, "What is MycelOS and how to get started"@),
        ("packages"@, "Installing software with .myc recipes"@),
        ("generations"@, "Switch, boot, rollback \u{2014} the generation system"@),
        ("fessus"@, "Configuring FessusDE via fessus.toml"@),
        ("overlays"@, "Adding community package sources"@),
        ("spore"@, "Ephemeral shells for one-off tools"@),
        ("spread"@, "Exporting and restoring your setup"@),
        ("packaging"@, "Writing your own .myc package recipe"@),
    ]
}

/// The topic asked for by name.
pub open spec fn topic_named(name: Seq<char>) -> Option<Topic> {
    if name == "start"@ {
        Some(Topic::Start)
    } else if name == "packages"@ {
        Some(Topic::Packages)
    } else if name == "generations"@ {
        Some(Topic::Generations)
    } else if name == "fessus"@ {
        Some(Topic::Fessus)
    } else if name == "overlays"@ {
        Some(Topic::Overlays)
    } else if name == "spore"@ {
        Some(Topic::Spore)
    } else if name == "spread"@ {
        Some(Topic::Spread)
    } else if name == "packaging"@ {
        Some(Topic::Packaging)
    } else {
        None
    }
}

fn topic_of(name: &str) -> (r: Option<Topic>)
    ensures
        r == topic_named(name@),
{
    if str_eq(name, "start") {
        Some(Topic::Start)
    } else if str_eq(name, "packages") {
        Some(Topic::Packages)
    } else if str_eq(name, "generations") {
        Some(Topic::Generations)
    } else if str_eq(name, "fessus") {
        Some(Topic::Fessus)
    } else if str_eq(name, "overlays") {
        Some(Topic::Overlays)
    } else if str_eq(name, "spore") {
        Some(Topic::Spore)
    } else if str_eq(name, "spread") {
        Some(Topic::Spread)
    } else if str_eq(name, "packaging") {
        Some(Topic::Packaging)
    } else {
        None
    }
}

/// The page to show: the index without a topic, else the named topic's
/// page, or the unknown-topic hint.
pub fn run(topic: Option<&str>) -> (r: GuidePage)
    ensures
        r == (match topic {
            None => GuidePage::Index,
            Some(t) => match topic_named(t@) {
                Some(p) => GuidePage::Topic(p),
                None => GuidePage::Unknown,
            },
        }),
{
    match topic {
        None => GuidePage::Index,
        Some(t) => match topic_of(t) {
            Some(p) => GuidePage::Topic(p),
            None => GuidePage::Unknown,
        },
    }
}

/// The index: each topic's name and summary, in order.
pub fn topics() -> (r: Vec<(String, String)>)
    ensures
        r@.map_values(|p: (String, String)| (p.0@, p.1@)) == topic_table(),
{
    let r = vec![
        (String::from_str("start"), String::from_str("What is MycelOS and how to get started")),
        (String::from_str("packages"), String::from_str("Installing software with .myc recipes")),
        (String::from_str("generations"), String::from_str("Switch, boot, rollback \u{2014} the generation system")),
        (String::from_str("fessus"), String::from_str("Configuring FessusDE via fessus.toml")),
        (String::from_str("overlays"), String::from_str("Adding community package sources")),
        (String::from_str("spore"), String::from_str("Ephemeral shells for one-off tools")),
        (String::from_str("spread"), String::from_str("Exporting and restoring your setup")),
        (String::from_str("packaging"), String::from_str("Writing your own .myc package recipe")),
    ];
    assert(r@.map_values(|p: (String, String)| (p.0@, p.1@)) =~= topic_table());
    r
}

/// Every topic listed in the index opens its own page.
pub proof fn lemma_index_topics_open()
    ensures
        forall|i: int| 0 <= i < topic_table().len() ==> (#[trigger] topic_named(topic_table()[i].0)) is Some,
{
    assert forall|i: int| 0 <= i < topic_table().len() implies (#[trigger] topic_named(topic_table()[i].0)) is Some by {
        reveal_strlit("start");
        reveal_strlit("packages");
        reveal_strlit("generations");
        reveal_strlit("fessus");
        reveal_strlit("overlays");
        reveal_strlit("spore");
        reveal_strlit("spread");
        reveal_strlit("packaging");
    }
}

} // verus!
