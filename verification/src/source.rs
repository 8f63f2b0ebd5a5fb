//! Where a strategy's parameters come from.
use crate::text::{after_prefix, begins_with, concat, same_text};
use vstd::prelude::*;

verus! {

/// The blueprint file that a strategy of this name was generated from; empty
/// for a built-in strategy.
pub open spec fn source_of(name: Seq<char>) -> Seq<char> {
    if name == "blueprint-scalper"@ {
        "data/blueprints/cluster-001.json"@
    } else if name == "blueprint-mean-revert"@ {
        "data/blueprints/cluster-004.json"@
    } else if begins_with(name, "blueprint-cluster-"@) {
        "data/blueprints/"@ + name.skip("blueprint-"@.len() as int) + ".json"@
    } else {
        Seq::empty()
    }
}

/// Map a strategy name to its blueprint source path (for data-driven strategies).
/// Returns an empty string for built-in strategies.
pub fn strategy_source_path(name: &str) -> (r: String)
    ensures
        r@ == source_of(name@),
{
    if same_text(name, "blueprint-scalper") {
        return "data/blueprints/cluster-001.json".to_owned();
    }
    if same_text(name, "blueprint-mean-revert") {
        return "data/blueprints/cluster-004.json".to_owned();
    }
    if after_prefix(name, "blueprint-cluster-").is_some() {
        proof {
            reveal_strlit("blueprint-");
            reveal_strlit("blueprint-cluster-");
            assert("blueprint-cluster-"@.take(10) =~= "blueprint-"@);
            assert(name@.take(18).take(10) =~= name@.take(10));
        }
        if let Some(cluster) = after_prefix(name, "blueprint-") {
            let path = concat("data/blueprints/", cluster);
            return concat(path.as_str(), ".json");
        }
    }
    String::new()
}

/// Only the two named blueprints and the numbered clusters have a source: every
/// other name is a built-in strategy's, and its source is empty.
pub proof fn built_in_strategies_have_no_source(name: Seq<char>)
    requires
        !begins_with(name, "blueprint-"@),
    ensures
        source_of(name) == Seq::<char>::empty(),
{
    reveal_strlit("blueprint-");
    reveal_strlit("blueprint-scalper");
    reveal_strlit("blueprint-mean-revert");
    reveal_strlit("blueprint-cluster-");
    assert("blueprint-scalper"@.take(10) =~= "blueprint-"@);
    assert("blueprint-mean-revert"@.take(10) =~= "blueprint-"@);
    assert("blueprint-cluster-"@.take(10) =~= "blueprint-"@);
    if begins_with(name, "blueprint-cluster-"@) {
        assert(name.take(18).take(10) =~= name.take(10));
    }
}

/// A cluster's source is the file of that cluster's name, for whatever follows the word.
pub proof fn clusters_have_the_file_of_their_name(rest: Seq<char>)
    ensures
        source_of("blueprint-cluster-"@ + rest) == "data/blueprints/cluster-"@ + rest + ".json"@,
        source_of("blueprint-scalper"@) == "data/blueprints/cluster-001.json"@,
        source_of("blueprint-mean-revert"@) == "data/blueprints/cluster-004.json"@,
{
    reveal_strlit("blueprint-");
    reveal_strlit("blueprint-scalper");
    reveal_strlit("blueprint-mean-revert");
    reveal_strlit("blueprint-cluster-");
    reveal_strlit("data/blueprints/");
    reveal_strlit("data/blueprints/cluster-");
    let name = "blueprint-cluster-"@ + rest;
    assert(name[10] == 'c');
    assert("blueprint-scalper"@[10] == 's' && "blueprint-mean-revert"@[10] == 'm');
    assert(name.take(18) =~= "blueprint-cluster-"@);
    assert("data/blueprints/"@ + name.skip(10) =~= "data/blueprints/cluster-"@ + rest);
}

/// A name that is neither of the two nor a cluster's has no source.
pub proof fn other_names_have_no_source(name: Seq<char>)
    requires
        name != "blueprint-scalper"@,
        name != "blueprint-mean-revert"@,
        !begins_with(name, "blueprint-cluster-"@),
    ensures
        source_of(name) == Seq::<char>::empty(),
{
}

} // verus!
