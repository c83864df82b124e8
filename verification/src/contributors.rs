//! The record of which agent contributed which skill.
//!
//! A skill is known by its key in the store. For each key the record holds
//! the ids of the agents that had the skill: each id once, however often it
//! was put on record.

use crate::order::{
    copy_names, in_order, insert_unique, lemma_in_order_of_ascending, str_eq, strictly_ascending,
};
use vstd::prelude::*;

verus! {

/// Which agents contributed which store key.
pub struct Contributors {
    keys: Vec<String>,
    agents: Vec<Vec<String>>,
}

/// The ids of the agents that `found` holds for `key`: none for a key that
/// it does not hold.
pub open spec fn contributors_of(found: Map<Seq<char>, Set<Seq<char>>>, key: Seq<char>) -> Set<
    Seq<char>,
> {
    if found.contains_key(key) {
        found[key]
    } else {
        Set::empty()
    }
}

/// `found` with `agent` among the agents held for `key`.
pub open spec fn with_contributor(
    found: Map<Seq<char>, Set<Seq<char>>>,
    key: Seq<char>,
    agent: Seq<char>,
) -> Map<Seq<char>, Set<Seq<char>>> {
    found.insert(key, contributors_of(found, key).insert(agent))
}

impl View for Contributors {
    type V = Map<Seq<char>, Set<Seq<char>>>;

    closed spec fn view(&self) -> Map<Seq<char>, Set<Seq<char>>> {
        Map::new(
            |key: Seq<char>| self.keys.deep_view().contains(key),
            |key: Seq<char>| self.agents@[self.keys.deep_view().index_of(key)].deep_view().to_set(),
        )
    }
}

impl Contributors {
    #[verifier::type_invariant]
    spec fn well_formed(self) -> bool {
        &&& self.keys.len() == self.agents.len()
        &&& self.keys.deep_view().no_duplicates()
        &&& forall|i: int|
            0 <= i < self.agents.len() ==> strictly_ascending(
                #[trigger] self.agents@[i].deep_view(),
            )
    }

    /// A record that holds nothing.
    pub fn new() -> (out: Contributors)
        ensures
            out@ == Map::<Seq<char>, Set<Seq<char>>>::empty(),
    {
        let out = Contributors { keys: Vec::new(), agents: Vec::new() };
        assert(out.keys.deep_view() =~= Seq::empty());
        assert(out@ =~= Map::<Seq<char>, Set<Seq<char>>>::empty());
        out
    }

    fn find(&self, key: &str) -> (at: Option<usize>)
        ensures
            at is Some <==> self.keys.deep_view().contains(key@),
            at matches Some(i) ==> i < self.keys.len() && self.keys.deep_view()[i as int] == key@
                && self.keys.deep_view().index_of(key@) == i,
    {
        proof {
            use_type_invariant(self);
        }
        let mut i: usize = 0;
        while i < self.keys.len()
            invariant
                i <= self.keys.len(),
                self.keys.deep_view().no_duplicates(),
                forall|k: int| 0 <= k < i ==> self.keys.deep_view()[k] != key@,
            decreases self.keys.len() - i,
        {
            if str_eq(self.keys[i].as_str(), key) {
                proof {
                    let keys = self.keys.deep_view();
                    assert(keys[i as int] == key@);
                    let j = keys.index_of(key@);
                    assert(0 <= j < keys.len() && keys[j] == key@);
                    if j != i {
                        assert(keys[j] != keys[i as int]);
                    }
                }
                return Some(i);
            }
            i += 1;
        }
        None
    }

    /// Records that `agent` contributed `key`. Recording the same pair again
    /// changes nothing.
    pub fn record(self, key: String, agent: String) -> (out: Contributors)
        ensures
            out@ == with_contributor(self@, key@, agent@),
    {
        proof {
            use_type_invariant(&self);
        }
        let ghost old_keys = self.keys.deep_view();
        let ghost old_agents = self.agents@;
        let ghost wanted = with_contributor(self@, key@, agent@);
        let found = self.find(key.as_str());
        let mut keys = self.keys;
        let mut agents = self.agents;
        match found {
            Some(i) => {
                let mut list = agents.remove(i);
                insert_unique(&mut list, agent);
                agents.insert(i, list);
                proof {
                    assert(agents@.len() == old_agents.len());
                    assert forall|j: int| 0 <= j < agents.len() implies strictly_ascending(
                        #[trigger] agents@[j].deep_view(),
                    ) by {
                        if j != i {
                            assert(agents@[j] == old_agents[j]);
                        }
                    }
                }
                let out = Contributors { keys, agents };
                proof {
                    assert forall|k: Seq<char>|
                        #![trigger out@.dom().contains(k)]
                        #![trigger wanted.dom().contains(k)]
                        out@.dom().contains(k) == wanted.dom().contains(k) && (out@.dom().contains(
                            k,
                        ) ==> out@[k] == wanted[k]) by {
                        if old_keys.contains(k) {
                            let j = old_keys.index_of(k);
                            if j != i {
                                assert(out.agents@[j] == old_agents[j]);
                            }
                        }
                    }
                    assert(out@.dom() =~= wanted.dom());
                    assert(out@ =~= wanted);
                }
                out
            },
            None => {
                let ghost name = key@;
                let mut list: Vec<String> = Vec::new();
                assert(list.deep_view() =~= Seq::empty());
                insert_unique(&mut list, agent);
                keys.push(key);
                agents.push(list);
                proof {
                    let new_keys = keys.deep_view();
                    assert(new_keys =~= old_keys.push(name));
                    assert forall|a: int, b: int|
                        0 <= a < new_keys.len() && 0 <= b < new_keys.len() && a != b implies new_keys[a]
                        != new_keys[b] by {
                        if a < old_keys.len() && b < old_keys.len() {
                            assert(old_keys[a] != old_keys[b]);
                        } else if a < old_keys.len() {
                            assert(old_keys.contains(old_keys[a]));
                        } else {
                            assert(old_keys.contains(old_keys[b]));
                        }
                    }
                    assert(new_keys.no_duplicates());
                    assert forall|j: int| 0 <= j < agents.len() implies strictly_ascending(
                        #[trigger] agents@[j].deep_view(),
                    ) by {
                        if j < old_agents.len() {
                            assert(agents@[j] == old_agents[j]);
                        }
                    }
                }
                let out = Contributors { keys, agents };
                proof {
                    let new_keys = out.keys.deep_view();
                    assert forall|k: Seq<char>|
                        #![trigger out@.dom().contains(k)]
                        #![trigger wanted.dom().contains(k)]
                        out@.dom().contains(k) == wanted.dom().contains(k) && (out@.dom().contains(
                            k,
                        ) ==> out@[k] == wanted[k]) by {
                        if k == name {
                            assert(new_keys[old_keys.len() as int] == name);
                            let j = new_keys.index_of(k);
                            assert(0 <= j < new_keys.len() && new_keys[j] == k);
                            assert(j == old_keys.len());
                            assert(Seq::<Seq<char>>::empty().to_set() =~= Set::empty());
                        } else if old_keys.contains(k) {
                            let j = old_keys.index_of(k);
                            assert(new_keys[j] == k);
                            let j2 = new_keys.index_of(k);
                            assert(0 <= j2 < new_keys.len() && new_keys[j2] == k);
                            assert(j2 == j);
                            assert(out.agents@[j] == old_agents[j]);
                        } else {
                            if new_keys.contains(k) {
                                let j = choose|j: int| 0 <= j < new_keys.len() && new_keys[j] == k;
                                assert(old_keys[j] == k);
                            }
                        }
                    }
                    assert(out@.dom() =~= wanted.dom());
                    assert(out@ =~= wanted);
                }
                out
            },
        }
    }

    /// The ids of the agents recorded for `key`, in ascending order.
    pub fn agents_of(&self, key: &str) -> (out: Vec<String>)
        ensures
            out.deep_view() == in_order(contributors_of(self@, key@)),
    {
        proof {
            use_type_invariant(self);
        }
        match self.find(key) {
            Some(i) => {
                proof {
                    lemma_in_order_of_ascending(self.agents@[i as int].deep_view());
                }
                copy_names(&self.agents[i])
            },
            None => {
                let out: Vec<String> = Vec::new();
                proof {
                    assert(out.deep_view() =~= Seq::empty());
                    assert(out.deep_view().to_set() =~= Set::empty());
                    lemma_in_order_of_ascending(out.deep_view());
                }
                out
            },
        }
    }
}

} // verus!
