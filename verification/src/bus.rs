//! The command registry: which peer owns each bus command.

use vstd::prelude::*;

use crate::assoc::{key_at, lemma_key_at, lemma_key_at_skip, lookup};
use crate::codec::pairs_view;
use crate::text::{str_concat, str_eq};

verus! {

pub const PATTERN_MATCHING_QUERY_CMD: &'static str = "pattern_matching_query";

pub const QUERY_EVOLUTION_CMD: &'static str = "query_evolution";

pub const LINK_CREATION_CMD: &'static str = "link_creation";

pub const INFERENCE_CMD: &'static str = "inference";

pub const CONTEXT_CMD: &'static str = "context";

/// Maps each registered command to its owning peer, or to the empty string
/// while no peer owns it.
#[derive(Debug)]
pub struct Bus {
    command_owner: Vec<(String, String)>,
}

impl View for Bus {
    type V = Seq<(Seq<char>, Seq<char>)>;

    /// The command/owner pairs, in registration order.
    closed spec fn view(&self) -> Seq<(Seq<char>, Seq<char>)> {
        pairs_view(self.command_owner@)
    }
}

impl Bus {
    /// No command is registered twice.
    pub open spec fn wf(&self) -> bool {
        forall|i: int, j: int| 0 <= i < j < self@.len() ==> (#[trigger] self@[i]).0 != (
        #[trigger] self@[j]).0
    }

    /// An empty registry.
    pub fn new() -> (r: Bus)
        ensures
            r@ == Seq::<(Seq<char>, Seq<char>)>::empty(),
            r.wf(),
    {
        let r = Bus { command_owner: Vec::new() };
        proof {
            assert(r@ =~~= Seq::<(Seq<char>, Seq<char>)>::empty());
        }
        r
    }

    /// The index of the entry for `command`, if any.
    fn find_index(&self, command: &str) -> (r: Option<usize>)
        ensures
            r matches Some(i) ==> i == key_at(self@, command@),
            r is None ==> key_at(self@, command@) == -1,
    {
        let mut i: usize = 0;
        while i < self.command_owner.len()
            invariant
                i <= self@.len(),
                self@.len() == self.command_owner@.len(),
                forall|j: int| 0 <= j < i ==> (#[trigger] self@[j]).0 != command@,
            decreases self@.len() - i,
        {
            proof {
                assert(self@[i as int] == (self.command_owner@[i as int].0@,
                self.command_owner@[i as int].1@));
            }
            if str_eq(self.command_owner[i].0.as_str(), command) {
                proof {
                    lemma_key_at_skip(self@, command@, i as int);
                    assert(self@.skip(i as int)[0] == self@[i as int]);
                }
                return Some(i);
            }
            i += 1;
        }
        proof {
            lemma_key_at_skip(self@, command@, i as int);
            assert(self@.skip(i as int).len() == 0);
        }
        None
    }

    /// Registers `command` with no owner.  A command already registered
    /// with an empty owner is left as it is; one already owned is refused.
    pub fn add(&mut self, command: String) -> (r: Result<(), String>)
        ensures
            r is Err <==> (lookup(old(self)@, command@) matches Some(o) && o.len() > 0),
            r is Ok ==> final(self)@ == (if lookup(old(self)@, command@) is Some {
                old(self)@
            } else {
                old(self)@.push((command@, Seq::<char>::empty()))
            }),
            r is Err ==> *final(self) == *old(self),
            old(self).wf() ==> final(self).wf(),
    {
        proof {
            lemma_key_at(self@, command@);
        }
        let ghost pre = self@;
        match self.find_index(command.as_str()) {
            Some(i) => {
                if self.command_owner[i].1.as_str().unicode_len() > 0 {
                    proof {
                        assert(pre[i as int].1 == self.command_owner@[i as int].1@);
                    }
                    Err(str_concat("Bus: command is already assigned: ", command.as_str()))
                } else {
                    proof {
                        assert(pre[i as int].1 == self.command_owner@[i as int].1@);
                    }
                    Ok(())
                }
            },
            None => {
                self.command_owner.push((command, String::new()));
                proof {
                    assert(self@ =~~= pre.push((command@, Seq::<char>::empty())));
                    if old(self).wf() {
                        lemma_key_at(pre, command@);
                        assert forall|a: int, b: int|
                            0 <= a < b < self@.len() implies (#[trigger] self@[a]).0 != (
                        #[trigger] self@[b]).0 by {
                            if b < pre.len() {
                                assert(self@[a] == pre[a] && self@[b] == pre[b]);
                            } else {
                                assert(self@[a] == pre[a]);
                            }
                        }
                    }
                }
                Ok(())
            },
        }
    }

    /// Records `node_id` as the owner of `command`.  An unregistered
    /// command is refused; so is a command already owned by a different
    /// non-empty owner; setting the same owner again changes nothing.
    pub fn set_ownership(&mut self, command: String, node_id: &str) -> (r: Result<(), String>)
        ensures
            r is Ok <==> (lookup(old(self)@, command@) matches Some(o) && (o.len() == 0 || o
                == node_id@)),
            r is Ok ==> final(self)@ == old(self)@.update(
                key_at(old(self)@, command@),
                (command@, node_id@),
            ),
            r is Err ==> *final(self) == *old(self),
            old(self).wf() ==> final(self).wf(),
    {
        proof {
            lemma_key_at(self@, command@);
        }
        let ghost pre = self@;
        match self.find_index(command.as_str()) {
            Some(i) => {
                proof {
                    assert(pre[i as int] == (self.command_owner@[i as int].0@,
                    self.command_owner@[i as int].1@));
                }
                if self.command_owner[i].1.as_str().unicode_len() == 0 || str_eq(
                    self.command_owner[i].1.as_str(),
                    node_id,
                ) {
                    let owner = String::from_str(node_id);
                    self.command_owner.remove(i);
                    self.command_owner.insert(i, (command, owner));
                    proof {
                        assert(self@ =~~= pre.update(key_at(pre, command@), (command@, node_id@)));
                        if old(self).wf() {
                            let i0 = key_at(pre, command@);
                            assert forall|a: int, b: int|
                                0 <= a < b < self@.len() implies (#[trigger] self@[a]).0 != (
                            #[trigger] self@[b]).0 by {
                                if a != i0 && b != i0 {
                                    assert(self@[a] == pre[a] && self@[b] == pre[b]);
                                } else if a == i0 {
                                    assert(pre[b].0 != pre[i0].0);
                                } else {
                                    assert(pre[a].0 != pre[i0].0);
                                }
                            }
                        }
                    }
                    Ok(())
                } else {
                    Err(str_concat("Bus: command is already assigned: ", command.as_str()))
                }
            },
            None => Err(str_concat("Bus: command is not defined: ", command.as_str())),
        }
    }

    /// The owner of `command`; an error when the command is unregistered.
    pub fn get_ownership(&self, command: &str) -> (r: Result<String, String>)
        ensures
            r is Ok <==> lookup(self@, command@) is Some,
            r matches Ok(o) ==> lookup(self@, command@) == Some(o@),
    {
        proof {
            lemma_key_at(self@, command@);
        }
        match self.find_index(command) {
            Some(i) => {
                proof {
                    assert(self@[i as int].1 == self.command_owner@[i as int].1@);
                }
                Ok(self.command_owner[i].1.clone())
            },
            None => Err(str_concat("Bus: unknown command: ", command)),
        }
    }

    /// Whether `command` is registered.
    pub fn contains(&self, command: &str) -> (r: bool)
        ensures
            r == (lookup(self@, command@) is Some),
    {
        proof {
            lemma_key_at(self@, command@);
        }
        match self.find_index(command) {
            Some(_) => true,
            None => false,
        }
    }
}

/// Law: the registry refuses to move a command to a different non-empty
/// owner.  When a command is owned by `a` and `a` is not empty, setting
/// owner `b` succeeds exactly when `b` is `a`; and the successful call
/// leaves the owner `a` unchanged.
pub proof fn lemma_no_reassignment(bus: Bus, command: Seq<char>, a: Seq<char>, b: Seq<char>)
    requires
        lookup(bus@, command) == Some(a),
        a.len() > 0,
    ensures
        ((lookup(bus@, command) matches Some(o) && (o.len() == 0 || o == b)) <==> a == b),
        bus@.update(key_at(bus@, command), (command, a)) == bus@,
    decreases bus@.len(),
{
    lemma_key_at(bus@, command);
    assert(bus@.update(key_at(bus@, command), (command, a)) =~~= bus@);
}

} // verus!
