//! Exchanges and their bindings.

use vstd::hash_map::StringHashMap;
use vstd::prelude::*;
use vstd::string::*;

verus! {

/// An exchange: for each routing key the queues that were bound under it.
pub struct Exchange {
    pub name: String,
    pub bindings: StringHashMap<Vec<String>>,
}

/// An exchange as mathematical values.
#[verifier::ext_equal]
pub struct ExchangeModel {
    pub name: Seq<char>,
    pub bindings: Map<Seq<char>, Seq<Seq<char>>>,
}

impl DeepView for Exchange {
    type V = ExchangeModel;

    open spec fn deep_view(&self) -> ExchangeModel {
        ExchangeModel {
            name: self.name@,
            bindings: self.bindings@.map_values(|names: Vec<String>| names.deep_view()),
        }
    }
}

impl ExchangeModel {
    /// The queues bound under a routing key, in the order in which they were.
    pub open spec fn bound(self, routing_key: Seq<char>) -> Seq<Seq<char>> {
        if self.bindings.contains_key(routing_key) {
            self.bindings[routing_key]
        } else {
            Seq::empty()
        }
    }

    /// With one queue more bound under a routing key.
    pub open spec fn with_binding(self, routing_key: Seq<char>, queue: Seq<char>) -> ExchangeModel {
        ExchangeModel {
            bindings: self.bindings.insert(routing_key, self.bound(routing_key).push(queue)),
            ..self
        }
    }
}

impl Exchange {
    /// An exchange without bindings.
    pub fn new(name: String) -> (r: Self)
        ensures
            r.deep_view() == (ExchangeModel { name: name@, bindings: Map::empty() }),
    {
        let r = Exchange { name, bindings: StringHashMap::new() };
        assert(r.deep_view().bindings =~= Map::<Seq<char>, Seq<Seq<char>>>::empty());
        r
    }

    /// The queues bound under a routing key.
    pub fn queues_for(&self, routing_key: &str) -> (r: Vec<String>)
        ensures
            r.deep_view() == self.deep_view().bound(routing_key@),
    {
        let mut out: Vec<String> = Vec::new();
        match self.bindings.get(routing_key) {
            Some(names) => {
                let ghost all = names.deep_view();
                let mut i: usize = 0;
                assert(out.deep_view() =~= all.take(0));
                while i < names.len()
                    invariant
                        i <= names@.len(),
                        all == names.deep_view(),
                        out.deep_view() == all.take(i as int),
                    decreases names@.len() - i,
                {
                    let ghost before = out.deep_view();
                    out.push(names[i].clone());
                    proof {
                        assert(names@[i as int]@ == all[i as int]);
                        assert(out.deep_view() =~= before.push(all[i as int]));
                        assert(all.take(i + 1) =~= all.take(i as int).push(all[i as int]));
                    }
                    i = i + 1;
                }
                assert(all.take(all.len() as int) =~= all);
            },
            None => {
                assert(out.deep_view() =~= Seq::<Seq<char>>::empty());
            },
        }
        out
    }

    /// Binds a queue under a routing key.
    pub fn bind(&mut self, routing_key: String, queue: String)
        ensures
            final(self).deep_view() == old(self).deep_view().with_binding(routing_key@, queue@),
    {
        let ghost before = self.deep_view();
        let mut names = self.queues_for(routing_key.as_str());
        let ghost bound = names.deep_view();
        names.push(queue);
        assert(names.deep_view() =~= bound.push(queue@));
        self.bindings.insert(routing_key, names);
        assert(self.deep_view().bindings =~= before.with_binding(routing_key@, queue@).bindings);
    }
}

} // verus!
