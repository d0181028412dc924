use vstd::prelude::*;

verus! {

/// The rule for one provided name: the module to load and, when not empty,
/// the member of that module to bind.
pub struct ProviderRule {
    pub name: String,
    pub from: String,
    pub key: String,
}

/// A table from a name to the module (and member) that provides it.
/// Names are unique.
pub struct Providers {
    rules: Vec<ProviderRule>,
}

impl Providers {
    pub closed spec fn wf(&self) -> bool {
        forall|i: int, j: int|
            0 <= i < j < self.rules@.len() ==> self.rules@[i].name@ != self.rules@[j].name@
    }

    pub closed spec fn rule_index(&self, k: Seq<char>) -> int {
        choose|i: int| 0 <= i < self.rules@.len() && self.rules@[i].name@ == k
    }

    /// The table as a map from a name to `(module, member)`.
    pub closed spec fn view(&self) -> Map<Seq<char>, (Seq<char>, Seq<char>)> {
        Map::new(
            |k: Seq<char>| exists|i: int| 0 <= i < self.rules@.len() && self.rules@[i].name@ == k,
            |k: Seq<char>|
                (self.rules@[self.rule_index(k)].from@, self.rules@[self.rule_index(k)].key@),
        )
    }

    pub fn new() -> (r: Providers)
        ensures
            r.wf(),
            r@ == Map::<Seq<char>, (Seq<char>, Seq<char>)>::empty(),
    {
        let r = Providers { rules: Vec::new() };
        assert(r@ =~= Map::<Seq<char>, (Seq<char>, Seq<char>)>::empty());
        r
    }

    /// Sets the rule for `name`, replacing any earlier one.
    pub fn insert(&mut self, name: String, from: String, key: String)
        requires
            old(self).wf(),
        ensures
            final(self).wf(),
            final(self)@ == old(self)@.insert(name@, (from@, key@)),
    {
        let ghost k = name@;
        let ghost v = (from@, key@);
        let n = self.rules.len();
        let found = self.find(&name);
        let i: usize = match found {
            Some(j) => j,
            None => n,
        };
        let ghost old_rules = self.rules@;
        if i < n {
            self.rules.remove(i);
            self.rules.insert(i, ProviderRule { name, from, key });
            assert(self.rules@ =~= old_rules.update(i as int, self.rules@[i as int]));
            assert forall|k2: Seq<char>| #[trigger] self@.contains_key(k2) == old(self)@.insert(k, v).contains_key(k2) by {
                if k2 != k {
                    if exists|j: int| 0 <= j < old_rules.len() && old_rules[j].name@ == k2 {
                        let j = choose|j: int| 0 <= j < old_rules.len() && old_rules[j].name@ == k2;
                        assert(self.rules@[j].name@ == k2);
                    }
                } else {
                    assert(self.rules@[i as int].name@ == k);
                }
            }
            assert(self.wf());
            assert forall|k2: Seq<char>| #[trigger] self@.contains_key(k2) implies self@[k2] == old(self)@.insert(k, v)[k2] by {
                let a = self.rule_index(k2);
                assert(0 <= a < self.rules@.len() && self.rules@[a].name@ == k2);
                if k2 != k {
                    let b = old(self).rule_index(k2);
                    assert(old_rules[a].name@ == k2);
                    assert(0 <= b < old_rules.len() && old_rules[b].name@ == k2);
                    assert(a == b);
                } else {
                    assert(self.rules@[i as int].name@ == k);
                    assert(a == i);
                }
            }
        } else {
            self.rules.push(ProviderRule { name, from, key });
            assert(self.rules@ =~= old_rules.push(self.rules@[n as int]));
            assert forall|k2: Seq<char>| #[trigger] self@.contains_key(k2) == old(self)@.insert(k, v).contains_key(k2) by {
                if k2 != k {
                    if exists|j: int| 0 <= j < old_rules.len() && old_rules[j].name@ == k2 {
                        let j = choose|j: int| 0 <= j < old_rules.len() && old_rules[j].name@ == k2;
                        assert(self.rules@[j].name@ == k2);
                    }
                } else {
                    assert(self.rules@[n as int].name@ == k);
                }
            }
            assert(self.wf());
            assert forall|k2: Seq<char>| #[trigger] self@.contains_key(k2) implies self@[k2] == old(self)@.insert(k, v)[k2] by {
                let a = self.rule_index(k2);
                assert(0 <= a < self.rules@.len() && self.rules@[a].name@ == k2);
                if k2 != k {
                    let b = old(self).rule_index(k2);
                    assert(0 <= b < old_rules.len() && old_rules[b].name@ == k2);
                    assert(self.rules@[b].name@ == k2);
                    assert(a == b);
                } else {
                    assert(self.rules@[n as int].name@ == k);
                    assert(a == n);
                }
            }
        }
        assert(self@ =~= old(self)@.insert(k, v));
    }

    /// The rule for `name`, if the table has one.
    pub fn get(&self, name: &String) -> (r: Option<(String, String)>)
        requires
            self.wf(),
        ensures
            r is Some <==> self@.contains_key(name@),
            r is Some ==> ((r->0).0@, (r->0).1@) == self@[name@],
    {
        match self.find(name) {
            Some(i) => {
                proof {
                    let a = self.rule_index(name@);
                    assert(self.rules@[a].name@ == name@);
                    assert(a == i);
                }
                Some((self.rules[i].from.clone(), self.rules[i].key.clone()))
            },
            None => None,
        }
    }

    /// The position of the rule for `name`, if any.
    fn find(&self, name: &String) -> (r: Option<usize>)
        ensures
            r is Some ==> r->0 < self.rules@.len() && self.rules@[r->0 as int].name@ == name@,
            r is None ==> forall|j: int| 0 <= j < self.rules@.len() ==> self.rules@[j].name@ != name@,
    {
        let mut i: usize = 0;
        while i < self.rules.len()
            invariant
                0 <= i <= self.rules@.len(),
                forall|j: int| 0 <= j < i ==> self.rules@[j].name@ != name@,
            decreases self.rules@.len() - i,
        {
            if self.rules[i].name == *name {
                return Some(i);
            }
            i = i + 1;
        }
        None
    }
}

} // verus!
