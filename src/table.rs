use vstd::prelude::*;

verus! {

/// Whether two texts are equal, character by character.
pub fn same_text(a: &Vec<char>, b: &Vec<char>) -> (r: bool)
    ensures
        r == (a@ == b@),
{
    if a.len() != b.len() {
        return false;
    }
    let mut i: usize = 0;
    while i < a.len()
        invariant
            i <= a.len(),
            a.len() == b.len(),
            forall|j: int| 0 <= j < i ==> a@[j] == b@[j],
        decreases a.len() - i,
    {
        if a[i] != b[i] {
            return false;
        }
        i = i + 1;
    }
    assert(a@ =~= b@);
    true
}

/// Macro names and their raw bodies. Names are unique.
pub struct MacroTable {
    names: Vec<Vec<char>>,
    bodies: Vec<Vec<char>>,
    contents: Ghost<Map<Seq<char>, Seq<char>>>,
}

impl View for MacroTable {
    type V = Map<Seq<char>, Seq<char>>;

    closed spec fn view(&self) -> Map<Seq<char>, Seq<char>> {
        self.contents@
    }
}

impl MacroTable {
    /// The entries hold exactly the mapping, each name once.
    pub closed spec fn wf(&self) -> bool {
        &&& self.names.len() == self.bodies.len()
        &&& forall|i: int|
            0 <= i < self.names.len() ==> #[trigger] self.contents@.contains_key(self.names@[i]@)
                && self.contents@[self.names@[i]@] == self.bodies@[i]@
        &&& forall|k: Seq<char>|
            #[trigger] self.contents@.contains_key(k) ==> exists|i: int|
                0 <= i < self.names.len() && self.names@[i]@ == k
        &&& forall|i: int, j: int|
            0 <= i < self.names.len() && 0 <= j < self.names.len() && i != j
                ==> self.names@[i]@ != self.names@[j]@
    }

    /// An empty table.
    pub fn new() -> (r: MacroTable)
        ensures
            r.wf(),
            r@ == Map::<Seq<char>, Seq<char>>::empty(),
    {
        MacroTable { names: Vec::new(), bodies: Vec::new(), contents: Ghost(Map::empty()) }
    }

    /// The position of `name` among the entries.
    fn find(&self, name: &Vec<char>) -> (r: Option<usize>)
        requires
            self.wf(),
        ensures
            r is None <==> !self@.contains_key(name@),
            r matches Some(i) ==> i < self.names.len() && self.names@[i as int]@ == name@,
    {
        let mut i: usize = 0;
        while i < self.names.len()
            invariant
                self.wf(),
                i <= self.names.len(),
                forall|j: int| 0 <= j < i ==> self.names@[j]@ != name@,
            decreases self.names.len() - i,
        {
            if same_text(&self.names[i], name) {
                return Some(i);
            }
            i = i + 1;
        }
        proof {
            if self@.contains_key(name@) {
                let j = choose|j: int| 0 <= j < self.names.len() && self.names@[j]@ == name@;
                assert(self.names@[j]@ == name@);
            }
        }
        None
    }

    /// Whether `name` is defined.
    pub fn contains(&self, name: &Vec<char>) -> (r: bool)
        requires
            self.wf(),
        ensures
            r == self@.contains_key(name@),
    {
        self.find(name).is_some()
    }

    /// The body of `name`, if it is defined.
    pub fn get(&self, name: &Vec<char>) -> (r: Option<&Vec<char>>)
        requires
            self.wf(),
        ensures
            r is Some <==> self@.contains_key(name@),
            r matches Some(b) ==> b@ == self@[name@],
    {
        match self.find(name) {
            Some(i) => Some(&self.bodies[i]),
            None => None,
        }
    }

    /// Adds `name` with `body`; refused (false, table unchanged) when `name` is present.
    pub fn insert(&mut self, name: Vec<char>, body: Vec<char>) -> (r: bool)
        requires
            old(self).wf(),
        ensures
            final(self).wf(),
            r == !old(self)@.contains_key(name@),
            r ==> final(self)@ == old(self)@.insert(name@, body@),
            !r ==> final(self)@ == old(self)@,
    {
        if self.contains(&name) {
            return false;
        }
        let ghost m = self.contents@;
        let ghost k = name@;
        let ghost b = body@;
        self.names.push(name);
        self.bodies.push(body);
        self.contents = Ghost(m.insert(k, b));
        let ghost n = self.names.len() - 1;
        assert(self.names@[n]@ == k);
        assert forall|key: Seq<char>| #[trigger] self.contents@.contains_key(key) implies exists|i: int|
            0 <= i < self.names.len() && self.names@[i]@ == key by {
            if key != k {
                let i = choose|i: int| 0 <= i < self.names.len() - 1 && old(self).names@[i]@ == key;
                assert(self.names@[i]@ == key);
            }
        }
        assert forall|i: int| 0 <= i < self.names.len() implies #[trigger] self.contents@.contains_key(
            self.names@[i]@,
        ) && self.contents@[self.names@[i]@] == self.bodies@[i]@ by {
            if i < n {
                assert(old(self).contents@.contains_key(old(self).names@[i]@));
            }
        }
        assert forall|i: int, j: int|
            0 <= i < self.names.len() && 0 <= j < self.names.len() && i != j
                implies self.names@[i]@ != self.names@[j]@ by {
            if i < n && j < n {
                assert(old(self).names@[i]@ != old(self).names@[j]@);
            } else if i < n {
                assert(old(self).contents@.contains_key(old(self).names@[i]@));
            } else if j < n {
                assert(old(self).contents@.contains_key(old(self).names@[j]@));
            }
        }
        true
    }

    /// Removes `name`; refused (false, table unchanged) when `name` is absent.
    pub fn remove(&mut self, name: &Vec<char>) -> (r: bool)
        requires
            old(self).wf(),
        ensures
            final(self).wf(),
            r == old(self)@.contains_key(name@),
            r ==> final(self)@ == old(self)@.remove(name@),
            !r ==> final(self)@ == old(self)@,
    {
        match self.find(name) {
            None => false,
            Some(p) => {
                let ghost m = self.contents@;
                let ghost k = name@;
                let ghost on = self.names@;
                let ghost ob = self.bodies@;
                self.names.remove(p);
                self.bodies.remove(p);
                self.contents = Ghost(m.remove(k));
                assert forall|i: int| 0 <= i < self.names.len() implies #[trigger] self.contents@.contains_key(
                    self.names@[i]@,
                ) && self.contents@[self.names@[i]@] == self.bodies@[i]@ by {
                    let oi = if i < p { i } else { i + 1 };
                    assert(self.names@[i] == on[oi]);
                    assert(self.bodies@[i] == ob[oi]);
                    assert(on[oi]@ != on[p as int]@);
                    assert(m.contains_key(on[oi]@));
                }
                assert forall|key: Seq<char>| #[trigger] self.contents@.contains_key(key) implies exists|i: int|
                    0 <= i < self.names.len() && self.names@[i]@ == key by {
                    assert(m.contains_key(key));
                    let oi = choose|oi: int| 0 <= oi < on.len() && on[oi]@ == key;
                    assert(oi != p);
                    let i = if oi < p { oi } else { oi - 1 };
                    assert(self.names@[i] == on[oi]);
                }
                assert forall|i: int, j: int|
                    0 <= i < self.names.len() && 0 <= j < self.names.len() && i != j
                        implies self.names@[i]@ != self.names@[j]@ by {
                    let oi = if i < p { i } else { i + 1 };
                    let oj = if j < p { j } else { j + 1 };
                    assert(self.names@[i] == on[oi]);
                    assert(self.names@[j] == on[oj]);
                }
                true
            },
        }
    }
}

} // verus!
