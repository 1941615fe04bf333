use vstd::prelude::*;

use crate::types::{Canteen, CanteenView};

verus! {

/// No two entries share a name, and no two share an id.
pub open spec fn is_bijective(entries: Seq<CanteenView>) -> bool {
    forall|i: int, j: int|
        0 <= i < entries.len() && 0 <= j < entries.len() && i != j ==> entries[i].name
            != entries[j].name && entries[i].id != entries[j].id
}

pub open spec fn has_canteen_name(entries: Seq<CanteenView>, name: Seq<char>) -> bool {
    exists|i: int| 0 <= i < entries.len() && entries[i].name == name
}

pub open spec fn has_canteen_id(entries: Seq<CanteenView>, id: u32) -> bool {
    exists|i: int| 0 <= i < entries.len() && entries[i].id == id
}

/// The id registered under `name`.
pub open spec fn id_of(entries: Seq<CanteenView>, name: Seq<char>) -> Option<u32> {
    if has_canteen_name(entries, name) {
        Some(entries[choose|i: int| 0 <= i < entries.len() && entries[i].name == name].id)
    } else {
        None
    }
}

/// The name registered under `id`.
pub open spec fn name_with_id(entries: Seq<CanteenView>, id: u32) -> Option<Seq<char>> {
    if has_canteen_id(entries, id) {
        Some(entries[choose|i: int| 0 <= i < entries.len() && entries[i].id == id].name)
    } else {
        None
    }
}

/// Whether registering `c` establishes a new mapping: neither its name nor
/// its id is taken yet.
pub open spec fn is_fresh(entries: Seq<CanteenView>, c: CanteenView) -> bool {
    !has_canteen_name(entries, c.name) && !has_canteen_id(entries, c.id)
}

/// The entries after registering each of `cs` in turn.
pub open spec fn registered_all(entries: Seq<CanteenView>, cs: Seq<CanteenView>) -> Seq<CanteenView>
    decreases cs.len(),
{
    if cs.len() == 0 {
        entries
    } else {
        let before = registered_all(entries, cs.drop_last());
        if is_fresh(before, cs.last()) {
            before.push(cs.last())
        } else {
            before
        }
    }
}

/// Those of `cs` whose registration established a new mapping, in order.
pub open spec fn won_all(entries: Seq<CanteenView>, cs: Seq<CanteenView>) -> Seq<CanteenView>
    decreases cs.len(),
{
    if cs.len() == 0 {
        seq![]
    } else {
        let won = won_all(entries, cs.drop_last());
        if is_fresh(registered_all(entries, cs.drop_last()), cs.last()) {
            won.push(cs.last())
        } else {
            won
        }
    }
}

pub open spec fn canteens_view(v: Seq<Canteen>) -> Seq<CanteenView> {
    v.map_values(|c: Canteen| c@)
}

/// The known canteens: a one-to-one mapping between names and ids. Canteens
/// are added, never renamed or removed.
pub struct Registry {
    entries: Vec<Canteen>,
}

impl View for Registry {
    type V = Seq<CanteenView>;

    closed spec fn view(&self) -> Seq<CanteenView> {
        canteens_view(self.entries@)
    }
}

impl Registry {
    pub closed spec fn wf(&self) -> bool {
        is_bijective(self@)
    }

    /// An empty registry.
    pub fn new() -> (r: Registry)
        ensures
            r.wf(),
            r@ == Seq::<CanteenView>::empty(),
    {
        let r = Registry { entries: Vec::new() };
        assert(r@ =~= Seq::<CanteenView>::empty());
        r
    }

    fn index_of_name(&self, name: &String) -> (r: Option<usize>)
        ensures
            match r {
                Some(i) => i < self@.len() && self@[i as int].name == name@,
                None => !has_canteen_name(self@, name@),
            },
    {
        let mut i: usize = 0;
        while i < self.entries.len()
            invariant
                i <= self.entries.len(),
                self@ == canteens_view(self.entries@),
                forall|j: int| 0 <= j < i ==> self@[j].name != name@,
            decreases self.entries.len() - i,
        {
            if self.entries[i].name == *name {
                return Some(i);
            }
            i += 1;
        }
        None
    }

    fn index_of_id(&self, id: u32) -> (r: Option<usize>)
        ensures
            match r {
                Some(i) => i < self@.len() && self@[i as int].id == id,
                None => !has_canteen_id(self@, id),
            },
    {
        let mut i: usize = 0;
        while i < self.entries.len()
            invariant
                i <= self.entries.len(),
                self@ == canteens_view(self.entries@),
                forall|j: int| 0 <= j < i ==> self@[j].id != id,
            decreases self.entries.len() - i,
        {
            if self.entries[i].id == id {
                return Some(i);
            }
            i += 1;
        }
        None
    }

    /// The id of the canteen called `name`.
    pub fn resolve(&self, name: &String) -> (r: Option<u32>)
        requires
            self.wf(),
        ensures
            r == id_of(self@, name@),
    {
        match self.index_of_name(name) {
            Some(i) => {
                let ghost k = choose|k: int| 0 <= k < self@.len() && self@[k].name == name@;
                assert(k == i);
                Some(self.entries[i].id)
            },
            None => None,
        }
    }

    /// The name of the canteen with id `id`.
    pub fn name_of(&self, id: u32) -> (r: Option<String>)
        requires
            self.wf(),
        ensures
            match r {
                Some(n) => name_with_id(self@, id) == Some(n@),
                None => name_with_id(self@, id) is None,
            },
    {
        match self.index_of_id(id) {
            Some(i) => {
                let ghost k = choose|k: int| 0 <= k < self@.len() && self@[k].id == id;
                assert(k == i);
                Some(self.entries[i].name.clone())
            },
            None => None,
        }
    }

    /// Adds `canteen` if neither its name nor its id is known yet, and says
    /// whether it did. Only the caller that gets `true` has established the
    /// mapping, and only it should persist it.
    pub fn insert_if_absent(&mut self, canteen: Canteen) -> (r: bool)
        requires
            old(self).wf(),
        ensures
            final(self).wf(),
            r == is_fresh(old(self)@, canteen@),
            final(self)@ == if r {
                old(self)@.push(canteen@)
            } else {
                old(self)@
            },
    {
        if self.index_of_name(&canteen.name).is_some() || self.index_of_id(canteen.id).is_some() {
            return false;
        }
        let ghost c = canteen@;
        self.entries.push(canteen);
        proof {
            assert(self@ =~= old(self)@.push(c));
        }
        true
    }

    /// Registers each of `found` in turn and returns those that established
    /// a new mapping: the ones to persist.
    pub fn register_all(&mut self, found: &Vec<Canteen>) -> (r: Vec<Canteen>)
        requires
            old(self).wf(),
        ensures
            final(self).wf(),
            final(self)@ == registered_all(old(self)@, canteens_view(found@)),
            canteens_view(r@) == won_all(old(self)@, canteens_view(found@)),
    {
        let ghost start = self@;
        let ghost fv = canteens_view(found@);
        let mut won: Vec<Canteen> = Vec::new();
        let mut i: usize = 0;
        while i < found.len()
            invariant
                i <= found.len(),
                self.wf(),
                start == old(self)@,
                fv == canteens_view(found@),
                self@ == registered_all(start, fv.take(i as int)),
                canteens_view(won@) == won_all(start, fv.take(i as int)),
            decreases found.len() - i,
        {
            proof {
                assert(fv.take(i as int + 1).drop_last() =~= fv.take(i as int));
                assert(fv.take(i as int + 1).last() == found@[i as int]@);
            }
            let c = found[i].clone();
            let c2 = found[i].clone();
            if self.insert_if_absent(c) {
                proof {
                    assert(canteens_view(won@.push(c2)) =~= canteens_view(won@).push(c2@));
                }
                won.push(c2);
            }
            i += 1;
        }
        proof {
            assert(fv.take(found.len() as int) =~= fv);
        }
        won
    }

    /// A registry holding the canteens of a directory, given as name and id
    /// pairs; a pair whose name or id is already taken is left out.
    pub fn from_directory(pairs: &Vec<(String, u32)>) -> (r: Registry)
        ensures
            r.wf(),
            r@ == registered_all(Seq::<CanteenView>::empty(), pairs_as_canteens(pairs@)),
    {
        let mut found: Vec<Canteen> = Vec::new();
        let mut i: usize = 0;
        while i < pairs.len()
            invariant
                i <= pairs.len(),
                canteens_view(found@) == pairs_as_canteens(pairs@.take(i as int)),
            decreases pairs.len() - i,
        {
            let c = Canteen { id: pairs[i].1, name: pairs[i].0.clone() };
            proof {
                assert(canteens_view(found@.push(c)) =~= canteens_view(found@).push(c@));
                assert(pairs_as_canteens(pairs@.take(i as int + 1)) =~= pairs_as_canteens(
                    pairs@.take(i as int),
                ).push(c@));
            }
            found.push(c);
            i += 1;
        }
        proof {
            assert(pairs@.take(pairs.len() as int) =~= pairs@);
        }
        let mut r = Registry::new();
        r.register_all(&found);
        r
    }

    /// The known canteens, in the order they were registered.
    pub fn canteens(&self) -> (r: Vec<Canteen>)
        ensures
            canteens_view(r@) == self@,
    {
        let mut out: Vec<Canteen> = Vec::new();
        let mut i: usize = 0;
        while i < self.entries.len()
            invariant
                i <= self.entries.len(),
                out.len() == i,
                forall|j: int| 0 <= j < i ==> (#[trigger] out@[j])@ == self.entries@[j]@,
            decreases self.entries.len() - i,
        {
            out.push(self.entries[i].clone());
            i += 1;
        }
        assert(canteens_view(out@) =~= self@);
        out
    }
}

pub open spec fn pairs_as_canteens(pairs: Seq<(String, u32)>) -> Seq<CanteenView> {
    pairs.map_values(|p: (String, u32)| CanteenView { id: p.1, name: p.0@ })
}

/// Turns id and name pairs into name and id pairs, in the same order.
pub fn invert_map(map: &Vec<(u32, String)>) -> (r: Vec<(String, u32)>)
    ensures
        r.len() == map.len(),
        forall|i: int| 0 <= i < map.len() ==> (#[trigger] r@[i]).0@ == map@[i].1@ && r@[i].1 == map@[i].0,
{
    let mut out: Vec<(String, u32)> = Vec::new();
    let mut i: usize = 0;
    while i < map.len()
        invariant
            i <= map.len(),
            out.len() == i,
            forall|j: int| 0 <= j < i ==> (#[trigger] out@[j]).0@ == map@[j].1@ && out@[j].1 == map@[j].0,
        decreases map.len() - i,
    {
        out.push((map[i].1.clone(), map[i].0));
        i += 1;
    }
    out
}

/// Of two registrations of the same name, at most the first establishes the
/// mapping: a canteen discovered twice is persisted once.
pub proof fn lemma_second_registration_loses(entries: Seq<CanteenView>, a: CanteenView, b: CanteenView)
    requires
        a.name == b.name,
    ensures
        won_all(entries, seq![a, b]).len() <= 1,
        is_fresh(entries, a) ==> won_all(entries, seq![a, b]) == seq![a],
{
    let cs = seq![a, b];
    assert(cs.drop_last() =~= seq![a]);
    assert(seq![a].drop_last() =~= Seq::<CanteenView>::empty());
    assert(registered_all(entries, Seq::<CanteenView>::empty()) == entries);
    assert(won_all(entries, Seq::<CanteenView>::empty()) == Seq::<CanteenView>::empty());
    let after = registered_all(entries, seq![a]);
    if is_fresh(entries, a) {
        assert(after == entries.push(a));
        assert(after[entries.len() as int].name == b.name);
        assert(has_canteen_name(after, b.name));
        assert(!is_fresh(after, b));
        assert(won_all(entries, seq![a]) =~= seq![a]);
        assert(won_all(entries, cs) =~= seq![a]);
    } else {
        assert(won_all(entries, seq![a]) =~= Seq::<CanteenView>::empty());
    }
}

} // verus!
