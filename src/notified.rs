use vstd::prelude::*;

use vstd::seq_lib::lemma_seq_contains_after_push;

use crate::text::{contains_str, strs_view};

verus! {

/// The ids of the tasks whose reminder has already been shown since it was last armed.
pub struct NotifiedSet {
    ids: Vec<String>,
}

impl View for NotifiedSet {
    type V = Set<Seq<char>>;

    closed spec fn view(&self) -> Set<Seq<char>> {
        strs_view(self.ids@).to_set()
    }
}

impl NotifiedSet {
    pub fn new() -> (r: Self)
        ensures
            r@ == Set::<Seq<char>>::empty(),
    {
        let r = NotifiedSet { ids: Vec::new() };
        assert(r@ =~= Set::<Seq<char>>::empty());
        r
    }

    pub fn contains(&self, id: &String) -> (r: bool)
        ensures
            r == self@.contains(id@),
    {
        contains_str(&self.ids, id)
    }

    /// Records that the reminder of `id` has been shown.
    pub fn insert(&mut self, id: String)
        ensures
            final(self)@ == old(self)@.insert(id@),
    {
        let ghost before = strs_view(self.ids@);
        if !contains_str(&self.ids, &id) {
            self.ids.push(id);
            assert(strs_view(self.ids@) =~= before.push(id@));
            assert(self@ =~= before.to_set().insert(id@)) by {
                assert forall|x: Seq<char>|
                    before.push(id@).contains(x) == (before.contains(x) || x == id@) by {
                    if before.push(id@).contains(x) && x != id@ {
                        let k = choose|k: int|
                            0 <= k < before.len() + 1 && before.push(id@)[k] == x;
                        assert(before[k] == x);
                    }
                    if before.contains(x) {
                        let k = choose|k: int| 0 <= k < before.len() && before[k] == x;
                        assert(before.push(id@)[k] == x);
                    }
                    if x == id@ {
                        assert(before.push(id@)[before.len() as int] == x);
                    }
                }
            }
        } else {
            assert(self@ =~= self@.insert(id@));
        }
    }

    /// Keeps the ids that are in `others` exactly when `keep_members`.
    fn keep_where(&mut self, others: &Vec<String>, keep_members: bool)
        ensures
            final(self)@ == old(self)@.filter(membership_sel(strs_view(others@), keep_members)),
    {
        let ghost before = strs_view(self.ids@);
        let ghost ov = strs_view(others@);
        let mut kept: Vec<String> = Vec::new();
        let mut i: usize = 0;
        while i < self.ids.len()
            invariant
                before == strs_view(self.ids@),
                ov == strs_view(others@),
                0 <= i <= before.len(),
                forall|x: Seq<char>|
                    #[trigger] strs_view(kept@).contains(x) == (before.take(i as int).contains(x)
                        && ov.contains(x) == keep_members),
            decreases before.len() - i,
        {
            let ghost kv = strs_view(kept@);
            let member = contains_str(others, &self.ids[i]);
            assert(self.ids@[i as int]@ == before[i as int]);
            assert(member == ov.contains(before[i as int]));
            if member == keep_members {
                kept.push(self.ids[i].clone());
            }
            proof {
                let t1 = before.take(i + 1);
                let t0 = before.take(i as int);
                assert(t1 =~= t0.push(before[i as int]));
                if member == keep_members {
                    assert(strs_view(kept@) =~= kv.push(before[i as int]));
                } else {
                    assert(strs_view(kept@) =~= kv);
                }
                assert forall|x: Seq<char>|
                    strs_view(kept@).contains(x) == (t1.contains(x) && ov.contains(x)
                        == keep_members) by {
                    lemma_seq_contains_after_push(t0, before[i as int], x);
                    lemma_seq_contains_after_push(kv, before[i as int], x);
                    assert(kv.contains(x) == (t0.contains(x) && ov.contains(x) == keep_members));
                }
            }
            i += 1;
        }
        assert(before.take(before.len() as int) =~= before);
        self.ids = kept;
        assert forall|x: Seq<char>|
            #[trigger] self@.contains(x) == before.to_set().filter(
                membership_sel(ov, keep_members),
            ).contains(x) by {
            assert(strs_view(kept@).contains(x) == (before.contains(x) && ov.contains(x)
                == keep_members));
        }
        assert(self@ =~= before.to_set().filter(membership_sel(ov, keep_members)));
    }

    /// Forgets the ids in `ids`: their reminders may be shown again.
    pub fn remove_all(&mut self, ids: &Vec<String>)
        ensures
            final(self)@ == old(self)@.difference(strs_view(ids@).to_set()),
    {
        self.keep_where(ids, false);
        assert(self@ =~= old(self)@.difference(strs_view(ids@).to_set()));
    }

    /// Forgets `id`.
    pub fn remove(&mut self, id: &String)
        ensures
            final(self)@ == old(self)@.remove(id@),
    {
        let mut one: Vec<String> = Vec::new();
        one.push(id.clone());
        assert(strs_view(one@) =~= seq![id@]);
        self.remove_all(&one);
        assert(self@ =~= old(self)@.remove(id@)) by {
            assert forall|x: Seq<char>| seq![id@].contains(x) == (x == id@) by {
                if x == id@ {
                    assert(seq![id@][0] == x);
                }
            }
        }
    }

    /// Keeps only the ids in `ids`.
    pub fn retain_in(&mut self, ids: &Vec<String>)
        ensures
            final(self)@ == old(self)@.intersect(strs_view(ids@).to_set()),
    {
        self.keep_where(ids, true);
        assert(self@ =~= old(self)@.intersect(strs_view(ids@).to_set()));
    }
}

pub open spec fn membership_sel(others: Seq<Seq<char>>, keep_members: bool) -> spec_fn(
    Seq<char>,
) -> bool {
    |x: Seq<char>| others.contains(x) == keep_members
}

} // verus!
