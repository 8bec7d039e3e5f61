use vstd::prelude::*;

verus! {

/// A remote operation to perform when a rule matches: switch the lighting
/// daemon to a named profile, or to a numbered slot.
#[derive(Debug, PartialEq)]
pub enum Action {
    SwitchToProfile { profile_name: String },
    SwitchToSlot { slot_index: usize },
}

/// Mathematical model of an [`Action`]: the profile name as a character
/// sequence, or the slot index as a natural number.
pub enum ActionModel {
    Profile { name: Seq<char> },
    Slot { index: nat },
}

impl View for Action {
    type V = ActionModel;

    open spec fn view(&self) -> ActionModel {
        match self {
            Action::SwitchToProfile { profile_name } => ActionModel::Profile {
                name: profile_name@,
            },
            Action::SwitchToSlot { slot_index } => ActionModel::Slot {
                index: *slot_index as nat,
            },
        }
    }
}

impl Clone for Action {
    fn clone(&self) -> (r: Self)
        ensures
            r@ == self@,
    {
        match self {
            Action::SwitchToProfile { profile_name } => Action::SwitchToProfile {
                profile_name: profile_name.clone(),
            },
            Action::SwitchToSlot { slot_index } => Action::SwitchToSlot {
                slot_index: *slot_index,
            },
        }
    }
}

/// The rule mapping that a sequence of (path, action) entries denotes:
/// later entries overwrite earlier ones with the same path.
pub open spec fn entries_map(s: Seq<(Seq<char>, ActionModel)>) -> Map<Seq<char>, ActionModel>
    decreases s.len(),
{
    if s.len() == 0 {
        Map::empty()
    } else {
        entries_map(s.drop_last()).insert(s.last().0, s.last().1)
    }
}

/// Entry sequences are well formed when no two entries share a path.
pub open spec fn entries_wf(s: Seq<(Seq<char>, ActionModel)>) -> bool {
    forall|i: int, j: int| 0 <= i < j < s.len() ==> s[i].0 != s[j].0
}

/// In-memory mapping from executable path to [`Action`], the table consulted
/// by the dispatch loop and mutated by administrative commands.  The backing
/// store keeps entries in insertion order; the table's meaning is the
/// order-independent mapping [`RuleTable::view`].
#[derive(Debug)]
pub struct RuleTable {
    entries: Vec<(String, Action)>,
}

impl View for RuleTable {
    type V = Map<Seq<char>, ActionModel>;

    closed spec fn view(&self) -> Map<Seq<char>, ActionModel> {
        entries_map(self.entries_seq())
    }
}

proof fn lemma_entries_map_domain(s: Seq<(Seq<char>, ActionModel)>)
    ensures
        forall|k: Seq<char>|
            #[trigger] entries_map(s).contains_key(k) <==> exists|i: int|
                0 <= i < s.len() && s[i].0 == k,
    decreases s.len(),
{
    if s.len() > 0 {
        lemma_entries_map_domain(s.drop_last());
        assert forall|k: Seq<char>| #[trigger]
            entries_map(s).contains_key(k) implies exists|i: int|
            0 <= i < s.len() && s[i].0 == k by {
            if k == s.last().0 {
                assert(s[s.len() - 1].0 == k);
            } else {
                assert(entries_map(s.drop_last()).contains_key(k));
                let i = choose|i: int| 0 <= i < s.drop_last().len() && s.drop_last()[i].0 == k;
                assert(s[i].0 == k);
            }
        }
        assert forall|k: Seq<char>| (exists|i: int|
            0 <= i < s.len() && s[i].0 == k) implies #[trigger] entries_map(s).contains_key(k) by {
            let i = choose|i: int| 0 <= i < s.len() && s[i].0 == k;
            if i < s.len() - 1 {
                assert(s.drop_last()[i].0 == k);
                assert(entries_map(s.drop_last()).contains_key(k));
            }
        }
    }
}

proof fn lemma_entries_map_at(s: Seq<(Seq<char>, ActionModel)>, i: int)
    requires
        entries_wf(s),
        0 <= i < s.len(),
    ensures
        entries_map(s).contains_key(s[i].0),
        entries_map(s)[s[i].0] == s[i].1,
    decreases s.len(),
{
    if i == s.len() - 1 {
    } else {
        lemma_entries_map_at(s.drop_last(), i);
        assert(s.drop_last()[i] == s[i]);
        assert(s[i].0 != s.last().0);
    }
}

impl RuleTable {
    /// The table's entries, in insertion order, as a mathematical sequence.
    pub closed spec fn entries_seq(&self) -> Seq<(Seq<char>, ActionModel)> {
        self.entries@.map_values(|e: (String, Action)| (e.0@, e.1@))
    }

    /// At most one entry per path.
    pub open spec fn wf(&self) -> bool {
        entries_wf(self.entries_seq())
    }

    /// An empty table.
    pub fn new() -> (r: RuleTable)
        ensures
            r.wf(),
            r@ == Map::<Seq<char>, ActionModel>::empty(),
            r.entries_seq().len() == 0,
    {
        RuleTable { entries: Vec::new() }
    }

    /// Number of rules held.
    pub fn len(&self) -> (n: usize)
        ensures
            n == self.entries_seq().len(),
    {
        self.entries.len()
    }

    /// The entry at a given position, in insertion order.
    pub fn entry_at(&self, i: usize) -> (r: (&String, &Action))
        requires
            i < self.entries_seq().len(),
        ensures
            (r.0@, r.1@) == self.entries_seq()[i as int],
    {
        let e = &self.entries[i];
        (&e.0, &e.1)
    }

    /// Pure lookup: the action registered for an executable path, if any.
    pub fn get(&self, path: &String) -> (r: Option<&Action>)
        requires
            self.wf(),
        ensures
            match r {
                Some(a) => self@.contains_key(path@) && self@[path@] == a@,
                None => !self@.contains_key(path@),
            },
    {
        let ghost s = self.entries_seq();
        let n = self.entries.len();
        for i in 0..n
            invariant
                n == s.len(),
                self.wf(),
                s == self.entries_seq(),
                forall|j: int| 0 <= j < i ==> s[j].0 != path@,
        {
            if self.entries[i].0 == *path {
                proof {
                    lemma_entries_map_at(s, i as int);
                }
                return Some(&self.entries[i].1);
            }
        }
        proof {
            lemma_entries_map_domain(s);
        }
        None
    }

    /// Register `action` for `path`, overwriting any action the path had.
    pub fn upsert(&mut self, path: String, action: Action)
        requires
            old(self).wf(),
        ensures
            final(self).wf(),
            final(self)@ == old(self)@.insert(path@, action@),
    {
        let ghost s0 = self.entries_seq();
        let n = self.entries.len();
        for i in 0..n
            invariant
                n == s0.len(),
                s0 == self.entries_seq(),
                s0 == old(self).entries_seq(),
                entries_wf(s0),
                forall|j: int| 0 <= j < i ==> s0[j].0 != path@,
        {
            if self.entries[i].0 == path {
                let ghost kept = s0;
                let ghost pv = path@;
                let ghost av = action@;
                proof {
                    assert(kept[i as int].0 == pv);
                }
                self.entries.set(i, (path, action));
                proof {
                    let s1 = self.entries_seq();
                    assert(s1 =~= kept.update(i as int, (kept[i as int].0, av)));
                    lemma_entries_map_update(kept, i as int, av);
                    assert(self@ == entries_map(kept).insert(pv, av));
                }
                return ;
            }
        }
        self.entries.push((path, action));
        proof {
            let s1 = self.entries_seq();
            assert(s1 =~= s0.push((path@, action@)));
            assert(s1.drop_last() =~= s0);
            lemma_entries_map_domain(s0);
            assert forall|i: int, j: int| 0 <= i < j < s1.len() implies s1[i].0 != s1[j].0 by {
                if j == s1.len() - 1 {
                    assert(s1[i].0 != path@);
                }
            }
        }
    }

    /// Remove the entry at `index`; out-of-range indices leave the table
    /// unchanged.
    pub fn remove(&mut self, index: usize)
        requires
            old(self).wf(),
        ensures
            final(self).wf(),
            index < old(self).entries_seq().len() ==> final(self)@ == old(self)@.remove(
                old(self).entries_seq()[index as int].0,
            ),
            index >= old(self).entries_seq().len() ==> *final(self) == *old(self),
    {
        let ghost s0 = self.entries_seq();
        if index < self.entries.len() {
            self.entries.remove(index);
            proof {
                let s1 = self.entries_seq();
                assert(s1 =~= s0.remove(index as int));
                lemma_entries_map_remove(s0, index as int);
            }
        }
    }
}

proof fn lemma_entries_map_update(s: Seq<(Seq<char>, ActionModel)>, i: int, a: ActionModel)
    requires
        entries_wf(s),
        0 <= i < s.len(),
    ensures
        entries_wf(s.update(i, (s[i].0, a))),
        entries_map(s.update(i, (s[i].0, a))) == entries_map(s).insert(s[i].0, a),
    decreases s.len(),
{
    let t = s.update(i, (s[i].0, a));
    assert forall|p: int, q: int| 0 <= p < q < t.len() implies t[p].0 != t[q].0 by {
        assert(t[p].0 == s[p].0 && t[q].0 == s[q].0);
    }
    if i == s.len() - 1 {
        assert(t.drop_last() =~= s.drop_last());
        assert(entries_map(t) == entries_map(s.drop_last()).insert(s[i].0, a));
        assert(entries_map(s.drop_last()).insert(s[i].0, a) =~= entries_map(s).insert(s[i].0, a));
    } else {
        lemma_entries_map_update(s.drop_last(), i, a);
        assert(t.drop_last() =~= s.drop_last().update(i, (s[i].0, a)));
        assert(s.drop_last()[i] == s[i]);
        assert(t.last() == s.last());
        assert(entries_map(t) == entries_map(s.drop_last()).insert(s[i].0, a).insert(
            s.last().0,
            s.last().1,
        ));
        assert(s[i].0 != s.last().0);
        assert(entries_map(s.drop_last()).insert(s[i].0, a).insert(s.last().0, s.last().1)
            =~= entries_map(s).insert(s[i].0, a));
    }
}

proof fn lemma_entries_map_remove(s: Seq<(Seq<char>, ActionModel)>, i: int)
    requires
        entries_wf(s),
        0 <= i < s.len(),
    ensures
        entries_wf(s.remove(i)),
        entries_map(s.remove(i)) == entries_map(s).remove(s[i].0),
    decreases s.len(),
{
    let t = s.remove(i);
    assert forall|p: int, q: int| 0 <= p < q < t.len() implies t[p].0 != t[q].0 by {
        let p0: int = if p < i {
            p
        } else {
            p + 1
        };
        let q0: int = if q < i {
            q
        } else {
            q + 1
        };
        assert(t[p].0 == s[p0].0 && t[q].0 == s[q0].0);
    }
    if i == s.len() - 1 {
        assert(t =~= s.drop_last());
        lemma_entries_map_domain(s.drop_last());
        assert(forall|j: int| 0 <= j < s.len() - 1 ==> s[j].0 != s[i].0);
        assert(!entries_map(s.drop_last()).contains_key(s[i].0));
        assert(entries_map(t) =~= entries_map(s).remove(s[i].0));
    } else {
        lemma_entries_map_remove(s.drop_last(), i);
        assert(t.drop_last() =~= s.drop_last().remove(i));
        assert(t.last() == s.last());
        assert(s.drop_last()[i] == s[i]);
        assert(entries_map(t) == entries_map(s.drop_last()).remove(s[i].0).insert(
            s.last().0,
            s.last().1,
        ));
        assert(s[i].0 != s.last().0);
        assert(entries_map(s.drop_last()).remove(s[i].0).insert(s.last().0, s.last().1)
            =~= entries_map(s).remove(s[i].0));
    }
}

/// Administrative rule addition.  Exactly two arguments — executable path and
/// profile name — install a profile-switch rule; any other argument count is
/// rejected and the table is left untouched.
pub fn rule_add(table: &mut RuleTable, args: &Vec<String>) -> (accepted: bool)
    requires
        old(table).wf(),
    ensures
        final(table).wf(),
        args@.len() == 2 ==> accepted && final(table)@ == old(table)@.insert(
            args@[0]@,
            ActionModel::Profile { name: args@[1]@ },
        ),
        args@.len() != 2 ==> !accepted && *final(table) == *old(table),
{
    if args.len() != 2 {
        false
    } else {
        let exe_file = args[0].clone();
        let profile_name = args[1].clone();
        table.upsert(exe_file, Action::SwitchToProfile { profile_name });
        true
    }
}

/// A slot index that the executable representation can hold.
pub open spec fn action_bounded(a: ActionModel) -> bool {
    match a {
        ActionModel::Profile { .. } => true,
        ActionModel::Slot { index } => index <= usize::MAX as nat,
    }
}

/// Every action a table holds came from an executable value, so its slot
/// index fits.
pub proof fn lemma_table_actions_bounded(t: &RuleTable)
    ensures
        forall|i: int|
            0 <= i < t.entries_seq().len() ==> action_bounded(#[trigger] t.entries_seq()[i].1),
{
    assert forall|i: int|
        0 <= i < t.entries_seq().len() implies action_bounded(
        #[trigger] t.entries_seq()[i].1,
    ) by {
        let e = t.entries@[i];
        assert(t.entries_seq()[i] == (e.0@, e.1@));
        match e.1 {
            Action::SwitchToProfile { .. } => {
            },
            Action::SwitchToSlot { slot_index } => {
                assert(slot_index <= usize::MAX);
            },
        }
    }
}

} // verus!

