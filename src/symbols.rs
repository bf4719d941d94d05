//! The flat table of labels and variables.
use vstd::prelude::*;

verus! {

/// The address that a label or a variable names.
#[derive(Clone, Copy, Debug, PartialEq, Eq, Structural)]
pub struct Label {
    pub address: u8,
}

impl Label {
    /// A label at `address`.
    pub fn new(address: u8) -> (r: Self)
        ensures
            r.address == address,
    {
        Self { address }
    }
}

/// Names mapped to one-byte addresses. Definitions are kept in the order they
/// were made; a later definition of a name replaces an earlier one.
pub struct SymbolTable {
    entries: Vec<(Vec<char>, Label)>,
}

/// The map that the definitions `e`, made in order, leave behind.
pub open spec fn defined(e: Seq<(Seq<char>, u8)>) -> Map<Seq<char>, u8>
    decreases e.len(),
{
    if e.len() == 0 {
        Map::empty()
    } else {
        defined(e.drop_last()).insert(e.last().0, e.last().1)
    }
}

proof fn lemma_defined_skip(e: Seq<(Seq<char>, u8)>, k: int, name: Seq<char>)
    requires
        0 <= k <= e.len(),
        forall|j: int| k <= j < e.len() ==> (#[trigger] e[j]).0 != name,
    ensures
        defined(e).contains_key(name) == defined(e.subrange(0, k)).contains_key(name),
        defined(e).contains_key(name) ==> defined(e)[name] == defined(e.subrange(0, k))[name],
    decreases e.len() - k,
{
    if k == e.len() {
        assert(e.subrange(0, k) =~= e);
    } else {
        let d = e.drop_last();
        assert forall|j: int| k <= j < d.len() implies (#[trigger] d[j]).0 != name by {
            assert(d[j] == e[j]);
        }
        lemma_defined_skip(d, k, name);
        assert(d.subrange(0, k) =~= e.subrange(0, k));
    }
}

impl SymbolTable {
    pub closed spec fn entries_view(&self) -> Seq<(Seq<char>, u8)> {
        self.entries@.map_values(|e: (Vec<char>, Label)| (e.0@, e.1.address))
    }

    /// The names defined so far and their addresses.
    pub closed spec fn view(&self) -> Map<Seq<char>, u8> {
        defined(self.entries_view())
    }

    /// A table with no names in it.
    pub fn new() -> (r: Self)
        ensures
            r@ == Map::<Seq<char>, u8>::empty(),
    {
        let r = SymbolTable { entries: Vec::new() };
        assert(r.entries_view() =~= Seq::<(Seq<char>, u8)>::empty());
        r
    }

    /// Defines `name` as `label`, replacing any earlier definition.
    pub fn insert(&mut self, name: Vec<char>, label: Label)
        ensures
            final(self)@ == old(self)@.insert(name@, label.address),
    {
        let ghost before = self.entries_view();
        let ghost n = name@;
        self.entries.push((name, label));
        assert(self.entries_view().drop_last() =~= before);
        assert(self.entries_view().last() == (n, label.address));
    }

    /// The label defined under `name`, if any.
    pub fn get(&self, name: &Vec<char>) -> (r: Option<Label>)
        ensures
            match r {
                Some(l) => self@.contains_key(name@) && self@[name@] == l.address,
                None => !self@.contains_key(name@),
            },
    {
        let ghost e = self.entries_view();
        let mut i: usize = self.entries.len();
        while i > 0
            invariant
                i <= self.entries@.len(),
                e == self.entries_view(),
                forall|j: int| i <= j < e.len() ==> (#[trigger] e[j]).0 != name@,
            decreases i,
        {
            let k = i - 1;
            let entry = &self.entries[k];
            let mut same = entry.0.len() == name.len();
            let mut c: usize = 0;
            while same && c < name.len()
                invariant
                    entry == self.entries@[k as int],
                    entry.0@.len() == name@.len() || !same,
                    c <= name@.len(),
                    same ==> forall|x: int| 0 <= x < c ==> entry.0@[x] == name@[x],
                    !same ==> entry.0@ != name@,
                decreases name@.len() - c,
            {
                if entry.0[c] != name[c] {
                    same = false;
                }
                c = c + 1;
            }
            if same {
                assert(entry.0@ =~= name@);
                proof {
                    lemma_defined_skip(e, i as int, name@);
                    let p = e.subrange(0, i as int);
                    assert(p.drop_last() =~= e.subrange(0, k as int));
                    assert(p.last() == e[k as int]);
                }
                return Some(entry.1);
            }
            i = k;
        }
        proof {
            lemma_defined_skip(e, 0, name@);
            assert(e.subrange(0, 0) =~= Seq::<(Seq<char>, u8)>::empty());
        }
        None
    }
}

} // verus!
