use vstd::prelude::*;

verus! {

/// `i` is the last position of `name` in `ids`.
pub open spec fn is_last_index(ids: Seq<Seq<char>>, name: Seq<char>, i: int) -> bool {
    &&& 0 <= i < ids.len()
    &&& ids[i] == name
    &&& forall|j: int| i < j < ids.len() ==> ids[j] != name
}

/// When no name occurs twice, the last position of `ids[i]` is `i`.
pub proof fn lemma_unique_last_index(ids: Seq<Seq<char>>, i: int, j: int)
    requires
        ids.no_duplicates(),
        0 <= i < ids.len(),
        is_last_index(ids, ids[i], j),
    ensures
        j == i,
{
    if j != i {
        assert(ids[j] == ids[i]);
    }
}

/// Names in registration order; a name registered twice resolves to its
/// last registration (later registrations overwrite earlier ones).
#[derive(Debug)]
pub struct NameIndex {
    names: Vec<String>,
}

impl NameIndex {
    pub closed spec fn ids(&self) -> Seq<Seq<char>> {
        self.names@.map_values(|s: String| s@)
    }

    pub fn new() -> (n: NameIndex)
        ensures
            n.ids() == Seq::<Seq<char>>::empty(),
    {
        let n = NameIndex { names: Vec::new() };
        proof {
            assert(n.ids() =~= Seq::<Seq<char>>::empty());
        }
        n
    }

    pub fn push(&mut self, name: String)
        ensures
            final(self).ids() == old(self).ids().push(name@),
    {
        self.names.push(name);
        proof {
            assert(self.ids() =~= old(self).ids().push(name@));
        }
    }

    pub fn len(&self) -> (n: usize)
        ensures
            n == self.ids().len(),
    {
        self.names.len()
    }

    /// The last position of `name`, if it was registered.
    pub fn lookup(&self, name: &str) -> (r: Option<usize>)
        ensures
            match r {
                Some(i) => is_last_index(self.ids(), name@, i as int),
                None => forall|j: int| 0 <= j < self.ids().len() ==> self.ids()[j] != name@,
            },
    {
        let key: String = name.to_owned();
        let n = self.names.len();
        let mut i: usize = n;
        while i > 0
            invariant
                n == self.names@.len(),
                i <= n,
                key@ == name@,
                forall|j: int| i <= j < n ==> #[trigger] self.ids()[j] != name@,
            decreases i,
        {
            i = i - 1;
            if self.names[i].eq(&key) {
                return Some(i);
            }
        }
        None
    }
}

} // verus!
