use vstd::pervasive::VecAdditionalExecFns;
use vstd::prelude::*;

verus! {

/// The global variable table: a name-to-value mapping, created lazily on
/// first assignment. Held as name-value pairs in order of first
/// assignment; the view is the mapping they build up, where the latest
/// assignment to a name wins.
pub struct VarTable {
    entries: Vec<(String, u64)>,
}

/// The mapping a sequence of name-value pairs builds up; the latest pair
/// for a name wins.
pub open spec fn table_view(entries: Seq<(String, u64)>) -> Map<Seq<char>, u64>
    decreases entries.len(),
{
    if entries.len() == 0 {
        Map::empty()
    } else {
        table_view(entries.drop_last()).insert(entries.last().0@, entries.last().1)
    }
}

impl View for VarTable {
    type V = Map<Seq<char>, u64>;

    closed spec fn view(&self) -> Map<Seq<char>, u64> {
        table_view(self.entries@)
    }
}

/// The most recent assignment to a name decides its value in the mapping;
/// a name never assigned is absent.
proof fn lemma_table_view_lookup(entries: Seq<(String, u64)>, name: Seq<char>, i: int)
    requires
        0 <= i < entries.len(),
        entries[i].0@ == name,
        forall|j: int| i < j < entries.len() ==> #[trigger] entries[j].0@ != name,
    ensures
        table_view(entries).contains_key(name),
        table_view(entries)[name] == entries[i].1,
    decreases entries.len(),
{
    if i + 1 < entries.len() {
        lemma_table_view_lookup(entries.drop_last(), name, i);
    }
}

/// Overwriting the latest entry for a name rebinds the name and nothing
/// else.
proof fn lemma_table_view_update(
    entries: Seq<(String, u64)>,
    name: Seq<char>,
    replacement: (String, u64),
    i: int,
)
    requires
        0 <= i < entries.len(),
        entries[i].0@ == name,
        forall|j: int| i < j < entries.len() ==> #[trigger] entries[j].0@ != name,
        replacement.0@ == name,
    ensures
        table_view(entries.update(i, replacement)) == table_view(entries).insert(
            name,
            replacement.1,
        ),
    decreases entries.len(),
{
    let updated = entries.update(i, replacement);
    if i + 1 < entries.len() {
        assert(updated.drop_last() =~= entries.drop_last().update(i, replacement));
        lemma_table_view_update(entries.drop_last(), name, replacement, i);
        assert(table_view(entries.drop_last()).insert(name, replacement.1).insert(
            entries.last().0@,
            entries.last().1,
        ) =~= table_view(entries.drop_last()).insert(entries.last().0@, entries.last().1).insert(
            name,
            replacement.1,
        ));
    } else {
        assert(updated.drop_last() =~= entries.drop_last());
        assert(table_view(entries.drop_last()).insert(name, replacement.1) =~= table_view(
            entries.drop_last(),
        ).insert(name, entries.last().1).insert(name, replacement.1));
    }
}

/// A name that no entry carries is absent from the mapping.
proof fn lemma_table_view_absent(entries: Seq<(String, u64)>, name: Seq<char>)
    requires
        forall|j: int| 0 <= j < entries.len() ==> #[trigger] entries[j].0@ != name,
    ensures
        !table_view(entries).contains_key(name),
    decreases entries.len(),
{
    if entries.len() > 0 {
        lemma_table_view_absent(entries.drop_last(), name);
    }
}

impl VarTable {
    /// An empty table.
    pub fn new() -> (r: VarTable)
        ensures
            r@ == Map::<Seq<char>, u64>::empty(),
    {
        VarTable { entries: Vec::new() }
    }

    /// Binds `name` to `value`: overwrites the name's entry if it has
    /// one, and appends a fresh entry on its first assignment.
    pub fn insert(&mut self, name: String, value: u64)
        ensures
            final(self)@ == old(self)@.insert(name@, value),
    {
        let ghost name_view = name@;
        let mut i: usize = self.entries.len();
        while i > 0
            invariant
                i <= self.entries.len(),
                self.entries == old(self).entries,
                name_view == name@,
                forall|j: int| i <= j < self.entries.len()
                    ==> #[trigger] self.entries@[j].0@ != name_view,
            decreases i,
        {
            i = i - 1;
            if self.entries[i].0.eq(&name) {
                self.entries.set(i, (name, value));
                proof {
                    lemma_table_view_update(
                        old(self).entries@,
                        name_view,
                        self.entries@[i as int],
                        i as int,
                    );
                }
                return;
            }
        }
        self.entries.push((name, value));
        proof {
            assert(self.entries@.drop_last() =~= old(self).entries@);
        }
    }

    /// The value bound to `name`, or `None` before its first assignment.
    pub fn lookup(&self, name: &String) -> (r: Option<u64>)
        ensures
            r == if self@.contains_key(name@) {
                Some(self@[name@])
            } else {
                None::<u64>
            },
    {
        let mut i: usize = self.entries.len();
        while i > 0
            invariant
                i <= self.entries.len(),
                forall|j: int| i <= j < self.entries.len()
                    ==> #[trigger] self.entries@[j].0@ != name@,
            decreases i,
        {
            i = i - 1;
            if self.entries[i].0.eq(name) {
                proof {
                    lemma_table_view_lookup(self.entries@, name@, i as int);
                }
                return Some(self.entries[i].1);
            }
        }
        proof {
            lemma_table_view_absent(self.entries@, name@);
        }
        None
    }
}

} // verus!
