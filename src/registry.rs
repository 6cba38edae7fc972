//! The command registry: the name and identifier mapping that host and MCU
//! agree on when a session starts.
use vstd::prelude::*;

verus! {

/// The identifier that the latest entry named `name` carries.
pub open spec fn id_of(entries: Seq<(Seq<char>, u8)>, name: Seq<char>) -> Option<u8>
    decreases entries.len(),
{
    if entries.len() == 0 {
        None
    } else if entries.last().0 == name {
        Some(entries.last().1)
    } else {
        id_of(entries.drop_last(), name)
    }
}

/// The name that the latest entry with identifier `id` carries.
pub open spec fn name_of(entries: Seq<(Seq<char>, u8)>, id: u8) -> Option<Seq<char>>
    decreases entries.len(),
{
    if entries.len() == 0 {
        None
    } else if entries.last().1 == id {
        Some(entries.last().0)
    } else {
        name_of(entries.drop_last(), id)
    }
}

/// Maps command names to identifiers and back. A later `add` of a name or of
/// an identifier takes the place of an earlier one.
#[derive(Debug, Default)]
pub struct CommandRegistry {
    entries: Vec<(String, u8)>,
}

impl CommandRegistry {
    /// The entries in the order they were added.
    pub closed spec fn view(&self) -> Seq<(Seq<char>, u8)> {
        self.entries@.map_values(|e: (String, u8)| (e.0@, e.1))
    }

    /// Creates an empty registry.
    pub fn new() -> (r: CommandRegistry)
        ensures
            r.view() == Seq::<(Seq<char>, u8)>::empty(),
    {
        let r = CommandRegistry { entries: Vec::new() };
        assert(r.view() =~= Seq::<(Seq<char>, u8)>::empty());
        r
    }

    /// Adds the pair `name`, `id`.
    pub fn add(&mut self, name: &str, id: u8)
        ensures
            final(self).view() == old(self).view().push((name@, id)),
    {
        let owned = name.to_owned();
        self.entries.push((owned, id));
        assert(self.view() =~= old(self).view().push((name@, id)));
    }

    /// The identifier of `name`.
    pub fn get_id(&self, name: &str) -> (r: Option<u8>)
        ensures
            r == id_of(self.view(), name@),
    {
        let key: String = name.to_owned();
        let mut i: usize = self.entries.len();
        assert(self.view().subrange(0, i as int) =~= self.view());
        while i > 0
            invariant
                i <= self.entries@.len(),
                key@ == name@,
                id_of(self.view(), name@) == id_of(self.view().subrange(0, i as int), name@),
            decreases i,
        {
            let ghost pre = self.view().subrange(0, i as int);
            assert(pre.drop_last() =~= self.view().subrange(0, i - 1));
            assert(pre.last() == (self.entries@[i - 1].0@, self.entries@[i - 1].1));
            let same = self.entries[i - 1].0.eq(&key);
            if same {
                return Some(self.entries[i - 1].1);
            }
            i -= 1;
        }
        None
    }

    /// The name of the command with identifier `id`.
    pub fn get_name(&self, id: u8) -> (r: Option<&str>)
        ensures
            match name_of(self.view(), id) {
                Some(n) => r is Some && r->Some_0@ == n,
                None => r is None,
            },
    {
        let mut i: usize = self.entries.len();
        assert(self.view().subrange(0, i as int) =~= self.view());
        while i > 0
            invariant
                i <= self.entries@.len(),
                name_of(self.view(), id) == name_of(self.view().subrange(0, i as int), id),
            decreases i,
        {
            let ghost pre = self.view().subrange(0, i as int);
            assert(pre.drop_last() =~= self.view().subrange(0, i - 1));
            assert(pre.last() == (self.entries@[i - 1].0@, self.entries@[i - 1].1));
            if self.entries[i - 1].1 == id {
                return Some(self.entries[i - 1].0.as_str());
            }
            i -= 1;
        }
        None
    }
}

} // verus!
