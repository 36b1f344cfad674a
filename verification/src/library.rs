//! A library of invariants by category, and what a written library
//! entry makes of itself.

use crate::error::{InvarError, InvarErrorView};
use crate::model::{option_view, Expression, ExprView, Invariant, InvariantView};
use crate::ordmap::OrderedMap;
use vstd::prelude::*;
use vstd::string::*;

verus! {

/// A collection of invariants organized by category.
pub struct InvariantLibrary {
    /// Invariants by category.
    pub categories: OrderedMap<Vec<Invariant>>,
}

/// The invariants of the first `n` categories, one category after
/// another.
pub open spec fn flattened(lists: Seq<Vec<Invariant>>, n: nat) -> Seq<Invariant>
    decreases n,
{
    if n == 0 || n > lists.len() {
        Seq::<Invariant>::empty()
    } else {
        flattened(lists, (n - 1) as nat) + lists[n - 1]@
    }
}

impl InvariantLibrary {
    /// Every invariant of the library: category by category in the order
    /// of the categories' names, and in each category in the order in
    /// which they were added.
    pub open spec fn everything(self) -> Seq<Invariant> {
        flattened(self.categories.values(), self.categories.values().len())
    }

    /// Create a new empty library.
    pub fn new() -> (l: Self)
        ensures
            l.categories@ == Map::<Seq<char>, Vec<Invariant>>::empty(),
    {
        InvariantLibrary { categories: OrderedMap::new() }
    }

    /// Add an invariant to the library, at the end of its category.
    pub fn add(&mut self, category: String, item: Invariant)
        ensures
            final(self).categories@.dom() == old(self).categories@.dom().insert(category@),
            final(self).categories@[category@]@ == (if old(self).categories@.contains_key(
                category@,
            ) {
                old(self).categories@[category@]@
            } else {
                Seq::<Invariant>::empty()
            }).push(item),
            forall|c: Seq<char>|
                c != category@ && old(self).categories@.contains_key(c)
                    ==> final(self).categories@[c] == old(self).categories@[c],
    {
        let mut list = match self.categories.remove(category.as_str()) {
            Some(l) => l,
            None => Vec::new(),
        };
        list.push(item);
        self.categories.insert(category, list);
        assert(self.categories@.dom() =~= old(self).categories@.dom().insert(category@));
    }

    /// Get all invariants in a category.
    pub fn get_category(&self, category: &str) -> (r: Option<&[Invariant]>)
        ensures
            match r {
                Some(list) => self.categories@.contains_key(category@) && list@
                    == self.categories@[category@]@,
                None => !self.categories@.contains_key(category@),
            },
    {
        match self.categories.get(category) {
            Some(v) => Some(v.as_slice()),
            None => None,
        }
    }

    /// Get all invariants.
    pub fn all(&self) -> (r: Vec<&Invariant>)
        ensures
            r.len() == self.everything().len(),
            forall|i: int| 0 <= i < r.len() ==> *r@[i] == self.everything()[i],
    {
        let n = self.categories.len();
        let ghost lists = self.categories.values();
        let mut out: Vec<&Invariant> = Vec::new();
        let mut i: usize = 0;
        while i < n
            invariant
                i <= n,
                n == self.categories.keys().len(),
                n == lists.len(),
                lists == self.categories.values(),
                out.len() == flattened(lists, i as nat).len(),
                forall|k: int| 0 <= k < out.len() ==> *out@[k] == flattened(lists, i as nat)[k],
            decreases n - i,
        {
            let list = self.categories.value_at(i);
            let ghost before = flattened(lists, i as nat);
            let mut j: usize = 0;
            while j < list.len()
                invariant
                    j <= list.len(),
                    out.len() == before.len() + j,
                    forall|k: int| 0 <= k < before.len() ==> *out@[k] == before[k],
                    forall|k: int| 0 <= k < j ==> *out@[before.len() + k] == list@[k],
                decreases list.len() - j,
            {
                out.push(&list[j]);
                j += 1;
            }
            i += 1;
        }
        out
    }

    /// Count total invariants.
    pub fn count(&self) -> (n: usize)
        ensures
            n == self.everything().len(),
    {
        self.all().len()
    }
}

impl Default for InvariantLibrary {
    fn default() -> (l: Self)
        ensures
            l.categories@ == Map::<Seq<char>, Vec<Invariant>>::empty(),
    {
        Self::new()
    }
}

/// What a library file says of one invariant, as far as the library reads
/// it: whether the entry is a table, and the texts of its fields where it
/// has them as strings.
#[derive(Debug, Clone)]
pub struct InvariantEntry {
    /// Whether the entry is a table.
    pub is_table: bool,
    /// The `name` field.
    pub name: Option<String>,
    /// The `expression` field.
    pub expression: Option<String>,
    /// The `severity` field.
    pub severity: Option<String>,
    /// The `category` field.
    pub category: Option<String>,
    /// The `description` field.
    pub description: Option<String>,
}

/// The text of an optional field, or a default.
pub open spec fn field_or(field: Option<String>, default: Seq<char>) -> Seq<char> {
    match field {
        Some(s) => s@,
        None => default,
    }
}

/// The invariant that an entry stands for. An entry must be a table with
/// a name and an expression; severity defaults to `medium` and category
/// to `general`. The expression's text is not read: the invariant's
/// condition is the constant true.
pub open spec fn entry_outcome(entry: InvariantEntry) -> Result<InvariantView, InvarErrorView> {
    if !entry.is_table {
        Err(InvarErrorView::ConfigError("Invariant must be a table"@))
    } else if entry.name is None {
        Err(InvarErrorView::ConfigError("Invariant must have a 'name' field"@))
    } else if entry.expression is None {
        Err(InvarErrorView::ConfigError("Invariant must have an 'expression' field"@))
    } else {
        Ok(
            InvariantView {
                name: entry.name->0@,
                description: option_view(entry.description),
                expression: ExprView::Boolean(true),
                severity: field_or(entry.severity, "medium"@),
                category: field_or(entry.category, "general"@),
                is_always_true: true,
                layers: Seq::<Seq<char>>::empty(),
                phases: Seq::<Seq<char>>::empty(),
            },
        )
    }
}

/// The view of the result of reading an entry.
pub open spec fn entry_result(r: Result<Invariant, InvarError>) -> Result<
    InvariantView,
    InvarErrorView,
> {
    match r {
        Ok(inv) => Ok(inv@),
        Err(e) => Err(e@),
    }
}

/// Among the first `n` entries, in order, the invariants of those that
/// stand for one.
pub open spec fn loaded(entries: Seq<InvariantEntry>, n: nat) -> Seq<InvariantView>
    decreases n,
{
    if n == 0 || n > entries.len() {
        Seq::<InvariantView>::empty()
    } else {
        match entry_outcome(entries[n - 1]) {
            Ok(inv) => loaded(entries, (n - 1) as nat).push(inv),
            Err(_) => loaded(entries, (n - 1) as nat),
        }
    }
}

fn text_or(field: &Option<String>, default: &str) -> (s: String)
    ensures
        s@ == field_or(*field, default@),
{
    match field {
        Some(s) => s.clone(),
        None => String::from_str(default),
    }
}

/// Loads invariants from what a library file says.
pub struct LibraryLoader;

impl LibraryLoader {
    /// The invariant that one entry of a library file stands for.
    pub fn parse_invariant_table(entry: &InvariantEntry) -> (r: Result<Invariant, InvarError>)
        ensures
            entry_result(r) == entry_outcome(*entry),
    {
        if !entry.is_table {
            return Err(InvarError::ConfigError(String::from_str("Invariant must be a table")));
        }
        let name = match &entry.name {
            Some(n) => n.clone(),
            None => {
                return Err(
                    InvarError::ConfigError(
                        String::from_str("Invariant must have a 'name' field"),
                    ),
                );
            },
        };
        if entry.expression.is_none() {
            return Err(
                InvarError::ConfigError(
                    String::from_str("Invariant must have an 'expression' field"),
                ),
            );
        }
        let layers: Vec<String> = Vec::new();
        let phases: Vec<String> = Vec::new();
        let inv = Invariant {
            name,
            description: crate::model::copy_option(&entry.description),
            expression: Expression::Boolean(true),
            severity: text_or(&entry.severity, "medium"),
            category: text_or(&entry.category, "general"),
            is_always_true: true,
            layers,
            phases,
        };
        proof {
            assert(inv@.layers =~= Seq::<Seq<char>>::empty());
            assert(inv@.phases =~= Seq::<Seq<char>>::empty());
        }
        Ok(inv)
    }

    /// The invariants of a library file's entries, in the order of the
    /// file. An entry that does not stand for an invariant is passed
    /// over.
    pub fn load_entries(entries: &[InvariantEntry]) -> (r: Vec<Invariant>)
        ensures
            crate::generator::invariants_view(r@) == loaded(entries@, entries.len() as nat),
    {
        let mut out: Vec<Invariant> = Vec::new();
        let mut i: usize = 0;
        proof {
            assert(crate::generator::invariants_view(out@) =~= loaded(entries@, 0));
        }
        while i < entries.len()
            invariant
                i <= entries.len(),
                crate::generator::invariants_view(out@) == loaded(entries@, i as nat),
            decreases entries.len() - i,
        {
            match Self::parse_invariant_table(&entries[i]) {
                Ok(inv) => {
                    proof {
                        assert(crate::generator::invariants_view(out@.push(inv))
                            =~= crate::generator::invariants_view(out@).push(inv@));
                    }
                    out.push(inv);
                },
                Err(_) => {},
            }
            i += 1;
        }
        out
    }
}

} // verus!
