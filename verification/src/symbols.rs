//! The phoneme symbol table.
//!
//! A fixed mapping from phoneme symbol to integer id, built once and
//! immutable afterwards.  Its contract asks for two things only: ids are
//! unique, and every symbol a phonemizer can emit is present — an unknown
//! symbol is a hard error for the request, never silently dropped.

use vstd::prelude::*;
use vstd::string::StringExecFns;
use crate::TtsError;

verus! {

/// Immutable mapping from phoneme symbol to integer id.
pub struct SymbolTable {
    entries: Vec<(String, i64)>,
}

/// The id of `name` among `entries`, searching front to back.
pub open spec fn lookup_in(entries: Seq<(Seq<char>, i64)>, name: Seq<char>) -> Option<i64>
    decreases entries.len(),
{
    if entries.len() == 0 {
        None
    } else if entries[0].0 == name {
        Some(entries[0].1)
    } else {
        lookup_in(entries.drop_first(), name)
    }
}

/// Maps each symbol of `phones` to its id; `None` as soon as one is unknown.
pub open spec fn ids_of(entries: Seq<(Seq<char>, i64)>, phones: Seq<Seq<char>>) -> Option<Seq<i64>>
    decreases phones.len(),
{
    if phones.len() == 0 {
        Some(Seq::empty())
    } else {
        match lookup_in(entries, phones[0]) {
            None => None,
            Some(id) => match ids_of(entries, phones.drop_first()) {
                None => None,
                Some(rest) => Some(seq![id] + rest),
            },
        }
    }
}

impl SymbolTable {
    /// The table's entries as (symbol, id) pairs.
    pub closed spec fn entries_view(self) -> Seq<(Seq<char>, i64)> {
        self.entries@.map_values(|e: (String, i64)| (e.0@, e.1))
    }

    /// Well-formed: no symbol occurs twice and no id occurs twice.
    pub open spec fn wf(self) -> bool {
        forall|i: int, j: int|
            0 <= i < j < self.entries_view().len() ==> self.entries_view()[i].0
                != self.entries_view()[j].0 && self.entries_view()[i].1
                != self.entries_view()[j].1
    }

    /// The id of `name`, or `None` if the table does not hold it.
    pub open spec fn spec_lookup(self, name: Seq<char>) -> Option<i64> {
        lookup_in(self.entries_view(), name)
    }

    /// Builds the table from the symbol list, in order: each new symbol
    /// gets the next id, a repeated symbol is kept once under its first id.
    pub fn from_symbols(symbols: &Vec<String>) -> (r: SymbolTable)
        requires
            symbols@.len() <= i64::MAX,
        ensures
            r.wf(),
            forall|i: int|
                0 <= i < symbols@.len() ==> r.spec_lookup(#[trigger] symbols@[i]@) is Some,
    {
        let mut table = SymbolTable { entries: Vec::new() };
        let mut next_id: i64 = 0;
        let mut i: usize = 0;
        while i < symbols.len()
            invariant
                i <= symbols@.len(),
                symbols@.len() <= i64::MAX,
                0 <= next_id <= i,
                table.wf(),
                forall|k: int|
                    0 <= k < table.entries_view().len() ==> #[trigger] table.entries_view()[k].1
                        < next_id,
                forall|k: int| 0 <= k < i ==> table.spec_lookup(#[trigger] symbols@[k]@) is Some,
            decreases symbols.len() - i,
        {
            if table.lookup(symbols[i].as_str()).is_none() {
                let ghost old_entries = table.entries_view();
                table.entries.push((symbols[i].clone(), next_id));
                proof {
                    assert(table.entries_view() =~= old_entries.push(
                        (symbols@[i as int]@, next_id as i64),
                    ));
                    lemma_lookup_absent(old_entries, symbols@[i as int]@);
                    lemma_lookup_push(old_entries, symbols@[i as int]@, next_id as i64);
                }
                next_id += 1;
            }
            i += 1;
        }
        table
    }

    /// Looks a symbol up.
    pub fn lookup(&self, name: &str) -> (r: Option<i64>)
        ensures
            r == self.spec_lookup(name@),
    {
        let key = String::from_str(name);
        let mut i: usize = 0;
        proof {
            assert(self.entries_view().skip(0) =~= self.entries_view());
        }
        while i < self.entries.len()
            invariant
                i <= self.entries@.len(),
                key@ == name@,
                lookup_in(self.entries_view().skip(i as int), name@) == self.spec_lookup(name@),
            decreases self.entries@.len() - i,
        {
            proof {
                assert(self.entries_view().skip(i as int).drop_first() =~= self.entries_view().skip(
                    i + 1,
                ));
                assert(self.entries_view().skip(i as int)[0] == self.entries_view()[i as int]);
            }
            if self.entries[i].0 == key {
                return Some(self.entries[i].1);
            }
            i += 1;
        }
        proof {
            assert(self.entries_view().skip(self.entries@.len() as int) =~= Seq::<(
                Seq<char>,
                i64,
            )>::empty());
        }
        None
    }

    /// Maps a phoneme symbol sequence to its id sequence.
    ///
    /// Succeeds exactly when every symbol is in the table; the first
    /// unknown symbol aborts the request with [`TtsError::UnknownSymbol`].
    pub fn phones_to_ids(&self, phones: &Vec<String>) -> (r: Result<Vec<i64>, TtsError>)
        ensures
            match r {
                Ok(ids) => ids@.len() == phones@.len() && ids_of(
                    self.entries_view(),
                    phones@.map_values(|p: String| p@),
                ) == Some(ids@),
                Err(e) => e == TtsError::UnknownSymbol && ids_of(
                    self.entries_view(),
                    phones@.map_values(|p: String| p@),
                ) is None,
            },
    {
        let ghost all = phones@.map_values(|p: String| p@);
        let mut ids: Vec<i64> = Vec::new();
        let mut i: usize = 0;
        proof {
            assert(all.skip(0) =~= all);
            assert forall|rest: Seq<i64>|
                ids_of(self.entries_view(), #[trigger] (all.skip(0))) == Some(rest) implies ids_of(
                self.entries_view(),
                all,
            ) == Some(ids@ + rest) by {
                assert(ids@ + rest =~= rest);
            }
        }
        while i < phones.len()
            invariant
                i <= phones@.len(),
                ids@.len() == i,
                all == phones@.map_values(|p: String| p@),
                forall|rest: Seq<i64>|
                    ids_of(self.entries_view(), #[trigger] (all.skip(i as int))) == Some(rest)
                        ==> ids_of(self.entries_view(), all) == Some(ids@ + rest),
                ids_of(self.entries_view(), all.skip(i as int)) is None ==> ids_of(
                    self.entries_view(),
                    all,
                ) is None,
            decreases phones.len() - i,
        {
            proof {
                assert(all.skip(i as int).drop_first() =~= all.skip(i + 1));
                assert(all.skip(i as int)[0] == phones@[i as int]@);
            }
            match self.lookup(phones[i].as_str()) {
                None => {
                    return Err(TtsError::UnknownSymbol);
                },
                Some(id) => {
                    let ghost prev = ids@;
                    ids.push(id);
                    proof {
                        lemma_ids_cons(self.entries_view(), all, i as int, id);
                        assert forall|rest: Seq<i64>|
                            ids_of(self.entries_view(), #[trigger] (all.skip(i + 1))) == Some(
                                rest,
                            ) implies ids_of(self.entries_view(), all) == Some(ids@ + rest) by {
                            assert(ids_of(self.entries_view(), all.skip(i as int)) == Some(
                                seq![id] + rest,
                            ));
                            assert(prev + (seq![id] + rest) =~= ids@ + rest);
                        }
                    }
                },
            }
            i += 1;
        }
        proof {
            assert(all.skip(all.len() as int) =~= Seq::<Seq<char>>::empty());
            assert(ids@ + Seq::<i64>::empty() =~= ids@);
        }
        Ok(ids)
    }
}

/// Adding a fresh entry keeps prior lookups and resolves the new symbol.
proof fn lemma_lookup_push(entries: Seq<(Seq<char>, i64)>, name: Seq<char>, id: i64)
    ensures
        lookup_in(entries.push((name, id)), name) == if lookup_in(entries, name) is Some {
            lookup_in(entries, name)
        } else {
            Some(id)
        },
        forall|other: Seq<char>|
            other != name ==> #[trigger] lookup_in(entries.push((name, id)), other) == lookup_in(
                entries,
                other,
            ),
    decreases entries.len(),
{
    if entries.len() == 0 {
        assert forall|other: Seq<char>| other != name implies #[trigger] lookup_in(
            entries.push((name, id)),
            other,
        ) == lookup_in(entries, other) by {
            assert(entries.push((name, id)).drop_first() =~= entries);
        }
    } else {
        assert(entries.push((name, id)).drop_first() =~= entries.drop_first().push((name, id)));
        lemma_lookup_push(entries.drop_first(), name, id);
        assert forall|other: Seq<char>| other != name implies #[trigger] lookup_in(
            entries.push((name, id)),
            other,
        ) == lookup_in(entries, other) by {
            if entries[0].0 != other {
                assert(lookup_in(entries.drop_first().push((name, id)), other) == lookup_in(
                    entries.drop_first(),
                    other,
                ));
            }
        }
    }
}

/// A symbol that `lookup_in` misses occurs nowhere among the entries.
proof fn lemma_lookup_absent(entries: Seq<(Seq<char>, i64)>, name: Seq<char>)
    requires
        lookup_in(entries, name) is None,
    ensures
        forall|k: int| 0 <= k < entries.len() ==> entries[k].0 != name,
    decreases entries.len(),
{
    if entries.len() > 0 {
        lemma_lookup_absent(entries.drop_first(), name);
        assert forall|k: int| 0 <= k < entries.len() implies entries[k].0 != name by {
            if k > 0 {
                assert(entries.drop_first()[k - 1] == entries[k]);
            }
        }
    }
}

/// Unfolds `ids_of` one step at position `i` of `all`.
proof fn lemma_ids_cons(entries: Seq<(Seq<char>, i64)>, all: Seq<Seq<char>>, i: int, id: i64)
    requires
        0 <= i < all.len(),
        lookup_in(entries, all[i]) == Some(id),
    ensures
        forall|rest: Seq<i64>|
            ids_of(entries, #[trigger] (all.skip(i + 1))) == Some(rest) ==> ids_of(
                entries,
                all.skip(i),
            ) == Some(seq![id] + rest),
        ids_of(entries, all.skip(i + 1)) is None ==> ids_of(entries, all.skip(i)) is None,
{
    assert(all.skip(i).drop_first() =~= all.skip(i + 1));
    assert(all.skip(i)[0] == all[i]);
}

} // verus!
