use vstd::prelude::*;

use crate::error::ModelError;
use crate::html::{entry_html, write_entry, DisplayAsHtml};
use crate::model::Entry;
use crate::text::{
    lemma_lex_asym, lemma_lex_irrefl, lemma_lex_total, lemma_lex_trans, lex_cmp, lex_lt, EntryId,
};

verus! {

/// The root aggregate: an ordered mapping from `EntryId` to `Entry`. Keys are
/// unique and iteration order is ascending key order, lexicographic over the
/// identifier's underlying characters; rendering follows that order.
#[derive(Debug)]
pub struct Journal {
    entries: Vec<(EntryId, Entry)>,
}

/// `s` holds an entry under the key `k`.
pub open spec fn entries_have_key(s: Seq<(EntryId, Entry)>, k: Seq<char>) -> bool {
    exists|i: int| 0 <= i < s.len() && s[i].0@ == k
}

/// The keys of `s` are strictly ascending: sorted, with no duplicates.
pub open spec fn entries_sorted(s: Seq<(EntryId, Entry)>) -> bool {
    forall|i: int, j: int| 0 <= i < j < s.len() ==> lex_lt(s[i].0@, s[j].0@)
}

/// Where an entry belongs in an ascending sequence: before the first key
/// above it. The id is expected fresh; `Journal::insert` refuses duplicates.
pub open spec fn spec_sorted_insert(s: Seq<(EntryId, Entry)>, id: EntryId, e: Entry) -> Seq<
    (EntryId, Entry),
>
    decreases s.len(),
{
    if s.len() == 0 {
        seq![(id, e)]
    } else if lex_lt(id@, s[0].0@) {
        seq![(id, e)] + s
    } else {
        seq![s[0]] + spec_sorted_insert(s.subrange(1, s.len() as int), id, e)
    }
}

/// On a sequence whose keys below position `p` are under `id` and whose key
/// at `p`, if any, is above it, the sorted insert splices the entry in at `p`.
proof fn lemma_sorted_insert_at(s: Seq<(EntryId, Entry)>, id: EntryId, e: Entry, p: int)
    requires
        0 <= p <= s.len(),
        forall|k: int| 0 <= k < p ==> lex_lt(s[k].0@, id@),
        p < s.len() ==> lex_lt(id@, s[p].0@),
    ensures
        spec_sorted_insert(s, id, e) == s.subrange(0, p) + seq![(id, e)] + s.subrange(
            p,
            s.len() as int,
        ),
    decreases p,
{
    if p == 0 {
        if s.len() == 0 {
            assert(spec_sorted_insert(s, id, e) =~= s.subrange(0, 0) + seq![(id, e)] + s.subrange(
                0,
                s.len() as int,
            ));
        } else {
            assert(s.subrange(0, s.len() as int) =~= s);
            assert(seq![(id, e)] + s =~= s.subrange(0, 0) + seq![(id, e)] + s.subrange(
                0,
                s.len() as int,
            ));
        }
    } else {
        assert(lex_lt(s[0].0@, id@));
        lemma_lex_asym(s[0].0@, id@);
        let s1 = s.subrange(1, s.len() as int);
        lemma_sorted_insert_at(s1, id, e, p - 1);
        assert(s1.subrange(0, p - 1) =~= s.subrange(1, p));
        assert(s1.subrange(p - 1, s1.len() as int) =~= s.subrange(p, s.len() as int));
        assert(seq![s[0]] + (s.subrange(1, p) + seq![(id, e)] + s.subrange(p, s.len() as int))
            =~= s.subrange(0, p) + seq![(id, e)] + s.subrange(p, s.len() as int));
    }
}

/// Splicing a fresh entry in where `lemma_sorted_insert_at` puts it keeps the
/// keys strictly ascending.
proof fn lemma_sorted_insert_sorted(s: Seq<(EntryId, Entry)>, id: EntryId, e: Entry, p: int)
    requires
        entries_sorted(s),
        0 <= p <= s.len(),
        forall|k: int| 0 <= k < p ==> lex_lt(s[k].0@, id@),
        p < s.len() ==> lex_lt(id@, s[p].0@),
    ensures
        entries_sorted(spec_sorted_insert(s, id, e)),
{
    lemma_sorted_insert_at(s, id, e, p);
    let t = spec_sorted_insert(s, id, e);
    assert forall|i: int, j: int| 0 <= i < j < t.len() implies lex_lt(t[i].0@, t[j].0@) by {
        if i < p && j > p {
            if p < s.len() {
                if i < p {
                    lemma_lex_trans(s[i].0@, id@, s[p].0@);
                }
            }
            if j - 1 > p {
                lemma_lex_trans(id@, s[p].0@, s[j - 1].0@);
            }
            lemma_lex_trans(s[i].0@, id@, s[j - 1].0@);
        } else if i == p && j > p {
            if j - 1 > p {
                lemma_lex_trans(id@, s[p].0@, s[j - 1].0@);
            }
        }
    }
}

impl Journal {
    /// The entries, in storage order: ascending key order for a well-formed
    /// journal.
    pub closed spec fn entries_seq(&self) -> Seq<(EntryId, Entry)> {
        self.entries@
    }

    /// The journal's invariant: keys strictly ascending, hence unique.
    pub open spec fn wf(&self) -> bool {
        entries_sorted(self.entries_seq())
    }

    /// The journal holds an entry under the key `k`.
    pub open spec fn spec_has_key(&self, k: Seq<char>) -> bool {
        entries_have_key(self.entries_seq(), k)
    }

    /// An empty journal.
    pub fn new() -> (j: Journal)
        ensures
            j.entries_seq() == Seq::<(EntryId, Entry)>::empty(),
            j.wf(),
    {
        Journal { entries: Vec::new() }
    }

    /// How many entries the journal holds.
    pub fn len(&self) -> (n: usize)
        ensures
            n == self.entries_seq().len(),
    {
        self.entries.len()
    }

    /// The entries, in storage order, with their ids.
    pub fn entries(&self) -> (r: &Vec<(EntryId, Entry)>)
        ensures
            r@ == self.entries_seq(),
    {
        &self.entries
    }

    /// Looks an entry up by its id.
    pub fn get(&self, id: &EntryId) -> (r: Option<&Entry>)
        ensures
            r is Some <==> self.spec_has_key(id@),
            r matches Some(e) ==> exists|i: int|
                0 <= i < self.entries_seq().len() && self.entries_seq()[i].0@ == id@ && *e
                    == self.entries_seq()[i].1,
    {
        let ghost s = self.entries@;
        let n = self.entries.len();
        let mut p: usize = 0;
        while p < n
            invariant
                p <= n,
                n == s.len(),
                self.entries@ == s,
                forall|k: int| 0 <= k < p ==> s[k].0@ != id@,
            decreases n - p,
        {
            let c = lex_cmp(self.entries[p].0.0.as_str(), id.0.as_str());
            if c == 0 {
                proof {
                    assert(s[p as int].0@ == id@);
                }
                return Some(&self.entries[p].1);
            }
            p = p + 1;
        }
        None
    }

    /// Inserts an entry under a fresh id at its place in ascending key order,
    /// and refuses an id the journal already holds with `DuplicateEntryId`,
    /// leaving the journal unchanged.
    pub fn insert(&mut self, id: EntryId, entry: Entry) -> (r: Result<(), ModelError>)
        requires
            old(self).wf(),
        ensures
            final(self).wf(),
            r is Ok <==> !old(self).spec_has_key(id@),
            r matches Err(e) ==> e == ModelError::DuplicateEntryId && *final(self) == *old(self),
            r is Ok ==> final(self).entries_seq() == spec_sorted_insert(
                old(self).entries_seq(),
                id,
                entry,
            ),
    {
        let ghost s = self.entries@;
        let n = self.entries.len();
        let mut p: usize = 0;
        while p < n
            invariant
                p <= n,
                n == s.len(),
                self.entries@ == s,
                *self == *old(self),
                entries_sorted(s),
                forall|k: int| 0 <= k < p ==> lex_lt(s[k].0@, id@),
            decreases n - p,
        {
            let c = lex_cmp(self.entries[p].0.0.as_str(), id.0.as_str());
            if c == 0 {
                proof {
                    assert(s[p as int].0@ == id@);
                }
                return Err(ModelError::DuplicateEntryId);
            }
            if c == 1 {
                proof {
                    assert(lex_lt(id@, s[p as int].0@));
                    lemma_no_key_at_scan(s, id@, p as int);
                    lemma_sorted_insert_at(s, id, entry, p as int);
                    lemma_sorted_insert_sorted(s, id, entry, p as int);
                }
                self.entries.insert(p, (id, entry));
                proof {
                    assert(self.entries@ =~= s.subrange(0, p as int) + seq![(id, entry)]
                        + s.subrange(p as int, s.len() as int));
                }
                return Ok(());
            }
            proof {
                assert(c == -1);
                assert(lex_lt(s[p as int].0@, id@));
            }
            p = p + 1;
        }
        proof {
            lemma_no_key_at_scan(s, id@, n as int);
            lemma_sorted_insert_at(s, id, entry, n as int);
            lemma_sorted_insert_sorted(s, id, entry, n as int);
        }
        self.entries.insert(n, (id, entry));
        proof {
            assert(self.entries@ =~= s.subrange(0, n as int) + seq![(id, entry)] + s.subrange(
                n as int,
                s.len() as int,
            ));
        }
        Ok(())
    }
}

/// In an ascending sequence whose first `p` keys are under `id` and whose key
/// at `p`, if any, is above it, no key equals `id`.
proof fn lemma_no_key_at_scan(s: Seq<(EntryId, Entry)>, id: Seq<char>, p: int)
    requires
        entries_sorted(s),
        0 <= p <= s.len(),
        forall|k: int| 0 <= k < p ==> lex_lt(s[k].0@, id),
        p < s.len() ==> lex_lt(id, s[p].0@),
    ensures
        !entries_have_key(s, id),
{
    assert forall|i: int| 0 <= i < s.len() implies s[i].0@ != id by {
        if i < p {
            if s[i].0@ == id {
                lemma_lex_irrefl(id);
            }
        } else {
            if i > p {
                lemma_lex_trans(id, s[p].0@, s[i].0@);
            }
            if s[i].0@ == id {
                lemma_lex_irrefl(id);
            }
        }
    }
}

/// The concatenated HTML of the first `i` entries of `entries`.
pub open spec fn entries_html_upto(entries: Seq<(EntryId, Entry)>, i: int) -> Seq<char>
    decreases i,
{
    if i <= 0 || i > entries.len() {
        Seq::empty()
    } else {
        entries_html_upto(entries, i - 1) + entry_html(entries[i - 1].0, entries[i - 1].1)
    }
}

/// The whole journal's HTML: each entry's fragment, in storage order, with no
/// separator between entries.
pub open spec fn journal_html(entries: Seq<(EntryId, Entry)>) -> Seq<char> {
    entries_html_upto(entries, entries.len() as int)
}

impl DisplayAsHtml for Journal {
    open spec fn html_spec(&self) -> Seq<char> {
        journal_html(self.entries_seq())
    }

    fn html(&self) -> (r: String) {
        let mut out = String::new();
        let ghost s = self.entries@;
        let n = self.entries.len();
        let mut i: usize = 0;
        proof {
            assert(out@ =~= entries_html_upto(s, 0));
        }
        while i < n
            invariant
                i <= n,
                n == s.len(),
                self.entries@ == s,
                out@ == entries_html_upto(s, i as int),
            decreases n - i,
        {
            write_entry(&mut out, &self.entries[i].0, &self.entries[i].1);
            proof {
                assert(out@ =~= entries_html_upto(s, i + 1));
            }
            i = i + 1;
        }
        out
    }
}

impl Default for Journal {
    /// An empty journal.
    fn default() -> (j: Journal)
        ensures
            j.entries_seq() == Seq::<(EntryId, Entry)>::empty(),
            j.wf(),
    {
        Journal::new()
    }
}

/// The sorted insert prepends an entry whose id lies under every present key.
proof fn lemma_insert_front(s: Seq<(EntryId, Entry)>, id: EntryId, e: Entry)
    requires
        s.len() == 0 || lex_lt(id@, s[0].0@),
    ensures
        spec_sorted_insert(s, id, e) == seq![(id, e)] + s,
{
    if s.len() == 0 {
        assert(spec_sorted_insert(s, id, e) =~= seq![(id, e)] + s);
    }
}

/// The sorted insert walks past a head whose key is not above the new id.
proof fn lemma_insert_skip(s: Seq<(EntryId, Entry)>, id: EntryId, e: Entry)
    requires
        s.len() > 0,
        !lex_lt(id@, s[0].0@),
    ensures
        spec_sorted_insert(s, id, e) == seq![s[0]] + spec_sorted_insert(
            s.subrange(1, s.len() as int),
            id,
            e,
        ),
{
}

/// Sorted insertion of two entries under distinct ids lands on the same
/// sequence in either order: the journal a builder assembles does not depend
/// on the order it inserted in, so neither does the rendering.
pub proof fn lemma_insert_order_irrelevant(
    s: Seq<(EntryId, Entry)>,
    id1: EntryId,
    e1: Entry,
    id2: EntryId,
    e2: Entry,
)
    requires
        id1@ != id2@,
    ensures
        spec_sorted_insert(spec_sorted_insert(s, id1, e1), id2, e2) == spec_sorted_insert(
            spec_sorted_insert(s, id2, e2),
            id1,
            e1,
        ),
        journal_html(spec_sorted_insert(spec_sorted_insert(s, id1, e1), id2, e2)) == journal_html(
            spec_sorted_insert(spec_sorted_insert(s, id2, e2), id1, e1),
        ),
    decreases s.len(),
{
    lemma_lex_total(id1@, id2@);
    let p1 = (id1, e1);
    let p2 = (id2, e2);
    let f1 = spec_sorted_insert(s, id1, e1);
    let f2 = spec_sorted_insert(s, id2, e2);
    let lhs = spec_sorted_insert(f1, id2, e2);
    let rhs = spec_sorted_insert(f2, id1, e1);
    if s.len() == 0 {
        lemma_insert_front(s, id1, e1);
        lemma_insert_front(s, id2, e2);
        assert(f1 =~= seq![p1]);
        assert(f2 =~= seq![p2]);
        if lex_lt(id2@, id1@) {
            lemma_lex_asym(id2@, id1@);
            lemma_insert_front(f1, id2, e2);
            lemma_insert_skip(f2, id1, e1);
            assert(f2.subrange(1, f2.len() as int) =~= Seq::<(EntryId, Entry)>::empty());
            lemma_insert_front(Seq::<(EntryId, Entry)>::empty(), id1, e1);
            assert(lhs =~= rhs);
        } else {
            lemma_lex_asym(id1@, id2@);
            lemma_insert_skip(f1, id2, e2);
            assert(f1.subrange(1, f1.len() as int) =~= Seq::<(EntryId, Entry)>::empty());
            lemma_insert_front(Seq::<(EntryId, Entry)>::empty(), id2, e2);
            lemma_insert_front(f2, id1, e1);
            assert(lhs =~= rhs);
        }
    } else {
        let h = s[0];
        let t = s.subrange(1, s.len() as int);
        let lt1 = lex_lt(id1@, h.0@);
        let lt2 = lex_lt(id2@, h.0@);
        if lt1 && lt2 {
            lemma_insert_front(s, id1, e1);
            lemma_insert_front(s, id2, e2);
            if lex_lt(id2@, id1@) {
                lemma_lex_asym(id2@, id1@);
                lemma_insert_front(f1, id2, e2);
                lemma_insert_skip(f2, id1, e1);
                assert(f2.subrange(1, f2.len() as int) =~= s);
                lemma_insert_front(s, id1, e1);
                assert(lhs =~= rhs);
            } else {
                lemma_lex_asym(id1@, id2@);
                lemma_insert_skip(f1, id2, e2);
                assert(f1.subrange(1, f1.len() as int) =~= s);
                lemma_insert_front(s, id2, e2);
                lemma_insert_front(f2, id1, e1);
                assert(lhs =~= rhs);
            }
        } else if lt1 && !lt2 {
            if lex_lt(id2@, id1@) {
                lemma_lex_trans(id2@, id1@, h.0@);
            }
            assert(lex_lt(id1@, id2@));
            lemma_lex_asym(id1@, id2@);
            lemma_insert_front(s, id1, e1);
            lemma_insert_skip(f1, id2, e2);
            assert(f1.subrange(1, f1.len() as int) =~= s);
            lemma_insert_skip(s, id2, e2);
            lemma_insert_front(f2, id1, e1);
            assert(lhs =~= rhs);
        } else if !lt1 && lt2 {
            if lex_lt(id1@, id2@) {
                lemma_lex_trans(id1@, id2@, h.0@);
            }
            assert(lex_lt(id2@, id1@));
            lemma_lex_asym(id2@, id1@);
            lemma_insert_front(s, id2, e2);
            lemma_insert_skip(f2, id1, e1);
            assert(f2.subrange(1, f2.len() as int) =~= s);
            lemma_insert_skip(s, id1, e1);
            lemma_insert_front(f1, id2, e2);
            assert(lhs =~= rhs);
        } else {
            lemma_insert_order_irrelevant(t, id1, e1, id2, e2);
            lemma_insert_skip(s, id1, e1);
            lemma_insert_skip(s, id2, e2);
            let g1 = spec_sorted_insert(t, id1, e1);
            let g2 = spec_sorted_insert(t, id2, e2);
            lemma_insert_skip(f1, id2, e2);
            lemma_insert_skip(f2, id1, e1);
            assert(f1.subrange(1, f1.len() as int) =~= g1);
            assert(f2.subrange(1, f2.len() as int) =~= g2);
            assert(lhs =~= rhs);
        }
    }
}

} // verus!
