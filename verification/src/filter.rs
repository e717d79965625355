//! Filtering a compilation database by source-file substrings.

use vstd::prelude::*;
use crate::entry::CompDb;
use crate::entry::CompDbEntry;
use crate::entry::EntryView;
use crate::strutil::contains_sub;
use crate::strutil::contains_substring;

verus! {

/// The entry's file field contains at least one of the patterns as a
/// literal, case-sensitive substring.
pub open spec fn entry_matches(e: EntryView, pats: Seq<Seq<char>>) -> bool {
    exists|p: int| 0 <= p < pats.len() && contains_sub(e.file, #[trigger] pats[p])
}

/// The subsequence of entries whose file matches one of the patterns, in
/// their original relative order; an entry matching several patterns is
/// retained once.
pub open spec fn filtered(db: Seq<EntryView>, pats: Seq<Seq<char>>) -> Seq<EntryView>
    decreases db.len(),
{
    if db.len() == 0 {
        Seq::empty()
    } else {
        let rest = filtered(db.drop_last(), pats);
        if entry_matches(db.last(), pats) {
            rest.push(db.last())
        } else {
            rest
        }
    }
}

/// Whether the entry's file contains one of the patterns.
fn file_matches(e: &CompDbEntry, patterns: &Vec<String>) -> (r: bool)
    ensures
        r == entry_matches(e@, patterns.deep_view()),
{
    let mut p: usize = 0;
    while p < patterns.len()
        invariant
            0 <= p <= patterns.len(),
            patterns.deep_view().len() == patterns.len(),
            forall|q: int|
                0 <= q < p ==> !contains_sub(e@.file, #[trigger] patterns.deep_view()[q]),
        decreases patterns.len() - p,
    {
        proof {
            assert(patterns.deep_view()[p as int] == patterns[p as int]@);
        }
        if contains_substring(e.file.as_str(), patterns[p].as_str()) {
            return true;
        }
        p += 1;
    }
    false
}

/// Keeps exactly the entries whose file contains at least one of the
/// patterns; the relative order of the surviving entries is preserved.
pub fn extract_matched_patterns(db: CompDb, patterns: Vec<String>) -> (r: CompDb)
    ensures
        r.deep_view() == filtered(db.deep_view(), patterns.deep_view()),
{
    let ghost orig = db.deep_view();
    let mut db = db;
    let mut r: CompDb = Vec::new();
    let ghost mut i: int = 0;
    proof {
        assert(orig.take(0) =~= Seq::<EntryView>::empty());
        assert(r.deep_view() =~= Seq::<EntryView>::empty());
        assert(db.deep_view() =~= orig.subrange(0, orig.len() as int));
    }
    while db.len() > 0
        invariant
            0 <= i <= orig.len(),
            db.deep_view() == orig.subrange(i, orig.len() as int),
            db.len() == orig.len() - i,
            r.deep_view() == filtered(orig.take(i), patterns.deep_view()),
        decreases db.len(),
    {
        let ghost prev_vs = db@;
        let ghost prev_db = db.deep_view();
        let ghost prev_r = r.deep_view();
        let e = db.remove(0);
        proof {
            assert(e.deep_view() == prev_db[0]);
            assert(prev_db[0] == orig[i]);
            assert(db@ =~= prev_vs.subrange(1, prev_vs.len() as int));
            assert(forall|m: int| 0 <= m < db@.len() ==> #[trigger] db@[m] == prev_vs[m + 1]);
            assert(forall|m: int|
                0 <= m < db@.len() ==> #[trigger] db.deep_view()[m] == prev_db[m + 1]);
            assert(db.deep_view() =~= orig.subrange(i + 1, orig.len() as int));
            assert(orig.take(i + 1).drop_last() =~= orig.take(i));
            assert(orig.take(i + 1).last() == orig[i]);
        }
        let keep = file_matches(&e, &patterns);
        if keep {
            r.push(e);
            proof {
                assert(r.deep_view() =~= prev_r.push(orig[i]));
            }
        }
        proof {
            i = i + 1;
        }
    }
    proof {
        assert(orig.take(orig.len() as int) =~= orig);
    }
    r
}

/// Filtering is order-preserving and local: the survivors of a database
/// are the survivors of its parts, in the same order, however it is
/// divided into consecutive pieces.
pub proof fn lemma_filtered_app(a: Seq<EntryView>, b: Seq<EntryView>, pats: Seq<Seq<char>>)
    ensures
        filtered(a + b, pats) == filtered(a, pats) + filtered(b, pats),
    decreases b.len(),
{
    if b.len() == 0 {
        assert(a + b =~= a);
        assert(filtered(a, pats) + filtered(b, pats) =~= filtered(a, pats));
    } else {
        lemma_filtered_app(a, b.drop_last(), pats);
        assert((a + b).drop_last() =~= a + b.drop_last());
        assert((a + b).last() == b.last());
        if entry_matches(b.last(), pats) {
            assert(filtered(a, pats) + filtered(b, pats) =~= (filtered(a, pats) + filtered(
                b.drop_last(),
                pats,
            )).push(b.last()));
        } else {
            assert(filtered(a, pats) + filtered(b, pats) =~= filtered(a, pats) + filtered(
                b.drop_last(),
                pats,
            ));
        }
    }
}

/// Filtering preserves what it keeps: running the filter again with the
/// same patterns returns the same sequence.
pub proof fn lemma_filter_idempotent(db: Seq<EntryView>, pats: Seq<Seq<char>>)
    ensures
        filtered(filtered(db, pats), pats) == filtered(db, pats),
    decreases db.len(),
{
    if db.len() == 0 {
    } else {
        lemma_filter_idempotent(db.drop_last(), pats);
        let f = filtered(db.drop_last(), pats);
        if entry_matches(db.last(), pats) {
            assert(f.push(db.last()).drop_last() =~= f);
            assert(f.push(db.last()).last() == db.last());
        }
    }
}

/// A pattern equal to an entry's whole file value matches that entry, so
/// the filter retains it.
pub proof fn lemma_full_file_pattern(e: EntryView, pats: Seq<Seq<char>>, p: int)
    requires
        0 <= p < pats.len(),
        pats[p] == e.file,
    ensures
        entry_matches(e, pats),
{
    assert(e.file.subrange(0, 0 + pats[p].len() as int) =~= pats[p]);
    assert(contains_sub(e.file, pats[p]));
}

/// With an empty pattern set the filter keeps nothing: the guard that
/// callers place around it ("no patterns means keep everything") cannot be
/// moved into the filter without changing its contract.
pub proof fn lemma_filter_empty_patterns(db: Seq<EntryView>, pats: Seq<Seq<char>>)
    requires
        pats.len() == 0,
    ensures
        filtered(db, pats) == Seq::<EntryView>::empty(),
    decreases db.len(),
{
    if db.len() == 0 {
    } else {
        lemma_filter_empty_patterns(db.drop_last(), pats);
    }
}

} // verus!
