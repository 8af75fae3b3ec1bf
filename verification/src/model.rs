//! Mathematical model of the search-path string format: splitting a string
//! into entries at the delimiter, joining entries back, and removing entries.

use vstd::prelude::*;

verus! {

/// The character separating entries in a search-path variable's serialized
/// form, in the POSIX convention.
pub const DELIMITER: char = ':';

/// An entry can be serialized losslessly exactly when it does not contain the
/// delimiter character.
pub open spec fn entry_ok(e: Seq<char>) -> bool {
    !e.contains(DELIMITER)
}

/// Every entry of the sequence can be serialized losslessly.
pub open spec fn all_entries_ok(es: Seq<Seq<char>>) -> bool {
    forall|i: int| 0 <= i < es.len() ==> entry_ok(#[trigger] es[i])
}

/// The entries of a delimiter-separated string, in order. A string with `k`
/// delimiter occurrences has exactly `k + 1` entries; in particular the empty
/// string has one empty entry.
pub open spec fn split_entries(s: Seq<char>) -> Seq<Seq<char>>
    decreases s.len(),
{
    if s.len() == 0 {
        seq![Seq::<char>::empty()]
    } else {
        let prior = split_entries(s.drop_last());
        if s.last() == DELIMITER {
            prior.push(Seq::<char>::empty())
        } else {
            prior.update(prior.len() - 1, prior.last().push(s.last()))
        }
    }
}

/// The serialized form of a sequence of entries: the entries in order, with
/// one delimiter between adjacent entries.
pub open spec fn join_entries(es: Seq<Seq<char>>) -> Seq<char>
    decreases es.len(),
{
    if es.len() == 0 {
        Seq::<char>::empty()
    } else if es.len() == 1 {
        es[0]
    } else {
        join_entries(es.drop_last()) + seq![DELIMITER] + es.last()
    }
}

/// The sequence of entries with every occurrence of `e` deleted and the
/// relative order of the others preserved.
pub open spec fn remove_entries(es: Seq<Seq<char>>, e: Seq<char>) -> Seq<Seq<char>>
    decreases es.len(),
{
    if es.len() == 0 {
        Seq::<Seq<char>>::empty()
    } else {
        let rest = remove_entries(es.drop_last(), e);
        if es.last() == e {
            rest
        } else {
            rest.push(es.last())
        }
    }
}

/// Splitting always yields at least one entry.
pub proof fn lemma_split_entries_len(s: Seq<char>)
    ensures
        split_entries(s).len() >= 1,
    decreases s.len(),
{
    if s.len() > 0 {
        lemma_split_entries_len(s.drop_last());
    }
}

/// No entry produced by splitting contains the delimiter.
pub proof fn lemma_split_entries_ok(s: Seq<char>)
    ensures
        all_entries_ok(split_entries(s)),
    decreases s.len(),
{
    if s.len() == 0 {
        assert(!Seq::<char>::empty().contains(DELIMITER));
    } else {
        lemma_split_entries_ok(s.drop_last());
        lemma_split_entries_len(s.drop_last());
        let prior = split_entries(s.drop_last());
        if s.last() == DELIMITER {
            assert(!Seq::<char>::empty().contains(DELIMITER));
        } else {
            let last = prior[prior.len() - 1];
            let ext = last.push(s.last());
            assert(entry_ok(last));
            assert forall|j: int| 0 <= j < ext.len() implies ext[j] != DELIMITER by {
                if j < ext.len() - 1 {
                    assert(ext[j] == last[j]);
                    assert(last[j] != DELIMITER);
                }
            }
            assert(entry_ok(ext));
            assert forall|i: int| 0 <= i < split_entries(s).len() implies entry_ok(
                #[trigger] split_entries(s)[i],
            ) by {
                if i < prior.len() - 1 {
                    assert(split_entries(s)[i] == prior[i]);
                }
            }
        }
    }
}

/// Round trip: joining the entries split out of any string reproduces the
/// string exactly.
pub proof fn lemma_join_split(s: Seq<char>)
    ensures
        join_entries(split_entries(s)) == s,
    decreases s.len(),
{
    if s.len() == 0 {
        assert(join_entries(split_entries(s)) =~= s);
    } else {
        lemma_join_split(s.drop_last());
        lemma_split_entries_len(s.drop_last());
        let prior = split_entries(s.drop_last());
        if s.last() == DELIMITER {
            let es = prior.push(Seq::<char>::empty());
            assert(es.drop_last() =~~= prior);
            assert(join_entries(es) == join_entries(prior) + seq![DELIMITER]
                + Seq::<char>::empty());
            assert(join_entries(es) =~= s);
        } else {
            let es = prior.update(prior.len() - 1, prior.last().push(s.last()));
            if prior.len() == 1 {
                assert(join_entries(es) == es[0]);
                assert(es[0] == prior[0].push(s.last()));
                assert(join_entries(prior) == prior[0]);
                assert(es[0] =~= s);
            } else {
                assert(es.drop_last() =~~= prior.drop_last());
                assert(es.last() == prior.last().push(s.last()));
                assert(join_entries(es) == join_entries(prior.drop_last()) + seq![DELIMITER]
                    + prior.last().push(s.last()));
                assert(join_entries(prior) == join_entries(prior.drop_last()) + seq![DELIMITER]
                    + prior.last());
                assert(join_entries(es) =~= join_entries(prior).push(s.last()));
                assert(join_entries(prior).push(s.last()) =~= s);
            }
        }
    }
}

/// Joining distributes over concatenation of two non-empty entry sequences,
/// with one delimiter between the two joined halves. In particular, prefixed
/// entries land, in order, before all original entries in the joined string,
/// and suffixed entries after them.
pub proof fn lemma_join_concat(es1: Seq<Seq<char>>, es2: Seq<Seq<char>>)
    requires
        es1.len() >= 1,
        es2.len() >= 1,
    ensures
        join_entries(es1 + es2) == join_entries(es1) + seq![DELIMITER] + join_entries(es2),
    decreases es2.len(),
{
    let es = es1 + es2;
    if es2.len() == 1 {
        assert(es.drop_last() =~~= es1);
        assert(es.last() == es2[0]);
        assert(join_entries(es2) == es2[0]);
        assert(join_entries(es) =~= join_entries(es1) + seq![DELIMITER] + join_entries(es2));
    } else {
        lemma_join_concat(es1, es2.drop_last());
        assert(es.drop_last() =~~= es1 + es2.drop_last());
        assert(es.last() == es2.last());
        assert(join_entries(es) == join_entries(es1 + es2.drop_last()) + seq![DELIMITER]
            + es2.last());
        assert(join_entries(es2) == join_entries(es2.drop_last()) + seq![DELIMITER] + es2.last());
        assert(join_entries(es) =~= join_entries(es1) + seq![DELIMITER] + join_entries(es2));
    }
}

/// Prefixing entries and joining places their joined form, followed by one
/// delimiter, before the original string.
pub proof fn lemma_prefix_join(s: Seq<char>, ps: Seq<Seq<char>>)
    requires
        ps.len() >= 1,
    ensures
        join_entries(ps + split_entries(s)) == join_entries(ps) + seq![DELIMITER] + s,
{
    lemma_split_entries_len(s);
    lemma_join_concat(ps, split_entries(s));
    lemma_join_split(s);
}

/// Suffixing entries and joining places one delimiter, then their joined
/// form, after the original string.
pub proof fn lemma_suffix_join(s: Seq<char>, ps: Seq<Seq<char>>)
    requires
        ps.len() >= 1,
    ensures
        join_entries(split_entries(s) + ps) == s + seq![DELIMITER] + join_entries(ps),
{
    lemma_split_entries_len(s);
    lemma_join_concat(split_entries(s), ps);
    lemma_join_split(s);
}

/// Dropping the last character of a delimiter-free entry keeps it
/// delimiter-free.
proof fn lemma_entry_ok_drop_last(e: Seq<char>)
    requires
        e.len() > 0,
        entry_ok(e),
    ensures
        entry_ok(e.drop_last()),
        e.last() != DELIMITER,
{
    assert(e[e.len() - 1] != DELIMITER);
    assert forall|j: int| 0 <= j < e.drop_last().len() implies e.drop_last()[j] != DELIMITER by {
        assert(e.drop_last()[j] == e[j]);
        assert(e[j] != DELIMITER);
    }
}

/// A delimiter-free string splits into exactly itself as one entry.
proof fn lemma_split_single(e: Seq<char>)
    requires
        entry_ok(e),
    ensures
        split_entries(e) == seq![e],
    decreases e.len(),
{
    if e.len() == 0 {
        assert(split_entries(e) =~~= seq![e]);
    } else {
        lemma_entry_ok_drop_last(e);
        lemma_split_single(e.drop_last());
        let prior = seq![e.drop_last()];
        assert(split_entries(e) == prior.update(0, e.drop_last().push(e.last())));
        assert(e.drop_last().push(e.last()) =~= e);
        assert(split_entries(e) =~~= seq![e]);
    }
}

/// Appending a delimiter-free string extends the last entry of the split and
/// changes nothing else.
proof fn lemma_split_extend(a: Seq<char>, b: Seq<char>)
    requires
        entry_ok(b),
    ensures
        split_entries(a + b) == split_entries(a).update(
            split_entries(a).len() - 1,
            split_entries(a).last() + b,
        ),
    decreases b.len(),
{
    lemma_split_entries_len(a);
    let sa = split_entries(a);
    if b.len() == 0 {
        assert(a + b =~= a);
        assert(sa.last() + b =~= sa.last());
        assert(sa.update(sa.len() - 1, sa.last() + b) =~~= sa);
    } else {
        lemma_entry_ok_drop_last(b);
        lemma_split_extend(a, b.drop_last());
        let t = a + b;
        let mid = split_entries(a + b.drop_last());
        assert(t.drop_last() =~= a + b.drop_last());
        assert(t.last() == b.last());
        assert(mid.len() == sa.len());
        assert(mid.last() == sa.last() + b.drop_last());
        assert(split_entries(t) == mid.update(mid.len() - 1, mid.last().push(b.last())));
        assert((sa.last() + b.drop_last()).push(b.last()) =~= sa.last() + b);
        assert(mid.update(mid.len() - 1, sa.last() + b) =~~= sa.update(sa.len() - 1, sa.last()
            + b));
    }
}

/// Inverse round trip: splitting the joined form of at least one
/// delimiter-free entry yields exactly those entries. In particular a string
/// joined from `n` entries splits back into exactly `n` entries.
pub proof fn lemma_split_join(es: Seq<Seq<char>>)
    requires
        es.len() >= 1,
        all_entries_ok(es),
    ensures
        split_entries(join_entries(es)) == es,
    decreases es.len(),
{
    if es.len() == 1 {
        assert(join_entries(es) == es[0]);
        assert(entry_ok(es[0]));
        lemma_split_single(es[0]);
        assert(split_entries(es[0]) =~~= es);
    } else {
        assert forall|i: int| 0 <= i < es.drop_last().len() implies entry_ok(
            #[trigger] es.drop_last()[i],
        ) by {
            assert(es.drop_last()[i] == es[i]);
            assert(entry_ok(es[i]));
        }
        lemma_split_join(es.drop_last());
        let a = join_entries(es.drop_last());
        let ad = a + seq![DELIMITER];
        let j = join_entries(es);
        assert(ad.drop_last() =~= a);
        assert(ad.last() == DELIMITER);
        assert(split_entries(ad) == split_entries(a).push(Seq::<char>::empty()));
        assert(j =~= ad + es.last());
        assert(entry_ok(es[es.len() - 1]));
        lemma_split_extend(ad, es.last());
        let sad = split_entries(ad);
        assert(Seq::<char>::empty() + es.last() =~= es.last());
        assert(split_entries(j) == sad.update(sad.len() - 1, sad.last() + es.last()));
        assert(split_entries(j) =~~= es);
    }
}

/// Removing an entry that never occurs leaves the sequence unchanged.
pub proof fn lemma_remove_absent(es: Seq<Seq<char>>, e: Seq<char>)
    requires
        !es.contains(e),
    ensures
        remove_entries(es, e) == es,
    decreases es.len(),
{
    if es.len() == 0 {
        assert(remove_entries(es, e) =~~= es);
    } else {
        assert forall|i: int| 0 <= i < es.drop_last().len() implies es.drop_last()[i] != e by {
            assert(es.drop_last()[i] == es[i]);
            assert(es[i] != e);
        }
        assert(!es.drop_last().contains(e));
        lemma_remove_absent(es.drop_last(), e);
        assert(es[es.len() - 1] != e);
        assert(remove_entries(es, e) == es.drop_last().push(es.last()));
        assert(es.drop_last().push(es.last()) =~~= es);
    }
}

/// Idempotent absence: removing an entry that does not occur among a string's
/// entries, then joining, reproduces the original string exactly.
pub proof fn lemma_remove_absent_round_trip(s: Seq<char>, e: Seq<char>)
    requires
        !split_entries(s).contains(e),
    ensures
        join_entries(remove_entries(split_entries(s), e)) == s,
{
    lemma_remove_absent(split_entries(s), e);
    lemma_join_split(s);
}

/// The removed entry never occurs in the result of a removal.
pub proof fn lemma_remove_entries_gone(es: Seq<Seq<char>>, e: Seq<char>)
    ensures
        !remove_entries(es, e).contains(e),
    decreases es.len(),
{
    if es.len() > 0 {
        lemma_remove_entries_gone(es.drop_last(), e);
        let rest = remove_entries(es.drop_last(), e);
        if es.last() != e {
            assert forall|i: int| 0 <= i < rest.push(es.last()).len() implies rest.push(
                es.last(),
            )[i] != e by {
                if i < rest.len() {
                    assert(rest.push(es.last())[i] == rest[i]);
                    assert(rest[i] != e);
                }
            }
        }
    }
}

} // verus!
