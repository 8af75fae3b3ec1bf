//! An editable, ordered sequence of path entries split out of a variable,
//! joined back into a delimited string on demand.

use crate::model::{all_entries_ok, join_entries, remove_entries, split_entries, DELIMITER};
use crate::text::{contains_delimiter, str_eq};
use crate::var::Var;
use vstd::prelude::*;
use vstd::slice::slice_to_vec;
use vstd::string::StrSliceExecFns;
use vstd::string::StringExecFns;

verus! {

/// Joining failed because some entry contains the delimiter character, so the
/// sequence has no lossless serialized form.
#[derive(Debug, Clone, PartialEq, Eq)]
pub struct JoinError;

/// The ordered sequence of path entries of one variable, with pending edits
/// already applied. Its view is the sequence of entries, each a sequence of
/// characters. Duplicates are allowed and order is significant.
pub struct PathVar {
    entries: Vec<String>,
}

impl View for PathVar {
    type V = Seq<Seq<char>>;

    closed spec fn view(&self) -> Seq<Seq<char>> {
        self.entries.deep_view()
    }
}

impl PathVar {
    /// Parse a delimited string into its entries, in order.
    pub(crate) fn new(s: &str) -> (r: PathVar)
        ensures
            r@ == split_entries(s@),
    {
        let n = s.unicode_len();
        let mut entries: Vec<String> = Vec::new();
        let mut start: usize = 0;
        let mut i: usize = 0;
        proof {
            assert(s@.subrange(0, 0) =~= Seq::<char>::empty());
            assert(entries.deep_view().push(s@.subrange(0, 0)) =~~= seq![Seq::<char>::empty()]);
        }
        while i < n
            invariant
                n == s@.len(),
                start <= i <= n,
                entries.deep_view().push(s@.subrange(start as int, i as int)) == split_entries(
                    s@.subrange(0, i as int),
                ),
            decreases n - i,
        {
            let ghost prior_dv = entries.deep_view();
            let ghost part = s@.subrange(start as int, i as int);
            let ghost whole = s@.subrange(0, i as int + 1);
            proof {
                assert(whole.drop_last() =~= s@.subrange(0, i as int));
                assert(whole.last() == s@[i as int]);
            }
            let c = s.get_char(i);
            if c == DELIMITER {
                let e = String::from_str(s.substring_char(start, i));
                entries.push(e);
                proof {
                    assert(entries.deep_view() =~~= prior_dv.push(part));
                    assert(split_entries(whole) == split_entries(whole.drop_last()).push(
                        Seq::<char>::empty(),
                    ));
                    assert(s@.subrange(i as int + 1, i as int + 1) =~= Seq::<char>::empty());
                }
                start = i + 1;
            } else {
                proof {
                    let prior = split_entries(whole.drop_last());
                    assert(prior == prior_dv.push(part));
                    assert(prior.len() == prior_dv.len() + 1);
                    assert(prior.last() == part);
                    assert(split_entries(whole) == prior.update(
                        prior.len() - 1,
                        part.push(s@[i as int]),
                    ));
                    assert(prior.update(prior.len() - 1, part.push(s@[i as int])) =~~= prior_dv.push(
                        part.push(s@[i as int]),
                    ));
                    assert(s@.subrange(start as int, i as int + 1) =~= part.push(s@[i as int]));
                }
            }
            i = i + 1;
        }
        let ghost prior_dv = entries.deep_view();
        let ghost part = s@.subrange(start as int, n as int);
        let e = String::from_str(s.substring_char(start, n));
        entries.push(e);
        proof {
            assert(s@.subrange(0, n as int) =~= s@);
            assert(entries.deep_view() =~~= prior_dv.push(part));
        }
        PathVar { entries }
    }

    /// Delete every entry exactly equal to `path`; the relative order of the
    /// remaining entries is preserved.
    pub fn remove(self, path: &str) -> (r: PathVar)
        ensures
            r@ == remove_entries(self@, path@),
    {
        let mut kept: Vec<String> = Vec::new();
        let n = self.entries.len();
        let mut i: usize = 0;
        while i < n
            invariant
                n == self.entries.len(),
                i <= n,
                kept.deep_view() == remove_entries(
                    self.entries.deep_view().subrange(0, i as int),
                    path@,
                ),
            decreases n - i,
        {
            let ghost pre = self.entries.deep_view().subrange(0, i as int);
            let ghost cur = self.entries.deep_view().subrange(0, i as int + 1);
            let ghost kept_dv = kept.deep_view();
            proof {
                assert(cur.drop_last() =~~= pre);
                assert(cur.last() == self.entries[i as int]@);
            }
            let e = &self.entries[i];
            if !str_eq(e.as_str(), path) {
                kept.push(e.clone());
                proof {
                    assert(kept.deep_view() =~~= kept_dv.push(self.entries[i as int]@));
                }
            }
            i = i + 1;
        }
        proof {
            assert(self.entries.deep_view().subrange(0, n as int) =~~= self.entries.deep_view());
        }
        PathVar { entries: kept }
    }

    /// Insert the given entries, in their given order, before all current
    /// entries.
    pub fn prefix(self, paths: &[&str]) -> (r: PathVar)
        ensures
            r@ == paths.deep_view() + self@,
    {
        let ghost orig = self@;
        let ps: Vec<&str> = slice_to_vec(paths);
        let mut out: Vec<String> = Vec::new();
        let n = ps.len();
        let mut i: usize = 0;
        while i < n
            invariant
                n == ps.len(),
                i <= n,
                ps@ == paths@,
                out.deep_view() == paths.deep_view().subrange(0, i as int),
            decreases n - i,
        {
            let ghost out_dv = out.deep_view();
            out.push(String::from_str(ps[i]));
            proof {
                assert(paths.deep_view()[i as int] == ps[i as int]@);
                assert(out.deep_view() =~~= out_dv.push(ps[i as int]@));
                assert(paths.deep_view().subrange(0, i as int + 1) =~~= out_dv.push(
                    ps[i as int]@,
                ));
            }
            i = i + 1;
        }
        let mut rest = self.entries;
        out.append(&mut rest);
        proof {
            assert(paths.deep_view().subrange(0, n as int) =~~= paths.deep_view());
            assert(out.deep_view() =~~= paths.deep_view() + orig);
        }
        PathVar { entries: out }
    }

    /// Insert one entry before all current entries.
    pub fn prefix_entry(self, path: &str) -> (r: PathVar)
        ensures
            r@ == seq![path@] + self@,
    {
        let ghost orig = self@;
        let mut entries = self.entries;
        entries.insert(0, String::from_str(path));
        proof {
            assert(entries.deep_view() =~~= seq![path@] + orig);
        }
        PathVar { entries }
    }

    /// Append the given entries, in their given order, after all current
    /// entries.
    pub fn suffix(self, paths: &[&str]) -> (r: PathVar)
        ensures
            r@ == self@ + paths.deep_view(),
    {
        let ghost orig = self@;
        let ps: Vec<&str> = slice_to_vec(paths);
        let mut out = self.entries;
        let n = ps.len();
        let mut i: usize = 0;
        while i < n
            invariant
                n == ps.len(),
                i <= n,
                ps@ == paths@,
                out.deep_view() == orig + paths.deep_view().subrange(0, i as int),
            decreases n - i,
        {
            let ghost out_dv = out.deep_view();
            out.push(String::from_str(ps[i]));
            proof {
                assert(paths.deep_view()[i as int] == ps[i as int]@);
                assert(out.deep_view() =~~= out_dv.push(ps[i as int]@));
                assert(orig + paths.deep_view().subrange(0, i as int + 1) =~~= out_dv.push(
                    ps[i as int]@,
                ));
            }
            i = i + 1;
        }
        proof {
            assert(paths.deep_view().subrange(0, n as int) =~~= paths.deep_view());
        }
        PathVar { entries: out }
    }

    /// Append one entry after all current entries.
    pub fn suffix_entry(self, path: &str) -> (r: PathVar)
        ensures
            r@ == self@.push(path@),
    {
        let ghost orig = self@;
        let mut entries = self.entries;
        entries.push(String::from_str(path));
        proof {
            assert(entries.deep_view() =~~= orig.push(path@));
        }
        PathVar { entries }
    }

    /// Serialize the entries back into one delimited string, consuming the
    /// sequence. Succeeds exactly when no entry contains the delimiter
    /// character; otherwise the sequence has no lossless serialized form and
    /// an error is returned instead of a corrupted string.
    pub fn join(self) -> (r: Result<Var, JoinError>)
        ensures
            r is Ok <==> all_entries_ok(self@),
            r is Ok ==> r->Ok_0@ == join_entries(self@),
    {
        let n = self.entries.len();
        let mut out = String::new();
        let mut k: usize = 0;
        while k < n
            invariant
                n == self.entries.len(),
                k <= n,
                forall|j: int| 0 <= j < k ==> !(#[trigger] self.entries.deep_view()[j]).contains(
                    DELIMITER,
                ),
                out@ == join_entries(self.entries.deep_view().subrange(0, k as int)),
            decreases n - k,
        {
            let ghost dv = self.entries.deep_view();
            let ghost pre = dv.subrange(0, k as int);
            let ghost cur = dv.subrange(0, k as int + 1);
            proof {
                assert(cur.drop_last() =~~= pre);
                assert(cur.last() == self.entries[k as int]@);
            }
            let e = &self.entries[k];
            if contains_delimiter(e.as_str()) {
                proof {
                    assert(!all_entries_ok(self@)) by {
                        assert(self@[k as int].contains(DELIMITER));
                    }
                }
                return Err(JoinError);
            }
            if k > 0 {
                out.append(":");
                proof {
                    reveal_strlit(":");
                    assert(":"@ =~= seq![DELIMITER]);
                }
            }
            out.append(e.as_str());
            proof {
                if k == 0 {
                    assert(cur =~~= seq![dv[0]]);
                    assert(join_entries(cur) == dv[0]);
                } else {
                    assert(join_entries(cur) == join_entries(pre) + seq![DELIMITER] + dv[
                        k as int
                    ]);
                }
            }
            k = k + 1;
        }
        proof {
            assert(self.entries.deep_view().subrange(0, n as int) =~~= self@);
        }
        Ok(Var::from_string(out))
    }

    /// Yield the first remaining entry, or nothing once the sequence is
    /// exhausted. Exhaustion is terminal: once empty, every further call
    /// yields nothing.
    pub fn next(&mut self) -> (r: Option<String>)
        ensures
            old(self)@.len() == 0 ==> r is None && final(self)@ == old(self)@,
            old(self)@.len() > 0 ==> r is Some && r->Some_0@ == old(self)@[0] && final(self)@
                == old(self)@.drop_first(),
    {
        if self.entries.len() == 0 {
            None
        } else {
            let e = self.entries.remove(0);
            proof {
                assert(self.entries.deep_view() =~~= old(self)@.drop_first());
            }
            Some(e)
        }
    }

    /// Consume the whole remaining sequence, reporting how many entries it
    /// held. The sequence is exhausted afterwards: it is not restartable, so
    /// a second consumption yields no entries.
    pub fn count(&mut self) -> (n: usize)
        ensures
            n == old(self)@.len(),
            final(self)@.len() == 0,
    {
        let n = self.entries.len();
        self.entries.clear();
        n
    }

    /// How many entries remain, without consuming them.
    pub fn len(&self) -> (n: usize)
        ensures
            n == self@.len(),
    {
        self.entries.len()
    }
}

} // verus!
