//! Environment-file resolution: discovering candidate files by their
//! name suffix, deciding whether a disambiguation prompt is needed,
//! and parsing `KEY=VALUE` lines into a map.
//!
//! Each line is split at its first `=`; lines without `=` are ignored;
//! nothing is trimmed; a later line overrides an earlier one with the
//! same key.

use vstd::prelude::*;

use crate::text::spec_ends_with;
use crate::text::ends_with;
use crate::text::str_eq;

verus! {

/// Index of the first `=` in a line (the line's length when there is
/// none).
pub open spec fn eq_pos(l: Seq<char>) -> nat
    decreases l.len(),
{
    if l.len() == 0 {
        0
    } else if l[0] == '=' {
        0
    } else {
        1 + eq_pos(l.drop_first())
    }
}

/// The key of a `KEY=VALUE` line: everything before the first `=`.
pub open spec fn env_key(l: Seq<char>) -> Seq<char> {
    l.take(eq_pos(l) as int)
}

/// The value of a `KEY=VALUE` line: everything after the first `=`.
pub open spec fn env_value(l: Seq<char>) -> Seq<char> {
    l.skip(eq_pos(l) as int + 1)
}

/// `eq_pos` is exactly the position of the first `=`.
proof fn lemma_eq_pos_at(l: Seq<char>, j: int)
    requires
        0 <= j < l.len(),
        l[j] == '=',
        forall|k: int| 0 <= k < j ==> l[k] != '=',
    ensures
        eq_pos(l) == j,
    decreases j,
{
    if j == 0 {
    } else {
        assert(l[0] != '=');
        let rest = l.drop_first();
        assert(rest[j - 1] == l[j]);
        assert forall|k: int| 0 <= k < j - 1 implies rest[k] != '=' by {
            assert(rest[k] == l[k + 1]);
        }
        lemma_eq_pos_at(rest, j - 1);
    }
}

/// The environment map held in the given lines, later lines
/// overriding earlier ones with the same key.
pub open spec fn env_of_lines(lines: Seq<Seq<char>>) -> Map<Seq<char>, Seq<char>>
    decreases lines.len(),
{
    if lines.len() == 0 {
        Map::empty()
    } else {
        let m = env_of_lines(lines.drop_last());
        let l = lines.last();
        if l.contains('=') {
            m.insert(env_key(l), env_value(l))
        } else {
            m
        }
    }
}

/// Splits one line at its first `=` into key and value; `None` when
/// the line holds no `=` at all.
pub fn split_env_line(line: &str) -> (r: Option<(String, String)>)
    ensures
        match r {
            None => !line@.contains('='),
            Some(kv) => line@.contains('=') && kv.0@ == env_key(line@) && kv.1@ == env_value(
                line@,
            ),
        },
{
    let len = line.unicode_len();
    let mut j: usize = 0;
    while j < len
        invariant
            j <= len,
            len == line@.len(),
            forall|k: int| 0 <= k < j ==> line@[k] != '=',
        decreases len - j,
    {
        if line.get_char(j) == '=' {
            proof {
                lemma_eq_pos_at(line@, j as int);
                assert(line@.contains(line@[j as int]));
            }
            let key = line.substring_char(0, j);
            let value = line.substring_char(j + 1, len);
            proof {
                assert(line@.subrange(0, j as int) =~= line@.take(j as int));
                assert(line@.subrange(j + 1, len as int) =~= line@.skip(j + 1));
            }
            return Some((key.to_owned(), value.to_owned()));
        }
        j = j + 1;
    }
    proof {
        if line@.contains('=') {
            let k = choose|k: int| 0 <= k < line@.len() && line@[k] == '=';
            assert(line@[k] != '=');
        }
    }
    None
}

/// The pairs of an environment map, read left to right into a map.
pub open spec fn pairs_map(ps: Seq<(Seq<char>, Seq<char>)>) -> Map<Seq<char>, Seq<char>>
    decreases ps.len(),
{
    if ps.len() == 0 {
        Map::empty()
    } else {
        pairs_map(ps.drop_last()).insert(ps.last().0, ps.last().1)
    }
}

/// No two pairs share a key.
pub open spec fn keys_unique(ps: Seq<(Seq<char>, Seq<char>)>) -> bool {
    forall|i: int, j: int| 0 <= i < j < ps.len() ==> (#[trigger] ps[i]).0 != (#[trigger] ps[j]).0
}

/// A key is in the map exactly when some pair holds it.
proof fn lemma_pairs_map_dom(ps: Seq<(Seq<char>, Seq<char>)>, k: Seq<char>)
    ensures
        pairs_map(ps).dom().contains(k) <==> exists|i: int|
            0 <= i < ps.len() && (#[trigger] ps[i]).0 == k,
    decreases ps.len(),
{
    if ps.len() == 0 {
    } else {
        lemma_pairs_map_dom(ps.drop_last(), k);
        if ps.last().0 == k {
            assert(ps[ps.len() - 1].0 == k);
        } else if pairs_map(ps).dom().contains(k) {
            let i = choose|i: int| 0 <= i < ps.drop_last().len() && ps.drop_last()[i].0 == k;
            assert(ps[i].0 == k);
        } else if exists|i: int| 0 <= i < ps.len() && (#[trigger] ps[i]).0 == k {
            let i = choose|i: int| 0 <= i < ps.len() && (#[trigger] ps[i]).0 == k;
            assert(i < ps.len() - 1);
            assert(ps.drop_last()[i].0 == k);
        }
    }
}

/// With unique keys, each pair is mapped to its own value.
proof fn lemma_pairs_map_value(ps: Seq<(Seq<char>, Seq<char>)>, i: int)
    requires
        keys_unique(ps),
        0 <= i < ps.len(),
    ensures
        pairs_map(ps).dom().contains(ps[i].0),
        pairs_map(ps)[ps[i].0] == ps[i].1,
    decreases ps.len(),
{
    if i == ps.len() - 1 {
    } else {
        assert(keys_unique(ps.drop_last())) by {
            assert forall|x: int, y: int| 0 <= x < y < ps.drop_last().len() implies (
            #[trigger] ps.drop_last()[x]).0 != (#[trigger] ps.drop_last()[y]).0 by {
                assert(ps.drop_last()[x] == ps[x]);
                assert(ps.drop_last()[y] == ps[y]);
            }
        }
        assert(ps.drop_last()[i] == ps[i]);
        lemma_pairs_map_value(ps.drop_last(), i);
        assert(ps[i].0 != ps.last().0) by {
            assert(ps.last() == ps[ps.len() - 1]);
        }
    }
}

/// Removing one pair removes exactly its key from the map.
proof fn lemma_pairs_map_remove(ps: Seq<(Seq<char>, Seq<char>)>, idx: int)
    requires
        keys_unique(ps),
        0 <= idx < ps.len(),
    ensures
        pairs_map(ps.remove(idx)) == pairs_map(ps).remove(ps[idx].0),
        keys_unique(ps.remove(idx)),
    decreases ps.len(),
{
    let k = ps[idx].0;
    assert(keys_unique(ps.remove(idx))) by {
        let q = ps.remove(idx);
        assert forall|x: int, y: int| 0 <= x < y < q.len() implies (#[trigger] q[x]).0 != (
        #[trigger] q[y]).0 by {
            let xo: int = if x < idx {
                x
            } else {
                x + 1
            };
            let yo: int = if y < idx {
                y
            } else {
                y + 1
            };
            assert(q[x] == ps[xo]);
            assert(q[y] == ps[yo]);
        }
    }
    if idx == ps.len() - 1 {
        assert(ps.remove(idx) =~= ps.drop_last());
        lemma_pairs_map_dom(ps.drop_last(), k);
        assert forall|j: int| 0 <= j < ps.drop_last().len() implies (#[trigger] ps.drop_last(
        )[j]).0 != k by {
            assert(ps.drop_last()[j] == ps[j]);
        }
        assert(!pairs_map(ps.drop_last()).dom().contains(k));
        assert(pairs_map(ps.drop_last()) =~= pairs_map(ps).remove(k));
    } else {
        assert(keys_unique(ps.drop_last())) by {
            assert forall|x: int, y: int| 0 <= x < y < ps.drop_last().len() implies (
            #[trigger] ps.drop_last()[x]).0 != (#[trigger] ps.drop_last()[y]).0 by {
                assert(ps.drop_last()[x] == ps[x]);
                assert(ps.drop_last()[y] == ps[y]);
            }
        }
        assert(ps.drop_last()[idx] == ps[idx]);
        lemma_pairs_map_remove(ps.drop_last(), idx);
        let lk = ps.last().0;
        let lv = ps.last().1;
        assert(lk != k) by {
            assert(ps.last() == ps[ps.len() - 1]);
        }
        assert(ps.remove(idx).drop_last() =~= ps.drop_last().remove(idx));
        assert(ps.remove(idx).last() == ps.last());
        assert(pairs_map(ps.drop_last()).remove(k).insert(lk, lv) =~= pairs_map(
            ps.drop_last(),
        ).insert(lk, lv).remove(k));
    }
}

/// An environment map: keys unique, insertion overriding.
pub struct EnvMap {
    pairs: Vec<(String, String)>,
}

impl View for EnvMap {
    type V = Map<Seq<char>, Seq<char>>;

    closed spec fn view(&self) -> Map<Seq<char>, Seq<char>> {
        pairs_map(self.pairs.deep_view())
    }
}

impl EnvMap {
    /// The internal pair list never repeats a key.
    pub closed spec fn wf(&self) -> bool {
        keys_unique(self.pairs.deep_view())
    }

    /// The empty environment.
    pub fn new() -> (m: EnvMap)
        ensures
            m.wf(),
            m@ == Map::<Seq<char>, Seq<char>>::empty(),
    {
        let m = EnvMap { pairs: Vec::new() };
        proof {
            assert(m.pairs.deep_view() =~= Seq::<(Seq<char>, Seq<char>)>::empty());
        }
        m
    }

    /// Binds `key` to `value`, overriding any earlier binding.
    pub fn insert(&mut self, key: String, value: String)
        requires
            old(self).wf(),
        ensures
            final(self).wf(),
            final(self)@ == old(self)@.insert(key@, value@),
    {
        let ghost ops = self.pairs.deep_view();
        let n = self.pairs.len();
        let mut i: usize = 0;
        while i < n
            invariant
                i <= n,
                n == self.pairs@.len(),
                *self == *old(self),
                ops == self.pairs.deep_view(),
                ops.len() == n,
                keys_unique(ops),
                forall|k: int| 0 <= k < i ==> (#[trigger] ops[k]).0 != key@,
            decreases n - i,
        {
            if str_eq(self.pairs[i].0.as_str(), key.as_str()) {
                proof {
                    assert(ops[i as int].0 == key@);
                }
                let ghost ii = i as int;
                self.pairs.remove(i);
                proof {
                    assert(self.pairs.deep_view() =~= ops.remove(ii));
                    lemma_pairs_map_remove(ops, ii);
                }
                let ghost mid = self.pairs.deep_view();
                self.pairs.push((key, value));
                proof {
                    assert(self.pairs.deep_view().drop_last() =~= mid);
                    assert(self.pairs.deep_view().last() == (key@, value@));
                    assert(pairs_map(self.pairs.deep_view()) =~= pairs_map(mid).insert(
                        key@,
                        value@,
                    ));
                    assert(self@ =~= old(self)@.insert(key@, value@));
                    assert(keys_unique(self.pairs.deep_view())) by {
                        let q = self.pairs.deep_view();
                        assert forall|x: int, y: int| 0 <= x < y < q.len() implies (
                        #[trigger] q[x]).0 != (#[trigger] q[y]).0 by {
                            if y == q.len() - 1 {
                                assert(q[x] == mid[x]);
                                lemma_pairs_map_keys_differ(ops, ii, x);
                            } else {
                                assert(q[x] == mid[x]);
                                assert(q[y] == mid[y]);
                            }
                        }
                    }
                }
                return ;
            }
            proof {
                assert(ops[i as int].0 == self.pairs@[i as int].0@);
            }
            i = i + 1;
        }
        let ghost mid = self.pairs.deep_view();
        self.pairs.push((key, value));
        proof {
            assert(self.pairs.deep_view().drop_last() =~= mid);
            assert(self.pairs.deep_view().last() == (key@, value@));
            assert(self@ =~= old(self)@.insert(key@, value@));
            assert(keys_unique(self.pairs.deep_view())) by {
                let q = self.pairs.deep_view();
                assert forall|x: int, y: int| 0 <= x < y < q.len() implies (#[trigger] q[x]).0
                    != (#[trigger] q[y]).0 by {
                    if y == q.len() - 1 {
                        assert(q[x] == mid[x]);
                    } else {
                        assert(q[x] == mid[x]);
                        assert(q[y] == mid[y]);
                    }
                }
            }
        }
    }

    /// The bindings: every pair present in the map, no key repeated,
    /// and together exactly the map.
    pub fn entries(&self) -> (r: &Vec<(String, String)>)
        requires
            self.wf(),
        ensures
            keys_unique(r.deep_view()),
            pairs_map(r.deep_view()) == self@,
            forall|i: int|
                0 <= i < r.deep_view().len() ==> self@.dom().contains(
                    (#[trigger] r.deep_view()[i]).0,
                ) && self@[r.deep_view()[i].0] == r.deep_view()[i].1,
    {
        proof {
            assert forall|i: int| 0 <= i < self.pairs.deep_view().len() implies self@.dom(
            ).contains((#[trigger] self.pairs.deep_view()[i]).0) && self@[self.pairs.deep_view(
            )[i].0] == self.pairs.deep_view()[i].1 by {
                lemma_pairs_map_value(self.pairs.deep_view(), i);
            }
        }
        &self.pairs
    }
}

/// After removing the pair at `idx`, no remaining pair holds its key.
proof fn lemma_pairs_map_keys_differ(ps: Seq<(Seq<char>, Seq<char>)>, idx: int, x: int)
    requires
        keys_unique(ps),
        0 <= idx < ps.len(),
        0 <= x < ps.remove(idx).len(),
    ensures
        ps.remove(idx)[x].0 != ps[idx].0,
{
    if x < idx {
        assert(ps.remove(idx)[x] == ps[x]);
    } else {
        assert(ps.remove(idx)[x] == ps[x + 1]);
    }
}

/// Parses environment-file lines into the map they define.
pub fn parse_env_lines(lines: &Vec<String>) -> (m: EnvMap)
    ensures
        m.wf(),
        m@ == env_of_lines(lines.deep_view()),
{
    let ghost dv = lines.deep_view();
    let mut m = EnvMap::new();
    let mut i: usize = 0;
    proof {
        assert(dv.take(0) =~= Seq::<Seq<char>>::empty());
        assert(m@ =~= env_of_lines(dv.take(0)));
    }
    while i < lines.len()
        invariant
            i <= lines.len(),
            dv == lines.deep_view(),
            dv.len() == lines@.len(),
            m.wf(),
            m@ == env_of_lines(dv.take(i as int)),
        decreases lines.len() - i,
    {
        proof {
            assert(dv.take(i + 1).drop_last() =~= dv.take(i as int));
            assert(dv.take(i + 1).last() == dv[i as int]);
            assert(dv[i as int] == lines@[i as int]@);
        }
        match split_env_line(lines[i].as_str()) {
            Some(kv) => {
                let (key, value) = kv;
                m.insert(key, value);
            },
            None => (),
        }
        i = i + 1;
    }
    proof {
        assert(dv.take(lines@.len() as int) =~= dv);
    }
    m
}

/// The filenames that qualify as environment files: name ends with the
/// configured extension.
pub open spec fn candidate_pred(ext: Seq<char>) -> spec_fn(Seq<char>) -> bool {
    |n: Seq<char>| spec_ends_with(n, ext)
}

/// The environment-file candidates among the given directory entries,
/// in order; `None` when there is no candidate at all.
pub fn discover(names: &Vec<String>, ext: &str) -> (r: Option<Vec<String>>)
    ensures
        ({
            let cand = names.deep_view().filter(candidate_pred(ext@));
            match r {
                None => cand.len() == 0,
                Some(v) => cand.len() > 0 && v.deep_view() == cand,
            }
        }),
{
    let ghost dv = names.deep_view();
    let ghost pred = candidate_pred(ext@);
    let mut found: Vec<String> = Vec::new();
    let mut i: usize = 0;
    proof {
        reveal(Seq::filter);
        assert(dv.take(0) =~= Seq::<Seq<char>>::empty());
        assert(found.deep_view() =~= dv.take(0).filter(pred));
    }
    while i < names.len()
        invariant
            i <= names.len(),
            dv == names.deep_view(),
            pred == candidate_pred(ext@),
            dv.len() == names@.len(),
            found.deep_view() == dv.take(i as int).filter(pred),
        decreases names.len() - i,
    {
        let ghost prev = found.deep_view();
        if ends_with(names[i].as_str(), ext) {
            let entry = names[i].clone();
            proof {
                assert(entry@ == dv[i as int]);
            }
            found.push(entry);
            proof {
                assert(found.deep_view() =~= prev.push(dv[i as int]));
            }
        }
        proof {
            reveal(Seq::filter);
            assert(dv.take(i + 1).drop_last() =~= dv.take(i as int));
            assert(dv.take(i + 1).last() == dv[i as int]);
            assert(dv[i as int] == names@[i as int]@);
        }
        i = i + 1;
    }
    proof {
        assert(dv.take(names@.len() as int) =~= dv);
    }
    if found.len() == 0 {
        None
    } else {
        Some(found)
    }
}

/// How the environment for a run is to be obtained.
pub enum EnvPlan {
    /// No environment is injected: suppressed, or no candidate file.
    Empty,
    /// Exactly one candidate: parse it, no prompt.
    ParseSingle(String),
    /// Several candidates: a selection step is required among them.
    PromptAmong(Vec<String>),
}

/// Decides how the environment is obtained from the directory entries:
/// no candidate (or suppression) yields no environment, one candidate
/// is parsed without a prompt, several candidates require a selection.
pub fn env_plan(names: &Vec<String>, ext: &str, ignore_env: bool) -> (r: EnvPlan)
    ensures
        ({
            let cand = names.deep_view().filter(candidate_pred(ext@));
            match r {
                EnvPlan::Empty => ignore_env || cand.len() == 0,
                EnvPlan::ParseSingle(n) => !ignore_env && cand.len() == 1 && n@ == cand[0],
                EnvPlan::PromptAmong(v) => !ignore_env && cand.len() > 1 && v.deep_view()
                    == cand,
            }
        }),
{
    if ignore_env {
        return EnvPlan::Empty;
    }
    match discover(names, ext) {
        None => EnvPlan::Empty,
        Some(mut cand) => {
            if cand.len() == 1 {
                let single = cand.remove(0);
                proof {
                    assert(single@ == names.deep_view().filter(candidate_pred(ext@))[0]);
                }
                EnvPlan::ParseSingle(single)
            } else {
                EnvPlan::PromptAmong(cand)
            }
        },
    }
}

} // verus!
