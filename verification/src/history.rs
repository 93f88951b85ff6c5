//! The history store: an ordered list of remembered command lines,
//! kept one per line in a plain-text file.
//!
//! The store is modelled as a `Seq<Seq<char>>`. `parse_history` turns
//! file text into the list, `render_history` turns the list back into
//! file text, `promote` moves an entry to the front and sorts the
//! remainder, and the proof functions at the end state the laws the
//! store obeys: promotion is idempotent, promotion never duplicates,
//! and rendering followed by parsing reproduces the list.

use vstd::prelude::*;
use vstd::multiset::Multiset;

use crate::text::line_le;
use crate::text::line_le_exec;
use crate::text::line_order;
use crate::text::push_char;
use crate::text::str_eq;
use crate::text::lemma_line_le_connected;
use crate::text::lemma_line_le_transitive;
use crate::text::lemma_line_order_total;

verus! {

/// A line as it may appear as a history entry in the file: it holds no
/// newline and does not end in a carriage return, so writing and
/// re-reading it gives the same line back.
pub open spec fn line_wf(l: Seq<char>) -> bool {
    !l.contains('\n') && (l.len() == 0 || l[l.len() - 1] != '\r')
}

/// A line as read from the file: a terminating `"\r\n"` loses the
/// carriage return along with the newline.
pub open spec fn strip_cr(l: Seq<char>) -> Seq<char> {
    if l.len() > 0 && l[l.len() - 1] == '\r' {
        l.drop_last()
    } else {
        l
    }
}

/// The lines of `rest`, given that the characters of `cur` have
/// already been read from the current line.
pub open spec fn lines_rec(cur: Seq<char>, rest: Seq<char>) -> Seq<Seq<char>>
    decreases rest.len(),
{
    if rest.len() == 0 {
        if cur.len() == 0 {
            Seq::empty()
        } else {
            seq![cur]
        }
    } else if rest[0] == '\n' {
        seq![strip_cr(cur)] + lines_rec(Seq::empty(), rest.drop_first())
    } else {
        lines_rec(cur.push(rest[0]), rest.drop_first())
    }
}

/// The history list held in the given file text: one entry per
/// newline-terminated line, a terminating carriage return stripped, a
/// final unterminated line kept as it stands.
pub open spec fn spec_lines(text: Seq<char>) -> Seq<Seq<char>> {
    lines_rec(Seq::empty(), text)
}

/// The file text that persists the given history list: each entry
/// followed by one newline.
pub open spec fn spec_render(h: Seq<Seq<char>>) -> Seq<char>
    decreases h.len(),
{
    if h.len() == 0 {
        Seq::empty()
    } else {
        h[0] + seq!['\n'] + spec_render(h.drop_first())
    }
}

/// The predicate that keeps every entry other than `l`.
pub open spec fn not_line(l: Seq<char>) -> spec_fn(Seq<char>) -> bool {
    |x: Seq<char>| x != l
}

/// The promoted history: `l` in front, every other entry behind it in
/// ascending code-point order, every prior occurrence of `l` removed.
pub open spec fn spec_promote(h: Seq<Seq<char>>, l: Seq<char>) -> Seq<Seq<char>> {
    seq![l] + h.filter(not_line(l)).sort_by(line_order())
}

/// How often `l` occurs in the history `h`.
pub open spec fn entry_count(h: Seq<Seq<char>>, l: Seq<char>) -> nat {
    h.to_multiset().count(l)
}

/// Splits history file text into its entries.
pub fn parse_history(text: &str) -> (r: Vec<String>)
    ensures
        r.deep_view() == spec_lines(text@),
{
    let len = text.unicode_len();
    let mut r: Vec<String> = Vec::new();
    let mut cur = String::new();
    let mut cur_len: usize = 0;
    let mut i: usize = 0;
    proof {
        assert(text@.skip(0) =~= text@);
        assert(r.deep_view() =~= Seq::<Seq<char>>::empty());
    }
    while i < len
        invariant
            i <= len,
            len == text@.len(),
            cur_len == cur@.len(),
            cur_len <= i,
            !cur@.contains('\n'),
            spec_lines(text@) == r.deep_view() + lines_rec(cur@, text@.skip(i as int)),
        decreases len - i,
    {
        let c = text.get_char(i);
        proof {
            assert(text@.skip(i as int)[0] == c);
            assert(text@.skip(i as int).drop_first() =~= text@.skip(i + 1));
        }
        if c == '\n' {
            let ghost prev = r.deep_view();
            let line = finish_line(cur, cur_len);
            r.push(line);
            proof {
                assert(r.deep_view() =~= prev + seq![strip_cr(cur@)]);
                assert(prev + (seq![strip_cr(cur@)] + lines_rec(
                    Seq::empty(),
                    text@.skip(i + 1),
                )) =~= (prev + seq![strip_cr(cur@)]) + lines_rec(Seq::empty(), text@.skip(i + 1)));
            }
            cur = String::new();
            cur_len = 0;
        } else {
            push_char(&mut cur, c);
            cur_len = cur_len + 1;
        }
        i = i + 1;
    }
    proof {
        assert(text@.skip(len as int) =~= Seq::<char>::empty());
    }
    if cur_len > 0 {
        let ghost prev = r.deep_view();
        r.push(cur);
        proof {
            assert(r.deep_view() =~= prev + seq![cur@]);
        }
    } else {
        proof {
            assert(cur@ =~= Seq::<char>::empty());
            assert(r.deep_view() + lines_rec(cur@, Seq::empty()) =~= r.deep_view());
        }
    }
    r
}

/// The current line once its newline has been read: a terminating
/// carriage return is dropped.
fn finish_line(cur: String, cur_len: usize) -> (r: String)
    requires
        cur_len == cur@.len(),
    ensures
        r@ == strip_cr(cur@),
{
    if cur_len > 0 && cur.as_str().get_char(cur_len - 1) == '\r' {
        let shorter = cur.as_str().substring_char(0, cur_len - 1);
        proof {
            assert(cur@.subrange(0, cur_len - 1) =~= cur@.drop_last());
        }
        shorter.to_owned()
    } else {
        cur
    }
}

/// Renders a history list as the file text that persists it.
pub fn render_history(h: &Vec<String>) -> (r: String)
    ensures
        r@ == spec_render(h.deep_view()),
{
    let ghost dv = h.deep_view();
    let mut out = String::new();
    let mut i: usize = 0;
    proof {
        assert(dv.take(0) =~= Seq::<Seq<char>>::empty());
        assert(out@ =~= spec_render(dv.take(0)));
    }
    while i < h.len()
        invariant
            i <= h.len(),
            dv == h.deep_view(),
            dv.len() == h@.len(),
            out@ == spec_render(dv.take(i as int)),
        decreases h.len() - i,
    {
        let entry: &String = &h[i];
        out.append(entry.as_str());
        out.append("\n");
        proof {
            reveal_strlit("\n");
            assert("\n"@ =~= seq!['\n']);
            assert(dv.take(i + 1) =~= dv.take(i as int) + seq![dv[i as int]]);
            lemma_render_concat(dv.take(i as int), seq![dv[i as int]]);
            let single = seq![dv[i as int]];
            assert(single[0] == dv[i as int]);
            assert(single.drop_first() =~= Seq::<Seq<char>>::empty());
            assert(spec_render(single.drop_first()) =~= Seq::<char>::empty());
            assert(spec_render(single) =~= dv[i as int] + seq!['\n']);
            assert(out@ =~= spec_render(dv.take(i as int)) + (dv[i as int] + seq!['\n']));
        }
        i = i + 1;
    }
    proof {
        assert(dv.take(h@.len() as int) =~= dv);
    }
    out
}

/// Rendering a concatenation renders the parts one after the other.
pub proof fn lemma_render_concat(a: Seq<Seq<char>>, b: Seq<Seq<char>>)
    ensures
        spec_render(a + b) == spec_render(a) + spec_render(b),
    decreases a.len(),
{
    if a.len() == 0 {
        assert(a + b =~= b);
        assert(spec_render(a) =~= Seq::<char>::empty());
        assert(spec_render(a) + spec_render(b) =~= spec_render(b));
    } else {
        assert((a + b).drop_first() =~= a.drop_first() + b);
        lemma_render_concat(a.drop_first(), b);
        assert((a + b)[0] == a[0]);
        assert(a[0] + seq!['\n'] + (spec_render(a.drop_first()) + spec_render(b)) =~= (a[0]
            + seq!['\n'] + spec_render(a.drop_first())) + spec_render(b));
    }
}

/// Exact-match membership test over the history list.
pub fn contains_line(h: &Vec<String>, line: &str) -> (r: bool)
    ensures
        r == h.deep_view().contains(line@),
{
    let ghost dv = h.deep_view();
    let mut i: usize = 0;
    while i < h.len()
        invariant
            i <= h.len(),
            dv == h.deep_view(),
            dv.len() == h@.len(),
            forall|k: int| 0 <= k < i ==> dv[k] != line@,
        decreases h.len() - i,
    {
        if str_eq(h[i].as_str(), line) {
            proof {
                assert(dv[i as int] == line@);
            }
            return true;
        }
        i = i + 1;
    }
    proof {
        if dv.contains(line@) {
            let k = choose|k: int| 0 <= k < dv.len() && dv[k] == line@;
            assert(dv[k] != line@);
        }
    }
    false
}

/// Sorts a list of lines into ascending code-point order.
pub fn sort_lines(v: &Vec<String>) -> (r: Vec<String>)
    ensures
        r.deep_view() == v.deep_view().sort_by(line_order()),
{
    let ghost dv = v.deep_view();
    let mut r: Vec<String> = Vec::new();
    let mut i: usize = 0;
    proof {
        broadcast use vstd::seq_lib::group_to_multiset_ensures;

        assert(dv.take(0) =~= Seq::<Seq<char>>::empty());
        assert(r.deep_view() =~= Seq::<Seq<char>>::empty());
        assert(r.deep_view().to_multiset() =~= dv.take(0).to_multiset());
    }
    while i < v.len()
        invariant
            i <= v.len(),
            dv == v.deep_view(),
            dv.len() == v@.len(),
            vstd::relations::sorted_by(r.deep_view(), line_order()),
            r.deep_view().to_multiset() == dv.take(i as int).to_multiset(),
        decreases v.len() - i,
    {
        let entry = v[i].clone();
        proof {
            assert(entry@ == dv[i as int]);
        }
        insert_sorted(&mut r, entry);
        proof {
            broadcast use vstd::seq_lib::to_multiset_build;

            assert(dv.take(i + 1) =~= dv.take(i as int).push(dv[i as int]));
        }
        i = i + 1;
    }
    proof {
        assert(dv.take(v@.len() as int) =~= dv);
        lemma_line_order_total();
        dv.lemma_sort_by_ensures(line_order());
        vstd::seq_lib::lemma_sorted_unique(
            r.deep_view(),
            dv.sort_by(line_order()),
            line_order(),
        );
    }
    r
}

/// Inserts one line into an already sorted list, keeping it sorted.
fn insert_sorted(r: &mut Vec<String>, entry: String)
    requires
        vstd::relations::sorted_by(old(r).deep_view(), line_order()),
    ensures
        vstd::relations::sorted_by(final(r).deep_view(), line_order()),
        final(r).deep_view().to_multiset() == old(r).deep_view().to_multiset().insert(entry@),
{
    let ghost odv = old(r).deep_view();
    let j = insert_position(r, &entry);
    proof {
        if (j as int) < odv.len() {
            lemma_line_le_connected(odv[j as int], entry@);
            assert(line_le(entry@, odv[j as int]));
        }
    }
    let ghost jj = j as int;
    r.insert(j, entry);
    proof {
        broadcast use vstd::seq_lib::to_multiset_insert;

        let ndv = r.deep_view();
        let leq = line_order();
        assert(ndv =~= odv.insert(jj, entry@));
        assert forall|x: int, y: int| 0 <= x < y < ndv.len() implies #[trigger] leq(
            ndv[x],
            ndv[y],
        ) by {
            if y < jj {
                assert(leq(odv[x], odv[y]));
            } else if y == jj {
                assert(ndv[x] == odv[x]);
                assert(line_le(odv[x], entry@));
            } else {
                assert(ndv[y] == odv[y - 1]);
                if x < jj {
                    assert(ndv[x] == odv[x]);
                    assert(x < y - 1);
                    assert(leq(odv[x], odv[y - 1]));
                } else if x == jj {
                    assert(jj <= y - 1 < odv.len());
                    if y - 1 == jj {
                    } else {
                        assert(leq(odv[jj], odv[y - 1]));
                        lemma_line_le_transitive(entry@, odv[jj], odv[y - 1]);
                    }
                } else {
                    assert(ndv[x] == odv[x - 1]);
                    assert(leq(odv[x - 1], odv[y - 1]));
                }
            }
        }
        assert(vstd::relations::sorted_by(ndv, line_order()));
    }
}

/// The first position whose entry is not `line_le`-below `entry`; all
/// entries before it are.
fn insert_position(r: &Vec<String>, entry: &String) -> (j: usize)
    ensures
        j <= r@.len(),
        forall|k: int| 0 <= k < j ==> line_le(#[trigger] r.deep_view()[k], entry@),
        j < r@.len() ==> !line_le(r.deep_view()[j as int], entry@),
{
    let ghost dv = r.deep_view();
    let mut j: usize = 0;
    loop
        invariant
            j <= r@.len(),
            dv == r.deep_view(),
            dv.len() == r@.len(),
            forall|k: int| 0 <= k < j ==> line_le(#[trigger] dv[k], entry@),
        decreases r@.len() - j,
    {
        if j >= r.len() {
            return j;
        }
        if !line_le_exec(r[j].as_str(), entry.as_str()) {
            return j;
        }
        proof {
            assert(dv[j as int] == r@[j as int]@);
        }
        j = j + 1;
    }
}

/// Produces the promoted history: `line` in front, the other entries
/// behind it in ascending code-point order, prior occurrences of
/// `line` removed.
pub fn promote(h: &Vec<String>, line: &str) -> (r: Vec<String>)
    ensures
        r.deep_view() == spec_promote(h.deep_view(), line@),
{
    let ghost dv = h.deep_view();
    let ghost pred = not_line(line@);
    let mut rest: Vec<String> = Vec::new();
    let mut i: usize = 0;
    proof {
        reveal(Seq::filter);
        assert(dv.take(0) =~= Seq::<Seq<char>>::empty());
        assert(rest.deep_view() =~= dv.take(0).filter(pred));
    }
    while i < h.len()
        invariant
            i <= h.len(),
            dv == h.deep_view(),
            pred == not_line(line@),
            dv.len() == h@.len(),
            rest.deep_view() == dv.take(i as int).filter(pred),
        decreases h.len() - i,
    {
        let ghost prev = rest.deep_view();
        if !str_eq(h[i].as_str(), line) {
            let entry = h[i].clone();
            proof {
                assert(entry@ == dv[i as int]);
            }
            rest.push(entry);
            proof {
                assert(rest.deep_view() =~= prev.push(dv[i as int]));
            }
        }
        proof {
            reveal(Seq::filter);
            assert(dv.take(i + 1).drop_last() =~= dv.take(i as int));
            assert(dv.take(i + 1).last() == dv[i as int]);
        }
        i = i + 1;
    }
    proof {
        assert(dv.take(h@.len() as int) =~= dv);
    }
    let sorted = sort_lines(&rest);
    let mut r: Vec<String> = Vec::new();
    r.push(line.to_owned());
    let ghost head = r.deep_view();
    let mut tail = sorted;
    let ghost tail_dv = tail.deep_view();
    r.append(&mut tail);
    proof {
        assert(head =~= seq![line@]);
        assert(r.deep_view() =~= head + tail_dv);
    }
    r
}

/// Promotion is idempotent: promoting a line into a history it was
/// already promoted to the front of changes nothing.
pub proof fn lemma_promote_idempotent(h: Seq<Seq<char>>, l: Seq<char>)
    ensures
        spec_promote(spec_promote(h, l), l) == spec_promote(h, l),
{
    broadcast use vstd::seq_lib::group_to_multiset_ensures;

    let pred = not_line(l);
    let f = h.filter(pred);
    let s = f.sort_by(line_order());
    lemma_line_order_total();
    f.lemma_sort_by_ensures(line_order());
    let p = spec_promote(h, l);
    Seq::filter_distributes_over_add(seq![l], s, pred);
    assert(p =~= seq![l] + s);
    lemma_filter_single_out(l);
    assert forall|i: int| 0 <= i < s.len() implies pred(#[trigger] s[i]) by {
        assert(s.to_multiset().contains(s[i]));
        assert(f.contains(s[i]));
        let k = choose|k: int| 0 <= k < f.len() && f[k] == s[i];
        h.lemma_filter_pred(pred, k);
    }
    lemma_filter_all(s, pred);
    assert(p.filter(pred) =~= s);
    s.lemma_sort_by_ensures(line_order());
    vstd::seq_lib::lemma_sorted_unique(s.sort_by(line_order()), s, line_order());
    assert(spec_promote(p, l) =~= seq![l] + s);
}

/// Filtering a one-entry history of exactly that entry empties it.
proof fn lemma_filter_single_out(l: Seq<char>)
    ensures
        seq![l].filter(not_line(l)) == Seq::<Seq<char>>::empty(),
{
    reveal(Seq::filter);
    let pred = not_line(l);
    assert(!pred(l));
    assert(seq![l].len() == 1);
    assert(seq![l].last() == l);
    assert(seq![l].drop_last() =~= Seq::<Seq<char>>::empty());
    assert(Seq::<Seq<char>>::empty().filter(pred) =~= Seq::<Seq<char>>::empty());
    assert(seq![l].filter(pred) == seq![l].drop_last().filter(pred));
}

/// A filter that every element passes changes nothing.
proof fn lemma_filter_all<A>(s: Seq<A>, pred: spec_fn(A) -> bool)
    requires
        forall|i: int| 0 <= i < s.len() ==> pred(#[trigger] s[i]),
    ensures
        s.filter(pred) == s,
    decreases s.len(),
{
    reveal(Seq::filter);
    if s.len() == 0 {
    } else {
        lemma_filter_all(s.drop_last(), pred);
        assert(pred(s.last()));
        assert(s.drop_last().push(s.last()) =~= s);
    }
}

/// Promotion never duplicates: the promoted line occurs exactly once
/// in the promoted history, whatever the history held before.
pub proof fn lemma_promote_no_duplicate(h: Seq<Seq<char>>, l: Seq<char>)
    ensures
        entry_count(spec_promote(h, l), l) == 1,
{
    broadcast use vstd::seq_lib::group_to_multiset_ensures;

    let pred = not_line(l);
    let f = h.filter(pred);
    let s = f.sort_by(line_order());
    lemma_line_order_total();
    f.lemma_sort_by_ensures(line_order());
    if s.to_multiset().count(l) > 0 {
        assert(f.contains(l));
        let k = choose|k: int| 0 <= k < f.len() && f[k] == l;
        h.lemma_filter_pred(pred, k);
    }
    vstd::seq_lib::lemma_multiset_commutative(seq![l], s);
    assert(seq![l] =~= Seq::<Seq<char>>::empty().push(l));
    assert(seq![l].to_multiset() =~= Multiset::<Seq<char>>::empty().insert(l));
}

/// Consuming a run of characters without a newline only moves them
/// onto the current line.
proof fn lemma_lines_rec_shift(cur: Seq<char>, p: Seq<char>, rest: Seq<char>)
    requires
        !p.contains('\n'),
    ensures
        lines_rec(cur, p + rest) == lines_rec(cur + p, rest),
    decreases p.len(),
{
    if p.len() == 0 {
        assert(p + rest =~= rest);
        assert(cur + p =~= cur);
    } else {
        assert((p + rest)[0] == p[0]);
        assert(p[0] != '\n') by {
            if p[0] == '\n' {
                assert(p.contains('\n'));
            }
        }
        assert((p + rest).drop_first() =~= p.drop_first() + rest);
        assert(!p.drop_first().contains('\n')) by {
            if p.drop_first().contains('\n') {
                let k = choose|k: int|
                    0 <= k < p.drop_first().len() && p.drop_first()[k] == '\n';
                assert(p[k + 1] == '\n');
            }
        }
        lemma_lines_rec_shift(cur.push(p[0]), p.drop_first(), rest);
        assert(cur.push(p[0]) + p.drop_first() =~= cur + p);
    }
}

/// Round trip: rendering a history of well-formed entries and parsing
/// the text back reproduces exactly the history that was rendered.
pub proof fn lemma_render_parse_round_trip(h: Seq<Seq<char>>)
    requires
        forall|i: int| 0 <= i < h.len() ==> line_wf(#[trigger] h[i]),
    ensures
        spec_lines(spec_render(h)) == h,
    decreases h.len(),
{
    if h.len() == 0 {
        assert(spec_lines(spec_render(h)) =~= Seq::<Seq<char>>::empty());
    } else {
        let x = h[0];
        let rest = h.drop_first();
        assert(line_wf(x));
        assert(spec_render(h) == x + seq!['\n'] + spec_render(rest));
        assert(x + seq!['\n'] + spec_render(rest) =~= x + (seq!['\n'] + spec_render(rest)));
        lemma_lines_rec_shift(Seq::empty(), x, seq!['\n'] + spec_render(rest));
        assert(Seq::<char>::empty() + x =~= x);
        let tail = seq!['\n'] + spec_render(rest);
        assert(tail[0] == '\n');
        assert(tail.drop_first() =~= spec_render(rest));
        assert(strip_cr(x) == x);
        assert forall|i: int| 0 <= i < rest.len() implies line_wf(#[trigger] rest[i]) by {
            assert(rest[i] == h[i + 1]);
        }
        lemma_render_parse_round_trip(rest);
        assert(seq![x] + rest =~= h);
    }
}

} // verus!
