//! Character-level utilities shared by the history store, the
//! tokenizer and the environment-file parser: a whitespace predicate,
//! a lexicographic (code-point) order on lines with its ordering laws,
//! and executable comparison helpers.

use vstd::prelude::*;

verus! {

/// The characters treated as token separators by the tokenizer: the
/// Unicode white-space set (the one `char::is_whitespace` recognises).
pub open spec fn is_space(c: char) -> bool {
    (0x9 <= (c as u32) && (c as u32) <= 0xd) || c == ' ' || c == '\u{85}' || c == '\u{a0}'
        || c == '\u{1680}' || (0x2000 <= (c as u32) && (c as u32) <= 0x200a) || c == '\u{2028}'
        || c == '\u{2029}' || c == '\u{202f}' || c == '\u{205f}' || c == '\u{3000}'
}

/// Lexicographic order on lines by Unicode code point: the order in
/// which history entries are kept behind the promoted head.
pub open spec fn line_le(a: Seq<char>, b: Seq<char>) -> bool
    decreases a.len(),
{
    if a.len() == 0 {
        true
    } else if b.len() == 0 {
        false
    } else if a[0] == b[0] {
        line_le(a.drop_first(), b.drop_first())
    } else {
        (a[0] as u32) < (b[0] as u32)
    }
}

/// The order `line_le`, packaged for `sorted_by` and `sort_by`.
pub open spec fn line_order() -> spec_fn(Seq<char>, Seq<char>) -> bool {
    |a: Seq<char>, b: Seq<char>| line_le(a, b)
}

/// `line_le` holds in at least one direction between any two lines.
pub proof fn lemma_line_le_connected(a: Seq<char>, b: Seq<char>)
    ensures
        line_le(a, b) || line_le(b, a),
    decreases a.len(),
{
    if a.len() == 0 || b.len() == 0 {
    } else if a[0] == b[0] {
        lemma_line_le_connected(a.drop_first(), b.drop_first());
    } else {
        lemma_char_code_injective(a[0], b[0]);
    }
}

/// Distinct characters have distinct code points.
pub proof fn lemma_char_code_injective(a: char, b: char)
    requires
        a != b,
    ensures
        (a as u32) != (b as u32),
{
    broadcast use vstd::utf8::char_is_scalar;

    if (a as u32) == (b as u32) {
        vstd::utf8::char_u32_cast(a, a as u32);
        vstd::utf8::char_u32_cast(b, b as u32);
    }
}

/// `line_le` in both directions means the lines are equal.
pub proof fn lemma_line_le_antisymmetric(a: Seq<char>, b: Seq<char>)
    requires
        line_le(a, b),
        line_le(b, a),
    ensures
        a == b,
    decreases a.len(),
{
    if a.len() == 0 {
        assert(b.len() == 0);
        assert(a =~= b);
    } else if a[0] == b[0] {
        lemma_line_le_antisymmetric(a.drop_first(), b.drop_first());
        assert(a =~= seq![a[0]] + a.drop_first());
        assert(b =~= seq![b[0]] + b.drop_first());
    }
}

/// `line_le` is transitive.
pub proof fn lemma_line_le_transitive(a: Seq<char>, b: Seq<char>, c: Seq<char>)
    requires
        line_le(a, b),
        line_le(b, c),
    ensures
        line_le(a, c),
    decreases a.len(),
{
    if a.len() == 0 || b.len() == 0 || c.len() == 0 {
    } else if a[0] == b[0] && b[0] == c[0] {
        lemma_line_le_transitive(a.drop_first(), b.drop_first(), c.drop_first());
    }
}

/// `line_order` is a total ordering, as `sort_by` and
/// `lemma_sorted_unique` require.
pub proof fn lemma_line_order_total()
    ensures
        vstd::relations::total_ordering(line_order()),
{
    let leq = line_order();
    assert forall|a: Seq<char>, b: Seq<char>| #[trigger] leq(a, b) && #[trigger] leq(b, a)
        implies a == b by {
        lemma_line_le_antisymmetric(a, b);
    }
    assert forall|a: Seq<char>, b: Seq<char>, c: Seq<char>|
        #[trigger] leq(a, b) && #[trigger] leq(b, c) implies leq(a, c) by {
        lemma_line_le_transitive(a, b, c);
    }
    assert forall|a: Seq<char>, b: Seq<char>| #![trigger leq(a, b)] true
        implies leq(a, b) || leq(b, a) by {
        lemma_line_le_connected(a, b);
    }
}

/// Dropping an equal first character on both sides keeps `line_le`.
proof fn lemma_line_le_step(a: Seq<char>, b: Seq<char>, i: int)
    requires
        0 <= i < a.len(),
        i < b.len(),
        a.subrange(0, i) == b.subrange(0, i),
        a[i] == b[i],
    ensures
        line_le(a.skip(i), b.skip(i)) == line_le(a.skip(i + 1), b.skip(i + 1)),
{
    assert(a.skip(i)[0] == a[i]);
    assert(b.skip(i)[0] == b[i]);
    assert(a.skip(i).drop_first() =~= a.skip(i + 1));
    assert(b.skip(i).drop_first() =~= b.skip(i + 1));
}

/// Decides `line_le` on two strings by comparing code points.
pub fn line_le_exec(a: &str, b: &str) -> (r: bool)
    ensures
        r == line_le(a@, b@),
{
    let a_len = a.unicode_len();
    let b_len = b.unicode_len();
    let mut i: usize = 0;
    proof {
        assert(a@.skip(0) =~= a@);
        assert(b@.skip(0) =~= b@);
        assert(a@.subrange(0, 0) =~= b@.subrange(0, 0));
    }
    loop
        invariant
            i <= a_len,
            i <= b_len,
            a_len == a@.len(),
            b_len == b@.len(),
            a@.subrange(0, i as int) == b@.subrange(0, i as int),
            line_le(a@, b@) == line_le(a@.skip(i as int), b@.skip(i as int)),
        decreases a_len - i,
    {
        if i >= a_len {
            assert(a@.skip(i as int).len() == 0);
            return true;
        }
        if i >= b_len {
            assert(b@.skip(i as int).len() == 0);
            assert(a@.skip(i as int).len() > 0);
            return false;
        }
        let ca = a.get_char(i);
        let cb = b.get_char(i);
        if ca == cb {
            proof {
                lemma_line_le_step(a@, b@, i as int);
                assert(a@.subrange(0, i + 1) =~= a@.subrange(0, i as int).push(ca));
                assert(b@.subrange(0, i + 1) =~= b@.subrange(0, i as int).push(cb));
            }
            i = i + 1;
        } else {
            assert(a@.skip(i as int)[0] == ca);
            assert(b@.skip(i as int)[0] == cb);
            return (ca as u32) < (cb as u32);
        }
    }
}

/// True when the two strings hold the same characters.
pub fn str_eq(a: &str, b: &str) -> (r: bool)
    ensures
        r == (a@ == b@),
{
    let a_len = a.unicode_len();
    let b_len = b.unicode_len();
    if a_len != b_len {
        return false;
    }
    let mut i: usize = 0;
    proof {
        assert(a@.subrange(0, 0) =~= b@.subrange(0, 0));
    }
    while i < a_len
        invariant
            i <= a_len,
            a_len == a@.len(),
            b_len == b@.len(),
            a_len == b_len,
            a@.subrange(0, i as int) == b@.subrange(0, i as int),
        decreases a_len - i,
    {
        let ca = a.get_char(i);
        let cb = b.get_char(i);
        if ca != cb {
            return false;
        }
        proof {
            assert(a@.subrange(0, i + 1) =~= a@.subrange(0, i as int).push(ca));
            assert(b@.subrange(0, i + 1) =~= b@.subrange(0, i as int).push(cb));
        }
        i = i + 1;
    }
    proof {
        assert(a@ =~= a@.subrange(0, a_len as int));
        assert(b@ =~= b@.subrange(0, b_len as int));
    }
    true
}

/// True when `s` ends with the characters of `suffix`.
pub open spec fn spec_ends_with(s: Seq<char>, suffix: Seq<char>) -> bool {
    s.len() >= suffix.len() && s.skip(s.len() - suffix.len()) == suffix
}

/// Decides `spec_ends_with` on two strings.
pub fn ends_with(s: &str, suffix: &str) -> (r: bool)
    ensures
        r == spec_ends_with(s@, suffix@),
{
    let s_len = s.unicode_len();
    let suf_len = suffix.unicode_len();
    if s_len < suf_len {
        return false;
    }
    let start = s_len - suf_len;
    let mut i: usize = 0;
    proof {
        assert(s@.skip(start as int).subrange(0, 0) =~= suffix@.subrange(0, 0));
    }
    while i < suf_len
        invariant
            i <= suf_len,
            s_len == s@.len(),
            suf_len == suffix@.len(),
            start == s_len - suf_len,
            s@.skip(start as int).subrange(0, i as int) == suffix@.subrange(0, i as int),
        decreases suf_len - i,
    {
        let cs = s.get_char(start + i);
        let cf = suffix.get_char(i);
        proof {
            assert(s@.skip(start as int)[i as int] == s@[start + i]);
        }
        if cs != cf {
            return false;
        }
        proof {
            assert(s@.skip(start as int).subrange(0, i + 1) =~= s@.skip(start as int).subrange(
                0,
                i as int,
            ).push(cs));
            assert(suffix@.subrange(0, i + 1) =~= suffix@.subrange(0, i as int).push(cf));
        }
        i = i + 1;
    }
    proof {
        assert(s@.skip(start as int) =~= s@.skip(start as int).subrange(0, suf_len as int));
        assert(suffix@ =~= suffix@.subrange(0, suf_len as int));
    }
    true
}

/// Relies on `String::push`: appends one character to the string.
#[verifier::external_body]
pub(crate) fn push_char(s: &mut String, c: char)
    ensures
        final(s)@ == old(s)@.push(c),
{
    s.push(c)
}

} // verus!
