//! The syntax validator: a balanced-parenthesis check that runs over the raw
//! text before (or instead of) any structural parse.

use vstd::prelude::*;

verus! {

/// The contribution of one character to the running parenthesis count.
pub open spec fn char_delta(c: char) -> int {
    if c == '(' {
        1
    } else if c == ')' {
        -1
    } else {
        0
    }
}

/// The number of `(` minus the number of `)` in `s`.
pub open spec fn paren_depth(s: Seq<char>) -> int
    decreases s.len(),
{
    if s.len() == 0 {
        0
    } else {
        paren_depth(s.drop_last()) + char_delta(s.last())
    }
}

/// A string is balanced when every `(` has a later matching `)` and no `)`
/// precedes its matching `(`: the parenthesis count of the whole string is
/// zero and the count of every prefix is nonnegative.
pub open spec fn balanced(s: Seq<char>) -> bool {
    &&& paren_depth(s) == 0
    &&& forall|k: int| 0 <= k <= s.len() ==> paren_depth(#[trigger] s.subrange(0, k)) >= 0
}

/// Extending a prefix by one character adds that character's contribution to
/// its parenthesis count.
proof fn lemma_depth_step(s: Seq<char>, i: int)
    requires
        0 <= i < s.len(),
    ensures
        paren_depth(s.subrange(0, i + 1)) == paren_depth(s.subrange(0, i)) + char_delta(s[i]),
{
    let ext = s.subrange(0, i + 1);
    assert(ext.drop_last() =~= s.subrange(0, i));
    assert(ext.last() == s[i]);
}

/// Scans the text once, keeping a running count of `(` minus `)`. Reports
/// "not balanced" as soon as the count goes negative; otherwise the text is
/// balanced exactly when the count ends at zero.
pub fn validate_syntax(text: &str) -> (r: bool)
    ensures
        r == balanced(text@),
{
    let n = text.unicode_len();
    let mut i: usize = 0;
    let mut count: i128 = 0;
    while i < n
        invariant
            n == text@.len(),
            0 <= i <= n,
            count == paren_depth(text@.subrange(0, i as int)),
            -(i as int) <= count <= i as int,
            forall|k: int| 0 <= k <= i ==> paren_depth(#[trigger] text@.subrange(0, k)) >= 0,
        decreases n - i,
    {
        let c = text.get_char(i);
        proof {
            lemma_depth_step(text@, i as int);
        }
        if c == '(' {
            count = count + 1;
        } else if c == ')' {
            count = count - 1;
            if count < 0 {
                proof {
                    assert(paren_depth(text@.subrange(0, i + 1)) < 0);
                }
                return false;
            }
        }
        i = i + 1;
    }
    proof {
        assert(text@.subrange(0, n as int) =~= text@);
    }
    count == 0
}

/// The number of occurrences of `c` in `s`.
pub open spec fn count_char(s: Seq<char>, c: char) -> int
    decreases s.len(),
{
    if s.len() == 0 {
        0
    } else {
        count_char(s.drop_last(), c) + if s.last() == c {
            1int
        } else {
            0int
        }
    }
}

/// The parenthesis count of a string is the number of its `(` minus the
/// number of its `)`.
pub proof fn lemma_depth_counts(s: Seq<char>)
    ensures
        paren_depth(s) == count_char(s, '(') - count_char(s, ')'),
    decreases s.len(),
{
    if s.len() > 0 {
        lemma_depth_counts(s.drop_last());
    }
}

/// Concatenation adds parenthesis counts.
proof fn lemma_depth_concat(a: Seq<char>, b: Seq<char>)
    ensures
        paren_depth(a + b) == paren_depth(a) + paren_depth(b),
    decreases b.len(),
{
    if b.len() == 0 {
        assert(a + b =~= a);
    } else {
        lemma_depth_concat(a, b.drop_last());
        assert((a + b).drop_last() =~= a + b.drop_last());
    }
}

/// The empty string is balanced.
pub proof fn lemma_balanced_empty()
    ensures
        balanced(Seq::<char>::empty()),
{
    assert forall|k: int| 0 <= k <= 0 implies paren_depth(
        #[trigger] Seq::<char>::empty().subrange(0, k),
    ) >= 0 by {
        assert(Seq::<char>::empty().subrange(0, 0) =~= Seq::<char>::empty());
    }
}

/// A single character other than a parenthesis is balanced.
pub proof fn lemma_balanced_nonparen(c: char)
    requires
        c != '(',
        c != ')',
    ensures
        balanced(seq![c]),
{
    assert(seq![c].drop_last() =~= Seq::<char>::empty());
    assert(paren_depth(Seq::<char>::empty()) == 0);
    assert(paren_depth(seq![c]) == 0);
    assert forall|k: int| 0 <= k <= 1 implies paren_depth(#[trigger] seq![c].subrange(0, k))
        >= 0 by {
        if k == 0 {
            assert(seq![c].subrange(0, 0) =~= Seq::<char>::empty());
        } else {
            assert(seq![c].subrange(0, 1) =~= seq![c]);
        }
    }
}

/// Balanced strings stay balanced under concatenation.
pub proof fn lemma_balanced_concat(a: Seq<char>, b: Seq<char>)
    requires
        balanced(a),
        balanced(b),
    ensures
        balanced(a + b),
{
    lemma_depth_concat(a, b);
    assert forall|k: int| 0 <= k <= (a + b).len() implies paren_depth(
        #[trigger] (a + b).subrange(0, k),
    ) >= 0 by {
        if k <= a.len() {
            assert((a + b).subrange(0, k) =~= a.subrange(0, k));
        } else {
            assert((a + b).subrange(0, k) =~= a + b.subrange(0, k - a.len()));
            lemma_depth_concat(a, b.subrange(0, k - a.len()));
        }
    }
}

/// Wrapping a balanced string in one pair of parentheses keeps it balanced.
/// With [`lemma_balanced_empty`], [`lemma_balanced_nonparen`] and
/// [`lemma_balanced_concat`], every string built only from balanced nested
/// parentheses is balanced, so `validate_syntax` accepts it.
pub proof fn lemma_balanced_wrap(s: Seq<char>)
    requires
        balanced(s),
    ensures
        balanced(seq!['('] + s + seq![')']),
{
    let w = seq!['('] + s + seq![')'];
    assert(seq!['('].drop_last() =~= Seq::<char>::empty());
    assert(seq![')'].drop_last() =~= Seq::<char>::empty());
    assert(paren_depth(Seq::<char>::empty()) == 0);
    assert(paren_depth(seq!['(']) == 1);
    assert(paren_depth(seq![')']) == -1);
    lemma_depth_concat(seq!['('] + s, seq![')']);
    lemma_depth_concat(seq!['('], s);
    assert forall|k: int| 0 <= k <= w.len() implies paren_depth(#[trigger] w.subrange(0, k))
        >= 0 by {
        if k == 0 {
            assert(w.subrange(0, 0) =~= Seq::<char>::empty());
        } else if k <= 1 + s.len() {
            assert(w.subrange(0, k) =~= seq!['('] + s.subrange(0, k - 1));
            lemma_depth_concat(seq!['('], s.subrange(0, k - 1));
        } else {
            assert(w.subrange(0, k) =~= w);
        }
    }
}

/// A string with a prefix holding more `)` than `(` — a `)` before its
/// matching `(` — is not balanced, so `validate_syntax` rejects it.
pub proof fn lemma_early_close_unbalanced(s: Seq<char>, k: int)
    requires
        0 <= k <= s.len(),
        count_char(s.subrange(0, k), ')') > count_char(s.subrange(0, k), '('),
    ensures
        !balanced(s),
{
    lemma_depth_counts(s.subrange(0, k));
}

/// A string with unequal numbers of `(` and `)` is not balanced, so
/// `validate_syntax` rejects it.
pub proof fn lemma_unequal_counts_unbalanced(s: Seq<char>)
    requires
        count_char(s, '(') != count_char(s, ')'),
    ensures
        !balanced(s),
{
    lemma_depth_counts(s);
}

} // verus!
