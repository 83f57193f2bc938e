//! The order of strings: character by character, by code point, a proper
//! prefix before what it is a prefix of. This is the order in which std
//! compares strings, since UTF-8 keeps the order of the code points.

use vstd::prelude::*;

verus! {

/// Whether `a` stands before `b`.
pub open spec fn precedes(a: Seq<char>, b: Seq<char>) -> bool
    decreases a.len(),
{
    if b.len() == 0 {
        false
    } else if a.len() == 0 {
        true
    } else if a[0] == b[0] {
        precedes(a.skip(1), b.skip(1))
    } else {
        (a[0] as u32) < (b[0] as u32)
    }
}

/// Whether each word stands before all that follow it: the words are sorted,
/// and none occurs twice.
pub open spec fn ascending(words: Seq<Seq<char>>) -> bool {
    forall|i: int, j: int| 0 <= i < j < words.len() ==> precedes(#[trigger] words[i], #[trigger] words[j])
}

/// Whether two sequences hold the same words, however often and in whatever order.
pub open spec fn same_words(a: Seq<Seq<char>>, b: Seq<Seq<char>>) -> bool {
    forall|w: Seq<char>| a.contains(w) <==> b.contains(w)
}

/// No string stands before itself.
pub proof fn lemma_precedes_irreflexive(a: Seq<char>)
    ensures
        !precedes(a, a),
    decreases a.len(),
{
    if a.len() > 0 {
        lemma_precedes_irreflexive(a.skip(1));
    }
}

/// What stands before a string stands before all that the string stands before.
pub proof fn lemma_precedes_transitive(a: Seq<char>, b: Seq<char>, c: Seq<char>)
    requires
        precedes(a, b),
        precedes(b, c),
    ensures
        precedes(a, c),
    decreases a.len(),
{
    if a.len() > 0 && a[0] == b[0] && b[0] == c[0] {
        lemma_precedes_transitive(a.skip(1), b.skip(1), c.skip(1));
    }
}

/// Of two different strings one stands before the other.
pub proof fn lemma_precedes_total(a: Seq<char>, b: Seq<char>)
    requires
        a != b,
    ensures
        precedes(a, b) || precedes(b, a),
    decreases a.len(),
{
    if a.len() > 0 && b.len() > 0 && a[0] == b[0] {
        if a.skip(1) == b.skip(1) {
            assert(a =~= seq![a[0]] + a.skip(1));
            assert(b =~= seq![b[0]] + b.skip(1));
        }
        lemma_precedes_total(a.skip(1), b.skip(1));
    } else if a.len() == 0 || b.len() == 0 {
        if a.len() == 0 && b.len() == 0 {
            assert(a =~= b);
        }
    } else {
        vstd::utf8::char_u32_cast(a[0], a[0] as u32);
        vstd::utf8::char_u32_cast(b[0], b[0] as u32);
    }
}

/// Two ascending sequences that hold the same words are the same sequence.
pub proof fn lemma_ascending_unique(a: Seq<Seq<char>>, b: Seq<Seq<char>>)
    requires
        ascending(a),
        ascending(b),
        same_words(a, b),
    ensures
        a == b,
    decreases a.len(),
{
    if a.len() == 0 {
        if b.len() > 0 {
            assert(b.contains(b[0]));
            assert(a.contains(b[0]));
        }
        assert(a =~= b);
    } else if b.len() == 0 {
        assert(a.contains(a[0]));
        assert(b.contains(a[0]));
    } else {
        lemma_ascending_first(a, b);
        lemma_ascending_first(b, a);
        assert(a[0] == b[0]) by {
            if a[0] != b[0] {
                lemma_precedes_transitive(a[0], b[0], a[0]);
                lemma_precedes_irreflexive(a[0]);
            }
        }
        lemma_ascending_rest(a, b);
        lemma_ascending_rest(b, a);
        lemma_ascending_unique(a.skip(1), b.skip(1));
        assert(a =~= seq![a[0]] + a.skip(1));
        assert(b =~= seq![b[0]] + b.skip(1));
    }
}

/// The first word of an ascending sequence is the other's first word or stands
/// before it, where every word of the other occurs in the sequence.
proof fn lemma_ascending_first(a: Seq<Seq<char>>, b: Seq<Seq<char>>)
    requires
        ascending(a),
        a.len() > 0,
        b.len() > 0,
        same_words(a, b),
    ensures
        a[0] == b[0] || precedes(a[0], b[0]),
{
    assert(b.contains(b[0]));
    assert(a.contains(b[0]));
    let i = choose|i: int| 0 <= i < a.len() && a[i] == b[0];
    if i > 0 {
        assert(precedes(a[0], a[i]));
    }
}

/// Without their common first word, two ascending sequences still hold the
/// same words: what the first then holds, the second holds.
proof fn lemma_ascending_rest(a: Seq<Seq<char>>, b: Seq<Seq<char>>)
    requires
        ascending(a),
        ascending(b),
        a.len() > 0,
        b.len() > 0,
        a[0] == b[0],
        same_words(a, b),
    ensures
        ascending(a.skip(1)),
        forall|w: Seq<char>| a.skip(1).contains(w) ==> b.skip(1).contains(w),
{
    assert forall|i: int, j: int| 0 <= i < j < a.skip(1).len() implies precedes(
        #[trigger] a.skip(1)[i],
        #[trigger] a.skip(1)[j],
    ) by {
        assert(precedes(a[i + 1], a[j + 1]));
    }
    assert forall|w: Seq<char>| a.skip(1).contains(w) implies b.skip(1).contains(w) by {
        let i = choose|i: int| 0 <= i < a.skip(1).len() && a.skip(1)[i] == w;
        assert(a[i + 1] == w);
        assert(a.contains(w));
        assert(b.contains(w));
        let j = choose|j: int| 0 <= j < b.len() && b[j] == w;
        if j == 0 {
            assert(precedes(a[0], a[i + 1]));
            lemma_precedes_irreflexive(w);
        }
        assert(b.skip(1)[j - 1] == w);
    }
}

/// `<` of std on two strings, which compares them byte by byte. The claim is
/// that this is the order by code points, as std's documentation says of it.
#[verifier::external_body]
pub(crate) fn str_precedes(a: &str, b: &str) -> (before: bool)
    ensures
        before == precedes(a@, b@),
{
    a < b
}

} // verus!
