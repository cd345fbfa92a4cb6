use vstd::multiset::Multiset;
use vstd::prelude::*;

verus! {

/// A lower-case ASCII letter, the only characters the anagram check accepts.
pub open spec fn is_lower_alpha(c: char) -> bool {
    97 <= c as int <= 122
}

/// Number of occurrences of `c` in `s`.
pub open spec fn char_count(s: Seq<char>, c: char) -> nat
    decreases s.len(),
{
    if s.len() == 0 {
        0
    } else {
        char_count(s.drop_last(), c) + (if s.last() == c {
            1nat
        } else {
            0nat
        })
    }
}

/// `char_count` agrees with the multiset multiplicity of the character.
proof fn lemma_char_count_is_multiplicity(s: Seq<char>, c: char)
    ensures
        char_count(s, c) == s.to_multiset().count(c),
    decreases s.len(),
{
    broadcast use vstd::seq_lib::group_to_multiset_ensures;
    broadcast use vstd::multiset::group_multiset_axioms;

    if s.len() == 0 {
        assert(s.to_multiset() =~= Multiset::<char>::empty());
    } else {
        lemma_char_count_is_multiplicity(s.drop_last(), c);
        assert(s =~= s.drop_last().push(s.last()));
        assert(s.drop_last().push(s.last()).to_multiset() =~= s.drop_last().to_multiset().insert(
            s.last(),
        ));
    }
}

/// Law: for lower-case strings, equal length together with an equal tally
/// for every lower-case letter is exactly multiset equality of the two
/// character sequences, so `solution` decides whether one string is a
/// permutation of the other.
pub proof fn lemma_equal_tallies_mean_permutation(s1: Seq<char>, s2: Seq<char>)
    requires
        forall|i: int| 0 <= i < s1.len() ==> is_lower_alpha(#[trigger] s1[i]),
        forall|i: int| 0 <= i < s2.len() ==> is_lower_alpha(#[trigger] s2[i]),
    ensures
        (s1.len() == s2.len() && (forall|c: char|
            is_lower_alpha(c) ==> char_count(s1, c) == char_count(s2, c))) <==> s1.to_multiset()
            == s2.to_multiset(),
{
    broadcast use vstd::seq_lib::group_to_multiset_ensures;
    broadcast use vstd::multiset::group_multiset_axioms;

    assert forall|c: char| char_count(s1, c) == s1.to_multiset().count(c) by {
        lemma_char_count_is_multiplicity(s1, c);
    }
    assert forall|c: char| char_count(s2, c) == s2.to_multiset().count(c) by {
        lemma_char_count_is_multiplicity(s2, c);
    }
    if s1.len() == s2.len() && (forall|c: char|
        is_lower_alpha(c) ==> char_count(s1, c) == char_count(s2, c)) {
        assert forall|c: char| s1.to_multiset().count(c) == s2.to_multiset().count(c) by {
            if !is_lower_alpha(c) {
                assert(!s1.contains(c));
                assert(!s2.contains(c));
            }
        }
        assert(s1.to_multiset() =~= s2.to_multiset());
    }
    if s1.to_multiset() == s2.to_multiset() {
        assert(s1.len() == s1.to_multiset().len());
        assert(s2.len() == s2.to_multiset().len());
    }
}

/// Tallies, for each of the 26 lower-case letters, how often it occurs in `s`.
fn letter_counts(s: &str) -> (counts: Vec<usize>)
    requires
        forall|i: int| 0 <= i < s@.len() ==> is_lower_alpha(#[trigger] s@[i]),
    ensures
        counts@.len() == 26,
        forall|c: char| is_lower_alpha(c) ==> counts@[c as int - 97] == char_count(s@, c),
{
    let n = s.unicode_len();
    let mut counts: Vec<usize> = Vec::new();
    let mut k: usize = 0;
    while k < 26
        invariant
            k <= 26,
            counts@.len() == k,
            forall|j: int| 0 <= j < k ==> counts@[j] == 0,
        decreases 26 - k,
    {
        counts.push(0);
        k += 1;
    }
    let mut i: usize = 0;
    while i < n
        invariant
            n == s@.len(),
            i <= n,
            counts@.len() == 26,
            forall|i2: int| 0 <= i2 < s@.len() ==> is_lower_alpha(#[trigger] s@[i2]),
            forall|c: char|
                is_lower_alpha(c) ==> counts@[c as int - 97] == char_count(
                    s@.take(i as int),
                    c,
                ),
            forall|j: int| 0 <= j < 26 ==> counts@[j] <= i,
        decreases n - i,
    {
        let curr = s.get_char(i);
        let u = curr as u32;
        let pos = (u - 97) as usize;
        let tally = counts[pos];
        counts[pos] = tally + 1;
        i += 1;
        proof {
            assert(s@.take(i as int).drop_last() =~= s@.take(i as int - 1));
            assert(s@.take(i as int).last() == curr);
            assert forall|c: char| is_lower_alpha(c) implies counts@[c as int - 97] == char_count(
                s@.take(i as int),
                c,
            ) by {
                assert(char_count(s@.take(i as int), c) == char_count(s@.take(i as int - 1), c) + (
                if curr == c {
                    1nat
                } else {
                    0nat
                }));
            }
        }
    }
    proof {
        assert(s@.take(n as int) =~= s@);
    }
    counts
}

/// Whether the two strings are anagrams of one another: the same length and
/// the same tally for every lower-case letter.
pub fn solution(s1: &str, s2: &str) -> (r: bool)
    requires
        forall|i: int| 0 <= i < s1@.len() ==> is_lower_alpha(#[trigger] s1@[i]),
        forall|i: int| 0 <= i < s2@.len() ==> is_lower_alpha(#[trigger] s2@[i]),
    ensures
        r == (s1@.len() == s2@.len() && forall|c: char|
            is_lower_alpha(c) ==> char_count(s1@, c) == char_count(s2@, c)),
{
    let n1 = s1.unicode_len();
    let n2 = s2.unicode_len();
    if n1 != n2 {
        return false;
    }
    let char_set_1 = letter_counts(s1);
    let char_set_2 = letter_counts(s2);
    let mut pos: usize = 0;
    while pos < 26
        invariant
            char_set_1@.len() == 26,
            char_set_2@.len() == 26,
            forall|c: char|
                is_lower_alpha(c) ==> char_set_1@[c as int - 97] == char_count(s1@, c),
            forall|c: char|
                is_lower_alpha(c) ==> char_set_2@[c as int - 97] == char_count(s2@, c),
            pos <= 26,
            forall|j: int| 0 <= j < pos ==> char_set_1@[j] == char_set_2@[j],
        decreases 26 - pos,
    {
        if char_set_1[pos] != char_set_2[pos] {
            let witness = (97 + pos as u8) as char;
            proof {
                assert(witness as int == 97 + pos as int);
                assert(is_lower_alpha(witness));
                assert(char_count(s1@, witness) != char_count(s2@, witness));
            }
            return false;
        }
        pos += 1;
    }
    proof {
        assert forall|c: char| is_lower_alpha(c) implies char_count(s1@, c) == char_count(
            s2@,
            c,
        ) by {
            let j = c as int - 97;
            assert(char_set_1@[j] == char_set_2@[j]);
        }
    }
    true
}

} // verus!

