//! Counting the sets of words that are anagrams of one another.
//!
//! Two words are anagrams when sorting their characters gives the same
//! string, their fingerprint.

use crate::text::chars_of;
use crate::text::string_from_chars;
use vstd::hash_map::StringHashMap;
use vstd::prelude::*;

verus! {

/// The order of characters by code point.
pub open spec fn char_leq(a: char, b: char) -> bool {
    a as int <= b as int
}

/// Whether the characters are in ascending order.
pub open spec fn chars_sorted(s: Seq<char>) -> bool {
    forall|i: int, j: int| 0 <= i <= j < s.len() ==> char_leq(s[i], s[j])
}

/// The characters of `word`, sorted.
pub open spec fn spec_fingerprint(word: Seq<char>) -> Seq<char> {
    word.sort_by(|a: char, b: char| char_leq(a, b))
}

/// The fingerprints of `words`, in their order.
pub open spec fn fingerprints(words: Seq<&str>) -> Seq<Seq<char>> {
    Seq::new(words.len(), |i: int| spec_fingerprint(words[i]@))
}

/// How many times `print` occurs in `prints`.
pub open spec fn count_of(prints: Seq<Seq<char>>, print: Seq<char>) -> nat
    decreases prints.len(),
{
    if prints.len() == 0 {
        0
    } else {
        count_of(prints.drop_last(), print) + if prints.last() == print {
            1nat
        } else {
            0nat
        }
    }
}

/// The fingerprints that occur more than once in `prints`: one for each set
/// of two or more words that are anagrams of one another.
pub open spec fn repeated(prints: Seq<Seq<char>>) -> Set<Seq<char>> {
    Set::new(|print: Seq<char>| count_of(prints, print) >= 2)
}

/// `sort` of the standard library, on a vector of characters: afterwards
/// the vector holds the same characters, each as often as before, in
/// ascending order.
#[verifier::external_body]
fn sort_chars(chars: &mut Vec<char>)
    ensures
        final(chars)@.to_multiset() == old(chars)@.to_multiset(),
        chars_sorted(final(chars)@),
{
    chars.sort()
}

/// The order of characters is a total order.
proof fn lemma_char_order()
    ensures
        vstd::relations::total_ordering(|a: char, b: char| char_leq(a, b)),
{
    let leq = |a: char, b: char| char_leq(a, b);
    assert(vstd::relations::antisymmetric(leq)) by {
        assert forall|a: char, b: char| #[trigger] leq(a, b) && #[trigger] leq(b, a) implies a
            == b by {
        }
    }
}

/// Two words have the same fingerprint exactly if they are anagrams: if they
/// hold the same characters, each as often in the one as in the other.
pub proof fn law_fingerprint_of_anagrams(a: Seq<char>, b: Seq<char>)
    ensures
        spec_fingerprint(a) == spec_fingerprint(b) <==> a.to_multiset() == b.to_multiset(),
{
    let leq = |x: char, y: char| char_leq(x, y);
    lemma_char_order();
    a.lemma_sort_by_ensures(leq);
    b.lemma_sort_by_ensures(leq);
    if a.to_multiset() == b.to_multiset() {
        vstd::seq_lib::lemma_sorted_unique(a.sort_by(leq), b.sort_by(leq), leq);
    }
}

/// Sorts the characters of `word`.
pub fn fingerprint(word: &str) -> (print: String)
    ensures
        print@ == spec_fingerprint(word@),
{
    let mut chars = chars_of(word);
    sort_chars(&mut chars);
    proof {
        let leq = |a: char, b: char| char_leq(a, b);
        lemma_char_order();
        word@.lemma_sort_by_ensures(leq);
        assert(vstd::relations::sorted_by(chars@, leq));
        vstd::seq_lib::lemma_sorted_unique(chars@, word@.sort_by(leq), leq);
    }
    string_from_chars(chars)
}

/// Appending one fingerprint raises its count by one and leaves the other
/// counts as they were.
proof fn lemma_count_push(prints: Seq<Seq<char>>, k: int)
    requires
        0 <= k < prints.len(),
    ensures
        forall|print: Seq<char>| #[trigger]
            count_of(prints.take(k + 1), print) == count_of(prints.take(k), print) + if prints[k]
                == print {
                1nat
            } else {
                0nat
            },
{
    assert(prints.take(k + 1).drop_last() =~= prints.take(k));
}

/// Counts the sets of two or more words of `words` that are anagrams of one
/// another. A word that occurs twice counts as two words.
pub fn find_anagrams(words: &[&str]) -> (sets: usize)
    ensures
        sets == repeated(fingerprints(words@)).len(),
{
    let ghost prints = fingerprints(words@);
    let mut counts: StringHashMap<usize> = StringHashMap::new();
    let mut sets: usize = 0;
    let n = words.len();
    let mut i: usize = 0;
    proof {
        assert(repeated(prints.take(0)) =~= Set::<Seq<char>>::empty());
    }
    while i < n
        invariant
            i <= n,
            n == words@.len(),
            prints == fingerprints(words@),
            forall|p: Seq<char>|
                #![trigger counts@.contains_key(p)]
                counts@.contains_key(p) <==> count_of(prints.take(i as int), p) >= 1,
            forall|p: Seq<char>|
                #![trigger counts@[p]]
                counts@.contains_key(p) ==> counts@[p] == count_of(prints.take(i as int), p),
            forall|p: Seq<char>| #[trigger] count_of(prints.take(i as int), p) <= i,
            repeated(prints.take(i as int)).finite(),
            sets == repeated(prints.take(i as int)).len(),
            sets <= i,
        decreases n - i,
    {
        let print = fingerprint(words[i]);
        let ghost before = prints.take(i as int);
        let ghost after = prints.take(i + 1);
        let ghost key = print@;
        let ghost counts_before = counts@;
        proof {
            lemma_count_push(prints, i as int);
        }
        let seen: usize = match counts.get(print.as_str()) {
            Some(count) => *count,
            None => 0,
        };
        proof {
            assert forall|p: Seq<char>|
                repeated(after).contains(p) == (repeated(before).contains(p) || (seen == 1 && p
                    == key)) by {
                assert(count_of(after, p) == count_of(before, p) + if key == p {
                    1nat
                } else {
                    0nat
                });
            }
            if seen == 1 {
                assert(repeated(after) =~= repeated(before).insert(key));
            } else {
                assert(repeated(after) =~= repeated(before));
            }
        }
        if seen == 1 {
            sets += 1;
        }
        counts.insert(print, seen + 1);
        proof {
            assert forall|p: Seq<char>|
                #![trigger counts@.contains_key(p)]
                counts@.contains_key(p) <==> count_of(after, p) >= 1 by {
                assert(count_of(after, p) == count_of(before, p) + if key == p {
                    1nat
                } else {
                    0nat
                });
            }
            assert forall|p: Seq<char>|
                #![trigger counts@[p]]
                counts@.contains_key(p) implies counts@[p] == count_of(after, p) by {
                assert(count_of(after, p) == count_of(before, p) + if key == p {
                    1nat
                } else {
                    0nat
                });
            }
            assert forall|p: Seq<char>| #[trigger] count_of(after, p) <= i + 1 by {
                assert(count_of(after, p) == count_of(before, p) + if key == p {
                    1nat
                } else {
                    0nat
                });
            }
        }
        i += 1;
    }
    proof {
        assert(prints.take(n as int) =~= prints);
    }
    sets
}

} // verus!
