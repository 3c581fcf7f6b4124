//! Edit-distance scorer.
//!
//! `levenshtein` computes the minimum edit distance between two strings,
//! counted over Unicode scalar values, with unit costs for insertion,
//! deletion and substitution.

use vstd::prelude::*;

verus! {

/// Minimum of three integers.
pub open spec fn min3(a: int, b: int, c: int) -> int {
    if a <= b && a <= c {
        a
    } else if b <= c {
        b
    } else {
        c
    }
}

/// The Levenshtein edit distance between two sequences of Unicode scalar
/// values: the least number of single-character insertions, deletions and
/// substitutions that turns `a` into `b`, by the classic recurrence.
pub open spec fn edit_distance(a: Seq<char>, b: Seq<char>) -> nat
    decreases a.len(), b.len(),
{
    if a.len() == 0 {
        b.len()
    } else if b.len() == 0 {
        a.len()
    } else {
        let cost: int = if a.last() == b.last() {
            0
        } else {
            1
        };
        min3(
            edit_distance(a.drop_last(), b) as int + 1,
            edit_distance(a, b.drop_last()) as int + 1,
            edit_distance(a.drop_last(), b.drop_last()) as int + cost,
        ) as nat
    }
}

/// The distance never exceeds the length of the longer string: aligning the
/// two strings start to start, substituting where they overlap and inserting
/// or deleting the overhang is always an option.
pub proof fn lemma_edit_distance_le_max(a: Seq<char>, b: Seq<char>)
    ensures
        edit_distance(a, b) <= (if a.len() >= b.len() {
            a.len()
        } else {
            b.len()
        }),
    decreases a.len(), b.len(),
{
    if a.len() == 0 || b.len() == 0 {
    } else {
        lemma_edit_distance_le_max(a.drop_last(), b.drop_last());
    }
}

/// A string is at distance zero from itself.
pub proof fn lemma_edit_distance_self(s: Seq<char>)
    ensures
        edit_distance(s, s) == 0,
    decreases s.len(),
{
    if s.len() == 0 {
    } else {
        lemma_edit_distance_self(s.drop_last());
    }
}

/// The distance from the empty string, on either side, is the length of the
/// other string.
pub proof fn lemma_edit_distance_empty(s: Seq<char>)
    ensures
        edit_distance(Seq::<char>::empty(), s) == s.len(),
        edit_distance(s, Seq::<char>::empty()) == s.len(),
{
}

/// The Unicode scalar values of `s`, in order, as a vector.
pub fn chars_of(s: &str) -> (v: Vec<char>)
    ensures
        v@ == s@,
{
    let n: usize = s.unicode_len();
    let mut v: Vec<char> = Vec::new();
    let mut i: usize = 0;
    while i < n
        invariant
            i <= n,
            n == s@.len(),
            v@ == s@.take(i as int),
        decreases n - i,
    {
        let c: char = s.get_char(i);
        v.push(c);
        proof {
            assert(s@.take(i as int).push(s@[i as int]) =~= s@.take(i + 1));
        }
        i = i + 1;
    }
    proof {
        assert(s@.take(n as int) =~= s@);
    }
    v
}

/// Minimum edit distance between `a` and `b`, counted over Unicode scalar
/// values, by dynamic programming over two rows of the classic table.
pub fn levenshtein(a: &str, b: &str) -> (d: usize)
    ensures
        d == edit_distance(a@, b@),
{
    let a_chars: Vec<char> = chars_of(a);
    let b_chars: Vec<char> = chars_of(b);
    let len_a: usize = a_chars.len();
    let len_b: usize = b_chars.len();
    if len_a == 0 {
        return len_b;
    }
    if len_b == 0 {
        return len_a;
    }
    // Row for zero characters of `a`: the distance to each prefix of `b` is
    // that prefix's length.
    let mut prev: Vec<usize> = Vec::new();
    let mut j: usize = 0;
    while j < len_b
        invariant
            j <= len_b,
            prev@.len() == j,
            forall|k: int| 0 <= k < j ==> prev@[k] == k,
        decreases len_b - j,
    {
        prev.push(j);
        j = j + 1;
    }
    prev.push(len_b);
    proof {
        assert forall|k: int| 0 <= k <= len_b implies prev@[k] == edit_distance(
            a@.take(0),
            b@.take(k),
        ) by {
            assert(a@.take(0).len() == 0);
            assert(b@.take(k).len() == k);
        }
    }
    let mut i: usize = 0;
    while i < len_a
        invariant
            i <= len_a,
            1 <= len_a,
            1 <= len_b,
            a_chars@ == a@,
            b_chars@ == b@,
            len_a == a@.len(),
            len_b == b@.len(),
            prev@.len() == len_b + 1,
            forall|k: int|
                0 <= k <= len_b ==> prev@[k] == edit_distance(a@.take(i as int), b@.take(k)),
        decreases len_a - i,
    {
        let mut cur: Vec<usize> = Vec::new();
        cur.push(i + 1);
        proof {
            assert(a@.take(i + 1).len() == i + 1);
            assert(b@.take(0).len() == 0);
        }
        let mut j: usize = 0;
        while j < len_b
            invariant
                j <= len_b,
                i < len_a,
                1 <= len_b,
                a_chars@ == a@,
                b_chars@ == b@,
                len_a == a@.len(),
                len_b == b@.len(),
                prev@.len() == len_b + 1,
                forall|k: int|
                    0 <= k <= len_b ==> prev@[k] == edit_distance(a@.take(i as int), b@.take(k)),
                cur@.len() == j + 1,
                forall|k: int|
                    0 <= k <= j ==> cur@[k] == edit_distance(a@.take(i + 1), b@.take(k)),
            decreases len_b - j,
        {
            let ca: char = a_chars[i];
            let cb: char = b_chars[j];
            let cost: usize = if ca == cb {
                0
            } else {
                1
            };
            let diag: usize = prev[j];
            let up: usize = prev[j + 1];
            let left: usize = cur[j];
            proof {
                lemma_edit_distance_le_max(a@.take(i as int), b@.take(j as int));
            }
            let mut best: usize = diag + cost;
            if up < best {
                best = up + 1;
            }
            if left < best {
                best = left + 1;
            }
            proof {
                let pa = a@.take(i + 1);
                let pb = b@.take(j + 1);
                assert(pa.last() == a@[i as int]);
                assert(pb.last() == b@[j as int]);
                assert(pa.drop_last() =~= a@.take(i as int));
                assert(pb.drop_last() =~= b@.take(j as int));
                assert(edit_distance(pa, pb) == min3(
                    edit_distance(a@.take(i as int), pb) as int + 1,
                    edit_distance(pa, b@.take(j as int)) as int + 1,
                    edit_distance(a@.take(i as int), b@.take(j as int)) as int + (if pa.last()
                        == pb.last() {
                        0int
                    } else {
                        1int
                    }),
                ));
                assert(best == edit_distance(pa, pb));
            }
            cur.push(best);
            j = j + 1;
        }
        prev = cur;
        i = i + 1;
    }
    proof {
        assert(a@.take(len_a as int) =~= a@);
        assert(b@.take(len_b as int) =~= b@);
    }
    prev[len_b]
}

} // verus!
