//! Query normalizer and index-query builder.
//!
//! A raw user query is trimmed of surrounding whitespace and turned into an
//! expression for the store's trigram index: a short query becomes a single
//! quoted literal term, a longer one the disjunction of its quoted
//! three-character windows.

use vstd::prelude::*;

verus! {

/// A character with the Unicode `White_Space` property: the class that
/// `str::trim` strips from either end of a string.
pub open spec fn is_unicode_space(c: char) -> bool {
    c == ' ' || c == '\t' || c == '\n' || c == '\u{0B}' || c == '\u{0C}' || c == '\r' || c
        == '\u{85}' || c == '\u{A0}' || c == '\u{1680}' || (0x2000 <= c as u32 && c as u32
        <= 0x200A) || c == '\u{2028}' || c == '\u{2029}' || c == '\u{202F}' || c == '\u{205F}' || c
        == '\u{3000}'
}

/// Whether `c` has the Unicode `White_Space` property.
pub fn is_space_char(c: char) -> (r: bool)
    ensures
        r == is_unicode_space(c),
{
    c == ' ' || c == '\t' || c == '\n' || c == '\u{0B}' || c == '\u{0C}' || c == '\r' || c
        == '\u{85}' || c == '\u{A0}' || c == '\u{1680}' || (0x2000 <= c as u32 && c as u32
        <= 0x200A) || c == '\u{2028}' || c == '\u{2029}' || c == '\u{202F}' || c == '\u{205F}' || c
        == '\u{3000}'
}

/// `s` with its leading whitespace removed.
pub open spec fn trim_start_spec(s: Seq<char>) -> Seq<char>
    decreases s.len(),
{
    if s.len() > 0 && is_unicode_space(s[0]) {
        trim_start_spec(s.drop_first())
    } else {
        s
    }
}

/// `s` with its trailing whitespace removed.
pub open spec fn trim_end_spec(s: Seq<char>) -> Seq<char>
    decreases s.len(),
{
    if s.len() > 0 && is_unicode_space(s.last()) {
        trim_end_spec(s.drop_last())
    } else {
        s
    }
}

/// `s` with whitespace removed from both ends.
pub open spec fn trimmed(s: Seq<char>) -> Seq<char> {
    trim_end_spec(trim_start_spec(s))
}

proof fn lemma_trim_start_at(s: Seq<char>, k: int)
    requires
        0 <= k <= s.len(),
        forall|i: int| 0 <= i < k ==> is_unicode_space(s[i]),
        k == s.len() || !is_unicode_space(s[k]),
    ensures
        trim_start_spec(s) == s.subrange(k, s.len() as int),
    decreases k,
{
    if k == 0 {
        assert(s.subrange(0, s.len() as int) =~= s);
    } else {
        lemma_trim_start_at(s.drop_first(), k - 1);
        assert(s.drop_first().subrange(k - 1, s.drop_first().len() as int) =~= s.subrange(
            k,
            s.len() as int,
        ));
    }
}

proof fn lemma_trim_end_at(s: Seq<char>, k: int)
    requires
        0 <= k <= s.len(),
        forall|i: int| k <= i < s.len() ==> is_unicode_space(s[i]),
        k == 0 || !is_unicode_space(s[k - 1]),
    ensures
        trim_end_spec(s) == s.subrange(0, k),
    decreases s.len(),
{
    if k == s.len() {
        if s.len() == 0 || !is_unicode_space(s.last()) {
            assert(s.subrange(0, s.len() as int) =~= s);
        } else {
            assert(false);
        }
    } else {
        assert(is_unicode_space(s.last()));
        lemma_trim_end_at(s.drop_last(), k);
        assert(s.drop_last().subrange(0, k) =~= s.subrange(0, k));
    }
}

/// The trimmed form of `s`, as a fresh string.
pub fn trim_str(s: &str) -> (t: String)
    ensures
        t@ == trimmed(s@),
{
    let n: usize = s.unicode_len();
    let mut start: usize = 0;
    while start < n && is_space_char(s.get_char(start))
        invariant
            start <= n,
            n == s@.len(),
            forall|i: int| 0 <= i < start ==> is_unicode_space(s@[i]),
        decreases n - start,
    {
        start = start + 1;
    }
    let mut end: usize = n;
    while end > start && is_space_char(s.get_char(end - 1))
        invariant
            start <= end <= n,
            n == s@.len(),
            forall|i: int| end <= i < n ==> is_unicode_space(s@[i]),
        decreases end,
    {
        end = end - 1;
    }
    let t: &str = s.substring_char(start, end);
    proof {
        lemma_trim_start_at(s@, start as int);
        let m = s@.subrange(start as int, n as int);
        if start == n {
            assert(m.len() == 0);
            assert(trim_end_spec(m) == m);
        } else {
            assert(!is_unicode_space(s@[start as int]));
            assert(end > start);
            assert forall|i: int| end - start <= i < m.len() implies is_unicode_space(m[i]) by {
                assert(m[i] == s@[i + start]);
            }
            assert(m[end - start - 1] == s@[end - 1]);
            lemma_trim_end_at(m, end - start);
        }
        assert(m.subrange(0, end - start) =~= s@.subrange(start as int, end as int));
    }
    String::from_str(t)
}

/// `s` with every double-quote character doubled.
pub open spec fn escape_quotes(s: Seq<char>) -> Seq<char>
    decreases s.len(),
{
    if s.len() == 0 {
        Seq::empty()
    } else {
        (if s[0] == '"' {
            seq!['"', '"']
        } else {
            seq![s[0]]
        }) + escape_quotes(s.drop_first())
    }
}

/// A search term: `s` quote-escaped and wrapped in double quotes.
pub open spec fn quoted_term(s: Seq<char>) -> Seq<char> {
    seq!['"'] + escape_quotes(s) + seq!['"']
}

/// The separator between trigram terms.
pub open spec fn or_separator() -> Seq<char> {
    seq![' ', 'O', 'R', ' ']
}

/// The quoted terms of the first `k` three-character windows of `s`, joined
/// by ` OR `.
pub open spec fn or_joined_terms(s: Seq<char>, k: int) -> Seq<char>
    decreases k,
{
    if k <= 0 {
        Seq::empty()
    } else if k == 1 {
        quoted_term(s.subrange(0, 3))
    } else {
        or_joined_terms(s, k - 1) + or_separator() + quoted_term(s.subrange(k - 1, k + 2))
    }
}

/// The index expression for a raw query: after trimming, a query of at most
/// three characters is one quoted literal term; a longer query is the `OR`
/// disjunction of the quoted terms of all its trigrams, one per window.
pub open spec fn index_expression(q: Seq<char>) -> Seq<char> {
    let t = trimmed(q);
    if t.len() <= 3 {
        quoted_term(t)
    } else {
        or_joined_terms(t, t.len() - 2)
    }
}

proof fn lemma_escape_push(s: Seq<char>, c: char)
    ensures
        escape_quotes(s.push(c)) == escape_quotes(s) + (if c == '"' {
            seq!['"', '"']
        } else {
            seq![c]
        }),
    decreases s.len(),
{
    let tail: Seq<char> = if c == '"' {
        seq!['"', '"']
    } else {
        seq![c]
    };
    if s.len() == 0 {
        assert(s.push(c)[0] == c);
        assert(s.push(c).drop_first() =~= Seq::<char>::empty());
        assert(escape_quotes(Seq::<char>::empty()) =~= Seq::<char>::empty());
        assert(escape_quotes(s.push(c)) =~= tail);
        assert(escape_quotes(s) + tail =~= tail);
    } else {
        lemma_escape_push(s.drop_first(), c);
        assert(s.push(c)[0] == s[0]);
        assert(s.push(c).drop_first() =~= s.drop_first().push(c));
        assert((if s[0] == '"' {
            seq!['"', '"']
        } else {
            seq![s[0]]
        }) + (escape_quotes(s.drop_first()) + tail) =~= escape_quotes(s) + tail);
    }
}

/// Append the quoted, quote-escaped form of `term` to `r`.
fn push_quoted_term(r: &mut String, term: &str)
    ensures
        final(r)@ == old(r)@ + quoted_term(term@),
{
    let ghost r0: Seq<char> = r@;
    r.append("\"");
    proof {
        reveal_strlit("\"");
        assert(escape_quotes(term@.take(0)) =~= Seq::<char>::empty());
        assert(r@ =~= r0 + seq!['"'] + escape_quotes(term@.take(0)));
    }
    let n: usize = term.unicode_len();
    let mut i: usize = 0;
    while i < n
        invariant
            i <= n,
            n == term@.len(),
            r@ == r0 + seq!['"'] + escape_quotes(term@.take(i as int)),
        decreases n - i,
    {
        let c: char = term.get_char(i);
        if c == '"' {
            r.append("\"\"");
            proof {
                reveal_strlit("\"\"");
                assert("\"\""@ =~= seq!['"', '"']);
            }
        } else {
            let piece: &str = term.substring_char(i, i + 1);
            r.append(piece);
            proof {
                assert(piece@ =~= seq![term@[i as int]]);
            }
        }
        proof {
            lemma_escape_push(term@.take(i as int), term@[i as int]);
            assert(term@.take(i as int).push(term@[i as int]) =~= term@.take(i + 1));
        }
        i = i + 1;
    }
    r.append("\"");
    proof {
        reveal_strlit("\"");
        assert(term@.take(n as int) =~= term@);
        assert(r@ =~= r0 + quoted_term(term@));
    }
}

/// Build the index expression for the raw query `q`.
///
/// The same query always yields the same expression; a query of `n > 3`
/// characters after trimming yields `n - 2` quoted trigram terms joined by
/// ` OR `.
pub fn build_index_expression(q: &str) -> (r: String)
    ensures
        r@ == index_expression(q@),
{
    let t: String = trim_str(q);
    let ts: &str = t.as_str();
    let n: usize = ts.unicode_len();
    if n <= 3 {
        let mut r: String = String::new();
        push_quoted_term(&mut r, ts);
        proof {
            assert(r@ =~= quoted_term(t@));
        }
        r
    } else {
        let mut r: String = String::new();
        let mut k: usize = 0;
        while k < n - 2
            invariant
                k <= n - 2,
                3 < n == t@.len(),
                ts@ == t@,
                r@ == or_joined_terms(t@, k as int),
            decreases n - k,
        {
            if k > 0 {
                r.append(" OR ");
                proof {
                    reveal_strlit(" OR ");
                    assert(" OR "@ =~= or_separator());
                }
            }
            let tri: &str = ts.substring_char(k, k + 3);
            push_quoted_term(&mut r, tri);
            proof {
                if k == 0 {
                    assert(r@ =~= or_joined_terms(t@, 1));
                } else {
                    assert(tri@ =~= t@.subrange(k as int, k + 3));
                    assert(r@ =~= or_joined_terms(t@, k + 1));
                }
            }
            k = k + 1;
        }
        r
    }
}

} // verus!
