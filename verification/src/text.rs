//! The text model: splitting a sequence of characters at a separator,
//! joining pieces back with it, and trimming surrounding whitespace.
//! All message and URL contracts are stated over these spec functions.

use vstd::prelude::*;

verus! {

broadcast use vstd::string::group_string_axioms;

/// The separator `sep` occurs in `s` starting at position `i`.
pub open spec fn match_at(s: Seq<char>, sep: Seq<char>, i: int) -> bool {
    &&& 0 <= i
    &&& i + sep.len() <= s.len()
    &&& forall|j: int| 0 <= j < sep.len() ==> s[i + j] == sep[j]
}

/// The separator occurs somewhere in `s`.
pub open spec fn has_match(s: Seq<char>, sep: Seq<char>) -> bool {
    exists|i: int| match_at(s, sep, i)
}

/// Position of the first occurrence of `sep` in `s`, or -1 if there is none.
pub open spec fn first_match(s: Seq<char>, sep: Seq<char>) -> int
    decreases s.len(),
{
    if s.len() < sep.len() {
        -1
    } else if match_at(s, sep, 0) {
        0
    } else if s.len() == 0 {
        -1
    } else {
        let r = first_match(s.drop_first(), sep);
        if r < 0 {
            -1
        } else {
            r + 1
        }
    }
}

/// `first_match` is -1 exactly when there is no occurrence; otherwise it is
/// the least position of an occurrence.
pub proof fn lemma_first_match(s: Seq<char>, sep: Seq<char>)
    requires
        sep.len() >= 1,
    ensures
        first_match(s, sep) == -1 <==> !has_match(s, sep),
        first_match(s, sep) != -1 ==> 0 <= first_match(s, sep) && first_match(s, sep) + sep.len()
            <= s.len() && match_at(s, sep, first_match(s, sep)) && (forall|j: int|
            0 <= j < first_match(s, sep) ==> !match_at(s, sep, j)),
    decreases s.len(),
{
    if s.len() < sep.len() {
        assert forall|i: int| !match_at(s, sep, i) by {}
    } else if match_at(s, sep, 0) {
        assert(has_match(s, sep));
    } else {
        let t = s.drop_first();
        lemma_first_match(t, sep);
        assert forall|i: int| 0 <= i implies (match_at(s, sep, i + 1) <==> match_at(
            t,
            sep,
            i,
        )) by {
            if match_at(s, sep, i + 1) {
                assert forall|j: int| 0 <= j < sep.len() implies t[i + j] == sep[j] by {
                    assert(t[i + j] == s[i + 1 + j]);
                }
            }
            if match_at(t, sep, i) {
                assert forall|j: int| 0 <= j < sep.len() implies s[i + 1 + j] == sep[j] by {
                    assert(t[i + j] == s[i + 1 + j]);
                }
            }
        }
        let r = first_match(t, sep);
        if r < 0 {
            assert forall|i: int| !match_at(s, sep, i) by {
                if i >= 1 {
                    assert(!match_at(t, sep, i - 1));
                }
            }
        } else {
            assert(match_at(s, sep, r + 1));
            assert(has_match(s, sep));
            assert forall|j: int| 0 <= j < r + 1 implies !match_at(s, sep, j) by {
                if j >= 1 {
                    assert(!match_at(t, sep, j - 1));
                }
            }
        }
    }
}

/// If `sep` occurs at `i` and nowhere earlier, then `i` is the first match.
pub proof fn lemma_first_match_unique(s: Seq<char>, sep: Seq<char>, i: int)
    requires
        sep.len() >= 1,
        match_at(s, sep, i),
        forall|j: int| 0 <= j < i ==> !match_at(s, sep, j),
    ensures
        first_match(s, sep) == i,
{
    lemma_first_match(s, sep);
    let m = first_match(s, sep);
    assert(has_match(s, sep));
    if m < i {
        assert(!match_at(s, sep, m));
        assert(false);
    }
    if m > i {
        assert(!match_at(s, sep, i));
        assert(false);
    }
}

/// The pieces of `s` between occurrences of `sep`, in order.
pub open spec fn split_by(s: Seq<char>, sep: Seq<char>) -> Seq<Seq<char>>
    decreases s.len(),
{
    let i = first_match(s, sep);
    if sep.len() == 0 || i < 0 || i + sep.len() > s.len() {
        seq![s]
    } else {
        seq![s.subrange(0, i)] + split_by(s.subrange(i + sep.len(), s.len() as int), sep)
    }
}

/// The pieces joined back with `sep` between each two of them.
pub open spec fn join_by(parts: Seq<Seq<char>>, sep: Seq<char>) -> Seq<char>
    decreases parts.len(),
{
    if parts.len() == 0 {
        Seq::empty()
    } else if parts.len() == 1 {
        parts[0]
    } else {
        parts[0] + sep + join_by(parts.drop_first(), sep)
    }
}

/// Unfolding of `split_by` at a known first occurrence.
pub proof fn lemma_split_by_step(s: Seq<char>, sep: Seq<char>, i: int)
    requires
        sep.len() >= 1,
        match_at(s, sep, i),
        forall|j: int| 0 <= j < i ==> !match_at(s, sep, j),
    ensures
        split_by(s, sep) == seq![s.subrange(0, i)] + split_by(
            s.subrange(i + sep.len(), s.len() as int),
            sep,
        ),
{
    lemma_first_match_unique(s, sep, i);
}

/// `split_by` on a separator-free text yields that text as the one piece.
pub proof fn lemma_split_by_none(s: Seq<char>, sep: Seq<char>)
    requires
        sep.len() >= 1,
        !has_match(s, sep),
    ensures
        split_by(s, sep) == seq![s],
{
    lemma_first_match(s, sep);
}

/// Splitting never yields an empty sequence of pieces.
pub proof fn lemma_split_by_len(s: Seq<char>, sep: Seq<char>)
    ensures
        split_by(s, sep).len() >= 1,
{
}

/// Joining the pieces of a split restores the original text.
pub proof fn lemma_join_split(s: Seq<char>, sep: Seq<char>)
    requires
        sep.len() >= 1,
    ensures
        join_by(split_by(s, sep), sep) == s,
    decreases s.len(),
{
    lemma_first_match(s, sep);
    let i = first_match(s, sep);
    if i >= 0 {
        let pre = s.subrange(0, i);
        let rest = s.subrange(i + sep.len(), s.len() as int);
        lemma_join_split(rest, sep);
        lemma_split_by_len(rest, sep);
        let parts = seq![pre] + split_by(rest, sep);
        assert(parts.len() >= 2);
        assert(parts[0] == pre);
        assert(parts.drop_first() =~= split_by(rest, sep));
        assert(join_by(parts, sep) == pre + sep + rest);
        assert(s =~= pre + sep + rest) by {
            assert forall|k: int| 0 <= k < s.len() implies s[k] == (pre + sep + rest)[k] by {
                if i <= k < i + sep.len() {
                    assert(s[k] == sep[k - i]);
                }
            }
        }
    }
}

/// Splitting a text that begins with a separator-free prefix followed by the
/// separator peels off exactly that prefix.
pub proof fn lemma_split_prepend(a: Seq<char>, b: Seq<char>, sep: Seq<char>)
    requires
        sep.len() >= 1,
        forall|i: int| 0 <= i < a.len() ==> !match_at(a + sep + b, sep, i),
    ensures
        split_by(a + sep + b, sep) == seq![a] + split_by(b, sep),
{
    let s = a + sep + b;
    assert(match_at(s, sep, a.len() as int)) by {
        assert forall|j: int| 0 <= j < sep.len() implies s[a.len() + j] == sep[j] by {}
    }
    lemma_split_by_step(s, sep, a.len() as int);
    assert(s.subrange(0, a.len() as int) =~= a);
    assert(s.subrange(a.len() + sep.len() as int, s.len() as int) =~= b);
}

/// A separator of one or two characters (with distinct characters if two)
/// cannot straddle the boundary between a separator-free prefix and the
/// separator itself; splitting then peels off the prefix.
pub proof fn lemma_concat_split(a: Seq<char>, b: Seq<char>, sep: Seq<char>)
    requires
        1 <= sep.len() <= 2,
        sep.len() == 2 ==> sep[0] != sep[1],
        !has_match(a, sep),
    ensures
        split_by(a + sep + b, sep) == seq![a] + split_by(b, sep),
{
    let s = a + sep + b;
    assert forall|i: int| 0 <= i < a.len() implies !match_at(s, sep, i) by {
        if match_at(s, sep, i) {
            if i + sep.len() <= a.len() {
                assert(match_at(a, sep, i)) by {
                    assert forall|j: int| 0 <= j < sep.len() implies a[i + j] == sep[j] by {
                        assert(s[i + j] == a[i + j]);
                    }
                }
                assert(has_match(a, sep));
            } else {
                assert(sep.len() == 2 && i == a.len() - 1);
                assert(s[i + 1] == sep[0]);
                assert(s[i + 1] == sep[1]);
            }
        }
    }
    lemma_split_prepend(a, b, sep);
}

/// Occurrences in a concatenation come from one of the parts when the
/// separator cannot straddle their boundary.
pub proof fn lemma_no_match_concat(x: Seq<char>, y: Seq<char>, sep: Seq<char>)
    requires
        1 <= sep.len() <= 2,
        !has_match(x, sep),
        !has_match(y, sep),
        sep.len() == 2 && x.len() > 0 && y.len() > 0 ==> !(x.last() == sep[0] && y[0] == sep[1]),
    ensures
        !has_match(x + y, sep),
{
    let s = x + y;
    assert forall|i: int| !match_at(s, sep, i) by {
        if match_at(s, sep, i) {
            if i + sep.len() <= x.len() {
                assert(match_at(x, sep, i)) by {
                    assert forall|j: int| 0 <= j < sep.len() implies x[i + j] == sep[j] by {
                        assert(s[i + j] == x[i + j]);
                    }
                }
                assert(has_match(x, sep));
            } else if i >= x.len() {
                assert(match_at(y, sep, i - x.len())) by {
                    assert forall|j: int| 0 <= j < sep.len() implies y[i - x.len() + j]
                        == sep[j] by {
                        assert(s[i + j] == y[i + j - x.len()]);
                    }
                }
                assert(has_match(y, sep));
            } else {
                assert(sep.len() == 2 && i == x.len() - 1);
                assert(s[i] == x.last());
                assert(s[i + 1] == y[0]);
            }
        }
    }
}

/// A single character that is not the one-character separator.
pub proof fn lemma_no_match_single(x: Seq<char>, sep: Seq<char>)
    requires
        sep.len() > x.len(),
    ensures
        !has_match(x, sep),
{
    assert forall|i: int| !match_at(x, sep, i) by {}
}

/// A whitespace character: the Unicode White_Space set, the characters that
/// `str::trim` removes.
pub open spec fn is_ws(c: char) -> bool {
    ||| c == ' '
    ||| c == '\t'
    ||| c == '\n'
    ||| c == '\u{b}'
    ||| c == '\u{c}'
    ||| c == '\r'
    ||| c == '\u{85}'
    ||| c == '\u{a0}'
    ||| c == '\u{1680}'
    ||| c == '\u{2000}'
    ||| c == '\u{2001}'
    ||| c == '\u{2002}'
    ||| c == '\u{2003}'
    ||| c == '\u{2004}'
    ||| c == '\u{2005}'
    ||| c == '\u{2006}'
    ||| c == '\u{2007}'
    ||| c == '\u{2008}'
    ||| c == '\u{2009}'
    ||| c == '\u{200a}'
    ||| c == '\u{2028}'
    ||| c == '\u{2029}'
    ||| c == '\u{202f}'
    ||| c == '\u{205f}'
    ||| c == '\u{3000}'
}

/// `s` with leading and trailing whitespace characters removed.
pub open spec fn trim_spec(s: Seq<char>) -> Seq<char>
    decreases s.len(),
{
    if s.len() == 0 {
        s
    } else if is_ws(s[0]) {
        trim_spec(s.drop_first())
    } else if is_ws(s.last()) {
        trim_spec(s.drop_last())
    } else {
        s
    }
}

/// Executable whitespace test.
pub fn ws_char(c: char) -> (b: bool)
    ensures
        b == is_ws(c),
{
    c == ' ' || c == '\t' || c == '\n' || c == '\u{b}' || c == '\u{c}' || c == '\r' || c == '\u{85}'
        || c == '\u{a0}' || c == '\u{1680}' || c == '\u{2000}' || c == '\u{2001}' || c == '\u{2002}'
        || c == '\u{2003}' || c == '\u{2004}' || c == '\u{2005}' || c == '\u{2006}' || c
        == '\u{2007}' || c == '\u{2008}' || c == '\u{2009}' || c == '\u{200a}' || c == '\u{2028}'
        || c == '\u{2029}' || c == '\u{202f}' || c == '\u{205f}' || c == '\u{3000}'
}

/// Character-by-character string equality.
pub fn str_eq(a: &str, b: &str) -> (r: bool)
    ensures
        r == (a@ == b@),
{
    let n = a.unicode_len();
    let m = b.unicode_len();
    if n != m {
        return false;
    }
    let mut i: usize = 0;
    while i < n
        invariant
            n == a@.len(),
            n == b@.len(),
            0 <= i <= n,
            forall|j: int| 0 <= j < i ==> a@[j] == b@[j],
        decreases n - i,
    {
        if a.get_char(i) != b.get_char(i) {
            assert(a@ != b@);
            return false;
        }
        i += 1;
    }
    assert(a@ =~= b@);
    true
}

/// Position of the first occurrence of `sep` in `s`, if any.
pub fn find_first(s: &str, sep: &str) -> (r: Option<usize>)
    requires
        1 <= sep@.len(),
    ensures
        match r {
            Some(i) => first_match(s@, sep@) == i && match_at(s@, sep@, i as int),
            None => first_match(s@, sep@) == -1 && !has_match(s@, sep@),
        },
{
    let n = s.unicode_len();
    let m = sep.unicode_len();
    if n < m {
        proof {
            assert forall|i: int| !match_at(s@, sep@, i) by {}
            lemma_first_match(s@, sep@);
        }
        return None;
    }
    let mut i: usize = 0;
    while i <= n - m
        invariant
            n == s@.len(),
            m == sep@.len(),
            1 <= m <= n,
            0 <= i <= n - m + 1,
            forall|j: int| 0 <= j < i ==> !match_at(s@, sep@, j),
        decreases n - m + 1 - i,
    {
        let mut j: usize = 0;
        let mut ok = true;
        while j < m
            invariant
                n == s@.len(),
                m == sep@.len(),
                i + m <= n,
                0 <= j <= m,
                ok ==> forall|t: int| 0 <= t < j ==> s@[i + t] == sep@[t],
                !ok ==> !match_at(s@, sep@, i as int),
            decreases m - j,
        {
            if s.get_char(i + j) != sep.get_char(j) {
                ok = false;
            }
            j += 1;
        }
        if ok {
            proof {
                assert(match_at(s@, sep@, i as int));
                lemma_first_match_unique(s@, sep@, i as int);
            }
            return Some(i);
        }
        i += 1;
    }
    proof {
        assert forall|j: int| !match_at(s@, sep@, j) by {
            if 0 <= j < i {
                assert(!match_at(s@, sep@, j));
            }
        }
        lemma_first_match(s@, sep@);
    }
    None
}

/// Split at the first occurrence of `sep`: the text before it and the text
/// after it, or nothing when `sep` does not occur.
pub open spec fn spec_split_once(s: Seq<char>, sep: Seq<char>) -> Option<(Seq<char>, Seq<char>)> {
    let i = first_match(s, sep);
    if i < 0 {
        None
    } else {
        Some((s.subrange(0, i), s.subrange(i + sep.len() as int, s.len() as int)))
    }
}

/// Executable form of `spec_split_once`.
pub fn split_once_str<'a>(s: &'a str, sep: &str) -> (r: Option<(&'a str, &'a str)>)
    requires
        1 <= sep@.len(),
    ensures
        match r {
            Some(p) => {
                let i = first_match(s@, sep@);
                &&& i >= 0
                &&& match_at(s@, sep@, i)
                &&& p.0@ == s@.subrange(0, i)
                &&& p.1@ == s@.subrange(i + sep@.len(), s@.len() as int)
                &&& p.1@.len() < s@.len()
                &&& split_by(s@, sep@) == seq![p.0@] + split_by(p.1@, sep@)
                &&& spec_split_once(s@, sep@) == Some((p.0@, p.1@))
            },
            None => !has_match(s@, sep@) && first_match(s@, sep@) == -1 && split_by(s@, sep@)
                == seq![s@] && spec_split_once(s@, sep@) is None,
        },
{
    match find_first(s, sep) {
        Some(i) => {
            let n = s.unicode_len();
            let m = sep.unicode_len();
            let left = s.substring_char(0, i);
            let right = s.substring_char(i + m, n);
            proof {
                lemma_first_match(s@, sep@);
                lemma_split_by_step(s@, sep@, i as int);
            }
            Some((left, right))
        },
        None => {
            proof {
                lemma_split_by_none(s@, sep@);
            }
            None
        },
    }
}

/// All pieces of `s` between occurrences of `sep`, in order.
pub fn split_all<'a>(s: &'a str, sep: &str) -> (r: Vec<&'a str>)
    requires
        1 <= sep@.len(),
    ensures
        r.deep_view() == split_by(s@, sep@),
        r.len() >= 1,
        r@.len() == r.deep_view().len(),
{
    let mut parts: Vec<&'a str> = Vec::new();
    let mut cur: &'a str = s;
    loop
        invariant
            1 <= sep@.len(),
            split_by(s@, sep@) == parts.deep_view() + split_by(cur@, sep@),
        decreases cur@.len(),
    {
        match split_once_str(cur, sep) {
            Some((a, b)) => {
                let ghost before = parts.deep_view();
                parts.push(a);
                proof {
                    assert(parts.deep_view() =~= before.push(a@));
                    assert(before.push(a@) + split_by(b@, sep@) =~= before + (seq![a@] + split_by(
                        b@,
                        sep@,
                    )));
                }
                cur = b;
            },
            None => {
                let ghost before = parts.deep_view();
                parts.push(cur);
                proof {
                    assert(parts.deep_view() =~= before.push(cur@));
                    assert(before.push(cur@) =~= before + seq![cur@]);
                    lemma_split_by_len(s@, sep@);
                }
                return parts;
            },
        }
    }
}

/// `join_by` over a sequence extended by one piece.
pub proof fn lemma_join_push(parts: Seq<Seq<char>>, sep: Seq<char>, e: Seq<char>)
    ensures
        parts.len() == 0 ==> join_by(parts.push(e), sep) == e,
        parts.len() > 0 ==> join_by(parts.push(e), sep) == join_by(parts, sep) + sep + e,
    decreases parts.len(),
{
    if parts.len() == 0 {
        assert(parts.push(e)[0] == e);
    } else if parts.len() == 1 {
        assert(parts.push(e).drop_first() =~= seq![e]);
        assert(parts.push(e)[0] == parts[0]);
        assert(join_by(seq![e], sep) == e);
        assert(join_by(parts.push(e), sep) == parts[0] + sep + e);
    } else {
        lemma_join_push(parts.drop_first(), sep, e);
        assert(parts.push(e).drop_first() =~= parts.drop_first().push(e));
        assert(join_by(parts.push(e), sep) == parts[0] + sep + join_by(
            parts.drop_first().push(e),
            sep,
        ));
        assert(parts[0] + sep + (join_by(parts.drop_first(), sep) + sep + e) =~= (parts[0] + sep
            + join_by(parts.drop_first(), sep)) + sep + e);
    }
}

/// Join the pieces from position `start` on with `sep` between each two.
pub fn join_from(parts: &Vec<&str>, start: usize, sep: &str) -> (r: String)
    requires
        start <= parts@.len(),
    ensures
        r@ == join_by(parts.deep_view().skip(start as int), sep@),
{
    let mut out = String::new();
    let mut j: usize = start;
    while j < parts.len()
        invariant
            start <= j <= parts@.len(),
            out@ == join_by(parts.deep_view().subrange(start as int, j as int), sep@),
        decreases parts@.len() - j,
    {
        let ghost sofar = parts.deep_view().subrange(start as int, j as int);
        if j > start {
            out.append(sep);
        }
        out.append(parts[j]);
        proof {
            lemma_join_push(sofar, sep@, parts.deep_view()[j as int]);
            assert(parts.deep_view().subrange(start as int, j + 1 as int) =~= sofar.push(
                parts.deep_view()[j as int],
            ));
            if j == start {
                assert(sofar.len() == 0);
                assert(out@ =~= parts.deep_view()[j as int]);
            }
        }
        j += 1;
    }
    proof {
        assert(parts.deep_view().subrange(start as int, parts@.len() as int)
            =~= parts.deep_view().skip(start as int));
    }
    out
}

/// `s` with surrounding whitespace removed.
pub fn trim_str<'a>(s: &'a str) -> (r: &'a str)
    ensures
        r@ == trim_spec(s@),
{
    let mut cur: &'a str = s;
    loop
        invariant
            trim_spec(s@) == trim_spec(cur@),
        decreases cur@.len(),
    {
        let n = cur.unicode_len();
        if n == 0 {
            return cur;
        }
        if ws_char(cur.get_char(0)) {
            let next = cur.substring_char(1, n);
            proof {
                assert(next@ =~= cur@.drop_first());
            }
            cur = next;
        } else if ws_char(cur.get_char(n - 1)) {
            let next = cur.substring_char(0, n - 1);
            proof {
                assert(next@ =~= cur@.drop_last());
            }
            cur = next;
        } else {
            return cur;
        }
    }
}

} // verus!
