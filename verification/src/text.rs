//! Character-level string utilities: equality, substring search, prefix
//! tests, and splitting on a separator character. All results are specified
//! against `Seq<char>` views.

use vstd::prelude::*;
use vstd::string::*;

verus! {

/// `needle` occurs contiguously somewhere in `hay`.
pub open spec fn contains_seq(hay: Seq<char>, needle: Seq<char>) -> bool {
    exists|i: int|
        0 <= i <= hay.len() - needle.len() && #[trigger] hay.subrange(i, i + needle.len() as int)
            == needle
}

/// `p` is a prefix of `s`.
pub open spec fn starts_with_seq(s: Seq<char>, p: Seq<char>) -> bool {
    p.len() <= s.len() && s.subrange(0, p.len() as int) == p
}

/// The tokens of `s` split on the single character `sep`: there is always at
/// least one token, and each occurrence of `sep` ends the current token.
pub open spec fn split_char(s: Seq<char>, sep: char) -> Seq<Seq<char>>
    decreases s.len(),
{
    if s.len() == 0 {
        seq![Seq::<char>::empty()]
    } else {
        let prev = split_char(s.drop_last(), sep);
        if s.last() == sep {
            prev.push(Seq::<char>::empty())
        } else {
            prev.update(prev.len() - 1, prev.last().push(s.last()))
        }
    }
}

pub proof fn lemma_split_char_len(s: Seq<char>, sep: char)
    ensures
        split_char(s, sep).len() >= 1,
    decreases s.len(),
{
    if s.len() > 0 {
        lemma_split_char_len(s.drop_last(), sep);
    }
}

/// Character-for-character string equality.
pub fn str_eq(a: &str, b: &str) -> (r: bool)
    ensures
        r == (a@ == b@),
{
    let alen = a.unicode_len();
    let blen = b.unicode_len();
    if alen != blen {
        return false;
    }
    let mut i: usize = 0;
    while i < alen
        invariant
            alen == a@.len(),
            alen == b@.len(),
            i <= alen,
            forall|k: int| 0 <= k < i ==> a@[k] == b@[k],
        decreases alen - i,
    {
        if a.get_char(i) != b.get_char(i) {
            return false;
        }
        i += 1;
    }
    proof {
        assert(a@ =~= b@);
    }
    true
}

/// `needle` occurs in `hay` starting at position `at`.
fn eq_at(hay: &str, needle: &str, at: usize, hlen: usize, nlen: usize) -> (r: bool)
    requires
        hlen == hay@.len(),
        nlen == needle@.len(),
        at + nlen <= hlen,
    ensures
        r == (hay@.subrange(at as int, at + needle@.len() as int) == needle@),
{
    let mut j: usize = 0;
    while j < nlen
        invariant
            hlen == hay@.len(),
            nlen == needle@.len(),
            at + nlen <= hlen,
            j <= nlen,
            forall|k: int| 0 <= k < j ==> hay@[at + k] == needle@[k],
        decreases nlen - j,
    {
        if hay.get_char(at + j) != needle.get_char(j) {
            proof {
                assert(hay@.subrange(at as int, at + needle@.len() as int)[j as int] == hay@[at
                    + j]);
            }
            return false;
        }
        j += 1;
    }
    proof {
        assert(hay@.subrange(at as int, at + needle@.len() as int) =~= needle@);
    }
    true
}

/// Substring search; the executable counterpart of [`contains_seq`].
pub fn contains_substr(hay: &str, needle: &str) -> (r: bool)
    ensures
        r == contains_seq(hay@, needle@),
{
    let hlen = hay.unicode_len();
    let nlen = needle.unicode_len();
    if nlen > hlen {
        return false;
    }
    let bound = hlen - nlen;
    let mut i: usize = 0;
    loop
        invariant
            hlen == hay@.len(),
            nlen == needle@.len(),
            nlen <= hlen,
            bound == hlen - nlen,
            i <= bound,
            forall|k: int|
                0 <= k < i ==> #[trigger] hay@.subrange(k, k + needle@.len() as int) != needle@,
        decreases bound - i,
    {
        if eq_at(hay, needle, i, hlen, nlen) {
            proof {
                assert(hay@.subrange(i as int, i + needle@.len() as int) == needle@);
            }
            return true;
        }
        if i == bound {
            return false;
        }
        i += 1;
    }
}

/// Prefix test; the executable counterpart of [`starts_with_seq`].
pub fn starts_with_str(s: &str, prefix: &str) -> (r: bool)
    ensures
        r == starts_with_seq(s@, prefix@),
{
    let slen = s.unicode_len();
    let plen = prefix.unicode_len();
    if plen > slen {
        return false;
    }
    eq_at(s, prefix, 0, slen, plen)
}

/// Splits `s` on the character `sep`, keeping empty tokens, exactly as
/// [`split_char`] describes.
pub fn split_on_char(s: &str, sep: char) -> (tokens: Vec<String>)
    ensures
        tokens.deep_view() == split_char(s@, sep),
{
    let n = s.unicode_len();
    let mut tokens: Vec<String> = Vec::new();
    let mut start: usize = 0;
    let mut i: usize = 0;
    proof {
        assert(s@.take(0) =~= Seq::<char>::empty());
        assert(tokens.deep_view() =~~= Seq::<Seq<char>>::empty());
        assert(tokens.deep_view().push(s@.subrange(0, 0)) =~~= split_char(s@.take(0), sep));
    }
    while i < n
        invariant
            n == s@.len(),
            start <= i <= n,
            tokens.deep_view().push(s@.subrange(start as int, i as int)) == split_char(
                s@.take(i as int),
                sep,
            ),
        decreases n - i,
    {
        let ghost old_tokens = tokens.deep_view();
        let ghost partial = s@.subrange(start as int, i as int);
        let ghost pre = s@.take(i as int);
        let ghost post = s@.take(i + 1 as int);
        let c = s.get_char(i);
        proof {
            assert(post.drop_last() =~= pre);
            assert(post.last() == s@[i as int]);
            lemma_split_char_len(pre, sep);
        }
        if c == sep {
            let t = String::from_str(s.substring_char(start, i));
            tokens.push(t);
            start = i + 1;
            proof {
                assert(tokens.deep_view() =~~= old_tokens.push(partial));
                assert(split_char(post, sep) == split_char(pre, sep).push(Seq::<char>::empty()));
                assert(tokens.deep_view().push(s@.subrange(start as int, i + 1 as int)) =~~=
                    split_char(post, sep));
            }
        } else {
            proof {
                let prev = split_char(pre, sep);
                assert(prev == old_tokens.push(partial));
                assert(split_char(post, sep) == prev.update(
                    prev.len() - 1,
                    prev.last().push(s@[i as int]),
                ));
                assert(tokens.deep_view().push(s@.subrange(start as int, i + 1 as int)) =~~=
                    split_char(post, sep));
            }
        }
        i += 1;
    }
    let t = String::from_str(s.substring_char(start, n));
    let ghost old_tokens = tokens.deep_view();
    tokens.push(t);
    proof {
        assert(s@.take(n as int) =~= s@);
        assert(tokens.deep_view() =~~= old_tokens.push(s@.subrange(start as int, n as int)));
    }
    tokens
}

} // verus!
