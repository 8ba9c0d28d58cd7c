//! Paths, and when two of them are the same.

use crate::text::{chars_of, part, text_is, texts};
use vstd::prelude::*;

verus! {

/// The length of the part with which a path starts, up to a slash.
pub open spec fn part_len(s: Seq<char>) -> nat
    decreases s.len(),
{
    if s.len() == 0 || s[0] == '/' {
        0
    } else {
        1 + part_len(s.skip(1))
    }
}

/// A path starts with a part of no more than its own length, and with one at
/// all unless it is empty or starts with a slash.
pub proof fn lemma_part_len_bound(s: Seq<char>)
    ensures
        part_len(s) <= s.len(),
        s.len() > 0 && s[0] != '/' ==> part_len(s) > 0,
    decreases s.len(),
{
    if s.len() > 0 && s[0] != '/' {
        lemma_part_len_bound(s.skip(1));
    }
}

/// The parts of a path: what stands between its slashes, but for nothing and
/// for a single dot.
pub open spec fn parts_of(s: Seq<char>) -> Seq<Seq<char>>
    decreases s.len(),
{
    if s.len() == 0 {
        seq![]
    } else if s[0] == '/' {
        parts_of(s.skip(1))
    } else {
        let n = part_len(s) as int;
        proof {
            lemma_part_len_bound(s);
        }
        if s.take(n) == seq!['.'] {
            parts_of(s.skip(n))
        } else {
            seq![s.take(n)] + parts_of(s.skip(n))
        }
    }
}

/// Whether a path starts at the root.
pub open spec fn is_rooted(s: Seq<char>) -> bool {
    s.len() > 0 && s[0] == '/'
}

/// Whether a path starts with a single dot as its first part.
pub open spec fn starts_with_dot(s: Seq<char>) -> bool {
    s.len() > 0 && s[0] == '.' && (s.len() == 1 || s[1] == '/')
}

/// Whether two paths are the same, part by part: repeated slashes, slashes at
/// the end and single dots make no difference, but for a dot at the start.
pub open spec fn same_path(a: Seq<char>, b: Seq<char>) -> bool {
    &&& is_rooted(a) == is_rooted(b)
    &&& starts_with_dot(a) == starts_with_dot(b)
    &&& parts_of(a) == parts_of(b)
}

/// Parts with a slash between each two.
pub open spec fn slashed(parts: Seq<Seq<char>>) -> Seq<char>
    decreases parts.len(),
{
    if parts.len() == 0 {
        seq![]
    } else if parts.len() == 1 {
        parts[0]
    } else {
        slashed(parts.drop_last()).push('/') + parts.last()
    }
}

/// Whether a path is nothing but its parts with a slash between each two.
pub open spec fn is_plain(s: Seq<char>) -> bool {
    s == slashed(parts_of(s))
}

proof fn lemma_part_len(s: Seq<char>, n: int)
    requires
        0 <= n <= s.len(),
        forall|k: int| 0 <= k < n ==> #[trigger] s[k] != '/',
    ensures
        part_len(s) == n + part_len(s.skip(n)),
    decreases n,
{
    if n > 0 {
        lemma_part_len(s.skip(1), n - 1);
        assert(s.skip(1).skip(n - 1) == s.skip(n));
    } else {
        assert(s.skip(0) == s);
    }
}

/// Splits a path into its parts.
pub fn split_path(s: &str) -> (parts: Vec<String>)
    ensures
        texts(parts@) == parts_of(s@),
{
    let chars = chars_of(s);
    let mut parts: Vec<String> = Vec::new();
    let mut i: usize = 0;
    assert(s@.skip(0) == s@);
    assert(texts(parts@) + parts_of(s@) == parts_of(s@));
    while i < chars.len()
        invariant
            i <= chars@.len(),
            chars@ == s@,
            texts(parts@) + parts_of(s@.skip(i as int)) == parts_of(s@),
        decreases chars.len() - i,
    {
        let ghost rest = s@.skip(i as int);
        if chars[i] == '/' {
            assert(rest.skip(1) == s@.skip(i + 1));
            i = i + 1;
        } else {
            let mut j: usize = i;
            while j < chars.len() && chars[j] != '/'
                invariant
                    i <= j <= chars@.len(),
                    chars@ == s@,
                    rest == s@.skip(i as int),
                    forall|k: int| 0 <= k < j - i ==> #[trigger] rest[k] != '/',
                decreases chars.len() - j,
            {
                j = j + 1;
            }
            let ghost name = rest.take(j - i);
            proof {
                lemma_part_len(rest, j - i);
                assert(rest.skip(j - i) == s@.skip(j as int));
                assert(name == s@.subrange(i as int, j as int));
            }
            assert(j > i);
            if j == i + 1 && chars[i] == '.' {
                assert(name == seq!['.']);
            } else {
                assert(name != seq!['.']) by {
                    assert(name[0] == chars@[i as int]);
                }
                let ghost before = texts(parts@);
                parts.push(part(&chars, i, j));
                assert(texts(parts@) == before.push(name));
                assert(texts(parts@) + parts_of(s@.skip(j as int)) == before + (seq![name]
                    + parts_of(s@.skip(j as int))));
            }
            i = j;
        }
    }
    assert(parts_of(s@.skip(i as int)) == Seq::<Seq<char>>::empty());
    assert(texts(parts@) + Seq::<Seq<char>>::empty() == texts(parts@));
    parts
}

fn rooted(chars: &Vec<char>) -> (b: bool)
    ensures
        b == is_rooted(chars@),
{
    chars.len() > 0 && chars[0] == '/'
}

fn dot_first(chars: &Vec<char>) -> (b: bool)
    ensures
        b == starts_with_dot(chars@),
{
    chars.len() > 0 && chars[0] == '.' && (chars.len() == 1 || chars[1] == '/')
}

/// Whether two paths are the same, part by part.
pub fn path_is(a: &str, b: &str) -> (same: bool)
    ensures
        same == same_path(a@, b@),
{
    let x = chars_of(a);
    let y = chars_of(b);
    if rooted(&x) != rooted(&y) || dot_first(&x) != dot_first(&y) {
        return false;
    }
    let p = split_path(a);
    let q = split_path(b);
    assert(texts(p@).len() == p@.len() && texts(q@).len() == q@.len());
    if p.len() != q.len() {
        return false;
    }
    let mut i: usize = 0;
    while i < p.len()
        invariant
            i <= p@.len() == q@.len(),
            texts(p@) == parts_of(a@),
            texts(q@) == parts_of(b@),
            forall|k: int| 0 <= k < i ==> texts(p@)[k] == #[trigger] texts(q@)[k],
        decreases p.len() - i,
    {
        if !text_is(&p[i], &q[i]) {
            assert(texts(p@)[i as int] != texts(q@)[i as int]);
            return false;
        }
        i = i + 1;
    }
    assert(texts(p@) == texts(q@));
    true
}

/// Every path is the same as itself.
pub proof fn same_path_reflexive(a: Seq<char>)
    ensures
        same_path(a, a),
{
}

/// Of two paths that are the same, each is the same as the other.
pub proof fn same_path_symmetric(a: Seq<char>, b: Seq<char>)
    requires
        same_path(a, b),
    ensures
        same_path(b, a),
{
}

/// Two paths that are the same as a third one are the same.
pub proof fn same_path_transitive(a: Seq<char>, b: Seq<char>, c: Seq<char>)
    requires
        same_path(a, b),
        same_path(b, c),
    ensures
        same_path(a, c),
{
}

/// A slash at the end of a path makes no difference, unless it is all there is.
pub proof fn slash_at_the_end_is_nothing(s: Seq<char>)
    requires
        s.len() > 0,
    ensures
        same_path(s.push('/'), s),
{
    lemma_slash_at_the_end(s);
}

proof fn lemma_slash_at_the_end(s: Seq<char>)
    ensures
        part_len(s.push('/')) == part_len(s),
        parts_of(s.push('/')) == parts_of(s),
    decreases s.len(),
{
    let t = s.push('/');
    lemma_part_len_bound(s);
    if s.len() == 0 {
        assert(t.skip(1) == s);
    } else {
        assert(t[0] == s[0]);
        assert(t.skip(1) == s.skip(1).push('/'));
        lemma_slash_at_the_end(s.skip(1));
        if s[0] != '/' {
            let n = part_len(s) as int;
            assert(t.take(n) == s.take(n));
            assert(t.skip(n) == s.skip(n).push('/'));
            lemma_slash_at_the_end(s.skip(n));
        }
    }
}

/// Plain paths that are the same are the same text.
pub proof fn plain_paths_are_told_apart(a: Seq<char>, b: Seq<char>)
    requires
        is_plain(a),
        is_plain(b),
        same_path(a, b),
    ensures
        a == b,
{
}

/// A name without a slash, other than a single dot, is a plain path.
pub proof fn names_are_plain(s: Seq<char>)
    requires
        !s.contains('/'),
        s != seq!['.'],
    ensures
        is_plain(s),
{
    let n = s.len() as int;
    if n > 0 {
        assert forall|k: int| 0 <= k < n implies #[trigger] s[k] != '/' by {
            assert(s.contains(s[k]));
        }
        lemma_part_len(s, n);
        assert(s.take(n) == s);
        assert(s.skip(n) == Seq::<char>::empty());
        assert(parts_of(s) == seq![s] + parts_of(s.skip(n)));
        assert(parts_of(s) == seq![s]);
        assert(slashed(seq![s]) == s);
    } else {
        assert(slashed(parts_of(s)) == s);
    }
}

} // verus!
