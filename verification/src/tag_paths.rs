//! The shape of tag paths: their segments, and what a listing of the tags
//! below a path shows.
use vstd::prelude::*;

use crate::spk_storage::path_join;
use crate::text::{occurs_at, replace_all};

verus! {

/// No character of `s` is a `/`.
pub open spec fn no_slash(s: Seq<char>) -> bool {
    forall|i: int| 0 <= i < s.len() ==> s[i] != '/'
}

/// A segment of a tag path: not empty, with no `/`.
pub open spec fn is_segment(s: Seq<char>) -> bool {
    s.len() > 0 && no_slash(s)
}

/// The number of `/` characters in `s`.
pub open spec fn slash_count(s: Seq<char>) -> nat
    decreases s.len(),
{
    if s.len() == 0 {
        0
    } else {
        (if s[0] == '/' {
            1nat
        } else {
            0nat
        }) + slash_count(s.drop_first())
    }
}

/// `name` is an entry of the listing of the directory `dir` that the tag path
/// `path` shows: the segment that follows `dir/`, with a trailing `/` where
/// more follows.
pub open spec fn entry_of(path: Seq<char>, dir: Seq<char>, name: Seq<char>) -> bool {
    let prefix = dir.push('/');
    ||| is_segment(name) && path == prefix + name
    ||| name.len() > 1 && name.last() == '/' && is_segment(name.drop_last()) && path.len()
        >= prefix.len() + name.len() && path.subrange(0, (prefix.len() + name.len()) as int) == prefix
        + name
}

/// What listing the directory `dir` shows of the tag paths `paths`.
pub open spec fn listing(paths: Set<Seq<char>>, dir: Seq<char>) -> Set<Seq<char>> {
    Set::new(|name: Seq<char>| exists|p: Seq<char>| paths.contains(p) && #[trigger] entry_of(p, dir, name))
}

pub proof fn lemma_slash_count_add(a: Seq<char>, b: Seq<char>)
    ensures
        slash_count(a + b) == slash_count(a) + slash_count(b),
    decreases a.len(),
{
    if a.len() > 0 {
        assert((a + b).drop_first() =~= a.drop_first() + b);
        lemma_slash_count_add(a.drop_first(), b);
    } else {
        assert(a + b =~= b);
    }
}

pub proof fn lemma_no_slash_count(s: Seq<char>)
    ensures
        no_slash(s) <==> slash_count(s) == 0,
    decreases s.len(),
{
    if s.len() > 0 {
        lemma_no_slash_count(s.drop_first());
        if no_slash(s) {
            assert forall|i: int| 0 <= i < s.drop_first().len() implies s.drop_first()[i] != '/' by {
                assert(s.drop_first()[i] == s[i + 1]);
            }
        }
        if slash_count(s) == 0 {
            assert forall|i: int| 0 <= i < s.len() implies s[i] != '/' by {
                if i > 0 {
                    assert(s[i] == s.drop_first()[i - 1]);
                }
            }
        }
    }
}

/// Replacing pieces without `/` by pieces without `/` keeps every `/`, keeps
/// a first and a last character that are not `/`, and keeps a text that is
/// not empty not empty.
pub proof fn lemma_replace_all_shape(s: Seq<char>, from: Seq<char>, to: Seq<char>)
    requires
        is_segment(from),
        is_segment(to),
    ensures
        slash_count(replace_all(s, from, to)) == slash_count(s),
        s.len() > 0 ==> replace_all(s, from, to).len() > 0,
        s.len() > 0 && s[0] != '/' ==> replace_all(s, from, to)[0] != '/',
        s.len() > 0 && s.last() != '/' ==> replace_all(s, from, to).last() != '/',
    decreases s.len(),
{
    lemma_no_slash_count(from);
    lemma_no_slash_count(to);
    if s.len() > 0 {
        if occurs_at(s, from, 0) {
            let rest = s.skip(from.len() as int);
            lemma_replace_all_shape(rest, from, to);
            assert(s =~= s.subrange(0, from.len() as int) + rest);
            lemma_slash_count_add(s.subrange(0, from.len() as int), rest);
            lemma_slash_count_add(to, replace_all(rest, from, to));
            if rest.len() > 0 {
                assert(rest.last() == s.last());
            }
        } else {
            let rest = s.drop_first();
            lemma_replace_all_shape(rest, from, to);
            assert(s =~= seq![s[0]] + rest);
            lemma_slash_count_add(seq![s[0]], rest);
            lemma_slash_count_add(seq![s[0]], replace_all(rest, from, to));
            assert(slash_count(seq![s[0]]) == (if s[0] == '/' { 1nat } else { 0nat })) by {
                assert(seq![s[0]].drop_first().len() == 0);
            }
            if rest.len() > 0 {
                assert(rest.last() == s.last());
            }
        }
    }
}

/// Joining a segment below a path that ends in a segment puts a `/`
/// between them.
pub proof fn lemma_path_join_segment(base: Seq<char>, part: Seq<char>)
    requires
        base.len() > 0,
        base.last() != '/',
        part.len() > 0,
        part[0] != '/',
    ensures
        path_join(base, part) == base.push('/') + part,
{
    assert(base + seq!['/'] + part =~= base.push('/') + part);
}

/// Two paths that each end in `/` and a segment are the same path only
/// where both the heads and the segments are the same.
pub proof fn lemma_last_segment(a: Seq<char>, x: Seq<char>, b: Seq<char>, y: Seq<char>)
    requires
        no_slash(x),
        no_slash(y),
        a.push('/') + x == b.push('/') + y,
    ensures
        a == b,
        x == y,
{
    let p = a.push('/') + x;
    let q = b.push('/') + y;
    assert(p.len() == a.len() + 1 + x.len());
    assert(q.len() == b.len() + 1 + y.len());
    if a.len() < b.len() {
        assert(q[b.len() as int] == b.push('/')[b.len() as int]);
        assert(p[b.len() as int] == x[b.len() - a.len() - 1]);
        assert(x[b.len() - a.len() - 1] != '/');
    } else if b.len() < a.len() {
        assert(p[a.len() as int] == a.push('/')[a.len() as int]);
        assert(q[a.len() as int] == y[a.len() - b.len() - 1]);
        assert(y[a.len() - b.len() - 1] != '/');
    }
    assert(a =~= p.subrange(0, a.len() as int));
    assert(b =~= q.subrange(0, b.len() as int));
    assert(x =~= p.subrange(a.len() as int + 1, p.len() as int));
    assert(y =~= q.subrange(b.len() as int + 1, q.len() as int));
}

} // verus!
