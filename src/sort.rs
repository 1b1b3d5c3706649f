use vstd::prelude::*;

use crate::membership::user_views;
use crate::proto::strs;
use crate::text::{fold_char_exec, nick_key, to_chars};
use crate::user::{rank, User, UserView};

verus! {

broadcast use vstd::seq_lib::to_multiset_build, vstd::seq_lib::to_multiset_insert;

/// Lexicographic order on sequences of code points; a prefix comes first.
pub open spec fn lex_le(a: Seq<u32>, b: Seq<u32>) -> bool
    decreases a.len(),
{
    if a.len() == 0 {
        true
    } else if b.len() == 0 {
        false
    } else if a[0] < b[0] {
        true
    } else if a[0] > b[0] {
        false
    } else {
        lex_le(a.drop_first(), b.drop_first())
    }
}

pub proof fn lemma_lex_total(a: Seq<u32>, b: Seq<u32>)
    ensures
        lex_le(a, b) || lex_le(b, a),
    decreases a.len(),
{
    if a.len() > 0 && b.len() > 0 && a[0] == b[0] {
        lemma_lex_total(a.drop_first(), b.drop_first());
    }
}

pub proof fn lemma_lex_transitive(a: Seq<u32>, b: Seq<u32>, c: Seq<u32>)
    requires
        lex_le(a, b),
        lex_le(b, c),
    ensures
        lex_le(a, c),
    decreases a.len(),
{
    if a.len() > 0 && b.len() > 0 && c.len() > 0 && a[0] == b[0] && b[0] == c[0] {
        lemma_lex_transitive(a.drop_first(), b.drop_first(), c.drop_first());
    }
}

/// Each key is no greater than every later one.
pub open spec fn sorted_keys(ks: Seq<Seq<u32>>) -> bool {
    forall|i: int, j: int| 0 <= i < j < ks.len() ==> lex_le(#[trigger] ks[i], #[trigger] ks[j])
}

/// Inserting a key after every key it is not below, and before the first one
/// above it, keeps the keys sorted.
pub proof fn lemma_insert_sorted(ks: Seq<Seq<u32>>, p: int, k: Seq<u32>)
    requires
        sorted_keys(ks),
        0 <= p <= ks.len(),
        forall|i: int| 0 <= i < p ==> lex_le(#[trigger] ks[i], k),
        p == ks.len() || !lex_le(ks[p], k),
    ensures
        sorted_keys(ks.insert(p, k)),
{
    let n = ks.insert(p, k);
    if p < ks.len() {
        lemma_lex_total(ks[p], k);
    }
    assert forall|i: int, j: int| 0 <= i < j < n.len() implies lex_le(#[trigger] n[i], #[trigger] n[j]) by {
        if j < p {
            assert(n[i] == ks[i] && n[j] == ks[j]);
        } else if j == p {
            assert(n[i] == ks[i]);
        } else if i < p {
            assert(n[i] == ks[i] && n[j] == ks[j - 1]);
        } else if i == p {
            assert(n[j] == ks[j - 1]);
            if p < j - 1 {
                lemma_lex_transitive(k, ks[p], ks[j - 1]);
            }
        } else {
            assert(n[i] == ks[i - 1] && n[j] == ks[j - 1]);
        }
    }
}

/// The order of a channel list: by code points.
pub open spec fn name_key(s: Seq<char>) -> Seq<u32> {
    s.map_values(|c: char| c as u32)
}

/// The order of a member list: higher access level first, then by nickname
/// regardless of ASCII case.
pub open spec fn user_key(u: UserView) -> Seq<u32> {
    seq![(5 - rank(u.access)) as u32] + nick_key(u.nick)
}

pub open spec fn name_keys(s: Seq<Seq<char>>) -> Seq<Seq<u32>> {
    s.map_values(|n: Seq<char>| name_key(n))
}

pub open spec fn user_keys(s: Seq<UserView>) -> Seq<Seq<u32>> {
    s.map_values(|u: UserView| user_key(u))
}

fn lex_le_exec(a: &Vec<u32>, b: &Vec<u32>) -> (r: bool)
    ensures
        r == lex_le(a@, b@),
{
    let mut i: usize = 0;
    assert(a@.subrange(0, a@.len() as int) =~= a@);
    assert(b@.subrange(0, b@.len() as int) =~= b@);
    while i < a.len() && i < b.len()
        invariant
            i <= a@.len(),
            i <= b@.len(),
            lex_le(a@, b@) == lex_le(a@.subrange(i as int, a@.len() as int), b@.subrange(i as int, b@.len() as int)),
        decreases a@.len() - i,
    {
        let ghost sa = a@.subrange(i as int, a@.len() as int);
        let ghost sb = b@.subrange(i as int, b@.len() as int);
        assert(sa[0] == a@[i as int] && sb[0] == b@[i as int]);
        if a[i] < b[i] {
            return true;
        }
        if a[i] > b[i] {
            return false;
        }
        assert(sa.drop_first() =~= a@.subrange(i + 1, a@.len() as int));
        assert(sb.drop_first() =~= b@.subrange(i + 1, b@.len() as int));
        i = i + 1;
    }
    let ghost sa = a@.subrange(i as int, a@.len() as int);
    let ghost sb = b@.subrange(i as int, b@.len() as int);
    if i == a.len() {
        assert(sa.len() == 0);
        true
    } else {
        assert(sb.len() == 0);
        false
    }
}

fn name_key_exec(s: &String) -> (r: Vec<u32>)
    ensures
        r@ == name_key(s@),
{
    let chars = to_chars(s.as_str());
    let mut r: Vec<u32> = Vec::new();
    let mut i: usize = 0;
    while i < chars.len()
        invariant
            chars@ == s@,
            i <= chars@.len(),
            r@ == name_key(s@.subrange(0, i as int)),
        decreases chars@.len() - i,
    {
        r.push(chars[i] as u32);
        i = i + 1;
        assert(r@ =~= name_key(s@.subrange(0, i as int)));
    }
    assert(s@.subrange(0, chars@.len() as int) =~= s@);
    r
}

fn user_key_exec(u: &User) -> (r: Vec<u32>)
    ensures
        r@ == user_key(u.view()),
{
    let chars = to_chars(u.nickname.as_str());
    let mut r: Vec<u32> = Vec::new();
    r.push((5 - u.access.rank()) as u32);
    let mut i: usize = 0;
    while i < chars.len()
        invariant
            chars@ == u.nickname@,
            i <= chars@.len(),
            r@ == seq![(5 - rank(u.access)) as u32] + nick_key(u.nickname@.subrange(0, i as int)),
        decreases chars@.len() - i,
    {
        r.push(fold_char_exec(chars[i]));
        i = i + 1;
        assert(r@ =~= seq![(5 - rank(u.access)) as u32] + nick_key(u.nickname@.subrange(0, i as int)));
    }
    assert(u.nickname@.subrange(0, chars@.len() as int) =~= u.nickname@);
    r
}

/// The channel names in code-point order.
pub fn sort_names(v: Vec<String>) -> (r: Vec<String>)
    ensures
        strs(r@).to_multiset() == strs(v@).to_multiset(),
        sorted_keys(name_keys(strs(r@))),
{
    let ghost orig = v@;
    let n = v.len();
    let mut rest = v;
    let mut out: Vec<String> = Vec::new();
    let mut i: usize = 0;
    assert(strs(orig.subrange(0, 0)) =~= Seq::empty());
    assert(strs(out@) =~= Seq::empty());
    while i < n
        invariant
            n == orig.len(),
            i <= n,
            rest@ == orig.subrange(i as int, n as int),
            strs(out@).to_multiset() == strs(orig.subrange(0, i as int)).to_multiset(),
            sorted_keys(name_keys(strs(out@))),
        decreases n - i,
    {
        let x = rest.remove(0);
        assert(x == orig[i as int]);
        let key = name_key_exec(&x);
        let mut p: usize = 0;
        while p < out.len() && lex_le_exec(&name_key_exec(&out[p]), &key)
            invariant
                p <= out@.len(),
                key@ == name_key(x@),
                forall|q: int| 0 <= q < p ==> lex_le(#[trigger] name_keys(strs(out@))[q], key@),
            decreases out@.len() - p,
        {
            assert(name_keys(strs(out@))[p as int] == name_key(out@[p as int]@));
            p = p + 1;
        }
        proof {
            if p < out@.len() {
                assert(name_keys(strs(out@))[p as int] == name_key(out@[p as int]@));
            }
            lemma_insert_sorted(name_keys(strs(out@)), p as int, key@);
        }
        let ghost before = out@;
        out.insert(p, x);
        proof {
            assert(strs(out@) =~= strs(before).insert(p as int, x@));
            assert(name_keys(strs(out@)) =~= name_keys(strs(before)).insert(p as int, key@));
            assert(strs(orig.subrange(0, i + 1)) =~= strs(orig.subrange(0, i as int)).push(x@));
        }
        i = i + 1;
        assert(rest@ =~= orig.subrange(i as int, n as int));
    }
    assert(orig.subrange(0, n as int) =~= orig);
    out
}

/// The members with higher access levels first, then by nickname.
pub fn sort_users(v: Vec<User>) -> (r: Vec<User>)
    ensures
        user_views(r@).to_multiset() == user_views(v@).to_multiset(),
        sorted_keys(user_keys(user_views(r@))),
{
    let ghost orig = v@;
    let n = v.len();
    let mut rest = v;
    let mut out: Vec<User> = Vec::new();
    let mut i: usize = 0;
    assert(user_views(orig.subrange(0, 0)) =~= Seq::empty());
    assert(user_views(out@) =~= Seq::empty());
    while i < n
        invariant
            n == orig.len(),
            i <= n,
            rest@ == orig.subrange(i as int, n as int),
            user_views(out@).to_multiset() == user_views(orig.subrange(0, i as int)).to_multiset(),
            sorted_keys(user_keys(user_views(out@))),
        decreases n - i,
    {
        let x = rest.remove(0);
        assert(x == orig[i as int]);
        let key = user_key_exec(&x);
        let mut p: usize = 0;
        while p < out.len() && lex_le_exec(&user_key_exec(&out[p]), &key)
            invariant
                p <= out@.len(),
                key@ == user_key(x.view()),
                forall|q: int| 0 <= q < p ==> lex_le(#[trigger] user_keys(user_views(out@))[q], key@),
            decreases out@.len() - p,
        {
            assert(user_keys(user_views(out@))[p as int] == user_key(out@[p as int].view()));
            p = p + 1;
        }
        proof {
            if p < out@.len() {
                assert(user_keys(user_views(out@))[p as int] == user_key(out@[p as int].view()));
            }
            lemma_insert_sorted(user_keys(user_views(out@)), p as int, key@);
        }
        let ghost before = out@;
        out.insert(p, x);
        proof {
            assert(user_views(out@) =~= user_views(before).insert(p as int, x.view()));
            assert(user_keys(user_views(out@)) =~= user_keys(user_views(before)).insert(p as int, key@));
            assert(user_views(orig.subrange(0, i + 1)) =~= user_views(orig.subrange(0, i as int)).push(x.view()));
        }
        i = i + 1;
        assert(rest@ =~= orig.subrange(i as int, n as int));
    }
    assert(orig.subrange(0, n as int) =~= orig);
    out
}

} // verus!
